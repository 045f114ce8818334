use vstd::prelude::*;
use dlc_messages::oracle_msgs::{OracleAnnouncement, OracleAttestation};
use lightning::util::ser::Readable;
use crate::armor::from_base64;
use crate::error::TransportError;
use crate::router::unarmored;

verus! {

#[verifier::external_type_specification]
#[verifier::external_body]
pub struct ExOracleAnnouncement(OracleAnnouncement);

#[verifier::external_type_specification]
#[verifier::external_body]
pub struct ExOracleAttestation(OracleAttestation);

/// Whether `b` is the wire encoding of an oracle announcement.
pub uninterp spec fn announcement_parses(b: Seq<u8>) -> bool;

/// Whether `b` is the wire encoding of an oracle attestation.
pub uninterp spec fn attestation_parses(b: Seq<u8>) -> bool;

/// Relies on dlc_messages' `Readable` impl of `OracleAnnouncement`: it reads
/// an announcement from the start of the bytes, or fails.
#[verifier::external_body]
fn read_announcement(b: &Vec<u8>) -> (r: Result<OracleAnnouncement, TransportError>)
    ensures
        r is Ok <==> announcement_parses(b@),
        r matches Err(e) ==> e == TransportError::MalformedPayload,
{
    let mut cursor = lightning::io::Cursor::new(b);
    OracleAnnouncement::read(&mut cursor).map_err(|_| TransportError::MalformedPayload)
}

/// Relies on dlc_messages' `Readable` impl of `OracleAttestation`: it reads
/// an attestation from the start of the bytes, or fails.
#[verifier::external_body]
fn read_attestation(b: &Vec<u8>) -> (r: Result<OracleAttestation, TransportError>)
    ensures
        r is Ok <==> attestation_parses(b@),
        r matches Err(e) ==> e == TransportError::MalformedPayload,
{
    let mut cursor = lightning::io::Cursor::new(b);
    OracleAttestation::read(&mut cursor).map_err(|_| TransportError::MalformedPayload)
}

/// Reads an oracle announcement from the bytes of an announcement envelope.
pub fn oracle_announcement_from_bytes(b: &Vec<u8>) -> (r: Result<OracleAnnouncement, TransportError>)
    ensures
        r is Ok <==> announcement_parses(b@),
        r matches Err(e) ==> e == TransportError::MalformedPayload,
{
    read_announcement(b)
}

/// Reads an oracle announcement from the base64 content of an envelope.
pub fn oracle_announcement_from_str(content: &str) -> (r: Result<OracleAnnouncement, TransportError>)
    ensures
        r is Ok <==> (unarmored(content@) matches Some(b) && announcement_parses(b)),
        r matches Err(e) ==> e == TransportError::MalformedPayload,
{
    let bytes = from_base64(content)?;
    assert(unarmored(content@) == Some(bytes@));
    read_announcement(&bytes)
}

/// Reads an oracle attestation from the bytes of an attestation envelope.
pub fn oracle_attestation_from_bytes(b: &Vec<u8>) -> (r: Result<OracleAttestation, TransportError>)
    ensures
        r is Ok <==> attestation_parses(b@),
        r matches Err(e) ==> e == TransportError::MalformedPayload,
{
    read_attestation(b)
}

/// Reads an oracle attestation from the base64 content of an envelope.
pub fn oracle_attestation_from_str(content: &str) -> (r: Result<OracleAttestation, TransportError>)
    ensures
        r is Ok <==> (unarmored(content@) matches Some(b) && attestation_parses(b)),
        r matches Err(e) ==> e == TransportError::MalformedPayload,
{
    let bytes = from_base64(content)?;
    assert(unarmored(content@) == Some(bytes@));
    read_attestation(&bytes)
}

} // verus!

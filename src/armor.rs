use vstd::prelude::*;
use base64::Engine;
use crate::error::TransportError;

verus! {

/// The standard base64 text, with padding, of `b`.
pub uninterp spec fn base64_text(b: Seq<u8>) -> Seq<char>;

/// Relies on base64's `STANDARD` engine `encode`: the padded standard
/// alphabet text of the bytes.
#[verifier::external_body]
pub(crate) fn to_base64(b: &Vec<u8>) -> (r: String)
    ensures
        r@ == base64_text(b@),
{
    base64::engine::general_purpose::STANDARD.encode(b)
}

/// Relies on base64's `STANDARD` engine `decode`: it accepts exactly the
/// canonical padded text of some bytes, and gives back those bytes.
#[verifier::external_body]
pub(crate) fn from_base64(s: &str) -> (r: Result<Vec<u8>, TransportError>)
    ensures
        match r {
            Ok(d) => base64_text(d@) == s@,
            Err(e) => e == TransportError::MalformedPayload,
        },
        r is Err ==> forall|d: Seq<u8>| base64_text(d) != s@,
        r matches Ok(x) ==> forall|d: Seq<u8>| base64_text(d) == s@ ==> d == x@,
{
    base64::engine::general_purpose::STANDARD.decode(s).map_err(|_| TransportError::MalformedPayload)
}

} // verus!

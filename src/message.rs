use vstd::prelude::*;
use dlc_messages::message_handler::read_dlc_message;

verus! {

/// Whether `body` is the serialization of a negotiation message of type `tag`.
pub uninterp spec fn dlc_message_parses(tag: u16, body: Seq<u8>) -> bool;

/// Relies on dlc_messages' `read_dlc_message`: it reads a negotiation message
/// of a known type from the body, gives nothing for an unknown type, and
/// fails on a body that does not parse; it depends on its arguments alone.
#[verifier::external_body]
pub(crate) fn is_dlc_message(tag: u16, body: &Vec<u8>) -> (r: bool)
    ensures
        r == dlc_message_parses(tag, body@),
{
    let mut cursor = lightning::io::Cursor::new(body);
    read_dlc_message(tag, &mut cursor).ok().flatten().is_some()
}

} // verus!

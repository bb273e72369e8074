use vstd::prelude::*;
use vstd::utf8::{decode_utf8, valid_utf8};
use crate::size::StringSize;

verus! {

/// Relies on `String::from_utf8` of std: it accepts exactly the well-formed
/// UTF-8 byte sequences, and the string it builds holds their scalars.
#[verifier::external_body]
fn decode(buff: Vec<u8>) -> (r: Option<String>)
    ensures
        r is Some <==> valid_utf8(buff@),
        r matches Some(s) ==> s@ == decode_utf8(buff@),
{
    String::from_utf8(buff).ok()
}

/// Text of an entity of size `size` from the bytes that the engine wrote for
/// it: none where the bytes are not exactly `size.bytes` long or not
/// well-formed UTF-8.
pub fn text_from_buffer(size: StringSize, buff: Vec<u8>) -> (r: Option<String>)
    ensures
        r is Some <==> (buff@.len() == size.bytes && valid_utf8(buff@)),
        r matches Some(s) ==> s@ == decode_utf8(buff@),
{
    if buff.len() != size.bytes as usize {
        return None;
    }
    decode(buff)
}

/// Whether a sentence with text `text` marks a forced split: its whole text
/// equals `marker`. A sentence without text never does.
pub open spec fn is_marker(text: Option<String>, marker: Option<String>) -> bool {
    match (text, marker) {
        (Some(t), Some(m)) => t@ == m@,
        _ => false,
    }
}

/// Tests whether a sentence with text `text` marks a forced split.
pub fn is_force_split(text: &Option<String>, marker: &Option<String>) -> (r: bool)
    ensures
        r == is_marker(*text, *marker),
{
    match (text, marker) {
        (Some(t), Some(m)) => t.eq(m),
        _ => false,
    }
}

} // verus!

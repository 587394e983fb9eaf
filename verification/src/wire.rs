//! The inbound wire format: a datagram whose whole payload is the identifier.

use vstd::prelude::*;
use vstd::utf8::{decode_utf8, encode_utf8, encode_utf8_decode_utf8, valid_utf8};

verus! {

/// `String::from_utf8` of the standard library. It accepts exactly the byte
/// strings that are valid UTF-8, and the string it then gives is the one
/// whose UTF-8 encoding is `bytes`. Nothing of this is proved here.
#[verifier::external_body]
fn string_from_utf8(bytes: Vec<u8>) -> (text: Option<String>)
    ensures
        text is Some <==> valid_utf8(bytes@),
        text matches Some(s) ==> encode_utf8(s@) == bytes@,
{
    match String::from_utf8(bytes) {
        Ok(text) => Some(text),
        Err(_) => None,
    }
}

/// The identifier that a payload carries: its text, if the payload is not
/// empty and is valid UTF-8. The text is taken as it stands, with no
/// trimming and no normalization.
pub open spec fn identifier_of(payload: Seq<u8>) -> Option<Seq<char>> {
    if payload.len() > 0 && valid_utf8(payload) {
        Some(decode_utf8(payload))
    } else {
        None
    }
}

/// Reads the identifier out of a datagram's payload. A payload that is
/// empty or is not valid UTF-8 carries no identifier and is to be dropped.
pub fn decode_identifier(payload: Vec<u8>) -> (identifier: Option<String>)
    ensures
        match identifier {
            Some(text) => identifier_of(payload@) == Some(text@) && text@.len() > 0,
            None => identifier_of(payload@) is None,
        },
{
    if payload.len() == 0 {
        return None;
    }
    match string_from_utf8(payload) {
        Some(text) => {
            proof {
                encode_utf8_decode_utf8(text@);
            }
            Some(text)
        },
        None => None,
    }
}

} // verus!

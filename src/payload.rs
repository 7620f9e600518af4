use vstd::prelude::*;
use vstd::utf8::{decode_utf8, valid_utf8};

verus! {

/// The largest request body, in bytes, that the transport hands to the store.
pub const MAX_BODY_BYTES: u64 = 131072;

/// Relies on `String::from_utf8`: it succeeds exactly on valid UTF-8 and then
/// holds the decoded characters.
#[verifier::external_body]
fn utf8_string(b: Vec<u8>) -> (r: Option<String>)
    ensures
        match r {
            Some(s) => valid_utf8(b@) && s@ == decode_utf8(b@),
            None => !valid_utf8(b@),
        },
{
    String::from_utf8(b).ok()
}

/// Why a request payload was refused.
#[derive(Clone, Copy, Debug, PartialEq, Eq, Structural)]
pub enum PayloadError {
    /// The body is longer than the transport accepts.
    TooLarge,
    /// The body is not valid UTF-8 text.
    NotText,
}

/// Turns a request body into the text to store: refused when longer than
/// `MAX_BODY_BYTES`, or when it is not valid UTF-8.
pub fn decode_payload(body: Vec<u8>) -> (r: Result<String, PayloadError>)
    ensures
        body@.len() > MAX_BODY_BYTES ==> r == Err::<String, PayloadError>(PayloadError::TooLarge),
        body@.len() <= MAX_BODY_BYTES ==> match r {
            Ok(s) => valid_utf8(body@) && s@ == decode_utf8(body@),
            Err(e) => e == PayloadError::NotText && !valid_utf8(body@),
        },
{
    if body.len() as u64 > MAX_BODY_BYTES {
        return Err(PayloadError::TooLarge);
    }
    match utf8_string(body) {
        Some(s) => Ok(s),
        None => Err(PayloadError::NotText),
    }
}

} // verus!

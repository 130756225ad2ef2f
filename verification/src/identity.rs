//! The identity token as it arrives: in a header of the announcement.
//!
//! A header value is a string of bytes. It counts as a token only when it
//! can be read as text, that is when every byte is a visible ASCII character
//! or a tab.

use crate::admission::token_text;
use actix_web::http::header::{HeaderValue, ToStrError};
use vstd::prelude::*;

verus! {

/// `HeaderValue`, the value of one header field: taken as it is, with
/// nothing known of what is inside.
#[verifier::external_type_specification]
#[verifier::external_body]
pub struct ExHeaderValue(HeaderValue);

/// `ToStrError`, the failure of `HeaderValue::to_str`: taken as it is.
#[verifier::external_type_specification]
#[verifier::external_body]
pub struct ExToStrError(ToStrError);

/// The bytes that a header value holds, as `HeaderValue::as_bytes` shows
/// them.
pub uninterp spec fn header_bytes(value: &HeaderValue) -> Seq<u8>;

/// Whether `b` is a visible ASCII character, the space included, or a tab.
pub open spec fn is_visible_ascii(b: u8) -> bool {
    (32 <= b && b < 127) || b == 9
}

/// Whether every byte of `bytes` is visible ASCII or a tab.
pub open spec fn all_visible_ascii(bytes: Seq<u8>) -> bool {
    forall|i: int| 0 <= i < bytes.len() ==> is_visible_ascii(#[trigger] bytes[i])
}

/// The text that ASCII bytes spell.
pub open spec fn ascii_text(bytes: Seq<u8>) -> Seq<char> {
    bytes.map_values(|b: u8| b as char)
}

/// The token that a header holds: its text where it is readable, and none
/// where the header is absent or holds a byte that is not.
pub open spec fn header_token(header: Option<&HeaderValue>) -> Option<Seq<char>> {
    match header {
        Some(value) => if all_visible_ascii(header_bytes(value)) {
            Some(ascii_text(header_bytes(value)))
        } else {
            None
        },
        None => None,
    }
}

/// `HeaderValue::to_str`. Taken on trust: it succeeds exactly when every byte
/// of the value is a visible ASCII character or a tab, and then gives those
/// bytes as text, one character for each byte.
#[verifier::external_body]
fn header_to_str<'a>(value: &'a HeaderValue) -> (text: Result<&'a str, ToStrError>)
    ensures
        text is Ok <==> all_visible_ascii(header_bytes(value)),
        text matches Ok(t) ==> t@ == ascii_text(header_bytes(value)),
{
    value.to_str()
}

/// Reads the identity token from the header that carries it.
pub fn identity_token<'a>(header: Option<&'a HeaderValue>) -> (token: Option<&'a str>)
    ensures
        token_text(token) == header_token(header),
{
    match header {
        Some(value) => match header_to_str(value) {
            Ok(text) => Some(text),
            Err(_) => None,
        },
        None => None,
    }
}

} // verus!

//! Bytes off the wire as text.

use crate::error::{Error, ErrorView};
use vstd::prelude::*;
use vstd::utf8::{decode_utf8, valid_utf8};

verus! {

/// Calls `String::from_utf8`, which gives the text that the bytes encode
/// where they are valid UTF-8, and an error where they are not.
#[verifier::external_body]
pub(crate) fn utf8_text(bytes: Vec<u8>) -> (text: Option<String>)
    ensures
        text is Some <==> valid_utf8(bytes@),
        text matches Some(t) ==> t@ == decode_utf8(bytes@),
{
    match String::from_utf8(bytes) {
        Ok(text) => Some(text),
        Err(_) => None,
    }
}

/// What is reported where bytes that should be text are not valid UTF-8.
pub open spec fn not_text_message() -> Seq<char> {
    "response is not valid UTF-8"@
}

/// The error for bytes that should be text and are not valid UTF-8.
pub fn not_text() -> (error: Error)
    ensures
        error@ == ErrorView::Encoding(not_text_message()),
{
    Error::Encoding(String::from_str("response is not valid UTF-8"))
}

/// The text of a whole response body, or what is wrong with it.
pub open spec fn body_text(body: Seq<u8>) -> Result<Seq<char>, ErrorView> {
    if valid_utf8(body) {
        Ok(decode_utf8(body))
    } else {
        Err(ErrorView::Encoding(not_text_message()))
    }
}

/// Reads a response body that was collected whole as text.
///
/// Fails with [`Error::Encoding`] exactly where the body is not valid UTF-8.
pub fn response_text(body: Vec<u8>) -> (text: Result<String, Error>)
    ensures
        match text {
            Ok(t) => body_text(body@) == Ok::<Seq<char>, ErrorView>(t@),
            Err(e) => body_text(body@) == Err::<Seq<char>, ErrorView>(e@),
        },
{
    match utf8_text(body) {
        Some(text) => Ok(text),
        None => Err(not_text()),
    }
}

} // verus!

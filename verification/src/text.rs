//! Text out of payload bytes.

use crate::error::SearchError;
use std::string::FromUtf8Error;
use vstd::prelude::*;
use vstd::utf8::{decode_utf8, encode_utf8, encode_utf8_decode_utf8, valid_utf8};

verus! {

/// `std::string::FromUtf8Error`, the failure of `String::from_utf8`. Its
/// inside is not modelled.
#[verifier::external_type_specification]
#[verifier::external_body]
pub struct ExFromUtf8Error(FromUtf8Error);

/// `String::from_utf8`. Trusted: the call succeeds exactly on valid UTF-8,
/// and the string it then returns is made of the very bytes handed in.
#[verifier::external_body]
fn string_from_utf8(bytes: Vec<u8>) -> (r: Result<String, FromUtf8Error>)
    ensures
        r is Ok <==> valid_utf8(bytes@),
        r matches Ok(s) ==> encode_utf8(s@) == bytes@,
{
    String::from_utf8(bytes)
}

/// Decodes `bytes` as UTF-8 text; bytes that are not UTF-8 are a
/// `DataError`.
pub fn decode_text(bytes: Vec<u8>) -> (r: Result<String, SearchError>)
    ensures
        valid_utf8(bytes@) ==> (r matches Ok(s) && s@ == decode_utf8(bytes@)),
        !valid_utf8(bytes@) ==> (r matches Err(e) && e == SearchError::DataError),
{
    match string_from_utf8(bytes) {
        Ok(s) => {
            proof {
                encode_utf8_decode_utf8(s@);
            }
            Ok(s)
        },
        Err(_) => Err(SearchError::DataError),
    }
}

} // verus!

//! UTF-8 validation of string payloads, as the standard library performs it.

use vstd::prelude::*;

verus! {

/// The error `String::from_utf8` returns; the engine only learns from it that
/// the bytes were not UTF-8.
#[verifier::external_type_specification]
#[verifier::external_body]
pub struct ExFromUtf8Error(std::string::FromUtf8Error);

/// `String::from_utf8` accepts a byte vector exactly when it is valid UTF-8,
/// and the string it then returns is made of those very bytes. This is taken
/// from the standard library's documentation, not proved.
pub assume_specification[ String::from_utf8 ](vec: Vec<u8>) -> (r: Result<
    String,
    std::string::FromUtf8Error,
>)
    ensures
        r is Ok <==> vstd::utf8::valid_utf8(vec@),
        r matches Ok(s) ==> vstd::utf8::encode_utf8(s@) == vec@,
;

} // verus!

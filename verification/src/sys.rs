//! The three things this crate takes from the standard library without a
//! proof: the test for UTF-8, the clock, and the debug form of a header line.

use vstd::prelude::*;
use vstd::utf8::encode_utf8;
use vstd::utf8::valid_utf8;
use std::str::Utf8Error;

verus! {

/// The error of `std::str::from_utf8`, carried through as it is.
#[verifier::external_type_specification]
#[verifier::external_body]
pub struct ExUtf8Error(Utf8Error);

/// Reads bytes as text with `std::str::from_utf8`: it succeeds on well-formed
/// UTF-8 and on nothing else, and the text it gives is made of the very bytes
/// it was given.
#[verifier::external_body]
pub(crate) fn text_of(bytes: &[u8]) -> (r: Result<&str, Utf8Error>)
    ensures
        r is Ok <==> valid_utf8(bytes@),
        r matches Ok(text) ==> encode_utf8(text@) == bytes@,
{
    std::str::from_utf8(bytes)
}

/// The bytes that `{:?}` prints for an optional text: `None`, or `Some(..)`
/// round the quoted and escaped text.
pub uninterp spec fn debug_text(line: Option<Seq<char>>) -> Seq<u8>;

/// Prints an optional text with `format!` and `{:?}`. The result is a function
/// of the text alone; what it is is not stated here.
#[verifier::external_body]
pub(crate) fn debug_bytes(line: Option<&str>) -> (out: Vec<u8>)
    ensures
        out@ == debug_text(line.deep_view()),
{
    format!("{:?}", line).into_bytes()
}

/// Reads the clock with `std::time::SystemTime::now` and prints it with
/// `{:?}`. Nothing is known of the result: no two calls need agree.
#[verifier::external_body]
pub(crate) fn timestamp() -> (out: Vec<u8>)
{
    format!("{:?}", std::time::SystemTime::now()).into_bytes()
}

} // verus!

//! Calls into std whose behaviour the library relies on.
use vstd::prelude::*;
use vstd::utf8::{valid_utf8, decode_utf8 as decode_utf8_spec};

verus! {

/// Relies on `str::chars` collected into a `Vec`: the characters of the text, in order.
#[verifier::external_body]
pub(crate) fn chars_of(s: &str) -> (r: Vec<char>)
    ensures
        r@ == s@,
{
    s.chars().collect()
}

/// Relies on `String: FromIterator<&char>`: the text made of the given characters.
#[verifier::external_body]
pub(crate) fn string_of(c: &[char]) -> (r: String)
    ensures
        r@ == c@,
{
    c.iter().collect()
}

/// `std::io::Error`, carried opaque through the errors of a run.
#[verifier::external_type_specification]
#[verifier::external_body]
pub struct ExIoError(std::io::Error);

/// The decimal digit characters, by value.
pub open spec fn digit_char(d: nat) -> char {
    seq!['0', '1', '2', '3', '4', '5', '6', '7', '8', '9'][d as int]
}

/// The decimal digits of `n`, without leading zeros.
pub open spec fn nat_text(n: nat) -> Seq<char>
    decreases n,
{
    if n < 10 {
        seq![digit_char(n)]
    } else {
        nat_text(n / 10).push(digit_char(n % 10))
    }
}

/// An integer written in decimal, with a leading `-` when negative.
pub open spec fn int_text(n: int) -> Seq<char> {
    if n < 0 {
        seq!['-'] + nat_text((-n) as nat)
    } else {
        nat_text(n as nat)
    }
}

/// Relies on `i32::to_string` (its `Display`): the value in decimal.
#[verifier::external_body]
pub(crate) fn decimal(n: i32) -> (r: String)
    ensures
        r@ == int_text(n as int),
{
    n.to_string()
}

/// What `Display` writes for the error of `String::from_utf8` on the given bytes.
pub uninterp spec fn utf8_error_text(b: Seq<u8>) -> Seq<char>;

/// Relies on `String::from_utf8`: the text the bytes encode when they are UTF-8, else
/// its error, written out by `Display`, which depends on the bytes alone.
#[verifier::external_body]
pub(crate) fn decode_utf8(b: Vec<u8>) -> (r: Result<String, String>)
    ensures
        r is Ok <==> valid_utf8(b@),
        r matches Ok(s) ==> s@ == decode_utf8_spec(b@),
        r matches Err(e) ==> e@ == utf8_error_text(b@),
{
    match String::from_utf8(b) {
        Ok(s) => Ok(s),
        Err(e) => Err(e.to_string()),
    }
}

/// Relies on `memchr::memchr`: the position of the first occurrence of `needle`.
#[verifier::external_body]
pub(crate) fn find_byte(needle: u8, haystack: &[u8]) -> (r: Option<usize>)
    ensures
        match r {
            Some(p) => p < haystack@.len() && haystack@[p as int] == needle && forall|j: int|
                0 <= j < p ==> haystack@[j] != needle,
            None => !haystack@.contains(needle),
        },
{
    memchr::memchr(needle, haystack)
}

/// Relies on `std::io::Error`'s `Display`: a description of the error.
#[verifier::external_body]
pub(crate) fn describe_io_error(e: &std::io::Error) -> (r: String) {
    e.to_string()
}

} // verus!

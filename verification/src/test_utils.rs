//! Random passwords and contents, for exercising the tool.

use vstd::prelude::*;
use vstd::utf8::{decode_utf8, encode_utf8, encode_utf8_decode_utf8, encode_utf8_valid_utf8, is_ascii_chars, is_ascii_chars_encode_utf8, valid_utf8};
use rand::distributions::{Alphanumeric, Standard};
use rand::Rng;

verus! {

/// A byte that stands for an ASCII letter or digit.
pub open spec fn is_alphanumeric_byte(b: u8) -> bool {
    (48 <= b <= 57) || (65 <= b <= 90) || (97 <= b <= 122)
}

/// An ASCII letter or digit.
pub open spec fn is_alphanumeric_char(c: char) -> bool {
    ('0' <= c <= '9') || ('A' <= c <= 'Z') || ('a' <= c <= 'z')
}

/// Calls `Rng::sample` of `rand` with the `Alphanumeric` distribution on the
/// thread's generator. Its documentation says that it draws from `A-Z`,
/// `a-z` and `0-9`; which byte comes is left open.
#[verifier::external_body]
fn random_alphanumeric() -> (b: u8)
    ensures
        is_alphanumeric_byte(b),
{
    rand::thread_rng().sample(Alphanumeric)
}

/// Calls `rand::random::<usize>`. The number is random: nothing is stated of it.
#[verifier::external_body]
fn random_usize() -> (n: usize) {
    rand::random::<usize>()
}

/// Calls `Rng::sample` of `rand` with the `Standard` distribution of bytes on
/// the thread's generator. The byte is random: nothing is stated of it.
#[verifier::external_body]
fn random_byte() -> (b: u8) {
    rand::thread_rng().sample::<u8, Standard>(Standard)
}

/// Calls `String::from_utf8` on valid UTF-8, which its documentation says
/// always succeeds and keeps the decoded characters.
#[verifier::external_body]
fn string_from_utf8(bytes: Vec<u8>) -> (s: String)
    requires
        valid_utf8(bytes@),
    ensures
        s@ == decode_utf8(bytes@),
{
    String::from_utf8(bytes).unwrap()
}

/// A random string of `len` ASCII letters and digits.
pub fn random_str(len: usize) -> (s: String)
    ensures
        s@.len() == len,
        forall|i: int| 0 <= i < len ==> is_alphanumeric_char(#[trigger] s@[i]),
{
    let mut bytes: Vec<u8> = Vec::new();
    let mut i: usize = 0;
    while i < len
        invariant
            i <= len,
            bytes@.len() == i,
            forall|j: int| 0 <= j < i ==> is_alphanumeric_byte(#[trigger] bytes@[j]),
        decreases len - i,
    {
        let b = random_alphanumeric();
        bytes.push(b);
        i = i + 1;
    }
    let ghost chars = Seq::new(len as nat, |j: int| bytes@[j] as char);
    proof {
        assert forall|j: int| 0 <= j < len implies (chars[j] as u8) == bytes@[j] && is_alphanumeric_char(
            chars[j],
        ) && '\0' <= chars[j] <= '\u{7f}' by {
            let b = bytes@[j];
            assert(is_alphanumeric_byte(b));
            assert((b as char) as u8 == b);
        }
        assert(is_ascii_chars(chars));
        is_ascii_chars_encode_utf8(chars);
        assert(encode_utf8(chars) =~= bytes@);
        encode_utf8_valid_utf8(chars);
        encode_utf8_decode_utf8(chars);
    }
    string_from_utf8(bytes)
}

/// A random password of `len` ASCII letters and digits.
pub fn new_random_password(len: usize) -> (s: String)
    ensures
        s@.len() == len,
        forall|i: int| 0 <= i < len ==> is_alphanumeric_char(#[trigger] s@[i]),
{
    random_str(len)
}

/// Random bytes, fewer than a hundred of them.
pub fn random_bytes() -> (v: Vec<u8>)
    ensures
        v@.len() < 100,
{
    let len = random_usize() % 100;
    let mut v: Vec<u8> = Vec::new();
    let mut i: usize = 0;
    while i < len
        invariant
            i <= len,
            v@.len() == i,
        decreases len - i,
    {
        v.push(random_byte());
        i = i + 1;
    }
    v
}

} // verus!

//! Small verified helpers on strings.

use vstd::prelude::*;
use vstd::string::{StrSliceExecFns, StringSliceAdditionalSpecFns};
use vstd::utf8::{decode_utf8, encode_utf8_decode_utf8, valid_utf8};

verus! {

/// Whether two string slices hold the same characters.
///
/// The comparison walks the UTF-8 bytes of both strings; since the encoding
/// is injective, equal bytes mean equal characters.
pub fn str_eq(a: &str, b: &str) -> (r: bool)
    ensures
        r == (a@ == b@),
{
    let ab = a.as_bytes();
    let bb = b.as_bytes();
    proof {
        encode_utf8_decode_utf8(a@);
        encode_utf8_decode_utf8(b@);
    }
    if ab.len() != bb.len() {
        return false;
    }
    let mut i: usize = 0;
    while i < ab.len()
        invariant
            i <= ab@.len(),
            ab@.len() == bb@.len(),
            ab@ == a.spec_bytes(),
            bb@ == b.spec_bytes(),
            forall|j: int| 0 <= j < i ==> ab@[j] == bb@[j],
        decreases ab@.len() - i,
    {
        if ab[i] != bb[i] {
            return false;
        }
        i = i + 1;
    }
    assert(ab@ =~= bb@);
    true
}


/// A character of the Unicode `White_Space` property, as `char::is_whitespace`
/// of Rust's standard library counts them.
pub open spec fn is_white_space(c: char) -> bool {
    ||| '\u{9}' <= c <= '\u{d}'
    ||| c == ' '
    ||| c == '\u{85}'
    ||| c == '\u{a0}'
    ||| c == '\u{1680}'
    ||| '\u{2000}' <= c <= '\u{200a}'
    ||| c == '\u{2028}'
    ||| c == '\u{2029}'
    ||| c == '\u{202f}'
    ||| c == '\u{205f}'
    ||| c == '\u{3000}'
}

/// Whether `c` is a white-space character.
pub fn is_white_space_char(c: char) -> (r: bool)
    ensures
        r == is_white_space(c),
{
    ('\u{9}' <= c && c <= '\u{d}') || c == ' ' || c == '\u{85}' || c == '\u{a0}' || c == '\u{1680}'
        || ('\u{2000}' <= c && c <= '\u{200a}') || c == '\u{2028}' || c == '\u{2029}' || c
        == '\u{202f}' || c == '\u{205f}' || c == '\u{3000}'
}

/// `t` is `s` without its leading and trailing white space.
pub open spec fn is_trim_of(t: Seq<char>, s: Seq<char>) -> bool {
    exists|a: int, b: int|
        {
            &&& 0 <= a <= b <= s.len()
            &&& t == s.subrange(a, b)
            &&& forall|i: int| 0 <= i < a ==> is_white_space(#[trigger] s[i])
            &&& forall|i: int| b <= i < s.len() ==> is_white_space(#[trigger] s[i])
            &&& a < b ==> !is_white_space(s[a]) && !is_white_space(s[b - 1])
        }
}

/// The password in what was typed: the input without its leading and
/// trailing white space.
pub fn password_from_input(raw: &str) -> (pw: String)
    ensures
        is_trim_of(pw@, raw@),
{
    let n = raw.unicode_len();
    let mut a: usize = 0;
    let mut skip = a < n && is_white_space_char(raw.get_char(a));
    while skip
        invariant
            a <= n == raw@.len(),
            forall|i: int| 0 <= i < a ==> is_white_space(#[trigger] raw@[i]),
            skip == (a < n && is_white_space(raw@[a as int])),
        decreases n - a,
    {
        a = a + 1;
        skip = a < n && is_white_space_char(raw.get_char(a));
    }
    let mut b: usize = n;
    let mut drop = b > a && is_white_space_char(raw.get_char(b - 1));
    while drop
        invariant
            a <= b <= n == raw@.len(),
            a < n ==> !is_white_space(raw@[a as int]),
            forall|i: int| b <= i < n ==> is_white_space(#[trigger] raw@[i]),
            drop == (b > a && is_white_space(raw@[b - 1])),
        decreases b,
    {
        b = b - 1;
        drop = b > a && is_white_space_char(raw.get_char(b - 1));
    }
    let pw = raw.substring_char(a, b).to_owned();
    assert(is_trim_of(pw@, raw@)) by {
        assert(a as int <= b as int);
    }
    pw
}

/// A printable ASCII character other than the space: `!` to `~`.
pub open spec fn is_ascii_graphic(c: char) -> bool {
    '!' <= c <= '~'
}

/// No printable ASCII character is white space, while the space, the tab,
/// the line feed and the carriage return are.
pub proof fn lemma_white_space_not_graphic(c: char)
    ensures
        is_ascii_graphic(c) ==> !is_white_space(c),
        is_white_space(' '),
        is_white_space('\t'),
        is_white_space('\n'),
        is_white_space('\r'),
{
}

/// Trimming takes off exactly the white space around the text: an input
/// made of white space, then a text that begins and ends with a printable
/// ASCII character, then white space again, trims to that text.
pub proof fn lemma_trim_surrounding(t: Seq<char>, w1: Seq<char>, u: Seq<char>, w2: Seq<char>)
    requires
        is_trim_of(t, w1 + u + w2),
        forall|i: int| 0 <= i < w1.len() ==> is_white_space(#[trigger] w1[i]),
        forall|i: int| 0 <= i < w2.len() ==> is_white_space(#[trigger] w2[i]),
        u.len() > 0,
        is_ascii_graphic(u[0]),
        is_ascii_graphic(u[u.len() - 1]),
    ensures
        t == u,
{
    let s = w1 + u + w2;
    let (a, b) = choose|a: int, b: int|
        {
            &&& 0 <= a <= b <= s.len()
            &&& t == s.subrange(a, b)
            &&& forall|i: int| 0 <= i < a ==> is_white_space(#[trigger] s[i])
            &&& forall|i: int| b <= i < s.len() ==> is_white_space(#[trigger] s[i])
            &&& a < b ==> !is_white_space(s[a]) && !is_white_space(s[b - 1])
        };
    let f = w1.len() as int;
    let l = f + u.len() - 1;
    lemma_white_space_not_graphic(u[0]);
    lemma_white_space_not_graphic(u[u.len() - 1]);
    assert(s[f] == u[0]);
    assert(s[l] == u[u.len() - 1]);
    assert(a <= f);
    assert(b > l);
    assert(a < b);
    if a < f {
        assert(s[a] == w1[a]);
    }
    if b - 1 > l {
        assert(s[b - 1] == w2[b - 1 - f - u.len()]);
    }
    assert(t =~= u);
}

/// The characters that `String::from_utf8_lossy` makes of a byte string.
pub uninterp spec fn utf8_lossy(bytes: Seq<u8>) -> Seq<char>;

/// Calls `String::from_utf8_lossy` and takes ownership of its result. Its
/// documentation says that valid UTF-8 is decoded as it stands; how invalid
/// sequences are replaced is only named here, not stated.
#[verifier::external_body]
pub(crate) fn string_from_utf8_lossy(bytes: &[u8]) -> (s: String)
    ensures
        s@ == utf8_lossy(bytes@),
        valid_utf8(bytes@) ==> s@ == decode_utf8(bytes@),
{
    String::from_utf8_lossy(bytes).into_owned()
}

} // verus!

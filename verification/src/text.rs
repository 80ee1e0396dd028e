//! Plain-text primitives: Unicode whitespace, trimming and splitting at byte offsets.

use vstd::prelude::*;
use vstd::utf8::*;
use vstd::string::*;

verus! {

broadcast use encode_utf8_decode_utf8, encode_utf8_valid_utf8;

/// Unicode `White_Space` (the characters that `char::is_whitespace` accepts).
pub open spec fn is_whitespace(c: char) -> bool {
    let u = c as u32;
    ||| 0x9 <= u <= 0xd
    ||| u == 0x20
    ||| u == 0x85
    ||| u == 0xa0
    ||| u == 0x1680
    ||| 0x2000 <= u <= 0x200a
    ||| u == 0x2028
    ||| u == 0x2029
    ||| u == 0x202f
    ||| u == 0x205f
    ||| u == 0x3000
}

/// `s` without its leading whitespace.
pub open spec fn trim_start(s: Seq<char>) -> Seq<char>
    decreases s.len(),
{
    if s.len() > 0 && is_whitespace(s[0]) {
        trim_start(s.drop_first())
    } else {
        s
    }
}

/// `s` without its trailing whitespace.
pub open spec fn trim_end(s: Seq<char>) -> Seq<char>
    decreases s.len(),
{
    if s.len() > 0 && is_whitespace(s.last()) {
        trim_end(s.drop_last())
    } else {
        s
    }
}

/// `s` without leading and trailing whitespace.
pub open spec fn trim(s: Seq<char>) -> Seq<char> {
    trim_end(trim_start(s))
}

/// The number of bytes of the UTF-8 encoding of `s`.
pub open spec fn byte_len(s: Seq<char>) -> int {
    encode_utf8(s).len() as int
}

/// Whether byte offset `at` falls between two characters of `s` (or at either end).
pub open spec fn is_boundary(s: Seq<char>, at: int) -> bool {
    is_char_boundary(encode_utf8(s), at)
}

/// The characters of `s` that are encoded before byte offset `at`.
pub open spec fn text_before(s: Seq<char>, at: int) -> Seq<char> {
    decode_utf8(encode_utf8(s).subrange(0, at))
}

/// The characters of `s` that are encoded from byte offset `at` on.
pub open spec fn text_from(s: Seq<char>, at: int) -> Seq<char> {
    decode_utf8(encode_utf8(s).subrange(at, byte_len(s)))
}

/// Calls `str::trim`, which removes leading and trailing Unicode `White_Space`.
#[verifier::external_body]
pub(crate) fn trim_text(s: &str) -> (r: &str)
    ensures
        r@ == trim(s@),
{
    s.trim()
}

/// Splits `s` at the byte offset `at`, which must fall between two characters.
pub fn split_text(s: &str, at: usize) -> (r: (&str, &str))
    requires
        is_boundary(s@, at as int),
    ensures
        r.0@ == text_before(s@, at as int),
        r.1@ == text_from(s@, at as int),
        r.0@ + r.1@ == s@,
{
    proof {
        broadcast use decode_utf8_split, valid_utf8_split;
        decode_utf8_split(encode_utf8(s@), at as int);
    }
    let r = s.split_at(at);
    proof {
        assert(decode_utf8(encode_utf8(r.0@)) == r.0@);
        assert(decode_utf8(encode_utf8(r.1@)) == r.1@);
    }
    r
}

} // verus!

//! Classification of bytes of the variable-width character encoding.
use vstd::prelude::*;

verus! {

/// The longest encoded character, in bytes.
pub const MAX_MULTIBYTE_LENGTH: usize = 4;

/// A head byte starts an encoded character; every other byte
/// (`0x80..=0xBF`) continues one.
pub open spec fn is_head(b: u8) -> bool {
    b < 0x80 || b >= 0xC0
}

/// The length of the encoded character that starts with head byte `b`.
pub open spec fn head_len(b: u8) -> int {
    if b < 0x80 {
        1
    } else if b < 0xE0 {
        2
    } else if b < 0xF0 {
        3
    } else {
        4
    }
}

/// The character code of an encoded character, from its bytes.
pub open spec fn decode(s: Seq<u8>) -> int
    recommends
        1 <= s.len() <= 4,
{
    if s.len() == 1 {
        s[0] as int
    } else if s.len() == 2 {
        (s[0] % 32) * 64 + s[1] % 64
    } else if s.len() == 3 {
        (s[0] % 16) * 4096 + (s[1] % 64) * 64 + s[2] % 64
    } else {
        (s[0] % 8) * 262144 + (s[1] % 64) * 4096 + (s[2] % 64) * 64 + s[3] % 64
    }
}

/// Whether `b` is the first byte of an encoded character.
pub fn char_head_p(b: u8) -> (r: bool)
    ensures
        r == is_head(b),
{
    b < 0x80 || b >= 0xC0
}

/// The byte length of the character whose head byte is `b`.
pub fn multibyte_length_by_head(b: u8) -> (r: usize)
    ensures
        r as int == head_len(b),
        1 <= r <= MAX_MULTIBYTE_LENGTH,
{
    if b < 0x80 {
        1
    } else if b < 0xE0 {
        2
    } else if b < 0xF0 {
        3
    } else {
        4
    }
}

} // verus!

//! Measuring text: the length of a string is the number of bytes of its UTF-8 encoding.

use vstd::prelude::*;
use vstd::utf8::*;

verus! {

/// The number of bytes that `s` occupies once encoded as UTF-8.
pub open spec fn byte_len(s: Seq<char>) -> nat {
    encode_utf8(s).len()
}

/// A run of `n` space characters.
pub open spec fn spaces(n: nat) -> Seq<char> {
    Seq::new(n, |i: int| ' ')
}

/// The byte length of a concatenation is the sum of the byte lengths of its parts.
pub proof fn lemma_byte_len_concat(a: Seq<char>, b: Seq<char>)
    ensures
        byte_len(a + b) == byte_len(a) + byte_len(b),
    decreases a.len(),
{
    if a.len() == 0 {
        assert(a + b =~= b);
    } else {
        assert((a + b).drop_first() =~= a.drop_first() + b);
        lemma_byte_len_concat(a.drop_first(), b);
    }
}

/// Text made of ASCII characters occupies one byte per character.
pub proof fn lemma_byte_len_ascii(s: Seq<char>)
    requires
        is_ascii_chars(s),
    ensures
        byte_len(s) == s.len(),
{
    is_ascii_chars_encode_utf8(s);
}

/// The length of `s` in bytes, as `str::len` reports it.
pub fn str_byte_len(s: &str) -> (n: usize)
    ensures
        n == byte_len(s@),
{
    s.as_bytes().len()
}

} // verus!

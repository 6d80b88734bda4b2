//! Texts as the bytes of their UTF-8 form.
use vstd::prelude::*;

verus! {

/// The number of bytes of a text.
pub open spec fn byte_len(s: Seq<char>) -> nat {
    vstd::utf8::encode_utf8(s).len()
}

/// The number of bytes of a text.
pub fn count_bytes(s: &str) -> (r: usize)
    ensures
        r == byte_len(s@),
{
    s.as_bytes().len()
}

/// Whether the given byte lies between two characters.
pub open spec fn is_boundary(s: Seq<char>, at: int) -> bool {
    vstd::utf8::is_char_boundary(vstd::utf8::encode_utf8(s), at)
}

/// The text from the given byte on.
pub open spec fn text_from(s: Seq<char>, at: int) -> Seq<char> {
    vstd::utf8::decode_utf8(vstd::utf8::encode_utf8(s).subrange(at, byte_len(s) as int))
}

/// The text from the given byte on.
pub fn tail_from(s: &str, at: usize) -> (r: &str)
    requires
        is_boundary(s@, at as int),
    ensures
        r@ == text_from(s@, at as int),
        byte_len(r@) == byte_len(s@) - at,
{
    let parts = s.split_at(at);
    proof {
        vstd::utf8::encode_utf8_valid_utf8(s@);
        vstd::utf8::encode_utf8_decode_utf8(parts.1@);
        assert(at <= byte_len(s@));
    }
    parts.1
}

/// The bytes of two texts one after the other.
pub proof fn lemma_byte_len_add(a: Seq<char>, b: Seq<char>)
    ensures
        byte_len(a + b) == byte_len(a) + byte_len(b),
    decreases a.len(),
{
    if a.len() == 0 {
        assert(a + b =~= b);
    } else {
        assert((a + b).drop_first() =~= a.drop_first() + b);
        lemma_byte_len_add(a.drop_first(), b);
    }
}

} // verus!

//! Byte offsets into UTF-8 text, and the characters that stand at them.

use vstd::prelude::*;
use vstd::utf8::*;

verus! {

/// The byte offset of the `n`-th character of `s`.
pub open spec fn byte_offset(s: Seq<char>, n: int) -> nat {
    encode_utf8(s.take(n)).len()
}

/// The characters of `s` from the byte offset `at` on.
pub open spec fn rest_at(s: Seq<char>, at: int) -> Seq<char> {
    decode_utf8(encode_utf8(s).skip(at))
}

/// Encoding one character after another encodes the concatenation.
pub proof fn lemma_encode_concat(a: Seq<char>, b: Seq<char>)
    ensures
        encode_utf8(a + b) == encode_utf8(a) + encode_utf8(b),
    decreases a.len(),
{
    if a.len() == 0 {
        assert(a + b =~= b);
        assert(encode_utf8(a) + encode_utf8(b) =~= encode_utf8(b));
    } else {
        assert((a + b).drop_first() =~= a.drop_first() + b);
        lemma_encode_concat(a.drop_first(), b);
        assert(encode_utf8(a + b) =~= encode_utf8(a) + encode_utf8(b));
    }
}

/// Encoding a text with one more character appends that character's bytes.
pub proof fn lemma_encode_push(s: Seq<char>, c: char)
    ensures
        encode_utf8(s.push(c)) == encode_utf8(s) + encode_scalar(c as u32),
{
    let one = seq![c];
    lemma_encode_concat(s, one);
    assert(s + one =~= s.push(c));
    assert(one.drop_first() =~= seq![]);
    assert(encode_utf8(one) =~= encode_scalar(c as u32)) by {
        assert(encode_utf8(one.drop_first()) =~= seq![]);
    }
}

/// Two texts with the same encoding are the same.
pub proof fn lemma_encode_injective(a: Seq<char>, b: Seq<char>)
    requires
        encode_utf8(a) == encode_utf8(b),
    ensures
        a == b,
{
    encode_utf8_decode_utf8(a);
    encode_utf8_decode_utf8(b);
}

/// A text's encoding falls apart at each character's offset.
pub proof fn lemma_split_at(s: Seq<char>, n: int)
    requires
        0 <= n <= s.len(),
    ensures
        encode_utf8(s).take(byte_offset(s, n) as int) == encode_utf8(s.take(n)),
        encode_utf8(s).skip(byte_offset(s, n) as int) == encode_utf8(s.skip(n)),
        byte_offset(s, n) <= encode_utf8(s).len(),
        rest_at(s, byte_offset(s, n) as int) == s.skip(n),
{
    lemma_encode_concat(s.take(n), s.skip(n));
    assert(s.take(n) + s.skip(n) =~= s);
    assert(encode_utf8(s).take(byte_offset(s, n) as int) =~= encode_utf8(s.take(n)));
    assert(encode_utf8(s).skip(byte_offset(s, n) as int) =~= encode_utf8(s.skip(n)));
    encode_utf8_decode_utf8(s.skip(n));
}

/// Offsets add up: the `m`-th character after the `n`-th is the `n + m`-th.
pub proof fn lemma_offset_add(s: Seq<char>, n: int, m: int)
    requires
        0 <= n,
        0 <= m,
        n + m <= s.len(),
    ensures
        byte_offset(s, n + m) == byte_offset(s, n) + byte_offset(s.skip(n), m),
{
    lemma_encode_concat(s.take(n), s.skip(n).take(m));
    assert(s.take(n) + s.skip(n).take(m) =~= s.take(n + m));
}

/// Every character takes at least a byte, so a later character has a larger offset.
pub proof fn lemma_offset_grows(s: Seq<char>, n: int, m: int)
    requires
        0 <= n < m <= s.len(),
    ensures
        byte_offset(s, n) < byte_offset(s, m),
{
    lemma_offset_add(s, n, m - n);
    let t = s.skip(n).take(m - n);
    assert(t.len() > 0);
    assert(encode_utf8(t).len() >= 1);
}

/// The whole text's length is the offset of its end.
pub proof fn lemma_offset_end(s: Seq<char>)
    ensures
        byte_offset(s, s.len() as int) == encode_utf8(s).len(),
        byte_offset(s, 0) == 0,
        rest_at(s, 0) == s,
{
    assert(s.take(s.len() as int) =~= s);
    assert(s.take(0) =~= seq![]);
    lemma_split_at(s, 0);
    assert(s.skip(0) =~= s);
}

/// A character's offset is a character boundary.
pub proof fn lemma_offset_is_boundary(s: Seq<char>, n: int)
    requires
        0 <= n <= s.len(),
    ensures
        is_char_boundary(encode_utf8(s), byte_offset(s, n) as int),
    decreases n,
{
    let bytes = encode_utf8(s);
    encode_utf8_valid_utf8(s);
    if n == 0 {
        lemma_offset_end(s);
    } else {
        let t = s.drop_first();
        lemma_offset_is_boundary(t, n - 1);
        encode_utf8_first_scalar(s);
        assert(pop_first_scalar(bytes) =~= encode_utf8(t));
        assert(s.take(n).drop_first() =~= t.take(n - 1));
        assert(byte_offset(s, n) == encode_scalar(s[0] as u32).len() + byte_offset(t, n - 1));
        lemma_split_at(s, n);
    }
}

/// A character boundary is the offset of a character or of the end.
pub proof fn lemma_boundary_has_index(s: Seq<char>, at: int) -> (n: int)
    requires
        0 <= at <= encode_utf8(s).len(),
        is_char_boundary(encode_utf8(s), at),
    ensures
        0 <= n <= s.len(),
        byte_offset(s, n) == at,
        rest_at(s, at) == s.skip(n),
{
    let bytes = encode_utf8(s);
    encode_utf8_valid_utf8(s);
    encode_utf8_decode_utf8(s);
    valid_utf8_split(bytes, at);
    decode_utf8_split(bytes, at);
    let head = decode_utf8(bytes.subrange(0, at));
    let tail = decode_utf8(bytes.subrange(at, bytes.len() as int));
    decode_utf8_encode_utf8(bytes.subrange(0, at));
    assert(s == head + tail);
    assert(s.take(head.len() as int) =~= head);
    assert(s.skip(head.len() as int) =~= tail);
    assert(bytes.skip(at) =~= bytes.subrange(at, bytes.len() as int));
    head.len() as int
}

/// The number of bytes that `c` takes in UTF-8.
pub fn utf8_width(c: char) -> (r: usize)
    ensures
        r == encode_scalar(c as u32).len(),
        1 <= r <= 4,
{
    let n: u32 = c as u32;
    proof {
        char_is_scalar(c);
    }
    if n <= 0x7F {
        1
    } else if n <= 0x7FF {
        2
    } else if n <= 0xFFFF {
        3
    } else {
        4
    }
}

/// `std::str::from_utf8` takes bytes for text exactly where they are valid UTF-8, and the text that
/// it gives has those bytes.
#[verifier::external_body]
pub(crate) fn utf8_text(bytes: &[u8]) -> (r: Option<&str>)
    ensures
        r is Some <==> valid_utf8(bytes@),
        r matches Some(s) ==> encode_utf8(s@) == bytes@,
{
    std::str::from_utf8(bytes).ok()
}

/// The length of a string in bytes.
pub fn byte_len(s: &str) -> (r: usize)
    ensures
        r == encode_utf8(s@).len(),
{
    s.as_bytes().len()
}

// --------------------------------------------------------------------- laws

/// A character's offset is the length of what stands before it in UTF-8, and the text from there on
/// is what stands behind.
pub proof fn law_offsets(before: Seq<char>, behind: Seq<char>)
    ensures
        byte_offset(before + behind, before.len() as int) == encode_utf8(before).len(),
        rest_at(before + behind, encode_utf8(before).len() as int) == behind,
{
    let s = before + behind;
    let n = before.len() as int;
    assert(s.take(n) =~= before);
    assert(s.skip(n) =~= behind);
    lemma_split_at(s, n);
}

} // verus!

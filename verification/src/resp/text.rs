//! Text and its UTF-8 bytes.

use vstd::prelude::*;
use vstd::utf8::*;

verus! {

/// The lower-case form of an ASCII letter; any other byte is kept.
pub open spec fn lower(b: u8) -> u8 {
    if 65 <= b <= 90 {
        (b + 32) as u8
    } else {
        b
    }
}

/// The bytes with every ASCII capital in lower case.
pub open spec fn lowered(s: Seq<u8>) -> Seq<u8> {
    Seq::new(s.len(), |i: int| lower(s[i]))
}

/// Appends `bytes` to `buf` with every ASCII capital in lower case.
pub fn push_lower(buf: &mut Vec<u8>, bytes: &[u8])
    ensures
        final(buf)@ == old(buf)@ + lowered(bytes@),
{
    let mut i: usize = 0;
    while i < bytes.len()
        invariant
            i <= bytes@.len(),
            buf@ == old(buf)@ + lowered(bytes@.take(i as int)),
        decreases bytes@.len() - i,
    {
        let b: u8 = bytes[i];
        let low: u8 = if 65 <= b && b <= 90 {
            b + 32
        } else {
            b
        };
        buf.push(low);
        proof {
            assert(lowered(bytes@.take(i + 1)) =~= lowered(bytes@.take(i as int)).push(low));
        }
        i = i + 1;
    }
    proof {
        assert(bytes@.take(i as int) =~= bytes@);
    }
}

/// Whether a scalar below 128 is a byte of its own in UTF-8, and every byte
/// of a larger scalar is 128 or more.
proof fn lemma_scalar_bytes(c: u32)
    requires
        is_scalar(c),
    ensures
        c < 128 ==> encode_scalar(c) == seq![c as u8],
        c >= 128 ==> forall|i: int| 0 <= i < encode_scalar(c).len() ==> #[trigger] encode_scalar(c)[i] >= 128,
{
    assert(c <= 0x7F ==> (c & 0x7F) as u8 == c as u8) by (bit_vector);
    assert((0xC0u8 | ((c >> 6) & 0x1F) as u8) >= 128) by (bit_vector);
    assert((0xE0u8 | ((c >> 12) & 0x0F) as u8) >= 128) by (bit_vector);
    assert((0xF0u8 | ((c >> 18) & 0x7) as u8) >= 128) by (bit_vector);
    assert((0x80u8 | (c & 0x3F) as u8) >= 128) by (bit_vector);
    assert((0x80u8 | ((c >> 6) & 0x3F) as u8) >= 128) by (bit_vector);
    assert((0x80u8 | ((c >> 12) & 0x3F) as u8) >= 128) by (bit_vector);
}

/// A byte below 128 occurs in the UTF-8 bytes of a text exactly where the
/// text holds the character with that code.
pub proof fn lemma_ascii_byte_in_utf8(chars: Seq<char>, b: u8)
    requires
        b < 128,
    ensures
        encode_utf8(chars).contains(b) <==> chars.contains(b as char),
    decreases chars.len(),
{
    if chars.len() == 0 {
    } else {
        let first: char = chars[0];
        let c: u32 = first as u32;
        char_is_scalar(first);
        char_u32_cast(first, c);
        let head = encode_scalar(c);
        let rest = chars.drop_first();
        let tail = encode_utf8(rest);
        lemma_scalar_bytes(c);
        lemma_ascii_byte_in_utf8(rest, b);
        assert(encode_utf8(chars) == head + tail);
        if encode_utf8(chars).contains(b) {
            let i = choose|i: int| 0 <= i < (head + tail).len() && (head + tail)[i] == b;
            if i < head.len() {
                assert(head[i] == b);
                assert(c < 128);
                assert(c as u8 == b);
                assert(c == b as u32);
                assert(c as char == chars[0]);
                assert(chars[0] == b as char);
            } else {
                assert(tail[i - head.len()] == b);
                assert(tail.contains(b));
                let j = choose|j: int| 0 <= j < rest.len() && rest[j] == b as char;
                assert(chars[j + 1] == b as char);
            }
        }
        if chars.contains(b as char) {
            let j = choose|j: int| 0 <= j < chars.len() && chars[j] == b as char;
            if j == 0 {
                assert(c == b as u32);
                assert((head + tail)[0] == b);
            } else {
                assert(rest[j - 1] == b as char);
                assert(rest.contains(b as char));
                let i = choose|i: int| 0 <= i < tail.len() && tail[i] == b;
                assert((head + tail)[head.len() + i] == b);
            }
        }
    }
}

/// Bytes that are all below 128 are UTF-8.
pub proof fn lemma_ascii_is_utf8(bytes: Seq<u8>)
    requires
        forall|i: int| 0 <= i < bytes.len() ==> #[trigger] bytes[i] < 128,
    ensures
        valid_utf8(bytes),
    decreases bytes.len(),
{
    if bytes.len() > 0 {
        let b = bytes[0];
        assert(b < 128);
        assert(((b & 0x7F) as u32) < 0x80) by (bit_vector);
        let rest = pop_first_scalar(bytes);
        assert forall|i: int| 0 <= i < rest.len() implies #[trigger] rest[i] < 128 by {
            assert(rest[i] == bytes[i + 1]);
        }
        lemma_ascii_is_utf8(rest);
    }
}

/// How many bytes a text takes in UTF-8.
pub open spec fn utf8_len(chars: Seq<char>) -> nat {
    encode_utf8(chars).len()
}

/// A text with one more character takes as many more bytes as the
/// character does.
pub proof fn lemma_utf8_len_push(chars: Seq<char>, c: char)
    ensures
        utf8_len(chars.push(c)) == utf8_len(chars) + encode_scalar(c as u32).len(),
    decreases chars.len(),
{
    if chars.len() == 0 {
        assert(chars.push(c).drop_first() =~= Seq::<char>::empty());
        assert(encode_utf8(chars.push(c)) == encode_scalar(c as u32) + encode_utf8(chars.push(c).drop_first()));
    } else {
        lemma_utf8_len_push(chars.drop_first(), c);
        assert(chars.push(c).drop_first() =~= chars.drop_first().push(c));
        assert(encode_utf8(chars.push(c)) == encode_scalar(chars[0] as u32) + encode_utf8(
            chars.push(c).drop_first(),
        ));
    }
}

/// How many bytes a character takes in UTF-8.
pub fn utf8_width(c: char) -> (n: usize)
    ensures
        n == encode_scalar(c as u32).len(),
        1 <= n <= 4,
{
    proof {
        char_is_scalar(c);
    }
    let v: u32 = c as u32;
    if v <= 0x7F {
        1
    } else if v <= 0x7FF {
        2
    } else if v <= 0xFFFF {
        3
    } else {
        4
    }
}

/// The text that `bytes` hold in UTF-8, `None` where they are no UTF-8.
///
/// Calls `String::from_utf8`, which gives the text exactly when the bytes
/// are valid UTF-8 and an error otherwise.
#[verifier::external_body]
pub(crate) fn string_from_utf8(bytes: Vec<u8>) -> (r: Option<String>)
    ensures
        valid_utf8(bytes@) <==> r is Some,
        r is Some ==> r->0@ == decode_utf8(bytes@),
{
    String::from_utf8(bytes).ok()
}

} // verus!

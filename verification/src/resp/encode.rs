//! From values to bytes.

use vstd::prelude::*;
use vstd::utf8::encode_utf8;
use crate::resp::decimal::{decimal, push_digits, push_decimal};
use crate::resp::text::{lowered, push_lower};
use crate::resp::value::{frame_pairs, frames, Frame, Value};

verus! {

/// The line break that ends every line: carriage return, line feed.
pub open spec fn crlf() -> Seq<u8> {
    seq![13u8, 10u8]
}

/// A line: the type byte, the header, the line break.
pub open spec fn line(tag: u8, header: Seq<u8>) -> Seq<u8> {
    seq![tag] + header + crlf()
}

/// A length-prefixed payload: a line with the payload's length in bytes,
/// then the payload and a line break.
pub open spec fn blob(tag: u8, payload: Seq<u8>) -> Seq<u8> {
    line(tag, decimal(payload.len() as int)) + payload + crlf()
}

/// The bytes of a verbatim string: the encoding's name, a colon, the text.
pub open spec fn verbatim_payload(encoding: Seq<char>, text: Seq<char>) -> Seq<u8> {
    encode_utf8(encoding) + seq![58u8] + encode_utf8(text)
}

/// The bytes that stand for a value on the wire.
pub open spec fn wire(f: Frame) -> Seq<u8>
    decreases f,
{
    match f {
        Frame::String(t) => line(43, encode_utf8(t)),
        Frame::Error(t) => line(45, encode_utf8(t)),
        Frame::Integer(n) => line(58, decimal(n)),
        Frame::BulkString(t) => blob(36, encode_utf8(t)),
        Frame::Array(items) => line(42, decimal(items.len() as int)) + wire_all(items),
        Frame::Null => line(95, Seq::empty()),
        Frame::Boolean(b) => line(35, if b { seq![116u8] } else { seq![102u8] }),
        Frame::Double(t) => line(44, lowered(encode_utf8(t))),
        Frame::BigNumber(t) => line(40, encode_utf8(t)),
        Frame::BulkError(t) => blob(33, encode_utf8(t)),
        Frame::VerbatimString(e, t) => blob(61, verbatim_payload(e, t)),
        Frame::RespMap(pairs) => line(37, decimal(pairs.len() as int)) + wire_pairs(pairs),
        Frame::RespSet(items) => line(126, decimal(items.len() as int)) + wire_all(items),
        Frame::Push(items) => line(62, decimal(items.len() as int)) + wire_all(items),
    }
}

/// The bytes of several values, one after the other.
pub open spec fn wire_all(items: Seq<Frame>) -> Seq<u8>
    decreases items,
{
    if items.len() == 0 {
        Seq::empty()
    } else {
        wire(items[0]) + wire_all(items.drop_first())
    }
}

/// The bytes of several pairs: each key, then its value.
pub open spec fn wire_pairs(pairs: Seq<(Frame, Frame)>) -> Seq<u8>
    decreases pairs,
{
    if pairs.len() == 0 {
        Seq::empty()
    } else {
        wire(pairs[0].0) + wire(pairs[0].1) + wire_pairs(pairs.drop_first())
    }
}

/// Appends `bytes` to `buf`.
pub fn push_bytes(buf: &mut Vec<u8>, bytes: &[u8])
    ensures
        final(buf)@ == old(buf)@ + bytes@,
{
    buf.extend_from_slice(bytes);
    proof {
        assert(buf@ =~= old(buf)@ + bytes@);
    }
}

/// Appends a line break to `buf`.
fn push_crlf(buf: &mut Vec<u8>)
    ensures
        final(buf)@ == old(buf)@ + crlf(),
{
    buf.push(13u8);
    buf.push(10u8);
    proof {
        assert(buf@ =~= old(buf)@ + crlf());
    }
}

/// Appends the line of a text: the type byte, the text, the line break.
fn push_text_line(buf: &mut Vec<u8>, tag: u8, text: &String)
    ensures
        final(buf)@ == old(buf)@ + line(tag, encode_utf8(text@)),
{
    buf.push(tag);
    push_bytes(buf, text.as_str().as_bytes());
    push_crlf(buf);
    proof {
        assert(buf@ =~= old(buf)@ + line(tag, encode_utf8(text@)));
    }
}

/// Appends the line that announces a length or a count.
fn push_count_line(buf: &mut Vec<u8>, tag: u8, count: usize)
    ensures
        final(buf)@ == old(buf)@ + line(tag, decimal(count as int)),
{
    buf.push(tag);
    push_digits(buf, count as u64);
    push_crlf(buf);
    proof {
        assert(buf@ =~= old(buf)@ + line(tag, decimal(count as int)));
    }
}

/// Appends a length-prefixed text.
fn push_blob(buf: &mut Vec<u8>, tag: u8, text: &String)
    ensures
        final(buf)@ == old(buf)@ + blob(tag, encode_utf8(text@)),
{
    let bytes: &[u8] = text.as_str().as_bytes();
    push_count_line(buf, tag, bytes.len());
    push_bytes(buf, bytes);
    push_crlf(buf);
    proof {
        assert(buf@ =~= old(buf)@ + blob(tag, encode_utf8(text@)));
    }
}

/// The bytes of a run of values are those of its first values, then those
/// of its last one.
pub proof fn lemma_wire_all_push(items: Seq<Frame>, last: Frame)
    ensures
        wire_all(items.push(last)) == wire_all(items) + wire(last),
    decreases items.len(),
{
    let whole = items.push(last);
    if items.len() == 0 {
        assert(whole.drop_first() =~= Seq::<Frame>::empty());
        assert(wire_all(whole.drop_first()) =~= Seq::<u8>::empty());
        assert(wire_all(whole) == wire(whole[0]) + wire_all(whole.drop_first()));
        assert(wire_all(items) =~= Seq::<u8>::empty());
        assert(wire_all(whole) =~= wire_all(items) + wire(last));
    } else {
        lemma_wire_all_push(items.drop_first(), last);
        assert(whole.drop_first() =~= items.drop_first().push(last));
        assert(wire_all(whole) == wire(whole[0]) + wire_all(whole.drop_first()));
        assert(wire_all(whole) =~= wire_all(items) + wire(last));
    }
}

/// The bytes of a run of pairs are those of its first pairs, then those of
/// its last one.
pub proof fn lemma_wire_pairs_push(pairs: Seq<(Frame, Frame)>, last: (Frame, Frame))
    ensures
        wire_pairs(pairs.push(last)) == wire_pairs(pairs) + wire(last.0) + wire(last.1),
    decreases pairs.len(),
{
    let whole = pairs.push(last);
    if pairs.len() == 0 {
        assert(whole.drop_first() =~= Seq::<(Frame, Frame)>::empty());
        assert(wire_pairs(whole.drop_first()) =~= Seq::<u8>::empty());
        assert(wire_pairs(whole) == wire(whole[0].0) + wire(whole[0].1) + wire_pairs(whole.drop_first()));
        assert(wire_pairs(pairs) =~= Seq::<u8>::empty());
        assert(wire_pairs(whole) =~= wire_pairs(pairs) + wire(last.0) + wire(last.1));
    } else {
        lemma_wire_pairs_push(pairs.drop_first(), last);
        assert(whole.drop_first() =~= pairs.drop_first().push(last));
        assert(wire_pairs(whole) == wire(whole[0].0) + wire(whole[0].1) + wire_pairs(whole.drop_first()));
        assert(wire_pairs(whole) =~= wire_pairs(pairs) + wire(last.0) + wire(last.1));
    }
}

/// Appends the bytes of each value of `items`, in order.
fn encode_items(items: &Vec<Value>, buf: &mut Vec<u8>)
    ensures
        final(buf)@ == old(buf)@ + wire_all(frames(items@)),
    decreases items,
{
    let mut i: usize = 0;
    while i < items.len()
        invariant
            i <= items@.len(),
            buf@ == old(buf)@ + wire_all(frames(items@).take(i as int)),
        decreases items@.len() - i,
    {
        buf_encode(&items[i], buf);
        proof {
            lemma_wire_all_push(frames(items@).take(i as int), items@[i as int]@);
            assert(frames(items@).take(i + 1) =~= frames(items@).take(i as int).push(items@[i as int]@));
            assert(buf@ =~= old(buf)@ + wire_all(frames(items@).take(i + 1)));
        }
        i = i + 1;
    }
    proof {
        assert(frames(items@).take(i as int) =~= frames(items@));
    }
}

/// Appends the bytes of each pair of `pairs`, in order: key, then value.
fn encode_pairs(pairs: &Vec<(Value, Value)>, buf: &mut Vec<u8>)
    ensures
        final(buf)@ == old(buf)@ + wire_pairs(frame_pairs(pairs@)),
    decreases pairs,
{
    let mut i: usize = 0;
    while i < pairs.len()
        invariant
            i <= pairs@.len(),
            buf@ == old(buf)@ + wire_pairs(frame_pairs(pairs@).take(i as int)),
        decreases pairs@.len() - i,
    {
        buf_encode(&pairs[i].0, buf);
        buf_encode(&pairs[i].1, buf);
        proof {
            let done = frame_pairs(pairs@).take(i as int);
            let last = (pairs@[i as int].0@, pairs@[i as int].1@);
            lemma_wire_pairs_push(done, last);
            assert(frame_pairs(pairs@).take(i + 1) =~= done.push(last));
            assert(buf@ =~= old(buf)@ + wire_pairs(frame_pairs(pairs@).take(i + 1)));
        }
        i = i + 1;
    }
    proof {
        assert(frame_pairs(pairs@).take(i as int) =~= frame_pairs(pairs@));
    }
}

/// Encodes a value into the bytes that stand for it on the wire.
pub fn encode(value: Value) -> (r: Vec<u8>)
    ensures
        r@ == wire(value@),
{
    let mut res: Vec<u8> = Vec::new();
    buf_encode(&value, &mut res);
    proof {
        assert(res@ =~= wire(value@));
    }
    res
}

/// Appends to `buf` the bytes that stand for `value` on the wire.
pub fn buf_encode(value: &Value, buf: &mut Vec<u8>)
    ensures
        final(buf)@ == old(buf)@ + wire(value@),
    decreases value,
{
    match value {
        Value::Null => {
            buf.push(95u8);
            push_crlf(buf);
            proof {
                assert(buf@ =~= old(buf)@ + wire(value@));
            }
        },
        Value::String(val) => push_text_line(buf, 43u8, val),
        Value::Error(val) => push_text_line(buf, 45u8, val),
        Value::Integer(val) => {
            buf.push(58u8);
            push_decimal(buf, *val);
            push_crlf(buf);
            proof {
                assert(buf@ =~= old(buf)@ + wire(value@));
            }
        },
        Value::BulkString(val) => push_blob(buf, 36u8, val),
        Value::Array(val) => {
            push_count_line(buf, 42u8, val.len());
            encode_items(val, buf);
            proof {
                assert(buf@ =~= old(buf)@ + wire(value@));
            }
        },
        Value::Boolean(val) => {
            buf.push(35u8);
            if *val {
                buf.push(116u8);
            } else {
                buf.push(102u8);
            }
            push_crlf(buf);
            proof {
                assert(buf@ =~= old(buf)@ + wire(value@));
            }
        },
        Value::Double(val) => {
            buf.push(44u8);
            push_lower(buf, val.as_str().as_bytes());
            push_crlf(buf);
            proof {
                assert(buf@ =~= old(buf)@ + wire(value@));
            }
        },
        Value::BigNumber(val) => push_text_line(buf, 40u8, val),
        Value::BulkError(val) => push_blob(buf, 33u8, val),
        Value::VerbatimString(pair) => {
            let encoding: &[u8] = pair.0.as_str().as_bytes();
            let text: &[u8] = pair.1.as_str().as_bytes();
            let mut payload: Vec<u8> = Vec::new();
            push_bytes(&mut payload, encoding);
            payload.push(58u8);
            push_bytes(&mut payload, text);
            proof {
                assert(payload@ =~= verbatim_payload(pair.0@, pair.1@));
            }
            push_count_line(buf, 61u8, payload.len());
            push_bytes(buf, payload.as_slice());
            push_crlf(buf);
            proof {
                assert(buf@ =~= old(buf)@ + wire(value@));
            }
        },
        Value::RespMap(val) => {
            push_count_line(buf, 37u8, val.len());
            encode_pairs(val, buf);
            proof {
                assert(buf@ =~= old(buf)@ + wire(value@));
            }
        },
        Value::RespSet(val) => {
            push_count_line(buf, 126u8, val.len());
            encode_items(val, buf);
            proof {
                assert(buf@ =~= old(buf)@ + wire(value@));
            }
        },
        Value::Push(val) => {
            push_count_line(buf, 62u8, val.len());
            encode_items(val, buf);
            proof {
                assert(buf@ =~= old(buf)@ + wire(value@));
            }
        },
    }
}

} // verus!

//! What holds of the codec as a whole.

use vstd::prelude::*;
use vstd::utf8::{decode_utf8, encode_utf8, encode_utf8_decode_utf8, encode_utf8_valid_utf8, valid_utf8};
use crate::resp::decimal::{decimal, is_digit, lemma_decimal_round_trip, parse_i64, signed_value};
use crate::resp::decode::{
    decode_at, decode_items, first_colon, first_line_feed, is_length_byte, is_type_byte, length_of,
    line_end,
    lemma_decode_bounds, pair_up, read_line, read_payload, text_of, verbatim_of, Fault, Line,
};
use crate::resp::double::{lemma_double_text, lemma_double_text_lowered};
use crate::resp::encode::{blob, crlf, line, verbatim_payload, wire, wire_all, wire_pairs};
use crate::resp::text::{lemma_ascii_byte_in_utf8, lemma_ascii_is_utf8, lowered};
use crate::resp::value::{max_size, Frame};

verus! {

/// Whether the bytes `w` stand in `s` from `pos` on.
pub open spec fn holds_at(s: Seq<u8>, pos: int, w: Seq<u8>) -> bool {
    &&& 0 <= pos
    &&& pos + w.len() <= s.len()
    &&& forall|k: int| 0 <= k < w.len() ==> s[pos + k] == #[trigger] w[k]
}

/// Where two runs of bytes stand one after the other, each of them stands
/// in its place.
pub proof fn lemma_holds_at_split(s: Seq<u8>, pos: int, a: Seq<u8>, b: Seq<u8>)
    requires
        holds_at(s, pos, a + b),
    ensures
        holds_at(s, pos, a),
        holds_at(s, pos + a.len(), b),
{
    assert forall|k: int| 0 <= k < a.len() implies s[pos + k] == #[trigger] a[k] by {
        assert((a + b)[k] == a[k]);
    }
    assert forall|k: int| 0 <= k < b.len() implies s[pos + a.len() + k] == #[trigger] b[k] by {
        assert((a + b)[a.len() + k] == b[k]);
    }
}

/// A line whose header holds no line feed is read back as it was written.
pub proof fn lemma_read_line(s: Seq<u8>, pos: int, tag: u8, header: Seq<u8>)
    requires
        holds_at(s, pos, line(tag, header)),
        tag != 10,
        forall|k: int| 0 <= k < header.len() ==> #[trigger] header[k] != 10,
    ensures
        read_line(s, pos) == Ok::<Line, Fault>(Line { tag, header, next: pos + header.len() + 3 }),
{
    let w = line(tag, header);
    let h = header.len() as int;
    let at = pos + h + 2;
    assert(w.len() == h + 3);
    assert(w[0] == tag);
    assert(w[h + 1] == 13);
    assert(w[h + 2] == 10);
    assert forall|j: int| pos <= j < at implies s[j] != 10 by {
        let k = j - pos;
        assert(s[pos + k] == w[k]);
        if 1 <= k <= h {
            assert(w[k] == header[k - 1]);
        }
    }
    assert(s[pos + (h + 2)] == w[h + 2]);
    assert(first_line_feed(s, pos, at));
    let chosen = choose|c: int| first_line_feed(s, pos, c);
    assert(chosen == at);
    assert(line_end(s, pos) == at + 1);
    assert(s[pos + (h + 1)] == w[h + 1]);
    assert(s[pos + 0] == w[0]);
    assert(s.subrange(pos + 1, at - 1) =~= header) by {
        assert forall|k: int| 0 <= k < header.len() implies s[pos + 1 + k] == header[k] by {
            assert(s[pos + (k + 1)] == w[k + 1]);
        }
    }
}

/// The decimal text of an integer holds no line feed, and reading it gives
/// the integer back.
pub proof fn lemma_decimal_header(n: int)
    requires
        i64::MIN <= n <= i64::MAX,
    ensures
        parse_i64(decimal(n)) == Some(n as i64),
        forall|k: int| 0 <= k < decimal(n).len() ==> #[trigger] decimal(n)[k] != 10,
{
    lemma_decimal_round_trip(n);
    assert forall|k: int| 0 <= k < decimal(n).len() implies #[trigger] decimal(n)[k] != 10 by {
        assert(decimal(n)[k] == 45 || is_digit(decimal(n)[k]));
    }
}

/// The bytes of a text are UTF-8 and hold the text.
pub proof fn lemma_text_of(t: Seq<char>)
    ensures
        text_of(encode_utf8(t)) == Ok::<Seq<char>, Fault>(t),
{
    encode_utf8_valid_utf8(t);
    encode_utf8_decode_utf8(t);
}

/// The bytes of a text without a line feed hold no line feed.
pub proof fn lemma_line_text(t: Seq<char>)
    requires
        !t.contains('\n'),
    ensures
        forall|k: int| 0 <= k < encode_utf8(t).len() ==> #[trigger] encode_utf8(t)[k] != 10,
{
    lemma_ascii_byte_in_utf8(t, 10u8);
    assert(10u8 as char == '\n');
    assert forall|k: int| 0 <= k < encode_utf8(t).len() implies #[trigger] encode_utf8(t)[k] != 10 by {
        if encode_utf8(t)[k] == 10 {
            assert(encode_utf8(t).contains(10u8));
        }
    }
}

/// A length-prefixed payload is read back as it was written.
pub proof fn lemma_read_blob(s: Seq<u8>, pos: int, tag: u8, payload: Seq<u8>, least: int)
    requires
        holds_at(s, pos, blob(tag, payload)),
        tag != 10,
        payload.len() < max_size(),
        least <= 0,
    ensures
        read_line(s, pos) is Ok,
        read_line(s, pos)->Ok_0.tag == tag,
        length_of(read_line(s, pos)->Ok_0.header, least) == Ok::<int, Fault>(payload.len() as int),
        read_payload(s, read_line(s, pos)->Ok_0.next, payload.len() as int) == Ok::<Seq<u8>, Fault>(payload),
        read_line(s, pos)->Ok_0.next + payload.len() + 2 == pos + blob(tag, payload).len(),
{
    let n = payload.len() as int;
    let head = line(tag, decimal(n));
    assert(blob(tag, payload) == (head + payload) + crlf());
    lemma_holds_at_split(s, pos, head + payload, crlf());
    lemma_holds_at_split(s, pos, head, payload);
    lemma_decimal_header(n);
    lemma_read_line(s, pos, tag, decimal(n));
    let next = pos + head.len();
    assert(head.len() == decimal(n).len() + 3);
    assert(s[next + n + 0] == crlf()[0]);
    assert(s[next + n + 1] == crlf()[1]);
    assert(s.subrange(next, next + n) =~= payload);
}

/// The payload of a verbatim string whose encoding holds no colon parts
/// into the encoding and the text.
pub proof fn lemma_verbatim_of(e: Seq<char>, t: Seq<char>)
    requires
        !e.contains(':'),
    ensures
        verbatim_of(verbatim_payload(e, t)) == Ok::<Frame, Fault>(Frame::VerbatimString(e, t)),
{
    let payload = verbatim_payload(e, t);
    let at = encode_utf8(e).len() as int;
    lemma_ascii_byte_in_utf8(e, 58u8);
    assert(58u8 as char == ':');
    assert forall|j: int| 0 <= j < at implies payload[j] != 58 by {
        assert(payload[j] == encode_utf8(e)[j]);
        if encode_utf8(e)[j] == 58 {
            assert(encode_utf8(e).contains(58u8));
        }
    }
    assert(payload[at] == 58);
    assert(first_colon(payload, at));
    let chosen = choose|c: int| first_colon(payload, c);
    assert(chosen == at);
    assert(payload.take(at) =~= encode_utf8(e));
    assert(payload.skip(at + 1) =~= encode_utf8(t));
    lemma_text_of(e);
    lemma_text_of(t);
}

/// The keys and values of a run of pairs, in one run: each key, then its
/// value.
pub open spec fn flatten(pairs: Seq<(Frame, Frame)>) -> Seq<Frame> {
    Seq::new(
        2 * pairs.len(),
        |i: int|
            if i % 2 == 0 {
                pairs[i / 2].0
            } else {
                pairs[i / 2].1
            },
    )
}

/// Pairing up what was flattened gives the pairs back.
pub proof fn lemma_pair_up_flatten(pairs: Seq<(Frame, Frame)>)
    ensures
        pair_up(flatten(pairs)) == pairs,
{
    assert(pair_up(flatten(pairs)) =~= pairs);
}

/// Where the bytes of a readable value stand, that value is read, and
/// nothing behind its bytes is touched.
pub proof fn lemma_decode_wire(s: Seq<u8>, pos: int, f: Frame)
    requires
        f.readable(),
        holds_at(s, pos, wire(f)),
    ensures
        decode_at(s, pos) == Ok::<(Frame, int), Fault>((f, pos + wire(f).len())),
    decreases f,
{
    match f {
        Frame::String(t) => {
            lemma_line_text(t);
            lemma_read_line(s, pos, 43, encode_utf8(t));
            lemma_text_of(t);
        },
        Frame::Error(t) => {
            lemma_line_text(t);
            lemma_read_line(s, pos, 45, encode_utf8(t));
            lemma_text_of(t);
        },
        Frame::Integer(n) => {
            lemma_decimal_header(n);
            lemma_read_line(s, pos, 58, decimal(n));
        },
        Frame::BulkString(t) => {
            lemma_read_blob(s, pos, 36, encode_utf8(t), -1);
            lemma_text_of(t);
        },
        Frame::Array(items) => {
            lemma_aggregate_header(s, pos, 42, items.len() as int, wire_all(items), -1);
            lemma_decode_wire_all(s, pos + line(42, decimal(items.len() as int)).len(), items);
        },
        Frame::Null => {
            lemma_read_line(s, pos, 95, Seq::empty());
        },
        Frame::Boolean(b) => {
            if b {
                lemma_read_line(s, pos, 35, seq![116u8]);
            } else {
                lemma_read_line(s, pos, 35, seq![102u8]);
                assert(seq![102u8][0] != seq![116u8][0]);
            }
        },
        Frame::Double(t) => {
            let header = encode_utf8(t);
            lemma_double_text(header);
            assert forall|k: int| 0 <= k < header.len() implies #[trigger] header[k] != 10 by {
                assert(32 < header[k]);
            }
            lemma_read_line(s, pos, 44, header);
            lemma_text_of(t);
            encode_utf8_decode_utf8(t);
        },
        Frame::BigNumber(t) => {
            lemma_line_text(t);
            lemma_read_line(s, pos, 40, encode_utf8(t));
            lemma_text_of(t);
        },
        Frame::BulkError(t) => {
            lemma_read_blob(s, pos, 33, encode_utf8(t), 0);
            lemma_text_of(t);
        },
        Frame::VerbatimString(e, t) => {
            lemma_read_blob(s, pos, 61, verbatim_payload(e, t), 0);
            lemma_verbatim_of(e, t);
        },
        Frame::RespMap(pairs) => {
            lemma_aggregate_header(s, pos, 37, pairs.len() as int, wire_pairs(pairs), 0);
            lemma_decode_wire_pairs(s, pos + line(37, decimal(pairs.len() as int)).len(), pairs);
            lemma_pair_up_flatten(pairs);
        },
        Frame::RespSet(items) => {
            lemma_aggregate_header(s, pos, 126, items.len() as int, wire_all(items), 0);
            lemma_decode_wire_all(s, pos + line(126, decimal(items.len() as int)).len(), items);
        },
        Frame::Push(items) => {
            lemma_aggregate_header(s, pos, 62, items.len() as int, wire_all(items), 0);
            lemma_decode_wire_all(s, pos + line(62, decimal(items.len() as int)).len(), items);
        },
    }
}

/// The line that announces a count is read back, and what follows it
/// stands behind it.
pub proof fn lemma_aggregate_header(s: Seq<u8>, pos: int, tag: u8, count: int, body: Seq<u8>, least: int)
    requires
        holds_at(s, pos, line(tag, decimal(count)) + body),
        tag != 10,
        0 <= count < max_size(),
        least <= 0,
    ensures
        read_line(s, pos) == Ok::<Line, Fault>(
            Line { tag, header: decimal(count), next: pos + line(tag, decimal(count)).len() },
        ),
        length_of(decimal(count), least) == Ok::<int, Fault>(count),
        holds_at(s, pos + line(tag, decimal(count)).len(), body),
{
    lemma_holds_at_split(s, pos, line(tag, decimal(count)), body);
    lemma_decimal_header(count);
    lemma_read_line(s, pos, tag, decimal(count));
}

/// Where the bytes of several readable values stand one after the other,
/// those values are read.
pub proof fn lemma_decode_wire_all(s: Seq<u8>, pos: int, items: Seq<Frame>)
    requires
        forall|i: int| 0 <= i < items.len() ==> (#[trigger] items[i]).readable(),
        holds_at(s, pos, wire_all(items)),
    ensures
        decode_items(s, pos, items.len() as int) == Ok::<(Seq<Frame>, int), Fault>(
            (items, pos + wire_all(items).len()),
        ),
    decreases items,
{
    if items.len() == 0 {
        assert(items =~= Seq::<Frame>::empty());
    } else {
        let first = items[0];
        let rest = items.drop_first();
        lemma_holds_at_split(s, pos, wire(first), wire_all(rest));
        lemma_decode_wire(s, pos, first);
        lemma_decode_bounds(s, pos, 0);
        let next = pos + wire(first).len();
        assert forall|i: int| 0 <= i < rest.len() implies (#[trigger] rest[i]).readable() by {
            assert(rest[i] == items[i + 1]);
        }
        lemma_decode_wire_all(s, next, rest);
        assert(seq![first] + rest =~= items);
    }
}

/// Where the bytes of several readable pairs stand one after the other,
/// their keys and values are read.
pub proof fn lemma_decode_wire_pairs(s: Seq<u8>, pos: int, pairs: Seq<(Frame, Frame)>)
    requires
        forall|i: int| 0 <= i < pairs.len() ==> (#[trigger] pairs[i]).0.readable() && pairs[i].1.readable(),
        holds_at(s, pos, wire_pairs(pairs)),
    ensures
        decode_items(s, pos, 2 * (pairs.len() as int)) == Ok::<(Seq<Frame>, int), Fault>(
            (flatten(pairs), pos + wire_pairs(pairs).len()),
        ),
    decreases pairs,
{
    if pairs.len() == 0 {
        assert(flatten(pairs) =~= Seq::<Frame>::empty());
    } else {
        let key = pairs[0].0;
        let value = pairs[0].1;
        let rest = pairs.drop_first();
        lemma_holds_at_split(s, pos, wire(key) + wire(value), wire_pairs(rest));
        lemma_holds_at_split(s, pos, wire(key), wire(value));
        lemma_decode_wire(s, pos, key);
        lemma_decode_bounds(s, pos, 0);
        let mid = pos + wire(key).len();
        lemma_decode_wire(s, mid, value);
        lemma_decode_bounds(s, mid, 0);
        let next = mid + wire(value).len();
        assert forall|i: int| 0 <= i < rest.len() implies (#[trigger] rest[i]).0.readable()
            && rest[i].1.readable() by {
            assert(rest[i] == pairs[i + 1]);
        }
        lemma_decode_wire_pairs(s, next, rest);
        assert(seq![key] + (seq![value] + flatten(rest)) =~= flatten(pairs)) by {
            assert forall|i: int| 0 <= i < 2 * pairs.len() implies (seq![key] + (seq![value] + flatten(rest)))[i]
                == flatten(pairs)[i] by {
                if i >= 2 {
                    assert(flatten(rest)[i - 2] == flatten(pairs)[i]) by {
                        assert(rest[(i - 2) / 2] == pairs[i / 2]);
                    }
                }
            }
        }
        assert(decode_items(s, mid, 2 * pairs.len() - 1) == Ok::<(Seq<Frame>, int), Fault>(
            (seq![value] + flatten(rest), pos + wire_pairs(pairs).len()),
        ));
    }
}

/// A well-formed value is readable.
pub proof fn lemma_wf_readable(f: Frame)
    requires
        f.wf(),
    ensures
        f.readable(),
    decreases f,
{
    match f {
        Frame::Array(items) => {
            assert forall|i: int| 0 <= i < items.len() implies (#[trigger] items[i]).readable() by {
                lemma_wf_readable(items[i]);
            }
        },
        Frame::RespSet(items) => {
            assert forall|i: int| 0 <= i < items.len() implies (#[trigger] items[i]).readable() by {
                lemma_wf_readable(items[i]);
            }
        },
        Frame::Push(items) => {
            assert forall|i: int| 0 <= i < items.len() implies (#[trigger] items[i]).readable() by {
                lemma_wf_readable(items[i]);
            }
        },
        Frame::RespMap(pairs) => {
            assert forall|i: int| 0 <= i < pairs.len() implies (#[trigger] pairs[i]).0.readable()
                && pairs[i].1.readable() by {
                lemma_wf_readable(pairs[i].0);
                lemma_wf_readable(pairs[i].1);
            }
        },
        _ => {},
    }
}

/// Round trip: decoding the bytes of a well-formed value gives the value
/// back, whatever follows the bytes.
pub proof fn law_round_trip(f: Frame, rest: Seq<u8>)
    requires
        f.wf(),
    ensures
        decode_at(wire(f) + rest, 0) == Ok::<(Frame, int), Fault>((f, wire(f).len() as int)),
{
    lemma_wf_readable(f);
    law_readable_round_trip(f, rest);
}

/// Round trip: decoding the bytes of a readable value gives the value back,
/// whatever follows the bytes.
pub proof fn law_readable_round_trip(f: Frame, rest: Seq<u8>)
    requires
        f.readable(),
    ensures
        decode_at(wire(f) + rest, 0) == Ok::<(Frame, int), Fault>((f, wire(f).len() as int)),
{
    let s = wire(f) + rest;
    assert(holds_at(s, 0, wire(f))) by {
        assert forall|k: int| 0 <= k < wire(f).len() implies s[0 + k] == #[trigger] wire(f)[k] by {}
    }
    lemma_decode_wire(s, 0, f);
}

/// Prefix dispatch: bytes that start with none of the type bytes are no
/// value; where their first line is sound, the fault is the unknown type.
pub proof fn law_unknown_type(s: Seq<u8>, pos: int)
    requires
        0 <= pos < s.len(),
        !is_type_byte(s[pos]),
    ensures
        decode_at(s, pos) is Err,
        read_line(s, pos) is Ok ==> decode_at(s, pos) == Err::<(Frame, int), Fault>(Fault::InvalidType),
{
}

/// Length bounds: a length of 512 MiB or more is refused, whatever follows
/// the line that announces it.
pub proof fn law_length_bound(s: Seq<u8>, pos: int)
    requires
        read_line(s, pos) is Ok,
        is_length_byte(read_line(s, pos)->Ok_0.tag),
        signed_value(read_line(s, pos)->Ok_0.header) is Some,
        signed_value(read_line(s, pos)->Ok_0.header)->0 >= max_size(),
    ensures
        decode_at(s, pos) is Err,
        signed_value(read_line(s, pos)->Ok_0.header)->0 <= i64::MAX ==> decode_at(s, pos) == Err::<
            (Frame, int),
            Fault,
        >(Fault::InvalidLength),
{
}

/// Length bounds: a bulk string of one byte less than 512 MiB is read.
pub proof fn law_longest_bulk(t: Seq<char>, rest: Seq<u8>)
    requires
        encode_utf8(t).len() == max_size() - 1,
    ensures
        decode_at(wire(Frame::BulkString(t)) + rest, 0) == Ok::<(Frame, int), Fault>(
            (Frame::BulkString(t), wire(Frame::BulkString(t)).len() as int),
        ),
{
    law_readable_round_trip(Frame::BulkString(t), rest);
}

/// CRLF strictness: a line that ends in a line feed without a carriage
/// return before it is refused.
pub proof fn law_bare_line_feed(s: Seq<u8>, pos: int, at: int)
    requires
        0 <= pos,
        first_line_feed(s, pos, at),
        at == pos || s[at - 1] != 13,
    ensures
        decode_at(s, pos) == Err::<(Frame, int), Fault>(Fault::InvalidCrlf),
{
    let chosen = choose|c: int| first_line_feed(s, pos, c);
    assert(chosen == at);
}

/// CRLF strictness: a line that no line feed ends is refused, whether or
/// not a carriage return stands at its end.
pub proof fn law_no_line_feed(s: Seq<u8>, pos: int)
    requires
        0 <= pos < s.len(),
        forall|j: int| pos <= j < s.len() ==> s[j] != 10,
    ensures
        decode_at(s, pos) == Err::<(Frame, int), Fault>(Fault::UnterminatedLine),
{
    assert forall|at: int| !first_line_feed(s, pos, at) by {}
}

/// CRLF strictness: a payload that is not followed by a carriage return
/// and a line feed is refused.
pub proof fn law_payload_line_break(s: Seq<u8>, pos: int, n: int)
    requires
        pos + n + 2 <= s.len(),
        s[pos + n] != 13 || s[pos + n + 1] != 10,
    ensures
        read_payload(s, pos, n) == Err::<Seq<u8>, Fault>(Fault::InvalidCrlf),
{
}

/// Null equivalence: the null of RESP3, the null bulk string and the null
/// array of RESP2 are all read as the one null value.
pub proof fn law_null_forms(rest: Seq<u8>)
    ensures
        decode_at(seq![95u8, 13u8, 10u8] + rest, 0) == Ok::<(Frame, int), Fault>((Frame::Null, 3)),
        decode_at(seq![36u8, 45u8, 49u8, 13u8, 10u8] + rest, 0) == Ok::<(Frame, int), Fault>((Frame::Null, 5)),
        decode_at(seq![42u8, 45u8, 49u8, 13u8, 10u8] + rest, 0) == Ok::<(Frame, int), Fault>((Frame::Null, 5)),
{
    let minus_one = seq![45u8, 49u8];
    assert(decimal(-1) =~= minus_one) by {
        assert(crate::resp::decimal::digits(1) =~= seq![49u8]);
    }
    lemma_decimal_header(-1);
    let plain = seq![95u8, 13u8, 10u8] + rest;
    assert(line(95, Seq::empty()) =~= seq![95u8, 13u8, 10u8]);
    assert(holds_at(plain, 0, line(95, Seq::empty())));
    lemma_read_line(plain, 0, 95, Seq::empty());
    let bulk = seq![36u8, 45u8, 49u8, 13u8, 10u8] + rest;
    assert(line(36, minus_one) =~= seq![36u8, 45u8, 49u8, 13u8, 10u8]);
    assert(holds_at(bulk, 0, line(36, minus_one)));
    lemma_read_line(bulk, 0, 36, minus_one);
    let array = seq![42u8, 45u8, 49u8, 13u8, 10u8] + rest;
    assert(line(42, minus_one) =~= seq![42u8, 45u8, 49u8, 13u8, 10u8]);
    assert(holds_at(array, 0, line(42, minus_one)));
    lemma_read_line(array, 0, 42, minus_one);
}

/// Whether reading came to an end that more bytes cannot change: a value
/// was read, or the fault is another than that the bytes end too early.
pub open spec fn settled<T>(r: Result<T, Fault>) -> bool {
    match r {
        Ok(_) => true,
        Err(fault) => !fault.starved(),
    }
}

/// A line that was read, or refused for its line break, reads the same
/// whatever bytes are added behind.
pub proof fn lemma_read_line_settled(s: Seq<u8>, t: Seq<u8>, pos: int)
    requires
        settled(read_line(s, pos)),
    ensures
        read_line(s + t, pos) == read_line(s, pos),
{
    let at = choose|at: int| first_line_feed(s, pos, at);
    assert(first_line_feed(s + t, pos, at)) by {
        assert((s + t)[at] == s[at]);
        assert forall|j: int| pos <= j < at implies (s + t)[j] != 10 by {
            assert((s + t)[j] == s[j]);
        }
    }
    let chosen = choose|c: int| first_line_feed(s + t, pos, c);
    assert(chosen == at);
    let end = at + 1;
    if end - pos >= 3 {
        assert((s + t)[end - 2] == s[end - 2]);
        assert((s + t)[end - 1] == s[end - 1]);
        assert((s + t)[pos] == s[pos]);
        assert((s + t).subrange(pos + 1, end - 2) =~= s.subrange(pos + 1, end - 2));
    }
}

/// A payload that was read, or refused for its line break, reads the same
/// whatever bytes are added behind.
pub proof fn lemma_read_payload_settled(s: Seq<u8>, t: Seq<u8>, pos: int, n: int)
    requires
        0 <= pos,
        0 <= n,
        settled(read_payload(s, pos, n)),
    ensures
        read_payload(s + t, pos, n) == read_payload(s, pos, n),
{
    assert((s + t)[pos + n] == s[pos + n]);
    assert((s + t)[pos + n + 1] == s[pos + n + 1]);
    assert((s + t).subrange(pos, pos + n) =~= s.subrange(pos, pos + n));
}

/// What was read to a settled end reads the same whatever bytes are added
/// behind: a value stays the value, and a fault that is not for want of
/// bytes stays the fault.
pub proof fn law_decode_settled(s: Seq<u8>, t: Seq<u8>, pos: int, n: int)
    ensures
        settled(decode_at(s, pos)) ==> decode_at(s + t, pos) == decode_at(s, pos),
        settled(decode_items(s, pos, n)) ==> decode_items(s + t, pos, n) == decode_items(s, pos, n),
    decreases s.len() - pos, n,
{
    if settled(decode_at(s, pos)) {
        if read_line(s, pos) is Ok {
            lemma_read_line_settled(s, t, pos);
            let line = read_line(s, pos)->Ok_0;
            let next = line.next;
            if line.tag == 36 || line.tag == 33 || line.tag == 61 {
                let least: int = if line.tag == 36 { -1 } else { 0 };
                if length_of(line.header, least) is Ok {
                    let m = length_of(line.header, least)->Ok_0;
                    if m >= 0 {
                        lemma_read_payload_settled(s, t, next, m);
                    }
                }
            } else if line.tag == 42 {
                if length_of(line.header, -1) is Ok {
                    let m = length_of(line.header, -1)->Ok_0;
                    if m != -1 {
                        law_decode_settled(s, t, next, m);
                    }
                }
            } else if line.tag == 37 {
                if length_of(line.header, 0) is Ok {
                    let m = length_of(line.header, 0)->Ok_0;
                    law_decode_settled(s, t, next, 2 * m);
                }
            } else if line.tag == 126 || line.tag == 62 {
                if length_of(line.header, 0) is Ok {
                    let m = length_of(line.header, 0)->Ok_0;
                    law_decode_settled(s, t, next, m);
                }
            }
        } else {
            lemma_read_line_settled(s, t, pos);
        }
    }
    if n > 0 && settled(decode_items(s, pos, n)) {
        lemma_decode_bounds(s, pos, 0);
        if decode_at(s, pos) is Ok {
            law_decode_settled(s, t, pos, 0);
            let next = decode_at(s, pos)->Ok_0.1;
            law_decode_settled(s, t, next, n - 1);
        } else {
            law_decode_settled(s, t, pos, 0);
        }
    }
}

/// The header of a line that was read holds no line feed.
pub proof fn lemma_header_no_line_feed(s: Seq<u8>, pos: int)
    requires
        read_line(s, pos) is Ok,
    ensures
        forall|k: int| 0 <= k < read_line(s, pos)->Ok_0.header.len() ==> #[trigger] read_line(s, pos)->Ok_0.header[k] != 10,
{
    let at = choose|at: int| first_line_feed(s, pos, at);
    let header = read_line(s, pos)->Ok_0.header;
    assert forall|k: int| 0 <= k < header.len() implies #[trigger] header[k] != 10 by {
        assert(header[k] == s[pos + 1 + k]);
    }
}

/// A text that was read from bytes has those bytes as its UTF-8, and holds
/// a character below 128 exactly where the bytes hold its code.
pub proof fn lemma_text_bytes(bytes: Seq<u8>)
    requires
        valid_utf8(bytes),
    ensures
        encode_utf8(decode_utf8(bytes)) == bytes,
        !bytes.contains(10u8) ==> !decode_utf8(bytes).contains('\n'),
        !bytes.contains(58u8) ==> !decode_utf8(bytes).contains(':'),
{
    vstd::utf8::decode_utf8_encode_utf8(bytes);
    lemma_ascii_byte_in_utf8(decode_utf8(bytes), 10u8);
    lemma_ascii_byte_in_utf8(decode_utf8(bytes), 58u8);
    assert(10u8 as char == '\n');
    assert(58u8 as char == ':');
}

/// What was read is readable: every value that the decoder gives is read
/// back from its own bytes.
pub proof fn lemma_decoded_readable(s: Seq<u8>, pos: int, n: int)
    ensures
        decode_at(s, pos) is Ok ==> decode_at(s, pos)->Ok_0.0.readable(),
        decode_items(s, pos, n) is Ok ==> forall|i: int|
            0 <= i < decode_items(s, pos, n)->Ok_0.0.len() ==> (#[trigger] decode_items(s, pos, n)->Ok_0.0[i]).readable(),
    decreases s.len() - pos, n,
{
    if decode_at(s, pos) is Ok {
        let line = read_line(s, pos)->Ok_0;
        let header = line.header;
        let next = line.next;
        lemma_header_no_line_feed(s, pos);
        if line.tag == 43 || line.tag == 45 || line.tag == 40 {
            lemma_text_bytes(header);
            if header.contains(10u8) {
                let k = choose|k: int| 0 <= k < header.len() && header[k] == 10u8;
                assert(header[k] != 10);
            }
        } else if line.tag == 36 || line.tag == 33 {
            let least: int = if line.tag == 36 { -1 } else { 0 };
            let m = length_of(header, least)->Ok_0;
            if m >= 0 {
                let payload = read_payload(s, next, m)->Ok_0;
                lemma_text_bytes(payload);
            }
        } else if line.tag == 44 {
            lemma_double_text(header);
            lemma_double_text_lowered(header);
            let low = lowered(header);
            lemma_double_text(low);
            lemma_ascii_is_utf8(low);
            lemma_text_bytes(low);
        } else if line.tag == 61 {
            let m = length_of(header, 0)->Ok_0;
            let payload = read_payload(s, next, m)->Ok_0;
            let at = choose|at: int| first_colon(payload, at);
            let head = payload.take(at);
            let tail = payload.skip(at + 1);
            lemma_text_bytes(head);
            lemma_text_bytes(tail);
            if head.contains(58u8) {
                let k = choose|k: int| 0 <= k < head.len() && head[k] == 58u8;
                assert(payload[k] == head[k]);
            }
        } else if line.tag == 42 {
            let m = length_of(header, -1)->Ok_0;
            if m != -1 {
                lemma_decoded_readable(s, next, m);
                lemma_decode_bounds(s, next, m);
            }
        } else if line.tag == 37 {
            let m = length_of(header, 0)->Ok_0;
            lemma_decoded_readable(s, next, 2 * m);
            lemma_decode_bounds(s, next, 2 * m);
            let items = decode_items(s, next, 2 * m)->Ok_0.0;
            let pairs = pair_up(items);
            assert forall|i: int| 0 <= i < pairs.len() implies (#[trigger] pairs[i]).0.readable()
                && pairs[i].1.readable() by {
                assert(items[2 * i].readable());
                assert(items[2 * i + 1].readable());
            }
        } else if line.tag == 126 || line.tag == 62 {
            let m = length_of(header, 0)->Ok_0;
            lemma_decoded_readable(s, next, m);
            lemma_decode_bounds(s, next, m);
        }
    }
    if n > 0 && decode_items(s, pos, n) is Ok {
        lemma_decoded_readable(s, pos, 0);
        let first = decode_at(s, pos)->Ok_0.0;
        let next = decode_at(s, pos)->Ok_0.1;
        lemma_decoded_readable(s, next, n - 1);
        let rest = decode_items(s, next, n - 1)->Ok_0.0;
        let all = decode_items(s, pos, n)->Ok_0.0;
        assert forall|i: int| 0 <= i < all.len() implies (#[trigger] all[i]).readable() by {
            if i > 0 {
                assert(all[i] == rest[i - 1]);
            }
        }
    }
}

/// Round trip from the wire: whatever value is read from bytes, its own
/// bytes are read as the same value.
pub proof fn law_decode_round_trip(s: Seq<u8>, pos: int, rest: Seq<u8>)
    requires
        decode_at(s, pos) is Ok,
    ensures
        decode_at(wire(decode_at(s, pos)->Ok_0.0) + rest, 0) == Ok::<(Frame, int), Fault>(
            (decode_at(s, pos)->Ok_0.0, wire(decode_at(s, pos)->Ok_0.0).len() as int),
        ),
{
    lemma_decoded_readable(s, pos, 0);
    law_readable_round_trip(decode_at(s, pos)->Ok_0.0, rest);
}

} // verus!

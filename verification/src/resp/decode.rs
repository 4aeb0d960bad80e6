//! From bytes to values.

use vstd::prelude::*;
use vstd::slice::{slice_subrange, slice_to_vec};
use vstd::utf8::{decode_utf8, valid_utf8};
use crate::error::{Error, ErrorView};
use crate::resp::decimal::{parse_decimal, parse_i64};
use crate::resp::double::{is_double, is_double_text, lemma_double_text};
use crate::resp::text::{lemma_ascii_is_utf8, lowered, push_lower, string_from_utf8};
use crate::resp::value::{frame_pairs, frames, Frame, Value, RESP_MAX_SIZE};

verus! {

/// Why bytes could not be read as a value.
#[derive(Debug, Clone, Copy, PartialEq, Eq)]
pub enum Fault {
    /// The bytes end where a line should start, or within a payload.
    UnexpectedEof,
    /// The bytes end within a line: no line feed ends it.
    UnterminatedLine,
    /// A line or a payload does not end in a carriage return and a line
    /// feed, or the line is too short to hold them behind a type byte.
    InvalidCrlf,
    /// The type byte is none of the known ones.
    InvalidType,
    /// A text is no UTF-8.
    InvalidUtf8,
    /// A header that should be an integer is none, or does not fit 64 bits.
    InvalidInteger,
    /// A length is negative or too large.
    InvalidLength,
    /// A boolean is neither `t` nor `f`.
    InvalidBoolean,
    /// A null carries a header.
    InvalidNull,
    /// A double is no floating-point number.
    InvalidDouble,
    /// A verbatim string has no colon behind its encoding.
    MissingEncoding,
}

impl Fault {
    /// The message that reports the fault.
    pub open spec fn message(self) -> Seq<char> {
        match self {
            Fault::UnexpectedEof => "unexpected EOF"@,
            Fault::UnterminatedLine => "invalid CRLF"@,
            Fault::InvalidCrlf => "invalid CRLF"@,
            Fault::InvalidType => "invalid RESP type"@,
            Fault::InvalidUtf8 => "invalid UTF-8"@,
            Fault::InvalidInteger => "invalid integer"@,
            Fault::InvalidLength => "invalid length"@,
            Fault::InvalidBoolean => "invalid RESP boolean"@,
            Fault::InvalidNull => "invalid RESP null"@,
            Fault::InvalidDouble => "invalid double"@,
            Fault::MissingEncoding => "invalid verbatim string, missing encoding"@,
        }
    }

    /// Whether the fault is that the bytes end too early, so that more
    /// bytes may still make a value of them.
    pub open spec fn starved(self) -> bool {
        self == Fault::UnexpectedEof || self == Fault::UnterminatedLine
    }

    /// Whether the fault is that the bytes end too early.
    pub fn is_starved(self) -> (r: bool)
        ensures
            r == self.starved(),
    {
        match self {
            Fault::UnexpectedEof => true,
            Fault::UnterminatedLine => true,
            _ => false,
        }
    }

    /// The error that reports the fault.
    pub fn to_error(self) -> (e: Error)
        ensures
            e@ == ErrorView::Resp(self.message()),
    {
        let text: &str = match self {
            Fault::UnexpectedEof => "unexpected EOF",
            Fault::UnterminatedLine => "invalid CRLF",
            Fault::InvalidCrlf => "invalid CRLF",
            Fault::InvalidType => "invalid RESP type",
            Fault::InvalidUtf8 => "invalid UTF-8",
            Fault::InvalidInteger => "invalid integer",
            Fault::InvalidLength => "invalid length",
            Fault::InvalidBoolean => "invalid RESP boolean",
            Fault::InvalidNull => "invalid RESP null",
            Fault::InvalidDouble => "invalid double",
            Fault::MissingEncoding => "invalid verbatim string, missing encoding",
        };
        Error::Resp(text.to_owned())
    }
}

/// Whether `b` is one of the type bytes: `+ - : $ * _ # , ( ! = % ~ >`.
pub open spec fn is_type_byte(b: u8) -> bool {
    ||| b == 43
    ||| b == 45
    ||| b == 58
    ||| b == 36
    ||| b == 42
    ||| b == 95
    ||| b == 35
    ||| b == 44
    ||| b == 40
    ||| b == 33
    ||| b == 61
    ||| b == 37
    ||| b == 126
    ||| b == 62
}

/// Whether `b` is the type byte of a value whose line announces a length:
/// `$ * ! = % ~ >`.
pub open spec fn is_length_byte(b: u8) -> bool {
    ||| b == 36
    ||| b == 42
    ||| b == 33
    ||| b == 61
    ||| b == 37
    ||| b == 126
    ||| b == 62
}

/// Whether the first line feed of `s` at or behind `from` stands at `at`.
pub open spec fn first_line_feed(s: Seq<u8>, from: int, at: int) -> bool {
    &&& from <= at < s.len()
    &&& s[at] == 10
    &&& forall|j: int| from <= j < at ==> s[j] != 10
}

/// Where the line that starts at `from` ends: behind its line feed, or at
/// the end of `s` where no line feed follows.
pub open spec fn line_end(s: Seq<u8>, from: int) -> int {
    if exists|at: int| first_line_feed(s, from, at) {
        (choose|at: int| first_line_feed(s, from, at)) + 1
    } else {
        s.len() as int
    }
}

/// A line, read: its type byte, its header, and the position behind it.
pub struct Line {
    pub tag: u8,
    pub header: Seq<u8>,
    pub next: int,
}

/// The line that starts at `pos`. A line feed ends it; it has at least three
/// bytes, of which the last two are a carriage return and a line feed.
pub open spec fn read_line(s: Seq<u8>, pos: int) -> Result<Line, Fault> {
    let end = line_end(s, pos);
    if pos < 0 || pos >= s.len() {
        Err(Fault::UnexpectedEof)
    } else if !exists|at: int| first_line_feed(s, pos, at) {
        Err(Fault::UnterminatedLine)
    } else if end - pos < 3 || s[end - 2] != 13 || s[end - 1] != 10 {
        Err(Fault::InvalidCrlf)
    } else {
        Ok(Line { tag: s[pos], header: s.subrange(pos + 1, end - 2), next: end })
    }
}

/// The `n` bytes of a payload that starts at `pos` and ends in a carriage
/// return and a line feed.
pub open spec fn read_payload(s: Seq<u8>, pos: int, n: int) -> Result<Seq<u8>, Fault> {
    if pos + n + 2 > s.len() {
        Err(Fault::UnexpectedEof)
    } else if s[pos + n] != 13 || s[pos + n + 1] != 10 {
        Err(Fault::InvalidCrlf)
    } else {
        Ok(s.subrange(pos, pos + n))
    }
}

/// The text that `bytes` hold in UTF-8.
pub open spec fn text_of(bytes: Seq<u8>) -> Result<Seq<char>, Fault> {
    if valid_utf8(bytes) {
        Ok(decode_utf8(bytes))
    } else {
        Err(Fault::InvalidUtf8)
    }
}

/// The integer that a header holds.
pub open spec fn integer_of(header: Seq<u8>) -> Result<i64, Fault> {
    match parse_i64(header) {
        Some(n) => Ok(n),
        None => Err(Fault::InvalidInteger),
    }
}

/// The length that a header announces: an integer from `least` on and
/// under 512 MiB.
pub open spec fn length_of(header: Seq<u8>, least: int) -> Result<int, Fault> {
    match integer_of(header) {
        Err(fault) => Err(fault),
        Ok(n) => if n < least || n >= RESP_MAX_SIZE {
            Err(Fault::InvalidLength)
        } else {
            Ok(n as int)
        },
    }
}

/// Whether the colon that ends the encoding of a verbatim string stands
/// at `at`: it is the first colon of the payload.
pub open spec fn first_colon(payload: Seq<u8>, at: int) -> bool {
    &&& 0 <= at < payload.len()
    &&& payload[at] == 58
    &&& forall|j: int| 0 <= j < at ==> payload[j] != 58
}

/// The encoding and the text of a verbatim string, parted at the first colon
/// of its payload.
pub open spec fn verbatim_of(payload: Seq<u8>) -> Result<Frame, Fault> {
    if !exists|at: int| first_colon(payload, at) {
        Err(Fault::MissingEncoding)
    } else {
        let at = choose|at: int| first_colon(payload, at);
        match (text_of(payload.take(at)), text_of(payload.skip(at + 1))) {
            (Ok(encoding), Ok(text)) => Ok(Frame::VerbatimString(encoding, text)),
            _ => Err(Fault::InvalidUtf8),
        }
    }
}

/// The pairs that a run of values makes, two by two.
pub open spec fn pair_up(items: Seq<Frame>) -> Seq<(Frame, Frame)> {
    Seq::new((items.len() / 2) as nat, |i: int| (items[2 * i], items[2 * i + 1]))
}

/// A value read at `pos`, and the position behind it.
pub type Decoded = Result<(Frame, int), Fault>;

/// Several values read one after the other, and the position behind them.
pub type DecodedItems = Result<(Seq<Frame>, int), Fault>;

/// The value that stands at `pos` in `s`, with the position behind it, or
/// the reason why none can be read there.
pub open spec fn decode_at(s: Seq<u8>, pos: int) -> Decoded
    decreases s.len() - pos, 0int,
{
    match read_line(s, pos) {
        Err(fault) => Err(fault),
        Ok(line) => {
            let header = line.header;
            let next = line.next;
            if line.tag == 43 {
                match text_of(header) {
                    Err(fault) => Err(fault),
                    Ok(t) => Ok((Frame::String(t), next)),
                }
            } else if line.tag == 45 {
                match text_of(header) {
                    Err(fault) => Err(fault),
                    Ok(t) => Ok((Frame::Error(t), next)),
                }
            } else if line.tag == 58 {
                match integer_of(header) {
                    Err(fault) => Err(fault),
                    Ok(n) => Ok((Frame::Integer(n as int), next)),
                }
            } else if line.tag == 36 {
                match length_of(header, -1) {
                    Err(fault) => Err(fault),
                    Ok(n) => if n == -1 {
                        Ok((Frame::Null, next))
                    } else {
                        match read_payload(s, next, n) {
                            Err(fault) => Err(fault),
                            Ok(payload) => match text_of(payload) {
                                Err(fault) => Err(fault),
                                Ok(t) => Ok((Frame::BulkString(t), next + n + 2)),
                            },
                        }
                    },
                }
            } else if line.tag == 42 {
                match length_of(header, -1) {
                    Err(fault) => Err(fault),
                    Ok(n) => if n == -1 {
                        Ok((Frame::Null, next))
                    } else {
                        match decode_items(s, next, n) {
                            Err(fault) => Err(fault),
                            Ok((items, end)) => Ok((Frame::Array(items), end)),
                        }
                    },
                }
            } else if line.tag == 95 {
                if header.len() == 0 {
                    Ok((Frame::Null, next))
                } else {
                    Err(Fault::InvalidNull)
                }
            } else if line.tag == 35 {
                if header == seq![116u8] {
                    Ok((Frame::Boolean(true), next))
                } else if header == seq![102u8] {
                    Ok((Frame::Boolean(false), next))
                } else {
                    Err(Fault::InvalidBoolean)
                }
            } else if line.tag == 44 {
                if is_double_text(header) {
                    Ok((Frame::Double(decode_utf8(lowered(header))), next))
                } else {
                    Err(Fault::InvalidDouble)
                }
            } else if line.tag == 40 {
                match text_of(header) {
                    Err(fault) => Err(fault),
                    Ok(t) => Ok((Frame::BigNumber(t), next)),
                }
            } else if line.tag == 33 {
                match length_of(header, 0) {
                    Err(fault) => Err(fault),
                    Ok(n) => match read_payload(s, next, n) {
                        Err(fault) => Err(fault),
                        Ok(payload) => match text_of(payload) {
                            Err(fault) => Err(fault),
                            Ok(t) => Ok((Frame::BulkError(t), next + n + 2)),
                        },
                    },
                }
            } else if line.tag == 61 {
                match length_of(header, 0) {
                    Err(fault) => Err(fault),
                    Ok(n) => match read_payload(s, next, n) {
                        Err(fault) => Err(fault),
                        Ok(payload) => match verbatim_of(payload) {
                            Err(fault) => Err(fault),
                            Ok(frame) => Ok((frame, next + n + 2)),
                        },
                    },
                }
            } else if line.tag == 37 {
                match length_of(header, 0) {
                    Err(fault) => Err(fault),
                    Ok(n) => match decode_items(s, next, 2 * n) {
                        Err(fault) => Err(fault),
                        Ok((items, end)) => Ok((Frame::RespMap(pair_up(items)), end)),
                    },
                }
            } else if line.tag == 126 {
                match length_of(header, 0) {
                    Err(fault) => Err(fault),
                    Ok(n) => match decode_items(s, next, n) {
                        Err(fault) => Err(fault),
                        Ok((items, end)) => Ok((Frame::RespSet(items), end)),
                    },
                }
            } else if line.tag == 62 {
                match length_of(header, 0) {
                    Err(fault) => Err(fault),
                    Ok(n) => match decode_items(s, next, n) {
                        Err(fault) => Err(fault),
                        Ok((items, end)) => Ok((Frame::Push(items), end)),
                    },
                }
            } else {
                Err(Fault::InvalidType)
            }
        },
    }
}

/// The `n` values that stand one after the other from `pos` on, with the
/// position behind the last. The first fault met is the result. Every value
/// takes up at least the three bytes of a line and ends within `s`, so each
/// one starts behind the one before it; the definition asks for that to
/// show that it ends.
pub open spec fn decode_items(s: Seq<u8>, pos: int, n: int) -> DecodedItems
    decreases s.len() - pos, n,
{
    if n <= 0 {
        Ok((Seq::empty(), pos))
    } else {
        match decode_at(s, pos) {
            Err(fault) => Err(fault),
            Ok((first, next)) => if next <= pos || next > s.len() {
                Err(Fault::UnexpectedEof)
            } else {
                match decode_items(s, next, n - 1) {
                    Err(fault) => Err(fault),
                    Ok((rest, end)) => Ok((seq![first] + rest, end)),
                }
            },
        }
    }
}

/// A value that is read ends within the bytes, at least three bytes behind
/// its start; so do several values, and there are as many as were asked for.
pub proof fn lemma_decode_bounds(s: Seq<u8>, pos: int, n: int)
    ensures
        decode_at(s, pos) is Ok ==> 0 <= pos && pos + 3 <= decode_at(s, pos)->Ok_0.1 <= s.len(),
        decode_items(s, pos, n) is Ok ==> {
            &&& decode_items(s, pos, n)->Ok_0.0.len() == if n <= 0 { 0 } else { n }
            &&& pos <= decode_items(s, pos, n)->Ok_0.1
            &&& n > 0 ==> decode_items(s, pos, n)->Ok_0.1 <= s.len()
        },
    decreases s.len() - pos, n,
{
    if decode_at(s, pos) is Ok {
        let line = read_line(s, pos)->Ok_0;
        let next = line.next;
        if line.tag == 42 {
            let m = length_of(line.header, -1)->Ok_0;
            if m != -1 {
                lemma_decode_bounds(s, next, m);
                if m == 0 {
                    assert(decode_items(s, next, m) == Ok::<(Seq<Frame>, int), Fault>((Seq::empty(), next)));
                }
            }
        } else if line.tag == 37 {
            let m = length_of(line.header, 0)->Ok_0;
            lemma_decode_bounds(s, next, 2 * m);
        } else if line.tag == 126 || line.tag == 62 {
            let m = length_of(line.header, 0)->Ok_0;
            lemma_decode_bounds(s, next, m);
        }
    }
    if n > 0 && decode_items(s, pos, n) is Ok {
        let next = decode_at(s, pos)->Ok_0.1;
        lemma_decode_bounds(s, next, n - 1);
    }
}

/// Reading `n` values is reading the first `i` of them, then the others
/// from where those end.
pub proof fn lemma_decode_items_split(s: Seq<u8>, pos: int, i: int, n: int)
    requires
        0 <= i <= n,
        decode_items(s, pos, i) is Ok,
    ensures
        decode_items(s, pos, n) == (match decode_items(s, decode_items(s, pos, i)->Ok_0.1, n - i) {
            Err(fault) => Err::<(Seq<Frame>, int), Fault>(fault),
            Ok((rest, end)) => Ok((decode_items(s, pos, i)->Ok_0.0 + rest, end)),
        }),
    decreases i,
{
    if i == 0 {
        match decode_items(s, pos, n) {
            Ok((rest, end)) => {
                assert(Seq::<Frame>::empty() + rest =~= rest);
            },
            Err(_) => {},
        }
    } else {
        let first = decode_at(s, pos)->Ok_0.0;
        let next = decode_at(s, pos)->Ok_0.1;
        lemma_decode_items_split(s, next, i - 1, n - 1);
        let head = decode_items(s, next, i - 1)->Ok_0.0;
        let cur = decode_items(s, next, i - 1)->Ok_0.1;
        match decode_items(s, cur, n - i) {
            Ok((rest, end)) => {
                assert(seq![first] + (head + rest) =~= (seq![first] + head) + rest);
            },
            Err(_) => {},
        }
    }
}

/// Whether the two bytes are a carriage return and a line feed.
pub fn is_crlf(a: u8, b: u8) -> (r: bool)
    ensures
        r == (a == 13 && b == 10),
{
    a == 13u8 && b == 10u8
}

/// Reads a text from its UTF-8 bytes.
pub fn parse_string(bytes: &[u8]) -> (r: Result<String, Fault>)
    ensures
        match text_of(bytes@) {
            Ok(t) => r is Ok && r->Ok_0@ == t,
            Err(fault) => r == Err::<String, Fault>(fault),
        },
{
    match string_from_utf8(slice_to_vec(bytes)) {
        Some(text) => Ok(text),
        None => Err(Fault::InvalidUtf8),
    }
}

/// Reads a signed 64-bit integer from its decimal text.
pub fn parse_integer(bytes: &[u8]) -> (r: Result<i64, Fault>)
    ensures
        r == integer_of(bytes@),
{
    match parse_decimal(bytes) {
        Some(n) => Ok(n),
        None => Err(Fault::InvalidInteger),
    }
}

/// Reads a length from its decimal text.
fn parse_length(bytes: &[u8], least: i64) -> (r: Result<i64, Fault>)
    requires
        -1 <= least <= 0,
    ensures
        match length_of(bytes@, least as int) {
            Ok(n) => r == Ok::<i64, Fault>(n as i64) && least <= n < RESP_MAX_SIZE,
            Err(fault) => r == Err::<i64, Fault>(fault),
        },
{
    let n: i64 = parse_integer(bytes)?;
    if n < least || n >= RESP_MAX_SIZE {
        Err(Fault::InvalidLength)
    } else {
        Ok(n)
    }
}

/// Finds where the line that starts at `pos` ends, if a line feed ends it.
fn find_line_end(buf: &[u8], pos: usize) -> (r: Option<usize>)
    requires
        pos <= buf@.len(),
    ensures
        r is Some <==> exists|at: int| first_line_feed(buf@, pos as int, at),
        r is Some ==> r->0 == line_end(buf@, pos as int) && pos < r->0 <= buf@.len(),
{
    let mut i: usize = pos;
    while i < buf.len()
        invariant
            pos <= i <= buf@.len(),
            forall|j: int| pos <= j < i ==> buf@[j] != 10,
        decreases buf@.len() - i,
    {
        if buf[i] == 10u8 {
            proof {
                assert(first_line_feed(buf@, pos as int, i as int));
                let at = choose|at: int| first_line_feed(buf@, pos as int, at);
                assert(at == i);
            }
            return Some(i + 1);
        }
        i = i + 1;
    }
    proof {
        assert forall|at: int| !first_line_feed(buf@, pos as int, at) by {}
    }
    None
}

/// Reads the line that starts at `pos`: gives the position behind it.
fn scan_line(buf: &[u8], pos: usize) -> (r: Result<usize, Fault>)
    requires
        pos <= buf@.len(),
    ensures
        match read_line(buf@, pos as int) {
            Ok(line) => r == Ok::<usize, Fault>(line.next as usize) && pos + 3 <= line.next <= buf@.len(),
            Err(fault) => r == Err::<usize, Fault>(fault),
        },
{
    if pos >= buf.len() {
        return Err(Fault::UnexpectedEof);
    }
    match find_line_end(buf, pos) {
        None => Err(Fault::UnterminatedLine),
        Some(end) => {
            if end - pos < 3 || !is_crlf(buf[end - 2], buf[end - 1]) {
                Err(Fault::InvalidCrlf)
            } else {
                Ok(end)
            }
        },
    }
}

/// Reads a payload of `n` bytes that starts at `pos`.
fn scan_payload<'a>(buf: &'a [u8], pos: usize, n: usize) -> (r: Result<&'a [u8], Fault>)
    requires
        pos <= buf@.len(),
        n < RESP_MAX_SIZE,
    ensures
        match read_payload(buf@, pos as int, n as int) {
            Ok(payload) => r is Ok && r->Ok_0@ == payload && pos + n + 2 <= buf@.len(),
            Err(fault) => r == Err::<&[u8], Fault>(fault),
        },
{
    if buf.len() - pos < 2 || buf.len() - pos - 2 < n {
        return Err(Fault::UnexpectedEof);
    }
    if !is_crlf(buf[pos + n], buf[pos + n + 1]) {
        return Err(Fault::InvalidCrlf);
    }
    Ok(slice_subrange(buf, pos, pos + n))
}

/// Finds the first colon of `payload`.
fn find_colon(payload: &[u8]) -> (r: Option<usize>)
    ensures
        match r {
            Some(at) => first_colon(payload@, at as int),
            None => !exists|at: int| first_colon(payload@, at),
        },
{
    let mut i: usize = 0;
    while i < payload.len()
        invariant
            i <= payload@.len(),
            forall|j: int| 0 <= j < i ==> payload@[j] != 58,
        decreases payload@.len() - i,
    {
        if payload[i] == 58u8 {
            return Some(i);
        }
        i = i + 1;
    }
    proof {
        assert forall|at: int| !first_colon(payload@, at) by {}
    }
    None
}

/// Reads a verbatim string from its payload.
fn parse_verbatim(payload: &[u8]) -> (r: Result<Value, Fault>)
    ensures
        match verbatim_of(payload@) {
            Ok(frame) => r is Ok && r->Ok_0@ == frame,
            Err(fault) => r == Err::<Value, Fault>(fault),
        },
{
    match find_colon(payload) {
        None => Err(Fault::MissingEncoding),
        Some(at) => {
            proof {
                let chosen = choose|k: int| first_colon(payload@, k);
                assert(first_colon(payload@, at as int));
                assert(chosen == at);
                assert(at < payload@.len());
            }
            let len: usize = payload.len();
            let head: &[u8] = slice_subrange(payload, 0, at);
            let tail: &[u8] = slice_subrange(payload, at + 1, len);
            proof {
                assert(head@ =~= payload@.take(at as int));
                assert(tail@ =~= payload@.skip(at + 1));
            }
            match (parse_string(head), parse_string(tail)) {
                (Ok(encoding), Ok(text)) => Ok(Value::VerbatimString((encoding, text))),
                _ => Err(Fault::InvalidUtf8),
            }
        },
    }
}

/// Whether what was read is what the bytes hold: the value and the position
/// behind it, or the fault.
pub open spec fn reads_as(r: Result<(Value, usize), Fault>, expected: Decoded) -> bool {
    match expected {
        Ok((frame, next)) => r is Ok && r->Ok_0.0@ == frame && r->Ok_0.1 == next,
        Err(fault) => r is Err && r->Err_0 == fault,
    }
}

/// Reads the value that stands at `pos`.
pub fn decode_frame(buf: &[u8], pos: usize) -> (r: Result<(Value, usize), Fault>)
    requires
        pos <= buf@.len(),
    ensures
        reads_as(r, decode_at(buf@, pos as int)),
        r is Ok ==> pos < r->Ok_0.1 <= buf@.len(),
    decreases buf@.len() - pos, 0int,
{
    let next: usize = scan_line(buf, pos)?;
    let tag: u8 = buf[pos];
    let header: &[u8] = slice_subrange(buf, pos + 1, next - 2);
    proof {
        lemma_decode_bounds(buf@, pos as int, 0);
    }
    if tag == 43u8 {
        let text: String = parse_string(header)?;
        Ok((Value::String(text), next))
    } else if tag == 45u8 {
        let text: String = parse_string(header)?;
        Ok((Value::Error(text), next))
    } else if tag == 58u8 {
        let n: i64 = parse_integer(header)?;
        Ok((Value::Integer(n), next))
    } else if tag == 36u8 {
        let n: i64 = parse_length(header, -1)?;
        if n == -1 {
            return Ok((Value::Null, next));
        }
        let size: usize = n as usize;
        let payload: &[u8] = scan_payload(buf, next, size)?;
        let text: String = parse_string(payload)?;
        Ok((Value::BulkString(text), next + size + 2))
    } else if tag == 42u8 {
        let n: i64 = parse_length(header, -1)?;
        if n == -1 {
            return Ok((Value::Null, next));
        }
        let (items, end) = decode_run(buf, next, n as usize)?;
        Ok((Value::Array(items), end))
    } else if tag == 95u8 {
        if header.len() == 0 {
            Ok((Value::Null, next))
        } else {
            Err(Fault::InvalidNull)
        }
    } else if tag == 35u8 {
        if header.len() == 1 && header[0] == 116u8 {
            proof {
                assert(header@ =~= seq![116u8]);
            }
            Ok((Value::Boolean(true), next))
        } else if header.len() == 1 && header[0] == 102u8 {
            proof {
                assert(header@ =~= seq![102u8]);
            }
            Ok((Value::Boolean(false), next))
        } else {
            proof {
                assert(seq![116u8].len() == 1 && seq![116u8][0] == 116u8);
                assert(seq![102u8].len() == 1 && seq![102u8][0] == 102u8);
            }
            Err(Fault::InvalidBoolean)
        }
    } else if tag == 44u8 {
        if !is_double(header) {
            return Err(Fault::InvalidDouble);
        }
        let mut low: Vec<u8> = Vec::new();
        push_lower(&mut low, header);
        proof {
            lemma_double_text(header@);
            assert(low@ =~= lowered(header@));
            lemma_ascii_is_utf8(low@);
        }
        let text: String = parse_string(low.as_slice())?;
        Ok((Value::Double(text), next))
    } else if tag == 40u8 {
        let text: String = parse_string(header)?;
        Ok((Value::BigNumber(text), next))
    } else if tag == 33u8 {
        let n: i64 = parse_length(header, 0)?;
        let size: usize = n as usize;
        let payload: &[u8] = scan_payload(buf, next, size)?;
        let text: String = parse_string(payload)?;
        Ok((Value::BulkError(text), next + size + 2))
    } else if tag == 61u8 {
        let n: i64 = parse_length(header, 0)?;
        let size: usize = n as usize;
        let payload: &[u8] = scan_payload(buf, next, size)?;
        let value: Value = parse_verbatim(payload)?;
        Ok((value, next + size + 2))
    } else if tag == 37u8 {
        let n: i64 = parse_length(header, 0)?;
        let (pairs, end) = decode_pair_run(buf, next, n as usize)?;
        Ok((Value::RespMap(pairs), end))
    } else if tag == 126u8 {
        let n: i64 = parse_length(header, 0)?;
        let (items, end) = decode_run(buf, next, n as usize)?;
        Ok((Value::RespSet(items), end))
    } else if tag == 62u8 {
        let n: i64 = parse_length(header, 0)?;
        let (items, end) = decode_run(buf, next, n as usize)?;
        Ok((Value::Push(items), end))
    } else {
        Err(Fault::InvalidType)
    }
}

/// Reads the `n` values that stand one after the other from `pos` on.
fn decode_run(buf: &[u8], pos: usize, n: usize) -> (r: Result<(Vec<Value>, usize), Fault>)
    requires
        pos <= buf@.len(),
    ensures
        match decode_items(buf@, pos as int, n as int) {
            Ok((items, end)) => r is Ok && frames(r->Ok_0.0@) == items && r->Ok_0.1 == end,
            Err(fault) => r is Err && r->Err_0 == fault,
        },
    decreases buf@.len() - pos, 1int,
{
    let mut items: Vec<Value> = Vec::new();
    let mut cur: usize = pos;
    let mut i: usize = 0;
    proof {
        assert(frames(items@) =~= Seq::<Frame>::empty());
    }
    while i < n
        invariant
            i <= n,
            pos <= cur <= buf@.len(),
            decode_items(buf@, pos as int, i as int) == Ok::<(Seq<Frame>, int), Fault>((frames(items@), cur as int)),
        decreases n - i,
    {
        proof {
            lemma_decode_items_split(buf@, pos as int, i as int, n as int);
            lemma_decode_items_split(buf@, pos as int, i as int, i + 1);
            lemma_decode_bounds(buf@, cur as int, 0);
        }
        match decode_frame(buf, cur) {
            Err(fault) => {
                return Err(fault);
            },
            Ok((value, next)) => {
                proof {
                    assert(decode_items(buf@, next as int, 0) == Ok::<(Seq<Frame>, int), Fault>((Seq::empty(), next as int)));
                    assert(seq![value@] + Seq::<Frame>::empty() =~= seq![value@]);
                    assert(frames(items@.push(value)) =~= frames(items@) + seq![value@]);
                }
                items.push(value);
                cur = next;
                i = i + 1;
            },
        }
    }
    Ok((items, cur))
}

/// Reads the `n` pairs of values that stand one after the other from `pos`
/// on.
fn decode_pair_run(buf: &[u8], pos: usize, n: usize) -> (r: Result<(Vec<(Value, Value)>, usize), Fault>)
    requires
        pos <= buf@.len(),
        n < RESP_MAX_SIZE,
    ensures
        match decode_items(buf@, pos as int, 2 * n) {
            Ok((items, end)) => r is Ok && frame_pairs(r->Ok_0.0@) == pair_up(items) && r->Ok_0.1 == end,
            Err(fault) => r is Err && r->Err_0 == fault,
        },
    decreases buf@.len() - pos, 1int,
{
    let mut pairs: Vec<(Value, Value)> = Vec::new();
    let mut cur: usize = pos;
    let mut i: usize = 0;
    let ghost mut flat: Seq<Frame> = Seq::empty();
    proof {
        assert(frame_pairs(pairs@) =~= pair_up(flat));
    }
    while i < n
        invariant
            i <= n,
            pos <= cur <= buf@.len(),
            flat.len() == 2 * i,
            decode_items(buf@, pos as int, 2 * i) == Ok::<(Seq<Frame>, int), Fault>((flat, cur as int)),
            frame_pairs(pairs@) == pair_up(flat),
        decreases n - i,
    {
        proof {
            lemma_decode_items_split(buf@, pos as int, 2 * i, 2 * n);
            lemma_decode_items_split(buf@, pos as int, 2 * i, 2 * i + 1);
            lemma_decode_bounds(buf@, cur as int, 0);
        }
        let (key, mid) = match decode_frame(buf, cur) {
            Err(fault) => {
                return Err(fault);
            },
            Ok(read) => read,
        };
        proof {
            assert(decode_items(buf@, mid as int, 0) == Ok::<(Seq<Frame>, int), Fault>((Seq::empty(), mid as int)));
            assert(seq![key@] + Seq::<Frame>::empty() =~= seq![key@]);
            assert(decode_items(buf@, pos as int, 2 * i + 1) == Ok::<(Seq<Frame>, int), Fault>((flat + seq![key@], mid as int)));
            lemma_decode_items_split(buf@, pos as int, 2 * i + 1, 2 * n);
            lemma_decode_items_split(buf@, pos as int, 2 * i + 1, 2 * i + 2);
            lemma_decode_bounds(buf@, mid as int, 0);
        }
        let (value, next) = match decode_frame(buf, mid) {
            Err(fault) => {
                return Err(fault);
            },
            Ok(read) => read,
        };
        proof {
            assert(decode_items(buf@, next as int, 0) == Ok::<(Seq<Frame>, int), Fault>((Seq::empty(), next as int)));
            assert(seq![value@] + Seq::<Frame>::empty() =~= seq![value@]);
            let longer = flat + seq![key@] + seq![value@];
            assert(decode_items(buf@, pos as int, 2 * i + 2) == Ok::<(Seq<Frame>, int), Fault>((longer, next as int)));
            assert(frame_pairs(pairs@.push((key, value))) =~= pair_up(longer)) by {
                assert(longer.len() == 2 * i + 2);
                assert(pair_up(longer).len() == i + 1);
                assert(pair_up(flat).len() == i);
                assert(frame_pairs(pairs@).len() == i);
                assert forall|k: int| 0 <= k < i + 1 implies frame_pairs(pairs@.push((key, value)))[k] == pair_up(longer)[k] by {
                    if k < i {
                        assert(frame_pairs(pairs@)[k] == pair_up(flat)[k]);
                        assert(longer[2 * k] == flat[2 * k]);
                        assert(longer[2 * k + 1] == flat[2 * k + 1]);
                    } else {
                        assert(longer[2 * k] == key@);
                        assert(longer[2 * k + 1] == value@);
                    }
                }
            }
            flat = longer;
        }
        pairs.push((key, value));
        cur = next;
        i = i + 1;
    }
    Ok((pairs, cur))
}

/// A decoder that reads one value after the other from bytes that it holds.
#[derive(Debug)]
pub struct Decoder {
    buf: Vec<u8>,
    pos: usize,
}

impl Decoder {
    /// The position never passes the end of the bytes.
    #[verifier::type_invariant]
    spec fn within(self) -> bool {
        self.pos <= self.buf@.len()
    }

    /// The bytes that the decoder was made with.
    pub closed spec fn buffer(&self) -> Seq<u8> {
        self.buf@
    }

    /// Where the next value starts.
    pub closed spec fn position(&self) -> int {
        self.pos as int
    }

    /// Creates a decoder that reads `bytes` from their start.
    pub fn new(bytes: Vec<u8>) -> (decoder: Self)
        ensures
            decoder.buffer() == bytes@,
            decoder.position() == 0,
    {
        Decoder { buf: bytes, pos: 0 }
    }

    /// Reads the next value and moves behind it. Where none can be read, the
    /// decoder stays where it is and the error names the fault.
    pub fn decode(&mut self) -> (r: Result<Value, Error>)
        ensures
            final(self).buffer() == old(self).buffer(),
            match decode_at(old(self).buffer(), old(self).position()) {
                Ok((frame, next)) => r is Ok && r->Ok_0@ == frame && final(self).position() == next,
                Err(fault) => r is Err && r->Err_0@ == ErrorView::Resp(fault.message())
                    && final(self).position() == old(self).position(),
            },
    {
        proof {
            use_type_invariant(&*self);
        }
        match decode_frame(self.buf.as_slice(), self.pos) {
            Ok((value, next)) => {
                self.pos = next;
                Ok(value)
            },
            Err(fault) => Err(fault.to_error()),
        }
    }
}

/// Decodes the value that `value` starts with. Bytes behind it are ignored.
pub fn decode(value: Vec<u8>) -> (r: Result<Value, Error>)
    ensures
        match decode_at(value@, 0) {
            Ok((frame, _)) => r is Ok && r->Ok_0@ == frame,
            Err(fault) => r is Err && r->Err_0@ == ErrorView::Resp(fault.message()),
        },
{
    let mut decoder: Decoder = Decoder::new(value);
    decoder.decode()
}

} // verus!

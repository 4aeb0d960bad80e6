//! The values that travel on the wire, and their mathematical model.

use vstd::prelude::*;
use vstd::utf8::encode_utf8;
use crate::resp::double::is_double_text;
use crate::resp::text::lowered;

verus! {

/// One RESP value, of either protocol version.
#[derive(Debug, PartialEq, Eq)]
pub enum Value {
    /// A simple string: text without line breaks.
    String(String),
    /// A simple error: text without line breaks.
    Error(String),
    /// A signed 64-bit integer.
    Integer(i64),
    /// A length-prefixed string.
    BulkString(String),
    /// An ordered sequence of values.
    Array(Vec<Value>),
    /// The absent value.
    Null,
    /// A truth value.
    Boolean(bool),
    /// A floating-point number in its lower-case decimal text.
    Double(String),
    /// An integer of any size, in decimal text.
    BigNumber(String),
    /// A length-prefixed error.
    BulkError(String),
    /// A length-prefixed string with the name of its encoding in front.
    VerbatimString((String, String)),
    /// An ordered sequence of key and value pairs.
    RespMap(Vec<(Value, Value)>),
    /// A collection of values, kept in the order in which it was received.
    RespSet(Vec<Value>),
    /// An out-of-band sequence of values.
    Push(Vec<Value>),
}

/// The mathematical model of a [`Value`].
pub ghost enum Frame {
    String(Seq<char>),
    Error(Seq<char>),
    Integer(int),
    BulkString(Seq<char>),
    Array(Seq<Frame>),
    Null,
    Boolean(bool),
    Double(Seq<char>),
    BigNumber(Seq<char>),
    BulkError(Seq<char>),
    VerbatimString(Seq<char>, Seq<char>),
    RespMap(Seq<(Frame, Frame)>),
    RespSet(Seq<Frame>),
    Push(Seq<Frame>),
}

/// No length on the wire reaches this: 512 MiB.
pub const RESP_MAX_SIZE: i64 = 536870912;

/// The least length that is too large for the wire.
pub open spec fn max_size() -> int {
    RESP_MAX_SIZE as int
}

/// Whether a text can stand on a line of its own: it holds neither a
/// carriage return nor a line feed.
pub open spec fn is_line_text(t: Seq<char>) -> bool {
    !t.contains('\r') && !t.contains('\n')
}

/// Whether a text is that of a floating-point number, in lower case.
pub open spec fn is_double_literal(t: Seq<char>) -> bool {
    &&& is_double_text(encode_utf8(t))
    &&& lowered(encode_utf8(t)) == encode_utf8(t)
}

impl Frame {
    /// Whether the bytes of the value are read as the value again. This
    /// asks less than [`Frame::wf`]: a text on a line of its own may hold a
    /// carriage return, and the encoding of a verbatim string may have any
    /// length.
    pub open spec fn readable(self) -> bool
        decreases self,
    {
        match self {
            Frame::String(t) => !t.contains('\n'),
            Frame::Error(t) => !t.contains('\n'),
            Frame::Integer(n) => i64::MIN <= n <= i64::MAX,
            Frame::BulkString(t) => encode_utf8(t).len() < max_size(),
            Frame::Array(items) => items.len() < max_size() && forall|i: int|
                0 <= i < items.len() ==> (#[trigger] items[i]).readable(),
            Frame::Null => true,
            Frame::Boolean(_) => true,
            Frame::Double(t) => is_double_literal(t),
            Frame::BigNumber(t) => !t.contains('\n'),
            Frame::BulkError(t) => encode_utf8(t).len() < max_size(),
            Frame::VerbatimString(e, t) => {
                &&& !e.contains(':')
                &&& encode_utf8(e).len() + 1 + encode_utf8(t).len() < max_size()
            },
            Frame::RespMap(pairs) => pairs.len() < max_size() && forall|i: int|
                0 <= i < pairs.len() ==> (#[trigger] pairs[i]).0.readable() && pairs[i].1.readable(),
            Frame::RespSet(items) => items.len() < max_size() && forall|i: int|
                0 <= i < items.len() ==> (#[trigger] items[i]).readable(),
            Frame::Push(items) => items.len() < max_size() && forall|i: int|
                0 <= i < items.len() ==> (#[trigger] items[i]).readable(),
        }
    }

    /// Whether the value can be sent: its texts fit their place on the wire
    /// and every length is under 512 MiB.
    pub open spec fn wf(self) -> bool
        decreases self,
    {
        match self {
            Frame::String(t) => is_line_text(t),
            Frame::Error(t) => is_line_text(t),
            Frame::Integer(n) => i64::MIN <= n <= i64::MAX,
            Frame::BulkString(t) => encode_utf8(t).len() < max_size(),
            Frame::Array(items) => items.len() < max_size() && forall|i: int|
                0 <= i < items.len() ==> (#[trigger] items[i]).wf(),
            Frame::Null => true,
            Frame::Boolean(_) => true,
            Frame::Double(t) => is_double_literal(t),
            Frame::BigNumber(t) => is_line_text(t),
            Frame::BulkError(t) => encode_utf8(t).len() < max_size(),
            Frame::VerbatimString(e, t) => {
                &&& e.len() == 3
                &&& !e.contains(':')
                &&& encode_utf8(e).len() + 1 + encode_utf8(t).len() < max_size()
            },
            Frame::RespMap(pairs) => pairs.len() < max_size() && forall|i: int|
                0 <= i < pairs.len() ==> (#[trigger] pairs[i]).0.wf() && pairs[i].1.wf(),
            Frame::RespSet(items) => items.len() < max_size() && forall|i: int|
                0 <= i < items.len() ==> (#[trigger] items[i]).wf(),
            Frame::Push(items) => items.len() < max_size() && forall|i: int|
                0 <= i < items.len() ==> (#[trigger] items[i]).wf(),
        }
    }
}

impl View for Value {
    type V = Frame;

    open spec fn view(&self) -> Frame
        decreases self,
    {
        match self {
            Value::String(s) => Frame::String(s@),
            Value::Error(s) => Frame::Error(s@),
            Value::Integer(n) => Frame::Integer(*n as int),
            Value::BulkString(s) => Frame::BulkString(s@),
            Value::Array(items) => Frame::Array(frames(items@)),
            Value::Null => Frame::Null,
            Value::Boolean(b) => Frame::Boolean(*b),
            Value::Double(s) => Frame::Double(s@),
            Value::BigNumber(s) => Frame::BigNumber(s@),
            Value::BulkError(s) => Frame::BulkError(s@),
            Value::VerbatimString(pair) => Frame::VerbatimString(pair.0@, pair.1@),
            Value::RespMap(pairs) => Frame::RespMap(frame_pairs(pairs@)),
            Value::RespSet(items) => Frame::RespSet(frames(items@)),
            Value::Push(items) => Frame::Push(frames(items@)),
        }
    }
}

impl DeepView for Value {
    type V = Frame;

    open spec fn deep_view(&self) -> Frame {
        self.view()
    }
}

/// The models of several values, in their order.
pub open spec fn frames(items: Seq<Value>) -> Seq<Frame>
    decreases items,
{
    Seq::new(
        items.len(),
        |i: int|
            if 0 <= i < items.len() {
                items[i].view()
            } else {
                Frame::Null
            },
    )
}

/// The models of several pairs of values, in their order.
pub open spec fn frame_pairs(pairs: Seq<(Value, Value)>) -> Seq<(Frame, Frame)>
    decreases pairs,
{
    Seq::new(
        pairs.len(),
        |i: int|
            if 0 <= i < pairs.len() {
                (pairs[i].0.view(), pairs[i].1.view())
            } else {
                (Frame::Null, Frame::Null)
            },
    )
}

impl Clone for Value {
    /// A copy that stands for the same value.
    fn clone(&self) -> (r: Self)
        ensures
            r@ == self@,
        decreases self,
    {
        match self {
            Value::String(s) => Value::String(s.clone()),
            Value::Error(s) => Value::Error(s.clone()),
            Value::Integer(n) => Value::Integer(*n),
            Value::BulkString(s) => Value::BulkString(s.clone()),
            Value::Array(items) => Value::Array(clone_items(items)),
            Value::Null => Value::Null,
            Value::Boolean(b) => Value::Boolean(*b),
            Value::Double(s) => Value::Double(s.clone()),
            Value::BigNumber(s) => Value::BigNumber(s.clone()),
            Value::BulkError(s) => Value::BulkError(s.clone()),
            Value::VerbatimString(pair) => Value::VerbatimString((pair.0.clone(), pair.1.clone())),
            Value::RespMap(pairs) => Value::RespMap(clone_pairs(pairs)),
            Value::RespSet(items) => Value::RespSet(clone_items(items)),
            Value::Push(items) => Value::Push(clone_items(items)),
        }
    }
}

/// Copies of several values, in their order.
fn clone_items(items: &Vec<Value>) -> (r: Vec<Value>)
    ensures
        frames(r@) == frames(items@),
    decreases items,
{
    let mut out: Vec<Value> = Vec::new();
    let mut i: usize = 0;
    while i < items.len()
        invariant
            i <= items@.len(),
            frames(out@) =~= frames(items@).take(i as int),
        decreases items@.len() - i,
    {
        let copy: Value = items[i].clone();
        let ghost before = out@;
        out.push(copy);
        proof {
            assert(frames(out@) =~= frames(before).push(copy@));
            assert(frames(items@).take(i + 1) =~= frames(items@).take(i as int).push(items@[i as int]@));
        }
        i = i + 1;
    }
    proof {
        assert(frames(items@).take(i as int) =~= frames(items@));
    }
    out
}

/// Copies of several pairs of values, in their order.
fn clone_pairs(pairs: &Vec<(Value, Value)>) -> (r: Vec<(Value, Value)>)
    ensures
        frame_pairs(r@) == frame_pairs(pairs@),
    decreases pairs,
{
    let mut out: Vec<(Value, Value)> = Vec::new();
    let mut i: usize = 0;
    while i < pairs.len()
        invariant
            i <= pairs@.len(),
            frame_pairs(out@) =~= frame_pairs(pairs@).take(i as int),
        decreases pairs@.len() - i,
    {
        let key: Value = pairs[i].0.clone();
        let value: Value = pairs[i].1.clone();
        let ghost before = out@;
        out.push((key, value));
        proof {
            assert(frame_pairs(out@) =~= frame_pairs(before).push((key@, value@)));
            assert(frame_pairs(pairs@).take(i + 1) =~= frame_pairs(pairs@).take(i as int).push(
                (pairs@[i as int].0@, pairs@[i as int].1@),
            ));
        }
        i = i + 1;
    }
    proof {
        assert(frame_pairs(pairs@).take(i as int) =~= frame_pairs(pairs@));
    }
    out
}

} // verus!

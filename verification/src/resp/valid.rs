//! Telling whether a value is well formed.

use vstd::prelude::*;
use vstd::string::StrSliceExecFns;
use crate::resp::double::is_double;
use crate::resp::text::{lemma_ascii_byte_in_utf8, lower, lowered};
use crate::resp::value::{frame_pairs, frames, is_line_text, max_size, Frame, Value, RESP_MAX_SIZE};

verus! {

/// Whether `bytes` hold the byte `b`.
fn holds(bytes: &[u8], b: u8) -> (r: bool)
    ensures
        r == bytes@.contains(b),
{
    let mut i: usize = 0;
    while i < bytes.len()
        invariant
            i <= bytes@.len(),
            forall|j: int| 0 <= j < i ==> bytes@[j] != b,
        decreases bytes@.len() - i,
    {
        if bytes[i] == b {
            return true;
        }
        i = i + 1;
    }
    false
}

/// Whether a text can stand on a line of its own.
fn check_line_text(text: &String) -> (r: bool)
    ensures
        r == is_line_text(text@),
{
    let bytes: &[u8] = text.as_str().as_bytes();
    proof {
        lemma_ascii_byte_in_utf8(text@, 13u8);
        lemma_ascii_byte_in_utf8(text@, 10u8);
        assert(13u8 as char == '\r');
        assert(10u8 as char == '\n');
    }
    !holds(bytes, 13u8) && !holds(bytes, 10u8)
}

/// Whether no byte of `bytes` is an ASCII capital.
fn check_lower(bytes: &[u8]) -> (r: bool)
    ensures
        r == (lowered(bytes@) == bytes@),
{
    let mut i: usize = 0;
    while i < bytes.len()
        invariant
            i <= bytes@.len(),
            forall|j: int| 0 <= j < i ==> lower(bytes@[j]) == bytes@[j],
        decreases bytes@.len() - i,
    {
        if 65 <= bytes[i] && bytes[i] <= 90 {
            proof {
                assert(lowered(bytes@)[i as int] != bytes@[i as int]);
            }
            return false;
        }
        i = i + 1;
    }
    proof {
        assert(lowered(bytes@) =~= bytes@);
    }
    true
}

/// Whether a length is under 512 MiB.
fn check_size(len: usize) -> (r: bool)
    ensures
        r == (len < max_size()),
{
    len < RESP_MAX_SIZE as usize
}

/// Whether the encoding and the text of a verbatim string are well formed.
fn check_verbatim(encoding: &String, text: &String) -> (r: bool)
    ensures
        r == Frame::VerbatimString(encoding@, text@).wf(),
{
    let head: &[u8] = encoding.as_str().as_bytes();
    let tail: &[u8] = text.as_str().as_bytes();
    proof {
        lemma_ascii_byte_in_utf8(encoding@, 58u8);
        assert(58u8 as char == ':');
    }
    encoding.as_str().unicode_len() == 3 && !holds(head, 58u8) && check_size(head.len()) && check_size(
        tail.len(),
    ) && check_size(head.len() + 1 + tail.len())
}

impl Value {
    /// Whether the value is well formed: its texts fit their place on the
    /// wire and every length is under 512 MiB.
    pub open spec fn wf(&self) -> bool {
        self@.wf()
    }

    /// Whether the value is well formed.
    pub fn is_well_formed(&self) -> (r: bool)
        ensures
            r == self.wf(),
        decreases self,
    {
        match self {
            Value::String(t) => check_line_text(t),
            Value::Error(t) => check_line_text(t),
            Value::Integer(_) => true,
            Value::BulkString(t) => check_size(t.as_str().as_bytes().len()),
            Value::Array(items) => check_items(items),
            Value::Null => true,
            Value::Boolean(_) => true,
            Value::Double(t) => {
                let bytes: &[u8] = t.as_str().as_bytes();
                is_double(bytes) && check_lower(bytes)
            },
            Value::BigNumber(t) => check_line_text(t),
            Value::BulkError(t) => check_size(t.as_str().as_bytes().len()),
            Value::VerbatimString(pair) => check_verbatim(&pair.0, &pair.1),
            Value::RespMap(pairs) => check_pairs(pairs),
            Value::RespSet(items) => check_items(items),
            Value::Push(items) => check_items(items),
        }
    }
}

/// Whether there are fewer than 512 Mi values and each is well formed.
fn check_items(items: &Vec<Value>) -> (r: bool)
    ensures
        r == Frame::Array(frames(items@)).wf(),
    decreases items,
{
    if !check_size(items.len()) {
        return false;
    }
    let mut i: usize = 0;
    while i < items.len()
        invariant
            i <= items@.len(),
            forall|j: int| 0 <= j < i ==> (#[trigger] frames(items@)[j]).wf(),
        decreases items@.len() - i,
    {
        if !items[i].is_well_formed() {
            proof {
                assert(!frames(items@)[i as int].wf());
            }
            return false;
        }
        i = i + 1;
    }
    true
}

/// Whether there are fewer than 512 Mi pairs and each key and each value is
/// well formed.
fn check_pairs(pairs: &Vec<(Value, Value)>) -> (r: bool)
    ensures
        r == Frame::RespMap(frame_pairs(pairs@)).wf(),
    decreases pairs,
{
    if !check_size(pairs.len()) {
        return false;
    }
    let mut i: usize = 0;
    while i < pairs.len()
        invariant
            i <= pairs@.len(),
            forall|j: int|
                0 <= j < i ==> (#[trigger] frame_pairs(pairs@)[j]).0.wf() && frame_pairs(pairs@)[j].1.wf(),
        decreases pairs@.len() - i,
    {
        if !pairs[i].0.is_well_formed() || !pairs[i].1.is_well_formed() {
            proof {
                assert(!(frame_pairs(pairs@)[i as int].0.wf() && frame_pairs(pairs@)[i as int].1.wf()));
            }
            return false;
        }
        i = i + 1;
    }
    true
}

} // verus!

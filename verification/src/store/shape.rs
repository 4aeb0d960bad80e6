//! The shapes that replies have, and how each is read.

use vstd::prelude::*;
use vstd::string::StringExecFns;
use crate::error::{Error, ErrorView};
use crate::resp::decimal::{decimal_string, decimal_text};
use crate::resp::value::{frame_pairs, frames, Frame, Value};

verus! {

/// The name of the kind of a value.
pub open spec fn kind_name(f: Frame) -> Seq<char> {
    match f {
        Frame::String(_) => "String"@,
        Frame::Error(_) => "Error"@,
        Frame::Integer(_) => "Integer"@,
        Frame::BulkString(_) => "BulkString"@,
        Frame::Array(_) => "Array"@,
        Frame::Null => "Null"@,
        Frame::Boolean(_) => "Boolean"@,
        Frame::Double(_) => "Double"@,
        Frame::BigNumber(_) => "BigNumber"@,
        Frame::BulkError(_) => "BulkError"@,
        Frame::VerbatimString(_, _) => "VerbatimString"@,
        Frame::RespMap(_) => "Map"@,
        Frame::RespSet(_) => "Set"@,
        Frame::Push(_) => "Push"@,
    }
}

/// The error for a value of a kind that has no place where it stands: the
/// complaint, then the name of the kind.
pub open spec fn refused(complaint: Seq<char>, f: Frame) -> ErrorView {
    ErrorView::Client(complaint + kind_name(f))
}

/// The error for a reply that the command does not expect: the server's own
/// error where the reply is one, a complaint about its kind otherwise.
pub open spec fn unexpected(f: Frame) -> ErrorView {
    match f {
        Frame::Error(m) => ErrorView::Valkey(m),
        Frame::BulkError(m) => ErrorView::Valkey(m),
        _ => refused("Unexpected response type: "@, f),
    }
}

/// Whether `r` is the outcome `expected`: the same error, or a result with
/// the expected model.
pub open spec fn answers<T: DeepView>(r: Result<T, Error>, expected: Result<T::V, ErrorView>) -> bool {
    match expected {
        Ok(v) => r is Ok && r->Ok_0.deep_view() == v,
        Err(e) => r is Err && r->Err_0@ == e,
    }
}

/// The meaning of a reply that should be one word: a simple string that is
/// `word`. Another simple string is refused with `complaint` before it.
pub open spec fn word_reply(f: Frame, word: Seq<char>, complaint: Seq<char>) -> Result<(), ErrorView> {
    match f {
        Frame::String(m) => if m == word {
            Ok(())
        } else {
            Err(ErrorView::Client(complaint + m))
        },
        _ => Err(unexpected(f)),
    }
}

/// The meaning of a reply that counts what was done, where exactly one
/// thing should have been: the integer 1. Another count is refused, with the
/// count and `noun` in the message.
pub open spec fn single_reply(f: Frame, noun: Seq<char>) -> Result<(), ErrorView> {
    match f {
        Frame::Integer(n) => if n == 1 {
            Ok(())
        } else {
            Err(ErrorView::Client("Unexpected response: "@ + decimal_text(n) + noun))
        },
        _ => Err(unexpected(f)),
    }
}

/// The meaning of a reply that says yes or no: the integer 1 or 0.
pub open spec fn flag_reply(f: Frame) -> Result<bool, ErrorView> {
    match f {
        Frame::Integer(n) => if n == 0 {
            Ok(false)
        } else if n == 1 {
            Ok(true)
        } else {
            Err(unexpected(f))
        },
        _ => Err(unexpected(f)),
    }
}

/// The meaning of a reply that is a number: an integer.
pub open spec fn integer_reply(f: Frame) -> Result<i64, ErrorView> {
    match f {
        Frame::Integer(n) => Ok(n as i64),
        _ => Err(unexpected(f)),
    }
}

/// The meaning of a reply that is a length: an integer that is not negative.
pub open spec fn length_reply(f: Frame) -> Result<u64, ErrorView> {
    match f {
        Frame::Integer(n) => if n >= 0 {
            Ok(n as u64)
        } else {
            Err(unexpected(f))
        },
        _ => Err(unexpected(f)),
    }
}

/// The meaning of a reply that is a text: a bulk string.
pub open spec fn text_reply(f: Frame) -> Result<Seq<char>, ErrorView> {
    match f {
        Frame::BulkString(t) => Ok(t),
        _ => Err(unexpected(f)),
    }
}

/// The meaning of a reply that is a text or nothing: a bulk string or null.
pub open spec fn optional_text_reply(f: Frame) -> Result<Option<Seq<char>>, ErrorView> {
    match f {
        Frame::BulkString(t) => Ok(Some(t)),
        Frame::Null => Ok(None),
        _ => Err(unexpected(f)),
    }
}

/// The meaning of the reply to SET: the word OK; null where the server did
/// not set the key.
pub open spec fn set_reply(f: Frame) -> Result<(), ErrorView> {
    match f {
        Frame::Null => Err(ErrorView::Client("Operation aborted"@)),
        _ => word_reply(f, "OK"@, "Not OK: "@),
    }
}

/// The name of the kind of a value.
pub fn name_of(value: &Value) -> (r: &'static str)
    ensures
        r@ == kind_name(value@),
{
    match value {
        Value::String(_) => "String",
        Value::Error(_) => "Error",
        Value::Integer(_) => "Integer",
        Value::BulkString(_) => "BulkString",
        Value::Array(_) => "Array",
        Value::Null => "Null",
        Value::Boolean(_) => "Boolean",
        Value::Double(_) => "Double",
        Value::BigNumber(_) => "BigNumber",
        Value::BulkError(_) => "BulkError",
        Value::VerbatimString(_) => "VerbatimString",
        Value::RespMap(_) => "Map",
        Value::RespSet(_) => "Set",
        Value::Push(_) => "Push",
    }
}

/// The error for a value of a kind that has no place where it stands.
pub fn refuse(complaint: &str, value: &Value) -> (e: Error)
    ensures
        e@ == refused(complaint@, value@),
{
    Error::Client(String::from_str(complaint).concat(name_of(value)))
}

/// The error for a reply that the command does not expect.
pub fn reject(response: &Value) -> (e: Error)
    ensures
        e@ == unexpected(response@),
{
    match response {
        Value::Error(m) => Error::Valkey(m.clone()),
        Value::BulkError(m) => Error::Valkey(m.clone()),
        _ => refuse("Unexpected response type: ", response),
    }
}

/// Reads a reply that should be the word `word`.
pub fn expect_word(response: &Value, word: &str, complaint: &str) -> (r: Result<(), Error>)
    ensures
        answers(r, word_reply(response@, word@, complaint@)),
{
    match response {
        Value::String(m) => {
            let expected: String = String::from_str(word);
            if *m == expected {
                Ok(())
            } else {
                Err(Error::Client(String::from_str(complaint).concat(m.as_str())))
            }
        },
        _ => Err(reject(response)),
    }
}

/// Reads a reply that should count exactly one thing.
pub fn expect_single(response: &Value, noun: &str) -> (r: Result<(), Error>)
    ensures
        answers(r, single_reply(response@, noun@)),
{
    match response {
        Value::Integer(n) => {
            if *n == 1 {
                Ok(())
            } else {
                let count: String = decimal_string(*n);
                Err(
                    Error::Client(
                        String::from_str("Unexpected response: ").concat(count.as_str()).concat(noun),
                    ),
                )
            }
        },
        _ => Err(reject(response)),
    }
}

/// Reads a reply that says yes or no.
pub fn expect_flag(response: &Value) -> (r: Result<bool, Error>)
    ensures
        answers(r, flag_reply(response@)),
{
    match response {
        Value::Integer(n) => {
            if *n == 0 {
                Ok(false)
            } else if *n == 1 {
                Ok(true)
            } else {
                Err(reject(response))
            }
        },
        _ => Err(reject(response)),
    }
}

/// Reads a reply that is a number.
pub fn expect_integer(response: &Value) -> (r: Result<i64, Error>)
    ensures
        answers(r, integer_reply(response@)),
{
    match response {
        Value::Integer(n) => Ok(*n),
        _ => Err(reject(response)),
    }
}

/// Reads a reply that is a length.
pub fn expect_length(response: &Value) -> (r: Result<u64, Error>)
    ensures
        answers(r, length_reply(response@)),
{
    match response {
        Value::Integer(n) => {
            if *n >= 0 {
                Ok(*n as u64)
            } else {
                Err(reject(response))
            }
        },
        _ => Err(reject(response)),
    }
}

/// Reads a reply that is a text.
pub fn expect_text(response: &Value) -> (r: Result<String, Error>)
    ensures
        answers(r, text_reply(response@)),
{
    match response {
        Value::BulkString(t) => Ok(t.clone()),
        _ => Err(reject(response)),
    }
}

/// Reads a reply that is a text or nothing.
pub fn expect_optional_text(response: &Value) -> (r: Result<Option<String>, Error>)
    ensures
        answers(r, optional_text_reply(response@)),
{
    match response {
        Value::BulkString(t) => Ok(Some(t.clone())),
        Value::Null => Ok(None),
        _ => Err(reject(response)),
    }
}

/// Whether the first item of `items` that is no bulk string stands at `at`.
pub open spec fn first_non_bulk(items: Seq<Frame>, at: int) -> bool {
    &&& 0 <= at < items.len()
    &&& !(items[at] is BulkString)
    &&& forall|j: int| 0 <= j < at ==> items[j] is BulkString
}

/// The texts of items that are all bulk strings.
pub open spec fn texts_of(items: Seq<Frame>) -> Seq<Seq<char>> {
    Seq::new(items.len(), |i: int| items[i]->BulkString_0)
}

/// The texts of items that should all be bulk strings. The first item that
/// is none is refused with `complaint`.
pub open spec fn bulk_texts(items: Seq<Frame>, complaint: Seq<char>) -> Result<Seq<Seq<char>>, ErrorView> {
    if exists|at: int| first_non_bulk(items, at) {
        Err(refused(complaint, items[choose|at: int| first_non_bulk(items, at)]))
    } else {
        Ok(texts_of(items))
    }
}

/// The meaning of a reply that is a list of texts: an array of bulk strings.
pub open spec fn texts_reply(f: Frame, complaint: Seq<char>) -> Result<Seq<Seq<char>>, ErrorView> {
    match f {
        Frame::Array(items) => bulk_texts(items, complaint),
        _ => Err(unexpected(f)),
    }
}

/// Whether the first item of `items` that is neither a bulk string nor null
/// stands at `at`.
pub open spec fn first_non_optional(items: Seq<Frame>, at: int) -> bool {
    &&& 0 <= at < items.len()
    &&& !(items[at] is BulkString || items[at] is Null)
    &&& forall|j: int| 0 <= j < at ==> items[j] is BulkString || items[j] is Null
}

/// The text of a bulk string, nothing for any other value.
pub open spec fn optional_text(f: Frame) -> Option<Seq<char>> {
    match f {
        Frame::BulkString(t) => Some(t),
        _ => None,
    }
}

/// The texts of items that should all be bulk strings or null, nothing
/// standing for a null. The first item of another kind is refused.
pub open spec fn optional_texts(items: Seq<Frame>) -> Result<Seq<Option<Seq<char>>>, ErrorView> {
    if exists|at: int| first_non_optional(items, at) {
        Err(
            refused(
                "Unexpected array item type: "@,
                items[choose|at: int| first_non_optional(items, at)],
            ),
        )
    } else {
        Ok(Seq::new(items.len(), |i: int| optional_text(items[i])))
    }
}

/// The meaning of a reply that is a list of texts of which some may be
/// missing: an array of bulk strings and nulls.
pub open spec fn optional_texts_reply(f: Frame) -> Result<Seq<Option<Seq<char>>>, ErrorView> {
    match f {
        Frame::Array(items) => optional_texts(items),
        _ => Err(unexpected(f)),
    }
}

/// The complaint about an item of a flat run of keys and values: keys stand
/// at the even places, values at the odd ones.
pub open spec fn pair_complaint(at: int) -> Seq<char> {
    if at % 2 == 0 {
        "Unexpected key type: "@
    } else {
        "Unexpected value type: "@
    }
}

/// The error for a flat run of keys and values that has a key too many.
pub open spec fn odd_run() -> ErrorView {
    ErrorView::Client("Unexpected response: odd number of items"@)
}

/// The pairs of texts that a flat run of keys and values holds. The run has
/// an even length, and every item is a bulk string; the first that is none
/// is refused.
pub open spec fn flat_pairs(items: Seq<Frame>) -> Result<Seq<(Seq<char>, Seq<char>)>, ErrorView> {
    if items.len() % 2 != 0 {
        Err(odd_run())
    } else if exists|at: int| first_non_bulk(items, at) {
        let at = choose|at: int| first_non_bulk(items, at);
        Err(refused(pair_complaint(at), items[at]))
    } else {
        Ok(
            Seq::new(
                (items.len() / 2) as nat,
                |i: int| (items[2 * i]->BulkString_0, items[2 * i + 1]->BulkString_0),
            ),
        )
    }
}

/// Whether the first pair of `pairs` whose key or value is no bulk string
/// stands at `at`.
pub open spec fn first_non_bulk_pair(pairs: Seq<(Frame, Frame)>, at: int) -> bool {
    &&& 0 <= at < pairs.len()
    &&& !(pairs[at].0 is BulkString && pairs[at].1 is BulkString)
    &&& forall|j: int| 0 <= j < at ==> pairs[j].0 is BulkString && pairs[j].1 is BulkString
}

/// The pairs of texts that a map holds. Every key and every value is a bulk
/// string; the first that is none is refused.
pub open spec fn map_pairs(pairs: Seq<(Frame, Frame)>) -> Result<Seq<(Seq<char>, Seq<char>)>, ErrorView> {
    if exists|at: int| first_non_bulk_pair(pairs, at) {
        let pair = pairs[choose|at: int| first_non_bulk_pair(pairs, at)];
        if !(pair.0 is BulkString) {
            Err(refused("Unexpected key type: "@, pair.0))
        } else {
            Err(refused("Unexpected value type: "@, pair.1))
        }
    } else {
        Ok(Seq::new(pairs.len(), |i: int| (pairs[i].0->BulkString_0, pairs[i].1->BulkString_0)))
    }
}

/// The meaning of a reply that is a hash: a flat array of keys and values,
/// or a map.
pub open spec fn pairs_reply(f: Frame) -> Result<Seq<(Seq<char>, Seq<char>)>, ErrorView> {
    match f {
        Frame::Array(items) => flat_pairs(items),
        Frame::RespMap(pairs) => map_pairs(pairs),
        _ => Err(unexpected(f)),
    }
}

/// Reads the texts of items that should all be bulk strings.
pub fn read_texts(items: &Vec<Value>, complaint: &str) -> (r: Result<Vec<String>, Error>)
    ensures
        answers(r, bulk_texts(frames(items@), complaint@)),
{
    let ghost all = frames(items@);
    let mut out: Vec<String> = Vec::new();
    let mut i: usize = 0;
    while i < items.len()
        invariant
            i <= items@.len(),
            all == frames(items@),
            forall|j: int| 0 <= j < i ==> all[j] is BulkString,
            out.deep_view() =~= texts_of(all).take(i as int),
        decreases items@.len() - i,
    {
        match &items[i] {
            Value::BulkString(t) => {
                let ghost before = out.deep_view();
                out.push(t.clone());
                proof {
                    assert(out.deep_view() =~= before.push(t@));
                    assert(texts_of(all).take(i + 1) =~= texts_of(all).take(i as int).push(t@));
                }
            },
            other => {
                proof {
                    assert(first_non_bulk(all, i as int));
                    let chosen = choose|at: int| first_non_bulk(all, at);
                    assert(chosen == i);
                }
                return Err(refuse(complaint, other));
            },
        }
        i = i + 1;
    }
    proof {
        assert forall|at: int| !first_non_bulk(all, at) by {}
        assert(texts_of(all).take(i as int) =~= texts_of(all));
    }
    Ok(out)
}

/// Reads a reply that is a list of texts.
pub fn expect_texts(response: &Value, complaint: &str) -> (r: Result<Vec<String>, Error>)
    ensures
        answers(r, texts_reply(response@, complaint@)),
{
    match response {
        Value::Array(items) => read_texts(items, complaint),
        _ => Err(reject(response)),
    }
}

/// Reads the texts of items that should all be bulk strings or null.
pub fn read_optional_texts(items: &Vec<Value>) -> (r: Result<Vec<Option<String>>, Error>)
    ensures
        answers(r, optional_texts(frames(items@))),
{
    let ghost all = frames(items@);
    let ghost expected = Seq::new(all.len(), |i: int| optional_text(all[i]));
    let mut out: Vec<Option<String>> = Vec::new();
    let mut i: usize = 0;
    while i < items.len()
        invariant
            i <= items@.len(),
            all == frames(items@),
            expected == Seq::new(all.len(), |i: int| optional_text(all[i])),
            forall|j: int| 0 <= j < i ==> all[j] is BulkString || all[j] is Null,
            out.deep_view() =~= expected.take(i as int),
        decreases items@.len() - i,
    {
        let ghost before = out.deep_view();
        match &items[i] {
            Value::BulkString(t) => {
                out.push(Some(t.clone()));
                proof {
                    assert(out.deep_view() =~= before.push(Some(t@)));
                }
            },
            Value::Null => {
                out.push(None);
                proof {
                    assert(out.deep_view() =~= before.push(None));
                }
            },
            other => {
                proof {
                    assert(first_non_optional(all, i as int));
                    let chosen = choose|at: int| first_non_optional(all, at);
                    assert(chosen == i);
                }
                return Err(refuse("Unexpected array item type: ", other));
            },
        }
        proof {
            assert(expected.take(i + 1) =~= expected.take(i as int).push(optional_text(all[i as int])));
        }
        i = i + 1;
    }
    proof {
        assert forall|at: int| !first_non_optional(all, at) by {}
        assert(expected.take(i as int) =~= expected);
    }
    Ok(out)
}

/// Reads a reply that is a list of texts of which some may be missing.
pub fn expect_optional_texts(response: &Value) -> (r: Result<Vec<Option<String>>, Error>)
    ensures
        answers(r, optional_texts_reply(response@)),
{
    match response {
        Value::Array(items) => read_optional_texts(items),
        _ => Err(reject(response)),
    }
}

/// Reads the pairs of texts that a flat run of keys and values holds.
pub fn read_flat_pairs(items: &Vec<Value>) -> (r: Result<Vec<(String, String)>, Error>)
    ensures
        answers(r, flat_pairs(frames(items@))),
{
    let ghost all = frames(items@);
    let len: usize = items.len();
    if len % 2 != 0 {
        return Err(Error::Client(String::from_str("Unexpected response: odd number of items")));
    }
    let ghost expected = Seq::new(
        (all.len() / 2) as nat,
        |i: int| (all[2 * i]->BulkString_0, all[2 * i + 1]->BulkString_0),
    );
    let mut out: Vec<(String, String)> = Vec::new();
    let mut i: usize = 0;
    while i < len
        invariant
            len == items@.len(),
            len % 2 == 0,
            i <= len,
            i % 2 == 0,
            all == frames(items@),
            expected == Seq::new(
                (all.len() / 2) as nat,
                |i: int| (all[2 * i]->BulkString_0, all[2 * i + 1]->BulkString_0),
            ),
            forall|j: int| 0 <= j < i ==> all[j] is BulkString,
            out.deep_view() =~= expected.take(i as int / 2),
        decreases len - i,
    {
        let key: String = match &items[i] {
            Value::BulkString(t) => t.clone(),
            other => {
                proof {
                    assert(first_non_bulk(all, i as int));
                    let chosen = choose|at: int| first_non_bulk(all, at);
                    assert(chosen == i);
                }
                return Err(refuse("Unexpected key type: ", other));
            },
        };
        let value: String = match &items[i + 1] {
            Value::BulkString(t) => t.clone(),
            other => {
                proof {
                    assert(first_non_bulk(all, i + 1));
                    let chosen = choose|at: int| first_non_bulk(all, at);
                    assert(chosen == i + 1);
                }
                return Err(refuse("Unexpected value type: ", other));
            },
        };
        let ghost before = out.deep_view();
        proof {
            assert(expected.take((i + 2) / 2) =~= expected.take(i as int / 2).push((key@, value@)));
        }
        out.push((key, value));
        proof {
            assert(out.deep_view() =~= before.push((key@, value@)));
        }
        i = i + 2;
    }
    proof {
        assert forall|at: int| !first_non_bulk(all, at) by {}
        assert(expected.take(i as int / 2) =~= expected);
    }
    Ok(out)
}

/// Reads the pairs of texts that a map holds.
pub fn read_map_pairs(pairs: &Vec<(Value, Value)>) -> (r: Result<Vec<(String, String)>, Error>)
    ensures
        answers(r, map_pairs(frame_pairs(pairs@))),
{
    let ghost all = frame_pairs(pairs@);
    let ghost expected = Seq::new(all.len(), |i: int| (all[i].0->BulkString_0, all[i].1->BulkString_0));
    let mut out: Vec<(String, String)> = Vec::new();
    let mut i: usize = 0;
    while i < pairs.len()
        invariant
            i <= pairs@.len(),
            all == frame_pairs(pairs@),
            expected == Seq::new(all.len(), |i: int| (all[i].0->BulkString_0, all[i].1->BulkString_0)),
            forall|j: int| 0 <= j < i ==> all[j].0 is BulkString && all[j].1 is BulkString,
            out.deep_view() =~= expected.take(i as int),
        decreases pairs@.len() - i,
    {
        let key: String = match &pairs[i].0 {
            Value::BulkString(t) => t.clone(),
            other => {
                proof {
                    assert(first_non_bulk_pair(all, i as int));
                    let chosen = choose|at: int| first_non_bulk_pair(all, at);
                    assert(chosen == i);
                }
                return Err(refuse("Unexpected key type: ", other));
            },
        };
        let value: String = match &pairs[i].1 {
            Value::BulkString(t) => t.clone(),
            other => {
                proof {
                    assert(first_non_bulk_pair(all, i as int));
                    let chosen = choose|at: int| first_non_bulk_pair(all, at);
                    assert(chosen == i);
                }
                return Err(refuse("Unexpected value type: ", other));
            },
        };
        let ghost before = out.deep_view();
        proof {
            assert(expected.take(i + 1) =~= expected.take(i as int).push((key@, value@)));
        }
        out.push((key, value));
        proof {
            assert(out.deep_view() =~= before.push((key@, value@)));
        }
        i = i + 1;
    }
    proof {
        assert forall|at: int| !first_non_bulk_pair(all, at) by {}
        assert(expected.take(i as int) =~= expected);
    }
    Ok(out)
}

/// Reads a reply that is a hash.
pub fn expect_pairs(response: &Value) -> (r: Result<Vec<(String, String)>, Error>)
    ensures
        answers(r, pairs_reply(response@)),
{
    match response {
        Value::Array(items) => read_flat_pairs(items),
        Value::RespMap(pairs) => read_map_pairs(pairs),
        _ => Err(reject(response)),
    }
}

/// A field of a hash, with its value where the reply carries values.
pub type Field = (String, Option<String>);

/// The model of a [`Field`].
pub type FieldView = (Seq<char>, Option<Seq<char>>);

/// Fields without values.
pub open spec fn lone_fields(names: Seq<Seq<char>>) -> Seq<FieldView> {
    Seq::new(names.len(), |i: int| (names[i], None::<Seq<char>>))
}

/// Fields with their values.
pub open spec fn valued_fields(pairs: Seq<(Seq<char>, Seq<char>)>) -> Seq<FieldView> {
    Seq::new(pairs.len(), |i: int| (pairs[i].0, Some(pairs[i].1)))
}

/// The fields that a run of items holds: a flat run of names and values
/// where the reply carries values, a run of names where it does not. An
/// item that is no bulk string is refused; where there are no values, with
/// `complaint`.
pub open spec fn fields_of(items: Seq<Frame>, valued: bool, complaint: Seq<char>) -> Result<
    Seq<FieldView>,
    ErrorView,
> {
    if valued {
        match flat_pairs(items) {
            Ok(pairs) => Ok(valued_fields(pairs)),
            Err(e) => Err(e),
        }
    } else {
        match bulk_texts(items, complaint) {
            Ok(names) => Ok(lone_fields(names)),
            Err(e) => Err(e),
        }
    }
}

/// Reads fields without values.
fn read_lone_fields(items: &Vec<Value>, complaint: &str) -> (r: Result<Vec<Field>, Error>)
    ensures
        answers(r, fields_of(frames(items@), false, complaint@)),
{
    let ghost all = frames(items@);
    let ghost expected = lone_fields(texts_of(all));
    let mut out: Vec<Field> = Vec::new();
    let mut i: usize = 0;
    while i < items.len()
        invariant
            i <= items@.len(),
            all == frames(items@),
            expected == lone_fields(texts_of(all)),
            forall|j: int| 0 <= j < i ==> all[j] is BulkString,
            out.deep_view() =~= expected.take(i as int),
        decreases items@.len() - i,
    {
        match &items[i] {
            Value::BulkString(t) => {
                let ghost before = out.deep_view();
                out.push((t.clone(), None));
                proof {
                    assert(out.deep_view() =~= before.push((t@, None::<Seq<char>>)));
                    assert(expected.take(i + 1) =~= expected.take(i as int).push((t@, None::<Seq<char>>)));
                }
            },
            other => {
                proof {
                    assert(first_non_bulk(all, i as int));
                    let chosen = choose|at: int| first_non_bulk(all, at);
                    assert(chosen == i);
                }
                return Err(refuse(complaint, other));
            },
        }
        i = i + 1;
    }
    proof {
        assert forall|at: int| !first_non_bulk(all, at) by {}
        assert(expected.take(i as int) =~= expected);
    }
    Ok(out)
}

/// Reads fields with their values from a flat run of names and values.
fn read_valued_fields(items: &Vec<Value>) -> (r: Result<Vec<Field>, Error>)
    ensures
        answers(r, fields_of(frames(items@), true, Seq::empty())),
{
    let ghost all = frames(items@);
    let len: usize = items.len();
    if len % 2 != 0 {
        return Err(Error::Client(String::from_str("Unexpected response: odd number of items")));
    }
    let ghost pairs = Seq::new(
        (all.len() / 2) as nat,
        |i: int| (all[2 * i]->BulkString_0, all[2 * i + 1]->BulkString_0),
    );
    let ghost expected = valued_fields(pairs);
    let mut out: Vec<Field> = Vec::new();
    let mut i: usize = 0;
    while i < len
        invariant
            len == items@.len(),
            len % 2 == 0,
            i <= len,
            i % 2 == 0,
            all == frames(items@),
            pairs == Seq::new(
                (all.len() / 2) as nat,
                |i: int| (all[2 * i]->BulkString_0, all[2 * i + 1]->BulkString_0),
            ),
            expected == valued_fields(pairs),
            forall|j: int| 0 <= j < i ==> all[j] is BulkString,
            out.deep_view() =~= expected.take(i as int / 2),
        decreases len - i,
    {
        let key: String = match &items[i] {
            Value::BulkString(t) => t.clone(),
            other => {
                proof {
                    assert(first_non_bulk(all, i as int));
                    let chosen = choose|at: int| first_non_bulk(all, at);
                    assert(chosen == i);
                }
                return Err(refuse("Unexpected key type: ", other));
            },
        };
        let value: String = match &items[i + 1] {
            Value::BulkString(t) => t.clone(),
            other => {
                proof {
                    assert(first_non_bulk(all, i + 1));
                    let chosen = choose|at: int| first_non_bulk(all, at);
                    assert(chosen == i + 1);
                }
                return Err(refuse("Unexpected value type: ", other));
            },
        };
        let ghost before = out.deep_view();
        proof {
            assert(expected.take((i + 2) / 2) =~= expected.take(i as int / 2).push((key@, Some(value@))));
        }
        out.push((key, Some(value)));
        proof {
            assert(out.deep_view() =~= before.push((key@, Some(value@))));
        }
        i = i + 2;
    }
    proof {
        assert forall|at: int| !first_non_bulk(all, at) by {}
        assert(expected.take(i as int / 2) =~= expected);
    }
    Ok(out)
}

/// Reads the fields that a run of items holds, with their values where
/// `valued` says so.
pub fn read_fields(items: &Vec<Value>, valued: bool, complaint: &str) -> (r: Result<Vec<Field>, Error>)
    ensures
        answers(r, fields_of(frames(items@), valued, complaint@)),
{
    if valued {
        read_valued_fields(items)
    } else {
        read_lone_fields(items, complaint)
    }
}

} // verus!

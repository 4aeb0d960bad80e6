//! What the reply to each command means.

use vstd::prelude::*;
use vstd::string::StringExecFns;
use crate::error::{Error, ErrorView};
use crate::resp::value::{frame_pairs, frames, Frame, Value};
use crate::store::opts::{omits_values, wants_values, HrandfieldOpts, HscanOpts};
use crate::store::shape::{
    answers, expect_flag, expect_integer, expect_length, expect_optional_text,
    expect_optional_texts, expect_pairs, expect_single, expect_text, expect_texts, expect_word,
    fields_of, flag_reply, integer_reply, length_reply, odd_run, optional_text_reply,
    optional_texts_reply, pairs_reply, read_fields, refuse, refused, reject, set_reply,
    single_reply, text_reply, texts_reply, unexpected, word_reply, Field, FieldView,
};

verus! {

/// ACL DELUSER: one user was deleted.
pub fn acl_deluser(response: &Value) -> (r: Result<(), Error>)
    ensures
        answers(r, single_reply(response@, " users deleted"@)),
{
    expect_single(response, " users deleted")
}

/// ACL GENPASS: the password that the server made up.
pub fn acl_genpass(response: &Value) -> (r: Result<String, Error>)
    ensures
        answers(r, text_reply(response@)),
{
    expect_text(response)
}

/// ACL SETUSER: the server says OK.
pub fn acl_setuser(response: &Value) -> (r: Result<(), Error>)
    ensures
        answers(r, word_reply(response@, "OK"@, "Not OK: "@)),
{
    expect_word(response, "OK", "Not OK: ")
}

/// AUTH: the server says OK.
pub fn auth(response: &Value) -> (r: Result<(), Error>)
    ensures
        answers(r, word_reply(response@, "OK"@, "Not OK: "@)),
{
    expect_word(response, "OK", "Not OK: ")
}

/// DEL: one key was deleted.
pub fn del(response: &Value) -> (r: Result<(), Error>)
    ensures
        answers(r, single_reply(response@, " keys deleted"@)),
{
    expect_single(response, " keys deleted")
}

/// EXISTS: whether the key exists.
pub fn key_exists(response: &Value) -> (r: Result<bool, Error>)
    ensures
        answers(r, flag_reply(response@)),
{
    expect_flag(response)
}

/// GET: the value of the key, nothing where there is no such key.
pub fn get(response: &Value) -> (r: Result<Option<String>, Error>)
    ensures
        answers(r, optional_text_reply(response@)),
{
    expect_optional_text(response)
}

/// HDEL: one field was deleted.
pub fn hdel(response: &Value) -> (r: Result<(), Error>)
    ensures
        answers(r, single_reply(response@, " keys deleted"@)),
{
    expect_single(response, " keys deleted")
}

/// HEXISTS: whether the hash has the field.
pub fn hexists(response: &Value) -> (r: Result<bool, Error>)
    ensures
        answers(r, flag_reply(response@)),
{
    expect_flag(response)
}

/// HGET: the value of the field, nothing where there is no such field.
pub fn hget(response: &Value) -> (r: Result<Option<String>, Error>)
    ensures
        answers(r, optional_text_reply(response@)),
{
    expect_optional_text(response)
}

/// HGETALL: the fields of the hash with their values, in the order of the
/// reply, whether it is a flat array or a map.
pub fn hgetall(response: &Value) -> (r: Result<Vec<(String, String)>, Error>)
    ensures
        answers(r, pairs_reply(response@)),
{
    expect_pairs(response)
}

/// HINCRBY: the value of the field after the increment.
pub fn hincrby(response: &Value) -> (r: Result<i64, Error>)
    ensures
        answers(r, integer_reply(response@)),
{
    expect_integer(response)
}

/// HINCRBYFLOAT: the value of the field after the increment, as text.
pub fn hincrbyfloat(response: &Value) -> (r: Result<String, Error>)
    ensures
        answers(r, text_reply(response@)),
{
    expect_text(response)
}

/// HKEYS: the fields of the hash.
pub fn hkeys(response: &Value) -> (r: Result<Vec<String>, Error>)
    ensures
        answers(r, texts_reply(response@, "Unexpected array item type: "@)),
{
    expect_texts(response, "Unexpected array item type: ")
}

/// HLEN: how many fields the hash has.
pub fn hlen(response: &Value) -> (r: Result<u64, Error>)
    ensures
        answers(r, length_reply(response@)),
{
    expect_length(response)
}

/// HMGET: the value of each field asked for, nothing where the hash has no
/// such field.
pub fn hmget(response: &Value) -> (r: Result<Vec<Option<String>>, Error>)
    ensures
        answers(r, optional_texts_reply(response@)),
{
    expect_optional_texts(response)
}

/// HMSET: the server says OK.
pub fn hmset(response: &Value) -> (r: Result<(), Error>)
    ensures
        answers(r, word_reply(response@, "OK"@, "Not OK: "@)),
{
    expect_word(response, "OK", "Not OK: ")
}

/// HSET: one field was set.
pub fn hset(response: &Value) -> (r: Result<(), Error>)
    ensures
        answers(r, single_reply(response@, " fields set"@)),
{
    expect_single(response, " fields set")
}

/// HSETNX: whether the field was set, which it is where it was not there.
pub fn hsetnx(response: &Value) -> (r: Result<bool, Error>)
    ensures
        answers(r, flag_reply(response@)),
{
    expect_flag(response)
}

/// HSTRLEN: the length of the value of the field.
pub fn hstrlen(response: &Value) -> (r: Result<u64, Error>)
    ensures
        answers(r, length_reply(response@)),
{
    expect_length(response)
}

/// HVALS: the values of the hash.
pub fn hvals(response: &Value) -> (r: Result<Vec<String>, Error>)
    ensures
        answers(r, texts_reply(response@, "Unexpected field type: "@)),
{
    expect_texts(response, "Unexpected field type: ")
}

/// INCR: the value of the key after the increment.
pub fn incr(response: &Value) -> (r: Result<i64, Error>)
    ensures
        answers(r, integer_reply(response@)),
{
    expect_integer(response)
}

/// INCRBY: the value of the key after the increment.
pub fn incrby(response: &Value) -> (r: Result<i64, Error>)
    ensures
        answers(r, integer_reply(response@)),
{
    expect_integer(response)
}

/// KEYS: the keys that match the pattern.
pub fn keys(response: &Value) -> (r: Result<Vec<String>, Error>)
    ensures
        answers(r, texts_reply(response@, "Unexpected array item type: "@)),
{
    expect_texts(response, "Unexpected array item type: ")
}

/// PING: the server says PONG.
pub fn ping(response: &Value) -> (r: Result<(), Error>)
    ensures
        answers(r, word_reply(response@, "PONG"@, "Not PONG: "@)),
{
    expect_word(response, "PONG", "Not PONG: ")
}

/// QUIT: the server says OK.
pub fn quit(response: &Value) -> (r: Result<(), Error>)
    ensures
        answers(r, word_reply(response@, "OK"@, "Not OK: "@)),
{
    expect_word(response, "OK", "Not OK: ")
}

/// PUBLISH: how many subscribers got the message.
pub fn publish(response: &Value) -> (r: Result<i64, Error>)
    ensures
        answers(r, integer_reply(response@)),
{
    expect_integer(response)
}

/// SET: the server says OK; it says nothing where it did not set the key.
pub fn set(response: &Value) -> (r: Result<(), Error>)
    ensures
        answers(r, set_reply(response@)),
{
    match response {
        Value::Null => Err(Error::Client(String::from_str("Operation aborted"))),
        _ => expect_word(response, "OK", "Not OK: "),
    }
}

/// Whether the first name of a flat run of names and values that is no
/// bulk string stands at `at`. Names stand at the even places.
pub open spec fn first_non_bulk_name(items: Seq<Frame>, at: int) -> bool {
    &&& 0 <= at < items.len()
    &&& at % 2 == 0
    &&& !(items[at] is BulkString)
    &&& forall|j: int| 0 <= j < at && j % 2 == 0 ==> items[j] is BulkString
}

/// The settings that a flat run of names and values holds. The run has an
/// even length and every name is a bulk string; a value is of any kind.
pub open spec fn flat_settings(items: Seq<Frame>) -> Result<Seq<(Seq<char>, Frame)>, ErrorView> {
    if items.len() % 2 != 0 {
        Err(odd_run())
    } else if exists|at: int| first_non_bulk_name(items, at) {
        Err(refused("Unexpected key type: "@, items[choose|at: int| first_non_bulk_name(items, at)]))
    } else {
        Ok(Seq::new((items.len() / 2) as nat, |i: int| (items[2 * i]->BulkString_0, items[2 * i + 1])))
    }
}

/// Whether the first pair of `pairs` whose key is no bulk string stands at
/// `at`.
pub open spec fn first_non_bulk_key(pairs: Seq<(Frame, Frame)>, at: int) -> bool {
    &&& 0 <= at < pairs.len()
    &&& !(pairs[at].0 is BulkString)
    &&& forall|j: int| 0 <= j < at ==> pairs[j].0 is BulkString
}

/// The settings that a map holds. Every key is a bulk string; a value is of
/// any kind.
pub open spec fn map_settings(pairs: Seq<(Frame, Frame)>) -> Result<Seq<(Seq<char>, Frame)>, ErrorView> {
    if exists|at: int| first_non_bulk_key(pairs, at) {
        Err(refused("Unexpected key type: "@, pairs[choose|at: int| first_non_bulk_key(pairs, at)].0))
    } else {
        Ok(Seq::new(pairs.len(), |i: int| (pairs[i].0->BulkString_0, pairs[i].1)))
    }
}

/// The meaning of the reply to HELLO: the settings of the connection, from
/// a flat array of names and values or from a map.
pub open spec fn hello_reply(f: Frame) -> Result<Seq<(Seq<char>, Frame)>, ErrorView> {
    match f {
        Frame::Array(items) => flat_settings(items),
        Frame::RespMap(pairs) => map_settings(pairs),
        _ => Err(unexpected(f)),
    }
}

/// Reads the settings that a flat run of names and values holds.
fn read_flat_settings(items: &Vec<Value>) -> (r: Result<Vec<(String, Value)>, Error>)
    ensures
        answers(r, flat_settings(frames(items@))),
{
    let ghost all = frames(items@);
    let len: usize = items.len();
    if len % 2 != 0 {
        return Err(Error::Client(String::from_str("Unexpected response: odd number of items")));
    }
    let ghost expected = Seq::new((all.len() / 2) as nat, |i: int| (all[2 * i]->BulkString_0, all[2 * i + 1]));
    let mut out: Vec<(String, Value)> = Vec::new();
    let mut i: usize = 0;
    while i < len
        invariant
            len == items@.len(),
            len % 2 == 0,
            i <= len,
            i % 2 == 0,
            all == frames(items@),
            expected == Seq::new((all.len() / 2) as nat, |i: int| (all[2 * i]->BulkString_0, all[2 * i + 1])),
            forall|j: int| 0 <= j < i && j % 2 == 0 ==> all[j] is BulkString,
            out.deep_view() =~= expected.take(i as int / 2),
        decreases len - i,
    {
        let key: String = match &items[i] {
            Value::BulkString(t) => t.clone(),
            other => {
                proof {
                    assert(first_non_bulk_name(all, i as int));
                    let chosen = choose|at: int| first_non_bulk_name(all, at);
                    assert(chosen == i);
                }
                return Err(refuse("Unexpected key type: ", other));
            },
        };
        let value: Value = items[i + 1].clone();
        let ghost before = out.deep_view();
        proof {
            assert(expected.take((i + 2) / 2) =~= expected.take(i as int / 2).push((key@, value@)));
        }
        out.push((key, value));
        proof {
            assert(out.deep_view() =~= before.push((key@, value@)));
        }
        i = i + 2;
    }
    proof {
        assert forall|at: int| !first_non_bulk_name(all, at) by {}
        assert(expected.take(i as int / 2) =~= expected);
    }
    Ok(out)
}

/// Reads the settings that a map holds.
fn read_map_settings(pairs: &Vec<(Value, Value)>) -> (r: Result<Vec<(String, Value)>, Error>)
    ensures
        answers(r, map_settings(frame_pairs(pairs@))),
{
    let ghost all = frame_pairs(pairs@);
    let ghost expected = Seq::new(all.len(), |i: int| (all[i].0->BulkString_0, all[i].1));
    let mut out: Vec<(String, Value)> = Vec::new();
    let mut i: usize = 0;
    while i < pairs.len()
        invariant
            i <= pairs@.len(),
            all == frame_pairs(pairs@),
            expected == Seq::new(all.len(), |i: int| (all[i].0->BulkString_0, all[i].1)),
            forall|j: int| 0 <= j < i ==> all[j].0 is BulkString,
            out.deep_view() =~= expected.take(i as int),
        decreases pairs@.len() - i,
    {
        let key: String = match &pairs[i].0 {
            Value::BulkString(t) => t.clone(),
            other => {
                proof {
                    assert(first_non_bulk_key(all, i as int));
                    let chosen = choose|at: int| first_non_bulk_key(all, at);
                    assert(chosen == i);
                }
                return Err(refuse("Unexpected key type: ", other));
            },
        };
        let value: Value = pairs[i].1.clone();
        let ghost before = out.deep_view();
        proof {
            assert(expected.take(i + 1) =~= expected.take(i as int).push((key@, value@)));
        }
        out.push((key, value));
        proof {
            assert(out.deep_view() =~= before.push((key@, value@)));
        }
        i = i + 1;
    }
    proof {
        assert forall|at: int| !first_non_bulk_key(all, at) by {}
        assert(expected.take(i as int) =~= expected);
    }
    Ok(out)
}

/// HELLO: the settings of the connection, in the order of the reply,
/// whether it is a flat array or a map.
pub fn hello(response: &Value) -> (r: Result<Vec<(String, Value)>, Error>)
    ensures
        answers(r, hello_reply(response@)),
{
    match response {
        Value::Array(items) => read_flat_settings(items),
        Value::RespMap(pairs) => read_map_settings(pairs),
        _ => Err(reject(response)),
    }
}

/// The meaning of the reply to HRANDFIELD: one field in a bulk string, or
/// several in an array, with their values where `valued` says so; nothing
/// where the reply is null or an empty array.
pub open spec fn hrandfield_reply(f: Frame, valued: bool) -> Result<Option<Seq<FieldView>>, ErrorView> {
    match f {
        Frame::BulkString(t) => Ok(Some(seq![(t, None::<Seq<char>>)])),
        Frame::Null => Ok(None),
        Frame::Array(items) => if items.len() == 0 {
            Ok(None)
        } else {
            match fields_of(items, valued, "Unexpected key type: "@) {
                Ok(fields) => Ok(Some(fields)),
                Err(e) => Err(e),
            }
        },
        _ => Err(unexpected(f)),
    }
}

/// HRANDFIELD: the fields that were drawn, with their values where the
/// options asked for them; nothing where the hash is empty or missing.
pub fn hrandfield(response: &Value, opts: Option<HrandfieldOpts>) -> (r: Result<Option<Vec<Field>>, Error>)
    ensures
        answers(r, hrandfield_reply(response@, wants_values(opts))),
{
    let valued: bool = match opts {
        Some(HrandfieldOpts { count: _, with_values: Some(true) }) => true,
        _ => false,
    };
    match response {
        Value::BulkString(t) => {
            let mut fields: Vec<Field> = Vec::new();
            fields.push((t.clone(), None));
            proof {
                assert(fields.deep_view() =~= seq![(t@, None::<Seq<char>>)]);
            }
            Ok(Some(fields))
        },
        Value::Null => Ok(None),
        Value::Array(items) => {
            if items.len() == 0 {
                Ok(None)
            } else {
                match read_fields(items, valued, "Unexpected key type: ") {
                    Ok(fields) => Ok(Some(fields)),
                    Err(e) => Err(e),
                }
            }
        },
        _ => Err(reject(response)),
    }
}

/// The cursor to go on with: none where the scan is over, which the cursor
/// `0` says.
pub open spec fn cursor_of(t: Seq<char>) -> Option<Seq<char>> {
    if t == "0"@ {
        None
    } else {
        Some(t)
    }
}

/// The error for a reply to HSCAN that is not an array of two items.
pub open spec fn no_scan() -> ErrorView {
    ErrorView::Client("Unexpected response: not a cursor and its elements"@)
}

/// The meaning of the reply to HSCAN: an array of two items, the cursor in
/// a bulk string and the elements in an array; the elements are fields
/// without values where `plain` says so, a flat run of names and values
/// otherwise.
pub open spec fn hscan_reply(f: Frame, plain: bool) -> Result<(Option<Seq<char>>, Seq<FieldView>), ErrorView> {
    match f {
        Frame::Array(items) => if items.len() != 2 {
            Err(no_scan())
        } else {
            match items[0] {
                Frame::BulkString(cursor) => match items[1] {
                    Frame::Array(elements) => match fields_of(elements, !plain, "Unexpected field type: "@) {
                        Ok(fields) => Ok((cursor_of(cursor), fields)),
                        Err(e) => Err(e),
                    },
                    other => Err(refused("Unexpected elements type: "@, other)),
                },
                other => Err(refused("Unexpected cursor type: "@, other)),
            }
        },
        _ => Err(unexpected(f)),
    }
}

/// HSCAN: the cursor to go on with, if the scan is not over, and the fields
/// that this step found, with their values unless the options left them
/// out.
pub fn hscan(response: &Value, opts: &Option<HscanOpts>) -> (r: Result<(Option<String>, Vec<Field>), Error>)
    ensures
        answers(r, hscan_reply(response@, omits_values(*opts))),
{
    let plain: bool = match opts {
        Some(HscanOpts { match_: _, count: _, no_values: Some(true) }) => true,
        _ => false,
    };
    match response {
        Value::Array(items) => {
            if items.len() != 2 {
                return Err(
                    Error::Client(String::from_str("Unexpected response: not a cursor and its elements")),
                );
            }
            proof {
                assert(response@ == Frame::Array(frames(items@)));
                assert(frames(items@)[0] == items@[0]@);
                assert(frames(items@)[1] == items@[1]@);
            }
            let cursor: String = match &items[0] {
                Value::BulkString(cursor) => cursor.clone(),
                other => {
                    return Err(refuse("Unexpected cursor type: ", other));
                },
            };
            let fields: Vec<Field> = match &items[1] {
                Value::Array(elements) => match read_fields(elements, !plain, "Unexpected field type: ") {
                    Ok(fields) => {
                        proof {
                            assert(items@[1]@ == Frame::Array(frames(elements@)));
                        }
                        fields
                    },
                    Err(e) => {
                        proof {
                            assert(items@[1]@ == Frame::Array(frames(elements@)));
                        }
                        return Err(e);
                    },
                },
                other => {
                    return Err(refuse("Unexpected elements type: ", other));
                },
            };
            let done: String = String::from_str("0");
            let next: Option<String> = if cursor == done {
                None
            } else {
                Some(cursor)
            };
            Ok((next, fields))
        },
        _ => Err(reject(response)),
    }
}

} // verus!

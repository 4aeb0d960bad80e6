//! What each command sends.

use vstd::prelude::*;
use vstd::string::StringExecFns;
use crate::error::{Error, ErrorView};
use crate::resp::decimal::{decimal_string, decimal_text};
use crate::resp::encode::{encode, wire};
use crate::resp::value::{Frame, Value};
use crate::store::opts::{HelloOpts, HrandfieldOpts, HscanOpts};
use crate::store::shape::answers;

verus! {

/// A command: each of its words in a bulk string.
pub open spec fn command(words: Seq<Seq<char>>) -> Seq<Frame> {
    Seq::new(words.len(), |i: int| Frame::BulkString(words[i]))
}

/// The texts of a run of pairs, in one run: each first text, then its
/// second.
pub open spec fn interleave(pairs: Seq<(Seq<char>, Seq<char>)>) -> Seq<Seq<char>> {
    Seq::new(
        2 * pairs.len(),
        |i: int|
            if i % 2 == 0 {
                pairs[i / 2].0
            } else {
                pairs[i / 2].1
            },
    )
}

/// Appends a word to a command.
fn push_word(cmd: &mut Vec<Value>, word: &str)
    ensures
        final(cmd).deep_view() == old(cmd).deep_view().push(Frame::BulkString(word@)),
{
    cmd.push(Value::BulkString(String::from_str(word)));
    proof {
        assert(cmd.deep_view() =~= old(cmd).deep_view().push(Frame::BulkString(word@)));
    }
}

/// Appends a number to a command, in its decimal text.
fn push_number(cmd: &mut Vec<Value>, n: i64)
    ensures
        final(cmd).deep_view() == old(cmd).deep_view().push(Frame::BulkString(decimal_text(n as int))),
{
    cmd.push(Value::BulkString(decimal_string(n)));
    proof {
        assert(cmd.deep_view() =~= old(cmd).deep_view().push(Frame::BulkString(decimal_text(n as int))));
    }
}

/// The bytes that send a command: the array of its words.
pub fn to_bytes(command: Vec<Value>) -> (r: Vec<u8>)
    ensures
        r@ == wire(Frame::Array(command.deep_view())),
{
    let ghost words = command.deep_view();
    let request: Value = Value::Array(command);
    proof {
        assert(request@ == Frame::Array(words)) by {
            assert(crate::resp::value::frames(request->Array_0@) =~= words);
        }
    }
    encode(request)
}

/// ACL DELUSER: deletes the user.
pub fn acl_deluser(username: &str) -> (r: Vec<Value>)
    ensures
        r.deep_view() == command(seq!["ACL"@, "DELUSER"@, username@]),
{
    let mut cmd: Vec<Value> = Vec::new();
    push_word(&mut cmd, "ACL");
    push_word(&mut cmd, "DELUSER");
    push_word(&mut cmd, username);
    proof {
        assert(cmd.deep_view() =~= command(seq!["ACL"@, "DELUSER"@, username@]));
    }
    cmd
}

/// ACL GENPASS: asks the server for a password that it makes up.
pub fn acl_genpass() -> (r: Vec<Value>)
    ensures
        r.deep_view() == command(seq!["ACL"@, "GENPASS"@]),
{
    let mut cmd: Vec<Value> = Vec::new();
    push_word(&mut cmd, "ACL");
    push_word(&mut cmd, "GENPASS");
    proof {
        assert(cmd.deep_view() =~= command(seq!["ACL"@, "GENPASS"@]));
    }
    cmd
}

/// AUTH: authenticates the connection.
pub fn auth(username: &str, password: &str) -> (r: Vec<Value>)
    ensures
        r.deep_view() == command(seq!["AUTH"@, username@, password@]),
{
    let mut cmd: Vec<Value> = Vec::new();
    push_word(&mut cmd, "AUTH");
    push_word(&mut cmd, username);
    push_word(&mut cmd, password);
    proof {
        assert(cmd.deep_view() =~= command(seq!["AUTH"@, username@, password@]));
    }
    cmd
}

/// DEL: deletes the key.
pub fn del(key: &str) -> (r: Vec<Value>)
    ensures
        r.deep_view() == command(seq!["DEL"@, key@]),
{
    let mut cmd: Vec<Value> = Vec::new();
    push_word(&mut cmd, "DEL");
    push_word(&mut cmd, key);
    proof {
        assert(cmd.deep_view() =~= command(seq!["DEL"@, key@]));
    }
    cmd
}

/// EXISTS: asks whether the key exists.
pub fn key_exists(key: &str) -> (r: Vec<Value>)
    ensures
        r.deep_view() == command(seq!["EXISTS"@, key@]),
{
    let mut cmd: Vec<Value> = Vec::new();
    push_word(&mut cmd, "EXISTS");
    push_word(&mut cmd, key);
    proof {
        assert(cmd.deep_view() =~= command(seq!["EXISTS"@, key@]));
    }
    cmd
}

/// GET: asks for the value of the key.
pub fn get(key: &str) -> (r: Vec<Value>)
    ensures
        r.deep_view() == command(seq!["GET"@, key@]),
{
    let mut cmd: Vec<Value> = Vec::new();
    push_word(&mut cmd, "GET");
    push_word(&mut cmd, key);
    proof {
        assert(cmd.deep_view() =~= command(seq!["GET"@, key@]));
    }
    cmd
}

/// HDEL: deletes the field of the hash.
pub fn hdel(key: &str, field: &str) -> (r: Vec<Value>)
    ensures
        r.deep_view() == command(seq!["HDEL"@, key@, field@]),
{
    let mut cmd: Vec<Value> = Vec::new();
    push_word(&mut cmd, "HDEL");
    push_word(&mut cmd, key);
    push_word(&mut cmd, field);
    proof {
        assert(cmd.deep_view() =~= command(seq!["HDEL"@, key@, field@]));
    }
    cmd
}

/// HEXISTS: asks whether the hash has the field.
pub fn hexists(key: &str, field: &str) -> (r: Vec<Value>)
    ensures
        r.deep_view() == command(seq!["HEXISTS"@, key@, field@]),
{
    let mut cmd: Vec<Value> = Vec::new();
    push_word(&mut cmd, "HEXISTS");
    push_word(&mut cmd, key);
    push_word(&mut cmd, field);
    proof {
        assert(cmd.deep_view() =~= command(seq!["HEXISTS"@, key@, field@]));
    }
    cmd
}

/// HGET: asks for the value of the field of the hash.
pub fn hget(key: &str, field: &str) -> (r: Vec<Value>)
    ensures
        r.deep_view() == command(seq!["HGET"@, key@, field@]),
{
    let mut cmd: Vec<Value> = Vec::new();
    push_word(&mut cmd, "HGET");
    push_word(&mut cmd, key);
    push_word(&mut cmd, field);
    proof {
        assert(cmd.deep_view() =~= command(seq!["HGET"@, key@, field@]));
    }
    cmd
}

/// HGETALL: asks for every field of the hash with its value.
pub fn hgetall(key: &str) -> (r: Vec<Value>)
    ensures
        r.deep_view() == command(seq!["HGETALL"@, key@]),
{
    let mut cmd: Vec<Value> = Vec::new();
    push_word(&mut cmd, "HGETALL");
    push_word(&mut cmd, key);
    proof {
        assert(cmd.deep_view() =~= command(seq!["HGETALL"@, key@]));
    }
    cmd
}

/// HINCRBYFLOAT: adds to the number in the field of the hash; the increment is
/// given in its decimal text.
pub fn hincrbyfloat(key: &str, field: &str, increment: &str) -> (r: Vec<Value>)
    ensures
        r.deep_view() == command(seq!["HINCRBYFLOAT"@, key@, field@, increment@]),
{
    let mut cmd: Vec<Value> = Vec::new();
    push_word(&mut cmd, "HINCRBYFLOAT");
    push_word(&mut cmd, key);
    push_word(&mut cmd, field);
    push_word(&mut cmd, increment);
    proof {
        assert(cmd.deep_view() =~= command(seq!["HINCRBYFLOAT"@, key@, field@, increment@]));
    }
    cmd
}

/// HKEYS: asks for the fields of the hash.
pub fn hkeys(key: &str) -> (r: Vec<Value>)
    ensures
        r.deep_view() == command(seq!["HKEYS"@, key@]),
{
    let mut cmd: Vec<Value> = Vec::new();
    push_word(&mut cmd, "HKEYS");
    push_word(&mut cmd, key);
    proof {
        assert(cmd.deep_view() =~= command(seq!["HKEYS"@, key@]));
    }
    cmd
}

/// HLEN: asks how many fields the hash has.
pub fn hlen(key: &str) -> (r: Vec<Value>)
    ensures
        r.deep_view() == command(seq!["HLEN"@, key@]),
{
    let mut cmd: Vec<Value> = Vec::new();
    push_word(&mut cmd, "HLEN");
    push_word(&mut cmd, key);
    proof {
        assert(cmd.deep_view() =~= command(seq!["HLEN"@, key@]));
    }
    cmd
}

/// HSET: sets the field of the hash to the value.
pub fn hset(key: &str, field: &str, value: &str) -> (r: Vec<Value>)
    ensures
        r.deep_view() == command(seq!["HSET"@, key@, field@, value@]),
{
    let mut cmd: Vec<Value> = Vec::new();
    push_word(&mut cmd, "HSET");
    push_word(&mut cmd, key);
    push_word(&mut cmd, field);
    push_word(&mut cmd, value);
    proof {
        assert(cmd.deep_view() =~= command(seq!["HSET"@, key@, field@, value@]));
    }
    cmd
}

/// HSETNX: sets the field of the hash to the value unless the field is there.
pub fn hsetnx(key: &str, field: &str, value: &str) -> (r: Vec<Value>)
    ensures
        r.deep_view() == command(seq!["HSETNX"@, key@, field@, value@]),
{
    let mut cmd: Vec<Value> = Vec::new();
    push_word(&mut cmd, "HSETNX");
    push_word(&mut cmd, key);
    push_word(&mut cmd, field);
    push_word(&mut cmd, value);
    proof {
        assert(cmd.deep_view() =~= command(seq!["HSETNX"@, key@, field@, value@]));
    }
    cmd
}

/// HSTRLEN: asks for the length of the value of the field of the hash.
pub fn hstrlen(key: &str, field: &str) -> (r: Vec<Value>)
    ensures
        r.deep_view() == command(seq!["HSTRLEN"@, key@, field@]),
{
    let mut cmd: Vec<Value> = Vec::new();
    push_word(&mut cmd, "HSTRLEN");
    push_word(&mut cmd, key);
    push_word(&mut cmd, field);
    proof {
        assert(cmd.deep_view() =~= command(seq!["HSTRLEN"@, key@, field@]));
    }
    cmd
}

/// HVALS: asks for the values of the hash.
pub fn hvals(key: &str) -> (r: Vec<Value>)
    ensures
        r.deep_view() == command(seq!["HVALS"@, key@]),
{
    let mut cmd: Vec<Value> = Vec::new();
    push_word(&mut cmd, "HVALS");
    push_word(&mut cmd, key);
    proof {
        assert(cmd.deep_view() =~= command(seq!["HVALS"@, key@]));
    }
    cmd
}

/// INCR: adds one to the number in the key.
pub fn incr(key: &str) -> (r: Vec<Value>)
    ensures
        r.deep_view() == command(seq!["INCR"@, key@]),
{
    let mut cmd: Vec<Value> = Vec::new();
    push_word(&mut cmd, "INCR");
    push_word(&mut cmd, key);
    proof {
        assert(cmd.deep_view() =~= command(seq!["INCR"@, key@]));
    }
    cmd
}

/// KEYS: asks for the keys that match the pattern.
pub fn keys(pattern: &str) -> (r: Vec<Value>)
    ensures
        r.deep_view() == command(seq!["KEYS"@, pattern@]),
{
    let mut cmd: Vec<Value> = Vec::new();
    push_word(&mut cmd, "KEYS");
    push_word(&mut cmd, pattern);
    proof {
        assert(cmd.deep_view() =~= command(seq!["KEYS"@, pattern@]));
    }
    cmd
}

/// PING: asks the server whether it is there.
pub fn ping() -> (r: Vec<Value>)
    ensures
        r.deep_view() == command(seq!["PING"@]),
{
    let mut cmd: Vec<Value> = Vec::new();
    push_word(&mut cmd, "PING");
    proof {
        assert(cmd.deep_view() =~= command(seq!["PING"@]));
    }
    cmd
}

/// QUIT: asks the server to close the connection.
pub fn quit() -> (r: Vec<Value>)
    ensures
        r.deep_view() == command(seq!["QUIT"@]),
{
    let mut cmd: Vec<Value> = Vec::new();
    push_word(&mut cmd, "QUIT");
    proof {
        assert(cmd.deep_view() =~= command(seq!["QUIT"@]));
    }
    cmd
}

/// PUBLISH: sends the message to the channel.
pub fn publish(channel: &str, message: &str) -> (r: Vec<Value>)
    ensures
        r.deep_view() == command(seq!["PUBLISH"@, channel@, message@]),
{
    let mut cmd: Vec<Value> = Vec::new();
    push_word(&mut cmd, "PUBLISH");
    push_word(&mut cmd, channel);
    push_word(&mut cmd, message);
    proof {
        assert(cmd.deep_view() =~= command(seq!["PUBLISH"@, channel@, message@]));
    }
    cmd
}

/// SET: sets the key to the value.
pub fn set(key: &str, value: &str) -> (r: Vec<Value>)
    ensures
        r.deep_view() == command(seq!["SET"@, key@, value@]),
{
    let mut cmd: Vec<Value> = Vec::new();
    push_word(&mut cmd, "SET");
    push_word(&mut cmd, key);
    push_word(&mut cmd, value);
    proof {
        assert(cmd.deep_view() =~= command(seq!["SET"@, key@, value@]));
    }
    cmd
}

/// ACL SETUSER: creates the user or changes it by the rules.
pub fn acl_setuser(username: &str, rules: &Vec<String>) -> (r: Vec<Value>)
    ensures
        r.deep_view() == command(seq!["ACL"@, "SETUSER"@, username@] + rules.deep_view()),
{
    let mut cmd: Vec<Value> = Vec::new();
    push_word(&mut cmd, "ACL");
    push_word(&mut cmd, "SETUSER");
    push_word(&mut cmd, username);
    let ghost head = seq!["ACL"@, "SETUSER"@, username@];
    proof {
        assert(cmd.deep_view() =~= command(head + rules.deep_view().take(0)));
    }
    let mut i: usize = 0;
    while i < rules.len()
        invariant
            i <= rules@.len(),
            head.len() == 3,
            cmd.deep_view() == command(head + rules.deep_view().take(i as int)),
        decreases rules@.len() - i,
    {
        push_word(&mut cmd, rules[i].as_str());
        proof {
            assert(rules.deep_view()[i as int] == rules@[i as int]@);
            assert(cmd.deep_view() =~= command(head + rules.deep_view().take(i + 1)));
        }
        i = i + 1;
    }
    proof {
        assert(rules.deep_view().take(i as int) =~= rules.deep_view());
    }
    cmd
}

/// HINCRBY: adds the increment to the number in the field of the hash.
pub fn hincrby(key: &str, field: &str, increment: i64) -> (r: Vec<Value>)
    ensures
        r.deep_view() == command(seq!["HINCRBY"@, key@, field@, decimal_text(increment as int)]),
{
    let mut cmd: Vec<Value> = Vec::new();
    push_word(&mut cmd, "HINCRBY");
    push_word(&mut cmd, key);
    push_word(&mut cmd, field);
    push_number(&mut cmd, increment);
    proof {
        assert(cmd.deep_view() =~= command(seq!["HINCRBY"@, key@, field@, decimal_text(increment as int)]));
    }
    cmd
}

/// INCRBY: adds the increment to the number in the key.
pub fn incrby(key: &str, increment: i64) -> (r: Vec<Value>)
    ensures
        r.deep_view() == command(seq!["INCRBY"@, key@, decimal_text(increment as int)]),
{
    let mut cmd: Vec<Value> = Vec::new();
    push_word(&mut cmd, "INCRBY");
    push_word(&mut cmd, key);
    push_number(&mut cmd, increment);
    proof {
        assert(cmd.deep_view() =~= command(seq!["INCRBY"@, key@, decimal_text(increment as int)]));
    }
    cmd
}

/// HMGET: asks for the values of the fields of the hash.
pub fn hmget(key: &str, fields: &Vec<String>) -> (r: Vec<Value>)
    ensures
        r.deep_view() == command(seq!["HMGET"@, key@] + fields.deep_view()),
{
    let mut cmd: Vec<Value> = Vec::new();
    push_word(&mut cmd, "HMGET");
    push_word(&mut cmd, key);
    let ghost head = seq!["HMGET"@, key@];
    proof {
        assert(cmd.deep_view() =~= command(head + fields.deep_view().take(0)));
    }
    let mut i: usize = 0;
    while i < fields.len()
        invariant
            i <= fields@.len(),
            head.len() == 2,
            cmd.deep_view() == command(head + fields.deep_view().take(i as int)),
        decreases fields@.len() - i,
    {
        push_word(&mut cmd, fields[i].as_str());
        proof {
            assert(fields.deep_view()[i as int] == fields@[i as int]@);
            assert(cmd.deep_view() =~= command(head + fields.deep_view().take(i + 1)));
        }
        i = i + 1;
    }
    proof {
        assert(fields.deep_view().take(i as int) =~= fields.deep_view());
    }
    cmd
}

/// HMSET: sets each field of the hash to its value.
pub fn hmset(key: &str, fields: &Vec<(String, String)>) -> (r: Vec<Value>)
    ensures
        r.deep_view() == command(seq!["HMSET"@, key@] + interleave(fields.deep_view())),
{
    let mut cmd: Vec<Value> = Vec::new();
    push_word(&mut cmd, "HMSET");
    push_word(&mut cmd, key);
    let ghost head = seq!["HMSET"@, key@];
    let ghost all = interleave(fields.deep_view());
    proof {
        assert(cmd.deep_view() =~= command(head + all.take(0)));
    }
    let mut i: usize = 0;
    while i < fields.len()
        invariant
            i <= fields@.len(),
            head.len() == 2,
            all == interleave(fields.deep_view()),
            cmd.deep_view() == command(head + all.take(2 * i)),
        decreases fields@.len() - i,
    {
        push_word(&mut cmd, fields[i].0.as_str());
        push_word(&mut cmd, fields[i].1.as_str());
        proof {
            assert(fields.deep_view()[i as int] == (fields@[i as int].0@, fields@[i as int].1@));
            assert(all[2 * i] == fields@[i as int].0@);
            assert(all[2 * i + 1] == fields@[i as int].1@);
            assert(cmd.deep_view() =~= command(head + all.take(2 * (i + 1))));
        }
        i = i + 1;
    }
    proof {
        assert(all.take(2 * i) =~= all);
    }
    cmd
}

/// The pairs that a flat run of fields and values makes, two by two; an
/// error where a field is left without a value.
pub open spec fn paired(flat: Seq<Seq<char>>) -> Result<Seq<(Seq<char>, Seq<char>)>, ErrorView> {
    if flat.len() % 2 != 0 {
        Err(ErrorView::Client("An equal number of FIELDs and VALUEs are required"@))
    } else {
        Ok(Seq::new((flat.len() / 2) as nat, |i: int| (flat[2 * i], flat[2 * i + 1])))
    }
}

/// Pairs up a flat run of fields and values, as HMSET takes them.
pub fn field_pairs(flat: &Vec<String>) -> (r: Result<Vec<(String, String)>, Error>)
    ensures
        answers(r, paired(flat.deep_view())),
{
    let len: usize = flat.len();
    if len % 2 != 0 {
        return Err(Error::Client(String::from_str("An equal number of FIELDs and VALUEs are required")));
    }
    let ghost expected = Seq::new(
        (flat.deep_view().len() / 2) as nat,
        |i: int| (flat.deep_view()[2 * i], flat.deep_view()[2 * i + 1]),
    );
    let mut out: Vec<(String, String)> = Vec::new();
    let mut i: usize = 0;
    while i < len
        invariant
            len == flat@.len(),
            len % 2 == 0,
            i <= len,
            i % 2 == 0,
            expected == Seq::new(
                (flat.deep_view().len() / 2) as nat,
                |i: int| (flat.deep_view()[2 * i], flat.deep_view()[2 * i + 1]),
            ),
            out.deep_view() =~= expected.take(i as int / 2),
        decreases len - i,
    {
        let field: String = flat[i].clone();
        let value: String = flat[i + 1].clone();
        let ghost before = out.deep_view();
        proof {
            assert(flat.deep_view()[i as int] == flat@[i as int]@);
            assert(flat.deep_view()[i + 1] == flat@[i + 1]@);
            assert(expected.take((i + 2) / 2) =~= expected.take(i as int / 2).push((field@, value@)));
        }
        out.push((field, value));
        proof {
            assert(out.deep_view() =~= before.push((field@, value@)));
        }
        i = i + 2;
    }
    proof {
        assert(expected.take(i as int / 2) =~= expected);
    }
    Ok(out)
}

/// The words of HELLO: the protocol version, the name and the password
/// behind AUTH, the client's name behind SETNAME, each where the options
/// have it.
pub open spec fn hello_words(opts: HelloOpts) -> Seq<Seq<char>> {
    seq!["HELLO"@] + (match opts.proto_ver {
        Some(version) => seq![version@],
        None => Seq::empty(),
    }) + (match opts.auth {
        Some(auth) => seq!["AUTH"@, auth.0@, auth.1@],
        None => Seq::empty(),
    }) + (match opts.client_name {
        Some(name) => seq!["SETNAME"@, name@],
        None => Seq::empty(),
    })
}

/// What HELLO sends. Authentication and a client name are refused where no
/// protocol version is given.
pub open spec fn hello_request(opts: Option<HelloOpts>) -> Result<Seq<Frame>, ErrorView> {
    match opts {
        None => Ok(command(seq!["HELLO"@])),
        Some(opts) => if opts.proto_ver is None && opts.auth is Some {
            Err(ErrorView::Client("proto-ver must be specified to use auth"@))
        } else if opts.proto_ver is None && opts.client_name is Some {
            Err(ErrorView::Client("proto-ver must be specified to use client-name"@))
        } else {
            Ok(command(hello_words(opts)))
        },
    }
}

/// HELLO: the handshake, which picks the protocol version and may
/// authenticate and name the client.
pub fn hello(opts: &Option<HelloOpts>) -> (r: Result<Vec<Value>, Error>)
    ensures
        answers(r, hello_request(*opts)),
        r is Ok <==> (*opts is Some ==> opts->0.valid()),
{
    let mut cmd: Vec<Value> = Vec::new();
    push_word(&mut cmd, "HELLO");
    let ghost mut words: Seq<Seq<char>> = seq!["HELLO"@];
    proof {
        assert(cmd.deep_view() =~= command(words));
    }
    if let Some(opts) = opts {
        let no_version: bool = opts.proto_ver.is_none();
        if let Some(version) = &opts.proto_ver {
            push_word(&mut cmd, version.as_str());
            proof {
                words = words.push(version@);
                assert(cmd.deep_view() =~= command(words));
            }
        }
        if let Some(auth) = &opts.auth {
            if no_version {
                return Err(Error::Client(String::from_str("proto-ver must be specified to use auth")));
            }
            push_word(&mut cmd, "AUTH");
            push_word(&mut cmd, auth.0.as_str());
            push_word(&mut cmd, auth.1.as_str());
            proof {
                words = words + seq!["AUTH"@, auth.0@, auth.1@];
                assert(cmd.deep_view() =~= command(words));
            }
        }
        if let Some(name) = &opts.client_name {
            if no_version {
                return Err(
                    Error::Client(String::from_str("proto-ver must be specified to use client-name")),
                );
            }
            push_word(&mut cmd, "SETNAME");
            push_word(&mut cmd, name.as_str());
            proof {
                words = words + seq!["SETNAME"@, name@];
                assert(cmd.deep_view() =~= command(words));
            }
        }
        proof {
            assert(words =~= hello_words(*opts));
        }
    }
    Ok(cmd)
}

/// The words of HRANDFIELD: the key, the count where the options have one,
/// and WITHVALUES where they ask for values.
pub open spec fn hrandfield_words(key: Seq<char>, opts: Option<HrandfieldOpts>) -> Seq<Seq<char>> {
    seq!["HRANDFIELD"@, key] + (match opts {
        Some(HrandfieldOpts { count: Some(count), with_values: _ }) => seq![decimal_text(count as int)],
        _ => Seq::empty(),
    }) + (match opts {
        Some(HrandfieldOpts { count: _, with_values: Some(true) }) => seq!["WITHVALUES"@],
        _ => Seq::empty(),
    })
}

/// What HRANDFIELD sends. Values are refused where no count is given.
pub open spec fn hrandfield_request(key: Seq<char>, opts: Option<HrandfieldOpts>) -> Result<
    Seq<Frame>,
    ErrorView,
> {
    if opts is Some && !opts->0.valid() {
        Err(ErrorView::Client("count must be specified to use with-values"@))
    } else {
        Ok(command(hrandfield_words(key, opts)))
    }
}

/// HRANDFIELD: draws fields of the hash at random.
pub fn hrandfield(key: &str, opts: Option<HrandfieldOpts>) -> (r: Result<Vec<Value>, Error>)
    ensures
        answers(r, hrandfield_request(key@, opts)),
        r is Ok <==> (opts is Some ==> opts->0.valid()),
{
    let mut cmd: Vec<Value> = Vec::new();
    push_word(&mut cmd, "HRANDFIELD");
    push_word(&mut cmd, key);
    let ghost mut words: Seq<Seq<char>> = seq!["HRANDFIELD"@, key@];
    proof {
        assert(cmd.deep_view() =~= command(words));
    }
    if let Some(opts) = opts {
        if let Some(count) = opts.count {
            push_number(&mut cmd, count);
            proof {
                words = words.push(decimal_text(count as int));
                assert(cmd.deep_view() =~= command(words));
            }
        }
        if let Some(with_values) = opts.with_values {
            if with_values {
                if opts.count.is_none() {
                    return Err(
                        Error::Client(String::from_str("count must be specified to use with-values")),
                    );
                }
                push_word(&mut cmd, "WITHVALUES");
                proof {
                    words = words.push("WITHVALUES"@);
                    assert(cmd.deep_view() =~= command(words));
                }
            }
        }
    }
    proof {
        assert(words =~= hrandfield_words(key@, opts));
    }
    Ok(cmd)
}

/// The words of HSCAN: the key, the cursor, which is `0` where none is
/// given, and of the options the pattern behind MATCH, the count behind
/// COUNT, and NOVALUES, each where the options have it.
pub open spec fn hscan_words(key: Seq<char>, cursor: Option<Seq<char>>, opts: Option<HscanOpts>) -> Seq<
    Seq<char>,
> {
    seq![
        "HSCAN"@,
        key,
        match cursor {
            Some(cursor) => cursor,
            None => "0"@,
        },
    ] + (match opts {
        Some(HscanOpts { match_: Some(pattern), count: _, no_values: _ }) => seq!["MATCH"@, pattern@],
        _ => Seq::empty(),
    }) + (match opts {
        Some(HscanOpts { match_: _, count: Some(count), no_values: _ }) => seq![
            "COUNT"@,
            decimal_text(count as int),
        ],
        _ => Seq::empty(),
    }) + (match opts {
        Some(HscanOpts { match_: _, count: _, no_values: Some(true) }) => seq!["NOVALUES"@],
        _ => Seq::empty(),
    })
}

/// HSCAN: goes one step on through the fields of the hash.
pub fn hscan(key: &str, cursor: Option<&str>, opts: &Option<HscanOpts>) -> (r: Vec<Value>)
    ensures
        r.deep_view() == command(
            hscan_words(
                key@,
                match cursor {
                    Some(cursor) => Some(cursor@),
                    None => None,
                },
                *opts,
            ),
        ),
{
    let mut cmd: Vec<Value> = Vec::new();
    push_word(&mut cmd, "HSCAN");
    push_word(&mut cmd, key);
    let from: &str = match cursor {
        Some(cursor) => cursor,
        None => "0",
    };
    push_word(&mut cmd, from);
    let ghost mut words: Seq<Seq<char>> = seq!["HSCAN"@, key@, from@];
    proof {
        assert(cmd.deep_view() =~= command(words));
    }
    if let Some(opts) = opts {
        if let Some(pattern) = &opts.match_ {
            push_word(&mut cmd, "MATCH");
            push_word(&mut cmd, pattern.as_str());
            proof {
                words = words + seq!["MATCH"@, pattern@];
                assert(cmd.deep_view() =~= command(words));
            }
        }
        if let Some(count) = opts.count {
            push_word(&mut cmd, "COUNT");
            push_number(&mut cmd, count);
            proof {
                words = words + seq!["COUNT"@, decimal_text(count as int)];
                assert(cmd.deep_view() =~= command(words));
            }
        }
        if let Some(no_values) = opts.no_values {
            if no_values {
                push_word(&mut cmd, "NOVALUES");
                proof {
                    words = words.push("NOVALUES"@);
                    assert(cmd.deep_view() =~= command(words));
                }
            }
        }
    }
    proof {
        assert(words =~= hscan_words(
            key@,
            match cursor {
                Some(cursor) => Some(cursor@),
                None => None,
            },
            *opts,
        ));
    }
    cmd
}

} // verus!

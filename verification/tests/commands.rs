use valkey_ops::error::Error;
use valkey_ops::resp::decode::decode;
use valkey_ops::resp::encode::encode;
use valkey_ops::resp::value::Value;
use valkey_ops::store::opts::{HelloOpts, HrandfieldOpts, HscanOpts};
use valkey_ops::store::reply;
use valkey_ops::store::request;

fn bulk(text: &str) -> Value {
    Value::BulkString(text.to_string())
}

fn words(list: &[&str]) -> Vec<Value> {
    list.iter().map(|w| bulk(w)).collect()
}

fn client<T>(message: &str) -> Result<T, Error> {
    Err(Error::Client(message.to_string()))
}

fn server(bytes: &[u8]) -> Value {
    decode(bytes.to_vec()).unwrap()
}

#[test]
fn hset_request_and_replies() {
    assert_eq!(request::hset("k", "f", "v"), words(&["HSET", "k", "f", "v"]));
    assert_eq!(
        request::to_bytes(request::hset("k", "f", "v")),
        b"*4\r\n$4\r\nHSET\r\n$1\r\nk\r\n$1\r\nf\r\n$1\r\nv\r\n".to_vec()
    );
    assert_eq!(reply::hset(&server(b":1\r\n")), Ok(()));
    assert_eq!(reply::hset(&server(b":0\r\n")), client("Unexpected response: 0 fields set"));
    assert_eq!(reply::hset(&server(b":2\r\n")), client("Unexpected response: 2 fields set"));
    assert_eq!(reply::hset(&server(b":-3\r\n")), client("Unexpected response: -3 fields set"));
    assert_eq!(reply::hset(&server(b"-ERR wrong type\r\n")), Err(Error::Valkey("ERR wrong type".to_string())));
    assert_eq!(reply::hset(&server(b"+OK\r\n")), client("Unexpected response type: String"));
}

#[test]
fn hscan_request_and_reply() {
    assert_eq!(request::hscan("h", None, &None), words(&["HSCAN", "h", "0"]));
    let response = server(b"*2\r\n$1\r\n0\r\n*4\r\n$1\r\na\r\n$1\r\n1\r\n$1\r\nb\r\n$1\r\n2\r\n");
    assert_eq!(
        reply::hscan(&response, &None),
        Ok((
            None,
            vec![("a".to_string(), Some("1".to_string())), ("b".to_string(), Some("2".to_string()))]
        ))
    );
}

#[test]
fn hello_request_with_every_option() {
    let opts = HelloOpts {
        proto_ver: Some("3".to_string()),
        auth: Some(("u".to_string(), "p".to_string())),
        client_name: Some("c".to_string()),
    };
    assert_eq!(request::hello(&Some(opts)), Ok(words(&["HELLO", "3", "AUTH", "u", "p", "SETNAME", "c"])));
}

#[test]
fn hello_request_needs_a_version_for_auth() {
    let opts = HelloOpts { proto_ver: None, auth: Some(("u".to_string(), "p".to_string())), client_name: None };
    assert_eq!(request::hello(&Some(opts)), client("proto-ver must be specified to use auth"));
    let both = HelloOpts {
        proto_ver: None,
        auth: Some(("u".to_string(), "p".to_string())),
        client_name: Some("c".to_string()),
    };
    assert_eq!(request::hello(&Some(both)), client("proto-ver must be specified to use auth"));
}

#[test]
fn hello_request_needs_a_version_for_a_client_name() {
    let opts = HelloOpts { proto_ver: None, auth: None, client_name: Some("c".to_string()) };
    assert_eq!(request::hello(&Some(opts)), client("proto-ver must be specified to use client-name"));
}

#[test]
fn hello_request_with_fewer_options() {
    assert_eq!(request::hello(&None), Ok(words(&["HELLO"])));
    let bare = HelloOpts { proto_ver: None, auth: None, client_name: None };
    assert_eq!(request::hello(&Some(bare)), Ok(words(&["HELLO"])));
    let version = HelloOpts { proto_ver: Some("2".to_string()), auth: None, client_name: None };
    assert_eq!(request::hello(&Some(version)), Ok(words(&["HELLO", "2"])));
    let named = HelloOpts { proto_ver: Some("3".to_string()), auth: None, client_name: Some("me".to_string()) };
    assert_eq!(request::hello(&Some(named)), Ok(words(&["HELLO", "3", "SETNAME", "me"])));
}

#[test]
fn hello_reply_from_either_version() {
    let flat = server(b"*4\r\n$6\r\nserver\r\n$6\r\nvalkey\r\n$5\r\nproto\r\n:2\r\n");
    let map = server(b"%2\r\n$6\r\nserver\r\n$6\r\nvalkey\r\n$5\r\nproto\r\n:2\r\n");
    let expected = vec![("server".to_string(), bulk("valkey")), ("proto".to_string(), Value::Integer(2))];
    assert_eq!(reply::hello(&flat), Ok(expected.clone()));
    assert_eq!(reply::hello(&map), Ok(expected));
    assert_eq!(reply::hello(&server(b"*2\r\n:1\r\n:2\r\n")), client("Unexpected key type: Integer"));
    assert_eq!(reply::hello(&server(b"%1\r\n+a\r\n:2\r\n")), client("Unexpected key type: String"));
    assert_eq!(reply::hello(&server(b"*1\r\n$1\r\na\r\n")), client("Unexpected response: odd number of items"));
    assert_eq!(reply::hello(&server(b"-NOPROTO no\r\n")), Err(Error::Valkey("NOPROTO no".to_string())));
    assert_eq!(reply::hello(&server(b"!10\r\nNOPROTO no\r\n")), Err(Error::Valkey("NOPROTO no".to_string())));
    assert_eq!(reply::hello(&server(b":1\r\n")), client("Unexpected response type: Integer"));
}

#[test]
fn requests_of_fixed_shape() {
    assert_eq!(request::acl_deluser("u"), words(&["ACL", "DELUSER", "u"]));
    assert_eq!(request::acl_genpass(), words(&["ACL", "GENPASS"]));
    assert_eq!(request::auth("u", "p"), words(&["AUTH", "u", "p"]));
    assert_eq!(request::del("k"), words(&["DEL", "k"]));
    assert_eq!(request::key_exists("k"), words(&["EXISTS", "k"]));
    assert_eq!(request::get("k"), words(&["GET", "k"]));
    assert_eq!(request::hdel("k", "f"), words(&["HDEL", "k", "f"]));
    assert_eq!(request::hexists("k", "f"), words(&["HEXISTS", "k", "f"]));
    assert_eq!(request::hget("k", "f"), words(&["HGET", "k", "f"]));
    assert_eq!(request::hgetall("k"), words(&["HGETALL", "k"]));
    assert_eq!(request::hincrby("k", "f", -5), words(&["HINCRBY", "k", "f", "-5"]));
    assert_eq!(request::hincrby("k", "f", i64::MIN), words(&["HINCRBY", "k", "f", "-9223372036854775808"]));
    assert_eq!(request::hincrbyfloat("k", "f", "1.5"), words(&["HINCRBYFLOAT", "k", "f", "1.5"]));
    assert_eq!(request::hkeys("k"), words(&["HKEYS", "k"]));
    assert_eq!(request::hlen("k"), words(&["HLEN", "k"]));
    assert_eq!(request::hsetnx("k", "f", "v"), words(&["HSETNX", "k", "f", "v"]));
    assert_eq!(request::hstrlen("k", "f"), words(&["HSTRLEN", "k", "f"]));
    assert_eq!(request::hvals("k"), words(&["HVALS", "k"]));
    assert_eq!(request::incr("k"), words(&["INCR", "k"]));
    assert_eq!(request::incrby("k", 10), words(&["INCRBY", "k", "10"]));
    assert_eq!(request::keys("*"), words(&["KEYS", "*"]));
    assert_eq!(request::ping(), words(&["PING"]));
    assert_eq!(request::quit(), words(&["QUIT"]));
    assert_eq!(request::publish("c", "m"), words(&["PUBLISH", "c", "m"]));
    assert_eq!(request::set("k", "v"), words(&["SET", "k", "v"]));
}

#[test]
fn requests_with_lists() {
    let rules = vec!["on".to_string(), ">pass".to_string(), "~*".to_string()];
    assert_eq!(request::acl_setuser("u", &rules), words(&["ACL", "SETUSER", "u", "on", ">pass", "~*"]));
    assert_eq!(request::acl_setuser("u", &vec![]), words(&["ACL", "SETUSER", "u"]));
    let fields = vec!["a".to_string(), "b".to_string()];
    assert_eq!(request::hmget("k", &fields), words(&["HMGET", "k", "a", "b"]));
    let pairs = vec![("a".to_string(), "1".to_string()), ("b".to_string(), "2".to_string())];
    assert_eq!(request::hmset("k", &pairs), words(&["HMSET", "k", "a", "1", "b", "2"]));
    assert_eq!(request::hmset("k", &vec![]), words(&["HMSET", "k"]));
}

#[test]
fn hrandfield_requests() {
    assert_eq!(request::hrandfield("k", None), Ok(words(&["HRANDFIELD", "k"])));
    let none = HrandfieldOpts { count: None, with_values: None };
    assert_eq!(request::hrandfield("k", Some(none)), Ok(words(&["HRANDFIELD", "k"])));
    let count = HrandfieldOpts { count: Some(-3), with_values: Some(false) };
    assert_eq!(request::hrandfield("k", Some(count)), Ok(words(&["HRANDFIELD", "k", "-3"])));
    let values = HrandfieldOpts { count: Some(2), with_values: Some(true) };
    assert_eq!(request::hrandfield("k", Some(values)), Ok(words(&["HRANDFIELD", "k", "2", "WITHVALUES"])));
    let bad = HrandfieldOpts { count: None, with_values: Some(true) };
    assert_eq!(request::hrandfield("k", Some(bad)), client("count must be specified to use with-values"));
}

#[test]
fn hrandfield_replies() {
    let with = Some(HrandfieldOpts { count: Some(2), with_values: Some(true) });
    let without = Some(HrandfieldOpts { count: Some(2), with_values: None });
    assert_eq!(reply::hrandfield(&server(b"$1\r\na\r\n"), None), Ok(Some(vec![("a".to_string(), None)])));
    assert_eq!(reply::hrandfield(&server(b"_\r\n"), None), Ok(None));
    assert_eq!(reply::hrandfield(&server(b"$-1\r\n"), None), Ok(None));
    assert_eq!(reply::hrandfield(&server(b"*0\r\n"), without), Ok(None));
    assert_eq!(
        reply::hrandfield(&server(b"*2\r\n$1\r\na\r\n$1\r\nb\r\n"), without),
        Ok(Some(vec![("a".to_string(), None), ("b".to_string(), None)]))
    );
    assert_eq!(
        reply::hrandfield(&server(b"*2\r\n$1\r\na\r\n$1\r\n1\r\n"), with),
        Ok(Some(vec![("a".to_string(), Some("1".to_string()))]))
    );
    assert_eq!(reply::hrandfield(&server(b"*2\r\n$1\r\na\r\n:1\r\n"), with), client("Unexpected value type: Integer"));
    assert_eq!(reply::hrandfield(&server(b"*2\r\n:1\r\n$1\r\na\r\n"), with), client("Unexpected key type: Integer"));
    assert_eq!(reply::hrandfield(&server(b"*2\r\n$1\r\na\r\n:1\r\n"), without), client("Unexpected key type: Integer"));
    assert_eq!(
        reply::hrandfield(&server(b"*1\r\n$1\r\na\r\n"), with),
        client("Unexpected response: odd number of items")
    );
    assert_eq!(reply::hrandfield(&server(b":1\r\n"), None), client("Unexpected response type: Integer"));
}

#[test]
fn hscan_requests() {
    assert_eq!(request::hscan("h", Some("17"), &None), words(&["HSCAN", "h", "17"]));
    let all = HscanOpts { match_: Some("a*".to_string()), count: Some(10), no_values: Some(true) };
    assert_eq!(
        request::hscan("h", None, &Some(all)),
        words(&["HSCAN", "h", "0", "MATCH", "a*", "COUNT", "10", "NOVALUES"])
    );
    let some = HscanOpts { match_: None, count: Some(5), no_values: Some(false) };
    assert_eq!(request::hscan("h", Some("3"), &Some(some)), words(&["HSCAN", "h", "3", "COUNT", "5"]));
}

#[test]
fn hscan_replies() {
    let plain = Some(HscanOpts { match_: None, count: None, no_values: Some(true) });
    assert_eq!(
        reply::hscan(&server(b"*2\r\n$2\r\n17\r\n*2\r\n$1\r\na\r\n$1\r\nb\r\n"), &plain),
        Ok((Some("17".to_string()), vec![("a".to_string(), None), ("b".to_string(), None)]))
    );
    assert_eq!(reply::hscan(&server(b"*2\r\n$1\r\n0\r\n*0\r\n"), &None), Ok((None, vec![])));
    assert_eq!(reply::hscan(&server(b"*2\r\n:0\r\n*0\r\n"), &None), client("Unexpected cursor type: Integer"));
    assert_eq!(reply::hscan(&server(b"*2\r\n$1\r\n0\r\n$1\r\na\r\n"), &None), client("Unexpected elements type: BulkString"));
    assert_eq!(
        reply::hscan(&server(b"*2\r\n$1\r\n0\r\n*1\r\n:1\r\n"), &plain),
        client("Unexpected field type: Integer")
    );
    assert_eq!(
        reply::hscan(&server(b"*2\r\n$1\r\n0\r\n*2\r\n$1\r\na\r\n_\r\n"), &None),
        client("Unexpected value type: Null")
    );
    assert_eq!(
        reply::hscan(&server(b"*1\r\n$1\r\n0\r\n"), &None),
        client("Unexpected response: not a cursor and its elements")
    );
    assert_eq!(reply::hscan(&server(b"-ERR x\r\n"), &None), Err(Error::Valkey("ERR x".to_string())));
}

#[test]
fn hgetall_replies_agree_between_versions() {
    let flat = server(b"*4\r\n$1\r\na\r\n$1\r\n1\r\n$1\r\nb\r\n$1\r\n2\r\n");
    let map = server(b"%2\r\n$1\r\na\r\n$1\r\n1\r\n$1\r\nb\r\n$1\r\n2\r\n");
    let expected = vec![("a".to_string(), "1".to_string()), ("b".to_string(), "2".to_string())];
    assert_eq!(reply::hgetall(&flat), Ok(expected.clone()));
    assert_eq!(reply::hgetall(&map), Ok(expected));
    assert_eq!(reply::hgetall(&server(b"*0\r\n")), Ok(vec![]));
    assert_eq!(reply::hgetall(&server(b"%0\r\n")), Ok(vec![]));
    let bad_flat = server(b"*4\r\n$1\r\na\r\n$1\r\n1\r\n$1\r\nb\r\n:2\r\n");
    let bad_map = server(b"%2\r\n$1\r\na\r\n$1\r\n1\r\n$1\r\nb\r\n:2\r\n");
    assert_eq!(reply::hgetall(&bad_flat), client("Unexpected value type: Integer"));
    assert_eq!(reply::hgetall(&bad_map), client("Unexpected value type: Integer"));
    let bad_key_flat = server(b"*2\r\n_\r\n:2\r\n");
    let bad_key_map = server(b"%1\r\n_\r\n:2\r\n");
    assert_eq!(reply::hgetall(&bad_key_flat), client("Unexpected key type: Null"));
    assert_eq!(reply::hgetall(&bad_key_map), client("Unexpected key type: Null"));
    assert_eq!(reply::hgetall(&server(b"*1\r\n$1\r\na\r\n")), client("Unexpected response: odd number of items"));
    assert_eq!(reply::hgetall(&server(b"+OK\r\n")), client("Unexpected response type: String"));
}

#[test]
fn replies_that_are_one_word() {
    let ok = server(b"+OK\r\n");
    let pong = server(b"+PONG\r\n");
    assert_eq!(reply::acl_setuser(&ok), Ok(()));
    assert_eq!(reply::auth(&ok), Ok(()));
    assert_eq!(reply::hmset(&ok), Ok(()));
    assert_eq!(reply::quit(&ok), Ok(()));
    assert_eq!(reply::set(&ok), Ok(()));
    assert_eq!(reply::ping(&pong), Ok(()));
    assert_eq!(reply::ping(&ok), client("Not PONG: OK"));
    assert_eq!(reply::auth(&pong), client("Not OK: PONG"));
    assert_eq!(reply::set(&pong), client("Not OK: PONG"));
    assert_eq!(reply::set(&server(b"_\r\n")), client("Operation aborted"));
    assert_eq!(reply::set(&server(b"$-1\r\n")), client("Operation aborted"));
    assert_eq!(reply::quit(&server(b"_\r\n")), client("Unexpected response type: Null"));
    assert_eq!(reply::auth(&server(b"-WRONGPASS no\r\n")), Err(Error::Valkey("WRONGPASS no".to_string())));
    assert_eq!(reply::set(&server(b"$2\r\nOK\r\n")), client("Unexpected response type: BulkString"));
}

#[test]
fn replies_that_count_one() {
    let one = server(b":1\r\n");
    assert_eq!(reply::acl_deluser(&one), Ok(()));
    assert_eq!(reply::del(&one), Ok(()));
    assert_eq!(reply::hdel(&one), Ok(()));
    assert_eq!(reply::acl_deluser(&server(b":0\r\n")), client("Unexpected response: 0 users deleted"));
    assert_eq!(reply::del(&server(b":3\r\n")), client("Unexpected response: 3 keys deleted"));
    assert_eq!(reply::hdel(&server(b":0\r\n")), client("Unexpected response: 0 keys deleted"));
    assert_eq!(reply::del(&server(b"#t\r\n")), client("Unexpected response type: Boolean"));
}

#[test]
fn replies_that_say_yes_or_no() {
    assert_eq!(reply::key_exists(&server(b":0\r\n")), Ok(false));
    assert_eq!(reply::key_exists(&server(b":1\r\n")), Ok(true));
    assert_eq!(reply::hexists(&server(b":1\r\n")), Ok(true));
    assert_eq!(reply::hsetnx(&server(b":0\r\n")), Ok(false));
    assert_eq!(reply::hsetnx(&server(b":1\r\n")), Ok(true));
    assert_eq!(reply::key_exists(&server(b":2\r\n")), client("Unexpected response type: Integer"));
    assert_eq!(reply::hexists(&server(b"#t\r\n")), client("Unexpected response type: Boolean"));
}

#[test]
fn replies_that_are_numbers() {
    assert_eq!(reply::hincrby(&server(b":-7\r\n")), Ok(-7));
    assert_eq!(reply::incr(&server(b":8\r\n")), Ok(8));
    assert_eq!(reply::incrby(&server(b":9223372036854775807\r\n")), Ok(i64::MAX));
    assert_eq!(reply::publish(&server(b":0\r\n")), Ok(0));
    assert_eq!(reply::hlen(&server(b":3\r\n")), Ok(3));
    assert_eq!(reply::hstrlen(&server(b":0\r\n")), Ok(0));
    assert_eq!(reply::hlen(&server(b":-1\r\n")), client("Unexpected response type: Integer"));
    assert_eq!(reply::incr(&server(b"-ERR value is not an integer\r\n")),
        Err(Error::Valkey("ERR value is not an integer".to_string())));
    assert_eq!(reply::incr(&server(b",1.5\r\n")), client("Unexpected response type: Double"));
}

#[test]
fn replies_that_are_texts() {
    assert_eq!(reply::acl_genpass(&server(b"$4\r\nabcd\r\n")), Ok("abcd".to_string()));
    assert_eq!(reply::hincrbyfloat(&server(b"$3\r\n1.5\r\n")), Ok("1.5".to_string()));
    assert_eq!(reply::get(&server(b"$1\r\nv\r\n")), Ok(Some("v".to_string())));
    assert_eq!(reply::get(&server(b"_\r\n")), Ok(None));
    assert_eq!(reply::hget(&server(b"$-1\r\n")), Ok(None));
    assert_eq!(reply::hget(&server(b"$0\r\n\r\n")), Ok(Some("".to_string())));
    assert_eq!(reply::acl_genpass(&server(b"_\r\n")), client("Unexpected response type: Null"));
    assert_eq!(reply::get(&server(b"*0\r\n")), client("Unexpected response type: Array"));
    assert_eq!(reply::get(&server(b"(12\r\n")), client("Unexpected response type: BigNumber"));
    assert_eq!(reply::get(&server(b"=5\r\ntxt:a\r\n")), client("Unexpected response type: VerbatimString"));
    assert_eq!(reply::get(&server(b"%0\r\n")), client("Unexpected response type: Map"));
    assert_eq!(reply::get(&server(b"~0\r\n")), client("Unexpected response type: Set"));
    assert_eq!(reply::get(&server(b">0\r\n")), client("Unexpected response type: Push"));
}

#[test]
fn replies_that_are_lists() {
    let list = server(b"*2\r\n$1\r\na\r\n$1\r\nb\r\n");
    let expected = vec!["a".to_string(), "b".to_string()];
    assert_eq!(reply::hkeys(&list), Ok(expected.clone()));
    assert_eq!(reply::hvals(&list), Ok(expected.clone()));
    assert_eq!(reply::keys(&list), Ok(expected));
    assert_eq!(reply::keys(&server(b"*0\r\n")), Ok(vec![]));
    let mixed = server(b"*3\r\n$1\r\na\r\n_\r\n:1\r\n");
    assert_eq!(reply::hkeys(&mixed), client("Unexpected array item type: Null"));
    assert_eq!(reply::hvals(&mixed), client("Unexpected field type: Null"));
    assert_eq!(reply::keys(&mixed), client("Unexpected array item type: Null"));
    assert_eq!(reply::hmget(&mixed), client("Unexpected array item type: Integer"));
    assert_eq!(
        reply::hmget(&server(b"*3\r\n$1\r\na\r\n_\r\n$1\r\nc\r\n")),
        Ok(vec![Some("a".to_string()), None, Some("c".to_string())])
    );
    assert_eq!(reply::hkeys(&server(b"~0\r\n")), client("Unexpected response type: Set"));
}

#[test]
fn bytes_of_a_request() {
    assert_eq!(request::to_bytes(request::ping()), b"*1\r\n$4\r\nPING\r\n".to_vec());
    assert_eq!(request::to_bytes(vec![]), b"*0\r\n".to_vec());
    assert_eq!(encode(Value::Array(request::get("k"))), request::to_bytes(request::get("k")));
}

#[test]
fn fields_and_values_pair_up() {
    let flat: Vec<String> = ["a", "1", "b", "2"].iter().map(|s| s.to_string()).collect();
    assert_eq!(
        request::field_pairs(&flat),
        Ok(vec![("a".to_string(), "1".to_string()), ("b".to_string(), "2".to_string())])
    );
    assert_eq!(request::field_pairs(&vec![]), Ok(vec![]));
    let odd: Vec<String> = ["a", "1", "b"].iter().map(|s| s.to_string()).collect();
    assert_eq!(request::field_pairs(&odd), client("An equal number of FIELDs and VALUEs are required"));
}

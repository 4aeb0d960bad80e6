use valkey_ops::error::Error;
use valkey_ops::resp::decode::{decode, is_crlf, parse_integer, parse_string, Decoder, Fault};
use valkey_ops::resp::encode::{buf_encode, encode};
use valkey_ops::resp::value::Value;

fn bulk(text: &str) -> Value {
    Value::BulkString(text.to_string())
}

fn resp_error(message: &str) -> Result<Value, Error> {
    Err(Error::Resp(message.to_string()))
}

fn round_trip(value: Value) {
    let bytes = encode(value.clone());
    assert_eq!(decode(bytes), Ok(value));
}

#[test]
fn encode_simple_string_ok() {
    let val = Value::String("OK".to_string());
    assert_eq!(encode(val), vec![0x2B, 0x4F, 0x4B, 0x0D, 0x0A]);
}

#[test]
fn decode_bulk_string_and_encode_again() {
    let bytes = b"$5\r\nHello\r\n".to_vec();
    let value = decode(bytes.clone()).unwrap();
    assert_eq!(value, bulk("Hello"));
    assert_eq!(encode(value), bytes);
}

#[test]
fn decode_array_of_bulk_and_integer() {
    let value = decode(b"*2\r\n$3\r\nfoo\r\n:42\r\n".to_vec()).unwrap();
    assert_eq!(value, Value::Array(vec![bulk("foo"), Value::Integer(42)]));
}

#[test]
fn decoder_reads_one_value_after_the_other() {
    let value = Value::BulkString("Hello".to_string());
    let mut bytes = encode(value);
    bytes.extend_from_slice(b":7\r\n");
    let mut decoder = Decoder::new(bytes);
    assert_eq!(decoder.decode().unwrap(), bulk("Hello"));
    assert_eq!(decoder.decode().unwrap(), Value::Integer(7));
    assert_eq!(decoder.decode(), resp_error("unexpected EOF"));
}

#[test]
fn decoder_stays_in_place_after_a_fault() {
    let mut decoder = Decoder::new(b":1\r\n?\r\n".to_vec());
    assert_eq!(decoder.decode(), Ok(Value::Integer(1)));
    assert_eq!(decoder.decode(), resp_error("invalid RESP type"));
    assert_eq!(decoder.decode(), resp_error("invalid RESP type"));
}

#[test]
fn encode_each_kind() {
    assert_eq!(encode(Value::Null), b"_\r\n".to_vec());
    assert_eq!(encode(Value::Error("ERR no".to_string())), b"-ERR no\r\n".to_vec());
    assert_eq!(encode(Value::Integer(0)), b":0\r\n".to_vec());
    assert_eq!(encode(Value::Integer(-42)), b":-42\r\n".to_vec());
    assert_eq!(encode(Value::Integer(i64::MAX)), b":9223372036854775807\r\n".to_vec());
    assert_eq!(encode(Value::Integer(i64::MIN)), b":-9223372036854775808\r\n".to_vec());
    assert_eq!(encode(bulk("")), b"$0\r\n\r\n".to_vec());
    assert_eq!(encode(bulk("h\u{e9}llo")), b"$6\r\nh\xc3\xa9llo\r\n".to_vec());
    assert_eq!(encode(Value::Boolean(true)), b"#t\r\n".to_vec());
    assert_eq!(encode(Value::Boolean(false)), b"#f\r\n".to_vec());
    assert_eq!(encode(Value::BigNumber("123456789012345678901234567890".to_string())),
        b"(123456789012345678901234567890\r\n".to_vec());
    assert_eq!(encode(Value::BulkError("SYNTAX bad".to_string())), b"!10\r\nSYNTAX bad\r\n".to_vec());
    assert_eq!(
        encode(Value::VerbatimString(("txt".to_string(), "Some string".to_string()))),
        b"=15\r\ntxt:Some string\r\n".to_vec()
    );
}

#[test]
fn encode_double_in_lower_case() {
    assert_eq!(encode(Value::Double("1.5".to_string())), b",1.5\r\n".to_vec());
    assert_eq!(encode(Value::Double("NaN".to_string())), b",nan\r\n".to_vec());
    assert_eq!(encode(Value::Double("-INF".to_string())), b",-inf\r\n".to_vec());
    assert_eq!(encode(Value::Double("1E5".to_string())), b",1e5\r\n".to_vec());
}

#[test]
fn encode_aggregates_with_a_line_break_after_the_count() {
    let items = vec![Value::String("a".to_string()), Value::Integer(1)];
    assert_eq!(encode(Value::Array(items.clone())), b"*2\r\n+a\r\n:1\r\n".to_vec());
    assert_eq!(encode(Value::RespSet(items.clone())), b"~2\r\n+a\r\n:1\r\n".to_vec());
    assert_eq!(encode(Value::Push(items)), b">2\r\n+a\r\n:1\r\n".to_vec());
    let pairs = vec![(Value::String("a".to_string()), Value::Integer(1))];
    assert_eq!(encode(Value::RespMap(pairs)), b"%1\r\n+a\r\n:1\r\n".to_vec());
    assert_eq!(encode(Value::Array(vec![])), b"*0\r\n".to_vec());
    assert_eq!(encode(Value::RespMap(vec![])), b"%0\r\n".to_vec());
}

#[test]
fn buf_encode_appends() {
    let mut buf = b"x".to_vec();
    buf_encode(&Value::Integer(12), &mut buf);
    buf_encode(&Value::Null, &mut buf);
    assert_eq!(buf, b"x:12\r\n_\r\n".to_vec());
}

#[test]
fn round_trip_of_each_kind() {
    round_trip(Value::String("OK".to_string()));
    round_trip(Value::String("".to_string()));
    round_trip(Value::Error("ERR unknown command".to_string()));
    round_trip(Value::Integer(0));
    round_trip(Value::Integer(-1));
    round_trip(Value::Integer(i64::MIN));
    round_trip(Value::Integer(i64::MAX));
    round_trip(bulk(""));
    round_trip(bulk("with\r\nline break"));
    round_trip(bulk("h\u{e9}llo \u{1f600}"));
    round_trip(Value::Null);
    round_trip(Value::Boolean(true));
    round_trip(Value::Boolean(false));
    round_trip(Value::Double("3.25".to_string()));
    round_trip(Value::Double("-inf".to_string()));
    round_trip(Value::Double("nan".to_string()));
    round_trip(Value::Double("1e-7".to_string()));
    round_trip(Value::BigNumber("-3492890328409238509324850943850943825024385".to_string()));
    round_trip(Value::BulkError("ERR\r\nwith break".to_string()));
    round_trip(Value::VerbatimString(("txt".to_string(), "a:b:c".to_string())));
    round_trip(Value::VerbatimString(("mkd".to_string(), "".to_string())));
}

#[test]
fn round_trip_of_nested_aggregates() {
    let leaf = Value::Array(vec![bulk("a"), Value::Integer(1), Value::Null]);
    let map = Value::RespMap(vec![
        (bulk("k1"), leaf.clone()),
        (Value::Integer(2), Value::RespSet(vec![Value::Boolean(true), Value::Double("0.5".to_string())])),
    ]);
    let push = Value::Push(vec![bulk("message"), map.clone(), Value::Array(vec![])]);
    let deep = Value::Array(vec![Value::Array(vec![Value::Array(vec![Value::Array(vec![push.clone()])])])]);
    round_trip(leaf);
    round_trip(map);
    round_trip(push);
    round_trip(deep);
    round_trip(Value::Array((0..16).map(Value::Integer).collect()));
}

#[test]
fn decode_then_encode_then_decode() {
    for bytes in [&b",1E5\r\n"[..], b",NaN\r\n", b":+007\r\n", b"$-1\r\n", b"+a\rb\r\n", b"=4\r\nab:c\r\n",
        b"*2\r\n$+1\r\nx\r\n*-1\r\n", b"%1\r\n,-INF\r\n~1\r\n#t\r\n"] {
        let value = decode(bytes.to_vec()).unwrap();
        assert_eq!(decode(encode(value.clone())), Ok(value));
    }
}

#[test]
fn decode_ignores_what_follows_the_value() {
    assert_eq!(decode(b"+OK\r\ngarbage".to_vec()), Ok(Value::String("OK".to_string())));
}

#[test]
fn decode_refuses_an_unknown_type_byte() {
    for first in 0u8..=255 {
        if b"+-:$*_#,(!=%~>".contains(&first) {
            continue;
        }
        let bytes = vec![first, b'1', b'\r', b'\n'];
        let result = decode(bytes);
        if first == b'\n' {
            assert_eq!(result, resp_error("invalid CRLF"));
        } else {
            assert_eq!(result, resp_error("invalid RESP type"));
        }
    }
}

#[test]
fn decode_refuses_lengths_out_of_range() {
    assert_eq!(decode(b"$536870912\r\n".to_vec()), resp_error("invalid length"));
    assert_eq!(decode(b"$536870913\r\nabc\r\n".to_vec()), resp_error("invalid length"));
    assert_eq!(decode(b"$-2\r\n".to_vec()), resp_error("invalid length"));
    assert_eq!(decode(b"*536870912\r\n".to_vec()), resp_error("invalid length"));
    assert_eq!(decode(b"*-2\r\n".to_vec()), resp_error("invalid length"));
    assert_eq!(decode(b"!-1\r\n".to_vec()), resp_error("invalid length"));
    assert_eq!(decode(b"=-1\r\n".to_vec()), resp_error("invalid length"));
    assert_eq!(decode(b"%-1\r\n".to_vec()), resp_error("invalid length"));
    assert_eq!(decode(b"~-1\r\n".to_vec()), resp_error("invalid length"));
    assert_eq!(decode(b">-1\r\n".to_vec()), resp_error("invalid length"));
    assert_eq!(decode(b"%536870912\r\n".to_vec()), resp_error("invalid length"));
    assert_eq!(decode(b"$99999999999999999999\r\n".to_vec()), resp_error("invalid integer"));
}

#[test]
fn decode_accepts_a_length_under_the_bound_given_the_payload() {
    assert_eq!(decode(b"$536870911\r\nabc\r\n".to_vec()), resp_error("unexpected EOF"));
    let size = 1 << 20;
    let mut bytes = format!("${}\r\n", size).into_bytes();
    bytes.extend(std::iter::repeat(b'a').take(size));
    bytes.extend_from_slice(b"\r\n");
    assert_eq!(decode(bytes), Ok(bulk(&"a".repeat(size))));
}

#[test]
fn decode_refuses_a_bare_line_feed_or_carriage_return() {
    assert_eq!(decode(b"+OK\n".to_vec()), resp_error("invalid CRLF"));
    assert_eq!(decode(b"+OK\r".to_vec()), resp_error("invalid CRLF"));
    assert_eq!(decode(b"+OK".to_vec()), resp_error("invalid CRLF"));
    assert_eq!(decode(b":1\n\r\n".to_vec()), resp_error("invalid CRLF"));
    assert_eq!(decode(b"\r\n".to_vec()), resp_error("invalid CRLF"));
    assert_eq!(decode(b"$3\r\nabc\n".to_vec()), resp_error("unexpected EOF"));
    assert_eq!(decode(b"$3\r\nabc\n\n".to_vec()), resp_error("invalid CRLF"));
    assert_eq!(decode(b"$3\r\nabcd\r\n".to_vec()), resp_error("invalid CRLF"));
    assert_eq!(decode(b"*1\r\n+OK\n".to_vec()), resp_error("invalid CRLF"));
}

#[test]
fn decode_reads_every_form_of_null() {
    assert_eq!(decode(b"_\r\n".to_vec()), Ok(Value::Null));
    assert_eq!(decode(b"$-1\r\n".to_vec()), Ok(Value::Null));
    assert_eq!(decode(b"*-1\r\n".to_vec()), Ok(Value::Null));
    assert_eq!(decode(b"_x\r\n".to_vec()), resp_error("invalid RESP null"));
}

#[test]
fn decode_reports_each_fault() {
    assert_eq!(decode(vec![]), resp_error("unexpected EOF"));
    assert_eq!(decode(b"+\xff\r\n".to_vec()), resp_error("invalid UTF-8"));
    assert_eq!(decode(b"$2\r\n\xc3\x28\r\n".to_vec()), resp_error("invalid UTF-8"));
    assert_eq!(decode(b":12a\r\n".to_vec()), resp_error("invalid integer"));
    assert_eq!(decode(b":\r\n".to_vec()), resp_error("invalid integer"));
    assert_eq!(decode(b"#x\r\n".to_vec()), resp_error("invalid RESP boolean"));
    assert_eq!(decode(b"#\r\n".to_vec()), resp_error("invalid RESP boolean"));
    assert_eq!(decode(b"#tf\r\n".to_vec()), resp_error("invalid RESP boolean"));
    assert_eq!(decode(b",abc\r\n".to_vec()), resp_error("invalid double"));
    assert_eq!(decode(b"=3\r\nabc\r\n".to_vec()), resp_error("invalid verbatim string, missing encoding"));
    assert_eq!(decode(b"=5\r\n\xfftxt:\r\n".to_vec()), resp_error("invalid UTF-8"));
    assert_eq!(decode(b"*2\r\n:1\r\n".to_vec()), resp_error("unexpected EOF"));
    assert_eq!(decode(b"%1\r\n:1\r\n".to_vec()), resp_error("unexpected EOF"));
    assert_eq!(decode(b"*2\r\n:1\r\n#x\r\n".to_vec()), resp_error("invalid RESP boolean"));
}

#[test]
fn decode_reads_integers_as_the_wire_may_write_them() {
    assert_eq!(decode(b":+5\r\n".to_vec()), Ok(Value::Integer(5)));
    assert_eq!(decode(b":-0\r\n".to_vec()), Ok(Value::Integer(0)));
    assert_eq!(decode(b":007\r\n".to_vec()), Ok(Value::Integer(7)));
    assert_eq!(decode(b":-9223372036854775808\r\n".to_vec()), Ok(Value::Integer(i64::MIN)));
    assert_eq!(decode(b":9223372036854775807\r\n".to_vec()), Ok(Value::Integer(i64::MAX)));
    assert_eq!(decode(b":9223372036854775808\r\n".to_vec()), resp_error("invalid integer"));
    assert_eq!(decode(b":-9223372036854775809\r\n".to_vec()), resp_error("invalid integer"));
    assert_eq!(decode(b":-\r\n".to_vec()), resp_error("invalid integer"));
    assert_eq!(decode(b":+\r\n".to_vec()), resp_error("invalid integer"));
    assert_eq!(decode(b":1 \r\n".to_vec()), resp_error("invalid integer"));
    assert_eq!(decode(b"$+3\r\nabc\r\n".to_vec()), Ok(bulk("abc")));
}

#[test]
fn decode_reads_doubles() {
    for text in ["1", "1.5", "-1.5", "+1.5", ".5", "5.", "1e5", "1E5", "1e+5", "1.5e-3", "inf", "-inf",
        "+inf", "nan", "NaN", "Infinity", "-INFINITY", "007.50"] {
        let mut bytes = vec![b','];
        bytes.extend_from_slice(text.as_bytes());
        bytes.extend_from_slice(b"\r\n");
        assert_eq!(decode(bytes), Ok(Value::Double(text.to_lowercase())), "{}", text);
        assert!(text.parse::<f64>().is_ok(), "{}", text);
    }
    for text in ["", ".", "+", "-", "e5", "1e", "1e+", "1.5.2", "abc", "1 ", " 1", "--1", "infinit", "nane", "1ee5",
        "0x10", "1_000", "1f"] {
        let mut bytes = vec![b','];
        bytes.extend_from_slice(text.as_bytes());
        bytes.extend_from_slice(b"\r\n");
        assert_eq!(decode(bytes), resp_error("invalid double"), "{}", text);
        assert!(text.parse::<f64>().is_err(), "{}", text);
    }
}

#[test]
fn decode_reads_each_other_kind() {
    assert_eq!(decode(b"-ERR no\r\n".to_vec()), Ok(Value::Error("ERR no".to_string())));
    assert_eq!(decode(b"+a\rb\r\n".to_vec()), Ok(Value::String("a\rb".to_string())));
    assert_eq!(decode(b"#t\r\n".to_vec()), Ok(Value::Boolean(true)));
    assert_eq!(decode(b"#f\r\n".to_vec()), Ok(Value::Boolean(false)));
    assert_eq!(decode(b"(-12345678901234567890123\r\n".to_vec()),
        Ok(Value::BigNumber("-12345678901234567890123".to_string())));
    assert_eq!(decode(b"!5\r\nERR x\r\n".to_vec()), Ok(Value::BulkError("ERR x".to_string())));
    assert_eq!(decode(b"=9\r\ntxt:a:b:c\r\n".to_vec()),
        Ok(Value::VerbatimString(("txt".to_string(), "a:b:c".to_string()))));
    assert_eq!(decode(b"=1\r\n:\r\n".to_vec()), Ok(Value::VerbatimString(("".to_string(), "".to_string()))));
    assert_eq!(decode(b"%1\r\n+a\r\n:1\r\n".to_vec()),
        Ok(Value::RespMap(vec![(Value::String("a".to_string()), Value::Integer(1))])));
    assert_eq!(decode(b"~2\r\n:1\r\n:1\r\n".to_vec()), Ok(Value::RespSet(vec![Value::Integer(1), Value::Integer(1)])));
    assert_eq!(decode(b">1\r\n$1\r\nx\r\n".to_vec()), Ok(Value::Push(vec![bulk("x")])));
    assert_eq!(decode(b"*0\r\n".to_vec()), Ok(Value::Array(vec![])));
    assert_eq!(decode(b"$0\r\n\r\n".to_vec()), Ok(bulk("")));
    assert_eq!(decode(b"$6\r\nh\xc3\xa9llo\r\n".to_vec()), Ok(bulk("h\u{e9}llo")));
}

#[test]
fn helpers_of_the_decoder() {
    assert!(is_crlf(b'\r', b'\n'));
    assert!(!is_crlf(b'\n', b'\r'));
    assert!(!is_crlf(b'\r', b'\r'));
    assert_eq!(parse_string(b"h\xc3\xa9"), Ok("h\u{e9}".to_string()));
    assert_eq!(parse_string(b"\xc3"), Err(Fault::InvalidUtf8));
    assert_eq!(parse_integer(b"-12"), Ok(-12));
    assert_eq!(parse_integer(b"1.0"), Err(Fault::InvalidInteger));
    assert_eq!(
        Fault::MissingEncoding.to_error(),
        Error::Resp("invalid verbatim string, missing encoding".to_string())
    );
    assert!(Fault::UnterminatedLine.is_starved());
    assert!(Fault::UnexpectedEof.is_starved());
    assert!(!Fault::InvalidCrlf.is_starved());
}

#[test]
fn clone_keeps_the_value() {
    let value = Value::RespMap(vec![(bulk("k"), Value::Array(vec![Value::Integer(1), Value::Null]))]);
    assert_eq!(value.clone(), value);
}

#[test]
fn error_message() {
    assert_eq!(Error::Valkey("ERR x".to_string()).message(), "ERR x");
    assert_eq!(Error::Client("c".to_string()).message(), "c");
    assert_eq!(Error::Resp("r".to_string()).message(), "r");
}

#[test]
fn well_formed_values() {
    let good = [
        Value::String("OK".to_string()),
        Value::Error("".to_string()),
        Value::Integer(i64::MIN),
        bulk("any\r\nthing"),
        Value::Null,
        Value::Boolean(false),
        Value::Double("1.5e3".to_string()),
        Value::Double("-inf".to_string()),
        Value::BigNumber("12".to_string()),
        Value::BulkError("a\nb".to_string()),
        Value::VerbatimString(("txt".to_string(), "a:b".to_string())),
        Value::VerbatimString(("t\u{e9}t".to_string(), "".to_string())),
        Value::Array(vec![Value::Null, Value::RespMap(vec![(bulk("k"), Value::Push(vec![Value::Integer(1)]))])]),
        Value::RespSet(vec![]),
    ];
    for value in good {
        assert!(value.is_well_formed(), "{:?}", value);
        assert_eq!(decode(encode(value.clone())), Ok(value));
    }
    let bad = [
        Value::String("a\nb".to_string()),
        Value::String("a\rb".to_string()),
        Value::Error("\n".to_string()),
        Value::BigNumber("1\r\n".to_string()),
        Value::Double("1E5".to_string()),
        Value::Double("NaN".to_string()),
        Value::Double("one".to_string()),
        Value::Double("".to_string()),
        Value::VerbatimString(("text".to_string(), "a".to_string())),
        Value::VerbatimString(("t:t".to_string(), "a".to_string())),
        Value::VerbatimString(("".to_string(), "a".to_string())),
        Value::Array(vec![Value::Null, Value::String("\n".to_string())]),
        Value::RespMap(vec![(Value::Null, Value::Double("x".to_string()))]),
        Value::RespMap(vec![(Value::String("\r".to_string()), Value::Null)]),
        Value::RespSet(vec![Value::Push(vec![Value::Error("\n".to_string())])]),
    ];
    for value in bad {
        assert!(!value.is_well_formed(), "{:?}", value);
    }
}

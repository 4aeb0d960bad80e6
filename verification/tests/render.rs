use valkey_ops::resp::render::{push_text, render_into};
use valkey_ops::resp::value::Value;

fn bulk(text: &str) -> Value {
    Value::BulkString(text.to_string())
}

fn simple(text: &str) -> Value {
    Value::String(text.to_string())
}

#[test]
fn render_values_that_are_no_aggregates() {
    assert_eq!(simple("OK").render(), "OK");
    assert_eq!(simple("").render(), "");
    assert_eq!(Value::Error("ERR no".to_string()).render(), "(error) ERR no");
    assert_eq!(Value::Integer(42).render(), "(integer) 42");
    assert_eq!(Value::Integer(-7).render(), "(integer) -7");
    assert_eq!(Value::Integer(i64::MIN).render(), "(integer) -9223372036854775808");
    assert_eq!(bulk("Hello").render(), "\"Hello\"");
    assert_eq!(bulk("h\u{e9}llo \u{1f600}").render(), "\"h\u{e9}llo \u{1f600}\"");
    assert_eq!(bulk("two\nlines").render(), "\"two\nlines\"");
    assert_eq!(Value::Null.render(), "(nil)");
    assert_eq!(Value::Boolean(true).render(), "(true)");
    assert_eq!(Value::Boolean(false).render(), "(false)");
    assert_eq!(Value::Double("1.5".to_string()).render(), "(double) 1.5");
    assert_eq!(Value::BigNumber("123".to_string()).render(), "(number) 123");
    assert_eq!(Value::BulkError("SYNTAX".to_string()).render(), "(error) SYNTAX");
    assert_eq!(Value::VerbatimString(("txt".to_string(), "Some text".to_string())).render(), "Some text");
}

#[test]
fn render_empty_aggregates() {
    assert_eq!(Value::Array(vec![]).render(), "(empty array)");
    assert_eq!(Value::RespMap(vec![]).render(), "(empty map)");
    assert_eq!(Value::RespSet(vec![]).render(), "(empty set)");
    assert_eq!(Value::Push(vec![]).render(), "(empty push)");
}

#[test]
fn render_numbers_the_items() {
    let items = vec![bulk("a"), Value::Integer(1), Value::Null];
    assert_eq!(Value::Array(items.clone()).render(), "1) \"a\"\n2) (integer) 1\n3) (nil)");
    assert_eq!(Value::Push(items.clone()).render(), "1) \"a\"\n2) (integer) 1\n3) (nil)");
    assert_eq!(Value::RespSet(items).render(), "1~ \"a\"\n2~ (integer) 1\n3~ (nil)");
    let pairs = vec![(bulk("k"), bulk("v")), (simple("n"), Value::Integer(2))];
    assert_eq!(Value::RespMap(pairs).render(), "1# \"k\" => \"v\"\n2# n => (integer) 2");
}

#[test]
fn render_aligns_the_numbers_to_the_right() {
    let items: Vec<Value> = (1..=10).map(Value::Integer).collect();
    let text = Value::Array(items).render();
    let lines: Vec<&str> = text.split('\n').collect();
    assert_eq!(lines.len(), 10);
    assert_eq!(lines[0], " 1) (integer) 1");
    assert_eq!(lines[8], " 9) (integer) 9");
    assert_eq!(lines[9], "10) (integer) 10");
    let many: Vec<Value> = (0..100).map(|_| Value::Null).collect();
    let text = Value::RespSet(many).render();
    let lines: Vec<&str> = text.split('\n').collect();
    assert_eq!(lines[0], "  1~ (nil)");
    assert_eq!(lines[41], " 42~ (nil)");
    assert_eq!(lines[99], "100~ (nil)");
}

#[test]
fn render_indents_what_is_nested() {
    let inner = Value::Array(vec![bulk("a"), bulk("b")]);
    let outer = Value::Array(vec![inner.clone(), bulk("c")]);
    assert_eq!(outer.render(), "1) 1) \"a\"\n   2) \"b\"\n2) \"c\"");
    let map = Value::RespMap(vec![(bulk("key"), inner)]);
    let indent = " ".repeat("1# \"key\" => ".len());
    assert_eq!(indent.len(), 12);
    assert_eq!(map.render(), format!("1# \"key\" => 1) \"a\"\n{}2) \"b\"", indent));
    let deep = Value::Array(vec![outer]);
    assert_eq!(deep.render(), "1) 1) 1) \"a\"\n      2) \"b\"\n   2) \"c\"");
}

#[test]
fn render_splits_the_text_of_an_item_into_lines() {
    let items = vec![bulk("one\r\ntwo\nthree"), simple("x\n"), simple("y\r"), simple("\n\nz")];
    assert_eq!(
        Value::Array(items).render(),
        "1) \"one\n   two\n   three\"\n2) x\n3) y\r\n4) \n   \n   z"
    );
    let empty = vec![simple(""), simple("x"), simple("")];
    assert_eq!(Value::Array(empty).render(), "\n2) x\n");
}

#[test]
fn render_indents_by_the_bytes_before_the_first_line() {
    let inner = Value::Array(vec![bulk("a"), bulk("b")]);
    let map = Value::RespMap(vec![(simple("cl\u{e9}"), inner)]);
    let prefix = "1# cl\u{e9} => ";
    assert_eq!(prefix.len(), 11);
    assert_eq!(prefix.chars().count(), 10);
    assert_eq!(map.render(), format!("{}1) \"a\"\n{}2) \"b\"", prefix, " ".repeat(11)));
}

#[test]
fn render_into_appends() {
    let mut out: Vec<char> = vec!['>'];
    push_text(&mut out, " h\u{e9} ");
    render_into(&Value::Integer(3), &mut out);
    let text: String = out.into_iter().collect();
    assert_eq!(text, "> h\u{e9} (integer) 3");
}

//! Values as text for a human reader.
//!
//! A value that is no aggregate is shown on its own: a simple string as it
//! is, a bulk string in quotes, the others behind a word in brackets that
//! names their kind. The items of an aggregate are numbered from 1, one
//! below the other; where the text of an item has several lines, the lines
//! behind the first are indented by a space for each byte that stands
//! before the first.

use vstd::prelude::*;
use crate::resp::decimal::{decimal_text, digits};
use crate::resp::text::{lemma_utf8_len_push, utf8_len, utf8_width};
use crate::resp::value::{frame_pairs, frames, Frame, Value};

verus! {

/// A run of `n` spaces; none where `n` is not positive.
pub open spec fn spaces(n: int) -> Seq<char> {
    Seq::new(
        if n > 0 {
            n as nat
        } else {
            0
        },
        |i: int| ' ',
    )
}

/// The number `n`, moved to the right by spaces to fill `width` characters.
pub open spec fn numbered(n: int, width: int) -> Seq<char> {
    spaces(width - decimal_text(n).len()) + decimal_text(n)
}

/// Whether the first line feed of `t` stands at `at`.
pub open spec fn first_break(t: Seq<char>, at: int) -> bool {
    &&& 0 <= at < t.len()
    &&& t[at] == '\n'
    &&& forall|j: int| 0 <= j < at ==> t[j] != '\n'
}

/// A line without the carriage return at its end, if it has one there.
pub open spec fn trim_cr(line: Seq<char>) -> Seq<char> {
    if line.len() > 0 && line.last() == '\r' {
        line.drop_last()
    } else {
        line
    }
}

/// The lines of a text. A line feed ends a line, and so does a carriage
/// return with a line feed behind it; the last line needs neither. An empty
/// text has no line.
pub open spec fn lines_of(t: Seq<char>) -> Seq<Seq<char>>
    decreases t.len(),
{
    if t.len() == 0 {
        Seq::empty()
    } else if exists|at: int| first_break(t, at) {
        let at = choose|at: int| first_break(t, at);
        seq![trim_cr(t.take(at))] + lines_of(t.skip(at + 1))
    } else {
        seq![t]
    }
}

/// Lines one below the other: the first behind `prefix`, each other one
/// behind as many spaces as `prefix` takes bytes in UTF-8.
pub open spec fn block(prefix: Seq<char>, lines: Seq<Seq<char>>) -> Seq<char>
    decreases lines.len(),
{
    if lines.len() == 0 {
        Seq::empty()
    } else {
        block(prefix, lines.drop_last()) + (if lines.len() == 1 {
            prefix
        } else {
            seq!['\n'] + spaces(utf8_len(prefix) as int)
        }) + lines.last()
    }
}

/// Blocks one below the other.
pub open spec fn stack(blocks: Seq<Seq<char>>) -> Seq<char>
    decreases blocks.len(),
{
    if blocks.len() == 0 {
        Seq::empty()
    } else {
        stack(blocks.drop_last()) + (if blocks.len() == 1 {
            Seq::empty()
        } else {
            seq!['\n']
        }) + blocks.last()
    }
}

/// How wide the numbers of `count` items are: as wide as `count` itself.
pub open spec fn number_width(count: int) -> int {
    decimal_text(count).len() as int
}

/// The text that shows a value.
pub open spec fn display(f: Frame) -> Seq<char>
    decreases f,
{
    match f {
        Frame::String(t) => t,
        Frame::Error(t) => "(error) "@ + t,
        Frame::Integer(n) => "(integer) "@ + decimal_text(n),
        Frame::BulkString(t) => "\""@ + t + "\""@,
        Frame::Array(items) => if items.len() == 0 {
            "(empty array)"@
        } else {
            stack(item_blocks(items, ") "@))
        },
        Frame::Null => "(nil)"@,
        Frame::Boolean(b) => if b {
            "(true)"@
        } else {
            "(false)"@
        },
        Frame::Double(t) => "(double) "@ + t,
        Frame::BigNumber(t) => "(number) "@ + t,
        Frame::BulkError(t) => "(error) "@ + t,
        Frame::VerbatimString(_, t) => t,
        Frame::RespMap(pairs) => if pairs.len() == 0 {
            "(empty map)"@
        } else {
            stack(pair_blocks(pairs))
        },
        Frame::RespSet(items) => if items.len() == 0 {
            "(empty set)"@
        } else {
            stack(item_blocks(items, "~ "@))
        },
        Frame::Push(items) => if items.len() == 0 {
            "(empty push)"@
        } else {
            stack(item_blocks(items, ") "@))
        },
    }
}

/// The block of each item: its number and `mark`, then its text.
pub open spec fn item_blocks(items: Seq<Frame>, mark: Seq<char>) -> Seq<Seq<char>>
    decreases items,
{
    Seq::new(
        items.len(),
        |i: int|
            if 0 <= i < items.len() {
                block(numbered(i + 1, number_width(items.len() as int)) + mark, lines_of(display(items[i])))
            } else {
                Seq::empty()
            },
    )
}

/// What stands before the value of a pair: its number, `# `, the text of
/// its key, and an arrow.
pub open spec fn pair_prefix(at: int, count: int, key: Seq<char>) -> Seq<char> {
    numbered(at + 1, number_width(count)) + "# "@ + key + " => "@
}

/// The block of each pair: its number and its key, then the text of its
/// value.
pub open spec fn pair_blocks(pairs: Seq<(Frame, Frame)>) -> Seq<Seq<char>>
    decreases pairs,
{
    Seq::new(
        pairs.len(),
        |i: int|
            if 0 <= i < pairs.len() {
                block(
                    pair_prefix(i, pairs.len() as int, display(pairs[i].0)),
                    lines_of(display(pairs[i].1)),
                )
            } else {
                Seq::empty()
            },
    )
}

/// Appends the characters of `text` to `out`.
pub fn push_text(out: &mut Vec<char>, text: &str)
    ensures
        final(out)@ == old(out)@ + text@,
{
    for c in it: text.chars()
        invariant
            out@ == old(out)@ + text@.take(it.index() as int),
            it.seq() == text@,
    {
        out.push(c);
        proof {
            assert(text@.take(it.index() + 1) =~= text@.take(it.index() as int).push(c));
        }
    }
    proof {
        assert(text@.take(text@.len() as int) =~= text@);
    }
}

/// Appends the characters `chars[from..to]` to `out`.
fn push_range(out: &mut Vec<char>, chars: &Vec<char>, from: usize, to: usize)
    requires
        from <= to <= chars@.len(),
    ensures
        final(out)@ == old(out)@ + chars@.subrange(from as int, to as int),
{
    let mut i: usize = from;
    while i < to
        invariant
            from <= i <= to <= chars@.len(),
            out@ == old(out)@ + chars@.subrange(from as int, i as int),
        decreases to - i,
    {
        out.push(chars[i]);
        proof {
            assert(chars@.subrange(from as int, i + 1) =~= chars@.subrange(from as int, i as int).push(
                chars@[i as int],
            ));
        }
        i = i + 1;
    }
}

/// Appends as many spaces to `out` as `text` takes bytes in UTF-8.
fn push_indent(out: &mut Vec<char>, text: &Vec<char>)
    ensures
        final(out)@ == old(out)@ + spaces(utf8_len(text@) as int),
{
    let mut i: usize = 0;
    proof {
        assert(text@.take(0) =~= Seq::<char>::empty());
        assert(old(out)@ + spaces(utf8_len(text@.take(0)) as int) =~= old(out)@);
    }
    while i < text.len()
        invariant
            i <= text@.len(),
            out@ == old(out)@ + spaces(utf8_len(text@.take(i as int)) as int),
        decreases text@.len() - i,
    {
        let ghost before = out@;
        let ghost done = utf8_len(text@.take(i as int)) as int;
        let width: usize = utf8_width(text[i]);
        push_spaces(out, width);
        proof {
            lemma_utf8_len_push(text@.take(i as int), text@[i as int]);
            assert(text@.take(i + 1) =~= text@.take(i as int).push(text@[i as int]));
            assert(spaces(done) + spaces(width as int) =~= spaces(done + width));
            assert(out@ =~= old(out)@ + spaces(done + width));
        }
        i = i + 1;
    }
    proof {
        assert(text@.take(i as int) =~= text@);
    }
}

/// Appends `n` spaces to `out`.
fn push_spaces(out: &mut Vec<char>, n: usize)
    ensures
        final(out)@ == old(out)@ + spaces(n as int),
{
    let mut i: usize = 0;
    while i < n
        invariant
            i <= n,
            out@ == old(out)@ + spaces(i as int),
        decreases n - i,
    {
        out.push(' ');
        proof {
            assert(spaces(i + 1) =~= spaces(i as int).push(' '));
        }
        i = i + 1;
    }
    proof {
        assert(old(out)@ + spaces(0) =~= old(out)@);
    }
}

/// Appends the decimal text of `n` to `out`.
fn push_number(out: &mut Vec<char>, n: u64)
    ensures
        final(out)@ == old(out)@ + decimal_text(n as int),
        final(out)@.len() == old(out)@.len() + digits(n as nat).len(),
    decreases n,
{
    if n >= 10 {
        push_number(out, n / 10);
    }
    let d: u8 = 48u8 + (n % 10) as u8;
    out.push(d as char);
    proof {
        assert(decimal_text(n as int) =~= digits(n as nat).map_values(|b: u8| b as char));
        if n >= 10 {
            assert(decimal_text((n / 10) as int) =~= digits((n / 10) as nat).map_values(|b: u8| b as char));
        }
        assert(out@ =~= old(out)@ + decimal_text(n as int));
    }
}

/// Appends `n`, moved to the right to fill the width of `count`, to `out`.
fn push_numbered(out: &mut Vec<char>, n: u64, count: u64)
    ensures
        final(out)@ == old(out)@ + numbered(n as int, number_width(count as int)),
{
    let mut wide: Vec<char> = Vec::new();
    push_number(&mut wide, count);
    let mut text: Vec<char> = Vec::new();
    push_number(&mut text, n);
    let gap: usize = if wide.len() > text.len() {
        wide.len() - text.len()
    } else {
        0
    };
    push_spaces(out, gap);
    push_range(out, &text, 0, text.len());
    proof {
        assert(wide@ =~= decimal_text(count as int));
        assert(text@ =~= decimal_text(n as int));
        assert(text@.subrange(0, text@.len() as int) =~= text@);
        assert(spaces(gap as int) =~= spaces(number_width(count as int) - decimal_text(n as int).len()));
        assert(out@ =~= old(out)@ + numbered(n as int, number_width(count as int)));
    }
}

/// The lines of a text are its first line and the lines of what follows
/// the line feed that ends it.
proof fn lemma_lines_of_step(t: Seq<char>, at: int)
    requires
        first_break(t, at),
    ensures
        lines_of(t) == seq![trim_cr(t.take(at))] + lines_of(t.skip(at + 1)),
{
    let chosen = choose|c: int| first_break(t, c);
    assert(chosen == at);
}

/// Appends the lines of `text` to `out`, one below the other: the first
/// behind `prefix`, the others indented as far.
fn push_block(out: &mut Vec<char>, prefix: &Vec<char>, text: &Vec<char>)
    ensures
        final(out)@ == old(out)@ + block(prefix@, lines_of(text@)),
{
    let len: usize = text.len();
    let mut start: usize = 0;
    let mut first: bool = true;
    let ghost mut done: Seq<Seq<char>> = Seq::empty();
    proof {
        assert(text@.skip(0) =~= text@);
        assert(done + lines_of(text@.skip(0)) =~= lines_of(text@));
        assert(old(out)@ + block(prefix@, done) =~= old(out)@);
    }
    while start < len
        invariant
            start <= len,
            len == text@.len(),
            first == (done.len() == 0),
            done + lines_of(text@.skip(start as int)) == lines_of(text@),
            out@ == old(out)@ + block(prefix@, done),
        decreases len - start,
    {
        let ghost rest = text@.skip(start as int);
        let mut end: usize = start;
        while end < len && text[end] != '\n'
            invariant
                start <= end <= len,
                len == text@.len(),
                forall|j: int| start <= j < end ==> text@[j] != '\n',
            decreases len - end,
        {
            end = end + 1;
        }
        let broken: bool = end < len;
        let stop: usize = if broken && end > start && text[end - 1] == '\r' {
            end - 1
        } else {
            end
        };
        let ghost line = text@.subrange(start as int, stop as int);
        proof {
            if broken {
                assert(first_break(rest, end - start)) by {
                    assert forall|j: int| 0 <= j < end - start implies rest[j] != '\n' by {
                        assert(rest[j] == text@[start + j]);
                    }
                }
                lemma_lines_of_step(rest, end - start);
                assert(rest.take(end - start) =~= text@.subrange(start as int, end as int));
                assert(trim_cr(rest.take(end - start)) =~= line);
                assert(rest.skip(end - start + 1) =~= text@.skip(end + 1));
            } else {
                assert forall|at: int| !first_break(rest, at) by {
                    if 0 <= at < rest.len() {
                        assert(rest[at] == text@[start + at]);
                    }
                }
                assert(rest =~= line);
                assert(text@.skip(len as int) =~= Seq::<char>::empty());
                assert(lines_of(text@.skip(len as int)) =~= Seq::<Seq<char>>::empty());
                assert(lines_of(rest) =~= seq![line] + lines_of(text@.skip(len as int)));
            }
        }
        if first {
            push_range(out, prefix, 0, prefix.len());
            proof {
                assert(prefix@.subrange(0, prefix@.len() as int) =~= prefix@);
            }
        } else {
            out.push('\n');
            push_indent(out, prefix);
        }
        push_range(out, text, start, stop);
        let next: usize = if broken {
            end + 1
        } else {
            len
        };
        proof {
            let more = done.push(line);
            assert(more.drop_last() =~= done);
            assert(out@ =~= old(out)@ + block(prefix@, more));
            assert(more + lines_of(text@.skip(next as int)) =~= done + (seq![line] + lines_of(
                text@.skip(next as int),
            )));
            done = more;
        }
        first = false;
        start = next;
    }
    proof {
        assert(text@.skip(len as int) =~= Seq::<char>::empty());
        assert(done + lines_of(text@.skip(len as int)) =~= done);
    }
}

/// Appends the text that shows `value` to `out`.
pub fn render_into(value: &Value, out: &mut Vec<char>)
    ensures
        final(out)@ == old(out)@ + display(value@),
    decreases value,
{
    match value {
        Value::String(t) => push_text(out, t.as_str()),
        Value::Error(t) => {
            push_text(out, "(error) ");
            push_text(out, t.as_str());
        },
        Value::Integer(n) => {
            push_text(out, "(integer) ");
            push_text(out, crate::resp::decimal::decimal_string(*n).as_str());
        },
        Value::BulkString(t) => {
            push_text(out, "\"");
            push_text(out, t.as_str());
            push_text(out, "\"");
        },
        Value::Array(items) => {
            if items.len() == 0 {
                push_text(out, "(empty array)");
            } else {
                render_items(items, ") ", out);
            }
        },
        Value::Null => push_text(out, "(nil)"),
        Value::Boolean(b) => {
            if *b {
                push_text(out, "(true)");
            } else {
                push_text(out, "(false)");
            }
        },
        Value::Double(t) => {
            push_text(out, "(double) ");
            push_text(out, t.as_str());
        },
        Value::BigNumber(t) => {
            push_text(out, "(number) ");
            push_text(out, t.as_str());
        },
        Value::BulkError(t) => {
            push_text(out, "(error) ");
            push_text(out, t.as_str());
        },
        Value::VerbatimString(pair) => push_text(out, pair.1.as_str()),
        Value::RespMap(pairs) => {
            if pairs.len() == 0 {
                push_text(out, "(empty map)");
            } else {
                render_pairs(pairs, out);
            }
        },
        Value::RespSet(items) => {
            if items.len() == 0 {
                push_text(out, "(empty set)");
            } else {
                render_items(items, "~ ", out);
            }
        },
        Value::Push(items) => {
            if items.len() == 0 {
                push_text(out, "(empty push)");
            } else {
                render_items(items, ") ", out);
            }
        },
    }
    proof {
        assert(out@ =~= old(out)@ + display(value@));
    }
}

/// Appends the numbered items to `out`, one below the other.
fn render_items(items: &Vec<Value>, mark: &str, out: &mut Vec<char>)
    ensures
        final(out)@ == old(out)@ + stack(item_blocks(frames(items@), mark@)),
    decreases items,
{
    let ghost blocks = item_blocks(frames(items@), mark@);
    let count: usize = items.len();
    let mut i: usize = 0;
    proof {
        assert(old(out)@ + stack(blocks.take(0)) =~= old(out)@);
    }
    while i < count
        invariant
            i <= count,
            count == items@.len(),
            blocks == item_blocks(frames(items@), mark@),
            out@ == old(out)@ + stack(blocks.take(i as int)),
        decreases count - i,
    {
        let mut prefix: Vec<char> = Vec::new();
        push_numbered(&mut prefix, (i + 1) as u64, count as u64);
        push_text(&mut prefix, mark);
        let mut text: Vec<char> = Vec::new();
        render_into(&items[i], &mut text);
        if i != 0 {
            out.push('\n');
        }
        push_block(out, &prefix, &text);
        proof {
            assert(prefix@ =~= numbered(i + 1, number_width(count as int)) + mark@);
            assert(text@ =~= display(items@[i as int]@));
            assert(blocks.take(i + 1).drop_last() =~= blocks.take(i as int));
            assert(blocks.take(i + 1).last() == blocks[i as int]);
            assert(out@ =~= old(out)@ + stack(blocks.take(i + 1)));
        }
        i = i + 1;
    }
    proof {
        assert(blocks.take(count as int) =~= blocks);
    }
}

/// Appends the numbered pairs to `out`, one below the other.
fn render_pairs(pairs: &Vec<(Value, Value)>, out: &mut Vec<char>)
    ensures
        final(out)@ == old(out)@ + stack(pair_blocks(frame_pairs(pairs@))),
    decreases pairs,
{
    let ghost blocks = pair_blocks(frame_pairs(pairs@));
    let count: usize = pairs.len();
    let mut i: usize = 0;
    proof {
        assert(old(out)@ + stack(blocks.take(0)) =~= old(out)@);
    }
    while i < count
        invariant
            i <= count,
            count == pairs@.len(),
            blocks == pair_blocks(frame_pairs(pairs@)),
            out@ == old(out)@ + stack(blocks.take(i as int)),
        decreases count - i,
    {
        let mut prefix: Vec<char> = Vec::new();
        push_numbered(&mut prefix, (i + 1) as u64, count as u64);
        push_text(&mut prefix, "# ");
        render_into(&pairs[i].0, &mut prefix);
        push_text(&mut prefix, " => ");
        let mut text: Vec<char> = Vec::new();
        render_into(&pairs[i].1, &mut text);
        if i != 0 {
            out.push('\n');
        }
        push_block(out, &prefix, &text);
        proof {
            assert(prefix@ =~= pair_prefix(i as int, count as int, display(pairs@[i as int].0@)));
            assert(text@ =~= display(pairs@[i as int].1@));
            assert(blocks.take(i + 1).drop_last() =~= blocks.take(i as int));
            assert(blocks.take(i + 1).last() == blocks[i as int]);
            assert(out@ =~= old(out)@ + stack(blocks.take(i + 1)));
        }
        i = i + 1;
    }
    proof {
        assert(blocks.take(count as int) =~= blocks);
    }
}

/// Appends one character to a text.
///
/// Calls `String::push`, which appends the given character to the end of
/// the string.
#[verifier::external_body]
fn push_char(text: &mut String, c: char)
    ensures
        final(text)@ == old(text)@.push(c),
{
    text.push(c)
}

impl Value {
    /// The text that shows the value to a human reader.
    pub fn render(&self) -> (r: String)
        ensures
            r@ == display(self@),
    {
        let mut chars: Vec<char> = Vec::new();
        render_into(self, &mut chars);
        let mut text: String = String::new();
        let mut i: usize = 0;
        while i < chars.len()
            invariant
                i <= chars@.len(),
                text@ == chars@.take(i as int),
            decreases chars@.len() - i,
        {
            push_char(&mut text, chars[i]);
            proof {
                assert(chars@.take(i + 1) =~= chars@.take(i as int).push(chars@[i as int]));
            }
            i = i + 1;
        }
        proof {
            assert(chars@.take(i as int) =~= chars@);
            assert(chars@ =~= display(self@));
        }
        text
    }
}

} // verus!

//! Integers in decimal ASCII, as the wire writes them.

use vstd::prelude::*;
use vstd::string::StringExecFns;

verus! {

/// The ASCII code of `0`.
pub const ZERO: u8 = 48;

/// The ASCII code of `-`.
pub const MINUS: u8 = 45;

/// The ASCII code of `+`.
pub const PLUS: u8 = 43;

/// Whether `b` is an ASCII decimal digit.
pub open spec fn is_digit(b: u8) -> bool {
    48 <= b <= 57
}

/// Whether every byte of `s` is a decimal digit.
pub open spec fn all_digits(s: Seq<u8>) -> bool {
    forall|i: int| 0 <= i < s.len() ==> is_digit(#[trigger] s[i])
}

/// The digits of `n`, most significant first, without leading zeros.
pub open spec fn digits(n: nat) -> Seq<u8>
    decreases n,
{
    if n < 10 {
        seq![(48 + n) as u8]
    } else {
        digits(n / 10).push((48 + n % 10) as u8)
    }
}

/// The decimal text of `n`: a minus sign where `n` is negative, then its digits.
pub open spec fn decimal(n: int) -> Seq<u8> {
    if n < 0 {
        seq![45u8] + digits((-n) as nat)
    } else {
        digits(n as nat)
    }
}

/// The number that a run of digits denotes; leading zeros are allowed.
pub open spec fn digits_value(s: Seq<u8>) -> nat
    decreases s.len(),
{
    if s.len() == 0 {
        0
    } else {
        digits_value(s.drop_last()) * 10 + (s.last() - 48) as nat
    }
}

/// Whether `s` starts with a sign.
pub open spec fn has_sign(s: Seq<u8>) -> bool {
    s.len() > 0 && (s[0] == 45 || s[0] == 43)
}

/// What is left of `s` behind its sign, if it has one.
pub open spec fn unsigned_part(s: Seq<u8>) -> Seq<u8> {
    if has_sign(s) {
        s.skip(1)
    } else {
        s
    }
}

/// The integer that `s` denotes: an optional sign and at least one digit.
/// `None` where `s` has another form.
pub open spec fn signed_value(s: Seq<u8>) -> Option<int> {
    let body = unsigned_part(s);
    if body.len() == 0 || !all_digits(body) {
        None
    } else if s[0] == 45 {
        Some(-(digits_value(body) as int))
    } else {
        Some(digits_value(body) as int)
    }
}

/// The signed 64-bit integer that `s` denotes, `None` where `s` is no
/// integer or the integer does not fit.
pub open spec fn parse_i64(s: Seq<u8>) -> Option<i64> {
    match signed_value(s) {
        Some(v) => if i64::MIN <= v <= i64::MAX {
            Some(v as i64)
        } else {
            None
        },
        None => None,
    }
}

/// The digits of a number are digits, and there is at least one.
pub proof fn lemma_digits_are_digits(n: nat)
    ensures
        digits(n).len() >= 1,
        all_digits(digits(n)),
        n < 10 ==> digits(n).len() == 1,
    decreases n,
{
    if n >= 10 {
        lemma_digits_are_digits(n / 10);
    }
}

/// A number is the value of its digits.
pub proof fn lemma_digits_value(n: nat)
    ensures
        digits_value(digits(n)) == n,
    decreases n,
{
    if n < 10 {
        assert(digits(n).drop_last() =~= Seq::<u8>::empty());
        assert(digits_value(digits(n).drop_last()) == 0);
    } else {
        lemma_digits_value(n / 10);
        assert(digits(n).drop_last() =~= digits(n / 10));
    }
}

/// Reading the decimal text of an integer gives the integer back.
pub proof fn lemma_decimal_round_trip(n: int)
    ensures
        signed_value(decimal(n)) == Some(n),
        decimal(n).len() >= 1,
        forall|i: int| 0 <= i < decimal(n).len() ==> #[trigger] decimal(n)[i] == 45 || is_digit(decimal(n)[i]),
{
    if n < 0 {
        let m = (-n) as nat;
        lemma_digits_are_digits(m);
        lemma_digits_value(m);
        assert(unsigned_part(decimal(n)) =~= digits(m));
    } else {
        lemma_digits_are_digits(n as nat);
        lemma_digits_value(n as nat);
        assert(unsigned_part(decimal(n)) =~= digits(n as nat));
    }
}

/// The value of a run of digits is at least the value of each of its prefixes.
pub proof fn lemma_digits_value_prefix(s: Seq<u8>, k: int)
    requires
        0 <= k <= s.len(),
        all_digits(s),
    ensures
        digits_value(s.take(k)) <= digits_value(s),
    decreases s.len() - k,
{
    if k == s.len() {
        assert(s.take(k) =~= s);
    } else {
        lemma_digits_value_prefix(s, k + 1);
        assert(s.take(k + 1).drop_last() =~= s.take(k));
        assert(is_digit(s[k]));
        assert(s.take(k + 1).last() == s[k]);
    }
}

/// Appends the digits of `n` to `buf`.
pub fn push_digits(buf: &mut Vec<u8>, n: u64)
    ensures
        final(buf)@ == old(buf)@ + digits(n as nat),
    decreases n,
{
    if n >= 10 {
        push_digits(buf, n / 10);
    }
    buf.push(ZERO + (n % 10) as u8);
    proof {
        assert(buf@ =~= old(buf)@ + digits(n as nat));
    }
}

/// Appends the decimal text of `n` to `buf`.
pub fn push_decimal(buf: &mut Vec<u8>, n: i64)
    ensures
        final(buf)@ == old(buf)@ + decimal(n as int),
{
    if n < 0 {
        buf.push(MINUS);
        let magnitude: u64 = if n == i64::MIN {
            9223372036854775808u64
        } else {
            (-n) as u64
        };
        push_digits(buf, magnitude);
        proof {
            assert(buf@ =~= old(buf)@ + decimal(n as int));
        }
    } else {
        push_digits(buf, n as u64);
    }
}

/// Reads a signed 64-bit integer in decimal: an optional sign, then digits.
pub fn parse_decimal(bytes: &[u8]) -> (r: Option<i64>)
    ensures
        r == parse_i64(bytes@),
{
    let len: usize = bytes.len();
    if len == 0 {
        return None;
    }
    let negative: bool = bytes[0] == MINUS;
    let start: usize = if bytes[0] == MINUS || bytes[0] == PLUS {
        1
    } else {
        0
    };
    if start == len {
        return None;
    }
    let ghost body = unsigned_part(bytes@);
    let limit: u64 = if negative {
        9223372036854775808u64
    } else {
        9223372036854775807u64
    };
    let mut acc: u64 = 0;
    let mut too_large: bool = false;
    let mut i: usize = start;
    proof {
        assert(body =~= bytes@.skip(start as int));
        assert(body.take(0) =~= Seq::<u8>::empty());
    }
    while i < len
        invariant
            start <= i <= len,
            start < len,
            len == bytes@.len(),
            body == bytes@.skip(start as int),
            body == unsigned_part(bytes@),
            negative == (bytes@[0] == 45),
            limit == if negative { 9223372036854775808u64 } else { 9223372036854775807u64 },
            forall|j: int| 0 <= j < i - start ==> is_digit(#[trigger] body[j]),
            !too_large ==> acc == digits_value(body.take(i - start)) && acc <= limit,
            too_large ==> digits_value(body.take(i - start)) > limit,
        decreases len - i,
    {
        let b: u8 = bytes[i];
        if b < ZERO || b > ZERO + 9 {
            proof {
                assert(body[i - start] == b);
                assert(!all_digits(body));
            }
            return None;
        }
        let d: u64 = (b - ZERO) as u64;
        proof {
            assert(body[i - start] == b);
            assert(body.take(i - start + 1).drop_last() =~= body.take(i - start));
            assert(body.take(i - start + 1).last() == b);
        }
        if !too_large {
            if acc > (limit - d) / 10 {
                too_large = true;
            } else {
                acc = acc * 10 + d;
            }
        }
        i = i + 1;
    }
    proof {
        assert(body.take(len - start) =~= body);
        assert(all_digits(body));
        if too_large {
            lemma_digits_value_prefix(body, i - start);
        }
    }
    if too_large {
        None
    } else if negative {
        if acc == 9223372036854775808u64 {
            Some(i64::MIN)
        } else {
            Some(-(acc as i64))
        }
    } else {
        Some(acc as i64)
    }
}

/// The decimal text of `n` as characters.
pub open spec fn decimal_text(n: int) -> Seq<char> {
    decimal(n).map_values(|b: u8| b as char)
}

/// The text of one character of a decimal: a digit or the minus sign.
fn decimal_char(b: u8) -> (r: &'static str)
    requires
        b == 45 || is_digit(b),
    ensures
        r@ == seq![b as char],
{
    proof {
        reveal_strlit("-");
        reveal_strlit("0");
        reveal_strlit("1");
        reveal_strlit("2");
        reveal_strlit("3");
        reveal_strlit("4");
        reveal_strlit("5");
        reveal_strlit("6");
        reveal_strlit("7");
        reveal_strlit("8");
        reveal_strlit("9");
    }
    let r: &'static str = if b == MINUS {
        "-"
    } else if b == ZERO {
        "0"
    } else if b == ZERO + 1 {
        "1"
    } else if b == ZERO + 2 {
        "2"
    } else if b == ZERO + 3 {
        "3"
    } else if b == ZERO + 4 {
        "4"
    } else if b == ZERO + 5 {
        "5"
    } else if b == ZERO + 6 {
        "6"
    } else if b == ZERO + 7 {
        "7"
    } else if b == ZERO + 8 {
        "8"
    } else {
        "9"
    };
    proof {
        assert(r@ =~= seq![b as char]);
    }
    r
}

/// The decimal text of `n`.
pub fn decimal_string(n: i64) -> (r: String)
    ensures
        r@ == decimal_text(n as int),
{
    let mut bytes: Vec<u8> = Vec::new();
    push_decimal(&mut bytes, n);
    proof {
        lemma_decimal_round_trip(n as int);
        assert(bytes@ =~= decimal(n as int));
    }
    let mut text: String = String::new();
    let mut i: usize = 0;
    while i < bytes.len()
        invariant
            i <= bytes@.len(),
            bytes@ == decimal(n as int),
            forall|k: int| 0 <= k < bytes@.len() ==> #[trigger] bytes@[k] == 45 || is_digit(bytes@[k]),
            text@ == bytes@.take(i as int).map_values(|b: u8| b as char),
        decreases bytes@.len() - i,
    {
        let b: u8 = bytes[i];
        text.append(decimal_char(b));
        proof {
            assert(bytes@.take(i + 1).map_values(|b: u8| b as char) =~= bytes@.take(i as int).map_values(
                |b: u8| b as char,
            ) + seq![b as char]);
        }
        i = i + 1;
    }
    proof {
        assert(bytes@.take(i as int) =~= bytes@);
    }
    text
}

} // verus!

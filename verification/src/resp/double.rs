//! The decimal text of a floating-point number.
//!
//! The library carries such a number as its text and never computes with
//! it. A text is accepted where it is an optional sign followed by `inf`,
//! `infinity` or `nan` in either case, or by a number: digits with an
//! optional point among them and at least one digit in all, then an optional
//! exponent, which is `e` or `E`, an optional sign and at least one digit.

use vstd::prelude::*;
use vstd::slice::slice_subrange;
use crate::resp::decimal::{all_digits, has_sign, is_digit, unsigned_part, MINUS, PLUS, ZERO};
use crate::resp::text::{lower, lowered, push_lower};

verus! {

/// How many digits stand in `s` from `from` on, before the first byte that
/// is no digit.
pub open spec fn digit_run(s: Seq<u8>, from: int) -> int
    decreases s.len() - from,
{
    if 0 <= from < s.len() && is_digit(s[from]) {
        1 + digit_run(s, from + 1)
    } else {
        0
    }
}

/// Whether `s` is an exponent: `e` or `E`, an optional sign, and digits.
pub open spec fn is_exponent(s: Seq<u8>) -> bool {
    &&& s.len() >= 1
    &&& (s[0] == 101 || s[0] == 69)
    &&& unsigned_part(s.skip(1)).len() >= 1
    &&& all_digits(unsigned_part(s.skip(1)))
}

/// Whether `s` is a number without a sign: digits, an optional point among
/// them, an optional exponent behind them.
pub open spec fn is_number(s: Seq<u8>) -> bool {
    let whole = digit_run(s, 0);
    let has_point = whole < s.len() && s[whole] == 46;
    let fraction = if has_point {
        digit_run(s, whole + 1)
    } else {
        0
    };
    let mantissa = if has_point {
        whole + 1 + fraction
    } else {
        whole
    };
    whole + fraction >= 1 && (mantissa == s.len() || is_exponent(s.skip(mantissa)))
}

/// Whether `s` names infinity or not-a-number, in either case.
pub open spec fn is_special(s: Seq<u8>) -> bool {
    let low = lowered(s);
    ||| low == seq![105u8, 110u8, 102u8]
    ||| low == seq![105u8, 110u8, 102u8, 105u8, 110u8, 105u8, 116u8, 121u8]
    ||| low == seq![110u8, 97u8, 110u8]
}

/// Whether `s` is the text of a floating-point number.
pub open spec fn is_double_text(s: Seq<u8>) -> bool {
    is_special(unsigned_part(s)) || is_number(unsigned_part(s))
}

/// The digits counted by `digit_run` are digits, they end before the end of
/// the text, and the byte behind them is no digit.
pub proof fn lemma_digit_run(s: Seq<u8>, from: int)
    requires
        0 <= from <= s.len(),
    ensures
        0 <= digit_run(s, from) <= s.len() - from,
        forall|i: int| from <= i < from + digit_run(s, from) ==> is_digit(#[trigger] s[i]),
        from + digit_run(s, from) < s.len() ==> !is_digit(s[from + digit_run(s, from)]),
    decreases s.len() - from,
{
    if from < s.len() && is_digit(s[from]) {
        lemma_digit_run(s, from + 1);
    }
}

/// A run of digits that ends at a byte that is no digit, or at the end of
/// the text, is the one that `digit_run` counts.
pub proof fn lemma_digit_run_is(s: Seq<u8>, from: int, n: int)
    requires
        0 <= from,
        0 <= n,
        from + n <= s.len(),
        forall|i: int| from <= i < from + n ==> is_digit(#[trigger] s[i]),
        from + n < s.len() ==> !is_digit(s[from + n]),
    ensures
        digit_run(s, from) == n,
    decreases n,
{
    if n > 0 {
        assert(is_digit(s[from]));
        lemma_digit_run_is(s, from + 1, n - 1);
    }
}

/// The text of a floating-point number is made of ASCII characters, none of
/// which is a line feed.
pub proof fn lemma_double_text(h: Seq<u8>)
    requires
        is_double_text(h),
    ensures
        forall|k: int| 0 <= k < h.len() ==> 32 < #[trigger] h[k] < 128,
{
    let body = unsigned_part(h);
    let shift: int = if has_sign(h) { 1 } else { 0 };
    assert forall|j: int| 0 <= j < body.len() implies 32 < #[trigger] body[j] < 128 by {
        if is_special(body) {
            let low = lowered(body);
            let inf = seq![105u8, 110u8, 102u8];
            let infinity = seq![105u8, 110u8, 102u8, 105u8, 110u8, 105u8, 116u8, 121u8];
            let nan = seq![110u8, 97u8, 110u8];
            assert(low[j] == lower(body[j]));
            assert(low.len() == body.len());
            if low == inf {
                assert(inf[0] == 105 && inf[1] == 110 && inf[2] == 102);
            } else if low == infinity {
                assert(infinity[0] == 105 && infinity[1] == 110 && infinity[2] == 102 && infinity[3] == 105);
                assert(infinity[4] == 110 && infinity[5] == 105 && infinity[6] == 116 && infinity[7] == 121);
            } else {
                assert(nan[0] == 110 && nan[1] == 97 && nan[2] == 110);
            }
        } else {
            let whole = digit_run(body, 0);
            lemma_digit_run(body, 0);
            let has_point = whole < body.len() && body[whole] == 46;
            let fraction = if has_point { digit_run(body, whole + 1) } else { 0 };
            if has_point {
                lemma_digit_run(body, whole + 1);
            }
            let mantissa = if has_point { whole + 1 + fraction } else { whole };
            if j < mantissa {
                if j < whole {
                    assert(is_digit(body[j]));
                } else if j > whole {
                    assert(is_digit(body[j]));
                }
            } else {
                let e = body.skip(mantissa);
                let tail = e.skip(1);
                let run = unsigned_part(tail);
                assert(e[j - mantissa] == body[j]);
                if j > mantissa {
                    assert(tail[j - mantissa - 1] == body[j]);
                    if has_sign(tail) && j > mantissa + 1 {
                        assert(run[j - mantissa - 2] == body[j]);
                        assert(is_digit(run[j - mantissa - 2]));
                    } else if !has_sign(tail) {
                        assert(run[j - mantissa - 1] == body[j]);
                        assert(is_digit(run[j - mantissa - 1]));
                    }
                }
            }
        }
    }
    assert forall|k: int| 0 <= k < h.len() implies 32 < #[trigger] h[k] < 128 by {
        if k >= shift {
            assert(body[k - shift] == h[k]);
        }
    }
}

/// Lower case leaves a run of digits as long as it was.
pub proof fn lemma_digit_run_lowered(s: Seq<u8>, from: int)
    requires
        0 <= from <= s.len(),
    ensures
        digit_run(lowered(s), from) == digit_run(s, from),
    decreases s.len() - from,
{
    if from < s.len() {
        assert(lowered(s)[from] == lower(s[from]));
        if is_digit(s[from]) {
            lemma_digit_run_lowered(s, from + 1);
        }
    }
}

/// Lower case leaves a sign where it was, and what stands behind it.
pub proof fn lemma_unsigned_part_lowered(s: Seq<u8>)
    ensures
        unsigned_part(lowered(s)) == lowered(unsigned_part(s)),
{
    if s.len() > 0 {
        assert(lowered(s)[0] == lower(s[0]));
    }
    assert(unsigned_part(lowered(s)) =~= lowered(unsigned_part(s)));
}

/// The text of a floating-point number is one in lower case too, and lower
/// case changes nothing in a text that is in lower case.
pub proof fn lemma_double_text_lowered(h: Seq<u8>)
    requires
        is_double_text(h),
    ensures
        is_double_text(lowered(h)),
        lowered(lowered(h)) == lowered(h),
{
    assert(lowered(lowered(h)) =~= lowered(h));
    lemma_unsigned_part_lowered(h);
    let body = unsigned_part(h);
    let low = lowered(body);
    assert(lowered(low) =~= low);
    if !is_special(body) {
        let whole = digit_run(body, 0);
        lemma_digit_run(body, 0);
        lemma_digit_run_lowered(body, 0);
        let has_point = whole < body.len() && body[whole] == 46;
        if whole < body.len() {
            assert(low[whole] == lower(body[whole]));
        }
        if has_point {
            lemma_digit_run(body, whole + 1);
            lemma_digit_run_lowered(body, whole + 1);
        }
        let fraction = if has_point { digit_run(body, whole + 1) } else { 0 };
        let mantissa = if has_point { whole + 1 + fraction } else { whole };
        if mantissa != body.len() {
            let e = body.skip(mantissa);
            assert(low.skip(mantissa) =~= lowered(e));
            assert(lowered(e)[0] == lower(e[0]));
            assert(lowered(e).skip(1) =~= lowered(e.skip(1)));
            lemma_unsigned_part_lowered(e.skip(1));
            let run = unsigned_part(e.skip(1));
            assert forall|i: int| 0 <= i < lowered(run).len() implies is_digit(#[trigger] lowered(run)[i]) by {
                assert(is_digit(run[i]));
            }
        }
    }
}

/// Counts the digits that stand in `bytes` from `from` on.
fn count_digits(bytes: &[u8], from: usize) -> (n: usize)
    requires
        from <= bytes@.len(),
    ensures
        n == digit_run(bytes@, from as int),
        from + n <= bytes@.len(),
{
    let mut i: usize = from;
    while i < bytes.len() && ZERO <= bytes[i] && bytes[i] <= ZERO + 9
        invariant
            from <= i <= bytes@.len(),
            forall|j: int| from <= j < i ==> is_digit(#[trigger] bytes@[j]),
        decreases bytes@.len() - i,
    {
        i = i + 1;
    }
    proof {
        lemma_digit_run_is(bytes@, from as int, i - from);
    }
    i - from
}

/// Whether the byte is a sign.
fn is_sign(b: u8) -> (r: bool)
    ensures
        r == (b == 45 || b == 43),
{
    b == MINUS || b == PLUS
}

/// Whether `bytes` are an exponent.
fn check_exponent(bytes: &[u8]) -> (r: bool)
    ensures
        r == is_exponent(bytes@),
{
    let len: usize = bytes.len();
    if len == 0 || !(bytes[0] == 101u8 || bytes[0] == 69u8) {
        return false;
    }
    let start: usize = if len >= 2 && is_sign(bytes[1]) {
        2
    } else {
        1
    };
    let digits: usize = count_digits(bytes, start);
    proof {
        let rest = unsigned_part(bytes@.skip(1));
        lemma_digit_run(bytes@, start as int);
        assert(rest =~= bytes@.skip(start as int));
        if start + digits == len {
            assert forall|i: int| 0 <= i < rest.len() implies is_digit(#[trigger] rest[i]) by {
                assert(rest[i] == bytes@[start + i]);
            }
        } else {
            assert(rest[digits as int] == bytes@[start + digits]);
        }
    }
    digits >= 1 && start + digits == len
}

/// Whether `bytes` are a number without a sign.
fn check_number(bytes: &[u8]) -> (r: bool)
    ensures
        r == is_number(bytes@),
{
    let len: usize = bytes.len();
    let whole: usize = count_digits(bytes, 0);
    let has_point: bool = whole < len && bytes[whole] == 46u8;
    let fraction: usize = if has_point {
        count_digits(bytes, whole + 1)
    } else {
        0
    };
    let mantissa: usize = if has_point {
        whole + 1 + fraction
    } else {
        whole
    };
    if whole + fraction == 0 {
        return false;
    }
    if mantissa == len {
        return true;
    }
    let rest: &[u8] = slice_subrange(bytes, mantissa, len);
    proof {
        assert(rest@ =~= bytes@.skip(mantissa as int));
    }
    check_exponent(rest)
}

/// Whether `bytes` name infinity or not-a-number.
fn check_special(bytes: &[u8]) -> (r: bool)
    ensures
        r == is_special(bytes@),
{
    if bytes.len() != 3 && bytes.len() != 8 {
        proof {
            assert(lowered(bytes@).len() == bytes@.len());
            assert(seq![105u8, 110u8, 102u8].len() == 3);
            assert(seq![110u8, 97u8, 110u8].len() == 3);
            assert(seq![105u8, 110u8, 102u8, 105u8, 110u8, 105u8, 116u8, 121u8].len() == 8);
        }
        return false;
    }
    let mut low: Vec<u8> = Vec::new();
    push_lower(&mut low, bytes);
    proof {
        assert(low@ =~= lowered(bytes@));
    }
    if low.len() == 3 {
        let inf: bool = low[0] == 105u8 && low[1] == 110u8 && low[2] == 102u8;
        let nan: bool = low[0] == 110u8 && low[1] == 97u8 && low[2] == 110u8;
        proof {
            assert(inf == (low@ =~= seq![105u8, 110u8, 102u8]));
            assert(nan == (low@ =~= seq![110u8, 97u8, 110u8]));
        }
        inf || nan
    } else {
        let infinity: bool = low[0] == 105u8 && low[1] == 110u8 && low[2] == 102u8 && low[3] == 105u8
            && low[4] == 110u8 && low[5] == 105u8 && low[6] == 116u8 && low[7] == 121u8;
        proof {
            assert(infinity == (low@ =~= seq![105u8, 110u8, 102u8, 105u8, 110u8, 105u8, 116u8, 121u8]));
        }
        infinity
    }
}

/// Whether `bytes` are the text of a floating-point number.
pub fn is_double(bytes: &[u8]) -> (r: bool)
    ensures
        r == is_double_text(bytes@),
{
    let len: usize = bytes.len();
    let start: usize = if len >= 1 && is_sign(bytes[0]) {
        1
    } else {
        0
    };
    let body: &[u8] = slice_subrange(bytes, start, len);
    proof {
        assert(body@ =~= unsigned_part(bytes@));
    }
    check_special(body) || check_number(body)
}

} // verus!

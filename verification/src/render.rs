//! Decimal display of durations: whole seconds shown as minutes and hours
//! with two-decimal precision, rounding half away from zero.

use vstd::prelude::*;

use vstd::arithmetic::div_mod::lemma_div_is_ordered;
use vstd::arithmetic::div_mod::lemma_div_multiples_vanish_fancy;
use vstd::arithmetic::div_mod::lemma_div_pos_is_pos;
use vstd::arithmetic::div_mod::lemma_fundamental_div_mod;
use vstd::string::StrSliceExecFns;
use vstd::string::StringExecFns;

verus! {

/// The character of a decimal digit.
pub open spec fn spec_digit_char(d: int) -> char {
    if d == 0 {
        '0'
    } else if d == 1 {
        '1'
    } else if d == 2 {
        '2'
    } else if d == 3 {
        '3'
    } else if d == 4 {
        '4'
    } else if d == 5 {
        '5'
    } else if d == 6 {
        '6'
    } else if d == 7 {
        '7'
    } else if d == 8 {
        '8'
    } else {
        '9'
    }
}

/// The decimal digits of a non-negative number, most significant first.
pub open spec fn spec_digits(n: int) -> Seq<char>
    decreases n,
{
    if n < 10 {
        seq![spec_digit_char(n)]
    } else {
        spec_digits(n / 10).push(spec_digit_char(n % 10))
    }
}

/// The ratio `num / den` rounded half away from zero, for positive `den`.
pub open spec fn spec_round_ratio(num: int, den: int) -> int {
    if num >= 0 {
        (2 * num + den) / (2 * den)
    } else {
        -((2 * (-num) + den) / (2 * den))
    }
}

/// Whole seconds as hundredths of minutes, rounded.
pub open spec fn spec_minute_hundredths(secs: int) -> int {
    spec_round_ratio(secs * 100, 60)
}

/// Whole seconds as hundredths of hours, rounded.
pub open spec fn spec_hour_hundredths(secs: int) -> int {
    spec_round_ratio(secs * 100, 3600)
}

/// A hundredths count shown with two decimals: the whole part, a point, two
/// digits, and a leading minus for negative counts.
pub open spec fn spec_hundredths_text(h: int) -> Seq<char> {
    if h < 0 {
        seq!['-'] + spec_hundredths_text_abs(-h)
    } else {
        spec_hundredths_text_abs(h)
    }
}

/// A non-negative hundredths count shown with two decimals.
pub open spec fn spec_hundredths_text_abs(h: int) -> Seq<char> {
    spec_digits(h / 100) + seq!['.'] + seq![spec_digit_char((h / 10) % 10), spec_digit_char(h % 10)]
}

/// The display text of a duration as minutes, e.g. 754 seconds as
/// `12.57 mins`.
pub open spec fn spec_minutes_display(secs: int) -> Seq<char> {
    spec_hundredths_text(spec_minute_hundredths(secs)) + " mins"@
}

/// The display text of a duration as hours, e.g. 754 seconds as `0.21 hours`.
pub open spec fn spec_hours_display(secs: int) -> Seq<char> {
    spec_hundredths_text(spec_hour_hundredths(secs)) + " hours"@
}

/// The text of one decimal digit.
fn digit_str(d: u64) -> (r: &'static str)
    requires
        d < 10,
    ensures
        r@ == seq![spec_digit_char(d as int)],
{
    proof {
        reveal_strlit("0");
        reveal_strlit("1");
        reveal_strlit("2");
        reveal_strlit("3");
        reveal_strlit("4");
        reveal_strlit("5");
        reveal_strlit("6");
        reveal_strlit("7");
        reveal_strlit("8");
        reveal_strlit("9");
    }
    let r = match d {
        0 => "0",
        1 => "1",
        2 => "2",
        3 => "3",
        4 => "4",
        5 => "5",
        6 => "6",
        7 => "7",
        8 => "8",
        _ => "9",
    };
    proof {
        assert(r@ =~= seq![spec_digit_char(d as int)]);
    }
    r
}

/// Renders a number in decimal.
pub fn u64_to_string(n: u64) -> (r: String)
    ensures
        r@ == spec_digits(n as int),
    decreases n,
{
    if n < 10 {
        digit_str(n).to_owned()
    } else {
        let mut s = u64_to_string(n / 10);
        s.append(digit_str(n % 10));
        proof {
            assert(s@ =~= spec_digits(n as int));
        }
        s
    }
}

/// Renders a non-negative hundredths count with two decimals.
fn hundredths_text_abs(h: u64) -> (r: String)
    ensures
        r@ == spec_hundredths_text_abs(h as int),
{
    proof {
        reveal_strlit(".");
        lemma_div_pos_is_pos(h as int, 100);
        lemma_div_pos_is_pos(h as int, 10);
    }
    let mut s = u64_to_string(h / 100);
    s.append(".");
    s.append(digit_str((h / 10) % 10));
    s.append(digit_str(h % 10));
    proof {
        assert(s@ =~= spec_hundredths_text_abs(h as int));
    }
    s
}

/// The magnitude of a signed count of seconds.
fn abs_seconds(secs: i64) -> (r: u64)
    ensures
        r == if secs >= 0 {
            secs as int
        } else {
            -(secs as int)
        },
{
    if secs >= 0 {
        secs as u64
    } else {
        ((-(secs as i128)) as u64)
    }
}

/// Minutes with two decimals from non-negative seconds:
/// `round(secs * 100 / 60)` computed without overflowing 64 bits.
fn minute_hundredths_abs(a: u64) -> (h: u64)
    requires
        a <= 9223372036854775808,
    ensures
        h == spec_round_ratio(a as int * 100, 60),
{
    let q = a / 3;
    let rem = a % 3;
    let extra: u64 = if rem == 0 {
        0
    } else if rem == 1 {
        2
    } else {
        3
    };
    proof {
        lemma_fundamental_div_mod(a as int, 3);
        lemma_div_is_ordered(a as int, 9223372036854775808, 3);
        assert(9223372036854775808int / 3 == 3074457345618258602);
        let k = a as int / 3;
        let r = a as int % 3;
        if r == 0 {
            assert(2 * (a as int * 100) + 60 == 120 * (5 * k) + 60);
            lemma_div_multiples_vanish_fancy(5 * k, 60, 120);
        } else if r == 1 {
            assert(2 * (a as int * 100) + 60 == 120 * (5 * k + 2) + 20);
            lemma_div_multiples_vanish_fancy(5 * k + 2, 20, 120);
        } else {
            assert(2 * (a as int * 100) + 60 == 120 * (5 * k + 3) + 100);
            lemma_div_multiples_vanish_fancy(5 * k + 3, 100, 120);
        }
    }
    q * 5 + extra
}

/// Hours with two decimals from non-negative seconds:
/// `round(secs * 100 / 3600)` computed without overflowing 64 bits.
fn hour_hundredths_abs(a: u64) -> (h: u64)
    requires
        a <= 9223372036854775808,
    ensures
        h == spec_round_ratio(a as int * 100, 3600),
{
    proof {
        lemma_fundamental_div_mod(a as int + 18, 36);
        let k = (a as int + 18) / 36;
        let r = (a as int + 18) % 36;
        lemma_div_pos_is_pos(a as int + 18, 36);
        assert(2 * (a as int * 100) + 3600 == 7200 * k + 200 * r);
        lemma_div_multiples_vanish_fancy(k, 200 * r, 7200);
    }
    (a + 18) / 36
}

/// Renders a signed hundredths count with two decimals and a sign.
fn render_signed(neg: bool, h: u64, suffix: &str) -> (r: String)
    ensures
        r@ == spec_hundredths_text(
            if neg {
                -(h as int)
            } else {
                h as int
            },
        ) + suffix@,
{
    proof {
        reveal_strlit("-");
    }
    let mut out = String::new();
    if neg && h > 0 {
        out.append("-");
    }
    let body = hundredths_text_abs(h);
    out.append(body.as_str());
    out.append(suffix);
    proof {
        assert(out@ =~= spec_hundredths_text(
            if neg {
                -(h as int)
            } else {
                h as int
            },
        ) + suffix@);
    }
    out
}

/// Renders a duration in whole seconds as minutes with two decimals, e.g.
/// `12.57 mins`.
pub fn format_minutes(secs: i64) -> (r: String)
    ensures
        r@ == spec_minutes_display(secs as int),
{
    proof {
        reveal_strlit(" mins");
    }
    let neg = secs < 0;
    let a = abs_seconds(secs);
    let h = minute_hundredths_abs(a);
    proof {
        if secs < 0 {
            assert(-(secs as int * 100) == a as int * 100);
            assert(spec_minute_hundredths(secs as int) == -(h as int));
        }
    }
    render_signed(neg, h, " mins")
}

/// Renders a duration in whole seconds as hours with two decimals, e.g.
/// `0.21 hours`.
pub fn format_hours(secs: i64) -> (r: String)
    ensures
        r@ == spec_hours_display(secs as int),
{
    proof {
        reveal_strlit(" hours");
    }
    let neg = secs < 0;
    let a = abs_seconds(secs);
    let h = hour_hundredths_abs(a);
    proof {
        if secs < 0 {
            assert(-(secs as int * 100) == a as int * 100);
            assert(spec_hour_hundredths(secs as int) == -(h as int));
        }
    }
    render_signed(neg, h, " hours")
}

} // verus!

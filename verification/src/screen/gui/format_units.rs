use vstd::prelude::*;

verus! {

/// The character of a decimal digit.
pub open spec fn spec_digit(d: int) -> char {
    if d == 0 {
        '0'
    } else if d == 1 {
        '1'
    } else if d == 2 {
        '2'
    } else if d == 3 {
        '3'
    } else if d == 4 {
        '4'
    } else if d == 5 {
        '5'
    } else if d == 6 {
        '6'
    } else if d == 7 {
        '7'
    } else if d == 8 {
        '8'
    } else {
        '9'
    }
}

/// The decimal digits of `n`, without leading zeros.
pub open spec fn spec_digits(n: nat) -> Seq<char>
    decreases n,
{
    if n < 10 {
        seq![spec_digit(n as int)]
    } else {
        spec_digits(n / 10) + seq![spec_digit((n % 10) as int)]
    }
}

/// `v` written in decimal, with a minus sign if it is negative.
pub open spec fn spec_decimal(v: int) -> Seq<char> {
    if v < 0 {
        seq!['-'] + spec_digits((-v) as nat)
    } else {
        spec_digits(v as nat)
    }
}

/// The text of one digit.
fn digit_str(d: u64) -> (s: &'static str)
    requires
        d < 10,
    ensures
        s@ == seq![spec_digit(d as int)],
{
    proof {
        reveal_strlit("0");
        reveal_strlit("1");
        reveal_strlit("2");
        reveal_strlit("3");
        reveal_strlit("4");
        reveal_strlit("5");
        reveal_strlit("6");
        reveal_strlit("7");
        reveal_strlit("8");
        reveal_strlit("9");
    }
    if d == 0 {
        "0"
    } else if d == 1 {
        "1"
    } else if d == 2 {
        "2"
    } else if d == 3 {
        "3"
    } else if d == 4 {
        "4"
    } else if d == 5 {
        "5"
    } else if d == 6 {
        "6"
    } else if d == 7 {
        "7"
    } else if d == 8 {
        "8"
    } else {
        "9"
    }
}

/// Appends the decimal digits of `n`.
fn append_digits(s: &mut String, n: u64)
    ensures
        final(s)@ == old(s)@ + spec_digits(n as nat),
    decreases n,
{
    if n >= 10 {
        append_digits(s, n / 10);
    }
    s.append(digit_str(n % 10));
    proof {
        if n >= 10 {
            assert(old(s)@ + spec_digits((n / 10) as nat) + seq![spec_digit((n % 10) as int)] =~= old(s)@
                + spec_digits(n as nat));
        } else {
            assert(old(s)@ + seq![spec_digit((n % 10) as int)] =~= old(s)@ + spec_digits(n as nat));
        }
    }
}

/// `value` written in decimal.
pub(crate) fn decimal_string(value: i64) -> (result: String)
    ensures
        result@ == spec_decimal(value as int),
{
    let mut s = String::new();
    if value < 0 {
        proof {
            reveal_strlit("-");
        }
        s.append("-");
        let magnitude: u64 = if value == i64::MIN {
            9223372036854775808u64
        } else {
            (-value) as u64
        };
        append_digits(&mut s, magnitude);
        assert(s@ =~= spec_decimal(value as int));
    } else {
        append_digits(&mut s, value as u64);
        assert(s@ =~= spec_decimal(value as int));
    }
    s
}

/// The plural ending for a count: nothing for one, "s" otherwise.
pub open spec fn spec_single_str(number: int) -> Seq<char> {
    if number == 1 {
        Seq::empty()
    } else {
        seq!['s']
    }
}

fn single_str(number: i64) -> (result: String)
    ensures
        result@ == spec_single_str(number as int),
{
    proof {
        reveal_strlit("");
        reveal_strlit("s");
    }
    if number == 1 {
        String::from_str("")
    } else {
        String::from_str("s")
    }
}

/// A count followed by its unit, in the plural unless the count is one.
pub open spec fn spec_format_time(value: int, unit: Seq<char>) -> Seq<char> {
    spec_decimal(value) + seq![' '] + unit + spec_single_str(value)
}

fn format_time(value: i64, unit: &str) -> (result: String)
    ensures
        result@ == spec_format_time(value as int, unit@),
{
    let mut s = decimal_string(value);
    proof {
        reveal_strlit(" ");
    }
    s.append(" ");
    s.append(unit);
    let plural = single_str(value);
    s.append(plural.as_str());
    assert(s@ =~= spec_format_time(value as int, unit@));
    s
}

pub const MINUTES_PER_HOUR: i64 = 60;

pub const HOURS_PER_DAY: i64 = 24;

pub const DAYS_PER_YEAR: i64 = 365;

pub const HOURS_PER_YEAR: i64 = 8760;

/// An age in minutes, written with the largest units it reaches: minutes; hours and minutes;
/// days, hours and minutes; or years, days, hours and minutes.
pub open spec fn spec_format_age(age: int) -> Seq<char> {
    let sep = seq![',', ' '];
    let minutes = spec_format_time(age % 60, "minute"@);
    let hours = spec_format_time((age / 60) % 24, "hour"@);
    if age < 60 {
        spec_format_time(age, "minute"@)
    } else if age < 60 * 24 {
        spec_format_time(age / 60, "hour"@) + sep + minutes
    } else if age < 60 * 24 * 365 {
        spec_format_time(age / 60 / 24, "day"@) + sep + hours + sep + minutes
    } else {
        spec_format_time(age / 60 / 8760, "year"@) + sep + spec_format_time(
            (age / 60 / 24) % 365,
            "day"@,
        ) + sep + hours + sep + minutes
    }
}

/// Writes an age given in minutes, such as "1 day, 2 hours, 0 minutes".
pub fn format_age(age_in_minutes: i64) -> (result: String)
    ensures
        result@ == spec_format_age(age_in_minutes as int),
{
    let age = age_in_minutes;
    proof {
        reveal_strlit(", ");
    }
    if age < MINUTES_PER_HOUR {
        format_time(age, "minute")
    } else if age < MINUTES_PER_HOUR * HOURS_PER_DAY {
        let mut s = format_time(age / MINUTES_PER_HOUR, "hour");
        s.append(", ");
        let m = format_time(age % MINUTES_PER_HOUR, "minute");
        s.append(m.as_str());
        assert(s@ =~= spec_format_age(age as int));
        s
    } else if age < MINUTES_PER_HOUR * HOURS_PER_DAY * DAYS_PER_YEAR {
        let mut s = format_time(age / MINUTES_PER_HOUR / HOURS_PER_DAY, "day");
        s.append(", ");
        let h = format_time(age / MINUTES_PER_HOUR % HOURS_PER_DAY, "hour");
        s.append(h.as_str());
        s.append(", ");
        let m = format_time(age % MINUTES_PER_HOUR, "minute");
        s.append(m.as_str());
        assert(s@ =~= spec_format_age(age as int));
        s
    } else {
        let mut s = format_time(age / MINUTES_PER_HOUR / HOURS_PER_YEAR, "year");
        s.append(", ");
        let d = format_time(age / MINUTES_PER_HOUR / HOURS_PER_DAY % DAYS_PER_YEAR, "day");
        s.append(d.as_str());
        s.append(", ");
        let h = format_time(age / MINUTES_PER_HOUR % HOURS_PER_DAY, "hour");
        s.append(h.as_str());
        s.append(", ");
        let m = format_time(age % MINUTES_PER_HOUR, "minute");
        s.append(m.as_str());
        assert(s@ =~= spec_format_age(age as int));
        s
    }
}

/// 1000 to the power `k`, for `k` up to 6.
pub open spec fn spec_scale(k: int) -> int {
    if k <= 0 {
        1
    } else if k == 1 {
        1_000
    } else if k == 2 {
        1_000_000
    } else if k == 3 {
        1_000_000_000
    } else if k == 4 {
        1_000_000_000_000
    } else if k == 5 {
        1_000_000_000_000_000
    } else {
        1_000_000_000_000_000_000
    }
}

/// The largest `k` (up to 6) such that `1000^k` is not above `a`; 0 below 1000.
pub open spec fn spec_scale_exponent(a: int) -> int {
    if a >= spec_scale(6) {
        6
    } else if a >= spec_scale(5) {
        5
    } else if a >= spec_scale(4) {
        4
    } else if a >= spec_scale(3) {
        3
    } else if a >= spec_scale(2) {
        2
    } else if a >= spec_scale(1) {
        1
    } else {
        0
    }
}

/// The prefix of the unit at scale `1000^k`.
pub open spec fn spec_prefix(k: int) -> Seq<char> {
    if k <= 0 {
        Seq::empty()
    } else if k == 1 {
        seq!['K']
    } else if k == 2 {
        seq!['M']
    } else if k == 3 {
        seq!['G']
    } else if k == 4 {
        seq!['T']
    } else if k == 5 {
        seq!['P']
    } else {
        seq!['E']
    }
}

/// How many decimals a scaled quantity `a / scale` is shown with: none from 100 up, one from
/// 10 up, two below.
pub open spec fn spec_precision(a: int, scale: int) -> int {
    if a >= 100 * scale {
        0
    } else if a >= 10 * scale {
        1
    } else {
        2
    }
}

/// 10 to the power `p`, for `p` up to 2.
pub open spec fn spec_pow10(p: int) -> int {
    if p <= 0 {
        1
    } else if p == 1 {
        10
    } else {
        100
    }
}

/// The decimals of `frac`, written with `p` digits.
pub open spec fn spec_fraction(frac: int, p: int) -> Seq<char> {
    if p <= 0 {
        Seq::empty()
    } else if p == 1 {
        seq!['.', spec_digit(frac)]
    } else {
        seq!['.', spec_digit(frac / 10), spec_digit(frac % 10)]
    }
}

/// A whole quantity written with the largest prefix it reaches (K, M, G, T, P, E) and three
/// significant digits, cut (not rounded) after them, such as "1.11 KW" or "-10.0 W".
pub open spec fn spec_format_unit(quantity: int, unit: Seq<char>) -> Seq<char> {
    let a = if quantity < 0 {
        -quantity
    } else {
        quantity
    };
    let k = spec_scale_exponent(a);
    let scale = spec_scale(k);
    let p = spec_precision(a, scale);
    let t = (a * spec_pow10(p)) / scale;
    let sign = if quantity < 0 {
        seq!['-']
    } else {
        Seq::empty()
    };
    sign + spec_decimal(t / spec_pow10(p)) + spec_fraction(t % spec_pow10(p), p) + seq![' ']
        + spec_prefix(k) + unit
}

fn prefix_str(k: u32) -> (s: &'static str)
    requires
        k <= 6,
    ensures
        s@ == spec_prefix(k as int),
{
    proof {
        reveal_strlit("");
        reveal_strlit("K");
        reveal_strlit("M");
        reveal_strlit("G");
        reveal_strlit("T");
        reveal_strlit("P");
        reveal_strlit("E");
    }
    if k == 0 {
        ""
    } else if k == 1 {
        "K"
    } else if k == 2 {
        "M"
    } else if k == 3 {
        "G"
    } else if k == 4 {
        "T"
    } else if k == 5 {
        "P"
    } else {
        "E"
    }
}

/// Writes a whole quantity of `unit` with the largest prefix it reaches and three significant
/// digits, as the game shows amounts.
#[verifier::rlimit(40)]
pub fn format_unit(quantity: i64, unit: &str) -> (result: String)
    ensures
        result@ == spec_format_unit(quantity as int, unit@),
{
    let a: u128 = if quantity < 0 {
        (-(quantity as i128)) as u128
    } else {
        quantity as u128
    };
    let mut k: u32 = 0;
    let mut scale: u128 = 1;
    while k < 6 && a / 1000 >= scale
        invariant
            k <= 6,
            scale == spec_scale(k as int),
            a <= 9223372036854775808,
            forall|j: int| k < j <= 6 && a < spec_scale(j) ==> spec_scale_exponent(a as int) < j,
            k > 0 ==> a >= spec_scale(k as int),
            spec_scale_exponent(a as int) >= k,
        decreases 6 - k,
    {
        scale = scale * 1000;
        k = k + 1;
    }
    assert(spec_scale_exponent(a as int) == k);
    let p: u32 = if a >= 100 * scale {
        0
    } else if a >= 10 * scale {
        1
    } else {
        2
    };
    let pow: u128 = if p == 0 {
        1
    } else if p == 1 {
        10
    } else {
        100
    };
    let t: u128 = (a * pow) / scale;
    let whole: u128 = t / pow;
    let frac: u128 = t % pow;
    assert(k < 6 ==> a < 1000 * scale) by (nonlinear_arith)
        requires
            k < 6 ==> a / 1000 < scale,
    ;
    assert(t * scale <= a * pow) by (nonlinear_arith)
        requires
            t == ((a * pow) as int) / (scale as int),
            scale >= 1,
    ;
    assert(t < 1000 * pow) by (nonlinear_arith)
        requires
            t * scale <= a * pow,
            a < 1000 * scale,
            scale >= 1,
            pow >= 1,
    ;
    assert(whole < 1000) by (nonlinear_arith)
        requires
            whole == t / pow,
            t < 1000 * pow,
            pow >= 1,
    ;
    let mut s = String::new();
    if quantity < 0 {
        proof {
            reveal_strlit("-");
        }
        s.append("-");
    }
    let number = decimal_string(whole as i64);
    s.append(number.as_str());
    proof {
        reveal_strlit(".");
    }
    if p == 1 {
        s.append(".");
        s.append(digit_str(frac as u64));
    } else if p == 2 {
        s.append(".");
        s.append(digit_str((frac / 10) as u64));
        s.append(digit_str((frac % 10) as u64));
    }
    proof {
        reveal_strlit(" ");
    }
    s.append(" ");
    s.append(prefix_str(k));
    s.append(unit);
    assert(s@ =~= spec_format_unit(quantity as int, unit@));
    s
}

} // verus!

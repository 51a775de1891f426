//! Gregorian dates: validity, day numbers and their text.
use vstd::prelude::*;

verus! {

/// A calendar date.
#[derive(Clone, Copy, Debug, PartialEq, Eq, Structural)]
pub struct Ymd {
    pub year: i32,
    pub month: u32,
    pub day: u32,
}

/// The earliest year a date can hold.
pub const MIN_YEAR: i32 = -262143i32;

/// The latest year a date can hold.
pub const MAX_YEAR: i32 = 262142i32;

pub open spec fn is_leap(y: int) -> bool {
    y % 4 == 0 && (y % 100 != 0 || y % 400 == 0)
}

pub open spec fn days_in_month(y: int, m: int) -> int {
    if m == 2 {
        if is_leap(y) { 29 } else { 28 }
    } else if m == 4 || m == 6 || m == 9 || m == 11 {
        30
    } else {
        31
    }
}

/// A real date of the proleptic Gregorian calendar within the supported years.
pub open spec fn valid_ymd(y: int, m: int, d: int) -> bool {
    &&& MIN_YEAR <= y <= MAX_YEAR
    &&& 1 <= m <= 12
    &&& 1 <= d <= days_in_month(y, m)
}

pub open spec fn valid_date(d: Ymd) -> bool {
    valid_ymd(d.year as int, d.month as int, d.day as int)
}

/// The number of days from 1970-01-01 to the given date.
pub open spec fn days_from_civil(y: int, m: int, d: int) -> int {
    let yy = if m <= 2 { y - 1 } else { y };
    let era = yy / 400;
    let yoe = yy - era * 400;
    let mp = if m > 2 { m - 3 } else { m + 9 };
    let doy = (153 * mp + 2) / 5 + d - 1;
    let doe = yoe * 365 + yoe / 4 - yoe / 100 + doy;
    era * 146097 + doe - 719468
}

/// The day after `y-m-d`.
pub open spec fn next_ymd(y: int, m: int, d: int) -> (int, int, int) {
    if d < days_in_month(y, m) {
        (y, m, d + 1)
    } else if m < 12 {
        (y, m + 1, 1)
    } else {
        (y + 1, 1, 1)
    }
}

/// The day count at which the year from March of `yy` to February of
/// `yy + 1` starts, before the shift to 1970.
pub open spec fn march_year_start(yy: int) -> int {
    let era = yy / 400;
    let yoe = yy - era * 400;
    era * 146097 + yoe * 365 + yoe / 4 - yoe / 100
}

proof fn lemma_div_step(x: int, k: int)
    requires
        k > 0,
        x >= 0,
    ensures
        (x + 1) / k == x / k + (if (x + 1) % k == 0 { 1int } else { 0int }),
{
    vstd::arithmetic::div_mod::lemma_fundamental_div_mod(x, k);
    vstd::arithmetic::div_mod::lemma_mod_bound(x, k);
    let q = x / k;
    let r = x % k;
    assert(x == q * k + r) by (nonlinear_arith)
        requires
            x == k * q + r,
    ;
    if r + 1 < k {
        vstd::arithmetic::div_mod::lemma_fundamental_div_mod_converse(x + 1, k, q, r + 1);
    } else {
        assert(x + 1 == (q + 1) * k + 0) by (nonlinear_arith)
            requires
                x == q * k + r,
                r + 1 == k,
        ;
        vstd::arithmetic::div_mod::lemma_fundamental_div_mod_converse(x + 1, k, q + 1, 0);
    }
}

/// `era * 400 + z` and `z` leave the same remainder by 4, 100 and 400.
proof fn lemma_mod_era(era: int, z: int, k: int)
    requires
        k == 4 || k == 100 || k == 400,
    ensures
        (era * 400 + z) % k == z % k,
{
    vstd::arithmetic::div_mod::lemma_fundamental_div_mod(z, k);
    vstd::arithmetic::div_mod::lemma_mod_bound(z, k);
    let q = z / k;
    let r = z % k;
    let c: int = if k == 4 { 100 } else if k == 100 { 4 } else { 1 };
    assert(c * k == 400);
    assert(era * 400 + z == (era * c + q) * k + r) by (nonlinear_arith)
        requires
            z == k * q + r,
            c * k == 400,
    ;
    vstd::arithmetic::div_mod::lemma_fundamental_div_mod_converse(era * 400 + z, k, era * c + q, r);
}

/// A March-based year is a leap year's length exactly when the February it
/// ends in has 29 days.
pub proof fn lemma_year_length(y: int)
    ensures
        march_year_start(y) == march_year_start(y - 1) + 365 + (if is_leap(y) { 1int } else { 0int }),
{
    let yy = y - 1;
    vstd::arithmetic::div_mod::lemma_fundamental_div_mod(yy, 400);
    vstd::arithmetic::div_mod::lemma_mod_bound(yy, 400);
    let era = yy / 400;
    let yoe = yy - era * 400;
    assert(yoe == yy % 400) by (nonlinear_arith)
        requires
            yy == 400 * era + yy % 400,
            yoe == yy - era * 400,
    ;
    lemma_mod_era(era, yoe + 1, 4);
    lemma_mod_era(era, yoe + 1, 100);
    lemma_mod_era(era, yoe + 1, 400);
    assert(y == era * 400 + (yoe + 1));
    if yoe < 399 {
        vstd::arithmetic::div_mod::lemma_fundamental_div_mod_converse(y, 400, era, yoe + 1);
        lemma_div_step(yoe, 4);
        lemma_div_step(yoe, 100);
        assert((yoe + 1) % 400 == yoe + 1) by {
            vstd::arithmetic::div_mod::lemma_fundamental_div_mod_converse(yoe + 1, 400, 0, yoe + 1);
        }
    } else {
        vstd::arithmetic::div_mod::lemma_fundamental_div_mod_converse(y, 400, era + 1, 0);
        assert(399int / 4 == 99);
        assert(399int / 100 == 3);
        assert(400int % 4 == 0 && 400int % 100 == 0 && 400int % 400 == 0);
    }
}

/// Day numbers count from 1970-01-01, which is day 0.
pub proof fn lemma_epoch_is_day_zero()
    ensures
        days_from_civil(1970, 1, 1) == 0,
{
    vstd::arithmetic::div_mod::lemma_fundamental_div_mod_converse(1969, 400, 4, 369);
    vstd::arithmetic::div_mod::lemma_fundamental_div_mod_converse(369, 4, 92, 1);
    vstd::arithmetic::div_mod::lemma_fundamental_div_mod_converse(369, 100, 3, 69);
    vstd::arithmetic::div_mod::lemma_fundamental_div_mod_converse(1532int, 5, 306, 2);
}

/// The day after a real date has the next day number.
pub proof fn lemma_next_day_number(y: int, m: int, d: int)
    requires
        1 <= m <= 12,
        1 <= d <= days_in_month(y, m),
    ensures
        days_from_civil(next_ymd(y, m, d).0, next_ymd(y, m, d).1, next_ymd(y, m, d).2)
            == days_from_civil(y, m, d) + 1,
{
    let yy = if m <= 2 { y - 1 } else { y };
    assert(days_from_civil(y, m, d) == march_year_start(yy)
        + (153 * (if m > 2 { m - 3 } else { m + 9 }) + 2) / 5 + d - 1 - 719468);
    if d < days_in_month(y, m) {
    } else if m == 2 {
        lemma_year_length(y);
        assert(days_from_civil(y, 3, 1) == march_year_start(y) + 0 - 719468);
        assert((153int * 11 + 2) / 5 == 337);
    } else if m < 12 {
        let n = next_ymd(y, m, d);
        assert(days_from_civil(n.0, n.1, n.2) == march_year_start(yy)
            + (153 * (if m + 1 > 2 { m - 2 } else { m + 10 }) + 2) / 5 - 719468);
        assert((153int * 0 + 2) / 5 == 0 && (153int * 1 + 2) / 5 == 31 && (153int * 2 + 2) / 5 == 61);
        assert((153int * 3 + 2) / 5 == 92 && (153int * 4 + 2) / 5 == 122 && (153int * 5 + 2) / 5 == 153);
        assert((153int * 6 + 2) / 5 == 184 && (153int * 7 + 2) / 5 == 214 && (153int * 8 + 2) / 5 == 245);
        assert((153int * 9 + 2) / 5 == 275 && (153int * 10 + 2) / 5 == 306 && (153int * 11 + 2) / 5 == 337);
    } else {
        assert(days_from_civil(y + 1, 1, 1) == march_year_start(y) + (153int * 10 + 2) / 5 - 719468);
        assert((153int * 9 + 2) / 5 == 275 && (153int * 10 + 2) / 5 == 306);
    }
}

pub open spec fn day_number(d: Ymd) -> int {
    days_from_civil(d.year as int, d.month as int, d.day as int)
}

pub open spec fn digit_char(n: int) -> char {
    if n == 0 { '0' } else if n == 1 { '1' } else if n == 2 { '2' } else if n == 3 { '3' }
    else if n == 4 { '4' } else if n == 5 { '5' } else if n == 6 { '6' } else if n == 7 { '7' }
    else if n == 8 { '8' } else { '9' }
}

/// The decimal digits of `n`, without leading zeros.
pub open spec fn digits(n: nat) -> Seq<char>
    decreases n,
{
    if n < 10 {
        seq![digit_char(n as int)]
    } else {
        digits(n / 10).push(digit_char((n % 10) as int))
    }
}

/// `s` padded on the left with zeros to at least `w` characters.
pub open spec fn zero_pad(s: Seq<char>, w: nat) -> Seq<char> {
    if s.len() >= w { s } else { Seq::new((w - s.len()) as nat, |i: int| '0') + s }
}

/// A year as dates print it: four digits within 0..=9999, otherwise a sign
/// and at least four digits.
pub open spec fn year_text(y: int) -> Seq<char> {
    if 0 <= y <= 9999 {
        zero_pad(digits(y as nat), 4)
    } else if y < 0 {
        seq!['-'] + zero_pad(digits((-y) as nat), 4)
    } else {
        seq!['+'] + zero_pad(digits(y as nat), 4)
    }
}

/// A date as `YYYY-MM-DD`.
pub open spec fn ymd_text(d: Ymd) -> Seq<char> {
    year_text(d.year as int) + seq!['-'] + zero_pad(digits(d.month as nat), 2) + seq!['-']
        + zero_pad(digits(d.day as nat), 2)
}

fn digit_of(n: u64) -> (c: char)
    requires
        n < 10,
    ensures
        c == digit_char(n as int),
{
    if n == 0 { '0' } else if n == 1 { '1' } else if n == 2 { '2' } else if n == 3 { '3' }
    else if n == 4 { '4' } else if n == 5 { '5' } else if n == 6 { '6' } else if n == 7 { '7' }
    else if n == 8 { '8' } else { '9' }
}

/// Appends the decimal digits of `n`.
pub fn push_digits(out: &mut Vec<char>, n: u64)
    ensures
        final(out)@ == old(out)@ + digits(n as nat),
    decreases n,
{
    if n >= 10 {
        push_digits(out, n / 10);
    }
    out.push(digit_of(n % 10));
    proof {
        if n >= 10 {
            assert(old(out)@ + digits(n as nat) =~= old(out)@ + digits((n / 10) as nat) + seq![digit_char((n % 10) as int)]);
        } else {
            assert(old(out)@ + digits(n as nat) =~= old(out)@.push(digit_char(n as int)));
        }
    }
}

/// Appends the decimal digits of `n`, padded with zeros to `w` characters.
pub fn push_padded(out: &mut Vec<char>, n: u64, w: usize)
    ensures
        final(out)@ == old(out)@ + zero_pad(digits(n as nat), w as nat),
{
    let mut ds: Vec<char> = Vec::new();
    push_digits(&mut ds, n);
    assert(ds@ =~= digits(n as nat));
    let ghost start = out@;
    if ds.len() < w {
        let k = w - ds.len();
        let mut i: usize = 0;
        while i < k
            invariant
                i <= k,
                out@ == start + Seq::new(i as nat, |j: int| '0'),
            decreases k - i,
        {
            out.push('0');
            assert(Seq::new((i + 1) as nat, |j: int| '0') =~= Seq::new(i as nat, |j: int| '0').push('0'));
            i = i + 1;
        }
    }
    out.append(&mut ds);
    assert(out@ =~= start + zero_pad(digits(n as nat), w as nat));
}

/// The text of a date (`YYYY-MM-DD`).
pub fn format_ymd(d: Ymd) -> (s: String)
    ensures
        s@ == ymd_text(d),
{
    let mut v: Vec<char> = Vec::new();
    let y = d.year;
    if 0 <= y && y <= 9999 {
        push_padded(&mut v, y as u64, 4);
    } else if y < 0 {
        v.push('-');
        let a: i64 = -(y as i64);
        push_padded(&mut v, a as u64, 4);
    } else {
        v.push('+');
        push_padded(&mut v, y as u64, 4);
    }
    v.push('-');
    push_padded(&mut v, d.month as u64, 2);
    v.push('-');
    push_padded(&mut v, d.day as u64, 2);
    assert(v@ =~= ymd_text(d));
    crate::text::string_from_chars(&v)
}

/// Whether `y` is a leap year of the proleptic Gregorian calendar.
pub fn is_leap_year(y: i32) -> (b: bool)
    ensures
        b == is_leap(y as int),
{
    // shift by whole 400-year cycles so that the remainders are taken of a
    // non-negative number
    let s: i64 = y as i64 + 2147484000;
    proof {
        let k: int = 5368710;
        assert(s == y + 400 * k);
        assert(s % 4 == y % 4 && s % 100 == y % 100 && s % 400 == y % 400) by (nonlinear_arith)
            requires
                s == y + 400 * k;
    }
    s % 4 == 0 && (s % 100 != 0 || s % 400 == 0)
}

/// The date with these parts, if it is a real date within the supported years.
pub fn date_opt(y: i32, m: u32, d: u32) -> (r: Option<Ymd>)
    ensures
        match r {
            Some(x) => valid_ymd(y as int, m as int, d as int) && x == (Ymd { year: y, month: m, day: d }),
            None => !valid_ymd(y as int, m as int, d as int),
        },
{
    if y < MIN_YEAR || y > MAX_YEAR || m < 1 || m > 12 || d < 1 {
        return None;
    }
    let dim: u32 = if m == 2 {
        if is_leap_year(y) { 29 } else { 28 }
    } else if m == 4 || m == 6 || m == 9 || m == 11 {
        30
    } else {
        31
    };
    if d > dim {
        None
    } else {
        Some(Ymd { year: y, month: m, day: d })
    }
}

/// The day number of a valid date (days since 1970-01-01).
pub fn day_number_of(d: Ymd) -> (n: i64)
    requires
        valid_date(d),
    ensures
        n == day_number(d),
{
    let y = d.year as i64;
    let m = d.month as i64;
    let dd = d.day as i64;
    let yy: i64 = if m <= 2 { y - 1 } else { y };
    // shift by whole 400-year eras so that the year is not negative
    let shifted: i64 = yy + 262400;
    let era_s: i64 = shifted / 400;
    let yoe: i64 = shifted - era_s * 400;
    let mp: i64 = if m > 2 { m - 3 } else { m + 9 };
    let doy: i64 = (153 * mp + 2) / 5 + dd - 1;
    let doe: i64 = yoe * 365 + yoe / 4 - yoe / 100 + doy;
    let era: i64 = era_s - 656;
    proof {
        assert(yy / 400 == era && yy - (yy / 400) * 400 == yoe) by (nonlinear_arith)
            requires
                shifted == yy + 262400,
                era_s == shifted / 400,
                yoe == shifted - era_s * 400,
                era == era_s - 656,
                shifted >= 0;
    }
    era * 146097 + doe - 719468
}

} // verus!

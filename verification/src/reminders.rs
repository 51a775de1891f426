//! Reminders of ancestral days: the lunar death anniversaries of members and
//! the traditional festivals, within a window of days from today.
use vstd::prelude::*;
use chrono::Datelike;
use crate::calendar::{Ymd, MAX_YEAR, valid_ymd, valid_date, day_number, days_from_civil, digits,
    ymd_text, date_opt, day_number_of, format_ymd, push_digits};
use crate::db::{ClanTrailDb, DbView};
use crate::error::AppError;
use crate::models::{Member, Reminder, ReminderType, new_uuid};
use crate::sort::{order_rows, push_str_key, sorted_rows, str_key, i64_key, i64_key_of,
    lemma_sorted_projection};
use crate::store::{opt_view, clone_opt};
use crate::text::{chars_of, string_from_chars, string_of};

verus! {

// What chrono's `NaiveDate::parse_from_str(text, "%Y-%m-%d")` reads from a
// text: the year, month and day of the date, or nothing.
pub uninterp spec fn parsed_date(text: Seq<char>) -> Option<(int, int, int)>;

// The lunar date (year, month, day, leap month) that lunar-lite's
// `solar_to_lunar` gives for a solar date, or nothing where it fails.
pub uninterp spec fn lunar_of_solar(year: int, month: int, day: int) -> Option<(int, int, int, bool)>;

// The solar date that lunar-lite's `lunar_to_solar` gives for a lunar date,
// or nothing where it fails.
pub uninterp spec fn solar_of_lunar(year: int, month: int, day: int, leap: bool) -> Option<(int, int, int)>;

/// A date of the Chinese lunar calendar.
#[derive(Clone, Copy, Debug, PartialEq, Eq, Structural)]
pub struct LunarDay {
    pub year: i32,
    pub month: u8,
    pub day: u8,
    /// The date lies in the leap (intercalary) instance of its month.
    pub leap: bool,
}

/// Reads a `YYYY-MM-DD` date with chrono (`NaiveDate::parse_from_str` with
/// the format `%Y-%m-%d`). What it reads is named by `parsed_date`; chrono
/// only ever yields real dates of its range of years.
#[verifier::external_body]
fn parse_date(text: &str) -> (r: Option<Ymd>)
    ensures
        match r {
            Some(d) => parsed_date(text@) == Some((d.year as int, d.month as int, d.day as int))
                && valid_date(d),
            None => parsed_date(text@) is None,
        },
{
    match chrono::NaiveDate::parse_from_str(text, "%Y-%m-%d") {
        Ok(d) => Some(Ymd { year: d.year(), month: d.month(), day: d.day() }),
        Err(_) => None,
    }
}

/// The lunar date of a solar date (lunar-lite's `solar_to_lunar`), `None`
/// where it returns an error. The result is named by `lunar_of_solar`.
#[verifier::external_body]
fn lunar_from_solar(d: Ymd) -> (r: Option<LunarDay>)
    requires
        valid_date(d),
    ensures
        match r {
            Some(l) => lunar_of_solar(d.year as int, d.month as int, d.day as int)
                == Some((l.year as int, l.month as int, l.day as int, l.leap)),
            None => lunar_of_solar(d.year as int, d.month as int, d.day as int) is None,
        },
{
    match lunar_lite::solar_to_lunar(lunar_lite::SolarDate { year: d.year, month: d.month as u8, day: d.day as u8 }) {
        Ok(l) => Some(LunarDay { year: l.year, month: l.month, day: l.day, leap: l.is_leap_month }),
        Err(_) => None,
    }
}

/// The solar date of a lunar date (lunar-lite's `lunar_to_solar`), `None`
/// where it returns an error. The result is named by `solar_of_lunar`; the
/// crate checks every date it returns to lie in years 1..=9999, with a month
/// in 1..=12 and a day in 1..=31.
#[verifier::external_body]
fn solar_from_lunar(year: i32, month: u8, day: u8, leap: bool) -> (r: Option<Ymd>)
    ensures
        match r {
            Some(s) => solar_of_lunar(year as int, month as int, day as int, leap)
                == Some((s.year as int, s.month as int, s.day as int))
                && 1 <= s.year <= 9999 && 1 <= s.month <= 12 && 1 <= s.day <= 31,
            None => solar_of_lunar(year as int, month as int, day as int, leap) is None,
        },
{
    match lunar_lite::lunar_to_solar(lunar_lite::LunarDate { year, month, day, is_leap_month: leap }) {
        Ok(s) => Some(Ymd { year: s.year, month: s.month as u32, day: s.day as u32 }),
        Err(_) => None,
    }
}

/// Today's date on the local clock (chrono's `Local::now().date_naive()`).
/// Only that it is a real date of chrono's range is promised: it depends on
/// the clock.
#[verifier::external_body]
fn today_local() -> (d: Ymd)
    ensures
        valid_date(d),
{
    let t = chrono::Local::now().date_naive();
    Ymd { year: t.year(), month: t.month(), day: t.day() }
}

// ---------------------------------------------------------------------------
// What the reminders are
// ---------------------------------------------------------------------------

/// A reminder as the rules fix it: everything but its random id.
pub struct Due {
    pub kind: ReminderType,
    pub title: Seq<char>,
    pub date: Seq<char>,
    pub lunar_date: Seq<char>,
    pub member_id: Option<Seq<char>>,
    pub grave_id: Option<Seq<char>>,
    pub days_until: int,
}

pub open spec fn due_of(r: Reminder) -> Due {
    Due {
        kind: r.reminder_type,
        title: r.title@,
        date: r.date@,
        lunar_date: r.lunar_date@,
        member_id: opt_view(r.member_id),
        grave_id: opt_view(r.grave_id),
        days_until: r.days_until as int,
    }
}

/// Reminders are ordered by date text, then by days from today.
pub open spec fn due_key(d: Due) -> Seq<u64> {
    str_key(d.date).push(i64_key(d.days_until as i64))
}

/// The day number of the last date chrono can hold (262142-12-31).
pub open spec fn last_day_number() -> int {
    days_from_civil(MAX_YEAR as int, 12, 31)
}

/// The window from `today` to `days` days later stays within the dates chrono
/// can hold.
pub open spec fn window_fits(today: Ymd, days: int) -> bool {
    valid_date(today) && day_number(today) + days <= last_day_number()
}

/// The reminder of the solar date `y-m-d`, if that is a real date within the
/// window.
#[verifier::opaque]
pub open spec fn due_if(
    kind: ReminderType,
    title: Seq<char>,
    y: int,
    m: int,
    d: int,
    lunar: Seq<char>,
    member_id: Option<Seq<char>>,
    grave_id: Option<Seq<char>>,
    today: Ymd,
    days: int,
) -> Seq<Due> {
    let date = Ymd { year: y as i32, month: m as u32, day: d as u32 };
    if valid_ymd(y, m, d) && day_number(today) <= day_number(date) <= day_number(today) + days {
        seq![Due {
            kind,
            title,
            date: ymd_text(date),
            lunar_date: lunar,
            member_id,
            grave_id,
            days_until: day_number(date) - day_number(today),
        }]
    } else {
        Seq::empty()
    }
}

/// The reminder of the lunar date `lm-ld` of lunar year `year`, if it has a
/// solar date within the window.
pub open spec fn lunar_due(
    kind: ReminderType,
    title: Seq<char>,
    year: int,
    lm: int,
    ld: int,
    leap: bool,
    lunar: Seq<char>,
    member_id: Option<Seq<char>>,
    grave_id: Option<Seq<char>>,
    today: Ymd,
    days: int,
) -> Seq<Due> {
    match solar_of_lunar(year, lm, ld, leap) {
        Some((y, m, d)) => due_if(kind, title, y, m, d, lunar, member_id, grave_id, today, days),
        None => Seq::empty(),
    }
}

/// The festivals of one year: Qingming (solar April 5th), Chongyang (lunar
/// 9/9), the Spring Festival (lunar 1/1), Zhongyuan (lunar 7/15) and Hanyi
/// (lunar 10/1), those that fall within the window.
#[verifier::opaque]
pub open spec fn festivals_in(year: int, today: Ymd, days: int) -> Seq<Due> {
    due_if(ReminderType::Festival, "清明节"@, year, 4, 5, "公历 4 月 5 日"@, None, None, today, days)
        + lunar_due(ReminderType::Festival, "重阳节"@, year, 9, 9, false, "农历九月初九"@, None, None, today, days)
        + lunar_due(ReminderType::Festival, "春节"@, year, 1, 1, false, "农历正月初一"@, None, None, today, days)
        + lunar_due(ReminderType::Festival, "中元节"@, year, 7, 15, false, "农历七月十五"@, None, None, today, days)
        + lunar_due(ReminderType::Festival, "寒衣节"@, year, 10, 1, false, "农历十月初一"@, None, None, today, days)
}

/// The festivals of this year and the next two.
pub open spec fn festivals(today: Ymd, days: int) -> Seq<Due> {
    festivals_in(today.year as int, today, days) + festivals_in(today.year + 1, today, days)
        + festivals_in(today.year + 2, today, days)
}

/// The Chinese numeral of 1..=10.
pub open spec fn numeral(n: int) -> char {
    if n == 1 { '一' } else if n == 2 { '二' } else if n == 3 { '三' } else if n == 4 { '四' }
    else if n == 5 { '五' } else if n == 6 { '六' } else if n == 7 { '七' } else if n == 8 { '八' }
    else if n == 9 { '九' } else { '十' }
}

/// The traditional name of a day of a lunar month (初一 .. 三十); other
/// numbers are written as 初 and their decimal digits.
pub open spec fn day_name(d: int) -> Seq<char> {
    if 1 <= d <= 10 {
        seq!['初', numeral(d)]
    } else if 11 <= d <= 19 {
        seq!['十', numeral(d - 10)]
    } else if d == 20 {
        seq!['二', '十']
    } else if 21 <= d <= 29 {
        seq!['廿', numeral(d - 20)]
    } else if d == 30 {
        seq!['三', '十']
    } else {
        seq!['初'] + digits(d as nat)
    }
}

/// The traditional name of a lunar month without its 月: 正 for the first,
/// then 二 .. 十, 十一, 十二; other numbers in decimal digits.
pub open spec fn month_name(m: int) -> Seq<char> {
    if m == 1 {
        seq!['正']
    } else if 2 <= m <= 10 {
        seq![numeral(m)]
    } else if 11 <= m <= 12 {
        seq!['十', numeral(m - 10)]
    } else {
        digits(m as nat)
    }
}

/// The lunar date of an anniversary as shown (such as 农历七月初三): 农历,
/// the month's name, 月 and the day's name.
pub open spec fn lunar_text(month: int, day: int) -> Seq<char> {
    "农历"@ + month_name(month) + seq!['月'] + day_name(day)
}

/// The title of a member's anniversary: title, name and 忌日.
pub open spec fn mourning_title(m: Member) -> Seq<char> {
    (match m.title {
        Some(t) => t@,
        None => Seq::<char>::empty(),
    }) + m.name@ + " 忌日"@
}

/// The member has a death date that is not empty.
pub open spec fn has_death_date(m: Member) -> bool {
    m.death_date matches Some(s) && s@.len() > 0
}

pub open spec fn death_text(m: Member) -> Seq<char> {
    match m.death_date {
        Some(s) => s@,
        None => Seq::empty(),
    }
}

/// A member's anniversaries once its death date has the lunar month `lm`,
/// day `ld` (in a leap month when `leap`): that lunar month and day in this
/// lunar year and the next two, where those fall within the window, titled
/// after the member and carrying its grave.
pub open spec fn anniversary_dues(m: Member, lm: int, ld: int, leap: bool, today: Ymd, days: int) -> Seq<Due> {
    let title = mourning_title(m);
    let lunar = lunar_text(lm, ld);
    let mid = Some(m.id@);
    let gid = opt_view(m.grave_id);
    lunar_due(ReminderType::DeathAnniversary, title, today.year as int, lm, ld, leap, lunar, mid, gid, today, days)
        + lunar_due(ReminderType::DeathAnniversary, title, today.year + 1, lm, ld, leap, lunar, mid, gid, today, days)
        + lunar_due(ReminderType::DeathAnniversary, title, today.year + 2, lm, ld, leap, lunar, mid, gid, today, days)
}

/// A member's anniversaries: the lunar date of the death date, taken in this
/// lunar year and the next two, where those fall within the window. A death
/// date that does not read as a date, or has no lunar date, gives none.
#[verifier::opaque]
pub open spec fn anniversaries(m: Member, today: Ymd, days: int) -> Seq<Due> {
    match parsed_date(death_text(m)) {
        Some((y, mo, d)) => match lunar_of_solar(y, mo, d) {
            Some((ly, lm, ld, leap)) => anniversary_dues(m, lm, ld, leap, today, days),
            None => Seq::empty(),
        },
        None => Seq::empty(),
    }
}

/// The anniversaries of the members, in table order.
pub open spec fn death_dues(ms: Seq<Member>, today: Ymd, days: int) -> Seq<Due>
    decreases ms.len(),
{
    if ms.len() == 0 {
        Seq::empty()
    } else {
        death_dues(ms.drop_last(), today, days) + if has_death_date(ms.last()) {
            anniversaries(ms.last(), today, days)
        } else {
            Seq::<Due>::empty()
        }
    }
}

/// All reminders before ordering: anniversaries, then festivals.
pub open spec fn reminder_dues(v: DbView, today: Ymd, days: int) -> Seq<Due> {
    death_dues(v.members, today, days) + festivals(today, days)
}

/// `out` lists the reminders of a window of `days` days from some valid
/// date, ordered by date.
pub open spec fn listed_reminders(v: DbView, days: int, out: Seq<Reminder>) -> bool {
    exists|today: Ymd| window_fits(today, days)
        && sorted_rows(#[trigger] reminder_dues(v, today, days), |d: Due| due_key(d),
            out.map_values(|x: Reminder| due_of(x)))
}

/// A member has a non-empty death date but no grave. The reminders read the
/// grave of every dated member, and such a row cannot be read.
pub open spec fn dated_without_grave(v: DbView) -> bool {
    exists|i: int| 0 <= i < v.members.len() && #[trigger] has_death_date(v.members[i])
        && v.members[i].grave_id is None
}

/// The error a listing of reminders fails with on a dated member without a grave.
pub open spec fn grave_column_error() -> Seq<char> {
    "Invalid column type Null at index: 1, name: grave_id"@
}

/// `new` is `old` with rows appended: the rows already there are kept whole.
pub open spec fn extends<T>(new: Seq<T>, old: Seq<T>) -> bool {
    new.len() >= old.len() && new.subrange(0, old.len() as int) == old
}

proof fn lemma_extends_trans<T>(a: Seq<T>, b: Seq<T>, c: Seq<T>)
    requires
        extends(b, a),
        extends(c, b),
    ensures
        extends(c, a),
{
    assert(c.subrange(0, a.len() as int) =~= b.subrange(0, a.len() as int));
}

/// A window of `days` days from some valid date runs past the last date
/// chrono can hold.
pub open spec fn window_may_overflow(days: int) -> bool {
    exists|today: Ymd| valid_date(today) && !#[trigger] window_fits(today, days)
}

// ---------------------------------------------------------------------------
// Texts
// ---------------------------------------------------------------------------

fn numeral_of(n: u8) -> (c: char)
    requires
        1 <= n <= 10,
    ensures
        c == numeral(n as int),
{
    if n == 1 { '一' } else if n == 2 { '二' } else if n == 3 { '三' } else if n == 4 { '四' }
    else if n == 5 { '五' } else if n == 6 { '六' } else if n == 7 { '七' } else if n == 8 { '八' }
    else if n == 9 { '九' } else { '十' }
}

/// The traditional name of a day of a lunar month.
pub fn lunar_day_name(day: u8) -> (s: String)
    ensures
        s@ == day_name(day as int),
{
    let mut v: Vec<char> = Vec::new();
    if 1 <= day && day <= 10 {
        v.push('初');
        v.push(numeral_of(day));
    } else if 11 <= day && day <= 19 {
        v.push('十');
        v.push(numeral_of(day - 10));
    } else if day == 20 {
        v.push('二');
        v.push('十');
    } else if 21 <= day && day <= 29 {
        v.push('廿');
        v.push(numeral_of(day - 20));
    } else if day == 30 {
        v.push('三');
        v.push('十');
    } else {
        v.push('初');
        push_digits(&mut v, day as u64);
    }
    assert(v@ =~= day_name(day as int));
    string_from_chars(&v)
}

/// The lunar date of an anniversary as shown (see `lunar_text`).
pub fn lunar_label(month: u8, day: u8) -> (s: String)
    ensures
        s@ == lunar_text(month as int, day as int),
{
    let mut v = chars_of("农历");
    if month == 1 {
        v.push('正');
    } else if 2 <= month && month <= 10 {
        v.push(numeral_of(month));
    } else if 11 <= month && month <= 12 {
        v.push('十');
        v.push(numeral_of(month - 10));
    } else {
        push_digits(&mut v, month as u64);
    }
    v.push('月');
    let name = lunar_day_name(day);
    let mut w = chars_of(name.as_str());
    v.append(&mut w);
    assert(v@ =~= lunar_text(month as int, day as int));
    string_from_chars(&v)
}

fn mourning_title_of(m: &Member) -> (s: String)
    ensures
        s@ == mourning_title(*m),
{
    let mut v: Vec<char> = match &m.title {
        Some(t) => chars_of(t.as_str()),
        None => Vec::new(),
    };
    let mut n = chars_of(m.name.as_str());
    v.append(&mut n);
    let mut tail = chars_of(" 忌日");
    v.append(&mut tail);
    assert(v@ =~= mourning_title(*m));
    string_from_chars(&v)
}

// ---------------------------------------------------------------------------
// Collecting reminders
// ---------------------------------------------------------------------------

/// The reminder of the solar date `y-m-d`, if that is a real date that falls
/// within the window of `days` days from `today`; its id is fresh.
pub fn due_reminder(
    kind: ReminderType,
    title: &String,
    y: i32,
    m: u32,
    d: u32,
    lunar: &String,
    member_id: &Option<String>,
    grave_id: &Option<String>,
    today: Ymd,
    days: u32,
) -> (r: Option<Reminder>)
    requires
        window_fits(today, days as int),
    ensures
        match r {
            Some(x) => due_if(kind, title@, y as int, m as int, d as int, lunar@, opt_view(*member_id),
                opt_view(*grave_id), today, days as int) == seq![due_of(x)],
            None => due_if(kind, title@, y as int, m as int, d as int, lunar@, opt_view(*member_id),
                opt_view(*grave_id), today, days as int) == Seq::<Due>::empty(),
        },
{
    proof {
        reveal(due_if);
    }
    match date_opt(y, m, d) {
        Some(date) => {
            let dn = day_number_of(date);
            let tn = day_number_of(today);
            if tn <= dn && dn <= tn + days as i64 {
                let r = Reminder {
                    id: new_uuid(),
                    reminder_type: kind,
                    title: title.clone(),
                    date: format_ymd(date),
                    lunar_date: lunar.clone(),
                    member_id: clone_opt(member_id),
                    grave_id: clone_opt(grave_id),
                    days_until: dn - tn,
                };
                assert(due_if(kind, title@, y as int, m as int, d as int, lunar@, opt_view(*member_id),
                    opt_view(*grave_id), today, days as int) =~= seq![due_of(r)]);
                Some(r)
            } else {
                None
            }
        },
        None => None,
    }
}

/// Appends the reminder of `y-m-d` if that is a real date within the window.
fn add_if_due(
    out: &mut Vec<Reminder>,
    kind: ReminderType,
    title: &String,
    y: i32,
    m: u32,
    d: u32,
    lunar: &String,
    member_id: &Option<String>,
    grave_id: &Option<String>,
    today: Ymd,
    days: u32,
)
    requires
        window_fits(today, days as int),
    ensures
        extends(final(out)@, old(out)@),
        final(out)@.map_values(|r: Reminder| due_of(r)) == old(out)@.map_values(|r: Reminder| due_of(r))
            + due_if(kind, title@, y as int, m as int, d as int, lunar@, opt_view(*member_id),
                opt_view(*grave_id), today, days as int),
{
    let ghost before = out@;
    match due_reminder(kind, title, y, m, d, lunar, member_id, grave_id, today, days) {
        Some(r) => {
            out.push(r);
            assert(out@.subrange(0, before.len() as int) =~= before);
            assert(out@.map_values(|r: Reminder| due_of(r))
                =~= before.map_values(|r: Reminder| due_of(r)).push(due_of(r)));
        },
        None => {},
    }
    assert(out@.subrange(0, before.len() as int) =~= before);
    assert(out@.map_values(|r: Reminder| due_of(r)) =~= before.map_values(|r: Reminder| due_of(r))
        + due_if(kind, title@, y as int, m as int, d as int, lunar@, opt_view(*member_id),
        opt_view(*grave_id), today, days as int));
}

/// Appends the reminder of a lunar date if its solar date falls within the window.
fn add_lunar_due(
    out: &mut Vec<Reminder>,
    kind: ReminderType,
    title: &String,
    year: i32,
    lm: u8,
    ld: u8,
    leap: bool,
    lunar: &String,
    member_id: &Option<String>,
    grave_id: &Option<String>,
    today: Ymd,
    days: u32,
)
    requires
        window_fits(today, days as int),
    ensures
        extends(final(out)@, old(out)@),
        final(out)@.map_values(|r: Reminder| due_of(r)) == old(out)@.map_values(|r: Reminder| due_of(r))
            + lunar_due(kind, title@, year as int, lm as int, ld as int, leap, lunar@,
                opt_view(*member_id), opt_view(*grave_id), today, days as int),
{
    match solar_from_lunar(year, lm, ld, leap) {
        Some(s) => {
            add_if_due(out, kind, title, s.year, s.month, s.day, lunar, member_id, grave_id, today, days);
        },
        None => {
            assert(old(out)@.map_values(|r: Reminder| due_of(r)) + Seq::<Due>::empty()
                =~= old(out)@.map_values(|r: Reminder| due_of(r)));
            assert(out@.subrange(0, out@.len() as int) =~= out@);
        },
    }
}

/// Appends the festivals of one year that fall within the window.
fn add_festivals_in(out: &mut Vec<Reminder>, year: i32, today: Ymd, days: u32)
    requires
        window_fits(today, days as int),
    ensures
        extends(final(out)@, old(out)@),
        final(out)@.map_values(|r: Reminder| due_of(r)) == old(out)@.map_values(|r: Reminder| due_of(r))
            + festivals_in(year as int, today, days as int),
{
    let ghost start = out@.map_values(|r: Reminder| due_of(r));
    proof {
        reveal(festivals_in);
    }
    let none: Option<String> = None;
    let kind = ReminderType::Festival;
    let ghost o0 = out@;
    add_if_due(out, kind, &string_of("清明节"), year, 4, 5, &string_of("公历 4 月 5 日"), &none, &none, today, days);
    let ghost o1 = out@;
    add_lunar_due(out, kind, &string_of("重阳节"), year, 9, 9, false, &string_of("农历九月初九"), &none, &none, today, days);
    proof { lemma_extends_trans(o0, o1, out@); }
    let ghost o2 = out@;
    add_lunar_due(out, kind, &string_of("春节"), year, 1, 1, false, &string_of("农历正月初一"), &none, &none, today, days);
    proof { lemma_extends_trans(o0, o2, out@); }
    let ghost o3 = out@;
    add_lunar_due(out, kind, &string_of("中元节"), year, 7, 15, false, &string_of("农历七月十五"), &none, &none, today, days);
    proof { lemma_extends_trans(o0, o3, out@); }
    let ghost o4 = out@;
    add_lunar_due(out, kind, &string_of("寒衣节"), year, 10, 1, false, &string_of("农历十月初一"), &none, &none, today, days);
    proof { lemma_extends_trans(o0, o4, out@); }
    assert(out@.map_values(|r: Reminder| due_of(r)) =~= start + festivals_in(year as int, today, days as int));
}

/// Appends a member's anniversaries once its death date has the lunar date
/// `l`: the lunar month and day of `l` in this lunar year and the next two,
/// where their solar dates fall within the window.
pub fn add_lunar_anniversaries(out: &mut Vec<Reminder>, m: &Member, l: LunarDay, today: Ymd, days: u32)
    requires
        window_fits(today, days as int),
        today.year + 2 <= i32::MAX,
    ensures
        extends(final(out)@, old(out)@),
        final(out)@.map_values(|r: Reminder| due_of(r)) == old(out)@.map_values(|r: Reminder| due_of(r))
            + anniversary_dues(*m, l.month as int, l.day as int, l.leap, today, days as int),
{
    let ghost o0 = out@;
    let ghost start = out@.map_values(|r: Reminder| due_of(r));
    let title = mourning_title_of(m);
    let lunar = lunar_label(l.month, l.day);
    let mid = Some(m.id.clone());
    let kind = ReminderType::DeathAnniversary;
    add_lunar_due(out, kind, &title, today.year, l.month, l.day, l.leap, &lunar, &mid, &m.grave_id, today, days);
    let ghost o1 = out@;
    add_lunar_due(out, kind, &title, today.year + 1, l.month, l.day, l.leap, &lunar, &mid, &m.grave_id, today, days);
    proof { lemma_extends_trans(o0, o1, out@); }
    let ghost o2 = out@;
    add_lunar_due(out, kind, &title, today.year + 2, l.month, l.day, l.leap, &lunar, &mid, &m.grave_id, today, days);
    proof { lemma_extends_trans(o0, o2, out@); }
    assert(out@.map_values(|r: Reminder| due_of(r)) =~= start
        + anniversary_dues(*m, l.month as int, l.day as int, l.leap, today, days as int));
}

/// Appends a member's anniversaries that fall within the window.
fn add_anniversaries(out: &mut Vec<Reminder>, m: &Member, today: Ymd, days: u32)
    requires
        window_fits(today, days as int),
        today.year + 2 <= i32::MAX,
    ensures
        extends(final(out)@, old(out)@),
        final(out)@.map_values(|r: Reminder| due_of(r)) == old(out)@.map_values(|r: Reminder| due_of(r))
            + anniversaries(*m, today, days as int),
{
    let ghost start = out@.map_values(|r: Reminder| due_of(r));
    proof {
        reveal(anniversaries);
    }
    let text: &str = match &m.death_date {
        Some(s) => s.as_str(),
        None => "",
    };
    proof {
        if m.death_date is None {
            reveal_strlit("");
        }
    }
    assert(text@ == death_text(*m));
    match parse_date(text) {
        Some(sd) => {
            match lunar_from_solar(sd) {
                Some(l) => {
                    add_lunar_anniversaries(out, m, l, today, days);
                },
                None => {
                    assert(out@.map_values(|r: Reminder| due_of(r)) =~= start + anniversaries(*m, today, days as int));
                    assert(out@.subrange(0, out@.len() as int) =~= out@);
                },
            }
        },
        None => {
            assert(out@.map_values(|r: Reminder| due_of(r)) =~= start + anniversaries(*m, today, days as int));
            assert(out@.subrange(0, out@.len() as int) =~= out@);
        },
    }
}

fn reminder_key(r: &Reminder) -> (k: Vec<u64>)
    ensures
        k@ == due_key(due_of(*r)),
{
    let mut k: Vec<u64> = Vec::new();
    push_str_key(&mut k, r.date.as_str());
    k.push(i64_key_of(r.days_until));
    assert(k@ =~= due_key(due_of(*r)));
    k
}

/// Whether a text is empty.
fn is_empty_text(s: &str) -> (r: bool)
    ensures
        r == (s@.len() == 0),
{
    s.unicode_len() == 0
}

impl ClanTrailDb {
    /// The reminders from `today` to `days` days later: each member's lunar
    /// death anniversaries in this lunar year and the next two, and the
    /// festivals of this year and the next two, ordered by date. An
    /// anniversary carries the member's grave; a member with a death date but
    /// no grave fails the listing with a database error.
    pub fn list_reminders_on(&self, today: Ymd, days: u32) -> (r: Result<Vec<Reminder>, AppError>)
        requires
            window_fits(today, days as int),
        ensures
            dated_without_grave(self@) ==> (r matches Err(AppError::Database(msg)) && msg@ == grave_column_error()),
            !dated_without_grave(self@) ==> (r matches Ok(v) && sorted_rows(reminder_dues(self@, today, days as int),
                |d: Due| due_key(d), v@.map_values(|x: Reminder| due_of(x)))),
    {
        let members = self.members();
        let mut k: usize = 0;
        while k < members.len()
            invariant
                k <= members.len(),
                members@ == self@.members,
                forall|j: int| 0 <= j < k ==> !(#[trigger] has_death_date(members@[j]) && members@[j].grave_id is None),
            decreases members.len() - k,
        {
            let m = &members[k];
            let dated = match &m.death_date {
                Some(s) => !is_empty_text(s.as_str()),
                None => false,
            };
            if dated && m.grave_id.is_none() {
                assert(has_death_date(members@[k as int]) && members@[k as int].grave_id is None);
                return Err(AppError::Database(string_of("Invalid column type Null at index: 1, name: grave_id")));
            }
            k = k + 1;
        }
        let mut rows: Vec<Reminder> = Vec::new();
        let mut i: usize = 0;
        while i < members.len()
            invariant
                i <= members.len(),
                members@ == self@.members,
                window_fits(today, days as int),
                rows@.map_values(|x: Reminder| due_of(x)) == death_dues(members@.take(i as int), today, days as int),
            decreases members.len() - i,
        {
            let m = &members[i];
            proof {
                assert(members@.take(i as int + 1).drop_last() =~= members@.take(i as int));
                assert(members@.take(i as int + 1).last() == members@[i as int]);
            }
            let dated = match &m.death_date {
                Some(s) => !is_empty_text(s.as_str()),
                None => false,
            };
            if dated {
                proof {
                    assert(today.year <= MAX_YEAR);
                }
                add_anniversaries(&mut rows, m, today, days);
            } else {
                assert(rows@.map_values(|x: Reminder| due_of(x)) + Seq::<crate::reminders::Due>::empty()
                    =~= rows@.map_values(|x: Reminder| due_of(x)));
            }
            i = i + 1;
        }
        assert(members@.take(members.len() as int) =~= members@);
        add_festivals_in(&mut rows, today.year, today, days);
        add_festivals_in(&mut rows, today.year + 1, today, days);
        add_festivals_in(&mut rows, today.year + 2, today, days);
        assert(rows@.map_values(|x: Reminder| due_of(x)) =~= reminder_dues(self@, today, days as int));
        let ghost kf = |x: Reminder| due_key(due_of(x));
        let ghost unsorted = rows@;
        let sorted = order_rows(rows, |x: &Reminder| -> (k: Vec<u64>) ensures k@ == due_key(due_of(*x)) { reminder_key(x) },
            Ghost(kf));
        proof {
            lemma_sorted_projection(unsorted, |x: Reminder| due_of(x), |d: Due| due_key(d), kf, sorted@);
        }
        Ok(sorted)
    }

    /// The reminders of the next `days` days from today on the local clock.
    /// Fails as `General` where the window would run past the last date
    /// chrono can hold, and as `Database` on a member with a death date but
    /// no grave.
    pub fn list_reminders(&self, days: u32) -> (r: Result<Vec<Reminder>, AppError>)
        ensures
            match r {
                Ok(v) => listed_reminders(self@, days as int, v@),
                Err(AppError::General(_)) => window_may_overflow(days as int),
                Err(AppError::Database(msg)) => dated_without_grave(self@) && msg@ == grave_column_error(),
                Err(_) => false,
            },
    {
        let today = today_local();
        let last = day_number_of(Ymd { year: MAX_YEAR, month: 12, day: 31 });
        if day_number_of(today) + days as i64 > last {
            assert(!window_fits(today, days as int));
            return Err(AppError::General(string_of("`NaiveDate + TimeDelta` overflowed")));
        }
        let r = self.list_reminders_on(today, days);
        proof {
            if r is Ok {
                let v = r.unwrap();
                assert(window_fits(today, days as int));
                assert(sorted_rows(reminder_dues(self@, today, days as int), |d: Due| due_key(d),
                    v@.map_values(|x: Reminder| due_of(x))));
            }
        }
        r
    }
}

} // verus!

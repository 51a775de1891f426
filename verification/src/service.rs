//! The rules of the HTTP service around the store: paging of listings, the
//! status and message an error is answered with, the origins allowed to call,
//! and the combined search.
use vstd::prelude::*;
use crate::clan::clan_order;
use crate::db::{ClanTrailDb, concat_str};
use crate::error::AppError;
use crate::grave::grave_order;
use crate::models::{Clan, Grave, NewEdge, Reminder};
use crate::reminders::{listed_reminders, window_may_overflow, dated_without_grave, grave_column_error};
use crate::search::{clan_matches, contains_pattern, grave_has_matching_member, grave_matches};
use crate::sort::sorted_rows;
use crate::text::{chars_of, str_eq, string_of};

verus! {

// ---------------------------------------------------------------------------
// Paging
// ---------------------------------------------------------------------------

/// Where a page starts: the offset, or the end where it lies beyond.
pub open spec fn page_start(len: nat, offset: Option<usize>) -> int {
    let o: int = match offset {
        Some(o) => o as int,
        None => 0,
    };
    if o < len { o } else { len as int }
}

/// Where a page ends: `limit` items after its start, or the end.
pub open spec fn page_end(len: nat, limit: Option<usize>, offset: Option<usize>) -> int {
    let s = page_start(len, offset);
    match limit {
        Some(n) => if s + n < len { s + n } else { len as int },
        None => len as int,
    }
}

/// The page of `s` that skips `offset` items and keeps at most `limit`;
/// without them, everything.
pub open spec fn page<T>(s: Seq<T>, limit: Option<usize>, offset: Option<usize>) -> Seq<T> {
    s.subrange(page_start(s.len(), offset), page_end(s.len(), limit, offset))
}

/// The page of a listing (see `page`).
pub fn paginate<T>(items: Vec<T>, limit: Option<usize>, offset: Option<usize>) -> (r: Vec<T>)
    ensures
        r@ == page(items@, limit, offset),
{
    let ghost all = items@;
    let len = items.len();
    let o: usize = match offset {
        Some(o) => o,
        None => 0,
    };
    let start: usize = if o < len { o } else { len };
    let mut v = items;
    let mut rest = v.split_off(start);
    match limit {
        Some(n) => {
            if n < rest.len() {
                rest.truncate(n);
            }
        },
        None => {},
    }
    assert(rest@ =~= page(all, limit, offset));
    rest
}

// ---------------------------------------------------------------------------
// Answers to errors
// ---------------------------------------------------------------------------

/// The HTTP status an error is answered with.
pub open spec fn error_status(e: AppError) -> u16 {
    match e {
        AppError::NotFound(_) => 404,
        AppError::InvalidInput(_) => 400,
        _ => 500,
    }
}

/// The message an error is answered with: what was not found, the reason an
/// input was refused, the message of a general failure; storage and encoding
/// failures are not described to the caller.
pub open spec fn error_message(e: AppError) -> Seq<char> {
    match e {
        AppError::NotFound(w) => "not found: "@ + w@,
        AppError::InvalidInput(m) => m@,
        AppError::General(m) => m@,
        _ => "internal server error"@,
    }
}

/// The status and message an error is answered with.
pub fn error_response(e: &AppError) -> (r: (u16, String))
    ensures
        r.0 == error_status(*e),
        r.1@ == error_message(*e),
{
    match e {
        AppError::NotFound(w) => (404, concat_str("not found: ", w.as_str())),
        AppError::InvalidInput(m) => (400, string_of(m.as_str())),
        AppError::General(m) => (500, string_of(m.as_str())),
        AppError::Database(_) => (500, string_of("internal server error")),
        AppError::Serde(_) => (500, string_of("internal server error")),
    }
}

// ---------------------------------------------------------------------------
// Origins
// ---------------------------------------------------------------------------

pub open spec fn text_starts_with(s: Seq<char>, p: Seq<char>) -> bool {
    p.len() <= s.len() && s.take(p.len() as int) == p
}

/// A port number as an origin writes it: one or more decimal digits.
pub open spec fn port_text(p: Seq<char>) -> bool {
    p.len() > 0 && forall|i: int| 0 <= i < p.len() ==> '0' <= #[trigger] p[i] <= '9'
}

/// The origin is `base` itself, or `base` followed by `:` and a port.
pub open spec fn origin_at(s: Seq<char>, base: Seq<char>) -> bool {
    ||| s == base
    ||| text_starts_with(s, base.push(':')) && port_text(s.skip(base.len() as int + 1))
}

/// The origins allowed to call the service: the app's own web view
/// (`tauri://localhost`, `http(s)://tauri.localhost`) and pages served from
/// this machine (`http://localhost`, `http://127.0.0.1`), on any port.
pub open spec fn local_origin(s: Seq<char>) -> bool {
    ||| s == "tauri://localhost"@
    ||| origin_at(s, "http://tauri.localhost"@)
    ||| origin_at(s, "https://tauri.localhost"@)
    ||| origin_at(s, "http://127.0.0.1"@)
    ||| origin_at(s, "http://localhost"@)
}

/// Whether a text begins with another.
pub fn starts_with_text(s: &str, p: &str) -> (r: bool)
    ensures
        r == text_starts_with(s@, p@),
{
    let a = chars_of(s);
    let b = chars_of(p);
    if b.len() > a.len() {
        return false;
    }
    let mut i: usize = 0;
    while i < b.len()
        invariant
            b@.len() <= a@.len(),
            i <= b@.len(),
            a@ == s@,
            b@ == p@,
            forall|k: int| 0 <= k < i ==> a@[k] == b@[k],
        decreases b.len() - i,
    {
        if a[i] != b[i] {
            proof {
                if text_starts_with(s@, p@) {
                    assert(s@.take(p@.len() as int)[i as int] == a@[i as int]);
                }
            }
            return false;
        }
        i = i + 1;
    }
    assert(s@.take(p@.len() as int) =~= p@);
    true
}

/// Whether an origin is `base`, optionally with a port (see `origin_at`).
pub fn is_origin_at(origin: &str, base: &str) -> (r: bool)
    ensures
        r == origin_at(origin@, base@),
{
    let a = chars_of(origin);
    let b = chars_of(base);
    if crate::text::chars_eq(&a, &b) {
        return true;
    }
    let n = b.len();
    proof {
        if text_starts_with(origin@, base@.push(':')) {
            let t = origin@.take(n + 1);
            assert(t == base@.push(':'));
            assert(origin@.take(n as int) =~= base@) by {
                assert forall|k: int| 0 <= k < n implies origin@.take(n as int)[k] == base@[k] by {
                    assert(t[k] == origin@[k]);
                    assert(base@.push(':')[k] == base@[k]);
                }
            }
            assert(t[n as int] == origin@[n as int]);
        }
    }
    if a.len() <= n || !starts_with_text(origin, base) || a[n] != ':' || a.len() == n + 1 {
        return false;
    }
    let mut i: usize = n + 1;
    while i < a.len()
        invariant
            a@ == origin@,
            b@ == base@,
            n == base@.len(),
            origin@ != base@,
            text_starts_with(origin@, base@),
            a@[n as int] == ':',
            n + 1 <= i <= a@.len(),
            forall|k: int| n + 1 <= k < i ==> '0' <= #[trigger] a@[k] <= '9',
        decreases a.len() - i,
    {
        if a[i] < '0' || a[i] > '9' {
            proof {
                let k = i - (n + 1);
                assert(origin@.skip(n + 1)[k] == a@[i as int]);
                assert(!('0' <= origin@.skip(n + 1)[k] <= '9'));
                assert(!port_text(origin@.skip(n + 1)));
                assert(origin@ != base@);
            }
            return false;
        }
        i = i + 1;
    }
    proof {
        assert(origin@.take(n + 1) =~= base@.push(':')) by {
            assert(origin@.take(n as int) =~= base@);
            assert forall|k: int| 0 <= k < n + 1 implies origin@.take(n + 1)[k] == base@.push(':')[k] by {
                if k < n {
                    assert(origin@.take(n as int)[k] == origin@[k]);
                }
            }
        }
        assert forall|k: int| 0 <= k < origin@.skip(n + 1).len() implies '0' <= #[trigger] origin@.skip(n + 1)[k] <= '9' by {
            assert(origin@.skip(n + 1)[k] == a@[k + n + 1]);
        }
    }
    true
}

/// Whether a request's origin may call the service (see `local_origin`).
pub fn is_local_origin(origin: &str) -> (r: bool)
    ensures
        r == local_origin(origin@),
{
    str_eq(origin, "tauri://localhost") || is_origin_at(origin, "http://tauri.localhost")
        || is_origin_at(origin, "https://tauri.localhost") || is_origin_at(origin, "http://127.0.0.1")
        || is_origin_at(origin, "http://localhost")
}

// ---------------------------------------------------------------------------
// Requests
// ---------------------------------------------------------------------------

/// An edge posted under a member's path must start at that member.
pub fn check_edge_path(path_id: &str, input: &NewEdge) -> (r: Result<(), AppError>)
    ensures
        input.member_id@ == path_id@ <==> r is Ok,
        r matches Err(e) ==> (e matches AppError::InvalidInput(m) && m@ == "member_id in path does not match body"@),
{
    if str_eq(input.member_id.as_str(), path_id) {
        Ok(())
    } else {
        Err(AppError::InvalidInput(string_of("member_id in path does not match body")))
    }
}

/// The window of reminders when a request names none, in days.
pub const DEFAULT_REMINDER_DAYS: u32 = 90;

/// How far the ego graph of a member reaches, in edges.
pub const EGO_GRAPH_DEPTH: usize = 2;

/// The search results of the three kinds.
#[derive(Debug)]
pub struct SearchResults {
    pub graves: Vec<Grave>,
    pub members: Vec<Grave>,
    pub clans: Vec<Clan>,
}

impl ClanTrailDb {
    /// Searches graves, graves by their members, and clans for a keyword,
    /// each listing paged alike.
    pub fn search_all(&self, keyword: &str, limit: Option<usize>, offset: Option<usize>)
        -> (r: Result<SearchResults, AppError>)
        ensures
            r matches Ok(res) && {
                &&& exists|g: Seq<Grave>| sorted_rows(self@.graves.filter(grave_matches(contains_pattern(keyword@))),
                    |x: Grave| grave_order(x), g) && res.graves@ == #[trigger] page(g, limit, offset)
                &&& exists|g: Seq<Grave>| sorted_rows(self@.graves.filter(grave_has_matching_member(self@.members,
                    contains_pattern(keyword@))), |x: Grave| grave_order(x), g) && res.members@ == #[trigger] page(g, limit, offset)
                &&& exists|c: Seq<Clan>| sorted_rows(self@.clans.filter(clan_matches(contains_pattern(keyword@))),
                    |x: Clan| clan_order(x), c) && res.clans@ == #[trigger] page(c, limit, offset)
            },
    {
        let graves = match self.search_graves(keyword) {
            Ok(v) => v,
            Err(e) => return Err(e),
        };
        let ghost g1 = graves@;
        let by_member = match self.search_members(keyword) {
            Ok(v) => v,
            Err(e) => return Err(e),
        };
        let ghost g2 = by_member@;
        let clans = match self.search_clans(keyword) {
            Ok(v) => v,
            Err(e) => return Err(e),
        };
        let ghost c1 = clans@;
        let res = SearchResults {
            graves: paginate(graves, limit, offset),
            members: paginate(by_member, limit, offset),
            clans: paginate(clans, limit, offset),
        };
        assert(res.graves@ == page(g1, limit, offset));
        assert(res.members@ == page(g2, limit, offset));
        assert(res.clans@ == page(c1, limit, offset));
        Ok(res)
    }

    /// A page of the reminders of the next `days` days (by default
    /// `DEFAULT_REMINDER_DAYS`) from today on the local clock.
    pub fn reminders_page(&self, days: Option<u32>, limit: Option<usize>, offset: Option<usize>)
        -> (r: Result<Vec<Reminder>, AppError>)
        ensures
            match r {
                Ok(v) => exists|all: Seq<Reminder>|
                    listed_reminders(self@, reminder_days(days) as int, all) && v@ == #[trigger] page(all, limit, offset),
                Err(AppError::General(_)) => window_may_overflow(reminder_days(days) as int),
                Err(AppError::Database(msg)) => dated_without_grave(self@) && msg@ == grave_column_error(),
                Err(_) => false,
            },
    {
        let d: u32 = match days {
            Some(d) => d,
            None => DEFAULT_REMINDER_DAYS,
        };
        match self.list_reminders(d) {
            Ok(all) => {
                let ghost whole = all@;
                let v = paginate(all, limit, offset);
                assert(listed_reminders(self@, reminder_days(days) as int, whole) && v@ == page(whole, limit, offset));
                Ok(v)
            },
            Err(e) => Err(e),
        }
    }
}

/// The window of reminders a request asks for, in days.
pub open spec fn reminder_days(days: Option<u32>) -> u32 {
    match days {
        Some(d) => d,
        None => DEFAULT_REMINDER_DAYS,
    }
}

} // verus!

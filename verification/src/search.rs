//! Keyword search over graves, members and clans, with the matching rules of
//! an SQL `LIKE '%keyword%'` pattern.
use vstd::prelude::*;
use crate::clan::clan_order;
use crate::db::ClanTrailDb;
use crate::error::AppError;
use crate::grave::{grave_order, grave_key};
use crate::models::{Clan, Grave, Member};
use crate::sort::{order_rows, sorted_rows};
use crate::store::{contains_str, retain_where};
use crate::text::{chars_of, string_of};
use crate::graph::view_of;

verus! {

/// Case folding of pattern matching: ASCII letters only.
pub open spec fn fold(c: char) -> u32 {
    let v = c as u32;
    if 65 <= v <= 90 { (v + 32) as u32 } else { v }
}

/// Whether text `t` matches pattern `p`: `%` matches any run of characters,
/// `_` any one character, and any other character itself, ignoring the case
/// of ASCII letters.
pub open spec fn like(p: Seq<char>, t: Seq<char>) -> bool
    decreases p.len(), t.len(),
{
    if p.len() == 0 {
        t.len() == 0
    } else if p[0] == '%' {
        like(p.drop_first(), t) || (t.len() > 0 && like(p, t.drop_first()))
    } else if t.len() == 0 {
        false
    } else if p[0] == '_' {
        like(p.drop_first(), t.drop_first())
    } else {
        fold(p[0]) == fold(t[0]) && like(p.drop_first(), t.drop_first())
    }
}

/// The pattern a keyword is searched with: `%keyword%`.
pub open spec fn contains_pattern(keyword: Seq<char>) -> Seq<char> {
    seq!['%'] + keyword + seq!['%']
}

/// An optional column matches only when present.
pub open spec fn like_opt(p: Seq<char>, o: Option<String>) -> bool {
    o matches Some(s) && like(p, s@)
}

pub open spec fn grave_matches(p: Seq<char>) -> spec_fn(Grave) -> bool {
    |g: Grave| like(p, g.name@) || like_opt(p, g.address) || like_opt(p, g.description)
}

pub open spec fn member_matches(p: Seq<char>) -> spec_fn(Member) -> bool {
    |m: Member| like(p, m.name@) || like_opt(p, m.biography)
}

pub open spec fn clan_matches(p: Seq<char>) -> spec_fn(Clan) -> bool {
    |c: Clan| like(p, c.name@) || like_opt(p, c.origin)
}

/// A grave holds a member whose name or biography matches.
pub open spec fn grave_has_matching_member(members: Seq<Member>, p: Seq<char>) -> spec_fn(Grave) -> bool {
    |g: Grave| exists|k: int| 0 <= k < members.len() && #[trigger] member_matches(p)(members[k])
        && crate::store::opt_is(members[k].grave_id, g.id@)
}

fn fold_of(c: char) -> (r: u32)
    ensures
        r == fold(c),
{
    let v = c as u32;
    if 65 <= v && v <= 90 { v + 32 } else { v }
}

/// Whether text `t` matches pattern `p` (see `like`).
pub fn like_match(p: &Vec<char>, t: &Vec<char>) -> (r: bool)
    ensures
        r == like(p@, t@),
{
    let np = p.len();
    let nt = t.len();
    // row i holds like(p[i..], t[j..]) for every j
    let mut next: Vec<bool> = Vec::new();
    let mut j: usize = 0;
    while j < nt
        invariant
            j <= nt,
            nt == t@.len(),
            next@.len() == j,
            forall|k: int| 0 <= k < j ==> next@[k] == (t@.skip(k).len() == 0),
        decreases nt - j,
    {
        next.push(false);
        j = j + 1;
    }
    next.push(true);
    proof {
        assert forall|k: int| 0 <= k <= nt implies #[trigger] next@[k] == like(p@.skip(np as int), t@.skip(k)) by {
            assert(p@.skip(np as int).len() == 0);
        }
    }
    let mut i: usize = np;
    while i > 0
        invariant
            i <= np,
            np == p@.len(),
            nt == t@.len(),
            next@.len() == nt + 1,
            forall|k: int| 0 <= k <= nt ==> #[trigger] next@[k] == like(p@.skip(i as int), t@.skip(k)),
        decreases i,
    {
        let ii = i - 1;
        let pc = p[ii];
        let mut cur: Vec<bool> = Vec::new();
        let mut k: usize = 0;
        while k < nt
            invariant
                k <= nt,
                cur@.len() == k,
            decreases nt - k,
        {
            cur.push(false);
            k = k + 1;
        }
        cur.push(false);
        let mut jj: usize = next.len();
        while jj > 0
            invariant
                jj <= nt + 1,
                ii < np,
                pc == p@[ii as int],
                np == p@.len(),
                nt == t@.len(),
                i == ii + 1,
                next@.len() == nt + 1,
                cur@.len() == nt + 1,
                forall|k: int| 0 <= k <= nt ==> #[trigger] next@[k] == like(p@.skip(i as int), t@.skip(k)),
                forall|k: int| jj <= k <= nt ==> #[trigger] cur@[k] == like(p@.skip(ii as int), t@.skip(k)),
            decreases jj,
        {
            let j = jj - 1;
            let ghost ps = p@.skip(ii as int);
            let ghost ts = t@.skip(j as int);
            proof {
                assert(ps.drop_first() =~= p@.skip(i as int));
                assert(ps[0] == pc);
                if j < nt {
                    assert(ts.drop_first() =~= t@.skip(j as int + 1));
                    assert(ts[0] == t@[j as int]);
                }
            }
            let v = if pc == '%' {
                next[j] || (j < nt && cur[j + 1])
            } else if j == nt {
                false
            } else if pc == '_' {
                next[j + 1]
            } else {
                fold_of(pc) == fold_of(t[j]) && next[j + 1]
            };
            cur.set(j, v);
            jj = j;
        }
        next = cur;
        i = ii;
    }
    assert(p@.skip(0) =~= p@);
    assert(t@.skip(0) =~= t@);
    next[0]
}

/// The search pattern of a keyword.
fn pattern_of(keyword: &str) -> (p: Vec<char>)
    ensures
        p@ == contains_pattern(keyword@),
{
    let mut p: Vec<char> = Vec::new();
    p.push('%');
    let mut k = chars_of(keyword);
    p.append(&mut k);
    p.push('%');
    assert(p@ =~= contains_pattern(keyword@));
    p
}

fn like_str(p: &Vec<char>, s: &String) -> (r: bool)
    ensures
        r == like(p@, s@),
{
    let t = chars_of(s.as_str());
    like_match(p, &t)
}

fn like_opt_str(p: &Vec<char>, o: &Option<String>) -> (r: bool)
    ensures
        r == like_opt(p@, *o),
{
    match o {
        Some(s) => like_str(p, s),
        None => false,
    }
}

impl ClanTrailDb {
    /// Graves whose name, address or description contains the keyword, by name.
    pub fn search_graves(&self, keyword: &str) -> (r: Result<Vec<Grave>, AppError>)
        ensures
            r matches Ok(v) && sorted_rows(self@.graves.filter(grave_matches(contains_pattern(keyword@))),
                |g: Grave| grave_order(g), v@),
    {
        let p = pattern_of(keyword);
        let rows = retain_where(self.graves(),
            |g: &Grave| -> (b: bool) ensures b == grave_matches(p@)(*g) {
                like_str(&p, &g.name) || like_opt_str(&p, &g.address) || like_opt_str(&p, &g.description)
            },
            Ghost(grave_matches(p@)));
        Ok(order_rows(rows, |g: &Grave| -> (k: Vec<u64>) ensures k@ == grave_order(*g) { grave_key(g) },
            Ghost(|g: Grave| grave_order(g))))
    }

    /// Graves holding a member whose name or biography contains the keyword,
    /// each once, by name.
    pub fn search_members(&self, keyword: &str) -> (r: Result<Vec<Grave>, AppError>)
        ensures
            r matches Ok(v) && sorted_rows(self@.graves.filter(grave_has_matching_member(self@.members,
                contains_pattern(keyword@))), |g: Grave| grave_order(g), v@),
    {
        let p = pattern_of(keyword);
        let members = self.members();
        let ghost ms = members@;
        let mut gids: Vec<String> = Vec::new();
        let mut k: usize = 0;
        while k < members.len()
            invariant
                k <= ms.len(),
                members@ == ms,
                forall|x: Seq<char>| #[trigger] view_of(gids@).contains(x) <==>
                    exists|j: int| 0 <= j < k && #[trigger] member_matches(p@)(ms[j])
                        && crate::store::opt_is(ms[j].grave_id, x),
            decreases ms.len() - k,
        {
            let m = &members[k];
            let ghost before = view_of(gids@);
            if like_str(&p, &m.name) || like_opt_str(&p, &m.biography) {
                if let Some(g) = &m.grave_id {
                    gids.push(string_of(g.as_str()));
                    proof {
                        assert(view_of(gids@) =~= before.push(g@));
                        assert forall|x: Seq<char>| #[trigger] view_of(gids@).contains(x) <==>
                            exists|j: int| 0 <= j < k + 1 && #[trigger] member_matches(p@)(ms[j])
                                && crate::store::opt_is(ms[j].grave_id, x) by {
                            crate::graph::lemma_push_contains(before, g@, x);
                            if x == g@ {
                                assert(member_matches(p@)(ms[k as int]) && crate::store::opt_is(ms[k as int].grave_id, x));
                            }
                        }
                    }
                } else {
                    proof {
                        assert forall|x: Seq<char>| #[trigger] view_of(gids@).contains(x) <==>
                            exists|j: int| 0 <= j < k + 1 && #[trigger] member_matches(p@)(ms[j])
                                && crate::store::opt_is(ms[j].grave_id, x) by {
                            assert(!crate::store::opt_is(ms[k as int].grave_id, x));
                        }
                    }
                }
            } else {
                proof {
                    assert forall|x: Seq<char>| #[trigger] view_of(gids@).contains(x) <==>
                        exists|j: int| 0 <= j < k + 1 && #[trigger] member_matches(p@)(ms[j])
                            && crate::store::opt_is(ms[j].grave_id, x) by {
                        assert(!member_matches(p@)(ms[k as int]));
                    }
                }
            }
            k = k + 1;
        }
        let ghost gv = view_of(gids@);
        let rows = retain_where(self.graves(),
            |g: &Grave| -> (b: bool) ensures b == gv.contains(g.id@) {
                contains_str(&gids, g.id.as_str())
            },
            Ghost(|g: Grave| gv.contains(g.id@)));
        proof {
            assert((|g: Grave| gv.contains(g.id@)) =~= grave_has_matching_member(ms, p@));
        }
        Ok(order_rows(rows, |g: &Grave| -> (k: Vec<u64>) ensures k@ == grave_order(*g) { grave_key(g) },
            Ghost(|g: Grave| grave_order(g))))
    }

    /// Clans whose name or place of origin contains the keyword, by name.
    pub fn search_clans(&self, keyword: &str) -> (r: Result<Vec<Clan>, AppError>)
        ensures
            r matches Ok(v) && sorted_rows(self@.clans.filter(clan_matches(contains_pattern(keyword@))),
                |c: Clan| clan_order(c), v@),
    {
        let p = pattern_of(keyword);
        let rows = retain_where(self.clans(),
            |c: &Clan| -> (b: bool) ensures b == clan_matches(p@)(*c) {
                like_str(&p, &c.name) || like_opt_str(&p, &c.origin)
            },
            Ghost(clan_matches(p@)));
        Ok(order_rows(rows, |c: &Clan| -> (k: Vec<u64>) ensures k@ == clan_order(*c) { crate::clan::clan_key_of(c) },
            Ghost(|c: Clan| clan_order(c))))
    }
}

} // verus!

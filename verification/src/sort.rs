//! Ordering of query results by lexicographic keys, with ties kept in
//! table order (a stable sort).
use vstd::prelude::*;

verus! {

/// Strict lexicographic order on key sequences.
pub open spec fn lex_lt(a: Seq<u64>, b: Seq<u64>) -> bool
    decreases a.len(),
{
    if a.len() == 0 {
        b.len() > 0
    } else if b.len() == 0 {
        false
    } else if a[0] != b[0] {
        a[0] < b[0]
    } else {
        lex_lt(a.drop_first(), b.drop_first())
    }
}

/// Position `i` comes before position `j` in the ordered output: its key is
/// smaller, or the keys are equal and `i` came first in the input.
pub open spec fn key_before(keys: Seq<Seq<u64>>, i: int, j: int) -> bool {
    lex_lt(keys[i], keys[j]) || (keys[i] == keys[j] && i < j)
}

/// `p` lists every input position once, ordered by (key, position).
pub open spec fn is_sorted_perm(keys: Seq<Seq<u64>>, p: Seq<int>) -> bool {
    &&& p.len() == keys.len()
    &&& forall|i: int| 0 <= i < p.len() ==> 0 <= #[trigger] p[i] < keys.len()
    &&& forall|i: int, j: int| 0 <= i < j < p.len() ==> key_before(keys, p[i], p[j])
}

/// `out` is `items` ordered by the keys (stable for equal keys).
pub open spec fn ordered_by_keys<T>(items: Seq<T>, keys: Seq<Seq<u64>>, out: Seq<T>) -> bool {
    exists|p: Seq<int>|
        is_sorted_perm(keys, p) && out == p.map_values(|k: int| items[k])
}

pub proof fn lemma_lex_irrefl(a: Seq<u64>)
    ensures
        !lex_lt(a, a),
    decreases a.len(),
{
    if a.len() > 0 {
        lemma_lex_irrefl(a.drop_first());
    }
}

pub proof fn lemma_lex_trans(a: Seq<u64>, b: Seq<u64>, c: Seq<u64>)
    requires
        lex_lt(a, b),
        lex_lt(b, c),
    ensures
        lex_lt(a, c),
    decreases a.len(),
{
    if a.len() > 0 && b.len() > 0 && c.len() > 0 {
        if a[0] == b[0] && b[0] == c[0] {
            lemma_lex_trans(a.drop_first(), b.drop_first(), c.drop_first());
        }
    }
}

pub proof fn lemma_lex_total(a: Seq<u64>, b: Seq<u64>)
    ensures
        lex_lt(a, b) || lex_lt(b, a) || a == b,
    decreases a.len(),
{
    if a.len() > 0 && b.len() > 0 && a[0] == b[0] {
        lemma_lex_total(a.drop_first(), b.drop_first());
        if a.drop_first() == b.drop_first() {
            assert(a =~= seq![a[0]] + a.drop_first());
            assert(b =~= seq![b[0]] + b.drop_first());
        }
    } else if a.len() == 0 && b.len() == 0 {
        assert(a =~= b);
    }
}

pub proof fn lemma_lex_asym(a: Seq<u64>, b: Seq<u64>)
    requires
        lex_lt(a, b),
    ensures
        !lex_lt(b, a),
{
    if lex_lt(b, a) {
        lemma_lex_trans(a, b, a);
        lemma_lex_irrefl(a);
    }
}

/// Whether key `a` is strictly smaller than key `b`.
pub fn lex_less(a: &Vec<u64>, b: &Vec<u64>) -> (r: bool)
    ensures
        r == lex_lt(a@, b@),
{
    let mut i: usize = 0;
    assert(a@.skip(0) =~= a@);
    assert(b@.skip(0) =~= b@);
    while i < a.len() && i < b.len()
        invariant
            i <= a.len(),
            i <= b.len(),
            lex_lt(a@, b@) == lex_lt(a@.skip(i as int), b@.skip(i as int)),
        decreases a.len() - i,
    {
        if a[i] != b[i] {
            return a[i] < b[i];
        }
        assert(a@.skip(i as int).drop_first() =~= a@.skip(i as int + 1));
        assert(b@.skip(i as int).drop_first() =~= b@.skip(i as int + 1));
        i = i + 1;
    }
    i >= a.len() && i < b.len()
}

/// Orders `items` by their keys; items with equal keys keep their input order.
pub fn sort_by_keys<T>(items: Vec<T>, keys: &Vec<Vec<u64>>) -> (r: Vec<T>)
    requires
        items.len() == keys.len(),
    ensures
        ordered_by_keys(items@, keys@.map_values(|k: Vec<u64>| k@), r@),
{
    let ghost orig = items@;
    let ghost kv = keys@.map_values(|k: Vec<u64>| k@);
    let n = items.len();
    let mut src = items;
    let mut out: Vec<T> = Vec::new();
    let mut idx: Vec<usize> = Vec::new();
    let mut i: usize = 0;
    while i < n
        invariant
            n == orig.len(),
            n == keys.len(),
            kv == keys@.map_values(|k: Vec<u64>| k@),
            i <= n,
            src@ == orig.skip(i as int),
            out@.len() == i,
            idx@.len() == i,
            forall|k: int| 0 <= k < i ==> #[trigger] idx@[k] < i,
            forall|k: int| 0 <= k < i ==> #[trigger] out@[k] == orig[idx@[k] as int],
            forall|a: int, b: int|
                0 <= a < b < i ==> key_before(kv, idx@[a] as int, idx@[b] as int),
        decreases n - i,
    {
        let x = src.remove(0);
        assert(orig.skip(i as int).drop_first() =~= orig.skip(i as int + 1));
        let mut pos: usize = 0;
        while pos < idx.len()
            invariant
                idx@.len() == i,
                i < n,
                n == keys.len(),
                kv == keys@.map_values(|k: Vec<u64>| k@),
                pos <= i,
                forall|k: int| 0 <= k < i ==> #[trigger] idx@[k] < i,
                forall|k: int| 0 <= k < pos ==> key_before(kv, #[trigger] idx@[k] as int, i as int),
            ensures
                pos <= i,
                forall|k: int| 0 <= k < pos ==> key_before(kv, #[trigger] idx@[k] as int, i as int),
                pos < i ==> lex_lt(kv[i as int], kv[idx@[pos as int] as int]),
            decreases i - pos,
        {
            let j = idx[pos];
            assert(kv[i as int] == keys@[i as int]@);
            assert(kv[j as int] == keys@[j as int]@);
            if lex_less(&keys[i], &keys[j]) {
                break;
            }
            proof {
                lemma_lex_total(kv[i as int], kv[j as int]);
            }
            pos = pos + 1;
        }
        proof {
            // everything from `pos` on comes after the new position
            if pos < i {
                assert(lex_lt(kv[i as int], kv[idx@[pos as int] as int]));
                assert forall|k: int| pos <= k < i implies key_before(
                    kv,
                    i as int,
                    #[trigger] idx@[k] as int,
                ) by {
                    if k > pos {
                        let a = kv[i as int];
                        let b = kv[idx@[pos as int] as int];
                        let c = kv[idx@[k] as int];
                        assert(key_before(kv, idx@[pos as int] as int, idx@[k] as int));
                        if lex_lt(b, c) {
                            lemma_lex_trans(a, b, c);
                        }
                    }
                }
            }
        }
        let ghost old_idx = idx@;
        let ghost old_out = out@;
        out.insert(pos, x);
        idx.insert(pos, i);
        proof {
            assert forall|a: int, b: int| 0 <= a < b < i + 1 implies key_before(
                kv,
                idx@[a] as int,
                idx@[b] as int,
            ) by {
                if a < pos && b < pos {
                    assert(idx@[a] == old_idx[a] && idx@[b] == old_idx[b]);
                } else if a < pos && b == pos {
                } else if a < pos && b > pos {
                    assert(idx@[a] == old_idx[a] && idx@[b] == old_idx[b - 1]);
                } else if a == pos {
                    assert(idx@[b] == old_idx[b - 1]);
                } else {
                    assert(idx@[a] == old_idx[a - 1] && idx@[b] == old_idx[b - 1]);
                }
            }
            assert forall|k: int| 0 <= k < i + 1 implies #[trigger] out@[k] == orig[idx@[k] as int] by {
                if k < pos {
                    assert(out@[k] == old_out[k] && idx@[k] == old_idx[k]);
                } else if k > pos {
                    assert(out@[k] == old_out[k - 1] && idx@[k] == old_idx[k - 1]);
                }
            }
            assert forall|k: int| 0 <= k < i + 1 implies #[trigger] idx@[k] < i + 1 by {
                if k < pos {
                    assert(idx@[k] == old_idx[k]);
                } else if k > pos {
                    assert(idx@[k] == old_idx[k - 1]);
                }
            }
        }
        i = i + 1;
    }
    let ghost p = idx@.map_values(|k: usize| k as int);
    proof {
        assert(is_sorted_perm(kv, p));
        assert(out@ =~= p.map_values(|k: int| orig[k]));
    }
    out
}

/// Sort key of a text: its characters in order (shifted up by one) and a
/// terminating zero, so that key order is the code-point order of texts, which
/// is also the byte order of their UTF-8 encodings.
pub open spec fn str_key(s: Seq<char>) -> Seq<u64> {
    s.map_values(|c: char| ((c as u32) as u64 + 1) as u64).push(0u64)
}

/// Sort key of a text for newest-first listings: texts come out in
/// descending code-point order (see `lemma_desc_key_reverses`).
pub open spec fn desc_key(s: Seq<char>) -> Seq<u64> {
    s.map_values(|c: char| (0x110000 - (c as u32)) as u64).push(0x110001u64)
}

/// Ordering by `desc_key` is ordering by `str_key` reversed.
pub proof fn lemma_desc_key_reverses(a: Seq<char>, b: Seq<char>)
    ensures
        lex_lt(desc_key(a), desc_key(b)) <==> lex_lt(str_key(b), str_key(a)),
    decreases a.len(),
{
    let da = desc_key(a);
    let db = desc_key(b);
    let sa = str_key(a);
    let sb = str_key(b);
    reveal_with_fuel(lex_lt, 2);
    if a.len() > 0 {
        vstd::utf8::char_is_scalar(a[0]);
        vstd::utf8::char_u32_cast(a[0], a[0] as u32);
    }
    if b.len() > 0 {
        vstd::utf8::char_is_scalar(b[0]);
        vstd::utf8::char_u32_cast(b[0], b[0] as u32);
    }
    if a.len() > 0 && b.len() > 0 {
        assert(da[0] == (0x110000 - (a[0] as u32)) as u64);
        assert(db[0] == (0x110000 - (b[0] as u32)) as u64);
        assert(sa[0] == ((a[0] as u32) as u64 + 1) as u64);
        assert(sb[0] == ((b[0] as u32) as u64 + 1) as u64);
        if a[0] == b[0] {
            lemma_desc_key_reverses(a.drop_first(), b.drop_first());
            assert(da.drop_first() =~= desc_key(a.drop_first()));
            assert(db.drop_first() =~= desc_key(b.drop_first()));
            assert(sa.drop_first() =~= str_key(a.drop_first()));
            assert(sb.drop_first() =~= str_key(b.drop_first()));
        } else {
            assert((a[0] as u32) != (b[0] as u32));
        }
    } else if a.len() == 0 && b.len() > 0 {
        assert(da[0] == 0x110001u64);
        assert(sa[0] == 0u64);
        assert(sb[0] == ((b[0] as u32) as u64 + 1) as u64);
    } else if a.len() > 0 && b.len() == 0 {
        assert(db[0] == 0x110001u64);
        assert(sb[0] == 0u64);
        assert(sa[0] == ((a[0] as u32) as u64 + 1) as u64);
    } else {
        assert(da[0] == 0x110001u64 && db[0] == 0x110001u64 && da.len() == 1 && db.len() == 1);
        assert(sa[0] == 0u64 && sb[0] == 0u64 && sa.len() == 1 && sb.len() == 1);
        assert(da.drop_first().len() == 0 && db.drop_first().len() == 0);
        assert(sa.drop_first().len() == 0 && sb.drop_first().len() == 0);
    }
}

/// Appends the newest-first key of a text.
pub fn push_desc_key(k: &mut Vec<u64>, s: &str)
    ensures
        final(k)@ == old(k)@ + desc_key(s@),
{
    let cs = crate::text::chars_of(s);
    let ghost start = k@;
    let mut i: usize = 0;
    while i < cs.len()
        invariant
            i <= cs.len(),
            cs@ == s@,
            k@ == start + s@.take(i as int).map_values(|c: char| (0x110000 - (c as u32)) as u64),
        decreases cs.len() - i,
    {
        let c = cs[i];
        proof {
            vstd::utf8::char_is_scalar(c);
        }
        k.push(0x110000u64 - c as u32 as u64);
        assert(s@.take(i as int + 1) =~= s@.take(i as int).push(c));
        assert(s@.take(i as int + 1).map_values(|c: char| (0x110000 - (c as u32)) as u64)
            =~= s@.take(i as int).map_values(|c: char| (0x110000 - (c as u32)) as u64).push((0x110000 - (c as u32)) as u64));
        i = i + 1;
    }
    k.push(0x110001);
    assert(s@.take(cs.len() as int) =~= s@);
    assert(k@ =~= start + desc_key(s@));
}

/// Sort key of a 32-bit signed integer (order preserving).
pub open spec fn i32_key(x: i32) -> u64 {
    (x as int + 0x8000_0000) as u64
}

/// Sort key of a 64-bit signed integer (order preserving).
pub open spec fn i64_key(x: i64) -> u64 {
    (x as int + 0x8000_0000_0000_0000) as u64
}

/// Sort key of a boolean: false before true.
pub open spec fn bool_key(b: bool) -> u64 {
    if b { 1 } else { 0 }
}

/// `out` is `rows` ordered by the key `kf` of each row, ties in table order.
pub open spec fn sorted_rows<T>(rows: Seq<T>, kf: spec_fn(T) -> Seq<u64>, out: Seq<T>) -> bool {
    ordered_by_keys(rows, rows.map_values(kf), out)
}

pub fn push_str_key(k: &mut Vec<u64>, s: &str)
    ensures
        final(k)@ == old(k)@ + str_key(s@),
{
    let cs = crate::text::chars_of(s);
    let ghost start = k@;
    let mut i: usize = 0;
    while i < cs.len()
        invariant
            i <= cs.len(),
            cs@ == s@,
            k@ == start + s@.take(i as int).map_values(|c: char| ((c as u32) as u64 + 1) as u64),
        decreases cs.len() - i,
    {
        let c = cs[i];
        k.push(c as u32 as u64 + 1);
        assert(s@.take(i as int + 1) =~= s@.take(i as int).push(c));
        assert(s@.take(i as int + 1).map_values(|c: char| ((c as u32) as u64 + 1) as u64)
            =~= s@.take(i as int).map_values(|c: char| ((c as u32) as u64 + 1) as u64).push(((c as u32) as u64 + 1) as u64));
        i = i + 1;
    }
    k.push(0);
    assert(s@.take(cs.len() as int) =~= s@);
    assert(k@ =~= start + str_key(s@));
}

pub fn i32_key_of(x: i32) -> (r: u64)
    ensures
        r == i32_key(x),
{
    (x as i64 + 0x8000_0000i64) as u64
}

pub fn i64_key_of(x: i64) -> (r: u64)
    ensures
        r == i64_key(x),
{
    if x >= 0 {
        x as u64 + 0x8000_0000_0000_0000u64
    } else {
        (x + 0x7fff_ffff_ffff_ffffi64 + 1) as u64
    }
}

/// Ordering keeps the number of rows.
pub proof fn lemma_sorted_len<T>(rows: Seq<T>, kf: spec_fn(T) -> Seq<u64>, out: Seq<T>)
    requires
        sorted_rows(rows, kf, out),
    ensures
        out.len() == rows.len(),
{
    let keys = rows.map_values(kf);
    let p = choose|p: Seq<int>| is_sorted_perm(keys, p) && out == p.map_values(|k: int| rows[k]);
}

/// A sorted permutation lists every position: each position occurs in it.
proof fn lemma_perm_onto(keys: Seq<Seq<u64>>, p: Seq<int>, i: int)
    requires
        is_sorted_perm(keys, p),
        0 <= i < keys.len(),
    ensures
        exists|j: int| 0 <= j < p.len() && p[j] == i,
{
    broadcast use vstd::seq_lib::group_seq_properties;
    let n = keys.len() as int;
    assert forall|a: int, b: int| 0 <= a < p.len() && 0 <= b < p.len() && a != b implies p[a] != p[b] by {
        if p[a] == p[b] {
            lemma_lex_irrefl(keys[p[a]]);
            if a < b {
                assert(key_before(keys, p[a], p[b]));
            } else {
                assert(key_before(keys, p[b], p[a]));
            }
        }
    }
    assert(p.no_duplicates());
    p.unique_seq_to_set();
    vstd::set_lib::lemma_int_range(0, n);
    assert forall|x: int| p.to_set().contains(x) implies vstd::set_lib::set_int_range(0, n).contains(x) by {
        let j = choose|j: int| 0 <= j < p.len() && p[j] == x;
        assert(0 <= p[j] < keys.len());
    }
    vstd::set_lib::lemma_subset_equality(p.to_set(), vstd::set_lib::set_int_range(0, n));
    assert(vstd::set_lib::set_int_range(0, n).contains(i));
    assert(p.to_set().contains(i));
}

/// Ordering drops no row: every input row is in the output.
pub proof fn lemma_sorted_contains<T>(rows: Seq<T>, kf: spec_fn(T) -> Seq<u64>, out: Seq<T>, i: int)
    requires
        sorted_rows(rows, kf, out),
        0 <= i < rows.len(),
    ensures
        out.contains(rows[i]),
{
    let keys = rows.map_values(kf);
    let p = choose|p: Seq<int>| is_sorted_perm(keys, p) && out == p.map_values(|k: int| rows[k]);
    lemma_perm_onto(keys, p, i);
    let j = choose|j: int| 0 <= j < p.len() && p[j] == i;
    assert(out[j] == rows[i]);
}

/// Every output row of an ordering is an input row.
pub proof fn lemma_sorted_from<T>(rows: Seq<T>, kf: spec_fn(T) -> Seq<u64>, out: Seq<T>, j: int)
    requires
        sorted_rows(rows, kf, out),
        0 <= j < out.len(),
    ensures
        rows.contains(out[j]),
{
    let keys = rows.map_values(kf);
    let p = choose|p: Seq<int>| is_sorted_perm(keys, p) && out == p.map_values(|k: int| rows[k]);
    assert(0 <= p[j] < rows.len());
    assert(rows[p[j]] == out[j]);
}

/// In an ordering, a later row never has a smaller key than an earlier one.
pub proof fn lemma_sorted_pair_order<T>(rows: Seq<T>, kf: spec_fn(T) -> Seq<u64>, out: Seq<T>, i: int, j: int)
    requires
        sorted_rows(rows, kf, out),
        0 <= i < j < out.len(),
    ensures
        !lex_lt(kf(out[j]), kf(out[i])),
{
    let keys = rows.map_values(kf);
    let p = choose|p: Seq<int>| is_sorted_perm(keys, p) && out == p.map_values(|k: int| rows[k]);
    assert(key_before(keys, p[i], p[j]));
    assert(0 <= p[i] < rows.len() && 0 <= p[j] < rows.len());
    assert(keys[p[i]] == kf(out[i]) && keys[p[j]] == kf(out[j]));
    if lex_lt(keys[p[i]], keys[p[j]]) {
        lemma_lex_asym(keys[p[i]], keys[p[j]]);
    } else {
        lemma_lex_irrefl(keys[p[i]]);
    }
}

/// Two sorted permutations of the same keys agree up to position `t`.
proof fn lemma_perms_agree(keys: Seq<Seq<u64>>, p: Seq<int>, q: Seq<int>, t: int)
    requires
        is_sorted_perm(keys, p),
        is_sorted_perm(keys, q),
        0 <= t < p.len(),
    ensures
        forall|u: int| 0 <= u <= t ==> p[u] == q[u],
    decreases t,
{
    if t > 0 {
        lemma_perms_agree(keys, p, q, t - 1);
    }
    if p[t] != q[t] {
        let a = p[t];
        let b = q[t];
        lemma_perm_onto(keys, q, a);
        lemma_perm_onto(keys, p, b);
        let s = choose|j: int| 0 <= j < q.len() && q[j] == a;
        let r = choose|j: int| 0 <= j < p.len() && p[j] == b;
        // `a` sits in `q` after position `t`, and `b` in `p` after it
        if s < t {
            assert(p[s] == q[s]);
            assert(key_before(keys, p[s], p[t]));
            lemma_lex_irrefl(keys[a]);
        }
        if r < t {
            assert(p[r] == q[r]);
            assert(key_before(keys, q[r], q[t]));
            lemma_lex_irrefl(keys[b]);
        }
        assert(s > t && r > t);
        assert(key_before(keys, q[t], q[s]));
        assert(key_before(keys, p[t], p[r]));
        if lex_lt(keys[b], keys[a]) {
            lemma_lex_asym(keys[b], keys[a]);
        }
        if lex_lt(keys[a], keys[b]) {
            lemma_lex_asym(keys[a], keys[b]);
        }
    }
}

/// A stable ordering by keys has one outcome: two orderings of the same rows
/// by the same keys are equal.
pub proof fn lemma_sorted_unique<T>(rows: Seq<T>, kf: spec_fn(T) -> Seq<u64>, out1: Seq<T>, out2: Seq<T>)
    requires
        sorted_rows(rows, kf, out1),
        sorted_rows(rows, kf, out2),
    ensures
        out1 == out2,
{
    let keys = rows.map_values(kf);
    let p = choose|p: Seq<int>| is_sorted_perm(keys, p) && out1 == p.map_values(|k: int| rows[k]);
    let q = choose|q: Seq<int>| is_sorted_perm(keys, q) && out2 == q.map_values(|k: int| rows[k]);
    if p.len() > 0 {
        lemma_perms_agree(keys, p, q, p.len() - 1);
    }
    assert(out1 =~= out2);
}

/// Ordering rows by a key that depends only on a projection of each row
/// orders their projections by that key.
pub proof fn lemma_sorted_projection<T, U>(
    rows: Seq<T>,
    f: spec_fn(T) -> U,
    kf: spec_fn(U) -> Seq<u64>,
    g: spec_fn(T) -> Seq<u64>,
    out: Seq<T>,
)
    requires
        forall|x: T| #[trigger] g(x) == kf(f(x)),
        sorted_rows(rows, g, out),
    ensures
        sorted_rows(rows.map_values(f), kf, out.map_values(f)),
{
    let keys = rows.map_values(g);
    let p = choose|p: Seq<int>| is_sorted_perm(keys, p) && out == p.map_values(|k: int| rows[k]);
    assert(rows.map_values(f).map_values(kf) =~= keys);
    assert(out.map_values(f) =~= p.map_values(|k: int| rows.map_values(f)[k]));
}

/// Orders rows by a key computed for each row; ties keep table order.
pub fn order_rows<T, F: Fn(&T) -> Vec<u64>>(
    rows: Vec<T>,
    f: F,
    Ghost(kf): Ghost<spec_fn(T) -> Seq<u64>>,
) -> (out: Vec<T>)
    requires
        forall|x: &T| #[trigger] f.requires((x,)),
        forall|x: &T, k: Vec<u64>| f.ensures((x,), k) ==> k@ == kf(*x),
    ensures
        sorted_rows(rows@, kf, out@),
{
    let mut keys: Vec<Vec<u64>> = Vec::new();
    let mut i: usize = 0;
    while i < rows.len()
        invariant
            i <= rows.len(),
            forall|x: &T| #[trigger] f.requires((x,)),
            forall|x: &T, k: Vec<u64>| f.ensures((x,), k) ==> k@ == kf(*x),
            keys@.len() == i,
            forall|j: int| 0 <= j < i ==> (#[trigger] keys@[j])@ == kf(rows@[j]),
        decreases rows.len() - i,
    {
        let k = f(&rows[i]);
        keys.push(k);
        i = i + 1;
    }
    assert(keys@.map_values(|k: Vec<u64>| k@) =~= rows@.map_values(kf));
    sort_by_keys(rows, &keys)
}

} // verus!

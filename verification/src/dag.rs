//! The layout of a dag-chart frame: where, along the run of rows that share a path prefix,
//! each part of a path is written.
//!
//! Paths that share their first parts are collapsed: each shared part is written once, on
//! the middle row of the rows that share it, and the rows above and below point to it.
use crate::abbreviate::{self, find_abbreviations};
use crate::aggregate::{self, Aggregate};
use crate::config::DagChartConfig;
use crate::frame::{self, Shown};
use crate::render::{self, Alignment, Column, Columns, Render, Row, Value};
use vstd::prelude::*;

verus! {

/// Where a row lies relative to the row on which a shared part is written.
#[derive(Debug, Clone, Copy, PartialEq, Eq, Structural)]
pub enum Position {
    /// Before the written row.
    Above,
    /// On the written row.
    At,
    /// After the written row.
    Below,
}

/// The parts of a path, each followed by `';'`.
pub open spec fn joined(parts: Seq<Seq<char>>) -> Seq<char>
    decreases parts.len(),
{
    if parts.len() == 0 {
        seq![]
    } else {
        joined(parts.drop_last()) + parts.last() + seq![';']
    }
}

/// The key of the first `k + 1` parts of a path.
pub open spec fn partial_key(path: Seq<Seq<char>>, k: int) -> Seq<char> {
    joined(path.take(k + 1))
}

/// How many of the first `n` levels of `path` have the key `key`.
pub open spec fn level_matches(path: Seq<Seq<char>>, key: Seq<char>, n: int) -> nat
    decreases n,
{
    if n <= 0 {
        0
    } else {
        level_matches(path, key, n - 1) + if partial_key(path, n - 1) == key {
            1nat
        } else {
            0nat
        }
    }
}

/// Whether some path among the first `n` has the same full key as `path`.
pub open spec fn seen_before(data: Seq<Seq<Seq<char>>>, n: int, path: Seq<Seq<char>>) -> bool {
    exists|m: int| 0 <= m < n && #[trigger] joined(data[m]) == joined(path)
}

/// The number of occurrences of `key` among the first `n` data paths: every path whose full
/// key was not seen before counts once for each of its levels whose key is `key`.
pub open spec fn occurrences(data: Seq<Seq<Seq<char>>>, key: Seq<char>, n: int) -> nat
    decreases n,
{
    if n <= 0 {
        0
    } else {
        occurrences(data, key, n - 1) + if seen_before(data, n - 1, data[n - 1]) {
            0nat
        } else {
            level_matches(data[n - 1], key, data[n - 1].len() as int)
        }
    }
}

/// The state of the group of column `j` (the column `j` places from the left of a path's
/// parts) after the first `n` rows: the key it follows and how many rows in a row it has
/// followed it for (counting from 0).
pub open spec fn group_state(paths: Seq<Seq<Seq<char>>>, n: int, j: int) -> (Option<Seq<char>>, nat)
    decreases n,
{
    if n <= 0 {
        (None, 0)
    } else {
        let previous = group_state(paths, n - 1, j);
        let p = paths[n - 1];
        if 0 <= j < p.len() {
            let key = partial_key(p, p.len() - 1 - j);
            if previous.0 == Some(key) {
                (previous.0, previous.1 + 1)
            } else {
                (Some(key), 0)
            }
        } else {
            previous
        }
    }
}

/// The position of level `k` of row `i`: the middle row of the run of rows sharing its key
/// is the one the part is written on (for `occurrences` rows: `ceil(occurrences / 2) - 1`
/// rows into the run).
pub open spec fn position(
    data: Seq<Seq<Seq<char>>>,
    paths: Seq<Seq<Seq<char>>>,
    i: int,
    k: int,
) -> Position {
    let p = paths[i];
    let occ = occurrences(data, partial_key(p, k), data.len() as int);
    let middle = (occ + 1) / 2 - 1;
    let index = group_state(paths, i + 1, p.len() - 1 - k).1;
    if middle > index {
        Position::Above
    } else if middle == index {
        Position::At
    } else {
        Position::Below
    }
}

/// Every level of every row occurs among the data paths.
pub open spec fn all_levels_occur(data: Seq<Seq<Seq<char>>>, paths: Seq<Seq<Seq<char>>>) -> bool {
    forall|i: int, k: int|
        0 <= i < paths.len() && 0 <= k < paths[i].len() ==> occurrences(
            data,
            #[trigger] partial_key(paths[i], k),
            data.len() as int,
        ) >= 1
}

/// The character sequences of a list of paths of strings.
pub open spec fn paths_view(paths: Seq<Vec<String>>) -> Seq<Seq<Seq<char>>> {
    paths.map_values(|p: Vec<String>| p@.map_values(|s: String| s@))
}

/// The key of each level of a path: `r[k]` is the key of its first `k + 1` parts.
fn level_keys(path: &Vec<String>) -> (r: Vec<String>)
    ensures
        r@.len() == path@.len(),
        forall|k: int|
            0 <= k < r@.len() ==> (#[trigger] r@[k])@ == partial_key(
                path@.map_values(|s: String| s@),
                k,
            ),
{
    let ghost pv = path@.map_values(|s: String| s@);
    let mut keys: Vec<String> = Vec::new();
    let mut current = String::new();
    let mut k: usize = 0;
    assert(pv.take(0) =~= Seq::<Seq<char>>::empty());
    while k < path.len()
        invariant
            pv == path@.map_values(|s: String| s@),
            k <= path@.len(),
            keys@.len() == k,
            current@ == joined(pv.take(k as int)),
            forall|m: int| 0 <= m < k ==> (#[trigger] keys@[m])@ == partial_key(pv, m),
        decreases path@.len() - k,
    {
        let next = current.concat(path[k].as_str());
        let next = next.concat(";");
        proof {
            reveal_strlit(";");
            assert(pv.take(k + 1).drop_last() =~= pv.take(k as int));
            assert(pv.take(k + 1).last() == pv[k as int]);
        }
        current = next;
        keys.push(current.clone());
        k += 1;
    }
    keys
}

/// The full key of a path (all of its parts).
fn full_key(path: &Vec<String>) -> (r: String)
    ensures
        r@ == joined(path@.map_values(|s: String| s@)),
{
    let ghost pv = path@.map_values(|s: String| s@);
    let keys = level_keys(path);
    if keys.len() == 0 {
        assert(pv =~= Seq::<Seq<char>>::empty());
        String::new()
    } else {
        assert(pv.take(pv.len() as int) =~= pv);
        keys[keys.len() - 1].clone()
    }
}

/// The index of `s` in `keys`, if it is there.
fn find_key(keys: &Vec<String>, s: &String) -> (r: Option<usize>)
    ensures
        r matches Some(q) ==> q < keys@.len() && keys@[q as int]@ == s@,
        r is None ==> forall|q: int| 0 <= q < keys@.len() ==> (#[trigger] keys@[q])@ != s@,
{
    let mut q: usize = 0;
    while q < keys.len()
        invariant
            q <= keys@.len(),
            forall|m: int| 0 <= m < q ==> (#[trigger] keys@[m])@ != s@,
        decreases keys@.len() - q,
    {
        if keys[q] == *s {
            return Some(q);
        }
        q += 1;
    }
    None
}

/// The count recorded for `x` in a table of keys and counts (0 when absent).
pub open spec fn table_count(keys: Seq<String>, counts: Seq<u128>, x: Seq<char>) -> nat
    decreases keys.len(),
{
    if keys.len() == 0 || counts.len() == 0 {
        0
    } else if keys.last()@ == x {
        counts.last() as nat
    } else {
        table_count(keys.drop_last(), counts.drop_last(), x)
    }
}

/// The keys of a table are distinct.
pub open spec fn distinct_keys(keys: Seq<String>) -> bool {
    forall|a: int, b: int|
        0 <= a < keys.len() && 0 <= b < keys.len() && a != b ==> (#[trigger] keys[a])@ != (
        #[trigger] keys[b])@
}

proof fn lemma_table_count_at(keys: Seq<String>, counts: Seq<u128>, q: int)
    requires
        distinct_keys(keys),
        keys.len() == counts.len(),
        0 <= q < keys.len(),
    ensures
        table_count(keys, counts, keys[q]@) == counts[q] as nat,
    decreases keys.len(),
{
    if q < keys.len() - 1 {
        assert(keys.last()@ != keys[q]@);
        lemma_table_count_at(keys.drop_last(), counts.drop_last(), q);
    }
}

proof fn lemma_table_count_absent(keys: Seq<String>, counts: Seq<u128>, x: Seq<char>)
    requires
        forall|q: int| 0 <= q < keys.len() ==> (#[trigger] keys[q])@ != x,
    ensures
        table_count(keys, counts, x) == 0,
    decreases keys.len(),
{
    if keys.len() > 0 && counts.len() > 0 {
        assert(keys.last() == keys[keys.len() - 1]);
        lemma_table_count_absent(keys.drop_last(), counts.drop_last(), x);
    }
}

proof fn lemma_table_count_update(keys: Seq<String>, counts: Seq<u128>, q: int, v: u128, x: Seq<char>)
    requires
        distinct_keys(keys),
        keys.len() == counts.len(),
        0 <= q < keys.len(),
    ensures
        table_count(keys, counts.update(q, v), x) == if keys[q]@ == x {
            v as nat
        } else {
            table_count(keys, counts, x)
        },
    decreases keys.len(),
{
    let updated = counts.update(q, v);
    if q == keys.len() - 1 {
        assert(updated.drop_last() =~= counts.drop_last());
    } else {
        assert(updated.drop_last() =~= counts.drop_last().update(q, v));
        if keys.last()@ == x {
            assert(keys[q]@ != x);
        } else {
            lemma_table_count_update(keys.drop_last(), counts.drop_last(), q, v, x);
        }
    }
}

proof fn lemma_table_count_push(keys: Seq<String>, counts: Seq<u128>, k: String, v: u128, x: Seq<char>)
    requires
        keys.len() == counts.len(),
    ensures
        table_count(keys.push(k), counts.push(v), x) == if k@ == x {
            v as nat
        } else {
            table_count(keys, counts, x)
        },
{
    assert(keys.push(k).drop_last() =~= keys);
    assert(counts.push(v).drop_last() =~= counts);
}

proof fn lemma_group_index_bound(paths: Seq<Seq<Seq<char>>>, n: int, j: int)
    requires
        n >= 0,
    ensures
        group_state(paths, n, j).1 <= n,
    decreases n,
{
    if n > 0 {
        lemma_group_index_bound(paths, n - 1, j);
    }
}

/// The rows `a..b` form a run at level `k`: all `n` parts long, they share their key at
/// level `k`, and the rows just before and after the run (if any) do not.
pub open spec fn is_run(paths: Seq<Seq<Seq<char>>>, n: int, k: int, a: int, b: int) -> bool {
    &&& 0 <= k < n
    &&& 0 <= a < b <= paths.len()
    &&& forall|i: int| 0 <= i < paths.len() ==> (#[trigger] paths[i]).len() == n
    &&& forall|i: int| a <= i < b ==> partial_key(#[trigger] paths[i], k) == partial_key(paths[a], k)
    &&& a > 0 ==> partial_key(paths[a - 1], k) != partial_key(paths[a], k)
    &&& b < paths.len() ==> partial_key(paths[b], k) != partial_key(paths[a], k)
}

/// Along a run of rows sharing their key at a level, the group of that level's column follows
/// the run's key and counts the rows into it: at the `m`-th row of the run it holds the key
/// and `m` (counting from 0), having started over at the run's first row.
pub proof fn law_group_counts_run(paths: Seq<Seq<Seq<char>>>, n: int, k: int, a: int, b: int, i: int)
    requires
        is_run(paths, n, k, a, b),
        a <= i < b,
    ensures
        group_state(paths, i + 1, n - 1 - k) == (Some(partial_key(paths[a], k)), (i - a) as nat),
    decreases i - a,
{
    let j = n - 1 - k;
    let p = paths[i];
    assert(p.len() == n);
    assert(p.len() - 1 - j == k);
    assert(partial_key(p, k) == partial_key(paths[a], k));
    let previous = group_state(paths, i, j);
    if i > a {
        law_group_counts_run(paths, n, k, a, b, i - 1);
        assert(previous == (Some(partial_key(paths[a], k)), (i - 1 - a) as nat));
    } else if a > 0 {
        assert(paths[a - 1].len() == n);
        assert(previous.0 == Some(partial_key(paths[a - 1], k)));
    } else {
        assert(previous == (None::<Seq<char>>, 0nat));
    }
}

/// A part shared by a run of rows is written once, on the middle row of the run (for `l`
/// rows, the row `ceil(l / 2) - 1` into it); the rows above point down to it and the rows
/// below point up to it. This holds when the part occurs among the data as many times as the
/// run has rows, as it does when the rows are the distinct display paths of the data, sorted.
pub proof fn law_shared_part_written_once(
    data: Seq<Seq<Seq<char>>>,
    paths: Seq<Seq<Seq<char>>>,
    n: int,
    k: int,
    a: int,
    b: int,
    i: int,
)
    requires
        is_run(paths, n, k, a, b),
        occurrences(data, partial_key(paths[a], k), data.len() as int) == b - a,
        a <= i < b,
    ensures
        position(data, paths, i, k) == if i - a < (b - a + 1) / 2 - 1 {
            Position::Above
        } else if i - a == (b - a + 1) / 2 - 1 {
            Position::At
        } else {
            Position::Below
        },
{
    law_group_counts_run(paths, n, k, a, b, i);
    assert(paths[i].len() == n);
    assert(partial_key(paths[i], k) == partial_key(paths[a], k));
}

/// No part of any of `paths` holds the separator `';'` of keys.
pub open spec fn separator_free(paths: Seq<Seq<Seq<char>>>) -> bool {
    forall|m: int, q: int|
        0 <= m < paths.len() && 0 <= q < paths[m].len() ==> !(#[trigger] paths[m][q]).contains(';')
}

/// No part of `path` holds the separator.
spec fn parts_separator_free(path: Seq<Seq<char>>) -> bool {
    forall|q: int| 0 <= q < path.len() ==> !(#[trigger] path[q]).contains(';')
}

proof fn lemma_joined_ends_with_separator(parts: Seq<Seq<char>>)
    requires
        parts.len() > 0,
    ensures
        joined(parts).len() > 0,
        joined(parts)[joined(parts).len() - 1] == ';',
{
}

/// Keys tell paths apart: two paths whose parts hold no separator have the same key only if
/// they are the same.
proof fn lemma_joined_injective(a: Seq<Seq<char>>, b: Seq<Seq<char>>)
    requires
        parts_separator_free(a),
        parts_separator_free(b),
        joined(a) == joined(b),
    ensures
        a == b,
    decreases a.len() + b.len(),
{
    if a.len() == 0 || b.len() == 0 {
        if a.len() > 0 {
            lemma_joined_ends_with_separator(a);
        }
        if b.len() > 0 {
            lemma_joined_ends_with_separator(b);
        }
        assert(a =~= b);
    } else {
        let a0 = a.drop_last();
        let b0 = b.drop_last();
        let la = a.last();
        let lb = b.last();
        let ja = joined(a0);
        let jb = joined(b0);
        assert(joined(a) == ja + la + seq![';']);
        assert(joined(b) == jb + lb + seq![';']);
        let x = ja + la;
        assert(x =~= joined(a).drop_last());
        assert(x =~= jb + lb);
        assert(!la.contains(';') && !lb.contains(';')) by {
            assert(la == a[a.len() - 1]);
            assert(lb == b[b.len() - 1]);
        }
        if la.len() < lb.len() {
            assert(ja.len() > jb.len());
            if a0.len() == 0 {
                assert(ja.len() == 0);
            }
            lemma_joined_ends_with_separator(a0);
            let t = ja.len() - 1;
            assert(x[t] == ja[t]);
            assert(x[t] == lb[t - jb.len()]);
            assert(lb.contains(';'));
        } else if lb.len() < la.len() {
            assert(jb.len() > ja.len());
            if b0.len() == 0 {
                assert(jb.len() == 0);
            }
            lemma_joined_ends_with_separator(b0);
            let t = jb.len() - 1;
            assert(x[t] == jb[t]);
            assert(x[t] == la[t - ja.len()]);
            assert(la.contains(';'));
        } else {
            assert(ja =~= x.take(ja.len() as int));
            assert(jb =~= x.take(jb.len() as int));
            assert(la =~= x.skip(ja.len() as int));
            assert(lb =~= x.skip(jb.len() as int));
            assert(parts_separator_free(a0)) by {
                assert forall|q: int| 0 <= q < a0.len() implies !(#[trigger] a0[q]).contains(';') by {
                    assert(a0[q] == a[q]);
                }
            }
            assert(parts_separator_free(b0)) by {
                assert forall|q: int| 0 <= q < b0.len() implies !(#[trigger] b0[q]).contains(';') by {
                    assert(b0[q] == b[q]);
                }
            }
            lemma_joined_injective(a0, b0);
            assert(a =~= a0.push(la));
            assert(b =~= b0.push(lb));
        }
    }
}

/// The parts of a path taken by a prefix hold no separator when the path's do not.
proof fn lemma_take_separator_free(p: Seq<Seq<char>>, n: int)
    requires
        parts_separator_free(p),
        0 <= n <= p.len(),
    ensures
        parts_separator_free(p.take(n)),
{
    assert forall|q: int| 0 <= q < p.take(n).len() implies !(#[trigger] p.take(n)[q]).contains(';') by {
        assert(p.take(n)[q] == p[q]);
    }
}

/// Two paths have the same key at levels `k` and `k2` only if the levels are the same and the
/// paths agree up to it.
proof fn lemma_key_prefix(p: Seq<Seq<char>>, q: Seq<Seq<char>>, k: int, k2: int)
    requires
        parts_separator_free(p),
        parts_separator_free(q),
        0 <= k < p.len(),
        0 <= k2 < q.len(),
        partial_key(p, k) == partial_key(q, k2),
    ensures
        k == k2,
        p.take(k + 1) == q.take(k + 1),
{
    lemma_take_separator_free(p, k + 1);
    lemma_take_separator_free(q, k2 + 1);
    lemma_joined_injective(p.take(k + 1), q.take(k2 + 1));
}

/// Among the levels of `q` (of the same length as `p`), only level `k` can have the key of
/// level `k` of `p`, and it does when the paths agree up to it.
proof fn lemma_level_matches_one(p: Seq<Seq<char>>, q: Seq<Seq<char>>, k: int, m: int)
    requires
        parts_separator_free(p),
        parts_separator_free(q),
        p.len() == q.len(),
        0 <= k < p.len(),
        0 <= m <= q.len(),
    ensures
        level_matches(q, partial_key(p, k), m) == if k < m && q.take(k + 1) == p.take(k + 1) {
            1nat
        } else {
            0nat
        },
    decreases m,
{
    if m > 0 {
        lemma_level_matches_one(p, q, k, m - 1);
        if partial_key(q, m - 1) == partial_key(p, k) {
            lemma_key_prefix(q, p, m - 1, k);
        }
    }
}

/// The paths of `data` all have `n` parts, none holding the separator.
spec fn uniform(data: Seq<Seq<Seq<char>>>, n: int) -> bool {
    &&& separator_free(data)
    &&& forall|m: int| 0 <= m < data.len() ==> (#[trigger] data[m]).len() == n
}

/// The occurrences of the key of level `k` of `p` among the first `m` data paths are the
/// distinct data paths among them that agree with `p` up to level `k`.
proof fn lemma_occurrences_count(
    data: Seq<Seq<Seq<char>>>,
    p: Seq<Seq<char>>,
    n: int,
    k: int,
    m: int,
)
    requires
        uniform(data, n),
        parts_separator_free(p),
        p.len() == n,
        0 <= k < n,
        0 <= m <= data.len(),
    ensures
        occurrences(data, partial_key(p, k), m) == data.take(m).to_set().filter(
            |q: Seq<Seq<char>>| q.take(k + 1) == p.take(k + 1),
        ).len(),
        data.take(m).to_set().filter(|q: Seq<Seq<char>>| q.take(k + 1) == p.take(k + 1)).finite(),
    decreases m,
{
    let f = |q: Seq<Seq<char>>| q.take(k + 1) == p.take(k + 1);
    broadcast use vstd::set::group_set_axioms;
    broadcast use vstd::seq_lib::seq_to_set_is_finite;

    if m == 0 {
        assert(data.take(0).to_set() =~= Set::<Seq<Seq<char>>>::empty());
        assert(data.take(0).to_set().filter(f) =~= Set::<Seq<Seq<char>>>::empty());
    } else {
        lemma_occurrences_count(data, p, n, k, m - 1);
        let before = data.take(m - 1).to_set();
        let e = data[m - 1];
        assert(data.take(m) =~= data.take(m - 1).push(e));
        data.take(m - 1).lemma_push_to_set_commute(e);
        assert(data.take(m).to_set() == before.insert(e));
        assert(parts_separator_free(e)) by {
            assert forall|q: int| 0 <= q < e.len() implies !(#[trigger] e[q]).contains(';') by {
                assert(data[m - 1][q] == e[q]);
            }
        }
        assert(seen_before(data, m - 1, e) <==> before.contains(e)) by {
            if seen_before(data, m - 1, e) {
                let m2 = choose|m2: int| 0 <= m2 < m - 1 && #[trigger] joined(data[m2]) == joined(e);
                assert(parts_separator_free(data[m2])) by {
                    assert forall|q: int| 0 <= q < data[m2].len() implies !(
                    #[trigger] data[m2][q]).contains(';') by {}
                }
                lemma_joined_injective(data[m2], e);
                assert(data.take(m - 1)[m2] == e);
            }
            if before.contains(e) {
                let m2 = choose|m2: int| 0 <= m2 < data.take(m - 1).len() && #[trigger] data.take(m - 1)[m2] == e;
                assert(joined(data[m2]) == joined(e));
            }
        }
        lemma_level_matches_one(p, e, k, n);
        if before.contains(e) {
            assert(before.insert(e) =~= before);
        } else if f(e) {
            assert(before.insert(e).filter(f) =~= before.filter(f).insert(e));
        } else {
            assert(before.insert(e).filter(f) =~= before.filter(f));
        }
    }
}

/// In a run that holds every row with its key (the rows sharing a key being consecutive),
/// the rows that agree with the first up to the run's level are exactly the run's.
proof fn lemma_run_rows(rows: Seq<Seq<Seq<char>>>, n: int, k: int, a: int, b: int)
    requires
        is_run(rows, n, k, a, b),
        separator_free(rows),
        rows.no_duplicates(),
        forall|i: int, j: int, l: int|
            0 <= i < j < l < rows.len() && partial_key(#[trigger] rows[i], k) == partial_key(
                #[trigger] rows[l],
                k,
            ) ==> partial_key(#[trigger] rows[j], k) == partial_key(rows[i], k),
    ensures
        rows.to_set().filter(|q: Seq<Seq<char>>| q.take(k + 1) == rows[a].take(k + 1)).len() == b
            - a,
{
    let f = |q: Seq<Seq<char>>| q.take(k + 1) == rows[a].take(k + 1);
    let run = rows.subrange(a, b);
    assert forall|i: int| 0 <= i < rows.len() implies (f(#[trigger] rows[i]) <==> a <= i < b) by {
        assert(rows[i].len() == n && rows[a].len() == n);
        assert(parts_separator_free(rows[i])) by {
            assert forall|q: int| 0 <= q < rows[i].len() implies !(#[trigger] rows[i][q]).contains(
                ';',
            ) by {}
        }
        assert(parts_separator_free(rows[a])) by {
            assert forall|q: int| 0 <= q < rows[a].len() implies !(#[trigger] rows[a][q]).contains(
                ';',
            ) by {}
        }
        if f(rows[i]) {
            assert(partial_key(rows[i], k) == partial_key(rows[a], k));
            if i < a {
                if i < a - 1 {
                    assert(partial_key(rows[a - 1], k) == partial_key(rows[i], k));
                }
            } else if i >= b {
                if i > b {
                    assert(partial_key(rows[b], k) == partial_key(rows[a], k));
                }
            }
        }
        if a <= i < b {
            assert(partial_key(rows[i], k) == partial_key(rows[a], k));
            lemma_key_prefix(rows[i], rows[a], k, k);
        }
    }
    assert(rows.to_set().filter(f) =~= run.to_set()) by {
        assert forall|q: Seq<Seq<char>>| rows.to_set().filter(f).contains(q) implies run.to_set().contains(q) by {
            let i = choose|i: int| 0 <= i < rows.len() && rows[i] == q;
            assert(run[i - a] == q);
        }
        assert forall|q: Seq<Seq<char>>| run.to_set().contains(q) implies rows.to_set().filter(f).contains(q) by {
            let i = choose|i: int| 0 <= i < run.len() && run[i] == q;
            assert(rows[i + a] == q);
        }
    }
    assert(run.no_duplicates()) by {
        assert forall|i: int, j: int| 0 <= i < run.len() && 0 <= j < run.len() && i != j implies run[i] != run[j] by {
            assert(run[i] == rows[i + a] && run[j] == rows[j + a]);
        }
    }
    run.unique_seq_to_set();
}

/// When the rows are the distinct display paths of the data, each once, with the rows that
/// share a key consecutive (as sorting them makes them), a run of rows sharing a key is as
/// long as that key has occurrences among the data. (Parts must not hold the separator `';'`
/// of keys, which would let distinct paths share a key.)
pub proof fn law_run_length_is_occurrences(
    data: Seq<Seq<Seq<char>>>,
    rows: Seq<Seq<Seq<char>>>,
    n: int,
    k: int,
    a: int,
    b: int,
)
    requires
        separator_free(data),
        forall|m: int| 0 <= m < data.len() ==> (#[trigger] data[m]).len() == n,
        rows.no_duplicates(),
        forall|p: Seq<Seq<char>>| rows.contains(p) <==> data.contains(p),
        is_run(rows, n, k, a, b),
        forall|i: int, j: int, l: int|
            0 <= i < j < l < rows.len() && partial_key(#[trigger] rows[i], k) == partial_key(
                #[trigger] rows[l],
                k,
            ) ==> partial_key(#[trigger] rows[j], k) == partial_key(rows[i], k),
    ensures
        occurrences(data, partial_key(rows[a], k), data.len() as int) == b - a,
{
    let p = rows[a];
    assert(rows.contains(p));
    let m0 = choose|m0: int| 0 <= m0 < data.len() && data[m0] == p;
    assert(parts_separator_free(p)) by {
        assert forall|q: int| 0 <= q < p.len() implies !(#[trigger] p[q]).contains(';') by {
            assert(data[m0][q] == p[q]);
        }
    }
    assert(separator_free(rows)) by {
        assert forall|i: int, q: int| 0 <= i < rows.len() && 0 <= q < rows[i].len() implies !(
        #[trigger] rows[i][q]).contains(';') by {
            assert(rows.contains(rows[i]));
            let m1 = choose|m1: int| 0 <= m1 < data.len() && data[m1] == rows[i];
            assert(data[m1][q] == rows[i][q]);
        }
    }
    lemma_occurrences_count(data, p, n, k, data.len() as int);
    assert(data.take(data.len() as int) =~= data);
    assert(data.to_set() =~= rows.to_set());
    lemma_run_rows(rows, n, k, a, b);
}

/// A dag-chart collapses the parts its rows share: when the rows are the distinct display
/// paths of the data, each once, with the rows sharing a part consecutive (as sorting them
/// makes them), every part shared by a run of rows is written once, on the middle row of the
/// run, with the rows above pointing down to it and the rows below pointing up to it. (Parts
/// must not hold the separator `';'` of keys.)
pub proof fn law_dag_collapses_shared_parts(
    data: Seq<Seq<Seq<char>>>,
    rows: Seq<Seq<Seq<char>>>,
    n: int,
    k: int,
    a: int,
    b: int,
    i: int,
)
    requires
        separator_free(data),
        forall|m: int| 0 <= m < data.len() ==> (#[trigger] data[m]).len() == n,
        rows.no_duplicates(),
        forall|p: Seq<Seq<char>>| rows.contains(p) <==> data.contains(p),
        is_run(rows, n, k, a, b),
        forall|x: int, y: int, z: int|
            0 <= x < y < z < rows.len() && partial_key(#[trigger] rows[x], k) == partial_key(
                #[trigger] rows[z],
                k,
            ) ==> partial_key(#[trigger] rows[y], k) == partial_key(rows[x], k),
        a <= i < b,
    ensures
        position(data, rows, i, k) == if i - a < (b - a + 1) / 2 - 1 {
            Position::Above
        } else if i - a == (b - a + 1) / 2 - 1 {
            Position::At
        } else {
            Position::Below
        },
{
    law_run_length_is_occurrences(data, rows, n, k, a, b);
    law_shared_part_written_once(data, rows, n, k, a, b, i);
}

/// Every level of every row occurs among the data when each row is one of the data's display
/// paths (all of the same length, their parts free of the separator `';'`): laying the frame
/// out ([`dag_positions`], [`dag_frame`]) then succeeds.
pub proof fn law_data_rows_occur(data: Seq<Seq<Seq<char>>>, rows: Seq<Seq<Seq<char>>>, n: int)
    requires
        separator_free(data),
        forall|m: int| 0 <= m < data.len() ==> (#[trigger] data[m]).len() == n,
        forall|i: int| 0 <= i < rows.len() ==> data.contains(#[trigger] rows[i]),
    ensures
        all_levels_occur(data, rows),
{
    broadcast use vstd::set::group_set_axioms;
    broadcast use vstd::seq_lib::seq_to_set_is_finite;

    assert forall|i: int, k: int| 0 <= i < rows.len() && 0 <= k < rows[i].len() implies occurrences(
        data,
        #[trigger] partial_key(rows[i], k),
        data.len() as int,
    ) >= 1 by {
        let p = rows[i];
        assert(data.contains(p));
        let m0 = choose|m0: int| 0 <= m0 < data.len() && data[m0] == p;
        assert(p.len() == n);
        assert(parts_separator_free(p)) by {
            assert forall|q: int| 0 <= q < p.len() implies !(#[trigger] p[q]).contains(';') by {
                assert(data[m0][q] == p[q]);
            }
        }
        lemma_occurrences_count(data, p, n, k, data.len() as int);
        assert(data.take(data.len() as int) =~= data);
        let f = |q: Seq<Seq<char>>| q.take(k + 1) == p.take(k + 1);
        let matching = data.to_set().filter(f);
        assert(matching.contains(p));
        assert(matching.remove(p).len() + 1 == matching.len());
    }
}

/// The run of rows that a column of the frame follows: the key those rows share in that
/// column, and how many rows into the run the current one is (counting from 0).
struct Group {
    locus: Option<String>,
    index: usize,
}

/// A group in the state `g` (the key it follows and the rows into the run) follows `key`.
pub open spec fn follows(g: (Option<Seq<char>>, nat), key: Seq<char>) -> bool {
    g.0 == Some(key)
}

/// A group that starts following `key`, at the first row of its run.
pub open spec fn swapped(key: Seq<char>) -> (Option<Seq<char>>, nat) {
    (Some(key), 0)
}

/// A group in the state `g`, one row further along its run.
pub open spec fn incremented(g: (Option<Seq<char>>, nat)) -> (Option<Seq<char>>, nat) {
    (g.0, g.1 + 1)
}

/// A group that starts following a key follows that key and no other, at the first row of
/// the run; moving one row further keeps the key and counts one row. (These are the steps of
/// the groups of a dag-chart's columns, see `Group`.)
pub proof fn law_group_swap_then_increment(key: Seq<char>, other: Seq<char>)
    ensures
        follows(swapped(key), key),
        other != key ==> !follows(swapped(key), other),
        swapped(key).1 == 0,
        incremented(swapped(key)) == (Some(key), 1nat),
        follows(incremented(swapped(key)), key),
        other != key ==> !follows(incremented(swapped(key)), other),
{
}

/// The state of a group, as plain values.
spec fn group_view(g: Group) -> (Option<Seq<char>>, nat) {
    (
        match g.locus {
            Some(s) => Some(s@),
            None => None,
        },
        g.index as nat,
    )
}

impl Group {
    /// A group that follows nothing yet.
    fn new() -> (r: Group)
        ensures
            group_view(r) == (None::<Seq<char>>, 0nat),
    {
        Group { locus: None, index: 0 }
    }

    /// Whether the group follows `path`.
    fn matches(&self, path: &String) -> (r: bool)
        ensures
            r == follows(group_view(*self), path@),
    {
        match &self.locus {
            Some(l) => *l == *path,
            None => false,
        }
    }

    /// Start following `locus`, from its first row.
    fn swap(&mut self, locus: String)
        ensures
            group_view(*final(self)) == swapped(locus@),
    {
        self.locus = Some(locus);
        self.index = 0;
    }

    /// Move one row further along the run.
    fn increment(&mut self)
        requires
            old(self).index < usize::MAX,
        ensures
            group_view(*final(self)) == incremented(group_view(*old(self))),
    {
        self.index += 1;
    }
}

/// Lay out the frame of a dag-chart: for every level of every row (`paths`, in display
/// order), its [`Position`] relative to the row on which that level's part is written.
/// The occurrences of each partial path are counted over `data` (the paths of the data
/// points, in the order they were added, a repeated full path counting once).
/// Returns `None` when some level of some row does not occur among the data paths.
pub fn dag_positions(data: &Vec<Vec<String>>, paths: &Vec<Vec<String>>) -> (r: Option<
    Vec<Vec<Position>>,
>)
    ensures
        r is Some <==> all_levels_occur(paths_view(data@), paths_view(paths@)),
        r matches Some(positions) ==> {
            &&& positions@.len() == paths@.len()
            &&& forall|i: int|
                0 <= i < paths@.len() ==> (#[trigger] positions@[i])@.len() == paths@[i]@.len()
                    && forall|k: int|
                    0 <= k < paths@[i]@.len() ==> positions@[i]@[k] == position(
                        paths_view(data@),
                        paths_view(paths@),
                        i,
                        k,
                    )
        },
{
    let ghost dv = paths_view(data@);
    let ghost pv = paths_view(paths@);
    // Count the occurrences of every partial path.
    let mut keys: Vec<String> = Vec::new();
    let mut counts: Vec<u128> = Vec::new();
    let mut seen: Vec<String> = Vec::new();
    let mut processed: u128 = 0;
    let mut r: usize = 0;
    while r < data.len()
        invariant
            dv == paths_view(data@),
            r <= data@.len(),
            keys@.len() == counts@.len(),
            distinct_keys(keys@),
            forall|x: Seq<char>|
                #![trigger table_count(keys@, counts@, x)]
                table_count(keys@, counts@, x) == occurrences(dv, x, r as int),
            forall|x: Seq<char>|
                #![trigger abbreviate::string_views(seen@).contains(x)]
                abbreviate::string_views(seen@).contains(x) <==> (exists|m: int|
                    0 <= m < r && #[trigger] joined(dv[m]) == x),
            forall|q: int| 0 <= q < counts@.len() ==> #[trigger] counts@[q] <= processed,
            processed <= (r as u128) * 18446744073709551615u128,
        decreases data@.len() - r,
    {
        let row = &data[r];
        assert(dv[r as int] == row@.map_values(|s: String| s@));
        let full = full_key(row);
        let ghost seen_view = abbreviate::string_views(seen@);
        let found = find_key(&seen, &full);
        assert(seen_before(dv, r as int, dv[r as int]) <==> seen_view.contains(full@)) by {
            if seen_view.contains(full@) {
                let m = choose|m: int| 0 <= m < r && #[trigger] joined(dv[m]) == full@;
                assert(joined(dv[m]) == joined(dv[r as int]));
            }
            if seen_before(dv, r as int, dv[r as int]) {
                let m = choose|m: int| 0 <= m < r && #[trigger] joined(dv[m]) == joined(dv[r as int]);
                assert(joined(dv[m]) == full@);
            }
        }
        assert(found is Some <==> seen_view.contains(full@)) by {
            if let Some(q) = found {
                assert(seen_view[q as int] == full@);
            }
            if seen_view.contains(full@) {
                let q = choose|q: int| 0 <= q < seen_view.len() && seen_view[q] == full@;
                assert(seen@[q]@ == full@);
            }
        }
        if found.is_none() {
            let levels = level_keys(row);
            let nlevels = levels.len();
            let mut k: usize = 0;
            while k < nlevels
                invariant
                    dv == paths_view(data@),
                    r < data@.len(),
                    nlevels == levels@.len(),
                    levels@.len() == dv[r as int].len(),
                    forall|m: int|
                        0 <= m < levels@.len() ==> (#[trigger] levels@[m])@ == partial_key(
                            dv[r as int],
                            m,
                        ),
                    k <= levels@.len(),
                    keys@.len() == counts@.len(),
                    distinct_keys(keys@),
                    forall|x: Seq<char>|
                        #![trigger table_count(keys@, counts@, x)]
                        table_count(keys@, counts@, x) == occurrences(dv, x, r as int)
                            + level_matches(dv[r as int], x, k as int),
                    forall|q: int| 0 <= q < counts@.len() ==> #[trigger] counts@[q] <= processed,
                    processed <= (r as u128) * 18446744073709551615u128 + k,
                    levels@.len() <= 18446744073709551615u128,
                decreases levels@.len() - k,
            {
                let key = &levels[k];
                match find_key(&keys, key) {
                    Some(q) => {
                        let ghost old_keys = keys@;
                        let ghost old_counts = counts@;
                        let c = counts[q];
                        counts.set(q, c + 1);
                        assert forall|x: Seq<char>| #[trigger]
                            table_count(keys@, counts@, x) == occurrences(dv, x, r as int)
                                + level_matches(dv[r as int], x, k + 1) by {
                            lemma_table_count_update(old_keys, old_counts, q as int, (c + 1) as u128, x);
                            lemma_table_count_at(old_keys, old_counts, q as int);
                        }
                    },
                    None => {
                        let ghost old_keys = keys@;
                        let ghost old_counts = counts@;
                        keys.push(key.clone());
                        counts.push(1);
                        assert forall|x: Seq<char>| #[trigger]
                            table_count(keys@, counts@, x) == occurrences(dv, x, r as int)
                                + level_matches(dv[r as int], x, k + 1) by {
                            assert(keys@ =~= old_keys.push(keys@.last()));
                            lemma_table_count_push(old_keys, old_counts, keys@.last(), 1, x);
                            if key@ == x {
                                lemma_table_count_absent(old_keys, old_counts, x);
                            }
                        }
                    },
                }
                processed = processed + 1;
                k += 1;
            }
            seen.push(full);
            proof {
                let sv = abbreviate::string_views(seen@);
                assert(sv =~= seen_view.push(full@));
                assert(full@ == joined(dv[r as int]));
                assert forall|x: Seq<char>|
                    sv.contains(x) <==> (exists|m: int|
                        0 <= m < r + 1 && #[trigger] joined(dv[m]) == x) by {
                    if sv.contains(x) {
                        if x == full@ {
                            assert(joined(dv[r as int]) == x);
                        } else {
                            let q = choose|q: int| 0 <= q < sv.len() && sv[q] == x;
                            assert(q < seen_view.len());
                            assert(seen_view[q] == x);
                            assert(seen_view.contains(x));
                            let m = choose|m: int| 0 <= m < r && #[trigger] joined(dv[m]) == x;
                            assert(joined(dv[m]) == x);
                        }
                    }
                    if exists|m: int| 0 <= m < r + 1 && #[trigger] joined(dv[m]) == x {
                        let m = choose|m: int| 0 <= m < r + 1 && #[trigger] joined(dv[m]) == x;
                        if m < r {
                            assert(exists|m2: int| 0 <= m2 < r && #[trigger] joined(dv[m2]) == x);
                            assert(seen_view.contains(x));
                            let q = choose|q: int| 0 <= q < seen_view.len() && seen_view[q] == x;
                            assert(sv[q] == x);
                        } else {
                            assert(sv[sv.len() - 1] == x);
                        }
                    }
                }
            }
        }
        r += 1;
    }
    // The widest row decides how many column groups there are.
    let mut width: usize = 0;
    let mut i: usize = 0;
    while i < paths.len()
        invariant
            i <= paths@.len(),
            forall|m: int| 0 <= m < i ==> (#[trigger] paths@[m])@.len() <= width,
        decreases paths@.len() - i,
    {
        if paths[i].len() > width {
            width = paths[i].len();
        }
        i += 1;
    }
    let mut groups: Vec<Group> = Vec::new();
    while groups.len() < width
        invariant
            groups@.len() <= width,
            forall|j: int|
                0 <= j < groups@.len() ==> group_view(#[trigger] groups@[j]) == (
                    None::<Seq<char>>,
                    0nat,
                ),
        decreases width - groups@.len(),
    {
        groups.push(Group::new());
    }
    let mut out: Vec<Vec<Position>> = Vec::new();
    let mut i: usize = 0;
    while i < paths.len()
        invariant
            dv == paths_view(data@),
            pv == paths_view(paths@),
            keys@.len() == counts@.len(),
            distinct_keys(keys@),
            forall|x: Seq<char>|
                #![trigger table_count(keys@, counts@, x)]
                table_count(keys@, counts@, x) == occurrences(dv, x, dv.len() as int),
            i <= paths@.len(),
            groups@.len() == width,
            forall|m: int| 0 <= m < paths@.len() ==> (#[trigger] paths@[m])@.len() <= width,
            forall|j: int|
                0 <= j < width ==> group_view(#[trigger] groups@[j]) == group_state(pv, i as int, j),
            out@.len() == i,
            forall|m: int, k: int|
                0 <= m < i && 0 <= k < pv[m].len() ==> occurrences(
                    dv,
                    #[trigger] partial_key(pv[m], k),
                    dv.len() as int,
                ) >= 1,
            forall|m: int|
                0 <= m < i ==> (#[trigger] out@[m])@.len() == pv[m].len() && forall|k: int|
                    0 <= k < pv[m].len() ==> out@[m]@[k] == position(dv, pv, m, k),
        decreases paths@.len() - i,
    {
        let row = &paths[i];
        let ghost p = pv[i as int];
        assert(p == row@.map_values(|s: String| s@));
        let levels = level_keys(row);
        let len = levels.len();
        let mut positions: Vec<Position> = Vec::new();
        let mut k: usize = 0;
        while k < len
            invariant
                dv == paths_view(data@),
                pv == paths_view(paths@),
                p == pv[i as int],
                i < paths@.len(),
                i < usize::MAX,
                len == p.len(),
                levels@.len() == len,
                forall|m: int| 0 <= m < len ==> (#[trigger] levels@[m])@ == partial_key(p, m),
                keys@.len() == counts@.len(),
                distinct_keys(keys@),
                forall|x: Seq<char>|
                    #![trigger table_count(keys@, counts@, x)]
                    table_count(keys@, counts@, x) == occurrences(dv, x, dv.len() as int),
                k <= len,
                len <= width,
                groups@.len() == width,
                forall|j: int|
                    0 <= j < width ==> group_view(#[trigger] groups@[j]) == if len - k <= j < len {
                        group_state(pv, i + 1, j)
                    } else {
                        group_state(pv, i as int, j)
                    },
                forall|m: int|
                    0 <= m < k ==> occurrences(dv, #[trigger] partial_key(p, m), dv.len() as int)
                        >= 1,
                positions@.len() == k,
                forall|m: int| 0 <= m < k ==> #[trigger] positions@[m] == position(dv, pv, i as int, m),
            decreases len - k,
        {
            let j = len - 1 - k;
            let key = &levels[k];
            proof {
                lemma_group_index_bound(pv, i as int, j as int);
                assert(group_view(groups@[j as int]) == group_state(pv, i as int, j as int));
            }
            let group = &mut groups[j];
            if group.matches(key) {
                group.increment();
            } else {
                group.swap(key.clone());
            }
            let index = groups[j].index;
            assert(group_view(groups@[j as int]) == group_state(pv, i + 1, j as int));
            let occ: u128 = match find_key(&keys, key) {
                Some(q) => {
                    proof {
                        lemma_table_count_at(keys@, counts@, q as int);
                    }
                    counts[q]
                },
                None => {
                    proof {
                        lemma_table_count_absent(keys@, counts@, key@);
                    }
                    0
                },
            };
            assert(occ == occurrences(dv, partial_key(p, k as int), dv.len() as int));
            if occ == 0 {
                assert(!all_levels_occur(dv, pv)) by {
                    assert(partial_key(pv[i as int], k as int) == partial_key(p, k as int));
                }
                return None;
            }
            let middle: u128 = (occ - 1) / 2;
            let at = index as u128;
            let position = if middle > at {
                Position::Above
            } else if middle == at {
                Position::At
            } else {
                Position::Below
            };
            positions.push(position);
            k += 1;
        }
        proof {
            assert forall|j: int| 0 <= j < width implies group_view(#[trigger] groups@[j])
                == group_state(pv, i + 1, j) by {
                if j >= len {
                    assert(group_state(pv, i + 1, j) == group_state(pv, i as int, j));
                }
            }
            assert forall|k: int| 0 <= k < pv[i as int].len() implies occurrences(
                dv,
                #[trigger] partial_key(pv[i as int], k),
                dv.len() as int,
            ) >= 1 by {
                assert(partial_key(p, k) == partial_key(pv[i as int], k));
            }
        }
        out.push(positions);
        i += 1;
    }
    Some(out)
}

/// The aggregated values of a row of a dag-chart, computed by the caller.
pub struct DagValues {
    /// The row's values (rounded): one per breakdown heading, or just one.
    pub values: Vec<i64>,
    /// The aggregate of the row's values, as text (shown when `show_aggregate` is set).
    pub total: String,
    /// At index `k` (for each part after the first), the aggregate over the data under the
    /// first `k + 1` parts of the row's path, as text (shown when the widget's
    /// `show_aggregate` is set).
    pub partials: Vec<String>,
}

/// What the rows of a dag-chart frame depend on, as plain values.
pub struct DagLayout {
    /// The headers of the display dimensions, primary dimension first.
    pub headers: Seq<Seq<char>>,
    /// The display paths of the data points, in the order they were added.
    pub data: Seq<Seq<Seq<char>>>,
    /// The display paths of the rows, in display order.
    pub paths: Seq<Seq<Seq<char>>>,
    pub abbreviate: bool,
    pub show_partials: bool,
    pub show_aggregate: bool,
    pub breakdown: bool,
    pub aggregate: Aggregate,
}

/// The layout of a dag-chart rendering.
pub open spec fn dag_layout(
    render: Render<DagChartConfig>,
    headers: Seq<String>,
    breakdown_label: Option<String>,
    data: Seq<Vec<String>>,
    paths: Seq<Vec<String>>,
) -> DagLayout {
    DagLayout {
        headers: abbreviate::string_views(headers),
        data: paths_view(data),
        paths: paths_view(paths),
        abbreviate: render.widget_config.abbreviate,
        show_partials: render.widget_config.show_aggregate,
        show_aggregate: render.show_aggregate,
        breakdown: breakdown_label is Some,
        aggregate: render.aggregate,
    }
}

/// The columns of the display dimension `j` places from the left (of `n`): its value, and
/// but for the last, a spacer, the partial aggregate (when shown) and the dag marker.
pub open spec fn dimension_columns(j: int, n: int, show_partials: bool) -> Seq<Column> {
    seq![frame::text_column(Alignment::Left)] + if j + 1 < n {
        seq![frame::text_column(Alignment::Center)] + (if show_partials {
            seq![
                frame::text_column(Alignment::Left),
                frame::text_column(Alignment::Right),
                frame::text_column(Alignment::Left),
            ]
        } else {
            seq![]
        }) + seq![frame::text_column(Alignment::Center)]
    } else {
        seq![]
    }
}

/// The columns of the first `m` display dimensions (of `n`), left to right.
pub open spec fn dimensions_columns(m: int, n: int, show_partials: bool) -> Seq<Column>
    decreases m,
{
    if m <= 0 {
        seq![]
    } else {
        dimensions_columns(m - 1, n, show_partials) + dimension_columns(m - 1, n, show_partials)
    }
}

/// The columns of a dag-chart frame.
pub open spec fn dag_columns(
    n: nat,
    show_partials: bool,
    show_aggregate: bool,
    breakdowns: Option<nat>,
) -> Seq<Column> {
    dimensions_columns(n as int, n as int, show_partials) + frame::value_columns(
        show_aggregate,
        breakdowns,
    )
}

/// The header cells of the display dimension `j` places from the left (of `n`).
pub open spec fn dimension_header(
    name: Seq<char>,
    j: int,
    n: int,
    show_partials: bool,
    a: Aggregate,
) -> Seq<Shown> {
    seq![Shown::Text(name)] + if j + 1 < n {
        seq![Shown::Text(" "@)] + (if show_partials {
            seq![Shown::Overflow(aggregate::aggregate_name(a)), Shown::Skip, Shown::Skip]
        } else {
            seq![]
        }) + seq![Shown::Text("   "@)]
    } else {
        seq![]
    }
}

/// The header cells of the first `m` display dimensions from the left: the last display
/// dimension is leftmost.
pub open spec fn dimensions_header(
    headers: Seq<Seq<char>>,
    m: int,
    show_partials: bool,
    a: Aggregate,
) -> Seq<Shown>
    decreases m,
{
    if m <= 0 {
        seq![]
    } else {
        dimensions_header(headers, m - 1, show_partials, a) + dimension_header(
            headers[headers.len() - m],
            m - 1,
            headers.len() as int,
            show_partials,
            a,
        )
    }
}

/// The header row of a dag-chart frame.
pub open spec fn dag_header(
    l: DagLayout,
    breakdowns: Seq<Seq<char>>,
    value_label: Seq<char>,
) -> Seq<Shown> {
    dimensions_header(l.headers, l.headers.len() as int, l.show_partials, l.aggregate)
        + frame::value_header(
        l.aggregate,
        l.show_aggregate,
        if l.breakdown {
            Some(breakdowns)
        } else {
            None
        },
        value_label,
    )
}

/// The longest of `headers` (0 for none).
pub open spec fn longest_header(headers: Seq<Seq<char>>) -> nat
    decreases headers.len(),
{
    if headers.len() == 0 {
        0
    } else {
        let rest = longest_header(headers.drop_last());
        if headers.last().len() > rest {
            headers.last().len()
        } else {
            rest
        }
    }
}

/// The distinct values at index `k` of the first `m` paths, in order of first occurrence.
pub open spec fn distinct_at(data: Seq<Seq<Seq<char>>>, k: int, m: int) -> Seq<Seq<char>>
    decreases m,
{
    if m <= 0 {
        seq![]
    } else {
        let before = distinct_at(data, k, m - 1);
        if before.contains(data[m - 1][k]) {
            before
        } else {
            before.push(data[m - 1][k])
        }
    }
}

/// The abbreviations of the values of the display dimension `k`: they are abbreviated apart
/// at the narrowest width between the length of its header and the length of the longest
/// header.
pub open spec fn dimension_abbreviations(l: DagLayout, k: int) -> Seq<(Seq<char>, Seq<char>)> {
    let values = distinct_at(l.data, k, l.data.len() as int);
    let chosen = abbreviate::found(l.headers[k].len(), longest_header(l.headers), values).1;
    Seq::new(values.len(), |q: int| (values[q], chosen[q]))
}

/// How the part `s` of display dimension `k` is written.
pub open spec fn part_text(l: DagLayout, k: int, s: Seq<char>) -> Seq<char> {
    if l.abbreviate {
        render::lookup(dimension_abbreviations(l, k), s)
    } else {
        s
    }
}

/// The marker that leads from a part towards the part written before it in the path.
pub open spec fn marker(p: Position) -> Shown {
    match p {
        Position::Above => Shown::Text("┐"@),
        Position::At => Shown::Text("-"@),
        Position::Below => Shown::Text("┘"@),
    }
}

/// The cells that the level `k` of row `i` contributes.
pub open spec fn dag_chunk(l: DagLayout, a: DagValues, i: int, k: int) -> Seq<Shown> {
    let here = position(l.data, l.paths, i, k);
    if here == Position::At {
        seq![Shown::Text(part_text(l, k, l.paths[i][k]))] + if k == 0 {
            frame::value_cells(l.show_aggregate, a.total@, a.values@, l.breakdown)
        } else {
            seq![Shown::Text(" "@)] + (if l.show_partials {
                seq![Shown::Text("["@), Shown::Text(a.partials@[k]@), Shown::Text("]"@)]
            } else {
                seq![]
            }) + seq![marker(position(l.data, l.paths, i, k - 1))]
        }
    } else if k != 0 && position(l.data, l.paths, i, k - 1) == Position::At {
        seq![Shown::Empty, Shown::Text(" "@)] + (if l.show_partials {
            seq![Shown::Empty, Shown::Empty, Shown::Empty]
        } else {
            seq![]
        }) + seq![Shown::Text("-"@)]
    } else {
        seq![]
    }
}

/// The cells of levels `k` and above of row `i`, the highest level leftmost.
pub open spec fn dag_chunks(l: DagLayout, a: DagValues, i: int, k: int) -> Seq<Shown>
    decreases l.paths[i].len() - k,
{
    if k >= l.paths[i].len() {
        seq![]
    } else {
        dag_chunks(l, a, i, k + 1) + dag_chunk(l, a, i, k)
    }
}

/// The row `i` of a dag-chart frame.
pub open spec fn dag_row(l: DagLayout, a: DagValues, i: int) -> Seq<Shown> {
    dag_chunks(l, a, i, 0)
}

/// Append the columns of the display dimensions.
fn push_dimensions_columns(columns: &mut Columns, n: usize, show_partials: bool)
    ensures
        final(columns).types@ == old(columns).types@ + dimensions_columns(
            n as int,
            n as int,
            show_partials,
        ),
{
    let mut j: usize = 0;
    assert(old(columns).types@ =~= old(columns).types@ + dimensions_columns(0, n as int, show_partials));
    while j < n
        invariant
            j <= n,
            columns.types@ == old(columns).types@ + dimensions_columns(
                j as int,
                n as int,
                show_partials,
            ),
        decreases n - j,
    {
        let ghost before = columns.types@;
        columns.push(Column::string(Alignment::Left));
        if j + 1 < n {
            columns.push(Column::string(Alignment::Center));
            if show_partials {
                columns.push(Column::string(Alignment::Left));
                columns.push(Column::string(Alignment::Right));
                columns.push(Column::string(Alignment::Left));
            }
            columns.push(Column::string(Alignment::Center));
        }
        assert(columns.types@ =~= before + dimension_columns(j as int, n as int, show_partials));
        j += 1;
        assert(columns.types@ =~= old(columns).types@ + dimensions_columns(
            j as int,
            n as int,
            show_partials,
        ));
    }
}

proof fn lemma_dimensions_columns_len(m: int, n: int, show_partials: bool)
    requires
        m >= 0,
    ensures
        dimensions_columns(m, n, show_partials).len() <= 6 * m,
    decreases m,
{
    if m > 0 {
        lemma_dimensions_columns_len(m - 1, n, show_partials);
    }
}

/// Append the header cells of the display dimensions, the last one leftmost.
fn push_dimensions_header(row: &mut Row, headers: &Vec<String>, show_partials: bool, a: Aggregate)
    requires
        old(row).wf(),
    ensures
        final(row).wf(),
        frame::shown_row(*final(row)) == frame::shown_row(*old(row)) + dimensions_header(
            abbreviate::string_views(headers@),
            headers@.len() as int,
            show_partials,
            a,
        ),
{
    let ghost hv = abbreviate::string_views(headers@);
    let n = headers.len();
    let mut j: usize = 0;
    assert(frame::shown_row(*old(row)) =~= frame::shown_row(*old(row)) + dimensions_header(
        hv,
        0,
        show_partials,
        a,
    ));
    while j < n
        invariant
            j <= n,
            n == headers@.len(),
            hv == abbreviate::string_views(headers@),
            row.wf(),
            frame::shown_row(*row) == frame::shown_row(*old(row)) + dimensions_header(
                hv,
                j as int,
                show_partials,
                a,
            ),
        decreases n - j,
    {
        let ghost before = frame::shown_row(*row);
        frame::push_value(row, Value::String(headers[n - 1 - j].clone()));
        if j + 1 < n {
            frame::push_text(row, " ");
            if show_partials {
                frame::push_value(row, Value::Overflow(a.name()));
                frame::push_value(row, Value::Skip);
                frame::push_value(row, Value::Skip);
            }
            frame::push_text(row, "   ");
        }
        assert(hv[hv.len() - (j + 1)] == headers@[n - 1 - j]@);
        assert(frame::shown_row(*row) =~= before + dimension_header(
            hv[hv.len() - (j + 1)],
            j as int,
            n as int,
            show_partials,
            a,
        ));
        j += 1;
        assert(frame::shown_row(*row) =~= frame::shown_row(*old(row)) + dimensions_header(
            hv,
            j as int,
            show_partials,
            a,
        ));
    }
}

/// The length of the longest header.
fn longest_header_length(headers: &Vec<String>) -> (r: usize)
    ensures
        r == longest_header(abbreviate::string_views(headers@)),
{
    let ghost hv = abbreviate::string_views(headers@);
    let mut longest: usize = 0;
    let mut j: usize = 0;
    assert(hv.take(0) =~= Seq::<Seq<char>>::empty());
    while j < headers.len()
        invariant
            j <= headers@.len(),
            hv == abbreviate::string_views(headers@),
            longest == longest_header(hv.take(j as int)),
        decreases headers@.len() - j,
    {
        let length = abbreviate::char_count(&headers[j]);
        assert(hv.take(j + 1).drop_last() =~= hv.take(j as int));
        if length > longest {
            longest = length;
        }
        j += 1;
    }
    assert(hv.take(headers@.len() as int) =~= hv);
    longest
}

/// The distinct values at index `k` of the data paths, in order of first occurrence.
fn distinct_values_at(data: &Vec<Vec<String>>, k: usize) -> (r: Vec<String>)
    requires
        forall|m: int| 0 <= m < data@.len() ==> k < (#[trigger] data@[m])@.len(),
    ensures
        abbreviate::string_views(r@) == distinct_at(paths_view(data@), k as int, data@.len() as int),
        abbreviate::distinct_values(abbreviate::string_views(r@)),
{
    let ghost dv = paths_view(data@);
    let mut values: Vec<String> = Vec::new();
    let mut m: usize = 0;
    while m < data.len()
        invariant
            dv == paths_view(data@),
            m <= data@.len(),
            forall|q: int| 0 <= q < data@.len() ==> k < (#[trigger] data@[q])@.len(),
            abbreviate::string_views(values@) == distinct_at(dv, k as int, m as int),
            abbreviate::distinct_values(abbreviate::string_views(values@)),
        decreases data@.len() - m,
    {
        let value = &data[m][k];
        assert(dv[m as int][k as int] == value@);
        let ghost views = abbreviate::string_views(values@);
        match find_key(&values, value) {
            Some(q) => {
                assert(views[q as int] == value@);
            },
            None => {
                assert(!views.contains(value@));
                values.push(value.clone());
                assert(abbreviate::string_views(values@) =~= views.push(value@));
            },
        }
        m += 1;
    }
    values
}

/// The abbreviation tables of the display dimensions (empty when not abbreviating).
fn abbreviation_tables(
    Ghost(l): Ghost<DagLayout>,
    headers: &Vec<String>,
    data: &Vec<Vec<String>>,
    abbreviate: bool,
) -> (r: Vec<Vec<(String, String)>>)
    requires
        l.headers == abbreviate::string_views(headers@),
        l.data == paths_view(data@),
        forall|m: int| 0 <= m < data@.len() ==> (#[trigger] data@[m])@.len() == headers@.len(),
    ensures
        r@.len() == headers@.len(),
        abbreviate ==> forall|k: int|
            0 <= k < headers@.len() ==> Seq::new(
                (#[trigger] r@[k])@.len(),
                |q: int| (r@[k]@[q].0@, r@[k]@[q].1@),
            ) == dimension_abbreviations(l, k),
{
    let longest = longest_header_length(headers);
    let mut tables: Vec<Vec<(String, String)>> = Vec::new();
    let mut k: usize = 0;
    while k < headers.len()
        invariant
            k <= headers@.len(),
            l.headers == abbreviate::string_views(headers@),
            l.data == paths_view(data@),
            longest == longest_header(l.headers),
            forall|m: int| 0 <= m < data@.len() ==> (#[trigger] data@[m])@.len() == headers@.len(),
            tables@.len() == k,
            abbreviate ==> forall|q: int|
                0 <= q < k ==> Seq::new(
                    (#[trigger] tables@[q])@.len(),
                    |p: int| (tables@[q]@[p].0@, tables@[q]@[p].1@),
                ) == dimension_abbreviations(l, q),
        decreases headers@.len() - k,
    {
        let mut table: Vec<(String, String)> = Vec::new();
        if abbreviate {
            let values = distinct_values_at(data, k);
            let ghost views = abbreviate::string_views(values@);
            if values.len() > 0 {
                let shortest = abbreviate::char_count(&headers[k]);
                assert(l.headers[k as int] == headers@[k as int]@);
                proof {
                    lemma_longest_header(l.headers, k as int);
                }
                let (_, pairs) = find_abbreviations(shortest, longest, &values);
                table = pairs;
            }
            assert(Seq::new(table@.len(), |p: int| (table@[p].0@, table@[p].1@))
                =~= dimension_abbreviations(l, k as int));
        }
        tables.push(table);
        k += 1;
    }
    tables
}

proof fn lemma_longest_header(headers: Seq<Seq<char>>, k: int)
    requires
        0 <= k < headers.len(),
    ensures
        headers[k].len() <= longest_header(headers),
    decreases headers.len(),
{
    if k < headers.len() - 1 {
        lemma_longest_header(headers.drop_last(), k);
    }
}

/// The keys of a table of abbreviations.
pub open spec fn table_keys(t: Seq<(Seq<char>, Seq<char>)>) -> Seq<Seq<char>> {
    Seq::new(t.len(), |q: int| t[q].0)
}

/// With abbreviation on, each display dimension is written from a table of its own: its keys
/// are exactly the distinct values that the dimension takes among the data, and every part of
/// the dimension is written as its entry there, no longer than the width chosen for the
/// dimension (or 2). Where the values can be abbreviated apart at all between the length of
/// the dimension's header and that of the longest header, the width lies between those two.
pub proof fn law_dimension_abbreviations(l: DagLayout, k: int, m: int)
    requires
        0 <= k < l.headers.len(),
        0 <= m < l.data.len(),
        forall|i: int| 0 <= i < l.data.len() ==> (#[trigger] l.data[i]).len() == l.headers.len(),
    ensures
        ({
            let t = dimension_abbreviations(l, k);
            let keys = table_keys(t);
            let (w, _) = abbreviate::found(l.headers[k].len(), longest_header(l.headers), keys);
            &&& forall|q: int|
                0 <= q < t.len() ==> exists|i: int|
                    0 <= i < l.data.len() && l.data[i][k] == (#[trigger] t[q]).0
            &&& exists|q: int| 0 <= q < t.len() && (#[trigger] t[q]).0 == l.data[m][k]
            &&& abbreviate::distinct_values(keys)
            &&& l.abbreviate ==> part_text(l, k, l.data[m][k]).len() <= if w >= 2 {
                w
            } else {
                2
            }
            &&& abbreviate::first_fit(
                abbreviate::start_width(l.headers[k].len(), keys),
                longest_header(l.headers),
                keys,
            ) is Some ==> l.headers[k].len() <= w <= longest_header(l.headers)
        }),
{
    let n = l.data.len() as int;
    let values = distinct_at(l.data, k, n);
    lemma_distinct_at(l.data, k, n);
    let t = dimension_abbreviations(l, k);
    let hk = l.headers[k].len();
    let longest = longest_header(l.headers);
    let chosen = abbreviate::found(hk, longest, values).1;
    assert(table_keys(t) =~= values);
    abbreviate::law_abbreviations_fit(hk, longest, values);
    assert(values.contains(l.data[m][k]));
    let q = choose|q: int| 0 <= q < values.len() && values[q] == l.data[m][k];
    assert(t[q].0 == l.data[m][k]);
    assert forall|p: int| 0 <= p < t.len() implies exists|i: int|
        0 <= i < l.data.len() && l.data[i][k] == (#[trigger] t[p]).0 by {
        assert(t[p].0 == values[p]);
    }
    lemma_lookup_found(t, l.data[m][k], q);
    assert(t[q].1 == chosen[q]);
    let start = abbreviate::start_width(hk, values);
    abbreviate::lemma_first_fit(start, longest, values);
}

/// The distinct values at index `k` of the first `m` paths: each comes from one of those
/// paths, each of those paths' value is among them, and none occurs twice.
proof fn lemma_distinct_at(data: Seq<Seq<Seq<char>>>, k: int, m: int)
    requires
        0 <= m <= data.len(),
    ensures
        forall|q: int|
            0 <= q < distinct_at(data, k, m).len() ==> exists|i: int|
                0 <= i < m && data[i][k] == #[trigger] distinct_at(data, k, m)[q],
        forall|i: int| 0 <= i < m ==> distinct_at(data, k, m).contains(#[trigger] data[i][k]),
        abbreviate::distinct_values(distinct_at(data, k, m)),
    decreases m,
{
    if m > 0 {
        lemma_distinct_at(data, k, m - 1);
        let before = distinct_at(data, k, m - 1);
        let d = distinct_at(data, k, m);
        if !before.contains(data[m - 1][k]) {
            assert forall|q: int| 0 <= q < d.len() implies exists|i: int|
                0 <= i < m && data[i][k] == #[trigger] d[q] by {
                if q == before.len() {
                    assert(data[m - 1][k] == d[q]);
                } else {
                    assert(d[q] == before[q]);
                }
            }
            assert forall|i: int| 0 <= i < m implies d.contains(#[trigger] data[i][k]) by {
                if i < m - 1 {
                    let p = choose|p: int| 0 <= p < before.len() && before[p] == data[i][k];
                    assert(d[p] == data[i][k]);
                } else {
                    assert(d[before.len() as int] == data[i][k]);
                }
            }
        }
    }
}

/// Looking up a key of a table whose keys are distinct gives its entry.
proof fn lemma_lookup_found(t: Seq<(Seq<char>, Seq<char>)>, s: Seq<char>, q: int)
    requires
        0 <= q < t.len(),
        t[q].0 == s,
        abbreviate::distinct_values(table_keys(t)),
    ensures
        render::lookup(t, s) == t[q].1,
    decreases t.len(),
{
    if q > 0 {
        assert(table_keys(t)[0] != table_keys(t)[q]);
        let rest = t.drop_first();
        assert(table_keys(rest) =~= table_keys(t).drop_first());
        lemma_lookup_found(rest, s, q - 1);
    }
}

/// Append the marker of a position.
fn push_marker(row: &mut Row, p: Position)
    requires
        old(row).wf(),
    ensures
        final(row).wf(),
        frame::shown_row(*final(row)) == frame::shown_row(*old(row)).push(marker(p)),
{
    match p {
        Position::Above => frame::push_text(row, "┐"),
        Position::At => frame::push_text(row, "-"),
        Position::Below => frame::push_text(row, "┘"),
    }
}

/// Append the cells that level `k` of row `i` contributes (see [`dag_chunk`]).
fn push_dag_chunk(
    row: &mut Row,
    Ghost(l): Ghost<DagLayout>,
    Ghost(i): Ghost<int>,
    a: &DagValues,
    positions: &Vec<Position>,
    k: usize,
    part: String,
    show_partials: bool,
    show_aggregate: bool,
    breakdown: bool,
)
    requires
        old(row).wf(),
        show_partials == l.show_partials,
        show_aggregate == l.show_aggregate,
        breakdown == l.breakdown,
        0 <= i < l.paths.len(),
        k < l.paths[i].len(),
        positions@.len() == l.paths[i].len(),
        forall|q: int|
            0 <= q < positions@.len() ==> #[trigger] positions@[q] == position(
                l.data,
                l.paths,
                i,
                q,
            ),
        part@ == part_text(l, k as int, l.paths[i][k as int]),
        l.show_partials && k > 0 ==> k < a.partials@.len(),
        k == 0 && !l.breakdown ==> a.values@.len() > 0,
    ensures
        final(row).wf(),
        frame::shown_row(*final(row)) == frame::shown_row(*old(row)) + dag_chunk(
            l,
            *a,
            i,
            k as int,
        ),
{
    let ghost before = frame::shown_row(*row);
    if positions[k] == Position::At {
        frame::push_value(row, Value::String(part));
        if k == 0 {
            frame::push_value_cells(row, show_aggregate, &a.total, &a.values, breakdown);
        } else {
            frame::push_text(row, " ");
            if show_partials {
                frame::push_text(row, "[");
                frame::push_value(row, Value::String(a.partials[k].clone()));
                frame::push_text(row, "]");
            }
            push_marker(row, positions[k - 1]);
        }
    } else if k != 0 && positions[k - 1] == Position::At {
        frame::push_value(row, Value::Empty);
        frame::push_text(row, " ");
        if show_partials {
            frame::push_value(row, Value::Empty);
            frame::push_value(row, Value::Empty);
            frame::push_value(row, Value::Empty);
        }
        frame::push_text(row, "-");
    }
    assert(frame::shown_row(*row) =~= before + dag_chunk(l, *a, i, k as int));
}

/// Lay out the frame of a dag-chart: its columns, and its rows (the rows above the header,
/// the header, and one row per display path, in the order of `paths`).
///
/// `headers` label the display dimensions (primary dimension first); `data` holds the display
/// path of every data point, in the order the points were added, and `paths` the display
/// path of every row; `aggregates` holds the aggregated values of every row. With a
/// `breakdown_label`, each row shows one value per heading of `breakdowns`.
///
/// Returns `None` when some level of some row does not occur among the data paths (see
/// [`dag_positions`]).
pub fn dag_frame(
    render: &Render<DagChartConfig>,
    headers: &Vec<String>,
    breakdown_label: &Option<String>,
    value_label: &String,
    breakdowns: &Vec<String>,
    data: &Vec<Vec<String>>,
    paths: &Vec<Vec<String>>,
    aggregates: &Vec<DagValues>,
) -> (r: Option<(Columns, Vec<Row>)>)
    requires
        0 < headers@.len() <= usize::MAX / 8,
        forall|m: int| 0 <= m < data@.len() ==> (#[trigger] data@[m])@.len() == headers@.len(),
        forall|i: int| 0 <= i < paths@.len() ==> (#[trigger] paths@[i])@.len() == headers@.len(),
        aggregates@.len() == paths@.len(),
        forall|i: int|
            0 <= i < aggregates@.len() ==> (render.widget_config.show_aggregate ==> (
            #[trigger] aggregates@[i]).partials@.len() == headers@.len()) && (breakdown_label is None
                ==> aggregates@[i].values@.len() > 0),
    ensures
        r is Some <==> all_levels_occur(paths_view(data@), paths_view(paths@)),
        r matches Some(frame) ==> {
            let l = dag_layout(*render, headers@, *breakdown_label, data@, paths@);
            let n = headers@.len() as int;
            let pre = frame::preheaders(
                dimensions_columns(n, n, l.show_partials).len(),
                l.show_aggregate,
                l.aggregate,
                frame::label_view(*breakdown_label),
                value_label@,
            );
            &&& frame.0.types@ == dag_columns(
                n as nat,
                l.show_partials,
                l.show_aggregate,
                if l.breakdown {
                    Some(breakdowns@.len())
                } else {
                    None
                },
            )
            &&& frame.1@.len() == pre.len() + 1 + paths@.len()
            &&& forall|q: int| 0 <= q < frame.1@.len() ==> (#[trigger] frame.1@[q]).wf()
            &&& forall|q: int|
                0 <= q < pre.len() ==> frame::shown_row(#[trigger] frame.1@[q]) == pre[q]
            &&& frame::shown_row(frame.1@[pre.len() as int]) == dag_header(
                l,
                abbreviate::string_views(breakdowns@),
                value_label@,
            )
            &&& forall|i: int|
                0 <= i < paths@.len() ==> frame::shown_row(#[trigger] frame.1@[pre.len() + 1 + i])
                    == dag_row(l, aggregates@[i], i)
        },
{
    let ghost l = dag_layout(*render, headers@, *breakdown_label, data@, paths@);
    let n = headers.len();
    let show_partials = render.widget_config.show_aggregate;
    let show_aggregate = render.show_aggregate;
    let breakdown = breakdown_label.is_some();
    let positions = match dag_positions(data, paths) {
        Some(positions) => positions,
        None => {
            return None;
        },
    };
    let tables = abbreviation_tables(Ghost(l), headers, data, render.widget_config.abbreviate);
    let mut columns = Columns::default();
    push_dimensions_columns(&mut columns, n, show_partials);
    let leading = columns.types.len();
    proof {
        lemma_dimensions_columns_len(n as int, n as int, show_partials);
    }
    assert(columns.types@ =~= dimensions_columns(n as int, n as int, show_partials));
    frame::push_value_columns(
        &mut columns,
        show_aggregate,
        if breakdown {
            Some(breakdowns.len())
        } else {
            None
        },
    );
    let ghost pre = frame::preheaders(
        leading as nat,
        show_aggregate,
        render.aggregate,
        frame::label_view(*breakdown_label),
        value_label@,
    );
    let mut rows = frame::preheader_rows(
        leading,
        show_aggregate,
        render.aggregate,
        breakdown_label,
        value_label,
    );
    let mut header = Row::default();
    assert(frame::shown_row(header) =~= Seq::<Shown>::empty());
    push_dimensions_header(&mut header, headers, show_partials, render.aggregate);
    frame::push_value_header(
        &mut header,
        render.aggregate,
        show_aggregate,
        if breakdown {
            Some(breakdowns)
        } else {
            None
        },
        value_label,
    );
    rows.push(header);
    let mut i: usize = 0;
    while i < paths.len()
        invariant
            l == dag_layout(*render, headers@, *breakdown_label, data@, paths@),
            n == headers@.len(),
            show_partials == l.show_partials,
            show_aggregate == l.show_aggregate,
            breakdown == l.breakdown,
            i <= paths@.len(),
            forall|i: int| 0 <= i < paths@.len() ==> (#[trigger] paths@[i])@.len() == headers@.len(),
            aggregates@.len() == paths@.len(),
            forall|i: int|
                0 <= i < aggregates@.len() ==> (render.widget_config.show_aggregate ==> (
                #[trigger] aggregates@[i]).partials@.len() == headers@.len()) && (breakdown_label
                    is None ==> aggregates@[i].values@.len() > 0),
            positions@.len() == paths@.len(),
            forall|i: int|
                0 <= i < paths@.len() ==> (#[trigger] positions@[i])@.len() == paths@[i]@.len()
                    && forall|k: int|
                    0 <= k < paths@[i]@.len() ==> positions@[i]@[k] == position(
                        paths_view(data@),
                        paths_view(paths@),
                        i,
                        k,
                    ),
            tables@.len() == headers@.len(),
            render.widget_config.abbreviate ==> forall|k: int|
                0 <= k < headers@.len() ==> Seq::new(
                    (#[trigger] tables@[k])@.len(),
                    |q: int| (tables@[k]@[q].0@, tables@[k]@[q].1@),
                ) == dimension_abbreviations(l, k),
            rows@.len() == pre.len() + 1 + i,
            forall|q: int| 0 <= q < rows@.len() ==> (#[trigger] rows@[q]).wf(),
            forall|q: int| 0 <= q < pre.len() ==> frame::shown_row(#[trigger] rows@[q]) == pre[q],
            frame::shown_row(rows@[pre.len() as int]) == dag_header(
                l,
                abbreviate::string_views(breakdowns@),
                value_label@,
            ),
            forall|m: int|
                0 <= m < i ==> frame::shown_row(#[trigger] rows@[pre.len() + 1 + m]) == dag_row(
                    l,
                    aggregates@[m],
                    m,
                ),
        decreases paths@.len() - i,
    {
        let path = &paths[i];
        let mut row = Row::default();
        let mut k: usize = n;
        assert(l.paths[i as int] == path@.map_values(|s: String| s@));
        assert(frame::shown_row(row) =~= dag_chunks(l, aggregates@[i as int], i as int, k as int));
        while k > 0
            invariant
                l == dag_layout(*render, headers@, *breakdown_label, data@, paths@),
                show_partials == l.show_partials,
                show_aggregate == l.show_aggregate,
                breakdown == l.breakdown,
                i < paths@.len(),
                aggregates@.len() == paths@.len(),
                positions@.len() == paths@.len(),
                path == paths@[i as int],
                path@.len() == n,
                n == headers@.len(),
                l.paths[i as int] == path@.map_values(|s: String| s@),
                k <= n,
                row.wf(),
                positions@[i as int]@.len() == n,
                forall|q: int|
                    0 <= q < n ==> #[trigger] positions@[i as int]@[q] == position(
                        l.data,
                        l.paths,
                        i as int,
                        q,
                    ),
                tables@.len() == n,
                render.widget_config.abbreviate ==> forall|q: int|
                    0 <= q < n ==> Seq::new(
                        (#[trigger] tables@[q])@.len(),
                        |p: int| (tables@[q]@[p].0@, tables@[q]@[p].1@),
                    ) == dimension_abbreviations(l, q),
                l.show_partials ==> aggregates@[i as int].partials@.len() == n,
                !l.breakdown ==> aggregates@[i as int].values@.len() > 0,
                frame::shown_row(row) == dag_chunks(l, aggregates@[i as int], i as int, k as int),
            decreases k,
        {
            k -= 1;
            let part = if render.widget_config.abbreviate {
                render::lookup_abbreviation(&tables[k], &path[k])
            } else {
                path[k].clone()
            };
            push_dag_chunk(
                &mut row,
                Ghost(l),
                Ghost(i as int),
                &aggregates[i],
                &positions[i],
                k,
                part,
                show_partials,
                show_aggregate,
                breakdown,
            );
        }
        rows.push(row);
        i += 1;
    }
    Some((columns, rows))
}

} // verus!

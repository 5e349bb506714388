//! The layout of a path-chart frame: every distinct prefix of the display paths is a row, in
//! lexicographic order (so that each path comes right after the path it extends, as in a
//! depth-first walk of the tree of paths), written as its last part indented by its depth.
use crate::abbreviate;
use crate::config::PathChartConfig;
use crate::dag::paths_view;
use crate::frame::{self, Aggregated, Shown};
use crate::render::{Alignment, Column, Columns, Render, Row, Value};
use vstd::prelude::*;

verus! {

/// `a` comes strictly before `b` in lexicographic order of characters (as `String`s compare).
pub open spec fn text_less(a: Seq<char>, b: Seq<char>) -> bool
    decreases a.len(),
{
    if a.len() == 0 {
        b.len() > 0
    } else if b.len() == 0 {
        false
    } else if a[0] != b[0] {
        (a[0] as int) < (b[0] as int)
    } else {
        text_less(a.drop_first(), b.drop_first())
    }
}

/// `a` comes strictly before `b` in lexicographic order of parts: a path comes before the
/// paths that extend it.
pub open spec fn path_less(a: Seq<Seq<char>>, b: Seq<Seq<char>>) -> bool
    decreases a.len(),
{
    if a.len() == 0 {
        b.len() > 0
    } else if b.len() == 0 {
        false
    } else if a[0] != b[0] {
        text_less(a[0], b[0])
    } else {
        path_less(a.drop_first(), b.drop_first())
    }
}

/// `p` is a non-empty prefix of one of the paths in `data`.
pub open spec fn is_prefix_of_data(data: Seq<Seq<Seq<char>>>, p: Seq<Seq<char>>) -> bool {
    p.len() > 0 && exists|m: int|
        0 <= m < data.len() && p.len() <= data[m].len() && #[trigger] data[m].take(p.len() as int)
            == p
}

/// The items are in strictly increasing order.
pub open spec fn sorted_paths(items: Seq<Seq<Seq<char>>>) -> bool {
    forall|a: int, b: int|
        0 <= a < b < items.len() ==> path_less(#[trigger] items[a], #[trigger] items[b])
}

/// No text comes before itself.
pub proof fn lemma_text_less_irreflexive(a: Seq<char>)
    ensures
        !text_less(a, a),
    decreases a.len(),
{
    if a.len() > 0 {
        lemma_text_less_irreflexive(a.drop_first());
    }
}

/// Two texts do not each come before the other.
pub proof fn lemma_text_less_asymmetric(a: Seq<char>, b: Seq<char>)
    ensures
        !(text_less(a, b) && text_less(b, a)),
    decreases a.len(),
{
    if a.len() > 0 && b.len() > 0 && a[0] == b[0] {
        lemma_text_less_asymmetric(a.drop_first(), b.drop_first());
    }
}

/// Of two different texts, one comes before the other.
pub proof fn lemma_text_less_total(a: Seq<char>, b: Seq<char>)
    ensures
        a != b ==> text_less(a, b) || text_less(b, a),
    decreases a.len(),
{
    if a.len() > 0 && b.len() > 0 && a[0] == b[0] {
        lemma_text_less_total(a.drop_first(), b.drop_first());
        if a.drop_first() == b.drop_first() {
            assert(a =~= seq![a[0]] + a.drop_first());
            assert(b =~= seq![b[0]] + b.drop_first());
        }
    } else if a.len() > 0 && b.len() > 0 {
        assert((a[0] as int) != (b[0] as int));
    } else if a.len() == 0 && b.len() == 0 {
        assert(a =~= b);
    }
}

/// The order of texts is transitive.
pub proof fn lemma_text_less_transitive(a: Seq<char>, b: Seq<char>, c: Seq<char>)
    requires
        text_less(a, b),
        text_less(b, c),
    ensures
        text_less(a, c),
    decreases a.len(),
{
    if a.len() > 0 && b.len() > 0 && c.len() > 0 && a[0] == b[0] && b[0] == c[0] {
        lemma_text_less_transitive(a.drop_first(), b.drop_first(), c.drop_first());
    }
}

/// No path comes before itself.
pub proof fn lemma_path_less_irreflexive(a: Seq<Seq<char>>)
    ensures
        !path_less(a, a),
    decreases a.len(),
{
    if a.len() > 0 {
        lemma_path_less_irreflexive(a.drop_first());
    }
}

/// Of two different paths, one comes before the other.
pub proof fn lemma_path_less_total(a: Seq<Seq<char>>, b: Seq<Seq<char>>)
    ensures
        a != b ==> path_less(a, b) || path_less(b, a),
    decreases a.len(),
{
    if a.len() > 0 && b.len() > 0 && a[0] == b[0] {
        lemma_path_less_total(a.drop_first(), b.drop_first());
        if a.drop_first() == b.drop_first() {
            assert(a =~= seq![a[0]] + a.drop_first());
            assert(b =~= seq![b[0]] + b.drop_first());
        }
    } else if a.len() > 0 && b.len() > 0 {
        lemma_text_less_total(a[0], b[0]);
    } else if a.len() == 0 && b.len() == 0 {
        assert(a =~= b);
    }
}

/// The order of paths is transitive.
pub proof fn lemma_path_less_transitive(a: Seq<Seq<char>>, b: Seq<Seq<char>>, c: Seq<Seq<char>>)
    requires
        path_less(a, b),
        path_less(b, c),
    ensures
        path_less(a, c),
    decreases a.len(),
{
    if a.len() > 0 && b.len() > 0 && c.len() > 0 {
        if a[0] == b[0] && b[0] == c[0] {
            lemma_path_less_transitive(a.drop_first(), b.drop_first(), c.drop_first());
        } else if a[0] != b[0] && b[0] != c[0] {
            lemma_text_less_transitive(a[0], b[0], c[0]);
            if a[0] == c[0] {
                lemma_text_less_asymmetric(a[0], b[0]);
            }
        }
    }
}

/// Whether `a` comes strictly before `b` (see [`text_less`]).
fn text_before(a: &String, b: &String) -> (r: bool)
    ensures
        r == text_less(a@, b@),
{
    let la = abbreviate::char_count(a);
    let lb = abbreviate::char_count(b);
    let mut i: usize = 0;
    assert(a@.skip(0) =~= a@ && b@.skip(0) =~= b@);
    while i < la && i < lb
        invariant
            la == a@.len(),
            lb == b@.len(),
            i <= la,
            i <= lb,
            text_less(a@, b@) == text_less(a@.skip(i as int), b@.skip(i as int)),
        decreases la - i,
    {
        let x = a.as_str().get_char(i);
        let y = b.as_str().get_char(i);
        assert(a@.skip(i as int)[0] == x && b@.skip(i as int)[0] == y);
        if x != y {
            return (x as u32) < (y as u32);
        }
        assert(a@.skip(i as int).drop_first() =~= a@.skip(i + 1));
        assert(b@.skip(i as int).drop_first() =~= b@.skip(i + 1));
        i += 1;
    }
    la < lb
}

/// Whether two paths have the same parts.
fn same_path(a: &Vec<String>, b: &Vec<String>) -> (r: bool)
    ensures
        r == (abbreviate::string_views(a@) == abbreviate::string_views(b@)),
{
    if a.len() != b.len() {
        assert(abbreviate::string_views(a@).len() != abbreviate::string_views(b@).len());
        return false;
    }
    let mut i: usize = 0;
    while i < a.len()
        invariant
            a@.len() == b@.len(),
            i <= a@.len(),
            forall|q: int| 0 <= q < i ==> (#[trigger] a@[q])@ == b@[q]@,
        decreases a@.len() - i,
    {
        if a[i] != b[i] {
            assert(abbreviate::string_views(a@)[i as int] != abbreviate::string_views(b@)[i as int]);
            return false;
        }
        i += 1;
    }
    assert(abbreviate::string_views(a@) =~= abbreviate::string_views(b@));
    true
}

/// Whether path `a` comes strictly before path `b` (see [`path_less`]).
fn path_before(a: &Vec<String>, b: &Vec<String>) -> (r: bool)
    ensures
        r == path_less(abbreviate::string_views(a@), abbreviate::string_views(b@)),
{
    let ghost av = abbreviate::string_views(a@);
    let ghost bv = abbreviate::string_views(b@);
    let mut i: usize = 0;
    assert(av.skip(0) =~= av && bv.skip(0) =~= bv);
    while i < a.len() && i < b.len()
        invariant
            av == abbreviate::string_views(a@),
            bv == abbreviate::string_views(b@),
            i <= a@.len(),
            i <= b@.len(),
            path_less(av, bv) == path_less(av.skip(i as int), bv.skip(i as int)),
        decreases a@.len() - i,
    {
        assert(av.skip(i as int)[0] == a@[i as int]@ && bv.skip(i as int)[0] == b@[i as int]@);
        if a[i] != b[i] {
            return text_before(&a[i], &b[i]);
        }
        assert(av.skip(i as int).drop_first() =~= av.skip(i + 1));
        assert(bv.skip(i as int).drop_first() =~= bv.skip(i + 1));
        i += 1;
    }
    a.len() < b.len()
}

/// `p` is a non-empty prefix of one of the first `m` data paths, or one at most `d` long of
/// the path `m`.
spec fn seen_prefix(data: Seq<Seq<Seq<char>>>, m: int, d: int, p: Seq<Seq<char>>) -> bool {
    p.len() > 0 && ((exists|m2: int|
        0 <= m2 < m && p.len() <= data[m2].len() && #[trigger] data[m2].take(p.len() as int) == p)
        || (p.len() <= d && 0 <= m < data.len() && p.len() <= data[m].len() && data[m].take(
        p.len() as int,
    ) == p))
}

/// Insert `item` at its place in the sorted paths, unless it is there already.
fn insert_path(sorted: &mut Vec<Vec<String>>, item: Vec<String>)
    requires
        sorted_paths(paths_view(old(sorted)@)),
    ensures
        sorted_paths(paths_view(final(sorted)@)),
        forall|p: Seq<Seq<char>>|
            #![trigger paths_view(final(sorted)@).contains(p)]
            paths_view(final(sorted)@).contains(p) <==> (paths_view(old(sorted)@).contains(p) || p
                == abbreviate::string_views(item@)),
{
    let ghost sv = paths_view(sorted@);
    let ghost iv = abbreviate::string_views(item@);
    let mut q: usize = 0;
    while q < sorted.len()
        invariant
            sv == paths_view(sorted@),
            sv == paths_view(old(sorted)@),
            iv == abbreviate::string_views(item@),
            sorted_paths(sv),
            q <= sv.len(),
            forall|a: int| 0 <= a < q ==> path_less(#[trigger] sv[a], iv),
        ensures
            q <= sv.len(),
            forall|a: int| 0 <= a < q ==> path_less(#[trigger] sv[a], iv),
            q < sv.len() ==> path_less(iv, sv[q as int]),
        decreases sv.len() - q,
    {
        assert(sv[q as int] == abbreviate::string_views(sorted@[q as int]@));
        if same_path(&sorted[q], &item) {
            assert(sv.contains(iv));
            return;
        }
        if path_before(&item, &sorted[q]) {
            break;
        }
        proof {
            lemma_path_less_total(sv[q as int], iv);
        }
        q += 1;
    }
    proof {
        assert forall|a: int| q <= a < sv.len() implies path_less(iv, #[trigger] sv[a]) by {
            if a > q {
                lemma_path_less_transitive(iv, sv[q as int], sv[a]);
            }
        }
        assert forall|a: int| 0 <= a < sv.len() implies sv[a] != iv by {
            lemma_path_less_irreflexive(iv);
        }
    }
    sorted.insert(q, item);
    let ghost nv = paths_view(sorted@);
    assert(nv =~= sv.insert(q as int, iv));
    assert forall|a: int, b: int| 0 <= a < b < nv.len() implies path_less(
        #[trigger] nv[a],
        #[trigger] nv[b],
    ) by {
        if b < q {
        } else if a < q && b == q {
        } else if a < q {
            assert(nv[b] == sv[b - 1]);
        } else if a == q {
            assert(nv[b] == sv[b - 1]);
        } else {
            assert(nv[a] == sv[a - 1] && nv[b] == sv[b - 1]);
        }
    }
    assert forall|p: Seq<Seq<char>>|
        #![trigger nv.contains(p)]
        nv.contains(p) <==> (sv.contains(p) || p == iv) by {
        if nv.contains(p) {
            let c = choose|c: int| 0 <= c < nv.len() && nv[c] == p;
            if c < q {
                assert(sv[c] == p);
            } else if c > q {
                assert(sv[c - 1] == p);
            }
        }
        if sv.contains(p) {
            let c = choose|c: int| 0 <= c < sv.len() && sv[c] == p;
            if c < q {
                assert(nv[c] == p);
            } else {
                assert(nv[c + 1] == p);
            }
        }
        if p == iv {
            assert(nv[q as int] == p);
        }
    }
}

/// The rows of a path-chart: every distinct non-empty prefix of the data paths, in
/// lexicographic order.
pub fn path_rows(data: &Vec<Vec<String>>) -> (r: Vec<Vec<String>>)
    ensures
        sorted_paths(paths_view(r@)),
        forall|p: Seq<Seq<char>>|
            #![trigger paths_view(r@).contains(p)]
            paths_view(r@).contains(p) <==> is_prefix_of_data(paths_view(data@), p),
{
    let ghost dv = paths_view(data@);
    let mut sorted: Vec<Vec<String>> = Vec::new();
    let mut m: usize = 0;
    while m < data.len()
        invariant
            dv == paths_view(data@),
            m <= data@.len(),
            sorted_paths(paths_view(sorted@)),
            forall|p: Seq<Seq<char>>|
                #![trigger paths_view(sorted@).contains(p)]
                paths_view(sorted@).contains(p) <==> seen_prefix(dv, m as int, 0, p),
        decreases data@.len() - m,
    {
        let path = &data[m];
        assert(dv[m as int] == abbreviate::string_views(path@));
        let mut current: Vec<String> = Vec::new();
        let mut d: usize = 0;
        while d < path.len()
            invariant
                dv == paths_view(data@),
                m < data@.len(),
                path == data@[m as int],
                dv[m as int] == abbreviate::string_views(path@),
                d <= path@.len(),
                abbreviate::string_views(current@) == dv[m as int].take(d as int),
                sorted_paths(paths_view(sorted@)),
                forall|p: Seq<Seq<char>>|
                    #![trigger paths_view(sorted@).contains(p)]
                    paths_view(sorted@).contains(p) <==> seen_prefix(dv, m as int, d as int, p),
            decreases path@.len() - d,
        {
            let part = path[d].clone();
            assert(part@ == dv[m as int][d as int]);
            let ghost old_current = current@;
            current.push(part);
            assert(abbreviate::string_views(current@) =~= abbreviate::string_views(old_current).push(
                part@,
            ));
            assert(dv[m as int].take(d + 1) =~= dv[m as int].take(d as int).push(dv[m as int][d as int]));
            d += 1;
            let ghost before = paths_view(sorted@);
            insert_path(&mut sorted, current.clone());
            proof {
                let cv = dv[m as int].take(d as int);
                assert forall|p: Seq<Seq<char>>|
                    #![trigger paths_view(sorted@).contains(p)]
                    paths_view(sorted@).contains(p) <==> seen_prefix(dv, m as int, d as int, p) by {
                    assert(before.contains(p) <==> seen_prefix(dv, m as int, d - 1, p));
                    if p == cv {
                        assert(p.len() == d);
                        assert(dv[m as int].take(p.len() as int) == p);
                    }
                    if seen_prefix(dv, m as int, d as int, p) && !seen_prefix(
                        dv,
                        m as int,
                        d - 1,
                        p,
                    ) {
                        assert(p.len() == d);
                        assert(p =~= cv);
                    }
                }
            }
        }
        proof {
            assert forall|p: Seq<Seq<char>>|
                seen_prefix(dv, m as int, d as int, p) <==> seen_prefix(dv, m + 1, 0, p) by {
                if seen_prefix(dv, m as int, d as int, p) && p.len() <= d && p.len()
                    <= dv[m as int].len() && dv[m as int].take(p.len() as int) == p {
                    assert(dv[m as int].take(p.len() as int) == p);
                }
                if seen_prefix(dv, m + 1, 0, p) {
                    let m2 = choose|m2: int|
                        0 <= m2 < m + 1 && p.len() <= dv[m2].len() && #[trigger] dv[m2].take(
                            p.len() as int,
                        ) == p;
                    if m2 < m {
                        assert(dv[m2].take(p.len() as int) == p);
                    }
                }
            }
        }
        m += 1;
    }
    proof {
        assert forall|p: Seq<Seq<char>>|
            seen_prefix(dv, m as int, 0, p) <==> is_prefix_of_data(dv, p) by {
            if is_prefix_of_data(dv, p) {
                let m2 = choose|m2: int|
                    0 <= m2 < dv.len() && p.len() <= dv[m2].len() && #[trigger] dv[m2].take(
                        p.len() as int,
                    ) == p;
                assert(dv[m2].take(p.len() as int) == p);
            }
        }
    }
    sorted
}

/// The header naming the display dimensions: `"/abc /def"` for the first `m`.
pub open spec fn combined_header(headers: Seq<Seq<char>>, m: int) -> Seq<char>
    decreases m,
{
    if m <= 0 {
        seq![]
    } else {
        combined_header(headers, m - 1) + "/"@ + headers[m - 1] + if m < headers.len() {
            " "@
        } else {
            seq![]
        }
    }
}

/// The columns of a path-chart frame: the paths, then the values.
pub open spec fn path_columns(show_aggregate: bool, breakdowns: Option<nat>) -> Seq<Column> {
    seq![frame::text_column(Alignment::Left)] + frame::value_columns(show_aggregate, breakdowns)
}

/// The header row of a path-chart frame.
pub open spec fn path_header(
    headers: Seq<Seq<char>>,
    a: crate::aggregate::Aggregate,
    show_aggregate: bool,
    breakdowns: Option<Seq<Seq<char>>>,
    value_label: Seq<char>,
) -> Seq<Shown> {
    seq![Shown::Text(combined_header(headers, headers.len() as int))] + frame::value_header(
        a,
        show_aggregate,
        breakdowns,
        value_label,
    )
}

/// Two spaces per level below the first.
pub open spec fn indent(depth: nat) -> Seq<char> {
    Seq::new((2 * (depth - 1)) as nat, |_k: int| ' ')
}

/// The row of a path-chart frame for the path `p`: its last part, indented by its depth, and
/// for a path of depth 1 its values; for a deeper path, its aggregate when aggregates are
/// shown.
pub open spec fn path_row(
    p: Seq<Seq<char>>,
    v: Aggregated,
    show_aggregate: bool,
    breakdown: bool,
) -> Seq<Shown> {
    seq![Shown::Text(indent(p.len()) + "/"@ + p.last())] + if p.len() == 1 {
        frame::value_cells(show_aggregate, v.total@, v.values@, breakdown)
    } else if show_aggregate {
        seq![Shown::Text(" "@), Shown::Text("["@), Shown::Text(v.total@), Shown::Text("]"@)]
    } else {
        seq![]
    }
}

/// The header naming the display dimensions (see [`combined_header`]).
fn combined_header_text(headers: &Vec<String>) -> (r: String)
    ensures
        r@ == combined_header(abbreviate::string_views(headers@), headers@.len() as int),
{
    let ghost hv = abbreviate::string_views(headers@);
    let n = headers.len();
    let mut text = String::new();
    let mut j: usize = 0;
    while j < n
        invariant
            n == headers@.len(),
            hv == abbreviate::string_views(headers@),
            j <= n,
            text@ == combined_header(hv, j as int),
        decreases n - j,
    {
        proof {
            reveal_strlit("/");
            reveal_strlit(" ");
        }
        let next = text.concat("/");
        let next = next.concat(headers[j].as_str());
        text = if j + 1 < n {
            next.concat(" ")
        } else {
            next
        };
        j += 1;
        assert(text@ =~= combined_header(hv, j as int));
    }
    text
}

/// The first cell of the row for a path of depth `depth` ending in `part`.
fn indented(depth: usize, part: &String) -> (r: String)
    requires
        depth >= 1,
    ensures
        r@ == indent(depth as nat) + "/"@ + part@,
{
    let mut text = String::new();
    let mut t: usize = 1;
    assert(text@ =~= Seq::new(0nat, |_k: int| ' '));
    while t < depth
        invariant
            1 <= t <= depth,
            text@ == Seq::new((2 * (t - 1)) as nat, |_k: int| ' '),
        decreases depth - t,
    {
        proof {
            reveal_strlit("  ");
        }
        text = text.concat("  ");
        t += 1;
        assert(text@ =~= Seq::new((2 * (t - 1)) as nat, |_k: int| ' '));
    }
    let text = text.concat("/");
    text.concat(part.as_str())
}

/// Lay out the frame of a path-chart: its columns, and its rows (the rows above the header,
/// the header, and one row per path of `paths`, in order; see [`path_rows`]).
///
/// `headers` label the display dimensions (primary dimension first); `aggregates` holds the
/// aggregated values of every row. With a `breakdown_label`, a row of depth 1 shows one value
/// per heading of `breakdowns`.
pub fn path_frame(
    render: &Render<PathChartConfig>,
    headers: &Vec<String>,
    breakdown_label: &Option<String>,
    value_label: &String,
    breakdowns: &Vec<String>,
    paths: &Vec<Vec<String>>,
    aggregates: &Vec<Aggregated>,
) -> (r: (Columns, Vec<Row>))
    requires
        headers@.len() + 6 <= usize::MAX,
        aggregates@.len() == paths@.len(),
        forall|i: int|
            0 <= i < paths@.len() ==> (#[trigger] paths@[i])@.len() > 0 && (paths@[i]@.len() == 1
                && breakdown_label is None ==> aggregates@[i].values@.len() > 0),
    ensures
        ({
            let pre = frame::preheaders(
                headers@.len() as nat,
                render.show_aggregate,
                render.aggregate,
                frame::label_view(*breakdown_label),
                value_label@,
            );
            let breakdown = breakdown_label is Some;
            &&& r.0.types@ == path_columns(
                render.show_aggregate,
                if breakdown {
                    Some(breakdowns@.len())
                } else {
                    None
                },
            )
            &&& r.1@.len() == pre.len() + 1 + paths@.len()
            &&& forall|q: int| 0 <= q < r.1@.len() ==> (#[trigger] r.1@[q]).wf()
            &&& forall|q: int| 0 <= q < pre.len() ==> frame::shown_row(#[trigger] r.1@[q]) == pre[q]
            &&& frame::shown_row(r.1@[pre.len() as int]) == path_header(
                abbreviate::string_views(headers@),
                render.aggregate,
                render.show_aggregate,
                if breakdown {
                    Some(abbreviate::string_views(breakdowns@))
                } else {
                    None
                },
                value_label@,
            )
            &&& forall|i: int|
                0 <= i < paths@.len() ==> frame::shown_row(#[trigger] r.1@[pre.len() + 1 + i])
                    == path_row(
                    abbreviate::string_views(paths@[i]@),
                    aggregates@[i],
                    render.show_aggregate,
                    breakdown,
                )
        }),
{
    let show_aggregate = render.show_aggregate;
    let breakdown = breakdown_label.is_some();
    let mut columns = Columns::default();
    columns.push(Column::string(Alignment::Left));
    frame::push_value_columns(
        &mut columns,
        show_aggregate,
        if breakdown {
            Some(breakdowns.len())
        } else {
            None
        },
    );
    let ghost pre = frame::preheaders(
        headers@.len() as nat,
        show_aggregate,
        render.aggregate,
        frame::label_view(*breakdown_label),
        value_label@,
    );
    let mut rows = frame::preheader_rows(
        headers.len(),
        show_aggregate,
        render.aggregate,
        breakdown_label,
        value_label,
    );
    let mut header = Row::default();
    assert(frame::shown_row(header) =~= Seq::<Shown>::empty());
    frame::push_value(&mut header, Value::String(combined_header_text(headers)));
    frame::push_value_header(
        &mut header,
        render.aggregate,
        show_aggregate,
        if breakdown {
            Some(breakdowns)
        } else {
            None
        },
        value_label,
    );
    rows.push(header);
    let mut i: usize = 0;
    while i < paths.len()
        invariant
            show_aggregate == render.show_aggregate,
            breakdown == (breakdown_label is Some),
            i <= paths@.len(),
            aggregates@.len() == paths@.len(),
            forall|i: int|
                0 <= i < paths@.len() ==> (#[trigger] paths@[i])@.len() > 0 && (paths@[i]@.len()
                    == 1 && breakdown_label is None ==> aggregates@[i].values@.len() > 0),
            rows@.len() == pre.len() + 1 + i,
            forall|q: int| 0 <= q < rows@.len() ==> (#[trigger] rows@[q]).wf(),
            forall|q: int| 0 <= q < pre.len() ==> frame::shown_row(#[trigger] rows@[q]) == pre[q],
            frame::shown_row(rows@[pre.len() as int]) == path_header(
                abbreviate::string_views(headers@),
                render.aggregate,
                render.show_aggregate,
                if breakdown {
                    Some(abbreviate::string_views(breakdowns@))
                } else {
                    None
                },
                value_label@,
            ),
            forall|m: int|
                0 <= m < i ==> frame::shown_row(#[trigger] rows@[pre.len() + 1 + m]) == path_row(
                    abbreviate::string_views(paths@[m]@),
                    aggregates@[m],
                    render.show_aggregate,
                    breakdown,
                ),
        decreases paths@.len() - i,
    {
        let path = &paths[i];
        let a = &aggregates[i];
        let depth = path.len();
        let ghost pv = abbreviate::string_views(path@);
        let mut row = Row::default();
        assert(frame::shown_row(row) =~= Seq::<Shown>::empty());
        frame::push_value(&mut row, Value::String(indented(depth, &path[depth - 1])));
        assert(pv.last() == path@[depth - 1]@);
        if depth == 1 {
            frame::push_value_cells(&mut row, show_aggregate, &a.total, &a.values, breakdown);
        } else if show_aggregate {
            frame::push_text(&mut row, " ");
            frame::push_text(&mut row, "[");
            frame::push_value(&mut row, Value::String(a.total.clone()));
            frame::push_text(&mut row, "]");
        }
        assert(frame::shown_row(row) =~= path_row(pv, *a, show_aggregate, breakdown));
        rows.push(row);
        i += 1;
    }
    (columns, rows)
}

/// A path comes strictly before every path that extends it.
proof fn lemma_prefix_less(p: Seq<Seq<char>>, q: Seq<Seq<char>>)
    requires
        p.len() < q.len(),
        q.take(p.len() as int) == p,
    ensures
        path_less(p, q),
    decreases p.len(),
{
    if p.len() > 0 {
        assert(q[0] == p[0]);
        assert(q.drop_first().take(p.drop_first().len() as int) =~= p.drop_first());
        lemma_prefix_less(p.drop_first(), q.drop_first());
    }
}

/// The rows of a path-chart follow a depth-first walk of the tree of paths: the parent of
/// every row (its path without the last part) is a row too, and comes before it. The rows are
/// the ones [`path_rows`] gives.
pub proof fn law_parent_precedes_child(
    data: Seq<Seq<Seq<char>>>,
    rows: Seq<Seq<Seq<char>>>,
    i: int,
)
    requires
        sorted_paths(rows),
        forall|p: Seq<Seq<char>>|
            #![trigger rows.contains(p)]
            rows.contains(p) <==> is_prefix_of_data(data, p),
        0 <= i < rows.len(),
        rows[i].len() > 1,
    ensures
        exists|j: int| 0 <= j < i && rows[j] == rows[i].drop_last(),
{
    let child = rows[i];
    let parent = child.drop_last();
    assert(rows.contains(child));
    let m = choose|m: int|
        0 <= m < data.len() && child.len() <= data[m].len() && #[trigger] data[m].take(
            child.len() as int,
        ) == child;
    assert(data[m].take(parent.len() as int) =~= parent);
    assert(is_prefix_of_data(data, parent));
    assert(rows.contains(parent));
    let j = choose|j: int| 0 <= j < rows.len() && rows[j] == parent;
    assert(child.take(parent.len() as int) =~= parent);
    lemma_prefix_less(parent, child);
    if j >= i {
        if j == i {
            lemma_path_less_irreflexive(child);
        } else {
            assert(path_less(rows[i], rows[j]));
            lemma_path_less_transitive(parent, child, parent);
            lemma_path_less_irreflexive(parent);
        }
    }
}

/// The rows of a path-chart are distinct. The rows are in the order [`path_rows`] gives.
pub proof fn law_rows_distinct(rows: Seq<Seq<Seq<char>>>, a: int, b: int)
    requires
        sorted_paths(rows),
        0 <= a < rows.len(),
        0 <= b < rows.len(),
        a != b,
    ensures
        rows[a] != rows[b],
{
    if a < b {
        assert(path_less(rows[a], rows[b]));
        lemma_path_less_irreflexive(rows[a]);
    } else {
        assert(path_less(rows[b], rows[a]));
        lemma_path_less_irreflexive(rows[b]);
    }
}

} // verus!

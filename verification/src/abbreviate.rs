//! Abbreviation of sets of textual values, so that they fit a target width
//! while staying distinguishable from one another.
use vstd::prelude::*;

verus! {

/// The marker that stands for the part of a value that was cut off.
pub open spec fn moniker() -> Seq<char> {
    seq!['.', '.']
}

/// How many characters of a value survive when it is abbreviated to `target` characters.
pub open spec fn kept_len(target: nat) -> nat {
    if target >= 2 {
        (target - 2) as nat
    } else {
        0
    }
}

/// The part of `value` kept by a left abbreviation (the value itself when it already fits).
pub open spec fn left_core(value: Seq<char>, target: nat) -> Seq<char> {
    if value.len() <= target {
        value
    } else {
        value.take(kept_len(target) as int)
    }
}

/// The part of `value` kept by a right abbreviation (the value itself when it already fits).
pub open spec fn right_core(value: Seq<char>, target: nat) -> Seq<char> {
    if value.len() <= target {
        value
    } else {
        value.skip(value.len() - kept_len(target))
    }
}

/// The left abbreviation of `value`: its beginning followed by the moniker.
pub open spec fn left_abbreviation(value: Seq<char>, target: nat) -> Seq<char> {
    if value.len() <= target {
        value
    } else {
        left_core(value, target) + moniker()
    }
}

/// The right abbreviation of `value`: the moniker followed by its end.
pub open spec fn right_abbreviation(value: Seq<char>, target: nat) -> Seq<char> {
    if value.len() <= target {
        value
    } else {
        moniker() + right_core(value, target)
    }
}

/// The abbreviation of `value` from the chosen side.
pub open spec fn side_abbreviation(value: Seq<char>, target: nat, from_left: bool) -> Seq<char> {
    if from_left {
        left_abbreviation(value, target)
    } else {
        right_abbreviation(value, target)
    }
}

/// The kept part of `value` from the chosen side.
pub open spec fn side_core(value: Seq<char>, target: nat, from_left: bool) -> Seq<char> {
    if from_left {
        left_core(value, target)
    } else {
        right_core(value, target)
    }
}

/// No two of `values` keep the same part when abbreviated from the chosen side.
pub open spec fn side_distinct(values: Seq<Seq<char>>, target: nat, from_left: bool) -> bool {
    forall|i: int, j: int|
        0 <= i < values.len() && 0 <= j < values.len() && i != j ==> side_core(
            #[trigger] values[i],
            target,
            from_left,
        ) != side_core(#[trigger] values[j], target, from_left)
}

/// No value occurs twice.
pub open spec fn distinct_values(values: Seq<Seq<char>>) -> bool {
    forall|i: int, j: int|
        0 <= i < values.len() && 0 <= j < values.len() && i != j ==> #[trigger] values[i]
            != #[trigger] values[j]
}

/// The character sequences of a list of strings.
pub open spec fn string_views(values: Seq<String>) -> Seq<Seq<char>> {
    values.map_values(|s: String| s@)
}

/// Every value abbreviated from the chosen side.
pub open spec fn side_abbreviations(values: Seq<Seq<char>>, target: nat, from_left: bool) -> Seq<
    Seq<char>,
> {
    values.map_values(|v: Seq<char>| side_abbreviation(v, target, from_left))
}

/// The abbreviations of `values` at `target` characters: left abbreviations when they keep the
/// values apart, otherwise right abbreviations when those do, otherwise none.
pub open spec fn generated(target: nat, values: Seq<Seq<char>>) -> Option<Seq<Seq<char>>> {
    if side_distinct(values, target, true) {
        Some(side_abbreviations(values, target, true))
    } else if side_distinct(values, target, false) {
        Some(side_abbreviations(values, target, false))
    } else {
        None
    }
}

/// `pairs` maps each of `values`, in order, to the corresponding entry of `abbreviations`.
pub open spec fn pairs_match(
    pairs: Seq<(String, String)>,
    values: Seq<Seq<char>>,
    abbreviations: Seq<Seq<char>>,
) -> bool {
    &&& pairs.len() == values.len()
    &&& abbreviations.len() == values.len()
    &&& forall|i: int|
        0 <= i < pairs.len() ==> (#[trigger] pairs[i]).0@ == values[i] && pairs[i].1@
            == abbreviations[i]
}

/// The length of the shortest of `values` (0 for none).
pub open spec fn shortest(values: Seq<Seq<char>>) -> nat
    decreases values.len(),
{
    if values.len() == 0 {
        0
    } else if values.len() == 1 {
        values[0].len()
    } else {
        let rest = shortest(values.drop_last());
        if values.last().len() < rest {
            values.last().len()
        } else {
            rest
        }
    }
}

/// The length of the longest of `values` (0 for none).
pub open spec fn longest(values: Seq<Seq<char>>) -> nat
    decreases values.len(),
{
    if values.len() == 0 {
        0
    } else {
        let rest = longest(values.drop_last());
        if values.last().len() > rest {
            values.last().len()
        } else {
            rest
        }
    }
}

/// The first width tried: the minimum, unless some value already fits it while another does
/// not, in which case a width that leaves room for the moniker beside the shortest value.
pub open spec fn start_width(minimum: nat, values: Seq<Seq<char>>) -> nat {
    if shortest(values) <= minimum && longest(values) > minimum {
        if minimum >= shortest(values) + 2 {
            minimum
        } else {
            shortest(values) + 2
        }
    } else {
        minimum
    }
}

/// The first width in `from..=to` at which abbreviations exist, with those abbreviations.
pub open spec fn first_fit(from: nat, to: nat, values: Seq<Seq<char>>) -> Option<
    (nat, Seq<Seq<char>>),
>
    decreases to + 1 - from,
{
    if from > to {
        None
    } else {
        match generated(from, values) {
            Some(abbreviations) => Some((from, abbreviations)),
            None => first_fit(from + 1, to, values),
        }
    }
}

/// The width and abbreviations chosen for `values` between `minimum` and `maximum`: the first
/// width that works, or else the longest value's length with every value left whole.
pub open spec fn found(minimum: nat, maximum: nat, values: Seq<Seq<char>>) -> (
    nat,
    Seq<Seq<char>>,
) {
    match first_fit(start_width(minimum, values), maximum, values) {
        Some(result) => result,
        None => (longest(values), values),
    }
}

pub(crate) fn char_count(s: &String) -> (n: usize)
    ensures
        n == s@.len(),
{
    s.as_str().unicode_len()
}

fn prefix_of(s: &String, n: usize) -> (r: String)
    requires
        n <= s@.len(),
    ensures
        r@ == s@.take(n as int),
{
    let sub = s.as_str().substring_char(0, n);
    let r = sub.to_string();
    assert(s@.subrange(0, n as int) =~= s@.take(n as int));
    r
}

fn suffix_of(s: &String, n: usize) -> (r: String)
    requires
        n <= s@.len(),
    ensures
        r@ == s@.skip(s@.len() - n),
{
    let len = char_count(s);
    let sub = s.as_str().substring_char(len - n, len);
    let r = sub.to_string();
    assert(s@.subrange(len - n, len as int) =~= s@.skip(s@.len() - n));
    r
}

/// The kept part of `value` and whether it was shortened.
fn core_of(value: &String, target: usize, from_left: bool) -> (r: (String, bool))
    ensures
        r.0@ == side_core(value@, target as nat, from_left),
        r.1 == (value@.len() > target),
{
    let len = char_count(value);
    if len <= target {
        (value.clone(), false)
    } else {
        let kept = target.saturating_sub(2);
        if from_left {
            (prefix_of(value, kept), true)
        } else {
            (suffix_of(value, kept), true)
        }
    }
}

/// Abbreviate every value from one side, or `None` when two values would keep the same part.
fn abbreviate_side(target: usize, values: &Vec<String>, from_left: bool) -> (r: Option<
    Vec<(String, String)>,
>)
    ensures
        r is Some <==> side_distinct(string_views(values@), target as nat, from_left),
        r matches Some(pairs) ==> pairs_match(
            pairs@,
            string_views(values@),
            side_abbreviations(string_views(values@), target as nat, from_left),
        ),
{
    let ghost views = string_views(values@);
    let n = values.len();
    let mut cores: Vec<(String, bool)> = Vec::new();
    let mut i: usize = 0;
    while i < n
        invariant
            n == values.len(),
            views == string_views(values@),
            i <= n,
            cores.len() == i,
            forall|k: int|
                0 <= k < i ==> (#[trigger] cores@[k]).0@ == side_core(
                    views[k],
                    target as nat,
                    from_left,
                ) && cores@[k].1 == (views[k].len() > target),
        decreases n - i,
    {
        cores.push(core_of(&values[i], target, from_left));
        i += 1;
    }
    let mut a: usize = 0;
    while a < n
        invariant
            n == values.len(),
            views == string_views(values@),
            cores.len() == n,
            a <= n,
            forall|k: int|
                0 <= k < n ==> (#[trigger] cores@[k]).0@ == side_core(
                    views[k],
                    target as nat,
                    from_left,
                ) && cores@[k].1 == (views[k].len() > target),
            forall|x: int, y: int|
                0 <= x < a && 0 <= y < n && x != y ==> side_core(
                    #[trigger] views[x],
                    target as nat,
                    from_left,
                ) != side_core(#[trigger] views[y], target as nat, from_left),
        decreases n - a,
    {
        let mut b: usize = 0;
        while b < n
            invariant
                n == values.len(),
                views == string_views(values@),
                cores.len() == n,
                a < n,
                b <= n,
                forall|k: int|
                    0 <= k < n ==> (#[trigger] cores@[k]).0@ == side_core(
                        views[k],
                        target as nat,
                        from_left,
                    ) && cores@[k].1 == (views[k].len() > target),
                forall|x: int, y: int|
                    0 <= x < a && 0 <= y < n && x != y ==> side_core(
                        #[trigger] views[x],
                        target as nat,
                        from_left,
                    ) != side_core(#[trigger] views[y], target as nat, from_left),
                forall|y: int|
                    0 <= y < b && y != a ==> side_core(views[a as int], target as nat, from_left)
                        != side_core(#[trigger] views[y], target as nat, from_left),
            decreases n - b,
        {
            if b != a && cores[a].0 == cores[b].0 {
                assert(!side_distinct(views, target as nat, from_left)) by {
                    assert(side_core(views[a as int], target as nat, from_left) == side_core(
                        views[b as int],
                        target as nat,
                        from_left,
                    ));
                }
                return None;
            }
            b += 1;
        }
        a += 1;
    }
    let mut pairs: Vec<(String, String)> = Vec::new();
    let mut k: usize = 0;
    while k < n
        invariant
            n == values.len(),
            views == string_views(values@),
            cores.len() == n,
            k <= n,
            forall|m: int|
                0 <= m < n ==> (#[trigger] cores@[m]).0@ == side_core(
                    views[m],
                    target as nat,
                    from_left,
                ) && cores@[m].1 == (views[m].len() > target),
            pairs.len() == k,
            forall|m: int|
                0 <= m < k ==> (#[trigger] pairs@[m]).0@ == views[m] && pairs@[m].1@
                    == side_abbreviation(views[m], target as nat, from_left),
        decreases n - k,
    {
        let core = cores[k].0.clone();
        let abbreviation = if cores[k].1 {
            if from_left {
                core.concat("..")
            } else {
                let marker = "..".to_string();
                marker.concat(core.as_str())
            }
        } else {
            core
        };
        proof {
            reveal_strlit("..");
        }
        pairs.push((values[k].clone(), abbreviation));
        k += 1;
    }
    assert(side_distinct(views, target as nat, from_left));
    Some(pairs)
}

/// Abbreviate `values` to at most `target_length` characters (or two, for the moniker alone),
/// from the left when that keeps them apart, otherwise from the right.
/// Returns `None` when neither side keeps the values apart.
pub fn generate_abbreviations(target_length: usize, values: &Vec<String>) -> (r: Option<
    Vec<(String, String)>,
>)
    requires
        distinct_values(string_views(values@)),
    ensures
        r is Some <==> generated(target_length as nat, string_views(values@)) is Some,
        r matches Some(pairs) ==> pairs_match(
            pairs@,
            string_views(values@),
            generated(target_length as nat, string_views(values@))->Some_0,
        ),
{
    if let Some(pairs) = abbreviate_side(target_length, values, true) {
        return Some(pairs);
    }
    if let Some(pairs) = abbreviate_side(target_length, values, false) {
        return Some(pairs);
    }
    None
}

/// The lengths of the shortest and longest of `values`.
fn length_bounds(values: &Vec<String>) -> (r: (usize, usize))
    requires
        values.len() > 0,
    ensures
        r.0 == shortest(string_views(values@)),
        r.1 == longest(string_views(values@)),
{
    let ghost views = string_views(values@);
    let mut low = char_count(&values[0]);
    let mut high = low;
    let mut i: usize = 1;
    assert(views.take(1).drop_last() =~= views.take(0));
    assert(views.take(1)[0] == views[0]);
    assert(longest(views.take(0)) == 0);
    assert(views.take(1).last() == views[0]);
    assert(longest(views.take(1)) == views[0].len());
    while i < values.len()
        invariant
            views == string_views(values@),
            1 <= i <= values.len(),
            low == shortest(views.take(i as int)),
            high == longest(views.take(i as int)),
        decreases values.len() - i,
    {
        let len = char_count(&values[i]);
        assert(views.take(i + 1).drop_last() =~= views.take(i as int));
        if len < low {
            low = len;
        }
        if len > high {
            high = len;
        }
        i += 1;
    }
    assert(views.take(values.len() as int) =~= views);
    (low, high)
}

/// Find the narrowest width between `minimum_length` and `maximum_length` at which `values`
/// can be abbreviated apart, together with the abbreviations.
/// When there is none, every value is kept whole and the width is the longest value's length.
pub fn find_abbreviations(
    minimum_length: usize,
    maximum_length: usize,
    values: &Vec<String>,
) -> (r: (usize, Vec<(String, String)>))
    requires
        minimum_length <= maximum_length,
        values.len() > 0,
        distinct_values(string_views(values@)),
    ensures
        r.0 == found(minimum_length as nat, maximum_length as nat, string_views(values@)).0,
        pairs_match(
            r.1@,
            string_views(values@),
            found(minimum_length as nat, maximum_length as nat, string_views(values@)).1,
        ),
{
    let ghost views = string_views(values@);
    let (shortest_length, longest_length) = length_bounds(values);
    proof {
        lemma_shortest_is_some_length(views);
    }
    // The first width to try; `None` when it lies beyond every `usize`, and so beyond the maximum.
    let mut start: Option<usize> = Some(minimum_length);
    if shortest_length <= minimum_length && longest_length > minimum_length {
        start = if minimum_length - shortest_length >= 2 {
            Some(minimum_length)
        } else if shortest_length <= usize::MAX - 2 {
            Some(shortest_length + 2)
        } else {
            None
        };
    }
    assert(start matches Some(s) ==> s == start_width(minimum_length as nat, views));
    assert(start is None ==> start_width(minimum_length as nat, views) > maximum_length);
    if let Some(start) = start {
        if start <= maximum_length {
            let mut i: usize = start;
            loop
                invariant
                    views == string_views(values@),
                    distinct_values(views),
                    start <= i <= maximum_length,
                    start == start_width(minimum_length as nat, views),
                    first_fit(start as nat, maximum_length as nat, views) == first_fit(
                        i as nat,
                        maximum_length as nat,
                        views,
                    ),
                ensures
                    first_fit(start as nat, maximum_length as nat, views) is None,
                decreases maximum_length - i,
            {
                if let Some(abbreviations) = generate_abbreviations(i, values) {
                    assert(first_fit(i as nat, maximum_length as nat, views) == Some(
                        (i as nat, generated(i as nat, views)->Some_0),
                    ));
                    return (i, abbreviations);
                }
                assert(first_fit(i as nat, maximum_length as nat, views) == first_fit(
                    (i + 1) as nat,
                    maximum_length as nat,
                    views,
                ));
                if i == maximum_length {
                    break;
                }
                i = i + 1;
            }
        }
    }
    let mut pairs: Vec<(String, String)> = Vec::new();
    let mut k: usize = 0;
    while k < values.len()
        invariant
            views == string_views(values@),
            k <= values.len(),
            pairs.len() == k,
            forall|m: int|
                0 <= m < k ==> (#[trigger] pairs@[m]).0@ == views[m] && pairs@[m].1@ == views[m],
        decreases values.len() - k,
    {
        pairs.push((values[k].clone(), values[k].clone()));
        k += 1;
    }
    (longest_length, pairs)
}

/// The shortest length is the length of one of the values, so it does not exceed any of them.
proof fn lemma_shortest_is_some_length(values: Seq<Seq<char>>)
    requires
        values.len() > 0,
    ensures
        exists|i: int| 0 <= i < values.len() && shortest(values) == (#[trigger] values[i]).len(),
        forall|i: int| 0 <= i < values.len() ==> shortest(values) <= (#[trigger] values[i]).len(),
    decreases values.len(),
{
    if values.len() == 1 {
        assert(shortest(values) == values[0].len());
    } else {
        let rest = values.drop_last();
        lemma_shortest_is_some_length(rest);
        let w = choose|i: int| 0 <= i < rest.len() && shortest(rest) == (#[trigger] rest[i]).len();
        assert(rest[w] == values[w]);
        assert forall|i: int| 0 <= i < values.len() implies shortest(values) <= (
        #[trigger] values[i]).len() by {
            if i < values.len() - 1 {
                assert(rest[i] == values[i]);
            }
        }
    }
}

/// No value is longer than the longest one.
proof fn lemma_longest_bound(values: Seq<Seq<char>>)
    ensures
        forall|i: int| 0 <= i < values.len() ==> (#[trigger] values[i]).len() <= longest(values),
    decreases values.len(),
{
    if values.len() > 0 {
        let rest = values.drop_last();
        lemma_longest_bound(rest);
        assert forall|i: int| 0 <= i < values.len() implies (#[trigger] values[i]).len() <= longest(
            values,
        ) by {
            if i < values.len() - 1 {
                assert(rest[i] == values[i]);
            }
        }
    }
}

/// The abbreviations found from some width on are those generated at the width where they
/// were found.
pub(crate) proof fn lemma_first_fit(from: nat, to: nat, values: Seq<Seq<char>>)
    ensures
        first_fit(from, to, values) matches Some(r) ==> from <= r.0 <= to && generated(
            r.0,
            values,
        ) == Some(r.1),
    decreases to + 1 - from,
{
    if from <= to && generated(from, values) is None {
        lemma_first_fit(from + 1, to, values);
    }
}

/// The abbreviation of a value that does not fit the width is exactly as long as the width
/// (or as the moniker, for narrower widths).
proof fn lemma_abbreviation_length(value: Seq<char>, target: nat, from_left: bool)
    ensures
        value.len() <= target ==> side_abbreviation(value, target, from_left) == value,
        value.len() > target ==> side_abbreviation(value, target, from_left).len() == if target
            >= 2 {
            target
        } else {
            2
        },
{
}

/// Every abbreviation found is at most as long as the chosen width (or as the moniker, for
/// narrower widths), there is one per value, and a value that fits the chosen width is kept
/// whole.
pub proof fn law_abbreviations_fit(minimum: nat, maximum: nat, values: Seq<Seq<char>>)
    ensures
        ({
            let (w, a) = found(minimum, maximum, values);
            &&& a.len() == values.len()
            &&& forall|i: int|
                0 <= i < values.len() ==> (#[trigger] a[i]).len() <= (if w >= 2 {
                    w
                } else {
                    2
                }) && (values[i].len() <= w ==> a[i] == values[i])
        }),
{
    let start = start_width(minimum, values);
    lemma_first_fit(start, maximum, values);
    match first_fit(start, maximum, values) {
        Some(r) => {
            let from_left = side_distinct(values, r.0, true);
            assert forall|i: int| 0 <= i < values.len() implies (#[trigger] r.1[i]).len() <= (
            if r.0 >= 2 {
                r.0
            } else {
                2
            }) && (values[i].len() <= r.0 ==> r.1[i] == values[i]) by {
                lemma_abbreviation_length(values[i], r.0, from_left);
            }
        },
        None => {
            lemma_longest_bound(values);
        },
    }
}

/// Distinct values keep distinct abbreviations, provided that no value itself begins or ends
/// with the moniker (such a value could coincide with the abbreviation of another).
pub proof fn law_abbreviations_distinct(minimum: nat, maximum: nat, values: Seq<Seq<char>>)
    requires
        distinct_values(values),
        forall|i: int|
            0 <= i < values.len() && (#[trigger] values[i]).len() >= 2 ==> values[i].take(2)
                != moniker() && values[i].skip(values[i].len() - 2) != moniker(),
    ensures
        distinct_values(found(minimum, maximum, values).1),
{
    let start = start_width(minimum, values);
    lemma_first_fit(start, maximum, values);
    match first_fit(start, maximum, values) {
        Some(r) => {
            let w = r.0;
            let a = r.1;
            let from_left = side_distinct(values, w, true);
            assert(side_distinct(values, w, from_left));
            assert forall|i: int, j: int|
                0 <= i < a.len() && 0 <= j < a.len() && i != j implies #[trigger] a[i]
                != #[trigger] a[j] by {
                let vi = values[i];
                let vj = values[j];
                assert(a[i] == side_abbreviation(vi, w, from_left));
                assert(a[j] == side_abbreviation(vj, w, from_left));
                if vi.len() <= w && vj.len() <= w {
                } else if vi.len() > w && vj.len() > w {
                    let ci = side_core(vi, w, from_left);
                    let cj = side_core(vj, w, from_left);
                    assert(ci != cj);
                    if from_left {
                        if a[i] == a[j] {
                            assert(ci =~= a[i].take(ci.len() as int));
                            assert(cj =~= a[j].take(cj.len() as int));
                        }
                    } else {
                        if a[i] == a[j] {
                            assert(ci =~= a[i].skip(2));
                            assert(cj =~= a[j].skip(2));
                        }
                    }
                } else {
                    let (short, long) = if vi.len() <= w {
                        (vi, vj)
                    } else {
                        (vj, vi)
                    };
                    let abbreviated = side_abbreviation(long, w, from_left);
                    if short == abbreviated {
                        if from_left {
                            assert(short.skip(short.len() - 2) =~= moniker());
                        } else {
                            assert(short.take(2) =~= moniker());
                        }
                        if vi.len() <= w {
                            assert(values[i] == short);
                        } else {
                            assert(values[j] == short);
                        }
                    }
                }
            }
        },
        None => {},
    }
}

/// Widths before the one where abbreviations are first found have none.
proof fn lemma_first_fit_first(from: nat, to: nat, values: Seq<Seq<char>>, v: nat)
    requires
        from <= v,
        first_fit(from, to, values) matches Some(r) && v < r.0,
    ensures
        generated(v, values) is None,
    decreases to + 1 - from,
{
    if from < v {
        lemma_first_fit_first(from + 1, to, values, v);
    }
}

/// The width chosen is the narrowest that works: it is at least the minimum (and at most the
/// maximum), and at no narrower width from where the search starts (the minimum, or just
/// wide enough to shorten a value that does not fit it) can the values be abbreviated apart.
pub proof fn law_narrowest_width(minimum: nat, maximum: nat, values: Seq<Seq<char>>, v: nat)
    requires
        first_fit(start_width(minimum, values), maximum, values) is Some,
        start_width(minimum, values) <= v < found(minimum, maximum, values).0,
    ensures
        minimum <= found(minimum, maximum, values).0 <= maximum,
        generated(v, values) is None,
{
    let start = start_width(minimum, values);
    lemma_first_fit(start, maximum, values);
    lemma_first_fit_first(start, maximum, values, v);
}

} // verus!

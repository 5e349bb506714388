//! The grid of text cells that widgets lay out, and its materialisation as text.
use crate::abbreviate::{self, find_abbreviations};
use crate::aggregate::Aggregate;
use std::ops::Range;
use std::collections::HashMap;
use vstd::prelude::*;

verus! {

/// How a cell's text sits within its column.
#[derive(Debug, Clone, Copy, PartialEq, Eq)]
pub enum Alignment {
    Left,
    Center,
    Right,
}

/// The kind of a column: a textual column (with the width of its widest cell), a column of
/// rendered values, or a column of rendered values under a breakdown heading.
#[derive(Debug, Clone, Copy, PartialEq, Eq)]
pub enum ColumnType {
    String(usize),
    Count,
    Breakdown,
}

/// A column of the grid.
#[derive(Debug, Clone, Copy, PartialEq, Eq)]
pub struct Column {
    pub alignment: Alignment,
    pub column_type: ColumnType,
}

impl Column {
    /// A textual column, initially zero wide.
    pub fn string(alignment: Alignment) -> (r: Self)
        ensures
            r.alignment == alignment,
            r.column_type == ColumnType::String(0),
    {
        Self { alignment, column_type: ColumnType::String(0) }
    }

    /// A column of rendered values.
    pub fn count(alignment: Alignment) -> (r: Self)
        ensures
            r.alignment == alignment,
            r.column_type == ColumnType::Count,
    {
        Self { alignment, column_type: ColumnType::Count }
    }

    /// A column of rendered values under a breakdown heading.
    pub fn breakdown(alignment: Alignment) -> (r: Self)
        ensures
            r.alignment == alignment,
            r.column_type == ColumnType::Breakdown,
    {
        Self { alignment, column_type: ColumnType::Breakdown }
    }
}

/// The columns of a grid, left to right.
#[derive(Debug)]
pub struct Columns {
    pub types: Vec<Column>,
}

impl Default for Columns {
    fn default() -> (r: Self)
        ensures
            r.types@.len() == 0,
    {
        Columns { types: Vec::new() }
    }
}

impl Columns {
    /// Append a column on the right.
    pub fn push(&mut self, column: Column)
        ensures
            final(self).types@ == old(self).types@.push(column),
    {
        self.types.push(column);
    }

    /// The column at `index`.
    pub fn get(&self, index: usize) -> (r: &Column)
        requires
            index < self.types@.len(),
        ensures
            *r == self.types@[index as int],
    {
        &self.types[index]
    }

    /// The column at `index`, to change it, or `None` past the last column.
    pub fn get_mut(&mut self, index: usize) -> (r: Option<&mut Column>)
        ensures
            index < old(self).types@.len() ==> (r matches Some(c) && *c == old(self).types@[index as int]
                && final(self).types@ == old(self).types@.update(index as int, *final(c))),
            index >= old(self).types@.len() ==> r is None && final(self).types@ == old(
                self,
            ).types@,
    {
        if index < self.types.len() {
            Some(&mut self.types[index])
        } else {
            None
        }
    }
}

/// The content of a cell.
///
/// * `Empty`: nothing, but it still takes the column's width.
/// * `String`: text that widens its column to fit.
/// * `Overflow`: text that may spread over the `Skip` cells that follow it.
/// * `Plain`: text written as is, without influencing any width.
/// * `Value`: a value rendered as a bar of markers; it holds the value rounded to the nearest
///   integer (halves away from zero).
/// * `Skip`: a cell covered by a preceding `Overflow`.
#[derive(Debug, PartialEq)]
pub enum Value {
    Empty,
    String(String),
    Overflow(String),
    Plain(String),
    Value(i64),
    Skip,
}

/// A cell of a row, with the index of its column.
#[derive(Debug, PartialEq)]
pub struct Cell {
    pub column: usize,
    pub value: Value,
}

/// The width a cell's text claims, if it claims any.
pub open spec fn render_width(v: Value) -> Option<nat> {
    match v {
        Value::Empty => Some(0),
        Value::String(s) => Some(s@.len()),
        Value::Overflow(s) => Some(s@.len()),
        _ => None,
    }
}

impl Value {
    /// The width this value claims in its column: the number of characters of its text for
    /// `Empty`, `String` and `Overflow`, and none otherwise.
    pub fn render_width(&self) -> (r: Option<usize>)
        ensures
            r matches Some(w) ==> render_width(*self) == Some(w as nat),
            r is None ==> render_width(*self) is None,
    {
        match self {
            Value::Empty => Some(0),
            Value::String(s) => Some(s.as_str().unicode_len()),
            Value::Overflow(s) => Some(s.as_str().unicode_len()),
            _ => None,
        }
    }
}

/// A row under construction: its cells in column order.
#[derive(Debug)]
pub struct Row {
    pub cells: Vec<Cell>,
}

impl Row {
    /// Each cell records the index of its own column.
    pub open spec fn wf(&self) -> bool {
        forall|i: int| 0 <= i < self.cells@.len() ==> (#[trigger] self.cells@[i]).column == i
    }

    /// The values of the row, left to right.
    pub open spec fn values(&self) -> Seq<Value> {
        self.cells@.map_values(|c: Cell| c.value)
    }

    /// Append a cell on the right.
    pub fn push(&mut self, value: Value)
        requires
            old(self).wf(),
        ensures
            final(self).wf(),
            final(self).values() == old(self).values().push(value),
    {
        let column = self.cells.len();
        self.cells.push(Cell { column, value });
        assert(self.values() =~= old(self).values().push(value));
    }
}

impl Default for Row {
    fn default() -> (r: Self)
        ensures
            r.wf(),
            r.values().len() == 0,
    {
        Row { cells: Vec::new() }
    }
}

/// The type of a column after a cell of value `v` has been placed in it: a textual column
/// grows to fit `String` cells.
pub open spec fn widened(t: ColumnType, v: Value) -> ColumnType {
    match t {
        ColumnType::String(w) => match v {
            Value::String(s) => if s@.len() > w {
                ColumnType::String(s@.len() as usize)
            } else {
                t
            },
            _ => t,
        },
        _ => t,
    }
}

/// The last index of the run of `Skip` cells that directly follows index `j`
/// (`j` itself when the next cell is not a `Skip`).
pub open spec fn skip_run_end(row: Seq<Value>, j: int) -> int
    decreases row.len() - j,
{
    if 0 <= j && j + 1 < row.len() && row[j + 1] is Skip {
        skip_run_end(row, j + 1)
    } else {
        j
    }
}

/// The overflows that a row opens from index `j` on: each `Overflow` cell in a textual column,
/// with its width and the columns it spans (itself and the `Skip` cells that follow it).
pub open spec fn row_overflows(types: Seq<Column>, row: Seq<Value>, j: int) -> Seq<
    (nat, Seq<usize>),
>
    decreases row.len() - j,
{
    if j < 0 || j >= row.len() {
        seq![]
    } else if types[j].column_type is String && row[j] is Overflow {
        seq![
            (
                row[j]->Overflow_0@.len(),
                Seq::new((skip_run_end(row, j) - j + 1) as nat, |k: int| (j + k) as usize),
            ),
        ] + row_overflows(types, row, j + 1)
    } else {
        row_overflows(types, row, j + 1)
    }
}

/// The width a breakdown column claims for the cell at `j`, if it is a breakdown column.
pub open spec fn breakdown_width_at(types: Seq<Column>, row: Seq<Value>, j: int) -> Option<nat> {
    if types[j].column_type is Breakdown {
        render_width(row[j])
    } else {
        None
    }
}

/// The breakdown headings a row contributes among its first `n` cells.
pub open spec fn row_breakdown_values(types: Seq<Column>, row: Seq<Value>, n: int) -> Set<
    Seq<char>,
> {
    Set::new(
        |x: Seq<char>|
            exists|k: int|
                0 <= k < n && types[k].column_type is Breakdown && row[k] is String && (
                #[trigger] row[k])->String_0@ == x,
    )
}

/// An overflow: the width of its text and the columns it spans.
#[derive(Debug, PartialEq)]
pub struct Overflow {
    pub width: usize,
    pub columns: Vec<usize>,
}

/// The width and spanned columns of an overflow.
pub open spec fn overflow_view(o: Overflow) -> (nat, Seq<usize>) {
    (o.width as nat, o.columns@)
}

/// The widths and spanned columns of a list of overflows.
pub open spec fn overflows_view(s: Seq<Overflow>) -> Seq<(nat, Seq<usize>)> {
    s.map_values(|o: Overflow| overflow_view(o))
}

/// The columns that an overflow spans are consecutive, start somewhere and lie in the grid.
pub open spec fn overflow_wf(o: (nat, Seq<usize>), n_columns: nat) -> bool {
    &&& o.1.len() > 0
    &&& forall|k: int| 0 <= k < o.1.len() ==> (#[trigger] o.1[k]) == o.1[0] + k
    &&& o.1[0] + o.1.len() <= n_columns
}

/// The grid of cells that a widget lays out.
#[derive(Debug)]
pub struct Grid {
    pub columns: Columns,
    pub rows: Vec<Vec<Cell>>,
    pub overflows: Vec<Overflow>,
    /// The distinct headings seen in breakdown columns.
    pub breakdown_values: Vec<String>,
    /// The narrowest width claimed in a breakdown column (before abbreviation).
    pub minimum_breakdown_width: usize,
    /// The widest width claimed in a breakdown column (before abbreviation).
    pub maximum_breakdown_width: usize,
}

impl Grid {
    /// Rows are non-empty and fit the columns, overflows span existing columns, and breakdown
    /// headings occur once each.
    pub open spec fn wf(&self) -> bool {
        &&& forall|r: int|
            0 <= r < self.rows@.len() ==> {
                let cells = #[trigger] self.rows@[r];
                &&& 0 < cells@.len() <= self.columns.types@.len()
                &&& forall|i: int| 0 <= i < cells@.len() ==> (#[trigger] cells@[i]).column == i
            }
        &&& forall|o: int|
            0 <= o < self.overflows@.len() ==> overflow_wf(
                overflow_view(#[trigger] self.overflows@[o]),
                self.columns.types@.len(),
            )
        &&& abbreviate::distinct_values(abbreviate::string_views(self.breakdown_values@))
        &&& forall|i: int|
            0 <= i < self.breakdown_values@.len() ==> self.minimum_breakdown_width <= (
            #[trigger] self.breakdown_values@[i])@.len() <= self.maximum_breakdown_width
    }

    /// An empty grid over the given columns.
    pub fn new(columns: Columns) -> (r: Self)
        ensures
            r.wf(),
            r.columns == columns,
            r.rows@.len() == 0,
            r.overflows@.len() == 0,
            r.breakdown_values@.len() == 0,
            r.minimum_breakdown_width == usize::MAX,
            r.maximum_breakdown_width == 0,
    {
        Self {
            columns,
            rows: Vec::new(),
            overflows: Vec::new(),
            breakdown_values: Vec::new(),
            minimum_breakdown_width: usize::MAX,
            maximum_breakdown_width: 0,
        }
    }

    /// Add a row: textual columns widen to fit its `String` cells, its `Overflow` cells in
    /// textual columns are recorded with the columns they span, and its breakdown cells
    /// contribute their headings and widths.
    pub fn add(&mut self, row: Row)
        requires
            old(self).wf(),
            row.wf(),
            0 < row.cells@.len() <= old(self).columns.types@.len(),
        ensures
            final(self).wf(),
            final(self).columns.types@.len() == old(self).columns.types@.len(),
            forall|j: int|
                0 <= j < old(self).columns.types@.len() ==> final(self).columns.types@[j].alignment
                    == (#[trigger] old(self).columns.types@[j]).alignment
                    && final(self).columns.types@[j].column_type == if j < row.cells@.len() {
                    widened(old(self).columns.types@[j].column_type, row.values()[j])
                } else {
                    old(self).columns.types@[j].column_type
                },
            final(self).rows@ == old(self).rows@.push(row.cells),
            overflows_view(final(self).overflows@) == overflows_view(old(self).overflows@)
                + row_overflows(old(self).columns.types@, row.values(), 0),
            abbreviate::string_views(final(self).breakdown_values@).to_set() == abbreviate::string_views(
                old(self).breakdown_values@,
            ).to_set() + row_breakdown_values(
                old(self).columns.types@,
                row.values(),
                row.cells@.len() as int,
            ),
            final(self).minimum_breakdown_width <= old(self).minimum_breakdown_width,
            final(self).maximum_breakdown_width >= old(self).maximum_breakdown_width,
            forall|j: int|
                0 <= j < row.cells@.len() && #[trigger] breakdown_width_at(
                    old(self).columns.types@,
                    row.values(),
                    j,
                ) is Some ==> final(self).minimum_breakdown_width <= breakdown_width_at(
                    old(self).columns.types@,
                    row.values(),
                    j,
                )->Some_0 <= final(self).maximum_breakdown_width,
            final(self).minimum_breakdown_width == old(self).minimum_breakdown_width || exists|
                j: int,
            |
                0 <= j < row.cells@.len() && #[trigger] breakdown_width_at(
                    old(self).columns.types@,
                    row.values(),
                    j,
                ) == Some(final(self).minimum_breakdown_width as nat),
            final(self).maximum_breakdown_width == old(self).maximum_breakdown_width || exists|
                j: int,
            |
                0 <= j < row.cells@.len() && #[trigger] breakdown_width_at(
                    old(self).columns.types@,
                    row.values(),
                    j,
                ) == Some(final(self).maximum_breakdown_width as nat),
    {
        let ghost types0 = self.columns.types@;
        let ghost values = row.values();
        let ghost overflows0 = overflows_view(self.overflows@);
        let ghost set0 = abbreviate::string_views(self.breakdown_values@).to_set();
        let ghost min0 = self.minimum_breakdown_width;
        let ghost max0 = self.maximum_breakdown_width;
        let n = row.cells.len();
        let mut j: usize = 0;
        while j < n
            invariant
                n == row.cells@.len(),
                values == row.values(),
                row.wf(),
                n <= types0.len(),
                self.wf(),
                j <= n,
                self.rows == old(self).rows,
                self.columns.types@.len() == types0.len(),
                forall|k: int|
                    0 <= k < types0.len() ==> (#[trigger] self.columns.types@[k]).alignment
                        == types0[k].alignment && self.columns.types@[k].column_type == if k < j {
                        widened(types0[k].column_type, values[k])
                    } else {
                        types0[k].column_type
                    },
                overflows_view(self.overflows@) + row_overflows(types0, values, j as int)
                    == overflows0 + row_overflows(types0, values, 0),
                abbreviate::string_views(self.breakdown_values@).to_set() == set0 + row_breakdown_values(
                    types0,
                    values,
                    j as int,
                ),
                self.minimum_breakdown_width <= min0,
                self.maximum_breakdown_width >= max0,
                forall|k: int|
                    0 <= k < j && #[trigger] breakdown_width_at(types0, values, k) is Some
                        ==> self.minimum_breakdown_width <= breakdown_width_at(
                        types0,
                        values,
                        k,
                    )->Some_0 <= self.maximum_breakdown_width,
                self.minimum_breakdown_width == min0 || exists|k: int|
                    0 <= k < j && #[trigger] breakdown_width_at(types0, values, k) == Some(
                        self.minimum_breakdown_width as nat,
                    ),
                self.maximum_breakdown_width == max0 || exists|k: int|
                    0 <= k < j && #[trigger] breakdown_width_at(types0, values, k) == Some(
                        self.maximum_breakdown_width as nat,
                    ),
            decreases n - j,
        {
            let column = self.columns.types[j];
            assert(values[j as int] == row.cells@[j as int].value);
            match column.column_type {
                ColumnType::String(width) => {
                    match &row.cells[j].value {
                        Value::Overflow(text) => {
                            let w = text.as_str().unicode_len();
                            let mut end = j;
                            while end + 1 < n && matches!(row.cells[end + 1].value, Value::Skip)
                                invariant
                                    n == row.cells@.len(),
                                    values == row.values(),
                                    j <= end < n,
                                    skip_run_end(values, j as int) == skip_run_end(
                                        values,
                                        end as int,
                                    ),
                                decreases n - end,
                            {
                                assert(values[end + 1] == row.cells@[end + 1].value);
                                end += 1;
                            }
                            assert(end + 1 < n ==> values[end + 1] == row.cells@[end
                                + 1].value);
                            let mut spanned: Vec<usize> = Vec::new();
                            let mut k = j;
                            while k <= end
                                invariant
                                    j <= k <= end + 1,
                                    end < n,
                                    spanned@.len() == k - j,
                                    forall|m: int|
                                        0 <= m < spanned@.len() ==> #[trigger] spanned@[m] == j
                                            + m,
                                decreases end + 1 - k,
                            {
                                spanned.push(k);
                                k += 1;
                            }
                            let ghost item = (w as nat, spanned@);
                            assert(spanned@ =~= Seq::new(
                                (skip_run_end(values, j as int) - j + 1) as nat,
                                |k: int| (j + k) as usize,
                            ));
                            assert(row_overflows(types0, values, j as int) == seq![item]
                                + row_overflows(types0, values, j + 1));
                            let ghost before = self.overflows@;
                            assert(overflow_wf(item, types0.len()));
                            self.overflows.push(Overflow { width: w, columns: spanned });
                            assert(overflows_view(self.overflows@) =~= overflows_view(before).push(
                                item,
                            ));
                            assert(self.overflows@[self.overflows@.len() - 1] == Overflow {
                                width: w,
                                columns: spanned,
                            });
                        },
                        Value::String(text) => {
                            let w = text.as_str().unicode_len();
                            if w > width {
                                self.columns.types.set(
                                    j,
                                    Column {
                                        alignment: column.alignment,
                                        column_type: ColumnType::String(w),
                                    },
                                );
                            }
                        },
                        _ => {},
                    }
                },
                ColumnType::Breakdown => {
                    if let Value::String(text) = &row.cells[j].value {
                        if !contains_string(&self.breakdown_values, text) {
                            let ghost before = abbreviate::string_views(self.breakdown_values@);
                            self.breakdown_values.push(text.clone());
                            assert(abbreviate::string_views(self.breakdown_values@) =~= before.push(text@));
                            proof {
                                before.lemma_push_to_set_commute(text@);
                            }
                        } else {
                            assert(abbreviate::string_views(self.breakdown_values@).to_set().contains(
                                text@,
                            ));
                        }
                    }
                    if let Some(w) = row.cells[j].value.render_width() {
                        assert(breakdown_width_at(types0, values, j as int) == Some(w as nat));
                        if w < self.minimum_breakdown_width {
                            self.minimum_breakdown_width = w;
                        }
                        if w > self.maximum_breakdown_width {
                            self.maximum_breakdown_width = w;
                        }
                    }
                },
                ColumnType::Count => {},
            }
            proof {
                if types0[j as int].column_type is Breakdown && values[j as int] is String {
                    assert(row_breakdown_values(types0, values, j + 1) =~= row_breakdown_values(
                        types0,
                        values,
                        j as int,
                    ).insert(values[j as int]->String_0@));
                } else {
                    assert(row_breakdown_values(types0, values, j + 1) =~= row_breakdown_values(
                        types0,
                        values,
                        j as int,
                    ));
                }
            }
            j += 1;
        }
        self.rows.push(row.cells);
    }
}

/// Whether `values` holds a string equal to `s`.
fn contains_string(values: &Vec<String>, s: &String) -> (r: bool)
    ensures
        r == abbreviate::string_views(values@).contains(s@),
{
    let mut i: usize = 0;
    while i < values.len()
        invariant
            i <= values.len(),
            forall|k: int| 0 <= k < i ==> (#[trigger] values@[k])@ != s@,
        decreases values.len() - i,
    {
        if values[i] == *s {
            assert(abbreviate::string_views(values@)[i as int] == s@);
            return true;
        }
        i += 1;
    }
    assert(!abbreviate::string_views(values@).contains(s@)) by {
        if abbreviate::string_views(values@).contains(s@) {
            let k = choose|k: int| 0 <= k < values@.len() && abbreviate::string_views(values@)[k] == s@;
            assert(values@[k]@ == s@);
        }
    }
    false
}

/// The width of a column if it is textual, and nothing otherwise.
pub open spec fn text_width(c: Column) -> nat {
    match c.column_type {
        ColumnType::String(w) => w as nat,
        _ => 0,
    }
}

/// The total width of the textual columns with index in `from..to`.
pub open spec fn spanned_width(types: Seq<Column>, from: int, to: int) -> nat
    decreases to - from,
{
    if to <= from {
        0
    } else {
        spanned_width(types, from, to - 1) + text_width(types[to - 1])
    }
}

/// The total width of the overflows in `ovs`.
pub open spec fn overflow_total(ovs: Seq<(nat, Seq<usize>)>) -> nat
    decreases ovs.len(),
{
    if ovs.len() == 0 {
        0
    } else {
        overflow_total(ovs.drop_first()) + ovs[0].0
    }
}

/// Reconcile one overflow with the columns it spans.
/// When its text is wider than those columns together, the last of them widens by the
/// difference; when it is narrower, it gets an override: the columns' total width, kept for
/// its first column.
pub open spec fn settle(types: Seq<Column>, o: (nat, Seq<usize>)) -> (Seq<Column>, Option<
    (usize, usize),
>) {
    let first = o.1[0] as int;
    let total = spanned_width(types, first, first + o.1.len());
    if o.0 > total {
        let last = o.1.last() as int;
        match types[last].column_type {
            ColumnType::String(w) => (
                types.update(
                    last,
                    Column {
                        alignment: types[last].alignment,
                        column_type: ColumnType::String((w + o.0 - total) as usize),
                    },
                ),
                None,
            ),
            _ => (types, None),
        }
    } else if total > o.0 {
        (types, Some((first as usize, total as usize)))
    } else {
        (types, None)
    }
}

/// Reconcile the overflows in order, each against the columns as the previous ones left them,
/// collecting the overrides (a later override for a column replaces an earlier one).
pub open spec fn settle_all(
    types: Seq<Column>,
    ovs: Seq<(nat, Seq<usize>)>,
    overrides: Map<usize, usize>,
) -> (Seq<Column>, Map<usize, usize>)
    decreases ovs.len(),
{
    if ovs.len() == 0 {
        (types, overrides)
    } else {
        let (next, entry) = settle(types, ovs[0]);
        let merged = match entry {
            Some((c, w)) => overrides.insert(c, w),
            None => overrides,
        };
        settle_all(next, ovs.drop_first(), merged)
    }
}

/// All textual column widths and overflow widths of the grid together.
pub open spec fn width_budget(g: &Grid) -> nat {
    spanned_width(g.columns.types@, 0, g.columns.types@.len() as int) + overflow_total(
        overflows_view(g.overflows@),
    )
}

proof fn lemma_spanned_split(types: Seq<Column>, a: int, b: int, c: int)
    requires
        a <= b <= c,
    ensures
        spanned_width(types, a, c) == spanned_width(types, a, b) + spanned_width(types, b, c),
    decreases c - b,
{
    if c > b {
        lemma_spanned_split(types, a, b, c - 1);
    }
}

proof fn lemma_spanned_update(types: Seq<Column>, from: int, to: int, i: int, col: Column)
    requires
        0 <= from <= i < to <= types.len(),
    ensures
        spanned_width(types.update(i, col), from, to) + text_width(types[i]) == spanned_width(
            types,
            from,
            to,
        ) + text_width(col),
    decreases to - from,
{
    if to - 1 > i {
        lemma_spanned_update(types, from, to - 1, i, col);
    } else {
        lemma_spanned_same(types, types.update(i, col), from, i);
    }
}

proof fn lemma_spanned_same(t1: Seq<Column>, t2: Seq<Column>, from: int, to: int)
    requires
        0 <= from,
        to <= t1.len(),
        to <= t2.len(),
        forall|k: int| from <= k < to ==> t1[k] == t2[k],
    ensures
        spanned_width(t1, from, to) == spanned_width(t2, from, to),
    decreases to - from,
{
    if to > from {
        lemma_spanned_same(t1, t2, from, to - 1);
    }
}

proof fn lemma_overflow_total_skip(ovs: Seq<(nat, Seq<usize>)>, i: int, j: int)
    requires
        0 <= i <= j <= ovs.len(),
    ensures
        overflow_total(ovs.skip(i)) >= overflow_total(ovs.skip(j)),
    decreases j - i,
{
    if i < j {
        assert(ovs.skip(i).drop_first() =~= ovs.skip(i + 1));
        lemma_overflow_total_skip(ovs, i + 1, j);
    }
}

proof fn lemma_spanned_within(types: Seq<Column>, from: int, to: int)
    requires
        0 <= from <= to <= types.len(),
    ensures
        spanned_width(types, from, to) <= spanned_width(types, 0, types.len() as int),
{
    lemma_spanned_split(types, 0, from, types.len() as int);
    lemma_spanned_split(types, from, to, types.len() as int);
}

/// Settling one overflow keeps the columns and their kinds, widens no range by more than the
/// overflow's text and narrows none, and leaves the overflow's own columns at least as wide
/// as its text.
proof fn lemma_settle_widens(types: Seq<Column>, o: (nat, Seq<usize>), from: int, to: int)
    requires
        overflow_wf(o, types.len()),
        types[o.1.last() as int].column_type is String,
        spanned_width(types, 0, types.len() as int) + o.0 <= usize::MAX,
        0 <= from <= to <= types.len(),
    ensures
        settle(types, o).0.len() == types.len(),
        forall|c: int|
            0 <= c < types.len() ==> ((#[trigger] settle(types, o).0[c]).column_type is String
                <==> types[c].column_type is String),
        spanned_width(settle(types, o).0, from, to) >= spanned_width(types, from, to),
        spanned_width(settle(types, o).0, 0, types.len() as int) <= spanned_width(
            types,
            0,
            types.len() as int,
        ) + o.0,
        spanned_width(settle(types, o).0, o.1[0] as int, o.1[0] + o.1.len()) >= o.0,
{
    let first = o.1[0] as int;
    let end = first + o.1.len();
    let total = spanned_width(types, first, end);
    let last = o.1.last() as int;
    assert(last == first + o.1.len() - 1);
    if o.0 > total {
        let w = types[last].column_type->String_0;
        lemma_spanned_within(types, last, last + 1);
        assert(spanned_width(types, last, last + 1) == w) by {
            assert(spanned_width(types, last, last) == 0);
        }
        let col = Column {
            alignment: types[last].alignment,
            column_type: ColumnType::String((w + o.0 - total) as usize),
        };
        let next = types.update(last, col);
        assert(settle(types, o).0 == next);
        assert(text_width(col) == w + o.0 - total);
        if from <= last < to {
            lemma_spanned_update(types, from, to, last, col);
        } else {
            lemma_spanned_same(types, next, from, to);
        }
        lemma_spanned_update(types, 0, types.len() as int, last, col);
        lemma_spanned_update(types, first, end, last, col);
    }
}

/// Settling overflows in turn keeps the columns and narrows no range of them.
proof fn lemma_settle_all_widens(
    types: Seq<Column>,
    ovs: Seq<(nat, Seq<usize>)>,
    overrides: Map<usize, usize>,
    from: int,
    to: int,
)
    requires
        forall|k: int|
            0 <= k < ovs.len() ==> overflow_wf(#[trigger] ovs[k], types.len()) && types[ovs[k].1.last() as int].column_type is String,
        spanned_width(types, 0, types.len() as int) + overflow_total(ovs) <= usize::MAX,
        0 <= from <= to <= types.len(),
    ensures
        settle_all(types, ovs, overrides).0.len() == types.len(),
        spanned_width(settle_all(types, ovs, overrides).0, from, to) >= spanned_width(
            types,
            from,
            to,
        ),
    decreases ovs.len(),
{
    if ovs.len() > 0 {
        let o = ovs[0];
        let next = settle(types, o).0;
        let merged = match settle(types, o).1 {
            Some((c, w)) => overrides.insert(c, w),
            None => overrides,
        };
        let rest = ovs.drop_first();
        lemma_settle_widens(types, o, from, to);
        lemma_settle_widens(types, o, 0, types.len() as int);
        assert forall|k: int| 0 <= k < rest.len() implies overflow_wf(
            #[trigger] rest[k],
            next.len(),
        ) && next[rest[k].1.last() as int].column_type is String by {
            assert(rest[k] == ovs[k + 1]);
            assert(overflow_wf(ovs[k + 1], types.len()));
            let l = rest[k].1.last() as int;
            assert(0 <= l < types.len());
            assert(next[l].column_type is String <==> types[l].column_type is String);
        }
        lemma_settle_all_widens(next, rest, merged, from, to);
    }
}

/// After the overflows are settled, the columns that each overflow spans are together at
/// least as wide as its text: the text always fits. This holds when each overflow ends in a
/// textual column (which can widen) and the widths add up within `usize`.
pub proof fn law_overflows_fit(
    types: Seq<Column>,
    ovs: Seq<(nat, Seq<usize>)>,
    overrides: Map<usize, usize>,
    k: int,
)
    requires
        forall|q: int|
            0 <= q < ovs.len() ==> overflow_wf(#[trigger] ovs[q], types.len()) && types[ovs[q].1.last() as int].column_type is String,
        spanned_width(types, 0, types.len() as int) + overflow_total(ovs) <= usize::MAX,
        0 <= k < ovs.len(),
    ensures
        spanned_width(
            settle_all(types, ovs, overrides).0,
            ovs[k].1[0] as int,
            ovs[k].1[0] + ovs[k].1.len(),
        ) >= ovs[k].0,
    decreases k,
{
    let o = ovs[0];
    let next = settle(types, o).0;
    let merged = match settle(types, o).1 {
        Some((c, w)) => overrides.insert(c, w),
        None => overrides,
    };
    let rest = ovs.drop_first();
    lemma_settle_widens(types, o, 0, types.len() as int);
    assert forall|q: int| 0 <= q < rest.len() implies overflow_wf(
        #[trigger] rest[q],
        next.len(),
    ) && next[rest[q].1.last() as int].column_type is String by {
        assert(rest[q] == ovs[q + 1]);
        assert(overflow_wf(ovs[q + 1], types.len()));
        let l = rest[q].1.last() as int;
        assert(next[l].column_type is String <==> types[l].column_type is String);
    }
    if k == 0 {
        let first = o.1[0] as int;
        lemma_settle_widens(types, o, first, first + o.1.len());
        lemma_settle_all_widens(next, rest, merged, first, first + o.1.len());
    } else {
        assert(rest[k - 1] == ovs[k]);
        law_overflows_fit(next, rest, merged, k - 1);
    }
}

impl Grid {
    /// Whether the widths of the textual columns and of the overflows add up within `usize`,
    /// as [`Flat::new`] needs.
    pub fn fits(&self) -> (r: bool)
        ensures
            r == (width_budget(self) <= usize::MAX),
    {
        let types = &self.columns.types;
        let ghost ts = types@;
        let mut total: usize = 0;
        let mut i: usize = 0;
        while i < types.len()
            invariant
                ts == types@,
                ts == self.columns.types@,
                i <= ts.len(),
                total == spanned_width(ts, 0, i as int),
            decreases ts.len() - i,
        {
            let w: usize = match types[i].column_type {
                ColumnType::String(w) => w,
                _ => 0,
            };
            assert(spanned_width(ts, 0, i + 1) == total + w);
            if total > usize::MAX - w {
                proof {
                    lemma_spanned_split(ts, 0, i + 1, ts.len() as int);
                    assert(spanned_width(ts, 0, ts.len() as int) > usize::MAX);
                    assert(width_budget(self) >= spanned_width(ts, 0, ts.len() as int));
                }
                return false;
            }
            total = total + w;
            i += 1;
        }
        let ghost ovs = overflows_view(self.overflows@);
        let mut k: usize = self.overflows.len();
        assert(ovs.skip(ovs.len() as int) =~= Seq::<(nat, Seq<usize>)>::empty());
        while k > 0
            invariant
                ovs == overflows_view(self.overflows@),
                ts == self.columns.types@,
                k <= ovs.len(),
                total == spanned_width(ts, 0, ts.len() as int) + overflow_total(ovs.skip(k as int)),
            decreases k,
        {
            let w = self.overflows[k - 1].width;
            assert(ovs.skip(k - 1).drop_first() =~= ovs.skip(k as int));
            assert(ovs[k - 1].0 == w);
            assert(overflow_total(ovs.skip(k - 1)) == overflow_total(ovs.skip(k as int)) + w);
            if total > usize::MAX - w {
                proof {
                    lemma_overflow_total_skip(ovs, 0, k - 1);
                    assert(ovs.skip(0) =~= ovs);
                    assert(width_budget(self) == spanned_width(ts, 0, ts.len() as int)
                        + overflow_total(ovs));
                }
                return false;
            }
            total = total + w;
            k -= 1;
        }
        assert(ovs.skip(0) =~= ovs);
        true
    }
}

impl Grid {
    /// Reconcile every overflow with the columns it spans (see [`settle_all`]), widening
    /// columns where an overflow does not fit, and return the overrides: for the first column
    /// of an overflow that is narrower than its columns, the width to write it with.
    pub fn build_overflow_overrides(&mut self) -> (r: HashMap<usize, usize>)
        requires
            old(self).wf(),
            width_budget(old(self)) <= usize::MAX,
        ensures
            final(self).wf(),
            final(self).rows == old(self).rows,
            final(self).overflows == old(self).overflows,
            final(self).breakdown_values == old(self).breakdown_values,
            final(self).minimum_breakdown_width == old(self).minimum_breakdown_width,
            final(self).maximum_breakdown_width == old(self).maximum_breakdown_width,
            spanned_width(final(self).columns.types@, 0, final(self).columns.types@.len() as int)
                <= usize::MAX,
            (final(self).columns.types@, r@) == settle_all(
                old(self).columns.types@,
                overflows_view(old(self).overflows@),
                Map::empty(),
            ),
    {
        let ghost all = overflows_view(self.overflows@);
        let ghost goal = settle_all(self.columns.types@, all, Map::empty());
        let mut overrides: HashMap<usize, usize> = HashMap::new();
        let n_columns = self.columns.types.len();
        assert(all.skip(0) =~= all);
        let mut i: usize = 0;
        while i < self.overflows.len()
            invariant
                self.wf(),
                self.rows == old(self).rows,
                self.overflows == old(self).overflows,
                self.breakdown_values == old(self).breakdown_values,
                self.minimum_breakdown_width == old(self).minimum_breakdown_width,
                self.maximum_breakdown_width == old(self).maximum_breakdown_width,
                all == overflows_view(self.overflows@),
                n_columns == self.columns.types@.len(),
                i <= all.len(),
                settle_all(self.columns.types@, all.skip(i as int), overrides@) == goal,
                spanned_width(self.columns.types@, 0, n_columns as int) + overflow_total(
                    all.skip(i as int),
                ) <= usize::MAX,
            decreases all.len() - i,
        {
            let ghost types = self.columns.types@;
            let ghost o = all[i as int];
            assert(o == overflow_view(self.overflows@[i as int]));
            assert(overflow_wf(o, n_columns as nat));
            let ov = &self.overflows[i];
            let width = ov.width;
            let first = ov.columns[0];
            let count = ov.columns.len();
            proof {
                lemma_spanned_split(types, 0, first as int, n_columns as int);
                lemma_spanned_split(types, first as int, first + count, n_columns as int);
                assert(all.skip(i as int).drop_first() =~= all.skip(i + 1));
                assert(all.skip(i as int)[0] == o);
            }
            assert(*ov == self.overflows@[i as int]);
            assert(first == o.1[0]);
            assert(first + count <= n_columns);
            assert(spanned_width(types, first as int, first + count) <= usize::MAX);
            let mut remainder = width;
            let mut excess: usize = 0;
            let mut k: usize = 0;
            while k < count
                invariant
                    self.columns.types@ == types,
                    count == o.1.len(),
                    first == o.1[0],
                    o == overflow_view(*ov),
                    overflow_wf(o, n_columns as nat),
                    n_columns == types.len(),
                    width == o.0,
                    k <= count,
                    spanned_width(types, first as int, first + count) <= usize::MAX,
                    remainder == if width >= spanned_width(types, first as int, first + k) {
                        width - spanned_width(types, first as int, first + k)
                    } else {
                        0
                    },
                    excess == if spanned_width(types, first as int, first + k) > width {
                        spanned_width(types, first as int, first + k) - width
                    } else {
                        0
                    },
                decreases count - k,
            {
                let c = ov.columns[k];
                assert(c == first + k);
                proof {
                    lemma_spanned_split(types, first as int, first + k + 1, first + count);
                }
                if let ColumnType::String(w) = self.columns.types[c].column_type {
                    if remainder >= w {
                        remainder -= w;
                    } else if remainder == 0 {
                        excess += w;
                    } else {
                        excess += w - remainder;
                        remainder = 0;
                    }
                }
                k += 1;
            }
            if remainder > 0 {
                let last = ov.columns[count - 1];
                assert(last == o.1.last());
                let column = self.columns.types[last];
                if let ColumnType::String(w) = column.column_type {
                    let widened = Column {
                        alignment: column.alignment,
                        column_type: ColumnType::String(w + remainder),
                    };
                    proof {
                        lemma_spanned_split(types, first as int, last as int, first + count);
                        lemma_spanned_update(types, 0, n_columns as int, last as int, widened);
                    }
                    self.columns.types.set(last, widened);
                }
            } else if excess > 0 {
                overrides.insert(first, width + excess);
            }
            i += 1;
        }
        assert(all.skip(all.len() as int) =~= Seq::<(nat, Seq<usize>)>::empty());
        overrides
    }
}

/// The general configuration for rendering a widget.
#[derive(Debug)]
pub struct Render<C> {
    /// The function to apply when aggregating values in the widget.
    ///
    /// Default: `Aggregate::Sum`.
    pub aggregate: Aggregate,
    /// The hint to use to determine the width of the rendering.
    /// The rendering tries to be at most `width_hint` wide, but it is never narrower than it
    /// needs to be readable, and it does not stretch values to fill the hint.
    ///
    /// Default: `160`.
    pub width_hint: usize,
    /// Whether to show the aggregated result for the *primary* dimension of the dataset.
    ///
    /// Default: `false`.
    pub show_aggregate: bool,
    /// Whether to abbreviate the column headings (which come from dimensional values) in the
    /// breakdown or not.
    ///
    /// Default: `false`.
    pub abbreviate_breakdown: bool,
    /// The marker character for positive values of the rendering.
    ///
    /// Default: `'*'`.
    pub positive_marker: char,
    /// The marker character for negative values of the rendering.
    ///
    /// Default: `'⊖'`.
    pub negative_marker: char,
    /// The widget specific rendering configuration.
    ///
    /// Default: `C::default()`.
    pub widget_config: C,
}

impl<C: Default> Default for Render<C> {
    fn default() -> (r: Self)
        ensures
            r.aggregate == Aggregate::Sum,
            r.width_hint == 160,
            !r.show_aggregate,
            !r.abbreviate_breakdown,
            r.positive_marker == '*',
            r.negative_marker == '⊖',
            call_ensures(C::default, (), r.widget_config),
    {
        Self {
            aggregate: Aggregate::Sum,
            width_hint: 160,
            show_aggregate: false,
            abbreviate_breakdown: false,
            positive_marker: '*',
            negative_marker: '⊖',
            widget_config: C::default(),
        }
    }
}

/// The part of the rendering configuration that the text layout uses.
#[derive(Debug, Clone, Copy, PartialEq, Eq)]
pub struct Config {
    pub width_hint: usize,
    pub abbreviate_breakdown: bool,
    pub positive_marker: char,
    pub negative_marker: char,
}

impl Config {
    /// The text layout settings of a rendering configuration.
    pub fn from_render<C>(render: &Render<C>) -> (r: Config)
        ensures
            r.width_hint == render.width_hint,
            r.abbreviate_breakdown == render.abbreviate_breakdown,
            r.positive_marker == render.positive_marker,
            r.negative_marker == render.negative_marker,
    {
        Config {
            width_hint: render.width_hint,
            abbreviate_breakdown: render.abbreviate_breakdown,
            positive_marker: render.positive_marker,
            negative_marker: render.negative_marker,
        }
    }
}

/// The number of columns among the first `n` that hold rendered values.
pub open spec fn value_column_count(types: Seq<Column>, n: int) -> nat
    decreases n,
{
    if n <= 0 {
        0
    } else {
        value_column_count(types, n - 1) + if types[n - 1].column_type is String {
            0nat
        } else {
            1nat
        }
    }
}

/// The width available to each column of rendered values: what the hint leaves after the
/// textual columns, shared among the value columns, and at least 2.
pub open spec fn view_width(width_hint: nat, types: Seq<Column>) -> nat {
    let text = spanned_width(types, 0, types.len() as int);
    let remaining: nat = if width_hint >= text {
        (width_hint - text) as nat
    } else {
        0
    };
    let per = remaining / value_column_count(types, types.len() as int);
    if per < 2 {
        2
    } else {
        per
    }
}

/// The absolute value.
pub open spec fn magnitude(v: i64) -> nat {
    if v < 0 {
        (-v) as nat
    } else {
        v as nat
    }
}

/// The largest magnitude in the range of values (at least 1).
pub open spec fn value_width(range: Range<i64>) -> nat {
    let m = if magnitude(range.start) >= magnitude(range.end) {
        magnitude(range.start)
    } else {
        magnitude(range.end)
    };
    if m == 0 {
        1
    } else {
        m
    }
}

/// How many markers render `v`: its magnitude when the largest value fits the view width,
/// and otherwise its magnitude scaled down linearly so that the largest value fills it.
pub open spec fn marker_count(v: i64, view_w: nat, value_w: nat) -> nat {
    if view_w >= value_w {
        magnitude(v)
    } else {
        magnitude(v) * view_w / value_w
    }
}

/// The width of the rendering of values is never less than 2.
pub proof fn law_view_width_at_least_two(width_hint: nat, types: Seq<Column>)
    ensures
        view_width(width_hint, types) >= 2,
{
}

/// The values share what the hint leaves after the textual columns: when that leaves at
/// least 2 per column of values, the textual columns and the views of all value columns
/// together stay within the hint, and use all of it but for less than one character per value
/// column (each view is what is left divided by the number of value columns, rounded down).
pub proof fn law_views_within_hint(width_hint: nat, types: Seq<Column>)
    requires
        value_column_count(types, types.len() as int) > 0,
        width_hint >= spanned_width(types, 0, types.len() as int) + 2 * value_column_count(
            types,
            types.len() as int,
        ),
    ensures
        spanned_width(types, 0, types.len() as int) + value_column_count(types, types.len() as int)
            * view_width(width_hint, types) <= width_hint,
        width_hint < spanned_width(types, 0, types.len() as int) + value_column_count(
            types,
            types.len() as int,
        ) * (view_width(width_hint, types) + 1),
{
    let text = spanned_width(types, 0, types.len() as int);
    let count = value_column_count(types, types.len() as int);
    let remaining = (width_hint - text) as nat;
    let per = remaining / count;
    assert(per * count <= remaining) by (nonlinear_arith)
        requires
            count > 0,
            per == remaining / count,
    ;
    assert(per >= 2) by (nonlinear_arith)
        requires
            count > 0,
            remaining >= 2 * count,
            per == remaining / count,
    ;
    assert(count * per == per * count) by (nonlinear_arith);
    assert(remaining < count * (per + 1)) by (nonlinear_arith)
        requires
            count > 0,
            per == remaining / count,
    ;
}

/// When the greatest value fits the view, values are drawn literally: one marker per unit.
pub proof fn law_values_drawn_literally(v: i64, view_w: nat, value_w: nat)
    requires
        view_w >= value_w,
    ensures
        marker_count(v, view_w, value_w) == magnitude(v),
{
}

/// Values are only ever scaled down: a value never gets more markers than its magnitude.
pub proof fn law_never_upscaled(v: i64, view_w: nat, value_w: nat)
    requires
        value_w > 0,
    ensures
        marker_count(v, view_w, value_w) <= magnitude(v),
{
    if view_w < value_w {
        assert(magnitude(v) * view_w <= magnitude(v) * value_w) by (nonlinear_arith)
            requires
                view_w < value_w,
        ;
        assert(magnitude(v) * view_w / value_w <= magnitude(v)) by (nonlinear_arith)
            requires
                magnitude(v) * view_w <= magnitude(v) * value_w,
                value_w > 0,
        ;
    }
}

/// Every value no greater (in magnitude) than the greatest one fits the view (and, drawn
/// literally, is no longer than the greatest one).
pub proof fn law_values_fit_view(v: i64, view_w: nat, value_w: nat)
    requires
        magnitude(v) <= value_w,
    ensures
        marker_count(v, view_w, value_w) <= if view_w < value_w {
            view_w
        } else {
            value_w
        },
{
    if view_w < value_w {
        assert(magnitude(v) * view_w / value_w <= view_w) by (nonlinear_arith)
            requires
                magnitude(v) <= value_w,
                view_w < value_w,
        ;
    }
}

/// When values are scaled down, the greatest one fills the view exactly.
pub proof fn law_greatest_fills_view(v: i64, view_w: nat, value_w: nat)
    requires
        magnitude(v) == value_w,
        view_w < value_w,
    ensures
        marker_count(v, view_w, value_w) == view_w,
{
    assert(value_w * view_w / value_w == view_w) by (nonlinear_arith)
        requires
            value_w > view_w,
    ;
}

/// A greater magnitude never gets fewer markers.
pub proof fn law_markers_monotone(v: i64, w: i64, view_w: nat, value_w: nat)
    requires
        magnitude(v) <= magnitude(w),
    ensures
        marker_count(v, view_w, value_w) <= marker_count(w, view_w, value_w),
{
    if view_w < value_w {
        assert(magnitude(v) * view_w <= magnitude(w) * view_w) by (nonlinear_arith)
            requires
                magnitude(v) <= magnitude(w),
        ;
        assert(magnitude(v) * view_w / value_w <= magnitude(w) * view_w / value_w) by (
        nonlinear_arith)
            requires
                magnitude(v) * view_w <= magnitude(w) * view_w,
                value_w > view_w,
        ;
    }
}

/// A bar is drawn with the positive marker for a value that is not negative and with the
/// negative marker for a negative one, as many times as its marker count.
pub proof fn law_bar_markers(v: i64, l: Layout)
    ensures
        bar(v, l).len() == marker_count(v, l.view_width, l.value_width),
        forall|i: int|
            0 <= i < bar(v, l).len() ==> #[trigger] bar(v, l)[i] == if v >= 0 {
                l.positive
            } else {
                l.negative
            },
{
}

/// A textual column only ever widens, and after a `String` cell it is at least as wide as
/// that cell's text.
pub proof fn law_columns_widen(t: ColumnType, v: Value)
    requires
        v is String ==> v->String_0@.len() <= usize::MAX,
    ensures
        t matches ColumnType::String(w) ==> (widened(t, v) matches ColumnType::String(w2) && w2
            >= w),
        (t is String && v is String) ==> (widened(t, v) matches ColumnType::String(w2) && w2
            >= v->String_0@.len()),
        !(t is String) ==> widened(t, v) == t,
{
}

/// The settings that the text of each cell depends on.
#[verifier::ext_equal]
pub struct Layout {
    /// The width of value columns.
    pub width: nat,
    pub view_width: nat,
    pub value_width: nat,
    pub positive: char,
    pub negative: char,
    /// Breakdown headings and their abbreviations.
    pub abbreviations: Seq<(Seq<char>, Seq<char>)>,
}

/// The abbreviation width and the abbreviations of the breakdown headings.
pub open spec fn abbreviation_table(flat: Flat) -> (nat, Seq<(Seq<char>, Seq<char>)>) {
    let g = flat.grid;
    let vw = view_width(flat.config.width_hint as nat, g.columns.types@);
    if flat.config.abbreviate_breakdown {
        let values = abbreviate::string_views(g.breakdown_values@);
        let chosen = if vw > g.maximum_breakdown_width {
            abbreviate::found(g.minimum_breakdown_width as nat, g.maximum_breakdown_width as nat, values)
        } else {
            abbreviate::found(vw, g.maximum_breakdown_width as nat, values)
        };
        (chosen.0, Seq::new(values.len(), |i: int| (values[i], chosen.1[i])))
    } else {
        (g.maximum_breakdown_width as nat, seq![])
    }
}

/// The layout settings of a flat rendering.
pub open spec fn layout(flat: Flat) -> Layout {
    let vw = view_width(flat.config.width_hint as nat, flat.grid.columns.types@);
    let valw = value_width(flat.value_range);
    let base = if vw >= valw {
        valw
    } else {
        vw
    };
    let table = abbreviation_table(flat);
    Layout {
        width: if base >= table.0 {
            base
        } else {
            table.0
        },
        view_width: vw,
        value_width: valw,
        positive: flat.config.positive_marker,
        negative: flat.config.negative_marker,
        abbreviations: table.1,
    }
}

/// The abbreviation of `s` in `pairs`, or `s` itself when it has none.
pub open spec fn lookup(pairs: Seq<(Seq<char>, Seq<char>)>, s: Seq<char>) -> Seq<char>
    decreases pairs.len(),
{
    if pairs.len() == 0 {
        s
    } else if pairs[0].0 == s {
        pairs[0].1
    } else {
        lookup(pairs.drop_first(), s)
    }
}

/// The bar of markers that renders `v`.
pub open spec fn bar(v: i64, l: Layout) -> Seq<char> {
    Seq::new(
        marker_count(v, l.view_width, l.value_width),
        |_i: int|
            if v >= 0 {
                l.positive
            } else {
                l.negative
            },
    )
}

/// The text of a cell (a breakdown heading is abbreviated when it has an abbreviation).
pub open spec fn cell_text(v: Value, breakdown: bool, l: Layout) -> Seq<char> {
    match v {
        Value::Empty => seq![],
        Value::String(s) => if breakdown {
            lookup(l.abbreviations, s@)
        } else {
            s@
        },
        Value::Overflow(s) => s@,
        Value::Plain(s) => s@,
        Value::Value(x) => bar(x, l),
        Value::Skip => seq![],
    }
}

/// `n` spaces.
pub open spec fn spaces(n: nat) -> Seq<char> {
    Seq::new(n, |_i: int| ' ')
}

/// `text` padded with spaces to `width` characters according to the alignment
/// (centering puts the odd space on the right); text at least that wide is left as is.
pub open spec fn padded(text: Seq<char>, width: nat, a: Alignment) -> Seq<char> {
    if text.len() >= width {
        text
    } else {
        let pad = (width - text.len()) as nat;
        match a {
            Alignment::Left => text + spaces(pad),
            Alignment::Right => spaces(pad) + text,
            Alignment::Center => spaces(pad / 2) + text + spaces((pad - pad / 2) as nat),
        }
    }
}

/// The last cell of a line: no trailing spaces are written after it.
pub open spec fn finished(text: Seq<char>, width: nat, a: Alignment) -> Seq<char> {
    match a {
        Alignment::Left => text,
        Alignment::Center => if text.len() < width {
            spaces(((width - text.len()) / 2) as nat) + text
        } else {
            text
        },
        Alignment::Right => padded(text, width, Alignment::Right),
    }
}

/// The width a cell is written at: the column's own width for a textual column, the value
/// width otherwise.
pub open spec fn column_width(c: Column, width: nat) -> nat {
    match c.column_type {
        ColumnType::String(w) => w as nat,
        _ => width,
    }
}

/// The number of leading cells of a row that are written: up to its last cell that is
/// neither `Empty` nor `Skip`.
pub open spec fn content_end(row: Seq<Value>) -> nat
    decreases row.len(),
{
    if row.len() == 0 {
        0
    } else if row.last() is Empty || row.last() is Skip {
        content_end(row.drop_last())
    } else {
        row.len()
    }
}

/// The text of the cell at `j` of a row whose written cells end at `end`.
pub open spec fn piece(
    types: Seq<Column>,
    overrides: Map<usize, usize>,
    row: Seq<Value>,
    j: int,
    end: nat,
    l: Layout,
) -> Seq<char> {
    let c = types[j];
    let v = row[j];
    let breakdown = c.column_type is Breakdown;
    if v is Skip {
        seq![]
    } else if j + 1 == end {
        if v is Plain {
            v->Plain_0@
        } else {
            finished(cell_text(v, breakdown, l), column_width(c, l.width), c.alignment)
        }
    } else {
        let w = if v is Overflow && overrides.contains_key(j as usize) {
            overrides[j as usize] as nat
        } else {
            column_width(c, l.width)
        };
        padded(cell_text(v, breakdown, l), w, c.alignment)
    }
}

/// The text of the first `k` written cells of a row.
pub open spec fn row_text_upto(
    types: Seq<Column>,
    overrides: Map<usize, usize>,
    row: Seq<Value>,
    end: nat,
    k: int,
    l: Layout,
) -> Seq<char>
    decreases k,
{
    if k <= 0 {
        seq![]
    } else {
        row_text_upto(types, overrides, row, end, k - 1, l) + piece(
            types,
            overrides,
            row,
            k - 1,
            end,
            l,
        )
    }
}

/// The text of a row.
pub open spec fn row_text(
    types: Seq<Column>,
    overrides: Map<usize, usize>,
    row: Seq<Value>,
    l: Layout,
) -> Seq<char> {
    row_text_upto(types, overrides, row, content_end(row), content_end(row) as int, l)
}

/// The values of a row of cells.
pub open spec fn cell_values(cells: Seq<Cell>) -> Seq<Value> {
    cells.map_values(|c: Cell| c.value)
}

/// The text of the first `k` rows, one per line.
pub open spec fn rows_text(
    types: Seq<Column>,
    overrides: Map<usize, usize>,
    rows: Seq<Vec<Cell>>,
    k: int,
    l: Layout,
) -> Seq<char>
    decreases k,
{
    if k <= 0 {
        seq![]
    } else if k == 1 {
        row_text(types, overrides, cell_values(rows[0]@), l)
    } else {
        rows_text(types, overrides, rows, k - 1, l) + seq!['\n'] + row_text(
            types,
            overrides,
            cell_values(rows[k - 1]@),
            l,
        )
    }
}

/// The text of a flat rendering.
pub open spec fn flat_text(flat: Flat) -> Seq<char> {
    rows_text(
        flat.grid.columns.types@,
        flat.overflow_overrides@,
        flat.grid.rows@,
        flat.grid.rows@.len() as int,
        layout(flat),
    )
}

/// The textual representation of data, produced by rendering a widget.
#[derive(Debug)]
pub struct Flat {
    pub config: Config,
    /// The range of the rendered values (rounded to integers).
    pub value_range: Range<i64>,
    pub grid: Grid,
    pub overflow_overrides: HashMap<usize, usize>,
}

/// The string of the single character `c`.
///
/// Calls `String::from(char)`, which allocates a string holding exactly that character.
#[verifier::external_body]
fn char_string(c: char) -> (r: String)
    ensures
        r@ == seq![c],
{
    String::from(c)
}

/// Append `n` spaces.
fn push_spaces(out: &mut String, n: usize)
    ensures
        final(out)@ == old(out)@ + spaces(n as nat),
{
    let mut k: usize = 0;
    proof {
        reveal_strlit(" ");
    }
    while k < n
        invariant
            k <= n,
            out@ == old(out)@ + spaces(k as nat),
        decreases n - k,
    {
        out.append(" ");
        proof {
            reveal_strlit(" ");
        }
        assert(old(out)@ + spaces((k + 1) as nat) =~= old(out)@ + spaces(k as nat) + " "@);
        k += 1;
    }
}

/// The exec counterpart of [`Layout`].
struct TextContext {
    width: usize,
    view_width: usize,
    value_width: u64,
    positive_char: char,
    negative_char: char,
    positive: String,
    negative: String,
    abbreviations: Vec<(String, String)>,
}

impl TextContext {
    spec fn wf(&self) -> bool {
        &&& self.positive@ == seq![self.positive_char]
        &&& self.negative@ == seq![self.negative_char]
        &&& self.value_width >= 1
    }

    spec fn layout(&self) -> Layout {
        Layout {
            width: self.width as nat,
            view_width: self.view_width as nat,
            value_width: self.value_width as nat,
            positive: self.positive_char,
            negative: self.negative_char,
            abbreviations: Seq::new(
                self.abbreviations@.len(),
                |i: int| (self.abbreviations@[i].0@, self.abbreviations@[i].1@),
            ),
        }
    }
}

/// The abbreviation of `s` among `pairs`, or `s` itself.
pub(crate) fn lookup_abbreviation(pairs: &Vec<(String, String)>, s: &String) -> (r: String)
    ensures
        r@ == lookup(Seq::new(pairs@.len(), |i: int| (pairs@[i].0@, pairs@[i].1@)), s@),
{
    let ghost table = Seq::new(pairs@.len(), |i: int| (pairs@[i].0@, pairs@[i].1@));
    let mut i: usize = 0;
    assert(table.skip(0) =~= table);
    while i < pairs.len()
        invariant
            table == Seq::new(pairs@.len(), |i: int| (pairs@[i].0@, pairs@[i].1@)),
            i <= pairs@.len(),
            lookup(table, s@) == lookup(table.skip(i as int), s@),
        decreases pairs@.len() - i,
    {
        assert(table.skip(i as int).drop_first() =~= table.skip(i + 1));
        assert(table.skip(i as int)[0] == table[i as int]);
        if pairs[i].0 == *s {
            return pairs[i].1.clone();
        }
        i += 1;
    }
    assert(table.skip(i as int).len() == 0);
    s.clone()
}

/// The bar of markers rendering `v`.
fn bar_string(v: i64, ctx: &TextContext) -> (r: String)
    requires
        ctx.wf(),
    ensures
        r@ == bar(v, ctx.layout()),
{
    let magnitude: u64 = if v < 0 {
        (-(v as i128)) as u64
    } else {
        v as u64
    };
    let count: u128 = if (ctx.view_width as u128) >= (ctx.value_width as u128) {
        magnitude as u128
    } else {
        proof {
            assert((magnitude as u128) * (ctx.view_width as u128) <= (u64::MAX as u128) * (
            u64::MAX as u128)) by (nonlinear_arith)
                requires
                    magnitude <= u64::MAX,
                    ctx.view_width <= u64::MAX,
            ;
        }
        (magnitude as u128) * (ctx.view_width as u128) / (ctx.value_width as u128)
    };
    let marker = if v >= 0 {
        &ctx.positive
    } else {
        &ctx.negative
    };
    let ghost c = if v >= 0 {
        ctx.positive_char
    } else {
        ctx.negative_char
    };
    let mut out = String::new();
    let mut k: u128 = 0;
    while k < count
        invariant
            k <= count,
            marker@ == seq![c],
            out@ == Seq::new(k as nat, |_i: int| c),
        decreases count - k,
    {
        out.append(marker.as_str());
        assert(out@ =~= Seq::new((k + 1) as nat, |_i: int| c));
        k += 1;
    }
    assert(count == marker_count(v, ctx.view_width as nat, ctx.value_width as nat));
    assert(out@ =~= bar(v, ctx.layout()));
    out
}

/// The text of a cell.
fn cell_string(v: &Value, breakdown: bool, ctx: &TextContext) -> (r: String)
    requires
        ctx.wf(),
    ensures
        r@ == cell_text(*v, breakdown, ctx.layout()),
{
    match v {
        Value::Empty => String::new(),
        Value::String(s) => if breakdown {
            lookup_abbreviation(&ctx.abbreviations, s)
        } else {
            s.clone()
        },
        Value::Overflow(s) => s.clone(),
        Value::Plain(s) => s.clone(),
        Value::Value(x) => bar_string(*x, ctx),
        Value::Skip => String::new(),
    }
}

/// What the text of a single cell depends on: the abbreviations of breakdown headings, and
/// how values are drawn.
pub struct CellView {
    /// Each breakdown heading with its abbreviation.
    pub breakdown_abbreviations: Vec<(String, String)>,
    /// The width available to draw a value.
    pub view_width: usize,
    /// The greatest magnitude among the values (at least 1).
    pub value_width: u64,
    pub positive_marker: char,
    pub negative_marker: char,
}

/// The layout settings a cell view stands for (the column width plays no part in a cell's
/// text).
pub open spec fn cell_layout(view: CellView) -> Layout {
    Layout {
        width: 0,
        view_width: view.view_width as nat,
        value_width: view.value_width as nat,
        positive: view.positive_marker,
        negative: view.negative_marker,
        abbreviations: Seq::new(
            view.breakdown_abbreviations@.len(),
            |i: int| (view.breakdown_abbreviations@[i].0@, view.breakdown_abbreviations@[i].1@),
        ),
    }
}

impl Value {
    /// The text of this cell (see [`cell_text`]): a heading in a breakdown column is written by
    /// its abbreviation when it has one, and a value is drawn as a bar of markers. A `Skip`
    /// cell has no text of its own: it is covered by the overflow before it.
    pub fn render(&self, view: &CellView, is_breakdown: bool) -> (r: String)
        requires
            view.value_width >= 1,
            !(*self is Skip),
        ensures
            r@ == cell_text(*self, is_breakdown, cell_layout(*view)),
    {
        let ctx = TextContext {
            width: 0,
            view_width: view.view_width,
            value_width: view.value_width,
            positive_char: view.positive_marker,
            negative_char: view.negative_marker,
            positive: char_string(view.positive_marker),
            negative: char_string(view.negative_marker),
            abbreviations: clone_pairs(&view.breakdown_abbreviations),
        };
        assert(ctx.layout().abbreviations =~= cell_layout(*view).abbreviations);
        assert(ctx.layout() =~= cell_layout(*view));
        cell_string(self, is_breakdown, &ctx)
    }
}

/// A copy of a list of pairs of strings.
fn clone_pairs(pairs: &Vec<(String, String)>) -> (r: Vec<(String, String)>)
    ensures
        r@.len() == pairs@.len(),
        forall|i: int| 0 <= i < r@.len() ==> #[trigger] r@[i] == pairs@[i],
{
    let mut r: Vec<(String, String)> = Vec::new();
    let mut i: usize = 0;
    while i < pairs.len()
        invariant
            i <= pairs@.len(),
            r@.len() == i,
            forall|q: int| 0 <= q < i ==> #[trigger] r@[q] == pairs@[q],
        decreases pairs@.len() - i,
    {
        r.push((pairs[i].0.clone(), pairs[i].1.clone()));
        i += 1;
    }
    r
}

/// Append `text` padded to `width` according to the alignment.
fn push_padded(out: &mut String, text: &String, width: usize, a: Alignment)
    ensures
        final(out)@ == old(out)@ + padded(text@, width as nat, a),
{
    let len = text.as_str().unicode_len();
    if len >= width {
        out.append(text.as_str());
    } else {
        let pad = width - len;
        match a {
            Alignment::Left => {
                out.append(text.as_str());
                push_spaces(out, pad);
            },
            Alignment::Right => {
                push_spaces(out, pad);
                out.append(text.as_str());
            },
            Alignment::Center => {
                push_spaces(out, pad / 2);
                out.append(text.as_str());
                push_spaces(out, pad - pad / 2);
            },
        }
    }
    assert(final(out)@ =~= old(out)@ + padded(text@, width as nat, a));
}

/// Append `text` as the last cell of a line.
fn push_finished(out: &mut String, text: &String, width: usize, a: Alignment)
    ensures
        final(out)@ == old(out)@ + finished(text@, width as nat, a),
{
    match a {
        Alignment::Left => out.append(text.as_str()),
        Alignment::Center => {
            let len = text.as_str().unicode_len();
            if len < width {
                push_spaces(out, (width - len) / 2);
            }
            out.append(text.as_str());
        },
        Alignment::Right => push_padded(out, text, width, a),
    }
    assert(final(out)@ =~= old(out)@ + finished(text@, width as nat, a));
}

/// The number of leading cells of a row that are written.
fn written_count(cells: &Vec<Cell>) -> (r: usize)
    ensures
        r == content_end(cell_values(cells@)),
{
    let ghost values = cell_values(cells@);
    let mut n = cells.len();
    assert(values.take(n as int) =~= values);
    while n > 0 && (matches!(cells[n - 1].value, Value::Empty) || matches!(
        cells[n - 1].value,
        Value::Skip
    ))
        invariant
            n <= cells@.len(),
            values == cell_values(cells@),
            content_end(values) == content_end(values.take(n as int)),
        decreases n,
    {
        assert(values.take(n as int).drop_last() =~= values.take(n - 1));
        assert(values.take(n as int).last() == cells@[n - 1].value);
        n -= 1;
    }
    assert(n > 0 ==> values.take(n as int).last() == cells@[n - 1].value);
    assert(values.take(n as int).len() == n);
    if n == 0 {
        assert(values.take(0) =~= Seq::<Value>::empty());
    }
    n
}

/// The width a cell of column `c` is written at.
fn column_width_of(c: &Column, width: usize) -> (r: usize)
    ensures
        r == column_width(*c, width as nat),
{
    match c.column_type {
        ColumnType::String(w) => w,
        _ => width,
    }
}

/// Append the text of a row.
fn push_row(
    out: &mut String,
    types: &Vec<Column>,
    overrides: &HashMap<usize, usize>,
    cells: &Vec<Cell>,
    ctx: &TextContext,
)
    requires
        ctx.wf(),
        cells@.len() <= types@.len(),
    ensures
        final(out)@ == old(out)@ + row_text(
            types@,
            overrides@,
            cell_values(cells@),
            ctx.layout(),
        ),
{
    let ghost values = cell_values(cells@);
    let ghost l = ctx.layout();
    let end = written_count(cells);
    proof {
        lemma_content_end_bound(values);
    }
    let mut j: usize = 0;
    while j < end
        invariant
            ctx.wf(),
            l == ctx.layout(),
            values == cell_values(cells@),
            end == content_end(values),
            end <= cells@.len() <= types@.len(),
            j <= end,
            out@ == old(out)@ + row_text_upto(types@, overrides@, values, end as nat, j as int, l),
        decreases end - j,
    {
        let column = &types[j];
        let value = &cells[j].value;
        assert(values[j as int] == *value);
        let breakdown = matches!(column.column_type, ColumnType::Breakdown);
        let ghost before = out@;
        if matches!(value, Value::Skip) {
        } else if j + 1 == end {
            if let Value::Plain(text) = value {
                out.append(text.as_str());
            } else {
                let text = cell_string(value, breakdown, ctx);
                push_finished(out, &text, column_width_of(column, ctx.width), column.alignment);
            }
        } else {
            let mut width = column_width_of(column, ctx.width);
            if matches!(value, Value::Overflow(_)) {
                if let Some(w) = overrides.get(&j) {
                    width = *w;
                }
            }
            let text = cell_string(value, breakdown, ctx);
            push_padded(out, &text, width, column.alignment);
        }
        assert(out@ == before + piece(types@, overrides@, values, j as int, end as nat, l));
        j += 1;
    }
}

proof fn lemma_content_end_bound(row: Seq<Value>)
    ensures
        content_end(row) <= row.len(),
    decreases row.len(),
{
    if row.len() > 0 {
        lemma_content_end_bound(row.drop_last());
    }
}

/// The absolute value of `v`.
fn magnitude_of(v: i64) -> (r: u64)
    ensures
        r == magnitude(v),
{
    if v < 0 {
        (-(v as i128)) as u64
    } else {
        v as u64
    }
}

impl Flat {
    /// Settle the grid's overflows (see [`Grid::build_overflow_overrides`]) and keep what the
    /// text layout needs.
    pub fn new<C>(render: Render<C>, value_range: Range<i64>, grid: Grid) -> (r: Flat)
        requires
            grid.wf(),
            width_budget(&grid) <= usize::MAX,
        ensures
            r.config == Config::from_render_spec(&render),
            r.value_range == value_range,
            r.grid.wf(),
            r.grid.rows == grid.rows,
            r.grid.overflows == grid.overflows,
            r.grid.breakdown_values == grid.breakdown_values,
            r.grid.minimum_breakdown_width == grid.minimum_breakdown_width,
            r.grid.maximum_breakdown_width == grid.maximum_breakdown_width,
            spanned_width(r.grid.columns.types@, 0, r.grid.columns.types@.len() as int)
                <= usize::MAX,
            (r.grid.columns.types@, r.overflow_overrides@) == settle_all(
                grid.columns.types@,
                overflows_view(grid.overflows@),
                Map::empty(),
            ),
    {
        let mut grid = grid;
        let overflow_overrides = grid.build_overflow_overrides();
        Self { config: Config::from_render(&render), value_range, grid, overflow_overrides }
    }

    /// The text can be laid out: the grid is well formed, the widths of its textual columns
    /// add up within `usize`, there is a column of rendered values, and there are breakdown
    /// headings to abbreviate when abbreviation is asked for.
    pub open spec fn renderable(&self) -> bool {
        &&& self.grid.wf()
        &&& spanned_width(self.grid.columns.types@, 0, self.grid.columns.types@.len() as int)
            <= usize::MAX
        &&& value_column_count(self.grid.columns.types@, self.grid.columns.types@.len() as int)
            > 0
        &&& self.config.abbreviate_breakdown ==> self.grid.breakdown_values@.len() > 0
    }

    /// Whether the text can be laid out (see [`Flat::renderable`]), for a rendering whose grid
    /// is well formed, as [`Flat::new`] makes it.
    pub fn is_renderable(&self) -> (r: bool)
        requires
            self.grid.wf(),
        ensures
            r == self.renderable(),
    {
        let types = &self.grid.columns.types;
        let ghost ts = types@;
        let mut total: usize = 0;
        let mut values: usize = 0;
        let mut i: usize = 0;
        while i < types.len()
            invariant
                ts == types@,
                ts == self.grid.columns.types@,
                i <= ts.len(),
                total == spanned_width(ts, 0, i as int),
                values == value_column_count(ts, i as int),
                values <= i,
            decreases ts.len() - i,
        {
            let (w, holds_values): (usize, bool) = match types[i].column_type {
                ColumnType::String(w) => (w, false),
                _ => (0, true),
            };
            assert(spanned_width(ts, 0, i + 1) == total + w);
            if total > usize::MAX - w {
                proof {
                    lemma_spanned_split(ts, 0, i + 1, ts.len() as int);
                }
                return false;
            }
            total = total + w;
            if holds_values {
                values = values + 1;
            }
            i += 1;
        }
        values > 0 && (!self.config.abbreviate_breakdown || self.grid.breakdown_values.len() > 0)
    }

    /// The text of this rendering: one line per grid row.
    pub fn render_text(&self) -> (r: String)
        requires
            self.renderable(),
        ensures
            r@ == flat_text(*self),
    {
        let types = &self.grid.columns.types;
        let ghost tv = types@;
        let n = types.len();
        let mut text_total: usize = 0;
        let mut value_columns: usize = 0;
        let mut i: usize = 0;
        while i < n
            invariant
                n == tv.len(),
                tv == types@,
                i <= n,
                spanned_width(tv, 0, n as int) <= usize::MAX,
                text_total == spanned_width(tv, 0, i as int),
                value_columns == value_column_count(tv, i as int),
                value_columns <= i,
            decreases n - i,
        {
            proof {
                lemma_spanned_split(tv, 0, i + 1, n as int);
            }
            match types[i].column_type {
                ColumnType::String(w) => {
                    text_total = text_total + w;
                },
                _ => {
                    value_columns = value_columns + 1;
                },
            }
            i += 1;
        }
        let remaining = if self.config.width_hint >= text_total {
            self.config.width_hint - text_total
        } else {
            0
        };
        let per = remaining / value_columns;
        let view_width = if per < 2 {
            2
        } else {
            per
        };
        assert(view_width == self::view_width(self.config.width_hint as nat, tv));
        let low = magnitude_of(self.value_range.start);
        let high = magnitude_of(self.value_range.end);
        let mut value_width = if low >= high {
            low
        } else {
            high
        };
        if value_width == 0 {
            value_width = 1;
        }
        assert(value_width == self::value_width(self.value_range));
        let base = if (view_width as u128) >= (value_width as u128) {
            value_width as usize
        } else {
            view_width
        };
        let g = &self.grid;
        let ghost values = abbreviate::string_views(g.breakdown_values@);
        let (abbreviation_width, abbreviations) = if self.config.abbreviate_breakdown {
            assert(g.minimum_breakdown_width <= g.breakdown_values@[0]@.len()
                <= g.maximum_breakdown_width);
            if view_width > g.maximum_breakdown_width {
                find_abbreviations(
                    g.minimum_breakdown_width,
                    g.maximum_breakdown_width,
                    &g.breakdown_values,
                )
            } else {
                find_abbreviations(view_width, g.maximum_breakdown_width, &g.breakdown_values)
            }
        } else {
            (g.maximum_breakdown_width, Vec::new())
        };
        let width = if base >= abbreviation_width {
            base
        } else {
            abbreviation_width
        };
        let ctx = TextContext {
            width,
            view_width,
            value_width,
            positive_char: self.config.positive_marker,
            negative_char: self.config.negative_marker,
            positive: char_string(self.config.positive_marker),
            negative: char_string(self.config.negative_marker),
            abbreviations,
        };
        let ghost l = layout(*self);
        assert(ctx.layout().abbreviations =~= l.abbreviations);
        assert(ctx.layout() =~= l);
        let rows = &self.grid.rows;
        let mut out = String::new();
        let mut r: usize = 0;
        while r < rows.len()
            invariant
                ctx.wf(),
                ctx.layout() == l,
                self.grid.wf(),
                rows == &self.grid.rows,
                types == &self.grid.columns.types,
                r <= rows@.len(),
                out@ == rows_text(types@, self.overflow_overrides@, rows@, r as int, l),
            decreases rows@.len() - r,
        {
            if r > 0 {
                out.append("\n");
                proof {
                    reveal_strlit("\n");
                }
            }
            let ghost before = out@;
            push_row(&mut out, types, &self.overflow_overrides, &rows[r], &ctx);
            assert(rows@[r as int]@.len() <= types@.len());
            r += 1;
        }
        out
    }
}

impl Config {
    /// The text layout settings of a rendering configuration.
    pub open spec fn from_render_spec<C>(render: &Render<C>) -> Config {
        Config {
            width_hint: render.width_hint,
            abbreviate_breakdown: render.abbreviate_breakdown,
            positive_marker: render.positive_marker,
            negative_marker: render.negative_marker,
        }
    }
}

} // verus!

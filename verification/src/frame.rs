//! The part of a widget's frame that every widget shares: the columns and cells that show the
//! aggregated values of a row, the headers above them, and the assembly of a grid.
use crate::abbreviate;
use crate::aggregate::{self, Aggregate};
use crate::render::{self, Alignment, Column, ColumnType, Columns, Grid, Row, Value};
use std::ops::Range;
use vstd::prelude::*;

verus! {

/// The aggregated values of a row, computed by the caller.
pub struct Aggregated {
    /// The row's values (rounded): one per breakdown heading, or just one.
    pub values: Vec<i64>,
    /// The aggregate of the row's values, as text (shown when `show_aggregate` is set).
    pub total: String,
}

/// What a cell shows, as plain values.
pub enum Shown {
    Empty,
    Text(Seq<char>),
    Overflow(Seq<char>),
    Plain(Seq<char>),
    Bar(i64),
    Skip,
}

/// What a cell value shows.
pub open spec fn shown(v: Value) -> Shown {
    match v {
        Value::Empty => Shown::Empty,
        Value::String(s) => Shown::Text(s@),
        Value::Overflow(s) => Shown::Overflow(s@),
        Value::Plain(s) => Shown::Plain(s@),
        Value::Value(x) => Shown::Bar(x),
        Value::Skip => Shown::Skip,
    }
}

/// What the cells of a row show, left to right.
pub open spec fn shown_row(row: Row) -> Seq<Shown> {
    row.values().map_values(|v: Value| shown(v))
}

/// A textual column, initially zero wide.
pub open spec fn text_column(a: Alignment) -> Column {
    Column { alignment: a, column_type: ColumnType::String(0) }
}

/// The columns of the aggregate shown beside a row (`" "`, `"["`, the aggregate, `"]"`).
pub open spec fn aggregate_columns(show_aggregate: bool) -> Seq<Column> {
    if show_aggregate {
        seq![
            text_column(Alignment::Center),
            text_column(Alignment::Left),
            text_column(Alignment::Right),
            text_column(Alignment::Left),
        ]
    } else {
        seq![]
    }
}

/// `n` breakdown columns with a spacer between each two.
pub open spec fn breakdown_columns(n: nat) -> Seq<Column> {
    Seq::new(
        if n == 0 {
            0
        } else {
            (2 * n - 1) as nat
        },
        |k: int|
            if k % 2 == 0 {
                Column { alignment: Alignment::Center, column_type: ColumnType::Breakdown }
            } else {
                text_column(Alignment::Left)
            },
    )
}

/// The columns that show the values of a row: the aggregate (when shown), a spacer, the
/// delimiter, and then one column per breakdown heading (spaced, and closed by a delimiter)
/// or a single column of values.
pub open spec fn value_columns(show_aggregate: bool, breakdowns: Option<nat>) -> Seq<Column> {
    aggregate_columns(show_aggregate) + seq![
        text_column(Alignment::Center),
        text_column(Alignment::Center),
    ] + match breakdowns {
        Some(n) => breakdown_columns(n).push(text_column(Alignment::Center)),
        None => seq![Column { alignment: Alignment::Left, column_type: ColumnType::Count }],
    }
}

/// The items with a `" "` between each two.
pub open spec fn spaced(items: Seq<Shown>) -> Seq<Shown> {
    Seq::new(
        if items.len() == 0 {
            0
        } else {
            (2 * items.len() - 1) as nat
        },
        |k: int|
            if k % 2 == 0 {
                items[k / 2]
            } else {
                Shown::Text(" "@)
            },
    )
}

/// The label of aggregated values: `"Sum(label)"` for the sum.
pub open spec fn embedded(a: Aggregate, label: Seq<char>) -> Seq<char> {
    aggregate::aggregate_name(a) + "("@ + label + ")"@
}

/// The header above the values: the aggregate's name (when shown), the delimiter, and then
/// the breakdown headings or the label of the values.
pub open spec fn value_header(
    a: Aggregate,
    show_aggregate: bool,
    breakdowns: Option<Seq<Seq<char>>>,
    label: Seq<char>,
) -> Seq<Shown> {
    (if show_aggregate {
        seq![Shown::Empty, Shown::Overflow(aggregate::aggregate_name(a)), Shown::Skip, Shown::Skip]
    } else {
        seq![]
    }) + seq![Shown::Text("  "@), Shown::Text("|"@)] + match breakdowns {
        Some(headings) => spaced(headings.map_values(|h: Seq<char>| Shown::Text(h))).push(
            Shown::Text("|"@),
        ),
        None => seq![Shown::Plain(embedded(a, label))],
    }
}

/// The cells that show the values of a row: its aggregate (when shown), the delimiter, and
/// its values (one per breakdown heading, spaced and closed by a delimiter, or just one).
pub open spec fn value_cells(
    show_aggregate: bool,
    total: Seq<char>,
    values: Seq<i64>,
    breakdown: bool,
) -> Seq<Shown> {
    (if show_aggregate {
        seq![Shown::Text(" "@), Shown::Text("["@), Shown::Text(total), Shown::Text("]"@)]
    } else {
        seq![]
    }) + seq![Shown::Text("  "@), Shown::Text("|"@)] + if breakdown {
        spaced(values.map_values(|v: i64| Shown::Bar(v))).push(Shown::Text("|"@))
    } else {
        seq![Shown::Bar(values[0])]
    }
}

/// A row above the header that labels the values: `leading` empty cells for the widget's own
/// columns, empty cells over the aggregate and the delimiter, then `text`.
pub open spec fn preheader(leading: nat, show_aggregate: bool, text: Seq<char>) -> Seq<Shown> {
    Seq::new(
        leading + if show_aggregate {
            4nat
        } else {
            0nat
        } + 2,
        |_k: int| Shown::Empty,
    ).push(Shown::Plain(text))
}

/// The text of an optional label.
pub open spec fn label_view(label: Option<String>) -> Option<Seq<char>> {
    match label {
        Some(b) => Some(b@),
        None => None,
    }
}

/// The rows above the header: with a breakdown, its label, and then the label of the
/// aggregated values (one row only when both labels are the same).
pub open spec fn preheaders(
    leading: nat,
    show_aggregate: bool,
    a: Aggregate,
    breakdown_label: Option<Seq<char>>,
    value_label: Seq<char>,
) -> Seq<Seq<Shown>> {
    match breakdown_label {
        Some(b) => if b == value_label {
            seq![preheader(leading, show_aggregate, embedded(a, value_label))]
        } else {
            seq![
                preheader(leading, show_aggregate, b),
                preheader(leading, show_aggregate, embedded(a, value_label)),
            ]
        },
        None => seq![],
    }
}

/// Append a cell.
pub fn push_value(row: &mut Row, value: Value)
    requires
        old(row).wf(),
    ensures
        final(row).wf(),
        shown_row(*final(row)) == shown_row(*old(row)).push(shown(value)),
{
    row.push(value);
    assert(shown_row(*row) =~= shown_row(*old(row)).push(shown(value)));
}

/// Append a cell of text.
pub fn push_text(row: &mut Row, text: &str)
    requires
        old(row).wf(),
    ensures
        final(row).wf(),
        shown_row(*final(row)) == shown_row(*old(row)).push(Shown::Text(text@)),
{
    push_value(row, Value::String(text.to_string()));
}

/// Append `count` empty cells.
fn push_empties(row: &mut Row, count: usize)
    requires
        old(row).wf(),
    ensures
        final(row).wf(),
        shown_row(*final(row)) == shown_row(*old(row)) + Seq::new(
            count as nat,
            |_k: int| Shown::Empty,
        ),
{
    let mut i: usize = 0;
    while i < count
        invariant
            i <= count,
            row.wf(),
            shown_row(*row) == shown_row(*old(row)) + Seq::new(i as nat, |_k: int| Shown::Empty),
        decreases count - i,
    {
        push_value(row, Value::Empty);
        i += 1;
        assert(shown_row(*row) =~= shown_row(*old(row)) + Seq::new(
            i as nat,
            |_k: int| Shown::Empty,
        ));
    }
}

/// `"Sum(label)"` for the sum.
pub fn embedded_label(a: Aggregate, label: &String) -> (r: String)
    ensures
        r@ == embedded(a, label@),
{
    let name = a.name();
    let r = name.concat("(");
    let r = r.concat(label.as_str());
    r.concat(")")
}

/// Append the columns that show the values of a row (see [`value_columns`]).
pub fn push_value_columns(columns: &mut Columns, show_aggregate: bool, breakdowns: Option<usize>)
    ensures
        final(columns).types@ == old(columns).types@ + value_columns(
            show_aggregate,
            match breakdowns {
                Some(n) => Some(n as nat),
                None => None,
            },
        ),
{
    let ghost before = columns.types@;
    if show_aggregate {
        columns.push(Column::string(Alignment::Center));
        columns.push(Column::string(Alignment::Left));
        columns.push(Column::string(Alignment::Right));
        columns.push(Column::string(Alignment::Left));
    }
    assert(columns.types@ =~= before + aggregate_columns(show_aggregate));
    columns.push(Column::string(Alignment::Center));
    columns.push(Column::string(Alignment::Center));
    let ghost middle = columns.types@;
    assert(middle =~= before + aggregate_columns(show_aggregate) + seq![
        text_column(Alignment::Center),
        text_column(Alignment::Center),
    ]);
    match breakdowns {
        Some(n) => {
            let mut i: usize = 0;
            while i < n
                invariant
                    i <= n,
                    columns.types@ == middle + breakdown_columns(i as nat),
                decreases n - i,
            {
                if i > 0 {
                    columns.push(Column::string(Alignment::Left));
                }
                columns.push(Column::breakdown(Alignment::Center));
                i += 1;
                assert(columns.types@ =~= middle + breakdown_columns(i as nat));
            }
            columns.push(Column::string(Alignment::Center));
            assert(columns.types@ =~= middle + breakdown_columns(n as nat).push(
                text_column(Alignment::Center),
            ));
        },
        None => {
            columns.push(Column::count(Alignment::Left));
        },
    }
    assert(columns.types@ =~= before + value_columns(
        show_aggregate,
        match breakdowns {
            Some(n) => Some(n as nat),
            None => None,
        },
    ));
}

/// Append the header above the values (see [`value_header`]); `breakdowns` holds the
/// breakdown headings of a breakdown rendering.
pub fn push_value_header(
    row: &mut Row,
    a: Aggregate,
    show_aggregate: bool,
    breakdowns: Option<&Vec<String>>,
    label: &String,
)
    requires
        old(row).wf(),
    ensures
        final(row).wf(),
        shown_row(*final(row)) == shown_row(*old(row)) + value_header(
            a,
            show_aggregate,
            match breakdowns {
                Some(h) => Some(abbreviate::string_views(h@)),
                None => None,
            },
            label@,
        ),
{
    let ghost before = shown_row(*row);
    if show_aggregate {
        push_value(row, Value::Empty);
        push_value(row, Value::Overflow(a.name()));
        push_value(row, Value::Skip);
        push_value(row, Value::Skip);
    }
    push_text(row, "  ");
    push_text(row, "|");
    let ghost middle = shown_row(*row);
    assert(middle =~= before + (if show_aggregate {
        seq![Shown::Empty, Shown::Overflow(aggregate::aggregate_name(a)), Shown::Skip, Shown::Skip]
    } else {
        seq![]
    }) + seq![Shown::Text("  "@), Shown::Text("|"@)]);
    match breakdowns {
        Some(headings) => {
            let ghost items = abbreviate::string_views(headings@).map_values(
                |h: Seq<char>| Shown::Text(h),
            );
            let mut k: usize = 0;
            while k < headings.len()
                invariant
                    k <= headings@.len(),
                    row.wf(),
                    items == abbreviate::string_views(headings@).map_values(
                        |h: Seq<char>| Shown::Text(h),
                    ),
                    shown_row(*row) == middle + spaced(items.take(k as int)),
                decreases headings@.len() - k,
            {
                if k > 0 {
                    push_text(row, " ");
                }
                push_value(row, Value::String(headings[k].clone()));
                k += 1;
                assert(shown_row(*row) =~= middle + spaced(items.take(k as int)));
            }
            push_text(row, "|");
            assert(items.take(headings@.len() as int) =~= items);
        },
        None => {
            push_value(row, Value::Plain(embedded_label(a, label)));
        },
    }
    assert(shown_row(*row) =~= before + value_header(
        a,
        show_aggregate,
        match breakdowns {
            Some(h) => Some(abbreviate::string_views(h@)),
            None => None,
        },
        label@,
    ));
}

/// Append the cells that show the values of a row (see [`value_cells`]).
pub fn push_value_cells(
    row: &mut Row,
    show_aggregate: bool,
    total: &String,
    values: &Vec<i64>,
    breakdown: bool,
)
    requires
        old(row).wf(),
        !breakdown ==> values@.len() > 0,
    ensures
        final(row).wf(),
        shown_row(*final(row)) == shown_row(*old(row)) + value_cells(
            show_aggregate,
            total@,
            values@,
            breakdown,
        ),
{
    let ghost before = shown_row(*row);
    if show_aggregate {
        push_text(row, " ");
        push_text(row, "[");
        push_value(row, Value::String(total.clone()));
        push_text(row, "]");
    }
    push_text(row, "  ");
    push_text(row, "|");
    let ghost middle = shown_row(*row);
    assert(middle =~= before + (if show_aggregate {
        seq![Shown::Text(" "@), Shown::Text("["@), Shown::Text(total@), Shown::Text("]"@)]
    } else {
        seq![]
    }) + seq![Shown::Text("  "@), Shown::Text("|"@)]);
    if breakdown {
        let ghost items = values@.map_values(|v: i64| Shown::Bar(v));
        let mut k: usize = 0;
        while k < values.len()
            invariant
                k <= values@.len(),
                row.wf(),
                items == values@.map_values(|v: i64| Shown::Bar(v)),
                shown_row(*row) == middle + spaced(items.take(k as int)),
            decreases values@.len() - k,
        {
            if k > 0 {
                push_text(row, " ");
            }
            push_value(row, Value::Value(values[k]));
            k += 1;
            assert(shown_row(*row) =~= middle + spaced(items.take(k as int)));
        }
        push_text(row, "|");
        assert(items.take(values@.len() as int) =~= items);
    } else {
        push_value(row, Value::Value(values[0]));
    }
    assert(shown_row(*row) =~= before + value_cells(show_aggregate, total@, values@, breakdown));
}

/// A row above the header (see [`preheader`]).
pub fn preheader_row(leading: usize, show_aggregate: bool, text: String) -> (r: Row)
    requires
        leading + 6 <= usize::MAX,
    ensures
        r.wf(),
        shown_row(r) == preheader(leading as nat, show_aggregate, text@),
{
    let mut row = Row::default();
    let count = if show_aggregate {
        leading + 6
    } else {
        leading + 2
    };
    assert(shown_row(row) =~= Seq::<Shown>::empty());
    push_empties(&mut row, count);
    push_value(&mut row, Value::Plain(text));
    assert(shown_row(row) =~= preheader(leading as nat, show_aggregate, text@));
    row
}

/// The rows above the header (see [`preheaders`]).
pub fn preheader_rows(
    leading: usize,
    show_aggregate: bool,
    a: Aggregate,
    breakdown_label: &Option<String>,
    value_label: &String,
) -> (r: Vec<Row>)
    requires
        leading + 6 <= usize::MAX,
    ensures
        r@.len() == preheaders(
            leading as nat,
            show_aggregate,
            a,
            label_view(*breakdown_label),
            value_label@,
        ).len(),
        forall|i: int|
            0 <= i < r@.len() ==> (#[trigger] r@[i]).wf() && shown_row(r@[i]) == preheaders(
                leading as nat,
                show_aggregate,
                a,
                label_view(*breakdown_label),
                value_label@,
            )[i],
{
    let mut rows: Vec<Row> = Vec::new();
    match breakdown_label {
        Some(b) => {
            if *b == *value_label {
                rows.push(preheader_row(leading, show_aggregate, embedded_label(a, value_label)));
            } else {
                rows.push(preheader_row(leading, show_aggregate, b.clone()));
                rows.push(preheader_row(leading, show_aggregate, embedded_label(a, value_label)));
            }
        },
        None => {},
    }
    rows
}

/// The columns after a row of values is added: textual columns widen to fit its `String`
/// cells (see [`render::widened`]); alignments and kinds stay.
pub open spec fn widened_columns(types: Seq<Column>, row: Seq<Value>) -> Seq<Column> {
    Seq::new(
        types.len(),
        |j: int|
            Column {
                alignment: types[j].alignment,
                column_type: if j < row.len() {
                    render::widened(types[j].column_type, row[j])
                } else {
                    types[j].column_type
                },
            },
    )
}

/// The columns after the rows are added in order.
pub open spec fn added_columns(types: Seq<Column>, rows: Seq<Row>) -> Seq<Column>
    decreases rows.len(),
{
    if rows.len() == 0 {
        types
    } else {
        widened_columns(added_columns(types, rows.drop_last()), rows.last().values())
    }
}

/// The overflows that the rows open, in order, each row against the columns as the rows
/// before it left them.
pub open spec fn added_overflows(types: Seq<Column>, rows: Seq<Row>) -> Seq<(nat, Seq<usize>)>
    decreases rows.len(),
{
    if rows.len() == 0 {
        seq![]
    } else {
        added_overflows(types, rows.drop_last()) + render::row_overflows(
            added_columns(types, rows.drop_last()),
            rows.last().values(),
            0,
        )
    }
}

/// The breakdown headings that the rows hold.
pub open spec fn added_headings(types: Seq<Column>, rows: Seq<Row>) -> Set<Seq<char>>
    decreases rows.len(),
{
    if rows.len() == 0 {
        Set::empty()
    } else {
        added_headings(types, rows.drop_last()) + render::row_breakdown_values(
            added_columns(types, rows.drop_last()),
            rows.last().values(),
            rows.last().cells@.len() as int,
        )
    }
}

/// The widths that the rows' cells claim in breakdown columns.
pub open spec fn breakdown_widths(types: Seq<Column>, rows: Seq<Row>) -> Set<nat>
    decreases rows.len(),
{
    if rows.len() == 0 {
        Set::empty()
    } else {
        let before = added_columns(types, rows.drop_last());
        let row = rows.last();
        breakdown_widths(types, rows.drop_last()) + Set::new(
            |w: nat|
                exists|j: int|
                    0 <= j < row.cells@.len() && #[trigger] render::breakdown_width_at(
                        before,
                        row.values(),
                        j,
                    ) == Some(w),
        )
    }
}

/// The grid holds exactly what adding the rows in order to an empty grid over `types` gives:
/// the widened columns, the rows' cells, their overflows, their breakdown headings, and the
/// least and greatest width claimed in a breakdown column (`usize::MAX` and `0` when none is).
pub open spec fn holds_rows(g: Grid, types: Seq<Column>, rows: Seq<Row>) -> bool {
    &&& g.columns.types@ == added_columns(types, rows)
    &&& g.rows@ == rows.map_values(|row: Row| row.cells)
    &&& render::overflows_view(g.overflows@) == added_overflows(types, rows)
    &&& abbreviate::string_views(g.breakdown_values@).to_set() == added_headings(types, rows)
    &&& forall|w: nat|
        #[trigger] breakdown_widths(types, rows).contains(w) ==> g.minimum_breakdown_width <= w
            <= g.maximum_breakdown_width
    &&& (g.minimum_breakdown_width == usize::MAX || breakdown_widths(types, rows).contains(
        g.minimum_breakdown_width as nat,
    ))
    &&& (g.maximum_breakdown_width == 0 || breakdown_widths(types, rows).contains(
        g.maximum_breakdown_width as nat,
    ))
}

/// Lay the rows out on a grid over `columns`, in order; `None` when some row is empty or has
/// more cells than there are columns.
pub fn grid_of(columns: Columns, rows: Vec<Row>) -> (r: Option<Grid>)
    requires
        forall|i: int| 0 <= i < rows@.len() ==> (#[trigger] rows@[i]).wf(),
    ensures
        r is Some <==> forall|i: int|
            0 <= i < rows@.len() ==> 0 < (#[trigger] rows@[i]).cells@.len()
                <= columns.types@.len(),
        r matches Some(g) ==> g.wf() && holds_rows(g, columns.types@, rows@),
{
    let ghost given = rows@;
    let n = columns.types.len();
    let mut i: usize = 0;
    while i < rows.len()
        invariant
            i <= rows@.len(),
            n == columns.types@.len(),
            forall|m: int| 0 <= m < i ==> 0 < (#[trigger] rows@[m]).cells@.len() <= n,
        decreases rows@.len() - i,
    {
        if rows[i].cells.len() == 0 || rows[i].cells.len() > n {
            return None;
        }
        i += 1;
    }
    // Reverse the rows, so that taking from the end gives them back in order.
    let mut rows = rows;
    let mut reversed: Vec<Row> = Vec::new();
    while rows.len() > 0
        invariant
            given.len() == rows@.len() + reversed@.len(),
            rows@ == given.take(rows@.len() as int),
            forall|m: int|
                0 <= m < reversed@.len() ==> #[trigger] reversed@[m] == given[given.len() - 1
                    - m],
        decreases rows@.len(),
    {
        let row = rows.pop().unwrap();
        reversed.push(row);
        assert(rows@ =~= given.take(rows@.len() as int));
    }
    let ghost types = columns.types@;
    let mut grid = Grid::new(columns);
    proof {
        let none = given.take(given.len() - reversed@.len());
        assert(none =~= Seq::<Row>::empty());
        assert(grid.rows@ =~= none.map_values(|row: Row| row.cells));
        assert(render::overflows_view(grid.overflows@) =~= Seq::<(nat, Seq<usize>)>::empty());
        assert(abbreviate::string_views(grid.breakdown_values@).to_set() =~= Set::<
            Seq<char>,
        >::empty());
        assert(holds_rows(grid, types, none));
    }
    while reversed.len() > 0
        invariant
            grid.wf(),
            grid.columns.types@.len() == n,
            n == types.len(),
            holds_rows(grid, types, given.take(given.len() - reversed@.len())),
            reversed@.len() <= given.len(),
            forall|m: int|
                0 <= m < reversed@.len() ==> #[trigger] reversed@[m] == given[given.len() - 1
                    - m],
            forall|m: int| 0 <= m < given.len() ==> (#[trigger] given[m]).wf(),
            forall|m: int|
                0 <= m < given.len() ==> 0 < (#[trigger] given[m]).cells@.len() <= n,
        decreases reversed@.len(),
    {
        let ghost k = given.len() - reversed@.len();
        let ghost before = given.take(k);
        let ghost after = given.take(k + 1);
        let ghost old_grid = grid;
        let row = reversed.pop().unwrap();
        assert(row == given[k]);
        assert(after.drop_last() =~= before);
        assert(after.last() == row);
        grid.add(row);
        proof {
            assert(after.map_values(|row: Row| row.cells) =~= before.map_values(
                |row: Row| row.cells,
            ).push(row.cells));
            assert(grid.columns.types@ =~= widened_columns(old_grid.columns.types@, row.values()));
            let added = Set::new(
                |w: nat|
                    exists|j: int|
                        0 <= j < row.cells@.len() && #[trigger] render::breakdown_width_at(
                            old_grid.columns.types@,
                            row.values(),
                            j,
                        ) == Some(w),
            );
            assert(breakdown_widths(types, after) == breakdown_widths(types, before) + added);
            assert forall|w: nat| #[trigger]
                breakdown_widths(types, after).contains(w) implies grid.minimum_breakdown_width
                <= w <= grid.maximum_breakdown_width by {
                if added.contains(w) {
                    let j = choose|j: int|
                        0 <= j < row.cells@.len() && #[trigger] render::breakdown_width_at(
                            old_grid.columns.types@,
                            row.values(),
                            j,
                        ) == Some(w);
                }
            }
            if grid.minimum_breakdown_width != old_grid.minimum_breakdown_width {
                let j = choose|j: int|
                    0 <= j < row.cells@.len() && #[trigger] render::breakdown_width_at(
                        old_grid.columns.types@,
                        row.values(),
                        j,
                    ) == Some(grid.minimum_breakdown_width as nat);
                assert(added.contains(grid.minimum_breakdown_width as nat));
            }
            if grid.maximum_breakdown_width != old_grid.maximum_breakdown_width {
                let j = choose|j: int|
                    0 <= j < row.cells@.len() && #[trigger] render::breakdown_width_at(
                        old_grid.columns.types@,
                        row.values(),
                        j,
                    ) == Some(grid.maximum_breakdown_width as nat);
                assert(added.contains(grid.maximum_breakdown_width as nat));
            }
        }
    }
    assert(given.take(given.len() as int) =~= given);
    Some(grid)
}

/// Some cell of `rows` renders the value `v`.
pub open spec fn has_bar(rows: Seq<Row>, v: i64) -> bool {
    exists|i: int, k: int|
        0 <= i < rows.len() && 0 <= k < rows[i].values().len() && #[trigger] rows[i].values()[k]
            == Value::Value(v)
}

/// The range of the values rendered in `rows`: from the least to the greatest (`0..0` when
/// there is none).
pub fn value_range(rows: &Vec<Row>) -> (r: Range<i64>)
    ensures
        (exists|v: i64| has_bar(rows@, v)) ==> {
            &&& has_bar(rows@, r.start)
            &&& has_bar(rows@, r.end)
            &&& forall|v: i64| has_bar(rows@, v) ==> r.start <= v <= r.end
        },
        !(exists|v: i64| has_bar(rows@, v)) ==> r.start == 0 && r.end == 0,
{
    let mut found: Option<(i64, i64)> = None;
    let mut i: usize = 0;
    while i < rows.len()
        invariant
            i <= rows@.len(),
            found matches Some(b) ==> {
                &&& has_bar(rows@, b.0)
                &&& has_bar(rows@, b.1)
                &&& forall|m: int, k: int|
                    0 <= m < i && 0 <= k < rows@[m].values().len() && (
                    #[trigger] rows@[m].values()[k]) is Value ==> b.0 <= rows@[m].values()[k]->Value_0
                        <= b.1
            },
            found is None ==> forall|m: int, k: int|
                0 <= m < i && 0 <= k < rows@[m].values().len() ==> !((
                #[trigger] rows@[m].values()[k]) is Value),
        decreases rows@.len() - i,
    {
        let cells = &rows[i].cells;
        let mut k: usize = 0;
        while k < cells.len()
            invariant
                i < rows@.len(),
                cells@ == rows@[i as int].cells@,
                k <= cells@.len(),
                found matches Some(b) ==> {
                    &&& has_bar(rows@, b.0)
                    &&& has_bar(rows@, b.1)
                    &&& forall|m: int, q: int|
                        0 <= m < i && 0 <= q < rows@[m].values().len() && (
                        #[trigger] rows@[m].values()[q]) is Value ==> b.0 <= rows@[m].values()[q]->Value_0
                            <= b.1
                    &&& forall|q: int|
                        0 <= q < k && (#[trigger] rows@[i as int].values()[q]) is Value ==> b.0
                            <= rows@[i as int].values()[q]->Value_0 <= b.1
                },
                found is None ==> forall|m: int, q: int|
                    0 <= m < i && 0 <= q < rows@[m].values().len() ==> !((
                    #[trigger] rows@[m].values()[q]) is Value),
                found is None ==> forall|q: int|
                    0 <= q < k ==> !((#[trigger] rows@[i as int].values()[q]) is Value),
            decreases cells@.len() - k,
        {
            if let Value::Value(v) = cells[k].value {
                assert(rows@[i as int].values()[k as int] == Value::Value(v));
                found = match found {
                    Some((low, high)) => Some(
                        (
                            if v < low {
                                v
                            } else {
                                low
                            },
                            if v > high {
                                v
                            } else {
                                high
                            },
                        ),
                    ),
                    None => Some((v, v)),
                };
            }
            k += 1;
        }
        i += 1;
    }
    match found {
        Some((low, high)) => {
            proof {
                assert forall|v: i64| has_bar(rows@, v) implies low <= v <= high by {
                    let (m, k) = choose|m: int, k: int|
                        0 <= m < rows@.len() && 0 <= k < rows@[m].values().len()
                            && #[trigger] rows@[m].values()[k] == Value::Value(v);
                    assert(rows@[m].values()[k] is Value);
                }
            }
            low..high
        },
        None => {
            proof {
                assert forall|v: i64| !has_bar(rows@, v) by {
                    if has_bar(rows@, v) {
                        let (m, k) = choose|m: int, k: int|
                            0 <= m < rows@.len() && 0 <= k < rows@[m].values().len()
                                && #[trigger] rows@[m].values()[k] == Value::Value(v);
                        assert(rows@[m].values()[k] is Value);
                    }
                }
            }
            0..0
        },
    }
}

/// The width of the values of a rendering is the greatest magnitude among the values its rows
/// render (at least 1): no rendered value is wider, and one is as wide, unless all are zero.
/// The range is the one [`value_range`] gives.
pub proof fn law_value_width_is_greatest(rows: Seq<Row>, range: Range<i64>, v: i64)
    requires
        has_bar(rows, range.start),
        has_bar(rows, range.end),
        forall|x: i64| has_bar(rows, x) ==> range.start <= x <= range.end,
        has_bar(rows, v),
    ensures
        render::magnitude(v) <= render::value_width(range),
        render::value_width(range) == 1 || (has_bar(rows, range.start) && render::magnitude(
            range.start,
        ) == render::value_width(range)) || (has_bar(rows, range.end) && render::magnitude(
            range.end,
        ) == render::value_width(range)),
{
}

} // verus!

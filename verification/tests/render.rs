use flat::config::HistogramConfig;
use flat::frame::{grid_of, value_range, Aggregated};
use flat::histogram::histogram_frame;
use flat::render::{Alignment, CellView, Column, ColumnType, Columns, Flat, Grid, Render, Row, Value};

fn strings(values: &[&str]) -> Vec<String> {
    values.iter().map(|v| v.to_string()).collect()
}

fn single(value: i64) -> Aggregated {
    Aggregated {
        values: vec![value],
        total: value.to_string(),
    }
}

fn histogram(render: Render<HistogramConfig>, labels: &[&str], values: &[i64]) -> Flat {
    let aggregates: Vec<Aggregated> = values.iter().map(|v| single(*v)).collect();
    let (columns, rows) = histogram_frame(
        &render,
        &"k".to_string(),
        false,
        &"v".to_string(),
        &vec![],
        &strings(labels),
        &aggregates,
    );
    let range = value_range(&rows);
    let grid = grid_of(columns, rows).unwrap();
    assert!(grid.fits());
    Flat::new(render, range, grid)
}

fn markers(line: &str, marker: char) -> usize {
    line.chars().filter(|c| *c == marker).count()
}

#[test]
fn values_scale_down_to_a_view_of_two() {
    let render = Render {
        width_hint: 0,
        ..Render::default()
    };
    let flat = histogram(render, &["a", "b", "c"], &[10, 5, 3]);
    assert!(flat.is_renderable());
    let text = flat.render_text();
    let lines: Vec<&str> = text.lines().collect();
    assert_eq!(lines.len(), 4);
    assert_eq!(markers(lines[1], '*'), 2);
    assert_eq!(markers(lines[2], '*'), 1);
    assert_eq!(markers(lines[3], '*'), 0);
}

#[test]
fn values_drawn_literally_when_they_fit() {
    let flat = histogram(Render::default(), &["a", "b"], &[7, 3]);
    let text = flat.render_text();
    assert_eq!(text, "k  |Sum(v)\na  |*******\nb  |***");
}

#[test]
fn negative_values_use_the_negative_marker() {
    let flat = histogram(Render::default(), &["a", "b"], &[-4, 2]);
    let text = flat.render_text();
    let lines: Vec<&str> = text.lines().collect();
    assert_eq!(markers(lines[1], '⊖'), 4);
    assert_eq!(markers(lines[1], '*'), 0);
    assert_eq!(markers(lines[2], '*'), 2);
}

#[test]
fn custom_markers() {
    let render = Render {
        positive_marker: '+',
        negative_marker: '-',
        ..Render::default()
    };
    let flat = histogram(render, &["a", "b"], &[-2, 3]);
    assert_eq!(flat.render_text(), "k  |Sum(v)\na  |--\nb  |+++");
}

#[test]
fn aggregates_shown_beside_values() {
    let render = Render {
        show_aggregate: true,
        ..Render::default()
    };
    let flat = histogram(render, &["a", "b"], &[12, 3]);
    assert_eq!(
        flat.render_text(),
        "k Sum   |Sum(v)\na [12]  |************\nb [ 3]  |***"
    );
}

#[test]
fn breakdown_headings_abbreviated() {
    let render = Render {
        width_hint: 0,
        abbreviate_breakdown: true,
        ..Render::default()
    };
    let aggregates = vec![Aggregated {
        values: vec![1, 2],
        total: String::new(),
    }];
    let (columns, rows) = histogram_frame(
        &render,
        &"k".to_string(),
        true,
        &"v".to_string(),
        &strings(&["alpha-long", "beta-long"]),
        &strings(&["a"]),
        &aggregates,
    );
    let range = value_range(&rows);
    let flat = Flat::new(render, range, grid_of(columns, rows).unwrap());
    assert!(flat.is_renderable());
    let text = flat.render_text();
    let header = text.lines().nth(1).unwrap();
    assert!(header.contains("a.."));
    assert!(header.contains("b.."));
    assert!(!header.contains("alpha"));
}

#[test]
fn abbreviation_needs_breakdown_headings() {
    let render = Render {
        abbreviate_breakdown: true,
        ..Render::default()
    };
    let flat = histogram(render, &["a"], &[1]);
    assert!(!flat.is_renderable());
}

#[test]
fn grid_add_widens_text_columns() {
    let mut columns = Columns::default();
    columns.push(Column::string(Alignment::Left));
    columns.push(Column::count(Alignment::Left));
    let mut grid = Grid::new(columns);
    let mut row = Row::default();
    row.push(Value::String("abc".to_string()));
    row.push(Value::Value(3));
    grid.add(row);
    let mut row = Row::default();
    row.push(Value::String("a".to_string()));
    grid.add(row);
    assert_eq!(grid.columns.get(0).column_type, ColumnType::String(3));
    assert_eq!(grid.columns.get(1).column_type, ColumnType::Count);
    assert_eq!(grid.rows.len(), 2);
    assert!(grid.overflows.is_empty());
}

#[test]
fn overflow_widens_its_last_column() {
    let mut columns = Columns::default();
    columns.push(Column::string(Alignment::Left));
    columns.push(Column::string(Alignment::Left));
    columns.push(Column::count(Alignment::Left));
    let mut grid = Grid::new(columns);
    let mut row = Row::default();
    row.push(Value::Overflow("wide text".to_string()));
    row.push(Value::Skip);
    row.push(Value::Value(1));
    grid.add(row);
    let mut row = Row::default();
    row.push(Value::String("ab".to_string()));
    row.push(Value::String("c".to_string()));
    row.push(Value::Value(2));
    grid.add(row);
    assert_eq!(grid.overflows.len(), 1);
    assert_eq!(grid.overflows[0].width, 9);
    assert_eq!(grid.overflows[0].columns, vec![0, 1]);
    let overrides = grid.build_overflow_overrides();
    assert!(overrides.is_empty());
    assert_eq!(grid.columns.get(0).column_type, ColumnType::String(2));
    assert_eq!(grid.columns.get(1).column_type, ColumnType::String(7));
}

#[test]
fn narrow_overflow_gets_an_override() {
    let mut columns = Columns::default();
    columns.push(Column::string(Alignment::Left));
    columns.push(Column::string(Alignment::Left));
    columns.push(Column::count(Alignment::Left));
    let mut grid = Grid::new(columns);
    let mut row = Row::default();
    row.push(Value::Overflow("x".to_string()));
    row.push(Value::Skip);
    row.push(Value::Value(1));
    grid.add(row);
    let mut row = Row::default();
    row.push(Value::String("abc".to_string()));
    row.push(Value::String("de".to_string()));
    grid.add(row);
    let overrides = grid.build_overflow_overrides();
    assert_eq!(overrides.get(&0), Some(&5));
}

#[test]
fn render_default_settings() {
    let render: Render<HistogramConfig> = Render::default();
    assert_eq!(render.width_hint, 160);
    assert!(!render.show_aggregate);
    assert!(!render.abbreviate_breakdown);
    assert_eq!(render.positive_marker, '*');
    assert_eq!(render.negative_marker, '⊖');
    assert_eq!(render.aggregate.name(), "Sum".to_string());
}

#[test]
fn value_render_widths() {
    assert_eq!(Value::Empty.render_width(), Some(0));
    assert_eq!(Value::String("东西".to_string()).render_width(), Some(2));
    assert_eq!(Value::Overflow("abc".to_string()).render_width(), Some(3));
    assert_eq!(Value::Plain("abc".to_string()).render_width(), None);
    assert_eq!(Value::Value(4).render_width(), None);
    assert_eq!(Value::Skip.render_width(), None);
}

#[test]
fn values_scaled_within_width_hint() {
    let render = Render {
        width_hint: 10,
        ..Render::default()
    };
    let flat = histogram(render, &["a", "b"], &[12, 6]);
    assert_eq!(flat.render_text(), "k  |Sum(v)\na  |******\nb  |***");
}

#[test]
fn render_value() {
    let view = CellView {
        breakdown_abbreviations: Default::default(),
        view_width: 2,
        value_width: 2,
        positive_marker: '+',
        negative_marker: '-',
    };

    let value = Value::Value(1);
    assert_eq!(value.render_width(), None);
    assert_eq!(value.render(&view, false), "+");
    assert_eq!(value.render(&view, true), "+");

    let value = Value::Value(2);
    assert_eq!(value.render_width(), None);
    assert_eq!(value.render(&view, false), "++");
    assert_eq!(value.render(&view, true), "++");

    let value = Value::Value(-1);
    assert_eq!(value.render_width(), None);
    assert_eq!(value.render(&view, false), "-");
    assert_eq!(value.render(&view, true), "-");
}

#[test]
fn render_value_scaled_down() {
    let view = CellView {
        breakdown_abbreviations: Default::default(),
        view_width: 2,
        value_width: 7,
        positive_marker: '*',
        negative_marker: '-',
    };
    assert_eq!(Value::Value(7).render(&view, false), "**");
    assert_eq!(Value::Value(4).render(&view, false), "*");
    assert_eq!(Value::Value(1).render(&view, false), "");
    assert_eq!(Value::Value(-7).render(&view, false), "--");
}

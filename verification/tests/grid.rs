use flat::render::{
    Alignment, Cell, CellView, Column, ColumnType, Columns, Grid, Overflow, Row, Value,
};
use std::collections::{HashMap, HashSet};

fn rows_of(rows: Vec<HashMap<usize, Cell>>) -> Vec<Vec<Cell>> {
    rows.into_iter()
        .map(|row| {
            let mut cells: Vec<(usize, Cell)> = row.into_iter().collect();
            cells.sort_by_key(|(column, _)| *column);
            cells.into_iter().map(|(_, cell)| cell).collect()
        })
        .collect()
}

fn set_of(values: &[String]) -> HashSet<String> {
    values.iter().cloned().collect()
}

#[test]
fn render_empty() {
    let view = CellView {
        breakdown_abbreviations: Default::default(),
        view_width: 1,
        value_width: 1,
        positive_marker: '+',
        negative_marker: '-',
    };

    let value = Value::Empty;
    assert_eq!(value.render_width(), Some(0));
    assert_eq!(value.render(&view, false), "");
    assert_eq!(value.render(&view, true), "");
}

#[test]
fn render_string() {
    let view = CellView {
        breakdown_abbreviations: Default::default(),
        view_width: 1,
        value_width: 1,
        positive_marker: '+',
        negative_marker: '-',
    };

    let value = Value::String("abc".to_string());
    assert_eq!(value.render_width(), Some(3));
    assert_eq!(value.render(&view, false), "abc");
    assert_eq!(value.render(&view, true), "abc");

    let view = CellView {
        breakdown_abbreviations: vec![("abc".to_string(), "12345".to_string())],
        view_width: 1,
        value_width: 1,
        positive_marker: '+',
        negative_marker: '-',
    };
    assert_eq!(value.render_width(), Some(3));
    assert_eq!(value.render(&view, false), "abc");
    assert_eq!(value.render(&view, true), "12345");
}

#[test]
fn render_overflow() {
    let view = CellView {
        breakdown_abbreviations: Default::default(),
        view_width: 1,
        value_width: 1,
        positive_marker: '+',
        negative_marker: '-',
    };

    let value = Value::Overflow("abc".to_string());
    assert_eq!(value.render_width(), Some(3));
    assert_eq!(value.render(&view, false), "abc");
    assert_eq!(value.render(&view, true), "abc");

    let view = CellView {
        breakdown_abbreviations: vec![("abc".to_string(), "12345".to_string())],
        view_width: 1,
        value_width: 1,
        positive_marker: '+',
        negative_marker: '-',
    };
    assert_eq!(value.render_width(), Some(3));
    assert_eq!(value.render(&view, false), "abc");
    assert_eq!(value.render(&view, true), "abc");
}

#[test]
fn render_plain() {
    let view = CellView {
        breakdown_abbreviations: Default::default(),
        view_width: 1,
        value_width: 1,
        positive_marker: '+',
        negative_marker: '-',
    };

    let value = Value::Plain("abc".to_string());
    assert_eq!(value.render_width(), None);
    assert_eq!(value.render(&view, false), "abc");
    assert_eq!(value.render(&view, true), "abc");
}

#[test]
fn render_width_skip() {
    let value = Value::Skip;
    assert_eq!(value.render_width(), None);
}

#[test]
fn grid_add_string_string() {
    // Setup
    let mut columns = Columns::default();
    columns.push(Column::string(Alignment::Center));
    let mut grid = Grid::new(columns);
    let mut row = Row::default();
    row.push(Value::String("abc".to_string()));

    // Execute
    grid.add(row);

    // Verify
    assert!(grid.overflows.is_empty());
    assert!(grid.breakdown_values.is_empty());
    assert_eq!(grid.minimum_breakdown_width, 18446744073709551615);
    assert_eq!(grid.maximum_breakdown_width, 0);
    assert_eq!(
        grid.rows,
        rows_of(vec![HashMap::from([(
            0,
            Cell {
                column: 0,
                value: Value::String("abc".to_string()),
            }
        )])])
    );

    if let ColumnType::String(size) = grid.columns.types[0].column_type {
        assert_eq!(size, 3);
    } else {
        panic!("unexpected column type");
    }

    assert_eq!(grid.build_overflow_overrides(), HashMap::default());
    if let ColumnType::String(size) = grid.columns.types[0].column_type {
        assert_eq!(size, 3);
    } else {
        panic!("unexpected column type");
    }
}

#[test]
fn grid_add_string_overflow() {
    // Setup
    let mut columns = Columns::default();
    columns.push(Column::string(Alignment::Center));
    let mut grid = Grid::new(columns);
    let mut row = Row::default();
    row.push(Value::Overflow("abc".to_string()));

    // Execute
    grid.add(row);

    // Verify
    assert_eq!(
        grid.overflows,
        vec![Overflow {
            width: 3,
            columns: vec![0]
        }]
    );
    assert!(grid.breakdown_values.is_empty());
    assert_eq!(grid.minimum_breakdown_width, 18446744073709551615);
    assert_eq!(grid.maximum_breakdown_width, 0);
    assert_eq!(
        grid.rows,
        rows_of(vec![HashMap::from([(
            0,
            Cell {
                column: 0,
                value: Value::Overflow("abc".to_string()),
            }
        )])])
    );

    if let ColumnType::String(size) = grid.columns.types[0].column_type {
        assert_eq!(size, 0);
    } else {
        panic!("unexpected column type");
    }

    assert_eq!(grid.build_overflow_overrides(), HashMap::default());
    if let ColumnType::String(size) = grid.columns.types[0].column_type {
        assert_eq!(size, 3);
    } else {
        panic!("unexpected column type");
    }
}

#[test]
fn grid_add_string_overflow_skip() {
    // Setup
    let mut columns = Columns::default();
    columns.push(Column::string(Alignment::Center));
    columns.push(Column::string(Alignment::Center));
    let mut grid = Grid::new(columns);
    let mut row = Row::default();
    row.push(Value::Overflow("abc".to_string()));
    row.push(Value::Skip);

    // Execute
    grid.add(row);

    // Verify
    assert_eq!(
        grid.overflows,
        vec![Overflow {
            width: 3,
            columns: vec![0, 1]
        }]
    );
    assert!(grid.breakdown_values.is_empty());
    assert_eq!(grid.minimum_breakdown_width, 18446744073709551615);
    assert_eq!(grid.maximum_breakdown_width, 0);
    assert_eq!(
        grid.rows,
        rows_of(vec![HashMap::from([
            (
                0,
                Cell {
                    column: 0,
                    value: Value::Overflow("abc".to_string()),
                }
            ),
            (
                1,
                Cell {
                    column: 1,
                    value: Value::Skip,
                }
            )
        ])])
    );
    assert_eq!(grid.build_overflow_overrides(), HashMap::default());

    if let ColumnType::String(size) = grid.columns.types[0].column_type {
        assert_eq!(size, 0);
    } else {
        panic!("unexpected column type");
    }
}

#[test]
fn grid_add_string_overflow_skip_next() {
    // Setup
    let mut columns = Columns::default();
    columns.push(Column::string(Alignment::Center));
    columns.push(Column::string(Alignment::Center));
    columns.push(Column::count(Alignment::Center));
    let mut grid = Grid::new(columns);
    let mut row = Row::default();
    row.push(Value::Overflow("abc".to_string()));
    row.push(Value::Skip);
    row.push(Value::Value(0));

    // Execute
    grid.add(row);

    // Verify
    assert_eq!(
        grid.overflows,
        vec![Overflow {
            width: 3,
            columns: vec![0, 1]
        }]
    );
    assert!(grid.breakdown_values.is_empty());
    assert_eq!(grid.minimum_breakdown_width, 18446744073709551615);
    assert_eq!(grid.maximum_breakdown_width, 0);
    assert_eq!(
        grid.rows,
        rows_of(vec![HashMap::from([
            (
                0,
                Cell {
                    column: 0,
                    value: Value::Overflow("abc".to_string()),
                }
            ),
            (
                1,
                Cell {
                    column: 1,
                    value: Value::Skip,
                }
            ),
            (
                2,
                Cell {
                    column: 2,
                    value: Value::Value(0),
                }
            )
        ])])
    );
    assert_eq!(grid.build_overflow_overrides(), HashMap::default());

    if let ColumnType::String(size) = grid.columns.types[0].column_type {
        assert_eq!(size, 0);
    } else {
        panic!("unexpected column type");
    }
}

#[test]
fn grid_add_string_plain() {
    // Setup
    let mut columns = Columns::default();
    columns.push(Column::string(Alignment::Center));
    let mut grid = Grid::new(columns);
    let mut row = Row::default();
    row.push(Value::Plain("abc".to_string()));

    // Execute
    grid.add(row);

    // Verify
    assert!(grid.overflows.is_empty());
    assert!(grid.breakdown_values.is_empty());
    assert_eq!(grid.minimum_breakdown_width, 18446744073709551615);
    assert_eq!(grid.maximum_breakdown_width, 0);
    assert_eq!(
        grid.rows,
        rows_of(vec![HashMap::from([(
            0,
            Cell {
                column: 0,
                value: Value::Plain("abc".to_string()),
            }
        )])])
    );
    assert_eq!(grid.build_overflow_overrides(), HashMap::default());

    if let ColumnType::String(size) = grid.columns.types[0].column_type {
        assert_eq!(size, 0);
    } else {
        panic!("unexpected column type");
    }
}

#[test]
fn grid_add_string_empty() {
    // Setup
    let mut columns = Columns::default();
    columns.push(Column::string(Alignment::Center));
    let mut grid = Grid::new(columns);
    let mut row = Row::default();
    row.push(Value::Empty);

    // Execute
    grid.add(row);

    // Verify
    assert!(grid.overflows.is_empty());
    assert!(grid.breakdown_values.is_empty());
    assert_eq!(grid.minimum_breakdown_width, 18446744073709551615);
    assert_eq!(grid.maximum_breakdown_width, 0);
    assert_eq!(
        grid.rows,
        rows_of(vec![HashMap::from([(
            0,
            Cell {
                column: 0,
                value: Value::Empty,
            }
        )])])
    );
    assert_eq!(grid.build_overflow_overrides(), HashMap::default());

    if let ColumnType::String(size) = grid.columns.types[0].column_type {
        assert_eq!(size, 0);
    } else {
        panic!("unexpected column type");
    }
}

#[test]
fn grid_add_string_skip() {
    // Setup
    let mut columns = Columns::default();
    columns.push(Column::string(Alignment::Center));
    let mut grid = Grid::new(columns);
    let mut row = Row::default();
    row.push(Value::Skip);

    // Execute
    grid.add(row);

    // Verify
    assert!(grid.overflows.is_empty());
    assert!(grid.breakdown_values.is_empty());
    assert_eq!(grid.minimum_breakdown_width, 18446744073709551615);
    assert_eq!(grid.maximum_breakdown_width, 0);
    assert_eq!(
        grid.rows,
        rows_of(vec![HashMap::from([(
            0,
            Cell {
                column: 0,
                value: Value::Skip,
            }
        )])])
    );
    assert_eq!(grid.build_overflow_overrides(), HashMap::default());

    if let ColumnType::String(size) = grid.columns.types[0].column_type {
        assert_eq!(size, 0);
    } else {
        panic!("unexpected column type");
    }
}

#[test]
fn grid_add_string_value() {
    // Setup
    let mut columns = Columns::default();
    columns.push(Column::string(Alignment::Center));
    let mut grid = Grid::new(columns);
    let mut row = Row::default();
    row.push(Value::Value(0));

    // Execute
    grid.add(row);

    // Verify
    assert!(grid.overflows.is_empty());
    assert!(grid.breakdown_values.is_empty());
    assert_eq!(grid.minimum_breakdown_width, 18446744073709551615);
    assert_eq!(grid.maximum_breakdown_width, 0);
    assert_eq!(
        grid.rows,
        rows_of(vec![HashMap::from([(
            0,
            Cell {
                column: 0,
                value: Value::Value(0),
            }
        )])])
    );
    assert_eq!(grid.build_overflow_overrides(), HashMap::default());

    if let ColumnType::String(size) = grid.columns.types[0].column_type {
        assert_eq!(size, 0);
    } else {
        panic!("unexpected column type");
    }
}

#[test]
fn grid_add_string_overflow_remainder() {
    // Setup
    let mut columns = Columns::default();
    columns.push(Column::string(Alignment::Center));
    let mut grid = Grid::new(columns);
    let mut row = Row::default();
    row.push(Value::Overflow("qwerty".to_string()));

    // Execute
    grid.add(row);
    let mut row = Row::default();
    row.push(Value::String("abc".to_string()));
    grid.add(row);

    // Verify
    assert_eq!(
        grid.overflows,
        vec![Overflow {
            width: 6,
            columns: vec![0]
        }]
    );
    assert!(grid.breakdown_values.is_empty());
    assert_eq!(grid.minimum_breakdown_width, 18446744073709551615);
    assert_eq!(grid.maximum_breakdown_width, 0);
    assert_eq!(
        grid.rows,
        rows_of(vec![
            HashMap::from([(
                0,
                Cell {
                    column: 0,
                    value: Value::Overflow("qwerty".to_string()),
                }
            )]),
            HashMap::from([(
                0,
                Cell {
                    column: 0,
                    value: Value::String("abc".to_string()),
                }
            )])
        ])
    );

    if let ColumnType::String(size) = grid.columns.types[0].column_type {
        assert_eq!(size, 3);
    } else {
        panic!("unexpected column type");
    }

    assert_eq!(grid.build_overflow_overrides(), HashMap::default());
    if let ColumnType::String(size) = grid.columns.types[0].column_type {
        assert_eq!(size, 6);
    } else {
        panic!("unexpected column type");
    }
}

#[test]
fn grid_add_string_overflow_excess() {
    // Setup
    let mut columns = Columns::default();
    columns.push(Column::string(Alignment::Center));
    let mut grid = Grid::new(columns);
    let mut row = Row::default();
    row.push(Value::Overflow("abc".to_string()));

    // Execute
    grid.add(row);
    let mut row = Row::default();
    row.push(Value::String("qwerty".to_string()));
    grid.add(row);

    // Verify
    assert_eq!(
        grid.overflows,
        vec![Overflow {
            width: 3,
            columns: vec![0]
        }]
    );
    assert!(grid.breakdown_values.is_empty());
    assert_eq!(grid.minimum_breakdown_width, 18446744073709551615);
    assert_eq!(grid.maximum_breakdown_width, 0);
    assert_eq!(
        grid.rows,
        rows_of(vec![
            HashMap::from([(
                0,
                Cell {
                    column: 0,
                    value: Value::Overflow("abc".to_string()),
                }
            )]),
            HashMap::from([(
                0,
                Cell {
                    column: 0,
                    value: Value::String("qwerty".to_string()),
                }
            )])
        ])
    );

    if let ColumnType::String(size) = grid.columns.types[0].column_type {
        assert_eq!(size, 6);
    } else {
        panic!("unexpected column type");
    }

    assert_eq!(grid.build_overflow_overrides(), HashMap::from([(0, 6)]));
    if let ColumnType::String(size) = grid.columns.types[0].column_type {
        assert_eq!(size, 6);
    } else {
        panic!("unexpected column type");
    }
}

#[test]
fn grid_add_string_overflow_deadeven() {
    // Setup
    let mut columns = Columns::default();
    columns.push(Column::string(Alignment::Center));
    let mut grid = Grid::new(columns);
    let mut row = Row::default();
    row.push(Value::Overflow("qwerty".to_string()));

    // Execute
    grid.add(row);
    let mut row = Row::default();
    row.push(Value::String("qwerty".to_string()));
    grid.add(row);

    // Verify
    assert_eq!(
        grid.overflows,
        vec![Overflow {
            width: 6,
            columns: vec![0]
        }]
    );
    assert!(grid.breakdown_values.is_empty());
    assert_eq!(grid.minimum_breakdown_width, 18446744073709551615);
    assert_eq!(grid.maximum_breakdown_width, 0);
    assert_eq!(
        grid.rows,
        rows_of(vec![
            HashMap::from([(
                0,
                Cell {
                    column: 0,
                    value: Value::Overflow("qwerty".to_string()),
                }
            )]),
            HashMap::from([(
                0,
                Cell {
                    column: 0,
                    value: Value::String("qwerty".to_string()),
                }
            )])
        ])
    );

    if let ColumnType::String(size) = grid.columns.types[0].column_type {
        assert_eq!(size, 6);
    } else {
        panic!("unexpected column type");
    }

    assert_eq!(grid.build_overflow_overrides(), HashMap::default());
    if let ColumnType::String(size) = grid.columns.types[0].column_type {
        assert_eq!(size, 6);
    } else {
        panic!("unexpected column type");
    }
}

// ColumnType::Count

#[test]
fn grid_add_count_string() {
    // Setup
    let mut columns = Columns::default();
    columns.push(Column::count(Alignment::Center));
    let mut grid = Grid::new(columns);
    let mut row = Row::default();
    row.push(Value::String("abc".to_string()));

    // Execute
    grid.add(row);

    // Verify
    assert!(grid.overflows.is_empty());
    assert!(grid.breakdown_values.is_empty());
    assert_eq!(grid.minimum_breakdown_width, 18446744073709551615);
    assert_eq!(grid.maximum_breakdown_width, 0);
    assert_eq!(
        grid.rows,
        rows_of(vec![HashMap::from([(
            0,
            Cell {
                column: 0,
                value: Value::String("abc".to_string()),
            }
        )])])
    );
    assert_eq!(grid.build_overflow_overrides(), HashMap::default());
}

#[test]
fn grid_add_count_overflow() {
    // Setup
    let mut columns = Columns::default();
    columns.push(Column::count(Alignment::Center));
    let mut grid = Grid::new(columns);
    let mut row = Row::default();
    row.push(Value::Overflow("abc".to_string()));

    // Execute
    grid.add(row);

    // Verify
    assert!(grid.overflows.is_empty());
    assert!(grid.breakdown_values.is_empty());
    assert_eq!(grid.minimum_breakdown_width, 18446744073709551615);
    assert_eq!(grid.maximum_breakdown_width, 0);
    assert_eq!(
        grid.rows,
        rows_of(vec![HashMap::from([(
            0,
            Cell {
                column: 0,
                value: Value::Overflow("abc".to_string()),
            }
        )])])
    );
    assert_eq!(grid.build_overflow_overrides(), HashMap::default());
}

#[test]
fn grid_add_count_plain() {
    // Setup
    let mut columns = Columns::default();
    columns.push(Column::count(Alignment::Center));
    let mut grid = Grid::new(columns);
    let mut row = Row::default();
    row.push(Value::Plain("abc".to_string()));

    // Execute
    grid.add(row);

    // Verify
    assert!(grid.overflows.is_empty());
    assert!(grid.breakdown_values.is_empty());
    assert_eq!(grid.minimum_breakdown_width, 18446744073709551615);
    assert_eq!(grid.maximum_breakdown_width, 0);
    assert_eq!(
        grid.rows,
        rows_of(vec![HashMap::from([(
            0,
            Cell {
                column: 0,
                value: Value::Plain("abc".to_string()),
            }
        )])])
    );
    assert_eq!(grid.build_overflow_overrides(), HashMap::default());
}

#[test]
fn grid_add_count_empty() {
    // Setup
    let mut columns = Columns::default();
    columns.push(Column::count(Alignment::Center));
    let mut grid = Grid::new(columns);
    let mut row = Row::default();
    row.push(Value::Empty);

    // Execute
    grid.add(row);

    // Verify
    assert!(grid.overflows.is_empty());
    assert!(grid.breakdown_values.is_empty());
    assert_eq!(grid.minimum_breakdown_width, 18446744073709551615);
    assert_eq!(grid.maximum_breakdown_width, 0);
    assert_eq!(
        grid.rows,
        rows_of(vec![HashMap::from([(
            0,
            Cell {
                column: 0,
                value: Value::Empty,
            }
        )])])
    );
    assert_eq!(grid.build_overflow_overrides(), HashMap::default());
}

#[test]
fn grid_add_count_skip() {
    // Setup
    let mut columns = Columns::default();
    columns.push(Column::count(Alignment::Center));
    let mut grid = Grid::new(columns);
    let mut row = Row::default();
    row.push(Value::Skip);

    // Execute
    grid.add(row);

    // Verify
    assert!(grid.overflows.is_empty());
    assert!(grid.breakdown_values.is_empty());
    assert_eq!(grid.minimum_breakdown_width, 18446744073709551615);
    assert_eq!(grid.maximum_breakdown_width, 0);
    assert_eq!(
        grid.rows,
        rows_of(vec![HashMap::from([(
            0,
            Cell {
                column: 0,
                value: Value::Skip,
            }
        )])])
    );
    assert_eq!(grid.build_overflow_overrides(), HashMap::default());
}

#[test]
fn grid_add_count_value() {
    // Setup
    let mut columns = Columns::default();
    columns.push(Column::count(Alignment::Center));
    let mut grid = Grid::new(columns);
    let mut row = Row::default();
    row.push(Value::Value(0));

    // Execute
    grid.add(row);

    // Verify
    assert!(grid.overflows.is_empty());
    assert!(grid.breakdown_values.is_empty());
    assert_eq!(grid.minimum_breakdown_width, 18446744073709551615);
    assert_eq!(grid.maximum_breakdown_width, 0);
    assert_eq!(
        grid.rows,
        rows_of(vec![HashMap::from([(
            0,
            Cell {
                column: 0,
                value: Value::Value(0),
            }
        )])])
    );
    assert_eq!(grid.build_overflow_overrides(), HashMap::default());
}

// ColumnType::Breakdown

#[test]
fn grid_add_breakdown_string() {
    // Setup
    let mut columns = Columns::default();
    columns.push(Column::breakdown(Alignment::Center));
    let mut grid = Grid::new(columns);
    let mut row = Row::default();
    row.push(Value::String("abc".to_string()));

    // Execute
    grid.add(row);

    // Verify
    assert!(grid.overflows.is_empty());
    assert_eq!(set_of(&grid.breakdown_values), HashSet::from(["abc".to_string()]));
    assert_eq!(grid.minimum_breakdown_width, 3);
    assert_eq!(grid.maximum_breakdown_width, 3);
    assert_eq!(
        grid.rows,
        rows_of(vec![HashMap::from([(
            0,
            Cell {
                column: 0,
                value: Value::String("abc".to_string()),
            }
        )])])
    );
    assert_eq!(grid.build_overflow_overrides(), HashMap::default());
}

#[test]
fn grid_add_breakdown_overflow() {
    // Setup
    let mut columns = Columns::default();
    columns.push(Column::breakdown(Alignment::Center));
    let mut grid = Grid::new(columns);
    let mut row = Row::default();
    row.push(Value::Overflow("abc".to_string()));

    // Execute
    grid.add(row);

    // Verify
    assert!(grid.overflows.is_empty());
    assert!(grid.breakdown_values.is_empty());
    assert_eq!(grid.minimum_breakdown_width, 3);
    assert_eq!(grid.maximum_breakdown_width, 3);
    assert_eq!(
        grid.rows,
        rows_of(vec![HashMap::from([(
            0,
            Cell {
                column: 0,
                value: Value::Overflow("abc".to_string()),
            }
        )])])
    );
    assert_eq!(grid.build_overflow_overrides(), HashMap::default());
}

#[test]
fn grid_add_breakdown_plain() {
    // Setup
    let mut columns = Columns::default();
    columns.push(Column::breakdown(Alignment::Center));
    let mut grid = Grid::new(columns);
    let mut row = Row::default();
    row.push(Value::Plain("abc".to_string()));

    // Execute
    grid.add(row);

    // Verify
    assert!(grid.overflows.is_empty());
    assert!(grid.breakdown_values.is_empty());
    assert_eq!(grid.minimum_breakdown_width, 18446744073709551615);
    assert_eq!(grid.maximum_breakdown_width, 0);
    assert_eq!(
        grid.rows,
        rows_of(vec![HashMap::from([(
            0,
            Cell {
                column: 0,
                value: Value::Plain("abc".to_string()),
            }
        )])])
    );
    assert_eq!(grid.build_overflow_overrides(), HashMap::default());
}

#[test]
fn grid_add_breakdown_empty() {
    // Setup
    let mut columns = Columns::default();
    columns.push(Column::breakdown(Alignment::Center));
    let mut grid = Grid::new(columns);
    let mut row = Row::default();
    row.push(Value::Empty);

    // Execute
    grid.add(row);

    // Verify
    assert!(grid.overflows.is_empty());
    assert!(grid.breakdown_values.is_empty());
    assert_eq!(grid.minimum_breakdown_width, 0);
    assert_eq!(grid.maximum_breakdown_width, 0);
    assert_eq!(
        grid.rows,
        rows_of(vec![HashMap::from([(
            0,
            Cell {
                column: 0,
                value: Value::Empty,
            }
        )])])
    );
    assert_eq!(grid.build_overflow_overrides(), HashMap::default());
}

#[test]
fn grid_add_breakdown_skip() {
    // Setup
    let mut columns = Columns::default();
    columns.push(Column::breakdown(Alignment::Center));
    let mut grid = Grid::new(columns);
    let mut row = Row::default();
    row.push(Value::Skip);

    // Execute
    grid.add(row);

    // Verify
    assert!(grid.overflows.is_empty());
    assert!(grid.breakdown_values.is_empty());
    assert_eq!(grid.minimum_breakdown_width, 18446744073709551615);
    assert_eq!(grid.maximum_breakdown_width, 0);
    assert_eq!(
        grid.rows,
        rows_of(vec![HashMap::from([(
            0,
            Cell {
                column: 0,
                value: Value::Skip,
            }
        )])])
    );
    assert_eq!(grid.build_overflow_overrides(), HashMap::default());
}

#[test]
fn grid_add_breakdown_value() {
    // Setup
    let mut columns = Columns::default();
    columns.push(Column::breakdown(Alignment::Center));
    let mut grid = Grid::new(columns);
    let mut row = Row::default();
    row.push(Value::Value(0));

    // Execute
    grid.add(row);

    // Verify
    assert!(grid.overflows.is_empty());
    assert!(grid.breakdown_values.is_empty());
    assert_eq!(grid.minimum_breakdown_width, 18446744073709551615);
    assert_eq!(grid.maximum_breakdown_width, 0);
    assert_eq!(
        grid.rows,
        rows_of(vec![HashMap::from([(
            0,
            Cell {
                column: 0,
                value: Value::Value(0),
            }
        )])])
    );
    assert_eq!(grid.build_overflow_overrides(), HashMap::default());
}


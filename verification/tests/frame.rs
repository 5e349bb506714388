use flat::config::{DagChartConfig, HistogramConfig, PathChartConfig};
use flat::dag::{dag_frame, dag_positions, DagValues, Position};
use flat::frame::{grid_of, value_range, Aggregated};
use flat::histogram::histogram_frame;
use flat::path::{path_frame, path_rows};
use flat::render::{Columns, Flat, Render, Row};

fn strings(values: &[&str]) -> Vec<String> {
    values.iter().map(|v| v.to_string()).collect()
}

fn paths(values: &[&[&str]]) -> Vec<Vec<String>> {
    values.iter().map(|p| strings(p)).collect()
}

fn finish<C>(render: Render<C>, frame: (Columns, Vec<Row>)) -> String {
    let (columns, rows) = frame;
    let range = value_range(&rows);
    let grid = grid_of(columns, rows).expect("rows fit the columns");
    assert!(grid.fits());
    let flat = Flat::new(render, range, grid);
    flat.render_text()
}

fn single(value: i64) -> DagValues {
    DagValues {
        values: vec![value],
        total: String::new(),
        partials: vec![],
    }
}

fn animals() -> Vec<Vec<String>> {
    paths(&[
        &["whale", "large"],
        &["shark", "medium"],
        &["shark", "small"],
        &["tiger", "medium"],
        &["tiger", "medium"],
        &["tiger", "small"],
    ])
}

#[test]
fn dag_positions_collapse_shared_parts() {
    let data = animals();
    let rows = paths(&[
        &["shark", "medium"],
        &["shark", "small"],
        &["tiger", "medium"],
        &["tiger", "small"],
        &["whale", "large"],
    ]);
    let positions = dag_positions(&data, &rows).unwrap();
    assert_eq!(
        positions,
        vec![
            vec![Position::At, Position::At],
            vec![Position::Below, Position::At],
            vec![Position::At, Position::At],
            vec![Position::Below, Position::At],
            vec![Position::At, Position::At],
        ]
    );
}

#[test]
fn dag_positions_refuse_unknown_rows() {
    let data = animals();
    let rows = paths(&[&["zebra", "large"]]);
    assert_eq!(dag_positions(&data, &rows), None);
}

#[test]
fn dag_positions_middle_of_three() {
    let data = paths(&[&["a", "x"], &["a", "y"], &["a", "z"]]);
    let positions = dag_positions(&data, &data).unwrap();
    assert_eq!(
        positions.iter().map(|p| p[0]).collect::<Vec<_>>(),
        vec![Position::Above, Position::At, Position::Below]
    );
}

#[test]
fn dag_chart_of_counts() {
    let render: Render<DagChartConfig> = Render::default();
    let rows = paths(&[
        &["shark", "medium"],
        &["shark", "small"],
        &["tiger", "medium"],
        &["tiger", "small"],
        &["whale", "large"],
    ]);
    let aggregates = vec![single(2), single(2), single(3), single(3), single(1)];
    let frame = dag_frame(
        &render,
        &strings(&["Animal", "Size"]),
        &None,
        &"Count".to_string(),
        &vec![],
        &animals(),
        &rows,
        &aggregates,
    )
    .unwrap();
    assert_eq!(
        finish(render, frame),
        "Size      Animal  |Sum(Count)
medium  - shark   |**
small   ┘
medium  - tiger   |***
small   ┘
large   - whale   |*"
    );
}

#[test]
fn dag_chart_of_counts_broken_down() {
    let render: Render<DagChartConfig> = Render::default();
    let data = paths(&[&["1"], &["2"], &["3"]]);
    let aggregates = vec![
        DagValues {
            values: vec![1, 0, 0],
            total: String::new(),
            partials: vec![],
        },
        DagValues {
            values: vec![0, 1, 0],
            total: String::new(),
            partials: vec![],
        },
        DagValues {
            values: vec![0, 0, 1],
            total: String::new(),
            partials: vec![],
        },
    ];
    let frame = dag_frame(
        &render,
        &strings(&["abc"]),
        &Some("something long".to_string()),
        &"Count".to_string(),
        &strings(&["2", "3", "4"]),
        &data,
        &data,
        &aggregates,
    )
    .unwrap();
    assert_eq!(
        finish(render, frame),
        "      something long
      Sum(Count)
abc  |2 3 4|
1    |*    |
2    |  *  |
3    |    *|"
    );
}

#[test]
fn path_rows_walk_the_tree() {
    let rows = path_rows(&animals());
    assert_eq!(
        rows,
        paths(&[
            &["shark"],
            &["shark", "medium"],
            &["shark", "small"],
            &["tiger"],
            &["tiger", "medium"],
            &["tiger", "small"],
            &["whale"],
            &["whale", "large"],
        ])
    );
}

#[test]
fn path_chart_of_counts() {
    let render: Render<PathChartConfig> = Render::default();
    let rows = path_rows(&animals());
    let aggregates: Vec<Aggregated> = rows
        .iter()
        .map(|p| {
            let value = match p[0].as_str() {
                "shark" => 2,
                "tiger" => 3,
                _ => 1,
            };
            Aggregated {
                values: vec![value],
                total: String::new(),
            }
        })
        .collect();
    let frame = path_frame(
        &render,
        &strings(&["Animal", "Size"]),
        &None,
        &"Count".to_string(),
        &vec![],
        &rows,
        &aggregates,
    );
    assert_eq!(
        finish(render, frame),
        "/Animal /Size  |Sum(Count)
/shark         |**
  /medium
  /small
/tiger         |***
  /medium
  /small
/whale         |*
  /large"
    );
}

#[test]
fn path_chart_with_aggregates() {
    let render: Render<PathChartConfig> = Render {
        show_aggregate: true,
        ..Render::default()
    };
    let data = paths(&[
        &["a1", "b1", "c1"],
        &["a1", "b1", "c2"],
        &["a1", "b1", "c3"],
        &["a1", "b2", "c3"],
    ]);
    let rows = path_rows(&data);
    let aggregates: Vec<Aggregated> = rows
        .iter()
        .map(|p| {
            let under = data.iter().filter(|d| d.starts_with(p)).count();
            Aggregated {
                values: vec![under as i64],
                total: under.to_string(),
            }
        })
        .collect();
    let frame = path_frame(
        &render,
        &strings(&["A", "B", "C"]),
        &None,
        &"Count".to_string(),
        &vec![],
        &rows,
        &aggregates,
    );
    assert_eq!(
        finish(render, frame),
        "/A /B /C Sum  |Sum(Count)
/a1      [4]  |****
  /b1    [3]
    /c1  [1]
    /c2  [1]
    /c3  [1]
  /b2    [1]
    /c3  [1]"
    );
}

#[test]
fn path_chart_broken_down() {
    let render: Render<PathChartConfig> = Render::default();
    let data = paths(&[&["1"], &["2"], &["3"]]);
    let rows = path_rows(&data);
    let aggregates = vec![
        Aggregated {
            values: vec![2, 0, 0],
            total: String::new(),
        },
        Aggregated {
            values: vec![0, 3, 0],
            total: String::new(),
        },
        Aggregated {
            values: vec![0, 0, 4],
            total: String::new(),
        },
    ];
    let frame = path_frame(
        &render,
        &strings(&["abc"]),
        &Some("something long".to_string()),
        &"something long".to_string(),
        &strings(&["2", "3", "4"]),
        &rows,
        &aggregates,
    );
    assert_eq!(
        finish(render, frame),
        "       Sum(something long)
/abc  | 2    3    4  |
/1    | **           |
/2    |     ***      |
/3    |          ****|"
    );
}

#[test]
fn histogram_of_counts() {
    let render: Render<HistogramConfig> = Render::default();
    let aggregates = vec![
        Aggregated {
            values: vec![2],
            total: String::new(),
        },
        Aggregated {
            values: vec![1],
            total: String::new(),
        },
    ];
    let frame = histogram_frame(
        &render,
        &"Things".to_string(),
        false,
        &"Count".to_string(),
        &vec![],
        &strings(&["[0, 1)", "[1, 2]"]),
        &aggregates,
    );
    assert_eq!(
        finish(render, frame),
        "Things  |Sum(Count)
[0, 1)  |**
[1, 2]  |*"
    );
}

#[test]
fn value_range_spans_rendered_values() {
    let render: Render<HistogramConfig> = Render::default();
    let aggregates = vec![
        Aggregated {
            values: vec![-3, 7],
            total: String::new(),
        },
        Aggregated {
            values: vec![2, 0],
            total: String::new(),
        },
    ];
    let (_, rows) = histogram_frame(
        &render,
        &"k".to_string(),
        true,
        &"v".to_string(),
        &strings(&["x", "y"]),
        &strings(&["a", "b"]),
        &aggregates,
    );
    assert_eq!(value_range(&rows), -3..7);
    assert_eq!(value_range(&vec![]), 0..0);
}

#[test]
fn grid_of_refuses_rows_wider_than_the_columns() {
    let render: Render<HistogramConfig> = Render::default();
    let aggregates = vec![Aggregated {
        values: vec![1, 2, 3],
        total: String::new(),
    }];
    let (_, rows) = histogram_frame(
        &render,
        &"k".to_string(),
        true,
        &"v".to_string(),
        &strings(&["x", "y", "z"]),
        &strings(&["a"]),
        &aggregates,
    );
    let (narrow, _) = histogram_frame(
        &render,
        &"k".to_string(),
        false,
        &"v".to_string(),
        &vec![],
        &vec![],
        &vec![],
    );
    assert!(grid_of(narrow, rows).is_none());
}

#[test]
fn dag_positions_middle_of_four() {
    let data = paths(&[&["a", "w"], &["a", "x"], &["a", "y"], &["a", "z"]]);
    let positions = dag_positions(&data, &data).unwrap();
    assert_eq!(
        positions.iter().map(|p| p[0]).collect::<Vec<_>>(),
        vec![Position::Above, Position::At, Position::Below, Position::Below]
    );
    assert!(positions.iter().all(|p| p[1] == Position::At));
}

fn lengths() -> Vec<Vec<String>> {
    let mut data = paths(&[&["whale", "4"], &["shark", "4"]]);
    for _ in 0..3 {
        data.push(strings(&["shark", "1"]));
    }
    data.push(strings(&["tiger", "4"]));
    for _ in 0..3 {
        data.push(strings(&["tiger", "5"]));
    }
    for _ in 0..3 {
        data.push(strings(&["tiger", "1"]));
    }
    data
}

fn lengths_frame(render: &Render<DagChartConfig>) -> (Columns, Vec<Row>) {
    let rows = paths(&[
        &["shark", "1"],
        &["shark", "4"],
        &["tiger", "1"],
        &["tiger", "4"],
        &["tiger", "5"],
        &["whale", "4"],
    ]);
    let aggregates = vec![single(4), single(4), single(7), single(7), single(7), single(1)];
    dag_frame(
        render,
        &strings(&["animal", "length"]),
        &None,
        &"Count".to_string(),
        &vec![],
        &lengths(),
        &rows,
        &aggregates,
    )
    .unwrap()
}

#[test]
fn dag_chart_of_lengths() {
    let render: Render<DagChartConfig> = Render::default();
    let frame = lengths_frame(&render);
    assert_eq!(
        finish(render, frame),
        "length    animal  |Sum(Count)
1       - shark   |****
4       ┘
1       ┐
4       - tiger   |*******
5       ┘
4       - whale   |*"
    );
}

#[test]
fn dag_chart_of_lengths_squished() {
    let render: Render<DagChartConfig> = Render {
        width_hint: 17,
        ..Render::default()
    };
    let frame = lengths_frame(&render);
    assert_eq!(
        finish(render, frame),
        "length    animal  |Sum(Count)
1       - shark   |*
4       ┘
1       ┐
4       - tiger   |**
5       ┘
4       - whale   |"
    );
}

#[test]
fn dag_chart_without_data() {
    let render: Render<DagChartConfig> = Render::default();
    let frame = dag_frame(
        &render,
        &strings(&["abc"]),
        &None,
        &"abc".to_string(),
        &vec![],
        &vec![],
        &vec![],
        &vec![],
    )
    .unwrap();
    assert_eq!(finish(render, frame), "abc  |Sum(abc)");
}

#[test]
fn histogram_of_signed_values() {
    let render: Render<HistogramConfig> = Render::default();
    let aggregates: Vec<Aggregated> = [-1, 0, 1]
        .iter()
        .map(|v| Aggregated {
            values: vec![*v],
            total: String::new(),
        })
        .collect();
    let frame = histogram_frame(
        &render,
        &"abc".to_string(),
        false,
        &"abc".to_string(),
        &vec![],
        &strings(&["[-1, 0)", "[0, 1)", "[1, 2]"]),
        &aggregates,
    );
    assert_eq!(
        finish(render, frame),
        "abc      |Sum(abc)
[-1, 0)  |⊖
[0, 1)   |
[1, 2]   |*"
    );
}

use flat::config::DagChartConfig;
use flat::dag::{dag_frame, DagValues};
use flat::frame::{grid_of, value_range};
use flat::render::{Flat, Render};

/// The text of a dag-chart that counts `data` (display paths, primary dimension first),
/// showing the aggregate of every level, as the dag-chart widget does.
fn count_chart(headers: &[&str], data: &[&[&str]]) -> String {
    let render: Render<DagChartConfig> = Render {
        show_aggregate: true,
        widget_config: DagChartConfig {
            show_aggregate: true,
            ..DagChartConfig::default()
        },
        ..Render::default()
    };
    let data_paths: Vec<Vec<String>> = data.iter().map(|p| p.iter().map(|s| s.to_string()).collect()).collect();
    let mut paths = data_paths.clone();
    paths.sort();
    paths.dedup();
    let count = |prefix: &[String]| -> usize {
        data_paths.iter().filter(|p| p.starts_with(prefix)).count()
    };
    let aggregates: Vec<DagValues> = paths
        .iter()
        .map(|path| {
            let total = count(&path[0..1]);
            DagValues {
                values: vec![total as i64],
                total: total.to_string(),
                partials: (0..path.len())
                    .map(|k| if k == 0 { String::new() } else { count(&path[0..k + 1]).to_string() })
                    .collect(),
            }
        })
        .collect();
    let headers: Vec<String> = headers.iter().map(|h| h.to_string()).collect();
    let (columns, rows) = dag_frame(
        &render,
        &headers,
        &None,
        &"Count".to_string(),
        &vec![],
        &data_paths,
        &paths,
        &aggregates,
    )
    .expect("every level occurs among the data");
    let range = value_range(&rows);
    let grid = grid_of(columns, rows).expect("rows fit the columns");
    Flat::new(render, range, grid).render_text()
}

#[test]
fn dag_model_depth_3_combo111() {
    assert_eq!(
        format!("\n{}", count_chart(&["A", "B", "C"], &[&["a1", "b1", "c1"]])),
        r#"
C  Sum   B  Sum   A  Sum  |Sum(Count)
c1 [1] - b1 [1] - a1 [1]  |*"#
    );
}

#[test]
fn dag_model_depth_3_combo211() {
    assert_eq!(
        format!(
            "\n{}",
            count_chart(&["A", "B", "C"], &[&["a1", "b1", "c1"], &["a1", "b1", "c2"]])
        ),
        r#"
C  Sum   B  Sum   A  Sum  |Sum(Count)
c1 [1] - b1 [2] - a1 [2]  |**
c2 [1] ┘"#
    );
}

#[test]
fn dag_model_depth_3_combo221() {
    assert_eq!(
        format!(
            "\n{}",
            count_chart(
                &["A", "B", "C"],
                &[&["a1", "b1", "c1"], &["a1", "b1", "c2"], &["a1", "b2", "c2"]]
            )
        ),
        r#"
C  Sum   B  Sum   A  Sum  |Sum(Count)
c1 [1] - b1 [2] ┐
c2 [1] ┘        - a1 [3]  |***
c2 [1] - b2 [1] ┘"#
    );
}

#[test]
fn dag_model_depth_3_combo221x() {
    assert_eq!(
        format!(
            "\n{}",
            count_chart(
                &["A", "B", "C"],
                &[&["a1", "b1", "c1"], &["a1", "b1", "c2"], &["a1", "b2", "c1"]]
            )
        ),
        r#"
C  Sum   B  Sum   A  Sum  |Sum(Count)
c1 [1] - b1 [2] ┐
c2 [1] ┘        - a1 [3]  |***
c1 [1] - b2 [1] ┘"#
    );
}

#[test]
fn dag_model_depth_3_combo311() {
    assert_eq!(
        format!(
            "\n{}",
            count_chart(
                &["A", "B", "C"],
                &[&["a1", "b1", "c1"], &["a1", "b1", "c2"], &["a1", "b1", "c3"]]
            )
        ),
        r#"
C  Sum   B  Sum   A  Sum  |Sum(Count)
c1 [1] ┐
c2 [1] - b1 [3] - a1 [3]  |***
c3 [1] ┘"#
    );
}

#[test]
fn dag_model_depth_3_combo321() {
    assert_eq!(
        format!(
            "\n{}",
            count_chart(
                &["A", "B", "C"],
                &[
                    &["a1", "b1", "c1"],
                    &["a1", "b1", "c2"],
                    &["a1", "b1", "c3"],
                    &["a1", "b2", "c3"]
                ]
            )
        ),
        r#"
C  Sum   B  Sum   A  Sum  |Sum(Count)
c1 [1] ┐
c2 [1] - b1 [3] - a1 [4]  |****
c3 [1] ┘
c3 [1] - b2 [1] ┘"#
    );
}

#[test]
fn dag_model_depth_3_combo321x() {
    assert_eq!(
        format!(
            "\n{}",
            count_chart(
                &["A", "B", "C"],
                &[
                    &["a1", "b1", "c1"],
                    &["a1", "b1", "c2"],
                    &["a1", "b1", "c3"],
                    &["a1", "b2", "c2"]
                ]
            )
        ),
        r#"
C  Sum   B  Sum   A  Sum  |Sum(Count)
c1 [1] ┐
c2 [1] - b1 [3] - a1 [4]  |****
c3 [1] ┘
c2 [1] - b2 [1] ┘"#
    );
}

#[test]
fn dag_model_depth_3_combo321y() {
    assert_eq!(
        format!(
            "\n{}",
            count_chart(
                &["A", "B", "C"],
                &[
                    &["a1", "b1", "c1"],
                    &["a1", "b1", "c2"],
                    &["a1", "b1", "c3"],
                    &["a1", "b2", "c1"]
                ]
            )
        ),
        r#"
C  Sum   B  Sum   A  Sum  |Sum(Count)
c1 [1] ┐
c2 [1] - b1 [3] - a1 [4]  |****
c3 [1] ┘
c1 [1] - b2 [1] ┘"#
    );
}

#[test]
fn dag_model_depth_3_combo331() {
    assert_eq!(
        format!(
            "\n{}",
            count_chart(
                &["A", "B", "C"],
                &[
                    &["a1", "b1", "c1"],
                    &["a1", "b1", "c2"],
                    &["a1", "b1", "c3"],
                    &["a1", "b2", "c1"],
                    &["a1", "b3", "c1"]
                ]
            )
        ),
        r#"
C  Sum   B  Sum   A  Sum  |Sum(Count)
c1 [1] ┐
c2 [1] - b1 [3] ┐
c3 [1] ┘        - a1 [5]  |*****
c1 [1] - b2 [1] ┘
c1 [1] - b3 [1] ┘"#
    );
}

/// The text of a dag-chart of one dimension, with default settings: `data` holds each data
/// point's key, breakdown heading and value; each row shows the sum of its values (one per
/// heading where there is a `breakdown_label`).
fn sum_chart(
    header: &str,
    breakdown_label: Option<&str>,
    value_label: &str,
    data: &[(&str, &str, f64)],
) -> String {
    let render: Render<DagChartConfig> = Render::default();
    let data_paths: Vec<Vec<String>> = data.iter().map(|d| vec![d.0.to_string()]).collect();
    let mut paths = data_paths.clone();
    paths.sort();
    paths.dedup();
    let mut headings: Vec<String> = data.iter().map(|d| d.1.to_string()).collect();
    headings.sort();
    headings.dedup();
    let sum = |key: &str, heading: &str| -> f64 {
        data.iter().filter(|d| d.0 == key && d.1 == heading).map(|d| d.2).sum()
    };
    let aggregates: Vec<DagValues> = paths
        .iter()
        .map(|path| DagValues {
            values: headings.iter().map(|h| sum(&path[0], h).round() as i64).collect(),
            total: String::new(),
            partials: vec![],
        })
        .collect();
    let (columns, rows) = dag_frame(
        &render,
        &vec![header.to_string()],
        &breakdown_label.map(|l| l.to_string()),
        &value_label.to_string(),
        &if breakdown_label.is_some() { headings.clone() } else { vec![] },
        &data_paths,
        &paths,
        &aggregates,
    )
    .expect("every level occurs among the data");
    let range = value_range(&rows);
    let grid = grid_of(columns, rows).expect("rows fit the columns");
    Flat::new(render, range, grid).render_text()
}

fn reflected(keys: &[&'static str]) -> Vec<(&'static str, &'static str, f64)> {
    keys.iter().map(|k| (*k, "", k.parse::<f64>().unwrap())).collect()
}

#[test]
fn dag_model_empty() {
    assert_eq!(
        format!("\n{}", sum_chart("abc", None, "abc", &[])),
        r#"
abc  |Sum(abc)"#
    );
}

#[test]
fn dag_model_zero() {
    assert_eq!(
        format!("\n{}", sum_chart("abc", None, "abc", &reflected(&["0"]))),
        r#"
abc  |Sum(abc)
0    |"#
    );
}

#[test]
fn dag_model_negatives_and_positives() {
    assert_eq!(
        format!("\n{}", sum_chart("abc", None, "abc", &reflected(&["-1", "0", "1"]))),
        r#"
abc  |Sum(abc)
-1   |⊖
0    |
1    |*"#
    );
}

#[test]
fn dag_model_one_thousand() {
    let keys = vec!["1"; 1_000];
    assert_eq!(
        format!("\n{}", sum_chart("abc", None, "abc", &reflected(&keys))),
        r#"
abc  |Sum(abc)
1    |**********************************************************************************************************************************************************"#
    );
}

#[test]
fn dag_model_negative_one_thousand() {
    let keys = vec!["-1"; 1_000];
    assert_eq!(
        format!("\n{}", sum_chart("abc", None, "abc", &reflected(&keys))),
        r#"
abc  |Sum(abc)
-1   |⊖⊖⊖⊖⊖⊖⊖⊖⊖⊖⊖⊖⊖⊖⊖⊖⊖⊖⊖⊖⊖⊖⊖⊖⊖⊖⊖⊖⊖⊖⊖⊖⊖⊖⊖⊖⊖⊖⊖⊖⊖⊖⊖⊖⊖⊖⊖⊖⊖⊖⊖⊖⊖⊖⊖⊖⊖⊖⊖⊖⊖⊖⊖⊖⊖⊖⊖⊖⊖⊖⊖⊖⊖⊖⊖⊖⊖⊖⊖⊖⊖⊖⊖⊖⊖⊖⊖⊖⊖⊖⊖⊖⊖⊖⊖⊖⊖⊖⊖⊖⊖⊖⊖⊖⊖⊖⊖⊖⊖⊖⊖⊖⊖⊖⊖⊖⊖⊖⊖⊖⊖⊖⊖⊖⊖⊖⊖⊖⊖⊖⊖⊖⊖⊖⊖⊖⊖⊖⊖⊖⊖⊖⊖⊖⊖⊖⊖⊖⊖⊖⊖⊖⊖⊖"#
    );
}

#[test]
fn dag_model_breakdown() {
    let data = [("1", "2", 2.0), ("2", "3", 3.0), ("3", "4", 4.0)];
    assert_eq!(
        format!("\n{}", sum_chart("abc", Some("something long"), "something long", &data)),
        r#"
      Sum(something long)
abc  | 2    3    4  |
1    | **           |
2    |     ***      |
3    |          ****|"#
    );
}

#[test]
fn dag_model_count_breakdown() {
    let data = [("1", "2", 1.0), ("2", "3", 1.0), ("3", "4", 1.0)];
    assert_eq!(
        format!("\n{}", sum_chart("abc", Some("something long"), "Count", &data)),
        r#"
      something long
      Sum(Count)
abc  |2 3 4|
1    |*    |
2    |  *  |
3    |    *|"#
    );
}

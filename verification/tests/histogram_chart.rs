use flat::bins::{bin_of, Bound, Bounds};
use flat::config::HistogramConfig;
use flat::frame::{grid_of, value_range, Aggregated};
use flat::histogram::{histogram_bins, histogram_frame};
use flat::render::{Flat, Render};

fn bin_label(bounds: &Bounds<i64>) -> String {
    let (lb, lv) = match &bounds.lower {
        Bound::Exclusive(v) => ("(", v),
        Bound::Inclusive(v) => ("[", v),
    };
    let (ub, uv) = match &bounds.upper {
        Bound::Exclusive(v) => (")", v),
        Bound::Inclusive(v) => ("]", v),
    };
    format!("{}{}, {}{}", lb, lv, uv, ub)
}

/// The text of a histogram of `data` (key, breakdown heading, value), summing the values of
/// each bin and heading, as the histogram widget does.
fn histogram_text(
    header: &str,
    value_header: &str,
    data: &[(i64, &str, f64)],
    bins: usize,
    breakdown: bool,
) -> String {
    let render: Render<HistogramConfig> = Render::default();
    let count = std::cmp::max(bins, 1);
    let keys: Vec<i64> = data.iter().map(|d| d.0).collect();
    let ranges = histogram_bins(&keys, count).expect("the bins fit");
    let mut headings: Vec<String> = Vec::new();
    for d in data {
        if !headings.contains(&d.1.to_string()) {
            headings.push(d.1.to_string());
        }
    }
    headings.sort();
    let mut sums = vec![vec![0.0f64; headings.len()]; ranges.len()];
    for d in data {
        let bin = bin_of(&ranges, &d.0).expect("every key has a bin");
        let h = headings.iter().position(|x| x == d.1).unwrap();
        sums[bin][h] += d.2;
    }
    let aggregates: Vec<Aggregated> = sums
        .iter()
        .map(|s| Aggregated {
            values: s.iter().map(|v| v.round() as i64).collect(),
            total: String::new(),
        })
        .collect();
    let labels: Vec<String> = ranges.iter().map(bin_label).collect();
    let (columns, rows) = histogram_frame(
        &render,
        &header.to_string(),
        breakdown,
        &value_header.to_string(),
        &headings,
        &labels,
        &aggregates,
    );
    let range = value_range(&rows);
    let grid = grid_of(columns, rows).expect("rows fit the columns");
    Flat::new(render, range, grid).render_text()
}

/// The reflective view: each key counts as its own value.
fn reflective(keys: &[i64]) -> Vec<(i64, &'static str, f64)> {
    keys.iter().map(|k| (*k, "", *k as f64)).collect()
}

#[test]
fn histogram_model_empty() {
    assert_eq!(
        format!("\n{}", histogram_text("abc", "abc", &[], 0, false)),
        r#"
abc  |Sum(abc)"#
    );
}

#[test]
fn zero_buckets() {
    assert_eq!(
        format!("\n{}", histogram_text("abc", "abc", &reflective(&[1, 2, 3]), 0, false)),
        r#"
abc     |Sum(abc)
[1, 3]  |******"#
    );
}

#[test]
fn one_bucket() {
    assert_eq!(
        format!("\n{}", histogram_text("abc", "abc", &reflective(&[1, 2, 3]), 1, false)),
        r#"
abc     |Sum(abc)
[1, 3]  |******"#
    );
}

#[test]
fn extra_buckets() {
    assert_eq!(
        format!("\n{}", histogram_text("abc", "abc", &reflective(&[1]), 2, false)),
        r#"
abc     |Sum(abc)
[1, 1]  |*"#
    );
}

#[test]
fn histogram_model_zero() {
    assert_eq!(
        format!("\n{}", histogram_text("abc", "abc", &reflective(&[0]), 1, false)),
        r#"
abc     |Sum(abc)
[0, 0]  |"#
    );
}

#[test]
fn negative_and_positive() {
    assert_eq!(
        format!("\n{}", histogram_text("abc", "abc", &reflective(&[-1, 0, 1]), 3, false)),
        r#"
abc      |Sum(abc)
[-1, 0)  |⊖
[0, 1)   |
[1, 2]   |*"#
    );
}

#[test]
fn histogram_model_one_thousand() {
    let keys = vec![1i64; 1_000];
    assert_eq!(
        format!("\n{}", histogram_text("abc", "abc", &reflective(&keys), 1, false)),
        r#"
abc     |Sum(abc)
[1, 1]  |*******************************************************************************************************************************************************"#
    );
}

#[test]
fn histogram_model_negative_one_thousand() {
    let keys = vec![-1i64; 1_000];
    assert_eq!(
        format!("\n{}", histogram_text("abc", "abc", &reflective(&keys), 3, false)),
        r#"
abc       |Sum(abc)
[-1, -1]  |⊖⊖⊖⊖⊖⊖⊖⊖⊖⊖⊖⊖⊖⊖⊖⊖⊖⊖⊖⊖⊖⊖⊖⊖⊖⊖⊖⊖⊖⊖⊖⊖⊖⊖⊖⊖⊖⊖⊖⊖⊖⊖⊖⊖⊖⊖⊖⊖⊖⊖⊖⊖⊖⊖⊖⊖⊖⊖⊖⊖⊖⊖⊖⊖⊖⊖⊖⊖⊖⊖⊖⊖⊖⊖⊖⊖⊖⊖⊖⊖⊖⊖⊖⊖⊖⊖⊖⊖⊖⊖⊖⊖⊖⊖⊖⊖⊖⊖⊖⊖⊖⊖⊖⊖⊖⊖⊖⊖⊖⊖⊖⊖⊖⊖⊖⊖⊖⊖⊖⊖⊖⊖⊖⊖⊖⊖⊖⊖⊖⊖⊖⊖⊖⊖⊖⊖⊖⊖⊖⊖⊖⊖⊖⊖⊖⊖⊖⊖⊖"#
    );
}

#[test]
fn histogram_model_view2() {
    let data = [(1i64, "0.1", 0.1f64), (2, "0.2", 0.2), (3, "0.3", 0.3)];
    let values: Vec<(i64, &str, f64)> = data.iter().map(|d| (d.0, "", d.2)).collect();
    assert_eq!(
        format!("\n{}", histogram_text("abc", "def", &values, 1, false)),
        r#"
abc     |Sum(def)
[1, 3]  |*"#
    );

    let counts: Vec<(i64, &str, f64)> = data.iter().map(|d| (d.0, "", 1.0)).collect();
    assert_eq!(
        format!("\n{}", histogram_text("abc", "Count", &counts, 1, false)),
        r#"
abc     |Sum(Count)
[1, 3]  |***"#
    );

    let broken_down: Vec<(i64, &str, f64)> = data.iter().map(|d| (d.0, d.1, 1.0)).collect();
    assert_eq!(
        format!("\n{}", histogram_text("abc", "Breakdown(def)", &broken_down, 1, true)),
        r#"
         Sum(Breakdown(def))
abc     |0.1 0.2 0.3|
[1, 3]  | *   *   * |"#
    );
}

#[test]
fn histogram_model_breakdown() {
    let data = [(1i64, "2", 1.0f64), (2, "3", 1.0), (3, "4", 1.0)];
    assert_eq!(
        format!("\n{}", histogram_text("abc", "Breakdown(something long)", &data, 3, true)),
        r#"
         Sum(Breakdown(something long))
abc     |2 3 4|
[1, 2)  |*    |
[2, 3)  |  *  |
[3, 4]  |    *|"#
    );
}

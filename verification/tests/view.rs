use flat::dataset::Dataset;
use flat::schema::{Schema1, Schema2, Schema3, Schema4, Schemas};
use flat::view::View;
use flat::Nothing;

#[test]
fn view1_reflective() {
    let schema: Schema1<i64> = Schemas::one("abc");
    let dataset = Dataset::builder(schema)
        .add((1,))
        .add((2,))
        .add((3,))
        .build();
    let view = dataset.reflect_1st();
    assert_eq!(view.primary_dim(&(2,)), 2);
    assert_eq!(view.breakdown_dim(&(2,)), Nothing);
    assert_eq!(view.display_dims(&(2,)), (2,));
    assert_eq!(view.display_headers(), vec!["abc".to_string()]);
    assert_eq!(view.value_header(), "abc".to_string());
    assert_eq!(view.is_breakdown(), false);
}

#[test]
fn view1_counting() {
    let schema: Schema1<i64> = Schemas::one("abc");
    let dataset = Dataset::builder(schema)
        .add((1,))
        .add((2,))
        .add((3,))
        .build();
    let view = dataset.count();
    assert_eq!(view.primary_dim(&(2,)), 2);
    assert_eq!(view.breakdown_dim(&(2,)), Nothing);
    assert_eq!(view.display_dims(&(2,)), (2,));
    assert_eq!(view.display_headers(), vec!["abc".to_string()]);
    assert_eq!(view.value_header(), "Count".to_string());
    assert_eq!(view.is_breakdown(), false);
}

#[test]
fn view2_reflective() {
    let schema: Schema2<i64, f64> = Schemas::two("abc", "def");
    let dataset = Dataset::builder(schema)
        .add((1, 0.1))
        .add((2, 0.2))
        .add((3, 0.3))
        .build();
    let view = dataset.reflect_2nd();
    assert_eq!(view.primary_dim(&(2, 0.2)), 2);
    assert_eq!(view.breakdown_dim(&(2, 0.2)), Nothing);
    assert_eq!(view.display_dims(&(2, 0.2)), (2, 0.2));
    assert_eq!(
        view.display_headers(),
        vec!["abc".to_string(), "def".to_string()]
    );
    assert_eq!(view.value_header(), "def".to_string());
    assert_eq!(view.is_breakdown(), false);
}

#[test]
fn view2_counting() {
    let schema: Schema2<i64, f64> = Schemas::two("abc", "def");
    let dataset = Dataset::builder(schema)
        .add((1, 0.1))
        .add((2, 0.2))
        .add((3, 0.3))
        .build();
    let view = dataset.count();
    assert_eq!(view.primary_dim(&(2, 0.2)), 2);
    assert_eq!(view.breakdown_dim(&(2, 0.2)), Nothing);
    assert_eq!(view.display_dims(&(2, 0.2)), (2, 0.2));
    assert_eq!(
        view.display_headers(),
        vec!["abc".to_string(), "def".to_string()]
    );
    assert_eq!(view.value_header(), "Count".to_string());
    assert_eq!(view.is_breakdown(), false);
}

#[test]
fn view2_2nd() {
    let schema: Schema2<i64, f64> = Schemas::two("abc", "def");
    let dataset = Dataset::builder(schema)
        .add((1, 0.1))
        .add((2, 0.2))
        .add((3, 0.3))
        .build();
    let view = dataset.view_2nd();
    assert_eq!(view.primary_dim(&(2, 0.2)), 2);
    assert_eq!(view.breakdown_dim(&(2, 0.2)), Nothing);
    assert_eq!(view.display_dims(&(2, 0.2)), (2,));
    assert_eq!(view.display_headers(), vec!["abc".to_string()]);
    assert_eq!(view.value_header(), "def".to_string());
    assert_eq!(view.is_breakdown(), false);
}

#[test]
fn view2_breakdown2nd() {
    let schema: Schema2<i64, &str> = Schemas::two("abc", "def");
    let dataset = Dataset::builder(schema)
        .add((1, "a"))
        .add((2, "b"))
        .add((3, "c"))
        .build();
    let view = dataset.breakdown_2nd();
    assert_eq!(view.primary_dim(&(2, "b")), 2);
    assert_eq!(view.breakdown_dim(&(2, "b")), "b");
    assert_eq!(view.display_dims(&(2, "b")), (2,));
    assert_eq!(view.display_headers(), vec!["abc".to_string()]);
    assert_eq!(view.value_header(), "Breakdown(def)".to_string());
    assert_eq!(view.is_breakdown(), true);
}

#[test]
fn view2_count_breakdown2nd() {
    let schema: Schema2<i64, &str> = Schemas::two("abc", "def");
    let dataset = Dataset::builder(schema).add((1, "a")).add((2, "b")).build();
    let view = dataset.count_breakdown_2nd();
    assert_eq!(view.primary_dim(&(2, "b")), 2);
    assert_eq!(view.breakdown_dim(&(2, "b")), "b");
    assert_eq!(view.display_dims(&(2, "b")), (2,));
    assert_eq!(view.display_headers(), vec!["abc".to_string()]);
    assert_eq!(view.is_breakdown(), true);
    assert_eq!(view.data().len(), 2);
}

#[test]
fn view3_reflective() {
    let schema: Schema3<u64, bool, f64> = Schemas::three("abc", "def", "ghi");
    let dataset = Dataset::builder(schema)
        .add((1, true, 0.1))
        .add((2, false, 0.2))
        .add((3, true, 0.3))
        .build();
    let view = dataset.reflect_3rd();
    assert_eq!(view.primary_dim(&(2, false, 0.2)), 2);
    assert_eq!(view.breakdown_dim(&(2, false, 0.2)), Nothing);
    assert_eq!(view.display_dims(&(2, false, 0.2)), (2, false, 0.2));
    assert_eq!(
        view.display_headers(),
        vec!["abc".to_string(), "def".to_string(), "ghi".to_string()]
    );
    assert_eq!(view.value_header(), "ghi".to_string());
    assert_eq!(view.is_breakdown(), false);
}

#[test]
fn view3_counting() {
    let schema: Schema3<u64, bool, f64> = Schemas::three("abc", "def", "ghi");
    let dataset = Dataset::builder(schema)
        .add((1, true, 0.1))
        .add((2, false, 0.2))
        .add((3, true, 0.3))
        .build();
    let view = dataset.count();
    assert_eq!(view.primary_dim(&(2, false, 0.2)), 2);
    assert_eq!(view.breakdown_dim(&(2, false, 0.2)), Nothing);
    assert_eq!(view.display_dims(&(2, false, 0.2)), (2, false, 0.2));
    assert_eq!(
        view.display_headers(),
        vec!["abc".to_string(), "def".to_string(), "ghi".to_string()]
    );
    assert_eq!(view.value_header(), "Count".to_string());
    assert_eq!(view.is_breakdown(), false);
}

#[test]
fn view3_3rd() {
    let schema: Schema3<u64, bool, f64> = Schemas::three("abc", "def", "ghi");
    let dataset = Dataset::builder(schema)
        .add((1, true, 0.1))
        .add((2, false, 0.2))
        .add((3, true, 0.3))
        .build();
    let view = dataset.view_3rd();
    assert_eq!(view.primary_dim(&(2, false, 0.2)), 2);
    assert_eq!(view.breakdown_dim(&(2, false, 0.2)), Nothing);
    assert_eq!(view.display_dims(&(2, false, 0.2)), (2, false));
    assert_eq!(
        view.display_headers(),
        vec!["abc".to_string(), "def".to_string()]
    );
    assert_eq!(view.value_header(), "ghi".to_string());
    assert_eq!(view.is_breakdown(), false);
}

#[test]
fn view3_breakdown_2nd() {
    let schema: Schema3<u64, &str, bool> = Schemas::three("abc", "def", "ghi");
    let dataset = Dataset::builder(schema)
        .add((1, "a", true))
        .add((2, "b", false))
        .add((3, "c", true))
        .build();
    let view = dataset.breakdown_2nd_view_3rd();
    assert_eq!(view.primary_dim(&(2, "b", false)), 2);
    assert_eq!(view.breakdown_dim(&(2, "b", false)), "b");
    assert_eq!(view.display_dims(&(2, "b", false)), (2, false));
    assert_eq!(
        view.display_headers(),
        vec!["abc".to_string(), "ghi".to_string()]
    );
    assert_eq!(view.value_header(), "Breakdown(def)".to_string());
    assert_eq!(view.is_breakdown(), true);
}

#[test]
fn view3_breakdown_3rd() {
    let schema: Schema3<u64, f32, bool> = Schemas::three("abc", "def", "ghi");
    let dataset = Dataset::builder(schema)
        .add((1, 0.1, true))
        .add((2, 0.2, false))
        .add((3, 0.3, true))
        .build();
    let view = dataset.breakdown_3rd();
    assert_eq!(view.primary_dim(&(2, 0.2, false)), 2);
    assert_eq!(view.breakdown_dim(&(2, 0.2, false)), false);
    assert_eq!(view.display_dims(&(2, 0.2, false)), (2, 0.2));
    assert_eq!(
        view.display_headers(),
        vec!["abc".to_string(), "def".to_string()]
    );
    assert_eq!(view.value_header(), "Breakdown(ghi)".to_string());
    assert_eq!(view.is_breakdown(), true);
}

#[test]
fn view4_views() {
    let schema: Schema4<u8, &str, bool, i32> = Schemas::four("a", "b", "c", "d");
    let dataset = Dataset::builder(schema).add((1, "x", true, -4)).build();
    let full = dataset.reflect_4th();
    assert_eq!(full.display_dims(&(1, "x", true, -4)), (1, "x", true, -4));
    assert_eq!(full.value_header(), "d".to_string());
    let regular = dataset.view_4th();
    assert_eq!(regular.display_dims(&(1, "x", true, -4)), (1, "x", true));
    assert_eq!(regular.value_header(), "d".to_string());
    let breakdown = dataset.breakdown_4th();
    assert_eq!(breakdown.breakdown_dim(&(1, "x", true, -4)), -4);
    assert_eq!(breakdown.value_header(), "Breakdown(d)".to_string());
    assert_eq!(breakdown.is_breakdown(), true);
    let mixed = dataset.breakdown_3rd_view_4th();
    assert_eq!(mixed.breakdown_dim(&(1, "x", true, -4)), true);
    assert_eq!(mixed.display_dims(&(1, "x", true, -4)), (1, "x", -4));
    assert_eq!(
        mixed.display_headers(),
        vec!["a".to_string(), "b".to_string(), "d".to_string()]
    );
    let counting = dataset.count();
    assert_eq!(counting.value_header(), "Count".to_string());
    assert_eq!(counting.display_headers().len(), 4);
}

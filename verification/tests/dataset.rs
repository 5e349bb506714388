use flat::dataset::{Dataset, DatasetBuilder};
use flat::schema::{Schema1, Schema2, Schemas};
use flat::Dimensions;

#[test]
fn dataset_add() {
    let schema: Schema1<i64> = Schemas::one("abc");
    let dataset = DatasetBuilder::new(schema).add((1,)).add((2,)).add((3,));
    assert_eq!(dataset.data.len(), 3);
}

#[test]
fn dataset_update() {
    let schema: Schema1<i64> = Schemas::one("abc");
    let mut dataset = DatasetBuilder::new(schema);
    dataset.update((1,));
    dataset.update((2,));
    dataset.update((3,));
    assert_eq!(dataset.data.len(), 3);
}

#[test]
fn dataset_keeps_points_in_order() {
    let schema: Schema2<&str, u8> = Schemas::two("animal", "legs");
    let dataset = Dataset::builder(schema)
        .add(("whale", 0))
        .add(("tiger", 4))
        .add(("whale", 0))
        .build();
    assert_eq!(dataset.data(), &[("whale", 0), ("tiger", 4), ("whale", 0)]);
    assert_eq!(dataset.schema.dimension_0, "animal".to_string());
    assert_eq!(dataset.schema.dimension_1, "legs".to_string());
}

#[test]
fn dimensions_one() {
    let one = ("abc".to_string(),);
    assert_eq!(one.len(), 1);
    assert_eq!(one.as_strings(), vec!["abc".to_string()]);
}

#[test]
fn dimensions_two() {
    let two = ("abc".to_string(), 1);
    assert_eq!(two.len(), 2);
    assert_eq!(two.as_strings(), vec!["abc".to_string(), "1".to_string()]);
}

#[test]
fn dimensions_three() {
    let three = ("abc".to_string(), 1, true);
    assert_eq!(three.len(), 3);
    assert_eq!(
        three.as_strings(),
        vec!["abc".to_string(), "1".to_string(), "true".to_string()]
    );
}

#[test]
fn dimensions_four() {
    let four = ('x', 2.5, -3, "d");
    assert_eq!(four.len(), 4);
    assert_eq!(
        four.as_strings(),
        vec!["x".to_string(), "2.5".to_string(), "-3".to_string(), "d".to_string()]
    );
}

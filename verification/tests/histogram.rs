use flat::bins::{bin_of, Bound, Bounds};
use flat::histogram::{histogram_bins, Binnable};

#[test]
fn binnable_i64() {
    assert_eq!(0i64.multiply(0), 0);
    assert_eq!(1i64.multiply(0), 0);
    assert_eq!(2i64.multiply(0), 0);

    assert_eq!(0i64.multiply(1), 0);
    assert_eq!(1i64.multiply(1), 1);
    assert_eq!(2i64.multiply(1), 2);

    assert_eq!(0i64.divide(1), 0);
    assert_eq!(1i64.divide(1), 1);
    assert_eq!(2i64.divide(1), 2);

    assert_eq!(0i64.divide(2), 0);
    assert_eq!(1i64.divide(2), 1);
    assert_eq!(2i64.divide(2), 1);
}

#[test]
fn binnable_rounds_up() {
    assert_eq!(7u8.divide(2), 4);
    assert_eq!(7i32.divide(3), 3);
    assert_eq!((-7i32).divide(2), -3);
    assert_eq!((-1i16).divide(4), 0);
    assert_eq!(10usize.divide(5), 2);
    assert_eq!(11u64.divide(5), 3);
    assert_eq!((-6isize).multiply(3), -18);
}

#[test]
fn binnable_saturates() {
    assert_eq!(200u8.multiply(2), u8::MAX);
    assert_eq!((-100i8).multiply(2), i8::MIN);
    assert_eq!(i64::MAX.multiply(2), i64::MAX);
    assert_eq!(5u32.divide(0), u32::MAX);
    assert_eq!((-5i32).divide(0), i32::MIN);
    assert_eq!(0i16.divide(0), 0);
}

#[test]
fn bounds_contain() {
    let closed = Bounds {
        lower: Bound::Inclusive(1),
        upper: Bound::Inclusive(3),
    };
    assert!(closed.contains(&1));
    assert!(closed.contains(&3));
    assert!(!closed.contains(&4));
    let open = Bounds {
        lower: Bound::Exclusive(1),
        upper: Bound::Exclusive(3),
    };
    assert!(!open.contains(&1));
    assert!(open.contains(&2));
    assert!(!open.contains(&3));
    assert!(Bound::Inclusive(2).left_of(&2));
    assert!(!Bound::Exclusive(2).left_of(&2));
    assert!(Bound::Inclusive(2).right_of(&2));
    assert!(!Bound::Exclusive(2).right_of(&2));
}

#[test]
fn bin_of_finds_first_bin() {
    let bins = vec![
        Bounds {
            lower: Bound::Inclusive(0),
            upper: Bound::Exclusive(5),
        },
        Bounds {
            lower: Bound::Inclusive(5),
            upper: Bound::Inclusive(10),
        },
    ];
    assert_eq!(bin_of(&bins, &0), Some(0));
    assert_eq!(bin_of(&bins, &4), Some(0));
    assert_eq!(bin_of(&bins, &5), Some(1));
    assert_eq!(bin_of(&bins, &10), Some(1));
    assert_eq!(bin_of(&bins, &11), None);
    assert_eq!(bin_of(&bins, &-1), None);
}

fn bin_label<T: std::fmt::Display>(bounds: &Bounds<T>) -> String {
    let (lb, lv) = match &bounds.lower {
        Bound::Exclusive(v) => ("(", v),
        Bound::Inclusive(v) => ("[", v),
    };
    let (ub, uv) = match &bounds.upper {
        Bound::Exclusive(v) => (")", v),
        Bound::Inclusive(v) => ("]", v),
    };
    format!("{}{}, {}{}", lb, lv, uv, ub)
}

fn labels<T: std::fmt::Display>(bins: &Vec<Bounds<T>>) -> Vec<String> {
    bins.iter().map(bin_label).collect()
}

#[test]
fn histogram_bins_two_bins() {
    let bins = histogram_bins(&vec![0i32, 0, 1], 2).unwrap();
    assert_eq!(labels(&bins), vec!["[0, 1)", "[1, 2]"]);
}

#[test]
fn histogram_bins_no_keys() {
    let bins = histogram_bins(&Vec::<u32>::new(), 3).unwrap();
    assert!(bins.is_empty());
}

#[test]
fn histogram_bins_equal_keys() {
    let bins = histogram_bins(&vec![5u8, 5, 5], 4).unwrap();
    assert_eq!(labels(&bins), vec!["[5, 5]"]);
}

#[test]
fn histogram_bins_round_width_up() {
    let bins = histogram_bins(&vec![10i64, 0, 7], 3).unwrap();
    assert_eq!(labels(&bins), vec!["[0, 4)", "[4, 8)", "[8, 12]"]);
}

#[test]
fn histogram_bins_negative_keys() {
    let bins = histogram_bins(&vec![-3i16, 3], 3).unwrap();
    assert_eq!(labels(&bins), vec!["[-3, -1)", "[-1, 1)", "[1, 3]"]);
}

#[test]
fn histogram_bins_saturated_last_edge() {
    let bins = histogram_bins(&vec![-1i8, 126], 2).unwrap();
    assert_eq!(labels(&bins), vec!["[-1, 63)", "[63, 126]"]);
}

#[test]
fn histogram_bins_span_too_wide() {
    assert!(histogram_bins(&vec![-128i8, 127], 2).is_none());
}

#[test]
fn histogram_bins_last_edge_too_great() {
    assert!(histogram_bins(&vec![1u8, 254], 4).is_none());
    assert!(histogram_bins(&vec![0u8, 255], 2).is_some());
}

#[test]
fn histogram_bins_cover_every_key_once() {
    let keys: Vec<u16> = (0..=10).collect();
    let bins = histogram_bins(&keys, 3).unwrap();
    for k in 0u16..=10 {
        let holding: Vec<usize> = (0..bins.len()).filter(|&j| bins[j].contains(&k)).collect();
        assert_eq!(holding.len(), 1);
        assert_eq!(bin_of(&bins, &k), Some(holding[0]));
    }
}

#[test]
fn histogram_bins_wide_keys() {
    let bins = histogram_bins(&vec![u64::MAX - 4, u64::MAX], 2).unwrap();
    assert_eq!(
        labels(&bins),
        vec![
            format!("[{}, {})", u64::MAX - 4, u64::MAX - 2),
            format!("[{}, {}]", u64::MAX - 2, u64::MAX),
        ]
    );
    let bins = histogram_bins(&vec![i64::MIN, i64::MIN + 9], 3).unwrap();
    assert_eq!(bins.len(), 3);
}

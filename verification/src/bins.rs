//! The bins of a histogram: ranges of values between a lower and an upper bound, each of which
//! either belongs to the bin or not.
//!
//! The comparisons go through the value type's `PartialOrd`; what is stated of them holds for
//! types whose comparison follows its specification (the integer types among them).
use core::cmp::Ordering;
use vstd::prelude::*;
use vstd::std_specs::cmp::PartialOrdSpec;

verus! {

/// An end of a bin: excluded from the bin, or included in it.
pub enum Bound<T> {
    Exclusive(T),
    Inclusive(T),
}

/// A bin: the values between its lower and its upper bound.
pub struct Bounds<T> {
    pub lower: Bound<T>,
    pub upper: Bound<T>,
}

/// `a` is less than `b`, or equal to it when `inclusive`.
pub open spec fn below<T: PartialOrd>(a: T, b: T, inclusive: bool) -> bool {
    match a.partial_cmp_spec(&b) {
        Some(Ordering::Less) => true,
        Some(Ordering::Equal) => inclusive,
        _ => false,
    }
}

/// `a` is greater than `b`, or equal to it when `inclusive`.
pub open spec fn above<T: PartialOrd>(a: T, b: T, inclusive: bool) -> bool {
    match a.partial_cmp_spec(&b) {
        Some(Ordering::Greater) => true,
        Some(Ordering::Equal) => inclusive,
        _ => false,
    }
}

/// `item` lies on the upper side of the bound `b`.
pub open spec fn after_bound<T: PartialOrd>(b: Bound<T>, item: T) -> bool {
    match b {
        Bound::Exclusive(v) => below(v, item, false),
        Bound::Inclusive(v) => below(v, item, true),
    }
}

/// `item` lies on the lower side of the bound `b`.
pub open spec fn before_bound<T: PartialOrd>(b: Bound<T>, item: T) -> bool {
    match b {
        Bound::Exclusive(v) => above(v, item, false),
        Bound::Inclusive(v) => above(v, item, true),
    }
}

/// `item` lies in the bin.
pub open spec fn in_bin<T: PartialOrd>(bin: Bounds<T>, item: T) -> bool {
    after_bound(bin.lower, item) && before_bound(bin.upper, item)
}

impl<T: PartialOrd> Bound<T> {
    /// Whether `item` lies on the upper side of this bound (as its lower bound).
    pub fn left_of(&self, item: &T) -> (r: bool)
        ensures
            T::obeys_partial_cmp_spec() ==> r == after_bound(*self, *item),
    {
        match self {
            Bound::Exclusive(b) => *b < *item,
            Bound::Inclusive(b) => *b <= *item,
        }
    }

    /// Whether `item` lies on the lower side of this bound (as its upper bound).
    pub fn right_of(&self, item: &T) -> (r: bool)
        ensures
            T::obeys_partial_cmp_spec() ==> r == before_bound(*self, *item),
    {
        match self {
            Bound::Exclusive(b) => *b > *item,
            Bound::Inclusive(b) => *b >= *item,
        }
    }
}

impl<T: PartialOrd> Bounds<T> {
    /// Whether `item` lies in this bin.
    pub fn contains(&self, item: &T) -> (r: bool)
        ensures
            T::obeys_partial_cmp_spec() ==> r == in_bin(*self, *item),
    {
        self.lower.left_of(item) && self.upper.right_of(item)
    }
}

/// The bin at index `i`.
pub open spec fn bin_at<T>(bins: Seq<Bounds<T>>, i: usize) -> Bounds<T> {
    bins[i as int]
}

/// The first of `bins` that holds `item`, if any.
pub fn bin_of<T: PartialOrd>(bins: &Vec<Bounds<T>>, item: &T) -> (r: Option<usize>)
    ensures
        T::obeys_partial_cmp_spec() ==> match r {
            Some(i) => i < bins@.len() && in_bin(bin_at(bins@, i), *item) && forall|j: int|
                0 <= j < i ==> !in_bin(#[trigger] bins@[j], *item),
            None => forall|j: int| 0 <= j < bins@.len() ==> !in_bin(#[trigger] bins@[j], *item),
        },
{
    let mut i: usize = 0;
    while i < bins.len()
        invariant
            i <= bins@.len(),
            T::obeys_partial_cmp_spec() ==> forall|j: int|
                0 <= j < i ==> !in_bin(#[trigger] bins@[j], *item),
        decreases bins@.len() - i,
    {
        if bins[i].contains(item) {
            return Some(i);
        }
        i += 1;
    }
    None
}

} // verus!

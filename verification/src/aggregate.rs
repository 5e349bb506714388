//! The ways in which the values behind one rendering are combined.
use vstd::prelude::*;

verus! {

/// The types of value aggregation supported by `flat`.
#[derive(Debug, Clone, Copy, PartialEq, Eq)]
pub enum Aggregate {
    /// The average aggregation variant (ex: `[1, 2, 3] -> 2`).
    Average,
    /// The max aggregation variant (ex: `[1, 2, 3] -> 3`).
    Max,
    /// The min aggregation variant (ex: `[1, 2, 3] -> 1`).
    Min,
    /// The sum aggregation variant (ex: `[1, 2, 3] -> 6`).
    Sum,
}

/// The name under which an aggregation is shown.
pub open spec fn aggregate_name(a: Aggregate) -> Seq<char> {
    match a {
        Aggregate::Average => "Average"@,
        Aggregate::Max => "Max"@,
        Aggregate::Min => "Min"@,
        Aggregate::Sum => "Sum"@,
    }
}

impl Aggregate {
    /// The name under which this aggregation is shown (ex: `"Sum"`).
    pub fn name(&self) -> (r: String)
        ensures
            r@ == aggregate_name(*self),
    {
        match self {
            Aggregate::Average => "Average".to_string(),
            Aggregate::Max => "Max".to_string(),
            Aggregate::Min => "Min".to_string(),
            Aggregate::Sum => "Sum".to_string(),
        }
    }
}

} // verus!

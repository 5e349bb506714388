//! The configurations specific to each widget.
use vstd::prelude::*;

verus! {

/// Render configuration specific to bar-charts.
#[derive(Debug, Clone, Copy, PartialEq, Eq)]
pub struct BarChartConfig {
    /// Whether to abbreviate the dimensional values in the rendering or not
    /// (bounded by the width of the column headers).
    ///
    /// Default: `false`.
    pub abbreviate: bool,
    /// Whether to show the aggregated result for the *non-primary* dimension(s) of the dataset.
    /// The aggregates "cascade": each level shows the aggregate across the previous level.
    ///
    /// Default: `false`.
    pub show_aggregate: bool,
}

impl Default for BarChartConfig {
    fn default() -> (r: Self)
        ensures
            !r.abbreviate,
            !r.show_aggregate,
    {
        BarChartConfig { abbreviate: false, show_aggregate: false }
    }
}

/// Render configuration specific to dag-charts.
#[derive(Debug, Clone, Copy, PartialEq, Eq)]
pub struct DagChartConfig {
    /// Whether to abbreviate the dimensional values in the rendering or not
    /// (bounded by the width of the column headers).
    ///
    /// Default: `false`.
    pub abbreviate: bool,
    /// Whether to show the aggregated result for the *non-primary* dimension(s) of the dataset.
    ///
    /// Default: `false`.
    pub show_aggregate: bool,
}

impl Default for DagChartConfig {
    fn default() -> (r: Self)
        ensures
            !r.abbreviate,
            !r.show_aggregate,
    {
        DagChartConfig { abbreviate: false, show_aggregate: false }
    }
}

/// Render configuration specific to histograms.
#[derive(Debug, Clone, Copy, PartialEq, Eq)]
pub struct HistogramConfig {}

impl Default for HistogramConfig {
    fn default() -> (r: Self) {
        HistogramConfig {  }
    }
}

/// Render configuration specific to path-charts.
#[derive(Debug, Clone, Copy, PartialEq, Eq)]
pub struct PathChartConfig {}

impl Default for PathChartConfig {
    fn default() -> (r: Self) {
        PathChartConfig {  }
    }
}

} // verus!

//! `flat` is a textual data renderer.
//!
//! Multi-dimensional data is organised in a [`dataset::Dataset`] of a [`schema::Schema`],
//! looked at through a [`view::View`], and laid out by a widget into a grid of text cells
//! ([`render::Grid`]) which is finally materialised as plain text ([`render::Flat`]).
//!
//! The frames of the widgets are laid out by [`dag`] (dag-charts), [`path`] (path-charts) and
//! [`histogram`] (histograms), on the cells that [`frame`] shares between them; long headings
//! are shortened by [`abbreviate`].
pub mod abbreviate;
pub mod aggregate;
pub mod bins;
pub mod config;
pub mod dag;
pub mod dataset;
pub mod frame;
pub mod histogram;
pub mod path;
pub mod render;
pub mod schema;
pub mod view;

use std::fmt::Display;
use vstd::prelude::*;

verus! {

/// Extracts the display values of a data point, for rendering.
///
/// Typically, consumers need not implement this trait (it is implemented for tuples).
pub trait Dimensions {
    /// The display form of each component of this data point, in order.
    fn as_strings(&self) -> Vec<String>;

    /// The number of components of this data point.
    fn len(&self) -> usize;
}

/// Marker used where a view has no breakdown dimension.
#[derive(Clone, Debug, PartialEq, Eq, PartialOrd, Ord, Hash)]
pub struct Nothing;

impl<T: Display> Dimensions for (T,) {
    fn as_strings(&self) -> (r: Vec<String>)
        ensures
            r@.len() == 1,
            vstd::string::to_string_from_display_ensures::<T>(&self.0, r@[0]),
    {
        let mut r = Vec::new();
        r.push(self.0.to_string());
        r
    }

    fn len(&self) -> (r: usize)
        ensures
            r == 1,
    {
        1
    }
}

impl<T: Display, U: Display> Dimensions for (T, U) {
    fn as_strings(&self) -> (r: Vec<String>)
        ensures
            r@.len() == 2,
            vstd::string::to_string_from_display_ensures::<T>(&self.0, r@[0]),
            vstd::string::to_string_from_display_ensures::<U>(&self.1, r@[1]),
    {
        let mut r = Vec::new();
        r.push(self.0.to_string());
        r.push(self.1.to_string());
        r
    }

    fn len(&self) -> (r: usize)
        ensures
            r == 2,
    {
        2
    }
}

impl<T: Display, U: Display, V: Display> Dimensions for (T, U, V) {
    fn as_strings(&self) -> (r: Vec<String>)
        ensures
            r@.len() == 3,
            vstd::string::to_string_from_display_ensures::<T>(&self.0, r@[0]),
            vstd::string::to_string_from_display_ensures::<U>(&self.1, r@[1]),
            vstd::string::to_string_from_display_ensures::<V>(&self.2, r@[2]),
    {
        let mut r = Vec::new();
        r.push(self.0.to_string());
        r.push(self.1.to_string());
        r.push(self.2.to_string());
        r
    }

    fn len(&self) -> (r: usize)
        ensures
            r == 3,
    {
        3
    }
}

impl<T: Display, U: Display, V: Display, W: Display> Dimensions for (T, U, V, W) {
    fn as_strings(&self) -> (r: Vec<String>)
        ensures
            r@.len() == 4,
            vstd::string::to_string_from_display_ensures::<T>(&self.0, r@[0]),
            vstd::string::to_string_from_display_ensures::<U>(&self.1, r@[1]),
            vstd::string::to_string_from_display_ensures::<V>(&self.2, r@[2]),
            vstd::string::to_string_from_display_ensures::<W>(&self.3, r@[3]),
    {
        let mut r = Vec::new();
        r.push(self.0.to_string());
        r.push(self.1.to_string());
        r.push(self.2.to_string());
        r.push(self.3.to_string());
        r
    }

    fn len(&self) -> (r: usize)
        ensures
            r == 4,
    {
        4
    }
}

} // verus!

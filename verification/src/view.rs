//! Views: what of a dataset a widget renders, and how it is labelled.
use crate::dataset::Dataset;
use crate::schema::{Schema, Schema1, Schema2, Schema3, Schema4};
use crate::{Dimensions, Nothing};
use std::fmt::Display;
use vstd::prelude::*;
use vstd::view::View as _;

verus! {

/// Defines how a widget reads a [`Dataset`]: which dimension leads the frame, which one breaks
/// the rendering down (if any), which dimensions are displayed, and how they are labelled.
/// Consumers may implement this trait to provide custom views over datasets.
pub trait View<S: Schema> {
    /// The primary dimension: the organizational basis of the rendering.
    type PrimaryDimension;
    /// The breakdown dimension ([`Nothing`] for views without a breakdown).
    type BreakdownDimension;
    /// The display dimension(s); the first is always the primary dimension.
    type DisplayDimensions: Dimensions;

    /// The data associated with this view.
    fn data(&self) -> &[S::Dimensions];

    /// The header labelling the rendered values.
    fn value_header(&self) -> String;

    /// The primary dimension of a data point.
    fn primary_dim(&self, dims: &S::Dimensions) -> Self::PrimaryDimension;

    /// The breakdown dimension of a data point ([`Nothing`] for views without a breakdown).
    fn breakdown_dim(&self, dims: &S::Dimensions) -> Self::BreakdownDimension;

    /// Whether this view breaks its rendering down by [`View::breakdown_dim`].
    fn is_breakdown(&self) -> bool;

    /// The display dimensions of a data point, starting with the primary dimension.
    fn display_dims(&self, dims: &S::Dimensions) -> Self::DisplayDimensions;

    /// The headers labelling the display dimensions, one per display dimension.
    fn display_headers(&self) -> Vec<String>;
}

/// `"Breakdown(" + name + ")"`.
pub open spec fn breakdown_header(name: Seq<char>) -> Seq<char> {
    "Breakdown("@ + name + ")"@
}

/// The header of a breakdown by the dimension called `name`.
fn breakdown_header_of(name: &String) -> (r: String)
    ensures
        r@ == breakdown_header(name@),
{
    let r = "Breakdown(".to_string();
    let r = r.concat(name.as_str());
    r.concat(")")
}

/// The header of counting views.
fn count_header() -> (r: String)
    ensures
        r@ == "Count"@,
{
    "Count".to_string()
}

/// A view rendering the value of the 1st dimension, with every dimension in the frame.
pub struct View1Full<'a, S: Schema> {
    pub dataset: &'a Dataset<S>,
    pub value_header: String,
}
impl<'a, T> View<Schema1<T>> for View1Full<'a, Schema1<T>> where
    T: Clone + Display,
 {
    type PrimaryDimension = T;
    type BreakdownDimension = Nothing;
    type DisplayDimensions = (T,);

    fn data(&self) -> (r: &[<Schema1<T> as Schema>::Dimensions])
        ensures
            r@ == self.dataset.data@,
    {
        self.dataset.data()
    }

    fn value_header(&self) -> (r: String)
        ensures
            r == self.value_header,
    {
        self.value_header.clone()
    }

    fn primary_dim(&self, dims: &<Schema1<T> as Schema>::Dimensions) -> (r: T)
        ensures
            cloned(dims.0, r),
    {
        dims.0.clone()
    }

    fn breakdown_dim(&self, dims: &<Schema1<T> as Schema>::Dimensions) -> (r: Nothing)
        ensures
            r == Nothing,
    {
        Nothing
    }

    fn is_breakdown(&self) -> (r: bool)
        ensures
            r == false,
    {
        false
    }

    fn display_dims(&self, dims: &<Schema1<T> as Schema>::Dimensions) -> (r: (T,))
        ensures
            cloned(dims.0, r.0),
    {
        (dims.0.clone(),)
    }

    fn display_headers(&self) -> (r: Vec<String>)
        ensures
            r@.len() == 1,
            r@[0] == self.dataset.schema.dimension_0,
    {
        let mut r = Vec::new();
        r.push(self.dataset.schema.dimension_0.clone());
        r
    }
}

/// A view rendering the number of occurrences, with every dimension in the frame.
pub struct View1Count<'a, S: Schema> {
    pub dataset: &'a Dataset<S>,
}
impl<'a, T> View<Schema1<T>> for View1Count<'a, Schema1<T>> where
    T: Clone + Display,
 {
    type PrimaryDimension = T;
    type BreakdownDimension = Nothing;
    type DisplayDimensions = (T,);

    fn data(&self) -> (r: &[<Schema1<T> as Schema>::Dimensions])
        ensures
            r@ == self.dataset.data@,
    {
        self.dataset.data()
    }

    fn value_header(&self) -> (r: String)
        ensures
            r@ == "Count"@,
    {
        count_header()
    }

    fn primary_dim(&self, dims: &<Schema1<T> as Schema>::Dimensions) -> (r: T)
        ensures
            cloned(dims.0, r),
    {
        dims.0.clone()
    }

    fn breakdown_dim(&self, dims: &<Schema1<T> as Schema>::Dimensions) -> (r: Nothing)
        ensures
            r == Nothing,
    {
        Nothing
    }

    fn is_breakdown(&self) -> (r: bool)
        ensures
            r == false,
    {
        false
    }

    fn display_dims(&self, dims: &<Schema1<T> as Schema>::Dimensions) -> (r: (T,))
        ensures
            cloned(dims.0, r.0),
    {
        (dims.0.clone(),)
    }

    fn display_headers(&self) -> (r: Vec<String>)
        ensures
            r@.len() == 1,
            r@[0] == self.dataset.schema.dimension_0,
    {
        let mut r = Vec::new();
        r.push(self.dataset.schema.dimension_0.clone());
        r
    }
}

/// A view rendering the value of the 2nd dimension, with every dimension in the frame.
pub struct View2Full<'a, S: Schema> {
    pub dataset: &'a Dataset<S>,
    pub value_header: String,
}
impl<'a, T, U> View<Schema2<T, U>> for View2Full<'a, Schema2<T, U>> where
    T: Clone + Display,
    U: Clone + Display,
 {
    type PrimaryDimension = T;
    type BreakdownDimension = Nothing;
    type DisplayDimensions = (T, U);

    fn data(&self) -> (r: &[<Schema2<T, U> as Schema>::Dimensions])
        ensures
            r@ == self.dataset.data@,
    {
        self.dataset.data()
    }

    fn value_header(&self) -> (r: String)
        ensures
            r == self.value_header,
    {
        self.value_header.clone()
    }

    fn primary_dim(&self, dims: &<Schema2<T, U> as Schema>::Dimensions) -> (r: T)
        ensures
            cloned(dims.0, r),
    {
        dims.0.clone()
    }

    fn breakdown_dim(&self, dims: &<Schema2<T, U> as Schema>::Dimensions) -> (r: Nothing)
        ensures
            r == Nothing,
    {
        Nothing
    }

    fn is_breakdown(&self) -> (r: bool)
        ensures
            r == false,
    {
        false
    }

    fn display_dims(&self, dims: &<Schema2<T, U> as Schema>::Dimensions) -> (r: (T, U))
        ensures
            cloned(dims.0, r.0),
            cloned(dims.1, r.1),
    {
        (dims.0.clone(), dims.1.clone())
    }

    fn display_headers(&self) -> (r: Vec<String>)
        ensures
            r@.len() == 2,
            r@[0] == self.dataset.schema.dimension_0,
            r@[1] == self.dataset.schema.dimension_1,
    {
        let mut r = Vec::new();
        r.push(self.dataset.schema.dimension_0.clone());
        r.push(self.dataset.schema.dimension_1.clone());
        r
    }
}

/// A view rendering the number of occurrences, with every dimension in the frame.
pub struct View2Count<'a, S: Schema> {
    pub dataset: &'a Dataset<S>,
}
impl<'a, T, U> View<Schema2<T, U>> for View2Count<'a, Schema2<T, U>> where
    T: Clone + Display,
    U: Clone + Display,
 {
    type PrimaryDimension = T;
    type BreakdownDimension = Nothing;
    type DisplayDimensions = (T, U);

    fn data(&self) -> (r: &[<Schema2<T, U> as Schema>::Dimensions])
        ensures
            r@ == self.dataset.data@,
    {
        self.dataset.data()
    }

    fn value_header(&self) -> (r: String)
        ensures
            r@ == "Count"@,
    {
        count_header()
    }

    fn primary_dim(&self, dims: &<Schema2<T, U> as Schema>::Dimensions) -> (r: T)
        ensures
            cloned(dims.0, r),
    {
        dims.0.clone()
    }

    fn breakdown_dim(&self, dims: &<Schema2<T, U> as Schema>::Dimensions) -> (r: Nothing)
        ensures
            r == Nothing,
    {
        Nothing
    }

    fn is_breakdown(&self) -> (r: bool)
        ensures
            r == false,
    {
        false
    }

    fn display_dims(&self, dims: &<Schema2<T, U> as Schema>::Dimensions) -> (r: (T, U))
        ensures
            cloned(dims.0, r.0),
            cloned(dims.1, r.1),
    {
        (dims.0.clone(), dims.1.clone())
    }

    fn display_headers(&self) -> (r: Vec<String>)
        ensures
            r@.len() == 2,
            r@[0] == self.dataset.schema.dimension_0,
            r@[1] == self.dataset.schema.dimension_1,
    {
        let mut r = Vec::new();
        r.push(self.dataset.schema.dimension_0.clone());
        r.push(self.dataset.schema.dimension_1.clone());
        r
    }
}

/// A view rendering the value of the 2nd dimension, with the other dimensions in the frame.
pub struct View2Regular<'a, S: Schema> {
    pub dataset: &'a Dataset<S>,
}
impl<'a, T, U> View<Schema2<T, U>> for View2Regular<'a, Schema2<T, U>> where
    T: Clone + Display,
 {
    type PrimaryDimension = T;
    type BreakdownDimension = Nothing;
    type DisplayDimensions = (T,);

    fn data(&self) -> (r: &[<Schema2<T, U> as Schema>::Dimensions])
        ensures
            r@ == self.dataset.data@,
    {
        self.dataset.data()
    }

    fn value_header(&self) -> (r: String)
        ensures
            r == self.dataset.schema.dimension_1,
    {
        self.dataset.schema.dimension_1.clone()
    }

    fn primary_dim(&self, dims: &<Schema2<T, U> as Schema>::Dimensions) -> (r: T)
        ensures
            cloned(dims.0, r),
    {
        dims.0.clone()
    }

    fn breakdown_dim(&self, dims: &<Schema2<T, U> as Schema>::Dimensions) -> (r: Nothing)
        ensures
            r == Nothing,
    {
        Nothing
    }

    fn is_breakdown(&self) -> (r: bool)
        ensures
            r == false,
    {
        false
    }

    fn display_dims(&self, dims: &<Schema2<T, U> as Schema>::Dimensions) -> (r: (T,))
        ensures
            cloned(dims.0, r.0),
    {
        (dims.0.clone(),)
    }

    fn display_headers(&self) -> (r: Vec<String>)
        ensures
            r@.len() == 1,
            r@[0] == self.dataset.schema.dimension_0,
    {
        let mut r = Vec::new();
        r.push(self.dataset.schema.dimension_0.clone());
        r
    }
}

/// A view rendering the value of the 2nd dimension broken down by the 2nd dimension.
pub struct View2Breakdown2<'a, S: Schema> {
    pub dataset: &'a Dataset<S>,
}
impl<'a, T, U> View<Schema2<T, U>> for View2Breakdown2<'a, Schema2<T, U>> where
    T: Clone + Display,
    U: Clone,
 {
    type PrimaryDimension = T;
    type BreakdownDimension = U;
    type DisplayDimensions = (T,);

    fn data(&self) -> (r: &[<Schema2<T, U> as Schema>::Dimensions])
        ensures
            r@ == self.dataset.data@,
    {
        self.dataset.data()
    }

    fn value_header(&self) -> (r: String)
        ensures
            r@ == breakdown_header(self.dataset.schema.dimension_1@),
    {
        breakdown_header_of(&self.dataset.schema.dimension_1)
    }

    fn primary_dim(&self, dims: &<Schema2<T, U> as Schema>::Dimensions) -> (r: T)
        ensures
            cloned(dims.0, r),
    {
        dims.0.clone()
    }

    fn breakdown_dim(&self, dims: &<Schema2<T, U> as Schema>::Dimensions) -> (r: U)
        ensures
            cloned(dims.1, r),
    {
        dims.1.clone()
    }

    fn is_breakdown(&self) -> (r: bool)
        ensures
            r == true,
    {
        true
    }

    fn display_dims(&self, dims: &<Schema2<T, U> as Schema>::Dimensions) -> (r: (T,))
        ensures
            cloned(dims.0, r.0),
    {
        (dims.0.clone(),)
    }

    fn display_headers(&self) -> (r: Vec<String>)
        ensures
            r@.len() == 1,
            r@[0] == self.dataset.schema.dimension_0,
    {
        let mut r = Vec::new();
        r.push(self.dataset.schema.dimension_0.clone());
        r
    }
}

/// A view rendering the number of occurrences broken down by the 2nd dimension.
pub struct View2Breakdown2Count<'a, S: Schema> {
    pub dataset: &'a Dataset<S>,
}
impl<'a, T, U> View<Schema2<T, U>> for View2Breakdown2Count<'a, Schema2<T, U>> where
    T: Clone + Display,
    U: Clone,
 {
    type PrimaryDimension = T;
    type BreakdownDimension = U;
    type DisplayDimensions = (T,);

    fn data(&self) -> (r: &[<Schema2<T, U> as Schema>::Dimensions])
        ensures
            r@ == self.dataset.data@,
    {
        self.dataset.data()
    }

    fn value_header(&self) -> (r: String)
        ensures
            r@ == breakdown_header(self.dataset.schema.dimension_1@),
    {
        breakdown_header_of(&self.dataset.schema.dimension_1)
    }

    fn primary_dim(&self, dims: &<Schema2<T, U> as Schema>::Dimensions) -> (r: T)
        ensures
            cloned(dims.0, r),
    {
        dims.0.clone()
    }

    fn breakdown_dim(&self, dims: &<Schema2<T, U> as Schema>::Dimensions) -> (r: U)
        ensures
            cloned(dims.1, r),
    {
        dims.1.clone()
    }

    fn is_breakdown(&self) -> (r: bool)
        ensures
            r == true,
    {
        true
    }

    fn display_dims(&self, dims: &<Schema2<T, U> as Schema>::Dimensions) -> (r: (T,))
        ensures
            cloned(dims.0, r.0),
    {
        (dims.0.clone(),)
    }

    fn display_headers(&self) -> (r: Vec<String>)
        ensures
            r@.len() == 1,
            r@[0] == self.dataset.schema.dimension_0,
    {
        let mut r = Vec::new();
        r.push(self.dataset.schema.dimension_0.clone());
        r
    }
}

/// A view rendering the value of the 3rd dimension, with every dimension in the frame.
pub struct View3Full<'a, S: Schema> {
    pub dataset: &'a Dataset<S>,
    pub value_header: String,
}
impl<'a, T, U, V> View<Schema3<T, U, V>> for View3Full<'a, Schema3<T, U, V>> where
    T: Clone + Display,
    U: Clone + Display,
    V: Clone + Display,
 {
    type PrimaryDimension = T;
    type BreakdownDimension = Nothing;
    type DisplayDimensions = (T, U, V);

    fn data(&self) -> (r: &[<Schema3<T, U, V> as Schema>::Dimensions])
        ensures
            r@ == self.dataset.data@,
    {
        self.dataset.data()
    }

    fn value_header(&self) -> (r: String)
        ensures
            r == self.value_header,
    {
        self.value_header.clone()
    }

    fn primary_dim(&self, dims: &<Schema3<T, U, V> as Schema>::Dimensions) -> (r: T)
        ensures
            cloned(dims.0, r),
    {
        dims.0.clone()
    }

    fn breakdown_dim(&self, dims: &<Schema3<T, U, V> as Schema>::Dimensions) -> (r: Nothing)
        ensures
            r == Nothing,
    {
        Nothing
    }

    fn is_breakdown(&self) -> (r: bool)
        ensures
            r == false,
    {
        false
    }

    fn display_dims(&self, dims: &<Schema3<T, U, V> as Schema>::Dimensions) -> (r: (T, U, V))
        ensures
            cloned(dims.0, r.0),
            cloned(dims.1, r.1),
            cloned(dims.2, r.2),
    {
        (dims.0.clone(), dims.1.clone(), dims.2.clone())
    }

    fn display_headers(&self) -> (r: Vec<String>)
        ensures
            r@.len() == 3,
            r@[0] == self.dataset.schema.dimension_0,
            r@[1] == self.dataset.schema.dimension_1,
            r@[2] == self.dataset.schema.dimension_2,
    {
        let mut r = Vec::new();
        r.push(self.dataset.schema.dimension_0.clone());
        r.push(self.dataset.schema.dimension_1.clone());
        r.push(self.dataset.schema.dimension_2.clone());
        r
    }
}

/// A view rendering the number of occurrences, with every dimension in the frame.
pub struct View3Count<'a, S: Schema> {
    pub dataset: &'a Dataset<S>,
}
impl<'a, T, U, V> View<Schema3<T, U, V>> for View3Count<'a, Schema3<T, U, V>> where
    T: Clone + Display,
    U: Clone + Display,
    V: Clone + Display,
 {
    type PrimaryDimension = T;
    type BreakdownDimension = Nothing;
    type DisplayDimensions = (T, U, V);

    fn data(&self) -> (r: &[<Schema3<T, U, V> as Schema>::Dimensions])
        ensures
            r@ == self.dataset.data@,
    {
        self.dataset.data()
    }

    fn value_header(&self) -> (r: String)
        ensures
            r@ == "Count"@,
    {
        count_header()
    }

    fn primary_dim(&self, dims: &<Schema3<T, U, V> as Schema>::Dimensions) -> (r: T)
        ensures
            cloned(dims.0, r),
    {
        dims.0.clone()
    }

    fn breakdown_dim(&self, dims: &<Schema3<T, U, V> as Schema>::Dimensions) -> (r: Nothing)
        ensures
            r == Nothing,
    {
        Nothing
    }

    fn is_breakdown(&self) -> (r: bool)
        ensures
            r == false,
    {
        false
    }

    fn display_dims(&self, dims: &<Schema3<T, U, V> as Schema>::Dimensions) -> (r: (T, U, V))
        ensures
            cloned(dims.0, r.0),
            cloned(dims.1, r.1),
            cloned(dims.2, r.2),
    {
        (dims.0.clone(), dims.1.clone(), dims.2.clone())
    }

    fn display_headers(&self) -> (r: Vec<String>)
        ensures
            r@.len() == 3,
            r@[0] == self.dataset.schema.dimension_0,
            r@[1] == self.dataset.schema.dimension_1,
            r@[2] == self.dataset.schema.dimension_2,
    {
        let mut r = Vec::new();
        r.push(self.dataset.schema.dimension_0.clone());
        r.push(self.dataset.schema.dimension_1.clone());
        r.push(self.dataset.schema.dimension_2.clone());
        r
    }
}

/// A view rendering the value of the 3rd dimension, with the other dimensions in the frame.
pub struct View3Regular<'a, S: Schema> {
    pub dataset: &'a Dataset<S>,
}
impl<'a, T, U, V> View<Schema3<T, U, V>> for View3Regular<'a, Schema3<T, U, V>> where
    T: Clone + Display,
    U: Clone + Display,
 {
    type PrimaryDimension = T;
    type BreakdownDimension = Nothing;
    type DisplayDimensions = (T, U);

    fn data(&self) -> (r: &[<Schema3<T, U, V> as Schema>::Dimensions])
        ensures
            r@ == self.dataset.data@,
    {
        self.dataset.data()
    }

    fn value_header(&self) -> (r: String)
        ensures
            r == self.dataset.schema.dimension_2,
    {
        self.dataset.schema.dimension_2.clone()
    }

    fn primary_dim(&self, dims: &<Schema3<T, U, V> as Schema>::Dimensions) -> (r: T)
        ensures
            cloned(dims.0, r),
    {
        dims.0.clone()
    }

    fn breakdown_dim(&self, dims: &<Schema3<T, U, V> as Schema>::Dimensions) -> (r: Nothing)
        ensures
            r == Nothing,
    {
        Nothing
    }

    fn is_breakdown(&self) -> (r: bool)
        ensures
            r == false,
    {
        false
    }

    fn display_dims(&self, dims: &<Schema3<T, U, V> as Schema>::Dimensions) -> (r: (T, U))
        ensures
            cloned(dims.0, r.0),
            cloned(dims.1, r.1),
    {
        (dims.0.clone(), dims.1.clone())
    }

    fn display_headers(&self) -> (r: Vec<String>)
        ensures
            r@.len() == 2,
            r@[0] == self.dataset.schema.dimension_0,
            r@[1] == self.dataset.schema.dimension_1,
    {
        let mut r = Vec::new();
        r.push(self.dataset.schema.dimension_0.clone());
        r.push(self.dataset.schema.dimension_1.clone());
        r
    }
}

/// A view rendering the value of the 3rd dimension broken down by the 3rd dimension.
pub struct View3Breakdown3<'a, S: Schema> {
    pub dataset: &'a Dataset<S>,
}
impl<'a, T, U, V> View<Schema3<T, U, V>> for View3Breakdown3<'a, Schema3<T, U, V>> where
    T: Clone + Display,
    U: Clone + Display,
    V: Clone,
 {
    type PrimaryDimension = T;
    type BreakdownDimension = V;
    type DisplayDimensions = (T, U);

    fn data(&self) -> (r: &[<Schema3<T, U, V> as Schema>::Dimensions])
        ensures
            r@ == self.dataset.data@,
    {
        self.dataset.data()
    }

    fn value_header(&self) -> (r: String)
        ensures
            r@ == breakdown_header(self.dataset.schema.dimension_2@),
    {
        breakdown_header_of(&self.dataset.schema.dimension_2)
    }

    fn primary_dim(&self, dims: &<Schema3<T, U, V> as Schema>::Dimensions) -> (r: T)
        ensures
            cloned(dims.0, r),
    {
        dims.0.clone()
    }

    fn breakdown_dim(&self, dims: &<Schema3<T, U, V> as Schema>::Dimensions) -> (r: V)
        ensures
            cloned(dims.2, r),
    {
        dims.2.clone()
    }

    fn is_breakdown(&self) -> (r: bool)
        ensures
            r == true,
    {
        true
    }

    fn display_dims(&self, dims: &<Schema3<T, U, V> as Schema>::Dimensions) -> (r: (T, U))
        ensures
            cloned(dims.0, r.0),
            cloned(dims.1, r.1),
    {
        (dims.0.clone(), dims.1.clone())
    }

    fn display_headers(&self) -> (r: Vec<String>)
        ensures
            r@.len() == 2,
            r@[0] == self.dataset.schema.dimension_0,
            r@[1] == self.dataset.schema.dimension_1,
    {
        let mut r = Vec::new();
        r.push(self.dataset.schema.dimension_0.clone());
        r.push(self.dataset.schema.dimension_1.clone());
        r
    }
}

/// A view rendering the number of occurrences broken down by the 3rd dimension.
pub struct View3Breakdown3Count<'a, S: Schema> {
    pub dataset: &'a Dataset<S>,
}
impl<'a, T, U, V> View<Schema3<T, U, V>> for View3Breakdown3Count<'a, Schema3<T, U, V>> where
    T: Clone + Display,
    U: Clone + Display,
    V: Clone,
 {
    type PrimaryDimension = T;
    type BreakdownDimension = V;
    type DisplayDimensions = (T, U);

    fn data(&self) -> (r: &[<Schema3<T, U, V> as Schema>::Dimensions])
        ensures
            r@ == self.dataset.data@,
    {
        self.dataset.data()
    }

    fn value_header(&self) -> (r: String)
        ensures
            r@ == breakdown_header(self.dataset.schema.dimension_2@),
    {
        breakdown_header_of(&self.dataset.schema.dimension_2)
    }

    fn primary_dim(&self, dims: &<Schema3<T, U, V> as Schema>::Dimensions) -> (r: T)
        ensures
            cloned(dims.0, r),
    {
        dims.0.clone()
    }

    fn breakdown_dim(&self, dims: &<Schema3<T, U, V> as Schema>::Dimensions) -> (r: V)
        ensures
            cloned(dims.2, r),
    {
        dims.2.clone()
    }

    fn is_breakdown(&self) -> (r: bool)
        ensures
            r == true,
    {
        true
    }

    fn display_dims(&self, dims: &<Schema3<T, U, V> as Schema>::Dimensions) -> (r: (T, U))
        ensures
            cloned(dims.0, r.0),
            cloned(dims.1, r.1),
    {
        (dims.0.clone(), dims.1.clone())
    }

    fn display_headers(&self) -> (r: Vec<String>)
        ensures
            r@.len() == 2,
            r@[0] == self.dataset.schema.dimension_0,
            r@[1] == self.dataset.schema.dimension_1,
    {
        let mut r = Vec::new();
        r.push(self.dataset.schema.dimension_0.clone());
        r.push(self.dataset.schema.dimension_1.clone());
        r
    }
}

/// A view rendering the value of the 3rd dimension broken down by the 2nd dimension.
pub struct View3Breakdown2<'a, S: Schema> {
    pub dataset: &'a Dataset<S>,
}
impl<'a, T, U, V> View<Schema3<T, U, V>> for View3Breakdown2<'a, Schema3<T, U, V>> where
    T: Clone + Display,
    U: Clone,
    V: Clone + Display,
 {
    type PrimaryDimension = T;
    type BreakdownDimension = U;
    type DisplayDimensions = (T, V);

    fn data(&self) -> (r: &[<Schema3<T, U, V> as Schema>::Dimensions])
        ensures
            r@ == self.dataset.data@,
    {
        self.dataset.data()
    }

    fn value_header(&self) -> (r: String)
        ensures
            r@ == breakdown_header(self.dataset.schema.dimension_1@),
    {
        breakdown_header_of(&self.dataset.schema.dimension_1)
    }

    fn primary_dim(&self, dims: &<Schema3<T, U, V> as Schema>::Dimensions) -> (r: T)
        ensures
            cloned(dims.0, r),
    {
        dims.0.clone()
    }

    fn breakdown_dim(&self, dims: &<Schema3<T, U, V> as Schema>::Dimensions) -> (r: U)
        ensures
            cloned(dims.1, r),
    {
        dims.1.clone()
    }

    fn is_breakdown(&self) -> (r: bool)
        ensures
            r == true,
    {
        true
    }

    fn display_dims(&self, dims: &<Schema3<T, U, V> as Schema>::Dimensions) -> (r: (T, V))
        ensures
            cloned(dims.0, r.0),
            cloned(dims.2, r.1),
    {
        (dims.0.clone(), dims.2.clone())
    }

    fn display_headers(&self) -> (r: Vec<String>)
        ensures
            r@.len() == 2,
            r@[0] == self.dataset.schema.dimension_0,
            r@[1] == self.dataset.schema.dimension_2,
    {
        let mut r = Vec::new();
        r.push(self.dataset.schema.dimension_0.clone());
        r.push(self.dataset.schema.dimension_2.clone());
        r
    }
}

/// A view rendering the value of the 4th dimension, with every dimension in the frame.
pub struct View4Full<'a, S: Schema> {
    pub dataset: &'a Dataset<S>,
    pub value_header: String,
}
impl<'a, T, U, V, W> View<Schema4<T, U, V, W>> for View4Full<'a, Schema4<T, U, V, W>> where
    T: Clone + Display,
    U: Clone + Display,
    V: Clone + Display,
    W: Clone + Display,
 {
    type PrimaryDimension = T;
    type BreakdownDimension = Nothing;
    type DisplayDimensions = (T, U, V, W);

    fn data(&self) -> (r: &[<Schema4<T, U, V, W> as Schema>::Dimensions])
        ensures
            r@ == self.dataset.data@,
    {
        self.dataset.data()
    }

    fn value_header(&self) -> (r: String)
        ensures
            r == self.value_header,
    {
        self.value_header.clone()
    }

    fn primary_dim(&self, dims: &<Schema4<T, U, V, W> as Schema>::Dimensions) -> (r: T)
        ensures
            cloned(dims.0, r),
    {
        dims.0.clone()
    }

    fn breakdown_dim(&self, dims: &<Schema4<T, U, V, W> as Schema>::Dimensions) -> (r: Nothing)
        ensures
            r == Nothing,
    {
        Nothing
    }

    fn is_breakdown(&self) -> (r: bool)
        ensures
            r == false,
    {
        false
    }

    fn display_dims(&self, dims: &<Schema4<T, U, V, W> as Schema>::Dimensions) -> (r: (T, U, V, W))
        ensures
            cloned(dims.0, r.0),
            cloned(dims.1, r.1),
            cloned(dims.2, r.2),
            cloned(dims.3, r.3),
    {
        (dims.0.clone(), dims.1.clone(), dims.2.clone(), dims.3.clone())
    }

    fn display_headers(&self) -> (r: Vec<String>)
        ensures
            r@.len() == 4,
            r@[0] == self.dataset.schema.dimension_0,
            r@[1] == self.dataset.schema.dimension_1,
            r@[2] == self.dataset.schema.dimension_2,
            r@[3] == self.dataset.schema.dimension_3,
    {
        let mut r = Vec::new();
        r.push(self.dataset.schema.dimension_0.clone());
        r.push(self.dataset.schema.dimension_1.clone());
        r.push(self.dataset.schema.dimension_2.clone());
        r.push(self.dataset.schema.dimension_3.clone());
        r
    }
}

/// A view rendering the number of occurrences, with every dimension in the frame.
pub struct View4Count<'a, S: Schema> {
    pub dataset: &'a Dataset<S>,
}
impl<'a, T, U, V, W> View<Schema4<T, U, V, W>> for View4Count<'a, Schema4<T, U, V, W>> where
    T: Clone + Display,
    U: Clone + Display,
    V: Clone + Display,
    W: Clone + Display,
 {
    type PrimaryDimension = T;
    type BreakdownDimension = Nothing;
    type DisplayDimensions = (T, U, V, W);

    fn data(&self) -> (r: &[<Schema4<T, U, V, W> as Schema>::Dimensions])
        ensures
            r@ == self.dataset.data@,
    {
        self.dataset.data()
    }

    fn value_header(&self) -> (r: String)
        ensures
            r@ == "Count"@,
    {
        count_header()
    }

    fn primary_dim(&self, dims: &<Schema4<T, U, V, W> as Schema>::Dimensions) -> (r: T)
        ensures
            cloned(dims.0, r),
    {
        dims.0.clone()
    }

    fn breakdown_dim(&self, dims: &<Schema4<T, U, V, W> as Schema>::Dimensions) -> (r: Nothing)
        ensures
            r == Nothing,
    {
        Nothing
    }

    fn is_breakdown(&self) -> (r: bool)
        ensures
            r == false,
    {
        false
    }

    fn display_dims(&self, dims: &<Schema4<T, U, V, W> as Schema>::Dimensions) -> (r: (T, U, V, W))
        ensures
            cloned(dims.0, r.0),
            cloned(dims.1, r.1),
            cloned(dims.2, r.2),
            cloned(dims.3, r.3),
    {
        (dims.0.clone(), dims.1.clone(), dims.2.clone(), dims.3.clone())
    }

    fn display_headers(&self) -> (r: Vec<String>)
        ensures
            r@.len() == 4,
            r@[0] == self.dataset.schema.dimension_0,
            r@[1] == self.dataset.schema.dimension_1,
            r@[2] == self.dataset.schema.dimension_2,
            r@[3] == self.dataset.schema.dimension_3,
    {
        let mut r = Vec::new();
        r.push(self.dataset.schema.dimension_0.clone());
        r.push(self.dataset.schema.dimension_1.clone());
        r.push(self.dataset.schema.dimension_2.clone());
        r.push(self.dataset.schema.dimension_3.clone());
        r
    }
}

/// A view rendering the value of the 4th dimension, with the other dimensions in the frame.
pub struct View4Regular<'a, S: Schema> {
    pub dataset: &'a Dataset<S>,
}
impl<'a, T, U, V, W> View<Schema4<T, U, V, W>> for View4Regular<'a, Schema4<T, U, V, W>> where
    T: Clone + Display,
    U: Clone + Display,
    V: Clone + Display,
 {
    type PrimaryDimension = T;
    type BreakdownDimension = Nothing;
    type DisplayDimensions = (T, U, V);

    fn data(&self) -> (r: &[<Schema4<T, U, V, W> as Schema>::Dimensions])
        ensures
            r@ == self.dataset.data@,
    {
        self.dataset.data()
    }

    fn value_header(&self) -> (r: String)
        ensures
            r == self.dataset.schema.dimension_3,
    {
        self.dataset.schema.dimension_3.clone()
    }

    fn primary_dim(&self, dims: &<Schema4<T, U, V, W> as Schema>::Dimensions) -> (r: T)
        ensures
            cloned(dims.0, r),
    {
        dims.0.clone()
    }

    fn breakdown_dim(&self, dims: &<Schema4<T, U, V, W> as Schema>::Dimensions) -> (r: Nothing)
        ensures
            r == Nothing,
    {
        Nothing
    }

    fn is_breakdown(&self) -> (r: bool)
        ensures
            r == false,
    {
        false
    }

    fn display_dims(&self, dims: &<Schema4<T, U, V, W> as Schema>::Dimensions) -> (r: (T, U, V))
        ensures
            cloned(dims.0, r.0),
            cloned(dims.1, r.1),
            cloned(dims.2, r.2),
    {
        (dims.0.clone(), dims.1.clone(), dims.2.clone())
    }

    fn display_headers(&self) -> (r: Vec<String>)
        ensures
            r@.len() == 3,
            r@[0] == self.dataset.schema.dimension_0,
            r@[1] == self.dataset.schema.dimension_1,
            r@[2] == self.dataset.schema.dimension_2,
    {
        let mut r = Vec::new();
        r.push(self.dataset.schema.dimension_0.clone());
        r.push(self.dataset.schema.dimension_1.clone());
        r.push(self.dataset.schema.dimension_2.clone());
        r
    }
}

/// A view rendering the value of the 4th dimension broken down by the 4th dimension.
pub struct View4Breakdown4<'a, S: Schema> {
    pub dataset: &'a Dataset<S>,
}
impl<'a, T, U, V, W> View<Schema4<T, U, V, W>> for View4Breakdown4<'a, Schema4<T, U, V, W>> where
    T: Clone + Display,
    U: Clone + Display,
    V: Clone + Display,
    W: Clone,
 {
    type PrimaryDimension = T;
    type BreakdownDimension = W;
    type DisplayDimensions = (T, U, V);

    fn data(&self) -> (r: &[<Schema4<T, U, V, W> as Schema>::Dimensions])
        ensures
            r@ == self.dataset.data@,
    {
        self.dataset.data()
    }

    fn value_header(&self) -> (r: String)
        ensures
            r@ == breakdown_header(self.dataset.schema.dimension_3@),
    {
        breakdown_header_of(&self.dataset.schema.dimension_3)
    }

    fn primary_dim(&self, dims: &<Schema4<T, U, V, W> as Schema>::Dimensions) -> (r: T)
        ensures
            cloned(dims.0, r),
    {
        dims.0.clone()
    }

    fn breakdown_dim(&self, dims: &<Schema4<T, U, V, W> as Schema>::Dimensions) -> (r: W)
        ensures
            cloned(dims.3, r),
    {
        dims.3.clone()
    }

    fn is_breakdown(&self) -> (r: bool)
        ensures
            r == true,
    {
        true
    }

    fn display_dims(&self, dims: &<Schema4<T, U, V, W> as Schema>::Dimensions) -> (r: (T, U, V))
        ensures
            cloned(dims.0, r.0),
            cloned(dims.1, r.1),
            cloned(dims.2, r.2),
    {
        (dims.0.clone(), dims.1.clone(), dims.2.clone())
    }

    fn display_headers(&self) -> (r: Vec<String>)
        ensures
            r@.len() == 3,
            r@[0] == self.dataset.schema.dimension_0,
            r@[1] == self.dataset.schema.dimension_1,
            r@[2] == self.dataset.schema.dimension_2,
    {
        let mut r = Vec::new();
        r.push(self.dataset.schema.dimension_0.clone());
        r.push(self.dataset.schema.dimension_1.clone());
        r.push(self.dataset.schema.dimension_2.clone());
        r
    }
}

/// A view rendering the number of occurrences broken down by the 4th dimension.
pub struct View4Breakdown4Count<'a, S: Schema> {
    pub dataset: &'a Dataset<S>,
}
impl<'a, T, U, V, W> View<Schema4<T, U, V, W>> for View4Breakdown4Count<'a, Schema4<T, U, V, W>> where
    T: Clone + Display,
    U: Clone + Display,
    V: Clone + Display,
    W: Clone,
 {
    type PrimaryDimension = T;
    type BreakdownDimension = W;
    type DisplayDimensions = (T, U, V);

    fn data(&self) -> (r: &[<Schema4<T, U, V, W> as Schema>::Dimensions])
        ensures
            r@ == self.dataset.data@,
    {
        self.dataset.data()
    }

    fn value_header(&self) -> (r: String)
        ensures
            r@ == breakdown_header(self.dataset.schema.dimension_3@),
    {
        breakdown_header_of(&self.dataset.schema.dimension_3)
    }

    fn primary_dim(&self, dims: &<Schema4<T, U, V, W> as Schema>::Dimensions) -> (r: T)
        ensures
            cloned(dims.0, r),
    {
        dims.0.clone()
    }

    fn breakdown_dim(&self, dims: &<Schema4<T, U, V, W> as Schema>::Dimensions) -> (r: W)
        ensures
            cloned(dims.3, r),
    {
        dims.3.clone()
    }

    fn is_breakdown(&self) -> (r: bool)
        ensures
            r == true,
    {
        true
    }

    fn display_dims(&self, dims: &<Schema4<T, U, V, W> as Schema>::Dimensions) -> (r: (T, U, V))
        ensures
            cloned(dims.0, r.0),
            cloned(dims.1, r.1),
            cloned(dims.2, r.2),
    {
        (dims.0.clone(), dims.1.clone(), dims.2.clone())
    }

    fn display_headers(&self) -> (r: Vec<String>)
        ensures
            r@.len() == 3,
            r@[0] == self.dataset.schema.dimension_0,
            r@[1] == self.dataset.schema.dimension_1,
            r@[2] == self.dataset.schema.dimension_2,
    {
        let mut r = Vec::new();
        r.push(self.dataset.schema.dimension_0.clone());
        r.push(self.dataset.schema.dimension_1.clone());
        r.push(self.dataset.schema.dimension_2.clone());
        r
    }
}

/// A view rendering the value of the 4th dimension broken down by the 3rd dimension.
pub struct View4Breakdown3<'a, S: Schema> {
    pub dataset: &'a Dataset<S>,
}
impl<'a, T, U, V, W> View<Schema4<T, U, V, W>> for View4Breakdown3<'a, Schema4<T, U, V, W>> where
    T: Clone + Display,
    U: Clone + Display,
    V: Clone,
    W: Clone + Display,
 {
    type PrimaryDimension = T;
    type BreakdownDimension = V;
    type DisplayDimensions = (T, U, W);

    fn data(&self) -> (r: &[<Schema4<T, U, V, W> as Schema>::Dimensions])
        ensures
            r@ == self.dataset.data@,
    {
        self.dataset.data()
    }

    fn value_header(&self) -> (r: String)
        ensures
            r@ == breakdown_header(self.dataset.schema.dimension_2@),
    {
        breakdown_header_of(&self.dataset.schema.dimension_2)
    }

    fn primary_dim(&self, dims: &<Schema4<T, U, V, W> as Schema>::Dimensions) -> (r: T)
        ensures
            cloned(dims.0, r),
    {
        dims.0.clone()
    }

    fn breakdown_dim(&self, dims: &<Schema4<T, U, V, W> as Schema>::Dimensions) -> (r: V)
        ensures
            cloned(dims.2, r),
    {
        dims.2.clone()
    }

    fn is_breakdown(&self) -> (r: bool)
        ensures
            r == true,
    {
        true
    }

    fn display_dims(&self, dims: &<Schema4<T, U, V, W> as Schema>::Dimensions) -> (r: (T, U, W))
        ensures
            cloned(dims.0, r.0),
            cloned(dims.1, r.1),
            cloned(dims.3, r.2),
    {
        (dims.0.clone(), dims.1.clone(), dims.3.clone())
    }

    fn display_headers(&self) -> (r: Vec<String>)
        ensures
            r@.len() == 3,
            r@[0] == self.dataset.schema.dimension_0,
            r@[1] == self.dataset.schema.dimension_1,
            r@[2] == self.dataset.schema.dimension_3,
    {
        let mut r = Vec::new();
        r.push(self.dataset.schema.dimension_0.clone());
        r.push(self.dataset.schema.dimension_1.clone());
        r.push(self.dataset.schema.dimension_3.clone());
        r
    }
}

} // verus!

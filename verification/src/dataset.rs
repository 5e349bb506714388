//! Datasets: the data points of a schema, and the views that can be taken of them.
use crate::schema::{Schema, Schema1, Schema2, Schema3, Schema4};
use crate::view::{
    View1Count, View1Full, View2Breakdown2, View2Breakdown2Count, View2Count, View2Full,
    View2Regular, View3Breakdown2, View3Breakdown3, View3Breakdown3Count, View3Count, View3Full,
    View3Regular, View4Breakdown3, View4Breakdown4, View4Breakdown4Count, View4Count, View4Full,
    View4Regular,
};
use vstd::prelude::*;
use vstd::view::View as _;

verus! {

/// A dataset: a schema and its data points, in the order they were added.
/// The same dataset may be observed through multiple views.
pub struct Dataset<S: Schema> {
    pub schema: S,
    pub data: Vec<S::Dimensions>,
}

impl<S: Schema> Dataset<S> {
    /// The data points of this dataset.
    pub fn data(&self) -> (r: &[S::Dimensions])
        ensures
            r@ == self.data@,
    {
        self.data.as_slice()
    }

    /// Start building a dataset for the provided schema.
    pub fn builder(schema: S) -> (r: DatasetBuilder<S>)
        ensures
            r.schema == schema,
            r.data@.len() == 0,
    {
        DatasetBuilder::new(schema)
    }
}

/// Builder for a dataset.
pub struct DatasetBuilder<S: Schema> {
    pub schema: S,
    pub data: Vec<S::Dimensions>,
}

impl<S: Schema> DatasetBuilder<S> {
    /// Start building a dataset for the provided schema.
    pub fn new(schema: S) -> (r: DatasetBuilder<S>)
        ensures
            r.schema == schema,
            r.data@.len() == 0,
    {
        Self { schema, data: Vec::new() }
    }

    /// Add the data point `vector`, by mutation.
    pub fn update(&mut self, vector: S::Dimensions)
        ensures
            final(self).schema == old(self).schema,
            final(self).data@ == old(self).data@.push(vector),
    {
        self.data.push(vector);
    }

    /// Add the data point `vector`, by method chaining.
    pub fn add(self, vector: S::Dimensions) -> (r: Self)
        ensures
            r.schema == self.schema,
            r.data@ == self.data@.push(vector),
    {
        let mut builder = self;
        builder.update(vector);
        builder
    }

    /// Finalize the builder into a [`Dataset`].
    pub fn build(self) -> (r: Dataset<S>)
        ensures
            r.schema == self.schema,
            r.data@ == self.data@,
    {
        let DatasetBuilder { schema, data } = self;
        Dataset { schema, data }
    }
}

impl<T> Dataset<Schema1<T>> {
    /// Take a view of this dataset rendering the value of the 1st dimension, with every dimension in the frame.
    pub fn reflect_1st(&self) -> (r: View1Full<'_, Schema1<T>>)
        ensures
            *r.dataset == *self,
            r.value_header == self.schema.dimension_0,
    {
        View1Full { dataset: self, value_header: self.schema.dimension_0.clone() }
    }
    /// Take a view of this dataset rendering the number of occurrences, with every dimension in the frame.
    pub fn count(&self) -> (r: View1Count<'_, Schema1<T>>)
        ensures
            *r.dataset == *self,
    {
        View1Count { dataset: self }
    }
}

impl<T, U> Dataset<Schema2<T, U>> {
    /// Take a view of this dataset rendering the value of the 2nd dimension, with every dimension in the frame.
    pub fn reflect_2nd(&self) -> (r: View2Full<'_, Schema2<T, U>>)
        ensures
            *r.dataset == *self,
            r.value_header == self.schema.dimension_1,
    {
        View2Full { dataset: self, value_header: self.schema.dimension_1.clone() }
    }
    /// Take a view of this dataset rendering the number of occurrences, with every dimension in the frame.
    pub fn count(&self) -> (r: View2Count<'_, Schema2<T, U>>)
        ensures
            *r.dataset == *self,
    {
        View2Count { dataset: self }
    }
    /// Take a view of this dataset rendering the value of the 2nd dimension, with the other dimensions in the frame.
    pub fn view_2nd(&self) -> (r: View2Regular<'_, Schema2<T, U>>)
        ensures
            *r.dataset == *self,
    {
        View2Regular { dataset: self }
    }
    /// Take a view of this dataset rendering the value of the 2nd dimension broken down by the 2nd dimension.
    pub fn breakdown_2nd(&self) -> (r: View2Breakdown2<'_, Schema2<T, U>>)
        ensures
            *r.dataset == *self,
    {
        View2Breakdown2 { dataset: self }
    }
    /// Take a view of this dataset rendering the number of occurrences broken down by the 2nd dimension.
    pub fn count_breakdown_2nd(&self) -> (r: View2Breakdown2Count<'_, Schema2<T, U>>)
        ensures
            *r.dataset == *self,
    {
        View2Breakdown2Count { dataset: self }
    }
}

impl<T, U, V> Dataset<Schema3<T, U, V>> {
    /// Take a view of this dataset rendering the value of the 3rd dimension, with every dimension in the frame.
    pub fn reflect_3rd(&self) -> (r: View3Full<'_, Schema3<T, U, V>>)
        ensures
            *r.dataset == *self,
            r.value_header == self.schema.dimension_2,
    {
        View3Full { dataset: self, value_header: self.schema.dimension_2.clone() }
    }
    /// Take a view of this dataset rendering the number of occurrences, with every dimension in the frame.
    pub fn count(&self) -> (r: View3Count<'_, Schema3<T, U, V>>)
        ensures
            *r.dataset == *self,
    {
        View3Count { dataset: self }
    }
    /// Take a view of this dataset rendering the value of the 3rd dimension, with the other dimensions in the frame.
    pub fn view_3rd(&self) -> (r: View3Regular<'_, Schema3<T, U, V>>)
        ensures
            *r.dataset == *self,
    {
        View3Regular { dataset: self }
    }
    /// Take a view of this dataset rendering the value of the 3rd dimension broken down by the 3rd dimension.
    pub fn breakdown_3rd(&self) -> (r: View3Breakdown3<'_, Schema3<T, U, V>>)
        ensures
            *r.dataset == *self,
    {
        View3Breakdown3 { dataset: self }
    }
    /// Take a view of this dataset rendering the number of occurrences broken down by the 3rd dimension.
    pub fn count_breakdown_3rd(&self) -> (r: View3Breakdown3Count<'_, Schema3<T, U, V>>)
        ensures
            *r.dataset == *self,
    {
        View3Breakdown3Count { dataset: self }
    }
    /// Take a view of this dataset rendering the value of the 3rd dimension broken down by the 2nd dimension.
    pub fn breakdown_2nd_view_3rd(&self) -> (r: View3Breakdown2<'_, Schema3<T, U, V>>)
        ensures
            *r.dataset == *self,
    {
        View3Breakdown2 { dataset: self }
    }
}

impl<T, U, V, W> Dataset<Schema4<T, U, V, W>> {
    /// Take a view of this dataset rendering the value of the 4th dimension, with every dimension in the frame.
    pub fn reflect_4th(&self) -> (r: View4Full<'_, Schema4<T, U, V, W>>)
        ensures
            *r.dataset == *self,
            r.value_header == self.schema.dimension_3,
    {
        View4Full { dataset: self, value_header: self.schema.dimension_3.clone() }
    }
    /// Take a view of this dataset rendering the number of occurrences, with every dimension in the frame.
    pub fn count(&self) -> (r: View4Count<'_, Schema4<T, U, V, W>>)
        ensures
            *r.dataset == *self,
    {
        View4Count { dataset: self }
    }
    /// Take a view of this dataset rendering the value of the 4th dimension, with the other dimensions in the frame.
    pub fn view_4th(&self) -> (r: View4Regular<'_, Schema4<T, U, V, W>>)
        ensures
            *r.dataset == *self,
    {
        View4Regular { dataset: self }
    }
    /// Take a view of this dataset rendering the value of the 4th dimension broken down by the 4th dimension.
    pub fn breakdown_4th(&self) -> (r: View4Breakdown4<'_, Schema4<T, U, V, W>>)
        ensures
            *r.dataset == *self,
    {
        View4Breakdown4 { dataset: self }
    }
    /// Take a view of this dataset rendering the number of occurrences broken down by the 4th dimension.
    pub fn count_breakdown_4th(&self) -> (r: View4Breakdown4Count<'_, Schema4<T, U, V, W>>)
        ensures
            *r.dataset == *self,
    {
        View4Breakdown4Count { dataset: self }
    }
    /// Take a view of this dataset rendering the value of the 4th dimension broken down by the 3rd dimension.
    pub fn breakdown_3rd_view_4th(&self) -> (r: View4Breakdown3<'_, Schema4<T, U, V, W>>)
        ensures
            *r.dataset == *self,
    {
        View4Breakdown3 { dataset: self }
    }
}

/// A dataset holds its points exactly as they were added: starting from an empty builder,
/// when each step of building adds one point (as [`DatasetBuilder::add`] and
/// [`DatasetBuilder::update`] do) and the data is then kept (as [`DatasetBuilder::build`]
/// does), the data is the points, in order, none dropped, merged or repeated. `steps[i]` is
/// the builder's data after `i` points.
pub proof fn law_points_kept_in_order<D>(steps: Seq<Seq<D>>, points: Seq<D>)
    requires
        steps.len() == points.len() + 1,
        steps[0].len() == 0,
        forall|i: int| 0 <= i < points.len() ==> #[trigger] steps[i + 1] == steps[i].push(points[i]),
    ensures
        steps[points.len() as int] == points,
{
    assert forall|i: int| 0 <= i <= points.len() implies #[trigger] steps[i] == points.take(i) by {
        lemma_steps_prefix(steps, points, i);
    }
    assert(points.take(points.len() as int) =~= points);
}

proof fn lemma_steps_prefix<D>(steps: Seq<Seq<D>>, points: Seq<D>, i: int)
    requires
        steps.len() == points.len() + 1,
        steps[0].len() == 0,
        forall|i: int| 0 <= i < points.len() ==> #[trigger] steps[i + 1] == steps[i].push(points[i]),
        0 <= i <= points.len(),
    ensures
        steps[i] == points.take(i),
    decreases i,
{
    if i == 0 {
        assert(steps[0] =~= points.take(0));
    } else {
        lemma_steps_prefix(steps, points, i - 1);
        assert(steps[i] == steps[i - 1].push(points[i - 1]));
        assert(points.take(i) =~= points.take(i - 1).push(points[i - 1]));
    }
}

} // verus!

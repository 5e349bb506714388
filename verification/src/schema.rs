//! Schemas: the names and types of the dimensions of a dataset.
use std::marker::PhantomData;
use vstd::prelude::*;

verus! {

/// The internal trait which defines a schema: the type of one data point.
/// Consumers should not implement this trait.
pub trait Schema {
    type Dimensions;
}

/// Starting point for defining the dimensions of a dataset.
pub struct Schemas;

/// A 1-dimensional schema.
pub struct Schema1<T> {
    pub phantom_0: PhantomData<T>,
    pub dimension_0: String,
}

impl<T> Schema for Schema1<T> {
    type Dimensions = (T,);
}

/// A 2-dimensional schema.
pub struct Schema2<T, U> {
    pub phantom_0: PhantomData<T>,
    pub dimension_0: String,
    pub phantom_1: PhantomData<U>,
    pub dimension_1: String,
}

impl<T, U> Schema for Schema2<T, U> {
    type Dimensions = (T, U);
}

/// A 3-dimensional schema.
pub struct Schema3<T, U, V> {
    pub phantom_0: PhantomData<T>,
    pub dimension_0: String,
    pub phantom_1: PhantomData<U>,
    pub dimension_1: String,
    pub phantom_2: PhantomData<V>,
    pub dimension_2: String,
}

impl<T, U, V> Schema for Schema3<T, U, V> {
    type Dimensions = (T, U, V);
}

/// A 4-dimensional schema.
pub struct Schema4<T, U, V, W> {
    pub phantom_0: PhantomData<T>,
    pub dimension_0: String,
    pub phantom_1: PhantomData<U>,
    pub dimension_1: String,
    pub phantom_2: PhantomData<V>,
    pub dimension_2: String,
    pub phantom_3: PhantomData<W>,
    pub dimension_3: String,
}

impl<T, U, V, W> Schema for Schema4<T, U, V, W> {
    type Dimensions = (T, U, V, W);
}

impl Schemas {
    /// Define a 1-dimensional schema, naming its dimension.
    pub fn one<T, N0: Into<String>>(dimension_0: N0) -> (r: Schema1<T>)
        ensures
            call_ensures(N0::into, (dimension_0,), r.dimension_0),
    {
        Schema1 { phantom_0: PhantomData, dimension_0: dimension_0.into() }
    }

    /// Define a 2-dimensional schema, naming its dimensions in order.
    pub fn two<T, U, N0: Into<String>, N1: Into<String>>(
        dimension_0: N0,
        dimension_1: N1,
    ) -> (r: Schema2<T, U>)
        ensures
            call_ensures(N0::into, (dimension_0,), r.dimension_0),
            call_ensures(N1::into, (dimension_1,), r.dimension_1),
    {
        Schema2 {
            phantom_0: PhantomData,
            dimension_0: dimension_0.into(),
            phantom_1: PhantomData,
            dimension_1: dimension_1.into(),
        }
    }

    /// Define a 3-dimensional schema, naming its dimensions in order.
    pub fn three<T, U, V, N0: Into<String>, N1: Into<String>, N2: Into<String>>(
        dimension_0: N0,
        dimension_1: N1,
        dimension_2: N2,
    ) -> (r: Schema3<T, U, V>)
        ensures
            call_ensures(N0::into, (dimension_0,), r.dimension_0),
            call_ensures(N1::into, (dimension_1,), r.dimension_1),
            call_ensures(N2::into, (dimension_2,), r.dimension_2),
    {
        Schema3 {
            phantom_0: PhantomData,
            dimension_0: dimension_0.into(),
            phantom_1: PhantomData,
            dimension_1: dimension_1.into(),
            phantom_2: PhantomData,
            dimension_2: dimension_2.into(),
        }
    }

    /// Define a 4-dimensional schema, naming its dimensions in order.
    pub fn four<T, U, V, W, N0: Into<String>, N1: Into<String>, N2: Into<String>, N3: Into<String>>(
        dimension_0: N0,
        dimension_1: N1,
        dimension_2: N2,
        dimension_3: N3,
    ) -> (r: Schema4<T, U, V, W>)
        ensures
            call_ensures(N0::into, (dimension_0,), r.dimension_0),
            call_ensures(N1::into, (dimension_1,), r.dimension_1),
            call_ensures(N2::into, (dimension_2,), r.dimension_2),
            call_ensures(N3::into, (dimension_3,), r.dimension_3),
    {
        Schema4 {
            phantom_0: PhantomData,
            dimension_0: dimension_0.into(),
            phantom_1: PhantomData,
            dimension_1: dimension_1.into(),
            phantom_2: PhantomData,
            dimension_2: dimension_2.into(),
            phantom_3: PhantomData,
            dimension_3: dimension_3.into(),
        }
    }
}

} // verus!

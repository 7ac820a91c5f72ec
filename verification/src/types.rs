//! Field types a model can declare, with the SQL data type each one maps to.

use vstd::prelude::*;
use crate::table::{DataType, DataTypeV};

verus! {

/// Maps a field type to the SQL data type its column is declared with.
pub trait IntoSQL {
    /// The SQL data type this field type declares.
    spec fn spec_sql() -> DataTypeV;

    fn into_sql() -> (r: DataType)
        ensures
            r@ == Self::spec_sql(),
    ;
}

/// An auto-incrementing 64-bit integer column (`BIGSERIAL`).
#[derive(Debug, Clone, Copy, PartialEq, Eq, Structural, Hash)]
pub struct BigSerial(pub i64);

impl BigSerial {
    /// The underlying value.
    pub fn value(&self) -> (r: i64)
        ensures
            r == self.0,
    {
        self.0
    }
}

impl From<i64> for BigSerial {
    fn from(v: i64) -> (r: BigSerial) {
        BigSerial(v)
    }
}

impl vstd::std_specs::convert::FromSpecImpl<i64> for BigSerial {
    open spec fn obeys_from_spec() -> bool {
        true
    }

    open spec fn from_spec(v: i64) -> BigSerial {
        BigSerial(v)
    }
}

impl IntoSQL for BigSerial {
    open spec fn spec_sql() -> DataTypeV {
        DataTypeV::BigSerial
    }

    fn into_sql() -> (r: DataType) {
        DataType::BigSerial
    }
}

/// A column holding serialized structured data (`JSON`).
#[derive(Debug, Clone)]
pub struct Json<T>(pub T);

impl<T> Json<T> {
    /// A reference to the held value.
    pub fn value(&self) -> (r: &T)
        ensures
            r == self.0,
    {
        &self.0
    }

    /// The held value.
    pub fn into_inner(self) -> (r: T)
        ensures
            r == self.0,
    {
        self.0
    }
}

impl<T> IntoSQL for Json<T> {
    open spec fn spec_sql() -> DataTypeV {
        DataTypeV::Json
    }

    fn into_sql() -> (r: DataType) {
        DataType::Json
    }
}

} // verus!

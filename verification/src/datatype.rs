//! The data types a field can have.

use crate::field::FieldRef;
use crate::fields::{Fields, UnionFields};
use crate::model::DataTypeView;
use crate::shared::{same_allocation, share};
use vstd::prelude::*;
use vstd::std_specs::cmp::PartialEqSpecImpl;

verus! {

/// The logical type of a slot. Scalar types stand for themselves; nested
/// types hold the fields they are made of behind shared handles.
#[derive(Debug, Hash, PartialOrd, Ord)]
pub enum DataType {
    /// The type of slots that hold nothing but nulls.
    Null,
    /// `true` or `false`.
    Boolean,
    /// A signed 8-bit integer.
    Int8,
    /// A signed 16-bit integer.
    Int16,
    /// A signed 32-bit integer.
    Int32,
    /// A signed 64-bit integer.
    Int64,
    /// An unsigned 8-bit integer.
    UInt8,
    /// An unsigned 16-bit integer.
    UInt16,
    /// An unsigned 32-bit integer.
    UInt32,
    /// An unsigned 64-bit integer.
    UInt64,
    /// Text of any length, encoded as UTF-8.
    Utf8,
    /// Bytes of any length.
    Binary,
    /// A list whose items are described by the field.
    List(FieldRef),
    /// A record with the fields in this order.
    Struct(Fields),
    /// A tagged union of the variants.
    Union(UnionFields),
}

impl View for DataType {
    type V = DataTypeView;

    open spec fn view(&self) -> DataTypeView {
        self.model()
    }
}

impl DeepView for DataType {
    type V = DataTypeView;

    open spec fn deep_view(&self) -> DataTypeView {
        self.model()
    }
}

impl DataType {
    /// The shape of this type.
    pub open spec fn model(&self) -> DataTypeView
        decreases self,
    {
        match self {
            DataType::Null => DataTypeView::Null,
            DataType::Boolean => DataTypeView::Boolean,
            DataType::Int8 => DataTypeView::Int8,
            DataType::Int16 => DataTypeView::Int16,
            DataType::Int32 => DataTypeView::Int32,
            DataType::Int64 => DataTypeView::Int64,
            DataType::UInt8 => DataTypeView::UInt8,
            DataType::UInt16 => DataTypeView::UInt16,
            DataType::UInt32 => DataTypeView::UInt32,
            DataType::UInt64 => DataTypeView::UInt64,
            DataType::Utf8 => DataTypeView::Utf8,
            DataType::Binary => DataTypeView::Binary,
            DataType::List(f) => DataTypeView::List(Box::new((**f).model())),
            DataType::Struct(fields) => DataTypeView::Struct(fields.model()),
            DataType::Union(pairs) => DataTypeView::Union(pairs.model()),
        }
    }

    /// Whether `self` is a structural superset of `other`.
    pub fn contains(&self, other: &DataType) -> (r: bool)
        ensures
            r == self@.contains(other@),
        decreases self,
    {
        match (self, other) {
            (DataType::List(a), DataType::List(b)) => a.contains(b),
            (DataType::Struct(a), DataType::Struct(b)) => a.contains(b),
            (DataType::Union(a), DataType::Union(b)) => a.contains(b),
            _ => self.same_scalar(other),
        }
    }

    /// The bytes that this type holds outside the field record it lives in:
    /// nothing for a scalar type, the footprint of the nested fields otherwise.
    pub fn nested_size(&self) -> (r: usize)
        requires
            self@.nested_size() <= usize::MAX,
        ensures
            r == self@.nested_size(),
        decreases self,
    {
        match self {
            DataType::List(f) => f.size(),
            DataType::Struct(fields) => fields.size(),
            DataType::Union(pairs) => pairs.size(),
            _ => 0,
        }
    }

    /// Whether both types have the same shape.
    pub(crate) fn equals(&self, other: &DataType) -> (r: bool)
        ensures
            r == (self@ == other@),
        decreases self,
    {
        match (self, other) {
            (DataType::List(a), DataType::List(b)) => same_allocation(a, b) || a.equals(b),
            (DataType::Struct(a), DataType::Struct(b)) => a.equals(b),
            (DataType::Union(a), DataType::Union(b)) => a.equals(b),
            _ => self.same_scalar(other),
        }
    }

    /// For two types that are not nested types of one kind: whether they
    /// are the same type.
    fn same_scalar(&self, other: &DataType) -> (r: bool)
        requires
            !(self is List && other is List),
            !(self is Struct && other is Struct),
            !(self is Union && other is Union),
        ensures
            r == (self@ == other@),
    {
        match (self, other) {
            (DataType::Null, DataType::Null) => true,
            (DataType::Boolean, DataType::Boolean) => true,
            (DataType::Int8, DataType::Int8) => true,
            (DataType::Int16, DataType::Int16) => true,
            (DataType::Int32, DataType::Int32) => true,
            (DataType::Int64, DataType::Int64) => true,
            (DataType::UInt8, DataType::UInt8) => true,
            (DataType::UInt16, DataType::UInt16) => true,
            (DataType::UInt32, DataType::UInt32) => true,
            (DataType::UInt64, DataType::UInt64) => true,
            (DataType::Utf8, DataType::Utf8) => true,
            (DataType::Binary, DataType::Binary) => true,
            _ => false,
        }
    }
}

impl PartialEqSpecImpl for DataType {
    open spec fn obeys_eq_spec() -> bool {
        true
    }

    open spec fn eq_spec(&self, other: &DataType) -> bool {
        self@ == other@
    }
}

/// Two types are equal when they have the same shape.
impl PartialEq for DataType {
    fn eq(&self, other: &DataType) -> (r: bool) {
        self.equals(other)
    }
}

impl Eq for DataType {}

impl Clone for DataType {
    /// The same type; nested fields are shared, not copied.
    fn clone(&self) -> (r: DataType)
        ensures
            r@ == self@,
    {
        match self {
            DataType::Null => DataType::Null,
            DataType::Boolean => DataType::Boolean,
            DataType::Int8 => DataType::Int8,
            DataType::Int16 => DataType::Int16,
            DataType::Int32 => DataType::Int32,
            DataType::Int64 => DataType::Int64,
            DataType::UInt8 => DataType::UInt8,
            DataType::UInt16 => DataType::UInt16,
            DataType::UInt32 => DataType::UInt32,
            DataType::UInt64 => DataType::UInt64,
            DataType::Utf8 => DataType::Utf8,
            DataType::Binary => DataType::Binary,
            DataType::List(f) => DataType::List(share(f)),
            DataType::Struct(fields) => DataType::Struct(fields.clone()),
            DataType::Union(pairs) => DataType::Union(pairs.clone()),
        }
    }
}

} // verus!

//! One named, typed, nullable slot.

use crate::datatype::DataType;
use crate::model::FieldView;
use crate::shared::same_allocation;
use std::sync::Arc;
use vstd::prelude::*;
use vstd::std_specs::cmp::PartialEqSpecImpl;

verus! {

/// A shared, immutable handle to a field description.
pub type FieldRef = Arc<Field>;

/// The description of one slot: a name, a data type, and whether the slot
/// may hold nulls.
#[derive(Debug, Hash, PartialOrd, Ord)]
pub struct Field {
    name: String,
    data_type: DataType,
    nullable: bool,
}

impl View for Field {
    type V = FieldView;

    open spec fn view(&self) -> FieldView {
        self.model()
    }
}

impl DeepView for Field {
    type V = FieldView;

    open spec fn deep_view(&self) -> FieldView {
        self.model()
    }
}

impl Field {
    /// What this description says.
    pub closed spec fn model(&self) -> FieldView
        decreases self,
    {
        FieldView { name: self.name@, data_type: self.data_type.model(), nullable: self.nullable }
    }

    /// A field with the given name, type and nullability.
    pub fn new(name: &str, data_type: DataType, nullable: bool) -> (f: Field)
        ensures
            f@ == (FieldView { name: name@, data_type: data_type@, nullable }),
    {
        Field { name: name.to_owned(), data_type, nullable }
    }

    /// The field's name.
    pub fn name(&self) -> (r: &String)
        ensures
            r@ == self@.name,
    {
        &self.name
    }

    /// The field's data type.
    pub fn data_type(&self) -> (r: &DataType)
        ensures
            r@ == self@.data_type,
    {
        &self.data_type
    }

    /// Whether the slot may hold nulls.
    pub fn is_nullable(&self) -> (r: bool)
        ensures
            r == self@.nullable,
    {
        self.nullable
    }

    /// The byte footprint of this description: the record itself, the
    /// bytes of its name, and what its type holds behind shared handles.
    pub fn size(&self) -> (r: usize)
        requires
            self@.size() <= usize::MAX,
        ensures
            r == self@.size(),
        decreases self,
    {
        core::mem::size_of::<Field>() + self.name.as_str().len() + self.data_type.nested_size()
    }

    /// Whether both descriptions say the same thing.
    pub(crate) fn equals(&self, other: &Field) -> (r: bool)
        ensures
            r == (self@ == other@),
        decreases self,
    {
        self.name == other.name && self.nullable == other.nullable && self.data_type.equals(
            &other.data_type,
        )
    }

    /// Whether `self` is a structural superset of `other`: any record that
    /// conforms to `other` also conforms to `self`.
    pub fn contains(&self, other: &Field) -> (r: bool)
        ensures
            r == self@.contains(other@),
        decreases self,
    {
        self.name == other.name && (self.nullable || !other.nullable) && self.data_type.contains(
            &other.data_type,
        )
    }
}

impl PartialEqSpecImpl for Field {
    open spec fn obeys_eq_spec() -> bool {
        true
    }

    open spec fn eq_spec(&self, other: &Field) -> bool {
        self@ == other@
    }
}

/// Two fields are equal when they say the same thing.
impl PartialEq for Field {
    fn eq(&self, other: &Field) -> (r: bool) {
        self.equals(other)
    }
}

impl Eq for Field {}

impl Clone for Field {
    /// A description that says the same; nested fields are shared, not copied.
    fn clone(&self) -> (r: Field)
        ensures
            r@ == self@,
    {
        Field {
            name: self.name.clone(),
            data_type: self.data_type.clone(),
            nullable: self.nullable,
        }
    }
}

/// Whether two handles describe the same field. Handles to one allocation
/// do, and are not looked into.
pub fn same_field(a: &FieldRef, b: &FieldRef) -> (r: bool)
    ensures
        r == (a@ == b@),
{
    same_allocation(a, b) || a.equals(b)
}

} // verus!

//! Logical types of a columnar data format: field collections, tagged
//! unions of fields, and the structural comparison and merge rules over them.

pub mod datatype;
pub mod error;
pub mod field;
pub mod fields;
pub mod model;
mod shared;
pub mod sort_options;
pub mod text;

pub use datatype::DataType;
pub use error::ArrowError;
pub use field::{same_field, Field, FieldRef};
pub use fields::{Fields, UnionFields};
pub use sort_options::SortOptions;

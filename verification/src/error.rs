//! `ArrowError`, the failure kinds that operations on the format report.

use crate::text::joined;
use std::string::FromUtf8Error;
use vstd::prelude::*;
use vstd::std_specs::convert::FromSpecImpl;
use vstd::string::to_string_from_display_ensures;

verus! {

/// `std::string::FromUtf8Error`: the bytes that were no valid UTF-8, and
/// where they stop being valid. Nothing of its contents is stated.
#[verifier::external_type_specification]
#[verifier::external_body]
pub struct ExFromUtf8Error(FromUtf8Error);

/// The ways in which an operation can fail. Variants with a `String` carry
/// a description for the reader.
#[derive(Debug)]
pub enum ArrowError {
    /// The functionality is not available yet.
    NotYetImplemented(String),
    /// A value cannot be cast to the type asked for.
    CastError(String),
    /// Memory could not be had or was misused.
    MemoryError(String),
    /// Text or bytes could not be parsed.
    ParseError(String),
    /// Two schemas do not fit together.
    SchemaError(String),
    /// A computation failed.
    ComputeError(String),
    /// A division by zero.
    DivideByZero,
    /// A failure on reading or writing CSV.
    CsvError(String),
    /// A failure on reading or writing JSON.
    JsonError(String),
    /// An argument that the operation does not accept.
    InvalidArgumentError(String),
    /// A failure on reading or writing Parquet files.
    ParquetError(String),
    /// A failure on import from or export to the C data interface.
    CDataInterface(String),
    /// A dictionary has more keys than its key type can count.
    DictionaryKeyOverflowError,
    /// A run-end encoded array is longer than its index type can count.
    RunEndIndexOverflowError,
}

impl ArrowError {
    /// The text of the error: what kind it is, then its description.
    pub open spec fn message(&self) -> Seq<char> {
        match self {
            ArrowError::NotYetImplemented(source) => "Not yet implemented: "@ + source@,
            ArrowError::CastError(desc) => "Cast error: "@ + desc@,
            ArrowError::MemoryError(desc) => "Memory error: "@ + desc@,
            ArrowError::ParseError(desc) => "Parser error: "@ + desc@,
            ArrowError::SchemaError(desc) => "Schema error: "@ + desc@,
            ArrowError::ComputeError(desc) => "Compute error: "@ + desc@,
            ArrowError::DivideByZero => "Divide by zero error"@,
            ArrowError::CsvError(desc) => "Csv error: "@ + desc@,
            ArrowError::JsonError(desc) => "Json error: "@ + desc@,
            ArrowError::InvalidArgumentError(desc) => "Invalid argument error: "@ + desc@,
            ArrowError::ParquetError(desc) => "Parquet argument error: "@ + desc@,
            ArrowError::CDataInterface(desc) => "C Data interface error: "@ + desc@,
            ArrowError::DictionaryKeyOverflowError => "Dictionary key bigger than the key type"@,
            ArrowError::RunEndIndexOverflowError => "Run end encoded array index overflow error"@,
        }
    }

    /// The error as text, for display to a reader.
    pub fn to_string(&self) -> (s: String)
        ensures
            s@ == self.message(),
    {
        match self {
            ArrowError::NotYetImplemented(source) => joined("Not yet implemented: ", source.as_str()),
            ArrowError::CastError(desc) => joined("Cast error: ", desc.as_str()),
            ArrowError::MemoryError(desc) => joined("Memory error: ", desc.as_str()),
            ArrowError::ParseError(desc) => joined("Parser error: ", desc.as_str()),
            ArrowError::SchemaError(desc) => joined("Schema error: ", desc.as_str()),
            ArrowError::ComputeError(desc) => joined("Compute error: ", desc.as_str()),
            ArrowError::DivideByZero => "Divide by zero error".to_owned(),
            ArrowError::CsvError(desc) => joined("Csv error: ", desc.as_str()),
            ArrowError::JsonError(desc) => joined("Json error: ", desc.as_str()),
            ArrowError::InvalidArgumentError(desc) => joined(
                "Invalid argument error: ",
                desc.as_str(),
            ),
            ArrowError::ParquetError(desc) => joined("Parquet argument error: ", desc.as_str()),
            ArrowError::CDataInterface(desc) => joined("C Data interface error: ", desc.as_str()),
            ArrowError::DictionaryKeyOverflowError => "Dictionary key bigger than the key type".to_owned(),
            ArrowError::RunEndIndexOverflowError => "Run end encoded array index overflow error".to_owned(),
        }
    }
}

impl FromSpecImpl<FromUtf8Error> for ArrowError {
    open spec fn obeys_from_spec() -> bool {
        false
    }

    open spec fn from_spec(error: FromUtf8Error) -> ArrowError {
        arbitrary()
    }
}

/// Bytes that are no valid UTF-8 are a parse error, described by what the
/// decoding failure displays as.
impl From<FromUtf8Error> for ArrowError {
    fn from(error: FromUtf8Error) -> (r: ArrowError)
        ensures
            r matches ArrowError::ParseError(desc) && to_string_from_display_ensures::<
                FromUtf8Error,
            >(&error, desc),
    {
        ArrowError::ParseError(error.to_string())
    }
}

} // verus!

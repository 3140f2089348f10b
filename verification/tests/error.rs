use miniarrow_schema::ArrowError;

#[test]
fn error_text_names_the_kind_and_the_description() {
    let d = || "it broke".to_string();
    assert_eq!(
        ArrowError::NotYetImplemented(d()).to_string(),
        "Not yet implemented: it broke"
    );
    assert_eq!(ArrowError::CastError(d()).to_string(), "Cast error: it broke");
    assert_eq!(
        ArrowError::MemoryError(d()).to_string(),
        "Memory error: it broke"
    );
    assert_eq!(
        ArrowError::ParseError(d()).to_string(),
        "Parser error: it broke"
    );
    assert_eq!(
        ArrowError::SchemaError(d()).to_string(),
        "Schema error: it broke"
    );
    assert_eq!(
        ArrowError::ComputeError(d()).to_string(),
        "Compute error: it broke"
    );
    assert_eq!(ArrowError::CsvError(d()).to_string(), "Csv error: it broke");
    assert_eq!(ArrowError::JsonError(d()).to_string(), "Json error: it broke");
    assert_eq!(
        ArrowError::InvalidArgumentError(d()).to_string(),
        "Invalid argument error: it broke"
    );
    assert_eq!(
        ArrowError::ParquetError(d()).to_string(),
        "Parquet argument error: it broke"
    );
    assert_eq!(
        ArrowError::CDataInterface(d()).to_string(),
        "C Data interface error: it broke"
    );
}

#[test]
fn error_text_of_the_kinds_without_description() {
    assert_eq!(ArrowError::DivideByZero.to_string(), "Divide by zero error");
    assert_eq!(
        ArrowError::DictionaryKeyOverflowError.to_string(),
        "Dictionary key bigger than the key type"
    );
    assert_eq!(
        ArrowError::RunEndIndexOverflowError.to_string(),
        "Run end encoded array index overflow error"
    );
}

#[test]
fn error_text_with_empty_description() {
    assert_eq!(
        ArrowError::SchemaError(String::new()).to_string(),
        "Schema error: "
    );
}

#[test]
fn invalid_utf8_becomes_a_parse_error() {
    let failure = String::from_utf8(vec![b'a', 0xff, b'b']).unwrap_err();
    let expected = failure.to_string();
    match ArrowError::from(failure) {
        ArrowError::ParseError(desc) => assert_eq!(desc, expected),
        other => panic!("expected a parse error, got {:?}", other),
    }
}

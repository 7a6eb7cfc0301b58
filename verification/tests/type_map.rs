use chameleon_core::ast::{DefaultValue, FieldType};
use chameleon_core::migration::type_map::{to_postgres_default, to_postgres_type};

#[test]
fn test_basic_types() {
    assert_eq!(to_postgres_type(&FieldType::UUID), "UUID");
    assert_eq!(to_postgres_type(&FieldType::String), "VARCHAR");
    assert_eq!(to_postgres_type(&FieldType::Int), "INTEGER");
    assert_eq!(to_postgres_type(&FieldType::Decimal), "NUMERIC");
    assert_eq!(to_postgres_type(&FieldType::Bool), "BOOLEAN");
    assert_eq!(to_postgres_type(&FieldType::Timestamp), "TIMESTAMP");
    assert_eq!(to_postgres_type(&FieldType::Float), "DOUBLE PRECISION");
}

#[test]
fn type_map_test_vector_type() {
    assert_eq!(to_postgres_type(&FieldType::Vector(384)), "VECTOR(384)");
    assert_eq!(to_postgres_type(&FieldType::Vector(1536)), "VECTOR(1536)");
}

#[test]
fn test_array_type() {
    assert_eq!(
        to_postgres_type(&FieldType::Array(Box::new(FieldType::String))),
        "VARCHAR[]"
    );
    assert_eq!(
        to_postgres_type(&FieldType::Array(Box::new(FieldType::Int))),
        "INTEGER[]"
    );
}

#[test]
fn test_defaults() {
    assert_eq!(to_postgres_default(&DefaultValue::Now), "NOW()");
    assert_eq!(to_postgres_default(&DefaultValue::UUIDv4), "gen_random_uuid()");
    assert_eq!(to_postgres_default(&DefaultValue::Literal("hello".to_string())), "'hello'");
}

#[test]
fn nested_arrays_stack_their_suffixes() {
    let inner = FieldType::Array(Box::new(FieldType::Vector(3)));
    let outer = FieldType::Array(Box::new(inner.clone()));
    assert_eq!(to_postgres_type(&inner), "VECTOR(3)[]");
    assert_eq!(to_postgres_type(&outer), "VECTOR(3)[][]");
    assert_eq!(
        to_postgres_type(&outer),
        format!("{}[]", to_postgres_type(&inner))
    );
}

#[test]
fn vector_dimensions_are_written_in_decimal() {
    assert_eq!(to_postgres_type(&FieldType::Vector(0)), "VECTOR(0)");
    assert_eq!(to_postgres_type(&FieldType::Vector(9)), "VECTOR(9)");
    assert_eq!(to_postgres_type(&FieldType::Vector(10)), "VECTOR(10)");
    assert_eq!(to_postgres_type(&FieldType::Vector(1000000)), "VECTOR(1000000)");
    assert_eq!(
        to_postgres_type(&FieldType::Vector(usize::MAX)),
        format!("VECTOR({})", usize::MAX)
    );
}

#[test]
fn literal_defaults_are_quoted_verbatim() {
    assert_eq!(to_postgres_default(&DefaultValue::Literal(String::new())), "''");
    assert_eq!(
        to_postgres_default(&DefaultValue::Literal("it's".to_string())),
        "'it's'"
    );
}

//! How field types and default values are written in PostgreSQL.

use crate::ast::{DefaultModel, DefaultValue, FieldType};
use crate::text::{decimal, push_decimal};
use vstd::prelude::*;
use vstd::string::*;

verus! {

/// The PostgreSQL column type of a field type. An array is written as the
/// type of its elements with `[]` behind it.
pub open spec fn postgres_type(field_type: FieldType) -> Seq<char>
    decreases field_type,
{
    match field_type {
        FieldType::UUID => "UUID"@,
        FieldType::String => "VARCHAR"@,
        FieldType::Int => "INTEGER"@,
        FieldType::Decimal => "NUMERIC"@,
        FieldType::Bool => "BOOLEAN"@,
        FieldType::Timestamp => "TIMESTAMP"@,
        FieldType::Float => "DOUBLE PRECISION"@,
        FieldType::Vector(dim) => "VECTOR("@ + decimal(dim as nat) + ")"@,
        FieldType::Array(inner) => postgres_type(*inner) + "[]"@,
    }
}

/// The PostgreSQL expression of a default value. A literal is put between
/// single quotes as it stands.
pub open spec fn postgres_default(default: DefaultModel) -> Seq<char> {
    match default {
        DefaultModel::Now => "NOW()"@,
        DefaultModel::UUIDv4 => "gen_random_uuid()"@,
        DefaultModel::Literal(s) => "'"@ + s + "'"@,
    }
}

/// `element` wrapped in `depth` levels of arrays.
pub open spec fn nested_array(element: FieldType, depth: nat) -> FieldType
    decreases depth,
{
    if depth == 0 {
        element
    } else {
        FieldType::Array(Box::new(nested_array(element, (depth - 1) as nat)))
    }
}

/// `"[]"`, `count` times.
pub open spec fn array_suffix(count: nat) -> Seq<char>
    decreases count,
{
    if count == 0 {
        Seq::empty()
    } else {
        array_suffix((count - 1) as nat) + "[]"@
    }
}

/// The type of an array is the type of its elements followed by one `[]` for
/// each level of nesting, whatever the element type is.
pub proof fn lemma_nested_array_type(element: FieldType, depth: nat)
    ensures
        postgres_type(nested_array(element, depth)) == postgres_type(element) + array_suffix(depth),
        postgres_type(FieldType::Array(Box::new(element))) == postgres_type(element) + "[]"@,
    decreases depth,
{
    if depth == 0 {
        assert(postgres_type(element) + array_suffix(0) =~= postgres_type(element));
    } else {
        lemma_nested_array_type(element, (depth - 1) as nat);
        assert(postgres_type(nested_array(element, depth)) =~= postgres_type(element)
            + array_suffix(depth));
    }
}

/// Maps a field type to its PostgreSQL column type.
pub fn to_postgres_type(field_type: &FieldType) -> (r: String)
    ensures
        r@ == postgres_type(*field_type),
    decreases *field_type,
{
    match field_type {
        FieldType::UUID => String::from_str("UUID"),
        FieldType::String => String::from_str("VARCHAR"),
        FieldType::Int => String::from_str("INTEGER"),
        FieldType::Decimal => String::from_str("NUMERIC"),
        FieldType::Bool => String::from_str("BOOLEAN"),
        FieldType::Timestamp => String::from_str("TIMESTAMP"),
        FieldType::Float => String::from_str("DOUBLE PRECISION"),
        FieldType::Vector(dim) => {
            let mut out = String::from_str("VECTOR(");
            push_decimal(&mut out, *dim);
            out.append(")");
            out
        },
        FieldType::Array(inner) => {
            let mut out = to_postgres_type(inner);
            out.append("[]");
            out
        },
    }
}

/// Maps a default value to its PostgreSQL expression.
pub fn to_postgres_default(default: &DefaultValue) -> (r: String)
    ensures
        r@ == postgres_default(default@),
{
    match default {
        DefaultValue::Now => String::from_str("NOW()"),
        DefaultValue::UUIDv4 => String::from_str("gen_random_uuid()"),
        DefaultValue::Literal(s) => {
            let mut out = String::from_str("'");
            out.append(s.as_str());
            out.append("'");
            out
        },
    }
}

} // verus!

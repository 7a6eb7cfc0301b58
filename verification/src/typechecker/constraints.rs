//! Primary keys and backend annotations.

use crate::ast::{
    texts, BackendAnnotation, EntityModel, FieldModel, FieldType, Schema, SchemaModel,
};
use crate::text::{decimal, push_decimal, push_text};
use crate::typechecker::errors::{error_models, TypeCheckError, TypeCheckErrorModel};
use vstd::prelude::*;
use vstd::string::*;

verus! {

/// Appends `error` to `errors`.
pub fn push_error(errors: &mut Vec<TypeCheckError>, error: TypeCheckError)
    ensures
        error_models(final(errors)@) == error_models(old(errors)@).push(error@),
{
    errors.push(error);
    assert(error_models(errors@) =~= error_models(old(errors)@).push(error@));
}

/// Appends `more` to `errors`.
pub fn extend_errors(errors: &mut Vec<TypeCheckError>, more: Vec<TypeCheckError>)
    ensures
        error_models(final(errors)@) == error_models(old(errors)@) + error_models(more@),
{
    let mut rest = more;
    errors.append(&mut rest);
    assert(error_models(errors@) =~= error_models(old(errors)@) + error_models(more@));
}

/// The names of the primary-key fields among the first `upto` fields, in declaration order.
pub open spec fn primary_key_names(entity: EntityModel, upto: int) -> Seq<Seq<char>>
    decreases upto,
{
    if upto <= 0 {
        Seq::empty()
    } else {
        let head = primary_key_names(entity, upto - 1);
        if entity.fields[upto - 1].primary_key {
            head.push(entity.fields[upto - 1].name)
        } else {
            head
        }
    }
}

/// What is wrong with the primary key of one entity: it has none, or more than one.
pub open spec fn entity_key_errors(entity: EntityModel) -> Seq<TypeCheckErrorModel> {
    let keys = primary_key_names(entity, entity.fields.len() as int);
    if keys.len() == 0 {
        seq![TypeCheckErrorModel::MissingPrimaryKey { entity: entity.name }]
    } else if keys.len() == 1 {
        Seq::empty()
    } else {
        seq![TypeCheckErrorModel::MultiplePrimaryKeys { entity: entity.name, fields: keys }]
    }
}

/// The primary-key errors of the first `upto` entities, in declaration order.
pub open spec fn primary_key_errors(schema: SchemaModel, upto: int) -> Seq<TypeCheckErrorModel>
    decreases upto,
{
    if upto <= 0 {
        Seq::empty()
    } else {
        primary_key_errors(schema, upto - 1) + entity_key_errors(schema.entities[upto - 1])
    }
}

/// The name of an annotation as it is written behind `@`.
pub open spec fn annotation_name(annotation: BackendAnnotation) -> Seq<char> {
    match annotation {
        BackendAnnotation::OLTP => "oltp"@,
        BackendAnnotation::Cache => "cache"@,
        BackendAnnotation::OLAP => "olap"@,
        BackendAnnotation::Vector => "vector"@,
        BackendAnnotation::ML => "ml"@,
    }
}

/// A field type as it is shown in a finding: the name of the variant, with
/// what it holds between round brackets.
pub open spec fn variant_text(field_type: FieldType) -> Seq<char>
    decreases field_type,
{
    match field_type {
        FieldType::UUID => "UUID"@,
        FieldType::String => "String"@,
        FieldType::Int => "Int"@,
        FieldType::Decimal => "Decimal"@,
        FieldType::Bool => "Bool"@,
        FieldType::Timestamp => "Timestamp"@,
        FieldType::Float => "Float"@,
        FieldType::Vector(dim) => "Vector("@ + decimal(dim as nat) + ")"@,
        FieldType::Array(inner) => "Array("@ + variant_text(*inner) + ")"@,
    }
}

/// What is wrong with the annotation of one field: a vector annotation on a
/// field of another type, then an annotation on a primary key, then an
/// annotation on a unique field. A field without annotation has no error.
pub open spec fn field_annotation_errors(entity: Seq<char>, field: FieldModel) -> Seq<
    TypeCheckErrorModel,
> {
    match field.backend {
        None => Seq::empty(),
        Some(annotation) => (if annotation == BackendAnnotation::Vector && !(field.field_type is Vector) {
            seq![
                TypeCheckErrorModel::InvalidVectorAnnotation {
                    entity,
                    field: field.name,
                    actual_type: variant_text(field.field_type),
                },
            ]
        } else {
            Seq::empty()
        }) + (if field.primary_key {
            seq![
                TypeCheckErrorModel::AnnotationOnConstrainedField {
                    entity,
                    field: field.name,
                    constraint: "primary"@,
                    annotation: annotation_name(annotation),
                },
            ]
        } else {
            Seq::empty()
        }) + (if field.unique {
            seq![
                TypeCheckErrorModel::AnnotationOnConstrainedField {
                    entity,
                    field: field.name,
                    constraint: "unique"@,
                    annotation: annotation_name(annotation),
                },
            ]
        } else {
            Seq::empty()
        }),
    }
}

/// The annotation errors of the first `upto` fields of an entity.
pub open spec fn entity_annotation_errors(entity: EntityModel, upto: int) -> Seq<
    TypeCheckErrorModel,
>
    decreases upto,
{
    if upto <= 0 {
        Seq::empty()
    } else {
        entity_annotation_errors(entity, upto - 1) + field_annotation_errors(
            entity.name,
            entity.fields[upto - 1],
        )
    }
}

/// The annotation errors of the first `upto` entities, in declaration order.
pub open spec fn annotation_errors(schema: SchemaModel, upto: int) -> Seq<TypeCheckErrorModel>
    decreases upto,
{
    if upto <= 0 {
        Seq::empty()
    } else {
        annotation_errors(schema, upto - 1) + entity_annotation_errors(
            schema.entities[upto - 1],
            schema.entities[upto - 1].fields.len() as int,
        )
    }
}

/// Checks that every entity has exactly one primary key.
pub fn check_primary_keys(schema: &Schema) -> (errors: Vec<TypeCheckError>)
    ensures
        error_models(errors@) == primary_key_errors(schema@, schema.entities.len() as int),
{
    let mut errors: Vec<TypeCheckError> = Vec::new();
    assert(error_models(errors@) =~= Seq::<TypeCheckErrorModel>::empty());

    let mut i: usize = 0;
    while i < schema.entities.len()
        invariant
            i <= schema.entities.len(),
            error_models(errors@) == primary_key_errors(schema@, i as int),
        decreases schema.entities.len() - i,
    {
        let entity = &schema.entities[i];
        assert(schema@.entities[i as int] == entity@);
        let mut primary_keys: Vec<String> = Vec::new();
        assert(texts(primary_keys@) =~= Seq::<Seq<char>>::empty());
        let mut j: usize = 0;
        while j < entity.fields.len()
            invariant
                j <= entity.fields.len(),
                texts(primary_keys@) == primary_key_names(entity@, j as int),
            decreases entity.fields.len() - j,
        {
            let field = &entity.fields[j];
            assert(entity@.fields[j as int] == field@);
            if field.primary_key {
                push_text(&mut primary_keys, field.name.clone());
            }
            j += 1;
        }

        let ghost before = error_models(errors@);
        if primary_keys.len() == 0 {
            push_error(&mut errors, TypeCheckError::MissingPrimaryKey { entity: entity.name.clone() });
        } else if primary_keys.len() > 1 {
            push_error(
                &mut errors,
                TypeCheckError::MultiplePrimaryKeys {
                    entity: entity.name.clone(),
                    fields: primary_keys,
                },
            );
        }
        assert(error_models(errors@) =~= before + entity_key_errors(entity@));
        i += 1;
    }
    errors
}

/// The name of an annotation as it is written behind `@`.
pub fn annotation_text(annotation: BackendAnnotation) -> (r: String)
    ensures
        r@ == annotation_name(annotation),
{
    match annotation {
        BackendAnnotation::OLTP => String::from_str("oltp"),
        BackendAnnotation::Cache => String::from_str("cache"),
        BackendAnnotation::OLAP => String::from_str("olap"),
        BackendAnnotation::Vector => String::from_str("vector"),
        BackendAnnotation::ML => String::from_str("ml"),
    }
}

/// A field type as it is shown in a finding.
pub fn type_text(field_type: &FieldType) -> (r: String)
    ensures
        r@ == variant_text(*field_type),
    decreases *field_type,
{
    match field_type {
        FieldType::UUID => String::from_str("UUID"),
        FieldType::String => String::from_str("String"),
        FieldType::Int => String::from_str("Int"),
        FieldType::Decimal => String::from_str("Decimal"),
        FieldType::Bool => String::from_str("Bool"),
        FieldType::Timestamp => String::from_str("Timestamp"),
        FieldType::Float => String::from_str("Float"),
        FieldType::Vector(dim) => {
            let mut out = String::from_str("Vector(");
            push_decimal(&mut out, *dim);
            out.append(")");
            out
        },
        FieldType::Array(inner) => {
            let mut out = String::from_str("Array(");
            let element = type_text(inner);
            out.append(element.as_str());
            out.append(")");
            out
        },
    }
}

/// Checks that the backend annotations fit the fields they stand on.
pub fn check_annotations(schema: &Schema) -> (errors: Vec<TypeCheckError>)
    ensures
        error_models(errors@) == annotation_errors(schema@, schema.entities.len() as int),
{
    let mut errors: Vec<TypeCheckError> = Vec::new();
    assert(error_models(errors@) =~= Seq::<TypeCheckErrorModel>::empty());

    let mut i: usize = 0;
    while i < schema.entities.len()
        invariant
            i <= schema.entities.len(),
            error_models(errors@) == annotation_errors(schema@, i as int),
        decreases schema.entities.len() - i,
    {
        let entity = &schema.entities[i];
        assert(schema@.entities[i as int] == entity@);
        let ghost before = error_models(errors@);
        assert(before =~= before + entity_annotation_errors(entity@, 0));
        let mut j: usize = 0;
        while j < entity.fields.len()
            invariant
                j <= entity.fields.len(),
                error_models(errors@) == before + entity_annotation_errors(entity@, j as int),
            decreases entity.fields.len() - j,
        {
            let field = &entity.fields[j];
            assert(entity@.fields[j as int] == field@);
            let ghost so_far = error_models(errors@);
            match field.backend {
                Some(annotation) => {
                    let is_vector_annotation = match annotation {
                        BackendAnnotation::Vector => true,
                        _ => false,
                    };
                    let is_vector_type = match &field.field_type {
                        FieldType::Vector(_) => true,
                        _ => false,
                    };
                    if is_vector_annotation && !is_vector_type {
                        push_error(
                            &mut errors,
                            TypeCheckError::InvalidVectorAnnotation {
                                entity: entity.name.clone(),
                                field: field.name.clone(),
                                actual_type: type_text(&field.field_type),
                            },
                        );
                    }
                    if field.primary_key {
                        push_error(
                            &mut errors,
                            TypeCheckError::AnnotationOnConstrainedField {
                                entity: entity.name.clone(),
                                field: field.name.clone(),
                                constraint: String::from_str("primary"),
                                annotation: annotation_text(annotation),
                            },
                        );
                    }
                    if field.unique {
                        push_error(
                            &mut errors,
                            TypeCheckError::AnnotationOnConstrainedField {
                                entity: entity.name.clone(),
                                field: field.name.clone(),
                                constraint: String::from_str("unique"),
                                annotation: annotation_text(annotation),
                            },
                        );
                    }
                },
                None => {},
            }
            assert(error_models(errors@) =~= so_far + field_annotation_errors(
                entity@.name,
                field@,
            ));
            assert(error_models(errors@) =~= before + entity_annotation_errors(entity@, j + 1));
            j += 1;
        }
        i += 1;
    }
    errors
}

} // verus!

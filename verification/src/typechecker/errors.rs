//! The findings of the type checker.

use crate::ast::texts;
use crate::text::{bracket_list, debug_quoted, decimal, join, push_decimal, push_text, quoted};
use vstd::prelude::*;
use vstd::string::*;

verus! {

/// One semantic defect of a schema.
#[derive(Debug, Clone, PartialEq)]
pub enum TypeCheckError {
    UnknownRelationTarget { entity: String, relation: String, target: String },
    InvalidForeignKey { entity: String, relation: String, target: String, foreign_key: String },
    MissingForeignKey { entity: String, relation: String },
    MissingPrimaryKey { entity: String },
    MultiplePrimaryKeys { entity: String, fields: Vec<String> },
    InvalidVectorAnnotation { entity: String, field: String, actual_type: String },
    /// `constraint` is `primary` or `unique`.
    AnnotationOnConstrainedField {
        entity: String,
        field: String,
        constraint: String,
        annotation: String,
    },
    CircularDependency { cycle: Vec<String> },
    /// `first` and `second` count the entities from 1.
    DuplicateEntity { entity: String, first: usize, second: usize },
    DuplicateField { entity: String, field: String },
}

/// The model of a [`TypeCheckError`].
pub enum TypeCheckErrorModel {
    UnknownRelationTarget { entity: Seq<char>, relation: Seq<char>, target: Seq<char> },
    InvalidForeignKey {
        entity: Seq<char>,
        relation: Seq<char>,
        target: Seq<char>,
        foreign_key: Seq<char>,
    },
    MissingForeignKey { entity: Seq<char>, relation: Seq<char> },
    MissingPrimaryKey { entity: Seq<char> },
    MultiplePrimaryKeys { entity: Seq<char>, fields: Seq<Seq<char>> },
    InvalidVectorAnnotation { entity: Seq<char>, field: Seq<char>, actual_type: Seq<char> },
    AnnotationOnConstrainedField {
        entity: Seq<char>,
        field: Seq<char>,
        constraint: Seq<char>,
        annotation: Seq<char>,
    },
    CircularDependency { cycle: Seq<Seq<char>> },
    DuplicateEntity { entity: Seq<char>, first: nat, second: nat },
    DuplicateField { entity: Seq<char>, field: Seq<char> },
}

impl View for TypeCheckError {
    type V = TypeCheckErrorModel;

    open spec fn view(&self) -> TypeCheckErrorModel {
        match *self {
            TypeCheckError::UnknownRelationTarget { entity, relation, target } => {
                TypeCheckErrorModel::UnknownRelationTarget {
                    entity: entity@,
                    relation: relation@,
                    target: target@,
                }
            },
            TypeCheckError::InvalidForeignKey { entity, relation, target, foreign_key } => {
                TypeCheckErrorModel::InvalidForeignKey {
                    entity: entity@,
                    relation: relation@,
                    target: target@,
                    foreign_key: foreign_key@,
                }
            },
            TypeCheckError::MissingForeignKey { entity, relation } => {
                TypeCheckErrorModel::MissingForeignKey { entity: entity@, relation: relation@ }
            },
            TypeCheckError::MissingPrimaryKey { entity } => {
                TypeCheckErrorModel::MissingPrimaryKey { entity: entity@ }
            },
            TypeCheckError::MultiplePrimaryKeys { entity, fields } => {
                TypeCheckErrorModel::MultiplePrimaryKeys {
                    entity: entity@,
                    fields: texts(fields@),
                }
            },
            TypeCheckError::InvalidVectorAnnotation { entity, field, actual_type } => {
                TypeCheckErrorModel::InvalidVectorAnnotation {
                    entity: entity@,
                    field: field@,
                    actual_type: actual_type@,
                }
            },
            TypeCheckError::AnnotationOnConstrainedField {
                entity,
                field,
                constraint,
                annotation,
            } => {
                TypeCheckErrorModel::AnnotationOnConstrainedField {
                    entity: entity@,
                    field: field@,
                    constraint: constraint@,
                    annotation: annotation@,
                }
            },
            TypeCheckError::CircularDependency { cycle } => {
                TypeCheckErrorModel::CircularDependency { cycle: texts(cycle@) }
            },
            TypeCheckError::DuplicateEntity { entity, first, second } => {
                TypeCheckErrorModel::DuplicateEntity {
                    entity: entity@,
                    first: first as nat,
                    second: second as nat,
                }
            },
            TypeCheckError::DuplicateField { entity, field } => {
                TypeCheckErrorModel::DuplicateField { entity: entity@, field: field@ }
            },
        }
    }
}

/// The models of a list of errors.
pub open spec fn error_models(v: Seq<TypeCheckError>) -> Seq<TypeCheckErrorModel> {
    Seq::new(v.len(), |i: int| v[i]@)
}

/// A list of names as the standard library's `Debug` prints a list of strings:
/// between square brackets, each name quoted and escaped, with `", "` between them.
pub open spec fn debug_list(names: Seq<Seq<char>>) -> Seq<char> {
    "["@ + join(Seq::new(names.len(), |i: int| quoted(names[i])), ", "@) + "]"@
}

impl TypeCheckErrorModel {
    /// The error in words.
    pub open spec fn message(self) -> Seq<char> {
        match self {
            TypeCheckErrorModel::UnknownRelationTarget { entity, relation, target } => "Entity '"@
                + entity + "' references unknown entity '"@ + target + "' in relation '"@
                + relation + "'"@,
            TypeCheckErrorModel::InvalidForeignKey { entity, relation, target, foreign_key } =>
                "Relation '"@ + relation + "' in '"@ + entity + "' references foreign key '"@
                    + foreign_key + "', but '"@ + target + "' has no such field"@,
            TypeCheckErrorModel::MissingForeignKey { entity, relation } => "HasMany relation '"@
                + relation + "' in '"@ + entity + "' requires a 'via' foreign key"@,
            TypeCheckErrorModel::MissingPrimaryKey { entity } => "Entity '"@ + entity
                + "' has no primary key"@,
            TypeCheckErrorModel::MultiplePrimaryKeys { entity, fields } => "Entity '"@ + entity
                + "' has multiple primary keys: "@ + debug_list(fields),
            TypeCheckErrorModel::InvalidVectorAnnotation { entity, field, actual_type } =>
                "Field '"@ + field + "' in '"@ + entity + "' uses @vector but type is '"@
                    + actual_type + "', expected vector(N)"@,
            TypeCheckErrorModel::AnnotationOnConstrainedField {
                entity,
                field,
                constraint,
                annotation,
            } => "Field '"@ + field + "' in '"@ + entity + "' is "@ + constraint
                + " and cannot have @"@ + annotation + " annotation"@,
            TypeCheckErrorModel::CircularDependency { cycle } => "Circular dependency detected: "@
                + debug_list(cycle),
            TypeCheckErrorModel::DuplicateEntity { entity, first, second } =>
                "Duplicate entity name '"@ + entity + "' (first defined at #"@ + decimal(first)
                    + ", redefined at #"@ + decimal(second) + ")"@,
            TypeCheckErrorModel::DuplicateField { entity, field } => "Duplicate field name '"@
                + field + "' in entity '"@ + entity + "'"@,
        }
    }
}

/// A list of names as `Debug` prints it.
pub fn debug_names(names: &Vec<String>) -> (r: String)
    ensures
        r@ == debug_list(texts(names@)),
{
    let mut items: Vec<String> = Vec::new();
    let ghost wanted = Seq::new(names.len() as nat, |i: int| quoted(texts(names@)[i]));
    let mut i: usize = 0;
    while i < names.len()
        invariant
            i <= names.len(),
            wanted == Seq::new(names.len() as nat, |i: int| quoted(texts(names@)[i])),
            texts(items@) == wanted.take(i as int),
        decreases names.len() - i,
    {
        let item = debug_quoted(names[i].as_str());
        push_text(&mut items, item);
        assert(texts(items@) =~= wanted.take(i + 1));
        i += 1;
    }
    assert(wanted.take(names.len() as int) =~= wanted);
    assert(wanted =~= Seq::new(texts(names@).len(), |i: int| quoted(texts(names@)[i])));
    bracket_list(&items)
}

impl TypeCheckError {
    /// The error in words.
    pub fn message(&self) -> (r: String)
        ensures
            r@ == self@.message(),
    {
        match self {
            TypeCheckError::UnknownRelationTarget { entity, relation, target } => {
                let mut out = String::from_str("Entity '");
                out.append(entity.as_str());
                out.append("' references unknown entity '");
                out.append(target.as_str());
                out.append("' in relation '");
                out.append(relation.as_str());
                out.append("'");
                out
            },
            TypeCheckError::InvalidForeignKey { entity, relation, target, foreign_key } => {
                let mut out = String::from_str("Relation '");
                out.append(relation.as_str());
                out.append("' in '");
                out.append(entity.as_str());
                out.append("' references foreign key '");
                out.append(foreign_key.as_str());
                out.append("', but '");
                out.append(target.as_str());
                out.append("' has no such field");
                out
            },
            TypeCheckError::MissingForeignKey { entity, relation } => {
                let mut out = String::from_str("HasMany relation '");
                out.append(relation.as_str());
                out.append("' in '");
                out.append(entity.as_str());
                out.append("' requires a 'via' foreign key");
                out
            },
            TypeCheckError::MissingPrimaryKey { entity } => {
                let mut out = String::from_str("Entity '");
                out.append(entity.as_str());
                out.append("' has no primary key");
                out
            },
            TypeCheckError::MultiplePrimaryKeys { entity, fields } => {
                let mut out = String::from_str("Entity '");
                out.append(entity.as_str());
                out.append("' has multiple primary keys: ");
                let list = debug_names(fields);
                out.append(list.as_str());
                out
            },
            TypeCheckError::InvalidVectorAnnotation { entity, field, actual_type } => {
                let mut out = String::from_str("Field '");
                out.append(field.as_str());
                out.append("' in '");
                out.append(entity.as_str());
                out.append("' uses @vector but type is '");
                out.append(actual_type.as_str());
                out.append("', expected vector(N)");
                out
            },
            TypeCheckError::AnnotationOnConstrainedField {
                entity,
                field,
                constraint,
                annotation,
            } => {
                let mut out = String::from_str("Field '");
                out.append(field.as_str());
                out.append("' in '");
                out.append(entity.as_str());
                out.append("' is ");
                out.append(constraint.as_str());
                out.append(" and cannot have @");
                out.append(annotation.as_str());
                out.append(" annotation");
                out
            },
            TypeCheckError::CircularDependency { cycle } => {
                let mut out = String::from_str("Circular dependency detected: ");
                let list = debug_names(cycle);
                out.append(list.as_str());
                out
            },
            TypeCheckError::DuplicateEntity { entity, first, second } => {
                let mut out = String::from_str("Duplicate entity name '");
                out.append(entity.as_str());
                out.append("' (first defined at #");
                push_decimal(&mut out, *first);
                out.append(", redefined at #");
                push_decimal(&mut out, *second);
                out.append(")");
                out
            },
            TypeCheckError::DuplicateField { entity, field } => {
                let mut out = String::from_str("Duplicate field name '");
                out.append(field.as_str());
                out.append("' in entity '");
                out.append(entity.as_str());
                out.append("'");
                out
            },
        }
    }
}

} // verus!

//! Every defect is reported once: the findings are as many as the defects.

use crate::ast::{BackendAnnotation, EntityModel, FieldModel, SchemaModel};
use crate::text::{lemma_position, position};
use crate::typechecker::constraints::{
    annotation_errors, entity_annotation_errors, primary_key_errors, primary_key_names,
};
use crate::typechecker::cycles::cycle_errors;
use crate::typechecker::relations::{entity_relation_errors, relation_error, relation_errors};
use crate::typechecker::{duplicate_field_errors, repeats, repeats_of, semantic_errors};
use vstd::prelude::*;

verus! {

/// How many of the first `upto` names have occurred before.
pub open spec fn repeated_names(names: Seq<Seq<char>>, upto: int) -> nat
    decreases upto,
{
    if upto <= 0 {
        0
    } else {
        repeated_names(names, upto - 1) + if position(names, names[upto - 1]) < upto - 1 {
            1nat
        } else {
            0nat
        }
    }
}

/// How many fields of the first `upto` entities bear a name that an earlier field
/// of their entity bears.
pub open spec fn repeated_fields(schema: SchemaModel, upto: int) -> nat
    decreases upto,
{
    if upto <= 0 {
        0
    } else {
        repeated_fields(schema, upto - 1) + repeated_names(
            schema.entities[upto - 1].field_names(),
            schema.entities[upto - 1].fields.len() as int,
        )
    }
}

/// How many of the first `upto` relations of `entity` have something wrong with them.
pub open spec fn broken_relations_of(schema: SchemaModel, entity: EntityModel, upto: int) -> nat
    decreases upto,
{
    if upto <= 0 {
        0
    } else {
        broken_relations_of(schema, entity, upto - 1) + if relation_error(
            schema,
            entity.name,
            entity.relations[upto - 1],
        ) is Some {
            1nat
        } else {
            0nat
        }
    }
}

/// How many relations of the first `upto` entities have something wrong with them.
pub open spec fn broken_relations(schema: SchemaModel, upto: int) -> nat
    decreases upto,
{
    if upto <= 0 {
        0
    } else {
        broken_relations(schema, upto - 1) + broken_relations_of(
            schema,
            schema.entities[upto - 1],
            schema.entities[upto - 1].relations.len() as int,
        )
    }
}

/// How many of the first `upto` entities have no primary key, or more than one.
pub open spec fn broken_keys(schema: SchemaModel, upto: int) -> nat
    decreases upto,
{
    if upto <= 0 {
        0
    } else {
        broken_keys(schema, upto - 1) + if primary_key_names(
            schema.entities[upto - 1],
            schema.entities[upto - 1].fields.len() as int,
        ).len() != 1 {
            1nat
        } else {
            0nat
        }
    }
}

/// How many rules the annotation of a field breaks: a vector annotation on
/// another type, an annotation on a primary key, an annotation on a unique field.
pub open spec fn annotation_defects(field: FieldModel) -> nat {
    match field.backend {
        None => 0,
        Some(annotation) => (if annotation == BackendAnnotation::Vector && !(field.field_type is Vector) {
            1nat
        } else {
            0nat
        }) + (if field.primary_key {
            1nat
        } else {
            0nat
        }) + (if field.unique {
            1nat
        } else {
            0nat
        }),
    }
}

/// The annotation defects of the first `upto` fields of `entity`.
pub open spec fn broken_annotations_of(entity: EntityModel, upto: int) -> nat
    decreases upto,
{
    if upto <= 0 {
        0
    } else {
        broken_annotations_of(entity, upto - 1) + annotation_defects(entity.fields[upto - 1])
    }
}

/// The annotation defects of the first `upto` entities.
pub open spec fn broken_annotations(schema: SchemaModel, upto: int) -> nat
    decreases upto,
{
    if upto <= 0 {
        0
    } else {
        broken_annotations(schema, upto - 1) + broken_annotations_of(
            schema.entities[upto - 1],
            schema.entities[upto - 1].fields.len() as int,
        )
    }
}

/// The defects of a schema, each counted once: repeated entity names,
/// repeated field names, broken relations, broken primary keys, broken
/// annotations, and cycles. The first five are counted on the schema itself.
/// Cycles are counted as the search counts them: one for each search from a
/// root that closes a cycle, so that cycles which one search would meet one
/// after the other count once. Of this last count by itself nothing more is
/// said here; that it is zero exactly where the relations form no cycle is
/// proved with the search.
pub open spec fn defect_count(schema: SchemaModel) -> nat {
    let n = schema.entities.len() as int;
    repeated_names(schema.names(), n) + repeated_fields(schema, n) + broken_relations(schema, n)
        + broken_keys(schema, n) + broken_annotations(schema, n) + cycle_errors(schema).len()
}

/// How many of the first `upto` names are repetitions of a name that occurs first before `below`.
pub open spec fn repeated_below(names: Seq<Seq<char>>, below: int, upto: int) -> nat
    decreases upto,
{
    if upto <= 0 {
        0
    } else {
        repeated_below(names, below, upto - 1) + if position(names, names[upto - 1]) < upto - 1
            && position(names, names[upto - 1]) < below {
            1nat
        } else {
            0nat
        }
    }
}

/// How many of the first `upto` names are repetitions of a name that occurs first at `first`.
pub open spec fn repeated_at(names: Seq<Seq<char>>, first: int, upto: int) -> nat
    decreases upto,
{
    if upto <= 0 {
        0
    } else {
        repeated_at(names, first, upto - 1) + if position(names, names[upto - 1]) < upto - 1
            && position(names, names[upto - 1]) == first {
            1nat
        } else {
            0nat
        }
    }
}

/// The repetitions of names first seen before `below + 1` are those of names first
/// seen before `below` and those of the name first seen at `below`.
proof fn lemma_repeated_split(names: Seq<Seq<char>>, below: int, upto: int)
    requires
        0 <= upto <= names.len(),
    ensures
        repeated_below(names, below + 1, upto) == repeated_below(names, below, upto) + repeated_at(
            names,
            below,
            upto,
        ),
    decreases upto,
{
    if upto > 0 {
        lemma_repeated_split(names, below, upto - 1);
    }
}

/// The repetitions of the name first seen at `first` are those that are listed for it.
proof fn lemma_repeated_at(names: Seq<Seq<char>>, first: int, upto: int)
    requires
        0 <= first < names.len(),
        0 <= upto <= names.len(),
    ensures
        repeated_at(names, first, upto) == if position(names, names[first]) == first {
            repeats_of(names, first, upto).len()
        } else {
            0
        },
    decreases upto,
{
    if upto > 0 {
        lemma_repeated_at(names, first, upto - 1);
        lemma_position(names, names[upto - 1]);
        lemma_position(names, names[first]);
    }
}

/// Every repetition is one of a name first seen before it.
proof fn lemma_repeated_all(names: Seq<Seq<char>>, below: int, upto: int)
    requires
        0 <= upto <= names.len(),
        upto <= below,
    ensures
        repeated_below(names, below, upto) == repeated_names(names, upto),
    decreases upto,
{
    if upto > 0 {
        lemma_repeated_all(names, below, upto - 1);
        lemma_position(names, names[upto - 1]);
    }
}

/// No name is first seen before the first position.
proof fn lemma_repeated_none(names: Seq<Seq<char>>, upto: int)
    requires
        0 <= upto <= names.len(),
    ensures
        repeated_below(names, 0, upto) == 0,
    decreases upto,
{
    if upto > 0 {
        lemma_repeated_none(names, upto - 1);
        lemma_position(names, names[upto - 1]);
    }
}

/// The pairs listed for the names first seen before `below` are as many as their repetitions.
proof fn lemma_repeats_below(names: Seq<Seq<char>>, below: int)
    requires
        0 <= below <= names.len(),
    ensures
        repeats(names, below).len() == repeated_below(names, below, names.len() as int),
    decreases below,
{
    if below <= 0 {
        lemma_repeated_none(names, names.len() as int);
    } else {
        lemma_repeats_below(names, below - 1);
        lemma_repeated_split(names, below - 1, names.len() as int);
        lemma_repeated_at(names, below - 1, names.len() as int);
    }
}

/// Each name is reported once for each of its occurrences but the first.
pub proof fn lemma_repeats_count(names: Seq<Seq<char>>)
    ensures
        repeats(names, names.len() as int).len() == repeated_names(names, names.len() as int),
{
    lemma_repeats_below(names, names.len() as int);
    lemma_repeated_all(names, names.len() as int, names.len() as int);
}

/// One error for each repeated field name.
proof fn lemma_duplicate_fields_count(schema: SchemaModel, upto: int)
    requires
        0 <= upto <= schema.entities.len(),
    ensures
        duplicate_field_errors(schema, upto).len() == repeated_fields(schema, upto),
    decreases upto,
{
    if upto > 0 {
        lemma_duplicate_fields_count(schema, upto - 1);
        lemma_repeats_count(schema.entities[upto - 1].field_names());
    }
}

/// One error for each broken relation of an entity.
proof fn lemma_entity_relations_count(schema: SchemaModel, entity: EntityModel, upto: int)
    requires
        0 <= upto <= entity.relations.len(),
    ensures
        entity_relation_errors(schema, entity, upto).len() == broken_relations_of(
            schema,
            entity,
            upto,
        ),
    decreases upto,
{
    if upto > 0 {
        lemma_entity_relations_count(schema, entity, upto - 1);
    }
}

/// One error for each broken relation.
proof fn lemma_relations_count(schema: SchemaModel, upto: int)
    requires
        0 <= upto <= schema.entities.len(),
    ensures
        relation_errors(schema, upto).len() == broken_relations(schema, upto),
    decreases upto,
{
    if upto > 0 {
        lemma_relations_count(schema, upto - 1);
        lemma_entity_relations_count(
            schema,
            schema.entities[upto - 1],
            schema.entities[upto - 1].relations.len() as int,
        );
    }
}

/// One error for each entity whose primary key is broken.
proof fn lemma_keys_count(schema: SchemaModel, upto: int)
    requires
        0 <= upto <= schema.entities.len(),
    ensures
        primary_key_errors(schema, upto).len() == broken_keys(schema, upto),
    decreases upto,
{
    if upto > 0 {
        lemma_keys_count(schema, upto - 1);
    }
}

/// One error for each rule that an annotation of an entity breaks.
proof fn lemma_entity_annotations_count(entity: EntityModel, upto: int)
    requires
        0 <= upto <= entity.fields.len(),
    ensures
        entity_annotation_errors(entity, upto).len() == broken_annotations_of(entity, upto),
    decreases upto,
{
    if upto > 0 {
        lemma_entity_annotations_count(entity, upto - 1);
    }
}

/// One error for each rule that an annotation breaks.
proof fn lemma_annotations_count(schema: SchemaModel, upto: int)
    requires
        0 <= upto <= schema.entities.len(),
    ensures
        annotation_errors(schema, upto).len() == broken_annotations(schema, upto),
    decreases upto,
{
    if upto > 0 {
        lemma_annotations_count(schema, upto - 1);
        lemma_entity_annotations_count(
            schema.entities[upto - 1],
            schema.entities[upto - 1].fields.len() as int,
        );
    }
}

/// Completeness: the type checker reports every defect, and each once; no
/// finding keeps another from being reported. For cycles this says that
/// what the searches find is reported beside the other findings.
pub proof fn lemma_every_defect_is_reported(schema: SchemaModel)
    ensures
        semantic_errors(schema).len() == defect_count(schema),
{
    let n = schema.entities.len() as int;
    lemma_repeats_count(schema.names());
    lemma_duplicate_fields_count(schema, n);
    lemma_relations_count(schema, n);
    lemma_keys_count(schema, n);
    lemma_annotations_count(schema, n);
}

} // verus!

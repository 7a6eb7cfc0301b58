//! The type checker: every semantic defect of a schema, in one list.

pub mod completeness;
pub mod constraints;
pub mod cycles;
pub mod errors;
pub mod relations;

use crate::ast::{texts, EntityModel, Schema, SchemaModel};
use crate::text::{decimal, find_text, lemma_position, position, push_decimal, push_text};
use crate::typechecker::completeness::{defect_count, lemma_every_defect_is_reported};
use crate::typechecker::constraints::{
    annotation_errors, check_annotations, check_primary_keys, extend_errors, primary_key_errors,
    push_error,
};
use crate::typechecker::errors::{error_models, TypeCheckError, TypeCheckErrorModel};
use crate::typechecker::cycles::cycle_errors;
use crate::typechecker::relations::{check_circular_dependencies, check_relations, relation_errors};
use vstd::prelude::*;
use vstd::string::*;

verus! {

/// What the type checker found.
#[derive(Debug, Clone)]
pub struct TypeCheckResult {
    pub errors: Vec<TypeCheckError>,
}

/// The repetitions of `names[first]` behind `first` and before `upto`: each
/// as the pair of `first` and the index of the repetition, in ascending order.
pub open spec fn repeats_of(names: Seq<Seq<char>>, first: int, upto: int) -> Seq<(int, int)>
    decreases upto - first,
{
    if upto <= first + 1 {
        Seq::empty()
    } else {
        let head = repeats_of(names, first, upto - 1);
        if names[upto - 1] == names[first] {
            head.push((first, upto - 1))
        } else {
            head
        }
    }
}

/// The repetitions among `names`, grouped by name: for each name whose first
/// occurrence stands before `upto`, in the order of these first occurrences,
/// all its later occurrences.
pub open spec fn repeats(names: Seq<Seq<char>>, upto: int) -> Seq<(int, int)>
    decreases upto,
{
    if upto <= 0 {
        Seq::empty()
    } else {
        let head = repeats(names, upto - 1);
        if position(names, names[upto - 1]) == upto - 1 {
            head + repeats_of(names, upto - 1, names.len() as int)
        } else {
            head
        }
    }
}

/// A list of index pairs as pairs of integers.
pub open spec fn index_pairs(v: Seq<(usize, usize)>) -> Seq<(int, int)> {
    Seq::new(v.len(), |i: int| (v[i].0 as int, v[i].1 as int))
}

/// One error for each repetition of an entity's name, grouped by name in the
/// order of the first occurrences. Entities are counted from 1.
pub open spec fn duplicate_entity_errors(schema: SchemaModel) -> Seq<TypeCheckErrorModel> {
    let names = schema.names();
    let pairs = repeats(names, names.len() as int);
    Seq::new(
        pairs.len(),
        |k: int|
            TypeCheckErrorModel::DuplicateEntity {
                entity: names[pairs[k].0],
                first: (pairs[k].0 + 1) as nat,
                second: (pairs[k].1 + 1) as nat,
            },
    )
}

/// One error for each repetition of a field's name within an entity, grouped
/// by name in the order of the first occurrences.
pub open spec fn entity_duplicate_field_errors(entity: EntityModel) -> Seq<TypeCheckErrorModel> {
    let names = entity.field_names();
    let pairs = repeats(names, names.len() as int);
    Seq::new(
        pairs.len(),
        |k: int|
            TypeCheckErrorModel::DuplicateField { entity: entity.name, field: names[pairs[k].0] },
    )
}

/// The duplicate-field errors of the first `upto` entities, in declaration order.
pub open spec fn duplicate_field_errors(schema: SchemaModel, upto: int) -> Seq<TypeCheckErrorModel>
    decreases upto,
{
    if upto <= 0 {
        Seq::empty()
    } else {
        duplicate_field_errors(schema, upto - 1) + entity_duplicate_field_errors(
            schema.entities[upto - 1],
        )
    }
}

/// Every finding of the type checker. All passes run, whatever the others
/// found: repeated entity names, repeated field names, relations, primary
/// keys, annotations, cycles, in this order.
pub open spec fn semantic_errors(schema: SchemaModel) -> Seq<TypeCheckErrorModel> {
    let n = schema.entities.len() as int;
    duplicate_entity_errors(schema) + duplicate_field_errors(schema, n) + relation_errors(schema, n)
        + primary_key_errors(schema, n) + annotation_errors(schema, n) + cycle_errors(schema)
}

/// The numbered lines of the first `upto` errors: two blanks, the error's
/// number counted from 1, a full stop, a blank, the error in words.
pub open spec fn numbered_lines(errors: Seq<TypeCheckErrorModel>, upto: int) -> Seq<char>
    decreases upto,
{
    if upto <= 0 {
        Seq::empty()
    } else {
        numbered_lines(errors, upto - 1) + "  "@ + decimal(upto as nat) + ". "@ + errors[upto
            - 1].message() + "\n"@
    }
}

/// The report on a list of errors.
pub open spec fn report_text(errors: Seq<TypeCheckErrorModel>) -> Seq<char> {
    if errors.len() == 0 {
        "✅ Schema is valid"@
    } else {
        "❌ Found "@ + decimal(errors.len()) + " error(s):\n\n"@ + numbered_lines(
            errors,
            errors.len() as int,
        )
    }
}

/// Checking twice gives the same: whatever two runs of the type checker on
/// one schema return, they hold the same findings, and if one holds none,
/// neither does the other.
pub proof fn lemma_checking_is_repeatable(
    schema: Schema,
    first: TypeCheckResult,
    second: TypeCheckResult,
)
    requires
        error_models(first.errors@) == semantic_errors(schema@),
        error_models(second.errors@) == semantic_errors(schema@),
    ensures
        error_models(first.errors@) == error_models(second.errors@),
        first.errors@.len() == 0 <==> second.errors@.len() == 0,
        report_text(error_models(first.errors@)) == report_text(error_models(second.errors@)),
{
    assert(error_models(first.errors@).len() == first.errors@.len());
    assert(error_models(second.errors@).len() == second.errors@.len());
}

impl TypeCheckResult {
    /// Whether the schema passed all checks.
    pub fn is_valid(&self) -> (r: bool)
        ensures
            r == (self.errors@.len() == 0),
    {
        self.errors.len() == 0
    }

    /// The errors as a numbered report.
    pub fn error_report(&self) -> (r: String)
        ensures
            r@ == report_text(error_models(self.errors@)),
    {
        if self.is_valid() {
            return String::from_str("✅ Schema is valid");
        }
        let mut report = String::from_str("❌ Found ");
        push_decimal(&mut report, self.errors.len());
        report.append(" error(s):\n\n");
        let ghost head = report@;
        let ghost models = error_models(self.errors@);
        assert(head =~= head + numbered_lines(models, 0));
        let mut i: usize = 0;
        while i < self.errors.len()
            invariant
                i <= self.errors.len(),
                models == error_models(self.errors@),
                report@ == head + numbered_lines(models, i as int),
            decreases self.errors.len() - i,
        {
            report.append("  ");
            push_decimal(&mut report, i + 1);
            report.append(". ");
            let message = self.errors[i].message();
            report.append(message.as_str());
            report.append("\n");
            assert(report@ =~= head + numbered_lines(models, i + 1));
            i += 1;
        }
        report
    }
}

/// The repetitions among `names`, grouped by name.
pub fn find_repeats(names: &Vec<String>) -> (r: Vec<(usize, usize)>)
    ensures
        index_pairs(r@) == repeats(texts(names@), names.len() as int),
        forall|k: int| 0 <= k < r.len() ==> (#[trigger] r[k]).0 < r[k].1 < names.len(),
{
    let mut found: Vec<(usize, usize)> = Vec::new();
    assert(index_pairs(found@) =~= Seq::<(int, int)>::empty());
    let mut i: usize = 0;
    while i < names.len()
        invariant
            i <= names.len(),
            index_pairs(found@) == repeats(texts(names@), i as int),
            forall|k: int| 0 <= k < found.len() ==> (#[trigger] found[k]).0 < found[k].1 < names.len(),
        decreases names.len() - i,
    {
        assert(texts(names@)[i as int] == names[i as int]@);
        let first = find_text(names, names[i].as_str());
        proof {
            lemma_position(texts(names@), names[i as int]@);
        }
        if first == Some(i) {
            let ghost before = index_pairs(found@);
            assert(before =~= before + repeats_of(texts(names@), i as int, i + 1));
            let mut j: usize = i + 1;
            while j < names.len()
                invariant
                    i < j <= names.len(),
                    index_pairs(found@) == before + repeats_of(texts(names@), i as int, j as int),
                    forall|k: int| 0 <= k < found.len() ==>
                        (#[trigger] found[k]).0 < found[k].1 < names.len(),
                decreases names.len() - j,
            {
                assert(texts(names@)[j as int] == names[j as int]@);
                assert(texts(names@)[i as int] == names[i as int]@);
                let ghost so_far = index_pairs(found@);
                if names[j] == names[i] {
                    found.push((i, j));
                    assert(index_pairs(found@) =~= so_far.push((i as int, j as int)));
                }
                assert(index_pairs(found@) =~= before + repeats_of(
                    texts(names@),
                    i as int,
                    j + 1,
                ));
                j += 1;
            }
        }
        i += 1;
    }
    found
}

/// Runs every check on `schema` and collects all findings; no check stops another.
pub fn type_check(schema: &Schema) -> (r: TypeCheckResult)
    ensures
        error_models(r.errors@) == semantic_errors(schema@),
        r.errors@.len() == defect_count(schema@),
{
    let mut errors: Vec<TypeCheckError> = Vec::new();
    assert(error_models(errors@) =~= Seq::<TypeCheckErrorModel>::empty());

    let mut entity_names: Vec<String> = Vec::new();
    let mut i: usize = 0;
    while i < schema.entities.len()
        invariant
            i <= schema.entities.len(),
            texts(entity_names@) == schema@.names().take(i as int),
        decreases schema.entities.len() - i,
    {
        push_text(&mut entity_names, schema.entities[i].name.clone());
        assert(texts(entity_names@) =~= schema@.names().take(i + 1));
        i += 1;
    }
    assert(schema@.names().take(schema.entities.len() as int) =~= schema@.names());

    let pairs = find_repeats(&entity_names);
    let mut k: usize = 0;
    while k < pairs.len()
        invariant
            k <= pairs.len(),
            entity_names.len() == schema.entities.len(),
            texts(entity_names@) == schema@.names(),
            index_pairs(pairs@) == repeats(schema@.names(), schema@.names().len() as int),
            forall|k: int| 0 <= k < pairs.len() ==>
                (#[trigger] pairs[k]).0 < pairs[k].1 < entity_names.len(),
            error_models(errors@) == duplicate_entity_errors(schema@).take(k as int),
        decreases pairs.len() - k,
    {
        let (first, second) = pairs[k];
        assert(index_pairs(pairs@)[k as int] == (first as int, second as int));
        assert(texts(entity_names@)[first as int] == entity_names[first as int]@);
        push_error(
            &mut errors,
            TypeCheckError::DuplicateEntity {
                entity: entity_names[first].clone(),
                first: first + 1,
                second: second + 1,
            },
        );
        assert(error_models(errors@) =~= duplicate_entity_errors(schema@).take(k + 1));
        k += 1;
    }
    assert(duplicate_entity_errors(schema@).take(pairs.len() as int) =~= duplicate_entity_errors(
        schema@,
    ));

    let ghost head = error_models(errors@);
    assert(head =~= head + duplicate_field_errors(schema@, 0));
    let mut e: usize = 0;
    while e < schema.entities.len()
        invariant
            e <= schema.entities.len(),
            error_models(errors@) == head + duplicate_field_errors(schema@, e as int),
        decreases schema.entities.len() - e,
    {
        let entity = &schema.entities[e];
        assert(schema@.entities[e as int] == entity@);
        let mut field_names: Vec<String> = Vec::new();
        let mut f: usize = 0;
        while f < entity.fields.len()
            invariant
                f <= entity.fields.len(),
                texts(field_names@) == entity@.field_names().take(f as int),
            decreases entity.fields.len() - f,
        {
            push_text(&mut field_names, entity.fields[f].name.clone());
            assert(texts(field_names@) =~= entity@.field_names().take(f + 1));
            f += 1;
        }
        assert(entity@.field_names().take(entity.fields.len() as int) =~= entity@.field_names());

        let ghost before = error_models(errors@);
        let field_pairs = find_repeats(&field_names);
        let mut k: usize = 0;
        while k < field_pairs.len()
            invariant
                k <= field_pairs.len(),
                field_names.len() == entity.fields.len(),
                texts(field_names@) == entity@.field_names(),
                index_pairs(field_pairs@) == repeats(
                    entity@.field_names(),
                    entity@.field_names().len() as int,
                ),
                forall|k: int| 0 <= k < field_pairs.len() ==>
                    (#[trigger] field_pairs[k]).0 < field_pairs[k].1 < field_names.len(),
                error_models(errors@) == before + entity_duplicate_field_errors(entity@).take(
                    k as int,
                ),
            decreases field_pairs.len() - k,
        {
            let (first, second) = field_pairs[k];
            assert(index_pairs(field_pairs@)[k as int] == (first as int, second as int));
            assert(texts(field_names@)[first as int] == field_names[first as int]@);
            push_error(
                &mut errors,
                TypeCheckError::DuplicateField {
                    entity: entity.name.clone(),
                    field: field_names[first].clone(),
                },
            );
            assert(error_models(errors@) =~= before + entity_duplicate_field_errors(entity@).take(
                k + 1,
            ));
            k += 1;
        }
        assert(entity_duplicate_field_errors(entity@).take(field_pairs.len() as int)
            =~= entity_duplicate_field_errors(entity@));
        e += 1;
    }

    extend_errors(&mut errors, check_relations(schema));
    extend_errors(&mut errors, check_primary_keys(schema));
    extend_errors(&mut errors, check_annotations(schema));
    extend_errors(&mut errors, check_circular_dependencies(schema));

    proof {
        lemma_every_defect_is_reported(schema@);
        assert(error_models(errors@).len() == errors@.len());
    }
    TypeCheckResult { errors }
}

} // verus!

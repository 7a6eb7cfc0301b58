//! Relations: their targets and foreign keys, and the cycles they form.

use crate::ast::{texts, EntityModel, RelationKind, RelationModel, Schema, SchemaModel};
use crate::text::{
    contains_text, find_text, lemma_distinct_within, lemma_position, lemma_position_prefix,
    push_text,
};
use crate::typechecker::cycles::{
    cycle_errors, cycles_from, follow, has_relation_cycle, is_relation_cycle,
    lemma_cycles_are_reported, lemma_reported_cycles_are_cycles, lemma_search_keeps, path_fits,
    search,
};
use crate::typechecker::constraints::push_error;
use crate::typechecker::errors::{error_models, TypeCheckError, TypeCheckErrorModel};
use vstd::prelude::*;
use vstd::string::*;

verus! {

/// What is wrong with one relation of the entity called `entity`, if
/// anything: its target is no entity of the schema; or it is a has-many
/// relation without foreign key; or its foreign key is no field of the first
/// entity that bears the target's name. The first of these that holds is reported.
pub open spec fn relation_error(schema: SchemaModel, entity: Seq<char>, relation: RelationModel) -> Option<
    TypeCheckErrorModel,
> {
    if !schema.has_entity(relation.target_entity) {
        Some(
            TypeCheckErrorModel::UnknownRelationTarget {
                entity,
                relation: relation.name,
                target: relation.target_entity,
            },
        )
    } else if relation.kind == RelationKind::HasMany && relation.foreign_key is None {
        Some(TypeCheckErrorModel::MissingForeignKey { entity, relation: relation.name })
    } else if relation.foreign_key is Some && !schema.entities[schema.entity_index(
        relation.target_entity,
    )].has_field(relation.foreign_key->0) {
        Some(
            TypeCheckErrorModel::InvalidForeignKey {
                entity,
                relation: relation.name,
                target: relation.target_entity,
                foreign_key: relation.foreign_key->0,
            },
        )
    } else {
        None
    }
}

/// The errors of the first `upto` relations of an entity, in declaration order.
pub open spec fn entity_relation_errors(schema: SchemaModel, entity: EntityModel, upto: int) -> Seq<
    TypeCheckErrorModel,
>
    decreases upto,
{
    if upto <= 0 {
        Seq::empty()
    } else {
        let head = entity_relation_errors(schema, entity, upto - 1);
        match relation_error(schema, entity.name, entity.relations[upto - 1]) {
            Some(error) => head.push(error),
            None => head,
        }
    }
}

/// The relation errors of the first `upto` entities, in declaration order.
pub open spec fn relation_errors(schema: SchemaModel, upto: int) -> Seq<TypeCheckErrorModel>
    decreases upto,
{
    if upto <= 0 {
        Seq::empty()
    } else {
        relation_errors(schema, upto - 1) + entity_relation_errors(
            schema,
            schema.entities[upto - 1],
            schema.entities[upto - 1].relations.len() as int,
        )
    }
}

/// Checks every relation: that its target exists, that a has-many relation
/// names a foreign key, and that a foreign key is a field of the target.
pub fn check_relations(schema: &Schema) -> (errors: Vec<TypeCheckError>)
    ensures
        error_models(errors@) == relation_errors(schema@, schema.entities.len() as int),
{
    let mut errors: Vec<TypeCheckError> = Vec::new();
    assert(error_models(errors@) =~= Seq::<TypeCheckErrorModel>::empty());

    let mut i: usize = 0;
    while i < schema.entities.len()
        invariant
            i <= schema.entities.len(),
            error_models(errors@) == relation_errors(schema@, i as int),
        decreases schema.entities.len() - i,
    {
        let entity = &schema.entities[i];
        assert(schema@.entities[i as int] == entity@);
        let ghost before = error_models(errors@);
        assert(before =~= before + entity_relation_errors(schema@, entity@, 0));
        let mut j: usize = 0;
        while j < entity.relations.len()
            invariant
                j <= entity.relations.len(),
                error_models(errors@) == before + entity_relation_errors(schema@, entity@, j as int),
            decreases entity.relations.len() - j,
        {
            let relation = &entity.relations[j];
            assert(entity@.relations[j as int] == relation@);
            match schema.get_entity(relation.target_entity.as_str()) {
                None => {
                    push_error(
                        &mut errors,
                        TypeCheckError::UnknownRelationTarget {
                            entity: entity.name.clone(),
                            relation: relation.name.clone(),
                            target: relation.target_entity.clone(),
                        },
                    );
                },
                Some(target) => {
                    assert(target@ == schema@.entities[schema@.entity_index(
                        relation@.target_entity,
                    )]);
                    match &relation.foreign_key {
                        None => {
                            if relation.kind == RelationKind::HasMany {
                                push_error(
                                    &mut errors,
                                    TypeCheckError::MissingForeignKey {
                                        entity: entity.name.clone(),
                                        relation: relation.name.clone(),
                                    },
                                );
                            }
                        },
                        Some(fk) => {
                            if target.get_field(fk.as_str()).is_none() {
                                push_error(
                                    &mut errors,
                                    TypeCheckError::InvalidForeignKey {
                                        entity: entity.name.clone(),
                                        relation: relation.name.clone(),
                                        target: relation.target_entity.clone(),
                                        foreign_key: fk.clone(),
                                    },
                                );
                            }
                        },
                    }
                },
            }
            assert(error_models(errors@) =~= before + entity_relation_errors(
                schema@,
                entity@,
                j + 1,
            ));
            j += 1;
        }
        i += 1;
    }
    errors
}

/// Searches from `current` depth first. Without a cycle, `in_stack` is left as it was.
fn dfs(
    schema: &Schema,
    current: &String,
    visited: &mut Vec<String>,
    in_stack: &mut Vec<String>,
    Ghost(fuel): Ghost<nat>,
) -> (r: Option<Vec<String>>)
    requires
        !texts(old(visited)@).contains(current@),
        path_fits(schema@, texts(old(visited)@), texts(old(in_stack)@)),
        fuel + old(in_stack).len() == schema.entities.len() + 1,
    ensures
        texts(final(visited)@) == search(
            schema@,
            current@,
            texts(old(visited)@),
            texts(old(in_stack)@),
            fuel,
        ).visited,
        match search(schema@, current@, texts(old(visited)@), texts(old(in_stack)@), fuel).cycle {
            Some(cycle) => r matches Some(names) && texts(names@) == cycle,
            None => r is None && texts(final(in_stack)@) == texts(old(in_stack)@),
        },
    decreases fuel,
{
    proof {
        lemma_distinct_within(schema@.names(), texts(in_stack@));
    }
    let ghost seen0 = texts(visited@).push(current@);
    let ghost path = texts(in_stack@).push(current@);
    let ghost below = (fuel - 1) as nat;
    push_text(visited, current.clone());
    let entity = match schema.get_entity(current.as_str()) {
        Some(entity) => entity,
        None => {
            return None;
        },
    };
    assert(entity@ == schema@.entities[schema@.entity_index(current@)]);
    push_text(in_stack, current.clone());
    proof {
        assert(path.no_duplicates()) by {
            assert forall|a: int, b: int| 0 <= a < path.len() && 0 <= b < path.len() && a != b
                implies path[a] != path[b] by {
                if a < path.len() - 1 {
                    assert(path[a] == texts(old(in_stack)@)[a]);
                }
                if b < path.len() - 1 {
                    assert(path[b] == texts(old(in_stack)@)[b]);
                }
            }
        }
        assert forall|k: int| 0 <= k < path.len() implies schema@.names().contains(#[trigger] path[k])
            && seen0.contains(path[k]) by {
            if k < path.len() - 1 {
                assert(path[k] == texts(old(in_stack)@)[k]);
                lemma_position_prefix(texts(old(visited)@), seen0, path[k]);
            } else {
                assert(seen0[seen0.len() - 1] == current@);
            }
        }
    }

    let mut j: usize = 0;
    while j < entity.relations.len()
        invariant
            j <= entity.relations.len(),
            entity@ == schema@.entities[schema@.entity_index(current@)],
            schema@.has_entity(current@),
            fuel > 0,
            below == fuel - 1,
            below + path.len() == schema.entities.len() + 1,
            seen0 == texts(old(visited)@).push(current@),
            path == texts(old(in_stack)@).push(current@),
            texts(in_stack@) == path,
            path_fits(schema@, texts(visited@), path),
            follow(schema@, entity@, texts(visited@), path, j as nat, below) == follow(
                schema@,
                entity@,
                seen0,
                path,
                0,
                below,
            ),
        decreases entity.relations.len() - j,
    {
        let relation = &entity.relations[j];
        assert(entity@.relations[j as int] == relation@);
        if relation.kind != RelationKind::BelongsTo {
            let target = &relation.target_entity;
            if !contains_text(visited, target.as_str()) {
                let ghost seen = texts(visited@);
                proof {
                    lemma_search_keeps(schema@, target@, seen, path, below);
                }
                match dfs(schema, target, visited, in_stack, Ghost(below)) {
                    Some(cycle) => {
                        return Some(cycle);
                    },
                    None => {},
                }
                proof {
                    assert forall|k: int| 0 <= k < path.len() implies texts(visited@).contains(
                        #[trigger] path[k],
                    ) by {
                        lemma_position_prefix(seen, texts(visited@), path[k]);
                    }
                }
            } else {
                match find_text(in_stack, target.as_str()) {
                    Some(start) => {
                        let mut cycle: Vec<String> = Vec::new();
                        let mut k: usize = start;
                        proof {
                            lemma_position(path, target@);
                        }
                        assert(texts(cycle@) =~= path.subrange(start as int, k as int));
                        while k < in_stack.len()
                            invariant
                                start <= k <= in_stack.len(),
                                texts(in_stack@) == path,
                                texts(cycle@) == path.subrange(start as int, k as int),
                            decreases in_stack.len() - k,
                        {
                            push_text(&mut cycle, in_stack[k].clone());
                            assert(texts(cycle@) =~= path.subrange(start as int, k + 1));
                            k += 1;
                        }
                        push_text(&mut cycle, target.clone());
                        return Some(cycle);
                    },
                    None => {},
                }
            }
        }
        j += 1;
    }

    in_stack.pop();
    assert(texts(in_stack@) =~= path.drop_last());
    assert(path.drop_last() =~= texts(old(in_stack)@));
    None
}

/// Detects circular dependencies among the relations other than belongs-to.
pub fn check_circular_dependencies(schema: &Schema) -> (errors: Vec<TypeCheckError>)
    ensures
        error_models(errors@) == cycle_errors(schema@),
        errors@.len() == 0 <==> !has_relation_cycle(schema@),
        forall|i: int|
            0 <= i < errors@.len() ==>
                ((#[trigger] errors@[i])@ matches TypeCheckErrorModel::CircularDependency {
                cycle,
            } && is_relation_cycle(schema@, cycle)),
{
    let mut errors: Vec<TypeCheckError> = Vec::new();
    let mut visited: Vec<String> = Vec::new();
    assert(error_models(errors@) =~= Seq::<TypeCheckErrorModel>::empty());
    assert(texts(visited@) =~= Seq::<Seq<char>>::empty());

    let mut k: usize = 0;
    while k < schema.entities.len()
        invariant
            k <= schema.entities.len(),
            error_models(errors@) + cycles_from(schema@, texts(visited@), k as nat) == cycle_errors(
                schema@,
            ),
        decreases schema.entities.len() - k,
    {
        let entity = &schema.entities[k];
        assert(schema@.entities[k as int] == entity@);
        if !contains_text(&visited, entity.name.as_str()) {
            let mut in_stack: Vec<String> = Vec::new();
            assert(texts(in_stack@) =~= Seq::<Seq<char>>::empty());
            let ghost before = error_models(errors@);
            let ghost seen = texts(visited@);
            let found = dfs(
                schema,
                &entity.name,
                &mut visited,
                &mut in_stack,
                Ghost((schema.entities.len() + 1) as nat),
            );
            match found {
                Some(cycle) => {
                    push_error(&mut errors, TypeCheckError::CircularDependency { cycle });
                },
                None => {},
            }
            assert(error_models(errors@) + cycles_from(schema@, texts(visited@), (k + 1) as nat)
                =~= before + cycles_from(schema@, seen, k as nat));
        }
        k += 1;
    }
    assert(error_models(errors@) + Seq::<TypeCheckErrorModel>::empty() =~= error_models(errors@));
    proof {
        lemma_cycles_are_reported(schema@);
        lemma_reported_cycles_are_cycles(schema@);
        assert(error_models(errors@).len() == errors@.len());
        assert forall|i: int| 0 <= i < errors@.len() implies ((#[trigger] errors@[i])@ matches TypeCheckErrorModel::CircularDependency {
            cycle,
        } && is_relation_cycle(schema@, cycle)) by {
            assert(error_models(errors@)[i] == errors@[i]@);
            assert(cycle_errors(schema@)[i] == errors@[i]@);
        }
    }
    errors
}

} // verus!

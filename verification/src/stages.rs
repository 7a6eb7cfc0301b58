//! How the stages fit together: what the type checker accepts, the migration
//! generator can handle.

use crate::ast::SchemaModel;
use crate::migration::generator::migration_of;
use crate::migration::order::{
    creation_order, has_cycle, is_cycle, lemma_creation_order_exists_without_cycle, must_precede,
    owns,
};
use crate::text::{lemma_position, position};
use crate::typechecker::completeness::{lemma_repeats_count, repeated_names};
use crate::typechecker::cycles::{
    cycle_errors, has_relation_cycle, is_relation_cycle, leads_to, lemma_cycles_are_reported,
    linked,
};
use crate::typechecker::{duplicate_entity_errors, semantic_errors};
use vstd::prelude::*;

verus! {

/// Where no name is counted as repeated, each name stands at its first position.
proof fn lemma_no_name_repeated(names: Seq<Seq<char>>, upto: int, i: int)
    requires
        0 <= i < upto <= names.len(),
        repeated_names(names, upto) == 0,
    ensures
        position(names, names[i]) == i,
    decreases upto,
{
    lemma_position(names, names[i]);
    if i < upto - 1 {
        lemma_no_name_repeated(names, upto - 1, i);
    }
}

/// Where no two entities share a name, a cycle of has-many relations, walked
/// backwards, is a cycle of relations.
proof fn lemma_cycle_backwards(schema: SchemaModel, walk: Seq<Seq<char>>)
    requires
        is_cycle(schema, walk),
        forall|i: int|
            0 <= i < schema.names().len() ==> position(schema.names(), #[trigger] schema.names()[i])
                == i,
    ensures
        is_relation_cycle(schema, walk.reverse()),
{
    let back = walk.reverse();
    assert forall|k: int| 0 <= k < back.len() - 1 implies linked(
        schema,
        #[trigger] back[k],
        back[k + 1],
    ) by {
        let m = walk.len() - 2 - k;
        assert(back[k] == walk[m + 1]);
        assert(back[k + 1] == walk[m]);
        assert(must_precede(schema, walk[m + 1], walk[m]));
        let (i, j) = choose|i: int, j: int|
            0 <= i < schema.entities.len() && 0 <= j < schema.entities[i].relations.len()
                && schema.entities[i].name == walk[m + 1] && #[trigger] owns(
                schema.entities[i].relations[j],
                walk[m],
            );
        assert(schema.names()[i] == walk[m + 1]);
        assert(schema.entity_index(walk[m + 1]) == i);
        assert(leads_to(schema.entities[schema.entity_index(back[k])].relations[j], back[k + 1]));
    }
    assert(back[0] == walk[walk.len() - 1]);
    assert(back[back.len() - 1] == walk[0]);
}

/// A schema in which the type checker finds nothing has a migration: its
/// entities can be put in creation order.
pub proof fn lemma_valid_schema_has_a_migration(schema: SchemaModel)
    requires
        semantic_errors(schema).len() == 0,
    ensures
        migration_of(schema) is Ok,
        !has_cycle(schema),
{
    let names = schema.names();
    assert(duplicate_entity_errors(schema).len() == 0);
    assert(cycle_errors(schema).len() == 0);
    lemma_repeats_count(names);
    assert forall|i: int| 0 <= i < names.len() implies position(names, #[trigger] names[i])
        == i by {
        lemma_no_name_repeated(names, names.len() as int, i);
    }
    lemma_cycles_are_reported(schema);
    if has_cycle(schema) {
        let walk = choose|walk: Seq<Seq<char>>| is_cycle(schema, walk);
        lemma_cycle_backwards(schema, walk);
        assert(has_relation_cycle(schema));
    }
    lemma_creation_order_exists_without_cycle(schema);
    assert(creation_order(schema) is Ok);
}

} // verus!

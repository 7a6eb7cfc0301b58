//! Cycles among the relations: the search that finds them, and what is proved of it.

use crate::ast::{EntityModel, RelationKind, RelationModel, SchemaModel};
use crate::text::{lemma_distinct_within, lemma_position, lemma_position_prefix, position};
use crate::typechecker::errors::TypeCheckErrorModel;
use vstd::prelude::*;

verus! {

/// Where a depth-first search stands: the names it has seen, and the cycle it found, if any.
pub struct Search {
    pub visited: Seq<Seq<char>>,
    pub cycle: Option<Seq<Seq<char>>>,
}

/// Searches from `current`, which has not been seen: it is marked as seen,
/// and if it is an entity, the relations of the first entity of that name are
/// followed with `current` on top of the path. `fuel` bounds the depth of
/// the search; the search from a root never needs more than there are
/// entities, and one.
pub open spec fn search(
    schema: SchemaModel,
    current: Seq<char>,
    visited: Seq<Seq<char>>,
    path: Seq<Seq<char>>,
    fuel: nat,
) -> Search
    decreases fuel, 0nat, 0nat,
{
    if fuel == 0 || !schema.has_entity(current) {
        Search { visited: visited.push(current), cycle: None }
    } else {
        follow(
            schema,
            schema.entities[schema.entity_index(current)],
            visited.push(current),
            path.push(current),
            0,
            (fuel - 1) as nat,
        )
    }
}

/// Follows relation `j` of `entity` and all later ones, in declaration order.
/// A belongs-to relation is passed over. A target not yet seen is searched; a
/// cycle found there ends the search. A target that is seen and on the path
/// closes a cycle: the path from the target's first occurrence on, with the
/// target once more behind it.
pub open spec fn follow(
    schema: SchemaModel,
    entity: EntityModel,
    visited: Seq<Seq<char>>,
    path: Seq<Seq<char>>,
    j: nat,
    fuel: nat,
) -> Search
    decreases fuel, 1nat, entity.relations.len() - j,
{
    if j >= entity.relations.len() {
        Search { visited, cycle: None }
    } else {
        let relation = entity.relations[j as int];
        let target = relation.target_entity;
        if relation.kind == RelationKind::BelongsTo {
            follow(schema, entity, visited, path, j + 1, fuel)
        } else if !visited.contains(target) {
            let below = search(schema, target, visited, path, fuel);
            if below.cycle is Some {
                below
            } else {
                follow(schema, entity, below.visited, path, j + 1, fuel)
            }
        } else if path.contains(target) {
            Search {
                visited,
                cycle: Some(
                    path.subrange(position(path, target), path.len() as int).push(target),
                ),
            }
        } else {
            follow(schema, entity, visited, path, j + 1, fuel)
        }
    }
}

/// The cycles found from entity `k` and all later entities as roots. An
/// entity that was seen before is no root; each search starts with an empty path.
pub open spec fn cycles_from(schema: SchemaModel, visited: Seq<Seq<char>>, k: nat) -> Seq<
    TypeCheckErrorModel,
>
    decreases schema.entities.len() - k,
{
    if k >= schema.entities.len() {
        Seq::empty()
    } else {
        let root = schema.entities[k as int].name;
        if visited.contains(root) {
            cycles_from(schema, visited, k + 1)
        } else {
            let found = search(schema, root, visited, Seq::empty(), schema.entities.len() + 1);
            (match found.cycle {
                Some(cycle) => seq![TypeCheckErrorModel::CircularDependency { cycle }],
                None => Seq::empty(),
            }) + cycles_from(schema, found.visited, k + 1)
        }
    }
}

/// The cycles among the relations other than belongs-to: one depth-first
/// search from each entity not yet seen, in declaration order. Each search
/// reports the first cycle it meets, if any.
pub open spec fn cycle_errors(schema: SchemaModel) -> Seq<TypeCheckErrorModel> {
    cycles_from(schema, Seq::empty(), 0)
}

/// The names on the path differ from each other, all are entities, and all have been seen.
pub open spec fn path_fits(schema: SchemaModel, visited: Seq<Seq<char>>, path: Seq<Seq<char>>) -> bool {
    &&& path.no_duplicates()
    &&& forall|k: int| 0 <= k < path.len() ==> schema.names().contains(#[trigger] path[k])
    &&& forall|k: int| 0 <= k < path.len() ==> visited.contains(#[trigger] path[k])
}

/// A search forgets nothing it has seen.
pub proof fn lemma_search_keeps(
    schema: SchemaModel,
    current: Seq<char>,
    visited: Seq<Seq<char>>,
    path: Seq<Seq<char>>,
    fuel: nat,
)
    ensures
        visited.is_prefix_of(search(schema, current, visited, path, fuel).visited),
    decreases fuel, 0nat, 0nat,
{
    if fuel == 0 || !schema.has_entity(current) {
    } else {
        lemma_follow_keeps(
            schema,
            schema.entities[schema.entity_index(current)],
            visited.push(current),
            path.push(current),
            0,
            (fuel - 1) as nat,
        );
    }
}

/// Following relations forgets nothing that has been seen.
pub proof fn lemma_follow_keeps(
    schema: SchemaModel,
    entity: EntityModel,
    visited: Seq<Seq<char>>,
    path: Seq<Seq<char>>,
    j: nat,
    fuel: nat,
)
    ensures
        visited.is_prefix_of(follow(schema, entity, visited, path, j, fuel).visited),
    decreases fuel, 1nat, entity.relations.len() - j,
{
    if j >= entity.relations.len() {
    } else {
        let relation = entity.relations[j as int];
        let target = relation.target_entity;
        if relation.kind == RelationKind::BelongsTo {
            lemma_follow_keeps(schema, entity, visited, path, j + 1, fuel);
        } else if !visited.contains(target) {
            lemma_search_keeps(schema, target, visited, path, fuel);
            let below = search(schema, target, visited, path, fuel);
            if below.cycle is None {
                lemma_follow_keeps(schema, entity, below.visited, path, j + 1, fuel);
            }
        } else if path.contains(target) {
        } else {
            lemma_follow_keeps(schema, entity, visited, path, j + 1, fuel);
        }
    }
}

/// Whether the first entity called `from` has a relation other than belongs-to
/// whose target is `to`.
pub open spec fn linked(schema: SchemaModel, from: Seq<char>, to: Seq<char>) -> bool {
    schema.has_entity(from) && exists|j: int|
        0 <= j < schema.entities[schema.entity_index(from)].relations.len() && leads_to(
            #[trigger] schema.entities[schema.entity_index(from)].relations[j],
            to,
        )
}

/// Whether `relation` is no belongs-to relation and has the target `to`.
pub open spec fn leads_to(relation: RelationModel, to: Seq<char>) -> bool {
    relation.kind != RelationKind::BelongsTo && relation.target_entity == to
}

/// Each name of the walk but the last is linked to the next.
pub open spec fn is_linked_walk(schema: SchemaModel, walk: Seq<Seq<char>>) -> bool {
    forall|k: int| 0 <= k < walk.len() - 1 ==> linked(schema, #[trigger] walk[k], walk[k + 1])
}

/// A closed walk along the relations other than belongs-to.
pub open spec fn is_relation_cycle(schema: SchemaModel, walk: Seq<Seq<char>>) -> bool {
    &&& walk.len() >= 2
    &&& walk[0] == walk.last()
    &&& is_linked_walk(schema, walk)
}

/// What a search reports is a cycle, if the path it starts with is a linked walk
/// that leads to `current`.
proof fn lemma_search_finds_cycles(
    schema: SchemaModel,
    current: Seq<char>,
    visited: Seq<Seq<char>>,
    path: Seq<Seq<char>>,
    fuel: nat,
)
    requires
        is_linked_walk(schema, path),
        path.len() > 0 ==> linked(schema, path.last(), current),
    ensures
        search(schema, current, visited, path, fuel).cycle matches Some(cycle)
            ==> is_relation_cycle(schema, cycle),
    decreases fuel, 0nat, 0nat,
{
    if fuel == 0 || !schema.has_entity(current) {
    } else {
        let longer = path.push(current);
        assert forall|k: int| 0 <= k < longer.len() - 1 implies linked(
            schema,
            #[trigger] longer[k],
            longer[k + 1],
        ) by {
            assert(longer[k] == path[k]);
            if k < path.len() - 1 {
                assert(longer[k + 1] == path[k + 1]);
            }
        }
        lemma_follow_finds_cycles(
            schema,
            schema.entities[schema.entity_index(current)],
            visited.push(current),
            longer,
            0,
            (fuel - 1) as nat,
        );
    }
}

/// What following relations reports is a cycle, if the path is a linked walk that
/// ends in the entity.
proof fn lemma_follow_finds_cycles(
    schema: SchemaModel,
    entity: EntityModel,
    visited: Seq<Seq<char>>,
    path: Seq<Seq<char>>,
    j: nat,
    fuel: nat,
)
    requires
        is_linked_walk(schema, path),
        path.len() > 0,
        schema.has_entity(path.last()),
        entity == schema.entities[schema.entity_index(path.last())],
    ensures
        follow(schema, entity, visited, path, j, fuel).cycle matches Some(cycle)
            ==> is_relation_cycle(schema, cycle),
    decreases fuel, 1nat, entity.relations.len() - j,
{
    if j >= entity.relations.len() {
    } else {
        let relation = entity.relations[j as int];
        let target = relation.target_entity;
        if relation.kind == RelationKind::BelongsTo {
            lemma_follow_finds_cycles(schema, entity, visited, path, j + 1, fuel);
        } else {
            assert(leads_to(
                schema.entities[schema.entity_index(path.last())].relations[j as int],
                target,
            ));
            assert(linked(schema, path.last(), target));
            if !visited.contains(target) {
                lemma_search_finds_cycles(schema, target, visited, path, fuel);
                let below = search(schema, target, visited, path, fuel);
                if below.cycle is None {
                    lemma_follow_finds_cycles(schema, entity, below.visited, path, j + 1, fuel);
                }
            } else if path.contains(target) {
                lemma_position(path, target);
                let p = position(path, target);
                let cycle = path.subrange(p, path.len() as int).push(target);
                assert forall|k: int| 0 <= k < cycle.len() - 1 implies linked(
                    schema,
                    #[trigger] cycle[k],
                    cycle[k + 1],
                ) by {
                    assert(cycle[k] == path[p + k]);
                    if k < cycle.len() - 2 {
                        assert(cycle[k + 1] == path[p + k + 1]);
                    }
                }
                assert(cycle[0] == path[p]);
            } else {
                lemma_follow_finds_cycles(schema, entity, visited, path, j + 1, fuel);
            }
        }
    }
}

/// What the searches from the roots report are cycles.
proof fn lemma_cycles_from_are_cycles(schema: SchemaModel, visited: Seq<Seq<char>>, k: nat)
    ensures
        forall|i: int|
            0 <= i < cycles_from(schema, visited, k).len() ==> (#[trigger] cycles_from(
                schema,
                visited,
                k,
            )[i] matches TypeCheckErrorModel::CircularDependency { cycle } && is_relation_cycle(
                schema,
                cycle,
            )),
    decreases schema.entities.len() - k,
{
    if k < schema.entities.len() {
        let root = schema.entities[k as int].name;
        if visited.contains(root) {
            lemma_cycles_from_are_cycles(schema, visited, k + 1);
        } else {
            let found = search(schema, root, visited, Seq::empty(), schema.entities.len() + 1);
            lemma_search_finds_cycles(
                schema,
                root,
                visited,
                Seq::empty(),
                schema.entities.len() + 1,
            );
            lemma_cycles_from_are_cycles(schema, found.visited, k + 1);
        }
    }
}

/// Every cycle that is reported is one: a walk of two names or more that
/// ends where it began and follows, at each step, a relation other than belongs-to.
pub proof fn lemma_reported_cycles_are_cycles(schema: SchemaModel)
    ensures
        forall|i: int|
            0 <= i < cycle_errors(schema).len() ==>
                (#[trigger] cycle_errors(schema)[i] matches TypeCheckErrorModel::CircularDependency {
                cycle,
            } && is_relation_cycle(schema, cycle)),
{
    lemma_cycles_from_are_cycles(schema, Seq::empty(), 0);
}

/// Whether the relations other than belongs-to form a cycle.
pub open spec fn has_relation_cycle(schema: SchemaModel) -> bool {
    exists|walk: Seq<Seq<char>>| is_relation_cycle(schema, walk)
}

/// Whether the search is done with `name`: it has been seen and is not on the path.
pub open spec fn finished(visited: Seq<Seq<char>>, path: Seq<Seq<char>>, name: Seq<char>) -> bool {
    visited.contains(name) && !path.contains(name)
}

/// What holds of the names the search is done with: each is linked to such
/// names only, and none begins a cycle.
pub open spec fn settled(schema: SchemaModel, visited: Seq<Seq<char>>, path: Seq<Seq<char>>) -> bool {
    &&& forall|x: Seq<char>, y: Seq<char>|
        finished(visited, path, x) && #[trigger] linked(schema, x, y) ==> finished(
            visited,
            path,
            y,
        )
    &&& forall|walk: Seq<Seq<char>>| #[trigger]
        is_relation_cycle(schema, walk) ==> !finished(visited, path, walk[0])
}

/// A linked walk that has come to a finished name stays among finished names.
proof fn lemma_walk_stays_finished(
    schema: SchemaModel,
    visited: Seq<Seq<char>>,
    path: Seq<Seq<char>>,
    walk: Seq<Seq<char>>,
    k: int,
)
    requires
        forall|x: Seq<char>, y: Seq<char>|
            finished(visited, path, x) && #[trigger] linked(schema, x, y) ==> finished(
                visited,
                path,
                y,
            ),
        is_linked_walk(schema, walk),
        walk.len() >= 2,
        finished(visited, path, walk[1]),
        1 <= k < walk.len(),
    ensures
        finished(visited, path, walk[k]),
    decreases k,
{
    if k > 1 {
        lemma_walk_stays_finished(schema, visited, path, walk, k - 1);
        assert(linked(schema, walk[k - 1], walk[k]));
    }
}

/// The targets of the relations of `entity` before relation `j`, belongs-to apart, are finished.
pub open spec fn targets_finished(
    entity: EntityModel,
    visited: Seq<Seq<char>>,
    path: Seq<Seq<char>>,
    j: nat,
) -> bool {
    forall|b: int|
        0 <= b < j && b < entity.relations.len() && (#[trigger] entity.relations[b]).kind
            != RelationKind::BelongsTo ==> finished(visited, path, entity.relations[b].target_entity)
}

/// A search that closes no cycle leaves `current` finished and all finished names settled.
proof fn lemma_search_settles(
    schema: SchemaModel,
    current: Seq<char>,
    visited: Seq<Seq<char>>,
    path: Seq<Seq<char>>,
    fuel: nat,
)
    requires
        !visited.contains(current),
        path_fits(schema, visited, path),
        fuel + path.len() == schema.entities.len() + 1,
        settled(schema, visited, path),
    ensures
        search(schema, current, visited, path, fuel).cycle is None ==> {
            &&& settled(schema, search(schema, current, visited, path, fuel).visited, path)
            &&& finished(search(schema, current, visited, path, fuel).visited, path, current)
        },
    decreases fuel, 0nat, 0nat,
{
    lemma_distinct_within(schema.names(), path);
    let seen = visited.push(current);
    assert(seen[visited.len() as int] == current);
    assert(!path.contains(current)) by {
        if path.contains(current) {
            let k = choose|k: int| 0 <= k < path.len() && path[k] == current;
            assert(visited.contains(path[k]));
        }
    }
    assert forall|x: Seq<char>| finished(seen, path, x) && x != current implies finished(
        visited,
        path,
        x,
    ) by {
        let q = choose|q: int| 0 <= q < seen.len() && seen[q] == x;
        assert(visited[q] == x);
    }
    assert forall|x: Seq<char>| finished(visited, path, x) implies finished(seen, path, x) by {
        lemma_position_prefix(visited, seen, x);
    }
    if !schema.has_entity(current) {
        assert forall|walk: Seq<Seq<char>>| #[trigger]
            is_relation_cycle(schema, walk) implies !finished(seen, path, walk[0]) by {
            assert(linked(schema, walk[0], walk[1]));
        }
    } else {
        let entity = schema.entities[schema.entity_index(current)];
        let longer = path.push(current);
        assert(longer[path.len() as int] == current);
        assert forall|x: Seq<char>| finished(seen, longer, x) <==> finished(visited, path, x) by {
            if finished(seen, longer, x) {
                if x == current {
                    assert(longer.contains(current));
                }
                if path.contains(x) {
                    lemma_position_prefix(path, longer, x);
                }
            }
            if finished(visited, path, x) {
                if longer.contains(x) {
                    let q = choose|q: int| 0 <= q < longer.len() && longer[q] == x;
                    if q < path.len() {
                        assert(path[q] == x);
                    }
                }
            }
        }
        assert(path_fits(schema, seen, longer)) by {
            lemma_position(schema.names(), current);
            assert forall|a: int, b: int|
                0 <= a < longer.len() && 0 <= b < longer.len() && a != b implies longer[a]
                != longer[b] by {
                if a < path.len() {
                    assert(longer[a] == path[a]);
                }
                if b < path.len() {
                    assert(longer[b] == path[b]);
                }
            }
            assert forall|k: int| 0 <= k < longer.len() implies schema.names().contains(
                #[trigger] longer[k],
            ) && seen.contains(longer[k]) by {
                if k < path.len() {
                    assert(longer[k] == path[k]);
                    lemma_position_prefix(visited, seen, path[k]);
                }
            }
        }
        lemma_follow_settles(schema, entity, seen, longer, 0, (fuel - 1) as nat);
        let result = follow(schema, entity, seen, longer, 0, (fuel - 1) as nat);
        if result.cycle is None {
            let after = result.visited;
            lemma_follow_keeps(schema, entity, seen, longer, 0, (fuel - 1) as nat);
            lemma_position_prefix(seen, after, current);
            assert forall|x: Seq<char>| finished(after, path, x) && x != current implies finished(
                after,
                longer,
                x,
            ) by {
                if longer.contains(x) {
                    let q = choose|q: int| 0 <= q < longer.len() && longer[q] == x;
                    if q < path.len() {
                        assert(path[q] == x);
                    }
                }
            }
            assert forall|x: Seq<char>| finished(after, longer, x) implies finished(
                after,
                path,
                x,
            ) by {
                if path.contains(x) {
                    lemma_position_prefix(path, longer, x);
                }
            }
            assert forall|y: Seq<char>| #[trigger] linked(schema, current, y) implies finished(
                after,
                longer,
                y,
            ) by {
                let b = choose|b: int|
                    0 <= b < entity.relations.len() && leads_to(#[trigger] entity.relations[b], y);
                assert(entity.relations[b].kind != RelationKind::BelongsTo);
            }
            assert forall|walk: Seq<Seq<char>>| #[trigger]
                is_relation_cycle(schema, walk) implies !finished(after, path, walk[0]) by {
                if walk[0] == current {
                    assert(linked(schema, walk[0], walk[1]));
                    lemma_walk_stays_finished(schema, after, longer, walk, walk.len() - 1);
                    assert(longer.contains(current));
                }
            }
        }
    }
}

/// Following relations without closing a cycle leaves their targets finished and
/// all finished names settled.
proof fn lemma_follow_settles(
    schema: SchemaModel,
    entity: EntityModel,
    visited: Seq<Seq<char>>,
    path: Seq<Seq<char>>,
    j: nat,
    fuel: nat,
)
    requires
        path_fits(schema, visited, path),
        fuel + path.len() == schema.entities.len() + 1,
        settled(schema, visited, path),
        targets_finished(entity, visited, path, j),
    ensures
        follow(schema, entity, visited, path, j, fuel).cycle is None ==> {
            &&& settled(schema, follow(schema, entity, visited, path, j, fuel).visited, path)
            &&& targets_finished(
                entity,
                follow(schema, entity, visited, path, j, fuel).visited,
                path,
                entity.relations.len(),
            )
        },
    decreases fuel, 1nat, entity.relations.len() - j,
{
    if j >= entity.relations.len() {
    } else {
        let relation = entity.relations[j as int];
        let target = relation.target_entity;
        if relation.kind == RelationKind::BelongsTo {
            lemma_follow_settles(schema, entity, visited, path, j + 1, fuel);
        } else if !visited.contains(target) {
            lemma_search_settles(schema, target, visited, path, fuel);
            lemma_search_keeps(schema, target, visited, path, fuel);
            let below = search(schema, target, visited, path, fuel);
            if below.cycle is None {
                assert forall|k: int| 0 <= k < path.len() implies below.visited.contains(
                    #[trigger] path[k],
                ) by {
                    lemma_position_prefix(visited, below.visited, path[k]);
                }
                assert forall|b: int|
                    0 <= b < j + 1 && b < entity.relations.len() && (
                    #[trigger] entity.relations[b]).kind != RelationKind::BelongsTo implies finished(
                    below.visited,
                    path,
                    entity.relations[b].target_entity,
                ) by {
                    if b < j {
                        lemma_position_prefix(
                            visited,
                            below.visited,
                            entity.relations[b].target_entity,
                        );
                    }
                }
                lemma_follow_settles(schema, entity, below.visited, path, j + 1, fuel);
            }
        } else if path.contains(target) {
        } else {
            lemma_follow_settles(schema, entity, visited, path, j + 1, fuel);
        }
    }
}

/// Where the searches from the roots close no cycle, there is none.
proof fn lemma_roots_settle(schema: SchemaModel, visited: Seq<Seq<char>>, k: nat)
    requires
        settled(schema, visited, Seq::empty()),
        forall|a: int|
            0 <= a < k && a < schema.entities.len() ==> visited.contains(
                #[trigger] schema.entities[a].name,
            ),
    ensures
        cycles_from(schema, visited, k).len() == 0 ==> !has_relation_cycle(schema),
    decreases schema.entities.len() - k,
{
    if k >= schema.entities.len() {
        if has_relation_cycle(schema) {
            let walk = choose|walk: Seq<Seq<char>>| is_relation_cycle(schema, walk);
            assert(linked(schema, walk[0], walk[1]));
            lemma_position(schema.names(), walk[0]);
            let a = schema.entity_index(walk[0]);
            assert(schema.entities[a].name == walk[0]);
            assert(finished(visited, Seq::empty(), walk[0]));
        }
    } else {
        let root = schema.entities[k as int].name;
        if visited.contains(root) {
            lemma_roots_settle(schema, visited, k + 1);
        } else {
            let found = search(schema, root, visited, Seq::empty(), schema.entities.len() + 1);
            lemma_search_settles(schema, root, visited, Seq::empty(), schema.entities.len() + 1);
            lemma_search_keeps(schema, root, visited, Seq::empty(), schema.entities.len() + 1);
            if found.cycle is None {
                assert forall|a: int|
                    0 <= a < k + 1 && a < schema.entities.len() implies found.visited.contains(
                    #[trigger] schema.entities[a].name,
                ) by {
                    if a < k {
                        lemma_position_prefix(visited, found.visited, schema.entities[a].name);
                    }
                }
                lemma_roots_settle(schema, found.visited, k + 1);
            }
        }
    }
}

/// No cycle is reported exactly when the relations other than belongs-to form none.
pub proof fn lemma_cycles_are_reported(schema: SchemaModel)
    ensures
        cycle_errors(schema).len() == 0 <==> !has_relation_cycle(schema),
{
    lemma_roots_settle(schema, Seq::empty(), 0);
    lemma_reported_cycles_are_cycles(schema);
    if cycle_errors(schema).len() > 0 {
        assert(cycle_errors(schema)[0] is CircularDependency);
    }
}

} // verus!

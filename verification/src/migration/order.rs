//! The order in which tables are created, and what is proved of it.

use crate::ast::{RelationKind, RelationModel, SchemaModel};
use crate::text::{lemma_distinct_within, lemma_position, lemma_position_prefix, position};
use vstd::prelude::*;

verus! {

/// Whether `relation` says that its owner has many of the entity called `target`.
pub open spec fn owns(relation: RelationModel, target: Seq<char>) -> bool {
    relation.kind == RelationKind::HasMany && relation.target_entity == target
}

/// The outcome of a walk: the creation order so far, or the name at which a cycle closed.
pub type Walk = Result<Seq<Seq<char>>, Seq<char>>;

/// Visits `current` depth first. `order` holds the names that are done, first
/// created first; `stack` holds the names whose visit is under way. A name on
/// the stack closes a cycle; a name that is done is left alone; any other is
/// put on the stack, its owners are visited, and then it is done. `fuel`
/// bounds the depth of the walk; the walk from a root never needs more than
/// there are entities.
pub open spec fn visit(
    schema: SchemaModel,
    current: Seq<char>,
    order: Seq<Seq<char>>,
    stack: Seq<Seq<char>>,
    fuel: nat,
) -> Walk
    decreases fuel, 0nat, 0nat, 0nat,
{
    if stack.contains(current) {
        Err(current)
    } else if order.contains(current) {
        Ok(order)
    } else if fuel == 0 {
        Ok(order)
    } else {
        match visit_owners(schema, current, order, stack.push(current), 0, 0, (fuel - 1) as nat) {
            Ok(done) => Ok(done.push(current)),
            Err(name) => Err(name),
        }
    }
}

/// Visits the owners of `current` that relation `j` of entity `i` and all
/// later relations name, in declaration order. Entities called `current` are
/// passed over.
pub open spec fn visit_owners(
    schema: SchemaModel,
    current: Seq<char>,
    order: Seq<Seq<char>>,
    stack: Seq<Seq<char>>,
    i: nat,
    j: nat,
    fuel: nat,
) -> Walk
    decreases fuel, 1nat, schema.entities.len() - i, (if i < schema.entities.len() {
        schema.entities[i as int].relations.len() - j
    } else {
        0
    }),
{
    if i >= schema.entities.len() {
        Ok(order)
    } else {
        let owner = schema.entities[i as int];
        if owner.name == current || j >= owner.relations.len() {
            visit_owners(schema, current, order, stack, i + 1, 0, fuel)
        } else if owns(owner.relations[j as int], current) {
            match visit(schema, owner.name, order, stack, fuel) {
                Ok(done) => visit_owners(schema, current, done, stack, i, j + 1, fuel),
                Err(name) => Err(name),
            }
        } else {
            visit_owners(schema, current, order, stack, i, j + 1, fuel)
        }
    }
}

/// Visits entity `k` and all later entities as roots, each with an empty stack.
pub open spec fn visit_roots(schema: SchemaModel, order: Seq<Seq<char>>, k: nat) -> Walk
    decreases schema.entities.len() - k,
{
    if k >= schema.entities.len() {
        Ok(order)
    } else {
        match visit(
            schema,
            schema.entities[k as int].name,
            order,
            Seq::empty(),
            schema.entities.len(),
        ) {
            Ok(done) => visit_roots(schema, done, k + 1),
            Err(name) => Err(name),
        }
    }
}

/// The order in which the tables are created: a depth-first walk with the
/// entities as roots in declaration order, in which the owner of a has-many
/// relation comes before the entity it has many of. `Err` holds the name at
/// which the walk first met a name whose visit was under way.
pub open spec fn creation_order(schema: SchemaModel) -> Walk {
    visit_roots(schema, Seq::empty(), 0)
}

/// `owner` must be created before `owned`: the two names differ, and an entity
/// called `owner` has many of the entities called `owned`.
pub open spec fn must_precede(schema: SchemaModel, owner: Seq<char>, owned: Seq<char>) -> bool {
    owner != owned && exists|i: int, j: int|
        0 <= i < schema.entities.len() && 0 <= j < schema.entities[i].relations.len()
            && schema.entities[i].name == owner && #[trigger] owns(
            schema.entities[i].relations[j],
            owned,
        )
}

/// Every name of `order` stands behind all names that must precede it.
pub open spec fn respects(schema: SchemaModel, order: Seq<Seq<char>>) -> bool {
    forall|p: int, owner: Seq<char>|
        0 <= p < order.len() && #[trigger] must_precede(schema, owner, order[p]) ==> position(
            order,
            owner,
        ) < p
}

/// `order` names every entity once and no other name, and every owner stands
/// before each entity it has many of.
pub open spec fn is_creation_order(schema: SchemaModel, order: Seq<Seq<char>>) -> bool {
    &&& order.no_duplicates()
    &&& forall|name: Seq<char>| order.contains(name) <==> schema.names().contains(name)
    &&& forall|owner: Seq<char>, owned: Seq<char>|
        schema.names().contains(owned) && #[trigger] must_precede(schema, owner, owned)
            ==> position(order, owner) < position(order, owned) < order.len()
}

/// The names on the stack differ from each other, and all are entities.
pub open spec fn stack_fits(schema: SchemaModel, stack: Seq<Seq<char>>) -> bool {
    &&& stack.no_duplicates()
    &&& forall|k: int| 0 <= k < stack.len() ==> schema.names().contains(#[trigger] stack[k])
}

/// What holds of the names that are done while `stack` is under way.
pub open spec fn order_fits(schema: SchemaModel, order: Seq<Seq<char>>, stack: Seq<Seq<char>>) -> bool {
    &&& order.no_duplicates()
    &&& forall|k: int| 0 <= k < order.len() ==> schema.names().contains(#[trigger] order[k])
    &&& forall|k: int| 0 <= k < stack.len() ==> !order.contains(#[trigger] stack[k])
    &&& respects(schema, order)
}

/// Every owner of `current` that a relation before relation `j` of entity `i` names is done.
pub open spec fn owners_done(
    schema: SchemaModel,
    current: Seq<char>,
    order: Seq<Seq<char>>,
    i: nat,
    j: nat,
) -> bool {
    forall|a: int, b: int|
        0 <= a < schema.entities.len() && 0 <= b < schema.entities[a].relations.len() && (a < i
            || (a == i && b < j)) && schema.entities[a].name != current && #[trigger] owns(
            schema.entities[a].relations[b],
            current,
        ) ==> order.contains(schema.entities[a].name)
}

/// A stack of distinct entity names that lacks one entity name is shorter than the
/// list of entities.
pub proof fn lemma_stack_room(schema: SchemaModel, stack: Seq<Seq<char>>, current: Seq<char>)
    requires
        stack_fits(schema, stack),
        schema.names().contains(current),
        !stack.contains(current),
    ensures
        stack.len() < schema.entities.len(),
        stack_fits(schema, stack.push(current)),
{
    let longer = stack.push(current);
    assert forall|k: int| 0 <= k < longer.len() implies schema.names().contains(
        #[trigger] longer[k],
    ) by {
        if k < stack.len() {
            assert(stack[k] == longer[k]);
        }
    }
    lemma_distinct_within(schema.names(), longer);
}

/// A visit keeps what holds of the names that are done, and adds `current` to them.
proof fn lemma_visit(
    schema: SchemaModel,
    current: Seq<char>,
    order: Seq<Seq<char>>,
    stack: Seq<Seq<char>>,
    fuel: nat,
)
    requires
        schema.names().contains(current),
        stack_fits(schema, stack),
        order_fits(schema, order, stack),
        fuel + stack.len() == schema.entities.len(),
    ensures
        visit(schema, current, order, stack, fuel) matches Ok(done) ==> {
            &&& order_fits(schema, done, stack)
            &&& order.is_prefix_of(done)
            &&& done.contains(current)
        },
    decreases fuel, 0nat, 0nat, 0nat,
{
    if stack.contains(current) {
    } else if order.contains(current) {
    } else {
        lemma_stack_room(schema, stack, current);
        let deeper = stack.push(current);
        assert forall|k: int| 0 <= k < deeper.len() implies !order.contains(#[trigger] deeper[k]) by {
            if k < stack.len() {
                assert(deeper[k] == stack[k]);
            }
        }
        lemma_visit_owners(schema, current, order, deeper, 0, 0, (fuel - 1) as nat);
        match visit_owners(schema, current, order, deeper, 0, 0, (fuel - 1) as nat) {
            Ok(inner) => {
                let done = inner.push(current);
                assert(deeper[stack.len() as int] == current);
                assert(!inner.contains(current));
                assert(done.no_duplicates());
                assert forall|k: int| 0 <= k < done.len()
                    implies schema.names().contains(#[trigger] done[k]) by {
                    if k < inner.len() {
                        assert(done[k] == inner[k]);
                    }
                }
                assert forall|k: int| 0 <= k < stack.len()
                    implies !done.contains(#[trigger] stack[k]) by {
                    assert(deeper[k] == stack[k]);
                    assert(!inner.contains(deeper[k]));
                    if done.contains(stack[k]) {
                        let q = choose|q: int| 0 <= q < done.len() && done[q] == stack[k];
                        if q < inner.len() {
                            assert(inner[q] == stack[k]);
                        } else {
                            assert(stack.contains(current));
                        }
                    }
                }
                assert(inner.is_prefix_of(done));
                assert forall|p: int, owner: Seq<char>|
                    0 <= p < done.len() && #[trigger] must_precede(
                        schema,
                        owner,
                        done[p],
                    ) implies position(done, owner) < p by {
                    if p < inner.len() {
                        assert(done[p] == inner[p]);
                        assert(position(inner, owner) < p);
                        lemma_position(inner, owner);
                        lemma_position_prefix(inner, done, owner);
                    } else {
                        let (a, b) = choose|a: int, b: int|
                            0 <= a < schema.entities.len() && 0 <= b
                                < schema.entities[a].relations.len() && schema.entities[a].name
                                == owner && #[trigger] owns(schema.entities[a].relations[b], current);
                        assert(inner.contains(owner));
                        lemma_position(inner, owner);
                        lemma_position_prefix(inner, done, owner);
                    }
                }
                assert(done[inner.len() as int] == current);
                assert(order.is_prefix_of(done));
            },
            Err(_) => {},
        }
    }
}

/// Visiting the owners of `current` keeps what holds of the names that are
/// done, and leaves every owner of `current` done.
proof fn lemma_visit_owners(
    schema: SchemaModel,
    current: Seq<char>,
    order: Seq<Seq<char>>,
    stack: Seq<Seq<char>>,
    i: nat,
    j: nat,
    fuel: nat,
)
    requires
        stack_fits(schema, stack),
        order_fits(schema, order, stack),
        owners_done(schema, current, order, i, j),
        fuel + stack.len() == schema.entities.len(),
    ensures
        visit_owners(schema, current, order, stack, i, j, fuel) matches Ok(done) ==> {
            &&& order_fits(schema, done, stack)
            &&& order.is_prefix_of(done)
            &&& owners_done(schema, current, done, schema.entities.len(), 0)
        },
    decreases fuel, 1nat, schema.entities.len() - i, (if i < schema.entities.len() {
        schema.entities[i as int].relations.len() - j
    } else {
        0
    }),
{
    if i >= schema.entities.len() {
    } else {
        let owner = schema.entities[i as int];
        if owner.name == current || j >= owner.relations.len() {
            lemma_visit_owners(schema, current, order, stack, i + 1, 0, fuel);
        } else if owns(owner.relations[j as int], current) {
            assert(schema.names()[i as int] == owner.name);
            lemma_visit(schema, owner.name, order, stack, fuel);
            match visit(schema, owner.name, order, stack, fuel) {
                Ok(next) => {
                    assert forall|a: int, b: int|
                        0 <= a < schema.entities.len() && 0 <= b
                            < schema.entities[a].relations.len() && (a < i || (a == i && b < j
                            + 1)) && schema.entities[a].name != current && #[trigger] owns(
                            schema.entities[a].relations[b],
                            current,
                        ) implies next.contains(schema.entities[a].name) by {
                        if a == i && b == j {
                        } else {
                            lemma_position_prefix(order, next, schema.entities[a].name);
                        }
                    }
                    lemma_visit_owners(schema, current, next, stack, i, j + 1, fuel);
                },
                Err(_) => {},
            }
        } else {
            lemma_visit_owners(schema, current, order, stack, i, j + 1, fuel);
        }
    }
}

/// Visiting the roots keeps what holds of the names that are done, and leaves every entity done.
proof fn lemma_visit_roots(schema: SchemaModel, order: Seq<Seq<char>>, k: nat)
    requires
        order_fits(schema, order, Seq::empty()),
        forall|a: int| 0 <= a < k && a < schema.entities.len() ==>
            order.contains(#[trigger] schema.entities[a].name),
    ensures
        visit_roots(schema, order, k) matches Ok(done) ==> {
            &&& order_fits(schema, done, Seq::empty())
            &&& forall|a: int| 0 <= a < schema.entities.len() ==>
                done.contains(#[trigger] schema.entities[a].name)
        },
    decreases schema.entities.len() - k,
{
    if k < schema.entities.len() {
        let root = schema.entities[k as int].name;
        assert(schema.names()[k as int] == root);
        lemma_visit(schema, root, order, Seq::empty(), schema.entities.len());
        match visit(schema, root, order, Seq::empty(), schema.entities.len()) {
            Ok(next) => {
                assert forall|a: int| 0 <= a < k + 1 && a < schema.entities.len()
                    implies next.contains(#[trigger] schema.entities[a].name) by {
                    if a < k {
                        lemma_position_prefix(order, next, schema.entities[a].name);
                    }
                }
                lemma_visit_roots(schema, next, k + 1);
            },
            Err(_) => {},
        }
    }
}

/// Topological correctness: whenever a creation order exists, it names every
/// entity exactly once, and the owner of a has-many relation stands before the
/// entity it has many of.
pub proof fn lemma_creation_order_is_topological(schema: SchemaModel)
    ensures
        creation_order(schema) matches Ok(order) ==> is_creation_order(schema, order),
{
    assert(respects(schema, Seq::<Seq<char>>::empty()));
    lemma_visit_roots(schema, Seq::empty(), 0);
    match creation_order(schema) {
        Ok(order) => {
            assert forall|name: Seq<char>| order.contains(name) <==> schema.names().contains(name) by {
                if schema.names().contains(name) {
                    let a = choose|a: int| 0 <= a < schema.names().len() && schema.names()[a] == name;
                    assert(order.contains(schema.entities[a].name));
                }
            }
            assert forall|owner: Seq<char>, owned: Seq<char>|
                schema.names().contains(owned) && #[trigger] must_precede(schema, owner, owned)
                implies position(order, owner) < position(order, owned) < order.len() by {
                lemma_position(order, owned);
                let p = position(order, owned);
                assert(must_precede(schema, owner, order[p]));
            }
        },
        Err(_) => {},
    }
}

/// A closed walk along the has-many relations: it ends where it began, and
/// each step leads from an entity to one of its owners.
pub open spec fn is_cycle(schema: SchemaModel, walk: Seq<Seq<char>>) -> bool {
    &&& walk.len() >= 2
    &&& walk[0] == walk.last()
    &&& is_chain(schema, walk)
}

/// Each name of the walk but the last is followed by one of its owners.
pub open spec fn is_chain(schema: SchemaModel, walk: Seq<Seq<char>>) -> bool {
    forall|k: int|
        0 <= k < walk.len() - 1 ==> must_precede(schema, walk[k + 1], #[trigger] walk[k])
}

/// Whether the has-many relations form a cycle.
pub open spec fn has_cycle(schema: SchemaModel) -> bool {
    exists|walk: Seq<Seq<char>>| is_cycle(schema, walk)
}

/// Whether the has-many relations form a cycle through `name`.
pub open spec fn on_cycle(schema: SchemaModel, name: Seq<char>) -> bool {
    exists|walk: Seq<Seq<char>>| #[trigger] is_cycle(schema, walk) && walk[0] == name
}

/// A visit fails only at a name that lies on a cycle.
proof fn lemma_visit_fails_on_cycle(
    schema: SchemaModel,
    current: Seq<char>,
    order: Seq<Seq<char>>,
    stack: Seq<Seq<char>>,
    fuel: nat,
)
    requires
        is_chain(schema, stack),
        stack.len() > 0 ==> must_precede(schema, current, stack.last()),
    ensures
        visit(schema, current, order, stack, fuel) matches Err(name) ==> on_cycle(schema, name),
    decreases fuel, 0nat, 0nat, 0nat,
{
    if stack.contains(current) {
        let p = choose|p: int| 0 <= p < stack.len() && stack[p] == current;
        let walk = stack.subrange(p, stack.len() as int).push(current);
        assert forall|k: int| 0 <= k < walk.len() - 1 implies must_precede(
            schema,
            walk[k + 1],
            #[trigger] walk[k],
        ) by {
            assert(walk[k] == stack[p + k]);
            if k < walk.len() - 2 {
                assert(walk[k + 1] == stack[p + k + 1]);
            }
        }
        assert(walk[0] == stack[p]);
        assert(is_cycle(schema, walk));
    } else if order.contains(current) || fuel == 0 {
    } else {
        let deeper = stack.push(current);
        assert forall|k: int| 0 <= k < deeper.len() - 1 implies must_precede(
            schema,
            deeper[k + 1],
            #[trigger] deeper[k],
        ) by {
            assert(deeper[k] == stack[k]);
            if k < stack.len() - 1 {
                assert(deeper[k + 1] == stack[k + 1]);
            }
        }
        lemma_owners_fail_on_cycle(schema, current, order, deeper, 0, 0, (fuel - 1) as nat);
    }
}

/// Visiting the owners of a name fails only at a name that lies on a cycle.
proof fn lemma_owners_fail_on_cycle(
    schema: SchemaModel,
    current: Seq<char>,
    order: Seq<Seq<char>>,
    stack: Seq<Seq<char>>,
    i: nat,
    j: nat,
    fuel: nat,
)
    requires
        is_chain(schema, stack),
        stack.len() > 0,
        stack.last() == current,
    ensures
        visit_owners(schema, current, order, stack, i, j, fuel) matches Err(name) ==> on_cycle(
            schema,
            name,
        ),
    decreases fuel, 1nat, schema.entities.len() - i, (if i < schema.entities.len() {
        schema.entities[i as int].relations.len() - j
    } else {
        0
    }),
{
    if i >= schema.entities.len() {
    } else {
        let owner = schema.entities[i as int];
        if owner.name == current || j >= owner.relations.len() {
            lemma_owners_fail_on_cycle(schema, current, order, stack, i + 1, 0, fuel);
        } else if owns(owner.relations[j as int], current) {
            assert(owns(schema.entities[i as int].relations[j as int], current));
            assert(must_precede(schema, owner.name, current));
            lemma_visit_fails_on_cycle(schema, owner.name, order, stack, fuel);
            match visit(schema, owner.name, order, stack, fuel) {
                Ok(next) => {
                    lemma_owners_fail_on_cycle(schema, current, next, stack, i, j + 1, fuel);
                },
                Err(_) => {},
            }
        } else {
            lemma_owners_fail_on_cycle(schema, current, order, stack, i, j + 1, fuel);
        }
    }
}

/// Visiting the roots fails only at a name that lies on a cycle.
proof fn lemma_roots_fail_on_cycle(schema: SchemaModel, order: Seq<Seq<char>>, k: nat)
    ensures
        visit_roots(schema, order, k) matches Err(name) ==> on_cycle(schema, name),
    decreases schema.entities.len() - k,
{
    if k < schema.entities.len() {
        let root = schema.entities[k as int].name;
        lemma_visit_fails_on_cycle(schema, root, order, Seq::empty(), schema.entities.len());
        match visit(schema, root, order, Seq::empty(), schema.entities.len()) {
            Ok(next) => {
                lemma_roots_fail_on_cycle(schema, next, k + 1);
            },
            Err(_) => {},
        }
    }
}

/// Along a cycle the positions in a creation order would fall for ever.
proof fn lemma_walk_descends(
    schema: SchemaModel,
    order: Seq<Seq<char>>,
    walk: Seq<Seq<char>>,
    k: int,
)
    requires
        is_creation_order(schema, order),
        is_cycle(schema, walk),
        1 <= k < walk.len(),
    ensures
        position(order, walk[k]) < position(order, walk[0]),
    decreases k,
{
    assert(must_precede(schema, walk[k], walk[k - 1]));
    if k == 1 {
        assert(must_precede(schema, walk[walk.len() - 1], walk[walk.len() - 2]));
        assert(schema.names().contains(walk[0])) by {
            let (a, b) = choose|a: int, b: int|
                0 <= a < schema.entities.len() && 0 <= b < schema.entities[a].relations.len()
                    && schema.entities[a].name == walk[walk.len() - 1] && #[trigger] owns(
                    schema.entities[a].relations[b],
                    walk[walk.len() - 2],
                );
            assert(schema.names()[a] == walk[0]);
        }
    } else {
        lemma_walk_descends(schema, order, walk, k - 1);
        assert(must_precede(schema, walk[k - 1], walk[k - 2]));
        assert(schema.names().contains(walk[k - 1])) by {
            let (a, b) = choose|a: int, b: int|
                0 <= a < schema.entities.len() && 0 <= b < schema.entities[a].relations.len()
                    && schema.entities[a].name == walk[k - 1] && #[trigger] owns(
                    schema.entities[a].relations[b],
                    walk[k - 2],
                );
            assert(schema.names()[a] == walk[k - 1]);
        }
    }
}

/// A creation order exists exactly when the has-many relations form no
/// cycle; and where none exists, the name that is reported lies on a cycle.
pub proof fn lemma_creation_order_exists_without_cycle(schema: SchemaModel)
    ensures
        creation_order(schema) is Ok <==> !has_cycle(schema),
        creation_order(schema) matches Err(name) ==> on_cycle(schema, name),
{
    lemma_roots_fail_on_cycle(schema, Seq::empty(), 0);
    lemma_creation_order_is_topological(schema);
    match creation_order(schema) {
        Ok(order) => {
            if has_cycle(schema) {
                let walk = choose|walk: Seq<Seq<char>>| is_cycle(schema, walk);
                lemma_walk_descends(schema, order, walk, walk.len() - 1);
            }
        },
        Err(name) => {
            let walk = choose|walk: Seq<Seq<char>>| #[trigger] is_cycle(schema, walk) && walk[0] == name;
            assert(is_cycle(schema, walk));
        },
    }
}

} // verus!

//! The migration generator: creation order, then one statement per entity.

use crate::ast::{texts, Entity, EntityModel, Field, FieldModel, RelationKind, Schema, SchemaModel};
use crate::migration::type_map::{
    postgres_default, postgres_type, to_postgres_default, to_postgres_type,
};
use crate::sql::naming::{entity_to_table, table_name};
use crate::migration::order::{
    creation_order, has_cycle, is_creation_order, lemma_creation_order_exists_without_cycle,
    lemma_creation_order_is_topological, lemma_stack_room, on_cycle, owns, stack_fits, visit,
    visit_owners, visit_roots,
};
use crate::text::{contains_text, join, join_texts, push_text};
use vstd::prelude::*;
use vstd::string::*;

verus! {

/// A migration: the whole script, and the statement of each entity in creation order.
#[derive(Debug, Clone, PartialEq)]
pub struct Migration {
    /// The complete script.
    pub sql: String,
    /// Each entity's name with its `CREATE TABLE` statement, in creation order.
    pub statements: Vec<(String, String)>,
}

/// Why no migration can be generated.
#[derive(Debug, Clone, PartialEq)]
pub enum MigrationError {
    CircularDependency(String),
    UnknownEntity(String),
}

/// The model of a [`Migration`].
pub struct MigrationModel {
    pub sql: Seq<char>,
    pub statements: Seq<(Seq<char>, Seq<char>)>,
}

/// The model of a [`MigrationError`].
pub enum MigrationErrorModel {
    CircularDependency(Seq<char>),
    UnknownEntity(Seq<char>),
}

/// The models of a list of statements.
pub open spec fn statement_models(v: Seq<(String, String)>) -> Seq<(Seq<char>, Seq<char>)> {
    Seq::new(v.len(), |i: int| (v[i].0@, v[i].1@))
}

impl View for Migration {
    type V = MigrationModel;

    open spec fn view(&self) -> MigrationModel {
        MigrationModel { sql: self.sql@, statements: statement_models(self.statements@) }
    }
}

impl View for MigrationError {
    type V = MigrationErrorModel;

    open spec fn view(&self) -> MigrationErrorModel {
        match *self {
            MigrationError::CircularDependency(name) => MigrationErrorModel::CircularDependency(
                name@,
            ),
            MigrationError::UnknownEntity(name) => MigrationErrorModel::UnknownEntity(name@),
        }
    }
}

impl MigrationErrorModel {
    /// The error in words.
    pub open spec fn message(self) -> Seq<char> {
        match self {
            MigrationErrorModel::CircularDependency(name) => "Circular dependency detected at '"@
                + name + "'"@,
            MigrationErrorModel::UnknownEntity(name) => "Unknown entity: '"@ + name + "'"@,
        }
    }
}

impl MigrationError {
    /// The error in words.
    pub fn message(&self) -> (r: String)
        ensures
            r@ == self@.message(),
    {
        match self {
            MigrationError::CircularDependency(name) => {
                let mut out = String::from_str("Circular dependency detected at '");
                out.append(name.as_str());
                out.append("'");
                out
            },
            MigrationError::UnknownEntity(name) => {
                let mut out = String::from_str("Unknown entity: '");
                out.append(name.as_str());
                out.append("'");
                out
            },
        }
    }
}

/// The line of one column: name and type, then `PRIMARY KEY`, `NOT NULL`,
/// `UNIQUE` and `DEFAULT ..` as far as they apply. A primary key is never
/// marked `NOT NULL`, nor is a nullable field.
pub open spec fn column_text(field: FieldModel) -> Seq<char> {
    "    "@ + field.name + " "@ + postgres_type(field.field_type) + (if field.primary_key {
        " PRIMARY KEY"@
    } else {
        Seq::empty()
    }) + (if !field.nullable && !field.primary_key {
        " NOT NULL"@
    } else {
        Seq::empty()
    }) + (if field.unique {
        " UNIQUE"@
    } else {
        Seq::empty()
    }) + (match field.default {
        Some(d) => " DEFAULT "@ + postgres_default(d),
        None => Seq::empty(),
    })
}

/// The line of the foreign key `foreign_key` that refers to the table of `owner`.
pub open spec fn constraint_text(foreign_key: Seq<char>, owner: Seq<char>) -> Seq<char> {
    "    FOREIGN KEY ("@ + foreign_key + ") REFERENCES "@ + table_name(owner) + "(id)"@
}

/// The column lines of an entity, one per field, in declaration order.
pub open spec fn column_lines(entity: EntityModel) -> Seq<Seq<char>> {
    Seq::new(entity.fields.len(), |i: int| column_text(entity.fields[i]))
}

/// The constraint lines that the first `upto` relations of `owner` put on the
/// table of `target`: one for each has-many relation to it that names a foreign key.
pub open spec fn owner_constraints(owner: EntityModel, target: Seq<char>, upto: int) -> Seq<
    Seq<char>,
>
    decreases upto,
{
    if upto <= 0 {
        Seq::empty()
    } else {
        let relation = owner.relations[upto - 1];
        let head = owner_constraints(owner, target, upto - 1);
        if owns(relation, target) && relation.foreign_key is Some {
            head.push(constraint_text(relation.foreign_key->0, owner.name))
        } else {
            head
        }
    }
}

/// The constraint lines that the first `upto` entities of the schema put on
/// the table of `target`. An entity called `target` itself puts none.
pub open spec fn constraint_lines(schema: SchemaModel, target: Seq<char>, upto: int) -> Seq<
    Seq<char>,
>
    decreases upto,
{
    if upto <= 0 {
        Seq::empty()
    } else {
        let owner = schema.entities[upto - 1];
        let head = constraint_lines(schema, target, upto - 1);
        if owner.name == target {
            head
        } else {
            head + owner_constraints(owner, target, owner.relations.len() as int)
        }
    }
}

/// The `CREATE TABLE` statement of `entity` within `schema`: its columns in
/// declaration order, then the foreign keys that other entities put on it,
/// one line each, separated by commas.
pub open spec fn create_table_text(entity: EntityModel, schema: SchemaModel) -> Seq<char> {
    "CREATE TABLE "@ + table_name(entity.name) + " (\n"@ + join(
        column_lines(entity) + constraint_lines(
            schema,
            entity.name,
            schema.entities.len() as int,
        ),
        ",\n"@,
    ) + "\n);"@
}

/// The statements of the entities named in `order`: each name with the
/// statement of the first entity of that name.
pub open spec fn statements_of(schema: SchemaModel, order: Seq<Seq<char>>) -> Seq<
    (Seq<char>, Seq<char>),
> {
    Seq::new(
        order.len(),
        |i: int|
            (
                order[i],
                create_table_text(schema.entities[schema.entity_index(order[i])], schema),
            ),
    )
}

/// The statements joined by blank lines.
pub open spec fn script_of(statements: Seq<(Seq<char>, Seq<char>)>) -> Seq<char> {
    join(Seq::new(statements.len(), |i: int| statements[i].1), "\n\n"@)
}

/// The migration of a schema: the statements of its entities in creation
/// order and the script made of them, or the cycle that forbids any order.
pub open spec fn migration_of(schema: SchemaModel) -> Result<MigrationModel, MigrationErrorModel> {
    match creation_order(schema) {
        Ok(order) => Ok(
            MigrationModel {
                sql: script_of(statements_of(schema, order)),
                statements: statements_of(schema, order),
            },
        ),
        Err(name) => Err(MigrationErrorModel::CircularDependency(name)),
    }
}

/// The names of the entities whose statements these are, in the same order.
pub open spec fn statement_names(statements: Seq<(Seq<char>, Seq<char>)>) -> Seq<Seq<char>> {
    Seq::new(statements.len(), |i: int| statements[i].0)
}

/// The statements of a migration stand in creation order: each entity has
/// one, and the statement of an owner stands before those of the entities it
/// has many of.
pub proof fn lemma_statements_stand_in_creation_order(schema: SchemaModel)
    ensures
        migration_of(schema) matches Ok(migration) ==> is_creation_order(
            schema,
            statement_names(migration.statements),
        ),
{
    lemma_creation_order_is_topological(schema);
    match creation_order(schema) {
        Ok(order) => {
            assert(statement_names(statements_of(schema, order)) =~= order);
        },
        Err(_) => {},
    }
}

/// Generating twice gives the same: whatever two runs of the generator on
/// one schema return, both succeed or both fail, with the same script and the
/// same statements, or with the same error.
pub proof fn lemma_generating_is_repeatable(
    schema: Schema,
    first: Result<Migration, MigrationError>,
    second: Result<Migration, MigrationError>,
)
    requires
        match migration_of(schema@) {
            Ok(migration) => first matches Ok(m) && m@ == migration,
            Err(error) => first matches Err(e) && e@ == error,
        },
        match migration_of(schema@) {
            Ok(migration) => second matches Ok(m) && m@ == migration,
            Err(error) => second matches Err(e) && e@ == error,
        },
    ensures
        first is Ok <==> second is Ok,
        first matches Ok(a) ==> second matches Ok(b) && a.sql@ == b.sql@ && a@ == b@,
        first matches Err(a) ==> second matches Err(b) && a@ == b@,
{
}

/// The line of one column.
pub fn column_sql(field: &Field) -> (r: String)
    ensures
        r@ == column_text(field@),
{
    let mut col = String::from_str("    ");
    col.append(field.name.as_str());
    col.append(" ");
    let pg_type = to_postgres_type(&field.field_type);
    col.append(pg_type.as_str());
    if field.primary_key {
        col.append(" PRIMARY KEY");
    }
    if !field.nullable && !field.primary_key {
        col.append(" NOT NULL");
    }
    if field.unique {
        col.append(" UNIQUE");
    }
    match &field.default {
        Some(default) => {
            col.append(" DEFAULT ");
            let value = to_postgres_default(default);
            col.append(value.as_str());
        },
        None => {},
    }
    assert(col@ =~= column_text(field@));
    col
}

/// Generates the `CREATE TABLE` statement of `entity` within `schema`. It never fails.
pub fn generate_create_table(entity: &Entity, schema: &Schema) -> (r: Result<
    String,
    MigrationError,
>)
    ensures
        r matches Ok(sql) && sql@ == create_table_text(entity@, schema@),
{
    let table = entity_to_table(entity.name.as_str());
    let mut parts: Vec<String> = Vec::new();

    let mut i: usize = 0;
    while i < entity.fields.len()
        invariant
            i <= entity.fields.len(),
            texts(parts@) == column_lines(entity@).take(i as int),
        decreases entity.fields.len() - i,
    {
        let col = column_sql(&entity.fields[i]);
        push_text(&mut parts, col);
        assert(texts(parts@) =~= column_lines(entity@).take(i + 1));
        i += 1;
    }
    assert(column_lines(entity@).take(entity.fields.len() as int) =~= column_lines(entity@));

    let mut k: usize = 0;
    while k < schema.entities.len()
        invariant
            k <= schema.entities.len(),
            texts(parts@) == column_lines(entity@) + constraint_lines(
                schema@,
                entity@.name,
                k as int,
            ),
        decreases schema.entities.len() - k,
    {
        let owner = &schema.entities[k];
        assert(schema@.entities[k as int] == owner@);
        if owner.name != entity.name {
            let ghost before = texts(parts@);
            let mut j: usize = 0;
            while j < owner.relations.len()
                invariant
                    j <= owner.relations.len(),
                    texts(parts@) == before + owner_constraints(
                        owner@,
                        entity@.name,
                        j as int,
                    ),
                decreases owner.relations.len() - j,
            {
                let relation = &owner.relations[j];
                assert(owner@.relations[j as int] == relation@);
                if relation.kind == RelationKind::HasMany && relation.target_entity == entity.name {
                    match &relation.foreign_key {
                        Some(fk) => {
                            let owner_table = entity_to_table(owner.name.as_str());
                            let mut line = String::from_str("    FOREIGN KEY (");
                            line.append(fk.as_str());
                            line.append(") REFERENCES ");
                            line.append(owner_table.as_str());
                            line.append("(id)");
                            assert(line@ =~= constraint_text(fk@, owner@.name));
                            push_text(&mut parts, line);
                        },
                        None => {},
                    }
                }
                assert(texts(parts@) =~= before + owner_constraints(
                    owner@,
                    entity@.name,
                    j + 1,
                ));
                j += 1;
            }
        }
        assert(texts(parts@) =~= column_lines(entity@) + constraint_lines(
            schema@,
            entity@.name,
            k + 1,
        ));
        k += 1;
    }

    let body = join_texts(&parts, ",\n");
    let mut sql = String::from_str("CREATE TABLE ");
    sql.append(table.as_str());
    sql.append(" (\n");
    sql.append(body.as_str());
    sql.append("\n);");
    assert(sql@ =~= create_table_text(entity@, schema@));
    Ok(sql)
}

/// Visits `current`: on success it and all its owners are appended to
/// `order`, owners first, and `in_stack` is as before. Where `current` is
/// on the stack already, the visit fails at once and leaves both as they were.
fn topo_sort(
    schema: &Schema,
    current: &String,
    order: &mut Vec<String>,
    in_stack: &mut Vec<String>,
    Ghost(fuel): Ghost<nat>,
) -> (r: Result<(), MigrationError>)
    requires
        schema@.names().contains(current@),
        stack_fits(schema@, texts(old(in_stack)@)),
        fuel + old(in_stack).len() == schema.entities.len(),
    ensures
        match visit(schema@, current@, texts(old(order)@), texts(old(in_stack)@), fuel) {
            Ok(done) => {
                &&& r is Ok
                &&& texts(final(order)@) == done
                &&& texts(final(in_stack)@) == texts(old(in_stack)@)
            },
            Err(name) => r matches Err(MigrationError::CircularDependency(n)) && n@ == name,
        },
        texts(old(in_stack)@).contains(current@) ==> {
            &&& r matches Err(MigrationError::CircularDependency(n)) && n@ == current@
            &&& final(order)@ == old(order)@
            &&& final(in_stack)@ == old(in_stack)@
        },
        !texts(old(in_stack)@).contains(current@) && texts(old(order)@).contains(current@) ==> {
            &&& r is Ok
            &&& final(order)@ == old(order)@
            &&& final(in_stack)@ == old(in_stack)@
        },
    decreases fuel,
{
    if contains_text(in_stack, current.as_str()) {
        return Err(MigrationError::CircularDependency(current.clone()));
    }
    if contains_text(order, current.as_str()) {
        return Ok(());
    }
    proof {
        lemma_stack_room(schema@, texts(in_stack@), current@);
    }
    let ghost stack = texts(in_stack@).push(current@);
    let ghost start = texts(order@);
    let ghost below = (fuel - 1) as nat;
    push_text(in_stack, current.clone());

    let mut i: usize = 0;
    while i < schema.entities.len()
        invariant
            i <= schema.entities.len(),
            texts(in_stack@) == stack,
            stack == texts(old(in_stack)@).push(current@),
            start == texts(old(order)@),
            !texts(old(in_stack)@).contains(current@),
            !start.contains(current@),
            below + 1 == fuel,
            stack_fits(schema@, stack),
            below + stack.len() == schema.entities.len(),
            visit_owners(schema@, current@, texts(order@), stack, i as nat, 0, below)
                == visit_owners(schema@, current@, start, stack, 0, 0, below),
        decreases schema.entities.len() - i,
    {
        let owner = &schema.entities[i];
        assert(schema@.entities[i as int] == owner@);
        assert(schema@.names()[i as int] == owner@.name);
        if owner.name != *current {
            let mut j: usize = 0;
            while j < owner.relations.len()
                invariant
                    i < schema.entities.len(),
                    j <= owner.relations.len(),
                    schema@.entities[i as int] == owner@,
                    schema@.names().contains(owner@.name),
                    owner@.name != current@,
                    texts(in_stack@) == stack,
                    stack == texts(old(in_stack)@).push(current@),
                    start == texts(old(order)@),
                    !texts(old(in_stack)@).contains(current@),
                    !start.contains(current@),
                    below + 1 == fuel,
                    stack_fits(schema@, stack),
                    below + stack.len() == schema.entities.len(),
                    visit_owners(schema@, current@, texts(order@), stack, i as nat, j as nat, below)
                        == visit_owners(schema@, current@, start, stack, 0, 0, below),
                decreases owner.relations.len() - j,
            {
                let relation = &owner.relations[j];
                assert(owner@.relations[j as int] == relation@);
                if relation.kind == RelationKind::HasMany && relation.target_entity == *current {
                    match topo_sort(schema, &owner.name, order, in_stack, Ghost(below)) {
                        Ok(()) => {},
                        Err(e) => {
                            return Err(e);
                        },
                    }
                }
                j += 1;
            }
        }
        i += 1;
    }

    in_stack.pop();
    assert(texts(in_stack@) =~= stack.drop_last());
    assert(stack.drop_last() =~= texts(old(in_stack)@));
    push_text(order, current.clone());
    Ok(())
}

/// Resolves the order in which the tables are created, owners first.
pub fn resolve_creation_order(schema: &Schema) -> (r: Result<Vec<String>, MigrationError>)
    ensures
        match creation_order(schema@) {
            Ok(order) => r matches Ok(names) && texts(names@) == order,
            Err(name) => r matches Err(MigrationError::CircularDependency(n)) && n@ == name,
        },
        r is Ok <==> !has_cycle(schema@),
        r matches Ok(names) ==> is_creation_order(schema@, texts(names@)),
        r matches Err(MigrationError::CircularDependency(n)) ==> on_cycle(schema@, n@),
{
    let mut order: Vec<String> = Vec::new();
    let mut in_stack: Vec<String> = Vec::new();
    assert(texts(order@) =~= Seq::<Seq<char>>::empty());
    assert(texts(in_stack@) =~= Seq::<Seq<char>>::empty());

    let mut k: usize = 0;
    while k < schema.entities.len()
        invariant
            k <= schema.entities.len(),
            texts(in_stack@) == Seq::<Seq<char>>::empty(),
            visit_roots(schema@, texts(order@), k as nat) == creation_order(schema@),
        decreases schema.entities.len() - k,
    {
        let entity = &schema.entities[k];
        assert(schema@.entities[k as int] == entity@);
        assert(schema@.names()[k as int] == entity@.name);
        match topo_sort(
            schema,
            &entity.name,
            &mut order,
            &mut in_stack,
            Ghost(schema.entities.len() as nat),
        ) {
            Ok(()) => {},
            Err(e) => {
                proof {
                    lemma_creation_order_exists_without_cycle(schema@);
                }
                return Err(e);
            },
        }
        k += 1;
    }
    proof {
        lemma_creation_order_is_topological(schema@);
        lemma_creation_order_exists_without_cycle(schema@);
    }
    Ok(order)
}

/// Generates the migration of `schema`: the creation order is resolved, then
/// each entity in that order gets its `CREATE TABLE` statement, and the
/// statements joined by blank lines make the script. It fails, before any
/// statement is made, exactly when the has-many relations form a cycle.
pub fn generate_migration(schema: &Schema) -> (r: Result<Migration, MigrationError>)
    ensures
        match migration_of(schema@) {
            Ok(migration) => r matches Ok(m) && m@ == migration,
            Err(error) => r matches Err(e) && e@ == error,
        },
        r is Ok <==> !has_cycle(schema@),
        r matches Ok(m) ==> is_creation_order(schema@, statement_names(m@.statements)),
        r matches Err(MigrationError::CircularDependency(n)) ==> on_cycle(schema@, n@),
{
    proof {
        lemma_statements_stand_in_creation_order(schema@);
    }
    let order = match resolve_creation_order(schema) {
        Ok(order) => order,
        Err(e) => {
            return Err(e);
        },
    };
    let ghost wanted = statements_of(schema@, texts(order@));

    let mut statements: Vec<(String, String)> = Vec::new();
    let mut sql = String::new();
    let mut i: usize = 0;
    while i < order.len()
        invariant
            i <= order.len(),
            !has_cycle(schema@),
            creation_order(schema@) == Ok::<Seq<Seq<char>>, Seq<char>>(texts(order@)),
            is_creation_order(schema@, texts(order@)),
            wanted == statements_of(schema@, texts(order@)),
            statement_models(statements@) == wanted.take(i as int),
            sql@ == script_of(wanted.take(i as int)),
        decreases order.len() - i,
    {
        let name = &order[i];
        assert(texts(order@)[i as int] == name@);
        assert(texts(order@).contains(name@));
        proof {
            let a = choose|a: int| 0 <= a < schema@.names().len() && schema@.names()[a] == name@;
            assert(schema@.entities[a].name == name@);
        }
        let entity = schema.get_entity(name.as_str()).unwrap();
        let statement = match generate_create_table(entity, schema) {
            Ok(statement) => statement,
            Err(e) => {
                return Err(e);
            },
        };
        let ghost before = wanted.take(i as int);
        let ghost after = wanted.take(i + 1);
        let ghost scripts = Seq::new(after.len(), |k: int| after[k].1);
        assert(scripts.drop_last() =~= Seq::new(before.len(), |k: int| before[k].1));
        assert(scripts.last() == statement@);
        if i > 0 {
            sql.append("\n\n");
        }
        sql.append(statement.as_str());
        assert(sql@ =~= script_of(after));
        statements.push((name.clone(), statement));
        assert(statement_models(statements@) =~= after);
        i += 1;
    }
    assert(wanted.take(order.len() as int) =~= wanted);
    Ok(Migration { sql, statements })
}

} // verus!

use chameleon_core::ast::{
    BackendAnnotation, DefaultValue, Entity, Field, FieldType, Relation, RelationKind, Schema,
};
use chameleon_core::migration::generator::{generate_create_table, resolve_creation_order};
use chameleon_core::migration::type_map;
use chameleon_core::migration::{generate_migration, MigrationError};
use chameleon_core::sql::naming::entity_to_table;

fn plain(name: &str, field_type: FieldType, nullable: bool, unique: bool, primary_key: bool) -> Field {
    Field {
        name: name.to_string(),
        field_type,
        nullable,
        unique,
        primary_key,
        default: None,
        backend: None,
    }
}

fn has_many(name: &str, target: &str, fk: Option<&str>) -> Relation {
    Relation {
        name: name.to_string(),
        kind: RelationKind::HasMany,
        target_entity: target.to_string(),
        foreign_key: fk.map(|s| s.to_string()),
        through: None,
    }
}

/// The standard User → Order → OrderItem schema.
fn test_schema() -> Schema {
    let mut schema = Schema::new();

    let mut user = Entity::new("User".to_string());
    user.add_field(Field {
        name: "id".to_string(),
        field_type: FieldType::UUID,
        nullable: false, unique: false, primary_key: true,
        default: None, backend: None,
    });
    user.add_field(Field {
        name: "email".to_string(),
        field_type: FieldType::String,
        nullable: false, unique: true, primary_key: false,
        default: None, backend: None,
    });
    user.add_field(Field {
        name: "name".to_string(),
        field_type: FieldType::String,
        nullable: false, unique: false, primary_key: false,
        default: None, backend: None,
    });
    user.add_field(Field {
        name: "age".to_string(),
        field_type: FieldType::Int,
        nullable: true, unique: false, primary_key: false,
        default: None, backend: None,
    });
    user.add_field(Field {
        name: "created_at".to_string(),
        field_type: FieldType::Timestamp,
        nullable: false, unique: false, primary_key: false,
        default: Some(DefaultValue::Now), backend: None,
    });
    user.add_relation(Relation {
        name: "orders".to_string(),
        kind: RelationKind::HasMany,
        target_entity: "Order".to_string(),
        foreign_key: Some("user_id".to_string()),
        through: None,
    });
    schema.add_entity(user);

    let mut order = Entity::new("Order".to_string());
    order.add_field(Field {
        name: "id".to_string(),
        field_type: FieldType::UUID,
        nullable: false, unique: false, primary_key: true,
        default: None, backend: None,
    });
    order.add_field(Field {
        name: "total".to_string(),
        field_type: FieldType::Decimal,
        nullable: false, unique: false, primary_key: false,
        default: None, backend: None,
    });
    order.add_field(Field {
        name: "status".to_string(),
        field_type: FieldType::String,
        nullable: false, unique: false, primary_key: false,
        default: None, backend: None,
    });
    order.add_field(Field {
        name: "user_id".to_string(),
        field_type: FieldType::UUID,
        nullable: false, unique: false, primary_key: false,
        default: None, backend: None,
    });
    order.add_relation(Relation {
        name: "user".to_string(),
        kind: RelationKind::BelongsTo,
        target_entity: "User".to_string(),
        foreign_key: None,
        through: None,
    });
    order.add_relation(Relation {
        name: "items".to_string(),
        kind: RelationKind::HasMany,
        target_entity: "OrderItem".to_string(),
        foreign_key: Some("order_id".to_string()),
        through: None,
    });
    schema.add_entity(order);

    let mut item = Entity::new("OrderItem".to_string());
    item.add_field(Field {
        name: "id".to_string(),
        field_type: FieldType::UUID,
        nullable: false, unique: false, primary_key: true,
        default: None, backend: None,
    });
    item.add_field(Field {
        name: "quantity".to_string(),
        field_type: FieldType::Int,
        nullable: false, unique: false, primary_key: false,
        default: None, backend: None,
    });
    item.add_field(Field {
        name: "price".to_string(),
        field_type: FieldType::Decimal,
        nullable: false, unique: false, primary_key: false,
        default: None, backend: None,
    });
    item.add_field(Field {
        name: "order_id".to_string(),
        field_type: FieldType::UUID,
        nullable: false, unique: false, primary_key: false,
        default: None, backend: None,
    });
    item.add_relation(Relation {
        name: "order".to_string(),
        kind: RelationKind::BelongsTo,
        target_entity: "Order".to_string(),
        foreign_key: None,
        through: None,
    });
    schema.add_entity(item);

    schema
}

#[test]
fn test_type_map_basic() {
    assert_eq!(type_map::to_postgres_type(&FieldType::UUID), "UUID");
    assert_eq!(type_map::to_postgres_type(&FieldType::String), "VARCHAR");
    assert_eq!(type_map::to_postgres_type(&FieldType::Int), "INTEGER");
    assert_eq!(type_map::to_postgres_type(&FieldType::Decimal), "NUMERIC");
    assert_eq!(type_map::to_postgres_type(&FieldType::Bool), "BOOLEAN");
    assert_eq!(type_map::to_postgres_type(&FieldType::Timestamp), "TIMESTAMP");
    assert_eq!(type_map::to_postgres_type(&FieldType::Float), "DOUBLE PRECISION");
}

#[test]
fn test_type_map_vector() {
    assert_eq!(type_map::to_postgres_type(&FieldType::Vector(384)), "VECTOR(384)");
}

#[test]
fn test_type_map_array() {
    assert_eq!(
        type_map::to_postgres_type(&FieldType::Array(Box::new(FieldType::String))),
        "VARCHAR[]"
    );
}

#[test]
fn test_generate_single_table() {
    let mut schema = Schema::new();
    let mut entity = Entity::new("User".to_string());
    entity.add_field(Field {
        name: "id".to_string(),
        field_type: FieldType::UUID,
        nullable: false, unique: false, primary_key: true,
        default: None, backend: None,
    });
    entity.add_field(Field {
        name: "email".to_string(),
        field_type: FieldType::String,
        nullable: false, unique: true, primary_key: false,
        default: None, backend: None,
    });
    schema.add_entity(entity);

    let migration = generate_migration(&schema).unwrap();

    assert_eq!(migration.statements.len(), 1);
    assert!(migration.sql.contains("CREATE TABLE users"));
    assert!(migration.sql.contains("id UUID PRIMARY KEY"));
    assert!(migration.sql.contains("email VARCHAR NOT NULL UNIQUE"));
}

#[test]
fn test_nullable_field() {
    let mut schema = Schema::new();
    let mut entity = Entity::new("User".to_string());
    entity.add_field(Field {
        name: "id".to_string(),
        field_type: FieldType::UUID,
        nullable: false, unique: false, primary_key: true,
        default: None, backend: None,
    });
    entity.add_field(Field {
        name: "age".to_string(),
        field_type: FieldType::Int,
        nullable: true, unique: false, primary_key: false,
        default: None, backend: None,
    });
    schema.add_entity(entity);

    let migration = generate_migration(&schema).unwrap();

    assert!(migration.sql.contains("age INTEGER"));
    assert!(!migration.sql.contains("age INTEGER NOT NULL"));
}

#[test]
fn test_default_values() {
    let mut schema = Schema::new();
    let mut entity = Entity::new("Event".to_string());
    entity.add_field(Field {
        name: "id".to_string(),
        field_type: FieldType::UUID,
        nullable: false, unique: false, primary_key: true,
        default: Some(DefaultValue::UUIDv4), backend: None,
    });
    entity.add_field(Field {
        name: "created_at".to_string(),
        field_type: FieldType::Timestamp,
        nullable: false, unique: false, primary_key: false,
        default: Some(DefaultValue::Now), backend: None,
    });
    schema.add_entity(entity);

    let migration = generate_migration(&schema).unwrap();

    assert!(migration.sql.contains("DEFAULT gen_random_uuid()"));
    assert!(migration.sql.contains("DEFAULT NOW()"));
}

#[test]
fn test_foreign_key_generation() {
    let schema = test_schema();
    let migration = generate_migration(&schema).unwrap();

    let order_stmt = migration.statements.iter()
        .find(|(name, _)| name == "Order")
        .unwrap();
    assert!(order_stmt.1.contains("FOREIGN KEY (user_id) REFERENCES users(id)"));

    let item_stmt = migration.statements.iter()
        .find(|(name, _)| name == "OrderItem")
        .unwrap();
    assert!(item_stmt.1.contains("FOREIGN KEY (order_id) REFERENCES orders(id)"));
}

#[test]
fn test_creation_order() {
    let schema = test_schema();
    let migration = generate_migration(&schema).unwrap();

    let order: Vec<&str> = migration.statements.iter()
        .map(|(name, _)| name.as_str())
        .collect();

    let user_pos = order.iter().position(|&n| n == "User").unwrap();
    let order_pos = order.iter().position(|&n| n == "Order").unwrap();
    let item_pos = order.iter().position(|&n| n == "OrderItem").unwrap();

    assert!(user_pos < order_pos, "User must be created before Order");
    assert!(order_pos < item_pos, "Order must be created before OrderItem");
}

#[test]
fn test_full_migration() {
    let schema = test_schema();
    let migration = generate_migration(&schema).unwrap();

    assert_eq!(migration.statements.len(), 3);

    assert!(migration.sql.contains("CREATE TABLE users"));
    assert!(migration.sql.contains("CREATE TABLE orders"));
    assert!(migration.sql.contains("CREATE TABLE order_items"));
}

#[test]
fn test_annotations_ignored_in_ddl() {
    let mut schema = Schema::new();
    let mut entity = Entity::new("Product".to_string());
    entity.add_field(Field {
        name: "id".to_string(),
        field_type: FieldType::UUID,
        nullable: false, unique: false, primary_key: true,
        default: None, backend: None,
    });
    entity.add_field(Field {
        name: "views".to_string(),
        field_type: FieldType::Int,
        nullable: false, unique: false, primary_key: false,
        default: None, backend: Some(BackendAnnotation::Cache),
    });
    entity.add_field(Field {
        name: "sales".to_string(),
        field_type: FieldType::Decimal,
        nullable: false, unique: false, primary_key: false,
        default: None, backend: Some(BackendAnnotation::OLAP),
    });
    schema.add_entity(entity);

    let migration = generate_migration(&schema).unwrap();

    assert!(!migration.sql.contains("@cache"));
    assert!(!migration.sql.contains("@olap"));
    assert!(migration.sql.contains("views INTEGER NOT NULL"));
    assert!(migration.sql.contains("sales NUMERIC NOT NULL"));
}

#[test]
fn single_table_statement_is_exact() {
    let mut schema = Schema::new();
    let mut entity = Entity::new("User".to_string());
    entity.add_field(plain("id", FieldType::UUID, false, false, true));
    entity.add_field(plain("email", FieldType::String, false, true, false));
    schema.add_entity(entity);

    let migration = generate_migration(&schema).unwrap();
    let expected = "CREATE TABLE users (\n    id UUID PRIMARY KEY,\n    email VARCHAR NOT NULL UNIQUE\n);";
    assert_eq!(migration.sql, expected);
    assert_eq!(migration.statements, vec![("User".to_string(), expected.to_string())]);
}

#[test]
fn not_null_is_left_out_for_nullable_and_primary_fields() {
    let mut schema = Schema::new();
    let mut entity = Entity::new("User".to_string());
    entity.add_field(plain("id", FieldType::UUID, false, false, true));
    entity.add_field(plain("age", FieldType::Int, false, false, false));
    entity.add_field(plain("nick", FieldType::String, true, true, false));
    schema.add_entity(entity);

    let sql = generate_migration(&schema).unwrap().sql;
    assert_eq!(
        sql,
        "CREATE TABLE users (\n    id UUID PRIMARY KEY,\n    age INTEGER NOT NULL,\n    nick VARCHAR UNIQUE\n);"
    );
}

#[test]
fn defaults_follow_the_other_keywords() {
    let mut schema = Schema::new();
    let mut entity = Entity::new("Event".to_string());
    let mut id = plain("id", FieldType::UUID, false, false, true);
    id.default = Some(DefaultValue::UUIDv4);
    let mut kind = plain("kind", FieldType::String, false, true, false);
    kind.default = Some(DefaultValue::Literal("plain".to_string()));
    entity.add_field(id);
    entity.add_field(kind);
    schema.add_entity(entity);

    let sql = generate_migration(&schema).unwrap().sql;
    assert_eq!(
        sql,
        "CREATE TABLE events (\n    id UUID PRIMARY KEY DEFAULT gen_random_uuid(),\n    kind VARCHAR NOT NULL UNIQUE DEFAULT 'plain'\n);"
    );
}

#[test]
fn full_script_is_exact() {
    let schema = chameleon_core::query::test_helper::test_schema();
    let migration = generate_migration(&schema).unwrap();
    let users = "CREATE TABLE users (\n    id UUID PRIMARY KEY,\n    email VARCHAR NOT NULL UNIQUE,\n    name VARCHAR NOT NULL,\n    age INTEGER\n);";
    let orders = "CREATE TABLE orders (\n    id UUID PRIMARY KEY,\n    total NUMERIC NOT NULL,\n    status VARCHAR NOT NULL,\n    user_id UUID NOT NULL,\n    FOREIGN KEY (user_id) REFERENCES users(id)\n);";
    let items = "CREATE TABLE order_items (\n    id UUID PRIMARY KEY,\n    quantity INTEGER NOT NULL,\n    price NUMERIC NOT NULL,\n    order_id UUID NOT NULL,\n    FOREIGN KEY (order_id) REFERENCES orders(id)\n);";
    assert_eq!(migration.sql, format!("{}\n\n{}\n\n{}", users, orders, items));
    assert_eq!(
        migration.statements,
        vec![
            ("User".to_string(), users.to_string()),
            ("Order".to_string(), orders.to_string()),
            ("OrderItem".to_string(), items.to_string()),
        ]
    );
}

#[test]
fn owners_are_created_first_whatever_the_declaration_order() {
    let mut schema = Schema::new();
    let mut item = Entity::new("OrderItem".to_string());
    item.add_field(plain("id", FieldType::UUID, false, false, true));
    schema.add_entity(item);
    let mut order = Entity::new("Order".to_string());
    order.add_field(plain("id", FieldType::UUID, false, false, true));
    order.add_relation(has_many("items", "OrderItem", Some("order_id")));
    schema.add_entity(order);
    let mut user = Entity::new("User".to_string());
    user.add_field(plain("id", FieldType::UUID, false, false, true));
    user.add_relation(has_many("orders", "Order", Some("user_id")));
    schema.add_entity(user);

    let order = resolve_creation_order(&schema).unwrap();
    assert_eq!(order, vec!["User".to_string(), "Order".to_string(), "OrderItem".to_string()]);
}

#[test]
fn has_many_cycle_stops_the_migration() {
    let mut schema = Schema::new();
    let mut a = Entity::new("A".to_string());
    a.add_relation(has_many("bs", "B", Some("a_id")));
    schema.add_entity(a);
    let mut b = Entity::new("B".to_string());
    b.add_relation(has_many("as", "A", Some("b_id")));
    schema.add_entity(b);

    assert_eq!(
        generate_migration(&schema),
        Err(MigrationError::CircularDependency("A".to_string()))
    );
    assert_eq!(
        generate_migration(&schema).unwrap_err().message(),
        "Circular dependency detected at 'A'"
    );
    assert_eq!(
        MigrationError::UnknownEntity("Ghost".to_string()).message(),
        "Unknown entity: 'Ghost'"
    );
}

#[test]
fn has_one_cycle_does_not_stop_the_migration() {
    let mut schema = Schema::new();
    let mut a = Entity::new("A".to_string());
    a.add_relation(Relation {
        name: "b".to_string(),
        kind: RelationKind::HasOne,
        target_entity: "B".to_string(),
        foreign_key: None,
        through: None,
    });
    schema.add_entity(a);
    let mut b = Entity::new("B".to_string());
    b.add_relation(Relation {
        name: "a".to_string(),
        kind: RelationKind::HasOne,
        target_entity: "A".to_string(),
        foreign_key: None,
        through: None,
    });
    schema.add_entity(b);

    let migration = generate_migration(&schema).unwrap();
    assert_eq!(migration.sql, "CREATE TABLE as (\n\n);\n\nCREATE TABLE bs (\n\n);");
}

#[test]
fn self_reference_is_no_cycle_and_no_constraint() {
    let mut schema = Schema::new();
    let mut node = Entity::new("Node".to_string());
    node.add_field(plain("id", FieldType::UUID, false, false, true));
    node.add_relation(has_many("children", "Node", Some("parent_id")));
    schema.add_entity(node);

    let migration = generate_migration(&schema).unwrap();
    assert_eq!(migration.sql, "CREATE TABLE nodes (\n    id UUID PRIMARY KEY\n);");
}

#[test]
fn has_many_without_foreign_key_orders_but_adds_no_constraint() {
    let mut schema = Schema::new();
    let mut order = Entity::new("Order".to_string());
    order.add_field(plain("id", FieldType::UUID, false, false, true));
    schema.add_entity(order);
    let mut user = Entity::new("User".to_string());
    user.add_field(plain("id", FieldType::UUID, false, false, true));
    user.add_relation(has_many("orders", "Order", None));
    schema.add_entity(user);

    let migration = generate_migration(&schema).unwrap();
    assert_eq!(
        migration.sql,
        "CREATE TABLE users (\n    id UUID PRIMARY KEY\n);\n\nCREATE TABLE orders (\n    id UUID PRIMARY KEY\n);"
    );
}

#[test]
fn generating_twice_gives_the_same_script() {
    let schema = test_schema();
    let first = generate_migration(&schema).unwrap();
    let second = generate_migration(&schema).unwrap();
    assert_eq!(first, second);
    assert_eq!(first.sql.as_bytes(), second.sql.as_bytes());
}

#[test]
fn empty_schema_gives_an_empty_script() {
    let schema = Schema::new();
    let migration = generate_migration(&schema).unwrap();
    assert_eq!(migration.sql, "");
    assert!(migration.statements.is_empty());
}

#[test]
fn create_table_alone_is_exact() {
    let schema = test_schema();
    let order = schema.get_entity("Order").unwrap();
    let sql = generate_create_table(order, &schema).unwrap();
    assert!(sql.starts_with("CREATE TABLE orders (\n    id UUID PRIMARY KEY,\n"));
    assert!(sql.ends_with(",\n    FOREIGN KEY (user_id) REFERENCES users(id)\n);"));
}

#[test]
fn table_names_are_snake_case_plurals() {
    assert_eq!(entity_to_table("User"), "users");
    assert_eq!(entity_to_table("OrderItem"), "order_items");
    assert_eq!(entity_to_table("order"), "orders");
    assert_eq!(entity_to_table("HTTPLog"), "h_t_t_p_logs");
    assert_eq!(entity_to_table(""), "s");
}

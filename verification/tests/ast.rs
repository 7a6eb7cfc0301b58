use chameleon_core::ast::{Entity, Field, FieldType, Relation, RelationKind, Schema};
use chameleon_core::query::test_helper::test_schema;
use chameleon_core::typechecker::errors::TypeCheckError;
use chameleon_core::typechecker::type_check;

fn field(name: &str, primary_key: bool) -> Field {
    Field {
        name: name.to_string(),
        field_type: FieldType::UUID,
        nullable: false,
        unique: false,
        primary_key,
        default: None,
        backend: None,
    }
}

#[test]
fn entities_are_found_by_name_first_one_first() {
    let mut schema = Schema::new();
    assert!(schema.get_entity("A").is_none());
    let mut first = Entity::new("A".to_string());
    first.add_field(field("one", true));
    schema.add_entity(first);
    schema.add_entity(Entity::new("B".to_string()));
    let mut second = Entity::new("A".to_string());
    second.add_field(field("two", true));
    schema.add_entity(second);

    assert_eq!(schema.entities.len(), 3);
    assert_eq!(schema.get_entity("A").unwrap().fields[0].name, "one");
    assert_eq!(schema.get_entity("B").unwrap().name, "B");
    assert!(schema.get_entity("C").is_none());
    assert!(schema.get_entity("").is_none());
}

#[test]
fn entity_found_for_change_is_changed_in_place() {
    let mut schema = test_schema();
    assert!(schema.get_entity_mut("Nobody").is_none());
    let before = schema.clone();

    let order = schema.get_entity_mut("Order").unwrap();
    order.add_field(field("note", false));

    assert_eq!(schema.entities.len(), 3);
    assert_eq!(schema.entities[0], before.entities[0]);
    assert_eq!(schema.entities[2], before.entities[2]);
    assert_eq!(schema.entities[1].fields.len(), before.entities[1].fields.len() + 1);
    assert_eq!(schema.get_entity("Order").unwrap().get_field("note"), Some(&field("note", false)));
}

#[test]
fn fields_and_relations_keep_their_order_and_their_doubles() {
    let mut entity = Entity::new("User".to_string());
    assert!(entity.fields.is_empty());
    assert!(entity.relations.is_empty());
    entity.add_field(field("b", false));
    entity.add_field(field("a", true));
    entity.add_field(field("b", true));
    let names: Vec<&str> = entity.fields.iter().map(|f| f.name.as_str()).collect();
    assert_eq!(names, vec!["b", "a", "b"]);
    assert_eq!(entity.get_field("b"), Some(&field("b", false)));
    assert_eq!(entity.get_field("c"), None);

    let relation = |name: &str, target: &str| Relation {
        name: name.to_string(),
        kind: RelationKind::HasOne,
        target_entity: target.to_string(),
        foreign_key: None,
        through: None,
    };
    entity.add_relation(relation("x", "A"));
    entity.add_relation(relation("y", "B"));
    entity.add_relation(relation("x", "C"));
    assert_eq!(entity.relations.len(), 3);
    assert_eq!(entity.get_relation("x").unwrap().target_entity, "A");
    assert_eq!(entity.get_relation("y").unwrap().target_entity, "B");
    assert!(entity.get_relation("z").is_none());
}

#[test]
fn standard_schema_has_three_entities_in_order() {
    let schema = test_schema();
    let names: Vec<&str> = schema.entities.iter().map(|e| e.name.as_str()).collect();
    assert_eq!(names, vec!["User", "Order", "OrderItem"]);
    let user = schema.get_entity("User").unwrap();
    let fields: Vec<&str> = user.fields.iter().map(|f| f.name.as_str()).collect();
    assert_eq!(fields, vec!["id", "email", "name", "age"]);
    assert!(user.get_field("age").unwrap().nullable);
    assert!(user.get_field("email").unwrap().unique);
    let orders = user.get_relation("orders").unwrap();
    assert_eq!(orders.kind, RelationKind::HasMany);
    assert_eq!(orders.foreign_key, Some("user_id".to_string()));
    let order = schema.get_entity("Order").unwrap();
    assert_eq!(order.relations.len(), 2);
    assert_eq!(order.relations[0].kind, RelationKind::BelongsTo);
    assert_eq!(schema.get_entity("OrderItem").unwrap().fields.len(), 4);
}

#[test]
fn three_separate_defects_give_three_errors() {
    let mut schema = Schema::new();
    let mut a = Entity::new("A".to_string());
    a.add_field(field("id", false));
    schema.add_entity(a);
    let mut b = Entity::new("B".to_string());
    b.add_field(field("id", true));
    b.add_relation(Relation {
        name: "lost".to_string(),
        kind: RelationKind::HasOne,
        target_entity: "Nowhere".to_string(),
        foreign_key: None,
        through: None,
    });
    schema.add_entity(b);
    let mut c = Entity::new("C".to_string());
    c.add_field(field("id", true));
    c.add_field(field("id", false));
    schema.add_entity(c);

    let result = type_check(&schema);
    assert_eq!(
        result.errors,
        vec![
            TypeCheckError::DuplicateField { entity: "C".to_string(), field: "id".to_string() },
            TypeCheckError::UnknownRelationTarget {
                entity: "B".to_string(),
                relation: "lost".to_string(),
                target: "Nowhere".to_string(),
            },
            TypeCheckError::MissingPrimaryKey { entity: "A".to_string() },
        ]
    );
}

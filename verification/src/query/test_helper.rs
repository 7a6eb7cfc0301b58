//! The standard three-entity schema: a user has many orders, an order has many items.

use crate::ast::{
    Entity, EntityModel, Field, FieldModel, FieldType, Relation, RelationKind, RelationModel, Schema,
    SchemaModel,
};
use vstd::prelude::*;
use vstd::string::*;

verus! {

/// A field without default and without annotation.
pub open spec fn plain_field(
    name: Seq<char>,
    field_type: FieldType,
    nullable: bool,
    unique: bool,
    primary_key: bool,
) -> FieldModel {
    FieldModel { name, field_type, nullable, unique, primary_key, default: None, backend: None }
}

/// The entity `User` of the standard schema.
pub open spec fn user_model() -> EntityModel {
    EntityModel {
        name: "User"@,
        fields: seq![
            plain_field("id"@, FieldType::UUID, false, false, true),
            plain_field("email"@, FieldType::String, false, true, false),
            plain_field("name"@, FieldType::String, false, false, false),
            plain_field("age"@, FieldType::Int, true, false, false),
        ],
        relations: seq![
            RelationModel {
                name: "orders"@,
                kind: RelationKind::HasMany,
                target_entity: "Order"@,
                foreign_key: Some("user_id"@),
                through: None,
            },
        ],
    }
}

/// The entity `Order` of the standard schema.
pub open spec fn order_model() -> EntityModel {
    EntityModel {
        name: "Order"@,
        fields: seq![
            plain_field("id"@, FieldType::UUID, false, false, true),
            plain_field("total"@, FieldType::Decimal, false, false, false),
            plain_field("status"@, FieldType::String, false, false, false),
            plain_field("user_id"@, FieldType::UUID, false, false, false),
        ],
        relations: seq![
            RelationModel {
                name: "user"@,
                kind: RelationKind::BelongsTo,
                target_entity: "User"@,
                foreign_key: None,
                through: None,
            },
            RelationModel {
                name: "items"@,
                kind: RelationKind::HasMany,
                target_entity: "OrderItem"@,
                foreign_key: Some("order_id"@),
                through: None,
            },
        ],
    }
}

/// The entity `OrderItem` of the standard schema.
pub open spec fn order_item_model() -> EntityModel {
    EntityModel {
        name: "OrderItem"@,
        fields: seq![
            plain_field("id"@, FieldType::UUID, false, false, true),
            plain_field("quantity"@, FieldType::Int, false, false, false),
            plain_field("price"@, FieldType::Decimal, false, false, false),
            plain_field("order_id"@, FieldType::UUID, false, false, false),
        ],
        relations: seq![
            RelationModel {
                name: "order"@,
                kind: RelationKind::BelongsTo,
                target_entity: "Order"@,
                foreign_key: None,
                through: None,
            },
        ],
    }
}

/// `User`, `Order` and `OrderItem`, declared in this order.
pub open spec fn standard_schema() -> SchemaModel {
    SchemaModel { entities: seq![user_model(), order_model(), order_item_model()] }
}

/// Builds the standard schema: `User` (has many) → `Order` (has many) → `OrderItem`.
pub fn test_schema() -> (schema: Schema)
    ensures
        schema@ == standard_schema(),
{
    let mut schema = Schema::new();

    let mut user = Entity::new(String::from_str("User"));
    user.add_field(
        Field {
            name: String::from_str("id"),
            field_type: FieldType::UUID,
            nullable: false,
            unique: false,
            primary_key: true,
            default: None,
            backend: None,
        },
    );
    user.add_field(
        Field {
            name: String::from_str("email"),
            field_type: FieldType::String,
            nullable: false,
            unique: true,
            primary_key: false,
            default: None,
            backend: None,
        },
    );
    user.add_field(
        Field {
            name: String::from_str("name"),
            field_type: FieldType::String,
            nullable: false,
            unique: false,
            primary_key: false,
            default: None,
            backend: None,
        },
    );
    user.add_field(
        Field {
            name: String::from_str("age"),
            field_type: FieldType::Int,
            nullable: true,
            unique: false,
            primary_key: false,
            default: None,
            backend: None,
        },
    );
    user.add_relation(
        Relation {
            name: String::from_str("orders"),
            kind: RelationKind::HasMany,
            target_entity: String::from_str("Order"),
            foreign_key: Some(String::from_str("user_id")),
            through: None,
        },
    );
    assert(user@.fields =~= user_model().fields);
    assert(user@.relations =~= user_model().relations);
    schema.add_entity(user);

    let mut order = Entity::new(String::from_str("Order"));
    order.add_field(
        Field {
            name: String::from_str("id"),
            field_type: FieldType::UUID,
            nullable: false,
            unique: false,
            primary_key: true,
            default: None,
            backend: None,
        },
    );
    order.add_field(
        Field {
            name: String::from_str("total"),
            field_type: FieldType::Decimal,
            nullable: false,
            unique: false,
            primary_key: false,
            default: None,
            backend: None,
        },
    );
    order.add_field(
        Field {
            name: String::from_str("status"),
            field_type: FieldType::String,
            nullable: false,
            unique: false,
            primary_key: false,
            default: None,
            backend: None,
        },
    );
    order.add_field(
        Field {
            name: String::from_str("user_id"),
            field_type: FieldType::UUID,
            nullable: false,
            unique: false,
            primary_key: false,
            default: None,
            backend: None,
        },
    );
    order.add_relation(
        Relation {
            name: String::from_str("user"),
            kind: RelationKind::BelongsTo,
            target_entity: String::from_str("User"),
            foreign_key: None,
            through: None,
        },
    );
    order.add_relation(
        Relation {
            name: String::from_str("items"),
            kind: RelationKind::HasMany,
            target_entity: String::from_str("OrderItem"),
            foreign_key: Some(String::from_str("order_id")),
            through: None,
        },
    );
    assert(order@.fields =~= order_model().fields);
    assert(order@.relations =~= order_model().relations);
    schema.add_entity(order);

    let mut item = Entity::new(String::from_str("OrderItem"));
    item.add_field(
        Field {
            name: String::from_str("id"),
            field_type: FieldType::UUID,
            nullable: false,
            unique: false,
            primary_key: true,
            default: None,
            backend: None,
        },
    );
    item.add_field(
        Field {
            name: String::from_str("quantity"),
            field_type: FieldType::Int,
            nullable: false,
            unique: false,
            primary_key: false,
            default: None,
            backend: None,
        },
    );
    item.add_field(
        Field {
            name: String::from_str("price"),
            field_type: FieldType::Decimal,
            nullable: false,
            unique: false,
            primary_key: false,
            default: None,
            backend: None,
        },
    );
    item.add_field(
        Field {
            name: String::from_str("order_id"),
            field_type: FieldType::UUID,
            nullable: false,
            unique: false,
            primary_key: false,
            default: None,
            backend: None,
        },
    );
    item.add_relation(
        Relation {
            name: String::from_str("order"),
            kind: RelationKind::BelongsTo,
            target_entity: String::from_str("Order"),
            foreign_key: None,
            through: None,
        },
    );
    assert(item@.fields =~= order_item_model().fields);
    assert(item@.relations =~= order_item_model().relations);
    schema.add_entity(item);

    assert(schema@.entities =~= standard_schema().entities);
    schema
}

} // verus!

use chameleon_core::ast::{
    BackendAnnotation, Entity, Field, FieldType, Relation, RelationKind, Schema,
};
use chameleon_core::typechecker::errors::TypeCheckError;
use chameleon_core::typechecker::{type_check, TypeCheckResult};

fn build_schema(
    entities: Vec<(
        &str,
        Vec<(&str, FieldType, bool, bool, Option<BackendAnnotation>)>,
        Vec<(&str, RelationKind, &str, Option<&str>)>,
    )>,
) -> Schema {
    let mut schema = Schema::new();

    for (name, fields, relations) in entities {
        let mut entity = Entity::new(name.to_string());

        for (fname, ftype, primary, unique, annotation) in fields {
            entity.add_field(Field {
                name: fname.to_string(),
                field_type: ftype,
                nullable: false,
                unique,
                primary_key: primary,
                default: None,
                backend: annotation,
            });
        }

        for (rname, kind, target, fk) in relations {
            entity.add_relation(Relation {
                name: rname.to_string(),
                kind,
                target_entity: target.to_string(),
                foreign_key: fk.map(|s| s.to_string()),
                through: None,
            });
        }

        schema.add_entity(entity);
    }

    schema
}

#[test]
fn test_valid_simple_schema() {
    let schema = build_schema(vec![
        ("User",
            vec![("id", FieldType::UUID, true, false, None),
                 ("email", FieldType::String, false, true, None)],
            vec![]),
    ]);

    let result = type_check(&schema);
    assert!(result.is_valid(), "{}", result.error_report());
}

#[test]
fn test_valid_schema_with_relations() {
    let schema = build_schema(vec![
        ("User",
            vec![("id", FieldType::UUID, true, false, None),
                 ("email", FieldType::String, false, true, None)],
            vec![("orders", RelationKind::HasMany, "Order", Some("user_id"))]),
        ("Order",
            vec![("id", FieldType::UUID, true, false, None),
                 ("user_id", FieldType::UUID, false, false, None),
                 ("total", FieldType::Decimal, false, false, None)],
            vec![("user", RelationKind::BelongsTo, "User", None)]),
    ]);

    let result = type_check(&schema);
    assert!(result.is_valid(), "{}", result.error_report());
}

#[test]
fn test_valid_annotations() {
    let schema = build_schema(vec![
        ("Product",
            vec![("id", FieldType::UUID, true, false, None),
                 ("views", FieldType::Int, false, false, Some(BackendAnnotation::Cache)),
                 ("sales", FieldType::Decimal, false, false, Some(BackendAnnotation::OLAP)),
                 ("embedding", FieldType::Vector(384), false, false, Some(BackendAnnotation::Vector))],
            vec![]),
    ]);

    let result = type_check(&schema);
    assert!(result.is_valid(), "{}", result.error_report());
}

#[test]
fn test_unknown_relation_target() {
    let schema = build_schema(vec![
        ("User",
            vec![("id", FieldType::UUID, true, false, None)],
            vec![("orders", RelationKind::HasMany, "NonExistent", Some("user_id"))]),
    ]);

    let result = type_check(&schema);
    assert!(!result.is_valid());
    assert!(result.errors.iter().any(|e| matches!(e, TypeCheckError::UnknownRelationTarget { .. })));
}

#[test]
fn test_invalid_foreign_key() {
    let schema = build_schema(vec![
        ("User",
            vec![("id", FieldType::UUID, true, false, None)],
            vec![("orders", RelationKind::HasMany, "Order", Some("wrong_fk"))]),
        ("Order",
            vec![("id", FieldType::UUID, true, false, None),
                 ("user_id", FieldType::UUID, false, false, None)],
            vec![]),
    ]);

    let result = type_check(&schema);
    assert!(!result.is_valid());
    assert!(result.errors.iter().any(|e| matches!(e, TypeCheckError::InvalidForeignKey { .. })));
}

#[test]
fn test_has_many_missing_foreign_key() {
    let schema = build_schema(vec![
        ("User",
            vec![("id", FieldType::UUID, true, false, None)],
            vec![("orders", RelationKind::HasMany, "Order", None)]),
        ("Order",
            vec![("id", FieldType::UUID, true, false, None)],
            vec![]),
    ]);

    let result = type_check(&schema);
    assert!(!result.is_valid());
    assert!(result.errors.iter().any(|e| matches!(e, TypeCheckError::MissingForeignKey { .. })));
}

#[test]
fn test_missing_primary_key() {
    let schema = build_schema(vec![
        ("User",
            vec![("id", FieldType::UUID, false, false, None),
                 ("email", FieldType::String, false, true, None)],
            vec![]),
    ]);

    let result = type_check(&schema);
    assert!(!result.is_valid());
    assert!(result.errors.iter().any(|e| matches!(e, TypeCheckError::MissingPrimaryKey { .. })));
}

#[test]
fn test_multiple_primary_keys() {
    let schema = build_schema(vec![
        ("User",
            vec![("id", FieldType::UUID, true, false, None),
                 ("email", FieldType::String, true, false, None)],
            vec![]),
    ]);

    let result = type_check(&schema);
    assert!(!result.is_valid());
    assert!(result.errors.iter().any(|e| matches!(e, TypeCheckError::MultiplePrimaryKeys { .. })));
}

#[test]
fn test_vector_annotation_on_wrong_type() {
    let schema = build_schema(vec![
        ("Product",
            vec![("id", FieldType::UUID, true, false, None),
                 ("embedding", FieldType::String, false, false, Some(BackendAnnotation::Vector))],
            vec![]),
    ]);

    let result = type_check(&schema);
    assert!(!result.is_valid());
    assert!(result.errors.iter().any(|e| matches!(e, TypeCheckError::InvalidVectorAnnotation { .. })));
}

#[test]
fn test_annotation_on_primary_key() {
    let schema = build_schema(vec![
        ("User",
            vec![("id", FieldType::UUID, true, false, Some(BackendAnnotation::Cache))],
            vec![]),
    ]);

    let result = type_check(&schema);
    assert!(!result.is_valid());
    assert!(result.errors.iter().any(|e| matches!(e, TypeCheckError::AnnotationOnConstrainedField { .. })));
}

#[test]
fn test_annotation_on_unique_field() {
    let schema = build_schema(vec![
        ("User",
            vec![("id", FieldType::UUID, true, false, None),
                 ("email", FieldType::String, false, true, Some(BackendAnnotation::Cache))],
            vec![]),
    ]);

    let result = type_check(&schema);
    assert!(!result.is_valid());
    assert!(result.errors.iter().any(|e| matches!(e, TypeCheckError::AnnotationOnConstrainedField { .. })));
}

#[test]
fn test_circular_dependency() {
    let schema = build_schema(vec![
        ("A",
            vec![("id", FieldType::UUID, true, false, None)],
            vec![("b", RelationKind::HasOne, "B", None)]),
        ("B",
            vec![("id", FieldType::UUID, true, false, None)],
            vec![("c", RelationKind::HasOne, "C", None)]),
        ("C",
            vec![("id", FieldType::UUID, true, false, None)],
            vec![("a", RelationKind::HasOne, "A", None)]),
    ]);

    let result = type_check(&schema);
    assert!(!result.is_valid());
    assert!(result.errors.iter().any(|e| matches!(e, TypeCheckError::CircularDependency { .. })));
}

#[test]
fn test_error_report_format() {
    let schema = build_schema(vec![
        ("User",
            vec![("email", FieldType::String, false, false, None)],
            vec![("orders", RelationKind::HasMany, "NonExistent", Some("user_id"))]),
    ]);

    let result = type_check(&schema);
    let report = result.error_report();

    assert!(report.contains("❌"));
    assert!(report.contains("2"));
    println!("{}", report);
}

fn names(list: &[&str]) -> Vec<String> {
    list.iter().map(|s| s.to_string()).collect()
}

#[test]
fn three_entity_cycle_is_reported_once_with_its_path() {
    let schema = build_schema(vec![
        ("A", vec![("id", FieldType::UUID, true, false, None)],
            vec![("b", RelationKind::HasOne, "B", None)]),
        ("B", vec![("id", FieldType::UUID, true, false, None)],
            vec![("c", RelationKind::HasOne, "C", None)]),
        ("C", vec![("id", FieldType::UUID, true, false, None)],
            vec![("a", RelationKind::HasOne, "A", None)]),
    ]);

    let result = type_check(&schema);
    assert_eq!(
        result.errors,
        vec![TypeCheckError::CircularDependency { cycle: names(&["A", "B", "C", "A"]) }]
    );
    assert_eq!(
        result.errors[0].message(),
        "Circular dependency detected: [\"A\", \"B\", \"C\", \"A\"]"
    );
}

#[test]
fn entity_that_leads_into_a_reported_cycle_reports_nothing_more() {
    let schema = build_schema(vec![
        ("A", vec![("id", FieldType::UUID, true, false, None)],
            vec![("b", RelationKind::HasOne, "B", None)]),
        ("B", vec![("id", FieldType::UUID, true, false, None)],
            vec![("a", RelationKind::ManyToMany, "A", None)]),
        ("C", vec![("id", FieldType::UUID, true, false, None)],
            vec![("a", RelationKind::HasOne, "A", None)]),
    ]);

    let result = type_check(&schema);
    assert_eq!(
        result.errors,
        vec![TypeCheckError::CircularDependency { cycle: names(&["A", "B", "A"]) }]
    );
}

#[test]
fn two_separate_cycles_are_both_reported() {
    let schema = build_schema(vec![
        ("A", vec![("id", FieldType::UUID, true, false, None)],
            vec![("b", RelationKind::HasOne, "B", None)]),
        ("B", vec![("id", FieldType::UUID, true, false, None)],
            vec![("a", RelationKind::HasOne, "A", None)]),
        ("C", vec![("id", FieldType::UUID, true, false, None)],
            vec![("c", RelationKind::HasOne, "C", None)]),
    ]);

    let result = type_check(&schema);
    assert_eq!(
        result.errors,
        vec![
            TypeCheckError::CircularDependency { cycle: names(&["A", "B", "A"]) },
            TypeCheckError::CircularDependency { cycle: names(&["C", "C"]) },
        ]
    );
}

#[test]
fn belongs_to_closes_no_cycle() {
    let schema = build_schema(vec![
        ("User", vec![("id", FieldType::UUID, true, false, None)],
            vec![("orders", RelationKind::HasMany, "Order", Some("id"))]),
        ("Order", vec![("id", FieldType::UUID, true, false, None)],
            vec![("user", RelationKind::BelongsTo, "User", None)]),
    ]);
    assert!(type_check(&schema).is_valid());
}

#[test]
fn vector_annotation_on_string_gives_exactly_one_error() {
    let schema = build_schema(vec![
        ("Product",
            vec![("id", FieldType::UUID, true, false, None),
                 ("embedding", FieldType::String, false, false, Some(BackendAnnotation::Vector))],
            vec![]),
    ]);

    let result = type_check(&schema);
    assert_eq!(
        result.errors,
        vec![TypeCheckError::InvalidVectorAnnotation {
            entity: "Product".to_string(),
            field: "embedding".to_string(),
            actual_type: "String".to_string(),
        }]
    );
    assert_eq!(
        result.errors[0].message(),
        "Field 'embedding' in 'Product' uses @vector but type is 'String', expected vector(N)"
    );
}

#[test]
fn type_names_in_findings_match_debug() {
    let types = vec![
        FieldType::UUID,
        FieldType::String,
        FieldType::Int,
        FieldType::Decimal,
        FieldType::Bool,
        FieldType::Timestamp,
        FieldType::Float,
        FieldType::Array(Box::new(FieldType::Array(Box::new(FieldType::Int)))),
    ];
    for t in types {
        let schema = build_schema(vec![
            ("P", vec![("id", FieldType::UUID, true, false, None),
                       ("e", t.clone(), false, false, Some(BackendAnnotation::Vector))],
                vec![]),
        ]);
        let result = type_check(&schema);
        assert_eq!(
            result.errors,
            vec![TypeCheckError::InvalidVectorAnnotation {
                entity: "P".to_string(),
                field: "e".to_string(),
                actual_type: format!("{:?}", t),
            }]
        );
    }
}

#[test]
fn annotated_field_that_is_primary_and_unique_gives_both_errors() {
    let schema = build_schema(vec![
        ("User",
            vec![("id", FieldType::String, true, true, Some(BackendAnnotation::Vector))],
            vec![]),
    ]);

    let result = type_check(&schema);
    assert_eq!(
        result.errors,
        vec![
            TypeCheckError::InvalidVectorAnnotation {
                entity: "User".to_string(),
                field: "id".to_string(),
                actual_type: "String".to_string(),
            },
            TypeCheckError::AnnotationOnConstrainedField {
                entity: "User".to_string(),
                field: "id".to_string(),
                constraint: "primary".to_string(),
                annotation: "vector".to_string(),
            },
            TypeCheckError::AnnotationOnConstrainedField {
                entity: "User".to_string(),
                field: "id".to_string(),
                constraint: "unique".to_string(),
                annotation: "vector".to_string(),
            },
        ]
    );
    assert_eq!(
        result.errors[1].message(),
        "Field 'id' in 'User' is primary and cannot have @vector annotation"
    );
}

#[test]
fn annotation_names_are_lower_case() {
    let all = vec![
        (BackendAnnotation::OLTP, "oltp"),
        (BackendAnnotation::Cache, "cache"),
        (BackendAnnotation::OLAP, "olap"),
        (BackendAnnotation::ML, "ml"),
    ];
    for (annotation, name) in all {
        let schema = build_schema(vec![
            ("U", vec![("id", FieldType::UUID, true, false, Some(annotation))], vec![]),
        ]);
        let result = type_check(&schema);
        assert_eq!(
            result.errors,
            vec![TypeCheckError::AnnotationOnConstrainedField {
                entity: "U".to_string(),
                field: "id".to_string(),
                constraint: "primary".to_string(),
                annotation: name.to_string(),
            }]
        );
        assert_eq!(format!("{:?}", annotation).to_lowercase(), name);
    }
}

#[test]
fn repeated_entity_names_are_grouped_by_name() {
    let id = || vec![("id", FieldType::UUID, true, false, None)];
    let schema = build_schema(vec![
        ("A", id(), vec![]),
        ("B", id(), vec![]),
        ("B", id(), vec![]),
        ("A", id(), vec![]),
        ("A", id(), vec![]),
    ]);

    let result = type_check(&schema);
    assert_eq!(
        result.errors,
        vec![
            TypeCheckError::DuplicateEntity { entity: "A".to_string(), first: 1, second: 4 },
            TypeCheckError::DuplicateEntity { entity: "A".to_string(), first: 1, second: 5 },
            TypeCheckError::DuplicateEntity { entity: "B".to_string(), first: 2, second: 3 },
        ]
    );
    assert_eq!(
        result.errors[0].message(),
        "Duplicate entity name 'A' (first defined at #1, redefined at #4)"
    );
}

#[test]
fn repeated_field_names_give_one_error_per_repetition() {
    let schema = build_schema(vec![
        ("User",
            vec![("id", FieldType::UUID, true, false, None),
                 ("email", FieldType::String, false, false, None),
                 ("email", FieldType::String, false, false, None),
                 ("email", FieldType::Int, false, false, None)],
            vec![]),
    ]);

    let result = type_check(&schema);
    let expected = TypeCheckError::DuplicateField {
        entity: "User".to_string(),
        field: "email".to_string(),
    };
    assert_eq!(result.errors, vec![expected.clone(), expected.clone()]);
    assert_eq!(expected.message(), "Duplicate field name 'email' in entity 'User'");
}

#[test]
fn all_passes_run_and_report_in_order() {
    let schema = build_schema(vec![
        ("User",
            vec![("email", FieldType::String, false, true, Some(BackendAnnotation::Cache)),
                 ("email", FieldType::String, false, false, None)],
            vec![("orders", RelationKind::HasMany, "Order", None),
                 ("ghost", RelationKind::HasOne, "Ghost", None),
                 ("me", RelationKind::HasOne, "User", Some("nope"))]),
        ("Order",
            vec![("id", FieldType::UUID, true, false, None),
                 ("key", FieldType::UUID, true, false, None)],
            vec![]),
        ("User", vec![("id", FieldType::UUID, true, false, None)], vec![]),
    ]);

    let result = type_check(&schema);
    let user = "User".to_string();
    assert_eq!(
        result.errors,
        vec![
            TypeCheckError::DuplicateEntity { entity: user.clone(), first: 1, second: 3 },
            TypeCheckError::DuplicateField { entity: user.clone(), field: "email".to_string() },
            TypeCheckError::MissingForeignKey { entity: user.clone(), relation: "orders".to_string() },
            TypeCheckError::UnknownRelationTarget {
                entity: user.clone(),
                relation: "ghost".to_string(),
                target: "Ghost".to_string(),
            },
            TypeCheckError::InvalidForeignKey {
                entity: user.clone(),
                relation: "me".to_string(),
                target: user.clone(),
                foreign_key: "nope".to_string(),
            },
            TypeCheckError::MissingPrimaryKey { entity: user.clone() },
            TypeCheckError::MultiplePrimaryKeys {
                entity: "Order".to_string(),
                fields: names(&["id", "key"]),
            },
            TypeCheckError::AnnotationOnConstrainedField {
                entity: user.clone(),
                field: "email".to_string(),
                constraint: "unique".to_string(),
                annotation: "cache".to_string(),
            },
            TypeCheckError::CircularDependency { cycle: names(&["User", "User"]) },
        ]
    );
}

#[test]
fn messages_are_exact() {
    assert_eq!(
        TypeCheckError::UnknownRelationTarget {
            entity: "User".to_string(),
            relation: "orders".to_string(),
            target: "Nope".to_string(),
        }.message(),
        "Entity 'User' references unknown entity 'Nope' in relation 'orders'"
    );
    assert_eq!(
        TypeCheckError::InvalidForeignKey {
            entity: "User".to_string(),
            relation: "orders".to_string(),
            target: "Order".to_string(),
            foreign_key: "wrong".to_string(),
        }.message(),
        "Relation 'orders' in 'User' references foreign key 'wrong', but 'Order' has no such field"
    );
    assert_eq!(
        TypeCheckError::MissingForeignKey {
            entity: "User".to_string(),
            relation: "orders".to_string(),
        }.message(),
        "HasMany relation 'orders' in 'User' requires a 'via' foreign key"
    );
    assert_eq!(
        TypeCheckError::MissingPrimaryKey { entity: "User".to_string() }.message(),
        "Entity 'User' has no primary key"
    );
    let keys = names(&["id", "a\"b\\c\n"]);
    assert_eq!(
        TypeCheckError::MultiplePrimaryKeys { entity: "User".to_string(), fields: keys.clone() }.message(),
        format!("Entity 'User' has multiple primary keys: {:?}", keys)
    );
    assert_eq!(
        TypeCheckError::MultiplePrimaryKeys { entity: "User".to_string(), fields: vec![] }.message(),
        "Entity 'User' has multiple primary keys: []"
    );
}

#[test]
fn report_numbers_every_error() {
    let result = TypeCheckResult {
        errors: vec![
            TypeCheckError::MissingPrimaryKey { entity: "A".to_string() },
            TypeCheckError::MissingPrimaryKey { entity: "B".to_string() },
        ],
    };
    assert_eq!(
        result.error_report(),
        "❌ Found 2 error(s):\n\n  1. Entity 'A' has no primary key\n  2. Entity 'B' has no primary key\n"
    );
    let valid = TypeCheckResult { errors: vec![] };
    assert!(valid.is_valid());
    assert_eq!(valid.error_report(), "✅ Schema is valid");
}

#[test]
fn checking_a_valid_schema_twice_finds_nothing_both_times() {
    let schema = chameleon_core::query::test_helper::test_schema();
    assert!(type_check(&schema).errors.is_empty());
    assert!(type_check(&schema).errors.is_empty());
}

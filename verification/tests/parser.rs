use chameleon_core::ast::{
    BackendAnnotation, DefaultValue, Entity, Field, FieldType, Relation, RelationKind, Schema,
};
use chameleon_core::error::{ChameleonError, ParseErrorDetail};
use chameleon_core::parser::diagnostics::{
    add_suggestions, enhance_parse_error, extract_snippet, is_whitespace_char,
    offset_to_position, source_line, suggest_fix, suggest_keyword,
};
use chameleon_core::parser::grammar::{Expected, SyntaxError};
use chameleon_core::parser::reader::{read_number, read_schema};
use chameleon_core::parser::lexer::{tokenize, Token, TokenKind};
use chameleon_core::parser::parse_schema;
use chameleon_core::text::{contains_str, remove_all, to_chars};

#[test]
fn test_simple_entity() {
    let input = r#"
            entity User {
                id: uuid primary,
                email: string unique,
                age: int,
            }
        "#;

    let schema = parse_schema(input).unwrap();
    assert_eq!(schema.entities.len(), 1);

    let user = schema.get_entity("User").unwrap();
    assert_eq!(user.fields.len(), 3);
    assert!(user.get_field("id").unwrap().primary_key);
    assert!(user.get_field("email").unwrap().unique);
}

#[test]
fn test_with_relations() {
    let input = r#"
            entity User {
                id: uuid primary,
                email: string,
                orders: [Order] via user_id,
            }
            
            entity Order {
                id: uuid primary,
                total: decimal,
                user: User,
            }
        "#;

    let schema = parse_schema(input).unwrap();
    assert_eq!(schema.entities.len(), 2);

    let user = schema.get_entity("User").unwrap();
    assert_eq!(user.relations.len(), 1);

    let orders_rel = user.get_relation("orders").unwrap();
    assert_eq!(orders_rel.target_entity, "Order");
}

#[test]
fn test_backend_annotations() {
    let input = r#"
        entity User {
            id: uuid primary,
            email: string unique,
            session_token: string @cache,
            monthly_spent: decimal @olap,
        }
    "#;

    let schema = parse_schema(input).unwrap();
    let user = schema.get_entity("User").unwrap();

    let id = user.get_field("id").unwrap();
    assert!(id.backend.is_none());

    let session = user.get_field("session_token").unwrap();
    assert_eq!(session.backend, Some(BackendAnnotation::Cache));

    let spent = user.get_field("monthly_spent").unwrap();
    assert_eq!(spent.backend, Some(BackendAnnotation::OLAP));
}

#[test]
fn mod_test_vector_type() {
    let input = r#"
        entity Product {
            id: uuid primary,
            embedding: vector(1536) @vector,
        }
    "#;

    let schema = parse_schema(input).unwrap();
    let product = schema.get_entity("Product").unwrap();

    let embedding = product.get_field("embedding").unwrap();
    assert_eq!(embedding.field_type, FieldType::Vector(1536));
    assert_eq!(embedding.backend, Some(BackendAnnotation::Vector));
}

#[test]
fn test_array_types() {
    let input = r#"
        entity UserAnalytics {
            id: uuid primary,
            tags: [string],
            scores: [decimal],
        }
    "#;

    let schema = parse_schema(input).unwrap();
    let analytics = schema.get_entity("UserAnalytics").unwrap();

    let tags = analytics.get_field("tags").unwrap();
    assert_eq!(tags.field_type, FieldType::Array(Box::new(FieldType::String)));

    let scores = analytics.get_field("scores").unwrap();
    assert_eq!(scores.field_type, FieldType::Array(Box::new(FieldType::Decimal)));
}

#[test]
fn test_complex_multi_backend_schema() {
    let input = r#"
        entity Product {
            id: uuid primary,
            name: string,
            price: decimal,
            views_today: int @cache,
            monthly_sales: decimal @olap,
            embedding: vector(384) @vector,
            tags: [string],
        }
    "#;

    let schema = parse_schema(input).unwrap();
    let product = schema.get_entity("Product").unwrap();

    assert_eq!(product.fields.len(), 7);

    assert!(product.get_field("id").unwrap().backend.is_none());
    assert_eq!(product.get_field("views_today").unwrap().backend, Some(BackendAnnotation::Cache));
    assert_eq!(product.get_field("monthly_sales").unwrap().backend, Some(BackendAnnotation::OLAP));
    assert_eq!(product.get_field("embedding").unwrap().backend, Some(BackendAnnotation::Vector));

    assert_eq!(product.get_field("embedding").unwrap().field_type, FieldType::Vector(384));
    assert_eq!(product.get_field("tags").unwrap().field_type, FieldType::Array(Box::new(FieldType::String)));
}

fn field(name: &str, field_type: FieldType) -> Field {
    Field {
        name: name.to_string(),
        field_type,
        nullable: false,
        unique: false,
        primary_key: false,
        default: None,
        backend: None,
    }
}

fn detail_of(input: &str) -> ParseErrorDetail {
    match parse_schema(input) {
        Err(ChameleonError::ParseError(detail)) => detail,
        other => panic!("expected a parse error, got {:?}", other),
    }
}

#[test]
fn whole_schema_is_parsed_exactly() {
    let input = "entity User {\n  id: uuid primary default(uuid_v4()),\n  email: string unique nullable,\n  joined: timestamp default(now()),\n  plan: string default(\"free plan\"),\n  level: int default(3),\n  grid: [[vector(2)]] @ml,\n  orders: [Order] via user_id,\n  boss: User\n}\nentity Order { }";
    let schema = parse_schema(input).unwrap();

    let mut user = Entity::new("User".to_string());
    let mut id = field("id", FieldType::UUID);
    id.primary_key = true;
    id.default = Some(DefaultValue::UUIDv4);
    user.add_field(id);
    let mut email = field("email", FieldType::String);
    email.unique = true;
    email.nullable = true;
    user.add_field(email);
    let mut joined = field("joined", FieldType::Timestamp);
    joined.default = Some(DefaultValue::Now);
    user.add_field(joined);
    let mut plan = field("plan", FieldType::String);
    plan.default = Some(DefaultValue::Literal("free plan".to_string()));
    user.add_field(plan);
    let mut level = field("level", FieldType::Int);
    level.default = Some(DefaultValue::Literal("3".to_string()));
    user.add_field(level);
    let mut grid = field(
        "grid",
        FieldType::Array(Box::new(FieldType::Array(Box::new(FieldType::Vector(2))))),
    );
    grid.backend = Some(BackendAnnotation::ML);
    user.add_field(grid);
    user.add_relation(Relation {
        name: "orders".to_string(),
        kind: RelationKind::HasMany,
        target_entity: "Order".to_string(),
        foreign_key: Some("user_id".to_string()),
        through: None,
    });
    user.add_relation(Relation {
        name: "boss".to_string(),
        kind: RelationKind::BelongsTo,
        target_entity: "User".to_string(),
        foreign_key: None,
        through: None,
    });
    let mut expected = Schema::new();
    expected.add_entity(user);
    expected.add_entity(Entity::new("Order".to_string()));

    assert_eq!(schema, expected);
}

#[test]
fn empty_text_is_the_empty_schema() {
    assert_eq!(parse_schema("").unwrap(), Schema::new());
    assert_eq!(parse_schema(" \n\t ").unwrap(), Schema::new());
}

#[test]
fn repeated_field_names_are_kept_for_the_checker() {
    let schema = parse_schema("entity A { x: int, x: string }").unwrap();
    assert_eq!(schema.entities[0].fields.len(), 2);
    assert_eq!(schema.entities[0].fields[1].field_type, FieldType::String);
}

#[test]
fn misspelled_keyword_is_reported_with_position_snippet_and_suggestion() {
    let input = "entity User {\n    id: uuid primary,\n}\nentiy Order {\n}\n";
    let detail = detail_of(input);
    assert_eq!(
        detail,
        ParseErrorDetail {
            message: "Unexpected token `entiy`, expected one of \"entity\"".to_string(),
            line: 4,
            column: 1,
            snippet: Some("  4 │ entiy Order {\n    │ ^^^^^".to_string()),
            suggestion: Some("Did you mean 'entity'?".to_string()),
            token: Some("entiy".to_string()),
        }
    );
}

#[test]
fn missing_colon_gets_the_colon_hint() {
    let detail = detail_of("entity User {\n    id uuid,\n}");
    assert_eq!(detail.message, "Unexpected token `uuid`, expected one of \":\"");
    assert_eq!((detail.line, detail.column), (2, 8));
    assert_eq!(detail.snippet, Some("  2 │     id uuid,\n    │        ^^^^".to_string()));
    assert_eq!(
        detail.suggestion,
        Some("Fields must have a type after the colon.\nExample: name: string".to_string())
    );
    assert_eq!(detail.token, Some("uuid".to_string()));
}

#[test]
fn missing_opening_brace_gets_the_brace_hint() {
    let detail = detail_of("entity User\n    id: uuid\n");
    assert_eq!(detail.message, "Unexpected token `id`, expected one of \"{\"");
    assert_eq!((detail.line, detail.column), (2, 5));
    assert_eq!(
        detail.suggestion,
        Some("Entity definitions must have an opening brace.\nExample: entity User {".to_string())
    );
}

#[test]
fn text_that_ends_too_early_is_reported_at_its_end() {
    let detail = detail_of("entity User {\n    id: uuid");
    assert_eq!(
        detail.message,
        "Unexpected end of file, expected one of \"primary\", \"unique\", \"nullable\", \"default\", \"@cache\", \"@olap\", \"@vector\", \"@ml\", \",\", \"}\""
    );
    assert_eq!((detail.line, detail.column), (2, 13));
    assert_eq!(detail.token, None);
    assert_eq!(detail.snippet, Some("  2 │     id: uuid\n    │             ^".to_string()));
    assert_eq!(
        detail.suggestion,
        Some("Missing closing brace. Check that all entities are properly closed.".to_string())
    );

    let detail = detail_of("entity");
    assert_eq!(detail.message, "Unexpected end of file, expected one of identifier");
    assert_eq!(
        detail.suggestion,
        Some("The file ended unexpectedly. You may be missing a closing brace }".to_string())
    );
}

#[test]
fn character_that_begins_no_token_is_reported() {
    let detail = detail_of("entity User {\n  id: uuid;\n}");
    assert_eq!(detail.message, "Invalid token");
    assert_eq!((detail.line, detail.column), (2, 11));
    assert_eq!(detail.token, Some(";".to_string()));
    assert_eq!(detail.snippet, Some("  2 │   id: uuid;\n    │           ^".to_string()));
    assert_eq!(detail.suggestion, None);

    let detail = detail_of("entity A { x: string default(\"open }");
    assert_eq!(detail.message, "Invalid token");
    assert_eq!((detail.line, detail.column), (1, 30));
    assert_eq!(detail.token, Some("\"".to_string()));
}

#[test]
fn each_rule_names_what_it_expected() {
    let cases: Vec<(&str, &str)> = vec![
        ("user", "Unexpected token `user`, expected one of \"entity\""),
        ("entity {", "Unexpected token `{`, expected one of identifier"),
        ("entity A { , }", "Unexpected token `,`, expected one of identifier, \"}\""),
        ("entity A { x: , }", "Unexpected token `,`, expected one of \"uuid\", \"string\", \"int\", \"decimal\", \"bool\", \"timestamp\", \"float\", \"vector\", \"[\", identifier"),
        ("entity A { x: [ ] }", "Unexpected token `]`, expected one of \"uuid\", \"string\", \"int\", \"decimal\", \"bool\", \"timestamp\", \"float\", \"vector\", \"[\""),
        ("entity A { x: [int, }", "Unexpected token `,`, expected one of \"]\""),
        ("entity A { x: [B }", "Unexpected token `}`, expected one of \"]\""),
        ("entity A { x: [B] }", "Unexpected token `}`, expected one of \"via\""),
        ("entity A { x: [B] via }", "Unexpected token `}`, expected one of identifier"),
        ("entity A { x: int int }", "Unexpected token `int`, expected one of \"primary\", \"unique\", \"nullable\", \"default\", \"@cache\", \"@olap\", \"@vector\", \"@ml\", \",\", \"}\""),
        ("entity A { x: int @cache unique }", "Unexpected token `unique`, expected one of \",\", \"}\""),
        ("entity A { x: vector 3 }", "Unexpected token `3`, expected one of \"(\""),
        ("entity A { x: vector(n) }", "Unexpected token `n`, expected one of number"),
        ("entity A { x: vector(3 }", "Unexpected token `}`, expected one of \")\""),
        ("entity A { x: int default(later) }", "Unexpected token `later`, expected one of \"now\", \"uuid_v4\", text, number"),
        ("entity A { x: int @fast }", "Unexpected token `@fast`, expected one of \"@cache\", \"@olap\", \"@vector\", \"@ml\""),
        ("entity A { x: B C }", "Unexpected token `C`, expected one of \",\", \"}\""),
    ];
    for (input, message) in cases {
        assert_eq!(detail_of(input).message, message, "for {:?}", input);
    }
}

#[test]
fn dimension_must_fit_the_machine() {
    let fits = format!("entity A {{ x: vector({}) }}", usize::MAX);
    let schema = parse_schema(&fits).unwrap();
    assert_eq!(schema.entities[0].fields[0].field_type, FieldType::Vector(usize::MAX));

    let too_big = format!("entity A {{ x: vector({}0) }}", usize::MAX);
    assert_eq!(
        detail_of(&too_big).message,
        format!("Unexpected token `{}0`, expected one of number", usize::MAX)
    );
    assert_eq!(read_number("0042"), Some(42));
    assert_eq!(read_number(""), Some(0));
    assert_eq!(read_number("18446744073709551616"), "18446744073709551616".parse::<usize>().ok());
    assert_eq!(read_number("99999999999999999999999999"), None);
}

#[test]
fn tokens_carry_kind_text_and_offset() {
    let chars = to_chars("a_1: [x] @ml \"hi\" 42");
    let tokens = tokenize(&chars).unwrap();
    let expected = vec![
        (TokenKind::Word, "a_1", 0),
        (TokenKind::Colon, ":", 3),
        (TokenKind::LeftBracket, "[", 5),
        (TokenKind::Word, "x", 6),
        (TokenKind::RightBracket, "]", 7),
        (TokenKind::Annotation, "@ml", 9),
        (TokenKind::Text, "\"hi\"", 13),
        (TokenKind::Number, "42", 18),
    ];
    let expected: Vec<Token> = expected
        .into_iter()
        .map(|(kind, text, offset)| Token { kind, text: text.to_string(), offset })
        .collect();
    assert_eq!(tokens, expected);
    assert_eq!(tokenize(&to_chars("ab # cd")), Err(3));
    assert_eq!(tokenize(&to_chars("{}(),")).unwrap().len(), 5);
}

#[test]
fn syntax_errors_carry_the_token_index() {
    let tokens = tokenize(&to_chars("entity A { x int }")).unwrap();
    assert_eq!(
        read_schema(&tokens),
        Err(SyntaxError { at: 4, expected: Expected::Colon })
    );
    let tokens = tokenize(&to_chars("entity A {")).unwrap();
    assert_eq!(
        read_schema(&tokens),
        Err(SyntaxError { at: 3, expected: Expected::Item })
    );
}

#[test]
fn positions_count_lines_and_columns_from_one() {
    let source = "ab\ncd\n\nef";
    assert_eq!(offset_to_position(source, 0), (1, 1));
    assert_eq!(offset_to_position(source, 1), (1, 2));
    assert_eq!(offset_to_position(source, 2), (1, 3));
    assert_eq!(offset_to_position(source, 3), (2, 1));
    assert_eq!(offset_to_position(source, 6), (3, 1));
    assert_eq!(offset_to_position(source, 7), (4, 1));
    assert_eq!(offset_to_position(source, 9), (4, 3));
    assert_eq!(offset_to_position(source, 1000), (4, 3));
    assert_eq!(offset_to_position("", 5), (1, 1));
}

#[test]
fn snippets_show_the_line_and_underline_the_token() {
    let source = "entity User {\n    naem: strin,\n}";
    assert_eq!(
        extract_snippet(source, 2, 11),
        "  2 │     naem: strin,\n    │           ^^^^^"
    );
    assert_eq!(extract_snippet(source, 1, 13), "  1 │ entity User {\n    │             ^");
    assert_eq!(extract_snippet(source, 3, 1), "  3 │ }\n    │ ^");
    assert_eq!(extract_snippet(source, 3, 40).len(), "  3 │ }\n    │ ".len() + 39 + 1);
    assert_eq!(extract_snippet(source, 0, 1), "");
    assert_eq!(extract_snippet(source, 4, 1), "");
    assert_eq!(extract_snippet(source, 1, 0), "  1 │ entity User {\n    │ ^^^^^^");

    let long: String = "x\n".repeat(1234);
    assert_eq!(extract_snippet(&long, 1234, 1), "1234 │ x\n     │ ^");
}

#[test]
fn lines_are_split_as_the_standard_library_splits_them() {
    let sources = vec![
        "", "a", "a\n", "a\nb", "a\n\nb\n", "\n", "\n\n", "a\r\nb\r\n", "a\rb\n", "a\r", "\r\n", "a\n\r",
        "x\r\r\ny",
    ];
    for source in sources {
        let expected: Vec<&str> = source.lines().collect();
        let chars = to_chars(source);
        for skip in 0..expected.len() + 2 {
            assert_eq!(
                source_line(&chars, skip),
                expected.get(skip).map(|s| s.to_string()),
                "line {} of {:?}",
                skip,
                source
            );
        }
    }
}

#[test]
fn white_space_is_what_the_standard_library_calls_white_space() {
    for code in 0..=0x10FFFFu32 {
        if let Some(c) = char::from_u32(code) {
            assert_eq!(is_whitespace_char(c), c.is_whitespace(), "for U+{:04X}", code);
        }
    }
}

#[test]
fn substrings_are_found_and_removed_as_the_standard_library_does() {
    let texts = vec!["", "a", "aaa", "abcabc", "Token(3, \"entiy\")", "))((", "ababab", "xaax"];
    let patterns = vec!["", "a", "aa", "abc", "Token(", ")", "\"", "ab", "ba", "x", "abcabcx"];
    for text in &texts {
        for pattern in &patterns {
            assert_eq!(contains_str(text, pattern), text.contains(pattern), "{:?} in {:?}", pattern, text);
            assert_eq!(remove_all(text, pattern), text.replace(pattern, ""), "{:?} out of {:?}", pattern, text);
        }
    }
}

#[test]
fn keyword_hints_follow_the_first_match() {
    assert_eq!(suggest_keyword("entiy"), Some("Did you mean 'entity'?".to_string()));
    assert_eq!(suggest_keyword("enity"), Some("Did you mean 'entity'?".to_string()));
    assert_eq!(suggest_keyword("entity"), Some("Did you mean 'entity'?".to_string()));
    assert_eq!(suggest_keyword("primry"), Some("Did you mean 'primary'?".to_string()));
    assert_eq!(suggest_keyword("pirmary"), Some("Did you mean 'primary'?".to_string()));
    assert_eq!(suggest_keyword("primari"), Some("Did you mean 'primary'?".to_string()));
    assert_eq!(suggest_keyword("uniqu"), Some("Did you mean 'unique'?".to_string()));
    assert_eq!(suggest_keyword("unique"), None);
    assert_eq!(suggest_keyword("nullabe"), Some("Did you mean 'nullable'?".to_string()));
    assert_eq!(suggest_keyword("nulable"), Some("Did you mean 'nullable'?".to_string()));
    assert_eq!(suggest_keyword("primry entiy"), Some("Did you mean 'entity'?".to_string()));
    assert_eq!(suggest_keyword("string"), None);
}

#[test]
fn message_hints_follow_the_first_match() {
    assert_eq!(
        suggest_fix("x expected one of \":\", \"{\""),
        Some("Fields must have a type after the colon.\nExample: name: string".to_string())
    );
    assert_eq!(
        suggest_fix("expected one of \"{\", \"}\""),
        Some("Entity definitions must have an opening brace.\nExample: entity User {".to_string())
    );
    assert_eq!(
        suggest_fix("expected one of \"}\""),
        Some("Missing closing brace. Check that all entities are properly closed.".to_string())
    );
    assert_eq!(
        suggest_fix("Unexpected end of file"),
        Some("The file ended unexpectedly. You may be missing a closing brace }".to_string())
    );
    assert_eq!(suggest_fix("\":\" without the phrase"), None);
    assert_eq!(suggest_fix("unexpected end of file"), None);
}

fn bare_detail(message: &str, token: Option<&str>, suggestion: Option<&str>) -> ParseErrorDetail {
    ParseErrorDetail {
        message: message.to_string(),
        line: 1,
        column: 1,
        snippet: None,
        suggestion: suggestion.map(|s| s.to_string()),
        token: token.map(|s| s.to_string()),
    }
}

#[test]
fn suggestions_prefer_the_token_then_what_is_there_then_the_message() {
    let by_token = add_suggestions(bare_detail("expected one of \":\"", Some("Token(4, \"PRIMRY\")"), Some("old")));
    assert_eq!(by_token.suggestion, Some("Did you mean 'primary'?".to_string()));

    let kept = add_suggestions(bare_detail("expected one of \":\"", Some("name"), Some("old")));
    assert_eq!(kept.suggestion, Some("old".to_string()));

    let by_message = add_suggestions(bare_detail("expected one of \":\"", Some("name"), None));
    assert_eq!(
        by_message.suggestion,
        Some("Fields must have a type after the colon.\nExample: name: string".to_string())
    );

    let none = add_suggestions(bare_detail("nothing to see", None, None));
    assert_eq!(none, bare_detail("nothing to see", None, None));

    let wrapped = add_suggestions(bare_detail("m", Some("\"ENT\")IY"), None));
    assert_eq!(wrapped.suggestion, Some("Did you mean 'entity'?".to_string()));
}

#[test]
fn enhancing_works_out_the_position_from_the_offset() {
    let source = "entity A {\n  x y\n}";
    let mut given = bare_detail("Unexpected token", Some("y"), None);
    given.column = 16;
    let enhanced = enhance_parse_error(ChameleonError::ParseError(given), source);
    let expected = ParseErrorDetail {
        message: "Unexpected token".to_string(),
        line: 2,
        column: 5,
        snippet: Some("  2 │   x y\n    │     ^".to_string()),
        suggestion: None,
        token: Some("y".to_string()),
    };
    assert_eq!(enhanced, ChameleonError::ParseError(expected));

    let mut placed = bare_detail("m", None, None);
    placed.line = 3;
    placed.column = 1;
    match enhance_parse_error(ChameleonError::ParseError(placed), source) {
        ChameleonError::ParseError(detail) => {
            assert_eq!((detail.line, detail.column), (3, 1));
            assert_eq!(detail.snippet, Some("  3 │ }\n    │ ^".to_string()));
        }
        other => panic!("unexpected {:?}", other),
    }

    let other = ChameleonError::ValidationError("bad".to_string());
    assert_eq!(enhance_parse_error(other.clone(), source), other);
}

#[test]
fn schema_written_token_by_token_is_read_back() {
    let source = "entity User { id : uuid primary default ( uuid_v4 ( ) ) , tags : [ [ vector ( 8 ) ] ] unique nullable default ( \"a b\" ) @cache , orders : [ Order ] via user_id , boss : User } entity Order { } ";
    let schema = parse_schema(source).unwrap();

    let mut user = Entity::new("User".to_string());
    let mut id = field("id", FieldType::UUID);
    id.primary_key = true;
    id.default = Some(DefaultValue::UUIDv4);
    user.add_field(id);
    let mut tags = field(
        "tags",
        FieldType::Array(Box::new(FieldType::Array(Box::new(FieldType::Vector(8))))),
    );
    tags.unique = true;
    tags.nullable = true;
    tags.default = Some(DefaultValue::Literal("a b".to_string()));
    tags.backend = Some(BackendAnnotation::Cache);
    user.add_field(tags);
    user.add_relation(Relation {
        name: "orders".to_string(),
        kind: RelationKind::HasMany,
        target_entity: "Order".to_string(),
        foreign_key: Some("user_id".to_string()),
        through: None,
    });
    user.add_relation(Relation {
        name: "boss".to_string(),
        kind: RelationKind::BelongsTo,
        target_entity: "User".to_string(),
        foreign_key: None,
        through: None,
    });
    let mut expected = Schema::new();
    expected.add_entity(user);
    expected.add_entity(Entity::new("Order".to_string()));
    assert_eq!(schema, expected);
}

#[test]
fn positions_go_by_byte_offsets() {
    let source = "\u{e9}\nx";
    assert_eq!(source.len(), 4);
    assert_eq!(offset_to_position(source, 0), (1, 1));
    assert_eq!(offset_to_position(source, 1), (1, 2));
    assert_eq!(offset_to_position(source, 2), (1, 2));
    assert_eq!(offset_to_position(source, 3), (2, 1));
    assert_eq!(offset_to_position(source, 4), (2, 2));
    assert_eq!(offset_to_position(source, usize::MAX), (2, 2));

    let wide = "a\u{20ac}\u{1f600}b\nc";
    for (index, (offset, _)) in wide.char_indices().enumerate() {
        let before: Vec<char> = wide.chars().take(index).collect();
        let line = 1 + before.iter().filter(|c| **c == '\n').count();
        let column = 1 + before.iter().rev().take_while(|c| **c != '\n').count();
        assert_eq!(offset_to_position(wide, offset), (line, column), "at byte {}", offset);
    }
    assert_eq!(offset_to_position(wide, wide.len()), (2, 2));
}

#[test]
fn errors_behind_wide_characters_are_placed_at_their_token() {
    let source = "entity A {\n  x: string default(\"\u{e9}\u{20ac}\") y\n}";
    let detail = detail_of(source);
    assert_eq!(detail.token, Some("y".to_string()));
    assert_eq!((detail.line, detail.column), (2, 27));
    assert_eq!(
        detail.snippet,
        Some(format!(
            "  2 \u{2502}   x: string default(\"\u{e9}\u{20ac}\") y\n    \u{2502} {}^",
            " ".repeat(26)
        ))
    );

    let at_end = "entity \u{c4}";
    let detail = detail_of(at_end);
    assert_eq!(detail.message, "Invalid token");
    assert_eq!(detail.token, Some("\u{c4}".to_string()));
    assert_eq!((detail.line, detail.column), (1, 8));

    let early = "entity A { n: string default(\"\u{1f600}\")";
    let detail = detail_of(early);
    assert_eq!(detail.token, None);
    assert_eq!((detail.line, detail.column), (1, early.chars().count() + 1));
}

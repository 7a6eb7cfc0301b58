//! The parser proper: it reads tokens by the rules of the grammar.

use crate::ast::{
    BackendAnnotation, DefaultValue, Entity, EntityItem, EntityModel, Field, FieldModifier,
    FieldType, Relation, RelationKind, Schema,
};
use crate::parser::grammar::{
    annotation_of, begins_type, close_default, has_kind, has_word, modified, number_value,
    parse_default, parse_dimension, parse_entities, parse_field_tail, parse_item, parse_items,
    parse_modifier, parse_tokens, parse_type, scalar_type, unquoted, with_item, Expected, Parsed,
    SyntaxError,
};
use crate::parser::lexer::{token_models, Token, TokenKind};
use crate::text::{to_chars, to_text};
use vstd::prelude::*;
use vstd::string::*;

verus! {

/// Whether what a rule found is what the grammar says.
pub open spec fn agrees<T: View>(found: Result<(T, usize), SyntaxError>, wanted: Parsed<T::V>) -> bool {
    match wanted {
        Ok((value, next)) => found matches Ok((v, n)) && v@ == value && n == next,
        Err(e) => found matches Err(x) && x@ == e,
    }
}

/// Whether the type that a rule found is what the grammar says.
pub open spec fn type_agrees(
    found: Result<(FieldType, usize), SyntaxError>,
    wanted: Parsed<FieldType>,
) -> bool {
    match wanted {
        Ok((value, next)) => found matches Ok((v, n)) && v == value && n == next,
        Err(e) => found matches Err(x) && x@ == e,
    }
}

/// The value of a longer row of digits is no less than that of its beginning.
pub proof fn lemma_number_grows(digits: Seq<char>, upto: int)
    requires
        0 <= upto <= digits.len(),
    ensures
        number_value(digits.take(upto)) <= number_value(digits),
    decreases digits.len() - upto,
{
    if upto < digits.len() {
        assert(digits.take(upto + 1).drop_last() =~= digits.take(upto));
        lemma_number_grows(digits, upto + 1);
    } else {
        assert(digits.take(upto) =~= digits);
    }
}

/// Whether a token of kind `kind` stands at `pos`.
pub fn kind_is(tokens: &Vec<Token>, pos: usize, kind: TokenKind) -> (r: bool)
    ensures
        r == has_kind(token_models(tokens@), pos as int, kind),
{
    pos < tokens.len() && tokens[pos].kind == kind
}

/// Whether the word `word` stands at `pos`.
pub fn word_is(tokens: &Vec<Token>, pos: usize, word: &str) -> (r: bool)
    ensures
        r == has_word(token_models(tokens@), pos as int, word@),
{
    pos < tokens.len() && tokens[pos].kind == TokenKind::Word && *tokens[pos].text.as_str() == *word
}

/// The scalar type that a word names, if it names one.
pub fn scalar_type_of(word: &str) -> (r: Option<FieldType>)
    ensures
        r == scalar_type(word@),
{
    if *word == *"uuid" {
        Some(FieldType::UUID)
    } else if *word == *"string" {
        Some(FieldType::String)
    } else if *word == *"int" {
        Some(FieldType::Int)
    } else if *word == *"decimal" {
        Some(FieldType::Decimal)
    } else if *word == *"bool" {
        Some(FieldType::Bool)
    } else if *word == *"timestamp" {
        Some(FieldType::Timestamp)
    } else if *word == *"float" {
        Some(FieldType::Float)
    } else {
        None
    }
}

/// Whether a type begins with the word `word`.
pub fn begins_type_word(word: &str) -> (r: bool)
    ensures
        r == begins_type(word@),
{
    scalar_type_of(word).is_some() || *word == *"vector"
}

/// The annotation that a token names, if it names one.
pub fn annotation_named(text: &str) -> (r: Option<BackendAnnotation>)
    ensures
        r == annotation_of(text@),
{
    if *text == *"@cache" {
        Some(BackendAnnotation::Cache)
    } else if *text == *"@olap" {
        Some(BackendAnnotation::OLAP)
    } else if *text == *"@vector" {
        Some(BackendAnnotation::Vector)
    } else if *text == *"@ml" {
        Some(BackendAnnotation::ML)
    } else {
        None
    }
}

/// The number that a row of decimal digits stands for, if it fits the machine.
pub fn read_number(digits: &str) -> (r: Option<usize>)
    ensures
        r is Some <==> number_value(digits@) <= usize::MAX,
        r matches Some(n) ==> n == number_value(digits@),
{
    let chars = to_chars(digits);
    let mut value: usize = 0;
    let mut i: usize = 0;
    assert(chars@.take(0) =~= Seq::<char>::empty());
    while i < chars.len()
        invariant
            i <= chars.len(),
            chars@ == digits@,
            value == number_value(chars@.take(i as int)),
        decreases chars.len() - i,
    {
        let c = chars[i];
        let d: usize = if c >= '0' && c <= '9' {
            (c as u32 - 48) as usize
        } else {
            0
        };
        proof {
            assert(chars@.take(i + 1).drop_last() =~= chars@.take(i as int));
            assert(chars@.take(i + 1).last() == c);
            lemma_number_grows(chars@, i + 1);
        }
        if value > (usize::MAX - d) / 10 {
            assert(value * 10 + d > usize::MAX) by (nonlinear_arith)
                requires
                    value > (usize::MAX - d) / 10,
                    d <= 9,
            ;
            return None;
        }
        assert(value * 10 + d <= usize::MAX) by (nonlinear_arith)
            requires
                value <= (usize::MAX - d) / 10,
                d <= 9,
        ;
        value = value * 10 + d;
        i += 1;
    }
    assert(chars@.take(chars.len() as int) =~= chars@);
    Some(value)
}

/// `"(" number ")"` behind the word `vector`.
pub fn read_dimension(tokens: &Vec<Token>, pos: usize) -> (r: Result<(FieldType, usize), SyntaxError>)
    requires
        pos <= tokens.len(),
    ensures
        type_agrees(r, parse_dimension(token_models(tokens@), pos as int)),
        r matches Ok((_, next)) ==> pos < next <= tokens.len(),
        r matches Err(e) ==> e.at <= tokens.len(),
{
    if !kind_is(tokens, pos, TokenKind::LeftParen) {
        return Err(SyntaxError { at: pos, expected: Expected::LeftParen });
    }
    if !kind_is(tokens, pos + 1, TokenKind::Number) {
        return Err(SyntaxError { at: pos + 1, expected: Expected::Dimension });
    }
    let dimension = match read_number(tokens[pos + 1].text.as_str()) {
        Some(dimension) => dimension,
        None => {
            return Err(SyntaxError { at: pos + 1, expected: Expected::Dimension });
        },
    };
    if !kind_is(tokens, pos + 2, TokenKind::RightParen) {
        return Err(SyntaxError { at: pos + 2, expected: Expected::RightParen });
    }
    Ok((FieldType::Vector(dimension), pos + 3))
}

/// A type.
pub fn read_type(tokens: &Vec<Token>, pos: usize) -> (r: Result<(FieldType, usize), SyntaxError>)
    requires
        pos <= tokens.len(),
    ensures
        type_agrees(r, parse_type(token_models(tokens@), pos as int)),
        r matches Ok((_, next)) ==> pos < next <= tokens.len(),
        r matches Err(e) ==> e.at <= tokens.len(),
    decreases tokens.len() - pos,
{
    if pos >= tokens.len() {
        return Err(SyntaxError { at: pos, expected: Expected::ElementType });
    }
    if kind_is(tokens, pos, TokenKind::LeftBracket) {
        let (element, next) = match read_type(tokens, pos + 1) {
            Ok(found) => found,
            Err(e) => {
                return Err(e);
            },
        };
        if kind_is(tokens, next, TokenKind::RightBracket) {
            Ok((FieldType::Array(Box::new(element)), next + 1))
        } else {
            Err(SyntaxError { at: next, expected: Expected::RightBracket })
        }
    } else if word_is(tokens, pos, "vector") {
        read_dimension(tokens, pos + 1)
    } else if kind_is(tokens, pos, TokenKind::Word) {
        match scalar_type_of(tokens[pos].text.as_str()) {
            Some(field_type) => Ok((field_type, pos + 1)),
            None => Err(SyntaxError { at: pos, expected: Expected::ElementType }),
        }
    } else {
        Err(SyntaxError { at: pos, expected: Expected::ElementType })
    }
}

/// The closing bracket behind a default value.
pub fn read_default_end(tokens: &Vec<Token>, pos: usize, value: DefaultValue) -> (r: Result<
    (DefaultValue, usize),
    SyntaxError,
>)
    requires
        pos <= tokens.len(),
    ensures
        agrees(r, close_default(token_models(tokens@), pos as int, value@)),
        r matches Ok((_, next)) ==> pos < next <= tokens.len(),
        r matches Err(e) ==> e.at <= tokens.len(),
{
    if kind_is(tokens, pos, TokenKind::RightParen) {
        Ok((value, pos + 1))
    } else {
        Err(SyntaxError { at: pos, expected: Expected::RightParen })
    }
}

/// `"(" value ")"` behind the word `default`.
pub fn read_default(tokens: &Vec<Token>, pos: usize) -> (r: Result<
    (DefaultValue, usize),
    SyntaxError,
>)
    requires
        pos <= tokens.len(),
    ensures
        agrees(r, parse_default(token_models(tokens@), pos as int)),
        r matches Ok((_, next)) ==> pos < next <= tokens.len(),
        r matches Err(e) ==> e.at <= tokens.len(),
{
    if !kind_is(tokens, pos, TokenKind::LeftParen) {
        return Err(SyntaxError { at: pos, expected: Expected::LeftParen });
    }
    if kind_is(tokens, pos + 1, TokenKind::Text) {
        let chars = to_chars(tokens[pos + 1].text.as_str());
        let inner = if chars.len() >= 2 {
            to_text(&chars, 1, chars.len() - 1)
        } else {
            String::new()
        };
        assert(inner@ =~= unquoted(token_models(tokens@)[pos + 1].text));
        read_default_end(tokens, pos + 2, DefaultValue::Literal(inner))
    } else if kind_is(tokens, pos + 1, TokenKind::Number) {
        read_default_end(tokens, pos + 2, DefaultValue::Literal(tokens[pos + 1].text.clone()))
    } else if word_is(tokens, pos + 1, "now") || word_is(tokens, pos + 1, "uuid_v4") {
        if !kind_is(tokens, pos + 2, TokenKind::LeftParen) {
            return Err(SyntaxError { at: pos + 2, expected: Expected::LeftParen });
        }
        if !kind_is(tokens, pos + 3, TokenKind::RightParen) {
            return Err(SyntaxError { at: pos + 3, expected: Expected::RightParen });
        }
        let value = if word_is(tokens, pos + 1, "now") {
            DefaultValue::Now
        } else {
            DefaultValue::UUIDv4
        };
        read_default_end(tokens, pos + 4, value)
    } else {
        Err(SyntaxError { at: pos + 1, expected: Expected::DefaultValue })
    }
}

/// One modifier, where one stands at `pos`.
pub fn read_modifier(tokens: &Vec<Token>, pos: usize) -> (r: Option<
    Result<(FieldModifier, usize), SyntaxError>,
>)
    requires
        pos <= tokens.len(),
    ensures
        match parse_modifier(token_models(tokens@), pos as int) {
            Some(wanted) => r matches Some(found) && agrees(found, wanted),
            None => r is None,
        },
        r matches Some(Ok((_, next))) ==> pos < next <= tokens.len(),
        r matches Some(Err(e)) ==> e.at <= tokens.len(),
{
    if word_is(tokens, pos, "primary") {
        Some(Ok((FieldModifier::Primary, pos + 1)))
    } else if word_is(tokens, pos, "unique") {
        Some(Ok((FieldModifier::Unique, pos + 1)))
    } else if word_is(tokens, pos, "nullable") {
        Some(Ok((FieldModifier::Nullable, pos + 1)))
    } else if word_is(tokens, pos, "default") {
        match read_default(tokens, pos + 1) {
            Ok((value, next)) => Some(Ok((FieldModifier::Default(value), next))),
            Err(e) => Some(Err(e)),
        }
    } else {
        None
    }
}

/// What follows the type of a field, applied to `field`.
pub fn read_field_tail(tokens: &Vec<Token>, pos: usize, field: Field) -> (r: Result<
    (Field, usize),
    SyntaxError,
>)
    requires
        pos <= tokens.len(),
    ensures
        agrees(r, parse_field_tail(token_models(tokens@), pos as int, field@)),
        r matches Ok((_, next)) ==> pos <= next <= tokens.len(),
        r matches Err(e) ==> e.at <= tokens.len(),
{
    let ghost wanted = parse_field_tail(token_models(tokens@), pos as int, field@);
    let mut current = field;
    let mut at: usize = pos;
    loop
        invariant
            pos <= at <= tokens.len(),
            wanted == parse_field_tail(token_models(tokens@), pos as int, field@),
            parse_field_tail(token_models(tokens@), at as int, current@) == wanted,
        decreases tokens.len() - at,
    {
        if kind_is(tokens, at, TokenKind::Comma) || kind_is(tokens, at, TokenKind::RightBrace) {
            return Ok((current, at));
        }
        if kind_is(tokens, at, TokenKind::Annotation) {
            match annotation_named(tokens[at].text.as_str()) {
                Some(annotation) => {
                    current.backend = Some(annotation);
                    return Ok((current, at + 1));
                },
                None => {
                    return Err(SyntaxError { at, expected: Expected::Annotation });
                },
            }
        }
        match read_modifier(tokens, at) {
            None => {
                return Err(SyntaxError { at, expected: Expected::FieldTail });
            },
            Some(Err(e)) => {
                return Err(e);
            },
            Some(Ok((modifier, next))) => {
                let ghost before = current@;
                let ghost change = modifier@;
                match modifier {
                    FieldModifier::Primary => {
                        current.primary_key = true;
                    },
                    FieldModifier::Unique => {
                        current.unique = true;
                    },
                    FieldModifier::Nullable => {
                        current.nullable = true;
                    },
                    FieldModifier::Default(value) => {
                        current.default = Some(value);
                    },
                }
                assert(current@ == modified(before, change));
                at = next;
            },
        }
    }
}

/// One item of an entity's body, whose name stands at `pos`.
pub fn read_item(tokens: &Vec<Token>, pos: usize) -> (r: Result<(EntityItem, usize), SyntaxError>)
    requires
        pos < tokens.len(),
    ensures
        agrees(r, parse_item(token_models(tokens@), pos as int)),
        r matches Ok((_, next)) ==> pos < next <= tokens.len(),
        r matches Err(e) ==> e.at <= tokens.len(),
{
    let name = tokens[pos].text.clone();
    if !kind_is(tokens, pos + 1, TokenKind::Colon) {
        return Err(SyntaxError { at: pos + 1, expected: Expected::Colon });
    }
    if kind_is(tokens, pos + 2, TokenKind::LeftBracket) && kind_is(
        tokens,
        pos + 3,
        TokenKind::Word,
    ) && !begins_type_word(tokens[pos + 3].text.as_str()) {
        if !kind_is(tokens, pos + 4, TokenKind::RightBracket) {
            return Err(SyntaxError { at: pos + 4, expected: Expected::RightBracket });
        }
        if !word_is(tokens, pos + 5, "via") {
            return Err(SyntaxError { at: pos + 5, expected: Expected::Via });
        }
        if !kind_is(tokens, pos + 6, TokenKind::Word) {
            return Err(SyntaxError { at: pos + 6, expected: Expected::Name });
        }
        let relation = Relation {
            name,
            kind: RelationKind::HasMany,
            target_entity: tokens[pos + 3].text.clone(),
            foreign_key: Some(tokens[pos + 6].text.clone()),
            through: None,
        };
        return Ok((EntityItem::Relation(relation), pos + 7));
    }
    if kind_is(tokens, pos + 2, TokenKind::Word) && !begins_type_word(
        tokens[pos + 2].text.as_str(),
    ) {
        let relation = Relation {
            name,
            kind: RelationKind::BelongsTo,
            target_entity: tokens[pos + 2].text.clone(),
            foreign_key: None,
            through: None,
        };
        return Ok((EntityItem::Relation(relation), pos + 3));
    }
    if kind_is(tokens, pos + 2, TokenKind::Word) || kind_is(tokens, pos + 2, TokenKind::LeftBracket) {
        let (field_type, next) = match read_type(tokens, pos + 2) {
            Ok(found) => found,
            Err(e) => {
                return Err(e);
            },
        };
        let field = Field {
            name,
            field_type,
            nullable: false,
            unique: false,
            primary_key: false,
            default: None,
            backend: None,
        };
        return match read_field_tail(tokens, next, field) {
            Ok((field, end)) => Ok((EntityItem::Field(field), end)),
            Err(e) => Err(e),
        };
    }
    Err(SyntaxError { at: pos + 2, expected: Expected::ItemBody })
}

/// The items of an entity's body from `pos` on, added to `entity`.
pub fn read_items(tokens: &Vec<Token>, pos: usize, entity: Entity) -> (r: Result<
    (Entity, usize),
    SyntaxError,
>)
    requires
        pos <= tokens.len(),
    ensures
        agrees(r, parse_items(token_models(tokens@), pos as int, entity@)),
        r matches Ok((_, next)) ==> pos < next <= tokens.len(),
        r matches Err(e) ==> e.at <= tokens.len(),
{
    let ghost wanted = parse_items(token_models(tokens@), pos as int, entity@);
    let mut current = entity;
    let mut at: usize = pos;
    loop
        invariant
            pos <= at <= tokens.len(),
            wanted == parse_items(token_models(tokens@), pos as int, entity@),
            parse_items(token_models(tokens@), at as int, current@) == wanted,
        decreases tokens.len() - at,
    {
        if kind_is(tokens, at, TokenKind::RightBrace) {
            return Ok((current, at + 1));
        }
        if !kind_is(tokens, at, TokenKind::Word) {
            return Err(SyntaxError { at, expected: Expected::Item });
        }
        let (item, next) = match read_item(tokens, at) {
            Ok(found) => found,
            Err(e) => {
                return Err(e);
            },
        };
        let ghost before = current@;
        let ghost item_model = item@;
        match item {
            EntityItem::Field(field) => {
                current.add_field(field);
            },
            EntityItem::Relation(relation) => {
                current.add_relation(relation);
            },
        }
        assert(current@ == with_item(before, item_model));
        if kind_is(tokens, next, TokenKind::Comma) {
            at = next + 1;
        } else if kind_is(tokens, next, TokenKind::RightBrace) {
            return Ok((current, next + 1));
        } else {
            return Err(SyntaxError { at: next, expected: Expected::Separator });
        }
    }
}

/// Reads the schema that a list of tokens spells.
pub fn read_schema(tokens: &Vec<Token>) -> (r: Result<Schema, SyntaxError>)
    ensures
        match parse_tokens(token_models(tokens@)) {
            Ok(schema) => r matches Ok(found) && found@ == schema,
            Err(e) => r matches Err(x) && x@ == e && x.at <= tokens.len(),
        },
{
    let mut schema = Schema::new();
    let mut at: usize = 0;
    while at < tokens.len()
        invariant
            at <= tokens.len(),
            parse_entities(token_models(tokens@), at as int, schema@.entities) == parse_tokens(
                token_models(tokens@),
            ),
        decreases tokens.len() - at,
    {
        if !word_is(tokens, at, "entity") {
            return Err(SyntaxError { at, expected: Expected::Entity });
        }
        if !kind_is(tokens, at + 1, TokenKind::Word) {
            return Err(SyntaxError { at: at + 1, expected: Expected::Name });
        }
        if !kind_is(tokens, at + 2, TokenKind::LeftBrace) {
            return Err(SyntaxError { at: at + 2, expected: Expected::LeftBrace });
        }
        let entity = Entity::new(tokens[at + 1].text.clone());
        assert(entity@ == (EntityModel {
            name: token_models(tokens@)[at + 1].text,
            fields: Seq::empty(),
            relations: Seq::empty(),
        }));
        let (entity, next) = match read_items(tokens, at + 3, entity) {
            Ok(found) => found,
            Err(e) => {
                return Err(e);
            },
        };
        schema.add_entity(entity);
        at = next;
    }
    Ok(schema)
}

} // verus!

//! From tokens to a schema.
//!
//! ```text
//! schema   = { entity }
//! entity   = "entity" name "{" [ item { "," item } [ "," ] ] "}"
//! item     = name ":" ( type { modifier } [ annotation ]
//!                     | "[" target "]" "via" name
//!                     | target )
//! type     = "uuid" | "string" | "int" | "decimal" | "bool" | "timestamp" | "float"
//!          | "vector" "(" number ")" | "[" type "]"
//! modifier = "primary" | "unique" | "nullable" | "default" "(" value ")"
//! value    = "now" "(" ")" | "uuid_v4" "(" ")" | text | number
//! ```
//!
//! A `name` is any word; a `target` is a word that begins no type. An
//! annotation is one of `@cache`, `@olap`, `@vector`, `@ml`.

use crate::ast::{
    BackendAnnotation, DefaultModel, EntityItemModel, EntityModel, FieldModel,
    FieldModifierModel, FieldType, RelationKind, RelationModel, SchemaModel,
};
use crate::parser::lexer::{is_decimal_digit, TokenKind, TokenModel};
use vstd::prelude::*;

verus! {

/// What the parser was looking for where it gave up.
#[derive(Debug, Clone, Copy, PartialEq, Eq, Structural)]
pub enum Expected {
    /// The keyword `entity`.
    Entity,
    /// A name.
    Name,
    LeftBrace,
    /// The name of an item, or the closing brace.
    Item,
    Colon,
    /// A type, or the target of a relation.
    ItemBody,
    /// A type.
    ElementType,
    RightBracket,
    /// The keyword `via`.
    Via,
    /// A modifier, an annotation, a comma or the closing brace.
    FieldTail,
    /// A comma or the closing brace.
    Separator,
    LeftParen,
    RightParen,
    /// A number that fits the machine.
    Dimension,
    /// A default value.
    DefaultValue,
    /// One of the known annotations.
    Annotation,
}

/// A syntax error: the index of the offending token (the number of tokens,
/// where the text ended too early) and what was expected there.
#[derive(Debug, Clone, Copy, PartialEq, Eq)]
pub struct SyntaxError {
    pub at: usize,
    pub expected: Expected,
}

/// The model of a [`SyntaxError`].
pub struct SyntaxErrorModel {
    pub at: int,
    pub expected: Expected,
}

impl View for SyntaxError {
    type V = SyntaxErrorModel;

    open spec fn view(&self) -> SyntaxErrorModel {
        SyntaxErrorModel { at: self.at as int, expected: self.expected }
    }
}

/// What a rule of the grammar yields: a value and the index of the first
/// token behind it, or a syntax error.
pub type Parsed<T> = Result<(T, int), SyntaxErrorModel>;

/// The syntax error at token `at`.
pub open spec fn fail<T>(at: int, expected: Expected) -> Parsed<T> {
    Err(SyntaxErrorModel { at, expected })
}

/// Whether a token of kind `kind` stands at `pos`.
pub open spec fn has_kind(tokens: Seq<TokenModel>, pos: int, kind: TokenKind) -> bool {
    0 <= pos < tokens.len() && tokens[pos].kind == kind
}

/// Whether the word `word` stands at `pos`.
pub open spec fn has_word(tokens: Seq<TokenModel>, pos: int, word: Seq<char>) -> bool {
    has_kind(tokens, pos, TokenKind::Word) && tokens[pos].text == word
}

/// The scalar type that a word names, if it names one.
pub open spec fn scalar_type(word: Seq<char>) -> Option<FieldType> {
    if word == "uuid"@ {
        Some(FieldType::UUID)
    } else if word == "string"@ {
        Some(FieldType::String)
    } else if word == "int"@ {
        Some(FieldType::Int)
    } else if word == "decimal"@ {
        Some(FieldType::Decimal)
    } else if word == "bool"@ {
        Some(FieldType::Bool)
    } else if word == "timestamp"@ {
        Some(FieldType::Timestamp)
    } else if word == "float"@ {
        Some(FieldType::Float)
    } else {
        None
    }
}

/// Whether a type begins with the word `word`.
pub open spec fn begins_type(word: Seq<char>) -> bool {
    scalar_type(word) is Some || word == "vector"@
}

/// The annotation that a token names, if it names one.
pub open spec fn annotation_of(text: Seq<char>) -> Option<BackendAnnotation> {
    if text == "@cache"@ {
        Some(BackendAnnotation::Cache)
    } else if text == "@olap"@ {
        Some(BackendAnnotation::OLAP)
    } else if text == "@vector"@ {
        Some(BackendAnnotation::Vector)
    } else if text == "@ml"@ {
        Some(BackendAnnotation::ML)
    } else {
        None
    }
}

/// What a decimal digit counts; any other character counts nothing.
pub open spec fn digit_value(c: char) -> nat {
    if is_decimal_digit(c) {
        (c as int - 48) as nat
    } else {
        0
    }
}

/// The number that a row of decimal digits stands for.
pub open spec fn number_value(digits: Seq<char>) -> nat
    decreases digits.len(),
{
    if digits.len() == 0 {
        0
    } else {
        number_value(digits.drop_last()) * 10 + digit_value(digits.last())
    }
}

/// `"(" number ")"` behind the word `vector`.
pub open spec fn parse_dimension(tokens: Seq<TokenModel>, pos: int) -> Parsed<FieldType> {
    if !has_kind(tokens, pos, TokenKind::LeftParen) {
        fail(pos, Expected::LeftParen)
    } else if !has_kind(tokens, pos + 1, TokenKind::Number) || number_value(tokens[pos + 1].text)
        > usize::MAX {
        fail(pos + 1, Expected::Dimension)
    } else if !has_kind(tokens, pos + 2, TokenKind::RightParen) {
        fail(pos + 2, Expected::RightParen)
    } else {
        Ok((FieldType::Vector(number_value(tokens[pos + 1].text) as usize), pos + 3))
    }
}

/// A type.
pub open spec fn parse_type(tokens: Seq<TokenModel>, pos: int) -> Parsed<FieldType>
    decreases tokens.len() - pos,
{
    if !(0 <= pos < tokens.len()) {
        fail(pos, Expected::ElementType)
    } else if tokens[pos].kind == TokenKind::LeftBracket {
        match parse_type(tokens, pos + 1) {
            Err(e) => Err(e),
            Ok((element, next)) => if has_kind(tokens, next, TokenKind::RightBracket) {
                Ok((FieldType::Array(Box::new(element)), next + 1))
            } else {
                fail(next, Expected::RightBracket)
            },
        }
    } else if tokens[pos].kind == TokenKind::Word && tokens[pos].text == "vector"@ {
        parse_dimension(tokens, pos + 1)
    } else if tokens[pos].kind == TokenKind::Word && scalar_type(tokens[pos].text) is Some {
        Ok((scalar_type(tokens[pos].text)->0, pos + 1))
    } else {
        fail(pos, Expected::ElementType)
    }
}

/// A text without the quotes around it.
pub open spec fn unquoted(text: Seq<char>) -> Seq<char> {
    if text.len() >= 2 {
        text.subrange(1, text.len() - 1)
    } else {
        Seq::empty()
    }
}

/// The closing bracket behind a default value.
pub open spec fn close_default(tokens: Seq<TokenModel>, pos: int, value: DefaultModel) -> Parsed<
    DefaultModel,
> {
    if has_kind(tokens, pos, TokenKind::RightParen) {
        Ok((value, pos + 1))
    } else {
        fail(pos, Expected::RightParen)
    }
}

/// `"(" value ")"` behind the word `default`. A text gives the literal
/// between its quotes, a number the literal of its digits.
pub open spec fn parse_default(tokens: Seq<TokenModel>, pos: int) -> Parsed<DefaultModel> {
    if !has_kind(tokens, pos, TokenKind::LeftParen) {
        fail(pos, Expected::LeftParen)
    } else if has_kind(tokens, pos + 1, TokenKind::Text) {
        close_default(tokens, pos + 2, DefaultModel::Literal(unquoted(tokens[pos + 1].text)))
    } else if has_kind(tokens, pos + 1, TokenKind::Number) {
        close_default(tokens, pos + 2, DefaultModel::Literal(tokens[pos + 1].text))
    } else if has_word(tokens, pos + 1, "now"@) || has_word(tokens, pos + 1, "uuid_v4"@) {
        if !has_kind(tokens, pos + 2, TokenKind::LeftParen) {
            fail(pos + 2, Expected::LeftParen)
        } else if !has_kind(tokens, pos + 3, TokenKind::RightParen) {
            fail(pos + 3, Expected::RightParen)
        } else {
            close_default(
                tokens,
                pos + 4,
                if tokens[pos + 1].text == "now"@ {
                    DefaultModel::Now
                } else {
                    DefaultModel::UUIDv4
                },
            )
        }
    } else {
        fail(pos + 1, Expected::DefaultValue)
    }
}

/// One modifier, where one stands at `pos`.
pub open spec fn parse_modifier(tokens: Seq<TokenModel>, pos: int) -> Option<
    Parsed<FieldModifierModel>,
> {
    if has_word(tokens, pos, "primary"@) {
        Some(Ok((FieldModifierModel::Primary, pos + 1)))
    } else if has_word(tokens, pos, "unique"@) {
        Some(Ok((FieldModifierModel::Unique, pos + 1)))
    } else if has_word(tokens, pos, "nullable"@) {
        Some(Ok((FieldModifierModel::Nullable, pos + 1)))
    } else if has_word(tokens, pos, "default"@) {
        Some(
            match parse_default(tokens, pos + 1) {
                Ok((value, next)) => Ok((FieldModifierModel::Default(value), next)),
                Err(e) => Err(e),
            },
        )
    } else {
        None
    }
}

/// The field with one more modifier.
pub open spec fn modified(field: FieldModel, modifier: FieldModifierModel) -> FieldModel {
    match modifier {
        FieldModifierModel::Primary => FieldModel { primary_key: true, ..field },
        FieldModifierModel::Unique => FieldModel { unique: true, ..field },
        FieldModifierModel::Nullable => FieldModel { nullable: true, ..field },
        FieldModifierModel::Default(value) => FieldModel { default: Some(value), ..field },
    }
}

/// What follows the type of a field: modifiers, then an annotation or
/// nothing. The comma or brace that ends the field is left where it is.
pub open spec fn parse_field_tail(tokens: Seq<TokenModel>, pos: int, field: FieldModel) -> Parsed<
    FieldModel,
>
    decreases tokens.len() - pos,
{
    if has_kind(tokens, pos, TokenKind::Comma) || has_kind(tokens, pos, TokenKind::RightBrace) {
        Ok((field, pos))
    } else if has_kind(tokens, pos, TokenKind::Annotation) {
        match annotation_of(tokens[pos].text) {
            Some(annotation) => Ok((FieldModel { backend: Some(annotation), ..field }, pos + 1)),
            None => fail(pos, Expected::Annotation),
        }
    } else {
        match parse_modifier(tokens, pos) {
            None => fail(pos, Expected::FieldTail),
            Some(Err(e)) => Err(e),
            Some(Ok((modifier, next))) => parse_field_tail(tokens, next, modified(field, modifier)),
        }
    }
}

/// A field called `name` of type `field_type`, without modifier or annotation.
pub open spec fn bare_field(name: Seq<char>, field_type: FieldType) -> FieldModel {
    FieldModel {
        name,
        field_type,
        nullable: false,
        unique: false,
        primary_key: false,
        default: None,
        backend: None,
    }
}

/// One item of an entity's body, whose name stands at `pos`. Behind the colon, a
/// word that begins no type is the target of a belongs-to relation, and so is,
/// between square brackets, the target of a has-many relation; anything else
/// must be the type of a field.
pub open spec fn parse_item(tokens: Seq<TokenModel>, pos: int) -> Parsed<EntityItemModel> {
    let name = tokens[pos].text;
    if !has_kind(tokens, pos + 1, TokenKind::Colon) {
        fail(pos + 1, Expected::Colon)
    } else if has_kind(tokens, pos + 2, TokenKind::LeftBracket) && has_kind(
        tokens,
        pos + 3,
        TokenKind::Word,
    ) && !begins_type(tokens[pos + 3].text) {
        if !has_kind(tokens, pos + 4, TokenKind::RightBracket) {
            fail(pos + 4, Expected::RightBracket)
        } else if !has_word(tokens, pos + 5, "via"@) {
            fail(pos + 5, Expected::Via)
        } else if !has_kind(tokens, pos + 6, TokenKind::Word) {
            fail(pos + 6, Expected::Name)
        } else {
            Ok(
                (
                    EntityItemModel::Relation(
                        RelationModel {
                            name,
                            kind: RelationKind::HasMany,
                            target_entity: tokens[pos + 3].text,
                            foreign_key: Some(tokens[pos + 6].text),
                            through: None,
                        },
                    ),
                    pos + 7,
                ),
            )
        }
    } else if has_kind(tokens, pos + 2, TokenKind::Word) && !begins_type(tokens[pos + 2].text) {
        Ok(
            (
                EntityItemModel::Relation(
                    RelationModel {
                        name,
                        kind: RelationKind::BelongsTo,
                        target_entity: tokens[pos + 2].text,
                        foreign_key: None,
                        through: None,
                    },
                ),
                pos + 3,
            ),
        )
    } else if has_kind(tokens, pos + 2, TokenKind::Word) || has_kind(
        tokens,
        pos + 2,
        TokenKind::LeftBracket,
    ) {
        match parse_type(tokens, pos + 2) {
            Err(e) => Err(e),
            Ok((field_type, next)) => match parse_field_tail(
                tokens,
                next,
                bare_field(name, field_type),
            ) {
                Err(e) => Err(e),
                Ok((field, end)) => Ok((EntityItemModel::Field(field), end)),
            },
        }
    } else {
        fail(pos + 2, Expected::ItemBody)
    }
}

/// The entity with one more item behind those it has.
pub open spec fn with_item(entity: EntityModel, item: EntityItemModel) -> EntityModel {
    match item {
        EntityItemModel::Field(field) => EntityModel {
            fields: entity.fields.push(field),
            ..entity
        },
        EntityItemModel::Relation(relation) => EntityModel {
            relations: entity.relations.push(relation),
            ..entity
        },
    }
}

/// The items of an entity's body from `pos` on, up to and with the closing
/// brace, added to `entity`. Items are separated by commas; a comma may
/// follow the last.
pub open spec fn parse_items(tokens: Seq<TokenModel>, pos: int, entity: EntityModel) -> Parsed<
    EntityModel,
>
    decreases tokens.len() - pos,
{
    if has_kind(tokens, pos, TokenKind::RightBrace) {
        Ok((entity, pos + 1))
    } else if has_kind(tokens, pos, TokenKind::Word) {
        match parse_item(tokens, pos) {
            Err(e) => Err(e),
            Ok((item, next)) => {
                if has_kind(tokens, next, TokenKind::Comma) {
                    proof {
                        lemma_item_advances(tokens, pos);
                    }
                    parse_items(tokens, next + 1, with_item(entity, item))
                } else if has_kind(tokens, next, TokenKind::RightBrace) {
                    Ok((with_item(entity, item), next + 1))
                } else {
                    fail(next, Expected::Separator)
                }
            },
        }
    } else {
        fail(pos, Expected::Item)
    }
}

/// The entities from `pos` on, added to `entities`.
pub open spec fn parse_entities(tokens: Seq<TokenModel>, pos: int, entities: Seq<EntityModel>) -> Result<
    SchemaModel,
    SyntaxErrorModel,
>
    decreases tokens.len() - pos,
{
    if !(0 <= pos < tokens.len()) {
        Ok(SchemaModel { entities })
    } else if !has_word(tokens, pos, "entity"@) {
        Err(SyntaxErrorModel { at: pos, expected: Expected::Entity })
    } else if !has_kind(tokens, pos + 1, TokenKind::Word) {
        Err(SyntaxErrorModel { at: pos + 1, expected: Expected::Name })
    } else if !has_kind(tokens, pos + 2, TokenKind::LeftBrace) {
        Err(SyntaxErrorModel { at: pos + 2, expected: Expected::LeftBrace })
    } else {
        match parse_items(
            tokens,
            pos + 3,
            EntityModel {
                name: tokens[pos + 1].text,
                fields: Seq::empty(),
                relations: Seq::empty(),
            },
        ) {
            Err(e) => Err(e),
            Ok((entity, next)) => {
                proof {
                    lemma_items_advance(
                        tokens,
                        pos + 3,
                        EntityModel {
                            name: tokens[pos + 1].text,
                            fields: Seq::empty(),
                            relations: Seq::empty(),
                        },
                    );
                }
                parse_entities(tokens, next, entities.push(entity))
            },
        }
    }
}

/// The schema that a list of tokens spells, or the first syntax error in it.
pub open spec fn parse_tokens(tokens: Seq<TokenModel>) -> Result<SchemaModel, SyntaxErrorModel> {
    parse_entities(tokens, 0, Seq::empty())
}

/// A type takes at least one token and ends within the tokens.
pub proof fn lemma_type_advances(tokens: Seq<TokenModel>, pos: int)
    ensures
        parse_type(tokens, pos) matches Ok((_, next)) ==> pos < next <= tokens.len(),
        parse_type(tokens, pos) matches Err(e) ==> pos <= e.at <= tokens.len() || !(0 <= pos
            < tokens.len()),
    decreases tokens.len() - pos,
{
    if 0 <= pos < tokens.len() && tokens[pos].kind == TokenKind::LeftBracket {
        lemma_type_advances(tokens, pos + 1);
    }
}

/// What follows a field's type ends within the tokens and never goes back.
pub proof fn lemma_tail_advances(tokens: Seq<TokenModel>, pos: int, field: FieldModel)
    requires
        0 <= pos <= tokens.len(),
    ensures
        parse_field_tail(tokens, pos, field) matches Ok((_, next)) ==> pos <= next <= tokens.len(),
        parse_field_tail(tokens, pos, field) matches Err(e) ==> pos <= e.at <= tokens.len(),
    decreases tokens.len() - pos,
{
    if has_kind(tokens, pos, TokenKind::Comma) || has_kind(tokens, pos, TokenKind::RightBrace) {
    } else if has_kind(tokens, pos, TokenKind::Annotation) {
    } else {
        match parse_modifier(tokens, pos) {
            Some(Ok((modifier, next))) => {
                lemma_tail_advances(tokens, next, modified(field, modifier));
            },
            _ => {},
        }
    }
}

/// An item takes at least three tokens and ends within the tokens.
pub proof fn lemma_item_advances(tokens: Seq<TokenModel>, pos: int)
    requires
        0 <= pos < tokens.len(),
    ensures
        parse_item(tokens, pos) matches Ok((_, next)) ==> pos + 3 <= next <= tokens.len(),
        parse_item(tokens, pos) matches Err(e) ==> pos < e.at <= tokens.len(),
{
    lemma_type_advances(tokens, pos + 2);
    match parse_type(tokens, pos + 2) {
        Ok((field_type, next)) => {
            lemma_tail_advances(tokens, next, bare_field(tokens[pos].text, field_type));
        },
        Err(_) => {},
    }
}

/// The items of a body take at least one token and end within the tokens.
pub proof fn lemma_items_advance(tokens: Seq<TokenModel>, pos: int, entity: EntityModel)
    requires
        0 <= pos <= tokens.len(),
    ensures
        parse_items(tokens, pos, entity) matches Ok((_, next)) ==> pos < next <= tokens.len(),
        parse_items(tokens, pos, entity) matches Err(e) ==> pos <= e.at <= tokens.len(),
    decreases tokens.len() - pos,
{
    if has_kind(tokens, pos, TokenKind::RightBrace) {
    } else if has_kind(tokens, pos, TokenKind::Word) {
        lemma_item_advances(tokens, pos);
        match parse_item(tokens, pos) {
            Ok((item, next)) => {
                if has_kind(tokens, next, TokenKind::Comma) {
                    lemma_items_advance(tokens, next + 1, with_item(entity, item));
                }
            },
            Err(_) => {},
        }
    }
}

} // verus!

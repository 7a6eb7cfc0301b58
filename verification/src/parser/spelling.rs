//! Reading back what is written: a schema spelled out in tokens is the schema
//! that the grammar reads from them.

use crate::ast::{
    BackendAnnotation, DefaultModel, EntityItemModel, EntityModel, FieldModel, FieldType,
    RelationKind, RelationModel, SchemaModel,
};
use crate::parser::grammar::{
    annotation_of, bare_field, begins_type, has_kind, has_word, number_value, parse_default,
    parse_entities, parse_field_tail, parse_item, parse_items, parse_tokens, parse_type,
    scalar_type, unquoted, with_item, SyntaxErrorModel,
};
use crate::parser::lexer::{TokenKind, TokenModel};
use crate::text::decimal;
use vstd::prelude::*;

verus! {

/// What the grammar sees of a token: its kind and its characters.
pub struct Piece {
    pub kind: TokenKind,
    pub text: Seq<char>,
}

/// What the grammar sees of a list of tokens.
pub open spec fn pieces(tokens: Seq<TokenModel>) -> Seq<Piece> {
    Seq::new(tokens.len(), |i: int| Piece { kind: tokens[i].kind, text: tokens[i].text })
}

/// Whether the tokens from `pos` on begin with `spelled`.
pub open spec fn spells(tokens: Seq<TokenModel>, pos: int, spelled: Seq<Piece>) -> bool {
    0 <= pos && pos + spelled.len() <= tokens.len() && pieces(tokens).subrange(
        pos,
        pos + spelled.len(),
    ) == spelled
}

/// The word `text`.
pub open spec fn word(text: Seq<char>) -> Piece {
    Piece { kind: TokenKind::Word, text }
}

/// The opening brace.
pub open spec fn left_brace() -> Piece {
    Piece { kind: TokenKind::LeftBrace, text: "{"@ }
}

/// The closing brace.
pub open spec fn right_brace() -> Piece {
    Piece { kind: TokenKind::RightBrace, text: "}"@ }
}

/// The opening round bracket.
pub open spec fn left_paren() -> Piece {
    Piece { kind: TokenKind::LeftParen, text: "("@ }
}

/// The closing round bracket.
pub open spec fn right_paren() -> Piece {
    Piece { kind: TokenKind::RightParen, text: ")"@ }
}

/// The opening square bracket.
pub open spec fn left_bracket() -> Piece {
    Piece { kind: TokenKind::LeftBracket, text: "["@ }
}

/// The closing square bracket.
pub open spec fn right_bracket() -> Piece {
    Piece { kind: TokenKind::RightBracket, text: "]"@ }
}

/// The colon.
pub open spec fn colon() -> Piece {
    Piece { kind: TokenKind::Colon, text: ":"@ }
}

/// The comma.
pub open spec fn comma() -> Piece {
    Piece { kind: TokenKind::Comma, text: ","@ }
}

/// A type, spelled out.
pub open spec fn spell_type(field_type: FieldType) -> Seq<Piece>
    decreases field_type,
{
    match field_type {
        FieldType::UUID => seq![word("uuid"@)],
        FieldType::String => seq![word("string"@)],
        FieldType::Int => seq![word("int"@)],
        FieldType::Decimal => seq![word("decimal"@)],
        FieldType::Bool => seq![word("bool"@)],
        FieldType::Timestamp => seq![word("timestamp"@)],
        FieldType::Float => seq![word("float"@)],
        FieldType::Vector(dimension) => seq![
            word("vector"@),
            left_paren(),
            Piece { kind: TokenKind::Number, text: decimal(dimension as nat) },
            right_paren(),
        ],
        FieldType::Array(element) => seq![left_bracket()] + spell_type(*element) + seq![
            right_bracket(),
        ],
    }
}

/// Tokens that begin with two spellings in a row begin with the first, and
/// go on with the second.
pub proof fn lemma_spells_both(
    tokens: Seq<TokenModel>,
    pos: int,
    first: Seq<Piece>,
    second: Seq<Piece>,
)
    requires
        spells(tokens, pos, first + second),
    ensures
        spells(tokens, pos, first),
        spells(tokens, pos + first.len(), second),
{
    let all = pieces(tokens);
    let both = first + second;
    assert(all.subrange(pos, pos + first.len()) =~= first) by {
        assert forall|k: int| 0 <= k < first.len() implies all.subrange(pos, pos + first.len())[k]
            == first[k] by {
            assert(all.subrange(pos, pos + both.len())[k] == both[k]);
        }
    }
    assert(all.subrange(pos + first.len(), pos + first.len() + second.len()) =~= second) by {
        assert forall|k: int| 0 <= k < second.len() implies all.subrange(
            pos + first.len(),
            pos + first.len() + second.len(),
        )[k] == second[k] by {
            assert(all.subrange(pos, pos + both.len())[first.len() + k] == both[first.len() + k]);
        }
    }
}

/// The token at `pos + k` is the `k`th piece of what is spelled at `pos`.
pub proof fn lemma_spelled_piece(tokens: Seq<TokenModel>, pos: int, spelled: Seq<Piece>, k: int)
    requires
        spells(tokens, pos, spelled),
        0 <= k < spelled.len(),
    ensures
        0 <= pos + k < tokens.len(),
        tokens[pos + k].kind == spelled[k].kind,
        tokens[pos + k].text == spelled[k].text,
{
    assert(pieces(tokens).subrange(pos, pos + spelled.len())[k] == spelled[k]);
}

/// The words of the grammar differ from each other.
pub proof fn lemma_words_differ()
    ensures
        scalar_type("uuid"@) == Some(FieldType::UUID),
        scalar_type("string"@) == Some(FieldType::String),
        scalar_type("int"@) == Some(FieldType::Int),
        scalar_type("decimal"@) == Some(FieldType::Decimal),
        scalar_type("bool"@) == Some(FieldType::Bool),
        scalar_type("timestamp"@) == Some(FieldType::Timestamp),
        scalar_type("float"@) == Some(FieldType::Float),
        scalar_type("vector"@) is None,
        "uuid"@ != "vector"@,
        "string"@ != "vector"@,
        "int"@ != "vector"@,
        "decimal"@ != "vector"@,
        "bool"@ != "vector"@,
        "timestamp"@ != "vector"@,
        "float"@ != "vector"@,
{
    reveal_strlit("uuid");
    reveal_strlit("string");
    reveal_strlit("int");
    reveal_strlit("decimal");
    reveal_strlit("bool");
    reveal_strlit("timestamp");
    reveal_strlit("float");
    reveal_strlit("vector");
    assert("uuid"@.len() == 4 && "uuid"@[0] == 'u');
    assert("string"@.len() == 6 && "string"@[0] == 's');
    assert("int"@.len() == 3);
    assert("decimal"@.len() == 7);
    assert("bool"@.len() == 4 && "bool"@[0] == 'b');
    assert("timestamp"@.len() == 9);
    assert("float"@.len() == 5);
    assert("vector"@.len() == 6 && "vector"@[0] == 'v');
}

/// A number written in decimal notation is read as that number.
pub proof fn lemma_decimal_is_read(n: nat)
    ensures
        number_value(decimal(n)) == n,
    decreases n,
{
    if n < 10 {
        assert(decimal(n).drop_last() =~= Seq::<char>::empty());
        assert(number_value(decimal(n).drop_last()) == 0);
    } else {
        lemma_decimal_is_read(n / 10);
        assert(decimal(n).drop_last() =~= decimal(n / 10));
    }
}

/// A type that is spelled out is read as that type.
pub proof fn lemma_type_is_read(tokens: Seq<TokenModel>, pos: int, field_type: FieldType)
    requires
        spells(tokens, pos, spell_type(field_type)),
    ensures
        parse_type(tokens, pos) matches Ok((found, next)) && found == field_type && next == pos
            + spell_type(field_type).len(),
    decreases field_type,
{
    lemma_words_differ();
    lemma_spelled_piece(tokens, pos, spell_type(field_type), 0);
    match field_type {
        FieldType::Vector(dimension) => {
            lemma_spelled_piece(tokens, pos, spell_type(field_type), 1);
            lemma_spelled_piece(tokens, pos, spell_type(field_type), 2);
            lemma_spelled_piece(tokens, pos, spell_type(field_type), 3);
            lemma_decimal_is_read(dimension as nat);
        },
        FieldType::Array(element) => {
            let inner = spell_type(*element);
            lemma_spells_both(tokens, pos, seq![left_bracket()] + inner, seq![right_bracket()]);
            lemma_spells_both(tokens, pos, seq![left_bracket()], inner);
            lemma_type_is_read(tokens, pos + 1, *element);
            lemma_spelled_piece(tokens, pos + 1 + inner.len(), seq![right_bracket()], 0);
        },
        _ => {},
    }
}

/// A default value with its keyword, spelled out.
pub open spec fn spell_default(value: DefaultModel) -> Seq<Piece> {
    match value {
        DefaultModel::Now => seq![
            word("default"@),
            left_paren(),
            word("now"@),
            left_paren(),
            right_paren(),
            right_paren(),
        ],
        DefaultModel::UUIDv4 => seq![
            word("default"@),
            left_paren(),
            word("uuid_v4"@),
            left_paren(),
            right_paren(),
            right_paren(),
        ],
        DefaultModel::Literal(text) => seq![
            word("default"@),
            left_paren(),
            Piece { kind: TokenKind::Text, text: seq!['"'] + text + seq!['"'] },
            right_paren(),
        ],
    }
}

/// An annotation, spelled out. The primary store has no annotation of its own.
pub open spec fn spell_annotation(annotation: BackendAnnotation) -> Piece {
    Piece {
        kind: TokenKind::Annotation,
        text: match annotation {
            BackendAnnotation::OLTP => "@oltp"@,
            BackendAnnotation::Cache => "@cache"@,
            BackendAnnotation::OLAP => "@olap"@,
            BackendAnnotation::Vector => "@vector"@,
            BackendAnnotation::ML => "@ml"@,
        },
    }
}

/// The word `text` if `present`, else nothing.
pub open spec fn spell_flag(present: bool, text: Seq<char>) -> Seq<Piece> {
    if present {
        seq![word(text)]
    } else {
        Seq::empty()
    }
}

/// A default value if there is one, else nothing.
pub open spec fn spell_default_if(value: Option<DefaultModel>) -> Seq<Piece> {
    match value {
        Some(value) => spell_default(value),
        None => Seq::empty(),
    }
}

/// An annotation if there is one, else nothing.
pub open spec fn spell_annotation_if(annotation: Option<BackendAnnotation>) -> Seq<Piece> {
    match annotation {
        Some(annotation) => seq![spell_annotation(annotation)],
        None => Seq::empty(),
    }
}

/// What follows the type of a field, spelled out: `primary`, `unique`,
/// `nullable`, the default value and the annotation, as far as the field has them.
pub open spec fn spell_tail(field: FieldModel) -> Seq<Piece> {
    spell_flag(field.primary_key, "primary"@) + (spell_flag(field.unique, "unique"@) + (spell_flag(
        field.nullable,
        "nullable"@,
    ) + (spell_default_if(field.default) + spell_annotation_if(field.backend))))
}

/// A field, spelled out.
pub open spec fn spell_field(field: FieldModel) -> Seq<Piece> {
    seq![word(field.name), colon()] + (spell_type(field.field_type) + spell_tail(field))
}

/// Whether the token at `pos` ends an item.
pub open spec fn item_ends(tokens: Seq<TokenModel>, pos: int) -> bool {
    has_kind(tokens, pos, TokenKind::Comma) || has_kind(tokens, pos, TokenKind::RightBrace)
}

/// The words for modifiers and default values differ from each other.
pub proof fn lemma_modifiers_differ()
    ensures
        "primary"@ != "unique"@,
        "primary"@ != "nullable"@,
        "primary"@ != "default"@,
        "unique"@ != "nullable"@,
        "unique"@ != "default"@,
        "nullable"@ != "default"@,
        "now"@ != "uuid_v4"@,
        annotation_of("@cache"@) == Some(BackendAnnotation::Cache),
        annotation_of("@olap"@) == Some(BackendAnnotation::OLAP),
        annotation_of("@vector"@) == Some(BackendAnnotation::Vector),
        annotation_of("@ml"@) == Some(BackendAnnotation::ML),
{
    reveal_strlit("primary");
    reveal_strlit("unique");
    reveal_strlit("nullable");
    reveal_strlit("default");
    reveal_strlit("now");
    reveal_strlit("uuid_v4");
    reveal_strlit("@cache");
    reveal_strlit("@olap");
    reveal_strlit("@vector");
    reveal_strlit("@ml");
    assert("primary"@.len() == 7 && "primary"@[0] == 'p');
    assert("unique"@.len() == 6);
    assert("nullable"@.len() == 8);
    assert("default"@.len() == 7 && "default"@[0] == 'd');
    assert("now"@.len() == 3);
    assert("uuid_v4"@.len() == 7);
    assert("@cache"@.len() == 6);
    assert("@olap"@.len() == 5);
    assert("@vector"@.len() == 7);
    assert("@ml"@.len() == 3);
}

/// Reading a flag that is spelled out sets it; where none is spelled, nothing is read.
proof fn lemma_flag_is_read(
    tokens: Seq<TokenModel>,
    pos: int,
    which: nat,
    present: bool,
    rest: Seq<Piece>,
    field: FieldModel,
)
    requires
        which < 3,
        spells(
            tokens,
            pos,
            spell_flag(
                present,
                if which == 0 {
                    "primary"@
                } else if which == 1 {
                    "unique"@
                } else {
                    "nullable"@
                },
            ) + rest,
        ),
    ensures
        parse_field_tail(tokens, pos, field) == parse_field_tail(
            tokens,
            if present {
                pos + 1
            } else {
                pos
            },
            if !present {
                field
            } else if which == 0 {
                FieldModel { primary_key: true, ..field }
            } else if which == 1 {
                FieldModel { unique: true, ..field }
            } else {
                FieldModel { nullable: true, ..field }
            },
        ),
{
    lemma_modifiers_differ();
    if present {
        let text = if which == 0 {
            "primary"@
        } else if which == 1 {
            "unique"@
        } else {
            "nullable"@
        };
        lemma_spells_both(tokens, pos, spell_flag(present, text), rest);
        lemma_spelled_piece(tokens, pos, spell_flag(present, text), 0);
        assert(has_word(tokens, pos, text));
    }
}

/// Reading a default value that is spelled out sets it; where none is spelled, nothing is read.
proof fn lemma_default_is_read(
    tokens: Seq<TokenModel>,
    pos: int,
    value: Option<DefaultModel>,
    rest: Seq<Piece>,
    field: FieldModel,
)
    requires
        spells(tokens, pos, spell_default_if(value) + rest),
    ensures
        parse_field_tail(tokens, pos, field) == parse_field_tail(
            tokens,
            pos + spell_default_if(value).len(),
            match value {
                Some(value) => FieldModel { default: Some(value), ..field },
                None => field,
            },
        ),
{
    lemma_modifiers_differ();
    match value {
        None => {},
        Some(value) => {
            let spelled = spell_default(value);
            lemma_spells_both(tokens, pos, spelled, rest);
            lemma_spelled_piece(tokens, pos, spelled, 0);
            lemma_spelled_piece(tokens, pos, spelled, 1);
            lemma_spelled_piece(tokens, pos, spelled, 2);
            lemma_spelled_piece(tokens, pos, spelled, 3);
            assert(has_word(tokens, pos, "default"@));
            match value {
                DefaultModel::Literal(text) => {
                    let quoted = seq!['"'] + text + seq!['"'];
                    assert(unquoted(quoted) =~= text);
                },
                _ => {
                    lemma_spelled_piece(tokens, pos, spelled, 4);
                    lemma_spelled_piece(tokens, pos, spelled, 5);
                },
            }
            assert(parse_default(tokens, pos + 1) matches Ok((found, next)) && found == value
                && next == pos + spelled.len());
        },
    }
}

/// What follows a field's type, spelled out and followed by the end of the
/// item, is read as it was written.
pub proof fn lemma_tail_is_read(tokens: Seq<TokenModel>, pos: int, field: FieldModel)
    requires
        spells(tokens, pos, spell_tail(field)),
        item_ends(tokens, pos + spell_tail(field).len()),
        field.backend != Some(BackendAnnotation::OLTP),
    ensures
        parse_field_tail(tokens, pos, bare_field(field.name, field.field_type)) matches Ok(
            (found, next),
        ) && found == field && next == pos + spell_tail(field).len(),
{
    lemma_modifiers_differ();
    let primary = spell_flag(field.primary_key, "primary"@);
    let unique = spell_flag(field.unique, "unique"@);
    let nullable = spell_flag(field.nullable, "nullable"@);
    let default = spell_default_if(field.default);
    let annotation = spell_annotation_if(field.backend);
    let start = bare_field(field.name, field.field_type);

    let after_primary = unique + (nullable + (default + annotation));
    lemma_flag_is_read(tokens, pos, 0, field.primary_key, after_primary, start);
    lemma_spells_both(tokens, pos, primary, after_primary);
    let at_unique = pos + primary.len();
    let with_primary = FieldModel { primary_key: field.primary_key, ..start };

    let after_unique = nullable + (default + annotation);
    lemma_flag_is_read(tokens, at_unique, 1, field.unique, after_unique, with_primary);
    lemma_spells_both(tokens, at_unique, unique, after_unique);
    let at_nullable = at_unique + unique.len();
    let with_unique = FieldModel { unique: field.unique, ..with_primary };

    let after_nullable = default + annotation;
    lemma_flag_is_read(tokens, at_nullable, 2, field.nullable, after_nullable, with_unique);
    lemma_spells_both(tokens, at_nullable, nullable, after_nullable);
    let at_default = at_nullable + nullable.len();
    let with_nullable = FieldModel { nullable: field.nullable, ..with_unique };

    lemma_default_is_read(tokens, at_default, field.default, annotation, with_nullable);
    lemma_spells_both(tokens, at_default, default, annotation);
    let at_annotation = at_default + default.len();
    let with_default = FieldModel { default: field.default, ..with_nullable };

    match field.backend {
        Some(backend) => {
            lemma_spelled_piece(tokens, at_annotation, annotation, 0);
        },
        None => {},
    }
    assert(parse_field_tail(tokens, at_annotation, with_default) matches Ok((found, next))
        && found == field && next == at_annotation + annotation.len());
}

/// Whether a relation can be written: it is a has-many relation with a
/// foreign key or a belongs-to relation without one, it goes through no
/// other entity, and the name of its target begins no type.
pub open spec fn relation_writable(relation: RelationModel) -> bool {
    &&& relation.through is None
    &&& !begins_type(relation.target_entity)
    &&& (relation.kind == RelationKind::HasMany && relation.foreign_key is Some) || (relation.kind
        == RelationKind::BelongsTo && relation.foreign_key is None)
}

/// A relation, spelled out.
pub open spec fn spell_relation(relation: RelationModel) -> Seq<Piece> {
    if relation.kind == RelationKind::HasMany {
        seq![
            word(relation.name),
            colon(),
            left_bracket(),
            word(relation.target_entity),
            right_bracket(),
            word("via"@),
            word(relation.foreign_key->0),
        ]
    } else {
        seq![word(relation.name), colon(), word(relation.target_entity)]
    }
}

/// Whether an item can be written: a field must not be annotated with the
/// primary store, a relation must be writable.
pub open spec fn item_writable(item: EntityItemModel) -> bool {
    match item {
        EntityItemModel::Field(field) => field.backend != Some(BackendAnnotation::OLTP),
        EntityItemModel::Relation(relation) => relation_writable(relation),
    }
}

/// An item, spelled out.
pub open spec fn spell_item(item: EntityItemModel) -> Seq<Piece> {
    match item {
        EntityItemModel::Field(field) => spell_field(field),
        EntityItemModel::Relation(relation) => spell_relation(relation),
    }
}

/// An item that is spelled out and followed by the end of the item is read as it was written.
pub proof fn lemma_item_is_read(tokens: Seq<TokenModel>, pos: int, item: EntityItemModel)
    requires
        item_writable(item),
        spells(tokens, pos, spell_item(item)),
        item_ends(tokens, pos + spell_item(item).len()),
    ensures
        parse_item(tokens, pos) matches Ok((found, next)) && found == item && next == pos
            + spell_item(item).len(),
{
    lemma_words_differ();
    let spelled = spell_item(item);
    match item {
        EntityItemModel::Relation(relation) => {
            lemma_spelled_piece(tokens, pos, spelled, 0);
            lemma_spelled_piece(tokens, pos, spelled, 1);
            lemma_spelled_piece(tokens, pos, spelled, 2);
            if relation.kind == RelationKind::HasMany {
                lemma_spelled_piece(tokens, pos, spelled, 3);
                lemma_spelled_piece(tokens, pos, spelled, 4);
                lemma_spelled_piece(tokens, pos, spelled, 5);
                lemma_spelled_piece(tokens, pos, spelled, 6);
            }
        },
        EntityItemModel::Field(field) => {
            let head = seq![word(field.name), colon()];
            let written = spell_type(field.field_type);
            lemma_spells_both(tokens, pos, head, written + spell_tail(field));
            lemma_spells_both(tokens, pos + 2, written, spell_tail(field));
            lemma_spelled_piece(tokens, pos, head, 0);
            lemma_spelled_piece(tokens, pos, head, 1);
            lemma_type_is_read(tokens, pos + 2, field.field_type);
            lemma_tail_is_read(tokens, pos + 2 + written.len(), field);
            lemma_spelled_piece(tokens, pos + 2, written, 0);
            match field.field_type {
                FieldType::Array(element) => {
                    let inner = spell_type(*element);
                    lemma_spells_both(
                        tokens,
                        pos + 2,
                        seq![left_bracket()] + inner,
                        seq![right_bracket()],
                    );
                    lemma_spells_both(tokens, pos + 2, seq![left_bracket()], inner);
                    lemma_spelled_piece(tokens, pos + 3, inner, 0);
                    match *element {
                        FieldType::Array(_) => {
                            assert(inner[0] == left_bracket());
                        },
                        _ => {
                            assert(inner[0].kind == TokenKind::Word && begins_type(inner[0].text));
                        },
                    }
                },
                _ => {
                    assert(begins_type(written[0].text));
                },
            }
        },
    }
}

/// The items of a body up to and with the closing brace, spelled out with commas between them.
pub open spec fn spell_body(items: Seq<EntityItemModel>) -> Seq<Piece>
    decreases items.len(),
{
    if items.len() == 0 {
        seq![right_brace()]
    } else if items.len() == 1 {
        spell_item(items[0]) + seq![right_brace()]
    } else {
        spell_item(items[0]) + (seq![comma()] + spell_body(items.drop_first()))
    }
}

/// The entity with all of `items` behind the items it has.
pub open spec fn with_items(entity: EntityModel, items: Seq<EntityItemModel>) -> EntityModel
    decreases items.len(),
{
    if items.len() == 0 {
        entity
    } else {
        with_items(with_item(entity, items[0]), items.drop_first())
    }
}

/// An item begins with its name, a word.
proof fn lemma_item_begins_with_word(item: EntityItemModel)
    ensures
        spell_item(item).len() >= 3,
        spell_item(item)[0].kind == TokenKind::Word,
{
}

/// A body that is spelled out is read as it was written.
pub proof fn lemma_body_is_read(
    tokens: Seq<TokenModel>,
    pos: int,
    items: Seq<EntityItemModel>,
    entity: EntityModel,
)
    requires
        forall|k: int| 0 <= k < items.len() ==> item_writable(#[trigger] items[k]),
        spells(tokens, pos, spell_body(items)),
    ensures
        parse_items(tokens, pos, entity) matches Ok((found, next)) && found == with_items(
            entity,
            items,
        ) && next == pos + spell_body(items).len(),
    decreases items.len(),
{
    if items.len() == 0 {
        lemma_spelled_piece(tokens, pos, spell_body(items), 0);
        assert(has_kind(tokens, pos, TokenKind::RightBrace));
    } else {
        let first = spell_item(items[0]);
        lemma_item_begins_with_word(items[0]);
        if items.len() == 1 {
            lemma_spells_both(tokens, pos, first, seq![right_brace()]);
            lemma_spelled_piece(tokens, pos + first.len(), seq![right_brace()], 0);
            lemma_spelled_piece(tokens, pos, first, 0);
            assert(has_kind(tokens, pos, TokenKind::Word));
            assert(has_kind(tokens, pos + first.len(), TokenKind::RightBrace));
            lemma_item_is_read(tokens, pos, items[0]);
            assert(items.drop_first().len() == 0);
            assert(with_items(with_item(entity, items[0]), items.drop_first()) == with_item(
                entity,
                items[0],
            ));
        } else {
            let rest = spell_body(items.drop_first());
            lemma_spells_both(tokens, pos, first, seq![comma()] + rest);
            lemma_spells_both(tokens, pos + first.len(), seq![comma()], rest);
            lemma_spelled_piece(tokens, pos + first.len(), seq![comma()], 0);
            lemma_spelled_piece(tokens, pos, first, 0);
            assert(has_kind(tokens, pos, TokenKind::Word));
            assert(has_kind(tokens, pos + first.len(), TokenKind::Comma));
            lemma_item_is_read(tokens, pos, items[0]);
            assert forall|k: int| 0 <= k < items.drop_first().len() implies item_writable(
                #[trigger] items.drop_first()[k],
            ) by {
                assert(items.drop_first()[k] == items[k + 1]);
            }
            lemma_body_is_read(
                tokens,
                pos + first.len() + 1,
                items.drop_first(),
                with_item(entity, items[0]),
            );
        }
    }
}

/// The items of an entity: its fields, then its relations.
pub open spec fn items_of(entity: EntityModel) -> Seq<EntityItemModel> {
    Seq::new(entity.fields.len(), |i: int| EntityItemModel::Field(entity.fields[i])) + Seq::new(
        entity.relations.len(),
        |i: int| EntityItemModel::Relation(entity.relations[i]),
    )
}

/// Adding fields one by one adds them all, in order.
proof fn lemma_with_fields(entity: EntityModel, fields: Seq<FieldModel>, rest: Seq<EntityItemModel>)
    ensures
        with_items(entity, Seq::new(fields.len(), |i: int| EntityItemModel::Field(fields[i])) + rest)
            == with_items(EntityModel { fields: entity.fields + fields, ..entity }, rest),
    decreases fields.len(),
{
    let items = Seq::new(fields.len(), |i: int| EntityItemModel::Field(fields[i])) + rest;
    if fields.len() == 0 {
        assert(items =~= rest);
        assert(entity.fields + fields =~= entity.fields);
    } else {
        let tail = fields.drop_first();
        assert(items.drop_first() =~= Seq::new(
            tail.len(),
            |i: int| EntityItemModel::Field(tail[i]),
        ) + rest);
        assert(items[0] == EntityItemModel::Field(fields[0]));
        lemma_with_fields(with_item(entity, items[0]), tail, rest);
        assert(entity.fields.push(fields[0]) + tail =~= entity.fields + fields);
    }
}

/// Adding relations one by one adds them all, in order.
proof fn lemma_with_relations(entity: EntityModel, relations: Seq<RelationModel>)
    ensures
        with_items(
            entity,
            Seq::new(relations.len(), |i: int| EntityItemModel::Relation(relations[i])),
        ) == (EntityModel { relations: entity.relations + relations, ..entity }),
    decreases relations.len(),
{
    let items = Seq::new(relations.len(), |i: int| EntityItemModel::Relation(relations[i]));
    if relations.len() == 0 {
        assert(entity.relations + relations =~= entity.relations);
    } else {
        let tail = relations.drop_first();
        assert(items.drop_first() =~= Seq::new(
            tail.len(),
            |i: int| EntityItemModel::Relation(tail[i]),
        ));
        assert(items[0] == EntityItemModel::Relation(relations[0]));
        lemma_with_relations(with_item(entity, items[0]), tail);
        assert(entity.relations.push(relations[0]) + tail =~= entity.relations + relations);
    }
}

/// Whether an entity can be written: all its items can.
pub open spec fn entity_writable(entity: EntityModel) -> bool {
    &&& forall|i: int|
        0 <= i < entity.fields.len() ==> (#[trigger] entity.fields[i]).backend != Some(
            BackendAnnotation::OLTP,
        )
    &&& forall|i: int|
        0 <= i < entity.relations.len() ==> relation_writable(#[trigger] entity.relations[i])
}

/// An entity, spelled out.
pub open spec fn spell_entity(entity: EntityModel) -> Seq<Piece> {
    seq![word("entity"@), word(entity.name), left_brace()] + spell_body(items_of(entity))
}

/// The entities of a schema, spelled out one after the other.
pub open spec fn spell_entities(entities: Seq<EntityModel>) -> Seq<Piece>
    decreases entities.len(),
{
    if entities.len() == 0 {
        Seq::empty()
    } else {
        spell_entity(entities[0]) + spell_entities(entities.drop_first())
    }
}

/// Entities that are spelled out, with nothing behind them, are read as they were written.
pub proof fn lemma_entities_are_read(
    tokens: Seq<TokenModel>,
    pos: int,
    entities: Seq<EntityModel>,
    before: Seq<EntityModel>,
)
    requires
        forall|k: int| 0 <= k < entities.len() ==> entity_writable(#[trigger] entities[k]),
        spells(tokens, pos, spell_entities(entities)),
        pos + spell_entities(entities).len() == tokens.len(),
    ensures
        parse_entities(tokens, pos, before) == Ok::<SchemaModel, SyntaxErrorModel>(
            SchemaModel { entities: before + entities },
        ),
    decreases entities.len(),
{
    if entities.len() == 0 {
        assert(before + entities =~= before);
    } else {
        let entity = entities[0];
        let head = seq![word("entity"@), word(entity.name), left_brace()];
        let body = spell_body(items_of(entity));
        let rest = spell_entities(entities.drop_first());
        lemma_spells_both(tokens, pos, spell_entity(entity), rest);
        lemma_spells_both(tokens, pos, head, body);
        lemma_spelled_piece(tokens, pos, head, 0);
        lemma_spelled_piece(tokens, pos, head, 1);
        lemma_spelled_piece(tokens, pos, head, 2);
        let empty = EntityModel {
            name: entity.name,
            fields: Seq::empty(),
            relations: Seq::empty(),
        };
        assert forall|k: int| 0 <= k < items_of(entity).len() implies item_writable(
            #[trigger] items_of(entity)[k],
        ) by {
            if k < entity.fields.len() {
                assert(items_of(entity)[k] == EntityItemModel::Field(entity.fields[k]));
            } else {
                assert(items_of(entity)[k] == EntityItemModel::Relation(
                    entity.relations[k - entity.fields.len()],
                ));
            }
        }
        lemma_body_is_read(tokens, pos + 3, items_of(entity), empty);
        lemma_with_fields(
            empty,
            entity.fields,
            Seq::new(entity.relations.len(), |i: int| EntityItemModel::Relation(entity.relations[i])),
        );
        let filled = EntityModel { fields: empty.fields + entity.fields, ..empty };
        lemma_with_relations(filled, entity.relations);
        assert(empty.fields + entity.fields =~= entity.fields);
        assert(filled.relations + entity.relations =~= entity.relations);
        assert(with_items(empty, items_of(entity)) == entity);
        assert forall|k: int| 0 <= k < entities.drop_first().len() implies entity_writable(
            #[trigger] entities.drop_first()[k],
        ) by {
            assert(entities.drop_first()[k] == entities[k + 1]);
        }
        lemma_entities_are_read(
            tokens,
            pos + spell_entity(entity).len(),
            entities.drop_first(),
            before.push(entity),
        );
        assert(before.push(entity) + entities.drop_first() =~= before + entities);
    }
}

/// Whether a schema can be written in the language: no field is annotated
/// with the primary store, and every relation is a has-many relation with a
/// foreign key or a belongs-to relation without one, goes through no other
/// entity, and has a target whose name begins no type.
pub open spec fn writable(schema: SchemaModel) -> bool {
    forall|k: int| 0 <= k < schema.entities.len() ==> entity_writable(#[trigger] schema.entities[k])
}

/// A schema, spelled out.
pub open spec fn spell_schema(schema: SchemaModel) -> Seq<Piece> {
    spell_entities(schema.entities)
}

/// Reading back what is written: tokens that spell out a writable schema are
/// read as that schema, wherever in a text they stand.
pub proof fn lemma_spelled_schema_is_read(schema: SchemaModel, tokens: Seq<TokenModel>)
    requires
        writable(schema),
        pieces(tokens) == spell_schema(schema),
    ensures
        parse_tokens(tokens) == Ok::<SchemaModel, SyntaxErrorModel>(schema),
{
    assert(pieces(tokens).subrange(0, tokens.len() as int) =~= pieces(tokens));
    lemma_entities_are_read(tokens, 0, schema.entities, Seq::empty());
    assert(Seq::<EntityModel>::empty() + schema.entities =~= schema.entities);
}

} // verus!

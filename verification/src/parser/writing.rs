//! Writing tokens down as text, and reading them back.

use crate::ast::{
    BackendAnnotation, DefaultModel, EntityItemModel, EntityModel, FieldModel, FieldType,
    SchemaModel,
};
use crate::error::ParseErrorModel;
use crate::parser::diagnostics::is_whitespace;
use crate::parser::lexer::{
    digit_run, is_decimal_digit, is_word_char, is_word_start, lex, lex_from, punctuation,
    quoted_run, token_at, word_run, TokenKind, TokenModel,
};
use crate::parser::parse_outcome;
use crate::parser::spelling::{
    colon, comma, entity_writable, items_of, left_brace, left_bracket, left_paren,
    lemma_spelled_schema_is_read, pieces, relation_writable, right_brace, right_bracket,
    right_paren, spell_annotation, spell_annotation_if, spell_body, spell_default_if,
    spell_entities, spell_entity, spell_flag, spell_item, spell_schema, spell_tail, spell_type,
    word, writable, Piece,
};
use crate::text::{byte_length, decimal, digit};
use vstd::prelude::*;

verus! {

/// Whether the first `upto` characters of `text` from `from` on are word characters.
pub open spec fn word_chars(text: Seq<char>, from: int, upto: int) -> bool
    decreases upto - from,
{
    from >= upto || (is_word_char(text[upto - 1]) && word_chars(text, from, upto - 1))
}

/// Whether the first `upto` characters of `text` from `from` on are digits.
pub open spec fn digit_chars(text: Seq<char>, from: int, upto: int) -> bool
    decreases upto - from,
{
    from >= upto || (is_decimal_digit(text[upto - 1]) && digit_chars(text, from, upto - 1))
}

/// Whether none of the characters of `text` from `from` up to `upto` is a double quote.
pub open spec fn plain_chars(text: Seq<char>, from: int, upto: int) -> bool
    decreases upto - from,
{
    from >= upto || (text[upto - 1] != '"' && plain_chars(text, from, upto - 1))
}

/// Whether the characters of a piece make one token of its kind.
pub open spec fn well_formed(piece: Piece) -> bool {
    let text = piece.text;
    match piece.kind {
        TokenKind::Word => text.len() >= 1 && is_word_start(text[0]) && word_chars(
            text,
            1,
            text.len() as int,
        ),
        TokenKind::Number => text.len() >= 1 && digit_chars(text, 0, text.len() as int),
        TokenKind::Annotation => text.len() >= 1 && text[0] == '@' && word_chars(
            text,
            1,
            text.len() as int,
        ),
        TokenKind::Text => text.len() >= 2 && text[0] == '"' && text.last() == '"' && plain_chars(
            text,
            1,
            text.len() - 1,
        ),
        kind => text.len() == 1 && punctuation(text[0]) == Some(kind),
    }
}

/// The pieces as text: each piece with a blank behind it.
pub open spec fn write(spelled: Seq<Piece>) -> Seq<char>
    decreases spelled.len(),
{
    if spelled.len() == 0 {
        Seq::empty()
    } else {
        spelled[0].text + seq![' '] + write(spelled.drop_first())
    }
}

/// A row of word characters that ends before a character of another kind is a run of its length.
proof fn lemma_word_run(s: Seq<char>, from: int, upto: int)
    requires
        0 <= from <= upto <= s.len(),
        word_chars(s, from, upto),
        upto == s.len() || !is_word_char(s[upto]),
    ensures
        word_run(s, from) == upto - from,
    decreases upto - from,
{
    if from < upto {
        lemma_word_chars_from(s, from, upto);
        lemma_word_run(s, from + 1, upto);
    }
}

/// Of a row of word characters the first is one, and the others are a row.
proof fn lemma_word_chars_from(s: Seq<char>, from: int, upto: int)
    requires
        from < upto,
        word_chars(s, from, upto),
    ensures
        is_word_char(s[from]),
        word_chars(s, from + 1, upto),
    decreases upto - from,
{
    if from < upto - 1 {
        lemma_word_chars_from(s, from, upto - 1);
    }
}

/// A row of digits that ends before a character of another kind is a run of its length.
proof fn lemma_digit_run(s: Seq<char>, from: int, upto: int)
    requires
        0 <= from <= upto <= s.len(),
        digit_chars(s, from, upto),
        upto == s.len() || !is_decimal_digit(s[upto]),
    ensures
        digit_run(s, from) == upto - from,
    decreases upto - from,
{
    if from < upto {
        lemma_digit_chars_from(s, from, upto);
        lemma_digit_run(s, from + 1, upto);
    }
}

/// Of a row of digits the first is one, and the others are a row.
proof fn lemma_digit_chars_from(s: Seq<char>, from: int, upto: int)
    requires
        from < upto,
        digit_chars(s, from, upto),
    ensures
        is_decimal_digit(s[from]),
        digit_chars(s, from + 1, upto),
    decreases upto - from,
{
    if from < upto - 1 {
        lemma_digit_chars_from(s, from, upto - 1);
    }
}

/// A row of characters other than the double quote that ends before one is a run of its length.
proof fn lemma_quoted_run(s: Seq<char>, from: int, upto: int)
    requires
        0 <= from <= upto < s.len(),
        plain_chars(s, from, upto),
        s[upto] == '"',
    ensures
        quoted_run(s, from) == upto - from,
    decreases upto - from,
{
    if from < upto {
        lemma_plain_chars_from(s, from, upto);
        lemma_quoted_run(s, from + 1, upto);
    }
}

/// Of a row of characters other than the double quote the first is one, and the others are a row.
proof fn lemma_plain_chars_from(s: Seq<char>, from: int, upto: int)
    requires
        from < upto,
        plain_chars(s, from, upto),
    ensures
        s[from] != '"',
        plain_chars(s, from + 1, upto),
    decreases upto - from,
{
    if from < upto - 1 {
        lemma_plain_chars_from(s, from, upto - 1);
    }
}

/// What holds of a row of characters of a text holds of the same row within a longer text.
proof fn lemma_chars_carry(text: Seq<char>, s: Seq<char>, pos: int, from: int, upto: int)
    requires
        0 <= pos,
        0 <= from <= upto <= text.len(),
        pos + text.len() <= s.len(),
        s.subrange(pos, pos + text.len()) == text,
    ensures
        word_chars(text, from, upto) ==> word_chars(s, pos + from, pos + upto),
        digit_chars(text, from, upto) ==> digit_chars(s, pos + from, pos + upto),
        plain_chars(text, from, upto) ==> plain_chars(s, pos + from, pos + upto),
    decreases upto - from,
{
    if from < upto {
        assert(s.subrange(pos, pos + text.len())[upto - 1] == s[pos + upto - 1]);
        lemma_chars_carry(text, s, pos, from, upto - 1);
    }
}

/// A well-formed piece that stands at `pos` with a blank behind it is the token that begins there.
proof fn lemma_piece_is_token(s: Seq<char>, pos: int, piece: Piece)
    requires
        well_formed(piece),
        0 <= pos,
        pos + piece.text.len() < s.len(),
        s.subrange(pos, pos + piece.text.len()) == piece.text,
        s[pos + piece.text.len()] == ' ',
    ensures
        !is_whitespace(s[pos]),
        token_at(s, pos) == Some((piece.kind, (piece.text.len() - 1) as nat)),
{
    let text = piece.text;
    let n = text.len() as int;
    assert(s.subrange(pos, pos + n)[0] == s[pos]);
    assert(s.subrange(pos, pos + n)[n - 1] == s[pos + n - 1]);
    match piece.kind {
        TokenKind::Word => {
            lemma_chars_carry(text, s, pos, 1, n);
            lemma_word_run(s, pos + 1, pos + n);
        },
        TokenKind::Number => {
            lemma_chars_carry(text, s, pos, 0, n);
            lemma_digit_chars_from(s, pos, pos + n);
            lemma_digit_run(s, pos + 1, pos + n);
        },
        TokenKind::Annotation => {
            lemma_chars_carry(text, s, pos, 1, n);
            lemma_word_run(s, pos + 1, pos + n);
        },
        TokenKind::Text => {
            lemma_chars_carry(text, s, pos, 1, n - 1);
            lemma_quoted_run(s, pos + 1, pos + n - 1);
        },
        _ => {},
    }
}

/// Well-formed pieces that are written down are read back as tokens with the
/// same pieces, whatever was read before them.
pub proof fn lemma_written_is_lexed(
    s: Seq<char>,
    pos: int,
    spelled: Seq<Piece>,
    before: Seq<TokenModel>,
)
    requires
        0 <= pos <= s.len(),
        s.subrange(pos, s.len() as int) == write(spelled),
        forall|k: int| 0 <= k < spelled.len() ==> well_formed(#[trigger] spelled[k]),
    ensures
        lex_from(s, pos, before) matches Ok(tokens) && pieces(tokens) == pieces(before) + spelled,
    decreases spelled.len(),
{
    let tail = s.subrange(pos, s.len() as int);
    if spelled.len() == 0 {
        assert(tail.len() == 0);
        assert(pieces(before) + spelled =~= pieces(before));
    } else {
        let piece = spelled[0];
        let n = piece.text.len() as int;
        let rest = write(spelled.drop_first());
        assert(tail == piece.text + seq![' '] + rest);
        assert(tail.len() == n + 1 + rest.len());
        assert(s.subrange(pos, pos + n) =~= piece.text) by {
            assert forall|k: int| 0 <= k < n implies s.subrange(pos, pos + n)[k]
                == piece.text[k] by {
                assert(tail[k] == piece.text[k]);
            }
        }
        assert(s[pos + n] == ' ') by {
            assert(tail[n] == ' ');
        }
        lemma_piece_is_token(s, pos, piece);
        let token = TokenModel { kind: piece.kind, text: s.subrange(pos, pos + n), offset: pos };
        assert(s.subrange(pos + n + 1, s.len() as int) =~= rest) by {
            assert forall|k: int| 0 <= k < rest.len() implies s.subrange(
                pos + n + 1,
                s.len() as int,
            )[k] == rest[k] by {
                assert(tail[n + 1 + k] == rest[k]);
            }
        }
        assert forall|k: int| 0 <= k < spelled.drop_first().len() implies well_formed(
            #[trigger] spelled.drop_first()[k],
        ) by {
            assert(spelled.drop_first()[k] == spelled[k + 1]);
        }
        lemma_written_is_lexed(s, pos + n + 1, spelled.drop_first(), before.push(token));
        assert(pieces(before.push(token)) =~= pieces(before).push(piece));
        assert(pieces(before).push(piece) + spelled.drop_first() =~= pieces(before) + spelled);
        assert(is_whitespace(' '));
        assert(lex_from(s, pos + n, before.push(token)) == lex_from(
            s,
            pos + n + 1,
            before.push(token),
        ));
    }
}

/// Writing and reading: the tokens of well-formed pieces written down are these pieces.
pub proof fn lemma_write_then_lex(spelled: Seq<Piece>)
    requires
        forall|k: int| 0 <= k < spelled.len() ==> well_formed(#[trigger] spelled[k]),
    ensures
        lex(write(spelled)) matches Ok(tokens) && pieces(tokens) == spelled,
{
    let s = write(spelled);
    assert(s.subrange(0, s.len() as int) =~= s);
    lemma_written_is_lexed(s, 0, spelled, Seq::empty());
    assert(pieces(Seq::<TokenModel>::empty()) + spelled =~= spelled);
}

/// Whether every piece of a list is well formed.
pub open spec fn all_well_formed(spelled: Seq<Piece>) -> bool {
    forall|k: int| 0 <= k < spelled.len() ==> well_formed(#[trigger] spelled[k])
}

/// Two lists of well-formed pieces make one.
proof fn lemma_both_well_formed(first: Seq<Piece>, second: Seq<Piece>)
    requires
        all_well_formed(first),
        all_well_formed(second),
    ensures
        all_well_formed(first + second),
{
    assert forall|k: int| 0 <= k < (first + second).len() implies well_formed(
        #[trigger] (first + second)[k],
    ) by {
        if k < first.len() {
            assert((first + second)[k] == first[k]);
        } else {
            assert((first + second)[k] == second[k - first.len()]);
        }
    }
}

/// The words and signs of the language are well formed.
proof fn lemma_language_is_well_formed()
    ensures
        well_formed(word("entity"@)),
        well_formed(word("uuid"@)),
        well_formed(word("string"@)),
        well_formed(word("int"@)),
        well_formed(word("decimal"@)),
        well_formed(word("bool"@)),
        well_formed(word("timestamp"@)),
        well_formed(word("float"@)),
        well_formed(word("vector"@)),
        well_formed(word("primary"@)),
        well_formed(word("unique"@)),
        well_formed(word("nullable"@)),
        well_formed(word("default"@)),
        well_formed(word("now"@)),
        well_formed(word("uuid_v4"@)),
        well_formed(word("via"@)),
        well_formed(spell_annotation(BackendAnnotation::Cache)),
        well_formed(spell_annotation(BackendAnnotation::OLAP)),
        well_formed(spell_annotation(BackendAnnotation::Vector)),
        well_formed(spell_annotation(BackendAnnotation::ML)),
        well_formed(left_brace()),
        well_formed(right_brace()),
        well_formed(left_paren()),
        well_formed(right_paren()),
        well_formed(left_bracket()),
        well_formed(right_bracket()),
        well_formed(colon()),
        well_formed(comma()),
{
    reveal_with_fuel(word_chars, 10);
    reveal_strlit("entity");
    reveal_strlit("uuid");
    reveal_strlit("string");
    reveal_strlit("int");
    reveal_strlit("decimal");
    reveal_strlit("bool");
    reveal_strlit("timestamp");
    reveal_strlit("float");
    reveal_strlit("vector");
    reveal_strlit("primary");
    reveal_strlit("unique");
    reveal_strlit("nullable");
    reveal_strlit("default");
    reveal_strlit("now");
    reveal_strlit("uuid_v4");
    reveal_strlit("via");
    reveal_strlit("@cache");
    reveal_strlit("@olap");
    reveal_strlit("@vector");
    reveal_strlit("@ml");
    reveal_strlit("{");
    reveal_strlit("}");
    reveal_strlit("(");
    reveal_strlit(")");
    reveal_strlit("[");
    reveal_strlit("]");
    reveal_strlit(":");
    reveal_strlit(",");
}

/// A number in decimal notation is a row of digits.
proof fn lemma_decimal_is_digits(n: nat)
    ensures
        decimal(n).len() >= 1,
        digit_chars(decimal(n), 0, decimal(n).len() as int),
    decreases n,
{
    let last = digit(n % 10);
    assert(is_decimal_digit(last)) by {
        assert('0' as int == 48 && '9' as int == 57);
        assert(last as int == 48 + n % 10);
    }
    if n >= 10 {
        lemma_decimal_is_digits(n / 10);
        let head = decimal(n / 10);
        assert(decimal(n) == head.push(last));
        lemma_digits_carry(head, decimal(n), head.len() as int);
        assert(decimal(n)[decimal(n).len() - 1] == last);
    } else {
        assert(decimal(n) == seq![last]);
        assert(decimal(n)[0] == last);
        assert(digit_chars(decimal(n), 0, 0));
    }
}

/// A row of digits at the beginning of a text is one at the beginning of a longer text.
proof fn lemma_digits_carry(head: Seq<char>, whole: Seq<char>, upto: int)
    requires
        0 <= upto <= head.len() <= whole.len(),
        forall|k: int| 0 <= k < head.len() ==> head[k] == whole[k],
        digit_chars(head, 0, upto),
    ensures
        digit_chars(whole, 0, upto),
    decreases upto,
{
    if upto > 0 {
        lemma_digits_carry(head, whole, upto - 1);
    }
}

/// A type is spelled in well-formed pieces.
proof fn lemma_type_is_well_formed(field_type: FieldType)
    ensures
        all_well_formed(spell_type(field_type)),
    decreases field_type,
{
    lemma_language_is_well_formed();
    match field_type {
        FieldType::Vector(dimension) => {
            lemma_decimal_is_digits(dimension as nat);
        },
        FieldType::Array(element) => {
            lemma_type_is_well_formed(*element);
            lemma_both_well_formed(seq![left_bracket()], spell_type(*element));
            lemma_both_well_formed(
                seq![left_bracket()] + spell_type(*element),
                seq![right_bracket()],
            );
        },
        _ => {},
    }
}

/// Whether `text` can stand as a name: it is a word.
pub open spec fn is_name(text: Seq<char>) -> bool {
    well_formed(word(text))
}

/// Whether a default value can be written down: a literal holds no double quote.
pub open spec fn default_plain(value: Option<DefaultModel>) -> bool {
    match value {
        Some(DefaultModel::Literal(text)) => plain_chars(text, 0, text.len() as int),
        _ => true,
    }
}

/// Whether all names of an entity are words, and its default values can be written down.
pub open spec fn entity_nameable(entity: EntityModel) -> bool {
    &&& is_name(entity.name)
    &&& forall|i: int|
        0 <= i < entity.fields.len() ==> is_name((#[trigger] entity.fields[i]).name)
            && default_plain(entity.fields[i].default)
    &&& forall|i: int|
        0 <= i < entity.relations.len() ==> is_name((#[trigger] entity.relations[i]).name)
            && is_name(entity.relations[i].target_entity) && (entity.relations[i].foreign_key
            matches Some(key) ==> is_name(key))
}

/// Whether all names of a schema are words, and its default values can be written down.
pub open spec fn nameable(schema: SchemaModel) -> bool {
    forall|k: int| 0 <= k < schema.entities.len() ==> entity_nameable(#[trigger] schema.entities[k])
}

/// A literal between quotes is a well-formed text.
proof fn lemma_literal_is_well_formed(text: Seq<char>)
    requires
        plain_chars(text, 0, text.len() as int),
    ensures
        well_formed(Piece { kind: TokenKind::Text, text: seq!['"'] + text + seq!['"'] }),
{
    let quoted = seq!['"'] + text + seq!['"'];
    assert(quoted.subrange(1, 1 + text.len() as int) =~= text);
    lemma_chars_carry(text, quoted, 1, 0, text.len() as int);
}

/// What follows the type of a field is spelled in well-formed pieces.
proof fn lemma_tail_is_well_formed(field: FieldModel)
    requires
        field.backend != Some(BackendAnnotation::OLTP),
        default_plain(field.default),
    ensures
        all_well_formed(spell_tail(field)),
{
    lemma_language_is_well_formed();
    let primary = spell_flag(field.primary_key, "primary"@);
    let unique = spell_flag(field.unique, "unique"@);
    let nullable = spell_flag(field.nullable, "nullable"@);
    let default = spell_default_if(field.default);
    let annotation = spell_annotation_if(field.backend);
    match field.default {
        Some(DefaultModel::Literal(text)) => {
            lemma_literal_is_well_formed(text);
        },
        _ => {},
    }
    assert(all_well_formed(default));
    assert(all_well_formed(annotation));
    lemma_both_well_formed(default, annotation);
    lemma_both_well_formed(nullable, default + annotation);
    lemma_both_well_formed(unique, nullable + (default + annotation));
    lemma_both_well_formed(primary, unique + (nullable + (default + annotation)));
}

/// An item is spelled in well-formed pieces.
proof fn lemma_item_is_well_formed(item: EntityItemModel)
    requires
        match item {
            EntityItemModel::Field(field) => field.backend != Some(BackendAnnotation::OLTP)
                && is_name(field.name) && default_plain(field.default),
            EntityItemModel::Relation(relation) => relation_writable(relation) && is_name(
                relation.name,
            ) && is_name(relation.target_entity) && (relation.foreign_key matches Some(key)
                ==> is_name(key)),
        },
    ensures
        all_well_formed(spell_item(item)),
{
    lemma_language_is_well_formed();
    match item {
        EntityItemModel::Field(field) => {
            lemma_type_is_well_formed(field.field_type);
            lemma_tail_is_well_formed(field);
            lemma_both_well_formed(spell_type(field.field_type), spell_tail(field));
            lemma_both_well_formed(
                seq![word(field.name), colon()],
                spell_type(field.field_type) + spell_tail(field),
            );
        },
        EntityItemModel::Relation(relation) => {},
    }
}

/// A body is spelled in well-formed pieces.
proof fn lemma_body_is_well_formed(items: Seq<EntityItemModel>)
    requires
        forall|k: int| 0 <= k < items.len() ==> all_well_formed(spell_item(#[trigger] items[k])),
    ensures
        all_well_formed(spell_body(items)),
    decreases items.len(),
{
    lemma_language_is_well_formed();
    if items.len() == 0 {
    } else if items.len() == 1 {
        lemma_both_well_formed(spell_item(items[0]), seq![right_brace()]);
    } else {
        assert forall|k: int| 0 <= k < items.drop_first().len() implies all_well_formed(
            spell_item(#[trigger] items.drop_first()[k]),
        ) by {
            assert(items.drop_first()[k] == items[k + 1]);
        }
        lemma_body_is_well_formed(items.drop_first());
        lemma_both_well_formed(seq![comma()], spell_body(items.drop_first()));
        lemma_both_well_formed(spell_item(items[0]), seq![comma()] + spell_body(items.drop_first()));
    }
}

/// An entity is spelled in well-formed pieces.
proof fn lemma_entity_is_well_formed(entity: EntityModel)
    requires
        entity_writable(entity),
        entity_nameable(entity),
    ensures
        all_well_formed(spell_entity(entity)),
{
    lemma_language_is_well_formed();
    let items = items_of(entity);
    assert forall|k: int| 0 <= k < items.len() implies all_well_formed(
        spell_item(#[trigger] items[k]),
    ) by {
        if k < entity.fields.len() {
            assert(items[k] == EntityItemModel::Field(entity.fields[k]));
        } else {
            assert(items[k] == EntityItemModel::Relation(
                entity.relations[k - entity.fields.len()],
            ));
        }
        lemma_item_is_well_formed(items[k]);
    }
    lemma_body_is_well_formed(items);
    lemma_both_well_formed(
        seq![word("entity"@), word(entity.name), left_brace()],
        spell_body(items),
    );
}

/// Entities are spelled in well-formed pieces.
proof fn lemma_entities_are_well_formed(entities: Seq<EntityModel>)
    requires
        forall|k: int|
            0 <= k < entities.len() ==> entity_writable(#[trigger] entities[k]) && entity_nameable(
                entities[k],
            ),
    ensures
        all_well_formed(spell_entities(entities)),
    decreases entities.len(),
{
    if entities.len() > 0 {
        lemma_entity_is_well_formed(entities[0]);
        assert forall|k: int| 0 <= k < entities.drop_first().len() implies entity_writable(
            #[trigger] entities.drop_first()[k],
        ) && entity_nameable(entities.drop_first()[k]) by {
            assert(entities.drop_first()[k] == entities[k + 1]);
        }
        lemma_entities_are_well_formed(entities.drop_first());
        lemma_both_well_formed(spell_entity(entities[0]), spell_entities(entities.drop_first()));
    }
}

/// A schema written down as text: its tokens, each with a blank behind it.
pub open spec fn source_of(schema: SchemaModel) -> Seq<char> {
    write(spell_schema(schema))
}

/// Reading back what is written: a schema that can be written in the
/// language, whose names are words, is what the parser reads from its text,
/// if only the text is not too long for the machine.
pub proof fn lemma_schema_is_read_back(schema: SchemaModel)
    requires
        writable(schema),
        nameable(schema),
        byte_length(source_of(schema)) < usize::MAX,
    ensures
        parse_outcome(source_of(schema)) == Ok::<SchemaModel, ParseErrorModel>(schema),
{
    assert forall|k: int| 0 <= k < schema.entities.len() implies entity_writable(
        #[trigger] schema.entities[k],
    ) && entity_nameable(schema.entities[k]) by {}
    lemma_entities_are_well_formed(schema.entities);
    lemma_write_then_lex(spell_schema(schema));
    let tokens = lex(source_of(schema))->Ok_0;
    lemma_spelled_schema_is_read(schema, tokens);
}

} // verus!

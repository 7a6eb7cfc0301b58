//! From source text to a schema, with diagnostics when the text is no schema.

pub mod diagnostics;
pub mod grammar;
pub mod lexer;
pub mod reader;
pub mod spelling;
pub mod writing;

use crate::ast::{Schema, SchemaModel};
use crate::error::{ChameleonError, ParseErrorDetail, ParseErrorModel};
use crate::parser::diagnostics::{enhance_parse_error, enhanced};
use crate::parser::grammar::{parse_tokens, Expected, SyntaxError, SyntaxErrorModel};
use crate::parser::reader::read_schema;
use crate::parser::lexer::{lex, lex_from, token_at, token_models, tokenize, Token, TokenModel};
use crate::text::{
    byte_length, byte_offset, lemma_byte_length_grows, lemma_byte_length_is_encoded, to_chars,
    to_text,
};
use vstd::prelude::*;
use vstd::string::*;

verus! {

/// What was expected, as the message lists it.
pub open spec fn expected_text(expected: Expected) -> Seq<char> {
    match expected {
        Expected::Entity => "\"entity\""@,
        Expected::Name => "identifier"@,
        Expected::LeftBrace => "\"{\""@,
        Expected::Item => "identifier, \"}\""@,
        Expected::Colon => "\":\""@,
        Expected::ItemBody =>
            "\"uuid\", \"string\", \"int\", \"decimal\", \"bool\", \"timestamp\", \"float\", \"vector\", \"[\", identifier"@,
        Expected::ElementType =>
            "\"uuid\", \"string\", \"int\", \"decimal\", \"bool\", \"timestamp\", \"float\", \"vector\", \"[\""@,
        Expected::RightBracket => "\"]\""@,
        Expected::Via => "\"via\""@,
        Expected::FieldTail =>
            "\"primary\", \"unique\", \"nullable\", \"default\", \"@cache\", \"@olap\", \"@vector\", \"@ml\", \",\", \"}\""@,
        Expected::Separator => "\",\", \"}\""@,
        Expected::LeftParen => "\"(\""@,
        Expected::RightParen => "\")\""@,
        Expected::Dimension => "number"@,
        Expected::DefaultValue => "\"now\", \"uuid_v4\", text, number"@,
        Expected::Annotation => "\"@cache\", \"@olap\", \"@vector\", \"@ml\""@,
    }
}

/// The error for the character `at` of `source`, at which no token begins.
/// Line 1 with the byte offset of the character, counted from 1, as column
/// says where it stands.
pub open spec fn invalid_token(source: Seq<char>, at: int) -> ParseErrorModel {
    ParseErrorModel {
        message: "Invalid token"@,
        line: 1,
        column: byte_length(source.take(at)) + 1,
        snippet: None,
        suggestion: None,
        token: Some(source.subrange(at, at + 1)),
    }
}

/// The error for a token that the grammar does not allow where it stands, or
/// for a text that ends too early. Line 1 with the byte offset of the token,
/// or of the end of the text, counted from 1, as column says where it stands.
pub open spec fn unexpected(
    tokens: Seq<TokenModel>,
    source: Seq<char>,
    error: SyntaxErrorModel,
) -> ParseErrorModel {
    if 0 <= error.at < tokens.len() {
        ParseErrorModel {
            message: "Unexpected token `"@ + tokens[error.at].text + "`, expected one of "@
                + expected_text(error.expected),
            line: 1,
            column: byte_length(source.take(tokens[error.at].offset)) + 1,
            snippet: None,
            suggestion: None,
            token: Some(tokens[error.at].text),
        }
    } else {
        ParseErrorModel {
            message: "Unexpected end of file, expected one of "@ + expected_text(error.expected),
            line: 1,
            column: byte_length(source) + 1,
            snippet: None,
            suggestion: None,
            token: None,
        }
    }
}

/// The error for a text of more bytes than can be counted.
pub open spec fn too_long() -> ParseErrorModel {
    ParseErrorModel {
        message: "Input too long"@,
        line: 1,
        column: 1,
        snippet: None,
        suggestion: None,
        token: None,
    }
}

/// What parsing a source text gives: the schema it spells, or the first
/// error in it with its position, snippet and suggestion. A text whose bytes
/// cannot be counted in a `usize` with one to spare is refused as too long.
pub open spec fn parse_outcome(source: Seq<char>) -> Result<SchemaModel, ParseErrorModel> {
    if byte_length(source) >= usize::MAX {
        Err(too_long())
    } else {
        match lex(source) {
            Err(at) => Err(enhanced(invalid_token(source, at), source)),
            Ok(tokens) => match parse_tokens(tokens) {
                Ok(schema) => Ok(schema),
                Err(error) => Err(enhanced(unexpected(tokens, source, error), source)),
            },
        }
    }
}

/// Every token begins within the text.
pub proof fn lemma_lex_offsets(s: Seq<char>, pos: int, tokens: Seq<TokenModel>)
    requires
        forall|i: int| 0 <= i < tokens.len() ==> 0 <= (#[trigger] tokens[i]).offset < s.len(),
    ensures
        lex_from(s, pos, tokens) matches Ok(all) ==> forall|i: int|
            0 <= i < all.len() ==> 0 <= (#[trigger] all[i]).offset < s.len(),
    decreases
        (if pos < s.len() {
            s.len() - pos
        } else {
            0
        }),
{
    if pos < 0 || pos >= s.len() {
    } else if crate::parser::diagnostics::is_whitespace(s[pos]) {
        lemma_lex_offsets(s, pos + 1, tokens);
    } else {
        match token_at(s, pos) {
            None => {},
            Some((kind, more)) => {
                let token = TokenModel { kind, text: s.subrange(pos, pos + 1 + more), offset: pos };
                lemma_lex_offsets(s, pos + 1 + more, tokens.push(token));
            },
        }
    }
}

/// What was expected, as the message lists it.
pub fn expected_list(expected: Expected) -> (r: String)
    ensures
        r@ == expected_text(expected),
{
    match expected {
        Expected::Entity => String::from_str("\"entity\""),
        Expected::Name => String::from_str("identifier"),
        Expected::LeftBrace => String::from_str("\"{\""),
        Expected::Item => String::from_str("identifier, \"}\""),
        Expected::Colon => String::from_str("\":\""),
        Expected::ItemBody => String::from_str(
            "\"uuid\", \"string\", \"int\", \"decimal\", \"bool\", \"timestamp\", \"float\", \"vector\", \"[\", identifier",
        ),
        Expected::ElementType => String::from_str(
            "\"uuid\", \"string\", \"int\", \"decimal\", \"bool\", \"timestamp\", \"float\", \"vector\", \"[\"",
        ),
        Expected::RightBracket => String::from_str("\"]\""),
        Expected::Via => String::from_str("\"via\""),
        Expected::FieldTail => String::from_str(
            "\"primary\", \"unique\", \"nullable\", \"default\", \"@cache\", \"@olap\", \"@vector\", \"@ml\", \",\", \"}\"",
        ),
        Expected::Separator => String::from_str("\",\", \"}\""),
        Expected::LeftParen => String::from_str("\"(\""),
        Expected::RightParen => String::from_str("\")\""),
        Expected::Dimension => String::from_str("number"),
        Expected::DefaultValue => String::from_str("\"now\", \"uuid_v4\", text, number"),
        Expected::Annotation => String::from_str("\"@cache\", \"@olap\", \"@vector\", \"@ml\""),
    }
}

/// The error for a syntax error among the tokens of the text `chars`.
pub fn describe(tokens: &Vec<Token>, chars: &Vec<char>, error: SyntaxError) -> (r: ParseErrorDetail)
    requires
        byte_length(chars@) < usize::MAX,
        forall|i: int| 0 <= i < tokens.len() ==> (#[trigger] tokens[i]).offset < chars.len(),
    ensures
        r@ == unexpected(token_models(tokens@), chars@, error@),
{
    if error.at < tokens.len() {
        let token = &tokens[error.at];
        let mut message = String::from_str("Unexpected token `");
        message.append(token.text.as_str());
        message.append("`, expected one of ");
        message.append(expected_list(error.expected).as_str());
        proof {
            lemma_byte_length_grows(chars@, token.offset as int);
        }
        ParseErrorDetail {
            message,
            line: 1,
            column: byte_offset(chars, token.offset) + 1,
            snippet: None,
            suggestion: None,
            token: Some(token.text.clone()),
        }
    } else {
        let mut message = String::from_str("Unexpected end of file, expected one of ");
        message.append(expected_list(error.expected).as_str());
        assert(chars@.take(chars.len() as int) =~= chars@);
        ParseErrorDetail {
            message,
            line: 1,
            column: byte_offset(chars, chars.len()) + 1,
            snippet: None,
            suggestion: None,
            token: None,
        }
    }
}

/// Parses a schema from source text. A text that is no schema gives the
/// first error in it, with its line and column, a snippet and a suggestion.
pub fn parse_schema(input: &str) -> (r: Result<Schema, ChameleonError>)
    ensures
        match parse_outcome(input@) {
            Ok(schema) => r matches Ok(found) && found@ == schema,
            Err(detail) => r matches Err(ChameleonError::ParseError(d)) && d@ == detail,
        },
{
    let chars = to_chars(input);
    proof {
        lemma_byte_length_is_encoded(input@);
    }
    if input.as_bytes().len() == usize::MAX {
        return Err(
            ChameleonError::ParseError(
                ParseErrorDetail {
                    message: String::from_str("Input too long"),
                    line: 1,
                    column: 1,
                    snippet: None,
                    suggestion: None,
                    token: None,
                },
            ),
        );
    }
    let detail = match tokenize(&chars) {
        Err(at) => {
            proof {
                lemma_byte_length_grows(chars@, at as int);
            }
            ParseErrorDetail {
                message: String::from_str("Invalid token"),
                line: 1,
                column: byte_offset(&chars, at) + 1,
                snippet: None,
                suggestion: None,
                token: Some(to_text(&chars, at, at + 1)),
            }
        },
        Ok(tokens) => {
            proof {
                lemma_lex_offsets(chars@, 0, Seq::empty());
                assert forall|i: int| 0 <= i < tokens.len() implies (#[trigger] tokens[i]).offset
                    < chars.len() by {
                    assert(token_models(tokens@)[i] == tokens[i]@);
                }
            }
            match read_schema(&tokens) {
                Ok(schema) => {
                    return Ok(schema);
                },
                Err(error) => describe(&tokens, &chars, error),
            }
        },
    };
    Err(enhance_parse_error(ChameleonError::ParseError(detail), input))
}

} // verus!

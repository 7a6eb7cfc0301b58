//! From characters to tokens.
//!
//! A token is a word (a letter or an underscore, then letters, digits and
//! underscores), a number (digits), a text between double quotes, an
//! annotation (`@` and the word behind it), or one of `{ } ( ) [ ] : ,`.
//! White space separates tokens and means nothing else.

use crate::parser::diagnostics::{is_whitespace, is_whitespace_char};
use crate::text::to_text;
use vstd::prelude::*;

verus! {

/// The kinds of tokens.
#[derive(Debug, Clone, Copy, PartialEq, Eq, Structural)]
pub enum TokenKind {
    Word,
    Number,
    Text,
    Annotation,
    LeftBrace,
    RightBrace,
    LeftParen,
    RightParen,
    LeftBracket,
    RightBracket,
    Colon,
    Comma,
}

/// A token: its kind, its characters as they stand in the source, and the
/// offset of the first of them, counted in characters.
#[derive(Debug, Clone, PartialEq)]
pub struct Token {
    pub kind: TokenKind,
    pub text: String,
    pub offset: usize,
}

/// The model of a [`Token`].
pub struct TokenModel {
    pub kind: TokenKind,
    pub text: Seq<char>,
    pub offset: int,
}

impl View for Token {
    type V = TokenModel;

    open spec fn view(&self) -> TokenModel {
        TokenModel { kind: self.kind, text: self.text@, offset: self.offset as int }
    }
}

/// The models of a list of tokens.
pub open spec fn token_models(v: Seq<Token>) -> Seq<TokenModel> {
    Seq::new(v.len(), |i: int| v[i]@)
}

/// Whether `c` is one of the digits `0` to `9`.
pub open spec fn is_decimal_digit(c: char) -> bool {
    '0' <= c && c <= '9'
}

/// Whether a word may begin with `c`: an ASCII letter or an underscore.
pub open spec fn is_word_start(c: char) -> bool {
    ('a' <= c && c <= 'z') || ('A' <= c && c <= 'Z') || c == '_'
}

/// Whether a word may go on with `c`: an ASCII letter, a digit or an underscore.
pub open spec fn is_word_char(c: char) -> bool {
    is_word_start(c) || is_decimal_digit(c)
}

/// The number of word characters that stand in a row from `from` on.
pub open spec fn word_run(s: Seq<char>, from: int) -> nat
    decreases s.len() - from,
{
    if from < 0 || from >= s.len() || !is_word_char(s[from]) {
        0
    } else {
        1 + word_run(s, from + 1)
    }
}

/// The number of digits that stand in a row from `from` on.
pub open spec fn digit_run(s: Seq<char>, from: int) -> nat
    decreases s.len() - from,
{
    if from < 0 || from >= s.len() || !is_decimal_digit(s[from]) {
        0
    } else {
        1 + digit_run(s, from + 1)
    }
}

/// The number of characters from `from` on that stand before the next double
/// quote, or before the end of the text if no double quote follows.
pub open spec fn quoted_run(s: Seq<char>, from: int) -> nat
    decreases s.len() - from,
{
    if from < 0 || from >= s.len() || s[from] == '"' {
        0
    } else {
        1 + quoted_run(s, from + 1)
    }
}

/// The kind of token that the character `c` is by itself, if it is one.
pub open spec fn punctuation(c: char) -> Option<TokenKind> {
    if c == '{' {
        Some(TokenKind::LeftBrace)
    } else if c == '}' {
        Some(TokenKind::RightBrace)
    } else if c == '(' {
        Some(TokenKind::LeftParen)
    } else if c == ')' {
        Some(TokenKind::RightParen)
    } else if c == '[' {
        Some(TokenKind::LeftBracket)
    } else if c == ']' {
        Some(TokenKind::RightBracket)
    } else if c == ':' {
        Some(TokenKind::Colon)
    } else if c == ',' {
        Some(TokenKind::Comma)
    } else {
        None
    }
}

/// The token that begins at `pos`: its kind, and how many characters it has
/// behind its first. No token begins with a character that none of the kinds
/// begins with, nor with a double quote that is never closed.
pub open spec fn token_at(s: Seq<char>, pos: int) -> Option<(TokenKind, nat)> {
    let c = s[pos];
    if is_word_start(c) {
        Some((TokenKind::Word, word_run(s, pos + 1)))
    } else if is_decimal_digit(c) {
        Some((TokenKind::Number, digit_run(s, pos + 1)))
    } else if c == '@' {
        Some((TokenKind::Annotation, word_run(s, pos + 1)))
    } else if c == '"' {
        if pos + 1 + quoted_run(s, pos + 1) < s.len() {
            Some((TokenKind::Text, quoted_run(s, pos + 1) + 1))
        } else {
            None
        }
    } else {
        match punctuation(c) {
            Some(kind) => Some((kind, 0)),
            None => None,
        }
    }
}

/// The tokens in `tokens`, followed by those of the text from `pos` on; or
/// the offset of the first character at which no token begins.
pub open spec fn lex_from(s: Seq<char>, pos: int, tokens: Seq<TokenModel>) -> Result<
    Seq<TokenModel>,
    int,
>
    decreases
        (if pos < s.len() {
            s.len() - pos
        } else {
            0
        }),
{
    if pos < 0 || pos >= s.len() {
        Ok(tokens)
    } else if is_whitespace(s[pos]) {
        lex_from(s, pos + 1, tokens)
    } else {
        match token_at(s, pos) {
            None => Err(pos),
            Some((kind, more)) => lex_from(
                s,
                pos + 1 + more,
                tokens.push(TokenModel { kind, text: s.subrange(pos, pos + 1 + more), offset: pos }),
            ),
        }
    }
}

/// The tokens of a text, or the offset of the first character at which no token begins.
pub open spec fn lex(s: Seq<char>) -> Result<Seq<TokenModel>, int> {
    lex_from(s, 0, Seq::empty())
}

/// Whether a word may begin with `c`.
pub fn is_word_start_char(c: char) -> (r: bool)
    ensures
        r == is_word_start(c),
{
    (c >= 'a' && c <= 'z') || (c >= 'A' && c <= 'Z') || c == '_'
}

/// Whether a word may go on with `c`.
pub fn is_word_char_at(c: char) -> (r: bool)
    ensures
        r == is_word_char(c),
{
    is_word_start_char(c) || (c >= '0' && c <= '9')
}

/// The number of word characters that stand in a row from `from` on.
pub fn count_word_run(chars: &Vec<char>, from: usize) -> (r: usize)
    requires
        from <= chars.len(),
    ensures
        r == word_run(chars@, from as int),
        from + r <= chars.len(),
{
    let mut at: usize = from;
    while at < chars.len() && is_word_char_at(chars[at])
        invariant
            from <= at <= chars.len(),
            (at - from) + word_run(chars@, at as int) == word_run(chars@, from as int),
        decreases chars.len() - at,
    {
        at += 1;
    }
    at - from
}

/// The number of digits that stand in a row from `from` on.
pub fn count_digit_run(chars: &Vec<char>, from: usize) -> (r: usize)
    requires
        from <= chars.len(),
    ensures
        r == digit_run(chars@, from as int),
        from + r <= chars.len(),
{
    let mut at: usize = from;
    while at < chars.len() && chars[at] >= '0' && chars[at] <= '9'
        invariant
            from <= at <= chars.len(),
            (at - from) + digit_run(chars@, at as int) == digit_run(chars@, from as int),
        decreases chars.len() - at,
    {
        at += 1;
    }
    at - from
}

/// The number of characters from `from` on that stand before the next double quote.
pub fn count_quoted_run(chars: &Vec<char>, from: usize) -> (r: usize)
    requires
        from <= chars.len(),
    ensures
        r == quoted_run(chars@, from as int),
        from + r <= chars.len(),
{
    let mut at: usize = from;
    while at < chars.len() && chars[at] != '"'
        invariant
            from <= at <= chars.len(),
            (at - from) + quoted_run(chars@, at as int) == quoted_run(chars@, from as int),
        decreases chars.len() - at,
    {
        at += 1;
    }
    at - from
}

/// The kind of token that the character `c` is by itself, if it is one.
pub fn punctuation_kind(c: char) -> (r: Option<TokenKind>)
    ensures
        r == punctuation(c),
{
    if c == '{' {
        Some(TokenKind::LeftBrace)
    } else if c == '}' {
        Some(TokenKind::RightBrace)
    } else if c == '(' {
        Some(TokenKind::LeftParen)
    } else if c == ')' {
        Some(TokenKind::RightParen)
    } else if c == '[' {
        Some(TokenKind::LeftBracket)
    } else if c == ']' {
        Some(TokenKind::RightBracket)
    } else if c == ':' {
        Some(TokenKind::Colon)
    } else if c == ',' {
        Some(TokenKind::Comma)
    } else {
        None
    }
}

/// The token that begins at `pos`: its kind, and how many characters it has behind its first.
pub fn scan_token(chars: &Vec<char>, pos: usize) -> (r: Option<(TokenKind, usize)>)
    requires
        pos < chars.len(),
    ensures
        match token_at(chars@, pos as int) {
            Some((kind, more)) => r == Some((kind, more as usize)) && pos + 1 + more <= chars.len(),
            None => r is None,
        },
{
    let c = chars[pos];
    if is_word_start_char(c) {
        Some((TokenKind::Word, count_word_run(chars, pos + 1)))
    } else if c >= '0' && c <= '9' {
        Some((TokenKind::Number, count_digit_run(chars, pos + 1)))
    } else if c == '@' {
        Some((TokenKind::Annotation, count_word_run(chars, pos + 1)))
    } else if c == '"' {
        let inner = count_quoted_run(chars, pos + 1);
        if inner < chars.len() - pos - 1 {
            Some((TokenKind::Text, inner + 1))
        } else {
            None
        }
    } else {
        match punctuation_kind(c) {
            Some(kind) => Some((kind, 0)),
            None => None,
        }
    }
}

/// Splits a text into its tokens. It fails with the offset of the first
/// character at which no token begins.
pub fn tokenize(chars: &Vec<char>) -> (r: Result<Vec<Token>, usize>)
    ensures
        match lex(chars@) {
            Ok(tokens) => r matches Ok(found) && token_models(found@) == tokens,
            Err(at) => r == Err::<Vec<Token>, usize>(at as usize) && 0 <= at < chars.len(),
        },
{
    let mut tokens: Vec<Token> = Vec::new();
    assert(token_models(tokens@) =~= Seq::<TokenModel>::empty());
    let mut pos: usize = 0;
    while pos < chars.len()
        invariant
            pos <= chars.len(),
            lex_from(chars@, pos as int, token_models(tokens@)) == lex(chars@),
        decreases chars.len() - pos,
    {
        if is_whitespace_char(chars[pos]) {
            pos += 1;
        } else {
            match scan_token(chars, pos) {
                None => {
                    return Err(pos);
                },
                Some((kind, more)) => {
                    let ghost before = token_models(tokens@);
                    let text = to_text(chars, pos, pos + 1 + more);
                    let token = Token { kind, text, offset: pos };
                    tokens.push(token);
                    assert(token_models(tokens@) =~= before.push(token@));
                    pos = pos + 1 + more;
                },
            }
        }
    }
    Ok(tokens)
}

} // verus!

//! Where a syntax error lies, how it looks in the source, and what may mend it.

use crate::ast::opt_text;
use crate::error::{ChameleonError, ChameleonErrorModel, ParseErrorDetail, ParseErrorModel};
use crate::text::{
    byte_length, char_width, contains_str, decimal, has_substring, lemma_byte_length_counts,
    lowercase, push_decimal, push_repeated, remove_all, repeated, to_chars, to_lowercase, to_text,
    utf8_width, without,
};
use vstd::prelude::*;
use vstd::string::*;

verus! {

/// Whether `c` is white space in the sense of Unicode.
pub open spec fn is_whitespace(c: char) -> bool {
    let code = c as u32;
    (0x09 <= code <= 0x0D) || code == 0x20 || code == 0x85 || code == 0xA0 || code == 0x1680 || (
    0x2000 <= code <= 0x200A) || code == 0x2028 || code == 0x2029 || code == 0x202F || code
        == 0x205F || code == 0x3000
}

/// Whether `c` ends the run of characters that is underlined: white space, a comma or a brace.
pub open spec fn ends_token(c: char) -> bool {
    is_whitespace(c) || c == ',' || c == '{' || c == '}'
}

/// The line and column, both counted from 1, that are reached after the
/// first `count` characters of `source`: a line feed begins a new line.
pub open spec fn position_after(source: Seq<char>, count: nat) -> (nat, nat)
    decreases count,
{
    if count == 0 {
        (1, 1)
    } else {
        let before = position_after(source, (count - 1) as nat);
        if source[count - 1] == '\n' {
            ((before.0 + 1) as nat, 1)
        } else {
            (before.0, (before.1 + 1) as nat)
        }
    }
}

/// The number of characters of `source` that begin before byte `offset` of
/// its UTF-8 encoding.
pub open spec fn chars_before(source: Seq<char>, offset: nat) -> nat
    decreases source.len(),
{
    if source.len() == 0 || offset == 0 {
        0
    } else {
        1 + chars_before(
            source.drop_first(),
            if offset <= utf8_width(source[0]) {
                0
            } else {
                (offset - utf8_width(source[0])) as nat
            },
        )
    }
}

/// The line and column that belong to byte `offset` of the UTF-8 encoding of
/// `source`: the line is 1 and the line feeds among the characters that begin
/// before that byte, the column is 1 and the characters among them that
/// stand behind the last line feed. An offset behind the text stands for its
/// end.
pub open spec fn line_column(source: Seq<char>, offset: nat) -> (nat, nat) {
    position_after(source, chars_before(source, offset))
}

/// No more characters begin before a byte than the text has.
pub proof fn lemma_chars_before_bound(source: Seq<char>, offset: nat)
    ensures
        chars_before(source, offset) <= source.len(),
    decreases source.len(),
{
    if source.len() > 0 && offset > 0 {
        lemma_chars_before_bound(
            source.drop_first(),
            if offset <= utf8_width(source[0]) {
                0
            } else {
                (offset - utf8_width(source[0])) as nat
            },
        );
    }
}

/// Before the byte at which character `index` begins, or the text ends,
/// exactly `index` characters begin: the position of that byte is the
/// position behind the first `index` characters.
pub proof fn lemma_chars_before_char(source: Seq<char>, index: int)
    requires
        0 <= index <= source.len(),
    ensures
        chars_before(source, byte_length(source.take(index))) == index,
        line_column(source, byte_length(source.take(index))) == position_after(
            source,
            index as nat,
        ),
    decreases index,
{
    if index > 0 {
        let rest = source.drop_first();
        assert(source.take(index).drop_first() =~= rest.take(index - 1));
        assert(source.take(index)[0] == source[0]);
        lemma_byte_length_counts(rest.take(index - 1));
        lemma_chars_before_char(rest, index - 1);
        if index == 1 {
            assert(rest.take(0) =~= Seq::<char>::empty());
        }
    } else {
        assert(source.take(0) =~= Seq::<char>::empty());
    }
}

/// The index of the first line feed at or behind `from`; `source.len()` if there is none.
pub open spec fn line_end(source: Seq<char>, from: nat) -> nat
    decreases source.len() - from,
{
    if from >= source.len() {
        source.len()
    } else if source[from as int] == '\n' {
        from
    } else {
        line_end(source, from + 1)
    }
}

/// The line that begins at `start`, without its line ending: a line feed,
/// or a carriage return and a line feed.
pub open spec fn line_text(source: Seq<char>, start: nat) -> Seq<char> {
    let end = line_end(source, start);
    if end < source.len() && start < end && source[end - 1] == '\r' {
        source.subrange(start as int, end - 1)
    } else {
        source.subrange(start as int, end as int)
    }
}

/// The line that stands `skip` lines behind the line that begins at `start`.
/// There is none where the text ends before it; a line ending at the very end
/// of the text begins no further line.
pub open spec fn nth_line(source: Seq<char>, start: nat, skip: nat) -> Option<Seq<char>>
    decreases skip,
{
    if start >= source.len() {
        None
    } else if skip == 0 {
        Some(line_text(source, start))
    } else if line_end(source, start) >= source.len() {
        None
    } else {
        nth_line(source, line_end(source, start) + 1, (skip - 1) as nat)
    }
}

/// The number of characters from `from` on that do not end a token.
pub open spec fn token_run(line: Seq<char>, from: nat) -> nat
    decreases line.len() - from,
{
    if from >= line.len() || ends_token(line[from as int]) {
        0
    } else {
        1 + token_run(line, from + 1)
    }
}

/// The width of the margin that holds the line number: three characters, or more
/// where the number needs them.
pub open spec fn margin_width(line: nat) -> nat {
    if decimal(line).len() < 3 {
        3
    } else {
        decimal(line).len()
    }
}

/// The snippet of a position: the source line behind its number, and under it
/// a row of carets that begins at the column and spans the token there, one
/// caret at least. It is empty where the text has no such line. Column 0 is
/// treated as column 1.
pub open spec fn snippet_text(source: Seq<char>, line: nat, column: nat) -> Seq<char> {
    if line == 0 {
        Seq::empty()
    } else {
        match nth_line(source, 0, (line - 1) as nat) {
            None => Seq::empty(),
            Some(text) => {
                let width = margin_width(line);
                let indent = if column == 0 {
                    0
                } else {
                    (column - 1) as nat
                };
                let run = token_run(text, indent);
                repeated(' ', (width - decimal(line).len()) as nat) + decimal(line) + " │ "@ + text
                    + "\n"@ + repeated(' ', width) + " │ "@ + repeated(' ', indent) + repeated(
                    '^',
                    if run == 0 {
                        1
                    } else {
                        run
                    },
                )
            },
        }
    }
}

/// The text of a token without the wrapping in which a token may be shown:
/// `Token(`, the closing bracket and the double quotes are taken out.
pub open spec fn clean_token(token: Seq<char>) -> Seq<char> {
    without(without(without(token, "Token("@), ")"@), "\""@)
}

/// The keyword that a token in lower case looks like a misspelling of, as a hint.
pub open spec fn keyword_hint(token: Seq<char>) -> Option<Seq<char>> {
    if has_substring(token, "entiy"@) || has_substring(token, "enity"@) || has_substring(
        token,
        "entit"@,
    ) {
        Some("Did you mean 'entity'?"@)
    } else if has_substring(token, "primry"@) || has_substring(token, "pirmary"@) || has_substring(
        token,
        "primari"@,
    ) {
        Some("Did you mean 'primary'?"@)
    } else if has_substring(token, "uniqu"@) && !has_substring(token, "unique"@) {
        Some("Did you mean 'unique'?"@)
    } else if has_substring(token, "nullabe"@) || has_substring(token, "nulable"@) {
        Some("Did you mean 'nullable'?"@)
    } else {
        None
    }
}

/// The hint that fits what the parser's message says it expected.
pub open spec fn message_hint(message: Seq<char>) -> Option<Seq<char>> {
    if has_substring(message, "expected one of"@) && has_substring(message, "\":\""@) {
        Some("Fields must have a type after the colon.\nExample: name: string"@)
    } else if has_substring(message, "expected one of"@) && has_substring(message, "\"{\""@) {
        Some("Entity definitions must have an opening brace.\nExample: entity User {"@)
    } else if has_substring(message, "expected one of"@) && has_substring(message, "\"}\""@) {
        Some("Missing closing brace. Check that all entities are properly closed."@)
    } else if has_substring(message, "Unexpected end of file"@) {
        Some("The file ended unexpectedly. You may be missing a closing brace }"@)
    } else {
        None
    }
}

/// The suggestion of an error: the keyword its token looks like, else the
/// suggestion it has already, else the hint that fits its message.
pub open spec fn suggestion_of(detail: ParseErrorModel) -> Option<Seq<char>> {
    let by_token = match detail.token {
        Some(token) => keyword_hint(lowercase(clean_token(token))),
        None => None,
    };
    if by_token is Some {
        by_token
    } else if detail.suggestion is Some {
        detail.suggestion
    } else {
        message_hint(detail.message)
    }
}

/// The error with its position, snippet and suggestion. An error that gives
/// line 1 and a column behind the first holds in its column a byte offset
/// into the text, counted from 1: line and column are worked out from it.
pub open spec fn enhanced(detail: ParseErrorModel, source: Seq<char>) -> ParseErrorModel {
    let place = if detail.line == 1 && detail.column > 1 {
        line_column(source, (detail.column - 1) as nat)
    } else {
        (detail.line, detail.column)
    };
    let found = ParseErrorModel {
        line: place.0,
        column: place.1,
        snippet: Some(snippet_text(source, place.0, place.1)),
        ..detail
    };
    ParseErrorModel { suggestion: suggestion_of(found), ..found }
}

/// An error that holds on line 1, as its column, the byte offset of
/// character `at` counted from 1 is placed where that character stands: on
/// the line and in the column that are reached behind the characters before it.
pub proof fn lemma_error_is_placed(detail: ParseErrorModel, source: Seq<char>, at: int)
    requires
        0 <= at <= source.len(),
        detail.line == 1,
        detail.column == byte_length(source.take(at)) + 1,
    ensures
        (enhanced(detail, source).line, enhanced(detail, source).column) == position_after(
            source,
            at as nat,
        ),
{
    lemma_chars_before_char(source, at);
    lemma_byte_length_counts(source.take(at));
}

/// Whether `c` is white space in the sense of Unicode.
pub fn is_whitespace_char(c: char) -> (r: bool)
    ensures
        r == is_whitespace(c),
{
    let code: u32 = c as u32;
    (0x09 <= code && code <= 0x0D) || code == 0x20 || code == 0x85 || code == 0xA0 || code
        == 0x1680 || (0x2000 <= code && code <= 0x200A) || code == 0x2028 || code == 0x2029
        || code == 0x202F || code == 0x205F || code == 0x3000
}

/// The line and column, counted from 1, that belong to byte `offset` of `source`.
pub fn offset_to_position(source: &str, offset: usize) -> (r: (usize, usize))
    ensures
        (r.0 as nat, r.1 as nat) == line_column(source@, offset as nat),
{
    let chars = to_chars(source);
    let mut line: usize = 1;
    let mut column: usize = 1;
    let mut left: usize = offset;
    let mut i: usize = 0;
    assert(chars@.skip(0) =~= chars@);
    while i < chars.len() && left > 0
        invariant
            i <= chars.len() < usize::MAX,
            chars@ == source@,
            i + chars_before(chars@.skip(i as int), left as nat) == chars_before(
                source@,
                offset as nat,
            ),
            (line as nat, column as nat) == position_after(source@, i as nat),
            line <= i + 1,
            column <= i + 1,
        decreases chars.len() - i,
    {
        let width = char_width(chars[i]);
        assert(chars@.skip(i as int).drop_first() =~= chars@.skip(i + 1));
        assert(chars@.skip(i as int)[0] == chars[i as int]);
        left = if left <= width {
            0
        } else {
            left - width
        };
        if chars[i] == '\n' {
            line += 1;
            column = 1;
        } else {
            column += 1;
        }
        i += 1;
    }
    (line, column)
}

/// The line that stands `skip` lines behind the first, without its line ending.
pub fn source_line(chars: &Vec<char>, skip: usize) -> (r: Option<String>)
    ensures
        opt_text(r) == nth_line(chars@, 0, skip as nat),
{
    let mut start: usize = 0;
    let mut left: usize = skip;
    loop
        invariant
            start <= chars.len(),
            nth_line(chars@, start as nat, left as nat) == nth_line(chars@, 0, skip as nat),
        decreases left,
    {
        if start >= chars.len() {
            return None;
        }
        let mut end: usize = start;
        while end < chars.len() && chars[end] != '\n'
            invariant
                start <= end <= chars.len(),
                line_end(chars@, end as nat) == line_end(chars@, start as nat),
            decreases chars.len() - end,
        {
            end += 1;
        }
        if left == 0 {
            let stop: usize = if end < chars.len() && start < end && chars[end - 1] == '\r' {
                end - 1
            } else {
                end
            };
            return Some(to_text(chars, start, stop));
        }
        if end >= chars.len() {
            return None;
        }
        start = end + 1;
        left -= 1;
    }
}

/// The source line of a position with a row of carets under the token there.
pub fn extract_snippet(source: &str, line: usize, column: usize) -> (r: String)
    ensures
        r@ == snippet_text(source@, line as nat, column as nat),
{
    if line == 0 {
        return String::new();
    }
    let chars = to_chars(source);
    let text = match source_line(&chars, line - 1) {
        Some(text) => text,
        None => {
            return String::new();
        },
    };
    let target = to_chars(text.as_str());

    let mut digits = String::new();
    push_decimal(&mut digits, line);
    assert(digits@ =~= decimal(line as nat));
    let digit_count = digits.as_str().unicode_len();
    let width: usize = if digit_count < 3 {
        3
    } else {
        digit_count
    };

    let mut snippet = String::new();
    push_repeated(&mut snippet, ' ', width - digit_count);
    snippet.append(digits.as_str());
    snippet.append(" │ ");
    snippet.append(text.as_str());
    snippet.append("\n");
    push_repeated(&mut snippet, ' ', width);
    snippet.append(" │ ");
    let indent: usize = if column == 0 {
        0
    } else {
        column - 1
    };
    push_repeated(&mut snippet, ' ', indent);

    let mut run: usize = 0;
    if indent < target.len() {
        let mut at: usize = indent;
        while at < target.len() && !ends_token_char(target[at])
            invariant
                indent <= at <= target.len(),
                run == at - indent,
                run + token_run(target@, at as nat) == token_run(target@, indent as nat),
            decreases target.len() - at,
        {
            at += 1;
            run += 1;
        }
    }
    push_repeated(
        &mut snippet,
        '^',
        if run == 0 {
            1
        } else {
            run
        },
    );
    assert(snippet@ =~= snippet_text(source@, line as nat, column as nat));
    snippet
}

/// Whether `c` ends the run of characters that is underlined.
pub fn ends_token_char(c: char) -> (r: bool)
    ensures
        r == ends_token(c),
{
    is_whitespace_char(c) || c == ',' || c == '{' || c == '}'
}

/// The keyword that `token`, given in lower case, looks like a misspelling of.
pub fn suggest_keyword(token: &str) -> (r: Option<String>)
    ensures
        opt_text(r) == keyword_hint(token@),
{
    if contains_str(token, "entiy") || contains_str(token, "enity") || contains_str(
        token,
        "entit",
    ) {
        Some(String::from_str("Did you mean 'entity'?"))
    } else if contains_str(token, "primry") || contains_str(token, "pirmary") || contains_str(
        token,
        "primari",
    ) {
        Some(String::from_str("Did you mean 'primary'?"))
    } else if contains_str(token, "uniqu") && !contains_str(token, "unique") {
        Some(String::from_str("Did you mean 'unique'?"))
    } else if contains_str(token, "nullabe") || contains_str(token, "nulable") {
        Some(String::from_str("Did you mean 'nullable'?"))
    } else {
        None
    }
}

/// The hint that fits what `message` says the parser expected.
pub fn suggest_fix(message: &str) -> (r: Option<String>)
    ensures
        opt_text(r) == message_hint(message@),
{
    let expected = contains_str(message, "expected one of");
    if expected && contains_str(message, "\":\"") {
        Some(String::from_str("Fields must have a type after the colon.\nExample: name: string"))
    } else if expected && contains_str(message, "\"{\"") {
        Some(
            String::from_str(
                "Entity definitions must have an opening brace.\nExample: entity User {",
            ),
        )
    } else if expected && contains_str(message, "\"}\"") {
        Some(
            String::from_str("Missing closing brace. Check that all entities are properly closed."),
        )
    } else if contains_str(message, "Unexpected end of file") {
        Some(String::from_str("The file ended unexpectedly. You may be missing a closing brace }"))
    } else {
        None
    }
}

/// Adds the suggestion that fits the error's token or message; everything else is kept.
pub fn add_suggestions(detail: ParseErrorDetail) -> (r: ParseErrorDetail)
    ensures
        r@ == (ParseErrorModel { suggestion: suggestion_of(detail@), ..detail@ }),
{
    let mut detail = detail;
    let ghost given = detail@;
    let by_token = match &detail.token {
        Some(token) => {
            let unwrapped = remove_all(token.as_str(), "Token(");
            let unbracketed = remove_all(unwrapped.as_str(), ")");
            let token_clean = remove_all(unbracketed.as_str(), "\"");
            let token_lower = to_lowercase(token_clean.as_str());
            suggest_keyword(token_lower.as_str())
        },
        None => None,
    };
    if by_token.is_some() {
        detail.suggestion = by_token;
    } else if detail.suggestion.is_none() {
        detail.suggestion = suggest_fix(detail.message.as_str());
    }
    assert(detail@.suggestion == suggestion_of(given));
    detail
}

/// Gives a parse error its position in `source`, its snippet and its
/// suggestion. Any other error is handed back as it is.
pub fn enhance_parse_error(err: ChameleonError, source: &str) -> (r: ChameleonError)
    ensures
        r@ == match err@ {
            ChameleonErrorModel::ParseError(detail) => ChameleonErrorModel::ParseError(
                enhanced(detail, source@),
            ),
            other => other,
        },
{
    match err {
        ChameleonError::ParseError(detail) => {
            let mut detail = detail;
            if detail.line == 1 && detail.column > 1 {
                let (line, column) = offset_to_position(source, detail.column - 1);
                detail.line = line;
                detail.column = column;
            }
            let snippet = extract_snippet(source, detail.line, detail.column);
            detail.snippet = Some(snippet);
            let detail = add_suggestions(detail);
            ChameleonError::ParseError(detail)
        },
        other => other,
    }
}

} // verus!

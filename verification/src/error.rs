//! The errors that leave the library.

use crate::ast::opt_text;
use vstd::prelude::*;

verus! {

/// A syntax error with its place in the source text.
#[derive(Debug, Clone, PartialEq)]
pub struct ParseErrorDetail {
    /// What went wrong, as the parser put it.
    pub message: String,
    /// The line of the offending token, counted from 1.
    pub line: usize,
    /// The column of the offending token, counted from 1.
    pub column: usize,
    /// The source line with a row of carets under the offending token.
    pub snippet: Option<String>,
    /// A hint at the likely mistake.
    pub suggestion: Option<String>,
    /// The text of the offending token.
    pub token: Option<String>,
}

/// An error of the library as a whole.
#[derive(Debug, Clone, PartialEq)]
pub enum ChameleonError {
    ParseError(ParseErrorDetail),
    ValidationError(String),
}

/// The model of a [`ParseErrorDetail`].
pub struct ParseErrorModel {
    pub message: Seq<char>,
    pub line: nat,
    pub column: nat,
    pub snippet: Option<Seq<char>>,
    pub suggestion: Option<Seq<char>>,
    pub token: Option<Seq<char>>,
}

/// The model of a [`ChameleonError`].
pub enum ChameleonErrorModel {
    ParseError(ParseErrorModel),
    ValidationError(Seq<char>),
}

impl View for ParseErrorDetail {
    type V = ParseErrorModel;

    open spec fn view(&self) -> ParseErrorModel {
        ParseErrorModel {
            message: self.message@,
            line: self.line as nat,
            column: self.column as nat,
            snippet: opt_text(self.snippet),
            suggestion: opt_text(self.suggestion),
            token: opt_text(self.token),
        }
    }
}

impl View for ChameleonError {
    type V = ChameleonErrorModel;

    open spec fn view(&self) -> ChameleonErrorModel {
        match *self {
            ChameleonError::ParseError(detail) => ChameleonErrorModel::ParseError(detail@),
            ChameleonError::ValidationError(report) => ChameleonErrorModel::ValidationError(
                report@,
            ),
        }
    }
}

} // verus!

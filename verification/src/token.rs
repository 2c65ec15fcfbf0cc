//! The token and error types the scanner produces, and their
//! mathematical models.

use vstd::prelude::*;

verus! {

/// An atomic lexical unit of the JSON-like grammar.
///
/// A `String` token carries the exact text between its delimiting quotes,
/// with no escape decoding. A `Number` token carries the literal's text
/// exactly as it was scanned (for example `"-0.35"`); by
/// [`crate::laws::lemma_tokens_well_formed`] that text always has the
/// shape of a floating-point literal, so a caller may convert it
/// without a failure path.
#[derive(Debug, PartialEq, Eq)]
pub enum Token {
    OpenObject,
    CloseObject,
    Colon,
    Comma,
    OpenArray,
    CloseArray,
    String(String),
    Number(String),
}

/// The mathematical model of a [`Token`]: payloads are character
/// sequences rather than heap strings.
pub enum SpecToken {
    OpenObject,
    CloseObject,
    Colon,
    Comma,
    OpenArray,
    CloseArray,
    Str(Seq<char>),
    Num(Seq<char>),
}

impl View for Token {
    type V = SpecToken;

    open spec fn view(&self) -> SpecToken {
        match self {
            Token::OpenObject => SpecToken::OpenObject,
            Token::CloseObject => SpecToken::CloseObject,
            Token::Colon => SpecToken::Colon,
            Token::Comma => SpecToken::Comma,
            Token::OpenArray => SpecToken::OpenArray,
            Token::CloseArray => SpecToken::CloseArray,
            Token::String(s) => SpecToken::Str(s@),
            Token::Number(t) => SpecToken::Num(t@),
        }
    }
}

/// The model of a token vector: each token replaced by its view.
pub open spec fn tokens_view(v: Seq<Token>) -> Seq<SpecToken> {
    v.map_values(|t: Token| t@)
}

/// Why a scan was aborted. Any error aborts the whole scan at once:
/// there is no partial result and no recovery.
#[derive(Debug, Clone, Copy, PartialEq, Eq, Structural)]
pub enum LexError {
    /// A character in the default state starts no valid token.
    UnsupportedCharacter,
    /// A `-` is not immediately followed by a digit.
    InvalidNumberLiteral,
    /// An `e`/`E` turned up while scanning a number: exponent notation
    /// is not implemented.
    UnsupportedNumberFormat,
    /// The input ended while a string or a number was still being
    /// scanned.
    UnexpectedEndOfInput,
}

} // verus!

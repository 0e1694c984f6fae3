//! The failures of a parse.

use vstd::prelude::*;

verus! {

/// Why a parse failed. Every failure ends the parse; no partial result is
/// handed out.
#[derive(Debug, PartialEq, Eq)]
pub enum ParseError {
    /// A solo short option whose character abbreviates no declaration.
    UnknownFlag(char),
    /// A value option that no token follows.
    MissingValue(String),
    /// A switch that was given an inline `=value`.
    ExtraValue(String),
    /// A long option whose name matches no declaration.
    UnknownOption(String),
    /// `--no-<name>` where `<name>` is a value option.
    CannotNegateOption(String),
    /// `--no-<name>` where `<name>` is a switch that is not negatable.
    NotNegatable(String),
    /// A required option without a value and without a default.
    MissingRequiredOption(String),
    /// A long option with more than one `=`.
    InvalidLongOptionSyntax(String),
}

/// The mathematical content of a [`ParseError`].
pub enum Failure {
    UnknownFlag(char),
    MissingValue(Seq<char>),
    ExtraValue(Seq<char>),
    UnknownOption(Seq<char>),
    CannotNegateOption(Seq<char>),
    NotNegatable(Seq<char>),
    MissingRequiredOption(Seq<char>),
    InvalidLongOptionSyntax(Seq<char>),
}

impl View for ParseError {
    type V = Failure;

    open spec fn view(&self) -> Failure {
        match self {
            ParseError::UnknownFlag(c) => Failure::UnknownFlag(*c),
            ParseError::MissingValue(name) => Failure::MissingValue(name@),
            ParseError::ExtraValue(name) => Failure::ExtraValue(name@),
            ParseError::UnknownOption(name) => Failure::UnknownOption(name@),
            ParseError::CannotNegateOption(name) => Failure::CannotNegateOption(name@),
            ParseError::NotNegatable(name) => Failure::NotNegatable(name@),
            ParseError::MissingRequiredOption(name) => Failure::MissingRequiredOption(name@),
            ParseError::InvalidLongOptionSyntax(token) => Failure::InvalidLongOptionSyntax(
                token@,
            ),
        }
    }
}

impl Clone for ParseError {
    fn clone(&self) -> (copy: ParseError)
        ensures
            copy@ == self@,
    {
        match self {
            ParseError::UnknownFlag(c) => ParseError::UnknownFlag(*c),
            ParseError::MissingValue(name) => ParseError::MissingValue(name.clone()),
            ParseError::ExtraValue(name) => ParseError::ExtraValue(name.clone()),
            ParseError::UnknownOption(name) => ParseError::UnknownOption(name.clone()),
            ParseError::CannotNegateOption(name) => ParseError::CannotNegateOption(name.clone()),
            ParseError::NotNegatable(name) => ParseError::NotNegatable(name.clone()),
            ParseError::MissingRequiredOption(name) => ParseError::MissingRequiredOption(
                name.clone(),
            ),
            ParseError::InvalidLongOptionSyntax(token) => ParseError::InvalidLongOptionSyntax(
                token.clone(),
            ),
        }
    }
}

} // verus!

//! Error categories (compilation stages) and user-facing error types.
use vstd::prelude::*;

verus! {

/// The user-facing kind of an error.
#[derive(Debug, Clone, Copy, PartialEq, Eq, Hash, Structural)]
pub enum ErrorType {
    /// Invalid token or lexical error (from Lexer stage)
    InvalidToken,
    /// Syntax error (from Parser stage)
    SyntaxError,
    /// Type error or semantic error (from Semantic stage)
    TypeError,
    /// Internal error from IR/Codegen stage
    InternalError,
}

/// The text of an error type.
pub open spec fn error_type_text(t: ErrorType) -> Seq<char> {
    match t {
        ErrorType::InvalidToken => "Invalid token"@,
        ErrorType::SyntaxError => "Syntax error"@,
        ErrorType::TypeError => "Type error"@,
        ErrorType::InternalError => "Internal error"@,
    }
}

impl ErrorType {
    /// The text of this error type.
    pub fn as_str(&self) -> (r: &'static str)
        ensures
            r@ == error_type_text(*self),
    {
        match self {
            ErrorType::InvalidToken => "Invalid token",
            ErrorType::SyntaxError => "Syntax error",
            ErrorType::TypeError => "Type error",
            ErrorType::InternalError => "Internal error",
        }
    }
}

/// The compilation stage an error comes from.
#[derive(Debug, Clone, Copy, PartialEq, Eq, Hash, Structural)]
pub enum ErrorCategory {
    /// Errors from the lexical analysis phase
    Lexical,
    /// Errors from the parsing phase
    Parse,
    /// Errors from the semantic analysis phase
    Semantic,
    /// Errors from the code generation phase
    Codegen,
}

/// The text of a category.
pub open spec fn category_text(c: ErrorCategory) -> Seq<char> {
    match c {
        ErrorCategory::Lexical => "Lexical"@,
        ErrorCategory::Parse => "Parse"@,
        ErrorCategory::Semantic => "Semantic"@,
        ErrorCategory::Codegen => "Codegen"@,
    }
}

/// The user-facing error type of each stage.
pub open spec fn type_of_category(c: ErrorCategory) -> ErrorType {
    match c {
        ErrorCategory::Lexical => ErrorType::InvalidToken,
        ErrorCategory::Parse => ErrorType::SyntaxError,
        ErrorCategory::Semantic => ErrorType::TypeError,
        ErrorCategory::Codegen => ErrorType::InternalError,
    }
}

impl ErrorCategory {
    /// The text of this category.
    pub fn as_str(&self) -> (r: &'static str)
        ensures
            r@ == category_text(*self),
    {
        match self {
            ErrorCategory::Lexical => "Lexical",
            ErrorCategory::Parse => "Parse",
            ErrorCategory::Semantic => "Semantic",
            ErrorCategory::Codegen => "Codegen",
        }
    }

    /// Maps a compilation stage to its user-facing error type.
    pub fn to_error_type(&self) -> (r: ErrorType)
        ensures
            r == type_of_category(*self),
    {
        match self {
            ErrorCategory::Lexical => ErrorType::InvalidToken,
            ErrorCategory::Parse => ErrorType::SyntaxError,
            ErrorCategory::Semantic => ErrorType::TypeError,
            ErrorCategory::Codegen => ErrorType::InternalError,
        }
    }
}

/// Distinct stages map to distinct user-facing error types, and every error
/// type is the image of some stage.
pub proof fn lemma_error_type_bijective(a: ErrorCategory, b: ErrorCategory, t: ErrorType)
    ensures
        type_of_category(a) == type_of_category(b) ==> a == b,
        exists|c: ErrorCategory| type_of_category(c) == t,
{
    match t {
        ErrorType::InvalidToken => assert(type_of_category(ErrorCategory::Lexical) == t),
        ErrorType::SyntaxError => assert(type_of_category(ErrorCategory::Parse) == t),
        ErrorType::TypeError => assert(type_of_category(ErrorCategory::Semantic) == t),
        ErrorType::InternalError => assert(type_of_category(ErrorCategory::Codegen) == t),
    }
}

} // verus!

//! Stable error codes.
use vstd::prelude::*;
use vstd::string::*;

verus! {

/// An error code, rendered as `E` and four hexadecimal digits.
#[derive(Debug, Clone, Copy, PartialEq, Eq, Hash, Structural)]
pub enum ErrorCode {
    UnterminatedComment,
    InvalidCharacter,
    UnterminatedString,
    InvalidEscapeSequence,
    UnexpectedToken,
    InvalidMapDeclaration,
    InvalidEventDeclaration,
    DuplicateIdentifier,
    InvalidSectionType,
    InvalidProgramType,
    InvalidMapType,
    CodegenError,
}

/// The numeric value of a code: the stage in the high byte (lexical 1,
/// parse 2, semantic 3, codegen 4), the error within it in the low byte.
pub open spec fn code_value(c: ErrorCode) -> u32 {
    match c {
        ErrorCode::UnterminatedComment => 0x0101,
        ErrorCode::InvalidCharacter => 0x0102,
        ErrorCode::UnterminatedString => 0x0103,
        ErrorCode::InvalidEscapeSequence => 0x0104,
        ErrorCode::UnexpectedToken => 0x0201,
        ErrorCode::InvalidMapDeclaration => 0x0207,
        ErrorCode::InvalidEventDeclaration => 0x0208,
        ErrorCode::DuplicateIdentifier => 0x0302,
        ErrorCode::InvalidSectionType => 0x0305,
        ErrorCode::InvalidProgramType => 0x0306,
        ErrorCode::InvalidMapType => 0x0309,
        ErrorCode::CodegenError => 0x0401,
    }
}

/// The upper-case hexadecimal digit of a value below sixteen.
pub open spec fn hex_digit(d: u32) -> char {
    if d < 10 { ((d + 48) as u8) as char } else { ((d + 55) as u8) as char }
}

/// `E` followed by the four upper-case hexadecimal digits of `v`.
pub open spec fn code_text(v: u32) -> Seq<char> {
    seq!['E', hex_digit((v / 4096) % 16), hex_digit((v / 256) % 16), hex_digit((v / 16) % 16), hex_digit(v % 16)]
}

/// The description of a code.
pub open spec fn code_description(c: ErrorCode) -> Seq<char> {
    match c {
        ErrorCode::UnterminatedComment => "unterminated comment"@,
        ErrorCode::InvalidCharacter => "invalid character"@,
        ErrorCode::UnterminatedString => "unterminated string literal"@,
        ErrorCode::InvalidEscapeSequence => "invalid escape sequence"@,
        ErrorCode::UnexpectedToken => "unexpected token"@,
        ErrorCode::InvalidMapDeclaration => "invalid map declaration"@,
        ErrorCode::InvalidEventDeclaration => "invalid event declaration"@,
        ErrorCode::DuplicateIdentifier => "duplicate identifier"@,
        ErrorCode::InvalidSectionType => "invalid section type"@,
        ErrorCode::InvalidProgramType => "invalid program type"@,
        ErrorCode::InvalidMapType => "invalid map type"@,
        ErrorCode::CodegenError => "code generation error"@,
    }
}

fn hex_char(d: u32) -> (r: &'static str)
    requires
        d < 16,
    ensures
        r@ == seq![hex_digit(d)],
{
    proof {
        reveal_strlit("0"); reveal_strlit("1"); reveal_strlit("2"); reveal_strlit("3");
        reveal_strlit("4"); reveal_strlit("5"); reveal_strlit("6"); reveal_strlit("7");
        reveal_strlit("8"); reveal_strlit("9"); reveal_strlit("A"); reveal_strlit("B");
        reveal_strlit("C"); reveal_strlit("D"); reveal_strlit("E"); reveal_strlit("F");
    }
    if d == 0 { "0" } else if d == 1 { "1" } else if d == 2 { "2" } else if d == 3 { "3" }
    else if d == 4 { "4" } else if d == 5 { "5" } else if d == 6 { "6" } else if d == 7 { "7" }
    else if d == 8 { "8" } else if d == 9 { "9" } else if d == 10 { "A" } else if d == 11 { "B" }
    else if d == 12 { "C" } else if d == 13 { "D" } else if d == 14 { "E" } else { "F" }
}

impl ErrorCode {
    /// The numeric value of this code.
    pub fn value(&self) -> (r: u32)
        ensures
            r == code_value(*self),
    {
        match self {
            ErrorCode::UnterminatedComment => 0x0101,
            ErrorCode::InvalidCharacter => 0x0102,
            ErrorCode::UnterminatedString => 0x0103,
            ErrorCode::InvalidEscapeSequence => 0x0104,
            ErrorCode::UnexpectedToken => 0x0201,
            ErrorCode::InvalidMapDeclaration => 0x0207,
            ErrorCode::InvalidEventDeclaration => 0x0208,
            ErrorCode::DuplicateIdentifier => 0x0302,
            ErrorCode::InvalidSectionType => 0x0305,
            ErrorCode::InvalidProgramType => 0x0306,
            ErrorCode::InvalidMapType => 0x0309,
            ErrorCode::CodegenError => 0x0401,
        }
    }

    /// The code as text, such as `E0201`.
    pub fn code(&self) -> (r: String)
        ensures
            r@ == code_text(code_value(*self)),
    {
        let v = self.value();
        proof { reveal_strlit("E"); }
        let mut s = String::from_str("E");
        s.append(hex_char((v / 4096) % 16));
        s.append(hex_char((v / 256) % 16));
        s.append(hex_char((v / 16) % 16));
        s.append(hex_char(v % 16));
        assert(s@ =~= code_text(v));
        s
    }

    /// The description of this code.
    pub fn as_str(&self) -> (r: &'static str)
        ensures
            r@ == code_description(*self),
    {
        match self {
            ErrorCode::UnterminatedComment => "unterminated comment",
            ErrorCode::InvalidCharacter => "invalid character",
            ErrorCode::UnterminatedString => "unterminated string literal",
            ErrorCode::InvalidEscapeSequence => "invalid escape sequence",
            ErrorCode::UnexpectedToken => "unexpected token",
            ErrorCode::InvalidMapDeclaration => "invalid map declaration",
            ErrorCode::InvalidEventDeclaration => "invalid event declaration",
            ErrorCode::DuplicateIdentifier => "duplicate identifier",
            ErrorCode::InvalidSectionType => "invalid section type",
            ErrorCode::InvalidProgramType => "invalid program type",
            ErrorCode::InvalidMapType => "invalid map type",
            ErrorCode::CodegenError => "code generation error",
        }
    }

    /// `code: description`, as the code is displayed.
    pub fn to_display_string(&self) -> (r: String)
        ensures
            r@ == code_text(code_value(*self)) + ": "@ + code_description(*self),
    {
        let mut s = self.code();
        s.append(": ");
        s.append(self.as_str());
        s
    }
}

/// Distinct error codes have distinct texts.
pub proof fn lemma_code_text_injective(a: ErrorCode, b: ErrorCode)
    ensures
        code_text(code_value(a)) == code_text(code_value(b)) ==> a == b,
{
    if code_text(code_value(a)) == code_text(code_value(b)) {
        let ta = code_text(code_value(a));
        let tb = code_text(code_value(b));
        assert(ta[2] == tb[2] && ta[4] == tb[4]);
        assert(code_value(a) == code_value(b));
    }
}

} // verus!

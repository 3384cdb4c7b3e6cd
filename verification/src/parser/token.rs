//! Tokens handed to the parser.
use vstd::prelude::*;

verus! {

/// A position in the source text.
#[derive(Debug, Clone, Copy, PartialEq, Eq, Structural)]
pub struct SourceLoc {
    pub line: u32,
    pub column: u32,
    pub offset: usize,
}

impl SourceLoc {
    /// A location from its line, column and byte offset.
    pub fn new(line: u32, column: u32, offset: usize) -> (r: SourceLoc)
        ensures
            r == (SourceLoc { line, column, offset }),
    {
        SourceLoc { line, column, offset }
    }
}

/// The kinds of tokens.
#[derive(Debug, Clone, Copy, PartialEq, Eq, Hash, Structural)]
pub enum TokenKind {
    Eof,
    Identifier,
    Number,
    StringLiteral,
    KeywordMap,
    KeywordUnit,
    KeywordEvent,
    KeywordType,
    KeywordKey,
    KeywordValue,
    KeywordMax,
    KeywordBytes,
    KeywordSection,
    KeywordLicense,
    KeywordReg,
    KeywordImm,
    KeywordHeap,
    KeywordReturn,
    KeywordIf,
    KeywordGuard,
    KeywordElse,
    TypeU32,
    TypeU64,
    TypeI32,
    TypeI64,
    LBrace,
    RBrace,
    LBracket,
    RBracket,
    LParen,
    RParen,
    Colon,
    Semicolon,
    Dot,
    Comma,
    Equals,
    PlusEquals,
    Plus,
    Minus,
    Star,
    Slash,
    Percent,
    Shl,
    Shr,
}

/// A token: its kind, its text, where it starts, and its value for number literals.
#[derive(Debug)]
pub struct Token {
    pub kind: TokenKind,
    pub lexeme: String,
    pub loc: SourceLoc,
    pub int_value: Option<i64>,
}

impl Token {
    /// A field-by-field copy.
    pub fn duplicate(&self) -> (r: Token)
        ensures
            r == *self,
    {
        Token { kind: self.kind, lexeme: self.lexeme.clone(), loc: self.loc, int_value: self.int_value }
    }
}

/// How a token kind is named in messages.
pub open spec fn kind_name(k: TokenKind) -> Seq<char> {
    match k {
        TokenKind::Eof => "end of file"@,
        TokenKind::Identifier => "identifier"@,
        TokenKind::Number => "number"@,
        TokenKind::StringLiteral => "string literal"@,
        TokenKind::KeywordMap => "'map'"@,
        TokenKind::KeywordUnit => "'unit'"@,
        TokenKind::KeywordEvent => "'event'"@,
        TokenKind::KeywordType => "'type'"@,
        TokenKind::KeywordKey => "'key'"@,
        TokenKind::KeywordValue => "'value'"@,
        TokenKind::KeywordMax => "'max'"@,
        TokenKind::KeywordBytes => "'bytes'"@,
        TokenKind::KeywordSection => "'section'"@,
        TokenKind::KeywordLicense => "'license'"@,
        TokenKind::KeywordReg => "'reg'"@,
        TokenKind::KeywordImm => "'imm'"@,
        TokenKind::KeywordHeap => "'heap'"@,
        TokenKind::KeywordReturn => "'return'"@,
        TokenKind::KeywordIf => "'if'"@,
        TokenKind::KeywordGuard => "'guard'"@,
        TokenKind::KeywordElse => "'else'"@,
        TokenKind::TypeU32 => "'u32'"@,
        TokenKind::TypeU64 => "'u64'"@,
        TokenKind::TypeI32 => "'i32'"@,
        TokenKind::TypeI64 => "'i64'"@,
        TokenKind::LBrace => "'{'"@,
        TokenKind::RBrace => "'}'"@,
        TokenKind::LBracket => "'['"@,
        TokenKind::RBracket => "']'"@,
        TokenKind::LParen => "'('"@,
        TokenKind::RParen => "')'"@,
        TokenKind::Colon => "':'"@,
        TokenKind::Semicolon => "';'"@,
        TokenKind::Dot => "'.'"@,
        TokenKind::Comma => "','"@,
        TokenKind::Equals => "'='"@,
        TokenKind::PlusEquals => "'+='"@,
        TokenKind::Plus => "'+'"@,
        TokenKind::Minus => "'-'"@,
        TokenKind::Star => "'*'"@,
        TokenKind::Slash => "'/'"@,
        TokenKind::Percent => "'%'"@,
        TokenKind::Shl => "'<<'"@,
        TokenKind::Shr => "'>>'"@,
    }
}

impl TokenKind {
    /// The name of this kind as it appears in messages.
    pub fn name(self) -> (r: &'static str)
        ensures
            r@ == kind_name(self),
    {
        match self {
            TokenKind::Eof => "end of file",
            TokenKind::Identifier => "identifier",
            TokenKind::Number => "number",
            TokenKind::StringLiteral => "string literal",
            TokenKind::KeywordMap => "'map'",
            TokenKind::KeywordUnit => "'unit'",
            TokenKind::KeywordEvent => "'event'",
            TokenKind::KeywordType => "'type'",
            TokenKind::KeywordKey => "'key'",
            TokenKind::KeywordValue => "'value'",
            TokenKind::KeywordMax => "'max'",
            TokenKind::KeywordBytes => "'bytes'",
            TokenKind::KeywordSection => "'section'",
            TokenKind::KeywordLicense => "'license'",
            TokenKind::KeywordReg => "'reg'",
            TokenKind::KeywordImm => "'imm'",
            TokenKind::KeywordHeap => "'heap'",
            TokenKind::KeywordReturn => "'return'",
            TokenKind::KeywordIf => "'if'",
            TokenKind::KeywordGuard => "'guard'",
            TokenKind::KeywordElse => "'else'",
            TokenKind::TypeU32 => "'u32'",
            TokenKind::TypeU64 => "'u64'",
            TokenKind::TypeI32 => "'i32'",
            TokenKind::TypeI64 => "'i64'",
            TokenKind::LBrace => "'{'",
            TokenKind::RBrace => "'}'",
            TokenKind::LBracket => "'['",
            TokenKind::RBracket => "']'",
            TokenKind::LParen => "'('",
            TokenKind::RParen => "')'",
            TokenKind::Colon => "':'",
            TokenKind::Semicolon => "';'",
            TokenKind::Dot => "'.'",
            TokenKind::Comma => "','",
            TokenKind::Equals => "'='",
            TokenKind::PlusEquals => "'+='",
            TokenKind::Plus => "'+'",
            TokenKind::Minus => "'-'",
            TokenKind::Star => "'*'",
            TokenKind::Slash => "'/'",
            TokenKind::Percent => "'%'",
            TokenKind::Shl => "'<<'",
            TokenKind::Shr => "'>>'",
        }
    }
}

} // verus!

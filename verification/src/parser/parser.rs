//! The token cursor shared by all parsing functions.
use vstd::prelude::*;
use vstd::string::*;
use crate::parser::syntax::{skip_semi, spec_item_end};
use crate::parser::token::{SourceLoc, Token, TokenKind, kind_name};

verus! {

/// A parse failure: where it happened and what went wrong.
pub type ParseError = (SourceLoc, String);

/// The message of a failed `expect`.
pub open spec fn expected_message(want: TokenKind, found: TokenKind) -> Seq<char> {
    "Expected "@ + kind_name(want) + ", found "@ + kind_name(found)
}

/// A cursor over a token stream that ends with `Eof`.
pub struct Parser {
    tokens: Vec<Token>,
    current: usize,
}

impl Parser {
    /// The token stream.
    pub closed spec fn toks(&self) -> Seq<Token> {
        self.tokens@
    }

    /// The index of the current token.
    pub closed spec fn pos(&self) -> int {
        self.current as int
    }

    /// The stream is non-empty, ends with `Eof`, and the cursor is inside it.
    pub open spec fn wf(&self) -> bool {
        &&& self.toks().len() > 0
        &&& self.toks().last().kind == TokenKind::Eof
        &&& 0 <= self.pos() < self.toks().len()
    }

    /// The current token.
    pub open spec fn cur(&self) -> Token {
        self.toks()[self.pos()]
    }

    /// The kind of the token `k` places after the cursor.
    pub open spec fn kind_at(&self, k: int) -> TokenKind {
        self.toks()[self.pos() + k].kind
    }

    /// How many tokens are left, the current one included.
    pub open spec fn remaining(&self) -> nat {
        (self.toks().len() - self.pos()) as nat
    }

    /// `after` is this parser moved forward over the same tokens.
    pub open spec fn advanced_to(&self, after: &Parser) -> bool {
        &&& after.toks() == self.toks()
        &&& self.pos() <= after.pos()
        &&& after.wf()
    }

    /// The position that `advance` moves to.
    pub open spec fn next_pos(&self) -> int {
        if self.cur().kind == TokenKind::Eof { self.pos() } else { self.pos() + 1 }
    }

    /// Builds a parser; the stream must be non-empty and end with `Eof`.
    pub fn new(tokens: Vec<Token>) -> (r: Result<Parser, ParseError>)
        ensures
            r is Ok <==> (tokens@.len() > 0 && tokens@.last().kind == TokenKind::Eof),
            r matches Ok(p) ==> p.toks() == tokens@ && p.pos() == 0 && p.wf(),
            r matches Err(e) ==> (if tokens@.len() == 0 {
                e.0 == (SourceLoc { line: 0, column: 0, offset: 0 })
                    && e.1@ == "Parser received an empty token stream"@
            } else {
                e.0 == tokens@.last().loc && e.1@ == "Token stream must end with EOF"@
            }),
    {
        if tokens.len() == 0 {
            proof { reveal_strlit("Parser received an empty token stream"); }
            return Err((SourceLoc::new(0, 0, 0), String::from_str("Parser received an empty token stream")));
        }
        let n = tokens.len();
        if tokens[n - 1].kind != TokenKind::Eof {
            let loc = tokens[n - 1].loc;
            return Err((loc, String::from_str("Token stream must end with EOF")));
        }
        Ok(Parser { tokens, current: 0 })
    }

    /// Moves to the next token unless the current one is `Eof`.
    pub fn advance(&mut self) -> (r: Result<(), ParseError>)
        requires
            old(self).wf(),
        ensures
            final(self).wf(),
            final(self).toks() == old(self).toks(),
            final(self).pos() == old(self).next_pos(),
            r is Ok,
    {
        let n = self.tokens.len();
        if !self.check(TokenKind::Eof) {
            assert(self.current + 1 < n);
            self.current = self.current + 1;
        }
        Ok(())
    }

    /// Whether the current token has the given kind.
    pub fn check(&self, kind: TokenKind) -> (r: bool)
        requires
            self.wf(),
        ensures
            r == (self.cur().kind == kind),
    {
        self.tokens[self.current].kind == kind
    }

    /// Consumes the current token if it has the given kind.
    pub fn match_token(&mut self, kind: TokenKind) -> (r: bool)
        requires
            old(self).wf(),
        ensures
            final(self).wf(),
            final(self).toks() == old(self).toks(),
            r == (old(self).cur().kind == kind),
            final(self).pos() == if r { old(self).next_pos() } else { old(self).pos() },
    {
        if self.check(kind) {
            let _ = self.advance();
            true
        } else {
            false
        }
    }

    /// Consumes and returns the current token if it has the given kind.
    pub fn expect(&mut self, kind: TokenKind) -> (r: Result<Token, ParseError>)
        requires
            old(self).wf(),
        ensures
            final(self).wf(),
            final(self).toks() == old(self).toks(),
            r is Ok <==> old(self).cur().kind == kind,
            r matches Ok(t) ==> t == old(self).cur() && final(self).pos() == old(self).next_pos(),
            r matches Err(e) ==> final(self).pos() == old(self).pos() && e.0 == old(self).cur().loc
                && e.1@ == expected_message(kind, old(self).cur().kind),
    {
        if self.check(kind) {
            let tok = self.current().duplicate();
            let _ = self.advance();
            Ok(tok)
        } else {
            let found = self.current().kind;
            proof { reveal_strlit("Expected "); reveal_strlit(", found "); }
            let mut msg = String::from_str("Expected ");
            msg.append(kind.name());
            msg.append(", found ");
            msg.append(found.name());
            Err((self.current().loc, msg))
        }
    }

    /// Consumes a `;` if one is current.
    pub fn skip_semicolon(&mut self)
        requires
            old(self).wf(),
        ensures
            final(self).wf(),
            final(self).toks() == old(self).toks(),
            final(self).pos() == skip_semi(old(self).toks(), old(self).pos()),
    {
        let _ = self.match_token(TokenKind::Semicolon);
    }

    /// Ends a list item: consumes a `;` or `,`, or accepts the list's
    /// closing token `close` without consuming it.
    pub fn end_item(&mut self, close: TokenKind) -> (r: Result<(), ParseError>)
        requires
            old(self).wf(),
        ensures
            final(self).wf(),
            final(self).toks() == old(self).toks(),
            match spec_item_end(old(self).toks(), old(self).pos(), close) {
                Ok(q) => r is Ok && final(self).pos() == q,
                Err(x) => r matches Err(e) && e.0 == x.0 && e.1@ == x.1 && final(self).pos() == old(self).pos(),
            },
    {
        if self.match_token(TokenKind::Semicolon) {
            return Ok(());
        }
        if self.match_token(TokenKind::Comma) {
            return Ok(());
        }
        if self.check(close) {
            return Ok(());
        }
        match self.expect(TokenKind::Semicolon) {
            Ok(_) => Ok(()),
            Err(e) => Err(e),
        }
    }

    /// An error at the current token with the given message.
    pub fn error(&self, message: String) -> (r: ParseError)
        requires
            self.wf(),
        ensures
            r.0 == self.cur().loc,
            r.1 == message,
    {
        (self.current().loc, message)
    }

    /// The current token.
    pub fn current(&self) -> (r: &Token)
        requires
            self.wf(),
        ensures
            *r == self.cur(),
    {
        &self.tokens[self.current]
    }

    /// The location of the current token.
    pub fn current_loc(&self) -> (r: SourceLoc)
        requires
            self.wf(),
        ensures
            r == self.cur().loc,
    {
        self.current().loc
    }

    /// The kind of the current token.
    pub fn current_kind(&self) -> (r: TokenKind)
        requires
            self.wf(),
        ensures
            r == self.cur().kind,
    {
        self.current().kind
    }
}

} // verus!

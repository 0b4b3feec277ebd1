//! Tokens, their mathematical model, and the cursor-carrying collection the
//! evaluator walks over.

use vstd::prelude::*;

verus! {

/// The kind of a token. `Empty` is a transient placeholder used during
/// tokenization; an `Empty` token left in a finished sequence has no content
/// and is inert at evaluation time.
#[derive(PartialEq, Eq, Clone, Copy, Debug, Structural)]
pub enum TokenKind {
    /// An integer literal: one or more decimal digits.
    Integer,
    /// A character literal: the payload between two apostrophes.
    Character,
    /// A string literal: the payload between two double quotes.
    Text,
    /// A word: an operator or built-in name, dispatched by exact content.
    Word,
    /// A placeholder with no content.
    Empty,
}

/// The mathematical model of a token: its kind, its accumulated text, and the
/// line and column of its first character (1-based, for diagnostics).
#[verifier::ext_equal]
pub ghost struct TokenModel {
    pub kind: TokenKind,
    pub content: Seq<char>,
    pub line: int,
    pub pos: int,
}

/// A token, immutable once the tokenizer has finished.
#[derive(Debug)]
pub struct Token {
    pub kind: TokenKind,
    pub content: Vec<char>,
    pub line: u64,
    pub pos: u64,
}

impl View for Token {
    type V = TokenModel;

    open spec fn view(&self) -> TokenModel {
        TokenModel {
            kind: self.kind,
            content: self.content@,
            line: self.line as int,
            pos: self.pos as int,
        }
    }
}

/// The model of a token sequence with its cursor.
#[verifier::ext_equal]
pub ghost struct CursorModel {
    pub toks: Seq<TokenModel>,
    pub ptr: int,
}

/// An ordered, read-only token sequence together with the single cursor the
/// evaluator owns: the cursor advances, reads the current token, or jumps to
/// an absolute position; the tokens themselves are never changed.
pub struct TokenColelction {
    pub tokens: Vec<Token>,
    pub pointer: usize,
}

impl View for TokenColelction {
    type V = CursorModel;

    open spec fn view(&self) -> CursorModel {
        CursorModel { toks: self.tokens@.map_values(|t: Token| t@), ptr: self.pointer as int }
    }
}

impl TokenColelction {
    /// The cursor is always within the token sequence, one past the end at most.
    pub open spec fn wf(&self) -> bool {
        0 <= self@.ptr <= self@.toks.len()
    }

    /// Wraps a finished token sequence with the cursor at its start.
    pub fn new(tokens: Vec<Token>) -> (r: TokenColelction)
        ensures
            r@.toks == tokens@.map_values(|t: Token| t@),
            r@.ptr == 0,
            r.wf(),
    {
        TokenColelction { tokens, pointer: 0 }
    }

    /// Advances the cursor by one token.
    pub fn next(&mut self)
        requires
            old(self)@.ptr < old(self)@.toks.len(),
        ensures
            final(self)@.toks == old(self)@.toks,
            final(self)@.ptr == old(self)@.ptr + 1,
            final(self).wf(),
    {
        let bound: usize = self.tokens.len();
        proof {
            assert(self.pointer < bound);
        }
        self.pointer += 1;
    }

    /// The token under the cursor, or `None` once the cursor has passed the end.
    pub fn curent(&self) -> (r: Option<&Token>)
        requires
            self.wf(),
        ensures
            match r {
                Some(t) => self@.ptr < self@.toks.len() && t@ == self@.toks[self@.ptr],
                None => self@.ptr == self@.toks.len(),
            },
    {
        if self.pointer == self.tokens.len() {
            return None;
        }
        Some(&self.tokens[self.pointer])
    }

    /// Whether the cursor still has a token to read.
    pub fn running(&self) -> (r: bool)
        ensures
            r == (self@.ptr < self@.toks.len()),
    {
        self.pointer < self.tokens.len()
    }

    /// Jumps the cursor to an absolute position.
    pub fn set(&mut self, value: usize)
        ensures
            final(self)@.toks == old(self)@.toks,
            final(self)@.ptr == value as int,
    {
        self.pointer = value;
    }
}

} // verus!

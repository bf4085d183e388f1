use vstd::prelude::*;
use crate::ast::{Ast, AstKind, AstNode, NodeRef};
use crate::diagnostics::DiagnosticDetails;
use crate::parser::token::Token;

verus! {

pub struct Parser<'unit> {
    /// The current cursor over the token list
    cursor: TokenCursor<'unit>,
    /// List of produced error diagnostics
    diagnostics: Vec<DiagnosticDetails>,
    /// The managing AST object, which contains a flattened list of nodes
    /// and an optional root node reference.
    ast: Ast,
}

impl<'unit> Parser<'unit> {
    pub closed spec fn spec_cursor(&self) -> TokenCursor<'unit> {
        self.cursor
    }

    pub closed spec fn spec_diagnostics(&self) -> Seq<DiagnosticDetails> {
        self.diagnostics@
    }

    pub closed spec fn spec_ast(&self) -> Ast {
        self.ast
    }

    pub fn new(cursor: TokenCursor<'unit>) -> (p: Self)
        ensures
            p.spec_cursor() == cursor,
            p.spec_diagnostics() == Seq::<DiagnosticDetails>::empty(),
            p.spec_ast().wf(),
            p.spec_ast().nodes().len() == 1,
            p.spec_ast().nodes()[0] == AstNode::spec_new(AstKind::Invalid, 0, 0, NodeRef::spec_new(0)),
            p.spec_ast().spec_root() is None,
    {
        Self { cursor, diagnostics: Vec::new(), ast: Ast::empty() }
    }

    pub fn ast(&self) -> (a: &Ast)
        ensures
            *a == self.spec_ast(),
    {
        &self.ast
    }

    pub fn diagnostics(&self) -> (d: &Vec<DiagnosticDetails>)
        ensures
            d@ == self.spec_diagnostics(),
    {
        &self.diagnostics
    }
}

/// Cursor-like iteration utility over an in-memory list of tokens.
pub struct TokenCursor<'a> {
    tokens: &'a mut Vec<Token>,
    index: usize,
    eof: Token,
}

impl<'a> TokenCursor<'a> {
    pub closed spec fn spec_tokens(&self) -> Seq<Token> {
        self.tokens@
    }

    pub closed spec fn spec_index(&self) -> usize {
        self.index
    }

    pub closed spec fn wf(&self) -> bool {
        self.eof == Token::spec_eof()
    }

    /// The token at `idx`, or the end-of-file token out of bounds.
    pub open spec fn token_at(&self, idx: int) -> Token {
        if 0 <= idx < self.spec_tokens().len() {
            self.spec_tokens()[idx]
        } else {
            Token::spec_eof()
        }
    }

    pub fn new(tokens: &'a mut Vec<Token>) -> (c: Self)
        ensures
            c.wf(),
            c.spec_tokens() == old(tokens)@,
            c.spec_index() == 0,
    {
        TokenCursor { tokens, index: 0, eof: Token::eof() }
    }

    /// The token at `idx`; the end-of-file token is returned for
    /// out-of-bounds indices.
    pub fn at(&self, idx: usize) -> (t: &Token)
        requires
            self.wf(),
        ensures
            *t == self.token_at(idx as int),
    {
        if idx < self.tokens.len() {
            &self.tokens[idx]
        } else {
            &self.eof
        }
    }

    pub fn advance(&mut self) -> (t: &Token)
        requires
            old(self).wf(),
            old(self).spec_index() < usize::MAX,
        ensures
            final(self).wf(),
            final(self).spec_tokens() == old(self).spec_tokens(),
            final(self).spec_index() == old(self).spec_index() + 1,
            *t == final(self).token_at(final(self).spec_index() as int),
    {
        self.index += 1;
        self.at(self.index)
    }

    pub fn peek(&self) -> (t: &Token)
        requires
            self.wf(),
        ensures
            *t == self.token_at(self.spec_index() as int),
    {
        self.at(self.index)
    }
}

} // verus!

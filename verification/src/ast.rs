//! The abstract syntax tree: the statement nodes the parser produces.
//! Statement bodies are still raw literal text; structured expressions are a
//! later extension.

use vstd::prelude::*;
use crate::token::{Token, TokenV};

verus! {

/// A syntax-tree node: anything that can report the literal of the token it
/// began with.
pub trait Node {
    /// The literal of the node's leading token, as a character sequence.
    spec fn spec_token_literal(&self) -> Seq<char>;

    /// The literal of the node's leading token.
    fn token_literal(&self) -> (r: String)
        ensures
            r@ == self.spec_token_literal(),
    ;
}

/// A top-level statement.
#[derive(Debug)]
pub enum Statement {
    Let(LetStatement),
    Return(ReturnStatement),
}

/// `return <expr> ;` — the trailing text is kept as a raw literal until
/// expression parsing exists.
#[derive(Debug)]
pub struct ReturnStatement {
    pub token: Token,
    pub value: String,
}

/// `let <name> = <expr> ;` — the trailing text is kept as a raw literal until
/// expression parsing exists.
#[derive(Debug)]
pub struct LetStatement {
    pub token: Token,
    pub name: Identifier,
    pub value: String,
}

/// A name appearing in the source, together with the token it came from.
#[derive(Debug)]
pub struct Identifier {
    pub token: Token,
    pub value: String,
}

// ---------------------------------------------------------------------------
// Mathematical values of the nodes
// ---------------------------------------------------------------------------

/// The mathematical value of an [`Identifier`].
pub struct IdentifierV {
    pub token: TokenV,
    pub value: Seq<char>,
}

/// The mathematical value of a [`LetStatement`].
pub struct LetStatementV {
    pub token: TokenV,
    pub name: IdentifierV,
    pub value: Seq<char>,
}

/// The mathematical value of a [`ReturnStatement`].
pub struct ReturnStatementV {
    pub token: TokenV,
    pub value: Seq<char>,
}

/// The mathematical value of a [`Statement`].
pub enum StatementV {
    Let(LetStatementV),
    Return(ReturnStatementV),
}

impl View for Identifier {
    type V = IdentifierV;

    open spec fn view(&self) -> IdentifierV {
        IdentifierV { token: self.token@, value: self.value@ }
    }
}

impl View for LetStatement {
    type V = LetStatementV;

    open spec fn view(&self) -> LetStatementV {
        LetStatementV { token: self.token@, name: self.name@, value: self.value@ }
    }
}

impl View for ReturnStatement {
    type V = ReturnStatementV;

    open spec fn view(&self) -> ReturnStatementV {
        ReturnStatementV { token: self.token@, value: self.value@ }
    }
}

impl View for Statement {
    type V = StatementV;

    open spec fn view(&self) -> StatementV {
        match self {
            Statement::Let(s) => StatementV::Let(s@),
            Statement::Return(s) => StatementV::Return(s@),
        }
    }
}

impl Node for Identifier {
    open spec fn spec_token_literal(&self) -> Seq<char> {
        self.token@.lit
    }

    fn token_literal(&self) -> (r: String)
        ensures
            r@ == self.spec_token_literal(),
    {
        self.token.literal.clone()
    }
}

impl Node for LetStatement {
    open spec fn spec_token_literal(&self) -> Seq<char> {
        self.token@.lit
    }

    fn token_literal(&self) -> (r: String)
        ensures
            r@ == self.spec_token_literal(),
    {
        self.token.literal.clone()
    }
}

impl Node for ReturnStatement {
    open spec fn spec_token_literal(&self) -> Seq<char> {
        self.token@.lit
    }

    fn token_literal(&self) -> (r: String)
        ensures
            r@ == self.spec_token_literal(),
    {
        self.token.literal.clone()
    }
}

impl Node for Statement {
    open spec fn spec_token_literal(&self) -> Seq<char> {
        match self {
            Statement::Let(s) => s.spec_token_literal(),
            Statement::Return(s) => s.spec_token_literal(),
        }
    }

    fn token_literal(&self) -> (r: String)
        ensures
            r@ == self.spec_token_literal(),
    {
        match self {
            Statement::Let(s) => s.token_literal(),
            Statement::Return(s) => s.token_literal(),
        }
    }
}

} // verus!

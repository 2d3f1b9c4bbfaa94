//! The parser: pulls tokens from the lexer with one token of lookahead and
//! assembles `let` and `return` statements, recording a diagnostic for every
//! failed grammar expectation instead of aborting.
//!
//! The specification side models a parse as a pair of recursive functions
//! over the token stream: [`parse_program_spec`] gives the statements and the
//! diagnostics that parsing from a given stream position yields.

use vstd::prelude::*;
use vstd::string::StringExecFns;
use crate::ast::{Identifier, IdentifierV, LetStatement, LetStatementV, ReturnStatement,
    ReturnStatementV, Statement, StatementV};
use crate::lexer::{eof_token, token_seq, Lexer};
use crate::token::{Token, TokenType, TokenV};

verus! {

// ---------------------------------------------------------------------------
// The token stream, continued past its end
// ---------------------------------------------------------------------------

/// The token at stream position `i`; past the end of the stream every
/// position holds the end-of-input token.
pub open spec fn tok_at(toks: Seq<TokenV>, i: int) -> TokenV {
    if 0 <= i < toks.len() {
        toks[i]
    } else {
        eof_token()
    }
}

/// How many stream positions remain at or after `i`.
pub open spec fn rem(toks: Seq<TokenV>, i: int) -> int {
    if i <= toks.len() {
        toks.len() - i
    } else {
        0
    }
}

// ---------------------------------------------------------------------------
// Diagnostics
// ---------------------------------------------------------------------------

/// The display name of a token kind, used in diagnostics.
pub open spec fn token_type_name_spec(t: TokenType) -> Seq<char> {
    match t {
        TokenType::Illegal => "Illegal"@,
        TokenType::Eof => "Eof"@,
        TokenType::Ident => "Ident"@,
        TokenType::Int => "Int"@,
        TokenType::Assign => "Assign"@,
        TokenType::Plus => "Plus"@,
        TokenType::Minus => "Minus"@,
        TokenType::Bang => "Bang"@,
        TokenType::Asterisk => "Asterisk"@,
        TokenType::Slash => "Slash"@,
        TokenType::Lt => "Lt"@,
        TokenType::Gt => "Gt"@,
        TokenType::Eq => "Eq"@,
        TokenType::NotEq => "NotEq"@,
        TokenType::Comma => "Comma"@,
        TokenType::Semicolon => "Semicolon"@,
        TokenType::Lparen => "Lparen"@,
        TokenType::Rparen => "Rparen"@,
        TokenType::Lbrace => "Lbrace"@,
        TokenType::Rbrace => "Rbrace"@,
        TokenType::Function => "Function"@,
        TokenType::Let => "Let"@,
        TokenType::Return => "Return"@,
        TokenType::If => "If"@,
        TokenType::Else => "Else"@,
        TokenType::True => "True"@,
        TokenType::False => "False"@,
    }
}

/// The diagnostic recorded when the lookahead token does not have the
/// expected kind.
pub open spec fn err_msg(expected: TokenType, got: TokenType) -> Seq<char> {
    "expected next token to be "@ + token_type_name_spec(expected) + ", got "@
        + token_type_name_spec(got) + " instead"@
}

/// The display name of a token kind.
pub fn token_type_name(t: TokenType) -> (r: String)
    ensures
        r@ == token_type_name_spec(t),
{
    match t {
        TokenType::Illegal => String::from_str("Illegal"),
        TokenType::Eof => String::from_str("Eof"),
        TokenType::Ident => String::from_str("Ident"),
        TokenType::Int => String::from_str("Int"),
        TokenType::Assign => String::from_str("Assign"),
        TokenType::Plus => String::from_str("Plus"),
        TokenType::Minus => String::from_str("Minus"),
        TokenType::Bang => String::from_str("Bang"),
        TokenType::Asterisk => String::from_str("Asterisk"),
        TokenType::Slash => String::from_str("Slash"),
        TokenType::Lt => String::from_str("Lt"),
        TokenType::Gt => String::from_str("Gt"),
        TokenType::Eq => String::from_str("Eq"),
        TokenType::NotEq => String::from_str("NotEq"),
        TokenType::Comma => String::from_str("Comma"),
        TokenType::Semicolon => String::from_str("Semicolon"),
        TokenType::Lparen => String::from_str("Lparen"),
        TokenType::Rparen => String::from_str("Rparen"),
        TokenType::Lbrace => String::from_str("Lbrace"),
        TokenType::Rbrace => String::from_str("Rbrace"),
        TokenType::Function => String::from_str("Function"),
        TokenType::Let => String::from_str("Let"),
        TokenType::Return => String::from_str("Return"),
        TokenType::If => String::from_str("If"),
        TokenType::Else => String::from_str("Else"),
        TokenType::True => String::from_str("True"),
        TokenType::False => String::from_str("False"),
    }
}

// ---------------------------------------------------------------------------
// The grammar, as functions over the token stream
// ---------------------------------------------------------------------------

/// The position on which the token-skipping loop of a statement body stops:
/// the first position at or after `i` whose successor holds a semicolon or
/// the end of input.
pub open spec fn skip_to_semicolon(toks: Seq<TokenV>, i: int) -> int
    decreases rem(toks, i + 1),
{
    if tok_at(toks, i + 1).kind == TokenType::Semicolon || tok_at(toks, i + 1).kind
        == TokenType::Eof {
        i
    } else {
        skip_to_semicolon(toks, i + 1)
    }
}

pub proof fn lemma_skip_to_semicolon_bounds(toks: Seq<TokenV>, i: int)
    ensures
        i <= skip_to_semicolon(toks, i),
    decreases rem(toks, i + 1),
{
    if !(tok_at(toks, i + 1).kind == TokenType::Semicolon || tok_at(toks, i + 1).kind
        == TokenType::Eof) {
        lemma_skip_to_semicolon_bounds(toks, i + 1);
    }
}

/// What parsing a `let` statement whose keyword stands at position `i`
/// yields: the statement (if the grammar was met), the diagnostics, and the
/// position of the last consumed token.
pub open spec fn parse_let_spec(toks: Seq<TokenV>, i: int) -> (Option<StatementV>, Seq<Seq<char>>, int) {
    if tok_at(toks, i + 1).kind != TokenType::Ident {
        (None, seq![err_msg(TokenType::Ident, tok_at(toks, i + 1).kind)], i)
    } else if tok_at(toks, i + 2).kind != TokenType::Assign {
        (None, seq![err_msg(TokenType::Assign, tok_at(toks, i + 2).kind)], i + 1)
    } else {
        let j = skip_to_semicolon(toks, i + 2);
        let name = IdentifierV { token: tok_at(toks, i + 1), value: tok_at(toks, i + 1).lit };
        let stmt = LetStatementV {
            token: tok_at(toks, i),
            name: name,
            value: tok_at(toks, j).lit,
        };
        (Some(StatementV::Let(stmt)), Seq::empty(), j)
    }
}

/// What parsing a `return` statement whose keyword stands at position `i`
/// yields.
pub open spec fn parse_return_spec(toks: Seq<TokenV>, i: int) -> (Option<StatementV>, Seq<Seq<char>>, int) {
    let j = skip_to_semicolon(toks, i + 1);
    let stmt = ReturnStatementV { token: tok_at(toks, i), value: tok_at(toks, j).lit };
    (Some(StatementV::Return(stmt)), Seq::empty(), j)
}

/// What one dispatch on the token at position `i` yields: a `let` or
/// `return` statement is parsed, any other token produces nothing.
pub open spec fn parse_statement_spec(toks: Seq<TokenV>, i: int) -> (Option<StatementV>, Seq<Seq<char>>, int) {
    let k = tok_at(toks, i).kind;
    if k == TokenType::Let {
        parse_let_spec(toks, i)
    } else if k == TokenType::Return {
        parse_return_spec(toks, i)
    } else {
        (None, Seq::empty(), i)
    }
}

pub proof fn lemma_parse_statement_bounds(toks: Seq<TokenV>, i: int)
    ensures
        i <= parse_statement_spec(toks, i).2,
{
    lemma_skip_to_semicolon_bounds(toks, i + 1);
    lemma_skip_to_semicolon_bounds(toks, i + 2);
}

/// A token that starts no statement (neither `let` nor `return`) produces
/// no statement node and no diagnostic under the current grammar, and the
/// dispatch leaves the cursor where it stood.
pub proof fn lemma_unknown_statement_skipped(toks: Seq<TokenV>, i: int)
    requires
        tok_at(toks, i).kind != TokenType::Let,
        tok_at(toks, i).kind != TokenType::Return,
    ensures
        parse_statement_spec(toks, i).0 is None,
        parse_statement_spec(toks, i).1 == Seq::<Seq<char>>::empty(),
        parse_statement_spec(toks, i).2 == i,
{
}

/// What parsing the whole program from position `i` yields: the statements
/// in source order and the diagnostics in encounter order.  Parsing stops on
/// the first end-of-input token and never aborts early: a malformed
/// statement is omitted while its diagnostic is kept.
pub open spec fn parse_program_spec(toks: Seq<TokenV>, i: int) -> (Seq<StatementV>, Seq<Seq<char>>)
    decreases rem(toks, i),
        via parse_program_spec_dec
{
    if tok_at(toks, i).kind == TokenType::Eof {
        (Seq::empty(), Seq::empty())
    } else {
        let step = parse_statement_spec(toks, i);
        let tail = parse_program_spec(toks, step.2 + 1);
        let stmts = match step.0 {
            Some(stmt) => seq![stmt] + tail.0,
            None => tail.0,
        };
        (stmts, step.1 + tail.1)
    }
}

#[via_fn]
proof fn parse_program_spec_dec(toks: Seq<TokenV>, i: int) {
    if tok_at(toks, i).kind != TokenType::Eof {
        lemma_parse_statement_bounds(toks, i);
    }
}

/// Parser progress: a parse never yields more statements, nor more
/// diagnostics, than there are tokens left in the stream — every statement
/// and every diagnostic consumes at least one token, so parsing a finite
/// buffer is bounded by its length.
pub proof fn lemma_parser_progress(toks: Seq<TokenV>, i: int)
    ensures
        parse_program_spec(toks, i).0.len() <= rem(toks, i),
        parse_program_spec(toks, i).1.len() <= rem(toks, i),
    decreases rem(toks, i),
{
    if tok_at(toks, i).kind != TokenType::Eof {
        lemma_parse_statement_bounds(toks, i);
        lemma_parser_progress(toks, parse_statement_spec(toks, i).2 + 1);
    }
}

// ---------------------------------------------------------------------------
// The parser
// ---------------------------------------------------------------------------

/// What is left of a token stream once the first `k` tokens are consumed.
pub open spec fn stream_from(toks: Seq<TokenV>, k: int) -> Seq<TokenV> {
    if 0 <= k <= toks.len() {
        toks.skip(k)
    } else {
        Seq::empty()
    }
}

proof fn lemma_stream_step(toks: Seq<TokenV>, k: int)
    requires
        0 <= k,
    ensures
        stream_from(toks, k).len() > 0 ==> stream_from(toks, k)[0] == tok_at(toks, k)
            && stream_from(toks, k).drop_first() =~= stream_from(toks, k + 1),
        stream_from(toks, k).len() == 0 ==> tok_at(toks, k) == eof_token() && stream_from(
            toks,
            k + 1,
        ) =~= Seq::<TokenV>::empty(),
{
    if k < toks.len() {
        assert(stream_from(toks, k).drop_first() =~= stream_from(toks, k + 1));
    }
}

/// A recursive-descent parser over a lexer's token stream, holding the
/// current token and one token of lookahead, together with the diagnostics
/// recorded so far.  The ghost fields carry the whole token stream of the
/// source buffer and the stream position of the current token.
pub struct Parser {
    lexer: Lexer,
    current_token: Token,
    peek_token: Token,
    errors: Vec<String>,
    toks: Ghost<Seq<TokenV>>,
    idx: Ghost<int>,
}

impl Parser {
    /// The whole token stream of the source buffer being parsed.
    pub closed spec fn stream(&self) -> Seq<TokenV> {
        self.toks@
    }

    /// The stream position of the current token.
    pub closed spec fn cursor(&self) -> int {
        self.idx@
    }

    /// The current token.
    pub closed spec fn cur(&self) -> TokenV {
        self.current_token@
    }

    /// The lookahead token.
    pub closed spec fn peek(&self) -> TokenV {
        self.peek_token@
    }

    /// The diagnostics recorded so far, as character sequences in encounter
    /// order.
    pub closed spec fn errors_view(&self) -> Seq<Seq<char>> {
        self.errors@.map_values(|s: String| s@)
    }

    /// The lookahead buffer mirrors the token stream: the current and peek
    /// tokens stand at the cursor, and the lexer holds exactly the tokens
    /// after them.
    pub closed spec fn wf(&self) -> bool {
        &&& self.lexer.wf()
        &&& 0 <= self.idx@
        &&& self.current_token@ == tok_at(self.toks@, self.idx@)
        &&& self.peek_token@ == tok_at(self.toks@, self.idx@ + 1)
        &&& token_seq(self.lexer.buf(), self.lexer.pos()) == stream_from(self.toks@, self.idx@ + 2)
    }

    /// Builds a parser over the given lexer, already primed with the first
    /// token and one token of lookahead.
    pub fn new(lexer: Lexer) -> (p: Parser)
        requires
            lexer.wf(),
        ensures
            p.wf(),
            p.stream() == token_seq(lexer.buf(), lexer.pos()),
            p.cursor() == 0,
            p.errors_view() == Seq::<Seq<char>>::empty(),
    {
        let ghost toks = token_seq(lexer.buf(), lexer.pos());
        let mut lexer = lexer;
        proof {
            assert(stream_from(toks, 0) =~= toks);
            lemma_stream_step(toks, 0);
        }
        let current_token = lexer.next_token();
        proof {
            lemma_stream_step(toks, 1);
        }
        let peek_token = lexer.next_token();
        let p = Parser {
            lexer,
            current_token,
            peek_token,
            errors: Vec::new(),
            toks: Ghost(toks),
            idx: Ghost(0int),
        };
        proof {
            assert(p.errors_view() =~= Seq::<Seq<char>>::empty());
        }
        p
    }

    /// Shifts the lookahead token into the current slot and draws a fresh
    /// lookahead token from the lexer.
    fn next_token(&mut self)
        requires
            old(self).wf(),
        ensures
            final(self).wf(),
            final(self).stream() == old(self).stream(),
            final(self).cursor() == old(self).cursor() + 1,
            final(self).errors_view() == old(self).errors_view(),
    {
        let ghost toks = self.toks@;
        let ghost i = self.idx@;
        proof {
            lemma_stream_step(toks, i + 2);
        }
        self.current_token = self.peek_token.clone();
        self.peek_token = self.lexer.next_token();
        self.idx = Ghost(i + 1);
    }

    /// Whether the current token has the given kind.
    fn cur_token_is(&self, token: TokenType) -> (r: bool)
        ensures
            r == (self.cur().kind == token),
    {
        self.current_token.token_type == token
    }

    /// Whether the lookahead token has the given kind.
    fn peek_token_is(&self, token: TokenType) -> (r: bool)
        ensures
            r == (self.peek().kind == token),
    {
        self.peek_token.token_type == token
    }

    /// Records the diagnostic for a lookahead token that does not have the
    /// expected kind.
    fn peak_error(&mut self, token: TokenType)
        requires
            old(self).wf(),
        ensures
            final(self).wf(),
            final(self).stream() == old(self).stream(),
            final(self).cursor() == old(self).cursor(),
            final(self).errors_view() == old(self).errors_view().push(
                err_msg(token, tok_at(old(self).stream(), old(self).cursor() + 1).kind),
            ),
    {
        let ghost e0 = self.errors_view();
        let mut msg = String::from_str("expected next token to be ");
        let expected_name = token_type_name(token);
        msg.append(expected_name.as_str());
        msg.append(", got ");
        let got_name = token_type_name(self.peek_token.token_type);
        msg.append(got_name.as_str());
        msg.append(" instead");
        proof {
            assert(msg@ == err_msg(token, self.peek_token@.kind));
        }
        self.errors.push(msg);
        proof {
            assert(self.errors_view() =~= e0.push(
                err_msg(token, tok_at(self.toks@, self.idx@ + 1).kind),
            ));
        }
    }

    /// The grammar-assertion primitive: if the lookahead token has the
    /// expected kind, advance onto it and report success; otherwise record a
    /// diagnostic and report failure without advancing.
    fn expect_peek(&mut self, token: TokenType) -> (r: bool)
        requires
            old(self).wf(),
        ensures
            final(self).wf(),
            final(self).stream() == old(self).stream(),
            r == (tok_at(old(self).stream(), old(self).cursor() + 1).kind == token),
            r ==> final(self).cursor() == old(self).cursor() + 1 && final(self).errors_view()
                == old(self).errors_view(),
            !r ==> final(self).cursor() == old(self).cursor() && final(self).errors_view() == old(
                self,
            ).errors_view().push(
                err_msg(token, tok_at(old(self).stream(), old(self).cursor() + 1).kind),
            ),
    {
        if self.peek_token_is(token) {
            self.next_token();
            true
        } else {
            self.peak_error(token);
            false
        }
    }

    /// Parses every statement until the end of input and returns them in
    /// source order; diagnostics for malformed statements accumulate in the
    /// parser and are read back with [`Parser::errors`].
    pub fn parse_program(&mut self) -> (program: Vec<Statement>)
        requires
            old(self).wf(),
        ensures
            final(self).wf(),
            final(self).stream() == old(self).stream(),
            ({
                let sp = parse_program_spec(old(self).stream(), old(self).cursor());
                &&& program@.map_values(|s: Statement| s@) == sp.0
                &&& final(self).errors_view() == old(self).errors_view() + sp.1
            }),
    {
        let ghost toks = self.toks@;
        let ghost i0 = self.idx@;
        let ghost e0 = self.errors_view();
        let mut program: Vec<Statement> = Vec::new();
        proof {
            assert(program@.map_values(|s: Statement| s@) =~= Seq::<StatementV>::empty());
            assert(Seq::<StatementV>::empty() + parse_program_spec(toks, i0).0 =~= parse_program_spec(toks, i0).0);
        }
        while !self.cur_token_is(TokenType::Eof)
            invariant
                self.wf(),
                self.stream() == toks,
                i0 <= self.cursor(),
                parse_program_spec(toks, i0).0 =~= program@.map_values(|s: Statement| s@)
                    + parse_program_spec(toks, self.cursor()).0,
                e0 + parse_program_spec(toks, i0).1 =~= self.errors_view() + parse_program_spec(
                    toks,
                    self.cursor(),
                ).1,
            decreases rem(toks, self.cursor()),
        {
            let ghost i = self.idx@;
            let ghost eb = self.errors_view();
            let ghost pv = program@.map_values(|s: Statement| s@);
            proof {
                lemma_parse_statement_bounds(toks, i);
            }
            let statement = self.parse_statement();
            let ghost sp = parse_statement_spec(toks, i);
            let ghost tail = parse_program_spec(toks, sp.2 + 1);
            if statement.is_some() {
                let st = statement.unwrap();
                proof {
                    assert((pv + (seq![st@] + tail.0)) =~= ((pv + seq![st@]) + tail.0));
                    assert(program@.push(st).map_values(|s: Statement| s@) =~= pv + seq![st@]);
                }
                program.push(st);
            }
            self.next_token();
            proof {
                assert((eb + (sp.1 + tail.1)) =~= ((eb + sp.1) + tail.1));
                assert(parse_program_spec(toks, i).1 == sp.1 + tail.1);
            }
        }
        proof {
            assert(parse_program_spec(toks, self.cursor()).0 =~= Seq::<StatementV>::empty());
            assert(parse_program_spec(toks, self.cursor()).1 =~= Seq::<Seq<char>>::empty());
            assert(program@.map_values(|s: Statement| s@) =~= parse_program_spec(toks, i0).0);
            assert(self.errors_view() + Seq::<Seq<char>>::empty() =~= self.errors_view());
            assert(self.errors_view() =~= e0 + parse_program_spec(toks, i0).1);
        }
        program
    }

    /// Dispatches on the current token's kind: a `let` or `return` keyword
    /// starts a statement, any other token produces nothing.
    fn parse_statement(&mut self) -> (r: Option<Statement>)
        requires
            old(self).wf(),
        ensures
            final(self).wf(),
            final(self).stream() == old(self).stream(),
            old(self).cursor() <= final(self).cursor(),
            ({
                let sp = parse_statement_spec(old(self).stream(), old(self).cursor());
                &&& (match r {
                    Some(st) => sp.0 == Some(st@),
                    None => sp.0 is None,
                })
                &&& final(self).cursor() == sp.2
                &&& final(self).errors_view() == old(self).errors_view() + sp.1
            }),
    {
        let ghost e0 = self.errors_view();
        match self.current_token.token_type {
            TokenType::Let => self.parse_let_statement(),
            TokenType::Return => self.parse_return_statement(),
            _ => {
                proof {
                    assert(e0 + Seq::<Seq<char>>::empty() =~= e0);
                }
                None
            },
        }
    }

    /// Parses `let IDENT = <tokens...> ;`.  A missing identifier or missing
    /// `=` abandons the statement, records a diagnostic, and leaves the
    /// cursor where it stood; otherwise the body is scanned over up to the
    /// semicolon (or the end of input) and kept as a raw literal.
    fn parse_let_statement(&mut self) -> (r: Option<Statement>)
        requires
            old(self).wf(),
        ensures
            final(self).wf(),
            final(self).stream() == old(self).stream(),
            old(self).cursor() <= final(self).cursor(),
            ({
                let sp = parse_let_spec(old(self).stream(), old(self).cursor());
                &&& (match r {
                    Some(st) => sp.0 == Some(st@),
                    None => sp.0 is None,
                })
                &&& final(self).cursor() == sp.2
                &&& final(self).errors_view() == old(self).errors_view() + sp.1
            }),
    {
        let ghost toks = self.toks@;
        let ghost i0 = self.idx@;
        let ghost e0 = self.errors_view();
        let current_token = self.current_token.clone();

        if !self.expect_peek(TokenType::Ident) {
            proof {
                assert(e0 + seq![err_msg(TokenType::Ident, tok_at(toks, i0 + 1).kind)] =~= e0.push(
                    err_msg(TokenType::Ident, tok_at(toks, i0 + 1).kind),
                ));
            }
            return None;
        }

        let statement_name = Identifier {
            token: self.current_token.clone(),
            value: self.current_token.literal.clone(),
        };

        if !self.expect_peek(TokenType::Assign) {
            proof {
                assert(e0 + seq![err_msg(TokenType::Assign, tok_at(toks, i0 + 2).kind)] =~= e0.push(
                    err_msg(TokenType::Assign, tok_at(toks, i0 + 2).kind),
                ));
            }
            return None;
        }

        while !self.peek_token_is(TokenType::Semicolon) && !self.peek_token_is(TokenType::Eof)
            invariant
                self.wf(),
                self.stream() == toks,
                i0 + 2 <= self.cursor(),
                self.errors_view() == e0,
                skip_to_semicolon(toks, self.cursor()) == skip_to_semicolon(toks, i0 + 2),
            decreases rem(toks, self.cursor()),
        {
            self.next_token();
        }

        let stmt = LetStatement {
            token: current_token,
            name: statement_name,
            value: self.current_token.literal.clone(),
        };
        proof {
            assert(e0 + Seq::<Seq<char>>::empty() =~= e0);
        }
        Some(Statement::Let(stmt))
    }

    /// Parses `return <tokens...> ;`: the keyword is stepped over and the
    /// body is scanned up to the semicolon (or the end of input) and kept as
    /// a raw literal.
    fn parse_return_statement(&mut self) -> (r: Option<Statement>)
        requires
            old(self).wf(),
        ensures
            final(self).wf(),
            final(self).stream() == old(self).stream(),
            old(self).cursor() <= final(self).cursor(),
            ({
                let sp = parse_return_spec(old(self).stream(), old(self).cursor());
                &&& (match r {
                    Some(st) => sp.0 == Some(st@),
                    None => sp.0 is None,
                })
                &&& final(self).cursor() == sp.2
                &&& final(self).errors_view() == old(self).errors_view() + sp.1
            }),
    {
        let ghost toks = self.toks@;
        let ghost i0 = self.idx@;
        let ghost e0 = self.errors_view();
        let current_token = self.current_token.clone();

        self.next_token();
        proof {
            lemma_skip_to_semicolon_bounds(toks, i0 + 1);
        }

        while !self.peek_token_is(TokenType::Semicolon) && !self.peek_token_is(TokenType::Eof)
            invariant
                self.wf(),
                self.stream() == toks,
                i0 + 1 <= self.cursor(),
                self.errors_view() == e0,
                skip_to_semicolon(toks, self.cursor()) == skip_to_semicolon(toks, i0 + 1),
            decreases rem(toks, self.cursor()),
        {
            self.next_token();
        }

        let stmt = ReturnStatement { token: current_token, value: self.current_token.literal.clone() };
        proof {
            assert(e0 + Seq::<Seq<char>>::empty() =~= e0);
        }
        Some(Statement::Return(stmt))
    }

    /// Returns a copy of the accumulated diagnostics without clearing them.
    pub fn errors(&mut self) -> (r: Vec<String>)
        ensures
            *final(self) == *old(self),
            r@.map_values(|s: String| s@) == old(self).errors_view(),
    {
        let mut r: Vec<String> = Vec::new();
        let mut i: usize = 0;
        while i < self.errors.len()
            invariant
                i <= self.errors@.len(),
                r@.len() == i,
                forall|k: int| 0 <= k < i ==> r@[k] == self.errors@[k],
            decreases self.errors@.len() - i,
        {
            let e = self.errors[i].clone();
            r.push(e);
            i = i + 1;
        }
        proof {
            assert(r@ =~= self.errors@);
            assert(r@.map_values(|s: String| s@) =~= self.errors_view());
        }
        r
    }
}

} // verus!

//! Token kinds and the token value produced by the lexer.

use vstd::prelude::*;
use vstd::string::StrSliceExecFns;

verus! {

/// The closed set of token kinds the lexer can emit.
#[derive(Clone, Copy, PartialEq, Eq, Structural, Debug)]
pub enum TokenType {
    Illegal,
    Eof,
    Ident,
    Int,
    Assign,
    Plus,
    Minus,
    Bang,
    Asterisk,
    Slash,
    Lt,
    Gt,
    Eq,
    NotEq,
    Comma,
    Semicolon,
    Lparen,
    Rparen,
    Lbrace,
    Rbrace,
    Function,
    Let,
    Return,
    If,
    Else,
    True,
    False,
}

/// One lexical token: its kind together with the exact source text
/// (one character per source byte) that produced it.
#[derive(PartialEq, Debug)]
pub struct Token {
    pub token_type: TokenType,
    pub literal: String,
}

/// The mathematical value of a token: its kind and its literal as a
/// character sequence.
pub struct TokenV {
    pub kind: TokenType,
    pub lit: Seq<char>,
}

impl View for Token {
    type V = TokenV;

    open spec fn view(&self) -> TokenV {
        TokenV { kind: self.token_type, lit: self.literal@ }
    }
}

impl Clone for Token {
    fn clone(&self) -> (res: Token)
        ensures
            res == *self,
    {
        Token { token_type: self.token_type, literal: self.literal.clone() }
    }
}

/// The keyword table: the token kind that an identifier spelling denotes.
/// Spellings that are not keywords denote plain identifiers.
pub open spec fn lookup_ident_spec(s: Seq<char>) -> TokenType {
    if s == "fn"@ {
        TokenType::Function
    } else if s == "let"@ {
        TokenType::Let
    } else if s == "return"@ {
        TokenType::Return
    } else if s == "if"@ {
        TokenType::If
    } else if s == "else"@ {
        TokenType::Else
    } else if s == "true"@ {
        TokenType::True
    } else if s == "false"@ {
        TokenType::False
    } else {
        TokenType::Ident
    }
}

/// Character-by-character equality of two string slices.
fn str_eq(a: &str, b: &str) -> (r: bool)
    ensures
        r == (a@ == b@),
{
    let n = a.unicode_len();
    let m = b.unicode_len();
    if n != m {
        return false;
    }
    let mut i: usize = 0;
    while i < n
        invariant
            n == a@.len(),
            n == b@.len(),
            i <= n,
            forall|k: int| 0 <= k < i ==> a@[k] == b@[k],
        decreases n - i,
    {
        if a.get_char(i) != b.get_char(i) {
            return false;
        }
        i = i + 1;
    }
    proof {
        assert(a@ =~= b@);
    }
    true
}

/// Classifies an identifier spelling: a keyword kind for the seven
/// reserved words, `Ident` for everything else.
pub fn lookup_ident(ident: &str) -> (t: TokenType)
    ensures
        t == lookup_ident_spec(ident@),
{
    if str_eq(ident, "fn") {
        TokenType::Function
    } else if str_eq(ident, "let") {
        TokenType::Let
    } else if str_eq(ident, "return") {
        TokenType::Return
    } else if str_eq(ident, "if") {
        TokenType::If
    } else if str_eq(ident, "else") {
        TokenType::Else
    } else if str_eq(ident, "true") {
        TokenType::True
    } else if str_eq(ident, "false") {
        TokenType::False
    } else {
        TokenType::Ident
    }
}

} // verus!

//! The lexer: a deterministic, single-pass scanner that turns a byte buffer
//! into a stream of tokens, one token per `next_token` call, with one byte of
//! lookahead and no backtracking.
//!
//! The specification side models the whole token stream of a buffer as
//! [`token_seq`]: the sequence of tokens that repeated `next_token` calls
//! produce before the scanner reaches the end of the buffer.

use vstd::prelude::*;
use crate::token::{lookup_ident, lookup_ident_spec, Token, TokenType, TokenV};

verus! {

// ---------------------------------------------------------------------------
// Character classes
// ---------------------------------------------------------------------------

/// Letters are the ASCII alphabetic bytes and the underscore.
pub open spec fn is_letter_spec(ch: u8) -> bool {
    ('a' as u8) <= ch <= ('z' as u8) || ('A' as u8) <= ch <= ('Z' as u8) || ch == ('_' as u8)
}

/// Digits are the ASCII decimal digit bytes.
pub open spec fn is_digit_spec(ch: u8) -> bool {
    ('0' as u8) <= ch <= ('9' as u8)
}

/// Whitespace is space, tab, newline or carriage return.
pub open spec fn is_whitespace_spec(ch: u8) -> bool {
    ch == (' ' as u8) || ch == ('\t' as u8) || ch == ('\n' as u8) || ch == ('\r' as u8)
}

/// Whether the given byte starts an identifier or keyword run.
pub fn is_letter(ch: u8) -> (r: bool)
    ensures
        r == is_letter_spec(ch),
{
    ch >= ('a' as u8) && ch <= ('z' as u8) || ch >= ('A' as u8) && ch <= ('Z' as u8) || ch == (
    '_' as u8)
}

/// Whether the given byte is a decimal digit.
pub fn is_digit(ch: u8) -> (r: bool)
    ensures
        r == is_digit_spec(ch),
{
    ch >= ('0' as u8) && ch <= ('9' as u8)
}

// ---------------------------------------------------------------------------
// Literals
// ---------------------------------------------------------------------------

/// The characters spelled by a run of source bytes, one character per byte.
pub open spec fn lit_of(bytes: Seq<u8>) -> Seq<char> {
    bytes.map_values(|b: u8| b as char)
}

/// Relies on `String::push`: appends the given character to the end of the
/// string.
#[verifier::external_body]
fn push_char(s: &mut String, c: char)
    ensures
        final(s)@ == old(s)@.push(c),
{
    s.push(c);
}

/// Builds the one-character string spelled by a single source byte.
pub fn ch_to_utf8(ch: u8) -> (r: String)
    ensures
        r@ == seq![ch as char],
{
    let mut s = String::new();
    push_char(&mut s, ch as char);
    proof {
        assert(s@ =~= seq![ch as char]);
    }
    s
}

/// Builds the string spelled by the byte range `[lo, hi)` of a buffer.
fn bytes_to_literal(input: &Vec<u8>, lo: usize, hi: usize) -> (r: String)
    requires
        lo <= hi <= input@.len(),
    ensures
        r@ == lit_of(input@.subrange(lo as int, hi as int)),
{
    let mut s = String::new();
    let mut i: usize = lo;
    proof {
        assert(s@ =~= lit_of(input@.subrange(lo as int, lo as int)));
    }
    while i < hi
        invariant
            lo <= i <= hi <= input@.len(),
            s@ == lit_of(input@.subrange(lo as int, i as int)),
        decreases hi - i,
    {
        push_char(&mut s, input[i] as char);
        i = i + 1;
        proof {
            assert(s@ =~= lit_of(input@.subrange(lo as int, i as int)));
        }
    }
    s
}

/// Builds a fresh token of the given kind whose literal is the single
/// character spelled by `ch`.
pub fn generate_new_token(token_type: TokenType, ch: u8) -> (t: Token)
    ensures
        t@.kind == token_type,
        t@.lit == seq![ch as char],
{
    Token { token_type, literal: ch_to_utf8(ch) }
}

// ---------------------------------------------------------------------------
// Scan positions
// ---------------------------------------------------------------------------

/// The first position at or after `p` that does not hold whitespace
/// (the buffer length if only whitespace remains).
pub open spec fn skip_ws_end(s: Seq<u8>, p: int) -> int
    decreases s.len() - p,
{
    if 0 <= p < s.len() && is_whitespace_spec(s[p]) {
        skip_ws_end(s, p + 1)
    } else {
        p
    }
}

/// The end (exclusive) of the maximal letter run starting at `p`.
pub open spec fn letters_end(s: Seq<u8>, p: int) -> int
    decreases s.len() - p,
{
    if 0 <= p < s.len() && is_letter_spec(s[p]) {
        letters_end(s, p + 1)
    } else {
        p
    }
}

/// The end (exclusive) of the maximal digit run starting at `p`.
pub open spec fn digits_end(s: Seq<u8>, p: int) -> int
    decreases s.len() - p,
{
    if 0 <= p < s.len() && is_digit_spec(s[p]) {
        digits_end(s, p + 1)
    } else {
        p
    }
}

pub proof fn lemma_skip_ws_end_bounds(s: Seq<u8>, p: int)
    requires
        0 <= p <= s.len(),
    ensures
        p <= skip_ws_end(s, p) <= s.len(),
        skip_ws_end(s, p) < s.len() ==> !is_whitespace_spec(s[skip_ws_end(s, p)]),
        forall|k: int| p <= k < skip_ws_end(s, p) ==> is_whitespace_spec(s[k]),
    decreases s.len() - p,
{
    if p < s.len() && is_whitespace_spec(s[p]) {
        lemma_skip_ws_end_bounds(s, p + 1);
    }
}

pub proof fn lemma_letters_end_bounds(s: Seq<u8>, p: int)
    requires
        0 <= p <= s.len(),
    ensures
        p <= letters_end(s, p) <= s.len(),
        letters_end(s, p) < s.len() ==> !is_letter_spec(s[letters_end(s, p)]),
        0 <= p < s.len() && is_letter_spec(s[p]) ==> letters_end(s, p) > p,
        forall|k: int| p <= k < letters_end(s, p) ==> is_letter_spec(s[k]),
    decreases s.len() - p,
{
    if p < s.len() && is_letter_spec(s[p]) {
        lemma_letters_end_bounds(s, p + 1);
    }
}

pub proof fn lemma_digits_end_bounds(s: Seq<u8>, p: int)
    requires
        0 <= p <= s.len(),
    ensures
        p <= digits_end(s, p) <= s.len(),
        digits_end(s, p) < s.len() ==> !is_digit_spec(s[digits_end(s, p)]),
        0 <= p < s.len() && is_digit_spec(s[p]) ==> digits_end(s, p) > p,
        forall|k: int| p <= k < digits_end(s, p) ==> is_digit_spec(s[k]),
    decreases s.len() - p,
{
    if p < s.len() && is_digit_spec(s[p]) {
        lemma_digits_end_bounds(s, p + 1);
    }
}

proof fn lemma_skip_ws_end_is(s: Seq<u8>, p: int, e: int)
    requires
        0 <= p <= e <= s.len(),
        forall|k: int| p <= k < e ==> is_whitespace_spec(s[k]),
        e == s.len() || !is_whitespace_spec(s[e]),
    ensures
        skip_ws_end(s, p) == e,
    decreases e - p,
{
    if p < e {
        lemma_skip_ws_end_is(s, p + 1, e);
    }
}

proof fn lemma_letters_end_is(s: Seq<u8>, p: int, e: int)
    requires
        0 <= p <= e <= s.len(),
        forall|k: int| p <= k < e ==> is_letter_spec(s[k]),
        e == s.len() || !is_letter_spec(s[e]),
    ensures
        letters_end(s, p) == e,
    decreases e - p,
{
    if p < e {
        lemma_letters_end_is(s, p + 1, e);
    }
}

proof fn lemma_digits_end_is(s: Seq<u8>, p: int, e: int)
    requires
        0 <= p <= e <= s.len(),
        forall|k: int| p <= k < e ==> is_digit_spec(s[k]),
        e == s.len() || !is_digit_spec(s[e]),
    ensures
        digits_end(s, p) == e,
    decreases e - p,
{
    if p < e {
        lemma_digits_end_is(s, p + 1, e);
    }
}

// ---------------------------------------------------------------------------
// The token at a scan position
// ---------------------------------------------------------------------------

/// The kind of the token that starts at the non-whitespace position `j`.
pub open spec fn token_kind_at(s: Seq<u8>, j: int) -> TokenType {
    if !(0 <= j < s.len()) {
        TokenType::Eof
    } else {
        let c = s[j];
        if is_letter_spec(c) {
            lookup_ident_spec(lit_of(s.subrange(j, letters_end(s, j))))
        } else if is_digit_spec(c) {
            TokenType::Int
        } else if c == ('=' as u8) {
            if j + 1 < s.len() && s[j + 1] == ('=' as u8) {
                TokenType::Eq
            } else {
                TokenType::Assign
            }
        } else if c == ('!' as u8) {
            if j + 1 < s.len() && s[j + 1] == ('=' as u8) {
                TokenType::NotEq
            } else {
                TokenType::Bang
            }
        } else if c == ('+' as u8) {
            TokenType::Plus
        } else if c == ('-' as u8) {
            TokenType::Minus
        } else if c == ('*' as u8) {
            TokenType::Asterisk
        } else if c == ('/' as u8) {
            TokenType::Slash
        } else if c == (';' as u8) {
            TokenType::Semicolon
        } else if c == (',' as u8) {
            TokenType::Comma
        } else if c == ('<' as u8) {
            TokenType::Lt
        } else if c == ('>' as u8) {
            TokenType::Gt
        } else if c == ('(' as u8) {
            TokenType::Lparen
        } else if c == (')' as u8) {
            TokenType::Rparen
        } else if c == ('{' as u8) {
            TokenType::Lbrace
        } else if c == ('}' as u8) {
            TokenType::Rbrace
        } else if c == 0 {
            TokenType::Eof
        } else {
            TokenType::Illegal
        }
    }
}

/// The literal of the token that starts at the non-whitespace position `j`.
pub open spec fn token_lit_at(s: Seq<u8>, j: int) -> Seq<char> {
    if !(0 <= j < s.len()) {
        seq!['\0']
    } else {
        let c = s[j];
        if is_letter_spec(c) {
            lit_of(s.subrange(j, letters_end(s, j)))
        } else if is_digit_spec(c) {
            lit_of(s.subrange(j, digits_end(s, j)))
        } else if (c == ('=' as u8) || c == ('!' as u8)) && j + 1 < s.len() && s[j + 1] == (
        '=' as u8) {
            seq![c as char, '=']
        } else {
            seq![c as char]
        }
    }
}

/// The scan position that follows the token starting at the non-whitespace
/// position `j`.
pub open spec fn token_end_at(s: Seq<u8>, j: int) -> int {
    if !(0 <= j < s.len()) {
        s.len() as int
    } else {
        let c = s[j];
        if is_letter_spec(c) {
            letters_end(s, j)
        } else if is_digit_spec(c) {
            digits_end(s, j)
        } else if (c == ('=' as u8) || c == ('!' as u8)) && j + 1 < s.len() && s[j + 1] == (
        '=' as u8) {
            j + 2
        } else {
            j + 1
        }
    }
}

/// The token that starts at the non-whitespace position `j`.
pub open spec fn token_at(s: Seq<u8>, j: int) -> TokenV {
    TokenV { kind: token_kind_at(s, j), lit: token_lit_at(s, j) }
}

/// The end-of-input token: the sentinel the lexer yields once the buffer is
/// exhausted.
pub open spec fn eof_token() -> TokenV {
    TokenV { kind: TokenType::Eof, lit: seq!['\0'] }
}

pub proof fn lemma_token_end_bounds(s: Seq<u8>, j: int)
    requires
        0 <= j < s.len(),
    ensures
        j < token_end_at(s, j) <= s.len(),
{
    lemma_letters_end_bounds(s, j);
    lemma_digits_end_bounds(s, j);
}

// ---------------------------------------------------------------------------
// The token stream of a buffer
// ---------------------------------------------------------------------------

/// The tokens that scanning yields from position `p` to the end of the
/// buffer.  The end-of-input sentinel is not an element: the stream is what
/// comes before the scanner settles on `Eof` forever.
pub open spec fn token_seq(s: Seq<u8>, p: int) -> Seq<TokenV>
    decreases s.len() - p,
        via token_seq_dec
{
    let j = skip_ws_end(s, p);
    if p < 0 || j >= s.len() {
        Seq::empty()
    } else {
        seq![token_at(s, j)] + token_seq(s, token_end_at(s, j))
    }
}

#[via_fn]
proof fn token_seq_dec(s: Seq<u8>, p: int) {
    let j = skip_ws_end(s, p);
    if !(p < 0 || j >= s.len()) {
        lemma_skip_ws_end_bounds(s, p);
        lemma_token_end_bounds(s, j);
    }
}

// ---------------------------------------------------------------------------
// Laws of the token stream
// ---------------------------------------------------------------------------

/// Two-character operator disambiguation: an `=` not followed by another `=`
/// scans as `Assign` with literal `"="`, while `==` scans as one `Eq` token
/// with literal `"=="`; likewise `!` scans as `Bang` unless an `=` follows,
/// in which case `!=` scans as one `NotEq` token with literal `"!="`.
pub proof fn lemma_two_char_disambiguation(s: Seq<u8>, j: int)
    requires
        0 <= j < s.len(),
    ensures
        s[j] == ('=' as u8) && !(j + 1 < s.len() && s[j + 1] == ('=' as u8)) ==> token_at(s, j)
            == (TokenV { kind: TokenType::Assign, lit: seq!['='] }) && token_end_at(s, j) == j + 1,
        s[j] == ('=' as u8) && j + 1 < s.len() && s[j + 1] == ('=' as u8) ==> token_at(s, j) == (
        TokenV { kind: TokenType::Eq, lit: seq!['=', '='] }) && token_end_at(s, j) == j + 2,
        s[j] == ('!' as u8) && !(j + 1 < s.len() && s[j + 1] == ('=' as u8)) ==> token_at(s, j)
            == (TokenV { kind: TokenType::Bang, lit: seq!['!'] }) && token_end_at(s, j) == j + 1,
        s[j] == ('!' as u8) && j + 1 < s.len() && s[j + 1] == ('=' as u8) ==> token_at(s, j) == (
        TokenV { kind: TokenType::NotEq, lit: seq!['!', '='] }) && token_end_at(s, j) == j + 2,
{
    if s[j] == ('=' as u8) || s[j] == ('!' as u8) {
        if j + 1 < s.len() && s[j + 1] == ('=' as u8) {
            assert(token_lit_at(s, j) =~= seq![s[j] as char, '=']);
        } else {
            assert(token_lit_at(s, j) =~= seq![s[j] as char]);
        }
    }
}

/// Whether a run of bytes is all whitespace.
pub open spec fn all_whitespace(w: Seq<u8>) -> bool {
    forall|k: int| 0 <= k < w.len() ==> is_whitespace_spec(w[k])
}

/// The token stream from a position depends only on the byte suffix that
/// starts there: scanning equal suffixes yields equal streams.
pub proof fn lemma_token_seq_suffix(s: Seq<u8>, p: int, t: Seq<u8>, q: int)
    requires
        0 <= p <= s.len(),
        0 <= q <= t.len(),
        s.len() - p == t.len() - q,
        forall|k: int| p <= k < s.len() ==> s[k] == t[k - p + q],
    ensures
        token_seq(s, p) == token_seq(t, q),
    decreases s.len() - p,
{
    lemma_skip_ws_end_bounds(s, p);
    let j = skip_ws_end(s, p);
    let jt = j - p + q;
    assert forall|kt: int| q <= kt < jt implies is_whitespace_spec(t[kt]) by {
        assert(s[kt - q + p] == t[kt]);
    }
    if j < s.len() {
        assert(t[jt] == s[j]);
    }
    lemma_skip_ws_end_is(t, q, jt);
    if j >= s.len() {
        assert(token_seq(s, p) =~= Seq::<TokenV>::empty());
        assert(token_seq(t, q) =~= Seq::<TokenV>::empty());
    } else {
        let c = s[j];
        assert(t[jt] == c);
        lemma_token_end_bounds(s, j);
        let e = token_end_at(s, j);
        let et = e - p + q;
        if is_letter_spec(c) {
            lemma_letters_end_bounds(s, j);
            let le = letters_end(s, j);
            assert forall|kt: int| jt <= kt < le - p + q implies is_letter_spec(t[kt]) by {
                assert(s[kt - q + p] == t[kt]);
            }
            if le < s.len() {
                assert(t[le - p + q] == s[le]);
            }
            lemma_letters_end_is(t, jt, le - p + q);
            assert(s.subrange(j, le) =~= t.subrange(jt, le - p + q));
        } else if is_digit_spec(c) {
            lemma_digits_end_bounds(s, j);
            let de = digits_end(s, j);
            assert forall|kt: int| jt <= kt < de - p + q implies is_digit_spec(t[kt]) by {
                assert(s[kt - q + p] == t[kt]);
            }
            if de < s.len() {
                assert(t[de - p + q] == s[de]);
            }
            lemma_digits_end_is(t, jt, de - p + q);
            assert(s.subrange(j, de) =~= t.subrange(jt, de - p + q));
        } else {
            if j + 1 < s.len() {
                assert(s[j + 1] == t[jt + 1]);
            }
            assert((j + 1 < s.len() && s[j + 1] == ('=' as u8)) <==> (jt + 1 < t.len() && t[jt + 1]
                == ('=' as u8)));
        }
        assert(token_kind_at(t, jt) == token_kind_at(s, j));
        assert(token_lit_at(t, jt) == token_lit_at(s, j));
        assert(token_end_at(t, jt) == et);
        lemma_token_seq_suffix(s, e, t, et);
        assert(token_seq(s, p) == seq![token_at(s, j)] + token_seq(s, e));
        assert(token_seq(t, q) == seq![token_at(t, jt)] + token_seq(t, et));
        assert(token_at(t, jt) == token_at(s, j));
    }
}

proof fn lemma_skip_ws_end_ge(s: Seq<u8>, p: int)
    ensures
        skip_ws_end(s, p) >= p,
    decreases s.len() - p,
{
    if 0 <= p < s.len() && is_whitespace_spec(s[p]) {
        lemma_skip_ws_end_ge(s, p + 1);
    }
}

/// Whether the scanner, started at position `p`, ever stands exactly on
/// position `q` between two tokens (or at the very start or end of its run).
pub open spec fn scan_reaches(s: Seq<u8>, p: int, q: int) -> bool
    decreases s.len() - p,
        via scan_reaches_dec
{
    p == q || {
        let j = skip_ws_end(s, p);
        0 <= p && j < s.len() && scan_reaches(s, token_end_at(s, j), q)
    }
}

#[via_fn]
proof fn scan_reaches_dec(s: Seq<u8>, p: int, q: int) {
    if p != q {
        let j = skip_ws_end(s, p);
        if 0 <= p && j < s.len() {
            lemma_skip_ws_end_ge(s, p);
            lemma_token_end_bounds(s, j);
        }
    }
}

/// Whether `q` is a token boundary of the buffer: a position on which the
/// scanner stands between two tokens (or before the first, or after the
/// last) when it scans the buffer from the start.
pub open spec fn is_token_boundary(s: Seq<u8>, q: int) -> bool {
    scan_reaches(s, 0, q)
}

proof fn lemma_scan_reaches_le(s: Seq<u8>, p: int, q: int)
    requires
        scan_reaches(s, p, q),
    ensures
        p <= q,
    decreases s.len() - p,
{
    if p != q {
        let j = skip_ws_end(s, p);
        lemma_skip_ws_end_ge(s, p);
        lemma_token_end_bounds(s, j);
        lemma_scan_reaches_le(s, token_end_at(s, j), q);
    }
}

proof fn lemma_skip_ws_end_through(s: Seq<u8>, p: int, q: int)
    requires
        0 <= p <= q <= s.len(),
        forall|k: int| p <= k < q ==> is_whitespace_spec(s[k]),
    ensures
        skip_ws_end(s, p) == skip_ws_end(s, q),
    decreases q - p,
{
    if p < q {
        lemma_skip_ws_end_through(s, p + 1, q);
    }
}

/// Leading whitespace never changes the token stream.
pub proof fn lemma_ws_prefix(w: Seq<u8>, v: Seq<u8>)
    requires
        all_whitespace(w),
    ensures
        token_seq(w + v, 0) == token_seq(v, 0),
{
    let x = w + v;
    assert(forall|k: int| 0 <= k < w.len() ==> is_whitespace_spec(x[k]));
    lemma_skip_ws_end_through(x, 0, w.len() as int);
    assert(token_seq(x, 0) == token_seq(x, w.len() as int));
    assert(forall|k: int| w.len() <= k < x.len() ==> x[k] == v[k - w.len()]);
    lemma_token_seq_suffix(x, w.len() as int, v, 0);
}

proof fn lemma_ws_insert_from(s1: Seq<u8>, w: Seq<u8>, s2: Seq<u8>, p: int)
    requires
        all_whitespace(w),
        0 <= p,
        scan_reaches(s1 + s2, p, s1.len() as int),
    ensures
        token_seq(s1 + w + s2, p) == token_seq(s1 + s2, p),
    decreases (s1 + s2).len() - p,
{
    let s = s1 + s2;
    let t = s1 + w + s2;
    let n1 = s1.len() as int;
    if p == n1 {
        assert(forall|k: int| n1 <= k < s.len() ==> s[k] == s2[k - n1]);
        lemma_token_seq_suffix(s, n1, s2, 0);
        assert(forall|k: int| n1 <= k < t.len() ==> t[k] == (w + s2)[k - n1]);
        lemma_token_seq_suffix(t, n1, w + s2, 0);
        lemma_ws_prefix(w, s2);
    } else {
        let j = skip_ws_end(s, p);
        let e = token_end_at(s, j);
        assert(j < s.len() && scan_reaches(s, e, n1));
        lemma_skip_ws_end_ge(s, p);
        lemma_skip_ws_end_bounds(s, p);
        lemma_token_end_bounds(s, j);
        lemma_scan_reaches_le(s, e, n1);
        // p <= j < e <= n1: every byte of this token lies before the insertion
        // point, and the terminating byte after it is either unchanged or the
        // first inserted whitespace byte.
        assert(forall|k: int| 0 <= k < n1 ==> t[k] == s[k]);
        lemma_skip_ws_end_is(t, p, j);
        let c = s[j];
        if is_letter_spec(c) {
            lemma_letters_end_bounds(s, j);
            if e == n1 && w.len() > 0 {
                assert(t[e] == w[0]);
            } else if e < t.len() {
                assert(t[e] == s[e]);
            }
            lemma_letters_end_is(t, j, e);
            assert(s.subrange(j, e) =~= t.subrange(j, e));
        } else if is_digit_spec(c) {
            lemma_digits_end_bounds(s, j);
            if e == n1 && w.len() > 0 {
                assert(t[e] == w[0]);
            } else if e < t.len() {
                assert(t[e] == s[e]);
            }
            lemma_digits_end_is(t, j, e);
            assert(s.subrange(j, e) =~= t.subrange(j, e));
        } else if c == ('=' as u8) || c == ('!' as u8) {
            if j + 1 < s.len() && s[j + 1] == ('=' as u8) {
                assert(j + 1 < n1);
                assert(t[j + 1] == s[j + 1]);
            } else {
                if j + 1 == n1 && w.len() > 0 {
                    assert(t[j + 1] == w[0]);
                } else if j + 1 < t.len() {
                    assert(t[j + 1] == s[j + 1]);
                }
            }
            assert((j + 1 < t.len() && t[j + 1] == ('=' as u8)) <==> (j + 1 < s.len() && s[j + 1]
                == ('=' as u8)));
        }
        assert(token_kind_at(t, j) == token_kind_at(s, j));
        assert(token_lit_at(t, j) == token_lit_at(s, j));
        assert(token_end_at(t, j) == e);
        lemma_ws_insert_from(s1, w, s2, e);
        assert(token_seq(s, p) == seq![token_at(s, j)] + token_seq(s, e));
        assert(token_seq(t, p) == seq![token_at(t, j)] + token_seq(t, e));
        assert(token_at(t, j) == token_at(s, j));
    }
}

/// Whitespace invariance: inserting spaces, tabs, newlines or carriage
/// returns at a token boundary of a buffer never changes its token stream.
pub proof fn lemma_whitespace_invariance(s1: Seq<u8>, w: Seq<u8>, s2: Seq<u8>)
    requires
        all_whitespace(w),
        is_token_boundary(s1 + s2, s1.len() as int),
    ensures
        token_seq(s1 + w + s2, 0) == token_seq(s1 + s2, 0),
{
    lemma_ws_insert_from(s1, w, s2, 0);
}

// ---------------------------------------------------------------------------
// The scanner
// ---------------------------------------------------------------------------

/// A single-pass scanner over a byte buffer.  `position` is the index of the
/// byte the scanner stands on, `read_position` the index of the next byte to
/// read, and `ch` the byte under the cursor, with `0` as the end-of-input
/// sentinel.
#[derive(Debug)]
pub struct Lexer {
    input: Vec<u8>,
    position: usize,
    read_position: usize,
    ch: u8,
}

impl Lexer {
    /// The byte buffer being scanned.
    pub closed spec fn buf(&self) -> Seq<u8> {
        self.input@
    }

    /// The index of the byte the scanner currently stands on.
    pub closed spec fn pos(&self) -> int {
        self.position as int
    }

    /// The scan cursor is inside the buffer, the lookahead index follows it
    /// directly, and the current byte mirrors the buffer (or is the sentinel
    /// `0` once the buffer is exhausted).
    pub closed spec fn wf(&self) -> bool {
        if self.position < self.input@.len() {
            self.read_position == self.position + 1 && self.ch == self.input@[self.position as int]
        } else {
            self.position == self.input@.len() && self.read_position == self.input@.len()
                && self.ch == 0
        }
    }

    /// Builds a scanner over the UTF-8 bytes of the given source text,
    /// already standing on the first byte.
    pub fn new(input: String) -> (l: Lexer)
        ensures
            l.wf(),
            l.buf() == vstd::utf8::encode_utf8(input@),
            l.pos() == 0,
    {
        let bytes = input.as_str().as_bytes_vec();
        let mut l = Lexer { input: bytes, position: 0, read_position: 0, ch: 0 };
        l.read_char();
        l
    }

    /// Advances the cursor by one byte; once the buffer is exhausted the
    /// cursor stays put and the current byte is the sentinel `0`.
    fn read_char(&mut self)
        requires
            old(self).read_position <= old(self).input@.len(),
        ensures
            final(self).wf(),
            final(self).input@ == old(self).input@,
            final(self).position == (if old(self).read_position < old(self).input@.len() {
                old(self).read_position as int
            } else {
                old(self).input@.len() as int
            }),
    {
        if self.read_position >= self.input.len() {
            self.ch = 0;
            self.position = self.input.len();
            self.read_position = self.input.len();
        } else {
            self.ch = self.input[self.read_position];
            self.position = self.read_position;
            self.read_position = self.read_position + 1;
        }
    }

    /// Returns the byte after the cursor without moving the cursor.
    fn peek_char(&mut self) -> (c: u8)
        requires
            old(self).wf(),
        ensures
            *final(self) == *old(self),
            c == (if old(self).pos() + 1 < old(self).buf().len() {
                old(self).buf()[old(self).pos() + 1]
            } else {
                0 as u8
            }),
    {
        if self.read_position >= self.input.len() {
            0
        } else {
            self.input[self.read_position]
        }
    }

    /// Moves the cursor past whitespace; whitespace is never part of a token.
    fn skip_whitespace(&mut self)
        requires
            old(self).wf(),
        ensures
            final(self).wf(),
            final(self).buf() == old(self).buf(),
            final(self).pos() == skip_ws_end(old(self).buf(), old(self).pos()),
    {
        let ghost s0 = self.input@;
        let ghost p0 = self.position as int;
        while self.ch == (' ' as u8) || self.ch == ('\t' as u8) || self.ch == ('\n' as u8)
            || self.ch == ('\r' as u8)
            invariant
                self.wf(),
                self.input@ == s0,
                0 <= self.pos() <= s0.len(),
                skip_ws_end(s0, self.pos()) == skip_ws_end(s0, p0),
            decreases s0.len() - self.pos(),
        {
            proof {
                assert(self.pos() < s0.len());
            }
            self.read_char();
        }
    }

    /// Scans the maximal letter run starting at the cursor and returns its
    /// spelling; the cursor ends on the first byte past the run.
    fn read_identifier(&mut self) -> (r: String)
        requires
            old(self).wf(),
        ensures
            final(self).wf(),
            final(self).buf() == old(self).buf(),
            final(self).pos() == letters_end(old(self).buf(), old(self).pos()),
            r@ == lit_of(old(self).buf().subrange(
                old(self).pos(),
                letters_end(old(self).buf(), old(self).pos()),
            )),
    {
        let ghost s0 = self.input@;
        let ghost p0 = self.position as int;
        let position = self.position;
        while is_letter(self.ch)
            invariant
                self.wf(),
                self.input@ == s0,
                p0 <= self.pos() <= s0.len(),
                position as int == p0,
                letters_end(s0, self.pos()) == letters_end(s0, p0),
            decreases s0.len() - self.pos(),
        {
            proof {
                assert(self.pos() < s0.len());
            }
            self.read_char();
        }
        bytes_to_literal(&self.input, position, self.position)
    }

    /// Produces the next token of the buffer.  While tokens remain, each call
    /// yields the head of the remaining token stream and leaves the stream's
    /// tail behind; once the stream is empty, every further call yields the
    /// end-of-input token and the stream stays empty.
    pub fn next_token(&mut self) -> (t: Token)
        requires
            old(self).wf(),
        ensures
            final(self).wf(),
            final(self).buf() == old(self).buf(),
            old(self).pos() <= final(self).pos(),
            ({
                let toks = token_seq(old(self).buf(), old(self).pos());
                if toks.len() > 0 {
                    t@ == toks[0] && token_seq(final(self).buf(), final(self).pos())
                        == toks.drop_first()
                } else {
                    t@ == eof_token() && final(self).pos() == final(self).buf().len()
                        && token_seq(final(self).buf(), final(self).pos()) == Seq::<TokenV>::empty()
                }
            }),
    {
        let ghost s = self.input@;
        let ghost p0 = self.position as int;
        proof {
            lemma_skip_ws_end_bounds(s, p0);
        }
        self.skip_whitespace();
        let ghost j = self.pos();
        let ghost toks = token_seq(s, p0);

        if is_letter(self.ch) {
            proof {
                assert(j < s.len() && is_letter_spec(s[j]));
                lemma_letters_end_bounds(s, j);
            }
            let literal = self.read_identifier();
            let token_type = lookup_ident(literal.as_str());
            let t = Token { token_type, literal };
            proof {
                let rest = token_seq(s, token_end_at(s, j));
                assert(toks == seq![token_at(s, j)] + rest);
                assert(t@ == token_at(s, j));
                assert(toks.drop_first() =~= rest);
            }
            return t;
        } else if is_digit(self.ch) {
            proof {
                assert(j < s.len() && is_digit_spec(s[j]));
                lemma_digits_end_bounds(s, j);
            }
            let literal = self.read_number();
            let t = Token { token_type: TokenType::Int, literal };
            proof {
                let rest = token_seq(s, token_end_at(s, j));
                assert(toks == seq![token_at(s, j)] + rest);
                assert(t@ == token_at(s, j));
                assert(toks.drop_first() =~= rest);
            }
            return t;
        }

        let c = self.ch;
        let mut token = generate_new_token(TokenType::Illegal, c);
        if c == ('=' as u8) {
            if self.peek_char() == ('=' as u8) {
                self.read_char();
                let mut two = ch_to_utf8(c);
                push_char(&mut two, self.ch as char);
                token.literal = two;
                token.token_type = TokenType::Eq;
            } else {
                token.token_type = TokenType::Assign;
            }
        } else if c == ('!' as u8) {
            if self.peek_char() == ('=' as u8) {
                self.read_char();
                let mut two = ch_to_utf8(c);
                push_char(&mut two, self.ch as char);
                token.literal = two;
                token.token_type = TokenType::NotEq;
            } else {
                token.token_type = TokenType::Bang;
            }
        } else if c == ('+' as u8) {
            token.token_type = TokenType::Plus;
        } else if c == ('-' as u8) {
            token.token_type = TokenType::Minus;
        } else if c == ('*' as u8) {
            token.token_type = TokenType::Asterisk;
        } else if c == ('/' as u8) {
            token.token_type = TokenType::Slash;
        } else if c == (';' as u8) {
            token.token_type = TokenType::Semicolon;
        } else if c == (',' as u8) {
            token.token_type = TokenType::Comma;
        } else if c == ('<' as u8) {
            token.token_type = TokenType::Lt;
        } else if c == ('>' as u8) {
            token.token_type = TokenType::Gt;
        } else if c == ('(' as u8) {
            token.token_type = TokenType::Lparen;
        } else if c == (')' as u8) {
            token.token_type = TokenType::Rparen;
        } else if c == ('{' as u8) {
            token.token_type = TokenType::Lbrace;
        } else if c == ('}' as u8) {
            token.token_type = TokenType::Rbrace;
        } else if c == 0 {
            token.token_type = TokenType::Eof;
        }
        self.read_char();
        proof {
            if j < s.len() {
                let rest = token_seq(s, token_end_at(s, j));
                assert(toks == seq![token_at(s, j)] + rest);
                assert(token@.kind == token_kind_at(s, j));
                assert(token@.lit =~= token_lit_at(s, j));
                assert(token@ == token_at(s, j));
                assert(toks.drop_first() =~= rest);
            } else {
                assert(toks == Seq::<TokenV>::empty());
                assert(token@ == eof_token());
            }
        }
        token
    }

    /// Scans the maximal digit run starting at the cursor and returns its
    /// spelling; the cursor ends on the first byte past the run.
    fn read_number(&mut self) -> (r: String)
        requires
            old(self).wf(),
        ensures
            final(self).wf(),
            final(self).buf() == old(self).buf(),
            final(self).pos() == digits_end(old(self).buf(), old(self).pos()),
            r@ == lit_of(old(self).buf().subrange(
                old(self).pos(),
                digits_end(old(self).buf(), old(self).pos()),
            )),
    {
        let ghost s0 = self.input@;
        let ghost p0 = self.position as int;
        let position = self.position;
        while is_digit(self.ch)
            invariant
                self.wf(),
                self.input@ == s0,
                p0 <= self.pos() <= s0.len(),
                position as int == p0,
                digits_end(s0, self.pos()) == digits_end(s0, p0),
            decreases s0.len() - self.pos(),
        {
            proof {
                assert(self.pos() < s0.len());
            }
            self.read_char();
        }
        bytes_to_literal(&self.input, position, self.position)
    }
}

} // verus!

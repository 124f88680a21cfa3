//! Lexical analysis.
//!
//! [`Lexer::next_token`] produces one token per call, skipping whitespace and
//! `//` line comments, and returns [`Token::EOF`] forever once the input is
//! exhausted. Unrecognised characters collapse to `EOF` without advancing, and
//! an unterminated string literal is read to the end of the input — both are
//! deliberate latitudes of the language, not errors.
//!
//! The whole behaviour is pinned by [`spec_next_token`], a specification-level
//! lexer over the character sequence: `next_token` returns exactly the token
//! and cursor that `spec_next_token` names. A numeric literal whose mantissa
//! or scale does not fit an `i64` is treated like an unrecognised character.

use vstd::prelude::*;
use vstd::string::*;

use crate::number::Q;

verus! {

/// A lexical token. Number payloads are exact rationals; see [`crate::number`].
#[derive(Debug, PartialEq)]
pub enum Token {
    // Keywords
    Let,
    Const,
    Function,
    Return,
    If,
    Else,
    // Literals
    Number(Q),
    String(String),
    Identifier(String),
    // Symbols
    Equal,
    Plus,
    Minus,
    Star,
    Slash,
    // Delimiters
    LParen,
    RParen,
    LBrace,
    RBrace,
    LAngle,
    RAngle,
    Semicolon,
    Comma,
    EOF,
}

/// The mathematical model of a token: text payloads are character sequences.
pub enum TokenM {
    Let,
    Const,
    Function,
    Return,
    If,
    Else,
    Number(Q),
    StrLit(Seq<char>),
    Ident(Seq<char>),
    Equal,
    Plus,
    Minus,
    Star,
    Slash,
    LParen,
    RParen,
    LBrace,
    RBrace,
    LAngle,
    RAngle,
    Semicolon,
    Comma,
    EOF,
}

impl View for Token {
    type V = TokenM;

    open spec fn view(&self) -> TokenM {
        match self {
            Token::Let => TokenM::Let,
            Token::Const => TokenM::Const,
            Token::Function => TokenM::Function,
            Token::Return => TokenM::Return,
            Token::If => TokenM::If,
            Token::Else => TokenM::Else,
            Token::Number(q) => TokenM::Number(*q),
            Token::String(s) => TokenM::StrLit(s@),
            Token::Identifier(s) => TokenM::Ident(s@),
            Token::Equal => TokenM::Equal,
            Token::Plus => TokenM::Plus,
            Token::Minus => TokenM::Minus,
            Token::Star => TokenM::Star,
            Token::Slash => TokenM::Slash,
            Token::LParen => TokenM::LParen,
            Token::RParen => TokenM::RParen,
            Token::LBrace => TokenM::LBrace,
            Token::RBrace => TokenM::RBrace,
            Token::LAngle => TokenM::LAngle,
            Token::RAngle => TokenM::RAngle,
            Token::Semicolon => TokenM::Semicolon,
            Token::Comma => TokenM::Comma,
            Token::EOF => TokenM::EOF,
        }
    }
}

impl Clone for Token {
    fn clone(&self) -> (r: Token)
        ensures
            r == self,
    {
        match self {
            Token::Let => Token::Let,
            Token::Const => Token::Const,
            Token::Function => Token::Function,
            Token::Return => Token::Return,
            Token::If => Token::If,
            Token::Else => Token::Else,
            Token::Number(q) => Token::Number(*q),
            Token::String(s) => Token::String(s.clone()),
            Token::Identifier(s) => Token::Identifier(s.clone()),
            Token::Equal => Token::Equal,
            Token::Plus => Token::Plus,
            Token::Minus => Token::Minus,
            Token::Star => Token::Star,
            Token::Slash => Token::Slash,
            Token::LParen => Token::LParen,
            Token::RParen => Token::RParen,
            Token::LBrace => Token::LBrace,
            Token::RBrace => Token::RBrace,
            Token::LAngle => Token::LAngle,
            Token::RAngle => Token::RAngle,
            Token::Semicolon => Token::Semicolon,
            Token::Comma => Token::Comma,
            Token::EOF => Token::EOF,
        }
    }
}

// ---------------------------------------------------------------------------
// Character classes (ASCII).
// ---------------------------------------------------------------------------

/// Whitespace: space, tab, newline, carriage return.
pub open spec fn is_space_char(c: char) -> bool {
    c == ' ' || c == '\t' || c == '\n' || c == '\r'
}

/// A decimal digit.
pub open spec fn is_digit_char(c: char) -> bool {
    48 <= c as u32 <= 57
}

/// An ASCII letter.
pub open spec fn is_alpha_char(c: char) -> bool {
    (65 <= c as u32 <= 90) || (97 <= c as u32 <= 122)
}

/// A character that may begin an identifier.
pub open spec fn is_ident_start_char(c: char) -> bool {
    is_alpha_char(c) || c == '_'
}

/// A character that may continue an identifier.
pub open spec fn is_ident_char(c: char) -> bool {
    is_alpha_char(c) || is_digit_char(c) || c == '_'
}

/// The numeric value of a digit character.
pub open spec fn digit_val(c: char) -> int {
    c as u32 - 48
}

fn space_char(c: char) -> (b: bool)
    ensures
        b == is_space_char(c),
{
    c == ' ' || c == '\t' || c == '\n' || c == '\r'
}

fn digit_char(c: char) -> (b: bool)
    ensures
        b == is_digit_char(c),
{
    let u = c as u32;
    48 <= u && u <= 57
}

fn ident_start_char(c: char) -> (b: bool)
    ensures
        b == is_ident_start_char(c),
{
    let u = c as u32;
    (65 <= u && u <= 90) || (97 <= u && u <= 122) || c == '_'
}

fn ident_char(c: char) -> (b: bool)
    ensures
        b == is_ident_char(c),
{
    let u = c as u32;
    (65 <= u && u <= 90) || (97 <= u && u <= 122) || (48 <= u && u <= 57) || c == '_'
}

// ---------------------------------------------------------------------------
// The specification-level lexer.
// ---------------------------------------------------------------------------

/// First position at or after `i` that does not hold whitespace.
pub open spec fn skip_ws_at(s: Seq<char>, i: nat) -> nat
    decreases s.len() - i,
{
    if i < s.len() && is_space_char(s[i as int]) {
        skip_ws_at(s, i + 1)
    } else {
        i
    }
}

/// Position just past the next newline at or after `i` (or the end).
pub open spec fn skip_line_at(s: Seq<char>, i: nat) -> nat
    decreases s.len() - i,
{
    if i < s.len() && s[i as int] != '\n' {
        skip_line_at(s, i + 1)
    } else if i < s.len() {
        i + 1
    } else {
        i
    }
}

/// Position after any run of `//` line comments (each followed by more
/// whitespace) starting at `i`.
pub open spec fn skip_comments_at(s: Seq<char>, i: nat) -> nat
    decreases s.len() - i,
    via skip_comments_at_decreases
{
    if i + 1 < s.len() && s[i as int] == '/' && s[i as int + 1] == '/' {
        skip_comments_at(s, skip_ws_at(s, skip_line_at(s, i)))
    } else {
        i
    }
}

/// Position after all leading whitespace and line comments.
pub open spec fn skip_trivia_at(s: Seq<char>, i: nat) -> nat {
    skip_comments_at(s, skip_ws_at(s, i))
}

/// End of the maximal identifier run starting at `i`.
pub open spec fn ident_end_at(s: Seq<char>, i: nat) -> nat
    decreases s.len() - i,
{
    if i < s.len() && is_ident_char(s[i as int]) {
        ident_end_at(s, i + 1)
    } else {
        i
    }
}

/// End of the maximal digit run starting at `i`.
pub open spec fn digit_run_end_at(s: Seq<char>, i: nat) -> nat
    decreases s.len() - i,
{
    if i < s.len() && is_digit_char(s[i as int]) {
        digit_run_end_at(s, i + 1)
    } else {
        i
    }
}

/// First position at or after `i` holding a closing quote (or the end).
pub open spec fn str_end_at(s: Seq<char>, i: nat) -> nat
    decreases s.len() - i,
{
    if i < s.len() && s[i as int] != '"' {
        str_end_at(s, i + 1)
    } else {
        i
    }
}

/// The keyword token for an identifier text, or an identifier token.
pub open spec fn keyword_of(t: Seq<char>) -> TokenM {
    if t == "let"@ {
        TokenM::Let
    } else if t == "const"@ {
        TokenM::Const
    } else if t == "function"@ {
        TokenM::Function
    } else if t == "return"@ {
        TokenM::Return
    } else if t == "if"@ {
        TokenM::If
    } else if t == "else"@ {
        TokenM::Else
    } else {
        TokenM::Ident(t)
    }
}

/// The value of a digit string read left to right.
pub open spec fn seq_digits_val(ds: Seq<char>) -> int
    decreases ds.len(),
{
    if ds.len() == 0 {
        0
    } else {
        10 * seq_digits_val(ds.drop_last()) + digit_val(ds.last())
    }
}

/// Ten to the `n`.
pub open spec fn pow10(n: nat) -> int
    decreases n,
{
    if n == 0 {
        1
    } else {
        10 * pow10((n - 1) as nat)
    }
}

/// The digits of the numeric literal beginning at `i` (a digit position):
/// the integer digit run, then — if a decimal point follows — the fraction
/// digit run, with the point removed.
pub open spec fn number_digits_at(s: Seq<char>, i: nat) -> Seq<char> {
    let ie = digit_run_end_at(s, i);
    if ie < s.len() && s[ie as int] == '.' {
        s.subrange(i as int, ie as int) + s.subrange(ie as int + 1, digit_run_end_at(s, ie + 1) as int)
    } else {
        s.subrange(i as int, ie as int)
    }
}

/// The scale of the numeric literal beginning at `i`: ten to the number of
/// fraction digits.
pub open spec fn number_den_at(s: Seq<char>, i: nat) -> int {
    let ie = digit_run_end_at(s, i);
    if ie < s.len() && s[ie as int] == '.' {
        pow10((digit_run_end_at(s, ie + 1) - (ie + 1)) as nat)
    } else {
        1
    }
}

/// The position just past the numeric literal beginning at `i`.
pub open spec fn number_end_at(s: Seq<char>, i: nat) -> nat {
    let ie = digit_run_end_at(s, i);
    if ie < s.len() && s[ie as int] == '.' {
        digit_run_end_at(s, ie + 1)
    } else {
        ie
    }
}

/// Reading a numeric literal at `i`: its token and the new cursor. A literal
/// whose mantissa or scale exceeds `i64::MAX` yields `EOF` with the cursor
/// left at `i`, like an unrecognised character.
pub open spec fn spec_read_number(s: Seq<char>, i: nat) -> (TokenM, nat) {
    let mant = seq_digits_val(number_digits_at(s, i));
    let den = number_den_at(s, i);
    if mant <= i64::MAX && den <= i64::MAX {
        (TokenM::Number(Q { num: mant as i64, den: den as i64 }), number_end_at(s, i))
    } else {
        (TokenM::EOF, i)
    }
}

/// Reading a string literal whose opening quote stands at `i`: the payload is
/// every character up to the closing quote or the end of the input; the
/// closing quote, if present, is consumed.
pub open spec fn spec_read_string(s: Seq<char>, i: nat) -> (TokenM, nat) {
    let e = str_end_at(s, i + 1);
    (
        TokenM::StrLit(s.subrange(i as int + 1, e as int)),
        if e < s.len() {
            e + 1
        } else {
            e
        },
    )
}

/// The next token at or after position `i`, and the cursor after it.
pub open spec fn spec_next_token(s: Seq<char>, i: nat) -> (TokenM, nat) {
    let j = skip_trivia_at(s, i);
    if j >= s.len() {
        (TokenM::EOF, j)
    } else {
        let c = s[j as int];
        if c == '"' {
            spec_read_string(s, j)
        } else if c == '=' {
            (TokenM::Equal, j + 1)
        } else if c == '+' {
            (TokenM::Plus, j + 1)
        } else if c == '-' {
            (TokenM::Minus, j + 1)
        } else if c == '*' {
            (TokenM::Star, j + 1)
        } else if c == '/' {
            (TokenM::Slash, j + 1)
        } else if c == '(' {
            (TokenM::LParen, j + 1)
        } else if c == ')' {
            (TokenM::RParen, j + 1)
        } else if c == '{' {
            (TokenM::LBrace, j + 1)
        } else if c == '}' {
            (TokenM::RBrace, j + 1)
        } else if c == '<' {
            (TokenM::LAngle, j + 1)
        } else if c == '>' {
            (TokenM::RAngle, j + 1)
        } else if c == ';' {
            (TokenM::Semicolon, j + 1)
        } else if c == ',' {
            (TokenM::Comma, j + 1)
        } else if is_ident_start_char(c) {
            (keyword_of(s.subrange(j as int, ident_end_at(s, j) as int)), ident_end_at(s, j))
        } else if is_digit_char(c) {
            spec_read_number(s, j)
        } else {
            (TokenM::EOF, j)
        }
    }
}

/// The whole token stream from position `i` on, end-of-input marker excluded.
pub open spec fn tokens_from(s: Seq<char>, i: nat) -> Seq<TokenM>
    decreases s.len() - i,
    via tokens_from_decreases
{
    let (t, j) = spec_next_token(s, i);
    if t == TokenM::EOF {
        Seq::empty()
    } else {
        seq![t] + tokens_from(s, j)
    }
}

// ---------------------------------------------------------------------------
// Bounds of the specification lexer.
// ---------------------------------------------------------------------------

pub proof fn lemma_skip_ws_bounds(s: Seq<char>, i: nat)
    ensures
        i <= skip_ws_at(s, i),
        i <= s.len() ==> skip_ws_at(s, i) <= s.len(),
    decreases s.len() - i,
{
    if i < s.len() && is_space_char(s[i as int]) {
        lemma_skip_ws_bounds(s, i + 1);
    }
}

pub proof fn lemma_skip_line_bounds(s: Seq<char>, i: nat)
    ensures
        i <= skip_line_at(s, i),
        i < s.len() ==> i + 1 <= skip_line_at(s, i),
        i <= s.len() ==> skip_line_at(s, i) <= s.len(),
    decreases s.len() - i,
{
    if i < s.len() && s[i as int] != '\n' {
        lemma_skip_line_bounds(s, i + 1);
    }
}

#[via_fn]
proof fn skip_comments_at_decreases(s: Seq<char>, i: nat) {
    if i + 1 < s.len() && s[i as int] == '/' && s[i as int + 1] == '/' {
        lemma_skip_line_bounds(s, i);
        lemma_skip_ws_bounds(s, skip_line_at(s, i));
    }
}

pub proof fn lemma_skip_comments_bounds(s: Seq<char>, i: nat)
    ensures
        i <= skip_comments_at(s, i),
        i <= s.len() ==> skip_comments_at(s, i) <= s.len(),
    decreases s.len() - i,
{
    if i + 1 < s.len() && s[i as int] == '/' && s[i as int + 1] == '/' {
        lemma_skip_line_bounds(s, i);
        lemma_skip_ws_bounds(s, skip_line_at(s, i));
        lemma_skip_comments_bounds(s, skip_ws_at(s, skip_line_at(s, i)));
    }
}

pub proof fn lemma_skip_trivia_bounds(s: Seq<char>, i: nat)
    ensures
        i <= skip_trivia_at(s, i),
        i <= s.len() ==> skip_trivia_at(s, i) <= s.len(),
{
    lemma_skip_ws_bounds(s, i);
    lemma_skip_comments_bounds(s, skip_ws_at(s, i));
}

pub proof fn lemma_ident_end_bounds(s: Seq<char>, i: nat)
    ensures
        i <= ident_end_at(s, i),
        i <= s.len() ==> ident_end_at(s, i) <= s.len(),
        i < s.len() && is_ident_char(s[i as int]) ==> i + 1 <= ident_end_at(s, i),
    decreases s.len() - i,
{
    if i < s.len() && is_ident_char(s[i as int]) {
        lemma_ident_end_bounds(s, i + 1);
    }
}

pub proof fn lemma_digit_run_bounds(s: Seq<char>, i: nat)
    ensures
        i <= digit_run_end_at(s, i),
        i <= s.len() ==> digit_run_end_at(s, i) <= s.len(),
        i < s.len() && is_digit_char(s[i as int]) ==> i + 1 <= digit_run_end_at(s, i),
    decreases s.len() - i,
{
    if i < s.len() && is_digit_char(s[i as int]) {
        lemma_digit_run_bounds(s, i + 1);
    }
}

pub proof fn lemma_str_end_bounds(s: Seq<char>, i: nat)
    ensures
        i <= str_end_at(s, i),
        i <= s.len() ==> str_end_at(s, i) <= s.len(),
    decreases s.len() - i,
{
    if i < s.len() && s[i as int] != '"' {
        lemma_str_end_bounds(s, i + 1);
    }
}

/// The cursor never moves backwards, and every token other than the
/// end-of-input marker consumes at least one character.
pub proof fn lemma_next_token_bounds(s: Seq<char>, i: nat)
    ensures
        i <= spec_next_token(s, i).1,
        i <= s.len() ==> spec_next_token(s, i).1 <= s.len(),
        spec_next_token(s, i).0 != TokenM::EOF ==> i < spec_next_token(s, i).1,
{
    lemma_skip_trivia_bounds(s, i);
    let j = skip_trivia_at(s, i);
    if j < s.len() {
        let c = s[j as int];
        if c == '"' {
            lemma_str_end_bounds(s, j + 1);
        } else if is_ident_start_char(c) {
            lemma_ident_end_bounds(s, j);
        } else if is_digit_char(c) {
            lemma_digit_run_bounds(s, j);
            let ie = digit_run_end_at(s, j);
            if ie < s.len() && s[ie as int] == '.' {
                lemma_digit_run_bounds(s, ie + 1);
            }
        }
    }
}

#[via_fn]
proof fn tokens_from_decreases(s: Seq<char>, i: nat) {
    lemma_next_token_bounds(s, i);
}

proof fn lemma_skip_ws_fixpoint(s: Seq<char>, i: nat)
    ensures
        skip_ws_at(s, skip_ws_at(s, i)) == skip_ws_at(s, i),
    decreases s.len() - i,
{
    if i < s.len() && is_space_char(s[i as int]) {
        lemma_skip_ws_fixpoint(s, i + 1);
    }
}

proof fn lemma_skip_comments_fixpoint(s: Seq<char>, i: nat)
    requires
        skip_ws_at(s, i) == i,
    ensures
        skip_ws_at(s, skip_comments_at(s, i)) == skip_comments_at(s, i),
        skip_comments_at(s, skip_comments_at(s, i)) == skip_comments_at(s, i),
    decreases s.len() - i,
{
    if i + 1 < s.len() && s[i as int] == '/' && s[i as int + 1] == '/' {
        lemma_skip_line_bounds(s, i);
        lemma_skip_ws_bounds(s, skip_line_at(s, i));
        lemma_skip_ws_fixpoint(s, skip_line_at(s, i));
        lemma_skip_comments_fixpoint(s, skip_ws_at(s, skip_line_at(s, i)));
    }
}

/// The position after leading trivia is itself free of leading trivia.
pub proof fn lemma_trivia_fixpoint(s: Seq<char>, i: nat)
    ensures
        skip_trivia_at(s, skip_trivia_at(s, i)) == skip_trivia_at(s, i),
{
    lemma_skip_ws_fixpoint(s, i);
    lemma_skip_comments_fixpoint(s, skip_ws_at(s, i));
}

/// Once the end-of-input marker has been produced, every later read
/// produces it again, from the same position: the marker is returned
/// forever after.
pub proof fn lemma_eof_stable(s: Seq<char>, i: nat)
    requires
        spec_next_token(s, i).0 == TokenM::EOF,
    ensures
        spec_next_token(s, spec_next_token(s, i).1) == (TokenM::EOF, spec_next_token(s, i).1),
{
    lemma_trivia_fixpoint(s, i);
}

// ---------------------------------------------------------------------------
// Digit arithmetic lemmas.
// ---------------------------------------------------------------------------

/// Every character of `ds` is a digit.
pub open spec fn all_digits(ds: Seq<char>) -> bool {
    forall|k: int| 0 <= k < ds.len() ==> is_digit_char(#[trigger] ds[k])
}

pub proof fn lemma_sdv_nonneg(ds: Seq<char>)
    requires
        all_digits(ds),
    ensures
        0 <= seq_digits_val(ds),
    decreases ds.len(),
{
    if ds.len() > 0 {
        assert(all_digits(ds.drop_last()));
        lemma_sdv_nonneg(ds.drop_last());
    }
}

/// Extending a digit string on the right never decreases its value.
pub proof fn lemma_sdv_prefix(ds: Seq<char>, k: int)
    requires
        all_digits(ds),
        0 <= k <= ds.len(),
    ensures
        seq_digits_val(ds.take(k)) <= seq_digits_val(ds),
    decreases ds.len(),
{
    if k < ds.len() {
        assert(all_digits(ds.drop_last()));
        assert(ds.drop_last().take(k) =~= ds.take(k));
        lemma_sdv_prefix(ds.drop_last(), k);
        lemma_sdv_nonneg(ds.drop_last());
    } else {
        assert(ds.take(k) =~= ds);
    }
}

pub proof fn lemma_pow10_pos(n: nat)
    ensures
        1 <= pow10(n),
    decreases n,
{
    if n > 0 {
        lemma_pow10_pos((n - 1) as nat);
    }
}

pub proof fn lemma_pow10_mono(a: nat, b: nat)
    requires
        a <= b,
    ensures
        pow10(a) <= pow10(b),
    decreases b,
{
    if a < b {
        lemma_pow10_mono(a, (b - 1) as nat);
        lemma_pow10_pos((b - 1) as nat);
    }
}

/// Every character of a digit run is a digit.
pub proof fn lemma_digit_run_digits(s: Seq<char>, i: nat)
    ensures
        forall|k: int| i <= k < digit_run_end_at(s, i) ==> is_digit_char(#[trigger] s[k]),
    decreases s.len() - i,
{
    if i < s.len() && is_digit_char(s[i as int]) {
        lemma_digit_run_digits(s, i + 1);
    }
}

// ---------------------------------------------------------------------------
// The executable lexer.
// ---------------------------------------------------------------------------

/// Appends one character to a string.
///
/// Relies on `String::push` from std: it appends the given character to the
/// end of the string.
#[verifier::external_body]
fn push_char(s: &mut String, c: char)
    ensures
        final(s)@ == old(s)@.push(c),
{
    s.push(c);
}

/// The characters `v[start..end]` as a `String`.
fn chars_to_string(v: &Vec<char>, start: usize, end: usize) -> (s: String)
    requires
        start <= end <= v@.len(),
    ensures
        s@ == v@.subrange(start as int, end as int),
{
    let mut s = String::new();
    let mut k: usize = start;
    while k < end
        invariant
            start <= k <= end <= v@.len(),
            s@ == v@.subrange(start as int, k as int),
        decreases end - k,
    {
        push_char(&mut s, v[k]);
        assert(v@.subrange(start as int, k + 1 as int) =~= v@.subrange(start as int, k as int).push(
            v@[k as int],
        ));
        k = k + 1;
    }
    s
}

/// The stateful tokenizer: an owned character buffer and a cursor.
pub struct Lexer {
    pub input: Vec<char>,
    pub position: usize,
}

impl Lexer {
    /// The cursor never runs past the input.
    pub open spec fn wf(self) -> bool {
        self.position <= self.input@.len()
    }

    /// A fresh lexer over `input`, with the cursor at the start.
    pub fn new(input: &str) -> (r: Lexer)
        ensures
            r.input@ == input@,
            r.position == 0,
            r.wf(),
    {
        let n = input.unicode_len();
        let mut v: Vec<char> = Vec::new();
        let mut i: usize = 0;
        while i < n
            invariant
                i <= n,
                n == input@.len(),
                v@ == input@.subrange(0, i as int),
            decreases n - i,
        {
            v.push(input.get_char(i));
            assert(input@.subrange(0, i + 1 as int) =~= input@.subrange(0, i as int).push(
                input@[i as int],
            ));
            i = i + 1;
        }
        assert(v@ =~= input@);
        Lexer { input: v, position: 0 }
    }

    /// Advances the cursor past whitespace.
    pub fn skip_whitespace(&mut self)
        requires
            old(self).wf(),
        ensures
            final(self).input == old(self).input,
            final(self).position == skip_ws_at(old(self).input@, old(self).position as nat),
            final(self).wf(),
    {
        while self.position < self.input.len() && space_char(self.input[self.position])
            invariant
                self.wf(),
                self.input == old(self).input,
                skip_ws_at(self.input@, self.position as nat) == skip_ws_at(
                    old(self).input@,
                    old(self).position as nat,
                ),
            decreases self.input@.len() - self.position,
        {
            self.position = self.position + 1;
        }
    }

    /// Advances the cursor past any run of `//` line comments, skipping
    /// whitespace after each comment line.
    #[verifier::loop_isolation(true)]
    pub fn skip_comments(&mut self)
        requires
            old(self).wf(),
        ensures
            final(self).input == old(self).input,
            final(self).position == skip_comments_at(old(self).input@, old(self).position as nat),
            final(self).wf(),
    {
        loop
            invariant
                self.wf(),
                self.input == old(self).input,
                skip_comments_at(self.input@, self.position as nat) == skip_comments_at(
                    old(self).input@,
                    old(self).position as nat,
                ),
            ensures
                self.wf(),
                self.input == old(self).input,
                self.position == skip_comments_at(old(self).input@, old(self).position as nat),
            decreases self.input@.len() - self.position,
        {
            let len = self.input.len();
            if !(len >= 1 && self.position < len - 1 && self.input[self.position] == '/'
                && self.input[self.position + 1] == '/') {
                break;
            }
            let ghost before: nat = self.position as nat;
            // Skip to the end of the line.
            while self.position < self.input.len() && self.input[self.position] != '\n'
                invariant
                    self.wf(),
                    self.input == old(self).input,
                    skip_line_at(self.input@, self.position as nat) == skip_line_at(
                        self.input@,
                        before,
                    ),
                    before <= self.position,
                decreases self.input@.len() - self.position,
            {
                self.position = self.position + 1;
            }
            // Skip the newline if present.
            if self.position < self.input.len() {
                self.position = self.position + 1;
            }
            assert(self.position == skip_line_at(self.input@, before));
            self.skip_whitespace();
            proof {
                lemma_skip_line_bounds(self.input@, before);
                lemma_skip_ws_bounds(self.input@, skip_line_at(self.input@, before));
            }
        }
    }

    /// Reads an identifier or keyword; the cursor stands on its first
    /// character.
    fn read_identifier(&mut self) -> (t: Token)
        requires
            old(self).wf(),
            old(self).position < old(self).input@.len(),
            is_ident_start_char(old(self).input@[old(self).position as int]),
        ensures
            final(self).input == old(self).input,
            final(self).wf(),
            final(self).position == ident_end_at(old(self).input@, old(self).position as nat),
            t@ == keyword_of(
                old(self).input@.subrange(
                    old(self).position as int,
                    ident_end_at(old(self).input@, old(self).position as nat) as int,
                ),
            ),
    {
        let start = self.position;
        while self.position < self.input.len() && ident_char(self.input[self.position])
            invariant
                self.wf(),
                self.input == old(self).input,
                start <= self.position,
                ident_end_at(self.input@, self.position as nat) == ident_end_at(
                    self.input@,
                    start as nat,
                ),
            decreases self.input@.len() - self.position,
        {
            self.position = self.position + 1;
        }
        let text = chars_to_string(&self.input, start, self.position);
        let ghost sub = self.input@.subrange(start as int, self.position as int);
        if text == String::from_str("let") {
            proof {
                reveal_strlit("let");
            }
            Token::Let
        } else if text == String::from_str("const") {
            proof {
                reveal_strlit("const");
            }
            Token::Const
        } else if text == String::from_str("function") {
            proof {
                reveal_strlit("function");
            }
            Token::Function
        } else if text == String::from_str("return") {
            proof {
                reveal_strlit("return");
            }
            Token::Return
        } else if text == String::from_str("if") {
            proof {
                reveal_strlit("if");
            }
            Token::If
        } else if text == String::from_str("else") {
            proof {
                reveal_strlit("else");
            }
            Token::Else
        } else {
            Token::Identifier(text)
        }
    }

    /// Reads a numeric literal: a digit run with at most one decimal point.
    /// The cursor stands on its first digit. If the literal does not fit the
    /// runtime representation, the cursor is restored and `EOF` returned.
    fn read_number(&mut self) -> (t: Token)
        requires
            old(self).wf(),
            old(self).position < old(self).input@.len(),
            is_digit_char(old(self).input@[old(self).position as int]),
        ensures
            final(self).input == old(self).input,
            final(self).wf(),
            t@ == spec_read_number(old(self).input@, old(self).position as nat).0,
            final(self).position == spec_read_number(old(self).input@, old(self).position as nat).1,
    {
        let ghost s = self.input@;
        let start = self.position;
        let ghost full = number_digits_at(s, start as nat);
        proof {
            lemma_digit_run_digits(s, start as nat);
            lemma_digit_run_bounds(s, start as nat);
            let ie = digit_run_end_at(s, start as nat);
            if ie < s.len() && s[ie as int] == '.' {
                lemma_digit_run_digits(s, ie + 1);
                lemma_digit_run_bounds(s, ie + 1);
            }
            assert(all_digits(full));
        }
        let mut m: i64 = 0;
        // Integer part.
        while self.position < self.input.len() && digit_char(self.input[self.position])
            invariant
                self.wf(),
                self.input == old(self).input,
                start <= self.position,
                self.position as nat <= digit_run_end_at(s, start as nat),
                digit_run_end_at(s, self.position as nat) == digit_run_end_at(s, start as nat),
                0 <= m <= i64::MAX,
                m == seq_digits_val(s.subrange(start as int, self.position as int)),
                all_digits(full),
                full == number_digits_at(s, start as nat),
                digit_run_end_at(s, start as nat) <= s.len(),
            decreases self.input@.len() - self.position,
        {
            let c = self.input[self.position];
            let d: i64 = (c as u32) as i64 - 48;
            proof {
                lemma_digit_run_bounds(s, self.position as nat + 1);
            }
            let ghost pre = s.subrange(start as int, self.position as int);
            let ghost nxt = s.subrange(start as int, self.position + 1 as int);
            assert(nxt.drop_last() =~= pre);
            assert(nxt.last() == s[self.position as int]);
            if m > (i64::MAX - d) / 10 {
                // The mantissa cannot fit: the whole literal is dropped.
                proof {
                    let ie = digit_run_end_at(s, start as nat);
                    assert(nxt =~= full.take(self.position - start + 1));
                    lemma_sdv_prefix(full, self.position - start + 1);
                    lemma_pow10_pos((if ie < s.len() && s[ie as int] == '.' {
                        (digit_run_end_at(s, ie + 1) - (ie + 1)) as nat
                    } else {
                        0nat
                    }));
                }
                self.position = start;
                return Token::EOF;
            }
            m = 10 * m + d;
            self.position = self.position + 1;
        }
        let ghost ie = digit_run_end_at(s, start as nat);
        assert(self.position == ie);
        if self.position < self.input.len() && self.input[self.position] == '.' {
            self.position = self.position + 1;
            let fs = self.position;
            let ghost fe = digit_run_end_at(s, fs as nat);
            proof {
                lemma_digit_run_digits(s, fs as nat);
                lemma_digit_run_bounds(s, fs as nat);
            }
            let mut den: i64 = 1;
            while self.position < self.input.len() && digit_char(self.input[self.position])
                invariant
                    self.wf(),
                    self.input == old(self).input,
                    start < fs <= self.position,
                    fs == ie + 1,
                    ie == digit_run_end_at(s, start as nat),
                    ie < s.len() && s[ie as int] == '.',
                    fe == digit_run_end_at(s, fs as nat),
                    self.position as nat <= fe,
                    fe <= s.len(),
                    digit_run_end_at(s, self.position as nat) == fe,
                    0 <= m <= i64::MAX,
                    1 <= den <= i64::MAX,
                    den == pow10((self.position - fs) as nat),
                    m == seq_digits_val(
                        s.subrange(start as int, ie as int) + s.subrange(
                            fs as int,
                            self.position as int,
                        ),
                    ),
                    all_digits(full),
                    full == number_digits_at(s, start as nat),
                    full == s.subrange(start as int, ie as int) + s.subrange(fs as int, fe as int),
                decreases self.input@.len() - self.position,
            {
                let c = self.input[self.position];
                let d: i64 = (c as u32) as i64 - 48;
                proof {
                    lemma_digit_run_bounds(s, self.position as nat + 1);
                }
                let ghost pre = s.subrange(start as int, ie as int) + s.subrange(
                    fs as int,
                    self.position as int,
                );
                let ghost nxt = s.subrange(start as int, ie as int) + s.subrange(
                    fs as int,
                    self.position + 1 as int,
                );
                assert(nxt.drop_last() =~= pre);
                assert(nxt.last() == s[self.position as int]);
                assert(nxt =~= full.take(pre.len() as int + 1));
                if den > i64::MAX / 10 {
                    // The scale cannot fit.
                    proof {
                        lemma_pow10_mono((self.position - fs + 1) as nat, (fe - fs) as nat);
                        lemma_sdv_nonneg(full);
                    }
                    self.position = start;
                    return Token::EOF;
                }
                if m > (i64::MAX - d) / 10 {
                    // The mantissa cannot fit.
                    proof {
                        lemma_sdv_prefix(full, pre.len() as int + 1);
                        lemma_pow10_pos((fe - fs) as nat);
                    }
                    self.position = start;
                    return Token::EOF;
                }
                den = 10 * den;
                m = 10 * m + d;
                self.position = self.position + 1;
            }
            assert(self.position == fe);
            assert(s.subrange(start as int, ie as int) + s.subrange(fs as int, self.position as int)
                =~= full);
            Token::Number(Q { num: m, den })
        } else {
            assert(s.subrange(start as int, self.position as int) =~= full);
            Token::Number(Q { num: m, den: 1 })
        }
    }

    /// Reads a string literal; the cursor stands on the opening quote. An
    /// unterminated literal is read to the end of the input.
    fn read_string(&mut self) -> (t: Token)
        requires
            old(self).wf(),
            old(self).position < old(self).input@.len(),
            old(self).input@[old(self).position as int] == '"',
        ensures
            final(self).input == old(self).input,
            final(self).wf(),
            t@ == spec_read_string(old(self).input@, old(self).position as nat).0,
            final(self).position == spec_read_string(old(self).input@, old(self).position as nat).1,
    {
        let n = self.input.len();
        self.position = self.position + 1;
        let start = self.position;
        while self.position < self.input.len() && self.input[self.position] != '"'
            invariant
                self.wf(),
                self.input == old(self).input,
                start <= self.position,
                str_end_at(self.input@, self.position as nat) == str_end_at(
                    self.input@,
                    start as nat,
                ),
            decreases self.input@.len() - self.position,
        {
            self.position = self.position + 1;
        }
        let text = chars_to_string(&self.input, start, self.position);
        if self.position < self.input.len() {
            self.position = self.position + 1;
        }
        Token::String(text)
    }

    /// The next token. Advances the cursor; once the end-of-input marker has
    /// been returned it is returned on every later call.
    pub fn next_token(&mut self) -> (t: Token)
        requires
            old(self).wf(),
        ensures
            final(self).input == old(self).input,
            final(self).wf(),
            t@ == spec_next_token(old(self).input@, old(self).position as nat).0,
            final(self).position == spec_next_token(old(self).input@, old(self).position as nat).1,
    {
        self.skip_whitespace();
        self.skip_comments();
        proof {
            lemma_skip_trivia_bounds(old(self).input@, old(self).position as nat);
        }
        if self.position >= self.input.len() {
            return Token::EOF;
        }
        let ch = self.input[self.position];
        let t = if ch == '"' {
            return self.read_string();
        } else if ch == '=' {
            Token::Equal
        } else if ch == '+' {
            Token::Plus
        } else if ch == '-' {
            Token::Minus
        } else if ch == '*' {
            Token::Star
        } else if ch == '/' {
            Token::Slash
        } else if ch == '(' {
            Token::LParen
        } else if ch == ')' {
            Token::RParen
        } else if ch == '{' {
            Token::LBrace
        } else if ch == '}' {
            Token::RBrace
        } else if ch == '<' {
            Token::LAngle
        } else if ch == '>' {
            Token::RAngle
        } else if ch == ';' {
            Token::Semicolon
        } else if ch == ',' {
            Token::Comma
        } else if ident_start_char(ch) {
            return self.read_identifier();
        } else if digit_char(ch) {
            return self.read_number();
        } else {
            return Token::EOF;
        };
        self.position = self.position + 1;
        t
    }
}

} // verus!

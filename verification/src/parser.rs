//! Recursive-descent parsing with precedence climbing.
//!
//! [`Parser::parse_statement`] consumes exactly one statement — a `let`
//! binding or a bare expression — and [`Parser::parse_expression`] one
//! expression, holding a single token of lookahead. Binary operators are
//! parsed by precedence climbing: `*`/`/` bind tighter than `+`/`-`, and
//! operators of equal precedence associate to the left.
//!
//! The behaviour is pinned by a specification-level parser over the token
//! stream ([`sp_stmt`], [`sp_expr`]): each parse method returns exactly the
//! tree, consumes exactly the tokens, and fails with exactly the error that
//! the specification parser names.

use vstd::prelude::*;

use crate::lexer::{tokens_from, Lexer, Token, TokenM};
use crate::number::Q;

verus! {

/// An expression: a literal, a variable reference, or a binary operation.
#[derive(Debug, PartialEq)]
pub enum Expression {
    Number(Q),
    String(String),
    Identifier(String),
    Binary { left: Box<Expression>, operator: Token, right: Box<Expression> },
}

/// The mathematical model of an expression.
pub enum ExprM {
    Number(Q),
    StrLit(Seq<char>),
    Ident(Seq<char>),
    Binary { left: Box<ExprM>, operator: TokenM, right: Box<ExprM> },
}

/// The model of an expression tree.
pub open spec fn expr_view(e: Expression) -> ExprM
    decreases e,
{
    match e {
        Expression::Number(q) => ExprM::Number(q),
        Expression::String(s) => ExprM::StrLit(s@),
        Expression::Identifier(s) => ExprM::Ident(s@),
        Expression::Binary { left, operator, right } => ExprM::Binary {
            left: Box::new(expr_view(*left)),
            operator: operator@,
            right: Box::new(expr_view(*right)),
        },
    }
}

impl View for Expression {
    type V = ExprM;

    open spec fn view(&self) -> ExprM {
        expr_view(*self)
    }
}

/// A statement: a `let` binding or a bare expression.
#[derive(Debug, PartialEq)]
pub enum Statement {
    Let { name: String, value: Expression },
    Expression(Expression),
}

/// The mathematical model of a statement.
pub enum StatementM {
    Let { name: Seq<char>, value: ExprM },
    Expression(ExprM),
}

impl View for Statement {
    type V = StatementM;

    open spec fn view(&self) -> StatementM {
        match self {
            Statement::Let { name, value } => StatementM::Let { name: name@, value: value@ },
            Statement::Expression(e) => StatementM::Expression(e@),
        }
    }
}

/// A parse failure. Parsing does not recover: the parser is left in an
/// unspecified but safe state.
#[derive(Debug, PartialEq)]
pub enum ParseError {
    /// `let` was not followed by an identifier.
    ExpectedIdentifier,
    /// The identifier of a `let` was not followed by `=`.
    ExpectedEquals,
    /// A parenthesised expression was not closed.
    ExpectedCloseParen,
    /// An expression was required; the offending token is carried.
    ExpectedExpression(Token),
}

/// The mathematical model of a parse failure.
pub enum ParseErrM {
    ExpectedIdentifier,
    ExpectedEquals,
    ExpectedCloseParen,
    ExpectedExpression(TokenM),
}

impl View for ParseError {
    type V = ParseErrM;

    open spec fn view(&self) -> ParseErrM {
        match self {
            ParseError::ExpectedIdentifier => ParseErrM::ExpectedIdentifier,
            ParseError::ExpectedEquals => ParseErrM::ExpectedEquals,
            ParseError::ExpectedCloseParen => ParseErrM::ExpectedCloseParen,
            ParseError::ExpectedExpression(t) => ParseErrM::ExpectedExpression(t@),
        }
    }
}

// ---------------------------------------------------------------------------
// The specification-level parser.
//
// Each function takes the remaining token stream (end-of-input marker
// excluded) and yields the parsed tree together with the number of tokens
// consumed, or the parse error.
// ---------------------------------------------------------------------------

/// Operator precedence: `+`/`-` bind at 1, `*`/`/` at 2, everything else is
/// not an operator (0).
pub open spec fn prec_of(t: TokenM) -> int {
    match t {
        TokenM::Plus => 1,
        TokenM::Minus => 1,
        TokenM::Star => 2,
        TokenM::Slash => 2,
        _ => 0,
    }
}

/// A primary expression: one literal or identifier token.
pub open spec fn sp_primary(ts: Seq<TokenM>) -> Result<(ExprM, nat), ParseErrM> {
    if ts.len() == 0 {
        Err(ParseErrM::ExpectedExpression(TokenM::EOF))
    } else {
        match ts[0] {
            TokenM::Number(q) => Ok((ExprM::Number(q), 1nat)),
            TokenM::StrLit(s) => Ok((ExprM::StrLit(s), 1nat)),
            TokenM::Ident(s) => Ok((ExprM::Ident(s), 1nat)),
            t => Err(ParseErrM::ExpectedExpression(t)),
        }
    }
}

/// An atom: a parenthesised expression or a primary.
pub open spec fn sp_atom(ts: Seq<TokenM>) -> Result<(ExprM, nat), ParseErrM>
    decreases ts.len(), 0int,
{
    if ts.len() > 0 && ts[0] is LParen {
        match sp_expr(ts.skip(1)) {
            Ok((e, k)) => {
                if k + 1 < ts.len() && ts[k as int + 1] is RParen {
                    Ok((e, k + 2))
                } else {
                    Err(ParseErrM::ExpectedCloseParen)
                }
            },
            Err(e) => Err(e),
        }
    } else {
        sp_primary(ts)
    }
}

/// The climbing loop: with `lhs` parsed and `k` tokens consumed, absorb every
/// following operator that binds strictly tighter than `min_prec`.
pub open spec fn sp_climb(
    ts: Seq<TokenM>,
    k: nat,
    lhs: ExprM,
    min_prec: int,
) -> Result<(ExprM, nat), ParseErrM>
    decreases (if k <= ts.len() { ts.len() - k } else { 0int }), 1int,
{
    if k < ts.len() && prec_of(ts[k as int]) > min_prec {
        let op = ts[k as int];
        match sp_binary(ts.skip(k as int + 1), prec_of(op)) {
            Ok((rhs, k2)) => sp_climb(
                ts,
                k + 1 + k2,
                ExprM::Binary { left: Box::new(lhs), operator: op, right: Box::new(rhs) },
                min_prec,
            ),
            Err(e) => Err(e),
        }
    } else {
        Ok((lhs, k))
    }
}

/// A binary expression at minimum precedence `min_prec`: an atom, then the
/// climbing loop. Equal precedences associate to the left because the
/// recursive climb stops at operators of equal precedence.
pub open spec fn sp_binary(ts: Seq<TokenM>, min_prec: int) -> Result<(ExprM, nat), ParseErrM>
    decreases ts.len(), 2int,
{
    match sp_atom(ts) {
        Ok((lhs, k)) => sp_climb(ts, k, lhs, min_prec),
        Err(e) => Err(e),
    }
}

/// A full expression: a binary expression at the lowest precedence.
pub open spec fn sp_expr(ts: Seq<TokenM>) -> Result<(ExprM, nat), ParseErrM>
    decreases ts.len(), 3int,
{
    sp_binary(ts, 0)
}

/// One statement: a `let` binding (with optional trailing semicolon) or a
/// bare expression statement.
pub open spec fn sp_stmt(ts: Seq<TokenM>) -> Result<(StatementM, nat), ParseErrM> {
    if ts.len() > 0 && ts[0] is Let {
        if ts.len() > 1 {
            match ts[1] {
                TokenM::Ident(name) => {
                    if ts.len() > 2 && ts[2] is Equal {
                        match sp_expr(ts.skip(3)) {
                            Ok((e, k)) => {
                                if 3 + k < ts.len() && ts[3 + k as int] is Semicolon {
                                    Ok((StatementM::Let { name, value: e }, 4 + k))
                                } else {
                                    Ok((StatementM::Let { name, value: e }, 3 + k))
                                }
                            },
                            Err(e) => Err(e),
                        }
                    } else {
                        Err(ParseErrM::ExpectedEquals)
                    }
                },
                _ => Err(ParseErrM::ExpectedIdentifier),
            }
        } else {
            Err(ParseErrM::ExpectedIdentifier)
        }
    } else {
        match sp_expr(ts) {
            Ok((e, k)) => Ok((StatementM::Expression(e), k)),
            Err(e) => Err(e),
        }
    }
}

// ---------------------------------------------------------------------------
// The executable parser.
// ---------------------------------------------------------------------------

/// The parser: a lexer and one token of lookahead.
pub struct Parser {
    pub lexer: Lexer,
    pub current_token: Token,
}

impl Parser {
    /// The lexer's cursor is within bounds.
    pub open spec fn wf(self) -> bool {
        self.lexer.wf()
    }

    /// The tokens not yet consumed: the lookahead token, then everything the
    /// lexer has still to produce. Empty exactly at end of input.
    pub open spec fn toks(self) -> Seq<TokenM> {
        if self.current_token@ is EOF {
            Seq::empty()
        } else {
            seq![self.current_token@] + tokens_from(self.lexer.input@, self.lexer.position as nat)
        }
    }

    /// Verification measure: unread characters, plus one for a pending
    /// lookahead token.
    pub open spec fn measure(self) -> int {
        self.lexer.input@.len() - self.lexer.position + (
        if self.current_token@ is EOF {
            0int
        } else {
            1int
        })
    }

    /// A parser over `input`, with the first token already fetched.
    pub fn new(input: &str) -> (r: Parser)
        ensures
            r.wf(),
            r.toks() == tokens_from(input@, 0),
    {
        let mut lexer = Lexer::new(input);
        let current_token = lexer.next_token();
        let r = Parser { lexer, current_token };
        proof {
            assert(r.toks() =~= tokens_from(input@, 0));
        }
        r
    }

    /// Is the lookahead the end-of-input marker?
    pub fn is_eof(&self) -> (r: bool)
        ensures
            r == (self.toks().len() == 0),
    {
        matches!(self.current_token, Token::EOF)
    }

    /// Consumes the lookahead token and fetches the next one, returning the
    /// consumed token.
    fn next_token(&mut self) -> (t: Token)
        requires
            old(self).wf(),
            !(old(self).current_token@ is EOF),
        ensures
            final(self).wf(),
            final(self).lexer.input == old(self).lexer.input,
            t == old(self).current_token,
            final(self).toks() == old(self).toks().skip(1),
            final(self).measure() < old(self).measure(),
    {
        let prev = self.current_token.clone();
        let next = self.lexer.next_token();
        self.current_token = next;
        proof {
            crate::lexer::lemma_next_token_bounds(
                old(self).lexer.input@,
                old(self).lexer.position as nat,
            );
            assert(final(self).toks() =~= old(self).toks().skip(1));
        }
        prev
    }

    /// The precedence of a token as a binary operator; 0 for non-operators.
    fn get_operator_precedence(token: &Token) -> (p: u8)
        ensures
            p as int == prec_of(token@),
    {
        match token {
            Token::Plus | Token::Minus => 1,
            Token::Star | Token::Slash => 2,
            _ => 0,
        }
    }

    /// Is the token a binary operator?
    fn is_operator(&self, token: &Token) -> (b: bool)
        ensures
            b == (prec_of(token@) > 0),
    {
        matches!(token, Token::Plus | Token::Minus | Token::Star | Token::Slash)
    }

    /// Does the lookahead hold an operator binding strictly tighter than
    /// `precedence`?
    fn peek_above(&self, precedence: u8) -> (b: bool)
        ensures
            b == (self.toks().len() > 0 && prec_of(self.toks()[0]) > precedence as int),
    {
        let p = Self::get_operator_precedence(&self.current_token);
        self.is_operator(&self.current_token) && p > precedence
    }

    /// Parses one statement and leaves the lookahead on what follows it.
    pub fn parse_statement(&mut self) -> (r: Result<Statement, ParseError>)
        requires
            old(self).wf(),
        ensures
            final(self).wf(),
            final(self).lexer.input == old(self).lexer.input,
            final(self).measure() <= old(self).measure(),
            match sp_stmt(old(self).toks()) {
                Ok((st, k)) => {
                    &&& r matches Ok(stmt) && stmt@ == st
                    &&& k <= old(self).toks().len()
                    &&& final(self).toks() == old(self).toks().skip(k as int)
                },
                Err(em) => r matches Err(pe) && pe@ == em,
            },
    {
        match self.current_token {
            Token::Let => self.parse_let_statement(),
            _ => {
                match self.parse_expression() {
                    Ok(e) => Ok(Statement::Expression(e)),
                    Err(e) => Err(e),
                }
            },
        }
    }

    /// Parses `let <identifier> = <expression>`, consuming one trailing
    /// semicolon if present.
    fn parse_let_statement(&mut self) -> (r: Result<Statement, ParseError>)
        requires
            old(self).wf(),
            old(self).toks().len() > 0,
            old(self).toks()[0] is Let,
        ensures
            final(self).wf(),
            final(self).lexer.input == old(self).lexer.input,
            final(self).measure() <= old(self).measure(),
            match sp_stmt(old(self).toks()) {
                Ok((st, k)) => {
                    &&& r matches Ok(stmt) && stmt@ == st
                    &&& k <= old(self).toks().len()
                    &&& final(self).toks() == old(self).toks().skip(k as int)
                },
                Err(em) => r matches Err(pe) && pe@ == em,
            },
    {
        let ghost ts0 = old(self).toks();
        self.next_token();  // consume 'let'
        proof {
            assert(self.toks().len() == ts0.len() - 1);
            if self.toks().len() > 0 {
                assert(self.toks()[0] == ts0[1]);
            }
        }
        let name = match &self.current_token {
            Token::Identifier(name) => name.clone(),
            _ => {
                return Err(ParseError::ExpectedIdentifier);
            },
        };
        self.next_token();  // consume the identifier
        proof {
            assert(self.toks() =~= ts0.skip(2));
            assert(self.toks().len() == ts0.len() - 2);
            if self.toks().len() > 0 {
                assert(self.toks()[0] == ts0[2]);
            }
        }
        if !matches!(self.current_token, Token::Equal) {
            return Err(ParseError::ExpectedEquals);
        }
        self.next_token();  // consume '='
        proof {
            assert(self.toks() =~= ts0.skip(3));
        }
        let value = match self.parse_expression() {
            Ok(e) => e,
            Err(e) => {
                return Err(e);
            },
        };
        let ghost k = (sp_expr(ts0.skip(3)) ->Ok_0).1;
        proof {
            assert(self.toks() =~= ts0.skip(3 + k as int));
            assert(self.toks().len() == ts0.len() - 3 - k);
            if self.toks().len() > 0 {
                assert(self.toks()[0] == ts0[3 + k as int]);
            }
        }
        if matches!(self.current_token, Token::Semicolon) {
            self.next_token();  // consume ';'
            proof {
                assert(self.toks() =~= ts0.skip(4 + k as int));
            }
        }
        Ok(Statement::Let { name, value })
    }

    /// Parses one expression at the lowest precedence.
    pub fn parse_expression(&mut self) -> (r: Result<Expression, ParseError>)
        requires
            old(self).wf(),
        ensures
            final(self).wf(),
            final(self).lexer.input == old(self).lexer.input,
            final(self).measure() <= old(self).measure(),
            match sp_expr(old(self).toks()) {
                Ok((e, k)) => {
                    &&& r matches Ok(expr) && expr@ == e
                    &&& k <= old(self).toks().len()
                    &&& final(self).toks() == old(self).toks().skip(k as int)
                    &&& final(self).measure() < old(self).measure()
                },
                Err(em) => r matches Err(pe) && pe@ == em,
            },
        decreases old(self).measure(), 2int,
    {
        self.parse_binary_expression(0)
    }

    /// Precedence climbing: parses an atom, then absorbs operators binding
    /// strictly tighter than `precedence`.
    fn parse_binary_expression(&mut self, precedence: u8) -> (r: Result<Expression, ParseError>)
        requires
            old(self).wf(),
        ensures
            final(self).wf(),
            final(self).lexer.input == old(self).lexer.input,
            final(self).measure() <= old(self).measure(),
            match sp_binary(old(self).toks(), precedence as int) {
                Ok((e, k)) => {
                    &&& r matches Ok(expr) && expr@ == e
                    &&& k <= old(self).toks().len()
                    &&& final(self).toks() == old(self).toks().skip(k as int)
                    &&& final(self).measure() < old(self).measure()
                },
                Err(em) => r matches Err(pe) && pe@ == em,
            },
        decreases old(self).measure(), 1int,
    {
        let ghost ts0 = old(self).toks();
        let mut left = match self.parse_atom() {
            Ok(e) => e,
            Err(e) => {
                return Err(e);
            },
        };
        let ghost mut k: nat = (sp_atom(ts0) ->Ok_0).1;
        while self.peek_above(precedence)
            invariant
                self.wf(),
                self.lexer.input == old(self).lexer.input,
                self.measure() < old(self).measure(),
                k <= ts0.len(),
                self.toks() == ts0.skip(k as int),
                sp_binary(ts0, precedence as int) == sp_climb(
                    ts0,
                    k,
                    left@,
                    precedence as int,
                ),
            decreases self.measure(),
        {
            let op_precedence = Self::get_operator_precedence(&self.current_token);
            let operator = self.next_token();
            proof {
                assert(ts0.skip(k as int).skip(1) =~= ts0.skip(k as int + 1));
            }
            let right = match self.parse_binary_expression(op_precedence) {
                Ok(e) => e,
                Err(e) => {
                    return Err(e);
                },
            };
            let ghost k2 = (sp_binary(ts0.skip(k as int + 1), op_precedence as int) ->Ok_0).1;
            proof {
                assert(ts0.skip(k as int + 1).skip(k2 as int) =~= ts0.skip(k as int + 1 + k2 as int));
            }
            left = Expression::Binary {
                left: Box::new(left),
                operator,
                right: Box::new(right),
            };
            proof {
                k = k + 1 + k2;
            }
        }
        Ok(left)
    }

    /// Parses an atom: a parenthesised expression or a primary.
    fn parse_atom(&mut self) -> (r: Result<Expression, ParseError>)
        requires
            old(self).wf(),
        ensures
            final(self).wf(),
            final(self).lexer.input == old(self).lexer.input,
            final(self).measure() <= old(self).measure(),
            match sp_atom(old(self).toks()) {
                Ok((e, k)) => {
                    &&& r matches Ok(expr) && expr@ == e
                    &&& k <= old(self).toks().len()
                    &&& final(self).toks() == old(self).toks().skip(k as int)
                    &&& final(self).measure() < old(self).measure()
                },
                Err(em) => r matches Err(pe) && pe@ == em,
            },
        decreases old(self).measure(), 0int,
    {
        let ghost ts0 = old(self).toks();
        match self.current_token {
            Token::LParen => {
                self.next_token();  // consume '('
                let expr = match self.parse_expression() {
                    Ok(e) => e,
                    Err(e) => {
                        return Err(e);
                    },
                };
                let ghost k = (sp_expr(ts0.skip(1)) ->Ok_0).1;
                proof {
                    assert(self.toks() =~= ts0.skip(1 + k as int));
                    assert(self.toks().len() == ts0.len() - 1 - k);
                    if self.toks().len() > 0 {
                        assert(self.toks()[0] == ts0[1 + k as int]);
                    }
                }
                if !matches!(self.current_token, Token::RParen) {
                    return Err(ParseError::ExpectedCloseParen);
                }
                self.next_token();  // consume ')'
                proof {
                    assert(self.toks() =~= ts0.skip(k as int + 2));
                }
                Ok(expr)
            },
            _ => self.parse_primary(),
        }
    }

    /// Parses a primary expression: a number, a string, or an identifier.
    fn parse_primary(&mut self) -> (r: Result<Expression, ParseError>)
        requires
            old(self).wf(),
        ensures
            final(self).wf(),
            final(self).lexer.input == old(self).lexer.input,
            final(self).measure() <= old(self).measure(),
            match sp_primary(old(self).toks()) {
                Ok((e, k)) => {
                    &&& r matches Ok(expr) && expr@ == e
                    &&& k <= old(self).toks().len()
                    &&& final(self).toks() == old(self).toks().skip(k as int)
                    &&& final(self).measure() < old(self).measure()
                },
                Err(em) => r matches Err(pe) && pe@ == em,
            },
    {
        let expr = match &self.current_token {
            Token::Number(n) => Expression::Number(*n),
            Token::String(s) => Expression::String(s.clone()),
            Token::Identifier(name) => Expression::Identifier(name.clone()),
            _ => {
                return Err(ParseError::ExpectedExpression(self.current_token.clone()));
            },
        };
        self.next_token();  // consume the literal or identifier
        Ok(expr)
    }
}

} // verus!

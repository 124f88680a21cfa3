//! General laws of the pipeline, each stated over the specification-level
//! lexer, parser and evaluator and proved for all inputs of its shape.

use vstd::prelude::*;

use crate::interpreter::{sv_binop, sv_expr, sv_stmt, EvalErrM, ValueM};
use crate::lexer::{
    all_digits, digit_run_end_at, digit_val, is_digit_char, seq_digits_val, skip_line_at,
    spec_next_token, str_end_at, tokens_from, TokenM,
};
use crate::number::Q;
use crate::parser::{prec_of, sp_expr, ExprM, ParseErrM, StatementM};

verus! {

/// Multiplication and division bind tighter than addition and subtraction:
/// for any numbers `a op1 b op2 c` with `op1` additive and `op2`
/// multiplicative, the parse attaches `op2` below `op1`, so the program
/// evaluates `b op2 c` first and combines the result with `a` under `op1`.
pub proof fn lemma_operator_precedence(
    env: Map<Seq<char>, ValueM>,
    a: Q,
    b: Q,
    c: Q,
    op1: TokenM,
    op2: TokenM,
)
    requires
        op1 is Plus || op1 is Minus,
        op2 is Star || op2 is Slash,
    ensures
        sp_expr(seq![TokenM::Number(a), op1, TokenM::Number(b), op2, TokenM::Number(c)])
            == Ok::<_, ParseErrM>(
            (
                ExprM::Binary {
                    left: Box::new(ExprM::Number(a)),
                    operator: op1,
                    right: Box::new(
                        ExprM::Binary {
                            left: Box::new(ExprM::Number(b)),
                            operator: op2,
                            right: Box::new(ExprM::Number(c)),
                        },
                    ),
                },
                5nat,
            ),
        ),
        sv_expr(
            env,
            ExprM::Binary {
                left: Box::new(ExprM::Number(a)),
                operator: op1,
                right: Box::new(
                    ExprM::Binary {
                        left: Box::new(ExprM::Number(b)),
                        operator: op2,
                        right: Box::new(ExprM::Number(c)),
                    },
                ),
            },
        ) == (match sv_binop(ValueM::Number(b), op2, ValueM::Number(c)) {
            Ok(v) => sv_binop(ValueM::Number(a), op1, v),
            Err(e) => Err(e),
        }),
{
    let ts = seq![TokenM::Number(a), op1, TokenM::Number(b), op2, TokenM::Number(c)];
    assert(ts.skip(2) =~= seq![TokenM::Number(b), op2, TokenM::Number(c)]);
    assert(ts.skip(2).skip(2) =~= seq![TokenM::Number(c)]);
    let s2 = ts.skip(2);
    let s4 = s2.skip(2);
    let b2 = ExprM::Binary {
        left: Box::new(ExprM::Number(b)),
        operator: op2,
        right: Box::new(ExprM::Number(c)),
    };
    let whole = ExprM::Binary {
        left: Box::new(ExprM::Number(a)),
        operator: op1,
        right: Box::new(b2),
    };
    assert(crate::parser::sp_atom(s4) == Ok::<_, ParseErrM>((ExprM::Number(c), 1nat)));
    assert(crate::parser::sp_climb(s4, 1nat, ExprM::Number(c), prec_of(op2))
        == Ok::<_, ParseErrM>((ExprM::Number(c), 1nat)));
    assert(crate::parser::sp_binary(s4, prec_of(op2)) == Ok::<_, ParseErrM>((
        ExprM::Number(c),
        1nat,
    )));
    assert(crate::parser::sp_atom(s2) == Ok::<_, ParseErrM>((ExprM::Number(b), 1nat)));
    assert(crate::parser::sp_climb(s2, 3nat, b2, prec_of(op1)) == Ok::<_, ParseErrM>((b2, 3nat)));
    assert(crate::parser::sp_climb(s2, 1nat, ExprM::Number(b), prec_of(op1))
        == Ok::<_, ParseErrM>((b2, 3nat)));
    assert(crate::parser::sp_binary(s2, prec_of(op1)) == Ok::<_, ParseErrM>((b2, 3nat)));
    assert(crate::parser::sp_atom(ts) == Ok::<_, ParseErrM>((ExprM::Number(a), 1nat)));
    assert(crate::parser::sp_climb(ts, 5nat, whole, 0) == Ok::<_, ParseErrM>((whole, 5nat)));
    assert(crate::parser::sp_climb(ts, 1nat, ExprM::Number(a), 0) == Ok::<_, ParseErrM>((
        whole,
        5nat,
    )));
    reveal_with_fuel(sv_expr, 3);
    assert(sv_expr(env, ExprM::Number(a)) == Ok::<_, EvalErrM>(ValueM::Number(a)));
    assert(sv_expr(env, b2) == sv_binop(ValueM::Number(b), op2, ValueM::Number(c)));
    match sv_binop(ValueM::Number(b), op2, ValueM::Number(c)) {
        Ok(v) => {
            assert(sv_expr(env, whole) == sv_binop(ValueM::Number(a), op1, v));
        },
        Err(e) => {
            assert(sv_expr(env, whole) == Err::<ValueM, EvalErrM>(e));
        },
    }
}

/// Operators of equal precedence associate to the left: `a op1 b op2 c`
/// with `prec(op1) == prec(op2)` parses as `(a op1 b) op2 c`, so the program
/// evaluates `a op1 b` first and combines the result with `c` under `op2`.
pub proof fn lemma_left_associativity(
    env: Map<Seq<char>, ValueM>,
    a: Q,
    b: Q,
    c: Q,
    op1: TokenM,
    op2: TokenM,
)
    requires
        prec_of(op1) > 0,
        prec_of(op1) == prec_of(op2),
    ensures
        sp_expr(seq![TokenM::Number(a), op1, TokenM::Number(b), op2, TokenM::Number(c)])
            == Ok::<_, ParseErrM>(
            (
                ExprM::Binary {
                    left: Box::new(
                        ExprM::Binary {
                            left: Box::new(ExprM::Number(a)),
                            operator: op1,
                            right: Box::new(ExprM::Number(b)),
                        },
                    ),
                    operator: op2,
                    right: Box::new(ExprM::Number(c)),
                },
                5nat,
            ),
        ),
        sv_expr(
            env,
            ExprM::Binary {
                left: Box::new(
                    ExprM::Binary {
                        left: Box::new(ExprM::Number(a)),
                        operator: op1,
                        right: Box::new(ExprM::Number(b)),
                    },
                ),
                operator: op2,
                right: Box::new(ExprM::Number(c)),
            },
        ) == (match sv_binop(ValueM::Number(a), op1, ValueM::Number(b)) {
            Ok(v) => sv_binop(v, op2, ValueM::Number(c)),
            Err(e) => Err(e),
        }),
{
    let ts = seq![TokenM::Number(a), op1, TokenM::Number(b), op2, TokenM::Number(c)];
    assert(ts.skip(2) =~= seq![TokenM::Number(b), op2, TokenM::Number(c)]);
    assert(ts.skip(4) =~= seq![TokenM::Number(c)]);
    let s2 = ts.skip(2);
    let s4 = ts.skip(4);
    let b1 = ExprM::Binary {
        left: Box::new(ExprM::Number(a)),
        operator: op1,
        right: Box::new(ExprM::Number(b)),
    };
    let whole = ExprM::Binary { left: Box::new(b1), operator: op2, right: Box::new(ExprM::Number(c)) };
    assert(crate::parser::sp_atom(s2) == Ok::<_, ParseErrM>((ExprM::Number(b), 1nat)));
    assert(crate::parser::sp_climb(s2, 1nat, ExprM::Number(b), prec_of(op1))
        == Ok::<_, ParseErrM>((ExprM::Number(b), 1nat)));
    assert(crate::parser::sp_binary(s2, prec_of(op1)) == Ok::<_, ParseErrM>((
        ExprM::Number(b),
        1nat,
    )));
    assert(crate::parser::sp_atom(s4) == Ok::<_, ParseErrM>((ExprM::Number(c), 1nat)));
    assert(crate::parser::sp_climb(s4, 1nat, ExprM::Number(c), prec_of(op2))
        == Ok::<_, ParseErrM>((ExprM::Number(c), 1nat)));
    assert(crate::parser::sp_binary(s4, prec_of(op2)) == Ok::<_, ParseErrM>((
        ExprM::Number(c),
        1nat,
    )));
    assert(ts.skip(2).skip(2) =~= s4);
    assert(crate::parser::sp_atom(ts) == Ok::<_, ParseErrM>((ExprM::Number(a), 1nat)));
    assert(crate::parser::sp_climb(ts, 5nat, whole, 0) == Ok::<_, ParseErrM>((whole, 5nat)));
    assert(crate::parser::sp_climb(ts, 3nat, b1, 0) == Ok::<_, ParseErrM>((whole, 5nat)));
    assert(crate::parser::sp_climb(ts, 1nat, ExprM::Number(a), 0) == Ok::<_, ParseErrM>((
        whole,
        5nat,
    )));
    reveal_with_fuel(sv_expr, 3);
    assert(sv_expr(env, ExprM::Number(c)) == Ok::<_, EvalErrM>(ValueM::Number(c)));
    assert(sv_expr(env, b1) == sv_binop(ValueM::Number(a), op1, ValueM::Number(b)));
    match sv_binop(ValueM::Number(a), op1, ValueM::Number(b)) {
        Ok(v) => {
            assert(sv_expr(env, whole) == sv_binop(v, op2, ValueM::Number(c)));
        },
        Err(e) => {
            assert(sv_expr(env, whole) == Err::<ValueM, EvalErrM>(e));
        },
    }
}

/// Parenthesised grouping overrides precedence: `( a op1 b ) op2 c` groups
/// the parenthesised pair first for any operators, whatever their
/// precedences, so the program evaluates `a op1 b` before applying `op2`.
pub proof fn lemma_paren_grouping(
    env: Map<Seq<char>, ValueM>,
    a: Q,
    b: Q,
    c: Q,
    op1: TokenM,
    op2: TokenM,
)
    requires
        prec_of(op1) > 0,
        prec_of(op2) > 0,
    ensures
        sp_expr(
            seq![
                TokenM::LParen,
                TokenM::Number(a),
                op1,
                TokenM::Number(b),
                TokenM::RParen,
                op2,
                TokenM::Number(c),
            ],
        ) == Ok::<_, ParseErrM>(
            (
                ExprM::Binary {
                    left: Box::new(
                        ExprM::Binary {
                            left: Box::new(ExprM::Number(a)),
                            operator: op1,
                            right: Box::new(ExprM::Number(b)),
                        },
                    ),
                    operator: op2,
                    right: Box::new(ExprM::Number(c)),
                },
                7nat,
            ),
        ),
        sv_expr(
            env,
            ExprM::Binary {
                left: Box::new(
                    ExprM::Binary {
                        left: Box::new(ExprM::Number(a)),
                        operator: op1,
                        right: Box::new(ExprM::Number(b)),
                    },
                ),
                operator: op2,
                right: Box::new(ExprM::Number(c)),
            },
        ) == (match sv_binop(ValueM::Number(a), op1, ValueM::Number(b)) {
            Ok(v) => sv_binop(v, op2, ValueM::Number(c)),
            Err(e) => Err(e),
        }),
{
    let ts = seq![
        TokenM::LParen,
        TokenM::Number(a),
        op1,
        TokenM::Number(b),
        TokenM::RParen,
        op2,
        TokenM::Number(c),
    ];
    let s1 = ts.skip(1);
    assert(s1 =~= seq![
        TokenM::Number(a),
        op1,
        TokenM::Number(b),
        TokenM::RParen,
        op2,
        TokenM::Number(c),
    ]);
    let s3 = s1.skip(2);
    assert(s3 =~= seq![TokenM::Number(b), TokenM::RParen, op2, TokenM::Number(c)]);
    let s6 = ts.skip(6);
    assert(s6 =~= seq![TokenM::Number(c)]);
    let inner = ExprM::Binary {
        left: Box::new(ExprM::Number(a)),
        operator: op1,
        right: Box::new(ExprM::Number(b)),
    };
    let whole = ExprM::Binary {
        left: Box::new(inner),
        operator: op2,
        right: Box::new(ExprM::Number(c)),
    };
    assert(crate::parser::sp_atom(s3) == Ok::<_, ParseErrM>((ExprM::Number(b), 1nat)));
    assert(crate::parser::sp_climb(s3, 1nat, ExprM::Number(b), prec_of(op1))
        == Ok::<_, ParseErrM>((ExprM::Number(b), 1nat)));
    assert(crate::parser::sp_binary(s3, prec_of(op1)) == Ok::<_, ParseErrM>((
        ExprM::Number(b),
        1nat,
    )));
    assert(crate::parser::sp_atom(s1) == Ok::<_, ParseErrM>((ExprM::Number(a), 1nat)));
    assert(s1.skip(2) =~= s3);
    assert(crate::parser::sp_climb(s1, 3nat, inner, 0) == Ok::<_, ParseErrM>((inner, 3nat)));
    assert(crate::parser::sp_climb(s1, 1nat, ExprM::Number(a), 0) == Ok::<_, ParseErrM>((
        inner,
        3nat,
    )));
    assert(sp_expr(s1) == Ok::<_, ParseErrM>((inner, 3nat)));
    assert(crate::parser::sp_atom(ts) == Ok::<_, ParseErrM>((inner, 5nat)));
    assert(crate::parser::sp_atom(s6) == Ok::<_, ParseErrM>((ExprM::Number(c), 1nat)));
    assert(crate::parser::sp_climb(s6, 1nat, ExprM::Number(c), prec_of(op2))
        == Ok::<_, ParseErrM>((ExprM::Number(c), 1nat)));
    assert(crate::parser::sp_binary(s6, prec_of(op2)) == Ok::<_, ParseErrM>((
        ExprM::Number(c),
        1nat,
    )));
    assert(crate::parser::sp_climb(ts, 7nat, whole, 0) == Ok::<_, ParseErrM>((whole, 7nat)));
    assert(crate::parser::sp_climb(ts, 5nat, inner, 0) == Ok::<_, ParseErrM>((whole, 7nat)));
    reveal_with_fuel(sv_expr, 3);
    assert(sv_expr(env, ExprM::Number(c)) == Ok::<_, EvalErrM>(ValueM::Number(c)));
    assert(sv_expr(env, inner) == sv_binop(ValueM::Number(a), op1, ValueM::Number(b)));
    match sv_binop(ValueM::Number(a), op1, ValueM::Number(b)) {
        Ok(v) => {
            assert(sv_expr(env, whole) == sv_binop(v, op2, ValueM::Number(c)));
        },
        Err(e) => {
            assert(sv_expr(env, whole) == Err::<ValueM, EvalErrM>(e));
        },
    }
}

/// Sequential `let` bindings accumulate in one environment: after
/// `let n1 = e1; let n2 = e2;` both names are bound, the later binding is
/// visible, and an expression evaluated between the two sees the first.
pub proof fn lemma_sequential_lets(
    env: Map<Seq<char>, ValueM>,
    n1: Seq<char>,
    e1: ExprM,
    n2: Seq<char>,
    e2: ExprM,
    v1: ValueM,
    v2: ValueM,
    env1: Map<Seq<char>, ValueM>,
    env2: Map<Seq<char>, ValueM>,
)
    requires
        sv_stmt(env, StatementM::Let { name: n1, value: e1 }) == Ok::<_, EvalErrM>((v1, env1)),
        sv_stmt(env1, StatementM::Let { name: n2, value: e2 }) == Ok::<_, EvalErrM>((v2, env2)),
    ensures
        env1 == env.insert(n1, v1),
        env2 == env1.insert(n2, v2),
        sv_expr(env1, ExprM::Ident(n1)) == Ok::<_, EvalErrM>(v1),
        env2.contains_key(n1) && env2.contains_key(n2),
        env2[n2] == v2,
        n1 != n2 ==> env2[n1] == v1,
{
}

/// `+` on two strings concatenates, the right operand appended to the left;
/// no other operator is defined on strings.
pub proof fn lemma_string_concatenation(l: Seq<char>, r: Seq<char>, op: TokenM)
    ensures
        sv_binop(ValueM::StrLit(l), TokenM::Plus, ValueM::StrLit(r)) == Ok::<_, EvalErrM>(
            ValueM::StrLit(l + r),
        ),
        op is Minus || op is Star || op is Slash ==> sv_binop(
            ValueM::StrLit(l),
            op,
            ValueM::StrLit(r),
        ) == Err::<ValueM, _>(EvalErrM::InvalidOperation),
{
}

/// Referencing a name evaluates to the bound value when the name is bound,
/// and fails with an error naming the variable exactly when it is not.
pub proof fn lemma_undefined_variable(env: Map<Seq<char>, ValueM>, n: Seq<char>)
    ensures
        !env.contains_key(n) <==> sv_expr(env, ExprM::Ident(n)) == Err::<ValueM, _>(
            EvalErrM::UndefinedVariable(n),
        ),
        env.contains_key(n) ==> sv_expr(env, ExprM::Ident(n)) == Ok::<_, EvalErrM>(env[n]),
{
}

/// Any binary operation outside exact number arithmetic and string `+` —
/// mismatched kinds, `-`/`*`/`/` on strings, any operator on booleans or
/// null — fails as an invalid operation and never coerces.
pub proof fn lemma_invalid_operation(l: ValueM, op: TokenM, r: ValueM)
    requires
        !(l is Number && r is Number && prec_of(op) > 0),
        !(l is StrLit && r is StrLit && op is Plus),
    ensures
        sv_binop(l, op, r) == Err::<ValueM, _>(EvalErrM::InvalidOperation),
{
}

/// A `//` line comment is invisible to tokenization: the token stream from
/// the start of the comment equals the token stream from just past its
/// newline.
pub proof fn lemma_comment_skipped(s: Seq<char>, i: nat)
    requires
        i + 1 < s.len(),
        s[i as int] == '/',
        s[i as int + 1] == '/',
    ensures
        spec_next_token(s, i) == spec_next_token(s, skip_line_at(s, i)),
        tokens_from(s, i) == tokens_from(s, skip_line_at(s, i)),
{
    let lend = skip_line_at(s, i);
    assert(crate::lexer::skip_ws_at(s, i) == i);
    assert(crate::lexer::skip_trivia_at(s, i) == crate::lexer::skip_trivia_at(s, lend));
}

// ---------------------------------------------------------------------------
// Round-trip of literal values.
// ---------------------------------------------------------------------------

/// The digit character for a digit value.
pub open spec fn digit_char_of(d: int) -> char {
    if d == 0 {
        '0'
    } else if d == 1 {
        '1'
    } else if d == 2 {
        '2'
    } else if d == 3 {
        '3'
    } else if d == 4 {
        '4'
    } else if d == 5 {
        '5'
    } else if d == 6 {
        '6'
    } else if d == 7 {
        '7'
    } else if d == 8 {
        '8'
    } else {
        '9'
    }
}

/// The decimal digits of a nonnegative integer.
pub open spec fn render_int(n: int) -> Seq<char>
    decreases n,
{
    if n < 10 {
        seq![digit_char_of(n)]
    } else {
        render_int(n / 10).push(digit_char_of(n % 10))
    }
}

/// The source text of a literal value: digits for a nonnegative integer, a
/// quoted string for a string.
pub open spec fn render_literal(v: ValueM) -> Seq<char> {
    match v {
        ValueM::Number(q) => render_int(q.num as int),
        ValueM::StrLit(t) => seq!['"'] + t + seq!['"'],
        _ => Seq::empty(),
    }
}

proof fn lemma_render_int_digits(n: int)
    requires
        0 <= n,
    ensures
        all_digits(render_int(n)),
        seq_digits_val(render_int(n)) == n,
        render_int(n).len() >= 1,
    decreases n,
{
    assert('0' as u32 == 48 && '1' as u32 == 49 && '2' as u32 == 50 && '3' as u32 == 51
        && '4' as u32 == 52 && '5' as u32 == 53 && '6' as u32 == 54 && '7' as u32 == 55
        && '8' as u32 == 56 && '9' as u32 == 57);
    if n < 10 {
        let ds = render_int(n);
        assert(ds =~= seq![digit_char_of(n)]);
        assert(ds.last() == digit_char_of(n));
        assert(ds.drop_last() =~= Seq::<char>::empty());
        assert(seq_digits_val(Seq::<char>::empty()) == 0);
        assert(digit_val(digit_char_of(n)) == n);
        assert(seq_digits_val(ds) == 10 * seq_digits_val(ds.drop_last()) + digit_val(ds.last()));
        assert(seq_digits_val(ds) == n);
    } else {
        lemma_render_int_digits(n / 10);
        let ds = render_int(n);
        assert(ds.drop_last() =~= render_int(n / 10));
        assert(ds.last() == digit_char_of(n % 10));
        assert(seq_digits_val(ds) == 10 * (n / 10) + n % 10);
    }
}

/// A run of digits covering the whole input ends at the input's end.
proof fn lemma_digit_run_full(s: Seq<char>, i: nat)
    requires
        i <= s.len(),
        forall|k: int| i <= k < s.len() ==> is_digit_char(#[trigger] s[k]),
    ensures
        digit_run_end_at(s, i) == s.len(),
    decreases s.len() - i,
{
    if i < s.len() {
        lemma_digit_run_full(s, i + 1);
    }
}

/// A quote-free stretch is scanned to the terminating quote.
proof fn lemma_str_end_past(s: Seq<char>, i: nat, e: nat)
    requires
        i <= e < s.len(),
        s[e as int] == '"',
        forall|k: int| i <= k < e ==> s[k] != '"',
    ensures
        str_end_at(s, i) == e,
    decreases e - i,
{
    if i < e {
        lemma_str_end_past(s, i + 1, e);
    }
}

/// Round-trip of literal values: rendering a nonnegative integer value or a
/// quote-free string value as source text, tokenizing, parsing and
/// evaluating it yields exactly the original value, under any environment.
/// (Negative or fractional numbers and booleans and null have no literal
/// form, and a string holding a quote cannot be written as one literal.)
pub proof fn lemma_literal_round_trip(env: Map<Seq<char>, ValueM>, v: ValueM)
    requires
        (v matches ValueM::Number(q) && q.den == 1 && 0 <= q.num) || (v matches ValueM::StrLit(t)
            && forall|k: int| 0 <= k < t.len() ==> t[k] != '"'),
    ensures
        ({
            let ts = tokens_from(render_literal(v), 0);
            &&& sp_expr(ts) matches Ok((e, k)) && k == ts.len() && sv_expr(env, e)
                == Ok::<_, EvalErrM>(v)
        }),
{
    let src = render_literal(v);
    match v {
        ValueM::Number(q) => {
            lemma_render_int_digits(q.num as int);
            lemma_digit_run_full(src, 0);
            assert(crate::lexer::skip_ws_at(src, 0) == 0);
            assert(crate::lexer::skip_trivia_at(src, 0) == 0);
            assert(src.subrange(0, src.len() as int) =~= src);
            assert(crate::lexer::number_digits_at(src, 0) == src);
            assert(spec_next_token(src, 0) == (TokenM::Number(Q { num: q.num, den: 1 }), src.len()));
            assert(Q { num: q.num, den: 1 } == q);
            assert(crate::lexer::skip_ws_at(src, src.len()) == src.len());
            assert(crate::lexer::skip_trivia_at(src, src.len()) == src.len());
            assert(spec_next_token(src, src.len()).0 == TokenM::EOF);
            assert(tokens_from(src, src.len()) =~= Seq::<TokenM>::empty());
            let ts = tokens_from(src, 0);
            assert(ts =~= seq![TokenM::Number(q)]);
            assert(crate::parser::sp_atom(ts) == Ok::<_, ParseErrM>((ExprM::Number(q), 1nat)));
            assert(crate::parser::sp_climb(ts, 1nat, ExprM::Number(q), 0) == Ok::<_, ParseErrM>((
                ExprM::Number(q),
                1nat,
            )));
            assert(sp_expr(ts) == Ok::<_, ParseErrM>((ExprM::Number(q), 1nat)));
        },
        ValueM::StrLit(t) => {
            let e = 1 + t.len();
            assert(src.len() == t.len() + 2);
            assert(src[0] == '"');
            assert(src[e as int] == '"');
            assert(forall|k: int| 1 <= k < e ==> src[k] == t[k - 1]);
            lemma_str_end_past(src, 1, e as nat);
            assert(crate::lexer::skip_ws_at(src, 0) == 0);
            assert(crate::lexer::skip_trivia_at(src, 0) == 0);
            assert(src.subrange(1, e as int) =~= t);
            assert(spec_next_token(src, 0) == (TokenM::StrLit(t), src.len()));
            assert(crate::lexer::skip_ws_at(src, src.len()) == src.len());
            assert(crate::lexer::skip_trivia_at(src, src.len()) == src.len());
            assert(spec_next_token(src, src.len()).0 == TokenM::EOF);
            assert(tokens_from(src, src.len()) =~= Seq::<TokenM>::empty());
            let ts = tokens_from(src, 0);
            assert(ts =~= seq![TokenM::StrLit(t)]);
            assert(crate::parser::sp_atom(ts) == Ok::<_, ParseErrM>((ExprM::StrLit(t), 1nat)));
            assert(crate::parser::sp_climb(ts, 1nat, ExprM::StrLit(t), 0) == Ok::<_, ParseErrM>((
                ExprM::StrLit(t),
                1nat,
            )));
            assert(sp_expr(ts) == Ok::<_, ParseErrM>((ExprM::StrLit(t), 1nat)));
        },
        _ => {},
    }
}

} // verus!

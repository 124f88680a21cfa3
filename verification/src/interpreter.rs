//! Tree-walking evaluation over a mutable variable environment.
//!
//! [`Interpreter::eval`] consumes one statement: a `let` binding stores its
//! value under the name (overwriting any earlier binding) and a bare
//! expression only computes; both overwrite the "last computed value" slot.
//! Numbers combine under `+ - * /` as exact rationals, strings concatenate
//! under `+`, and every other combination is an invalid operation. A failed
//! statement leaves the interpreter unchanged.
//!
//! The behaviour is pinned by a specification-level evaluator ([`sv_stmt`],
//! [`sv_expr`], [`sv_binop`]) over a `Map` model of the environment.

use vstd::prelude::*;
use vstd::string::*;

use crate::lexer::{Token, TokenM};
use crate::number::{of_parts, parts_fit, Q};
use crate::parser::{ExprM, Expression, Statement, StatementM};

verus! {

/// A runtime value.
#[derive(Debug, PartialEq)]
pub enum Value {
    Number(Q),
    String(String),
    Boolean(bool),
    Null,
}

/// The mathematical model of a runtime value.
pub enum ValueM {
    Number(Q),
    StrLit(Seq<char>),
    Boolean(bool),
    Null,
}

impl View for Value {
    type V = ValueM;

    open spec fn view(&self) -> ValueM {
        match self {
            Value::Number(q) => ValueM::Number(*q),
            Value::String(s) => ValueM::StrLit(s@),
            Value::Boolean(b) => ValueM::Boolean(*b),
            Value::Null => ValueM::Null,
        }
    }
}

impl Clone for Value {
    fn clone(&self) -> (r: Value)
        ensures
            r == self,
    {
        match self {
            Value::Number(q) => Value::Number(*q),
            Value::String(s) => Value::String(s.clone()),
            Value::Boolean(b) => Value::Boolean(*b),
            Value::Null => Value::Null,
        }
    }
}

/// An evaluation failure. A failed statement has no effect.
#[derive(Debug, PartialEq)]
pub enum EvalError {
    /// An identifier was not bound in the environment; the name is carried.
    UndefinedVariable(String),
    /// The operand kinds do not admit the operator.
    InvalidOperation,
    /// Division by an exact zero.
    DivisionByZero,
    /// The exact result does not fit the runtime number representation.
    Overflow,
}

/// The mathematical model of an evaluation failure.
pub enum EvalErrM {
    UndefinedVariable(Seq<char>),
    InvalidOperation,
    DivisionByZero,
    Overflow,
}

impl View for EvalError {
    type V = EvalErrM;

    open spec fn view(&self) -> EvalErrM {
        match self {
            EvalError::UndefinedVariable(s) => EvalErrM::UndefinedVariable(s@),
            EvalError::InvalidOperation => EvalErrM::InvalidOperation,
            EvalError::DivisionByZero => EvalErrM::DivisionByZero,
            EvalError::Overflow => EvalErrM::Overflow,
        }
    }
}

// ---------------------------------------------------------------------------
// The specification-level evaluator.
// ---------------------------------------------------------------------------

/// A rational result if the exact pair fits, otherwise an overflow error.
pub open spec fn q_result(n: int, d: int) -> Result<ValueM, EvalErrM> {
    if parts_fit(n, d) {
        Ok(ValueM::Number(of_parts(n, d)))
    } else {
        Err(EvalErrM::Overflow)
    }
}

/// One binary operation: exact rational arithmetic on two numbers, string
/// concatenation for `+` on two strings, and nothing else.
pub open spec fn sv_binop(l: ValueM, op: TokenM, r: ValueM) -> Result<ValueM, EvalErrM> {
    match (l, op, r) {
        (ValueM::Number(a), TokenM::Plus, ValueM::Number(b)) => q_result(
            a.sum_num(b),
            a.den_prod(b),
        ),
        (ValueM::Number(a), TokenM::Minus, ValueM::Number(b)) => q_result(
            a.diff_num(b),
            a.den_prod(b),
        ),
        (ValueM::Number(a), TokenM::Star, ValueM::Number(b)) => q_result(
            a.prod_num(b),
            a.den_prod(b),
        ),
        (ValueM::Number(a), TokenM::Slash, ValueM::Number(b)) => if b.num == 0 {
            Err(EvalErrM::DivisionByZero)
        } else {
            q_result(a.quot_num(b), a.quot_den(b))
        },
        (ValueM::StrLit(a), TokenM::Plus, ValueM::StrLit(b)) => Ok(ValueM::StrLit(a + b)),
        _ => Err(EvalErrM::InvalidOperation),
    }
}

/// Evaluation of one expression under an environment.
pub open spec fn sv_expr(env: Map<Seq<char>, ValueM>, e: ExprM) -> Result<ValueM, EvalErrM>
    decreases e,
{
    match e {
        ExprM::Number(q) => Ok(ValueM::Number(q)),
        ExprM::StrLit(s) => Ok(ValueM::StrLit(s)),
        ExprM::Ident(n) => if env.contains_key(n) {
            Ok(env[n])
        } else {
            Err(EvalErrM::UndefinedVariable(n))
        },
        ExprM::Binary { left, operator, right } => match sv_expr(env, *left) {
            Ok(l) => match sv_expr(env, *right) {
                Ok(r) => sv_binop(l, operator, r),
                Err(e) => Err(e),
            },
            Err(e) => Err(e),
        },
    }
}

/// Evaluation of one statement: the value produced and the environment after.
pub open spec fn sv_stmt(env: Map<Seq<char>, ValueM>, st: StatementM) -> Result<
    (ValueM, Map<Seq<char>, ValueM>),
    EvalErrM,
> {
    match st {
        StatementM::Let { name, value } => match sv_expr(env, value) {
            Ok(v) => Ok((v, env.insert(name, v))),
            Err(e) => Err(e),
        },
        StatementM::Expression(e) => match sv_expr(env, e) {
            Ok(v) => Ok((v, env)),
            Err(e) => Err(e),
        },
    }
}

// ---------------------------------------------------------------------------
// The environment.
// ---------------------------------------------------------------------------

/// The binding list as a map; a later binding for the same name wins.
pub open spec fn env_map(s: Seq<(String, Value)>) -> Map<Seq<char>, ValueM>
    decreases s.len(),
{
    if s.len() == 0 {
        Map::empty()
    } else {
        env_map(s.drop_last()).insert(s.last().0@, s.last().1@)
    }
}

/// The variable environment: names bound to the value most recently assigned
/// to them. Modelled as a `Map` from name to value.
pub struct Environment {
    pub entries: Vec<(String, Value)>,
}

impl View for Environment {
    type V = Map<Seq<char>, ValueM>;

    open spec fn view(&self) -> Map<Seq<char>, ValueM> {
        env_map(self.entries@)
    }
}

impl Environment {
    /// An empty environment.
    pub fn new() -> (r: Environment)
        ensures
            r@ == Map::<Seq<char>, ValueM>::empty(),
    {
        Environment { entries: Vec::new() }
    }

    /// Binds `name` to `value`, overwriting any earlier binding.
    pub fn insert(&mut self, name: String, value: Value)
        ensures
            final(self)@ == old(self)@.insert(name@, value@),
    {
        let ghost olds = self.entries@;
        self.entries.push((name, value));
        proof {
            assert(self.entries@.drop_last() =~= olds);
        }
    }

    /// The value bound to `name`, if any.
    pub fn get(&self, name: &String) -> (r: Option<&Value>)
        ensures
            match r {
                Some(v) => self@.contains_key(name@) && v@ == self@[name@],
                None => !self@.contains_key(name@),
            },
    {
        let ghost full = self.entries@;
        let mut i = self.entries.len();
        proof {
            assert(full.take(full.len() as int) =~= full);
        }
        while i > 0
            invariant
                i <= self.entries@.len(),
                self@.contains_key(name@) == env_map(full.take(i as int)).contains_key(name@),
                env_map(full.take(i as int)).contains_key(name@) ==> self@[name@] == env_map(
                    full.take(i as int),
                )[name@],
            decreases i,
        {
            i = i - 1;
            proof {
                assert(full.take(i + 1 as int).drop_last() =~= full.take(i as int));
                assert(full.take(i + 1 as int).last() == full[i as int]);
            }
            let entry = &self.entries[i];
            if entry.0 == *name {
                return Some(&entry.1);
            }
        }
        proof {
            assert(full.take(0) =~= Seq::<(String, Value)>::empty());
        }
        None
    }
}

// ---------------------------------------------------------------------------
// The interpreter.
// ---------------------------------------------------------------------------

/// The evaluator: a variable environment and the last computed value.
pub struct Interpreter {
    pub variables: Environment,
    pub last_value: Option<Value>,
}

impl Interpreter {
    /// The model of the "last computed value" slot.
    pub open spec fn last_m(self) -> Option<ValueM> {
        match self.last_value {
            Some(v) => Some(v@),
            None => None,
        }
    }

    /// A fresh interpreter: empty environment, no last value.
    pub fn new() -> (r: Interpreter)
        ensures
            r.variables@ == Map::<Seq<char>, ValueM>::empty(),
            r.last_value is None,
    {
        Interpreter { variables: Environment::new(), last_value: None }
    }

    /// Evaluates one statement: returns its value, records it as the last
    /// computed value, and for a `let` binds it in the environment. A failed
    /// statement leaves the interpreter unchanged.
    pub fn eval(&mut self, stmt: Statement) -> (r: Result<Value, EvalError>)
        ensures
            match sv_stmt(old(self).variables@, stmt@) {
                Ok((v, env2)) => {
                    &&& r matches Ok(rv) && rv@ == v
                    &&& final(self).variables@ == env2
                    &&& final(self).last_m() == Some(v)
                },
                Err(em) => {
                    &&& r matches Err(ee) && ee@ == em
                    &&& *final(self) == *old(self)
                },
            },
    {
        match stmt {
            Statement::Let { name, value } => {
                let val = match self.eval_expression(value) {
                    Ok(v) => v,
                    Err(e) => {
                        return Err(e);
                    },
                };
                self.variables.insert(name, val.clone());
                self.last_value = Some(val.clone());
                Ok(val)
            },
            Statement::Expression(expr) => {
                let val = match self.eval_expression(expr) {
                    Ok(v) => v,
                    Err(e) => {
                        return Err(e);
                    },
                };
                self.last_value = Some(val.clone());
                Ok(val)
            },
        }
    }

    /// Evaluates one expression against the current environment, without
    /// side effects.
    fn eval_expression(&self, expr: Expression) -> (r: Result<Value, EvalError>)
        ensures
            match sv_expr(self.variables@, expr@) {
                Ok(v) => r matches Ok(rv) && rv@ == v,
                Err(em) => r matches Err(ee) && ee@ == em,
            },
        decreases expr,
    {
        match expr {
            Expression::Number(n) => Ok(Value::Number(n)),
            Expression::String(s) => Ok(Value::String(s)),
            Expression::Identifier(name) => {
                match self.variables.get(&name) {
                    Some(v) => Ok(v.clone()),
                    None => Err(EvalError::UndefinedVariable(name)),
                }
            },
            Expression::Binary { left, operator, right } => {
                let lhs = match self.eval_expression(*left) {
                    Ok(v) => v,
                    Err(e) => {
                        return Err(e);
                    },
                };
                let rhs = match self.eval_expression(*right) {
                    Ok(v) => v,
                    Err(e) => {
                        return Err(e);
                    },
                };
                self.eval_binary_op(lhs, operator, rhs)
            },
        }
    }

    /// Applies one binary operator to two runtime values.
    fn eval_binary_op(&self, left: Value, op: Token, right: Value) -> (r: Result<Value, EvalError>)
        ensures
            match sv_binop(left@, op@, right@) {
                Ok(v) => r matches Ok(rv) && rv@ == v,
                Err(em) => r matches Err(ee) && ee@ == em,
            },
    {
        match (left, op, right) {
            (Value::Number(l), Token::Plus, Value::Number(r2)) => {
                match l.checked_add(r2) {
                    Some(q) => Ok(Value::Number(q)),
                    None => Err(EvalError::Overflow),
                }
            },
            (Value::Number(l), Token::Minus, Value::Number(r2)) => {
                match l.checked_sub(r2) {
                    Some(q) => Ok(Value::Number(q)),
                    None => Err(EvalError::Overflow),
                }
            },
            (Value::Number(l), Token::Star, Value::Number(r2)) => {
                match l.checked_mul(r2) {
                    Some(q) => Ok(Value::Number(q)),
                    None => Err(EvalError::Overflow),
                }
            },
            (Value::Number(l), Token::Slash, Value::Number(r2)) => {
                if r2.num == 0 {
                    Err(EvalError::DivisionByZero)
                } else {
                    match l.checked_div(r2) {
                        Some(q) => Ok(Value::Number(q)),
                        None => Err(EvalError::Overflow),
                    }
                }
            },
            (Value::String(l), Token::Plus, Value::String(r2)) => {
                Ok(Value::String(l.concat(r2.as_str())))
            },
            _ => Err(EvalError::InvalidOperation),
        }
    }

    /// The last computed value, if any statement has been evaluated.
    pub fn get_last_value(&self) -> (r: Option<&Value>)
        ensures
            match r {
                Some(v) => self.last_value == Some(*v),
                None => self.last_value is None,
            },
    {
        match &self.last_value {
            Some(v) => Some(v),
            None => None,
        }
    }

    /// The variable environment.
    pub fn get_variables(&self) -> (r: &Environment)
        ensures
            r == &self.variables,
    {
        &self.variables
    }
}

} // verus!

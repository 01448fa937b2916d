//! Expressions: the runtime value domain, the abstract syntax tree, the
//! fully parenthesized pretty-printer, and the evaluator. The
//! specification functions `value_text`, `expr_text` and `eval_expr`
//! define rendering and evaluation mathematically; the executable
//! methods are proved to match them.

use vstd::prelude::*;

use crate::environment::Environment;
use crate::error::{RuntimeErrModel, RuntimeError, ValueKind};
use crate::num::{num_text, spec_add, spec_div, spec_mul, spec_neg, spec_num_eq, spec_num_le,
    spec_num_lt, spec_sub, Num};
use crate::scanner::{token_wf, LitModel, Token, TokenModel, TokenType};

verus! {

/// A runtime value: a number, a string, a boolean, or nil.
#[derive(Debug)]
pub enum LiteralValue {
    Number(Num),
    StringValue(String),
    True,
    False,
    Nil,
}

/// The mathematical image of a runtime value.
pub ghost enum ValueModel {
    Number(Num),
    Str(Seq<char>),
    True,
    False,
    Nil,
}

/// The mathematical image of a runtime value.
pub open spec fn value_view(v: LiteralValue) -> ValueModel {
    match v {
        LiteralValue::Number(n) => ValueModel::Number(n),
        LiteralValue::StringValue(s) => ValueModel::Str(s@),
        LiteralValue::True => ValueModel::True,
        LiteralValue::False => ValueModel::False,
        LiteralValue::Nil => ValueModel::Nil,
    }
}

/// A value is well formed when any number in it is.
pub open spec fn value_wf(v: ValueModel) -> bool {
    v matches ValueModel::Number(n) ==> n.wf()
}

/// The runtime type of a value.
pub open spec fn kind_of(v: ValueModel) -> ValueKind {
    match v {
        ValueModel::Number(_) => ValueKind::NumberKind,
        ValueModel::Str(_) => ValueKind::StringKind,
        ValueModel::True => ValueKind::BooleanKind,
        ValueModel::False => ValueKind::BooleanKind,
        ValueModel::Nil => ValueKind::NilKind,
    }
}

/// Truthiness: `nil`, `false`, the number zero and the empty string are
/// the falsy values; everything else is truthy.
pub open spec fn truthy(v: ValueModel) -> bool {
    match v {
        ValueModel::Nil => false,
        ValueModel::False => false,
        ValueModel::True => true,
        ValueModel::Number(n) => !(n matches Num::Finite { neg: _, mag: 0 }),
        ValueModel::Str(s) => s.len() != 0,
    }
}

/// The boolean value of a truth value.
pub open spec fn bool_val(b: bool) -> ValueModel {
    if b {
        ValueModel::True
    } else {
        ValueModel::False
    }
}

/// The canonical text of a value: a number's decimal text, a string's
/// raw text, and the words `true`, `false` and `nil`.
pub open spec fn value_text(v: ValueModel) -> Seq<char> {
    match v {
        ValueModel::Number(n) => num_text(n),
        ValueModel::Str(s) => s,
        ValueModel::True => "true"@,
        ValueModel::False => "false"@,
        ValueModel::Nil => "nil"@,
    }
}

/// Extracts the text of a string or identifier payload; any other
/// payload is rejected by the precondition.
pub fn unwrap_as_string(literal: Option<crate::scanner::LiteralValue>) -> (r: String)
    requires
        crate::scanner::lit_view(literal) matches Some(l) && (l is Str || l is Ident),
    ensures
        crate::scanner::lit_view(literal) matches Some(LitModel::Str(s)) ==> r@ == s,
        crate::scanner::lit_view(literal) matches Some(LitModel::Ident(s)) ==> r@ == s,
{
    match literal {
        Some(crate::scanner::LiteralValue::StringValue(s)) => s,
        Some(crate::scanner::LiteralValue::IdentifierValue(s)) => s,
        _ => {
            // Unreachable under the precondition; return an empty text.
            proof {
                assert(false);
            }
            String::new()
        },
    }
}

/// The value of a literal token.
pub open spec fn from_token_spec(t: TokenModel) -> ValueModel
    recommends
        token_wf(t),
{
    if t.kind == TokenType::Number {
        match t.lit {
            Some(LitModel::Num(m)) => ValueModel::Number(Num::Finite { neg: false, mag: m as u128 }),
            _ => ValueModel::Nil,
        }
    } else if t.kind == TokenType::StringLit {
        match t.lit {
            Some(LitModel::Str(s)) => ValueModel::Str(s),
            _ => ValueModel::Nil,
        }
    } else if t.kind == TokenType::True {
        ValueModel::True
    } else if t.kind == TokenType::False {
        ValueModel::False
    } else {
        ValueModel::Nil
    }
}

impl LiteralValue {
    /// Builds the value of a literal token: a number's magnitude, a
    /// string's text, or one of `true`, `false`, `nil`.
    pub fn from_token(token: Token) -> (r: LiteralValue)
        requires
            token_wf(token@),
            token@.kind == TokenType::Number || token@.kind == TokenType::StringLit || token@.kind
                == TokenType::True || token@.kind == TokenType::False || token@.kind
                == TokenType::Nil,
        ensures
            value_view(r) == from_token_spec(token@),
            value_wf(value_view(r)),
    {
        match token.token_type {
            TokenType::Number => {
                match token.literal {
                    Some(crate::scanner::LiteralValue::NumberValue { mag }) => LiteralValue::Number(
                        Num::Finite { neg: false, mag },
                    ),
                    _ => {
                        proof {
                            assert(false);
                        }
                        LiteralValue::Nil
                    },
                }
            },
            TokenType::StringLit => {
                match token.literal {
                    Some(crate::scanner::LiteralValue::StringValue(s)) => LiteralValue::StringValue(
                        s,
                    ),
                    _ => {
                        proof {
                            assert(false);
                        }
                        LiteralValue::Nil
                    },
                }
            },
            TokenType::True => LiteralValue::True,
            TokenType::False => LiteralValue::False,
            _ => LiteralValue::Nil,
        }
    }

    /// The boolean value of a truth value.
    pub fn from_bool(b: bool) -> (r: LiteralValue)
        ensures
            value_view(r) == bool_val(b),
    {
        if b {
            LiteralValue::True
        } else {
            LiteralValue::False
        }
    }

    /// The logical negation of this value's truthiness: `True` exactly
    /// for the falsy values `nil`, `false`, `0` and `""`.
    pub fn is_falsy(&self) -> (r: LiteralValue)
        ensures
            value_view(r) == bool_val(!truthy(value_view(*self))),
    {
        match self {
            LiteralValue::Number(n) => {
                match n {
                    Num::Finite { neg: _, mag } => {
                        if *mag == 0 {
                            LiteralValue::True
                        } else {
                            LiteralValue::False
                        }
                    },
                    _ => LiteralValue::False,
                }
            },
            LiteralValue::StringValue(s) => {
                if s.as_str().unicode_len() == 0 {
                    LiteralValue::True
                } else {
                    LiteralValue::False
                }
            },
            LiteralValue::True => LiteralValue::False,
            LiteralValue::False => LiteralValue::True,
            LiteralValue::Nil => LiteralValue::True,
        }
    }

    /// The canonical text of this value.
    pub fn to_string(&self) -> (r: String)
        requires
            value_wf(value_view(*self)),
        ensures
            r@ == value_text(value_view(*self)),
    {
        match self {
            LiteralValue::Number(n) => n.to_text(),
            LiteralValue::StringValue(s) => s.clone(),
            LiteralValue::True => String::from_str("true"),
            LiteralValue::False => String::from_str("false"),
            LiteralValue::Nil => String::from_str("nil"),
        }
    }
}

/// A field-by-field copy of a value, preserving its model.
pub fn clone_value(v: &LiteralValue) -> (r: LiteralValue)
    ensures
        value_view(r) == value_view(*v),
{
    match v {
        LiteralValue::Number(n) => LiteralValue::Number(*n),
        LiteralValue::StringValue(s) => LiteralValue::StringValue(s.clone()),
        LiteralValue::True => LiteralValue::True,
        LiteralValue::False => LiteralValue::False,
        LiteralValue::Nil => LiteralValue::Nil,
    }
}

/// An expression of the abstract syntax tree. Every node owns its
/// children; the tree is consumed once by the evaluator.
#[derive(Debug)]
pub enum Expr {
    Binary { left: Box<Expr>, operator: Token, right: Box<Expr> },
    Grouping { expression: Box<Expr> },
    Literal { value: LiteralValue },
    Unary { operator: Token, right: Box<Expr> },
    Variable { name: Token },
    Assign { name: Token, value: Box<Expr> },
}

/// The mathematical image of an expression.
pub ghost enum ExprM {
    Binary { left: Box<ExprM>, op: TokenModel, right: Box<ExprM> },
    Grouping { inner: Box<ExprM> },
    Literal { value: ValueModel },
    Unary { op: TokenModel, right: Box<ExprM> },
    Variable { name: TokenModel },
    Assign { name: TokenModel, value: Box<ExprM> },
}

/// The mathematical image of an expression.
pub open spec fn expr_view(e: Expr) -> ExprM
    decreases e,
{
    match e {
        Expr::Binary { left, operator, right } => ExprM::Binary {
            left: Box::new(expr_view(*left)),
            op: operator@,
            right: Box::new(expr_view(*right)),
        },
        Expr::Grouping { expression } => ExprM::Grouping { inner: Box::new(expr_view(*expression)) },
        Expr::Literal { value } => ExprM::Literal { value: value_view(value) },
        Expr::Unary { operator, right } => ExprM::Unary {
            op: operator@,
            right: Box::new(expr_view(*right)),
        },
        Expr::Variable { name } => ExprM::Variable { name: name@ },
        Expr::Assign { name, value } => ExprM::Assign {
            name: name@,
            value: Box::new(expr_view(*value)),
        },
    }
}

/// An expression is well formed when every literal in it is.
pub open spec fn expr_wf(e: ExprM) -> bool
    decreases e,
{
    match e {
        ExprM::Binary { left, op: _, right } => expr_wf(*left) && expr_wf(*right),
        ExprM::Grouping { inner } => expr_wf(*inner),
        ExprM::Literal { value } => value_wf(value),
        ExprM::Unary { op: _, right } => expr_wf(*right),
        ExprM::Variable { name: _ } => true,
        ExprM::Assign { name: _, value } => expr_wf(*value),
    }
}

/// The fully parenthesized prefix rendering of an expression: operators
/// render as `(op operands...)`, groupings as `(group e)`, literals as
/// their canonical text, variables as their name, and assignments as
/// `(= name value)`.
pub open spec fn expr_text(e: ExprM) -> Seq<char>
    decreases e,
{
    match e {
        ExprM::Binary { left, op, right } => seq!['('] + op.lexeme + seq![' '] + expr_text(*left)
            + seq![' '] + expr_text(*right) + seq![')'],
        ExprM::Grouping { inner } => "(group "@ + expr_text(*inner) + seq![')'],
        ExprM::Literal { value } => value_text(value),
        ExprM::Unary { op, right } => seq!['('] + op.lexeme + seq![' '] + expr_text(*right)
            + seq![')'],
        ExprM::Variable { name } => name.lexeme,
        ExprM::Assign { name, value } => "(= "@ + name.lexeme + seq![' '] + expr_text(*value)
            + seq![')'],
    }
}

/// An expression is printable when every literal in it is well formed
/// (a number's text is only defined in range).
impl Expr {
    /// Renders this expression in fully parenthesized prefix form.
    pub fn to_string(&self) -> (r: String)
        requires
            expr_wf(expr_view(*self)),
        ensures
            r@ == expr_text(expr_view(*self)),
        decreases self,
    {
        match self {
            Expr::Binary { left, operator, right } => {
                let mut s = String::from_str("(");
                s.append(operator.lexeme.as_str());
                s.append(" ");
                let ls = left.to_string();
                s.append(ls.as_str());
                s.append(" ");
                let rs = right.to_string();
                s.append(rs.as_str());
                s.append(")");
                proof {
                    reveal_strlit("(");
                    reveal_strlit(" ");
                    reveal_strlit(")");
                    assert(s@ =~= expr_text(expr_view(*self)));
                }
                s
            },
            Expr::Grouping { expression } => {
                let mut s = String::from_str("(group ");
                let es = expression.to_string();
                s.append(es.as_str());
                s.append(")");
                proof {
                    reveal_strlit(")");
                    assert(s@ =~= expr_text(expr_view(*self)));
                }
                s
            },
            Expr::Literal { value } => value.to_string(),
            Expr::Unary { operator, right } => {
                let mut s = String::from_str("(");
                s.append(operator.lexeme.as_str());
                s.append(" ");
                let rs = right.to_string();
                s.append(rs.as_str());
                s.append(")");
                proof {
                    reveal_strlit("(");
                    reveal_strlit(" ");
                    reveal_strlit(")");
                    assert(s@ =~= expr_text(expr_view(*self)));
                }
                s
            },
            Expr::Variable { name } => name.lexeme.clone(),
            Expr::Assign { name, value } => {
                let mut s = String::from_str("(= ");
                s.append(name.lexeme.as_str());
                s.append(" ");
                let vs = value.to_string();
                s.append(vs.as_str());
                s.append(")");
                proof {
                    reveal_strlit(" ");
                    reveal_strlit(")");
                    assert(s@ =~= expr_text(expr_view(*self)));
                }
                s
            },
        }
    }
}

// ---------------------------------------------------------------------------
// Evaluation.
// ---------------------------------------------------------------------------
/// What evaluating one expression produces: a value or the first runtime
/// error, and the environment after any assignments.
pub ghost struct EvalOut {
    pub res: Result<ValueModel, RuntimeErrModel>,
    pub env: Map<Seq<char>, ValueModel>,
}

/// The type-mismatch error for a binary operator.
pub open spec fn mismatch(op: TokenModel, lv: ValueModel, rv: ValueModel) -> RuntimeErrModel {
    RuntimeErrModel::TypeMismatch { op: op.lexeme, left: kind_of(lv), right: kind_of(rv) }
}

/// A binary operator applied to two values: arithmetic and comparisons
/// on numbers, `+` also concatenates two strings, and `==`/`!=` compare
/// two numbers or two strings; every other combination is a
/// `TypeMismatch` error.
pub open spec fn eval_binary(op: TokenModel, lv: ValueModel, rv: ValueModel) -> Result<
    ValueModel,
    RuntimeErrModel,
> {
    match (lv, rv) {
        (ValueModel::Number(x), ValueModel::Number(y)) => {
            if op.kind == TokenType::Plus {
                Ok(ValueModel::Number(spec_add(x, y)))
            } else if op.kind == TokenType::Minus {
                Ok(ValueModel::Number(spec_sub(x, y)))
            } else if op.kind == TokenType::Slash {
                Ok(ValueModel::Number(spec_div(x, y)))
            } else if op.kind == TokenType::Star {
                Ok(ValueModel::Number(spec_mul(x, y)))
            } else if op.kind == TokenType::Greater {
                Ok(bool_val(spec_num_lt(y, x)))
            } else if op.kind == TokenType::GreaterEqual {
                Ok(bool_val(spec_num_le(y, x)))
            } else if op.kind == TokenType::Less {
                Ok(bool_val(spec_num_lt(x, y)))
            } else if op.kind == TokenType::LessEqual {
                Ok(bool_val(spec_num_le(x, y)))
            } else if op.kind == TokenType::BangEqual {
                Ok(bool_val(!spec_num_eq(x, y)))
            } else if op.kind == TokenType::EqualEqual {
                Ok(bool_val(spec_num_eq(x, y)))
            } else {
                Err(mismatch(op, lv, rv))
            }
        },
        (ValueModel::Str(a), ValueModel::Str(b)) => {
            if op.kind == TokenType::Plus {
                Ok(ValueModel::Str(a + b))
            } else if op.kind == TokenType::EqualEqual {
                Ok(bool_val(a == b))
            } else if op.kind == TokenType::BangEqual {
                Ok(bool_val(a != b))
            } else {
                Err(mismatch(op, lv, rv))
            }
        },
        _ => Err(mismatch(op, lv, rv)),
    }
}

/// Evaluates an expression in an environment: literals yield their
/// value, groupings their inner expression, variables their binding (or
/// an `UndefinedVariable` error), assignments rebind an existing name
/// and yield the assigned value, `-` negates a number, `!` negates
/// truthiness, and binary operators follow `eval_binary`. Evaluation is
/// left to right and stops at the first error.
pub open spec fn eval_expr(e: ExprM, env: Map<Seq<char>, ValueModel>) -> EvalOut
    decreases e,
{
    match e {
        ExprM::Literal { value } => EvalOut { res: Ok(value), env },
        ExprM::Grouping { inner } => eval_expr(*inner, env),
        ExprM::Variable { name } => {
            if env.contains_key(name.lexeme) {
                EvalOut { res: Ok(env[name.lexeme]), env }
            } else {
                EvalOut {
                    res: Err(RuntimeErrModel::UndefinedVariable { name: name.lexeme }),
                    env,
                }
            }
        },
        ExprM::Assign { name, value } => {
            let o = eval_expr(*value, env);
            match o.res {
                Err(_) => o,
                Ok(v) => {
                    if o.env.contains_key(name.lexeme) {
                        EvalOut { res: Ok(v), env: o.env.insert(name.lexeme, v) }
                    } else {
                        EvalOut {
                            res: Err(RuntimeErrModel::UndefinedVariable { name: name.lexeme }),
                            env: o.env,
                        }
                    }
                },
            }
        },
        ExprM::Unary { op, right } => {
            let o = eval_expr(*right, env);
            match o.res {
                Err(_) => o,
                Ok(v) => {
                    if op.kind == TokenType::Minus {
                        match v {
                            ValueModel::Number(n) => EvalOut {
                                res: Ok(ValueModel::Number(spec_neg(n))),
                                env: o.env,
                            },
                            _ => EvalOut {
                                res: Err(
                                    RuntimeErrModel::TypeMismatchUnary {
                                        op: op.lexeme,
                                        operand: kind_of(v),
                                    },
                                ),
                                env: o.env,
                            },
                        }
                    } else if op.kind == TokenType::Bang {
                        EvalOut { res: Ok(bool_val(!truthy(v))), env: o.env }
                    } else {
                        EvalOut {
                            res: Err(
                                RuntimeErrModel::TypeMismatchUnary {
                                    op: op.lexeme,
                                    operand: kind_of(v),
                                },
                            ),
                            env: o.env,
                        }
                    }
                },
            }
        },
        ExprM::Binary { left, op, right } => {
            let lo = eval_expr(*left, env);
            match lo.res {
                Err(_) => lo,
                Ok(lv) => {
                    let ro = eval_expr(*right, lo.env);
                    match ro.res {
                        Err(_) => ro,
                        Ok(rv) => EvalOut { res: eval_binary(op, lv, rv), env: ro.env },
                    }
                },
            }
        },
    }
}

/// The runtime type of a value.
pub fn value_kind(v: &LiteralValue) -> (r: ValueKind)
    ensures
        r == kind_of(value_view(*v)),
{
    match v {
        LiteralValue::Number(_) => ValueKind::NumberKind,
        LiteralValue::StringValue(_) => ValueKind::StringKind,
        LiteralValue::True => ValueKind::BooleanKind,
        LiteralValue::False => ValueKind::BooleanKind,
        LiteralValue::Nil => ValueKind::NilKind,
    }
}

impl Expr {
    /// Evaluates this expression against the environment, which any
    /// assignment inside it updates; `eval_expr` gives the exact value,
    /// error and final environment.
    pub fn evaluate(&self, environment: &mut Environment) -> (r: Result<
        LiteralValue,
        RuntimeError,
    >)
        requires
            expr_wf(expr_view(*self)),
            old(environment).wf(),
        ensures
            final(environment).wf(),
            ({
                let out = eval_expr(expr_view(*self), old(environment)@);
                &&& final(environment)@ == out.env
                &&& (match r {
                    Ok(v) => out.res matches Ok(vm) && value_view(v) == vm && value_wf(vm),
                    Err(e) => out.res matches Err(em) && e@ == em,
                })
            }),
        decreases self,
    {
        match self {
            Expr::Literal { value } => Ok(clone_value(value)),
            Expr::Grouping { expression } => expression.evaluate(environment),
            Expr::Variable { name } => environment.get(name.lexeme.as_str()),
            Expr::Assign { name, value } => {
                let v = value.evaluate(environment)?;
                let assigned = clone_value(&v);
                match environment.assign(name.lexeme.as_str(), assigned) {
                    Ok(_) => Ok(v),
                    Err(e) => Err(e),
                }
            },
            Expr::Unary { operator, right } => {
                let v = right.evaluate(environment)?;
                match operator.token_type {
                    TokenType::Minus => {
                        match v {
                            LiteralValue::Number(n) => Ok(LiteralValue::Number(n.neg_val())),
                            _ => Err(
                                RuntimeError::TypeMismatchUnary {
                                    op: operator.lexeme.clone(),
                                    operand: value_kind(&v),
                                },
                            ),
                        }
                    },
                    TokenType::Bang => Ok(v.is_falsy()),
                    _ => Err(
                        RuntimeError::TypeMismatchUnary {
                            op: operator.lexeme.clone(),
                            operand: value_kind(&v),
                        },
                    ),
                }
            },
            Expr::Binary { left, operator, right } => {
                let lv = left.evaluate(environment)?;
                let rv = right.evaluate(environment)?;
                match (lv, rv) {
                    (LiteralValue::Number(x), LiteralValue::Number(y)) => {
                        match operator.token_type {
                            TokenType::Plus => Ok(LiteralValue::Number(x.add(y))),
                            TokenType::Minus => Ok(LiteralValue::Number(x.sub(y))),
                            TokenType::Slash => Ok(LiteralValue::Number(x.div(y))),
                            TokenType::Star => Ok(LiteralValue::Number(x.mul(y))),
                            TokenType::Greater => Ok(LiteralValue::from_bool(y.lt_val(x))),
                            TokenType::GreaterEqual => Ok(LiteralValue::from_bool(y.le_val(x))),
                            TokenType::Less => Ok(LiteralValue::from_bool(x.lt_val(y))),
                            TokenType::LessEqual => Ok(LiteralValue::from_bool(x.le_val(y))),
                            TokenType::BangEqual => Ok(LiteralValue::from_bool(!x.eq_val(y))),
                            TokenType::EqualEqual => Ok(LiteralValue::from_bool(x.eq_val(y))),
                            _ => Err(
                                RuntimeError::TypeMismatch {
                                    op: operator.lexeme.clone(),
                                    left: ValueKind::NumberKind,
                                    right: ValueKind::NumberKind,
                                },
                            ),
                        }
                    },
                    (LiteralValue::StringValue(a), LiteralValue::StringValue(b)) => {
                        match operator.token_type {
                            TokenType::Plus => Ok(
                                LiteralValue::StringValue(a.concat(b.as_str())),
                            ),
                            TokenType::EqualEqual => Ok(
                                LiteralValue::from_bool(str_eq_strings(&a, &b)),
                            ),
                            TokenType::BangEqual => Ok(
                                LiteralValue::from_bool(!str_eq_strings(&a, &b)),
                            ),
                            _ => Err(
                                RuntimeError::TypeMismatch {
                                    op: operator.lexeme.clone(),
                                    left: ValueKind::StringKind,
                                    right: ValueKind::StringKind,
                                },
                            ),
                        }
                    },
                    (l, r) => Err(
                        RuntimeError::TypeMismatch {
                            op: operator.lexeme.clone(),
                            left: value_kind(&l),
                            right: value_kind(&r),
                        },
                    ),
                }
            },
        }
    }
}

/// String equality on owned strings.
fn str_eq_strings(a: &String, b: &String) -> (r: bool)
    ensures
        r == (a@ == b@),
{
    crate::scanner::str_eq(a.as_str(), b.as_str())
}

} // verus!

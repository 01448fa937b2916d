//! The recursive-descent parser: token sequence to statement sequence,
//! with one token of lookahead, left-associative binary tiers, and
//! error recovery that synchronizes at statement boundaries so one call
//! reports every independent syntax error.

use vstd::prelude::*;

use crate::expr::{expr_view, expr_wf, from_token_spec, Expr, ExprM, LiteralValue, ValueModel};
use crate::scanner::{clone_token, token_views, token_wf, Token, TokenModel, TokenType};
use crate::stmt::{stmt_view, stmt_views, stmt_wf, Stmt, StmtM};

verus! {

/// One syntax error.
#[derive(Debug)]
pub enum ParseError {
    /// A token that cannot start an expression.
    ExpectedExpression { line: usize },
    /// An assignment whose left-hand side is not a variable.
    InvalidAssignmentTarget { line: usize },
    /// A required token that is missing; `what` says which.
    Missing { what: String, line: usize },
}

/// The mathematical image of a syntax error.
pub ghost enum ParseErrModel {
    ExpectedExpression { line: nat },
    InvalidAssignmentTarget { line: nat },
    Missing { what: Seq<char>, line: nat },
}

impl View for ParseError {
    type V = ParseErrModel;

    open spec fn view(&self) -> ParseErrModel {
        match self {
            ParseError::ExpectedExpression { line } => ParseErrModel::ExpectedExpression {
                line: line as nat,
            },
            ParseError::InvalidAssignmentTarget { line } => ParseErrModel::InvalidAssignmentTarget {
                line: line as nat,
            },
            ParseError::Missing { what, line } => ParseErrModel::Missing {
                what: what@,
                line: line as nat,
            },
        }
    }
}

/// The error models of an error sequence.
pub open spec fn perr_views(es: Seq<ParseError>) -> Seq<ParseErrModel> {
    Seq::new(es.len(), |k: int| es[k]@)
}

// ---------------------------------------------------------------------------
// The parse specification: one function per grammar tier, mirroring the
// recursive descent exactly, over the token models. Each returns the
// parsed fragment (or the error) and the cursor position afterwards.
// ---------------------------------------------------------------------------
/// What parsing one expression fragment produces.
pub ghost struct PExpr {
    pub res: Result<ExprM, ParseErrModel>,
    pub next: nat,
}

/// What parsing one statement produces.
pub ghost struct PStmt {
    pub res: Result<StmtM, ParseErrModel>,
    pub next: nat,
}

/// What parsing a whole program produces: the statements that parsed
/// and every error found, in order.
pub ghost struct ParseModel {
    pub stmts: Seq<StmtM>,
    pub errs: Seq<ParseErrModel>,
}

/// `primary`: a literal, a parenthesized expression, or a variable; any
/// other token is an `ExpectedExpression` error that consumes nothing.
pub open spec fn p_primary(toks: Seq<TokenModel>, pos: nat) -> PExpr
    decreases toks.len() - pos, 1int,
{
    if pos < toks.len() {
        let t = toks[pos as int];
        if t.kind == TokenType::LeftParen {
            let r = p_expression(toks, pos + 1);
            match r.res {
                Err(_) => r,
                Ok(e) => {
                    if r.next < toks.len() && toks[r.next as int].kind == TokenType::RightParen {
                        PExpr {
                            res: Ok(ExprM::Grouping { inner: Box::new(e) }),
                            next: r.next + 1,
                        }
                    } else {
                        PExpr {
                            res: Err(
                                ParseErrModel::Missing {
                                    what: "Expect ')' after expression."@,
                                    line: if r.next < toks.len() {
                                        toks[r.next as int].line
                                    } else {
                                        0
                                    },
                                },
                            ),
                            next: r.next,
                        }
                    }
                },
            }
        } else if t.kind == TokenType::False || t.kind == TokenType::True || t.kind
            == TokenType::Nil || t.kind == TokenType::Number || t.kind == TokenType::StringLit {
            PExpr { res: Ok(ExprM::Literal { value: from_token_spec(t) }), next: pos + 1 }
        } else if t.kind == TokenType::Identifier {
            PExpr { res: Ok(ExprM::Variable { name: t }), next: pos + 1 }
        } else {
            PExpr { res: Err(ParseErrModel::ExpectedExpression { line: t.line }), next: pos }
        }
    } else {
        PExpr { res: Err(ParseErrModel::ExpectedExpression { line: 0 }), next: pos }
    }
}

/// `unary`: `!` or `-` applied to a unary expression, or a primary.
pub open spec fn p_unary(toks: Seq<TokenModel>, pos: nat) -> PExpr
    decreases toks.len() - pos, 2int,
{
    if pos < toks.len() && (toks[pos as int].kind == TokenType::Bang || toks[pos as int].kind
        == TokenType::Minus) {
        let op = toks[pos as int];
        let r = p_unary(toks, pos + 1);
        match r.res {
            Err(_) => r,
            Ok(e) => PExpr {
                res: Ok(ExprM::Unary { op, right: Box::new(e) }),
                next: r.next,
            },
        }
    } else {
        p_primary(toks, pos)
    }
}

/// Whether `kind` is one of the operators of the `factor` tier.
pub open spec fn is_factor_op(kind: TokenType) -> bool {
    kind == TokenType::Slash || kind == TokenType::Star
}

/// The left-folding loop of the `factor` tier.
pub open spec fn p_factor_rest(toks: Seq<TokenModel>, left: ExprM, pos: nat) -> PExpr
    decreases toks.len() - pos, 3int,
{
    if pos < toks.len() && is_factor_op(toks[pos as int].kind) {
        let op = toks[pos as int];
        let r = p_unary(toks, pos + 1);
        match r.res {
            Err(_) => r,
            Ok(rhs) => {
                let folded = ExprM::Binary { left: Box::new(left), op, right: Box::new(rhs) };
                if pos < r.next && r.next <= toks.len() {
                    p_factor_rest(toks, folded, r.next)
                } else {
                    PExpr { res: Ok(folded), next: r.next }
                }
            },
        }
    } else {
        PExpr { res: Ok(left), next: pos }
    }
}

/// `factor`: unary expressions joined by `/` and `*`, left-associative.
pub open spec fn p_factor(toks: Seq<TokenModel>, pos: nat) -> PExpr
    decreases toks.len() - pos, 4int,
{
    let r = p_unary(toks, pos);
    match r.res {
        Err(_) => r,
        Ok(e) => {
            if pos <= r.next && r.next <= toks.len() {
                p_factor_rest(toks, e, r.next)
            } else {
                r
            }
        },
    }
}

/// Whether `kind` is one of the operators of the `term` tier.
pub open spec fn is_term_op(kind: TokenType) -> bool {
    kind == TokenType::Minus || kind == TokenType::Plus
}

/// The left-folding loop of the `term` tier.
pub open spec fn p_term_rest(toks: Seq<TokenModel>, left: ExprM, pos: nat) -> PExpr
    decreases toks.len() - pos, 5int,
{
    if pos < toks.len() && is_term_op(toks[pos as int].kind) {
        let op = toks[pos as int];
        let r = p_factor(toks, pos + 1);
        match r.res {
            Err(_) => r,
            Ok(rhs) => {
                let folded = ExprM::Binary { left: Box::new(left), op, right: Box::new(rhs) };
                if pos < r.next && r.next <= toks.len() {
                    p_term_rest(toks, folded, r.next)
                } else {
                    PExpr { res: Ok(folded), next: r.next }
                }
            },
        }
    } else {
        PExpr { res: Ok(left), next: pos }
    }
}

/// `term`: factors joined by `-` and `+`, left-associative.
pub open spec fn p_term(toks: Seq<TokenModel>, pos: nat) -> PExpr
    decreases toks.len() - pos, 6int,
{
    let r = p_factor(toks, pos);
    match r.res {
        Err(_) => r,
        Ok(e) => {
            if pos <= r.next && r.next <= toks.len() {
                p_term_rest(toks, e, r.next)
            } else {
                r
            }
        },
    }
}

/// Whether `kind` is one of the operators of the `comparison` tier.
pub open spec fn is_comparison_op(kind: TokenType) -> bool {
    kind == TokenType::Greater || kind == TokenType::GreaterEqual || kind == TokenType::Less
        || kind == TokenType::LessEqual
}

/// The left-folding loop of the `comparison` tier.
pub open spec fn p_comparison_rest(toks: Seq<TokenModel>, left: ExprM, pos: nat) -> PExpr
    decreases toks.len() - pos, 7int,
{
    if pos < toks.len() && is_comparison_op(toks[pos as int].kind) {
        let op = toks[pos as int];
        let r = p_term(toks, pos + 1);
        match r.res {
            Err(_) => r,
            Ok(rhs) => {
                let folded = ExprM::Binary { left: Box::new(left), op, right: Box::new(rhs) };
                if pos < r.next && r.next <= toks.len() {
                    p_comparison_rest(toks, folded, r.next)
                } else {
                    PExpr { res: Ok(folded), next: r.next }
                }
            },
        }
    } else {
        PExpr { res: Ok(left), next: pos }
    }
}

/// `comparison`: terms joined by `>`, `>=`, `<`, `<=`, left-associative.
pub open spec fn p_comparison(toks: Seq<TokenModel>, pos: nat) -> PExpr
    decreases toks.len() - pos, 8int,
{
    let r = p_term(toks, pos);
    match r.res {
        Err(_) => r,
        Ok(e) => {
            if pos <= r.next && r.next <= toks.len() {
                p_comparison_rest(toks, e, r.next)
            } else {
                r
            }
        },
    }
}

/// Whether `kind` is one of the operators of the `equality` tier.
pub open spec fn is_equality_op(kind: TokenType) -> bool {
    kind == TokenType::BangEqual || kind == TokenType::EqualEqual
}

/// The left-folding loop of the `equality` tier.
pub open spec fn p_equality_rest(toks: Seq<TokenModel>, left: ExprM, pos: nat) -> PExpr
    decreases toks.len() - pos, 9int,
{
    if pos < toks.len() && is_equality_op(toks[pos as int].kind) {
        let op = toks[pos as int];
        let r = p_comparison(toks, pos + 1);
        match r.res {
            Err(_) => r,
            Ok(rhs) => {
                let folded = ExprM::Binary { left: Box::new(left), op, right: Box::new(rhs) };
                if pos < r.next && r.next <= toks.len() {
                    p_equality_rest(toks, folded, r.next)
                } else {
                    PExpr { res: Ok(folded), next: r.next }
                }
            },
        }
    } else {
        PExpr { res: Ok(left), next: pos }
    }
}

/// `equality`: comparisons joined by `!=` and `==`, left-associative.
pub open spec fn p_equality(toks: Seq<TokenModel>, pos: nat) -> PExpr
    decreases toks.len() - pos, 10int,
{
    let r = p_comparison(toks, pos);
    match r.res {
        Err(_) => r,
        Ok(e) => {
            if pos <= r.next && r.next <= toks.len() {
                p_equality_rest(toks, e, r.next)
            } else {
                r
            }
        },
    }
}

/// `assignment`: right-associative; the left-hand side must already
/// have parsed as a variable, else the assignment target is invalid.
pub open spec fn p_assignment(toks: Seq<TokenModel>, pos: nat) -> PExpr
    decreases toks.len() - pos, 11int,
{
    let r = p_equality(toks, pos);
    match r.res {
        Err(_) => r,
        Ok(e) => {
            if pos <= r.next && r.next < toks.len() && toks[r.next as int].kind
                == TokenType::Equal {
                let eq_line = toks[r.next as int].line;
                let v = p_assignment(toks, r.next + 1);
                match v.res {
                    Err(_) => v,
                    Ok(value) => {
                        match e {
                            ExprM::Variable { name } => PExpr {
                                res: Ok(ExprM::Assign { name, value: Box::new(value) }),
                                next: v.next,
                            },
                            _ => PExpr {
                                res: Err(
                                    ParseErrModel::InvalidAssignmentTarget { line: eq_line },
                                ),
                                next: v.next,
                            },
                        }
                    },
                }
            } else {
                r
            }
        },
    }
}

/// `expression`: the whole expression grammar, from its lowest tier.
#[verifier::opaque]
pub open spec fn p_expression(toks: Seq<TokenModel>, pos: nat) -> PExpr
    decreases toks.len() - pos, 12int,
{
    p_assignment(toks, pos)
}

/// A `print` statement after its keyword: an expression and a `;`.
pub open spec fn p_print_statement(toks: Seq<TokenModel>, pos: nat) -> PStmt
    decreases toks.len() - pos, 13int,
{
    let r = p_expression(toks, pos);
    match r.res {
        Err(e) => PStmt { res: Err(e), next: r.next },
        Ok(expr) => {
            if r.next < toks.len() && toks[r.next as int].kind == TokenType::Semicolon {
                PStmt { res: Ok(StmtM::Print { expression: expr }), next: r.next + 1 }
            } else {
                PStmt {
                    res: Err(
                        ParseErrModel::Missing {
                            what: "Expect ';' after value."@,
                            line: if r.next < toks.len() {
                                toks[r.next as int].line
                            } else {
                                0
                            },
                        },
                    ),
                    next: r.next,
                }
            }
        },
    }
}

/// An expression statement: an expression and a `;`.
pub open spec fn p_expression_statement(toks: Seq<TokenModel>, pos: nat) -> PStmt
    decreases toks.len() - pos, 13int,
{
    let r = p_expression(toks, pos);
    match r.res {
        Err(e) => PStmt { res: Err(e), next: r.next },
        Ok(expr) => {
            if r.next < toks.len() && toks[r.next as int].kind == TokenType::Semicolon {
                PStmt { res: Ok(StmtM::Expression { expression: expr }), next: r.next + 1 }
            } else {
                PStmt {
                    res: Err(
                        ParseErrModel::Missing {
                            what: "Expect ';' after expression."@,
                            line: if r.next < toks.len() {
                                toks[r.next as int].line
                            } else {
                                0
                            },
                        },
                    ),
                    next: r.next,
                }
            }
        },
    }
}

/// A statement: a `print` statement or an expression statement.
pub open spec fn p_statement(toks: Seq<TokenModel>, pos: nat) -> PStmt
    decreases toks.len() - pos, 14int,
{
    if pos < toks.len() && toks[pos as int].kind == TokenType::Print {
        p_print_statement(toks, pos + 1)
    } else {
        p_expression_statement(toks, pos)
    }
}

/// A `var` declaration after its keyword: a name, an optional `=`
/// initializer (a missing one is the `nil` literal), and a `;`.
pub open spec fn p_var_declaration(toks: Seq<TokenModel>, pos: nat) -> PStmt
    decreases toks.len() - pos, 13int,
{
    if pos < toks.len() && toks[pos as int].kind == TokenType::Identifier {
        let name = toks[pos as int];
        let after_name = pos + 1;
        if after_name < toks.len() && toks[after_name as int].kind == TokenType::Equal {
            let r = p_expression(toks, after_name + 1);
            match r.res {
                Err(e) => PStmt { res: Err(e), next: r.next },
                Ok(init) => {
                    if r.next < toks.len() && toks[r.next as int].kind == TokenType::Semicolon {
                        PStmt {
                            res: Ok(StmtM::Var { name, initializer: init }),
                            next: r.next + 1,
                        }
                    } else {
                        PStmt {
                            res: Err(
                                ParseErrModel::Missing {
                                    what: "Expected ';' after variable declaration"@,
                                    line: if r.next < toks.len() {
                                        toks[r.next as int].line
                                    } else {
                                        0
                                    },
                                },
                            ),
                            next: r.next,
                        }
                    }
                },
            }
        } else {
            let init = ExprM::Literal { value: ValueModel::Nil };
            if after_name < toks.len() && toks[after_name as int].kind == TokenType::Semicolon {
                PStmt { res: Ok(StmtM::Var { name, initializer: init }), next: after_name + 1 }
            } else {
                PStmt {
                    res: Err(
                        ParseErrModel::Missing {
                            what: "Expected ';' after variable declaration"@,
                            line: if after_name < toks.len() {
                                toks[after_name as int].line
                            } else {
                                0
                            },
                        },
                    ),
                    next: after_name,
                }
            }
        }
    } else {
        PStmt {
            res: Err(
                ParseErrModel::Missing {
                    what: "Expected variable name"@,
                    line: if pos < toks.len() {
                        toks[pos as int].line
                    } else {
                        0
                    },
                },
            ),
            next: pos,
        }
    }
}

/// Whether `kind` starts a new statement, for error recovery.
pub open spec fn is_sync_start(kind: TokenType) -> bool {
    kind == TokenType::Class || kind == TokenType::Fun || kind == TokenType::Var || kind
        == TokenType::For || kind == TokenType::If || kind == TokenType::While || kind
        == TokenType::Print || kind == TokenType::Return
}

/// The scan forward of error recovery: discard tokens until just past a
/// `;`, or to a token that starts a statement, or to the end.
pub open spec fn p_sync_loop(toks: Seq<TokenModel>, pos: nat) -> nat
    decreases toks.len() - pos, 1int,
{
    if pos < toks.len() && toks[pos as int].kind != TokenType::Eof {
        if pos >= 1 && toks[pos as int - 1].kind == TokenType::Semicolon {
            pos
        } else if is_sync_start(toks[pos as int].kind) {
            pos
        } else {
            p_sync_loop(toks, pos + 1)
        }
    } else {
        pos
    }
}

/// Error recovery: skip the offending token, then scan to a statement
/// boundary.
pub open spec fn p_sync(toks: Seq<TokenModel>, pos: nat) -> nat
    decreases toks.len() - pos, 2int,
{
    let p = if pos < toks.len() && toks[pos as int].kind != TokenType::Eof {
        pos + 1
    } else {
        pos
    };
    if pos <= p && p <= toks.len() {
        p_sync_loop(toks, p)
    } else {
        p
    }
}

/// A declaration: a `var` declaration or a statement; a failure in
/// either is caught here and the parser synchronizes past it.
pub open spec fn p_declaration(toks: Seq<TokenModel>, pos: nat) -> PStmt
    decreases toks.len() - pos, 15int,
{
    if pos < toks.len() && toks[pos as int].kind == TokenType::Var {
        let r = p_var_declaration(toks, pos + 1);
        match r.res {
            Ok(_) => r,
            Err(e) => {
                let nx = if pos <= r.next && r.next <= toks.len() {
                    p_sync(toks, r.next)
                } else {
                    r.next
                };
                PStmt { res: Err(e), next: nx }
            },
        }
    } else {
        let r = p_statement(toks, pos);
        match r.res {
            Ok(_) => r,
            Err(e) => {
                let nx = if pos <= r.next && r.next <= toks.len() {
                    p_sync(toks, r.next)
                } else {
                    r.next
                };
                PStmt { res: Err(e), next: nx }
            },
        }
    }
}

/// A whole program: declarations until the `Eof` token, collecting
/// every statement that parsed and every error found.
pub open spec fn p_program(toks: Seq<TokenModel>, pos: nat) -> ParseModel
    decreases toks.len() - pos, 16int,
{
    if pos < toks.len() && toks[pos as int].kind != TokenType::Eof {
        let d = p_declaration(toks, pos);
        let nx = if pos < d.next && d.next <= toks.len() {
            d.next
        } else {
            toks.len()
        };
        let rest = p_program(toks, nx);
        match d.res {
            Ok(s) => ParseModel { stmts: seq![s] + rest.stmts, errs: rest.errs },
            Err(e) => ParseModel { stmts: rest.stmts, errs: seq![e] + rest.errs },
        }
    } else {
        ParseModel { stmts: Seq::empty(), errs: Seq::empty() }
    }
}

/// The parse of a whole token sequence.
pub open spec fn parse_spec(toks: Seq<TokenModel>) -> ParseModel {
    p_program(toks, 0)
}

// ---------------------------------------------------------------------------
// The executable parser.
// ---------------------------------------------------------------------------
/// A well-formed token sequence: non-empty, exactly one `Eof` token and
/// it stands last, and every token's payload matches its kind. The
/// scanner produces exactly such sequences.
pub open spec fn toks_wf(toks: Seq<TokenModel>) -> bool {
    &&& toks.len() >= 1
    &&& toks[toks.len() - 1].kind == TokenType::Eof
    &&& forall|j: int| 0 <= j < toks.len() - 1 ==> (#[trigger] toks[j]).kind != TokenType::Eof
    &&& forall|j: int| 0 <= j < toks.len() ==> token_wf(#[trigger] toks[j])
}

/// The parser's cursor state over its token sequence.
pub struct Parser {
    pub tokens: Vec<Token>,
    pub current: usize,
}

impl Parser {
    /// The token models this parser reads.
    pub open spec fn toks(&self) -> Seq<TokenModel> {
        token_views(self.tokens@)
    }

    /// Well-formedness: the tokens are a scanner-shaped sequence and the
    /// cursor never passes the final `Eof` token.
    pub open spec fn wf(&self) -> bool {
        &&& toks_wf(self.toks())
        &&& self.current < self.toks().len()
    }

    pub fn new(tokens: Vec<Token>) -> (r: Parser)
        requires
            toks_wf(token_views(tokens@)),
        ensures
            r.wf(),
            r.current == 0,
            r.toks() == token_views(tokens@),
    {
        Parser { tokens, current: 0 }
    }

    fn peek(&self) -> (t: Token)
        requires
            self.wf(),
        ensures
            t@ == self.toks()[self.current as int],
    {
        clone_token(&self.tokens[self.current])
    }

    fn previous(&self) -> (t: Token)
        requires
            self.wf(),
            self.current >= 1,
        ensures
            t@ == self.toks()[self.current - 1],
    {
        clone_token(&self.tokens[self.current - 1])
    }

    fn is_at_end(&self) -> (r: bool)
        requires
            self.wf(),
        ensures
            r == (self.toks()[self.current as int].kind == TokenType::Eof),
    {
        self.tokens[self.current].token_type == TokenType::Eof
    }

    fn advance(&mut self) -> (t: Token)
        requires
            old(self).wf(),
            old(self).current >= 1 || old(self).toks()[old(self).current as int].kind
                != TokenType::Eof,
        ensures
            final(self).wf(),
            final(self).tokens == old(self).tokens,
            final(self).current == if old(self).toks()[old(self).current as int].kind
                != TokenType::Eof {
                old(self).current + 1
            } else {
                old(self).current as int
            },
            t@ == final(self).toks()[final(self).current - 1],
    {
        let n = self.tokens.len();
        if !self.is_at_end() {
            proof {
                assert(self.toks()[self.toks().len() - 1].kind == TokenType::Eof);
                assert(self.current as int != self.toks().len() - 1);
                assert(self.current + 1 <= n);
            }
            self.current = self.current + 1;
        }
        self.previous()
    }

    fn match_token(&mut self, typ: TokenType) -> (r: bool)
        requires
            old(self).wf(),
        ensures
            final(self).wf(),
            final(self).tokens == old(self).tokens,
            r == (old(self).toks()[old(self).current as int].kind != TokenType::Eof && old(self).toks()[old(self).current as int].kind == typ),
            final(self).current == old(self).current + if r {
                1int
            } else {
                0int
            },
    {
        if self.is_at_end() {
            false
        } else {
            if self.tokens[self.current].token_type == typ {
                self.advance();
                true
            } else {
                false
            }
        }
    }

    fn consume(&mut self, token_type: TokenType, msg: &str) -> (r: Result<Token, ParseError>)
        requires
            old(self).wf(),
            token_type != TokenType::Eof,
        ensures
            final(self).wf(),
            final(self).tokens == old(self).tokens,
            match r {
                Ok(t) => old(self).toks()[old(self).current as int].kind == token_type && final(self).current == old(self).current + 1 && t@ == old(self).toks()[old(self).current as int],
                Err(e) => old(self).toks()[old(self).current as int].kind != token_type && final(self).current == old(self).current && e@ == (ParseErrModel::Missing {
                    what: msg@,
                    line: old(self).toks()[old(self).current as int].line,
                }),
            },
    {
        if self.tokens[self.current].token_type == token_type {
            let t = self.advance();
            Ok(t)
        } else {
            Err(
                ParseError::Missing {
                    what: msg.to_owned(),
                    line: self.tokens[self.current].line_number,
                },
            )
        }
    }

    /// Error recovery: discard tokens until just past a `;` or at a
    /// token that starts a new statement.
    #[verifier::rlimit(100)]
    #[verifier::spinoff_prover]
    fn synchronize(&mut self)
        requires
            old(self).wf(),
            old(self).current >= 1 || old(self).toks()[old(self).current as int].kind
                != TokenType::Eof,
        ensures
            final(self).wf(),
            final(self).tokens == old(self).tokens,
            final(self).current as nat == p_sync(old(self).toks(), old(self).current as nat),
            old(self).current <= final(self).current,
            old(self).toks()[old(self).current as int].kind != TokenType::Eof ==> old(self).current < final(self).current,
    {
        let ghost tv = self.toks();
        let ghost pos0 = self.current as nat;
        self.advance();
        while !self.is_at_end()
            invariant
                self.wf(),
                self.tokens == old(self).tokens,
                tv == self.toks(),
                tv == old(self).toks(),
                pos0 == old(self).current,
                1 <= self.current,
                pos0 <= self.current,
                p_sync(tv, pos0) == p_sync_loop(tv, self.current as nat),
                tv[pos0 as int].kind != TokenType::Eof ==> pos0 < self.current,
            decreases self.toks().len() - self.current,
        {
            if self.tokens[self.current - 1].token_type == TokenType::Semicolon {
                return;
            }
            let k = self.tokens[self.current].token_type;
            if k == TokenType::Class || k == TokenType::Fun || k == TokenType::Var || k
                == TokenType::For || k == TokenType::If || k == TokenType::While || k
                == TokenType::Print || k == TokenType::Return {
                return;
            }
            self.advance();
        }
    }

    /// `primary := NUMBER | STRING | "true" | "false" | "nil" | "(" expression ")" | Identifier`.
    #[verifier::rlimit(100)]
    #[verifier::spinoff_prover]
    fn primary(&mut self) -> (r: Result<Expr, ParseError>)
        requires
            old(self).wf(),
        ensures
            final(self).wf(),
            final(self).tokens == old(self).tokens,
            old(self).current <= final(self).current,
            (r matches Ok(e) ==> expr_wf(expr_view(e))),
            ({
                let o = p_primary(old(self).toks(), old(self).current as nat);
                &&& final(self).current as nat == o.next
                &&& (match r {
                    Ok(e) => o.res == Ok::<ExprM, ParseErrModel>(expr_view(e)),
                    Err(pe) => o.res == Err::<ExprM, ParseErrModel>(pe@),
                })
            }),
        decreases self.tokens@.len() - self.current, 1int,
    {
        let token = self.peek();
        match token.token_type {
            TokenType::LeftParen => {
                self.advance();
                let expr = match self.expression() {
                    Ok(e) => e,
                    Err(e) => {
                        return Err(e);
                    },
                };
                match self.consume(TokenType::RightParen, "Expect ')' after expression.") {
                    Ok(_) => Ok(Expr::Grouping { expression: Box::new(expr) }),
                    Err(e) => Err(e),
                }
            },
            TokenType::False => {
                self.advance();
                Ok(Expr::Literal { value: LiteralValue::from_token(token) })
            },
            TokenType::True => {
                self.advance();
                Ok(Expr::Literal { value: LiteralValue::from_token(token) })
            },
            TokenType::Nil => {
                self.advance();
                Ok(Expr::Literal { value: LiteralValue::from_token(token) })
            },
            TokenType::Number => {
                self.advance();
                Ok(Expr::Literal { value: LiteralValue::from_token(token) })
            },
            TokenType::StringLit => {
                self.advance();
                Ok(Expr::Literal { value: LiteralValue::from_token(token) })
            },
            TokenType::Identifier => {
                self.advance();
                Ok(Expr::Variable { name: token })
            },
            _ => Err(ParseError::ExpectedExpression { line: token.line_number }),
        }
    }

    /// `unary := ("!" | "-") unary | primary`.
    fn unary(&mut self) -> (r: Result<Expr, ParseError>)
        requires
            old(self).wf(),
        ensures
            final(self).wf(),
            final(self).tokens == old(self).tokens,
            old(self).current <= final(self).current,
            (r matches Ok(e) ==> expr_wf(expr_view(e))),
            ({
                let o = p_unary(old(self).toks(), old(self).current as nat);
                &&& final(self).current as nat == o.next
                &&& (match r {
                    Ok(e) => o.res == Ok::<ExprM, ParseErrModel>(expr_view(e)),
                    Err(pe) => o.res == Err::<ExprM, ParseErrModel>(pe@),
                })
            }),
        decreases self.tokens@.len() - self.current, 2int,
    {
        let matched = self.match_token(TokenType::Bang) || self.match_token(TokenType::Minus);
        if matched {
            let operator = self.previous();
            let rhs = match self.unary() {
                Ok(e) => e,
                Err(e) => {
                    return Err(e);
                },
            };
            Ok(Expr::Unary { operator, right: Box::new(rhs) })
        } else {
            self.primary()
        }
    }

    /// `factor := unary (("/" | "*") unary)*`, left-associative.
    #[verifier::rlimit(100)]
    #[verifier::spinoff_prover]
    fn factor(&mut self) -> (r: Result<Expr, ParseError>)
        requires
            old(self).wf(),
        ensures
            final(self).wf(),
            final(self).tokens == old(self).tokens,
            old(self).current <= final(self).current,
            (r matches Ok(e) ==> expr_wf(expr_view(e))),
            ({
                let o = p_factor(old(self).toks(), old(self).current as nat);
                &&& final(self).current as nat == o.next
                &&& (match r {
                    Ok(e) => o.res == Ok::<ExprM, ParseErrModel>(expr_view(e)),
                    Err(pe) => o.res == Err::<ExprM, ParseErrModel>(pe@),
                })
            }),
        decreases self.tokens@.len() - self.current, 4int,
    {
        let ghost tv = self.toks();
        let ghost pos0 = self.current as nat;
        let ghost o = p_factor(tv, pos0);
        let mut expr = match self.unary() {
            Ok(e) => e,
            Err(e) => {
                return Err(e);
            },
        };
        proof {
            assert(o == p_factor_rest(tv, expr_view(expr), self.current as nat));
        }
        loop
            invariant
                self.wf(),
                self.tokens == old(self).tokens,
                tv == self.toks(),
                tv == old(self).toks(),
                pos0 == old(self).current,
                o == p_factor(tv, pos0),
                pos0 <= self.current,
                expr_wf(expr_view(expr)),
                o == p_factor_rest(tv, expr_view(expr), self.current as nat),
            ensures
                self.wf(),
                self.tokens == old(self).tokens,
                o == (PExpr { res: Ok(expr_view(expr)), next: self.current as nat }),
                expr_wf(expr_view(expr)),
                pos0 <= self.current,
            decreases self.toks().len() - self.current,
        {
            let matched = self.match_token(TokenType::Slash) || self.match_token(
                TokenType::Star,
            );
            if !matched {
                break ;
            }
            let operator = self.previous();
            let rhs = match self.unary() {
                Ok(e) => e,
                Err(e) => {
                    return Err(e);
                },
            };
            expr = Expr::Binary { left: Box::new(expr), operator, right: Box::new(rhs) };
        }
        Ok(expr)
    }

    /// `term := factor (("-" | "+") factor)*`, left-associative.
    #[verifier::rlimit(100)]
    #[verifier::spinoff_prover]
    fn term(&mut self) -> (r: Result<Expr, ParseError>)
        requires
            old(self).wf(),
        ensures
            final(self).wf(),
            final(self).tokens == old(self).tokens,
            old(self).current <= final(self).current,
            (r matches Ok(e) ==> expr_wf(expr_view(e))),
            ({
                let o = p_term(old(self).toks(), old(self).current as nat);
                &&& final(self).current as nat == o.next
                &&& (match r {
                    Ok(e) => o.res == Ok::<ExprM, ParseErrModel>(expr_view(e)),
                    Err(pe) => o.res == Err::<ExprM, ParseErrModel>(pe@),
                })
            }),
        decreases self.tokens@.len() - self.current, 6int,
    {
        let ghost tv = self.toks();
        let ghost pos0 = self.current as nat;
        let ghost o = p_term(tv, pos0);
        let mut expr = match self.factor() {
            Ok(e) => e,
            Err(e) => {
                return Err(e);
            },
        };
        proof {
            assert(o == p_term_rest(tv, expr_view(expr), self.current as nat));
        }
        loop
            invariant
                self.wf(),
                self.tokens == old(self).tokens,
                tv == self.toks(),
                tv == old(self).toks(),
                pos0 == old(self).current,
                o == p_term(tv, pos0),
                pos0 <= self.current,
                expr_wf(expr_view(expr)),
                o == p_term_rest(tv, expr_view(expr), self.current as nat),
            ensures
                self.wf(),
                self.tokens == old(self).tokens,
                o == (PExpr { res: Ok(expr_view(expr)), next: self.current as nat }),
                expr_wf(expr_view(expr)),
                pos0 <= self.current,
            decreases self.toks().len() - self.current,
        {
            let matched = self.match_token(TokenType::Minus) || self.match_token(
                TokenType::Plus,
            );
            if !matched {
                break ;
            }
            let operator = self.previous();
            let rhs = match self.factor() {
                Ok(e) => e,
                Err(e) => {
                    return Err(e);
                },
            };
            expr = Expr::Binary { left: Box::new(expr), operator, right: Box::new(rhs) };
        }
        Ok(expr)
    }

    /// `comparison := term ((">" | ">=" | "<" | "<=") term)*`, left-associative.
    #[verifier::rlimit(100)]
    #[verifier::spinoff_prover]
    fn comparison(&mut self) -> (r: Result<Expr, ParseError>)
        requires
            old(self).wf(),
        ensures
            final(self).wf(),
            final(self).tokens == old(self).tokens,
            old(self).current <= final(self).current,
            (r matches Ok(e) ==> expr_wf(expr_view(e))),
            ({
                let o = p_comparison(old(self).toks(), old(self).current as nat);
                &&& final(self).current as nat == o.next
                &&& (match r {
                    Ok(e) => o.res == Ok::<ExprM, ParseErrModel>(expr_view(e)),
                    Err(pe) => o.res == Err::<ExprM, ParseErrModel>(pe@),
                })
            }),
        decreases self.tokens@.len() - self.current, 8int,
    {
        let ghost tv = self.toks();
        let ghost pos0 = self.current as nat;
        let ghost o = p_comparison(tv, pos0);
        let mut expr = match self.term() {
            Ok(e) => e,
            Err(e) => {
                return Err(e);
            },
        };
        proof {
            assert(o == p_comparison_rest(tv, expr_view(expr), self.current as nat));
        }
        loop
            invariant
                self.wf(),
                self.tokens == old(self).tokens,
                tv == self.toks(),
                tv == old(self).toks(),
                pos0 == old(self).current,
                o == p_comparison(tv, pos0),
                pos0 <= self.current,
                expr_wf(expr_view(expr)),
                o == p_comparison_rest(tv, expr_view(expr), self.current as nat),
            ensures
                self.wf(),
                self.tokens == old(self).tokens,
                o == (PExpr { res: Ok(expr_view(expr)), next: self.current as nat }),
                expr_wf(expr_view(expr)),
                pos0 <= self.current,
            decreases self.toks().len() - self.current,
        {
            let matched = self.match_token(TokenType::Greater) || self.match_token(
                TokenType::GreaterEqual,
            ) || self.match_token(TokenType::Less) || self.match_token(TokenType::LessEqual);
            if !matched {
                break ;
            }
            let operator = self.previous();
            let rhs = match self.term() {
                Ok(e) => e,
                Err(e) => {
                    return Err(e);
                },
            };
            expr = Expr::Binary { left: Box::new(expr), operator, right: Box::new(rhs) };
        }
        Ok(expr)
    }

    /// `equality := comparison (("!=" | "==") comparison)*`, left-associative.
    #[verifier::rlimit(100)]
    #[verifier::spinoff_prover]
    fn equality(&mut self) -> (r: Result<Expr, ParseError>)
        requires
            old(self).wf(),
        ensures
            final(self).wf(),
            final(self).tokens == old(self).tokens,
            old(self).current <= final(self).current,
            (r matches Ok(e) ==> expr_wf(expr_view(e))),
            ({
                let o = p_equality(old(self).toks(), old(self).current as nat);
                &&& final(self).current as nat == o.next
                &&& (match r {
                    Ok(e) => o.res == Ok::<ExprM, ParseErrModel>(expr_view(e)),
                    Err(pe) => o.res == Err::<ExprM, ParseErrModel>(pe@),
                })
            }),
        decreases self.tokens@.len() - self.current, 10int,
    {
        let ghost tv = self.toks();
        let ghost pos0 = self.current as nat;
        let ghost o = p_equality(tv, pos0);
        let mut expr = match self.comparison() {
            Ok(e) => e,
            Err(e) => {
                return Err(e);
            },
        };
        proof {
            assert(o == p_equality_rest(tv, expr_view(expr), self.current as nat));
        }
        loop
            invariant
                self.wf(),
                self.tokens == old(self).tokens,
                tv == self.toks(),
                tv == old(self).toks(),
                pos0 == old(self).current,
                o == p_equality(tv, pos0),
                pos0 <= self.current,
                expr_wf(expr_view(expr)),
                o == p_equality_rest(tv, expr_view(expr), self.current as nat),
            ensures
                self.wf(),
                self.tokens == old(self).tokens,
                o == (PExpr { res: Ok(expr_view(expr)), next: self.current as nat }),
                expr_wf(expr_view(expr)),
                pos0 <= self.current,
            decreases self.toks().len() - self.current,
        {
            let matched = self.match_token(TokenType::BangEqual) || self.match_token(
                TokenType::EqualEqual,
            );
            if !matched {
                break ;
            }
            let operator = self.previous();
            let rhs = match self.comparison() {
                Ok(e) => e,
                Err(e) => {
                    return Err(e);
                },
            };
            expr = Expr::Binary { left: Box::new(expr), operator, right: Box::new(rhs) };
        }
        Ok(expr)
    }

    /// `assignment := Identifier "=" assignment | equality`; the target
    /// must have parsed as a variable.
    #[verifier::rlimit(100)]
    #[verifier::spinoff_prover]
    fn assignment(&mut self) -> (r: Result<Expr, ParseError>)
        requires
            old(self).wf(),
        ensures
            final(self).wf(),
            final(self).tokens == old(self).tokens,
            old(self).current <= final(self).current,
            (r matches Ok(e) ==> expr_wf(expr_view(e))),
            ({
                let o = p_assignment(old(self).toks(), old(self).current as nat);
                &&& final(self).current as nat == o.next
                &&& (match r {
                    Ok(e) => o.res == Ok::<ExprM, ParseErrModel>(expr_view(e)),
                    Err(pe) => o.res == Err::<ExprM, ParseErrModel>(pe@),
                })
            }),
        decreases self.tokens@.len() - self.current, 11int,
    {
        let expr = match self.equality() {
            Ok(e) => e,
            Err(e) => {
                return Err(e);
            },
        };
        if self.match_token(TokenType::Equal) {
            let equals = self.previous();
            let value = match self.assignment() {
                Ok(v) => v,
                Err(e) => {
                    return Err(e);
                },
            };
            match expr {
                Expr::Variable { name } => Ok(Expr::Assign { name, value: Box::new(value) }),
                _ => Err(ParseError::InvalidAssignmentTarget { line: equals.line_number }),
            }
        } else {
            Ok(expr)
        }
    }

    /// `expression := assignment`.
    pub fn expression(&mut self) -> (r: Result<Expr, ParseError>)
        requires
            old(self).wf(),
        ensures
            final(self).wf(),
            final(self).tokens == old(self).tokens,
            old(self).current <= final(self).current,
            (r matches Ok(e) ==> expr_wf(expr_view(e))),
            ({
                let o = p_expression(old(self).toks(), old(self).current as nat);
                &&& final(self).current as nat == o.next
                &&& (match r {
                    Ok(e) => o.res == Ok::<ExprM, ParseErrModel>(expr_view(e)),
                    Err(pe) => o.res == Err::<ExprM, ParseErrModel>(pe@),
                })
            }),
        decreases self.tokens@.len() - self.current, 12int,
    {
        let result = self.assignment();
        proof {
            reveal_with_fuel(p_expression, 2);
            assert(p_expression(old(self).toks(), old(self).current as nat) == p_assignment(
                old(self).toks(),
                old(self).current as nat,
            ));
        }
        result
    }

    /// `print expression ;` after the `print` keyword.
    fn print_statement(&mut self) -> (r: Result<Stmt, ParseError>)
        requires
            old(self).wf(),
        ensures
            final(self).wf(),
            final(self).tokens == old(self).tokens,
            old(self).current <= final(self).current,
            r is Ok ==> old(self).current < final(self).current,
            (r matches Ok(s) ==> stmt_wf(stmt_view(s))),
            ({
                let o = p_print_statement(old(self).toks(), old(self).current as nat);
                &&& final(self).current as nat == o.next
                &&& (match r {
                    Ok(s) => o.res == Ok::<StmtM, ParseErrModel>(stmt_view(s)),
                    Err(pe) => o.res == Err::<StmtM, ParseErrModel>(pe@),
                })
            }),
    {
        let expr = match self.expression() {
            Ok(e) => e,
            Err(e) => {
                return Err(e);
            },
        };
        match self.consume(TokenType::Semicolon, "Expect ';' after value.") {
            Ok(_) => Ok(Stmt::Print { expression: expr }),
            Err(e) => Err(e),
        }
    }

    /// `expression ;`.
    fn expression_statement(&mut self) -> (r: Result<Stmt, ParseError>)
        requires
            old(self).wf(),
        ensures
            final(self).wf(),
            final(self).tokens == old(self).tokens,
            old(self).current <= final(self).current,
            r is Ok ==> old(self).current < final(self).current,
            (r matches Ok(s) ==> stmt_wf(stmt_view(s))),
            ({
                let o = p_expression_statement(old(self).toks(), old(self).current as nat);
                &&& final(self).current as nat == o.next
                &&& (match r {
                    Ok(s) => o.res == Ok::<StmtM, ParseErrModel>(stmt_view(s)),
                    Err(pe) => o.res == Err::<StmtM, ParseErrModel>(pe@),
                })
            }),
    {
        let expr = match self.expression() {
            Ok(e) => e,
            Err(e) => {
                return Err(e);
            },
        };
        match self.consume(TokenType::Semicolon, "Expect ';' after expression.") {
            Ok(_) => Ok(Stmt::Expression { expression: expr }),
            Err(e) => Err(e),
        }
    }

    /// `statement := "print" expression ";" | expression ";"`.
    fn statement(&mut self) -> (r: Result<Stmt, ParseError>)
        requires
            old(self).wf(),
        ensures
            final(self).wf(),
            final(self).tokens == old(self).tokens,
            old(self).current <= final(self).current,
            r is Ok ==> old(self).current < final(self).current,
            (r matches Ok(s) ==> stmt_wf(stmt_view(s))),
            ({
                let o = p_statement(old(self).toks(), old(self).current as nat);
                &&& final(self).current as nat == o.next
                &&& (match r {
                    Ok(s) => o.res == Ok::<StmtM, ParseErrModel>(stmt_view(s)),
                    Err(pe) => o.res == Err::<StmtM, ParseErrModel>(pe@),
                })
            }),
    {
        if self.match_token(TokenType::Print) {
            self.print_statement()
        } else {
            self.expression_statement()
        }
    }

    /// `var Identifier ("=" expression)? ";"` after the `var` keyword; a
    /// missing initializer is the `nil` literal.
    #[verifier::rlimit(100)]
    #[verifier::spinoff_prover]
    fn var_declaration(&mut self) -> (r: Result<Stmt, ParseError>)
        requires
            old(self).wf(),
        ensures
            final(self).wf(),
            final(self).tokens == old(self).tokens,
            old(self).current <= final(self).current,
            (r matches Ok(s) ==> stmt_wf(stmt_view(s))),
            ({
                let o = p_var_declaration(old(self).toks(), old(self).current as nat);
                &&& final(self).current as nat == o.next
                &&& (match r {
                    Ok(s) => o.res == Ok::<StmtM, ParseErrModel>(stmt_view(s)),
                    Err(pe) => o.res == Err::<StmtM, ParseErrModel>(pe@),
                })
            }),
    {
        let token = match self.consume(TokenType::Identifier, "Expected variable name") {
            Ok(t) => t,
            Err(e) => {
                return Err(e);
            },
        };
        let initializer: Expr;
        if self.match_token(TokenType::Equal) {
            initializer = match self.expression() {
                Ok(e) => e,
                Err(e) => {
                    return Err(e);
                },
            };
        } else {
            initializer = Expr::Literal { value: LiteralValue::Nil };
        }
        match self.consume(TokenType::Semicolon, "Expected ';' after variable declaration") {
            Ok(_) => Ok(Stmt::Var { name: token, initializer }),
            Err(e) => Err(e),
        }
    }

    /// `declaration := "var" ... | statement`, synchronizing past any
    /// failure so later declarations still parse.
    #[verifier::rlimit(100)]
    #[verifier::spinoff_prover]
    fn declaration(&mut self) -> (r: Result<Stmt, ParseError>)
        requires
            old(self).wf(),
            old(self).toks()[old(self).current as int].kind != TokenType::Eof,
        ensures
            final(self).wf(),
            final(self).tokens == old(self).tokens,
            old(self).current < final(self).current,
            (r matches Ok(s) ==> stmt_wf(stmt_view(s))),
            ({
                let o = p_declaration(old(self).toks(), old(self).current as nat);
                &&& final(self).current as nat == o.next
                &&& (match r {
                    Ok(s) => o.res == Ok::<StmtM, ParseErrModel>(stmt_view(s)),
                    Err(pe) => o.res == Err::<StmtM, ParseErrModel>(pe@),
                })
            }),
    {
        if self.match_token(TokenType::Var) {
            match self.var_declaration() {
                Ok(stmt) => Ok(stmt),
                Err(e) => {
                    self.synchronize();
                    Err(e)
                },
            }
        } else {
            match self.statement() {
                Ok(stmt) => Ok(stmt),
                Err(e) => {
                    self.synchronize();
                    Err(e)
                },
            }
        }
    }

    /// Parses the whole program: the statements when no syntax error
    /// occurred, else the non-empty list of every error found, with the
    /// parser synchronized past each; `parse_spec` gives both exactly.
    pub fn parse(&mut self) -> (r: Result<Vec<Stmt>, Vec<ParseError>>)
        requires
            old(self).wf(),
            old(self).current == 0,
        ensures
            final(self).wf(),
            final(self).tokens == old(self).tokens,
            (r matches Ok(stmts) ==> forall|k: int|
                0 <= k < stmts@.len() ==> stmt_wf(stmt_view(#[trigger] stmts@[k]))),
            ({
                let pm = parse_spec(old(self).toks());
                match r {
                    Ok(stmts) => stmt_views(stmts@) =~= pm.stmts && pm.errs.len() == 0,
                    Err(errs) => perr_views(errs@) =~= pm.errs && pm.errs.len() > 0,
                }
            }),
    {
        let ghost tv = self.toks();
        let ghost pm = p_program(tv, 0);
        let mut stmts: Vec<Stmt> = Vec::new();
        let mut errors: Vec<ParseError> = Vec::new();
        proof {
            assert(stmt_views(stmts@) =~= Seq::<StmtM>::empty());
            assert(perr_views(errors@) =~= Seq::<ParseErrModel>::empty());
        }
        while !self.is_at_end()
            invariant
                self.wf(),
                self.tokens == old(self).tokens,
                tv == self.toks(),
                pm == p_program(tv, 0),
                pm.stmts =~= stmt_views(stmts@) + p_program(tv, self.current as nat).stmts,
                pm.errs =~= perr_views(errors@) + p_program(tv, self.current as nat).errs,
                forall|k: int| 0 <= k < stmts@.len() ==> stmt_wf(stmt_view(#[trigger] stmts@[k])),
            decreases self.toks().len() - self.current,
        {
            let ghost cur0 = self.current as nat;
            let ghost ostmts = stmts@;
            let ghost oerrs = errors@;
            let ghost d = p_declaration(tv, cur0);
            match self.declaration() {
                Ok(s) => {
                    proof {
                        assert(cur0 < d.next <= tv.len());
                        assert(p_program(tv, cur0).stmts == seq![stmt_view(s)] + p_program(
                            tv,
                            d.next,
                        ).stmts);
                        assert(p_program(tv, cur0).errs == p_program(tv, d.next).errs);
                    }
                    stmts.push(s);
                    proof {
                        assert(stmt_views(stmts@) =~= stmt_views(ostmts).push(stmt_view(s)));
                        assert(stmt_views(ostmts) + (seq![stmt_view(s)] + p_program(
                            tv,
                            self.current as nat,
                        ).stmts) =~= stmt_views(stmts@) + p_program(
                            tv,
                            self.current as nat,
                        ).stmts);
                    }
                },
                Err(e) => {
                    proof {
                        assert(cur0 < d.next <= tv.len());
                        assert(p_program(tv, cur0).errs == seq![e@] + p_program(
                            tv,
                            d.next,
                        ).errs);
                        assert(p_program(tv, cur0).stmts == p_program(tv, d.next).stmts);
                    }
                    errors.push(e);
                    proof {
                        assert(perr_views(errors@) =~= perr_views(oerrs).push(e@));
                        assert(perr_views(oerrs) + (seq![e@] + p_program(
                            tv,
                            self.current as nat,
                        ).errs) =~= perr_views(errors@) + p_program(
                            tv,
                            self.current as nat,
                        ).errs);
                    }
                },
            }
        }
        proof {
            assert(p_program(tv, self.current as nat).stmts =~= Seq::<StmtM>::empty());
            assert(p_program(tv, self.current as nat).errs =~= Seq::<ParseErrModel>::empty());
        }
        if errors.len() > 0 {
            Err(errors)
        } else {
            Ok(stmts)
        }
    }
}

} // verus!

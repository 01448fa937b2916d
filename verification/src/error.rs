//! Runtime errors and the aggregate error report of one run. Scanning
//! and parsing aggregate their own error lists; evaluation fails fast on
//! the first runtime error.

use vstd::prelude::*;

use crate::num::{dec_digits, push_dec};
use crate::parser::{ParseErrModel, ParseError};
use crate::scanner::{ScanErrModel, ScanError};

verus! {

/// The runtime type of a value, as named in type-mismatch errors.
#[derive(Debug, Clone, Copy, PartialEq, Eq, Structural)]
pub enum ValueKind {
    NumberKind,
    StringKind,
    BooleanKind,
    NilKind,
}

/// A runtime error: evaluation stops at the first of these.
#[derive(Debug)]
pub enum RuntimeError {
    /// A binary operator applied to an unsupported pair of operand types.
    TypeMismatch { op: String, left: ValueKind, right: ValueKind },
    /// A unary operator applied to an unsupported operand type.
    TypeMismatchUnary { op: String, operand: ValueKind },
    /// A variable read or assigned before any declaration.
    UndefinedVariable { name: String },
}

/// The mathematical image of a runtime error.
pub ghost enum RuntimeErrModel {
    TypeMismatch { op: Seq<char>, left: ValueKind, right: ValueKind },
    TypeMismatchUnary { op: Seq<char>, operand: ValueKind },
    UndefinedVariable { name: Seq<char> },
}

impl View for RuntimeError {
    type V = RuntimeErrModel;

    open spec fn view(&self) -> RuntimeErrModel {
        match self {
            RuntimeError::TypeMismatch { op, left, right } => RuntimeErrModel::TypeMismatch {
                op: op@,
                left: *left,
                right: *right,
            },
            RuntimeError::TypeMismatchUnary { op, operand } => RuntimeErrModel::TypeMismatchUnary {
                op: op@,
                operand: *operand,
            },
            RuntimeError::UndefinedVariable { name } => RuntimeErrModel::UndefinedVariable {
                name: name@,
            },
        }
    }
}

/// Everything one run can fail with: the scanner's error list, the
/// parser's error list, or the first runtime error.
#[derive(Debug)]
pub enum ErrorReport {
    ScanErrors(Vec<ScanError>),
    ParseErrors(Vec<ParseError>),
    Runtime(RuntimeError),
}

// ---------------------------------------------------------------------------
// Message rendering.
// ---------------------------------------------------------------------------
/// The lowercase name of a value kind.
pub open spec fn kind_text(k: ValueKind) -> Seq<char> {
    match k {
        ValueKind::NumberKind => "number"@,
        ValueKind::StringKind => "string"@,
        ValueKind::BooleanKind => "boolean"@,
        ValueKind::NilKind => "nil"@,
    }
}

/// The message of one lexical error.
pub open spec fn scan_error_text(e: ScanErrModel) -> Seq<char> {
    match e {
        ScanErrModel::Unexpected { text, line } => "Unexpected character at line "@ + dec_digits(
            line,
        ) + ": "@ + text,
        ScanErrModel::Unterminated { line } => "Unterminated string at line "@ + dec_digits(line),
        ScanErrModel::BadNumber { lexeme, line } => "Could not parse number at line "@
            + dec_digits(line) + ": "@ + lexeme,
    }
}

/// The message of one syntax error.
pub open spec fn parse_error_text(e: ParseErrModel) -> Seq<char> {
    match e {
        ParseErrModel::ExpectedExpression { line } => "Expected expression at line "@ + dec_digits(
            line,
        ),
        ParseErrModel::InvalidAssignmentTarget { line } => "Invalid assignment target at line "@
            + dec_digits(line),
        ParseErrModel::Missing { what, line } => what + " at line "@ + dec_digits(line),
    }
}

/// The message of one runtime error.
pub open spec fn runtime_error_text(e: RuntimeErrModel) -> Seq<char> {
    match e {
        RuntimeErrModel::TypeMismatch { op, left, right } => "'"@ + op
            + "' can not operate on "@ + kind_text(left) + " and "@ + kind_text(right),
        RuntimeErrModel::TypeMismatchUnary { op, operand } => "'"@ + op
            + "' can not operate on "@ + kind_text(operand),
        RuntimeErrModel::UndefinedVariable { name } => "Undefined variable: "@ + name,
    }
}

/// The aggregate text of a scan-error list: one message per line, each
/// followed by a newline.
pub open spec fn scan_report_text(es: Seq<ScanErrModel>) -> Seq<char>
    decreases es.len(),
{
    if es.len() == 0 {
        Seq::empty()
    } else {
        scan_report_text(es.drop_last()) + scan_error_text(es.last()) + seq!['\n']
    }
}

/// The aggregate text of a parse-error list: the messages joined by
/// newlines.
pub open spec fn parse_report_text(es: Seq<ParseErrModel>) -> Seq<char>
    decreases es.len(),
{
    if es.len() == 0 {
        Seq::empty()
    } else if es.len() == 1 {
        parse_error_text(es.last())
    } else {
        parse_report_text(es.drop_last()) + seq!['\n'] + parse_error_text(es.last())
    }
}

/// The whole report's text.
pub open spec fn report_text(r: ErrorReport) -> Seq<char> {
    match r {
        ErrorReport::ScanErrors(es) => scan_report_text(crate::scanner::err_views(es@)),
        ErrorReport::ParseErrors(es) => parse_report_text(crate::parser::perr_views(es@)),
        ErrorReport::Runtime(e) => runtime_error_text(e@),
    }
}

/// Appends the decimal text of a line number.
fn push_line(s: &mut String, line: usize)
    ensures
        final(s)@ == old(s)@ + dec_digits(line as nat),
{
    push_dec(s, line as u128);
}

impl ScanError {
    /// This error's message.
    pub fn message(&self) -> (r: String)
        ensures
            r@ == scan_error_text(self@),
    {
        match self {
            ScanError::UnexpectedCharacter { text, line } => {
                let mut s = String::from_str("Unexpected character at line ");
                push_line(&mut s, *line);
                s.append(": ");
                s.append(text.as_str());
                proof {
                    assert(s@ =~= scan_error_text(self@));
                }
                s
            },
            ScanError::UnterminatedString { line } => {
                let mut s = String::from_str("Unterminated string at line ");
                push_line(&mut s, *line);
                proof {
                    assert(s@ =~= scan_error_text(self@));
                }
                s
            },
            ScanError::NumberFormat { lexeme, line } => {
                let mut s = String::from_str("Could not parse number at line ");
                push_line(&mut s, *line);
                s.append(": ");
                s.append(lexeme.as_str());
                proof {
                    assert(s@ =~= scan_error_text(self@));
                }
                s
            },
        }
    }
}

impl ParseError {
    /// This error's message.
    pub fn message(&self) -> (r: String)
        ensures
            r@ == parse_error_text(self@),
    {
        match self {
            ParseError::ExpectedExpression { line } => {
                let mut s = String::from_str("Expected expression at line ");
                push_line(&mut s, *line);
                proof {
                    assert(s@ =~= parse_error_text(self@));
                }
                s
            },
            ParseError::InvalidAssignmentTarget { line } => {
                let mut s = String::from_str("Invalid assignment target at line ");
                push_line(&mut s, *line);
                proof {
                    assert(s@ =~= parse_error_text(self@));
                }
                s
            },
            ParseError::Missing { what, line } => {
                let mut s = what.clone();
                s.append(" at line ");
                push_line(&mut s, *line);
                proof {
                    assert(s@ =~= parse_error_text(self@));
                }
                s
            },
        }
    }
}

/// The lowercase name of a value kind.
fn kind_name(k: ValueKind) -> (r: &'static str)
    ensures
        r@ == kind_text(k),
{
    match k {
        ValueKind::NumberKind => "number",
        ValueKind::StringKind => "string",
        ValueKind::BooleanKind => "boolean",
        ValueKind::NilKind => "nil",
    }
}

impl RuntimeError {
    /// This error's message.
    pub fn message(&self) -> (r: String)
        ensures
            r@ == runtime_error_text(self@),
    {
        match self {
            RuntimeError::TypeMismatch { op, left, right } => {
                let mut s = String::from_str("'");
                s.append(op.as_str());
                s.append("' can not operate on ");
                s.append(kind_name(*left));
                s.append(" and ");
                s.append(kind_name(*right));
                proof {
                    assert(s@ =~= runtime_error_text(self@));
                }
                s
            },
            RuntimeError::TypeMismatchUnary { op, operand } => {
                let mut s = String::from_str("'");
                s.append(op.as_str());
                s.append("' can not operate on ");
                s.append(kind_name(*operand));
                proof {
                    assert(s@ =~= runtime_error_text(self@));
                }
                s
            },
            RuntimeError::UndefinedVariable { name } => {
                let mut s = String::from_str("Undefined variable: ");
                s.append(name.as_str());
                proof {
                    assert(s@ =~= runtime_error_text(self@));
                }
                s
            },
        }
    }
}

impl ErrorReport {
    /// The whole report's message: scan errors one per line, parse
    /// errors joined by newlines, or the runtime error's message.
    pub fn message(&self) -> (r: String)
        ensures
            r@ == report_text(*self),
    {
        match self {
            ErrorReport::ScanErrors(es) => {
                let mut s = String::new();
                let mut i: usize = 0;
                proof {
                    assert(crate::scanner::err_views(es@).take(0) =~= Seq::<
                        crate::scanner::ScanErrModel,
                    >::empty());
                }
                while i < es.len()
                    invariant
                        i <= es@.len(),
                        s@ == scan_report_text(crate::scanner::err_views(es@).take(i as int)),
                    decreases es@.len() - i,
                {
                    let m = es[i].message();
                    s.append(m.as_str());
                    s.append("\n");
                    proof {
                        reveal_strlit("\n");
                        let evs = crate::scanner::err_views(es@);
                        assert(evs.take(i + 1).drop_last() =~= evs.take(i as int));
                        assert(evs.take(i + 1).last() == es@[i as int]@);
                        assert(s@ =~= scan_report_text(evs.take(i + 1)));
                    }
                    i = i + 1;
                }
                proof {
                    assert(crate::scanner::err_views(es@).take(es@.len() as int) =~= crate::scanner::err_views(es@));
                }
                s
            },
            ErrorReport::ParseErrors(es) => {
                let mut s = String::new();
                let mut i: usize = 0;
                proof {
                    assert(crate::parser::perr_views(es@).take(0) =~= Seq::<
                        crate::parser::ParseErrModel,
                    >::empty());
                }
                while i < es.len()
                    invariant
                        i <= es@.len(),
                        s@ == parse_report_text(crate::parser::perr_views(es@).take(i as int)),
                    decreases es@.len() - i,
                {
                    if i > 0 {
                        s.append("\n");
                        proof {
                            reveal_strlit("\n");
                        }
                    }
                    let m = es[i].message();
                    s.append(m.as_str());
                    proof {
                        let evs = crate::parser::perr_views(es@);
                        assert(evs.take(i + 1).drop_last() =~= evs.take(i as int));
                        assert(evs.take(i + 1).last() == es@[i as int]@);
                        assert(s@ =~= parse_report_text(evs.take(i + 1)));
                    }
                    i = i + 1;
                }
                proof {
                    assert(crate::parser::perr_views(es@).take(es@.len() as int) =~= crate::parser::perr_views(es@));
                }
                s
            },
            ErrorReport::Runtime(e) => e.message(),
        }
    }
}

} // verus!

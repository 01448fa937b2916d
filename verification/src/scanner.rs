//! The lexical scanner: one left-to-right pass over the source text with
//! one or two characters of lookahead, producing the token sequence that
//! the parser consumes. The specification functions `scan_step` and
//! `scan_from` define the scan mathematically over the source's character
//! sequence; `Scanner::scan_tokens` is proved to produce exactly that
//! token and error sequence, ending in a single `Eof` token.

use vstd::prelude::*;

use crate::num::{pow10, INT_LIMIT, MAG_MAX, SCALE};

verus! {

/// The kind of one lexical token.
#[derive(Debug, Clone, Copy, PartialEq, Eq, Structural)]
pub enum TokenType {
    // Single-character tokens.
    LeftParen,
    RightParen,
    LeftBrace,
    RightBrace,
    Comma,
    Dot,
    Minus,
    Plus,
    Semicolon,
    Slash,
    Star,
    // One- or two-character operators.
    Bang,
    BangEqual,
    Equal,
    EqualEqual,
    Greater,
    GreaterEqual,
    Less,
    LessEqual,
    // Literals.
    Identifier,
    StringLit,
    Number,
    // Keywords.
    And,
    Class,
    Else,
    False,
    Fun,
    For,
    If,
    Nil,
    Or,
    Print,
    Return,
    Super,
    This,
    True,
    Var,
    While,
    Eof,
}

/// The raw payload a token carries out of the scanner: a number literal's
/// fixed-point magnitude, or the text of a string literal or identifier.
#[derive(Debug)]
pub enum LiteralValue {
    NumberValue { mag: u128 },
    StringValue(String),
    IdentifierValue(String),
}

/// One lexical token: its kind, the exact source text it was scanned
/// from, an optional literal payload, and the line it ends on.
#[derive(Debug)]
pub struct Token {
    pub token_type: TokenType,
    pub lexeme: String,
    pub literal: Option<LiteralValue>,
    pub line_number: usize,
}

/// The mathematical image of a literal payload.
pub ghost enum LitModel {
    Num(nat),
    Str(Seq<char>),
    Ident(Seq<char>),
}

/// The mathematical image of a token.
pub ghost struct TokenModel {
    pub kind: TokenType,
    pub lexeme: Seq<char>,
    pub lit: Option<LitModel>,
    pub line: nat,
}

/// The mathematical image of an optional literal payload.
pub open spec fn lit_view(l: Option<LiteralValue>) -> Option<LitModel> {
    match l {
        None => None,
        Some(LiteralValue::NumberValue { mag }) => Some(LitModel::Num(mag as nat)),
        Some(LiteralValue::StringValue(s)) => Some(LitModel::Str(s@)),
        Some(LiteralValue::IdentifierValue(s)) => Some(LitModel::Ident(s@)),
    }
}

impl View for Token {
    type V = TokenModel;

    open spec fn view(&self) -> TokenModel {
        TokenModel {
            kind: self.token_type,
            lexeme: self.lexeme@,
            lit: lit_view(self.literal),
            line: self.line_number as nat,
        }
    }
}

impl Token {
    pub fn new(
        token_type: TokenType,
        lexeme: String,
        literal: Option<LiteralValue>,
        line_number: usize,
    ) -> (r: Token)
        ensures
            r@ == (TokenModel {
                kind: token_type,
                lexeme: lexeme@,
                lit: lit_view(literal),
                line: line_number as nat,
            }),
    {
        Token { token_type, lexeme, literal, line_number }
    }
}

/// One lexical error, with the line it was found on.
#[derive(Debug)]
pub enum ScanError {
    /// A character that starts no token; `text` is that character.
    UnexpectedCharacter { text: String, line: usize },
    /// The input ended inside a string literal.
    UnterminatedString { line: usize },
    /// A number literal whose integer part exceeds the number range.
    NumberFormat { lexeme: String, line: usize },
}

/// The mathematical image of a lexical error.
pub ghost enum ScanErrModel {
    Unexpected { text: Seq<char>, line: nat },
    Unterminated { line: nat },
    BadNumber { lexeme: Seq<char>, line: nat },
}

impl View for ScanError {
    type V = ScanErrModel;

    open spec fn view(&self) -> ScanErrModel {
        match self {
            ScanError::UnexpectedCharacter { text, line } => ScanErrModel::Unexpected {
                text: text@,
                line: line as nat,
            },
            ScanError::UnterminatedString { line } => ScanErrModel::Unterminated {
                line: line as nat,
            },
            ScanError::NumberFormat { lexeme, line } => ScanErrModel::BadNumber {
                lexeme: lexeme@,
                line: line as nat,
            },
        }
    }
}

/// A token is well formed when its literal payload matches its kind: a
/// number token carries an in-range magnitude and a string token carries
/// its text.
pub open spec fn token_wf(t: TokenModel) -> bool {
    &&& t.kind == TokenType::Number ==> (t.lit matches Some(LitModel::Num(m)) && m <= MAG_MAX)
    &&& t.kind == TokenType::StringLit ==> (t.lit matches Some(LitModel::Str(_)))
}

/// The token models of a token sequence.
pub open spec fn token_views(ts: Seq<Token>) -> Seq<TokenModel> {
    Seq::new(ts.len(), |k: int| ts[k]@)
}

/// The error models of an error sequence.
pub open spec fn err_views(es: Seq<ScanError>) -> Seq<ScanErrModel> {
    Seq::new(es.len(), |k: int| es[k]@)
}

// ---------------------------------------------------------------------------
// Character classes.
// ---------------------------------------------------------------------------
/// An ASCII decimal digit.
pub open spec fn is_digit_char(c: char) -> bool {
    48 <= c as u32 && c as u32 <= 57
}

/// An ASCII letter or underscore.
pub open spec fn is_alpha_char(c: char) -> bool {
    (97 <= c as u32 && c as u32 <= 122) || (65 <= c as u32 && c as u32 <= 90) || c as u32 == 95
}

/// A letter, digit or underscore.
pub open spec fn is_alnum_char(c: char) -> bool {
    is_alpha_char(c) || is_digit_char(c)
}

/// The numeric value of a digit character.
pub open spec fn digit_val(c: char) -> nat
    recommends
        is_digit_char(c),
{
    (c as u32 - 48) as nat
}

pub fn is_digit(c: char) -> (r: bool)
    ensures
        r == is_digit_char(c),
{
    let u = c as u32;
    48 <= u && u <= 57
}

pub fn is_alpha(c: char) -> (r: bool)
    ensures
        r == is_alpha_char(c),
{
    let u = c as u32;
    (97 <= u && u <= 122) || (65 <= u && u <= 90) || u == 95
}

pub fn is_alpha_numeric(c: char) -> (r: bool)
    ensures
        r == is_alnum_char(c),
{
    is_alpha(c) || is_digit(c)
}

// ---------------------------------------------------------------------------
// Keywords.
// ---------------------------------------------------------------------------
/// The token kind of an identifier's text: a reserved word's kind, or
/// `Identifier` for any other text.
pub open spec fn keyword_kind_spec(s: Seq<char>) -> TokenType {
    if s == "and"@ {
        TokenType::And
    } else if s == "class"@ {
        TokenType::Class
    } else if s == "else"@ {
        TokenType::Else
    } else if s == "false"@ {
        TokenType::False
    } else if s == "for"@ {
        TokenType::For
    } else if s == "fun"@ {
        TokenType::Fun
    } else if s == "if"@ {
        TokenType::If
    } else if s == "nil"@ {
        TokenType::Nil
    } else if s == "or"@ {
        TokenType::Or
    } else if s == "print"@ {
        TokenType::Print
    } else if s == "return"@ {
        TokenType::Return
    } else if s == "super"@ {
        TokenType::Super
    } else if s == "this"@ {
        TokenType::This
    } else if s == "true"@ {
        TokenType::True
    } else if s == "var"@ {
        TokenType::Var
    } else if s == "while"@ {
        TokenType::While
    } else {
        TokenType::Identifier
    }
}

/// Character-by-character string equality.
pub fn str_eq(a: &str, b: &str) -> (r: bool)
    ensures
        r == (a@ == b@),
{
    let la = a.unicode_len();
    let lb = b.unicode_len();
    if la != lb {
        return false;
    }
    let mut i: usize = 0;
    while i < la
        invariant
            i <= la,
            la == a@.len(),
            la == b@.len(),
            forall|j: int| 0 <= j < i ==> a@[j] == b@[j],
        decreases la - i,
    {
        if a.get_char(i) != b.get_char(i) {
            return false;
        }
        i = i + 1;
    }
    proof {
        assert(a@ =~= b@);
    }
    true
}

/// Looks an identifier's text up in the keyword table.
pub fn keyword_kind(text: &str) -> (r: TokenType)
    ensures
        r == keyword_kind_spec(text@),
{
    if str_eq(text, "and") {
        TokenType::And
    } else if str_eq(text, "class") {
        TokenType::Class
    } else if str_eq(text, "else") {
        TokenType::Else
    } else if str_eq(text, "false") {
        TokenType::False
    } else if str_eq(text, "for") {
        TokenType::For
    } else if str_eq(text, "fun") {
        TokenType::Fun
    } else if str_eq(text, "if") {
        TokenType::If
    } else if str_eq(text, "nil") {
        TokenType::Nil
    } else if str_eq(text, "or") {
        TokenType::Or
    } else if str_eq(text, "print") {
        TokenType::Print
    } else if str_eq(text, "return") {
        TokenType::Return
    } else if str_eq(text, "super") {
        TokenType::Super
    } else if str_eq(text, "this") {
        TokenType::This
    } else if str_eq(text, "true") {
        TokenType::True
    } else if str_eq(text, "var") {
        TokenType::Var
    } else if str_eq(text, "while") {
        TokenType::While
    } else {
        TokenType::Identifier
    }
}

// ---------------------------------------------------------------------------
// Position helpers of the scan specification.
// ---------------------------------------------------------------------------
/// The first position at or after `i` that holds no digit.
pub open spec fn skip_digits(s: Seq<char>, i: nat) -> nat
    decreases s.len() - i,
{
    if i < s.len() && is_digit_char(s[i as int]) {
        skip_digits(s, i + 1)
    } else {
        i
    }
}

/// The first position at or after `i` that holds no identifier character.
pub open spec fn skip_alnum(s: Seq<char>, i: nat) -> nat
    decreases s.len() - i,
{
    if i < s.len() && is_alnum_char(s[i as int]) {
        skip_alnum(s, i + 1)
    } else {
        i
    }
}

/// The position of the next newline at or after `i`, or the end.
pub open spec fn skip_comment(s: Seq<char>, i: nat) -> nat
    decreases s.len() - i,
{
    if i < s.len() && s[i as int] != '\n' {
        skip_comment(s, i + 1)
    } else {
        i
    }
}

/// The position of the next double quote at or after `i`, or the end.
pub open spec fn find_quote(s: Seq<char>, i: nat) -> nat
    decreases s.len() - i,
{
    if i < s.len() && s[i as int] != '"' {
        find_quote(s, i + 1)
    } else {
        i
    }
}

/// The number of newline characters in `s[i..j)`.
pub open spec fn count_newlines(s: Seq<char>, i: nat, j: nat) -> nat
    decreases j - i,
{
    if j <= i {
        0
    } else {
        count_newlines(s, i, (j - 1) as nat) + if s[j - 1] == '\n' {
            1 as nat
        } else {
            0 as nat
        }
    }
}

/// The decimal value of the digit run `s[i..j)`.
pub open spec fn digits_val(s: Seq<char>, i: nat, j: nat) -> nat
    decreases j - i,
{
    if j <= i {
        0
    } else {
        digits_val(s, i, (j - 1) as nat) * 10 + digit_val(s[j - 1])
    }
}

/// The fractional digits `s[i..j)` scaled to six decimal places: digits
/// past the sixth are dropped.
pub open spec fn frac_scaled(s: Seq<char>, i: nat, j: nat) -> nat
    recommends
        i <= j,
{
    let take = if j - i > 6 {
        6 as nat
    } else {
        (j - i) as nat
    };
    digits_val(s, i, i + take) * pow10((6 - take) as nat)
}

// ---------------------------------------------------------------------------
// The scan specification itself.
// ---------------------------------------------------------------------------
/// What one scanner step produces: at most one token, at most one error,
/// the next position, and the next line number.
pub ghost struct StepModel {
    pub tok: Option<TokenModel>,
    pub err: Option<ScanErrModel>,
    pub next: nat,
    pub line: nat,
}

/// A step that emits one token spanning `s[i..j)`.
pub open spec fn step_tok(s: Seq<char>, i: nat, j: nat, line: nat, kind: TokenType) -> StepModel {
    StepModel {
        tok: Some(
            TokenModel { kind, lexeme: s.subrange(i as int, j as int), lit: None, line },
        ),
        err: None,
        next: j,
        line,
    }
}

/// A maximal-munch operator: the two-character kind when `=` follows,
/// else the bare kind.
pub open spec fn step_two(
    s: Seq<char>,
    i: nat,
    line: nat,
    two_kind: TokenType,
    one_kind: TokenType,
) -> StepModel {
    if i + 1 < s.len() && s[i as int + 1] == '=' {
        step_tok(s, i, i + 2, line, two_kind)
    } else {
        step_tok(s, i, i + 1, line, one_kind)
    }
}

/// A step that consumes through `next` without emitting anything.
pub open spec fn step_skip(next: nat, line: nat) -> StepModel {
    StepModel { tok: None, err: None, next, line }
}

/// The number-literal step starting at digit position `i`: the integer
/// digits, then a fractional part only when a digit follows the dot. An
/// integer part beyond `INT_LIMIT` is a `NumberFormat` error.
pub open spec fn scan_number(s: Seq<char>, i: nat, line: nat) -> StepModel {
    let j = skip_digits(s, i);
    let has_frac = j < s.len() && s[j as int] == '.' && j + 1 < s.len() && is_digit_char(
        s[j as int + 1],
    );
    let end = if has_frac {
        skip_digits(s, j + 1)
    } else {
        j
    };
    let iv = digits_val(s, i, j);
    if iv > INT_LIMIT {
        StepModel {
            tok: None,
            err: Some(
                ScanErrModel::BadNumber { lexeme: s.subrange(i as int, end as int), line },
            ),
            next: end,
            line,
        }
    } else {
        let fv = if has_frac {
            frac_scaled(s, j + 1, end)
        } else {
            0
        };
        StepModel {
            tok: Some(
                TokenModel {
                    kind: TokenType::Number,
                    lexeme: s.subrange(i as int, end as int),
                    lit: Some(LitModel::Num((iv * SCALE + fv) as nat)),
                    line,
                },
            ),
            err: None,
            next: end,
            line,
        }
    }
}

/// One scanner step at position `i` of `s`, on line `line`.
pub open spec fn scan_step(s: Seq<char>, i: nat, line: nat) -> StepModel
    recommends
        i < s.len(),
{
    let c = s[i as int];
    if c == '(' {
        step_tok(s, i, i + 1, line, TokenType::LeftParen)
    } else if c == ')' {
        step_tok(s, i, i + 1, line, TokenType::RightParen)
    } else if c == '{' {
        step_tok(s, i, i + 1, line, TokenType::LeftBrace)
    } else if c == '}' {
        step_tok(s, i, i + 1, line, TokenType::RightBrace)
    } else if c == ',' {
        step_tok(s, i, i + 1, line, TokenType::Comma)
    } else if c == '.' {
        step_tok(s, i, i + 1, line, TokenType::Dot)
    } else if c == '-' {
        step_tok(s, i, i + 1, line, TokenType::Minus)
    } else if c == '+' {
        step_tok(s, i, i + 1, line, TokenType::Plus)
    } else if c == ';' {
        step_tok(s, i, i + 1, line, TokenType::Semicolon)
    } else if c == '*' {
        step_tok(s, i, i + 1, line, TokenType::Star)
    } else if c == '!' {
        step_two(s, i, line, TokenType::BangEqual, TokenType::Bang)
    } else if c == '=' {
        step_two(s, i, line, TokenType::EqualEqual, TokenType::Equal)
    } else if c == '<' {
        step_two(s, i, line, TokenType::LessEqual, TokenType::Less)
    } else if c == '>' {
        step_two(s, i, line, TokenType::GreaterEqual, TokenType::Greater)
    } else if c == '/' {
        if i + 1 < s.len() && s[i as int + 1] == '/' {
            step_skip(skip_comment(s, i + 2), line)
        } else {
            step_tok(s, i, i + 1, line, TokenType::Slash)
        }
    } else if c == ' ' || c == '\r' || c == '\t' {
        step_skip(i + 1, line)
    } else if c == '\n' {
        step_skip(i + 1, line + 1)
    } else if c == '"' {
        let j = find_quote(s, i + 1);
        let nl = line + count_newlines(s, i + 1, j);
        if j >= s.len() {
            StepModel {
                tok: None,
                err: Some(ScanErrModel::Unterminated { line: nl }),
                next: s.len(),
                line: nl,
            }
        } else {
            StepModel {
                tok: Some(
                    TokenModel {
                        kind: TokenType::StringLit,
                        lexeme: s.subrange(i as int, j as int + 1),
                        lit: Some(LitModel::Str(s.subrange(i as int + 1, j as int))),
                        line: nl,
                    },
                ),
                err: None,
                next: j + 1,
                line: nl,
            }
        }
    } else if is_digit_char(c) {
        scan_number(s, i, line)
    } else if is_alpha_char(c) {
        let j = skip_alnum(s, i);
        let text = s.subrange(i as int, j as int);
        StepModel {
            tok: Some(
                TokenModel { kind: keyword_kind_spec(text), lexeme: text, lit: None, line },
            ),
            err: None,
            next: j,
            line,
        }
    } else {
        StepModel {
            tok: None,
            err: Some(
                ScanErrModel::Unexpected { text: s.subrange(i as int, i as int + 1), line },
            ),
            next: i + 1,
            line,
        }
    }
}

/// Prepends an optional element.
pub open spec fn cons_opt<T>(o: Option<T>, rest: Seq<T>) -> Seq<T> {
    match o {
        Some(x) => seq![x] + rest,
        None => rest,
    }
}

/// The tokens and errors of one whole scan.
pub ghost struct ScanModel {
    pub toks: Seq<TokenModel>,
    pub errs: Seq<ScanErrModel>,
}

/// Scans `s` from position `i` on line `line`. The fuel only serves
/// termination; any fuel larger than the remaining length gives the same
/// result, and the scan always ends with one `Eof` token carrying an
/// empty lexeme and the final line number.
pub open spec fn scan_from(s: Seq<char>, i: nat, line: nat, fuel: nat) -> ScanModel
    decreases fuel,
{
    if fuel == 0 {
        ScanModel { toks: Seq::empty(), errs: Seq::empty() }
    } else if i >= s.len() {
        ScanModel {
            toks: seq![
                TokenModel { kind: TokenType::Eof, lexeme: Seq::empty(), lit: None, line },
            ],
            errs: Seq::empty(),
        }
    } else {
        let st = scan_step(s, i, line);
        let rest = scan_from(s, st.next, st.line, (fuel - 1) as nat);
        ScanModel { toks: cons_opt(st.tok, rest.toks), errs: cons_opt(st.err, rest.errs) }
    }
}

/// The scan of a whole source text, starting on line 1.
pub open spec fn scan_spec(s: Seq<char>) -> ScanModel {
    scan_from(s, 0, 1, s.len() + 1)
}

// ---------------------------------------------------------------------------
// Facts about the specification.
// ---------------------------------------------------------------------------
proof fn lemma_skip_digits(s: Seq<char>, i: nat)
    requires
        i <= s.len(),
    ensures
        i <= skip_digits(s, i) <= s.len(),
        forall|j: int| i <= j < skip_digits(s, i) ==> is_digit_char(#[trigger] s[j]),
        skip_digits(s, i) < s.len() ==> !is_digit_char(s[skip_digits(s, i) as int]),
    decreases s.len() - i,
{
    if i < s.len() && is_digit_char(s[i as int]) {
        lemma_skip_digits(s, i + 1);
    }
}

proof fn lemma_skip_alnum(s: Seq<char>, i: nat)
    requires
        i <= s.len(),
    ensures
        i <= skip_alnum(s, i) <= s.len(),
    decreases s.len() - i,
{
    if i < s.len() && is_alnum_char(s[i as int]) {
        lemma_skip_alnum(s, i + 1);
    }
}

proof fn lemma_skip_comment(s: Seq<char>, i: nat)
    requires
        i <= s.len(),
    ensures
        i <= skip_comment(s, i) <= s.len(),
    decreases s.len() - i,
{
    if i < s.len() && s[i as int] != '\n' {
        lemma_skip_comment(s, i + 1);
    }
}

proof fn lemma_find_quote(s: Seq<char>, i: nat)
    requires
        i <= s.len(),
    ensures
        i <= find_quote(s, i) <= s.len(),
    decreases s.len() - i,
{
    if i < s.len() && s[i as int] != '"' {
        lemma_find_quote(s, i + 1);
    }
}

/// A run of `k` digits is worth less than `10^k`.
proof fn lemma_digits_val_bound(s: Seq<char>, i: nat, j: nat)
    requires
        i <= j,
        forall|k: int| i <= k < j ==> is_digit_char(#[trigger] s[k]),
    ensures
        digits_val(s, i, j) < pow10((j - i) as nat),
    decreases j - i,
{
    if j <= i {
    } else {
        lemma_digits_val_bound(s, i, (j - 1) as nat);
        let p = pow10((j - 1 - i) as nat);
        assert(pow10((j - i) as nat) == 10 * p);
        assert(digits_val(s, i, (j - 1) as nat) * 10 <= (p - 1) * 10) by (nonlinear_arith)
            requires digits_val(s, i, (j - 1) as nat) <= p - 1;
    }
}

/// `10^a` grows with `a`.
proof fn lemma_pow10_mono(a: nat, b: nat)
    requires
        a <= b,
    ensures
        pow10(a) <= pow10(b),
    decreases b,
{
    if a < b {
        lemma_pow10_mono(a, (b - 1) as nat);
        assert(pow10(b) == 10 * pow10((b - 1) as nat));
    }
}

/// `10^(a+b) == 10^a * 10^b`.
proof fn lemma_pow10_add(a: nat, b: nat)
    ensures
        pow10(a + b) == pow10(a) * pow10(b),
    decreases a,
{
    if a == 0 {
        assert(pow10(0 + b) == 1 * pow10(b));
    } else {
        lemma_pow10_add((a - 1) as nat, b);
        assert(pow10((a - 1) as nat + b) == pow10((a - 1) as nat) * pow10(b));
        assert((a + b - 1) as nat == (a - 1) as nat + b);
        assert(pow10(a + b) == 10 * pow10((a + b - 1) as nat));
        assert(pow10(a) == 10 * pow10((a - 1) as nat));
        assert(10 * (pow10((a - 1) as nat) * pow10(b)) == (10 * pow10((a - 1) as nat)) * pow10(
            b,
        )) by (nonlinear_arith);
    }
}

/// Every scanner step consumes at least one character and stays in range.
proof fn lemma_step_progress(s: Seq<char>, i: nat, line: nat)
    requires
        i < s.len(),
    ensures
        i < scan_step(s, i, line).next <= s.len(),
{
    let c = s[i as int];
    if c == '/' && i + 1 < s.len() && s[i as int + 1] == '/' {
        lemma_skip_comment(s, i + 2);
    } else if c == '"' {
        lemma_find_quote(s, i + 1);
    } else if !(c == '(' || c == ')' || c == '{' || c == '}' || c == ',' || c == '.' || c == '-'
        || c == '+' || c == ';' || c == '*' || c == '!' || c == '=' || c == '<' || c == '>' || c
        == '/' || c == ' ' || c == '\r' || c == '\t' || c == '\n' || c == '"') && is_digit_char(
        c,
    ) {
        lemma_skip_digits(s, i);
        assert(skip_digits(s, i) == skip_digits(s, i + 1));
        lemma_skip_digits(s, i + 1);
        let j = skip_digits(s, i);
        if j < s.len() && s[j as int] == '.' && j + 1 < s.len() && is_digit_char(
            s[j as int + 1],
        ) {
            lemma_skip_digits(s, j + 1);
        }
    } else if !(c == '(' || c == ')' || c == '{' || c == '}' || c == ',' || c == '.' || c == '-'
        || c == '+' || c == ';' || c == '*' || c == '!' || c == '=' || c == '<' || c == '>' || c
        == '/' || c == ' ' || c == '\r' || c == '\t' || c == '\n' || c == '"') && is_alpha_char(
        c,
    ) {
        assert(skip_alnum(s, i) == skip_alnum(s, i + 1));
        lemma_skip_alnum(s, i + 1);
    }
}

/// The scan does not depend on the fuel, once the fuel exceeds the
/// remaining length.
proof fn lemma_scan_from_fuel(s: Seq<char>, i: nat, line: nat, f1: nat, f2: nat)
    requires
        i <= s.len(),
        f1 > s.len() - i,
        f2 > s.len() - i,
    ensures
        scan_from(s, i, line, f1) == scan_from(s, i, line, f2),
    decreases f1,
{
    if i < s.len() {
        lemma_step_progress(s, i, line);
        let st = scan_step(s, i, line);
        lemma_scan_from_fuel(s, st.next, st.line, (f1 - 1) as nat, (f2 - 1) as nat);
    }
}

/// The token sequence of every scan ends with exactly one `Eof` token
/// whose lexeme is empty: the last token is `Eof`, and no earlier one is.
pub proof fn lemma_scan_ends_with_eof(s: Seq<char>)
    ensures
        scan_spec(s).toks.len() >= 1,
        scan_spec(s).toks.last().kind == TokenType::Eof,
        scan_spec(s).toks.last().lexeme == Seq::<char>::empty(),
        forall|k: int|
            0 <= k < scan_spec(s).toks.len() - 1 ==> (#[trigger] scan_spec(s).toks[k]).kind
                != TokenType::Eof,
{
    lemma_scan_from_eof(s, 0, 1, (s.len() + 1) as nat);
}

proof fn lemma_scan_from_eof(s: Seq<char>, i: nat, line: nat, fuel: nat)
    requires
        i <= s.len(),
        fuel > s.len() - i,
    ensures
        scan_from(s, i, line, fuel).toks.len() >= 1,
        scan_from(s, i, line, fuel).toks.last().kind == TokenType::Eof,
        scan_from(s, i, line, fuel).toks.last().lexeme == Seq::<char>::empty(),
        forall|k: int|
            0 <= k < scan_from(s, i, line, fuel).toks.len() - 1 ==> (#[trigger] scan_from(
                s,
                i,
                line,
                fuel,
            ).toks[k]).kind != TokenType::Eof,
    decreases fuel,
{
    if i >= s.len() {
    } else {
        lemma_step_progress(s, i, line);
        let st = scan_step(s, i, line);
        lemma_scan_from_eof(s, st.next, st.line, (fuel - 1) as nat);
        let rest = scan_from(s, st.next, st.line, (fuel - 1) as nat);
        match st.tok {
            Some(tm) => {
                assert(tm.kind != TokenType::Eof) by {
                    lemma_step_token_not_eof(s, i, line);
                };
                assert(scan_from(s, i, line, fuel).toks == seq![tm] + rest.toks);
            },
            None => {},
        }
    }
}

/// No scanner step emits an `Eof` token; only the end of the scan does.
proof fn lemma_step_token_not_eof(s: Seq<char>, i: nat, line: nat)
    requires
        i < s.len(),
        scan_step(s, i, line).tok is Some,
    ensures
        scan_step(s, i, line).tok->0.kind != TokenType::Eof,
{
}

/// A fractional part scaled to six places stays below the scale.
proof fn lemma_frac_scaled_bound(s: Seq<char>, i: nat, j: nat)
    requires
        i <= j,
        forall|k: int| i <= k < j ==> is_digit_char(#[trigger] s[k]),
    ensures
        frac_scaled(s, i, j) < SCALE,
{
    let take = if j - i > 6 {
        6 as nat
    } else {
        (j - i) as nat
    };
    lemma_digits_val_bound(s, i, i + take);
    lemma_pow10_add(take, (6 - take) as nat);
    reveal_with_fuel(pow10, 8);
    assert(pow10(6) == 1_000_000);
    assert(digits_val(s, i, i + take) * pow10((6 - take) as nat) < pow10(take) * pow10(
        (6 - take) as nat,
    )) by (nonlinear_arith)
        requires
            digits_val(s, i, i + take) < pow10(take),
            pow10((6 - take) as nat) >= 1,
    ;
}

/// Every token a scanner step emits is well formed.
proof fn lemma_step_token_wf(s: Seq<char>, i: nat, line: nat)
    requires
        i < s.len(),
    ensures
        scan_step(s, i, line).tok matches Some(tm) ==> token_wf(tm),
{
    let st = scan_step(s, i, line);
    let c = s[i as int];
    if !(c == '(' || c == ')' || c == '{' || c == '}' || c == ',' || c == '.' || c == '-' || c
        == '+' || c == ';' || c == '*' || c == '!' || c == '=' || c == '<' || c == '>' || c == '/'
        || c == ' ' || c == '\r' || c == '\t' || c == '\n' || c == '"') && is_digit_char(c) {
        lemma_skip_digits(s, i);
        let j = skip_digits(s, i);
        let iv = digits_val(s, i, j);
        if iv <= INT_LIMIT {
            let has_frac = j < s.len() && s[j as int] == '.' && j + 1 < s.len() && is_digit_char(
                s[j as int + 1],
            );
            if has_frac {
                lemma_skip_digits(s, j + 1);
                lemma_frac_scaled_bound(s, j + 1, skip_digits(s, j + 1));
            }
            let fv = if has_frac {
                frac_scaled(s, j + 1, skip_digits(s, j + 1))
            } else {
                0
            };
            assert(iv * SCALE <= INT_LIMIT * SCALE) by (nonlinear_arith)
                requires iv <= INT_LIMIT;
            assert(iv * SCALE + fv <= MAG_MAX);
        }
    }
}

/// Every token of a scan is well formed: literal payloads match their
/// token kinds and number magnitudes are in range.
pub proof fn lemma_scan_tokens_wf(s: Seq<char>)
    ensures
        forall|k: int|
            0 <= k < scan_spec(s).toks.len() ==> token_wf(#[trigger] scan_spec(s).toks[k]),
{
    lemma_scan_from_wf(s, 0, 1, (s.len() + 1) as nat);
}

proof fn lemma_scan_from_wf(s: Seq<char>, i: nat, line: nat, fuel: nat)
    requires
        i <= s.len(),
        fuel > s.len() - i,
    ensures
        forall|k: int|
            0 <= k < scan_from(s, i, line, fuel).toks.len() ==> token_wf(
                #[trigger] scan_from(s, i, line, fuel).toks[k],
            ),
    decreases fuel,
{
    if i >= s.len() {
    } else {
        lemma_step_progress(s, i, line);
        lemma_step_token_wf(s, i, line);
        let st = scan_step(s, i, line);
        lemma_scan_from_wf(s, st.next, st.line, (fuel - 1) as nat);
        let rest = scan_from(s, st.next, st.line, (fuel - 1) as nat);
        match st.tok {
            Some(tm) => {
                assert(scan_from(s, i, line, fuel).toks == seq![tm] + rest.toks);
            },
            None => {},
        }
    }
}

// ---------------------------------------------------------------------------
// The executable scanner.
// ---------------------------------------------------------------------------
/// The scanner's cursor state: the source text, the same text as a
/// character vector, the tokens produced so far, the start of the token
/// being scanned, the current position, and the current line.
pub struct Scanner {
    pub source: String,
    pub chars: Vec<char>,
    pub tokens: Vec<Token>,
    pub start: usize,
    pub current: usize,
    pub line: usize,
}

impl Scanner {
    /// The scanner's well-formedness: the character vector mirrors the
    /// source, the cursor stays in range, and the line counter never
    /// outruns the cursor.
    pub open spec fn wf(&self) -> bool {
        &&& self.chars@ == self.source@
        &&& self.chars@.len() < usize::MAX
        &&& self.start <= self.current
        &&& self.current <= self.chars@.len()
        &&& 1 <= self.line
        &&& self.line <= self.current + 1
    }

    pub fn new(source: &str) -> (r: Scanner)
        requires
            source@.len() < usize::MAX,
        ensures
            r.wf(),
            r.source@ == source@,
            r.tokens@ =~= Seq::<Token>::empty(),
            r.current == 0,
            r.line == 1,
    {
        let owned = source.to_owned();
        let l = source.unicode_len();
        let mut chars: Vec<char> = Vec::new();
        let mut i: usize = 0;
        while i < l
            invariant
                i <= l,
                l == source@.len(),
                chars@ =~= source@.subrange(0, i as int),
            decreases l - i,
        {
            chars.push(source.get_char(i));
            i = i + 1;
        }
        proof {
            assert(chars@ =~= source@);
        }
        Scanner { source: owned, chars, tokens: Vec::new(), start: 0, current: 0, line: 1 }
    }

    fn is_at_end(&self) -> (r: bool)
        ensures
            r == (self.current >= self.chars@.len()),
    {
        self.current >= self.chars.len()
    }

    fn peek(&self) -> (c: char)
        ensures
            c == if self.current < self.chars@.len() {
                self.chars@[self.current as int]
            } else {
                '\0'
            },
    {
        if self.current >= self.chars.len() {
            return '\0';
        }
        self.chars[self.current]
    }

    fn peek_next(&self) -> (c: char)
        requires
            self.current <= self.chars@.len(),
            self.chars@.len() < usize::MAX,
        ensures
            c == if self.current + 1 < self.chars@.len() {
                self.chars@[self.current as int + 1]
            } else {
                '\0'
            },
    {
        if self.current + 1 >= self.chars.len() {
            return '\0';
        }
        self.chars[self.current + 1]
    }

    fn in_advance(&mut self) -> (c: char)
        requires
            old(self).wf(),
            old(self).current < old(self).chars@.len(),
        ensures
            final(self).wf(),
            c == old(self).chars@[old(self).current as int],
            final(self).current == old(self).current + 1,
            final(self).source == old(self).source,
            final(self).chars == old(self).chars,
            final(self).tokens == old(self).tokens,
            final(self).start == old(self).start,
            final(self).line == old(self).line,
    {
        let c = self.chars[self.current];
        self.current = self.current + 1;
        c
    }

    fn char_match(&mut self, expected: char) -> (r: bool)
        requires
            old(self).wf(),
        ensures
            final(self).wf(),
            r == (old(self).current < old(self).chars@.len() && old(self).chars@[old(
                self,
            ).current as int] == expected),
            final(self).current == if r {
                old(self).current + 1
            } else {
                old(self).current as int
            },
            final(self).source == old(self).source,
            final(self).chars == old(self).chars,
            final(self).tokens == old(self).tokens,
            final(self).start == old(self).start,
            final(self).line == old(self).line,
    {
        if self.current >= self.chars.len() {
            return false;
        }
        if self.chars[self.current] != expected {
            false
        } else {
            self.current = self.current + 1;
            true
        }
    }

    fn add_token(&mut self, token_type: TokenType)
        requires
            old(self).wf(),
        ensures
            final(self).wf(),
            token_views(final(self).tokens@) =~= token_views(old(self).tokens@).push(
                TokenModel {
                    kind: token_type,
                    lexeme: old(self).source@.subrange(
                        old(self).start as int,
                        old(self).current as int,
                    ),
                    lit: None,
                    line: old(self).line as nat,
                },
            ),
            final(self).source == old(self).source,
            final(self).chars == old(self).chars,
            final(self).start == old(self).start,
            final(self).current == old(self).current,
            final(self).line == old(self).line,
    {
        self.add_token_alt(token_type, None);
    }

    fn add_token_alt(&mut self, token_type: TokenType, literal: Option<LiteralValue>)
        requires
            old(self).wf(),
        ensures
            final(self).wf(),
            token_views(final(self).tokens@) =~= token_views(old(self).tokens@).push(
                TokenModel {
                    kind: token_type,
                    lexeme: old(self).source@.subrange(
                        old(self).start as int,
                        old(self).current as int,
                    ),
                    lit: lit_view(literal),
                    line: old(self).line as nat,
                },
            ),
            final(self).source == old(self).source,
            final(self).chars == old(self).chars,
            final(self).start == old(self).start,
            final(self).current == old(self).current,
            final(self).line == old(self).line,
    {
        let text = self.source.as_str().substring_char(self.start, self.current).to_owned();
        let line_number = self.line;
        self.tokens.push(Token { token_type, lexeme: text, literal, line_number });
    }

    /// Scans the rest of a string literal; the opening quote is already
    /// consumed. The line counter advances past every embedded newline,
    /// and input that ends before the closing quote is an
    /// `UnterminatedString` error yielding no token.
    fn string(&mut self) -> (r: Result<(), ScanError>)
        requires
            old(self).wf(),
            old(self).current == old(self).start + 1,
            (old(self).start as nat) < old(self).chars@.len(),
            old(self).chars@[old(self).start as int] == '"',
        ensures
            final(self).wf(),
            final(self).source == old(self).source,
            final(self).chars == old(self).chars,
            old(self).current <= final(self).current,
            ({
                let st = scan_step(old(self).source@, old(self).start as nat, old(self).line as nat);
                &&& final(self).current as nat == st.next
                &&& final(self).line as nat == st.line
                &&& (match st.tok {
                    Some(tm) => token_views(final(self).tokens@) =~= token_views(
                        old(self).tokens@,
                    ).push(tm),
                    None => final(self).tokens == old(self).tokens,
                })
                &&& (match r {
                    Ok(_) => st.err is None,
                    Err(e) => st.err == Some(e@),
                })
            }),
    {
        let ghost s = self.source@;
        let ghost i = self.start as nat;
        let ghost line0 = self.line as nat;
        while self.current < self.chars.len() && self.chars[self.current] != '"'
            invariant
                self.wf(),
                self.source@ == s,
                self.chars@ == s,
                self.start as nat == i,
                self.current == self.chars@.len() || self.current > self.start,
                i + 1 <= self.current as nat,
                forall|j: int| i + 1 <= j < self.current as nat ==> s[j] != '"',
                find_quote(s, i + 1) == find_quote(s, self.current as nat),
                self.line as nat == line0 + count_newlines(s, i + 1, self.current as nat),
                self.tokens == old(self).tokens,
                self.source == old(self).source,
                self.chars == old(self).chars,
                self.start == old(self).start,
            decreases self.chars@.len() - self.current,
        {
            if self.chars[self.current] == '\n' {
                self.line = self.line + 1;
            }
            self.current = self.current + 1;
        }
        proof {
            assert(find_quote(s, self.current as nat) == self.current as nat);
        }
        if self.current >= self.chars.len() {
            return Err(ScanError::UnterminatedString { line: self.line });
        }
        let value = self.source.as_str().substring_char(self.start + 1, self.current).to_owned();
        self.current = self.current + 1;
        self.add_token_alt(TokenType::StringLit, Some(LiteralValue::StringValue(value)));
        Ok(())
    }

    /// Scans the rest of a number literal; the first digit is already
    /// consumed. A dot is part of the number only when a digit follows
    /// it, and an integer part beyond `INT_LIMIT` is a `NumberFormat`
    /// error yielding no token.
    #[verifier::rlimit(100)]
    #[verifier::spinoff_prover]
    fn number(&mut self) -> (r: Result<(), ScanError>)
        requires
            old(self).wf(),
            old(self).current == old(self).start + 1,
            (old(self).start as nat) < old(self).chars@.len(),
            is_digit_char(old(self).chars@[old(self).start as int]),
        ensures
            final(self).wf(),
            final(self).source == old(self).source,
            final(self).chars == old(self).chars,
            old(self).current <= final(self).current,
            ({
                let st = scan_step(old(self).source@, old(self).start as nat, old(self).line as nat);
                &&& final(self).current as nat == st.next
                &&& final(self).line as nat == st.line
                &&& (match st.tok {
                    Some(tm) => token_views(final(self).tokens@) =~= token_views(
                        old(self).tokens@,
                    ).push(tm),
                    None => final(self).tokens == old(self).tokens,
                })
                &&& (match r {
                    Ok(_) => st.err is None,
                    Err(e) => st.err == Some(e@),
                })
            }),
    {
        let ghost s = self.source@;
        let ghost i = self.start as nat;
        proof {
            assert(skip_digits(s, i) == skip_digits(s, i + 1));
        }
        while self.current < self.chars.len() && is_digit(self.chars[self.current])
            invariant
                self.wf(),
                self.source@ == s,
                self.chars@ == s,
                self.start as nat == i,
                i + 1 <= self.current as nat,
                forall|j: int| i <= j < self.current as nat ==> is_digit_char(#[trigger] s[j]),
                skip_digits(s, i) == skip_digits(s, self.current as nat),
                self.line == old(self).line,
                self.tokens == old(self).tokens,
                self.source == old(self).source,
                self.chars == old(self).chars,
                self.start == old(self).start,
            decreases self.chars@.len() - self.current,
        {
            self.current = self.current + 1;
        }
        proof {
            assert(skip_digits(s, self.current as nat) == self.current as nat);
        }
        let j = self.current;
        let ghost has_frac = j < s.len() && s[j as int] == '.' && j + 1 < s.len()
            && is_digit_char(s[j as int + 1]);
        if self.peek() == '.' && is_digit(self.peek_next()) {
            proof {
                assert(has_frac);
            }
            self.current = self.current + 1;
            proof {
                assert(skip_digits(s, j as nat + 1) == skip_digits(s, self.current as nat));
            }
            while self.current < self.chars.len() && is_digit(self.chars[self.current])
                invariant
                    self.wf(),
                    self.source@ == s,
                    self.chars@ == s,
                    self.start as nat == i,
                    j + 1 <= self.current as nat,
                    forall|k: int|
                        j + 1 <= k < self.current as nat ==> is_digit_char(#[trigger] s[k]),
                    skip_digits(s, j as nat + 1) == skip_digits(s, self.current as nat),
                    self.line == old(self).line,
                    self.tokens == old(self).tokens,
                    self.source == old(self).source,
                    self.chars == old(self).chars,
                    self.start == old(self).start,
                decreases self.chars@.len() - self.current,
            {
                self.current = self.current + 1;
            }
            proof {
                assert(skip_digits(s, self.current as nat) == self.current as nat);
            }
        } else {
            proof {
                assert(!has_frac);
            }
        }
        let end = self.current;
        let ghost frozen = *self;
        // The integer part's value, tracking whether it left the range.
        let mut acc: u128 = 0;
        let mut over = false;
        let mut k = self.start;
        while k < j
            invariant
                *self == frozen,
                i <= k as nat <= j as nat,
                j <= s.len(),
                s == self.chars@,
                forall|m: int| i <= m < j ==> is_digit_char(#[trigger] s[m]),
                !over ==> acc as nat == digits_val(s, i, k as nat) && acc <= INT_LIMIT,
                over ==> digits_val(s, i, k as nat) > INT_LIMIT,
            decreases j - k,
        {
            let c = self.chars[k];
            let d = (c as u32 - 48) as u128;
            if !over {
                let next = acc * 10 + d;
                if next > INT_LIMIT {
                    over = true;
                } else {
                    acc = next;
                }
                proof {
                    assert(digits_val(s, i, k as nat + 1) == digits_val(s, i, k as nat) * 10
                        + digit_val(s[k as int]));
                }
            } else {
                proof {
                    assert(digits_val(s, i, k as nat + 1) == digits_val(s, i, k as nat) * 10
                        + digit_val(s[k as int]));
                    assert(digits_val(s, i, k as nat) * 10 > INT_LIMIT);
                }
            }
            k = k + 1;
        }
        if over {
            let lexeme = self.source.as_str().substring_char(self.start, end).to_owned();
            return Err(ScanError::NumberFormat { lexeme, line: self.line });
        }
        // The fractional part: the first six digits after the dot,
        // scaled to six decimal places.
        let mut frac: u128 = 0;
        let ghost fs = j as nat + 1;
        let mut take: usize = 0;
        if end > j {
            let flen = end - (j + 1);
            take = if flen > 6 {
                6
            } else {
                flen
            };
            let mut t: usize = 0;
            while t < take
                invariant
                    *self == frozen,
                    t <= take,
                    take <= 6,
                    j + 1 + take <= end,
                    end <= s.len(),
                    s == self.chars@,
                    fs == j + 1,
                    forall|m: int| j + 1 <= m < end ==> is_digit_char(#[trigger] s[m]),
                    frac as nat == digits_val(s, fs, fs + t as nat),
                    (frac as nat) < pow10(t as nat),
                decreases take - t,
            {
                let c = self.chars[j + 1 + t];
                proof {
                    assert(is_digit_char(s[j + 1 + t as int]));
                    lemma_pow10_mono(t as nat, 5);
                    reveal_with_fuel(pow10, 7);
                    assert(pow10(5) == 100_000);
                    assert(digits_val(s, fs, fs + t as nat + 1) == digits_val(
                        s,
                        fs,
                        fs + t as nat,
                    ) * 10 + digit_val(s[fs + t as int]));
                    assert(pow10(t as nat + 1) == 10 * pow10(t as nat));
                }
                let d = (c as u32 - 48) as u128;
                frac = frac * 10 + d;
                t = t + 1;
            }
        }
        let mult: u128 = if take == 0 {
            1_000_000
        } else if take == 1 {
            100_000
        } else if take == 2 {
            10_000
        } else if take == 3 {
            1_000
        } else if take == 4 {
            100
        } else if take == 5 {
            10
        } else {
            1
        };
        proof {
            reveal_with_fuel(pow10, 8);
            assert(mult as nat == pow10((6 - take) as nat));
            lemma_digits_val_bound(s, fs, fs + take as nat);
            lemma_pow10_add(take as nat, (6 - take) as nat);
            assert((frac as nat) * (mult as nat) < pow10(take as nat) * pow10((6 - take) as nat))
                by (nonlinear_arith)
                requires
                    (frac as nat) < pow10(take as nat),
                    mult as nat == pow10((6 - take) as nat),
                    pow10((6 - take) as nat) >= 1,
            ;
            assert(acc * SCALE <= INT_LIMIT * SCALE) by (nonlinear_arith)
                requires acc <= INT_LIMIT;
        }
        let frac_part = frac * mult;
        let mag = acc * SCALE + frac_part;
        proof {
            if has_frac {
                assert(frac as nat == digits_val(s, fs, fs + take as nat));
                assert(frac_part as nat == frac_scaled(s, fs, end as nat));
            } else {
                assert(end == j && take == 0 && frac == 0);
            }
        }
        self.add_token_alt(TokenType::Number, Some(LiteralValue::NumberValue { mag }));
        Ok(())
    }

    /// Scans the rest of an identifier or keyword; the first character
    /// is already consumed.
    fn identifier(&mut self)
        requires
            old(self).wf(),
            old(self).current == old(self).start + 1,
            (old(self).start as nat) < old(self).chars@.len(),
            is_alpha_char(old(self).chars@[old(self).start as int]),
        ensures
            final(self).wf(),
            final(self).source == old(self).source,
            final(self).chars == old(self).chars,
            old(self).current <= final(self).current,
            ({
                let st = scan_step(old(self).source@, old(self).start as nat, old(self).line as nat);
                &&& final(self).current as nat == st.next
                &&& final(self).line as nat == st.line
                &&& token_views(final(self).tokens@) =~= token_views(old(self).tokens@).push(
                    st.tok->0,
                )
                &&& st.tok is Some
                &&& st.err is None
            }),
    {
        let ghost s = self.source@;
        let ghost i = self.start as nat;
        proof {
            assert(skip_alnum(s, i) == skip_alnum(s, i + 1));
        }
        while self.current < self.chars.len() && is_alpha_numeric(self.chars[self.current])
            invariant
                self.wf(),
                self.source@ == s,
                self.chars@ == s,
                self.start as nat == i,
                i + 1 <= self.current as nat,
                skip_alnum(s, i) == skip_alnum(s, self.current as nat),
                self.line == old(self).line,
                self.tokens == old(self).tokens,
                self.source == old(self).source,
                self.chars == old(self).chars,
                self.start == old(self).start,
            decreases self.chars@.len() - self.current,
        {
            self.current = self.current + 1;
        }
        proof {
            assert(skip_alnum(s, self.current as nat) == self.current as nat);
        }
        let text = self.source.as_str().substring_char(self.start, self.current);
        let token_type = keyword_kind(text);
        self.add_token(token_type);
    }

    /// Scans one token (or skips whitespace or a comment) starting at
    /// the current position, which `scan_step` describes exactly.
    fn scan_token(&mut self) -> (r: Result<(), ScanError>)
        requires
            old(self).wf(),
            old(self).start == old(self).current,
            old(self).current < old(self).chars@.len(),
        ensures
            final(self).wf(),
            final(self).source == old(self).source,
            final(self).chars == old(self).chars,
            old(self).current < final(self).current,
            ({
                let st = scan_step(old(self).source@, old(self).current as nat, old(self).line as nat);
                &&& final(self).current as nat == st.next
                &&& final(self).line as nat == st.line
                &&& (match st.tok {
                    Some(tm) => token_views(final(self).tokens@) =~= token_views(
                        old(self).tokens@,
                    ).push(tm),
                    None => final(self).tokens == old(self).tokens,
                })
                &&& (match r {
                    Ok(_) => st.err is None,
                    Err(e) => st.err == Some(e@),
                })
            }),
    {
        let c = self.in_advance();
        if c == '(' {
            self.add_token(TokenType::LeftParen);
            Ok(())
        } else if c == ')' {
            self.add_token(TokenType::RightParen);
            Ok(())
        } else if c == '{' {
            self.add_token(TokenType::LeftBrace);
            Ok(())
        } else if c == '}' {
            self.add_token(TokenType::RightBrace);
            Ok(())
        } else if c == ',' {
            self.add_token(TokenType::Comma);
            Ok(())
        } else if c == '.' {
            self.add_token(TokenType::Dot);
            Ok(())
        } else if c == '-' {
            self.add_token(TokenType::Minus);
            Ok(())
        } else if c == '+' {
            self.add_token(TokenType::Plus);
            Ok(())
        } else if c == ';' {
            self.add_token(TokenType::Semicolon);
            Ok(())
        } else if c == '*' {
            self.add_token(TokenType::Star);
            Ok(())
        } else if c == '!' {
            let token = if self.char_match('=') {
                TokenType::BangEqual
            } else {
                TokenType::Bang
            };
            self.add_token(token);
            Ok(())
        } else if c == '=' {
            let token = if self.char_match('=') {
                TokenType::EqualEqual
            } else {
                TokenType::Equal
            };
            self.add_token(token);
            Ok(())
        } else if c == '<' {
            let token = if self.char_match('=') {
                TokenType::LessEqual
            } else {
                TokenType::Less
            };
            self.add_token(token);
            Ok(())
        } else if c == '>' {
            let token = if self.char_match('=') {
                TokenType::GreaterEqual
            } else {
                TokenType::Greater
            };
            self.add_token(token);
            Ok(())
        } else if c == '/' {
            if self.char_match('/') {
                let ghost s = self.source@;
                let ghost i0 = self.current as nat;
                while self.current < self.chars.len() && self.chars[self.current] != '\n'
                    invariant
                        self.wf(),
                        self.source@ == s,
                        self.chars@ == s,
                        i0 <= self.current as nat,
                        skip_comment(s, i0) == skip_comment(s, self.current as nat),
                        self.line == old(self).line,
                        self.tokens == old(self).tokens,
                        self.source == old(self).source,
                        self.chars == old(self).chars,
                        self.start == old(self).start,
                    decreases self.chars@.len() - self.current,
                {
                    self.current = self.current + 1;
                }
                proof {
                    assert(skip_comment(s, self.current as nat) == self.current as nat);
                }
                Ok(())
            } else {
                self.add_token(TokenType::Slash);
                Ok(())
            }
        } else if c == ' ' || c == '\r' || c == '\t' {
            Ok(())
        } else if c == '\n' {
            self.line = self.line + 1;
            Ok(())
        } else if c == '"' {
            self.string()
        } else if is_digit(c) {
            self.number()
        } else if is_alpha(c) {
            self.identifier();
            Ok(())
        } else {
            let text = self.source.as_str().substring_char(self.start, self.current).to_owned();
            Err(ScanError::UnexpectedCharacter { text, line: self.line })
        }
    }

    /// Scans the whole source: the tokens land in `self.tokens`, always
    /// ending with one `Eof` token. The call returns the tokens when no
    /// error occurred, and the non-empty error list otherwise; either
    /// way `self.tokens` holds exactly the tokens of `scan_spec`.
    pub fn scan_tokens(&mut self) -> (r: Result<Vec<Token>, Vec<ScanError>>)
        requires
            old(self).wf(),
            old(self).current == 0,
            old(self).line == 1,
            old(self).tokens@ =~= Seq::<Token>::empty(),
        ensures
            final(self).wf(),
            final(self).source == old(self).source,
            token_views(final(self).tokens@) =~= scan_spec(old(self).source@).toks,
            ({
                let sm = scan_spec(old(self).source@);
                match r {
                    Ok(toks) => token_views(toks@) =~= sm.toks && sm.errs.len() == 0,
                    Err(errs) => err_views(errs@) =~= sm.errs && sm.errs.len() > 0,
                }
            }),
    {
        let ghost s = self.source@;
        let mut errors: Vec<ScanError> = Vec::new();
        proof {
            assert(token_views(self.tokens@) =~= Seq::<TokenModel>::empty());
            assert(err_views(errors@) =~= Seq::<ScanErrModel>::empty());
        }
        while self.current < self.chars.len()
            invariant
                self.wf(),
                self.source@ == s,
                self.chars@ == s,
                self.source == old(self).source,
                token_views(self.tokens@) + scan_from(
                    s,
                    self.current as nat,
                    self.line as nat,
                    (s.len() - self.current + 1) as nat,
                ).toks =~= scan_spec(s).toks,
                err_views(errors@) + scan_from(
                    s,
                    self.current as nat,
                    self.line as nat,
                    (s.len() - self.current + 1) as nat,
                ).errs =~= scan_spec(s).errs,
            decreases self.chars@.len() - self.current,
        {
            let ghost oc = self.current as nat;
            let ghost ol = self.line as nat;
            let ghost otoks = self.tokens@;
            let ghost oerrs = errors@;
            self.start = self.current;
            let step = self.scan_token();
            match step {
                Ok(_) => (),
                Err(e) => errors.push(e),
            }
            proof {
                let st = scan_step(s, oc, ol);
                lemma_step_progress(s, oc, ol);
                let full = scan_from(s, oc, ol, (s.len() - oc + 1) as nat);
                lemma_scan_from_fuel(
                    s,
                    st.next,
                    st.line,
                    (s.len() - oc) as nat,
                    (s.len() - st.next + 1) as nat,
                );
                let rest = scan_from(s, st.next, st.line, (s.len() - st.next + 1) as nat);
                assert(full.toks == cons_opt(st.tok, rest.toks));
                assert(full.errs == cons_opt(st.err, rest.errs));
                match st.tok {
                    Some(tm) => {
                        assert(token_views(self.tokens@) + rest.toks =~= token_views(otoks)
                            + full.toks);
                    },
                    None => {},
                }
                match st.err {
                    Some(em) => {
                        assert(err_views(errors@) =~= err_views(oerrs).push(em));
                        assert(err_views(errors@) + rest.errs =~= err_views(oerrs) + full.errs);
                    },
                    None => {
                        assert(errors@ == oerrs);
                    },
                }
            }
        }
        let ghost endline = self.line as nat;
        let eof_lexeme = String::new();
        let line_number = self.line;
        self.tokens.push(
            Token { token_type: TokenType::Eof, lexeme: eof_lexeme, literal: None, line_number },
        );
        proof {
            let fin_model = scan_from(s, self.current as nat, endline, 1);
            assert(fin_model.toks == seq![
                TokenModel { kind: TokenType::Eof, lexeme: Seq::empty(), lit: None, line: endline },
            ]);
            assert(token_views(self.tokens@) =~= scan_spec(s).toks);
        }
        if errors.len() > 0 {
            proof {
                assert(scan_spec(s).errs =~= err_views(errors@));
            }
            Err(errors)
        } else {
            proof {
                assert(scan_spec(s).errs =~= err_views(errors@));
            }
            let toks = clone_tokens(&self.tokens);
            Ok(toks)
        }
    }
}

/// A field-by-field copy of a token, preserving its model.
pub(crate) fn clone_token(t: &Token) -> (r: Token)
    ensures
        r@ == t@,
{
    let literal = match &t.literal {
        Option::None => Option::None,
        Option::Some(LiteralValue::NumberValue { mag }) => Option::Some(
            LiteralValue::NumberValue { mag: *mag },
        ),
        Option::Some(LiteralValue::StringValue(sv)) => Option::Some(
            LiteralValue::StringValue(sv.clone()),
        ),
        Option::Some(LiteralValue::IdentifierValue(sv)) => Option::Some(
            LiteralValue::IdentifierValue(sv.clone()),
        ),
    };
    Token {
        token_type: t.token_type,
        lexeme: t.lexeme.clone(),
        literal,
        line_number: t.line_number,
    }
}

/// Copies a token vector, preserving the token models.
fn clone_tokens(ts: &Vec<Token>) -> (r: Vec<Token>)
    ensures
        token_views(r@) =~= token_views(ts@),
{
    let mut out: Vec<Token> = Vec::new();
    let mut i: usize = 0;
    while i < ts.len()
        invariant
            i <= ts@.len(),
            out@.len() == i,
            forall|k: int| 0 <= k < i ==> (#[trigger] out@[k])@ == ts@[k]@,
        decreases ts@.len() - i,
    {
        out.push(clone_token(&ts[i]));
        i = i + 1;
    }
    proof {
        assert(token_views(out@) =~= token_views(ts@));
    }
    out
}

} // verus!

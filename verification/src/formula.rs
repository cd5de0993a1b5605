//! The formula pipeline: a byte-level lexer, an operator-priority parser
//! that builds a binary token tree, and a tree-walking evaluator.
//!
//! Numeric literals travel through the pipeline as their source text; the
//! arithmetic itself is double-precision floating point, which the caller
//! supplies through small callback functions working on IEEE-754 bit
//! patterns (`u64`). Everything else — scanning, spans, precedence,
//! associativity, error classification, substitution, evaluation order —
//! is decided here and verified.

use vstd::prelude::*;
use vstd::string::StringSliceAdditionalSpecFns;
use crate::tree::{Node, NodeError};
use crate::varpool::{VarData, VarPool};

verus! {

/// A half-open byte-offset range `[start, end)` into the source text.
#[derive(Debug, Clone, Copy, PartialEq, Eq, Structural)]
pub struct Loc(pub usize, pub usize);

/// One classified lexical unit. A number holds the exact source text it
/// was read from (after unary folding, possibly with a leading `-`).
#[derive(Debug, Clone)]
pub enum TokenKind {
    /// A numeric literal, as its source text.
    Number(String),
    /// A variable name.
    Variable(String),
    /// `+`
    Plus,
    /// `-`
    Minus,
    /// `*`
    Mul,
    /// `/`
    Div,
    /// `%`
    Mod,
    /// `=`
    Equal,
    /// `(`
    LParen,
    /// `)`
    RParen,
}

/// A token paired with the source span it was read from.
#[derive(Debug, Clone)]
pub struct Token {
    /// What the token is.
    pub value: TokenKind,
    /// Where in the source it came from.
    pub loc: Loc,
}

/// The mathematical image of a `TokenKind`: texts become char sequences.
pub enum TokenKindView {
    /// A numeric literal's text.
    Number(Seq<char>),
    /// A variable name.
    Variable(Seq<char>),
    /// `+`
    Plus,
    /// `-`
    Minus,
    /// `*`
    Mul,
    /// `/`
    Div,
    /// `%`
    Mod,
    /// `=`
    Equal,
    /// `(`
    LParen,
    /// `)`
    RParen,
}

/// The mathematical image of a `Token`.
pub struct TokenView {
    /// What the token is.
    pub value: TokenKindView,
    /// Start byte offset.
    pub lo: int,
    /// End byte offset.
    pub hi: int,
}

impl View for TokenKind {
    type V = TokenKindView;

    open spec fn view(&self) -> TokenKindView {
        match self {
            TokenKind::Number(s) => TokenKindView::Number(s@),
            TokenKind::Variable(s) => TokenKindView::Variable(s@),
            TokenKind::Plus => TokenKindView::Plus,
            TokenKind::Minus => TokenKindView::Minus,
            TokenKind::Mul => TokenKindView::Mul,
            TokenKind::Div => TokenKindView::Div,
            TokenKind::Mod => TokenKindView::Mod,
            TokenKind::Equal => TokenKindView::Equal,
            TokenKind::LParen => TokenKindView::LParen,
            TokenKind::RParen => TokenKindView::RParen,
        }
    }
}

impl View for Token {
    type V = TokenView;

    open spec fn view(&self) -> TokenView {
        TokenView { value: self.value@, lo: self.loc.0 as int, hi: self.loc.1 as int }
    }
}

impl PartialEq for TokenKind {
    /// Two token kinds are equal when they are the same tag with the same text.
    fn eq(&self, other: &TokenKind) -> (r: bool) {
        match (self, other) {
            (TokenKind::Number(a), TokenKind::Number(b)) => *a == *b,
            (TokenKind::Variable(a), TokenKind::Variable(b)) => *a == *b,
            (TokenKind::Plus, TokenKind::Plus) => true,
            (TokenKind::Minus, TokenKind::Minus) => true,
            (TokenKind::Mul, TokenKind::Mul) => true,
            (TokenKind::Div, TokenKind::Div) => true,
            (TokenKind::Mod, TokenKind::Mod) => true,
            (TokenKind::Equal, TokenKind::Equal) => true,
            (TokenKind::LParen, TokenKind::LParen) => true,
            (TokenKind::RParen, TokenKind::RParen) => true,
            _ => false,
        }
    }
}

impl Eq for TokenKind {}

impl vstd::std_specs::cmp::PartialEqSpecImpl for TokenKind {
    open spec fn obeys_eq_spec() -> bool {
        true
    }

    open spec fn eq_spec(&self, other: &TokenKind) -> bool {
        self@ == other@
    }
}

impl PartialEq for Token {
    /// Tokens are equal when both the kind and the span agree.
    fn eq(&self, other: &Token) -> (r: bool) {
        self.value == other.value && self.loc == other.loc
    }
}

impl Eq for Token {}

impl vstd::std_specs::cmp::PartialEqSpecImpl for Token {
    open spec fn obeys_eq_spec() -> bool {
        true
    }

    open spec fn eq_spec(&self, other: &Token) -> bool {
        self@ == other@
    }
}

/// The kind of fault a formula can show, from lexing through evaluation.
#[derive(Debug, Clone, Copy, PartialEq, Eq, Structural)]
pub enum ErrType {
    /// An unrecognized byte during lexing.
    InvalidChar(char),
    /// A second decimal point inside one numeric literal.
    InvalidFloatValue,
    /// Two binding operators adjacent with no unary reading.
    InvalidOperator,
    /// A malformed leaf, unary, assignment or missing operator.
    InvalidFormula,
    /// A fault reported by the tree primitive.
    NodeError(NodeError),
    /// An operator node missing a required child.
    InvalidTree,
    /// A divisor or modulus that is exactly zero.
    ZeroDiv,
    /// An unmatched parenthesis.
    InvalidBracket,
    /// Substitution attempted on an absent tree.
    EmptyFormula,
    /// A variable that stayed unbound through substitution.
    UndefinedVariable,
    /// Evaluation attempted before a successful parse.
    NoTree,
}

/// A fault with its kind, a short message, the originating formula text,
/// and the source span to point at.
#[derive(Debug)]
pub struct FormulaErr {
    /// The formula the fault was found in, filled in at the public edge.
    pub formula: String,
    /// What went wrong.
    pub err_type: ErrType,
    /// A short human-readable description.
    pub err_msg: String,
    /// Where in the formula it went wrong.
    pub loc: Loc,
}

/// The mathematical image of a fault: its kind and its span.
pub struct ErrView {
    /// What went wrong.
    pub kind: ErrType,
    /// Start byte offset.
    pub lo: int,
    /// End byte offset.
    pub hi: int,
}

/// Whether the executable error carries exactly the kind and span of `e`.
pub open spec fn matches_err(fe: FormulaErr, e: ErrView) -> bool {
    fe.err_type == e.kind && fe.loc.0 as int == e.lo && fe.loc.1 as int == e.hi
}

impl FormulaErr {
    /// A fault of the given kind at the given span, with no formula text yet.
    fn new(etype: ErrType, msg: &str, loc: Loc) -> (r: Self)
        ensures
            r.err_type == etype,
            r.loc == loc,
            r.formula@ == Seq::<char>::empty(),
    {
        Self { formula: String::new(), err_type: etype, err_msg: msg.to_owned(), loc }
    }
}

} // verus!

verus! {

// ---------------------------------------------------------------------
// Byte classification
// ---------------------------------------------------------------------

/// The byte `+`.
pub const BYTE_PLUS: u8 = 43;

/// The byte `-`.
pub const BYTE_MINUS: u8 = 45;

/// The byte `*`.
pub const BYTE_STAR: u8 = 42;

/// The byte `/`.
pub const BYTE_SLASH: u8 = 47;

/// The byte `%`.
pub const BYTE_PERCENT: u8 = 37;

/// The byte `=`.
pub const BYTE_EQUAL: u8 = 61;

/// The byte `(`.
pub const BYTE_LPAREN: u8 = 40;

/// The byte `)`.
pub const BYTE_RPAREN: u8 = 41;

/// The byte `.`.
pub const BYTE_DOT: u8 = 46;

/// The byte `0`.
pub const BYTE_ZERO: u8 = 48;

/// The byte `9`.
pub const BYTE_NINE: u8 = 57;

/// The byte `a`.
pub const BYTE_LOWER_A: u8 = 97;

/// The byte `z`.
pub const BYTE_LOWER_Z: u8 = 122;

/// The byte `A`.
pub const BYTE_UPPER_A: u8 = 65;

/// The byte `Z`.
pub const BYTE_UPPER_Z: u8 = 90;

/// The space byte.
pub const BYTE_SPACE: u8 = 32;

/// The newline byte.
pub const BYTE_NEWLINE: u8 = 10;

/// The tab byte.
pub const BYTE_TAB: u8 = 9;

/// One of the single-character operator or punctuation bytes: they end
/// a variable name and each stands for a token of its own.
pub open spec fn is_op_char_byte(b: u8) -> bool {
    b == BYTE_PLUS || b == BYTE_MINUS || b == BYTE_STAR || b == BYTE_SLASH || b == BYTE_PERCENT
        || b == BYTE_EQUAL || b == BYTE_LPAREN || b == BYTE_RPAREN
}

/// A decimal digit byte.
pub open spec fn is_digit_byte(b: u8) -> bool {
    BYTE_ZERO <= b && b <= BYTE_NINE
}

/// An ASCII letter byte.
pub open spec fn is_alpha_byte(b: u8) -> bool {
    (BYTE_LOWER_A <= b && b <= BYTE_LOWER_Z) || (BYTE_UPPER_A <= b && b <= BYTE_UPPER_Z)
}

/// An ASCII letter or digit byte: what a variable name may continue with.
pub open spec fn is_alnum_byte(b: u8) -> bool {
    is_alpha_byte(b) || is_digit_byte(b)
}

/// A space, newline or tab byte.
pub open spec fn is_ws_byte(b: u8) -> bool {
    b == BYTE_SPACE || b == BYTE_NEWLINE || b == BYTE_TAB
}

/// A byte a numeric literal may continue with: a digit or a decimal point.
pub open spec fn is_num_byte(b: u8) -> bool {
    is_digit_byte(b) || b == BYTE_DOT
}

/// The token an operator or punctuation byte stands for.
pub open spec fn op_kind_of_byte(b: u8) -> TokenKindView {
    if b == BYTE_PLUS {
        TokenKindView::Plus
    } else if b == BYTE_MINUS {
        TokenKindView::Minus
    } else if b == BYTE_STAR {
        TokenKindView::Mul
    } else if b == BYTE_SLASH {
        TokenKindView::Div
    } else if b == BYTE_PERCENT {
        TokenKindView::Mod
    } else if b == BYTE_EQUAL {
        TokenKindView::Equal
    } else if b == BYTE_LPAREN {
        TokenKindView::LParen
    } else {
        TokenKindView::RParen
    }
}

/// The characters that a sequence of ASCII bytes reads as.
pub open spec fn chars_of_bytes(bs: Seq<u8>) -> Seq<char> {
    bs.map(|_i: int, b: u8| b as char)
}

impl TokenKind {
    /// Whether `target` is one of the operator or punctuation bytes
    /// that end a variable name.
    pub fn is_operator_char(target: &u8) -> (r: bool)
        ensures
            r == is_op_char_byte(*target),
    {
        let t = *target;
        t == BYTE_PLUS || t == BYTE_MINUS || t == BYTE_STAR || t == BYTE_SLASH
            || t == BYTE_PERCENT || t == BYTE_EQUAL || t == BYTE_LPAREN || t == BYTE_RPAREN
    }

    /// Whether the token can stand as a leaf: a number or a variable.
    pub fn is_value(token: &TokenKind) -> (r: bool)
        ensures
            r == (token@ is Number || token@ is Variable),
    {
        match token {
            TokenKind::Number(_) | TokenKind::Variable(_) => true,
            _ => false,
        }
    }

    /// Whether the token can act as a unary sign: `+` or `-`.
    pub fn is_unaryoperator(token: &TokenKind) -> (r: bool)
        ensures
            r == (token@ is Plus || token@ is Minus),
    {
        match token {
            TokenKind::Plus | TokenKind::Minus => true,
            _ => false,
        }
    }

    /// Whether the token is one of the four basic arithmetic operators.
    pub fn is_alsoperator(token: &TokenKind) -> (r: bool)
        ensures
            r == spec_is_alsoperator(token@),
    {
        match token {
            TokenKind::Plus | TokenKind::Minus | TokenKind::Mul | TokenKind::Div => true,
            _ => false,
        }
    }

    /// The token's binding priority: 0 binds tightest, 2 loosest; `None`
    /// for tokens that are no operators.
    pub fn ope_priority(operator: &TokenKind) -> (r: Option<u8>)
        ensures
            r == spec_ope_priority(operator@),
    {
        match operator {
            TokenKind::Mul | TokenKind::Div => Some(0),
            TokenKind::Plus | TokenKind::Minus | TokenKind::Mod => Some(1),
            TokenKind::Equal => Some(2),
            _ => None,
        }
    }

    /// Whether a variable name may continue with `target`.
    pub fn valid_char_for_variable(target: &u8) -> (r: bool)
        ensures
            r == is_alnum_byte(*target),
    {
        let t = *target;
        (BYTE_LOWER_A <= t && t <= BYTE_LOWER_Z) || (BYTE_UPPER_A <= t && t <= BYTE_UPPER_Z)
            || (BYTE_ZERO <= t && t <= BYTE_NINE)
    }

    /// Whether `target` is a whitespace byte the lexer skips.
    pub fn is_whitespace(target: &u8) -> (r: bool)
        ensures
            r == is_ws_byte(*target),
    {
        let t = *target;
        t == BYTE_SPACE || t == BYTE_NEWLINE || t == BYTE_TAB
    }

    /// The token's source text: the literal or name it carries, or the
    /// operator's own character.
    pub fn to_string(&self) -> (r: String)
        ensures
            r@ == spec_token_text(self@),
    {
        match self {
            TokenKind::Number(s) => s.clone(),
            TokenKind::Variable(s) => s.clone(),
            TokenKind::Plus => "+".to_owned(),
            TokenKind::Minus => "-".to_owned(),
            TokenKind::Mul => "*".to_owned(),
            TokenKind::Div => "/".to_owned(),
            TokenKind::Mod => "%".to_owned(),
            TokenKind::Equal => "=".to_owned(),
            TokenKind::LParen => "(".to_owned(),
            TokenKind::RParen => ")".to_owned(),
        }
    }
}

/// Whether the token is one of the four basic arithmetic operators.
pub open spec fn spec_is_alsoperator(k: TokenKindView) -> bool {
    k is Plus || k is Minus || k is Mul || k is Div
}

/// The token's binding priority: 0 binds tightest, 2 loosest.
pub open spec fn spec_ope_priority(k: TokenKindView) -> Option<u8> {
    match k {
        TokenKindView::Mul | TokenKindView::Div => Some(0u8),
        TokenKindView::Plus | TokenKindView::Minus | TokenKindView::Mod => Some(1u8),
        TokenKindView::Equal => Some(2u8),
        _ => None,
    }
}

/// The token's source text.
pub open spec fn spec_token_text(k: TokenKindView) -> Seq<char> {
    match k {
        TokenKindView::Number(s) => s,
        TokenKindView::Variable(s) => s,
        TokenKindView::Plus => "+"@,
        TokenKindView::Minus => "-"@,
        TokenKindView::Mul => "*"@,
        TokenKindView::Div => "/"@,
        TokenKindView::Mod => "%"@,
        TokenKindView::Equal => "="@,
        TokenKindView::LParen => "("@,
        TokenKindView::RParen => ")"@,
    }
}

} // verus!

verus! {

// ---------------------------------------------------------------------
// Lexing
// ---------------------------------------------------------------------

/// Scans a numeric literal's continuation from `i`: `Ok(end)` is the
/// exclusive end of the run of digits and dots, `Err(j)` the index of a
/// second dot. `seen_dot` says whether a dot was already read.
pub open spec fn num_scan(s: Seq<u8>, i: int, seen_dot: bool) -> Result<int, int>
    decreases s.len() - i,
{
    if i < 0 || i >= s.len() || !is_num_byte(s[i]) {
        Ok(i)
    } else if s[i] == BYTE_DOT {
        if seen_dot {
            Err(i)
        } else {
            num_scan(s, i + 1, true)
        }
    } else {
        num_scan(s, i + 1, seen_dot)
    }
}

/// Scans a variable name's continuation from `i`: `Ok(end)` is the
/// exclusive end of the alphanumeric run, ended by an operator byte,
/// whitespace or the input's end; `Err(j)` the index of a byte that may
/// not follow a name.
pub open spec fn var_scan(s: Seq<u8>, i: int) -> Result<int, int>
    decreases s.len() - i,
{
    if i < 0 || i >= s.len() {
        Ok(i)
    } else if is_alnum_byte(s[i]) {
        var_scan(s, i + 1)
    } else if is_op_char_byte(s[i]) || is_ws_byte(s[i]) {
        Ok(i)
    } else {
        Err(i)
    }
}

/// Where `num_scan` can end up: never before `i`, never past the input.
pub proof fn lemma_num_scan_bounds(s: Seq<u8>, i: int, seen_dot: bool)
    requires
        0 <= i <= s.len(),
    ensures
        match num_scan(s, i, seen_dot) {
            Ok(end) => i <= end <= s.len() && (forall|j: int| i <= j < end ==> is_num_byte(s[j])),
            Err(j) => i <= j < s.len(),
        },
    decreases s.len() - i,
{
    if i < s.len() && is_num_byte(s[i]) {
        if s[i] == BYTE_DOT {
            if !seen_dot {
                lemma_num_scan_bounds(s, i + 1, true);
            }
        } else {
            lemma_num_scan_bounds(s, i + 1, seen_dot);
        }
    }
}

/// Where `var_scan` can end up: never before `i`, never past the input.
pub proof fn lemma_var_scan_bounds(s: Seq<u8>, i: int)
    requires
        0 <= i <= s.len(),
    ensures
        match var_scan(s, i) {
            Ok(end) => i <= end <= s.len() && (forall|j: int| i <= j < end ==> is_alnum_byte(s[j])),
            Err(j) => i <= j < s.len(),
        },
    decreases s.len() - i,
{
    if i < s.len() && is_alnum_byte(s[i]) {
        lemma_var_scan_bounds(s, i + 1);
    }
}

/// The token or fault that reading a numeric literal at `pos` gives.
pub open spec fn spec_lex_number(s: Seq<u8>, pos: int) -> Result<TokenView, ErrView> {
    match num_scan(s, pos + 1, false) {
        Ok(end) => Ok(
            TokenView {
                value: TokenKindView::Number(chars_of_bytes(s.subrange(pos, end))),
                lo: pos,
                hi: end,
            },
        ),
        Err(j) => Err(ErrView { kind: ErrType::InvalidFloatValue, lo: pos, hi: j + 1 }),
    }
}

/// The token or fault that reading a variable name at `pos` gives.
pub open spec fn spec_lex_variable(s: Seq<u8>, pos: int) -> Result<TokenView, ErrView> {
    match var_scan(s, pos + 1) {
        Ok(end) => Ok(
            TokenView {
                value: TokenKindView::Variable(chars_of_bytes(s.subrange(pos, end))),
                lo: pos,
                hi: end,
            },
        ),
        Err(j) => Err(ErrView { kind: ErrType::InvalidChar(s[j] as char), lo: j, hi: j + 1 }),
    }
}

/// Relies on core::str::from_utf8 and str::to_owned: bytes below 128 are
/// valid UTF-8 and decode one-to-one to the chars with the same codes.
#[verifier::external_body]
fn ascii_bytes_to_string(bytes: &[u8]) -> (r: String)
    requires
        forall|i: int| 0 <= i < bytes@.len() ==> bytes@[i] < 128,
    ensures
        r@ == chars_of_bytes(bytes@),
{
    core::str::from_utf8(bytes).unwrap().to_owned()
}

/// Reads one numeric literal starting at the digit at `*pos`: digits with
/// at most one decimal point. On success `*pos` moves to the literal's
/// end and the token carries the exact source text and span; a second
/// decimal point is the `InvalidFloatValue` fault, spanning the literal
/// up to and including that point.
pub fn lex_number(input: &[u8], pos: &mut usize) -> (r: Result<Token, FormulaErr>)
    requires
        *old(pos) < input@.len(),
        is_digit_byte(input@[*old(pos) as int]),
    ensures
        spec_lex_number(input@, *old(pos) as int) matches Ok(tv) ==> r matches Ok(t) && t@ == tv
            && *final(pos) as int == tv.hi,
        spec_lex_number(input@, *old(pos) as int) matches Err(e) ==> r matches Err(fe)
            && matches_err(fe, e) && *final(pos) == *old(pos),
{
    let ghost s = input@;
    let n = input.len();
    let start = *pos;
    let mut end = start + 1;
    let mut decpoint = false;
    proof {
        lemma_num_scan_bounds(s, start + 1, false);
    }
    while end < n && (input[end] == BYTE_DOT || (BYTE_ZERO <= input[end] && input[end]
        <= BYTE_NINE))
        invariant
            s == input@,
            n == s.len(),
            start == *old(pos),
            *pos == *old(pos),
            start < s.len(),
            start + 1 <= end <= s.len(),
            num_scan(s, start + 1, false) == num_scan(s, end as int, decpoint),
            forall|j: int| start < j < end ==> is_num_byte(s[j]),
            is_digit_byte(s[start as int]),
        decreases s.len() - end,
    {
        if input[end] == BYTE_DOT {
            if decpoint {
                return Err(
                    FormulaErr::new(
                        ErrType::InvalidFloatValue,
                        "invalid float number is found",
                        Loc(start, end + 1),
                    ),
                );
            }
            decpoint = true;
        }
        end = end + 1;
    }
    let bytes = vstd::slice::slice_subrange(input, start, end);
    let text = ascii_bytes_to_string(bytes);
    *pos = end;
    Ok(Token { value: TokenKind::Number(text), loc: Loc(start, end) })
}

/// Reads one variable name starting at the letter at `*pos`: letters and
/// digits, ended by an operator byte, whitespace or the input's end. On
/// success `*pos` moves past the name; any other byte is the
/// `InvalidChar` fault, located at that byte.
pub fn lex_variable(input: &[u8], pos: &mut usize) -> (r: Result<Token, FormulaErr>)
    requires
        *old(pos) < input@.len(),
        is_alpha_byte(input@[*old(pos) as int]),
    ensures
        spec_lex_variable(input@, *old(pos) as int) matches Ok(tv) ==> r matches Ok(t) && t@ == tv
            && *final(pos) as int == tv.hi,
        spec_lex_variable(input@, *old(pos) as int) matches Err(e) ==> r matches Err(fe)
            && matches_err(fe, e) && *final(pos) == *old(pos),
{
    let ghost s = input@;
    let n = input.len();
    let start = *pos;
    let mut end = start + 1;
    proof {
        lemma_var_scan_bounds(s, start + 1);
    }
    while end < n && TokenKind::valid_char_for_variable(&input[end])
        invariant
            s == input@,
            n == s.len(),
            start == *old(pos),
            *pos == *old(pos),
            start < s.len(),
            start + 1 <= end <= s.len(),
            var_scan(s, start + 1) == var_scan(s, end as int),
            forall|j: int| start < j < end ==> is_alnum_byte(s[j]),
            is_alpha_byte(s[start as int]),
        decreases s.len() - end,
    {
        end = end + 1;
    }
    if end < input.len() {
        let b = input[end];
        if !TokenKind::is_operator_char(&b) && !TokenKind::is_whitespace(&b) {
            return Err(
                FormulaErr::new(
                    ErrType::InvalidChar(b as char),
                    "invalid char is found",
                    Loc(end, end + 1),
                ),
            );
        }
    }
    let bytes = vstd::slice::slice_subrange(input, start, end);
    let text = ascii_bytes_to_string(bytes);
    *pos = end;
    Ok(Token { value: TokenKind::Variable(text), loc: Loc(start, end) })
}

} // verus!

verus! {

/// The token views of a token sequence.
pub open spec fn views_of(toks: Seq<Token>) -> Seq<TokenView> {
    toks.map(|_i: int, t: Token| t@)
}

/// The tokens read from `s` starting at `pos`, or the first fault:
/// operator and parenthesis bytes become single tokens, digits start
/// numeric literals, letters start variable names, whitespace is
/// skipped, and anything else is `InvalidChar`.
pub open spec fn spec_lex_from(s: Seq<u8>, pos: int) -> Result<Seq<TokenView>, ErrView>
    decreases s.len() - pos,
{
    if pos < 0 || pos >= s.len() {
        Ok(Seq::empty())
    } else {
        let b = s[pos];
        if is_op_char_byte(b) {
            let tok = TokenView { value: op_kind_of_byte(b), lo: pos, hi: pos + 1 };
            match spec_lex_from(s, pos + 1) {
                Ok(rest) => Ok(seq![tok] + rest),
                Err(e) => Err(e),
            }
        } else if is_digit_byte(b) {
            match spec_lex_number(s, pos) {
                Ok(tok) => {
                    proof {
                        lemma_num_scan_bounds(s, pos + 1, false);
                    }
                    match spec_lex_from(s, tok.hi) {
                        Ok(rest) => Ok(seq![tok] + rest),
                        Err(e) => Err(e),
                    }
                },
                Err(e) => Err(e),
            }
        } else if is_alpha_byte(b) {
            match spec_lex_variable(s, pos) {
                Ok(tok) => {
                    proof {
                        lemma_var_scan_bounds(s, pos + 1);
                    }
                    match spec_lex_from(s, tok.hi) {
                        Ok(rest) => Ok(seq![tok] + rest),
                        Err(e) => Err(e),
                    }
                },
                Err(e) => Err(e),
            }
        } else if is_ws_byte(b) {
            spec_lex_from(s, pos + 1)
        } else {
            Err(ErrView { kind: ErrType::InvalidChar(b as char), lo: pos, hi: pos + 1 })
        }
    }
}

/// What has been lexed so far composes with the rest to the whole result.
pub open spec fn lex_state_ok(s: Seq<u8>, done: Seq<TokenView>, pos: int) -> bool {
    match spec_lex_from(s, pos) {
        Ok(rest) => spec_lex_from(s, 0) == Ok::<Seq<TokenView>, ErrView>(done + rest),
        Err(e) => spec_lex_from(s, 0) == Err::<Seq<TokenView>, ErrView>(e),
    }
}

/// The executable token for an operator or punctuation byte.
fn op_token_of(b: u8) -> (r: TokenKind)
    requires
        is_op_char_byte(b),
    ensures
        r@ == op_kind_of_byte(b),
{
    if b == BYTE_PLUS {
        TokenKind::Plus
    } else if b == BYTE_MINUS {
        TokenKind::Minus
    } else if b == BYTE_STAR {
        TokenKind::Mul
    } else if b == BYTE_SLASH {
        TokenKind::Div
    } else if b == BYTE_PERCENT {
        TokenKind::Mod
    } else if b == BYTE_EQUAL {
        TokenKind::Equal
    } else if b == BYTE_LPAREN {
        TokenKind::LParen
    } else {
        TokenKind::RParen
    }
}

/// Scans the whole source left to right into located tokens, or reports
/// the first lexical fault. The tokens' spans are exact byte offsets.
pub fn lexer(formula: &str) -> (r: Result<Vec<Token>, FormulaErr>)
    ensures
        spec_lex_from(formula.spec_bytes(), 0) matches Ok(tvs) ==> r matches Ok(toks)
            && views_of(toks@) == tvs,
        spec_lex_from(formula.spec_bytes(), 0) matches Err(e) ==> r matches Err(fe)
            && matches_err(fe, e),
{
    let input = formula.as_bytes();
    let ghost s = input@;
    let n = input.len();
    let mut tokens: Vec<Token> = Vec::new();
    let mut pos: usize = 0;
    proof {
        if spec_lex_from(s, 0) is Ok {
            assert(Seq::<TokenView>::empty() + spec_lex_from(s, 0)->Ok_0 =~= spec_lex_from(
                s,
                0,
            )->Ok_0);
        }
        assert(views_of(tokens@) =~= Seq::<TokenView>::empty());
    }
    while pos < n
        invariant
            s == input@,
            s == formula.spec_bytes(),
            n == s.len(),
            pos <= n,
            lex_state_ok(s, views_of(tokens@), pos as int),
        decreases n - pos,
    {
        let ghost done = views_of(tokens@);
        let ghost pos0 = pos as int;
        let b = input[pos];
        if TokenKind::is_operator_char(&b) {
            let kind = op_token_of(b);
            tokens.push(Token { value: kind, loc: Loc(pos, pos + 1) });
            pos = pos + 1;
            proof {
                let tok = TokenView { value: op_kind_of_byte(b), lo: pos0, hi: pos0 + 1 };
                assert(views_of(tokens@) =~= done.push(tok));
                if spec_lex_from(s, pos0 + 1) is Ok {
                    assert(done + (seq![tok] + spec_lex_from(s, pos0 + 1)->Ok_0) =~= done.push(tok)
                        + spec_lex_from(s, pos0 + 1)->Ok_0);
                }
            }
        } else if BYTE_ZERO <= b && b <= BYTE_NINE {
            match lex_number(input, &mut pos) {
                Ok(t) => {
                    tokens.push(t);
                    proof {
                        lemma_num_scan_bounds(s, pos0 + 1, false);
                        let tok = spec_lex_number(s, pos0)->Ok_0;
                        assert(views_of(tokens@) =~= done.push(tok));
                        if spec_lex_from(s, tok.hi) is Ok {
                            assert(done + (seq![tok] + spec_lex_from(s, tok.hi)->Ok_0)
                                =~= done.push(tok) + spec_lex_from(s, tok.hi)->Ok_0);
                        }
                    }
                },
                Err(e) => {
                    return Err(e);
                },
            }
        } else if (BYTE_LOWER_A <= b && b <= BYTE_LOWER_Z) || (BYTE_UPPER_A <= b && b
            <= BYTE_UPPER_Z) {
            match lex_variable(input, &mut pos) {
                Ok(t) => {
                    tokens.push(t);
                    proof {
                        lemma_var_scan_bounds(s, pos0 + 1);
                        let tok = spec_lex_variable(s, pos0)->Ok_0;
                        assert(views_of(tokens@) =~= done.push(tok));
                        if spec_lex_from(s, tok.hi) is Ok {
                            assert(done + (seq![tok] + spec_lex_from(s, tok.hi)->Ok_0)
                                =~= done.push(tok) + spec_lex_from(s, tok.hi)->Ok_0);
                        }
                    }
                },
                Err(e) => {
                    return Err(e);
                },
            }
        } else if b == BYTE_SPACE || b == BYTE_NEWLINE || b == BYTE_TAB {
            pos = pos + 1;
        } else {
            return Err(
                FormulaErr::new(ErrType::InvalidChar(b as char), "invalid char is found", Loc(pos, pos + 1)),
            );
        }
    }
    proof {
        if spec_lex_from(s, pos as int) is Ok {
            assert(views_of(tokens@) + spec_lex_from(s, pos as int)->Ok_0 =~= views_of(tokens@));
        }
    }
    Ok(tokens)
}

} // verus!

verus! {

// ---------------------------------------------------------------------
// Bracket validation
// ---------------------------------------------------------------------

/// What a token does to the parenthesis depth.
pub open spec fn paren_delta(k: TokenKindView) -> int {
    if k is LParen {
        1
    } else if k is RParen {
        -1
    } else {
        0
    }
}

/// Opening minus closing parentheses among `toks[lo..i)`.
pub open spec fn paren_balance(toks: Seq<TokenView>, lo: int, i: int) -> int
    decreases i - lo,
{
    if i <= lo {
        0
    } else {
        paren_balance(toks, lo, i - 1) + paren_delta(toks[i - 1].value)
    }
}

/// How many opening parentheses among `toks[lo..i)` are still waiting
/// for their closing one: a closing parenthesis with nothing open to
/// match leaves the depth at zero instead of pushing it below.
pub open spec fn open_depth(toks: Seq<TokenView>, lo: int, i: int) -> int
    decreases i - lo,
{
    if i <= lo {
        0
    } else {
        let d = open_depth(toks, lo, i - 1);
        if toks[i - 1].value is LParen {
            d + 1
        } else if toks[i - 1].value is RParen {
            if d > 0 {
                d - 1
            } else {
                d
            }
        } else {
            d
        }
    }
}

/// The last position in `[lo, hi)` where an opening parenthesis stands
/// with no other one still open: that is the first parenthesis left
/// unmatched when the total balance is positive.
pub open spec fn last_open_at_zero(toks: Seq<TokenView>, lo: int, hi: int) -> Option<int>
    decreases hi - lo,
{
    if hi <= lo {
        None
    } else if toks[hi - 1].value is LParen && open_depth(toks, lo, hi - 1) == 0 {
        Some(hi - 1)
    } else {
        last_open_at_zero(toks, lo, hi - 1)
    }
}

/// The last position in `[lo, hi)` where a closing parenthesis stands
/// with nothing open to match it: the last one left unmatched when the
/// total balance is negative.
pub open spec fn last_bad_close(toks: Seq<TokenView>, lo: int, hi: int) -> Option<int>
    decreases hi - lo,
{
    if hi <= lo {
        None
    } else if toks[hi - 1].value is RParen && open_depth(toks, lo, hi - 1) == 0 {
        Some(hi - 1)
    } else {
        last_bad_close(toks, lo, hi - 1)
    }
}

/// Between the outermost parentheses the depth never returns to zero:
/// the pair at `lo` and `hi - 1` belong to each other.
pub open spec fn inner_stays_positive(toks: Seq<TokenView>, lo: int, hi: int) -> bool {
    forall|i: int| lo < i < hi ==> paren_balance(toks, lo, i) >= 1
}

/// The open depth never drops below zero and never below the balance.
pub proof fn lemma_open_depth_bounds(toks: Seq<TokenView>, lo: int, i: int)
    ensures
        open_depth(toks, lo, i) >= 0,
        open_depth(toks, lo, i) >= paren_balance(toks, lo, i),
    decreases i - lo,
{
    if i > lo {
        lemma_open_depth_bounds(toks, lo, i - 1);
    }
}

/// While some parenthesis is open, one of them was opened at depth zero.
proof fn lemma_open_depth_has_open(toks: Seq<TokenView>, lo: int, hi: int)
    requires
        open_depth(toks, lo, hi) > 0,
    ensures
        last_open_at_zero(toks, lo, hi) is Some,
    decreases hi - lo,
{
    if hi > lo {
        if toks[hi - 1].value is LParen && open_depth(toks, lo, hi - 1) == 0 {
        } else {
            lemma_open_depth_has_open(toks, lo, hi - 1);
        }
    }
}

/// A positive total balance means some opening parenthesis was left
/// unmatched.
pub proof fn lemma_pos_balance_has_open(toks: Seq<TokenView>, lo: int, hi: int)
    requires
        paren_balance(toks, lo, hi) > 0,
    ensures
        last_open_at_zero(toks, lo, hi) is Some,
{
    lemma_open_depth_bounds(toks, lo, hi);
    lemma_open_depth_has_open(toks, lo, hi);
}

/// While more closing parentheses came than opening ones could take,
/// one of them closed at depth zero.
proof fn lemma_unmatched_close_exists(toks: Seq<TokenView>, lo: int, hi: int)
    requires
        open_depth(toks, lo, hi) - paren_balance(toks, lo, hi) > 0,
    ensures
        last_bad_close(toks, lo, hi) is Some,
    decreases hi - lo,
{
    if hi > lo {
        if toks[hi - 1].value is RParen && open_depth(toks, lo, hi - 1) == 0 {
        } else {
            lemma_open_depth_bounds(toks, lo, hi - 1);
            lemma_unmatched_close_exists(toks, lo, hi - 1);
        }
    }
}

/// A negative total balance means some closing parenthesis was left
/// unmatched.
pub proof fn lemma_neg_balance_has_close(toks: Seq<TokenView>, lo: int, hi: int)
    requires
        paren_balance(toks, lo, hi) < 0,
    ensures
        last_bad_close(toks, lo, hi) is Some,
{
    lemma_open_depth_bounds(toks, lo, hi);
    lemma_unmatched_close_exists(toks, lo, hi);
}

/// Validates the parentheses of `toks[lo..hi)`, exactly once per parser
/// call: a surplus of `(` points at the first unmatched one, a surplus
/// of `)` at the last unmatched one; a matching outermost pair is
/// stripped, anything else is passed through unchanged.
pub open spec fn spec_check_brackets(toks: Seq<TokenView>, lo: int, hi: int) -> Result<
    (int, int),
    ErrView,
> {
    let total = paren_balance(toks, lo, hi);
    if total > 0 {
        match last_open_at_zero(toks, lo, hi) {
            Some(p) => Err(ErrView { kind: ErrType::InvalidBracket, lo: toks[p].lo, hi: toks[p].hi }),
            None => Err(ErrView { kind: ErrType::InvalidBracket, lo: 0, hi: 0 }),
        }
    } else if total < 0 {
        match last_bad_close(toks, lo, hi) {
            Some(p) => Err(ErrView { kind: ErrType::InvalidBracket, lo: toks[p].lo, hi: toks[p].hi }),
            None => Err(ErrView { kind: ErrType::InvalidBracket, lo: 0, hi: 0 }),
        }
    } else if hi - lo >= 2 && toks[lo].value is LParen && toks[hi - 1].value is RParen
        && inner_stays_positive(toks, lo, hi) {
        Ok((lo + 1, hi - 1))
    } else {
        Ok((lo, hi))
    }
}

/// Validates the parentheses of `tokens[lo..hi)` and strips a matching
/// outermost pair, as `spec_check_brackets` states.
fn check_brackets(tokens: &[Token], lo: usize, hi: usize) -> (r: Result<(usize, usize), FormulaErr>)
    requires
        lo <= hi <= tokens@.len(),
    ensures
        spec_check_brackets(views_of(tokens@), lo as int, hi as int) matches Ok(p) ==> r matches Ok(
            q,
        ) && q.0 as int == p.0 && q.1 as int == p.1,
        spec_check_brackets(views_of(tokens@), lo as int, hi as int) matches Err(e) ==> r matches Err(
            fe,
        ) && matches_err(fe, e),
{
    let ghost v = views_of(tokens@);
    let mut opens: usize = 0;
    let mut closes: usize = 0;
    let mut dips = false;
    let mut i = lo;
    while i < hi
        invariant
            lo <= i <= hi <= tokens@.len(),
            v == views_of(tokens@),
            opens + closes <= i - lo,
            opens as int - closes as int == paren_balance(v, lo as int, i as int),
            dips == exists|k: int|
                lo < k < i && #[trigger] paren_balance(v, lo as int, k) <= 0,
        decreases hi - i,
    {
        if i > lo && opens <= closes {
            dips = true;
        }
        match &tokens[i].value {
            TokenKind::LParen => {
                opens = opens + 1;
            },
            TokenKind::RParen => {
                closes = closes + 1;
            },
            _ => {},
        }
        proof {
            assert(paren_balance(v, lo as int, i + 1) == paren_balance(v, lo as int, i as int)
                + paren_delta(v[i as int].value));
        }
        i = i + 1;
    }
    if opens > closes {
        let mut best: Option<usize> = None;
        let mut depth: usize = 0;
        let mut j = lo;
        while j < hi
            invariant
                lo <= j <= hi <= tokens@.len(),
                v == views_of(tokens@),
                depth <= j - lo,
                depth as int == open_depth(v, lo as int, j as int),
                match best {
                    Some(b) => lo <= b < j && last_open_at_zero(v, lo as int, j as int) == Some(
                        b as int,
                    ),
                    None => last_open_at_zero(v, lo as int, j as int) is None,
                },
            decreases hi - j,
        {
            match &tokens[j].value {
                TokenKind::LParen => {
                    if depth == 0 {
                        best = Some(j);
                    }
                    depth = depth + 1;
                },
                TokenKind::RParen => {
                    if depth > 0 {
                        depth = depth - 1;
                    }
                },
                _ => {},
            }
            j = j + 1;
        }
        match best {
            Some(p) => Err(
                FormulaErr::new(ErrType::InvalidBracket, "an extra ( is found", tokens[p].loc),
            ),
            None => {
                proof {
                    lemma_pos_balance_has_open(v, lo as int, hi as int);
                }
                unreached()
            },
        }
    } else if closes > opens {
        let mut best: Option<usize> = None;
        let mut depth: usize = 0;
        let mut j = lo;
        while j < hi
            invariant
                lo <= j <= hi <= tokens@.len(),
                v == views_of(tokens@),
                depth <= j - lo,
                depth as int == open_depth(v, lo as int, j as int),
                match best {
                    Some(b) => lo <= b < j && last_bad_close(v, lo as int, j as int) == Some(
                        b as int,
                    ),
                    None => last_bad_close(v, lo as int, j as int) is None,
                },
            decreases hi - j,
        {
            match &tokens[j].value {
                TokenKind::LParen => {
                    depth = depth + 1;
                },
                TokenKind::RParen => {
                    if depth == 0 {
                        best = Some(j);
                    } else {
                        depth = depth - 1;
                    }
                },
                _ => {},
            }
            j = j + 1;
        }
        match best {
            Some(p) => Err(
                FormulaErr::new(ErrType::InvalidBracket, "an extra ) is found", tokens[p].loc),
            ),
            None => {
                proof {
                    lemma_neg_balance_has_close(v, lo as int, hi as int);
                }
                unreached()
            },
        }
    } else {
        if hi - lo >= 2 && !dips {
            let first_open = match &tokens[lo].value {
                TokenKind::LParen => true,
                _ => false,
            };
            let last_close = match &tokens[hi - 1].value {
                TokenKind::RParen => true,
                _ => false,
            };
            if first_open && last_close {
                return Ok((lo + 1, hi - 1));
            }
        }
        Ok((lo, hi))
    }
}

} // verus!

verus! {

// ---------------------------------------------------------------------
// Parsing
// ---------------------------------------------------------------------

/// The operator the scan of `toks(lo, i)` selects, with its priority:
/// the index `lo` itself is skipped (a leading unary sign), only tokens
/// at parenthesis depth zero count, and a later operator wins whenever
/// its priority is at least the best one seen so far — so the selected
/// operator is the rightmost one of the loosest priority present.
pub open spec fn spec_scan_op(toks: Seq<TokenView>, lo: int, i: int) -> Option<(int, u8)>
    decreases i - lo,
{
    if i <= lo + 1 {
        None
    } else {
        let prev = spec_scan_op(toks, lo, i - 1);
        if paren_balance(toks, lo, i - 1) == 0 {
            match spec_ope_priority(toks[i - 1].value) {
                Some(p) => match prev {
                    Some(bp) => if p >= bp.1 {
                        Some((i - 1, p))
                    } else {
                        Some(bp)
                    },
                    None => Some((i - 1, p)),
                },
                None => prev,
            }
        } else {
            prev
        }
    }
}

/// A selected operator lies strictly inside `(lo, i)`.
pub proof fn lemma_scan_op_bounds(toks: Seq<TokenView>, lo: int, i: int)
    ensures
        spec_scan_op(toks, lo, i) matches Some(bp) ==> lo + 1 <= bp.0 <= i - 1,
    decreases i - lo,
{
    if i > lo + 1 {
        lemma_scan_op_bounds(toks, lo, i - 1);
    }
}

/// The fault reported when no operator stands at depth zero: it spans
/// from the first token (unless that is a parenthesis) to the last one.
pub open spec fn no_op_err(toks: Seq<TokenView>, lo: int, hi: int) -> ErrView {
    if hi <= lo {
        ErrView { kind: ErrType::InvalidFormula, lo: 0, hi: 0 }
    } else {
        ErrView {
            kind: ErrType::InvalidFormula,
            lo: if toks[lo].value is LParen || toks[lo].value is RParen {
                0
            } else {
                toks[lo].lo
            },
            hi: toks[hi - 1].hi,
        }
    }
}

/// The expression tree as mathematics: a token at every node, children
/// optional so that hand-built partial trees can be spoken about too.
pub struct NodeView {
    /// The node's token.
    pub data: TokenView,
    /// The left subtree.
    pub left: Option<Box<NodeView>>,
    /// The right subtree.
    pub right: Option<Box<NodeView>>,
}

/// A childless tree holding one token.
pub open spec fn leaf_of(t: TokenView) -> NodeView {
    NodeView { data: t, left: None, right: None }
}

/// The mathematical image of an expression tree.
pub open spec fn node_view(n: Node<Token>) -> NodeView
    decreases n,
{
    NodeView {
        data: n.data@,
        left: match n.left {
            Some(b) => Some(Box::new(node_view(*b))),
            None => None,
        },
        right: match n.right {
            Some(b) => Some(Box::new(node_view(*b))),
            None => None,
        },
    }
}

/// The tree that parsing `toks[lo..hi)` builds, or the first fault:
/// brackets are validated and a matching outer pair stripped; a single
/// token must be a number or a variable; two tokens must be a unary sign
/// before a number, a minus folding into the literal's text; otherwise
/// the scanned operator splits the slice, where an operator butted
/// against one of `+ - * /` on its left is either re-read as a unary
/// sign (if it is `+` or `-`) or refused as `InvalidOperator`.
pub open spec fn spec_parse(toks: Seq<TokenView>, lo: int, hi: int) -> Result<NodeView, ErrView>
    decreases hi - lo,
{
    match spec_check_brackets(toks, lo, hi) {
        Err(e) => Err(e),
        Ok(range) => {
            let l = range.0;
            let h = range.1;
            if h - l == 1 {
                let t = toks[l];
                if t.value is Number || t.value is Variable {
                    Ok(leaf_of(t))
                } else {
                    Err(ErrView { kind: ErrType::InvalidFormula, lo: t.lo, hi: t.hi })
                }
            } else if h - l == 2 {
                let t0 = toks[l];
                let t1 = toks[l + 1];
                if t0.value is Plus {
                    match t1.value {
                        TokenKindView::Number(_) => Ok(leaf_of(t1)),
                        _ => Err(ErrView { kind: ErrType::InvalidFormula, lo: t1.lo, hi: t1.hi }),
                    }
                } else if t0.value is Minus {
                    match t1.value {
                        TokenKindView::Number(tx) => Ok(
                            leaf_of(
                                TokenView {
                                    value: TokenKindView::Number(seq!['-'] + tx),
                                    lo: t1.lo,
                                    hi: t1.hi,
                                },
                            ),
                        ),
                        _ => Err(ErrView { kind: ErrType::InvalidFormula, lo: t1.lo, hi: t1.hi }),
                    }
                } else {
                    Err(ErrView { kind: ErrType::InvalidFormula, lo: t0.lo, hi: t0.hi })
                }
            } else {
                match spec_scan_op(toks, l, h) {
                    None => Err(no_op_err(toks, l, h)),
                    Some(sel) => {
                        let t = sel.0;
                        if spec_is_alsoperator(toks[t - 1].value) && !(toks[t].value is Plus
                            || toks[t].value is Minus) {
                            Err(ErrView { kind: ErrType::InvalidOperator, lo: toks[t].lo, hi: toks[t].hi })
                        } else {
                            let t2 = if spec_is_alsoperator(toks[t - 1].value) {
                                t - 1
                            } else {
                                t
                            };
                            proof {
                                lemma_scan_op_bounds(toks, l, h);
                            }
                            match spec_parse(toks, l, t2) {
                                Err(e) => Err(e),
                                Ok(lt) => match spec_parse(toks, t2 + 1, h) {
                                    Err(e) => Err(e),
                                    Ok(rt) => Ok(
                                        NodeView {
                                            data: toks[t2],
                                            left: Some(Box::new(lt)),
                                            right: Some(Box::new(rt)),
                                        },
                                    ),
                                },
                            }
                        }
                    },
                }
            }
        },
    }
}

} // verus!

verus! {

/// A token equal to `t` in kind, text and span.
fn clone_token(t: &Token) -> (r: Token)
    ensures
        r@ == t@,
{
    let value = match &t.value {
        TokenKind::Number(s) => TokenKind::Number(s.clone()),
        TokenKind::Variable(s) => TokenKind::Variable(s.clone()),
        TokenKind::Plus => TokenKind::Plus,
        TokenKind::Minus => TokenKind::Minus,
        TokenKind::Mul => TokenKind::Mul,
        TokenKind::Div => TokenKind::Div,
        TokenKind::Mod => TokenKind::Mod,
        TokenKind::Equal => TokenKind::Equal,
        TokenKind::LParen => TokenKind::LParen,
        TokenKind::RParen => TokenKind::RParen,
    };
    Token { value, loc: t.loc }
}

/// Builds the expression tree for `tokens[lo..hi)` exactly as
/// `spec_parse` states, or reports that fault.
fn parser(tokens: &[Token], lo: usize, hi: usize) -> (r: Result<Node<Token>, FormulaErr>)
    requires
        lo <= hi <= tokens@.len(),
    ensures
        spec_parse(views_of(tokens@), lo as int, hi as int) matches Ok(nv) ==> r matches Ok(node)
            && node_view(node) == nv,
        spec_parse(views_of(tokens@), lo as int, hi as int) matches Err(e) ==> r matches Err(fe)
            && matches_err(fe, e),
    decreases hi - lo,
{
    let ghost v = views_of(tokens@);
    let (l, h) = match check_brackets(tokens, lo, hi) {
        Ok(p) => p,
        Err(e) => {
            return Err(e);
        },
    };
    proof {
        assert((l as int == lo as int && h as int == hi as int) || (l as int == lo as int + 1 && h
            as int == hi as int - 1));
    }
    if h - l == 1 {
        let token = &tokens[l];
        if TokenKind::is_value(&token.value) {
            return Ok(Node::new(clone_token(token)));
        } else {
            return Err(
                FormulaErr::new(
                    ErrType::InvalidFormula,
                    "a value is expected, but another token is found",
                    token.loc,
                ),
            );
        }
    } else if h - l == 2 {
        let t0 = &tokens[l];
        let t1 = &tokens[l + 1];
        match &t0.value {
            TokenKind::Plus => {
                match &t1.value {
                    TokenKind::Number(_) => {
                        return Ok(Node::new(clone_token(t1)));
                    },
                    _ => {
                        return Err(
                            FormulaErr::new(
                                ErrType::InvalidFormula,
                                "a number is expected, but another token is found",
                                t1.loc,
                            ),
                        );
                    },
                }
            },
            TokenKind::Minus => {
                match &t1.value {
                    TokenKind::Number(s) => {
                        let neg = ("-".to_owned()).concat(s.as_str());
                        proof {
                            reveal_strlit("-");
                            assert("-"@ =~= seq!['-']);
                        }
                        return Ok(
                            Node::new(Token { value: TokenKind::Number(neg), loc: t1.loc }),
                        );
                    },
                    _ => {
                        return Err(
                            FormulaErr::new(
                                ErrType::InvalidFormula,
                                "a number is expected, but another token is found",
                                t1.loc,
                            ),
                        );
                    },
                }
            },
            _ => {
                return Err(
                    FormulaErr::new(
                        ErrType::InvalidFormula,
                        "a unary sign is expected, but another token is found",
                        t0.loc,
                    ),
                );
            },
        }
    }
    // Scan for the rightmost loosest operator at parenthesis depth zero.
    let mut found = false;
    let mut target: usize = 0;
    let mut priority: u8 = 0;
    let mut opens: usize = 0;
    let mut closes: usize = 0;
    let mut i = l;
    while i < h
        invariant
            lo <= l <= i <= h <= hi <= tokens@.len(),
            v == views_of(tokens@),
            opens + closes <= i - l,
            opens as int - closes as int == paren_balance(v, l as int, i as int),
            if found {
                spec_scan_op(v, l as int, i as int) == Some((target as int, priority))
            } else {
                spec_scan_op(v, l as int, i as int) is None
            },
            found ==> l < target < i,
        decreases h - i,
    {
        if i > l && opens == closes {
            match TokenKind::ope_priority(&tokens[i].value) {
                Some(p) => {
                    if !found || p >= priority {
                        found = true;
                        priority = p;
                        target = i;
                    }
                },
                None => {},
            }
        }
        match &tokens[i].value {
            TokenKind::LParen => {
                opens = opens + 1;
            },
            TokenKind::RParen => {
                closes = closes + 1;
            },
            _ => {},
        }
        proof {
            assert(paren_balance(v, l as int, i + 1) == paren_balance(v, l as int, i as int)
                + paren_delta(v[i as int].value));
        }
        i = i + 1;
    }
    if !found {
        let e_loc = if h == l {
            Loc(0, 0)
        } else {
            let e_lo = match &tokens[l].value {
                TokenKind::LParen | TokenKind::RParen => 0,
                _ => tokens[l].loc.0,
            };
            Loc(e_lo, tokens[h - 1].loc.1)
        };
        return Err(
            FormulaErr::new(ErrType::InvalidFormula, "required operator is not found", e_loc),
        );
    }
    // An operator butted against one of `+ - * /` on its left is either a
    // unary sign (shift the split one step left) or a fault.
    let t2: usize;
    if TokenKind::is_alsoperator(&tokens[target - 1].value) {
        match &tokens[target].value {
            TokenKind::Plus | TokenKind::Minus => {
                t2 = target - 1;
            },
            _ => {
                return Err(
                    FormulaErr::new(
                        ErrType::InvalidOperator,
                        "invalid operator is found",
                        tokens[target].loc,
                    ),
                );
            },
        }
    } else {
        t2 = target;
    }
    proof {
        lemma_scan_op_bounds(v, l as int, h as int);
    }
    let mut node = Node::new(clone_token(&tokens[t2]));
    let left = match parser(tokens, l, t2) {
        Ok(n) => n,
        Err(e) => {
            return Err(e);
        },
    };
    let right = match parser(tokens, t2 + 1, h) {
        Ok(n) => n,
        Err(e) => {
            return Err(e);
        },
    };
    match node.add_node_left(left) {
        Ok(_) => {},
        Err(_) => {
            return unreached();
        },
    }
    match node.add_node_right(right) {
        Ok(_) => {},
        Err(_) => {
            return unreached();
        },
    }
    Ok(node)
}

} // verus!

verus! {

// ---------------------------------------------------------------------
// The calculator: parsing entry points and variable substitution
// ---------------------------------------------------------------------

/// The whole front half of the pipeline: lexing the source bytes, then
/// parsing the tokens into a tree.
pub open spec fn spec_parse_source(s: Seq<u8>) -> Result<NodeView, ErrView> {
    match spec_lex_from(s, 0) {
        Err(e) => Err(e),
        Ok(tvs) => spec_parse(tvs, 0, tvs.len() as int),
    }
}

/// The mathematical image of an optional tree.
pub open spec fn tree_view_opt(t: Option<Node<Token>>) -> Option<NodeView> {
    match t {
        Some(n) => Some(node_view(n)),
        None => None,
    }
}

/// Builds an expression tree from a source line and evaluates it; the
/// tree and the source text live from one `parse` to the next.
#[derive(Debug)]
pub struct FormulaCalculator {
    /// The parsed expression tree, absent before the first `parse`.
    pub tree: Option<Node<Token>>,
    /// The source text of the last `parse`, kept for fault reports.
    pub formula_str: String,
}

/// Every variable bound in `m` becomes a number token holding the bound
/// value text, in place; unbound variables stay untouched.
pub open spec fn spec_substitute(nv: NodeView, m: Map<Seq<char>, Seq<char>>) -> NodeView
    decreases nv,
{
    NodeView {
        data: match nv.data.value {
            TokenKindView::Variable(name) => if m.contains_key(name) {
                TokenView { value: TokenKindView::Number(m[name]), lo: nv.data.lo, hi: nv.data.hi }
            } else {
                nv.data
            },
            _ => nv.data,
        },
        left: match nv.left {
            Some(b) => Some(Box::new(spec_substitute(*b, m))),
            None => None,
        },
        right: match nv.right {
            Some(b) => Some(Box::new(spec_substitute(*b, m))),
            None => None,
        },
    }
}

/// Rewrites every pool-bound variable under `n` to a number token, in a
/// pre-order walk: the node itself, then the left and right subtrees.
fn subst_node(n: &mut Node<Token>, vars: &VarPool)
    requires
        vars.wf(),
    ensures
        node_view(*final(n)) == spec_substitute(node_view(*old(n)), vars@),
    decreases *old(n),
{
    let replacement = match &n.data.value {
        TokenKind::Variable(name) => vars.get(name),
        _ => None,
    };
    match replacement {
        Some(text) => {
            n.data = Token { value: TokenKind::Number(text), loc: n.data.loc };
        },
        None => {},
    }
    match &mut n.left {
        Some(b) => {
            subst_node(&mut **b, vars);
        },
        None => {},
    }
    match &mut n.right {
        Some(b) => {
            subst_node(&mut **b, vars);
        },
        None => {},
    }
}

impl FormulaCalculator {
    /// A calculator with no tree and no source text yet.
    pub fn new() -> (r: Self)
        ensures
            r.tree is None,
            r.formula_str@ == Seq::<char>::empty(),
    {
        FormulaCalculator { tree: None, formula_str: String::new() }
    }

    /// Lexes and parses `formula` and stores the tree, or reports the
    /// first fault with the formula text attached; the source text is
    /// remembered either way.
    pub fn parse(&mut self, formula: &str) -> (r: Result<(), FormulaErr>)
        ensures
            final(self).formula_str@ == formula@,
            spec_parse_source(formula.spec_bytes()) matches Ok(nv) ==> r is Ok
                && (final(self).tree matches Some(t) && node_view(t) == nv),
            spec_parse_source(formula.spec_bytes()) matches Err(e) ==> r matches Err(fe)
                && matches_err(fe, e) && fe.formula@ == formula@
                && final(self).tree == old(self).tree,
    {
        self.formula_str = formula.to_owned();
        match lexer(formula) {
            Ok(tokens) => {
                match parser(tokens.as_slice(), 0, tokens.len()) {
                    Ok(tree) => {
                        self.tree = Some(tree);
                        Ok(())
                    },
                    Err(e) => {
                        let fe = FormulaErr {
                            formula: formula.to_owned(),
                            err_type: e.err_type,
                            err_msg: e.err_msg,
                            loc: e.loc,
                        };
                        Err(fe)
                    },
                }
            },
            Err(e) => {
                let fe = FormulaErr {
                    formula: formula.to_owned(),
                    err_type: e.err_type,
                    err_msg: e.err_msg,
                    loc: e.loc,
                };
                Err(fe)
            },
        }
    }

    /// A fresh calculator that has parsed `formula`, or the first fault.
    pub fn set_formula(formula: &str) -> (r: Result<Self, FormulaErr>)
        ensures
            spec_parse_source(formula.spec_bytes()) matches Ok(nv) ==> r matches Ok(f)
                && f.tree matches Some(t) && node_view(t) == nv && f.formula_str@ == formula@,
            spec_parse_source(formula.spec_bytes()) matches Err(e) ==> r matches Err(fe)
                && matches_err(fe, e) && fe.formula@ == formula@,
    {
        let mut f = Self::new();
        match f.parse(formula) {
            Ok(_) => Ok(f),
            Err(e) => Err(e),
        }
    }

    /// Substitutes pool-bound variables throughout the given tree, or
    /// reports `EmptyFormula` when there is no tree to walk.
    pub fn replace_variable(node: Option<&mut Node<Token>>, vars: &VarPool) -> (r: Result<
        (),
        FormulaErr,
    >)
        requires
            vars.wf(),
        ensures
            node matches Some(n) ==> r is Ok && node_view(*final(n)) == spec_substitute(
                node_view(*n),
                vars@,
            ),
            node is None ==> (r matches Err(fe) && matches_err(
                fe,
                ErrView { kind: ErrType::EmptyFormula, lo: 0, hi: 0 },
            )),
    {
        match node {
            Some(n) => {
                subst_node(n, vars);
                Ok(())
            },
            None => Err(
                FormulaErr::new(ErrType::EmptyFormula, "empty formula is found", Loc(0, 0)),
            ),
        }
    }
}

} // verus!

verus! {

// ---------------------------------------------------------------------
// Evaluation
// ---------------------------------------------------------------------

/// One of the five binary arithmetic operations the evaluator asks its
/// caller to perform on IEEE-754 double bit patterns.
#[derive(Debug, Clone, Copy, PartialEq, Eq, Structural)]
pub enum BinOp {
    /// Addition.
    Add,
    /// Subtraction.
    Sub,
    /// Multiplication.
    Mul,
    /// Division.
    Div,
    /// Remainder.
    Mod,
}

/// The operation an operator token stands for.
pub open spec fn op_of_kind(k: TokenKindView) -> BinOp {
    if k is Plus {
        BinOp::Add
    } else if k is Minus {
        BinOp::Sub
    } else if k is Mul {
        BinOp::Mul
    } else if k is Div {
        BinOp::Div
    } else {
        BinOp::Mod
    }
}

/// The two IEEE-754 double bit patterns that compare equal to zero:
/// positive and negative zero.
pub open spec fn is_zero_bits(b: u64) -> bool {
    b == 0u64 || b == 0x8000_0000_0000_0000u64
}

/// Whether `b` is one of the two zero bit patterns.
pub fn bits_are_zero(b: u64) -> (r: bool)
    ensures
        r == is_zero_bits(b),
{
    b == 0 || b == 0x8000_0000_0000_0000
}

/// The arithmetic callback gives every call on equal arguments an equal
/// answer.
pub open spec fn ops_deterministic<FO: Fn(BinOp, u64, u64) -> u64>(ops: FO) -> bool {
    forall|o: BinOp, a: u64, b: u64, v1: u64, v2: u64|
        #![trigger call_ensures(ops, (o, a, b), v1), call_ensures(ops, (o, a, b), v2)]
        call_ensures(ops, (o, a, b), v1) && call_ensures(ops, (o, a, b), v2) ==> v1 == v2
}

/// The literal-reading callback answers by the text alone.
pub open spec fn parse_deterministic<FP: Fn(String) -> u64>(f: FP) -> bool {
    forall|s1: String, s2: String, v1: u64, v2: u64|
        #![trigger call_ensures(f, (s1,), v1), call_ensures(f, (s2,), v2)]
        s1@ == s2@ && call_ensures(f, (s1,), v1) && call_ensures(f, (s2,), v2) ==> v1 == v2
}

/// The value-writing callback gives every call on one value one text.
pub open spec fn render_deterministic<FR: Fn(u64) -> String>(f: FR) -> bool {
    forall|b: u64, s1: String, s2: String|
        #![trigger call_ensures(f, (b,), s1), call_ensures(f, (b,), s2)]
        call_ensures(f, (b,), s1) && call_ensures(f, (b,), s2) ==> s1@ == s2@
}

/// What the arithmetic callback answers for `o` on `a` and `b`.
pub open spec fn op_val<FO: Fn(BinOp, u64, u64) -> u64>(ops: FO, o: BinOp, a: u64, b: u64) -> u64 {
    choose|r: u64| call_ensures(ops, (o, a, b), r)
}

/// Whether some text equal to `tx` can make the literal-reading
/// callback answer `r`.
pub open spec fn parse_answers<FP: Fn(String) -> u64>(f: FP, tx: Seq<char>, r: u64) -> bool {
    exists|s: String| s@ == tx && #[trigger] call_ensures(f, (s,), r)
}

/// What the literal-reading callback answers for the text `tx`.
pub open spec fn num_val<FP: Fn(String) -> u64>(f: FP, tx: Seq<char>) -> u64 {
    choose|r: u64| parse_answers(f, tx, r)
}

/// Whether the value-writing callback can answer the text `tx` for `b`.
pub open spec fn render_answers<FR: Fn(u64) -> String>(f: FR, b: u64, tx: Seq<char>) -> bool {
    exists|s: String| s@ == tx && #[trigger] call_ensures(f, (b,), s)
}

/// The text the value-writing callback answers for `b`.
pub open spec fn render_val<FR: Fn(u64) -> String>(f: FR, b: u64) -> Seq<char> {
    choose|tx: Seq<char>| render_answers(f, b, tx)
}

/// The value of a substituted tree, or the first fault in evaluation
/// order: `+ - *` compute left then right; `/ %` compute the right
/// operand first and refuse a zero divisor at the operator's span before
/// looking left; a surviving variable is `UndefinedVariable`; a missing
/// child is `InvalidTree`; an `=` or parenthesis inside is no formula.
pub open spec fn spec_calculate<FO: Fn(BinOp, u64, u64) -> u64, FP: Fn(String) -> u64>(
    ops: FO,
    parse_num: FP,
    nv: NodeView,
) -> Result<u64, ErrView>
    decreases nv,
{
    let k = nv.data.value;
    if k is Number {
        Ok(num_val(parse_num, k->Number_0))
    } else if k is Variable {
        Err(ErrView { kind: ErrType::UndefinedVariable, lo: nv.data.lo, hi: nv.data.hi })
    } else if k is Plus || k is Minus || k is Mul {
        match nv.left {
            None => Err(ErrView { kind: ErrType::InvalidTree, lo: 0, hi: 0 }),
            Some(lb) => match spec_calculate(ops, parse_num, *lb) {
                Err(e) => Err(e),
                Ok(a) => match nv.right {
                    None => Err(ErrView { kind: ErrType::InvalidTree, lo: 0, hi: 0 }),
                    Some(rb) => match spec_calculate(ops, parse_num, *rb) {
                        Err(e) => Err(e),
                        Ok(b) => Ok(op_val(ops, op_of_kind(k), a, b)),
                    },
                },
            },
        }
    } else if k is Div || k is Mod {
        match nv.right {
            None => Err(ErrView { kind: ErrType::InvalidTree, lo: 0, hi: 0 }),
            Some(rb) => match spec_calculate(ops, parse_num, *rb) {
                Err(e) => Err(e),
                Ok(b) => if is_zero_bits(b) {
                    Err(ErrView { kind: ErrType::ZeroDiv, lo: nv.data.lo, hi: nv.data.hi })
                } else {
                    match nv.left {
                        None => Err(ErrView { kind: ErrType::InvalidTree, lo: 0, hi: 0 }),
                        Some(lb) => match spec_calculate(ops, parse_num, *lb) {
                            Err(e) => Err(e),
                            Ok(a) => Ok(op_val(ops, op_of_kind(k), a, b)),
                        },
                    }
                },
            },
        }
    } else {
        Err(ErrView { kind: ErrType::InvalidFormula, lo: 0, hi: 0 })
    }
}

/// The operation tag of an operator token.
fn op_tag(k: &TokenKind) -> (r: BinOp)
    requires
        k@ is Plus || k@ is Minus || k@ is Mul || k@ is Div || k@ is Mod,
    ensures
        r == op_of_kind(k@),
{
    match k {
        TokenKind::Plus => BinOp::Add,
        TokenKind::Minus => BinOp::Sub,
        TokenKind::Mul => BinOp::Mul,
        TokenKind::Div => BinOp::Div,
        _ => BinOp::Mod,
    }
}

/// Computes the value of one tree node exactly as `spec_calculate`
/// states, asking the callbacks for the arithmetic.
fn calculate_node<FO: Fn(BinOp, u64, u64) -> u64 + Copy, FP: Fn(String) -> u64 + Copy>(
    n: &Node<Token>,
    ops: FO,
    parse_num: FP,
) -> (r: Result<u64, FormulaErr>)
    requires
        forall|o: BinOp, a: u64, b: u64| #[trigger] call_requires(ops, (o, a, b)),
        forall|s: String| #[trigger] call_requires(parse_num, (s,)),
        ops_deterministic(ops),
        parse_deterministic(parse_num),
    ensures
        spec_calculate(ops, parse_num, node_view(*n)) matches Ok(val) ==> (r matches Ok(x) && x
            == val),
        spec_calculate(ops, parse_num, node_view(*n)) matches Err(e) ==> (r matches Err(fe)
            && matches_err(fe, e)),
    decreases *n,
{
    match &n.data.value {
        TokenKind::Number(s) => {
            let text = s.clone();
            let val = parse_num(text);
            proof {
                assert(call_ensures(parse_num, (*s,), val));
                assert(parse_answers(parse_num, s@, val));
                let c = num_val(parse_num, s@);
                assert(parse_answers(parse_num, s@, c));
                let s2 = choose|s2: String| s2@ == s@ && #[trigger] call_ensures(
                    parse_num,
                    (s2,),
                    c,
                );
                assert(call_ensures(parse_num, (s2,), c));
                assert(c == val);
            }
            Ok(val)
        },
        TokenKind::Variable(_) => Err(
            FormulaErr::new(ErrType::UndefinedVariable, "undefined variable is found", n.data.loc),
        ),
        TokenKind::Plus | TokenKind::Minus | TokenKind::Mul => {
            let o = op_tag(&n.data.value);
            match &n.left {
                None => Err(FormulaErr::new(ErrType::InvalidTree, "invalid tree", Loc(0, 0))),
                Some(lb) => {
                    let a = match calculate_node(&**lb, ops, parse_num) {
                        Ok(x) => x,
                        Err(e) => {
                            return Err(e);
                        },
                    };
                    match &n.right {
                        None => Err(
                            FormulaErr::new(ErrType::InvalidTree, "invalid tree", Loc(0, 0)),
                        ),
                        Some(rb) => {
                            let b = match calculate_node(&**rb, ops, parse_num) {
                                Ok(x) => x,
                                Err(e) => {
                                    return Err(e);
                                },
                            };
                            let val = ops(o, a, b);
                            proof {
                                assert(call_ensures(ops, (o, a, b), val));
                                assert(op_val(ops, o, a, b) == val);
                            }
                            Ok(val)
                        },
                    }
                },
            }
        },
        TokenKind::Div | TokenKind::Mod => {
            let o = op_tag(&n.data.value);
            match &n.right {
                None => Err(FormulaErr::new(ErrType::InvalidTree, "invalid tree", Loc(0, 0))),
                Some(rb) => {
                    let b = match calculate_node(&**rb, ops, parse_num) {
                        Ok(x) => x,
                        Err(e) => {
                            return Err(e);
                        },
                    };
                    if bits_are_zero(b) {
                        return Err(
                            FormulaErr::new(ErrType::ZeroDiv, "divided by zero", n.data.loc),
                        );
                    }
                    match &n.left {
                        None => Err(
                            FormulaErr::new(ErrType::InvalidTree, "invalid tree", Loc(0, 0)),
                        ),
                        Some(lb) => {
                            let a = match calculate_node(&**lb, ops, parse_num) {
                                Ok(x) => x,
                                Err(e) => {
                                    return Err(e);
                                },
                            };
                            let val = ops(o, a, b);
                            proof {
                                assert(call_ensures(ops, (o, a, b), val));
                                assert(op_val(ops, o, a, b) == val);
                            }
                            Ok(val)
                        },
                    }
                },
            }
        },
        _ => Err(FormulaErr::new(ErrType::InvalidFormula, "unexpected token", Loc(0, 0))),
    }
}

impl FormulaCalculator {
    /// Computes the value of the given subtree (absent: `InvalidTree`),
    /// asking the callbacks for the arithmetic on double bit patterns.
    pub fn calculate<FO: Fn(BinOp, u64, u64) -> u64 + Copy, FP: Fn(String) -> u64 + Copy>(
        node: Option<&Node<Token>>,
        ops: FO,
        parse_num: FP,
    ) -> (r: Result<u64, FormulaErr>)
        requires
            forall|o: BinOp, a: u64, b: u64| #[trigger] call_requires(ops, (o, a, b)),
            forall|s: String| #[trigger] call_requires(parse_num, (s,)),
            ops_deterministic(ops),
            parse_deterministic(parse_num),
        ensures
            node matches Some(n) ==> {
                &&& spec_calculate(ops, parse_num, node_view(*n)) matches Ok(val) ==> (r matches Ok(
                    x,
                ) && x == val)
                &&& spec_calculate(ops, parse_num, node_view(*n)) matches Err(e) ==> (r matches Err(
                    fe,
                ) && matches_err(fe, e))
            },
            node is None ==> (r matches Err(fe) && matches_err(
                fe,
                ErrView { kind: ErrType::InvalidTree, lo: 0, hi: 0 },
            )),
    {
        match node {
            Some(n) => calculate_node(n, ops, parse_num),
            None => Err(FormulaErr::new(ErrType::InvalidTree, "invalid tree", Loc(0, 0))),
        }
    }
}

} // verus!

verus! {

/// The binding that evaluating a tree against the pool map `m` yields,
/// or the first fault: an `=` at the root substitutes and computes its
/// right side and demands a bare variable on its left; a number,
/// variable or `+ - * /` root substitutes and computes the whole tree
/// for the implicit name `ans`; any other root shape is no formula; no
/// tree at all is `NoTree`.
pub open spec fn spec_calc_root<FO: Fn(BinOp, u64, u64) -> u64, FP: Fn(String) -> u64>(
    ops: FO,
    parse_num: FP,
    tree: Option<NodeView>,
    m: Map<Seq<char>, Seq<char>>,
) -> Result<(Seq<char>, u64), ErrView> {
    match tree {
        None => Err(ErrView { kind: ErrType::NoTree, lo: 0, hi: 0 }),
        Some(nv) => {
            let k = nv.data.value;
            if k is Equal {
                match nv.right {
                    None => Err(ErrView { kind: ErrType::EmptyFormula, lo: 0, hi: 0 }),
                    Some(rb) => match spec_calculate(ops, parse_num, spec_substitute(*rb, m)) {
                        Err(e) => Err(e),
                        Ok(val) => match nv.left {
                            None => Err(
                                ErrView { kind: ErrType::InvalidFormula, lo: nv.data.lo, hi: nv.data.hi },
                            ),
                            Some(lb) => match lb.data.value {
                                TokenKindView::Variable(name) => Ok((name, val)),
                                _ => Err(
                                    ErrView {
                                        kind: ErrType::InvalidFormula,
                                        lo: nv.data.lo,
                                        hi: nv.data.hi,
                                    },
                                ),
                            },
                        },
                    },
                }
            } else if k is Number || k is Variable || k is Plus || k is Minus || k is Mul
                || k is Div {
                match spec_calculate(ops, parse_num, spec_substitute(nv, m)) {
                    Err(e) => Err(e),
                    Ok(val) => Ok(("ans"@, val)),
                }
            } else {
                Err(ErrView { kind: ErrType::InvalidFormula, lo: nv.data.lo, hi: nv.data.hi })
            }
        },
    }
}

/// How evaluation leaves the stored tree: an `=` root has had its right
/// subtree substituted, an ordinary root the whole tree; a faulty root
/// shape and an absent tree stay as they were.
pub open spec fn spec_calc_tree_after(tree: Option<NodeView>, m: Map<Seq<char>, Seq<char>>) -> Option<
    NodeView,
> {
    match tree {
        None => None,
        Some(nv) => {
            let k = nv.data.value;
            if k is Equal {
                match nv.right {
                    None => Some(nv),
                    Some(rb) => Some(
                        NodeView {
                            data: nv.data,
                            left: nv.left,
                            right: Some(Box::new(spec_substitute(*rb, m))),
                        },
                    ),
                }
            } else if k is Number || k is Variable || k is Plus || k is Minus || k is Mul
                || k is Div {
                Some(spec_substitute(nv, m))
            } else {
                Some(nv)
            }
        },
    }
}

impl FormulaCalculator {
    /// Evaluates the stored tree against the pool, leaving substituted
    /// values in the tree, exactly as `spec_calc_root` states.
    fn calc_root<
        FO: Fn(BinOp, u64, u64) -> u64 + Copy,
        FP: Fn(String) -> u64 + Copy,
        FR: Fn(u64) -> String + Copy,
    >(&mut self, vars: &VarPool, ops: FO, parse_num: FP, render: FR) -> (r: Result<
        VarData,
        FormulaErr,
    >)
        requires
            vars.wf(),
            forall|o: BinOp, a: u64, b: u64| #[trigger] call_requires(ops, (o, a, b)),
            forall|s: String| #[trigger] call_requires(parse_num, (s,)),
            forall|b: u64| #[trigger] call_requires(render, (b,)),
            ops_deterministic(ops),
            parse_deterministic(parse_num),
            render_deterministic(render),
        ensures
            final(self).formula_str == old(self).formula_str,
            tree_view_opt(final(self).tree) == spec_calc_tree_after(
                tree_view_opt(old(self).tree),
                vars@,
            ),
            spec_calc_root(ops, parse_num, tree_view_opt(old(self).tree), vars@) matches Ok(p)
                ==> (r matches Ok(dat) && dat.0@ == p.0 && dat.1@ == render_val(render, p.1)),
            spec_calc_root(ops, parse_num, tree_view_opt(old(self).tree), vars@) matches Err(e)
                ==> (r matches Err(fe) && matches_err(fe, e)),
    {
        match &mut self.tree {
            Some(n) => {
                match &n.data.value {
                    TokenKind::Equal => {
                        let ghost old_n: Node<Token> = old(self).tree->0;
                        let ghost old_nv = node_view(old_n);
                        let ans = match &mut n.right {
                            None => {
                                return Err(
                                    FormulaErr::new(
                                        ErrType::EmptyFormula,
                                        "empty formula is found",
                                        Loc(0, 0),
                                    ),
                                );
                            },
                            Some(rb) => {
                                proof {
                                    assert(old_nv.right matches Some(orb) && *orb == node_view(
                                        **rb,
                                    ));
                                }
                                subst_node(&mut **rb, vars);
                                proof {
                                    assert(old_nv.right matches Some(orb) && node_view(**rb)
                                        == spec_substitute(*orb, vars@));
                                }
                                let v = match calculate_node(&**rb, ops, parse_num) {
                                    Ok(v) => v,
                                    Err(e) => {
                                        return Err(e);
                                    },
                                };
                                proof {
                                    assert(spec_calculate(
                                        ops,
                                        parse_num,
                                        spec_substitute(*old_nv.right->0, vars@),
                                    ) == Ok::<u64, ErrView>(v));
                                }
                                v
                            },
                        };
                        proof {
                            assert(node_view(*n) == spec_calc_tree_after(
                                tree_view_opt(old(self).tree),
                                vars@,
                            )->0);
                        }
                        match &n.left {
                            Some(lb) => {
                                match &lb.data.value {
                                    TokenKind::Variable(v) => {
                                        proof {
                                            assert(node_view(*n).left == old_nv.left);
                                            assert(n.left matches Some(b) && node_view(*n).left
                                                matches Some(bv) && *bv == node_view(*b));
                                            assert(n.left matches Some(b) && node_view(
                                                *b,
                                            ).data.value == TokenKindView::Variable(v@));
                                            assert(old_nv.left matches Some(olb)
                                                && olb.data.value matches TokenKindView::Variable(
                                                nm,
                                            ) && nm == v@);
                                        }
                                        let name = v.clone();
                                        let text = render(ans);
                                        proof {
                                            assert(call_ensures(render, (ans,), text));
                                            assert(render_answers(render, ans, text@));
                                            let ctx = render_val(render, ans);
                                            assert(render_answers(render, ans, ctx));
                                            let s2 = choose|s2: String|
                                                s2@ == ctx && #[trigger] call_ensures(
                                                    render,
                                                    (ans,),
                                                    s2,
                                                );
                                            assert(call_ensures(render, (ans,), s2));
                                            assert(ctx == text@);
                                            let res = spec_calc_root(
                                                ops,
                                                parse_num,
                                                tree_view_opt(old(self).tree),
                                                vars@,
                                            );
                                            assert(res is Ok);
                                            assert(res->Ok_0.0 == name@);
                                            assert(res->Ok_0.1 == ans);
                                        }
                                        Ok(VarData(name, text))
                                    },
                                    _ => Err(
                                        FormulaErr::new(
                                            ErrType::InvalidFormula,
                                            "= is found, but left term is not a variable",
                                            n.data.loc,
                                        ),
                                    ),
                                }
                            },
                            None => Err(
                                FormulaErr::new(
                                    ErrType::InvalidFormula,
                                    "= is found, but left term is absent",
                                    n.data.loc,
                                ),
                            ),
                        }
                    },
                    TokenKind::Number(_) | TokenKind::Variable(_) | TokenKind::Plus
                        | TokenKind::Minus | TokenKind::Mul | TokenKind::Div => {
                        subst_node(n, vars);
                        let ans = match calculate_node(&*n, ops, parse_num) {
                            Ok(v) => v,
                            Err(e) => {
                                return Err(e);
                            },
                        };
                        let text = render(ans);
                        proof {
                            assert(call_ensures(render, (ans,), text));
                            assert(render_answers(render, ans, text@));
                            let ctx = render_val(render, ans);
                            assert(render_answers(render, ans, ctx));
                            let s2 = choose|s2: String|
                                s2@ == ctx && #[trigger] call_ensures(render, (ans,), s2);
                            assert(call_ensures(render, (ans,), s2));
                            assert(ctx == text@);
                            let res = spec_calc_root(
                                ops,
                                parse_num,
                                tree_view_opt(old(self).tree),
                                vars@,
                            );
                            assert(res is Ok);
                            assert(res->Ok_0.1 == ans);
                        }
                        Ok(VarData("ans".to_owned(), text))
                    },
                    _ => Err(
                        FormulaErr::new(ErrType::InvalidFormula, "invalid formula", n.data.loc),
                    ),
                }
            },
            None => Err(
                FormulaErr::new(ErrType::NoTree, "can not calculate an empty tree", Loc(0, 0)),
            ),
        }
    }

    /// Evaluates the stored tree against the pool: the binding to store
    /// (named `ans` for a plain expression, the target for an `=`), or
    /// the first fault with the formula text attached. The caller does
    /// the double arithmetic: `ops` combines two IEEE-754 bit patterns,
    /// `parse_num` reads a literal's text, `render` writes a value back
    /// as text; each must answer by its arguments alone.
    pub fn calc<
        FO: Fn(BinOp, u64, u64) -> u64 + Copy,
        FP: Fn(String) -> u64 + Copy,
        FR: Fn(u64) -> String + Copy,
    >(&mut self, vers: &VarPool, ops: FO, parse_num: FP, render: FR) -> (r: Result<
        VarData,
        FormulaErr,
    >)
        requires
            vers.wf(),
            forall|o: BinOp, a: u64, b: u64| #[trigger] call_requires(ops, (o, a, b)),
            forall|s: String| #[trigger] call_requires(parse_num, (s,)),
            forall|b: u64| #[trigger] call_requires(render, (b,)),
            ops_deterministic(ops),
            parse_deterministic(parse_num),
            render_deterministic(render),
        ensures
            final(self).formula_str == old(self).formula_str,
            tree_view_opt(final(self).tree) == spec_calc_tree_after(
                tree_view_opt(old(self).tree),
                vers@,
            ),
            spec_calc_root(ops, parse_num, tree_view_opt(old(self).tree), vers@) matches Ok(p)
                ==> (r matches Ok(dat) && dat.0@ == p.0 && dat.1@ == render_val(render, p.1)),
            spec_calc_root(ops, parse_num, tree_view_opt(old(self).tree), vers@) matches Err(e)
                ==> (r matches Err(fe) && matches_err(fe, e) && fe.formula@ == old(
                self,
            ).formula_str@),
    {
        match self.calc_root(vers, ops, parse_num, render) {
            Ok(dat) => Ok(dat),
            Err(e) => {
                let fe = FormulaErr {
                    formula: self.formula_str.clone(),
                    err_type: e.err_type,
                    err_msg: e.err_msg,
                    loc: e.loc,
                };
                Err(fe)
            },
        }
    }
}

/// Anything that holds a formula's text and can parse itself.
pub trait Formula {
    /// The formula text this value holds.
    spec fn formula_text(&self) -> Seq<char>;

    /// A fresh calculator that has parsed this value's text.
    fn to_formula(&self) -> (r: Result<FormulaCalculator, FormulaErr>)
        ensures
            spec_parse_source(vstd::utf8::encode_utf8(self.formula_text())) matches Ok(nv) ==> (
            r matches Ok(f) && (f.tree matches Some(t) && node_view(t) == nv)
                && f.formula_str@ == self.formula_text()),
            spec_parse_source(vstd::utf8::encode_utf8(self.formula_text())) matches Err(e) ==> (
            r matches Err(fe) && matches_err(fe, e)),
    ;
}

impl<'a> Formula for &'a str {
    open spec fn formula_text(&self) -> Seq<char> {
        self@
    }

    fn to_formula(&self) -> (r: Result<FormulaCalculator, FormulaErr>) {
        FormulaCalculator::set_formula(self)
    }
}

impl Formula for String {
    open spec fn formula_text(&self) -> Seq<char> {
        self@
    }

    fn to_formula(&self) -> (r: Result<FormulaCalculator, FormulaErr>) {
        FormulaCalculator::set_formula(self.as_str())
    }
}

} // verus!

verus! {

/// Parsing is a function of the source bytes alone: two parses of the
/// same source that both succeed yield structurally identical trees —
/// the same shape, the same token kinds and texts, the same spans.
pub proof fn lemma_parse_idempotent(s: Seq<u8>, t1: NodeView, t2: NodeView)
    requires
        spec_parse_source(s) == Ok::<NodeView, ErrView>(t1),
        spec_parse_source(s) == Ok::<NodeView, ErrView>(t2),
    ensures
        t1 == t2,
{
}

} // verus!

verus! {

/// `j` is an operator the scan considers: strictly right of `lo`, at
/// parenthesis depth zero, carrying a priority.
pub open spec fn scannable_op(toks: Seq<TokenView>, lo: int, i: int, j: int) -> bool {
    lo < j < i && paren_balance(toks, lo, j) == 0 && spec_ope_priority(toks[j].value) is Some
}

/// What the operator scan selects, in closed form: the rightmost
/// considered operator among those of the loosest priority present.
/// Splitting there, and only recursing on the two halves, is what gives
/// `* /` precedence over `+ - %` and makes operators of equal priority
/// associate to the left; parentheses override by hiding their inside
/// from the scan.
pub proof fn lemma_scan_op_characterization(toks: Seq<TokenView>, lo: int, i: int)
    ensures
        spec_scan_op(toks, lo, i) is None ==> (forall|j: int| !scannable_op(toks, lo, i, j)),
        spec_scan_op(toks, lo, i) matches Some(sel) ==> {
            &&& scannable_op(toks, lo, i, sel.0)
            &&& spec_ope_priority(toks[sel.0].value) == Some(sel.1)
            &&& forall|j: int|
                scannable_op(toks, lo, i, j) ==> spec_ope_priority(toks[j].value)->0 <= sel.1
            &&& forall|j: int|
                scannable_op(toks, lo, i, j) && j > sel.0 ==> spec_ope_priority(toks[j].value)->0
                    < sel.1
        },
    decreases i - lo,
{
    if i > lo + 1 {
        lemma_scan_op_characterization(toks, lo, i - 1);
        assert(forall|j: int|
            scannable_op(toks, lo, i, j) && j < i - 1 ==> scannable_op(toks, lo, i - 1, j));
    }
}

} // verus!

verus! {

/// The shape every fully parsed tree has: a leaf holds a number or a
/// variable and nothing else; an operator node holds an operator token
/// and exactly two children.
pub open spec fn well_formed_tree(nv: NodeView) -> bool
    decreases nv,
{
    match (nv.left, nv.right) {
        (None, None) => nv.data.value is Number || nv.data.value is Variable,
        (Some(l), Some(r)) => spec_ope_priority(nv.data.value) is Some && well_formed_tree(*l)
            && well_formed_tree(*r),
        _ => false,
    }
}

/// Whatever the parser accepts is a well-formed tree: leaves hold
/// values, operator nodes hold both children.
pub proof fn lemma_parse_trees_well_formed(toks: Seq<TokenView>, lo: int, hi: int)
    ensures
        spec_parse(toks, lo, hi) matches Ok(nv) ==> well_formed_tree(nv),
    decreases hi - lo,
{
    match spec_check_brackets(toks, lo, hi) {
        Err(_) => {},
        Ok(range) => {
            let l = range.0;
            let h = range.1;
            if h - l == 1 || h - l == 2 {
            } else {
                match spec_scan_op(toks, l, h) {
                    None => {},
                    Some(sel) => {
                        lemma_scan_op_bounds(toks, l, h);
                        lemma_scan_op_characterization(toks, l, h);
                        let t = sel.0;
                        let t2 = if spec_is_alsoperator(toks[t - 1].value) {
                            t - 1
                        } else {
                            t
                        };
                        lemma_parse_trees_well_formed(toks, l, t2);
                        lemma_parse_trees_well_formed(toks, t2 + 1, h);
                    },
                }
            }
        },
    }
}

/// Substitution only turns variable leaves into number leaves, so a
/// well-formed tree stays well-formed.
pub proof fn lemma_substitute_preserves_shape(nv: NodeView, m: Map<Seq<char>, Seq<char>>)
    requires
        well_formed_tree(nv),
    ensures
        well_formed_tree(spec_substitute(nv, m)),
    decreases nv,
{
    match (nv.left, nv.right) {
        (Some(l), Some(r)) => {
            lemma_substitute_preserves_shape(*l, m);
            lemma_substitute_preserves_shape(*r, m);
        },
        _ => {},
    }
}

/// On a well-formed tree the evaluator never reports `InvalidTree`: the
/// missing-child fault cannot arise from a tree the parser built, nor
/// can the faults reserved for an absent tree.
pub proof fn lemma_well_formed_no_invalid_tree<
    FO: Fn(BinOp, u64, u64) -> u64,
    FP: Fn(String) -> u64,
>(ops: FO, parse_num: FP, nv: NodeView)
    requires
        well_formed_tree(nv),
    ensures
        spec_calculate(ops, parse_num, nv) matches Err(e) ==> (e.kind != ErrType::InvalidTree
            && e.kind != ErrType::EmptyFormula && e.kind != ErrType::NoTree),
    decreases nv,
{
    match (nv.left, nv.right) {
        (Some(l), Some(r)) => {
            lemma_well_formed_no_invalid_tree(ops, parse_num, *l);
            lemma_well_formed_no_invalid_tree(ops, parse_num, *r);
        },
        _ => {},
    }
}

/// End to end: a tree that came out of the parser can fail evaluation
/// only for a reason of its own — a zero divisor, an unbound variable,
/// or a malformed assignment — never for a missing child or an absent
/// tree.
pub proof fn lemma_parsed_tree_evaluates_cleanly<
    FO: Fn(BinOp, u64, u64) -> u64,
    FP: Fn(String) -> u64,
>(ops: FO, parse_num: FP, s: Seq<u8>, nv: NodeView, m: Map<Seq<char>, Seq<char>>)
    requires
        spec_parse_source(s) == Ok::<NodeView, ErrView>(nv),
    ensures
        spec_calc_root(ops, parse_num, Some(nv), m) matches Err(e) ==> (e.kind
            != ErrType::InvalidTree && e.kind != ErrType::EmptyFormula && e.kind
            != ErrType::NoTree),
{
    match spec_lex_from(s, 0) {
        Err(_) => {},
        Ok(tvs) => {
            lemma_parse_trees_well_formed(tvs, 0, tvs.len() as int);
        },
    }
    let k = nv.data.value;
    if k is Equal {
        match nv.right {
            None => {},
            Some(rb) => {
                lemma_substitute_preserves_shape(*rb, m);
                lemma_well_formed_no_invalid_tree(ops, parse_num, spec_substitute(*rb, m));
            },
        }
    } else if k is Number || k is Variable || k is Plus || k is Minus || k is Mul || k is Div {
        lemma_substitute_preserves_shape(nv, m);
        lemma_well_formed_no_invalid_tree(ops, parse_num, spec_substitute(nv, m));
    }
}

} // verus!

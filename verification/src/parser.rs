//! The parser: recursive descent over the token stream for statements and a
//! Pratt (precedence-climbing) engine for expressions, with one token of
//! lookahead. The spec functions `spec_parse_*` are the mathematical
//! description of the grammar; every method is proved against them.
use vstd::prelude::*;

use crate::ast::{
    Block, Expression, Identifier, InfixOperator, LetStatement, PrefixOperator, Program,
    SpecExpression, SpecStatement, Statement,
};
use crate::lexer::{spec_next_token, Lexer};
use crate::token::{Keyword, Operation, SpecToken, Token, TokenError};

verus! {

broadcast use crate::lexer::lemma_next_token_bounds;

/// The precedence ladder, from loosest to tightest binding.
pub const LOWEST: u8 = 0;

pub const EQUALS: u8 = 1;

pub const LESSGREATER: u8 = 2;

pub const SUM: u8 = 3;

pub const PRODUCT: u8 = 4;

pub const PREFIX: u8 = 5;

pub const CALL: u8 = 6;

/// The kind of a token, without its payload: what an "expected token"
/// diagnostic names.
#[derive(Debug, Clone, Copy, PartialEq, Eq, Structural)]
pub enum TokenKind {
    Ident,
    Int,
    Bang,
    Lt,
    Gt,
    Eq,
    Neq,
    Assign,
    Comma,
    Semicolon,
    Lparen,
    Rparen,
    Lbrace,
    Rbrace,
    Op(Operation),
    Kw(Keyword),
    Eof,
}

/// Whether a token is of the given kind; kinds with a payload match it
/// exactly.
pub open spec fn kind_matches(k: TokenKind, t: SpecToken) -> bool {
    match k {
        TokenKind::Ident => t is Ident,
        TokenKind::Int => t is Int,
        TokenKind::Bang => t is Bang,
        TokenKind::Lt => t is Lt,
        TokenKind::Gt => t is Gt,
        TokenKind::Eq => t is Eq,
        TokenKind::Neq => t is Neq,
        TokenKind::Assign => t is Assign,
        TokenKind::Comma => t is Comma,
        TokenKind::Semicolon => t is Semicolon,
        TokenKind::Lparen => t is Lparen,
        TokenKind::Rparen => t is Rparen,
        TokenKind::Lbrace => t is Lbrace,
        TokenKind::Rbrace => t is Rbrace,
        TokenKind::Op(o) => t == SpecToken::Op(o),
        TokenKind::Kw(k2) => t == SpecToken::Kw(k2),
        TokenKind::Eof => t is Eof,
    }
}

/// A failure of the lexer, as the parser's constructor reports it: the
/// offending byte.
#[derive(Debug, Clone, Copy, PartialEq, Eq, Structural)]
pub struct ParseTokenError(pub u8);

impl From<TokenError> for ParseTokenError {
    /// The offending byte, carried over.
    fn from(value: TokenError) -> (r: Self) {
        match value {
            TokenError::Illegal(n) => ParseTokenError(n),
        }
    }
}

impl vstd::std_specs::convert::FromSpecImpl<TokenError> for ParseTokenError {
    open spec fn obeys_from_spec() -> bool {
        true
    }

    open spec fn from_spec(t: TokenError) -> Self {
        ParseTokenError(t->Illegal_0)
    }
}

/// A structured parse failure.
#[derive(Debug, PartialEq)]
pub enum ParseError {
    /// The grammar demanded one kind of token and found another.
    UnexpectedToken { expected: TokenKind, actual: Token },
    /// A token that cannot begin any expression stood where an expression
    /// was required.
    NoPrefixRule { actual: Token },
    /// An integer literal whose value does not fit the literal's range.
    IntegerOverflow { text: String },
    /// The lexer met a byte outside the grammar; parsing cannot continue
    /// past it.
    IllegalCharacter(u8),
}

/// The mathematical value of a parse failure.
pub enum SpecParseError {
    UnexpectedToken { expected: TokenKind, actual: SpecToken },
    NoPrefixRule { actual: SpecToken },
    IntegerOverflow { text: Seq<char> },
    IllegalCharacter(u8),
}

impl View for ParseError {
    type V = SpecParseError;

    open spec fn view(&self) -> SpecParseError {
        match self {
            ParseError::UnexpectedToken { expected, actual } => SpecParseError::UnexpectedToken {
                expected: *expected,
                actual: actual@,
            },
            ParseError::NoPrefixRule { actual } => SpecParseError::NoPrefixRule { actual: actual@ },
            ParseError::IntegerOverflow { text } => SpecParseError::IntegerOverflow { text: text@ },
            ParseError::IllegalCharacter(b) => SpecParseError::IllegalCharacter(*b),
        }
    }
}

/// The views of a sequence of parse errors, in order.
pub open spec fn errors_view(es: Seq<ParseError>) -> Seq<SpecParseError> {
    Seq::new(es.len(), |i: int| es[i]@)
}

/// The token standing at `pos`, or the offending byte of a lexing error.
pub open spec fn tok_at(input: Seq<u8>, pos: int) -> Result<SpecToken, u8> {
    spec_next_token(input, pos).token
}

/// The position of the token after the one at `pos`.
pub open spec fn adv(input: Seq<u8>, pos: int) -> int {
    spec_next_token(input, pos).next
}

/// The token at `pos`, assuming it lexes.
pub open spec fn cur_of(input: Seq<u8>, pos: int) -> SpecToken {
    tok_at(input, pos)->Ok_0
}

/// The token one past `pos`, assuming it lexes.
pub open spec fn peek_of(input: Seq<u8>, pos: int) -> SpecToken {
    cur_of(input, adv(input, pos))
}

/// `n` clamped into `[lo, hi]`, the upper bound winning. The parser's spec
/// functions clamp every cursor they recurse on, which makes their
/// termination evident; along every path the implementation actually takes,
/// the clamps change nothing, which the implementation proofs show.
pub open spec fn clamp(n: int, lo: int, hi: int) -> int {
    let m = if n < lo {
        lo
    } else {
        n
    };
    if m > hi {
        hi
    } else {
        m
    }
}

/// Moving the cursor from `pos` to the next token makes the lexer scan one
/// more token two steps ahead (the parser holds two tokens); that scan is
/// the only thing that can fail.
pub open spec fn spec_advance(input: Seq<u8>, pos: int) -> Result<int, u8> {
    match tok_at(input, adv(input, adv(input, pos))) {
        Ok(_) => Ok(adv(input, pos)),
        Err(b) => Err(b),
    }
}

/// Advance, with a lexing failure surfaced as a parse error.
pub open spec fn spec_do_advance(input: Seq<u8>, pos: int) -> Result<int, SpecParseError> {
    match spec_advance(input, pos) {
        Ok(p) => Ok(p),
        Err(b) => Err(SpecParseError::IllegalCharacter(b)),
    }
}

/// Demand that the next token be of kind `k`: on success the cursor moves
/// onto it, otherwise the cursor stays and the mismatch is reported.
pub open spec fn spec_expect_peek(input: Seq<u8>, pos: int, k: TokenKind) -> Result<
    int,
    SpecParseError,
> {
    if !kind_matches(k, peek_of(input, pos)) {
        Err(
            SpecParseError::UnexpectedToken {
                expected: k,
                actual: peek_of(input, pos),
            },
        )
    } else {
        spec_do_advance(input, pos)
    }
}

/// The binding strength a token has when it continues an expression.
pub open spec fn spec_precedence(t: SpecToken) -> u8 {
    match t {
        SpecToken::Eq => EQUALS,
        SpecToken::Neq => EQUALS,
        SpecToken::Lt => LESSGREATER,
        SpecToken::Gt => LESSGREATER,
        SpecToken::Op(Operation::Plus) => SUM,
        SpecToken::Op(Operation::Minus) => SUM,
        SpecToken::Op(Operation::Asterisk) => PRODUCT,
        SpecToken::Op(Operation::Slash) => PRODUCT,
        SpecToken::Lparen => CALL,
        _ => LOWEST,
    }
}

/// The infix operator a token stands for, for the tokens that have one.
pub open spec fn spec_infix_op(t: SpecToken) -> InfixOperator {
    match t {
        SpecToken::Eq => InfixOperator::Eq,
        SpecToken::Neq => InfixOperator::Neq,
        SpecToken::Lt => InfixOperator::Lt,
        SpecToken::Gt => InfixOperator::Gt,
        SpecToken::Op(Operation::Plus) => InfixOperator::Plus,
        SpecToken::Op(Operation::Minus) => InfixOperator::Minus,
        SpecToken::Op(Operation::Asterisk) => InfixOperator::Asterisk,
        SpecToken::Op(Operation::Slash) => InfixOperator::Slash,
        _ => InfixOperator::Plus,
    }
}

/// The value of a run of decimal digit characters.
pub open spec fn digits_val(text: Seq<char>) -> int
    decreases text.len(),
{
    if text.len() == 0 {
        0
    } else {
        digits_val(text.drop_last()) * 10 + (text.last() as int - 48)
    }
}

/// A decimal digit character.
pub open spec fn is_digit_char(c: char) -> bool {
    48 <= c as int <= 57
}

/// A digit run's value never shrinks; it is nonnegative.
proof fn lemma_digits_val_nonneg(text: Seq<char>)
    requires
        forall|i: int| 0 <= i < text.len() ==> is_digit_char(text[i]),
    ensures
        digits_val(text) >= 0,
    decreases text.len(),
{
    if text.len() > 0 {
        lemma_digits_val_nonneg(text.drop_last());
    }
}

/// The value of a prefix of a digit run is at most the value of the run.
proof fn lemma_digits_val_prefix(text: Seq<char>, j: int)
    requires
        forall|i: int| 0 <= i < text.len() ==> is_digit_char(text[i]),
        0 <= j <= text.len(),
    ensures
        digits_val(text.subrange(0, j)) <= digits_val(text),
    decreases text.len() - j,
{
    if j == text.len() {
        assert(text.subrange(0, j) =~= text);
    } else {
        assert(text.subrange(0, j + 1).drop_last() =~= text.subrange(0, j));
        lemma_digits_val_nonneg(text.subrange(0, j));
        lemma_digits_val_prefix(text, j + 1);
    }
}

/// The numeric value of a string of decimal digits, if it fits the integer
/// literal's range.
pub fn parse_u64_digits(s: &String) -> (r: Option<u64>)
    requires
        forall|i: int| 0 <= i < s@.len() ==> is_digit_char(s@[i]),
    ensures
        match r {
            Some(v) => v as int == digits_val(s@),
            None => digits_val(s@) > u64::MAX as int,
        },
{
    let n = s.as_str().unicode_len();
    let mut val: u64 = 0;
    let mut i: usize = 0;
    while i < n
        invariant
            n == s@.len(),
            0 <= i <= n,
            forall|k: int| 0 <= k < s@.len() ==> is_digit_char(s@[k]),
            val as int == digits_val(s@.subrange(0, i as int)),
        decreases n - i,
    {
        let c = s.as_str().get_char(i);
        let d: u32 = (c as u32) - 48;
        proof {
            assert(s@.subrange(0, i as int + 1).drop_last() =~= s@.subrange(0, i as int));
        }
        let next_val = match val.checked_mul(10) {
            Some(v10) => v10.checked_add(d as u64),
            None => None,
        };
        match next_val {
            Some(v2) => {
                val = v2;
            },
            None => {
                proof {
                    lemma_digits_val_nonneg(s@.subrange(0, i as int));
                    lemma_digits_val_prefix(s@, i as int + 1);
                }
                return None;
            },
        }
        i = i + 1;
    }
    proof {
        assert(s@.subrange(0, n as int) =~= s@);
    }
    Some(val)
}

/// Whether a token is of the given kind, decided on the token itself.
fn token_has_kind(t: &Token, k: TokenKind) -> (b: bool)
    ensures
        b == kind_matches(k, t@),
{
    match k {
        TokenKind::Ident => matches!(t, Token::Ident(_)),
        TokenKind::Int => matches!(t, Token::Int(_)),
        TokenKind::Bang => matches!(t, Token::Bang),
        TokenKind::Lt => matches!(t, Token::Lt),
        TokenKind::Gt => matches!(t, Token::Gt),
        TokenKind::Eq => matches!(t, Token::Eq),
        TokenKind::Neq => matches!(t, Token::Neq),
        TokenKind::Assign => matches!(t, Token::Assign),
        TokenKind::Comma => matches!(t, Token::Comma),
        TokenKind::Semicolon => matches!(t, Token::Semicolon),
        TokenKind::Lparen => matches!(t, Token::Lparen),
        TokenKind::Rparen => matches!(t, Token::Rparen),
        TokenKind::Lbrace => matches!(t, Token::Lbrace),
        TokenKind::Rbrace => matches!(t, Token::Rbrace),
        TokenKind::Op(o) => match t {
            Token::Op(o2) => *o2 == o,
            _ => false,
        },
        TokenKind::Kw(kw) => match t {
            Token::Kw(k2) => *k2 == kw,
            _ => false,
        },
        TokenKind::Eof => matches!(t, Token::Eof),
    }
}

/// The binding strength a token has when it continues an expression.
fn token_precedence(t: &Token) -> (p: u8)
    ensures
        p == spec_precedence(t@),
{
    match t {
        Token::Eq => EQUALS,
        Token::Neq => EQUALS,
        Token::Lt => LESSGREATER,
        Token::Gt => LESSGREATER,
        Token::Op(Operation::Plus) => SUM,
        Token::Op(Operation::Minus) => SUM,
        Token::Op(Operation::Asterisk) => PRODUCT,
        Token::Op(Operation::Slash) => PRODUCT,
        Token::Lparen => CALL,
        _ => LOWEST,
    }
}

/// The infix operator a token stands for.
fn token_infix_op(t: &Token) -> (op: InfixOperator)
    ensures
        op == spec_infix_op(t@),
{
    match t {
        Token::Eq => InfixOperator::Eq,
        Token::Neq => InfixOperator::Neq,
        Token::Lt => InfixOperator::Lt,
        Token::Gt => InfixOperator::Gt,
        Token::Op(Operation::Plus) => InfixOperator::Plus,
        Token::Op(Operation::Minus) => InfixOperator::Minus,
        Token::Op(Operation::Asterisk) => InfixOperator::Asterisk,
        Token::Op(Operation::Slash) => InfixOperator::Slash,
        _ => InfixOperator::Plus,
    }
}

/// What parsing an expression yields: the expression or the failure, and the
/// position of the last token of the construct (for a failure, the position
/// at which it was discovered).
pub ghost struct ExprOutcome {
    pub result: Result<SpecExpression, SpecParseError>,
    pub next: int,
}

/// What parsing one statement yields.
pub ghost struct StmtOutcome {
    pub result: Result<SpecStatement, SpecParseError>,
    pub next: int,
}

/// What parsing a brace-delimited statement list yields.
pub ghost struct StmtsOutcome {
    pub result: Result<Seq<SpecStatement>, SpecParseError>,
    pub next: int,
}

/// What parsing a parameter list yields.
pub ghost struct ParamsOutcome {
    pub result: Result<Seq<Seq<char>>, SpecParseError>,
    pub next: int,
}

/// What parsing a whole program yields: the statements that parsed and every
/// error that was collected. The program is well-formed exactly when the
/// error list is empty.
pub ghost struct ProgramOutcome {
    pub statements: Seq<SpecStatement>,
    pub errors: Seq<SpecParseError>,
}

/// An expression at `pos`, parsed by precedence climbing: a prefix rule
/// gives the initial left-hand side, which operators of binding strength
/// above `min_prec` then extend.
pub open spec fn spec_parse_expression(input: Seq<u8>, pos: int, min_prec: u8) -> ExprOutcome
    decreases input.len() - clamp(pos, 0, input.len() as int), 4int,
{
    let len = input.len() as int;
    let p = clamp(pos, 0, len);
    let d = spec_parse_prefix(input, p);
    match d.result {
        Err(e) => ExprOutcome { result: Err(e), next: d.next },
        Ok(left) => spec_infix_loop(input, left, clamp(d.next, p, len), min_prec),
    }
}

/// The Pratt loop: as long as the token after the cursor continues an
/// expression with binding strength above `min_prec`, step onto it and
/// extend `left` with the infix construct it begins.
pub open spec fn spec_infix_loop(input: Seq<u8>, left: SpecExpression, pos: int, min_prec: u8) -> ExprOutcome
    decreases input.len() - clamp(pos, 0, input.len() as int), 3int,
{
    let len = input.len() as int;
    let p = clamp(pos, 0, len);
    let pk = peek_of(input, p);
    if !(min_prec < spec_precedence(pk)) {
        ExprOutcome { result: Ok(left), next: p }
    } else {
        match spec_do_advance(input, p) {
            Err(e) => ExprOutcome { result: Err(e), next: p },
            Ok(q0) => {
                let q = clamp(q0, p + 1, len);
                if pk is Lparen {
                    let o = spec_parse_call(input, left, q);
                    match o.result {
                        Err(e) => ExprOutcome { result: Err(e), next: o.next },
                        Ok(newleft) => spec_infix_loop(
                            input,
                            newleft,
                            clamp(o.next, q, len),
                            min_prec,
                        ),
                    }
                } else {
                    match spec_do_advance(input, q) {
                        Err(e) => ExprOutcome { result: Err(e), next: q },
                        Ok(a0) => {
                            let a = clamp(a0, q + 1, len);
                            let o = spec_parse_expression(input, a, spec_precedence(pk));
                            match o.result {
                                Err(e) => ExprOutcome { result: Err(e), next: o.next },
                                Ok(right) => spec_infix_loop(
                                    input,
                                    SpecExpression::Infix {
                                        operator: spec_infix_op(pk),
                                        left: Box::new(left),
                                        right: Box::new(right),
                                    },
                                    clamp(o.next, a, len),
                                    min_prec,
                                ),
                            }
                        },
                    }
                }
            },
        }
    }
}

/// The prefix rules, dispatched on the token under the cursor: names,
/// literals, the unary operators, grouping, conditionals and function
/// literals. A token with no rule here cannot begin an expression.
pub open spec fn spec_parse_prefix(input: Seq<u8>, pos: int) -> ExprOutcome
    decreases input.len() - clamp(pos, 0, input.len() as int), 2int,
{
    let len = input.len() as int;
    let p = clamp(pos, 0, len);
    match cur_of(input, p) {
        SpecToken::Ident(name) => ExprOutcome {
            result: Ok(SpecExpression::Identifier(name)),
            next: p,
        },
        SpecToken::Int(text) => if digits_val(text) <= u64::MAX as int {
            ExprOutcome {
                result: Ok(SpecExpression::IntegerLiteral(digits_val(text) as u64)),
                next: p,
            }
        } else {
            ExprOutcome { result: Err(SpecParseError::IntegerOverflow { text }), next: p }
        },
        SpecToken::Kw(Keyword::True) => ExprOutcome {
            result: Ok(SpecExpression::BooleanLiteral(true)),
            next: p,
        },
        SpecToken::Kw(Keyword::False) => ExprOutcome {
            result: Ok(SpecExpression::BooleanLiteral(false)),
            next: p,
        },
        SpecToken::Bang => spec_parse_prefix_operator(input, p),
        SpecToken::Op(Operation::Minus) => spec_parse_prefix_operator(input, p),
        SpecToken::Lparen => spec_parse_group(input, p),
        SpecToken::Kw(Keyword::If) => spec_parse_if(input, p),
        SpecToken::Kw(Keyword::Function) => spec_parse_function(input, p),
        t => ExprOutcome { result: Err(SpecParseError::NoPrefixRule { actual: t }), next: p },
    }
}

/// A unary `!` or `-` under the cursor, applied to the expression after it,
/// which is parsed at the unary binding strength.
pub open spec fn spec_parse_prefix_operator(input: Seq<u8>, pos: int) -> ExprOutcome
    decreases input.len() - clamp(pos, 0, input.len() as int), 1int,
{
    let len = input.len() as int;
    let p = clamp(pos, 0, len);
    if !(cur_of(input, p) is Bang || cur_of(input, p) == SpecToken::Op(Operation::Minus)) {
        ExprOutcome { result: Err(SpecParseError::NoPrefixRule { actual: cur_of(input, p) }), next: p }
    } else {
        let op = if cur_of(input, p) is Bang {
            PrefixOperator::Not
        } else {
            PrefixOperator::Neg
        };
        match spec_do_advance(input, p) {
            Err(e) => ExprOutcome { result: Err(e), next: p },
            Ok(a0) => {
                let a = clamp(a0, p + 1, len);
                let o = spec_parse_expression(input, a, PREFIX);
                match o.result {
                    Err(e) => ExprOutcome { result: Err(e), next: o.next },
                    Ok(operand) => ExprOutcome {
                        result: Ok(
                            SpecExpression::Prefix { operator: op, operand: Box::new(operand) },
                        ),
                        next: o.next,
                    },
                }
            },
        }
    }
}

/// A parenthesized expression: `(` under the cursor, a full sub-expression
/// at the loosest binding, and a required `)`.
pub open spec fn spec_parse_group(input: Seq<u8>, pos: int) -> ExprOutcome
    decreases input.len() - clamp(pos, 0, input.len() as int), 1int,
{
    let len = input.len() as int;
    let p = clamp(pos, 0, len);
    if !(cur_of(input, p) is Lparen) {
        ExprOutcome { result: Err(SpecParseError::NoPrefixRule { actual: cur_of(input, p) }), next: p }
    } else {
        match spec_do_advance(input, p) {
            Err(e) => ExprOutcome { result: Err(e), next: p },
            Ok(a0) => {
                let a = clamp(a0, p + 1, len);
                let o = spec_parse_expression(input, a, LOWEST);
                match o.result {
                    Err(e) => ExprOutcome { result: Err(e), next: o.next },
                    Ok(inner) => match spec_expect_peek(input, o.next, TokenKind::Rparen) {
                        Err(e) => ExprOutcome { result: Err(e), next: o.next },
                        Ok(r0) => ExprOutcome { result: Ok(inner), next: r0 },
                    },
                }
            },
        }
    }
}

/// A conditional: `if`, a parenthesized condition, a consequence block, and
/// optionally `else` with an alternative block.
pub open spec fn spec_parse_if(input: Seq<u8>, pos: int) -> ExprOutcome
    decreases input.len() - clamp(pos, 0, input.len() as int), 1int,
{
    let len = input.len() as int;
    let p = clamp(pos, 0, len);
    if !(cur_of(input, p) == SpecToken::Kw(Keyword::If)) {
        ExprOutcome { result: Err(SpecParseError::NoPrefixRule { actual: cur_of(input, p) }), next: p }
    } else {
        match spec_expect_peek(input, p, TokenKind::Lparen) {
            Err(e) => ExprOutcome { result: Err(e), next: p },
            Ok(q0) => {
                let q = clamp(q0, p + 1, len);
                match spec_do_advance(input, q) {
                    Err(e) => ExprOutcome { result: Err(e), next: q },
                    Ok(c0) => {
                        let c = clamp(c0, q + 1, len);
                        let o = spec_parse_expression(input, c, LOWEST);
                        match o.result {
                            Err(e) => ExprOutcome { result: Err(e), next: o.next },
                            Ok(cond) => match spec_expect_peek(input, o.next, TokenKind::Rparen) {
                                Err(e) => ExprOutcome { result: Err(e), next: o.next },
                                Ok(r0) => {
                                    let r = clamp(r0, p + 1, len);
                                    match spec_expect_peek(input, r, TokenKind::Lbrace) {
                                        Err(e) => ExprOutcome { result: Err(e), next: r },
                                        Ok(b0) => {
                                            let b = clamp(b0, p + 1, len);
                                            let bo = spec_parse_block(input, b);
                                            match bo.result {
                                                Err(e) => ExprOutcome {
                                                    result: Err(e),
                                                    next: bo.next,
                                                },
                                                Ok(cons) => spec_parse_else(
                                                    input,
                                                    cond,
                                                    cons,
                                                    clamp(bo.next, p + 1, len),
                                                ),
                                            }
                                        },
                                    }
                                },
                            },
                        }
                    },
                }
            },
        }
    }
}

/// The optional alternative of a conditional: nothing, or `else` followed by
/// a block; the cursor stands on the consequence's closing brace.
pub open spec fn spec_parse_else(
    input: Seq<u8>,
    cond: SpecExpression,
    cons: Seq<SpecStatement>,
    pos: int,
) -> ExprOutcome
    decreases input.len() - clamp(pos, 0, input.len() as int), 1int,
{
    let len = input.len() as int;
    let p = clamp(pos, 0, len);
    if !(peek_of(input, p) == SpecToken::Kw(Keyword::Else)) {
        ExprOutcome {
            result: Ok(
                SpecExpression::If {
                    condition: Box::new(cond),
                    consequence: cons,
                    alternative: None,
                },
            ),
            next: p,
        }
    } else {
        match spec_do_advance(input, p) {
            Err(e) => ExprOutcome { result: Err(e), next: p },
            Ok(e0) => {
                let ep = clamp(e0, p + 1, len);
                match spec_expect_peek(input, ep, TokenKind::Lbrace) {
                    Err(e) => ExprOutcome { result: Err(e), next: ep },
                    Ok(b0) => {
                        let b = clamp(b0, p + 1, len);
                        let bo = spec_parse_block(input, b);
                        match bo.result {
                            Err(e) => ExprOutcome { result: Err(e), next: bo.next },
                            Ok(alt) => ExprOutcome {
                                result: Ok(
                                    SpecExpression::If {
                                        condition: Box::new(cond),
                                        consequence: cons,
                                        alternative: Some(alt),
                                    },
                                ),
                                next: bo.next,
                            },
                        }
                    },
                }
            },
        }
    }
}

/// A function literal: `fn`, a parenthesized comma-separated (possibly
/// empty) parameter list of identifiers, and a body block.
pub open spec fn spec_parse_function(input: Seq<u8>, pos: int) -> ExprOutcome
    decreases input.len() - clamp(pos, 0, input.len() as int), 1int,
{
    let len = input.len() as int;
    let p = clamp(pos, 0, len);
    if !(cur_of(input, p) == SpecToken::Kw(Keyword::Function)) {
        ExprOutcome { result: Err(SpecParseError::NoPrefixRule { actual: cur_of(input, p) }), next: p }
    } else {
        match spec_expect_peek(input, p, TokenKind::Lparen) {
            Err(e) => ExprOutcome { result: Err(e), next: p },
            Ok(q0) => {
                let q = clamp(q0, p + 1, len);
                let pr = spec_parse_params(input, q);
                match pr.result {
                    Err(e) => ExprOutcome { result: Err(e), next: pr.next },
                    Ok(params) => {
                        let after = clamp(pr.next, p + 1, len);
                        match spec_expect_peek(input, after, TokenKind::Lbrace) {
                            Err(e) => ExprOutcome { result: Err(e), next: after },
                            Ok(b0) => {
                                let b = clamp(b0, p + 1, len);
                                let bo = spec_parse_block(input, b);
                                match bo.result {
                                    Err(e) => ExprOutcome { result: Err(e), next: bo.next },
                                    Ok(body) => ExprOutcome {
                                        result: Ok(
                                            SpecExpression::Function { parameters: params, body },
                                        ),
                                        next: bo.next,
                                    },
                                }
                            },
                        }
                    },
                }
            },
        }
    }
}

/// A parameter list with the cursor on its opening parenthesis: empty, or
/// identifiers separated by commas; ends with the cursor on `)`.
pub open spec fn spec_parse_params(input: Seq<u8>, pos: int) -> ParamsOutcome
    decreases input.len() - clamp(pos, 0, input.len() as int), 1int,
{
    let len = input.len() as int;
    let p = clamp(pos, 0, len);
    if !(cur_of(input, p) is Lparen) {
        ParamsOutcome {
            result: Err(
                SpecParseError::UnexpectedToken {
                    expected: TokenKind::Lparen,
                    actual: cur_of(input, p),
                },
            ),
            next: p,
        }
    } else if peek_of(input, p) is Rparen {
        match spec_do_advance(input, p) {
            Err(e) => ParamsOutcome { result: Err(e), next: p },
            Ok(r0) => ParamsOutcome { result: Ok(Seq::empty()), next: r0 },
        }
    } else {
        match peek_of(input, p) {
            SpecToken::Ident(name) => match spec_do_advance(input, p) {
                Err(e) => ParamsOutcome { result: Err(e), next: p },
                Ok(i0) => spec_parse_params_rest(input, seq![name], clamp(i0, p + 1, len)),
            },
            other => ParamsOutcome {
                result: Err(
                    SpecParseError::UnexpectedToken { expected: TokenKind::Ident, actual: other },
                ),
                next: p,
            },
        }
    }
}

/// The rest of a parameter list, the cursor standing on the last identifier
/// read: further `, identifier` pairs, then the required `)`.
pub open spec fn spec_parse_params_rest(input: Seq<u8>, params: Seq<Seq<char>>, pos: int) -> ParamsOutcome
    decreases input.len() - clamp(pos, 0, input.len() as int), 1int,
{
    let len = input.len() as int;
    let p = clamp(pos, 0, len);
    if peek_of(input, p) is Comma {
        match spec_do_advance(input, p) {
            Err(e) => ParamsOutcome { result: Err(e), next: p },
            Ok(c0) => {
                let c = clamp(c0, p + 1, len);
                match peek_of(input, c) {
                    SpecToken::Ident(name) => match spec_do_advance(input, c) {
                        Err(e) => ParamsOutcome { result: Err(e), next: c },
                        Ok(i0) => spec_parse_params_rest(
                            input,
                            params.push(name),
                            clamp(i0, c + 1, len),
                        ),
                    },
                    other => ParamsOutcome {
                        result: Err(
                            SpecParseError::UnexpectedToken {
                                expected: TokenKind::Ident,
                                actual: other,
                            },
                        ),
                        next: c,
                    },
                }
            },
        }
    } else {
        match spec_expect_peek(input, p, TokenKind::Rparen) {
            Err(e) => ParamsOutcome { result: Err(e), next: p },
            Ok(r0) => ParamsOutcome { result: Ok(params), next: r0 },
        }
    }
}

/// A call expression: the cursor stands on the `(` that follows the callee;
/// a comma-separated (possibly empty) argument list, then the required `)`.
pub open spec fn spec_parse_call(input: Seq<u8>, left: SpecExpression, pos: int) -> ExprOutcome
    decreases input.len() - clamp(pos, 0, input.len() as int), 1int,
{
    let len = input.len() as int;
    let p = clamp(pos, 0, len);
    if !(cur_of(input, p) is Lparen) {
        ExprOutcome { result: Err(SpecParseError::NoPrefixRule { actual: cur_of(input, p) }), next: p }
    } else if peek_of(input, p) is Rparen {
        match spec_do_advance(input, p) {
            Err(e) => ExprOutcome { result: Err(e), next: p },
            Ok(r0) => ExprOutcome {
                result: Ok(
                    SpecExpression::Call { function: Box::new(left), arguments: Seq::empty() },
                ),
                next: r0,
            },
        }
    } else {
        match spec_do_advance(input, p) {
            Err(e) => ExprOutcome { result: Err(e), next: p },
            Ok(a0) => {
                let a = clamp(a0, p + 1, len);
                let o = spec_parse_expression(input, a, LOWEST);
                match o.result {
                    Err(e) => ExprOutcome { result: Err(e), next: o.next },
                    Ok(arg) => spec_parse_args_rest(
                        input,
                        left,
                        seq![arg],
                        clamp(o.next, a, len),
                    ),
                }
            },
        }
    }
}

/// The rest of an argument list, the cursor standing on the last token of
/// the last argument: further `, expression` pairs, then the required `)`.
pub open spec fn spec_parse_args_rest(
    input: Seq<u8>,
    left: SpecExpression,
    args: Seq<SpecExpression>,
    pos: int,
) -> ExprOutcome
    decreases input.len() - clamp(pos, 0, input.len() as int), 2int,
{
    let len = input.len() as int;
    let p = clamp(pos, 0, len);
    if peek_of(input, p) is Comma {
        match spec_do_advance(input, p) {
            Err(e) => ExprOutcome { result: Err(e), next: p },
            Ok(c0) => {
                let c = clamp(c0, p + 1, len);
                match spec_do_advance(input, c) {
                    Err(e) => ExprOutcome { result: Err(e), next: c },
                    Ok(a0) => {
                        let a = clamp(a0, c + 1, len);
                        let o = spec_parse_expression(input, a, LOWEST);
                        match o.result {
                            Err(e) => ExprOutcome { result: Err(e), next: o.next },
                            Ok(arg) => spec_parse_args_rest(
                                input,
                                left,
                                args.push(arg),
                                clamp(o.next, a, len),
                            ),
                        }
                    },
                }
            },
        }
    } else {
        match spec_expect_peek(input, p, TokenKind::Rparen) {
            Err(e) => ExprOutcome { result: Err(e), next: p },
            Ok(r0) => ExprOutcome {
                result: Ok(SpecExpression::Call { function: Box::new(left), arguments: args }),
                next: r0,
            },
        }
    }
}

/// A block with the cursor on its `{`: statements until the matching `}`,
/// which is required; ends with the cursor on `}`.
pub open spec fn spec_parse_block(input: Seq<u8>, pos: int) -> StmtsOutcome
    decreases input.len() - clamp(pos, 0, input.len() as int), 1int,
{
    let len = input.len() as int;
    let p = clamp(pos, 0, len);
    if !(cur_of(input, p) is Lbrace) {
        StmtsOutcome {
            result: Err(
                SpecParseError::UnexpectedToken {
                    expected: TokenKind::Lbrace,
                    actual: cur_of(input, p),
                },
            ),
            next: p,
        }
    } else {
        match spec_do_advance(input, p) {
            Err(e) => StmtsOutcome { result: Err(e), next: p },
            Ok(b0) => spec_parse_block_rest(input, Seq::empty(), clamp(b0, p + 1, len)),
        }
    }
}

/// The statements of a block, the cursor standing on the first token of the
/// next statement (or on the closing brace). The end of the input before the
/// closing brace is a parse failure.
pub open spec fn spec_parse_block_rest(input: Seq<u8>, acc: Seq<SpecStatement>, pos: int) -> StmtsOutcome
    decreases input.len() - clamp(pos, 0, input.len() as int), 7int,
{
    let len = input.len() as int;
    let p = clamp(pos, 0, len);
    let c = cur_of(input, p);
    if c is Rbrace {
        StmtsOutcome { result: Ok(acc), next: p }
    } else if c is Eof {
        StmtsOutcome {
            result: Err(SpecParseError::UnexpectedToken { expected: TokenKind::Rbrace, actual: c }),
            next: p,
        }
    } else {
        let o = spec_parse_statement(input, p);
        match o.result {
            Err(e) => StmtsOutcome { result: Err(e), next: o.next },
            Ok(st) => match spec_do_advance(input, o.next) {
                Err(e) => StmtsOutcome { result: Err(e), next: o.next },
                Ok(n0) => spec_parse_block_rest(input, acc.push(st), clamp(n0, p + 1, len)),
            },
        }
    }
}

/// One statement, dispatched on the token under the cursor: `let`, `return`,
/// or an expression statement.
pub open spec fn spec_parse_statement(input: Seq<u8>, pos: int) -> StmtOutcome
    decreases input.len() - clamp(pos, 0, input.len() as int), 6int,
{
    let len = input.len() as int;
    let p = clamp(pos, 0, len);
    match cur_of(input, p) {
        SpecToken::Kw(Keyword::Let) => spec_parse_let(input, p),
        SpecToken::Kw(Keyword::Return) => spec_parse_return(input, p),
        _ => spec_parse_expr_statement(input, p),
    }
}

/// A `let` statement: the keyword, a required identifier, a required `=`,
/// the bound expression, and an optional trailing `;`.
pub open spec fn spec_parse_let(input: Seq<u8>, pos: int) -> StmtOutcome
    decreases input.len() - clamp(pos, 0, input.len() as int), 5int,
{
    let len = input.len() as int;
    let p = clamp(pos, 0, len);
    if !(cur_of(input, p) == SpecToken::Kw(Keyword::Let)) {
        StmtOutcome {
            result: Err(
                SpecParseError::UnexpectedToken {
                    expected: TokenKind::Kw(Keyword::Let),
                    actual: cur_of(input, p),
                },
            ),
            next: p,
        }
    } else {
        match peek_of(input, p) {
            SpecToken::Ident(name) => match spec_do_advance(input, p) {
                Err(e) => StmtOutcome { result: Err(e), next: p },
                Ok(i0) => {
                    let ip = clamp(i0, p + 1, len);
                    match spec_expect_peek(input, ip, TokenKind::Assign) {
                        Err(e) => StmtOutcome { result: Err(e), next: ip },
                        Ok(a0) => {
                            let ap = clamp(a0, ip + 1, len);
                            match spec_do_advance(input, ap) {
                                Err(e) => StmtOutcome { result: Err(e), next: ap },
                                Ok(v0) => {
                                    let vp = clamp(v0, ap + 1, len);
                                    let o = spec_parse_expression(input, vp, LOWEST);
                                    match o.result {
                                        Err(e) => StmtOutcome { result: Err(e), next: o.next },
                                        Ok(value) => spec_finish_statement(
                                            input,
                                            SpecStatement::Let { name, value },
                                            o.next,
                                        ),
                                    }
                                },
                            }
                        },
                    }
                },
            },
            other => StmtOutcome {
                result: Err(
                    SpecParseError::UnexpectedToken { expected: TokenKind::Ident, actual: other },
                ),
                next: p,
            },
        }
    }
}

/// A `return` statement: the keyword, the returned expression, and an
/// optional trailing `;`.
pub open spec fn spec_parse_return(input: Seq<u8>, pos: int) -> StmtOutcome
    decreases input.len() - clamp(pos, 0, input.len() as int), 5int,
{
    let len = input.len() as int;
    let p = clamp(pos, 0, len);
    if !(cur_of(input, p) == SpecToken::Kw(Keyword::Return)) {
        StmtOutcome {
            result: Err(
                SpecParseError::UnexpectedToken {
                    expected: TokenKind::Kw(Keyword::Return),
                    actual: cur_of(input, p),
                },
            ),
            next: p,
        }
    } else {
        match spec_do_advance(input, p) {
            Err(e) => StmtOutcome { result: Err(e), next: p },
            Ok(v0) => {
                let vp = clamp(v0, p + 1, len);
                let o = spec_parse_expression(input, vp, LOWEST);
                match o.result {
                    Err(e) => StmtOutcome { result: Err(e), next: o.next },
                    Ok(value) => spec_finish_statement(
                        input,
                        SpecStatement::Return { value },
                        o.next,
                    ),
                }
            },
        }
    }
}

/// An expression statement: a bare expression, with an optional trailing `;`.
pub open spec fn spec_parse_expr_statement(input: Seq<u8>, pos: int) -> StmtOutcome
    decreases input.len() - clamp(pos, 0, input.len() as int), 5int,
{
    let len = input.len() as int;
    let p = clamp(pos, 0, len);
    let o = spec_parse_expression(input, p, LOWEST);
    match o.result {
        Err(e) => StmtOutcome { result: Err(e), next: o.next },
        Ok(value) => spec_finish_statement(input, SpecStatement::Expr { value }, o.next),
    }
}

/// A statement's optional trailing semicolon: consumed when present.
pub open spec fn spec_finish_statement(input: Seq<u8>, st: SpecStatement, pos: int) -> StmtOutcome {
    if peek_of(input, pos) is Semicolon {
        match spec_do_advance(input, pos) {
            Err(e) => StmtOutcome { result: Err(e), next: pos },
            Ok(s0) => StmtOutcome { result: Ok(st), next: s0 },
        }
    } else {
        StmtOutcome { result: Ok(st), next: pos }
    }
}

/// The top-level loop: statements until the end of the input, stepping past
/// each; a failed statement is recorded and parsing resumes at the next
/// token, except that a lexing error ends parsing at once.
pub open spec fn spec_parse_program_rest(
    input: Seq<u8>,
    acc_s: Seq<SpecStatement>,
    acc_e: Seq<SpecParseError>,
    pos: int,
) -> ProgramOutcome
    decreases input.len() - clamp(pos, 0, input.len() as int), 9int,
{
    let len = input.len() as int;
    let p = clamp(pos, 0, len);
    if cur_of(input, p) is Eof {
        ProgramOutcome { statements: acc_s, errors: acc_e }
    } else {
        let o = spec_parse_statement(input, p);
        match o.result {
            Err(SpecParseError::IllegalCharacter(b)) => ProgramOutcome {
                statements: acc_s,
                errors: acc_e.push(SpecParseError::IllegalCharacter(b)),
            },
            Ok(st) => match spec_do_advance(input, o.next) {
                Err(e) => ProgramOutcome {
                    statements: acc_s.push(st),
                    errors: acc_e.push(e),
                },
                Ok(n0) => spec_parse_program_rest(
                    input,
                    acc_s.push(st),
                    acc_e,
                    clamp(n0, p + 1, len),
                ),
            },
            Err(e) => match spec_do_advance(input, o.next) {
                Err(e2) => ProgramOutcome {
                    statements: acc_s,
                    errors: acc_e.push(e).push(e2),
                },
                Ok(n0) => spec_parse_program_rest(
                    input,
                    acc_s,
                    acc_e.push(e),
                    clamp(n0, p + 1, len),
                ),
            },
        }
    }
}

/// A whole program from position `pos`: its statements and every collected
/// error; the parse is successful exactly when the error list is empty.
pub open spec fn spec_parse_program(input: Seq<u8>, pos: int) -> ProgramOutcome {
    spec_parse_program_rest(input, Seq::empty(), Seq::empty(), pos)
}

/// The text of an integer token consists of decimal digit characters.
pub proof fn lemma_int_token_digits(input: Seq<u8>, pos: int, text: Seq<char>)
    requires
        0 <= pos <= input.len(),
        tok_at(input, pos) == Ok::<SpecToken, u8>(SpecToken::Int(text)),
    ensures
        forall|i: int| 0 <= i < text.len() ==> #[trigger] is_digit_char(text[i]),
{
    let p = crate::lexer::skip_ws(input, pos);
    crate::lexer::lemma_skip_ws_bounds(input, pos);
    crate::lexer::lemma_digits_end_run(input, p);
    crate::lexer::lemma_digits_end_bounds(input, p);
    let e = crate::lexer::digits_end(input, p);
    assert(text == crate::lexer::chars_of(input.subrange(p, e)));
    assert forall|i: int| 0 <= i < text.len() implies #[trigger] is_digit_char(text[i]) by {
        assert(crate::lexer::is_digit(input.subrange(p, e)[i]));
        assert(text[i] == input.subrange(p, e)[i] as char);
    }
}

/// The parser: the lexer it pulls from, the current token, and one token of
/// lookahead. The ghost cursor `pos` is the position at which the current
/// token was scanned.
pub struct Parser {
    pub l: Lexer,
    pub cur_token: Token,
    pub peek_token: Token,
    pub pos: Ghost<int>,
}

impl Parser {
    /// Well-formedness: the lexer is sound, both buffered tokens scanned
    /// without error at their recorded positions, and the lexer stands two
    /// tokens ahead of the cursor.
    pub open spec fn wf(self) -> bool {
        &&& self.l.wf()
        &&& 0 <= self.pos@ <= self.l.input@.len()
        &&& tok_at(self.l.input@, self.pos@) == Ok::<SpecToken, u8>(self.cur_token@)
        &&& tok_at(self.l.input@, adv(self.l.input@, self.pos@)) == Ok::<SpecToken, u8>(
            self.peek_token@,
        )
        &&& self.l.position as int == adv(self.l.input@, adv(self.l.input@, self.pos@))
    }

    /// A parser over `l`, with the first two tokens scanned; a lexing error
    /// in either is reported at once.
    pub fn new(l: Lexer) -> (r: Result<Parser, ParseTokenError>)
        requires
            l.wf(),
        ensures
            match r {
                Ok(p) => {
                    &&& p.wf()
                    &&& p.l.input == l.input
                    &&& p.pos@ == l.position as int
                },
                Err(e) => tok_at(l.input@, l.position as int) == Err::<SpecToken, u8>(e.0)
                    || (tok_at(l.input@, l.position as int) is Ok && tok_at(
                    l.input@,
                    adv(l.input@, l.position as int),
                ) == Err::<SpecToken, u8>(e.0)),
            },
    {
        let ghost p0 = l.position as int;
        let mut lx = l;
        let cur = match lx.next_token() {
            Ok(t) => t,
            Err(e) => {
                return Err(ParseTokenError::from(e));
            },
        };
        let peek = match lx.next_token() {
            Ok(t) => t,
            Err(e) => {
                return Err(ParseTokenError::from(e));
            },
        };
        proof {
            crate::lexer::lemma_next_token_bounds(l.input@, p0);
        }
        Ok(Parser { l: lx, cur_token: cur, peek_token: peek, pos: Ghost(p0) })
    }

    /// Shift the lookahead into the current token and scan one more; a
    /// lexing error there is reported and leaves the buffered tokens as they
    /// were.
    pub fn next_token(&mut self) -> (r: Result<(), ParseTokenError>)
        requires
            old(self).wf(),
        ensures
            final(self).l.input == old(self).l.input,
            match r {
                Ok(()) => {
                    &&& final(self).wf()
                    &&& spec_advance(old(self).l.input@, old(self).pos@) == Ok::<int, u8>(
                        final(self).pos@,
                    )
                    &&& final(self).pos@ == adv(old(self).l.input@, old(self).pos@)
                    &&& final(self).cur_token@ == old(self).peek_token@
                },
                Err(e) => spec_advance(old(self).l.input@, old(self).pos@) == Err::<int, u8>(e.0),
            },
    {
        proof {
            crate::lexer::lemma_next_token_bounds(self.l.input@, self.pos@);
            crate::lexer::lemma_next_token_bounds(self.l.input@, adv(self.l.input@, self.pos@));
        }
        let mut next = match self.l.next_token() {
            Ok(t) => t,
            Err(e) => {
                return Err(ParseTokenError::from(e));
            },
        };
        core::mem::swap(&mut self.peek_token, &mut next);
        self.cur_token = next;
        proof {
            self.pos@ = adv(self.l.input@, self.pos@);
        }
        Ok(())
    }

    /// Step onto the next token, surfacing a lexing failure as a parse
    /// error.
    fn advance(&mut self) -> (r: Result<(), ParseError>)
        requires
            old(self).wf(),
        ensures
            final(self).l.input == old(self).l.input,
            match r {
                Ok(()) => {
                    &&& final(self).wf()
                    &&& spec_do_advance(old(self).l.input@, old(self).pos@) == Ok::<
                        int,
                        SpecParseError,
                    >(final(self).pos@)
                    &&& final(self).pos@ == adv(old(self).l.input@, old(self).pos@)
                    &&& final(self).cur_token@ == old(self).peek_token@
                },
                Err(e) => {
                    &&& spec_do_advance(old(self).l.input@, old(self).pos@) == Err::<
                        int,
                        SpecParseError,
                    >(e@)
                    &&& e is IllegalCharacter
                },
            },
    {
        match self.next_token() {
            Ok(()) => Ok(()),
            Err(pe) => Err(ParseError::IllegalCharacter(pe.0)),
        }
    }

    /// Step onto the next token when it is of the expected kind; otherwise
    /// report the mismatch and stand still.
    fn expect_peek(&mut self, expected: TokenKind) -> (r: Result<(), ParseError>)
        requires
            old(self).wf(),
        ensures
            final(self).l.input == old(self).l.input,
            match r {
                Ok(()) => {
                    &&& final(self).wf()
                    &&& spec_expect_peek(old(self).l.input@, old(self).pos@, expected) == Ok::<
                        int,
                        SpecParseError,
                    >(final(self).pos@)
                    &&& final(self).pos@ == adv(old(self).l.input@, old(self).pos@)
                    &&& final(self).cur_token@ == old(self).peek_token@
                },
                Err(e) => {
                    &&& spec_expect_peek(old(self).l.input@, old(self).pos@, expected) == Err::<
                        int,
                        SpecParseError,
                    >(e@)
                    &&& !(e is IllegalCharacter) ==> *final(self) == *old(self)
                },
            },
    {
        if token_has_kind(&self.peek_token, expected) {
            self.advance()
        } else {
            Err(
                ParseError::UnexpectedToken {
                    expected,
                    actual: self.peek_token.duplicate(),
                },
            )
        }
    }
}

/// What every expression-parsing method promises: the result and the new
/// cursor agree with the corresponding spec outcome `o`, the input is
/// untouched, and except after a lexing error the parser stays well-formed
/// with its cursor moved forward, onto `o.next`.
pub open spec fn expr_post(
    pre: Parser,
    post: Parser,
    r: Result<Expression, ParseError>,
    o: ExprOutcome,
) -> bool {
    &&& post.l.input == pre.l.input
    &&& match r {
        Ok(v) => {
            &&& o.result == Ok::<SpecExpression, SpecParseError>(v@)
            &&& post.wf()
            &&& post.pos@ == o.next
            &&& pre.pos@ <= post.pos@
        },
        Err(e) => {
            &&& o.result == Err::<SpecExpression, SpecParseError>(e@)
            &&& !(e is IllegalCharacter) ==> post.wf() && post.pos@ == o.next && pre.pos@
                <= post.pos@
        },
    }
}

/// The views of a sequence of parameter identifiers.
pub open spec fn params_view(ps: Seq<Identifier>) -> Seq<Seq<char>> {
    Seq::new(ps.len(), |i: int| ps[i].value@)
}

impl Parser {
    /// How much input lies beyond the cursor; every parsing step consumes
    /// some of it.
    pub open spec fn remaining(self) -> int {
        self.l.input@.len() - self.pos@
    }

    /// An expression, by precedence climbing: the prefix rule for the
    /// current token, then every infix continuation binding tighter than
    /// `min_prec`.
    fn parse_expression(&mut self, min_prec: u8) -> (r: Result<Expression, ParseError>)
        requires
            old(self).wf(),
        ensures
            expr_post(
                *old(self),
                *final(self),
                r,
                spec_parse_expression(old(self).l.input@, old(self).pos@, min_prec),
            ),
        decreases old(self).remaining(), 4int,
    {
        let left = match self.parse_prefix() {
            Ok(v) => v,
            Err(e) => {
                return Err(e);
            },
        };
        self.parse_infix_loop(left, min_prec)
    }

    /// The Pratt loop around an already parsed left-hand side.
    fn parse_infix_loop(&mut self, left: Expression, min_prec: u8) -> (r: Result<
        Expression,
        ParseError,
    >)
        requires
            old(self).wf(),
        ensures
            expr_post(
                *old(self),
                *final(self),
                r,
                spec_infix_loop(old(self).l.input@, left@, old(self).pos@, min_prec),
            ),
        decreases old(self).remaining(), 3int,
    {
        let ghost input = self.l.input@;
        let ghost p = self.pos@;
        let prec = token_precedence(&self.peek_token);
        if !(min_prec < prec) {
            return Ok(left);
        }
        proof {
            if self.cur_token@ is Eof {
                assert(adv(input, p) == input.len());
                assert(tok_at(input, input.len() as int) == Ok::<SpecToken, u8>(SpecToken::Eof));
                assert(false);
            }
        }
        if token_has_kind(&self.peek_token, TokenKind::Lparen) {
            match self.advance() {
                Ok(()) => {},
                Err(e) => {
                    return Err(e);
                },
            }
            let newleft = match self.parse_call(left) {
                Ok(v) => v,
                Err(e) => {
                    return Err(e);
                },
            };
            self.parse_infix_loop(newleft, min_prec)
        } else {
            let op = token_infix_op(&self.peek_token);
            match self.advance() {
                Ok(()) => {},
                Err(e) => {
                    return Err(e);
                },
            }
            let oprec = token_precedence(&self.cur_token);
            match self.advance() {
                Ok(()) => {},
                Err(e) => {
                    return Err(e);
                },
            }
            let right = match self.parse_expression(oprec) {
                Ok(v) => v,
                Err(e) => {
                    return Err(e);
                },
            };
            let newleft = Expression::InfixExpression {
                operator: op,
                left: Box::new(left),
                right: Box::new(right),
            };
            self.parse_infix_loop(newleft, min_prec)
        }
    }

    /// The prefix rule for the current token; a token with none cannot begin
    /// an expression.
    fn parse_prefix(&mut self) -> (r: Result<Expression, ParseError>)
        requires
            old(self).wf(),
        ensures
            expr_post(
                *old(self),
                *final(self),
                r,
                spec_parse_prefix(old(self).l.input@, old(self).pos@),
            ),
        decreases old(self).remaining(), 2int,
    {
        let ghost input = self.l.input@;
        let ghost p = self.pos@;
        match &self.cur_token {
            Token::Ident(s) => {
                let value = s.clone();
                return Ok(Expression::Identifier(Identifier { value }));
            },
            Token::Int(s) => {
                proof {
                    lemma_int_token_digits(input, p, s@);
                }
                match parse_u64_digits(s) {
                    Some(v) => {
                        return Ok(Expression::IntegerLiteral(v));
                    },
                    None => {
                        return Err(ParseError::IntegerOverflow { text: s.clone() });
                    },
                }
            },
            Token::Kw(Keyword::True) => {
                return Ok(Expression::BooleanLiteral(true));
            },
            Token::Kw(Keyword::False) => {
                return Ok(Expression::BooleanLiteral(false));
            },
            _ => {},
        }
        if token_has_kind(&self.cur_token, TokenKind::Bang) || token_has_kind(
            &self.cur_token,
            TokenKind::Op(Operation::Minus),
        ) {
            self.parse_prefix_operator()
        } else if token_has_kind(&self.cur_token, TokenKind::Lparen) {
            self.parse_group()
        } else if token_has_kind(&self.cur_token, TokenKind::Kw(Keyword::If)) {
            self.parse_if_expression()
        } else if token_has_kind(&self.cur_token, TokenKind::Kw(Keyword::Function)) {
            self.parse_function_literal()
        } else {
            Err(ParseError::NoPrefixRule { actual: self.cur_token.duplicate() })
        }
    }

    /// A unary `!` or `-` applied to the expression after it.
    fn parse_prefix_operator(&mut self) -> (r: Result<Expression, ParseError>)
        requires
            old(self).wf(),
            old(self).cur_token@ is Bang || old(self).cur_token@ == SpecToken::Op(
                Operation::Minus,
            ),
        ensures
            expr_post(
                *old(self),
                *final(self),
                r,
                spec_parse_prefix_operator(old(self).l.input@, old(self).pos@),
            ),
        decreases old(self).remaining(), 1int,
    {
        let ghost input = self.l.input@;
        let ghost p = self.pos@;
        let op = if token_has_kind(&self.cur_token, TokenKind::Bang) {
            PrefixOperator::Not
        } else {
            PrefixOperator::Neg
        };
        match self.advance() {
            Ok(()) => {},
            Err(e) => {
                return Err(e);
            },
        }
        let operand = match self.parse_expression(PREFIX) {
            Ok(v) => v,
            Err(e) => {
                return Err(e);
            },
        };
        Ok(Expression::PrefixExpression { operator: op, operand: Box::new(operand) })
    }

    /// A parenthesized expression, which must close with `)`.
    fn parse_group(&mut self) -> (r: Result<Expression, ParseError>)
        requires
            old(self).wf(),
            old(self).cur_token@ is Lparen,
        ensures
            expr_post(
                *old(self),
                *final(self),
                r,
                spec_parse_group(old(self).l.input@, old(self).pos@),
            ),
        decreases old(self).remaining(), 1int,
    {
        let ghost input = self.l.input@;
        let ghost p = self.pos@;
        match self.advance() {
            Ok(()) => {},
            Err(e) => {
                return Err(e);
            },
        }
        let inner = match self.parse_expression(LOWEST) {
            Ok(v) => v,
            Err(e) => {
                return Err(e);
            },
        };
        match self.expect_peek(TokenKind::Rparen) {
            Ok(()) => Ok(inner),
            Err(e) => Err(e),
        }
    }

    /// A call expression, the cursor on the `(` after the callee.
    fn parse_call(&mut self, function: Expression) -> (r: Result<Expression, ParseError>)
        requires
            old(self).wf(),
            old(self).cur_token@ is Lparen,
        ensures
            expr_post(
                *old(self),
                *final(self),
                r,
                spec_parse_call(old(self).l.input@, function@, old(self).pos@),
            ),
        decreases old(self).remaining(), 1int,
    {
        let ghost input = self.l.input@;
        let ghost p = self.pos@;
        if token_has_kind(&self.peek_token, TokenKind::Rparen) {
            match self.advance() {
                Ok(()) => {},
                Err(e) => {
                    return Err(e);
                },
            }
            let arguments: Vec<Expression> = Vec::new();
            return Ok(Expression::CallExpression { function: Box::new(function), arguments });
        }
        match self.advance() {
            Ok(()) => {},
            Err(e) => {
                return Err(e);
            },
        }
        let arg = match self.parse_expression(LOWEST) {
            Ok(v) => v,
            Err(e) => {
                return Err(e);
            },
        };
        let mut args: Vec<Expression> = Vec::new();
        args.push(arg);
        proof {
            crate::ast::lemma_spec_exprs_push(Seq::<Expression>::empty(), arg);
        }
        self.parse_args_rest(function, args)
    }

    /// The remaining arguments of a call, the cursor on the last token of
    /// the previous argument.
    fn parse_args_rest(&mut self, function: Expression, args: Vec<Expression>) -> (r: Result<
        Expression,
        ParseError,
    >)
        requires
            old(self).wf(),
        ensures
            expr_post(
                *old(self),
                *final(self),
                r,
                spec_parse_args_rest(
                    old(self).l.input@,
                    function@,
                    crate::ast::spec_exprs(args@),
                    old(self).pos@,
                ),
            ),
        decreases old(self).remaining(), 2int,
    {
        let ghost input = self.l.input@;
        let ghost p = self.pos@;
        if token_has_kind(&self.peek_token, TokenKind::Comma) {
            proof {
                if self.cur_token@ is Eof {
                    assert(adv(input, p) == input.len());
                    assert(tok_at(input, input.len() as int) == Ok::<SpecToken, u8>(
                        SpecToken::Eof,
                    ));
                    assert(false);
                }
            }
            match self.advance() {
                Ok(()) => {},
                Err(e) => {
                    return Err(e);
                },
            }
            match self.advance() {
                Ok(()) => {},
                Err(e) => {
                    return Err(e);
                },
            }
            let arg = match self.parse_expression(LOWEST) {
                Ok(v) => v,
                Err(e) => {
                    return Err(e);
                },
            };
            let ghost old_args = args@;
            let mut args2 = args;
            args2.push(arg);
            proof {
                crate::ast::lemma_spec_exprs_push(old_args, arg);
            }
            self.parse_args_rest(function, args2)
        } else {
            match self.expect_peek(TokenKind::Rparen) {
                Ok(()) => Ok(
                    Expression::CallExpression { function: Box::new(function), arguments: args },
                ),
                Err(e) => Err(e),
            }
        }
    }
}

/// What every statement-parsing method promises, in the same shape as
/// `expr_post`.
pub open spec fn stmt_post(
    pre: Parser,
    post: Parser,
    r: Result<Statement, ParseError>,
    o: StmtOutcome,
) -> bool {
    &&& post.l.input == pre.l.input
    &&& match r {
        Ok(v) => {
            &&& o.result == Ok::<SpecStatement, SpecParseError>(v@)
            &&& post.wf()
            &&& post.pos@ == o.next
            &&& pre.pos@ <= post.pos@
        },
        Err(e) => {
            &&& o.result == Err::<SpecStatement, SpecParseError>(e@)
            &&& !(e is IllegalCharacter) ==> post.wf() && post.pos@ == o.next && pre.pos@
                <= post.pos@
        },
    }
}

impl Parser {
    /// A conditional expression, the cursor on `if`.
    #[verifier::rlimit(100)]
    #[verifier::spinoff_prover]
    fn parse_if_expression(&mut self) -> (r: Result<Expression, ParseError>)
        requires
            old(self).wf(),
            old(self).cur_token@ == SpecToken::Kw(Keyword::If),
        ensures
            expr_post(
                *old(self),
                *final(self),
                r,
                spec_parse_if(old(self).l.input@, old(self).pos@),
            ),
        decreases old(self).remaining(), 1int,
    {
        let ghost input = self.l.input@;
        let ghost p = self.pos@;
        let ghost len = self.l.input@.len() as int;
        match self.expect_peek(TokenKind::Lparen) {
            Ok(()) => {},
            Err(e) => {
                return Err(e);
            },
        }
        proof {
            assert(p < adv(input, p) <= len);
            assert(clamp(adv(input, p), p + 1, len) == self.pos@);
        }
        let ghost q = self.pos@;
        match self.advance() {
            Ok(()) => {},
            Err(e) => {
                return Err(e);
            },
        }
        proof {
            assert(q < adv(input, q) <= len);
            assert(clamp(adv(input, q), q + 1, len) == self.pos@);
        }
        let ghost c = self.pos@;
        let condition = match self.parse_expression(LOWEST) {
            Ok(v) => v,
            Err(e) => {
                return Err(e);
            },
        };
        proof {
            let eo = spec_parse_expression(input, c, LOWEST);
            assert(eo.result == Ok::<SpecExpression, SpecParseError>(condition@));
            assert(self.pos@ == eo.next);
        }
        let ghost onext = self.pos@;
        match self.expect_peek(TokenKind::Rparen) {
            Ok(()) => {},
            Err(e) => {
                return Err(e);
            },
        }
        proof {
            assert(onext < adv(input, onext) <= len);
            assert(clamp(adv(input, onext), p + 1, len) == self.pos@);
        }
        let ghost rp = self.pos@;
        match self.expect_peek(TokenKind::Lbrace) {
            Ok(()) => {},
            Err(e) => {
                return Err(e);
            },
        }
        proof {
            assert(rp < adv(input, rp) <= len);
            assert(clamp(adv(input, rp), p + 1, len) == self.pos@);
        }
        let ghost b = self.pos@;
        let consequence = match self.parse_block() {
            Ok(b) => b,
            Err(e) => {
                return Err(e);
            },
        };
        proof {
            let bo = spec_parse_block(input, b);
            assert(bo.result == Ok::<Seq<SpecStatement>, SpecParseError>(consequence@));
            assert(self.pos@ == bo.next);
            assert(clamp(bo.next, p + 1, len) == self.pos@);
        }
        let ghost ep = self.pos@;
        if token_has_kind(&self.peek_token, TokenKind::Kw(Keyword::Else)) {
            match self.advance() {
                Ok(()) => {},
                Err(e) => {
                    return Err(e);
                },
            }
            proof {
                assert(ep < adv(input, ep) <= len);
                assert(clamp(adv(input, ep), ep + 1, len) == self.pos@);
            }
            let ghost ekw = self.pos@;
            match self.expect_peek(TokenKind::Lbrace) {
                Ok(()) => {},
                Err(e) => {
                    return Err(e);
                },
            }
            proof {
                assert(ekw < adv(input, ekw) <= len);
                assert(clamp(adv(input, ekw), ep + 1, len) == self.pos@);
            }
            let ghost b2 = self.pos@;
            let alternative = match self.parse_block() {
                Ok(b) => b,
                Err(e) => {
                    return Err(e);
                },
            };
            proof {
                let bo2 = spec_parse_block(input, b2);
                assert(bo2.result == Ok::<Seq<SpecStatement>, SpecParseError>(alternative@));
                assert(self.pos@ == bo2.next);
            }
            Ok(
                Expression::IfExpression {
                    condition: Box::new(condition),
                    consequence,
                    alternative: Some(alternative),
                },
            )
        } else {
            Ok(
                Expression::IfExpression {
                    condition: Box::new(condition),
                    consequence,
                    alternative: None,
                },
            )
        }
    }

    /// A function literal, the cursor on `fn`.
    fn parse_function_literal(&mut self) -> (r: Result<Expression, ParseError>)
        requires
            old(self).wf(),
            old(self).cur_token@ == SpecToken::Kw(Keyword::Function),
        ensures
            expr_post(
                *old(self),
                *final(self),
                r,
                spec_parse_function(old(self).l.input@, old(self).pos@),
            ),
        decreases old(self).remaining(), 1int,
    {
        let ghost input = self.l.input@;
        let ghost p = self.pos@;
        match self.expect_peek(TokenKind::Lparen) {
            Ok(()) => {},
            Err(e) => {
                return Err(e);
            },
        }
        let parameters = match self.parse_params() {
            Ok(v) => v,
            Err(e) => {
                return Err(e);
            },
        };
        match self.expect_peek(TokenKind::Lbrace) {
            Ok(()) => {},
            Err(e) => {
                return Err(e);
            },
        }
        let body = match self.parse_block() {
            Ok(b) => b,
            Err(e) => {
                return Err(e);
            },
        };
        let result = Expression::FunctionLiteral { parameters, body };
        proof {
            assert(result@->Function_parameters =~= params_view(result->FunctionLiteral_parameters@));
        }
        Ok(result)
    }

    /// A parameter list, the cursor on its `(`.
    fn parse_params(&mut self) -> (r: Result<Vec<Identifier>, ParseError>)
        requires
            old(self).wf(),
            old(self).cur_token@ is Lparen,
        ensures
            ({
                let o = spec_parse_params(old(self).l.input@, old(self).pos@);
                &&& final(self).l.input == old(self).l.input
                &&& match r {
                    Ok(v) => {
                        &&& o.result == Ok::<Seq<Seq<char>>, SpecParseError>(params_view(v@))
                        &&& final(self).wf()
                        &&& final(self).pos@ == o.next
                        &&& old(self).pos@ <= final(self).pos@
                    },
                    Err(e) => {
                        &&& o.result == Err::<Seq<Seq<char>>, SpecParseError>(e@)
                        &&& !(e is IllegalCharacter) ==> final(self).wf() && final(self).pos@
                            == o.next && old(self).pos@ <= final(self).pos@
                    },
                }
            }),
        decreases old(self).remaining(), 1int,
    {
        let ghost input = self.l.input@;
        let ghost p = self.pos@;
        if token_has_kind(&self.peek_token, TokenKind::Rparen) {
            match self.advance() {
                Ok(()) => {},
                Err(e) => {
                    return Err(e);
                },
            }
            let params: Vec<Identifier> = Vec::new();
            proof {
                assert(params_view(params@) =~= Seq::<Seq<char>>::empty());
            }
            return Ok(params);
        }
        let name_opt = match &self.peek_token {
            Token::Ident(s) => Some(s.clone()),
            _ => None,
        };
        match name_opt {
            Some(value) => {
                let ghost name = value@;
                match self.advance() {
                    Ok(()) => {},
                    Err(e) => {
                        return Err(e);
                    },
                }
                let mut params: Vec<Identifier> = Vec::new();
                params.push(Identifier { value });
                proof {
                    assert(params_view(params@) =~= seq![name]);
                }
                self.parse_params_rest(params)
            },
            None => Err(
                ParseError::UnexpectedToken {
                    expected: TokenKind::Ident,
                    actual: self.peek_token.duplicate(),
                },
            ),
        }
    }

    /// The remaining parameters, the cursor on the last identifier read.
    fn parse_params_rest(&mut self, params: Vec<Identifier>) -> (r: Result<
        Vec<Identifier>,
        ParseError,
    >)
        requires
            old(self).wf(),
        ensures
            ({
                let o = spec_parse_params_rest(
                    old(self).l.input@,
                    params_view(params@),
                    old(self).pos@,
                );
                &&& final(self).l.input == old(self).l.input
                &&& match r {
                    Ok(v) => {
                        &&& o.result == Ok::<Seq<Seq<char>>, SpecParseError>(params_view(v@))
                        &&& final(self).wf()
                        &&& final(self).pos@ == o.next
                        &&& old(self).pos@ <= final(self).pos@
                    },
                    Err(e) => {
                        &&& o.result == Err::<Seq<Seq<char>>, SpecParseError>(e@)
                        &&& !(e is IllegalCharacter) ==> final(self).wf() && final(self).pos@
                            == o.next && old(self).pos@ <= final(self).pos@
                    },
                }
            }),
        decreases old(self).remaining(), 1int,
    {
        let ghost input = self.l.input@;
        let ghost p = self.pos@;
        if token_has_kind(&self.peek_token, TokenKind::Comma) {
            proof {
                if self.cur_token@ is Eof {
                    assert(adv(input, p) == input.len());
                    assert(tok_at(input, input.len() as int) == Ok::<SpecToken, u8>(
                        SpecToken::Eof,
                    ));
                    assert(false);
                }
            }
            match self.advance() {
                Ok(()) => {},
                Err(e) => {
                    return Err(e);
                },
            }
            let name_opt = match &self.peek_token {
                Token::Ident(s) => Some(s.clone()),
                _ => None,
            };
            match name_opt {
                Some(value) => {
                    let ghost name = value@;
                    let ghost old_params = params@;
                    match self.advance() {
                        Ok(()) => {},
                        Err(e) => {
                            return Err(e);
                        },
                    }
                    let mut params2 = params;
                    params2.push(Identifier { value });
                    proof {
                        assert(params_view(params2@) =~= params_view(old_params).push(name));
                    }
                    self.parse_params_rest(params2)
                },
                None => Err(
                    ParseError::UnexpectedToken {
                        expected: TokenKind::Ident,
                        actual: self.peek_token.duplicate(),
                    },
                ),
            }
        } else {
            match self.expect_peek(TokenKind::Rparen) {
                Ok(()) => Ok(params),
                Err(e) => Err(e),
            }
        }
    }

    /// A block, the cursor on its `{`; ends with the cursor on `}`.
    fn parse_block(&mut self) -> (r: Result<Block, ParseError>)
        requires
            old(self).wf(),
            old(self).cur_token@ is Lbrace,
        ensures
            ({
                let o = spec_parse_block(old(self).l.input@, old(self).pos@);
                &&& final(self).l.input == old(self).l.input
                &&& match r {
                    Ok(b) => {
                        &&& o.result == Ok::<Seq<SpecStatement>, SpecParseError>(b@)
                        &&& final(self).wf()
                        &&& final(self).pos@ == o.next
                        &&& old(self).pos@ <= final(self).pos@
                    },
                    Err(e) => {
                        &&& o.result == Err::<Seq<SpecStatement>, SpecParseError>(e@)
                        &&& !(e is IllegalCharacter) ==> final(self).wf() && final(self).pos@
                            == o.next && old(self).pos@ <= final(self).pos@
                    },
                }
            }),
        decreases old(self).remaining(), 1int,
    {
        let ghost input = self.l.input@;
        let ghost p = self.pos@;
        match self.advance() {
            Ok(()) => {},
            Err(e) => {
                return Err(e);
            },
        }
        let empty: Vec<Statement> = Vec::new();
        proof {
            assert(crate::ast::spec_stmts(empty@) =~= Seq::<SpecStatement>::empty());
        }
        let statements = match self.parse_block_rest(empty) {
            Ok(v) => v,
            Err(e) => {
                return Err(e);
            },
        };
        Ok(Block { statements })
    }

    /// The statements of a block, until its closing brace.
    #[verifier::rlimit(100)]
    fn parse_block_rest(&mut self, acc: Vec<Statement>) -> (r: Result<Vec<Statement>, ParseError>)
        requires
            old(self).wf(),
        ensures
            ({
                let o = spec_parse_block_rest(
                    old(self).l.input@,
                    crate::ast::spec_stmts(acc@),
                    old(self).pos@,
                );
                &&& final(self).l.input == old(self).l.input
                &&& match r {
                    Ok(v) => {
                        &&& o.result == Ok::<Seq<SpecStatement>, SpecParseError>(
                            crate::ast::spec_stmts(v@),
                        )
                        &&& final(self).wf()
                        &&& final(self).pos@ == o.next
                        &&& old(self).pos@ <= final(self).pos@
                    },
                    Err(e) => {
                        &&& o.result == Err::<Seq<SpecStatement>, SpecParseError>(e@)
                        &&& !(e is IllegalCharacter) ==> final(self).wf() && final(self).pos@
                            == o.next && old(self).pos@ <= final(self).pos@
                    },
                }
            }),
        decreases old(self).remaining(), 7int,
    {
        let ghost input = self.l.input@;
        let ghost p = self.pos@;
        if token_has_kind(&self.cur_token, TokenKind::Rbrace) {
            return Ok(acc);
        }
        if token_has_kind(&self.cur_token, TokenKind::Eof) {
            return Err(
                ParseError::UnexpectedToken {
                    expected: TokenKind::Rbrace,
                    actual: self.cur_token.duplicate(),
                },
            );
        }
        let st = match self.parse_statement() {
            Ok(s) => s,
            Err(e) => {
                return Err(e);
            },
        };
        match self.advance() {
            Ok(()) => {},
            Err(e) => {
                return Err(e);
            },
        }
        let ghost old_acc = acc@;
        let mut acc2 = acc;
        acc2.push(st);
        proof {
            crate::ast::lemma_spec_stmts_push(old_acc, st);
            assert(self.pos@ > p);
        }
        self.parse_block_rest(acc2)
    }

    /// One statement, dispatched on the token under the cursor.
    fn parse_statement(&mut self) -> (r: Result<Statement, ParseError>)
        requires
            old(self).wf(),
        ensures
            stmt_post(
                *old(self),
                *final(self),
                r,
                spec_parse_statement(old(self).l.input@, old(self).pos@),
            ),
        decreases old(self).remaining(), 6int,
    {
        if token_has_kind(&self.cur_token, TokenKind::Kw(Keyword::Let)) {
            self.parse_let_statement()
        } else if token_has_kind(&self.cur_token, TokenKind::Kw(Keyword::Return)) {
            self.parse_return_statement()
        } else {
            self.parse_expression_statement()
        }
    }

    /// A `let` statement, the cursor on `let`.
    fn parse_let_statement(&mut self) -> (r: Result<Statement, ParseError>)
        requires
            old(self).wf(),
            old(self).cur_token@ == SpecToken::Kw(Keyword::Let),
        ensures
            stmt_post(
                *old(self),
                *final(self),
                r,
                spec_parse_let(old(self).l.input@, old(self).pos@),
            ),
        decreases old(self).remaining(), 5int,
    {
        let ghost input = self.l.input@;
        let ghost p = self.pos@;
        let name_opt = match &self.peek_token {
            Token::Ident(s) => Some(s.clone()),
            _ => None,
        };
        let name_str = match name_opt {
            Some(v) => v,
            None => {
                return Err(
                    ParseError::UnexpectedToken {
                        expected: TokenKind::Ident,
                        actual: self.peek_token.duplicate(),
                    },
                );
            },
        };
        match self.advance() {
            Ok(()) => {},
            Err(e) => {
                return Err(e);
            },
        }
        match self.expect_peek(TokenKind::Assign) {
            Ok(()) => {},
            Err(e) => {
                return Err(e);
            },
        }
        match self.advance() {
            Ok(()) => {},
            Err(e) => {
                return Err(e);
            },
        }
        let value = match self.parse_expression(LOWEST) {
            Ok(v) => v,
            Err(e) => {
                return Err(e);
            },
        };
        let stmt = Statement::Let(LetStatement { name: Identifier { value: name_str }, value });
        if token_has_kind(&self.peek_token, TokenKind::Semicolon) {
            match self.advance() {
                Ok(()) => {},
                Err(e) => {
                    return Err(e);
                },
            }
        }
        Ok(stmt)
    }

    /// A `return` statement, the cursor on `return`.
    #[verifier::rlimit(100)]
    #[verifier::spinoff_prover]
    fn parse_return_statement(&mut self) -> (r: Result<Statement, ParseError>)
        requires
            old(self).wf(),
            old(self).cur_token@ == SpecToken::Kw(Keyword::Return),
        ensures
            stmt_post(
                *old(self),
                *final(self),
                r,
                spec_parse_return(old(self).l.input@, old(self).pos@),
            ),
        decreases old(self).remaining(), 5int,
    {
        let ghost input = self.l.input@;
        let ghost p = self.pos@;
        let ghost len = self.l.input@.len() as int;
        match self.advance() {
            Ok(()) => {},
            Err(e) => {
                return Err(e);
            },
        }
        proof {
            assert(p < adv(input, p) <= len);
            assert(clamp(adv(input, p), p + 1, len) == adv(input, p));
        }
        let ghost vp = self.pos@;
        let value = match self.parse_expression(LOWEST) {
            Ok(v) => v,
            Err(e) => {
                return Err(e);
            },
        };
        proof {
            let eo = spec_parse_expression(input, vp, LOWEST);
            assert(eo.result == Ok::<SpecExpression, SpecParseError>(value@));
            assert(self.pos@ == eo.next);
        }
        let stmt = Statement::Return { value };
        if token_has_kind(&self.peek_token, TokenKind::Semicolon) {
            match self.advance() {
                Ok(()) => {},
                Err(e) => {
                    return Err(e);
                },
            }
        }
        Ok(stmt)
    }

    /// An expression statement: a bare expression with an optional `;`.
    fn parse_expression_statement(&mut self) -> (r: Result<Statement, ParseError>)
        requires
            old(self).wf(),
        ensures
            stmt_post(
                *old(self),
                *final(self),
                r,
                spec_parse_expr_statement(old(self).l.input@, old(self).pos@),
            ),
        decreases old(self).remaining(), 5int,
    {
        let ghost input = self.l.input@;
        let ghost p = self.pos@;
        let value = match self.parse_expression(LOWEST) {
            Ok(v) => v,
            Err(e) => {
                return Err(e);
            },
        };
        let stmt = Statement::ExpressionStatement { value };
        if token_has_kind(&self.peek_token, TokenKind::Semicolon) {
            match self.advance() {
                Ok(()) => {},
                Err(e) => {
                    return Err(e);
                },
            }
        }
        Ok(stmt)
    }

    /// The top-level statement loop: collects statements and errors until
    /// the end of the input; a lexing error ends parsing at once.
    #[verifier::rlimit(100)]
    fn parse_program_rest(&mut self, stmts: Vec<Statement>, errors: Vec<ParseError>) -> (r: (
        Vec<Statement>,
        Vec<ParseError>,
    ))
        requires
            old(self).wf(),
        ensures
            ({
                let o = spec_parse_program_rest(
                    old(self).l.input@,
                    crate::ast::spec_stmts(stmts@),
                    errors_view(errors@),
                    old(self).pos@,
                );
                &&& crate::ast::spec_stmts(r.0@) == o.statements
                &&& errors_view(r.1@) == o.errors
            }),
        decreases old(self).remaining(), 9int,
    {
        let ghost input = self.l.input@;
        let ghost p = self.pos@;
        if token_has_kind(&self.cur_token, TokenKind::Eof) {
            return (stmts, errors);
        }
        let mut stmts2 = stmts;
        let mut errors2 = errors;
        let ghost old_stmts = stmts2@;
        let ghost old_errors = errors2@;
        match self.parse_statement() {
            Ok(st) => {
                proof {
                    crate::ast::lemma_spec_stmts_push(old_stmts, st);
                }
                stmts2.push(st);
            },
            Err(e) => {
                let illegal = matches!(e, ParseError::IllegalCharacter(_));
                let ghost ev = e@;
                errors2.push(e);
                proof {
                    assert(errors_view(errors2@) =~= errors_view(old_errors).push(ev));
                }
                if illegal {
                    return (stmts2, errors2);
                }
            },
        }
        let ghost mid_errors = errors2@;
        match self.advance() {
            Ok(()) => {},
            Err(e2) => {
                let ghost ev2 = e2@;
                errors2.push(e2);
                proof {
                    assert(errors_view(errors2@) =~= errors_view(mid_errors).push(ev2));
                }
                return (stmts2, errors2);
            },
        }
        proof {
            assert(self.pos@ > p);
        }
        self.parse_program_rest(stmts2, errors2)
    }

    /// The whole program: statements until the end of the input, with every
    /// parse error collected; the program is returned exactly when no error
    /// occurred, and otherwise the non-empty error list is.
    pub fn parse_program(&mut self) -> (r: Result<Program, Vec<ParseError>>)
        requires
            old(self).wf(),
        ensures
            ({
                let o = spec_parse_program(old(self).l.input@, old(self).pos@);
                match r {
                    Ok(prog) => o.errors.len() == 0 && prog@ == o.statements,
                    Err(errs) => errs@.len() > 0 && errors_view(errs@) == o.errors,
                }
            }),
    {
        let empty_s: Vec<Statement> = Vec::new();
        let empty_e: Vec<ParseError> = Vec::new();
        proof {
            assert(crate::ast::spec_stmts(empty_s@) =~= Seq::<SpecStatement>::empty());
            assert(errors_view(empty_e@) =~= Seq::<SpecParseError>::empty());
        }
        let result = self.parse_program_rest(empty_s, empty_e);
        let statements = result.0;
        let errors = result.1;
        if errors.len() == 0 {
            proof {
                assert(errors_view(errors@).len() == 0);
            }
            Ok(Program { statements })
        } else {
            proof {
                assert(errors_view(errors@).len() > 0);
            }
            Err(errors)
        }
    }
}


} // verus!

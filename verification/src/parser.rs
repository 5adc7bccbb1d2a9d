//! The parser: recursive descent with two tokens of lookahead, precedence
//! climbing for binary operators, and one extra node of lookahead to split
//! the arms of a `when`.
//!
//! Grammar, as the mathematical parser (`spec_parse`) fixes it:
//!
//! ```text
//! program    = block                       (trailing tokens are left alone)
//! block      = bound_expr ("," bound_expr)*     Multi if more than one
//! bound_expr = assignment | expression     assignment iff "=" two tokens ahead
//! assignment = IDENT "=" expression
//! expression = pratt(0)
//! operand    = if_expr | when_expr | primary
//! if_expr    = "if" expression "then" block "else" block "end"
//! when_expr  = "when" expression "->" arm-block ("," ...)* "end"
//! primary    = literal | "fn" params "->" bound_expr | IDENT "(" args ")" | IDENT
//! ```
//!
//! Inside a `when`, the elements of an arm's body and the guard of the next
//! arm are both announced by a comma, so after each comma one bound
//! expression is parsed and the token after it decides: an `->` makes it the
//! next arm's guard, anything else keeps it in the running body.
//!
//! The first failure aborts the parse of the whole input: an unexpected token
//! where a specific one is required, a premature end of input, an
//! unrecognized token opening a primary, or the lexical failure that cut the
//! token stream short.

use crate::ast::{AstNode, AstV, Value, ValueV};
use crate::lexer::{stream_peek, LexErrV, Lexer, LexerV, LexError, view_tokens};
use crate::token::{Token, TokenV};
use vstd::prelude::*;

verus! {

/// A parse failure; the first one aborts the whole parse.
#[derive(Debug, PartialEq)]
pub enum ParseError {
    /// A specific token was required and another one stood there.
    UnexpectedToken { expected: Vec<Token>, got: Token },
    /// An identifier was required and another token stood there.
    ExpectedIdentifier { got: Token },
    /// No primary expression starts with this token.
    InvalidPrimary { got: Token },
    /// The input ended where more was required.
    UnexpectedEnd,
    /// The tokenizer failed; parsing cannot see past that point.
    Lex(LexError),
}

/// The mathematical shape of a parse failure.
pub enum ParseErrV {
    UnexpectedToken { expected: Seq<TokenV>, got: TokenV },
    ExpectedIdentifier { got: TokenV },
    InvalidPrimary { got: TokenV },
    UnexpectedEnd,
    Lex(LexErrV),
}

impl View for ParseError {
    type V = ParseErrV;

    open spec fn view(&self) -> ParseErrV {
        match self {
            ParseError::UnexpectedToken { expected, got } => ParseErrV::UnexpectedToken {
                expected: view_tokens(expected@),
                got: got@,
            },
            ParseError::ExpectedIdentifier { got } => ParseErrV::ExpectedIdentifier { got: got@ },
            ParseError::InvalidPrimary { got } => ParseErrV::InvalidPrimary { got: got@ },
            ParseError::UnexpectedEnd => ParseErrV::UnexpectedEnd,
            ParseError::Lex(e) => ParseErrV::Lex(e@),
        }
    }
}

/// What `parse` yields: one syntax tree, or the first failure.
pub type ParseResult = Result<AstNode, ParseError>;

/// The view of a parse result.
pub open spec fn view_parse_result(r: Result<AstNode, ParseError>) -> Result<AstV, ParseErrV> {
    match r {
        Ok(n) => Ok(n@),
        Err(e) => Err(e@),
    }
}

/// The stream at another position.
pub open spec fn at_pos(v: LexerV, p: int) -> LexerV {
    LexerV { toks: v.toks, err: v.err, pos: p }
}

/// How many tokens are left in front of the position.
pub open spec fn rem(v: LexerV) -> int {
    if v.pos <= v.toks.len() {
        v.toks.len() - v.pos
    } else {
        0
    }
}

/// The position a sub-parse hands back, held to going forward: every
/// sub-parse consumes at least one token, and the executable parser proves
/// it, so the clamp never fires there.
pub open spec fn adv(from: int, to: int) -> int {
    if to > from {
        to
    } else {
        from + 1
    }
}

/// The left and right binding power of an infix operator; `None` for any
/// token that is no infix operator, which ends the climb.
pub open spec fn binding_power(op: TokenV) -> Option<(u8, u8)> {
    match op {
        TokenV::Plus => Some((1u8, 2u8)),
        TokenV::Minus => Some((1u8, 2u8)),
        TokenV::Star => Some((3u8, 4u8)),
        TokenV::Slash => Some((3u8, 4u8)),
        TokenV::And => Some((5u8, 6u8)),
        TokenV::Or => Some((5u8, 6u8)),
        TokenV::Less => Some((7u8, 8u8)),
        TokenV::LessEqual => Some((7u8, 8u8)),
        TokenV::Greater => Some((7u8, 8u8)),
        TokenV::GreaterEqual => Some((7u8, 8u8)),
        TokenV::EqualEqual => Some((9u8, 10u8)),
        TokenV::BangEqual => Some((9u8, 10u8)),
        _ => None,
    }
}

/// A comma-separated sequence as one node: the single node itself, else a
/// `Multi`.
pub open spec fn mk_block(elems: Seq<AstV>) -> AstV {
    if elems.len() == 1 {
        elems[0]
    } else {
        AstV::Multi(elems)
    }
}

/// A whole program: one block; whatever follows it is left alone.
pub open spec fn spec_parse(v: LexerV) -> (Result<AstV, ParseErrV>, int)
    decreases rem(v), 13int,
{
    spec_block(v)
}

/// A block: bound expressions separated by commas.
pub open spec fn spec_block(v: LexerV) -> (Result<AstV, ParseErrV>, int)
    decreases rem(v), 12int,
{
    let (r, p) = spec_bound_expr(v);
    match r {
        Err(e) => (Err(e), p),
        Ok(first) => {
            let (rl, pl) = spec_block_rest(at_pos(v, adv(v.pos, p)), seq![first]);
            match rl {
                Err(e) => (Err(e), pl),
                Ok(elems) => (Ok(mk_block(elems)), pl),
            }
        },
    }
}

/// The remainder of a block: as long as a comma follows, one more bound
/// expression belongs to it.
pub open spec fn spec_block_rest(v: LexerV, acc: Seq<AstV>) -> (Result<Seq<AstV>, ParseErrV>, int)
    decreases rem(v), 11int,
{
    match stream_peek(v, 0) {
        Some(Ok(TokenV::Comma)) => {
            let (r, p) = spec_bound_expr(at_pos(v, v.pos + 1));
            match r {
                Err(e) => (Err(e), p),
                Ok(e) => spec_block_rest(at_pos(v, adv(v.pos, p)), acc.push(e)),
            }
        },
        _ => (Ok(acc), v.pos),
    }
}

/// An assignment exactly when `=` stands two tokens ahead, else an
/// expression; what stands before a chosen `=` must then turn out to be an
/// identifier.
pub open spec fn spec_bound_expr(v: LexerV) -> (Result<AstV, ParseErrV>, int)
    decreases rem(v), 10int,
{
    if stream_peek(v, 1) matches Some(Ok(TokenV::Equal)) {
        spec_assign(v)
    } else {
        spec_expression(v)
    }
}

/// `IDENT "=" expression`; the assignment's value is what the expression
/// yields.
pub open spec fn spec_assign(v: LexerV) -> (Result<AstV, ParseErrV>, int)
    decreases rem(v), 9int,
{
    match stream_peek(v, 0) {
        Some(Ok(TokenV::Identifier(name))) => match stream_peek(v, 1) {
            Some(Ok(TokenV::Equal)) => {
                let (r, p) = spec_expression(at_pos(v, v.pos + 2));
                match r {
                    Err(e) => (Err(e), p),
                    Ok(body) => (Ok(AstV::Assign { ident: name, body: Box::new(body) }), p),
                }
            },
            Some(Ok(t)) => (
                Err(ParseErrV::UnexpectedToken { expected: seq![TokenV::Equal], got: t }),
                v.pos,
            ),
            Some(Err(e)) => (Err(ParseErrV::Lex(e)), v.pos),
            None => (Err(ParseErrV::UnexpectedEnd), v.pos),
        },
        Some(Ok(t)) => (Err(ParseErrV::ExpectedIdentifier { got: t }), v.pos),
        Some(Err(e)) => (Err(ParseErrV::Lex(e)), v.pos),
        None => (Err(ParseErrV::UnexpectedEnd), v.pos),
    }
}

/// An expression: a precedence climb from the lowest binding power.
pub open spec fn spec_expression(v: LexerV) -> (Result<AstV, ParseErrV>, int)
    decreases rem(v), 9int,
{
    spec_pratt(v, 0)
}

/// Precedence climbing: one operand, then every infix operator whose left
/// power reaches `min_bp`, each folding the climb of its right side into a
/// `Binary` node. All operators are left-associative.
pub open spec fn spec_pratt(v: LexerV, min_bp: u8) -> (Result<AstV, ParseErrV>, int)
    decreases rem(v), 8int,
{
    let (r, p) = spec_operand(v);
    match r {
        Err(e) => (Err(e), p),
        Ok(lhs) => spec_pratt_loop(at_pos(v, adv(v.pos, p)), lhs, min_bp),
    }
}

/// The climb's loop: stop at the end of the input, at any token without
/// binding power, or at an operator too weak for the caller; otherwise
/// consume the operator, climb its right side, fold, and go on.
pub open spec fn spec_pratt_loop(v: LexerV, lhs: AstV, min_bp: u8) -> (
    Result<AstV, ParseErrV>,
    int,
)
    decreases rem(v), 7int,
{
    match stream_peek(v, 0) {
        None => (Ok(lhs), v.pos),
        Some(Err(e)) => (Err(ParseErrV::Lex(e)), v.pos),
        Some(Ok(op)) => match binding_power(op) {
            None => (Ok(lhs), v.pos),
            Some((l_bp, r_bp)) => if min_bp > l_bp {
                (Ok(lhs), v.pos)
            } else {
                let (r, p) = spec_pratt(at_pos(v, v.pos + 1), r_bp);
                match r {
                    Err(e) => (Err(e), p),
                    Ok(rhs) => spec_pratt_loop(
                        at_pos(v, adv(v.pos, p)),
                        AstV::Binary { left: Box::new(lhs), op, right: Box::new(rhs) },
                        min_bp,
                    ),
                }
            },
        },
    }
}

/// The operand of a climb: a conditional, a `when`, or a primary.
pub open spec fn spec_operand(v: LexerV) -> (Result<AstV, ParseErrV>, int)
    decreases rem(v), 6int,
{
    match stream_peek(v, 0) {
        Some(Ok(TokenV::If)) => spec_if(v),
        Some(Ok(TokenV::When)) => spec_when(v),
        _ => spec_primary(v),
    }
}

/// `"if" expression "then" block "else" block "end"`.
pub open spec fn spec_if(v: LexerV) -> (Result<AstV, ParseErrV>, int)
    decreases rem(v), 5int,
{
    match stream_peek(v, 0) {
        Some(Ok(TokenV::If)) => {
            let (rc, pc) = spec_expression(at_pos(v, v.pos + 1));
            match rc {
                Err(e) => (Err(e), pc),
                Ok(cond) => {
                    let p1 = adv(v.pos, pc);
                    match stream_peek(at_pos(v, p1), 0) {
                        Some(Ok(TokenV::Then)) => {
                            let (rt, pt) = spec_block(at_pos(v, p1 + 1));
                            match rt {
                                Err(e) => (Err(e), pt),
                                Ok(tb) => {
                                    let p2 = adv(p1, pt);
                                    match stream_peek(at_pos(v, p2), 0) {
                                        Some(Ok(TokenV::Else)) => {
                                            let (rf, pf) = spec_block(at_pos(v, p2 + 1));
                                            match rf {
                                                Err(e) => (Err(e), pf),
                                                Ok(fb) => {
                                                    let p3 = adv(p2, pf);
                                                    match stream_peek(at_pos(v, p3), 0) {
                                                        Some(Ok(TokenV::End)) => (
                                                            Ok(
                                                                AstV::If {
                                                                    cond: Box::new(cond),
                                                                    true_: Box::new(tb),
                                                                    false_: Box::new(fb),
                                                                },
                                                            ),
                                                            p3 + 1,
                                                        ),
                                                        Some(Ok(t)) => (
                                                            Err(
                                                                ParseErrV::UnexpectedToken {
                                                                    expected: seq![TokenV::End],
                                                                    got: t,
                                                                },
                                                            ),
                                                            p3,
                                                        ),
                                                        Some(Err(e)) => (
                                                            Err(ParseErrV::Lex(e)),
                                                            p3,
                                                        ),
                                                        None => (
                                                            Err(ParseErrV::UnexpectedEnd),
                                                            p3,
                                                        ),
                                                    }
                                                },
                                            }
                                        },
                                        Some(Ok(t)) => (
                                            Err(
                                                ParseErrV::UnexpectedToken {
                                                    expected: seq![TokenV::Else],
                                                    got: t,
                                                },
                                            ),
                                            p2,
                                        ),
                                        Some(Err(e)) => (Err(ParseErrV::Lex(e)), p2),
                                        None => (Err(ParseErrV::UnexpectedEnd), p2),
                                    }
                                },
                            }
                        },
                        Some(Ok(t)) => (
                            Err(
                                ParseErrV::UnexpectedToken { expected: seq![TokenV::Then], got: t },
                            ),
                            p1,
                        ),
                        Some(Err(e)) => (Err(ParseErrV::Lex(e)), p1),
                        None => (Err(ParseErrV::UnexpectedEnd), p1),
                    }
                },
            }
        },
        Some(Ok(t)) => (
            Err(ParseErrV::UnexpectedToken { expected: seq![TokenV::If], got: t }),
            v.pos,
        ),
        Some(Err(e)) => (Err(ParseErrV::Lex(e)), v.pos),
        None => (Err(ParseErrV::UnexpectedEnd), v.pos),
    }
}

/// `"when" expression "->" ...`: the head of a `when`; its arms follow.
pub open spec fn spec_when(v: LexerV) -> (Result<AstV, ParseErrV>, int)
    decreases rem(v), 5int,
{
    match stream_peek(v, 0) {
        Some(Ok(TokenV::When)) => {
            let (rg, pg) = spec_expression(at_pos(v, v.pos + 1));
            match rg {
                Err(e) => (Err(e), pg),
                Ok(guard) => {
                    let p1 = adv(v.pos, pg);
                    match stream_peek(at_pos(v, p1), 0) {
                        Some(Ok(TokenV::RThinArr)) => {
                            let (ra, pa) = spec_when_body(
                                at_pos(v, p1 + 1),
                                Seq::empty(),
                                guard,
                                Seq::empty(),
                            );
                            match ra {
                                Err(e) => (Err(e), pa),
                                Ok(arms) => (Ok(AstV::When(arms)), pa),
                            }
                        },
                        Some(Ok(t)) => (
                            Err(
                                ParseErrV::UnexpectedToken {
                                    expected: seq![TokenV::RThinArr],
                                    got: t,
                                },
                            ),
                            p1,
                        ),
                        Some(Err(e)) => (Err(ParseErrV::Lex(e)), p1),
                        None => (Err(ParseErrV::UnexpectedEnd), p1),
                    }
                },
            }
        },
        Some(Ok(t)) => (
            Err(ParseErrV::UnexpectedToken { expected: seq![TokenV::When], got: t }),
            v.pos,
        ),
        Some(Err(e)) => (Err(ParseErrV::Lex(e)), v.pos),
        None => (Err(ParseErrV::UnexpectedEnd), v.pos),
    }
}

/// One more element of the running arm's body; then `end` closes the whole
/// `when`, and a comma announces either another element or — when an `->`
/// follows it — the next arm's guard.
pub open spec fn spec_when_body(
    v: LexerV,
    done: Seq<(AstV, AstV)>,
    guard: AstV,
    acc: Seq<AstV>,
) -> (Result<Seq<(AstV, AstV)>, ParseErrV>, int)
    decreases rem(v), 12int,
{
    let (re, pe) = spec_bound_expr(v);
    match re {
        Err(e) => (Err(e), pe),
        Ok(elem) => {
            let p1 = adv(v.pos, pe);
            match stream_peek(at_pos(v, p1), 0) {
                Some(Ok(TokenV::End)) => (
                    Ok(done.push((guard, mk_block(acc.push(elem))))),
                    p1 + 1,
                ),
                Some(Ok(TokenV::Comma)) => spec_when_cont(
                    at_pos(v, p1 + 1),
                    done,
                    guard,
                    acc.push(elem),
                ),
                Some(Ok(t)) => (
                    Err(
                        ParseErrV::UnexpectedToken {
                            expected: seq![TokenV::Comma, TokenV::End],
                            got: t,
                        },
                    ),
                    p1,
                ),
                Some(Err(e)) => (Err(ParseErrV::Lex(e)), p1),
                None => (Err(ParseErrV::UnexpectedEnd), p1),
            }
        },
    }
}

/// The bound expression after a comma inside a `when`: an `->` after it makes
/// it the next arm's guard and closes the running arm; `end` closes the whole
/// `when` with it; a comma keeps it in the running body.
pub open spec fn spec_when_cont(
    v: LexerV,
    done: Seq<(AstV, AstV)>,
    guard: AstV,
    acc: Seq<AstV>,
) -> (Result<Seq<(AstV, AstV)>, ParseErrV>, int)
    decreases rem(v), 12int,
{
    let (re, pe) = spec_bound_expr(v);
    match re {
        Err(e) => (Err(e), pe),
        Ok(elem) => {
            let p1 = adv(v.pos, pe);
            match stream_peek(at_pos(v, p1), 0) {
                Some(Ok(TokenV::RThinArr)) => if elem matches AstV::Assign { ident: _, body: _ } {
                    (
                        Err(
                            ParseErrV::UnexpectedToken {
                                expected: seq![TokenV::Comma, TokenV::End],
                                got: TokenV::RThinArr,
                            },
                        ),
                        p1,
                    )
                } else {
                    spec_when_body(
                        at_pos(v, p1 + 1),
                        done.push((guard, mk_block(acc))),
                        elem,
                        Seq::empty(),
                    )
                },
                Some(Ok(TokenV::End)) => (
                    Ok(done.push((guard, mk_block(acc.push(elem))))),
                    p1 + 1,
                ),
                Some(Ok(TokenV::Comma)) => spec_when_cont(
                    at_pos(v, p1 + 1),
                    done,
                    guard,
                    acc.push(elem),
                ),
                Some(Ok(t)) => (
                    Err(
                        ParseErrV::UnexpectedToken {
                            expected: seq![TokenV::Comma, TokenV::End],
                            got: t,
                        },
                    ),
                    p1,
                ),
                Some(Err(e)) => (Err(ParseErrV::Lex(e)), p1),
                None => (Err(ParseErrV::UnexpectedEnd), p1),
            }
        },
    }
}

/// A primary: a literal, a function literal, a call when `(` follows the
/// identifier, or a bare variable reference.
pub open spec fn spec_primary(v: LexerV) -> (Result<AstV, ParseErrV>, int)
    decreases rem(v), 5int,
{
    match stream_peek(v, 0) {
        Some(Ok(TokenV::Fn)) => spec_fn_decl(v),
        Some(Ok(TokenV::Identifier(name))) => if stream_peek(v, 1) matches Some(
            Ok(TokenV::LRoundParen),
        ) {
            spec_call(v)
        } else {
            (Ok(AstV::Variable(name)), v.pos + 1)
        },
        Some(Ok(TokenV::Nil)) => (Ok(AstV::Primary(ValueV::Nil)), v.pos + 1),
        Some(Ok(TokenV::Bool(b))) => (Ok(AstV::Primary(ValueV::Bool(b))), v.pos + 1),
        Some(Ok(TokenV::Number(bits))) => (Ok(AstV::Primary(ValueV::Number(bits))), v.pos + 1),
        Some(Ok(TokenV::Str(text))) => (Ok(AstV::Primary(ValueV::Str(text))), v.pos + 1),
        Some(Ok(t)) => (Err(ParseErrV::InvalidPrimary { got: t }), v.pos),
        Some(Err(e)) => (Err(ParseErrV::Lex(e)), v.pos),
        None => (Err(ParseErrV::UnexpectedEnd), v.pos),
    }
}

/// `IDENT "(" (expression ("," expression)*)? ")"`: a call of the function a
/// name is bound to.
pub open spec fn spec_call(v: LexerV) -> (Result<AstV, ParseErrV>, int)
    decreases rem(v), 4int,
{
    match (stream_peek(v, 0), stream_peek(v, 1)) {
        (Some(Ok(TokenV::Identifier(name))), Some(Ok(TokenV::LRoundParen))) => {
            if stream_peek(v, 2) matches Some(Ok(TokenV::RRoundParen)) {
                (Ok(AstV::Call { ident: name, args: Seq::empty() }), v.pos + 3)
            } else {
                let (ra, pa) = spec_call_args(at_pos(v, v.pos + 2), Seq::empty());
                match ra {
                    Err(e) => (Err(e), pa),
                    Ok(args) => (Ok(AstV::Call { ident: name, args }), pa),
                }
            }
        },
        (Some(Ok(t)), _) => (Err(ParseErrV::ExpectedIdentifier { got: t }), v.pos),
        (Some(Err(e)), _) => (Err(ParseErrV::Lex(e)), v.pos),
        (None, _) => (Err(ParseErrV::UnexpectedEnd), v.pos),
    }
}

/// The arguments of a call: expressions separated by commas, closed by `)`.
pub open spec fn spec_call_args(v: LexerV, acc: Seq<AstV>) -> (
    Result<Seq<AstV>, ParseErrV>,
    int,
)
    decreases rem(v), 12int,
{
    let (re, pe) = spec_expression(v);
    match re {
        Err(e) => (Err(e), pe),
        Ok(arg) => {
            let p1 = adv(v.pos, pe);
            match stream_peek(at_pos(v, p1), 0) {
                Some(Ok(TokenV::RRoundParen)) => (Ok(acc.push(arg)), p1 + 1),
                Some(Ok(TokenV::Comma)) => spec_call_args(at_pos(v, p1 + 1), acc.push(arg)),
                Some(Ok(t)) => (
                    Err(
                        ParseErrV::UnexpectedToken {
                            expected: seq![TokenV::Comma, TokenV::RRoundParen],
                            got: t,
                        },
                    ),
                    p1,
                ),
                Some(Err(e)) => (Err(ParseErrV::Lex(e)), p1),
                None => (Err(ParseErrV::UnexpectedEnd), p1),
            }
        },
    }
}

/// `"fn" (IDENT ("," IDENT)*)? "->" bound_expr`: a function literal; the
/// parameter list may be empty, and the body is one bound expression.
pub open spec fn spec_fn_decl(v: LexerV) -> (Result<AstV, ParseErrV>, int)
    decreases rem(v), 4int,
{
    match stream_peek(v, 0) {
        Some(Ok(TokenV::Fn)) => {
            if stream_peek(v, 1) matches Some(Ok(TokenV::RThinArr)) {
                let (rb, pb) = spec_bound_expr(at_pos(v, v.pos + 2));
                match rb {
                    Err(e) => (Err(e), pb),
                    Ok(body) => (
                        Ok(
                            AstV::Primary(
                                ValueV::Fn { params: Seq::empty(), body: Box::new(body) },
                            ),
                        ),
                        pb,
                    ),
                }
            } else {
                let (rp, pp) = spec_params(at_pos(v, v.pos + 1), Seq::empty());
                match rp {
                    Err(e) => (Err(e), pp),
                    Ok(params) => {
                        let (rb, pb) = spec_bound_expr(at_pos(v, adv(v.pos + 1, pp)));
                        match rb {
                            Err(e) => (Err(e), pb),
                            Ok(body) => (
                                Ok(
                                    AstV::Primary(
                                        ValueV::Fn { params, body: Box::new(body) },
                                    ),
                                ),
                                pb,
                            ),
                        }
                    },
                }
            }
        },
        Some(Ok(t)) => (
            Err(ParseErrV::UnexpectedToken { expected: seq![TokenV::Fn], got: t }),
            v.pos,
        ),
        Some(Err(e)) => (Err(ParseErrV::Lex(e)), v.pos),
        None => (Err(ParseErrV::UnexpectedEnd), v.pos),
    }
}

/// Executable side of `binding_power`.
fn infix_binding_power(op: &Token) -> (r: Option<(u8, u8)>)
    ensures
        r == binding_power(op@),
{
    match op {
        Token::Plus | Token::Minus => Some((1, 2)),
        Token::Star | Token::Slash => Some((3, 4)),
        Token::And | Token::Or => Some((5, 6)),
        Token::Less | Token::LessEqual | Token::Greater | Token::GreaterEqual => Some((7, 8)),
        Token::EqualEqual | Token::BangEqual => Some((9, 10)),
        _ => None,
    }
}

/// Executable side of `mk_block`.
fn mk_block_node(elems: Vec<AstNode>) -> (r: AstNode)
    requires
        elems@.len() >= 1,
    ensures
        r@ == mk_block(crate::ast::view_nodes(elems@)),
{
    proof {
        crate::ast::lemma_view_nodes(elems@);
    }
    if elems.len() == 1 {
        let mut elems = elems;
        match elems.pop() {
            Some(e) => e,
            None => AstNode::Primary(Value::Nil),
        }
    } else {
        AstNode::Multi(elems)
    }
}

/// The parameter names of a function literal, closed by `->`; the position
/// handed back stands just past the `->`.
pub open spec fn spec_params(v: LexerV, acc: Seq<Seq<char>>) -> (
    Result<Seq<Seq<char>>, ParseErrV>,
    int,
)
    decreases rem(v), 3int,
{
    match stream_peek(v, 0) {
        Some(Ok(TokenV::Identifier(name))) => match stream_peek(v, 1) {
            Some(Ok(TokenV::Comma)) => spec_params(at_pos(v, v.pos + 2), acc.push(name)),
            Some(Ok(TokenV::RThinArr)) => (Ok(acc.push(name)), v.pos + 2),
            Some(Ok(t)) => (
                Err(
                    ParseErrV::UnexpectedToken {
                        expected: seq![TokenV::Comma, TokenV::RThinArr],
                        got: t,
                    },
                ),
                v.pos,
            ),
            Some(Err(e)) => (Err(ParseErrV::Lex(e)), v.pos),
            None => (Err(ParseErrV::UnexpectedEnd), v.pos),
        },
        Some(Ok(t)) => (Err(ParseErrV::ExpectedIdentifier { got: t }), v.pos),
        Some(Err(e)) => (Err(ParseErrV::Lex(e)), v.pos),
        None => (Err(ParseErrV::UnexpectedEnd), v.pos),
    }
}

/// Parse one program from the token stream: a block; trailing tokens are
/// left unconsumed. The result — tree or failure — and the stream position
/// afterwards are exactly what the mathematical parser `spec_parse` yields.
pub fn parse(lexer: &mut Lexer) -> (r: ParseResult)
    requires
        old(lexer).wf(),
    ensures
        final(lexer).wf(),
        final(lexer)@.toks == old(lexer)@.toks,
        final(lexer)@.err == old(lexer)@.err,
        view_parse_result(r) == spec_parse(old(lexer)@).0,
        final(lexer)@.pos == spec_parse(old(lexer)@).1,
    decreases rem(lexer@), 13int,
{
    parse_block(lexer)
}

/// `bound_expr ("," bound_expr)*`, as one node.
fn parse_block(l: &mut Lexer) -> (r: ParseResult)
    requires
        old(l).wf(),
    ensures
        final(l).wf(),
        final(l)@.toks == old(l)@.toks,
        final(l)@.err == old(l)@.err,
        final(l)@.pos >= old(l)@.pos,
        r is Ok ==> final(l)@.pos > old(l)@.pos,
        view_parse_result(r) == spec_block(old(l)@).0,
        final(l)@.pos == spec_block(old(l)@).1,
    decreases rem(l@), 12int,
{
    let first = match parse_bound_expr(l) {
        Err(e) => {
            return Err(e);
        },
        Ok(n) => n,
    };
    let mut elems: Vec<AstNode> = Vec::new();
    elems.push(first);
    proof {
        crate::ast::lemma_view_nodes(elems@);
        assert(crate::ast::view_nodes(elems@) =~= seq![elems@[0]@]);
    }
    match parse_block_rest(l, &mut elems) {
        Err(e) => Err(e),
        Ok(()) => Ok(mk_block_node(elems)),
    }
}

/// The remainder of a block, growing `elems` while commas follow.
fn parse_block_rest(l: &mut Lexer, elems: &mut Vec<AstNode>) -> (r: Result<(), ParseError>)
    requires
        old(l).wf(),
    ensures
        final(l).wf(),
        final(l)@.toks == old(l)@.toks,
        final(l)@.err == old(l)@.err,
        final(l)@.pos >= old(l)@.pos,
        final(elems)@.len() >= old(elems)@.len(),
        ({
            let (res, p) = spec_block_rest(old(l)@, crate::ast::view_nodes(old(elems)@));
            &&& final(l)@.pos == p
            &&& match r {
                Ok(()) => res == Ok::<Seq<AstV>, ParseErrV>(
                    crate::ast::view_nodes(final(elems)@),
                ),
                Err(e) => res == Err::<Seq<AstV>, ParseErrV>(e@),
            }
        }),
    decreases rem(l@), 11int,
{
    let p0 = l.peek_token();
    match p0 {
        Some(Ok(Token::Comma)) => {
            let _ = l.next_token();
            match parse_bound_expr(l) {
                Err(e) => Err(e),
                Ok(n) => {
                    let ghost prev = elems@;
                    elems.push(n);
                    proof {
                        crate::ast::lemma_view_nodes(prev);
                        crate::ast::lemma_view_nodes(elems@);
                        assert(crate::ast::view_nodes(elems@) =~= crate::ast::view_nodes(
                            prev,
                        ).push(n@));
                    }
                    parse_block_rest(l, elems)
                },
            }
        },
        _ => Ok(()),
    }
}

/// Dispatch between assignment and expression on the two-token lookahead.
fn parse_bound_expr(l: &mut Lexer) -> (r: ParseResult)
    requires
        old(l).wf(),
    ensures
        final(l).wf(),
        final(l)@.toks == old(l)@.toks,
        final(l)@.err == old(l)@.err,
        final(l)@.pos >= old(l)@.pos,
        r is Ok ==> final(l)@.pos > old(l)@.pos,
        view_parse_result(r) == spec_bound_expr(old(l)@).0,
        final(l)@.pos == spec_bound_expr(old(l)@).1,
    decreases rem(l@), 10int,
{
    let p1 = l.peek_two_token();
    if matches!(p1, Some(Ok(Token::Equal))) {
        parse_assign(l)
    } else {
        parse_expression(l)
    }
}

/// `IDENT "=" expression`.
fn parse_assign(l: &mut Lexer) -> (r: ParseResult)
    requires
        old(l).wf(),
    ensures
        final(l).wf(),
        final(l)@.toks == old(l)@.toks,
        final(l)@.err == old(l)@.err,
        final(l)@.pos >= old(l)@.pos,
        r is Ok ==> final(l)@.pos > old(l)@.pos,
        view_parse_result(r) == spec_assign(old(l)@).0,
        final(l)@.pos == spec_assign(old(l)@).1,
    decreases rem(l@), 9int,
{
    let p0 = l.peek_token();
    match p0 {
        Some(Ok(Token::Identifier(name))) => {
            let p1 = l.peek_two_token();
            match p1 {
                Some(Ok(Token::Equal)) => {
                    let _ = l.next_token();
                    let _ = l.next_token();
                    match parse_expression(l) {
                        Err(e) => Err(e),
                        Ok(body) => Ok(AstNode::Assign { ident: name, body: Box::new(body) }),
                    }
                },
                Some(Ok(t)) => {
                    let exp = vec![Token::Equal];
                    proof {
                        assert(view_tokens(exp@) =~= seq![TokenV::Equal]);
                    }
                    Err(ParseError::UnexpectedToken { expected: exp, got: t })
                },
                Some(Err(e)) => Err(ParseError::Lex(e)),
                None => Err(ParseError::UnexpectedEnd),
            }
        },
        Some(Ok(t)) => Err(ParseError::ExpectedIdentifier { got: t }),
        Some(Err(e)) => Err(ParseError::Lex(e)),
        None => Err(ParseError::UnexpectedEnd),
    }
}

/// An expression: the climb from binding power zero.
fn parse_expression(l: &mut Lexer) -> (r: ParseResult)
    requires
        old(l).wf(),
    ensures
        final(l).wf(),
        final(l)@.toks == old(l)@.toks,
        final(l)@.err == old(l)@.err,
        final(l)@.pos >= old(l)@.pos,
        r is Ok ==> final(l)@.pos > old(l)@.pos,
        view_parse_result(r) == spec_expression(old(l)@).0,
        final(l)@.pos == spec_expression(old(l)@).1,
    decreases rem(l@), 9int,
{
    parse_pratt(l, 0)
}

/// One operand, then the climb's loop.
fn parse_pratt(l: &mut Lexer, min_bp: u8) -> (r: ParseResult)
    requires
        old(l).wf(),
    ensures
        final(l).wf(),
        final(l)@.toks == old(l)@.toks,
        final(l)@.err == old(l)@.err,
        final(l)@.pos >= old(l)@.pos,
        r is Ok ==> final(l)@.pos > old(l)@.pos,
        view_parse_result(r) == spec_pratt(old(l)@, min_bp).0,
        final(l)@.pos == spec_pratt(old(l)@, min_bp).1,
    decreases rem(l@), 8int,
{
    match parse_operand(l) {
        Err(e) => Err(e),
        Ok(lhs) => parse_pratt_loop(l, lhs, min_bp),
    }
}

/// Fold infix operators into `Binary` nodes while their left power reaches
/// `min_bp`.
fn parse_pratt_loop(l: &mut Lexer, lhs: AstNode, min_bp: u8) -> (r: ParseResult)
    requires
        old(l).wf(),
    ensures
        final(l).wf(),
        final(l)@.toks == old(l)@.toks,
        final(l)@.err == old(l)@.err,
        final(l)@.pos >= old(l)@.pos,
        view_parse_result(r) == spec_pratt_loop(old(l)@, lhs@, min_bp).0,
        final(l)@.pos == spec_pratt_loop(old(l)@, lhs@, min_bp).1,
    decreases rem(l@), 7int,
{
    let p0 = l.peek_token();
    match p0 {
        None => Ok(lhs),
        Some(Err(e)) => Err(ParseError::Lex(e)),
        Some(Ok(op)) => {
            match infix_binding_power(&op) {
                None => Ok(lhs),
                Some((l_bp, r_bp)) => {
                    if min_bp > l_bp {
                        Ok(lhs)
                    } else {
                        let _ = l.next_token();
                        match parse_pratt(l, r_bp) {
                            Err(e) => Err(e),
                            Ok(rhs) => {
                                let folded = AstNode::Binary {
                                    left: Box::new(lhs),
                                    op,
                                    right: Box::new(rhs),
                                };
                                parse_pratt_loop(l, folded, min_bp)
                            },
                        }
                    }
                },
            }
        },
    }
}

/// A conditional, a `when`, or a primary.
fn parse_operand(l: &mut Lexer) -> (r: ParseResult)
    requires
        old(l).wf(),
    ensures
        final(l).wf(),
        final(l)@.toks == old(l)@.toks,
        final(l)@.err == old(l)@.err,
        final(l)@.pos >= old(l)@.pos,
        r is Ok ==> final(l)@.pos > old(l)@.pos,
        view_parse_result(r) == spec_operand(old(l)@).0,
        final(l)@.pos == spec_operand(old(l)@).1,
    decreases rem(l@), 6int,
{
    let p0 = l.peek_token();
    match p0 {
        Some(Ok(Token::If)) => parse_if(l),
        Some(Ok(Token::When)) => parse_when(l),
        _ => parse_primary(l),
    }
}

/// `"if" expression "then" block "else" block "end"`.
fn parse_if(l: &mut Lexer) -> (r: ParseResult)
    requires
        old(l).wf(),
    ensures
        final(l).wf(),
        final(l)@.toks == old(l)@.toks,
        final(l)@.err == old(l)@.err,
        final(l)@.pos >= old(l)@.pos,
        r is Ok ==> final(l)@.pos > old(l)@.pos,
        view_parse_result(r) == spec_if(old(l)@).0,
        final(l)@.pos == spec_if(old(l)@).1,
    decreases rem(l@), 5int,
{
    let p0 = l.peek_token();
    match p0 {
        Some(Ok(Token::If)) => {
            let _ = l.next_token();
            let cond = match parse_expression(l) {
                Err(e) => {
                    return Err(e);
                },
                Ok(n) => n,
            };
            let pt = l.peek_token();
            match pt {
                Some(Ok(Token::Then)) => {},
                Some(Ok(t)) => {
                    let exp = vec![Token::Then];
                    proof {
                        assert(view_tokens(exp@) =~= seq![TokenV::Then]);
                    }
                    return Err(ParseError::UnexpectedToken { expected: exp, got: t });
                },
                Some(Err(e)) => {
                    return Err(ParseError::Lex(e));
                },
                None => {
                    return Err(ParseError::UnexpectedEnd);
                },
            }
            let _ = l.next_token();
            let tb = match parse_block(l) {
                Err(e) => {
                    return Err(e);
                },
                Ok(n) => n,
            };
            let pe = l.peek_token();
            match pe {
                Some(Ok(Token::Else)) => {},
                Some(Ok(t)) => {
                    let exp = vec![Token::Else];
                    proof {
                        assert(view_tokens(exp@) =~= seq![TokenV::Else]);
                    }
                    return Err(ParseError::UnexpectedToken { expected: exp, got: t });
                },
                Some(Err(e)) => {
                    return Err(ParseError::Lex(e));
                },
                None => {
                    return Err(ParseError::UnexpectedEnd);
                },
            }
            let _ = l.next_token();
            let fb = match parse_block(l) {
                Err(e) => {
                    return Err(e);
                },
                Ok(n) => n,
            };
            let pn = l.peek_token();
            match pn {
                Some(Ok(Token::End)) => {},
                Some(Ok(t)) => {
                    let exp = vec![Token::End];
                    proof {
                        assert(view_tokens(exp@) =~= seq![TokenV::End]);
                    }
                    return Err(ParseError::UnexpectedToken { expected: exp, got: t });
                },
                Some(Err(e)) => {
                    return Err(ParseError::Lex(e));
                },
                None => {
                    return Err(ParseError::UnexpectedEnd);
                },
            }
            let _ = l.next_token();
            Ok(AstNode::If { cond: Box::new(cond), true_: Box::new(tb), false_: Box::new(fb) })
        },
        Some(Ok(t)) => {
            let exp = vec![Token::If];
            proof {
                assert(view_tokens(exp@) =~= seq![TokenV::If]);
            }
            Err(ParseError::UnexpectedToken { expected: exp, got: t })
        },
        Some(Err(e)) => Err(ParseError::Lex(e)),
        None => Err(ParseError::UnexpectedEnd),
    }
}

/// `"when" expression "->" ... "end"`.
fn parse_when(l: &mut Lexer) -> (r: ParseResult)
    requires
        old(l).wf(),
    ensures
        final(l).wf(),
        final(l)@.toks == old(l)@.toks,
        final(l)@.err == old(l)@.err,
        final(l)@.pos >= old(l)@.pos,
        r is Ok ==> final(l)@.pos > old(l)@.pos,
        view_parse_result(r) == spec_when(old(l)@).0,
        final(l)@.pos == spec_when(old(l)@).1,
    decreases rem(l@), 5int,
{
    let p0 = l.peek_token();
    match p0 {
        Some(Ok(Token::When)) => {
            let _ = l.next_token();
            let guard = match parse_expression(l) {
                Err(e) => {
                    return Err(e);
                },
                Ok(n) => n,
            };
            let pa = l.peek_token();
            match pa {
                Some(Ok(Token::RThinArr)) => {},
                Some(Ok(t)) => {
                    let exp = vec![Token::RThinArr];
                    proof {
                        assert(view_tokens(exp@) =~= seq![TokenV::RThinArr]);
                    }
                    return Err(ParseError::UnexpectedToken { expected: exp, got: t });
                },
                Some(Err(e)) => {
                    return Err(ParseError::Lex(e));
                },
                None => {
                    return Err(ParseError::UnexpectedEnd);
                },
            }
            let _ = l.next_token();
            let mut done: Vec<(AstNode, AstNode)> = Vec::new();
            proof {
                crate::ast::lemma_view_arms(done@);
                assert(crate::ast::view_arms(done@) =~= Seq::<(AstV, AstV)>::empty());
                crate::ast::lemma_view_nodes(Seq::<AstNode>::empty());
                assert(crate::ast::view_nodes(Seq::<AstNode>::empty())
                    =~= Seq::<AstV>::empty());
            }
            match parse_when_body(l, &mut done, guard, Vec::new()) {
                Err(e) => Err(e),
                Ok(()) => Ok(AstNode::When(done)),
            }
        },
        Some(Ok(t)) => {
            let exp = vec![Token::When];
            proof {
                assert(view_tokens(exp@) =~= seq![TokenV::When]);
            }
            Err(ParseError::UnexpectedToken { expected: exp, got: t })
        },
        Some(Err(e)) => Err(ParseError::Lex(e)),
        None => Err(ParseError::UnexpectedEnd),
    }
}

/// One element of the running arm's body, then `end`, a comma, or a failure.
fn parse_when_body(
    l: &mut Lexer,
    done: &mut Vec<(AstNode, AstNode)>,
    guard: AstNode,
    acc: Vec<AstNode>,
) -> (r: Result<(), ParseError>)
    requires
        old(l).wf(),
    ensures
        final(l).wf(),
        final(l)@.toks == old(l)@.toks,
        final(l)@.err == old(l)@.err,
        final(l)@.pos >= old(l)@.pos,
        ({
            let (res, p) = spec_when_body(
                old(l)@,
                crate::ast::view_arms(old(done)@),
                guard@,
                crate::ast::view_nodes(acc@),
            );
            &&& final(l)@.pos == p
            &&& match r {
                Ok(()) => res == Ok::<Seq<(AstV, AstV)>, ParseErrV>(
                    crate::ast::view_arms(final(done)@),
                ),
                Err(e) => res == Err::<Seq<(AstV, AstV)>, ParseErrV>(e@),
            }
        }),
    decreases rem(l@), 12int,
{
    let elem = match parse_bound_expr(l) {
        Err(e) => {
            return Err(e);
        },
        Ok(n) => n,
    };
    let mut acc = acc;
    let p1 = l.peek_token();
    match p1 {
        Some(Ok(Token::End)) => {
            let _ = l.next_token();
            let ghost prev_acc = acc@;
            acc.push(elem);
            proof {
                crate::ast::lemma_view_nodes(prev_acc);
                crate::ast::lemma_view_nodes(acc@);
                assert(crate::ast::view_nodes(acc@) =~= crate::ast::view_nodes(prev_acc).push(
                    elem@,
                ));
            }
            let body_node = mk_block_node(acc);
            let ghost prev_done = done@;
            done.push((guard, body_node));
            proof {
                crate::ast::lemma_view_arms(prev_done);
                crate::ast::lemma_view_arms(done@);
                assert(crate::ast::view_arms(done@) =~= crate::ast::view_arms(prev_done).push(
                    (guard@, body_node@),
                ));
            }
            Ok(())
        },
        Some(Ok(Token::Comma)) => {
            let _ = l.next_token();
            let ghost prev_acc = acc@;
            acc.push(elem);
            proof {
                crate::ast::lemma_view_nodes(prev_acc);
                crate::ast::lemma_view_nodes(acc@);
                assert(crate::ast::view_nodes(acc@) =~= crate::ast::view_nodes(prev_acc).push(
                    elem@,
                ));
            }
            parse_when_cont(l, done, guard, acc)
        },
        Some(Ok(t)) => {
            let exp = vec![Token::Comma, Token::End];
            proof {
                assert(view_tokens(exp@) =~= seq![TokenV::Comma, TokenV::End]);
            }
            Err(ParseError::UnexpectedToken { expected: exp, got: t })
        },
        Some(Err(e)) => Err(ParseError::Lex(e)),
        None => Err(ParseError::UnexpectedEnd),
    }
}

/// The element after a comma inside a `when`: body element, next arm's
/// guard, or the end of the whole `when`.
fn parse_when_cont(
    l: &mut Lexer,
    done: &mut Vec<(AstNode, AstNode)>,
    guard: AstNode,
    acc: Vec<AstNode>,
) -> (r: Result<(), ParseError>)
    requires
        old(l).wf(),
        acc@.len() >= 1,
    ensures
        final(l).wf(),
        final(l)@.toks == old(l)@.toks,
        final(l)@.err == old(l)@.err,
        final(l)@.pos >= old(l)@.pos,
        ({
            let (res, p) = spec_when_cont(
                old(l)@,
                crate::ast::view_arms(old(done)@),
                guard@,
                crate::ast::view_nodes(acc@),
            );
            &&& final(l)@.pos == p
            &&& match r {
                Ok(()) => res == Ok::<Seq<(AstV, AstV)>, ParseErrV>(
                    crate::ast::view_arms(final(done)@),
                ),
                Err(e) => res == Err::<Seq<(AstV, AstV)>, ParseErrV>(e@),
            }
        }),
    decreases rem(l@), 12int,
{
    let elem = match parse_bound_expr(l) {
        Err(e) => {
            return Err(e);
        },
        Ok(n) => n,
    };
    let mut acc = acc;
    let p1 = l.peek_token();
    match p1 {
        Some(Ok(Token::RThinArr)) => {
            if matches!(elem, AstNode::Assign { .. }) {
                let exp = vec![Token::Comma, Token::End];
                proof {
                    assert(view_tokens(exp@) =~= seq![TokenV::Comma, TokenV::End]);
                }
                return Err(ParseError::UnexpectedToken { expected: exp, got: Token::RThinArr });
            }
            let _ = l.next_token();
            let body_node = mk_block_node(acc);
            let ghost prev_done = done@;
            done.push((guard, body_node));
            proof {
                crate::ast::lemma_view_arms(prev_done);
                crate::ast::lemma_view_arms(done@);
                assert(crate::ast::view_arms(done@) =~= crate::ast::view_arms(prev_done).push(
                    (guard@, body_node@),
                ));
                crate::ast::lemma_view_nodes(Seq::<AstNode>::empty());
                assert(crate::ast::view_nodes(Seq::<AstNode>::empty())
                    =~= Seq::<AstV>::empty());
            }
            parse_when_body(l, done, elem, Vec::new())
        },
        Some(Ok(Token::End)) => {
            let _ = l.next_token();
            let ghost prev_acc = acc@;
            acc.push(elem);
            proof {
                crate::ast::lemma_view_nodes(prev_acc);
                crate::ast::lemma_view_nodes(acc@);
                assert(crate::ast::view_nodes(acc@) =~= crate::ast::view_nodes(prev_acc).push(
                    elem@,
                ));
            }
            let body_node = mk_block_node(acc);
            let ghost prev_done = done@;
            done.push((guard, body_node));
            proof {
                crate::ast::lemma_view_arms(prev_done);
                crate::ast::lemma_view_arms(done@);
                assert(crate::ast::view_arms(done@) =~= crate::ast::view_arms(prev_done).push(
                    (guard@, body_node@),
                ));
            }
            Ok(())
        },
        Some(Ok(Token::Comma)) => {
            let _ = l.next_token();
            let ghost prev_acc = acc@;
            acc.push(elem);
            proof {
                crate::ast::lemma_view_nodes(prev_acc);
                crate::ast::lemma_view_nodes(acc@);
                assert(crate::ast::view_nodes(acc@) =~= crate::ast::view_nodes(prev_acc).push(
                    elem@,
                ));
            }
            parse_when_cont(l, done, guard, acc)
        },
        Some(Ok(t)) => {
            let exp = vec![Token::Comma, Token::End];
            proof {
                assert(view_tokens(exp@) =~= seq![TokenV::Comma, TokenV::End]);
            }
            Err(ParseError::UnexpectedToken { expected: exp, got: t })
        },
        Some(Err(e)) => Err(ParseError::Lex(e)),
        None => Err(ParseError::UnexpectedEnd),
    }
}

/// A literal, a function literal, a call, or a variable.
fn parse_primary(l: &mut Lexer) -> (r: ParseResult)
    requires
        old(l).wf(),
    ensures
        final(l).wf(),
        final(l)@.toks == old(l)@.toks,
        final(l)@.err == old(l)@.err,
        final(l)@.pos >= old(l)@.pos,
        r is Ok ==> final(l)@.pos > old(l)@.pos,
        view_parse_result(r) == spec_primary(old(l)@).0,
        final(l)@.pos == spec_primary(old(l)@).1,
    decreases rem(l@), 5int,
{
    proof {
        reveal_with_fuel(crate::ast::view_ast, 3);
    }
    let p0 = l.peek_token();
    match p0 {
        Some(Ok(Token::Fn)) => parse_fn_decl(l),
        Some(Ok(Token::Identifier(name))) => {
            let p1 = l.peek_two_token();
            if matches!(p1, Some(Ok(Token::LRoundParen))) {
                parse_call(l)
            } else {
                let _ = l.next_token();
                Ok(AstNode::Variable(name))
            }
        },
        Some(Ok(Token::Nil)) => {
            let _ = l.next_token();
            Ok(AstNode::Primary(Value::Nil))
        },
        Some(Ok(Token::Bool(b))) => {
            let _ = l.next_token();
            Ok(AstNode::Primary(Value::Bool(b)))
        },
        Some(Ok(Token::Number(bits))) => {
            let _ = l.next_token();
            Ok(AstNode::Primary(Value::Number(bits)))
        },
        Some(Ok(Token::Str(text))) => {
            let _ = l.next_token();
            Ok(AstNode::Primary(Value::Str(text)))
        },
        Some(Ok(t)) => Err(ParseError::InvalidPrimary { got: t }),
        Some(Err(e)) => Err(ParseError::Lex(e)),
        None => Err(ParseError::UnexpectedEnd),
    }
}

/// `IDENT "(" (expression ("," expression)*)? ")"`.
fn parse_call(l: &mut Lexer) -> (r: ParseResult)
    requires
        old(l).wf(),
    ensures
        final(l).wf(),
        final(l)@.toks == old(l)@.toks,
        final(l)@.err == old(l)@.err,
        final(l)@.pos >= old(l)@.pos,
        r is Ok ==> final(l)@.pos > old(l)@.pos,
        view_parse_result(r) == spec_call(old(l)@).0,
        final(l)@.pos == spec_call(old(l)@).1,
    decreases rem(l@), 4int,
{
    let p0 = l.peek_token();
    let p1 = l.peek_two_token();
    match (p0, p1) {
        (Some(Ok(Token::Identifier(name))), Some(Ok(Token::LRoundParen))) => {
            let _ = l.next_token();
            let _ = l.next_token();
            let pr = l.peek_token();
            if matches!(pr, Some(Ok(Token::RRoundParen))) {
                let _ = l.next_token();
                let args: Vec<AstNode> = Vec::new();
                proof {
                    crate::ast::lemma_view_nodes(args@);
                    assert(crate::ast::view_nodes(args@) =~= Seq::<AstV>::empty());
                }
                return Ok(AstNode::Call { ident: name, args });
            }
            let mut args: Vec<AstNode> = Vec::new();
            proof {
                crate::ast::lemma_view_nodes(args@);
                assert(crate::ast::view_nodes(args@) =~= Seq::<AstV>::empty());
            }
            match parse_call_args(l, &mut args) {
                Err(e) => Err(e),
                Ok(()) => Ok(AstNode::Call { ident: name, args }),
            }
        },
        (Some(Ok(t)), _) => Err(ParseError::ExpectedIdentifier { got: t }),
        (Some(Err(e)), _) => Err(ParseError::Lex(e)),
        (None, _) => Err(ParseError::UnexpectedEnd),
    }
}

/// The arguments of a call, grown one expression at a time.
fn parse_call_args(l: &mut Lexer, args: &mut Vec<AstNode>) -> (r: Result<(), ParseError>)
    requires
        old(l).wf(),
    ensures
        final(l).wf(),
        final(l)@.toks == old(l)@.toks,
        final(l)@.err == old(l)@.err,
        final(l)@.pos >= old(l)@.pos,
        ({
            let (res, p) = spec_call_args(old(l)@, crate::ast::view_nodes(old(args)@));
            &&& final(l)@.pos == p
            &&& match r {
                Ok(()) => res == Ok::<Seq<AstV>, ParseErrV>(
                    crate::ast::view_nodes(final(args)@),
                ),
                Err(e) => res == Err::<Seq<AstV>, ParseErrV>(e@),
            }
        }),
    decreases rem(l@), 12int,
{
    let arg = match parse_expression(l) {
        Err(e) => {
            return Err(e);
        },
        Ok(n) => n,
    };
    let ghost prev = args@;
    args.push(arg);
    proof {
        crate::ast::lemma_view_nodes(prev);
        crate::ast::lemma_view_nodes(args@);
        assert(crate::ast::view_nodes(args@) =~= crate::ast::view_nodes(prev).push(arg@));
    }
    let p1 = l.peek_token();
    match p1 {
        Some(Ok(Token::RRoundParen)) => {
            let _ = l.next_token();
            Ok(())
        },
        Some(Ok(Token::Comma)) => {
            let _ = l.next_token();
            parse_call_args(l, args)
        },
        Some(Ok(t)) => {
            let exp = vec![Token::Comma, Token::RRoundParen];
            proof {
                assert(view_tokens(exp@) =~= seq![TokenV::Comma, TokenV::RRoundParen]);
            }
            Err(ParseError::UnexpectedToken { expected: exp, got: t })
        },
        Some(Err(e)) => Err(ParseError::Lex(e)),
        None => Err(ParseError::UnexpectedEnd),
    }
}

/// `"fn" (IDENT ("," IDENT)*)? "->" bound_expr`.
fn parse_fn_decl(l: &mut Lexer) -> (r: ParseResult)
    requires
        old(l).wf(),
    ensures
        final(l).wf(),
        final(l)@.toks == old(l)@.toks,
        final(l)@.err == old(l)@.err,
        final(l)@.pos >= old(l)@.pos,
        r is Ok ==> final(l)@.pos > old(l)@.pos,
        view_parse_result(r) == spec_fn_decl(old(l)@).0,
        final(l)@.pos == spec_fn_decl(old(l)@).1,
    decreases rem(l@), 4int,
{
    proof {
        reveal_with_fuel(crate::ast::view_ast, 3);
    }
    let p0 = l.peek_token();
    match p0 {
        Some(Ok(Token::Fn)) => {
            let p1 = l.peek_two_token();
            if matches!(p1, Some(Ok(Token::RThinArr))) {
                let _ = l.next_token();
                let _ = l.next_token();
                match parse_bound_expr(l) {
                    Err(e) => Err(e),
                    Ok(body) => {
                        let ghost bv = body@;
                        let params: Vec<String> = Vec::new();
                        proof {
                            assert(crate::ast::view_names(params@)
                                =~= Seq::<Seq<char>>::empty());
                        }
                        let node = AstNode::Primary(
                            Value::Fn { params, body: Box::new(body) },
                        );
                        proof {
                            assert(node@ == AstV::Primary(
                                ValueV::Fn {
                                    params: Seq::<Seq<char>>::empty(),
                                    body: Box::new(bv),
                                },
                            ));
                        }
                        Ok(node)
                    },
                }
            } else {
                let _ = l.next_token();
                let mut params: Vec<String> = Vec::new();
                proof {
                    assert(crate::ast::view_names(params@) =~= Seq::<Seq<char>>::empty());
                }
                match parse_params(l, &mut params) {
                    Err(e) => Err(e),
                    Ok(()) => {
                        match parse_bound_expr(l) {
                            Err(e) => Err(e),
                            Ok(body) => {
                                let ghost bv = body@;
                                let ghost pv = crate::ast::view_names(params@);
                                let node = AstNode::Primary(
                                    Value::Fn { params, body: Box::new(body) },
                                );
                                proof {
                                    assert(node@ == AstV::Primary(
                                        ValueV::Fn { params: pv, body: Box::new(bv) },
                                    ));
                                }
                                Ok(node)
                            },
                        }
                    },
                }
            }
        },
        Some(Ok(t)) => {
            let exp = vec![Token::Fn];
            proof {
                assert(view_tokens(exp@) =~= seq![TokenV::Fn]);
            }
            Err(ParseError::UnexpectedToken { expected: exp, got: t })
        },
        Some(Err(e)) => Err(ParseError::Lex(e)),
        None => Err(ParseError::UnexpectedEnd),
    }
}

/// The parameter names of a function literal, consumed through the `->`.
fn parse_params(l: &mut Lexer, params: &mut Vec<String>) -> (r: Result<(), ParseError>)
    requires
        old(l).wf(),
    ensures
        final(l).wf(),
        final(l)@.toks == old(l)@.toks,
        final(l)@.err == old(l)@.err,
        final(l)@.pos >= old(l)@.pos,
        r is Ok ==> final(l)@.pos > old(l)@.pos,
        ({
            let (res, p) = spec_params(old(l)@, crate::ast::view_names(old(params)@));
            &&& final(l)@.pos == p
            &&& match r {
                Ok(()) => res == Ok::<Seq<Seq<char>>, ParseErrV>(
                    crate::ast::view_names(final(params)@),
                ),
                Err(e) => res == Err::<Seq<Seq<char>>, ParseErrV>(e@),
            }
        }),
    decreases rem(l@), 3int,
{
    let p0 = l.peek_token();
    match p0 {
        Some(Ok(Token::Identifier(name))) => {
            let p1 = l.peek_two_token();
            match p1 {
                Some(Ok(Token::Comma)) => {
                    let _ = l.next_token();
                    let _ = l.next_token();
                    let ghost prev = params@;
                    params.push(name);
                    proof {
                        assert(crate::ast::view_names(params@) =~= crate::ast::view_names(
                            prev,
                        ).push(params@[prev.len() as int]@));
                    }
                    parse_params(l, params)
                },
                Some(Ok(Token::RThinArr)) => {
                    let _ = l.next_token();
                    let _ = l.next_token();
                    let ghost prev = params@;
                    params.push(name);
                    proof {
                        assert(crate::ast::view_names(params@) =~= crate::ast::view_names(
                            prev,
                        ).push(params@[prev.len() as int]@));
                    }
                    Ok(())
                },
                Some(Ok(t)) => {
                    let exp = vec![Token::Comma, Token::RThinArr];
                    proof {
                        assert(view_tokens(exp@) =~= seq![TokenV::Comma, TokenV::RThinArr]);
                    }
                    Err(ParseError::UnexpectedToken { expected: exp, got: t })
                },
                Some(Err(e)) => Err(ParseError::Lex(e)),
                None => Err(ParseError::UnexpectedEnd),
            }
        },
        Some(Ok(t)) => Err(ParseError::ExpectedIdentifier { got: t }),
        Some(Err(e)) => Err(ParseError::Lex(e)),
        None => Err(ParseError::UnexpectedEnd),
    }
}

} // verus!

//! The grammar, as functions from a token sequence and a position to what
//! stands there and where it ends.
//!
//! From the loosest binding to the tightest: assignment, `or`, `and`,
//! equality, comparison, term, factor, unary, call, primary. The six infix
//! levels associate to the left; assignment and the prefix operators
//! associate to the right.

use vstd::prelude::*;
use crate::errors::SpecError;
use crate::expr::SpecExpr;
use crate::literal::SpecLiteral;
use crate::stmt::SpecStmt;
use crate::token::{Kind, SpecToken};

verus! {

/// The result of reading one construct: the construct or the error, and the
/// position at which reading stopped.
pub struct Parsed<T> {
    pub result: Result<T, SpecError>,
    pub next: int,
}

/// The six levels of infix operators that associate to the left.
#[derive(Clone, Copy, Debug, PartialEq, Eq, Structural)]
pub enum Level {
    Or,
    And,
    Equality,
    Comparison,
    Term,
    Factor,
}

impl Level {
    /// Whether a token of this kind is an operator of the level.
    pub open spec fn has(self, kind: Kind) -> bool {
        match self {
            Level::Or => kind is Or,
            Level::And => kind is And,
            Level::Equality => kind is BangEqual || kind is EqualEqual,
            Level::Comparison => kind is Greater || kind is GreaterEqual || kind is Less
                || kind is LessEqual,
            Level::Term => kind is Minus || kind is Plus,
            Level::Factor => kind is Slash || kind is Star,
        }
    }

    /// The node that joins two operands at this level.
    pub open spec fn join(self, left: SpecExpr, operator: SpecToken, right: SpecExpr) -> SpecExpr {
        match self {
            Level::Or | Level::And => SpecExpr::Logical(Box::new(left), operator, Box::new(right)),
            _ => SpecExpr::Binary(Box::new(left), operator, Box::new(right)),
        }
    }

    /// A number that falls from each level to the next tighter one.
    pub open spec fn rank(self) -> int {
        match self {
            Level::Or => 40,
            Level::And => 36,
            Level::Equality => 32,
            Level::Comparison => 28,
            Level::Term => 24,
            Level::Factor => 20,
        }
    }
}

/// Whether the token at `pos` is the end marker.
pub open spec fn at_end(tokens: Seq<SpecToken>, pos: int) -> bool {
    tokens[pos].kind is EOF
}

/// Whether the token at `pos` is of the given kind and not the end marker.
pub open spec fn check(tokens: Seq<SpecToken>, pos: int, kind: Kind) -> bool {
    !at_end(tokens, pos) && tokens[pos].kind == kind
}

/// The position after the token at `pos`; the end marker is never passed.
pub open spec fn advance(tokens: Seq<SpecToken>, pos: int) -> int {
    if at_end(tokens, pos) {
        pos
    } else {
        pos + 1
    }
}

/// Passes a token of the given kind, or fails at the token that stands there
/// instead.
pub open spec fn consume(tokens: Seq<SpecToken>, pos: int, kind: Kind, message: Seq<char>) -> Parsed<
    SpecToken,
> {
    if check(tokens, pos, kind) {
        Parsed { result: Ok(tokens[pos]), next: pos + 1 }
    } else {
        Parsed { result: Err(SpecError::syntax(tokens[pos], message)), next: pos }
    }
}

/// Passes an identifier, or fails at the token that stands there instead.
pub open spec fn consume_identifier(tokens: Seq<SpecToken>, pos: int, message: Seq<char>) -> Parsed<
    SpecToken,
> {
    if tokens[pos].kind is Identifier {
        Parsed { result: Ok(tokens[pos]), next: pos + 1 }
    } else {
        Parsed { result: Err(SpecError::syntax(tokens[pos], message)), next: pos }
    }
}

/// A failure at `next`.
pub open spec fn failed<T>(error: SpecError, next: int) -> Parsed<T> {
    Parsed { result: Err(error), next }
}

/// A literal, a parenthesised expression or a variable.
pub open spec fn primary(tokens: Seq<SpecToken>, pos: int) -> Parsed<SpecExpr>
    decreases tokens.len() - pos, 3int,
{
    let literal = |value: SpecLiteral|
        Parsed { result: Ok(SpecExpr::Literal(value)), next: pos + 1 };
    match tokens[pos].kind {
        Kind::False => literal(SpecLiteral::Boolean(false)),
        Kind::True => literal(SpecLiteral::Boolean(true)),
        Kind::Nil => literal(SpecLiteral::Nil),
        Kind::Number(bits) => literal(SpecLiteral::Number(bits)),
        Kind::String(text) => literal(SpecLiteral::String(text)),
        Kind::LeftParen => {
            if pos < tokens.len() {
                let inner = expression(tokens, pos + 1);
                match inner.result {
                    Err(error) => failed(error, inner.next),
                    Ok(value) => {
                        let close = consume(
                            tokens,
                            inner.next,
                            Kind::RightParen,
                            "Expected ')' after expression."@,
                        );
                        match close.result {
                            Err(error) => failed(error, close.next),
                            Ok(_) => Parsed {
                                result: Ok(SpecExpr::Grouping(Box::new(value))),
                                next: close.next,
                            },
                        }
                    },
                }
            } else {
                failed(SpecError::syntax(tokens[pos], "Expected expression"@), pos)
            }
        },
        Kind::Identifier(_) => Parsed { result: Ok(SpecExpr::Var(tokens[pos])), next: pos + 1 },
        _ => failed(SpecError::syntax(tokens[pos], "Expected expression"@), pos),
    }
}

/// The arguments of a call after the first `arguments.len()` of them, up to
/// the closing parenthesis. The 255th argument is one too many.
pub open spec fn arguments(tokens: Seq<SpecToken>, pos: int, before: Seq<SpecExpr>) -> Parsed<
    Seq<SpecExpr>,
>
    decreases tokens.len() - pos, 52int,
{
    let one = expression(tokens, pos);
    match one.result {
        Err(error) => failed(error, one.next),
        Ok(value) => {
            let all = before.push(value);
            if all.len() >= 255 {
                failed(
                    SpecError::syntax(
                        tokens[one.next - 1],
                        "Function call cannot have more than 255 arguments."@,
                    ),
                    one.next,
                )
            } else if check(tokens, one.next, Kind::Comma) {
                if pos < one.next < tokens.len() {
                    arguments(tokens, one.next + 1, all)
                } else {
                    Parsed { result: Ok(all), next: one.next }
                }
            } else {
                Parsed { result: Ok(all), next: one.next }
            }
        },
    }
}

/// A call of `callee`, whose opening parenthesis ends just before `pos`.
pub open spec fn finish_call(tokens: Seq<SpecToken>, pos: int, callee: SpecExpr) -> Parsed<SpecExpr>
    decreases tokens.len() - pos, 53int,
{
    let list = if check(tokens, pos, Kind::RightParen) {
        Parsed { result: Ok(Seq::<SpecExpr>::empty()), next: pos }
    } else {
        arguments(tokens, pos, Seq::empty())
    };
    match list.result {
        Err(error) => failed(error, list.next),
        Ok(all) => {
            let close = consume(
                tokens,
                list.next,
                Kind::RightParen,
                "Expected ')' after argument list."@,
            );
            match close.result {
                Err(error) => failed(error, close.next),
                Ok(paren) => Parsed {
                    result: Ok(SpecExpr::Call(Box::new(callee), paren, all)),
                    next: close.next,
                },
            }
        },
    }
}

/// The calls that follow `callee`, each applied to the one before.
pub open spec fn calls(tokens: Seq<SpecToken>, pos: int, callee: SpecExpr) -> Parsed<SpecExpr>
    decreases tokens.len() - pos, 2int,
{
    if check(tokens, pos, Kind::LeftParen) && pos < tokens.len() {
        let one = finish_call(tokens, pos + 1, callee);
        match one.result {
            Err(error) => failed(error, one.next),
            Ok(value) => {
                if pos < one.next <= tokens.len() {
                    calls(tokens, one.next, value)
                } else {
                    one
                }
            },
        }
    } else {
        Parsed { result: Ok(callee), next: pos }
    }
}

/// A primary expression and the calls made on it.
pub open spec fn call(tokens: Seq<SpecToken>, pos: int) -> Parsed<SpecExpr>
    decreases tokens.len() - pos, 4int,
{
    let first = primary(tokens, pos);
    match first.result {
        Err(error) => failed(error, first.next),
        Ok(value) => {
            if pos < first.next <= tokens.len() {
                calls(tokens, first.next, value)
            } else {
                first
            }
        },
    }
}

/// Prefix operators, applied from the right.
pub open spec fn unary(tokens: Seq<SpecToken>, pos: int) -> Parsed<SpecExpr>
    decreases tokens.len() - pos, 5int,
{
    if (tokens[pos].kind is Bang || tokens[pos].kind is Minus) && pos < tokens.len() {
        let operand = unary(tokens, pos + 1);
        match operand.result {
            Err(error) => failed(error, operand.next),
            Ok(value) => Parsed {
                result: Ok(SpecExpr::Unary(tokens[pos], Box::new(value))),
                next: operand.next,
            },
        }
    } else {
        call(tokens, pos)
    }
}

/// An operand of the given level: an expression of the next tighter level.
pub open spec fn operand(tokens: Seq<SpecToken>, pos: int, level: Level) -> Parsed<SpecExpr>
    decreases tokens.len() - pos, level.rank() - 1,
{
    match level {
        Level::Or => binary(tokens, pos, Level::And),
        Level::And => binary(tokens, pos, Level::Equality),
        Level::Equality => binary(tokens, pos, Level::Comparison),
        Level::Comparison => binary(tokens, pos, Level::Term),
        Level::Term => binary(tokens, pos, Level::Factor),
        Level::Factor => unary(tokens, pos),
    }
}

/// The operators of a level and their right operands that follow `left`,
/// folded into a tree that leans to the left.
pub open spec fn operators(tokens: Seq<SpecToken>, pos: int, level: Level, left: SpecExpr) -> Parsed<
    SpecExpr,
>
    decreases tokens.len() - pos, level.rank(),
{
    if !at_end(tokens, pos) && level.has(tokens[pos].kind) && pos < tokens.len() {
        let right = operand(tokens, pos + 1, level);
        match right.result {
            Err(error) => failed(error, right.next),
            Ok(value) => {
                if pos < right.next <= tokens.len() {
                    operators(tokens, right.next, level, level.join(left, tokens[pos], value))
                } else {
                    right
                }
            },
        }
    } else {
        Parsed { result: Ok(left), next: pos }
    }
}

/// An expression of one of the six infix levels.
pub open spec fn binary(tokens: Seq<SpecToken>, pos: int, level: Level) -> Parsed<SpecExpr>
    decreases tokens.len() - pos, level.rank() + 1,
{
    let first = operand(tokens, pos, level);
    match first.result {
        Err(error) => failed(error, first.next),
        Ok(left) => {
            if pos <= first.next <= tokens.len() {
                operators(tokens, first.next, level, left)
            } else {
                first
            }
        },
    }
}

/// An assignment to a variable, or an expression of the `or` level. Only a
/// bare variable can stand to the left of `=`; anything else fails at the
/// `=`.
pub open spec fn assignment(tokens: Seq<SpecToken>, pos: int) -> Parsed<SpecExpr>
    decreases tokens.len() - pos, 50int,
{
    let left = binary(tokens, pos, Level::Or);
    if check(tokens, left.next, Kind::Equal) && pos <= left.next < tokens.len() {
        let value = assignment(tokens, left.next + 1);
        match value.result {
            Err(error) => failed(error, value.next),
            Ok(value_expr) => match left.result {
                Ok(SpecExpr::Var(name)) => Parsed {
                    result: Ok(SpecExpr::Assign(name, Box::new(value_expr))),
                    next: value.next,
                },
                _ => failed(
                    SpecError::syntax(tokens[left.next], "Invalid assignment target."@),
                    value.next,
                ),
            },
        }
    } else {
        left
    }
}

/// An expression.
pub open spec fn expression(tokens: Seq<SpecToken>, pos: int) -> Parsed<SpecExpr>
    decreases tokens.len() - pos, 51int,
{
    assignment(tokens, pos)
}

/// Whether reading moved from `pos` to a later position inside the tokens.
pub open spec fn ahead(tokens: Seq<SpecToken>, pos: int, next: int) -> bool {
    pos < next <= tokens.len()
}

/// An expression followed by a semicolon, as the statement that `wrap` makes
/// of it.
#[verifier::opaque]
pub open spec fn terminated(
    tokens: Seq<SpecToken>,
    pos: int,
    wrap: spec_fn(SpecExpr) -> SpecStmt,
) -> Parsed<SpecStmt>
    decreases tokens.len() - pos, 60int,
{
    let value = expression(tokens, pos);
    match value.result {
        Err(error) => failed(error, value.next),
        Ok(inner) => {
            let end = consume(tokens, value.next, Kind::Semicolon, "Expected semicolon"@);
            match end.result {
                Err(error) => failed(error, end.next),
                Ok(_) => Parsed { result: Ok(wrap(inner)), next: end.next },
            }
        },
    }
}

/// An expression statement.
#[verifier::opaque]
pub open spec fn expr_statement(tokens: Seq<SpecToken>, pos: int) -> Parsed<SpecStmt>
    decreases tokens.len() - pos, 61int,
{
    terminated(tokens, pos, |value: SpecExpr| SpecStmt::Expression(value))
}

/// A print statement, whose keyword ends just before `pos`.
#[verifier::opaque]
pub open spec fn print_statement(tokens: Seq<SpecToken>, pos: int) -> Parsed<SpecStmt>
    decreases tokens.len() - pos, 61int,
{
    terminated(tokens, pos, |value: SpecExpr| SpecStmt::Print(value))
}

/// A return statement, whose keyword ends just before `pos`.
#[verifier::opaque]
pub open spec fn return_statement(tokens: Seq<SpecToken>, pos: int) -> Parsed<SpecStmt>
    decreases tokens.len() - pos, 61int,
{
    let value = if check(tokens, pos, Kind::Semicolon) {
        Parsed { result: Ok(None::<SpecExpr>), next: pos }
    } else {
        let inner = expression(tokens, pos);
        match inner.result {
            Err(error) => failed(error, inner.next),
            Ok(found) => Parsed { result: Ok(Some(found)), next: inner.next },
        }
    };
    match value.result {
        Err(error) => failed(error, value.next),
        Ok(found) => {
            let end = consume(
                tokens,
                value.next,
                Kind::Semicolon,
                "Expected ';' after return value."@,
            );
            match end.result {
                Err(error) => failed(error, end.next),
                Ok(_) => Parsed {
                    result: Ok(SpecStmt::Return(tokens[pos - 1], found)),
                    next: end.next,
                },
            }
        },
    }
}

/// A variable declaration, whose keyword ends just before `pos`.
#[verifier::opaque]
pub open spec fn var_declaration(tokens: Seq<SpecToken>, pos: int) -> Parsed<SpecStmt>
    decreases tokens.len() - pos, 61int,
{
    if tokens[pos].kind is Identifier {
        let first = if check(tokens, pos + 1, Kind::Equal) && pos + 1 < tokens.len() {
            let inner = expression(tokens, pos + 2);
            match inner.result {
                Err(error) => failed(error, inner.next),
                Ok(found) => Parsed { result: Ok(Some(found)), next: inner.next },
            }
        } else {
            Parsed { result: Ok(None::<SpecExpr>), next: pos + 1 }
        };
        match first.result {
            Err(error) => failed(error, first.next),
            Ok(found) => {
                let end = consume(
                    tokens,
                    first.next,
                    Kind::Semicolon,
                    "Expected ';' after variable declaration"@,
                );
                match end.result {
                    Err(error) => failed(error, end.next),
                    Ok(_) => Parsed {
                        result: Ok(SpecStmt::Var(tokens[pos], found)),
                        next: end.next,
                    },
                }
            },
        }
    } else {
        failed(SpecError::syntax(tokens[pos], "Expected variable name."@), pos)
    }
}

/// A condition in parentheses, which start at `pos`.
#[verifier::opaque]
pub open spec fn condition(
    tokens: Seq<SpecToken>,
    pos: int,
    open_message: Seq<char>,
    close_message: Seq<char>,
) -> Parsed<SpecExpr>
    decreases tokens.len() - pos, 61int,
{
    let open = consume(tokens, pos, Kind::LeftParen, open_message);
    match open.result {
        Err(error) => failed(error, open.next),
        Ok(_) => {
            if pos < tokens.len() {
                let inner = expression(tokens, pos + 1);
                match inner.result {
                    Err(error) => failed(error, inner.next),
                    Ok(found) => {
                        let close = consume(tokens, inner.next, Kind::RightParen, close_message);
                        match close.result {
                            Err(error) => failed(error, close.next),
                            Ok(_) => Parsed { result: Ok(found), next: close.next },
                        }
                    },
                }
            } else {
                failed(SpecError::syntax(tokens[pos], open_message), pos)
            }
        },
    }
}

/// A while statement, whose keyword ends just before `pos`.
pub open spec fn while_statement(tokens: Seq<SpecToken>, pos: int) -> Parsed<SpecStmt>
    decreases tokens.len() - pos, 62int,
{
    let head = condition(
        tokens,
        pos,
        "Expected '(' after 'while'."@,
        "Expected ')' after condition."@,
    );
    match head.result {
        Err(error) => failed(error, head.next),
        Ok(test) => {
            if ahead(tokens, pos, head.next) {
                let body = statement(tokens, head.next);
                match body.result {
                    Err(error) => failed(error, body.next),
                    Ok(inner) => Parsed {
                        result: Ok(SpecStmt::While(test, Box::new(inner))),
                        next: body.next,
                    },
                }
            } else {
                failed(SpecError::syntax(tokens[pos], "Expected '(' after 'while'."@), head.next)
            }
        },
    }
}

/// An if statement, whose keyword ends just before `pos`.
pub open spec fn if_statement(tokens: Seq<SpecToken>, pos: int) -> Parsed<SpecStmt>
    decreases tokens.len() - pos, 62int,
{
    let head = condition(
        tokens,
        pos,
        "Expected '(' after 'if'."@,
        "Expected ')' after if condition."@,
    );
    match head.result {
        Err(error) => failed(error, head.next),
        Ok(test) => {
            if ahead(tokens, pos, head.next) {
                let then_branch = statement(tokens, head.next);
                match then_branch.result {
                    Err(error) => failed(error, then_branch.next),
                    Ok(first) => {
                        if check(tokens, then_branch.next, Kind::Else) && ahead(
                            tokens,
                            pos,
                            then_branch.next + 1,
                        ) {
                            let else_branch = statement(tokens, then_branch.next + 1);
                            match else_branch.result {
                                Err(error) => failed(error, else_branch.next),
                                Ok(second) => Parsed {
                                    result: Ok(
                                        SpecStmt::If(
                                            test,
                                            Box::new(first),
                                            Some(Box::new(second)),
                                        ),
                                    ),
                                    next: else_branch.next,
                                },
                            }
                        } else {
                            Parsed {
                                result: Ok(SpecStmt::If(test, Box::new(first), None)),
                                next: then_branch.next,
                            }
                        }
                    },
                }
            } else {
                failed(SpecError::syntax(tokens[pos], "Expected '(' after 'if'."@), head.next)
            }
        },
    }
}

/// The statement that a `for` loop stands for: the initializer, if there is
/// one, and then a `while` loop over the body with the increment, if there
/// is one, added at its end. A loop without a condition runs on `true`.
pub open spec fn desugar_for(
    initializer: Option<SpecStmt>,
    test: Option<SpecExpr>,
    increment: Option<SpecExpr>,
    body: SpecStmt,
) -> SpecStmt {
    let body = match increment {
        Some(step) => SpecStmt::Block(seq![body, SpecStmt::Expression(step)]),
        None => body,
    };
    let test = match test {
        Some(found) => found,
        None => SpecExpr::Literal(SpecLiteral::Boolean(true)),
    };
    let repeat = SpecStmt::While(test, Box::new(body));
    match initializer {
        Some(first) => SpecStmt::Block(seq![first, repeat]),
        None => repeat,
    }
}

/// The first clause of a `for` loop, up to and with its semicolon: a variable
/// declaration, an expression statement, or nothing.
#[verifier::opaque]
pub open spec fn for_initializer(tokens: Seq<SpecToken>, pos: int) -> Parsed<Option<SpecStmt>>
    decreases tokens.len() - pos, 62int,
{
    if check(tokens, pos, Kind::Var) && pos < tokens.len() {
        let first = var_declaration(tokens, pos + 1);
        match first.result {
            Err(error) => failed(error, first.next),
            Ok(found) => Parsed { result: Ok(Some(found)), next: first.next },
        }
    } else if check(tokens, pos, Kind::Semicolon) {
        Parsed { result: Ok(None), next: pos + 1 }
    } else {
        let first = expr_statement(tokens, pos);
        match first.result {
            Err(error) => failed(error, first.next),
            Ok(found) => Parsed { result: Ok(Some(found)), next: first.next },
        }
    }
}

/// A clause of a `for` loop that may be left out: nothing if the token of
/// kind `end` stands at `pos`, else an expression. The `end` token must
/// follow, or reading fails with the message.
#[verifier::opaque]
pub open spec fn for_clause(tokens: Seq<SpecToken>, pos: int, end: Kind, message: Seq<char>) -> Parsed<
    Option<SpecExpr>,
>
    decreases tokens.len() - pos, 62int,
{
    let clause = if tokens[pos].kind == end {
        Parsed { result: Ok(None::<SpecExpr>), next: pos }
    } else {
        let inner = expression(tokens, pos);
        match inner.result {
            Err(error) => failed(error, inner.next),
            Ok(found) => Parsed { result: Ok(Some(found)), next: inner.next },
        }
    };
    match clause.result {
        Err(error) => failed(error, clause.next),
        Ok(found) => {
            let close = consume(tokens, clause.next, end, message);
            match close.result {
                Err(error) => failed(error, close.next),
                Ok(_) => Parsed { result: Ok(found), next: close.next },
            }
        },
    }
}

/// A `for` loop, whose keyword ends just before `pos`, as the statement that
/// it stands for.
pub open spec fn for_statement(tokens: Seq<SpecToken>, pos: int) -> Parsed<SpecStmt>
    decreases tokens.len() - pos, 63int,
{
    let open = consume(tokens, pos, Kind::LeftParen, "Expected '(' after 'for'."@);
    match open.result {
        Err(error) => failed(error, open.next),
        Ok(_) => {
            if pos < tokens.len() {
                let first = for_initializer(tokens, pos + 1);
                match first.result {
                    Err(error) => failed(error, first.next),
                    Ok(initializer) => {
                        if ahead(tokens, pos, first.next) {
                            let second = for_clause(
                                tokens,
                                first.next,
                                Kind::Semicolon,
                                "Expected ';' after loop condition."@,
                            );
                            match second.result {
                                Err(error) => failed(error, second.next),
                                Ok(test) => {
                                    if ahead(tokens, pos, second.next) {
                                        let third = for_clause(
                                            tokens,
                                            second.next,
                                            Kind::RightParen,
                                            "Expected ')' after for clause."@,
                                        );
                                        match third.result {
                                            Err(error) => failed(error, third.next),
                                            Ok(increment) => {
                                                if ahead(tokens, pos, third.next) {
                                                    let body = statement(tokens, third.next);
                                                    match body.result {
                                                        Err(error) => failed(error, body.next),
                                                        Ok(inner) => Parsed {
                                                            result: Ok(
                                                                desugar_for(
                                                                    initializer,
                                                                    test,
                                                                    increment,
                                                                    inner,
                                                                ),
                                                            ),
                                                            next: body.next,
                                                        },
                                                    }
                                                } else {
                                                    stuck(tokens, pos)
                                                }
                                            },
                                        }
                                    } else {
                                        stuck(tokens, pos)
                                    }
                                },
                            }
                        } else {
                            stuck(tokens, pos)
                        }
                    },
                }
            } else {
                stuck(tokens, pos)
            }
        },
    }
}

/// What the grammar gives where reading did not move forward. No token
/// stream leads here.
pub open spec fn stuck<T>(tokens: Seq<SpecToken>, pos: int) -> Parsed<T> {
    failed(SpecError::syntax(tokens[pos], "Expected expression"@), pos)
}

/// The declarations of a block after those in `before`, up to and with the
/// closing brace.
pub open spec fn block(tokens: Seq<SpecToken>, pos: int, before: Seq<SpecStmt>) -> Parsed<
    Seq<SpecStmt>,
>
    decreases tokens.len() - pos, 90int,
{
    if !check(tokens, pos, Kind::RightBrace) && !at_end(tokens, pos) {
        let one = declaration(tokens, pos);
        match one.result {
            Err(error) => failed(error, one.next),
            Ok(found) => {
                if ahead(tokens, pos, one.next) {
                    block(tokens, one.next, before.push(found))
                } else {
                    stuck(tokens, pos)
                }
            },
        }
    } else {
        let close = consume(tokens, pos, Kind::RightBrace, "Expected '}' after block."@);
        match close.result {
            Err(error) => failed(error, close.next),
            Ok(_) => Parsed { result: Ok(before), next: close.next },
        }
    }
}

/// The parameters of a function after those in `before`. There can be 255.
#[verifier::opaque]
pub open spec fn parameters(tokens: Seq<SpecToken>, pos: int, before: Seq<SpecToken>) -> Parsed<
    Seq<SpecToken>,
>
    decreases tokens.len() - pos, 84int,
{
    let one = consume_identifier(tokens, pos, "Expected parameter name."@);
    match one.result {
        Err(error) => failed(error, one.next),
        Ok(name) => {
            let all = before.push(name);
            if all.len() > 255 {
                failed(
                    SpecError::syntax(
                        tokens[pos],
                        "A function cannot have more than 255 parameters."@,
                    ),
                    one.next,
                )
            } else if check(tokens, pos + 1, Kind::Comma) && pos + 1 < tokens.len() {
                parameters(tokens, pos + 2, all)
            } else {
                Parsed { result: Ok(all), next: pos + 1 }
            }
        },
    }
}

/// A function declaration, whose keyword ends just before `pos`.
pub open spec fn function_declaration(tokens: Seq<SpecToken>, pos: int) -> Parsed<SpecStmt>
    decreases tokens.len() - pos, 85int,
{
    let name = consume_identifier(tokens, pos, "Expected function name."@);
    match name.result {
        Err(error) => failed(error, name.next),
        Ok(name_token) => {
            let open = consume(
                tokens,
                pos + 1,
                Kind::LeftParen,
                "Expected '(' after function name."@,
            );
            match open.result {
                Err(error) => failed(error, open.next),
                Ok(_) => {
                    let list = if check(tokens, pos + 2, Kind::RightParen) || pos + 2
                        >= tokens.len() {
                        Parsed { result: Ok(Seq::<SpecToken>::empty()), next: pos + 2 }
                    } else {
                        parameters(tokens, pos + 2, Seq::empty())
                    };
                    match list.result {
                        Err(error) => failed(error, list.next),
                        Ok(params) => {
                            let close = consume(
                                tokens,
                                list.next,
                                Kind::RightParen,
                                "Expected ')' after parameter list."@,
                            );
                            match close.result {
                                Err(error) => failed(error, close.next),
                                Ok(_) => {
                                    let brace = consume(
                                        tokens,
                                        close.next,
                                        Kind::LeftBrace,
                                        "Expected '{' before function body."@,
                                    );
                                    match brace.result {
                                        Err(error) => failed(error, brace.next),
                                        Ok(_) => {
                                            if ahead(tokens, pos, brace.next) {
                                                let body = block(tokens, brace.next, Seq::empty());
                                                match body.result {
                                                    Err(error) => failed(error, body.next),
                                                    Ok(inner) => Parsed {
                                                        result: Ok(
                                                            SpecStmt::Function(
                                                                name_token,
                                                                params,
                                                                inner,
                                                            ),
                                                        ),
                                                        next: body.next,
                                                    },
                                                }
                                            } else {
                                                stuck(tokens, pos)
                                            }
                                        },
                                    }
                                },
                            }
                        },
                    }
                },
            }
        },
    }
}

/// A statement.
pub open spec fn statement(tokens: Seq<SpecToken>, pos: int) -> Parsed<SpecStmt>
    decreases tokens.len() - pos, 70int,
{
    if pos < tokens.len() {
        match tokens[pos].kind {
            Kind::Print => print_statement(tokens, pos + 1),
            Kind::Return => return_statement(tokens, pos + 1),
            Kind::While => while_statement(tokens, pos + 1),
            Kind::For => for_statement(tokens, pos + 1),
            Kind::LeftBrace => {
                let body = block(tokens, pos + 1, Seq::empty());
                match body.result {
                    Err(error) => failed(error, body.next),
                    Ok(inner) => Parsed { result: Ok(SpecStmt::Block(inner)), next: body.next },
                }
            },
            Kind::If => if_statement(tokens, pos + 1),
            _ => expr_statement(tokens, pos),
        }
    } else {
        stuck(tokens, pos)
    }
}

/// A declaration: of a function, of a variable, or a statement.
pub open spec fn declaration(tokens: Seq<SpecToken>, pos: int) -> Parsed<SpecStmt>
    decreases tokens.len() - pos, 80int,
{
    if pos < tokens.len() {
        match tokens[pos].kind {
            Kind::Fun => function_declaration(tokens, pos + 1),
            Kind::Var => var_declaration(tokens, pos + 1),
            _ => statement(tokens, pos),
        }
    } else {
        stuck(tokens, pos)
    }
}

/// Whether a token of this kind begins a statement or a declaration.
pub open spec fn begins_statement(kind: Kind) -> bool {
    kind is Class || kind is Fun || kind is Var || kind is For || kind is If || kind is While
        || kind is Print || kind is Return
}

/// The next statement boundary at or after `pos`: the end marker, the
/// position after a semicolon, or a token that begins a statement.
#[verifier::opaque]
pub open spec fn boundary(tokens: Seq<SpecToken>, pos: int) -> int
    decreases tokens.len() - pos,
{
    if pos < 1 || pos >= tokens.len() || at_end(tokens, pos) {
        pos
    } else if tokens[pos - 1].kind is Semicolon {
        pos
    } else if begins_statement(tokens[pos].kind) {
        pos
    } else {
        boundary(tokens, pos + 1)
    }
}

/// Where parsing resumes after an error at `pos`: at the next statement
/// boundary after the token at `pos`.
pub open spec fn synchronize(tokens: Seq<SpecToken>, pos: int) -> int {
    boundary(tokens, advance(tokens, pos))
}

/// What a parse gives: the statements read and the errors met.
pub struct Program {
    pub statements: Seq<SpecStmt>,
    pub errors: Seq<SpecError>,
}

/// The declarations from `pos` to the end marker, after `before`. A
/// declaration that fails is left out, its error is kept, and reading
/// resumes at the next statement boundary.
#[verifier::opaque]
pub open spec fn program(tokens: Seq<SpecToken>, pos: int, before: Program) -> Program
    decreases tokens.len() - pos,
{
    if pos < 0 || pos >= tokens.len() || at_end(tokens, pos) {
        before
    } else {
        let one = declaration(tokens, pos);
        match one.result {
            Ok(found) => {
                if ahead(tokens, pos, one.next) {
                    program(
                        tokens,
                        one.next,
                        Program { statements: before.statements.push(found), ..before },
                    )
                } else {
                    before
                }
            },
            Err(error) => {
                let resume = synchronize(tokens, one.next);
                if ahead(tokens, pos, resume) {
                    program(tokens, resume, Program { errors: before.errors.push(error), ..before })
                } else {
                    Program { errors: before.errors.push(error), ..before }
                }
            },
        }
    }
}

/// What parsing the tokens from `pos` on returns: the statements, if no
/// declaration failed, else all the errors. A stream of the end marker alone
/// gives one statement, the expression `nil`.
pub open spec fn parse(tokens: Seq<SpecToken>, pos: int) -> Result<Seq<SpecStmt>, Seq<SpecError>> {
    if tokens.len() == 1 {
        Ok(seq![SpecStmt::Expression(SpecExpr::Literal(SpecLiteral::Nil))])
    } else {
        let all = program(tokens, pos, Program { statements: Seq::empty(), errors: Seq::empty() });
        if all.errors.len() == 0 {
            Ok(all.statements)
        } else {
            Err(all.errors)
        }
    }
}

/// A `for` loop with all three clauses stands for the block that holds its
/// initializer and then the `while` loop on its condition, whose body is the
/// block of the loop's body and then the increment. So the loop and the
/// block written out by hand are one and the same statement, and run alike.
pub proof fn lemma_for_is_while(
    initializer: SpecStmt,
    test: SpecExpr,
    increment: SpecExpr,
    body: SpecStmt,
)
    ensures
        desugar_for(Some(initializer), Some(test), Some(increment), body) == SpecStmt::Block(
            seq![
                initializer,
                SpecStmt::While(
                    test,
                    Box::new(SpecStmt::Block(seq![body, SpecStmt::Expression(increment)])),
                ),
            ],
        ),
        desugar_for(None, Some(test), None, body) == SpecStmt::While(test, Box::new(body)),
        desugar_for(None, None, None, body) == SpecStmt::While(
            SpecExpr::Literal(SpecLiteral::Boolean(true)),
            Box::new(body),
        ),
{
}

} // verus!

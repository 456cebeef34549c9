//! The recursive descent parser.

use vstd::prelude::*;
use crate::canonical::{binding, exprs_canonical, tightness};
use crate::errors::{LoxError, SpecError};
use crate::expr::{Expr, SpecExpr, exprs_model, exprs_well_formed};
use crate::grammar;
use crate::grammar::{Level, Parsed};
use crate::literal::Literal;
use crate::token::{Kind, SpecToken, Token, TokenType, is_stream, tokens_model};

pub mod statements;

verus! {

/// A parser over a token stream.
pub struct Parser {
    tokens: Vec<Token>,
    current: usize,
}

/// Model of a [`Parser`]: the tokens and the position of the next one.
pub struct SpecParser {
    pub tokens: Seq<SpecToken>,
    pub current: usize,
}

impl View for Parser {
    type V = SpecParser;

    closed spec fn view(&self) -> SpecParser {
        SpecParser { tokens: tokens_model(self.tokens), current: self.current }
    }
}

impl SpecParser {
    /// The tokens are a stream and the position lies inside it.
    pub open spec fn well_formed(self) -> bool {
        is_stream(self.tokens) && self.current < self.tokens.len()
    }
}

/// The model of what an expression parser returned.
pub open spec fn expr_result(r: Result<Expr, LoxError>) -> Result<SpecExpr, SpecError> {
    match r {
        Ok(value) => Ok(value@),
        Err(error) => Err(error@),
    }
}

/// The model of what a parser of expression lists returned.
pub open spec fn exprs_result(r: Result<Vec<Expr>, LoxError>) -> Result<Seq<SpecExpr>, SpecError> {
    match r {
        Ok(value) => Ok(exprs_model(value)),
        Err(error) => Err(error@),
    }
}

/// Whether what an expression parser returned, if it is an expression, is
/// canonical and binds at least as tightly as asked.
pub open spec fn fits(r: Result<Expr, LoxError>, least: int) -> bool {
    r matches Ok(value) ==> value@.canonical() && binding(value@) >= least
}

/// The model of what a token parser returned.
pub open spec fn token_result(r: Result<Token, LoxError>) -> Result<SpecToken, SpecError> {
    match r {
        Ok(value) => Ok(value@),
        Err(error) => Err(error@),
    }
}

/// A parser went from `before` to `after` and returned `result` as the
/// grammar says: it stands where the construct ends, and has moved forward
/// if it read one.
pub open spec fn follows<T>(
    before: SpecParser,
    after: SpecParser,
    result: Result<T, SpecError>,
    parsed: Parsed<T>,
) -> bool {
    &&& after.tokens == before.tokens
    &&& after.well_formed()
    &&& before.current <= after.current
    &&& after.current == parsed.next
    &&& result == parsed.result
    &&& result is Ok ==> before.current < after.current
}

impl Level {
    /// Tests [`Level::has`].
    pub fn includes(&self, token_type: &TokenType) -> (r: bool)
        ensures
            r == self.has(token_type@),
    {
        match self {
            Level::Or => matches!(token_type, TokenType::Or),
            Level::And => matches!(token_type, TokenType::And),
            Level::Equality => matches!(token_type, TokenType::BangEqual | TokenType::EqualEqual),
            Level::Comparison => matches!(
                token_type,
                TokenType::Greater | TokenType::GreaterEqual | TokenType::Less
                    | TokenType::LessEqual
            ),
            Level::Term => matches!(token_type, TokenType::Minus | TokenType::Plus),
            Level::Factor => matches!(token_type, TokenType::Slash | TokenType::Star),
        }
    }

    /// Joins two operands with an operator of this level.
    pub fn build(&self, left: Expr, operator: Token, right: Expr) -> (r: Expr)
        ensures
            r@ == self.join(left@, operator@, right@),
    {
        match self {
            Level::Or | Level::And => Expr::Logical(Box::new(left), operator, Box::new(right)),
            _ => Expr::Binary(Box::new(left), operator, Box::new(right)),
        }
    }
}

impl Parser {
    /// A parser at the start of a token stream.
    pub fn new(tokens: Vec<Token>) -> (r: Self)
        requires
            is_stream(tokens_model(tokens)),
        ensures
            r@ == (SpecParser { tokens: tokens_model(tokens), current: 0 }),
            r@.well_formed(),
    {
        Parser { tokens, current: 0 }
    }

    /// The number of tokens in the stream.
    pub fn count(&self) -> (r: usize)
        ensures
            r == self@.tokens.len(),
    {
        self.tokens.len()
    }

    /// The token that comes next.
    pub fn peek(&self) -> (r: &Token)
        requires
            self@.well_formed(),
        ensures
            r@ == self@.tokens[self@.current as int],
    {
        &self.tokens[self.current]
    }

    /// The token before the next one.
    pub fn previous(&self) -> (r: &Token)
        requires
            self@.well_formed(),
            self@.current >= 1,
        ensures
            r@ == self@.tokens[self@.current - 1],
    {
        &self.tokens[self.current - 1]
    }

    /// Whether the next token is the end marker.
    pub fn is_at_end(&self) -> (r: bool)
        requires
            self@.well_formed(),
        ensures
            r == grammar::at_end(self@.tokens, self@.current as int),
    {
        matches!(self.tokens[self.current].token_type, TokenType::EOF)
    }

    /// Whether the next token is of the given kind and not the end marker.
    pub fn check(&self, token_type: &TokenType) -> (r: bool)
        requires
            self@.well_formed(),
        ensures
            r == grammar::check(self@.tokens, self@.current as int, token_type@),
    {
        if self.is_at_end() {
            return false;
        }
        self.tokens[self.current].token_type == *token_type
    }

    /// Passes the next token, unless it is the end marker.
    pub fn advance(&mut self)
        requires
            old(self)@.well_formed(),
        ensures
            final(self)@.tokens == old(self)@.tokens,
            final(self)@.current == grammar::advance(old(self)@.tokens, old(self)@.current as int),
            final(self)@.well_formed(),
    {
        if !self.is_at_end() {
            assert(self@.tokens.len() == self.tokens.len());
            assert(self@.tokens.last() == self@.tokens[self.tokens.len() - 1]);
            self.current += 1;
        }
    }

    /// Passes the next token if it is of the given kind.
    pub fn match_token(&mut self, token_type: &TokenType) -> (r: bool)
        requires
            old(self)@.well_formed(),
        ensures
            r == grammar::check(old(self)@.tokens, old(self)@.current as int, token_type@),
            final(self)@.tokens == old(self)@.tokens,
            final(self)@.current == if r {
                old(self)@.current + 1
            } else {
                old(self)@.current as int
            },
            final(self)@.well_formed(),
    {
        if self.check(token_type) {
            self.advance();
            return true;
        }
        false
    }

    /// Passes a token of the given kind, or fails with the message.
    fn consume(&mut self, token_type: &TokenType, msg: &str) -> (r: Result<Token, LoxError>)
        requires
            old(self)@.well_formed(),
        ensures
            follows(
                old(self)@,
                final(self)@,
                token_result(r),
                grammar::consume(old(self)@.tokens, old(self)@.current as int, token_type@, msg@),
            ),
    {
        if self.check(token_type) {
            self.advance();
            return Ok(self.previous().clone());
        }
        Err(LoxError::parse_error(self.peek(), msg))
    }

    /// Passes an identifier, or fails with the message.
    fn consume_identifier(&mut self, msg: &str) -> (r: Result<Token, LoxError>)
        requires
            old(self)@.well_formed(),
        ensures
            follows(
                old(self)@,
                final(self)@,
                token_result(r),
                grammar::consume_identifier(old(self)@.tokens, old(self)@.current as int, msg@),
            ),
    {
        if matches!(self.tokens[self.current].token_type, TokenType::Identifier(_)) {
            self.advance();
            return Ok(self.previous().clone());
        }
        Err(LoxError::parse_error(self.peek(), msg))
    }

    fn expression(&mut self) -> (r: Result<Expr, LoxError>)
        requires
            old(self)@.well_formed(),
        ensures
            follows(
                old(self)@,
                final(self)@,
                expr_result(r),
                grammar::expression(old(self)@.tokens, old(self)@.current as int),
            ),
            r matches Ok(value) ==> value@.well_formed(),
            fits(r, 0),
        decreases old(self)@.tokens.len() - old(self)@.current, 51int,
    {
        self.assignment()
    }

    fn assignment(&mut self) -> (r: Result<Expr, LoxError>)
        requires
            old(self)@.well_formed(),
        ensures
            follows(
                old(self)@,
                final(self)@,
                expr_result(r),
                grammar::assignment(old(self)@.tokens, old(self)@.current as int),
            ),
            r matches Ok(value) ==> value@.well_formed(),
            fits(r, 0),
        decreases old(self)@.tokens.len() - old(self)@.current, 50int,
    {
        let left = self.or();
        if self.check(&TokenType::Equal) {
            let equals = self.peek().clone();
            self.advance();
            let value = self.assignment()?;
            match left {
                Ok(Expr::Var(name)) => Ok(Expr::Assign(name, Box::new(value))),
                _ => Err(LoxError::parse_error(&equals, "Invalid assignment target.")),
            }
        } else {
            left
        }
    }

    fn or(&mut self) -> (r: Result<Expr, LoxError>)
        requires
            old(self)@.well_formed(),
        ensures
            follows(
                old(self)@,
                final(self)@,
                expr_result(r),
                grammar::binary(old(self)@.tokens, old(self)@.current as int, Level::Or),
            ),
            r matches Ok(value) ==> value@.well_formed(),
            fits(r, 1),
        decreases old(self)@.tokens.len() - old(self)@.current, 42int,
    {
        self.binary(Level::Or)
    }

    fn and(&mut self) -> (r: Result<Expr, LoxError>)
        requires
            old(self)@.well_formed(),
        ensures
            follows(
                old(self)@,
                final(self)@,
                expr_result(r),
                grammar::binary(old(self)@.tokens, old(self)@.current as int, Level::And),
            ),
            r matches Ok(value) ==> value@.well_formed(),
            fits(r, 2),
        decreases old(self)@.tokens.len() - old(self)@.current, 38int,
    {
        self.binary(Level::And)
    }

    fn equality(&mut self) -> (r: Result<Expr, LoxError>)
        requires
            old(self)@.well_formed(),
        ensures
            follows(
                old(self)@,
                final(self)@,
                expr_result(r),
                grammar::binary(old(self)@.tokens, old(self)@.current as int, Level::Equality),
            ),
            r matches Ok(value) ==> value@.well_formed(),
            fits(r, 3),
        decreases old(self)@.tokens.len() - old(self)@.current, 34int,
    {
        self.binary(Level::Equality)
    }

    fn comparison(&mut self) -> (r: Result<Expr, LoxError>)
        requires
            old(self)@.well_formed(),
        ensures
            follows(
                old(self)@,
                final(self)@,
                expr_result(r),
                grammar::binary(old(self)@.tokens, old(self)@.current as int, Level::Comparison),
            ),
            r matches Ok(value) ==> value@.well_formed(),
            fits(r, 4),
        decreases old(self)@.tokens.len() - old(self)@.current, 30int,
    {
        self.binary(Level::Comparison)
    }

    fn term(&mut self) -> (r: Result<Expr, LoxError>)
        requires
            old(self)@.well_formed(),
        ensures
            follows(
                old(self)@,
                final(self)@,
                expr_result(r),
                grammar::binary(old(self)@.tokens, old(self)@.current as int, Level::Term),
            ),
            r matches Ok(value) ==> value@.well_formed(),
            fits(r, 5),
        decreases old(self)@.tokens.len() - old(self)@.current, 26int,
    {
        self.binary(Level::Term)
    }

    fn factor(&mut self) -> (r: Result<Expr, LoxError>)
        requires
            old(self)@.well_formed(),
        ensures
            follows(
                old(self)@,
                final(self)@,
                expr_result(r),
                grammar::binary(old(self)@.tokens, old(self)@.current as int, Level::Factor),
            ),
            r matches Ok(value) ==> value@.well_formed(),
            fits(r, 6),
        decreases old(self)@.tokens.len() - old(self)@.current, 22int,
    {
        self.binary(Level::Factor)
    }

    /// An operand of the given level.
    fn operand(&mut self, level: Level) -> (r: Result<Expr, LoxError>)
        requires
            old(self)@.well_formed(),
        ensures
            follows(
                old(self)@,
                final(self)@,
                expr_result(r),
                grammar::operand(old(self)@.tokens, old(self)@.current as int, level),
            ),
            r matches Ok(value) ==> value@.well_formed(),
            fits(r, tightness(level) + 1),
        decreases old(self)@.tokens.len() - old(self)@.current, level.rank() - 1,
    {
        match level {
            Level::Or => self.and(),
            Level::And => self.equality(),
            Level::Equality => self.comparison(),
            Level::Comparison => self.term(),
            Level::Term => self.factor(),
            Level::Factor => self.unary(),
        }
    }

    /// An expression of one of the six infix levels: operands joined by the
    /// operators of the level, grouped from the left.
    fn binary(&mut self, level: Level) -> (r: Result<Expr, LoxError>)
        requires
            old(self)@.well_formed(),
        ensures
            follows(
                old(self)@,
                final(self)@,
                expr_result(r),
                grammar::binary(old(self)@.tokens, old(self)@.current as int, level),
            ),
            r matches Ok(value) ==> value@.well_formed(),
            fits(r, tightness(level)),
        decreases old(self)@.tokens.len() - old(self)@.current, level.rank() + 1,
    {
        let ghost tokens = self@.tokens;
        let ghost start = self@.current as int;
        let mut expr = self.operand(level)?;
        let ghost target = grammar::binary(tokens, start, level);
        while !self.is_at_end() && level.includes(&self.peek().token_type)
            invariant
                self@.tokens == tokens,
                self@.well_formed(),
                tokens == old(self)@.tokens,
                start == old(self)@.current,
                start < self@.current,
                expr@.well_formed(),
                expr@.canonical(),
                binding(expr@) >= tightness(level),
                target == grammar::binary(tokens, start, level),
                target == grammar::operators(tokens, self@.current as int, level, expr@),
            decreases tokens.len() - self@.current,
        {
            let operator = self.peek().clone();
            self.advance();
            let right = self.operand(level)?;
            expr = level.build(expr, operator, right);
        }
        Ok(expr)
    }

    /// Prefix operators, applied from the right.
    fn unary(&mut self) -> (r: Result<Expr, LoxError>)
        requires
            old(self)@.well_formed(),
        ensures
            follows(
                old(self)@,
                final(self)@,
                expr_result(r),
                grammar::unary(old(self)@.tokens, old(self)@.current as int),
            ),
            r matches Ok(value) ==> value@.well_formed(),
            fits(r, 7),
        decreases old(self)@.tokens.len() - old(self)@.current, 5int,
    {
        if matches!(self.peek().token_type, TokenType::Bang | TokenType::Minus) {
            let operator = self.peek().clone();
            self.advance();
            let right = self.unary()?;
            return Ok(Expr::Unary(operator, Box::new(right)));
        }
        self.call()
    }

    /// A primary expression and the calls made on it.
    fn call(&mut self) -> (r: Result<Expr, LoxError>)
        requires
            old(self)@.well_formed(),
        ensures
            follows(
                old(self)@,
                final(self)@,
                expr_result(r),
                grammar::call(old(self)@.tokens, old(self)@.current as int),
            ),
            r matches Ok(value) ==> value@.well_formed(),
            fits(r, 8),
        decreases old(self)@.tokens.len() - old(self)@.current, 4int,
    {
        let ghost tokens = self@.tokens;
        let ghost start = self@.current as int;
        let mut expr = self.primary()?;
        let ghost target = grammar::call(tokens, start);
        while self.check(&TokenType::LeftParen)
            invariant
                self@.tokens == tokens,
                self@.well_formed(),
                tokens == old(self)@.tokens,
                start == old(self)@.current,
                start < self@.current,
                expr@.well_formed(),
                expr@.canonical(),
                binding(expr@) >= 8,
                target == grammar::call(tokens, start),
                target == grammar::calls(tokens, self@.current as int, expr@),
            decreases tokens.len() - self@.current,
        {
            self.advance();
            expr = self.finish_call(expr)?;
        }
        Ok(expr)
    }

    /// The arguments of a call that follow those in `before`, up to the
    /// closing parenthesis.
    fn arguments(&mut self, before: Vec<Expr>) -> (r: Result<Vec<Expr>, LoxError>)
        requires
            old(self)@.well_formed(),
            exprs_well_formed(exprs_model(before)),
            exprs_canonical(exprs_model(before)),
        ensures
            follows(
                old(self)@,
                final(self)@,
                exprs_result(r),
                grammar::arguments(
                    old(self)@.tokens,
                    old(self)@.current as int,
                    exprs_model(before),
                ),
            ),
            r matches Ok(all) ==> exprs_well_formed(exprs_model(all)),
            r matches Ok(all) ==> exprs_canonical(exprs_model(all)) && all.len() < 255,
        decreases old(self)@.tokens.len() - old(self)@.current, 52int,
    {
        let mut args = before;
        let value = self.expression()?;
        args.push(value);
        proof {
            let all = exprs_model(args);
            assert(all =~= exprs_model(before).push(value@));
            assert forall|i: int| 0 <= i < all.len() implies (#[trigger] all[i]).well_formed() by {
                if i < exprs_model(before).len() {
                    assert(exprs_model(before)[i].well_formed());
                }
            }
            assert forall|i: int| 0 <= i < all.len() implies (#[trigger] all[i]).canonical() by {
                if i < exprs_model(before).len() {
                    assert(exprs_model(before)[i].canonical());
                }
            }
        }
        if args.len() >= 255 {
            return Err(
                LoxError::parse_error(
                    self.previous(),
                    "Function call cannot have more than 255 arguments.",
                ),
            );
        }
        if self.match_token(&TokenType::Comma) {
            self.arguments(args)
        } else {
            Ok(args)
        }
    }

    /// The arguments and the closing parenthesis of a call of `callee`.
    fn finish_call(&mut self, callee: Expr) -> (r: Result<Expr, LoxError>)
        requires
            old(self)@.well_formed(),
            callee@.well_formed(),
            callee@.canonical(),
            binding(callee@) >= 8,
        ensures
            follows(
                old(self)@,
                final(self)@,
                expr_result(r),
                grammar::finish_call(old(self)@.tokens, old(self)@.current as int, callee@),
            ),
            r matches Ok(value) ==> value@.well_formed(),
            fits(r, 8),
        decreases old(self)@.tokens.len() - old(self)@.current, 53int,
    {
        let mut args: Vec<Expr> = Vec::new();
        assert(exprs_model(args) =~= Seq::empty());
        if !self.check(&TokenType::RightParen) {
            args = self.arguments(args)?;
        }
        assert(exprs_well_formed(exprs_model(args)));
        assert(exprs_canonical(exprs_model(args)));
        let paren = self.consume(&TokenType::RightParen, "Expected ')' after argument list.")?;
        Ok(Expr::Call(Box::new(callee), paren, args))
    }

    /// A literal, a parenthesised expression or a variable.
    fn primary(&mut self) -> (r: Result<Expr, LoxError>)
        requires
            old(self)@.well_formed(),
        ensures
            follows(
                old(self)@,
                final(self)@,
                expr_result(r),
                grammar::primary(old(self)@.tokens, old(self)@.current as int),
            ),
            r matches Ok(value) ==> value@.well_formed(),
            fits(r, 9),
        decreases old(self)@.tokens.len() - old(self)@.current, 3int,
    {
        match &self.tokens[self.current].token_type {
            TokenType::False => {
                self.advance();
                Ok(Expr::Literal(Literal::plain(Literal::Boolean(false))))
            },
            TokenType::True => {
                self.advance();
                Ok(Expr::Literal(Literal::plain(Literal::Boolean(true))))
            },
            TokenType::Nil => {
                self.advance();
                Ok(Expr::Literal(Literal::plain(Literal::Nil)))
            },
            TokenType::Number(bits) => {
                let bits = *bits;
                self.advance();
                Ok(Expr::Literal(Literal::plain(Literal::Number(bits))))
            },
            TokenType::String(text) => {
                let text = text.clone();
                self.advance();
                Ok(Expr::Literal(Literal::plain(Literal::String(text))))
            },
            TokenType::LeftParen => {
                self.advance();
                let inner = self.expression()?;
                self.consume(&TokenType::RightParen, "Expected ')' after expression.")?;
                Ok(Expr::Grouping(Box::new(inner)))
            },
            TokenType::Identifier(_) => {
                let name = self.peek().clone();
                self.advance();
                Ok(Expr::Var(name))
            },
            _ => Err(LoxError::parse_error(self.peek(), "Expected expression")),
        }
    }
}

} // verus!

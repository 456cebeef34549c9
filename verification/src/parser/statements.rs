//! Statements, declarations and whole programs.

use vstd::prelude::*;
use crate::canonical::{all_identifiers, stmts_canonical, takes_else};
use crate::errors::{LoxError, SpecError, lox_errors_model};
use crate::expr::{Expr, SpecExpr};
use crate::grammar;
use crate::literal::{Literal, SpecLiteral};
use crate::parser::{Parser, SpecParser, expr_result, fits, follows};
use crate::stmt::{SpecStmt, Stmt, all_well_formed, stmts_model};
use crate::token::{SpecToken, Token, TokenType, tokens_model};

verus! {

/// Whether what a statement parser returned, if it is a statement, is
/// canonical and no declaration, and does not end in an `if` that the next
/// token would continue.
pub open spec fn stands(r: Result<Stmt, LoxError>, after: SpecParser) -> bool {
    r matches Ok(value) ==> {
        &&& value@.canonical()
        &&& !value@.is_declaration()
        &&& takes_else(value@) ==> !(after.tokens[after.current as int].kind is Else)
    }
}

/// The model of what a statement parser returned.
pub open spec fn stmt_result(r: Result<Stmt, LoxError>) -> Result<SpecStmt, SpecError> {
    match r {
        Ok(value) => Ok(value@),
        Err(error) => Err(error@),
    }
}

/// The model of what a parser of statement lists returned.
pub open spec fn stmts_result(r: Result<Vec<Stmt>, LoxError>) -> Result<Seq<SpecStmt>, SpecError> {
    match r {
        Ok(value) => Ok(stmts_model(value)),
        Err(error) => Err(error@),
    }
}

/// The model of what a parser of token lists returned.
pub open spec fn tokens_result(r: Result<Vec<Token>, LoxError>) -> Result<
    Seq<SpecToken>,
    SpecError,
> {
    match r {
        Ok(value) => Ok(tokens_model(value)),
        Err(error) => Err(error@),
    }
}

/// The model of an expression that may be missing.
pub open spec fn option_expr_model(value: Option<Expr>) -> Option<SpecExpr> {
    match value {
        Some(found) => Some(found@),
        None => None,
    }
}

/// The model of a statement that may be missing.
pub open spec fn option_stmt_model(value: Option<Stmt>) -> Option<SpecStmt> {
    match value {
        Some(found) => Some(found@),
        None => None,
    }
}

/// The model of what a parser of an optional expression returned.
pub open spec fn option_expr_result(r: Result<Option<Expr>, LoxError>) -> Result<
    Option<SpecExpr>,
    SpecError,
> {
    match r {
        Ok(value) => Ok(option_expr_model(value)),
        Err(error) => Err(error@),
    }
}

/// The model of what a parser of an optional statement returned.
pub open spec fn option_stmt_result(r: Result<Option<Stmt>, LoxError>) -> Result<
    Option<SpecStmt>,
    SpecError,
> {
    match r {
        Ok(value) => Ok(option_stmt_model(value)),
        Err(error) => Err(error@),
    }
}

/// The model of what a parse returned.
pub open spec fn program_result(r: Result<Vec<Stmt>, Vec<LoxError>>) -> Result<
    Seq<SpecStmt>,
    Seq<SpecError>,
> {
    match r {
        Ok(statements) => Ok(stmts_model(statements)),
        Err(errors) => Err(lox_errors_model(errors)),
    }
}

/// Builds the statement that a `for` loop stands for.
pub fn desugar_for(
    initializer: Option<Stmt>,
    test: Option<Expr>,
    increment: Option<Expr>,
    body: Stmt,
) -> (r: Stmt)
    requires
        initializer matches Some(first) ==> first@.well_formed(),
        test matches Some(found) ==> found@.well_formed(),
        increment matches Some(step) ==> step@.well_formed(),
        body@.well_formed(),
        initializer matches Some(first) ==> first@.canonical(),
        test matches Some(found) ==> found@.canonical(),
        increment matches Some(step) ==> step@.canonical(),
        body@.canonical(),
        !body@.is_declaration(),
    ensures
        r@.canonical(),
        !r@.is_declaration(),
        takes_else(r@) ==> takes_else(body@),
        r@ == grammar::desugar_for(
            option_stmt_model(initializer),
            option_expr_model(test),
            option_expr_model(increment),
            body@,
        ),
        r@.well_formed(),
{
    let ghost old_body = body@;
    let body = match increment {
        Some(step) => {
            let last = Stmt::Expression(step);
            assert(last@ == SpecStmt::Expression(step@));
            assert(last@.well_formed());
            assert(last@.canonical());
            let mut both: Vec<Stmt> = Vec::new();
            both.push(body);
            both.push(last);
            assert(stmts_model(both) =~= seq![old_body, last@]);
            assert(all_well_formed(stmts_model(both)));
            assert(stmts_canonical(stmts_model(both)));
            let block = Stmt::Block(both);
            assert(block@ == SpecStmt::Block(stmts_model(both)));
            assert(block@.well_formed());
            assert(block@.canonical());
            block
        },
        None => body,
    };
    let ghost new_body = body@;
    let ghost old_test = option_expr_model(test);
    let test = match test {
        Some(found) => found,
        None => {
            let always = Expr::Literal(Literal::plain(Literal::Boolean(true)));
            assert(always@ == SpecExpr::Literal(SpecLiteral::Boolean(true)));
            assert(always@.well_formed());
            assert(always@.canonical());
            always
        },
    };
    let repeat = Stmt::While(test, Box::new(body));
    assert(repeat@ == SpecStmt::While(test@, Box::new(new_body)));
    assert(repeat@.well_formed());
    assert(repeat@.canonical());
    assert(takes_else(repeat@) == takes_else(new_body));
    match initializer {
        Some(first) => {
            let mut both: Vec<Stmt> = Vec::new();
            both.push(first);
            both.push(repeat);
            assert(stmts_model(both) =~= seq![first@, repeat@]);
            assert(all_well_formed(stmts_model(both)));
            assert(stmts_canonical(stmts_model(both)));
            let block = Stmt::Block(both);
            assert(block@ == SpecStmt::Block(stmts_model(both)));
            assert(block@.well_formed());
            assert(block@.canonical());
            block
        },
        None => repeat,
    }
}

impl Parser {
    /// An expression statement.
    fn expr_statement(&mut self) -> (r: Result<Stmt, LoxError>)
        requires
            old(self)@.well_formed(),
        ensures
            follows(
                old(self)@,
                final(self)@,
                stmt_result(r),
                grammar::expr_statement(old(self)@.tokens, old(self)@.current as int),
            ),
            r matches Ok(value) ==> value@.well_formed(),
            stands(r, final(self)@),
        decreases old(self)@.tokens.len() - old(self)@.current, 61int,
    {
        proof {
            reveal(grammar::expr_statement);
            reveal(grammar::terminated);
        }
        let expr = self.expression()?;
        self.consume(&TokenType::Semicolon, "Expected semicolon")?;
        Ok(Stmt::Expression(expr))
    }

    /// A print statement, whose keyword has just been passed.
    fn print_statement(&mut self) -> (r: Result<Stmt, LoxError>)
        requires
            old(self)@.well_formed(),
        ensures
            follows(
                old(self)@,
                final(self)@,
                stmt_result(r),
                grammar::print_statement(old(self)@.tokens, old(self)@.current as int),
            ),
            r matches Ok(value) ==> value@.well_formed(),
            stands(r, final(self)@),
        decreases old(self)@.tokens.len() - old(self)@.current, 61int,
    {
        proof {
            reveal(grammar::print_statement);
            reveal(grammar::terminated);
        }
        let expr = self.expression()?;
        self.consume(&TokenType::Semicolon, "Expected semicolon")?;
        Ok(Stmt::Print(expr))
    }

    /// A return statement, whose keyword has just been passed.
    fn return_statement(&mut self) -> (r: Result<Stmt, LoxError>)
        requires
            old(self)@.well_formed(),
            old(self)@.current >= 1,
            old(self)@.tokens[old(self)@.current - 1].kind is Return,
        ensures
            follows(
                old(self)@,
                final(self)@,
                stmt_result(r),
                grammar::return_statement(old(self)@.tokens, old(self)@.current as int),
            ),
            r matches Ok(value) ==> value@.well_formed(),
            stands(r, final(self)@),
        decreases old(self)@.tokens.len() - old(self)@.current, 61int,
    {
        proof {
            reveal(grammar::return_statement);
        }
        let keyword = self.previous().clone();
        let value = if self.check(&TokenType::Semicolon) {
            None
        } else {
            Some(self.expression()?)
        };
        self.consume(&TokenType::Semicolon, "Expected ';' after return value.")?;
        Ok(Stmt::Return(keyword, value))
    }

    /// A variable declaration, whose keyword has just been passed.
    fn var_declaration(&mut self) -> (r: Result<Stmt, LoxError>)
        requires
            old(self)@.well_formed(),
        ensures
            follows(
                old(self)@,
                final(self)@,
                stmt_result(r),
                grammar::var_declaration(old(self)@.tokens, old(self)@.current as int),
            ),
            r matches Ok(value) ==> value@.well_formed(),
            r matches Ok(value) ==> value@.canonical(),
        decreases old(self)@.tokens.len() - old(self)@.current, 61int,
    {
        proof {
            reveal(grammar::var_declaration);
        }
        if !matches!(self.peek().token_type, TokenType::Identifier(_)) {
            return Err(LoxError::parse_error(self.peek(), "Expected variable name."));
        }
        let identifier = self.peek().clone();
        self.advance();
        let mut initializer: Option<Expr> = None;
        if self.match_token(&TokenType::Equal) {
            initializer = Some(self.expression()?);
        }
        self.consume(&TokenType::Semicolon, "Expected ';' after variable declaration")?;
        Ok(Stmt::Var(identifier, initializer))
    }

    /// A condition in parentheses.
    fn condition(&mut self, open_message: &str, close_message: &str) -> (r: Result<Expr, LoxError>)
        requires
            old(self)@.well_formed(),
        ensures
            follows(
                old(self)@,
                final(self)@,
                expr_result(r),
                grammar::condition(
                    old(self)@.tokens,
                    old(self)@.current as int,
                    open_message@,
                    close_message@,
                ),
            ),
            r matches Ok(value) ==> value@.well_formed(),
            fits(r, 0),
        decreases old(self)@.tokens.len() - old(self)@.current, 61int,
    {
        proof {
            reveal(grammar::condition);
        }
        self.consume(&TokenType::LeftParen, open_message)?;
        let test = self.expression()?;
        self.consume(&TokenType::RightParen, close_message)?;
        Ok(test)
    }

    /// A while statement, whose keyword has just been passed.
    fn while_statement(&mut self) -> (r: Result<Stmt, LoxError>)
        requires
            old(self)@.well_formed(),
        ensures
            follows(
                old(self)@,
                final(self)@,
                stmt_result(r),
                grammar::while_statement(old(self)@.tokens, old(self)@.current as int),
            ),
            r matches Ok(value) ==> value@.well_formed(),
            stands(r, final(self)@),
        decreases old(self)@.tokens.len() - old(self)@.current, 62int,
    {
        let test = self.condition("Expected '(' after 'while'.", "Expected ')' after condition.")?;
        let body = self.statement()?;
        Ok(Stmt::While(test, Box::new(body)))
    }

    /// An if statement, whose keyword has just been passed.
    fn parse_if(&mut self) -> (r: Result<Stmt, LoxError>)
        requires
            old(self)@.well_formed(),
        ensures
            follows(
                old(self)@,
                final(self)@,
                stmt_result(r),
                grammar::if_statement(old(self)@.tokens, old(self)@.current as int),
            ),
            r matches Ok(value) ==> value@.well_formed(),
            stands(r, final(self)@),
        decreases old(self)@.tokens.len() - old(self)@.current, 62int,
    {
        let test = self.condition("Expected '(' after 'if'.", "Expected ')' after if condition.")?;
        let then_branch = self.statement()?;
        if self.match_token(&TokenType::Else) {
            let else_branch = self.statement()?;
            return Ok(Stmt::If(test, Box::new(then_branch), Some(Box::new(else_branch))));
        }
        Ok(Stmt::If(test, Box::new(then_branch), None))
    }

    /// The first clause of a `for` loop, up to and with its semicolon.
    fn for_initializer(&mut self) -> (r: Result<Option<Stmt>, LoxError>)
        requires
            old(self)@.well_formed(),
        ensures
            follows(
                old(self)@,
                final(self)@,
                option_stmt_result(r),
                grammar::for_initializer(old(self)@.tokens, old(self)@.current as int),
            ),
            r matches Ok(Some(value)) ==> value@.well_formed(),
            r matches Ok(Some(value)) ==> value@.canonical(),
        decreases old(self)@.tokens.len() - old(self)@.current, 62int,
    {
        proof {
            reveal(grammar::for_initializer);
        }
        if self.match_token(&TokenType::Var) {
            Ok(Some(self.var_declaration()?))
        } else if self.match_token(&TokenType::Semicolon) {
            Ok(None)
        } else {
            Ok(Some(self.expr_statement()?))
        }
    }

    /// A clause of a `for` loop that may be left out, up to and with the
    /// token that ends it.
    fn for_clause(&mut self, end: &TokenType, msg: &str) -> (r: Result<Option<Expr>, LoxError>)
        requires
            old(self)@.well_formed(),
        ensures
            follows(
                old(self)@,
                final(self)@,
                option_expr_result(r),
                grammar::for_clause(old(self)@.tokens, old(self)@.current as int, end@, msg@),
            ),
            r matches Ok(Some(value)) ==> value@.well_formed(),
            r matches Ok(Some(value)) ==> value@.canonical(),
        decreases old(self)@.tokens.len() - old(self)@.current, 62int,
    {
        proof {
            reveal(grammar::for_clause);
        }
        let clause = if self.peek().token_type == *end {
            None
        } else {
            Some(self.expression()?)
        };
        self.consume(end, msg)?;
        Ok(clause)
    }

    /// A `for` loop, whose keyword has just been passed, as the statement
    /// that it stands for.
    fn for_statement(&mut self) -> (r: Result<Stmt, LoxError>)
        requires
            old(self)@.well_formed(),
        ensures
            follows(
                old(self)@,
                final(self)@,
                stmt_result(r),
                grammar::for_statement(old(self)@.tokens, old(self)@.current as int),
            ),
            r matches Ok(value) ==> value@.well_formed(),
            stands(r, final(self)@),
        decreases old(self)@.tokens.len() - old(self)@.current, 63int,
    {
        self.consume(&TokenType::LeftParen, "Expected '(' after 'for'.")?;
        let initializer = self.for_initializer()?;
        let test = self.for_clause(&TokenType::Semicolon, "Expected ';' after loop condition.")?;
        let increment = self.for_clause(&TokenType::RightParen, "Expected ')' after for clause.")?;
        let body = self.statement()?;
        Ok(desugar_for(initializer, test, increment, body))
    }

    /// The declarations of a block, whose opening brace has just been
    /// passed, up to and with the closing brace.
    fn parse_block(&mut self) -> (r: Result<Vec<Stmt>, LoxError>)
        requires
            old(self)@.well_formed(),
        ensures
            follows(
                old(self)@,
                final(self)@,
                stmts_result(r),
                grammar::block(old(self)@.tokens, old(self)@.current as int, Seq::empty()),
            ),
            r matches Ok(value) ==> all_well_formed(stmts_model(value)),
            r matches Ok(value) ==> stmts_canonical(stmts_model(value)),
        decreases old(self)@.tokens.len() - old(self)@.current, 90int,
    {
        let ghost tokens = self@.tokens;
        let ghost start = self@.current as int;
        let ghost target = grammar::block(tokens, start, Seq::empty());
        let mut statements: Vec<Stmt> = Vec::new();
        assert(stmts_model(statements) =~= Seq::empty());
        while !self.check(&TokenType::RightBrace) && !self.is_at_end()
            invariant
                self@.tokens == tokens,
                self@.well_formed(),
                tokens == old(self)@.tokens,
                start == old(self)@.current,
                start <= self@.current,
                all_well_formed(stmts_model(statements)),
                stmts_canonical(stmts_model(statements)),
                target == grammar::block(tokens, start, Seq::empty()),
                target == grammar::block(tokens, self@.current as int, stmts_model(statements)),
            decreases tokens.len() - self@.current,
        {
            let ghost before = stmts_model(statements);
            let stmt = self.declaration()?;
            statements.push(stmt);
            proof {
                let all = stmts_model(statements);
                assert(all =~= before.push(stmt@));
                assert forall|i: int| 0 <= i < all.len() implies (#[trigger] all[i]).well_formed() by {
                    if i < before.len() {
                        assert(before[i].well_formed());
                    }
                }
                assert forall|i: int| 0 <= i < all.len() implies (#[trigger] all[i]).canonical() by {
                    if i < before.len() {
                        assert(before[i].canonical());
                    }
                }
            }
        }
        self.consume(&TokenType::RightBrace, "Expected '}' after block.")?;
        Ok(statements)
    }

    /// The parameters of a function that follow those in `before`.
    fn parameters(&mut self, before: Vec<Token>) -> (r: Result<Vec<Token>, LoxError>)
        requires
            old(self)@.well_formed(),
            all_identifiers(tokens_model(before)),
        ensures
            r matches Ok(all) ==> all_identifiers(tokens_model(all)) && all.len() <= 255,
            follows(
                old(self)@,
                final(self)@,
                tokens_result(r),
                grammar::parameters(
                    old(self)@.tokens,
                    old(self)@.current as int,
                    tokens_model(before),
                ),
            ),
        decreases old(self)@.tokens.len() - old(self)@.current, 84int,
    {
        proof {
            reveal(grammar::parameters);
        }
        let mut params = before;
        let name = self.consume_identifier("Expected parameter name.")?;
        params.push(name);
        assert(tokens_model(params) =~= tokens_model(before).push(name@));
        assert(all_identifiers(tokens_model(params))) by {
            let all = tokens_model(params);
            assert forall|i: int| 0 <= i < all.len() implies (#[trigger] all[i]).kind
                is Identifier by {
                if i < tokens_model(before).len() {
                    assert(tokens_model(before)[i].kind is Identifier);
                }
            }
        }
        if params.len() > 255 {
            return Err(
                LoxError::parse_error(
                    self.previous(),
                    "A function cannot have more than 255 parameters.",
                ),
            );
        }
        if self.match_token(&TokenType::Comma) {
            self.parameters(params)
        } else {
            Ok(params)
        }
    }

    /// A function declaration, whose keyword has just been passed.
    fn function_declaration(&mut self) -> (r: Result<Stmt, LoxError>)
        requires
            old(self)@.well_formed(),
        ensures
            follows(
                old(self)@,
                final(self)@,
                stmt_result(r),
                grammar::function_declaration(old(self)@.tokens, old(self)@.current as int),
            ),
            r matches Ok(value) ==> value@.well_formed(),
            r matches Ok(value) ==> value@.canonical(),
        decreases old(self)@.tokens.len() - old(self)@.current, 85int,
    {
        let name = self.consume_identifier("Expected function name.")?;
        self.consume(&TokenType::LeftParen, "Expected '(' after function name.")?;
        let mut params: Vec<Token> = Vec::new();
        assert(tokens_model(params) =~= Seq::empty());
        if !self.check(&TokenType::RightParen) {
            params = self.parameters(params)?;
        }
        self.consume(&TokenType::RightParen, "Expected ')' after parameter list.")?;
        self.consume(&TokenType::LeftBrace, "Expected '{' before function body.")?;
        let body = self.parse_block()?;
        Ok(Stmt::Function(name, params, body))
    }

    /// A statement.
    fn statement(&mut self) -> (r: Result<Stmt, LoxError>)
        requires
            old(self)@.well_formed(),
        ensures
            follows(
                old(self)@,
                final(self)@,
                stmt_result(r),
                grammar::statement(old(self)@.tokens, old(self)@.current as int),
            ),
            r matches Ok(value) ==> value@.well_formed(),
            stands(r, final(self)@),
        decreases old(self)@.tokens.len() - old(self)@.current, 70int,
    {
        if self.match_token(&TokenType::Print) {
            self.print_statement()
        } else if self.match_token(&TokenType::Return) {
            self.return_statement()
        } else if self.match_token(&TokenType::While) {
            self.while_statement()
        } else if self.match_token(&TokenType::For) {
            self.for_statement()
        } else if self.match_token(&TokenType::LeftBrace) {
            let block = self.parse_block()?;
            Ok(Stmt::Block(block))
        } else if self.match_token(&TokenType::If) {
            self.parse_if()
        } else {
            self.expr_statement()
        }
    }

    /// A declaration: of a function, of a variable, or a statement.
    fn declaration(&mut self) -> (r: Result<Stmt, LoxError>)
        requires
            old(self)@.well_formed(),
        ensures
            follows(
                old(self)@,
                final(self)@,
                stmt_result(r),
                grammar::declaration(old(self)@.tokens, old(self)@.current as int),
            ),
            r matches Ok(value) ==> value@.well_formed(),
            r matches Ok(value) ==> value@.canonical(),
        decreases old(self)@.tokens.len() - old(self)@.current, 80int,
    {
        if self.match_token(&TokenType::Fun) {
            self.function_declaration()
        } else if self.match_token(&TokenType::Var) {
            self.var_declaration()
        } else {
            self.statement()
        }
    }

    /// After an error: passes one token, then every token up to the next
    /// statement boundary.
    pub fn synchronize(&mut self)
        requires
            old(self)@.well_formed(),
        ensures
            final(self)@.tokens == old(self)@.tokens,
            final(self)@.current == grammar::synchronize(
                old(self)@.tokens,
                old(self)@.current as int,
            ),
            final(self)@.well_formed(),
            old(self)@.current <= final(self)@.current,
            !grammar::at_end(old(self)@.tokens, old(self)@.current as int) ==> old(self)@.current
                < final(self)@.current,
    {
        proof {
            reveal(grammar::boundary);
        }
        let ghost tokens = self@.tokens;
        self.advance();
        let ghost first = self@.current as int;
        while !self.is_at_end()
            invariant
                self@.tokens == tokens,
                tokens == old(self)@.tokens,
                first == grammar::advance(tokens, old(self)@.current as int),
                self@.well_formed(),
                first <= self@.current,
                self@.current >= 1 || grammar::at_end(tokens, self@.current as int),
                grammar::boundary(tokens, self@.current as int) == grammar::boundary(tokens, first),
            decreases tokens.len() - self@.current,
        {
            proof {
                reveal(grammar::boundary);
            }
            if matches!(self.previous().token_type, TokenType::Semicolon) {
                return ;
            }
            match self.peek().token_type {
                TokenType::Class
                | TokenType::Fun
                | TokenType::Var
                | TokenType::For
                | TokenType::If
                | TokenType::While
                | TokenType::Print
                | TokenType::Return => {
                    return ;
                },
                _ => (),
            }
            self.advance();
        }
    }

    /// The declarations from the current position to the end marker, and
    /// the errors of those that failed.
    fn declarations(&mut self) -> (r: (Vec<Stmt>, Vec<LoxError>))
        requires
            old(self)@.well_formed(),
        ensures
            (grammar::Program { statements: stmts_model(r.0), errors: lox_errors_model(r.1) })
                == grammar::program(
                old(self)@.tokens,
                old(self)@.current as int,
                grammar::Program { statements: Seq::empty(), errors: Seq::empty() },
            ),
            final(self)@.tokens == old(self)@.tokens,
            final(self)@.well_formed(),
            all_well_formed(stmts_model(r.0)),
            stmts_canonical(stmts_model(r.0)),
    {
        proof {
            reveal(grammar::program);
        }
        let ghost tokens = self@.tokens;
        let ghost start = self@.current as int;
        let mut program: Vec<Stmt> = Vec::new();
        let mut errors: Vec<LoxError> = Vec::new();
        assert(stmts_model(program) =~= Seq::empty());
        assert(lox_errors_model(errors) =~= Seq::empty());
        let ghost target = grammar::program(
            tokens,
            start,
            grammar::Program { statements: Seq::empty(), errors: Seq::empty() },
        );
        while !self.is_at_end()
            invariant
                self@.tokens == tokens,
                self@.well_formed(),
                all_well_formed(stmts_model(program)),
                stmts_canonical(stmts_model(program)),
                target == grammar::program(
                    tokens,
                    self@.current as int,
                    grammar::Program {
                        statements: stmts_model(program),
                        errors: lox_errors_model(errors),
                    },
                ),
            decreases tokens.len() - self@.current,
        {
            proof {
                reveal(grammar::program);
            }
            let ghost before = stmts_model(program);
            let ghost failures = lox_errors_model(errors);
            match self.declaration() {
                Ok(stmt) => {
                    program.push(stmt);
                    proof {
                        let all = stmts_model(program);
                        assert(all =~= before.push(stmt@));
                        assert forall|i: int| 0 <= i < all.len() implies (
                        #[trigger] all[i]).well_formed() by {
                            if i < before.len() {
                                assert(before[i].well_formed());
                            }
                        }
                        assert forall|i: int| 0 <= i < all.len() implies (
                        #[trigger] all[i]).canonical() by {
                            if i < before.len() {
                                assert(before[i].canonical());
                            }
                        }
                    }
                },
                Err(reason) => {
                    errors.push(reason);
                    assert(lox_errors_model(errors) =~= failures.push(reason@));
                    self.synchronize();
                },
            }
        }
        (program, errors)
    }

    /// The program that an empty source stands for: the one statement `nil`.
    fn nothing() -> (r: Vec<Stmt>)
        ensures
            stmts_model(r) == seq![SpecStmt::Expression(SpecExpr::Literal(SpecLiteral::Nil))],
            all_well_formed(stmts_model(r)),
            stmts_canonical(stmts_model(r)),
    {
        let value = Expr::Literal(Literal::plain(Literal::Nil));
        assert(value@ == SpecExpr::Literal(SpecLiteral::Nil));
        assert(value@.well_formed());
        let only = Stmt::Expression(value);
        assert(only@ == SpecStmt::Expression(value@));
        assert(only@.well_formed());
        assert(value@.canonical());
        assert(only@.canonical());
        let mut program: Vec<Stmt> = Vec::new();
        program.push(only);
        assert(stmts_model(program) =~= seq![only@]);
        program
    }

    /// Parses the stream from the current position to its end. A declaration
    /// that does not follow the grammar is left out and its error kept;
    /// parsing resumes at the next statement boundary. The result is every
    /// statement, if there was no error, else every error.
    pub fn parse(&mut self) -> (r: Result<Vec<Stmt>, Vec<LoxError>>)
        requires
            old(self)@.well_formed(),
        ensures
            program_result(r) == grammar::parse(old(self)@.tokens, old(self)@.current as int),
            final(self)@.tokens == old(self)@.tokens,
            final(self)@.well_formed(),
            r matches Ok(value) ==> all_well_formed(stmts_model(value)),
            r matches Ok(value) ==> stmts_canonical(stmts_model(value)),
    {
        if self.count() == 1 {
            return Ok(Self::nothing());
        }
        let (program, errors) = self.declarations();
        if errors.len() == 0 {
            Ok(program)
        } else {
            Err(errors)
        }
    }
}

} // verus!

//! What the grammar reads is canonical.

use vstd::prelude::*;
use crate::canonical::{
    all_identifiers,
    binding,
    exprs_canonical,
    stmts_canonical,
    takes_else,
    tightness,
};
use crate::errors::SpecError;
use crate::expr::SpecExpr;
use crate::grammar;
use crate::grammar::{Level, Parsed, Program};
use crate::stmt::SpecStmt;
use crate::token::{Kind, SpecToken, is_stream};

verus! {

/// Reading stopped at or after `pos`, before the end of the stream.
pub open spec fn within(tokens: Seq<SpecToken>, pos: int, next: int) -> bool {
    pos <= next < tokens.len()
}

/// Whether an error is a syntax error on the line of its token.
pub open spec fn at_its_token(error: SpecError) -> bool {
    error.kind is SyntaxError && error.line == error.token.line
}

/// Whether every error of a sequence is a syntax error on the line of its
/// token.
pub open spec fn all_at_their_tokens(errors: Seq<SpecError>) -> bool {
    forall|i: int| 0 <= i < errors.len() ==> at_its_token(#[trigger] errors[i])
}

/// An expression that was read is canonical, binds as tightly as its place
/// asked, and took at least one token. An error is a syntax error on the
/// line of its token.
pub open spec fn fine(
    parsed: Parsed<SpecExpr>,
    tokens: Seq<SpecToken>,
    pos: int,
    least: int,
) -> bool {
    &&& within(tokens, pos, parsed.next)
    &&& parsed.result matches Ok(value) ==> value.canonical() && binding(value) >= least && pos
        < parsed.next
    &&& parsed.result matches Err(error) ==> at_its_token(error)
}

/// A statement that was read is canonical and took at least one token. One
/// read as a branch or a body is no declaration, and if it ends in an `if`
/// without `else`, no `else` follows it.
pub open spec fn fine_statement(
    parsed: Parsed<SpecStmt>,
    tokens: Seq<SpecToken>,
    pos: int,
    branch: bool,
) -> bool {
    &&& within(tokens, pos, parsed.next)
    &&& parsed.result matches Ok(value) ==> {
        &&& value.canonical()
        &&& pos < parsed.next
        &&& branch ==> !value.is_declaration() && (takes_else(value) ==> !(
        tokens[parsed.next].kind is Else))
    }
    &&& parsed.result matches Err(error) ==> at_its_token(error)
}

proof fn lemma_primary(tokens: Seq<SpecToken>, pos: int)
    requires
        is_stream(tokens),
        0 <= pos < tokens.len(),
    ensures
        fine(grammar::primary(tokens, pos), tokens, pos, 9),
    decreases tokens.len() - pos, 3int,
{
    if tokens[pos].kind is LeftParen {
        lemma_expression(tokens, pos + 1);
    }
}

proof fn lemma_arguments(tokens: Seq<SpecToken>, pos: int, before: Seq<SpecExpr>)
    requires
        is_stream(tokens),
        0 <= pos < tokens.len(),
        exprs_canonical(before),
    ensures
        within(tokens, pos, grammar::arguments(tokens, pos, before).next),
        grammar::arguments(tokens, pos, before).result matches Ok(all) ==> exprs_canonical(all)
            && all.len() < 255,
        grammar::arguments(tokens, pos, before).result matches Err(error) ==> at_its_token(error),
    decreases tokens.len() - pos, 52int,
{
    lemma_expression(tokens, pos);
    let one = grammar::expression(tokens, pos);
    match one.result {
        Ok(value) => {
            let all = before.push(value);
            assert forall|i: int| 0 <= i < all.len() implies (#[trigger] all[i]).canonical() by {
                if i < before.len() {
                    assert(before[i].canonical());
                }
            }
            if all.len() < 255 && grammar::check(tokens, one.next, Kind::Comma) {
                lemma_arguments(tokens, one.next + 1, all);
            }
        },
        Err(_) => {},
    }
}

proof fn lemma_finish_call(tokens: Seq<SpecToken>, pos: int, callee: SpecExpr)
    requires
        is_stream(tokens),
        0 <= pos < tokens.len(),
        callee.canonical(),
        binding(callee) >= 8,
    ensures
        fine(grammar::finish_call(tokens, pos, callee), tokens, pos, 8),
    decreases tokens.len() - pos, 53int,
{
    assert(exprs_canonical(Seq::<SpecExpr>::empty()));
    if !grammar::check(tokens, pos, Kind::RightParen) {
        lemma_arguments(tokens, pos, Seq::empty());
    }
}

proof fn lemma_calls(tokens: Seq<SpecToken>, pos: int, callee: SpecExpr)
    requires
        is_stream(tokens),
        0 <= pos < tokens.len(),
        callee.canonical(),
        binding(callee) >= 8,
    ensures
        within(tokens, pos, grammar::calls(tokens, pos, callee).next),
        grammar::calls(tokens, pos, callee).result matches Ok(value) ==> value.canonical()
            && binding(value) >= 8,
        grammar::calls(tokens, pos, callee).result matches Err(error) ==> at_its_token(error),
    decreases tokens.len() - pos, 2int,
{
    if grammar::check(tokens, pos, Kind::LeftParen) {
        lemma_finish_call(tokens, pos + 1, callee);
        let one = grammar::finish_call(tokens, pos + 1, callee);
        match one.result {
            Ok(value) => {
                lemma_calls(tokens, one.next, value);
            },
            Err(_) => {},
        }
    }
}

proof fn lemma_call(tokens: Seq<SpecToken>, pos: int)
    requires
        is_stream(tokens),
        0 <= pos < tokens.len(),
    ensures
        fine(grammar::call(tokens, pos), tokens, pos, 8),
    decreases tokens.len() - pos, 4int,
{
    lemma_primary(tokens, pos);
    let first = grammar::primary(tokens, pos);
    match first.result {
        Ok(value) => {
            lemma_calls(tokens, first.next, value);
        },
        Err(_) => {},
    }
}

proof fn lemma_unary(tokens: Seq<SpecToken>, pos: int)
    requires
        is_stream(tokens),
        0 <= pos < tokens.len(),
    ensures
        fine(grammar::unary(tokens, pos), tokens, pos, 7),
    decreases tokens.len() - pos, 5int,
{
    if tokens[pos].kind is Bang || tokens[pos].kind is Minus {
        lemma_unary(tokens, pos + 1);
    } else {
        lemma_call(tokens, pos);
    }
}

proof fn lemma_operand(tokens: Seq<SpecToken>, pos: int, level: Level)
    requires
        is_stream(tokens),
        0 <= pos < tokens.len(),
    ensures
        fine(grammar::operand(tokens, pos, level), tokens, pos, tightness(level) + 1),
    decreases tokens.len() - pos, level.rank() - 1,
{
    match level {
        Level::Or => lemma_binary(tokens, pos, Level::And),
        Level::And => lemma_binary(tokens, pos, Level::Equality),
        Level::Equality => lemma_binary(tokens, pos, Level::Comparison),
        Level::Comparison => lemma_binary(tokens, pos, Level::Term),
        Level::Term => lemma_binary(tokens, pos, Level::Factor),
        Level::Factor => lemma_unary(tokens, pos),
    }
}

proof fn lemma_operators(tokens: Seq<SpecToken>, pos: int, level: Level, left: SpecExpr)
    requires
        is_stream(tokens),
        0 <= pos < tokens.len(),
        left.canonical(),
        binding(left) >= tightness(level),
    ensures
        within(tokens, pos, grammar::operators(tokens, pos, level, left).next),
        grammar::operators(tokens, pos, level, left).result matches Ok(value)
            ==> value.canonical() && binding(value) >= tightness(level),
        grammar::operators(tokens, pos, level, left).result matches Err(error) ==> at_its_token(
            error,
        ),
    decreases tokens.len() - pos, level.rank(),
{
    if !grammar::at_end(tokens, pos) && level.has(tokens[pos].kind) {
        lemma_operand(tokens, pos + 1, level);
        let right = grammar::operand(tokens, pos + 1, level);
        match right.result {
            Ok(value) => {
                lemma_operators(
                    tokens,
                    right.next,
                    level,
                    level.join(left, tokens[pos], value),
                );
            },
            Err(_) => {},
        }
    }
}

proof fn lemma_binary(tokens: Seq<SpecToken>, pos: int, level: Level)
    requires
        is_stream(tokens),
        0 <= pos < tokens.len(),
    ensures
        fine(grammar::binary(tokens, pos, level), tokens, pos, tightness(level)),
    decreases tokens.len() - pos, level.rank() + 1,
{
    lemma_operand(tokens, pos, level);
    let first = grammar::operand(tokens, pos, level);
    match first.result {
        Ok(left) => {
            lemma_operators(tokens, first.next, level, left);
        },
        Err(_) => {},
    }
}

proof fn lemma_assignment(tokens: Seq<SpecToken>, pos: int)
    requires
        is_stream(tokens),
        0 <= pos < tokens.len(),
    ensures
        fine(grammar::assignment(tokens, pos), tokens, pos, 0),
    decreases tokens.len() - pos, 50int,
{
    lemma_binary(tokens, pos, Level::Or);
    let left = grammar::binary(tokens, pos, Level::Or);
    if grammar::check(tokens, left.next, Kind::Equal) {
        lemma_assignment(tokens, left.next + 1);
    }
}

/// An expression that the grammar reads is canonical.
pub proof fn lemma_expression(tokens: Seq<SpecToken>, pos: int)
    requires
        is_stream(tokens),
        0 <= pos < tokens.len(),
    ensures
        fine(grammar::expression(tokens, pos), tokens, pos, 0),
    decreases tokens.len() - pos, 51int,
{
    lemma_assignment(tokens, pos);
}

proof fn lemma_expr_statement(tokens: Seq<SpecToken>, pos: int)
    requires
        is_stream(tokens),
        0 <= pos < tokens.len(),
    ensures
        fine_statement(grammar::expr_statement(tokens, pos), tokens, pos, true),
{
    reveal(grammar::expr_statement);
    reveal(grammar::terminated);
    lemma_expression(tokens, pos);
}

proof fn lemma_print_statement(tokens: Seq<SpecToken>, pos: int)
    requires
        is_stream(tokens),
        0 <= pos < tokens.len(),
    ensures
        fine_statement(grammar::print_statement(tokens, pos), tokens, pos, true),
{
    reveal(grammar::print_statement);
    reveal(grammar::terminated);
    lemma_expression(tokens, pos);
}

proof fn lemma_return_statement(tokens: Seq<SpecToken>, pos: int)
    requires
        is_stream(tokens),
        1 <= pos < tokens.len(),
        tokens[pos - 1].kind is Return,
    ensures
        fine_statement(grammar::return_statement(tokens, pos), tokens, pos, true),
{
    reveal(grammar::return_statement);
    lemma_expression(tokens, pos);
}

proof fn lemma_var_declaration(tokens: Seq<SpecToken>, pos: int)
    requires
        is_stream(tokens),
        0 <= pos < tokens.len(),
    ensures
        fine_statement(grammar::var_declaration(tokens, pos), tokens, pos, false),
{
    reveal(grammar::var_declaration);
    if tokens[pos].kind is Identifier && grammar::check(tokens, pos + 1, Kind::Equal) {
        lemma_expression(tokens, pos + 2);
    }
}

proof fn lemma_condition(
    tokens: Seq<SpecToken>,
    pos: int,
    open_message: Seq<char>,
    close_message: Seq<char>,
)
    requires
        is_stream(tokens),
        0 <= pos < tokens.len(),
    ensures
        fine(grammar::condition(tokens, pos, open_message, close_message), tokens, pos, 0),
{
    reveal(grammar::condition);
    if grammar::check(tokens, pos, Kind::LeftParen) {
        lemma_expression(tokens, pos + 1);
    }
}

proof fn lemma_for_initializer(tokens: Seq<SpecToken>, pos: int)
    requires
        is_stream(tokens),
        0 <= pos < tokens.len(),
    ensures
        within(tokens, pos, grammar::for_initializer(tokens, pos).next),
        grammar::for_initializer(tokens, pos).result matches Ok(found) ==> pos
            < grammar::for_initializer(tokens, pos).next && (found matches Some(first)
            ==> first.canonical()),
        grammar::for_initializer(tokens, pos).result matches Err(error) ==> at_its_token(error),
{
    reveal(grammar::for_initializer);
    if grammar::check(tokens, pos, Kind::Var) {
        lemma_var_declaration(tokens, pos + 1);
    } else if !grammar::check(tokens, pos, Kind::Semicolon) {
        lemma_expr_statement(tokens, pos);
    }
}

proof fn lemma_for_clause(tokens: Seq<SpecToken>, pos: int, end: Kind, message: Seq<char>)
    requires
        is_stream(tokens),
        0 <= pos < tokens.len(),
    ensures
        within(tokens, pos, grammar::for_clause(tokens, pos, end, message).next),
        grammar::for_clause(tokens, pos, end, message).result matches Ok(found) ==> pos
            < grammar::for_clause(tokens, pos, end, message).next && (found matches Some(value)
            ==> value.canonical()),
        grammar::for_clause(tokens, pos, end, message).result matches Err(error) ==> at_its_token(
            error,
        ),
{
    reveal(grammar::for_clause);
    if tokens[pos].kind != end {
        lemma_expression(tokens, pos);
    }
}

proof fn lemma_while_statement(tokens: Seq<SpecToken>, pos: int)
    requires
        is_stream(tokens),
        0 <= pos < tokens.len(),
    ensures
        fine_statement(grammar::while_statement(tokens, pos), tokens, pos, true),
    decreases tokens.len() - pos, 62int,
{
    let open_message = "Expected '(' after 'while'."@;
    let close_message = "Expected ')' after condition."@;
    lemma_condition(tokens, pos, open_message, close_message);
    let head = grammar::condition(tokens, pos, open_message, close_message);
    if head.result is Ok {
        lemma_statement(tokens, head.next);
    }
}

proof fn lemma_if_statement(tokens: Seq<SpecToken>, pos: int)
    requires
        is_stream(tokens),
        0 <= pos < tokens.len(),
    ensures
        fine_statement(grammar::if_statement(tokens, pos), tokens, pos, true),
    decreases tokens.len() - pos, 62int,
{
    let open_message = "Expected '(' after 'if'."@;
    let close_message = "Expected ')' after if condition."@;
    lemma_condition(tokens, pos, open_message, close_message);
    let head = grammar::condition(tokens, pos, open_message, close_message);
    if head.result is Ok {
        lemma_statement(tokens, head.next);
        let first = grammar::statement(tokens, head.next);
        if first.result is Ok && grammar::check(tokens, first.next, Kind::Else) {
            lemma_statement(tokens, first.next + 1);
        }
    }
}

proof fn lemma_for_statement(tokens: Seq<SpecToken>, pos: int)
    requires
        is_stream(tokens),
        0 <= pos < tokens.len(),
    ensures
        fine_statement(grammar::for_statement(tokens, pos), tokens, pos, true),
    decreases tokens.len() - pos, 63int,
{
    if grammar::check(tokens, pos, Kind::LeftParen) {
        lemma_for_initializer(tokens, pos + 1);
        let first = grammar::for_initializer(tokens, pos + 1);
        if first.result is Ok {
            let test_message = "Expected ';' after loop condition."@;
            lemma_for_clause(tokens, first.next, Kind::Semicolon, test_message);
            let second = grammar::for_clause(tokens, first.next, Kind::Semicolon, test_message);
            if second.result is Ok {
                let step_message = "Expected ')' after for clause."@;
                lemma_for_clause(tokens, second.next, Kind::RightParen, step_message);
                let third = grammar::for_clause(
                    tokens,
                    second.next,
                    Kind::RightParen,
                    step_message,
                );
                if third.result is Ok {
                    lemma_statement(tokens, third.next);
                    let body = grammar::statement(tokens, third.next);
                    match body.result {
                        Ok(inner) => {
                            lemma_desugar(
                                first.result->Ok_0,
                                second.result->Ok_0,
                                third.result->Ok_0,
                                inner,
                            );
                        },
                        Err(_) => {},
                    }
                }
            }
        }
    }
}

/// The statement that a `for` loop stands for is canonical, where its parts
/// are, and ends in an `if` without `else` only where the body does.
proof fn lemma_desugar(
    initializer: Option<SpecStmt>,
    test: Option<SpecExpr>,
    increment: Option<SpecExpr>,
    body: SpecStmt,
)
    requires
        initializer matches Some(first) ==> first.canonical(),
        test matches Some(found) ==> found.canonical(),
        increment matches Some(step) ==> step.canonical(),
        body.canonical(),
        !body.is_declaration(),
    ensures
        grammar::desugar_for(initializer, test, increment, body).canonical(),
        !grammar::desugar_for(initializer, test, increment, body).is_declaration(),
        takes_else(grammar::desugar_for(initializer, test, increment, body)) ==> takes_else(body),
{
    let inner = match increment {
        Some(step) => SpecStmt::Block(seq![body, SpecStmt::Expression(step)]),
        None => body,
    };
    match increment {
        Some(step) => {
            let both = seq![body, SpecStmt::Expression(step)];
            assert(SpecStmt::Expression(step).canonical());
            assert(stmts_canonical(both));
            assert(inner.canonical());
        },
        None => {},
    }
    let condition = match test {
        Some(found) => found,
        None => SpecExpr::Literal(crate::literal::SpecLiteral::Boolean(true)),
    };
    assert(condition.canonical());
    let repeat = SpecStmt::While(condition, Box::new(inner));
    assert(repeat.canonical());
    assert(takes_else(repeat) == takes_else(inner));
    match initializer {
        Some(first) => {
            let both = seq![first, repeat];
            assert(stmts_canonical(both));
            assert(SpecStmt::Block(both).canonical());
        },
        None => {},
    }
}

proof fn lemma_block(tokens: Seq<SpecToken>, pos: int, before: Seq<SpecStmt>)
    requires
        is_stream(tokens),
        0 <= pos < tokens.len(),
        stmts_canonical(before),
    ensures
        within(tokens, pos, grammar::block(tokens, pos, before).next),
        grammar::block(tokens, pos, before).result matches Ok(all) ==> stmts_canonical(all) && pos
            < grammar::block(tokens, pos, before).next,
        grammar::block(tokens, pos, before).result matches Err(error) ==> at_its_token(error),
    decreases tokens.len() - pos, 90int,
{
    if !grammar::check(tokens, pos, Kind::RightBrace) && !grammar::at_end(tokens, pos) {
        lemma_declaration(tokens, pos);
        let one = grammar::declaration(tokens, pos);
        match one.result {
            Ok(found) => {
                let all = before.push(found);
                assert forall|i: int| 0 <= i < all.len() implies (#[trigger] all[i]).canonical() by {
                    if i < before.len() {
                        assert(before[i].canonical());
                    }
                }
                lemma_block(tokens, one.next, all);
            },
            Err(_) => {},
        }
    }
}

proof fn lemma_parameters(tokens: Seq<SpecToken>, pos: int, before: Seq<SpecToken>)
    requires
        is_stream(tokens),
        0 <= pos < tokens.len(),
        all_identifiers(before),
    ensures
        within(tokens, pos, grammar::parameters(tokens, pos, before).next),
        grammar::parameters(tokens, pos, before).result matches Ok(all) ==> all_identifiers(all)
            && all.len() <= 255,
        grammar::parameters(tokens, pos, before).result matches Err(error) ==> at_its_token(error),
    decreases tokens.len() - pos,
{
    reveal(grammar::parameters);
    if tokens[pos].kind is Identifier {
        let all = before.push(tokens[pos]);
        assert forall|i: int| 0 <= i < all.len() implies (#[trigger] all[i]).kind is Identifier by {
            if i < before.len() {
                assert(before[i].kind is Identifier);
            }
        }
        if all.len() <= 255 && grammar::check(tokens, pos + 1, Kind::Comma) {
            lemma_parameters(tokens, pos + 2, all);
        }
    }
}

proof fn lemma_function_declaration(tokens: Seq<SpecToken>, pos: int)
    requires
        is_stream(tokens),
        0 <= pos < tokens.len(),
    ensures
        fine_statement(grammar::function_declaration(tokens, pos), tokens, pos, false),
    decreases tokens.len() - pos, 85int,
{
    if tokens[pos].kind is Identifier && grammar::check(tokens, pos + 1, Kind::LeftParen) {
        let list = if grammar::check(tokens, pos + 2, Kind::RightParen) {
            Parsed { result: Ok(Seq::<SpecToken>::empty()), next: pos + 2 }
        } else {
            grammar::parameters(tokens, pos + 2, Seq::empty())
        };
        if !grammar::check(tokens, pos + 2, Kind::RightParen) {
            lemma_parameters(tokens, pos + 2, Seq::empty());
        }
        if list.result is Ok {
            let close = grammar::consume(
                tokens,
                list.next,
                Kind::RightParen,
                "Expected ')' after parameter list."@,
            );
            if close.result is Ok {
                let brace = grammar::consume(
                    tokens,
                    close.next,
                    Kind::LeftBrace,
                    "Expected '{' before function body."@,
                );
                if brace.result is Ok {
                    lemma_block(tokens, brace.next, Seq::empty());
                }
            }
        }
    }
}

/// A statement that the grammar reads is canonical.
pub proof fn lemma_statement(tokens: Seq<SpecToken>, pos: int)
    requires
        is_stream(tokens),
        0 <= pos < tokens.len(),
    ensures
        fine_statement(grammar::statement(tokens, pos), tokens, pos, true),
    decreases tokens.len() - pos, 70int,
{
    match tokens[pos].kind {
        Kind::Print => {
            lemma_print_statement(tokens, pos + 1);
        },
        Kind::Return => {
            lemma_return_statement(tokens, pos + 1);
        },
        Kind::While => {
            lemma_while_statement(tokens, pos + 1);
        },
        Kind::For => {
            lemma_for_statement(tokens, pos + 1);
        },
        Kind::LeftBrace => {
            lemma_block(tokens, pos + 1, Seq::empty());
        },
        Kind::If => {
            lemma_if_statement(tokens, pos + 1);
        },
        _ => {
            lemma_expr_statement(tokens, pos);
        },
    }
}

/// A declaration that the grammar reads is canonical.
pub proof fn lemma_declaration(tokens: Seq<SpecToken>, pos: int)
    requires
        is_stream(tokens),
        0 <= pos < tokens.len(),
    ensures
        fine_statement(grammar::declaration(tokens, pos), tokens, pos, false),
    decreases tokens.len() - pos, 80int,
{
    match tokens[pos].kind {
        Kind::Fun => {
            lemma_function_declaration(tokens, pos + 1);
        },
        Kind::Var => {
            lemma_var_declaration(tokens, pos + 1);
        },
        _ => {
            lemma_statement(tokens, pos);
        },
    }
}

proof fn lemma_boundary(tokens: Seq<SpecToken>, pos: int)
    requires
        is_stream(tokens),
        0 <= pos < tokens.len(),
    ensures
        within(tokens, pos, grammar::boundary(tokens, pos)),
    decreases tokens.len() - pos,
{
    reveal(grammar::boundary);
    if !(pos < 1 || grammar::at_end(tokens, pos)) && !(tokens[pos - 1].kind is Semicolon)
        && !grammar::begins_statement(tokens[pos].kind) {
        lemma_boundary(tokens, pos + 1);
    }
}

proof fn lemma_program(tokens: Seq<SpecToken>, pos: int, before: Program)
    requires
        is_stream(tokens),
        0 <= pos < tokens.len(),
        stmts_canonical(before.statements),
        all_at_their_tokens(before.errors),
    ensures
        stmts_canonical(grammar::program(tokens, pos, before).statements),
        all_at_their_tokens(grammar::program(tokens, pos, before).errors),
    decreases tokens.len() - pos,
{
    reveal(grammar::program);
    if !grammar::at_end(tokens, pos) {
        lemma_declaration(tokens, pos);
        let one = grammar::declaration(tokens, pos);
        match one.result {
            Ok(found) => {
                let all = before.statements.push(found);
                assert forall|i: int| 0 <= i < all.len() implies (#[trigger] all[i]).canonical() by {
                    if i < before.statements.len() {
                        assert(before.statements[i].canonical());
                    }
                }
                lemma_program(tokens, one.next, Program { statements: all, ..before });
            },
            Err(error) => {
                let failures = before.errors.push(error);
                assert forall|i: int| 0 <= i < failures.len() implies at_its_token(
                    #[trigger] failures[i],
                ) by {
                    if i < before.errors.len() {
                        assert(at_its_token(before.errors[i]));
                    }
                }
                lemma_boundary(tokens, grammar::advance(tokens, one.next));
                let resume = grammar::synchronize(tokens, one.next);
                if grammar::ahead(tokens, pos, resume) {
                    lemma_program(
                        tokens,
                        resume,
                        Program { errors: before.errors.push(error), ..before },
                    );
                }
            },
        }
    }
}

/// Every program that the parser accepts is canonical. Where it accepts
/// none, it reports at least one error, and each error is a syntax error on
/// the line of its token.
pub proof fn lemma_parsed_is_canonical(tokens: Seq<SpecToken>)
    requires
        is_stream(tokens),
    ensures
        grammar::parse(tokens, 0) matches Ok(program) ==> stmts_canonical(program),
        grammar::parse(tokens, 0) matches Err(errors) ==> errors.len() >= 1
            && all_at_their_tokens(errors),
{
    if tokens.len() == 1 {
        let only = SpecStmt::Expression(SpecExpr::Literal(crate::literal::SpecLiteral::Nil));
        assert(SpecExpr::Literal(crate::literal::SpecLiteral::Nil).canonical());
        assert(only.canonical());
        assert(stmts_canonical(seq![only]));
    } else {
        let empty = Program { statements: Seq::empty(), errors: Seq::empty() };
        assert(stmts_canonical(empty.statements));
        assert(all_at_their_tokens(empty.errors));
        lemma_program(tokens, 0, empty);
    }
}

/// Parsing is idempotent over the canonical form: where the parser accepts
/// a token stream and the program that it reads is not empty, parsing the
/// canonical form of that program gives the same program.
pub proof fn theorem_parse_write_parse(tokens: Seq<SpecToken>)
    requires
        is_stream(tokens),
    ensures
        grammar::parse(tokens, 0) matches Ok(program) ==> program.len() >= 1 ==> grammar::parse(
            crate::canonical::program_tokens(program),
            0,
        ) == grammar::parse(tokens, 0),
{
    lemma_parsed_is_canonical(tokens);
    match grammar::parse(tokens, 0) {
        Ok(program) => {
            if program.len() >= 1 {
                crate::round_trip::statements::theorem_round_trip(program);
            }
        },
        Err(_) => {},
    }
}

} // verus!

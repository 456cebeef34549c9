//! The round trip for statements and programs.

use vstd::prelude::*;
use crate::canonical::{
    all_identifiers,
    begins_declaration,
    begins_expression,
    flat,
    lemma_first_of_statement,
    lemma_first_token,
    lemma_split,
    mark,
    program_tokens,
    separated,
    singles,
    stands_at,
    stmt_forms,
    stmts_canonical,
    takes_else,
};
use crate::errors::SpecError;
use crate::expr::SpecExpr;
use crate::grammar;
use crate::grammar::{Parsed, Program};
use crate::round_trip::{lemma_assignment, read};
use crate::stmt::SpecStmt;
use crate::token::{Kind, SpecToken};

verus! {

/// The statement and the position after it, as a result of reading.
pub open spec fn done(statement: SpecStmt, next: int) -> Parsed<SpecStmt> {
    Parsed { result: Ok(statement), next }
}

/// A condition in parentheses is read back.
proof fn lemma_condition(
    test: SpecExpr,
    tokens: Seq<SpecToken>,
    pos: int,
    open_message: Seq<char>,
    close_message: Seq<char>,
)
    requires
        test.canonical(),
        stands_at(
            tokens,
            pos,
            seq![mark(Kind::LeftParen, "("@)] + test.tokens() + seq![
                mark(Kind::RightParen, ")"@),
            ],
        ),
    ensures
        grammar::condition(tokens, pos, open_message, close_message) == read(
            test,
            pos + test.tokens().len() + 2,
        ),
{
    reveal(grammar::condition);
    let open = seq![mark(Kind::LeftParen, "("@)];
    let close = seq![mark(Kind::RightParen, ")"@)];
    lemma_split(tokens, pos, open + test.tokens(), close);
    lemma_split(tokens, pos, open, test.tokens());
    assert(tokens[pos] == open[0]);
    assert(tokens[pos + 1 + test.tokens().len()] == close[0]);
    lemma_assignment(test, tokens, pos + 1);
}

/// A print statement is read back.
proof fn lemma_print(statement: SpecStmt, tokens: Seq<SpecToken>, pos: int)
    requires
        statement.canonical(),
        statement is Print,
        stands_at(tokens, pos, statement.tokens()),
    ensures
        grammar::statement(tokens, pos) == done(statement, pos + statement.tokens().len()),
{
    reveal(grammar::print_statement);
    reveal(grammar::terminated);
    let value = statement->Print_0;
    let keyword = seq![mark(Kind::Print, "print"@)];
    let semicolon = seq![mark(Kind::Semicolon, ";"@)];
    lemma_split(tokens, pos, keyword + value.tokens(), semicolon);
    lemma_split(tokens, pos, keyword, value.tokens());
    assert(tokens[pos] == keyword[0]);
    assert(tokens[pos + 1 + value.tokens().len()] == semicolon[0]);
    lemma_assignment(value, tokens, pos + 1);
}

/// An expression statement is read back.
proof fn lemma_expression_statement(statement: SpecStmt, tokens: Seq<SpecToken>, pos: int)
    requires
        statement.canonical(),
        statement is Expression,
        stands_at(tokens, pos, statement.tokens()),
    ensures
        grammar::statement(tokens, pos) == done(statement, pos + statement.tokens().len()),
{
    reveal(grammar::expr_statement);
    reveal(grammar::terminated);
    let value = statement->Expression_0;
    let semicolon = seq![mark(Kind::Semicolon, ";"@)];
    lemma_split(tokens, pos, value.tokens(), semicolon);
    lemma_first_token(value);
    assert(tokens[pos] == value.tokens()[0]);
    assert(tokens[pos + value.tokens().len()] == semicolon[0]);
    lemma_assignment(value, tokens, pos);
}

/// A return statement is read back.
proof fn lemma_return(statement: SpecStmt, tokens: Seq<SpecToken>, pos: int)
    requires
        statement.canonical(),
        statement is Return,
        stands_at(tokens, pos, statement.tokens()),
    ensures
        grammar::statement(tokens, pos) == done(statement, pos + statement.tokens().len()),
{
    reveal(grammar::return_statement);
    let keyword = statement->Return_0;
    let semicolon = seq![mark(Kind::Semicolon, ";"@)];
    match statement->Return_1 {
        Some(value) => {
            lemma_split(tokens, pos, seq![keyword] + value.tokens(), semicolon);
            lemma_split(tokens, pos, seq![keyword], value.tokens());
            assert(tokens[pos] == seq![keyword][0]);
            assert(tokens[pos + 1 + value.tokens().len()] == semicolon[0]);
            lemma_first_token(value);
            assert(tokens[pos + 1] == value.tokens()[0]);
            lemma_assignment(value, tokens, pos + 1);
        },
        None => {
            lemma_split(tokens, pos, seq![keyword], semicolon);
            assert(tokens[pos] == seq![keyword][0]);
            assert(tokens[pos + 1] == semicolon[0]);
        },
    }
}

/// A variable declaration is read back.
proof fn lemma_var(statement: SpecStmt, tokens: Seq<SpecToken>, pos: int)
    requires
        statement.canonical(),
        statement is Var,
        stands_at(tokens, pos, statement.tokens()),
    ensures
        grammar::declaration(tokens, pos) == done(statement, pos + statement.tokens().len()),
{
    reveal(grammar::var_declaration);
    let name = statement->Var_0;
    let semicolon = seq![mark(Kind::Semicolon, ";"@)];
    match statement->Var_1 {
        Some(value) => {
            let head = seq![mark(Kind::Var, "var"@), name, mark(Kind::Equal, "="@)];
            lemma_split(tokens, pos, head + value.tokens(), semicolon);
            lemma_split(tokens, pos, head, value.tokens());
            assert(tokens[pos] == head[0]);
            assert(tokens[pos + 1] == head[1]);
            assert(tokens[pos + 2] == head[2]);
            assert(tokens[pos + 3 + value.tokens().len()] == semicolon[0]);
            lemma_assignment(value, tokens, pos + 3);
        },
        None => {
            let head = seq![mark(Kind::Var, "var"@), name];
            lemma_split(tokens, pos, head, semicolon);
            assert(tokens[pos] == head[0]);
            assert(tokens[pos + 1] == head[1]);
            assert(tokens[pos + 2] == semicolon[0]);
        },
    }
}

/// The parameters of a function from the `from`th on are read back, where
/// the closing parenthesis follows the last.
proof fn lemma_parameters(params: Seq<SpecToken>, from: int, tokens: Seq<SpecToken>, pos: int)
    requires
        all_identifiers(params),
        0 <= from < params.len() <= 255,
        stands_at(tokens, pos, separated(singles(params).skip(from), mark(Kind::Comma, ","@))),
        tokens[pos + separated(singles(params).skip(from), mark(Kind::Comma, ","@)).len()].kind
            is RightParen,
    ensures
        grammar::parameters(tokens, pos, params.take(from)) == (Parsed {
            result: Ok(params),
            next: pos + separated(singles(params).skip(from), mark(Kind::Comma, ","@)).len(),
        }),
    decreases params.len() - from,
{
    reveal(grammar::parameters);
    let comma = mark(Kind::Comma, ","@);
    let parts = singles(params).skip(from);
    let list = separated(parts, comma);
    let one = params[from];
    assert(one.kind is Identifier);
    assert(parts[0] == seq![one]);
    assert(params.take(from).push(one) =~= params.take(from + 1));
    if parts.len() == 1 {
        assert(list == seq![one]);
        assert(tokens[pos] == list[0]);
        assert(params.take(from + 1) =~= params);
    } else {
        assert(parts.drop_first() =~= singles(params).skip(from + 1));
        let rest = separated(parts.drop_first(), comma);
        assert(list == seq![one] + seq![comma] + rest);
        lemma_split(tokens, pos, seq![one] + seq![comma], rest);
        lemma_split(tokens, pos, seq![one], seq![comma]);
        assert(tokens[pos] == seq![one][0]);
        assert(tokens[pos + 1] == seq![comma][0]);
        lemma_parameters(params, from + 1, tokens, pos + 2);
    }
}

/// A canonical statement is read back from its canonical form, where the
/// next token is no `else` that the statement would take for its own.
pub proof fn lemma_statement(statement: SpecStmt, tokens: Seq<SpecToken>, pos: int)
    requires
        statement.canonical(),
        stands_at(tokens, pos, statement.tokens()),
        takes_else(statement) ==> !(tokens[pos + statement.tokens().len()].kind is Else),
    ensures
        grammar::declaration(tokens, pos) == done(statement, pos + statement.tokens().len()),
        !statement.is_declaration() ==> grammar::statement(tokens, pos) == done(
            statement,
            pos + statement.tokens().len(),
        ),
    decreases statement, 1int,
{
    lemma_first_of_statement(statement);
    assert(tokens[pos] == statement.tokens()[0]);
    match statement {
        SpecStmt::Print(_) => {
            lemma_print(statement, tokens, pos);
        },
        SpecStmt::Expression(_) => {
            lemma_expression_statement(statement, tokens, pos);
        },
        SpecStmt::Return(_, _) => {
            lemma_return(statement, tokens, pos);
        },
        SpecStmt::Var(_, _) => {
            lemma_var(statement, tokens, pos);
        },
        SpecStmt::While(_, _) => {
            lemma_while(statement, tokens, pos);
        },
        SpecStmt::If(_, _, _) => {
            lemma_if(statement, tokens, pos);
        },
        SpecStmt::Block(_) => {
            lemma_block_statement(statement, tokens, pos);
        },
        SpecStmt::Function(_, _, _) => {
            lemma_function(statement, tokens, pos);
        },
    }
}

/// A while statement is read back.
proof fn lemma_while(statement: SpecStmt, tokens: Seq<SpecToken>, pos: int)
    requires
        statement.canonical(),
        statement is While,
        stands_at(tokens, pos, statement.tokens()),
        takes_else(statement) ==> !(tokens[pos + statement.tokens().len()].kind is Else),
    ensures
        grammar::statement(tokens, pos) == done(statement, pos + statement.tokens().len()),
    decreases statement, 0int,
{
    let test = statement->While_0;
    let body = *statement->While_1;
    let keyword = seq![mark(Kind::While, "while"@)];
    let open = seq![mark(Kind::LeftParen, "("@)];
    let close = seq![mark(Kind::RightParen, ")"@)];
    let head = open + test.tokens() + close;
    assert(statement.tokens() =~= keyword + (head + body.tokens()));
    lemma_split(tokens, pos, keyword, head + body.tokens());
    lemma_split(tokens, pos + 1, head, body.tokens());
    assert(tokens[pos] == keyword[0]);
    lemma_condition(
        test,
        tokens,
        pos + 1,
        "Expected '(' after 'while'."@,
        "Expected ')' after condition."@,
    );
    lemma_statement(body, tokens, pos + 1 + head.len());
}

/// An if statement is read back.
proof fn lemma_if(statement: SpecStmt, tokens: Seq<SpecToken>, pos: int)
    requires
        statement.canonical(),
        statement is If,
        stands_at(tokens, pos, statement.tokens()),
        takes_else(statement) ==> !(tokens[pos + statement.tokens().len()].kind is Else),
    ensures
        grammar::statement(tokens, pos) == done(statement, pos + statement.tokens().len()),
    decreases statement, 0int,
{
    let test = statement->If_0;
    let first = *statement->If_1;
    let keyword = seq![mark(Kind::If, "if"@)];
    let open = seq![mark(Kind::LeftParen, "("@)];
    let close = seq![mark(Kind::RightParen, ")"@)];
    let head = open + test.tokens() + close;
    match statement->If_2 {
        Some(boxed) => {
            let other = *boxed;
            let joint = seq![mark(Kind::Else, "else"@)];
            assert(statement.tokens() =~= keyword + (head + (first.tokens() + (joint
                + other.tokens()))));
            lemma_split(tokens, pos, keyword, head + (first.tokens() + (joint + other.tokens())));
            lemma_split(tokens, pos + 1, head, first.tokens() + (joint + other.tokens()));
            let at_first = pos + 1 + head.len();
            lemma_split(tokens, at_first, first.tokens(), joint + other.tokens());
            let at_else = at_first + first.tokens().len();
            lemma_split(tokens, at_else, joint, other.tokens());
            assert(tokens[pos] == keyword[0]);
            assert(tokens[at_else] == joint[0]);
            lemma_condition(
                test,
                tokens,
                pos + 1,
                "Expected '(' after 'if'."@,
                "Expected ')' after if condition."@,
            );
            lemma_statement(first, tokens, at_first);
            lemma_statement(other, tokens, at_else + 1);
        },
        None => {
            assert(statement.tokens() =~= keyword + (head + first.tokens()));
            lemma_split(tokens, pos, keyword, head + first.tokens());
            lemma_split(tokens, pos + 1, head, first.tokens());
            assert(tokens[pos] == keyword[0]);
            lemma_condition(
                test,
                tokens,
                pos + 1,
                "Expected '(' after 'if'."@,
                "Expected ')' after if condition."@,
            );
            lemma_statement(first, tokens, pos + 1 + head.len());
        },
    }
}

/// A block is read back.
proof fn lemma_block_statement(statement: SpecStmt, tokens: Seq<SpecToken>, pos: int)
    requires
        statement.canonical(),
        statement is Block,
        stands_at(tokens, pos, statement.tokens()),
    ensures
        grammar::statement(tokens, pos) == done(statement, pos + statement.tokens().len()),
    decreases statement, 0int,
{
    let statements = statement->Block_0;
    let open = seq![mark(Kind::LeftBrace, "{"@)];
    let close = seq![mark(Kind::RightBrace, "}"@)];
    let inside = flat(stmt_forms(statements));
    assert(statement.tokens() =~= open + (inside + close));
    lemma_split(tokens, pos, open, inside + close);
    assert(tokens[pos] == open[0]);
    assert(statements.take(0) =~= Seq::<SpecStmt>::empty());
    assert(stmt_forms(statements).skip(0) =~= stmt_forms(statements));
    lemma_block(statements, 0, tokens, pos + 1);
}

/// The declarations of a block from the `from`th on, and its closing brace,
/// are read back.
proof fn lemma_block(stmts: Seq<SpecStmt>, from: int, tokens: Seq<SpecToken>, pos: int)
    requires
        stmts_canonical(stmts),
        0 <= from <= stmts.len(),
        stands_at(
            tokens,
            pos,
            flat(stmt_forms(stmts).skip(from)) + seq![mark(Kind::RightBrace, "}"@)],
        ),
    ensures
        grammar::block(tokens, pos, stmts.take(from)) == (Parsed {
            result: Ok(stmts),
            next: pos + flat(stmt_forms(stmts).skip(from)).len() + 1,
        }),
    decreases stmts, stmts.len() - from,
{
    let close = seq![mark(Kind::RightBrace, "}"@)];
    let parts = stmt_forms(stmts).skip(from);
    let inside = flat(parts);
    lemma_split(tokens, pos, inside, close);
    assert(tokens[pos + inside.len()] == close[0]);
    if from == stmts.len() {
        assert(inside.len() == 0);
        assert(stmts.take(from) =~= stmts);
    } else {
        let one = stmts[from];
        assert(one.canonical());
        assert(parts[0] == one.tokens());
        assert(parts.drop_first() =~= stmt_forms(stmts).skip(from + 1));
        let rest = flat(parts.drop_first());
        assert(inside == one.tokens() + rest);
        assert(inside + close =~= one.tokens() + (rest + close));
        lemma_split(tokens, pos, one.tokens(), rest + close);
        lemma_first_of_statement(one);
        assert(tokens[pos] == one.tokens()[0]);
        let after = pos + one.tokens().len();
        lemma_next_is_no_else(stmts, from + 1, tokens, after);
        lemma_statement(one, tokens, pos);
        assert(stmts.take(from).push(one) =~= stmts.take(from + 1));
        lemma_block(stmts, from + 1, tokens, after);
    }
}

/// What follows a statement inside a block is the next statement or the
/// closing brace, and so no `else`.
proof fn lemma_next_is_no_else(stmts: Seq<SpecStmt>, from: int, tokens: Seq<SpecToken>, pos: int)
    requires
        stmts_canonical(stmts),
        0 <= from <= stmts.len(),
        stands_at(
            tokens,
            pos,
            flat(stmt_forms(stmts).skip(from)) + seq![mark(Kind::RightBrace, "}"@)],
        ),
    ensures
        !(tokens[pos].kind is Else),
        !(tokens[pos].kind is EOF),
{
    let close = seq![mark(Kind::RightBrace, "}"@)];
    let parts = stmt_forms(stmts).skip(from);
    let form = flat(parts) + close;
    assert(tokens[pos] == form[0]);
    if from < stmts.len() {
        let one = stmts[from];
        assert(one.canonical());
        lemma_first_of_statement(one);
        assert(parts[0] == one.tokens());
        assert(form[0] == one.tokens()[0]);
    } else {
        assert(flat(parts).len() == 0);
    }
}

/// A function declaration is read back.
proof fn lemma_function(statement: SpecStmt, tokens: Seq<SpecToken>, pos: int)
    requires
        statement.canonical(),
        statement is Function,
        stands_at(tokens, pos, statement.tokens()),
    ensures
        grammar::declaration(tokens, pos) == done(statement, pos + statement.tokens().len()),
    decreases statement, 0int,
{
    let name = statement->Function_0;
    let params = statement->Function_1;
    let body = statement->Function_2;
    let head = seq![mark(Kind::Fun, "fun"@), name];
    let open = seq![mark(Kind::LeftParen, "("@)];
    let close = seq![mark(Kind::RightParen, ")"@)];
    let brace = seq![mark(Kind::LeftBrace, "{"@)];
    let end = seq![mark(Kind::RightBrace, "}"@)];
    let list = separated(singles(params), mark(Kind::Comma, ","@));
    let inside = flat(stmt_forms(body));
    assert(statement.tokens() =~= head + (open + (list + (close + (brace + (inside + end))))));
    lemma_split(tokens, pos, head, open + (list + (close + (brace + (inside + end)))));
    lemma_split(tokens, pos + 2, open, list + (close + (brace + (inside + end))));
    lemma_split(tokens, pos + 3, list, close + (brace + (inside + end)));
    let after_list = pos + 3 + list.len();
    lemma_split(tokens, after_list, close, brace + (inside + end));
    lemma_split(tokens, after_list + 1, brace, inside + end);
    assert(tokens[pos] == head[0]);
    assert(tokens[pos + 1] == head[1]);
    assert(tokens[pos + 2] == open[0]);
    assert(tokens[after_list] == close[0]);
    assert(tokens[after_list + 1] == brace[0]);
    if params.len() == 0 {
        assert(list.len() == 0);
        assert(params =~= Seq::<SpecToken>::empty());
    } else {
        assert(singles(params)[0] == seq![params[0]]);
        assert(list[0] == params[0]);
        assert(tokens[pos + 3] == list[0]);
        assert(params[0].kind is Identifier);
        assert(params.take(0) =~= Seq::<SpecToken>::empty());
        assert(singles(params).skip(0) =~= singles(params));
        lemma_parameters(params, 0, tokens, pos + 3);
    }
    assert(body.take(0) =~= Seq::<SpecStmt>::empty());
    assert(stmt_forms(body).skip(0) =~= stmt_forms(body));
    lemma_block(body, 0, tokens, after_list + 2);
    lemma_function_head(name, params, tokens, pos + 1, after_list);
}

/// The name and the parameters of a function are read as the grammar of a
/// function declaration reads them.
proof fn lemma_function_head(
    name: SpecToken,
    params: Seq<SpecToken>,
    tokens: Seq<SpecToken>,
    pos: int,
    after_list: int,
)
    requires
        0 <= pos,
        after_list + 2 < tokens.len(),
        after_list >= pos + 2,
        tokens[pos] == name,
        name.kind is Identifier,
        tokens[pos + 1].kind is LeftParen,
        tokens[after_list].kind is RightParen,
        tokens[after_list + 1].kind is LeftBrace,
        if params.len() == 0 {
            after_list == pos + 2
        } else {
            grammar::parameters(tokens, pos + 2, Seq::empty()) == (Parsed {
                result: Ok::<Seq<SpecToken>, SpecError>(params),
                next: after_list,
            }) && !(tokens[pos + 2].kind is RightParen)
        },
    ensures
        grammar::function_declaration(tokens, pos) == match grammar::block(
            tokens,
            after_list + 2,
            Seq::empty(),
        ).result {
            Err(error) => grammar::failed(
                error,
                grammar::block(tokens, after_list + 2, Seq::empty()).next,
            ),
            Ok(inner) => done(
                SpecStmt::Function(name, params, inner),
                grammar::block(tokens, after_list + 2, Seq::empty()).next,
            ),
        },
{
    if params.len() == 0 {
        assert(params =~= Seq::<SpecToken>::empty());
    }
}

/// The declarations of a program from the `from`th on are read back, up to
/// the end marker.
proof fn lemma_program(stmts: Seq<SpecStmt>, from: int, tokens: Seq<SpecToken>, pos: int)
    requires
        stmts_canonical(stmts),
        0 <= from <= stmts.len(),
        0 <= pos,
        pos + flat(stmt_forms(stmts).skip(from)).len() + 1 == tokens.len(),
        forall|i: int|
            0 <= i < flat(stmt_forms(stmts).skip(from)).len() ==> tokens[pos + i] == #[trigger] flat(
                stmt_forms(stmts).skip(from),
            )[i],
        tokens[tokens.len() - 1].kind is EOF,
    ensures
        grammar::program(
            tokens,
            pos,
            Program { statements: stmts.take(from), errors: Seq::empty() },
        ) == (Program { statements: stmts, errors: Seq::empty() }),
    decreases stmts.len() - from,
{
    reveal(grammar::program);
    let parts = stmt_forms(stmts).skip(from);
    let inside = flat(parts);
    if from == stmts.len() {
        assert(inside.len() == 0);
        assert(stmts.take(from) =~= stmts);
    } else {
        let one = stmts[from];
        assert(one.canonical());
        assert(parts[0] == one.tokens());
        assert(parts.drop_first() =~= stmt_forms(stmts).skip(from + 1));
        let rest = flat(parts.drop_first());
        assert(inside == one.tokens() + rest);
        lemma_first_of_statement(one);
        assert(tokens[pos] == inside[0]);
        assert forall|i: int| 0 <= i < one.tokens().len() implies tokens[pos + i]
            == #[trigger] one.tokens()[i] by {
            assert(inside[i] == one.tokens()[i]);
        }
        let after = pos + one.tokens().len();
        assert forall|i: int| 0 <= i < rest.len() implies tokens[after + i] == #[trigger] rest[i] by {
            assert(inside[one.tokens().len() + i] == rest[i]);
        }
        assert(stands_at(tokens, pos, one.tokens()));
        if from + 1 < stmts.len() {
            let next = stmts[from + 1];
            assert(next.canonical());
            lemma_first_of_statement(next);
            assert(parts.drop_first()[0] == next.tokens());
            assert(rest[0] == next.tokens()[0]);
            assert(tokens[after] == rest[0]);
        } else {
            assert(flat(parts.drop_first()).len() == 0);
        }
        lemma_statement(one, tokens, pos);
        assert(stmts.take(from).push(one) =~= stmts.take(from + 1));
        lemma_program(stmts, from + 1, tokens, after);
    }
}

/// Parsing the canonical form of a canonical program that is not empty
/// gives the program back. What the parser accepts is canonical, so to
/// write a parsed program out in canonical form and to parse that again
/// gives the same program.
pub proof fn theorem_round_trip(program: Seq<SpecStmt>)
    requires
        stmts_canonical(program),
        program.len() >= 1,
    ensures
        grammar::parse(program_tokens(program), 0) == Ok::<Seq<SpecStmt>, Seq<SpecError>>(
            program,
        ),
{
    let tokens = program_tokens(program);
    let inside = flat(stmt_forms(program));
    assert(program[0].canonical());
    lemma_first_of_statement(program[0]);
    assert(stmt_forms(program)[0] == program[0].tokens());
    assert(inside.len() >= 1);
    assert(program.take(0) =~= Seq::<SpecStmt>::empty());
    assert(stmt_forms(program).skip(0) =~= stmt_forms(program));
    assert(tokens[tokens.len() - 1] == mark(Kind::EOF, Seq::empty()));
    assert forall|i: int| 0 <= i < inside.len() implies tokens[0 + i] == #[trigger] inside[i] by {}
    lemma_program(program, 0, tokens, 0);
}

} // verus!

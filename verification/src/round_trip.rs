//! Parsing the canonical form of a canonical tree gives the tree back.

use vstd::prelude::*;
use crate::canonical::{
    begins_expression,
    begins_primary,
    binding,
    ends_expression,
    exprs_canonical,
    forms_of,
    lemma_first_token,
    lemma_split,
    literal_token,
    mark,
    operator_tightness,
    separated,
    stands_at,
    tightness,
};
use crate::expr::SpecExpr;
use crate::grammar::{
    Level,
    Parsed,
    arguments,
    assignment,
    at_end,
    binary,
    call,
    calls,
    check,
    consume,
    expression,
    finish_call,
    operand,
    operators,
    primary,
    unary,
};
use crate::literal::SpecLiteral;
use crate::token::{Kind, SpecToken};

pub mod statements;

verus! {

/// The level of infix operators that binds with the given tightness, from 1
/// to 6.
pub open spec fn level_at(tightness: int) -> Level {
    if tightness <= 1 {
        Level::Or
    } else if tightness == 2 {
        Level::And
    } else if tightness == 3 {
        Level::Equality
    } else if tightness == 4 {
        Level::Comparison
    } else if tightness == 5 {
        Level::Term
    } else {
        Level::Factor
    }
}

/// What the grammar reads at a place that asks for an expression that binds
/// at least as tightly as `least`.
pub open spec fn read_at(least: int, tokens: Seq<SpecToken>, pos: int) -> Parsed<SpecExpr> {
    if least <= 0 {
        expression(tokens, pos)
    } else if least <= 6 {
        binary(tokens, pos, level_at(least))
    } else if least == 7 {
        unary(tokens, pos)
    } else if least == 8 {
        call(tokens, pos)
    } else {
        primary(tokens, pos)
    }
}

/// The expression and the position after it, as a result of reading.
pub open spec fn read(expr: SpecExpr, next: int) -> Parsed<SpecExpr> {
    Parsed { result: Ok(expr), next }
}

/// A variable is read at any place up to the `or` level, whatever follows
/// it but an opening parenthesis or an operator of that place.
proof fn lemma_variable(name: SpecToken, tokens: Seq<SpecToken>, pos: int, least: int)
    requires
        name.kind is Identifier,
        1 <= least <= 9,
        stands_at(tokens, pos, seq![name]),
        ends_expression(least, tokens[pos + 1].kind),
    ensures
        read_at(least, tokens, pos) == read(SpecExpr::Var(name), pos + 1),
    decreases 9 - least,
{
    assert(tokens[pos] == seq![name][0]);
    if least == 9 {
    } else if least == 8 {
        lemma_variable(name, tokens, pos, 9);
        assert(calls(tokens, pos + 1, SpecExpr::Var(name)) == read(SpecExpr::Var(name), pos + 1));
    } else if least == 7 {
        lemma_variable(name, tokens, pos, 8);
    } else {
        lemma_variable(name, tokens, pos, least + 1);
        let level = level_at(least);
        assert(operand(tokens, pos, level) == read_at(least + 1, tokens, pos));
        assert(operators(tokens, pos + 1, level, SpecExpr::Var(name)) == read(
            SpecExpr::Var(name),
            pos + 1,
        ));
    }
}

/// Reading a canonical expression from its canonical form gives the
/// expression, and stops after it, wherever the place asks for no tighter
/// binding than the expression has and the next token ends the expression.
pub proof fn lemma_reads(expr: SpecExpr, tokens: Seq<SpecToken>, pos: int, least: int)
    requires
        expr.canonical(),
        0 <= least <= 9,
        binding(expr) >= least,
        stands_at(tokens, pos, expr.tokens()),
        ends_expression(least, tokens[pos + expr.tokens().len()].kind),
    ensures
        read_at(least, tokens, pos) == read(expr, pos + expr.tokens().len()),
    decreases expr, 2 * (9 - least) + 1,
{
    if least == 9 {
        lemma_primary(expr, tokens, pos);
    } else if least == 8 {
        lemma_call_spine(expr, tokens, pos);
    } else if least == 7 {
        lemma_unary(expr, tokens, pos);
    } else if least >= 1 {
        lemma_binary_spine(expr, tokens, pos, least);
    } else {
        lemma_assignment(expr, tokens, pos);
    }
}

/// A literal, a variable or a grouping is read back.
proof fn lemma_primary(expr: SpecExpr, tokens: Seq<SpecToken>, pos: int)
    requires
        expr.canonical(),
        binding(expr) >= 9,
        stands_at(tokens, pos, expr.tokens()),
    ensures
        primary(tokens, pos) == read(expr, pos + expr.tokens().len()),
    decreases expr, 0int,
{
    let form = expr.tokens();
    assert(tokens[pos] == form[0]);
    match expr {
        SpecExpr::Grouping(inner) => {
            let open = seq![mark(Kind::LeftParen, "("@)];
            let close = seq![mark(Kind::RightParen, ")"@)];
            lemma_split(tokens, pos, open + inner.tokens(), close);
            lemma_split(tokens, pos, open, inner.tokens());
            assert(tokens[pos + 1 + inner.tokens().len()] == close[0]);
            lemma_reads(*inner, tokens, pos + 1, 0);
            assert(read_at(0, tokens, pos + 1) == expression(tokens, pos + 1));
        },
        _ => {},
    }
}

/// An expression that binds as tightly as a prefix operator or tighter is
/// read back at the place of an operand of a prefix operator.
proof fn lemma_unary(expr: SpecExpr, tokens: Seq<SpecToken>, pos: int)
    requires
        expr.canonical(),
        binding(expr) >= 7,
        stands_at(tokens, pos, expr.tokens()),
        ends_expression(7, tokens[pos + expr.tokens().len()].kind),
    ensures
        unary(tokens, pos) == read(expr, pos + expr.tokens().len()),
    decreases expr, 4int,
{
    lemma_first_token(expr);
    assert(tokens[pos] == expr.tokens()[0]);
    match expr {
        SpecExpr::Unary(operator, operand) => {
            lemma_split(tokens, pos, seq![operator], operand.tokens());
            assert(tokens[pos] == seq![operator][0]);
            lemma_reads(*operand, tokens, pos + 1, 7);
            assert(read_at(7, tokens, pos + 1) == unary(tokens, pos + 1));
        },
        _ => {
            lemma_reads(expr, tokens, pos, 8);
            assert(read_at(8, tokens, pos) == call(tokens, pos));
        },
    }
}

/// Any canonical expression is read back at the place of an expression.
pub proof fn lemma_assignment(expr: SpecExpr, tokens: Seq<SpecToken>, pos: int)
    requires
        expr.canonical(),
        stands_at(tokens, pos, expr.tokens()),
        ends_expression(0, tokens[pos + expr.tokens().len()].kind),
    ensures
        expression(tokens, pos) == read(expr, pos + expr.tokens().len()),
        assignment(tokens, pos) == read(expr, pos + expr.tokens().len()),
    decreases expr, 18int,
{
    match expr {
        SpecExpr::Assign(name, value) => {
            let head = seq![name, mark(Kind::Equal, "="@)];
            lemma_split(tokens, pos, head, value.tokens());
            assert(tokens[pos] == head[0]);
            assert(tokens[pos + 1] == head[1]);
            assert(stands_at(tokens, pos, seq![name]));
            lemma_variable(name, tokens, pos, 1);
            assert(read_at(1, tokens, pos) == binary(tokens, pos, Level::Or));
            lemma_reads(*value, tokens, pos + 2, 0);
            assert(read_at(0, tokens, pos + 2) == assignment(tokens, pos + 2));
        },
        _ => {
            lemma_first_token(expr);
            lemma_reads(expr, tokens, pos, 1);
            assert(read_at(1, tokens, pos) == binary(tokens, pos, Level::Or));
        },
    }
}

/// Reading at a level of infix operators takes a canonical expression of
/// that level or a tighter one as the left operand and goes on with the
/// operators that follow it.
proof fn lemma_binary_spine(expr: SpecExpr, tokens: Seq<SpecToken>, pos: int, least: int)
    requires
        expr.canonical(),
        1 <= least <= 6,
        binding(expr) >= least,
        stands_at(tokens, pos, expr.tokens()),
        ends_expression(least + 1, tokens[pos + expr.tokens().len()].kind),
    ensures
        binary(tokens, pos, level_at(least)) == operators(
            tokens,
            pos + expr.tokens().len(),
            level_at(least),
            expr,
        ),
    decreases expr, 2 * (9 - least),
{
    let level = level_at(least);
    lemma_first_token(expr);
    assert(operand(tokens, pos, level) == read_at(least + 1, tokens, pos));
    if binding(expr) > least {
        lemma_reads(expr, tokens, pos, least + 1);
    } else {
        let (left, operator, right) = match expr {
            SpecExpr::Logical(left, operator, right) => (*left, operator, *right),
            SpecExpr::Binary(left, operator, right) => (*left, operator, *right),
            _ => (expr, tokens[0], expr),
        };
        assert(expr.tokens() == left.tokens() + seq![operator] + right.tokens());
        lemma_split(tokens, pos, left.tokens() + seq![operator], right.tokens());
        lemma_split(tokens, pos, left.tokens(), seq![operator]);
        let middle = pos + left.tokens().len();
        assert(tokens[middle] == seq![operator][0]);
        lemma_binary_spine(left, tokens, pos, least);
        assert(operand(tokens, middle + 1, level) == read_at(least + 1, tokens, middle + 1));
        lemma_reads(right, tokens, middle + 1, least + 1);
        assert(level.join(left, operator, right) == expr);
    }
}

/// Reading a call takes a canonical call or primary expression as the
/// callee and goes on with the calls that follow it.
proof fn lemma_call_spine(expr: SpecExpr, tokens: Seq<SpecToken>, pos: int)
    requires
        expr.canonical(),
        binding(expr) >= 8,
        stands_at(tokens, pos, expr.tokens()),
    ensures
        call(tokens, pos) == calls(tokens, pos + expr.tokens().len(), expr),
    decreases expr, 2int,
{
    if expr is Call {
        lemma_call_case(expr, tokens, pos);
    } else {
        lemma_reads(expr, tokens, pos, 9);
        lemma_first_token(expr);
    }
}

/// The case of a call in [`lemma_call_spine`].
proof fn lemma_call_case(expr: SpecExpr, tokens: Seq<SpecToken>, pos: int)
    requires
        expr.canonical(),
        expr is Call,
        stands_at(tokens, pos, expr.tokens()),
    ensures
        call(tokens, pos) == calls(tokens, pos + expr.tokens().len(), expr),
    decreases expr, 1int,
{
    let callee = *expr->Call_0;
    let paren = expr->Call_1;
    let exprs = expr->Call_2;
    let open = seq![mark(Kind::LeftParen, "("@)];
    let list = separated(forms_of(exprs), mark(Kind::Comma, ","@));
    assert(expr.tokens() == callee.tokens() + open + list + seq![paren]);
    assert(expr.tokens() =~= callee.tokens() + (open + (list + seq![paren])));
    lemma_split(tokens, pos, callee.tokens(), open + (list + seq![paren]));
    let after_callee = pos + callee.tokens().len();
    lemma_split(tokens, after_callee, open, list + seq![paren]);
    assert(tokens[after_callee] == open[0]);
    lemma_call_spine(callee, tokens, pos);
    lemma_finish_call(callee, paren, exprs, tokens, after_callee + 1);
    let end = pos + expr.tokens().len();
    assert(end == after_callee + 1 + list.len() + 1);
    assert(finish_call(tokens, after_callee + 1, callee) == read(expr, end));
    assert(check(tokens, after_callee, Kind::LeftParen));
    assert(calls(tokens, after_callee, callee) == calls(tokens, end, expr));
}

/// The arguments of a canonical call and its closing parenthesis are read
/// back after the opening parenthesis.
proof fn lemma_finish_call(
    callee: SpecExpr,
    paren: SpecToken,
    exprs: Seq<SpecExpr>,
    tokens: Seq<SpecToken>,
    pos: int,
)
    requires
        exprs_canonical(exprs),
        exprs.len() < 255,
        paren.kind is RightParen,
        stands_at(tokens, pos, separated(forms_of(exprs), mark(Kind::Comma, ","@)) + seq![paren]),
    ensures
        finish_call(tokens, pos, callee) == read(
            SpecExpr::Call(Box::new(callee), paren, exprs),
            pos + separated(forms_of(exprs), mark(Kind::Comma, ","@)).len() + 1,
        ),
    decreases exprs, exprs.len() + 1,
{
    let list = separated(forms_of(exprs), mark(Kind::Comma, ","@));
    lemma_split(tokens, pos, list, seq![paren]);
    assert(tokens[pos + list.len()] == seq![paren][0]);
    if exprs.len() == 0 {
        assert(list.len() == 0);
        assert(exprs =~= Seq::<SpecExpr>::empty());
        assert(check(tokens, pos, Kind::RightParen));
        assert(consume(tokens, pos, Kind::RightParen, "Expected ')' after argument list."@)
            == (Parsed { result: Ok::<SpecToken, crate::errors::SpecError>(paren), next: pos + 1 }));
    } else {
        lemma_first_token(exprs[0]);
        assert(forms_of(exprs)[0] == exprs[0].tokens());
        assert(list[0] == exprs[0].tokens()[0]);
        assert(tokens[pos] == list[0]);
        assert(!check(tokens, pos, Kind::RightParen));
        assert(exprs.take(0) =~= Seq::<SpecExpr>::empty());
        assert(forms_of(exprs).skip(0) =~= forms_of(exprs));
        lemma_arguments(exprs, 0, tokens, pos);
        assert(arguments(tokens, pos, Seq::empty()) == (Parsed {
            result: Ok::<Seq<SpecExpr>, crate::errors::SpecError>(exprs),
            next: pos + list.len(),
        }));
        assert(consume(
            tokens,
            pos + list.len(),
            Kind::RightParen,
            "Expected ')' after argument list."@,
        ) == (Parsed {
            result: Ok::<SpecToken, crate::errors::SpecError>(paren),
            next: pos + list.len() + 1,
        }));
    }
}

/// Reading the arguments of a call from the `from`th on gives all of them,
/// where the closing parenthesis follows the last.
proof fn lemma_arguments(exprs: Seq<SpecExpr>, from: int, tokens: Seq<SpecToken>, pos: int)
    requires
        exprs_canonical(exprs),
        0 <= from < exprs.len() < 255,
        stands_at(tokens, pos, separated(forms_of(exprs).skip(from), mark(Kind::Comma, ","@))),
        tokens[pos + separated(forms_of(exprs).skip(from), mark(Kind::Comma, ","@)).len()].kind
            is RightParen,
    ensures
        arguments(tokens, pos, exprs.take(from)) == (Parsed {
            result: Ok(exprs),
            next: pos + separated(forms_of(exprs).skip(from), mark(Kind::Comma, ","@)).len(),
        }),
    decreases exprs, exprs.len() - from,
{
    let comma = mark(Kind::Comma, ","@);
    let parts = forms_of(exprs).skip(from);
    let list = separated(parts, comma);
    let one = exprs[from];
    assert(one.canonical());
    assert(parts[0] == one.tokens());
    assert(exprs.take(from).push(one) =~= exprs.take(from + 1));
    if parts.len() == 1 {
        assert(list == one.tokens());
        lemma_reads(one, tokens, pos, 0);
        assert(exprs.take(from + 1) =~= exprs);
    } else {
        assert(parts.drop_first() =~= forms_of(exprs).skip(from + 1));
        let rest = separated(parts.drop_first(), comma);
        assert(list == one.tokens() + seq![comma] + rest);
        lemma_split(tokens, pos, one.tokens() + seq![comma], rest);
        lemma_split(tokens, pos, one.tokens(), seq![comma]);
        let after = pos + one.tokens().len();
        assert(tokens[after] == seq![comma][0]);
        lemma_reads(one, tokens, pos, 0);
        lemma_arguments(exprs, from + 1, tokens, after + 1);
    }
}

} // verus!

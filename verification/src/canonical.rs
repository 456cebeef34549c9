//! The canonical form of a syntax tree: the token sequence that stands for
//! it, and the trees that have one.
//!
//! A tree is canonical if it is built the way the parser builds trees: an
//! operand binds at least as tightly as its place asks, the left operand of
//! an infix operator as tightly as the operator and the right one tighter; a
//! name is an identifier; the branch before an `else` does not end in an
//! `if` that could take the `else` for its own. Parsing the canonical form of
//! a canonical tree gives the tree back.

use vstd::prelude::*;
use crate::expr::SpecExpr;
use crate::grammar::Level;
use crate::literal::SpecLiteral;
use crate::stmt::SpecStmt;
use crate::token::{Kind, SpecToken};

pub mod parsed;
pub mod write;

verus! {

/// How tightly the levels of the grammar bind, from assignment (0) to a
/// primary expression (9).
pub open spec fn tightness(level: Level) -> int {
    match level {
        Level::Or => 1,
        Level::And => 2,
        Level::Equality => 3,
        Level::Comparison => 4,
        Level::Term => 5,
        Level::Factor => 6,
    }
}

/// How tightly the infix operator of this kind binds; 0 for a token that is
/// none.
pub open spec fn operator_tightness(kind: Kind) -> int {
    if Level::Or.has(kind) {
        1
    } else if Level::And.has(kind) {
        2
    } else if Level::Equality.has(kind) {
        3
    } else if Level::Comparison.has(kind) {
        4
    } else if Level::Term.has(kind) {
        5
    } else if Level::Factor.has(kind) {
        6
    } else {
        0
    }
}

/// How tightly the outermost node of an expression binds.
pub open spec fn binding(expr: SpecExpr) -> int {
    match expr {
        SpecExpr::Assign(_, _) => 0,
        SpecExpr::Logical(_, operator, _) => operator_tightness(operator.kind),
        SpecExpr::Binary(_, operator, _) => operator_tightness(operator.kind),
        SpecExpr::Unary(_, _) => 7,
        SpecExpr::Call(_, _, _) => 8,
        _ => 9,
    }
}

/// Whether every expression of a sequence is canonical.
pub open spec fn exprs_canonical(exprs: Seq<SpecExpr>) -> bool
    decreases exprs,
{
    forall|i: int| 0 <= i < exprs.len() ==> (#[trigger] exprs[i]).canonical()
}

impl SpecExpr {
    /// The expression is built as the parser builds expressions.
    pub open spec fn canonical(self) -> bool
        decreases self,
    {
        match self {
            SpecExpr::Assign(name, value) => name.kind is Identifier && value.canonical(),
            SpecExpr::Logical(left, operator, right) => {
                &&& 1 <= operator_tightness(operator.kind) <= 2
                &&& left.canonical()
                &&& right.canonical()
                &&& binding(*left) >= operator_tightness(operator.kind)
                &&& binding(*right) > operator_tightness(operator.kind)
            },
            SpecExpr::Binary(left, operator, right) => {
                &&& 3 <= operator_tightness(operator.kind) <= 6
                &&& left.canonical()
                &&& right.canonical()
                &&& binding(*left) >= operator_tightness(operator.kind)
                &&& binding(*right) > operator_tightness(operator.kind)
            },
            SpecExpr::Unary(operator, operand) => {
                &&& operator.kind.is_unary_operator()
                &&& operand.canonical()
                &&& binding(*operand) >= 7
            },
            SpecExpr::Call(callee, paren, arguments) => {
                &&& callee.canonical()
                &&& binding(*callee) >= 8
                &&& paren.kind is RightParen
                &&& arguments.len() < 255
                &&& exprs_canonical(arguments)
            },
            SpecExpr::Grouping(inner) => inner.canonical(),
            SpecExpr::Literal(value) => !(value is Function),
            SpecExpr::Var(name) => name.kind is Identifier,
        }
    }
}

/// Whether a statement ends in an `if` without `else`, so that an `else`
/// after it would be read as its own.
pub open spec fn takes_else(statement: SpecStmt) -> bool
    decreases statement,
{
    match statement {
        SpecStmt::If(_, first, second) => match second {
            Some(other) => takes_else(*other),
            None => true,
        },
        SpecStmt::While(_, body) => takes_else(*body),
        _ => false,
    }
}

/// Whether every statement of a sequence is canonical.
pub open spec fn stmts_canonical(stmts: Seq<SpecStmt>) -> bool
    decreases stmts,
{
    forall|i: int| 0 <= i < stmts.len() ==> (#[trigger] stmts[i]).canonical()
}

/// Whether every token of a sequence is an identifier.
pub open spec fn all_identifiers(tokens: Seq<SpecToken>) -> bool {
    forall|i: int| 0 <= i < tokens.len() ==> (#[trigger] tokens[i]).kind is Identifier
}

impl SpecStmt {
    /// Whether the statement is a declaration of a variable or a function,
    /// which can stand in a block or a program but not as a branch or a body.
    pub open spec fn is_declaration(self) -> bool {
        self is Var || self is Function
    }

    /// The statement is built as the parser builds statements.
    pub open spec fn canonical(self) -> bool
        decreases self,
    {
        match self {
            SpecStmt::Print(value) => value.canonical(),
            SpecStmt::Expression(value) => value.canonical(),
            SpecStmt::Var(name, initializer) => name.kind is Identifier && match initializer {
                Some(value) => value.canonical(),
                None => true,
            },
            SpecStmt::Block(statements) => stmts_canonical(statements),
            SpecStmt::If(test, first, second) => {
                &&& test.canonical()
                &&& first.canonical()
                &&& !first.is_declaration()
                &&& match second {
                    Some(other) => other.canonical() && !other.is_declaration() && !takes_else(
                        *first,
                    ),
                    None => true,
                }
            },
            SpecStmt::While(test, body) => test.canonical() && body.canonical()
                && !body.is_declaration(),
            SpecStmt::Function(name, params, body) => {
                &&& name.kind is Identifier
                &&& all_identifiers(params)
                &&& params.len() <= 255
                &&& stmts_canonical(body)
            },
            SpecStmt::Return(keyword, value) => keyword.kind is Return && match value {
                Some(found) => found.canonical(),
                None => true,
            },
        }
    }
}

/// A token of the punctuation or keyword of this kind, with its text.
pub open spec fn mark(kind: Kind, lexeme: Seq<char>) -> SpecToken {
    SpecToken { kind, lexeme, line: 1 }
}

/// The token that a literal is read from. The text of a number is left to
/// the host and stands empty here.
pub open spec fn literal_token(value: SpecLiteral) -> SpecToken {
    match value {
        SpecLiteral::Boolean(flag) => if flag {
            mark(Kind::True, "true"@)
        } else {
            mark(Kind::False, "false"@)
        },
        SpecLiteral::Number(bits) => mark(Kind::Number(bits), Seq::empty()),
        SpecLiteral::String(text) => mark(Kind::String(text), "\""@ + text + "\""@),
        _ => mark(Kind::Nil, "nil"@),
    }
}

/// Token sequences joined with a separator between each two.
pub open spec fn separated(parts: Seq<Seq<SpecToken>>, separator: SpecToken) -> Seq<SpecToken>
    decreases parts.len(),
{
    if parts.len() == 0 {
        Seq::empty()
    } else if parts.len() == 1 {
        parts[0]
    } else {
        parts[0] + seq![separator] + separated(parts.drop_first(), separator)
    }
}

/// Token sequences joined one after the other.
pub open spec fn flat(parts: Seq<Seq<SpecToken>>) -> Seq<SpecToken>
    decreases parts.len(),
{
    if parts.len() == 0 {
        Seq::empty()
    } else {
        parts[0] + flat(parts.drop_first())
    }
}

/// The canonical forms of expressions, one sequence for each.
pub open spec fn forms_of(exprs: Seq<SpecExpr>) -> Seq<Seq<SpecToken>>
    decreases exprs,
{
    Seq::new(
        exprs.len(),
        |i: int|
            if 0 <= i < exprs.len() {
                exprs[i].tokens()
            } else {
                Seq::empty()
            },
    )
}

impl SpecExpr {
    /// The canonical form of the expression: the tokens of its source text,
    /// with no parentheses but those of its groupings and calls.
    pub open spec fn tokens(self) -> Seq<SpecToken>
        decreases self,
    {
        match self {
            SpecExpr::Assign(name, value) => seq![name, mark(Kind::Equal, "="@)] + value.tokens(),
            SpecExpr::Logical(left, operator, right) => left.tokens() + seq![operator]
                + right.tokens(),
            SpecExpr::Binary(left, operator, right) => left.tokens() + seq![operator]
                + right.tokens(),
            SpecExpr::Unary(operator, operand) => seq![operator] + operand.tokens(),
            SpecExpr::Call(callee, paren, arguments) => callee.tokens() + seq![
                mark(Kind::LeftParen, "("@),
            ] + separated(forms_of(arguments), mark(Kind::Comma, ","@)) + seq![paren],
            SpecExpr::Grouping(inner) => seq![mark(Kind::LeftParen, "("@)] + inner.tokens() + seq![
                mark(Kind::RightParen, ")"@),
            ],
            SpecExpr::Literal(value) => seq![literal_token(value)],
            SpecExpr::Var(name) => seq![name],
        }
    }
}

/// The tokens of `form` stand in `tokens` from `pos` on, and a token follows
/// them.
pub open spec fn stands_at(tokens: Seq<SpecToken>, pos: int, form: Seq<SpecToken>) -> bool {
    &&& 0 <= pos
    &&& pos + form.len() < tokens.len()
    &&& forall|i: int| 0 <= i < form.len() ==> tokens[pos + i] == #[trigger] form[i]
}

/// Where two sequences stand one after the other, each of them stands.
pub proof fn lemma_split(
    tokens: Seq<SpecToken>,
    pos: int,
    first: Seq<SpecToken>,
    second: Seq<SpecToken>,
)
    requires
        stands_at(tokens, pos, first + second),
    ensures
        stands_at(tokens, pos, first),
        stands_at(tokens, pos + first.len(), second),
{
    let both = first + second;
    assert forall|i: int| 0 <= i < first.len() implies tokens[pos + i] == #[trigger] first[i] by {
        assert(both[i] == first[i]);
    }
    assert forall|i: int| 0 <= i < second.len() implies tokens[pos + first.len() + i]
        == #[trigger] second[i] by {
        assert(both[first.len() + i] == second[i]);
    }
}

/// Whether a token of this kind can begin a primary expression.
pub open spec fn begins_primary(kind: Kind) -> bool {
    kind is False || kind is True || kind is Nil || kind is Number || kind is String
        || kind is LeftParen || kind is Identifier
}

/// Whether a token of this kind can begin an expression.
pub open spec fn begins_expression(kind: Kind) -> bool {
    begins_primary(kind) || kind is Bang || kind is Minus
}

/// The canonical form of a canonical expression is not empty and begins
/// with a token that can begin an expression; a call or a primary expression
/// begins with one that can begin a primary expression.
pub proof fn lemma_first_token(expr: SpecExpr)
    requires
        expr.canonical(),
    ensures
        expr.tokens().len() >= 1,
        begins_expression(expr.tokens()[0].kind),
        binding(expr) >= 8 ==> begins_primary(expr.tokens()[0].kind),
    decreases expr,
{
    match expr {
        SpecExpr::Logical(left, _, _) => {
            lemma_first_token(*left);
        },
        SpecExpr::Binary(left, _, _) => {
            lemma_first_token(*left);
        },
        SpecExpr::Call(callee, _, _) => {
            lemma_first_token(*callee);
        },
        _ => {},
    }
}

/// Whether the token after an expression lets the parser stop there, when
/// it reads the expression at a place that asks for a binding of at least
/// `least`: the token is no opening parenthesis, no infix operator that
/// binds as tightly as `least` or tighter, and after an assignment no `=`.
pub open spec fn ends_expression(least: int, kind: Kind) -> bool {
    &&& least <= 8 ==> !(kind is LeftParen)
    &&& least <= 6 ==> operator_tightness(kind) == 0 || operator_tightness(kind) < least
    &&& least <= 0 ==> !(kind is Equal)
}

/// The canonical forms of statements, one sequence for each.
pub open spec fn stmt_forms(stmts: Seq<SpecStmt>) -> Seq<Seq<SpecToken>>
    decreases stmts,
{
    Seq::new(
        stmts.len(),
        |i: int|
            if 0 <= i < stmts.len() {
                stmts[i].tokens()
            } else {
                Seq::empty()
            },
    )
}

/// Each token as a sequence of its own.
pub open spec fn singles(tokens: Seq<SpecToken>) -> Seq<Seq<SpecToken>> {
    Seq::new(tokens.len(), |i: int| seq![tokens[i]])
}

impl SpecStmt {
    /// The canonical form of the statement: the tokens of its source text.
    /// A loop is written as `while`.
    pub open spec fn tokens(self) -> Seq<SpecToken>
        decreases self,
    {
        let semicolon = seq![mark(Kind::Semicolon, ";"@)];
        let open = seq![mark(Kind::LeftParen, "("@)];
        let close = seq![mark(Kind::RightParen, ")"@)];
        match self {
            SpecStmt::Print(value) => seq![mark(Kind::Print, "print"@)] + value.tokens()
                + semicolon,
            SpecStmt::Expression(value) => value.tokens() + semicolon,
            SpecStmt::Var(name, initializer) => match initializer {
                Some(value) => seq![mark(Kind::Var, "var"@), name, mark(Kind::Equal, "="@)]
                    + value.tokens() + semicolon,
                None => seq![mark(Kind::Var, "var"@), name] + semicolon,
            },
            SpecStmt::Block(statements) => seq![mark(Kind::LeftBrace, "{"@)] + flat(
                stmt_forms(statements),
            ) + seq![mark(Kind::RightBrace, "}"@)],
            SpecStmt::If(test, first, second) => match second {
                Some(other) => seq![mark(Kind::If, "if"@)] + open + test.tokens() + close
                    + first.tokens() + seq![mark(Kind::Else, "else"@)] + other.tokens(),
                None => seq![mark(Kind::If, "if"@)] + open + test.tokens() + close
                    + first.tokens(),
            },
            SpecStmt::While(test, body) => seq![mark(Kind::While, "while"@)] + open
                + test.tokens() + close + body.tokens(),
            SpecStmt::Function(name, params, body) => seq![mark(Kind::Fun, "fun"@), name] + open
                + separated(singles(params), mark(Kind::Comma, ","@)) + close + seq![
                mark(Kind::LeftBrace, "{"@),
            ] + flat(stmt_forms(body)) + seq![mark(Kind::RightBrace, "}"@)],
            SpecStmt::Return(keyword, value) => match value {
                Some(found) => seq![keyword] + found.tokens() + semicolon,
                None => seq![keyword] + semicolon,
            },
        }
    }
}

/// The canonical form of a program: its statements one after the other,
/// and the end marker.
pub open spec fn program_tokens(program: Seq<SpecStmt>) -> Seq<SpecToken> {
    flat(stmt_forms(program)) + seq![mark(Kind::EOF, Seq::empty())]
}

/// Whether a token of this kind can begin a statement or a declaration in
/// canonical form.
pub open spec fn begins_declaration(kind: Kind) -> bool {
    begins_expression(kind) || kind is Print || kind is Var || kind is LeftBrace || kind is If
        || kind is While || kind is Fun || kind is Return
}

/// The canonical form of a canonical statement is not empty, and its first
/// token tells what kind of statement it is.
pub proof fn lemma_first_of_statement(statement: SpecStmt)
    requires
        statement.canonical(),
    ensures
        statement.tokens().len() >= 1,
        begins_declaration(statement.tokens()[0].kind),
        match statement {
            SpecStmt::Print(_) => statement.tokens()[0].kind is Print,
            SpecStmt::Expression(_) => begins_expression(statement.tokens()[0].kind),
            SpecStmt::Var(_, _) => statement.tokens()[0].kind is Var,
            SpecStmt::Block(_) => statement.tokens()[0].kind is LeftBrace,
            SpecStmt::If(_, _, _) => statement.tokens()[0].kind is If,
            SpecStmt::While(_, _) => statement.tokens()[0].kind is While,
            SpecStmt::Function(_, _, _) => statement.tokens()[0].kind is Fun,
            SpecStmt::Return(_, _) => statement.tokens()[0].kind is Return,
        },
{
    match statement {
        SpecStmt::Expression(value) => {
            lemma_first_token(value);
            assert(statement.tokens()[0] == value.tokens()[0]);
        },
        SpecStmt::Var(_, initializer) => {
            match initializer {
                Some(_) => {},
                None => {},
            }
        },
        SpecStmt::If(_, _, second) => {
            match second {
                Some(_) => {},
                None => {},
            }
        },
        SpecStmt::Return(_, value) => {
            match value {
                Some(_) => {},
                None => {},
            }
        },
        _ => {},
    }
}

} // verus!

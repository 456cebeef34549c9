//! Writing a syntax tree out in canonical form.

use vstd::prelude::*;
use crate::canonical::{
    flat,
    forms_of,
    literal_token,
    mark,
    program_tokens,
    separated,
    singles,
    stmt_forms,
};
use crate::expr::{Expr, SpecExpr, exprs_model};
use crate::literal::{Literal, SpecLiteral};
use crate::stmt::{SpecStmt, Stmt, stmts_model};
use crate::token::{Kind, SpecToken, Token, TokenType, tokens_model};

verus! {

/// Joining with a separator, seen from the end: one more part adds the
/// separator and the part.
proof fn lemma_separated_push(
    parts: Seq<Seq<SpecToken>>,
    last: Seq<SpecToken>,
    separator: SpecToken,
)
    ensures
        separated(parts.push(last), separator) == if parts.len() == 0 {
            last
        } else {
            separated(parts, separator) + seq![separator] + last
        },
    decreases parts.len(),
{
    let all = parts.push(last);
    if parts.len() == 0 {
        assert(all[0] == last);
    } else {
        assert(all[0] == parts[0]);
        assert(all.drop_first() =~= parts.drop_first().push(last));
        lemma_separated_push(parts.drop_first(), last, separator);
        if parts.len() == 1 {
            assert(parts.drop_first().len() == 0);
            assert(separated(all, separator) =~= separated(parts, separator) + seq![separator]
                + last);
        } else {
            assert(separated(all, separator) =~= separated(parts, separator) + seq![separator]
                + last);
        }
    }
}

/// Joining, seen from the end: one more part adds the part.
proof fn lemma_flat_push(parts: Seq<Seq<SpecToken>>, last: Seq<SpecToken>)
    ensures
        flat(parts.push(last)) == flat(parts) + last,
    decreases parts.len(),
{
    let all = parts.push(last);
    if parts.len() == 0 {
        assert(all[0] == last);
        assert(all.drop_first() =~= Seq::<Seq<SpecToken>>::empty());
        assert(flat(all.drop_first()) =~= Seq::<SpecToken>::empty());
        assert(flat(parts) =~= Seq::<SpecToken>::empty());
        assert(flat(all) =~= flat(parts) + last);
    } else {
        assert(all[0] == parts[0]);
        assert(all.drop_first() =~= parts.drop_first().push(last));
        lemma_flat_push(parts.drop_first(), last);
        assert(flat(all) =~= flat(parts) + last);
    }
}

/// Appends a token.
fn put(out: &mut Vec<Token>, token: Token)
    ensures
        tokens_model(*final(out)) == tokens_model(*old(out)) + seq![token@],
{
    out.push(token);
    assert(tokens_model(*out) =~= tokens_model(*old(out)) + seq![token@]);
}

/// Appends a token of punctuation or a keyword.
fn put_mark(out: &mut Vec<Token>, token_type: TokenType, lexeme: &str)
    ensures
        tokens_model(*final(out)) == tokens_model(*old(out)) + seq![mark(token_type@, lexeme@)],
{
    put(out, Token::new(token_type, String::from_str(lexeme), 1));
}

/// The token that a literal is read from.
fn token_of(value: &Literal) -> (r: Token)
    ensures
        r@ == literal_token(value@),
{
    match value {
        Literal::Boolean(flag) => {
            if *flag {
                Token::new(TokenType::True, String::from_str("true"), 1)
            } else {
                Token::new(TokenType::False, String::from_str("false"), 1)
            }
        },
        Literal::Number(bits) => Token::new(TokenType::Number(*bits), String::new(), 1),
        Literal::String(text) => {
            let mut lexeme = String::from_str("\"");
            lexeme.append(text.as_str());
            lexeme.append("\"");
            Token::new(TokenType::String(text.clone()), lexeme, 1)
        },
        _ => Token::new(TokenType::Nil, String::from_str("nil"), 1),
    }
}

/// Appends the canonical forms of expressions, with commas between them.
fn write_exprs(exprs: &Vec<Expr>, out: &mut Vec<Token>)
    ensures
        tokens_model(*final(out)) == tokens_model(*old(out)) + separated(
            forms_of(exprs_model(*exprs)),
            mark(Kind::Comma, ","@),
        ),
    decreases exprs,
{
    let ghost before = tokens_model(*out);
    let ghost parts = forms_of(exprs_model(*exprs));
    let ghost comma = mark(Kind::Comma, ","@);
    let mut i: usize = 0;
    assert(parts.take(0) =~= Seq::<Seq<SpecToken>>::empty());
    while i < exprs.len()
        invariant
            i <= exprs.len(),
            parts == forms_of(exprs_model(*exprs)),
            comma == mark(Kind::Comma, ","@),
            tokens_model(*out) == before + separated(parts.take(i as int), comma),
        decreases exprs.len() - i,
    {
        if i > 0 {
            put_mark(out, TokenType::Comma, ",");
        }
        exprs[i].write_tokens(out);
        proof {
            let done = parts.take(i as int);
            assert(parts[i as int] == exprs[i as int]@.tokens());
            assert(parts.take(i + 1) =~= done.push(parts[i as int]));
            lemma_separated_push(done, parts[i as int], comma);
            assert(tokens_model(*out) =~= before + separated(parts.take(i + 1), comma));
        }
        i += 1;
    }
    assert(parts.take(exprs.len() as int) =~= parts);
}

impl Expr {
    /// Appends the canonical form of the expression.
    pub fn write_tokens(&self, out: &mut Vec<Token>)
        ensures
            tokens_model(*final(out)) == tokens_model(*old(out)) + self@.tokens(),
        decreases self,
    {
        let ghost before = tokens_model(*out);
        match self {
            Expr::Assign(name, value) => {
                put(out, name.clone());
                put_mark(out, TokenType::Equal, "=");
                value.write_tokens(out);
            },
            Expr::Logical(left, operator, right) => {
                left.write_tokens(out);
                put(out, operator.clone());
                right.write_tokens(out);
            },
            Expr::Binary(left, operator, right) => {
                left.write_tokens(out);
                put(out, operator.clone());
                right.write_tokens(out);
            },
            Expr::Unary(operator, operand) => {
                put(out, operator.clone());
                operand.write_tokens(out);
            },
            Expr::Call(callee, paren, arguments) => {
                callee.write_tokens(out);
                put_mark(out, TokenType::LeftParen, "(");
                write_exprs(arguments, out);
                put(out, paren.clone());
            },
            Expr::Grouping(inner) => {
                put_mark(out, TokenType::LeftParen, "(");
                inner.write_tokens(out);
                put_mark(out, TokenType::RightParen, ")");
            },
            Expr::Literal(value) => {
                put(out, token_of(value));
            },
            Expr::Var(name) => {
                put(out, name.clone());
            },
        }
        assert(tokens_model(*out) =~= before + self@.tokens());
    }
}

/// Appends the canonical forms of statements, one after the other.
fn write_stmts(stmts: &Vec<Stmt>, out: &mut Vec<Token>)
    ensures
        tokens_model(*final(out)) == tokens_model(*old(out)) + flat(
            stmt_forms(stmts_model(*stmts)),
        ),
    decreases stmts,
{
    let ghost before = tokens_model(*out);
    let ghost parts = stmt_forms(stmts_model(*stmts));
    let mut i: usize = 0;
    assert(parts.take(0) =~= Seq::<Seq<SpecToken>>::empty());
    while i < stmts.len()
        invariant
            i <= stmts.len(),
            parts == stmt_forms(stmts_model(*stmts)),
            tokens_model(*out) == before + flat(parts.take(i as int)),
        decreases stmts.len() - i,
    {
        stmts[i].write_tokens(out);
        proof {
            let done = parts.take(i as int);
            assert(parts[i as int] == stmts[i as int]@.tokens());
            assert(parts.take(i + 1) =~= done.push(parts[i as int]));
            lemma_flat_push(done, parts[i as int]);
            assert(tokens_model(*out) =~= before + flat(parts.take(i + 1)));
        }
        i += 1;
    }
    assert(parts.take(stmts.len() as int) =~= parts);
}

/// Appends tokens with commas between them.
fn write_names(names: &Vec<Token>, out: &mut Vec<Token>)
    ensures
        tokens_model(*final(out)) == tokens_model(*old(out)) + separated(
            singles(tokens_model(*names)),
            mark(Kind::Comma, ","@),
        ),
{
    let ghost before = tokens_model(*out);
    let ghost parts = singles(tokens_model(*names));
    let ghost comma = mark(Kind::Comma, ","@);
    let mut i: usize = 0;
    assert(parts.take(0) =~= Seq::<Seq<SpecToken>>::empty());
    while i < names.len()
        invariant
            i <= names.len(),
            parts == singles(tokens_model(*names)),
            comma == mark(Kind::Comma, ","@),
            tokens_model(*out) == before + separated(parts.take(i as int), comma),
        decreases names.len() - i,
    {
        if i > 0 {
            put_mark(out, TokenType::Comma, ",");
        }
        put(out, names[i].clone());
        proof {
            let done = parts.take(i as int);
            assert(parts[i as int] == seq![names[i as int]@]);
            assert(parts.take(i + 1) =~= done.push(parts[i as int]));
            lemma_separated_push(done, parts[i as int], comma);
            assert(tokens_model(*out) =~= before + separated(parts.take(i + 1), comma));
        }
        i += 1;
    }
    assert(parts.take(names.len() as int) =~= parts);
}

impl Stmt {
    /// Appends the canonical form of the statement.
    pub fn write_tokens(&self, out: &mut Vec<Token>)
        ensures
            tokens_model(*final(out)) == tokens_model(*old(out)) + self@.tokens(),
        decreases self,
    {
        let ghost before = tokens_model(*out);
        match self {
            Stmt::Print(value) => {
                put_mark(out, TokenType::Print, "print");
                value.write_tokens(out);
                put_mark(out, TokenType::Semicolon, ";");
            },
            Stmt::Expression(value) => {
                value.write_tokens(out);
                put_mark(out, TokenType::Semicolon, ";");
            },
            Stmt::Var(name, initializer) => {
                put_mark(out, TokenType::Var, "var");
                put(out, name.clone());
                match initializer {
                    Some(value) => {
                        put_mark(out, TokenType::Equal, "=");
                        value.write_tokens(out);
                    },
                    None => {},
                }
                put_mark(out, TokenType::Semicolon, ";");
            },
            Stmt::Block(statements) => {
                put_mark(out, TokenType::LeftBrace, "{");
                write_stmts(statements, out);
                put_mark(out, TokenType::RightBrace, "}");
            },
            Stmt::If(test, first, second) => {
                put_mark(out, TokenType::If, "if");
                put_mark(out, TokenType::LeftParen, "(");
                test.write_tokens(out);
                put_mark(out, TokenType::RightParen, ")");
                first.write_tokens(out);
                match second {
                    Some(other) => {
                        put_mark(out, TokenType::Else, "else");
                        other.write_tokens(out);
                    },
                    None => {},
                }
            },
            Stmt::While(test, body) => {
                put_mark(out, TokenType::While, "while");
                put_mark(out, TokenType::LeftParen, "(");
                test.write_tokens(out);
                put_mark(out, TokenType::RightParen, ")");
                body.write_tokens(out);
            },
            Stmt::Function(name, params, body) => {
                put_mark(out, TokenType::Fun, "fun");
                put(out, name.clone());
                put_mark(out, TokenType::LeftParen, "(");
                write_names(params, out);
                put_mark(out, TokenType::RightParen, ")");
                put_mark(out, TokenType::LeftBrace, "{");
                write_stmts(body, out);
                put_mark(out, TokenType::RightBrace, "}");
            },
            Stmt::Return(keyword, value) => {
                put(out, keyword.clone());
                match value {
                    Some(found) => {
                        found.write_tokens(out);
                    },
                    None => {},
                }
                put_mark(out, TokenType::Semicolon, ";");
            },
        }
        assert(tokens_model(*out) =~= before + self@.tokens());
    }
}

/// The canonical form of a program: a token stream that a parser reads the
/// program from, if the program is canonical and not empty.
pub fn write_program(program: &Vec<Stmt>) -> (r: Vec<Token>)
    ensures
        tokens_model(r) == program_tokens(stmts_model(*program)),
        crate::token::is_stream(tokens_model(r)),
{
    let mut out: Vec<Token> = Vec::new();
    assert(tokens_model(out) =~= Seq::empty());
    write_stmts(program, &mut out);
    put_mark(&mut out, TokenType::EOF, "");
    proof {
        reveal_strlit("");
        assert(""@ =~= Seq::<char>::empty());
        assert(tokens_model(out) =~= program_tokens(stmts_model(*program)));
    }
    out
}

} // verus!

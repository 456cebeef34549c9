//! Text for diagnostics: values and syntax trees as pieces of text.
//!
//! A rendering is a sequence of pieces. A piece is text, or a number that
//! the host is to format as a double in its place; joined in order the
//! pieces make the line.

use vstd::prelude::*;
use crate::expr::{Expr, SpecExpr, exprs_model};
use crate::literal::{Literal, SpecLiteral};
use crate::stmt::{SpecStmt, Stmt, stmts_model};
use crate::token::{SpecToken, Token, tokens_model};

verus! {

/// One piece of a rendering.
#[derive(Debug)]
pub enum Piece {
    Text(String),
    Number(u64),
}

/// Model of a [`Piece`].
pub enum SpecPiece {
    Text(Seq<char>),
    Number(u64),
}

impl View for Piece {
    type V = SpecPiece;

    open spec fn view(&self) -> SpecPiece {
        match self {
            Piece::Text(text) => SpecPiece::Text(text@),
            Piece::Number(bits) => SpecPiece::Number(*bits),
        }
    }
}

/// The models of a vector of pieces, in order.
pub open spec fn pieces_model(pieces: Vec<Piece>) -> Seq<SpecPiece> {
    Seq::new(pieces@.len(), |i: int| pieces[i]@)
}

/// The text that the standard library's debug formatting makes of a string:
/// the string in double quotes, with the characters escaped that need it.
pub uninterp spec fn debug_text(text: Seq<char>) -> Seq<char>;

/// `<str as core::fmt::Debug>::fmt`, through `format!`: the string in double
/// quotes, escaped as the standard library escapes it.
#[verifier::external_body]
fn debug_string(text: &str) -> (r: String)
    ensures
        r@ == debug_text(text@),
{
    format!("{:?}", text)
}

/// A string as it stands between the quotes of its debug text.
pub open spec fn escaped(text: Seq<char>) -> Seq<char> {
    let quoted = debug_text(text);
    if quoted.len() >= 2 {
        quoted.subrange(1, quoted.len() - 1)
    } else {
        quoted
    }
}

/// A piece as it stands inside a quoted string: text escaped, a number as it
/// is.
pub open spec fn escaped_piece(piece: SpecPiece) -> SpecPiece {
    match piece {
        SpecPiece::Text(text) => SpecPiece::Text(escaped(text)),
        SpecPiece::Number(bits) => SpecPiece::Number(bits),
    }
}

/// Pieces as one quoted string.
pub open spec fn quoted(pieces: Seq<SpecPiece>) -> Seq<SpecPiece> {
    seq![SpecPiece::Text("\""@)] + pieces.map_values(|piece: SpecPiece| escaped_piece(piece))
        + seq![SpecPiece::Text("\""@)]
}

/// The one piece of text.
pub open spec fn text(content: Seq<char>) -> Seq<SpecPiece> {
    seq![SpecPiece::Text(content)]
}

impl SpecLiteral {
    /// A value as a program prints it: a string bare, `true`, `false`, `nil`,
    /// and a function as a placeholder.
    pub open spec fn display(self) -> SpecPiece {
        match self {
            SpecLiteral::String(content) => SpecPiece::Text(content),
            SpecLiteral::Number(bits) => SpecPiece::Number(bits),
            SpecLiteral::Boolean(value) => SpecPiece::Text(
                if value {
                    "true"@
                } else {
                    "false"@
                },
            ),
            SpecLiteral::Nil => SpecPiece::Text("nil"@),
            SpecLiteral::Function(_) => SpecPiece::Text("<native fn>"@),
        }
    }

    /// A value for diagnostics: as it is printed, but a string in quotes.
    pub open spec fn debug(self) -> Seq<SpecPiece> {
        match self {
            SpecLiteral::String(content) => text("\""@) + text(content) + text("\""@),
            _ => seq![self.display()],
        }
    }
}

/// The renderings of expressions, with a space between each two.
pub open spec fn spaced_exprs(exprs: Seq<SpecExpr>) -> Seq<SpecPiece>
    decreases exprs,
{
    if exprs.len() == 0 {
        Seq::empty()
    } else if exprs.len() == 1 {
        exprs[0].rendering()
    } else {
        spaced_exprs(exprs.drop_last()) + text(" "@) + exprs[exprs.len() - 1].rendering()
    }
}

impl SpecExpr {
    /// An expression in prefix form: `(+ 1 2)` for `1 + 2`.
    pub open spec fn rendering(self) -> Seq<SpecPiece>
        decreases self,
    {
        match self {
            SpecExpr::Binary(left, operator, right) => text("("@) + text(operator.lexeme) + text(
                " "@,
            ) + left.rendering() + text(" "@) + right.rendering() + text(")"@),
            SpecExpr::Grouping(inner) => text("(group "@) + inner.rendering() + text(")"@),
            SpecExpr::Literal(value) => seq![value.display()],
            SpecExpr::Unary(operator, operand) => text("("@) + text(operator.lexeme) + text(" "@)
                + operand.rendering() + text(")"@),
            SpecExpr::Var(name) => text("(var "@) + text(name.lexeme) + text(")"@),
            SpecExpr::Assign(name, value) => text("(assign "@) + text(name.lexeme) + text(" "@)
                + value.rendering() + text(")"@),
            SpecExpr::Logical(left, operator, right) => text("("@) + text(operator.lexeme) + text(
                " "@,
            ) + left.rendering() + text(" "@) + right.rendering() + text(")"@),
            SpecExpr::Call(callee, _, arguments) => text("("@) + callee.rendering() + text(" "@)
                + quoted(spaced_exprs(arguments)) + text(")"@),
        }
    }
}

/// The renderings of statements, with a space between each two.
pub open spec fn spaced_stmts(stmts: Seq<SpecStmt>) -> Seq<SpecPiece>
    decreases stmts,
{
    if stmts.len() == 0 {
        Seq::empty()
    } else if stmts.len() == 1 {
        stmts[0].rendering()
    } else {
        spaced_stmts(stmts.drop_last()) + text(" "@) + stmts[stmts.len() - 1].rendering()
    }
}

/// The names of tokens, with a space between each two.
pub open spec fn spaced_names(tokens: Seq<SpecToken>) -> Seq<SpecPiece>
    decreases tokens.len(),
{
    if tokens.len() == 0 {
        Seq::empty()
    } else if tokens.len() == 1 {
        text(tokens[0].lexeme)
    } else {
        spaced_names(tokens.drop_last()) + text(" "@) + text(tokens[tokens.len() - 1].lexeme)
    }
}

impl SpecStmt {
    /// A statement in prefix form.
    pub open spec fn rendering(self) -> Seq<SpecPiece>
        decreases self,
    {
        match self {
            SpecStmt::Print(value) => text("(print "@) + value.rendering() + text(")"@),
            SpecStmt::Expression(value) => text("("@) + value.rendering() + text(")"@),
            SpecStmt::Var(name, initializer) => match initializer {
                Some(value) => text("(defvar "@) + text(name.lexeme) + text(" "@)
                    + value.rendering() + text(")"@),
                None => text("(defvar "@) + text(name.lexeme) + text(" nil)"@),
            },
            SpecStmt::Block(statements) => text("(block "@) + spaced_stmts(statements) + text(
                ")"@,
            ),
            SpecStmt::If(test, first, second) => match second {
                Some(other) => text("(if "@) + test.rendering() + text(" "@) + first.rendering()
                    + text(" "@) + other.rendering() + text(")"@),
                None => text("(if "@) + test.rendering() + text(" "@) + first.rendering() + text(
                    ")"@,
                ),
            },
            SpecStmt::While(test, body) => text("(while "@) + test.rendering() + text(" "@)
                + body.rendering() + text(")"@),
            SpecStmt::Function(name, params, body) => text("(fun "@) + text(name.lexeme) + text(
                " ("@,
            ) + spaced_names(params) + text(") "@) + spaced_stmts(body) + text(")"@),
            SpecStmt::Return(_, value) => match value {
                Some(found) => text("(return "@) + found.rendering() + text(")"@),
                None => text("(return)"@),
            },
        }
    }
}

/// Appends a piece of text.
fn put(out: &mut Vec<Piece>, content: &str)
    ensures
        pieces_model(*final(out)) == pieces_model(*old(out)) + text(content@),
{
    let piece = Piece::Text(String::from_str(content));
    out.push(piece);
    assert(pieces_model(*out) =~= pieces_model(*old(out)) + text(content@));
}

/// Appends one piece.
fn put_piece(out: &mut Vec<Piece>, piece: Piece)
    ensures
        pieces_model(*final(out)) == pieces_model(*old(out)) + seq![piece@],
{
    out.push(piece);
    assert(pieces_model(*out) =~= pieces_model(*old(out)) + seq![piece@]);
}

/// A string as it stands between the quotes of its debug text.
fn escape(content: &str) -> (r: String)
    ensures
        r@ == escaped(content@),
{
    let quoted = debug_string(content);
    let count = quoted.as_str().unicode_len();
    if count >= 2 {
        String::from_str(quoted.as_str().substring_char(1, count - 1))
    } else {
        quoted
    }
}

/// Appends pieces as one quoted string.
fn put_quoted(out: &mut Vec<Piece>, pieces: &Vec<Piece>)
    ensures
        pieces_model(*final(out)) == pieces_model(*old(out)) + quoted(pieces_model(*pieces)),
{
    let ghost before = pieces_model(*out);
    let ghost inner = pieces_model(*pieces);
    put(out, "\"");
    let mut i: usize = 0;
    while i < pieces.len()
        invariant
            i <= pieces.len(),
            inner == pieces_model(*pieces),
            pieces_model(*out) == before + text("\""@) + inner.take(i as int).map_values(
                |piece: SpecPiece| escaped_piece(piece),
            ),
        decreases pieces.len() - i,
    {
        let piece = match &pieces[i] {
            Piece::Text(content) => Piece::Text(escape(content.as_str())),
            Piece::Number(bits) => Piece::Number(*bits),
        };
        assert(piece@ == escaped_piece(inner[i as int]));
        put_piece(out, piece);
        assert(inner.take(i + 1).map_values(|piece: SpecPiece| escaped_piece(piece))
            =~= inner.take(i as int).map_values(|piece: SpecPiece| escaped_piece(piece)) + seq![
            escaped_piece(inner[i as int]),
        ]);
        i += 1;
    }
    assert(inner.take(pieces.len() as int) =~= inner);
    put(out, "\"");
    assert(pieces_model(*out) =~= before + quoted(inner));
}

impl Literal {
    /// The value as a program prints it.
    pub fn display(&self) -> (r: Piece)
        ensures
            r@ == self@.display(),
    {
        match self {
            Literal::String(content) => Piece::Text(content.clone()),
            Literal::Number(bits) => Piece::Number(*bits),
            Literal::Boolean(value) => Piece::Text(
                if *value {
                    String::from_str("true")
                } else {
                    String::from_str("false")
                },
            ),
            Literal::Nil => Piece::Text(String::from_str("nil")),
            Literal::Function(_) => Piece::Text(String::from_str("<native fn>")),
        }
    }

    /// The value for diagnostics: as it is printed, but a string in quotes.
    pub fn debug(&self) -> (r: Vec<Piece>)
        ensures
            pieces_model(r) == self@.debug(),
    {
        let mut out: Vec<Piece> = Vec::new();
        assert(pieces_model(out) =~= Seq::empty());
        match self {
            Literal::String(content) => {
                put(&mut out, "\"");
                put(&mut out, content.as_str());
                put(&mut out, "\"");
                assert(pieces_model(out) =~= self@.debug());
            },
            _ => {
                put_piece(&mut out, self.display());
                assert(pieces_model(out) =~= self@.debug());
            },
        }
        out
    }
}

/// Appends the renderings of expressions, with a space between each two.
fn write_exprs(exprs: &Vec<Expr>, out: &mut Vec<Piece>)
    ensures
        pieces_model(*final(out)) == pieces_model(*old(out)) + spaced_exprs(exprs_model(*exprs)),
    decreases exprs,
{
    let ghost before = pieces_model(*out);
    let ghost all = exprs_model(*exprs);
    let mut i: usize = 0;
    while i < exprs.len()
        invariant
            i <= exprs.len(),
            all == exprs_model(*exprs),
            pieces_model(*out) == before + spaced_exprs(all.take(i as int)),
        decreases exprs.len() - i,
    {
        if i > 0 {
            put(out, " ");
        }
        exprs[i].write(out);
        proof {
            let now = all.take(i + 1);
            assert(now.drop_last() =~= all.take(i as int));
            assert(now[now.len() - 1] == all[i as int]);
            assert(pieces_model(*out) =~= before + spaced_exprs(now));
        }
        i += 1;
    }
    assert(all.take(exprs.len() as int) =~= all);
}

impl Expr {
    /// Appends the rendering of the expression.
    pub fn write(&self, out: &mut Vec<Piece>)
        ensures
            pieces_model(*final(out)) == pieces_model(*old(out)) + self@.rendering(),
        decreases self,
    {
        let ghost before = pieces_model(*out);
        match self {
            Expr::Binary(left, operator, right) => {
                put(out, "(");
                put(out, operator.lexeme.as_str());
                put(out, " ");
                left.write(out);
                put(out, " ");
                right.write(out);
                put(out, ")");
            },
            Expr::Grouping(inner) => {
                put(out, "(group ");
                inner.write(out);
                put(out, ")");
            },
            Expr::Literal(value) => {
                put_piece(out, value.display());
            },
            Expr::Unary(operator, operand) => {
                put(out, "(");
                put(out, operator.lexeme.as_str());
                put(out, " ");
                operand.write(out);
                put(out, ")");
            },
            Expr::Var(name) => {
                put(out, "(var ");
                put(out, name.lexeme.as_str());
                put(out, ")");
            },
            Expr::Assign(name, value) => {
                put(out, "(assign ");
                put(out, name.lexeme.as_str());
                put(out, " ");
                value.write(out);
                put(out, ")");
            },
            Expr::Logical(left, operator, right) => {
                put(out, "(");
                put(out, operator.lexeme.as_str());
                put(out, " ");
                left.write(out);
                put(out, " ");
                right.write(out);
                put(out, ")");
            },
            Expr::Call(callee, _, arguments) => {
                put(out, "(");
                callee.write(out);
                put(out, " ");
                let mut inner: Vec<Piece> = Vec::new();
                assert(pieces_model(inner) =~= Seq::empty());
                write_exprs(arguments, &mut inner);
                assert(pieces_model(inner) =~= spaced_exprs(exprs_model(*arguments)));
                put_quoted(out, &inner);
                put(out, ")");
            },
        }
        assert(pieces_model(*out) =~= before + self@.rendering());
    }

    /// The expression in prefix form.
    pub fn render(&self) -> (r: Vec<Piece>)
        ensures
            pieces_model(r) == self@.rendering(),
    {
        let mut out: Vec<Piece> = Vec::new();
        assert(pieces_model(out) =~= Seq::empty());
        self.write(&mut out);
        assert(pieces_model(out) =~= self@.rendering());
        out
    }
}

/// Appends the renderings of statements, with a space between each two.
fn write_stmts(stmts: &Vec<Stmt>, out: &mut Vec<Piece>)
    ensures
        pieces_model(*final(out)) == pieces_model(*old(out)) + spaced_stmts(stmts_model(*stmts)),
    decreases stmts,
{
    let ghost before = pieces_model(*out);
    let ghost all = stmts_model(*stmts);
    let mut i: usize = 0;
    while i < stmts.len()
        invariant
            i <= stmts.len(),
            all == stmts_model(*stmts),
            pieces_model(*out) == before + spaced_stmts(all.take(i as int)),
        decreases stmts.len() - i,
    {
        if i > 0 {
            put(out, " ");
        }
        stmts[i].write(out);
        proof {
            let now = all.take(i + 1);
            assert(now.drop_last() =~= all.take(i as int));
            assert(now[now.len() - 1] == all[i as int]);
            assert(pieces_model(*out) =~= before + spaced_stmts(now));
        }
        i += 1;
    }
    assert(all.take(stmts.len() as int) =~= all);
}

/// Appends the names of tokens, with a space between each two.
fn write_names(tokens: &Vec<Token>, out: &mut Vec<Piece>)
    ensures
        pieces_model(*final(out)) == pieces_model(*old(out)) + spaced_names(
            tokens_model(*tokens),
        ),
{
    let ghost before = pieces_model(*out);
    let ghost all = tokens_model(*tokens);
    let mut i: usize = 0;
    while i < tokens.len()
        invariant
            i <= tokens.len(),
            all == tokens_model(*tokens),
            pieces_model(*out) == before + spaced_names(all.take(i as int)),
        decreases tokens.len() - i,
    {
        if i > 0 {
            put(out, " ");
        }
        put(out, tokens[i].lexeme.as_str());
        proof {
            let now = all.take(i + 1);
            assert(now.drop_last() =~= all.take(i as int));
            assert(now[now.len() - 1] == all[i as int]);
            assert(pieces_model(*out) =~= before + spaced_names(now));
        }
        i += 1;
    }
    assert(all.take(tokens.len() as int) =~= all);
}

impl Stmt {
    /// Appends the rendering of the statement.
    pub fn write(&self, out: &mut Vec<Piece>)
        ensures
            pieces_model(*final(out)) == pieces_model(*old(out)) + self@.rendering(),
        decreases self,
    {
        let ghost before = pieces_model(*out);
        match self {
            Stmt::Print(value) => {
                put(out, "(print ");
                value.write(out);
                put(out, ")");
            },
            Stmt::Expression(value) => {
                put(out, "(");
                value.write(out);
                put(out, ")");
            },
            Stmt::Var(name, initializer) => match initializer {
                Some(value) => {
                    put(out, "(defvar ");
                    put(out, name.lexeme.as_str());
                    put(out, " ");
                    value.write(out);
                    put(out, ")");
                },
                None => {
                    put(out, "(defvar ");
                    put(out, name.lexeme.as_str());
                    put(out, " nil)");
                },
            },
            Stmt::Block(statements) => {
                put(out, "(block ");
                write_stmts(statements, out);
                put(out, ")");
            },
            Stmt::If(test, first, second) => {
                put(out, "(if ");
                test.write(out);
                put(out, " ");
                first.write(out);
                match second {
                    Some(other) => {
                        put(out, " ");
                        other.write(out);
                    },
                    None => {},
                }
                put(out, ")");
            },
            Stmt::While(test, body) => {
                put(out, "(while ");
                test.write(out);
                put(out, " ");
                body.write(out);
                put(out, ")");
            },
            Stmt::Function(name, params, body) => {
                put(out, "(fun ");
                put(out, name.lexeme.as_str());
                put(out, " (");
                write_names(params, out);
                put(out, ") ");
                write_stmts(body, out);
                put(out, ")");
            },
            Stmt::Return(_, value) => match value {
                Some(found) => {
                    put(out, "(return ");
                    found.write(out);
                    put(out, ")");
                },
                None => {
                    put(out, "(return)");
                },
            },
        }
        assert(pieces_model(*out) =~= before + self@.rendering());
    }

    /// The statement in prefix form.
    pub fn render(&self) -> (r: Vec<Piece>)
        ensures
            pieces_model(r) == self@.rendering(),
    {
        let mut out: Vec<Piece> = Vec::new();
        assert(pieces_model(out) =~= Seq::empty());
        self.write(&mut out);
        assert(pieces_model(out) =~= self@.rendering());
        out
    }
}

} // verus!

//! Expressions of the syntax tree.

use vstd::prelude::*;
use crate::literal::{Literal, SpecLiteral};
use crate::token::{SpecToken, Token};

verus! {

/// An expression. Every sub-expression is owned by its parent.
#[derive(Debug)]
pub enum Expr {
    Assign(Token, Box<Expr>),
    Binary(Box<Expr>, Token, Box<Expr>),
    Call(Box<Expr>, Token, Vec<Expr>),
    Grouping(Box<Expr>),
    Literal(Literal),
    Logical(Box<Expr>, Token, Box<Expr>),
    Unary(Token, Box<Expr>),
    Var(Token),
}

/// Model of an [`Expr`].
pub enum SpecExpr {
    Assign(SpecToken, Box<SpecExpr>),
    Binary(Box<SpecExpr>, SpecToken, Box<SpecExpr>),
    Call(Box<SpecExpr>, SpecToken, Seq<SpecExpr>),
    Grouping(Box<SpecExpr>),
    Literal(SpecLiteral),
    Logical(Box<SpecExpr>, SpecToken, Box<SpecExpr>),
    Unary(SpecToken, Box<SpecExpr>),
    Var(SpecToken),
}

/// The models of a vector of expressions, in order.
pub open spec fn exprs_model(exprs: Vec<Expr>) -> Seq<SpecExpr>
    decreases exprs,
{
    Seq::new(
        exprs@.len(),
        |i: int|
            if 0 <= i < exprs.len() {
                exprs[i].model()
            } else {
                SpecExpr::Literal(SpecLiteral::Nil)
            },
    )
}

impl Expr {
    pub open spec fn model(&self) -> SpecExpr
        decreases self,
    {
        match self {
            Expr::Assign(name, value) => SpecExpr::Assign(name@, Box::new(value.model())),
            Expr::Binary(left, operator, right) => SpecExpr::Binary(
                Box::new(left.model()),
                operator@,
                Box::new(right.model()),
            ),
            Expr::Call(callee, paren, arguments) => SpecExpr::Call(
                Box::new(callee.model()),
                paren@,
                exprs_model(*arguments),
            ),
            Expr::Grouping(inner) => SpecExpr::Grouping(Box::new(inner.model())),
            Expr::Literal(value) => SpecExpr::Literal(value.model()),
            Expr::Logical(left, operator, right) => SpecExpr::Logical(
                Box::new(left.model()),
                operator@,
                Box::new(right.model()),
            ),
            Expr::Unary(operator, operand) => SpecExpr::Unary(operator@, Box::new(operand.model())),
            Expr::Var(name) => SpecExpr::Var(name@),
        }
    }
}

/// Whether every expression of a sequence is well formed.
pub open spec fn exprs_well_formed(exprs: Seq<SpecExpr>) -> bool
    decreases exprs,
{
    forall|i: int| 0 <= i < exprs.len() ==> (#[trigger] exprs[i]).well_formed()
}

impl SpecExpr {
    /// Every prefix and infix operator in the tree is one that the language
    /// has, and every function literal is well formed.
    pub open spec fn well_formed(self) -> bool
        decreases self,
    {
        match self {
            SpecExpr::Assign(_, value) => value.well_formed(),
            SpecExpr::Binary(left, operator, right) => {
                &&& operator.kind.is_binary_operator()
                &&& left.well_formed()
                &&& right.well_formed()
            },
            SpecExpr::Call(callee, _, arguments) => {
                &&& callee.well_formed()
                &&& exprs_well_formed(arguments)
            },
            SpecExpr::Grouping(inner) => inner.well_formed(),
            SpecExpr::Literal(value) => value.well_formed(),
            SpecExpr::Logical(left, _, right) => left.well_formed() && right.well_formed(),
            SpecExpr::Unary(operator, operand) => {
                &&& operator.kind.is_unary_operator()
                &&& operand.well_formed()
            },
            SpecExpr::Var(_) => true,
        }
    }
}

/// Copies a vector of expressions.
pub fn copy_exprs(exprs: &Vec<Expr>) -> (r: Vec<Expr>)
    ensures
        exprs_model(r) == exprs_model(*exprs),
    decreases exprs,
{
    let mut out: Vec<Expr> = Vec::new();
    let mut i: usize = 0;
    while i < exprs.len()
        invariant
            i <= exprs.len(),
            out.len() == i,
            forall|k: int| 0 <= k < i ==> out[k]@ == exprs[k]@,
        decreases exprs.len() - i,
    {
        out.push(exprs[i].copy());
        i += 1;
    }
    assert(exprs_model(out) =~= exprs_model(*exprs));
    out
}

/// Whether every expression of a vector is well formed.
pub fn check_exprs(exprs: &Vec<Expr>) -> (r: bool)
    ensures
        r == exprs_well_formed(exprs_model(*exprs)),
    decreases exprs,
{
    let mut i: usize = 0;
    while i < exprs.len()
        invariant
            i <= exprs.len(),
            forall|k: int| 0 <= k < i ==> (#[trigger] exprs_model(*exprs)[k]).well_formed(),
        decreases exprs.len() - i,
    {
        if !exprs[i].is_well_formed() {
            assert(!exprs_model(*exprs)[i as int].well_formed());
            return false;
        }
        i += 1;
    }
    true
}

impl Expr {
    /// A deep copy.
    pub fn copy(&self) -> (r: Expr)
        ensures
            r@ == self@,
        decreases self,
    {
        match self {
            Expr::Assign(name, value) => Expr::Assign(name.clone(), Box::new(value.copy())),
            Expr::Binary(left, operator, right) => Expr::Binary(
                Box::new(left.copy()),
                operator.clone(),
                Box::new(right.copy()),
            ),
            Expr::Call(callee, paren, arguments) => Expr::Call(
                Box::new(callee.copy()),
                paren.clone(),
                copy_exprs(arguments),
            ),
            Expr::Grouping(inner) => Expr::Grouping(Box::new(inner.copy())),
            Expr::Literal(value) => Expr::Literal(value.copy()),
            Expr::Logical(left, operator, right) => Expr::Logical(
                Box::new(left.copy()),
                operator.clone(),
                Box::new(right.copy()),
            ),
            Expr::Unary(operator, operand) => Expr::Unary(
                operator.clone(),
                Box::new(operand.copy()),
            ),
            Expr::Var(name) => Expr::Var(name.clone()),
        }
    }

    /// Tests [`SpecExpr::well_formed`].
    pub fn is_well_formed(&self) -> (r: bool)
        ensures
            r == self@.well_formed(),
        decreases self,
    {
        match self {
            Expr::Assign(_, value) => value.is_well_formed(),
            Expr::Binary(left, operator, right) => {
                operator.token_type.is_binary_operator() && left.is_well_formed()
                    && right.is_well_formed()
            },
            Expr::Call(callee, _, arguments) => {
                callee.is_well_formed() && check_exprs(arguments)
            },
            Expr::Grouping(inner) => inner.is_well_formed(),
            Expr::Literal(value) => value.is_well_formed(),
            Expr::Logical(left, _, right) => left.is_well_formed() && right.is_well_formed(),
            Expr::Unary(operator, operand) => {
                operator.token_type.is_unary_operator() && operand.is_well_formed()
            },
            Expr::Var(_) => true,
        }
    }
}

impl Clone for Expr {
    fn clone(&self) -> (r: Self)
        ensures
            r@ == self@,
    {
        self.copy()
    }
}

impl View for Expr {
    type V = SpecExpr;

    open spec fn view(&self) -> SpecExpr {
        self.model()
    }
}

} // verus!

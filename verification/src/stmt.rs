//! Statements of the syntax tree.

use vstd::prelude::*;
use crate::expr::{Expr, SpecExpr};
use crate::token::copy_tokens;
use crate::token::{SpecToken, Token, tokens_model};

verus! {

/// A statement. Every branch and body is owned by its parent.
#[derive(Debug)]
pub enum Stmt {
    Print(Expr),
    Expression(Expr),
    Var(Token, Option<Expr>),
    Block(Vec<Stmt>),
    If(Expr, Box<Stmt>, Option<Box<Stmt>>),
    While(Expr, Box<Stmt>),
    Function(Token, Vec<Token>, Vec<Stmt>),
    Return(Token, Option<Expr>),
}

/// Model of a [`Stmt`].
pub enum SpecStmt {
    Print(SpecExpr),
    Expression(SpecExpr),
    Var(SpecToken, Option<SpecExpr>),
    Block(Seq<SpecStmt>),
    If(SpecExpr, Box<SpecStmt>, Option<Box<SpecStmt>>),
    While(SpecExpr, Box<SpecStmt>),
    Function(SpecToken, Seq<SpecToken>, Seq<SpecStmt>),
    Return(SpecToken, Option<SpecExpr>),
}

/// The models of a vector of statements, in order.
pub open spec fn stmts_model(stmts: Vec<Stmt>) -> Seq<SpecStmt>
    decreases stmts,
{
    Seq::new(
        stmts@.len(),
        |i: int|
            if 0 <= i < stmts.len() {
                stmts[i].model()
            } else {
                SpecStmt::Block(Seq::empty())
            },
    )
}

impl Stmt {
    pub open spec fn model(&self) -> SpecStmt
        decreases self,
    {
        match self {
            Stmt::Print(value) => SpecStmt::Print(value.model()),
            Stmt::Expression(value) => SpecStmt::Expression(value.model()),
            Stmt::Var(name, initializer) => SpecStmt::Var(
                name@,
                match initializer {
                    Some(value) => Some(value.model()),
                    None => None,
                },
            ),
            Stmt::Block(statements) => SpecStmt::Block(stmts_model(*statements)),
            Stmt::If(condition, then_branch, else_branch) => SpecStmt::If(
                condition.model(),
                Box::new(then_branch.model()),
                match else_branch {
                    Some(branch) => Some(Box::new(branch.model())),
                    None => None,
                },
            ),
            Stmt::While(condition, body) => SpecStmt::While(
                condition.model(),
                Box::new(body.model()),
            ),
            Stmt::Function(name, params, body) => SpecStmt::Function(
                name@,
                tokens_model(*params),
                stmts_model(*body),
            ),
            Stmt::Return(keyword, value) => SpecStmt::Return(
                keyword@,
                match value {
                    Some(value) => Some(value.model()),
                    None => None,
                },
            ),
        }
    }
}

/// Whether every statement of a sequence is well formed.
pub open spec fn all_well_formed(stmts: Seq<SpecStmt>) -> bool
    decreases stmts,
{
    forall|i: int| 0 <= i < stmts.len() ==> (#[trigger] stmts[i]).well_formed()
}

impl SpecStmt {
    /// Every expression and statement in the tree is well formed.
    pub open spec fn well_formed(self) -> bool
        decreases self,
    {
        match self {
            SpecStmt::Print(value) => value.well_formed(),
            SpecStmt::Expression(value) => value.well_formed(),
            SpecStmt::Var(_, initializer) => match initializer {
                Some(value) => value.well_formed(),
                None => true,
            },
            SpecStmt::Block(statements) => all_well_formed(statements),
            SpecStmt::If(condition, then_branch, else_branch) => {
                &&& condition.well_formed()
                &&& then_branch.well_formed()
                &&& match else_branch {
                    Some(branch) => branch.well_formed(),
                    None => true,
                }
            },
            SpecStmt::While(condition, body) => condition.well_formed() && body.well_formed(),
            SpecStmt::Function(_, _, body) => all_well_formed(body),
            SpecStmt::Return(_, value) => match value {
                Some(value) => value.well_formed(),
                None => true,
            },
        }
    }
}

/// Copies a vector of statements.
pub fn copy_stmts(stmts: &Vec<Stmt>) -> (r: Vec<Stmt>)
    ensures
        stmts_model(r) == stmts_model(*stmts),
    decreases stmts,
{
    let mut out: Vec<Stmt> = Vec::new();
    let mut i: usize = 0;
    while i < stmts.len()
        invariant
            i <= stmts.len(),
            out.len() == i,
            forall|k: int| 0 <= k < i ==> out[k]@ == stmts[k]@,
        decreases stmts.len() - i,
    {
        out.push(stmts[i].copy());
        i += 1;
    }
    assert(stmts_model(out) =~= stmts_model(*stmts));
    out
}

/// Whether every statement of a vector is well formed.
pub fn check_stmts(stmts: &Vec<Stmt>) -> (r: bool)
    ensures
        r == all_well_formed(stmts_model(*stmts)),
    decreases stmts,
{
    let mut i: usize = 0;
    while i < stmts.len()
        invariant
            i <= stmts.len(),
            forall|k: int| 0 <= k < i ==> (#[trigger] stmts_model(*stmts)[k]).well_formed(),
        decreases stmts.len() - i,
    {
        if !stmts[i].is_well_formed() {
            assert(!stmts_model(*stmts)[i as int].well_formed());
            return false;
        }
        i += 1;
    }
    true
}

impl Stmt {
    /// A deep copy.
    pub fn copy(&self) -> (r: Stmt)
        ensures
            r@ == self@,
        decreases self,
    {
        match self {
            Stmt::Print(value) => Stmt::Print(value.copy()),
            Stmt::Expression(value) => Stmt::Expression(value.copy()),
            Stmt::Var(name, initializer) => Stmt::Var(
                name.clone(),
                match initializer {
                    Some(value) => Some(value.copy()),
                    None => None,
                },
            ),
            Stmt::Block(statements) => Stmt::Block(copy_stmts(statements)),
            Stmt::If(condition, then_branch, else_branch) => Stmt::If(
                condition.copy(),
                Box::new(then_branch.copy()),
                match else_branch {
                    Some(branch) => Some(Box::new(branch.copy())),
                    None => None,
                },
            ),
            Stmt::While(condition, body) => Stmt::While(condition.copy(), Box::new(body.copy())),
            Stmt::Function(name, params, body) => Stmt::Function(
                name.clone(),
                copy_tokens(params),
                copy_stmts(body),
            ),
            Stmt::Return(keyword, value) => Stmt::Return(
                keyword.clone(),
                match value {
                    Some(value) => Some(value.copy()),
                    None => None,
                },
            ),
        }
    }

    /// Tests [`SpecStmt::well_formed`].
    pub fn is_well_formed(&self) -> (r: bool)
        ensures
            r == self@.well_formed(),
        decreases self,
    {
        match self {
            Stmt::Print(value) => value.is_well_formed(),
            Stmt::Expression(value) => value.is_well_formed(),
            Stmt::Var(_, initializer) => match initializer {
                Some(value) => value.is_well_formed(),
                None => true,
            },
            Stmt::Block(statements) => check_stmts(statements),
            Stmt::If(condition, then_branch, else_branch) => {
                condition.is_well_formed() && then_branch.is_well_formed() && match else_branch {
                    Some(branch) => branch.is_well_formed(),
                    None => true,
                }
            },
            Stmt::While(condition, body) => condition.is_well_formed() && body.is_well_formed(),
            Stmt::Function(_, _, body) => check_stmts(body),
            Stmt::Return(_, value) => match value {
                Some(value) => value.is_well_formed(),
                None => true,
            },
        }
    }
}

impl Clone for Stmt {
    fn clone(&self) -> (r: Self)
        ensures
            r@ == self@,
    {
        self.copy()
    }
}

impl View for Stmt {
    type V = SpecStmt;

    open spec fn view(&self) -> SpecStmt {
        self.model()
    }
}

} // verus!

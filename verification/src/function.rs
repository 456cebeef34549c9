//! Callable values.

use vstd::prelude::*;
use crate::stmt::{SpecStmt, Stmt, all_well_formed, check_stmts, copy_stmts, stmts_model};
use crate::token::{SpecToken, Token, copy_tokens, tokens_model};

verus! {

/// A callable: one that the host provides, or one declared in the program.
#[derive(Debug)]
pub enum Function {
    /// A host function, known by its name.
    Native { arity: usize, name: String },
    /// A declared function with the scope in which it was declared.
    Lox { arity: usize, params: Box<Vec<Token>>, body: Box<Vec<Stmt>>, closure: usize },
}

/// Model of a [`Function`].
pub enum SpecFunction {
    Native { arity: usize, name: Seq<char> },
    Lox { arity: usize, params: Seq<SpecToken>, body: Seq<SpecStmt>, closure: usize },
}

impl Function {
    pub open spec fn model(&self) -> SpecFunction
        decreases self,
    {
        match self {
            Function::Native { arity, name } => SpecFunction::Native { arity: *arity, name: name@ },
            Function::Lox { arity, params, body, closure } => SpecFunction::Lox {
                arity: *arity,
                params: tokens_model(**params),
                body: stmts_model(**body),
                closure: *closure,
            },
        }
    }
}

impl SpecFunction {
    /// A declared function takes as many arguments as it has parameters, and
    /// its body is well formed.
    pub open spec fn well_formed(self) -> bool
        decreases self,
    {
        match self {
            SpecFunction::Native { .. } => true,
            SpecFunction::Lox { arity, params, body, .. } => {
                &&& arity == params.len()
                &&& all_well_formed(body)
            },
        }
    }

    /// The number of arguments that a call must pass.
    pub open spec fn arity(self) -> usize {
        match self {
            SpecFunction::Native { arity, .. } => arity,
            SpecFunction::Lox { arity, .. } => arity,
        }
    }
}

impl Function {
    /// A deep copy.
    pub fn copy(&self) -> (r: Function)
        ensures
            r@ == self@,
        decreases self,
    {
        match self {
            Function::Native { arity, name } => Function::Native {
                arity: *arity,
                name: name.clone(),
            },
            Function::Lox { arity, params, body, closure } => Function::Lox {
                arity: *arity,
                params: Box::new(copy_tokens(params)),
                body: Box::new(copy_stmts(body)),
                closure: *closure,
            },
        }
    }

    /// Tests [`SpecFunction::well_formed`].
    pub fn is_well_formed(&self) -> (r: bool)
        ensures
            r == self@.well_formed(),
        decreases self,
    {
        match self {
            Function::Native { .. } => true,
            Function::Lox { arity, params, body, .. } => {
                *arity == params.len() && check_stmts(body)
            },
        }
    }

    /// The number of arguments that a call must pass.
    pub fn arity(&self) -> (r: usize)
        ensures
            r == self@.arity(),
    {
        match self {
            Function::Native { arity, .. } => *arity,
            Function::Lox { arity, .. } => *arity,
        }
    }
}

impl Clone for Function {
    fn clone(&self) -> (r: Self)
        ensures
            r@ == self@,
    {
        self.copy()
    }
}

impl View for Function {
    type V = SpecFunction;

    open spec fn view(&self) -> SpecFunction {
        self.model()
    }
}

} // verus!

//! The scopes of a resolution pass.
//!
//! The pass itself is not part of this library: variables are looked up
//! through the chain of scopes at run time. What stands here is the stack of
//! scopes that such a pass keeps while it walks the blocks of a program.

use vstd::prelude::*;
use crate::stmt::Stmt;

verus! {

/// A name in a scope, and whether its initializer has been resolved.
pub struct Declared {
    pub name: String,
    pub ready: bool,
}

/// Model of a [`Declared`].
pub struct SpecDeclared {
    pub name: Seq<char>,
    pub ready: bool,
}

impl View for Declared {
    type V = SpecDeclared;

    open spec fn view(&self) -> SpecDeclared {
        SpecDeclared { name: self.name@, ready: self.ready }
    }
}

/// The models of the names of one scope.
pub open spec fn scope_model(scope: Vec<Declared>) -> Seq<SpecDeclared> {
    Seq::new(scope@.len(), |i: int| scope[i]@)
}

/// The stack of scopes that are open, the innermost last.
pub struct Resolver {
    scopes: Vec<Vec<Declared>>,
}

impl View for Resolver {
    type V = Seq<Seq<SpecDeclared>>;

    closed spec fn view(&self) -> Seq<Seq<SpecDeclared>> {
        Seq::new(self.scopes@.len(), |i: int| scope_model(self.scopes[i]))
    }
}

impl Resolver {
    /// A resolver with no scope open.
    pub fn new() -> (r: Self)
        ensures
            r@ == Seq::<Seq<SpecDeclared>>::empty(),
    {
        let r = Resolver { scopes: Vec::new() };
        assert(r@ =~= Seq::empty());
        r
    }

    /// Opens an empty scope.
    pub fn begin_scope(&mut self)
        ensures
            final(self)@ == old(self)@.push(Seq::empty()),
    {
        let scope: Vec<Declared> = Vec::new();
        assert(scope_model(scope) =~= Seq::empty());
        self.scopes.push(scope);
        assert(self@ =~= old(self)@.push(Seq::empty()));
    }

    /// Closes the innermost scope, if one is open.
    pub fn end_scope(&mut self)
        ensures
            final(self)@ == if old(self)@.len() > 0 {
                old(self)@.drop_last()
            } else {
                old(self)@
            },
    {
        self.scopes.pop();
        assert(self@ =~= if old(self)@.len() > 0 {
            old(self)@.drop_last()
        } else {
            old(self)@
        });
    }

    /// Walks a block: its scope is opened and closed again, so the open
    /// scopes are afterwards what they were.
    pub fn visit_statement(&mut self, stmt: Stmt)
        requires
            stmt is Block,
        ensures
            final(self)@ == old(self)@,
    {
        self.begin_scope();
        self.end_scope();
        assert(self@ =~= old(self)@);
    }
}

} // verus!

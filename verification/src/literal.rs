//! Runtime values, which are also the literals of the syntax tree.

use vstd::prelude::*;
use vstd::std_specs::cmp::PartialEqSpecImpl;
use crate::function::{Function, SpecFunction};
use crate::number;

verus! {

/// A value of the language.
#[derive(Debug)]
pub enum Literal {
    Function(Function),
    String(String),
    /// The bit pattern of a double.
    Number(u64),
    Boolean(bool),
    Nil,
}

/// Model of a [`Literal`].
pub enum SpecLiteral {
    Function(SpecFunction),
    String(Seq<char>),
    Number(u64),
    Boolean(bool),
    Nil,
}

impl Literal {
    pub open spec fn model(&self) -> SpecLiteral
        decreases self,
    {
        match self {
            Literal::Function(f) => SpecLiteral::Function(f.model()),
            Literal::String(s) => SpecLiteral::String(s@),
            Literal::Number(bits) => SpecLiteral::Number(*bits),
            Literal::Boolean(b) => SpecLiteral::Boolean(*b),
            Literal::Nil => SpecLiteral::Nil,
        }
    }
}

impl SpecLiteral {
    /// A function value is well formed; every other value is.
    pub open spec fn well_formed(self) -> bool
        decreases self,
    {
        match self {
            SpecLiteral::Function(f) => f.well_formed(),
            _ => true,
        }
    }

    /// Equality as the language's `==` sees it: strings, numbers and booleans
    /// by value, `nil` equal to `nil`, a function equal to nothing.
    pub open spec fn equals(self, other: SpecLiteral) -> bool {
        match (self, other) {
            (SpecLiteral::String(a), SpecLiteral::String(b)) => a == b,
            (SpecLiteral::Number(a), SpecLiteral::Number(b)) => number::equal(a, b),
            (SpecLiteral::Boolean(a), SpecLiteral::Boolean(b)) => a == b,
            (SpecLiteral::Nil, SpecLiteral::Nil) => true,
            _ => false,
        }
    }

    /// `nil` and `false` count as false, every other value as true.
    pub open spec fn is_truthy(self) -> bool {
        !(self is Nil || self == SpecLiteral::Boolean(false))
    }
}

impl Literal {
    /// A deep copy.
    pub fn copy(&self) -> (r: Literal)
        ensures
            r@ == self@,
        decreases self,
    {
        match self {
            Literal::Function(f) => Literal::Function(f.copy()),
            Literal::String(s) => Literal::String(s.clone()),
            Literal::Number(bits) => Literal::Number(*bits),
            Literal::Boolean(b) => Literal::Boolean(*b),
            Literal::Nil => Literal::Nil,
        }
    }

    /// Tests [`SpecLiteral::well_formed`].
    pub fn is_well_formed(&self) -> (r: bool)
        ensures
            r == self@.well_formed(),
        decreases self,
    {
        match self {
            Literal::Function(f) => f.is_well_formed(),
            _ => true,
        }
    }

    /// Hands back a value that is no function, together with what its model
    /// is.
    pub(crate) fn plain(value: Literal) -> (r: Literal)
        requires
            !(value is Function),
        ensures
            r == value,
            r@.well_formed(),
            r@ == match value {
                Literal::String(text) => SpecLiteral::String(text@),
                Literal::Number(bits) => SpecLiteral::Number(bits),
                Literal::Boolean(b) => SpecLiteral::Boolean(b),
                _ => SpecLiteral::Nil,
            },
    {
        value
    }

    /// Whether the value counts as true in a condition.
    pub fn is_truthy(&self) -> (r: bool)
        ensures
            r == self@.is_truthy(),
    {
        match self {
            Literal::Nil => false,
            Literal::Boolean(false) => false,
            _ => true,
        }
    }
}

impl PartialEq for Literal {
    fn eq(&self, other: &Self) -> (r: bool) {
        match (self, other) {
            (Literal::String(a), Literal::String(b)) => *a == *b,
            (Literal::Number(a), Literal::Number(b)) => number::check_equal(*a, *b),
            (Literal::Boolean(a), Literal::Boolean(b)) => *a == *b,
            (Literal::Nil, Literal::Nil) => true,
            _ => false,
        }
    }
}

impl PartialEqSpecImpl for Literal {
    open spec fn obeys_eq_spec() -> bool {
        true
    }

    open spec fn eq_spec(&self, other: &Self) -> bool {
        self@.equals(other@)
    }
}

impl Clone for Literal {
    fn clone(&self) -> (r: Self)
        ensures
            r@ == self@,
    {
        self.copy()
    }
}

impl View for Literal {
    type V = SpecLiteral;

    open spec fn view(&self) -> SpecLiteral {
        self.model()
    }
}

/// The models of a vector of values, in order.
pub open spec fn values_model(values: Vec<Literal>) -> Seq<SpecLiteral> {
    Seq::new(values@.len(), |i: int| values[i]@)
}

/// Whether every value of a sequence is well formed.
pub open spec fn values_well_formed(values: Seq<SpecLiteral>) -> bool {
    forall|i: int| 0 <= i < values.len() ==> (#[trigger] values[i]).well_formed()
}

/// Copies a vector of values.
pub fn copy_values(values: &Vec<Literal>) -> (r: Vec<Literal>)
    ensures
        values_model(r) == values_model(*values),
{
    let mut out: Vec<Literal> = Vec::new();
    let mut i: usize = 0;
    while i < values.len()
        invariant
            i <= values.len(),
            out.len() == i,
            forall|k: int| 0 <= k < i ==> out[k]@ == values[k]@,
        decreases values.len() - i,
    {
        out.push(values[i].copy());
        i += 1;
    }
    assert(values_model(out) =~= values_model(*values));
    out
}

} // verus!

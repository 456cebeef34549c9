//! Lexical scopes.
//!
//! Every scope that a program opens is kept in one arena and is known by its
//! index there. A scope names the scope that encloses it, which was opened
//! before it and so has a smaller index. Scopes are never removed, so a
//! closure can hold on to the index of the scope in which it was declared.

use vstd::prelude::*;
use crate::literal::{Literal, SpecLiteral};

verus! {

/// Model of one scope: what its names are bound to, and the scope around it.
pub struct SpecScope {
    pub values: Map<Seq<char>, SpecLiteral>,
    pub enclosing: Option<usize>,
}

/// The nearest scope, from `scope` outwards, that binds `name`.
pub open spec fn resolve(scopes: Seq<SpecScope>, scope: int, name: Seq<char>) -> Option<int>
    decreases scope,
{
    if scope < 0 || scope >= scopes.len() {
        None
    } else if scopes[scope].values.contains_key(name) {
        Some(scope)
    } else {
        match scopes[scope].enclosing {
            Some(parent) => if parent < scope {
                resolve(scopes, parent as int, name)
            } else {
                None
            },
            None => None,
        }
    }
}

/// What `name` stands for when looked up from `scope`.
pub open spec fn fetched(scopes: Seq<SpecScope>, scope: int, name: Seq<char>) -> Option<
    SpecLiteral,
> {
    match resolve(scopes, scope, name) {
        Some(found) => Some(scopes[found].values[name]),
        None => None,
    }
}

/// The scopes after `name` was bound to `value` in `scope` itself.
pub open spec fn defined(
    scopes: Seq<SpecScope>,
    scope: int,
    name: Seq<char>,
    value: SpecLiteral,
) -> Seq<SpecScope> {
    scopes.update(
        scope,
        SpecScope { values: scopes[scope].values.insert(name, value), ..scopes[scope] },
    )
}

/// The scopes after `value` was assigned to `name` as seen from `scope`: the
/// nearest binding is overwritten; without one nothing changes.
pub open spec fn assigned(
    scopes: Seq<SpecScope>,
    scope: int,
    name: Seq<char>,
    value: SpecLiteral,
) -> Seq<SpecScope> {
    match resolve(scopes, scope, name) {
        Some(found) => defined(scopes, found, name, value),
        None => scopes,
    }
}

/// The scopes after an empty scope was opened inside `parent`.
pub open spec fn enclosed(scopes: Seq<SpecScope>, parent: usize) -> Seq<SpecScope> {
    scopes.push(SpecScope { values: Map::empty(), enclosing: Some(parent) })
}

/// Every scope but the first lies inside a scope that was opened before it.
pub open spec fn nested(scopes: Seq<SpecScope>) -> bool {
    forall|i: int|
        0 <= i < scopes.len() ==> match (#[trigger] scopes[i]).enclosing {
            Some(parent) => parent < i,
            None => true,
        }
}

/// Every value that is bound in some scope is well formed.
pub open spec fn holds_well_formed(scopes: Seq<SpecScope>) -> bool {
    forall|i: int, name: Seq<char>|
        0 <= i < scopes.len() && (#[trigger] scopes[i].values.contains_key(name))
            ==> scopes[i].values[name].well_formed()
}

/// The map that the first `count` pairs of names and values make, a later
/// pair replacing an earlier one of the same name.
pub open spec fn bound(names: Seq<Seq<char>>, values: Seq<SpecLiteral>, count: int) -> Map<
    Seq<char>,
    SpecLiteral,
>
    decreases count,
{
    if count <= 0 {
        Map::empty()
    } else {
        bound(names, values, count - 1).insert(names[count - 1], values[count - 1])
    }
}

/// No name occurs twice.
pub open spec fn distinct(names: Seq<Seq<char>>) -> bool {
    forall|i: int, j: int| 0 <= i < j < names.len() ==> names[i] != names[j]
}

/// A name is bound by the first `count` pairs exactly if it is one of the
/// first `count` names.
proof fn lemma_bound_keys(
    names: Seq<Seq<char>>,
    values: Seq<SpecLiteral>,
    count: int,
    name: Seq<char>,
)
    requires
        0 <= count <= names.len(),
    ensures
        bound(names, values, count).contains_key(name) <==> exists|i: int|
            0 <= i < count && names[i] == name,
    decreases count,
{
    if count > 0 {
        lemma_bound_keys(names, values, count - 1, name);
        if names[count - 1] == name {
            assert(0 <= count - 1 < count && names[count - 1] == name);
        }
    }
}

/// Where no name occurs twice, each name is bound to the value at its own
/// position.
proof fn lemma_bound_value(names: Seq<Seq<char>>, values: Seq<SpecLiteral>, count: int, i: int)
    requires
        distinct(names),
        0 <= i < count <= names.len(),
    ensures
        bound(names, values, count).contains_key(names[i]),
        bound(names, values, count)[names[i]] == values[i],
    decreases count,
{
    if i < count - 1 {
        lemma_bound_value(names, values, count - 1, i);
    }
}

/// Where no name occurs twice, replacing the value at one position rebinds
/// the name at that position and nothing else.
proof fn lemma_bound_update(
    names: Seq<Seq<char>>,
    values: Seq<SpecLiteral>,
    count: int,
    i: int,
    value: SpecLiteral,
)
    requires
        distinct(names),
        0 <= i < names.len(),
        0 <= count <= names.len(),
        names.len() == values.len(),
    ensures
        bound(names, values.update(i, value), count) == if i < count {
            bound(names, values, count).insert(names[i], value)
        } else {
            bound(names, values, count)
        },
    decreases count,
{
    if count > 0 {
        lemma_bound_update(names, values, count - 1, i, value);
        let before = bound(names, values, count - 1);
        if i < count - 1 {
            assert(before.insert(names[i], value).insert(names[count - 1], values[count - 1])
                =~= before.insert(names[count - 1], values[count - 1]).insert(names[i], value));
        } else if i == count - 1 {
            assert(before.insert(names[i], value) =~= before.insert(
                names[i],
                values[i],
            ).insert(names[i], value));
        }
    }
}

/// One scope.
struct Scope {
    names: Vec<String>,
    values: Vec<Literal>,
    enclosing: Option<usize>,
}

impl Scope {
    spec fn names_model(&self) -> Seq<Seq<char>> {
        Seq::new(self.names@.len(), |i: int| self.names[i]@)
    }

    spec fn values_model(&self) -> Seq<SpecLiteral> {
        Seq::new(self.values@.len(), |i: int| self.values[i]@)
    }

    spec fn well_formed(&self) -> bool {
        &&& self.names@.len() == self.values@.len()
        &&& distinct(self.names_model())
    }

    spec fn model(&self) -> SpecScope {
        SpecScope {
            values: bound(self.names_model(), self.values_model(), self.names@.len() as int),
            enclosing: self.enclosing,
        }
    }

    /// The position of a name, if the scope binds it.
    fn find(&self, name: &str) -> (r: Option<usize>)
        requires
            self.well_formed(),
        ensures
            match r {
                Some(i) => i < self.names@.len() && self.names_model()[i as int] == name@,
                None => !self.model().values.contains_key(name@),
            },
            r is Some <==> self.model().values.contains_key(name@),
    {
        let wanted = String::from_str(name);
        let mut i: usize = 0;
        while i < self.names.len()
            invariant
                wanted@ == name@,
                self.well_formed(),
                i <= self.names@.len(),
                forall|k: int| 0 <= k < i ==> self.names_model()[k] != name@,
            decreases self.names@.len() - i,
        {
            if self.names[i] == wanted {
                proof {
                    lemma_bound_value(
                        self.names_model(),
                        self.values_model(),
                        self.names@.len() as int,
                        i as int,
                    );
                }
                return Some(i);
            }
            i += 1;
        }
        proof {
            lemma_bound_keys(
                self.names_model(),
                self.values_model(),
                self.names@.len() as int,
                name@,
            );
        }
        None
    }

    /// Binds a name, replacing what it was bound to.
    fn set(&mut self, name: &str, value: Literal)
        requires
            old(self).well_formed(),
        ensures
            final(self).well_formed(),
            final(self).model() == (SpecScope {
                values: old(self).model().values.insert(name@, value@),
                ..old(self).model()
            }),
    {
        let ghost names = self.names_model();
        let ghost values = self.values_model();
        match self.find(name) {
            Some(i) => {
                self.values.set(i, value);
                proof {
                    assert(self.names_model() =~= names);
                    assert(self.values_model() =~= values.update(i as int, value@));
                    lemma_bound_update(names, values, names.len() as int, i as int, value@);
                }
            },
            None => {
                let owned = String::from_str(name);
                self.names.push(owned);
                self.values.push(value);
                proof {
                    let count = names.len() as int;
                    assert(self.names_model() =~= names.push(name@));
                    assert(self.values_model() =~= values.push(value@));
                    lemma_bound_same(names, values, names.push(name@), values.push(value@), count);
                    assert forall|i: int, j: int|
                        0 <= i < j < self.names_model().len() implies self.names_model()[i]
                        != self.names_model()[j] by {
                        if j == count {
                            lemma_bound_keys(names, values, count, name@);
                        }
                    }
                }
            },
        }
    }
}

/// The first `count` pairs make the same map in two sequences that agree on
/// them.
proof fn lemma_bound_same(
    names: Seq<Seq<char>>,
    values: Seq<SpecLiteral>,
    other_names: Seq<Seq<char>>,
    other_values: Seq<SpecLiteral>,
    count: int,
)
    requires
        0 <= count <= names.len(),
        count <= values.len(),
        count <= other_names.len(),
        count <= other_values.len(),
        forall|i: int| 0 <= i < count ==> names[i] == other_names[i],
        forall|i: int| 0 <= i < count ==> values[i] == other_values[i],
    ensures
        bound(names, values, count) == bound(other_names, other_values, count),
    decreases count,
{
    if count > 0 {
        lemma_bound_same(names, values, other_names, other_values, count - 1);
    }
}

/// The arena of scopes. Scope 0 is the global scope.
pub struct Environment {
    scopes: Vec<Scope>,
}

impl View for Environment {
    type V = Seq<SpecScope>;

    closed spec fn view(&self) -> Seq<SpecScope> {
        Seq::new(self.scopes@.len(), |i: int| self.scopes[i].model())
    }
}

impl Environment {
    /// There is a global scope, every other scope lies inside an earlier one,
    /// and no scope binds a name twice.
    pub closed spec fn well_formed(&self) -> bool {
        &&& self.scopes@.len() >= 1
        &&& nested(self@)
        &&& forall|i: int| 0 <= i < self.scopes@.len() ==> (#[trigger] self.scopes[i]).well_formed()
    }

    /// A well-formed arena has the global scope, and its scopes are nested.
    pub proof fn lemma_well_formed(&self)
        requires
            self.well_formed(),
        ensures
            self@.len() >= 1,
            nested(self@),
    {
    }

    /// An arena that holds the global scope, which is empty.
    pub fn new() -> (r: Self)
        ensures
            r.well_formed(),
            r@ == seq![SpecScope { values: Map::empty(), enclosing: None }],
    {
        let global = Scope { names: Vec::new(), values: Vec::new(), enclosing: None };
        let mut scopes: Vec<Scope> = Vec::new();
        scopes.push(global);
        let r = Environment { scopes };
        assert(r@ =~= seq![SpecScope { values: Map::empty(), enclosing: None }]);
        r
    }

    /// The number of scopes.
    pub fn len(&self) -> (r: usize)
        ensures
            r == self@.len(),
    {
        self.scopes.len()
    }

    /// Opens an empty scope inside `parent` and returns its index.
    pub fn enclose(&mut self, parent: usize) -> (r: usize)
        requires
            old(self).well_formed(),
            parent < old(self)@.len(),
        ensures
            final(self).well_formed(),
            r == old(self)@.len(),
            final(self)@ == enclosed(old(self)@, parent),
    {
        let scope = Scope { names: Vec::new(), values: Vec::new(), enclosing: Some(parent) };
        let index = self.scopes.len();
        self.scopes.push(scope);
        assert(self@ =~= enclosed(old(self)@, parent));
        index
    }

    /// Binds `name` to `value` in `scope` itself, whether or not the scope
    /// bound the name before.
    pub fn define(&mut self, scope: usize, name: &str, value: Literal)
        requires
            old(self).well_formed(),
            scope < old(self)@.len(),
        ensures
            final(self).well_formed(),
            final(self)@ == defined(old(self)@, scope as int, name@, value@),
    {
        let ghost before = self@;
        let mut taken = Scope { names: Vec::new(), values: Vec::new(), enclosing: None };
        std::mem::swap(&mut taken, &mut self.scopes[scope]);
        taken.set(name, value);
        self.scopes.set(scope, taken);
        assert(self@ =~= defined(before, scope as int, name@, value@));
    }

    /// Assigns `value` to the nearest binding of `name` as seen from `scope`,
    /// and says whether there was one. Without one nothing changes.
    pub fn assign(&mut self, scope: usize, name: &str, value: Literal) -> (r: bool)
        requires
            old(self).well_formed(),
        ensures
            final(self).well_formed(),
            r == (resolve(old(self)@, scope as int, name@) is Some),
            final(self)@ == assigned(old(self)@, scope as int, name@, value@),
    {
        match self.find(scope, name) {
            Some(found) => {
                self.define(found, name, value);
                true
            },
            None => false,
        }
    }

    /// The nearest scope, from `scope` outwards, that binds `name`.
    pub fn find(&self, scope: usize, name: &str) -> (r: Option<usize>)
        requires
            self.well_formed(),
        ensures
            match r {
                Some(found) => resolve(self@, scope as int, name@) == Some(found as int) && found
                    < self@.len(),
                None => resolve(self@, scope as int, name@) is None,
            },
    {
        let mut at: usize = scope;
        loop
            invariant
                self.well_formed(),
                resolve(self@, at as int, name@) == resolve(self@, scope as int, name@),
            decreases at,
        {
            if at >= self.scopes.len() {
                return None;
            }
            if self.scopes[at].find(name).is_some() {
                return Some(at);
            }
            match self.scopes[at].enclosing {
                Some(parent) => {
                    if parent < at {
                        at = parent;
                    } else {
                        return None;
                    }
                },
                None => {
                    return None;
                },
            }
        }
    }

    /// What `name` stands for when looked up from `scope`, if it is bound.
    pub fn fetch(&self, scope: usize, name: &str) -> (r: Option<Literal>)
        requires
            self.well_formed(),
        ensures
            match r {
                Some(value) => fetched(self@, scope as int, name@) == Some(value@),
                None => fetched(self@, scope as int, name@) is None,
            },
    {
        match self.find(scope, name) {
            Some(found) => {
                match self.scopes[found].find(name) {
                    Some(i) => {
                        let value = self.scopes[found].values[i].copy();
                        proof {
                            let inner = self.scopes[found as int];
                            assert(inner.well_formed());
                            lemma_bound_value(
                                inner.names_model(),
                                inner.values_model(),
                                inner.names@.len() as int,
                                i as int,
                            );
                            assert(self@[found as int] == inner.model());
                            assert(inner.names_model()[i as int] == name@);
                            assert(inner.values_model()[i as int] == value@);
                            assert(inner.model().values[name@] == value@);
                            assert(resolve(self@, scope as int, name@) == Some(found as int));
                        }
                        Some(value)
                    },
                    None => {
                        proof {
                            lemma_resolve_bounds(self@, scope as int, name@);
                            assert(self@[found as int] == self.scopes[found as int].model());
                        }
                        None
                    },
                }
            },
            None => None,
        }
    }
}

/// A name that was just defined in a scope is found from that scope, with
/// the value it was given.
pub proof fn lemma_define_then_fetch(
    scopes: Seq<SpecScope>,
    scope: int,
    name: Seq<char>,
    value: SpecLiteral,
)
    requires
        0 <= scope < scopes.len(),
    ensures
        fetched(defined(scopes, scope, name, value), scope, name) == Some(value),
{
}

/// A new scope sees every name as its parent does, and opening it changes
/// nothing that is seen from an older scope.
pub proof fn lemma_enclose_sees_parent(
    scopes: Seq<SpecScope>,
    parent: usize,
    from: int,
    name: Seq<char>,
)
    requires
        parent < scopes.len(),
        0 <= from < scopes.len(),
    ensures
        fetched(enclosed(scopes, parent), scopes.len() as int, name) == fetched(
            scopes,
            parent as int,
            name,
        ),
        fetched(enclosed(scopes, parent), from, name) == fetched(scopes, from, name),
{
    let after = enclosed(scopes, parent);
    lemma_resolve_prefix(scopes, after, from, name);
    lemma_resolve_prefix(scopes, after, parent as int, name);
    lemma_resolve_bounds(scopes, from, name);
    lemma_resolve_bounds(scopes, parent as int, name);
    assert(!after[scopes.len() as int].values.contains_key(name));
    assert(resolve(after, scopes.len() as int, name) == resolve(after, parent as int, name));
}

/// Lookups from a scope do not depend on scopes that were opened later.
pub proof fn lemma_resolve_prefix(
    scopes: Seq<SpecScope>,
    longer: Seq<SpecScope>,
    from: int,
    name: Seq<char>,
)
    requires
        scopes.len() <= longer.len(),
        forall|i: int| 0 <= i < scopes.len() ==> scopes[i] == longer[i],
        0 <= from < scopes.len(),
    ensures
        resolve(longer, from, name) == resolve(scopes, from, name),
    decreases from,
{
    if !scopes[from].values.contains_key(name) {
        match scopes[from].enclosing {
            Some(parent) => {
                if parent < from {
                    lemma_resolve_prefix(scopes, longer, parent as int, name);
                }
            },
            None => {},
        }
    }
}

/// Shadowing: a definition in an inner scope hides the outer binding from
/// the inner scope and leaves what the outer scope sees as it was.
pub proof fn lemma_shadowing(
    scopes: Seq<SpecScope>,
    inner: int,
    outer: int,
    name: Seq<char>,
    value: SpecLiteral,
)
    requires
        nested(scopes),
        0 <= outer < inner < scopes.len(),
    ensures
        fetched(defined(scopes, inner, name, value), inner, name) == Some(value),
        fetched(defined(scopes, inner, name, value), outer, name) == fetched(scopes, outer, name),
{
    lemma_define_elsewhere(scopes, inner, outer, name, name, value);
}

/// A definition in one scope changes nothing that is seen from a scope that
/// was opened before it.
pub proof fn lemma_define_elsewhere(
    scopes: Seq<SpecScope>,
    scope: int,
    from: int,
    name: Seq<char>,
    other: Seq<char>,
    value: SpecLiteral,
)
    requires
        nested(scopes),
        0 <= from < scope < scopes.len(),
    ensures
        resolve(defined(scopes, scope, name, value), from, other) == resolve(scopes, from, other),
        fetched(defined(scopes, scope, name, value), from, other) == fetched(scopes, from, other),
    decreases from,
{
    let after = defined(scopes, scope, name, value);
    assert(after[from] == scopes[from]);
    if !scopes[from].values.contains_key(other) {
        match scopes[from].enclosing {
            Some(parent) => {
                if parent < from {
                    lemma_define_elsewhere(scopes, scope, parent as int, name, other, value);
                }
            },
            None => {},
        }
    }
}

/// An assignment succeeds exactly where a lookup does, and after it the
/// lookup gives the assigned value.
pub proof fn lemma_assign_then_fetch(
    scopes: Seq<SpecScope>,
    scope: int,
    name: Seq<char>,
    value: SpecLiteral,
)
    requires
        nested(scopes),
    ensures
        resolve(scopes, scope, name) is Some <==> fetched(scopes, scope, name) is Some,
        resolve(scopes, scope, name) is Some ==> fetched(
            assigned(scopes, scope, name, value),
            scope,
            name,
        ) == Some(value),
        resolve(scopes, scope, name) is None ==> assigned(scopes, scope, name, value) == scopes,
    decreases scope,
{
    if 0 <= scope < scopes.len() && !scopes[scope].values.contains_key(name) {
        match scopes[scope].enclosing {
            Some(parent) => {
                if parent < scope {
                    lemma_assign_then_fetch(scopes, parent as int, name, value);
                    lemma_resolve_bounds(scopes, parent as int, name);
                    let after = assigned(scopes, scope, name, value);
                    if resolve(scopes, scope, name) is Some {
                        let found = resolve(scopes, scope, name)->Some_0;
                        assert(after[scope] == scopes[scope]);
                        assert(resolve(after, scope, name) == resolve(after, parent as int, name));
                    }
                }
            },
            None => {},
        }
    }
}

/// A name is found in a scope at or outside the one the lookup starts from,
/// and that scope binds it.
pub proof fn lemma_resolve_bounds(scopes: Seq<SpecScope>, scope: int, name: Seq<char>)
    ensures
        resolve(scopes, scope, name) matches Some(found) ==> 0 <= found <= scope && found
            < scopes.len() && scopes[found].values.contains_key(name),
    decreases scope,
{
    if 0 <= scope < scopes.len() && !scopes[scope].values.contains_key(name) {
        match scopes[scope].enclosing {
            Some(parent) => {
                if parent < scope {
                    lemma_resolve_bounds(scopes, parent as int, name);
                }
            },
            None => {},
        }
    }
}

} // verus!

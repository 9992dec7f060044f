//! Named binding slots and the per-level scope that owns them.

use vstd::prelude::*;

verus! {

/// Whether a binding may be reassigned after its definition.
#[derive(Clone, Copy, PartialEq, Eq, Structural, Debug)]
pub enum Mutability {
    Immutable,
    Mutable,
}

/// One binding slot: a name, its mutability, and the slot index the defining
/// scope assigned to it. Expressions hold resolved copies of these values, so
/// a later redefinition of the name never changes an expression already built.
#[derive(Debug)]
pub struct Variable {
    pub name: String,
    pub mutability: Mutability,
    pub index: usize,
}

impl Variable {
    /// An exact copy of this binding slot.
    pub fn duplicate(&self) -> (r: Variable)
        ensures
            r == *self,
    {
        Variable { name: self.name.clone(), mutability: self.mutability, index: self.index }
    }
}

/// The binding currently mapped to `name` among `entries`: the last entry
/// carrying that name, if any. Later entries shadow earlier ones.
pub open spec fn lookup_in(entries: Seq<Variable>, name: Seq<char>) -> Option<Variable>
    decreases entries.len(),
{
    if entries.len() == 0 {
        None
    } else if entries.last().name@ == name {
        Some(entries.last())
    } else {
        lookup_in(entries.drop_last(), name)
    }
}

/// An ordered mapping from names to binding slots for one lexical level
/// (the locals of one body, or one module's globals). Entry `i` holds slot
/// index `i`; defining a name again appends a fresh slot that shadows the
/// earlier one for subsequent lookups.
#[derive(Debug)]
pub struct Scope {
    pub entries: Vec<Variable>,
}

impl Scope {
    /// Each entry's slot index is its position: slots are assigned in
    /// definition order and never reused.
    pub open spec fn wf(self) -> bool {
        forall|i: int|
            0 <= i < self.entries@.len() ==> (#[trigger] self.entries@[i]).index == i
    }

    /// The binding `name` currently resolves to in this scope.
    pub open spec fn spec_lookup(self, name: Seq<char>) -> Option<Variable> {
        lookup_in(self.entries@, name)
    }

    pub fn new() -> (r: Scope)
        ensures
            r.entries@ == Seq::<Variable>::empty(),
            r.wf(),
    {
        Scope { entries: Vec::new() }
    }

    /// Binds `name` to a fresh slot with the next free index, shadowing any
    /// earlier binding of the same name. Always succeeds; redefinition is
    /// legal and intentional.
    pub fn define(&mut self, name: String, mutability: Mutability) -> (r: Variable)
        requires
            old(self).wf(),
        ensures
            final(self).wf(),
            final(self).entries@ == old(self).entries@.push(r),
            r.name == name,
            r.mutability == mutability,
            r.index == old(self).entries@.len(),
            final(self).spec_lookup(name@) == Some(r),
    {
        let v = Variable { name, mutability, index: self.entries.len() };
        let r = v.duplicate();
        self.entries.push(v);
        proof {
            assert(self.entries@.drop_last() =~= old(self).entries@);
        }
        r
    }

    /// Looks the name up, returning a copy of the current binding if one
    /// exists, independent of its mutability.
    pub fn lookup(&self, name: &String) -> (r: Option<Variable>)
        ensures
            r == self.spec_lookup(name@),
    {
        let mut i: usize = self.entries.len();
        proof {
            assert(self.entries@.subrange(0, i as int) =~= self.entries@);
        }
        while i > 0
            invariant
                i <= self.entries@.len(),
                lookup_in(self.entries@, name@) == lookup_in(
                    self.entries@.subrange(0, i as int),
                    name@,
                ),
            decreases i,
        {
            i = i - 1;
            let prefix_len: usize = i + 1;
            proof {
                let pl = prefix_len as int;
                assert(self.entries@.subrange(0, pl).last() == self.entries@[i as int]);
                assert(self.entries@.subrange(0, pl).drop_last() =~= self.entries@.subrange(
                    0,
                    i as int,
                ));
            }
            if self.entries[i].name == *name {
                return Some(self.entries[i].duplicate());
            }
        }
        proof {
            assert(self.entries@.subrange(0, 0) =~= Seq::<Variable>::empty());
        }
        None
    }

    /// The number of slots assigned so far; grows monotonically with each
    /// definition.
    pub fn slot_count(&self) -> (r: usize)
        ensures
            r == self.entries@.len(),
    {
        self.entries.len()
    }
}

/// A successful lookup returns a binding that carries the looked-up name.
pub proof fn lemma_lookup_in_name(entries: Seq<Variable>, name: Seq<char>)
    ensures
        match lookup_in(entries, name) {
            Some(v) => v.name@ == name,
            None => true,
        },
    decreases entries.len(),
{
    if entries.len() > 0 && entries.last().name@ != name {
        lemma_lookup_in_name(entries.drop_last(), name);
    }
}

/// Redefining a name yields a distinct slot: after the second definition,
/// lookup resolves to the second binding, while the first binding's slot
/// index differs from the second's, and the first `Variable` value itself is
/// unchanged by the redefinition, so expressions built before it keep the
/// first slot.
pub proof fn lemma_redefinition(
    entries: Seq<Variable>,
    v1: Variable,
    v2: Variable,
    name: Seq<char>,
)
    requires
        v1.name@ == name,
        v2.name@ == name,
        v1.index == entries.len(),
        v2.index == entries.len() + 1,
    ensures
        lookup_in(entries.push(v1).push(v2), name) == Some(v2),
        lookup_in(entries.push(v1), name) == Some(v1),
        v1.index != v2.index,
{
    assert(entries.push(v1).push(v2).last() == v2);
    assert(entries.push(v1).last() == v1);
}

} // verus!

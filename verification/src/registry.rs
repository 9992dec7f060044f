//! The module registry: memoizes resolved modules by name and guards cyclic
//! imports. Per name the state moves from unseen (no entry) to pending, and
//! from pending to resolved or failed; an entry, in whatever state, stops a
//! re-entrant import from resolving the same name again.

use vstd::prelude::*;
use crate::module::Module;

verus! {

/// The resolution state of one module name the registry has seen: being
/// resolved right now (the cycle guard), resolved to a module, or failed to
/// resolve.
#[derive(Debug)]
pub enum ModuleState {
    Pending,
    Resolved(Module),
    Failed,
}

/// The state recorded last for `name`, or `None` when the name was never
/// seen.
pub open spec fn assoc_get(s: Seq<(String, ModuleState)>, name: Seq<char>) -> Option<ModuleState>
    decreases s.len(),
{
    if s.len() == 0 {
        None
    } else if s.last().0@ == name {
        Some(s.last().1)
    } else {
        assoc_get(s.drop_last(), name)
    }
}

/// Mapping from module name to resolution state. Recording a state appends;
/// a later record for the same name shadows the earlier one, so the set of
/// names only grows.
#[derive(Debug)]
pub struct Registry {
    pub entries: Vec<(String, ModuleState)>,
}

impl Registry {
    /// Every name an entry was recorded for.
    pub open spec fn names(self) -> Set<Seq<char>> {
        Set::new(
            |n: Seq<char>|
                exists|i: int|
                    0 <= i < self.entries@.len() && (#[trigger] self.entries@[i]).0@ == n,
        )
    }

    pub open spec fn contains_name(self, name: Seq<char>) -> bool {
        self.names().contains(name)
    }

    /// The state last recorded for `name`.
    pub open spec fn spec_get(self, name: Seq<char>) -> Option<ModuleState> {
        assoc_get(self.entries@, name)
    }

    pub fn new() -> (r: Registry)
        ensures
            r.entries@ == Seq::<(String, ModuleState)>::empty(),
            r.names() =~= Set::<Seq<char>>::empty(),
    {
        Registry { entries: Vec::new() }
    }

    /// Whether any state was ever recorded for `name`.
    pub fn contains(&self, name: &String) -> (r: bool)
        ensures
            r == self.contains_name(name@),
    {
        let mut i: usize = 0;
        while i < self.entries.len()
            invariant
                i <= self.entries@.len(),
                forall|j: int| 0 <= j < i ==> (#[trigger] self.entries@[j]).0@ != name@,
            decreases self.entries@.len() - i,
        {
            if self.entries[i].0 == *name {
                return true;
            }
            i = i + 1;
        }
        false
    }

    /// Records `state` for `name`, shadowing any earlier record.
    pub fn insert(&mut self, name: String, state: ModuleState)
        ensures
            final(self).entries@ == old(self).entries@.push((name, state)),
            final(self).names() =~= old(self).names().insert(name@),
            final(self).spec_get(name@) == Some(state),
    {
        self.entries.push((name, state));
        proof {
            let post = self.entries@;
            let pre = old(self).entries@;
            assert forall|n: Seq<char>| self.names().contains(n) implies old(
                self,
            ).names().insert(name@).contains(n) by {
                let i = choose|i: int| 0 <= i < post.len() && (#[trigger] post[i]).0@ == n;
                if i < pre.len() {
                    assert(pre[i].0@ == n);
                }
            }
            assert forall|n: Seq<char>| old(self).names().insert(name@).contains(n) implies self
                .names().contains(n) by {
                if n == name@ {
                    assert(post[post.len() - 1].0@ == n);
                } else {
                    let i = choose|i: int| 0 <= i < pre.len() && (#[trigger] pre[i]).0@ == n;
                    assert(post[i].0@ == n);
                }
            }
            assert(post.drop_last() =~= pre);
        }
    }

    /// The state last recorded for `name`, if any.
    pub fn get(&self, name: &String) -> (r: Option<&ModuleState>)
        ensures
            match r {
                Some(state) => self.spec_get(name@) == Some(*state),
                None => self.spec_get(name@) is None,
            },
    {
        let ghost entries = self.entries@;
        let mut i: usize = self.entries.len();
        proof {
            assert(entries.subrange(0, i as int) =~= entries);
        }
        while i > 0
            invariant
                i <= entries.len(),
                entries == self.entries@,
                assoc_get(entries, name@) == assoc_get(entries.subrange(0, i as int), name@),
            decreases i,
        {
            i = i - 1;
            proof {
                let pl = i + 1;
                assert(entries.subrange(0, pl).last() == entries[i as int]);
                assert(entries.subrange(0, pl).drop_last() =~= entries.subrange(0, i as int));
            }
            if self.entries[i].0 == *name {
                return Some(&self.entries[i].1);
            }
        }
        proof {
            assert(entries.subrange(0, 0) =~= Seq::<(String, ModuleState)>::empty());
        }
        None
    }

    /// Whether `name` is recorded as resolved to a module.
    pub fn is_resolved(&self, name: &String) -> (r: bool)
        ensures
            r == (self.spec_get(name@) matches Some(ModuleState::Resolved(_))),
    {
        match self.get(name) {
            Some(state) => match state {
                ModuleState::Resolved(_) => true,
                _ => false,
            },
            None => false,
        }
    }

    /// How many records the registry holds.
    pub fn len(&self) -> (r: usize)
        ensures
            r == self.entries@.len(),
    {
        self.entries.len()
    }
}

/// A name once recorded stays recorded: a record for another name changes
/// neither the presence nor the state of this one.
pub proof fn lemma_assoc_get_push_other(
    s: Seq<(String, ModuleState)>,
    e: (String, ModuleState),
    name: Seq<char>,
)
    requires
        e.0@ != name,
    ensures
        assoc_get(s.push(e), name) == assoc_get(s, name),
{
    assert(s.push(e).drop_last() =~= s);
}

} // verus!

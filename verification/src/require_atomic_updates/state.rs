//! What has been read, and whether a suspension came after.

use crate::ast::SymbolId;
use crate::fx::{set_clone, set_contains, set_extend, set_insert, set_remove};
use rustc_hash::FxHashSet;
use vstd::prelude::*;

verus! {

broadcast use vstd::std_specs::hash::group_hash_axioms;

/// A variable that the analysis follows.
#[derive(Debug, Clone, Copy, PartialEq, Eq, Structural)]
pub enum TrackedValue {
    Symbol(SymbolId),
    /// A global variable, by its place among the known ones.
    Global(u32),
}

impl TrackedValue {
    /// The number under which sets hold the value.
    pub open spec fn spec_code(self) -> u64 {
        match self {
            TrackedValue::Symbol(s) => (2 * s) as u64,
            TrackedValue::Global(g) => (2 * g + 1) as u64,
        }
    }

    /// The number under which sets hold the value.
    pub fn code(self) -> (r: u64)
        ensures
            r == self.spec_code(),
    {
        match self {
            TrackedValue::Symbol(s) => 2 * (s as u64),
            TrackedValue::Global(g) => 2 * (g as u64) + 1,
        }
    }
}

/// The values whose numbers are in a set.
pub open spec fn values(codes: Set<u64>) -> Set<TrackedValue> {
    Set::new(|k: TrackedValue| codes.contains(k.spec_code()))
}

/// Sets of values are changed by changing the sets of their numbers.
proof fn lemma_values(codes: Set<u64>, other: Set<u64>, key: TrackedValue)
    ensures
        values(codes.insert(key.spec_code())) == values(codes).insert(key),
        values(codes.remove(key.spec_code())) == values(codes).remove(key),
        values(codes.union(other)) == values(codes).union(values(other)),
        values(Set::empty()) == Set::<TrackedValue>::empty(),
{
    assert(values(codes.insert(key.spec_code())) =~= values(codes).insert(key));
    assert(values(codes.remove(key.spec_code())) =~= values(codes).remove(key));
    assert(values(codes.union(other)) =~= values(codes).union(values(other)));
    assert(values(Set::empty()) =~= Set::<TrackedValue>::empty());
}

/// Variables, and objects whose properties, were read since the last suspension (fresh) or
/// before it and not again since (outdated).
#[derive(Debug)]
pub struct State {
    pub fresh_var: FxHashSet<u64>,
    pub outdated_var: FxHashSet<u64>,
    pub fresh_prop: FxHashSet<u64>,
    pub outdated_prop: FxHashSet<u64>,
}

/// What a [`State`] holds.
#[verifier::ext_equal]
pub ghost struct Reads {
    pub fresh_var: Set<TrackedValue>,
    pub outdated_var: Set<TrackedValue>,
    pub fresh_prop: Set<TrackedValue>,
    pub outdated_prop: Set<TrackedValue>,
}

impl Reads {
    /// Nothing was read.
    pub open spec fn none() -> Reads {
        Reads {
            fresh_var: Set::empty(),
            outdated_var: Set::empty(),
            fresh_prop: Set::empty(),
            outdated_prop: Set::empty(),
        }
    }

    /// After a suspension: whatever was fresh is outdated.
    pub open spec fn outdate(self) -> Reads {
        Reads {
            fresh_var: Set::empty(),
            outdated_var: self.outdated_var.union(self.fresh_var),
            fresh_prop: Set::empty(),
            outdated_prop: self.outdated_prop.union(self.fresh_prop),
        }
    }

    /// After a read of the variable.
    pub open spec fn mark_var_read(self, key: TrackedValue) -> Reads {
        Reads {
            fresh_var: self.fresh_var.insert(key),
            outdated_var: self.outdated_var.remove(key),
            ..self
        }
    }

    /// After a read of a property of the object.
    pub open spec fn mark_prop_read(self, key: TrackedValue) -> Reads {
        Reads {
            fresh_prop: self.fresh_prop.insert(key),
            outdated_prop: self.outdated_prop.remove(key),
            ..self
        }
    }

    /// After either of two ways through the program.
    pub open spec fn merge(self, other: Reads) -> Reads {
        Reads {
            fresh_var: self.fresh_var.union(other.fresh_var),
            outdated_var: self.outdated_var.union(other.outdated_var),
            fresh_prop: self.fresh_prop.union(other.fresh_prop),
            outdated_prop: self.outdated_prop.union(other.outdated_prop),
        }
    }
}

impl View for State {
    type V = Reads;

    open spec fn view(&self) -> Reads {
        Reads {
            fresh_var: values(self.fresh_var@),
            outdated_var: values(self.outdated_var@),
            fresh_prop: values(self.fresh_prop@),
            outdated_prop: values(self.outdated_prop@),
        }
    }
}

/// Moves every member of `from` to `to`.
fn move_all(from: &mut FxHashSet<u64>, to: &mut FxHashSet<u64>)
    ensures
        final(from)@ == Set::<u64>::empty(),
        final(to)@ == old(to)@.union(old(from)@),
{
    let mut taken: FxHashSet<u64> = FxHashSet::default();
    core::mem::swap(&mut taken, from);
    set_extend(to, taken);
}

impl State {
    /// A state in which nothing was read.
    pub fn new() -> (r: State)
        ensures
            r@ == Reads::none(),
    {
        let r = State {
            fresh_var: FxHashSet::default(),
            outdated_var: FxHashSet::default(),
            fresh_prop: FxHashSet::default(),
            outdated_prop: FxHashSet::default(),
        };
        proof {
            lemma_values(Set::empty(), Set::empty(), TrackedValue::Global(0));
            assert(r@ =~= Reads::none());
        }
        r
    }

    /// A suspension: whatever was fresh is outdated.
    pub fn outdate(&mut self)
        ensures
            final(self)@ == old(self)@.outdate(),
    {
        let ghost before = *self;
        move_all(&mut self.fresh_var, &mut self.outdated_var);
        move_all(&mut self.fresh_prop, &mut self.outdated_prop);
        proof {
            let any = TrackedValue::Global(0);
            lemma_values(before.outdated_var@, before.fresh_var@, any);
            lemma_values(before.outdated_prop@, before.fresh_prop@, any);
            assert(self@ =~= before@.outdate());
        }
    }

    /// A read of the variable.
    pub fn mark_var_read(&mut self, key: TrackedValue)
        ensures
            final(self)@ == old(self)@.mark_var_read(key),
    {
        let ghost before = *self;
        set_remove(&mut self.outdated_var, &key.code());
        set_insert(&mut self.fresh_var, key.code());
        proof {
            lemma_values(before.outdated_var@, Set::empty(), key);
            lemma_values(before.fresh_var@, Set::empty(), key);
            assert(self@ =~= before@.mark_var_read(key));
        }
    }

    /// A read of a property of the object.
    pub fn mark_prop_read(&mut self, key: TrackedValue)
        ensures
            final(self)@ == old(self)@.mark_prop_read(key),
    {
        let ghost before = *self;
        set_remove(&mut self.outdated_prop, &key.code());
        set_insert(&mut self.fresh_prop, key.code());
        proof {
            lemma_values(before.outdated_prop@, Set::empty(), key);
            lemma_values(before.fresh_prop@, Set::empty(), key);
            assert(self@ =~= before@.mark_prop_read(key));
        }
    }

    /// The state after either of two ways through the program.
    pub fn merge(&mut self, other: State)
        ensures
            final(self)@ == old(self)@.merge(other@),
    {
        let ghost before = *self;
        let State { fresh_var, outdated_var, fresh_prop, outdated_prop } = other;
        set_extend(&mut self.fresh_var, fresh_var);
        set_extend(&mut self.outdated_var, outdated_var);
        set_extend(&mut self.fresh_prop, fresh_prop);
        set_extend(&mut self.outdated_prop, outdated_prop);
        proof {
            let any = TrackedValue::Global(0);
            lemma_values(before.fresh_var@, fresh_var@, any);
            lemma_values(before.outdated_var@, outdated_var@, any);
            lemma_values(before.fresh_prop@, fresh_prop@, any);
            lemma_values(before.outdated_prop@, outdated_prop@, any);
            assert(self@ =~= before@.merge(other@));
        }
    }

    /// The same state once more.
    pub fn snapshot(&self) -> (r: State)
        ensures
            r@ == self@,
    {
        State {
            fresh_var: set_clone(&self.fresh_var),
            outdated_var: set_clone(&self.outdated_var),
            fresh_prop: set_clone(&self.fresh_prop),
            outdated_prop: set_clone(&self.outdated_prop),
        }
    }

    /// Whether a write to the variable would rest on an outdated value.
    pub fn has_outdated_var(&self, key: TrackedValue) -> (r: bool)
        ensures
            r == self@.outdated_var.contains(key),
    {
        set_contains(&self.outdated_var, &key.code())
    }

    /// Whether a write to a property of the object would rest on an outdated state.
    pub fn has_outdated_prop(&self, key: TrackedValue) -> (r: bool)
        ensures
            r == self@.outdated_prop.contains(key),
    {
        set_contains(&self.outdated_prop, &key.code())
    }
}

} // verus!

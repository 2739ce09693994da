//! Which variables the analysis of one function follows.

use super::state::TrackedValue;
use crate::ast::{AssignmentTarget, Expression, IdentifierReference, ScopeId, SymbolId, Wrapper};
use crate::fx::set_contains;
use crate::semantic::Scoping;
use crate::text::str_eq;
use rustc_hash::FxHashSet;
use vstd::prelude::*;

verus! {

broadcast use vstd::std_specs::hash::group_hash_axioms;

/// The first place of `name` among `names`, from `from` on.
pub open spec fn index_from(names: Seq<String>, name: Seq<char>, from: int) -> Option<u32>
    decreases names.len() - from,
{
    if 0 <= from < names.len() {
        if names[from]@ == name {
            Some(from as u32)
        } else {
            index_from(names, name, from + 1)
        }
    } else {
        None
    }
}

/// What stays the same while one function is analysed.
#[derive(Debug)]
pub struct Frame<'a> {
    pub scoping: &'a Scoping,
    /// The names of the known global variables.
    pub globals: &'a Vec<String>,
    /// The scope of the function.
    pub func_scope_id: ScopeId,
    /// The symbols that the parameters of the function bind.
    pub parameter_symbols: FxHashSet<u32>,
    /// Whether writes to properties are left alone.
    pub allow_properties: bool,
}

/// What a [`Frame`] holds.
#[verifier::ext_equal]
pub ghost struct Scene {
    pub scoping: Scoping,
    pub globals: Seq<String>,
    pub func_scope_id: ScopeId,
    pub parameter_symbols: Set<SymbolId>,
    pub allow_properties: bool,
}

impl<'a> View for Frame<'a> {
    type V = Scene;

    open spec fn view(&self) -> Scene {
        Scene {
            scoping: *self.scoping,
            globals: self.globals@,
            func_scope_id: self.func_scope_id,
            parameter_symbols: self.parameter_symbols@,
            allow_properties: self.allow_properties,
        }
    }
}

impl Scene {
    /// The tables are ones that can be walked and numbered.
    pub open spec fn wf(self) -> bool {
        &&& self.scoping.scopes.wf()
        &&& self.globals.len() <= u32::MAX
    }

    /// Whether the symbol belongs to a scope round the function.
    pub open spec fn spec_is_outer(self, symbol_id: SymbolId) -> bool {
        let symbols = self.scoping.symbols.symbols@;
        &&& symbol_id < symbols.len()
        &&& symbols[symbol_id as int].scope_id != self.func_scope_id
        &&& self.scoping.scopes.chain(self.func_scope_id).contains(
            symbols[symbol_id as int].scope_id,
        )
    }

    /// Whether the scope is one of a function.
    pub open spec fn starts_function(self, scope_id: ScopeId) -> bool {
        let flags = self.scoping.scopes.spec_flags(scope_id);
        flags.is_function || flags.is_arrow
    }

    /// Whether `scope_id` is in the function itself: no scope of another function lies between.
    pub open spec fn is_direct(self, scope_id: ScopeId) -> bool {
        let chain = self.scoping.scopes.chain(scope_id);
        exists|k: int|
            0 <= k < chain.len() && #[trigger] chain[k] == self.func_scope_id && forall|j: int|
                0 <= j < k ==> !self.starts_function(#[trigger] chain[j])
    }

    /// Whether some use of the symbol is not in the function itself.
    pub open spec fn spec_has_escape(self, symbol_id: SymbolId) -> bool {
        let symbols = self.scoping.symbols.symbols@;
        &&& symbol_id < symbols.len()
        &&& exists|i: int|
            0 <= i < symbols[symbol_id as int].references@.len() && !self.is_direct(
                (#[trigger] symbols[symbol_id as int].references@[i]).scope_id,
            )
    }

    /// Whether other code can write the variable while the function is suspended.
    pub open spec fn spec_tracked_for_var(self, key: TrackedValue) -> bool {
        match key {
            TrackedValue::Symbol(s) => self.spec_is_outer(s) || self.spec_has_escape(s),
            TrackedValue::Global(_) => true,
        }
    }

    /// Whether other code can write a property of the object while the function is suspended.
    pub open spec fn spec_tracked_for_prop(self, key: TrackedValue) -> bool {
        &&& !self.allow_properties
        &&& match key {
            TrackedValue::Symbol(s) => self.spec_is_outer(s) || self.parameter_symbols.contains(s)
                || self.spec_has_escape(s),
            TrackedValue::Global(_) => true,
        }
    }

    /// The variable that an identifier stands for, where it is a declared or a known one.
    pub open spec fn spec_reference_key(self, ident: IdentifierReference) -> Option<TrackedValue> {
        match ident.symbol_id {
            Some(s) => Some(TrackedValue::Symbol(s)),
            None => match index_from(self.globals, ident.name@, 0) {
                Some(i) => Some(TrackedValue::Global(i)),
                None => None,
            },
        }
    }

    /// The name of a variable. A symbol that is in no table has an empty one.
    pub open spec fn spec_key_name(self, key: TrackedValue) -> Seq<char> {
        match key {
            TrackedValue::Symbol(s) => if s < self.scoping.symbols.symbols@.len() {
                self.scoping.symbols.symbols@[s as int].name@
            } else {
                Seq::empty()
            },
            TrackedValue::Global(g) => if g < self.globals.len() {
                self.globals[g as int]@
            } else {
                Seq::empty()
            },
        }
    }

    /// The variable at the bottom of a chain of member accesses.
    pub open spec fn spec_deepest_object_key(self, expr: Expression) -> Option<TrackedValue>
        decreases expr,
    {
        match expr {
            Expression::Identifier(ident) => self.spec_reference_key(ident),
            Expression::StaticMember(m) => self.spec_deepest_object_key(m.object),
            Expression::ComputedMember(m) => self.spec_deepest_object_key(m.object),
            Expression::PrivateField(m) => self.spec_deepest_object_key(m.object),
            Expression::Wrapped(w) if w.wrapper != Wrapper::TSInstantiation =>
                self.spec_deepest_object_key(w.expression),
            _ => None,
        }
    }

    /// The variable whose property a target is.
    pub open spec fn spec_target_object_key(self, target: AssignmentTarget) -> Option<TrackedValue> {
        match target {
            AssignmentTarget::ComputedMember(m) => self.spec_deepest_object_key(m.object),
            AssignmentTarget::StaticMember(m) => self.spec_deepest_object_key(m.object),
            AssignmentTarget::PrivateField(m) => self.spec_deepest_object_key(m.object),
            AssignmentTarget::Wrapped(w) => if w.wrapper == Wrapper::TSInstantiation
                || w.wrapper == Wrapper::Parenthesized {
                None
            } else {
                self.spec_deepest_object_key(w.expression)
            },
            _ => None,
        }
    }
}

impl<'a> Frame<'a> {
    /// Whether the symbol belongs to a scope round the function.
    pub fn is_outer(&self, symbol_id: SymbolId) -> (r: bool)
        requires
            self@.wf(),
        ensures
            r == self@.spec_is_outer(symbol_id),
    {
        let symbols = &self.scoping.symbols.symbols;
        if (symbol_id as usize) >= symbols.len() {
            return false;
        }
        let symbol_scope = symbols[symbol_id as usize].scope_id;
        if symbol_scope == self.func_scope_id {
            return false;
        }
        let scopes = &self.scoping.scopes;
        let mut scope = self.func_scope_id;
        let ghost whole = scopes.chain(self.func_scope_id);
        proof {
            assert(whole.skip(0) =~= whole);
        }
        let ghost mut k: int = 0;
        loop
            invariant
                scopes.wf(),
                0 <= k < whole.len(),
                scopes.chain(scope) == whole.skip(k),
                whole[k] == scope,
                whole == scopes.chain(self.func_scope_id),
                forall|j: int| 0 <= j <= k ==> whole[j] != symbol_scope,
                *scopes == self.scoping.scopes,
                (symbol_id as int) < self.scoping.symbols.symbols@.len(),
                symbol_scope == self.scoping.symbols.symbols@[symbol_id as int].scope_id,
                symbol_scope != self.func_scope_id,
            decreases scope,
        {
            match scopes.get_parent_id(scope) {
                None => {
                    proof {
                        assert(whole.skip(k) =~= seq![scope]);
                        assert(whole.len() == k + 1) by {
                            assert(whole.skip(k).len() == 1);
                        }
                    }
                    return false;
                },
                Some(parent) => {
                    proof {
                        assert(whole.skip(k) == seq![scope] + scopes.chain(parent));
                        assert(scopes.chain(parent).len() > 0);
                        assert(whole.skip(k).len() > 1);
                        assert(whole.skip(k + 1) =~= whole.skip(k).skip(1));
                        assert(whole.skip(k + 1) =~= scopes.chain(parent));
                        assert(scopes.chain(parent)[0] == parent);
                        assert(whole.skip(k + 1)[0] == whole[k + 1]);
                        k = k + 1;
                    }
                    if parent == symbol_scope {
                        proof {
                            assert(whole.contains(symbol_scope));
                        }
                        return true;
                    }
                    scope = parent;
                },
            }
        }
    }

    /// Whether `scope_id` is in another function than the analysed one.
    pub fn is_in_nested_function(&self, scope_id: ScopeId) -> (r: bool)
        requires
            self@.wf(),
        ensures
            r == !self@.is_direct(scope_id),
        decreases scope_id,
    {
        let scopes = &self.scoping.scopes;
        let ghost chain = scopes.chain(scope_id);
        proof {
            assert(chain[0] == scope_id);
        }
        if scope_id == self.func_scope_id {
            proof {
                assert(chain[0] == self.func_scope_id);
            }
            return false;
        }
        let flags = scopes.get_flags(scope_id);
        if flags.is_function || flags.is_arrow {
            proof {
                assert(self@.starts_function(chain[0]));
            }
            return true;
        }
        match scopes.get_parent_id(scope_id) {
            Some(parent) => {
                let r = self.is_in_nested_function(parent);
                proof {
                    let rest = scopes.chain(parent);
                    assert(chain == seq![scope_id] + rest);
                    assert forall|j: int| 0 < j < chain.len() implies #[trigger] chain[j] == rest[j - 1] by {}
                    assert forall|j: int| 0 <= j < rest.len() implies #[trigger] rest[j] == chain[j + 1] by {}
                    if self@.is_direct(parent) {
                        let k = choose|k: int|
                            0 <= k < rest.len() && #[trigger] rest[k] == self.func_scope_id && forall|
                                j: int,
                            | 0 <= j < k ==> !self@.starts_function(#[trigger] rest[j]);
                        assert(chain[k + 1] == self.func_scope_id);
                        assert forall|j: int| 0 <= j < k + 1 implies !self@.starts_function(
                            #[trigger] chain[j],
                        ) by {
                            if j > 0 {
                                assert(!self@.starts_function(rest[j - 1]));
                            }
                        }
                    }
                    if self@.is_direct(scope_id) {
                        let k = choose|k: int|
                            0 <= k < chain.len() && #[trigger] chain[k] == self.func_scope_id
                                && forall|j: int|
                                0 <= j < k ==> !self@.starts_function(#[trigger] chain[j]);
                        assert(rest[k - 1] == self.func_scope_id);
                        assert forall|j: int| 0 <= j < k - 1 implies !self@.starts_function(
                            #[trigger] rest[j],
                        ) by {
                            assert(!self@.starts_function(chain[j + 1]));
                        }
                    }
                }
                r
            },
            None => {
                proof {
                    assert(chain.len() == 1);
                }
                true
            },
        }
    }

    /// Whether some use of the symbol is not in the function itself.
    pub fn has_escape(&self, symbol_id: SymbolId) -> (r: bool)
        requires
            self@.wf(),
        ensures
            r == self@.spec_has_escape(symbol_id),
    {
        let symbols = &self.scoping.symbols.symbols;
        if (symbol_id as usize) >= symbols.len() {
            return false;
        }
        let references = &symbols[symbol_id as usize].references;
        let mut i: usize = 0;
        while i < references.len()
            invariant
                i <= references.len(),
                self@.wf(),
                (symbol_id as int) < self.scoping.symbols.symbols@.len(),
                references@ == self.scoping.symbols.symbols@[symbol_id as int].references@,
                forall|j: int|
                    0 <= j < i ==> self@.is_direct((#[trigger] references@[j]).scope_id),
            decreases references.len() - i,
        {
            if self.is_in_nested_function(references[i].scope_id) {
                proof {
                    let symbols = self.scoping.symbols.symbols@;
                    assert(!self@.is_direct(symbols[symbol_id as int].references@[i as int].scope_id));
                }
                return true;
            }
            i += 1;
        }
        false
    }

    /// Whether a parameter of the function binds the symbol.
    pub fn is_parameter(&self, symbol_id: SymbolId) -> (r: bool)
        ensures
            r == self.parameter_symbols@.contains(symbol_id),
    {
        set_contains(&self.parameter_symbols, &symbol_id)
    }

    /// Whether other code can write the variable while the function is suspended.
    pub fn tracked_for_symbol_var(&self, symbol_id: SymbolId) -> (r: bool)
        requires
            self@.wf(),
        ensures
            r == self@.spec_tracked_for_var(TrackedValue::Symbol(symbol_id)),
    {
        self.is_outer(symbol_id) || self.has_escape(symbol_id)
    }

    /// Whether other code can write a property of the object while the function is suspended.
    pub fn tracked_for_symbol_prop(&self, symbol_id: SymbolId) -> (r: bool)
        requires
            self@.wf(),
        ensures
            r == self@.spec_tracked_for_prop(TrackedValue::Symbol(symbol_id)),
    {
        if self.allow_properties {
            return false;
        }
        self.is_outer(symbol_id) || self.is_parameter(symbol_id) || self.has_escape(symbol_id)
    }

    /// The variable that an identifier stands for, where it is a declared or a known one.
    pub fn reference_key(&self, ident: &IdentifierReference) -> (r: Option<TrackedValue>)
        requires
            self@.wf(),
        ensures
            r == self@.spec_reference_key(*ident),
    {
        if let Some(symbol_id) = ident.symbol_id {
            return Some(TrackedValue::Symbol(symbol_id));
        }
        let mut i: usize = 0;
        while i < self.globals.len()
            invariant
                i <= self.globals@.len(),
                self@.wf(),
                index_from(self.globals@, ident.name@, 0) == index_from(
                    self.globals@,
                    ident.name@,
                    i as int,
                ),
                ident.symbol_id is None,
            decreases self.globals@.len() - i,
        {
            if str_eq(self.globals[i].as_str(), ident.name.as_str()) {
                return Some(TrackedValue::Global(i as u32));
            }
            i += 1;
        }
        None
    }

    /// Whether other code can write the variable while the function is suspended.
    pub fn tracked_for_var(&self, key: TrackedValue) -> (r: bool)
        requires
            self@.wf(),
        ensures
            r == self@.spec_tracked_for_var(key),
    {
        match key {
            TrackedValue::Symbol(symbol_id) => self.tracked_for_symbol_var(symbol_id),
            TrackedValue::Global(_) => true,
        }
    }

    /// Whether other code can write a property of the object while the function is suspended.
    pub fn tracked_for_prop(&self, key: TrackedValue) -> (r: bool)
        requires
            self@.wf(),
        ensures
            r == self@.spec_tracked_for_prop(key),
    {
        if self.allow_properties {
            return false;
        }
        match key {
            TrackedValue::Symbol(symbol_id) => self.tracked_for_symbol_prop(symbol_id),
            TrackedValue::Global(_) => true,
        }
    }

    /// The name of a variable.
    pub fn key_name(&self, key: TrackedValue) -> (r: &str)
        ensures
            r@ == self@.spec_key_name(key),
    {
        proof {
            reveal_strlit("");
            assert(""@ =~= Seq::<char>::empty());
        }
        match key {
            TrackedValue::Symbol(s) => {
                let symbols = &self.scoping.symbols.symbols;
                if (s as usize) < symbols.len() {
                    symbols[s as usize].name.as_str()
                } else {
                    ""
                }
            },
            TrackedValue::Global(g) => {
                if (g as usize) < self.globals.len() {
                    self.globals[g as usize].as_str()
                } else {
                    ""
                }
            },
        }
    }

    /// The variable at the bottom of a chain of member accesses.
    pub fn deepest_object_key(&self, expr: &Expression) -> (r: Option<TrackedValue>)
        requires
            self@.wf(),
        ensures
            r == self@.spec_deepest_object_key(*expr),
        decreases expr,
    {
        match expr {
            Expression::Identifier(ident) => self.reference_key(ident),
            Expression::StaticMember(m) => self.deepest_object_key(&m.object),
            Expression::ComputedMember(m) => self.deepest_object_key(&m.object),
            Expression::PrivateField(m) => self.deepest_object_key(&m.object),
            Expression::Wrapped(w) => {
                if w.wrapper != Wrapper::TSInstantiation {
                    self.deepest_object_key(&w.expression)
                } else {
                    None
                }
            },
            _ => None,
        }
    }

    /// The variable whose property a target is.
    pub fn target_object_key(&self, target: &AssignmentTarget) -> (r: Option<TrackedValue>)
        requires
            self@.wf(),
        ensures
            r == self@.spec_target_object_key(*target),
    {
        match target {
            AssignmentTarget::ComputedMember(m) => self.deepest_object_key(&m.object),
            AssignmentTarget::StaticMember(m) => self.deepest_object_key(&m.object),
            AssignmentTarget::PrivateField(m) => self.deepest_object_key(&m.object),
            AssignmentTarget::Wrapped(w) => {
                if w.wrapper == Wrapper::TSInstantiation || w.wrapper == Wrapper::Parenthesized {
                    None
                } else {
                    self.deepest_object_key(&w.expression)
                }
            },
            _ => None,
        }
    }
}

} // verus!

//! Scopes, symbols and the uses of symbols.

use crate::ast::{ScopeId, SymbolId};
use crate::text::str_eq;
use vstd::prelude::*;

verus! {

/// The identity of a node in the table of nodes.
pub type NodeId = u32;

/// What kind of scope a scope is.
#[derive(Debug, Clone, Copy, PartialEq, Eq, Structural)]
pub struct ScopeFlags {
    /// The scope of a function of any form.
    pub is_function: bool,
    /// The scope of an arrow function.
    pub is_arrow: bool,
}

impl ScopeFlags {
    /// The flags of a block.
    #[verifier::allow_in_spec]
    pub fn block() -> ScopeFlags
        returns
            (ScopeFlags { is_function: false, is_arrow: false }),
    {
        ScopeFlags { is_function: false, is_arrow: false }
    }

    /// The flags of a function that is no arrow function.
    #[verifier::allow_in_spec]
    pub fn function() -> ScopeFlags
        returns
            (ScopeFlags { is_function: true, is_arrow: false }),
    {
        ScopeFlags { is_function: true, is_arrow: false }
    }
}

/// A scope, with the one round it.
#[derive(Debug, Clone, Copy, PartialEq, Eq, Structural)]
pub struct Scope {
    pub parent_id: Option<ScopeId>,
    pub flags: ScopeFlags,
}

/// The scopes of a program. A scope is named by its place in the list.
#[derive(Debug)]
pub struct ScopeTree {
    pub scopes: Vec<Scope>,
}

impl ScopeTree {
    /// Every scope comes after the one round it.
    pub open spec fn wf(self) -> bool {
        &&& self.scopes@.len() <= u32::MAX
        &&& forall|i: int|
            0 <= i < self.scopes@.len() ==> (#[trigger] self.scopes@[i].parent_id matches Some(p)
                ==> p < i)
    }

    /// The scope round `scope_id`. A scope that is not in the tree has none.
    pub open spec fn spec_parent_id(self, scope_id: ScopeId) -> Option<ScopeId> {
        if scope_id < self.scopes@.len() {
            self.scopes@[scope_id as int].parent_id
        } else {
            None
        }
    }

    /// The flags of `scope_id`. A scope that is not in the tree counts as a block.
    pub open spec fn spec_flags(self, scope_id: ScopeId) -> ScopeFlags {
        if scope_id < self.scopes@.len() {
            self.scopes@[scope_id as int].flags
        } else {
            ScopeFlags { is_function: false, is_arrow: false }
        }
    }

    /// `scope_id` and the scopes round it, from the inside out.
    pub open spec fn chain(self, scope_id: ScopeId) -> Seq<ScopeId>
        decreases scope_id,
    {
        match self.spec_parent_id(scope_id) {
            Some(parent) if parent < scope_id => seq![scope_id] + self.chain(parent),
            _ => seq![scope_id],
        }
    }

    /// The scope round `scope_id`.
    pub fn get_parent_id(&self, scope_id: ScopeId) -> (r: Option<ScopeId>)
        requires
            self.wf(),
        ensures
            r == self.spec_parent_id(scope_id),
            r matches Some(p) ==> p < scope_id,
    {
        if (scope_id as usize) < self.scopes.len() {
            self.scopes[scope_id as usize].parent_id
        } else {
            None
        }
    }

    /// The flags of `scope_id`.
    pub fn get_flags(&self, scope_id: ScopeId) -> (r: ScopeFlags)
        ensures
            r == self.spec_flags(scope_id),
    {
        if (scope_id as usize) < self.scopes.len() {
            self.scopes[scope_id as usize].flags
        } else {
            ScopeFlags::block()
        }
    }

    /// Adds a scope inside `parent_id`, and names it.
    pub fn add_scope(&mut self, parent_id: ScopeId, flags: ScopeFlags) -> (r: ScopeId)
        requires
            old(self).wf(),
            parent_id < old(self).scopes@.len(),
            old(self).scopes@.len() < u32::MAX,
        ensures
            final(self).wf(),
            r == old(self).scopes@.len(),
            final(self).scopes@ == old(self).scopes@.push(
                (Scope { parent_id: Some(parent_id), flags }),
            ),
    {
        let id = self.scopes.len() as u32;
        self.scopes.push(Scope { parent_id: Some(parent_id), flags });
        id
    }
}

/// A use of a symbol.
#[derive(Debug, Clone, Copy, PartialEq, Eq, Structural)]
pub struct Reference {
    /// The scope that the use stands in.
    pub scope_id: ScopeId,
    /// The identifier, in the table of nodes.
    pub node_id: NodeId,
    pub is_write: bool,
}

/// What kind of symbol a symbol is. Of the other kinds, such as constants and classes, neither
/// holds.
#[derive(Debug, Clone, Copy, PartialEq, Eq, Structural)]
pub struct SymbolFlags {
    /// A variable that belongs to the function round it.
    pub is_function_scoped_variable: bool,
    /// A name that is imported.
    pub is_import: bool,
}

impl SymbolFlags {
    /// The flags of a variable that belongs to the function round it.
    #[verifier::allow_in_spec]
    pub fn function_scoped_variable() -> SymbolFlags
        returns
            (SymbolFlags { is_function_scoped_variable: true, is_import: false }),
    {
        SymbolFlags { is_function_scoped_variable: true, is_import: false }
    }

    /// The flags of a name that is imported.
    #[verifier::allow_in_spec]
    pub fn import() -> SymbolFlags
        returns
            (SymbolFlags { is_function_scoped_variable: false, is_import: true }),
    {
        SymbolFlags { is_function_scoped_variable: false, is_import: true }
    }
}

/// A symbol of the program.
#[derive(Debug)]
pub struct Symbol {
    pub name: String,
    pub flags: SymbolFlags,
    /// The scope that declares it.
    pub scope_id: ScopeId,
    /// The nodes that declare it, in the table of nodes.
    pub declarations: Vec<NodeId>,
    /// Where it is used.
    pub references: Vec<Reference>,
}

/// The symbols of a program. A symbol is named by its place in the list.
#[derive(Debug)]
pub struct SymbolTable {
    pub symbols: Vec<Symbol>,
}

impl SymbolTable {
    /// Whether the table holds the symbol.
    pub open spec fn has(self, symbol_id: SymbolId) -> bool {
        symbol_id < self.symbols@.len()
    }

    /// The first symbol that `scope_id` declares under `name`, from `from` on.
    pub open spec fn binding_from(self, scope_id: ScopeId, name: Seq<char>, from: int) -> Option<
        SymbolId,
    >
        decreases self.symbols@.len() - from,
    {
        if 0 <= from < self.symbols@.len() {
            if self.symbols@[from].scope_id == scope_id && self.symbols@[from].name@ == name {
                Some(from as u32)
            } else {
                self.binding_from(scope_id, name, from + 1)
            }
        } else {
            None
        }
    }

    /// The symbol that `scope_id` itself declares under `name`.
    pub open spec fn binding(self, scope_id: ScopeId, name: Seq<char>) -> Option<SymbolId> {
        self.binding_from(scope_id, name, 0)
    }

    /// The symbol that `scope_id` itself declares under `name`.
    pub fn get_binding(&self, scope_id: ScopeId, name: &str) -> (r: Option<SymbolId>)
        requires
            self.symbols@.len() <= u32::MAX,
        ensures
            r == self.binding(scope_id, name@),
    {
        let mut i: usize = 0;
        while i < self.symbols.len()
            invariant
                i <= self.symbols@.len(),
                self.symbols@.len() <= u32::MAX,
                self.binding(scope_id, name@) == self.binding_from(scope_id, name@, i as int),
            decreases self.symbols@.len() - i,
        {
            let symbol = &self.symbols[i];
            if symbol.scope_id == scope_id && str_eq(symbol.name.as_str(), name) {
                return Some(i as u32);
            }
            i += 1;
        }
        None
    }
}

/// The scopes and the symbols of a program.
#[derive(Debug)]
pub struct Scoping {
    pub scopes: ScopeTree,
    pub symbols: SymbolTable,
}

/// The first binding of `name` in a list of scopes.
pub open spec fn first_binding(symbols: SymbolTable, scopes: Seq<ScopeId>, name: Seq<char>) -> Option<
    SymbolId,
>
    decreases scopes.len(),
{
    if scopes.len() == 0 {
        None
    } else {
        match symbols.binding(scopes[0], name) {
            Some(s) => Some(s),
            None => first_binding(symbols, scopes.drop_first(), name),
        }
    }
}

/// The symbol that `name` stands for in `scope_id`: the innermost scope that declares it decides.
pub fn find_binding(
    scopes: &ScopeTree,
    symbols: &SymbolTable,
    scope_id: ScopeId,
    name: &str,
) -> (r: Option<SymbolId>)
    requires
        scopes.wf(),
        symbols.symbols@.len() <= u32::MAX,
    ensures
        r == first_binding(*symbols, scopes.chain(scope_id), name@),
    decreases scope_id,
{
    let found = symbols.get_binding(scope_id, name);
    if found.is_some() {
        return found;
    }
    match scopes.get_parent_id(scope_id) {
        Some(parent) => {
            proof {
                assert(scopes.chain(scope_id).drop_first() =~= scopes.chain(parent));
            }
            find_binding(scopes, symbols, parent, name)
        },
        None => {
            proof {
                assert(scopes.chain(scope_id).drop_first() =~= Seq::<ScopeId>::empty());
                assert(first_binding(*symbols, Seq::<ScopeId>::empty(), name@) is None);
            }
            None
        },
    }
}

/// The scopes round one are the scope itself and those round the one that it stands in; the
/// outermost scope, and one that is in no tree, have none round them.
pub proof fn law_scopes_round_a_scope(tree: ScopeTree, scope_id: ScopeId)
    requires
        tree.wf(),
    ensures
        tree.chain(scope_id)[0] == scope_id,
        scope_id < tree.scopes@.len() ==> (tree.scopes@[scope_id as int].parent_id matches Some(p)
            ==> tree.chain(scope_id) == seq![scope_id] + tree.chain(p)),
        scope_id >= tree.scopes@.len() || tree.scopes@[scope_id as int].parent_id is None
            ==> tree.chain(scope_id) == seq![scope_id],
{
    if scope_id < tree.scopes@.len() {
        if let Some(p) = tree.scopes@[scope_id as int].parent_id {
            assert(p < scope_id);
        }
    }
}

/// A scope declares a name by the first of its symbols that has it.
pub proof fn law_scopes_declare_by_their_symbols(
    table: SymbolTable,
    scope_id: ScopeId,
    name: Seq<char>,
)
    requires
        table.symbols@.len() <= u32::MAX,
    ensures
        match table.binding(scope_id, name) {
            Some(s) => s < table.symbols@.len() && table.symbols@[s as int].scope_id == scope_id
                && table.symbols@[s as int].name@ == name && forall|i: int|
                0 <= i < s ==> (#[trigger] table.symbols@[i]).scope_id != scope_id
                    || table.symbols@[i].name@ != name,
            None => forall|i: int|
                0 <= i < table.symbols@.len() ==> (#[trigger] table.symbols@[i]).scope_id
                    != scope_id || table.symbols@[i].name@ != name,
        },
{
    lemma_binding_from(table, scope_id, name, 0);
}

proof fn lemma_binding_from(table: SymbolTable, scope_id: ScopeId, name: Seq<char>, from: int)
    requires
        table.symbols@.len() <= u32::MAX,
        0 <= from,
    ensures
        match table.binding_from(scope_id, name, from) {
            Some(s) => from <= s < table.symbols@.len() && table.symbols@[s as int].scope_id
                == scope_id && table.symbols@[s as int].name@ == name && forall|i: int|
                from <= i < s ==> (#[trigger] table.symbols@[i]).scope_id != scope_id
                    || table.symbols@[i].name@ != name,
            None => forall|i: int|
                from <= i < table.symbols@.len() ==> (#[trigger] table.symbols@[i]).scope_id
                    != scope_id || table.symbols@[i].name@ != name,
        },
    decreases table.symbols@.len() - from,
{
    if from < table.symbols@.len() {
        let symbol = table.symbols@[from];
        if symbol.scope_id != scope_id || symbol.name@ != name {
            lemma_binding_from(table, scope_id, name, from + 1);
        }
    }
}

/// A name stands for what the innermost scope that declares it says.
pub proof fn law_the_innermost_scope_decides(
    table: SymbolTable,
    scopes: Seq<ScopeId>,
    name: Seq<char>,
)
    ensures
        match first_binding(table, scopes, name) {
            Some(s) => exists|k: int|
                0 <= k < scopes.len() && table.binding(#[trigger] scopes[k], name) == Some(s)
                    && forall|j: int|
                    0 <= j < k ==> table.binding(#[trigger] scopes[j], name) is None,
            None => forall|j: int|
                0 <= j < scopes.len() ==> table.binding(#[trigger] scopes[j], name) is None,
        },
    decreases scopes.len(),
{
    if scopes.len() > 0 && table.binding(scopes[0], name) is None {
        let rest = scopes.drop_first();
        law_the_innermost_scope_decides(table, rest, name);
        assert(forall|j: int| 0 <= j < rest.len() ==> #[trigger] rest[j] == scopes[j + 1]);
        if let Some(s) = first_binding(table, rest, name) {
            let k = choose|k: int|
                0 <= k < rest.len() && table.binding(#[trigger] rest[k], name) == Some(s)
                    && forall|j: int|
                    0 <= j < k ==> table.binding(#[trigger] rest[j], name) is None;
            assert(table.binding(scopes[k + 1], name) == Some(s));
            assert forall|j: int| 0 <= j < k + 1 implies table.binding(
                #[trigger] scopes[j],
                name,
            ) is None by {
                if j > 0 {
                    assert(rest[j - 1] == scopes[j]);
                }
            }
        } else {
            assert forall|j: int| 0 <= j < scopes.len() implies table.binding(
                #[trigger] scopes[j],
                name,
            ) is None by {
                if j > 0 {
                    assert(rest[j - 1] == scopes[j]);
                }
            }
        }
    } else if scopes.len() > 0 {
        assert(table.binding(scopes[0], name) is Some);
    }
}

} // verus!

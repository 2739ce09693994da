//! What the transforms share: the traversal, the source, and what is to be added to the program.

use crate::ast::shape::{Shape, has_shape, make_name, make_read};
use crate::ast::{Address, Expression, ScopeId, Span, Statement, SymbolId};
use crate::semantic::{Scope, ScopeFlags, Symbol, SymbolFlags, SymbolTable};
use crate::text::{is_slice, opt_view, slice, slice_of, str_eq, texts, views};
use crate::traverse::{
    Bound, BoundIdentifier, Made, MadeReference, TraverseCtx, TraverseScoping, bounds,
};
use crate::uid::{find_uid, uid};
use vstd::prelude::*;

verus! {

/// An import that is to be added to the program.
#[derive(Debug)]
pub struct NamedImport {
    pub source: String,
    pub imported: String,
    pub local: BoundIdentifier,
}

/// A statement that is to be put after another.
#[derive(Debug)]
pub struct InjectedStatement {
    pub address: Address,
    pub statement: Statement,
}

/// A `var` that is to be added to a scope.
#[derive(Debug)]
pub struct UidVar {
    pub scope_id: ScopeId,
    pub binding: BoundIdentifier,
    pub init: Expression,
}

/// The source, and what is to be added to the program.
#[derive(Debug)]
pub struct TransformState {
    pub source_text: String,
    /// The path of the source, where it is text.
    pub source_path: Option<String>,
    /// The last part of the path of the source, where there is one and it is text.
    pub source_file_name: Option<String>,
    /// The name that the source goes by where it has no path.
    pub filename: String,
    /// Whether the source is a module, and not a script.
    pub is_module: bool,
    /// The names that the program uses and does not declare.
    pub unresolved: Vec<String>,
    /// The imports to add, in order.
    pub named_imports: Vec<NamedImport>,
    /// The statements to put before all others, in order.
    pub top_level_statements: Vec<Statement>,
    /// The statements to put after others, in order.
    pub injected: Vec<InjectedStatement>,
    /// The variables to add, in order.
    pub var_declarations: Vec<UidVar>,
}

/// The context of a transform.
#[derive(Debug)]
pub struct TransformCtx {
    pub traverse: TraverseCtx,
    pub state: TransformState,
}

/// The names of symbols.
pub open spec fn symbol_names(symbols: Seq<Symbol>) -> Seq<Seq<char>> {
    symbols.map_values(|s: Symbol| s.name@)
}

/// A reference in a scope that reads a variable.
pub open spec fn reading_in(scope_id: ScopeId, bound: Bound) -> Made {
    naming_in(scope_id, bound.name, Some(bound.symbol_id))
}

/// References in a scope that read variables, in order.
pub open spec fn readings_in(scope_id: ScopeId, list: Seq<Bound>) -> Seq<Made> {
    list.map_values(|bound: Bound| reading_in(scope_id, bound))
}

/// A reference in a scope that reads a name.
pub open spec fn naming_in(
    scope_id: ScopeId,
    name: Seq<char>,
    symbol_id: Option<SymbolId>,
) -> Made {
    Made { name, symbol_id, scope_id, is_read: true, is_write: false }
}

/// A reference in a scope that writes a variable.
pub open spec fn writing_in(scope_id: ScopeId, bound: Bound) -> Made {
    Made {
        name: bound.name,
        symbol_id: Some(bound.symbol_id),
        scope_id,
        is_read: false,
        is_write: true,
    }
}

/// A symbol of a kind that was made under a name in a scope.
pub open spec fn is_new_symbol(
    symbol: Symbol,
    name: Seq<char>,
    scope_id: ScopeId,
    flags: SymbolFlags,
) -> bool {
    &&& symbol.name@ == name
    &&& symbol.flags == flags
    &&& symbol.scope_id == scope_id
    &&& symbol.declarations@.len() == 0
    &&& symbol.references@.len() == 0
}

impl TransformCtx {
    /// There is room for `n` more names.
    pub open spec fn has_names(self, n: int) -> bool {
        self.symbols().len() + self.state.unresolved@.len() + n <= u32::MAX
    }

    /// There is room for `n` more scopes.
    pub open spec fn has_scopes(self, n: int) -> bool {
        self.scopes().len() + n <= u32::MAX
    }

    /// The names that the program uses.
    pub open spec fn used_names(self) -> Seq<Seq<char>> {
        symbol_names(self.traverse.scoping.symbols.symbols@) + views(self.state.unresolved@)
    }

    /// The symbols.
    pub open spec fn symbols(self) -> Seq<Symbol> {
        self.traverse.scoping.symbols.symbols@
    }

    /// The scopes.
    pub open spec fn scopes(self) -> Seq<Scope> {
        self.traverse.scoping.scopes.scopes@
    }

    /// The same context with other symbols.
    pub open spec fn with_symbols(self, symbols: SymbolTable) -> TransformCtx {
        TransformCtx {
            traverse: TraverseCtx {
                scoping: TraverseScoping { symbols, ..self.traverse.scoping },
                ..self.traverse
            },
            ..self
        }
    }

    /// The references that were made.
    pub open spec fn made(self) -> Seq<Made> {
        self.traverse.scoping.spec_made()
    }

    /// The same context with other references that were made.
    pub open spec fn with_made(self, made: Vec<MadeReference>) -> TransformCtx {
        TransformCtx {
            traverse: TraverseCtx {
                scoping: TraverseScoping { made, ..self.traverse.scoping },
                ..self.traverse
            },
            ..self
        }
    }

    /// A reference in the current scope that reads a variable.
    pub open spec fn reading(self, bound: Bound) -> Made {
        reading_in(self.traverse.scoping.current_scope_id, bound)
    }

    /// A reference in the current scope that reads a name.
    pub open spec fn naming(self, name: Seq<char>, symbol_id: Option<SymbolId>) -> Made {
        naming_in(self.traverse.scoping.current_scope_id, name, symbol_id)
    }

    /// `self` is `before` with more references.
    pub open spec fn referred(self, before: TransformCtx, more: Seq<Made>) -> bool {
        &&& self == before.with_made(self.traverse.scoping.made)
        &&& self.made() == before.made() + more
    }

    /// An expression that reads a variable, with its reference.
    pub fn create_read_expression(&mut self, bound: &BoundIdentifier) -> (r: Expression)
        ensures
            has_shape(r, Shape::Read(bound@)),
            final(self).referred(*old(self), seq![old(self).reading(bound@)]),
    {
        let ghost before = self.made();
        self.traverse.scoping.create_reference(
            bound.name.as_str(),
            Some(bound.symbol_id),
            true,
            false,
        );
        proof {
            let one = old(self).reading(bound@);
            assert(before.push(one) =~= before + seq![one]);
        }
        make_read(bound)
    }

    /// References that read variables, in order.
    pub fn create_read_references(&mut self, list: &Vec<BoundIdentifier>)
        ensures
            final(self).referred(
                *old(self),
                readings_in(old(self).traverse.scoping.current_scope_id, bounds(list@)),
            ),
    {
        let ghost start = *self;
        let ghost all = readings_in(self.traverse.scoping.current_scope_id, bounds(list@));
        let mut i: usize = 0;
        proof {
            assert(start.made() + all.take(0) =~= start.made());
        }
        while i < list.len()
            invariant
                i <= list@.len(),
                start == *old(self),
                all == readings_in(start.traverse.scoping.current_scope_id, bounds(list@)),
                self.referred(start, all.take(i as int)),
            decreases list@.len() - i,
        {
            let ghost before = self.made();
            self.traverse.scoping.create_reference(
                list[i].name.as_str(),
                Some(list[i].symbol_id),
                true,
                false,
            );
            proof {
                assert(bounds(list@)[i as int] == list@[i as int]@);
                assert(self.made() =~= before.push(all[i as int]));
                assert(start.made() + all.take(i + 1) =~= before.push(all[i as int]));
            }
            i += 1;
        }
        proof {
            assert(all.take(list@.len() as int) =~= all);
        }
    }

    /// An expression that reads a name, with its reference.
    pub fn create_ident_expr(&mut self, name: &str, symbol_id: Option<SymbolId>) -> (r: Expression)
        ensures
            has_shape(r, Shape::Name { name: name@, symbol_id }),
            final(self).referred(*old(self), seq![old(self).naming(name@, symbol_id)]),
    {
        let ghost before = self.made();
        self.traverse.scoping.create_reference(name, symbol_id, true, false);
        proof {
            let one = old(self).naming(name@, symbol_id);
            assert(before.push(one) =~= before + seq![one]);
        }
        make_name(name, symbol_id)
    }

    /// The next new name from `base`, and its symbol.
    pub open spec fn next_uid(self, base: Seq<char>) -> Bound {
        Bound {
            name: uid(base, self.used_names()),
            symbol_id: self.symbols().len() as SymbolId,
        }
    }

    /// `self` is `before` with one more symbol, named by the next new name from `base`.
    pub open spec fn after_uid(
        self,
        before: TransformCtx,
        base: Seq<char>,
        scope_id: ScopeId,
        flags: SymbolFlags,
    ) -> bool {
        &&& self == before.with_symbols(self.traverse.scoping.symbols)
        &&& self.symbols().len() == before.symbols().len() + 1
        &&& self.symbols().drop_last() == before.symbols()
        &&& is_new_symbol(self.symbols().last(), uid(base, before.used_names()), scope_id, flags)
    }

    /// Makes a symbol of a kind, with a name that the program does not use.
    pub fn generate_uid(
        &mut self,
        base: &str,
        scope_id: ScopeId,
        flags: SymbolFlags,
    ) -> (r: BoundIdentifier)
        requires
            old(self).has_names(1),
        ensures
            r@ == old(self).next_uid(base@),
            final(self).after_uid(*old(self), base@, scope_id, flags),
            !old(self).used_names().contains(r@.name),
            final(self).used_names().contains(r@.name),
    {
        let ghost before = *self;
        let mut used: Vec<&str> = Vec::new();
        let symbols = &self.traverse.scoping.symbols.symbols;
        let n = symbols.len();
        let mut i: usize = 0;
        while i < n
            invariant
                i <= n,
                n == symbols@.len(),
                used@.len() == i,
                forall|j: int| 0 <= j < i ==> (#[trigger] used@[j])@ == symbols@[j].name@,
            decreases n - i,
        {
            used.push(symbols[i].name.as_str());
            i += 1;
        }
        let unresolved = &self.state.unresolved;
        let mut k: usize = 0;
        while k < unresolved.len()
            invariant
                k <= unresolved@.len(),
                n == symbols@.len(),
                used@.len() == n + k,
                forall|j: int| 0 <= j < n ==> (#[trigger] used@[j])@ == symbols@[j].name@,
                forall|j: int| n <= j < n + k ==> (#[trigger] used@[j])@ == unresolved@[j - n]@,
            decreases unresolved@.len() - k,
        {
            used.push(unresolved[k].as_str());
            k += 1;
        }
        proof {
            assert(texts(used@) =~= before.used_names());
        }
        let name = find_uid(base, &used);
        let symbol_id = n as u32;
        let symbol = Symbol {
            name: name.clone(),
            flags,
            scope_id,
            declarations: Vec::new(),
            references: Vec::new(),
        };
        self.traverse.scoping.symbols.symbols.push(symbol);
        proof {
            assert(self.symbols().drop_last() =~= before.symbols());
            let names = symbol_names(self.symbols());
            assert(names[n as int] == name@);
            assert(self.used_names()[n as int] == name@);
        }
        BoundIdentifier { name, symbol_id }
    }

    /// Makes a symbol of a kind in the outermost scope, with a name that the program does not use.
    pub fn generate_uid_in_root_scope(
        &mut self,
        base: &str,
        flags: SymbolFlags,
    ) -> (r: BoundIdentifier)
        requires
            old(self).has_names(1),
        ensures
            r@ == old(self).next_uid(base@),
            final(self).after_uid(*old(self), base@, 0, flags),
            !old(self).used_names().contains(r@.name),
            final(self).used_names().contains(r@.name),
    {
        self.generate_uid(base, 0, flags)
    }

    /// Adds a scope.
    pub fn create_child_scope(&mut self, parent_id: ScopeId, flags: ScopeFlags) -> (r: ScopeId)
        requires
            old(self).traverse.wf(),
            old(self).has_scopes(1),
            parent_id < old(self).scopes().len(),
        ensures
            r == old(self).scopes().len(),
            final(self).scopes() == old(self).scopes().push(
                (Scope { parent_id: Some(parent_id), flags }),
            ),
            final(self).traverse.ancestry == old(self).traverse.ancestry,
            final(self).traverse.scoping.symbols == old(self).traverse.scoping.symbols,
            final(self).traverse.scoping.made == old(self).traverse.scoping.made,
            final(self).traverse.scoping.current_scope_id
                == old(self).traverse.scoping.current_scope_id,
            final(self).traverse.scoping.current_hoist_scope_id
                == old(self).traverse.scoping.current_hoist_scope_id,
            final(self).state == old(self).state,
            final(self).traverse.wf(),
    {
        self.traverse.scoping.scopes.add_scope(parent_id, flags)
    }

    /// The text at a span.
    pub fn source_at(&self, span: Span) -> (r: &str)
        requires
            in_source(self.state.source_text@, span),
        ensures
            r@ == text_at(self.state.source_text@, span),
    {
        slice(self.state.source_text.as_str(), span.start, span.end)
    }
}

/// Whether a span is one of the text.
pub open spec fn in_source(text: Seq<char>, span: Span) -> bool {
    is_slice(text, span.start as int, span.end as int)
}

/// The text at a span.
pub open spec fn text_at(text: Seq<char>, span: Span) -> Seq<char> {
    slice_of(text, span.start as int, span.end as int)
}

/// The name of the source: the last part of its path, or else the name that it goes by.
pub open spec fn spec_source_basename(state: TransformState) -> Option<Seq<char>> {
    match state.source_file_name {
        Some(name) => Some(name@),
        None => if state.filename@.len() > 0 && state.filename@ != "unknown"@ {
            Some(state.filename@)
        } else {
            None
        },
    }
}

/// The name of the source: the last part of its path, or else the name that it goes by.
pub fn source_basename(state: &TransformState) -> (r: Option<String>)
    ensures
        opt_view(r) == spec_source_basename(*state),
{
    if let Some(name) = &state.source_file_name {
        return Some(name.clone());
    }
    if state.filename.as_str().unicode_len() > 0 && !str_eq(state.filename.as_str(), "unknown") {
        return Some(state.filename.clone());
    }
    None
}

/// A new name is that of no symbol, and of nothing that the program uses without declaring it. It
/// gets the next symbol.
pub proof fn law_new_names_are_not_used(ctx: TransformCtx, base: Seq<char>, i: int, k: int)
    ensures
        0 <= i < ctx.symbols().len() ==> ctx.symbols()[i].name@ != ctx.next_uid(base).name,
        0 <= k < ctx.state.unresolved@.len() ==> ctx.state.unresolved@[k]@ != ctx.next_uid(
            base,
        ).name,
        ctx.next_uid(base).symbol_id == ctx.symbols().len() as SymbolId,
{
    let used = ctx.used_names();
    crate::uid::law_uid_is_unused(base, used);
    if 0 <= i < ctx.symbols().len() {
        assert(used[i] == ctx.symbols()[i].name@);
    }
    if 0 <= k < ctx.state.unresolved@.len() {
        assert(used[ctx.symbols().len() + k] == ctx.state.unresolved@[k]@);
    }
}

} // verus!

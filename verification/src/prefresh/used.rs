//! The variables that a program uses as components.

use crate::ast::{Argument, CallExpression, Expression, Program, Statement, SymbolId};
use crate::fx::set_insert;
use crate::sites::{Place, Site, Walk, collect_sites, places, sites_of};
use crate::text::str_eq;
use rustc_hash::FxHashSet;
use vstd::prelude::*;

verus! {

broadcast use vstd::std_specs::hash::group_hash_axioms;

/// The name of a function that makes elements.
pub open spec fn is_jsx_like(name: Seq<char>) -> bool {
    name == "createElement"@ || name == "jsx"@ || name == "jsxDEV"@ || name == "jsxs"@
}

/// The name of a function that makes elements.
pub fn is_jsx_like_call(name: &str) -> (r: bool)
    ensures
        r == is_jsx_like(name@),
{
    str_eq(name, "createElement") || str_eq(name, "jsx") || str_eq(name, "jsxDEV") || str_eq(
        name,
        "jsxs",
    )
}

/// The variable that a call makes an element of.
pub open spec fn element_symbol(call: CallExpression) -> Option<SymbolId> {
    let makes_element = match call.callee {
        Expression::Identifier(ident) => is_jsx_like(ident.name@),
        Expression::StaticMember(m) => is_jsx_like(m.property@),
        _ => false,
    };
    if makes_element && call.arguments@.len() > 0 {
        match call.arguments@[0] {
            Argument::Expression(Expression::Identifier(ident)) => ident.symbol_id,
            _ => None,
        }
    } else {
        None
    }
}

/// The variable that a place uses as a component.
pub open spec fn used_symbol(place: Place) -> Option<SymbolId> {
    match place {
        Place::Call(call) => element_symbol(call),
        Place::JsxName(ident) => ident.symbol_id,
        _ => None,
    }
}

/// The variables that places use as components.
pub open spec fn used_symbols(list: Seq<Place>) -> Set<SymbolId> {
    Set::new(
        |symbol_id: SymbolId|
            exists|i: int|
                0 <= i < list.len() && used_symbol(#[trigger] list[i]) == Some(symbol_id),
    )
}

/// The variables that a program uses as components.
pub open spec fn used_in_jsx(body: Seq<Statement>) -> Set<SymbolId> {
    used_symbols(sites_of(Walk { attributes: false, only_required: false }, body))
}

/// The variable that a call makes an element of.
fn element_of(call: &CallExpression) -> (r: Option<SymbolId>)
    ensures
        r == element_symbol(*call),
{
    let makes_element = match &call.callee {
        Expression::Identifier(ident) => is_jsx_like_call(ident.name.as_str()),
        Expression::StaticMember(m) => is_jsx_like_call(m.property.as_str()),
        _ => false,
    };
    if !makes_element || call.arguments.len() == 0 {
        return None;
    }
    match &call.arguments[0] {
        Argument::Expression(Expression::Identifier(ident)) => ident.symbol_id,
        _ => None,
    }
}

/// The variables that a program uses as components.
pub fn collect_used_in_jsx_bindings(program: &Program) -> (r: FxHashSet<SymbolId>)
    ensures
        r@ == used_in_jsx(program.body@),
{
    let walk = Walk { attributes: false, only_required: false };
    let sites = collect_sites(walk, &program.body);
    let ghost all = places(sites@);
    let mut bindings: FxHashSet<SymbolId> = FxHashSet::default();
    let mut i: usize = 0;
    while i < sites.len()
        invariant
            i <= sites@.len(),
            all == places(sites@),
            forall|s: SymbolId| #[trigger]
                bindings@.contains(s) <==> exists|k: int|
                    0 <= k < i && used_symbol(#[trigger] all[k]) == Some(s),
        decreases sites@.len() - i,
    {
        let ghost before = bindings@;
        let symbol = match sites[i] {
            Site::Call(call) => element_of(call),
            Site::JsxName(ident) => ident.symbol_id,
            _ => None,
        };
        proof {
            assert(all[i as int] == sites@[i as int]@);
            assert(symbol == used_symbol(all[i as int]));
        }
        if let Some(symbol_id) = symbol {
            set_insert(&mut bindings, symbol_id);
        }
        proof {
            assert forall|s: SymbolId| #[trigger] bindings@.contains(s) <==> exists|k: int|
                0 <= k < i + 1 && used_symbol(#[trigger] all[k]) == Some(s) by {
                if before.contains(s) {
                    let k = choose|k: int| 0 <= k < i && used_symbol(#[trigger] all[k]) == Some(s);
                    assert(used_symbol(all[k]) == Some(s));
                }
                if used_symbol(all[i as int]) == Some(s) {
                    assert(bindings@.contains(s));
                }
            }
        }
        i += 1;
    }
    proof {
        assert(bindings@ =~= used_in_jsx(program.body@));
    }
    bindings
}

} // verus!

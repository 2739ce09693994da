//! Which variables are followed, and in which functions.

use super::frame::{Scene, index_from};
use super::state::TrackedValue;
use super::{
    RequireAtomicUpdates, bound_in_elements, bound_in_patterns, bound_in_properties, bound_symbols,
    parameter_symbols,
};
use crate::ast::{
    ArrowFunctionExpression, AssignmentTarget, BindingPattern, BindingProperty,
    ComputedMemberExpression, Expression, FormalParameters, Function, IdentifierReference,
    PrivateFieldExpression, ScopeId, StaticMemberExpression, SymbolId, WrappedExpression, Wrapper,
};
use crate::lint::{AstKind, LintContext};
use crate::semantic::{Scope, ScopeTree};
use vstd::prelude::*;

verus! {

/// Each scope of a path stands right inside the next.
pub open spec fn is_scope_path(scopes: Seq<Scope>, path: Seq<ScopeId>) -> bool {
    &&& path.len() > 0
    &&& forall|i: int| 0 <= i < path.len() ==> #[trigger] path[i] < scopes.len()
    &&& forall|i: int|
        0 <= i < path.len() - 1 ==> scopes[#[trigger] path[i] as int].parent_id == Some(path[i + 1])
}

/// A scope is that of a function, or of an arrow function.
pub open spec fn is_function_scope(scope: Scope) -> bool {
    scope.flags.is_function || scope.flags.is_arrow
}

/// A path goes along the scopes round its first one.
proof fn lemma_path(tree: ScopeTree, path: Seq<ScopeId>)
    requires
        tree.wf(),
        is_scope_path(tree.scopes@, path),
    ensures
        path.len() <= tree.chain(path[0]).len(),
        forall|i: int| 0 <= i < path.len() ==> tree.chain(path[0])[i] == #[trigger] path[i],
    decreases path.len(),
{
    if path.len() > 1 {
        let rest = path.drop_first();
        assert forall|i: int| 0 <= i < rest.len() - 1 implies tree.scopes@[
            #[trigger] rest[i] as int
        ].parent_id == Some(rest[i + 1]) by {
            assert(rest[i] == path[i + 1]);
            assert(tree.scopes@[path[i + 1] as int].parent_id == Some(path[i + 2]));
        }
        lemma_path(tree, rest);
        assert(tree.scopes@[path[0] as int].parent_id == Some(path[1]));
        assert(tree.chain(path[0]) =~= seq![path[0]] + tree.chain(path[1]));
        assert forall|i: int| 0 <= i < path.len() implies tree.chain(path[0])[i]
            == #[trigger] path[i] by {
            if i > 0 {
                assert(rest[i - 1] == path[i]);
            }
        }
    }
}

/// A variable that is declared in a scope round the function is followed, and so are its
/// properties, unless they are left alone.
pub proof fn law_variables_from_outside_are_followed(
    scene: Scene,
    symbol_id: SymbolId,
    path: Seq<ScopeId>,
)
    requires
        scene.wf(),
        is_scope_path(scene.scoping.scopes.scopes@, path),
        path.len() > 1,
        path[0] == scene.func_scope_id,
        symbol_id < scene.scoping.symbols.symbols@.len(),
        scene.scoping.symbols.symbols@[symbol_id as int].scope_id == path.last(),
    ensures
        scene.spec_tracked_for_var(TrackedValue::Symbol(symbol_id)),
        scene.spec_tracked_for_prop(TrackedValue::Symbol(symbol_id)) == !scene.allow_properties,
{
    let tree = scene.scoping.scopes;
    lemma_path(tree, path);
    assert(path[path.len() - 1] == path.last());
    assert(tree.chain(path[0])[path.len() - 1] == path.last());
    lemma_descends(tree.scopes@, path);
}

/// Scopes come before those inside them.
proof fn lemma_descends(scopes: Seq<Scope>, path: Seq<ScopeId>)
    requires
        is_scope_path(scopes, path),
        path.len() > 1,
        forall|i: int|
            0 <= i < scopes.len() ==> (#[trigger] scopes[i].parent_id matches Some(p) ==> p < i),
    ensures
        path.last() < path[0],
    decreases path.len(),
{
    assert(scopes[path[0] as int].parent_id == Some(path[1]));
    let rest = path.drop_first();
    if rest.len() > 1 {
        assert forall|i: int| 0 <= i < rest.len() - 1 implies scopes[
            #[trigger] rest[i] as int
        ].parent_id == Some(rest[i + 1]) by {
            assert(rest[i] == path[i + 1]);
            assert(scopes[path[i + 1] as int].parent_id == Some(path[i + 2]));
        }
        lemma_descends(scopes, rest);
    }
}

/// A variable that another function uses is followed: one use stands in the scope of a function
/// that the path from the use outward meets before the analysed one.
pub proof fn law_variables_used_elsewhere_are_followed(
    scene: Scene,
    symbol_id: SymbolId,
    use_index: int,
    path: Seq<ScopeId>,
)
    requires
        scene.wf(),
        is_scope_path(scene.scoping.scopes.scopes@, path),
        symbol_id < scene.scoping.symbols.symbols@.len(),
        ({
            let symbol = scene.scoping.symbols.symbols@[symbol_id as int];
            0 <= use_index < symbol.references@.len() && symbol.references@[use_index].scope_id
                == path[0]
        }),
        forall|i: int| 0 <= i < path.len() ==> #[trigger] path[i] != scene.func_scope_id,
        is_function_scope(scene.scoping.scopes.scopes@[path.last() as int]),
    ensures
        scene.spec_tracked_for_var(TrackedValue::Symbol(symbol_id)),
        scene.spec_tracked_for_prop(TrackedValue::Symbol(symbol_id)) == !scene.allow_properties,
{
    let tree = scene.scoping.scopes;
    let symbol = scene.scoping.symbols.symbols@[symbol_id as int];
    lemma_path(tree, path);
    let chain = tree.chain(path[0]);
    let last = path.len() - 1;
    assert(path[last] == path.last());
    assert(chain[last] == path.last());
    if scene.is_direct(path[0]) {
        let k = choose|k: int|
            0 <= k < chain.len() && #[trigger] chain[k] == scene.func_scope_id && forall|j: int|
                0 <= j < k ==> !scene.starts_function(#[trigger] chain[j]);
        if k <= last {
            assert(path[k] != scene.func_scope_id);
        } else {
            assert(scene.starts_function(chain[last]));
        }
    }
    assert(!scene.is_direct(symbol.references@[use_index].scope_id));
}

/// A scope is in the function itself: the path outward comes to the function before any other.
pub open spec fn is_within(scopes: Seq<Scope>, path: Seq<ScopeId>, func_scope_id: ScopeId) -> bool {
    &&& is_scope_path(scopes, path)
    &&& path.last() == func_scope_id
    &&& forall|i: int|
        0 <= i < path.len() - 1 ==> !is_function_scope(scopes[#[trigger] path[i] as int])
}

/// A variable of the function that no other function uses is not followed. Of its properties, those
/// of parameters alone are.
pub proof fn law_own_variables_are_not_followed(
    scene: Scene,
    symbol_id: SymbolId,
    paths: Seq<Seq<ScopeId>>,
)
    requires
        scene.wf(),
        symbol_id < scene.scoping.symbols.symbols@.len(),
        ({
            let symbol = scene.scoping.symbols.symbols@[symbol_id as int];
            &&& symbol.scope_id == scene.func_scope_id
            &&& paths.len() == symbol.references@.len()
            &&& forall|i: int|
                0 <= i < paths.len() ==> is_within(
                    scene.scoping.scopes.scopes@,
                    #[trigger] paths[i],
                    scene.func_scope_id,
                ) && paths[i][0] == symbol.references@[i].scope_id
        }),
    ensures
        !scene.spec_tracked_for_var(TrackedValue::Symbol(symbol_id)),
        scene.spec_tracked_for_prop(TrackedValue::Symbol(symbol_id)) == (!scene.allow_properties
            && scene.parameter_symbols.contains(symbol_id)),
{
    let tree = scene.scoping.scopes;
    let symbol = scene.scoping.symbols.symbols@[symbol_id as int];
    assert forall|i: int| 0 <= i < symbol.references@.len() implies scene.is_direct(
        (#[trigger] symbol.references@[i]).scope_id,
    ) by {
        let path = paths[i];
        lemma_path(tree, path);
        let chain = tree.chain(path[0]);
        let k = path.len() - 1;
        assert(path[k] == path.last());
        assert(chain[k] == scene.func_scope_id);
        assert forall|j: int| 0 <= j < k implies !scene.starts_function(#[trigger] chain[j]) by {
            assert(chain[j] == path[j]);
            assert(!is_function_scope(tree.scopes@[path[j] as int]));
        }
    }
}

/// An identifier that is bound stands for its symbol. Another stands for the first global variable
/// that has its name, if one has, and is then shown under that name; else it stands for nothing.
/// Global variables are always followed.
pub proof fn law_identifiers_stand_for_variables(scene: Scene, ident: IdentifierReference)
    requires
        scene.wf(),
    ensures
        ident.symbol_id matches Some(s) ==> scene.spec_reference_key(ident) == Some(
            TrackedValue::Symbol(s),
        ),
        ident.symbol_id is None ==> match scene.spec_reference_key(ident) {
            Some(TrackedValue::Global(g)) => g < scene.globals.len() && scene.globals[g as int]@
                == ident.name@ && scene.spec_key_name(TrackedValue::Global(g)) == ident.name@
                && scene.spec_tracked_for_var(TrackedValue::Global(g)) && (
            scene.spec_tracked_for_prop(TrackedValue::Global(g)) == !scene.allow_properties)
                && forall|i: int| 0 <= i < g ==> (#[trigger] scene.globals[i])@ != ident.name@,
            Some(TrackedValue::Symbol(_)) => false,
            None => forall|i: int|
                0 <= i < scene.globals.len() ==> (#[trigger] scene.globals[i])@ != ident.name@,
        },
{
    lemma_index(scene.globals, ident.name@, 0);
}

/// The place that is found is the first one.
proof fn lemma_index(names: Seq<String>, name: Seq<char>, from: int)
    requires
        0 <= from <= names.len() <= u32::MAX,
    ensures
        match index_from(names, name, from) {
            Some(g) => from <= g < names.len() && names[g as int]@ == name && forall|i: int|
                from <= i < g ==> (#[trigger] names[i])@ != name,
            None => forall|i: int| from <= i < names.len() ==> (#[trigger] names[i])@ != name,
        },
    decreases names.len() - from,
{
    if from < names.len() {
        if names[from]@ != name {
            lemma_index(names, name, from + 1);
        }
    }
}

/// A property belongs to the variable that its object belongs to, however it is accessed, and
/// parentheses and annotations change nothing.
pub proof fn law_properties_belong_to_their_objects(
    scene: Scene,
    a: StaticMemberExpression,
    b: ComputedMemberExpression,
    c: PrivateFieldExpression,
    w: WrappedExpression,
    ident: IdentifierReference,
)
    requires
        b.object == a.object,
        c.object == a.object,
        w.expression == a.object,
        w.wrapper != Wrapper::TSInstantiation,
    ensures
        ({
            let key = scene.spec_deepest_object_key(a.object);
            &&& scene.spec_deepest_object_key(Expression::StaticMember(Box::new(a))) == key
            &&& scene.spec_deepest_object_key(Expression::ComputedMember(Box::new(b))) == key
            &&& scene.spec_deepest_object_key(Expression::PrivateField(Box::new(c))) == key
            &&& scene.spec_deepest_object_key(Expression::Wrapped(Box::new(w))) == key
            &&& scene.spec_target_object_key(AssignmentTarget::StaticMember(Box::new(a))) == key
            &&& scene.spec_target_object_key(AssignmentTarget::ComputedMember(Box::new(b))) == key
            &&& scene.spec_target_object_key(AssignmentTarget::PrivateField(Box::new(c))) == key
            &&& scene.spec_target_object_key(AssignmentTarget::Wrapped(Box::new(w))) == (
            if w.wrapper == Wrapper::Parenthesized {
                None
            } else {
                key
            })
        }),
        scene.spec_target_object_key(AssignmentTarget::Identifier(ident)) is None,
        scene.spec_deepest_object_key(Expression::Identifier(ident)) == scene.spec_reference_key(
            ident,
        ),
{
}

/// A part of a pattern: the pattern itself, or a part of what it holds.
pub open spec fn is_part(part: BindingPattern, pattern: BindingPattern) -> bool {
    match pattern {
        BindingPattern::Identifier(_) => false,
        BindingPattern::Object(p) => p.rest == Some(part) || exists|i: int|
            0 <= i < p.properties@.len() && (#[trigger] p.properties@[i]).value == part,
        BindingPattern::Array(p) => p.rest == Some(part) || exists|i: int|
            0 <= i < p.elements@.len() && #[trigger] p.elements@[i] == Some(part),
        BindingPattern::Assignment(p) => p.left == part,
    }
}

/// A pattern binds what its parts bind, and nothing else; a name binds itself.
pub proof fn law_patterns_bind_what_their_parts_bind(pattern: BindingPattern, symbol_id: SymbolId)
    ensures
        pattern matches BindingPattern::Identifier(id) ==> (bound_symbols(pattern).contains(
            symbol_id,
        ) <==> symbol_id == id.symbol_id),
        !(pattern is Identifier) ==> (bound_symbols(pattern).contains(symbol_id) <==> exists|
            part: BindingPattern,
        | #[trigger] is_part(part, pattern) && bound_symbols(part).contains(symbol_id)),
{
    match pattern {
        BindingPattern::Identifier(_) => {},
        BindingPattern::Object(p) => {
            lemma_bound_in_properties(p.properties@, symbol_id);
            if bound_in_properties(p.properties@).contains(symbol_id) {
                let i = choose|i: int|
                    0 <= i < p.properties@.len() && bound_symbols(
                        (#[trigger] p.properties@[i]).value,
                    ).contains(symbol_id);
                assert(is_part(p.properties@[i].value, pattern));
            }
            if let Some(rest) = p.rest {
                assert(is_part(rest, pattern));
            }
        },
        BindingPattern::Array(p) => {
            lemma_bound_in_elements(p.elements@, symbol_id);
            if bound_in_elements(p.elements@).contains(symbol_id) {
                let i = choose|i: int|
                    0 <= i < p.elements@.len() && (#[trigger] p.elements@[i] matches Some(x)
                        && bound_symbols(x).contains(symbol_id));
                assert(p.elements@[i] == Some(p.elements@[i]->0));
                assert(is_part(p.elements@[i]->0, pattern));
            }
            if let Some(rest) = p.rest {
                assert(is_part(rest, pattern));
            }
        },
        BindingPattern::Assignment(p) => {
            assert(is_part(p.left, pattern));
        },
    }
}

proof fn lemma_bound_in_properties(list: Seq<BindingProperty>, symbol_id: SymbolId)
    ensures
        bound_in_properties(list).contains(symbol_id) <==> exists|i: int|
            0 <= i < list.len() && bound_symbols((#[trigger] list[i]).value).contains(symbol_id),
    decreases list.len(),
{
    if list.len() > 0 {
        let rest = list.drop_last();
        lemma_bound_in_properties(rest, symbol_id);
        assert(forall|i: int| 0 <= i < rest.len() ==> #[trigger] rest[i] == list[i]);
        assert(list[list.len() - 1] == list.last());
        if exists|i: int|
            0 <= i < rest.len() && bound_symbols((#[trigger] rest[i]).value).contains(symbol_id) {
            let i = choose|i: int|
                0 <= i < rest.len() && bound_symbols((#[trigger] rest[i]).value).contains(
                    symbol_id,
                );
            assert(bound_symbols(list[i].value).contains(symbol_id));
        }
        if exists|i: int|
            0 <= i < list.len() && bound_symbols((#[trigger] list[i]).value).contains(symbol_id) {
            let i = choose|i: int|
                0 <= i < list.len() && bound_symbols((#[trigger] list[i]).value).contains(
                    symbol_id,
                );
            if i < rest.len() {
                assert(bound_symbols(rest[i].value).contains(symbol_id));
            }
        }
    }
}

proof fn lemma_bound_in_elements(list: Seq<Option<BindingPattern>>, symbol_id: SymbolId)
    ensures
        bound_in_elements(list).contains(symbol_id) <==> exists|i: int|
            0 <= i < list.len() && (#[trigger] list[i] matches Some(x) && bound_symbols(x).contains(
                symbol_id,
            )),
    decreases list.len(),
{
    if list.len() > 0 {
        let rest = list.drop_last();
        lemma_bound_in_elements(rest, symbol_id);
        assert(forall|i: int| 0 <= i < rest.len() ==> #[trigger] rest[i] == list[i]);
        assert(list[list.len() - 1] == list.last());
        if bound_in_elements(rest).contains(symbol_id) {
            let i = choose|i: int|
                0 <= i < rest.len() && (#[trigger] rest[i] matches Some(x) && bound_symbols(
                    x,
                ).contains(symbol_id));
            assert(list[i] == rest[i]);
        }
        assert forall|i: int|
            0 <= i < list.len() && (#[trigger] list[i] matches Some(x) && bound_symbols(x).contains(
                symbol_id,
            )) implies bound_in_elements(list).contains(symbol_id) by {
            if i < rest.len() {
                assert(rest[i] == list[i]);
            }
        }
    }
}

proof fn lemma_bound_in_patterns(list: Seq<BindingPattern>, symbol_id: SymbolId)
    ensures
        bound_in_patterns(list).contains(symbol_id) <==> exists|i: int|
            0 <= i < list.len() && bound_symbols(#[trigger] list[i]).contains(symbol_id),
    decreases list.len(),
{
    if list.len() > 0 {
        let rest = list.drop_last();
        lemma_bound_in_patterns(rest, symbol_id);
        assert(forall|i: int| 0 <= i < rest.len() ==> #[trigger] rest[i] == list[i]);
        assert(list[list.len() - 1] == list.last());
        if bound_in_patterns(rest).contains(symbol_id) {
            let i = choose|i: int|
                0 <= i < rest.len() && bound_symbols(#[trigger] rest[i]).contains(symbol_id);
            assert(bound_symbols(list[i]).contains(symbol_id));
        }
        assert forall|i: int|
            0 <= i < list.len() && bound_symbols(#[trigger] list[i]).contains(
                symbol_id,
            ) implies bound_in_patterns(list).contains(symbol_id) by {
            if i < rest.len() {
                assert(bound_symbols(rest[i]).contains(symbol_id));
            }
        }
    }
}

/// Every parameter counts, the rest too, and nothing else does.
pub proof fn law_parameters_bind_their_patterns(params: FormalParameters, symbol_id: SymbolId)
    ensures
        parameter_symbols(params).contains(symbol_id) <==> (exists|i: int|
            0 <= i < params.items@.len() && bound_symbols(#[trigger] params.items@[i]).contains(
                symbol_id,
            )) || (params.rest matches Some(rest) && bound_symbols(rest).contains(symbol_id)),
{
    lemma_bound_in_patterns(params.items@, symbol_id);
}

/// Only a function that can be suspended gets reports: an `async` one or a generator, and both
/// alike. It gets them whatever form it has.
pub proof fn law_functions_that_can_be_suspended_are_analysed(
    rule: RequireAtomicUpdates,
    ctx: LintContext,
    func: Function,
    other: Function,
    arrow: ArrowFunctionExpression,
)
    requires
        other == (Function { is_async: other.is_async, generator: other.generator, ..func }),
        other.is_async || other.generator,
        arrow.scope_id == func.scope_id,
        arrow.params == func.params,
        func.body == Some(arrow.body),
    ensures
        !func.is_async && !func.generator ==> rule.spec_run(AstKind::Function(&func), ctx).len()
            == 0,
        func.is_async || func.generator ==> rule.spec_run(AstKind::Function(&func), ctx)
            == rule.spec_run(AstKind::Function(&other), ctx),
        !arrow.is_async ==> rule.spec_run(AstKind::ArrowFunctionExpression(&arrow), ctx).len() == 0,
        arrow.is_async ==> rule.spec_run(AstKind::ArrowFunctionExpression(&arrow), ctx)
            == rule.spec_run(AstKind::Function(&other), ctx),
{
}

} // verus!

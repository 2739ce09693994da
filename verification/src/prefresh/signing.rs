//! What is known of hooks, and what components and contexts are signed and kept by.

use super::contexts::{
    context_default, context_id, context_member, context_params_from, context_shape,
    context_suffix, count_of, create_context_symbols, creates_context, first_non_ts,
    imports_create_context, kept_context, numbered, spec_context_filename, statement_imports,
};
use super::hash::short_hash;
use super::signatures::{
    Called, Hook, Signed, after_call, builtin_hooks, call_references, hook_shape, is_use_hook,
    present_hooks, signature_arguments,
};
use super::{declaration_address, declared_variable, function_address, is_in_call};
use crate::ast::shape::{
    Shape, arguments_have_shapes, assign_member, call, computed, has_shape, member, returning,
};
use crate::ast::{
    Argument, AssignmentOperator, AssignmentTarget, CallExpression, Expression, Function,
    FunctionType, ImportDeclarationSpecifier, LogicalOperator, ModuleExportName,
    ObjectPropertyKind, PropertyKey, ScopeId, Statement, SymbolId, WrappedExpression, Wrapper,
    unshared,
};
use crate::semantic::first_binding;
use crate::text::decimal;
use crate::transform::{TransformCtx, TransformState, reading_in, text_at};
use crate::traverse::{Ancestor, AncestorType, Bound, bounds};
use vstd::prelude::*;

verus! {

/// A hook is named `use`, or `use` and an upper-case letter of ASCII and whatever follows.
pub proof fn law_names_of_hooks(name: Seq<char>)
    ensures
        is_use_hook(name) <==> name.len() >= 3 && name[0] == 'u' && name[1] == 's' && name[2] == 'e'
            && (name.len() == 3 || 'A' <= name[3] <= 'Z'),
{
    reveal_strlit("use");
    let start = "use"@;
    assert(start.len() == 3);
    if is_use_hook(name) {
        assert(start =~= name.subrange(0, 3));
        assert(start[0] == name[0] && start[1] == name[1] && start[2] == name[2]);
    }
    if name.len() >= 3 && name[0] == 'u' && name[1] == 's' && name[2] == 'e' {
        assert(start =~= name.subrange(0, 3));
    }
}

/// The function that a call names: by an identifier, or by a member of anything.
pub open spec fn called_name(call: CallExpression) -> Option<Seq<char>> {
    match call.callee {
        Expression::Identifier(ident) => Some(ident.name@),
        Expression::StaticMember(m) => Some(m.property@),
        _ => None,
    }
}

/// The variable that a call goes through, and the member of it that is called.
pub open spec fn called_variable(call: CallExpression) -> Option<(Seq<char>, Option<Seq<char>>)> {
    match call.callee {
        Expression::Identifier(ident) => Some((ident.name@, None)),
        Expression::StaticMember(m) => match m.object {
            Expression::Identifier(object) => Some((object.name@, Some(m.property@))),
            _ => None,
        },
        _ => None,
    }
}

/// A call of a hook in the scope of a function itself.
pub open spec fn is_hook_call(call: CallExpression, ctx: TransformCtx) -> bool {
    let scoping = ctx.traverse.scoping;
    &&& scoping.current_scope_id < scoping.scopes.scopes@.len()
    &&& scoping.scopes.scopes@[scoping.current_scope_id as int].flags.is_function
    &&& called_name(call) matches Some(name) && is_use_hook(name)
}

/// A call that is no call of a hook, or stands in no function, is not recorded.
pub proof fn law_other_calls_are_not_recorded(
    called: Called,
    call: CallExpression,
    ctx: TransformCtx,
)
    requires
        !is_hook_call(call, ctx),
    ensures
        after_call(called, call, ctx) == called,
        call_references(call, ctx).len() == 0,
{
}

/// A call of a hook adds a line to what is known of its function, and to nothing else: the hook,
/// what its value is bound to where it is the value of a variable, and the argument that counts:
/// the first of `useState` and of `useSignal`, and the second of `useReducer`.
pub proof fn law_hook_calls_are_recorded(
    called: Called,
    call: CallExpression,
    ctx: TransformCtx,
    other: ScopeId,
)
    requires
        is_hook_call(call, ctx),
    ensures
        ({
            let scope = ctx.traverse.scoping.current_scope_id;
            let text = ctx.state.source_text@;
            let parent = ctx.traverse.ancestry.stack@.last();
            let hook = called_name(call)->0;
            let declared = if parent.ty == AncestorType::VariableDeclaratorInit && parent.node
                is VariableDeclarator {
                text_at(text, parent.node->VariableDeclarator_0.id_span)
            } else {
                Seq::empty()
            };
            let arguments = call.arguments@;
            let argument = if (hook == "useState"@ || hook == "useSignal"@) && arguments.len() > 0 {
                text_at(text, arguments[0].spec_span())
            } else if hook == "useReducer"@ && arguments.len() > 1 {
                text_at(text, arguments[1].spec_span())
            } else {
                Seq::empty()
            };
            let line = if argument.len() > 0 {
                hook + "{"@ + declared + "("@ + argument + ")"@ + "}"@
            } else {
                hook + "{"@ + declared + "}"@
            };
            let after = after_call(called, call, ctx);
            &&& after.keys.contains_key(scope)
            &&& called.keys.contains_key(scope) ==> after.keys[scope] == called.keys[scope] + "\\n"@
                + line
            &&& !called.keys.contains_key(scope) ==> after.keys[scope] == line
            &&& other != scope ==> (after.keys.contains_key(other) <==> called.keys.contains_key(
                other,
            )) && after.keys[other] == called.keys[other]
        }),
{
    reveal_strlit("useState");
    reveal_strlit("useReducer");
    reveal_strlit("useSignal");
    assert("useState"@.len() == 8);
    assert("useReducer"@.len() == 10);
    assert("useSignal"@.len() == 9);
}

/// Of the hooks of the program itself, each call is recorded, in order: the variable that is found
/// from outside the function, with its symbol, or nothing. Built-in hooks are not recorded, nor
/// are hooks that are reached through no variable.
pub proof fn law_hooks_of_the_program_are_recorded(
    called: Called,
    call: CallExpression,
    ctx: TransformCtx,
    parent: ScopeId,
)
    requires
        is_hook_call(call, ctx),
        ({
            let scoping = ctx.traverse.scoping;
            scoping.scopes.scopes@[scoping.current_scope_id as int].parent_id == Some(parent)
        }),
    ensures
        ({
            let scoping = ctx.traverse.scoping;
            let scope = scoping.current_scope_id;
            let before = if called.callees.contains_key(scope) {
                called.callees[scope]
            } else {
                Seq::empty()
            };
            let after = after_call(called, call, ctx);
            let built_in = builtin_hooks().contains(called_name(call)->0);
            match called_variable(call) {
                Some((name, member)) if !built_in => {
                    let symbol = first_binding(
                        scoping.symbols,
                        scoping.scopes.chain(parent),
                        name,
                    );
                    let hook = match symbol {
                        Some(symbol_id) => Some(Hook { object: Bound { name, symbol_id }, member }),
                        None => None,
                    };
                    &&& after.callees.contains_key(scope)
                    &&& after.callees[scope] == before.push(hook)
                    &&& call_references(call, ctx) == (match symbol {
                        Some(symbol_id) => seq![reading_in(scope, Bound { name, symbol_id })],
                        None => Seq::empty(),
                    })
                },
                _ => after.callees == called.callees && call_references(call, ctx).len() == 0,
            }
        }),
{
    let scope = ctx.traverse.scoping.current_scope_id;
    let after = after_call(called, call, ctx);
    if !called.callees.contains_key(scope) {
        assert(forall|h: Option<Hook>| #[trigger] seq![h] =~= Seq::<Option<Hook>>::empty().push(h));
    }
}

/// The built-in hooks are these.
pub proof fn law_built_in_hooks(name: Seq<char>)
    ensures
        builtin_hooks().contains(name) <==> name == "useErrorBoundary"@ || name == "useState"@
            || name == "useReducer"@ || name == "useEffect"@ || name == "useLayoutEffect"@ || name
            == "useMemo"@ || name == "useCallback"@ || name == "useRef"@ || name == "useContext"@
            || name == "useImperativeMethods"@ || name == "useImperativeHandle"@ || name
            == "useDebugValue"@ || name == "useSignal"@,
{
    let all = builtin_hooks();
    assert(all[0] == "useErrorBoundary"@ && all[1] == "useState"@ && all[2] == "useReducer"@
        && all[3] == "useEffect"@ && all[4] == "useLayoutEffect"@ && all[5] == "useMemo"@ && all[6]
        == "useCallback"@ && all[7] == "useRef"@ && all[8] == "useContext"@ && all[9]
        == "useImperativeMethods"@ && all[10] == "useImperativeHandle"@ && all[11]
        == "useDebugValue"@ && all[12] == "useSignal"@);
    if all.contains(name) {
        let i = all.index_of(name);
        assert(0 <= i < 13);
    }
}

/// The hooks that are known are kept in their order, and those that are not are left out.
pub proof fn law_known_hooks_are_kept_in_order(
    first: Seq<Option<Hook>>,
    rest: Seq<Option<Hook>>,
    hook: Hook,
)
    ensures
        present_hooks(first + rest) == present_hooks(first) + present_hooks(rest),
        present_hooks(seq![Some(hook)]) == seq![hook],
        present_hooks(seq![None]) == Seq::<Hook>::empty(),
    decreases rest.len(),
{
    assert(present_hooks(Seq::empty()) =~= Seq::<Hook>::empty());
    assert(seq![Some(hook)].drop_last() =~= Seq::empty());
    assert(seq![None::<Hook>].drop_last() =~= Seq::empty());
    assert(present_hooks(seq![Some(hook)]) =~= seq![hook]);
    if rest.len() == 0 {
        assert(first + rest =~= first);
        assert(present_hooks(first) + present_hooks(rest) =~= present_hooks(first));
    } else {
        law_known_hooks_are_kept_in_order(first, rest.drop_last(), hook);
        assert((first + rest).drop_last() =~= first + rest.drop_last());
        assert((first + rest).last() == rest.last());
        let a = present_hooks(first);
        let b = present_hooks(rest.drop_last());
        if let Some(h) = rest.last() {
            assert((a + b).push(h) =~= a + b.push(h));
        }
    }
}

/// A signature hands on its key first. Where hooks of the program are known it hands on whether
/// state is dropped, and a function that gives all of them; else it says that state is dropped
/// only where it is.
pub proof fn law_what_a_signature_hands_on(s: Signed)
    ensures
        signature_arguments(s)[0] == Shape::Text(s.key),
        s.hooks.len() == 0 && !s.force_reset ==> signature_arguments(s).len() == 1,
        s.hooks.len() == 0 && s.force_reset ==> signature_arguments(s) == seq![
            Shape::Text(s.key),
            Shape::Boolean(true),
        ],
        s.hooks.len() > 0 ==> ({
            let all = signature_arguments(s);
            &&& all.len() == 3
            &&& all[1] == Shape::Boolean(s.force_reset)
            &&& all[2] == returning(
                s.scope_id,
                Shape::Array {
                    elements: Seq::new(s.hooks.len(), |i: int| hook_shape(s.hooks[i])),
                },
            )
        }),
{
    assert(s.hooks.map_values(|h: Hook| hook_shape(h)) =~= Seq::new(
        s.hooks.len(),
        |i: int| hook_shape(s.hooks[i]),
    ));
    if s.hooks.len() == 0 && s.force_reset {
        assert(signature_arguments(s) =~= seq![Shape::Text(s.key), Shape::Boolean(true)]);
    }
}

/// The symbols that `createContext` has in a program: those of the imports of that name, whatever
/// they are called, from one of the three modules.
pub proof fn law_what_create_context_is_imported_as(body: Seq<Statement>, symbol_id: SymbolId)
    ensures
        create_context_symbols(body).contains(symbol_id) <==> exists|i: int, k: int|
            #![trigger is_context_import(body, i, k, symbol_id)]
            is_context_import(body, i, k, symbol_id),
{
    if create_context_symbols(body).contains(symbol_id) {
        let i = choose|i: int|
            0 <= i < body.len() && statement_imports(#[trigger] body[i], symbol_id);
        let list = body[i]->Import_0.specifiers->0;
        let k = choose|k: int|
            0 <= k < list@.len() && imports_create_context(#[trigger] list@[k], symbol_id);
        assert(is_context_import(body, i, k, symbol_id));
    }
    if exists|i: int, k: int|
        #![trigger is_context_import(body, i, k, symbol_id)]
        is_context_import(body, i, k, symbol_id) {
        let (i, k) = choose|i: int, k: int|
            #![trigger is_context_import(body, i, k, symbol_id)]
            is_context_import(body, i, k, symbol_id);
        let list = body[i]->Import_0.specifiers->0;
        assert(imports_create_context(list@[k], symbol_id));
        assert(statement_imports(body[i], symbol_id));
    }
}

/// Specifier `k` of statement `i` imports `createContext` as a symbol.
pub open spec fn is_context_import(
    body: Seq<Statement>,
    i: int,
    k: int,
    symbol_id: SymbolId,
) -> bool {
    &&& 0 <= i < body.len()
    &&& body[i] matches Statement::Import(import) && (import.source@ == "preact"@ || import.source@
        == "react"@ || import.source@ == "preact/compat"@) && (
    import.specifiers matches Some(list) && 0 <= k < list@.len() && (
    list@[k] matches ImportDeclarationSpecifier::ImportSpecifier(s) && s.local.symbol_id
        == symbol_id && (match s.imported {
        ModuleExportName::IdentifierName(name) => name@ == "createContext"@,
        ModuleExportName::StringLiteral(name) => name@ == "createContext"@,
    })))
}

/// A call makes a context exactly if its callee, with parentheses and annotations round it or not,
/// is bound to one of these symbols.
pub proof fn law_calls_that_make_contexts(
    call: CallExpression,
    wrapped: CallExpression,
    w: WrappedExpression,
    symbols: Set<SymbolId>,
)
    requires
        w.expression == call.callee,
        wrapped.callee == Expression::Wrapped(Box::new(w)),
    ensures
        call.callee matches Expression::Identifier(ident) ==> (creates_context(call, symbols)
            <==> ident.symbol_id is Some && symbols.contains(ident.symbol_id->0)),
        creates_context(wrapped, symbols) == creates_context(call, symbols),
        call.callee is StaticMember || call.callee is Call ==> !creates_context(call, symbols),
{
}

/// A context is named by the property, the variable or the target that it is given to; by the hash
/// of a target that is no name; and anywhere else by nothing.
pub proof fn law_contexts_are_named_by_their_places(parent: Ancestor, text: Seq<char>)
    ensures
        ({
            let suffix = context_suffix(parent, text);
            if parent.ty == AncestorType::ObjectPropertyValue && parent.node is ObjectProperty {
                match parent.node->ObjectProperty_0.key_name {
                    Some(name) => suffix == "__"@ + name@,
                    None => suffix.len() == 0,
                }
            } else if parent.ty == AncestorType::VariableDeclaratorInit && parent.node
                is VariableDeclarator {
                match parent.node->VariableDeclarator_0.binding {
                    Some(b) => suffix == "$"@ + b.name@,
                    None => suffix.len() == 0,
                }
            } else if parent.ty == AncestorType::AssignmentExpressionRight && parent.node
                is Assignment {
                match parent.node->Assignment_0.identifier_name {
                    Some(name) => suffix == "_"@ + name@,
                    None => suffix == "_"@ + short_hash(
                        text_at(text, parent.node->Assignment_0.left_span),
                    ),
                }
            } else {
                suffix.len() == 0
            }
        }),
{
}

/// The first context of a place has no number, and the next ones are counted from one.
pub proof fn law_contexts_are_numbered(
    suffix: Seq<char>,
    count: nat,
    counts: Map<Seq<char>, u32>,
    times: u32,
)
    ensures
        numbered(suffix, 0) == suffix,
        count > 0 ==> numbered(suffix, count) == suffix + decimal(count),
        count_of(counts.insert(suffix, times), suffix) == times,
        count_of(counts.remove(suffix), suffix) == 0,
{
}

/// A context depends on the parameters of the innermost arrow function, or declared function, that
/// it is made in; function expressions are passed over, and outside the program there are none.
pub proof fn law_contexts_depend_on_parameters(ancestors: Seq<Ancestor>, index: int)
    requires
        0 <= index < ancestors.len(),
    ensures
        ({
            let a = ancestors[index];
            let found = context_params_from(ancestors, index);
            if a.ty == AncestorType::ArrowFunctionExpressionBody && a.node is Arrow {
                found == bounds(a.node->Arrow_0.params@)
            } else if a.ty == AncestorType::FunctionBody && a.node is Function
                && a.node->Function_0.function_type == FunctionType::FunctionDeclaration {
                found == bounds(a.node->Function_0.params@)
            } else if a.ty == AncestorType::ProgramBody || a.ty == AncestorType::ProgramDirectives
                || a.ty == AncestorType::ProgramHashbang {
                found.len() == 0
            } else {
                found == context_params_from(ancestors, index + 1)
            }
        }),
        context_params_from(ancestors, ancestors.len() as int).len() == 0,
{
}

/// The name of a context is one text, or a template that holds all the parameters, in order, after
/// that text.
pub proof fn law_names_of_contexts(prefix: Seq<char>, params: Seq<Bound>, i: int)
    ensures
        params.len() == 0 ==> context_id(prefix, params) == Shape::Text(prefix) && context_member(
            prefix,
            params,
        ) == Some(prefix),
        params.len() > 0 ==> context_member(prefix, params) is None && (context_id(
            prefix,
            params,
        ) matches Shape::Template { quasis, expressions } && quasis.len() == params.len() + 1
            && expressions.len() == params.len() && quasis[0] == (prefix, false) && (0 <= i
            < params.len() ==> expressions[i] == Shape::Read(params[i]) && quasis[i + 1] == (
            ""@,
            i + 1 == params.len(),
        ))),
{
}

/// The default of a context is its first argument, without parentheses and annotations round it;
/// annotations in angle brackets stay.
pub proof fn law_defaults_of_contexts(call: CallExpression, w: WrappedExpression)
    ensures
        call.arguments@.len() == 0 ==> context_default(call) is None,
        call.arguments@.len() > 0 && call.arguments@[0] is Spread ==> context_default(call) is None,
        call.arguments@.len() > 0 ==> (call.arguments@[0] matches Argument::Expression(e)
            ==> context_default(call) == Some(first_non_ts(e))),
        w.wrapper != Wrapper::TSTypeAssertion && w.wrapper != Wrapper::TSInstantiation
            ==> first_non_ts(Expression::Wrapped(Box::new(w))) == first_non_ts(w.expression),
        w.wrapper == Wrapper::TSTypeAssertion || w.wrapper == Wrapper::TSInstantiation
            ==> first_non_ts(Expression::Wrapped(Box::new(w))) == Expression::Wrapped(Box::new(w)),
        !(first_non_ts(w.expression) is Wrapped) || first_non_ts(first_non_ts(w.expression))
            == first_non_ts(w.expression),
{
    lemma_first_non_ts(w.expression);
}

proof fn lemma_first_non_ts(expr: Expression)
    ensures
        first_non_ts(first_non_ts(expr)) == first_non_ts(expr),
    decreases expr,
{
    if let Expression::Wrapped(w) = expr {
        if w.wrapper != Wrapper::TSTypeAssertion && w.wrapper != Wrapper::TSInstantiation {
            lemma_first_non_ts(w.expression);
        }
    }
}

/// The file that contexts are named by: its path, else the name it goes by, else none.
pub proof fn law_files_of_contexts(state: TransformState)
    ensures
        state.source_path matches Some(path) && path@.len() > 0 ==> spec_context_filename(state)
            == state.source_path->0@,
        (state.source_path is None || state.source_path->0@.len() == 0) && state.filename@.len()
            > 0 ==> spec_context_filename(state) == state.filename@,
        (state.source_path is None || state.source_path->0@.len() == 0) && state.filename@.len()
            == 0 ==> spec_context_filename(state) == "unnamed"@,
{
}

/// Assignments are passed over; the first other node round an expression decides whether a call is
/// round it.
pub proof fn law_signatures_are_handed_through_assignments(ancestors: Seq<Ancestor>, index: int)
    requires
        0 <= index < ancestors.len(),
    ensures
        ancestors[index].node is Assignment ==> is_in_call(ancestors, index) == is_in_call(
            ancestors,
            index + 1,
        ),
        ancestors[index].node is Call ==> is_in_call(ancestors, index),
        !(ancestors[index].node is Assignment) && !(ancestors[index].node is Call) ==> !is_in_call(
            ancestors,
            index,
        ),
        !is_in_call(ancestors, ancestors.len() as int),
{
}

/// A function is signed after the declaration of its variable, or after the export that the
/// declaration stands in; a declared function after itself, or after its export.
pub proof fn law_places_of_signatures(stack: Seq<Ancestor>, func: Function, parent: Ancestor)
    requires
        stack.len() >= 3,
    ensures
        ({
            let n = stack.len();
            let outer = stack[n - 3];
            let exported = outer.ty == AncestorType::ExportNamedDeclarationDeclaration && outer.node
                is Export;
            &&& exported ==> declaration_address(stack) == Some(outer.node->Export_0.address)
            &&& !exported && stack[n - 2].node is VariableDeclaration ==> declaration_address(stack)
                == Some(stack[n - 2].node->VariableDeclaration_0.address)
            &&& stack.last().ty == AncestorType::VariableDeclaratorInit && stack.last().node
                is VariableDeclarator ==> declared_variable(stack.last()) == (
            match stack.last().node->VariableDeclarator_0.binding {
                Some(b) => Some(b@),
                None => None,
            })
            &&& stack.last().ty != AncestorType::VariableDeclaratorInit ==> declared_variable(
                stack.last(),
            ) is None
        }),
        (parent.ty == AncestorType::ExportNamedDeclarationDeclaration || parent.ty
            == AncestorType::ExportDefaultDeclarationDeclaration) && parent.node is Export
            ==> function_address(func, parent) == parent.node->Export_0.address,
        parent.ty != AncestorType::ExportNamedDeclarationDeclaration && parent.ty
            != AncestorType::ExportDefaultDeclarationDeclaration ==> function_address(func, parent)
            == func.address,
{
}

/// An expression is another one, in one of several places.
pub open spec fn stands_for(e: Expression, x: Expression) -> bool {
    e matches Expression::Shared(rc) && unshared(rc) == x
}

/// The context is looked up under its name in the function that makes it, and made only where it
/// is not there, and then put under the name that it was looked up by.
pub open spec fn is_kept(
    e: Expression,
    maker: Expression,
    prefix: Seq<char>,
    params: Seq<Bound>,
    value: Option<Expression>,
) -> bool {
    e matches Expression::Logical(l) && l.operator == LogicalOperator::Or && (
    l.left matches Expression::ComputedMember(m) && stands_for(m.object, maker) && has_shape(
        m.expression,
        context_id(prefix, params),
    )) && (l.right matches Expression::Assignment(a) && a.operator == AssignmentOperator::Assign && (
    a.left matches AssignmentTarget::ComputedMember(m) && stands_for(m.object, maker) && has_shape(
        m.expression,
        context_id(prefix, params),
    )) && (a.right matches Expression::Call(c) && stands_for(c.callee, maker) && (match value {
        None => c.arguments@.len() == 0,
        Some(v) => c.arguments@.len() == 1 && (
        c.arguments@[0] matches Argument::Expression(x) && stands_for(x, v)),
    })))
}

/// A kept context is looked up, and made where it is not there.
proof fn lemma_kept(
    e: Expression,
    maker: Expression,
    prefix: Seq<char>,
    params: Seq<Bound>,
    value: Option<Expression>,
)
    requires
        has_shape(
            e,
            kept_context(
                maker,
                prefix,
                params,
                match value {
                    None => Seq::empty(),
                    Some(v) => seq![Shape::Shared(v)],
                },
            ),
        ),
    ensures
        is_kept(e, maker, prefix, params, value),
{
    let shapes = match value {
        None => Seq::empty(),
        Some(v) => seq![Shape::Shared(v)],
    };
    let id = context_id(prefix, params);
    let name = context_member(prefix, params);
    let shared = Shape::Shared(maker);
    let l = e->Logical_0;
    assert(has_shape(l.left, computed(shared, id, name)));
    assert(has_shape(l.right, assign_member(shared, id, name, call(shared, shapes))));
    let a = l.right->Assignment_0;
    assert(has_shape(l.left->ComputedMember_0.object, shared));
    assert(has_shape(a.left->ComputedMember_0.object, shared));
    assert(has_shape(a.right, call(shared, shapes)));
    let c = a.right->Call_0;
    assert(has_shape(c.callee, shared));
    assert(arguments_have_shapes(c.arguments@, shapes));
    if let Some(v) = value {
        assert(shapes[0] == Shape::Shared(v));
        assert(has_shape(c.arguments@[0]->Expression_0, Shape::Shared(v)));
    }
}

/// A call of `createContext` becomes a context that is kept. One with a default is made with it,
/// and is handed to `Object.assign` with the default under `__`, kept or made.
pub proof fn law_contexts_are_kept(
    e: Expression,
    made: CallExpression,
    prefix: Seq<char>,
    params: Seq<Bound>,
)
    requires
        has_shape(e, context_shape(made, prefix, params)),
    ensures
        context_default(made) is None ==> is_kept(e, made.callee, prefix, params, None),
        context_default(made) matches Some(value) ==> (e matches Expression::Call(c) && (
        c.callee matches Expression::StaticMember(m) && m.property@ == "assign"@ && (
        m.object matches Expression::Identifier(o) && o.name@ == "Object"@)) && c.arguments@.len()
            == 2 && (c.arguments@[0] matches Argument::Expression(kept) && is_kept(
            kept,
            made.callee,
            prefix,
            params,
            Some(value),
        )) && (c.arguments@[1] matches Argument::Expression(Expression::Object(o))
            && o.properties@.len() == 1 && (
        o.properties@[0] matches ObjectPropertyKind::ObjectProperty(p) && (
        p.key matches PropertyKey::StaticIdentifier(key) && key@ == "__"@) && stands_for(
            p.value,
            value,
        )))),
{
    match context_default(made) {
        None => {
            lemma_kept(e, made.callee, prefix, params, None);
        },
        Some(value) => {
            let object = Shape::Name { name: "Object"@, symbol_id: None };
            let kept = kept_context(made.callee, prefix, params, seq![Shape::Shared(value)]);
            let update = crate::ast::shape::object("__"@, Shape::Shared(value));
            let shapes = seq![kept, update];
            let c = e->Call_0;
            assert(has_shape(c.callee, member(object, "assign"@)));
            assert(has_shape(c.callee->StaticMember_0.object, object));
            assert(arguments_have_shapes(c.arguments@, shapes));
            assert(shapes[0] == kept && shapes[1] == update);
            lemma_kept(
                c.arguments@[0]->Expression_0,
                made.callee,
                prefix,
                params,
                Some(value),
            );
            let o = c.arguments@[1]->Expression_0;
            assert(has_shape(o, update));
            assert(has_shape(
                o->Object_0.properties@[0]->ObjectProperty_0.value,
                Shape::Shared(value),
            ));
        },
    }
}

/// A hook of the program is given as it was called: by its variable, or as a property of the
/// variable that holds it.
pub proof fn law_hooks_are_given_as_called(e: Expression, hook: Hook)
    requires
        has_shape(e, hook_shape(hook)),
    ensures
        hook.member is None ==> (e matches Expression::Identifier(ident) && ident.name@
            == hook.object.name && ident.symbol_id == Some(hook.object.symbol_id)),
        hook.member matches Some(property) ==> (e matches Expression::StaticMember(m)
            && m.property@ == property && (m.object matches Expression::Identifier(ident)
            && ident.name@ == hook.object.name && ident.symbol_id == Some(
            hook.object.symbol_id,
        ))),
{
    if hook.member is Some {
        assert(has_shape(e->StaticMember_0.object, Shape::Read(hook.object)));
    }
}

} // verus!

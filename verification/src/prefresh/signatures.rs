//! The hooks that a component uses, and the signature that tells when they change.

use super::hash::{hash_signature, hashed};
use super::resolver::RefreshIdentifierResolver;
use crate::ast::shape::{
    Shape, StatementShape, arguments_have_shapes, call, has_shape, have_shapes, make_array,
    make_boolean, make_call, make_member, make_read, make_returning, make_statement, make_text,
    member, returning, statement_has_shape,
};
use crate::ast::{Argument, CallExpression, Expression, FunctionBody, ScopeId, Span};
use crate::fx::{map_insert, map_remove};
use crate::semantic::{Scope, ScopeFlags, SymbolFlags, find_binding, first_binding};
use crate::text::{is_upper, starts_with, str_eq, upper_at};
use crate::transform::{
    TransformCtx, TransformState, UidVar, in_source, is_new_symbol, reading_in, text_at,
};
use crate::traverse::{Ancestor, AncestorNode, AncestorType, Bound, BoundIdentifier, Made};
use rustc_hash::FxHashMap;
use vstd::prelude::*;

verus! {

broadcast use vstd::std_specs::hash::group_hash_axioms;

/// The name of a hook: `use` by itself, or followed by an upper-case letter of ASCII.
pub open spec fn is_use_hook(name: Seq<char>) -> bool {
    "use"@.is_prefix_of(name) && (name.len() > 3 ==> is_upper(name[3]))
}

/// The name of a hook.
pub fn is_use_hook_name(name: &str) -> (r: bool)
    ensures
        r == is_use_hook(name@),
{
    starts_with(name, "use") && upper_at(name, 3, true)
}

/// The hooks that every program has.
pub open spec fn builtin_hooks() -> Seq<Seq<char>> {
    seq![
        "useErrorBoundary"@,
        "useState"@,
        "useReducer"@,
        "useEffect"@,
        "useLayoutEffect"@,
        "useMemo"@,
        "useCallback"@,
        "useRef"@,
        "useContext"@,
        "useImperativeMethods"@,
        "useImperativeHandle"@,
        "useDebugValue"@,
        "useSignal"@,
    ]
}

/// Whether a hook is one that every program has.
pub fn is_builtin_hook(hook_name: &str) -> (r: bool)
    ensures
        r == builtin_hooks().contains(hook_name@),
{
    let r = str_eq(hook_name, "useErrorBoundary") || str_eq(hook_name, "useState") || str_eq(
        hook_name,
        "useReducer",
    ) || str_eq(hook_name, "useEffect") || str_eq(hook_name, "useLayoutEffect") || str_eq(
        hook_name,
        "useMemo",
    ) || str_eq(hook_name, "useCallback") || str_eq(hook_name, "useRef") || str_eq(
        hook_name,
        "useContext",
    ) || str_eq(hook_name, "useImperativeMethods") || str_eq(hook_name, "useImperativeHandle")
        || str_eq(hook_name, "useDebugValue") || str_eq(hook_name, "useSignal");
    proof {
        let all = builtin_hooks();
        assert(all[0] == "useErrorBoundary"@ && all[1] == "useState"@ && all[2] == "useReducer"@
            && all[3] == "useEffect"@ && all[4] == "useLayoutEffect"@ && all[5] == "useMemo"@
            && all[6] == "useCallback"@ && all[7] == "useRef"@ && all[8] == "useContext"@ && all[9]
            == "useImperativeMethods"@ && all[10] == "useImperativeHandle"@ && all[11]
            == "useDebugValue"@ && all[12] == "useSignal"@);
        if all.contains(hook_name@) {
            let i = all.index_of(hook_name@);
            assert(0 <= i < 13);
        }
    }
    r
}

/// A hook that a component calls: a variable, or a member of one.
#[derive(Debug)]
pub struct HookCallee {
    pub object: BoundIdentifier,
    pub member: Option<String>,
}

/// What a [`HookCallee`] holds.
pub ghost struct Hook {
    pub object: Bound,
    pub member: Option<Seq<char>>,
}

impl View for HookCallee {
    type V = Hook;

    open spec fn view(&self) -> Hook {
        Hook { object: self.object@, member: crate::text::opt_view(self.member) }
    }
}

/// The expression that names a hook.
pub open spec fn hook_shape(hook: Hook) -> Shape {
    match hook.member {
        Some(property) => member(Shape::Read(hook.object), property),
        None => Shape::Read(hook.object),
    }
}

impl HookCallee {
    /// The expression that names the hook.
    pub fn to_expression(&self) -> (r: Expression)
        ensures
            has_shape(r, hook_shape(self@)),
    {
        let object = make_read(&self.object);
        match &self.member {
            Some(property) => make_member(object, property.as_str()),
            None => object,
        }
    }

    /// The same once more.
    pub fn copy(&self) -> (r: HookCallee)
        ensures
            r@ == self@,
    {
        let member = match &self.member {
            Some(property) => Some(property.clone()),
            None => None,
        };
        HookCallee { object: self.object.copy(), member }
    }
}

/// The views of optional hooks.
pub open spec fn optional_hooks(list: Seq<Option<HookCallee>>) -> Seq<Option<Hook>> {
    list.map_values(|h: Option<HookCallee>| optional_hook(h))
}

/// The view of an optional hook.
pub open spec fn optional_hook(h: Option<HookCallee>) -> Option<Hook> {
    match h {
        Some(h) => Some(h@),
        None => None,
    }
}

/// The views of hooks.
pub open spec fn hook_views(list: Seq<HookCallee>) -> Seq<Hook> {
    list.map_values(|h: HookCallee| h@)
}

/// The hooks that are there.
pub open spec fn present_hooks(list: Seq<Option<Hook>>) -> Seq<Hook>
    decreases list.len(),
{
    if list.len() == 0 {
        Seq::empty()
    } else {
        let before = present_hooks(list.drop_last());
        match list.last() {
            Some(hook) => before.push(hook),
            None => before,
        }
    }
}

/// The signature of a component: the variable that signs it, and what it signs.
#[derive(Debug)]
pub struct Signature {
    pub binding: BoundIdentifier,
    pub key: String,
    /// Whether a hook cannot be told from outside, so that state is never kept.
    pub force_reset: bool,
    pub hooks: Vec<HookCallee>,
    /// The scope of the function that gives the hooks, where there are any.
    pub scope_id: ScopeId,
}

/// What a [`Signature`] holds.
pub ghost struct Signed {
    pub binding: Bound,
    pub key: Seq<char>,
    pub force_reset: bool,
    pub hooks: Seq<Hook>,
    pub scope_id: ScopeId,
}

impl View for Signature {
    type V = Signed;

    open spec fn view(&self) -> Signed {
        Signed {
            binding: self.binding@,
            key: self.key@,
            force_reset: self.force_reset,
            hooks: hook_views(self.hooks@),
            scope_id: self.scope_id,
        }
    }
}

/// What a signature hands to the variable that signs.
pub open spec fn signature_arguments(s: Signed) -> Seq<Shape> {
    let key = seq![Shape::Text(s.key)];
    if s.hooks.len() > 0 {
        key + seq![
            Shape::Boolean(s.force_reset),
            returning(
                s.scope_id,
                Shape::Array { elements: s.hooks.map_values(|h: Hook| hook_shape(h)) },
            ),
        ]
    } else if s.force_reset {
        key + seq![Shape::Boolean(true)]
    } else {
        key
    }
}

impl Signature {
    /// What the signature hands to the variable that signs.
    pub fn arguments(&self) -> (r: Vec<Argument>)
        ensures
            arguments_have_shapes(r@, signature_arguments(self@)),
    {
        let mut r: Vec<Argument> = Vec::new();
        r.push(Argument::Expression(make_text(self.key.as_str())));
        if self.force_reset || self.hooks.len() > 0 {
            r.push(Argument::Expression(make_boolean(self.force_reset)));
        }
        if self.hooks.len() > 0 {
            let mut elements: Vec<Expression> = Vec::new();
            let mut i: usize = 0;
            while i < self.hooks.len()
                invariant
                    i <= self.hooks@.len(),
                    elements@.len() == i,
                    forall|j: int|
                        0 <= j < i ==> has_shape(
                            #[trigger] elements@[j],
                            hook_shape(self.hooks@[j]@),
                        ),
                decreases self.hooks@.len() - i,
            {
                elements.push(self.hooks[i].to_expression());
                i += 1;
            }
            let ghost shapes = self@.hooks.map_values(|h: Hook| hook_shape(h));
            proof {
                assert(have_shapes(elements@, shapes)) by {
                    assert forall|j: int| 0 <= j < shapes.len() implies has_shape(
                        elements@[j],
                        #[trigger] shapes[j],
                    ) by {
                        assert(shapes[j] == hook_shape(self.hooks@[j]@));
                    }
                }
            }
            let array = make_array(elements);
            let function = make_returning(self.scope_id, array);
            proof {
                assert(has_shape(array, (Shape::Array { elements: shapes })));
                assert(has_shape(
                    function,
                    returning(self.scope_id, (Shape::Array { elements: shapes })),
                ));
            }
            r.push(Argument::Expression(function));
        }
        proof {
            let expected = signature_arguments(self@);
            assert(expected.len() == r@.len());
            assert forall|i: int| 0 <= i < expected.len() implies (
            r@[i] matches Argument::Expression(e) && has_shape(e, #[trigger] expected[i])) by {
                if i == 0 {
                } else if i == 1 {
                } else {
                }
            }
        }
        r
    }

    /// The same once more.
    pub fn copy(&self) -> (r: Signature)
        ensures
            r@ == self@,
    {
        let mut hooks: Vec<HookCallee> = Vec::new();
        let mut i: usize = 0;
        while i < self.hooks.len()
            invariant
                i <= self.hooks@.len(),
                hooks@.len() == i,
                forall|j: int| 0 <= j < i ==> (#[trigger] hooks@[j])@ == self.hooks@[j]@,
            decreases self.hooks@.len() - i,
        {
            hooks.push(self.hooks[i].copy());
            i += 1;
        }
        proof {
            assert(hook_views(hooks@) =~= hook_views(self.hooks@));
        }
        Signature {
            binding: self.binding.copy(),
            key: self.key.clone(),
            force_reset: self.force_reset,
            hooks,
            scope_id: self.scope_id,
        }
    }
}

/// The hooks that the functions of a file call.
#[derive(Debug)]
pub struct Hooks {
    /// What each function calls, as text.
    pub function_signature_keys: FxHashMap<ScopeId, String>,
    /// The hooks of the program itself that each function calls; none where one is not declared
    /// outside the function.
    pub non_builtin_hooks_callee: FxHashMap<ScopeId, Vec<Option<HookCallee>>>,
}

/// The texts of a map.
pub open spec fn key_views(map: Map<ScopeId, String>) -> Map<ScopeId, Seq<char>> {
    Map::new(|k: ScopeId| map.contains_key(k), |k: ScopeId| map[k]@)
}

/// The hooks of a map.
pub open spec fn callee_views(map: Map<ScopeId, Vec<Option<HookCallee>>>) -> Map<
    ScopeId,
    Seq<Option<Hook>>,
> {
    Map::new(|k: ScopeId| map.contains_key(k), |k: ScopeId| optional_hooks(map[k]@))
}

/// What [`Hooks`] hold.
#[verifier::ext_equal]
pub ghost struct Called {
    pub keys: Map<ScopeId, Seq<char>>,
    pub callees: Map<ScopeId, Seq<Option<Hook>>>,
}

impl View for Hooks {
    type V = Called;

    open spec fn view(&self) -> Called {
        Called {
            keys: key_views(self.function_signature_keys@),
            callees: callee_views(self.non_builtin_hooks_callee@),
        }
    }
}

/// The name of the hook that a call may be of: an identifier, or a member.
pub open spec fn callee_name(callee: Expression) -> Option<Seq<char>> {
    match callee {
        Expression::Identifier(ident) => Some(ident.name@),
        Expression::StaticMember(m) => Some(m.property@),
        _ => None,
    }
}

/// The variable through which a hook is called, and the member of it that it is.
pub open spec fn callee_object(callee: Expression) -> Option<(Seq<char>, Option<Seq<char>>)> {
    match callee {
        Expression::Identifier(ident) => Some((ident.name@, None)),
        Expression::StaticMember(m) => match m.object {
            Expression::Identifier(object) => Some((object.name@, Some(m.property@))),
            _ => None,
        },
        _ => None,
    }
}

/// The hook that a variable, or a member of it, is outside the function of a scope.
pub open spec fn hook_outside(
    ctx: TransformCtx,
    scope_id: ScopeId,
    name: Seq<char>,
    property: Option<Seq<char>>,
) -> Option<Hook> {
    let scopes = ctx.traverse.scoping.scopes;
    match scopes.spec_parent_id(scope_id) {
        Some(parent) => match first_binding(
            ctx.traverse.scoping.symbols,
            scopes.chain(parent),
            name,
        ) {
            Some(symbol_id) => Some(Hook { object: Bound { name, symbol_id }, member: property }),
            None => None,
        },
        None => None,
    }
}

/// The argument of a hook that is part of its signature.
pub open spec fn key_argument(hook: Seq<char>, arguments: Seq<Argument>) -> Option<Argument> {
    if hook == "useState"@ && arguments.len() > 0 {
        Some(arguments[0])
    } else if hook == "useReducer"@ && arguments.len() > 1 {
        Some(arguments[1])
    } else if hook == "useSignal"@ && arguments.len() > 0 {
        Some(arguments[0])
    } else {
        None
    }
}

/// The pattern that takes what a hook gives, as text.
pub open spec fn declared_text(parent: Ancestor, text: Seq<char>) -> Seq<char> {
    match parent.node {
        AncestorNode::VariableDeclarator(f) if parent.ty == AncestorType::VariableDeclaratorInit =>
            text_at(text, f.id_span),
        _ => Seq::empty(),
    }
}

/// A call of a hook, as text.
pub open spec fn hook_text(
    hook: Seq<char>,
    declared: Seq<char>,
    argument: Seq<char>,
) -> Seq<char> {
    let head = hook + "{"@ + declared;
    if argument.len() > 0 {
        head + "("@ + argument + ")"@ + "}"@
    } else {
        head + "}"@
    }
}

/// The text of the argument of a hook that is part of its signature.
pub open spec fn argument_text(argument: Option<Argument>, text: Seq<char>) -> Seq<char> {
    match argument {
        Some(a) => text_at(text, a.spec_span()),
        None => Seq::empty(),
    }
}

/// One more text on a line of its own.
pub open spec fn with_line(keys: Map<ScopeId, Seq<char>>, scope_id: ScopeId, line: Seq<char>) -> Map<
    ScopeId,
    Seq<char>,
> {
    keys.insert(
        scope_id,
        if keys.contains_key(scope_id) {
            keys[scope_id] + "\\n"@ + line
        } else {
            line
        },
    )
}

/// One more hook of a function.
pub open spec fn with_callee(
    callees: Map<ScopeId, Seq<Option<Hook>>>,
    scope_id: ScopeId,
    hook: Option<Hook>,
) -> Map<ScopeId, Seq<Option<Hook>>> {
    callees.insert(
        scope_id,
        if callees.contains_key(scope_id) {
            callees[scope_id].push(hook)
        } else {
            seq![hook]
        },
    )
}

/// The hook that a call is of, where it stands in a function.
pub open spec fn called_hook(call_expr: CallExpression, ctx: TransformCtx) -> Option<Seq<char>> {
    let scoping = ctx.traverse.scoping;
    match callee_name(call_expr.callee) {
        Some(name) => if scoping.scopes.spec_flags(scoping.current_scope_id).is_function
            && is_use_hook(name) {
            Some(name)
        } else {
            None
        },
        None => None,
    }
}

/// What is known of the hooks of a function after a call.
pub open spec fn after_call(
    called: Called,
    call_expr: CallExpression,
    ctx: TransformCtx,
) -> Called {
    let scope_id = ctx.traverse.scoping.current_scope_id;
    let text = ctx.state.source_text@;
    match called_hook(call_expr, ctx) {
        Some(hook) => Called {
            keys: with_line(
                called.keys,
                scope_id,
                hook_text(
                    hook,
                    declared_text(ctx.traverse.ancestry.stack@.last(), text),
                    argument_text(key_argument(hook, call_expr.arguments@), text),
                ),
            ),
            callees: match callee_object(call_expr.callee) {
                Some((object, property)) if !builtin_hooks().contains(hook) => with_callee(
                    called.callees,
                    scope_id,
                    hook_outside(ctx, scope_id, object, property),
                ),
                _ => called.callees,
            },
        },
        None => called,
    }
}

/// The references that a call of a hook comes by: to the hook, where it is one of the program
/// itself that is declared outside the function.
pub open spec fn call_references(call_expr: CallExpression, ctx: TransformCtx) -> Seq<Made> {
    match (called_hook(call_expr, ctx), callee_object(call_expr.callee)) {
        (Some(hook), Some((object, property))) if !builtin_hooks().contains(hook) =>
            match hook_outside(
            ctx,
            ctx.traverse.scoping.current_scope_id,
            object,
            property,
        ) {
            Some(found) => seq![ctx.reading(found.object)],
            None => Seq::empty(),
        },
        _ => Seq::empty(),
    }
}

/// Whether the pieces of the signature of a hook stand in the source, and the function that calls
/// a hook of the program itself in another scope.
pub open spec fn call_is_sourced(call_expr: CallExpression, ctx: TransformCtx) -> bool {
    let scoping = ctx.traverse.scoping;
    let parent = ctx.traverse.ancestry.stack@.last();
    let text = ctx.state.source_text@;
    called_hook(call_expr, ctx) matches Some(hook) ==> {
        &&& parent.ty == AncestorType::VariableDeclaratorInit ==> (
        parent.node matches AncestorNode::VariableDeclarator(f) ==> in_source(text, f.id_span))
        &&& key_argument(hook, call_expr.arguments@) matches Some(a) ==> in_source(
            text,
            a.spec_span(),
        )
        &&& !builtin_hooks().contains(hook) && callee_object(call_expr.callee) is Some
            ==> scoping.scopes.spec_parent_id(scoping.current_scope_id) is Some
    }
}

impl Hooks {
    /// No hook is called yet.
    pub fn new() -> (r: Hooks)
        ensures
            r@ == (Called { keys: Map::empty(), callees: Map::empty() }),
    {
        let r = Hooks {
            function_signature_keys: FxHashMap::default(),
            non_builtin_hooks_callee: FxHashMap::default(),
        };
        proof {
            assert(r@ =~= (Called { keys: Map::empty(), callees: Map::empty() }));
        }
        r
    }

    /// Adds a hook of the program itself that a function calls.
    fn add_callee(&mut self, scope_id: ScopeId, hook: Option<HookCallee>)
        ensures
            final(self)@ == (Called {
                callees: with_callee(old(self)@.callees, scope_id, optional_hook(hook)),
                ..old(self)@
            }),
    {
        let ghost before = *self;
        let mut list: Vec<Option<HookCallee>> = match map_remove(
            &mut self.non_builtin_hooks_callee,
            scope_id,
        ) {
            Some(list) => list,
            None => Vec::new(),
        };
        let ghost start = list@;
        list.push(hook);
        let ghost pushed = list@;
        map_insert(&mut self.non_builtin_hooks_callee, scope_id, list);
        proof {
            let view = optional_hook(hook);
            assert(optional_hooks(pushed) =~= optional_hooks(start).push(view));
            if !before@.callees.contains_key(scope_id) {
                assert(optional_hooks(pushed) =~= seq![view]);
            }
            assert(self@.callees =~= with_callee(before@.callees, scope_id, view));
            assert(self@.keys =~= before@.keys);
        }
    }

    /// Adds the text of a call of a hook.
    fn add_line(&mut self, scope_id: ScopeId, hook: &str, declared: &str, argument: &str)
        ensures
            final(self)@ == (Called {
                keys: with_line(
                    old(self)@.keys,
                    scope_id,
                    hook_text(hook@, declared@, argument@),
                ),
                ..old(self)@
            }),
    {
        let ghost before = *self;
        let mut string: String = match map_remove(&mut self.function_signature_keys, scope_id) {
            Some(string) => {
                let mut string = string;
                string.append("\\n");
                string
            },
            None => String::new(),
        };
        let ghost start = string@;
        string.append(hook);
        string.append("{");
        string.append(declared);
        if argument.unicode_len() > 0 {
            string.append("(");
            string.append(argument);
            string.append(")");
        }
        string.append("}");
        let ghost line = hook_text(hook@, declared@, argument@);
        proof {
            assert(string@ =~= start + line);
        }
        let ghost whole = string@;
        map_insert(&mut self.function_signature_keys, scope_id, string);
        proof {
            if !before@.keys.contains_key(scope_id) {
                assert(whole =~= line);
            }
            assert(self@.keys =~= with_line(before@.keys, scope_id, line));
            assert(self@.callees =~= before@.callees);
        }
    }

    /// At a call.
    pub fn enter_call_expression(&mut self, call_expr: &CallExpression, ctx: &mut TransformCtx)
        requires
            old(ctx).traverse.wf(),
            old(ctx).symbols().len() <= u32::MAX,
            call_is_sourced(*call_expr, *old(ctx)),
        ensures
            final(self)@ == after_call(old(self)@, *call_expr, *old(ctx)),
            final(ctx).referred(*old(ctx), call_references(*call_expr, *old(ctx))),
    {
        proof {
            assert(ctx.made() + Seq::<Made>::empty() =~= ctx.made());
        }
        let scoping = &ctx.traverse.scoping;
        let current_scope_id = scoping.current_scope_id;
        if !scoping.scopes.get_flags(current_scope_id).is_function {
            return;
        }
        let hook_name = match &call_expr.callee {
            Expression::Identifier(ident) => ident.name.as_str(),
            Expression::StaticMember(m) => m.property.as_str(),
            _ => {
                return;
            },
        };
        if !is_use_hook_name(hook_name) {
            return;
        }
        if !is_builtin_hook(hook_name) {
            let object: Option<(&String, Option<&String>)> = match &call_expr.callee {
                Expression::Identifier(ident) => Some((&ident.name, None)),
                Expression::StaticMember(m) => match &m.object {
                    Expression::Identifier(object) => Some((&object.name, Some(&m.property))),
                    _ => None,
                },
                _ => None,
            };
            if let Some((name, property)) = object {
                let mut hook: Option<HookCallee> = None;
                if let Some(parent) = scoping.scopes.get_parent_id(current_scope_id) {
                    if let Some(symbol_id) = find_binding(
                        &scoping.scopes,
                        &scoping.symbols,
                        parent,
                        name.as_str(),
                    ) {
                        let member = match property {
                            Some(property) => Some(property.clone()),
                            None => None,
                        };
                        ctx.traverse.scoping.create_reference(
                            name.as_str(),
                            Some(symbol_id),
                            true,
                            false,
                        );
                        proof {
                            let one = old(ctx).reading(Bound { name: name@, symbol_id });
                            assert(old(ctx).made().push(one) =~= old(ctx).made() + seq![one]);
                        }
                        hook = Some(
                            HookCallee {
                                object: BoundIdentifier { name: name.clone(), symbol_id },
                                member,
                            },
                        );
                    }
                }
                self.add_callee(current_scope_id, hook);
            }
        }
        proof {
            reveal_strlit("");
            assert(""@ =~= Seq::<char>::empty());
        }
        let parent = ctx.traverse.parent();
        let declarator_id = match &parent.node {
            AncestorNode::VariableDeclarator(f) => {
                if parent.ty == AncestorType::VariableDeclaratorInit {
                    ctx.source_at(f.id_span)
                } else {
                    ""
                }
            },
            _ => "",
        };
        let args = &call_expr.arguments;
        let args_key = if str_eq(hook_name, "useState") && args.len() > 0 {
            ctx.source_at(args[0].span())
        } else if str_eq(hook_name, "useReducer") && args.len() > 1 {
            ctx.source_at(args[1].span())
        } else if str_eq(hook_name, "useSignal") && args.len() > 0 {
            ctx.source_at(args[0].span())
        } else {
            ""
        };
        self.add_line(current_scope_id, hook_name, declarator_id, args_key);
    }
}

/// The hooks of the program itself that a function calls.
pub open spec fn callees_of(called: Called, scope_id: ScopeId) -> Seq<Option<Hook>> {
    if called.callees.contains_key(scope_id) {
        called.callees[scope_id]
    } else {
        Seq::empty()
    }
}

/// What a signature signs for the function of a scope.
pub open spec fn signs(
    s: Signed,
    called: Called,
    scope_id: ScopeId,
    emit_full_signatures: bool,
) -> bool {
    let key = called.keys[scope_id];
    let callees = callees_of(called, scope_id);
    &&& s.key == if emit_full_signatures {
        key
    } else {
        hashed(key)
    }
    &&& s.hooks == present_hooks(callees)
    &&& s.force_reset == (s.hooks.len() != callees.len())
}

/// Whether there is room for the signature of the function of a scope, if it has one: for the
/// variable that signs, and for the scope of the function that gives the hooks.
pub open spec fn signature_fits(called: Called, scope_id: ScopeId, ctx: TransformCtx) -> bool {
    called.keys.contains_key(scope_id) ==> {
        &&& ctx.has_names(1)
        &&& present_hooks(callees_of(called, scope_id)).len() > 0 ==> ctx.has_scopes(1)
            && ctx.traverse.scoping.current_scope_id < ctx.scopes().len()
    }
}

/// The references that a signature comes by: to the function that gives the one that signs, and
/// to the variable that signs.
pub open spec fn signature_references(
    s: Signed,
    refresh_sig: RefreshIdentifierResolver,
    scope_id: ScopeId,
) -> Seq<Made> {
    refresh_sig.references_in(scope_id) + seq![reading_in(scope_id, s.binding)]
}

/// `after` is `before` with the variable that signs, and a scope for the function that gives the
/// hooks, where there are any.
pub open spec fn signature_added(
    before: TransformCtx,
    after: TransformCtx,
    s: Signed,
    refresh_sig: RefreshIdentifierResolver,
) -> bool {
    let scoping = before.traverse.scoping;
    let variables = after.state.var_declarations;
    &&& s.binding == before.next_uid("s"@)
    &&& after.symbols().len() == before.symbols().len() + 1
    &&& after.symbols().drop_last() == before.symbols()
    &&& is_new_symbol(
        after.symbols().last(),
        s.binding.name,
        scoping.current_hoist_scope_id,
        SymbolFlags::function_scoped_variable(),
    )
    &&& if s.hooks.len() > 0 {
        &&& s.scope_id == before.scopes().len()
        &&& after.scopes() == before.scopes().push(
            (Scope { parent_id: Some(scoping.current_scope_id), flags: ScopeFlags::function() }),
        )
    } else {
        after.scopes() == before.scopes()
    }
    &&& after.state == (TransformState { var_declarations: variables, ..before.state })
    &&& variables@.len() == before.state.var_declarations@.len() + 1
    &&& variables@.drop_last() == before.state.var_declarations@
    &&& variables@.last().scope_id == scoping.current_hoist_scope_id
    &&& variables@.last().binding@ == s.binding
    &&& has_shape(variables@.last().init, call(refresh_sig.shape(), Seq::empty()))
    &&& after.made() == before.made() + signature_references(
        s,
        refresh_sig,
        scoping.current_scope_id,
    )
    &&& after.traverse.ancestry == before.traverse.ancestry
    &&& after.traverse.scoping.current_scope_id == scoping.current_scope_id
    &&& after.traverse.scoping.current_hoist_scope_id == scoping.current_hoist_scope_id
}

/// `after` is a body like `before` that starts with a call of the variable that signs.
pub open spec fn call_inserted(before: FunctionBody, after: FunctionBody, binding: Bound) -> bool {
    &&& after.directives == before.directives
    &&& after.statements@.len() == before.statements@.len() + 1
    &&& after.statements@.skip(1) == before.statements@
    &&& statement_has_shape(
        after.statements@[0],
        (StatementShape::Expression {
            span: Span::empty(),
            value: call(Shape::Read(binding), Seq::empty()),
        }),
    )
}

/// What signing the function of a scope does: nothing where it calls no hook.
pub open spec fn function_signed(
    called: Called,
    called_after: Called,
    scope_id: ScopeId,
    before: FunctionBody,
    after: FunctionBody,
    ctx: TransformCtx,
    ctx_after: TransformCtx,
    emit_full_signatures: bool,
    refresh_sig: RefreshIdentifierResolver,
    r: Option<Signed>,
) -> bool {
    if called.keys.contains_key(scope_id) {
        &&& r matches Some(s)
        &&& signs(s, called, scope_id, emit_full_signatures)
        &&& signature_added(ctx, ctx_after, s, refresh_sig)
        &&& call_inserted(before, after, s.binding)
        &&& called_after == (Called {
            keys: called.keys.remove(scope_id),
            callees: called.callees.remove(scope_id),
        })
    } else {
        r is None && called_after == called && after == before && ctx_after == ctx
    }
}

/// The view of an optional signature.
pub open spec fn optional_signed(s: Option<Signature>) -> Option<Signed> {
    match s {
        Some(s) => Some(s@),
        None => None,
    }
}

impl Hooks {
    /// The hooks that are there, and whether one is not.
    fn filter_callees(callee_list: Vec<Option<HookCallee>>) -> (r: (Vec<HookCallee>, bool))
        ensures
            hook_views(r.0@) == present_hooks(optional_hooks(callee_list@)),
            r.1 == (r.0@.len() != callee_list@.len()),
    {
        let ghost all = optional_hooks(callee_list@);
        let mut hooks: Vec<HookCallee> = Vec::new();
        let mut i: usize = 0;
        proof {
            assert(hook_views(hooks@) =~= present_hooks(all.take(0)));
        }
        while i < callee_list.len()
            invariant
                i <= callee_list@.len(),
                all == optional_hooks(callee_list@),
                hook_views(hooks@) == present_hooks(all.take(i as int)),
            decreases callee_list@.len() - i,
        {
            proof {
                assert(all.take(i + 1).drop_last() =~= all.take(i as int));
                assert(all.take(i + 1).last() == optional_hook(callee_list@[i as int]));
            }
            if let Some(hook) = &callee_list[i] {
                let ghost before = hooks@;
                let copy = hook.copy();
                hooks.push(copy);
                proof {
                    assert(hook_views(hooks@) =~= hook_views(before).push(hook@));
                }
            }
            i += 1;
        }
        proof {
            assert(all.take(all.len() as int) =~= all);
        }
        let force_reset = hooks.len() != callee_list.len();
        (hooks, force_reset)
    }

    /// Signs the function of a scope, if it calls hooks.
    pub fn create_signature_call_expression(
        &mut self,
        scope_id: ScopeId,
        body: &mut FunctionBody,
        emit_full_signatures: bool,
        refresh_sig: &RefreshIdentifierResolver,
        ctx: &mut TransformCtx,
    ) -> (r: Option<Signature>)
        requires
            old(ctx).traverse.wf(),
            signature_fits(old(self)@, scope_id, *old(ctx)),
        ensures
            function_signed(
                old(self)@,
                final(self)@,
                scope_id,
                *old(body),
                *final(body),
                *old(ctx),
                *final(ctx),
                emit_full_signatures,
                *refresh_sig,
                optional_signed(r),
            ),
            final(ctx).traverse.wf(),
    {
        let ghost before = *self;
        let ghost start = *ctx;
        let ghost old_body = *body;
        let key = map_remove(&mut self.function_signature_keys, scope_id);
        let Some(key) = key else {
            proof {
                assert(self@.keys =~= before@.keys);
                assert(self@.callees =~= before@.callees);
            }
            return None;
        };
        let key = if emit_full_signatures {
            key
        } else {
            hash_signature(key.as_str())
        };
        let callee_list: Vec<Option<HookCallee>> = match map_remove(
            &mut self.non_builtin_hooks_callee,
            scope_id,
        ) {
            Some(list) => list,
            None => Vec::new(),
        };
        proof {
            assert(optional_hooks(callee_list@) =~= callees_of(before@, scope_id));
            assert(self@.keys =~= before@.keys.remove(scope_id));
            assert(self@.callees =~= before@.callees.remove(scope_id));
        }
        let (hooks, force_reset) = Hooks::filter_callees(callee_list);
        let mut function_scope_id: ScopeId = 0;
        if hooks.len() > 0 {
            let current_scope_id = ctx.traverse.scoping.current_scope_id;
            function_scope_id = ctx.create_child_scope(current_scope_id, ScopeFlags::function());
        }
        let no_arguments: Vec<Argument> = Vec::new();
        let none: Vec<Argument> = Vec::new();
        proof {
            assert(arguments_have_shapes(no_arguments@, Seq::empty()));
            assert(arguments_have_shapes(none@, Seq::empty()));
        }
        let init = make_call(refresh_sig.to_expression(ctx), no_arguments);
        let hoist_scope_id = ctx.traverse.scoping.current_hoist_scope_id;
        let ghost mid = *ctx;
        let binding = ctx.generate_uid(
            "s",
            hoist_scope_id,
            SymbolFlags::function_scoped_variable(),
        );
        proof {
            assert(mid.used_names() == start.used_names());
        }
        ctx.state.var_declarations.push(
            UidVar { scope_id: hoist_scope_id, binding: binding.copy(), init },
        );
        let call_expression = make_statement(make_call(ctx.create_read_expression(&binding), none));
        let ghost statements = body.statements@;
        body.statements.insert(0, call_expression);
        let signature = Signature {
            binding,
            key,
            force_reset,
            hooks,
            scope_id: function_scope_id,
        };
        proof {
            assert(body.statements@.skip(1) =~= statements);
            assert(ctx.state.var_declarations@.drop_last() =~= start.state.var_declarations@);
            assert(call_inserted(old_body, *body, signature@.binding));
            let current = start.traverse.scoping.current_scope_id;
            let first = refresh_sig.references_in(current);
            let second = seq![reading_in(current, signature@.binding)];
            assert((start.made() + first) + second =~= start.made() + (first + second));
            assert(signs(signature@, before@, scope_id, emit_full_signatures));
            assert(signature_added(start, *ctx, signature@, *refresh_sig));
        }
        Some(signature)
    }
}

/// A signature tells what changes: with full signatures, two functions that call different hooks,
/// or the same hooks another way, are signed differently.
pub proof fn law_full_signatures_tell_apart(
    a: Signed,
    b: Signed,
    first: Called,
    second: Called,
    scope_id: ScopeId,
)
    requires
        signs(a, first, scope_id, true),
        signs(b, second, scope_id, true),
        first.keys[scope_id] != second.keys[scope_id] || present_hooks(
            callees_of(first, scope_id),
        ) != present_hooks(callees_of(second, scope_id)),
    ensures
        a.key != b.key || a.hooks != b.hooks,
{
}

/// A function is signed once: what is known of its hooks is gone afterwards, and nothing else is.
pub proof fn law_signed_once(
    called: Called,
    called_after: Called,
    scope_id: ScopeId,
    other: ScopeId,
    before: FunctionBody,
    after: FunctionBody,
    ctx: TransformCtx,
    ctx_after: TransformCtx,
    emit_full_signatures: bool,
    refresh_sig: RefreshIdentifierResolver,
    r: Option<Signed>,
)
    requires
        function_signed(
            called,
            called_after,
            scope_id,
            before,
            after,
            ctx,
            ctx_after,
            emit_full_signatures,
            refresh_sig,
            r,
        ),
        other != scope_id,
    ensures
        !called_after.keys.contains_key(scope_id),
        called_after.keys.contains_key(other) == called.keys.contains_key(other),
        called.keys.contains_key(other) ==> called_after.keys[other] == called.keys[other],
{
}

/// The state of a component is thrown away whenever one of its hooks is not declared outside it.
pub proof fn law_unknown_hooks_force_a_reset(
    s: Signed,
    called: Called,
    scope_id: ScopeId,
    emit_full_signatures: bool,
)
    requires
        signs(s, called, scope_id, emit_full_signatures),
    ensures
        s.force_reset <==> exists|i: int|
            0 <= i < callees_of(called, scope_id).len() && (#[trigger] callees_of(
                called,
                scope_id,
            )[i]) is None,
{
    lemma_present_hooks(callees_of(called, scope_id));
}

/// As many hooks are there as are not missing.
proof fn lemma_present_hooks(list: Seq<Option<Hook>>)
    ensures
        present_hooks(list).len() <= list.len(),
        present_hooks(list).len() != list.len() <==> exists|i: int|
            0 <= i < list.len() && (#[trigger] list[i]) is None,
    decreases list.len(),
{
    if list.len() > 0 {
        let before = list.drop_last();
        lemma_present_hooks(before);
        if list.last() is None {
            assert(list[list.len() - 1] is None);
        }
        if exists|i: int| 0 <= i < before.len() && (#[trigger] before[i]) is None {
            let i = choose|i: int| 0 <= i < before.len() && (#[trigger] before[i]) is None;
            assert(list[i] is None);
        }
        if exists|i: int| 0 <= i < list.len() && (#[trigger] list[i]) is None {
            let i = choose|i: int| 0 <= i < list.len() && (#[trigger] list[i]) is None;
            if i < before.len() {
                assert(before[i] is None);
            }
        }
    }
}

} // verus!

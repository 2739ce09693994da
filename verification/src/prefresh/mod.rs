//! Components and hooks that can be exchanged while the program runs.

use self::components::{
    Registrations, after_statements, components_registered, grown, registered, registration_views,
    statement_is_sourced,
};
use self::contexts::{
    Contexts, collect_create_context_bindings, context_filename, context_params_from,
    context_references, context_shape, context_suffix, count_of, create_context_symbols,
    creates_context, spec_context_filename, suffix_is_sourced,
};
use self::hash::{hash_base36, short_hash};
use self::resolver::RefreshIdentifierResolver;
use self::signatures::{
    Called, Hooks, Signature, Signed, after_call, call_is_sourced, call_references,
    function_signed, optional_signed, signature_arguments, signature_fits,
};
use self::used::{collect_used_in_jsx_bindings, used_in_jsx};
use crate::ast::shape::{
    Shape, StatementShape, arguments_have_shapes, call, call_at, has_shape, lemma_first_argument,
    make_call, make_call_at, make_declarator, make_statement, make_statement_at,
    make_text, make_vars, statement_has_shape,
};
use crate::ast::{
    Argument, ArrowFunctionExpression, CallExpression, Expression, Function, FunctionBody,
    FunctionType, Program, ScopeId, Span, Statement, SymbolId, VariableDeclarator,
};
use crate::fx::{lemma_empty_strings, string_map};
use crate::signals::names::{arrow_wf, ensure_arrow_block_body, has_block_body};
use crate::transform::{InjectedStatement, TransformCtx, TransformState, reading_in};
use crate::traverse::{
    Ancestor, AncestorNode, AncestorType, Bound, BoundIdentifier, Made, spec_bound,
};
use rustc_hash::{FxHashMap, FxHashSet};
use vstd::prelude::*;

pub mod components;
pub mod contexts;
pub mod hash;
pub mod laws;
pub mod made;
pub mod resolver;
pub mod signatures;
pub mod signing;
pub mod used;

verus! {

/// The options of the transform.
#[derive(Debug)]
pub struct PrefreshOptions {
    /// The function that registers components.
    pub refresh_reg: String,
    /// The function that gives the functions that sign components.
    pub refresh_sig: String,
    /// Whether signatures are written out, and not hashed.
    pub emit_full_signatures: bool,
}

impl Default for PrefreshOptions {
    fn default() -> (r: Self)
        ensures
            r.refresh_reg@ == "$RefreshReg$"@,
            r.refresh_sig@ == "$RefreshSig$"@,
            !r.emit_full_signatures,
    {
        PrefreshOptions {
            refresh_reg: "$RefreshReg$".to_string(),
            refresh_sig: "$RefreshSig$".to_string(),
            emit_full_signatures: false,
        }
    }
}

/// The transform.
#[derive(Debug)]
pub struct Prefresh {
    pub refresh_reg: RefreshIdentifierResolver,
    pub refresh_sig: RefreshIdentifierResolver,
    pub emit_full_signatures: bool,
    pub registrations: Registrations,
    /// The signature of the function that the call under way was made with.
    pub last_signature: Option<Signature>,
    pub hooks: Hooks,
    pub used_in_jsx_bindings: FxHashSet<SymbolId>,
    pub contexts: Contexts,
}

/// The declarations of the variables that hold components.
pub open spec fn held_variables(list: Seq<(Bound, Seq<char>)>) -> StatementShape {
    StatementShape::Var {
        declarators: list.map_values(|r: (Bound, Seq<char>)| (r.0, None::<Shape>)),
    }
}

/// The call that registers a component.
pub open spec fn registration_call(refresh_reg: Shape, r: (Bound, Seq<char>)) -> StatementShape {
    StatementShape::Expression {
        span: Span::empty(),
        value: call(refresh_reg, seq![Shape::Read(r.0), Shape::Text(r.1)]),
    }
}

/// `after` are the statements `before`, the declarations of the variables that hold components,
/// and the calls that register them.
pub open spec fn registrations_added(
    before: Seq<Statement>,
    after: Seq<Statement>,
    refresh_reg: Shape,
    list: Seq<(Bound, Seq<char>)>,
) -> bool {
    if list.len() == 0 {
        after == before
    } else {
        &&& after.len() == before.len() + 1 + list.len()
        &&& after.take(before.len() as int) == before
        &&& statement_has_shape(after[before.len() as int], held_variables(list))
        &&& forall|i: int|
            #![trigger list[i]]
            0 <= i < list.len() ==> statement_has_shape(
                after[before.len() + 1 + i],
                registration_call(refresh_reg, list[i]),
            )
    }
}

/// The references that registering components comes by: for each, to the function that registers
/// and to the variable that holds it.
pub open spec fn registration_references(
    refresh_reg: RefreshIdentifierResolver,
    list: Seq<(Bound, Seq<char>)>,
    scope_id: ScopeId,
) -> Seq<Made>
    decreases list.len(),
{
    if list.len() == 0 {
        Seq::empty()
    } else {
        registration_references(refresh_reg, list.drop_last(), scope_id)
            + refresh_reg.references_in(scope_id) + seq![reading_in(scope_id, list.last().0)]
    }
}

/// Whether the innermost node round the current one that is no assignment is a call.
pub open spec fn is_in_call(ancestors: Seq<Ancestor>, index: int) -> bool
    decreases ancestors.len() - index,
{
    if 0 <= index < ancestors.len() {
        match ancestors[index].node {
            AncestorNode::Assignment(_) => is_in_call(ancestors, index + 1),
            AncestorNode::Call(_) => true,
            _ => false,
        }
    } else {
        false
    }
}

/// The variable that the current node is the value of.
pub open spec fn declared_variable(parent: Ancestor) -> Option<Bound> {
    match parent.node {
        AncestorNode::VariableDeclarator(f) if parent.ty == AncestorType::VariableDeclaratorInit =>
            match f.binding {
            Some(b) => Some(b@),
            None => None,
        },
        _ => None,
    }
}

/// The statement that declares the variable that the current node is the value of.
pub open spec fn declaration_address(stack: Seq<Ancestor>) -> Option<u32> {
    let n = stack.len();
    if n >= 3 && stack[n - 3].ty == AncestorType::ExportNamedDeclarationDeclaration
        && stack[n - 3].node is Export {
        Some(stack[n - 3].node->Export_0.address)
    } else if n >= 2 && stack[n - 2].node is VariableDeclaration {
        Some(stack[n - 2].node->VariableDeclaration_0.address)
    } else {
        None
    }
}

/// `after` is `before` with a statement to put after another, and the references in it.
pub open spec fn statement_injected(
    before: TransformCtx,
    after: TransformCtx,
    address: u32,
    shape: StatementShape,
    references: Seq<Made>,
) -> bool {
    let injected = after.state.injected;
    &&& after == (TransformCtx {
        state: TransformState { injected, ..before.state },
        ..before.with_made(after.traverse.scoping.made)
    })
    &&& after.made() == before.made() + references
    &&& injected@.len() == before.state.injected@.len() + 1
    &&& injected@.drop_last() == before.state.injected@
    &&& injected@.last().address == address
    &&& statement_has_shape(injected@.last().statement, shape)
}

/// The call that signs a component.
pub open spec fn signing_call(span: Span, s: Signed, component: Shape) -> Shape {
    call_at(span, Shape::Read(s.binding), seq![component] + signature_arguments(s))
}

/// Whether the current node is a function that is the value of a variable.
pub open spec fn is_declared_function(expr: Expression, stack: Seq<Ancestor>) -> bool {
    !(expr is Call) && declared_variable(stack.last()) is Some
}

/// What a signature does where it is applied to an expression: to a function that is the value of
/// a variable, nothing, and the variable is signed after its declaration; else the expression is
/// handed to the call that signs it, and an enclosing call is signed too.
pub open spec fn signature_applied(
    before: Prefresh,
    after: Prefresh,
    expr: Expression,
    expr_after: Expression,
    ctx: TransformCtx,
    ctx_after: TransformCtx,
    s: Signed,
) -> bool {
    let stack = ctx.traverse.ancestry.stack@;
    if is_declared_function(expr, stack) {
        &&& expr_after == expr
        &&& after == before
        &&& statement_injected(
            ctx,
            ctx_after,
            declaration_address(stack)->0,
            StatementShape::Expression {
                span: Span::empty(),
                value: signing_call(Span::empty(), s, Shape::Read(declared_variable(stack.last())->0)),
            },
            seq![ctx.reading(declared_variable(stack.last())->0), ctx.reading(s.binding)],
        )
    } else {
        &&& has_shape(expr_after, signing_call(expr.spec_span(), s, Shape::Given(expr)))
        &&& ctx_after.referred(ctx, seq![ctx.reading(s.binding)])
        &&& after == (Prefresh { last_signature: after.last_signature, ..before })
        &&& if is_in_call(ctx.traverse.ancestry.outward(), 0) {
            optional_signed(after.last_signature) == Some(s)
        } else {
            after.last_signature == before.last_signature
        }
    }
}

/// What is known of the signature of an expression: a function that calls hooks is signed, and a
/// call is signed as the function that it was made with.
pub open spec fn signature_found(
    before: Prefresh,
    after: Prefresh,
    expr: Expression,
    expr_after: Expression,
    ctx: TransformCtx,
    ctx_after: TransformCtx,
    r: Option<Signed>,
) -> bool {
    match expr {
        Expression::Function(func) => {
            &&& expr_after matches Expression::Function(func_after)
            &&& *func_after == (Function { body: func_after.body, ..*func })
            &&& func_after.body is Some
            &&& function_signed(
                before.hooks@,
                after.hooks@,
                func.scope_id,
                func.body->0,
                func_after.body->0,
                ctx,
                ctx_after,
                before.emit_full_signatures,
                before.refresh_sig,
                r,
            )
            &&& after == (Prefresh { hooks: after.hooks, ..before })
        },
        Expression::Arrow(arrow) => {
            &&& expr_after matches Expression::Arrow(arrow_after)
            &&& exists|body: FunctionBody|
                {
                    let signed = ArrowFunctionExpression { body, ..*arrow };
                    &&& #[trigger] function_signed(
                        before.hooks@,
                        after.hooks@,
                        arrow.scope_id,
                        arrow.body,
                        body,
                        ctx,
                        ctx_after,
                        before.emit_full_signatures,
                        before.refresh_sig,
                        r,
                    )
                    &&& if r is Some {
                        has_block_body(signed, *arrow_after)
                    } else {
                        *arrow_after == signed
                    }
                }
            &&& after == (Prefresh { hooks: after.hooks, ..before })
        },
        Expression::Call(_) => {
            &&& r == optional_signed(before.last_signature)
            &&& after == (Prefresh { last_signature: None, ..before })
            &&& expr_after == expr
            &&& ctx_after == ctx
        },
        _ => r is None && after == before && expr_after == expr && ctx_after == ctx,
    }
}

/// What becomes of an expression that is no call of `createContext`.
pub open spec fn expression_signed(
    before: Prefresh,
    after: Prefresh,
    expr: Expression,
    expr_after: Expression,
    ctx: TransformCtx,
    ctx_after: TransformCtx,
) -> bool {
    exists|mid: Prefresh, mid_expr: Expression, mid_ctx: TransformCtx, r: Option<Signed>|
        {
            &&& #[trigger] signature_found(before, mid, expr, mid_expr, ctx, mid_ctx, r)
            &&& match r {
                Some(s) => signature_applied(
                    mid,
                    after,
                    mid_expr,
                    expr_after,
                    mid_ctx,
                    ctx_after,
                    s,
                ),
                None => after == mid && expr_after == mid_expr && ctx_after == mid_ctx,
            }
        }
}

/// What becomes of a call of `createContext`.
pub open spec fn context_kept(
    before: Prefresh,
    after: Prefresh,
    call_expr: CallExpression,
    expr_after: Expression,
    ctx: TransformCtx,
    ctx_after: TransformCtx,
) -> bool {
    let suffix = context_suffix(ctx.traverse.ancestry.stack@.last(), ctx.state.source_text@);
    let counts = string_map(before.contexts.contexts@);
    &&& has_shape(
        expr_after,
        context_shape(
            call_expr,
            before.contexts.next_prefix(ctx),
            context_params_from(ctx.traverse.ancestry.outward(), 0),
        ),
    )
    &&& string_map(after.contexts.contexts@) == counts.insert(
        suffix,
        (count_of(counts, suffix) + 1) as u32,
    )
    &&& after == (Prefresh {
        contexts: Contexts { contexts: after.contexts.contexts, ..before.contexts },
        ..before
    })
    &&& ctx_after.referred(
        ctx,
        context_references(
            call_expr,
            context_params_from(ctx.traverse.ancestry.outward(), 0),
            ctx.traverse.scoping.current_scope_id,
        ),
    )
}

/// The place to sign a declared function after: the declaration, or the one that exports it.
pub open spec fn function_address(func: Function, parent: Ancestor) -> u32 {
    match parent.node {
        AncestorNode::Export(f) if parent.ty == AncestorType::ExportNamedDeclarationDeclaration
            || parent.ty == AncestorType::ExportDefaultDeclarationDeclaration => f.address,
        _ => func.address,
    }
}

/// What becomes of a function declaration: where it calls hooks it is signed, and where it has a
/// name the call that signs it comes after it.
pub open spec fn declaration_signed(
    before: Prefresh,
    after: Prefresh,
    func: Function,
    func_after: Function,
    ctx: TransformCtx,
    ctx_after: TransformCtx,
) -> bool {
    exists|mid_ctx: TransformCtx, r: Option<Signed>|
        {
            &&& #[trigger] function_signed(
                before.hooks@,
                after.hooks@,
                func.scope_id,
                func.body->0,
                func_after.body->0,
                ctx,
                mid_ctx,
                before.emit_full_signatures,
                before.refresh_sig,
                r,
            )
            &&& match (r, func.id) {
                (Some(s), Some(id)) => statement_injected(
                    mid_ctx,
                    ctx_after,
                    function_address(func, ctx.traverse.ancestry.stack@.last()),
                    StatementShape::Expression {
                        span: func.span,
                        value: signing_call(func.span, s, Shape::Read(spec_bound(id))),
                    },
                    seq![ctx.reading(spec_bound(id)), ctx.reading(s.binding)],
                ),
                _ => ctx_after == mid_ctx,
            }
        }
}

impl Prefresh {
    /// The transform with these options.
    pub fn new(options: &PrefreshOptions) -> (r: Prefresh)
        ensures
            r.refresh_reg.names(options.refresh_reg@),
            r.refresh_sig.names(options.refresh_sig@),
            r.emit_full_signatures == options.emit_full_signatures,
            r.registrations.list@.len() == 0,
            r.last_signature is None,
            r.hooks@ == (Called { keys: Map::empty(), callees: Map::empty() }),
            r.used_in_jsx_bindings@ == Set::<SymbolId>::empty(),
            r.contexts.create_context_bindings@ == Set::<SymbolId>::empty(),
            r.contexts.file_hash@.len() == 0,
            string_map(r.contexts.contexts@) == Map::<Seq<char>, u32>::empty(),
    {
        proof {
            lemma_empty_strings::<u32>();
        }
        Prefresh {
            refresh_reg: RefreshIdentifierResolver::parse(options.refresh_reg.as_str()),
            refresh_sig: RefreshIdentifierResolver::parse(options.refresh_sig.as_str()),
            emit_full_signatures: options.emit_full_signatures,
            registrations: Registrations { list: Vec::new() },
            last_signature: None,
            hooks: Hooks::new(),
            used_in_jsx_bindings: FxHashSet::default(),
            contexts: Contexts {
                create_context_bindings: FxHashSet::default(),
                file_hash: String::new(),
                contexts: FxHashMap::default(),
            },
        }
    }

    /// At the program.
    pub fn enter_program(&mut self, program: &mut Program, ctx: &mut TransformCtx)
        requires
            old(ctx).traverse.wf(),
            forall|k: int|
                0 <= k < old(program).body@.len() ==> statement_is_sourced(
                    #[trigger] old(program).body@[k],
                    old(ctx).state.source_text@,
                ),
            registered(old(self).registrations, *old(ctx)).reaches(
                after_statements(
                    registered(old(self).registrations, *old(ctx)),
                    old(program).body@,
                    used_in_jsx(old(program).body@),
                    old(ctx).state.source_text@,
                ),
            ),
        ensures
            final(self).used_in_jsx_bindings@ == used_in_jsx(old(program).body@),
            final(self).contexts.create_context_bindings@ == create_context_symbols(
                old(program).body@,
            ),
            final(self).contexts.file_hash@ == short_hash(spec_context_filename(old(ctx).state)),
            string_map(final(self).contexts.contexts@) == Map::<Seq<char>, u32>::empty(),
            final(program).comments == old(program).comments,
            components_registered(
                old(program).body@,
                final(program).body@,
                registered(old(self).registrations, *old(ctx)),
                used_in_jsx(old(program).body@),
                old(ctx).state.source_text@,
            ),
            registered(final(self).registrations, *final(ctx)) == after_statements(
                registered(old(self).registrations, *old(ctx)),
                old(program).body@,
                used_in_jsx(old(program).body@),
                old(ctx).state.source_text@,
            ),
            grown(*old(ctx), *final(ctx)),
            final(ctx).traverse.wf(),
            *final(self) == (Prefresh {
                registrations: final(self).registrations,
                used_in_jsx_bindings: final(self).used_in_jsx_bindings,
                contexts: final(self).contexts,
                ..*old(self)
            }),
    {
        proof {
            lemma_empty_strings::<u32>();
        }
        self.used_in_jsx_bindings = collect_used_in_jsx_bindings(program);
        let filename = context_filename(&ctx.state);
        self.contexts = Contexts {
            create_context_bindings: collect_create_context_bindings(program),
            file_hash: hash_base36(filename.as_str()),
            contexts: FxHashMap::default(),
        };
        self.registrations.process_statements(&mut program.body, &self.used_in_jsx_bindings, ctx);
    }

    /// After the program.
    pub fn exit_program(&self, program: &mut Program, ctx: &mut TransformCtx)
        ensures
            final(ctx).referred(
                *old(ctx),
                registration_references(
                    self.refresh_reg,
                    registration_views(self.registrations.list@),
                    old(ctx).traverse.scoping.current_scope_id,
                ),
            ),
            final(program).comments == old(program).comments,
            registrations_added(
                old(program).body@,
                final(program).body@,
                self.refresh_reg.shape(),
                registration_views(self.registrations.list@),
            ),
    {
        let list = &self.registrations.list;
        let ghost start = *ctx;
        let ghost scope_id = ctx.traverse.scoping.current_scope_id;
        proof {
            assert(start.made() + Seq::<Made>::empty() =~= start.made());
            assert(registration_views(list@).take(0) =~= Seq::empty());
        }
        if list.len() == 0 {
            return;
        }
        let ghost before = program.body@;
        let ghost views = registration_views(list@);
        let mut declarators: Vec<VariableDeclarator> = Vec::new();
        let mut calls: Vec<Statement> = Vec::new();
        let mut i: usize = 0;
        while i < list.len()
            invariant
                i <= list@.len(),
                views == registration_views(list@),
                scope_id == start.traverse.scoping.current_scope_id,
                ctx.referred(
                    start,
                    registration_references(self.refresh_reg, views.take(i as int), scope_id),
                ),
                declarators@.len() == i,
                calls@.len() == i,
                forall|j: int|
                    0 <= j < i ==> crate::ast::shape::declarator_has_shape(
                        #[trigger] declarators@[j],
                        (views[j].0, None::<Shape>),
                    ),
                forall|j: int|
                    0 <= j < i ==> statement_has_shape(
                        #[trigger] calls@[j],
                        registration_call(self.refresh_reg.shape(), views[j]),
                    ),
            decreases list@.len() - i,
        {
            let registration = &list[i];
            proof {
                assert(views[i as int] == (registration.binding@, registration.persistent_id@));
            }
            declarators.push(make_declarator(&registration.binding, None));
            let callee = self.refresh_reg.to_expression(ctx);
            let mut arguments: Vec<Argument> = Vec::new();
            arguments.push(Argument::Expression(ctx.create_read_expression(&registration.binding)));
            arguments.push(Argument::Expression(make_text(registration.persistent_id.as_str())));
            proof {
                let shapes = seq![
                    Shape::Read(views[i as int].0),
                    Shape::Text(views[i as int].1),
                ];
                assert(has_shape(arguments@[0]->Expression_0, shapes[0]));
                assert(has_shape(arguments@[1]->Expression_0, shapes[1]));
                assert(arguments_have_shapes(arguments@, shapes));
                let seen = views.take(i + 1);
                assert(seen.drop_last() =~= views.take(i as int));
                let earlier = registration_references(
                    self.refresh_reg,
                    views.take(i as int),
                    scope_id,
                );
                let named = self.refresh_reg.references_in(scope_id);
                let read = seq![reading_in(scope_id, views[i as int].0)];
                assert(((start.made() + earlier) + named) + read =~= start.made() + ((earlier
                    + named) + read));
            }
            calls.push(make_statement(make_call(callee, arguments)));
            i += 1;
        }
        let var_decl = make_vars(declarators);
        proof {
            assert(statement_has_shape(var_decl, held_variables(views)));
        }
        program.body.push(var_decl);
        program.body.append(&mut calls);
        proof {
            assert(program.body@.take(before.len() as int) =~= before);
            assert(views.take(views.len() as int) =~= views);
        }
    }

    /// At a call.
    pub fn enter_call_expression(&mut self, call_expr: &CallExpression, ctx: &mut TransformCtx)
        requires
            old(ctx).traverse.wf(),
            old(ctx).symbols().len() <= u32::MAX,
            call_is_sourced(*call_expr, *old(ctx)),
        ensures
            final(self).hooks@ == after_call(old(self).hooks@, *call_expr, *old(ctx)),
            final(ctx).referred(*old(ctx), call_references(*call_expr, *old(ctx))),
            *final(self) == (Prefresh { hooks: final(self).hooks, ..*old(self) }),
    {
        self.hooks.enter_call_expression(call_expr, ctx);
    }

    /// What is known of the signature of an expression.
    fn find_signature(&mut self, expr: &mut Expression, ctx: &mut TransformCtx) -> (r: Option<
        Signature,
    >)
        requires
            old(ctx).traverse.wf(),
            expression_fits(*old(self), *old(expr), *old(ctx)),
        ensures
            signature_found(
                *old(self),
                *final(self),
                *old(expr),
                *final(expr),
                *old(ctx),
                *final(ctx),
                optional_signed(r),
            ),
            final(ctx).traverse.wf(),
    {
        match expr {
            Expression::Function(func) => {
                let scope_id = func.scope_id;
                match &mut func.body {
                    Some(body) => self.hooks.create_signature_call_expression(
                        scope_id,
                        body,
                        self.emit_full_signatures,
                        &self.refresh_sig,
                        ctx,
                    ),
                    None => None,
                }
            },
            Expression::Arrow(arrow) => {
                let ghost whole = **arrow;
                let scope_id = arrow.scope_id;
                let signature = self.hooks.create_signature_call_expression(
                    scope_id,
                    &mut arrow.body,
                    self.emit_full_signatures,
                    &self.refresh_sig,
                    ctx,
                );
                let ghost body = arrow.body;
                proof {
                    assert(**arrow == (ArrowFunctionExpression { body, ..whole }));
                    if whole.expression && signature is Some {
                        assert(body.statements@.last() == body.statements@.skip(1).last());
                    }
                }
                if signature.is_some() {
                    ensure_arrow_block_body(arrow);
                }
                signature
            },
            Expression::Call(_) => {
                let mut signature: Option<Signature> = None;
                core::mem::swap(&mut signature, &mut self.last_signature);
                signature
            },
            _ => None,
        }
    }

    /// Whether the innermost node round the current one that is no assignment is a call.
    fn is_inside_call(ctx: &TransformCtx) -> (r: bool)
        requires
            ctx.traverse.wf(),
        ensures
            r == is_in_call(ctx.traverse.ancestry.outward(), 0),
    {
        let ghost ancestors = ctx.traverse.ancestry.outward();
        let mut index: usize = 0;
        loop
            invariant
                ctx.traverse.wf(),
                ancestors == ctx.traverse.ancestry.outward(),
                index <= ancestors.len(),
                is_in_call(ancestors, 0) == is_in_call(ancestors, index as int),
            decreases ancestors.len() - index,
        {
            let Some(ancestor) = ctx.traverse.ancestry.outward_at(index) else {
                return false;
            };
            if !ancestor.node.is_assignment_expression() {
                return ancestor.node.is_call_expression();
            }
            index += 1;
        }
    }

    /// The arguments of the call that signs a component.
    fn signing_arguments(signature: &Signature, component: Expression) -> (r: Vec<Argument>)
        ensures
            forall|c: Shape|
                has_shape(component, c) ==> #[trigger] arguments_have_shapes(
                    r@,
                    seq![c] + signature_arguments(signature@),
                ),
    {
        let mut arguments = signature.arguments();
        let ghost rest = arguments@;
        arguments.insert(0, Argument::Expression(component));
        proof {
            assert(arguments@ =~= seq![Argument::Expression(component)] + rest);
            assert forall|c: Shape| has_shape(component, c) implies #[trigger] arguments_have_shapes(
                arguments@,
                seq![c] + signature_arguments(signature@),
            ) by {
                lemma_first_argument(component, c, rest, signature_arguments(signature@));
            }
        }
        arguments
    }

    /// Signs the variable that holds a function, after the declaration of the variable.
    fn handle_function_in_variable_declarator(
        id_binding: &BoundIdentifier,
        signature: &Signature,
        ctx: &mut TransformCtx,
    )
        requires
            declaration_address(old(ctx).traverse.ancestry.stack@) is Some,
        ensures
            statement_injected(
                *old(ctx),
                *final(ctx),
                declaration_address(old(ctx).traverse.ancestry.stack@)->0,
                StatementShape::Expression {
                    span: Span::empty(),
                    value: signing_call(Span::empty(), signature@, Shape::Read(id_binding@)),
                },
                seq![old(ctx).reading(id_binding@), old(ctx).reading(signature@.binding)],
            ),
    {
        let ghost made = ctx.made();
        let component = ctx.create_read_expression(id_binding);
        let arguments = Prefresh::signing_arguments(signature, component);
        let callee = ctx.create_read_expression(&signature.binding);
        let signed = make_call_at(Span::empty(), callee, arguments);
        let statement = make_statement(signed);
        proof {
            assert(has_shape(component, Shape::Read(id_binding@)));
            assert(arguments_have_shapes(
                arguments@,
                seq![Shape::Read(id_binding@)] + signature_arguments(signature@),
            ));
        }
        let mut address: u32 = 0;
        let mut exported = false;
        if let Some(outer) = ctx.traverse.ancestor(3) {
            if outer.ty == AncestorType::ExportNamedDeclarationDeclaration {
                if let AncestorNode::Export(f) = &outer.node {
                    address = f.address;
                    exported = true;
                }
            }
        }
        if !exported {
            if let Some(outer) = ctx.traverse.ancestor(2) {
                if let AncestorNode::VariableDeclaration(f) = &outer.node {
                    address = f.address;
                }
            }
        }
        let ghost before = ctx.state.injected@;
        ctx.state.injected.push(InjectedStatement { address, statement });
        proof {
            assert(ctx.state.injected@.drop_last() =~= before);
            let first = old(ctx).reading(id_binding@);
            let second = old(ctx).reading(signature@.binding);
            assert((made + seq![first]) + seq![second] =~= made + seq![first, second]);
        }
    }

    /// The variable that the current node is the value of.
    fn declared_binding(ctx: &TransformCtx) -> (r: Option<BoundIdentifier>)
        requires
            ctx.traverse.wf(),
        ensures
            declared_variable(ctx.traverse.ancestry.stack@.last()) == (match r {
                Some(b) => Some(b@),
                None => None,
            }),
    {
        let parent = ctx.traverse.parent();
        if parent.ty != AncestorType::VariableDeclaratorInit {
            return None;
        }
        match &parent.node {
            AncestorNode::VariableDeclarator(f) => match &f.binding {
                Some(b) => Some(b.copy()),
                None => None,
            },
            _ => None,
        }
    }

    /// Applies a signature to an expression.
    fn apply_signature(
        &mut self,
        signature: Signature,
        expr: &mut Expression,
        ctx: &mut TransformCtx,
    )
        requires
            old(ctx).traverse.wf(),
            is_declared_function(*old(expr), old(ctx).traverse.ancestry.stack@)
                ==> declaration_address(old(ctx).traverse.ancestry.stack@) is Some,
        ensures
            signature_applied(
                *old(self),
                *final(self),
                *old(expr),
                *final(expr),
                *old(ctx),
                *final(ctx),
                signature@,
            ),
            final(ctx).traverse.wf(),
    {
        let is_call = match expr {
            Expression::Call(_) => true,
            _ => false,
        };
        if !is_call {
            if let Some(id_binding) = Prefresh::declared_binding(ctx) {
                Prefresh::handle_function_in_variable_declarator(&id_binding, &signature, ctx);
                return;
            }
        }
        let span = expr.span();
        let mut taken = Expression::This(Span::empty());
        core::mem::swap(expr, &mut taken);
        let ghost whole = taken;
        let arguments = Prefresh::signing_arguments(&signature, taken);
        let callee = ctx.create_read_expression(&signature.binding);
        *expr = make_call_at(span, callee, arguments);
        proof {
            assert(has_shape(whole, Shape::Given(whole)));
            assert(arguments_have_shapes(
                arguments@,
                seq![Shape::Given(whole)] + signature_arguments(signature@),
            ));
        }
        if Prefresh::is_inside_call(ctx) {
            self.last_signature = Some(signature);
        }
    }

    /// After an expression.
    pub fn exit_expression(&mut self, expr: &mut Expression, ctx: &mut TransformCtx)
        requires
            old(ctx).traverse.wf(),
            match *old(expr) {
                Expression::Call(call_expr) if creates_context(
                    *call_expr,
                    old(self).contexts.create_context_bindings@,
                ) => context_fits(old(self).contexts, *old(ctx)),
                _ => expression_fits(*old(self), *old(expr), *old(ctx)),
            },
        ensures
            match *old(expr) {
                Expression::Call(call_expr) if creates_context(
                    *call_expr,
                    old(self).contexts.create_context_bindings@,
                ) => context_kept(
                    *old(self),
                    *final(self),
                    *call_expr,
                    *final(expr),
                    *old(ctx),
                    *final(ctx),
                ),
                _ => expression_signed(
                    *old(self),
                    *final(self),
                    *old(expr),
                    *final(expr),
                    *old(ctx),
                    *final(ctx),
                ),
            },
            final(ctx).traverse.wf(),
    {
        let is_create_context = match expr {
            Expression::Call(call_expr) => self.contexts.is_create_context_call(call_expr),
            _ => false,
        };
        if is_create_context {
            let mut taken = Expression::This(Span::empty());
            core::mem::swap(expr, &mut taken);
            if let Expression::Call(call_expr) = taken {
                *expr = self.contexts.transform_create_context_call(*call_expr, ctx);
            }
            return;
        }
        let ghost start = *self;
        let ghost start_expr = *expr;
        let ghost start_ctx = *ctx;
        let signature = self.find_signature(expr, ctx);
        proof {
            assert(signature_found(
                start,
                *self,
                start_expr,
                *expr,
                start_ctx,
                *ctx,
                optional_signed(signature),
            ));
            assert(ctx.traverse.ancestry == start_ctx.traverse.ancestry);
            assert((*expr is Call) == (start_expr is Call));
        }
        if let Some(signature) = signature {
            self.apply_signature(signature, expr, ctx);
        }
    }

    /// After a function.
    pub fn exit_function(&mut self, func: &mut Function, ctx: &mut TransformCtx)
        requires
            old(func).function_type == FunctionType::FunctionDeclaration ==> old(func).body is Some
                && signature_fits(old(self).hooks@, old(func).scope_id, *old(ctx)),
            old(ctx).traverse.wf(),
        ensures
            if old(func).function_type == FunctionType::FunctionDeclaration {
                &&& *final(func) == (Function { body: final(func).body, ..*old(func) })
                &&& final(func).body is Some
                &&& *final(self) == (Prefresh { hooks: final(self).hooks, ..*old(self) })
                &&& declaration_signed(
                    *old(self),
                    *final(self),
                    *old(func),
                    *final(func),
                    *old(ctx),
                    *final(ctx),
                )
            } else {
                *final(func) == *old(func) && *final(self) == *old(self) && *final(ctx) == *old(ctx)
            },
            final(ctx).traverse.wf(),
    {
        if func.function_type != FunctionType::FunctionDeclaration {
            return;
        }
        let ghost start = *self;
        let ghost start_func = *func;
        let ghost start_ctx = *ctx;
        let scope_id = func.scope_id;
        let signature = match &mut func.body {
            Some(body) => self.hooks.create_signature_call_expression(
                scope_id,
                body,
                self.emit_full_signatures,
                &self.refresh_sig,
                ctx,
            ),
            None => None,
        };
        proof {
            assert(function_signed(
                start.hooks@,
                self.hooks@,
                scope_id,
                start_func.body->0,
                func.body->0,
                start_ctx,
                *ctx,
                start.emit_full_signatures,
                start.refresh_sig,
                optional_signed(signature),
            ));
        }
        let Some(signature) = signature else {
            return;
        };
        let Some(id) = &func.id else {
            return;
        };
        let id_binding = BoundIdentifier::from_binding_ident(id);
        let ghost made = ctx.made();
        let component = ctx.create_read_expression(&id_binding);
        let arguments = Prefresh::signing_arguments(&signature, component);
        let callee = ctx.create_read_expression(&signature.binding);
        let call_expr = make_call_at(func.span, callee, arguments);
        let statement = make_statement_at(func.span, call_expr);
        proof {
            assert(has_shape(component, Shape::Read(id_binding@)));
            assert(arguments_have_shapes(
                arguments@,
                seq![Shape::Read(id_binding@)] + signature_arguments(signature@),
            ));
        }
        let parent = ctx.traverse.parent();
        let address = match &parent.node {
            AncestorNode::Export(f) if parent.ty == AncestorType::ExportNamedDeclarationDeclaration
                || parent.ty == AncestorType::ExportDefaultDeclarationDeclaration => f.address,
            _ => func.address,
        };
        let ghost before = ctx.state.injected@;
        ctx.state.injected.push(InjectedStatement { address, statement });
        proof {
            assert(ctx.state.injected@.drop_last() =~= before);
            let first = start_ctx.reading(id_binding@);
            let second = start_ctx.reading(signature@.binding);
            assert((made + seq![first]) + seq![second] =~= made + seq![first, second]);
        }
    }
}

/// Whether an expression is one that can be signed, if it has a signature: a function has a body,
/// there is room for the signature, and a variable is declared in a declaration.
pub open spec fn expression_fits(rule: Prefresh, expr: Expression, ctx: TransformCtx) -> bool {
    let stack = ctx.traverse.ancestry.stack@;
    let placed = is_declared_function(expr, stack) ==> declaration_address(stack) is Some;
    match expr {
        Expression::Function(func) => {
            &&& func.body is Some
            &&& signature_fits(rule.hooks@, func.scope_id, ctx)
            &&& rule.hooks@.keys.contains_key(func.scope_id) ==> placed
        },
        Expression::Arrow(arrow) => {
            &&& signature_fits(rule.hooks@, arrow.scope_id, ctx)
            &&& rule.hooks@.keys.contains_key(arrow.scope_id) ==> placed && arrow_wf(*arrow)
        },
        _ => true,
    }
}

/// Whether a context can be named and counted.
pub open spec fn context_fits(contexts: Contexts, ctx: TransformCtx) -> bool {
    let parent = ctx.traverse.ancestry.stack@.last();
    &&& suffix_is_sourced(parent, ctx.state.source_text@)
    &&& count_of(
        string_map(contexts.contexts@),
        context_suffix(parent, ctx.state.source_text@),
    ) < u32::MAX
}

/// The statements of the program come first and in their order, and every component is registered
/// by exactly one call, in the order of the registrations.
pub proof fn law_components_are_registered_in_order(
    before: Seq<Statement>,
    after: Seq<Statement>,
    refresh_reg: Shape,
    list: Seq<(Bound, Seq<char>)>,
)
    requires
        registrations_added(before, after, refresh_reg, list),
    ensures
        before.is_prefix_of(after),
        list.len() == 0 ==> after == before,
        list.len() > 0 ==> after.len() == before.len() + 1 + list.len(),
        forall|i: int|
            #![trigger list[i]]
            0 <= i < list.len() ==> statement_has_shape(
                after[after.len() - list.len() + i],
                registration_call(refresh_reg, list[i]),
            ),
{
    if list.len() > 0 {
        assert(before =~= after.subrange(0, before.len() as int));
    } else {
        assert(before =~= after.subrange(0, before.len() as int));
    }
}

/// A function that calls no hook is left as it is, and so is everything else.
pub proof fn law_functions_without_hooks_are_kept(
    before: Prefresh,
    after: Prefresh,
    expr: Expression,
    expr_after: Expression,
    ctx: TransformCtx,
    ctx_after: TransformCtx,
)
    requires
        expression_signed(before, after, expr, expr_after, ctx, ctx_after),
        match expr {
            Expression::Function(func) => func.body is Some && !before.hooks@.keys.contains_key(
                func.scope_id,
            ),
            Expression::Arrow(arrow) => !before.hooks@.keys.contains_key(arrow.scope_id),
            _ => false,
        },
    ensures
        expr_after == expr,
        ctx_after == ctx,
        after.hooks@ == before.hooks@,
        after == (Prefresh { hooks: after.hooks, ..before }),
{
}

/// The signature that a call hands on is used up by the call, unless another call is round it.
pub proof fn law_signatures_are_handed_on_once(
    before: Prefresh,
    after: Prefresh,
    expr: Expression,
    expr_after: Expression,
    ctx: TransformCtx,
    ctx_after: TransformCtx,
)
    requires
        expression_signed(before, after, expr, expr_after, ctx, ctx_after),
        expr is Call,
    ensures
        before.last_signature is None ==> after.last_signature is None && expr_after == expr
            && ctx_after == ctx,
        !is_in_call(ctx.traverse.ancestry.outward(), 0) ==> after.last_signature is None,
        before.last_signature matches Some(s) ==> has_shape(
            expr_after,
            signing_call(expr.spec_span(), s@, Shape::Given(expr)),
        ) && ctx_after.referred(ctx, seq![ctx.reading(s@.binding)]),
{
}

/// A function expression that calls hooks is signed, and so is an arrow function: one variable that
/// signs is declared, the body starts with a call of it, and the function is handed to it, or, where
/// it is the value of a variable, the variable is, after its declaration. What was known of its
/// hooks is used up.
pub proof fn law_functions_with_hooks_are_signed(
    before: Prefresh,
    after: Prefresh,
    expr: Expression,
    expr_after: Expression,
    ctx: TransformCtx,
    ctx_after: TransformCtx,
)
    requires
        expression_signed(before, after, expr, expr_after, ctx, ctx_after),
        match expr {
            Expression::Function(func) => func.body is Some && before.hooks@.keys.contains_key(
                func.scope_id,
            ),
            Expression::Arrow(arrow) => before.hooks@.keys.contains_key(arrow.scope_id),
            _ => false,
        },
    ensures
        ({
            let scope_id = match expr {
                Expression::Function(func) => func.scope_id,
                _ => expr->Arrow_0.scope_id,
            };
            let stack = ctx.traverse.ancestry.stack@;
            let variables = ctx_after.state.var_declarations@;
            let signer = ctx.next_uid("s"@);
            let is_value = declared_variable(stack.last()) is Some;
            &&& !after.hooks@.keys.contains_key(scope_id)
            &&& !after.hooks@.callees.contains_key(scope_id)
            &&& variables.len() == ctx.state.var_declarations@.len() + 1
            &&& variables.last().binding@ == signer
            &&& ctx_after.symbols().len() == ctx.symbols().len() + 1
            &&& is_value ==> ctx_after.state.injected@.len() == ctx.state.injected@.len() + 1
                && ctx_after.state.injected@.last().address == declaration_address(stack)->0
            &&& !is_value ==> ctx_after.state.injected@ == ctx.state.injected@ && (
            expr_after matches Expression::Call(c) && (c.callee matches Expression::Identifier(i)
                && i.symbol_id == Some(signer.symbol_id)) && c.arguments@.len() > 1)
            &&& expr is Function && is_value ==> (expr_after matches Expression::Function(f)
                && f.body matches Some(b) && b.statements@.len()
                == expr->Function_0.body->0.statements@.len() + 1 && b.statements@.skip(1)
                == expr->Function_0.body->0.statements@)
        }),
{
    let (mid, mid_expr, mid_ctx, r) = choose|
        mid: Prefresh,
        mid_expr: Expression,
        mid_ctx: TransformCtx,
        r: Option<Signed>,
    |
        {
            &&& #[trigger] signature_found(before, mid, expr, mid_expr, ctx, mid_ctx, r)
            &&& match r {
                Some(s) => signature_applied(
                    mid,
                    after,
                    mid_expr,
                    expr_after,
                    mid_ctx,
                    ctx_after,
                    s,
                ),
                None => after == mid && expr_after == mid_expr && ctx_after == mid_ctx,
            }
        };
    let s = r->0;
    if declared_variable(ctx.traverse.ancestry.stack@.last()) is None {
        let shape = signing_call(mid_expr.spec_span(), s, Shape::Given(mid_expr));
        assert(has_shape(expr_after, shape));
        let c = expr_after->Call_0;
        let shapes = seq![Shape::Given(mid_expr)] + signature_arguments(s);
        assert(arguments_have_shapes(c.arguments@, shapes));
        assert(has_shape(c.callee, Shape::Read(s.binding)));
    }
}

/// A function that is declared and calls hooks is signed too, and where it has a name, the call that
/// signs it comes after it.
pub proof fn law_declared_functions_with_hooks_are_signed(
    before: Prefresh,
    after: Prefresh,
    func: Function,
    func_after: Function,
    ctx: TransformCtx,
    ctx_after: TransformCtx,
)
    requires
        declaration_signed(before, after, func, func_after, ctx, ctx_after),
        before.hooks@.keys.contains_key(func.scope_id),
        func.body is Some,
        func_after.body is Some,
    ensures
        !after.hooks@.keys.contains_key(func.scope_id),
        ctx_after.state.var_declarations@.len() == ctx.state.var_declarations@.len() + 1,
        func_after.body->0.statements@.len() == func.body->0.statements@.len() + 1,
        func_after.body->0.statements@.skip(1) == func.body->0.statements@,
        func.id is Some ==> ctx_after.state.injected@.len() == ctx.state.injected@.len() + 1
            && ctx_after.state.injected@.last().address == function_address(
            func,
            ctx.traverse.ancestry.stack@.last(),
        ),
        func.id is None ==> ctx_after.state.injected@ == ctx.state.injected@,
{
}

} // verus!

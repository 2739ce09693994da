//! The components of a program, and their registration.

use crate::ast::shape::{
    Shape, StatementShape, assign, has_shape, make_assign, make_statement,
    statement_has_shape,
};
use crate::ast::{
    Argument, ArrowFunctionExpression, BindingIdentifier, Class, Declaration,
    ExportDefaultDeclarationKind, Expression, Function, OtherForm, ScopeId, Span, Statement,
    SymbolId, VariableDeclaration,
};
use crate::fx::set_contains;
use crate::semantic::SymbolFlags;
use crate::text::{concat3, is_upper, starts_with, upper_at, views};
use crate::transform::{
    TransformCtx, in_source, is_new_symbol, naming_in, symbol_names, text_at, writing_in,
};
use crate::traverse::{Bound, BoundIdentifier, Made};
use crate::uid::uid;
use rustc_hash::FxHashSet;
use vstd::prelude::*;

verus! {

broadcast use vstd::std_specs::hash::group_hash_axioms;

/// A component that is registered: the variable that holds it, and the name that it keeps.
#[derive(Debug)]
pub struct Registration {
    pub binding: BoundIdentifier,
    pub persistent_id: String,
}

/// The components that are registered, in order.
#[derive(Debug)]
pub struct Registrations {
    pub list: Vec<Registration>,
}

/// What is registered, and the names that the program uses.
#[verifier::ext_equal]
pub ghost struct Registered {
    /// The names of the symbols.
    pub names: Seq<Seq<char>>,
    /// The names that are used and not declared.
    pub unresolved: Seq<Seq<char>>,
    /// The variables that hold components, with the names that they keep.
    pub list: Seq<(Bound, Seq<char>)>,
    /// The references that were made.
    pub made: Seq<Made>,
    /// The scope that references are made in.
    pub scope_id: ScopeId,
}

impl Registered {
    /// The variable that the next component is held by.
    pub open spec fn next(self) -> Bound {
        Bound {
            name: uid("c"@, self.names + self.unresolved),
            symbol_id: self.names.len() as SymbolId,
        }
    }

    /// After one more component is registered.
    pub open spec fn register(self, id: Seq<char>) -> Registered {
        Registered {
            names: self.names.push(self.next().name),
            list: self.list.push((self.next(), id)),
            made: self.made.push(writing_in(self.scope_id, self.next())),
            ..self
        }
    }

    /// After one more component is registered that a variable names, which is read.
    pub open spec fn declare(self, id: BindingIdentifier) -> Registered {
        let g = self.register(id.name@);
        Registered {
            made: g.made.push(naming_in(self.scope_id, id.name@, Some(id.symbol_id))),
            ..g
        }
    }

    /// Every symbol has a number.
    pub open spec fn fits(self) -> bool {
        self.names.len() + self.unresolved.len() <= u32::MAX
    }

    /// There is room for the names that `after` has more, if it has any.
    pub open spec fn reaches(self, after: Registered) -> bool {
        self.names.len() < after.names.len() ==> after.fits()
    }
}

/// The views of registrations.
pub open spec fn registration_views(list: Seq<Registration>) -> Seq<(Bound, Seq<char>)> {
    list.map_values(|r: Registration| (r.binding@, r.persistent_id@))
}

/// What is registered, and the names that the program uses.
pub open spec fn registered(r: Registrations, ctx: TransformCtx) -> Registered {
    Registered {
        names: symbol_names(ctx.symbols()),
        unresolved: views(ctx.state.unresolved@),
        list: registration_views(r.list@),
        made: ctx.made(),
        scope_id: ctx.traverse.scoping.current_scope_id,
    }
}

/// `after` is `before` with more variables of the outermost scope, and more references.
pub open spec fn grown(before: TransformCtx, after: TransformCtx) -> bool {
    &&& after == before.with_symbols(after.traverse.scoping.symbols).with_made(
        after.traverse.scoping.made,
    )
    &&& before.symbols().len() <= after.symbols().len()
    &&& forall|i: int|
        0 <= i < before.symbols().len() ==> #[trigger] after.symbols()[i] == before.symbols()[i]
    &&& forall|i: int|
        before.symbols().len() <= i < after.symbols().len() ==> is_new_symbol(
            #[trigger] after.symbols()[i],
            after.symbols()[i].name@,
            0,
            SymbolFlags::function_scoped_variable(),
        )
}

/// The name of a component: it starts with an upper-case letter of ASCII.
pub open spec fn is_componentish(name: Seq<char>) -> bool {
    name.len() > 0 && is_upper(name[0])
}

/// The name of a component.
pub fn is_componentish_name(name: &str) -> (r: bool)
    ensures
        r == is_componentish(name@),
{
    upper_at(name, 0, false)
}

/// Whether the body of an arrow function is an arrow function.
pub open spec fn is_curried(arrow: ArrowFunctionExpression) -> bool {
    &&& arrow.expression
    &&& arrow.body.statements@.len() > 0
    &&& arrow.body.statements@[0] matches Statement::Expression(e) && e.expression is Arrow
}

/// Whether the body of an arrow function is an arrow function.
fn returns_arrow(arrow: &ArrowFunctionExpression) -> (r: bool)
    ensures
        r == is_curried(*arrow),
{
    if !arrow.expression || arrow.body.statements.len() == 0 {
        return false;
    }
    match &arrow.body.statements[0] {
        Statement::Expression(e) => match &e.expression {
            Expression::Arrow(_) => true,
            _ => false,
        },
        _ => false,
    }
}

/// Whether the arguments of a call of `callee` may be components.
pub open spec fn may_wrap(callee: Expression) -> bool {
    callee is Identifier || callee is ComputedMember || callee is StaticMember || callee is Call
}

/// The name of a component in a call.
pub open spec fn inner_name(name: Seq<char>, callee: Expression, text: Seq<char>) -> Seq<char> {
    name + "$"@ + text_at(text, callee.spec_span())
}

/// Whether an expression is a component, or a call with one.
pub open spec fn holds_component(expr: Expression) -> bool
    decreases expr,
{
    match expr {
        Expression::Identifier(ident) => is_componentish(ident.name@),
        Expression::Function(_) => true,
        Expression::Arrow(arrow) => !is_curried(*arrow),
        Expression::Call(call) => may_wrap(call.callee) && hold_component(call.arguments@),
        _ => false,
    }
}

/// Whether one of the arguments is a component, or a call with one.
pub open spec fn hold_component(list: Seq<Argument>) -> bool
    decreases list,
{
    list.len() > 0 && (hold_component(list.drop_last()) || match list.last() {
        Argument::Expression(expr) => holds_component(expr),
        Argument::Spread(_) => false,
    })
}

/// Whether the callees that give components their names stand in the source.
pub open spec fn is_sourced(expr: Expression, text: Seq<char>) -> bool
    decreases expr,
{
    match expr {
        Expression::Call(call) => may_wrap(call.callee) ==> in_source(
            text,
            call.callee.spec_span(),
        ) && are_sourced(call.arguments@, text),
        _ => true,
    }
}

/// Whether the callees that give components their names stand in the source.
pub open spec fn are_sourced(list: Seq<Argument>, text: Seq<char>) -> bool
    decreases list,
{
    forall|i: int|
        #![trigger list[i]]
        0 <= i < list.len() ==> (list[i] matches Argument::Expression(expr) ==> is_sourced(
            expr,
            text,
        ))
}

/// What is registered after the components in an expression are; `whole` says whether the
/// expression itself is left to its declaration.
pub open spec fn after_expression(
    g: Registered,
    name: Seq<char>,
    expr: Expression,
    whole: bool,
    text: Seq<char>,
) -> Registered
    decreases expr,
{
    match expr {
        Expression::Function(_) => if whole {
            g
        } else {
            g.register(name)
        },
        Expression::Arrow(arrow) => if whole || is_curried(*arrow) {
            g
        } else {
            g.register(name)
        },
        Expression::Call(call) => if may_wrap(call.callee) {
            after_arguments(g, inner_name(name, call.callee, text), call.arguments@, text)
        } else {
            g
        },
        _ => g,
    }
}

/// What is registered after the components in arguments are.
pub open spec fn after_arguments(
    g: Registered,
    name: Seq<char>,
    list: Seq<Argument>,
    text: Seq<char>,
) -> Registered
    decreases list,
{
    if list.len() == 0 {
        g
    } else {
        let g = after_arguments(g, name, list.drop_last(), text);
        match list.last() {
            Argument::Expression(expr) => after_expression(g, name, expr, false, text),
            Argument::Spread(_) => g,
        }
    }
}

/// `after` is `before`, in which each component is assigned to the variable that holds it.
pub open spec fn components_held(
    before: Expression,
    after: Expression,
    g: Registered,
    name: Seq<char>,
    whole: bool,
    text: Seq<char>,
) -> bool
    decreases before,
{
    match before {
        Expression::Function(_) => if whole {
            after == before
        } else {
            has_shape(after, assign(g.next(), Shape::Given(before)))
        },
        Expression::Arrow(arrow) => if whole || is_curried(*arrow) {
            after == before
        } else {
            has_shape(after, assign(g.next(), Shape::Given(before)))
        },
        Expression::Call(call) => if may_wrap(call.callee) {
            after matches Expression::Call(call_after) && call_after.span == call.span
                && call_after.callee == call.callee && argument_components_held(
                call.arguments@,
                call_after.arguments@,
                g,
                inner_name(name, call.callee, text),
                text,
            )
        } else {
            after == before
        },
        _ => after == before,
    }
}

/// `after` are the arguments `before`, in which each component is assigned to the variable that
/// holds it.
pub open spec fn argument_components_held(
    before: Seq<Argument>,
    after: Seq<Argument>,
    g: Registered,
    name: Seq<char>,
    text: Seq<char>,
) -> bool
    decreases before,
{
    &&& after.len() == before.len()
    &&& forall|i: int|
        #![trigger before[i]]
        0 <= i < before.len() ==> match before[i] {
            Argument::Expression(expr) => after[i] matches Argument::Expression(expr_after)
                && components_held(
                expr,
                expr_after,
                after_arguments(g, name, before.take(i), text),
                name,
                false,
                text,
            ),
            Argument::Spread(_) => after[i] == before[i],
        }
}

/// Registering never takes a name away.
proof fn lemma_expression_grows(
    g: Registered,
    name: Seq<char>,
    expr: Expression,
    whole: bool,
    text: Seq<char>,
)
    ensures
        g.names.len() <= after_expression(g, name, expr, whole, text).names.len(),
        after_expression(g, name, expr, whole, text).unresolved == g.unresolved,
    decreases expr,
{
    if let Expression::Call(call) = expr {
        if may_wrap(call.callee) {
            lemma_arguments_grow(
                g,
                inner_name(name, call.callee, text),
                call.arguments@,
                text,
            );
        }
    }
}

/// Registering never takes a name away.
proof fn lemma_arguments_grow(g: Registered, name: Seq<char>, list: Seq<Argument>, text: Seq<char>)
    ensures
        g.names.len() <= after_arguments(g, name, list, text).names.len(),
        after_arguments(g, name, list, text).unresolved == g.unresolved,
    decreases list,
{
    if list.len() > 0 {
        lemma_arguments_grow(g, name, list.drop_last(), text);
        if let Argument::Expression(expr) = list.last() {
            lemma_expression_grows(
                after_arguments(g, name, list.drop_last(), text),
                name,
                expr,
                false,
                text,
            );
        }
    }
}

/// The names of the first arguments are among those of all of them.
proof fn lemma_arguments_prefix(
    g: Registered,
    name: Seq<char>,
    list: Seq<Argument>,
    text: Seq<char>,
    k: int,
)
    requires
        0 <= k <= list.len(),
    ensures
        after_arguments(g, name, list.take(k), text).names.len() <= after_arguments(
            g,
            name,
            list,
            text,
        ).names.len(),
    decreases list.len() - k,
{
    if k == list.len() {
        assert(list.take(k) =~= list);
    } else {
        let next = list.take(k + 1);
        assert(next.drop_last() =~= list.take(k));
        if let Argument::Expression(expr) = next.last() {
            lemma_expression_grows(
                after_arguments(g, name, list.take(k), text),
                name,
                expr,
                false,
                text,
            );
        }
        lemma_arguments_prefix(g, name, list, text, k + 1);
    }
}

impl Registrations {
    /// Registers a component under `persistent_id`, and names the variable that holds it.
    pub fn create_registration(
        &mut self,
        persistent_id: &str,
        ctx: &mut TransformCtx,
    ) -> (r: BoundIdentifier)
        requires
            old(ctx).traverse.wf(),
            old(ctx).has_names(1),
        ensures
            r@ == registered(*old(self), *old(ctx)).next(),
            registered(*final(self), *final(ctx)) == registered(*old(self), *old(ctx)).register(
                persistent_id@,
            ),
            grown(*old(ctx), *final(ctx)),
            final(ctx).traverse.wf(),
    {
        let ghost before = registered(*self, *ctx);
        let ghost list = self.list@;
        let ghost start = *ctx;
        let binding = ctx.generate_uid_in_root_scope(
            "c",
            SymbolFlags::function_scoped_variable(),
        );
        ctx.traverse.scoping.create_reference(
            binding.name.as_str(),
            Some(binding.symbol_id),
            false,
            true,
        );
        self.list.push(
            Registration { binding: binding.copy(), persistent_id: persistent_id.to_string() },
        );
        proof {
            let after = registered(*self, *ctx);
            assert(ctx.symbols() =~= start.symbols().push(ctx.symbols().last()));
            assert(after.names =~= before.names.push(binding@.name));
            assert(after.list =~= before.list.push((binding@, persistent_id@)));
            assert(after =~= before.register(persistent_id@));
            assert forall|i: int| 0 <= i < start.symbols().len() implies #[trigger] ctx.symbols()[i]
                == start.symbols()[i] by {
                assert(ctx.symbols().drop_last()[i] == start.symbols()[i]);
            }
        }
        binding
    }

    /// Registers the components in an expression. The result says whether it holds one.
    pub fn replace_inner_components(
        &mut self,
        inferred_name: &str,
        expr: &mut Expression,
        is_variable_declarator: bool,
        ctx: &mut TransformCtx,
    ) -> (r: bool)
        requires
            old(ctx).traverse.wf(),
            is_sourced(*old(expr), old(ctx).state.source_text@),
            registered(*old(self), *old(ctx)).reaches(
                after_expression(
                    registered(*old(self), *old(ctx)),
                    inferred_name@,
                    *old(expr),
                    is_variable_declarator,
                    old(ctx).state.source_text@,
                ),
            ),
        ensures
            r == holds_component(*old(expr)),
            components_held(
                *old(expr),
                *final(expr),
                registered(*old(self), *old(ctx)),
                inferred_name@,
                is_variable_declarator,
                old(ctx).state.source_text@,
            ),
            registered(*final(self), *final(ctx)) == after_expression(
                registered(*old(self), *old(ctx)),
                inferred_name@,
                *old(expr),
                is_variable_declarator,
                old(ctx).state.source_text@,
            ),
            grown(*old(ctx), *final(ctx)),
            final(ctx).traverse.wf(),
        decreases *old(expr),
    {
        match expr {
            Expression::Identifier(ident) => {
                return is_componentish_name(ident.name.as_str());
            },
            Expression::Function(_) => {},
            Expression::Arrow(arrow) => {
                if returns_arrow(arrow) {
                    return false;
                }
            },
            Expression::Call(call) => {
                let allowed = match &call.callee {
                    Expression::Identifier(_)
                    | Expression::ComputedMember(_)
                    | Expression::StaticMember(_)
                    | Expression::Call(_) => true,
                    _ => false,
                };
                if !allowed {
                    return false;
                }
                let name = concat3(inferred_name, "$", ctx.source_at(call.callee.span()));
                return self.replace_in_arguments(name.as_str(), &mut call.arguments, ctx);
            },
            _ => {
                return false;
            },
        }
        if !is_variable_declarator {
            let binding = self.create_registration(inferred_name, ctx);
            let mut component = Expression::This(Span::empty());
            core::mem::swap(&mut component, expr);
            proof {
                assert(has_shape(component, Shape::Given(component)));
            }
            *expr = make_assign(&binding, component);
        }
        true
    }

    /// Registers the components in arguments. The result says whether one holds one.
    fn replace_in_arguments(
        &mut self,
        name: &str,
        list: &mut Vec<Argument>,
        ctx: &mut TransformCtx,
    ) -> (r: bool)
        requires
            old(ctx).traverse.wf(),
            are_sourced(old(list)@, old(ctx).state.source_text@),
            registered(*old(self), *old(ctx)).reaches(
                after_arguments(
                    registered(*old(self), *old(ctx)),
                    name@,
                    old(list)@,
                    old(ctx).state.source_text@,
                ),
            ),
        ensures
            r == hold_component(old(list)@),
            argument_components_held(
                old(list)@,
                final(list)@,
                registered(*old(self), *old(ctx)),
                name@,
                old(ctx).state.source_text@,
            ),
            registered(*final(self), *final(ctx)) == after_arguments(
                registered(*old(self), *old(ctx)),
                name@,
                old(list)@,
                old(ctx).state.source_text@,
            ),
            grown(*old(ctx), *final(ctx)),
            final(ctx).traverse.wf(),
        decreases *old(list),
    {
        let ghost g = registered(*self, *ctx);
        let ghost start = *ctx;
        let ghost text = ctx.state.source_text@;
        let ghost before = list@;
        let mut found_inside = false;
        let mut i: usize = 0;
        proof {
            assert(before.take(0) =~= Seq::empty());
        }
        while i < list.len()
            invariant
                i <= list@.len(),
                list@.len() == before.len(),
                before == old(list)@,
                start == *old(ctx),
                g == registered(*old(self), *old(ctx)),
                text == start.state.source_text@,
                are_sourced(before, text),
                g.reaches(after_arguments(g, name@, before, text)),
                registered(*self, *ctx) == after_arguments(
                    g,
                    name@,
                    before.take(i as int),
                    text,
                ),
                grown(start, *ctx),
                ctx.traverse.wf(),
                found_inside == hold_component(before.take(i as int)),
                forall|k: int| i <= k < before.len() ==> list@[k] == #[trigger] before[k],
                forall|k: int|
                    #![trigger before[k]]
                    0 <= k < i ==> match before[k] {
                        Argument::Expression(expr) => list@[k] matches Argument::Expression(
                            expr_after,
                        ) && components_held(
                            expr,
                            expr_after,
                            after_arguments(g, name@, before.take(k), text),
                            name@,
                            false,
                            text,
                        ),
                        Argument::Spread(_) => list@[k] == before[k],
                    },
            decreases list@.len() - i,
        {
            proof {
                assert(before.take(i + 1).drop_last() =~= before.take(i as int));
                assert(before.take(i + 1).last() == before[i as int]);
                assert(list@[i as int] == before[i as int]);
                lemma_arguments_prefix(g, name@, before, text, i + 1);
                lemma_arguments_grow(g, name@, before.take(i + 1), text);
                lemma_arguments_grow(g, name@, before, text);
                lemma_arguments_grow(g, name@, before.take(i as int), text);
                lemma_arguments_prefix(g, name@, before, text, i as int);
            }
            if let Argument::Expression(expr) = &mut list[i] {
                let found = self.replace_inner_components(name, expr, false, ctx);
                found_inside = found_inside || found;
            }
            i += 1;
        }
        proof {
            assert(before.take(before.len() as int) =~= before);
        }
        found_inside
    }
}

/// Whether a call loads a module.
pub open spec fn loads_module(callee: Expression) -> bool {
    match callee.spec_inner_expression() {
        Expression::Other(other) => other.form == OtherForm::ImportExpression,
        Expression::Identifier(ident) => "require"@.is_prefix_of(ident.name@)
            || "import"@.is_prefix_of(ident.name@),
        _ => false,
    }
}

/// Whether the value of a variable may be a component.
pub open spec fn may_be_component(init: Expression) -> bool {
    match init {
        Expression::Arrow(arrow) => !is_curried(*arrow),
        Expression::Function(_) => true,
        Expression::Other(other) => other.form == OtherForm::TaggedTemplate,
        Expression::Call(call) => !loads_module(call.callee),
        _ => false,
    }
}

/// The variable of a declaration that may be a component, with its value.
pub open spec fn candidate_variable(decl: VariableDeclaration) -> Option<
    (BindingIdentifier, Expression),
> {
    if decl.declarations@.len() == 1 {
        match (decl.declarations@[0].init, decl.declarations@[0].id.spec_binding_identifier()) {
            (Some(init), Some(id)) => if is_componentish(id.name@) && may_be_component(init) {
                Some((id, init))
            } else {
                None
            },
            _ => None,
        }
    } else {
        None
    }
}

/// The variable of a declaration that may be a component.
fn find_candidate(decl: &VariableDeclaration) -> (r: Option<BindingIdentifier>)
    ensures
        r == (match candidate_variable(*decl) {
            Some((id, _)) => Some(id),
            None => None,
        }),
{
    if decl.declarations.len() != 1 {
        return None;
    }
    let declarator = &decl.declarations[0];
    let Some(init) = &declarator.init else {
        return None;
    };
    let Some(id) = declarator.id.get_binding_identifier() else {
        return None;
    };
    if !is_componentish_name(id.name.as_str()) {
        return None;
    }
    match init {
        Expression::Arrow(arrow) => {
            if returns_arrow(arrow) {
                return None;
            }
        },
        Expression::Function(_) => {},
        Expression::Other(other) => {
            if other.form != OtherForm::TaggedTemplate {
                return None;
            }
        },
        Expression::Call(call) => {
            let is_import_expression = match call.callee.get_inner_expression() {
                Expression::Other(other) => other.form == OtherForm::ImportExpression,
                Expression::Identifier(ident) => starts_with(ident.name.as_str(), "require")
                    || starts_with(ident.name.as_str(), "import"),
                _ => false,
            };
            if is_import_expression {
                return None;
            }
        },
        _ => {
            return None;
        },
    }
    Some(BindingIdentifier { span: id.span, name: id.name.clone(), symbol_id: id.symbol_id })
}

/// The component that a declaration of variables is: its value is one, or its variable is used
/// as one.
pub open spec fn variable_component(decl: VariableDeclaration, used: Set<SymbolId>) -> Option<
    BindingIdentifier,
> {
    match candidate_variable(decl) {
        Some((id, init)) => if holds_component(init) || used.contains(id.symbol_id) {
            Some(id)
        } else {
            None
        },
        None => None,
    }
}

/// The component that a function is.
pub open spec fn function_component(func: Function) -> Option<BindingIdentifier> {
    match func.id {
        Some(id) => if !func.typescript_syntax && is_componentish(id.name@) {
            Some(id)
        } else {
            None
        },
        None => None,
    }
}

/// The component that a class is.
pub open spec fn class_component(class: Class) -> Option<BindingIdentifier> {
    match class.id {
        Some(id) => if !class.declare && is_componentish(id.name@) {
            Some(id)
        } else {
            None
        },
        None => None,
    }
}

/// The component that a declaration is.
pub open spec fn declaration_component(d: Declaration, used: Set<SymbolId>) -> Option<
    BindingIdentifier,
> {
    match d {
        Declaration::Variable(variable) => variable_component(variable, used),
        Declaration::Function(func) => function_component(*func),
        Declaration::Class(class) => class_component(*class),
        Declaration::TypeOnly(_) => None,
    }
}

/// The component that a statement declares.
pub open spec fn statement_component(stmt: Statement, used: Set<SymbolId>) -> Option<
    BindingIdentifier,
> {
    match stmt {
        Statement::Declaration(d) => declaration_component(d, used),
        Statement::ExportNamed(e) => match e.declaration {
            Some(d) => declaration_component(d, used),
            None => None,
        },
        Statement::ExportDefault(e) => match e.declaration {
            ExportDefaultDeclarationKind::Function(func) => function_component(*func),
            ExportDefaultDeclarationKind::Class(class) => class_component(*class),
            _ => None,
        },
        _ => None,
    }
}

/// What is registered after the components inside a declaration are.
pub open spec fn after_declaration(g: Registered, d: Declaration, text: Seq<char>) -> Registered {
    match d {
        Declaration::Variable(variable) => match candidate_variable(variable) {
            Some((id, init)) => after_expression(g, id.name@, init, true, text),
            None => g,
        },
        _ => g,
    }
}

/// What is registered after the components of a declaration are.
pub open spec fn after_declared(
    g: Registered,
    d: Declaration,
    used: Set<SymbolId>,
    text: Seq<char>,
) -> Registered {
    let g = after_declaration(g, d, text);
    match declaration_component(d, used) {
        Some(id) => g.declare(id),
        None => g,
    }
}

/// What is registered after the components inside a statement are.
pub open spec fn after_inside(g: Registered, stmt: Statement, text: Seq<char>) -> Registered {
    match stmt {
        Statement::Declaration(d) => after_declaration(g, d, text),
        Statement::ExportNamed(e) => match e.declaration {
            Some(d) => after_declaration(g, d, text),
            None => g,
        },
        Statement::ExportDefault(e) => match e.declaration {
            ExportDefaultDeclarationKind::Expression(expr) => if expr is Call {
                after_expression(g, "%default%"@, expr, false, text)
            } else {
                g
            },
            _ => g,
        },
        _ => g,
    }
}

/// What is registered after the components of a statement are.
pub open spec fn after_statement(
    g: Registered,
    stmt: Statement,
    used: Set<SymbolId>,
    text: Seq<char>,
) -> Registered {
    let g = after_inside(g, stmt, text);
    match statement_component(stmt, used) {
        Some(id) => g.declare(id),
        None => g,
    }
}

/// What is registered after the components of statements are.
pub open spec fn after_statements(
    g: Registered,
    list: Seq<Statement>,
    used: Set<SymbolId>,
    text: Seq<char>,
) -> Registered
    decreases list.len(),
{
    if list.len() == 0 {
        g
    } else {
        after_statement(after_statements(g, list.drop_last(), used, text), list.last(), used, text)
    }
}

/// Whether the callees that give components their names stand in the source.
pub open spec fn declaration_is_sourced(d: Declaration, text: Seq<char>) -> bool {
    d matches Declaration::Variable(variable) ==> (candidate_variable(variable) matches Some(c)
        ==> is_sourced(c.1, text))
}

/// Whether the callees that give components their names stand in the source.
pub open spec fn statement_is_sourced(stmt: Statement, text: Seq<char>) -> bool {
    match stmt {
        Statement::Declaration(d) => declaration_is_sourced(d, text),
        Statement::ExportNamed(e) => e.declaration matches Some(d) ==> declaration_is_sourced(
            d,
            text,
        ),
        Statement::ExportDefault(e) => e.declaration matches ExportDefaultDeclarationKind::Expression(
            expr,
        ) ==> is_sourced(expr, text),
        _ => true,
    }
}

/// `after` is the declaration `before`, in which each component is assigned to the variable that
/// holds it.
pub open spec fn variables_held(
    before: VariableDeclaration,
    after: VariableDeclaration,
    g: Registered,
    text: Seq<char>,
) -> bool {
    match candidate_variable(before) {
        Some((id, init)) => {
            let old_one = before.declarations@[0];
            let new_one = after.declarations@[0];
            &&& after == (VariableDeclaration { declarations: after.declarations, ..before })
            &&& after.declarations@.len() == 1
            &&& new_one.span == old_one.span
            &&& new_one.id == old_one.id
            &&& new_one.init matches Some(init_after) && components_held(
                init,
                init_after,
                g,
                id.name@,
                true,
                text,
            )
        },
        None => after == before,
    }
}

/// `after` is the declaration `before`, in which each component is assigned to the variable that
/// holds it.
pub open spec fn declaration_held(
    before: Declaration,
    after: Declaration,
    g: Registered,
    text: Seq<char>,
) -> bool {
    match before {
        Declaration::Variable(variable) => after matches Declaration::Variable(variable_after)
            && variables_held(variable, variable_after, g, text),
        _ => after == before,
    }
}

/// `after` is the statement `before`, in which each component is assigned to the variable that
/// holds it.
pub open spec fn statement_held(
    before: Statement,
    after: Statement,
    g: Registered,
    text: Seq<char>,
) -> bool {
    match before {
        Statement::Declaration(d) => after matches Statement::Declaration(d_after)
            && declaration_held(d, d_after, g, text),
        Statement::ExportNamed(e) => match e.declaration {
            Some(d) => after matches Statement::ExportNamed(e_after) && e_after.span == e.span
                && e_after.address == e.address && (e_after.declaration matches Some(d_after)
                && declaration_held(d, d_after, g, text)),
            None => after == before,
        },
        Statement::ExportDefault(e) => match e.declaration {
            ExportDefaultDeclarationKind::Expression(expr) => if expr is Call {
                after matches Statement::ExportDefault(e_after) && e_after.span == e.span
                    && e_after.address == e.address && (
                e_after.declaration matches ExportDefaultDeclarationKind::Expression(expr_after)
                    && components_held(expr, expr_after, g, "%default%"@, false, text))
            } else {
                after == before
            },
            _ => after == before,
        },
        _ => after == before,
    }
}

/// The statement that holds a declared component.
pub open spec fn registration_shape(bound: Bound, id: BindingIdentifier) -> StatementShape {
    StatementShape::Expression {
        span: Span::empty(),
        value: assign(bound, Shape::Name { name: id.name@, symbol_id: Some(id.symbol_id) }),
    }
}

/// Registering never takes a name away.
proof fn lemma_inside_grows(g: Registered, stmt: Statement, text: Seq<char>)
    ensures
        g.names.len() <= after_inside(g, stmt, text).names.len(),
        after_inside(g, stmt, text).unresolved == g.unresolved,
{
    match stmt {
        Statement::Declaration(Declaration::Variable(variable)) => {
            if let Some((id, init)) = candidate_variable(variable) {
                lemma_expression_grows(g, id.name@, init, true, text);
            }
        },
        Statement::ExportNamed(e) => {
            if let Some(Declaration::Variable(variable)) = e.declaration {
                if let Some((id, init)) = candidate_variable(variable) {
                    lemma_expression_grows(g, id.name@, init, true, text);
                }
            }
        },
        Statement::ExportDefault(e) => {
            if let ExportDefaultDeclarationKind::Expression(expr) = e.declaration {
                lemma_expression_grows(g, "%default%"@, expr, false, text);
            }
        },
        _ => {},
    }
}

/// Registering never takes a name away.
proof fn lemma_statements_prefix(
    g: Registered,
    list: Seq<Statement>,
    used: Set<SymbolId>,
    text: Seq<char>,
    k: int,
)
    requires
        0 <= k <= list.len(),
    ensures
        after_statements(g, list.take(k), used, text).names.len() <= after_statements(
            g,
            list,
            used,
            text,
        ).names.len(),
        after_statements(g, list.take(k), used, text).unresolved == after_statements(
            g,
            list,
            used,
            text,
        ).unresolved,
    decreases list.len() - k,
{
    if k == list.len() {
        assert(list.take(k) =~= list);
    } else {
        let next = list.take(k + 1);
        assert(next.drop_last() =~= list.take(k));
        lemma_inside_grows(after_statements(g, list.take(k), used, text), next.last(), text);
        lemma_statements_prefix(g, list, used, text, k + 1);
    }
}

/// The place of statement `k` once a statement that holds it stands after each component.
pub open spec fn position(list: Seq<Statement>, used: Set<SymbolId>, k: int) -> int
    decreases k,
{
    if k <= 0 {
        0
    } else {
        position(list, used, k - 1) + if statement_component(list[k - 1], used) is Some {
            2int
        } else {
            1int
        }
    }
}

/// A statement stands no earlier than those before it.
proof fn lemma_position(list: Seq<Statement>, used: Set<SymbolId>, j: int, k: int)
    requires
        0 <= j < k,
    ensures
        position(list, used, j) + (if statement_component(list[j], used) is Some {
            2int
        } else {
            1int
        }) <= position(list, used, k),
        0 <= position(list, used, j),
    decreases k,
{
    if j < k - 1 {
        lemma_position(list, used, j, k - 1);
    }
    lemma_position_nonnegative(list, used, j);
}

proof fn lemma_position_nonnegative(list: Seq<Statement>, used: Set<SymbolId>, j: int)
    ensures
        0 <= position(list, used, j),
    decreases j,
{
    if j > 0 {
        lemma_position_nonnegative(list, used, j - 1);
    }
}

/// Statement `k` is in its place, with each component in it held, and the statement that holds
/// the component that it declares after it.
pub open spec fn is_placed(
    before: Seq<Statement>,
    after: Seq<Statement>,
    g: Registered,
    used: Set<SymbolId>,
    text: Seq<char>,
    k: int,
) -> bool {
    let at = position(before, used, k);
    let here = after_statements(g, before.take(k), used, text);
    &&& 0 <= at < after.len()
    &&& statement_held(before[k], after[at], here, text)
    &&& statement_component(before[k], used) matches Some(id) ==> at + 1 < after.len()
        && statement_has_shape(
        after[at + 1],
        registration_shape(after_inside(here, before[k], text).next(), id),
    )
}

/// `after` is the program `before` with its components registered.
pub open spec fn components_registered(
    before: Seq<Statement>,
    after: Seq<Statement>,
    g: Registered,
    used: Set<SymbolId>,
    text: Seq<char>,
) -> bool {
    &&& after.len() == position(before, used, before.len() as int)
    &&& forall|k: int|
        0 <= k < before.len() ==> #[trigger] is_placed(before, after, g, used, text, k)
}

impl Registrations {
    /// Registers a declared component: the statement that holds it.
    pub fn create_assignment_expression(
        &mut self,
        id: &BindingIdentifier,
        ctx: &mut TransformCtx,
    ) -> (r: Statement)
        requires
            old(ctx).traverse.wf(),
            old(ctx).has_names(1),
        ensures
            statement_has_shape(
                r,
                registration_shape(registered(*old(self), *old(ctx)).next(), *id),
            ),
            registered(*final(self), *final(ctx)) == registered(*old(self), *old(ctx)).declare(*id),
            grown(*old(ctx), *final(ctx)),
            final(ctx).traverse.wf(),
    {
        let left = self.create_registration(id.name.as_str(), ctx);
        let right = ctx.create_ident_expr(id.name.as_str(), Some(id.symbol_id));
        proof {
            let g = registered(*old(self), *old(ctx));
            assert(registered(*self, *ctx) =~= g.declare(*id));
        }
        make_statement(make_assign(&left, right))
    }

    /// A function that is declared.
    pub fn handle_function_declaration(
        &mut self,
        func: &Function,
        ctx: &mut TransformCtx,
    ) -> (r: Option<Statement>)
        requires
            old(ctx).traverse.wf(),
            function_component(*func) is Some ==> old(ctx).has_names(1),
        ensures
            match function_component(*func) {
                Some(id) => (r matches Some(s) && statement_has_shape(
                    s,
                    registration_shape(registered(*old(self), *old(ctx)).next(), id),
                )) && registered(*final(self), *final(ctx)) == registered(
                    *old(self),
                    *old(ctx),
                ).declare(id),
                None => r is None && *final(self) == *old(self) && *final(ctx) == *old(ctx),
            },
            grown(*old(ctx), *final(ctx)),
            final(ctx).traverse.wf(),
    {
        let Some(id) = &func.id else {
            return None;
        };
        if func.typescript_syntax || !is_componentish_name(id.name.as_str()) {
            return None;
        }
        Some(self.create_assignment_expression(id, ctx))
    }

    /// A class that is declared.
    pub fn handle_class_declaration(
        &mut self,
        class: &Class,
        ctx: &mut TransformCtx,
    ) -> (r: Option<Statement>)
        requires
            old(ctx).traverse.wf(),
            class_component(*class) is Some ==> old(ctx).has_names(1),
        ensures
            match class_component(*class) {
                Some(id) => (r matches Some(s) && statement_has_shape(
                    s,
                    registration_shape(registered(*old(self), *old(ctx)).next(), id),
                )) && registered(*final(self), *final(ctx)) == registered(
                    *old(self),
                    *old(ctx),
                ).declare(id),
                None => r is None && *final(self) == *old(self) && *final(ctx) == *old(ctx),
            },
            grown(*old(ctx), *final(ctx)),
            final(ctx).traverse.wf(),
    {
        let Some(id) = &class.id else {
            return None;
        };
        if class.declare || !is_componentish_name(id.name.as_str()) {
            return None;
        }
        Some(self.create_assignment_expression(id, ctx))
    }

    /// Variables that are declared.
    pub fn handle_variable_declaration(
        &mut self,
        decl: &mut VariableDeclaration,
        used: &FxHashSet<SymbolId>,
        ctx: &mut TransformCtx,
    ) -> (r: Option<Statement>)
        requires
            old(ctx).traverse.wf(),
            declaration_is_sourced(
                Declaration::Variable(*old(decl)),
                old(ctx).state.source_text@,
            ),
            registered(*old(self), *old(ctx)).reaches(
                after_declared(
                    registered(*old(self), *old(ctx)),
                    Declaration::Variable(*old(decl)),
                    used@,
                    old(ctx).state.source_text@,
                ),
            ),
        ensures
            variables_held(
                *old(decl),
                *final(decl),
                registered(*old(self), *old(ctx)),
                old(ctx).state.source_text@,
            ),
            ({
                let inside = after_declaration(
                    registered(*old(self), *old(ctx)),
                    Declaration::Variable(*old(decl)),
                    old(ctx).state.source_text@,
                );
                match variable_component(*old(decl), used@) {
                    Some(id) => (r matches Some(s) && statement_has_shape(
                        s,
                        registration_shape(inside.next(), id),
                    )) && registered(*final(self), *final(ctx)) == inside.declare(id),
                    None => r is None && registered(*final(self), *final(ctx)) == inside,
                }
            }),
            grown(*old(ctx), *final(ctx)),
            final(ctx).traverse.wf(),
    {
        let Some(id) = find_candidate(decl) else {
            return None;
        };
        let ghost text = ctx.state.source_text@;
        let ghost g = registered(*self, *ctx);
        let declarator = &mut decl.declarations[0];
        let Some(init) = &mut declarator.init else {
            return None;
        };
        proof {
            lemma_expression_grows(g, id.name@, *init, true, text);
        }
        let found_inside = self.replace_inner_components(id.name.as_str(), init, true, ctx);
        if !found_inside && !set_contains(used, &id.symbol_id) {
            return None;
        }
        Some(self.create_assignment_expression(&id, ctx))
    }
}

impl Registrations {
    /// A declaration.
    fn handle_declaration(
        &mut self,
        declaration: &mut Declaration,
        used: &FxHashSet<SymbolId>,
        ctx: &mut TransformCtx,
    ) -> (r: Option<Statement>)
        requires
            old(ctx).traverse.wf(),
            declaration_is_sourced(*old(declaration), old(ctx).state.source_text@),
            registered(*old(self), *old(ctx)).reaches(
                after_declared(
                    registered(*old(self), *old(ctx)),
                    *old(declaration),
                    used@,
                    old(ctx).state.source_text@,
                ),
            ),
        ensures
            declaration_held(
                *old(declaration),
                *final(declaration),
                registered(*old(self), *old(ctx)),
                old(ctx).state.source_text@,
            ),
            ({
                let inside = after_declaration(
                    registered(*old(self), *old(ctx)),
                    *old(declaration),
                    old(ctx).state.source_text@,
                );
                match declaration_component(*old(declaration), used@) {
                    Some(id) => (r matches Some(s) && statement_has_shape(
                        s,
                        registration_shape(inside.next(), id),
                    )) && registered(*final(self), *final(ctx)) == inside.declare(id),
                    None => r is None && registered(*final(self), *final(ctx)) == inside,
                }
            }),
            grown(*old(ctx), *final(ctx)),
            final(ctx).traverse.wf(),
    {
        match declaration {
            Declaration::Variable(variable) => self.handle_variable_declaration(variable, used, ctx),
            Declaration::Function(func) => self.handle_function_declaration(func, ctx),
            Declaration::Class(class) => self.handle_class_declaration(class, ctx),
            Declaration::TypeOnly(_) => None,
        }
    }

    /// Registers the components of a statement. The result is the statement that holds the one
    /// that it declares.
    pub fn process_statement(
        &mut self,
        statement: &mut Statement,
        used: &FxHashSet<SymbolId>,
        ctx: &mut TransformCtx,
    ) -> (r: Option<Statement>)
        requires
            old(ctx).traverse.wf(),
            statement_is_sourced(*old(statement), old(ctx).state.source_text@),
            registered(*old(self), *old(ctx)).reaches(
                after_statement(
                    registered(*old(self), *old(ctx)),
                    *old(statement),
                    used@,
                    old(ctx).state.source_text@,
                ),
            ),
        ensures
            statement_held(
                *old(statement),
                *final(statement),
                registered(*old(self), *old(ctx)),
                old(ctx).state.source_text@,
            ),
            registered(*final(self), *final(ctx)) == after_statement(
                registered(*old(self), *old(ctx)),
                *old(statement),
                used@,
                old(ctx).state.source_text@,
            ),
            match statement_component(*old(statement), used@) {
                Some(id) => r matches Some(s) && statement_has_shape(
                    s,
                    registration_shape(
                        after_inside(
                            registered(*old(self), *old(ctx)),
                            *old(statement),
                            old(ctx).state.source_text@,
                        ).next(),
                        id,
                    ),
                ),
                None => r is None,
            },
            grown(*old(ctx), *final(ctx)),
            final(ctx).traverse.wf(),
    {
        match statement {
            Statement::Declaration(declaration) => self.handle_declaration(declaration, used, ctx),
            Statement::ExportNamed(export) => match &mut export.declaration {
                Some(declaration) => self.handle_declaration(declaration, used, ctx),
                None => None,
            },
            Statement::ExportDefault(export) => match &mut export.declaration {
                ExportDefaultDeclarationKind::Expression(expression) => {
                    let is_call = match expression {
                        Expression::Call(_) => true,
                        _ => false,
                    };
                    if is_call {
                        proof {
                            lemma_expression_grows(
                                registered(*self, *ctx),
                                "%default%"@,
                                *expression,
                                false,
                                ctx.state.source_text@,
                            );
                        }
                        self.replace_inner_components("%default%", expression, false, ctx);
                    }
                    None
                },
                ExportDefaultDeclarationKind::Function(func) => self.handle_function_declaration(
                    func,
                    ctx,
                ),
                ExportDefaultDeclarationKind::Class(class) => self.handle_class_declaration(
                    class,
                    ctx,
                ),
                ExportDefaultDeclarationKind::TypeOnly(_) => None,
            },
            _ => None,
        }
    }

    /// Registers the components of a program.
    pub fn process_statements(
        &mut self,
        body: &mut Vec<Statement>,
        used: &FxHashSet<SymbolId>,
        ctx: &mut TransformCtx,
    )
        requires
            old(ctx).traverse.wf(),
            forall|k: int|
                0 <= k < old(body)@.len() ==> statement_is_sourced(
                    #[trigger] old(body)@[k],
                    old(ctx).state.source_text@,
                ),
            registered(*old(self), *old(ctx)).reaches(
                after_statements(
                    registered(*old(self), *old(ctx)),
                    old(body)@,
                    used@,
                    old(ctx).state.source_text@,
                ),
            ),
        ensures
            components_registered(
                old(body)@,
                final(body)@,
                registered(*old(self), *old(ctx)),
                used@,
                old(ctx).state.source_text@,
            ),
            registered(*final(self), *final(ctx)) == after_statements(
                registered(*old(self), *old(ctx)),
                old(body)@,
                used@,
                old(ctx).state.source_text@,
            ),
            grown(*old(ctx), *final(ctx)),
            final(ctx).traverse.wf(),
    {
        let ghost before = body@;
        let ghost start = *ctx;
        let ghost g = registered(*self, *ctx);
        let ghost text = ctx.state.source_text@;
        let mut statements: Vec<Statement> = Vec::new();
        core::mem::swap(&mut statements, body);
        let mut i: usize = 0;
        proof {
            assert(before.take(0) =~= Seq::empty());
        }
        while i < statements.len()
            invariant
                i <= statements@.len(),
                statements@.len() == before.len(),
                before == old(body)@,
                start == *old(ctx),
                g == registered(*old(self), *old(ctx)),
                text == start.state.source_text@,
                forall|k: int|
                    0 <= k < before.len() ==> statement_is_sourced(#[trigger] before[k], text),
                g.reaches(after_statements(g, before, used@, text)),
                registered(*self, *ctx) == after_statements(
                    g,
                    before.take(i as int),
                    used@,
                    text,
                ),
                grown(start, *ctx),
                ctx.traverse.wf(),
                forall|k: int| i <= k < before.len() ==> statements@[k] == #[trigger] before[k],
                body@.len() == position(before, used@, i as int),
                forall|k: int|
                    0 <= k < i ==> #[trigger] is_placed(before, body@, g, used@, text, k),
            decreases statements@.len() - i,
        {
            let ghost here = registered(*self, *ctx);
            let ghost placed = body@;
            proof {
                let seen = before.take(i + 1);
                assert(seen.drop_last() =~= before.take(i as int));
                assert(seen.last() == before[i as int]);
                lemma_statements_prefix(g, before, used@, text, i + 1);
                lemma_statements_prefix(g, before, used@, text, i as int);
                lemma_statements_prefix(g, before, used@, text, 0);
                lemma_statements_prefix(g, before.take(i as int), used@, text, 0);
                assert(before.take(i as int).take(0) =~= Seq::empty());
                assert(before.take(0) =~= Seq::empty());
                lemma_inside_grows(here, before[i as int], text);
                assert(statement_is_sourced(before[i as int], text));
                assert(here.names.len() == ctx.symbols().len());
            }
            let mut statement = Statement::ExportAll(Span::empty());
            core::mem::swap(&mut statement, &mut statements[i]);
            let next_statement = self.process_statement(&mut statement, used, ctx);
            body.push(statement);
            if let Some(next_statement) = next_statement {
                body.push(next_statement);
            }
            proof {
                lemma_position_nonnegative(before, used@, i as int);
                assert forall|k: int| 0 <= k < i + 1 implies #[trigger] is_placed(
                    before,
                    body@,
                    g,
                    used@,
                    text,
                    k,
                ) by {
                    if k < i {
                        lemma_position(before, used@, k, i as int);
                        assert(is_placed(before, placed, g, used@, text, k));
                        let at = position(before, used@, k);
                        assert(body@[at] == placed[at]);
                        if statement_component(before[k], used@) is Some {
                            assert(body@[at + 1] == placed[at + 1]);
                        }
                    }
                }
            }
            i += 1;
        }
        proof {
            assert(before.take(before.len() as int) =~= before);
        }
    }
}

/// Whatever is registered, each component gets a variable of its own, and one that the program
/// did not use.
pub proof fn law_registered_variables_are_new(
    g: Registered,
    list: Seq<Statement>,
    used: Set<SymbolId>,
    text: Seq<char>,
)
    requires
        g.list.len() == 0,
        after_statements(g, list, used, text).fits(),
    ensures
        forall|i: int, j: int|
            0 <= i < j < after_statements(g, list, used, text).list.len() ==> (
            #[trigger] after_statements(g, list, used, text).list[i]).0.name != (
            #[trigger] after_statements(g, list, used, text).list[j]).0.name,
        forall|i: int|
            0 <= i < after_statements(g, list, used, text).list.len() ==> !(g.names
                + g.unresolved).contains(
                (#[trigger] after_statements(g, list, used, text).list[i]).0.name,
            ),
{
    lemma_statements_are_fresh(g, list, used, text);
}

/// The variables that `b` has and `a` has not are new ones, each used once.
pub open spec fn is_fresh(a: Registered, b: Registered) -> bool {
    &&& a.unresolved == b.unresolved
    &&& a.names.len() <= b.names.len()
    &&& a.list.len() <= b.list.len()
    &&& b.names.len() - a.names.len() == b.list.len() - a.list.len()
    &&& forall|i: int| 0 <= i < a.names.len() ==> #[trigger] b.names[i] == a.names[i]
    &&& forall|i: int| 0 <= i < a.list.len() ==> #[trigger] b.list[i] == a.list[i]
    &&& forall|i: int|
        a.list.len() <= i < b.list.len() ==> (#[trigger] b.list[i]).0.name == b.names[a.names.len()
            + (i - a.list.len())]
    &&& forall|i: int|
        a.names.len() <= i < b.names.len() ==> !a.unresolved.contains(#[trigger] b.names[i])
    &&& forall|i: int, j: int|
        0 <= i < j && a.names.len() <= j < b.names.len() ==> #[trigger] b.names[i]
            != #[trigger] b.names[j]
}

proof fn lemma_fresh_register(g: Registered, id: Seq<char>)
    ensures
        is_fresh(g, g.register(id)),
{
    let used = g.names + g.unresolved;
    let name = g.next().name;
    crate::uid::law_uid_is_unused("c"@, used);
    let b = g.register(id);
    assert forall|i: int| g.names.len() <= i < b.names.len() implies !g.unresolved.contains(
        #[trigger] b.names[i],
    ) by {
        if g.unresolved.contains(name) {
            let k = g.unresolved.index_of(name);
            assert(used[g.names.len() + k] == name);
        }
    }
    assert forall|i: int, j: int|
        0 <= i < j && g.names.len() <= j < b.names.len() implies #[trigger] b.names[i]
        != #[trigger] b.names[j] by {
        assert(used[i] == g.names[i]);
    }
}

proof fn lemma_fresh_trans(a: Registered, b: Registered, c: Registered)
    requires
        is_fresh(a, b),
        is_fresh(b, c),
    ensures
        is_fresh(a, c),
{
    assert forall|i: int| 0 <= i < a.names.len() implies #[trigger] c.names[i] == a.names[i] by {
        assert(b.names[i] == a.names[i]);
    }
    assert forall|i: int| 0 <= i < a.list.len() implies #[trigger] c.list[i] == a.list[i] by {
        assert(b.list[i] == a.list[i]);
    }
    assert forall|i: int| a.list.len() <= i < c.list.len() implies (#[trigger] c.list[i]).0.name
        == c.names[a.names.len() + (i - a.list.len())] by {
        if i < b.list.len() {
            assert(c.list[i] == b.list[i]);
            assert(c.names[a.names.len() + (i - a.list.len())] == b.names[a.names.len() + (i
                - a.list.len())]);
        }
    }
    assert forall|i: int| a.names.len() <= i < c.names.len() implies !a.unresolved.contains(
        #[trigger] c.names[i],
    ) by {
        if i < b.names.len() {
            assert(c.names[i] == b.names[i]);
        }
    }
    assert forall|i: int, j: int|
        0 <= i < j && a.names.len() <= j < c.names.len() implies #[trigger] c.names[i]
        != #[trigger] c.names[j] by {
        if j < b.names.len() {
            assert(c.names[i] == b.names[i]);
            assert(c.names[j] == b.names[j]);
        }
    }
}

proof fn lemma_expression_is_fresh(
    g: Registered,
    name: Seq<char>,
    expr: Expression,
    whole: bool,
    text: Seq<char>,
)
    ensures
        is_fresh(g, after_expression(g, name, expr, whole, text)),
    decreases expr,
{
    lemma_fresh_register(g, name);
    if let Expression::Call(call) = expr {
        if may_wrap(call.callee) {
            lemma_arguments_are_fresh(
                g,
                inner_name(name, call.callee, text),
                call.arguments@,
                text,
            );
        }
    }
}

proof fn lemma_arguments_are_fresh(
    g: Registered,
    name: Seq<char>,
    list: Seq<Argument>,
    text: Seq<char>,
)
    ensures
        is_fresh(g, after_arguments(g, name, list, text)),
    decreases list,
{
    if list.len() > 0 {
        lemma_arguments_are_fresh(g, name, list.drop_last(), text);
        let mid = after_arguments(g, name, list.drop_last(), text);
        if let Argument::Expression(expr) = list.last() {
            lemma_expression_is_fresh(mid, name, expr, false, text);
            lemma_fresh_trans(g, mid, after_expression(mid, name, expr, false, text));
        }
    }
}

proof fn lemma_inside_is_fresh(g: Registered, stmt: Statement, text: Seq<char>)
    ensures
        is_fresh(g, after_inside(g, stmt, text)),
{
    match stmt {
        Statement::Declaration(Declaration::Variable(variable)) => {
            if let Some((id, init)) = candidate_variable(variable) {
                lemma_expression_is_fresh(g, id.name@, init, true, text);
            }
        },
        Statement::ExportNamed(e) => {
            if let Some(Declaration::Variable(variable)) = e.declaration {
                if let Some((id, init)) = candidate_variable(variable) {
                    lemma_expression_is_fresh(g, id.name@, init, true, text);
                }
            }
        },
        Statement::ExportDefault(e) => {
            if let ExportDefaultDeclarationKind::Expression(expr) = e.declaration {
                lemma_expression_is_fresh(g, "%default%"@, expr, false, text);
            }
        },
        _ => {},
    }
}

proof fn lemma_statements_are_fresh(
    g: Registered,
    list: Seq<Statement>,
    used: Set<SymbolId>,
    text: Seq<char>,
)
    ensures
        is_fresh(g, after_statements(g, list, used, text)),
        forall|i: int|
            g.names.len() <= i < after_statements(g, list, used, text).names.len() ==> !(g.names
                + g.unresolved).contains(
                #[trigger] after_statements(g, list, used, text).names[i],
            ),
    decreases list.len(),
{
    let after = after_statements(g, list, used, text);
    if list.len() > 0 {
        lemma_statements_are_fresh(g, list.drop_last(), used, text);
        let mid = after_statements(g, list.drop_last(), used, text);
        let inside = after_inside(mid, list.last(), text);
        lemma_inside_is_fresh(mid, list.last(), text);
        lemma_fresh_trans(g, mid, inside);
        if let Some(id) = statement_component(list.last(), used) {
            lemma_fresh_register(inside, id.name@);
            lemma_fresh_trans(g, inside, inside.declare(id));
        }
    }
    assert forall|i: int| g.names.len() <= i < after.names.len() implies !(g.names
        + g.unresolved).contains(#[trigger] after.names[i]) by {
        let all = g.names + g.unresolved;
        if all.contains(after.names[i]) {
            let k = all.index_of(after.names[i]);
            if k < g.names.len() {
                assert(after.names[k] == g.names[k]);
                assert(after.names[k] != after.names[i]);
            } else {
                assert(g.unresolved[k - g.names.len()] == after.names[i]);
                assert(g.unresolved.contains(after.names[i]));
            }
        }
    }
}

} // verus!

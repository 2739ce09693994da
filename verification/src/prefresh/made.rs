//! What the statements and calls do that are added to a program.

use super::components::registration_shape;
use super::resolver::RefreshIdentifierResolver;
use super::signatures::{Signed, call_inserted, signature_added, signature_arguments};
use super::{held_variables, registration_call, registrations_added, signing_call};
use crate::ast::shape::{
    Shape, arguments_have_shapes, assign, call, declarator_has_shape, has_shape,
    statement_has_shape,
};
use crate::ast::{
    Argument, AssignmentOperator, AssignmentTarget, BindingIdentifier, BindingPattern, Declaration,
    Expression, FunctionBody, Span, Statement, VariableDeclarationKind,
};
use crate::transform::TransformCtx;
use crate::traverse::Bound;
use vstd::prelude::*;

verus! {

/// An expression reads a variable.
pub open spec fn is_variable(e: Expression, bound: Bound) -> bool {
    e matches Expression::Identifier(ident) && ident.name@ == bound.name && ident.symbol_id == Some(
        bound.symbol_id,
    ) && ident.is_read && !ident.is_write
}

/// An expression is a text.
pub open spec fn is_text(e: Expression, text: Seq<char>) -> bool {
    e matches Expression::StringLiteral(l) && l.value@ == text
}

/// Behind the program all variables of the components are declared at once, without values. Then
/// each is handed to the function that registers it, with the name it is registered by.
pub proof fn law_each_component_is_registered(
    before: Seq<Statement>,
    after: Seq<Statement>,
    refresh_reg: Shape,
    list: Seq<(Bound, Seq<char>)>,
    i: int,
)
    requires
        registrations_added(before, after, refresh_reg, list),
        0 <= i < list.len(),
    ensures
        after[before.len() as int] matches Statement::Declaration(Declaration::Variable(d)) && d.kind
            == VariableDeclarationKind::Var && d.declarations@.len() == list.len() && (
        d.declarations@[i].id matches BindingPattern::Identifier(id) && id.name@ == list[i].0.name
            && id.symbol_id == list[i].0.symbol_id) && d.declarations@[i].init is None,
        after[before.len() + 1 + i] matches Statement::Expression(e) && (
        e.expression matches Expression::Call(c) && has_shape(c.callee, refresh_reg)
            && c.arguments@.len() == 2 && (
        c.arguments@[0] matches Argument::Expression(first) && is_variable(first, list[i].0)) && (
        c.arguments@[1] matches Argument::Expression(second) && is_text(second, list[i].1))),
{
    let shape = held_variables(list);
    assert(statement_has_shape(after[before.len() as int], shape));
    let declarators = shape->declarators;
    let d = after[before.len() as int]->Declaration_0->Variable_0;
    assert(declarators[i] == (list[i].0, None::<Shape>));
    assert(declarator_has_shape(d.declarations@[i], declarators[i]));
    let shapes = seq![Shape::Read(list[i].0), Shape::Text(list[i].1)];
    let statement = after[before.len() + 1 + i];
    assert(statement_has_shape(statement, registration_call(refresh_reg, list[i])));
    let e = statement->Expression_0.expression;
    assert(has_shape(e, call(refresh_reg, shapes)));
    let c = e->Call_0;
    assert(arguments_have_shapes(c.arguments@, shapes));
    assert(shapes[0] == Shape::Read(list[i].0) && shapes[1] == Shape::Text(list[i].1));
    assert(has_shape(c.arguments@[0]->Expression_0, shapes[0]));
    assert(has_shape(c.arguments@[1]->Expression_0, shapes[1]));
}

/// A declared component is assigned to the variable that holds it.
pub proof fn law_declared_components_are_assigned(
    statement: Statement,
    bound: Bound,
    id: BindingIdentifier,
)
    requires
        statement_has_shape(statement, registration_shape(bound, id)),
    ensures
        statement matches Statement::Expression(e) && (
        e.expression matches Expression::Assignment(a) && a.operator == AssignmentOperator::Assign
            && (a.left matches AssignmentTarget::Identifier(target) && target.name@ == bound.name
            && target.symbol_id == Some(bound.symbol_id)) && (
        a.right matches Expression::Identifier(value) && value.name@ == id.name@ && value.symbol_id
            == Some(id.symbol_id))),
{
    let value = Shape::Name { name: id.name@, symbol_id: Some(id.symbol_id) };
    let e = statement->Expression_0.expression;
    assert(has_shape(e, assign(bound, value)));
    assert(has_shape(e->Assignment_0.right, value));
}

/// A component is handed to the function that signs it, first of all, and its key next, where the
/// component stood.
pub proof fn law_components_are_handed_to_their_signatures(
    e: Expression,
    span: Span,
    s: Signed,
    component: Expression,
)
    requires
        has_shape(e, signing_call(span, s, Shape::Given(component))),
    ensures
        e matches Expression::Call(c) && c.span == span && is_variable(c.callee, s.binding)
            && c.arguments@.len() == 1 + signature_arguments(s).len() && c.arguments@[0]
            == Argument::Expression(component) && (c.arguments@[1] matches Argument::Expression(key)
            && is_text(key, s.key)),
{
    let shapes = seq![Shape::Given(component)] + signature_arguments(s);
    let c = e->Call_0;
    assert(has_shape(c.callee, Shape::Read(s.binding)));
    assert(arguments_have_shapes(c.arguments@, shapes));
    assert(shapes[0] == Shape::Given(component));
    assert(shapes[1] == Shape::Text(s.key));
    assert(has_shape(c.arguments@[0]->Expression_0, shapes[0]));
    assert(has_shape(c.arguments@[1]->Expression_0, shapes[1]));
}

/// A function of the runtime is called by the name that was given: a variable, a property of one,
/// or what hangs on `import`.
pub proof fn law_runtime_functions_are_called_by_name(e: Expression, r: RefreshIdentifierResolver)
    requires
        has_shape(e, r.shape()),
    ensures
        r matches RefreshIdentifierResolver::Identifier(name) ==> (
        e matches Expression::Identifier(ident) && ident.name@ == name@),
        r matches RefreshIdentifierResolver::Member(object, property) ==> (
        e matches Expression::StaticMember(m) && m.property@ == property@ && (
        m.object matches Expression::Identifier(ident) && ident.name@ == object@)),
        r matches RefreshIdentifierResolver::Import(property, None) ==> (
        e matches Expression::MetaProperty(m) && m.meta@ == "import"@ && m.property@ == property@),
        r matches RefreshIdentifierResolver::Import(property, Some(rest)) ==> (
        e matches Expression::StaticMember(m) && m.property@ == rest@ && (
        m.object matches Expression::MetaProperty(i) && i.meta@ == "import"@ && i.property@
            == property@)),
{
    match r {
        RefreshIdentifierResolver::Member(object, _) => {
            assert(has_shape(
                e->StaticMember_0.object,
                Shape::Name { name: object@, symbol_id: None },
            ));
        },
        RefreshIdentifierResolver::Import(property, Some(_)) => {
            assert(has_shape(
                e->StaticMember_0.object,
                Shape::Meta { meta: "import"@, property: property@ },
            ));
        },
        _ => {},
    }
}

/// A variable that holds a component is handed to the function that signs it, and the key next.
pub proof fn law_variables_are_handed_to_their_signatures(
    e: Expression,
    span: Span,
    s: Signed,
    component: Bound,
)
    requires
        has_shape(e, signing_call(span, s, Shape::Read(component))),
    ensures
        e matches Expression::Call(c) && is_variable(c.callee, s.binding) && c.arguments@.len() == 1
            + signature_arguments(s).len() && (c.arguments@[0] matches Argument::Expression(first)
            && is_variable(first, component)) && (
        c.arguments@[1] matches Argument::Expression(key) && is_text(key, s.key)),
{
    let shapes = seq![Shape::Read(component)] + signature_arguments(s);
    let c = e->Call_0;
    assert(has_shape(c.callee, Shape::Read(s.binding)));
    assert(arguments_have_shapes(c.arguments@, shapes));
    assert(shapes[0] == Shape::Read(component));
    assert(shapes[1] == Shape::Text(s.key));
    assert(has_shape(c.arguments@[0]->Expression_0, shapes[0]));
    assert(has_shape(c.arguments@[1]->Expression_0, shapes[1]));
}

/// The variable that signs a function is given what the function of the runtime returns, where
/// variables of functions are declared, and is called at the start of the body with nothing; the
/// rest of the body stays.
pub proof fn law_signatures_are_made_and_called(
    before: TransformCtx,
    after: TransformCtx,
    s: Signed,
    refresh_sig: RefreshIdentifierResolver,
    body: FunctionBody,
    body_after: FunctionBody,
)
    requires
        signature_added(before, after, s, refresh_sig),
        call_inserted(body, body_after, s.binding),
    ensures
        ({
            let made = after.state.var_declarations@.last();
            &&& made.binding@ == s.binding
            &&& made.scope_id == before.traverse.scoping.current_hoist_scope_id
            &&& made.init matches Expression::Call(c) && c.arguments@.len() == 0 && has_shape(
                c.callee,
                refresh_sig.shape(),
            )
        }),
        body_after.directives == body.directives,
        body_after.statements@ == seq![body_after.statements@[0]] + body.statements@,
        body_after.statements@[0] matches Statement::Expression(e) && (
        e.expression matches Expression::Call(c) && c.arguments@.len() == 0 && is_variable(
            c.callee,
            s.binding,
        )),
{
    let made = after.state.var_declarations@.last();
    assert(has_shape(made.init, call(refresh_sig.shape(), Seq::empty())));
    assert(arguments_have_shapes(made.init->Call_0.arguments@, Seq::empty()));
    let first = body_after.statements@[0];
    let called = call(Shape::Read(s.binding), Seq::empty());
    assert(has_shape(first->Expression_0.expression, called));
    let c = first->Expression_0.expression->Call_0;
    assert(has_shape(c.callee, Shape::Read(s.binding)));
    assert(arguments_have_shapes(c.arguments@, Seq::empty()));
    assert(body_after.statements@ =~= seq![first] + body_after.statements@.skip(1));
}

} // verus!

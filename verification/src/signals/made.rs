//! What is added to a program that uses signals.

use super::{
    ReactSignals, managed_statements, transformed, usage_of, use_signals_added,
    use_signals_arguments,
};
use crate::ast::shape::{
    Shape, arguments_have_shapes, call, declarator_has_shape, has_shape, member,
    statement_has_shape, statements_have_shapes, var_shape,
};
use crate::ast::{
    Argument, BindingPattern, Declaration, Expression, FunctionBody, ScopeId, Statement,
};
use crate::transform::TransformCtx;
use crate::traverse::Bound;
use vstd::prelude::*;

verus! {

/// A statement declares one variable.
pub open spec fn declares_one(statement: Statement, bound: Bound) -> bool {
    statement matches Statement::Declaration(Declaration::Variable(d)) && d.declarations@.len() == 1
        && (d.declarations@[0].id matches BindingPattern::Identifier(id) && id.name@ == bound.name
        && id.symbol_id == bound.symbol_id) && d.declarations@[0].init is Some
}

/// The value of the variable that a statement declares.
pub open spec fn value_of(statement: Statement) -> Expression {
    statement->Declaration_0->Variable_0.declarations@[0].init->0
}

/// A declared variable and its value.
proof fn lemma_declares_one(statement: Statement, bound: Bound, shape: Shape)
    requires
        statement_has_shape(statement, var_shape(bound, shape)),
    ensures
        declares_one(statement, bound),
        has_shape(value_of(statement), shape),
{
    let list = seq![(bound, Some(shape))];
    assert(list[0] == (bound, Some(shape)));
    let d = statement->Declaration_0->Variable_0;
    assert(declarator_has_shape(d.declarations@[0], list[0]));
}

/// In a managed function a variable is given what `useSignals` returns, and at the end, however it
/// is left, the effect is ended by calling `f` of that variable.
pub proof fn law_effects_are_started_and_ended(
    rule: ReactSignals,
    before: FunctionBody,
    after: FunctionBody,
    use_signals: Bound,
    effect: Bound,
    first_scope_id: ScopeId,
    name: Option<Seq<char>>,
)
    requires
        transformed(rule, before, after, use_signals, effect, first_scope_id, name),
        usage_of(rule.no_try_finally, name) is Some,
    ensures
        after.statements@.len() == 2,
        declares_one(after.statements@[0], effect),
        value_of(after.statements@[0]) matches Expression::Call(c) && (
        c.callee matches Expression::Identifier(ident) && ident.name@ == use_signals.name
            && ident.symbol_id == Some(use_signals.symbol_id)) && arguments_have_shapes(
            c.arguments@,
            use_signals_arguments(rule.debug, usage_of(rule.no_try_finally, name), name),
        ),
        after.statements@[1] matches Statement::Try(t) && (t.finalizer matches Some(last)
            && last.body@.len() == 1 && (last.body@[0] matches Statement::Expression(e) && (
        e.expression matches Expression::Call(c) && c.arguments@.len() == 0 && (
        c.callee matches Expression::StaticMember(m) && m.property@ == "f"@ && (
        m.object matches Expression::Identifier(ident) && ident.name@ == effect.name
            && ident.symbol_id == Some(effect.symbol_id)))))),
{
    let arguments = use_signals_arguments(
        rule.debug,
        usage_of(rule.no_try_finally, name),
        name,
    );
    let shapes = managed_statements(
        before.statements@,
        use_signals,
        effect,
        arguments,
        first_scope_id,
    );
    let start = call(Shape::Read(use_signals), arguments);
    assert(shapes[0] == var_shape(effect, start));
    assert(statement_has_shape(after.statements@[0], shapes[0]));
    assert(statement_has_shape(after.statements@[1], shapes[1]));
    lemma_declares_one(after.statements@[0], effect, start);
    assert(has_shape(value_of(after.statements@[0])->Call_0.callee, Shape::Read(use_signals)));
    let finalizer = shapes[1]->finalizer;
    let last = after.statements@[1]->Try_0.finalizer->0;
    let end = call(member(Shape::Read(effect), "f"@), Seq::empty());
    assert(statements_have_shapes(last.body@, finalizer));
    assert(statement_has_shape(last.body@[0], finalizer[0]));
    let e = last.body@[0]->Expression_0.expression;
    assert(has_shape(e, end));
    let c = e->Call_0;
    assert(has_shape(c.callee, member(Shape::Read(effect), "f"@)));
    assert(has_shape(c.callee->StaticMember_0.object, Shape::Read(effect)));
    assert(arguments_have_shapes(c.arguments@, Seq::empty()));
}

/// A module imports `useSignals` from the source. A script takes it, at its top, from what
/// `require` returns for the source.
pub proof fn law_use_signals_is_loaded(
    before: TransformCtx,
    after: TransformCtx,
    source: Seq<char>,
    bound: Bound,
)
    requires
        use_signals_added(before, after, source, bound),
    ensures
        before.state.is_module ==> ({
            let imports = after.state.named_imports@;
            &&& imports.len() == before.state.named_imports@.len() + 1
            &&& imports.drop_last() == before.state.named_imports@
            &&& imports.last().source@ == source
            &&& imports.last().imported@ == "useSignals"@
            &&& imports.last().local@ == bound
            &&& after.state.top_level_statements == before.state.top_level_statements
        }),
        !before.state.is_module ==> ({
            let statements = after.state.top_level_statements@;
            &&& statements.len() == before.state.top_level_statements@.len() + 1
            &&& statements.drop_last() == before.state.top_level_statements@
            &&& declares_one(statements.last(), bound)
            &&& value_of(statements.last()) matches Expression::StaticMember(m) && m.property@
                == "useSignals"@ && (m.object matches Expression::Call(c) && (
            c.callee matches Expression::Identifier(ident) && ident.name@ == "require"@)
                && c.arguments@.len() == 1 && (
            c.arguments@[0] matches Argument::Expression(Expression::StringLiteral(l)) && l.value@
                == source))
            &&& after.state.named_imports == before.state.named_imports
        }),
{
    if !before.state.is_module {
        let with_uid = TransformCtx {
            state: before.state,
            ..after.with_made(before.traverse.scoping.made)
        };
        let shape = super::required_use_signals(with_uid, source);
        let statement = after.state.top_level_statements@.last();
        lemma_declares_one(statement, bound, shape);
        let require = Shape::Name {
            name: "require"@,
            symbol_id: with_uid.traverse.scoping.symbols.binding(0, "require"@),
        };
        let shapes = seq![Shape::Text(source)];
        let m = value_of(statement)->StaticMember_0;
        assert(has_shape(m.object, call(require, shapes)));
        let c = m.object->Call_0;
        assert(has_shape(c.callee, require));
        assert(arguments_have_shapes(c.arguments@, shapes));
        assert(shapes[0] == Shape::Text(source));
        assert(has_shape(c.arguments@[0]->Expression_0, shapes[0]));
    }
}

} // verus!

//! What the rule reports where writes to properties are left alone.

use super::flow::{
    Flow, property_report, read_identifier, variable_report, walk_arguments, walk_children,
    walk_class, walk_class_elements, walk_declaration, walk_declarators, walk_expression,
    walk_expressions, walk_for_each, walk_key, walk_left_side, walk_maybe_default,
    walk_object_properties, walk_optional, walk_pattern, walk_pattern_elements,
    walk_pattern_properties, walk_statement, walk_statements, walk_target, walk_target_elements,
    walk_target_properties, write_elements, write_expression, write_properties, write_target,
};
use super::frame::Scene;
use super::state::{Reads, TrackedValue};
use super::{ConfigElement0, RequireAtomicUpdates, analysis};
use crate::ast::{
    Argument, AssignmentOperator, AssignmentTarget, AssignmentTargetMaybeDefault,
    AssignmentTargetProperty, BindingPattern, BindingProperty, Class, ClassElement, Declaration,
    ExportDefaultDeclarationKind, Expression, ForEachStatement, ForStatementInit, ForStatementLeft,
    FunctionBody, IdentifierReference, ObjectPropertyKind, PropertyKey, ScopeId, Span, Statement,
    StatementChild, SymbolId, VariableDeclarator, Wrapper, unshared,
};
use crate::lint::{AstKind, LintContext, Report};
use vstd::prelude::*;

verus! {

impl Scene {
    /// The same scene, in which writes to properties are left alone.
    pub open spec fn allowing(self) -> Scene {
        Scene { allow_properties: true, ..self }
    }
}

/// The report is one on a property.
pub open spec fn is_property_report(report: Report) -> bool {
    exists|span: Span, name: Seq<char>| report == #[trigger] property_report(span, name)
}

/// The reports without those on properties, in their order.
pub open spec fn without_properties(list: Seq<Report>) -> Seq<Report>
    decreases list.len(),
{
    if list.len() == 0 {
        Seq::empty()
    } else {
        let before = without_properties(list.drop_last());
        if is_property_report(list.last()) {
            before
        } else {
            before.push(list.last())
        }
    }
}

/// `q` is what `s` would be if writes to properties were left alone: the variables were read at the
/// same times, and the reports are those that are not on properties.
pub open spec fn silences(s: Flow, q: Flow) -> bool {
    &&& q.reads.fresh_var == s.reads.fresh_var
    &&& q.reads.outdated_var == s.reads.outdated_var
    &&& q.reports == without_properties(s.reports)
}

/// A report on a variable is kept, and one on a property is not.
proof fn lemma_kept_reports()
    ensures
        forall|list: Seq<Report>, span: Span, name: Seq<char>| #[trigger]
            without_properties(list.push(variable_report(span, name))) == without_properties(
                list,
            ).push(variable_report(span, name)),
        forall|list: Seq<Report>, span: Span, name: Seq<char>| #[trigger]
            without_properties(list.push(property_report(span, name))) == without_properties(list),
{
    reveal_strlit(
        "Avoid reading the variable before an `await`/`yield` and writing to it afterwards.",
    );
    reveal_strlit("Avoid reading a property and writing to it across an `await`/`yield`.");
    assert("Avoid reading a property and writing to it across an `await`/`yield`."@.len()
        != "Avoid reading the variable before an `await`/`yield` and writing to it afterwards."@.len());
    assert forall|list: Seq<Report>, span: Span, name: Seq<char>| #[trigger]
        without_properties(list.push(variable_report(span, name))) == without_properties(list).push(
            variable_report(span, name),
        ) by {
        let r = variable_report(span, name);
        assert(list.push(r).drop_last() =~= list);
        assert(!is_property_report(r));
    }
    assert forall|list: Seq<Report>, span: Span, name: Seq<char>| #[trigger]
        without_properties(list.push(property_report(span, name))) == without_properties(list) by {
        let r = property_report(span, name);
        assert(list.push(r).drop_last() =~= list);
        assert(is_property_report(r));
    }
}

/// Which variables are followed does not depend on properties.
proof fn lemma_same_variables(f: Scene)
    ensures
        forall|key: TrackedValue| #[trigger]
            f.allowing().spec_tracked_for_var(key) == f.spec_tracked_for_var(key),
        forall|ident: IdentifierReference| #[trigger]
            f.allowing().spec_reference_key(ident) == f.spec_reference_key(ident),
{
    let g = f.allowing();
    assert forall|scope_id: ScopeId| #[trigger] g.starts_function(scope_id) == f.starts_function(
        scope_id,
    ) by {}
    assert forall|scope_id: ScopeId| #[trigger] g.is_direct(scope_id) == f.is_direct(scope_id) by {
        let chain = f.scoping.scopes.chain(scope_id);
        if f.is_direct(scope_id) {
            let k = choose|k: int|
                0 <= k < chain.len() && #[trigger] chain[k] == f.func_scope_id && forall|j: int|
                    0 <= j < k ==> !f.starts_function(#[trigger] chain[j]);
            assert(chain[k] == g.func_scope_id);
            assert(forall|j: int| 0 <= j < k ==> !g.starts_function(#[trigger] chain[j]));
        }
        if g.is_direct(scope_id) {
            let k = choose|k: int|
                0 <= k < chain.len() && #[trigger] chain[k] == g.func_scope_id && forall|j: int|
                    0 <= j < k ==> !g.starts_function(#[trigger] chain[j]);
            assert(chain[k] == f.func_scope_id);
            assert(forall|j: int| 0 <= j < k ==> !f.starts_function(#[trigger] chain[j]));
        }
    }
    assert forall|symbol_id: SymbolId| #[trigger] g.spec_has_escape(symbol_id)
        == f.spec_has_escape(symbol_id) by {
        let references = f.scoping.symbols.symbols@[symbol_id as int].references@;
        if f.spec_has_escape(symbol_id) {
            let i = choose|i: int|
                0 <= i < references.len() && !f.is_direct((#[trigger] references[i]).scope_id);
            assert(!g.is_direct(references[i].scope_id));
        }
        if g.spec_has_escape(symbol_id) {
            let i = choose|i: int|
                0 <= i < references.len() && !g.is_direct((#[trigger] references[i]).scope_id);
            assert(!f.is_direct(references[i].scope_id));
        }
    }
    assert forall|key: TrackedValue| #[trigger] g.spec_tracked_for_var(key)
        == f.spec_tracked_for_var(key) by {
        if let TrackedValue::Symbol(symbol_id) = key {
            assert(g.spec_is_outer(symbol_id) == f.spec_is_outer(symbol_id));
            assert(g.spec_has_escape(symbol_id) == f.spec_has_escape(symbol_id));
        }
    }
}

proof fn agrees_write_expression(f: Scene, g: Scene, expr: Expression, s: Flow, q: Flow)
    requires
        g == f.allowing(),
        silences(s, q),
    ensures
        silences(write_expression(f, expr, s), write_expression(g, expr, q)),
    decreases expr,
{
    lemma_same_variables(f);
    lemma_kept_reports();
    match expr {
        Expression::Wrapped(w) if w.wrapper != Wrapper::TSInstantiation => agrees_write_expression(
            f,
            g,
            w.expression,
            s,
            q,
        ),
        _ => {},
    }
}

proof fn agrees_write_target(f: Scene, g: Scene, target: AssignmentTarget, s: Flow, q: Flow)
    requires
        g == f.allowing(),
        silences(s, q),
    ensures
        silences(write_target(f, target, s), write_target(g, target, q)),
    decreases target,
{
    lemma_same_variables(f);
    lemma_kept_reports();
    match target {
        AssignmentTarget::Wrapped(w) => agrees_write_expression(
            f,
            g,
            w.expression,
            s,
            q,
        ),
        AssignmentTarget::Array(t) => {
            agrees_write_elements(f, g, t.elements@, s, q);
            if let Some(rest) = t.rest {
                agrees_write_target(
                    f,
                    g,
                    rest,
                    write_elements(f, t.elements@, s),
                    write_elements(g, t.elements@, q),
                );
            }
        },
        AssignmentTarget::Object(t) => {
            agrees_write_properties(f, g, t.properties@, s, q);
            if let Some(rest) = t.rest {
                agrees_write_target(
                    f,
                    g,
                    rest,
                    write_properties(f, t.properties@, s),
                    write_properties(g, t.properties@, q),
                );
            }
        },
        _ => {},
    }
}

proof fn agrees_write_elements(
    f: Scene,
    g: Scene,
    list: Seq<Option<AssignmentTargetMaybeDefault>>,
    s: Flow,
    q: Flow,
)
    requires
        g == f.allowing(),
        silences(s, q),
    ensures
        silences(write_elements(f, list, s), write_elements(g, list, q)),
    decreases list,
{
    lemma_same_variables(f);
    lemma_kept_reports();
    if list.len() > 0 {
        agrees_write_elements(f, g, list.drop_last(), s, q);
        let s = write_elements(f, list.drop_last(), s);
        let q = write_elements(g, list.drop_last(), q);
        if let Some(t) = list.last() {
            agrees_write_target(f, g, t.binding, s, q);
        }
    }
}

proof fn agrees_write_properties(
    f: Scene,
    g: Scene,
    list: Seq<AssignmentTargetProperty>,
    s: Flow,
    q: Flow,
)
    requires
        g == f.allowing(),
        silences(s, q),
    ensures
        silences(write_properties(f, list, s), write_properties(g, list, q)),
    decreases list,
{
    lemma_same_variables(f);
    lemma_kept_reports();
    if list.len() > 0 {
        agrees_write_properties(f, g, list.drop_last(), s, q);
        let s = write_properties(f, list.drop_last(), s);
        let q = write_properties(g, list.drop_last(), q);
        if let AssignmentTargetProperty::Property(p) = list.last() {
            agrees_write_target(f, g, p.binding.binding, s, q);
        }
    }
}

proof fn agrees_expression(f: Scene, g: Scene, expr: Expression, s: Flow, q: Flow)
    requires
        g == f.allowing(),
        silences(s, q),
    ensures
        silences(walk_expression(f, expr, s), walk_expression(g, expr, q)),
    decreases expr, 0nat,
{
    lemma_same_variables(f);
    lemma_kept_reports();
    match expr {
        Expression::TemplateLiteral(t) => agrees_expressions(f, g, t.expressions@, s, q),
        Expression::StaticMember(m) => agrees_expression(f, g, m.object, s, q),
        Expression::ComputedMember(m) => {
            agrees_expression(f, g, m.object, s, q);
            agrees_expression(
                f,
                g,
                m.expression,
                walk_expression(f, m.object, s),
                walk_expression(g, m.object, q),
            );
        },
        Expression::PrivateField(m) => agrees_expression(f, g, m.object, s, q),
        Expression::Call(c) => {
            agrees_expression(f, g, c.callee, s, q);
            agrees_arguments(
                f,
                g,
                c.arguments@,
                walk_expression(f, c.callee, s),
                walk_expression(g, c.callee, q),
            );
        },
        Expression::Class(c) => agrees_class(f, g, *c, s, q),
        Expression::Assignment(a) => {
            let is_compound = a.operator != AssignmentOperator::Assign;
            agrees_left_side(f, g, a.left, is_compound, s, q);
            let s1 = walk_left_side(f, a.left, is_compound, s);
            let q1 = walk_left_side(g, a.left, is_compound, q);
            agrees_expression(f, g, a.right, s1, q1);
            agrees_write_target(
                f,
                g,
                a.left,
                walk_expression(f, a.right, s1),
                walk_expression(g, a.right, q1),
            );
        },
        Expression::Logical(l) => {
            agrees_expression(f, g, l.left, s, q);
            agrees_expression(
                f,
                g,
                l.right,
                walk_expression(f, l.left, s),
                walk_expression(g, l.left, q),
            );
        },
        Expression::Conditional(c) => {
            agrees_expression(f, g, c.test, s, q);
            let before = walk_expression(f, c.test, s);
            let before_q = walk_expression(g, c.test, q);
            agrees_expression(f, g, c.consequent, before, before_q);
            let consequent = walk_expression(f, c.consequent, before);
            let consequent_q = walk_expression(g, c.consequent, before_q);
            agrees_expression(
                f,
                g,
                c.alternate,
                before.with_reports_of(consequent),
                before_q.with_reports_of(consequent_q),
            );
        },
        Expression::Await(a) => agrees_expression(f, g, a.argument, s, q),
        Expression::Yield(y) => {
            if let Some(argument) = y.argument {
                agrees_expression(f, g, argument, s, q);
            }
        },
        Expression::Object(o) => agrees_object_properties(f, g, o.properties@, s, q),
        Expression::Array(a) => agrees_expressions(f, g, a.elements@, s, q),
        Expression::Wrapped(w) => agrees_expression(f, g, w.expression, s, q),
        Expression::Jsx(j) => {
            let s1 = match j.name {
                Some(name) => read_identifier(f, name, s),
                None => s,
            };
            let q1 = match j.name {
                Some(name) => read_identifier(g, name, q),
                None => q,
            };
            agrees_expressions(f, g, j.attributes@, s1, q1);
            agrees_expressions(
                f,
                g,
                j.children@,
                walk_expressions(f, j.attributes@, s1),
                walk_expressions(g, j.attributes@, q1),
            );
        },
        Expression::Shared(e) => agrees_expression(f, g, unshared(e), s, q),
        Expression::Other(o) => agrees_expressions(f, g, o.children@, s, q),
        _ => {},
    }
}

proof fn agrees_expressions(f: Scene, g: Scene, list: Seq<Expression>, s: Flow, q: Flow)
    requires
        g == f.allowing(),
        silences(s, q),
    ensures
        silences(walk_expressions(f, list, s), walk_expressions(g, list, q)),
    decreases list, 0nat,
{
    lemma_same_variables(f);
    lemma_kept_reports();
    if list.len() > 0 {
        agrees_expressions(f, g, list.drop_last(), s, q);
        let s = walk_expressions(f, list.drop_last(), s);
        let q = walk_expressions(g, list.drop_last(), q);
        agrees_expression(f, g, list.last(), s, q);
    }
}

proof fn agrees_optional(f: Scene, g: Scene, expr: Option<Expression>, s: Flow, q: Flow)
    requires
        g == f.allowing(),
        silences(s, q),
    ensures
        silences(walk_optional(f, expr, s), walk_optional(g, expr, q)),
    decreases expr, 0nat,
{
    lemma_same_variables(f);
    lemma_kept_reports();
    if let Some(expr) = expr {
        agrees_expression(f, g, expr, s, q);
    }
}

proof fn agrees_arguments(f: Scene, g: Scene, list: Seq<Argument>, s: Flow, q: Flow)
    requires
        g == f.allowing(),
        silences(s, q),
    ensures
        silences(walk_arguments(f, list, s), walk_arguments(g, list, q)),
    decreases list, 0nat,
{
    lemma_same_variables(f);
    lemma_kept_reports();
    if list.len() > 0 {
        agrees_arguments(f, g, list.drop_last(), s, q);
        let s = walk_arguments(f, list.drop_last(), s);
        let q = walk_arguments(g, list.drop_last(), q);
        match list.last() {
            Argument::Spread(e) => agrees_expression(f, g, e.argument, s, q),
            Argument::Expression(expr) => agrees_expression(f, g, expr, s, q),
        }
    }
}

proof fn agrees_key(f: Scene, g: Scene, key: PropertyKey, s: Flow, q: Flow)
    requires
        g == f.allowing(),
        silences(s, q),
    ensures
        silences(walk_key(f, key, s), walk_key(g, key, q)),
    decreases key, 0nat,
{
    lemma_same_variables(f);
    lemma_kept_reports();
    if let PropertyKey::Expression(key) = key {
        agrees_expression(f, g, key.expression, s, q);
    }
}

proof fn agrees_object_properties(
    f: Scene,
    g: Scene,
    list: Seq<ObjectPropertyKind>,
    s: Flow,
    q: Flow,
)
    requires
        g == f.allowing(),
        silences(s, q),
    ensures
        silences(walk_object_properties(f, list, s), walk_object_properties(g, list, q)),
    decreases list, 0nat,
{
    lemma_same_variables(f);
    lemma_kept_reports();
    if list.len() > 0 {
        agrees_object_properties(f, g, list.drop_last(), s, q);
        let s = walk_object_properties(f, list.drop_last(), s);
        let q = walk_object_properties(g, list.drop_last(), q);
        match list.last() {
            ObjectPropertyKind::ObjectProperty(p) => {
                agrees_key(f, g, p.key, s, q);
                agrees_expression(f, g, p.value, walk_key(f, p.key, s), walk_key(g, p.key, q));
            },
            ObjectPropertyKind::SpreadProperty(expr) => agrees_expression(f, g, expr, s, q),
        }
    }
}

proof fn agrees_left_side(
    f: Scene,
    g: Scene,
    target: AssignmentTarget,
    is_compound: bool,
    s: Flow,
    q: Flow,
)
    requires
        g == f.allowing(),
        silences(s, q),
    ensures
        silences(
            walk_left_side(f, target, is_compound, s),
            walk_left_side(g, target, is_compound, q),
        ),
    decreases target, 1nat,
{
    lemma_same_variables(f);
    lemma_kept_reports();
    match target {
        AssignmentTarget::Identifier(_) => {},
        AssignmentTarget::ComputedMember(m) => {
            agrees_expression(f, g, m.object, s, q);
            agrees_expression(
                f,
                g,
                m.expression,
                walk_expression(f, m.object, s),
                walk_expression(g, m.object, q),
            );
        },
        AssignmentTarget::StaticMember(m) => agrees_expression(f, g, m.object, s, q),
        AssignmentTarget::PrivateField(m) => agrees_expression(f, g, m.object, s, q),
        _ => agrees_target(f, g, target, s, q),
    }
}

proof fn agrees_target(f: Scene, g: Scene, target: AssignmentTarget, s: Flow, q: Flow)
    requires
        g == f.allowing(),
        silences(s, q),
    ensures
        silences(walk_target(f, target, s), walk_target(g, target, q)),
    decreases target, 0nat,
{
    lemma_same_variables(f);
    lemma_kept_reports();
    match target {
        AssignmentTarget::Identifier(_) => {},
        AssignmentTarget::ComputedMember(m) => {
            agrees_expression(f, g, m.object, s, q);
            agrees_expression(
                f,
                g,
                m.expression,
                walk_expression(f, m.object, s),
                walk_expression(g, m.object, q),
            );
        },
        AssignmentTarget::StaticMember(m) => agrees_expression(f, g, m.object, s, q),
        AssignmentTarget::PrivateField(m) => agrees_expression(f, g, m.object, s, q),
        AssignmentTarget::Wrapped(w) => agrees_expression(f, g, w.expression, s, q),
        AssignmentTarget::Array(t) => {
            agrees_target_elements(f, g, t.elements@, s, q);
            if let Some(rest) = t.rest {
                agrees_target(
                    f,
                    g,
                    rest,
                    walk_target_elements(f, t.elements@, s),
                    walk_target_elements(g, t.elements@, q),
                );
            }
        },
        AssignmentTarget::Object(t) => {
            agrees_target_properties(f, g, t.properties@, s, q);
            if let Some(rest) = t.rest {
                agrees_target(
                    f,
                    g,
                    rest,
                    walk_target_properties(f, t.properties@, s),
                    walk_target_properties(g, t.properties@, q),
                );
            }
        },
    }
}

proof fn agrees_maybe_default(
    f: Scene,
    g: Scene,
    target: AssignmentTargetMaybeDefault,
    s: Flow,
    q: Flow,
)
    requires
        g == f.allowing(),
        silences(s, q),
    ensures
        silences(walk_maybe_default(f, target, s), walk_maybe_default(g, target, q)),
    decreases target, 0nat,
{
    lemma_same_variables(f);
    lemma_kept_reports();
    agrees_target(f, g, target.binding, s, q);
    agrees_optional(
        f,
        g,
        target.init,
        walk_target(f, target.binding, s),
        walk_target(g, target.binding, q),
    );
}

proof fn agrees_target_elements(
    f: Scene,
    g: Scene,
    list: Seq<Option<AssignmentTargetMaybeDefault>>,
    s: Flow,
    q: Flow,
)
    requires
        g == f.allowing(),
        silences(s, q),
    ensures
        silences(walk_target_elements(f, list, s), walk_target_elements(g, list, q)),
    decreases list, 0nat,
{
    lemma_same_variables(f);
    lemma_kept_reports();
    if list.len() > 0 {
        agrees_target_elements(f, g, list.drop_last(), s, q);
        let s = walk_target_elements(f, list.drop_last(), s);
        let q = walk_target_elements(g, list.drop_last(), q);
        if let Some(t) = list.last() {
            agrees_maybe_default(f, g, t, s, q);
        }
    }
}

proof fn agrees_target_properties(
    f: Scene,
    g: Scene,
    list: Seq<AssignmentTargetProperty>,
    s: Flow,
    q: Flow,
)
    requires
        g == f.allowing(),
        silences(s, q),
    ensures
        silences(walk_target_properties(f, list, s), walk_target_properties(g, list, q)),
    decreases list, 0nat,
{
    lemma_same_variables(f);
    lemma_kept_reports();
    if list.len() > 0 {
        agrees_target_properties(f, g, list.drop_last(), s, q);
        let s = walk_target_properties(f, list.drop_last(), s);
        let q = walk_target_properties(g, list.drop_last(), q);
        match list.last() {
            AssignmentTargetProperty::Identifier(p) => {
                agrees_optional(
                    f,
                    g,
                    p.init,
                    read_identifier(f, p.binding, s),
                    read_identifier(g, p.binding, q),
                );
            },
            AssignmentTargetProperty::Property(p) => {
                agrees_key(f, g, p.name, s, q);
                agrees_maybe_default(
                    f,
                    g,
                    p.binding,
                    walk_key(f, p.name, s),
                    walk_key(g, p.name, q),
                );
            },
        }
    }
}

proof fn agrees_pattern(f: Scene, g: Scene, pattern: BindingPattern, s: Flow, q: Flow)
    requires
        g == f.allowing(),
        silences(s, q),
    ensures
        silences(walk_pattern(f, pattern, s), walk_pattern(g, pattern, q)),
    decreases pattern, 0nat,
{
    lemma_same_variables(f);
    lemma_kept_reports();
    match pattern {
        BindingPattern::Identifier(_) => {},
        BindingPattern::Object(p) => {
            agrees_pattern_properties(f, g, p.properties@, s, q);
            if let Some(rest) = p.rest {
                agrees_pattern(
                    f,
                    g,
                    rest,
                    walk_pattern_properties(f, p.properties@, s),
                    walk_pattern_properties(g, p.properties@, q),
                );
            }
        },
        BindingPattern::Array(p) => {
            agrees_pattern_elements(f, g, p.elements@, s, q);
            if let Some(rest) = p.rest {
                agrees_pattern(
                    f,
                    g,
                    rest,
                    walk_pattern_elements(f, p.elements@, s),
                    walk_pattern_elements(g, p.elements@, q),
                );
            }
        },
        BindingPattern::Assignment(p) => {
            agrees_pattern(f, g, p.left, s, q);
            agrees_expression(
                f,
                g,
                p.right,
                walk_pattern(f, p.left, s),
                walk_pattern(g, p.left, q),
            );
        },
    }
}

proof fn agrees_pattern_properties(f: Scene, g: Scene, list: Seq<BindingProperty>, s: Flow, q: Flow)
    requires
        g == f.allowing(),
        silences(s, q),
    ensures
        silences(walk_pattern_properties(f, list, s), walk_pattern_properties(g, list, q)),
    decreases list, 0nat,
{
    lemma_same_variables(f);
    lemma_kept_reports();
    if list.len() > 0 {
        agrees_pattern_properties(f, g, list.drop_last(), s, q);
        let s = walk_pattern_properties(f, list.drop_last(), s);
        let q = walk_pattern_properties(g, list.drop_last(), q);
        agrees_key(f, g, list.last().key, s, q);
        agrees_pattern(
            f,
            g,
            list.last().value,
            walk_key(f, list.last().key, s),
            walk_key(g, list.last().key, q),
        );
    }
}

proof fn agrees_pattern_elements(
    f: Scene,
    g: Scene,
    list: Seq<Option<BindingPattern>>,
    s: Flow,
    q: Flow,
)
    requires
        g == f.allowing(),
        silences(s, q),
    ensures
        silences(walk_pattern_elements(f, list, s), walk_pattern_elements(g, list, q)),
    decreases list, 0nat,
{
    lemma_same_variables(f);
    lemma_kept_reports();
    if list.len() > 0 {
        agrees_pattern_elements(f, g, list.drop_last(), s, q);
        let s = walk_pattern_elements(f, list.drop_last(), s);
        let q = walk_pattern_elements(g, list.drop_last(), q);
        if let Some(pattern) = list.last() {
            agrees_pattern(f, g, pattern, s, q);
        }
    }
}

proof fn agrees_class(f: Scene, g: Scene, class: Class, s: Flow, q: Flow)
    requires
        g == f.allowing(),
        silences(s, q),
    ensures
        silences(walk_class(f, class, s), walk_class(g, class, q)),
    decreases class, 0nat,
{
    lemma_same_variables(f);
    lemma_kept_reports();
    agrees_expressions(f, g, class.decorators@, s, q);
    let s1 = walk_expressions(f, class.decorators@, s);
    let q1 = walk_expressions(g, class.decorators@, q);
    agrees_optional(f, g, class.super_class, s1, q1);
    agrees_class_elements(
        f,
        g,
        class.body@,
        walk_optional(f, class.super_class, s1),
        walk_optional(g, class.super_class, q1),
    );
}

proof fn agrees_class_elements(f: Scene, g: Scene, list: Seq<ClassElement>, s: Flow, q: Flow)
    requires
        g == f.allowing(),
        silences(s, q),
    ensures
        silences(walk_class_elements(f, list, s), walk_class_elements(g, list, q)),
    decreases list, 0nat,
{
    lemma_same_variables(f);
    lemma_kept_reports();
    if list.len() > 0 {
        agrees_class_elements(f, g, list.drop_last(), s, q);
        let s = walk_class_elements(f, list.drop_last(), s);
        let q = walk_class_elements(g, list.drop_last(), q);
        match list.last() {
            ClassElement::StaticBlock(b) => agrees_statements(f, g, b.body@, s, q),
            ClassElement::MethodDefinition(m) => {
                agrees_expressions(f, g, m.decorators@, s, q);
                agrees_key(
                    f,
                    g,
                    m.key,
                    walk_expressions(f, m.decorators@, s),
                    walk_expressions(g, m.decorators@, q),
                );
            },
            ClassElement::PropertyDefinition(p) => {
                agrees_expressions(f, g, p.decorators@, s, q);
                let s1 = walk_expressions(f, p.decorators@, s);
                let q1 = walk_expressions(g, p.decorators@, q);
                agrees_key(f, g, p.key, s1, q1);
                agrees_optional(f, g, p.value, walk_key(f, p.key, s1), walk_key(g, p.key, q1));
            },
            ClassElement::AccessorProperty(p) => {
                agrees_expressions(f, g, p.decorators@, s, q);
                let s1 = walk_expressions(f, p.decorators@, s);
                let q1 = walk_expressions(g, p.decorators@, q);
                agrees_key(f, g, p.key, s1, q1);
                agrees_optional(f, g, p.value, walk_key(f, p.key, s1), walk_key(g, p.key, q1));
            },
            ClassElement::IndexSignature(_) => {},
        }
    }
}

proof fn agrees_declarators(f: Scene, g: Scene, list: Seq<VariableDeclarator>, s: Flow, q: Flow)
    requires
        g == f.allowing(),
        silences(s, q),
    ensures
        silences(walk_declarators(f, list, s), walk_declarators(g, list, q)),
    decreases list, 0nat,
{
    lemma_same_variables(f);
    lemma_kept_reports();
    if list.len() > 0 {
        agrees_declarators(f, g, list.drop_last(), s, q);
        let s = walk_declarators(f, list.drop_last(), s);
        let q = walk_declarators(g, list.drop_last(), q);
        agrees_pattern(f, g, list.last().id, s, q);
        agrees_optional(
            f,
            g,
            list.last().init,
            walk_pattern(f, list.last().id, s),
            walk_pattern(g, list.last().id, q),
        );
    }
}

proof fn agrees_declaration(f: Scene, g: Scene, declaration: Declaration, s: Flow, q: Flow)
    requires
        g == f.allowing(),
        silences(s, q),
    ensures
        silences(walk_declaration(f, declaration, s), walk_declaration(g, declaration, q)),
    decreases declaration, 0nat,
{
    lemma_same_variables(f);
    lemma_kept_reports();
    match declaration {
        Declaration::Variable(d) => agrees_declarators(f, g, d.declarations@, s, q),
        Declaration::Function(_) => {},
        Declaration::Class(c) => agrees_class(f, g, *c, s, q),
        Declaration::TypeOnly(_) => {},
    }
}

proof fn agrees_for_each(f: Scene, g: Scene, stmt: ForEachStatement, s: Flow, q: Flow)
    requires
        g == f.allowing(),
        silences(s, q),
    ensures
        silences(walk_for_each(f, stmt, s), walk_for_each(g, stmt, q)),
    decreases stmt, 0nat,
{
    lemma_same_variables(f);
    lemma_kept_reports();
    agrees_expression(f, g, stmt.right, s, q);
    let before = walk_expression(f, stmt.right, s);
    let before_q = walk_expression(g, stmt.right, q);
    match stmt.left {
        ForStatementLeft::VariableDeclaration(d) => {
            agrees_declarators(f, g, d.declarations@, before, before_q);
            agrees_statement(
                f,
                g,
                stmt.body,
                walk_declarators(f, d.declarations@, before),
                walk_declarators(g, d.declarations@, before_q),
            );
        },
        ForStatementLeft::AssignmentTarget(target) => {
            agrees_target(f, g, target, before, before_q);
            let s1 = walk_target(f, target, before);
            let q1 = walk_target(g, target, before_q);
            agrees_write_target(f, g, target, s1, q1);
            agrees_statement(
                f,
                g,
                stmt.body,
                write_target(f, target, s1),
                write_target(g, target, q1),
            );
        },
    }
}

proof fn agrees_statement(f: Scene, g: Scene, stmt: Statement, s: Flow, q: Flow)
    requires
        g == f.allowing(),
        silences(s, q),
    ensures
        silences(walk_statement(f, stmt, s), walk_statement(g, stmt, q)),
    decreases stmt, 0nat,
{
    lemma_same_variables(f);
    lemma_kept_reports();
    match stmt {
        Statement::Expression(e) => agrees_expression(f, g, e.expression, s, q),
        Statement::Declaration(d) => agrees_declaration(f, g, d, s, q),
        Statement::Import(_) | Statement::ExportAll(_) => {},
        Statement::ExportNamed(e) => {
            if let Some(d) = e.declaration {
                agrees_declaration(f, g, d, s, q);
            }
        },
        Statement::ExportDefault(e) => match e.declaration {
            ExportDefaultDeclarationKind::Expression(expr) => agrees_expression(f, g, expr, s, q),
            ExportDefaultDeclarationKind::Function(_) => {},
            ExportDefaultDeclarationKind::Class(c) => agrees_class(f, g, *c, s, q),
            ExportDefaultDeclarationKind::TypeOnly(_) => {},
        },
        Statement::Return(r) => agrees_optional(f, g, r.argument, s, q),
        Statement::Try(t) => {
            agrees_statements(f, g, t.block.body@, s, q);
            let s1 = walk_statements(f, t.block.body@, s);
            let q1 = walk_statements(g, t.block.body@, q);
            let s3 = match t.handler {
                Some(h) => {
                    let s2 = match h.param {
                        Some(p) => {
                            agrees_pattern(f, g, p, s1, q1);
                            walk_pattern(f, p, s1)
                        },
                        None => s1,
                    };
                    let q2 = match h.param {
                        Some(p) => {
                            walk_pattern(g, p, q1)
                        },
                        None => q1,
                    };
                    agrees_statements(f, g, h.body.body@, s2, q2);
                    walk_statements(f, h.body.body@, s2)
                },
                None => s1,
            };
            let q3 = match t.handler {
                Some(h) => {
                    let q2 = match h.param {
                        Some(p) => {
                            walk_pattern(g, p, q1)
                        },
                        None => q1,
                    };
                    walk_statements(g, h.body.body@, q2)
                },
                None => q1,
            };
            if let Some(b) = t.finalizer {
                agrees_statements(f, g, b.body@, s3, q3);
            }
        },
        Statement::Block(b) => agrees_statements(f, g, b.body@, s, q),
        Statement::If(i) => {
            agrees_expression(f, g, i.test, s, q);
            let before = walk_expression(f, i.test, s);
            let before_q = walk_expression(g, i.test, q);
            agrees_statement(f, g, i.consequent, before, before_q);
            let consequent = walk_statement(f, i.consequent, before);
            let consequent_q = walk_statement(g, i.consequent, before_q);
            if let Some(a) = i.alternate {
                agrees_statement(
                    f,
                    g,
                    a,
                    before.with_reports_of(consequent),
                    before_q.with_reports_of(consequent_q),
                );
            }
        },
        Statement::For(l) => {
            let s1 = match l.init {
                Some(ForStatementInit::VariableDeclaration(d)) => {
                    agrees_declarators(f, g, d.declarations@, s, q);
                    walk_declarators(f, d.declarations@, s)
                },
                Some(ForStatementInit::Expression(expr)) => {
                    agrees_expression(f, g, expr, s, q);
                    walk_expression(f, expr, s)
                },
                None => s,
            };
            let q1 = match l.init {
                Some(ForStatementInit::VariableDeclaration(d)) => {
                    walk_declarators(g, d.declarations@, q)
                },
                Some(ForStatementInit::Expression(expr)) => {
                    walk_expression(g, expr, q)
                },
                None => q,
            };
            agrees_optional(f, g, l.test, s1, q1);
            let before = walk_optional(f, l.test, s1);
            let before_q = walk_optional(g, l.test, q1);
            agrees_statement(f, g, l.body, before, before_q);
            agrees_optional(
                f,
                g,
                l.update,
                walk_statement(f, l.body, before),
                walk_statement(g, l.body, before_q),
            );
        },
        Statement::While(l) => {
            agrees_expression(f, g, l.test, s, q);
            agrees_statement(
                f,
                g,
                l.body,
                walk_expression(f, l.test, s),
                walk_expression(g, l.test, q),
            );
        },
        Statement::ForIn(l) => agrees_for_each(f, g, *l, s, q),
        Statement::ForOf(l) => agrees_for_each(f, g, *l, s, q),
        Statement::Other(o) => agrees_children(f, g, o.children@, s, q),
    }
}

proof fn agrees_statements(f: Scene, g: Scene, list: Seq<Statement>, s: Flow, q: Flow)
    requires
        g == f.allowing(),
        silences(s, q),
    ensures
        silences(walk_statements(f, list, s), walk_statements(g, list, q)),
    decreases list, 0nat,
{
    lemma_same_variables(f);
    lemma_kept_reports();
    if list.len() > 0 {
        agrees_statements(f, g, list.drop_last(), s, q);
        let s = walk_statements(f, list.drop_last(), s);
        let q = walk_statements(g, list.drop_last(), q);
        agrees_statement(f, g, list.last(), s, q);
    }
}

proof fn agrees_children(f: Scene, g: Scene, list: Seq<StatementChild>, s: Flow, q: Flow)
    requires
        g == f.allowing(),
        silences(s, q),
    ensures
        silences(walk_children(f, list, s), walk_children(g, list, q)),
    decreases list, 0nat,
{
    lemma_same_variables(f);
    lemma_kept_reports();
    if list.len() > 0 {
        agrees_children(f, g, list.drop_last(), s, q);
        let s = walk_children(f, list.drop_last(), s);
        let q = walk_children(g, list.drop_last(), q);
        match list.last() {
            StatementChild::Expression(expr) => agrees_expression(f, g, expr, s, q),
            StatementChild::Statement(stmt) => agrees_statement(f, g, stmt, s, q),
            StatementChild::BindingPattern(pattern) => agrees_pattern(f, g, pattern, s, q),
        }
    }
}

/// Leaving writes to properties alone takes away the reports on properties, and changes nothing
/// else: every report on a variable stays, and they stay in their order.
pub proof fn law_allowing_properties_silences_property_reports(scene: Scene, body: FunctionBody)
    ensures
        analysis(scene.allowing(), body) == without_properties(analysis(scene, body)),
{
    let start = Flow { reads: Reads::none(), reports: Seq::empty() };
    agrees_statements(scene, scene.allowing(), body.statements@, start, start);
}

/// The rule that leaves writes to properties alone reports on every node what the other one does,
/// without the reports on properties.
pub proof fn law_allow_properties(kind: AstKind, ctx: LintContext)
    ensures
        ({
            let allowing = RequireAtomicUpdates(ConfigElement0 { allow_properties: true });
            let strict = RequireAtomicUpdates(ConfigElement0 { allow_properties: false });
            allowing.spec_run(kind, ctx) == without_properties(strict.spec_run(kind, ctx))
        }),
{
    match kind {
        AstKind::Function(func) => {
            if let Some(body) = func.body {
                let strict = super::scene(ctx, func.scope_id, func.params, false);
                let allowing = super::scene(ctx, func.scope_id, func.params, true);
                assert(allowing == strict.allowing());
                law_allowing_properties_silences_property_reports(strict, body);
            }
        },
        AstKind::ArrowFunctionExpression(arrow) => {
            let strict = super::scene(ctx, arrow.scope_id, arrow.params, false);
            let allowing = super::scene(ctx, arrow.scope_id, arrow.params, true);
            assert(allowing == strict.allowing());
            law_allowing_properties_silences_property_reports(strict, arrow.body);
        },
        _ => {},
    }
}

} // verus!

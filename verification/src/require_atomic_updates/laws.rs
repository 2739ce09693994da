//! What holds of every walk: it only adds reports, and what it needs to add one.

use super::analysis;
use super::flow::{
    Flow, property_report, read_identifier, variable_report, walk_arguments, walk_children,
    walk_class, walk_class_elements, walk_declaration, walk_declarators, walk_expression,
    walk_expressions, walk_for_each, walk_key, walk_left_side, walk_maybe_default,
    walk_object_properties, walk_optional, walk_pattern, walk_pattern_elements,
    walk_pattern_properties, walk_statement, walk_statements, walk_target, walk_target_elements,
    walk_target_properties, write_elements, write_expression, write_properties, write_target,
};
use super::frame::Scene;
use super::state::{Reads, TrackedValue};
use crate::ast::{
    unshared, Argument, AssignmentExpression, AssignmentOperator, AssignmentTarget,
    AssignmentTargetMaybeDefault, AssignmentTargetProperty, BindingPattern, BindingProperty, Class,
    ClassElement, Declaration, ExportDefaultDeclarationKind, Expression, ForEachStatement,
    ForStatementInit, ForStatementLeft, FunctionBody, IdentifierReference, ObjectPropertyKind,
    PropertyKey, Span, Statement, StatementChild, VariableDeclarator, Wrapper,
};
use crate::lint::Report;
use crate::text::lemma_between;
use vstd::prelude::*;

verus! {

/// Nothing is outdated.
pub open spec fn settled(reads: Reads) -> bool {
    &&& forall|k: TrackedValue| !#[trigger] reads.outdated_var.contains(k)
    &&& forall|k: TrackedValue| !#[trigger] reads.outdated_prop.contains(k)
}

/// The report is one on a variable.
pub open spec fn is_variable_report(report: Report) -> bool {
    exists|span: Span, name: Seq<char>| report == #[trigger] variable_report(span, name)
}

/// The variable was read, before or after the last suspension.
pub open spec fn is_known(reads: Reads, key: TrackedValue) -> bool {
    reads.fresh_var.contains(key) || reads.outdated_var.contains(key)
}

/// A property of the variable was read, before or after the last suspension.
pub open spec fn is_known_prop(reads: Reads, key: TrackedValue) -> bool {
    reads.fresh_prop.contains(key) || reads.outdated_prop.contains(key)
}

/// What a walk from `s` to `t` keeps, where `suspends` says whether it meets a suspension.
pub open spec fn follows(f: Scene, suspends: bool, s: Flow, t: Flow) -> bool {
    &&& s.reports.len() <= t.reports.len()
    &&& forall|i: int| 0 <= i < s.reports.len() ==> #[trigger] t.reports[i] == s.reports[i]
    &&& f.allow_properties ==> forall|i: int|
        s.reports.len() <= i < t.reports.len() ==> is_variable_report(#[trigger] t.reports[i])
    &&& !suspends && settled(s.reads) ==> settled(t.reads) && t.reports == s.reports
    &&& forall|k: TrackedValue| is_known(s.reads, k) ==> #[trigger] is_known(t.reads, k)
    &&& forall|k: TrackedValue| is_known_prop(s.reads, k) ==> #[trigger] is_known_prop(t.reads, k)
}

/// What was read stays known, whatever happens next.
proof fn lemma_known()
    ensures
        forall|r: Reads, key: TrackedValue, k: TrackedValue|
            is_known(r, k) ==> #[trigger] is_known(r.mark_var_read(key), k),
        forall|r: Reads, key: TrackedValue, k: TrackedValue|
            is_known(r, k) ==> #[trigger] is_known(r.mark_prop_read(key), k),
        forall|r: Reads, k: TrackedValue| is_known(r, k) ==> #[trigger] is_known(r.outdate(), k),
        forall|r: Reads, other: Reads, k: TrackedValue|
            is_known(r, k) || is_known(other, k) ==> #[trigger] is_known(r.merge(other), k),
        forall|r: Reads, key: TrackedValue, k: TrackedValue|
            is_known_prop(r, k) ==> #[trigger] is_known_prop(r.mark_var_read(key), k),
        forall|r: Reads, key: TrackedValue, k: TrackedValue|
            is_known_prop(r, k) ==> #[trigger] is_known_prop(r.mark_prop_read(key), k),
        forall|r: Reads, k: TrackedValue|
            is_known_prop(r, k) ==> #[trigger] is_known_prop(r.outdate(), k),
        forall|r: Reads, other: Reads, k: TrackedValue|
            is_known_prop(r, k) || is_known_prop(other, k) ==> #[trigger] is_known_prop(
                r.merge(other),
                k,
            ),
{
}

/// Whether the expression has an `await` or `yield` of the function itself.
pub open spec fn suspends_expression(expr: Expression) -> bool
    decreases expr, 0nat,
{
    match expr {
        Expression::Identifier(_)
        | Expression::This(_)
        | Expression::StringLiteral(_)
        | Expression::NumericLiteral(_)
        | Expression::BooleanLiteral(_)
        | Expression::MetaProperty(_)
        | Expression::Function(_)
        | Expression::Arrow(_) => false,
        Expression::Await(_) | Expression::Yield(_) => true,
        Expression::TemplateLiteral(t) => suspends_expressions(t.expressions@),
        Expression::StaticMember(m) => suspends_expression(m.object),
        Expression::ComputedMember(m) => suspends_expression(m.object) || suspends_expression(
            m.expression,
        ),
        Expression::PrivateField(m) => suspends_expression(m.object),
        Expression::Call(c) => suspends_expression(c.callee) || suspends_arguments(c.arguments@),
        Expression::Class(c) => suspends_class(*c),
        Expression::Assignment(a) => suspends_target(a.left) || suspends_expression(a.right),
        Expression::Logical(l) => suspends_expression(l.left) || suspends_expression(l.right),
        Expression::Conditional(c) => suspends_expression(c.test) || suspends_expression(
            c.consequent,
        ) || suspends_expression(c.alternate),
        Expression::Object(o) => suspends_object_properties(o.properties@),
        Expression::Array(a) => suspends_expressions(a.elements@),
        Expression::Wrapped(w) => suspends_expression(w.expression),
        Expression::Jsx(j) => suspends_expressions(j.attributes@) || suspends_expressions(
            j.children@,
        ),
        Expression::Shared(e) => suspends_expression(*e),
        Expression::Other(o) => suspends_expressions(o.children@),
    }
}

/// Whether there is an `await` or `yield` of the function itself in the expressions.
pub open spec fn suspends_expressions(list: Seq<Expression>) -> bool
    decreases list, 0nat,
{
    list.len() > 0 && (suspends_expressions(list.drop_last()) || suspends_expression(list.last()))
}

/// Whether there is an `await` or `yield` of the function itself in the expression.
pub open spec fn suspends_optional(expr: Option<Expression>) -> bool
    decreases expr, 0nat,
{
    match expr {
        Some(expr) => suspends_expression(expr),
        None => false,
    }
}

/// Whether there is an `await` or `yield` of the function itself in the arguments.
pub open spec fn suspends_arguments(list: Seq<Argument>) -> bool
    decreases list, 0nat,
{
    list.len() > 0 && (suspends_arguments(list.drop_last()) || match list.last() {
        Argument::Spread(e) => suspends_expression(e.argument),
        Argument::Expression(expr) => suspends_expression(expr),
    })
}

/// Whether there is an `await` or `yield` of the function itself in the key.
pub open spec fn suspends_key(key: PropertyKey) -> bool
    decreases key, 0nat,
{
    match key {
        PropertyKey::Expression(key) => suspends_expression(key.expression),
        _ => false,
    }
}

/// Whether there is an `await` or `yield` of the function itself in the properties.
pub open spec fn suspends_object_properties(list: Seq<ObjectPropertyKind>) -> bool
    decreases list, 0nat,
{
    list.len() > 0 && (suspends_object_properties(list.drop_last()) || match list.last() {
        ObjectPropertyKind::ObjectProperty(p) => suspends_key(p.key) || suspends_expression(p.value),
        ObjectPropertyKind::SpreadProperty(expr) => suspends_expression(expr),
    })
}

/// Whether there is an `await` or `yield` of the function itself in the target.
pub open spec fn suspends_target(target: AssignmentTarget) -> bool
    decreases target, 0nat,
{
    match target {
        AssignmentTarget::Identifier(_) => false,
        AssignmentTarget::StaticMember(m) => suspends_expression(m.object),
        AssignmentTarget::ComputedMember(m) => suspends_expression(m.object) || suspends_expression(
            m.expression,
        ),
        AssignmentTarget::PrivateField(m) => suspends_expression(m.object),
        AssignmentTarget::Wrapped(w) => suspends_expression(w.expression),
        AssignmentTarget::Array(t) => suspends_target_elements(t.elements@) || match t.rest {
            Some(rest) => suspends_target(rest),
            None => false,
        },
        AssignmentTarget::Object(t) => suspends_target_properties(t.properties@) || match t.rest {
            Some(rest) => suspends_target(rest),
            None => false,
        },
    }
}

/// Whether there is an `await` or `yield` of the function itself in the target.
pub open spec fn suspends_maybe_default(target: AssignmentTargetMaybeDefault) -> bool
    decreases target, 0nat,
{
    suspends_target(target.binding) || suspends_optional(target.init)
}

/// Whether there is an `await` or `yield` of the function itself in the elements.
pub open spec fn suspends_target_elements(list: Seq<Option<AssignmentTargetMaybeDefault>>) -> bool
    decreases list, 0nat,
{
    list.len() > 0 && (suspends_target_elements(list.drop_last()) || match list.last() {
        Some(t) => suspends_maybe_default(t),
        None => false,
    })
}

/// Whether there is an `await` or `yield` of the function itself in the properties.
pub open spec fn suspends_target_properties(list: Seq<AssignmentTargetProperty>) -> bool
    decreases list, 0nat,
{
    list.len() > 0 && (suspends_target_properties(list.drop_last()) || match list.last() {
        AssignmentTargetProperty::Identifier(p) => suspends_optional(p.init),
        AssignmentTargetProperty::Property(p) => suspends_key(p.name) || suspends_maybe_default(
            p.binding,
        ),
    })
}

/// Whether there is an `await` or `yield` of the function itself in the pattern.
pub open spec fn suspends_pattern(pattern: BindingPattern) -> bool
    decreases pattern, 0nat,
{
    match pattern {
        BindingPattern::Identifier(_) => false,
        BindingPattern::Object(p) => suspends_pattern_properties(p.properties@) || match p.rest {
            Some(rest) => suspends_pattern(rest),
            None => false,
        },
        BindingPattern::Array(p) => suspends_pattern_elements(p.elements@) || match p.rest {
            Some(rest) => suspends_pattern(rest),
            None => false,
        },
        BindingPattern::Assignment(p) => suspends_pattern(p.left) || suspends_expression(p.right),
    }
}

/// Whether there is an `await` or `yield` of the function itself in the properties.
pub open spec fn suspends_pattern_properties(list: Seq<BindingProperty>) -> bool
    decreases list, 0nat,
{
    list.len() > 0 && (suspends_pattern_properties(list.drop_last()) || suspends_key(list.last().key) || suspends_pattern(
        list.last().value,
    ))
}

/// Whether there is an `await` or `yield` of the function itself in the elements.
pub open spec fn suspends_pattern_elements(list: Seq<Option<BindingPattern>>) -> bool
    decreases list, 0nat,
{
    list.len() > 0 && (suspends_pattern_elements(list.drop_last()) || match list.last() {
        Some(pattern) => suspends_pattern(pattern),
        None => false,
    })
}

/// Whether there is an `await` or `yield` of the function itself in the class.
pub open spec fn suspends_class(class: Class) -> bool
    decreases class, 0nat,
{
    suspends_expressions(class.decorators@) || suspends_optional(class.super_class)
        || suspends_class_elements(class.body@)
}

/// Whether there is an `await` or `yield` of the function itself in the members.
pub open spec fn suspends_class_elements(list: Seq<ClassElement>) -> bool
    decreases list, 0nat,
{
    list.len() > 0 && (suspends_class_elements(list.drop_last()) || match list.last() {
        ClassElement::StaticBlock(b) => suspends_statements(b.body@),
        ClassElement::MethodDefinition(m) => suspends_expressions(m.decorators@) || suspends_key(
            m.key,
        ),
        ClassElement::PropertyDefinition(p) => suspends_expressions(p.decorators@) || suspends_key(
            p.key,
        ) || suspends_optional(p.value),
        ClassElement::AccessorProperty(p) => suspends_expressions(p.decorators@) || suspends_key(
            p.key,
        ) || suspends_optional(p.value),
        ClassElement::IndexSignature(_) => false,
    })
}

/// Whether there is an `await` or `yield` of the function itself in the declarators.
pub open spec fn suspends_declarators(list: Seq<VariableDeclarator>) -> bool
    decreases list, 0nat,
{
    list.len() > 0 && (suspends_declarators(list.drop_last()) || suspends_pattern(list.last().id) || suspends_optional(
        list.last().init,
    ))
}

/// Whether there is an `await` or `yield` of the function itself in the declaration.
pub open spec fn suspends_declaration(declaration: Declaration) -> bool
    decreases declaration, 0nat,
{
    match declaration {
        Declaration::Variable(d) => suspends_declarators(d.declarations@),
        Declaration::Function(_) => false,
        Declaration::Class(c) => suspends_class(*c),
        Declaration::TypeOnly(_) => false,
    }
}

/// Whether there is an `await` or `yield` of the function itself in the loop.
pub open spec fn suspends_for_each(stmt: ForEachStatement) -> bool
    decreases stmt, 0nat,
{
    suspends_expression(stmt.right) || suspends_statement(stmt.body) || match stmt.left {
        ForStatementLeft::VariableDeclaration(d) => suspends_declarators(d.declarations@),
        ForStatementLeft::AssignmentTarget(target) => suspends_target(target),
    }
}

/// Whether there is an `await` or `yield` of the function itself in the statement.
pub open spec fn suspends_statement(stmt: Statement) -> bool
    decreases stmt, 0nat,
{
    match stmt {
        Statement::Expression(e) => suspends_expression(e.expression),
        Statement::Declaration(d) => suspends_declaration(d),
        Statement::Import(_) | Statement::ExportAll(_) => false,
        Statement::ExportNamed(e) => match e.declaration {
            Some(d) => suspends_declaration(d),
            None => false,
        },
        Statement::ExportDefault(e) => match e.declaration {
            ExportDefaultDeclarationKind::Expression(expr) => suspends_expression(expr),
            ExportDefaultDeclarationKind::Function(_) => false,
            ExportDefaultDeclarationKind::Class(c) => suspends_class(*c),
            ExportDefaultDeclarationKind::TypeOnly(_) => false,
        },
        Statement::Return(r) => suspends_optional(r.argument),
        Statement::Try(t) => {
            ||| suspends_statements(t.block.body@)
            ||| match t.handler {
                Some(h) => suspends_statements(h.body.body@) || match h.param {
                    Some(p) => suspends_pattern(p),
                    None => false,
                },
                None => false,
            }
            ||| match t.finalizer {
                Some(b) => suspends_statements(b.body@),
                None => false,
            }
        },
        Statement::Block(b) => suspends_statements(b.body@),
        Statement::If(i) => suspends_expression(i.test) || suspends_statement(i.consequent)
            || match i.alternate {
            Some(a) => suspends_statement(a),
            None => false,
        },
        Statement::For(l) => suspends_optional(l.test) || suspends_optional(l.update)
            || suspends_statement(l.body) || match l.init {
            Some(ForStatementInit::VariableDeclaration(d)) => suspends_declarators(d.declarations@),
            Some(ForStatementInit::Expression(expr)) => suspends_expression(expr),
            None => false,
        },
        Statement::While(l) => suspends_expression(l.test) || suspends_statement(l.body),
        Statement::ForIn(l) => suspends_for_each(*l),
        Statement::ForOf(l) => suspends_for_each(*l),
        Statement::Other(o) => suspends_children(o.children@),
    }
}

/// Whether there is an `await` or `yield` of the function itself in the statements.
pub open spec fn suspends_statements(list: Seq<Statement>) -> bool
    decreases list, 0nat,
{
    list.len() > 0 && (suspends_statements(list.drop_last()) || suspends_statement(list.last()))
}

/// Whether there is an `await` or `yield` of the function itself in the parts.
pub open spec fn suspends_children(list: Seq<StatementChild>) -> bool
    decreases list, 0nat,
{
    list.len() > 0 && (suspends_children(list.drop_last()) || match list.last() {
        StatementChild::Expression(expr) => suspends_expression(expr),
        StatementChild::Statement(stmt) => suspends_statement(stmt),
        StatementChild::BindingPattern(pattern) => suspends_pattern(pattern),
    })
}

proof fn follows_write_expression(f: Scene, expr: Expression, s: Flow)
    ensures
        follows(f, false, s, write_expression(f, expr, s)),
    decreases expr,
{
    match expr {
        Expression::Wrapped(w) if w.wrapper != Wrapper::TSInstantiation => follows_write_expression(
            f,
            w.expression,
            s,
        ),
        _ => {},
    }
}

proof fn follows_write_target(f: Scene, target: AssignmentTarget, s: Flow)
    ensures
        follows(f, false, s, write_target(f, target, s)),
    decreases target,
{
    match target {
        AssignmentTarget::Wrapped(w) => follows_write_expression(f, w.expression, s),
        AssignmentTarget::Array(t) => {
            follows_write_elements(f, t.elements@, s);
            if let Some(rest) = t.rest {
                follows_write_target(f, rest, write_elements(f, t.elements@, s));
            }
        },
        AssignmentTarget::Object(t) => {
            follows_write_properties(f, t.properties@, s);
            if let Some(rest) = t.rest {
                follows_write_target(f, rest, write_properties(f, t.properties@, s));
            }
        },
        _ => {},
    }
}

proof fn follows_write_elements(f: Scene, list: Seq<Option<AssignmentTargetMaybeDefault>>, s: Flow)
    ensures
        follows(f, false, s, write_elements(f, list, s)),
    decreases list,
{
    if list.len() > 0 {
        follows_write_elements(f, list.drop_last(), s);
        let s = write_elements(f, list.drop_last(), s);
        if let Some(t) = list.last() {
            follows_write_target(f, t.binding, s);
        }
    }
}

proof fn follows_write_properties(f: Scene, list: Seq<AssignmentTargetProperty>, s: Flow)
    ensures
        follows(f, false, s, write_properties(f, list, s)),
    decreases list,
{
    if list.len() > 0 {
        follows_write_properties(f, list.drop_last(), s);
        let s = write_properties(f, list.drop_last(), s);
        if let AssignmentTargetProperty::Property(p) = list.last() {
            follows_write_target(f, p.binding.binding, s);
        }
    }
}

proof fn follows_expression(f: Scene, expr: Expression, s: Flow)
    ensures
        follows(f, suspends_expression(expr), s, walk_expression(f, expr, s)),
    decreases expr, 0nat,
{
    lemma_known();
    match expr {
        Expression::TemplateLiteral(t) => follows_expressions(f, t.expressions@, s),
        Expression::StaticMember(m) => follows_expression(f, m.object, s),
        Expression::ComputedMember(m) => {
            follows_expression(f, m.object, s);
            follows_expression(f, m.expression, walk_expression(f, m.object, s));
        },
        Expression::PrivateField(m) => follows_expression(f, m.object, s),
        Expression::Call(c) => {
            follows_expression(f, c.callee, s);
            follows_arguments(f, c.arguments@, walk_expression(f, c.callee, s));
        },
        Expression::Class(c) => follows_class(f, *c, s),
        Expression::Assignment(a) => {
            let is_compound = a.operator != AssignmentOperator::Assign;
            follows_left_side(f, a.left, is_compound, s);
            let s1 = walk_left_side(f, a.left, is_compound, s);
            follows_expression(f, a.right, s1);
            follows_write_target(f, a.left, walk_expression(f, a.right, s1));
        },
        Expression::Logical(l) => {
            follows_expression(f, l.left, s);
            follows_expression(f, l.right, walk_expression(f, l.left, s));
        },
        Expression::Conditional(c) => {
            follows_expression(f, c.test, s);
            let before = walk_expression(f, c.test, s);
            follows_expression(f, c.consequent, before);
            let consequent = walk_expression(f, c.consequent, before);
            follows_expression(f, c.alternate, before.with_reports_of(consequent));
        },
        Expression::Await(a) => follows_expression(f, a.argument, s),
        Expression::Yield(y) => {
            if let Some(argument) = y.argument {
                follows_expression(f, argument, s);
            }
        },
        Expression::Object(o) => follows_object_properties(f, o.properties@, s),
        Expression::Array(a) => follows_expressions(f, a.elements@, s),
        Expression::Wrapped(w) => follows_expression(f, w.expression, s),
        Expression::Jsx(j) => {
            let s1 = match j.name {
                Some(name) => read_identifier(f, name, s),
                None => s,
            };
            follows_expressions(f, j.attributes@, s1);
            follows_expressions(f, j.children@, walk_expressions(f, j.attributes@, s1));
        },
        Expression::Shared(e) => follows_expression(f, unshared(e), s),
        Expression::Other(o) => follows_expressions(f, o.children@, s),
        _ => {},
    }
}

proof fn follows_expressions(f: Scene, list: Seq<Expression>, s: Flow)
    ensures
        follows(f, suspends_expressions(list), s, walk_expressions(f, list, s)),
    decreases list, 0nat,
{
    if list.len() > 0 {
        follows_expressions(f, list.drop_last(), s);
        let s = walk_expressions(f, list.drop_last(), s);
        follows_expression(f, list.last(), s);
    }
}

proof fn follows_optional(f: Scene, expr: Option<Expression>, s: Flow)
    ensures
        follows(f, suspends_optional(expr), s, walk_optional(f, expr, s)),
    decreases expr, 0nat,
{
    if let Some(expr) = expr {
        follows_expression(f, expr, s);
    }
}

proof fn follows_arguments(f: Scene, list: Seq<Argument>, s: Flow)
    ensures
        follows(f, suspends_arguments(list), s, walk_arguments(f, list, s)),
    decreases list, 0nat,
{
    if list.len() > 0 {
        follows_arguments(f, list.drop_last(), s);
        let s = walk_arguments(f, list.drop_last(), s);
        match list.last() {
            Argument::Spread(e) => follows_expression(f, e.argument, s),
            Argument::Expression(expr) => follows_expression(f, expr, s),
        }
    }
}

proof fn follows_key(f: Scene, key: PropertyKey, s: Flow)
    ensures
        follows(f, suspends_key(key), s, walk_key(f, key, s)),
    decreases key, 0nat,
{
    if let PropertyKey::Expression(key) = key {
        follows_expression(f, key.expression, s);
    }
}

proof fn follows_object_properties(f: Scene, list: Seq<ObjectPropertyKind>, s: Flow)
    ensures
        follows(f, suspends_object_properties(list), s, walk_object_properties(f, list, s)),
    decreases list, 0nat,
{
    if list.len() > 0 {
        follows_object_properties(f, list.drop_last(), s);
        let s = walk_object_properties(f, list.drop_last(), s);
        match list.last() {
            ObjectPropertyKind::ObjectProperty(p) => {
                follows_key(f, p.key, s);
                follows_expression(f, p.value, walk_key(f, p.key, s));
            },
            ObjectPropertyKind::SpreadProperty(expr) => follows_expression(f, expr, s),
        }
    }
}

proof fn follows_left_side(f: Scene, target: AssignmentTarget, is_compound: bool, s: Flow)
    ensures
        follows(f, suspends_target(target), s, walk_left_side(f, target, is_compound, s)),
    decreases target, 1nat,
{
    lemma_known();
    match target {
        AssignmentTarget::Identifier(_) => {},
        AssignmentTarget::ComputedMember(m) => {
            follows_expression(f, m.object, s);
            follows_expression(f, m.expression, walk_expression(f, m.object, s));
        },
        AssignmentTarget::StaticMember(m) => follows_expression(f, m.object, s),
        AssignmentTarget::PrivateField(m) => follows_expression(f, m.object, s),
        _ => follows_target(f, target, s),
    }
}

proof fn follows_target(f: Scene, target: AssignmentTarget, s: Flow)
    ensures
        follows(f, suspends_target(target), s, walk_target(f, target, s)),
    decreases target, 0nat,
{
    lemma_known();
    match target {
        AssignmentTarget::Identifier(_) => {},
        AssignmentTarget::ComputedMember(m) => {
            follows_expression(f, m.object, s);
            follows_expression(f, m.expression, walk_expression(f, m.object, s));
        },
        AssignmentTarget::StaticMember(m) => follows_expression(f, m.object, s),
        AssignmentTarget::PrivateField(m) => follows_expression(f, m.object, s),
        AssignmentTarget::Wrapped(w) => follows_expression(f, w.expression, s),
        AssignmentTarget::Array(t) => {
            follows_target_elements(f, t.elements@, s);
            if let Some(rest) = t.rest {
                follows_target(f, rest, walk_target_elements(f, t.elements@, s));
            }
        },
        AssignmentTarget::Object(t) => {
            follows_target_properties(f, t.properties@, s);
            if let Some(rest) = t.rest {
                follows_target(f, rest, walk_target_properties(f, t.properties@, s));
            }
        },
    }
}

proof fn follows_maybe_default(f: Scene, target: AssignmentTargetMaybeDefault, s: Flow)
    ensures
        follows(f, suspends_maybe_default(target), s, walk_maybe_default(f, target, s)),
    decreases target, 0nat,
{
    follows_target(f, target.binding, s);
    follows_optional(f, target.init, walk_target(f, target.binding, s));
}

proof fn follows_target_elements(f: Scene, list: Seq<Option<AssignmentTargetMaybeDefault>>, s: Flow)
    ensures
        follows(f, suspends_target_elements(list), s, walk_target_elements(f, list, s)),
    decreases list, 0nat,
{
    if list.len() > 0 {
        follows_target_elements(f, list.drop_last(), s);
        let s = walk_target_elements(f, list.drop_last(), s);
        if let Some(t) = list.last() {
            follows_maybe_default(f, t, s);
        }
    }
}

proof fn follows_target_properties(f: Scene, list: Seq<AssignmentTargetProperty>, s: Flow)
    ensures
        follows(f, suspends_target_properties(list), s, walk_target_properties(f, list, s)),
    decreases list, 0nat,
{
    lemma_known();
    if list.len() > 0 {
        follows_target_properties(f, list.drop_last(), s);
        let s = walk_target_properties(f, list.drop_last(), s);
        match list.last() {
            AssignmentTargetProperty::Identifier(p) => {
                follows_optional(f, p.init, read_identifier(f, p.binding, s));
            },
            AssignmentTargetProperty::Property(p) => {
                follows_key(f, p.name, s);
                follows_maybe_default(f, p.binding, walk_key(f, p.name, s));
            },
        }
    }
}

proof fn follows_pattern(f: Scene, pattern: BindingPattern, s: Flow)
    ensures
        follows(f, suspends_pattern(pattern), s, walk_pattern(f, pattern, s)),
    decreases pattern, 0nat,
{
    match pattern {
        BindingPattern::Identifier(_) => {},
        BindingPattern::Object(p) => {
            follows_pattern_properties(f, p.properties@, s);
            if let Some(rest) = p.rest {
                follows_pattern(f, rest, walk_pattern_properties(f, p.properties@, s));
            }
        },
        BindingPattern::Array(p) => {
            follows_pattern_elements(f, p.elements@, s);
            if let Some(rest) = p.rest {
                follows_pattern(f, rest, walk_pattern_elements(f, p.elements@, s));
            }
        },
        BindingPattern::Assignment(p) => {
            follows_pattern(f, p.left, s);
            follows_expression(f, p.right, walk_pattern(f, p.left, s));
        },
    }
}

proof fn follows_pattern_properties(f: Scene, list: Seq<BindingProperty>, s: Flow)
    ensures
        follows(f, suspends_pattern_properties(list), s, walk_pattern_properties(f, list, s)),
    decreases list, 0nat,
{
    if list.len() > 0 {
        follows_pattern_properties(f, list.drop_last(), s);
        let s = walk_pattern_properties(f, list.drop_last(), s);
        follows_key(f, list.last().key, s);
        follows_pattern(f, list.last().value, walk_key(f, list.last().key, s));
    }
}

proof fn follows_pattern_elements(f: Scene, list: Seq<Option<BindingPattern>>, s: Flow)
    ensures
        follows(f, suspends_pattern_elements(list), s, walk_pattern_elements(f, list, s)),
    decreases list, 0nat,
{
    if list.len() > 0 {
        follows_pattern_elements(f, list.drop_last(), s);
        let s = walk_pattern_elements(f, list.drop_last(), s);
        if let Some(pattern) = list.last() {
            follows_pattern(f, pattern, s);
        }
    }
}

proof fn follows_class(f: Scene, class: Class, s: Flow)
    ensures
        follows(f, suspends_class(class), s, walk_class(f, class, s)),
    decreases class, 0nat,
{
    follows_expressions(f, class.decorators@, s);
    let s1 = walk_expressions(f, class.decorators@, s);
    follows_optional(f, class.super_class, s1);
    follows_class_elements(f, class.body@, walk_optional(f, class.super_class, s1));
}

proof fn follows_class_elements(f: Scene, list: Seq<ClassElement>, s: Flow)
    ensures
        follows(f, suspends_class_elements(list), s, walk_class_elements(f, list, s)),
    decreases list, 0nat,
{
    if list.len() > 0 {
        follows_class_elements(f, list.drop_last(), s);
        let s = walk_class_elements(f, list.drop_last(), s);
        match list.last() {
            ClassElement::StaticBlock(b) => follows_statements(f, b.body@, s),
            ClassElement::MethodDefinition(m) => {
                follows_expressions(f, m.decorators@, s);
                follows_key(f, m.key, walk_expressions(f, m.decorators@, s));
            },
            ClassElement::PropertyDefinition(p) => {
                follows_expressions(f, p.decorators@, s);
                let s1 = walk_expressions(f, p.decorators@, s);
                follows_key(f, p.key, s1);
                follows_optional(f, p.value, walk_key(f, p.key, s1));
            },
            ClassElement::AccessorProperty(p) => {
                follows_expressions(f, p.decorators@, s);
                let s1 = walk_expressions(f, p.decorators@, s);
                follows_key(f, p.key, s1);
                follows_optional(f, p.value, walk_key(f, p.key, s1));
            },
            ClassElement::IndexSignature(_) => {},
        }
    }
}

proof fn follows_declarators(f: Scene, list: Seq<VariableDeclarator>, s: Flow)
    ensures
        follows(f, suspends_declarators(list), s, walk_declarators(f, list, s)),
    decreases list, 0nat,
{
    if list.len() > 0 {
        follows_declarators(f, list.drop_last(), s);
        let s = walk_declarators(f, list.drop_last(), s);
        follows_pattern(f, list.last().id, s);
        follows_optional(f, list.last().init, walk_pattern(f, list.last().id, s));
    }
}

proof fn follows_declaration(f: Scene, declaration: Declaration, s: Flow)
    ensures
        follows(f, suspends_declaration(declaration), s, walk_declaration(f, declaration, s)),
    decreases declaration, 0nat,
{
    match declaration {
        Declaration::Variable(d) => follows_declarators(f, d.declarations@, s),
        Declaration::Function(_) => {},
        Declaration::Class(c) => follows_class(f, *c, s),
        Declaration::TypeOnly(_) => {},
    }
}

proof fn follows_for_each(f: Scene, stmt: ForEachStatement, s: Flow)
    ensures
        follows(f, suspends_for_each(stmt), s, walk_for_each(f, stmt, s)),
    decreases stmt, 0nat,
{
    lemma_known();
    follows_expression(f, stmt.right, s);
    let before = walk_expression(f, stmt.right, s);
    match stmt.left {
        ForStatementLeft::VariableDeclaration(d) => {
            follows_declarators(f, d.declarations@, before);
            follows_statement(f, stmt.body, walk_declarators(f, d.declarations@, before));
        },
        ForStatementLeft::AssignmentTarget(target) => {
            follows_target(f, target, before);
            let s1 = walk_target(f, target, before);
            follows_write_target(f, target, s1);
            follows_statement(f, stmt.body, write_target(f, target, s1));
        },
    }
}

proof fn follows_statement(f: Scene, stmt: Statement, s: Flow)
    ensures
        follows(f, suspends_statement(stmt), s, walk_statement(f, stmt, s)),
    decreases stmt, 0nat,
{
    lemma_known();
    match stmt {
        Statement::Expression(e) => follows_expression(f, e.expression, s),
        Statement::Declaration(d) => follows_declaration(f, d, s),
        Statement::Import(_) | Statement::ExportAll(_) => {},
        Statement::ExportNamed(e) => {
            if let Some(d) = e.declaration {
                follows_declaration(f, d, s);
            }
        },
        Statement::ExportDefault(e) => match e.declaration {
            ExportDefaultDeclarationKind::Expression(expr) => follows_expression(f, expr, s),
            ExportDefaultDeclarationKind::Function(_) => {},
            ExportDefaultDeclarationKind::Class(c) => follows_class(f, *c, s),
            ExportDefaultDeclarationKind::TypeOnly(_) => {},
        },
        Statement::Return(r) => follows_optional(f, r.argument, s),
        Statement::Try(t) => {
            follows_statements(f, t.block.body@, s);
            let s1 = walk_statements(f, t.block.body@, s);
            let s3 = match t.handler {
                Some(h) => {
                    let s2 = match h.param {
                        Some(p) => {
                            follows_pattern(f, p, s1);
                            walk_pattern(f, p, s1)
                        },
                        None => s1,
                    };
                    follows_statements(f, h.body.body@, s2);
                    walk_statements(f, h.body.body@, s2)
                },
                None => s1,
            };
            if let Some(b) = t.finalizer {
                follows_statements(f, b.body@, s3);
            }
        },
        Statement::Block(b) => follows_statements(f, b.body@, s),
        Statement::If(i) => {
            follows_expression(f, i.test, s);
            let before = walk_expression(f, i.test, s);
            follows_statement(f, i.consequent, before);
            let consequent = walk_statement(f, i.consequent, before);
            if let Some(a) = i.alternate {
                follows_statement(f, a, before.with_reports_of(consequent));
            }
        },
        Statement::For(l) => {
            let s1 = match l.init {
                Some(ForStatementInit::VariableDeclaration(d)) => {
                    follows_declarators(f, d.declarations@, s);
                    walk_declarators(f, d.declarations@, s)
                },
                Some(ForStatementInit::Expression(expr)) => {
                    follows_expression(f, expr, s);
                    walk_expression(f, expr, s)
                },
                None => s,
            };
            follows_optional(f, l.test, s1);
            let before = walk_optional(f, l.test, s1);
            follows_statement(f, l.body, before);
            follows_optional(f, l.update, walk_statement(f, l.body, before));
        },
        Statement::While(l) => {
            follows_expression(f, l.test, s);
            follows_statement(f, l.body, walk_expression(f, l.test, s));
        },
        Statement::ForIn(l) => follows_for_each(f, *l, s),
        Statement::ForOf(l) => follows_for_each(f, *l, s),
        Statement::Other(o) => follows_children(f, o.children@, s),
    }
}

proof fn follows_statements(f: Scene, list: Seq<Statement>, s: Flow)
    ensures
        follows(f, suspends_statements(list), s, walk_statements(f, list, s)),
    decreases list, 0nat,
{
    if list.len() > 0 {
        follows_statements(f, list.drop_last(), s);
        let s = walk_statements(f, list.drop_last(), s);
        follows_statement(f, list.last(), s);
    }
}

proof fn follows_children(f: Scene, list: Seq<StatementChild>, s: Flow)
    ensures
        follows(f, suspends_children(list), s, walk_children(f, list, s)),
    decreases list, 0nat,
{
    if list.len() > 0 {
        follows_children(f, list.drop_last(), s);
        let s = walk_children(f, list.drop_last(), s);
        match list.last() {
            StatementChild::Expression(expr) => follows_expression(f, expr, s),
            StatementChild::Statement(stmt) => follows_statement(f, stmt, s),
            StatementChild::BindingPattern(pattern) => follows_pattern(f, pattern, s),
        }
    }
}

/// A function that has no `await` and no `yield` of its own gets no report.
pub proof fn law_no_suspension_no_report(scene: Scene, body: FunctionBody)
    requires
        !suspends_statements(body.statements@),
    ensures
        analysis(scene, body).len() == 0,
{
    follows_statements(
        scene,
        body.statements@,
        Flow { reads: Reads::none(), reports: Seq::empty() },
    );
}

/// Where writes to properties are left alone, every report is on a variable.
pub proof fn law_allowed_properties_are_not_reported(scene: Scene, body: FunctionBody)
    requires
        scene.allow_properties,
    ensures
        forall|i: int|
            0 <= i < analysis(scene, body).len() ==> is_variable_report(
                #[trigger] analysis(scene, body)[i],
            ),
{
    follows_statements(
        scene,
        body.statements@,
        Flow { reads: Reads::none(), reports: Seq::empty() },
    );
}

/// The reports on the first statements of a function come first among those on all of them.
pub proof fn law_reports_accumulate(
    scene: Scene,
    first: Seq<Statement>,
    rest: Seq<Statement>,
    start: Flow,
)
    ensures
        walk_statements(scene, first, start).reports.is_prefix_of(
            walk_statements(scene, first + rest, start).reports,
        ),
    decreases rest.len(),
{
    if rest.len() == 0 {
        assert(first + rest =~= first);
    } else {
        law_reports_accumulate(scene, first, rest.drop_last(), start);
        let all = first + rest;
        assert(all.drop_last() =~= first + rest.drop_last());
        follows_statement(scene, all.last(), walk_statements(scene, all.drop_last(), start));
        let a = walk_statements(scene, first, start).reports;
        let b = walk_statements(scene, all.drop_last(), start).reports;
        let c = walk_statements(scene, all, start).reports;
        assert(a =~= c.take(a.len() as int)) by {
            assert forall|i: int| 0 <= i < a.len() implies a[i] == c[i] by {
                assert(b.take(a.len() as int)[i] == b[i]);
            }
        }
    }
}

/// A variable that is read, and written after a suspension, is reported: `x += await e`, whatever
/// `e` is, where other code can write `x` while the function is suspended.
pub proof fn law_update_across_a_suspension_is_reported(
    scene: Scene,
    assignment: AssignmentExpression,
    start: Flow,
)
    requires
        assignment.operator != AssignmentOperator::Assign,
        assignment.right is Await || assignment.right is Yield,
        assignment.left matches AssignmentTarget::Identifier(ident) && ident.is_read && (
        scene.spec_reference_key(ident) matches Some(key) && scene.spec_tracked_for_var(key)),
    ensures
        ({
            let ident = assignment.left->Identifier_0;
            let end = walk_expression(scene, Expression::Assignment(Box::new(assignment)), start);
            &&& end.reports.len() > start.reports.len()
            &&& end.reports.last() == variable_report(ident.span, ident.name@)
        }),
{
    let ident = assignment.left->Identifier_0;
    let key = scene.spec_reference_key(ident)->0;
    let read = walk_left_side(scene, assignment.left, true, start);
    assert(is_known(read.reads, key));
    let after = walk_expression(scene, assignment.right, read);
    follows_expression(scene, assignment.right, read);
    assert(is_known(after.reads, key));
    match assignment.right {
        Expression::Await(a) => {
            follows_expression(scene, a.argument, read);
            let argued = walk_expression(scene, a.argument, read);
            assert(is_known(argued.reads, key));
            assert(after == argued.outdate());
        },
        Expression::Yield(y) => {
            follows_optional(scene, y.argument, read);
            let argued = walk_optional(scene, y.argument, read);
            assert(is_known(argued.reads, key));
            assert(after == argued.outdate());
        },
        _ => {},
    }
    assert(after.reads.outdated_var.contains(key));
}

/// A variable that was never read, or only since the last suspension, is written without a report.
pub proof fn law_current_variables_may_be_written(
    scene: Scene,
    ident: IdentifierReference,
    flow: Flow,
)
    requires
        scene.spec_reference_key(ident) matches Some(key) ==> !flow.reads.outdated_var.contains(key),
    ensures
        write_target(scene, AssignmentTarget::Identifier(ident), flow) == flow,
{
}

/// A suspension right after another changes nothing.
pub proof fn law_outdate_twice(reads: Reads)
    ensures
        reads.outdate().outdate() == reads.outdate(),
{
    assert(reads.outdate().outdate() =~= reads.outdate());
}

/// A variable that is read again after a suspension can be written; one that was read only before
/// it cannot.
pub proof fn law_read_again(reads: Reads, key: TrackedValue)
    ensures
        reads.mark_var_read(key).outdate().outdated_var.contains(key),
        !reads.mark_var_read(key).outdate().mark_var_read(key).outdated_var.contains(key),
        reads.mark_prop_read(key).outdate().outdated_prop.contains(key),
        !reads.mark_prop_read(key).outdate().mark_prop_read(key).outdated_prop.contains(key),
{
}

/// It does not matter which of two ways through the program comes first.
pub proof fn law_merge_commutes(a: Reads, b: Reads)
    ensures
        a.merge(b) == b.merge(a),
        a.merge(a) == a,
{
    assert(a.merge(b) =~= b.merge(a));
    assert(a.merge(a) =~= a);
}

/// A report stands where the write does and names what is written: two are the same only where
/// both are, and one on a variable is none on a property.
pub proof fn law_reports_name_what_is_written(
    span: Span,
    name: Seq<char>,
    other_span: Span,
    other: Seq<char>,
)
    ensures
        variable_report(span, name) == variable_report(other_span, other) <==> span == other_span
            && name == other,
        property_report(span, name) == property_report(other_span, other) <==> span == other_span
            && name == other,
        variable_report(span, name) != property_report(other_span, other),
        variable_report(span, name).span == span,
        property_report(span, name).span == span,
{
    let start = "Possible race condition: `"@;
    let end = "` might be reassigned based on an outdated value"@;
    let property_end = "` might be assigned based on an outdated state"@;
    if variable_report(span, name) == variable_report(other_span, other) {
        lemma_between(start, name, other, end);
    }
    if property_report(span, name) == property_report(other_span, other) {
        lemma_between(start, name, other, property_end);
    }
    let a = "Avoid reading the variable before an `await`/`yield` and writing to it afterwards.";
    let b = "Avoid reading a property and writing to it across an `await`/`yield`.";
    assert(a@ != b@) by {
        reveal_strlit(
            "Avoid reading the variable before an `await`/`yield` and writing to it afterwards.",
        );
        reveal_strlit("Avoid reading a property and writing to it across an `await`/`yield`.");
        assert(a@[14] == 't');
        assert(b@[14] == 'a');
    }
}

} // verus!

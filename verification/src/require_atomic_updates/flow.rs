//! What the analysis finds: the reads and the reports after each form, given those before it.
//!
//! A walk goes through a function in the order of evaluation. It leaves out the functions
//! inside.

use super::frame::Scene;
use super::state::{Reads, TrackedValue};
use crate::ast::{
    Argument, AssignmentOperator, AssignmentTarget, AssignmentTargetMaybeDefault,
    AssignmentTargetProperty, BindingPattern, BindingProperty, Class, ClassElement, Declaration,
    ExportDefaultDeclarationKind, Expression, ForEachStatement, ForStatementInit, ForStatementLeft,
    Function, IdentifierReference, ObjectPropertyKind, PropertyKey, Span, Statement, StatementChild,
    VariableDeclarator, Wrapper,
};
use crate::lint::Report;
use vstd::prelude::*;

verus! {

/// The reads so far, and the reports so far.
pub ghost struct Flow {
    pub reads: Reads,
    pub reports: Seq<Report>,
}

/// The report on a write to a variable.
pub open spec fn variable_report(span: Span, name: Seq<char>) -> Report {
    Report {
        message: "Possible race condition: `"@ + name
            + "` might be reassigned based on an outdated value"@,
        help: Some(
            "Avoid reading the variable before an `await`/`yield` and writing to it afterwards."@,
        ),
        span,
    }
}

/// The report on a write to a property.
pub open spec fn property_report(span: Span, name: Seq<char>) -> Report {
    Report {
        message: "Possible race condition: `"@ + name
            + "` might be assigned based on an outdated state"@,
        help: Some("Avoid reading a property and writing to it across an `await`/`yield`."@),
        span,
    }
}

impl Flow {
    pub open spec fn outdate(self) -> Flow {
        Flow { reads: self.reads.outdate(), ..self }
    }

    /// The reads of this or the other; the reports are this one's.
    pub open spec fn merge(self, other: Flow) -> Flow {
        Flow { reads: self.reads.merge(other.reads), ..self }
    }

    /// These reads, with the reports of `other`.
    pub open spec fn with_reports_of(self, other: Flow) -> Flow {
        Flow { reports: other.reports, ..self }
    }

    pub open spec fn report(self, report: Report) -> Flow {
        Flow { reports: self.reports.push(report), ..self }
    }
}

/// A use of an identifier.
pub open spec fn read_identifier(f: Scene, ident: IdentifierReference, s: Flow) -> Flow {
    match f.spec_reference_key(ident) {
        Some(key) if ident.is_read && f.spec_tracked_for_var(key) => Flow {
            reads: s.reads.mark_var_read(key),
            ..s
        },
        _ => s,
    }
}

/// A use of a property of `object`.
pub open spec fn read_property(f: Scene, object: Expression, s: Flow) -> Flow {
    match f.spec_deepest_object_key(object) {
        Some(key) if f.spec_tracked_for_prop(key) => Flow {
            reads: s.reads.mark_prop_read(key),
            ..s
        },
        _ => s,
    }
}

/// A write to a variable.
pub open spec fn write_identifier(f: Scene, ident: IdentifierReference, s: Flow) -> Flow {
    match f.spec_reference_key(ident) {
        Some(key) if f.spec_tracked_for_var(key) && s.reads.outdated_var.contains(key) => s.report(
            variable_report(ident.span, ident.name@),
        ),
        _ => s,
    }
}

/// A write to a property of the variable `key`.
pub open spec fn write_property(f: Scene, key: Option<TrackedValue>, span: Span, s: Flow) -> Flow {
    match key {
        Some(key) if f.spec_tracked_for_prop(key) && s.reads.outdated_prop.contains(key) =>
            s.report(property_report(span, f.spec_key_name(key))),
        _ => s,
    }
}

/// A write to an expression.
pub open spec fn write_expression(f: Scene, expr: Expression, s: Flow) -> Flow
    decreases expr,
{
    match expr {
        Expression::Identifier(ident) => write_identifier(f, ident, s),
        Expression::StaticMember(m) => write_property(
            f,
            f.spec_deepest_object_key(expr),
            m.span,
            s,
        ),
        Expression::ComputedMember(m) => write_property(
            f,
            f.spec_deepest_object_key(expr),
            m.span,
            s,
        ),
        Expression::PrivateField(m) => write_property(
            f,
            f.spec_deepest_object_key(expr),
            m.span,
            s,
        ),
        Expression::Wrapped(w) if w.wrapper != Wrapper::TSInstantiation => write_expression(
            f,
            w.expression,
            s,
        ),
        _ => s,
    }
}

/// A write to a target.
pub open spec fn write_target(f: Scene, target: AssignmentTarget, s: Flow) -> Flow
    decreases target,
{
    match target {
        AssignmentTarget::Identifier(ident) => write_identifier(f, ident, s),
        AssignmentTarget::StaticMember(m) => write_property(
            f,
            f.spec_target_object_key(target),
            m.span,
            s,
        ),
        AssignmentTarget::ComputedMember(m) => write_property(
            f,
            f.spec_target_object_key(target),
            m.span,
            s,
        ),
        AssignmentTarget::PrivateField(m) => write_property(
            f,
            f.spec_target_object_key(target),
            m.span,
            s,
        ),
        AssignmentTarget::Wrapped(w) => write_expression(f, w.expression, s),
        AssignmentTarget::Array(t) => {
            let s = write_elements(f, t.elements@, s);
            match t.rest {
                Some(rest) => write_target(f, rest, s),
                None => s,
            }
        },
        AssignmentTarget::Object(t) => {
            let s = write_properties(f, t.properties@, s);
            match t.rest {
                Some(rest) => write_target(f, rest, s),
                None => s,
            }
        },
    }
}

/// A write to each element of an array pattern.
pub open spec fn write_elements(
    f: Scene,
    elements: Seq<Option<AssignmentTargetMaybeDefault>>,
    s: Flow,
) -> Flow
    decreases elements,
{
    if elements.len() == 0 {
        s
    } else {
        let s = write_elements(f, elements.drop_last(), s);
        match elements.last() {
            Some(t) => write_target(f, t.binding, s),
            None => s,
        }
    }
}

/// A write to each property of an object pattern.
pub open spec fn write_properties(
    f: Scene,
    properties: Seq<AssignmentTargetProperty>,
    s: Flow,
) -> Flow
    decreases properties,
{
    if properties.len() == 0 {
        s
    } else {
        let s = write_properties(f, properties.drop_last(), s);
        match properties.last() {
            AssignmentTargetProperty::Identifier(p) => write_identifier(f, p.binding, s),
            AssignmentTargetProperty::Property(p) => write_target(f, p.binding.binding, s),
        }
    }
}

/// The left side of a loop over the members of a value.
pub open spec fn write_left(f: Scene, left: ForStatementLeft, s: Flow) -> Flow {
    match left {
        ForStatementLeft::VariableDeclaration(_) => s,
        ForStatementLeft::AssignmentTarget(target) => write_target(f, target, s),
    }
}

pub open spec fn walk_expression(f: Scene, expr: Expression, s: Flow) -> Flow
    decreases expr, 0nat,
{
    match expr {
        Expression::Identifier(ident) => read_identifier(f, ident, s),
        Expression::This(_)
        | Expression::StringLiteral(_)
        | Expression::NumericLiteral(_)
        | Expression::BooleanLiteral(_)
        | Expression::MetaProperty(_) => s,
        Expression::TemplateLiteral(t) => walk_expressions(f, t.expressions@, s),
        Expression::StaticMember(m) => read_property(f, m.object, walk_expression(f, m.object, s)),
        Expression::ComputedMember(m) => read_property(
            f,
            m.object,
            walk_expression(f, m.expression, walk_expression(f, m.object, s)),
        ),
        Expression::PrivateField(m) => read_property(f, m.object, walk_expression(f, m.object, s)),
        Expression::Call(c) => walk_arguments(f, c.arguments@, walk_expression(f, c.callee, s)),
        Expression::Function(_) | Expression::Arrow(_) => s,
        Expression::Class(c) => walk_class(f, *c, s),
        Expression::Assignment(a) => write_target(
            f,
            a.left,
            walk_expression(
                f,
                a.right,
                walk_left_side(f, a.left, a.operator != AssignmentOperator::Assign, s),
            ),
        ),
        Expression::Logical(l) => {
            let after_left = walk_expression(f, l.left, s);
            walk_expression(f, l.right, after_left).merge(after_left)
        },
        Expression::Conditional(c) => {
            let before = walk_expression(f, c.test, s);
            let consequent = walk_expression(f, c.consequent, before);
            walk_expression(f, c.alternate, before.with_reports_of(consequent)).merge(consequent)
        },
        Expression::Await(a) => walk_expression(f, a.argument, s).outdate(),
        Expression::Yield(y) => match y.argument {
            Some(argument) => walk_expression(f, argument, s).outdate(),
            None => s.outdate(),
        },
        Expression::Object(o) => walk_object_properties(f, o.properties@, s),
        Expression::Array(a) => walk_expressions(f, a.elements@, s),
        Expression::Wrapped(w) => walk_expression(f, w.expression, s),
        Expression::Jsx(j) => {
            let s = match j.name {
                Some(name) => read_identifier(f, name, s),
                None => s,
            };
            let s = walk_expressions(f, j.children@, walk_expressions(f, j.attributes@, s));
            match j.name {
                Some(name) if j.has_closing => read_identifier(f, name, s),
                _ => s,
            }
        },
        Expression::Shared(e) => walk_expression(f, *e, s),
        Expression::Other(o) => walk_expressions(f, o.children@, s),
    }
}

pub open spec fn walk_expressions(f: Scene, list: Seq<Expression>, s: Flow) -> Flow
    decreases list, 0nat,
{
    if list.len() == 0 {
        s
    } else {
        walk_expression(f, list.last(), walk_expressions(f, list.drop_last(), s))
    }
}

pub open spec fn walk_optional(f: Scene, expr: Option<Expression>, s: Flow) -> Flow
    decreases expr, 0nat,
{
    match expr {
        Some(expr) => walk_expression(f, expr, s),
        None => s,
    }
}

pub open spec fn walk_arguments(f: Scene, list: Seq<Argument>, s: Flow) -> Flow
    decreases list, 0nat,
{
    if list.len() == 0 {
        s
    } else {
        let s = walk_arguments(f, list.drop_last(), s);
        match list.last() {
            Argument::Spread(e) => walk_expression(f, e.argument, s),
            Argument::Expression(expr) => walk_expression(f, expr, s),
        }
    }
}

pub open spec fn walk_key(f: Scene, key: PropertyKey, s: Flow) -> Flow
    decreases key, 0nat,
{
    match key {
        PropertyKey::Expression(key) => walk_expression(f, key.expression, s),
        _ => s,
    }
}

pub open spec fn walk_object_properties(f: Scene, list: Seq<ObjectPropertyKind>, s: Flow) -> Flow
    decreases list, 0nat,
{
    if list.len() == 0 {
        s
    } else {
        let s = walk_object_properties(f, list.drop_last(), s);
        match list.last() {
            ObjectPropertyKind::ObjectProperty(p) => walk_expression(
                f,
                p.value,
                walk_key(f, p.key, s),
            ),
            ObjectPropertyKind::SpreadProperty(expr) => walk_expression(f, expr, s),
        }
    }
}

/// The left side of an assignment, before the right one. A plain assignment does not read its
/// target.
pub open spec fn walk_left_side(
    f: Scene,
    target: AssignmentTarget,
    is_compound: bool,
    s: Flow,
) -> Flow
    decreases target, 1nat,
{
    match target {
        AssignmentTarget::Identifier(ident) => if is_compound {
            read_identifier(f, ident, s)
        } else {
            s
        },
        AssignmentTarget::ComputedMember(m) => {
            let s = walk_expression(f, m.expression, walk_expression(f, m.object, s));
            if is_compound {
                read_property(f, m.object, s)
            } else {
                s
            }
        },
        AssignmentTarget::StaticMember(m) => {
            let s = walk_expression(f, m.object, s);
            if is_compound {
                read_property(f, m.object, s)
            } else {
                s
            }
        },
        AssignmentTarget::PrivateField(m) => {
            let s = walk_expression(f, m.object, s);
            if is_compound {
                read_property(f, m.object, s)
            } else {
                s
            }
        },
        _ => walk_target(f, target, s),
    }
}

/// A target as a walk meets it.
pub open spec fn walk_target(f: Scene, target: AssignmentTarget, s: Flow) -> Flow
    decreases target, 0nat,
{
    match target {
        AssignmentTarget::Identifier(ident) => read_identifier(f, ident, s),
        AssignmentTarget::StaticMember(m) => read_property(
            f,
            m.object,
            walk_expression(f, m.object, s),
        ),
        AssignmentTarget::ComputedMember(m) => read_property(
            f,
            m.object,
            walk_expression(f, m.expression, walk_expression(f, m.object, s)),
        ),
        AssignmentTarget::PrivateField(m) => read_property(
            f,
            m.object,
            walk_expression(f, m.object, s),
        ),
        AssignmentTarget::Wrapped(w) => walk_expression(f, w.expression, s),
        AssignmentTarget::Array(t) => {
            let s = walk_target_elements(f, t.elements@, s);
            match t.rest {
                Some(rest) => walk_target(f, rest, s),
                None => s,
            }
        },
        AssignmentTarget::Object(t) => {
            let s = walk_target_properties(f, t.properties@, s);
            match t.rest {
                Some(rest) => walk_target(f, rest, s),
                None => s,
            }
        },
    }
}

pub open spec fn walk_maybe_default(
    f: Scene,
    target: AssignmentTargetMaybeDefault,
    s: Flow,
) -> Flow
    decreases target, 0nat,
{
    walk_optional(f, target.init, walk_target(f, target.binding, s))
}

pub open spec fn walk_target_elements(
    f: Scene,
    list: Seq<Option<AssignmentTargetMaybeDefault>>,
    s: Flow,
) -> Flow
    decreases list, 0nat,
{
    if list.len() == 0 {
        s
    } else {
        let s = walk_target_elements(f, list.drop_last(), s);
        match list.last() {
            Some(t) => walk_maybe_default(f, t, s),
            None => s,
        }
    }
}

pub open spec fn walk_target_properties(
    f: Scene,
    list: Seq<AssignmentTargetProperty>,
    s: Flow,
) -> Flow
    decreases list, 0nat,
{
    if list.len() == 0 {
        s
    } else {
        let s = walk_target_properties(f, list.drop_last(), s);
        match list.last() {
            AssignmentTargetProperty::Identifier(p) => walk_optional(
                f,
                p.init,
                read_identifier(f, p.binding, s),
            ),
            AssignmentTargetProperty::Property(p) => walk_maybe_default(
                f,
                p.binding,
                walk_key(f, p.name, s),
            ),
        }
    }
}

pub open spec fn walk_pattern(f: Scene, pattern: BindingPattern, s: Flow) -> Flow
    decreases pattern, 0nat,
{
    match pattern {
        BindingPattern::Identifier(_) => s,
        BindingPattern::Object(p) => {
            let s = walk_pattern_properties(f, p.properties@, s);
            match p.rest {
                Some(rest) => walk_pattern(f, rest, s),
                None => s,
            }
        },
        BindingPattern::Array(p) => {
            let s = walk_pattern_elements(f, p.elements@, s);
            match p.rest {
                Some(rest) => walk_pattern(f, rest, s),
                None => s,
            }
        },
        BindingPattern::Assignment(p) => walk_expression(f, p.right, walk_pattern(f, p.left, s)),
    }
}

pub open spec fn walk_pattern_properties(f: Scene, list: Seq<BindingProperty>, s: Flow) -> Flow
    decreases list, 0nat,
{
    if list.len() == 0 {
        s
    } else {
        let s = walk_pattern_properties(f, list.drop_last(), s);
        walk_pattern(f, list.last().value, walk_key(f, list.last().key, s))
    }
}

pub open spec fn walk_pattern_elements(f: Scene, list: Seq<Option<BindingPattern>>, s: Flow) -> Flow
    decreases list, 0nat,
{
    if list.len() == 0 {
        s
    } else {
        let s = walk_pattern_elements(f, list.drop_last(), s);
        match list.last() {
            Some(pattern) => walk_pattern(f, pattern, s),
            None => s,
        }
    }
}

pub open spec fn walk_class(f: Scene, class: Class, s: Flow) -> Flow
    decreases class, 0nat,
{
    walk_class_elements(
        f,
        class.body@,
        walk_optional(f, class.super_class, walk_expressions(f, class.decorators@, s)),
    )
}

pub open spec fn walk_class_elements(f: Scene, list: Seq<ClassElement>, s: Flow) -> Flow
    decreases list, 0nat,
{
    if list.len() == 0 {
        s
    } else {
        let s = walk_class_elements(f, list.drop_last(), s);
        match list.last() {
            ClassElement::StaticBlock(b) => walk_statements(f, b.body@, s),
            ClassElement::MethodDefinition(m) => walk_key(
                f,
                m.key,
                walk_expressions(f, m.decorators@, s),
            ),
            ClassElement::PropertyDefinition(p) => walk_optional(
                f,
                p.value,
                walk_key(f, p.key, walk_expressions(f, p.decorators@, s)),
            ),
            ClassElement::AccessorProperty(p) => walk_optional(
                f,
                p.value,
                walk_key(f, p.key, walk_expressions(f, p.decorators@, s)),
            ),
            ClassElement::IndexSignature(_) => s,
        }
    }
}

pub open spec fn walk_declarators(f: Scene, list: Seq<VariableDeclarator>, s: Flow) -> Flow
    decreases list, 0nat,
{
    if list.len() == 0 {
        s
    } else {
        let s = walk_declarators(f, list.drop_last(), s);
        walk_optional(f, list.last().init, walk_pattern(f, list.last().id, s))
    }
}

pub open spec fn walk_declaration(f: Scene, declaration: Declaration, s: Flow) -> Flow
    decreases declaration, 0nat,
{
    match declaration {
        Declaration::Variable(d) => walk_declarators(f, d.declarations@, s),
        Declaration::Function(_) => s,
        Declaration::Class(c) => walk_class(f, *c, s),
        Declaration::TypeOnly(_) => s,
    }
}

/// A loop over the members of a value.
pub open spec fn walk_for_each(f: Scene, stmt: ForEachStatement, s: Flow) -> Flow
    decreases stmt, 0nat,
{
    let before = walk_expression(f, stmt.right, s);
    let s = match stmt.left {
        ForStatementLeft::VariableDeclaration(d) => walk_declarators(f, d.declarations@, before),
        ForStatementLeft::AssignmentTarget(target) => walk_target(f, target, before),
    };
    walk_statement(f, stmt.body, write_left(f, stmt.left, s)).merge(before)
}

pub open spec fn walk_statement(f: Scene, stmt: Statement, s: Flow) -> Flow
    decreases stmt, 0nat,
{
    match stmt {
        Statement::Expression(e) => walk_expression(f, e.expression, s),
        Statement::Declaration(d) => walk_declaration(f, d, s),
        Statement::Import(_) | Statement::ExportAll(_) => s,
        Statement::ExportNamed(e) => match e.declaration {
            Some(d) => walk_declaration(f, d, s),
            None => s,
        },
        Statement::ExportDefault(e) => match e.declaration {
            ExportDefaultDeclarationKind::Expression(expr) => walk_expression(f, expr, s),
            ExportDefaultDeclarationKind::Function(_) => s,
            ExportDefaultDeclarationKind::Class(c) => walk_class(f, *c, s),
            ExportDefaultDeclarationKind::TypeOnly(_) => s,
        },
        Statement::Return(r) => walk_optional(f, r.argument, s),
        Statement::Try(t) => {
            let s = walk_statements(f, t.block.body@, s);
            let s = match t.handler {
                Some(h) => {
                    let s = match h.param {
                        Some(p) => walk_pattern(f, p, s),
                        None => s,
                    };
                    walk_statements(f, h.body.body@, s)
                },
                None => s,
            };
            match t.finalizer {
                Some(b) => walk_statements(f, b.body@, s),
                None => s,
            }
        },
        Statement::Block(b) => walk_statements(f, b.body@, s),
        Statement::If(i) => {
            let before = walk_expression(f, i.test, s);
            let consequent = walk_statement(f, i.consequent, before);
            let restored = before.with_reports_of(consequent);
            let alternate = match i.alternate {
                Some(a) => walk_statement(f, a, restored),
                None => restored,
            };
            alternate.merge(consequent)
        },
        Statement::For(l) => {
            let s = match l.init {
                Some(ForStatementInit::VariableDeclaration(d)) => walk_declarators(
                    f,
                    d.declarations@,
                    s,
                ),
                Some(ForStatementInit::Expression(expr)) => walk_expression(f, expr, s),
                None => s,
            };
            let before = walk_optional(f, l.test, s);
            walk_optional(f, l.update, walk_statement(f, l.body, before)).merge(before)
        },
        Statement::While(l) => {
            let before = walk_expression(f, l.test, s);
            walk_statement(f, l.body, before).merge(before)
        },
        Statement::ForIn(l) => walk_for_each(f, *l, s),
        Statement::ForOf(l) => walk_for_each(f, *l, s),
        Statement::Other(o) => walk_children(f, o.children@, s),
    }
}

pub open spec fn walk_statements(f: Scene, list: Seq<Statement>, s: Flow) -> Flow
    decreases list, 0nat,
{
    if list.len() == 0 {
        s
    } else {
        walk_statement(f, list.last(), walk_statements(f, list.drop_last(), s))
    }
}

pub open spec fn walk_children(f: Scene, list: Seq<StatementChild>, s: Flow) -> Flow
    decreases list, 0nat,
{
    if list.len() == 0 {
        s
    } else {
        let s = walk_children(f, list.drop_last(), s);
        match list.last() {
            StatementChild::Expression(expr) => walk_expression(f, expr, s),
            StatementChild::Statement(stmt) => walk_statement(f, stmt, s),
            StatementChild::BindingPattern(pattern) => walk_pattern(f, pattern, s),
        }
    }
}

} // verus!

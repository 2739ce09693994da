//! The walk that finds the reports.

use super::flow::{
    Flow, property_report, read_identifier, read_property, variable_report, walk_arguments,
    walk_children, walk_class, walk_class_elements, walk_declaration, walk_declarators,
    walk_expression, walk_expressions, walk_for_each, walk_key, walk_left_side, walk_maybe_default,
    walk_object_properties, walk_optional, walk_pattern, walk_pattern_elements,
    walk_pattern_properties, walk_statement, walk_statements, walk_target, walk_target_elements,
    walk_target_properties, write_elements, write_expression, write_identifier, write_left,
    write_properties, write_property, write_target,
};
use super::frame::Frame;
use super::state::{State, TrackedValue};
use crate::ast::{
    Argument, AssignmentOperator, AssignmentTarget, AssignmentTargetMaybeDefault,
    AssignmentTargetProperty, BindingPattern, BindingProperty, Class, ClassElement, Declaration,
    ExportDefaultDeclarationKind, Expression, ForEachStatement, ForStatementInit, ForStatementLeft,
    IdentifierReference, ObjectPropertyKind, PropertyKey, Span, Statement, StatementChild,
    VariableDeclarator, Wrapper,
};
use crate::lint::{Diagnostic, reports};
use crate::text::concat3;
use vstd::prelude::*;

verus! {

/// The diagnostic on a write to a variable.
pub fn require_atomic_updates_diagnostic(span: Span, name: &str) -> (r: Diagnostic)
    ensures
        r@ == variable_report(span, name@),
{
    Diagnostic {
        message: concat3(
            "Possible race condition: `",
            name,
            "` might be reassigned based on an outdated value",
        ),
        help: Some(
            "Avoid reading the variable before an `await`/`yield` and writing to it afterwards.".to_string(),
        ),
        span,
    }
}

/// The diagnostic on a write to a property.
pub fn require_atomic_updates_property_diagnostic(span: Span, name: &str) -> (r: Diagnostic)
    ensures
        r@ == property_report(span, name@),
{
    Diagnostic {
        message: concat3(
            "Possible race condition: `",
            name,
            "` might be assigned based on an outdated state",
        ),
        help: Some(
            "Avoid reading a property and writing to it across an `await`/`yield`.".to_string(),
        ),
        span,
    }
}

/// A walk through one function.
#[derive(Debug)]
pub struct AtomicVisitor<'a> {
    pub frame: Frame<'a>,
    pub state: State,
    pub diagnostics: Vec<Diagnostic>,
}

/// What a walk changes. The frame stays as it is, and has a view of its own.
impl<'a> View for AtomicVisitor<'a> {
    type V = Flow;

    open spec fn view(&self) -> Flow {
        Flow { reads: self.state@, reports: reports(self.diagnostics@) }
    }
}

impl<'a> AtomicVisitor<'a> {
    /// Adds a diagnostic.
    fn report(&mut self, diagnostic: Diagnostic)
        ensures
            final(self).frame == old(self).frame,
            final(self)@ == old(self)@.report(diagnostic@),
    {
        let ghost before = self.diagnostics@;
        self.diagnostics.push(diagnostic);
        proof {
            assert(reports(self.diagnostics@) =~= reports(before).push(diagnostic@));
        }
    }

    /// The state at this point.
    fn snapshot(&self) -> (r: State)
        ensures
            r@ == self@.reads,
    {
        self.state.snapshot()
    }

    /// Goes back to an earlier state.
    fn restore(&mut self, snap: State)
        ensures
            final(self).frame == old(self).frame,
            final(self)@ == (Flow { reads: snap@, reports: old(self)@.reports }),
    {
        self.state = snap;
    }

    /// Adds what was read on another way to this point.
    fn merge(&mut self, snap: State)
        ensures
            final(self).frame == old(self).frame,
            final(self)@ == (Flow { reads: old(self)@.reads.merge(snap@), reports: old(self)@.reports }),
    {
        self.state.merge(snap);
    }

    /// A suspension.
    fn outdate(&mut self)
        ensures
            final(self).frame == old(self).frame,
            final(self)@ == old(self)@.outdate(),
    {
        self.state.outdate();
    }

    /// A use of an identifier.
    pub fn visit_identifier_reference(&mut self, ident: &IdentifierReference)
        requires
            old(self).frame@.wf(),
        ensures
            final(self).frame == old(self).frame,
            final(self)@ == read_identifier(old(self).frame@, *ident, old(self)@),
    {
        if !ident.is_read {
            return;
        }
        if let Some(key) = self.frame.reference_key(ident) {
            if self.frame.tracked_for_var(key) {
                self.state.mark_var_read(key);
            }
        }
    }

    /// A use of a property of `object`.
    pub fn read_property(&mut self, object: &Expression)
        requires
            old(self).frame@.wf(),
        ensures
            final(self).frame == old(self).frame,
            final(self)@ == read_property(old(self).frame@, *object, old(self)@),
    {
        if let Some(key) = self.frame.deepest_object_key(object) {
            if self.frame.tracked_for_prop(key) {
                self.state.mark_prop_read(key);
            }
        }
    }

    /// A write to a variable.
    pub fn check_identifier_write(&mut self, ident: &IdentifierReference)
        requires
            old(self).frame@.wf(),
        ensures
            final(self).frame == old(self).frame,
            final(self)@ == write_identifier(old(self).frame@, *ident, old(self)@),
    {
        if let Some(key) = self.frame.reference_key(ident) {
            if self.frame.tracked_for_var(key) && self.state.has_outdated_var(key) {
                self.report(require_atomic_updates_diagnostic(ident.span, ident.name.as_str()));
            }
        }
    }

    /// A write to a property of the variable `key`.
    pub fn check_property_write(&mut self, key: Option<TrackedValue>, span: Span)
        requires
            old(self).frame@.wf(),
        ensures
            final(self).frame == old(self).frame,
            final(self)@ == write_property(old(self).frame@, key, span, old(self)@),
    {
        if self.frame.allow_properties {
            return;
        }
        if let Some(key) = key {
            if self.frame.tracked_for_prop(key) && self.state.has_outdated_prop(key) {
                let diagnostic = require_atomic_updates_property_diagnostic(
                    span,
                    self.frame.key_name(key),
                );
                self.report(diagnostic);
            }
        }
    }

    /// A write to an expression.
    pub fn check_expression_write(&mut self, expr: &Expression)
        requires
            old(self).frame@.wf(),
        ensures
            final(self).frame == old(self).frame,
            final(self)@ == write_expression(old(self).frame@, *expr, old(self)@),
        decreases expr,
    {
        match expr {
            Expression::Identifier(ident) => self.check_identifier_write(ident),
            Expression::StaticMember(m) => {
                let key = self.frame.deepest_object_key(expr);
                self.check_property_write(key, m.span);
            },
            Expression::ComputedMember(m) => {
                let key = self.frame.deepest_object_key(expr);
                self.check_property_write(key, m.span);
            },
            Expression::PrivateField(m) => {
                let key = self.frame.deepest_object_key(expr);
                self.check_property_write(key, m.span);
            },
            Expression::Wrapped(w) => {
                if w.wrapper != Wrapper::TSInstantiation {
                    self.check_expression_write(&w.expression);
                }
            },
            _ => {},
        }
    }

    /// A write to a target.
    pub fn check_assignment_write(&mut self, target: &AssignmentTarget)
        requires
            old(self).frame@.wf(),
        ensures
            final(self).frame == old(self).frame,
            final(self)@ == write_target(old(self).frame@, *target, old(self)@),
        decreases target,
    {
        match target {
            AssignmentTarget::Identifier(ident) => self.check_identifier_write(ident),
            AssignmentTarget::Array(t) => {
                self.check_elements_write(&t.elements);
                if let Some(rest) = &t.rest {
                    self.check_assignment_write(rest);
                }
            },
            AssignmentTarget::Object(t) => {
                self.check_properties_write(&t.properties);
                if let Some(rest) = &t.rest {
                    self.check_assignment_write(rest);
                }
            },
            AssignmentTarget::Wrapped(w) => self.check_expression_write(&w.expression),
            _ => {
                let key = self.frame.target_object_key(target);
                self.check_property_write(key, target.span());
            },
        }
    }

    /// A write to a target that may have a default.
    pub fn check_assignment_target_maybe_default_write(&mut self, target: &AssignmentTargetMaybeDefault)
        requires
            old(self).frame@.wf(),
        ensures
            final(self).frame == old(self).frame,
            final(self)@ == write_target(old(self).frame@, target.binding, old(self)@),
        decreases target,
    {
        self.check_assignment_write(&target.binding);
    }

    /// A write to each element of an array pattern.
    pub fn check_elements_write(&mut self, list: &Vec<Option<AssignmentTargetMaybeDefault>>)
        requires
            old(self).frame@.wf(),
        ensures
            final(self).frame == old(self).frame,
            final(self)@ == write_elements(old(self).frame@, list@, old(self)@),
        decreases list,
    {
        let ghost f = self.frame;
        let ghost start = self@;
        let mut i: usize = 0;
        proof {
            assert(list@.take(0) =~= Seq::empty());
        }
        while i < list.len()
            invariant
                i <= list@.len(),
                f@.wf(),
                self.frame == f,
                self@ == write_elements(f@, list@.take(i as int), start),
            decreases list@.len() - i,
        {
            proof {
                assert(list@.take(i + 1).drop_last() =~= list@.take(i as int));
                assert(list@.take(i + 1).last() == list@[i as int]);
            }
            if let Some(element) = &list[i] {
                self.check_assignment_target_maybe_default_write(element);
            }
            i += 1;
        }
        proof {
            assert(list@.take(list@.len() as int) =~= list@);
        }
    }

    /// A write to each property of an object pattern.
    pub fn check_properties_write(&mut self, list: &Vec<AssignmentTargetProperty>)
        requires
            old(self).frame@.wf(),
        ensures
            final(self).frame == old(self).frame,
            final(self)@ == write_properties(old(self).frame@, list@, old(self)@),
        decreases list,
    {
        let ghost f = self.frame;
        let ghost start = self@;
        let mut i: usize = 0;
        proof {
            assert(list@.take(0) =~= Seq::empty());
        }
        while i < list.len()
            invariant
                i <= list@.len(),
                f@.wf(),
                self.frame == f,
                self@ == write_properties(f@, list@.take(i as int), start),
            decreases list@.len() - i,
        {
            proof {
                assert(list@.take(i + 1).drop_last() =~= list@.take(i as int));
                assert(list@.take(i + 1).last() == list@[i as int]);
            }
            match &list[i] {
                AssignmentTargetProperty::Identifier(p) => self.check_identifier_write(&p.binding),
                AssignmentTargetProperty::Property(p) => {
                    self.check_assignment_target_maybe_default_write(&p.binding);
                },
            }
            i += 1;
        }
        proof {
            assert(list@.take(list@.len() as int) =~= list@);
        }
    }

    /// A write to the left side of a loop over the members of a value.
    pub fn check_for_statement_left_write(&mut self, left: &ForStatementLeft)
        requires
            old(self).frame@.wf(),
        ensures
            final(self).frame == old(self).frame,
            final(self)@ == write_left(old(self).frame@, *left, old(self)@),
    {
        match left {
            ForStatementLeft::VariableDeclaration(_) => {},
            ForStatementLeft::AssignmentTarget(target) => self.check_assignment_write(target),
        }
    }

    /// An expression.
    pub fn visit_expression(&mut self, expr: &Expression)
        requires
            old(self).frame@.wf(),
        ensures
            final(self).frame == old(self).frame,
            final(self)@ == walk_expression(old(self).frame@, *expr, old(self)@),
        decreases expr, 0nat,
    {
        match expr {
            Expression::Identifier(ident) => self.visit_identifier_reference(ident),
            Expression::This(_)
            | Expression::StringLiteral(_)
            | Expression::NumericLiteral(_)
            | Expression::BooleanLiteral(_)
            | Expression::MetaProperty(_) => {},
            Expression::TemplateLiteral(t) => self.visit_expressions(&t.expressions),
            Expression::StaticMember(m) => {
                self.visit_expression(&m.object);
                self.read_property(&m.object);
            },
            Expression::ComputedMember(m) => {
                self.visit_expression(&m.object);
                self.visit_expression(&m.expression);
                self.read_property(&m.object);
            },
            Expression::PrivateField(m) => {
                self.visit_expression(&m.object);
                self.read_property(&m.object);
            },
            Expression::Call(c) => {
                self.visit_expression(&c.callee);
                self.visit_arguments(&c.arguments);
            },
            Expression::Function(_) | Expression::Arrow(_) => {},
            Expression::Class(c) => self.visit_class(c),
            Expression::Assignment(a) => {
                self.visit_assignment_lhs(&a.left, a.operator != AssignmentOperator::Assign);
                self.visit_expression(&a.right);
                self.check_assignment_write(&a.left);
            },
            Expression::Logical(l) => {
                self.visit_expression(&l.left);
                let after_left = self.snapshot();
                self.visit_expression(&l.right);
                self.merge(after_left);
            },
            Expression::Conditional(c) => {
                self.visit_expression(&c.test);
                let snap = self.snapshot();
                self.visit_expression(&c.consequent);
                let after_consequent = self.snapshot();
                self.restore(snap);
                self.visit_expression(&c.alternate);
                self.merge(after_consequent);
            },
            Expression::Await(a) => {
                self.visit_expression(&a.argument);
                self.outdate();
            },
            Expression::Yield(y) => {
                if let Some(argument) = &y.argument {
                    self.visit_expression(argument);
                }
                self.outdate();
            },
            Expression::Object(o) => self.visit_object_properties(&o.properties),
            Expression::Array(a) => self.visit_expressions(&a.elements),
            Expression::Wrapped(w) => self.visit_expression(&w.expression),
            Expression::Jsx(j) => {
                if let Some(name) = &j.name {
                    self.visit_identifier_reference(name);
                }
                self.visit_expressions(&j.attributes);
                self.visit_expressions(&j.children);
                if j.has_closing {
                    if let Some(name) = &j.name {
                        self.visit_identifier_reference(name);
                    }
                }
            },
            Expression::Shared(e) => self.visit_expression(e),
            Expression::Other(o) => self.visit_expressions(&o.children),
        }
    }

    /// Expressions, one after the other.
    pub fn visit_expressions(&mut self, list: &Vec<Expression>)
        requires
            old(self).frame@.wf(),
        ensures
            final(self).frame == old(self).frame,
            final(self)@ == walk_expressions(old(self).frame@, list@, old(self)@),
        decreases list, 0nat,
    {
        let ghost f = self.frame;
        let ghost start = self@;
        let mut i: usize = 0;
        proof {
            assert(list@.take(0) =~= Seq::empty());
        }
        while i < list.len()
            invariant
                i <= list@.len(),
                f@.wf(),
                self.frame == f,
                self@ == walk_expressions(f@, list@.take(i as int), start),
            decreases list@.len() - i,
        {
            proof {
                assert(list@.take(i + 1).drop_last() =~= list@.take(i as int));
                assert(list@.take(i + 1).last() == list@[i as int]);
            }
            self.visit_expression(&list[i]);
            i += 1;
        }
        proof {
            assert(list@.take(list@.len() as int) =~= list@);
        }
    }

    /// An expression that may be absent.
    pub fn visit_optional(&mut self, expr: &Option<Expression>)
        requires
            old(self).frame@.wf(),
        ensures
            final(self).frame == old(self).frame,
            final(self)@ == walk_optional(old(self).frame@, *expr, old(self)@),
        decreases expr, 0nat,
    {
        if let Some(expr) = expr {
            self.visit_expression(expr);
        }
    }

    /// The arguments of a call.
    pub fn visit_arguments(&mut self, list: &Vec<Argument>)
        requires
            old(self).frame@.wf(),
        ensures
            final(self).frame == old(self).frame,
            final(self)@ == walk_arguments(old(self).frame@, list@, old(self)@),
        decreases list, 0nat,
    {
        let ghost f = self.frame;
        let ghost start = self@;
        let mut i: usize = 0;
        proof {
            assert(list@.take(0) =~= Seq::empty());
        }
        while i < list.len()
            invariant
                i <= list@.len(),
                f@.wf(),
                self.frame == f,
                self@ == walk_arguments(f@, list@.take(i as int), start),
            decreases list@.len() - i,
        {
            proof {
                assert(list@.take(i + 1).drop_last() =~= list@.take(i as int));
                assert(list@.take(i + 1).last() == list@[i as int]);
            }
            match &list[i] {
                Argument::Spread(e) => self.visit_expression(&e.argument),
                Argument::Expression(expr) => self.visit_expression(expr),
            }
            i += 1;
        }
        proof {
            assert(list@.take(list@.len() as int) =~= list@);
        }
    }

    /// A key.
    pub fn visit_property_key(&mut self, key: &PropertyKey)
        requires
            old(self).frame@.wf(),
        ensures
            final(self).frame == old(self).frame,
            final(self)@ == walk_key(old(self).frame@, *key, old(self)@),
        decreases key, 0nat,
    {
        match key {
            PropertyKey::Expression(key) => self.visit_expression(&key.expression),
            _ => {},
        }
    }

    /// The properties of an object.
    pub fn visit_object_properties(&mut self, list: &Vec<ObjectPropertyKind>)
        requires
            old(self).frame@.wf(),
        ensures
            final(self).frame == old(self).frame,
            final(self)@ == walk_object_properties(old(self).frame@, list@, old(self)@),
        decreases list, 0nat,
    {
        let ghost f = self.frame;
        let ghost start = self@;
        let mut i: usize = 0;
        proof {
            assert(list@.take(0) =~= Seq::empty());
        }
        while i < list.len()
            invariant
                i <= list@.len(),
                f@.wf(),
                self.frame == f,
                self@ == walk_object_properties(f@, list@.take(i as int), start),
            decreases list@.len() - i,
        {
            proof {
                assert(list@.take(i + 1).drop_last() =~= list@.take(i as int));
                assert(list@.take(i + 1).last() == list@[i as int]);
            }
            match &list[i] {
                ObjectPropertyKind::ObjectProperty(p) => {
                    self.visit_property_key(&p.key);
                    self.visit_expression(&p.value);
                },
                ObjectPropertyKind::SpreadProperty(expr) => self.visit_expression(expr),
            }
            i += 1;
        }
        proof {
            assert(list@.take(list@.len() as int) =~= list@);
        }
    }

    /// The left side of an assignment, before the right one.
    pub fn visit_assignment_lhs(&mut self, target: &AssignmentTarget, is_compound: bool)
        requires
            old(self).frame@.wf(),
        ensures
            final(self).frame == old(self).frame,
            final(self)@ == walk_left_side(old(self).frame@, *target, is_compound, old(self)@),
        decreases target, 1nat,
    {
        match target {
            AssignmentTarget::Identifier(ident) => {
                if is_compound {
                    self.visit_identifier_reference(ident);
                }
            },
            AssignmentTarget::ComputedMember(m) => {
                self.visit_expression(&m.object);
                self.visit_expression(&m.expression);
                if is_compound {
                    self.read_property(&m.object);
                }
            },
            AssignmentTarget::StaticMember(m) => {
                self.visit_expression(&m.object);
                if is_compound {
                    self.read_property(&m.object);
                }
            },
            AssignmentTarget::PrivateField(m) => {
                self.visit_expression(&m.object);
                if is_compound {
                    self.read_property(&m.object);
                }
            },
            _ => self.visit_assignment_target(target),
        }
    }

    /// A target.
    pub fn visit_assignment_target(&mut self, target: &AssignmentTarget)
        requires
            old(self).frame@.wf(),
        ensures
            final(self).frame == old(self).frame,
            final(self)@ == walk_target(old(self).frame@, *target, old(self)@),
        decreases target, 0nat,
    {
        match target {
            AssignmentTarget::Identifier(ident) => self.visit_identifier_reference(ident),
            AssignmentTarget::StaticMember(m) => {
                self.visit_expression(&m.object);
                self.read_property(&m.object);
            },
            AssignmentTarget::ComputedMember(m) => {
                self.visit_expression(&m.object);
                self.visit_expression(&m.expression);
                self.read_property(&m.object);
            },
            AssignmentTarget::PrivateField(m) => {
                self.visit_expression(&m.object);
                self.read_property(&m.object);
            },
            AssignmentTarget::Wrapped(w) => self.visit_expression(&w.expression),
            AssignmentTarget::Array(t) => {
                self.visit_target_elements(&t.elements);
                if let Some(rest) = &t.rest {
                    self.visit_assignment_target(rest);
                }
            },
            AssignmentTarget::Object(t) => {
                self.visit_target_properties(&t.properties);
                if let Some(rest) = &t.rest {
                    self.visit_assignment_target(rest);
                }
            },
        }
    }

    /// A target that may have a default.
    pub fn visit_target_maybe_default(&mut self, target: &AssignmentTargetMaybeDefault)
        requires
            old(self).frame@.wf(),
        ensures
            final(self).frame == old(self).frame,
            final(self)@ == walk_maybe_default(old(self).frame@, *target, old(self)@),
        decreases target, 0nat,
    {
        self.visit_assignment_target(&target.binding);
        self.visit_optional(&target.init);
    }

    /// The elements of an array pattern.
    pub fn visit_target_elements(&mut self, list: &Vec<Option<AssignmentTargetMaybeDefault>>)
        requires
            old(self).frame@.wf(),
        ensures
            final(self).frame == old(self).frame,
            final(self)@ == walk_target_elements(old(self).frame@, list@, old(self)@),
        decreases list, 0nat,
    {
        let ghost f = self.frame;
        let ghost start = self@;
        let mut i: usize = 0;
        proof {
            assert(list@.take(0) =~= Seq::empty());
        }
        while i < list.len()
            invariant
                i <= list@.len(),
                f@.wf(),
                self.frame == f,
                self@ == walk_target_elements(f@, list@.take(i as int), start),
            decreases list@.len() - i,
        {
            proof {
                assert(list@.take(i + 1).drop_last() =~= list@.take(i as int));
                assert(list@.take(i + 1).last() == list@[i as int]);
            }
            if let Some(element) = &list[i] {
                self.visit_target_maybe_default(element);
            }
            i += 1;
        }
        proof {
            assert(list@.take(list@.len() as int) =~= list@);
        }
    }

    /// The properties of an object pattern.
    pub fn visit_target_properties(&mut self, list: &Vec<AssignmentTargetProperty>)
        requires
            old(self).frame@.wf(),
        ensures
            final(self).frame == old(self).frame,
            final(self)@ == walk_target_properties(old(self).frame@, list@, old(self)@),
        decreases list, 0nat,
    {
        let ghost f = self.frame;
        let ghost start = self@;
        let mut i: usize = 0;
        proof {
            assert(list@.take(0) =~= Seq::empty());
        }
        while i < list.len()
            invariant
                i <= list@.len(),
                f@.wf(),
                self.frame == f,
                self@ == walk_target_properties(f@, list@.take(i as int), start),
            decreases list@.len() - i,
        {
            proof {
                assert(list@.take(i + 1).drop_last() =~= list@.take(i as int));
                assert(list@.take(i + 1).last() == list@[i as int]);
            }
            match &list[i] {
                AssignmentTargetProperty::Identifier(p) => {
                    self.visit_identifier_reference(&p.binding);
                    self.visit_optional(&p.init);
                },
                AssignmentTargetProperty::Property(p) => {
                    self.visit_property_key(&p.name);
                    self.visit_target_maybe_default(&p.binding);
                },
            }
            i += 1;
        }
        proof {
            assert(list@.take(list@.len() as int) =~= list@);
        }
    }

    /// A pattern.
    pub fn visit_binding_pattern(&mut self, pattern: &BindingPattern)
        requires
            old(self).frame@.wf(),
        ensures
            final(self).frame == old(self).frame,
            final(self)@ == walk_pattern(old(self).frame@, *pattern, old(self)@),
        decreases pattern, 0nat,
    {
        match pattern {
            BindingPattern::Identifier(_) => {},
            BindingPattern::Object(p) => {
                self.visit_pattern_properties(&p.properties);
                if let Some(rest) = &p.rest {
                    self.visit_binding_pattern(rest);
                }
            },
            BindingPattern::Array(p) => {
                self.visit_pattern_elements(&p.elements);
                if let Some(rest) = &p.rest {
                    self.visit_binding_pattern(rest);
                }
            },
            BindingPattern::Assignment(p) => {
                self.visit_binding_pattern(&p.left);
                self.visit_expression(&p.right);
            },
        }
    }

    /// The properties of a pattern.
    pub fn visit_pattern_properties(&mut self, list: &Vec<BindingProperty>)
        requires
            old(self).frame@.wf(),
        ensures
            final(self).frame == old(self).frame,
            final(self)@ == walk_pattern_properties(old(self).frame@, list@, old(self)@),
        decreases list, 0nat,
    {
        let ghost f = self.frame;
        let ghost start = self@;
        let mut i: usize = 0;
        proof {
            assert(list@.take(0) =~= Seq::empty());
        }
        while i < list.len()
            invariant
                i <= list@.len(),
                f@.wf(),
                self.frame == f,
                self@ == walk_pattern_properties(f@, list@.take(i as int), start),
            decreases list@.len() - i,
        {
            proof {
                assert(list@.take(i + 1).drop_last() =~= list@.take(i as int));
                assert(list@.take(i + 1).last() == list@[i as int]);
            }
            self.visit_property_key(&list[i].key);
            self.visit_binding_pattern(&list[i].value);
            i += 1;
        }
        proof {
            assert(list@.take(list@.len() as int) =~= list@);
        }
    }

    /// The elements of a pattern.
    pub fn visit_pattern_elements(&mut self, list: &Vec<Option<BindingPattern>>)
        requires
            old(self).frame@.wf(),
        ensures
            final(self).frame == old(self).frame,
            final(self)@ == walk_pattern_elements(old(self).frame@, list@, old(self)@),
        decreases list, 0nat,
    {
        let ghost f = self.frame;
        let ghost start = self@;
        let mut i: usize = 0;
        proof {
            assert(list@.take(0) =~= Seq::empty());
        }
        while i < list.len()
            invariant
                i <= list@.len(),
                f@.wf(),
                self.frame == f,
                self@ == walk_pattern_elements(f@, list@.take(i as int), start),
            decreases list@.len() - i,
        {
            proof {
                assert(list@.take(i + 1).drop_last() =~= list@.take(i as int));
                assert(list@.take(i + 1).last() == list@[i as int]);
            }
            if let Some(pattern) = &list[i] {
                self.visit_binding_pattern(pattern);
            }
            i += 1;
        }
        proof {
            assert(list@.take(list@.len() as int) =~= list@);
        }
    }

    /// A class.
    pub fn visit_class(&mut self, class: &Class)
        requires
            old(self).frame@.wf(),
        ensures
            final(self).frame == old(self).frame,
            final(self)@ == walk_class(old(self).frame@, *class, old(self)@),
        decreases class, 0nat,
    {
        self.visit_expressions(&class.decorators);
        self.visit_optional(&class.super_class);
        self.visit_class_elements(&class.body);
    }

    /// The members of a class.
    pub fn visit_class_elements(&mut self, list: &Vec<ClassElement>)
        requires
            old(self).frame@.wf(),
        ensures
            final(self).frame == old(self).frame,
            final(self)@ == walk_class_elements(old(self).frame@, list@, old(self)@),
        decreases list, 0nat,
    {
        let ghost f = self.frame;
        let ghost start = self@;
        let mut i: usize = 0;
        proof {
            assert(list@.take(0) =~= Seq::empty());
        }
        while i < list.len()
            invariant
                i <= list@.len(),
                f@.wf(),
                self.frame == f,
                self@ == walk_class_elements(f@, list@.take(i as int), start),
            decreases list@.len() - i,
        {
            proof {
                assert(list@.take(i + 1).drop_last() =~= list@.take(i as int));
                assert(list@.take(i + 1).last() == list@[i as int]);
            }
            match &list[i] {
                ClassElement::StaticBlock(b) => self.visit_statements(&b.body),
                ClassElement::MethodDefinition(m) => {
                    self.visit_expressions(&m.decorators);
                    self.visit_property_key(&m.key);
                },
                ClassElement::PropertyDefinition(p) => {
                    self.visit_expressions(&p.decorators);
                    self.visit_property_key(&p.key);
                    self.visit_optional(&p.value);
                },
                ClassElement::AccessorProperty(p) => {
                    self.visit_expressions(&p.decorators);
                    self.visit_property_key(&p.key);
                    self.visit_optional(&p.value);
                },
                ClassElement::IndexSignature(_) => {},
            }
            i += 1;
        }
        proof {
            assert(list@.take(list@.len() as int) =~= list@);
        }
    }

    /// The variables of a declaration.
    pub fn visit_declarators(&mut self, list: &Vec<VariableDeclarator>)
        requires
            old(self).frame@.wf(),
        ensures
            final(self).frame == old(self).frame,
            final(self)@ == walk_declarators(old(self).frame@, list@, old(self)@),
        decreases list, 0nat,
    {
        let ghost f = self.frame;
        let ghost start = self@;
        let mut i: usize = 0;
        proof {
            assert(list@.take(0) =~= Seq::empty());
        }
        while i < list.len()
            invariant
                i <= list@.len(),
                f@.wf(),
                self.frame == f,
                self@ == walk_declarators(f@, list@.take(i as int), start),
            decreases list@.len() - i,
        {
            proof {
                assert(list@.take(i + 1).drop_last() =~= list@.take(i as int));
                assert(list@.take(i + 1).last() == list@[i as int]);
            }
            self.visit_binding_pattern(&list[i].id);
            self.visit_optional(&list[i].init);
            i += 1;
        }
        proof {
            assert(list@.take(list@.len() as int) =~= list@);
        }
    }

    /// A declaration.
    pub fn visit_declaration(&mut self, declaration: &Declaration)
        requires
            old(self).frame@.wf(),
        ensures
            final(self).frame == old(self).frame,
            final(self)@ == walk_declaration(old(self).frame@, *declaration, old(self)@),
        decreases declaration, 0nat,
    {
        match declaration {
            Declaration::Variable(d) => self.visit_declarators(&d.declarations),
            Declaration::Function(_) => {},
            Declaration::Class(c) => self.visit_class(c),
            Declaration::TypeOnly(_) => {},
        }
    }

    /// A loop over the members of a value.
    pub fn visit_for_each_statement(&mut self, stmt: &ForEachStatement)
        requires
            old(self).frame@.wf(),
        ensures
            final(self).frame == old(self).frame,
            final(self)@ == walk_for_each(old(self).frame@, *stmt, old(self)@),
        decreases stmt, 0nat,
    {
        self.visit_expression(&stmt.right);
        let snap = self.snapshot();
        match &stmt.left {
            ForStatementLeft::VariableDeclaration(d) => self.visit_declarators(&d.declarations),
            ForStatementLeft::AssignmentTarget(target) => self.visit_assignment_target(target),
        }
        self.check_for_statement_left_write(&stmt.left);
        self.visit_statement(&stmt.body);
        self.merge(snap);
    }

    /// A statement.
    pub fn visit_statement(&mut self, stmt: &Statement)
        requires
            old(self).frame@.wf(),
        ensures
            final(self).frame == old(self).frame,
            final(self)@ == walk_statement(old(self).frame@, *stmt, old(self)@),
        decreases stmt, 0nat,
    {
        match stmt {
            Statement::Expression(e) => self.visit_expression(&e.expression),
            Statement::Declaration(d) => self.visit_declaration(d),
            Statement::Import(_) | Statement::ExportAll(_) => {},
            Statement::ExportNamed(e) => {
                if let Some(d) = &e.declaration {
                    self.visit_declaration(d);
                }
            },
            Statement::ExportDefault(e) => match &e.declaration {
                ExportDefaultDeclarationKind::Expression(expr) => self.visit_expression(expr),
                ExportDefaultDeclarationKind::Function(_) => {},
                ExportDefaultDeclarationKind::Class(c) => self.visit_class(c),
                ExportDefaultDeclarationKind::TypeOnly(_) => {},
            },
            Statement::Return(r) => self.visit_optional(&r.argument),
            Statement::Try(t) => {
                self.visit_statements(&t.block.body);
                if let Some(h) = &t.handler {
                    if let Some(p) = &h.param {
                        self.visit_binding_pattern(p);
                    }
                    self.visit_statements(&h.body.body);
                }
                if let Some(b) = &t.finalizer {
                    self.visit_statements(&b.body);
                }
            },
            Statement::Block(b) => self.visit_statements(&b.body),
            Statement::If(s) => {
                self.visit_expression(&s.test);
                let snap = self.snapshot();
                self.visit_statement(&s.consequent);
                let after_consequent = self.snapshot();
                self.restore(snap);
                if let Some(alternate) = &s.alternate {
                    self.visit_statement(alternate);
                }
                self.merge(after_consequent);
            },
            Statement::For(s) => {
                match &s.init {
                    Some(ForStatementInit::VariableDeclaration(d)) => {
                        self.visit_declarators(&d.declarations);
                    },
                    Some(ForStatementInit::Expression(expr)) => self.visit_expression(expr),
                    None => {},
                }
                self.visit_optional(&s.test);
                let snap = self.snapshot();
                self.visit_statement(&s.body);
                self.visit_optional(&s.update);
                self.merge(snap);
            },
            Statement::While(s) => {
                self.visit_expression(&s.test);
                let snap = self.snapshot();
                self.visit_statement(&s.body);
                self.merge(snap);
            },
            Statement::ForIn(s) => self.visit_for_each_statement(s),
            Statement::ForOf(s) => self.visit_for_each_statement(s),
            Statement::Other(o) => self.visit_children(&o.children),
        }
    }

    /// Statements, one after the other.
    pub fn visit_statements(&mut self, list: &Vec<Statement>)
        requires
            old(self).frame@.wf(),
        ensures
            final(self).frame == old(self).frame,
            final(self)@ == walk_statements(old(self).frame@, list@, old(self)@),
        decreases list, 0nat,
    {
        let ghost f = self.frame;
        let ghost start = self@;
        let mut i: usize = 0;
        proof {
            assert(list@.take(0) =~= Seq::empty());
        }
        while i < list.len()
            invariant
                i <= list@.len(),
                f@.wf(),
                self.frame == f,
                self@ == walk_statements(f@, list@.take(i as int), start),
            decreases list@.len() - i,
        {
            proof {
                assert(list@.take(i + 1).drop_last() =~= list@.take(i as int));
                assert(list@.take(i + 1).last() == list@[i as int]);
            }
            self.visit_statement(&list[i]);
            i += 1;
        }
        proof {
            assert(list@.take(list@.len() as int) =~= list@);
        }
    }

    /// What a statement of no form of its own holds.
    pub fn visit_children(&mut self, list: &Vec<StatementChild>)
        requires
            old(self).frame@.wf(),
        ensures
            final(self).frame == old(self).frame,
            final(self)@ == walk_children(old(self).frame@, list@, old(self)@),
        decreases list, 0nat,
    {
        let ghost f = self.frame;
        let ghost start = self@;
        let mut i: usize = 0;
        proof {
            assert(list@.take(0) =~= Seq::empty());
        }
        while i < list.len()
            invariant
                i <= list@.len(),
                f@.wf(),
                self.frame == f,
                self@ == walk_children(f@, list@.take(i as int), start),
            decreases list@.len() - i,
        {
            proof {
                assert(list@.take(i + 1).drop_last() =~= list@.take(i as int));
                assert(list@.take(i + 1).last() == list@[i as int]);
            }
            match &list[i] {
                StatementChild::Expression(expr) => self.visit_expression(expr),
                StatementChild::Statement(stmt) => self.visit_statement(stmt),
                StatementChild::BindingPattern(pattern) => self.visit_binding_pattern(pattern),
            }
            i += 1;
        }
        proof {
            assert(list@.take(list@.len() as int) =~= list@);
        }
    }
}

} // verus!

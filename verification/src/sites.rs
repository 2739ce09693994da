//! The places of a program that a collector looks at.
//!
//! A walk over the whole program, functions and classes included, lists its imports, its calls,
//! the names of its JSX elements, and the variables that a call of `require` loads.

use crate::ast::{
    Argument, AssignmentTarget, AssignmentTargetMaybeDefault, AssignmentTargetProperty,
    BindingPattern, BindingProperty, CallExpression, Class, ClassElement, Declaration,
    ExportDefaultDeclarationKind, Expression, ForEachStatement, ForStatementInit, ForStatementLeft,
    FormalParameters, Function, FunctionBody, IdentifierReference, ImportDeclaration,
    ObjectPropertyKind, PropertyKey, Statement, StatementChild, VariableDeclarator, unshared,
};
use crate::text::str_eq;
use vstd::prelude::*;

verus! {

/// A place of a program.
#[derive(Debug, Clone, Copy)]
pub enum Site<'a> {
    Import(&'a ImportDeclaration),
    /// A variable that a call of `require` loads.
    Required(&'a VariableDeclarator),
    Call(&'a CallExpression),
    /// The identifier that the name of a JSX element starts with.
    JsxName(&'a IdentifierReference),
}

/// What a [`Site`] holds.
pub ghost enum Place {
    Import(ImportDeclaration),
    Required(VariableDeclarator),
    Call(CallExpression),
    JsxName(IdentifierReference),
}

impl<'a> View for Site<'a> {
    type V = Place;

    open spec fn view(&self) -> Place {
        match self {
            Site::Import(x) => Place::Import(**x),
            Site::Required(x) => Place::Required(**x),
            Site::Call(x) => Place::Call(**x),
            Site::JsxName(x) => Place::JsxName(**x),
        }
    }
}

/// The places in a list of sites.
pub open spec fn places(s: Seq<Site>) -> Seq<Place> {
    s.map_values(|x: Site| x@)
}

/// What a walk goes into.
#[derive(Debug, Clone, Copy, PartialEq, Eq, Structural)]
pub struct Walk {
    /// The attributes of JSX elements.
    pub attributes: bool,
    /// Of declared variables, only those that a call of `require` loads.
    pub only_required: bool,
}

/// The module that a variable is loaded from: the text that `require` is called with.
pub open spec fn spec_required_source(d: VariableDeclarator) -> Option<Seq<char>> {
    match d.init {
        Some(Expression::Call(call)) => match call.callee.spec_inner_expression() {
            Expression::Identifier(callee) => if callee.name@ == "require"@ && call.arguments@.len()
                > 0 {
                match call.arguments@[0] {
                    Argument::Expression(Expression::StringLiteral(source)) => Some(source.value@),
                    _ => None,
                }
            } else {
                None
            },
            _ => None,
        },
        _ => None,
    }
}

/// The module that a variable is loaded from.
pub fn required_source(d: &VariableDeclarator) -> (r: Option<&str>)
    ensures
        spec_required_source(*d) == (match r {
            Some(s) => Some(s@),
            None => None,
        }),
{
    let Some(Expression::Call(call)) = &d.init else {
        return None;
    };
    let Expression::Identifier(callee) = call.callee.get_inner_expression() else {
        return None;
    };
    if !str_eq(callee.name.as_str(), "require") || call.arguments.len() == 0 {
        return None;
    }
    match &call.arguments[0] {
        Argument::Expression(Expression::StringLiteral(source)) => Some(source.value.as_str()),
        _ => None,
    }
}

/// The functions of a module that make elements.
pub open spec fn spec_jsx_methods(source: Seq<char>) -> Option<Seq<Seq<char>>> {
    if source == "react/jsx-runtime"@ {
        Some(seq!["jsx"@, "jsxs"@])
    } else if source == "react/jsx-dev-runtime"@ {
        Some(seq!["jsxDEV"@])
    } else if source == "react"@ {
        Some(seq!["createElement"@])
    } else {
        None
    }
}

/// The functions of a module that make elements.
pub fn jsx_methods(source: &str) -> (r: Option<Vec<&'static str>>)
    ensures
        r is Some == spec_jsx_methods(source@) is Some,
        r matches Some(v) ==> crate::text::texts(v@) == spec_jsx_methods(source@)->0,
{
    let mut methods: Vec<&'static str> = Vec::new();
    if str_eq(source, "react/jsx-runtime") {
        methods.push("jsx");
        methods.push("jsxs");
    } else if str_eq(source, "react/jsx-dev-runtime") {
        methods.push("jsxDEV");
    } else if str_eq(source, "react") {
        methods.push("createElement");
    } else {
        return None;
    }
    proof {
        assert(crate::text::texts(methods@) =~= spec_jsx_methods(source@)->0);
    }
    Some(methods)
}

/// Whether the variable is loaded from a module with functions that make elements.
pub open spec fn is_required(d: VariableDeclarator) -> bool {
    spec_required_source(d) matches Some(source) && spec_jsx_methods(source) is Some
}

pub open spec fn sites_expression(w: Walk, expr: Expression, s: Seq<Place>) -> Seq<Place>
    decreases expr, 0nat,
{
    match expr {
        Expression::Identifier(_)
        | Expression::This(_)
        | Expression::StringLiteral(_)
        | Expression::NumericLiteral(_)
        | Expression::BooleanLiteral(_)
        | Expression::MetaProperty(_) => s,
        Expression::TemplateLiteral(t) => sites_expressions(w, t.expressions@, s),
        Expression::StaticMember(m) => sites_expression(w, m.object, s),
        Expression::ComputedMember(m) => sites_expression(
            w,
            m.expression,
            sites_expression(w, m.object, s),
        ),
        Expression::PrivateField(m) => sites_expression(w, m.object, s),
        Expression::Call(c) => sites_arguments(
            w,
            c.arguments@,
            sites_expression(w, c.callee, s),
        ).push(Place::Call(*c)),
        Expression::Function(f) => sites_function(w, *f, s),
        Expression::Arrow(a) => sites_body(w, a.body, sites_parameters(w, a.params, s)),
        Expression::Class(c) => sites_class(w, *c, s),
        Expression::Assignment(a) => sites_expression(w, a.right, sites_target(w, a.left, s)),
        Expression::Logical(l) => sites_expression(w, l.right, sites_expression(w, l.left, s)),
        Expression::Conditional(c) => sites_expression(
            w,
            c.alternate,
            sites_expression(w, c.consequent, sites_expression(w, c.test, s)),
        ),
        Expression::Await(a) => sites_expression(w, a.argument, s),
        Expression::Yield(y) => sites_optional(w, y.argument, s),
        Expression::Object(o) => sites_object_properties(w, o.properties@, s),
        Expression::Array(a) => sites_expressions(w, a.elements@, s),
        Expression::Wrapped(x) => sites_expression(w, x.expression, s),
        Expression::Jsx(j) => {
            let s = match j.name {
                Some(name) => s.push(Place::JsxName(name)),
                None => s,
            };
            let s = if w.attributes {
                sites_expressions(w, j.attributes@, s)
            } else {
                s
            };
            sites_expressions(w, j.children@, s)
        },
        Expression::Shared(e) => sites_expression(w, unshared(e), s),
        Expression::Other(x) => sites_expressions(w, x.children@, s),
    }
}

pub open spec fn sites_expressions(w: Walk, list: Seq<Expression>, s: Seq<Place>) -> Seq<Place>
    decreases list, 0nat,
{
    if list.len() == 0 {
        s
    } else {
        let s = sites_expressions(w, list.drop_last(), s);
        sites_expression(w, list.last(), s)
    }
}

pub open spec fn sites_optional(w: Walk, expr: Option<Expression>, s: Seq<Place>) -> Seq<Place>
    decreases expr, 0nat,
{
    match expr {
        Some(expr) => sites_expression(w, expr, s),
        None => s,
    }
}

pub open spec fn sites_arguments(w: Walk, list: Seq<Argument>, s: Seq<Place>) -> Seq<Place>
    decreases list, 0nat,
{
    if list.len() == 0 {
        s
    } else {
        let s = sites_arguments(w, list.drop_last(), s);
        match list.last() {
            Argument::Spread(e) => sites_expression(w, e.argument, s),
            Argument::Expression(expr) => sites_expression(w, expr, s),
        }
    }
}

pub open spec fn sites_key(w: Walk, key: PropertyKey, s: Seq<Place>) -> Seq<Place>
    decreases key, 0nat,
{
    match key {
        PropertyKey::Expression(key) => sites_expression(w, key.expression, s),
        _ => s,
    }
}

pub open spec fn sites_object_properties(w: Walk, list: Seq<ObjectPropertyKind>, s: Seq<Place>) -> Seq<Place>
    decreases list, 0nat,
{
    if list.len() == 0 {
        s
    } else {
        let s = sites_object_properties(w, list.drop_last(), s);
        match list.last() {
            ObjectPropertyKind::ObjectProperty(p) => sites_expression(
                w,
                p.value,
                sites_key(w, p.key, s),
            ),
            ObjectPropertyKind::SpreadProperty(expr) => sites_expression(w, expr, s),
        }
    }
}

pub open spec fn sites_function(w: Walk, func: Function, s: Seq<Place>) -> Seq<Place>
    decreases func, 0nat,
{
    let s = sites_parameters(w, func.params, s);
    match func.body {
        Some(body) => sites_body(w, body, s),
        None => s,
    }
}

pub open spec fn sites_parameters(w: Walk, params: FormalParameters, s: Seq<Place>) -> Seq<Place>
    decreases params, 0nat,
{
    let s = sites_patterns(w, params.items@, sites_expressions(w, params.decorators@, s));
    match params.rest {
        Some(rest) => sites_pattern(w, rest, s),
        None => s,
    }
}

pub open spec fn sites_body(w: Walk, body: FunctionBody, s: Seq<Place>) -> Seq<Place>
    decreases body, 0nat,
{
    sites_statements(w, body.statements@, s)
}

pub open spec fn sites_target(w: Walk, target: AssignmentTarget, s: Seq<Place>) -> Seq<Place>
    decreases target, 0nat,
{
    match target {
        AssignmentTarget::Identifier(_) => s,
        AssignmentTarget::StaticMember(m) => sites_expression(w, m.object, s),
        AssignmentTarget::ComputedMember(m) => sites_expression(
            w,
            m.expression,
            sites_expression(w, m.object, s),
        ),
        AssignmentTarget::PrivateField(m) => sites_expression(w, m.object, s),
        AssignmentTarget::Wrapped(x) => sites_expression(w, x.expression, s),
        AssignmentTarget::Array(t) => {
            let s = sites_target_elements(w, t.elements@, s);
            match t.rest {
                Some(rest) => sites_target(w, rest, s),
                None => s,
            }
        },
        AssignmentTarget::Object(t) => {
            let s = sites_target_properties(w, t.properties@, s);
            match t.rest {
                Some(rest) => sites_target(w, rest, s),
                None => s,
            }
        },
    }
}

pub open spec fn sites_maybe_default(w: Walk, target: AssignmentTargetMaybeDefault, s: Seq<Place>) -> Seq<Place>
    decreases target, 0nat,
{
    sites_optional(w, target.init, sites_target(w, target.binding, s))
}

pub open spec fn sites_target_elements(w: Walk, list: Seq<Option<AssignmentTargetMaybeDefault>>, s: Seq<Place>) -> Seq<Place>
    decreases list, 0nat,
{
    if list.len() == 0 {
        s
    } else {
        let s = sites_target_elements(w, list.drop_last(), s);
        match list.last() {
            Some(t) => sites_maybe_default(w, t, s),
            None => s,
        }
    }
}

pub open spec fn sites_target_properties(w: Walk, list: Seq<AssignmentTargetProperty>, s: Seq<Place>) -> Seq<Place>
    decreases list, 0nat,
{
    if list.len() == 0 {
        s
    } else {
        let s = sites_target_properties(w, list.drop_last(), s);
        match list.last() {
            AssignmentTargetProperty::Identifier(p) => sites_optional(w, p.init, s),
            AssignmentTargetProperty::Property(p) => sites_maybe_default(
                w,
                p.binding,
                sites_key(w, p.name, s),
            ),
        }
    }
}

pub open spec fn sites_pattern(w: Walk, pattern: BindingPattern, s: Seq<Place>) -> Seq<Place>
    decreases pattern, 0nat,
{
    match pattern {
        BindingPattern::Identifier(_) => s,
        BindingPattern::Object(p) => {
            let s = sites_pattern_properties(w, p.properties@, s);
            match p.rest {
                Some(rest) => sites_pattern(w, rest, s),
                None => s,
            }
        },
        BindingPattern::Array(p) => {
            let s = sites_pattern_elements(w, p.elements@, s);
            match p.rest {
                Some(rest) => sites_pattern(w, rest, s),
                None => s,
            }
        },
        BindingPattern::Assignment(p) => sites_expression(w, p.right, sites_pattern(w, p.left, s)),
    }
}

pub open spec fn sites_patterns(w: Walk, list: Seq<BindingPattern>, s: Seq<Place>) -> Seq<Place>
    decreases list, 0nat,
{
    if list.len() == 0 {
        s
    } else {
        let s = sites_patterns(w, list.drop_last(), s);
        sites_pattern(w, list.last(), s)
    }
}

pub open spec fn sites_pattern_properties(w: Walk, list: Seq<BindingProperty>, s: Seq<Place>) -> Seq<Place>
    decreases list, 0nat,
{
    if list.len() == 0 {
        s
    } else {
        let s = sites_pattern_properties(w, list.drop_last(), s);
        sites_pattern(w, list.last().value, sites_key(w, list.last().key, s))
    }
}

pub open spec fn sites_pattern_elements(w: Walk, list: Seq<Option<BindingPattern>>, s: Seq<Place>) -> Seq<Place>
    decreases list, 0nat,
{
    if list.len() == 0 {
        s
    } else {
        let s = sites_pattern_elements(w, list.drop_last(), s);
        match list.last() {
            Some(pattern) => sites_pattern(w, pattern, s),
            None => s,
        }
    }
}

pub open spec fn sites_class(w: Walk, class: Class, s: Seq<Place>) -> Seq<Place>
    decreases class, 0nat,
{
    sites_class_elements(
        w,
        class.body@,
        sites_optional(w, class.super_class, sites_expressions(w, class.decorators@, s)),
    )
}

pub open spec fn sites_class_elements(w: Walk, list: Seq<ClassElement>, s: Seq<Place>) -> Seq<Place>
    decreases list, 0nat,
{
    if list.len() == 0 {
        s
    } else {
        let s = sites_class_elements(w, list.drop_last(), s);
        match list.last() {
            ClassElement::StaticBlock(b) => sites_statements(w, b.body@, s),
            ClassElement::MethodDefinition(m) => sites_function(
                w,
                m.value,
                sites_key(w, m.key, sites_expressions(w, m.decorators@, s)),
            ),
            ClassElement::PropertyDefinition(p) => sites_optional(
                w,
                p.value,
                sites_key(w, p.key, sites_expressions(w, p.decorators@, s)),
            ),
            ClassElement::AccessorProperty(p) => sites_optional(
                w,
                p.value,
                sites_key(w, p.key, sites_expressions(w, p.decorators@, s)),
            ),
            ClassElement::IndexSignature(_) => s,
        }
    }
}

pub open spec fn sites_declarator(w: Walk, d: VariableDeclarator, s: Seq<Place>) -> Seq<Place>
    decreases d, 0nat,
{
    if !w.only_required {
        sites_optional(w, d.init, sites_pattern(w, d.id, s))
    } else if is_required(d) {
        sites_optional(w, d.init, sites_pattern(w, d.id, s.push(Place::Required(d))))
    } else {
        s
    }
}

pub open spec fn sites_declarators(w: Walk, list: Seq<VariableDeclarator>, s: Seq<Place>) -> Seq<Place>
    decreases list, 0nat,
{
    if list.len() == 0 {
        s
    } else {
        let s = sites_declarators(w, list.drop_last(), s);
        sites_declarator(w, list.last(), s)
    }
}

pub open spec fn sites_declaration(w: Walk, declaration: Declaration, s: Seq<Place>) -> Seq<Place>
    decreases declaration, 0nat,
{
    match declaration {
        Declaration::Variable(d) => sites_declarators(w, d.declarations@, s),
        Declaration::Function(f) => sites_function(w, *f, s),
        Declaration::Class(c) => sites_class(w, *c, s),
        Declaration::TypeOnly(_) => s,
    }
}

pub open spec fn sites_for_each(w: Walk, stmt: ForEachStatement, s: Seq<Place>) -> Seq<Place>
    decreases stmt, 0nat,
{
    let s = match stmt.left {
        ForStatementLeft::VariableDeclaration(d) => sites_declarators(w, d.declarations@, s),
        ForStatementLeft::AssignmentTarget(target) => sites_target(w, target, s),
    };
    sites_statement(w, stmt.body, sites_expression(w, stmt.right, s))
}

pub open spec fn sites_statement(w: Walk, stmt: Statement, s: Seq<Place>) -> Seq<Place>
    decreases stmt, 0nat,
{
    match stmt {
        Statement::Expression(e) => sites_expression(w, e.expression, s),
        Statement::Declaration(d) => sites_declaration(w, d, s),
        Statement::Import(i) => s.push(Place::Import(i)),
        Statement::ExportAll(_) => s,
        Statement::ExportNamed(e) => match e.declaration {
            Some(d) => sites_declaration(w, d, s),
            None => s,
        },
        Statement::ExportDefault(e) => match e.declaration {
            ExportDefaultDeclarationKind::Expression(expr) => sites_expression(w, expr, s),
            ExportDefaultDeclarationKind::Function(f) => sites_function(w, *f, s),
            ExportDefaultDeclarationKind::Class(c) => sites_class(w, *c, s),
            ExportDefaultDeclarationKind::TypeOnly(_) => s,
        },
        Statement::Return(r) => sites_optional(w, r.argument, s),
        Statement::Try(t) => {
            let s = sites_statements(w, t.block.body@, s);
            let s = match t.handler {
                Some(h) => {
                    let s = match h.param {
                        Some(p) => sites_pattern(w, p, s),
                        None => s,
                    };
                    sites_statements(w, h.body.body@, s)
                },
                None => s,
            };
            match t.finalizer {
                Some(b) => sites_statements(w, b.body@, s),
                None => s,
            }
        },
        Statement::Block(b) => sites_statements(w, b.body@, s),
        Statement::If(i) => {
            let s = sites_statement(w, i.consequent, sites_expression(w, i.test, s));
            match i.alternate {
                Some(a) => sites_statement(w, a, s),
                None => s,
            }
        },
        Statement::For(l) => {
            let s = match l.init {
                Some(ForStatementInit::VariableDeclaration(d)) => sites_declarators(
                    w,
                    d.declarations@,
                    s,
                ),
                Some(ForStatementInit::Expression(expr)) => sites_expression(w, expr, s),
                None => s,
            };
            sites_statement(w, l.body, sites_optional(w, l.update, sites_optional(w, l.test, s)))
        },
        Statement::While(l) => sites_statement(w, l.body, sites_expression(w, l.test, s)),
        Statement::ForIn(l) => sites_for_each(w, *l, s),
        Statement::ForOf(l) => sites_for_each(w, *l, s),
        Statement::Other(x) => sites_children(w, x.children@, s),
    }
}

pub open spec fn sites_statements(w: Walk, list: Seq<Statement>, s: Seq<Place>) -> Seq<Place>
    decreases list, 0nat,
{
    if list.len() == 0 {
        s
    } else {
        let s = sites_statements(w, list.drop_last(), s);
        sites_statement(w, list.last(), s)
    }
}

pub open spec fn sites_children(w: Walk, list: Seq<StatementChild>, s: Seq<Place>) -> Seq<Place>
    decreases list, 0nat,
{
    if list.len() == 0 {
        s
    } else {
        let s = sites_children(w, list.drop_last(), s);
        match list.last() {
            StatementChild::Expression(expr) => sites_expression(w, expr, s),
            StatementChild::Statement(stmt) => sites_statement(w, stmt, s),
            StatementChild::BindingPattern(pattern) => sites_pattern(w, pattern, s),
        }
    }
}

/// A walk, with what it has met.
#[derive(Debug)]
struct SiteVisitor<'a> {
    walk: Walk,
    sites: Vec<Site<'a>>,
}

impl<'a> View for SiteVisitor<'a> {
    type V = Seq<Place>;

    closed spec fn view(&self) -> Seq<Place> {
        places(self.sites@)
    }
}

impl<'a> SiteVisitor<'a> {
    /// Meets a place.
    fn add_site(&mut self, site: Site<'a>)
        ensures
            final(self).walk == old(self).walk,
            final(self)@ == old(self)@.push(site@),
    {
        let ghost before = self.sites@;
        self.sites.push(site);
        proof {
            assert(places(self.sites@) =~= places(before).push(site@));
        }
    }

    /// An expression.
    fn visit_expression(&mut self, expr: &'a Expression)
        ensures
            final(self).walk == old(self).walk,
            final(self)@ == sites_expression(old(self).walk, *expr, old(self)@),
        decreases expr, 0nat,
    {
        match expr {
            Expression::Identifier(_)
            | Expression::This(_)
            | Expression::StringLiteral(_)
            | Expression::NumericLiteral(_)
            | Expression::BooleanLiteral(_)
            | Expression::MetaProperty(_) => {},
            Expression::TemplateLiteral(t) => self.visit_expressions(&t.expressions),
            Expression::StaticMember(m) => self.visit_expression(&m.object),
            Expression::ComputedMember(m) => {
                self.visit_expression(&m.object);
                self.visit_expression(&m.expression);
            },
            Expression::PrivateField(m) => self.visit_expression(&m.object),
            Expression::Call(c) => {
                self.visit_expression(&c.callee);
                self.visit_arguments(&c.arguments);
                self.add_site(Site::Call(c));
            },
            Expression::Function(f) => self.visit_function(f),
            Expression::Arrow(a) => {
                self.visit_parameters(&a.params);
                self.visit_body(&a.body);
            },
            Expression::Class(c) => self.visit_class(c),
            Expression::Assignment(a) => {
                self.visit_target(&a.left);
                self.visit_expression(&a.right);
            },
            Expression::Logical(l) => {
                self.visit_expression(&l.left);
                self.visit_expression(&l.right);
            },
            Expression::Conditional(c) => {
                self.visit_expression(&c.test);
                self.visit_expression(&c.consequent);
                self.visit_expression(&c.alternate);
            },
            Expression::Await(a) => self.visit_expression(&a.argument),
            Expression::Yield(y) => self.visit_optional(&y.argument),
            Expression::Object(x) => self.visit_object_properties(&x.properties),
            Expression::Array(a) => self.visit_expressions(&a.elements),
            Expression::Wrapped(x) => self.visit_expression(&x.expression),
            Expression::Jsx(j) => {
                if let Some(name) = &j.name {
                    self.add_site(Site::JsxName(name));
                }
                if self.walk.attributes {
                    self.visit_expressions(&j.attributes);
                }
                self.visit_expressions(&j.children);
            },
            Expression::Shared(e) => self.visit_expression(e),
            Expression::Other(x) => self.visit_expressions(&x.children),
        }
    }

    /// Expressions, one after the other.
    fn visit_expressions(&mut self, list: &'a Vec<Expression>)
        ensures
            final(self).walk == old(self).walk,
            final(self)@ == sites_expressions(old(self).walk, list@, old(self)@),
        decreases list, 0nat,
    {
        let ghost start = self@;
        let ghost w = self.walk;
        let mut i: usize = 0;
        proof {
            assert(list@.take(0) =~= Seq::empty());
        }
        while i < list.len()
            invariant
                i <= list@.len(),
                self.walk == w,
                self@ == sites_expressions(w, list@.take(i as int), start),
            decreases list@.len() - i,
        {
            proof {
                assert(list@.take(i + 1).drop_last() =~= list@.take(i as int));
                assert(list@.take(i + 1).last() == list@[i as int]);
            }
            self.visit_expression(&list[i]);
            i += 1;
        }
        proof {
            assert(list@.take(list@.len() as int) =~= list@);
        }
    }

    /// An expression that may be absent.
    fn visit_optional(&mut self, expr: &'a Option<Expression>)
        ensures
            final(self).walk == old(self).walk,
            final(self)@ == sites_optional(old(self).walk, *expr, old(self)@),
        decreases expr, 0nat,
    {
        if let Some(expr) = expr {
            self.visit_expression(expr);
        }
    }

    /// The arguments of a call.
    fn visit_arguments(&mut self, list: &'a Vec<Argument>)
        ensures
            final(self).walk == old(self).walk,
            final(self)@ == sites_arguments(old(self).walk, list@, old(self)@),
        decreases list, 0nat,
    {
        let ghost start = self@;
        let ghost w = self.walk;
        let mut i: usize = 0;
        proof {
            assert(list@.take(0) =~= Seq::empty());
        }
        while i < list.len()
            invariant
                i <= list@.len(),
                self.walk == w,
                self@ == sites_arguments(w, list@.take(i as int), start),
            decreases list@.len() - i,
        {
            proof {
                assert(list@.take(i + 1).drop_last() =~= list@.take(i as int));
                assert(list@.take(i + 1).last() == list@[i as int]);
            }
            match &list[i] {
                Argument::Spread(e) => self.visit_expression(&e.argument),
                Argument::Expression(expr) => self.visit_expression(expr),
            }
            i += 1;
        }
        proof {
            assert(list@.take(list@.len() as int) =~= list@);
        }
    }

    /// A key.
    fn visit_key(&mut self, key: &'a PropertyKey)
        ensures
            final(self).walk == old(self).walk,
            final(self)@ == sites_key(old(self).walk, *key, old(self)@),
        decreases key, 0nat,
    {
        match key {
            PropertyKey::Expression(key) => self.visit_expression(&key.expression),
            _ => {},
        }
    }

    /// The properties of an object.
    fn visit_object_properties(&mut self, list: &'a Vec<ObjectPropertyKind>)
        ensures
            final(self).walk == old(self).walk,
            final(self)@ == sites_object_properties(old(self).walk, list@, old(self)@),
        decreases list, 0nat,
    {
        let ghost start = self@;
        let ghost w = self.walk;
        let mut i: usize = 0;
        proof {
            assert(list@.take(0) =~= Seq::empty());
        }
        while i < list.len()
            invariant
                i <= list@.len(),
                self.walk == w,
                self@ == sites_object_properties(w, list@.take(i as int), start),
            decreases list@.len() - i,
        {
            proof {
                assert(list@.take(i + 1).drop_last() =~= list@.take(i as int));
                assert(list@.take(i + 1).last() == list@[i as int]);
            }
            match &list[i] {
                ObjectPropertyKind::ObjectProperty(p) => {
                    self.visit_key(&p.key);
                    self.visit_expression(&p.value);
                },
                ObjectPropertyKind::SpreadProperty(expr) => self.visit_expression(expr),
            }
            i += 1;
        }
        proof {
            assert(list@.take(list@.len() as int) =~= list@);
        }
    }

    /// A function.
    fn visit_function(&mut self, func: &'a Function)
        ensures
            final(self).walk == old(self).walk,
            final(self)@ == sites_function(old(self).walk, *func, old(self)@),
        decreases func, 0nat,
    {
        self.visit_parameters(&func.params);
        if let Some(body) = &func.body {
            self.visit_body(body);
        }
    }

    /// Parameters.
    fn visit_parameters(&mut self, params: &'a FormalParameters)
        ensures
            final(self).walk == old(self).walk,
            final(self)@ == sites_parameters(old(self).walk, *params, old(self)@),
        decreases params, 0nat,
    {
        self.visit_expressions(&params.decorators);
        self.visit_patterns(&params.items);
        if let Some(rest) = &params.rest {
            self.visit_pattern(rest);
        }
    }

    /// The body of a function.
    fn visit_body(&mut self, body: &'a FunctionBody)
        ensures
            final(self).walk == old(self).walk,
            final(self)@ == sites_body(old(self).walk, *body, old(self)@),
        decreases body, 0nat,
    {
        self.visit_statements(&body.statements);
    }

    /// A target.
    fn visit_target(&mut self, target: &'a AssignmentTarget)
        ensures
            final(self).walk == old(self).walk,
            final(self)@ == sites_target(old(self).walk, *target, old(self)@),
        decreases target, 0nat,
    {
        match target {
            AssignmentTarget::Identifier(_) => {},
            AssignmentTarget::StaticMember(m) => self.visit_expression(&m.object),
            AssignmentTarget::ComputedMember(m) => {
                self.visit_expression(&m.object);
                self.visit_expression(&m.expression);
            },
            AssignmentTarget::PrivateField(m) => self.visit_expression(&m.object),
            AssignmentTarget::Wrapped(x) => self.visit_expression(&x.expression),
            AssignmentTarget::Array(t) => {
                self.visit_target_elements(&t.elements);
                if let Some(rest) = &t.rest {
                    self.visit_target(rest);
                }
            },
            AssignmentTarget::Object(t) => {
                self.visit_target_properties(&t.properties);
                if let Some(rest) = &t.rest {
                    self.visit_target(rest);
                }
            },
        }
    }

    /// A target that may have a default.
    fn visit_maybe_default(&mut self, target: &'a AssignmentTargetMaybeDefault)
        ensures
            final(self).walk == old(self).walk,
            final(self)@ == sites_maybe_default(old(self).walk, *target, old(self)@),
        decreases target, 0nat,
    {
        self.visit_target(&target.binding);
        self.visit_optional(&target.init);
    }

    /// The elements of an array target.
    fn visit_target_elements(&mut self, list: &'a Vec<Option<AssignmentTargetMaybeDefault>>)
        ensures
            final(self).walk == old(self).walk,
            final(self)@ == sites_target_elements(old(self).walk, list@, old(self)@),
        decreases list, 0nat,
    {
        let ghost start = self@;
        let ghost w = self.walk;
        let mut i: usize = 0;
        proof {
            assert(list@.take(0) =~= Seq::empty());
        }
        while i < list.len()
            invariant
                i <= list@.len(),
                self.walk == w,
                self@ == sites_target_elements(w, list@.take(i as int), start),
            decreases list@.len() - i,
        {
            proof {
                assert(list@.take(i + 1).drop_last() =~= list@.take(i as int));
                assert(list@.take(i + 1).last() == list@[i as int]);
            }
            if let Some(element) = &list[i] {
                self.visit_maybe_default(element);
            }
            i += 1;
        }
        proof {
            assert(list@.take(list@.len() as int) =~= list@);
        }
    }

    /// The properties of an object target.
    fn visit_target_properties(&mut self, list: &'a Vec<AssignmentTargetProperty>)
        ensures
            final(self).walk == old(self).walk,
            final(self)@ == sites_target_properties(old(self).walk, list@, old(self)@),
        decreases list, 0nat,
    {
        let ghost start = self@;
        let ghost w = self.walk;
        let mut i: usize = 0;
        proof {
            assert(list@.take(0) =~= Seq::empty());
        }
        while i < list.len()
            invariant
                i <= list@.len(),
                self.walk == w,
                self@ == sites_target_properties(w, list@.take(i as int), start),
            decreases list@.len() - i,
        {
            proof {
                assert(list@.take(i + 1).drop_last() =~= list@.take(i as int));
                assert(list@.take(i + 1).last() == list@[i as int]);
            }
            match &list[i] {
                AssignmentTargetProperty::Identifier(p) => self.visit_optional(&p.init),
                AssignmentTargetProperty::Property(p) => {
                    self.visit_key(&p.name);
                    self.visit_maybe_default(&p.binding);
                },
            }
            i += 1;
        }
        proof {
            assert(list@.take(list@.len() as int) =~= list@);
        }
    }

    /// A pattern.
    fn visit_pattern(&mut self, pattern: &'a BindingPattern)
        ensures
            final(self).walk == old(self).walk,
            final(self)@ == sites_pattern(old(self).walk, *pattern, old(self)@),
        decreases pattern, 0nat,
    {
        match pattern {
            BindingPattern::Identifier(_) => {},
            BindingPattern::Object(p) => {
                self.visit_pattern_properties(&p.properties);
                if let Some(rest) = &p.rest {
                    self.visit_pattern(rest);
                }
            },
            BindingPattern::Array(p) => {
                self.visit_pattern_elements(&p.elements);
                if let Some(rest) = &p.rest {
                    self.visit_pattern(rest);
                }
            },
            BindingPattern::Assignment(p) => {
                self.visit_pattern(&p.left);
                self.visit_expression(&p.right);
            },
        }
    }

    /// Patterns, one after the other.
    fn visit_patterns(&mut self, list: &'a Vec<BindingPattern>)
        ensures
            final(self).walk == old(self).walk,
            final(self)@ == sites_patterns(old(self).walk, list@, old(self)@),
        decreases list, 0nat,
    {
        let ghost start = self@;
        let ghost w = self.walk;
        let mut i: usize = 0;
        proof {
            assert(list@.take(0) =~= Seq::empty());
        }
        while i < list.len()
            invariant
                i <= list@.len(),
                self.walk == w,
                self@ == sites_patterns(w, list@.take(i as int), start),
            decreases list@.len() - i,
        {
            proof {
                assert(list@.take(i + 1).drop_last() =~= list@.take(i as int));
                assert(list@.take(i + 1).last() == list@[i as int]);
            }
            self.visit_pattern(&list[i]);
            i += 1;
        }
        proof {
            assert(list@.take(list@.len() as int) =~= list@);
        }
    }

    /// The properties of a pattern.
    fn visit_pattern_properties(&mut self, list: &'a Vec<BindingProperty>)
        ensures
            final(self).walk == old(self).walk,
            final(self)@ == sites_pattern_properties(old(self).walk, list@, old(self)@),
        decreases list, 0nat,
    {
        let ghost start = self@;
        let ghost w = self.walk;
        let mut i: usize = 0;
        proof {
            assert(list@.take(0) =~= Seq::empty());
        }
        while i < list.len()
            invariant
                i <= list@.len(),
                self.walk == w,
                self@ == sites_pattern_properties(w, list@.take(i as int), start),
            decreases list@.len() - i,
        {
            proof {
                assert(list@.take(i + 1).drop_last() =~= list@.take(i as int));
                assert(list@.take(i + 1).last() == list@[i as int]);
            }
            self.visit_key(&list[i].key);
            self.visit_pattern(&list[i].value);
            i += 1;
        }
        proof {
            assert(list@.take(list@.len() as int) =~= list@);
        }
    }

    /// The elements of a pattern.
    fn visit_pattern_elements(&mut self, list: &'a Vec<Option<BindingPattern>>)
        ensures
            final(self).walk == old(self).walk,
            final(self)@ == sites_pattern_elements(old(self).walk, list@, old(self)@),
        decreases list, 0nat,
    {
        let ghost start = self@;
        let ghost w = self.walk;
        let mut i: usize = 0;
        proof {
            assert(list@.take(0) =~= Seq::empty());
        }
        while i < list.len()
            invariant
                i <= list@.len(),
                self.walk == w,
                self@ == sites_pattern_elements(w, list@.take(i as int), start),
            decreases list@.len() - i,
        {
            proof {
                assert(list@.take(i + 1).drop_last() =~= list@.take(i as int));
                assert(list@.take(i + 1).last() == list@[i as int]);
            }
            if let Some(pattern) = &list[i] {
                self.visit_pattern(pattern);
            }
            i += 1;
        }
        proof {
            assert(list@.take(list@.len() as int) =~= list@);
        }
    }

    /// A class.
    fn visit_class(&mut self, class: &'a Class)
        ensures
            final(self).walk == old(self).walk,
            final(self)@ == sites_class(old(self).walk, *class, old(self)@),
        decreases class, 0nat,
    {
        self.visit_expressions(&class.decorators);
        self.visit_optional(&class.super_class);
        self.visit_class_elements(&class.body);
    }

    /// The members of a class.
    fn visit_class_elements(&mut self, list: &'a Vec<ClassElement>)
        ensures
            final(self).walk == old(self).walk,
            final(self)@ == sites_class_elements(old(self).walk, list@, old(self)@),
        decreases list, 0nat,
    {
        let ghost start = self@;
        let ghost w = self.walk;
        let mut i: usize = 0;
        proof {
            assert(list@.take(0) =~= Seq::empty());
        }
        while i < list.len()
            invariant
                i <= list@.len(),
                self.walk == w,
                self@ == sites_class_elements(w, list@.take(i as int), start),
            decreases list@.len() - i,
        {
            proof {
                assert(list@.take(i + 1).drop_last() =~= list@.take(i as int));
                assert(list@.take(i + 1).last() == list@[i as int]);
            }
            match &list[i] {
                ClassElement::StaticBlock(b) => self.visit_statements(&b.body),
                ClassElement::MethodDefinition(m) => {
                    self.visit_expressions(&m.decorators);
                    self.visit_key(&m.key);
                    self.visit_function(&m.value);
                },
                ClassElement::PropertyDefinition(p) => {
                    self.visit_expressions(&p.decorators);
                    self.visit_key(&p.key);
                    self.visit_optional(&p.value);
                },
                ClassElement::AccessorProperty(p) => {
                    self.visit_expressions(&p.decorators);
                    self.visit_key(&p.key);
                    self.visit_optional(&p.value);
                },
                ClassElement::IndexSignature(_) => {},
            }
            i += 1;
        }
        proof {
            assert(list@.take(list@.len() as int) =~= list@);
        }
    }

    /// A declared variable.
    fn visit_declarator(&mut self, d: &'a VariableDeclarator)
        ensures
            final(self).walk == old(self).walk,
            final(self)@ == sites_declarator(old(self).walk, *d, old(self)@),
        decreases d, 0nat,
    {
        if self.walk.only_required {
            let Some(source) = required_source(d) else {
                return;
            };
            if jsx_methods(source).is_none() {
                return;
            }
            self.add_site(Site::Required(d));
        }
        self.visit_pattern(&d.id);
        self.visit_optional(&d.init);
    }

    /// Declared variables, one after the other.
    fn visit_declarators(&mut self, list: &'a Vec<VariableDeclarator>)
        ensures
            final(self).walk == old(self).walk,
            final(self)@ == sites_declarators(old(self).walk, list@, old(self)@),
        decreases list, 0nat,
    {
        let ghost start = self@;
        let ghost w = self.walk;
        let mut i: usize = 0;
        proof {
            assert(list@.take(0) =~= Seq::empty());
        }
        while i < list.len()
            invariant
                i <= list@.len(),
                self.walk == w,
                self@ == sites_declarators(w, list@.take(i as int), start),
            decreases list@.len() - i,
        {
            proof {
                assert(list@.take(i + 1).drop_last() =~= list@.take(i as int));
                assert(list@.take(i + 1).last() == list@[i as int]);
            }
            self.visit_declarator(&list[i]);
            i += 1;
        }
        proof {
            assert(list@.take(list@.len() as int) =~= list@);
        }
    }

    /// A declaration.
    fn visit_declaration(&mut self, declaration: &'a Declaration)
        ensures
            final(self).walk == old(self).walk,
            final(self)@ == sites_declaration(old(self).walk, *declaration, old(self)@),
        decreases declaration, 0nat,
    {
        match declaration {
            Declaration::Variable(d) => self.visit_declarators(&d.declarations),
            Declaration::Function(f) => self.visit_function(f),
            Declaration::Class(c) => self.visit_class(c),
            Declaration::TypeOnly(_) => {},
        }
    }

    /// A loop over the members of a value.
    fn visit_for_each(&mut self, stmt: &'a ForEachStatement)
        ensures
            final(self).walk == old(self).walk,
            final(self)@ == sites_for_each(old(self).walk, *stmt, old(self)@),
        decreases stmt, 0nat,
    {
        match &stmt.left {
            ForStatementLeft::VariableDeclaration(d) => self.visit_declarators(&d.declarations),
            ForStatementLeft::AssignmentTarget(target) => self.visit_target(target),
        }
        self.visit_expression(&stmt.right);
        self.visit_statement(&stmt.body);
    }

    /// A statement.
    fn visit_statement(&mut self, stmt: &'a Statement)
        ensures
            final(self).walk == old(self).walk,
            final(self)@ == sites_statement(old(self).walk, *stmt, old(self)@),
        decreases stmt, 0nat,
    {
        match stmt {
            Statement::Expression(e) => self.visit_expression(&e.expression),
            Statement::Declaration(d) => self.visit_declaration(d),
            Statement::Import(i) => self.add_site(Site::Import(i)),
            Statement::ExportAll(_) => {},
            Statement::ExportNamed(e) => {
                if let Some(d) = &e.declaration {
                    self.visit_declaration(d);
                }
            },
            Statement::ExportDefault(e) => match &e.declaration {
                ExportDefaultDeclarationKind::Expression(expr) => self.visit_expression(expr),
                ExportDefaultDeclarationKind::Function(f) => self.visit_function(f),
                ExportDefaultDeclarationKind::Class(c) => self.visit_class(c),
                ExportDefaultDeclarationKind::TypeOnly(_) => {},
            },
            Statement::Return(r) => self.visit_optional(&r.argument),
            Statement::Try(t) => {
                self.visit_statements(&t.block.body);
                if let Some(h) = &t.handler {
                    if let Some(p) = &h.param {
                        self.visit_pattern(p);
                    }
                    self.visit_statements(&h.body.body);
                }
                if let Some(b) = &t.finalizer {
                    self.visit_statements(&b.body);
                }
            },
            Statement::Block(b) => self.visit_statements(&b.body),
            Statement::If(x) => {
                self.visit_expression(&x.test);
                self.visit_statement(&x.consequent);
                if let Some(alternate) = &x.alternate {
                    self.visit_statement(alternate);
                }
            },
            Statement::For(x) => {
                match &x.init {
                    Some(ForStatementInit::VariableDeclaration(d)) => {
                        self.visit_declarators(&d.declarations);
                    },
                    Some(ForStatementInit::Expression(expr)) => self.visit_expression(expr),
                    None => {},
                }
                self.visit_optional(&x.test);
                self.visit_optional(&x.update);
                self.visit_statement(&x.body);
            },
            Statement::While(x) => {
                self.visit_expression(&x.test);
                self.visit_statement(&x.body);
            },
            Statement::ForIn(x) => self.visit_for_each(x),
            Statement::ForOf(x) => self.visit_for_each(x),
            Statement::Other(x) => self.visit_children(&x.children),
        }
    }

    /// Statements, one after the other.
    fn visit_statements(&mut self, list: &'a Vec<Statement>)
        ensures
            final(self).walk == old(self).walk,
            final(self)@ == sites_statements(old(self).walk, list@, old(self)@),
        decreases list, 0nat,
    {
        let ghost start = self@;
        let ghost w = self.walk;
        let mut i: usize = 0;
        proof {
            assert(list@.take(0) =~= Seq::empty());
        }
        while i < list.len()
            invariant
                i <= list@.len(),
                self.walk == w,
                self@ == sites_statements(w, list@.take(i as int), start),
            decreases list@.len() - i,
        {
            proof {
                assert(list@.take(i + 1).drop_last() =~= list@.take(i as int));
                assert(list@.take(i + 1).last() == list@[i as int]);
            }
            self.visit_statement(&list[i]);
            i += 1;
        }
        proof {
            assert(list@.take(list@.len() as int) =~= list@);
        }
    }

    /// What a statement of no form of its own holds.
    fn visit_children(&mut self, list: &'a Vec<StatementChild>)
        ensures
            final(self).walk == old(self).walk,
            final(self)@ == sites_children(old(self).walk, list@, old(self)@),
        decreases list, 0nat,
    {
        let ghost start = self@;
        let ghost w = self.walk;
        let mut i: usize = 0;
        proof {
            assert(list@.take(0) =~= Seq::empty());
        }
        while i < list.len()
            invariant
                i <= list@.len(),
                self.walk == w,
                self@ == sites_children(w, list@.take(i as int), start),
            decreases list@.len() - i,
        {
            proof {
                assert(list@.take(i + 1).drop_last() =~= list@.take(i as int));
                assert(list@.take(i + 1).last() == list@[i as int]);
            }
            match &list[i] {
                StatementChild::Expression(expr) => self.visit_expression(expr),
                StatementChild::Statement(stmt) => self.visit_statement(stmt),
                StatementChild::BindingPattern(pattern) => self.visit_pattern(pattern),
            }
            i += 1;
        }
        proof {
            assert(list@.take(list@.len() as int) =~= list@);
        }
    }
}

/// The places of a program, in the order of the walk.
pub open spec fn sites_of(w: Walk, body: Seq<Statement>) -> Seq<Place> {
    sites_statements(w, body, Seq::empty())
}

/// The places of a program, in the order of the walk.
pub fn collect_sites<'a>(walk: Walk, body: &'a Vec<Statement>) -> (r: Vec<Site<'a>>)
    ensures
        places(r@) == sites_of(walk, body@),
{
    let mut visitor = SiteVisitor { walk, sites: Vec::new() };
    proof {
        assert(visitor@ =~= Seq::empty());
    }
    visitor.visit_statements(body);
    visitor.sites
}

} // verus!

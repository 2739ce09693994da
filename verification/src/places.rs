//! What a program holds: every import, every call, every name of an element, and every variable
//! that a call of `require` loads, however deep it stands.

use crate::ast::{
    Argument, AssignmentTarget, AssignmentTargetMaybeDefault, AssignmentTargetProperty,
    BindingPattern, BindingProperty, Class, ClassElement, Declaration,
    ExportDefaultDeclarationKind, Expression, ForEachStatement, ForStatementInit, ForStatementLeft,
    FormalParameters, Function, FunctionBody, ObjectPropertyKind, PropertyKey, Statement,
    StatementChild, VariableDeclarator, unshared,
};
use crate::sites::{
    Place, Walk, sites_arguments, sites_body, sites_children, sites_class, sites_class_elements,
    sites_declaration, sites_declarator, sites_declarators, sites_expression, sites_expressions,
    sites_for_each, sites_function, sites_key, sites_maybe_default, sites_object_properties,
    sites_optional, sites_parameters, sites_pattern, sites_pattern_elements,
    sites_pattern_properties, sites_patterns, sites_statement, sites_statements, sites_target,
    sites_target_elements, sites_target_properties, sites_of, spec_jsx_methods,
    spec_required_source,
};
use vstd::prelude::*;

verus! {

/// The text that `require` is called with for a variable.
pub open spec fn is_loaded_from(d: VariableDeclarator, source: Seq<char>) -> bool {
    &&& d.init matches Some(Expression::Call(call)) && call.arguments@.len() > 0 && (
    call.arguments@[0] matches Argument::Expression(Expression::StringLiteral(s)) && s.value@
        == source) && (call.callee.spec_inner_expression() matches Expression::Identifier(ident)
        && ident.name@ == "require"@)
}

/// A module has a function that makes elements.
pub open spec fn makes_elements(source: Seq<char>, method: Seq<char>) -> bool {
    ||| source == "react/jsx-runtime"@ && (method == "jsx"@ || method == "jsxs"@)
    ||| source == "react/jsx-dev-runtime"@ && method == "jsxDEV"@
    ||| source == "react"@ && method == "createElement"@
}

/// A variable is loaded from one of the modules that make elements.
pub open spec fn loads_elements(d: VariableDeclarator) -> bool {
    ||| is_loaded_from(d, "react/jsx-runtime"@)
    ||| is_loaded_from(d, "react/jsx-dev-runtime"@)
    ||| is_loaded_from(d, "react"@)
}

/// A variable is loaded from the module that a call of `require` names, and from no other.
pub proof fn law_loaded_modules(d: VariableDeclarator, source: Seq<char>)
    ensures
        spec_required_source(d) == Some(source) <==> is_loaded_from(d, source),
        crate::sites::is_required(d) <==> loads_elements(d),
{
}

/// The functions of a module that make elements are these, and other modules have none.
pub proof fn law_functions_that_make_elements(source: Seq<char>, method: Seq<char>)
    ensures
        (spec_jsx_methods(source) matches Some(methods) && methods.contains(method))
            <==> makes_elements(source, method),
        spec_jsx_methods(source) is Some <==> source == "react/jsx-runtime"@ || source
            == "react/jsx-dev-runtime"@ || source == "react"@,
{
    if let Some(methods) = spec_jsx_methods(source) {
        reveal_strlit("react/jsx-runtime");
        reveal_strlit("react/jsx-dev-runtime");
        reveal_strlit("react");
        assert("react/jsx-runtime"@.len() == 17);
        assert("react/jsx-dev-runtime"@.len() == 21);
        assert("react"@.len() == 5);
        if makes_elements(source, method) {
            if method == methods[0] {
                assert(methods.contains(methods[0]));
            } else {
                assert(methods.contains(methods[1]));
            }
        }
    }
}

/// One more place.
proof fn lemma_push(s: Seq<Place>, one: Place, p: Place)
    ensures
        s.push(one).contains(p) <==> s.contains(p) || p == one,
{
    let t = s.push(one);
    assert(t[s.len() as int] == one);
    if s.contains(p) {
        let i = choose|i: int| 0 <= i < s.len() && s[i] == p;
        assert(t[i] == p);
    }
    if t.contains(p) && p != one {
        let i = choose|i: int| 0 <= i < t.len() && t[i] == p;
        assert(s[i] == p);
    }
}

/// Whether a place is in an expression.
pub open spec fn has_expression(w: Walk, expr: Expression, p: Place) -> bool
    decreases expr, 0nat,
{
    match expr {
        Expression::TemplateLiteral(t) => has_expressions(w, t.expressions@, p),
        Expression::StaticMember(m) => has_expression(w, m.object, p),
        Expression::ComputedMember(m) => {
            ||| has_expression(w, m.object, p)
            ||| has_expression(w, m.expression, p)
        },
        Expression::PrivateField(m) => has_expression(w, m.object, p),
        Expression::Call(c) => {
            ||| has_expression(w, c.callee, p)
            ||| has_arguments(w, c.arguments@, p)
            ||| p == Place::Call(*c)
        },
        Expression::Function(f) => has_function(w, *f, p),
        Expression::Arrow(a) => has_parameters(w, a.params, p) || has_body(w, a.body, p),
        Expression::Class(c) => has_class(w, *c, p),
        Expression::Assignment(a) => has_target(w, a.left, p) || has_expression(w, a.right, p),
        Expression::Logical(l) => has_expression(w, l.left, p) || has_expression(w, l.right, p),
        Expression::Conditional(c) => {
            ||| has_expression(w, c.test, p)
            ||| has_expression(w, c.consequent, p)
            ||| has_expression(w, c.alternate, p)
        },
        Expression::Await(a) => has_expression(w, a.argument, p),
        Expression::Yield(y) => has_optional(w, y.argument, p),
        Expression::Object(o) => has_object_properties(w, o.properties@, p),
        Expression::Array(a) => has_expressions(w, a.elements@, p),
        Expression::Wrapped(x) => has_expression(w, x.expression, p),
        Expression::Jsx(j) => {
            ||| match j.name {
                Some(name) => p == Place::JsxName(name),
                None => false,
            }
            ||| if w.attributes {
                has_expressions(w, j.attributes@, p)
            } else {
                false
            }
            ||| has_expressions(w, j.children@, p)
        },
        Expression::Shared(e) => has_expression(w, unshared(e), p),
        Expression::Other(x) => has_expressions(w, x.children@, p),
        _ => false,
    }
}

/// Whether a place is in expressions.
pub open spec fn has_expressions(w: Walk, list: Seq<Expression>, p: Place) -> bool
    decreases list, 0nat,
{
    if list.len() == 0 {
        false
    } else {
        has_expressions(w, list.drop_last(), p) || has_expression(w, list.last(), p)
    }
}

/// Whether a place is in an expression that may be left out.
pub open spec fn has_optional(w: Walk, expr: Option<Expression>, p: Place) -> bool
    decreases expr, 0nat,
{
    match expr {
        Some(expr) => has_expression(w, expr, p),
        None => false,
    }
}

/// Whether a place is in arguments.
pub open spec fn has_arguments(w: Walk, list: Seq<Argument>, p: Place) -> bool
    decreases list, 0nat,
{
    if list.len() == 0 {
        false
    } else {
        ||| has_arguments(w, list.drop_last(), p)
        ||| match list.last() {
            Argument::Spread(e) => has_expression(w, e.argument, p),
            Argument::Expression(expr) => has_expression(w, expr, p),
        }
    }
}

/// Whether a place is in a key.
pub open spec fn has_key(w: Walk, key: PropertyKey, p: Place) -> bool
    decreases key, 0nat,
{
    match key {
        PropertyKey::Expression(key) => has_expression(w, key.expression, p),
        _ => false,
    }
}

/// Whether a place is in the properties of an object.
pub open spec fn has_object_properties(w: Walk, list: Seq<ObjectPropertyKind>, p: Place) -> bool
    decreases list, 0nat,
{
    if list.len() == 0 {
        false
    } else {
        ||| has_object_properties(w, list.drop_last(), p)
        ||| match list.last() {
            ObjectPropertyKind::ObjectProperty(x) => {
                ||| has_key(w, x.key, p)
                ||| has_expression(w, x.value, p)
            },
            ObjectPropertyKind::SpreadProperty(expr) => has_expression(w, expr, p),
        }
    }
}

/// Whether a place is in a function.
pub open spec fn has_function(w: Walk, func: Function, p: Place) -> bool
    decreases func, 0nat,
{
    ||| has_parameters(w, func.params, p)
    ||| match func.body {
        Some(body) => has_body(w, body, p),
        None => false,
    }
}

/// Whether a place is in parameters.
pub open spec fn has_parameters(w: Walk, params: FormalParameters, p: Place) -> bool
    decreases params, 0nat,
{
    ||| has_expressions(w, params.decorators@, p)
    ||| has_patterns(w, params.items@, p)
    ||| match params.rest {
        Some(rest) => has_pattern(w, rest, p),
        None => false,
    }
}

/// Whether a place is in the body of a function.
pub open spec fn has_body(w: Walk, body: FunctionBody, p: Place) -> bool
    decreases body, 0nat,
{
    has_statements(w, body.statements@, p)
}

/// Whether a place is in a target.
pub open spec fn has_target(w: Walk, target: AssignmentTarget, p: Place) -> bool
    decreases target, 0nat,
{
    match target {
        AssignmentTarget::Identifier(_) => false,
        AssignmentTarget::StaticMember(m) => has_expression(w, m.object, p),
        AssignmentTarget::ComputedMember(m) => {
            ||| has_expression(w, m.object, p)
            ||| has_expression(w, m.expression, p)
        },
        AssignmentTarget::PrivateField(m) => has_expression(w, m.object, p),
        AssignmentTarget::Wrapped(x) => has_expression(w, x.expression, p),
        AssignmentTarget::Array(t) => {
            ||| has_target_elements(w, t.elements@, p)
            ||| match t.rest {
                Some(rest) => has_target(w, rest, p),
                None => false,
            }
        },
        AssignmentTarget::Object(t) => {
            ||| has_target_properties(w, t.properties@, p)
            ||| match t.rest {
                Some(rest) => has_target(w, rest, p),
                None => false,
            }
        },
    }
}

/// Whether a place is in a target with a default.
pub open spec fn has_maybe_default(w: Walk, target: AssignmentTargetMaybeDefault, p: Place) -> bool
    decreases target, 0nat,
{
    has_target(w, target.binding, p) || has_optional(w, target.init, p)
}

/// Whether a place is in the elements of a target.
pub open spec fn has_target_elements(
    w: Walk,
    list: Seq<Option<AssignmentTargetMaybeDefault>>,
    p: Place,
) -> bool
    decreases list, 0nat,
{
    if list.len() == 0 {
        false
    } else {
        ||| has_target_elements(w, list.drop_last(), p)
        ||| match list.last() {
            Some(t) => has_maybe_default(w, t, p),
            None => false,
        }
    }
}

/// Whether a place is in the properties of a target.
pub open spec fn has_target_properties(
    w: Walk,
    list: Seq<AssignmentTargetProperty>,
    p: Place,
) -> bool
    decreases list, 0nat,
{
    if list.len() == 0 {
        false
    } else {
        ||| has_target_properties(w, list.drop_last(), p)
        ||| match list.last() {
            AssignmentTargetProperty::Identifier(x) => has_optional(w, x.init, p),
            AssignmentTargetProperty::Property(x) => {
                ||| has_key(w, x.name, p)
                ||| has_maybe_default(w, x.binding, p)
            },
        }
    }
}

/// Whether a place is in a pattern.
pub open spec fn has_pattern(w: Walk, pattern: BindingPattern, p: Place) -> bool
    decreases pattern, 0nat,
{
    match pattern {
        BindingPattern::Identifier(_) => false,
        BindingPattern::Object(x) => {
            ||| has_pattern_properties(w, x.properties@, p)
            ||| match x.rest {
                Some(rest) => has_pattern(w, rest, p),
                None => false,
            }
        },
        BindingPattern::Array(x) => {
            ||| has_pattern_elements(w, x.elements@, p)
            ||| match x.rest {
                Some(rest) => has_pattern(w, rest, p),
                None => false,
            }
        },
        BindingPattern::Assignment(x) => {
            ||| has_pattern(w, x.left, p)
            ||| has_expression(w, x.right, p)
        },
    }
}

/// Whether a place is in patterns.
pub open spec fn has_patterns(w: Walk, list: Seq<BindingPattern>, p: Place) -> bool
    decreases list, 0nat,
{
    if list.len() == 0 {
        false
    } else {
        has_patterns(w, list.drop_last(), p) || has_pattern(w, list.last(), p)
    }
}

/// Whether a place is in the properties of a pattern.
pub open spec fn has_pattern_properties(w: Walk, list: Seq<BindingProperty>, p: Place) -> bool
    decreases list, 0nat,
{
    if list.len() == 0 {
        false
    } else {
        ||| has_pattern_properties(w, list.drop_last(), p)
        ||| has_key(w, list.last().key, p)
        ||| has_pattern(w, list.last().value, p)
    }
}

/// Whether a place is in the elements of a pattern.
pub open spec fn has_pattern_elements(w: Walk, list: Seq<Option<BindingPattern>>, p: Place) -> bool
    decreases list, 0nat,
{
    if list.len() == 0 {
        false
    } else {
        ||| has_pattern_elements(w, list.drop_last(), p)
        ||| match list.last() {
            Some(pattern) => has_pattern(w, pattern, p),
            None => false,
        }
    }
}

/// Whether a place is in a class.
pub open spec fn has_class(w: Walk, class: Class, p: Place) -> bool
    decreases class, 0nat,
{
    ||| has_expressions(w, class.decorators@, p)
    ||| has_optional(w, class.super_class, p)
    ||| has_class_elements(w, class.body@, p)
}

/// Whether a place is in the elements of a class.
pub open spec fn has_class_elements(w: Walk, list: Seq<ClassElement>, p: Place) -> bool
    decreases list, 0nat,
{
    if list.len() == 0 {
        false
    } else {
        ||| has_class_elements(w, list.drop_last(), p)
        ||| match list.last() {
            ClassElement::StaticBlock(b) => has_statements(w, b.body@, p),
            ClassElement::MethodDefinition(m) => {
                ||| has_expressions(w, m.decorators@, p)
                ||| has_key(w, m.key, p)
                ||| has_function(w, m.value, p)
            },
            ClassElement::PropertyDefinition(x) => {
                ||| has_expressions(w, x.decorators@, p)
                ||| has_key(w, x.key, p)
                ||| has_optional(w, x.value, p)
            },
            ClassElement::AccessorProperty(x) => {
                ||| has_expressions(w, x.decorators@, p)
                ||| has_key(w, x.key, p)
                ||| has_optional(w, x.value, p)
            },
            ClassElement::IndexSignature(_) => false,
        }
    }
}

/// Whether a place is in a declared variable. A walk for loaded variables alone goes into no other.
pub open spec fn has_declarator(w: Walk, d: VariableDeclarator, p: Place) -> bool
    decreases d, 0nat,
{
    if !w.only_required {
        has_pattern(w, d.id, p) || has_optional(w, d.init, p)
    } else {
        if loads_elements(d) {
            p == Place::Required(d) || has_pattern(w, d.id, p) || has_optional(w, d.init, p)
        } else {
            false
        }
    }
}

/// Whether a place is in declared variables.
pub open spec fn has_declarators(w: Walk, list: Seq<VariableDeclarator>, p: Place) -> bool
    decreases list, 0nat,
{
    if list.len() == 0 {
        false
    } else {
        has_declarators(w, list.drop_last(), p) || has_declarator(w, list.last(), p)
    }
}

/// Whether a place is in a declaration.
pub open spec fn has_declaration(w: Walk, declaration: Declaration, p: Place) -> bool
    decreases declaration, 0nat,
{
    match declaration {
        Declaration::Variable(d) => has_declarators(w, d.declarations@, p),
        Declaration::Function(f) => has_function(w, *f, p),
        Declaration::Class(c) => has_class(w, *c, p),
        Declaration::TypeOnly(_) => false,
    }
}

/// Whether a place is in a loop over members.
pub open spec fn has_for_each(w: Walk, stmt: ForEachStatement, p: Place) -> bool
    decreases stmt, 0nat,
{
    ||| match stmt.left {
        ForStatementLeft::VariableDeclaration(d) => has_declarators(w, d.declarations@, p),
        ForStatementLeft::AssignmentTarget(target) => has_target(w, target, p),
    }
    ||| has_expression(w, stmt.right, p)
    ||| has_statement(w, stmt.body, p)
}

/// Whether a place is in a statement.
pub open spec fn has_statement(w: Walk, stmt: Statement, p: Place) -> bool
    decreases stmt, 0nat,
{
    match stmt {
        Statement::Expression(e) => has_expression(w, e.expression, p),
        Statement::Declaration(d) => has_declaration(w, d, p),
        Statement::Import(i) => p == Place::Import(i),
        Statement::ExportAll(_) => false,
        Statement::ExportNamed(e) => match e.declaration {
            Some(d) => has_declaration(w, d, p),
            None => false,
        },
        Statement::ExportDefault(e) => match e.declaration {
            ExportDefaultDeclarationKind::Expression(expr) => has_expression(w, expr, p),
            ExportDefaultDeclarationKind::Function(f) => has_function(w, *f, p),
            ExportDefaultDeclarationKind::Class(c) => has_class(w, *c, p),
            ExportDefaultDeclarationKind::TypeOnly(_) => false,
        },
        Statement::Return(r) => has_optional(w, r.argument, p),
        Statement::Try(t) => {
            ||| has_statements(w, t.block.body@, p)
            ||| match t.handler {
                Some(h) => {
                    ||| match h.param {
                        Some(x) => has_pattern(w, x, p),
                        None => false,
                    }
                    ||| has_statements(w, h.body.body@, p)
                },
                None => false,
            }
            ||| match t.finalizer {
                Some(b) => has_statements(w, b.body@, p),
                None => false,
            }
        },
        Statement::Block(b) => has_statements(w, b.body@, p),
        Statement::If(i) => {
            ||| has_expression(w, i.test, p)
            ||| has_statement(w, i.consequent, p)
            ||| match i.alternate {
                Some(a) => has_statement(w, a, p),
                None => false,
            }
        },
        Statement::For(l) => {
            ||| match l.init {
                Some(ForStatementInit::VariableDeclaration(d)) => has_declarators(
                    w,
                    d.declarations@,
                    p,
                ),
                Some(ForStatementInit::Expression(expr)) => has_expression(w, expr, p),
                None => false,
            }
            ||| has_optional(w, l.test, p)
            ||| has_optional(w, l.update, p)
            ||| has_statement(w, l.body, p)
        },
        Statement::While(l) => has_expression(w, l.test, p) || has_statement(w, l.body, p),
        Statement::ForIn(l) => has_for_each(w, *l, p),
        Statement::ForOf(l) => has_for_each(w, *l, p),
        Statement::Other(x) => has_children(w, x.children@, p),
    }
}

/// Whether a place is in statements.
pub open spec fn has_statements(w: Walk, list: Seq<Statement>, p: Place) -> bool
    decreases list, 0nat,
{
    if list.len() == 0 {
        false
    } else {
        has_statements(w, list.drop_last(), p) || has_statement(w, list.last(), p)
    }
}

/// Whether a place is in the parts of another statement.
pub open spec fn has_children(w: Walk, list: Seq<StatementChild>, p: Place) -> bool
    decreases list, 0nat,
{
    if list.len() == 0 {
        false
    } else {
        ||| has_children(w, list.drop_last(), p)
        ||| match list.last() {
            StatementChild::Expression(expr) => has_expression(w, expr, p),
            StatementChild::Statement(stmt) => has_statement(w, stmt, p),
            StatementChild::BindingPattern(pattern) => has_pattern(w, pattern, p),
        }
    }
}

proof fn finds_expression(w: Walk, expr: Expression, s: Seq<Place>, p: Place)
    ensures
        sites_expression(w, expr, s).contains(p) <==> s.contains(p) || has_expression(
            w,
            expr,
            p,
        ),
    decreases expr, 0nat,
{
    match expr {
        Expression::TemplateLiteral(t) => {
            finds_expressions(w, t.expressions@, s, p);
        },
        Expression::StaticMember(m) => {
            finds_expression(w, m.object, s, p);
        },
        Expression::ComputedMember(m) => {
            finds_expression(w, m.object, s, p);
            let s1 = sites_expression(w, m.object, s);
            finds_expression(w, m.expression, s1, p);
        },
        Expression::PrivateField(m) => {
            finds_expression(w, m.object, s, p);
        },
        Expression::Call(c) => {
            finds_expression(w, c.callee, s, p);
            let s2 = sites_expression(w, c.callee, s);
            finds_arguments(w, c.arguments@, s2, p);
            let s3 = sites_arguments(w, c.arguments@, s2);
            lemma_push(s3, Place::Call(*c), p);
        },
        Expression::Function(f) => {
            finds_function(w, *f, s, p);
        },
        Expression::Arrow(a) => {
            finds_parameters(w, a.params, s, p);
            let s4 = sites_parameters(w, a.params, s);
            finds_body(w, a.body, s4, p);
        },
        Expression::Class(c) => {
            finds_class(w, *c, s, p);
        },
        Expression::Assignment(a) => {
            finds_target(w, a.left, s, p);
            let s5 = sites_target(w, a.left, s);
            finds_expression(w, a.right, s5, p);
        },
        Expression::Logical(l) => {
            finds_expression(w, l.left, s, p);
            let s6 = sites_expression(w, l.left, s);
            finds_expression(w, l.right, s6, p);
        },
        Expression::Conditional(c) => {
            finds_expression(w, c.test, s, p);
            let s7 = sites_expression(w, c.test, s);
            finds_expression(w, c.consequent, s7, p);
            let s8 = sites_expression(w, c.consequent, s7);
            finds_expression(w, c.alternate, s8, p);
        },
        Expression::Await(a) => {
            finds_expression(w, a.argument, s, p);
        },
        Expression::Yield(y) => {
            finds_optional(w, y.argument, s, p);
        },
        Expression::Object(o) => {
            finds_object_properties(w, o.properties@, s, p);
        },
        Expression::Array(a) => {
            finds_expressions(w, a.elements@, s, p);
        },
        Expression::Wrapped(x) => {
            finds_expression(w, x.expression, s, p);
        },
        Expression::Jsx(j) => {
            match j.name {
                Some(name) => {
                    lemma_push(s, Place::JsxName(name), p);
                },
                None => {},
            }
            let s9 = match j.name {
                Some(name) => s.push(Place::JsxName(name)),
                None => s,
            };
            if w.attributes {
                finds_expressions(w, j.attributes@, s9, p);
            } else {
            }
            let s10 = if w.attributes {
                sites_expressions(w, j.attributes@, s9)
            } else {
                s9
            };
            finds_expressions(w, j.children@, s10, p);
        },
        Expression::Shared(e) => {
            finds_expression(w, unshared(e), s, p);
        },
        Expression::Other(x) => {
            finds_expressions(w, x.children@, s, p);
        },
        _ => {},
    }
}

proof fn finds_expressions(w: Walk, list: Seq<Expression>, s: Seq<Place>, p: Place)
    ensures
        sites_expressions(w, list, s).contains(p) <==> s.contains(p) || has_expressions(
            w,
            list,
            p,
        ),
    decreases list, 0nat,
{
    if list.len() > 0 {
        finds_expressions(w, list.drop_last(), s, p);
        let s1 = sites_expressions(w, list.drop_last(), s);
        finds_expression(w, list.last(), s1, p);
    }
}

proof fn finds_optional(w: Walk, expr: Option<Expression>, s: Seq<Place>, p: Place)
    ensures
        sites_optional(w, expr, s).contains(p) <==> s.contains(p) || has_optional(w, expr, p),
    decreases expr, 0nat,
{
    match expr {
        Some(expr) => {
            finds_expression(w, expr, s, p);
        },
        None => {},
    }
}

proof fn finds_arguments(w: Walk, list: Seq<Argument>, s: Seq<Place>, p: Place)
    ensures
        sites_arguments(w, list, s).contains(p) <==> s.contains(p) || has_arguments(w, list, p),
    decreases list, 0nat,
{
    if list.len() > 0 {
        finds_arguments(w, list.drop_last(), s, p);
        let s1 = sites_arguments(w, list.drop_last(), s);
        match list.last() {
            Argument::Spread(e) => {
                finds_expression(w, e.argument, s1, p);
            },
            Argument::Expression(expr) => {
                finds_expression(w, expr, s1, p);
            },
        }
    }
}

proof fn finds_key(w: Walk, key: PropertyKey, s: Seq<Place>, p: Place)
    ensures
        sites_key(w, key, s).contains(p) <==> s.contains(p) || has_key(w, key, p),
    decreases key, 0nat,
{
    match key {
        PropertyKey::Expression(key) => {
            finds_expression(w, key.expression, s, p);
        },
        _ => {},
    }
}

proof fn finds_object_properties(w: Walk, list: Seq<ObjectPropertyKind>, s: Seq<Place>, p: Place)
    ensures
        sites_object_properties(w, list, s).contains(p) <==> s.contains(p) || has_object_properties(
            w,
            list,
            p,
        ),
    decreases list, 0nat,
{
    if list.len() > 0 {
        finds_object_properties(w, list.drop_last(), s, p);
        let s1 = sites_object_properties(w, list.drop_last(), s);
        match list.last() {
            ObjectPropertyKind::ObjectProperty(x) => {
                finds_key(w, x.key, s1, p);
                let s2 = sites_key(w, x.key, s1);
                finds_expression(w, x.value, s2, p);
            },
            ObjectPropertyKind::SpreadProperty(expr) => {
                finds_expression(w, expr, s1, p);
            },
        }
    }
}

proof fn finds_function(w: Walk, func: Function, s: Seq<Place>, p: Place)
    ensures
        sites_function(w, func, s).contains(p) <==> s.contains(p) || has_function(w, func, p),
    decreases func, 0nat,
{
    finds_parameters(w, func.params, s, p);
    let s1 = sites_parameters(w, func.params, s);
    match func.body {
        Some(body) => {
            finds_body(w, body, s1, p);
        },
        None => {},
    }
}

proof fn finds_parameters(w: Walk, params: FormalParameters, s: Seq<Place>, p: Place)
    ensures
        sites_parameters(w, params, s).contains(p) <==> s.contains(p) || has_parameters(
            w,
            params,
            p,
        ),
    decreases params, 0nat,
{
    finds_expressions(w, params.decorators@, s, p);
    let s1 = sites_expressions(w, params.decorators@, s);
    finds_patterns(w, params.items@, s1, p);
    let s2 = sites_patterns(w, params.items@, s1);
    match params.rest {
        Some(rest) => {
            finds_pattern(w, rest, s2, p);
        },
        None => {},
    }
}

proof fn finds_body(w: Walk, body: FunctionBody, s: Seq<Place>, p: Place)
    ensures
        sites_body(w, body, s).contains(p) <==> s.contains(p) || has_body(w, body, p),
    decreases body, 0nat,
{
    finds_statements(w, body.statements@, s, p);
}

proof fn finds_target(w: Walk, target: AssignmentTarget, s: Seq<Place>, p: Place)
    ensures
        sites_target(w, target, s).contains(p) <==> s.contains(p) || has_target(w, target, p),
    decreases target, 0nat,
{
    match target {
        AssignmentTarget::Identifier(_) => {},
        AssignmentTarget::StaticMember(m) => {
            finds_expression(w, m.object, s, p);
        },
        AssignmentTarget::ComputedMember(m) => {
            finds_expression(w, m.object, s, p);
            let s1 = sites_expression(w, m.object, s);
            finds_expression(w, m.expression, s1, p);
        },
        AssignmentTarget::PrivateField(m) => {
            finds_expression(w, m.object, s, p);
        },
        AssignmentTarget::Wrapped(x) => {
            finds_expression(w, x.expression, s, p);
        },
        AssignmentTarget::Array(t) => {
            finds_target_elements(w, t.elements@, s, p);
            let s2 = sites_target_elements(w, t.elements@, s);
            match t.rest {
                Some(rest) => {
                    finds_target(w, rest, s2, p);
                },
                None => {},
            }
        },
        AssignmentTarget::Object(t) => {
            finds_target_properties(w, t.properties@, s, p);
            let s3 = sites_target_properties(w, t.properties@, s);
            match t.rest {
                Some(rest) => {
                    finds_target(w, rest, s3, p);
                },
                None => {},
            }
        },
    }
}

proof fn finds_maybe_default(
    w: Walk,
    target: AssignmentTargetMaybeDefault,
    s: Seq<Place>,
    p: Place,
)
    ensures
        sites_maybe_default(w, target, s).contains(p) <==> s.contains(p) || has_maybe_default(
            w,
            target,
            p,
        ),
    decreases target, 0nat,
{
    finds_target(w, target.binding, s, p);
    let s1 = sites_target(w, target.binding, s);
    finds_optional(w, target.init, s1, p);
}

proof fn finds_target_elements(
    w: Walk,
    list: Seq<Option<AssignmentTargetMaybeDefault>>,
    s: Seq<Place>,
    p: Place,
)
    ensures
        sites_target_elements(w, list, s).contains(p) <==> s.contains(p) || has_target_elements(
            w,
            list,
            p,
        ),
    decreases list, 0nat,
{
    if list.len() > 0 {
        finds_target_elements(w, list.drop_last(), s, p);
        let s1 = sites_target_elements(w, list.drop_last(), s);
        match list.last() {
            Some(t) => {
                finds_maybe_default(w, t, s1, p);
            },
            None => {},
        }
    }
}

proof fn finds_target_properties(
    w: Walk,
    list: Seq<AssignmentTargetProperty>,
    s: Seq<Place>,
    p: Place,
)
    ensures
        sites_target_properties(w, list, s).contains(p) <==> s.contains(p) || has_target_properties(
            w,
            list,
            p,
        ),
    decreases list, 0nat,
{
    if list.len() > 0 {
        finds_target_properties(w, list.drop_last(), s, p);
        let s1 = sites_target_properties(w, list.drop_last(), s);
        match list.last() {
            AssignmentTargetProperty::Identifier(x) => {
                finds_optional(w, x.init, s1, p);
            },
            AssignmentTargetProperty::Property(x) => {
                finds_key(w, x.name, s1, p);
                let s2 = sites_key(w, x.name, s1);
                finds_maybe_default(w, x.binding, s2, p);
            },
        }
    }
}

proof fn finds_pattern(w: Walk, pattern: BindingPattern, s: Seq<Place>, p: Place)
    ensures
        sites_pattern(w, pattern, s).contains(p) <==> s.contains(p) || has_pattern(
            w,
            pattern,
            p,
        ),
    decreases pattern, 0nat,
{
    match pattern {
        BindingPattern::Identifier(_) => {},
        BindingPattern::Object(x) => {
            finds_pattern_properties(w, x.properties@, s, p);
            let s1 = sites_pattern_properties(w, x.properties@, s);
            match x.rest {
                Some(rest) => {
                    finds_pattern(w, rest, s1, p);
                },
                None => {},
            }
        },
        BindingPattern::Array(x) => {
            finds_pattern_elements(w, x.elements@, s, p);
            let s2 = sites_pattern_elements(w, x.elements@, s);
            match x.rest {
                Some(rest) => {
                    finds_pattern(w, rest, s2, p);
                },
                None => {},
            }
        },
        BindingPattern::Assignment(x) => {
            finds_pattern(w, x.left, s, p);
            let s3 = sites_pattern(w, x.left, s);
            finds_expression(w, x.right, s3, p);
        },
    }
}

proof fn finds_patterns(w: Walk, list: Seq<BindingPattern>, s: Seq<Place>, p: Place)
    ensures
        sites_patterns(w, list, s).contains(p) <==> s.contains(p) || has_patterns(w, list, p),
    decreases list, 0nat,
{
    if list.len() > 0 {
        finds_patterns(w, list.drop_last(), s, p);
        let s1 = sites_patterns(w, list.drop_last(), s);
        finds_pattern(w, list.last(), s1, p);
    }
}

proof fn finds_pattern_properties(w: Walk, list: Seq<BindingProperty>, s: Seq<Place>, p: Place)
    ensures
        sites_pattern_properties(w, list, s).contains(p) <==> s.contains(p)
            || has_pattern_properties(w, list, p),
    decreases list, 0nat,
{
    if list.len() > 0 {
        finds_pattern_properties(w, list.drop_last(), s, p);
        let s1 = sites_pattern_properties(w, list.drop_last(), s);
        finds_key(w, list.last().key, s1, p);
        let s2 = sites_key(w, list.last().key, s1);
        finds_pattern(w, list.last().value, s2, p);
    }
}

proof fn finds_pattern_elements(
    w: Walk,
    list: Seq<Option<BindingPattern>>,
    s: Seq<Place>,
    p: Place,
)
    ensures
        sites_pattern_elements(w, list, s).contains(p) <==> s.contains(p) || has_pattern_elements(
            w,
            list,
            p,
        ),
    decreases list, 0nat,
{
    if list.len() > 0 {
        finds_pattern_elements(w, list.drop_last(), s, p);
        let s1 = sites_pattern_elements(w, list.drop_last(), s);
        match list.last() {
            Some(pattern) => {
                finds_pattern(w, pattern, s1, p);
            },
            None => {},
        }
    }
}

proof fn finds_class(w: Walk, class: Class, s: Seq<Place>, p: Place)
    ensures
        sites_class(w, class, s).contains(p) <==> s.contains(p) || has_class(w, class, p),
    decreases class, 0nat,
{
    finds_expressions(w, class.decorators@, s, p);
    let s1 = sites_expressions(w, class.decorators@, s);
    finds_optional(w, class.super_class, s1, p);
    let s2 = sites_optional(w, class.super_class, s1);
    finds_class_elements(w, class.body@, s2, p);
}

proof fn finds_class_elements(w: Walk, list: Seq<ClassElement>, s: Seq<Place>, p: Place)
    ensures
        sites_class_elements(w, list, s).contains(p) <==> s.contains(p) || has_class_elements(
            w,
            list,
            p,
        ),
    decreases list, 0nat,
{
    if list.len() > 0 {
        finds_class_elements(w, list.drop_last(), s, p);
        let s1 = sites_class_elements(w, list.drop_last(), s);
        match list.last() {
            ClassElement::StaticBlock(b) => {
                finds_statements(w, b.body@, s1, p);
            },
            ClassElement::MethodDefinition(m) => {
                finds_expressions(w, m.decorators@, s1, p);
                let s2 = sites_expressions(w, m.decorators@, s1);
                finds_key(w, m.key, s2, p);
                let s3 = sites_key(w, m.key, s2);
                finds_function(w, m.value, s3, p);
            },
            ClassElement::PropertyDefinition(x) => {
                finds_expressions(w, x.decorators@, s1, p);
                let s4 = sites_expressions(w, x.decorators@, s1);
                finds_key(w, x.key, s4, p);
                let s5 = sites_key(w, x.key, s4);
                finds_optional(w, x.value, s5, p);
            },
            ClassElement::AccessorProperty(x) => {
                finds_expressions(w, x.decorators@, s1, p);
                let s6 = sites_expressions(w, x.decorators@, s1);
                finds_key(w, x.key, s6, p);
                let s7 = sites_key(w, x.key, s6);
                finds_optional(w, x.value, s7, p);
            },
            ClassElement::IndexSignature(_) => {},
        }
    }
}

proof fn finds_declarator(w: Walk, d: VariableDeclarator, s: Seq<Place>, p: Place)
    ensures
        sites_declarator(w, d, s).contains(p) <==> s.contains(p) || has_declarator(w, d, p),
    decreases d, 0nat,
{
    law_loaded_modules(d, Seq::empty());
    if !w.only_required {
        finds_pattern(w, d.id, s, p);
        let s1 = sites_pattern(w, d.id, s);
        finds_optional(w, d.init, s1, p);
    } else {
        if loads_elements(d) {
            lemma_push(s, Place::Required(d), p);
            let s2 = s.push(Place::Required(d));
            finds_pattern(w, d.id, s2, p);
            let s3 = sites_pattern(w, d.id, s2);
            finds_optional(w, d.init, s3, p);
        } else {
        }
    }
}

proof fn finds_declarators(w: Walk, list: Seq<VariableDeclarator>, s: Seq<Place>, p: Place)
    ensures
        sites_declarators(w, list, s).contains(p) <==> s.contains(p) || has_declarators(
            w,
            list,
            p,
        ),
    decreases list, 0nat,
{
    if list.len() > 0 {
        finds_declarators(w, list.drop_last(), s, p);
        let s1 = sites_declarators(w, list.drop_last(), s);
        finds_declarator(w, list.last(), s1, p);
    }
}

proof fn finds_declaration(w: Walk, declaration: Declaration, s: Seq<Place>, p: Place)
    ensures
        sites_declaration(w, declaration, s).contains(p) <==> s.contains(p) || has_declaration(
            w,
            declaration,
            p,
        ),
    decreases declaration, 0nat,
{
    match declaration {
        Declaration::Variable(d) => {
            finds_declarators(w, d.declarations@, s, p);
        },
        Declaration::Function(f) => {
            finds_function(w, *f, s, p);
        },
        Declaration::Class(c) => {
            finds_class(w, *c, s, p);
        },
        Declaration::TypeOnly(_) => {},
    }
}

proof fn finds_for_each(w: Walk, stmt: ForEachStatement, s: Seq<Place>, p: Place)
    ensures
        sites_for_each(w, stmt, s).contains(p) <==> s.contains(p) || has_for_each(w, stmt, p),
    decreases stmt, 0nat,
{
    match stmt.left {
        ForStatementLeft::VariableDeclaration(d) => {
            finds_declarators(w, d.declarations@, s, p);
        },
        ForStatementLeft::AssignmentTarget(target) => {
            finds_target(w, target, s, p);
        },
    }
    let s1 = match stmt.left {
        ForStatementLeft::VariableDeclaration(d) => sites_declarators(w, d.declarations@, s),
        ForStatementLeft::AssignmentTarget(target) => sites_target(w, target, s),
    };
    finds_expression(w, stmt.right, s1, p);
    let s2 = sites_expression(w, stmt.right, s1);
    finds_statement(w, stmt.body, s2, p);
}

proof fn finds_statement(w: Walk, stmt: Statement, s: Seq<Place>, p: Place)
    ensures
        sites_statement(w, stmt, s).contains(p) <==> s.contains(p) || has_statement(w, stmt, p),
    decreases stmt, 0nat,
{
    match stmt {
        Statement::Expression(e) => {
            finds_expression(w, e.expression, s, p);
        },
        Statement::Declaration(d) => {
            finds_declaration(w, d, s, p);
        },
        Statement::Import(i) => {
            lemma_push(s, Place::Import(i), p);
        },
        Statement::ExportAll(_) => {},
        Statement::ExportNamed(e) => {
            match e.declaration {
                Some(d) => {
                    finds_declaration(w, d, s, p);
                },
                None => {},
            }
        },
        Statement::ExportDefault(e) => {
            match e.declaration {
                ExportDefaultDeclarationKind::Expression(expr) => {
                    finds_expression(w, expr, s, p);
                },
                ExportDefaultDeclarationKind::Function(f) => {
                    finds_function(w, *f, s, p);
                },
                ExportDefaultDeclarationKind::Class(c) => {
                    finds_class(w, *c, s, p);
                },
                ExportDefaultDeclarationKind::TypeOnly(_) => {},
            }
        },
        Statement::Return(r) => {
            finds_optional(w, r.argument, s, p);
        },
        Statement::Try(t) => {
            finds_statements(w, t.block.body@, s, p);
            let s1 = sites_statements(w, t.block.body@, s);
            match t.handler {
                Some(h) => {
                    match h.param {
                        Some(x) => {
                            finds_pattern(w, x, s1, p);
                        },
                        None => {},
                    }
                    let s2 = match h.param {
                        Some(x) => sites_pattern(w, x, s1),
                        None => s1,
                    };
                    finds_statements(w, h.body.body@, s2, p);
                },
                None => {},
            }
            let s3 = match t.handler {
                Some(h) => sites_statements(
                    w,
                    h.body.body@,
                    match h.param {
                        Some(x) => sites_pattern(w, x, s1),
                        None => s1,
                    },
                ),
                None => s1,
            };
            match t.finalizer {
                Some(b) => {
                    finds_statements(w, b.body@, s3, p);
                },
                None => {},
            }
        },
        Statement::Block(b) => {
            finds_statements(w, b.body@, s, p);
        },
        Statement::If(i) => {
            finds_expression(w, i.test, s, p);
            let s4 = sites_expression(w, i.test, s);
            finds_statement(w, i.consequent, s4, p);
            let s5 = sites_statement(w, i.consequent, s4);
            match i.alternate {
                Some(a) => {
                    finds_statement(w, a, s5, p);
                },
                None => {},
            }
        },
        Statement::For(l) => {
            match l.init {
                Some(ForStatementInit::VariableDeclaration(d)) => {
                    finds_declarators(w, d.declarations@, s, p);
                },
                Some(ForStatementInit::Expression(expr)) => {
                    finds_expression(w, expr, s, p);
                },
                None => {},
            }
            let s6 = match l.init {
                Some(ForStatementInit::VariableDeclaration(d)) => sites_declarators(
                    w,
                    d.declarations@,
                    s,
                ),
                Some(ForStatementInit::Expression(expr)) => sites_expression(w, expr, s),
                None => s,
            };
            finds_optional(w, l.test, s6, p);
            let s7 = sites_optional(w, l.test, s6);
            finds_optional(w, l.update, s7, p);
            let s8 = sites_optional(w, l.update, s7);
            finds_statement(w, l.body, s8, p);
        },
        Statement::While(l) => {
            finds_expression(w, l.test, s, p);
            let s9 = sites_expression(w, l.test, s);
            finds_statement(w, l.body, s9, p);
        },
        Statement::ForIn(l) => {
            finds_for_each(w, *l, s, p);
        },
        Statement::ForOf(l) => {
            finds_for_each(w, *l, s, p);
        },
        Statement::Other(x) => {
            finds_children(w, x.children@, s, p);
        },
    }
}

proof fn finds_statements(w: Walk, list: Seq<Statement>, s: Seq<Place>, p: Place)
    ensures
        sites_statements(w, list, s).contains(p) <==> s.contains(p) || has_statements(
            w,
            list,
            p,
        ),
    decreases list, 0nat,
{
    if list.len() > 0 {
        finds_statements(w, list.drop_last(), s, p);
        let s1 = sites_statements(w, list.drop_last(), s);
        finds_statement(w, list.last(), s1, p);
    }
}

proof fn finds_children(w: Walk, list: Seq<StatementChild>, s: Seq<Place>, p: Place)
    ensures
        sites_children(w, list, s).contains(p) <==> s.contains(p) || has_children(w, list, p),
    decreases list, 0nat,
{
    if list.len() > 0 {
        finds_children(w, list.drop_last(), s, p);
        let s1 = sites_children(w, list.drop_last(), s);
        match list.last() {
            StatementChild::Expression(expr) => {
                finds_expression(w, expr, s1, p);
            },
            StatementChild::Statement(stmt) => {
                finds_statement(w, stmt, s1, p);
            },
            StatementChild::BindingPattern(pattern) => {
                finds_pattern(w, pattern, s1, p);
            },
        }
    }
}

/// A walk finds exactly what the program holds, however deep it stands.
pub proof fn law_every_place_is_found(w: Walk, body: Seq<Statement>, place: Place)
    ensures
        sites_of(w, body).contains(place) <==> has_statements(w, body, place),
{
    finds_statements(w, body, Seq::empty(), place);
}

/// A place is found in an expression by itself.
pub open spec fn in_expression(w: Walk, expr: Expression, p: Place) -> bool {
    sites_expression(w, expr, Seq::empty()).contains(p)
}

/// A place is found in a statement by itself.
pub open spec fn in_statement(w: Walk, stmt: Statement, p: Place) -> bool {
    sites_of(w, seq![stmt]).contains(p)
}

proof fn lemma_one_statement(w: Walk, stmt: Statement, p: Place)
    ensures
        in_statement(w, stmt, p) <==> has_statement(w, stmt, p),
{
    law_every_place_is_found(w, seq![stmt], p);
    assert(seq![stmt].drop_last() =~= Seq::empty());
    assert(!has_statements(w, Seq::empty(), p));
}

proof fn lemma_one_expression(w: Walk, expr: Expression, p: Place)
    ensures
        in_expression(w, expr, p) <==> has_expression(w, expr, p),
{
    finds_expression(w, expr, Seq::empty(), p);
}

/// What is found in statements one after another is found in one of them.
pub proof fn law_places_of_statements(w: Walk, first: Seq<Statement>, last: Statement, p: Place)
    ensures
        sites_of(w, first.push(last)).contains(p) <==> sites_of(w, first).contains(p)
            || in_statement(w, last, p),
        !sites_of(w, Seq::empty()).contains(p),
{
    law_every_place_is_found(w, first.push(last), p);
    law_every_place_is_found(w, first, p);
    law_every_place_is_found(w, Seq::empty(), p);
    lemma_one_statement(w, last, p);
    assert(first.push(last).drop_last() =~= first);
}

/// What is found in a statement is found in one of its parts, each of which counts: both branches
/// of an `if`, the body and the head of a loop, and each block of a `try`.
pub proof fn law_places_of_parts_of_statements(w: Walk, stmt: Statement, p: Place)
    ensures
        match stmt {
            Statement::Expression(e) => in_statement(w, stmt, p) <==> in_expression(
                w,
                e.expression,
                p,
            ),
            Statement::Return(r) => in_statement(w, stmt, p) <==> (r.argument is Some
                && in_expression(w, r.argument->0, p)),
            Statement::Import(i) => in_statement(w, stmt, p) <==> p == Place::Import(i),
            Statement::Block(b) => in_statement(w, stmt, p) <==> sites_of(w, b.body@).contains(p),
            Statement::If(i) => in_statement(w, stmt, p) <==> in_expression(w, i.test, p)
                || in_statement(w, i.consequent, p) || (i.alternate is Some && in_statement(
                w,
                i.alternate->0,
                p,
            )),
            Statement::While(l) => in_statement(w, stmt, p) <==> in_expression(w, l.test, p)
                || in_statement(w, l.body, p),
            Statement::Try(t) => {
                &&& sites_of(w, t.block.body@).contains(p) ==> in_statement(w, stmt, p)
                &&& t.handler matches Some(h) ==> sites_of(w, h.body.body@).contains(p)
                    ==> in_statement(w, stmt, p)
                &&& t.finalizer matches Some(b) ==> sites_of(w, b.body@).contains(p)
                    ==> in_statement(w, stmt, p)
            },
            Statement::For(l) => {
                &&& in_statement(w, l.body, p) ==> in_statement(w, stmt, p)
                &&& l.test matches Some(e) ==> in_expression(w, e, p) ==> in_statement(w, stmt, p)
                &&& l.update matches Some(e) ==> in_expression(w, e, p) ==> in_statement(w, stmt, p)
                &&& l.init matches Some(ForStatementInit::Expression(e)) ==> in_expression(w, e, p)
                    ==> in_statement(w, stmt, p)
            },
            Statement::ForIn(l) => (in_expression(w, l.right, p) || in_statement(w, l.body, p))
                ==> in_statement(w, stmt, p),
            Statement::ForOf(l) => (in_expression(w, l.right, p) || in_statement(w, l.body, p))
                ==> in_statement(w, stmt, p),
            Statement::ExportNamed(e) => e.declaration matches Some(d) ==> (in_statement(w, stmt, p)
                <==> in_statement(w, Statement::Declaration(d), p)),
            Statement::ExportDefault(e) => match e.declaration {
                ExportDefaultDeclarationKind::Expression(expr) => in_statement(w, stmt, p)
                    <==> in_expression(w, expr, p),
                ExportDefaultDeclarationKind::Function(f) => in_statement(w, stmt, p)
                    <==> in_expression(w, Expression::Function(f), p),
                ExportDefaultDeclarationKind::Class(c) => in_statement(w, stmt, p)
                    <==> in_expression(w, Expression::Class(c), p),
                ExportDefaultDeclarationKind::TypeOnly(_) => !in_statement(w, stmt, p),
            },
            Statement::Declaration(Declaration::Function(f)) => in_statement(w, stmt, p)
                <==> in_expression(w, Expression::Function(f), p),
            Statement::Declaration(Declaration::Class(c)) => in_statement(w, stmt, p)
                <==> in_expression(w, Expression::Class(c), p),
            _ => true,
        },
{
    lemma_one_statement(w, stmt, p);
    match stmt {
        Statement::Expression(e) => lemma_one_expression(w, e.expression, p),
        Statement::Return(r) => {
            if let Some(e) = r.argument {
                lemma_one_expression(w, e, p);
                assert(has_optional(w, r.argument, p) == has_expression(w, e, p));
            } else {
                assert(!has_optional(w, r.argument, p));
            }
        },
        Statement::Block(b) => law_every_place_is_found(w, b.body@, p),
        Statement::If(i) => {
            lemma_one_expression(w, i.test, p);
            lemma_one_statement(w, i.consequent, p);
            if let Some(a) = i.alternate {
                lemma_one_statement(w, a, p);
            }
        },
        Statement::While(l) => {
            lemma_one_expression(w, l.test, p);
            lemma_one_statement(w, l.body, p);
        },
        Statement::Try(t) => {
            law_every_place_is_found(w, t.block.body@, p);
            if let Some(h) = t.handler {
                law_every_place_is_found(w, h.body.body@, p);
            }
            if let Some(b) = t.finalizer {
                law_every_place_is_found(w, b.body@, p);
            }
        },
        Statement::For(l) => {
            lemma_one_statement(w, l.body, p);
            if let Some(e) = l.test {
                lemma_one_expression(w, e, p);
                assert(has_optional(w, l.test, p) == has_expression(w, e, p));
            }
            if let Some(e) = l.update {
                lemma_one_expression(w, e, p);
                assert(has_optional(w, l.update, p) == has_expression(w, e, p));
            }
            if let Some(ForStatementInit::Expression(e)) = l.init {
                lemma_one_expression(w, e, p);
            }
        },
        Statement::ForIn(l) => {
            lemma_one_expression(w, l.right, p);
            lemma_one_statement(w, l.body, p);
            assert(has_statement(w, stmt, p) == has_for_each(w, *l, p));
        },
        Statement::ForOf(l) => {
            lemma_one_expression(w, l.right, p);
            lemma_one_statement(w, l.body, p);
            assert(has_statement(w, stmt, p) == has_for_each(w, *l, p));
        },
        Statement::ExportNamed(e) => {
            if let Some(d) = e.declaration {
                lemma_one_statement(w, Statement::Declaration(d), p);
            }
        },
        Statement::ExportDefault(e) => match e.declaration {
            ExportDefaultDeclarationKind::Expression(expr) => lemma_one_expression(w, expr, p),
            ExportDefaultDeclarationKind::Function(f) => lemma_one_expression(
                w,
                Expression::Function(f),
                p,
            ),
            ExportDefaultDeclarationKind::Class(c) => lemma_one_expression(
                w,
                Expression::Class(c),
                p,
            ),
            ExportDefaultDeclarationKind::TypeOnly(_) => {},
        },
        Statement::Declaration(d) => {
            assert(has_statement(w, stmt, p) == has_declaration(w, d, p));
            match d {
                Declaration::Function(f) => lemma_one_expression(w, Expression::Function(f), p),
                Declaration::Class(c) => lemma_one_expression(w, Expression::Class(c), p),
                _ => {},
            }
        },
        _ => {},
    }
}

/// What is found in an expression is found in one of its parts, each of which counts. A call is a
/// place itself, and so is the name of an element. A function is gone into.
pub proof fn law_places_of_parts_of_expressions(w: Walk, expr: Expression, p: Place)
    ensures
        match expr {
            Expression::Identifier(_) | Expression::This(_) | Expression::StringLiteral(_) =>
                !in_expression(w, expr, p),
            Expression::StaticMember(m) => in_expression(w, expr, p) <==> in_expression(
                w,
                m.object,
                p,
            ),
            Expression::ComputedMember(m) => in_expression(w, expr, p) <==> in_expression(
                w,
                m.object,
                p,
            ) || in_expression(w, m.expression, p),
            Expression::PrivateField(m) => in_expression(w, expr, p) <==> in_expression(
                w,
                m.object,
                p,
            ),
            Expression::Logical(l) => in_expression(w, expr, p) <==> in_expression(w, l.left, p)
                || in_expression(w, l.right, p),
            Expression::Conditional(c) => in_expression(w, expr, p) <==> in_expression(w, c.test, p)
                || in_expression(w, c.consequent, p) || in_expression(w, c.alternate, p),
            Expression::Await(a) => in_expression(w, expr, p) <==> in_expression(w, a.argument, p),
            Expression::Wrapped(x) => in_expression(w, expr, p) <==> in_expression(
                w,
                x.expression,
                p,
            ),
            Expression::Assignment(a) => in_expression(w, a.right, p) ==> in_expression(w, expr, p),
            Expression::Call(c) => {
                &&& in_expression(w, expr, Place::Call(*c))
                &&& in_expression(w, c.callee, p) ==> in_expression(w, expr, p)
                &&& c.arguments@.len() > 0 ==> (c.arguments@.last() matches Argument::Expression(e)
                    ==> in_expression(w, e, p) ==> in_expression(w, expr, p))
            },
            Expression::Function(f) => f.body matches Some(b) ==> sites_of(
                w,
                b.statements@,
            ).contains(p) ==> in_expression(w, expr, p),
            Expression::Arrow(a) => sites_of(w, a.body.statements@).contains(p) ==> in_expression(
                w,
                expr,
                p,
            ),
            Expression::Jsx(j) => {
                &&& j.name matches Some(name) ==> in_expression(w, expr, Place::JsxName(name))
                &&& has_expressions(w, j.children@, p) ==> in_expression(w, expr, p)
                &&& w.attributes && has_expressions(w, j.attributes@, p) ==> in_expression(
                    w,
                    expr,
                    p,
                )
            },
            _ => true,
        },
{
    lemma_one_expression(w, expr, p);
    match expr {
        Expression::StaticMember(m) => lemma_one_expression(w, m.object, p),
        Expression::ComputedMember(m) => {
            lemma_one_expression(w, m.object, p);
            lemma_one_expression(w, m.expression, p);
        },
        Expression::PrivateField(m) => lemma_one_expression(w, m.object, p),
        Expression::Logical(l) => {
            lemma_one_expression(w, l.left, p);
            lemma_one_expression(w, l.right, p);
        },
        Expression::Conditional(c) => {
            lemma_one_expression(w, c.test, p);
            lemma_one_expression(w, c.consequent, p);
            lemma_one_expression(w, c.alternate, p);
        },
        Expression::Await(a) => lemma_one_expression(w, a.argument, p),
        Expression::Wrapped(x) => lemma_one_expression(w, x.expression, p),
        Expression::Assignment(a) => lemma_one_expression(w, a.right, p),
        Expression::Call(c) => {
            lemma_one_expression(w, expr, Place::Call(*c));
            lemma_one_expression(w, c.callee, p);
            if c.arguments@.len() > 0 {
                if let Argument::Expression(e) = c.arguments@.last() {
                    lemma_one_expression(w, e, p);
                    if has_expression(w, e, p) {
                        assert(has_arguments(w, c.arguments@, p));
                    }
                }
            }
        },
        Expression::Function(f) => {
            assert(has_expression(w, expr, p) == has_function(w, *f, p));
            if let Some(b) = f.body {
                law_every_place_is_found(w, b.statements@, p);
                assert(has_body(w, b, p) == has_statements(w, b.statements@, p));
            }
        },
        Expression::Arrow(a) => {
            law_every_place_is_found(w, a.body.statements@, p);
            assert(has_body(w, a.body, p) == has_statements(w, a.body.statements@, p));
        },
        Expression::Jsx(j) => {
            if let Some(name) = j.name {
                lemma_one_expression(w, expr, Place::JsxName(name));
            }
        },
        _ => {},
    }
}

} // verus!

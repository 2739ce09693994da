//! What a new piece of program looks like.
//!
//! A shape describes a node that a pass makes: the new nodes in full, and the nodes that the pass
//! found and put into them as they are.

use super::{
    Argument, AssignmentOperator, AssignmentTarget, BindingPattern, Expression, FunctionType,
    IdentifierReference, LogicalOperator, ObjectPropertyKind, PropertyKey, ScopeId, Span, Statement,
    SymbolId, TemplateElement, VariableDeclarationKind, VariableDeclarator,
};
use super::{
    ArrayExpression, AssignmentExpression, BlockStatement, BooleanLiteral, CallExpression,
    ComputedMemberExpression, Declaration, ExpressionStatement, FormalParameters, Function,
    FunctionBody, LogicalExpression, MetaProperty, NumericLiteral, ObjectExpression, ObjectProperty,
    ReturnStatement, StaticMemberExpression, StringLiteral, TemplateLiteral, TryStatement,
    VariableDeclaration,
};
use crate::text::opt_view;
use crate::traverse::{Bound, BoundIdentifier, declares, reads, writes};
use std::rc::Rc;
use vstd::prelude::*;

verus! {

/// What an expression looks like.
pub ghost enum Shape {
    /// The expression itself.
    Given(Expression),
    /// The expression itself, in one of several places.
    Shared(Expression),
    /// An identifier that reads a variable.
    Read(Bound),
    /// An identifier that reads a name, bound or not.
    Name { name: Seq<char>, symbol_id: Option<SymbolId> },
    Text(Seq<char>),
    Number(Seq<char>),
    Boolean(bool),
    /// A template: each piece of text, and what stands between them.
    Template { quasis: Seq<(Seq<char>, bool)>, expressions: Seq<Shape> },
    Meta { meta: Seq<char>, property: Seq<char> },
    Member { object: Box<Shape>, property: Seq<char> },
    Computed { object: Box<Shape>, expression: Box<Shape>, name: Option<Seq<char>> },
    Call { span: Span, callee: Box<Shape>, arguments: Seq<Shape> },
    /// A plain assignment to a variable.
    Assign { bound: Bound, value: Box<Shape> },
    /// A plain assignment to a computed member.
    AssignMember {
        object: Box<Shape>,
        expression: Box<Shape>,
        name: Option<Seq<char>>,
        value: Box<Shape>,
    },
    Or { left: Box<Shape>, right: Box<Shape> },
    /// An object with one property.
    Object { key: Seq<char>, value: Box<Shape> },
    Array { elements: Seq<Shape> },
    /// A function without a name and parameters that returns a value.
    Returning { scope_id: ScopeId, value: Box<Shape> },
}

/// What a statement looks like.
pub ghost enum StatementShape {
    /// The statement itself.
    Given(Statement),
    Expression { span: Span, value: Shape },
    Return { value: Shape },
    /// `var` with variables, each with a value or without.
    Var { declarators: Seq<(Bound, Option<Shape>)> },
    /// `try` and `finally`.
    Try {
        block: Seq<StatementShape>,
        block_scope_id: ScopeId,
        finalizer: Seq<StatementShape>,
        finalizer_scope_id: ScopeId,
    },
}

pub open spec fn member(object: Shape, property: Seq<char>) -> Shape {
    Shape::Member { object: Box::new(object), property }
}

pub open spec fn computed(object: Shape, expression: Shape, name: Option<Seq<char>>) -> Shape {
    Shape::Computed { object: Box::new(object), expression: Box::new(expression), name }
}

pub open spec fn call_at(span: Span, callee: Shape, arguments: Seq<Shape>) -> Shape {
    Shape::Call { span, callee: Box::new(callee), arguments }
}

pub open spec fn call(callee: Shape, arguments: Seq<Shape>) -> Shape {
    call_at(Span::empty(), callee, arguments)
}

pub open spec fn assign(bound: Bound, value: Shape) -> Shape {
    Shape::Assign { bound, value: Box::new(value) }
}

pub open spec fn assign_member(
    object: Shape,
    expression: Shape,
    name: Option<Seq<char>>,
    value: Shape,
) -> Shape {
    Shape::AssignMember {
        object: Box::new(object),
        expression: Box::new(expression),
        name,
        value: Box::new(value),
    }
}

pub open spec fn or(left: Shape, right: Shape) -> Shape {
    Shape::Or { left: Box::new(left), right: Box::new(right) }
}

pub open spec fn object(key: Seq<char>, value: Shape) -> Shape {
    Shape::Object { key, value: Box::new(value) }
}

pub open spec fn returning(scope_id: ScopeId, value: Shape) -> Shape {
    Shape::Returning { scope_id, value: Box::new(value) }
}

/// An identifier in no source that reads a name.
pub open spec fn reads_name(
    ident: IdentifierReference,
    name: Seq<char>,
    symbol_id: Option<SymbolId>,
) -> bool {
    &&& ident.span == Span::empty()
    &&& ident.name@ == name
    &&& ident.symbol_id == symbol_id
    &&& ident.is_read
    &&& !ident.is_write
}

/// The texts of a template.
pub open spec fn quasi_views(s: Seq<TemplateElement>) -> Seq<(Seq<char>, bool)> {
    s.map_values(|e: TemplateElement| (e.raw@, e.tail))
}

/// Whether the expression has the shape.
pub open spec fn has_shape(e: Expression, s: Shape) -> bool
    decreases s,
{
    match s {
        Shape::Given(x) => e == x,
        Shape::Shared(x) => e matches Expression::Shared(rc) && super::unshared(rc) == x,
        Shape::Read(bound) => e matches Expression::Identifier(ident) && reads(ident, bound),
        Shape::Name { name, symbol_id } => e matches Expression::Identifier(ident) && reads_name(
            ident,
            name,
            symbol_id,
        ),
        Shape::Text(value) => e matches Expression::StringLiteral(l) && l.span == Span::empty()
            && l.value@ == value,
        Shape::Number(raw) => e matches Expression::NumericLiteral(l) && l.span == Span::empty()
            && l.raw@ == raw,
        Shape::Boolean(value) => e matches Expression::BooleanLiteral(l) && l.span == Span::empty()
            && l.value == value,
        Shape::Template { quasis, expressions } => e matches Expression::TemplateLiteral(t)
            && t.span == Span::empty() && quasi_views(t.quasis@) == quasis && have_shapes(
            t.expressions@,
            expressions,
        ),
        Shape::Meta { meta, property } => e matches Expression::MetaProperty(m) && m.span
            == Span::empty() && m.meta@ == meta && m.property@ == property,
        Shape::Member { object, property } => e matches Expression::StaticMember(m) && m.span
            == Span::empty() && m.property@ == property && has_shape(m.object, *object),
        Shape::Computed { object, expression, name } => e matches Expression::ComputedMember(m)
            && m.span == Span::empty() && opt_view(m.static_property_name) == name && has_shape(
            m.object,
            *object,
        ) && has_shape(m.expression, *expression),
        Shape::Call { span, callee, arguments } => e matches Expression::Call(c) && c.span == span
            && has_shape(c.callee, *callee) && arguments_have_shapes(c.arguments@, arguments),
        Shape::Assign { bound, value } => e matches Expression::Assignment(a) && a.span
            == Span::empty() && a.operator == AssignmentOperator::Assign && (
        a.left matches AssignmentTarget::Identifier(ident) && writes(ident, bound)) && has_shape(
            a.right,
            *value,
        ),
        Shape::AssignMember { object, expression, name, value } => e matches Expression::Assignment(
            a,
        ) && a.span == Span::empty() && a.operator == AssignmentOperator::Assign && (
        a.left matches AssignmentTarget::ComputedMember(m) && m.span == Span::empty() && opt_view(
            m.static_property_name,
        ) == name && has_shape(m.object, *object) && has_shape(m.expression, *expression))
            && has_shape(a.right, *value),
        Shape::Or { left, right } => e matches Expression::Logical(l) && l.span == Span::empty()
            && l.operator == LogicalOperator::Or && has_shape(l.left, *left) && has_shape(
            l.right,
            *right,
        ),
        Shape::Object { key, value } => e matches Expression::Object(o) && o.span == Span::empty()
            && o.properties@.len() == 1 && (
        o.properties@[0] matches ObjectPropertyKind::ObjectProperty(p) && p.span == Span::empty()
            && (p.key matches PropertyKey::StaticIdentifier(k) && k@ == key) && has_shape(
            p.value,
            *value,
        )),
        Shape::Array { elements } => e matches Expression::Array(a) && a.span == Span::empty()
            && have_shapes(a.elements@, elements),
        Shape::Returning { scope_id, value } => e matches Expression::Function(f) && f.span
            == Span::empty() && f.address == 0 && f.scope_id == scope_id && f.function_type
            == FunctionType::FunctionExpression && f.id is None && f.params.decorators@.len() == 0
            && f.params.items@.len() == 0 && f.params.rest is None && !f.is_async && !f.generator
            && !f.typescript_syntax && (
        f.body matches Some(body) && body.directives@.len() == 0 && body.statements@.len() == 1 && (
        body.statements@[0] matches Statement::Return(r) && r.span == Span::empty() && (
        r.argument matches Some(x) && has_shape(x, *value)))),
    }
}

/// Whether the expressions have the shapes, one by one.
pub open spec fn have_shapes(es: Seq<Expression>, ss: Seq<Shape>) -> bool
    decreases ss,
{
    &&& es.len() == ss.len()
    &&& forall|i: int| #![trigger ss[i]] 0 <= i < ss.len() ==> has_shape(es[i], ss[i])
}

/// Whether the arguments are expressions that have the shapes, one by one.
pub open spec fn arguments_have_shapes(args: Seq<Argument>, ss: Seq<Shape>) -> bool
    decreases ss,
{
    &&& args.len() == ss.len()
    &&& forall|i: int|
        #![trigger ss[i]]
        #![trigger args[i]]
        0 <= i < ss.len() ==> (args[i] matches Argument::Expression(e) && has_shape(e, ss[i]))
}

/// An argument before others has its shape before theirs.
pub proof fn lemma_first_argument(e: Expression, c: Shape, rest: Seq<Argument>, shapes: Seq<Shape>)
    requires
        has_shape(e, c),
        arguments_have_shapes(rest, shapes),
    ensures
        arguments_have_shapes(seq![Argument::Expression(e)] + rest, seq![c] + shapes),
{
    let arguments = seq![Argument::Expression(e)] + rest;
    let all = seq![c] + shapes;
    assert forall|i: int| #![trigger arguments[i]] 0 <= i < all.len() implies (
    arguments[i] matches Argument::Expression(a) && has_shape(a, all[i])) by {
        if i > 0 {
            assert(all[i] == shapes[i - 1]);
            assert(arguments[i] == rest[i - 1]);
        }
    }
}

/// Whether the declared variable is `bound`, with the value or without one.
pub open spec fn declarator_has_shape(d: VariableDeclarator, s: (Bound, Option<Shape>)) -> bool {
    &&& d.span == Span::empty()
    &&& d.id matches BindingPattern::Identifier(ident) && declares(ident, s.0)
    &&& match s.1 {
        Some(shape) => d.init matches Some(e) && has_shape(e, shape),
        None => d.init is None,
    }
}

/// Whether the statement has the shape.
pub open spec fn statement_has_shape(statement: Statement, s: StatementShape) -> bool
    decreases s,
{
    match s {
        StatementShape::Given(x) => statement == x,
        StatementShape::Expression { span, value } => statement matches Statement::Expression(e)
            && e.span == span && has_shape(e.expression, value),
        StatementShape::Return { value } => statement matches Statement::Return(r) && r.span
            == Span::empty() && (r.argument matches Some(e) && has_shape(e, value)),
        StatementShape::Var { declarators } => statement matches Statement::Declaration(
            Declaration::Variable(d),
        ) && d.span == Span::empty() && d.address == 0 && d.kind == VariableDeclarationKind::Var
            && d.declarations@.len() == declarators.len() && (forall|i: int|
            #![trigger declarators[i]]
            0 <= i < declarators.len() ==> declarator_has_shape(d.declarations@[i], declarators[i])),
        StatementShape::Try { block, block_scope_id, finalizer, finalizer_scope_id } =>
            statement matches Statement::Try(t) && t.span == Span::empty() && t.block.span
                == Span::empty() && t.block.scope_id == block_scope_id && statements_have_shapes(
                t.block.body@,
                block,
            ) && t.handler is None && (t.finalizer matches Some(f) && f.span == Span::empty()
                && f.scope_id == finalizer_scope_id && statements_have_shapes(f.body@, finalizer)),
    }
}

/// Whether the statements have the shapes, one by one.
pub open spec fn statements_have_shapes(list: Seq<Statement>, ss: Seq<StatementShape>) -> bool
    decreases ss,
{
    &&& list.len() == ss.len()
    &&& forall|i: int|
        #![trigger ss[i]]
        0 <= i < ss.len() ==> statement_has_shape(list[i], ss[i])
}

/// The statements themselves.
pub open spec fn given_statements(list: Seq<Statement>) -> Seq<StatementShape> {
    list.map_values(|s: Statement| StatementShape::Given(s))
}

/// An identifier that reads a name.
pub fn make_name(name: &str, symbol_id: Option<SymbolId>) -> (r: Expression)
    ensures
        has_shape(r, Shape::Name { name: name@, symbol_id }),
{
    Expression::Identifier(
        IdentifierReference {
            span: Span::empty(),
            name: name.to_string(),
            symbol_id,
            is_read: true,
            is_write: false,
        },
    )
}

/// An identifier that reads a variable.
pub fn make_read(bound: &BoundIdentifier) -> (r: Expression)
    ensures
        has_shape(r, Shape::Read(bound@)),
{
    bound.create_read_expression()
}

/// A string.
pub fn make_text(value: &str) -> (r: Expression)
    ensures
        has_shape(r, Shape::Text(value@)),
{
    Expression::StringLiteral(StringLiteral { span: Span::empty(), value: value.to_string() })
}

/// A number.
pub fn make_number(raw: &str) -> (r: Expression)
    ensures
        has_shape(r, Shape::Number(raw@)),
{
    Expression::NumericLiteral(NumericLiteral { span: Span::empty(), raw: raw.to_string() })
}

/// A boolean.
pub fn make_boolean(value: bool) -> (r: Expression)
    ensures
        has_shape(r, Shape::Boolean(value)),
{
    Expression::BooleanLiteral(BooleanLiteral { span: Span::empty(), value })
}

/// One of several places of an expression.
pub fn make_shared(e: &Rc<Expression>) -> (r: Expression)
    ensures
        has_shape(r, Shape::Shared(super::unshared(*e))),
{
    Expression::Shared(super::share(e))
}

/// `meta.property`, as in `import.meta`.
pub fn make_meta(meta: &str, property: &str) -> (r: Expression)
    ensures
        has_shape(r, Shape::Meta { meta: meta@, property: property@ }),
{
    Expression::MetaProperty(
        MetaProperty {
            span: Span::empty(),
            meta: meta.to_string(),
            property: property.to_string(),
        },
    )
}

/// `object.property`.
pub fn make_member(object: Expression, property: &str) -> (r: Expression)
    ensures
        forall|o: Shape|
            has_shape(object, o) ==> #[trigger] has_shape(r, member(o, property@)),
{
    Expression::StaticMember(
        Box::new(
            StaticMemberExpression { span: Span::empty(), object, property: property.to_string() },
        ),
    )
}

/// `object[expression]`.
pub fn make_computed(object: Expression, expression: Expression, name: Option<String>) -> (r:
    Expression)
    ensures
        forall|o: Shape, x: Shape|
            has_shape(object, o) && has_shape(expression, x) ==> #[trigger] has_shape(
                r,
                computed(o, x, opt_view(name)),
            ),
{
    Expression::ComputedMember(
        Box::new(
            ComputedMemberExpression {
                span: Span::empty(),
                object,
                expression,
                static_property_name: name,
            },
        ),
    )
}

/// A call.
pub fn make_call_at(span: Span, callee: Expression, arguments: Vec<Argument>) -> (r: Expression)
    ensures
        forall|c: Shape, ss: Seq<Shape>|
            has_shape(callee, c) && arguments_have_shapes(arguments@, ss) ==> #[trigger] has_shape(
                r,
                call_at(span, c, ss),
            ),
{
    Expression::Call(Box::new(CallExpression { span, callee, arguments }))
}

/// A call in no source.
pub fn make_call(callee: Expression, arguments: Vec<Argument>) -> (r: Expression)
    ensures
        forall|c: Shape, ss: Seq<Shape>|
            has_shape(callee, c) && arguments_have_shapes(arguments@, ss) ==> #[trigger] has_shape(
                r,
                call(c, ss),
            ),
{
    make_call_at(Span::empty(), callee, arguments)
}

/// A plain assignment to a variable.
pub fn make_assign(bound: &BoundIdentifier, value: Expression) -> (r: Expression)
    ensures
        forall|v: Shape| has_shape(value, v) ==> #[trigger] has_shape(r, assign(bound@, v)),
{
    Expression::Assignment(
        Box::new(
            AssignmentExpression {
                span: Span::empty(),
                operator: AssignmentOperator::Assign,
                left: bound.create_write_target(),
                right: value,
            },
        ),
    )
}

/// A plain assignment to a computed member.
pub fn make_assign_member(
    object: Expression,
    expression: Expression,
    name: Option<String>,
    value: Expression,
) -> (r: Expression)
    ensures
        forall|o: Shape, x: Shape, v: Shape|
            has_shape(object, o) && has_shape(expression, x) && has_shape(value, v)
                ==> #[trigger] has_shape(r, assign_member(o, x, opt_view(name), v)),
{
    Expression::Assignment(
        Box::new(
            AssignmentExpression {
                span: Span::empty(),
                operator: AssignmentOperator::Assign,
                left: AssignmentTarget::ComputedMember(
                    Box::new(
                        ComputedMemberExpression {
                            span: Span::empty(),
                            object,
                            expression,
                            static_property_name: name,
                        },
                    ),
                ),
                right: value,
            },
        ),
    )
}

/// `left || right`.
pub fn make_or(left: Expression, right: Expression) -> (r: Expression)
    ensures
        forall|a: Shape, b: Shape|
            has_shape(left, a) && has_shape(right, b) ==> #[trigger] has_shape(r, or(a, b)),
{
    Expression::Logical(
        Box::new(
            LogicalExpression { span: Span::empty(), operator: LogicalOperator::Or, left, right },
        ),
    )
}

/// A property under a plain key.
pub fn make_property(key: &str, value: Expression) -> (r: ObjectPropertyKind)
    ensures
        r matches ObjectPropertyKind::ObjectProperty(p) && p.span == Span::empty() && (
        p.key matches PropertyKey::StaticIdentifier(k) && k@ == key@) && p.value == value,
{
    ObjectPropertyKind::ObjectProperty(
        ObjectProperty {
            span: Span::empty(),
            key: PropertyKey::StaticIdentifier(key.to_string()),
            value,
        },
    )
}

/// An object with one property.
pub fn make_object(key: &str, value: Expression) -> (r: Expression)
    ensures
        forall|v: Shape| has_shape(value, v) ==> #[trigger] has_shape(r, object(key@, v)),
{
    let mut properties: Vec<ObjectPropertyKind> = Vec::new();
    properties.push(make_property(key, value));
    Expression::Object(Box::new(ObjectExpression { span: Span::empty(), properties }))
}

/// An array.
pub fn make_array(elements: Vec<Expression>) -> (r: Expression)
    ensures
        forall|ss: Seq<Shape>|
            have_shapes(elements@, ss) ==> #[trigger] has_shape(
                r,
                (Shape::Array { elements: ss }),
            ),
{
    Expression::Array(Box::new(ArrayExpression { span: Span::empty(), elements }))
}

/// A function without a name and parameters that returns a value.
pub fn make_returning(scope_id: ScopeId, value: Expression) -> (r: Expression)
    ensures
        forall|v: Shape| has_shape(value, v) ==> #[trigger] has_shape(r, returning(scope_id, v)),
{
    let mut statements: Vec<Statement> = Vec::new();
    statements.push(make_return(value));
    Expression::Function(
        Box::new(
            Function {
                span: Span::empty(),
                address: 0,
                scope_id,
                function_type: FunctionType::FunctionExpression,
                id: None,
                params: FormalParameters {
                    decorators: Vec::new(),
                    items: Vec::new(),
                    rest: None,
                },
                body: Some(FunctionBody { directives: Vec::new(), statements }),
                is_async: false,
                generator: false,
                typescript_syntax: false,
            },
        ),
    )
}

/// An expression as a statement.
pub fn make_statement_at(span: Span, expression: Expression) -> (r: Statement)
    ensures
        forall|s: Shape|
            has_shape(expression, s) ==> #[trigger] statement_has_shape(
                r,
                (StatementShape::Expression { span, value: s }),
            ),
{
    Statement::Expression(ExpressionStatement { span, expression })
}

/// An expression in no source as a statement.
pub fn make_statement(expression: Expression) -> (r: Statement)
    ensures
        forall|s: Shape|
            has_shape(expression, s) ==> #[trigger] statement_has_shape(
                r,
                (StatementShape::Expression { span: Span::empty(), value: s }),
            ),
{
    make_statement_at(Span::empty(), expression)
}

/// `return value`.
pub fn make_return(value: Expression) -> (r: Statement)
    ensures
        r matches Statement::Return(s) && s.span == Span::empty() && s.argument == Some(value),
{
    Statement::Return(ReturnStatement { span: Span::empty(), argument: Some(value) })
}

/// A declared variable.
pub fn make_declarator(bound: &BoundIdentifier, init: Option<Expression>) -> (r: VariableDeclarator)
    ensures
        r.span == Span::empty(),
        r.id matches BindingPattern::Identifier(ident) && declares(ident, bound@),
        r.init == init,
{
    VariableDeclarator { span: Span::empty(), id: bound.create_binding_pattern(), init }
}

/// `var` with variables.
pub fn make_vars(declarations: Vec<VariableDeclarator>) -> (r: Statement)
    ensures
        r matches Statement::Declaration(Declaration::Variable(d)) && d.span == Span::empty()
            && d.address == 0 && d.kind == VariableDeclarationKind::Var && d.declarations
            == declarations,
{
    Statement::Declaration(
        Declaration::Variable(
            VariableDeclaration {
                span: Span::empty(),
                address: 0,
                kind: VariableDeclarationKind::Var,
                declarations,
            },
        ),
    )
}

/// `var` with one variable and its value.
pub fn make_var(bound: &BoundIdentifier, init: Expression) -> (r: Statement)
    ensures
        forall|s: Shape|
            has_shape(init, s) ==> #[trigger] statement_has_shape(r, var_shape(bound@, s)),
{
    let mut declarations: Vec<VariableDeclarator> = Vec::new();
    declarations.push(make_declarator(bound, Some(init)));
    make_vars(declarations)
}

/// `var` with one variable and its value.
pub open spec fn var_shape(bound: Bound, init: Shape) -> StatementShape {
    StatementShape::Var { declarators: seq![(bound, Some(init))] }
}

/// `try` and `finally`.
pub fn make_try(
    block: Vec<Statement>,
    block_scope_id: ScopeId,
    finalizer: Vec<Statement>,
    finalizer_scope_id: ScopeId,
) -> (r: Statement)
    ensures
        forall|b: Seq<StatementShape>, f: Seq<StatementShape>|
            statements_have_shapes(block@, b) && statements_have_shapes(finalizer@, f)
                ==> #[trigger] statement_has_shape(
                r,
                (StatementShape::Try {
                    block: b,
                    block_scope_id,
                    finalizer: f,
                    finalizer_scope_id,
                }),
            ),
{
    Statement::Try(
        Box::new(
            TryStatement {
                span: Span::empty(),
                block: BlockStatement {
                    span: Span::empty(),
                    scope_id: block_scope_id,
                    body: block,
                },
                handler: None,
                finalizer: Some(
                    BlockStatement {
                        span: Span::empty(),
                        scope_id: finalizer_scope_id,
                        body: finalizer,
                    },
                ),
            },
        ),
    )
}

/// A template.
pub fn make_template(quasis: Vec<TemplateElement>, expressions: Vec<Expression>) -> (r: Expression)
    ensures
        forall|ss: Seq<Shape>|
            have_shapes(expressions@, ss) ==> #[trigger] has_shape(
                r,
                (Shape::Template { quasis: quasi_views(quasis@), expressions: ss }),
            ),
{
    Expression::TemplateLiteral(TemplateLiteral { span: Span::empty(), quasis, expressions })
}

/// One argument.
pub fn one_argument(a: Expression) -> (r: Vec<Argument>)
    ensures
        r@ == seq![Argument::Expression(a)],
{
    let mut r: Vec<Argument> = Vec::new();
    r.push(Argument::Expression(a));
    r
}

} // verus!

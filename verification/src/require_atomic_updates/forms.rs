//! How the forms of a program stand to each other: what each does in terms of its parts.

use super::flow::{
    Flow, property_report, variable_report, walk_arguments, walk_class, walk_class_elements,
    walk_declaration, walk_declarators, walk_expression, walk_expressions, walk_for_each, walk_key,
    walk_left_side,
    walk_maybe_default, walk_object_properties, walk_optional, walk_pattern,
    walk_pattern_elements, walk_pattern_properties, walk_statement, walk_statements, walk_target,
    walk_target_elements, walk_target_properties, walk_children, write_elements,
    write_expression, write_properties, write_target,
};
use super::frame::Scene;
use super::state::TrackedValue;
use super::ways::{joins, law_statements_come_in_order, lemma_joins, lemma_keeps_reports};
use crate::ast::{
    Argument, ArrayAssignmentTarget, ArrayExpression, ArrayPattern, AssignmentExpression,
    AssignmentOperator, AssignmentPattern, AssignmentTarget, AssignmentTargetMaybeDefault,
    AssignmentTargetProperty, AssignmentTargetPropertyIdentifier,
    AssignmentTargetPropertyProperty, AwaitExpression, BindingIdentifier, BindingPattern,
    BindingProperty, BlockStatement, CallExpression, Class, ClassElement,
    ComputedMemberExpression, Declaration, ExportDefaultDeclaration, ExportDefaultDeclarationKind,
    ExportNamedDeclaration, Expression, ExpressionStatement, ForEachStatement, ForStatement,
    ForStatementInit, ForStatementLeft, Function, IdentifierReference, JsxElement,
    ObjectAssignmentTarget, ObjectExpression, ObjectPattern, ObjectPropertyKind, OtherExpression,
    OtherStatement, PrivateFieldExpression, PropertyKey, ReturnStatement, Span, Statement,
    StatementChild, StaticMemberExpression, TemplateLiteral, TryStatement, VariableDeclaration,
    VariableDeclarator, WrappedExpression, Wrapper, YieldExpression,
};
use vstd::prelude::*;

verus! {

/// Expressions in a row do what the first ones do, and then the others.
pub proof fn law_expressions_come_in_order(
    f: Scene,
    first: Seq<Expression>,
    rest: Seq<Expression>,
    one: Expression,
    s: Flow,
)
    ensures
        walk_expressions(f, first + rest, s) == walk_expressions(
            f,
            rest,
            walk_expressions(f, first, s),
        ),
        walk_expressions(f, seq![one], s) == walk_expression(f, one, s),
        walk_expressions(f, Seq::empty(), s) == s,
    decreases rest.len(),
{
    assert(seq![one].drop_last() =~= Seq::empty());
    assert(walk_expressions(f, Seq::empty(), s) == s);
    if rest.len() == 0 {
        assert(first + rest =~= first);
    } else {
        law_expressions_come_in_order(f, first, rest.drop_last(), one, s);
        assert((first + rest).drop_last() =~= first + rest.drop_last());
        assert((first + rest).last() == rest.last());
    }
}

/// The expressions that arguments are.
pub open spec fn argument_values(list: Seq<Argument>) -> Seq<Expression> {
    list.map_values(
        |a: Argument|
            match a {
                Argument::Spread(e) => e.argument,
                Argument::Expression(e) => e,
            },
    )
}

/// A call does what its callee and its arguments do, spread or not, in that order.
pub proof fn law_calls_do_what_their_parts_do(f: Scene, call: CallExpression, s: Flow)
    ensures
        walk_expression(f, Expression::Call(Box::new(call)), s) == walk_expressions(
            f,
            seq![call.callee] + argument_values(call.arguments@),
            s,
        ),
{
    let values = argument_values(call.arguments@);
    law_expressions_come_in_order(f, seq![call.callee], values, call.callee, s);
    lemma_arguments(f, call.arguments@, walk_expression(f, call.callee, s));
}

proof fn lemma_arguments(f: Scene, list: Seq<Argument>, s: Flow)
    ensures
        walk_arguments(f, list, s) == walk_expressions(f, argument_values(list), s),
    decreases list.len(),
{
    if list.len() > 0 {
        lemma_arguments(f, list.drop_last(), s);
        assert(argument_values(list).drop_last() =~= argument_values(list.drop_last()));
    } else {
        assert(argument_values(list) =~= Seq::empty());
    }
}

/// Templates, arrays and expressions of other forms do what their parts do, in order; what stands
/// in parentheses or annotations does what it does without them.
pub proof fn law_expressions_do_what_their_parts_do(
    f: Scene,
    template: TemplateLiteral,
    array: ArrayExpression,
    other: OtherExpression,
    wrapped: WrappedExpression,
    func: Function,
    arrow: crate::ast::ArrowFunctionExpression,
    s: Flow,
)
    ensures
        walk_expression(f, Expression::TemplateLiteral(template), s) == walk_expressions(
            f,
            template.expressions@,
            s,
        ),
        walk_expression(f, Expression::Array(Box::new(array)), s) == walk_expressions(
            f,
            array.elements@,
            s,
        ),
        walk_expression(f, Expression::Other(Box::new(other)), s) == walk_expressions(
            f,
            other.children@,
            s,
        ),
        walk_expression(f, Expression::Wrapped(Box::new(wrapped)), s) == walk_expression(
            f,
            wrapped.expression,
            s,
        ),
        walk_expression(f, Expression::Function(Box::new(func)), s) == s,
        walk_expression(f, Expression::Arrow(Box::new(arrow)), s) == s,
{
}

/// The expressions of a property: its key, where that is one, and its value.
pub open spec fn property_values(p: ObjectPropertyKind) -> Seq<Expression> {
    match p {
        ObjectPropertyKind::ObjectProperty(x) => match x.key {
            PropertyKey::Expression(key) => seq![key.expression, x.value],
            _ => seq![x.value],
        },
        ObjectPropertyKind::SpreadProperty(e) => seq![e],
    }
}

/// An object does what the keys and values of its properties do, in order.
pub proof fn law_objects_do_what_their_properties_do(
    f: Scene,
    object: ObjectExpression,
    first: Seq<ObjectPropertyKind>,
    last: ObjectPropertyKind,
    s: Flow,
)
    requires
        object.properties@ == first.push(last),
    ensures
        walk_expression(f, Expression::Object(Box::new(object)), s) == walk_expressions(
            f,
            property_values(last),
            walk_object_properties(f, first, s),
        ),
        walk_object_properties(f, Seq::empty(), s) == s,
{
    assert(object.properties@.drop_last() =~= first);
    let before = walk_object_properties(f, first, s);
    assert(walk_expression(f, Expression::Object(Box::new(object)), s) == walk_object_properties(
        f,
        object.properties@,
        s,
    ));
    match last {
        ObjectPropertyKind::ObjectProperty(x) => match x.key {
            PropertyKey::Expression(key) => {
                assert(walk_key(f, x.key, before) == walk_expression(f, key.expression, before));
                lemma_two(f, key.expression, x.value, before);
            },
            _ => {
                assert(walk_key(f, x.key, before) == before);
                law_expressions_come_in_order(
                    f,
                    Seq::empty(),
                    Seq::empty(),
                    x.value,
                    before,
                );
            },
        },
        ObjectPropertyKind::SpreadProperty(e) => law_expressions_come_in_order(
            f,
            Seq::empty(),
            Seq::empty(),
            e,
            before,
        ),
    }
}

/// Two expressions in a row.
proof fn lemma_two(f: Scene, a: Expression, b: Expression, s: Flow)
    ensures
        walk_expressions(f, seq![a, b], s) == walk_expression(f, b, walk_expression(f, a, s)),
{
    law_expressions_come_in_order(f, seq![a], seq![b], a, s);
    law_expressions_come_in_order(f, seq![a], seq![b], b, walk_expression(f, a, s));
    assert(seq![a] + seq![b] =~= seq![a, b]);
}

/// An element does what its name, its attributes and its children do, and its name once more where
/// it is closed.
pub proof fn law_elements_do_what_their_parts_do(f: Scene, element: JsxElement, s: Flow)
    ensures
        ({
            let name = match element.name {
                Some(name) => seq![Expression::Identifier(name)],
                None => Seq::empty(),
            };
            let closing = if element.has_closing {
                name
            } else {
                Seq::empty()
            };
            walk_expression(f, Expression::Jsx(Box::new(element)), s) == walk_expressions(
                f,
                ((name + element.attributes@) + element.children@) + closing,
                s,
            )
        }),
{
    let name = match element.name {
        Some(name) => seq![Expression::Identifier(name)],
        None => Seq::empty(),
    };
    let closing = if element.has_closing {
        name
    } else {
        Seq::empty()
    };
    let a = element.attributes@;
    let b = element.children@;
    let any = Expression::This(Span::empty());
    law_expressions_come_in_order(f, (name + a) + b, closing, any, s);
    law_expressions_come_in_order(f, name + a, b, any, s);
    law_expressions_come_in_order(f, name, a, any, s);
    if let Some(n) = element.name {
        law_expressions_come_in_order(
            f,
            Seq::empty(),
            Seq::empty(),
            Expression::Identifier(n),
            s,
        );
        let inner = walk_expressions(f, b, walk_expressions(f, a, walk_expressions(f, name, s)));
        law_expressions_come_in_order(
            f,
            Seq::empty(),
            Seq::empty(),
            Expression::Identifier(n),
            inner,
        );
    }
}

/// `await e` does what `e` does, and then all that was fresh is outdated; `yield e` does the same,
/// and `yield` by itself suspends too.
pub proof fn law_suspensions_outdate_what_is_fresh(
    f: Scene,
    a: AwaitExpression,
    y: YieldExpression,
    alone: YieldExpression,
    s: Flow,
    key: TrackedValue,
)
    requires
        y.argument == Some(a.argument),
        alone.argument is None,
    ensures
        ({
            let t = walk_expression(f, a.argument, s);
            let u = walk_expression(f, Expression::Await(Box::new(a)), s);
            &&& u.reports == t.reports
            &&& !u.reads.fresh_var.contains(key) && !u.reads.fresh_prop.contains(key)
            &&& u.reads.outdated_var.contains(key) <==> t.reads.fresh_var.contains(key)
                || t.reads.outdated_var.contains(key)
            &&& u.reads.outdated_prop.contains(key) <==> t.reads.fresh_prop.contains(key)
                || t.reads.outdated_prop.contains(key)
        }),
        walk_expression(f, Expression::Yield(Box::new(y)), s) == walk_expression(
            f,
            Expression::Await(Box::new(a)),
            s,
        ),
        ({
            let u = walk_expression(f, Expression::Yield(Box::new(alone)), s);
            &&& u.reports == s.reports
            &&& !u.reads.fresh_var.contains(key) && !u.reads.fresh_prop.contains(key)
            &&& u.reads.outdated_var.contains(key) <==> s.reads.fresh_var.contains(key)
                || s.reads.outdated_var.contains(key)
        }),
{
}

/// An identifier that is read, and that other code can write, is fresh afterwards and no longer
/// outdated; any other use of one changes nothing. No read is reported.
pub proof fn law_reads_are_fresh(
    f: Scene,
    ident: IdentifierReference,
    s: Flow,
    key: TrackedValue,
)
    ensures
        ({
            let t = walk_expression(f, Expression::Identifier(ident), s);
            let own = f.spec_reference_key(ident) == Some(key) && ident.is_read
                && f.spec_tracked_for_var(key);
            &&& t.reports == s.reports
            &&& own ==> t.reads.fresh_var.contains(key) && !t.reads.outdated_var.contains(key)
            &&& !own ==> t.reads.fresh_var.contains(key) == s.reads.fresh_var.contains(key)
                && t.reads.outdated_var.contains(key) == s.reads.outdated_var.contains(key)
            &&& t.reads.fresh_prop == s.reads.fresh_prop && t.reads.outdated_prop
                == s.reads.outdated_prop
        }),
{
}

/// A member access does what its object does, and its key, where that is an expression; then the
/// property, where other code can write it, is fresh and no longer outdated. It is the same
/// however the property is named.
pub proof fn law_member_accesses_read_properties(
    f: Scene,
    m: StaticMemberExpression,
    p: PrivateFieldExpression,
    c: ComputedMemberExpression,
    s: Flow,
    key: TrackedValue,
)
    requires
        p.object == m.object,
        c.object == m.object,
    ensures
        ({
            let t = walk_expression(f, m.object, s);
            let u = walk_expression(f, Expression::StaticMember(Box::new(m)), s);
            &&& u.reports == t.reports
            &&& u.reads == read_of(f, m.object, t).reads
            &&& walk_expression(f, Expression::PrivateField(Box::new(p)), s) == u
            &&& walk_expression(f, Expression::ComputedMember(Box::new(c)), s) == read_of(
                f,
                m.object,
                walk_expressions(f, seq![c.object, c.expression], s),
            )
        }),
        ({
            let u = read_of(f, m.object, s);
            let own = f.spec_deepest_object_key(m.object) == Some(key) && f.spec_tracked_for_prop(
                key,
            );
            &&& own ==> u.reads.fresh_prop.contains(key) && !u.reads.outdated_prop.contains(key)
            &&& !own ==> u.reads.fresh_prop.contains(key) == s.reads.fresh_prop.contains(key)
                && u.reads.outdated_prop.contains(key) == s.reads.outdated_prop.contains(key)
            &&& u.reads.fresh_var == s.reads.fresh_var && u.reads.outdated_var
                == s.reads.outdated_var
        }),
{
    lemma_two(f, c.object, c.expression, s);
}

/// A read of a property of an object, and of nothing else.
pub open spec fn read_of(f: Scene, object: Expression, s: Flow) -> Flow {
    super::flow::read_property(f, object, s)
}

/// An assignment writes its target last. A compound one does what the plain one does after its
/// target was read: a variable by itself, a member as in an expression.
pub proof fn law_assignments_write_last(
    f: Scene,
    plain: AssignmentExpression,
    compound: AssignmentExpression,
    s: Flow,
)
    requires
        plain.operator == AssignmentOperator::Assign,
        compound.operator == AssignmentOperator::Compound,
        compound.left == plain.left,
        compound.right == plain.right,
    ensures
        ({
            let a = walk_expression(f, Expression::Assignment(Box::new(plain)), s);
            let b = walk_expression(f, Expression::Assignment(Box::new(compound)), s);
            let after = |e: Expression, s: Flow|
                write_target(
                    f,
                    plain.left,
                    walk_expression(f, plain.right, walk_expression(f, e, s)),
                );
            match plain.left {
                AssignmentTarget::Identifier(ident) => {
                    &&& a == write_target(f, plain.left, walk_expression(f, plain.right, s))
                    &&& b == after(Expression::Identifier(ident), s)
                },
                AssignmentTarget::StaticMember(m) => {
                    &&& a == after(m.object, s)
                    &&& b == after(Expression::StaticMember(m), s)
                },
                AssignmentTarget::PrivateField(m) => {
                    &&& a == after(m.object, s)
                    &&& b == after(Expression::PrivateField(m), s)
                },
                AssignmentTarget::ComputedMember(m) => {
                    &&& a == after(m.expression, walk_expression(f, m.object, s))
                    &&& b == after(Expression::ComputedMember(m), s)
                },
                _ => {
                    &&& a == write_target(
                        f,
                        plain.left,
                        walk_expression(f, plain.right, walk_target(f, plain.left, s)),
                    )
                    &&& b == a
                },
            }
        }),
{
    let l = walk_left_side(f, plain.left, false, s);
    let r = walk_left_side(f, plain.left, true, s);
    assert(walk_expression(f, Expression::Assignment(Box::new(plain)), s) == write_target(
        f,
        plain.left,
        walk_expression(f, plain.right, l),
    ));
    assert(walk_expression(f, Expression::Assignment(Box::new(compound)), s) == write_target(
        f,
        plain.left,
        walk_expression(f, plain.right, r),
    ));
    match plain.left {
        AssignmentTarget::Identifier(ident) => {
            assert(r == walk_expression(f, Expression::Identifier(ident), s));
        },
        AssignmentTarget::StaticMember(m) => {
            assert(r == walk_expression(f, Expression::StaticMember(m), s));
        },
        AssignmentTarget::PrivateField(m) => {
            assert(r == walk_expression(f, Expression::PrivateField(m), s));
        },
        AssignmentTarget::ComputedMember(m) => {
            assert(r == walk_expression(f, Expression::ComputedMember(m), s));
        },
        _ => {},
    }
}

/// A write changes nothing of what was read. A variable that other code can write is reported if it
/// is outdated, and so is a property, under the name of the variable at the bottom; nothing else
/// is.
pub proof fn law_outdated_targets_are_reported(
    f: Scene,
    ident: IdentifierReference,
    m: StaticMemberExpression,
    c: ComputedMemberExpression,
    p: PrivateFieldExpression,
    s: Flow,
)
    requires
        c.object == m.object,
        p.object == m.object,
        c.span == m.span,
        p.span == m.span,
    ensures
        ({
            let t = write_target(f, AssignmentTarget::Identifier(ident), s);
            let outdated = f.spec_reference_key(ident) matches Some(key) && f.spec_tracked_for_var(
                key,
            ) && s.reads.outdated_var.contains(key);
            &&& t.reads == s.reads
            &&& t.reports == (if outdated {
                s.reports.push(variable_report(ident.span, ident.name@))
            } else {
                s.reports
            })
        }),
        ({
            let t = write_target(f, AssignmentTarget::StaticMember(Box::new(m)), s);
            let key = f.spec_deepest_object_key(m.object);
            let outdated = key is Some && f.spec_tracked_for_prop(key->0)
                && s.reads.outdated_prop.contains(key->0);
            &&& t.reads == s.reads
            &&& t.reports == (if outdated {
                s.reports.push(property_report(m.span, f.spec_key_name(key->0)))
            } else {
                s.reports
            })
            &&& write_target(f, AssignmentTarget::ComputedMember(Box::new(c)), s) == t
            &&& write_target(f, AssignmentTarget::PrivateField(Box::new(p)), s) == t
        }),
{
}

/// A target in annotations is written as it is without them.
pub proof fn law_annotated_targets_are_written(
    f: Scene,
    w: WrappedExpression,
    v: WrappedExpression,
    ident: IdentifierReference,
    m: StaticMemberExpression,
    s: Flow,
)
    requires
        v.wrapper != Wrapper::TSInstantiation,
        w.expression == Expression::Wrapped(Box::new(v)),
    ensures
        write_target(f, AssignmentTarget::Wrapped(Box::new(w)), s) == write_target(
            f,
            AssignmentTarget::Wrapped(Box::new(v)),
            s,
        ),
        v.expression == Expression::Identifier(ident) ==> write_target(
            f,
            AssignmentTarget::Wrapped(Box::new(v)),
            s,
        ) == write_target(f, AssignmentTarget::Identifier(ident), s),
        v.expression == Expression::StaticMember(Box::new(m)) ==> write_target(
            f,
            AssignmentTarget::Wrapped(Box::new(v)),
            s,
        ) == write_target(f, AssignmentTarget::StaticMember(Box::new(m)), s),
{
    assert(write_expression(f, w.expression, s) == write_expression(f, v.expression, s));
}

/// Every element of an array pattern is written, in order, and then the rest; a gap is not.
pub proof fn law_array_patterns_write_every_element(
    f: Scene,
    whole: ArrayAssignmentTarget,
    first: ArrayAssignmentTarget,
    last: AssignmentTargetMaybeDefault,
    rest: AssignmentTarget,
    s: Flow,
)
    requires
        first.rest is None,
    ensures
        whole.elements@ == first.elements@.push(Some(last)) && whole.rest is None ==> write_target(
            f,
            AssignmentTarget::Array(Box::new(whole)),
            s,
        ) == write_target(
            f,
            last.binding,
            write_target(f, AssignmentTarget::Array(Box::new(first)), s),
        ),
        whole.elements@ == first.elements@.push(None) && whole.rest is None ==> write_target(
            f,
            AssignmentTarget::Array(Box::new(whole)),
            s,
        ) == write_target(f, AssignmentTarget::Array(Box::new(first)), s),
        whole.elements@ == first.elements@ && whole.rest == Some(rest) ==> write_target(
            f,
            AssignmentTarget::Array(Box::new(whole)),
            s,
        ) == write_target(
            f,
            rest,
            write_target(f, AssignmentTarget::Array(Box::new(first)), s),
        ),
        first.elements@.len() == 0 ==> write_target(
            f,
            AssignmentTarget::Array(Box::new(first)),
            s,
        ) == s,
{
    let all = write_elements(f, whole.elements@, s);
    assert(write_target(f, AssignmentTarget::Array(Box::new(first)), s) == write_elements(
        f,
        first.elements@,
        s,
    ));
    if whole.elements@ == first.elements@.push(Some(last)) {
        assert(whole.elements@.drop_last() =~= first.elements@);
        assert(whole.elements@.last() == Some(last));
    }
    if whole.elements@ == first.elements@.push(None) {
        assert(whole.elements@.drop_last() =~= first.elements@);
        assert(whole.elements@.last() is None);
    }
}

/// Every property of an object pattern is written, in order, and then the rest.
pub proof fn law_object_patterns_write_every_property(
    f: Scene,
    whole: ObjectAssignmentTarget,
    first: ObjectAssignmentTarget,
    name: AssignmentTargetPropertyIdentifier,
    property: AssignmentTargetPropertyProperty,
    rest: AssignmentTarget,
    s: Flow,
)
    requires
        first.rest is None,
    ensures
        whole.properties@ == first.properties@.push(AssignmentTargetProperty::Identifier(name))
            && whole.rest is None ==> write_target(f, AssignmentTarget::Object(Box::new(whole)), s)
            == write_target(
            f,
            AssignmentTarget::Identifier(name.binding),
            write_target(f, AssignmentTarget::Object(Box::new(first)), s),
        ),
        whole.properties@ == first.properties@.push(AssignmentTargetProperty::Property(property))
            && whole.rest is None ==> write_target(f, AssignmentTarget::Object(Box::new(whole)), s)
            == write_target(
            f,
            property.binding.binding,
            write_target(f, AssignmentTarget::Object(Box::new(first)), s),
        ),
        whole.properties@ == first.properties@ && whole.rest == Some(rest) ==> write_target(
            f,
            AssignmentTarget::Object(Box::new(whole)),
            s,
        ) == write_target(
            f,
            rest,
            write_target(f, AssignmentTarget::Object(Box::new(first)), s),
        ),
        first.properties@.len() == 0 ==> write_target(
            f,
            AssignmentTarget::Object(Box::new(first)),
            s,
        ) == s,
{
    let before = write_target(f, AssignmentTarget::Object(Box::new(first)), s);
    assert(before == write_properties(f, first.properties@, s));
    if whole.properties@ == first.properties@.push(AssignmentTargetProperty::Identifier(name)) {
        assert(whole.properties@.drop_last() =~= first.properties@);
        assert(write_properties(f, whole.properties@, s) == write_target(
            f,
            AssignmentTarget::Identifier(name.binding),
            before,
        ));
    }
    if whole.properties@ == first.properties@.push(AssignmentTargetProperty::Property(property)) {
        assert(whole.properties@.drop_last() =~= first.properties@);
        assert(write_properties(f, whole.properties@, s) == write_target(
            f,
            property.binding.binding,
            before,
        ));
    }
}

/// What the parts of a pattern that is assigned to do before it is written: targets as expressions
/// that are read, keys, and defaults.
pub proof fn law_patterns_do_what_their_parts_do(
    f: Scene,
    target: AssignmentTargetMaybeDefault,
    list: Seq<Option<AssignmentTargetMaybeDefault>>,
    properties: Seq<AssignmentTargetProperty>,
    name: AssignmentTargetPropertyIdentifier,
    property: AssignmentTargetPropertyProperty,
    ident: IdentifierReference,
    m: StaticMemberExpression,
    w: WrappedExpression,
    s: Flow,
)
    ensures
        walk_target(f, AssignmentTarget::Identifier(ident), s) == walk_expression(
            f,
            Expression::Identifier(ident),
            s,
        ),
        walk_target(f, AssignmentTarget::StaticMember(Box::new(m)), s) == walk_expression(
            f,
            Expression::StaticMember(Box::new(m)),
            s,
        ),
        walk_target(f, AssignmentTarget::Wrapped(Box::new(w)), s) == walk_expression(
            f,
            w.expression,
            s,
        ),
        walk_target_elements(f, list.push(Some(target)), s) == ({
            let t = walk_target(f, target.binding, walk_target_elements(f, list, s));
            match target.init {
                Some(init) => walk_expression(f, init, t),
                None => t,
            }
        }),
        walk_target_elements(f, list.push(None), s) == walk_target_elements(f, list, s),
        walk_target_properties(
            f,
            properties.push(AssignmentTargetProperty::Identifier(name)),
            s,
        ) == ({
            let t = walk_expression(
                f,
                Expression::Identifier(name.binding),
                walk_target_properties(f, properties, s),
            );
            match name.init {
                Some(init) => walk_expression(f, init, t),
                None => t,
            }
        }),
        walk_target_properties(
            f,
            properties.push(AssignmentTargetProperty::Property(property)),
            s,
        ) == ({
            let t = walk_target_properties(f, properties, s);
            let t = match property.name {
                PropertyKey::Expression(key) => walk_expression(f, key.expression, t),
                _ => t,
            };
            let t = walk_target(f, property.binding.binding, t);
            match property.binding.init {
                Some(init) => walk_expression(f, init, t),
                None => t,
            }
        }),
{
    assert(list.push(Some(target)).drop_last() =~= list);
    assert(list.push(None).drop_last() =~= list);
    let a = properties.push(AssignmentTargetProperty::Identifier(name));
    let b = properties.push(AssignmentTargetProperty::Property(property));
    assert(a.drop_last() =~= properties);
    assert(b.drop_last() =~= properties);
    let e = walk_target_elements(f, list, s);
    let bound = walk_target(f, target.binding, e);
    assert(walk_target_elements(f, list.push(Some(target)), s) == walk_maybe_default(f, target, e));
    assert(walk_maybe_default(f, target, e) == walk_optional(f, target.init, bound));
    lemma_optional_value(f, target.init, bound);
    let t = walk_target_properties(f, properties, s);
    let read = walk_expression(f, Expression::Identifier(name.binding), t);
    assert(walk_target_properties(f, a, s) == walk_optional(f, name.init, read));
    lemma_optional_value(f, name.init, read);
    let k = walk_key(f, property.name, t);
    lemma_key_value(f, property.name, t);
    assert(walk_target_properties(f, b, s) == walk_maybe_default(f, property.binding, k));
    let inner = walk_target(f, property.binding.binding, k);
    assert(walk_maybe_default(f, property.binding, k) == walk_optional(
        f,
        property.binding.init,
        inner,
    ));
    lemma_optional_value(f, property.binding.init, inner);
}

proof fn lemma_optional_value(f: Scene, expr: Option<Expression>, s: Flow)
    ensures
        walk_optional(f, expr, s) == (match expr {
            Some(e) => walk_expression(f, e, s),
            None => s,
        }),
{
}

proof fn lemma_declarations(f: Scene, d: Declaration, s: Flow)
    ensures
        walk_statement(f, Statement::Declaration(d), s) == (match d {
            Declaration::Variable(v) => walk_declarators(f, v.declarations@, s),
            Declaration::Class(c) => walk_class(f, *c, s),
            _ => s,
        }),
{
    assert(walk_statement(f, Statement::Declaration(d), s) == walk_declaration(f, d, s));
}

proof fn lemma_key_value(f: Scene, key: PropertyKey, s: Flow)
    ensures
        walk_key(f, key, s) == (match key {
            PropertyKey::Expression(key) => walk_expression(f, key.expression, s),
            _ => s,
        }),
{
}

/// A pattern that is declared does what its keys and defaults do, and its rest; names do nothing.
pub proof fn law_declared_patterns_do_what_their_parts_do(
    f: Scene,
    id: BindingIdentifier,
    with_default: AssignmentPattern,
    object: ObjectPattern,
    array: ArrayPattern,
    properties: Seq<BindingProperty>,
    property: BindingProperty,
    elements: Seq<Option<BindingPattern>>,
    element: BindingPattern,
    s: Flow,
)
    ensures
        walk_pattern(f, BindingPattern::Identifier(id), s) == s,
        walk_pattern(f, BindingPattern::Assignment(Box::new(with_default)), s) == walk_expression(
            f,
            with_default.right,
            walk_pattern(f, with_default.left, s),
        ),
        walk_pattern(f, BindingPattern::Object(Box::new(object)), s) == ({
            let t = walk_pattern_properties(f, object.properties@, s);
            match object.rest {
                Some(rest) => walk_pattern(f, rest, t),
                None => t,
            }
        }),
        walk_pattern(f, BindingPattern::Array(Box::new(array)), s) == ({
            let t = walk_pattern_elements(f, array.elements@, s);
            match array.rest {
                Some(rest) => walk_pattern(f, rest, t),
                None => t,
            }
        }),
        walk_pattern_properties(f, properties.push(property), s) == ({
            let t = walk_pattern_properties(f, properties, s);
            let t = match property.key {
                PropertyKey::Expression(key) => walk_expression(f, key.expression, t),
                _ => t,
            };
            walk_pattern(f, property.value, t)
        }),
        walk_pattern_elements(f, elements.push(Some(element)), s) == walk_pattern(
            f,
            element,
            walk_pattern_elements(f, elements, s),
        ),
        walk_pattern_elements(f, elements.push(None), s) == walk_pattern_elements(f, elements, s),
{
    assert(properties.push(property).drop_last() =~= properties);
    assert(elements.push(Some(element)).drop_last() =~= elements);
    assert(elements.push(None).drop_last() =~= elements);
    lemma_key_value(f, property.key, walk_pattern_properties(f, properties, s));
}

/// The statements of an optional block.
pub open spec fn block_of(block: Option<BlockStatement>) -> Seq<Statement> {
    match block {
        Some(b) => b.body@,
        None => Seq::empty(),
    }
}

/// A `try` does what its block, its handler and its finalizer do, one after the other; a block does
/// what its statements do.
pub proof fn law_try_does_what_its_blocks_do(
    f: Scene,
    stmt: TryStatement,
    block: BlockStatement,
    s: Flow,
)
    requires
        stmt.handler matches Some(h) ==> h.param is None,
    ensures
        ({
            let handler = match stmt.handler {
                Some(h) => h.body.body@,
                None => Seq::empty(),
            };
            walk_statement(f, Statement::Try(Box::new(stmt)), s) == walk_statements(
                f,
                (stmt.block.body@ + handler) + block_of(stmt.finalizer),
                s,
            )
        }),
        walk_statement(f, Statement::Block(block), s) == walk_statements(f, block.body@, s),
{
    let handler = match stmt.handler {
        Some(h) => h.body.body@,
        None => Seq::empty(),
    };
    let both = stmt.block.body@ + handler;
    law_statements_come_in_order(f, both, block_of(stmt.finalizer), s);
    law_statements_come_in_order(f, stmt.block.body@, handler, s);
}

/// The pattern of a handler comes before its statements.
pub proof fn law_handlers_bind_first(f: Scene, stmt: TryStatement, param: BindingPattern, s: Flow)
    requires
        stmt.handler matches Some(h) && h.param == Some(param),
    ensures
        walk_statement(f, Statement::Try(Box::new(stmt)), s) == walk_statements(
            f,
            stmt.handler->0.body.body@ + block_of(stmt.finalizer),
            walk_pattern(f, param, walk_statements(f, stmt.block.body@, s)),
        ),
{
    let t = walk_pattern(f, param, walk_statements(f, stmt.block.body@, s));
    law_statements_come_in_order(f, stmt.handler->0.body.body@, block_of(stmt.finalizer), t);
}

/// What is returned, exported or declared is looked at as it is by itself. A function that is
/// declared is left to itself.
pub proof fn law_statements_do_what_their_expressions_do(
    f: Scene,
    stmt: ExpressionStatement,
    ret: ReturnStatement,
    named: ExportNamedDeclaration,
    default: ExportDefaultDeclaration,
    d: Declaration,
    func: Function,
    class: Class,
    s: Flow,
)
    ensures
        walk_statement(f, Statement::Expression(stmt), s) == walk_expression(f, stmt.expression, s),
        ret.argument == Some(stmt.expression) ==> walk_statement(f, Statement::Return(ret), s)
            == walk_expression(f, stmt.expression, s),
        ret.argument is None ==> walk_statement(f, Statement::Return(ret), s) == s,
        named.declaration == Some(d) ==> walk_statement(f, Statement::ExportNamed(named), s)
            == walk_statement(f, Statement::Declaration(d), s),
        default.declaration == ExportDefaultDeclarationKind::Expression(stmt.expression)
            ==> walk_statement(f, Statement::ExportDefault(default), s) == walk_expression(
            f,
            stmt.expression,
            s,
        ),
        walk_statement(f, Statement::Declaration(Declaration::Function(Box::new(func))), s) == s,
        walk_statement(f, Statement::Declaration(Declaration::Class(Box::new(class))), s)
            == walk_expression(f, Expression::Class(Box::new(class)), s),
        default.declaration == ExportDefaultDeclarationKind::Class(Box::new(class))
            ==> walk_statement(f, Statement::ExportDefault(default), s) == walk_expression(
            f,
            Expression::Class(Box::new(class)),
            s,
        ),
{
    lemma_optional_value(f, ret.argument, s);
    assert(walk_statement(f, Statement::Return(ret), s) == walk_optional(f, ret.argument, s));
    lemma_declarations(f, Declaration::Function(Box::new(func)), s);
    lemma_declarations(f, Declaration::Class(Box::new(class)), s);
    assert(walk_expression(f, Expression::Class(Box::new(class)), s) == walk_class(f, class, s));
}

/// Variables are declared one after another: the pattern first, and then the value.
pub proof fn law_variables_are_declared_in_order(
    f: Scene,
    decl: VariableDeclaration,
    first: Seq<VariableDeclarator>,
    last: VariableDeclarator,
    s: Flow,
)
    requires
        decl.declarations@ == first.push(last),
    ensures
        walk_statement(f, Statement::Declaration(Declaration::Variable(decl)), s) == ({
            let t = walk_pattern(f, last.id, walk_declarators(f, first, s));
            match last.init {
                Some(init) => walk_expression(f, init, t),
                None => t,
            }
        }),
        walk_declarators(f, Seq::empty(), s) == s,
{
    lemma_declarations(f, Declaration::Variable(decl), s);
    let t = walk_pattern(f, last.id, walk_declarators(f, first, s));
    lemma_optional_value(f, last.init, t);
    assert(decl.declarations@.last() == last);
    assert(decl.declarations@.drop_last() =~= first);
}

/// A class does what its decorators, its base and its elements do, in order: static blocks and the
/// values of fields run, methods do not.
pub proof fn law_classes_do_what_their_elements_do(
    f: Scene,
    class: Class,
    first: Seq<ClassElement>,
    last: ClassElement,
    s: Flow,
)
    requires
        class.body@ == first.push(last),
    ensures
        ({
            let any = match class.super_class {
                Some(e) => walk_expression(f, e, walk_expressions(f, class.decorators@, s)),
                None => walk_expressions(f, class.decorators@, s),
            };
            let before = walk_class_elements(f, first, any);
            walk_expression(f, Expression::Class(Box::new(class)), s) == match last {
                ClassElement::StaticBlock(b) => walk_statements(f, b.body@, before),
                ClassElement::MethodDefinition(m) => walk_expressions(
                    f,
                    m.decorators@ + key_values(m.key),
                    before,
                ),
                ClassElement::PropertyDefinition(p) => walk_expressions(
                    f,
                    (p.decorators@ + key_values(p.key)) + optional_values(p.value),
                    before,
                ),
                ClassElement::AccessorProperty(p) => walk_expressions(
                    f,
                    (p.decorators@ + key_values(p.key)) + optional_values(p.value),
                    before,
                ),
                ClassElement::IndexSignature(_) => before,
            }
        }),
        walk_class_elements(f, Seq::empty(), s) == s,
{
    let any = match class.super_class {
        Some(e) => walk_expression(f, e, walk_expressions(f, class.decorators@, s)),
        None => walk_expressions(f, class.decorators@, s),
    };
    let before = walk_class_elements(f, first, any);
    assert(class.body@.drop_last() =~= first);
    lemma_optional_value(f, class.super_class, walk_expressions(f, class.decorators@, s));
    assert(walk_expression(f, Expression::Class(Box::new(class)), s) == walk_class(f, class, s));
    assert(walk_class(f, class, s) == walk_class_elements(f, class.body@, any));
    match last {
        ClassElement::MethodDefinition(m) => lemma_member(
            f,
            m.decorators@,
            m.key,
            None,
            before,
        ),
        ClassElement::PropertyDefinition(p) => lemma_member(
            f,
            p.decorators@,
            p.key,
            p.value,
            before,
        ),
        ClassElement::AccessorProperty(p) => lemma_member(
            f,
            p.decorators@,
            p.key,
            p.value,
            before,
        ),
        _ => {},
    }
}

/// The expression of a key.
pub open spec fn key_values(key: PropertyKey) -> Seq<Expression> {
    match key {
        PropertyKey::Expression(key) => seq![key.expression],
        _ => Seq::empty(),
    }
}

/// An expression that may be left out.
pub open spec fn optional_values(expr: Option<Expression>) -> Seq<Expression> {
    match expr {
        Some(e) => seq![e],
        None => Seq::empty(),
    }
}

proof fn lemma_member(
    f: Scene,
    decorators: Seq<Expression>,
    key: PropertyKey,
    value: Option<Expression>,
    s: Flow,
)
    ensures
        walk_expressions(f, decorators + key_values(key), s) == walk_key(
            f,
            key,
            walk_expressions(f, decorators, s),
        ),
        walk_expressions(f, (decorators + key_values(key)) + optional_values(value), s)
            == walk_optional(f, value, walk_key(f, key, walk_expressions(f, decorators, s))),
{
    let any = Expression::This(Span::empty());
    let t = walk_expressions(f, decorators, s);
    law_expressions_come_in_order(f, decorators, key_values(key), any, s);
    if let PropertyKey::Expression(k) = key {
        law_expressions_come_in_order(f, Seq::empty(), Seq::empty(), k.expression, t);
    }
    let u = walk_key(f, key, t);
    law_expressions_come_in_order(
        f,
        decorators + key_values(key),
        optional_values(value),
        any,
        s,
    );
    if let Some(e) = value {
        law_expressions_come_in_order(f, Seq::empty(), Seq::empty(), e, u);
    }
}

/// A `for` does what it starts with and what it tests, and then its body and what comes after each
/// turn, or nothing.
pub proof fn law_for_loops(f: Scene, stmt: ForStatement, s: Flow)
    ensures
        ({
            let started = match stmt.init {
                Some(ForStatementInit::VariableDeclaration(d)) => walk_statement(
                    f,
                    Statement::Declaration(Declaration::Variable(d)),
                    s,
                ),
                Some(ForStatementInit::Expression(e)) => walk_expression(f, e, s),
                None => s,
            };
            let tested = walk_expressions(f, optional_values(stmt.test), started);
            let turned = walk_expressions(
                f,
                optional_values(stmt.update),
                walk_statement(f, stmt.body, tested),
            );
            joins(walk_statement(f, Statement::For(Box::new(stmt)), s), tested, turned)
        }),
{
    if let Some(ForStatementInit::VariableDeclaration(d)) = stmt.init {
        lemma_declarations(f, Declaration::Variable(d), s);
    }
    let started = match stmt.init {
        Some(ForStatementInit::VariableDeclaration(d)) => walk_declarators(f, d.declarations@, s),
        Some(ForStatementInit::Expression(e)) => walk_expression(f, e, s),
        None => s,
    };
    lemma_optional(f, stmt.test, started);
    let tested = walk_optional(f, stmt.test, started);
    let body = walk_statement(f, stmt.body, tested);
    lemma_optional(f, stmt.update, body);
    let turned = walk_optional(f, stmt.update, body);
    lemma_keeps_reports(f, stmt.body, stmt.update, tested);
    lemma_joins(turned.merge(tested), tested, turned);
}

proof fn lemma_optional(f: Scene, expr: Option<Expression>, s: Flow)
    ensures
        walk_expressions(f, optional_values(expr), s) == walk_optional(f, expr, s),
{
    if let Some(e) = expr {
        law_expressions_come_in_order(f, Seq::empty(), Seq::empty(), e, s);
    }
}

/// A loop over members does what its object does, and then, or not, what it declares or assigns and
/// its body; `in` and `of` alike.
pub proof fn law_loops_over_members(f: Scene, stmt: ForEachStatement, s: Flow)
    ensures
        walk_statement(f, Statement::ForIn(Box::new(stmt)), s) == walk_statement(
            f,
            Statement::ForOf(Box::new(stmt)),
            s,
        ),
        ({
            let started = walk_expression(f, stmt.right, s);
            let taken = match stmt.left {
                ForStatementLeft::VariableDeclaration(d) => walk_statement(
                    f,
                    Statement::Declaration(Declaration::Variable(d)),
                    started,
                ),
                ForStatementLeft::AssignmentTarget(target) => write_target(
                    f,
                    target,
                    walk_target(f, target, started),
                ),
            };
            joins(
                walk_statement(f, Statement::ForOf(Box::new(stmt)), s),
                started,
                walk_statement(f, stmt.body, taken),
            )
        }),
{
    let started = walk_expression(f, stmt.right, s);
    assert(walk_statement(f, Statement::ForOf(Box::new(stmt)), s) == walk_for_each(f, stmt, s));
    assert(walk_statement(f, Statement::ForIn(Box::new(stmt)), s) == walk_for_each(f, stmt, s));
    if let ForStatementLeft::VariableDeclaration(d) = stmt.left {
        lemma_declarations(f, Declaration::Variable(d), started);
    }
    let taken = match stmt.left {
        ForStatementLeft::VariableDeclaration(d) => walk_declarators(f, d.declarations@, started),
        ForStatementLeft::AssignmentTarget(target) => write_target(
            f,
            target,
            walk_target(f, target, started),
        ),
    };
    super::ways::lemma_keeps_turns(f, stmt, s);
    let body = walk_statement(f, stmt.body, taken);
    lemma_joins(body.merge(started), started, body);
}

/// The parts of a statement of another form come in order.
pub proof fn law_other_statements_do_what_their_parts_do(
    f: Scene,
    stmt: OtherStatement,
    first: Seq<StatementChild>,
    last: StatementChild,
    s: Flow,
)
    requires
        stmt.children@ == first.push(last),
    ensures
        ({
            let before = walk_children(f, first, s);
            walk_statement(f, Statement::Other(Box::new(stmt)), s) == match last {
                StatementChild::Expression(e) => walk_expression(f, e, before),
                StatementChild::Statement(x) => walk_statement(f, x, before),
                StatementChild::BindingPattern(p) => walk_pattern(f, p, before),
            }
        }),
        walk_children(f, Seq::empty(), s) == s,
{
    assert(walk_statement(f, Statement::Other(Box::new(stmt)), s) == walk_children(
        f,
        stmt.children@,
        s,
    ));
    assert(stmt.children@.drop_last() =~= first);
}

} // verus!

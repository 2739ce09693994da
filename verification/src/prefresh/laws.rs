//! Which values are components, and what is registered of them.

use super::components::{
    Registered, after_arguments, after_declaration, after_expression, after_inside,
    after_statement, after_statements, argument_components_held, components_held,
    components_registered, hold_component, holds_component, is_curried, is_placed, position,
    statement_component, statement_held,
};
use super::resolver::{RefreshIdentifierResolver, next_dot, pieces};
use super::used::{element_symbol, used_in_jsx, used_symbol};
use crate::ast::shape::{Shape, has_shape};
use crate::ast::{
    Argument, ArrowFunctionExpression, AssignmentOperator, AssignmentTarget, BindingIdentifier,
    BindingPattern, CallExpression, Class, Declaration, ExportDefaultDeclaration,
    ExportDefaultDeclarationKind, ExportNamedDeclaration, Expression, Function, OtherForm, Span,
    Statement, SymbolId, VariableDeclaration,
};
use crate::sites::{Place, Walk, sites_of};
use crate::text::opt_view;
use crate::transform::{text_at, writing_in};
use vstd::prelude::*;

verus! {

/// A name that starts with an upper-case letter of ASCII.
pub open spec fn starts_upper(name: Seq<char>) -> bool {
    name.len() > 0 && 'A' <= name[0] <= 'Z'
}

/// An arrow function whose body is an arrow function.
pub open spec fn returns_an_arrow(arrow: ArrowFunctionExpression) -> bool {
    &&& arrow.expression
    &&& arrow.body.statements@.len() > 0
    &&& arrow.body.statements@[0] matches Statement::Expression(e) && e.expression is Arrow
}

/// A function is a component, and so is an arrow function that does not return an arrow function,
/// and a variable with the name of one. A call holds a component exactly if its callee is a name, a
/// member or a call, and one of its arguments, at any place, holds one. Nothing else does.
pub proof fn law_what_holds_a_component(expr: Expression)
    ensures
        holds_component(expr) <==> match expr {
            Expression::Function(_) => true,
            Expression::Arrow(arrow) => !returns_an_arrow(*arrow),
            Expression::Identifier(ident) => starts_upper(ident.name@),
            Expression::Call(call) => (call.callee is Identifier || call.callee is StaticMember
                || call.callee is ComputedMember || call.callee is Call) && exists|i: int|
                0 <= i < call.arguments@.len() && (
                #[trigger] call.arguments@[i] matches Argument::Expression(e) && holds_component(
                    e,
                )),
            _ => false,
        },
{
    if let Expression::Call(call) = expr {
        lemma_hold_component(call.arguments@);
    }
}

proof fn lemma_hold_component(list: Seq<Argument>)
    ensures
        hold_component(list) <==> exists|i: int|
            0 <= i < list.len() && (#[trigger] list[i] matches Argument::Expression(e)
                && holds_component(e)),
    decreases list.len(),
{
    if list.len() > 0 {
        let rest = list.drop_last();
        lemma_hold_component(rest);
        assert(list[list.len() - 1] == list.last());
        assert(forall|i: int| 0 <= i < rest.len() ==> #[trigger] rest[i] == list[i]);
        if hold_component(rest) {
            let i = choose|i: int|
                0 <= i < rest.len() && (#[trigger] rest[i] matches Argument::Expression(e)
                    && holds_component(e));
            assert(list[i] == rest[i]);
        }
        assert forall|i: int|
            0 <= i < list.len() && (#[trigger] list[i] matches Argument::Expression(e)
                && holds_component(e)) implies hold_component(list) by {
            if i < rest.len() {
                assert(rest[i] == list[i]);
            }
        }
    }
}

/// The callee of a call that loads a module.
pub open spec fn is_loader(callee: Expression) -> bool {
    match callee.spec_inner_expression() {
        Expression::Other(other) => other.form == OtherForm::ImportExpression,
        Expression::Identifier(ident) => "require"@.is_prefix_of(ident.name@)
            || "import"@.is_prefix_of(ident.name@),
        _ => false,
    }
}

/// A declaration of one variable that has the name of a component declares one exactly if its value
/// is a function, an arrow function that returns none, or a call that loads no module and holds a
/// component; or if it is such a call or a tagged template and the variable is used as a component.
/// It does so by itself as well as exported.
pub proof fn law_variables_that_are_components(
    decl: VariableDeclaration,
    id: BindingIdentifier,
    init: Expression,
    used: Set<SymbolId>,
    span: Span,
    address: u32,
)
    requires
        decl.declarations@.len() == 1,
        decl.declarations@[0].id == BindingPattern::Identifier(id),
        decl.declarations@[0].init == Some(init),
    ensures
        ({
            let is_one = starts_upper(id.name@) && match init {
                Expression::Function(_) => true,
                Expression::Arrow(arrow) => !returns_an_arrow(*arrow),
                Expression::Call(call) => !is_loader(call.callee) && (holds_component(init)
                    || used.contains(id.symbol_id)),
                Expression::Other(other) => other.form == OtherForm::TaggedTemplate
                    && used.contains(id.symbol_id),
                _ => false,
            };
            let component = if is_one {
                Some(id)
            } else {
                None
            };
            &&& statement_component(Statement::Declaration(Declaration::Variable(decl)), used)
                == component
            &&& statement_component(
                Statement::ExportNamed(
                    ExportNamedDeclaration {
                        span,
                        address,
                        declaration: Some(Declaration::Variable(decl)),
                    },
                ),
                used,
            ) == component
        }),
{
    assert(decl.declarations@[0].id.spec_binding_identifier() == Some(id));
}

/// A declaration of more or fewer than one variable, of a pattern, or without a value declares no
/// component.
pub proof fn law_other_variables_are_no_components(decl: VariableDeclaration, used: Set<SymbolId>)
    requires
        decl.declarations@.len() != 1 || decl.declarations@[0].init is None
            || decl.declarations@[0].id is Object || decl.declarations@[0].id is Array,
    ensures
        statement_component(Statement::Declaration(Declaration::Variable(decl)), used) is None,
{
}

/// A function that is declared under the name of a component is one, and so is a class, in each of
/// the three ways to declare them; unless they are there for the type checker alone.
pub proof fn law_declared_functions_and_classes(
    func: Function,
    class: Class,
    named: ExportNamedDeclaration,
    default: ExportDefaultDeclaration,
    used: Set<SymbolId>,
)
    ensures
        ({
            let component = match func.id {
                Some(id) if !func.typescript_syntax && starts_upper(id.name@) => Some(id),
                _ => None,
            };
            let d = Declaration::Function(Box::new(func));
            &&& statement_component(Statement::Declaration(d), used) == component
            &&& statement_component(
                Statement::ExportNamed(ExportNamedDeclaration { declaration: Some(d), ..named }),
                used,
            ) == component
            &&& statement_component(
                Statement::ExportDefault(
                    ExportDefaultDeclaration {
                        declaration: ExportDefaultDeclarationKind::Function(Box::new(func)),
                        ..default
                    },
                ),
                used,
            ) == component
        }),
        ({
            let component = match class.id {
                Some(id) if !class.declare && starts_upper(id.name@) => Some(id),
                _ => None,
            };
            let d = Declaration::Class(Box::new(class));
            &&& statement_component(Statement::Declaration(d), used) == component
            &&& statement_component(
                Statement::ExportNamed(ExportNamedDeclaration { declaration: Some(d), ..named }),
                used,
            ) == component
            &&& statement_component(
                Statement::ExportDefault(
                    ExportDefaultDeclaration {
                        declaration: ExportDefaultDeclarationKind::Class(Box::new(class)),
                        ..default
                    },
                ),
                used,
            ) == component
        }),
{
}

/// A component that is registered gets the next variable, under the name that it keeps, and after
/// all others; the variable is written.
pub proof fn law_registering_adds_one(g: Registered, name: Seq<char>)
    ensures
        ({
            let h = g.register(name);
            &&& h.list == g.list.push((g.next(), name))
            &&& h.names == g.names.push(g.next().name)
            &&& h.unresolved == g.unresolved
            &&& h.made == g.made.push(writing_in(g.scope_id, g.next()))
            &&& g.next().symbol_id == g.names.len() as SymbolId
        }),
{
}

/// A statement registers what is inside it first, and then the component that it declares, under
/// its own name.
pub proof fn law_declared_components_come_last(
    g: Registered,
    stmt: Statement,
    used: Set<SymbolId>,
    text: Seq<char>,
)
    ensures
        ({
            let inside = after_inside(g, stmt, text);
            let after = after_statement(g, stmt, used, text);
            match statement_component(stmt, used) {
                Some(id) => after.list == inside.list.push((inside.next(), id.name@)),
                None => after == inside,
            }
        }),
{
}

/// Statements register one after another.
pub proof fn law_statements_register_in_order(
    g: Registered,
    a: Seq<Statement>,
    b: Seq<Statement>,
    used: Set<SymbolId>,
    text: Seq<char>,
)
    ensures
        after_statements(g, a + b, used, text) == after_statements(
            after_statements(g, a, used, text),
            b,
            used,
            text,
        ),
        forall|stmt: Statement|
            after_statements(g, seq![stmt], used, text) == #[trigger] after_statement(
                g,
                stmt,
                used,
                text,
            ),
    decreases b.len(),
{
    if b.len() == 0 {
        assert(a + b =~= a);
    } else {
        law_statements_register_in_order(g, a, b.drop_last(), used, text);
        assert((a + b).drop_last() =~= a + b.drop_last());
        assert((a + b).last() == b.last());
    }
    assert forall|stmt: Statement|
        after_statements(g, seq![stmt], used, text) == #[trigger] after_statement(
            g,
            stmt,
            used,
            text,
        ) by {
        assert(seq![stmt].drop_last() =~= Seq::empty());
        assert(after_statements(g, Seq::empty(), used, text) == g);
    }
}

/// A function or arrow function inside a call is registered under the name of what the call is in,
/// and of the callees round it, with `$` between; each argument in its turn.
pub proof fn law_components_in_calls_are_registered(
    g: Registered,
    name: Seq<char>,
    call: CallExpression,
    first: Seq<Argument>,
    last: Expression,
    text: Seq<char>,
)
    requires
        call.callee is Identifier || call.callee is StaticMember || call.callee is ComputedMember
            || call.callee is Call,
        call.arguments@ == first.push(Argument::Expression(last)),
    ensures
        ({
            let inner = name + "$"@ + text_at(text, call.callee.spec_span());
            let whole = Expression::Call(Box::new(call));
            let before = after_arguments(g, inner, first, text);
            &&& after_expression(g, name, whole, false, text) == after_expression(
                before,
                inner,
                last,
                false,
                text,
            )
            &&& after_expression(g, name, whole, true, text) == after_expression(
                g,
                name,
                whole,
                false,
                text,
            )
            &&& first.len() == 0 ==> before == g
            &&& last is Function ==> after_expression(g, name, whole, false, text).list
                == before.list.push((before.next(), inner))
            &&& last is Identifier ==> after_expression(g, name, whole, false, text) == before
        }),
{
    let inner = name + "$"@ + text_at(text, call.callee.spec_span());
    let whole = Expression::Call(Box::new(call));
    assert(call.arguments@.drop_last() =~= first);
    assert(call.arguments@.last() == Argument::Expression(last));
    assert(after_expression(g, name, whole, false, text) == after_arguments(
        g,
        inner,
        call.arguments@,
        text,
    ));
    assert(after_expression(g, name, whole, true, text) == after_arguments(
        g,
        inner,
        call.arguments@,
        text,
    ));
    let before = after_arguments(g, inner, first, text);
    assert(after_arguments(g, inner, call.arguments@, text) == after_expression(
        before,
        inner,
        last,
        false,
        text,
    ));
    if last is Function {
        assert(after_expression(before, inner, last, false, text) == before.register(inner));
    }
}

/// A spread argument registers nothing.
pub proof fn law_spread_arguments_register_nothing(
    g: Registered,
    name: Seq<char>,
    first: Seq<Argument>,
    last: Argument,
    text: Seq<char>,
)
    requires
        last is Spread,
    ensures
        after_arguments(g, name, first.push(last), text) == after_arguments(g, name, first, text),
{
    assert(first.push(last).drop_last() =~= first);
}

/// A call that a module exports by default registers its components under `%default%`; a variable
/// registers those in its value under its own name, but not the value itself.
pub proof fn law_names_of_inner_components(
    g: Registered,
    call: CallExpression,
    export: ExportDefaultDeclaration,
    decl: VariableDeclaration,
    id: BindingIdentifier,
    func: Function,
    text: Seq<char>,
)
    requires
        export.declaration == ExportDefaultDeclarationKind::Expression(
            Expression::Call(Box::new(call)),
        ),
        decl.declarations@.len() == 1,
        decl.declarations@[0].id == BindingPattern::Identifier(id),
        starts_upper(id.name@),
        !is_loader(call.callee),
    ensures
        after_inside(g, Statement::ExportDefault(export), text) == after_expression(
            g,
            "%default%"@,
            Expression::Call(Box::new(call)),
            false,
            text,
        ),
        decl.declarations@[0].init == Some(Expression::Call(Box::new(call))) ==> after_declaration(
            g,
            Declaration::Variable(decl),
            text,
        ) == after_expression(g, id.name@, Expression::Call(Box::new(call)), true, text),
        decl.declarations@[0].init == Some(Expression::Function(Box::new(func)))
            ==> after_declaration(g, Declaration::Variable(decl), text) == g,
{
    assert(decl.declarations@[0].id.spec_binding_identifier() == Some(id));
}

/// A component in an argument is assigned to the variable that holds it, and stands there as it
/// was.
pub proof fn law_components_are_assigned_in_place(
    before: Expression,
    after: Expression,
    g: Registered,
    name: Seq<char>,
    text: Seq<char>,
)
    requires
        components_held(before, after, g, name, false, text),
    ensures
        before is Function || (before matches Expression::Arrow(a) && !returns_an_arrow(*a)) ==> (
        after matches Expression::Assignment(a) && a.operator == AssignmentOperator::Assign
            && a.right == before && (a.left matches AssignmentTarget::Identifier(target)
            && target.name@ == g.next().name && target.symbol_id == Some(g.next().symbol_id))),
        !(before is Function) && !(before is Arrow) && !(before is Call) ==> after == before,
{
    if before is Function || (before matches Expression::Arrow(a) && !is_curried(*a)) {
        let shape = crate::ast::shape::assign(g.next(), Shape::Given(before));
        assert(has_shape(after, shape));
        if let Expression::Assignment(a) = after {
            assert(has_shape(a.right, Shape::Given(before)));
        }
    }
}

/// A variable is used as a component exactly if it is the name of an element, or the first argument
/// of a call of one of the four functions that make elements, by name or as a member.
pub proof fn law_what_is_used_as_a_component(
    body: Seq<Statement>,
    call: CallExpression,
    symbol_id: SymbolId,
)
    ensures
        element_symbol(call) == Some(symbol_id) <==> ({
            let name = match call.callee {
                Expression::Identifier(ident) => Some(ident.name@),
                Expression::StaticMember(m) => Some(m.property@),
                _ => None,
            };
            &&& name == Some("createElement"@) || name == Some("jsx"@) || name == Some("jsxDEV"@)
                || name == Some("jsxs"@)
            &&& call.arguments@.len() > 0
            &&& call.arguments@[0] matches Argument::Expression(Expression::Identifier(ident))
                && ident.symbol_id == Some(symbol_id)
        }),
        used_in_jsx(body).contains(symbol_id) <==> exists|place: Place| #[trigger]
            sites_of(Walk { attributes: false, only_required: false }, body).contains(place) && (
            match place {
                Place::Call(call) => element_symbol(call) == Some(symbol_id),
                Place::JsxName(ident) => ident.symbol_id == Some(symbol_id),
                _ => false,
            }),
{
    let list = sites_of(Walk { attributes: false, only_required: false }, body);
    if used_in_jsx(body).contains(symbol_id) {
        let i = choose|i: int|
            0 <= i < list.len() && used_symbol(#[trigger] list[i]) == Some(symbol_id);
        assert(list.contains(list[i]));
    }
    if exists|place: Place| #[trigger]
        list.contains(place) && (match place {
            Place::Call(call) => element_symbol(call) == Some(symbol_id),
            Place::JsxName(ident) => ident.symbol_id == Some(symbol_id),
            _ => false,
        }) {
        let place = choose|place: Place| #[trigger]
            list.contains(place) && (match place {
                Place::Call(call) => element_symbol(call) == Some(symbol_id),
                Place::JsxName(ident) => ident.symbol_id == Some(symbol_id),
                _ => false,
            });
        let i = choose|i: int| 0 <= i < list.len() && list[i] == place;
        assert(used_symbol(list[i]) == Some(symbol_id));
    }
}

/// A text without a dot is one piece; a dot ends a piece, and the rest is taken apart in the same
/// way.
pub proof fn law_dots_end_pieces(first: Seq<char>, rest: Seq<char>)
    requires
        forall|i: int| 0 <= i < first.len() ==> #[trigger] first[i] != '.',
    ensures
        pieces(first, 0) == seq![first],
        pieces(first.push('.') + rest, 0) == seq![first] + pieces(rest, 0),
{
    lemma_no_dot(first, 0);
    assert(first.subrange(0, first.len() as int) =~= first);
    let text = first.push('.') + rest;
    lemma_first_dot(text, 0, first.len() as int);
    assert(text.subrange(0, first.len() as int) =~= first);
    lemma_shifted(text, rest, first.len() as int + 1, 0);
}

proof fn lemma_no_dot(text: Seq<char>, from: int)
    requires
        0 <= from <= text.len(),
        forall|i: int| from <= i < text.len() ==> #[trigger] text[i] != '.',
    ensures
        next_dot(text, from) == text.len(),
    decreases text.len() - from,
{
    if from < text.len() {
        lemma_no_dot(text, from + 1);
    }
}

proof fn lemma_first_dot(text: Seq<char>, from: int, at: int)
    requires
        0 <= from <= at < text.len(),
        text[at] == '.',
        forall|i: int| from <= i < at ==> #[trigger] text[i] != '.',
    ensures
        next_dot(text, from) == at,
    decreases at - from,
{
    if from < at {
        lemma_first_dot(text, from + 1, at);
    }
}

/// The rest of a text has the pieces that it has by itself.
proof fn lemma_shifted(text: Seq<char>, rest: Seq<char>, by: int, from: int)
    requires
        0 <= by,
        0 <= from <= rest.len(),
        text.len() == by + rest.len(),
        forall|i: int| 0 <= i < rest.len() ==> text[by + i] == #[trigger] rest[i],
    ensures
        pieces(text, by + from) == pieces(rest, from),
    decreases rest.len() - from,
{
    lemma_shifted_dot(text, rest, by, from);
    let dot = next_dot(rest, from);
    super::resolver::lemma_next_dot(rest, from);
    if dot < rest.len() {
        lemma_shifted(text, rest, by, dot + 1);
        assert(text.subrange(by + from, by + dot) =~= rest.subrange(from, dot));
        assert(by + (dot + 1) == by + dot + 1);
    } else {
        assert(text.subrange(by + from, text.len() as int) =~= rest.subrange(
            from,
            rest.len() as int,
        ));
    }
}

proof fn lemma_shifted_dot(text: Seq<char>, rest: Seq<char>, by: int, from: int)
    requires
        0 <= by,
        0 <= from <= rest.len(),
        text.len() == by + rest.len(),
        forall|i: int| 0 <= i < rest.len() ==> text[by + i] == #[trigger] rest[i],
    ensures
        next_dot(text, by + from) == by + next_dot(rest, from),
    decreases rest.len() - from,
{
    if from < rest.len() {
        assert(text[by + from] == rest[from]);
        if rest[from] != '.' {
            lemma_shifted_dot(text, rest, by, from + 1);
        }
    }
}

/// A name without a dot names an identifier; one with a dot names a member, or, after `import`, a
/// property of the module and perhaps a member of that.
pub proof fn law_names_of_runtime_functions(
    r: RefreshIdentifierResolver,
    first: Seq<char>,
    second: Seq<char>,
    third: Seq<char>,
)
    requires
        forall|i: int| 0 <= i < first.len() ==> #[trigger] first[i] != '.',
        forall|i: int| 0 <= i < second.len() ==> #[trigger] second[i] != '.',
        forall|i: int| 0 <= i < third.len() ==> #[trigger] third[i] != '.',
    ensures
        r.names(first) <==> (r matches RefreshIdentifierResolver::Identifier(name) && name@
            == first),
        first != "import"@ ==> (r.names(first.push('.') + second) <==> (
        r matches RefreshIdentifierResolver::Member(object, property) && object@ == first
            && property@ == second)),
        first == "import"@ ==> (r.names(first.push('.') + second) <==> (
        r matches RefreshIdentifierResolver::Import(property, rest) && property@ == second
            && rest is None)),
        first == "import"@ ==> (r.names(first.push('.') + (second.push('.') + third)) <==> (
        r matches RefreshIdentifierResolver::Import(property, Some(rest)) && property@ == second
            && rest@ == third)),
{
    law_dots_end_pieces(first, second);
    law_dots_end_pieces(second, third);
    law_dots_end_pieces(third, third);
    law_dots_end_pieces(first, second.push('.') + third);
    assert(pieces(first.push('.') + second, 0) =~= seq![first, second]);
    assert(pieces(first.push('.') + (second.push('.') + third), 0) =~= seq![first, second, third]);
    if let RefreshIdentifierResolver::Import(_, rest) = r {
        assert(opt_view(rest) is None <==> rest is None);
    }
}

/// The statements of a program stay, in their order. After each that declares a component stands
/// the one that assigns it to its variable, and no other statement is added.
pub proof fn law_statements_stay_in_order(
    before: Seq<Statement>,
    after: Seq<Statement>,
    g: Registered,
    used: Set<SymbolId>,
    text: Seq<char>,
)
    requires
        components_registered(before, after, g, used, text),
    ensures
        exists|at: Seq<int>| #[trigger] is_placing(before, after, g, used, text, at),
{
    let at = Seq::new(before.len() + 1, |k: int| position(before, used, k));
    assert forall|k: int| 0 <= k < before.len() implies #[trigger] is_placed_at(
        before,
        after,
        g,
        used,
        text,
        k,
        at[k],
    ) && at[k + 1] == at[k] + (if statement_component(before[k], used) is Some {
        2int
    } else {
        1int
    }) by {
        assert(is_placed(before, after, g, used, text, k));
        assert(position(before, used, k + 1) == position(before, used, k) + (
        if statement_component(before[k], used) is Some {
            2int
        } else {
            1int
        }));
    }
    assert(is_placing(before, after, g, used, text, at));
}

/// Statement `k` stands at `at`, and after it the one that assigns the component that it declares.
pub open spec fn is_placed_at(
    before: Seq<Statement>,
    after: Seq<Statement>,
    g: Registered,
    used: Set<SymbolId>,
    text: Seq<char>,
    k: int,
    at: int,
) -> bool {
    let here = after_statements(g, before.take(k), used, text);
    let bound = after_inside(here, before[k], text).next();
    &&& 0 <= at < after.len()
    &&& statement_held(before[k], after[at], here, text)
    &&& statement_component(before[k], used) matches Some(id) ==> at + 1 < after.len() && (
    after[at + 1] matches Statement::Expression(e) && has_shape(
        e.expression,
        crate::ast::shape::assign(
            bound,
            Shape::Name { name: id.name@, symbol_id: Some(id.symbol_id) },
        ),
    ))
}

/// The places of the statements of a program, and then its end.
pub open spec fn is_placing(
    before: Seq<Statement>,
    after: Seq<Statement>,
    g: Registered,
    used: Set<SymbolId>,
    text: Seq<char>,
    at: Seq<int>,
) -> bool {
    &&& at.len() == before.len() + 1
    &&& at[0] == 0
    &&& at.last() == after.len()
    &&& forall|k: int|
        0 <= k < before.len() ==> #[trigger] is_placed_at(before, after, g, used, text, k, at[k])
            && at[k + 1] == at[k] + (if statement_component(before[k], used) is Some {
            2int
        } else {
            1int
        })
}

/// A statement stays as it is, but for the components in the value of its variable, or in a call
/// that it exports by default.
pub proof fn law_statements_stay_as_they_are(
    before: Statement,
    after: Statement,
    g: Registered,
    text: Seq<char>,
)
    requires
        statement_held(before, after, g, text),
    ensures
        match before {
            Statement::Declaration(Declaration::Variable(d)) => {
                &&& after matches Statement::Declaration(Declaration::Variable(e))
                &&& e.span == d.span && e.kind == d.kind && e.address == d.address
                &&& e.declarations@.len() == d.declarations@.len()
                &&& d.declarations@.len() == 1 ==> e.declarations@[0].id == d.declarations@[0].id
                    && (e.declarations@[0].init is Some) == (d.declarations@[0].init is Some)
            },
            Statement::Declaration(_) => after == before,
            Statement::ExportNamed(e) => (after matches Statement::ExportNamed(x) && x.address
                == e.address) && ((e.declaration is Some && e.declaration->0 is Variable) || after
                == before),
            Statement::ExportDefault(e) => (after matches Statement::ExportDefault(x) && x.address
                == e.address) && (after == before || (
            e.declaration matches ExportDefaultDeclarationKind::Expression(x) && x is Call)),
            _ => after == before,
        },
{
}

/// In a call, each argument stays in its place: a function is assigned to its variable there, and
/// what is no function and no call is left alone. The callee stays.
pub proof fn law_arguments_stay_in_place(
    call: CallExpression,
    after: Expression,
    g: Registered,
    name: Seq<char>,
    text: Seq<char>,
    i: int,
)
    requires
        components_held(Expression::Call(Box::new(call)), after, g, name, false, text),
        call.callee is Identifier || call.callee is StaticMember || call.callee is ComputedMember
            || call.callee is Call,
        0 <= i < call.arguments@.len(),
    ensures
        after matches Expression::Call(c) && c.callee == call.callee && c.span == call.span
            && c.arguments@.len() == call.arguments@.len() && (match call.arguments@[i] {
            Argument::Spread(_) => c.arguments@[i] == call.arguments@[i],
            Argument::Expression(e) => {
                &&& c.arguments@[i] matches Argument::Expression(x)
                &&& e is Function ==> (x matches Expression::Assignment(a) && a.right == e)
                &&& !(e is Function) && !(e is Arrow) && !(e is Call) ==> x == e
            },
        }),
{
    let inner = name + "$"@ + text_at(text, call.callee.spec_span());
    let c = after->Call_0;
    assert(argument_components_held(call.arguments@, c.arguments@, g, inner, text));
    if let Argument::Expression(e) = call.arguments@[i] {
        let x = c.arguments@[i]->Expression_0;
        let here = after_arguments(g, inner, call.arguments@.take(i), text);
        assert(components_held(e, x, here, inner, false, text));
        law_components_are_assigned_in_place(e, x, here, inner, text);
    }
}

} // verus!

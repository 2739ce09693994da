//! Contexts that outlive the module that makes them.
//!
//! A context is kept on the function that makes contexts, under a name that tells the file and
//! the place where it is made.

use super::hash::{hash_base36, short_hash};
use crate::ast::shape::{
    Shape, arguments_have_shapes, assign_member, call, computed, has_shape, have_shapes,
    make_assign_member, make_call, make_computed, make_member, make_object, make_or,
    make_read, make_shared, make_template, make_text, member, object, one_argument, or, quasi_views,
};
use crate::ast::{
    Argument, CallExpression, Expression, FunctionType, ImportDeclarationSpecifier,
    ModuleExportName, Program, ScopeId, Statement, SymbolId, TemplateElement, WrappedExpression,
    Wrapper,
};
use crate::fx::{set_contains, set_insert, string_map, string_map_get, string_map_insert};
use crate::text::{concat, concat3, decimal, decimal_string, opt_view, str_eq};
use crate::transform::{TransformCtx, TransformState, in_source, naming_in, readings_in, text_at};
use crate::traverse::{Ancestor, AncestorNode, AncestorType, Bound, BoundIdentifier, Made, bounds};
use rustc_hash::{FxHashMap, FxHashSet};
use std::rc::Rc;
use vstd::prelude::*;

verus! {

broadcast use vstd::std_specs::hash::group_hash_axioms;

/// The contexts of a file.
#[derive(Debug)]
pub struct Contexts {
    /// What `createContext` is imported as.
    pub create_context_bindings: FxHashSet<SymbolId>,
    /// The hash of the name of the file.
    pub file_hash: String,
    /// How many contexts each kind of place has made.
    pub contexts: FxHashMap<String, u32>,
}

/// The name that the hash of a file is made from.
pub open spec fn spec_context_filename(state: TransformState) -> Seq<char> {
    match state.source_path {
        Some(path) if path@.len() > 0 => path@,
        _ => if state.filename@.len() > 0 {
            state.filename@
        } else {
            "unnamed"@
        },
    }
}

/// The name that the hash of a file is made from.
pub fn context_filename(state: &TransformState) -> (r: String)
    ensures
        r@ == spec_context_filename(*state),
{
    if let Some(path) = &state.source_path {
        if path.as_str().unicode_len() > 0 {
            return path.clone();
        }
    }
    if state.filename.as_str().unicode_len() > 0 {
        return state.filename.clone();
    }
    "unnamed".to_string()
}

/// Whether a specifier imports `createContext` as `symbol_id`.
pub open spec fn imports_create_context(s: ImportDeclarationSpecifier, symbol_id: SymbolId) -> bool {
    s matches ImportDeclarationSpecifier::ImportSpecifier(s) && s.local.symbol_id == symbol_id && (
    match s.imported {
        ModuleExportName::IdentifierName(name) => name@ == "createContext"@,
        ModuleExportName::StringLiteral(name) => name@ == "createContext"@,
    })
}

/// Whether a module has `createContext`.
pub open spec fn has_create_context(source: Seq<char>) -> bool {
    source == "preact"@ || source == "react"@ || source == "preact/compat"@
}

/// Whether a statement imports `createContext` as `symbol_id`.
pub open spec fn statement_imports(statement: Statement, symbol_id: SymbolId) -> bool {
    statement matches Statement::Import(i) && has_create_context(i.source@) && (
    i.specifiers matches Some(specifiers) && exists|k: int|
        0 <= k < specifiers@.len() && imports_create_context(#[trigger] specifiers@[k], symbol_id))
}

/// What `createContext` is imported as.
pub open spec fn create_context_symbols(body: Seq<Statement>) -> Set<SymbolId> {
    Set::new(
        |symbol_id: SymbolId|
            exists|i: int|
                0 <= i < body.len() && statement_imports(#[trigger] body[i], symbol_id),
    )
}

/// Adds what a statement imports `createContext` as.
fn collect_from_statement(statement: &Statement, set: &mut FxHashSet<SymbolId>)
    ensures
        forall|s: SymbolId| #[trigger]
            final(set)@.contains(s) <==> old(set)@.contains(s) || statement_imports(*statement, s),
{
    let Statement::Import(import_decl) = statement else {
        return;
    };
    let source = import_decl.source.as_str();
    if !str_eq(source, "preact") && !str_eq(source, "react") && !str_eq(source, "preact/compat") {
        return;
    }
    let Some(specifiers) = &import_decl.specifiers else {
        return;
    };
    let ghost start = set@;
    let mut i: usize = 0;
    while i < specifiers.len()
        invariant
            i <= specifiers@.len(),
            forall|s: SymbolId| #[trigger]
                set@.contains(s) <==> start.contains(s) || exists|k: int|
                    0 <= k < i && imports_create_context(#[trigger] specifiers@[k], s),
        decreases specifiers@.len() - i,
    {
        let ghost before = set@;
        let mut found: Option<SymbolId> = None;
        if let ImportDeclarationSpecifier::ImportSpecifier(specifier) = &specifiers[i] {
            let imported = match &specifier.imported {
                ModuleExportName::IdentifierName(name) => name.as_str(),
                ModuleExportName::StringLiteral(name) => name.as_str(),
            };
            if str_eq(imported, "createContext") {
                found = Some(specifier.local.symbol_id);
                set_insert(set, specifier.local.symbol_id);
            }
        }
        proof {
            assert forall|s: SymbolId| #[trigger] set@.contains(s) <==> start.contains(s) || exists|
                k: int,
            | 0 <= k < i + 1 && imports_create_context(#[trigger] specifiers@[k], s) by {
                assert(imports_create_context(specifiers@[i as int], s) <==> found == Some(s));
                if before.contains(s) && !start.contains(s) {
                    let k = choose|k: int|
                        0 <= k < i && imports_create_context(#[trigger] specifiers@[k], s);
                    assert(imports_create_context(specifiers@[k], s));
                }
            }
        }
        i += 1;
    }
}

/// What `createContext` is imported as.
pub fn collect_create_context_bindings(program: &Program) -> (r: FxHashSet<SymbolId>)
    ensures
        r@ == create_context_symbols(program.body@),
{
    let body = &program.body;
    let mut set: FxHashSet<SymbolId> = FxHashSet::default();
    let mut i: usize = 0;
    while i < body.len()
        invariant
            i <= body@.len(),
            forall|s: SymbolId| #[trigger]
                set@.contains(s) <==> exists|k: int|
                    0 <= k < i && statement_imports(#[trigger] body@[k], s),
        decreases body@.len() - i,
    {
        let ghost before = set@;
        collect_from_statement(&body[i], &mut set);
        proof {
            assert forall|s: SymbolId| #[trigger] set@.contains(s) <==> exists|k: int|
                0 <= k < i + 1 && statement_imports(#[trigger] body@[k], s) by {
                assert(set@.contains(s) <==> before.contains(s) || statement_imports(
                    body@[i as int],
                    s,
                ));
                if before.contains(s) {
                    let k = choose|k: int| 0 <= k < i && statement_imports(#[trigger] body@[k], s);
                    assert(statement_imports(body@[k], s));
                }
            }
        }
        i += 1;
    }
    proof {
        assert(set@ =~= create_context_symbols(body@));
    }
    set
}

/// Whether a call is one of `createContext`.
pub open spec fn creates_context(call: CallExpression, symbols: Set<SymbolId>) -> bool {
    call.callee.spec_inner_expression() matches Expression::Identifier(ident) && (
    ident.symbol_id matches Some(s) && symbols.contains(s))
}

/// What a place adds to the name of a context that is made there.
pub open spec fn context_suffix(parent: Ancestor, text: Seq<char>) -> Seq<char> {
    match parent.node {
        AncestorNode::ObjectProperty(f) if parent.ty == AncestorType::ObjectPropertyValue =>
            match f.key_name {
            Some(name) => "__"@ + name@,
            None => Seq::empty(),
        },
        AncestorNode::VariableDeclarator(f) if parent.ty == AncestorType::VariableDeclaratorInit =>
            match f.binding {
            Some(b) => "$"@ + b.name@,
            None => Seq::empty(),
        },
        AncestorNode::Assignment(f) if parent.ty == AncestorType::AssignmentExpressionRight =>
            match f.identifier_name {
            Some(name) => "_"@ + name@,
            None => "_"@ + short_hash(text_at(text, f.left_span)),
        },
        _ => Seq::empty(),
    }
}

/// Whether the target of an assignment that gives a context its name stands in the source.
pub open spec fn suffix_is_sourced(parent: Ancestor, text: Seq<char>) -> bool {
    parent.ty == AncestorType::AssignmentExpressionRight ==> (
    parent.node matches AncestorNode::Assignment(f) ==> (f.identifier_name is None ==> in_source(
        text,
        f.left_span,
    )))
}

/// What a place adds to the name of the context that it makes as its `count`-th.
pub open spec fn numbered(suffix: Seq<char>, count: nat) -> Seq<char> {
    if count > 0 {
        suffix + decimal(count)
    } else {
        suffix
    }
}

/// How many contexts a kind of place has made.
pub open spec fn count_of(counts: Map<Seq<char>, u32>, suffix: Seq<char>) -> nat {
    if counts.contains_key(suffix) {
        counts[suffix] as nat
    } else {
        0
    }
}

/// The parameters of the innermost arrow function or declared function from `index` on.
pub open spec fn context_params_from(ancestors: Seq<Ancestor>, index: int) -> Seq<Bound>
    decreases ancestors.len() - index,
{
    if 0 <= index < ancestors.len() {
        let a = ancestors[index];
        match a.node {
            AncestorNode::Arrow(f) if a.ty == AncestorType::ArrowFunctionExpressionBody => bounds(
                f.params@,
            ),
            AncestorNode::Function(f) if a.ty == AncestorType::FunctionBody && f.function_type
                == FunctionType::FunctionDeclaration => bounds(f.params@),
            _ => if a.ty == AncestorType::ProgramBody || a.ty == AncestorType::ProgramDirectives
                || a.ty == AncestorType::ProgramHashbang {
                Seq::empty()
            } else {
                context_params_from(ancestors, index + 1)
            },
        }
    } else {
        Seq::empty()
    }
}

/// The texts of the name of a context that depends on parameters.
pub open spec fn context_quasis(prefix: Seq<char>, count: nat) -> Seq<(Seq<char>, bool)> {
    Seq::new(
        count + 1,
        |i: int|
            if i == 0 {
                (prefix, false)
            } else {
                (""@, i == count)
            },
    )
}

/// The name of a context: a text, or a template with the parameters that it depends on.
pub open spec fn context_id(prefix: Seq<char>, params: Seq<Bound>) -> Shape {
    if params.len() == 0 {
        Shape::Text(prefix)
    } else {
        Shape::Template {
            quasis: context_quasis(prefix, params.len()),
            expressions: params.map_values(|b: Bound| Shape::Read(b)),
        }
    }
}

/// The member that the name of a context is, where it is one text.
pub open spec fn context_member(prefix: Seq<char>, params: Seq<Bound>) -> Option<Seq<char>> {
    if params.len() == 0 {
        Some(prefix)
    } else {
        None
    }
}

/// The expression inside parentheses and annotations, but for those in angle brackets.
pub open spec fn first_non_ts(expr: Expression) -> Expression
    decreases expr,
{
    match expr {
        Expression::Wrapped(w) => if w.wrapper == Wrapper::TSTypeAssertion || w.wrapper
            == Wrapper::TSInstantiation {
            expr
        } else {
            first_non_ts(w.expression)
        },
        _ => expr,
    }
}

/// The expression inside parentheses and annotations, but for those in angle brackets.
pub fn clone_first_non_ts_expression(expr: Expression) -> (r: Expression)
    ensures
        r == first_non_ts(expr),
    decreases expr,
{
    match expr {
        Expression::Wrapped(w) => {
            let WrappedExpression { span, wrapper, expression } = *w;
            if wrapper == Wrapper::TSTypeAssertion || wrapper == Wrapper::TSInstantiation {
                Expression::Wrapped(Box::new(WrappedExpression { span, wrapper, expression }))
            } else {
                clone_first_non_ts_expression(expression)
            }
        },
        expr => expr,
    }
}

/// The first argument of a call, where it is an expression.
pub open spec fn context_default(call: CallExpression) -> Option<Expression> {
    if call.arguments@.len() > 0 {
        match call.arguments@[0] {
            Argument::Expression(e) => Some(first_non_ts(e)),
            Argument::Spread(_) => None,
        }
    } else {
        None
    }
}

/// `callee[id] || (callee[id] = callee(arguments))`.
pub open spec fn kept_context(
    callee: Expression,
    prefix: Seq<char>,
    params: Seq<Bound>,
    arguments: Seq<Shape>,
) -> Shape {
    let id = context_id(prefix, params);
    let name = context_member(prefix, params);
    or(
        computed(Shape::Shared(callee), id, name),
        assign_member(Shape::Shared(callee), id, name, call(Shape::Shared(callee), arguments)),
    )
}

/// What a call of `createContext` becomes: a context that is kept, with its default brought up
/// to date.
pub open spec fn context_shape(
    call_expr: CallExpression,
    prefix: Seq<char>,
    params: Seq<Bound>,
) -> Shape {
    match context_default(call_expr) {
        Some(value) => call(
            member(Shape::Name { name: "Object"@, symbol_id: None }, "assign"@),
            seq![
                kept_context(call_expr.callee, prefix, params, seq![Shape::Shared(value)]),
                object("__"@, Shape::Shared(value)),
            ],
        ),
        None => kept_context(call_expr.callee, prefix, params, Seq::empty()),
    }
}

/// The references, in a scope, that a call of `createContext` comes by: to the parameters that
/// the name of the context depends on, and to `Object` where the context has a default.
pub open spec fn context_references(
    call_expr: CallExpression,
    params: Seq<Bound>,
    scope_id: ScopeId,
) -> Seq<Made> {
    readings_in(scope_id, params) + if context_default(call_expr) is Some {
        seq![naming_in(scope_id, "Object"@, None)]
    } else {
        Seq::empty()
    }
}

/// The parameters of the innermost arrow function or declared function round the current node.
pub fn closest_context_params(ctx: &TransformCtx) -> (r: Vec<BoundIdentifier>)
    requires
        ctx.traverse.wf(),
    ensures
        bounds(r@) == context_params_from(ctx.traverse.ancestry.outward(), 0),
{
    let ghost all = ctx.traverse.ancestry.outward();
    let none: Vec<BoundIdentifier> = Vec::new();
    proof {
        assert(bounds(none@) =~= Seq::empty());
    }
    let mut index: usize = 0;
    loop
        invariant
            ctx.traverse.wf(),
            all == ctx.traverse.ancestry.outward(),
            context_params_from(all, 0) == context_params_from(all, index as int),
            bounds(none@) == Seq::<Bound>::empty(),
        decreases all.len() - index,
    {
        let Some(ancestor) = ctx.traverse.ancestry.outward_at(index) else {
            return none;
        };
        match &ancestor.node {
            AncestorNode::Arrow(f) if ancestor.ty == AncestorType::ArrowFunctionExpressionBody => {
                return copy_bounds(&f.params);
            },
            AncestorNode::Function(f) if ancestor.ty == AncestorType::FunctionBody
                && f.function_type == FunctionType::FunctionDeclaration => {
                return copy_bounds(&f.params);
            },
            _ => {
                if ancestor.ty == AncestorType::ProgramBody || ancestor.ty
                    == AncestorType::ProgramDirectives || ancestor.ty
                    == AncestorType::ProgramHashbang {
                    return none;
                }
            },
        }
        index += 1;
    }
}

/// The same names once more.
fn copy_bounds(list: &Vec<BoundIdentifier>) -> (r: Vec<BoundIdentifier>)
    ensures
        bounds(r@) == bounds(list@),
{
    let mut r: Vec<BoundIdentifier> = Vec::new();
    let mut i: usize = 0;
    while i < list.len()
        invariant
            i <= list@.len(),
            r@.len() == i,
            forall|j: int| 0 <= j < i ==> (#[trigger] r@[j])@ == list@[j]@,
        decreases list@.len() - i,
    {
        r.push(list[i].copy());
        i += 1;
    }
    proof {
        assert(bounds(r@) =~= bounds(list@));
    }
    r
}

/// The name of a context, with the references to the parameters that it depends on.
pub fn build_context_identifier_expression(
    prefix: &str,
    params: &Vec<BoundIdentifier>,
    ctx: &mut TransformCtx,
) -> (r: Expression)
    ensures
        has_shape(r, context_id(prefix@, bounds(params@))),
        final(ctx).referred(
            *old(ctx),
            readings_in(old(ctx).traverse.scoping.current_scope_id, bounds(params@)),
        ),
{
    ctx.create_read_references(params);
    copy_context_identifier(prefix, params)
}

/// The name of a context once more.
fn copy_context_identifier(prefix: &str, params: &Vec<BoundIdentifier>) -> (r: Expression)
    ensures
        has_shape(r, context_id(prefix@, bounds(params@))),
{
    if params.len() == 0 {
        return make_text(prefix);
    }
    let n = params.len();
    let mut quasis: Vec<TemplateElement> = Vec::new();
    quasis.push(TemplateElement { raw: prefix.to_string(), tail: false });
    let mut expressions: Vec<Expression> = Vec::new();
    let mut i: usize = 0;
    while i < n
        invariant
            i <= n,
            n == params@.len(),
            quasis@.len() == i + 1,
            quasis@[0].raw@ == prefix@,
            !quasis@[0].tail,
            forall|j: int|
                1 <= j <= i ==> (#[trigger] quasis@[j]).raw@ == ""@ && quasis@[j].tail == (j == n),
            expressions@.len() == i,
            forall|j: int|
                0 <= j < i ==> has_shape(#[trigger] expressions@[j], Shape::Read(params@[j]@)),
        decreases n - i,
    {
        expressions.push(make_read(&params[i]));
        quasis.push(TemplateElement { raw: "".to_string(), tail: i + 1 == n });
        i += 1;
    }
    proof {
        let shapes = bounds(params@).map_values(|b: Bound| Shape::Read(b));
        assert(have_shapes(expressions@, shapes)) by {
            assert forall|j: int| 0 <= j < shapes.len() implies has_shape(
                expressions@[j],
                #[trigger] shapes[j],
            ) by {
                assert(shapes[j] == Shape::Read(params@[j]@));
            }
        }
        assert(quasi_views(quasis@) =~= context_quasis(prefix@, n as nat));
    }
    make_template(quasis, expressions)
}

/// `Object.assign`, with its reference.
pub fn object_assign_callee(ctx: &mut TransformCtx) -> (r: Expression)
    ensures
        has_shape(r, member(Shape::Name { name: "Object"@, symbol_id: None }, "assign"@)),
        final(ctx).referred(*old(ctx), seq![old(ctx).naming("Object"@, None)]),
{
    make_member(ctx.create_ident_expr("Object", None), "assign")
}

/// `callee[id] || (callee[id] = callee(arguments))`.
fn keep_context(
    callee: &Rc<Expression>,
    prefix: &str,
    params: &Vec<BoundIdentifier>,
    arguments: Vec<Argument>,
    ctx: &mut TransformCtx,
) -> (r: Expression)
    ensures
        final(ctx).referred(
            *old(ctx),
            readings_in(old(ctx).traverse.scoping.current_scope_id, bounds(params@)),
        ),
        forall|shapes: Seq<Shape>|
            arguments_have_shapes(arguments@, shapes) ==> #[trigger] has_shape(
                r,
                kept_context(crate::ast::unshared(*callee), prefix@, bounds(params@), shapes),
            ),
{
    let is_text = params.len() == 0;
    let name_left = if is_text {
        Some(prefix.to_string())
    } else {
        None
    };
    let name_right = if is_text {
        Some(prefix.to_string())
    } else {
        None
    };
    let ghost name = context_member(prefix@, bounds(params@));
    let ghost id = context_id(prefix@, bounds(params@));
    let ghost shared = Shape::Shared(crate::ast::unshared(*callee));
    let left = make_computed(
        make_shared(callee),
        build_context_identifier_expression(prefix, params, ctx),
        name_left,
    );
    proof {
        assert(opt_view(name_left) == name);
        assert(opt_view(name_right) == name);
        assert(has_shape(left, computed(shared, id, name)));
    }
    let created = make_call(make_shared(callee), arguments);
    let right = make_assign_member(
        make_shared(callee),
        copy_context_identifier(prefix, params),
        name_right,
        created,
    );
    let r = make_or(left, right);
    proof {
        assert forall|shapes: Seq<Shape>|
            arguments_have_shapes(arguments@, shapes) implies #[trigger] has_shape(
            r,
            kept_context(crate::ast::unshared(*callee), prefix@, bounds(params@), shapes),
        ) by {
            assert(has_shape(created, call(shared, shapes)));
            assert(has_shape(right, assign_member(shared, id, name, call(shared, shapes))));
            assert(has_shape(
                r,
                or(
                    computed(shared, id, name),
                    assign_member(shared, id, name, call(shared, shapes)),
                ),
            ));
        }
    }
    r
}

impl Contexts {
    /// Whether a call is one of `createContext`.
    pub fn is_create_context_call(&self, call_expr: &CallExpression) -> (r: bool)
        ensures
            r == creates_context(*call_expr, self.create_context_bindings@),
    {
        match call_expr.callee.get_inner_expression() {
            Expression::Identifier(ident) => match ident.symbol_id {
                Some(symbol_id) => set_contains(&self.create_context_bindings, &symbol_id),
                None => false,
            },
            _ => false,
        }
    }

    /// What the current place adds to the name of a context.
    fn suffix(&self, ctx: &TransformCtx) -> (r: String)
        requires
            ctx.traverse.wf(),
            suffix_is_sourced(ctx.traverse.ancestry.stack@.last(), ctx.state.source_text@),
        ensures
            r@ == context_suffix(ctx.traverse.ancestry.stack@.last(), ctx.state.source_text@),
    {
        proof {
            reveal_strlit("");
            assert(""@ =~= Seq::<char>::empty());
        }
        let parent = ctx.traverse.parent();
        match &parent.node {
            AncestorNode::ObjectProperty(f) if parent.ty == AncestorType::ObjectPropertyValue => {
                match &f.key_name {
                    Some(name) => concat("__", name.as_str()),
                    None => String::new(),
                }
            },
            AncestorNode::VariableDeclarator(f) if parent.ty
                == AncestorType::VariableDeclaratorInit => {
                match &f.binding {
                    Some(b) => concat("$", b.name.as_str()),
                    None => String::new(),
                }
            },
            AncestorNode::Assignment(f) if parent.ty == AncestorType::AssignmentExpressionRight => {
                match &f.identifier_name {
                    Some(name) => concat("_", name.as_str()),
                    None => {
                        let hash = hash_base36(ctx.source_at(f.left_span));
                        concat("_", hash.as_str())
                    },
                }
            },
            _ => String::new(),
        }
    }

    /// The name of the next context at the current place.
    pub open spec fn next_prefix(self, ctx: TransformCtx) -> Seq<char> {
        let suffix = context_suffix(
            ctx.traverse.ancestry.stack@.last(),
            ctx.state.source_text@,
        );
        "_"@ + self.file_hash@ + numbered(
            suffix,
            count_of(string_map(self.contexts@), suffix),
        )
    }

    /// Turns a call of `createContext` into one that keeps the context.
    pub fn transform_create_context_call(
        &mut self,
        call_expr: CallExpression,
        ctx: &mut TransformCtx,
    ) -> (r: Expression)
        requires
            old(ctx).traverse.wf(),
            suffix_is_sourced(old(ctx).traverse.ancestry.stack@.last(), old(ctx).state.source_text@),
            count_of(
                string_map(old(self).contexts@),
                context_suffix(old(ctx).traverse.ancestry.stack@.last(), old(ctx).state.source_text@),
            ) < u32::MAX,
        ensures
            has_shape(
                r,
                context_shape(
                    call_expr,
                    old(self).next_prefix(*old(ctx)),
                    context_params_from(old(ctx).traverse.ancestry.outward(), 0),
                ),
            ),
            ({
                let suffix = context_suffix(
                    old(ctx).traverse.ancestry.stack@.last(),
                    old(ctx).state.source_text@,
                );
                let counts = string_map(old(self).contexts@);
                string_map(final(self).contexts@) == counts.insert(
                    suffix,
                    (count_of(counts, suffix) + 1) as u32,
                )
            }),
            final(ctx).referred(
                *old(ctx),
                context_references(
                    call_expr,
                    context_params_from(old(ctx).traverse.ancestry.outward(), 0),
                    old(ctx).traverse.scoping.current_scope_id,
                ),
            ),
            *final(self) == (Contexts { contexts: final(self).contexts, ..*old(self) }),
    {
        let ghost scope_id = ctx.traverse.scoping.current_scope_id;
        let ghost made = ctx.made();
        let mut suffix = self.suffix(ctx);
        let count: u32 = match string_map_get(&self.contexts, suffix.as_str()) {
            Some(count) => *count,
            None => 0,
        };
        string_map_insert(&mut self.contexts, suffix.clone(), count + 1);
        if count > 0 {
            let numeral = decimal_string(count);
            suffix.append(numeral.as_str());
        }
        let prefix = concat3("_", self.file_hash.as_str(), suffix.as_str());
        let params = closest_context_params(ctx);
        let ghost names = bounds(params@);
        proof {
            assert(params@.len() == names.len());
        }
        let CallExpression { span: _, callee, arguments } = call_expr;
        let callee = Rc::new(callee);
        let mut arguments = arguments;
        let mut first: Option<Argument> = None;
        if arguments.len() > 0 {
            first = Some(arguments.remove(0));
        }
        match first {
            Some(Argument::Expression(argument)) => {
                let value = Rc::new(clone_first_non_ts_expression(argument));
                let ghost default = crate::ast::unshared(value);
                let created = one_argument(make_shared(&value));
                proof {
                    let shapes = seq![Shape::Shared(default)];
                    assert(has_shape(created@[0]->Expression_0, shapes[0]));
                    assert(arguments_have_shapes(created@, shapes));
                }
                let init = keep_context(&callee, prefix.as_str(), &params, created, ctx);
                let brought = make_object("__", make_shared(&value));
                let mut both: Vec<Argument> = Vec::new();
                both.push(Argument::Expression(init));
                both.push(Argument::Expression(brought));
                proof {
                    let shapes = seq![
                        kept_context(
                            call_expr.callee,
                            prefix@,
                            names,
                            seq![Shape::Shared(default)],
                        ),
                        object("__"@, Shape::Shared(default)),
                    ];
                    assert(has_shape(both@[0]->Expression_0, shapes[0]));
                    assert(has_shape(both@[1]->Expression_0, shapes[1]));
                    assert(arguments_have_shapes(both@, shapes));
                    assert(context_default(call_expr) == Some(default));
                    let one = seq![naming_in(scope_id, "Object"@, None)];
                    let reads = readings_in(scope_id, names);
                    assert((made + reads) + one =~= made + (reads + one));
                }
                make_call(object_assign_callee(ctx), both)
            },
            _ => {
                let none: Vec<Argument> = Vec::new();
                proof {
                    assert(arguments_have_shapes(none@, Seq::empty()));
                    assert(context_default(call_expr) is None);
                    let reads = readings_in(scope_id, names);
                    assert(reads + Seq::<Made>::empty() =~= reads);
                }
                keep_context(&callee, prefix.as_str(), &params, none, ctx)
            },
        }
    }
}

/// Two contexts that one kind of place makes have different names.
pub proof fn law_context_names_differ(
    file_hash: Seq<char>,
    suffix: Seq<char>,
    first: nat,
    second: nat,
)
    requires
        first != second,
    ensures
        "_"@ + file_hash + numbered(suffix, first) != "_"@ + file_hash + numbered(suffix, second),
{
    let stem = "_"@ + file_hash;
    let a = numbered(suffix, first);
    let b = numbered(suffix, second);
    if stem + a == stem + b {
        assert(a =~= (stem + a).skip(stem.len() as int));
        assert(b =~= (stem + b).skip(stem.len() as int));
        if first > 0 && second > 0 {
            assert(decimal(first) =~= a.skip(suffix.len() as int));
            assert(decimal(second) =~= b.skip(suffix.len() as int));
            crate::uid::lemma_decimal_injective(first, second);
        } else if first > 0 {
            crate::uid::lemma_decimal_nonempty(first);
            assert(a.len() > b.len());
        } else {
            crate::uid::lemma_decimal_nonempty(second);
            assert(b.len() > a.len());
        }
    }
}

} // verus!

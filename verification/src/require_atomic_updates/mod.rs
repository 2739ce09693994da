//! The rule `require-atomic-updates`: a variable or property that was read before an `await` or
//! `yield` is not written after it without being read again.

use crate::ast::{
    BindingPattern, BindingProperty, FormalParameters, FunctionBody, ScopeId, SymbolId,
};
use crate::fx::set_insert;
use crate::lint::{AstKind, Diagnostic, LintContext, Report, reports};
use crate::semantic::NodeId;
use self::flow::{Flow, walk_statements};
use self::frame::{Frame, Scene};
use self::state::{Reads, State};
use self::visitor::AtomicVisitor;
use rustc_hash::FxHashSet;
use vstd::prelude::*;

pub mod allowing;
pub mod flow;
pub mod following;
pub mod forms;
pub mod frame;
pub mod laws;
pub mod state;
pub mod visitor;
pub mod ways;

verus! {

broadcast use vstd::std_specs::hash::group_hash_axioms;

/// The options of the rule.
#[derive(Debug, Clone, Copy, PartialEq, Eq, Structural)]
pub struct ConfigElement0 {
    /// Whether writes to properties are left alone.
    pub allow_properties: bool,
}

/// The rule, with its options.
#[derive(Debug, Clone, Copy, PartialEq, Eq, Structural)]
pub struct RequireAtomicUpdates(pub ConfigElement0);

impl Default for RequireAtomicUpdates {
    fn default() -> (r: Self)
        ensures
            !r.0.allow_properties,
    {
        RequireAtomicUpdates(ConfigElement0 { allow_properties: false })
    }
}

/// The symbols that a pattern binds.
pub open spec fn bound_symbols(pattern: BindingPattern) -> Set<SymbolId>
    decreases pattern,
{
    match pattern {
        BindingPattern::Identifier(id) => Set::empty().insert(id.symbol_id),
        BindingPattern::Object(p) => bound_in_properties(p.properties@).union(
            match p.rest {
                Some(rest) => bound_symbols(rest),
                None => Set::empty(),
            },
        ),
        BindingPattern::Array(p) => bound_in_elements(p.elements@).union(
            match p.rest {
                Some(rest) => bound_symbols(rest),
                None => Set::empty(),
            },
        ),
        BindingPattern::Assignment(p) => bound_symbols(p.left),
    }
}

/// The symbols that the properties of a pattern bind.
pub open spec fn bound_in_properties(list: Seq<BindingProperty>) -> Set<SymbolId>
    decreases list,
{
    if list.len() == 0 {
        Set::empty()
    } else {
        bound_in_properties(list.drop_last()).union(bound_symbols(list.last().value))
    }
}

/// The symbols that the elements of a pattern bind.
pub open spec fn bound_in_elements(list: Seq<Option<BindingPattern>>) -> Set<SymbolId>
    decreases list,
{
    if list.len() == 0 {
        Set::empty()
    } else {
        bound_in_elements(list.drop_last()).union(
            match list.last() {
                Some(pattern) => bound_symbols(pattern),
                None => Set::empty(),
            },
        )
    }
}

/// The symbols that patterns bind.
pub open spec fn bound_in_patterns(list: Seq<BindingPattern>) -> Set<SymbolId>
    decreases list.len(),
{
    if list.len() == 0 {
        Set::empty()
    } else {
        bound_in_patterns(list.drop_last()).union(bound_symbols(list.last()))
    }
}

/// The symbols that parameters bind.
pub open spec fn parameter_symbols(params: FormalParameters) -> Set<SymbolId> {
    bound_in_patterns(params.items@).union(
        match params.rest {
            Some(rest) => bound_symbols(rest),
            None => Set::empty(),
        },
    )
}

/// Adds the symbols that a pattern binds to a set.
fn collect_pattern(pattern: &BindingPattern, set: &mut FxHashSet<SymbolId>)
    ensures
        final(set)@ == old(set)@.union(bound_symbols(*pattern)),
    decreases pattern,
{
    match pattern {
        BindingPattern::Identifier(id) => {
            set_insert(set, id.symbol_id);
        },
        BindingPattern::Object(p) => {
            collect_properties(&p.properties, set);
            if let Some(rest) = &p.rest {
                collect_pattern(rest, set);
            }
        },
        BindingPattern::Array(p) => {
            collect_elements(&p.elements, set);
            if let Some(rest) = &p.rest {
                collect_pattern(rest, set);
            }
        },
        BindingPattern::Assignment(p) => collect_pattern(&p.left, set),
    }
}

/// Adds the symbols that the properties of a pattern bind to a set.
fn collect_properties(list: &Vec<BindingProperty>, set: &mut FxHashSet<SymbolId>)
    ensures
        final(set)@ == old(set)@.union(bound_in_properties(list@)),
    decreases list,
{
    let ghost start = set@;
    let mut i: usize = 0;
    while i < list.len()
        invariant
            i <= list@.len(),
            set@ == start.union(bound_in_properties(list@.take(i as int))),
        decreases list@.len() - i,
    {
        proof {
            assert(list@.take(i + 1).drop_last() =~= list@.take(i as int));
        }
        collect_pattern(&list[i].value, set);
        i += 1;
    }
    proof {
        assert(list@.take(list@.len() as int) =~= list@);
    }
}

/// Adds the symbols that the elements of a pattern bind to a set.
fn collect_elements(list: &Vec<Option<BindingPattern>>, set: &mut FxHashSet<SymbolId>)
    ensures
        final(set)@ == old(set)@.union(bound_in_elements(list@)),
    decreases list,
{
    let ghost start = set@;
    let mut i: usize = 0;
    while i < list.len()
        invariant
            i <= list@.len(),
            set@ == start.union(bound_in_elements(list@.take(i as int))),
        decreases list@.len() - i,
    {
        proof {
            assert(list@.take(i + 1).drop_last() =~= list@.take(i as int));
        }
        if let Some(pattern) = &list[i] {
            collect_pattern(pattern, set);
        }
        i += 1;
    }
    proof {
        assert(list@.take(list@.len() as int) =~= list@);
    }
}

/// The symbols that parameters bind.
pub fn collect_parameter_symbols(params: &FormalParameters) -> (r: FxHashSet<SymbolId>)
    ensures
        r@ == parameter_symbols(*params),
{
    let mut set: FxHashSet<SymbolId> = FxHashSet::default();
    let list = &params.items;
    let mut i: usize = 0;
    while i < list.len()
        invariant
            i <= list@.len(),
            set@ == bound_in_patterns(list@.take(i as int)),
        decreases list@.len() - i,
    {
        proof {
            assert(list@.take(i + 1).drop_last() =~= list@.take(i as int));
        }
        collect_pattern(&list[i], &mut set);
        i += 1;
    }
    proof {
        assert(list@.take(list@.len() as int) =~= list@);
    }
    if let Some(rest) = &params.rest {
        collect_pattern(rest, &mut set);
    }
    set
}

/// The scene of the function with these parameters.
pub open spec fn scene(
    ctx: LintContext,
    func_scope_id: ScopeId,
    params: FormalParameters,
    allow_properties: bool,
) -> Scene {
    Scene {
        scoping: *ctx.scoping,
        globals: ctx.globals@,
        func_scope_id,
        parameter_symbols: parameter_symbols(params),
        allow_properties,
    }
}

/// The reports on a function: those of a walk that starts with nothing read.
pub open spec fn analysis(scene: Scene, body: FunctionBody) -> Seq<Report> {
    walk_statements(
        scene,
        body.statements@,
        Flow { reads: Reads::none(), reports: Seq::empty() },
    ).reports
}

/// Analyses a function.
pub fn run_analysis(
    ctx: &LintContext,
    func_scope_id: ScopeId,
    params: &FormalParameters,
    body: &FunctionBody,
    allow_properties: bool,
) -> (r: Vec<Diagnostic>)
    requires
        ctx.wf(),
    ensures
        reports(r@) == analysis(scene(*ctx, func_scope_id, *params, allow_properties), *body),
{
    let frame = Frame {
        scoping: ctx.scoping,
        globals: &ctx.globals,
        func_scope_id,
        parameter_symbols: collect_parameter_symbols(params),
        allow_properties,
    };
    let mut visitor = AtomicVisitor { frame, state: State::new(), diagnostics: Vec::new() };
    proof {
        assert(visitor@.reports =~= Seq::empty());
    }
    visitor.visit_statements(&body.statements);
    visitor.diagnostics
}

impl RequireAtomicUpdates {
    /// The reports on a node: those on a function that can be suspended, and none on anything
    /// else.
    pub open spec fn spec_run(self, kind: AstKind, ctx: LintContext) -> Seq<Report> {
        match kind {
            AstKind::Function(func) => match func.body {
                Some(body) if func.is_async || func.generator => analysis(
                    scene(ctx, func.scope_id, func.params, self.0.allow_properties),
                    body,
                ),
                _ => Seq::empty(),
            },
            AstKind::ArrowFunctionExpression(arrow) => if arrow.is_async {
                analysis(
                    scene(ctx, arrow.scope_id, arrow.params, self.0.allow_properties),
                    arrow.body,
                )
            } else {
                Seq::empty()
            },
            _ => Seq::empty(),
        }
    }

    /// Runs the rule on a node.
    pub fn run(&self, node: NodeId, ctx: &LintContext) -> (r: Vec<Diagnostic>)
        requires
            ctx.wf(),
        ensures
            reports(r@) == self.spec_run(ctx.spec_kind(node), *ctx),
    {
        let allow_properties = self.0.allow_properties;
        match ctx.kind(node) {
            AstKind::Function(func) => {
                if func.is_async || func.generator {
                    if let Some(body) = &func.body {
                        return run_analysis(
                            ctx,
                            func.scope_id,
                            &func.params,
                            body,
                            allow_properties,
                        );
                    }
                }
            },
            AstKind::ArrowFunctionExpression(arrow) => {
                if arrow.is_async {
                    return run_analysis(
                        ctx,
                        arrow.scope_id,
                        &arrow.params,
                        &arrow.body,
                        allow_properties,
                    );
                }
            },
            _ => {},
        }
        let none: Vec<Diagnostic> = Vec::new();
        proof {
            assert(reports(none@) =~= Seq::empty());
        }
        none
    }
}

} // verus!

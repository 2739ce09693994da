//! What the nodes round the current one say about a function.

use super::names::{is_component, is_component_name, is_custom_hook, is_custom_hook_name};
use crate::ast::{ScopeId, Span};
use crate::fx::set_contains;
use crate::text::opt_view;
use crate::transform::{TransformCtx, TransformState, source_basename, spec_source_basename};
use crate::traverse::{Ancestor, AncestorNode, AncestorType};
use rustc_hash::FxHashSet;
use vstd::prelude::*;

verus! {

broadcast use vstd::std_specs::hash::group_hash_axioms;

/// The name of a default export.
pub fn default_export_name(state: &TransformState) -> (r: Option<String>)
    ensures
        opt_view(r) == spec_source_basename(*state),
{
    source_basename(state)
}

/// Whether a node is a call that the current one is an argument of.
pub open spec fn is_argument(a: Ancestor) -> bool {
    a.ty == AncestorType::CallExpressionArguments
}

/// The name that the node round a function gives it; an argument of a call has the name that the
/// call has.
pub open spec fn name_from(
    ancestors: Seq<Ancestor>,
    index: int,
    state: TransformState,
) -> Option<Seq<char>>
    decreases ancestors.len() - index,
{
    if 0 <= index < ancestors.len() {
        let a = ancestors[index];
        match a.node {
            AncestorNode::VariableDeclarator(f) if a.ty == AncestorType::VariableDeclaratorInit =>
                match f.binding {
                Some(b) => Some(b.name@),
                None => None,
            },
            AncestorNode::Assignment(f) if a.ty == AncestorType::AssignmentExpressionRight =>
                opt_view(f.target_name),
            AncestorNode::ObjectProperty(f) if a.ty == AncestorType::ObjectPropertyValue => opt_view(
                f.key_name,
            ),
            _ => if a.ty == AncestorType::ExportDefaultDeclarationDeclaration {
                spec_source_basename(state)
            } else if is_argument(a) {
                name_from(ancestors, index + 1, state)
            } else {
                None
            },
        }
    } else {
        None
    }
}

/// The name that the nodes from `index` on give a function.
pub fn get_function_name_from_ancestors(index: usize, ctx: &TransformCtx) -> (r: Option<String>)
    requires
        ctx.traverse.wf(),
    ensures
        opt_view(r) == name_from(ctx.traverse.ancestry.outward(), index as int, ctx.state),
{
    let ghost all = ctx.traverse.ancestry.outward();
    let ghost named = name_from(all, index as int, ctx.state);
    let mut at = index;
    loop
        invariant
            ctx.traverse.wf(),
            all == ctx.traverse.ancestry.outward(),
            named == name_from(all, at as int, ctx.state),
            named == name_from(ctx.traverse.ancestry.outward(), index as int, ctx.state),
        decreases all.len() - at,
    {
        let Some(ancestor) = ctx.traverse.ancestry.outward_at(at) else {
            return None;
        };
        match &ancestor.node {
            AncestorNode::VariableDeclarator(f) if ancestor.ty
                == AncestorType::VariableDeclaratorInit => {
                return match &f.binding {
                    Some(b) => Some(b.name.clone()),
                    None => None,
                };
            },
            AncestorNode::Assignment(f) if ancestor.ty == AncestorType::AssignmentExpressionRight => {
                return match &f.target_name {
                    Some(name) => Some(name.clone()),
                    None => None,
                };
            },
            AncestorNode::ObjectProperty(f) if ancestor.ty == AncestorType::ObjectPropertyValue => {
                return match &f.key_name {
                    Some(name) => Some(name.clone()),
                    None => None,
                };
            },
            _ => {
                if ancestor.ty == AncestorType::ExportDefaultDeclarationDeclaration {
                    return default_export_name(&ctx.state);
                }
                if ancestor.ty != AncestorType::CallExpressionArguments {
                    return None;
                }
            },
        }
        at += 1;
    }
}

/// The scope of a function or arrow function that the current node is in, and the name that it
/// gives itself.
pub open spec fn function_at(a: Ancestor) -> Option<(ScopeId, Option<Seq<char>>)> {
    match a.node {
        AncestorNode::Function(f) if a.ty == AncestorType::FunctionBody || a.ty
            == AncestorType::FunctionParams => Some((f.scope_id, opt_view(f.name))),
        AncestorNode::Arrow(f) if a.ty == AncestorType::ArrowFunctionExpressionBody || a.ty
            == AncestorType::ArrowFunctionExpressionParams => Some((f.scope_id, None)),
        _ => None,
    }
}

/// Whether a node is the program.
pub open spec fn is_program(a: Ancestor) -> bool {
    a.ty == AncestorType::ProgramBody || a.ty == AncestorType::ProgramDirectives || a.ty
        == AncestorType::ProgramHashbang
}

/// Whether the node at `index` is a call of a hook that the function inside is an argument of.
pub open spec fn is_hook_callback(ancestors: Seq<Ancestor>, index: int) -> bool {
    &&& 0 <= index < ancestors.len()
    &&& is_argument(ancestors[index])
    &&& ancestors[index].node matches AncestorNode::Call(f) && (f.callee_name matches Some(name)
        && is_custom_hook(name@))
}

/// Whether a function with this name is a component or a hook.
pub open spec fn is_managed(name: Option<Seq<char>>) -> bool {
    name matches Some(name) && (is_component(name) || is_custom_hook(name))
}

/// The name of the function at `index`: its own, or else the one that the nodes round it give.
pub open spec fn function_name(
    ancestors: Seq<Ancestor>,
    index: int,
    own: Option<Seq<char>>,
    state: TransformState,
) -> Option<Seq<char>> {
    match own {
        Some(name) => Some(name),
        None => name_from(ancestors, index + 1, state),
    }
}

/// The innermost component or hook round the current node, from `index` on. A callback of a hook
/// belongs to no function outside it.
pub open spec fn component_or_hook_from(
    ancestors: Seq<Ancestor>,
    index: int,
    state: TransformState,
) -> Option<ScopeId>
    decreases ancestors.len() - index,
{
    if 0 <= index < ancestors.len() {
        match function_at(ancestors[index]) {
            Some((scope_id, own)) => if is_managed(function_name(ancestors, index, own, state)) {
                Some(scope_id)
            } else if is_hook_callback(ancestors, index + 1) {
                None
            } else {
                component_or_hook_from(ancestors, index + 1, state)
            },
            None => if is_program(ancestors[index]) {
                None
            } else {
                component_or_hook_from(ancestors, index + 1, state)
            },
        }
    } else {
        None
    }
}

/// Whether the node at `index` is a call of a hook that the function inside is an argument of.
pub fn is_custom_hook_callback(index: usize, ctx: &TransformCtx) -> (r: bool)
    requires
        ctx.traverse.wf(),
    ensures
        r == is_hook_callback(ctx.traverse.ancestry.outward(), index as int),
{
    let Some(ancestor) = ctx.traverse.ancestry.outward_at(index) else {
        return false;
    };
    if ancestor.ty != AncestorType::CallExpressionArguments {
        return false;
    }
    match &ancestor.node {
        AncestorNode::Call(f) => match &f.callee_name {
            Some(name) => is_custom_hook_name(name.as_str()),
            None => false,
        },
        _ => false,
    }
}

/// Whether a function with this name is a component or a hook.
fn has_managed_name(name: &Option<String>) -> (r: bool)
    ensures
        r == is_managed(opt_view(*name)),
{
    match name {
        Some(name) => is_component_name(name.as_str()) || is_custom_hook_name(name.as_str()),
        None => false,
    }
}

/// The innermost component or hook round the current node.
pub fn find_parent_component_or_hook(ctx: &TransformCtx) -> (r: Option<ScopeId>)
    requires
        ctx.traverse.wf(),
    ensures
        r == component_or_hook_from(ctx.traverse.ancestry.outward(), 0, ctx.state),
{
    let ghost all = ctx.traverse.ancestry.outward();
    let mut index: usize = 0;
    loop
        invariant
            ctx.traverse.wf(),
            all == ctx.traverse.ancestry.outward(),
            component_or_hook_from(all, 0, ctx.state) == component_or_hook_from(
                all,
                index as int,
                ctx.state,
            ),
        decreases all.len() - index,
    {
        let Some(ancestor) = ctx.traverse.ancestry.outward_at(index) else {
            return None;
        };
        let function: Option<(ScopeId, Option<String>)> = match &ancestor.node {
            AncestorNode::Function(f) if ancestor.ty == AncestorType::FunctionBody || ancestor.ty
                == AncestorType::FunctionParams => {
                let name = match &f.name {
                    Some(name) => Some(name.clone()),
                    None => None,
                };
                Some((f.scope_id, name))
            },
            AncestorNode::Arrow(f) if ancestor.ty == AncestorType::ArrowFunctionExpressionBody
                || ancestor.ty == AncestorType::ArrowFunctionExpressionParams => {
                Some((f.scope_id, None))
            },
            _ => None,
        };
        match function {
            Some((scope_id, inline_name)) => {
                let name = match inline_name {
                    Some(name) => Some(name),
                    None => get_function_name_from_ancestors(index + 1, ctx),
                };
                if has_managed_name(&name) {
                    return Some(scope_id);
                }
                if is_custom_hook_callback(index + 1, ctx) {
                    return None;
                }
            },
            None => {
                if ancestor.ty == AncestorType::ProgramBody || ancestor.ty
                    == AncestorType::ProgramDirectives || ancestor.ty
                    == AncestorType::ProgramHashbang {
                    return None;
                }
            },
        }
        index += 1;
    }
}

/// Where a comment on a function may stand: at a node round it. The second says whether to look
/// no further.
pub open spec fn comment_place(a: Ancestor) -> Option<(Span, bool)> {
    match a.node {
        AncestorNode::VariableDeclarator(f) if a.ty == AncestorType::VariableDeclaratorInit => Some(
            (f.span, false),
        ),
        AncestorNode::VariableDeclaration(f) if a.ty
            == AncestorType::VariableDeclarationDeclarations => Some((f.span, false)),
        AncestorNode::Assignment(f) if a.ty == AncestorType::AssignmentExpressionRight => Some(
            (f.span, false),
        ),
        AncestorNode::Call(f) if is_argument(a) => Some((f.span, false)),
        AncestorNode::ObjectProperty(f) if a.ty == AncestorType::ObjectPropertyValue => Some(
            (f.span, true),
        ),
        AncestorNode::Export(f) if a.ty == AncestorType::ExportDefaultDeclarationDeclaration
            || a.ty == AncestorType::ExportNamedDeclarationDeclaration => Some((f.span, true)),
        AncestorNode::ExpressionStatement(span) if a.ty
            == AncestorType::ExpressionStatementExpression => Some((span, true)),
        _ => None,
    }
}

/// Whether one of the comments is on a node from `index` on.
pub open spec fn commented_from(ancestors: Seq<Ancestor>, index: int, comments: Set<u32>) -> bool
    decreases ancestors.len() - index,
{
    if 0 <= index < ancestors.len() {
        match comment_place(ancestors[index]) {
            Some((span, last)) => if last {
                comments.contains(span.start)
            } else {
                comments.contains(span.start) || commented_from(ancestors, index + 1, comments)
            },
            None => commented_from(ancestors, index + 1, comments),
        }
    } else {
        false
    }
}

/// Whether one of the comments is on the function at `span`, or on a node round it.
pub open spec fn commented(ancestors: Seq<Ancestor>, span: Span, comments: Set<u32>) -> bool {
    comments.contains(span.start) || commented_from(ancestors, 0, comments)
}

/// Where a comment on a function may stand.
fn place_of_comment(a: &Ancestor) -> (r: Option<(Span, bool)>)
    ensures
        r == comment_place(*a),
{
    match &a.node {
        AncestorNode::VariableDeclarator(f) if a.ty == AncestorType::VariableDeclaratorInit => Some(
            (f.span, false),
        ),
        AncestorNode::VariableDeclaration(f) if a.ty
            == AncestorType::VariableDeclarationDeclarations => Some((f.span, false)),
        AncestorNode::Assignment(f) if a.ty == AncestorType::AssignmentExpressionRight => Some(
            (f.span, false),
        ),
        AncestorNode::Call(f) if a.ty == AncestorType::CallExpressionArguments => Some(
            (f.span, false),
        ),
        AncestorNode::ObjectProperty(f) if a.ty == AncestorType::ObjectPropertyValue => Some(
            (f.span, true),
        ),
        AncestorNode::Export(f) if a.ty == AncestorType::ExportDefaultDeclarationDeclaration
            || a.ty == AncestorType::ExportNamedDeclarationDeclaration => Some((f.span, true)),
        AncestorNode::ExpressionStatement(span) if a.ty
            == AncestorType::ExpressionStatementExpression => Some((*span, true)),
        _ => None,
    }
}

/// Whether one of the comments is on the function at `span`, or on a node round it.
pub fn has_opt_comment(span: Span, ctx: &TransformCtx, comments: &FxHashSet<u32>) -> (r: bool)
    requires
        ctx.traverse.wf(),
    ensures
        r == commented(ctx.traverse.ancestry.outward(), span, comments@),
{
    if set_contains(comments, &span.start) {
        return true;
    }
    let ghost all = ctx.traverse.ancestry.outward();
    let mut index: usize = 0;
    loop
        invariant
            ctx.traverse.wf(),
            all == ctx.traverse.ancestry.outward(),
            !comments@.contains(span.start),
            commented_from(all, 0, comments@) == commented_from(all, index as int, comments@),
        decreases all.len() - index,
    {
        let Some(ancestor) = ctx.traverse.ancestry.outward_at(index) else {
            return false;
        };
        if let Some((span, last)) = place_of_comment(ancestor) {
            let found = set_contains(comments, &span.start);
            if found || last {
                return found;
            }
        }
        index += 1;
    }
}

/// The name of the variable that the innermost declaration from `index` on declares.
pub open spec fn variable_name_from(ancestors: Seq<Ancestor>, index: int) -> Option<Seq<char>>
    decreases ancestors.len() - index,
{
    if 0 <= index < ancestors.len() {
        match ancestors[index].node {
            AncestorNode::VariableDeclarator(f) if ancestors[index].ty
                == AncestorType::VariableDeclaratorInit => match f.binding {
                Some(b) => Some(b.name@),
                None => None,
            },
            _ => variable_name_from(ancestors, index + 1),
        }
    } else {
        None
    }
}

/// The name of the variable that the innermost declaration round the current node declares.
pub fn get_variable_name_from_ancestors(ctx: &TransformCtx) -> (r: Option<String>)
    requires
        ctx.traverse.wf(),
    ensures
        opt_view(r) == variable_name_from(ctx.traverse.ancestry.outward(), 0),
{
    let ghost all = ctx.traverse.ancestry.outward();
    let mut index: usize = 0;
    loop
        invariant
            ctx.traverse.wf(),
            all == ctx.traverse.ancestry.outward(),
            variable_name_from(all, 0) == variable_name_from(all, index as int),
        decreases all.len() - index,
    {
        let Some(ancestor) = ctx.traverse.ancestry.outward_at(index) else {
            return None;
        };
        if let AncestorNode::VariableDeclarator(f) = &ancestor.node {
            if ancestor.ty == AncestorType::VariableDeclaratorInit {
                return match &f.binding {
                    Some(b) => Some(b.name.clone()),
                    None => None,
                };
            }
        }
        index += 1;
    }
}

} // verus!

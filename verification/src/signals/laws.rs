//! What holds of names, comments and places.

use super::context::{commented, component_or_hook_from, name_from, variable_name_from};
use super::names::{
    calls_signal, has_block_body, has_word, is_component, is_custom_hook, is_name_property,
    is_white, line_of, names_itself, word_at,
};
use super::{
    FunctionMetadata, ReactSignals, ReactSignalsMode, accesses_value, assigns_value, debug_name,
    directive_targets, expression_name, metadata_of, own_name, transformed, takes_value, usage_of,
    use_signals_arguments,
};
use crate::ast::shape::{Shape, has_shape, statement_has_shape};
use crate::ast::{
    Argument, ArrowFunctionExpression, AssignmentTarget, CallExpression, Comment,
    ComputedMemberExpression, Declaration, Expression, Function, FunctionBody, ObjectPattern,
    ObjectPropertyKind, PropertyKey, ScopeId, Span, Statement, StaticMemberExpression,
};
use crate::text::decimal;
use crate::transform::{TransformCtx, TransformState, text_at};
use crate::traverse::{Ancestor, AncestorNode, AncestorType, Bound};
use vstd::prelude::*;
use vstd::utf8::encode_utf8;

verus! {

/// A node that is no call with the current one among its arguments gives a function the name of
/// the variable, target or property that it is the value of, and a default export that of the
/// file; any other gives it none.
pub open spec fn own_name_of(a: Ancestor, state: TransformState) -> Option<Seq<char>> {
    if a.ty == AncestorType::VariableDeclaratorInit && a.node is VariableDeclarator {
        match a.node->VariableDeclarator_0.binding {
            Some(b) => Some(b.name@),
            None => None,
        }
    } else if a.ty == AncestorType::AssignmentExpressionRight && a.node is Assignment {
        match a.node->Assignment_0.target_name {
            Some(name) => Some(name@),
            None => None,
        }
    } else if a.ty == AncestorType::ObjectPropertyValue && a.node is ObjectProperty {
        match a.node->ObjectProperty_0.key_name {
            Some(name) => Some(name@),
            None => None,
        }
    } else if a.ty == AncestorType::ExportDefaultDeclarationDeclaration {
        match state.source_file_name {
            Some(name) => Some(name@),
            None => if state.filename@.len() > 0 && state.filename@ != "unknown"@ {
                Some(state.filename@)
            } else {
                None
            },
        }
    } else {
        None
    }
}

/// A function that is an argument of a call has the name that the call has, through any number of
/// calls; the first node round it that is no such call names it.
pub proof fn law_arguments_are_named_as_their_calls(
    ancestors: Seq<Ancestor>,
    index: int,
    calls: nat,
    state: TransformState,
)
    requires
        0 <= index,
        index + calls <= ancestors.len(),
        forall|i: int|
            index <= i < index + calls ==> (#[trigger] ancestors[i]).ty
                == AncestorType::CallExpressionArguments,
    ensures
        name_from(ancestors, index, state) == name_from(ancestors, index + calls, state),
        index + calls < ancestors.len() && ancestors[index + calls].ty
            != AncestorType::CallExpressionArguments ==> name_from(ancestors, index, state)
            == own_name_of(ancestors[index + calls], state),
        index + calls == ancestors.len() ==> name_from(ancestors, index, state) is None,
    decreases calls,
{
    if calls > 0 {
        law_arguments_are_named_as_their_calls(ancestors, index, (calls - 1) as nat, state);
        assert(ancestors[index + calls - 1].ty == AncestorType::CallExpressionArguments);
    }
}

/// A function round the current node: its scope, and the name that it has by itself.
pub open spec fn function_round(a: Ancestor, scope_id: ScopeId, own: Option<Seq<char>>) -> bool {
    ||| (a.ty == AncestorType::FunctionBody || a.ty == AncestorType::FunctionParams) && (
    a.node matches AncestorNode::Function(f) && f.scope_id == scope_id && own == (match f.name {
        Some(name) => Some(name@),
        None => None,
    }))
    ||| (a.ty == AncestorType::ArrowFunctionExpressionBody || a.ty
        == AncestorType::ArrowFunctionExpressionParams) && (a.node matches AncestorNode::Arrow(f)
        && f.scope_id == scope_id && own is None)
}

/// A node is neither a function with the current one in it nor the program.
pub open spec fn is_between(a: Ancestor) -> bool {
    &&& a.ty != AncestorType::FunctionBody
    &&& a.ty != AncestorType::FunctionParams
    &&& a.ty != AncestorType::ArrowFunctionExpressionBody
    &&& a.ty != AncestorType::ArrowFunctionExpressionParams
    &&& a.ty != AncestorType::ProgramBody
    &&& a.ty != AncestorType::ProgramDirectives
    &&& a.ty != AncestorType::ProgramHashbang
}

/// A name of a component or of a hook: it starts with an upper-case letter of ASCII, or with `use`
/// and one.
pub open spec fn has_upper_name(name: Seq<char>) -> bool {
    ||| name.len() > 0 && 'A' <= name[0] <= 'Z'
    ||| name.len() > 3 && name[0] == 'u' && name[1] == 's' && name[2] == 'e' && 'A' <= name[3]
        <= 'Z'
}

/// Nodes that are no functions are passed over. The innermost function that is a component or a
/// hook is found; another function is passed over too, unless it is handed to a hook: then nothing
/// is. Nor is anything outside the program.
pub proof fn law_the_innermost_component_is_found(
    ancestors: Seq<Ancestor>,
    index: int,
    scope_id: ScopeId,
    own: Option<Seq<char>>,
    state: TransformState,
)
    requires
        0 <= index < ancestors.len(),
    ensures
        is_between(ancestors[index]) ==> component_or_hook_from(ancestors, index, state)
            == component_or_hook_from(ancestors, index + 1, state),
        ancestors[index].ty == AncestorType::ProgramBody ==> component_or_hook_from(
            ancestors,
            index,
            state,
        ) is None,
        function_round(ancestors[index], scope_id, own) ==> {
            let name = match own {
                Some(name) => Some(name),
                None => name_from(ancestors, index + 1, state),
            };
            let found = component_or_hook_from(ancestors, index, state);
            let hook = index + 1 < ancestors.len() && ancestors[index + 1].ty
                == AncestorType::CallExpressionArguments && (
            ancestors[index + 1].node matches AncestorNode::Call(c) && (
            c.callee_name matches Some(callee) && callee@.len() > 3 && callee@[0] == 'u'
                && callee@[1] == 's' && callee@[2] == 'e' && 'A' <= callee@[3] <= 'Z'));
            let managed = name is Some && has_upper_name(name->0);
            &&& managed ==> found == Some(scope_id)
            &&& !managed && hook ==> found is None
            &&& !managed && !hook ==> found == component_or_hook_from(ancestors, index + 1, state)
        },
        component_or_hook_from(ancestors, ancestors.len() as int, state) is None,
{
    let name = match own {
        Some(name) => Some(name),
        None => name_from(ancestors, index + 1, state),
    };
    if let Some(name) = name {
        law_names_tell_components_and_hooks(name);
    }
    if index + 1 < ancestors.len() {
        if let AncestorNode::Call(c) = ancestors[index + 1].node {
            if let Some(callee) = c.callee_name {
                law_names_tell_components_and_hooks(callee@);
            }
        }
    }
}

/// A component starts with an upper-case letter of ASCII, a hook with `use` and one.
pub proof fn law_names_tell_components_and_hooks(name: Seq<char>)
    ensures
        is_component(name) <==> name.len() > 0 && 'A' <= name[0] <= 'Z',
        is_custom_hook(name) <==> name.len() > 3 && name[0] == 'u' && name[1] == 's' && name[2]
            == 'e' && 'A' <= name[3] <= 'Z',
{
    reveal_strlit("use");
    let start = "use"@;
    assert(start.len() == 3);
    if is_custom_hook(name) {
        assert(start =~= name.subrange(0, 3));
        assert(start[0] == name[0] && start[1] == name[1] && start[2] == name[2]);
    }
    if name.len() > 3 && name[0] == 'u' && name[1] == 's' && name[2] == 'e' {
        assert(start =~= name.subrange(0, 3));
    }
}

/// Where a comment on a function may stand: at the variable, declaration, assignment, call,
/// property, export or statement that it is in.
pub open spec fn comment_start(a: Ancestor) -> Option<u32> {
    match a.node {
        AncestorNode::VariableDeclarator(f) if a.ty == AncestorType::VariableDeclaratorInit => Some(
            f.span.start,
        ),
        AncestorNode::VariableDeclaration(f) if a.ty
            == AncestorType::VariableDeclarationDeclarations => Some(f.span.start),
        AncestorNode::Assignment(f) if a.ty == AncestorType::AssignmentExpressionRight => Some(
            f.span.start,
        ),
        AncestorNode::Call(f) if a.ty == AncestorType::CallExpressionArguments => Some(
            f.span.start,
        ),
        AncestorNode::ObjectProperty(f) if a.ty == AncestorType::ObjectPropertyValue => Some(
            f.span.start,
        ),
        AncestorNode::Export(f) if a.ty == AncestorType::ExportDefaultDeclarationDeclaration || a.ty
            == AncestorType::ExportNamedDeclarationDeclaration => Some(f.span.start),
        AncestorNode::ExpressionStatement(span) if a.ty
            == AncestorType::ExpressionStatementExpression => Some(span.start),
        _ => None,
    }
}

/// A property, an export or a statement, beyond which no comment counts.
pub open spec fn ends_search(a: Ancestor) -> bool {
    ||| a.node is ObjectProperty && a.ty == AncestorType::ObjectPropertyValue
    ||| a.node is Export && (a.ty == AncestorType::ExportDefaultDeclarationDeclaration || a.ty
        == AncestorType::ExportNamedDeclarationDeclaration)
    ||| a.node is ExpressionStatement && a.ty == AncestorType::ExpressionStatementExpression
}

/// A function is commented exactly if a comment is on it, or on a node round it, with no property,
/// export or statement in between.
pub proof fn law_comments_are_on_the_function_or_round_it(
    ancestors: Seq<Ancestor>,
    span: Span,
    comments: Set<u32>,
)
    ensures
        commented(ancestors, span, comments) <==> comments.contains(span.start) || exists|j: int|
            is_comment_place(ancestors, 0, j, comments),
{
    lemma_commented(ancestors, 0, comments);
}

/// A comment is on node `j`, and none from `index` on and before it ends the search.
pub open spec fn is_comment_place(
    ancestors: Seq<Ancestor>,
    index: int,
    j: int,
    comments: Set<u32>,
) -> bool {
    &&& index <= j < ancestors.len()
    &&& comment_start(ancestors[j]) matches Some(start) && comments.contains(start)
    &&& forall|k: int| index <= k < j ==> !ends_search(#[trigger] ancestors[k])
}

proof fn lemma_commented(ancestors: Seq<Ancestor>, index: int, comments: Set<u32>)
    requires
        0 <= index,
    ensures
        super::context::commented_from(ancestors, index, comments) <==> exists|j: int|
            is_comment_place(ancestors, index, j, comments),
    decreases ancestors.len() - index,
{
    if index < ancestors.len() {
        lemma_commented(ancestors, index + 1, comments);
        if super::context::commented_from(ancestors, index, comments) {
            let here = comment_start(ancestors[index]);
            if here is Some && comments.contains(here->0) {
                assert(is_comment_place(ancestors, index, index, comments));
            } else {
                let next = index + 1;
                let j = choose|j: int| is_comment_place(ancestors, next, j, comments);
                assert(is_comment_place(ancestors, index, j, comments));
            }
        }
        if exists|j: int| is_comment_place(ancestors, index, j, comments) {
            let j = choose|j: int| is_comment_place(ancestors, index, j, comments);
            if j > index {
                assert(!ends_search(ancestors[index]));
                assert(is_comment_place(ancestors, index + 1, j, comments));
            }
        }
    }
}

/// The variable that names a signal is the one of the innermost declaration round it.
pub proof fn law_the_innermost_variable_names_a_signal(ancestors: Seq<Ancestor>, index: int)
    requires
        0 <= index < ancestors.len(),
    ensures
        ancestors[index].ty == AncestorType::VariableDeclaratorInit && ancestors[index].node
            is VariableDeclarator ==> variable_name_from(ancestors, index) == (
        match ancestors[index].node->VariableDeclarator_0.binding {
            Some(b) => Some(b.name@),
            None => None,
        }),
        ancestors[index].ty != AncestorType::VariableDeclaratorInit ==> variable_name_from(
            ancestors,
            index,
        ) == variable_name_from(ancestors, index + 1),
        variable_name_from(ancestors, ancestors.len() as int) is None,
{
}

/// A word of a comment is a part of it with white space, or nothing, before and after it, and no
/// white space in it.
pub proof fn law_words_stand_apart(before: Seq<char>, word: Seq<char>, after: Seq<char>)
    requires
        word.len() > 0,
        forall|k: int| 0 <= k < word.len() ==> !is_white(#[trigger] word[k]),
        before.len() == 0 || is_white(before.last()),
        after.len() == 0 || is_white(after[0]),
    ensures
        has_word(before + word + after, word),
{
    let text = before + word + after;
    let i = before.len() as int;
    assert(text.subrange(i, i + word.len()) =~= word);
    assert(word_at(text, word, i));
}

/// What is found in a comment is a word that stands apart.
pub proof fn law_found_words_stand_apart(text: Seq<char>, word: Seq<char>)
    requires
        has_word(text, word),
    ensures
        exists|before: Seq<char>, after: Seq<char>|
            text == #[trigger] (before + word + after) && (before.len() == 0 || is_white(
                before.last(),
            )) && (after.len() == 0 || is_white(after[0])),
{
    let i = choose|i: int| #[trigger] word_at(text, word, i);
    let before = text.take(i);
    let after = text.skip(i + word.len());
    assert(text =~= before + word + after) by {
        assert forall|k: int| 0 <= k < text.len() implies text[k] == (before + word + after)[k] by {
            if i <= k < i + word.len() {
                assert(text.subrange(i, i + word.len())[k - i] == text[k]);
            }
        }
    }
}

/// Blanks, tabs and line ends are white space; letters, digits and `@` are not.
pub proof fn law_white_space(c: char)
    ensures
        c == ' ' || c == '\t' || c == '\n' || c == '\r' ==> is_white(c),
        'a' <= c <= 'z' || 'A' <= c <= 'Z' || '0' <= c <= '9' || c == '@' || c == '*'
            ==> !is_white(c),
{
}

/// Lines are counted from one, and a line feed starts the next.
pub proof fn law_line_feeds_start_lines(text: Seq<char>, at: Span, next: Span)
    requires
        next.start == at.start + 1,
        next.start <= encode_utf8(text).len(),
    ensures
        at.start == 0 ==> line_of(text, at) == 1,
        encode_utf8(text)[at.start as int] == 10 ==> line_of(text, next) == line_of(text, at) + 1,
        encode_utf8(text)[at.start as int] != 10 ==> line_of(text, next) == line_of(text, at),
{
    let bytes = encode_utf8(text);
    let more = bytes.take(next.start as int);
    assert(more.drop_last() =~= bytes.take(at.start as int));
    assert(more.last() == bytes[at.start as int]);
}

/// Each of the four functions makes a signal, whatever is round its name, and no other does.
pub proof fn law_signals_are_made_by_four_functions(call: CallExpression)
    ensures
        call.callee matches Expression::Identifier(ident) ==> (calls_signal(call) <==> ident.name@
            == "signal"@ || ident.name@ == "computed"@ || ident.name@ == "useSignal"@ || ident.name@
            == "useComputed"@),
        call.callee is Call || call.callee is StaticMember || call.callee is ComputedMember
            ==> !calls_signal(call),
{
}

/// A call has a name exactly if its second argument is an object with a property `name`, at any
/// place among the others.
pub proof fn law_a_name_may_stand_anywhere(call: CallExpression)
    ensures
        names_itself(call) <==> call.arguments@.len() > 1 && (
        call.arguments@[1] matches Argument::Expression(Expression::Object(o)) && exists|i: int|
            0 <= i < o.properties@.len() && (
            #[trigger] o.properties@[i] matches ObjectPropertyKind::ObjectProperty(p) && (
            match p.key {
                PropertyKey::StaticIdentifier(name) => name@ == "name"@,
                PropertyKey::PrivateIdentifier(_) => false,
                PropertyKey::Expression(key) => key.static_name matches Some(name) && name@
                    == "name"@,
            }))),
{
    if call.arguments@.len() > 1 {
        if let Argument::Expression(Expression::Object(o)) = call.arguments@[1] {
            assert forall|i: int| 0 <= i < o.properties@.len() implies is_name_property(
                #[trigger] o.properties@[i],
            ) == (o.properties@[i] matches ObjectPropertyKind::ObjectProperty(p) && (match p.key {
                PropertyKey::StaticIdentifier(name) => name@ == "name"@,
                PropertyKey::PrivateIdentifier(_) => false,
                PropertyKey::Expression(key) => key.static_name matches Some(name) && name@
                    == "name"@,
            })) by {}
        }
    }
}

/// A comment counts exactly if it is a leading one that has one of the words, and it counts for
/// the node that it is attached to.
pub proof fn law_leading_comments_count(
    comments: Seq<Comment>,
    text: Seq<char>,
    a: Seq<char>,
    b: Seq<char>,
    start: u32,
)
    ensures
        directive_targets(comments, text, a, b).contains(start) <==> exists|i: int|
            0 <= i < comments.len() && (#[trigger] comments[i]).is_leading
                && comments[i].attached_to == start && (has_word(
                text_at(text, comments[i].content),
                a,
            ) || has_word(text_at(text, comments[i].content), b)),
{
}

/// A component or a hook is managed, and each is told apart, unless `try` and `finally` are left
/// out; nothing else is.
pub proof fn law_components_and_hooks_are_managed(name: Seq<char>)
    ensures
        usage_of(true, Some(name)) is None,
        usage_of(false, None) is None,
        name.len() > 0 && 'A' <= name[0] <= 'Z' ==> usage_of(false, Some(name)) == Some(1u8),
        name.len() > 3 && name[0] == 'u' && name[1] == 's' && name[2] == 'e' && 'A' <= name[3]
            <= 'Z' ==> usage_of(false, Some(name)) == Some(2u8),
        !has_upper_name(name) ==> usage_of(false, Some(name)) is None,
{
    law_names_tell_components_and_hooks(name);
}

/// `useSignals` is handed the kind of a managed function, and for debugging the name of the
/// function, which comes second.
pub proof fn law_use_signals_is_told_the_kind_and_the_name(usage: u8, name: Seq<char>)
    ensures
        use_signals_arguments(false, None, Some(name)) == Seq::<Shape>::empty(),
        use_signals_arguments(true, None, None) == Seq::<Shape>::empty(),
        use_signals_arguments(false, Some(usage), Some(name)) == seq![
            Shape::Number(decimal(usage as nat)),
        ],
        use_signals_arguments(true, Some(usage), None) == seq![
            Shape::Number(decimal(usage as nat)),
        ],
        use_signals_arguments(true, Some(usage), Some(name)) == seq![
            Shape::Number(decimal(usage as nat)),
            Shape::Text(name),
        ],
        use_signals_arguments(true, None, Some(name)) == seq![
            (Shape::Name { name: "undefined"@, symbol_id: None }),
            Shape::Text(name),
        ],
{
}

/// What each mode transforms, as far as comments leave it to the mode.
pub proof fn law_modes(rule: ReactSignals, metadata: FunctionMetadata, name: Seq<char>)
    ensures
        ({
            let component = name.len() > 0 && 'A' <= name[0] <= 'Z';
            let hook = name.len() > 3 && name[0] == 'u' && name[1] == 's' && name[2] == 'e' && 'A'
                <= name[3] <= 'Z';
            let transformed = rule.mode_transforms(metadata, Some(name));
            &&& rule.mode == ReactSignalsMode::Manual ==> !transformed
            &&& rule.mode == ReactSignalsMode::All ==> (transformed <==> component
                && metadata.contains_jsx)
            &&& rule.mode == ReactSignalsMode::Auto && component ==> (transformed
                <==> metadata.contains_jsx && metadata.maybe_uses_signal)
            &&& rule.mode == ReactSignalsMode::Auto && hook ==> (transformed
                <==> metadata.maybe_uses_signal)
            &&& rule.mode == ReactSignalsMode::Auto && !component && !hook ==> !transformed
        }),
        !rule.mode_transforms(metadata, None),
{
    law_names_tell_components_and_hooks(name);
}

/// What is marked is the innermost component or hook alone, and what was marked before stays.
pub proof fn law_marks_stay(rule: ReactSignals, ctx: TransformCtx, scope_id: ScopeId)
    ensures
        ({
            let found = component_or_hook_from(ctx.traverse.ancestry.outward(), 0, ctx.state);
            let before = metadata_of(rule.function_metadata@, scope_id);
            let jsx = metadata_of(rule.jsx_marked(ctx), scope_id);
            let signal = metadata_of(rule.signal_marked(ctx), scope_id);
            &&& found == Some(scope_id) ==> jsx.contains_jsx && jsx.maybe_uses_signal
                == before.maybe_uses_signal && signal.maybe_uses_signal && signal.contains_jsx
                == before.contains_jsx
            &&& found != Some(scope_id) ==> jsx == before && signal == before
        }),
{
}

/// A function of which nothing was noted has no elements and uses no signals; of any other, what
/// was noted holds.
pub proof fn law_nothing_is_marked_at_first(
    map: Map<ScopeId, FunctionMetadata>,
    scope_id: ScopeId,
    other: ScopeId,
    noted: FunctionMetadata,
)
    ensures
        !map.contains_key(scope_id) ==> !metadata_of(map, scope_id).contains_jsx && !metadata_of(
            map,
            scope_id,
        ).maybe_uses_signal,
        metadata_of(map.insert(scope_id, noted), scope_id) == noted,
        other != scope_id ==> metadata_of(map.insert(scope_id, noted), other) == metadata_of(
            map,
            other,
        ),
{
}

/// For debugging, a signal is named by its variable, and by the file and the line where there is a
/// file.
pub proof fn law_signals_are_named_by_variable_file_and_line(
    variable: Seq<char>,
    span: Span,
    state: TransformState,
)
    ensures
        state.source_file_name matches Some(file) ==> debug_name(variable, span, state) == variable
            + " ("@ + file@ + ":"@ + decimal(line_of(state.source_text@, span)) + ")"@,
        state.source_file_name is None && (state.filename@.len() == 0 || state.filename@
            == "unknown"@) ==> debug_name(variable, span, state) == variable,
        variable.is_prefix_of(debug_name(variable, span, state)),
{
    let name = debug_name(variable, span, state);
    assert(variable =~= name.subrange(0, variable.len() as int));
}

/// A function has the name that it gives itself, and else the one that the nodes round it give it.
pub proof fn law_own_names_come_first(func: Function, ctx: TransformCtx)
    ensures
        func.id matches Some(id) ==> expression_name(func, ctx) == Some(id.name@) && own_name(func)
            == Some(id.name@),
        func.id is None ==> own_name(func) is None && expression_name(func, ctx) == name_from(
            ctx.traverse.ancestry.outward(),
            0,
            ctx.state,
        ),
{
}

/// The first statement of a managed function declares what `useSignals` gives, and the second tries
/// the statements and finishes it whatever they do; an unmanaged one starts with the call.
pub proof fn law_transformed_bodies(
    rule: ReactSignals,
    before: FunctionBody,
    after: FunctionBody,
    use_signals: Bound,
    effect: Bound,
    first_scope_id: ScopeId,
    name: Option<Seq<char>>,
)
    requires
        transformed(rule, before, after, use_signals, effect, first_scope_id, name),
    ensures
        usage_of(rule.no_try_finally, name) is Some ==> {
            &&& after.statements@.len() == 2
            &&& after.statements@[0] matches Statement::Declaration(Declaration::Variable(d))
                && d.declarations@.len() == 1
            &&& after.statements@[1] matches Statement::Try(t) && t.handler is None && t.block.body@
                == before.statements@ && (t.finalizer matches Some(b) && b.body@.len() == 1)
        },
        usage_of(rule.no_try_finally, name) is None ==> {
            &&& after.statements@.len() == before.statements@.len() + 1
            &&& after.statements@[0] matches Statement::Expression(e) && (
            e.expression matches Expression::Call(c) && (
            c.callee matches Expression::Identifier(ident) && ident.symbol_id == Some(
                use_signals.symbol_id,
            )))
        },
        after.directives == before.directives,
{
    let usage = usage_of(rule.no_try_finally, name);
    let arguments = use_signals_arguments(rule.debug, usage, name);
    if usage is Some {
        super::law_statements_are_kept(
            rule,
            before,
            after,
            use_signals,
            effect,
            first_scope_id,
            name,
        );
        let shapes = super::managed_statements(
            before.statements@,
            use_signals,
            effect,
            arguments,
            first_scope_id,
        );
        assert(statement_has_shape(after.statements@[0], shapes[0]));
        assert(statement_has_shape(after.statements@[1], shapes[1]));
    } else {
        let shape = super::prepended(Shape::Read(use_signals), arguments);
        assert(statement_has_shape(after.statements@[0], shape));
        let call = after.statements@[0]->Expression_0.expression;
        assert(has_shape(call, crate::ast::shape::call(Shape::Read(use_signals), arguments)));
        assert(has_shape(call->Call_0.callee, Shape::Read(use_signals)));
    }
}

/// A signal is read by its member `value`, whichever way the member is named; whether it is read or
/// assigned; and by a pattern that takes `value`, at any place in it.
pub proof fn law_value_is_the_signal(
    m: StaticMemberExpression,
    c: ComputedMemberExpression,
    other: Expression,
    pattern: ObjectPattern,
)
    ensures
        accesses_value(Expression::StaticMember(Box::new(m))) <==> m.property@ == "value"@,
        accesses_value(Expression::ComputedMember(Box::new(c))) <==> (
        c.static_property_name matches Some(name) && name@ == "value"@),
        assigns_value(AssignmentTarget::StaticMember(Box::new(m))) <==> m.property@ == "value"@,
        assigns_value(AssignmentTarget::ComputedMember(Box::new(c))) <==> (
        c.static_property_name matches Some(name) && name@ == "value"@),
        !(other is StaticMember) && !(other is ComputedMember) ==> !accesses_value(other),
        takes_value(pattern) <==> exists|i: int|
            0 <= i < pattern.properties@.len() && (match (#[trigger] pattern.properties@[i]).key {
                PropertyKey::StaticIdentifier(name) => name@ == "value"@,
                PropertyKey::PrivateIdentifier(_) => false,
                PropertyKey::Expression(key) => key.static_name matches Some(name) && name@
                    == "value"@,
            }),
{
    assert forall|i: int| 0 <= i < pattern.properties@.len() implies (
    (#[trigger] pattern.properties@[i]).key.spec_static_name() == Some("value"@)) == (
    match pattern.properties@[i].key {
        PropertyKey::StaticIdentifier(name) => name@ == "value"@,
        PropertyKey::PrivateIdentifier(_) => false,
        PropertyKey::Expression(key) => key.static_name matches Some(name) && name@ == "value"@,
    }) by {}
}

/// An arrow function with a block stays as it is; one with an expression gets a block that returns
/// it, with the statements before it as they were.
pub proof fn law_expressions_are_returned(
    before: ArrowFunctionExpression,
    after: ArrowFunctionExpression,
)
    requires
        has_block_body(before, after),
    ensures
        !after.expression,
        !before.expression ==> after == before,
        before.expression && before.body.statements@.len() > 0 ==> (
        before.body.statements@.last() matches Statement::Expression(e) ==> {
            &&& after.body.statements@.len() == before.body.statements@.len()
            &&& after.body.statements@.drop_last() == before.body.statements@.drop_last()
            &&& after.body.statements@.last() matches Statement::Return(r) && r.argument == Some(
                e.expression,
            )
        }),
{
}

} // verus!

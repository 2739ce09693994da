//! Components and hooks that follow the signals that they read.

use self::alternatives::{Alternatives, JSXAlternativeCollector, alternatives_in};
use self::context::{
    commented, component_or_hook_from, find_parent_component_or_hook,
    get_function_name_from_ancestors, get_variable_name_from_ancestors, has_opt_comment, name_from,
    variable_name_from,
};
use self::names::{
    arrow_wf, calls_signal, ensure_arrow_block_body, has_block_body, has_comment_directive,
    has_name_in_options, has_word, is_component, is_component_name, is_custom_hook,
    is_custom_hook_name, is_name_property, is_signal_call, line_number_for_span, line_of,
    names_itself,
};
use crate::ast::shape::{
    Shape, StatementShape, arguments_have_shapes, call, given_statements, has_shape, make_call,
    make_member, make_number, make_object, make_property, make_statement, make_text, make_try,
    make_var, member, object, one_argument, statement_has_shape, statements_have_shapes, var_shape,
};
use crate::ast::{
    Argument, AssignmentTarget, CallExpression, Comment, Expression, Function, FunctionBody,
    FunctionType, ObjectPattern, ObjectPropertyKind, Program, PropertyKey, ScopeId, Span, Statement,
};
use crate::fx::{map_get, map_insert, set_insert};
use crate::semantic::{Scope, ScopeFlags, SymbolFlags};
use crate::text::{decimal, decimal_string, opt_view, slice, str_eq};
use crate::transform::{
    NamedImport, TransformCtx, TransformState, in_source, is_new_symbol, naming_in,
    source_basename, spec_source_basename, text_at,
};
use crate::traverse::{Bound, BoundIdentifier, Made};
use rustc_hash::{FxHashMap, FxHashSet};
use vstd::prelude::*;
use vstd::utf8::encode_utf8;

pub mod alternatives;
pub mod context;
pub mod elements;
pub mod laws;
pub mod made;
pub mod names;

verus! {

broadcast use vstd::std_specs::hash::group_hash_axioms;

/// Which functions are transformed.
#[derive(Debug, Clone, Copy, PartialEq, Eq, Structural)]
pub enum ReactSignalsMode {
    /// Components and hooks that may read a signal.
    Auto,
    /// Only those that a comment asks for.
    Manual,
    /// All components.
    All,
}

/// Options that may change.
#[derive(Debug, Clone, Copy, PartialEq, Eq, Structural)]
pub struct ReactSignalsExperimentalOptions {
    /// Whether names are handed on for debugging.
    pub debug: bool,
    /// Whether `try` and `finally` are left out.
    pub no_try_finally: bool,
}

/// The options of the transform.
#[derive(Debug)]
pub struct ReactSignalsOptions {
    pub mode: ReactSignalsMode,
    /// The module that `useSignals` comes from.
    pub import_source: Option<String>,
    /// Whether calls that make elements count as JSX.
    pub detect_transformed_jsx: bool,
    pub experimental: ReactSignalsExperimentalOptions,
}

impl Default for ReactSignalsOptions {
    fn default() -> (r: Self)
        ensures
            r.mode == ReactSignalsMode::Auto,
            r.import_source is None,
            !r.detect_transformed_jsx,
            !r.experimental.debug,
            !r.experimental.no_try_finally,
    {
        ReactSignalsOptions {
            mode: ReactSignalsMode::Auto,
            import_source: None,
            detect_transformed_jsx: false,
            experimental: ReactSignalsExperimentalOptions { debug: false, no_try_finally: false },
        }
    }
}

/// What is known of a function.
#[derive(Debug, Clone, Copy, PartialEq, Eq, Structural)]
pub struct FunctionMetadata {
    pub contains_jsx: bool,
    pub maybe_uses_signal: bool,
}

/// The transform.
#[derive(Debug)]
pub struct ReactSignals {
    pub mode: ReactSignalsMode,
    pub import_source: String,
    pub detect_transformed_jsx: bool,
    pub debug: bool,
    pub no_try_finally: bool,
    pub function_metadata: FxHashMap<ScopeId, FunctionMetadata>,
    /// Where the nodes start that a comment asks to transform.
    pub opt_in_comments: FxHashSet<u32>,
    /// Where the nodes start that a comment asks to leave alone.
    pub opt_out_comments: FxHashSet<u32>,
    pub jsx: JSXAlternativeCollector,
    pub use_signals_binding: Option<BoundIdentifier>,
}

/// What is known of the function of a scope.
pub open spec fn metadata_of(map: Map<ScopeId, FunctionMetadata>, scope_id: ScopeId) -> FunctionMetadata {
    if map.contains_key(scope_id) {
        map[scope_id]
    } else {
        FunctionMetadata { contains_jsx: false, maybe_uses_signal: false }
    }
}

/// Where the nodes start that a leading comment with one of two words belongs to.
pub open spec fn directive_targets(
    comments: Seq<Comment>,
    text: Seq<char>,
    a: Seq<char>,
    b: Seq<char>,
) -> Set<u32> {
    Set::new(
        |start: u32|
            exists|i: int|
                0 <= i < comments.len() && (#[trigger] comments[i]).attached_to == start
                    && has_directive(comments[i], text, a, b),
    )
}

/// Whether a comment is a leading one with one of two words.
pub open spec fn has_directive(comment: Comment, text: Seq<char>, a: Seq<char>, b: Seq<char>) -> bool {
    &&& comment.is_leading
    &&& has_word(text_at(text, comment.content), a) || has_word(text_at(text, comment.content), b)
}

/// One more comment adds its node, if it has one of the words.
proof fn lemma_directive_targets(comments: Seq<Comment>, text: Seq<char>, a: Seq<char>, b: Seq<char>)
    requires
        comments.len() > 0,
    ensures
        directive_targets(comments, text, a, b) == (if has_directive(comments.last(), text, a, b) {
            directive_targets(comments.drop_last(), text, a, b).insert(comments.last().attached_to)
        } else {
            directive_targets(comments.drop_last(), text, a, b)
        }),
{
    let whole = directive_targets(comments, text, a, b);
    let before = directive_targets(comments.drop_last(), text, a, b);
    let n = comments.len() - 1;
    assert forall|start: u32| before.contains(start) implies whole.contains(start) by {
        let i = choose|i: int|
            0 <= i < n && (#[trigger] comments.drop_last()[i]).attached_to == start
                && has_directive(comments.drop_last()[i], text, a, b);
        assert(comments[i].attached_to == start);
    }
    assert forall|start: u32| whole.contains(start) implies before.contains(start) || (start
        == comments.last().attached_to && has_directive(comments.last(), text, a, b)) by {
        let i = choose|i: int|
            0 <= i < comments.len() && (#[trigger] comments[i]).attached_to == start
                && has_directive(comments[i], text, a, b);
        if i < n {
            assert(comments.drop_last()[i].attached_to == start);
        }
    }
    if has_directive(comments.last(), text, a, b) {
        assert(comments[n].attached_to == comments.last().attached_to);
        assert(whole =~= before.insert(comments.last().attached_to));
    } else {
        assert(whole =~= before);
    }
}

/// The arguments of a call of `useSignals`.
pub open spec fn use_signals_arguments(
    debug: bool,
    usage: Option<u8>,
    function_name: Option<Seq<char>>,
) -> Seq<Shape> {
    match (usage, function_name) {
        (Some(usage), Some(name)) if debug => seq![
            Shape::Number(decimal(usage as nat)),
            Shape::Text(name),
        ],
        (Some(usage), _) => seq![Shape::Number(decimal(usage as nat))],
        (None, Some(name)) if debug => seq![
            Shape::Name { name: "undefined"@, symbol_id: None },
            Shape::Text(name),
        ],
        _ => Seq::empty(),
    }
}

/// The references in the arguments of a call of `useSignals`, in a scope.
pub open spec fn argument_references(
    debug: bool,
    usage: Option<u8>,
    function_name: Option<Seq<char>>,
    scope_id: ScopeId,
) -> Seq<Made> {
    if debug && usage is None && function_name is Some {
        seq![naming_in(scope_id, "undefined"@, None)]
    } else {
        Seq::empty()
    }
}

/// How a function uses signals: as a component, as a hook, or unmanaged.
pub open spec fn usage_of(no_try_finally: bool, function_name: Option<Seq<char>>) -> Option<u8> {
    match function_name {
        Some(name) if !no_try_finally => if is_custom_hook(name) {
            Some(2u8)
        } else if is_component(name) {
            Some(1u8)
        } else {
            None
        },
        _ => None,
    }
}

/// `require(source).useSignals`.
pub open spec fn required_use_signals(ctx: TransformCtx, source: Seq<char>) -> Shape {
    member(
        call(
            Shape::Name {
                name: "require"@,
                symbol_id: ctx.traverse.scoping.symbols.binding(0, "require"@),
            },
            seq![Shape::Text(source)],
        ),
        "useSignals"@,
    )
}

/// What kind of symbol `useSignals` is: a name that a module imports, or a variable of a script.
pub open spec fn use_signals_flags(is_module: bool) -> SymbolFlags {
    if is_module {
        SymbolFlags::import()
    } else {
        SymbolFlags::function_scoped_variable()
    }
}

/// `after` is `before` with `bound` for a new name of `useSignals`: imported from `source` in a
/// module, and loaded by a call of `require` at the top of a script.
pub open spec fn use_signals_added(
    before: TransformCtx,
    after: TransformCtx,
    source: Seq<char>,
    bound: Bound,
) -> bool {
    let with_uid = TransformCtx {
        state: before.state,
        ..after.with_made(before.traverse.scoping.made)
    };
    &&& bound == before.next_uid("useSignals"@)
    &&& with_uid.after_uid(before, "useSignals"@, 0, use_signals_flags(before.state.is_module))
    &&& if before.state.is_module {
        let imports = after.state.named_imports;
        &&& after.state == (TransformState { named_imports: imports, ..before.state })
        &&& imports@.len() == before.state.named_imports@.len() + 1
        &&& imports@.drop_last() == before.state.named_imports@
        &&& imports@.last().source@ == source
        &&& imports@.last().imported@ == "useSignals"@
        &&& imports@.last().local@ == bound
        &&& after.traverse.scoping.made == before.traverse.scoping.made
    } else {
        let statements = after.state.top_level_statements;
        &&& after.state == (TransformState { top_level_statements: statements, ..before.state })
        &&& statements@.len() == before.state.top_level_statements@.len() + 1
        &&& statements@.drop_last() == before.state.top_level_statements@
        &&& statement_has_shape(
            statements@.last(),
            var_shape(bound, required_use_signals(with_uid, source)),
        )
        &&& after.made() == before.made().push(
            before.naming("require"@, with_uid.traverse.scoping.symbols.binding(0, "require"@)),
        )
    }
}

/// What happens to the context where `useSignals` is asked for: nothing if it has a name.
pub open spec fn use_signals_asked(
    before: TransformCtx,
    after: TransformCtx,
    source: Seq<char>,
    binding: Option<BoundIdentifier>,
    bound: Bound,
) -> bool {
    match binding {
        Some(b) => bound == b@ && after == before,
        None => use_signals_added(before, after, source, bound),
    }
}

/// `after` is `before` with a new name of `effect` and two scopes in `scope_id`, and references
/// to `useSignals` and to the effect.
pub open spec fn effect_added(
    before: TransformCtx,
    after: TransformCtx,
    scope_id: ScopeId,
    use_signals: Bound,
    effect: Bound,
) -> bool {
    let block = Scope { parent_id: Some(scope_id), flags: ScopeFlags::block() };
    &&& effect == before.next_uid("effect"@)
    &&& after.symbols().len() == before.symbols().len() + 1
    &&& after.symbols().drop_last() == before.symbols()
    &&& is_new_symbol(
        after.symbols().last(),
        effect.name,
        scope_id,
        SymbolFlags::function_scoped_variable(),
    )
    &&& after.scopes() == before.scopes().push(block).push(block)
    &&& after.state == before.state
    &&& after.made() == before.made() + seq![before.reading(use_signals), before.reading(effect)]
    &&& after.traverse.ancestry == before.traverse.ancestry
    &&& after.traverse.scoping.current_scope_id == before.traverse.scoping.current_scope_id
    &&& after.traverse.scoping.current_hoist_scope_id
        == before.traverse.scoping.current_hoist_scope_id
}

/// The statements of a transformed component or hook: `useSignals` is called first, and what it
/// gives back is finished whatever the statements do.
pub open spec fn managed_statements(
    statements: Seq<Statement>,
    use_signals: Bound,
    effect: Bound,
    arguments: Seq<Shape>,
    first_scope_id: ScopeId,
) -> Seq<StatementShape> {
    seq![
        var_shape(effect, call(Shape::Read(use_signals), arguments)),
        StatementShape::Try {
            block: given_statements(statements),
            block_scope_id: first_scope_id,
            finalizer: seq![
                StatementShape::Expression {
                    span: Span::empty(),
                    value: call(member(Shape::Read(effect), "f"@), Seq::empty()),
                },
            ],
            finalizer_scope_id: (first_scope_id + 1) as ScopeId,
        },
    ]
}

/// A call that stands by itself.
pub open spec fn prepended(callee: Shape, arguments: Seq<Shape>) -> StatementShape {
    StatementShape::Expression { span: Span::empty(), value: call(callee, arguments) }
}

/// What the transform does to the body of a function.
pub open spec fn transformed(
    rule: ReactSignals,
    before: FunctionBody,
    after: FunctionBody,
    use_signals: Bound,
    effect: Bound,
    first_scope_id: ScopeId,
    function_name: Option<Seq<char>>,
) -> bool {
    let usage = usage_of(rule.no_try_finally, function_name);
    let arguments = use_signals_arguments(rule.debug, usage, function_name);
    &&& after.directives == before.directives
    &&& match usage {
        Some(_) => statements_have_shapes(
            after.statements@,
            managed_statements(
                before.statements@,
                use_signals,
                effect,
                arguments,
                first_scope_id,
            ),
        ),
        None => {
            &&& after.statements@.len() == before.statements@.len() + 1
            &&& after.statements@.skip(1) == before.statements@
            &&& statement_has_shape(
                after.statements@[0],
                prepended(Shape::Read(use_signals), arguments),
            )
        },
    }
}

/// What the transform of a body does to the context.
pub open spec fn context_after(
    rule: ReactSignals,
    before: TransformCtx,
    mid: TransformCtx,
    after: TransformCtx,
    scope_id: ScopeId,
    use_signals: Bound,
    effect: Bound,
    function_name: Option<Seq<char>>,
) -> bool {
    &&& use_signals_asked(before, mid, rule.import_source@, rule.use_signals_binding, use_signals)
    &&& match usage_of(rule.no_try_finally, function_name) {
        Some(_) => effect_added(mid, after, scope_id, use_signals, effect),
        None => after.referred(
            mid,
            seq![mid.reading(use_signals)] + argument_references(
                rule.debug,
                None,
                function_name,
                mid.traverse.scoping.current_scope_id,
            ),
        ),
    }
}

/// The view of an optional text.
pub open spec fn str_opt(s: Option<&str>) -> Option<Seq<char>> {
    match s {
        Some(s) => Some(s@),
        None => None,
    }
}

impl ReactSignals {
    /// The transform with these options.
    pub fn new(options: &ReactSignalsOptions) -> (r: ReactSignals)
        ensures
            r.mode == options.mode,
            r.import_source@ == (match options.import_source {
                Some(source) => source@,
                None => "@preact/signals-react/runtime"@,
            }),
            r.detect_transformed_jsx == options.detect_transformed_jsx,
            r.debug == options.experimental.debug,
            r.no_try_finally == options.experimental.no_try_finally,
            r.function_metadata@ == Map::<ScopeId, FunctionMetadata>::empty(),
            r.opt_in_comments@ == Set::<u32>::empty(),
            r.opt_out_comments@ == Set::<u32>::empty(),
            r.jsx@ == Alternatives::none(),
            r.use_signals_binding is None,
    {
        let import_source = match &options.import_source {
            Some(source) => source.clone(),
            None => "@preact/signals-react/runtime".to_string(),
        };
        ReactSignals {
            mode: options.mode,
            import_source,
            detect_transformed_jsx: options.detect_transformed_jsx,
            debug: options.experimental.debug,
            no_try_finally: options.experimental.no_try_finally,
            function_metadata: FxHashMap::default(),
            opt_in_comments: FxHashSet::default(),
            opt_out_comments: FxHashSet::default(),
            jsx: JSXAlternativeCollector::new(),
            use_signals_binding: None,
        }
    }

    /// The same transform with other metadata.
    pub open spec fn with_metadata(self, map: FxHashMap<ScopeId, FunctionMetadata>) -> ReactSignals {
        ReactSignals { function_metadata: map, ..self }
    }

    /// What is known of the function of a scope.
    fn metadata(&self, scope_id: ScopeId) -> (r: FunctionMetadata)
        ensures
            r == metadata_of(self.function_metadata@, scope_id),
    {
        match map_get(&self.function_metadata, scope_id) {
            Some(metadata) => *metadata,
            None => FunctionMetadata { contains_jsx: false, maybe_uses_signal: false },
        }
    }

    /// The metadata once the innermost component or hook is known to contain JSX.
    pub open spec fn jsx_marked(self, ctx: TransformCtx) -> Map<ScopeId, FunctionMetadata> {
        let map = self.function_metadata@;
        match component_or_hook_from(ctx.traverse.ancestry.outward(), 0, ctx.state) {
            Some(s) => map.insert(
                s,
                FunctionMetadata { contains_jsx: true, ..metadata_of(map, s) },
            ),
            None => map,
        }
    }

    /// The metadata once the innermost component or hook is known to read what may be a signal.
    pub open spec fn signal_marked(self, ctx: TransformCtx) -> Map<ScopeId, FunctionMetadata> {
        let map = self.function_metadata@;
        match component_or_hook_from(ctx.traverse.ancestry.outward(), 0, ctx.state) {
            Some(s) => map.insert(
                s,
                FunctionMetadata { maybe_uses_signal: true, ..metadata_of(map, s) },
            ),
            None => map,
        }
    }

    /// The innermost component or hook contains JSX.
    pub fn mark_contains_jsx(&mut self, ctx: &TransformCtx)
        requires
            ctx.traverse.wf(),
        ensures
            final(self).function_metadata@ == old(self).jsx_marked(*ctx),
            *final(self) == old(self).with_metadata(final(self).function_metadata),
    {
        if let Some(scope_id) = find_parent_component_or_hook(ctx) {
            let metadata = self.metadata(scope_id);
            map_insert(
                &mut self.function_metadata,
                scope_id,
                FunctionMetadata {
                    contains_jsx: true,
                    maybe_uses_signal: metadata.maybe_uses_signal,
                },
            );
        }
    }

    /// The innermost component or hook reads what may be a signal.
    pub fn mark_maybe_uses_signal(&mut self, ctx: &TransformCtx)
        requires
            ctx.traverse.wf(),
        ensures
            final(self).function_metadata@ == old(self).signal_marked(*ctx),
            *final(self) == old(self).with_metadata(final(self).function_metadata),
    {
        if let Some(scope_id) = find_parent_component_or_hook(ctx) {
            let metadata = self.metadata(scope_id);
            map_insert(
                &mut self.function_metadata,
                scope_id,
                FunctionMetadata {
                    contains_jsx: metadata.contains_jsx,
                    maybe_uses_signal: true,
                },
            );
        }
    }

    /// Whether a comment asks to transform the function at `span`.
    pub open spec fn opted_in(self, span: Span, ctx: TransformCtx) -> bool {
        commented(ctx.traverse.ancestry.outward(), span, self.opt_in_comments@)
    }

    /// Whether a comment asks to leave the function at `span` alone.
    pub open spec fn opted_out(self, span: Span, ctx: TransformCtx) -> bool {
        commented(ctx.traverse.ancestry.outward(), span, self.opt_out_comments@)
    }

    /// Whether the mode transforms a function of which this is known.
    pub open spec fn mode_transforms(
        self,
        metadata: FunctionMetadata,
        function_name: Option<Seq<char>>,
    ) -> bool {
        let component = function_name matches Some(name) && is_component(name);
        let hook = function_name matches Some(name) && is_custom_hook(name);
        match self.mode {
            ReactSignalsMode::All => metadata.contains_jsx && component,
            ReactSignalsMode::Auto => metadata.maybe_uses_signal && ((metadata.contains_jsx
                && component) || hook),
            ReactSignalsMode::Manual => false,
        }
    }

    /// Whether a function is transformed.
    pub open spec fn transforms(
        self,
        scope_id: ScopeId,
        function_name: Option<Seq<char>>,
        span: Span,
        ctx: TransformCtx,
    ) -> bool {
        &&& !self.opted_out(span, ctx)
        &&& self.opted_in(span, ctx) || self.mode_transforms(
            metadata_of(self.function_metadata@, scope_id),
            function_name,
        )
    }

    /// Whether a function is transformed.
    pub fn should_transform(
        &self,
        scope_id: ScopeId,
        function_name: Option<&str>,
        span: Span,
        ctx: &TransformCtx,
    ) -> (r: bool)
        requires
            ctx.traverse.wf(),
        ensures
            r == self.transforms(scope_id, str_opt(function_name), span, *ctx),
    {
        if self.is_opted_out(span, ctx) {
            return false;
        }
        if self.is_opted_in(span, ctx) {
            return true;
        }
        let metadata = self.metadata(scope_id);
        let is_component = match function_name {
            Some(name) => is_component_name(name),
            None => false,
        };
        let is_hook = match function_name {
            Some(name) => is_custom_hook_name(name),
            None => false,
        };
        match self.mode {
            ReactSignalsMode::All => metadata.contains_jsx && is_component,
            ReactSignalsMode::Auto => metadata.maybe_uses_signal && ((metadata.contains_jsx
                && is_component) || is_hook),
            ReactSignalsMode::Manual => false,
        }
    }

    /// Whether a comment asks to transform the function at `span`.
    pub fn is_opted_in(&self, span: Span, ctx: &TransformCtx) -> (r: bool)
        requires
            ctx.traverse.wf(),
        ensures
            r == self.opted_in(span, *ctx),
    {
        has_opt_comment(span, ctx, &self.opt_in_comments)
    }

    /// Whether a comment asks to leave the function at `span` alone.
    pub fn is_opted_out(&self, span: Span, ctx: &TransformCtx) -> (r: bool)
        requires
            ctx.traverse.wf(),
        ensures
            r == self.opted_out(span, *ctx),
    {
        has_opt_comment(span, ctx, &self.opt_out_comments)
    }

    /// How a function uses signals.
    pub fn hook_usage(&self, function_name: Option<&str>) -> (r: Option<u8>)
        ensures
            r == usage_of(self.no_try_finally, str_opt(function_name)),
    {
        if self.no_try_finally {
            return None;
        }
        match function_name {
            Some(name) => {
                if is_custom_hook_name(name) {
                    Some(2)
                } else if is_component_name(name) {
                    Some(1)
                } else {
                    None
                }
            },
            None => None,
        }
    }

    /// The arguments of a call of `useSignals`.
    pub fn create_use_signals_arguments(
        &self,
        usage: Option<u8>,
        function_name: Option<&str>,
        ctx: &mut TransformCtx,
    ) -> (r: Vec<Argument>)
        ensures
            final(ctx).referred(
                *old(ctx),
                argument_references(
                    self.debug,
                    usage,
                    str_opt(function_name),
                    old(ctx).traverse.scoping.current_scope_id,
                ),
            ),
            arguments_have_shapes(
                r@,
                use_signals_arguments(self.debug, usage, str_opt(function_name)),
            ),
    {
        proof {
            assert(ctx.made() + Seq::<Made>::empty() =~= ctx.made());
        }
        let mut arguments: Vec<Argument> = Vec::new();
        match usage {
            Some(usage) => {
                let numeral = decimal_string(usage as u32);
                arguments.push(Argument::Expression(make_number(numeral.as_str())));
                if self.debug {
                    if let Some(name) = function_name {
                        arguments.push(Argument::Expression(make_text(name)));
                    }
                }
            },
            None => {
                if self.debug {
                    if let Some(name) = function_name {
                        let undefined = ctx.create_ident_expr("undefined", None);
                        arguments.push(Argument::Expression(undefined));
                        arguments.push(Argument::Expression(make_text(name)));
                    }
                }
            },
        }
        arguments
    }

    /// The name of `useSignals`, which is made where it is first asked for.
    pub fn get_use_signals_binding(&mut self, ctx: &mut TransformCtx) -> (r: BoundIdentifier)
        requires
            old(ctx).traverse.wf(),
            old(self).use_signals_binding is None ==> old(ctx).has_names(1),
        ensures
            use_signals_asked(
                *old(ctx),
                *final(ctx),
                old(self).import_source@,
                old(self).use_signals_binding,
                r@,
            ),
            final(self).use_signals_binding matches Some(b) && b@ == r@,
            *final(self) == (ReactSignals {
                use_signals_binding: final(self).use_signals_binding,
                ..*old(self)
            }),
            final(ctx).traverse.wf(),
    {
        if let Some(binding) = &self.use_signals_binding {
            return binding.copy();
        }
        let ghost before = *ctx;
        let flags = if ctx.state.is_module {
            SymbolFlags::import()
        } else {
            SymbolFlags::function_scoped_variable()
        };
        let binding = ctx.generate_uid_in_root_scope("useSignals", flags);
        let ghost with_uid = *ctx;
        if ctx.state.is_module {
            ctx.state.named_imports.push(
                NamedImport {
                    source: self.import_source.clone(),
                    imported: "useSignals".to_string(),
                    local: binding.copy(),
                },
            );
            proof {
                assert(ctx.state.named_imports@.drop_last() =~= before.state.named_imports@);
            }
        } else {
            let require_symbol_id = ctx.traverse.scoping.symbols.get_binding(0, "require");
            let require = ctx.create_ident_expr("require", require_symbol_id);
            let arguments = one_argument(make_text(self.import_source.as_str()));
            let ghost source = self.import_source@;
            proof {
                assert(arguments_have_shapes(arguments@, seq![Shape::Text(source)]));
            }
            let require_call = make_call(require, arguments);
            let init = make_member(require_call, "useSignals");
            proof {
                assert(has_shape(init, required_use_signals(with_uid, source)));
            }
            let statement = make_var(&binding, init);
            ctx.state.top_level_statements.push(statement);
            proof {
                assert(ctx.state.top_level_statements@.drop_last()
                    =~= before.state.top_level_statements@);
                let one = before.naming("require"@, require_symbol_id);
                assert(before.made() + seq![one] =~= before.made().push(one));
                assert(statement_has_shape(
                    statement,
                    var_shape(binding@, required_use_signals(with_uid, source)),
                ));
            }
        }
        self.use_signals_binding = Some(binding.copy());
        binding
    }
}

/// `self` with `useSignals` named.
pub open spec fn named(
    before: ReactSignals,
    after: ReactSignals,
    bound: Bound,
) -> bool {
    &&& after.use_signals_binding matches Some(b) && b@ == bound
    &&& after == (ReactSignals { use_signals_binding: after.use_signals_binding, ..before })
}

/// What the transform does where it transforms a function: to its body, to the context, and to
/// itself.
pub open spec fn body_transformed(
    rule: ReactSignals,
    rule_after: ReactSignals,
    before: FunctionBody,
    after: FunctionBody,
    ctx: TransformCtx,
    ctx_after: TransformCtx,
    scope_id: ScopeId,
    function_name: Option<Seq<char>>,
) -> bool {
    exists|use_signals: Bound, effect: Bound, mid: TransformCtx|
        #![trigger context_after(
            rule,
            ctx,
            mid,
            ctx_after,
            scope_id,
            use_signals,
            effect,
            function_name,
        )]
        context_after(rule, ctx, mid, ctx_after, scope_id, use_signals, effect, function_name)
            && transformed(
            rule,
            before,
            after,
            use_signals,
            effect,
            mid.scopes().len() as ScopeId,
            function_name,
        ) && named(rule, rule_after, use_signals)
}

impl ReactSignals {
    /// There is room for what the transform of the body of a function makes: the name of
    /// `useSignals`, if it has none yet, and an effect with two scopes in that of the function, if
    /// the function is managed.
    pub open spec fn body_fits(
        self,
        scope_id: ScopeId,
        function_name: Option<Seq<char>>,
        ctx: TransformCtx,
    ) -> bool {
        let first = if self.use_signals_binding is None {
            1int
        } else {
            0int
        };
        match usage_of(self.no_try_finally, function_name) {
            Some(_) => {
                &&& ctx.has_names(first + 1)
                &&& ctx.has_scopes(2)
                &&& scope_id < ctx.scopes().len()
            },
            None => self.use_signals_binding is None ==> ctx.has_names(1),
        }
    }

    /// Transforms the body of a function.
    pub fn transform_function_body(
        &mut self,
        body: &mut FunctionBody,
        scope_id: ScopeId,
        function_name: Option<&str>,
        ctx: &mut TransformCtx,
    )
        requires
            old(ctx).traverse.wf(),
            old(self).body_fits(scope_id, str_opt(function_name), *old(ctx)),
        ensures
            body_transformed(
                *old(self),
                *final(self),
                *old(body),
                *final(body),
                *old(ctx),
                *final(ctx),
                scope_id,
                str_opt(function_name),
            ),
            final(ctx).traverse.wf(),
    {
        let ghost rule = *self;
        let ghost start = *ctx;
        let ghost before = *body;
        let ghost name = str_opt(function_name);
        let binding = self.get_use_signals_binding(ctx);
        let ghost mid = *ctx;
        let use_signals = ctx.create_read_expression(&binding);
        let usage = self.hook_usage(function_name);
        if usage.is_none() {
            self.prepend_use_signals(body, use_signals, function_name, ctx);
            proof {
                let scope = mid.traverse.scoping.current_scope_id;
                let first = seq![mid.reading(binding@)];
                let more = argument_references(rule.debug, None, name, scope);
                assert((mid.made() + first) + more =~= mid.made() + (first + more));
                assert(context_after(rule, start, mid, *ctx, scope_id, binding@, binding@, name));
            }
            return;
        }
        let arguments = self.create_use_signals_arguments(usage, function_name, ctx);
        let ghost shapes = use_signals_arguments(rule.debug, usage, name);
        let effect = ctx.generate_uid(
            "effect",
            scope_id,
            SymbolFlags::function_scoped_variable(),
        );
        let init = make_call(use_signals, arguments);
        proof {
            assert(has_shape(init, call(Shape::Read(binding@), shapes)));
        }
        let effect_decl = make_var(&effect, init);
        let try_scope_id = ctx.create_child_scope(scope_id, ScopeFlags::block());
        let finally_scope_id = ctx.create_child_scope(scope_id, ScopeFlags::block());

        let mut statements: Vec<Statement> = Vec::new();
        core::mem::swap(&mut statements, &mut body.statements);

        let no_arguments: Vec<Argument> = Vec::new();
        let finish = make_call(
            make_member(ctx.create_read_expression(&effect), "f"),
            no_arguments,
        );
        proof {
            assert(arguments_have_shapes(no_arguments@, Seq::empty()));
            assert(has_shape(finish, call(member(Shape::Read(effect@), "f"@), Seq::empty())));
        }
        let mut finalizer: Vec<Statement> = Vec::new();
        finalizer.push(make_statement(finish));
        let ghost finalizer_shapes = seq![
            (StatementShape::Expression {
                span: Span::empty(),
                value: call(member(Shape::Read(effect@), "f"@), Seq::empty()),
            }),
        ];
        proof {
            assert(statement_has_shape(finalizer@[0], finalizer_shapes[0]));
            assert(statements_have_shapes(finalizer@, finalizer_shapes));
            assert(statements_have_shapes(statements@, given_statements(before.statements@)));
        }
        let try_stmt = make_try(statements, try_scope_id, finalizer, finally_scope_id);
        body.statements.push(effect_decl);
        body.statements.push(try_stmt);
        proof {
            let expected = managed_statements(
                before.statements@,
                binding@,
                effect@,
                shapes,
                mid.scopes().len() as ScopeId,
            );
            assert(statement_has_shape(effect_decl, expected[0]));
            assert(statement_has_shape(try_stmt, expected[1]));
            assert(statements_have_shapes(body.statements@, expected));
            let first = mid.reading(binding@);
            let second = mid.reading(effect@);
            let made = mid.made();
            assert(((made + seq![first]) + Seq::<Made>::empty()) + seq![second] =~= made + seq![
                first,
                second,
            ]);
            assert(effect_added(mid, *ctx, scope_id, binding@, effect@));
            assert(context_after(rule, start, mid, *ctx, scope_id, binding@, effect@, name));
        }
    }

    /// Puts a call of `useSignals` before the statements of a function.
    pub fn prepend_use_signals(
        &self,
        body: &mut FunctionBody,
        use_signals: Expression,
        function_name: Option<&str>,
        ctx: &mut TransformCtx,
    )
        ensures
            final(ctx).referred(
                *old(ctx),
                argument_references(
                    self.debug,
                    None,
                    str_opt(function_name),
                    old(ctx).traverse.scoping.current_scope_id,
                ),
            ),
            final(body).directives == old(body).directives,
            final(body).statements@.len() == old(body).statements@.len() + 1,
            final(body).statements@.skip(1) == old(body).statements@,
            forall|callee: Shape|
                has_shape(use_signals, callee) ==> #[trigger] statement_has_shape(
                    final(body).statements@[0],
                    prepended(
                        callee,
                        use_signals_arguments(self.debug, None, str_opt(function_name)),
                    ),
                ),
    {
        let arguments = self.create_use_signals_arguments(None, function_name, ctx);
        let ghost before = body.statements@;
        let statement = make_statement(make_call(use_signals, arguments));
        body.statements.insert(0, statement);
        proof {
            assert(body.statements@.skip(1) =~= before);
        }
    }

    /// Finds the nodes that comments ask to transform or to leave alone.
    pub fn collect_comments(&mut self, comments: &Vec<Comment>, source_text: &str)
        requires
            forall|i: int|
                0 <= i < comments@.len() && (#[trigger] comments@[i]).is_leading ==> in_source(
                    source_text@,
                    comments@[i].content,
                ),
        ensures
            final(self).opt_in_comments@ == directive_targets(
                comments@,
                source_text@,
                "@useSignals"@,
                "@trackSignals"@,
            ),
            final(self).opt_out_comments@ == directive_targets(
                comments@,
                source_text@,
                "@noUseSignals"@,
                "@noTrackSignals"@,
            ),
            *final(self) == (ReactSignals {
                opt_in_comments: final(self).opt_in_comments,
                opt_out_comments: final(self).opt_out_comments,
                ..*old(self)
            }),
    {
        let mut opt_in: FxHashSet<u32> = FxHashSet::default();
        let mut opt_out: FxHashSet<u32> = FxHashSet::default();
        let ghost text = source_text@;
        let mut i: usize = 0;
        proof {
            assert(opt_in@ =~= directive_targets(
                comments@.take(0),
                text,
                "@useSignals"@,
                "@trackSignals"@,
            ));
            assert(opt_out@ =~= directive_targets(
                comments@.take(0),
                text,
                "@noUseSignals"@,
                "@noTrackSignals"@,
            ));
        }
        while i < comments.len()
            invariant
                i <= comments@.len(),
                text == source_text@,
                forall|i: int|
                    0 <= i < comments@.len() && (#[trigger] comments@[i]).is_leading ==> in_source(
                        source_text@,
                        comments@[i].content,
                    ),
                opt_in@ == directive_targets(
                    comments@.take(i as int),
                    text,
                    "@useSignals"@,
                    "@trackSignals"@,
                ),
                opt_out@ == directive_targets(
                    comments@.take(i as int),
                    text,
                    "@noUseSignals"@,
                    "@noTrackSignals"@,
                ),
            decreases comments@.len() - i,
        {
            let comment = &comments[i];
            proof {
                let seen = comments@.take(i + 1);
                assert(seen.drop_last() =~= comments@.take(i as int));
                assert(seen.last() == *comment);
                lemma_directive_targets(seen, text, "@useSignals"@, "@trackSignals"@);
                lemma_directive_targets(seen, text, "@noUseSignals"@, "@noTrackSignals"@);
            }
            if comment.is_leading {
                let comment_text = slice(source_text, comment.content.start, comment.content.end);
                if has_comment_directive(comment_text, "@useSignals") || has_comment_directive(
                    comment_text,
                    "@trackSignals",
                ) {
                    set_insert(&mut opt_in, comment.attached_to);
                }
                if has_comment_directive(comment_text, "@noUseSignals") || has_comment_directive(
                    comment_text,
                    "@noTrackSignals",
                ) {
                    set_insert(&mut opt_out, comment.attached_to);
                }
            }
            i += 1;
        }
        proof {
            assert(comments@.take(comments@.len() as int) =~= comments@);
        }
        self.opt_in_comments = opt_in;
        self.opt_out_comments = opt_out;
    }

    /// Finds the functions that make elements.
    pub fn collect_jsx_alternatives(&mut self, program: &Program)
        ensures
            final(self).jsx@ == alternatives_in(program.body@),
            *final(self) == (ReactSignals { jsx: final(self).jsx, ..*old(self) }),
    {
        self.jsx = JSXAlternativeCollector::collect(program);
    }
}

/// The name of a signal for debugging: the variable, and the file and line where it is made.
pub open spec fn debug_name(
    variable_name: Seq<char>,
    span: Span,
    state: TransformState,
) -> Seq<char> {
    match spec_source_basename(state) {
        Some(filename) => variable_name + " ("@ + filename + ":"@ + decimal(
            line_of(state.source_text@, span),
        ) + ")"@,
        None => variable_name,
    }
}

/// `after` is a call like `before` that is handed `name` for its name.
pub open spec fn name_injected(
    before: CallExpression,
    after: CallExpression,
    name: Seq<char>,
) -> bool {
    let options = object("name"@, Shape::Text(name));
    let old_arguments = before.arguments@;
    let new_arguments = after.arguments@;
    &&& after.span == before.span
    &&& after.callee == before.callee
    &&& if old_arguments.len() == 0 {
        arguments_have_shapes(
            new_arguments,
            seq![Shape::Name { name: "undefined"@, symbol_id: None }, options],
        )
    } else {
        &&& new_arguments.len() == if old_arguments.len() == 1 {
            2
        } else {
            old_arguments.len()
        }
        &&& forall|i: int|
            0 <= i < new_arguments.len() && i != 1 ==> #[trigger] new_arguments[i]
                == old_arguments[i]
        &&& new_arguments[1] matches Argument::Expression(e)
        &&& if old_arguments.len() > 1 && old_arguments[1] is Expression
            && old_arguments[1]->Expression_0 is Object {
            property_added(*(old_arguments[1]->Expression_0->Object_0), e, name)
        } else {
            has_shape(e, options)
        }
    }
}

/// `after` is the object `before` with a name.
pub open spec fn property_added(
    before: crate::ast::ObjectExpression,
    after: Expression,
    name: Seq<char>,
) -> bool {
    &&& after matches Expression::Object(o)
    &&& o.span == before.span
    &&& o.properties@.len() == before.properties@.len() + 1
    &&& o.properties@.drop_last() == before.properties@
    &&& o.properties@.last() matches ObjectPropertyKind::ObjectProperty(p)
    &&& p.span == Span::empty()
    &&& p.key matches PropertyKey::StaticIdentifier(k) && k@ == "name"@
    &&& has_shape(p.value, Shape::Text(name))
}

impl ReactSignals {
    /// The name that is handed to a call that makes a signal, if one is.
    pub open spec fn injected_name(self, call: CallExpression, ctx: TransformCtx) -> Option<Seq<char>> {
        if self.debug && calls_signal(call) && !names_itself(call) {
            match variable_name_from(ctx.traverse.ancestry.outward(), 0) {
                Some(name) => Some(debug_name(name, call.span, ctx.state)),
                None => None,
            }
        } else {
            None
        }
    }

    /// A call that is handed a name with the line that it stands on stands on one.
    pub open spec fn call_has_line(self, call: CallExpression, ctx: TransformCtx) -> bool {
        self.injected_name(call, ctx) is Some && spec_source_basename(ctx.state) is Some ==> {
            &&& call.span.start <= encode_utf8(ctx.state.source_text@).len()
            &&& line_of(ctx.state.source_text@, call.span) <= u32::MAX
        }
    }

    /// `after` is `before`, which is handed a name if it makes a signal that has none, and
    /// `ctx_after` is `ctx` with the references that the call comes by: to `undefined`, where that
    /// stands for the value of the signal.
    pub open spec fn signal_named(
        self,
        before: CallExpression,
        after: CallExpression,
        ctx: TransformCtx,
        ctx_after: TransformCtx,
    ) -> bool {
        match self.injected_name(before, ctx) {
            Some(name) => {
                &&& name_injected(before, after, name)
                &&& if before.arguments@.len() == 0 {
                    ctx_after.referred(ctx, seq![ctx.naming("undefined"@, None)])
                } else {
                    ctx_after == ctx
                }
            },
            None => after == before && ctx_after == ctx,
        }
    }

    /// Hands a name to a call that makes a signal.
    pub fn maybe_inject_signal_name(&self, call_expr: &mut CallExpression, ctx: &mut TransformCtx)
        requires
            old(ctx).traverse.wf(),
            self.call_has_line(*old(call_expr), *old(ctx)),
        ensures
            self.signal_named(*old(call_expr), *final(call_expr), *old(ctx), *final(ctx)),
    {
        if !self.debug || !is_signal_call(call_expr) || has_name_in_options(call_expr) {
            return;
        }
        let Some(variable_name) = get_variable_name_from_ancestors(ctx) else {
            return;
        };
        let ghost before = *call_expr;
        let mut name = variable_name;
        if let Some(filename) = source_basename(&ctx.state) {
            if let Some(line) = line_number_for_span(call_expr.span, ctx.state.source_text.as_str()) {
                name.append(" (");
                name.append(filename.as_str());
                name.append(":");
                let numeral = decimal_string(line);
                name.append(numeral.as_str());
                name.append(")");
            }
        }
        proof {
            assert(name@ == debug_name(
                variable_name_from(ctx.traverse.ancestry.outward(), 0)->0,
                before.span,
                ctx.state,
            ));
        }
        let value = make_text(name.as_str());
        let count = call_expr.arguments.len();
        if count == 0 {
            let undefined = ctx.create_ident_expr("undefined", None);
            call_expr.arguments.push(Argument::Expression(undefined));
            call_expr.arguments.push(Argument::Expression(make_object("name", value)));
            proof {
                let shapes = seq![
                    Shape::Name { name: "undefined"@, symbol_id: None },
                    object("name"@, Shape::Text(name@)),
                ];
                assert(has_shape(call_expr.arguments@[0]->Expression_0, shapes[0]));
                assert(has_shape(call_expr.arguments@[1]->Expression_0, shapes[1]));
                assert(arguments_have_shapes(call_expr.arguments@, shapes));
            }
        } else if count == 1 {
            call_expr.arguments.push(Argument::Expression(make_object("name", value)));
        } else {
            match &mut call_expr.arguments[1] {
                Argument::Expression(Expression::Object(options)) => {
                    let ghost properties = options.properties@;
                    options.properties.push(make_property("name", value));
                    proof {
                        assert(options.properties@.drop_last() =~= properties);
                    }
                },
                argument => {
                    *argument = Argument::Expression(make_object("name", value));
                },
            }
        }
    }

    /// At the program.
    pub fn enter_program(&mut self, program: &Program, ctx: &TransformCtx)
        requires
            forall|i: int|
                0 <= i < program.comments@.len() && (#[trigger] program.comments@[i]).is_leading
                    ==> in_source(ctx.state.source_text@, program.comments@[i].content),
        ensures
            final(self).function_metadata@ == Map::<ScopeId, FunctionMetadata>::empty(),
            final(self).use_signals_binding is None,
            final(self).opt_in_comments@ == directive_targets(
                program.comments@,
                ctx.state.source_text@,
                "@useSignals"@,
                "@trackSignals"@,
            ),
            final(self).opt_out_comments@ == directive_targets(
                program.comments@,
                ctx.state.source_text@,
                "@noUseSignals"@,
                "@noTrackSignals"@,
            ),
            old(self).detect_transformed_jsx ==> final(self).jsx@ == alternatives_in(program.body@),
            !old(self).detect_transformed_jsx ==> final(self).jsx == old(self).jsx,
            *final(self) == (ReactSignals {
                function_metadata: final(self).function_metadata,
                use_signals_binding: None,
                opt_in_comments: final(self).opt_in_comments,
                opt_out_comments: final(self).opt_out_comments,
                jsx: final(self).jsx,
                ..*old(self)
            }),
    {
        self.function_metadata = FxHashMap::default();
        self.use_signals_binding = None;
        self.collect_comments(&program.comments, ctx.state.source_text.as_str());
        if self.detect_transformed_jsx {
            self.collect_jsx_alternatives(program);
        }
    }

    /// At a call.
    pub fn enter_call_expression(&mut self, call_expr: &mut CallExpression, ctx: &mut TransformCtx)
        requires
            old(ctx).traverse.wf(),
            old(self).call_has_line(*old(call_expr), *old(ctx)),
        ensures
            final(self).function_metadata@ == (if old(self).detect_transformed_jsx && old(
                self,
            ).jsx@.made_by(*old(call_expr)) {
                old(self).jsx_marked(*old(ctx))
            } else {
                old(self).function_metadata@
            }),
            *final(self) == old(self).with_metadata(final(self).function_metadata),
            old(self).signal_named(*old(call_expr), *final(call_expr), *old(ctx), *final(ctx)),
    {
        if self.detect_transformed_jsx && self.jsx.is_jsx_alternative_call(call_expr) {
            self.mark_contains_jsx(ctx);
        }
        self.maybe_inject_signal_name(call_expr, ctx);
    }

    /// At a member access.
    pub fn enter_member_expression(&mut self, expr: &Expression, ctx: &TransformCtx)
        requires
            ctx.traverse.wf(),
        ensures
            final(self).function_metadata@ == (if accesses_value(*expr) {
                old(self).signal_marked(*ctx)
            } else {
                old(self).function_metadata@
            }),
            *final(self) == old(self).with_metadata(final(self).function_metadata),
    {
        let is_value = match expr {
            Expression::StaticMember(m) => str_eq(m.property.as_str(), "value"),
            Expression::ComputedMember(m) => match &m.static_property_name {
                Some(name) => str_eq(name.as_str(), "value"),
                None => false,
            },
            _ => false,
        };
        if is_value {
            self.mark_maybe_uses_signal(ctx);
        }
    }

    /// At a member access that is assigned to.
    pub fn enter_member_target(&mut self, target: &AssignmentTarget, ctx: &TransformCtx)
        requires
            ctx.traverse.wf(),
        ensures
            final(self).function_metadata@ == (if assigns_value(*target) {
                old(self).signal_marked(*ctx)
            } else {
                old(self).function_metadata@
            }),
            *final(self) == old(self).with_metadata(final(self).function_metadata),
    {
        let is_value = match target {
            AssignmentTarget::StaticMember(m) => str_eq(m.property.as_str(), "value"),
            AssignmentTarget::ComputedMember(m) => match &m.static_property_name {
                Some(name) => str_eq(name.as_str(), "value"),
                None => false,
            },
            _ => false,
        };
        if is_value {
            self.mark_maybe_uses_signal(ctx);
        }
    }

    /// At a pattern that takes an object apart.
    pub fn enter_object_pattern(&mut self, pattern: &ObjectPattern, ctx: &TransformCtx)
        requires
            ctx.traverse.wf(),
        ensures
            final(self).function_metadata@ == (if takes_value(*pattern) {
                old(self).signal_marked(*ctx)
            } else {
                old(self).function_metadata@
            }),
            *final(self) == old(self).with_metadata(final(self).function_metadata),
    {
        let properties = &pattern.properties;
        let mut i: usize = 0;
        while i < properties.len()
            invariant
                i <= properties@.len(),
                *properties == pattern.properties,
                forall|j: int|
                    0 <= j < i ==> (#[trigger] properties@[j]).key.spec_static_name() != Some(
                        "value"@,
                    ),
                *self == *old(self),
                ctx.traverse.wf(),
            decreases properties@.len() - i,
        {
            if let Some(name) = properties[i].key.static_name() {
                if str_eq(name, "value") {
                    proof {
                        assert(properties@[i as int].key.spec_static_name() == Some("value"@));
                        assert(takes_value(*pattern));
                    }
                    self.mark_maybe_uses_signal(ctx);
                    return;
                }
            }
            i += 1;
        }
    }

    /// At a JSX element.
    pub fn enter_jsx_element(&mut self, ctx: &TransformCtx)
        requires
            ctx.traverse.wf(),
        ensures
            final(self).function_metadata@ == old(self).jsx_marked(*ctx),
            *final(self) == old(self).with_metadata(final(self).function_metadata),
    {
        self.mark_contains_jsx(ctx);
    }

    /// At a JSX fragment.
    pub fn enter_jsx_fragment(&mut self, ctx: &TransformCtx)
        requires
            ctx.traverse.wf(),
        ensures
            final(self).function_metadata@ == old(self).jsx_marked(*ctx),
            *final(self) == old(self).with_metadata(final(self).function_metadata),
    {
        self.mark_contains_jsx(ctx);
    }
}

/// Whether the expression is an access to the member `value`.
pub open spec fn accesses_value(expr: Expression) -> bool {
    match expr {
        Expression::StaticMember(m) => m.property@ == "value"@,
        Expression::ComputedMember(m) => opt_view(m.static_property_name) == Some("value"@),
        _ => false,
    }
}

/// Whether the target of an assignment is the member `value`.
pub open spec fn assigns_value(target: AssignmentTarget) -> bool {
    match target {
        AssignmentTarget::StaticMember(m) => m.property@ == "value"@,
        AssignmentTarget::ComputedMember(m) => opt_view(m.static_property_name) == Some("value"@),
        _ => false,
    }
}

/// Whether the pattern takes the member `value`.
pub open spec fn takes_value(pattern: ObjectPattern) -> bool {
    exists|i: int|
        0 <= i < pattern.properties@.len() && (
        #[trigger] pattern.properties@[i]).key.spec_static_name() == Some("value"@)
}

/// What the transform does at the end of a function with this name: nothing, or the body is
/// transformed and the rest is left alone.
pub open spec fn function_left(
    rule: ReactSignals,
    rule_after: ReactSignals,
    before: Function,
    after: Function,
    ctx: TransformCtx,
    ctx_after: TransformCtx,
    function_name: Option<Seq<char>>,
) -> bool {
    if rule.transforms(before.scope_id, function_name, before.span, ctx) {
        &&& after == (Function { body: after.body, ..before })
        &&& before.body matches Some(body)
        &&& after.body matches Some(body_after)
        &&& body_transformed(
            rule,
            rule_after,
            body,
            body_after,
            ctx,
            ctx_after,
            before.scope_id,
            function_name,
        )
    } else {
        after == before && rule_after == rule && ctx_after == ctx
    }
}

/// What the transform does at the end of an arrow function with this name: nothing, or it gets a
/// block, which is transformed.
pub open spec fn arrow_left(
    rule: ReactSignals,
    rule_after: ReactSignals,
    before: crate::ast::ArrowFunctionExpression,
    after: crate::ast::ArrowFunctionExpression,
    ctx: TransformCtx,
    ctx_after: TransformCtx,
    function_name: Option<Seq<char>>,
) -> bool {
    if rule.transforms(before.scope_id, function_name, before.span, ctx) {
        exists|mid: crate::ast::ArrowFunctionExpression|
            has_block_body(before, mid) && after == (crate::ast::ArrowFunctionExpression {
                body: after.body,
                ..mid
            }) && #[trigger] body_transformed(
                rule,
                rule_after,
                mid.body,
                after.body,
                ctx,
                ctx_after,
                before.scope_id,
                function_name,
            )
    } else {
        after == before && rule_after == rule && ctx_after == ctx
    }
}

/// The name that a function has by itself.
pub open spec fn own_name(func: Function) -> Option<Seq<char>> {
    match func.id {
        Some(id) => Some(id.name@),
        None => None,
    }
}

/// The name of a function expression: its own, or else the one that the nodes round it give.
pub open spec fn expression_name(func: Function, ctx: TransformCtx) -> Option<Seq<char>> {
    match func.id {
        Some(id) => Some(id.name@),
        None => name_from(ctx.traverse.ancestry.outward(), 0, ctx.state),
    }
}

/// A function that is transformed has a body, and the context has room.
pub open spec fn function_fits(
    rule: ReactSignals,
    func: Function,
    function_name: Option<Seq<char>>,
    ctx: TransformCtx,
) -> bool {
    func.body is Some && rule.body_fits(func.scope_id, function_name, ctx)
}

impl ReactSignals {
    /// Transforms a function, if it is one to transform.
    fn leave_function(&mut self, func: &mut Function, function_name: Option<&str>, ctx: &mut TransformCtx)
        requires
            old(ctx).traverse.wf(),
            old(self).transforms(
                old(func).scope_id,
                str_opt(function_name),
                old(func).span,
                *old(ctx),
            ) ==> function_fits(*old(self), *old(func), str_opt(function_name), *old(ctx)),
        ensures
            function_left(
                *old(self),
                *final(self),
                *old(func),
                *final(func),
                *old(ctx),
                *final(ctx),
                str_opt(function_name),
            ),
            final(ctx).traverse.wf(),
    {
        let scope_id = func.scope_id;
        if self.should_transform(scope_id, function_name, func.span, ctx) {
            if let Some(body) = &mut func.body {
                self.transform_function_body(body, scope_id, function_name, ctx);
            }
        }
    }

    /// After an expression.
    pub fn exit_expression(&mut self, expr: &mut Expression, ctx: &mut TransformCtx)
        requires
            old(ctx).traverse.wf(),
            *old(expr) matches Expression::Function(func) ==> (old(self).transforms(
                func.scope_id,
                expression_name(*func, *old(ctx)),
                func.span,
                *old(ctx),
            ) ==> function_fits(*old(self), *func, expression_name(*func, *old(ctx)), *old(ctx))),
            *old(expr) matches Expression::Arrow(arrow) ==> (old(self).transforms(
                arrow.scope_id,
                name_from(old(ctx).traverse.ancestry.outward(), 0, old(ctx).state),
                arrow.span,
                *old(ctx),
            ) ==> arrow_wf(*arrow) && old(self).body_fits(
                arrow.scope_id,
                name_from(old(ctx).traverse.ancestry.outward(), 0, old(ctx).state),
                *old(ctx),
            )),
        ensures
            match *old(expr) {
                Expression::Function(func) => *final(expr) matches Expression::Function(after)
                    && function_left(
                    *old(self),
                    *final(self),
                    *func,
                    *after,
                    *old(ctx),
                    *final(ctx),
                    expression_name(*func, *old(ctx)),
                ),
                Expression::Arrow(arrow) => *final(expr) matches Expression::Arrow(after)
                    && arrow_left(
                    *old(self),
                    *final(self),
                    *arrow,
                    *after,
                    *old(ctx),
                    *final(ctx),
                    name_from(old(ctx).traverse.ancestry.outward(), 0, old(ctx).state),
                ),
                _ => *final(expr) == *old(expr) && *final(self) == *old(self) && *final(ctx)
                    == *old(ctx),
            },
            final(ctx).traverse.wf(),
    {
        match expr {
            Expression::Function(func) => {
                let function_name = match &func.id {
                    Some(id) => Some(id.name.clone()),
                    None => get_function_name_from_ancestors(0, ctx),
                };
                let name = match &function_name {
                    Some(name) => Some(name.as_str()),
                    None => None,
                };
                self.leave_function(func, name, ctx);
            },
            Expression::Arrow(arrow) => {
                let function_name = get_function_name_from_ancestors(0, ctx);
                let name = match &function_name {
                    Some(name) => Some(name.as_str()),
                    None => None,
                };
                let scope_id = arrow.scope_id;
                if self.should_transform(scope_id, name, arrow.span, ctx) {
                    ensure_arrow_block_body(arrow);
                    self.transform_function_body(&mut arrow.body, scope_id, name, ctx);
                }
            },
            _ => {},
        }
    }

    /// After a function.
    pub fn exit_function(&mut self, func: &mut Function, ctx: &mut TransformCtx)
        requires
            old(ctx).traverse.wf(),
            old(func).function_type == FunctionType::FunctionDeclaration && old(self).transforms(
                old(func).scope_id,
                own_name(*old(func)),
                old(func).span,
                *old(ctx),
            ) ==> function_fits(*old(self), *old(func), own_name(*old(func)), *old(ctx)),
        ensures
            if old(func).function_type == FunctionType::FunctionDeclaration {
                function_left(
                    *old(self),
                    *final(self),
                    *old(func),
                    *final(func),
                    *old(ctx),
                    *final(ctx),
                    own_name(*old(func)),
                )
            } else {
                *final(func) == *old(func) && *final(self) == *old(self) && *final(ctx) == *old(ctx)
            },
            final(ctx).traverse.wf(),
    {
        if func.function_type != FunctionType::FunctionDeclaration {
            return;
        }
        let function_name = match &func.id {
            Some(id) => Some(id.name.clone()),
            None => None,
        };
        let name = match &function_name {
            Some(name) => Some(name.as_str()),
            None => None,
        };
        self.leave_function(func, name, ctx);
    }
}

/// A comment that asks to leave a function alone wins over one that asks to transform it, and
/// over the mode.
pub proof fn law_opt_out_wins(
    rule: ReactSignals,
    scope_id: ScopeId,
    name: Option<Seq<char>>,
    span: Span,
    ctx: TransformCtx,
)
    requires
        rule.opted_out(span, ctx),
    ensures
        !rule.transforms(scope_id, name, span, ctx),
{
}

/// A comment that asks to transform a function is enough, whatever the mode, the name and the
/// body, unless another asks to leave the function alone.
pub proof fn law_opt_in_is_enough(
    rule: ReactSignals,
    scope_id: ScopeId,
    name: Option<Seq<char>>,
    span: Span,
    ctx: TransformCtx,
)
    requires
        rule.opted_in(span, ctx),
        !rule.opted_out(span, ctx),
    ensures
        rule.transforms(scope_id, name, span, ctx),
{
}

/// In manual mode, only a comment gets a function transformed.
pub proof fn law_manual_mode(
    rule: ReactSignals,
    scope_id: ScopeId,
    name: Option<Seq<char>>,
    span: Span,
    ctx: TransformCtx,
)
    requires
        rule.mode == ReactSignalsMode::Manual,
    ensures
        rule.transforms(scope_id, name, span, ctx) <==> rule.opted_in(span, ctx)
            && !rule.opted_out(span, ctx),
{
}

/// What the automatic mode transforms is a component that contains JSX and may read a signal, or
/// a hook that may; all of these components are transformed where all components are.
pub proof fn law_modes_are_ordered(
    auto: ReactSignals,
    all: ReactSignals,
    metadata: FunctionMetadata,
    name: Seq<char>,
)
    requires
        auto.mode == ReactSignalsMode::Auto,
        all.mode == ReactSignalsMode::All,
        auto.mode_transforms(metadata, Some(name)),
    ensures
        metadata.maybe_uses_signal,
        is_component(name) || is_custom_hook(name),
        is_component(name) ==> all.mode_transforms(metadata, Some(name)),
{
    if is_component(name) {
        reveal_strlit("use");
        if is_custom_hook(name) {
            assert("use"@[0] == name[0]);
        }
    }
}

/// However often `useSignals` is asked for, it has one name, and is added to the program once.
pub proof fn law_use_signals_is_added_once(
    rule: ReactSignals,
    first: TransformCtx,
    second: TransformCtx,
    third: TransformCtx,
    source: Seq<char>,
    after: ReactSignals,
    a: Bound,
    b: Bound,
)
    requires
        use_signals_asked(first, second, source, rule.use_signals_binding, a),
        named(rule, after, a),
        use_signals_asked(second, third, source, after.use_signals_binding, b),
    ensures
        b == a,
        third == second,
{
}

/// The name of `useSignals` is one that the program did not use.
pub proof fn law_use_signals_is_new(
    before: TransformCtx,
    after: TransformCtx,
    source: Seq<char>,
    bound: Bound,
)
    requires
        use_signals_added(before, after, source, bound),
    ensures
        !before.used_names().contains(bound.name),
{
    crate::uid::law_uid_is_unused("useSignals"@, before.used_names());
}

/// A call is left as it is unless names are asked for, it makes a signal, it has no name yet, and
/// it is the value of a variable. Else its second argument is an object that ends in a name: with
/// the properties that were there before it, if it was an object. The other arguments stay; the
/// first, if there was none, is `undefined`. A call that was handed a name is handed none again.
pub proof fn law_signals_are_named_once(
    rule: ReactSignals,
    before: CallExpression,
    after: CallExpression,
    ctx: TransformCtx,
    ctx_after: TransformCtx,
    again: CallExpression,
    later: TransformCtx,
    later_after: TransformCtx,
)
    requires
        rule.signal_named(before, after, ctx, ctx_after),
        rule.signal_named(after, again, later, later_after),
        later.traverse.ancestry == ctx.traverse.ancestry,
    ensures
        !rule.debug || !calls_signal(before) || names_itself(before) || variable_name_from(
            ctx.traverse.ancestry.outward(),
            0,
        ) is None ==> after == before && ctx_after == ctx,
        rule.debug && calls_signal(before) && !names_itself(before) && variable_name_from(
            ctx.traverse.ancestry.outward(),
            0,
        ) is Some ==> {
            let kept = if before.arguments@.len() > 1 {
                options_of(before.arguments@[1])
            } else {
                Seq::empty()
            };
            &&& after.callee == before.callee
            &&& after.arguments@.len() > 1
            &&& after.arguments@[1] matches Argument::Expression(Expression::Object(o))
                && o.properties@.len() == kept.len() + 1 && o.properties@.drop_last() == kept
                && is_name_property(o.properties@.last())
            &&& before.arguments@.len() > 0 ==> after.arguments@[0] == before.arguments@[0]
            &&& before.arguments@.len() == 0 ==> has_shape(
                after.arguments@[0]->Expression_0,
                Shape::Name { name: "undefined"@, symbol_id: None },
            )
            &&& forall|i: int|
                2 <= i < before.arguments@.len() ==> #[trigger] after.arguments@[i]
                    == before.arguments@[i]
        },
        again == after,
        later_after == later,
{
    if let Some(name) = rule.injected_name(before, ctx) {
        let options = object("name"@, Shape::Text(name));
        let e = after.arguments@[1]->Expression_0;
        if before.arguments@.len() == 0 {
            let shapes = seq![Shape::Name { name: "undefined"@, symbol_id: None }, options];
            assert(has_shape(after.arguments@[0]->Expression_0, shapes[0]));
            assert(has_shape(after.arguments@[1]->Expression_0, shapes[1]));
        }
        let o = *(e->Object_0);
        assert(is_name_property(o.properties@.last()));
        assert(names_itself(after));
    }
}

/// The properties of an argument that is an object.
pub open spec fn options_of(argument: Argument) -> Seq<ObjectPropertyKind> {
    match argument {
        Argument::Expression(Expression::Object(o)) => o.properties@,
        _ => Seq::empty(),
    }
}

/// No statement of a transformed function is lost, changed or put in another order.
pub proof fn law_statements_are_kept(
    rule: ReactSignals,
    before: FunctionBody,
    after: FunctionBody,
    use_signals: Bound,
    effect: Bound,
    first_scope_id: ScopeId,
    name: Option<Seq<char>>,
)
    requires
        transformed(rule, before, after, use_signals, effect, first_scope_id, name),
    ensures
        after.directives == before.directives,
        usage_of(rule.no_try_finally, name) is None ==> after.statements@.skip(1)
            == before.statements@,
        usage_of(rule.no_try_finally, name) is Some ==> after.statements@.len() == 2 && (
        after.statements@[1] matches Statement::Try(t) && t.block.body@ == before.statements@),
{
    if usage_of(rule.no_try_finally, name) is Some {
        let arguments = use_signals_arguments(
            rule.debug,
            usage_of(rule.no_try_finally, name),
            name,
        );
        let shapes = managed_statements(
            before.statements@,
            use_signals,
            effect,
            arguments,
            first_scope_id,
        );
        assert(statement_has_shape(after.statements@[1], shapes[1]));
        let given = given_statements(before.statements@);
        let t = after.statements@[1]->Try_0;
        assert(statements_have_shapes(t.block.body@, given));
        assert forall|i: int| 0 <= i < given.len() implies t.block.body@[i] == before.statements@[i] by {
            assert(statement_has_shape(t.block.body@[i], given[i]));
        }
        assert(t.block.body@ =~= before.statements@);
    }
}

} // verus!

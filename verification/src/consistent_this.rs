//! A rule on the names of variables that hold `this`.

use crate::ast::{
    AssignmentExpression, AssignmentOperator, AssignmentTarget, BindingPattern, Span, SymbolId,
    VariableDeclarator,
};
use crate::lint::{AstKind, AstNode, Diagnostic, LintContext, Report, reports};
use crate::semantic::{NodeId, Reference};
use crate::text::{concat3, lemma_between, str_eq, views};
use vstd::prelude::*;

verus! {

/// A value of a configuration, as far as the rule looks at it.
#[derive(Debug)]
pub enum ConfigValue {
    Array(Vec<ConfigValue>),
    Text(String),
    Other,
}

/// The texts among values.
pub open spec fn texts_among(items: Seq<ConfigValue>) -> Seq<Seq<char>>
    decreases items.len(),
{
    if items.len() == 0 {
        Seq::empty()
    } else {
        let before = texts_among(items.drop_last());
        match items.last() {
            ConfigValue::Text(text) => before.push(text@),
            _ => before,
        }
    }
}

/// The aliases where none are configured.
pub open spec fn default_aliases() -> Seq<Seq<char>> {
    seq!["that"@]
}

/// The aliases that a configuration asks for: the texts of a list, if there are any.
pub open spec fn configured_aliases(value: ConfigValue) -> Seq<Seq<char>> {
    match value {
        ConfigValue::Array(items) if texts_among(items@).len() > 0 => texts_among(items@),
        _ => default_aliases(),
    }
}

/// What the rule is configured with.
#[derive(Debug, Clone)]
pub struct ConsistentThisConfig {
    /// The names that a variable that holds `this` may have.
    pub aliases: Vec<String>,
}

impl Default for ConsistentThisConfig {
    fn default() -> (r: ConsistentThisConfig)
        ensures
            views(r.aliases@) == default_aliases(),
    {
        let mut aliases: Vec<String> = Vec::new();
        aliases.push("that".to_string());
        proof {
            assert(views(aliases@) =~= default_aliases());
        }
        ConsistentThisConfig { aliases }
    }
}

/// The rule.
#[derive(Debug, Clone)]
pub struct ConsistentThis(pub Box<ConsistentThisConfig>);

impl Default for ConsistentThis {
    fn default() -> (r: ConsistentThis)
        ensures
            r.aliases() == default_aliases(),
    {
        ConsistentThis(Box::new(ConsistentThisConfig::default()))
    }
}

/// The report on an alias that does not hold `this`.
pub open spec fn not_this_report(span: Span, name: Seq<char>) -> Report {
    Report {
        message: "Designated alias '"@ + name + "' is not assigned to 'this'."@,
        help: None,
        span,
    }
}

/// The report on a variable that holds `this` and is no alias.
pub open spec fn unexpected_report(span: Span, name: Seq<char>) -> Report {
    Report { message: "Unexpected alias '"@ + name + "' for 'this'."@, help: None, span }
}

/// Reports an alias that does not hold `this`.
fn alias_not_assigned_to_this_diagnostic(span: Span, name: &str) -> (r: Diagnostic)
    ensures
        r@ == not_this_report(span, name@),
{
    let message = concat3("Designated alias '", name, "' is not assigned to 'this'.");
    Diagnostic { message, help: None, span }
}

/// Reports a variable that holds `this` and is no alias.
fn unexpected_alias_diagnostic(span: Span, name: &str) -> (r: Diagnostic)
    ensures
        r@ == unexpected_report(span, name@),
{
    Diagnostic { message: concat3("Unexpected alias '", name, "' for 'this'."), help: None, span }
}

/// Whether a node declares a variable and gives it a value.
pub open spec fn is_initialized(kind: AstKind) -> bool {
    kind matches AstKind::VariableDeclarator(declarator) && declarator.init is Some
}

/// Whether a node assigns `this`.
pub open spec fn assigns_this(kind: AstKind) -> bool {
    kind matches AstKind::AssignmentExpression(assignment) && assignment.operator
        == AssignmentOperator::Assign && assignment.right.is_this()
}

/// Whether some declaration of a variable gives it a value.
pub open spec fn has_initialized_declaration(symbol_id: SymbolId, ctx: LintContext) -> bool {
    let declarations = ctx.scoping.symbols.symbols@[symbol_id as int].declarations@;
    exists|i: int|
        0 <= i < declarations.len() && is_initialized(ctx.spec_kind(#[trigger] declarations[i]))
}

/// Whether a use assigns `this` to a variable in the scope that declares it.
pub open spec fn use_assigns_this(reference: Reference, symbol_id: SymbolId, ctx: LintContext) -> bool {
    &&& reference.is_write
    &&& reference.scope_id == ctx.scoping.symbols.symbols@[symbol_id as int].scope_id
    &&& assigns_this(ctx.spec_parent_kind(reference.node_id))
}

/// Whether a variable is assigned `this` in the scope that declares it.
pub open spec fn assigned_to_this_in_scope(symbol_id: SymbolId, ctx: LintContext) -> bool {
    let references = ctx.scoping.symbols.symbols@[symbol_id as int].references@;
    exists|i: int|
        0 <= i < references.len() && use_assigns_this(#[trigger] references[i], symbol_id, ctx)
}

/// The report on a declared variable.
pub open spec fn declarator_report(
    aliases: Seq<Seq<char>>,
    declarator: VariableDeclarator,
    ctx: LintContext,
) -> Option<Report> {
    match declarator.id {
        BindingPattern::Identifier(ident) => {
            let is_alias = aliases.contains(ident.name@);
            match declarator.init {
                Some(init) => if is_alias && !init.is_this() {
                    Some(not_this_report(declarator.span, ident.name@))
                } else if !is_alias && init.is_this() {
                    Some(unexpected_report(declarator.span, ident.name@))
                } else {
                    None
                },
                None => if is_alias && !has_initialized_declaration(ident.symbol_id, ctx)
                    && !assigned_to_this_in_scope(ident.symbol_id, ctx) {
                    Some(not_this_report(ident.span, ident.name@))
                } else {
                    None
                },
            }
        },
        _ => None,
    }
}

/// The report on an assignment.
pub open spec fn assignment_report(
    aliases: Seq<Seq<char>>,
    assignment: AssignmentExpression,
) -> Option<Report> {
    match assignment.left {
        AssignmentTarget::Identifier(target) => {
            let is_this = assignment.right.is_this();
            if aliases.contains(target.name@) {
                if !is_this || assignment.operator != AssignmentOperator::Assign {
                    Some(not_this_report(assignment.span, target.name@))
                } else {
                    None
                }
            } else if is_this {
                Some(unexpected_report(assignment.span, target.name@))
            } else {
                None
            }
        },
        _ => None,
    }
}

/// Whether the variable that a declarator declares is in the table of symbols.
pub open spec fn is_bound(declarator: VariableDeclarator, ctx: LintContext) -> bool {
    declarator.id matches BindingPattern::Identifier(ident) ==> ctx.scoping.symbols.has(
        ident.symbol_id,
    )
}

/// The view of an optional report.
pub open spec fn optional_report(d: Option<Diagnostic>) -> Option<Report> {
    match d {
        Some(d) => Some(d@),
        None => None,
    }
}

impl ConsistentThis {
    /// The names that a variable that holds `this` may have.
    pub open spec fn aliases(self) -> Seq<Seq<char>> {
        views(self.0.aliases@)
    }

    /// The rule as a configuration asks for it.
    pub fn from_configuration(value: &ConfigValue) -> (r: ConsistentThis)
        ensures
            r.aliases() == configured_aliases(*value),
    {
        let ConfigValue::Array(items) = value else {
            return ConsistentThis::default();
        };
        let mut aliases: Vec<String> = Vec::new();
        let mut i: usize = 0;
        proof {
            assert(items@.take(0) =~= Seq::empty());
            assert(views(aliases@) =~= Seq::empty());
        }
        while i < items.len()
            invariant
                i <= items@.len(),
                views(aliases@) == texts_among(items@.take(i as int)),
            decreases items@.len() - i,
        {
            let ghost before = aliases@;
            proof {
                assert(items@.take(i + 1).drop_last() =~= items@.take(i as int));
                assert(items@.take(i + 1).last() == items@[i as int]);
            }
            if let ConfigValue::Text(text) = &items[i] {
                aliases.push(text.clone());
                proof {
                    assert(views(aliases@) =~= views(before).push(text@));
                }
            }
            i += 1;
        }
        proof {
            assert(items@.take(items@.len() as int) =~= items@);
        }
        if aliases.len() == 0 {
            ConsistentThis::default()
        } else {
            ConsistentThis(Box::new(ConsistentThisConfig { aliases }))
        }
    }

    /// Whether a variable that holds `this` may have the name.
    pub fn is_alias(&self, name: &str) -> (r: bool)
        ensures
            r == self.aliases().contains(name@),
    {
        let aliases = &self.0.aliases;
        let mut i: usize = 0;
        while i < aliases.len()
            invariant
                i <= aliases@.len(),
                self.aliases() == views(aliases@),
                forall|k: int| 0 <= k < i ==> self.aliases()[k] != name@,
            decreases aliases@.len() - i,
        {
            if str_eq(aliases[i].as_str(), name) {
                proof {
                    assert(self.aliases()[i as int] == name@);
                }
                return true;
            }
            i += 1;
        }
        false
    }

    /// Whether some declaration of a variable gives it a value.
    fn is_initialized_somewhere(symbol_id: SymbolId, ctx: &LintContext) -> (r: bool)
        requires
            ctx.scoping.symbols.has(symbol_id),
        ensures
            r == has_initialized_declaration(symbol_id, *ctx),
    {
        let declarations = &ctx.scoping.symbols.symbols[symbol_id as usize].declarations;
        let mut i: usize = 0;
        while i < declarations.len()
            invariant
                i <= declarations@.len(),
                declarations@ == ctx.scoping.symbols.symbols@[symbol_id as int].declarations@,
                forall|k: int|
                    0 <= k < i ==> !is_initialized(ctx.spec_kind(#[trigger] declarations@[k])),
            decreases declarations@.len() - i,
        {
            if let AstKind::VariableDeclarator(declarator) = ctx.kind(declarations[i]) {
                if declarator.init.is_some() {
                    proof {
                        assert(is_initialized(ctx.spec_kind(declarations@[i as int])));
                    }
                    return true;
                }
            }
            i += 1;
        }
        false
    }

    /// Whether a variable is assigned `this` in the scope that declares it.
    fn is_assigned_to_this(symbol_id: SymbolId, ctx: &LintContext) -> (r: bool)
        requires
            ctx.scoping.symbols.has(symbol_id),
        ensures
            r == assigned_to_this_in_scope(symbol_id, *ctx),
    {
        let symbol = &ctx.scoping.symbols.symbols[symbol_id as usize];
        let mut i: usize = 0;
        while i < symbol.references.len()
            invariant
                i <= symbol.references@.len(),
                *symbol == ctx.scoping.symbols.symbols@[symbol_id as int],
                forall|k: int|
                    0 <= k < i ==> !use_assigns_this(
                        #[trigger] symbol.references@[k],
                        symbol_id,
                        *ctx,
                    ),
            decreases symbol.references@.len() - i,
        {
            let reference = symbol.references[i];
            if reference.is_write && reference.scope_id == symbol.scope_id {
                if let AstKind::AssignmentExpression(assignment) = ctx.parent_kind(
                    reference.node_id,
                ) {
                    if assignment.operator == AssignmentOperator::Assign
                        && assignment.right.denotes_this() {
                        proof {
                            assert(use_assigns_this(
                                symbol.references@[i as int],
                                symbol_id,
                                *ctx,
                            ));
                        }
                        return true;
                    }
                }
            }
            i += 1;
        }
        false
    }

    /// The report on a declared variable.
    pub fn check_declarator(&self, declarator: &VariableDeclarator, ctx: &LintContext) -> (r: Option<
        Diagnostic,
    >)
        requires
            is_bound(*declarator, *ctx),
        ensures
            optional_report(r) == declarator_report(self.aliases(), *declarator, *ctx),
    {
        let BindingPattern::Identifier(ident) = &declarator.id else {
            return None;
        };
        let name = ident.name.as_str();
        let is_alias = self.is_alias(name);
        if let Some(init) = &declarator.init {
            let is_this = init.denotes_this();
            if is_alias && !is_this {
                return Some(alias_not_assigned_to_this_diagnostic(declarator.span, name));
            } else if !is_alias && is_this {
                return Some(unexpected_alias_diagnostic(declarator.span, name));
            }
            return None;
        }
        if !is_alias || ConsistentThis::is_initialized_somewhere(ident.symbol_id, ctx) {
            return None;
        }
        if ConsistentThis::is_assigned_to_this(ident.symbol_id, ctx) {
            None
        } else {
            Some(alias_not_assigned_to_this_diagnostic(ident.span, name))
        }
    }

    /// The report on an assignment.
    pub fn check_assignment(&self, assignment: &AssignmentExpression) -> (r: Option<Diagnostic>)
        ensures
            optional_report(r) == assignment_report(self.aliases(), *assignment),
    {
        let AssignmentTarget::Identifier(target) = &assignment.left else {
            return None;
        };
        let name = target.name.as_str();
        let is_this = assignment.right.denotes_this();
        if self.is_alias(name) {
            if !is_this || assignment.operator != AssignmentOperator::Assign {
                return Some(alias_not_assigned_to_this_diagnostic(assignment.span, name));
            }
        } else if is_this {
            return Some(unexpected_alias_diagnostic(assignment.span, name));
        }
        None
    }

    /// The reports on a node.
    pub open spec fn spec_run(self, kind: AstKind, ctx: LintContext) -> Seq<Report> {
        let found = match kind {
            AstKind::VariableDeclarator(declarator) => declarator_report(
                self.aliases(),
                *declarator,
                ctx,
            ),
            AstKind::AssignmentExpression(assignment) => assignment_report(
                self.aliases(),
                *assignment,
            ),
            _ => None,
        };
        match found {
            Some(report) => seq![report],
            None => Seq::empty(),
        }
    }

    /// Runs the rule on a node.
    pub fn run(&self, node: NodeId, ctx: &LintContext) -> (r: Vec<Diagnostic>)
        requires
            ctx.spec_kind(node) matches AstKind::VariableDeclarator(declarator) ==> is_bound(
                *declarator,
                *ctx,
            ),
        ensures
            reports(r@) == self.spec_run(ctx.spec_kind(node), *ctx),
    {
        let found = match ctx.kind(node) {
            AstKind::VariableDeclarator(declarator) => self.check_declarator(declarator, ctx),
            AstKind::AssignmentExpression(assignment) => self.check_assignment(assignment),
            _ => None,
        };
        let mut r: Vec<Diagnostic> = Vec::new();
        if let Some(diagnostic) = found {
            r.push(diagnostic);
        }
        proof {
            assert(reports(r@) =~= self.spec_run(ctx.spec_kind(node), *ctx));
        }
        r
    }
}

/// A variable that is declared with a value is not reported exactly where it is an alias and the
/// value is `this`, or neither.
pub proof fn law_aliases_hold_this(
    aliases: Seq<Seq<char>>,
    declarator: VariableDeclarator,
    ctx: LintContext,
)
    requires
        declarator.id is Identifier,
        declarator.init is Some,
    ensures
        declarator_report(aliases, declarator, ctx) is None <==> aliases.contains(
            declarator.id->Identifier_0.name@,
        ) == declarator.init->0.is_this(),
{
}

/// A plain assignment to a variable is not reported exactly where the variable is an alias and the
/// value is `this`, or neither; any other assignment to an alias is reported.
pub proof fn law_aliases_are_assigned_this(
    aliases: Seq<Seq<char>>,
    assignment: AssignmentExpression,
)
    requires
        assignment.left is Identifier,
    ensures
        ({
            let is_alias = aliases.contains(assignment.left->Identifier_0.name@);
            &&& assignment.operator == AssignmentOperator::Assign ==> (assignment_report(
                aliases,
                assignment,
            ) is None <==> is_alias == assignment.right.is_this())
            &&& assignment.operator != AssignmentOperator::Assign && is_alias
                ==> assignment_report(aliases, assignment) is Some
        }),
{
}

/// There is always an alias to use.
pub proof fn law_some_alias_is_designated(value: ConfigValue)
    ensures
        configured_aliases(value).len() > 0,
{
}

/// The node round the identifier of a use is a plain assignment of `this`.
pub open spec fn stands_left_of_this(node_id: NodeId, nodes: Seq<AstNode>) -> bool {
    &&& node_id < nodes.len()
    &&& nodes[node_id as int].parent_id < nodes.len()
    &&& nodes[nodes[node_id as int].parent_id as int].kind matches AstKind::AssignmentExpression(a)
        && a.operator == AssignmentOperator::Assign && a.right.is_this()
}

/// An alias that is declared without a value is reported exactly if no declaration of it gives it
/// one, and none of all its uses, wherever in the list it comes, is a plain assignment of `this`
/// in the scope that declares it. No other variable without a value is reported.
pub proof fn law_an_alias_is_assigned_somewhere(
    aliases: Seq<Seq<char>>,
    declarator: VariableDeclarator,
    ctx: LintContext,
)
    requires
        declarator.init is None,
        declarator.id is Identifier,
    ensures
        ({
            let ident = declarator.id->Identifier_0;
            let symbol = ctx.scoping.symbols.symbols@[ident.symbol_id as int];
            let report = declarator_report(aliases, declarator, ctx);
            let is_reported = aliases.contains(ident.name@) && (forall|i: int|
                0 <= i < symbol.declarations@.len() ==> !((#[trigger] symbol.declarations@[i])
                    < ctx.nodes@.len() && (
                ctx.nodes@[symbol.declarations@[i] as int].kind matches AstKind::VariableDeclarator(
                    d,
                ) && d.init is Some))) && forall|i: int|
                0 <= i < symbol.references@.len() ==> !((#[trigger] symbol.references@[i]).is_write
                    && symbol.references@[i].scope_id == symbol.scope_id && stands_left_of_this(
                    symbol.references@[i].node_id,
                    ctx.nodes@,
                ));
            report == if is_reported {
                Some(not_this_report(ident.span, ident.name@))
            } else {
                None
            }
        }),
{
    let ident = declarator.id->Identifier_0;
    let symbol = ctx.scoping.symbols.symbols@[ident.symbol_id as int];
    assert forall|i: int| 0 <= i < symbol.references@.len() implies use_assigns_this(
        #[trigger] symbol.references@[i],
        ident.symbol_id,
        ctx,
    ) == (symbol.references@[i].is_write && symbol.references@[i].scope_id == symbol.scope_id
        && stands_left_of_this(symbol.references@[i].node_id, ctx.nodes@)) by {}
    assert forall|i: int| 0 <= i < symbol.declarations@.len() implies is_initialized(
        ctx.spec_kind(#[trigger] symbol.declarations@[i]),
    ) == (symbol.declarations@[i] < ctx.nodes@.len() && (
    ctx.nodes@[symbol.declarations@[i] as int].kind matches AstKind::VariableDeclarator(d)
        && d.init is Some)) by {}
}

/// One more use of a variable that is no plain assignment of `this` changes nothing, wherever it
/// comes among the others.
pub proof fn law_other_uses_change_nothing(
    aliases: Seq<Seq<char>>,
    declarator: VariableDeclarator,
    ctx: LintContext,
    more: LintContext,
    at: int,
)
    requires
        declarator.id is Identifier,
        more.nodes@ == ctx.nodes@,
        ({
            let id = declarator.id->Identifier_0.symbol_id as int;
            let before = ctx.scoping.symbols.symbols@[id];
            let after = more.scoping.symbols.symbols@[id];
            &&& 0 <= at < after.references@.len()
            &&& after.scope_id == before.scope_id
            &&& after.declarations@ == before.declarations@
            &&& after.references@.remove(at) == before.references@
            &&& !after.references@[at].is_write || after.references@[at].scope_id != after.scope_id
                || !stands_left_of_this(after.references@[at].node_id, ctx.nodes@)
        }),
    ensures
        declarator_report(aliases, declarator, more) == declarator_report(aliases, declarator, ctx),
{
    let symbol_id = declarator.id->Identifier_0.symbol_id;
    let before = ctx.scoping.symbols.symbols@[symbol_id as int];
    let after = more.scoping.symbols.symbols@[symbol_id as int];
    assert(forall|n: NodeId| #[trigger] more.spec_kind(n) == ctx.spec_kind(n));
    assert(forall|n: NodeId| #[trigger] more.spec_parent_kind(n) == ctx.spec_parent_kind(n));
    assert(has_initialized_declaration(symbol_id, more) == has_initialized_declaration(
        symbol_id,
        ctx,
    )) by {
        if has_initialized_declaration(symbol_id, more) {
            let i = choose|i: int|
                0 <= i < after.declarations@.len() && is_initialized(
                    more.spec_kind(#[trigger] after.declarations@[i]),
                );
            assert(is_initialized(ctx.spec_kind(before.declarations@[i])));
        }
        if has_initialized_declaration(symbol_id, ctx) {
            let i = choose|i: int|
                0 <= i < before.declarations@.len() && is_initialized(
                    ctx.spec_kind(#[trigger] before.declarations@[i]),
                );
            assert(is_initialized(more.spec_kind(after.declarations@[i])));
        }
    }
    if assigned_to_this_in_scope(symbol_id, more) {
        let i = choose|i: int|
            0 <= i < after.references@.len() && use_assigns_this(
                #[trigger] after.references@[i],
                symbol_id,
                more,
            );
        assert(i != at);
        let j = if i < at {
            i
        } else {
            i - 1
        };
        assert(after.references@.remove(at)[j] == after.references@[i]);
        assert(use_assigns_this(before.references@[j], symbol_id, ctx));
    }
    if assigned_to_this_in_scope(symbol_id, ctx) {
        let j = choose|j: int|
            0 <= j < before.references@.len() && use_assigns_this(
                #[trigger] before.references@[j],
                symbol_id,
                ctx,
            );
        let i = if j < at {
            j
        } else {
            j + 1
        };
        assert(after.references@.remove(at)[j] == after.references@[i]);
        assert(use_assigns_this(after.references@[i], symbol_id, more));
    }
}

/// What is reported of an assignment to a variable: an alias that is assigned anything but `this`,
/// or assigned in another way; and a variable that is no alias and is assigned `this`, in
/// whatever way. Nothing else that is assigned is looked at.
pub proof fn law_assignments_are_reported_by_name(
    aliases: Seq<Seq<char>>,
    assignment: AssignmentExpression,
)
    ensures
        assignment.left matches AssignmentTarget::Identifier(target) ==> {
            let named = exists|i: int| 0 <= i < aliases.len() && #[trigger] aliases[i] == target.name@;
            let plain = assignment.operator == AssignmentOperator::Assign;
            let report = assignment_report(aliases, assignment);
            &&& named && !(assignment.right.is_this() && plain) ==> report == Some(
                not_this_report(assignment.span, target.name@),
            )
            &&& named && assignment.right.is_this() && plain ==> report is None
            &&& !named && assignment.right.is_this() ==> report == Some(
                unexpected_report(assignment.span, target.name@),
            )
            &&& !named && !assignment.right.is_this() ==> report is None
        },
        !(assignment.left is Identifier) ==> assignment_report(aliases, assignment) is None,
{
}

/// What is reported of a variable that is declared with a value: an alias whose value is not `this`,
/// and a variable whose value is `this` and that is no alias. A pattern is not looked at.
pub proof fn law_declarations_are_reported_by_name(
    aliases: Seq<Seq<char>>,
    declarator: VariableDeclarator,
    ctx: LintContext,
)
    ensures
        declarator.id matches BindingPattern::Identifier(ident) ==> (
        declarator.init matches Some(init) ==> {
            let named = exists|i: int| 0 <= i < aliases.len() && #[trigger] aliases[i] == ident.name@;
            let report = declarator_report(aliases, declarator, ctx);
            &&& named && !init.is_this() ==> report == Some(
                not_this_report(declarator.span, ident.name@),
            )
            &&& !named && init.is_this() ==> report == Some(
                unexpected_report(declarator.span, ident.name@),
            )
            &&& named == init.is_this() ==> report is None
        }),
        !(declarator.id is Identifier) ==> declarator_report(aliases, declarator, ctx) is None,
{
}

/// Declarations and assignments are looked at, each by itself, and no other nodes.
pub proof fn law_declarations_and_assignments_are_looked_at(
    rule: ConsistentThis,
    declarator: VariableDeclarator,
    assignment: AssignmentExpression,
    kind: AstKind,
    ctx: LintContext,
    report: Report,
)
    ensures
        rule.spec_run(AstKind::VariableDeclarator(&declarator), ctx).contains(report)
            <==> declarator_report(rule.aliases(), declarator, ctx) == Some(report),
        rule.spec_run(AstKind::AssignmentExpression(&assignment), ctx).contains(report)
            <==> assignment_report(rule.aliases(), assignment) == Some(report),
        !(kind is VariableDeclarator) && !(kind is AssignmentExpression) ==> rule.spec_run(
            kind,
            ctx,
        ).len() == 0,
        rule.spec_run(kind, ctx).len() <= 1,
{
    let found = declarator_report(rule.aliases(), declarator, ctx);
    if found is Some {
        assert(seq![found->0][0] == found->0);
    }
    let found = assignment_report(rule.aliases(), assignment);
    if found is Some {
        assert(seq![found->0][0] == found->0);
    }
}

/// The texts of a list are the aliases, all of them and in their order, and nothing else is; where
/// there is none, `that` is the one alias.
pub proof fn law_texts_are_aliases(items: Vec<ConfigValue>, name: Seq<char>)
    ensures
        ({
            let aliases = configured_aliases(ConfigValue::Array(items));
            let some = exists|i: int| 0 <= i < items@.len() && #[trigger] items@[i] is Text;
            &&& some ==> (aliases.contains(name) <==> exists|i: int|
                0 <= i < items@.len() && (#[trigger] items@[i] matches ConfigValue::Text(text)
                    && text@ == name))
            &&& !some ==> aliases == seq!["that"@]
        }),
        configured_aliases(ConfigValue::Other) == seq!["that"@],
{
    lemma_texts(items@, name);
}

proof fn lemma_texts(items: Seq<ConfigValue>, name: Seq<char>)
    ensures
        texts_among(items).contains(name) <==> exists|i: int|
            0 <= i < items.len() && (#[trigger] items[i] matches ConfigValue::Text(text) && text@
                == name),
        texts_among(items).len() > 0 <==> exists|i: int|
            0 <= i < items.len() && #[trigger] items[i] is Text,
    decreases items.len(),
{
    if items.len() > 0 {
        let rest = items.drop_last();
        let before = texts_among(rest);
        lemma_texts(rest, name);
        assert(forall|i: int| 0 <= i < rest.len() ==> #[trigger] rest[i] == items[i]);
        assert(items[items.len() - 1] == items.last());
        if let ConfigValue::Text(text) = items.last() {
            let all = before.push(text@);
            assert(all[before.len() as int] == text@);
            if before.contains(name) {
                let i = choose|i: int| 0 <= i < before.len() && before[i] == name;
                assert(all[i] == name);
            }
            if all.contains(name) && text@ != name {
                let i = choose|i: int| 0 <= i < all.len() && all[i] == name;
                assert(before[i] == name);
            }
        }
        if before.contains(name) {
            let i = choose|i: int|
                0 <= i < rest.len() && (#[trigger] rest[i] matches ConfigValue::Text(text) && text@
                    == name);
            assert(items[i] == rest[i]);
        }
        if before.len() > 0 {
            let i = choose|i: int| 0 <= i < rest.len() && #[trigger] rest[i] is Text;
            assert(items[i] is Text);
        }
        if exists|i: int|
            0 <= i < items.len() && (#[trigger] items[i] matches ConfigValue::Text(text) && text@
                == name) {
            let i = choose|i: int|
                0 <= i < items.len() && (#[trigger] items[i] matches ConfigValue::Text(text) && text@
                    == name);
            if i < rest.len() {
                assert(rest[i] == items[i]);
            }
        }
        if exists|i: int| 0 <= i < items.len() && #[trigger] items[i] is Text {
            let i = choose|i: int| 0 <= i < items.len() && #[trigger] items[i] is Text;
            if i < rest.len() {
                assert(rest[i] is Text);
            }
        }
    }
}

/// A report stands at the alias and names it: two are the same only where both are, and one on an
/// alias that is not assigned is none on a name that is no alias.
pub proof fn law_reports_name_the_alias(
    span: Span,
    name: Seq<char>,
    other_span: Span,
    other: Seq<char>,
)
    ensures
        not_this_report(span, name) == not_this_report(other_span, other) <==> span == other_span
            && name == other,
        unexpected_report(span, name) == unexpected_report(other_span, other) <==> span
            == other_span && name == other,
        not_this_report(span, name) != unexpected_report(other_span, other),
        not_this_report(span, name).span == span,
        unexpected_report(span, name).span == span,
{
    let designated = "Designated alias '"@;
    let unexpected = "Unexpected alias '"@;
    if not_this_report(span, name) == not_this_report(other_span, other) {
        lemma_between(designated, name, other, "' is not assigned to 'this'."@);
    }
    if unexpected_report(span, name) == unexpected_report(other_span, other) {
        lemma_between(unexpected, name, other, "' for 'this'."@);
    }
    reveal_strlit("Designated alias '");
    reveal_strlit("Unexpected alias '");
    assert(not_this_report(span, name).message[0] == 'D');
    assert(unexpected_report(other_span, other).message[0] == 'U');
}

} // verus!

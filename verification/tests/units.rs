//! The pieces one by one.

use oxc_passes::ast::{
    Accessibility, AssignmentExpression, AssignmentOperator, AssignmentTarget, BindingIdentifier,
    BindingPattern, Expression, IdentifierReference, Span, VariableDeclarator,
};
use oxc_passes::consistent_this::{ConfigValue, ConsistentThis};
use oxc_passes::env::ESLintEnv;
use oxc_passes::lint::LintContext;
use oxc_passes::member_ordering::MemberOrdering;
use oxc_passes::member_ordering::collation::natural_out_of_order;
use oxc_passes::member_ordering::config::{
    MemberOrderingOptions, MemberTypeGroup, MemberTypeName, Never, NormalizedOrderConfig,
    OptionalityOrder, Order, OrderConfig, SortedOrderConfig, default_member_types, default_member_types_static,
};
use oxc_passes::member_ordering::checks::{check_required_order, get_lowest_rank};
use oxc_passes::member_ordering::members::{MemberInfo, accessibility_name, member_candidates};
use oxc_passes::member_ordering::names::all_member_types;
use oxc_passes::prefresh::hash::{base36_string, encode_digest, hash_base36, hash_signature};
use oxc_passes::prefresh::resolver::RefreshIdentifierResolver;
use oxc_passes::prefresh::signatures::{is_builtin_hook, is_use_hook_name};
use oxc_passes::prefresh::{Prefresh, PrefreshOptions};
use oxc_passes::semantic::{
    Scope, ScopeFlags, ScopeTree, Scoping, Symbol, SymbolFlags, SymbolTable, find_binding,
};
use oxc_passes::signals::names::{
    has_comment_directive, is_component_name, is_custom_hook_name, line_number_for_span,
};
use oxc_passes::signals::{ReactSignals, ReactSignalsMode, ReactSignalsOptions};
use oxc_passes::text::{decimal_string, slice, starts_with, str_before, str_eq};
use oxc_passes::traverse::{Ancestor, AncestorNode, AncestorType, FinderRet, TraverseCtx};
use oxc_passes::uid::find_uid;

// Environments.

#[test]
fn test_parse_env() {
    let env = ESLintEnv::from_entries(vec![
        ("browser".to_string(), true),
        ("node".to_string(), true),
        ("es6".to_string(), false),
    ]);
    assert_eq!(env.iter().len(), 2);
    assert!(env.iter().contains(&"browser"));
    assert!(env.iter().contains(&"node"));
    assert!(!env.iter().contains(&"es6"));
    assert!(!env.iter().contains(&"builtin"));
}

#[test]
fn test_parse_env_default() {
    let env = ESLintEnv::default();
    assert_eq!(env.iter().len(), 1);
    assert!(env.iter().contains(&"builtin"));
}

#[test]
fn listed_environments_are_on_once() {
    let env = ESLintEnv::from_vec(vec!["node".to_string(), "es6".to_string(), "node".to_string()]);
    let mut names = env.iter();
    names.sort();
    assert_eq!(names, ["es6", "node"]);
    assert!(ESLintEnv::from_vec(Vec::new()).iter().is_empty());
}

#[test]
fn the_last_entry_of_an_environment_counts() {
    let entry = |on| ("node".to_string(), on);
    assert!(ESLintEnv::from_entries(vec![entry(true), entry(false)]).iter().is_empty());
    assert_eq!(ESLintEnv::from_entries(vec![entry(false), entry(true)]).iter(), ["node"]);
}

// Names of `this`.

#[test]
fn aliases_come_from_the_configuration() {
    let text = |name: &str| ConfigValue::Text(name.to_string());
    let rule = ConsistentThis::from_configuration(&ConfigValue::Array(vec![
        text("self"),
        ConfigValue::Other,
        text("vm"),
        ConfigValue::Array(vec![text("no")]),
    ]));
    assert_eq!(rule.0.aliases, ["self", "vm"]);
    assert!(rule.is_alias("vm"));
    assert!(!rule.is_alias("no"));
    assert!(!rule.is_alias("that"));
    for value in [ConfigValue::Other, text("self"), ConfigValue::Array(vec![ConfigValue::Other])] {
        assert_eq!(ConsistentThis::from_configuration(&value).0.aliases, ["that"]);
    }
    assert_eq!(ConsistentThis::default().0.aliases, ["that"]);
}

#[test]
fn declarations_and_assignments_are_checked() {
    let scoping = Scoping {
        scopes: ScopeTree { scopes: vec![Scope { parent_id: None, flags: ScopeFlags::block() }] },
        symbols: SymbolTable {
            symbols: vec![Symbol {
                name: "that".to_string(),
                flags: SymbolFlags::function_scoped_variable(),
                scope_id: 0,
                declarations: Vec::new(),
                references: Vec::new(),
            }],
        },
    };
    let ctx = LintContext { scoping: &scoping, nodes: Vec::new(), globals: Vec::new() };
    let span = Span { start: 3, end: 9 };
    let that = BindingIdentifier { span, name: "that".to_string(), symbol_id: 0 };
    let declarator =
        VariableDeclarator { span, id: BindingPattern::Identifier(that), init: None };
    let rule = ConsistentThis::default();
    assert!(rule.check_declarator(&declarator, &ctx).is_some());
    let target = IdentifierReference {
        span,
        name: "that".to_string(),
        symbol_id: Some(0),
        is_read: false,
        is_write: true,
    };
    let assignment = AssignmentExpression {
        span,
        operator: AssignmentOperator::Assign,
        left: AssignmentTarget::Identifier(target),
        right: Expression::This(span),
    };
    assert!(rule.check_assignment(&assignment).is_none());
    let compound = AssignmentExpression { operator: AssignmentOperator::Compound, ..assignment };
    assert_eq!(rule.check_assignment(&compound).unwrap().span, span);
}

// The order of members.

#[test]
fn the_default_order_is_complete() {
    let expected = [
        "signature",
        "call-signature",
        "public-static-field",
        "protected-static-field",
        "private-static-field",
        "#private-static-field",
        "public-decorated-field",
        "protected-decorated-field",
        "private-decorated-field",
        "public-instance-field",
        "protected-instance-field",
        "private-instance-field",
        "#private-instance-field",
        "public-abstract-field",
        "protected-abstract-field",
        "public-field",
        "protected-field",
        "private-field",
        "#private-field",
        "static-field",
        "instance-field",
        "abstract-field",
        "decorated-field",
        "field",
        "static-initialization",
        "public-constructor",
        "protected-constructor",
        "private-constructor",
        "constructor",
        "public-static-accessor",
        "protected-static-accessor",
        "private-static-accessor",
        "#private-static-accessor",
        "public-decorated-accessor",
        "protected-decorated-accessor",
        "private-decorated-accessor",
        "public-instance-accessor",
        "protected-instance-accessor",
        "private-instance-accessor",
        "#private-instance-accessor",
        "public-abstract-accessor",
        "protected-abstract-accessor",
        "public-accessor",
        "protected-accessor",
        "private-accessor",
        "#private-accessor",
        "static-accessor",
        "instance-accessor",
        "abstract-accessor",
        "decorated-accessor",
        "accessor",
        "public-static-get",
        "protected-static-get",
        "private-static-get",
        "#private-static-get",
        "public-decorated-get",
        "protected-decorated-get",
        "private-decorated-get",
        "public-instance-get",
        "protected-instance-get",
        "private-instance-get",
        "#private-instance-get",
        "public-abstract-get",
        "protected-abstract-get",
        "public-get",
        "protected-get",
        "private-get",
        "#private-get",
        "static-get",
        "instance-get",
        "abstract-get",
        "decorated-get",
        "get",
        "public-static-set",
        "protected-static-set",
        "private-static-set",
        "#private-static-set",
        "public-decorated-set",
        "protected-decorated-set",
        "private-decorated-set",
        "public-instance-set",
        "protected-instance-set",
        "private-instance-set",
        "#private-instance-set",
        "public-abstract-set",
        "protected-abstract-set",
        "public-set",
        "protected-set",
        "private-set",
        "#private-set",
        "static-set",
        "instance-set",
        "abstract-set",
        "decorated-set",
        "set",
        "public-static-method",
        "protected-static-method",
        "private-static-method",
        "#private-static-method",
        "public-decorated-method",
        "protected-decorated-method",
        "private-decorated-method",
        "public-instance-method",
        "protected-instance-method",
        "private-instance-method",
        "#private-instance-method",
        "public-abstract-method",
        "protected-abstract-method",
        "public-method",
        "protected-method",
        "private-method",
        "#private-method",
        "static-method",
        "instance-method",
        "abstract-method",
        "decorated-method",
        "method",
    ];
    let names = |groups: Vec<MemberTypeGroup>| -> Vec<String> {
        groups
            .iter()
            .map(|group| match group {
                MemberTypeGroup::Single(name) => name.as_str().to_string(),
                MemberTypeGroup::Group(_) => panic!("a group"),
            })
            .collect()
    };
    assert_eq!(names(default_member_types()), expected);
    assert_eq!(names(default_member_types_static()), expected);
    for name in expected {
        assert!(MemberTypeName::parse(name.to_string()).is_ok(), "{name}");
    }
}

#[test]
fn only_known_types_have_names() {
    for known in [
        "readonly-signature",
        "call-signature",
        "public-readonly-field",
        "public-decorated-readonly-field",
        "decorated-method",
        "#private-static-get",
        "private-constructor",
        "abstract-static-initialization",
        "protected-abstract-accessor",
    ] {
        assert_eq!(MemberTypeName::parse(known.to_string()).unwrap().as_str(), known);
        assert!(all_member_types().contains(known));
    }
    for unknown in [
        "",
        "fields",
        "public-signature",
        "#private-constructor",
        "#private-decorated-field",
        "private-abstract-field",
        "static-constructor",
        "decorated-constructor",
        "public-call-signature",
    ] {
        assert_eq!(
            MemberTypeName::parse(unknown.to_string()).unwrap_err(),
            format!("unknown member type `{unknown}`")
        );
    }
}

#[test]
fn groups_hold_and_show_their_types() {
    let name = |text: &str| MemberTypeName::parse(text.to_string()).unwrap();
    let single = MemberTypeGroup::Single(name("public-static-field"));
    assert!(single.contains("public-static-field"));
    assert!(!single.contains("field"));
    assert_eq!(single.display(), "public static field");
    let group = MemberTypeGroup::Group(vec![name("get"), name("decorated-set")]);
    assert!(group.contains("decorated-set"));
    assert!(!group.contains("set"));
    assert_eq!(group.display(), "get, decorated set");
    assert_eq!(MemberTypeGroup::Group(Vec::new()).display(), "");
    assert_eq!(name("#private-instance-method").display(), "#private instance method");
}

#[test]
fn the_lowest_later_rank_is_shown() {
    let order = default_member_types();
    assert_eq!(get_lowest_rank(&[1, 24, 28], 2, &order), "static initialization");
    assert_eq!(get_lowest_rank(&[1, 24, 28], 0, &order), "call signature");
    assert_eq!(get_lowest_rank(&[], 28, &order), "constructor");
    assert_eq!(get_lowest_rank(&[0], 23, &order), "signature");
}

#[test]
fn orders_are_normalized() {
    assert!(NormalizedOrderConfig::new(&OrderConfig::Never(Never::Never)).is_none());
    let config = OrderConfig::Sorted(SortedOrderConfig::default());
    let normalized = NormalizedOrderConfig::new(&config).unwrap();
    let types = normalized.member_types.as_ref().unwrap();
    assert_eq!(types.as_slice().len(), default_member_types().len());
    assert!(normalized.optionality_order.is_none());
    assert_eq!(normalized.order, Order::AsWritten);
    let config = OrderConfig::MemberTypes(Vec::new());
    let normalized = NormalizedOrderConfig::new(&config).unwrap();
    assert!(normalized.member_types.as_ref().unwrap().as_slice().is_empty());
    assert!(!Order::AsWritten.is_sorted());
    assert!(Order::Natural.is_sorted());
    assert_eq!(Order::default(), Order::AsWritten);
    let options = MemberOrderingOptions::default();
    assert!(options.classes.is_none() && options.interfaces.is_none());
    let rule = MemberOrdering::default();
    assert!(matches!(rule.0.default, OrderConfig::Sorted(_)));
    assert!(rule.should_run(true));
    assert!(!rule.should_run(false));
}

#[test]
fn members_are_of_many_types() {
    assert_eq!(
        member_candidates("readonly-field", None, false, true, false, true),
        [
            "public-decorated-readonly-field",
            "decorated-readonly-field",
            "public-decorated-field",
            "decorated-field",
            "public-static-readonly-field",
            "static-readonly-field",
            "public-static-field",
            "static-field",
            "public-readonly-field",
            "public-field",
            "readonly-field",
            "field",
        ]
    );
    assert_eq!(
        member_candidates("constructor", Some(Accessibility::Protected), false, false, false, true),
        ["protected-constructor", "constructor"]
    );
    assert_eq!(
        member_candidates("get", Some(Accessibility::Private), true, false, true, false),
        ["#private-abstract-get", "abstract-get", "#private-get", "get"]
    );
    assert_eq!(
        member_candidates("readonly-signature", None, false, false, false, false),
        ["readonly-signature", "signature"]
    );
    assert_eq!(accessibility_name(Some(Accessibility::Public), false), "public");
    assert_eq!(accessibility_name(Some(Accessibility::Private), false), "private");
}

#[test]
fn names_are_placed_in_each_order() {
    assert!(natural_out_of_order("a", "b", Order::Alphabetically));
    assert!(!natural_out_of_order("b", "a", Order::Alphabetically));
    assert!(natural_out_of_order("B", "a", Order::Alphabetically));
    assert!(!natural_out_of_order("B", "a", Order::AlphabeticallyCaseInsensitive));
    assert!(!natural_out_of_order("a", "b", Order::AsWritten));
    assert!(natural_out_of_order("a9", "a10", Order::Natural));
    assert!(!natural_out_of_order("a10", "a9", Order::Natural));
    assert!(!natural_out_of_order("a9", "a9", Order::Natural));
    assert!(natural_out_of_order("A", "a", Order::NaturalCaseInsensitive));
    assert!(!natural_out_of_order("\u{c4}", "\u{e4}", Order::AlphabeticallyCaseInsensitive));
    assert!(natural_out_of_order("\u{c4}", "\u{e4}", Order::Alphabetically));
}

// Hashes.

#[test]
fn signatures_are_hashed_by_sha1_and_base64() {
    assert_eq!(hash_signature("abc"), "qZk+NkcGgWq6PiVxeFDCbJzQ2J0=");
    assert_eq!(hash_signature(""), "2jmj7l5rSw0yVb/vlWAYkK/YBwk=");
    assert_eq!(encode_digest(&[0; 20]), "AAAAAAAAAAAAAAAAAAAAAAAAAAA=");
    assert_eq!(encode_digest(&[255; 20]), "//////////////////////////8=");
}

#[test]
fn names_are_hashed_from_the_end() {
    assert_eq!(hash_base36(""), "45h");
    assert_eq!(hash_base36("a"), "3t1g");
    assert_ne!(hash_base36("ab"), hash_base36("ba"));
    assert_eq!(base36_string(0), "0");
    assert_eq!(base36_string(35), "z");
    assert_eq!(base36_string(36), "10");
    assert_eq!(base36_string(4294967295), "1z141z3");
}

// Hooks and components.

#[test]
fn hooks_are_told_by_their_names() {
    assert!(is_use_hook_name("use"));
    assert!(is_use_hook_name("useState"));
    assert!(!is_use_hook_name("user"));
    assert!(!is_use_hook_name("us"));
    assert!(is_builtin_hook("useSignal"));
    assert!(!is_builtin_hook("useStore"));
    assert!(is_custom_hook_name("useThing"));
    assert!(!is_custom_hook_name("use"));
    assert!(!is_custom_hook_name("useless"));
    assert!(is_component_name("App"));
    assert!(!is_component_name("app"));
    assert!(!is_component_name(""));
}

#[test]
fn runtime_functions_are_resolved() {
    let parse = RefreshIdentifierResolver::parse;
    assert!(matches!(parse("$RefreshReg$"), RefreshIdentifierResolver::Identifier(name) if name == "$RefreshReg$"));
    assert!(matches!(
        parse("window.reg.more"),
        RefreshIdentifierResolver::Member(object, property) if object == "window" && property == "reg"
    ));
    assert!(matches!(
        parse("import.meta"),
        RefreshIdentifierResolver::Import(meta, None) if meta == "meta"
    ));
    assert!(matches!(
        parse("import.meta.reg.more"),
        RefreshIdentifierResolver::Import(meta, Some(property)) if meta == "meta" && property == "reg"
    ));
}

#[test]
fn transforms_start_out_empty() {
    let refresh = Prefresh::new(&PrefreshOptions::default());
    assert!(refresh.registrations.list.is_empty());
    assert!(refresh.last_signature.is_none());
    assert!(!refresh.emit_full_signatures);
    assert!(refresh.used_in_jsx_bindings.is_empty());
    let signals = ReactSignals::new(&ReactSignalsOptions::default());
    assert_eq!(signals.import_source, "@preact/signals-react/runtime");
    assert_eq!(signals.mode, ReactSignalsMode::Auto);
    assert!(signals.function_metadata.is_empty());
}

#[test]
fn directives_are_words_of_comments() {
    assert!(has_comment_directive(" @useSignals ", "@useSignals"));
    assert!(has_comment_directive("* some\n\t@useSignals", "@useSignals"));
    assert!(!has_comment_directive(" @useSignalsToo ", "@useSignals"));
    assert!(!has_comment_directive("", "@useSignals"));
}

#[test]
fn lines_are_counted_from_one() {
    let source = "a\nb\nc";
    let at = |start| line_number_for_span(Span { start, end: 5 }, source);
    assert_eq!(at(0), Some(1));
    assert_eq!(at(1), Some(1));
    assert_eq!(at(2), Some(2));
    assert_eq!(at(4), Some(3));
}

// Names that are not used yet.

#[test]
fn new_names_are_not_used() {
    assert_eq!(find_uid("c", &vec![]), "_c");
    assert_eq!(find_uid("c", &vec!["_c"]), "_c2");
    assert_eq!(find_uid("c", &vec!["_c3", "_c", "_c2"]), "_c4");
}

// Scopes.

fn scopes() -> ScopeTree {
    let mut tree =
        ScopeTree { scopes: vec![Scope { parent_id: None, flags: ScopeFlags::block() }] };
    tree.add_scope(0, ScopeFlags::function());
    tree.add_scope(1, ScopeFlags::block());
    tree
}

fn symbols() -> SymbolTable {
    let symbol = |name: &str, scope_id| Symbol {
        name: name.to_string(),
        flags: SymbolFlags::function_scoped_variable(),
        scope_id,
        declarations: Vec::new(),
        references: Vec::new(),
    };
    SymbolTable { symbols: vec![symbol("a", 0), symbol("b", 0), symbol("a", 1)] }
}

#[test]
fn the_innermost_declaration_counts() {
    let (scopes, symbols) = (scopes(), symbols());
    assert_eq!(find_binding(&scopes, &symbols, 2, "a"), Some(2));
    assert_eq!(find_binding(&scopes, &symbols, 0, "a"), Some(0));
    assert_eq!(find_binding(&scopes, &symbols, 2, "b"), Some(1));
    assert_eq!(find_binding(&scopes, &symbols, 2, "c"), None);
}

#[test]
fn searches_go_from_the_inside_out() {
    let mut ctx = TraverseCtx::new(scopes(), symbols());
    assert_eq!(ctx.ancestors_depth(), 1);
    assert_eq!(ctx.parent().ty, AncestorType::Nothing);
    ctx.push_stack(Ancestor { ty: AncestorType::ProgramBody, node: AncestorNode::Program });
    ctx.push_stack(Ancestor { ty: AncestorType::Other, node: AncestorNode::Other });
    ctx.retag_stack(AncestorType::FunctionBody);
    assert_eq!(ctx.ancestors_depth(), 3);
    assert_eq!(ctx.parent().ty, AncestorType::FunctionBody);
    assert_eq!(ctx.ancestor(1).unwrap().ty, AncestorType::FunctionBody);
    assert_eq!(ctx.ancestor(2).unwrap().ty, AncestorType::ProgramBody);
    assert!(ctx.ancestor(0).is_none());
    assert!(ctx.ancestor(4).is_none());
    let found = ctx.find_ancestor(|ancestor| match ancestor.node {
        AncestorNode::Program => FinderRet::Found(ancestor.ty),
        _ => FinderRet::Continue,
    });
    assert_eq!(found, Some(AncestorType::ProgramBody));
    let stopped = ctx.find_ancestor(|_| FinderRet::<u32>::Stop);
    assert_eq!(stopped, None);
    let none = ctx.find_ancestor(|_| FinderRet::<u32>::Continue);
    assert_eq!(none, None);
    ctx.pop_stack();
    assert_eq!(ctx.parent().ty, AncestorType::ProgramBody);

    ctx.set_current_scope_id(2);
    assert_eq!(ctx.current_scope_id(), 2);
    let mut seen = Vec::new();
    for scope in [2, 1, 0] {
        let found = ctx.find_scope(|id| {
            if id == scope { FinderRet::Found(id) } else { FinderRet::Continue }
        });
        seen.push(found);
    }
    assert_eq!(seen, [Some(2), Some(1), Some(0)]);
    let function = ctx.find_scope_by_flags(|flags| {
        if flags.is_function { FinderRet::Found(flags) } else { FinderRet::Continue }
    });
    assert_eq!(function, Some(ScopeFlags::function()));
    let beyond = ctx.find_scope(|id| if id == 1 { FinderRet::Stop } else { FinderRet::<u32>::Continue });
    assert_eq!(beyond, None);
    let scope_count = ctx.scopes().scopes.len();
    ctx.scopes_mut().add_scope(0, ScopeFlags::block());
    assert_eq!(ctx.scopes().scopes.len(), scope_count + 1);
    ctx.symbols_mut().symbols.clear();
    assert!(ctx.symbols().symbols.is_empty());
    assert_eq!(*ctx.alloc_node(7), 7);
}

// Texts.

#[test]
fn texts_are_held_against_each_other() {
    assert!(str_eq("\u{e4}b", "\u{e4}b"));
    assert!(!str_eq("a", "ab"));
    assert!(str_before("", "a"));
    assert!(str_before("Z", "a"));
    assert!(str_before("z", "\u{e4}"));
    assert!(!str_before("a", "a"));
    assert!(starts_with("useState", "use"));
    assert!(!starts_with("us", "use"));
    assert_eq!(slice("a\u{e4}b", 1, 3), "\u{e4}");
    assert_eq!(decimal_string(4294967295), "4294967295");
    assert_eq!(decimal_string(0), "0");
}

#[test]
fn optionality_is_checked_from_where_it_switches() {
    let member = |name, optional| MemberInfo {
        span: Span { start: 1, end: 2 },
        name: Some(name),
        optional,
        candidates: Vec::new(),
        ignored_for_rank: false,
    };
    let members = [member("a", false), member("b", true), member("c", false)];
    let mut out = Vec::new();
    for index in [2, 3, usize::MAX] {
        assert!(check_required_order(&members, index, OptionalityOrder::RequiredFirst, &mut out));
    }
    assert!(out.is_empty());
    assert!(!check_required_order(&members, 1, OptionalityOrder::RequiredFirst, &mut out));
    assert_eq!(out.len(), 1);
    assert!(out[0].message.contains("b should"), "{}", out[0].message);
    assert!(!check_required_order(&members, 3, OptionalityOrder::OptionalFirst, &mut out));
    assert!(out[1].message.contains("a should"), "{}", out[1].message);
}

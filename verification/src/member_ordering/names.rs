//! The names of the member types.

use crate::fx::{lemma_empty_strings, string_set, string_set_contains, string_set_insert};
use crate::text::{concat3, str_eq, texts, views};
use rustc_hash::FxHashSet;
use vstd::prelude::*;

verus! {

/// Two words with a dash between them.
pub open spec fn dashed(a: Seq<char>, b: Seq<char>) -> Seq<char> {
    a + "-"@ + b
}

/// Two words with a dash between them.
pub fn dash(a: &str, b: &str) -> (r: String)
    ensures
        r@ == dashed(a@, b@),
{
    concat3(a, "-", b)
}

/// The kinds of members.
pub open spec fn kinds() -> Seq<Seq<char>> {
    seq![
        "readonly-signature"@,
        "signature"@,
        "readonly-field"@,
        "field"@,
        "method"@,
        "call-signature"@,
        "constructor"@,
        "accessor"@,
        "get"@,
        "set"@,
        "static-initialization"@,
    ]
}

/// How far a member can be seen.
pub open spec fn accessibilities() -> Seq<Seq<char>> {
    seq!["public"@, "protected"@, "private"@, "#private"@]
}

/// What a member can belong to, given how far it can be seen.
pub open spec fn scopes(accessibility: Seq<char>) -> Seq<Seq<char>> {
    if accessibility == "#private"@ || accessibility == "private"@ {
        seq!["static"@, "instance"@]
    } else {
        seq!["static"@, "instance"@, "abstract"@]
    }
}

/// The kinds that say how far a member can be seen.
pub open spec fn has_accessibility(kind: Seq<char>, accessibility: Seq<char>) -> bool {
    &&& kind != "readonly-signature"@
    &&& kind != "signature"@
    &&& kind != "static-initialization"@
    &&& kind != "call-signature"@
    &&& !(kind == "constructor"@ && accessibility == "#private"@)
}

/// The kinds of members that can be decorated.
pub open spec fn can_be_decorated(kind: Seq<char>) -> bool {
    kind == "readonly-field"@ || kind == "field"@ || kind == "method"@ || kind == "accessor"@
        || kind == "get"@ || kind == "set"@
}

/// The kinds of members that say what they belong to.
pub open spec fn has_scope(kind: Seq<char>) -> bool {
    kind != "constructor"@ && kind != "readonly-signature"@ && kind != "signature"@ && kind
        != "call-signature"@
}

/// A kind of members that belong to something of the class.
pub open spec fn names_scoped(
    name: Seq<char>,
    kind: Seq<char>,
    accessibility: Seq<char>,
    scope: Seq<char>,
) -> bool {
    name == dashed(scope, kind) || name == dashed(dashed(accessibility, scope), kind)
}

/// A kind of members that can be seen so far, with what else is told of them.
pub open spec fn names_accessible(
    name: Seq<char>,
    kind: Seq<char>,
    accessibility: Seq<char>,
) -> bool {
    ||| has_accessibility(kind, accessibility) && name == dashed(accessibility, kind)
    ||| accessibility != "#private"@ && can_be_decorated(kind) && (name == dashed(
        dashed(accessibility, "decorated"@),
        kind,
    ) || name == dashed("decorated"@, kind))
    ||| has_scope(kind) && exists|k: int|
        0 <= k < scopes(accessibility).len() && names_scoped(
            name,
            kind,
            accessibility,
            #[trigger] scopes(accessibility)[k],
        )
}

/// A kind of members, with what else is told of them.
pub open spec fn names_kind(name: Seq<char>, kind: Seq<char>) -> bool {
    name == kind || exists|j: int|
        0 <= j < accessibilities().len() && names_accessible(
            name,
            kind,
            #[trigger] accessibilities()[j],
        )
}

/// The name of a type of members.
pub open spec fn is_member_type(name: Seq<char>) -> bool {
    exists|i: int| 0 <= i < kinds().len() && names_kind(name, #[trigger] kinds()[i])
}

/// What can be told of a member before its kind, in the order that members come in by default.
pub open spec fn qualifiers() -> Seq<Seq<char>> {
    seq![
        dashed("public"@, "static"@),
        dashed("protected"@, "static"@),
        dashed("private"@, "static"@),
        dashed("#private"@, "static"@),
        dashed("public"@, "decorated"@),
        dashed("protected"@, "decorated"@),
        dashed("private"@, "decorated"@),
        dashed("public"@, "instance"@),
        dashed("protected"@, "instance"@),
        dashed("private"@, "instance"@),
        dashed("#private"@, "instance"@),
        dashed("public"@, "abstract"@),
        dashed("protected"@, "abstract"@),
        "public"@,
        "protected"@,
        "private"@,
        "#private"@,
        "static"@,
        "instance"@,
        "abstract"@,
        "decorated"@,
    ]
}

/// The types of one kind, in the order that members come in by default.
pub open spec fn qualified(kind: Seq<char>) -> Seq<Seq<char>> {
    qualifiers().map_values(|q: Seq<char>| dashed(q, kind)).push(kind)
}

/// The types of constructors, in the order that members come in by default.
pub open spec fn constructors() -> Seq<Seq<char>> {
    seq![
        dashed("public"@, "constructor"@),
        dashed("protected"@, "constructor"@),
        dashed("private"@, "constructor"@),
        "constructor"@,
    ]
}

/// The order that members come in by default: signatures, fields, the initialisation of the class,
/// constructors, accessors, getters, setters and methods.
pub open spec fn default_order() -> Seq<Seq<char>> {
    seq!["signature"@, "call-signature"@] + qualified("field"@) + seq!["static-initialization"@]
        + constructors() + qualified("accessor"@) + qualified("get"@) + qualified("set"@)
        + qualified("method"@)
}

/// What can be told of a member before its kind.
fn qualifier_names() -> (r: Vec<String>)
    ensures
        views(r@) == qualifiers(),
{
    let r: Vec<String> =
        vec![
        dash("public", "static"),
        dash("protected", "static"),
        dash("private", "static"),
        dash("#private", "static"),
        dash("public", "decorated"),
        dash("protected", "decorated"),
        dash("private", "decorated"),
        dash("public", "instance"),
        dash("protected", "instance"),
        dash("private", "instance"),
        dash("#private", "instance"),
        dash("public", "abstract"),
        dash("protected", "abstract"),
        "public".to_string(),
        "protected".to_string(),
        "private".to_string(),
        "#private".to_string(),
        "static".to_string(),
        "instance".to_string(),
        "abstract".to_string(),
        "decorated".to_string(),
    ];
    proof {
        assert(views(r@) =~= qualifiers());
    }
    r
}

/// Adds the types of one kind.
fn push_qualified(list: &mut Vec<String>, kind: &str)
    ensures
        views(final(list)@) == views(old(list)@) + qualified(kind@),
{
    let ghost before = views(list@);
    let qualifier_list = qualifier_names();
    let ghost all = qualified(kind@);
    let mut i: usize = 0;
    proof {
        assert(before + all.take(0) =~= before);
    }
    while i < qualifier_list.len()
        invariant
            i <= qualifier_list@.len(),
            views(qualifier_list@) == qualifiers(),
            all == qualified(kind@),
            views(list@) == before + all.take(i as int),
        decreases qualifier_list@.len() - i,
    {
        let ghost start = list@;
        let name = dash(qualifier_list[i].as_str(), kind);
        proof {
            assert(qualifiers()[i as int] == qualifier_list@[i as int]@);
            assert(all[i as int] == name@);
        }
        list.push(name);
        proof {
            assert(views(list@) =~= views(start).push(name@));
            assert(before + all.take(i + 1) =~= (before + all.take(i as int)).push(name@));
        }
        i += 1;
    }
    let ghost start = list@;
    list.push(kind.to_string());
    proof {
        assert(views(list@) =~= views(start).push(kind@));
        assert(before + all =~= (before + all.take(i as int)).push(kind@));
    }
}

/// Adds a name.
pub(crate) fn push_name(list: &mut Vec<String>, name: String)
    ensures
        views(final(list)@) == views(old(list)@).push(name@),
{
    let ghost start = list@;
    list.push(name);
    proof {
        assert(views(list@) =~= views(start).push(name@));
    }
}

/// The order that members come in by default.
pub fn default_order_names() -> (r: Vec<String>)
    ensures
        views(r@) == default_order(),
{
    let mut list: Vec<String> = Vec::new();
    proof {
        assert(views(list@) =~= Seq::empty());
    }
    push_name(&mut list, "signature".to_string());
    push_name(&mut list, "call-signature".to_string());
    proof {
        assert(views(list@) =~= seq!["signature"@, "call-signature"@]);
    }
    push_qualified(&mut list, "field");
    let ghost fields = views(list@);
    push_name(&mut list, "static-initialization".to_string());
    proof {
        assert(views(list@) =~= fields + seq!["static-initialization"@]);
    }
    let ghost initialised = views(list@);
    push_name(&mut list, dash("public", "constructor"));
    push_name(&mut list, dash("protected", "constructor"));
    push_name(&mut list, dash("private", "constructor"));
    push_name(&mut list, "constructor".to_string());
    proof {
        assert(views(list@) =~= initialised + constructors());
    }
    push_qualified(&mut list, "accessor");
    push_qualified(&mut list, "get");
    push_qualified(&mut list, "set");
    push_qualified(&mut list, "method");
    list
}

/// The kinds that say how far a member can be seen.
fn kind_has_accessibility(kind: &str, accessibility: &str) -> (r: bool)
    ensures
        r == has_accessibility(kind@, accessibility@),
{
    !str_eq(kind, "readonly-signature") && !str_eq(kind, "signature") && !str_eq(
        kind,
        "static-initialization",
    ) && !str_eq(kind, "call-signature") && !(str_eq(kind, "constructor") && str_eq(
        accessibility,
        "#private",
    ))
}

/// The kinds of members that can be decorated.
pub fn kind_can_be_decorated(kind: &str) -> (r: bool)
    ensures
        r == can_be_decorated(kind@),
{
    str_eq(kind, "readonly-field") || str_eq(kind, "field") || str_eq(kind, "method") || str_eq(
        kind,
        "accessor",
    ) || str_eq(kind, "get") || str_eq(kind, "set")
}

/// The kinds of members that say what they belong to.
fn kind_has_scope(kind: &str) -> (r: bool)
    ensures
        r == has_scope(kind@),
{
    !str_eq(kind, "constructor") && !str_eq(kind, "readonly-signature") && !str_eq(
        kind,
        "signature",
    ) && !str_eq(kind, "call-signature")
}

/// What a member can belong to.
fn scope_names(accessibility: &str) -> (r: Vec<&'static str>)
    ensures
        texts(r@) == scopes(accessibility@),
{
    let mut r: Vec<&'static str> = Vec::new();
    r.push("static");
    r.push("instance");
    if !str_eq(accessibility, "#private") && !str_eq(accessibility, "private") {
        r.push("abstract");
    }
    proof {
        assert(texts(r@) =~= scopes(accessibility@));
    }
    r
}

/// Adds the types of one kind that say what a member belongs to.
fn insert_scoped(set: &mut FxHashSet<String>, kind: &str, accessibility: &str)
    ensures
        forall|name: Seq<char>| #[trigger]
            string_set(final(set)@).contains(name) <==> string_set(old(set)@).contains(name)
                || exists|k: int|
                0 <= k < scopes(accessibility@).len() && names_scoped(
                    name,
                    kind@,
                    accessibility@,
                    #[trigger] scopes(accessibility@)[k],
                ),
{
    let ghost start = string_set(set@);
    let list = scope_names(accessibility);
    let ghost all = scopes(accessibility@);
    let mut i: usize = 0;
    while i < list.len()
        invariant
            i <= list@.len(),
            texts(list@) == all,
            all == scopes(accessibility@),
            forall|name: Seq<char>| #[trigger]
                string_set(set@).contains(name) <==> start.contains(name) || exists|k: int|
                    0 <= k < i && names_scoped(name, kind@, accessibility@, #[trigger] all[k]),
        decreases list@.len() - i,
    {
        let ghost before = string_set(set@);
        let scope = list[i];
        proof {
            assert(all[i as int] == scope@);
        }
        string_set_insert(set, dash(scope, kind));
        let accessible = dash(accessibility, scope);
        string_set_insert(set, dash(accessible.as_str(), kind));
        proof {
            assert forall|name: Seq<char>| #[trigger]
                string_set(set@).contains(name) <==> start.contains(name) || exists|k: int|
                    0 <= k < i + 1 && names_scoped(
                        name,
                        kind@,
                        accessibility@,
                        #[trigger] all[k],
                    ) by {
                assert(string_set(set@).contains(name) <==> before.contains(name) || names_scoped(
                    name,
                    kind@,
                    accessibility@,
                    all[i as int],
                ));
            }
        }
        i += 1;
    }
}

/// Adds the types of one kind of members that can be seen so far.
fn insert_accessible(set: &mut FxHashSet<String>, kind: &str, accessibility: &str)
    ensures
        forall|name: Seq<char>| #[trigger]
            string_set(final(set)@).contains(name) <==> string_set(old(set)@).contains(name)
                || names_accessible(name, kind@, accessibility@),
{
    if kind_has_accessibility(kind, accessibility) {
        string_set_insert(set, dash(accessibility, kind));
    }
    if !str_eq(accessibility, "#private") && kind_can_be_decorated(kind) {
        let decorated = dash(accessibility, "decorated");
        string_set_insert(set, dash(decorated.as_str(), kind));
        string_set_insert(set, dash("decorated", kind));
    }
    if kind_has_scope(kind) {
        insert_scoped(set, kind, accessibility);
    }
}

/// Adds the types of one kind.
fn insert_kind(set: &mut FxHashSet<String>, kind: &str)
    ensures
        forall|name: Seq<char>| #[trigger]
            string_set(final(set)@).contains(name) <==> string_set(old(set)@).contains(name)
                || names_kind(name, kind@),
{
    let ghost start = string_set(set@);
    let ghost all = accessibilities();
    let list: Vec<&'static str> = vec!["public", "protected", "private", "#private"];
    proof {
        assert(texts(list@) =~= all);
    }
    string_set_insert(set, kind.to_string());
    let mut i: usize = 0;
    while i < list.len()
        invariant
            i <= list@.len(),
            texts(list@) == all,
            all == accessibilities(),
            forall|name: Seq<char>| #[trigger]
                string_set(set@).contains(name) <==> start.contains(name) || name == kind@
                    || exists|k: int|
                    0 <= k < i && names_accessible(name, kind@, #[trigger] all[k]),
        decreases list@.len() - i,
    {
        let ghost before = string_set(set@);
        proof {
            assert(all[i as int] == list@[i as int]@);
        }
        insert_accessible(set, kind, list[i]);
        proof {
            assert forall|name: Seq<char>| #[trigger]
                string_set(set@).contains(name) <==> start.contains(name) || name == kind@
                    || exists|k: int|
                    0 <= k < i + 1 && names_accessible(name, kind@, #[trigger] all[k]) by {
                assert(string_set(set@).contains(name) <==> before.contains(name)
                    || names_accessible(name, kind@, all[i as int]));
            }
        }
        i += 1;
    }
}

/// The names of the types of members.
pub fn all_member_types() -> (r: FxHashSet<String>)
    ensures
        forall|name: Seq<char>| #[trigger] string_set(r@).contains(name) <==> is_member_type(name),
{
    let ghost all = kinds();
    let list: Vec<&'static str> =
        vec![
        "readonly-signature",
        "signature",
        "readonly-field",
        "field",
        "method",
        "call-signature",
        "constructor",
        "accessor",
        "get",
        "set",
        "static-initialization",
    ];
    proof {
        assert(texts(list@) =~= all);
        lemma_empty_strings::<u32>();
    }
    let mut set: FxHashSet<String> = FxHashSet::default();
    let mut i: usize = 0;
    while i < list.len()
        invariant
            i <= list@.len(),
            texts(list@) == all,
            all == kinds(),
            forall|name: Seq<char>| #[trigger]
                string_set(set@).contains(name) <==> exists|k: int|
                    0 <= k < i && names_kind(name, #[trigger] all[k]),
        decreases list@.len() - i,
    {
        let ghost before = string_set(set@);
        proof {
            assert(all[i as int] == list@[i as int]@);
        }
        insert_kind(&mut set, list[i]);
        proof {
            assert forall|name: Seq<char>| #[trigger]
                string_set(set@).contains(name) <==> exists|k: int|
                    0 <= k < i + 1 && names_kind(name, #[trigger] all[k]) by {
                assert(string_set(set@).contains(name) <==> before.contains(name) || names_kind(
                    name,
                    all[i as int],
                ));
            }
        }
        i += 1;
    }
    set
}

/// Whether a text is the name of a type of members.
pub fn is_known_member_type(name: &str) -> (r: bool)
    ensures
        r == is_member_type(name@),
{
    let known = all_member_types();
    string_set_contains(&known, name)
}

/// Distinct kinds and accessibilities have distinct texts.
proof fn lemma_words_differ()
    ensures
        "private"@ != "public"@,
        "private"@ != "protected"@,
        "#private"@ != "public"@,
        "#private"@ != "protected"@,
        "#private"@ != "private"@,
        forall|kind: Seq<char>|
            kind == "field"@ || kind == "accessor"@ || kind == "get"@ || kind == "set"@ || kind
                == "method"@ ==> #[trigger] can_be_decorated(kind) && has_scope(kind)
                && has_accessibility(kind, "public"@) && has_accessibility(kind, "protected"@)
                && has_accessibility(kind, "private"@) && has_accessibility(kind, "#private"@),
        has_accessibility("constructor"@, "public"@),
        has_accessibility("constructor"@, "protected"@),
        has_accessibility("constructor"@, "private"@),
{
    reveal_strlit("public");
    reveal_strlit("protected");
    reveal_strlit("private");
    reveal_strlit("#private");
    reveal_strlit("field");
    reveal_strlit("accessor");
    reveal_strlit("get");
    reveal_strlit("set");
    reveal_strlit("method");
    reveal_strlit("constructor");
    reveal_strlit("signature");
    reveal_strlit("readonly-signature");
    reveal_strlit("call-signature");
    reveal_strlit("static-initialization");
    assert("private"@[1] != "public"@[1]);
    assert("private"@.len() != "protected"@.len());
    assert("#private"@[0] != "public"@[0]);
    assert("#private"@[0] != "protected"@[0]);
    assert("#private"@[0] != "private"@[0]);
    assert("field"@.len() == 5);
    assert("method"@.len() == 6);
    assert("signature"@.len() == 9);
    assert("call-signature"@.len() == 14);
    assert("readonly-signature"@.len() == 18);
    assert("static-initialization"@.len() == 21);
    assert("get"@.len() == 3);
    assert("set"@.len() == 3);
    assert("accessor"@.len() == 8);
    assert("constructor"@.len() == 11);
}

/// The types of one kind are known where the kind can be told all of that.
proof fn lemma_qualified_are_known(kind: Seq<char>, index: int, i: int)
    requires
        0 <= index < kinds().len(),
        kinds()[index] == kind,
        kind == "field"@ || kind == "accessor"@ || kind == "get"@ || kind == "set"@ || kind
            == "method"@,
        0 <= i < qualified(kind).len(),
    ensures
        is_member_type(qualified(kind)[i]),
{
    lemma_words_differ();
    let name = qualified(kind)[i];
    assert(can_be_decorated(kind));
    let access = accessibilities();
    assert(access[0] == "public"@);
    assert(access[1] == "protected"@);
    assert(access[2] == "private"@);
    assert(access[3] == "#private"@);
    assert(scopes("public"@)[0] == "static"@);
    assert(scopes("public"@)[1] == "instance"@);
    assert(scopes("public"@)[2] == "abstract"@);
    assert(scopes("protected"@)[0] == "static"@);
    assert(scopes("protected"@)[1] == "instance"@);
    assert(scopes("protected"@)[2] == "abstract"@);
    assert(scopes("private"@)[0] == "static"@);
    assert(scopes("private"@)[1] == "instance"@);
    assert(scopes("#private"@)[0] == "static"@);
    assert(scopes("#private"@)[1] == "instance"@);
    if i == qualifiers().len() {
        assert(name == kind);
    } else {
        assert(name == dashed(qualifiers()[i], kind));
        let j: int = if i == 1 || i == 5 || i == 8 || i == 12 || i == 14 {
            1
        } else if i == 2 || i == 6 || i == 9 || i == 15 {
            2
        } else if i == 3 || i == 10 || i == 16 {
            3
        } else {
            0
        };
        let k: int = if i == 7 || i == 8 || i == 9 || i == 10 || i == 18 {
            1
        } else if i == 11 || i == 12 || i == 19 {
            2
        } else {
            0
        };
        let told = !(i == 4 || i == 5 || i == 6 || i == 13 || i == 14 || i == 15 || i == 16 || i
            == 20);
        if told {
            assert(names_scoped(name, kind, access[j], scopes(access[j])[k]));
        }
        assert(names_accessible(name, kind, access[j]));
    }
    assert(names_kind(name, kinds()[index]));
}

/// Every type in the default order is known.
pub proof fn law_default_types_are_known(i: int)
    requires
        0 <= i < default_order().len(),
    ensures
        is_member_type(default_order()[i]),
{
    let name = default_order()[i];
    let n = qualifiers().len() + 1;
    assert(kinds()[1] == "signature"@);
    assert(kinds()[3] == "field"@);
    assert(kinds()[4] == "method"@);
    assert(kinds()[5] == "call-signature"@);
    assert(kinds()[6] == "constructor"@);
    assert(kinds()[7] == "accessor"@);
    assert(kinds()[8] == "get"@);
    assert(kinds()[9] == "set"@);
    assert(kinds()[10] == "static-initialization"@);
    if i == 0 {
        assert(names_kind(name, kinds()[1]));
    } else if i == 1 {
        assert(names_kind(name, kinds()[5]));
    } else if i < 2 + n {
        lemma_qualified_are_known("field"@, 3, i - 2);
    } else if i == 2 + n {
        assert(names_kind(name, kinds()[10]));
    } else if i < 7 + n {
        lemma_words_differ();
        assert(name == constructors()[i - 3 - n]);
        if i < 6 + n {
            assert(names_accessible(name, "constructor"@, accessibilities()[i - 3 - n]));
        }
        assert(names_kind(name, kinds()[6]));
    } else if i < 7 + 2 * n {
        lemma_qualified_are_known("accessor"@, 7, i - 7 - n);
    } else if i < 7 + 3 * n {
        lemma_qualified_are_known("get"@, 8, i - 7 - 2 * n);
    } else if i < 7 + 4 * n {
        lemma_qualified_are_known("set"@, 9, i - 7 - 3 * n);
    } else {
        lemma_qualified_are_known("method"@, 4, i - 7 - 4 * n);
    }
}

/// Every kind is known by itself. A field, a method or an accessor of any kind is known with how far
/// it can be seen, with what it belongs to, with both, and decorated; a constructor with how far it
/// can be seen.
pub proof fn law_known_types(kind: Seq<char>, access: Seq<char>, scope: Seq<char>)
    requires
        kind == "readonly-field"@ || kind == "field"@ || kind == "method"@ || kind == "accessor"@
            || kind == "get"@ || kind == "set"@,
        access == "public"@ || access == "protected"@ || access == "private"@ || access
            == "#private"@,
        scope == "static"@ || scope == "instance"@ || (scope == "abstract"@ && (access == "public"@
            || access == "protected"@)),
    ensures
        is_member_type(kind),
        is_member_type(access + "-"@ + kind),
        is_member_type(scope + "-"@ + kind),
        is_member_type(access + "-"@ + scope + "-"@ + kind),
        access != "#private"@ ==> is_member_type("decorated"@ + "-"@ + kind) && is_member_type(
            access + "-"@ + "decorated"@ + "-"@ + kind,
        ) && is_member_type(access + "-"@ + "constructor"@),
        is_member_type("readonly-signature"@),
        is_member_type("signature"@),
        is_member_type("call-signature"@),
        is_member_type("constructor"@),
        is_member_type("static-initialization"@),
{
    lemma_words_differ();
    let all = kinds();
    assert(all[0] == "readonly-signature"@ && all[1] == "signature"@ && all[2] == "readonly-field"@
        && all[3] == "field"@ && all[4] == "method"@ && all[5] == "call-signature"@ && all[6]
        == "constructor"@ && all[7] == "accessor"@ && all[8] == "get"@ && all[9] == "set"@
        && all[10] == "static-initialization"@);
    assert(names_kind("readonly-signature"@, all[0]));
    assert(names_kind("signature"@, all[1]));
    assert(names_kind("call-signature"@, all[5]));
    assert(names_kind("constructor"@, all[6]));
    assert(names_kind("static-initialization"@, all[10]));
    let i: int = if kind == "readonly-field"@ {
        2
    } else if kind == "field"@ {
        3
    } else if kind == "method"@ {
        4
    } else if kind == "accessor"@ {
        7
    } else if kind == "get"@ {
        8
    } else {
        9
    };
    let j: int = if access == "public"@ {
        0
    } else if access == "protected"@ {
        1
    } else if access == "private"@ {
        2
    } else {
        3
    };
    let k: int = if scope == "static"@ {
        0
    } else if scope == "instance"@ {
        1
    } else {
        2
    };
    lemma_kinds_are_other_words();
    assert(has_scope(kind));
    assert(has_accessibility(kind, access));
    assert(all[i] == kind);
    assert(accessibilities()[j] == access);
    assert(scopes(access)[k] == scope);
    assert(names_kind(kind, all[i]));
    let told = dashed(access, kind);
    assert(names_accessible(told, kind, accessibilities()[j]));
    assert(names_kind(told, all[i]));
    let short = dashed(scope, kind);
    assert(names_scoped(short, kind, access, scopes(access)[k]));
    assert(names_accessible(short, kind, accessibilities()[j]));
    assert(names_kind(short, all[i]));
    let long = dashed(dashed(access, scope), kind);
    assert(names_scoped(long, kind, access, scopes(access)[k]));
    assert(names_accessible(long, kind, accessibilities()[j]));
    assert(names_kind(long, all[i]));
    if access != "#private"@ {
        let one = dashed("decorated"@, kind);
        assert(names_accessible(one, kind, accessibilities()[j]));
        assert(names_kind(one, all[i]));
        let two = dashed(dashed(access, "decorated"@), kind);
        assert(names_accessible(two, kind, accessibilities()[j]));
        assert(names_kind(two, all[i]));
        let made = dashed(access, "constructor"@);
        assert(names_accessible(made, "constructor"@, accessibilities()[j]));
        assert(names_kind(made, all[6]));
    }
}

/// The kinds are different words.
proof fn lemma_kinds_are_other_words()
    ensures
        forall|kind: Seq<char>|
            kind == "readonly-field"@ || kind == "field"@ || kind == "method"@ || kind
                == "accessor"@ || kind == "get"@ || kind == "set"@ ==> #[trigger] has_scope(kind)
                && kind != "static-initialization"@,
        "constructor"@ != "readonly-signature"@,
        "constructor"@ != "signature"@,
        "constructor"@ != "static-initialization"@,
        "constructor"@ != "call-signature"@,
{
    reveal_strlit("readonly-signature");
    reveal_strlit("signature");
    reveal_strlit("static-initialization");
    reveal_strlit("call-signature");
    reveal_strlit("readonly-field");
    reveal_strlit("constructor");
    reveal_strlit("field");
    reveal_strlit("method");
    reveal_strlit("accessor");
    reveal_strlit("get");
    reveal_strlit("set");
    assert("readonly-signature"@.len() == 18);
    assert("signature"@.len() == 9);
    assert("static-initialization"@.len() == 21);
    assert("call-signature"@.len() == 14);
    assert("readonly-field"@.len() == 14);
    assert("readonly-field"@[0] == 'r');
    assert("call-signature"@[0] == 'c');
    assert("constructor"@.len() == 11);
    assert("field"@.len() == 5);
    assert("method"@.len() == 6);
    assert("accessor"@.len() == 8);
    assert("get"@.len() == 3);
    assert("set"@.len() == 3);
}

/// A name tells something of a kind.
pub open spec fn tells(name: Seq<char>, told: Seq<char>, kind: Seq<char>) -> bool {
    name == told + "-"@ + kind
}

/// The words for how far a member can be seen that can be written before the members of a class.
pub open spec fn is_access_word(word: Seq<char>) -> bool {
    word == "public"@ || word == "protected"@ || word == "private"@
}

/// The words for what a member belongs to, with how far it can be seen before them or not. What is
/// private is not abstract.
pub open spec fn tells_scope(told: Seq<char>) -> bool {
    ||| told == "static"@ || told == "instance"@ || told == "abstract"@
    ||| exists|access: Seq<char>, scope: Seq<char>| #[trigger]
        tells(told, access, scope) && (is_access_word(access) || access == "#private"@) && (scope
            == "static"@ || scope == "instance"@ || (scope == "abstract"@ && (access == "public"@
            || access == "protected"@)))
}

/// The word for decorated members, with how far they can be seen before it or not.
pub open spec fn tells_decorated(told: Seq<char>) -> bool {
    told == "decorated"@ || exists|access: Seq<char>| #[trigger]
        tells(told, access, "decorated"@) && is_access_word(access)
}

/// A known name is a kind, or tells something of one. Of signatures nothing can be told; of
/// constructors how far they can be seen; of the initialisation of a class what it belongs to; of
/// the other members both, and that they are decorated.
pub proof fn law_what_a_type_tells(name: Seq<char>)
    requires
        is_member_type(name),
    ensures
        ({
            ||| name == "readonly-signature"@ || name == "signature"@ || name == "call-signature"@
            ||| name == "constructor"@ || name == "static-initialization"@
            ||| name == "readonly-field"@ || name == "field"@ || name == "method"@
            ||| name == "accessor"@ || name == "get"@ || name == "set"@
            ||| exists|told: Seq<char>| #[trigger]
                tells(name, told, "constructor"@) && is_access_word(told)
            ||| exists|told: Seq<char>| #[trigger]
                tells(name, told, "static-initialization"@) && tells_scope(told)
            ||| exists|told: Seq<char>, kind: Seq<char>| #[trigger]
                tells(name, told, kind) && (kind == "readonly-field"@ || kind == "field"@ || kind
                    == "method"@ || kind == "accessor"@ || kind == "get"@ || kind == "set"@) && (
                is_access_word(told) || told == "#private"@ || tells_scope(told)
                    || tells_decorated(told))
        }),
{
    let i = choose|i: int| 0 <= i < kinds().len() && names_kind(name, #[trigger] kinds()[i]);
    let kind = kinds()[i];
    lemma_words_differ();
    lemma_kinds_are_other_words();
    lemma_signatures_are_other_words();
    if name != kind {
        let j = choose|j: int|
            0 <= j < accessibilities().len() && names_accessible(
                name,
                kind,
                #[trigger] accessibilities()[j],
            );
        let access = accessibilities()[j];
        if has_accessibility(kind, access) && name == dashed(access, kind) {
            assert(tells(name, access, kind));
        } else if access != "#private"@ && can_be_decorated(kind) && (name == dashed(
            dashed(access, "decorated"@),
            kind,
        ) || name == dashed("decorated"@, kind)) {
            let told = if name == dashed("decorated"@, kind) {
                "decorated"@
            } else {
                dashed(access, "decorated"@)
            };
            assert(tells(dashed(access, "decorated"@), access, "decorated"@));
            assert(tells_decorated(told));
            assert(tells(name, told, kind));
        } else {
            let k = choose|k: int|
                0 <= k < scopes(access).len() && names_scoped(
                    name,
                    kind,
                    access,
                    #[trigger] scopes(access)[k],
                );
            let scope = scopes(access)[k];
            let told = if name == dashed(scope, kind) {
                scope
            } else {
                dashed(access, scope)
            };
            assert(scope == "static"@ || scope == "instance"@ || (scope == "abstract"@ && access
                != "private"@ && access != "#private"@));
            assert(tells(dashed(access, scope), access, scope));
            assert(tells_scope(told));
            assert(tells(name, told, kind));
        }
    }
}

/// Signatures are other words than what can be told.
proof fn lemma_signatures_are_other_words()
    ensures
        !has_scope("readonly-signature"@),
        !has_scope("signature"@),
        !has_scope("call-signature"@),
        !has_scope("constructor"@),
        !can_be_decorated("readonly-signature"@),
        !can_be_decorated("signature"@),
        !can_be_decorated("call-signature"@),
        !can_be_decorated("constructor"@),
        !can_be_decorated("static-initialization"@),
{
    reveal_strlit("readonly-signature");
    reveal_strlit("signature");
    reveal_strlit("call-signature");
    reveal_strlit("constructor");
    reveal_strlit("static-initialization");
    reveal_strlit("readonly-field");
    reveal_strlit("field");
    reveal_strlit("method");
    reveal_strlit("accessor");
    reveal_strlit("get");
    reveal_strlit("set");
    assert("readonly-signature"@.len() == 18);
    assert("signature"@.len() == 9);
    assert("call-signature"@.len() == 14);
    assert("constructor"@.len() == 11);
    assert("static-initialization"@.len() == 21);
    assert("readonly-field"@.len() == 14);
    assert("readonly-field"@[0] == 'r');
    assert("call-signature"@[0] == 'c');
    assert("field"@.len() == 5);
    assert("method"@.len() == 6);
    assert("accessor"@.len() == 8);
    assert("get"@.len() == 3);
    assert("set"@.len() == 3);
}

/// A type stands at a place of the default order.
pub open spec fn stands_at(name: Seq<char>, place: int) -> bool {
    0 <= place < default_order().len() && default_order()[place] == name
}

/// A type comes before another in the default order.
pub open spec fn precedes(first: Seq<char>, second: Seq<char>) -> bool {
    exists|i: int, j: int| #[trigger] stands_at(first, i) && #[trigger] stands_at(second, j) && i < j
}

/// Where the types of one kind stand in the default order.
proof fn lemma_places_of_a_kind(kind: Seq<char>, from: int, i: int)
    requires
        (kind == "field"@ && from == 2) || (kind == "accessor"@ && from == 29) || (kind == "get"@
            && from == 51) || (kind == "set"@ && from == 73) || (kind == "method"@ && from == 95),
        0 <= i <= 21,
    ensures
        i < 21 ==> stands_at(dashed(qualifiers()[i], kind), from + i),
        i == 21 ==> stands_at(kind, from + i),
{
    assert(qualifiers().len() == 21);
    assert(qualified(kind).len() == 22);
    assert(qualified("field"@).len() == 22);
    assert(qualified("accessor"@).len() == 22);
    assert(qualified("get"@).len() == 22);
    assert(qualified("set"@).len() == 22);
    assert(qualified("method"@).len() == 22);
    assert(default_order()[from + i] == qualified(kind)[i]);
}

/// Where the words for how far a member can be seen come, and those for what it belongs to.
spec fn place_of_pair(access: Seq<char>, scope: Seq<char>) -> int {
    let a: int = if access == "public"@ {
        0
    } else if access == "protected"@ {
        1
    } else if access == "private"@ {
        2
    } else {
        3
    };
    if scope == "static"@ {
        a
    } else {
        7 + a
    }
}

/// The pair stands at its place.
proof fn lemma_place_of_pair(access: Seq<char>, scope: Seq<char>)
    requires
        is_access_word(access) || access == "#private"@,
        scope == "static"@ || scope == "instance"@,
    ensures
        0 <= place_of_pair(access, scope) < 11,
        qualifiers()[place_of_pair(access, scope)] == dashed(access, scope),
{
    lemma_words_differ();
}

/// By default signatures come first, then fields, the initialisation of the class, constructors,
/// accessors, getters, setters and methods, whatever else is told of them.
pub proof fn law_kinds_come_in_order(access: Seq<char>, scope: Seq<char>)
    requires
        is_access_word(access) || access == "#private"@,
        scope == "static"@ || scope == "instance"@,
    ensures
        precedes("signature"@, "call-signature"@),
        precedes("call-signature"@, access + "-"@ + scope + "-"@ + "field"@),
        precedes("field"@, "static-initialization"@),
        precedes("static-initialization"@, "public"@ + "-"@ + "constructor"@),
        precedes("public"@ + "-"@ + "constructor"@, "protected"@ + "-"@ + "constructor"@),
        precedes("protected"@ + "-"@ + "constructor"@, "private"@ + "-"@ + "constructor"@),
        precedes("private"@ + "-"@ + "constructor"@, "constructor"@),
        precedes("constructor"@, access + "-"@ + scope + "-"@ + "accessor"@),
        precedes("accessor"@, access + "-"@ + scope + "-"@ + "get"@),
        precedes("get"@, access + "-"@ + scope + "-"@ + "set"@),
        precedes("set"@, access + "-"@ + scope + "-"@ + "method"@),
{
    let p = place_of_pair(access, scope);
    lemma_place_of_pair(access, scope);
    lemma_places_of_a_kind("field"@, 2, p);
    lemma_places_of_a_kind("field"@, 2, 21);
    lemma_places_of_a_kind("accessor"@, 29, p);
    lemma_places_of_a_kind("accessor"@, 29, 21);
    lemma_places_of_a_kind("get"@, 51, p);
    lemma_places_of_a_kind("get"@, 51, 21);
    lemma_places_of_a_kind("set"@, 73, p);
    lemma_places_of_a_kind("set"@, 73, 21);
    lemma_places_of_a_kind("method"@, 95, p);
    assert(stands_at("signature"@, 0));
    assert(stands_at("call-signature"@, 1));
    assert(stands_at("static-initialization"@, 24));
    assert(default_order()[25] == constructors()[0]);
    assert(default_order()[26] == constructors()[1]);
    assert(default_order()[27] == constructors()[2]);
    assert(default_order()[28] == constructors()[3]);
    assert(stands_at(dashed("public"@, "constructor"@), 25));
    assert(stands_at(dashed("protected"@, "constructor"@), 26));
    assert(stands_at(dashed("private"@, "constructor"@), 27));
    assert(stands_at("constructor"@, 28));
}

/// By default a member of which more is told comes first. Static members come before decorated
/// ones, these before those of instances, and these before abstract ones; the farther a member can
/// be seen, the earlier it comes.
pub proof fn law_what_is_told_comes_in_order(kind: Seq<char>, access: Seq<char>, scope: Seq<char>)
    requires
        kind == "field"@ || kind == "accessor"@ || kind == "get"@ || kind == "set"@ || kind
            == "method"@,
        is_access_word(access) || access == "#private"@,
        scope == "static"@ || scope == "instance"@,
    ensures
        precedes(access + "-"@ + scope + "-"@ + kind, access + "-"@ + kind),
        precedes(access + "-"@ + kind, scope + "-"@ + kind),
        precedes(scope + "-"@ + kind, kind),
        precedes(access + "-"@ + "static"@ + "-"@ + kind, access + "-"@ + "instance"@ + "-"@
            + kind),
        is_access_word(access) ==> precedes(
            access + "-"@ + "static"@ + "-"@ + kind,
            access + "-"@ + "decorated"@ + "-"@ + kind,
        ) && precedes(
            access + "-"@ + "decorated"@ + "-"@ + kind,
            access + "-"@ + "instance"@ + "-"@ + kind,
        ),
        access == "public"@ || access == "protected"@ ==> precedes(
            access + "-"@ + "instance"@ + "-"@ + kind,
            access + "-"@ + "abstract"@ + "-"@ + kind,
        ),
        precedes("public"@ + "-"@ + scope + "-"@ + kind, "protected"@ + "-"@ + scope + "-"@
            + kind),
        precedes("protected"@ + "-"@ + scope + "-"@ + kind, "private"@ + "-"@ + scope + "-"@
            + kind),
        precedes("private"@ + "-"@ + scope + "-"@ + kind, "#private"@ + "-"@ + scope + "-"@
            + kind),
        precedes("static"@ + "-"@ + kind, "instance"@ + "-"@ + kind),
        precedes("instance"@ + "-"@ + kind, "abstract"@ + "-"@ + kind),
        precedes("abstract"@ + "-"@ + kind, "decorated"@ + "-"@ + kind),
{
    let from: int = if kind == "field"@ {
        2
    } else if kind == "accessor"@ {
        29
    } else if kind == "get"@ {
        51
    } else if kind == "set"@ {
        73
    } else {
        95
    };
    let a = place_of_pair(access, "static"@);
    lemma_words_differ();
    lemma_place_of_pair(access, "static"@);
    lemma_place_of_pair(access, "instance"@);
    lemma_place_of_pair(access, scope);
    assert forall|i: int| 0 <= i < 21 implies stands_at(
        dashed(#[trigger] qualifiers()[i], kind),
        from + i,
    ) by {
        lemma_places_of_a_kind(kind, from, i);
    }
    lemma_places_of_a_kind(kind, from, 21);
    lemma_place_of_pair("public"@, scope);
    lemma_place_of_pair("protected"@, scope);
    lemma_place_of_pair("private"@, scope);
    lemma_place_of_pair("#private"@, scope);
    lemma_place_of_pair(access, "instance"@);
    assert(place_of_pair(access, "instance"@) == 7 + a) by {
        reveal_strlit("static");
        reveal_strlit("instance");
        assert("static"@.len() != "instance"@.len());
    }
    assert(qualifiers()[13 + a] == access);
    assert(a < 3 ==> qualifiers()[4 + a] == dashed(access, "decorated"@));
    assert(a < 2 ==> qualifiers()[11 + a] == dashed(access, "abstract"@));
    assert(qualifiers()[17] == "static"@);
    assert(qualifiers()[18] == "instance"@);
    assert(qualifiers()[19] == "abstract"@);
    assert(qualifiers()[20] == "decorated"@);
}

} // verus!

//! What comes of an order: which members are held against which, and what is reported.

use super::checks::{
    group_of, group_report, grouped_reports, lowest_rank, member_reports, name_or_empty,
    name_report, name_reports, optionality_report, order_reports, previous_name, rank, rank_of,
    runs, switch_from, type_runs, walk, walk_on,
};
use super::collation::{Position, lowercase, natural_position, out_of_order};
use super::config::{
    MemberOrderingOptions, MemberTypeGroup, MemberTypesOption, Normalized, OptionalityOrder, Order,
    OrderConfig, SortedOrderConfig, default_groups, group_views, shown, shown_list,
};
use super::laws::{comes_before, is_late};
use super::members::{
    Member, class_member, method_member, property_member, signature_member, types_of,
};
use super::{MemberOrdering, members_of_class, members_of_signatures};
use crate::ast::{
    Accessibility, AccessorProperty, Class, ClassElement, ClassType, Expression, IndexSignature,
    MethodDefinition, MethodDefinitionKind, MethodSignature, MethodSignatureKind,
    PropertyDefinition, PropertyKey, PropertySignature, Signature, Span, StaticBlock,
};
use crate::lint::{AstKind, Report};
use crate::text::{bytes_before, first_difference};
use vstd::prelude::*;
use vstd::utf8::encode_utf8;

verus! {

/// Every member of a list is optional, or every one is required.
pub open spec fn all_optional(members: Seq<Member>, optional: bool) -> bool {
    forall|i: int| 0 <= i < members.len() ==> (#[trigger] members[i]).optional == optional
}

/// Where the members first change.
proof fn lemma_switch(members: Seq<Member>, from: int, at: int)
    requires
        1 <= from <= at < members.len(),
        forall|k: int|
            from <= k < at ==> (#[trigger] members[k]).optional == members[k - 1].optional,
        members[at].optional != members[at - 1].optional,
    ensures
        switch_from(members, from) == Some(at),
    decreases at - from,
{
    if from < at {
        assert(members[from].optional == members[from - 1].optional);
        lemma_switch(members, from + 1, at);
    }
}

/// A list that does not change has no place where it does.
proof fn lemma_one_side(members: Seq<Member>, from: int, optional: bool)
    requires
        all_optional(members, optional),
    ensures
        switch_from(members, from) is None,
    decreases members.len() - from,
{
    if 1 <= from < members.len() {
        assert(members[from].optional == optional);
        assert(members[from - 1].optional == optional);
        lemma_one_side(members, from + 1, optional);
    }
}

/// Where the optional and the required members are on their sides, the reports are those on the
/// first side by itself and then those on the second by itself: none exactly if both are in order.
pub proof fn law_both_sides_are_checked(
    first: Seq<Member>,
    second: Seq<Member>,
    sorted: SortedOrderConfig,
)
    requires
        first.len() > 0,
        second.len() > 0,
        sorted.optionality_order is Some,
        all_optional(first, sorted.optionality_order == Some(OptionalityOrder::OptionalFirst)),
        all_optional(second, sorted.optionality_order == Some(OptionalityOrder::RequiredFirst)),
    ensures
        ({
            let config = OrderConfig::Sorted(sorted);
            &&& member_reports(first + second, config) == member_reports(first, config)
                + member_reports(second, config)
            &&& member_reports(first + second, config).len() == 0 <==> member_reports(
                first,
                config,
            ).len() == 0 && member_reports(second, config).len() == 0
        }),
{
    let members = first + second;
    let at = first.len() as int;
    let is_first = sorted.optionality_order == Some(OptionalityOrder::OptionalFirst);
    assert forall|k: int| 1 <= k < at implies (#[trigger] members[k]).optional == members[k
        - 1].optional by {
        assert(first[k].optional == is_first);
        assert(first[k - 1].optional == is_first);
    }
    assert((sorted.optionality_order == Some(OptionalityOrder::RequiredFirst)) == !is_first) by {
        match sorted.optionality_order->0 {
            OptionalityOrder::OptionalFirst => {},
            OptionalityOrder::RequiredFirst => {},
        }
    }
    assert(second[0].optional == !is_first);
    assert(first[at - 1].optional == is_first);
    assert(members[at] == second[0]);
    assert(members[at - 1] == first[at - 1]);
    lemma_switch(members, 1, at);
    assert(members[0] == first[0]);
    assert forall|k: int| at < k < members.len() implies (#[trigger] members[k]).optional
        == members[at].optional by {
        assert(members[k] == second[k - at]);
    }
    lemma_one_side(first, 1, is_first);
    lemma_one_side(second, 1, !is_first);
    assert(members.take(at) =~= first);
    assert(members.skip(at) =~= second);
}

/// Where members of both sides are there and the first one is on the wrong side, it alone is
/// reported.
pub proof fn law_the_first_member_is_of_the_first_side(
    members: Seq<Member>,
    sorted: SortedOrderConfig,
    other: int,
)
    requires
        0 < other < members.len(),
        members[other].optional != members[0].optional,
        sorted.optionality_order is Some,
        members[0].optional != (sorted.optionality_order == Some(OptionalityOrder::OptionalFirst)),
    ensures
        member_reports(members, OrderConfig::Sorted(sorted)) == seq![
            optionality_report(members[0], sorted.optionality_order->0),
        ],
{
    lemma_some_switch(members, 1, other);
}

/// Members that are not all the same change somewhere.
proof fn lemma_some_switch(members: Seq<Member>, from: int, other: int)
    requires
        1 <= from <= other < members.len(),
        members[other].optional != members[from - 1].optional,
    ensures
        switch_from(members, from) is Some,
        from <= switch_from(members, from)->0 <= other,
    decreases other - from,
{
    if members[from].optional == members[from - 1].optional {
        lemma_some_switch(members, from + 1, other);
    }
}

/// Where the sides change more than once, the first member of the second side alone is reported.
pub proof fn law_sides_change_once(
    first: Seq<Member>,
    second: Member,
    rest: Seq<Member>,
    sorted: SortedOrderConfig,
    again: int,
)
    requires
        first.len() > 0,
        sorted.optionality_order is Some,
        all_optional(first, sorted.optionality_order == Some(OptionalityOrder::OptionalFirst)),
        second.optional == (sorted.optionality_order == Some(OptionalityOrder::RequiredFirst)),
        0 <= again < rest.len(),
        rest[again].optional != second.optional,
    ensures
        member_reports(first.push(second) + rest, OrderConfig::Sorted(sorted)) == seq![
            optionality_report(second, sorted.optionality_order->0),
        ],
{
    let members = first.push(second) + rest;
    let at = first.len() as int;
    assert forall|k: int| 1 <= k < at implies (#[trigger] members[k]).optional == members[k
        - 1].optional by {
        assert(members[k] == first[k]);
        assert(members[k - 1] == first[k - 1]);
    }
    assert(members[at] == second);
    assert(members[at - 1] == first[at - 1]);
    lemma_switch(members, 1, at);
    assert(members[0] == first[0]);
    assert(members[at + 1 + again] == rest[again]);
}

/// A name is held against that of the last member before it that has one, with any number of
/// members without a name in between.
pub proof fn law_names_are_held_against_the_last_one(
    before: Seq<Member>,
    x: Member,
    unnamed: Seq<Member>,
    y: Member,
    order: Order,
)
    requires
        x.name is Some,
        y.name is Some,
        forall|i: int| 0 <= i < unnamed.len() ==> (#[trigger] unnamed[i]).name is None,
    ensures
        ({
            let first = name_reports(before.push(x), order);
            name_reports((before.push(x) + unnamed).push(y), order) == if out_of_order(
                y.name->0,
                x.name->0,
                order,
            ) {
                first.push(name_report(y.span, y.name->0, x.name->0))
            } else {
                first
            }
        }),
{
    let head = before.push(x) + unnamed;
    lemma_unnamed(before.push(x), unnamed, order);
    assert(before.push(x).drop_last() =~= before);
    assert(head.push(y).drop_last() =~= head);
}

/// Members without a name change nothing.
proof fn lemma_unnamed(members: Seq<Member>, unnamed: Seq<Member>, order: Order)
    requires
        forall|i: int| 0 <= i < unnamed.len() ==> (#[trigger] unnamed[i]).name is None,
    ensures
        previous_name(members + unnamed) == previous_name(members),
        name_reports(members + unnamed, order) == name_reports(members, order),
    decreases unnamed.len(),
{
    let all = members + unnamed;
    if unnamed.len() == 0 {
        assert(all =~= members);
    } else {
        let rest = unnamed.drop_last();
        lemma_unnamed(members, rest, order);
        assert(all.drop_last() =~= members + rest);
        assert(all.last() == unnamed[unnamed.len() - 1]);
    }
}

/// The same name may follow itself. In the alphabetical order a name may not come before the one
/// that it follows; without regard to case the names in lower case may not; in the natural orders
/// the name must come after.
pub proof fn law_orders_of_names(name: Seq<char>, previous: Seq<char>, order: Order)
    ensures
        !out_of_order(name, name, order),
        !out_of_order(name, previous, Order::AsWritten),
        name != previous ==> {
            &&& out_of_order(name, previous, Order::Alphabetically) <==> bytes_before(
                encode_utf8(name),
                encode_utf8(previous),
            )
            &&& out_of_order(name, previous, Order::AlphabeticallyCaseInsensitive)
                <==> bytes_before(encode_utf8(lowercase(name)), encode_utf8(lowercase(previous)))
            &&& out_of_order(name, previous, Order::Natural) <==> natural_position(name, previous)
                == Position::Before || natural_position(name, previous) == Position::Same
            &&& out_of_order(name, previous, Order::NaturalCaseInsensitive) <==> natural_position(
                lowercase(name),
                lowercase(previous),
            ) == Position::Before || natural_position(lowercase(name), lowercase(previous))
                == Position::Same
        },
        !(out_of_order(name, previous, Order::Alphabetically) && out_of_order(
            previous,
            name,
            Order::Alphabetically,
        )),
{
    if bytes_before(encode_utf8(name), encode_utf8(previous)) {
        law_bytes_are_ordered(encode_utf8(name), encode_utf8(previous));
    }
}

/// Bytes come in the order of the first place where they differ; a beginning comes before the
/// whole; and of two different ones exactly one comes first.
pub proof fn law_bytes_are_ordered(a: Seq<u8>, b: Seq<u8>)
    ensures
        forall|k: int|
            0 <= k < a.len() && k < b.len() && #[trigger] a[k] < b[k] && a.take(k) == b.take(k)
                ==> bytes_before(a, b),
        a != b && a.is_prefix_of(b) ==> bytes_before(a, b),
        a == b ==> !bytes_before(a, b),
        bytes_before(a, b) ==> !bytes_before(b, a),
        a != b ==> bytes_before(a, b) || bytes_before(b, a),
{
    assert forall|k: int|
        0 <= k < a.len() && k < b.len() && #[trigger] a[k] < b[k] && a.take(k) == b.take(
            k,
        ) implies bytes_before(a, b) by {
        assert forall|j: int| 0 <= j < k implies a[j] == b[j] by {
            assert(a.take(k)[j] == b.take(k)[j]);
        }
        assert(first_difference(a, b, k));
    }
    if a != b && a.is_prefix_of(b) {
        assert forall|j: int| 0 <= j < a.len() implies a[j] == b[j] by {
            assert(b.subrange(0, a.len() as int)[j] == a[j]);
        }
        if a.len() == b.len() {
            assert(a =~= b);
        }
        assert(first_difference(a, b, a.len() as int));
    }
    if bytes_before(a, b) {
        let k = choose|k: int| #[trigger] first_difference(a, b, k);
        assert forall|j: int| !#[trigger] first_difference(b, a, j) by {
            if first_difference(b, a, j) {
                if j < k {
                    assert(a[j] == b[j]);
                } else if k < j {
                    assert(b[k] == a[k]);
                }
            }
        }
    }
    if a == b {
        assert forall|j: int| !#[trigger] first_difference(a, b, j) by {}
    }
    if a != b {
        lemma_some_difference(a, b, 0);
    }
}

/// Two different texts differ somewhere.
proof fn lemma_some_difference(a: Seq<u8>, b: Seq<u8>, k: int)
    requires
        a != b,
        0 <= k <= a.len(),
        k <= b.len(),
        forall|j: int| 0 <= j < k ==> a[j] == b[j],
    ensures
        bytes_before(a, b) || bytes_before(b, a),
    decreases a.len() - k,
{
    if k == a.len() {
        if k == b.len() {
            assert(a =~= b);
        }
        assert(first_difference(a, b, k));
    } else if k == b.len() {
        assert(first_difference(b, a, k));
    } else if a[k] < b[k] {
        assert(first_difference(a, b, k));
    } else if b[k] < a[k] {
        assert(first_difference(b, a, k));
    } else {
        lemma_some_difference(a, b, k + 1);
    }
}

/// A member belongs to the first group that holds the narrowest of its types that any group holds.
/// A member whose type is not looked at belongs to none.
pub proof fn law_members_belong_to_the_group_of_their_narrowest_type(
    m: Member,
    types: Seq<Seq<Seq<char>>>,
)
    ensures
        m.ignored_for_rank ==> rank(m, types) is None,
        !m.ignored_for_rank ==> match rank(m, types) {
            Some(g) => exists|k: int|
                0 <= k < m.candidates.len() && 0 <= g < types.len() && types[g].contains(
                    #[trigger] m.candidates[k],
                ) && (forall|h: int|
                    0 <= h < g ==> !(#[trigger] types[h]).contains(m.candidates[k])) && forall|j: int, h: int|
                    0 <= j < k && 0 <= h < types.len() ==> !(#[trigger] types[h]).contains(
                        #[trigger] m.candidates[j],
                    ),
            None => forall|j: int, h: int|
                0 <= j < m.candidates.len() && 0 <= h < types.len() ==> !(
                #[trigger] types[h]).contains(#[trigger] m.candidates[j]),
        },
{
    if !m.ignored_for_rank {
        lemma_rank_of(m.candidates, types);
    }
}

proof fn lemma_group_of(types: Seq<Seq<Seq<char>>>, name: Seq<char>, from: int)
    requires
        0 <= from,
    ensures
        match group_of(types, name, from) {
            Some(g) => from <= g < types.len() && types[g].contains(name) && forall|h: int|
                from <= h < g ==> !(#[trigger] types[h]).contains(name),
            None => forall|h: int|
                from <= h < types.len() ==> !(#[trigger] types[h]).contains(name),
        },
    decreases types.len() - from,
{
    if from < types.len() && !types[from].contains(name) {
        lemma_group_of(types, name, from + 1);
    }
}

proof fn lemma_rank_of(candidates: Seq<Seq<char>>, types: Seq<Seq<Seq<char>>>)
    ensures
        match rank_of(candidates, types) {
            Some(g) => exists|k: int|
                0 <= k < candidates.len() && 0 <= g < types.len() && types[g].contains(
                    #[trigger] candidates[k],
                ) && (forall|h: int| 0 <= h < g ==> !(#[trigger] types[h]).contains(candidates[k]))
                    && forall|j: int, h: int|
                    0 <= j < k && 0 <= h < types.len() ==> !(#[trigger] types[h]).contains(
                        #[trigger] candidates[j],
                    ),
            None => forall|j: int, h: int|
                0 <= j < candidates.len() && 0 <= h < types.len() ==> !(
                #[trigger] types[h]).contains(#[trigger] candidates[j]),
        },
    decreases candidates.len(),
{
    if candidates.len() > 0 {
        lemma_group_of(types, candidates[0], 0);
        if group_of(types, candidates[0], 0) is None {
            let rest = candidates.drop_first();
            lemma_rank_of(rest, types);
            assert(forall|j: int| 0 <= j < rest.len() ==> #[trigger] rest[j] == candidates[j + 1]);
            match rank_of(rest, types) {
                Some(g) => {
                    let k = choose|k: int|
                        0 <= k < rest.len() && 0 <= g < types.len() && types[g].contains(
                            #[trigger] rest[k],
                        ) && (forall|h: int|
                            0 <= h < g ==> !(#[trigger] types[h]).contains(rest[k])) && forall|
                            j: int,
                            h: int,
                        |
                            0 <= j < k && 0 <= h < types.len() ==> !(#[trigger] types[h]).contains(
                                #[trigger] rest[j],
                            );
                    assert(candidates[k + 1] == rest[k]);
                    assert forall|j: int, h: int|
                        0 <= j < k + 1 && 0 <= h < types.len() implies !(
                    #[trigger] types[h]).contains(#[trigger] candidates[j]) by {
                        if j > 0 {
                            assert(candidates[j] == rest[j - 1]);
                        }
                    }
                },
                None => {
                    assert forall|j: int, h: int|
                        0 <= j < candidates.len() && 0 <= h < types.len() implies !(
                    #[trigger] types[h]).contains(#[trigger] candidates[j]) by {
                        if j > 0 {
                            assert(candidates[j] == rest[j - 1]);
                        }
                    }
                },
            }
        }
    }
}

/// A member that comes after one of a later group is reported, under its name and where it stands,
/// with the lowest of the groups above its own that members before it opened.
pub proof fn law_the_lowest_later_group_is_named(
    members: Seq<Member>,
    m: Member,
    types: Seq<Seq<Seq<char>>>,
)
    requires
        is_late(members.push(m), types, members.len() as int),
    ensures
        ({
            let before = walk(members, types);
            let report = walk(members.push(m), types).reports.last();
            let own = rank(m, types)->0;
            exists|low: int|
                before.ranks.contains(low) && own < low && (forall|i: int|
                    0 <= i < before.ranks.len() && own < #[trigger] before.ranks[i] ==> low
                        <= before.ranks[i]) && report == (Report {
                    message: "Member "@ + name_or_empty(m) + " should be declared before all "@
                        + shown_list(#[trigger] types[low]) + " definitions."@,
                    help: None,
                    span: m.span,
                })
        }),
{
    let all = members.push(m);
    let n = members.len() as int;
    assert(all.drop_last() =~= members);
    let before = walk(members, types);
    let i = choose|i: int|
        0 <= i < n && comes_before(#[trigger] rank(all[i], types), rank(all[n], types));
    super::laws::lemma_walk(members, types);
    assert(rank(members[i], types) == rank(all[i], types));
    let own = rank(m, types)->0;
    super::checks::law_lowest_rank(before.ranks, own);
    let low = lowest_rank(before.ranks, own);
    assert(walk(all, types).reports.last() == group_report(m, shown_list(types[low])));
}

/// Names are shown with blanks for dashes, one after another with commas.
pub proof fn law_groups_are_shown(names: Seq<Seq<char>>, name: Seq<char>, i: int)
    requires
        names.len() > 0,
        0 <= i < name.len(),
    ensures
        shown(name).len() == name.len(),
        shown(name)[i] == (if name[i] == '-' {
            ' '
        } else {
            name[i]
        }),
        shown_list(seq![name]) == shown(name),
        shown_list(names.push(name)) == shown_list(names) + ", "@ + shown(name),
{
    assert(names.push(name).drop_last() =~= names);
}

/// Where the members of a second list are all of later groups than those of a first one, and each
/// list is in order by its groups, the names of each are looked at by themselves.
pub proof fn law_names_are_sorted_within_groups(
    a: Seq<Member>,
    b: Seq<Member>,
    types: Seq<Seq<Seq<char>>>,
    order: Order,
)
    requires
        walk(a, types).reports.len() == 0,
        walk(b, types).reports.len() == 0,
        order != Order::AsWritten,
        forall|i: int, j: int|
            0 <= i < a.len() && 0 <= j < b.len() ==> (#[trigger] rank(a[i], types) matches Some(x)
                && (#[trigger] rank(b[j], types) matches Some(y) && x < y)),
    ensures
        ({
            let config = Normalized { member_types: Some(types), optionality_order: None, order };
            order_reports(a + b, config) == order_reports(a, config) + order_reports(b, config)
        }),
{
    lemma_walk_apart(a, b, types);
    let x = walk(a, types);
    let y = walk(b, types);
    let w = walk(a + b, types);
    lemma_grouped(x.groups, y.groups, order);
    assert(w.reports.len() == 0);
}

/// The groups of two lists that are apart.
proof fn lemma_walk_apart(a: Seq<Member>, b: Seq<Member>, types: Seq<Seq<Seq<char>>>)
    requires
        walk(a, types).reports.len() == 0,
        walk(b, types).reports.len() == 0,
        forall|i: int, j: int|
            0 <= i < a.len() && 0 <= j < b.len() ==> (#[trigger] rank(a[i], types) matches Some(x)
                && (#[trigger] rank(b[j], types) matches Some(y) && x < y)),
    ensures
        ({
            let x = walk(a, types);
            let y = walk(b, types);
            let w = walk(a + b, types);
            &&& w.ranks == x.ranks + y.ranks
            &&& w.groups == x.groups + y.groups
            &&& w.reports.len() == 0
        }),
    decreases b.len(),
{
    let x = walk(a, types);
    if b.len() == 0 {
        assert(a + b =~= a);
        assert(x.ranks + walk(b, types).ranks =~= x.ranks);
        assert(x.groups + walk(b, types).groups =~= x.groups);
    } else {
        let rest = b.drop_last();
        let m = b.last();
        assert((a + b).drop_last() =~= a + rest);
        assert((a + b).last() == m);
        let before = walk(rest, types);
        assert(walk(b, types) == walk_on(before, m, types));
        assert(before.reports.len() == 0);
        assert forall|i: int, j: int| 0 <= i < a.len() && 0 <= j < rest.len() implies (
        #[trigger] rank(a[i], types) matches Some(x) && (
        #[trigger] rank(rest[j], types) matches Some(y) && x < y)) by {
            assert(rest[j] == b[j]);
            assert(rank(b[j], types) is Some);
        }
        lemma_walk_apart(a, rest, types);
        super::laws::lemma_walk(a, types);
        super::laws::lemma_walk(rest, types);
        let w = walk(a + rest, types);
        let n = b.len() - 1;
        assert(b[n] == m);
        if before.ranks.len() == 0 && x.ranks.len() > 0 {
            let i = choose|i: int|
                0 <= i < a.len() && #[trigger] rank(a[i], types) == Some(x.ranks.last());
            assert(rank(b[n], types) is Some);
            assert(w.ranks =~= x.ranks);
        }
        if before.ranks.len() > 0 {
            assert(w.ranks.last() == before.ranks.last());
            assert(w.groups.last() == before.groups.last());
            assert(w.groups.drop_last() =~= x.groups + before.groups.drop_last());
        }
        if rank(m, types) is Some {
            let y = walk(b, types);
            let z = walk(a + b, types);
            assert(z == walk_on(w, m, types));
            assert(z.ranks =~= x.ranks + y.ranks);
            assert(z.groups =~= x.groups + y.groups);
        }
    }
}

/// The names of groups one after another.
proof fn lemma_grouped(a: Seq<Seq<Member>>, b: Seq<Seq<Member>>, order: Order)
    ensures
        grouped_reports(a + b, order) == grouped_reports(a, order) + grouped_reports(b, order),
    decreases b.len(),
{
    if b.len() == 0 {
        assert(a + b =~= a);
        assert(grouped_reports(a, order) + grouped_reports(b, order) =~= grouped_reports(a, order));
    } else {
        lemma_grouped(a, b.drop_last(), order);
        assert((a + b).drop_last() =~= a + b.drop_last());
        let x = grouped_reports(a, order);
        let y = grouped_reports(b.drop_last(), order);
        let z = name_reports(b.last(), order);
        assert((x + y) + z =~= x + (y + z));
    }
}

/// Where all members are of one group, or where groups are left alone, the names of all of them
/// are looked at.
pub proof fn law_names_of_one_group_are_sorted(
    members: Seq<Member>,
    types: Seq<Seq<Seq<char>>>,
    group: int,
    order: Order,
)
    requires
        order != Order::AsWritten,
        forall|i: int| 0 <= i < members.len() ==> #[trigger] rank(members[i], types) == Some(group),
    ensures
        order_reports(
            members,
            Normalized { member_types: Some(types), optionality_order: None, order },
        ) == name_reports(members, order),
        order_reports(members, Normalized { member_types: None, optionality_order: None, order })
            == name_reports(members, order),
{
    lemma_one_group(members, types, group);
    let w = walk(members, types);
    if members.len() == 0 {
        assert(w.groups =~= Seq::empty());
        assert(grouped_reports(w.groups, order) =~= name_reports(members, order));
    } else {
        let g = seq![members];
        assert(w.groups =~= g);
        assert(g.drop_last() =~= Seq::empty());
        assert(grouped_reports(g.drop_last(), order) =~= Seq::empty());
        assert(grouped_reports(g, order) =~= name_reports(members, order));
    }
}

proof fn lemma_one_group(members: Seq<Member>, types: Seq<Seq<Seq<char>>>, group: int)
    requires
        forall|i: int| 0 <= i < members.len() ==> #[trigger] rank(members[i], types) == Some(group),
    ensures
        ({
            let w = walk(members, types);
            &&& w.reports.len() == 0
            &&& members.len() > 0 ==> w.ranks == seq![group] && w.groups == seq![members]
            &&& members.len() == 0 ==> w.ranks.len() == 0 && w.groups.len() == 0
        }),
    decreases members.len(),
{
    if members.len() > 0 {
        let rest = members.drop_last();
        let n = members.len() - 1;
        assert forall|i: int| 0 <= i < rest.len() implies #[trigger] rank(rest[i], types) == Some(
            group,
        ) by {
            assert(rank(members[i], types) == Some(group));
        }
        lemma_one_group(rest, types, group);
        assert(rank(members[n], types) == Some(group));
        let w = walk(members, types);
        if rest.len() == 0 {
            assert(w.ranks =~= seq![group]);
            assert(seq![members.last()] =~= members);
            assert(w.groups =~= seq![members]);
        } else {
            assert(rest.push(members.last()) =~= members);
            assert(w.groups =~= seq![members]);
        }
    }
}

/// Where members are out of order by their groups, the reports on that come first, and the names
/// in each run of members of one group are looked at all the same.
pub proof fn law_names_are_looked_at_in_runs(
    members: Seq<Member>,
    types: Seq<Seq<Seq<char>>>,
    order: Order,
    run: int,
    report: Report,
)
    requires
        order != Order::AsWritten,
        walk(members, types).reports.len() > 0,
        0 <= run < type_runs(members, types).len(),
        name_reports(type_runs(members, types)[run], order).contains(report),
    ensures
        ({
            let config = Normalized { member_types: Some(types), optionality_order: None, order };
            let all = order_reports(members, config);
            &&& walk(members, types).reports.is_prefix_of(all)
            &&& all.contains(report)
        }),
{
    let first = walk(members, types).reports;
    let groups = type_runs(members, types);
    let second = grouped_reports(groups, order);
    assert((first + second).subrange(0, first.len() as int) =~= first);
    lemma_grouped_contains(groups, order, run, report);
    let i = choose|i: int| 0 <= i < second.len() && second[i] == report;
    assert((first + second)[first.len() + i] == report);
}

proof fn lemma_grouped_contains(groups: Seq<Seq<Member>>, order: Order, g: int, report: Report)
    requires
        0 <= g < groups.len(),
        name_reports(groups[g], order).contains(report),
    ensures
        grouped_reports(groups, order).contains(report),
    decreases groups.len(),
{
    let a = grouped_reports(groups.drop_last(), order);
    let b = name_reports(groups.last(), order);
    if g == groups.len() - 1 {
        let i = choose|i: int| 0 <= i < b.len() && b[i] == report;
        assert((a + b)[a.len() + i] == report);
    } else {
        lemma_grouped_contains(groups.drop_last(), order, g, report);
        let i = choose|i: int| 0 <= i < a.len() && a[i] == report;
        assert((a + b)[i] == report);
    }
}

/// A member that another one of the same group follows is in a run, and each run is of one group.
pub proof fn law_neighbours_of_one_group_are_in_a_run(
    members: Seq<Member>,
    types: Seq<Seq<Seq<char>>>,
    i: int,
    run: int,
    x: int,
    y: int,
)
    ensures
        0 <= i < members.len() - 1 && rank(members[i], types) == rank(members[i + 1], types)
            ==> exists|g: int|
            0 <= g < type_runs(members, types).len() && (#[trigger] type_runs(
                members,
                types,
            )[g]).contains(members[i]),
        0 <= run < type_runs(members, types).len() && 0 <= x < type_runs(
            members,
            types,
        )[run].len() && 0 <= y < type_runs(members, types)[run].len() ==> rank(
            type_runs(members, types)[run][x],
            types,
        ) == rank(type_runs(members, types)[run][y], types),
{
    lemma_runs(members, types, members.len() - 1);
    if 0 <= i < members.len() - 1 {
        assert(rank(members[i], types) == rank(members[i], types));
    }
}

/// A rank that all members of a run have.
spec fn is_of_rank(run: Seq<Member>, types: Seq<Seq<Seq<char>>>, r: Option<int>) -> bool {
    forall|k: int| 0 <= k < run.len() ==> rank(#[trigger] run[k], types) == r
}

proof fn lemma_runs(members: Seq<Member>, types: Seq<Seq<Seq<char>>>, n: int)
    requires
        n < members.len(),
    ensures
        ({
            let r = runs(members, types, n);
            &&& r.groups.len() == 0 <==> r.previous is None
            &&& r.previous matches Some(p) ==> is_of_rank(r.groups.last(), types, p)
            &&& forall|g: int, x: int, y: int|
                0 <= g < r.groups.len() && 0 <= x < r.groups[g].len() && 0 <= y < r.groups[g].len()
                    ==> rank(#[trigger] r.groups[g][x], types) == rank(
                    #[trigger] r.groups[g][y],
                    types,
                )
            &&& forall|i: int|
                0 <= i < n && #[trigger] rank(members[i], types) == rank(members[i + 1], types)
                    ==> exists|g: int|
                    0 <= g < r.groups.len() && (#[trigger] r.groups[g]).contains(members[i])
        }),
    decreases n,
{
    if n > 0 {
        lemma_runs(members, types, n - 1);
        let before = runs(members, types, n - 1);
        let r = runs(members, types, n);
        let m = members[n - 1];
        let current = rank(m, types);
        let last = before.groups.len() - 1;
        if before.previous == Some(current) {
            let grown = before.groups.last().push(m);
            assert(r.groups =~= before.groups.drop_last().push(grown));
            assert(is_of_rank(grown, types, current)) by {
                assert forall|k: int| 0 <= k < grown.len() implies rank(
                    #[trigger] grown[k],
                    types,
                ) == current by {
                    if k < grown.len() - 1 {
                        assert(grown[k] == before.groups.last()[k]);
                    }
                }
            }
            assert(grown.contains(m)) by {
                assert(grown[grown.len() - 1] == m);
            }
            assert forall|g: int, x: int, y: int|
                0 <= g < r.groups.len() && 0 <= x < r.groups[g].len() && 0 <= y
                    < r.groups[g].len() implies rank(#[trigger] r.groups[g][x], types) == rank(
                #[trigger] r.groups[g][y],
                types,
            ) by {
                if g < last {
                    assert(r.groups[g] == before.groups[g]);
                    assert(rank(before.groups[g][x], types) == rank(before.groups[g][y], types));
                } else {
                    assert(r.groups[g] == grown);
                }
            }
            assert forall|i: int|
                0 <= i < n && #[trigger] rank(members[i], types) == rank(
                    members[i + 1],
                    types,
                ) implies exists|g: int|
                0 <= g < r.groups.len() && (#[trigger] r.groups[g]).contains(members[i]) by {
                if i == n - 1 {
                    assert(r.groups[last].contains(m));
                } else {
                    let g = choose|g: int|
                        0 <= g < before.groups.len() && (#[trigger] before.groups[g]).contains(
                            members[i],
                        );
                    if g == last {
                        let k = choose|k: int|
                            0 <= k < before.groups[g].len() && before.groups[g][k] == members[i];
                        assert(grown[k] == members[i]);
                        assert(r.groups[last].contains(members[i]));
                    } else {
                        assert(r.groups[g] == before.groups[g]);
                    }
                }
            }
        } else if current == rank(members[n], types) {
            let one = seq![m];
            assert(one.contains(m)) by {
                assert(one[0] == m);
            }
            assert(r.groups[last + 1] == one);
            assert forall|g: int| 0 <= g <= last implies #[trigger] r.groups[g]
                == before.groups[g] by {}
            assert forall|i: int|
                0 <= i < n && #[trigger] rank(members[i], types) == rank(
                    members[i + 1],
                    types,
                ) implies exists|g: int|
                0 <= g < r.groups.len() && (#[trigger] r.groups[g]).contains(members[i]) by {
                if i == n - 1 {
                    assert(r.groups[last + 1].contains(m));
                } else {
                    let g = choose|g: int|
                        0 <= g < before.groups.len() && (#[trigger] before.groups[g]).contains(
                            members[i],
                        );
                    assert(r.groups[g].contains(members[i]));
                }
            }
            assert forall|g: int, x: int, y: int|
                0 <= g < r.groups.len() && 0 <= x < r.groups[g].len() && 0 <= y
                    < r.groups[g].len() implies rank(#[trigger] r.groups[g][x], types) == rank(
                #[trigger] r.groups[g][y],
                types,
            ) by {
                if g <= last {
                    assert(rank(before.groups[g][x], types) == rank(before.groups[g][y], types));
                }
            }
        }
    }
}

/// A list of types alone is an order by these types, with names as they are written and no regard
/// to what is optional. Where no types are said, the default ones count.
pub proof fn law_orders_that_say_less(
    members: Seq<Member>,
    types: Vec<MemberTypeGroup>,
    default_types: Vec<MemberTypeGroup>,
    sorted: SortedOrderConfig,
)
    requires
        group_views(default_types@) == default_groups(),
    ensures
        member_reports(members, OrderConfig::MemberTypes(types)) == member_reports(
            members,
            OrderConfig::Sorted(
                SortedOrderConfig {
                    member_types: Some(MemberTypesOption::Types(types)),
                    optionality_order: None,
                    order: Order::AsWritten,
                },
            ),
        ),
        member_reports(
            members,
            OrderConfig::Sorted(SortedOrderConfig { member_types: None, ..sorted }),
        ) == member_reports(
            members,
            OrderConfig::Sorted(
                SortedOrderConfig {
                    member_types: Some(MemberTypesOption::Types(default_types)),
                    ..sorted
                },
            ),
        ),
        member_reports(members, OrderConfig::MemberTypes(types)) == walk(
            members,
            group_views(types@),
        ).reports,
{
}

/// The same rule with one order for all constructs.
pub open spec fn with_default(config: OrderConfig) -> MemberOrdering {
    MemberOrdering(
        Box::new(
            MemberOrderingOptions {
                default: config,
                classes: None,
                class_expressions: None,
                interfaces: None,
                type_literals: None,
            },
        ),
    )
}

/// An order of its own counts for a construct as if it were the one for all; without one, the one
/// for all counts. No other node is looked at.
pub proof fn law_constructs_have_their_own_orders(
    rule: MemberOrdering,
    class: Class,
    signatures: Vec<Signature>,
    kind: AstKind,
)
    ensures
        rule.spec_run(AstKind::Class(&class)) == with_default(
            match (class.class_type, rule.0.classes, rule.0.class_expressions) {
                (ClassType::ClassDeclaration, Some(config), _) => config,
                (ClassType::ClassExpression, _, Some(config)) => config,
                _ => rule.0.default,
            },
        ).spec_run(AstKind::Class(&class)),
        rule.spec_run(AstKind::InterfaceDeclaration(&signatures)) == with_default(
            match rule.0.interfaces {
                Some(config) => config,
                None => rule.0.default,
            },
        ).spec_run(AstKind::InterfaceDeclaration(&signatures)),
        rule.spec_run(AstKind::TypeLiteral(&signatures)) == with_default(
            match rule.0.type_literals {
                Some(config) => config,
                None => rule.0.default,
            },
        ).spec_run(AstKind::TypeLiteral(&signatures)),
        with_default(rule.0.default).spec_run(AstKind::InterfaceDeclaration(&signatures))
            == with_default(rule.0.default).spec_run(AstKind::TypeLiteral(&signatures)),
        !(kind is Class) && !(kind is InterfaceDeclaration) && !(kind is TypeLiteral)
            ==> rule.spec_run(kind).len() == 0,
{
}

/// Every element of a construct is a member, in its place.
pub proof fn law_every_element_is_a_member(class: Class, signatures: Seq<Signature>, i: int)
    ensures
        members_of_class(class).len() == class.body@.len(),
        0 <= i < class.body@.len() ==> members_of_class(class)[i] == class_member(class.body@[i]),
        members_of_signatures(signatures).len() == signatures.len(),
        0 <= i < signatures.len() ==> members_of_signatures(signatures)[i] == signature_member(
            signatures[i],
        ),
{
}

/// How far a member can be seen: a private name tells it, else the modifier, else it is public.
pub open spec fn seen(accessibility: Option<Accessibility>, private: bool) -> Seq<char> {
    if private {
        "#private"@
    } else if accessibility == Some(Accessibility::Private) {
        "private"@
    } else if accessibility == Some(Accessibility::Protected) {
        "protected"@
    } else {
        "public"@
    }
}

/// The types of a method, an accessor or a field that is not read-only, from the narrowest to the
/// widest: decorated ones first, then by what they belong to, then by how far they can be seen.
pub proof fn law_types_from_the_narrowest(
    kind: Seq<char>,
    accessibility: Option<Accessibility>,
    private: bool,
    is_static: bool,
    is_abstract: bool,
)
    requires
        kind == "field"@ || kind == "method"@ || kind == "accessor"@ || kind == "get"@ || kind
            == "set"@,
    ensures
        ({
            let access = seen(accessibility, private);
            let scope = if is_static {
                "static"@
            } else if is_abstract {
                "abstract"@
            } else {
                "instance"@
            };
            let plain = types_of(kind, accessibility, private, is_static, is_abstract, false);
            &&& plain == seq![
                access + "-"@ + scope + "-"@ + kind,
                scope + "-"@ + kind,
                access + "-"@ + kind,
                kind,
            ]
            &&& types_of(kind, accessibility, private, is_static, is_abstract, true) == seq![
                access + "-"@ + "decorated"@ + "-"@ + kind,
                "decorated"@ + "-"@ + kind,
            ] + plain
        }),
{
    lemma_kinds_differ();
    assert(is_other_kind(kind));
    let access = seen(accessibility, private);
    let plain = types_of(kind, accessibility, private, is_static, is_abstract, false);
    let scope = if is_static {
        "static"@
    } else if is_abstract {
        "abstract"@
    } else {
        "instance"@
    };
    assert(plain =~= seq![
        access + "-"@ + scope + "-"@ + kind,
        scope + "-"@ + kind,
        access + "-"@ + kind,
        kind,
    ]);
    let decorated = types_of(kind, accessibility, private, is_static, is_abstract, true);
    assert(decorated =~= seq![
        access + "-"@ + "decorated"@ + "-"@ + kind,
        "decorated"@ + "-"@ + kind,
    ] + plain);
}

/// The kinds are different words.
proof fn lemma_kinds_differ()
    ensures
        forall|kind: Seq<char>|
            kind == "field"@ || kind == "method"@ || kind == "accessor"@ || kind == "get"@ || kind
                == "set"@ ==> #[trigger] is_other_kind(kind),
        !is_other_kind("constructor"@),
        "constructor"@ != "readonly-signature"@,
        "constructor"@ != "signature"@,
        "constructor"@ != "static-initialization"@,
        "constructor"@ != "readonly-field"@,
        !super::names::can_be_decorated("constructor"@),
{
    reveal_strlit("readonly-signature");
    reveal_strlit("signature");
    reveal_strlit("static-initialization");
    reveal_strlit("readonly-field");
    reveal_strlit("constructor");
    reveal_strlit("field");
    reveal_strlit("method");
    reveal_strlit("accessor");
    reveal_strlit("get");
    reveal_strlit("set");
    assert("readonly-signature"@.len() == 18);
    assert("signature"@.len() == 9);
    assert("static-initialization"@.len() == 21);
    assert("readonly-field"@.len() == 14);
    assert("constructor"@.len() == 11);
    assert("field"@.len() == 5);
    assert("method"@.len() == 6);
    assert("accessor"@.len() == 8);
    assert("get"@.len() == 3);
    assert("set"@.len() == 3);
}

/// A kind that says how far it can be seen and what it belongs to, and is not read-only.
pub open spec fn is_other_kind(kind: Seq<char>) -> bool {
    &&& kind != "readonly-signature"@
    &&& kind != "signature"@
    &&& kind != "static-initialization"@
    &&& kind != "readonly-field"@
    &&& kind != "constructor"@
}

/// A constructor belongs to the class itself, and cannot be decorated.
pub proof fn law_types_of_a_constructor(
    accessibility: Option<Accessibility>,
    is_static: bool,
    is_abstract: bool,
    decorated: bool,
)
    ensures
        types_of("constructor"@, accessibility, false, is_static, is_abstract, decorated) == seq![
            seen(accessibility, false) + "-"@ + "constructor"@,
            "constructor"@,
        ],
{
    lemma_kinds_differ();
    let found = types_of("constructor"@, accessibility, false, is_static, is_abstract, decorated);
    assert(found =~= seq![
        seen(accessibility, false) + "-"@ + "constructor"@,
        "constructor"@,
    ]);
}

/// A read-only field is of each type of a read-only field and of each type of a field, with that of
/// a read-only field first where the rest is the same.
pub proof fn law_types_of_a_readonly_field(
    accessibility: Option<Accessibility>,
    private: bool,
    is_static: bool,
    is_abstract: bool,
)
    ensures
        ({
            let access = seen(accessibility, private);
            let scope = if is_static {
                "static"@
            } else if is_abstract {
                "abstract"@
            } else {
                "instance"@
            };
            types_of("readonly-field"@, accessibility, private, is_static, is_abstract, false)
                == seq![
                access + "-"@ + scope + "-"@ + "readonly-field"@,
                scope + "-"@ + "readonly-field"@,
                access + "-"@ + scope + "-"@ + "field"@,
                scope + "-"@ + "field"@,
                access + "-"@ + "readonly-field"@,
                access + "-"@ + "field"@,
                "readonly-field"@,
                "field"@,
            ]
        }),
{
    reveal_strlit("readonly-signature");
    reveal_strlit("signature");
    reveal_strlit("static-initialization");
    reveal_strlit("readonly-field");
    reveal_strlit("constructor");
    assert("constructor"@[0] == 'c');
    assert("signature"@[0] == 's');
    assert("readonly-field"@[0] == 'r');
    let access = seen(accessibility, private);
    let scope = if is_static {
        "static"@
    } else if is_abstract {
        "abstract"@
    } else {
        "instance"@
    };
    let found = types_of(
        "readonly-field"@,
        accessibility,
        private,
        is_static,
        is_abstract,
        false,
    );
    assert(found =~= seq![
        access + "-"@ + scope + "-"@ + "readonly-field"@,
        scope + "-"@ + "readonly-field"@,
        access + "-"@ + scope + "-"@ + "field"@,
        scope + "-"@ + "field"@,
        access + "-"@ + "readonly-field"@,
        access + "-"@ + "field"@,
        "readonly-field"@,
        "field"@,
    ]);
}

/// A property that holds a function is of the types of a method, read-only or not; one that does
/// not is a field, read-only or not.
pub proof fn law_properties_with_functions_are_methods(
    property: PropertyDefinition,
    method: MethodDefinition,
)
    requires
        method.kind == MethodDefinitionKind::Method,
        method.key == property.key,
        method.accessibility == property.accessibility,
        method.is_static == property.is_static,
        method.is_abstract == property.is_abstract,
        method.decorators == property.decorators,
    ensures
        ({
            let types = |kind: Seq<char>|
                types_of(
                    kind,
                    property.accessibility,
                    property.key is PrivateIdentifier,
                    property.is_static,
                    property.is_abstract,
                    property.decorators@.len() > 0,
                );
            let holds = property.value matches Some(value) && (value is Function || value is Arrow);
            let member = property_member(property);
            &&& holds ==> member.candidates == method_member(method).candidates
            &&& !holds && property.readonly ==> member.candidates == types("readonly-field"@)
            &&& !holds && !property.readonly ==> member.candidates == types("field"@)
            &&& method_member(method).candidates == types("method"@)
        }),
{
}

/// A member has the place of its element, and is optional if that is. A method without a body is
/// left out of the order of types, and nothing else is.
pub proof fn law_members_are_where_their_elements_are(
    method: MethodDefinition,
    property: PropertyDefinition,
    accessor: AccessorProperty,
    signature: PropertySignature,
    function: MethodSignature,
)
    ensures
        ({
            let m = class_member(ClassElement::MethodDefinition(method));
            &&& m.span == method.span
            &&& m.optional == method.optional
            &&& m.ignored_for_rank == (method.value.body is None)
            &&& m.name == (if method.kind == MethodDefinitionKind::Constructor {
                Some("constructor"@)
            } else {
                key_text(method.key)
            })
        }),
        ({
            let m = class_member(ClassElement::PropertyDefinition(property));
            &&& m.span == property.span
            &&& m.optional == property.optional
            &&& !m.ignored_for_rank
            &&& m.name == key_text(property.key)
        }),
        ({
            let m = class_member(ClassElement::AccessorProperty(accessor));
            &&& m.span == accessor.span
            &&& !m.optional
            &&& !m.ignored_for_rank
            &&& m.name == key_text(accessor.key)
        }),
        ({
            let m = signature_member(Signature::Property(signature));
            &&& m.span == signature.span
            &&& m.optional == signature.optional
            &&& !m.ignored_for_rank
            &&& m.name == key_text(signature.key)
            &&& signature.readonly ==> m.candidates == seq!["readonly-field"@, "field"@]
            &&& !signature.readonly ==> m.candidates == seq!["field"@]
        }),
        ({
            let m = signature_member(Signature::Method(function));
            &&& m.span == function.span
            &&& m.optional == function.optional
            &&& !m.ignored_for_rank
            &&& m.name == key_text(function.key)
            &&& function.kind == MethodSignatureKind::Method ==> m.candidates == seq!["method"@]
            &&& function.kind == MethodSignatureKind::Getter ==> m.candidates == seq!["get"@]
            &&& function.kind == MethodSignatureKind::Setter ==> m.candidates == seq!["set"@]
        }),
{
}

/// The text of a key, where there is one.
pub open spec fn key_text(key: PropertyKey) -> Option<Seq<char>> {
    match key {
        PropertyKey::StaticIdentifier(name) => Some(name@),
        PropertyKey::PrivateIdentifier(name) => Some(name@),
        PropertyKey::Expression(key) => match key.static_name {
            Some(name) => Some(name@),
            None => None,
        },
    }
}

/// Two members of one group, one after the other, follow each other in a run, unless the second is
/// the last of all.
pub proof fn law_neighbours_follow_each_other_in_a_run(
    members: Seq<Member>,
    types: Seq<Seq<Seq<char>>>,
    i: int,
)
    requires
        0 <= i,
        i + 1 < members.len() - 1,
        rank(members[i], types) == rank(members[i + 1], types),
    ensures
        follow_in_a_run(type_runs(members, types), members[i], members[i + 1]),
{
    lemma_pairs(members, types, i, members.len() - 1);
}

/// Two members follow each other in one of the runs.
pub open spec fn follow_in_a_run(runs: Seq<Seq<Member>>, a: Member, b: Member) -> bool {
    exists|g: int, k: int| is_pair(runs, g, k, a, b)
}

/// Two members follow each other in run `g`, from `k` on.
pub open spec fn is_pair(runs: Seq<Seq<Member>>, g: int, k: int, a: Member, b: Member) -> bool {
    &&& 0 <= g < runs.len()
    &&& 0 <= k
    &&& k + 1 < runs[g].len()
    &&& runs[g][k] == a
    &&& runs[g][k + 1] == b
}

proof fn lemma_pairs(members: Seq<Member>, types: Seq<Seq<Seq<char>>>, i: int, n: int)
    requires
        0 <= i,
        i + 2 <= n < members.len(),
        rank(members[i], types) == rank(members[i + 1], types),
    ensures
        follow_in_a_run(runs(members, types, n).groups, members[i], members[i + 1]),
    decreases n,
{
    let a = members[i];
    let b = members[i + 1];
    if n == i + 2 {
        let zero = runs(members, types, i);
        let one = runs(members, types, i + 1);
        let two = runs(members, types, i + 2);
        lemma_runs(members, types, i);
        lemma_runs(members, types, i + 1);
        assert(one.previous == Some(rank(a, types)));
        assert(one.groups.len() > 0);
        assert(one.groups.last().len() > 0 && one.groups.last().last() == a) by {
            if zero.previous == Some(rank(a, types)) {
                assert(one.groups =~= zero.groups.drop_last().push(zero.groups.last().push(a)));
            }
        }
        let g = one.groups.len() - 1;
        let k = one.groups.last().len() - 1;
        let grown = one.groups.last().push(b);
        assert(two.groups =~= one.groups.drop_last().push(grown));
        assert(is_pair(two.groups, g, k, a, b));
    } else {
        lemma_pairs(members, types, i, n - 1);
        lemma_runs(members, types, n - 1);
        let before = runs(members, types, n - 1);
        let after = runs(members, types, n);
        let (g, k) = choose|g: int, k: int| is_pair(before.groups, g, k, a, b);
        let m = members[n - 1];
        if before.previous == Some(rank(m, types)) {
            let grown = before.groups.last().push(m);
            assert(after.groups =~= before.groups.drop_last().push(grown));
            if g == before.groups.len() - 1 {
                assert(after.groups[g] == grown);
            } else {
                assert(after.groups[g] == before.groups[g]);
            }
        }
        assert(is_pair(after.groups, g, k, a, b));
    }
}

/// The types of a member with all that is written of it, from the narrowest to the widest.
pub open spec fn types_told(
    kind: Seq<char>,
    accessibility: Option<Accessibility>,
    key: PropertyKey,
    is_static: bool,
    is_abstract: bool,
    decorated: bool,
) -> Seq<Seq<char>> {
    let access = seen(accessibility, key is PrivateIdentifier);
    let scope = if is_static {
        "static"@
    } else if is_abstract {
        "abstract"@
    } else {
        "instance"@
    };
    let plain = seq![
        access + "-"@ + scope + "-"@ + kind,
        scope + "-"@ + kind,
        access + "-"@ + kind,
        kind,
    ];
    if decorated {
        seq![access + "-"@ + "decorated"@ + "-"@ + kind, "decorated"@ + "-"@ + kind] + plain
    } else {
        plain
    }
}

/// The types of methods, getters, setters, accessors and fields come of what is written with them.
pub proof fn law_types_come_of_what_is_written(
    method: MethodDefinition,
    property: PropertyDefinition,
    accessor: AccessorProperty,
)
    ensures
        ({
            let told = |kind: Seq<char>|
                types_told(
                    kind,
                    method.accessibility,
                    method.key,
                    method.is_static,
                    method.is_abstract,
                    method.decorators@.len() > 0,
                );
            let types = class_member(ClassElement::MethodDefinition(method)).candidates;
            &&& method.kind == MethodDefinitionKind::Method ==> types == told("method"@)
            &&& method.kind == MethodDefinitionKind::Getter ==> types == told("get"@)
            &&& method.kind == MethodDefinitionKind::Setter ==> types == told("set"@)
        }),
        ({
            let holds = property.value matches Some(value) && (value is Function || value is Arrow);
            !property.readonly || holds ==> class_member(
                ClassElement::PropertyDefinition(property),
            ).candidates == types_told(
                if holds {
                    "method"@
                } else {
                    "field"@
                },
                property.accessibility,
                property.key,
                property.is_static,
                property.is_abstract,
                property.decorators@.len() > 0,
            )
        }),
        class_member(ClassElement::AccessorProperty(accessor)).candidates == types_told(
            "accessor"@,
            accessor.accessibility,
            accessor.key,
            accessor.is_static,
            accessor.is_abstract,
            accessor.decorators@.len() > 0,
        ),
{
    let p = method.key is PrivateIdentifier;
    let q = property.key is PrivateIdentifier;
    let r = accessor.key is PrivateIdentifier;
    law_types_from_the_narrowest(
        "method"@,
        method.accessibility,
        p,
        method.is_static,
        method.is_abstract,
    );
    law_types_from_the_narrowest(
        "get"@,
        method.accessibility,
        p,
        method.is_static,
        method.is_abstract,
    );
    law_types_from_the_narrowest(
        "set"@,
        method.accessibility,
        p,
        method.is_static,
        method.is_abstract,
    );
    law_types_from_the_narrowest(
        "field"@,
        property.accessibility,
        q,
        property.is_static,
        property.is_abstract,
    );
    law_types_from_the_narrowest(
        "method"@,
        property.accessibility,
        q,
        property.is_static,
        property.is_abstract,
    );
    law_types_from_the_narrowest(
        "accessor"@,
        accessor.accessibility,
        r,
        accessor.is_static,
        accessor.is_abstract,
    );
}

/// An index signature is named by its parameter and is the same member in a class as in an
/// interface; one that is read-only is a signature as well. Calls, constructors and static blocks
/// have names and types of their own.
pub proof fn law_members_without_keys(index: IndexSignature, span: Span, block: StaticBlock)
    ensures
        ({
            let m = signature_member(Signature::Index(index));
            &&& class_member(ClassElement::IndexSignature(index)) == m
            &&& m.span == index.span
            &&& !m.optional && !m.ignored_for_rank
            &&& m.name is Some <==> index.parameter is Some
            &&& index.parameter matches Some(parameter) ==> m.name == Some(parameter@)
            &&& m.candidates.last() == "signature"@
            &&& m.candidates.len() == (if index.readonly {
                2int
            } else {
                1int
            })
            &&& index.readonly ==> m.candidates[0] == "readonly-signature"@
        }),
        ({
            let m = signature_member(Signature::Call(span));
            &&& m.span == span && m.name == Some("call"@) && !m.optional && !m.ignored_for_rank
            &&& m.candidates == seq!["call-signature"@]
        }),
        ({
            let m = signature_member(Signature::Construct(span));
            &&& m.span == span && m.name == Some("new"@) && !m.optional && !m.ignored_for_rank
            &&& m.candidates == seq!["constructor"@]
        }),
        ({
            let m = class_member(ClassElement::StaticBlock(block));
            &&& m.span == block.span && m.name == Some("static block"@)
            &&& !m.optional && !m.ignored_for_rank
            &&& m.candidates == seq!["static-initialization"@]
        }),
{
}

/// A report stands at the member and names it, and what it should come before or after: the
/// group that comes later, the name that comes later, or the members of the side that comes first.
pub proof fn law_what_is_reported(m: Member, shown_group: Seq<char>, previous: Seq<char>)
    requires
        m.name is Some,
    ensures
        ({
            let name = m.name->0;
            let r = group_report(m, shown_group);
            &&& r.span == m.span && r.help is None
            &&& r.message == "Member "@ + name + " should be declared before all "@ + shown_group
                + " definitions."@
        }),
        ({
            let name = m.name->0;
            let r = name_report(m.span, name, previous);
            &&& r.span == m.span && r.help is None
            &&& r.message == "Member "@ + name + " should be declared before member "@ + previous
                + "."@
        }),
        ({
            let name = m.name->0;
            let r = optionality_report(m, OptionalityOrder::RequiredFirst);
            let s = optionality_report(m, OptionalityOrder::OptionalFirst);
            &&& r.span == m.span && r.help is None && s.span == m.span && s.help is None
            &&& r.message == "Member "@ + name + " should be declared after all "@ + "required"@
                + " members."@
            &&& s.message == "Member "@ + name + " should be declared after all "@ + "optional"@
                + " members."@
        }),
{
}

} // verus!

//! What holds of the rule as a whole.

use super::checks::{
    group_report, into_last, lowest_rank, member_reports, name_reports, order_reports, rank,
    switch_from, walk, walk_on,
};
use super::config::{Order, OrderConfig, normalized, shown_list};
use super::members::Member;
use crate::lint::Report;
use vstd::prelude::*;

verus! {

/// The members that belong to a group.
pub open spec fn ranked(members: Seq<Member>, types: Seq<Seq<Seq<char>>>) -> Seq<Member>
    decreases members.len(),
{
    if members.len() == 0 {
        Seq::empty()
    } else {
        let before = ranked(members.drop_last(), types);
        if rank(members.last(), types) is Some {
            before.push(members.last())
        } else {
            before
        }
    }
}

/// Whether a member comes after one of a later group.
pub open spec fn is_late(members: Seq<Member>, types: Seq<Seq<Seq<char>>>, j: int) -> bool {
    exists|i: int|
        0 <= i < j && comes_before(#[trigger] rank(members[i], types), rank(members[j], types))
}

/// Whether the first rank is that of a later group than the second.
pub open spec fn comes_before(a: Option<int>, b: Option<int>) -> bool {
    match (a, b) {
        (Some(a), Some(b)) => b < a,
        _ => false,
    }
}

/// The last rank of a walk is the highest of all, and there is one where a member has a rank.
pub(crate) proof fn lemma_walk(members: Seq<Member>, types: Seq<Seq<Seq<char>>>)
    ensures
        ({
            let w = walk(members, types);
            &&& w.ranks.len() == w.groups.len()
            &&& forall|i: int|
                0 <= i < members.len() ==> (#[trigger] rank(members[i], types) matches Some(r)
                    ==> w.ranks.len() > 0 && r <= w.ranks.last())
            &&& w.ranks.len() > 0 ==> exists|i: int|
                0 <= i < members.len() && #[trigger] rank(members[i], types) == Some(w.ranks.last())
        }),
    decreases members.len(),
{
    if members.len() > 0 {
        let rest = members.drop_last();
        lemma_walk(rest, types);
        let before = walk(rest, types);
        let w = walk(members, types);
        let n = members.len() - 1;
        assert(w == walk_on(before, members.last(), types));
        assert(members[n] == members.last());
        if before.ranks.len() > 0 {
            let i = choose|i: int|
                0 <= i < rest.len() && #[trigger] rank(rest[i], types) == Some(before.ranks.last());
            assert(rank(members[i], types) == Some(before.ranks.last()));
        }
        assert forall|i: int| 0 <= i < members.len() implies (#[trigger] rank(
            members[i],
            types,
        ) matches Some(r) ==> w.ranks.len() > 0 && r <= w.ranks.last()) by {
            if i < n {
                assert(rank(rest[i], types) == rank(members[i], types));
            }
        }
        if w.ranks.len() > 0 {
            assert(rank(members[n], types) == rank(members.last(), types));
        }
    }
}

/// A member is reported for its group exactly where a member before it is of a later group, once,
/// and after all reports on members before it.
pub proof fn law_late_members_are_reported(
    members: Seq<Member>,
    m: Member,
    types: Seq<Seq<Seq<char>>>,
)
    ensures
        ({
            let before = walk(members, types);
            let after = walk(members.push(m), types);
            if is_late(members.push(m), types, members.len() as int) {
                exists|low: int|
                    after.reports == before.reports.push(
                        group_report(m, shown_list(#[trigger] types[low])),
                    )
            } else {
                after.reports == before.reports
            }
        }),
{
    let all = members.push(m);
    assert(all.drop_last() =~= members);
    let before = walk(members, types);
    lemma_walk(members, types);
    let n = members.len() as int;
    if is_late(all, types, n) {
        let i = choose|i: int|
            0 <= i < n && comes_before(#[trigger] rank(all[i], types), rank(all[n], types));
        assert(rank(members[i], types) == rank(all[i], types));
        let low = lowest_rank(before.ranks, rank(m, types)->0);
        assert(walk(all, types).reports == before.reports.push(
            group_report(m, shown_list(types[low])),
        ));
    } else if before.ranks.len() > 0 && rank(m, types) is Some {
        let i = choose|i: int|
            0 <= i < members.len() && #[trigger] rank(members[i], types) == Some(
                before.ranks.last(),
            );
        assert(rank(all[i], types) == rank(members[i], types));
        assert(!comes_before(rank(all[i], types), rank(all[n], types)));
    }
}

/// No member is reported for its group exactly where the groups of the members come in their
/// order.
pub proof fn law_sorted_groups_are_not_reported(members: Seq<Member>, types: Seq<Seq<Seq<char>>>)
    ensures
        walk(members, types).reports.len() == 0 <==> forall|j: int|
            0 <= j < members.len() ==> !#[trigger] is_late(members, types, j),
    decreases members.len(),
{
    if members.len() > 0 {
        let rest = members.drop_last();
        let m = members.last();
        let n = rest.len() as int;
        law_sorted_groups_are_not_reported(rest, types);
        law_late_members_are_reported(rest, m, types);
        assert(rest.push(m) =~= members);
        assert forall|j: int| 0 <= j < n implies #[trigger] is_late(members, types, j) == is_late(
            rest,
            types,
            j,
        ) by {
            if is_late(members, types, j) {
                let i = choose|i: int|
                    0 <= i < j && comes_before(
                        #[trigger] rank(members[i], types),
                        rank(members[j], types),
                    );
                assert(comes_before(rank(rest[i], types), rank(rest[j], types)));
            }
            if is_late(rest, types, j) {
                let i = choose|i: int|
                    0 <= i < j && comes_before(
                        #[trigger] rank(rest[i], types),
                        rank(rest[j], types),
                    );
                assert(comes_before(rank(members[i], types), rank(members[j], types)));
            }
        }
        if walk(members, types).reports.len() == 0 {
            assert(walk(rest, types).reports.len() == 0);
            assert(!is_late(members, types, n));
        } else if walk(rest, types).reports.len() != 0 {
            let j = choose|j: int| 0 <= j < rest.len() && #[trigger] is_late(rest, types, j);
            assert(is_late(members, types, j));
        } else {
            assert(is_late(members, types, n));
        }
    }
}

/// Where no member is reported for its group, the groups hold the members that belong to one, each
/// once and in their order.
pub proof fn law_groups_hold_the_ranked_members(members: Seq<Member>, types: Seq<Seq<Seq<char>>>)
    requires
        walk(members, types).reports.len() == 0,
    ensures
        walk(members, types).groups.flatten() == ranked(members, types),
    decreases members.len(),
{
    let w = walk(members, types);
    if members.len() == 0 {
        assert(w.groups.flatten() =~= ranked(members, types));
    } else {
        let rest = members.drop_last();
        let m = members.last();
        let before = walk(rest, types);
        assert(w == walk_on(before, m, types));
        law_groups_hold_the_ranked_members(rest, types);
        lemma_walk(rest, types);
        before.groups.lemma_flatten_and_flatten_alt_are_equivalent();
        w.groups.lemma_flatten_and_flatten_alt_are_equivalent();
        if rank(m, types) is Some {
            if before.ranks.len() > 0 && rank(m, types)->0 == before.ranks.last() {
                let groups = into_last(before.groups, m);
                assert(groups.drop_last() =~= before.groups.drop_last());
                assert(groups.last() == before.groups.last().push(m));
                assert(before.groups.drop_last().flatten_alt() + before.groups.last().push(m)
                    =~= (before.groups.drop_last().flatten_alt() + before.groups.last()).push(m));
            } else {
                assert(w.groups.drop_last() =~= before.groups);
                assert(before.groups.flatten_alt() + seq![m] =~= before.groups.flatten_alt().push(m));
            }
        }
    }
}

/// An order that is switched off reports nothing.
pub proof fn law_never_reports_nothing(members: Seq<Member>, config: OrderConfig)
    requires
        config is Never,
    ensures
        member_reports(members, config) == Seq::<Report>::empty(),
{
}

/// Where names stay as written, no name is reported.
pub proof fn law_names_as_written_are_not_reported(members: Seq<Member>)
    ensures
        name_reports(members, Order::AsWritten) == Seq::<Report>::empty(),
    decreases members.len(),
{
    if members.len() > 0 {
        law_names_as_written_are_not_reported(members.drop_last());
    }
}

/// Where all members are optional, or all are required, it makes no difference which come first.
pub proof fn law_one_side_has_no_order(members: Seq<Member>, config: OrderConfig)
    requires
        !(config is Never),
        forall|i: int, j: int|
            0 <= i < members.len() && 0 <= j < members.len() ==> (#[trigger] members[i]).optional
                == (#[trigger] members[j]).optional,
    ensures
        member_reports(members, config) == order_reports(members, normalized(config)->0),
{
    lemma_no_switch(members, 1);
}

/// Where all members are optional, or all are required, they do not change.
proof fn lemma_no_switch(members: Seq<Member>, from: int)
    requires
        forall|i: int, j: int|
            0 <= i < members.len() && 0 <= j < members.len() ==> (#[trigger] members[i]).optional
                == (#[trigger] members[j]).optional,
    ensures
        switch_from(members, from) is None,
    decreases members.len() - from,
{
    if 1 <= from < members.len() {
        assert(members[from].optional == members[from - 1].optional);
        lemma_no_switch(members, from + 1);
    }
}

} // verus!

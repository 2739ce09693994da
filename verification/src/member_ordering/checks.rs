//! Where members are out of order.

use super::collation::{natural_out_of_order, out_of_order};
use super::config::{
    MemberTypeGroup, Normalized, NormalizedOrderConfig, OptionalityOrder, Order, OrderConfig,
    group_views, normalized, shown_list,
};
use super::members::{Member, MemberInfo, member_views};
use crate::ast::Span;
use crate::lint::{Diagnostic, Report, reports};
use crate::text::concat3;
use vstd::prelude::*;

verus! {

/// The name of a member, or nothing.
pub open spec fn name_or_empty(m: Member) -> Seq<char> {
    match m.name {
        Some(name) => name,
        None => Seq::empty(),
    }
}

/// The report on a member that comes after members of a later group.
pub open spec fn group_report(m: Member, rank: Seq<char>) -> Report {
    Report {
        message: "Member "@ + name_or_empty(m) + " should be declared before all "@ + rank
            + " definitions."@,
        help: None,
        span: m.span,
    }
}

/// The report on a member whose name should come before that of another.
pub open spec fn name_report(span: Span, name: Seq<char>, previous: Seq<char>) -> Report {
    Report {
        message: "Member "@ + name + " should be declared before member "@ + previous + "."@,
        help: None,
        span,
    }
}

/// The report on a member that is on the wrong side of the optional or the required ones.
pub open spec fn optionality_report(m: Member, order: OptionalityOrder) -> Report {
    let word = match order {
        OptionalityOrder::RequiredFirst => "required"@,
        OptionalityOrder::OptionalFirst => "optional"@,
    };
    Report {
        message: "Member "@ + name_or_empty(m) + " should be declared after all "@ + word
            + " members."@,
        help: None,
        span: m.span,
    }
}

/// A report with a sentence about two words.
fn sentence(span: Span, member: &str, middle: &str, other: &str, end: &str) -> (r: Diagnostic)
    ensures
        r@ == (Report {
            message: "Member "@ + member@ + middle@ + other@ + end@,
            help: None,
            span,
        }),
{
    let start = concat3("Member ", member, middle);
    Diagnostic { message: concat3(start.as_str(), other, end), help: None, span }
}

/// Adds a report.
fn report(out: &mut Vec<Diagnostic>, diagnostic: Diagnostic)
    ensures
        reports(final(out)@) == reports(old(out)@).push(diagnostic@),
{
    let ghost before = out@;
    out.push(diagnostic);
    proof {
        assert(reports(out@) =~= reports(before).push(diagnostic@));
    }
}

/// The name of a member, or nothing.
fn name_of<'a>(member: &MemberInfo<'a>) -> (r: &'a str)
    ensures
        r@ == name_or_empty(member@),
{
    match member.name {
        Some(name) => name,
        None => {
            proof {
                reveal_strlit("");
                assert(""@ =~= Seq::<char>::empty());
            }
            ""
        },
    }
}

/// The first group from `from` on that holds a type.
pub open spec fn group_of(types: Seq<Seq<Seq<char>>>, name: Seq<char>, from: int) -> Option<int>
    decreases types.len() - from,
{
    if 0 <= from < types.len() {
        if types[from].contains(name) {
            Some(from)
        } else {
            group_of(types, name, from + 1)
        }
    } else {
        None
    }
}

/// The group of the first type that has one.
pub open spec fn rank_of(candidates: Seq<Seq<char>>, types: Seq<Seq<Seq<char>>>) -> Option<int>
    decreases candidates.len(),
{
    if candidates.len() == 0 {
        None
    } else {
        match group_of(types, candidates[0], 0) {
            Some(group) => Some(group),
            None => rank_of(candidates.drop_first(), types),
        }
    }
}

/// The group that a member belongs to, if it belongs to any: that of the narrowest of its types
/// that has one.
pub open spec fn rank(m: Member, types: Seq<Seq<Seq<char>>>) -> Option<int> {
    if m.ignored_for_rank {
        None
    } else {
        rank_of(m.candidates, types)
    }
}

/// The first group that holds a type.
fn find_group(member_types: &[MemberTypeGroup], candidate: &str) -> (r: Option<usize>)
    ensures
        group_of(group_views(member_types@), candidate@, 0) == (match r {
            Some(group) => Some(group as int),
            None => None,
        }),
        r matches Some(group) ==> group < member_types@.len(),
{
    let ghost types = group_views(member_types@);
    let mut i: usize = 0;
    while i < member_types.len()
        invariant
            i <= member_types@.len(),
            types == group_views(member_types@),
            group_of(types, candidate@, 0) == group_of(types, candidate@, i as int),
        decreases member_types@.len() - i,
    {
        proof {
            assert(types[i as int] == member_types@[i as int]@);
        }
        if member_types[i].contains(candidate) {
            return Some(i);
        }
        i += 1;
    }
    None
}

/// The group that a member belongs to.
pub fn get_rank(member: &MemberInfo, member_types: &[MemberTypeGroup]) -> (r: Option<usize>)
    ensures
        rank(member@, group_views(member_types@)) == (match r {
            Some(group) => Some(group as int),
            None => None,
        }),
        r matches Some(group) ==> group < member_types@.len(),
{
    if member.ignored_for_rank {
        return None;
    }
    let ghost types = group_views(member_types@);
    let ghost all = member@.candidates;
    let mut i: usize = 0;
    proof {
        assert(all.skip(0) =~= all);
    }
    while i < member.candidates.len()
        invariant
            i <= member.candidates@.len(),
            !member.ignored_for_rank,
            types == group_views(member_types@),
            all == crate::text::views(member.candidates@),
            rank_of(all, types) == rank_of(all.skip(i as int), types),
        decreases member.candidates@.len() - i,
    {
        let candidate = &member.candidates[i];
        proof {
            assert(all.skip(i as int)[0] == candidate@);
            assert(all.skip(i as int).drop_first() =~= all.skip(i + 1));
        }
        let group = find_group(member_types, candidate.as_str());
        if group.is_some() {
            return group;
        }
        i += 1;
    }
    None
}

/// The least of `start` and the ranks above `target`.
pub open spec fn lowest_from(ranks: Seq<int>, target: int, start: int) -> int
    decreases ranks.len(),
{
    if ranks.len() == 0 {
        start
    } else {
        let before = lowest_from(ranks.drop_last(), target, start);
        if target < ranks.last() < before {
            ranks.last()
        } else {
            before
        }
    }
}

/// The lowest rank above `target`, as far as the last rank is above it.
pub open spec fn lowest_rank(ranks: Seq<int>, target: int) -> int {
    lowest_from(
        ranks,
        target,
        if ranks.len() > 0 {
            ranks.last()
        } else {
            target
        },
    )
}

/// Numbers as integers.
pub open spec fn ints(ranks: Seq<usize>) -> Seq<int> {
    ranks.map_values(|r: usize| r as int)
}

/// The lowest rank is `start` or one of the ranks above `target`, and none of those is lower.
proof fn lemma_lowest(ranks: Seq<int>, target: int, start: int)
    ensures
        lowest_from(ranks, target, start) <= start,
        lowest_from(ranks, target, start) == start || exists|i: int|
            0 <= i < ranks.len() && #[trigger] ranks[i] == lowest_from(ranks, target, start)
                && ranks[i] > target,
        forall|i: int|
            0 <= i < ranks.len() && #[trigger] ranks[i] > target ==> lowest_from(
                ranks,
                target,
                start,
            ) <= ranks[i],
    decreases ranks.len(),
{
    if ranks.len() > 0 {
        let before = ranks.drop_last();
        lemma_lowest(before, target, start);
        let low = lowest_from(before, target, start);
        if low != start {
            let i = choose|i: int|
                0 <= i < before.len() && #[trigger] before[i] == low && before[i] > target;
            assert(ranks[i] == low);
        }
        assert forall|i: int| 0 <= i < ranks.len() && #[trigger] ranks[i] > target implies lowest_from(
            ranks,
            target,
            start,
        ) <= ranks[i] by {
            if i < before.len() {
                assert(before[i] == ranks[i]);
            }
        }
        assert(ranks[ranks.len() - 1] == ranks.last());
    }
}

/// Where the last rank is above the target, what is found is the lowest of all the ranks above it.
pub proof fn law_lowest_rank(ranks: Seq<int>, target: int)
    requires
        ranks.len() > 0,
        ranks.last() > target,
    ensures
        ranks.contains(lowest_rank(ranks, target)),
        lowest_rank(ranks, target) > target,
        forall|i: int|
            0 <= i < ranks.len() && #[trigger] ranks[i] > target ==> lowest_rank(ranks, target)
                <= ranks[i],
{
    lemma_lowest(ranks, target, ranks.last());
    assert(ranks[ranks.len() - 1] == ranks.last());
}

/// The lowest rank above `target`, as it is shown.
pub fn get_lowest_rank(ranks: &[usize], target: usize, order: &[MemberTypeGroup]) -> (r: String)
    requires
        lowest_rank(ints(ranks@), target as int) < order@.len(),
    ensures
        r@ == shown_list(group_views(order@)[lowest_rank(ints(ranks@), target as int)]),
{
    let ghost all = ints(ranks@);
    let start = if ranks.len() > 0 {
        ranks[ranks.len() - 1]
    } else {
        target
    };
    let mut lowest: usize = start;
    let mut i: usize = 0;
    proof {
        assert(all.take(0) =~= Seq::empty());
    }
    while i < ranks.len()
        invariant
            i <= ranks@.len(),
            all == ints(ranks@),
            lowest == lowest_from(all.take(i as int), target as int, start as int),
        decreases ranks@.len() - i,
    {
        proof {
            assert(all.take(i + 1).drop_last() =~= all.take(i as int));
            assert(all.take(i + 1).last() == ranks@[i as int]);
        }
        if ranks[i] > target && ranks[i] < lowest {
            lowest = ranks[i];
        }
        i += 1;
    }
    proof {
        assert(all.take(all.len() as int) =~= all);
        assert(group_views(order@)[lowest as int] == order@[lowest as int]@);
    }
    order[lowest].display()
}

/// What is known of a list of members when their groups are looked at one by one.
#[verifier::ext_equal]
pub ghost struct GroupWalk {
    /// The ranks that were higher than all before them.
    pub ranks: Seq<int>,
    /// The members of each of these ranks.
    pub groups: Seq<Seq<Member>>,
    pub reports: Seq<Report>,
}

/// Adds a member to the last group.
pub open spec fn into_last(groups: Seq<Seq<Member>>, m: Member) -> Seq<Seq<Member>> {
    if groups.len() == 0 {
        groups
    } else {
        groups.drop_last().push(groups.last().push(m))
    }
}

/// What is known after one more member.
pub open spec fn walk_on(w: GroupWalk, m: Member, types: Seq<Seq<Seq<char>>>) -> GroupWalk {
    match rank(m, types) {
        None => w,
        Some(r) => if w.ranks.len() > 0 && r < w.ranks.last() {
            GroupWalk {
                reports: w.reports.push(
                    group_report(m, shown_list(types[lowest_rank(w.ranks, r)])),
                ),
                ..w
            }
        } else if w.ranks.len() > 0 && r == w.ranks.last() {
            GroupWalk { groups: into_last(w.groups, m), ..w }
        } else {
            GroupWalk { ranks: w.ranks.push(r), groups: w.groups.push(seq![m]), ..w }
        },
    }
}

/// What is known after a list of members.
pub open spec fn walk(members: Seq<Member>, types: Seq<Seq<Seq<char>>>) -> GroupWalk
    decreases members.len(),
{
    if members.len() == 0 {
        GroupWalk { ranks: Seq::empty(), groups: Seq::empty(), reports: Seq::empty() }
    } else {
        walk_on(walk(members.drop_last(), types), members.last(), types)
    }
}

/// The members that references stand for.
pub open spec fn referred(list: Seq<&MemberInfo>) -> Seq<Member> {
    list.map_values(|m: &MemberInfo| m@)
}

/// The groups that lists of references stand for.
pub open spec fn group_members(groups: Seq<Vec<&MemberInfo>>) -> Seq<Seq<Member>> {
    groups.map_values(|g: Vec<&MemberInfo>| referred(g@))
}

/// Adds a group of one member.
fn push_group<'a, 'b>(groups: &mut Vec<Vec<&'b MemberInfo<'a>>>, member: &'b MemberInfo<'a>)
    ensures
        group_members(final(groups)@) == group_members(old(groups)@).push(seq![member@]),
{
    let ghost before = groups@;
    let mut group: Vec<&'b MemberInfo<'a>> = Vec::new();
    group.push(member);
    proof {
        assert(referred(group@) =~= seq![member@]);
    }
    groups.push(group);
    proof {
        assert(group_members(groups@) =~= group_members(before).push(seq![member@]));
    }
}

/// Adds a member to the last group.
fn push_member<'a, 'b>(groups: &mut Vec<Vec<&'b MemberInfo<'a>>>, member: &'b MemberInfo<'a>)
    ensures
        group_members(final(groups)@) == into_last(group_members(old(groups)@), member@),
{
    let ghost before = groups@;
    let last = groups.pop();
    if let Some(group) = last {
        let mut group = group;
        let ghost start = group@;
        group.push(member);
        proof {
            assert(referred(group@) =~= referred(start).push(member@));
        }
        groups.push(group);
        proof {
            assert(group_members(groups@) =~= into_last(group_members(before), member@));
        }
    } else {
        proof {
            assert(group_members(groups@) =~= into_last(group_members(before), member@));
        }
    }
}

/// Reports the members that come after members of a later group, and gives the groups if there
/// are none.
pub fn check_group_sort<'a, 'b>(
    members: &'b [MemberInfo<'a>],
    member_types: &[MemberTypeGroup],
    out: &mut Vec<Diagnostic>,
) -> (r: Option<Vec<Vec<&'b MemberInfo<'a>>>>)
    ensures
        ({
            let w = walk(member_views(members@), group_views(member_types@));
            &&& reports(final(out)@) == reports(old(out)@) + w.reports
            &&& r is Some == (w.reports.len() == 0)
            &&& r matches Some(groups) ==> group_members(groups@) == w.groups
        }),
{
    let ghost all = member_views(members@);
    let ghost types = group_views(member_types@);
    let ghost start = reports(out@);
    let mut previous_ranks: Vec<usize> = Vec::new();
    let mut member_groups: Vec<Vec<&'b MemberInfo<'a>>> = Vec::new();
    let mut correctly_sorted = true;
    let mut i: usize = 0;
    proof {
        assert(all.take(0) =~= Seq::empty());
        assert(ints(previous_ranks@) =~= Seq::empty());
        assert(group_members(member_groups@) =~= Seq::empty());
        assert(start + Seq::<Report>::empty() =~= start);
    }
    while i < members.len()
        invariant
            i <= members@.len(),
            all == member_views(members@),
            types == group_views(member_types@),
            ints(previous_ranks@) == walk(all.take(i as int), types).ranks,
            group_members(member_groups@) == walk(all.take(i as int), types).groups,
            reports(out@) == start + walk(all.take(i as int), types).reports,
            correctly_sorted == (walk(all.take(i as int), types).reports.len() == 0),
            forall|k: int| 0 <= k < previous_ranks@.len() ==> previous_ranks@[k] < member_types@.len(),
        decreases members@.len() - i,
    {
        let member = &members[i];
        let ghost before = walk(all.take(i as int), types);
        proof {
            assert(all.take(i + 1).drop_last() =~= all.take(i as int));
            assert(all.take(i + 1).last() == member@);
        }
        if let Some(rank) = get_rank(member, member_types) {
            let length = previous_ranks.len();
            let ghost ranks = previous_ranks@;
            if length > 0 && rank < previous_ranks[length - 1] {
                proof {
                    lemma_lowest(before.ranks, rank as int, before.ranks.last());
                    assert(before.ranks.last() == previous_ranks@.last());
                    let low = lowest_rank(before.ranks, rank as int);
                    if low != before.ranks.last() {
                        let k = choose|k: int|
                            0 <= k < before.ranks.len() && #[trigger] before.ranks[k] == low
                                && before.ranks[k] > rank;
                        assert(previous_ranks@[k] == low);
                    }
                }
                let rank_name = get_lowest_rank(previous_ranks.as_slice(), rank, member_types);
                let ghost so_far = reports(out@);
                report(
                    out,
                    sentence(
                        member.span,
                        name_of(member),
                        " should be declared before all ",
                        rank_name.as_str(),
                        " definitions.",
                    ),
                );
                correctly_sorted = false;
                proof {
                    let r = group_report(
                        member@,
                        shown_list(types[lowest_rank(before.ranks, rank as int)]),
                    );
                    assert(reports(out@) == so_far.push(r));
                    assert(reports(out@) =~= start + before.reports.push(r));
                }
            } else if length > 0 && rank == previous_ranks[length - 1] {
                push_member(&mut member_groups, member);
            } else {
                previous_ranks.push(rank);
                push_group(&mut member_groups, member);
                proof {
                    assert(ints(previous_ranks@) =~= ints(ranks).push(rank as int));
                }
            }
        }
        i += 1;
    }
    proof {
        assert(all.take(all.len() as int) =~= all);
    }
    if correctly_sorted {
        Some(member_groups)
    } else {
        None
    }
}

/// Runs of members of one type.
#[verifier::ext_equal]
pub ghost struct Runs {
    pub groups: Seq<Seq<Member>>,
    /// The rank of the last run.
    pub previous: Option<Option<int>>,
}

/// The runs among the first `n` members: a run begins with two members of one rank, and takes in
/// every later member of that rank until another run begins.
pub open spec fn runs(members: Seq<Member>, types: Seq<Seq<Seq<char>>>, n: int) -> Runs
    decreases n,
{
    if n <= 0 {
        Runs { groups: Seq::empty(), previous: None }
    } else {
        let before = runs(members, types, n - 1);
        let current = rank(members[n - 1], types);
        if before.previous == Some(current) {
            Runs { groups: into_last(before.groups, members[n - 1]), ..before }
        } else if current == rank(members[n], types) {
            Runs { groups: before.groups.push(seq![members[n - 1]]), previous: Some(current) }
        } else {
            before
        }
    }
}

/// The runs of members of one type; the last member is in none.
pub open spec fn type_runs(members: Seq<Member>, types: Seq<Seq<Seq<char>>>) -> Seq<Seq<Member>> {
    runs(members, types, members.len() - 1).groups
}

/// A rank as an integer.
pub open spec fn rank_view(r: Option<usize>) -> Option<int> {
    match r {
        Some(group) => Some(group as int),
        None => None,
    }
}

/// Whether two ranks are the same.
fn same_rank(a: Option<usize>, b: Option<usize>) -> (r: bool)
    ensures
        r == (rank_view(a) == rank_view(b)),
{
    match (a, b) {
        (Some(x), Some(y)) => x == y,
        (None, None) => true,
        _ => false,
    }
}

/// The runs of members of one type.
pub fn group_members_by_type<'a, 'b>(
    members: &'b [MemberInfo<'a>],
    member_types: &[MemberTypeGroup],
) -> (r: Vec<Vec<&'b MemberInfo<'a>>>)
    ensures
        group_members(r@) == type_runs(member_views(members@), group_views(member_types@)),
{
    let ghost all = member_views(members@);
    let ghost types = group_views(member_types@);
    let mut groups: Vec<Vec<&'b MemberInfo<'a>>> = Vec::new();
    let mut previous_rank: Option<Option<usize>> = None;
    proof {
        assert(group_members(groups@) =~= Seq::empty());
    }
    if members.len() == 0 {
        return groups;
    }
    let mut i: usize = 0;
    while i < members.len() - 1
        invariant
            i < members@.len(),
            all == member_views(members@),
            types == group_views(member_types@),
            group_members(groups@) == runs(all, types, i as int).groups,
            runs(all, types, i as int).previous == (match previous_rank {
                Some(r) => Some(rank_view(r)),
                None => None,
            }),
        decreases members@.len() - i,
    {
        let member = &members[i];
        proof {
            assert(all[i as int] == member@);
            assert(all[i + 1] == members@[i + 1]@);
        }
        let current_rank = get_rank(member, member_types);
        let next_rank = get_rank(&members[i + 1], member_types);
        let goes_on = match previous_rank {
            Some(rank) => same_rank(rank, current_rank),
            None => false,
        };
        if goes_on {
            push_member(&mut groups, member);
        } else if same_rank(current_rank, next_rank) {
            push_group(&mut groups, member);
            previous_rank = Some(current_rank);
        }
        i += 1;
    }
    groups
}

/// The name that the next one is held against: that of the last member that has one.
pub open spec fn previous_name(members: Seq<Member>) -> Seq<char>
    decreases members.len(),
{
    if members.len() == 0 {
        Seq::empty()
    } else {
        match members.last().name {
            Some(name) => name,
            None => previous_name(members.drop_last()),
        }
    }
}

/// The reports on names that are out of order.
pub open spec fn name_reports(members: Seq<Member>, order: Order) -> Seq<Report>
    decreases members.len(),
{
    if members.len() == 0 {
        Seq::empty()
    } else {
        let rest = members.drop_last();
        let before = name_reports(rest, order);
        match members.last().name {
            Some(name) if out_of_order(name, previous_name(rest), order) => before.push(
                name_report(members.last().span, name, previous_name(rest)),
            ),
            _ => before,
        }
    }
}

/// Reports names that are out of order; the result says whether there are none.
pub fn check_alpha_sort(
    members: &Vec<&MemberInfo>,
    order: Order,
    out: &mut Vec<Diagnostic>,
) -> (r: bool)
    ensures
        reports(final(out)@) == reports(old(out)@) + name_reports(referred(members@), order),
        r == (name_reports(referred(members@), order).len() == 0),
{
    let ghost all = referred(members@);
    let ghost start = reports(out@);
    let mut previous: &str = "";
    let mut correctly_sorted = true;
    let mut i: usize = 0;
    proof {
        reveal_strlit("");
        assert(previous@ =~= Seq::empty());
        assert(all.take(0) =~= Seq::empty());
        assert(start + Seq::<Report>::empty() =~= start);
    }
    while i < members.len()
        invariant
            i <= members@.len(),
            all == referred(members@),
            previous@ == previous_name(all.take(i as int)),
            reports(out@) == start + name_reports(all.take(i as int), order),
            correctly_sorted == (name_reports(all.take(i as int), order).len() == 0),
        decreases members@.len() - i,
    {
        let member = members[i];
        let ghost before = name_reports(all.take(i as int), order);
        proof {
            assert(all.take(i + 1).drop_last() =~= all.take(i as int));
            assert(all.take(i + 1).last() == member@);
        }
        if let Some(name) = member.name {
            if natural_out_of_order(name, previous, order) {
                let ghost so_far = reports(out@);
                report(
                    out,
                    sentence(
                        member.span,
                        name,
                        " should be declared before member ",
                        previous,
                        ".",
                    ),
                );
                correctly_sorted = false;
                proof {
                    let r = name_report(member.span, name@, previous@);
                    assert(reports(out@) == so_far.push(r));
                    assert(reports(out@) =~= start + before.push(r));
                }
            }
            previous = name;
        }
        i += 1;
    }
    proof {
        assert(all.take(all.len() as int) =~= all);
    }
    correctly_sorted
}

/// The reports on names that are out of order within their groups.
pub open spec fn grouped_reports(groups: Seq<Seq<Member>>, order: Order) -> Seq<Report>
    decreases groups.len(),
{
    if groups.len() == 0 {
        Seq::empty()
    } else {
        grouped_reports(groups.drop_last(), order) + name_reports(groups.last(), order)
    }
}

/// Reports names that are out of order within their groups.
fn check_groups(groups: &Vec<Vec<&MemberInfo>>, order: Order, out: &mut Vec<Diagnostic>)
    ensures
        reports(final(out)@) == reports(old(out)@) + grouped_reports(group_members(groups@), order),
{
    let ghost all = group_members(groups@);
    let ghost start = reports(out@);
    let mut i: usize = 0;
    proof {
        assert(all.take(0) =~= Seq::empty());
        assert(start + Seq::<Report>::empty() =~= start);
    }
    while i < groups.len()
        invariant
            i <= groups@.len(),
            all == group_members(groups@),
            reports(out@) == start + grouped_reports(all.take(i as int), order),
        decreases groups@.len() - i,
    {
        proof {
            assert(all.take(i + 1).drop_last() =~= all.take(i as int));
            assert(all.take(i + 1).last() == referred(groups@[i as int]@));
        }
        let ghost before = grouped_reports(all.take(i as int), order);
        check_alpha_sort(&groups[i], order, out);
        proof {
            let more = name_reports(referred(groups@[i as int]@), order);
            assert((start + before) + more =~= start + (before + more));
        }
        i += 1;
    }
    proof {
        assert(all.take(all.len() as int) =~= all);
    }
}

/// The reports on members, optional or not, that are out of order.
pub open spec fn order_reports(members: Seq<Member>, config: Normalized) -> Seq<Report> {
    match config.member_types {
        Some(types) => {
            let w = walk(members, types);
            if config.order == Order::AsWritten {
                w.reports
            } else if w.reports.len() == 0 {
                grouped_reports(w.groups, config.order)
            } else {
                w.reports + grouped_reports(type_runs(members, types), config.order)
            }
        },
        None => if config.order == Order::AsWritten {
            Seq::empty()
        } else {
            name_reports(members, config.order)
        },
    }
}

/// Reports members that are out of order. The result says whether names alone were looked at and
/// all of them are in order.
pub fn check_order(
    members: &[MemberInfo],
    config: &NormalizedOrderConfig,
    out: &mut Vec<Diagnostic>,
) -> (r: bool)
    ensures
        reports(final(out)@) == reports(old(out)@) + order_reports(member_views(members@), config@),
        r == (config.member_types is None && config.order != Order::AsWritten && name_reports(
            member_views(members@),
            config.order,
        ).len() == 0),
{
    let ghost all = member_views(members@);
    let ghost start = reports(out@);
    if let Some(member_types) = &config.member_types {
        let member_types = member_types.as_slice();
        let ghost w = walk(all, group_views(member_types@));
        match check_group_sort(members, member_types, out) {
            None => {
                if config.order.is_sorted() {
                    let groups = group_members_by_type(members, member_types);
                    check_groups(&groups, config.order, out);
                    proof {
                        let more = grouped_reports(
                            type_runs(all, group_views(member_types@)),
                            config.order,
                        );
                        assert((start + w.reports) + more =~= start + (w.reports + more));
                    }
                }
            },
            Some(groups) => {
                if config.order.is_sorted() {
                    check_groups(&groups, config.order, out);
                    proof {
                        let more = grouped_reports(w.groups, config.order);
                        assert((start + w.reports) + more =~= start + more);
                    }
                }
            },
        }
        return false;
    }
    if config.order.is_sorted() {
        let mut list: Vec<&MemberInfo> = Vec::new();
        let mut i: usize = 0;
        while i < members.len()
            invariant
                i <= members@.len(),
                list@.len() == i,
                forall|k: int| 0 <= k < i ==> *(#[trigger] list@[k]) == members@[k],
            decreases members@.len() - i,
        {
            list.push(&members[i]);
            i += 1;
        }
        proof {
            assert(referred(list@) =~= all);
        }
        return check_alpha_sort(&list, config.order, out);
    }
    proof {
        assert(start + Seq::<Report>::empty() =~= start);
    }
    false
}

/// The first place from `from` on where a member differs from the one before it in being
/// optional.
pub open spec fn switch_from(members: Seq<Member>, from: int) -> Option<int>
    decreases members.len() - from,
{
    if 1 <= from < members.len() {
        if members[from].optional != members[from - 1].optional {
            Some(from)
        } else {
            switch_from(members, from + 1)
        }
    } else {
        None
    }
}

/// The report on the order of optional and required members, where they first change at
/// `switch_index`: on the first member, if it is not of the side that comes first; else on the
/// first one of the other side, if the sides change again.
pub open spec fn required_report(
    members: Seq<Member>,
    switch_index: int,
    order: OptionalityOrder,
) -> Option<Report> {
    if members[0].optional != (order == OptionalityOrder::OptionalFirst) {
        Some(optionality_report(members[0], order))
    } else if exists|k: int|
        switch_index < k < members.len() && (#[trigger] members[k]).optional
            != members[switch_index].optional {
        Some(optionality_report(members[switch_index], order))
    } else {
        None
    }
}

/// Reports members that are on the wrong side of the optional or the required ones; the result
/// says whether there are none.
pub fn check_required_order(
    members: &[MemberInfo],
    switch_index: usize,
    optionality_order: OptionalityOrder,
    out: &mut Vec<Diagnostic>,
) -> (r: bool)
    requires
        members@.len() > 0,
    ensures
        ({
            let found = required_report(
                member_views(members@),
                switch_index as int,
                optionality_order,
            );
            &&& r == (found is None)
            &&& reports(final(out)@) == (match found {
                Some(report) => reports(old(out)@).push(report),
                None => reports(old(out)@),
            })
        }),
{
    let ghost all = member_views(members@);
    let expected_first_optional = match optionality_order {
        OptionalityOrder::OptionalFirst => true,
        OptionalityOrder::RequiredFirst => false,
    };
    let word = match optionality_order {
        OptionalityOrder::RequiredFirst => "required",
        OptionalityOrder::OptionalFirst => "optional",
    };
    proof {
        assert(all[0] == members@[0]@);
    }
    if members[0].optional != expected_first_optional {
        let member = &members[0];
        report(
            out,
            sentence(
                member.span,
                name_of(member),
                " should be declared after all ",
                word,
                " members.",
            ),
        );
        return false;
    }
    if switch_index >= members.len() {
        return true;
    }
    let mut differs = false;
    let mut index: usize = switch_index + 1;
    while !differs && index < members.len()
        invariant
            switch_index < index <= members@.len(),
            all == member_views(members@),
            differs == exists|k: int|
                switch_index < k < index && (#[trigger] all[k]).optional
                    != all[switch_index as int].optional,
        decreases members@.len() - index,
    {
        proof {
            assert(all[index as int] == members@[index as int]@);
            assert(all[switch_index as int] == members@[switch_index as int]@);
        }
        if members[index].optional != members[switch_index].optional {
            differs = true;
        }
        index += 1;
    }
    proof {
        assert(all[switch_index as int] == members@[switch_index as int]@);
    }
    if differs {
        let member = &members[switch_index];
        report(
            out,
            sentence(
                member.span,
                name_of(member),
                " should be declared after all ",
                word,
                " members.",
            ),
        );
        return false;
    }
    true
}

/// The reports on members.
pub open spec fn member_reports(members: Seq<Member>, config: OrderConfig) -> Seq<Report> {
    match normalized(config) {
        None => Seq::empty(),
        Some(n) => match (n.optionality_order, switch_from(members, 1)) {
            (Some(order), Some(i)) => match required_report(members, i, order) {
                Some(report) => seq![report],
                None => order_reports(members.take(i), n) + order_reports(members.skip(i), n),
            },
            _ => order_reports(members, n),
        },
    }
}

/// Where members first change between optional and required.
fn find_switch(members: &[MemberInfo]) -> (r: Option<usize>)
    ensures
        switch_from(member_views(members@), 1) == rank_view(r),
        r matches Some(i) ==> i < members@.len(),
{
    let ghost all = member_views(members@);
    let mut i: usize = 1;
    while i < members.len()
        invariant
            1 <= i,
            all == member_views(members@),
            switch_from(all, 1) == switch_from(all, i as int),
        decreases members@.len() - i,
    {
        proof {
            assert(all[i as int] == members@[i as int]@);
            assert(all[i - 1] == members@[i - 1]@);
        }
        if members[i].optional != members[i - 1].optional {
            return Some(i);
        }
        i += 1;
    }
    None
}

/// Reports members that are out of order.
pub fn validate_members_order(members: &[MemberInfo], order_config: &OrderConfig) -> (r: Vec<
    Diagnostic,
>)
    ensures
        reports(r@) == member_reports(member_views(members@), *order_config),
{
    let ghost all = member_views(members@);
    let mut out: Vec<Diagnostic> = Vec::new();
    proof {
        assert(reports(out@) =~= Seq::empty());
    }
    let Some(config) = NormalizedOrderConfig::new(order_config) else {
        return out;
    };
    if let Some(optionality_order) = config.optionality_order {
        if let Some(switch_index) = find_switch(members) {
            if !check_required_order(members, switch_index, optionality_order, &mut out) {
                proof {
                    assert(reports(out@) =~= seq![
                        required_report(all, switch_index as int, optionality_order)->0,
                    ]);
                }
                return out;
            }
            let first = vstd::slice::slice_subrange(members, 0, switch_index);
            let second = vstd::slice::slice_subrange(members, switch_index, members.len());
            proof {
                assert(member_views(first@) =~= all.take(switch_index as int));
                assert(member_views(second@) =~= all.skip(switch_index as int));
            }
            check_order(first, &config, &mut out);
            check_order(second, &config, &mut out);
            proof {
                let a = order_reports(all.take(switch_index as int), config@);
                assert(Seq::<Report>::empty() + a =~= a);
            }
            return out;
        }
    }
    check_order(members, &config, &mut out);
    proof {
        let a = order_reports(all, config@);
        assert(Seq::<Report>::empty() + a =~= a);
    }
    out
}

} // verus!

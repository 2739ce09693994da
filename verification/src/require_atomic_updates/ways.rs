//! The ways through a function, and what is reported on them.
//!
//! A way is what happens, in order, when the function runs along it: variables and properties are
//! read, the function is suspended, and variables and properties are written. A branch has two
//! ways, and a loop is left out or taken once.

use super::analysis;
use super::flow::{
    Flow, property_report, read_identifier, read_property, variable_report, walk_arguments,
    walk_children, walk_class, walk_class_elements, walk_declaration, walk_declarators,
    walk_expression, walk_expressions, walk_for_each, walk_key, walk_left_side, walk_maybe_default,
    walk_object_properties, walk_optional, walk_pattern, walk_pattern_elements,
    walk_pattern_properties, walk_statement, walk_statements, walk_target, walk_target_elements,
    walk_target_properties, write_elements, write_expression, write_identifier, write_left,
    write_properties, write_property, write_target,
};
use super::frame::Scene;
use super::state::{Reads, TrackedValue};
use crate::ast::{
    Argument, AssignmentOperator, AssignmentTarget, AssignmentTargetMaybeDefault,
    AssignmentTargetProperty, BindingPattern, BindingProperty, Class, ClassElement, Declaration,
    ExportDefaultDeclarationKind, Expression, ForEachStatement, ForStatementInit, ForStatementLeft,
    FunctionBody, IdentifierReference, ObjectPropertyKind, PropertyKey, Span, Statement,
    StatementChild, VariableDeclarator, Wrapper, unshared,
};
use crate::lint::Report;
use vstd::prelude::*;

verus! {

/// A variable, or the properties of the object that it holds.
pub ghost struct Slot {
    pub key: TrackedValue,
    pub is_property: bool,
}

/// What happens on a way.
pub ghost enum Step {
    Read(Slot),
    Suspend,
    /// A write, with the report that is due if the value is outdated.
    Write(Slot, Report),
}

/// Ways.
pub type Ways = Set<Seq<Step>>;

/// The way on which nothing happens.
pub open spec fn still() -> Ways {
    set![Seq::empty()]
}

/// The way on which one thing happens.
pub open spec fn only(step: Step) -> Ways {
    set![seq![step]]
}

/// Every one of the first ways, and after it every one of the second.
pub open spec fn then_ways(a: Ways, b: Ways) -> Ways {
    Set::new(
        |w: Seq<Step>|
            exists|x: Seq<Step>, y: Seq<Step>|
                #![trigger a.contains(x), b.contains(y)]
                a.contains(x) && b.contains(y) && w == x + y,
    )
}

/// Either of the ways.
pub open spec fn either(a: Ways, b: Ways) -> Ways {
    a.union(b)
}

/// What is known of a slot: whether it may have been read since the last suspension, and whether
/// it may have been read before it and not since.
#[verifier::ext_equal]
pub ghost struct Known {
    pub fresh: bool,
    pub outdated: bool,
}

/// What reads say of a slot.
pub open spec fn known(reads: Reads, slot: Slot) -> Known {
    if slot.is_property {
        Known {
            fresh: reads.fresh_prop.contains(slot.key),
            outdated: reads.outdated_prop.contains(slot.key),
        }
    } else {
        Known {
            fresh: reads.fresh_var.contains(slot.key),
            outdated: reads.outdated_var.contains(slot.key),
        }
    }
}

/// What is known of a slot after a way.
pub open spec fn after(w: Seq<Step>, k: Known, slot: Slot) -> Known
    decreases w.len(),
{
    if w.len() == 0 {
        k
    } else {
        let k = after(w.drop_last(), k, slot);
        match w.last() {
            Step::Read(s) if s == slot => Known { fresh: true, outdated: false },
            Step::Suspend => Known { fresh: false, outdated: k.outdated || k.fresh },
            _ => k,
        }
    }
}

/// Step `i` of a way writes what is outdated, where the report is due.
pub open spec fn is_due(w: Seq<Step>, i: int, reads: Reads, report: Report) -> bool {
    &&& 0 <= i < w.len()
    &&& w[i] matches Step::Write(slot, due) && due == report && after(
        w.take(i),
        known(reads, slot),
        slot,
    ).outdated
}

/// A slot is outdated on one of the ways.
pub open spec fn outdated_on(a: Ways, k: Known, slot: Slot) -> bool {
    exists|w: Seq<Step>| #[trigger] a.contains(w) && after(w, k, slot).outdated
}

/// A slot is fresh on one of the ways.
pub open spec fn fresh_on(a: Ways, k: Known, slot: Slot) -> bool {
    exists|w: Seq<Step>| #[trigger] a.contains(w) && after(w, k, slot).fresh
}

/// A report is due on one of the ways.
pub open spec fn due_on(a: Ways, reads: Reads, report: Report) -> bool {
    exists|w: Seq<Step>, i: int| a.contains(w) && #[trigger] is_due(w, i, reads, report)
}

/// `t` is what comes of `s` on the ways: what is known after one of them, and the reports that are
/// due on one of them.
pub open spec fn sums(a: Ways, s: Flow, t: Flow) -> bool {
    &&& exists|w: Seq<Step>| a.contains(w)
    &&& forall|slot: Slot| #[trigger]
        known(t.reads, slot).outdated <==> outdated_on(a, known(s.reads, slot), slot)
    &&& forall|slot: Slot| #[trigger]
        known(t.reads, slot).fresh <==> fresh_on(a, known(s.reads, slot), slot)
    &&& forall|report: Report| #[trigger]
        t.reports.contains(report) <==> s.reports.contains(report) || due_on(a, s.reads, report)
}

/// Two ways in a row.
proof fn lemma_after_both(x: Seq<Step>, y: Seq<Step>, k: Known, slot: Slot)
    ensures
        after(x + y, k, slot) == after(y, after(x, k, slot), slot),
    decreases y.len(),
{
    if y.len() == 0 {
        assert(x + y =~= x);
    } else {
        lemma_after_both(x, y.drop_last(), k, slot);
        assert((x + y).drop_last() =~= x + y.drop_last());
        assert((x + y).last() == y.last());
    }
}

/// What is known after a way comes of the way itself, or of one of the things known before.
proof fn lemma_after_parts(w: Seq<Step>, k: Known, slot: Slot)
    ensures
        ({
            let none = after(w, Known { fresh: false, outdated: false }, slot);
            let fresh = after(w, Known { fresh: true, outdated: false }, slot);
            let outdated = after(w, Known { fresh: false, outdated: true }, slot);
            let all = after(w, k, slot);
            &&& all.fresh == (none.fresh || k.fresh && fresh.fresh || k.outdated && outdated.fresh)
            &&& all.outdated == (none.outdated || k.fresh && fresh.outdated || k.outdated
                && outdated.outdated)
        }),
    decreases w.len(),
{
    if w.len() > 0 {
        lemma_after_parts(w.drop_last(), k, slot);
    }
}

/// What is known after more ways in a row.
proof fn lemma_then_known(a: Ways, b: Ways, k: Known, m: Known, slot: Slot)
    requires
        exists|w: Seq<Step>| a.contains(w),
        m.outdated == outdated_on(a, k, slot),
        m.fresh == fresh_on(a, k, slot),
    ensures
        outdated_on(then_ways(a, b), k, slot) == outdated_on(b, m, slot),
        fresh_on(then_ways(a, b), k, slot) == fresh_on(b, m, slot),
{
    let c = then_ways(a, b);
    let any = choose|w: Seq<Step>| a.contains(w);
    let stale = choose|w: Seq<Step>| #[trigger] a.contains(w) && after(w, k, slot).outdated;
    let new = choose|w: Seq<Step>| #[trigger] a.contains(w) && after(w, k, slot).fresh;
    assert forall|y: Seq<Step>| b.contains(y) implies {
        &&& #[trigger] after(y, m, slot).outdated ==> outdated_on(c, k, slot)
        &&& after(y, m, slot).fresh ==> fresh_on(c, k, slot)
    } by {
        lemma_after_parts(y, m, slot);
        lemma_after_parts(y, after(any, k, slot), slot);
        lemma_after_both(any, y, k, slot);
        assert(c.contains(any + y));
        if m.outdated {
            lemma_after_parts(y, after(stale, k, slot), slot);
            lemma_after_both(stale, y, k, slot);
            assert(c.contains(stale + y));
        }
        if m.fresh {
            lemma_after_parts(y, after(new, k, slot), slot);
            lemma_after_both(new, y, k, slot);
            assert(c.contains(new + y));
        }
    }
    assert forall|w: Seq<Step>| c.contains(w) implies {
        &&& #[trigger] after(w, k, slot).outdated ==> outdated_on(b, m, slot)
        &&& after(w, k, slot).fresh ==> fresh_on(b, m, slot)
    } by {
        let (x, y) = choose|x: Seq<Step>, y: Seq<Step>|
            #![trigger a.contains(x), b.contains(y)]
            a.contains(x) && b.contains(y) && w == x + y;
        lemma_after_both(x, y, k, slot);
        lemma_after_parts(y, after(x, k, slot), slot);
        lemma_after_parts(y, m, slot);
        assert(a.contains(x));
        assert(b.contains(y));
    }
}

/// What comes of two parts in a row.
proof fn sums_then(a: Ways, b: Ways, s: Flow, t: Flow, u: Flow)
    requires
        sums(a, s, t),
        sums(b, t, u),
    ensures
        sums(then_ways(a, b), s, u),
{
    let c = then_ways(a, b);
    let any_a = choose|w: Seq<Step>| a.contains(w);
    let any_b = choose|w: Seq<Step>| b.contains(w);
    assert(a.contains(any_a) && b.contains(any_b));
    assert(c.contains(any_a + any_b));
    assert forall|slot: Slot| #[trigger]
        known(u.reads, slot).outdated <==> outdated_on(c, known(s.reads, slot), slot) by {
        lemma_then_known(a, b, known(s.reads, slot), known(t.reads, slot), slot);
    }
    assert forall|slot: Slot| #[trigger]
        known(u.reads, slot).fresh <==> fresh_on(c, known(s.reads, slot), slot) by {
        lemma_then_known(a, b, known(s.reads, slot), known(t.reads, slot), slot);
    }
    assert forall|report: Report| #[trigger]
        u.reports.contains(report) <==> s.reports.contains(report) || due_on(
            c,
            s.reads,
            report,
        ) by {
        if due_on(a, s.reads, report) {
            let (x, i) = choose|w: Seq<Step>, i: int|
                a.contains(w) && #[trigger] is_due(w, i, s.reads, report);
            assert(c.contains(x + any_b));
            assert((x + any_b).take(i) =~= x.take(i));
            assert(is_due(x + any_b, i, s.reads, report));
        }
        if due_on(b, t.reads, report) {
            let (y, i) = choose|w: Seq<Step>, i: int|
                b.contains(w) && #[trigger] is_due(w, i, t.reads, report);
            let slot = y[i]->Write_0;
            let head = y.take(i);
            let heads = set![head];
            assert(outdated_on(heads, known(t.reads, slot), slot)) by {
                assert(heads.contains(head));
            }
            lemma_then_known(a, heads, known(s.reads, slot), known(t.reads, slot), slot);
            let z = choose|w: Seq<Step>| #[trigger]
                then_ways(a, heads).contains(w) && after(w, known(s.reads, slot), slot).outdated;
            let (x, h) = choose|x: Seq<Step>, h: Seq<Step>|
                #![trigger a.contains(x), heads.contains(h)]
                a.contains(x) && heads.contains(h) && z == x + h;
            assert(c.contains(x + y));
            assert((x + y).take(x.len() + i) =~= x + head);
            assert((x + y)[x.len() + i] == y[i]);
            assert(is_due(x + y, x.len() + i, s.reads, report));
        }
        if due_on(c, s.reads, report) {
            let (w, i) = choose|w: Seq<Step>, i: int|
                c.contains(w) && #[trigger] is_due(w, i, s.reads, report);
            let (x, y) = choose|x: Seq<Step>, y: Seq<Step>|
                #![trigger a.contains(x), b.contains(y)]
                a.contains(x) && b.contains(y) && w == x + y;
            if i < x.len() {
                assert(w.take(i) =~= x.take(i));
                assert(is_due(x, i, s.reads, report));
                assert(t.reports.contains(report));
            } else {
                let j = i - x.len();
                let slot = w[i]->Write_0;
                let head = y.take(j);
                let heads = set![head];
                assert(w.take(i) =~= x + head);
                assert(then_ways(a, heads).contains(x + head)) by {
                    assert(heads.contains(head));
                }
                assert(outdated_on(then_ways(a, heads), known(s.reads, slot), slot));
                lemma_then_known(a, heads, known(s.reads, slot), known(t.reads, slot), slot);
                assert(outdated_on(heads, known(t.reads, slot), slot));
                assert(after(head, known(t.reads, slot), slot).outdated);
                assert(is_due(y, j, t.reads, report));
            }
        }
    }
}

/// What comes of one of two parts: the second starts over with the reads of the first, and with
/// its reports.
proof fn sums_either(a: Ways, b: Ways, s: Flow, t: Flow, u: Flow)
    requires
        sums(a, s, t),
        sums(b, s.with_reports_of(t), u),
    ensures
        sums(either(a, b), s, u.merge(t)),
{
    let c = either(a, b);
    let any = choose|w: Seq<Step>| a.contains(w);
    assert(c.contains(any));
    assert forall|slot: Slot| #[trigger]
        known(u.merge(t).reads, slot).outdated <==> outdated_on(c, known(s.reads, slot), slot) by {
        let k = known(s.reads, slot);
        assert(known(u.reads, slot).outdated <==> outdated_on(b, k, slot));
        assert(known(t.reads, slot).outdated <==> outdated_on(a, k, slot));
        assert(forall|w: Seq<Step>| #[trigger] a.contains(w) ==> c.contains(w));
        assert(forall|w: Seq<Step>| #[trigger] b.contains(w) ==> c.contains(w));
    }
    assert forall|slot: Slot| #[trigger]
        known(u.merge(t).reads, slot).fresh <==> fresh_on(c, known(s.reads, slot), slot) by {
        let k = known(s.reads, slot);
        assert(known(u.reads, slot).fresh <==> fresh_on(b, k, slot));
        assert(known(t.reads, slot).fresh <==> fresh_on(a, k, slot));
        assert(forall|w: Seq<Step>| #[trigger] a.contains(w) ==> c.contains(w));
        assert(forall|w: Seq<Step>| #[trigger] b.contains(w) ==> c.contains(w));
    }
    assert forall|report: Report| #[trigger]
        u.merge(t).reports.contains(report) <==> s.reports.contains(report) || due_on(
            c,
            s.reads,
            report,
        ) by {
        assert(u.reports.contains(report) <==> t.reports.contains(report) || due_on(
            b,
            s.reads,
            report,
        ));
        assert(t.reports.contains(report) <==> s.reports.contains(report) || due_on(
            a,
            s.reads,
            report,
        ));
        if due_on(a, s.reads, report) {
            let (x, i) = choose|w: Seq<Step>, i: int|
                a.contains(w) && #[trigger] is_due(w, i, s.reads, report);
            assert(c.contains(x));
        }
        if due_on(b, s.reads, report) {
            let (x, i) = choose|w: Seq<Step>, i: int|
                b.contains(w) && #[trigger] is_due(w, i, s.reads, report);
            assert(c.contains(x));
        }
    }
}

/// Nothing comes of a way on which nothing happens.
proof fn sums_still(s: Flow, t: Flow)
    requires
        t.reads == s.reads,
        t.reports == s.reports,
    ensures
        sums(still(), s, t),
{
    let none = Seq::<Step>::empty();
    assert(still().contains(none));
    assert forall|slot: Slot| #[trigger]
        known(t.reads, slot).outdated <==> outdated_on(still(), known(s.reads, slot), slot) by {
        assert(after(none, known(s.reads, slot), slot) == known(s.reads, slot));
    }
    assert forall|slot: Slot| #[trigger]
        known(t.reads, slot).fresh <==> fresh_on(still(), known(s.reads, slot), slot) by {
        assert(after(none, known(s.reads, slot), slot) == known(s.reads, slot));
    }
}

/// A part that is left out or taken: it starts with what it is merged with.
proof fn sums_maybe(a: Ways, s: Flow, t: Flow)
    requires
        sums(a, s, t),
    ensures
        sums(either(a, still()), s, t.merge(s)),
{
    sums_still(s.with_reports_of(t), s.with_reports_of(t));
    sums_either(a, still(), s, t, s.with_reports_of(t));
    let one = s.with_reports_of(t).merge(t);
    let other = t.merge(s);
    assert(one.reads =~= other.reads);
    assert(one.reports == other.reports);
}

/// What comes of one step.
proof fn sums_only(step: Step, s: Flow, t: Flow)
    requires
        forall|slot: Slot| #[trigger] known(t.reads, slot) == after(
            seq![step],
            known(s.reads, slot),
            slot,
        ),
        forall|report: Report| #[trigger]
            t.reports.contains(report) <==> s.reports.contains(report) || is_due(
                seq![step],
                0,
                s.reads,
                report,
            ),
    ensures
        sums(only(step), s, t),
{
    let w = seq![step];
    let a = only(step);
    assert(a.contains(w));
    assert forall|slot: Slot| #[trigger]
        known(t.reads, slot).outdated <==> outdated_on(a, known(s.reads, slot), slot) by {
        assert(known(t.reads, slot) == after(w, known(s.reads, slot), slot));
        assert(forall|x: Seq<Step>| #[trigger] a.contains(x) ==> x == w);
    }
    assert forall|slot: Slot| #[trigger]
        known(t.reads, slot).fresh <==> fresh_on(a, known(s.reads, slot), slot) by {
        assert(known(t.reads, slot) == after(w, known(s.reads, slot), slot));
        assert(forall|x: Seq<Step>| #[trigger] a.contains(x) ==> x == w);
    }
    assert forall|report: Report| #[trigger]
        t.reports.contains(report) <==> s.reports.contains(report) || due_on(
            a,
            s.reads,
            report,
        ) by {
        if due_on(a, s.reads, report) {
            let (x, i) = choose|x: Seq<Step>, i: int|
                a.contains(x) && #[trigger] is_due(x, i, s.reads, report);
            assert(x == w && i == 0);
        }
        if is_due(w, 0, s.reads, report) {
            assert(a.contains(w));
        }
    }
}

/// A step right at the start.
proof fn lemma_one_step(step: Step, k: Known, slot: Slot)
    ensures
        after(seq![step], k, slot) == (match step {
            Step::Read(s) if s == slot => Known { fresh: true, outdated: false },
            Step::Suspend => Known { fresh: false, outdated: k.outdated || k.fresh },
            _ => k,
        }),
        seq![step].take(0) == Seq::<Step>::empty(),
{
    assert(seq![step].drop_last() =~= Seq::empty());
    assert(seq![step].take(0) =~= Seq::empty());
    reveal_with_fuel(after, 2);
}

/// The ways through the use of an identifier.
pub open spec fn reading(f: Scene, ident: IdentifierReference) -> Ways {
    match f.spec_reference_key(ident) {
        Some(key) if ident.is_read && f.spec_tracked_for_var(key) => only(
            Step::Read(Slot { key, is_property: false }),
        ),
        _ => still(),
    }
}

/// The ways through the use of a property of an object.
pub open spec fn reading_property(f: Scene, object: Expression) -> Ways {
    match f.spec_deepest_object_key(object) {
        Some(key) if f.spec_tracked_for_prop(key) => only(
            Step::Read(Slot { key, is_property: true }),
        ),
        _ => still(),
    }
}

/// The ways through a write to a variable.
pub open spec fn writing(f: Scene, ident: IdentifierReference) -> Ways {
    match f.spec_reference_key(ident) {
        Some(key) if f.spec_tracked_for_var(key) => only(
            Step::Write(
                Slot { key, is_property: false },
                variable_report(ident.span, ident.name@),
            ),
        ),
        _ => still(),
    }
}

/// The ways through a write to a property of an object.
pub open spec fn writing_property(f: Scene, object: Expression, span: Span) -> Ways {
    match f.spec_deepest_object_key(object) {
        Some(key) if f.spec_tracked_for_prop(key) => only(
            Step::Write(
                Slot { key, is_property: true },
                property_report(span, f.spec_key_name(key)),
            ),
        ),
        _ => still(),
    }
}

/// The way through a suspension.
pub open spec fn suspending() -> Ways {
    only(Step::Suspend)
}

proof fn sums_reading(f: Scene, ident: IdentifierReference, s: Flow)
    ensures
        sums(reading(f, ident), s, read_identifier(f, ident, s)),
{
    let t = read_identifier(f, ident, s);
    match f.spec_reference_key(ident) {
        Some(key) if ident.is_read && f.spec_tracked_for_var(key) => {
            let step = Step::Read(Slot { key, is_property: false });
            assert forall|slot: Slot| #[trigger] known(t.reads, slot) == after(
                seq![step],
                known(s.reads, slot),
                slot,
            ) by {
                lemma_one_step(step, known(s.reads, slot), slot);
            }
            sums_only(step, s, t);
        },
        _ => sums_still(s, t),
    }
}

proof fn sums_reading_property(f: Scene, object: Expression, s: Flow)
    ensures
        sums(reading_property(f, object), s, read_property(f, object, s)),
{
    let t = read_property(f, object, s);
    match f.spec_deepest_object_key(object) {
        Some(key) if f.spec_tracked_for_prop(key) => {
            let step = Step::Read(Slot { key, is_property: true });
            assert forall|slot: Slot| #[trigger] known(t.reads, slot) == after(
                seq![step],
                known(s.reads, slot),
                slot,
            ) by {
                lemma_one_step(step, known(s.reads, slot), slot);
            }
            sums_only(step, s, t);
        },
        _ => sums_still(s, t),
    }
}

proof fn sums_suspending(s: Flow)
    ensures
        sums(suspending(), s, s.outdate()),
{
    let t = s.outdate();
    assert forall|slot: Slot| #[trigger] known(t.reads, slot) == after(
        seq![Step::Suspend],
        known(s.reads, slot),
        slot,
    ) by {
        lemma_one_step(Step::Suspend, known(s.reads, slot), slot);
    }
    sums_only(Step::Suspend, s, t);
}

/// A write adds its report if the value is outdated, and changes nothing else.
proof fn sums_write(slot: Slot, report: Report, s: Flow, t: Flow)
    requires
        t == (if known(s.reads, slot).outdated {
            s.report(report)
        } else {
            s
        }),
    ensures
        sums(only(Step::Write(slot, report)), s, t),
{
    let step = Step::Write(slot, report);
    assert forall|other: Slot| #[trigger] known(t.reads, other) == after(
        seq![step],
        known(s.reads, other),
        other,
    ) by {
        lemma_one_step(step, known(s.reads, other), other);
    }
    assert forall|r: Report| #[trigger]
        t.reports.contains(r) <==> s.reports.contains(r) || is_due(seq![step], 0, s.reads, r) by {
        lemma_one_step(step, known(s.reads, slot), slot);
        if known(s.reads, slot).outdated {
            assert(t.reports[s.reports.len() as int] == report);
            if s.reports.contains(r) {
                let i = choose|i: int| 0 <= i < s.reports.len() && s.reports[i] == r;
                assert(t.reports[i] == r);
            }
            if t.reports.contains(r) && r != report {
                let i = choose|i: int| 0 <= i < t.reports.len() && t.reports[i] == r;
                assert(s.reports[i] == r);
            }
        }
    }
    sums_only(step, s, t);
}

proof fn sums_writing(f: Scene, ident: IdentifierReference, s: Flow)
    ensures
        sums(writing(f, ident), s, write_identifier(f, ident, s)),
{
    let t = write_identifier(f, ident, s);
    match f.spec_reference_key(ident) {
        Some(key) if f.spec_tracked_for_var(key) => sums_write(
            Slot { key, is_property: false },
            variable_report(ident.span, ident.name@),
            s,
            t,
        ),
        _ => sums_still(s, t),
    }
}

proof fn sums_writing_property(f: Scene, object: Expression, span: Span, s: Flow)
    ensures
        sums(
            writing_property(f, object, span),
            s,
            write_property(f, f.spec_deepest_object_key(object), span, s),
        ),
{
    let t = write_property(f, f.spec_deepest_object_key(object), span, s);
    match f.spec_deepest_object_key(object) {
        Some(key) if f.spec_tracked_for_prop(key) => sums_write(
            Slot { key, is_property: true },
            property_report(span, f.spec_key_name(key)),
            s,
            t,
        ),
        _ => sums_still(s, t),
    }
}

/// The ways through a write to an expression.
pub open spec fn ways_write_expression(f: Scene, expr: Expression) -> Ways
    decreases expr,
{
    match expr {
        Expression::Identifier(ident) => writing(f, ident),
        Expression::StaticMember(m) => writing_property(f, m.object, m.span),
        Expression::ComputedMember(m) => writing_property(f, m.object, m.span),
        Expression::PrivateField(m) => writing_property(f, m.object, m.span),
        Expression::Wrapped(w) if w.wrapper != Wrapper::TSInstantiation => ways_write_expression(
            f,
            w.expression,
        ),
        _ => still(),
    }
}

/// The ways through a write to a target.
pub open spec fn ways_write_target(f: Scene, target: AssignmentTarget) -> Ways
    decreases target,
{
    match target {
        AssignmentTarget::Identifier(ident) => writing(f, ident),
        AssignmentTarget::StaticMember(m) => writing_property(f, m.object, m.span),
        AssignmentTarget::ComputedMember(m) => writing_property(f, m.object, m.span),
        AssignmentTarget::PrivateField(m) => writing_property(f, m.object, m.span),
        AssignmentTarget::Wrapped(w) => ways_write_expression(f, w.expression),
        AssignmentTarget::Array(t) => then_ways(
            ways_write_elements(f, t.elements@),
            match t.rest {
                Some(rest) => ways_write_target(f, rest),
                None => still(),
            },
        ),
        AssignmentTarget::Object(t) => then_ways(
            ways_write_properties(f, t.properties@),
            match t.rest {
                Some(rest) => ways_write_target(f, rest),
                None => still(),
            },
        ),
    }
}

/// The ways through a write to each element of an array pattern.
pub open spec fn ways_write_elements(
    f: Scene,
    list: Seq<Option<AssignmentTargetMaybeDefault>>,
) -> Ways
    decreases list,
{
    if list.len() == 0 {
        still()
    } else {
        then_ways(
            ways_write_elements(f, list.drop_last()),
            match list.last() {
                Some(t) => ways_write_target(f, t.binding),
                None => still(),
            },
        )
    }
}

/// The ways through a write to each property of an object pattern.
pub open spec fn ways_write_properties(f: Scene, list: Seq<AssignmentTargetProperty>) -> Ways
    decreases list,
{
    if list.len() == 0 {
        still()
    } else {
        then_ways(
            ways_write_properties(f, list.drop_last()),
            match list.last() {
                AssignmentTargetProperty::Identifier(p) => writing(f, p.binding),
                AssignmentTargetProperty::Property(p) => ways_write_target(f, p.binding.binding),
            },
        )
    }
}

/// The ways through a write to what a loop over members assigns.
pub open spec fn ways_write_left(f: Scene, left: ForStatementLeft) -> Ways {
    match left {
        ForStatementLeft::VariableDeclaration(_) => still(),
        ForStatementLeft::AssignmentTarget(target) => ways_write_target(f, target),
    }
}

/// The ways through an expression.
pub open spec fn ways_expression(f: Scene, expr: Expression) -> Ways
    decreases expr, 0nat,
{
    match expr {
        Expression::Identifier(ident) => reading(f, ident),
        Expression::This(_)
        | Expression::StringLiteral(_)
        | Expression::NumericLiteral(_)
        | Expression::BooleanLiteral(_)
        | Expression::MetaProperty(_)
        | Expression::Function(_)
        | Expression::Arrow(_) => still(),
        Expression::TemplateLiteral(t) => ways_expressions(f, t.expressions@),
        Expression::StaticMember(m) => then_ways(
            ways_expression(f, m.object),
            reading_property(f, m.object),
        ),
        Expression::ComputedMember(m) => then_ways(
            then_ways(ways_expression(f, m.object), ways_expression(f, m.expression)),
            reading_property(f, m.object),
        ),
        Expression::PrivateField(m) => then_ways(
            ways_expression(f, m.object),
            reading_property(f, m.object),
        ),
        Expression::Call(c) => then_ways(
            ways_expression(f, c.callee),
            ways_arguments(f, c.arguments@),
        ),
        Expression::Class(c) => ways_class(f, *c),
        Expression::Assignment(a) => then_ways(
            then_ways(
                ways_left_side(f, a.left, a.operator != AssignmentOperator::Assign),
                ways_expression(f, a.right),
            ),
            ways_write_target(f, a.left),
        ),
        Expression::Logical(l) => then_ways(
            ways_expression(f, l.left),
            either(ways_expression(f, l.right), still()),
        ),
        Expression::Conditional(c) => then_ways(
            ways_expression(f, c.test),
            either(ways_expression(f, c.consequent), ways_expression(f, c.alternate)),
        ),
        Expression::Await(a) => then_ways(ways_expression(f, a.argument), suspending()),
        Expression::Yield(y) => then_ways(ways_optional(f, y.argument), suspending()),
        Expression::Object(o) => ways_object_properties(f, o.properties@),
        Expression::Array(a) => ways_expressions(f, a.elements@),
        Expression::Wrapped(w) => ways_expression(f, w.expression),
        Expression::Jsx(j) => then_ways(
            then_ways(
                then_ways(
                    match j.name {
                        Some(name) => reading(f, name),
                        None => still(),
                    },
                    ways_expressions(f, j.attributes@),
                ),
                ways_expressions(f, j.children@),
            ),
            match j.name {
                Some(name) if j.has_closing => reading(f, name),
                _ => still(),
            },
        ),
        Expression::Shared(e) => ways_expression(f, *e),
        Expression::Other(o) => ways_expressions(f, o.children@),
    }
}

/// The ways through expressions.
pub open spec fn ways_expressions(f: Scene, list: Seq<Expression>) -> Ways
    decreases list, 0nat,
{
    if list.len() == 0 {
        still()
    } else {
        then_ways(ways_expressions(f, list.drop_last()), ways_expression(f, list.last()))
    }
}

/// The ways through an expression that may be left out.
pub open spec fn ways_optional(f: Scene, expr: Option<Expression>) -> Ways
    decreases expr, 0nat,
{
    match expr {
        Some(expr) => ways_expression(f, expr),
        None => still(),
    }
}

/// The ways through arguments.
pub open spec fn ways_arguments(f: Scene, list: Seq<Argument>) -> Ways
    decreases list, 0nat,
{
    if list.len() == 0 {
        still()
    } else {
        then_ways(
            ways_arguments(f, list.drop_last()),
            match list.last() {
                Argument::Spread(e) => ways_expression(f, e.argument),
                Argument::Expression(expr) => ways_expression(f, expr),
            },
        )
    }
}

/// The ways through a key.
pub open spec fn ways_key(f: Scene, key: PropertyKey) -> Ways
    decreases key, 0nat,
{
    match key {
        PropertyKey::Expression(key) => ways_expression(f, key.expression),
        _ => still(),
    }
}

/// The ways through the properties of an object.
pub open spec fn ways_object_properties(f: Scene, list: Seq<ObjectPropertyKind>) -> Ways
    decreases list, 0nat,
{
    if list.len() == 0 {
        still()
    } else {
        then_ways(
            ways_object_properties(f, list.drop_last()),
            match list.last() {
                ObjectPropertyKind::ObjectProperty(p) => then_ways(
                    ways_key(f, p.key),
                    ways_expression(f, p.value),
                ),
                ObjectPropertyKind::SpreadProperty(expr) => ways_expression(f, expr),
            },
        )
    }
}

/// The ways through the left side of an assignment, which reads what it assigns if the
/// assignment is a compound one.
pub open spec fn ways_left_side(f: Scene, target: AssignmentTarget, is_compound: bool) -> Ways
    decreases target, 1nat,
{
    match target {
        AssignmentTarget::Identifier(ident) => if is_compound {
            reading(f, ident)
        } else {
            still()
        },
        AssignmentTarget::StaticMember(m) => then_ways(
            ways_expression(f, m.object),
            if is_compound {
                reading_property(f, m.object)
            } else {
                still()
            },
        ),
        AssignmentTarget::ComputedMember(m) => then_ways(
            then_ways(ways_expression(f, m.object), ways_expression(f, m.expression)),
            if is_compound {
                reading_property(f, m.object)
            } else {
                still()
            },
        ),
        AssignmentTarget::PrivateField(m) => then_ways(
            ways_expression(f, m.object),
            if is_compound {
                reading_property(f, m.object)
            } else {
                still()
            },
        ),
        _ => ways_target(f, target),
    }
}

/// The ways through a target before it is written.
pub open spec fn ways_target(f: Scene, target: AssignmentTarget) -> Ways
    decreases target, 0nat,
{
    match target {
        AssignmentTarget::Identifier(ident) => reading(f, ident),
        AssignmentTarget::StaticMember(m) => then_ways(
            ways_expression(f, m.object),
            reading_property(f, m.object),
        ),
        AssignmentTarget::ComputedMember(m) => then_ways(
            then_ways(ways_expression(f, m.object), ways_expression(f, m.expression)),
            reading_property(f, m.object),
        ),
        AssignmentTarget::PrivateField(m) => then_ways(
            ways_expression(f, m.object),
            reading_property(f, m.object),
        ),
        AssignmentTarget::Wrapped(w) => ways_expression(f, w.expression),
        AssignmentTarget::Array(t) => then_ways(
            ways_target_elements(f, t.elements@),
            match t.rest {
                Some(rest) => ways_target(f, rest),
                None => still(),
            },
        ),
        AssignmentTarget::Object(t) => then_ways(
            ways_target_properties(f, t.properties@),
            match t.rest {
                Some(rest) => ways_target(f, rest),
                None => still(),
            },
        ),
    }
}

/// The ways through a target with a default.
pub open spec fn ways_maybe_default(f: Scene, target: AssignmentTargetMaybeDefault) -> Ways
    decreases target, 0nat,
{
    then_ways(ways_target(f, target.binding), ways_optional(f, target.init))
}

/// The ways through the elements of a target.
pub open spec fn ways_target_elements(
    f: Scene,
    list: Seq<Option<AssignmentTargetMaybeDefault>>,
) -> Ways
    decreases list, 0nat,
{
    if list.len() == 0 {
        still()
    } else {
        then_ways(
            ways_target_elements(f, list.drop_last()),
            match list.last() {
                Some(t) => ways_maybe_default(f, t),
                None => still(),
            },
        )
    }
}

/// The ways through the properties of a target.
pub open spec fn ways_target_properties(f: Scene, list: Seq<AssignmentTargetProperty>) -> Ways
    decreases list, 0nat,
{
    if list.len() == 0 {
        still()
    } else {
        then_ways(
            ways_target_properties(f, list.drop_last()),
            match list.last() {
                AssignmentTargetProperty::Identifier(p) => then_ways(
                    reading(f, p.binding),
                    ways_optional(f, p.init),
                ),
                AssignmentTargetProperty::Property(p) => then_ways(
                    ways_key(f, p.name),
                    ways_maybe_default(f, p.binding),
                ),
            },
        )
    }
}

/// The ways through what a declaration binds.
pub open spec fn ways_pattern(f: Scene, pattern: BindingPattern) -> Ways
    decreases pattern, 0nat,
{
    match pattern {
        BindingPattern::Identifier(_) => still(),
        BindingPattern::Object(p) => then_ways(
            ways_pattern_properties(f, p.properties@),
            match p.rest {
                Some(rest) => ways_pattern(f, rest),
                None => still(),
            },
        ),
        BindingPattern::Array(p) => then_ways(
            ways_pattern_elements(f, p.elements@),
            match p.rest {
                Some(rest) => ways_pattern(f, rest),
                None => still(),
            },
        ),
        BindingPattern::Assignment(p) => then_ways(
            ways_pattern(f, p.left),
            ways_expression(f, p.right),
        ),
    }
}

/// The ways through the properties of a pattern.
pub open spec fn ways_pattern_properties(f: Scene, list: Seq<BindingProperty>) -> Ways
    decreases list, 0nat,
{
    if list.len() == 0 {
        still()
    } else {
        then_ways(
            ways_pattern_properties(f, list.drop_last()),
            then_ways(ways_key(f, list.last().key), ways_pattern(f, list.last().value)),
        )
    }
}

/// The ways through the elements of a pattern.
pub open spec fn ways_pattern_elements(f: Scene, list: Seq<Option<BindingPattern>>) -> Ways
    decreases list, 0nat,
{
    if list.len() == 0 {
        still()
    } else {
        then_ways(
            ways_pattern_elements(f, list.drop_last()),
            match list.last() {
                Some(pattern) => ways_pattern(f, pattern),
                None => still(),
            },
        )
    }
}

/// The ways through a class.
pub open spec fn ways_class(f: Scene, class: Class) -> Ways
    decreases class, 0nat,
{
    then_ways(
        then_ways(ways_expressions(f, class.decorators@), ways_optional(f, class.super_class)),
        ways_class_elements(f, class.body@),
    )
}

/// The ways through the members of a class.
pub open spec fn ways_class_elements(f: Scene, list: Seq<ClassElement>) -> Ways
    decreases list, 0nat,
{
    if list.len() == 0 {
        still()
    } else {
        then_ways(
            ways_class_elements(f, list.drop_last()),
            match list.last() {
                ClassElement::StaticBlock(b) => ways_statements(f, b.body@),
                ClassElement::MethodDefinition(m) => then_ways(
                    ways_expressions(f, m.decorators@),
                    ways_key(f, m.key),
                ),
                ClassElement::PropertyDefinition(p) => then_ways(
                    then_ways(ways_expressions(f, p.decorators@), ways_key(f, p.key)),
                    ways_optional(f, p.value),
                ),
                ClassElement::AccessorProperty(p) => then_ways(
                    then_ways(ways_expressions(f, p.decorators@), ways_key(f, p.key)),
                    ways_optional(f, p.value),
                ),
                ClassElement::IndexSignature(_) => still(),
            },
        )
    }
}

/// The ways through declared variables.
pub open spec fn ways_declarators(f: Scene, list: Seq<VariableDeclarator>) -> Ways
    decreases list, 0nat,
{
    if list.len() == 0 {
        still()
    } else {
        then_ways(
            ways_declarators(f, list.drop_last()),
            then_ways(ways_pattern(f, list.last().id), ways_optional(f, list.last().init)),
        )
    }
}

/// The ways through a declaration.
pub open spec fn ways_declaration(f: Scene, declaration: Declaration) -> Ways
    decreases declaration, 0nat,
{
    match declaration {
        Declaration::Variable(d) => ways_declarators(f, d.declarations@),
        Declaration::Class(c) => ways_class(f, *c),
        Declaration::Function(_) | Declaration::TypeOnly(_) => still(),
    }
}

/// The ways through a loop over members.
pub open spec fn ways_for_each(f: Scene, stmt: ForEachStatement) -> Ways
    decreases stmt, 0nat,
{
    then_ways(
        ways_expression(f, stmt.right),
        either(
            then_ways(
                then_ways(
                    match stmt.left {
                        ForStatementLeft::VariableDeclaration(d) => ways_declarators(
                            f,
                            d.declarations@,
                        ),
                        ForStatementLeft::AssignmentTarget(target) => ways_target(f, target),
                    },
                    ways_write_left(f, stmt.left),
                ),
                ways_statement(f, stmt.body),
            ),
            still(),
        ),
    )
}

/// The ways through a statement.
pub open spec fn ways_statement(f: Scene, stmt: Statement) -> Ways
    decreases stmt, 0nat,
{
    match stmt {
        Statement::Expression(e) => ways_expression(f, e.expression),
        Statement::Declaration(d) => ways_declaration(f, d),
        Statement::Import(_) | Statement::ExportAll(_) => still(),
        Statement::ExportNamed(e) => match e.declaration {
            Some(d) => ways_declaration(f, d),
            None => still(),
        },
        Statement::ExportDefault(e) => match e.declaration {
            ExportDefaultDeclarationKind::Expression(expr) => ways_expression(f, expr),
            ExportDefaultDeclarationKind::Class(c) => ways_class(f, *c),
            ExportDefaultDeclarationKind::Function(_)
            | ExportDefaultDeclarationKind::TypeOnly(_) => still(),
        },
        Statement::Return(r) => ways_optional(f, r.argument),
        Statement::Try(t) => then_ways(
            then_ways(
                ways_statements(f, t.block.body@),
                match t.handler {
                    Some(h) => then_ways(
                        match h.param {
                            Some(p) => ways_pattern(f, p),
                            None => still(),
                        },
                        ways_statements(f, h.body.body@),
                    ),
                    None => still(),
                },
            ),
            match t.finalizer {
                Some(b) => ways_statements(f, b.body@),
                None => still(),
            },
        ),
        Statement::Block(b) => ways_statements(f, b.body@),
        Statement::If(i) => then_ways(
            ways_expression(f, i.test),
            either(
                ways_statement(f, i.consequent),
                match i.alternate {
                    Some(a) => ways_statement(f, a),
                    None => still(),
                },
            ),
        ),
        Statement::For(l) => then_ways(
            then_ways(
                match l.init {
                    Some(ForStatementInit::VariableDeclaration(d)) => ways_declarators(
                        f,
                        d.declarations@,
                    ),
                    Some(ForStatementInit::Expression(expr)) => ways_expression(f, expr),
                    None => still(),
                },
                ways_optional(f, l.test),
            ),
            either(then_ways(ways_statement(f, l.body), ways_optional(f, l.update)), still()),
        ),
        Statement::While(l) => then_ways(
            ways_expression(f, l.test),
            either(ways_statement(f, l.body), still()),
        ),
        Statement::ForIn(l) => ways_for_each(f, *l),
        Statement::ForOf(l) => ways_for_each(f, *l),
        Statement::Other(o) => ways_children(f, o.children@),
    }
}

/// The ways through statements.
pub open spec fn ways_statements(f: Scene, list: Seq<Statement>) -> Ways
    decreases list, 0nat,
{
    if list.len() == 0 {
        still()
    } else {
        then_ways(ways_statements(f, list.drop_last()), ways_statement(f, list.last()))
    }
}

/// The ways through the parts of another statement.
pub open spec fn ways_children(f: Scene, list: Seq<StatementChild>) -> Ways
    decreases list, 0nat,
{
    if list.len() == 0 {
        still()
    } else {
        then_ways(
            ways_children(f, list.drop_last()),
            match list.last() {
                StatementChild::Expression(expr) => ways_expression(f, expr),
                StatementChild::Statement(stmt) => ways_statement(f, stmt),
                StatementChild::BindingPattern(pattern) => ways_pattern(f, pattern),
            },
        )
    }
}

proof fn sums_write_expression(f: Scene, expr: Expression, s: Flow)
    ensures
        sums(ways_write_expression(f, expr), s, write_expression(f, expr, s)),
    decreases expr,
{
    match expr {
        Expression::Identifier(ident) => {
            sums_writing(f, ident, s);
        },
        Expression::StaticMember(m) => {
            sums_writing_property(f, m.object, m.span, s);
        },
        Expression::ComputedMember(m) => {
            sums_writing_property(f, m.object, m.span, s);
        },
        Expression::PrivateField(m) => {
            sums_writing_property(f, m.object, m.span, s);
        },
        Expression::Wrapped(w) if w.wrapper != Wrapper::TSInstantiation => {
            sums_write_expression(f, w.expression, s);
        },
        _ => {
            sums_still(s, s);
        },
    }
}

proof fn sums_write_target(f: Scene, target: AssignmentTarget, s: Flow)
    ensures
        sums(ways_write_target(f, target), s, write_target(f, target, s)),
    decreases target,
{
    match target {
        AssignmentTarget::Identifier(ident) => {
            sums_writing(f, ident, s);
        },
        AssignmentTarget::StaticMember(m) => {
            sums_writing_property(f, m.object, m.span, s);
        },
        AssignmentTarget::ComputedMember(m) => {
            sums_writing_property(f, m.object, m.span, s);
        },
        AssignmentTarget::PrivateField(m) => {
            sums_writing_property(f, m.object, m.span, s);
        },
        AssignmentTarget::Wrapped(w) => {
            sums_write_expression(f, w.expression, s);
        },
        AssignmentTarget::Array(t) => {
            sums_write_elements(f, t.elements@, s);
            let s1 = write_elements(f, t.elements@, s);
            match t.rest {
                Some(rest) => {
                    sums_write_target(f, rest, s1);
                },
                None => {
                    sums_still(s1, s1);
                },
            }
            let s2 = match t.rest {
                Some(rest) => write_target(f, rest, s1),
                None => s1,
            };
            sums_then(
                ways_write_elements(f, t.elements@),
                match t.rest {
                    Some(rest) => ways_write_target(f, rest),
                    None => still(),
                },
                s,
                s1,
                s2,
            );
        },
        AssignmentTarget::Object(t) => {
            sums_write_properties(f, t.properties@, s);
            let s3 = write_properties(f, t.properties@, s);
            match t.rest {
                Some(rest) => {
                    sums_write_target(f, rest, s3);
                },
                None => {
                    sums_still(s3, s3);
                },
            }
            let s4 = match t.rest {
                Some(rest) => write_target(f, rest, s3),
                None => s3,
            };
            sums_then(
                ways_write_properties(f, t.properties@),
                match t.rest {
                    Some(rest) => ways_write_target(f, rest),
                    None => still(),
                },
                s,
                s3,
                s4,
            );
        },
    }
}

proof fn sums_write_elements(f: Scene, list: Seq<Option<AssignmentTargetMaybeDefault>>, s: Flow)
    ensures
        sums(ways_write_elements(f, list), s, write_elements(f, list, s)),
    decreases list,
{
    if list.len() == 0 {
        sums_still(s, s);
    } else {
        sums_write_elements(f, list.drop_last(), s);
        let s1 = write_elements(f, list.drop_last(), s);
        match list.last() {
            Some(t) => {
                sums_write_target(f, t.binding, s1);
            },
            None => {
                sums_still(s1, s1);
            },
        }
        let s2 = match list.last() {
            Some(t) => write_target(f, t.binding, s1),
            None => s1,
        };
        sums_then(
            ways_write_elements(f, list.drop_last()),
            match list.last() {
                Some(t) => ways_write_target(f, t.binding),
                None => still(),
            },
            s,
            s1,
            s2,
        );
    }
}

proof fn sums_write_properties(f: Scene, list: Seq<AssignmentTargetProperty>, s: Flow)
    ensures
        sums(ways_write_properties(f, list), s, write_properties(f, list, s)),
    decreases list,
{
    if list.len() == 0 {
        sums_still(s, s);
    } else {
        sums_write_properties(f, list.drop_last(), s);
        let s1 = write_properties(f, list.drop_last(), s);
        match list.last() {
            AssignmentTargetProperty::Identifier(p) => {
                sums_writing(f, p.binding, s1);
            },
            AssignmentTargetProperty::Property(p) => {
                sums_write_target(f, p.binding.binding, s1);
            },
        }
        let s2 = match list.last() {
            AssignmentTargetProperty::Identifier(p) => write_identifier(f, p.binding, s1),
            AssignmentTargetProperty::Property(p) => write_target(f, p.binding.binding, s1),
        };
        sums_then(
            ways_write_properties(f, list.drop_last()),
            match list.last() {
                AssignmentTargetProperty::Identifier(p) => writing(f, p.binding),
                AssignmentTargetProperty::Property(p) => ways_write_target(f, p.binding.binding),
            },
            s,
            s1,
            s2,
        );
    }
}

proof fn sums_write_left(f: Scene, left: ForStatementLeft, s: Flow)
    ensures
        sums(ways_write_left(f, left), s, write_left(f, left, s)),
{
    match left {
        ForStatementLeft::VariableDeclaration(_) => {
            sums_still(s, s);
        },
        ForStatementLeft::AssignmentTarget(target) => {
            sums_write_target(f, target, s);
        },
    }
}

proof fn sums_expression(f: Scene, expr: Expression, s: Flow)
    ensures
        sums(ways_expression(f, expr), s, walk_expression(f, expr, s)),
    decreases expr, 0nat,
{
    match expr {
        Expression::Identifier(ident) => {
            sums_reading(f, ident, s);
        },
        Expression::This(_)
        | Expression::StringLiteral(_)
        | Expression::NumericLiteral(_)
        | Expression::BooleanLiteral(_)
        | Expression::MetaProperty(_)
        | Expression::Function(_)
        | Expression::Arrow(_) => {
            sums_still(s, s);
        },
        Expression::TemplateLiteral(t) => {
            sums_expressions(f, t.expressions@, s);
        },
        Expression::StaticMember(m) => {
            sums_expression(f, m.object, s);
            let s1 = walk_expression(f, m.object, s);
            sums_reading_property(f, m.object, s1);
            let s2 = read_property(f, m.object, s1);
            sums_then(ways_expression(f, m.object), reading_property(f, m.object), s, s1, s2);
        },
        Expression::ComputedMember(m) => {
            sums_expression(f, m.object, s);
            let s3 = walk_expression(f, m.object, s);
            sums_expression(f, m.expression, s3);
            let s4 = walk_expression(f, m.expression, s3);
            sums_then(ways_expression(f, m.object), ways_expression(f, m.expression), s, s3, s4);
            sums_reading_property(f, m.object, s4);
            let s5 = read_property(f, m.object, s4);
            sums_then(
                then_ways(ways_expression(f, m.object), ways_expression(f, m.expression)),
                reading_property(f, m.object),
                s,
                s4,
                s5,
            );
        },
        Expression::PrivateField(m) => {
            sums_expression(f, m.object, s);
            let s6 = walk_expression(f, m.object, s);
            sums_reading_property(f, m.object, s6);
            let s7 = read_property(f, m.object, s6);
            sums_then(ways_expression(f, m.object), reading_property(f, m.object), s, s6, s7);
        },
        Expression::Call(c) => {
            sums_expression(f, c.callee, s);
            let s8 = walk_expression(f, c.callee, s);
            sums_arguments(f, c.arguments@, s8);
            let s9 = walk_arguments(f, c.arguments@, s8);
            sums_then(ways_expression(f, c.callee), ways_arguments(f, c.arguments@), s, s8, s9);
        },
        Expression::Class(c) => {
            sums_class(f, *c, s);
        },
        Expression::Assignment(a) => {
            sums_left_side(f, a.left, a.operator != AssignmentOperator::Assign, s);
            let s10 = walk_left_side(f, a.left, a.operator != AssignmentOperator::Assign, s);
            sums_expression(f, a.right, s10);
            let s11 = walk_expression(f, a.right, s10);
            sums_then(
                ways_left_side(f, a.left, a.operator != AssignmentOperator::Assign),
                ways_expression(f, a.right),
                s,
                s10,
                s11,
            );
            sums_write_target(f, a.left, s11);
            let s12 = write_target(f, a.left, s11);
            sums_then(
                then_ways(
                    ways_left_side(f, a.left, a.operator != AssignmentOperator::Assign),
                    ways_expression(f, a.right),
                ),
                ways_write_target(f, a.left),
                s,
                s11,
                s12,
            );
        },
        Expression::Logical(l) => {
            sums_expression(f, l.left, s);
            let s13 = walk_expression(f, l.left, s);
            sums_expression(f, l.right, s13);
            sums_maybe(ways_expression(f, l.right), s13, walk_expression(f, l.right, s13));
            let s14 = walk_expression(f, l.right, s13).merge(s13);
            sums_then(
                ways_expression(f, l.left),
                either(ways_expression(f, l.right), still()),
                s,
                s13,
                s14,
            );
        },
        Expression::Conditional(c) => {
            sums_expression(f, c.test, s);
            let s15 = walk_expression(f, c.test, s);
            sums_expression(f, c.consequent, s15);
            let s16 = walk_expression(f, c.consequent, s15);
            let s17 = s15.with_reports_of(s16);
            sums_expression(f, c.alternate, s17);
            let s18 = walk_expression(f, c.alternate, s17);
            sums_either(
                ways_expression(f, c.consequent),
                ways_expression(f, c.alternate),
                s15,
                s16,
                s18,
            );
            let s19 = s18.merge(s16);
            sums_then(
                ways_expression(f, c.test),
                either(ways_expression(f, c.consequent), ways_expression(f, c.alternate)),
                s,
                s15,
                s19,
            );
        },
        Expression::Await(a) => {
            sums_expression(f, a.argument, s);
            let s20 = walk_expression(f, a.argument, s);
            sums_suspending(s20);
            let s21 = s20.outdate();
            sums_then(ways_expression(f, a.argument), suspending(), s, s20, s21);
        },
        Expression::Yield(y) => {
            sums_optional(f, y.argument, s);
            let s22 = walk_optional(f, y.argument, s);
            sums_suspending(s22);
            let s23 = s22.outdate();
            sums_then(ways_optional(f, y.argument), suspending(), s, s22, s23);
        },
        Expression::Object(o) => {
            sums_object_properties(f, o.properties@, s);
        },
        Expression::Array(a) => {
            sums_expressions(f, a.elements@, s);
        },
        Expression::Wrapped(w) => {
            sums_expression(f, w.expression, s);
        },
        Expression::Jsx(j) => {
            match j.name {
                Some(name) => {
                    sums_reading(f, name, s);
                },
                None => {
                    sums_still(s, s);
                },
            }
            let s24 = match j.name {
                Some(name) => read_identifier(f, name, s),
                None => s,
            };
            sums_expressions(f, j.attributes@, s24);
            let s25 = walk_expressions(f, j.attributes@, s24);
            sums_then(
                match j.name {
                    Some(name) => reading(f, name),
                    None => still(),
                },
                ways_expressions(f, j.attributes@),
                s,
                s24,
                s25,
            );
            sums_expressions(f, j.children@, s25);
            let s26 = walk_expressions(f, j.children@, s25);
            sums_then(
                then_ways(
                    match j.name {
                        Some(name) => reading(f, name),
                        None => still(),
                    },
                    ways_expressions(f, j.attributes@),
                ),
                ways_expressions(f, j.children@),
                s,
                s25,
                s26,
            );
            match j.name {
                Some(name) if j.has_closing => {
                    sums_reading(f, name, s26);
                },
                _ => {
                    sums_still(s26, s26);
                },
            }
            let s27 = match j.name {
                Some(name) if j.has_closing => read_identifier(f, name, s26),
                _ => s26,
            };
            sums_then(
                then_ways(
                    then_ways(
                        match j.name {
                            Some(name) => reading(f, name),
                            None => still(),
                        },
                        ways_expressions(f, j.attributes@),
                    ),
                    ways_expressions(f, j.children@),
                ),
                match j.name {
                    Some(name) if j.has_closing => reading(f, name),
                    _ => still(),
                },
                s,
                s26,
                s27,
            );
        },
        Expression::Shared(e) => {
            sums_expression(f, unshared(e), s);
        },
        Expression::Other(o) => {
            sums_expressions(f, o.children@, s);
        },
    }
}

proof fn sums_expressions(f: Scene, list: Seq<Expression>, s: Flow)
    ensures
        sums(ways_expressions(f, list), s, walk_expressions(f, list, s)),
    decreases list, 0nat,
{
    if list.len() == 0 {
        sums_still(s, s);
    } else {
        sums_expressions(f, list.drop_last(), s);
        let s1 = walk_expressions(f, list.drop_last(), s);
        sums_expression(f, list.last(), s1);
        let s2 = walk_expression(f, list.last(), s1);
        sums_then(
            ways_expressions(f, list.drop_last()),
            ways_expression(f, list.last()),
            s,
            s1,
            s2,
        );
    }
}

proof fn sums_optional(f: Scene, expr: Option<Expression>, s: Flow)
    ensures
        sums(ways_optional(f, expr), s, walk_optional(f, expr, s)),
    decreases expr, 0nat,
{
    match expr {
        Some(expr) => {
            sums_expression(f, expr, s);
        },
        None => {
            sums_still(s, s);
        },
    }
}

proof fn sums_arguments(f: Scene, list: Seq<Argument>, s: Flow)
    ensures
        sums(ways_arguments(f, list), s, walk_arguments(f, list, s)),
    decreases list, 0nat,
{
    if list.len() == 0 {
        sums_still(s, s);
    } else {
        sums_arguments(f, list.drop_last(), s);
        let s1 = walk_arguments(f, list.drop_last(), s);
        match list.last() {
            Argument::Spread(e) => {
                sums_expression(f, e.argument, s1);
            },
            Argument::Expression(expr) => {
                sums_expression(f, expr, s1);
            },
        }
        let s2 = match list.last() {
            Argument::Spread(e) => walk_expression(f, e.argument, s1),
            Argument::Expression(expr) => walk_expression(f, expr, s1),
        };
        sums_then(
            ways_arguments(f, list.drop_last()),
            match list.last() {
                Argument::Spread(e) => ways_expression(f, e.argument),
                Argument::Expression(expr) => ways_expression(f, expr),
            },
            s,
            s1,
            s2,
        );
    }
}

proof fn sums_key(f: Scene, key: PropertyKey, s: Flow)
    ensures
        sums(ways_key(f, key), s, walk_key(f, key, s)),
    decreases key, 0nat,
{
    match key {
        PropertyKey::Expression(key) => {
            sums_expression(f, key.expression, s);
        },
        _ => {
            sums_still(s, s);
        },
    }
}

proof fn sums_object_properties(f: Scene, list: Seq<ObjectPropertyKind>, s: Flow)
    ensures
        sums(ways_object_properties(f, list), s, walk_object_properties(f, list, s)),
    decreases list, 0nat,
{
    if list.len() == 0 {
        sums_still(s, s);
    } else {
        sums_object_properties(f, list.drop_last(), s);
        let s1 = walk_object_properties(f, list.drop_last(), s);
        match list.last() {
            ObjectPropertyKind::ObjectProperty(p) => {
                sums_key(f, p.key, s1);
                let s2 = walk_key(f, p.key, s1);
                sums_expression(f, p.value, s2);
                let s3 = walk_expression(f, p.value, s2);
                sums_then(ways_key(f, p.key), ways_expression(f, p.value), s1, s2, s3);
            },
            ObjectPropertyKind::SpreadProperty(expr) => {
                sums_expression(f, expr, s1);
            },
        }
        let s4 = match list.last() {
            ObjectPropertyKind::ObjectProperty(p) => walk_expression(
                f,
                p.value,
                walk_key(f, p.key, s1),
            ),
            ObjectPropertyKind::SpreadProperty(expr) => walk_expression(f, expr, s1),
        };
        sums_then(
            ways_object_properties(f, list.drop_last()),
            match list.last() {
                ObjectPropertyKind::ObjectProperty(p) => then_ways(
                    ways_key(f, p.key),
                    ways_expression(f, p.value),
                ),
                ObjectPropertyKind::SpreadProperty(expr) => ways_expression(f, expr),
            },
            s,
            s1,
            s4,
        );
    }
}

proof fn sums_left_side(f: Scene, target: AssignmentTarget, is_compound: bool, s: Flow)
    ensures
        sums(ways_left_side(f, target, is_compound), s, walk_left_side(f, target, is_compound, s)),
    decreases target, 1nat,
{
    match target {
        AssignmentTarget::Identifier(ident) => {
            if is_compound {
                sums_reading(f, ident, s);
            } else {
                sums_still(s, s);
            }
        },
        AssignmentTarget::StaticMember(m) => {
            sums_expression(f, m.object, s);
            let s1 = walk_expression(f, m.object, s);
            if is_compound {
                sums_reading_property(f, m.object, s1);
            } else {
                sums_still(s1, s1);
            }
            let s2 = if is_compound {
                read_property(f, m.object, s1)
            } else {
                s1
            };
            sums_then(
                ways_expression(f, m.object),
                if is_compound {
                    reading_property(f, m.object)
                } else {
                    still()
                },
                s,
                s1,
                s2,
            );
        },
        AssignmentTarget::ComputedMember(m) => {
            sums_expression(f, m.object, s);
            let s3 = walk_expression(f, m.object, s);
            sums_expression(f, m.expression, s3);
            let s4 = walk_expression(f, m.expression, s3);
            sums_then(ways_expression(f, m.object), ways_expression(f, m.expression), s, s3, s4);
            if is_compound {
                sums_reading_property(f, m.object, s4);
            } else {
                sums_still(s4, s4);
            }
            let s5 = if is_compound {
                read_property(f, m.object, s4)
            } else {
                s4
            };
            sums_then(
                then_ways(ways_expression(f, m.object), ways_expression(f, m.expression)),
                if is_compound {
                    reading_property(f, m.object)
                } else {
                    still()
                },
                s,
                s4,
                s5,
            );
        },
        AssignmentTarget::PrivateField(m) => {
            sums_expression(f, m.object, s);
            let s6 = walk_expression(f, m.object, s);
            if is_compound {
                sums_reading_property(f, m.object, s6);
            } else {
                sums_still(s6, s6);
            }
            let s7 = if is_compound {
                read_property(f, m.object, s6)
            } else {
                s6
            };
            sums_then(
                ways_expression(f, m.object),
                if is_compound {
                    reading_property(f, m.object)
                } else {
                    still()
                },
                s,
                s6,
                s7,
            );
        },
        _ => {
            sums_target(f, target, s);
        },
    }
}

proof fn sums_target(f: Scene, target: AssignmentTarget, s: Flow)
    ensures
        sums(ways_target(f, target), s, walk_target(f, target, s)),
    decreases target, 0nat,
{
    match target {
        AssignmentTarget::Identifier(ident) => {
            sums_reading(f, ident, s);
        },
        AssignmentTarget::StaticMember(m) => {
            sums_expression(f, m.object, s);
            let s1 = walk_expression(f, m.object, s);
            sums_reading_property(f, m.object, s1);
            let s2 = read_property(f, m.object, s1);
            sums_then(ways_expression(f, m.object), reading_property(f, m.object), s, s1, s2);
        },
        AssignmentTarget::ComputedMember(m) => {
            sums_expression(f, m.object, s);
            let s3 = walk_expression(f, m.object, s);
            sums_expression(f, m.expression, s3);
            let s4 = walk_expression(f, m.expression, s3);
            sums_then(ways_expression(f, m.object), ways_expression(f, m.expression), s, s3, s4);
            sums_reading_property(f, m.object, s4);
            let s5 = read_property(f, m.object, s4);
            sums_then(
                then_ways(ways_expression(f, m.object), ways_expression(f, m.expression)),
                reading_property(f, m.object),
                s,
                s4,
                s5,
            );
        },
        AssignmentTarget::PrivateField(m) => {
            sums_expression(f, m.object, s);
            let s6 = walk_expression(f, m.object, s);
            sums_reading_property(f, m.object, s6);
            let s7 = read_property(f, m.object, s6);
            sums_then(ways_expression(f, m.object), reading_property(f, m.object), s, s6, s7);
        },
        AssignmentTarget::Wrapped(w) => {
            sums_expression(f, w.expression, s);
        },
        AssignmentTarget::Array(t) => {
            sums_target_elements(f, t.elements@, s);
            let s8 = walk_target_elements(f, t.elements@, s);
            match t.rest {
                Some(rest) => {
                    sums_target(f, rest, s8);
                },
                None => {
                    sums_still(s8, s8);
                },
            }
            let s9 = match t.rest {
                Some(rest) => walk_target(f, rest, s8),
                None => s8,
            };
            sums_then(
                ways_target_elements(f, t.elements@),
                match t.rest {
                    Some(rest) => ways_target(f, rest),
                    None => still(),
                },
                s,
                s8,
                s9,
            );
        },
        AssignmentTarget::Object(t) => {
            sums_target_properties(f, t.properties@, s);
            let s10 = walk_target_properties(f, t.properties@, s);
            match t.rest {
                Some(rest) => {
                    sums_target(f, rest, s10);
                },
                None => {
                    sums_still(s10, s10);
                },
            }
            let s11 = match t.rest {
                Some(rest) => walk_target(f, rest, s10),
                None => s10,
            };
            sums_then(
                ways_target_properties(f, t.properties@),
                match t.rest {
                    Some(rest) => ways_target(f, rest),
                    None => still(),
                },
                s,
                s10,
                s11,
            );
        },
    }
}

proof fn sums_maybe_default(f: Scene, target: AssignmentTargetMaybeDefault, s: Flow)
    ensures
        sums(ways_maybe_default(f, target), s, walk_maybe_default(f, target, s)),
    decreases target, 0nat,
{
    sums_target(f, target.binding, s);
    let s1 = walk_target(f, target.binding, s);
    sums_optional(f, target.init, s1);
    let s2 = walk_optional(f, target.init, s1);
    sums_then(ways_target(f, target.binding), ways_optional(f, target.init), s, s1, s2);
}

proof fn sums_target_elements(f: Scene, list: Seq<Option<AssignmentTargetMaybeDefault>>, s: Flow)
    ensures
        sums(ways_target_elements(f, list), s, walk_target_elements(f, list, s)),
    decreases list, 0nat,
{
    if list.len() == 0 {
        sums_still(s, s);
    } else {
        sums_target_elements(f, list.drop_last(), s);
        let s1 = walk_target_elements(f, list.drop_last(), s);
        match list.last() {
            Some(t) => {
                sums_maybe_default(f, t, s1);
            },
            None => {
                sums_still(s1, s1);
            },
        }
        let s2 = match list.last() {
            Some(t) => walk_maybe_default(f, t, s1),
            None => s1,
        };
        sums_then(
            ways_target_elements(f, list.drop_last()),
            match list.last() {
                Some(t) => ways_maybe_default(f, t),
                None => still(),
            },
            s,
            s1,
            s2,
        );
    }
}

proof fn sums_target_properties(f: Scene, list: Seq<AssignmentTargetProperty>, s: Flow)
    ensures
        sums(ways_target_properties(f, list), s, walk_target_properties(f, list, s)),
    decreases list, 0nat,
{
    if list.len() == 0 {
        sums_still(s, s);
    } else {
        sums_target_properties(f, list.drop_last(), s);
        let s1 = walk_target_properties(f, list.drop_last(), s);
        match list.last() {
            AssignmentTargetProperty::Identifier(p) => {
                sums_reading(f, p.binding, s1);
                let s2 = read_identifier(f, p.binding, s1);
                sums_optional(f, p.init, s2);
                let s3 = walk_optional(f, p.init, s2);
                sums_then(reading(f, p.binding), ways_optional(f, p.init), s1, s2, s3);
            },
            AssignmentTargetProperty::Property(p) => {
                sums_key(f, p.name, s1);
                let s4 = walk_key(f, p.name, s1);
                sums_maybe_default(f, p.binding, s4);
                let s5 = walk_maybe_default(f, p.binding, s4);
                sums_then(ways_key(f, p.name), ways_maybe_default(f, p.binding), s1, s4, s5);
            },
        }
        let s6 = match list.last() {
            AssignmentTargetProperty::Identifier(p) => walk_optional(
                f,
                p.init,
                read_identifier(f, p.binding, s1),
            ),
            AssignmentTargetProperty::Property(p) => walk_maybe_default(
                f,
                p.binding,
                walk_key(f, p.name, s1),
            ),
        };
        sums_then(
            ways_target_properties(f, list.drop_last()),
            match list.last() {
                AssignmentTargetProperty::Identifier(p) => then_ways(
                    reading(f, p.binding),
                    ways_optional(f, p.init),
                ),
                AssignmentTargetProperty::Property(p) => then_ways(
                    ways_key(f, p.name),
                    ways_maybe_default(f, p.binding),
                ),
            },
            s,
            s1,
            s6,
        );
    }
}

proof fn sums_pattern(f: Scene, pattern: BindingPattern, s: Flow)
    ensures
        sums(ways_pattern(f, pattern), s, walk_pattern(f, pattern, s)),
    decreases pattern, 0nat,
{
    match pattern {
        BindingPattern::Identifier(_) => {
            sums_still(s, s);
        },
        BindingPattern::Object(p) => {
            sums_pattern_properties(f, p.properties@, s);
            let s1 = walk_pattern_properties(f, p.properties@, s);
            match p.rest {
                Some(rest) => {
                    sums_pattern(f, rest, s1);
                },
                None => {
                    sums_still(s1, s1);
                },
            }
            let s2 = match p.rest {
                Some(rest) => walk_pattern(f, rest, s1),
                None => s1,
            };
            sums_then(
                ways_pattern_properties(f, p.properties@),
                match p.rest {
                    Some(rest) => ways_pattern(f, rest),
                    None => still(),
                },
                s,
                s1,
                s2,
            );
        },
        BindingPattern::Array(p) => {
            sums_pattern_elements(f, p.elements@, s);
            let s3 = walk_pattern_elements(f, p.elements@, s);
            match p.rest {
                Some(rest) => {
                    sums_pattern(f, rest, s3);
                },
                None => {
                    sums_still(s3, s3);
                },
            }
            let s4 = match p.rest {
                Some(rest) => walk_pattern(f, rest, s3),
                None => s3,
            };
            sums_then(
                ways_pattern_elements(f, p.elements@),
                match p.rest {
                    Some(rest) => ways_pattern(f, rest),
                    None => still(),
                },
                s,
                s3,
                s4,
            );
        },
        BindingPattern::Assignment(p) => {
            sums_pattern(f, p.left, s);
            let s5 = walk_pattern(f, p.left, s);
            sums_expression(f, p.right, s5);
            let s6 = walk_expression(f, p.right, s5);
            sums_then(ways_pattern(f, p.left), ways_expression(f, p.right), s, s5, s6);
        },
    }
}

proof fn sums_pattern_properties(f: Scene, list: Seq<BindingProperty>, s: Flow)
    ensures
        sums(ways_pattern_properties(f, list), s, walk_pattern_properties(f, list, s)),
    decreases list, 0nat,
{
    if list.len() == 0 {
        sums_still(s, s);
    } else {
        sums_pattern_properties(f, list.drop_last(), s);
        let s1 = walk_pattern_properties(f, list.drop_last(), s);
        sums_key(f, list.last().key, s1);
        let s2 = walk_key(f, list.last().key, s1);
        sums_pattern(f, list.last().value, s2);
        let s3 = walk_pattern(f, list.last().value, s2);
        sums_then(ways_key(f, list.last().key), ways_pattern(f, list.last().value), s1, s2, s3);
        let s4 = s3;
        sums_then(
            ways_pattern_properties(f, list.drop_last()),
            then_ways(ways_key(f, list.last().key), ways_pattern(f, list.last().value)),
            s,
            s1,
            s4,
        );
    }
}

proof fn sums_pattern_elements(f: Scene, list: Seq<Option<BindingPattern>>, s: Flow)
    ensures
        sums(ways_pattern_elements(f, list), s, walk_pattern_elements(f, list, s)),
    decreases list, 0nat,
{
    if list.len() == 0 {
        sums_still(s, s);
    } else {
        sums_pattern_elements(f, list.drop_last(), s);
        let s1 = walk_pattern_elements(f, list.drop_last(), s);
        match list.last() {
            Some(pattern) => {
                sums_pattern(f, pattern, s1);
            },
            None => {
                sums_still(s1, s1);
            },
        }
        let s2 = match list.last() {
            Some(pattern) => walk_pattern(f, pattern, s1),
            None => s1,
        };
        sums_then(
            ways_pattern_elements(f, list.drop_last()),
            match list.last() {
                Some(pattern) => ways_pattern(f, pattern),
                None => still(),
            },
            s,
            s1,
            s2,
        );
    }
}

proof fn sums_class(f: Scene, class: Class, s: Flow)
    ensures
        sums(ways_class(f, class), s, walk_class(f, class, s)),
    decreases class, 0nat,
{
    sums_expressions(f, class.decorators@, s);
    let s1 = walk_expressions(f, class.decorators@, s);
    sums_optional(f, class.super_class, s1);
    let s2 = walk_optional(f, class.super_class, s1);
    sums_then(
        ways_expressions(f, class.decorators@),
        ways_optional(f, class.super_class),
        s,
        s1,
        s2,
    );
    sums_class_elements(f, class.body@, s2);
    let s3 = walk_class_elements(f, class.body@, s2);
    sums_then(
        then_ways(ways_expressions(f, class.decorators@), ways_optional(f, class.super_class)),
        ways_class_elements(f, class.body@),
        s,
        s2,
        s3,
    );
}

proof fn sums_class_elements(f: Scene, list: Seq<ClassElement>, s: Flow)
    ensures
        sums(ways_class_elements(f, list), s, walk_class_elements(f, list, s)),
    decreases list, 0nat,
{
    if list.len() == 0 {
        sums_still(s, s);
    } else {
        sums_class_elements(f, list.drop_last(), s);
        let s1 = walk_class_elements(f, list.drop_last(), s);
        match list.last() {
            ClassElement::StaticBlock(b) => {
                sums_statements(f, b.body@, s1);
            },
            ClassElement::MethodDefinition(m) => {
                sums_expressions(f, m.decorators@, s1);
                let s2 = walk_expressions(f, m.decorators@, s1);
                sums_key(f, m.key, s2);
                let s3 = walk_key(f, m.key, s2);
                sums_then(ways_expressions(f, m.decorators@), ways_key(f, m.key), s1, s2, s3);
            },
            ClassElement::PropertyDefinition(p) => {
                sums_expressions(f, p.decorators@, s1);
                let s4 = walk_expressions(f, p.decorators@, s1);
                sums_key(f, p.key, s4);
                let s5 = walk_key(f, p.key, s4);
                sums_then(ways_expressions(f, p.decorators@), ways_key(f, p.key), s1, s4, s5);
                sums_optional(f, p.value, s5);
                let s6 = walk_optional(f, p.value, s5);
                sums_then(
                    then_ways(ways_expressions(f, p.decorators@), ways_key(f, p.key)),
                    ways_optional(f, p.value),
                    s1,
                    s5,
                    s6,
                );
            },
            ClassElement::AccessorProperty(p) => {
                sums_expressions(f, p.decorators@, s1);
                let s7 = walk_expressions(f, p.decorators@, s1);
                sums_key(f, p.key, s7);
                let s8 = walk_key(f, p.key, s7);
                sums_then(ways_expressions(f, p.decorators@), ways_key(f, p.key), s1, s7, s8);
                sums_optional(f, p.value, s8);
                let s9 = walk_optional(f, p.value, s8);
                sums_then(
                    then_ways(ways_expressions(f, p.decorators@), ways_key(f, p.key)),
                    ways_optional(f, p.value),
                    s1,
                    s8,
                    s9,
                );
            },
            ClassElement::IndexSignature(_) => {
                sums_still(s1, s1);
            },
        }
        let s10 = match list.last() {
            ClassElement::StaticBlock(b) => walk_statements(f, b.body@, s1),
            ClassElement::MethodDefinition(m) => walk_key(
                f,
                m.key,
                walk_expressions(f, m.decorators@, s1),
            ),
            ClassElement::PropertyDefinition(p) => walk_optional(
                f,
                p.value,
                walk_key(f, p.key, walk_expressions(f, p.decorators@, s1)),
            ),
            ClassElement::AccessorProperty(p) => walk_optional(
                f,
                p.value,
                walk_key(f, p.key, walk_expressions(f, p.decorators@, s1)),
            ),
            ClassElement::IndexSignature(_) => s1,
        };
        sums_then(
            ways_class_elements(f, list.drop_last()),
            match list.last() {
                ClassElement::StaticBlock(b) => ways_statements(f, b.body@),
                ClassElement::MethodDefinition(m) => then_ways(
                    ways_expressions(f, m.decorators@),
                    ways_key(f, m.key),
                ),
                ClassElement::PropertyDefinition(p) => then_ways(
                    then_ways(ways_expressions(f, p.decorators@), ways_key(f, p.key)),
                    ways_optional(f, p.value),
                ),
                ClassElement::AccessorProperty(p) => then_ways(
                    then_ways(ways_expressions(f, p.decorators@), ways_key(f, p.key)),
                    ways_optional(f, p.value),
                ),
                ClassElement::IndexSignature(_) => still(),
            },
            s,
            s1,
            s10,
        );
    }
}

proof fn sums_declarators(f: Scene, list: Seq<VariableDeclarator>, s: Flow)
    ensures
        sums(ways_declarators(f, list), s, walk_declarators(f, list, s)),
    decreases list, 0nat,
{
    if list.len() == 0 {
        sums_still(s, s);
    } else {
        sums_declarators(f, list.drop_last(), s);
        let s1 = walk_declarators(f, list.drop_last(), s);
        sums_pattern(f, list.last().id, s1);
        let s2 = walk_pattern(f, list.last().id, s1);
        sums_optional(f, list.last().init, s2);
        let s3 = walk_optional(f, list.last().init, s2);
        sums_then(ways_pattern(f, list.last().id), ways_optional(f, list.last().init), s1, s2, s3);
        let s4 = s3;
        sums_then(
            ways_declarators(f, list.drop_last()),
            then_ways(ways_pattern(f, list.last().id), ways_optional(f, list.last().init)),
            s,
            s1,
            s4,
        );
    }
}

proof fn sums_declaration(f: Scene, declaration: Declaration, s: Flow)
    ensures
        sums(ways_declaration(f, declaration), s, walk_declaration(f, declaration, s)),
    decreases declaration, 0nat,
{
    match declaration {
        Declaration::Variable(d) => {
            sums_declarators(f, d.declarations@, s);
        },
        Declaration::Class(c) => {
            sums_class(f, *c, s);
        },
        Declaration::Function(_) | Declaration::TypeOnly(_) => {
            sums_still(s, s);
        },
    }
}

proof fn sums_for_each(f: Scene, stmt: ForEachStatement, s: Flow)
    ensures
        sums(ways_for_each(f, stmt), s, walk_for_each(f, stmt, s)),
    decreases stmt, 0nat,
{
    sums_expression(f, stmt.right, s);
    let s1 = walk_expression(f, stmt.right, s);
    match stmt.left {
        ForStatementLeft::VariableDeclaration(d) => {
            sums_declarators(f, d.declarations@, s1);
        },
        ForStatementLeft::AssignmentTarget(target) => {
            sums_target(f, target, s1);
        },
    }
    let s2 = match stmt.left {
        ForStatementLeft::VariableDeclaration(d) => walk_declarators(f, d.declarations@, s1),
        ForStatementLeft::AssignmentTarget(target) => walk_target(f, target, s1),
    };
    sums_write_left(f, stmt.left, s2);
    let s3 = write_left(f, stmt.left, s2);
    sums_then(
        match stmt.left {
            ForStatementLeft::VariableDeclaration(d) => ways_declarators(f, d.declarations@),
            ForStatementLeft::AssignmentTarget(target) => ways_target(f, target),
        },
        ways_write_left(f, stmt.left),
        s1,
        s2,
        s3,
    );
    sums_statement(f, stmt.body, s3);
    let s4 = walk_statement(f, stmt.body, s3);
    sums_then(
        then_ways(
            match stmt.left {
                ForStatementLeft::VariableDeclaration(d) => ways_declarators(f, d.declarations@),
                ForStatementLeft::AssignmentTarget(target) => ways_target(f, target),
            },
            ways_write_left(f, stmt.left),
        ),
        ways_statement(f, stmt.body),
        s1,
        s3,
        s4,
    );
    sums_maybe(
        then_ways(
            then_ways(
                match stmt.left {
                    ForStatementLeft::VariableDeclaration(d) => ways_declarators(
                        f,
                        d.declarations@,
                    ),
                    ForStatementLeft::AssignmentTarget(target) => ways_target(f, target),
                },
                ways_write_left(f, stmt.left),
            ),
            ways_statement(f, stmt.body),
        ),
        s1,
        s4,
    );
    let s5 = s4.merge(s1);
    sums_then(
        ways_expression(f, stmt.right),
        either(
            then_ways(
                then_ways(
                    match stmt.left {
                        ForStatementLeft::VariableDeclaration(d) => ways_declarators(
                            f,
                            d.declarations@,
                        ),
                        ForStatementLeft::AssignmentTarget(target) => ways_target(f, target),
                    },
                    ways_write_left(f, stmt.left),
                ),
                ways_statement(f, stmt.body),
            ),
            still(),
        ),
        s,
        s1,
        s5,
    );
}

proof fn sums_statement(f: Scene, stmt: Statement, s: Flow)
    ensures
        sums(ways_statement(f, stmt), s, walk_statement(f, stmt, s)),
    decreases stmt, 0nat,
{
    match stmt {
        Statement::Expression(e) => {
            sums_expression(f, e.expression, s);
        },
        Statement::Declaration(d) => {
            sums_declaration(f, d, s);
        },
        Statement::Import(_) | Statement::ExportAll(_) => {
            sums_still(s, s);
        },
        Statement::ExportNamed(e) => {
            match e.declaration {
                Some(d) => {
                    sums_declaration(f, d, s);
                },
                None => {
                    sums_still(s, s);
                },
            }
        },
        Statement::ExportDefault(e) => {
            match e.declaration {
                ExportDefaultDeclarationKind::Expression(expr) => {
                    sums_expression(f, expr, s);
                },
                ExportDefaultDeclarationKind::Class(c) => {
                    sums_class(f, *c, s);
                },
                ExportDefaultDeclarationKind::Function(_)
                | ExportDefaultDeclarationKind::TypeOnly(_) => {
                    sums_still(s, s);
                },
            }
        },
        Statement::Return(r) => {
            sums_optional(f, r.argument, s);
        },
        Statement::Try(t) => {
            sums_statements(f, t.block.body@, s);
            let s1 = walk_statements(f, t.block.body@, s);
            match t.handler {
                Some(h) => {
                    match h.param {
                        Some(p) => {
                            sums_pattern(f, p, s1);
                        },
                        None => {
                            sums_still(s1, s1);
                        },
                    }
                    let s2 = match h.param {
                        Some(p) => walk_pattern(f, p, s1),
                        None => s1,
                    };
                    sums_statements(f, h.body.body@, s2);
                    let s3 = walk_statements(f, h.body.body@, s2);
                    sums_then(
                        match h.param {
                            Some(p) => ways_pattern(f, p),
                            None => still(),
                        },
                        ways_statements(f, h.body.body@),
                        s1,
                        s2,
                        s3,
                    );
                },
                None => {
                    sums_still(s1, s1);
                },
            }
            let s4 = match t.handler {
                Some(h) => walk_statements(
                    f,
                    h.body.body@,
                    match h.param {
                        Some(p) => walk_pattern(f, p, s1),
                        None => s1,
                    },
                ),
                None => s1,
            };
            sums_then(
                ways_statements(f, t.block.body@),
                match t.handler {
                    Some(h) => then_ways(
                        match h.param {
                            Some(p) => ways_pattern(f, p),
                            None => still(),
                        },
                        ways_statements(f, h.body.body@),
                    ),
                    None => still(),
                },
                s,
                s1,
                s4,
            );
            match t.finalizer {
                Some(b) => {
                    sums_statements(f, b.body@, s4);
                },
                None => {
                    sums_still(s4, s4);
                },
            }
            let s5 = match t.finalizer {
                Some(b) => walk_statements(f, b.body@, s4),
                None => s4,
            };
            sums_then(
                then_ways(
                    ways_statements(f, t.block.body@),
                    match t.handler {
                        Some(h) => then_ways(
                            match h.param {
                                Some(p) => ways_pattern(f, p),
                                None => still(),
                            },
                            ways_statements(f, h.body.body@),
                        ),
                        None => still(),
                    },
                ),
                match t.finalizer {
                    Some(b) => ways_statements(f, b.body@),
                    None => still(),
                },
                s,
                s4,
                s5,
            );
        },
        Statement::Block(b) => {
            sums_statements(f, b.body@, s);
        },
        Statement::If(i) => {
            sums_expression(f, i.test, s);
            let s6 = walk_expression(f, i.test, s);
            sums_statement(f, i.consequent, s6);
            let s7 = walk_statement(f, i.consequent, s6);
            let s8 = s6.with_reports_of(s7);
            match i.alternate {
                Some(a) => {
                    sums_statement(f, a, s8);
                },
                None => {
                    sums_still(s8, s8);
                },
            }
            let s9 = match i.alternate {
                Some(a) => walk_statement(f, a, s8),
                None => s8,
            };
            sums_either(
                ways_statement(f, i.consequent),
                match i.alternate {
                    Some(a) => ways_statement(f, a),
                    None => still(),
                },
                s6,
                s7,
                s9,
            );
            let s10 = s9.merge(s7);
            sums_then(
                ways_expression(f, i.test),
                either(
                    ways_statement(f, i.consequent),
                    match i.alternate {
                        Some(a) => ways_statement(f, a),
                        None => still(),
                    },
                ),
                s,
                s6,
                s10,
            );
        },
        Statement::For(l) => {
            match l.init {
                Some(ForStatementInit::VariableDeclaration(d)) => {
                    sums_declarators(f, d.declarations@, s);
                },
                Some(ForStatementInit::Expression(expr)) => {
                    sums_expression(f, expr, s);
                },
                None => {
                    sums_still(s, s);
                },
            }
            let s11 = match l.init {
                Some(ForStatementInit::VariableDeclaration(d)) => walk_declarators(
                    f,
                    d.declarations@,
                    s,
                ),
                Some(ForStatementInit::Expression(expr)) => walk_expression(f, expr, s),
                None => s,
            };
            sums_optional(f, l.test, s11);
            let s12 = walk_optional(f, l.test, s11);
            sums_then(
                match l.init {
                    Some(ForStatementInit::VariableDeclaration(d)) => ways_declarators(
                        f,
                        d.declarations@,
                    ),
                    Some(ForStatementInit::Expression(expr)) => ways_expression(f, expr),
                    None => still(),
                },
                ways_optional(f, l.test),
                s,
                s11,
                s12,
            );
            sums_statement(f, l.body, s12);
            let s13 = walk_statement(f, l.body, s12);
            sums_optional(f, l.update, s13);
            let s14 = walk_optional(f, l.update, s13);
            sums_then(ways_statement(f, l.body), ways_optional(f, l.update), s12, s13, s14);
            sums_maybe(then_ways(ways_statement(f, l.body), ways_optional(f, l.update)), s12, s14);
            let s15 = s14.merge(s12);
            sums_then(
                then_ways(
                    match l.init {
                        Some(ForStatementInit::VariableDeclaration(d)) => ways_declarators(
                            f,
                            d.declarations@,
                        ),
                        Some(ForStatementInit::Expression(expr)) => ways_expression(f, expr),
                        None => still(),
                    },
                    ways_optional(f, l.test),
                ),
                either(then_ways(ways_statement(f, l.body), ways_optional(f, l.update)), still()),
                s,
                s12,
                s15,
            );
        },
        Statement::While(l) => {
            sums_expression(f, l.test, s);
            let s16 = walk_expression(f, l.test, s);
            sums_statement(f, l.body, s16);
            sums_maybe(ways_statement(f, l.body), s16, walk_statement(f, l.body, s16));
            let s17 = walk_statement(f, l.body, s16).merge(s16);
            sums_then(
                ways_expression(f, l.test),
                either(ways_statement(f, l.body), still()),
                s,
                s16,
                s17,
            );
        },
        Statement::ForIn(l) => {
            sums_for_each(f, *l, s);
        },
        Statement::ForOf(l) => {
            sums_for_each(f, *l, s);
        },
        Statement::Other(o) => {
            sums_children(f, o.children@, s);
        },
    }
}

proof fn sums_statements(f: Scene, list: Seq<Statement>, s: Flow)
    ensures
        sums(ways_statements(f, list), s, walk_statements(f, list, s)),
    decreases list, 0nat,
{
    if list.len() == 0 {
        sums_still(s, s);
    } else {
        sums_statements(f, list.drop_last(), s);
        let s1 = walk_statements(f, list.drop_last(), s);
        sums_statement(f, list.last(), s1);
        let s2 = walk_statement(f, list.last(), s1);
        sums_then(ways_statements(f, list.drop_last()), ways_statement(f, list.last()), s, s1, s2);
    }
}

proof fn sums_children(f: Scene, list: Seq<StatementChild>, s: Flow)
    ensures
        sums(ways_children(f, list), s, walk_children(f, list, s)),
    decreases list, 0nat,
{
    if list.len() == 0 {
        sums_still(s, s);
    } else {
        sums_children(f, list.drop_last(), s);
        let s1 = walk_children(f, list.drop_last(), s);
        match list.last() {
            StatementChild::Expression(expr) => {
                sums_expression(f, expr, s1);
            },
            StatementChild::Statement(stmt) => {
                sums_statement(f, stmt, s1);
            },
            StatementChild::BindingPattern(pattern) => {
                sums_pattern(f, pattern, s1);
            },
        }
        let s2 = match list.last() {
            StatementChild::Expression(expr) => walk_expression(f, expr, s1),
            StatementChild::Statement(stmt) => walk_statement(f, stmt, s1),
            StatementChild::BindingPattern(pattern) => walk_pattern(f, pattern, s1),
        };
        sums_then(
            ways_children(f, list.drop_last()),
            match list.last() {
                StatementChild::Expression(expr) => ways_expression(f, expr),
                StatementChild::Statement(stmt) => ways_statement(f, stmt),
                StatementChild::BindingPattern(pattern) => ways_pattern(f, pattern),
            },
            s,
            s1,
            s2,
        );
    }
}

/// On a way that starts with nothing known, a slot is outdated exactly if it was read, a suspension
/// came later, and it was not read again after that.
proof fn lemma_outdated(w: Seq<Step>, slot: Slot)
    ensures
        after(w, Known { fresh: false, outdated: false }, slot).outdated <==> exists|i: int, j: int|
            0 <= i < j < w.len() && #[trigger] w[i] == Step::Read(slot) && #[trigger] w[j]
                == Step::Suspend && !is_read_after(w, j, slot),
        after(w, Known { fresh: false, outdated: false }, slot).fresh <==> exists|i: int|
            0 <= i < w.len() && #[trigger] w[i] == Step::Read(slot) && forall|j: int|
                i < j < w.len() ==> #[trigger] w[j] != Step::Suspend,
    decreases w.len(),
{
    if w.len() > 0 {
        let v = w.drop_last();
        let n = v.len() as int;
        let none = Known { fresh: false, outdated: false };
        lemma_outdated(v, slot);
        assert(forall|j: int| 0 <= j < n ==> #[trigger] w[j] == v[j]);
        if after(w, none, slot).outdated {
            if after(v, none, slot).outdated {
                let (i, j) = choose|i: int, j: int|
                    0 <= i < j < v.len() && #[trigger] v[i] == Step::Read(slot) && #[trigger] v[j]
                        == Step::Suspend && !is_read_after(v, j, slot);
                assert(w[i] == Step::Read(slot) && w[j] == Step::Suspend);
                assert(!is_read_after(w, j, slot)) by {
                    if is_read_after(w, j, slot) {
                        let k = choose|k: int|
                            j < k < w.len() && #[trigger] w[k] == Step::Read(slot);
                        assert(v[k] == Step::Read(slot));
                    }
                }
            } else {
                let i = choose|i: int|
                    0 <= i < v.len() && #[trigger] v[i] == Step::Read(slot) && forall|j: int|
                        i < j < v.len() ==> #[trigger] v[j] != Step::Suspend;
                assert(w[i] == Step::Read(slot) && w[n] == Step::Suspend);
                assert(!is_read_after(w, n, slot));
            }
        }
        if exists|i: int, j: int|
            0 <= i < j < w.len() && #[trigger] w[i] == Step::Read(slot) && #[trigger] w[j]
                == Step::Suspend && !is_read_after(w, j, slot) {
            let (i, j) = choose|i: int, j: int|
                0 <= i < j < w.len() && #[trigger] w[i] == Step::Read(slot) && #[trigger] w[j]
                    == Step::Suspend && !is_read_after(w, j, slot);
            if j < n {
                assert(v[i] == Step::Read(slot) && v[j] == Step::Suspend);
                assert(!is_read_after(v, j, slot)) by {
                    if is_read_after(v, j, slot) {
                        let k = choose|k: int|
                            j < k < v.len() && #[trigger] v[k] == Step::Read(slot);
                        assert(w[k] == Step::Read(slot));
                    }
                }
                assert(w[n] != Step::Read(slot));
            } else {
                lemma_read_is_known(v, none, slot, i);
            }
        }
        if after(w, none, slot).fresh {
            if w[n] == Step::Read(slot) {
            } else {
                let i = choose|i: int|
                    0 <= i < v.len() && #[trigger] v[i] == Step::Read(slot) && forall|j: int|
                        i < j < v.len() ==> #[trigger] v[j] != Step::Suspend;
                assert(w[i] == Step::Read(slot));
            }
        }
        if exists|i: int|
            0 <= i < w.len() && #[trigger] w[i] == Step::Read(slot) && forall|j: int|
                i < j < w.len() ==> #[trigger] w[j] != Step::Suspend {
            let i = choose|i: int|
                0 <= i < w.len() && #[trigger] w[i] == Step::Read(slot) && forall|j: int|
                    i < j < w.len() ==> #[trigger] w[j] != Step::Suspend;
            if i < n {
                assert(v[i] == Step::Read(slot));
                assert(w[n] != Step::Suspend);
            }
        }
    }
}

/// A slot is read after a step.
pub open spec fn is_read_after(w: Seq<Step>, j: int, slot: Slot) -> bool {
    exists|k: int| j < k < w.len() && #[trigger] w[k] == Step::Read(slot)
}

/// What was read stays known.
proof fn lemma_read_is_known(w: Seq<Step>, k: Known, slot: Slot, i: int)
    requires
        0 <= i < w.len(),
        w[i] == Step::Read(slot),
    ensures
        after(w, k, slot).fresh || after(w, k, slot).outdated,
    decreases w.len(),
{
    if i < w.len() - 1 {
        lemma_read_is_known(w.drop_last(), k, slot, i);
    }
}

/// On a way through the function, a variable or a property is read, the function is suspended
/// later, and the same is written after that without being read in between.
pub open spec fn writes_outdated(w: Seq<Step>, report: Report) -> bool {
    exists|i: int, j: int, m: int|
        0 <= i < j < m < w.len() && (#[trigger] w[m] matches Step::Write(slot, due) && due == report
            && #[trigger] w[i] == Step::Read(slot) && #[trigger] w[j] == Step::Suspend && forall|
            k: int,
        | j < k < m ==> #[trigger] w[k] != Step::Read(slot))
}

/// A report that is due on a way that starts with nothing read is one on something outdated.
proof fn lemma_due_is_outdated(w: Seq<Step>, m: int, report: Report)
    requires
        is_due(w, m, Reads::none(), report),
    ensures
        writes_outdated(w, report),
{
    let slot = w[m]->Write_0;
    let v = w.take(m);
    assert(known(Reads::none(), slot) == (Known { fresh: false, outdated: false }));
    lemma_outdated(v, slot);
    let (i, j) = choose|i: int, j: int|
        0 <= i < j < v.len() && #[trigger] v[i] == Step::Read(slot) && #[trigger] v[j]
            == Step::Suspend && !is_read_after(v, j, slot);
    assert(w[i] == Step::Read(slot) && w[j] == Step::Suspend && w[m] == Step::Write(slot, report));
    assert forall|k: int| j < k < m implies #[trigger] w[k] != Step::Read(slot) by {
        assert(v[k] == w[k]);
    }
}

/// What is outdated on a way that starts with nothing read is due to be reported.
proof fn lemma_outdated_is_due(w: Seq<Step>, report: Report)
    requires
        writes_outdated(w, report),
    ensures
        exists|m: int| #[trigger] is_due(w, m, Reads::none(), report),
{
    let (i, j, m) = choose|i: int, j: int, m: int|
        0 <= i < j < m < w.len() && (#[trigger] w[m] matches Step::Write(slot, due) && due == report
            && #[trigger] w[i] == Step::Read(slot) && #[trigger] w[j] == Step::Suspend && forall|
            k: int,
        | j < k < m ==> #[trigger] w[k] != Step::Read(slot));
    let slot = w[m]->Write_0;
    let v = w.take(m);
    assert(v[i] == Step::Read(slot) && v[j] == Step::Suspend);
    assert(!is_read_after(v, j, slot)) by {
        if is_read_after(v, j, slot) {
            let k = choose|k: int| j < k < v.len() && #[trigger] v[k] == Step::Read(slot);
            assert(w[k] == Step::Read(slot));
        }
    }
    assert(known(Reads::none(), slot) == (Known { fresh: false, outdated: false }));
    lemma_outdated(v, slot);
    assert(is_due(w, m, Reads::none(), report));
}

/// What is reported is exactly what is outdated: a report comes if and only if there is a way
/// through the function on which a variable that other code can write, or a property of an object
/// that other code can write, is read, then the function is suspended, and then the same variable
/// or property is written without being read again.
pub proof fn law_outdated_writes_are_reported(scene: Scene, body: FunctionBody, report: Report)
    ensures
        analysis(scene, body).contains(report) <==> exists|w: Seq<Step>| #[trigger]
            ways_statements(scene, body.statements@).contains(w) && writes_outdated(w, report),
{
    let a = ways_statements(scene, body.statements@);
    let start = Flow { reads: Reads::none(), reports: Seq::empty() };
    sums_statements(scene, body.statements@, start);
    assert(analysis(scene, body).contains(report) <==> due_on(a, start.reads, report));
    if due_on(a, start.reads, report) {
        let (w, m) = choose|w: Seq<Step>, m: int|
            a.contains(w) && #[trigger] is_due(w, m, start.reads, report);
        lemma_due_is_outdated(w, m, report);
    }
    if exists|w: Seq<Step>| #[trigger] a.contains(w) && writes_outdated(w, report) {
        let w = choose|w: Seq<Step>| #[trigger] a.contains(w) && writes_outdated(w, report);
        lemma_outdated_is_due(w, report);
        let m = choose|m: int| #[trigger] is_due(w, m, Reads::none(), report);
        assert(is_due(w, m, start.reads, report));
    }
}

/// `t` holds all that `a` and `b` hold, and nothing else.
pub open spec fn joins(t: Flow, a: Flow, b: Flow) -> bool {
    &&& forall|report: Report| #[trigger]
        t.reports.contains(report) <==> a.reports.contains(report) || b.reports.contains(report)
    &&& t.reads.fresh_var == a.reads.fresh_var.union(b.reads.fresh_var)
    &&& t.reads.outdated_var == a.reads.outdated_var.union(b.reads.outdated_var)
    &&& t.reads.fresh_prop == a.reads.fresh_prop.union(b.reads.fresh_prop)
    &&& t.reads.outdated_prop == a.reads.outdated_prop.union(b.reads.outdated_prop)
}

/// It does not matter which of two is taken first.
pub(crate) proof fn lemma_joins(t: Flow, a: Flow, b: Flow)
    requires
        t.reads == b.reads.merge(a.reads),
        forall|report: Report| #[trigger]
            t.reports.contains(report) <==> a.reports.contains(report) || b.reports.contains(
                report,
            ),
    ensures
        joins(t, a, b),
        joins(t, b, a),
{
    assert(t.reads.fresh_var =~= a.reads.fresh_var.union(b.reads.fresh_var));
    assert(t.reads.outdated_var =~= a.reads.outdated_var.union(b.reads.outdated_var));
    assert(t.reads.fresh_prop =~= a.reads.fresh_prop.union(b.reads.fresh_prop));
    assert(t.reads.outdated_prop =~= a.reads.outdated_prop.union(b.reads.outdated_prop));
}

/// Two walks of one part that start with the same reads come to the same reads, and differ in the
/// reports that they start with alone.
proof fn lemma_same_ways(a: Ways, s: Flow, t: Flow, r: Flow, u: Flow)
    requires
        sums(a, s, t),
        sums(a, r, u),
        s.reads == r.reads,
    ensures
        t.reads == u.reads,
        forall|report: Report| #[trigger]
            t.reports.contains(report) && !s.reports.contains(report) ==> u.reports.contains(
                report,
            ),
{
    assert forall|key: TrackedValue| t.reads.fresh_var.contains(key)
        == u.reads.fresh_var.contains(key) && t.reads.outdated_var.contains(key)
        == u.reads.outdated_var.contains(key) && t.reads.fresh_prop.contains(key)
        == u.reads.fresh_prop.contains(key) && t.reads.outdated_prop.contains(key)
        == u.reads.outdated_prop.contains(key) by {
        let variable = Slot { key, is_property: false };
        let property = Slot { key, is_property: true };
        assert(known(t.reads, variable).outdated == known(u.reads, variable).outdated);
        assert(known(t.reads, variable).fresh == known(u.reads, variable).fresh);
        assert(known(t.reads, property).outdated == known(u.reads, property).outdated);
        assert(known(t.reads, property).fresh == known(u.reads, property).fresh);
    }
    assert(t.reads =~= u.reads);
}

/// An `if` does what either of its branches does after the test. A branch that is not there does
/// nothing.
pub proof fn law_both_branches_are_taken(
    scene: Scene,
    stmt: crate::ast::IfStatement,
    start: Flow,
)
    ensures
        ({
            let tested = walk_expression(scene, stmt.test, start);
            let alternate = match stmt.alternate {
                Some(a) => walk_statement(scene, a, tested),
                None => tested,
            };
            joins(
                walk_statement(scene, Statement::If(Box::new(stmt)), start),
                walk_statement(scene, stmt.consequent, tested),
                alternate,
            )
        }),
{
    let tested = walk_expression(scene, stmt.test, start);
    let consequent = walk_statement(scene, stmt.consequent, tested);
    let restored = tested.with_reports_of(consequent);
    sums_statement(scene, stmt.consequent, tested);
    if let Some(a) = stmt.alternate {
        sums_statement(scene, a, tested);
        sums_statement(scene, a, restored);
        let t = walk_statement(scene, a, tested);
        let u = walk_statement(scene, a, restored);
        lemma_same_ways(ways_statement(scene, a), tested, t, restored, u);
        lemma_same_ways(ways_statement(scene, a), restored, u, tested, t);
        lemma_joins(u.merge(consequent), consequent, t);
    } else {
        lemma_joins(restored.merge(consequent), consequent, tested);
    }
}

/// `test ? a : b` does what either of its branches does after the test.
pub proof fn law_both_values_are_taken(
    scene: Scene,
    expr: crate::ast::ConditionalExpression,
    start: Flow,
)
    ensures
        ({
            let tested = walk_expression(scene, expr.test, start);
            joins(
                walk_expression(scene, Expression::Conditional(Box::new(expr)), start),
                walk_expression(scene, expr.consequent, tested),
                walk_expression(scene, expr.alternate, tested),
            )
        }),
{
    let tested = walk_expression(scene, expr.test, start);
    let consequent = walk_expression(scene, expr.consequent, tested);
    let restored = tested.with_reports_of(consequent);
    sums_expression(scene, expr.consequent, tested);
    sums_expression(scene, expr.alternate, tested);
    sums_expression(scene, expr.alternate, restored);
    let a = ways_expression(scene, expr.alternate);
    let t = walk_expression(scene, expr.alternate, tested);
    let u = walk_expression(scene, expr.alternate, restored);
    lemma_same_ways(a, tested, t, restored, u);
    lemma_same_ways(a, restored, u, tested, t);
    lemma_joins(u.merge(consequent), consequent, t);
}

/// The right side of `&&`, `||` and `??` may be left out, and so may the body of a loop.
pub proof fn law_what_may_be_left_out(
    scene: Scene,
    expr: crate::ast::LogicalExpression,
    stmt: crate::ast::WhileStatement,
    start: Flow,
)
    ensures
        ({
            let left = walk_expression(scene, expr.left, start);
            joins(
                walk_expression(scene, Expression::Logical(Box::new(expr)), start),
                left,
                walk_expression(scene, expr.right, left),
            )
        }),
        ({
            let tested = walk_expression(scene, stmt.test, start);
            joins(
                walk_statement(scene, Statement::While(Box::new(stmt)), start),
                tested,
                walk_statement(scene, stmt.body, tested),
            )
        }),
{
    let left = walk_expression(scene, expr.left, start);
    sums_expression(scene, expr.right, left);
    let right = walk_expression(scene, expr.right, left);
    lemma_joins(right.merge(left), left, right);
    let tested = walk_expression(scene, stmt.test, start);
    sums_statement(scene, stmt.body, tested);
    let body = walk_statement(scene, stmt.body, tested);
    lemma_joins(body.merge(tested), tested, body);
}

/// Statements in a row do what the first ones do, and then the others.
pub proof fn law_statements_come_in_order(
    scene: Scene,
    first: Seq<Statement>,
    rest: Seq<Statement>,
    start: Flow,
)
    ensures
        walk_statements(scene, first + rest, start) == walk_statements(
            scene,
            rest,
            walk_statements(scene, first, start),
        ),
    decreases rest.len(),
{
    if rest.len() == 0 {
        assert(first + rest =~= first);
    } else {
        law_statements_come_in_order(scene, first, rest.drop_last(), start);
        assert((first + rest).drop_last() =~= first + rest.drop_last());
        assert((first + rest).last() == rest.last());
    }
}

/// A turn of a loop keeps the reports.
pub(crate) proof fn lemma_keeps_reports(
    f: Scene,
    body: Statement,
    update: Option<Expression>,
    s: Flow,
)
    ensures
        forall|report: Report| #[trigger]
            s.reports.contains(report) ==> walk_optional(
                f,
                update,
                walk_statement(f, body, s),
            ).reports.contains(report),
{
    let t = walk_statement(f, body, s);
    sums_statement(f, body, s);
    sums_optional(f, update, t);
    assert forall|report: Report| #[trigger] s.reports.contains(report) implies walk_optional(
        f,
        update,
        t,
    ).reports.contains(report) by {
        assert(t.reports.contains(report));
    }
}

/// A turn of a loop over members keeps the reports.
pub(crate) proof fn lemma_keeps_turns(f: Scene, stmt: ForEachStatement, s: Flow)
    ensures
        ({
            let started = walk_expression(f, stmt.right, s);
            let taken = match stmt.left {
                ForStatementLeft::VariableDeclaration(d) => walk_declarators(
                    f,
                    d.declarations@,
                    started,
                ),
                ForStatementLeft::AssignmentTarget(target) => write_target(
                    f,
                    target,
                    walk_target(f, target, started),
                ),
            };
            forall|report: Report| #[trigger]
                started.reports.contains(report) ==> walk_statement(
                    f,
                    stmt.body,
                    taken,
                ).reports.contains(report)
        }),
{
    let started = walk_expression(f, stmt.right, s);
    let taken = match stmt.left {
        ForStatementLeft::VariableDeclaration(d) => {
            sums_declarators(f, d.declarations@, started);
            walk_declarators(f, d.declarations@, started)
        },
        ForStatementLeft::AssignmentTarget(target) => {
            sums_target(f, target, started);
            let t = walk_target(f, target, started);
            sums_write_target(f, target, t);
            assert forall|report: Report| #[trigger] started.reports.contains(
                report,
            ) implies write_target(f, target, t).reports.contains(report) by {
                assert(t.reports.contains(report));
            }
            write_target(f, target, t)
        },
    };
    sums_statement(f, stmt.body, taken);
    assert forall|report: Report| #[trigger] started.reports.contains(
        report,
    ) implies walk_statement(f, stmt.body, taken).reports.contains(report) by {
        assert(taken.reports.contains(report));
    }
}

} // verus!

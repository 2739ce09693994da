//! Environments, which predefine global variables.

use crate::fx::{lemma_empty_strings, string_map, string_map_entries, string_map_insert};
use crate::text::{texts, views};
use rustc_hash::FxHashMap;
use vstd::prelude::*;

verus! {

/// Environments by their names, switched on or off.
#[derive(Debug, Clone)]
pub struct ESLintEnv(pub FxHashMap<String, bool>);

impl View for ESLintEnv {
    type V = Map<Seq<char>, bool>;

    open spec fn view(&self) -> Map<Seq<char>, bool> {
        string_map(self.0@)
    }
}

/// The environments that are switched on.
pub open spec fn enabled(env: Map<Seq<char>, bool>) -> Set<Seq<char>> {
    Set::new(|name: Seq<char>| env.contains_key(name) && env[name])
}

/// Names, with whether they are switched on.
pub open spec fn entry_views(entries: Seq<(String, bool)>) -> Seq<(Seq<char>, bool)> {
    entries.map_values(|e: (String, bool)| (e.0@, e.1))
}

/// Environments, of which the last that is said of a name counts.
pub open spec fn last_said(entries: Seq<(Seq<char>, bool)>) -> Map<Seq<char>, bool>
    decreases entries.len(),
{
    if entries.len() == 0 {
        Map::empty()
    } else {
        last_said(entries.drop_last()).insert(entries.last().0, entries.last().1)
    }
}

/// Names that are all switched on.
pub open spec fn all_on(names: Seq<Seq<char>>) -> Seq<(Seq<char>, bool)> {
    names.map_values(|name: Seq<char>| (name, true))
}

impl ESLintEnv {
    /// The environments of a list, all switched on.
    pub fn from_vec(env: Vec<String>) -> (r: ESLintEnv)
        ensures
            r@ == last_said(all_on(views(env@))),
    {
        let ghost all = all_on(views(env@));
        let mut map: FxHashMap<String, bool> = FxHashMap::default();
        proof {
            lemma_empty_strings::<bool>();
            assert(all.take(0) =~= Seq::empty());
        }
        let mut i: usize = 0;
        while i < env.len()
            invariant
                i <= env@.len(),
                all == all_on(views(env@)),
                string_map(map@) == last_said(all.take(i as int)),
            decreases env@.len() - i,
        {
            let name = env[i].clone();
            proof {
                assert(all.take(i + 1).drop_last() =~= all.take(i as int));
                assert(all.take(i + 1).last() == (name@, true));
            }
            string_map_insert(&mut map, name, true);
            i += 1;
        }
        proof {
            assert(all.take(all.len() as int) =~= all);
        }
        ESLintEnv(map)
    }

    /// The environments of a list of names, each switched on or off.
    pub fn from_entries(entries: Vec<(String, bool)>) -> (r: ESLintEnv)
        ensures
            r@ == last_said(entry_views(entries@)),
    {
        let ghost all = entry_views(entries@);
        let mut map: FxHashMap<String, bool> = FxHashMap::default();
        proof {
            lemma_empty_strings::<bool>();
            assert(all.take(0) =~= Seq::empty());
        }
        let mut i: usize = 0;
        while i < entries.len()
            invariant
                i <= entries@.len(),
                all == entry_views(entries@),
                string_map(map@) == last_said(all.take(i as int)),
            decreases entries@.len() - i,
        {
            let name = entries[i].0.clone();
            let on = entries[i].1;
            proof {
                assert(all.take(i + 1).drop_last() =~= all.take(i as int));
                assert(all.take(i + 1).last() == (name@, on));
            }
            string_map_insert(&mut map, name, on);
            i += 1;
        }
        proof {
            assert(all.take(all.len() as int) =~= all);
        }
        ESLintEnv(map)
    }

    /// The names of the environments that are switched on, each once, in an order that is left
    /// open.
    pub fn iter(&self) -> (r: Vec<&str>)
        ensures
            forall|name: Seq<char>| #[trigger]
                enabled(self@).contains(name) <==> exists|i: int|
                    0 <= i < r@.len() && (#[trigger] r@[i])@ == name,
            forall|i: int, j: int|
                0 <= i < j < r@.len() ==> (#[trigger] r@[i])@ != (#[trigger] r@[j])@,
    {
        let entries = string_map_entries(&self.0);
        let ghost pairs = entries@.map_values(|e: (&String, &bool)| (e.0@, *e.1));
        let mut r: Vec<&str> = Vec::new();
        let mut i: usize = 0;
        proof {
            assert(pairs.take(0) =~= Seq::empty());
            assert(texts(r@) =~= Seq::empty());
        }
        while i < entries.len()
            invariant
                i <= entries@.len(),
                pairs == entries@.map_values(|e: (&String, &bool)| (e.0@, *e.1)),
                texts(r@) == names_on(pairs.take(i as int)),
            decreases entries@.len() - i,
        {
            let ghost before = r@;
            let (name, on) = entries[i];
            proof {
                assert(pairs.take(i + 1).drop_last() =~= pairs.take(i as int));
                assert(pairs.take(i + 1).last() == (name@, *on));
            }
            if *on {
                r.push(name.as_str());
                proof {
                    assert(texts(r@) =~= texts(before).push(name@));
                }
            }
            i += 1;
        }
        proof {
            assert(pairs.take(pairs.len() as int) =~= pairs);
            assert forall|j: int, k: int| 0 <= j < k < pairs.len() implies (#[trigger] pairs[j]).0
                != (#[trigger] pairs[k]).0 by {
                assert(pairs[j].0 == entries@[j].0@);
                assert(pairs[k].0 == entries@[k].0@);
            }
            lemma_names_on(pairs);
            let on = names_on(pairs);
            assert forall|name: Seq<char>| #[trigger]
                enabled(self@).contains(name) <==> exists|k: int|
                    0 <= k < r@.len() && (#[trigger] r@[k])@ == name by {
                if enabled(self@).contains(name) {
                    let j = choose|j: int|
                        0 <= j < entries@.len() && (#[trigger] entries@[j]).0@ == name;
                    assert(pairs[j] == (name, true));
                    assert(on.contains(name));
                    let k = choose|k: int| 0 <= k < on.len() && on[k] == name;
                    assert(r@[k]@ == name);
                }
                if exists|k: int| 0 <= k < r@.len() && (#[trigger] r@[k])@ == name {
                    let k = choose|k: int| 0 <= k < r@.len() && (#[trigger] r@[k])@ == name;
                    assert(on[k] == name);
                    assert(on.contains(name));
                    assert(pairs.contains((name, true)));
                    let j = choose|j: int| 0 <= j < pairs.len() && pairs[j] == (name, true);
                    assert(entries@[j].0@ == name);
                    assert(self@.contains_key(name));
                }
            }
            assert forall|i: int, j: int| 0 <= i < j < r@.len() implies (#[trigger] r@[i])@ != (
            #[trigger] r@[j])@ by {
                assert(on[i] == r@[i]@);
                assert(on[j] == r@[j]@);
            }
        }
        r
    }
}

/// The names in a list that are switched on.
pub open spec fn names_on(pairs: Seq<(Seq<char>, bool)>) -> Seq<Seq<char>>
    decreases pairs.len(),
{
    if pairs.len() == 0 {
        Seq::empty()
    } else {
        let before = names_on(pairs.drop_last());
        if pairs.last().1 {
            before.push(pairs.last().0)
        } else {
            before
        }
    }
}

/// Every name that is switched on is there, once, and no other is.
proof fn lemma_names_on(pairs: Seq<(Seq<char>, bool)>)
    requires
        forall|j: int, k: int|
            0 <= j < k < pairs.len() ==> (#[trigger] pairs[j]).0 != (#[trigger] pairs[k]).0,
    ensures
        forall|name: Seq<char>| #[trigger]
            names_on(pairs).contains(name) <==> pairs.contains((name, true)),
        forall|j: int, k: int|
            0 <= j < k < names_on(pairs).len() ==> #[trigger] names_on(pairs)[j]
                != #[trigger] names_on(pairs)[k],
    decreases pairs.len(),
{
    if pairs.len() > 0 {
        let rest = pairs.drop_last();
        let last = pairs.last();
        lemma_names_on(rest);
        let before = names_on(rest);
        let all = names_on(pairs);
        assert(pairs[pairs.len() - 1] == last);
        assert forall|name: Seq<char>| #[trigger] all.contains(name) <==> pairs.contains(
            (name, true),
        ) by {
            assert(before.contains(name) <==> rest.contains((name, true)));
            if all.contains(name) {
                let k = choose|k: int| 0 <= k < all.len() && all[k] == name;
                if k < before.len() {
                    assert(before[k] == name);
                    let j = choose|j: int| 0 <= j < rest.len() && rest[j] == (name, true);
                    assert(pairs[j] == (name, true));
                }
            }
            if pairs.contains((name, true)) {
                let j = choose|j: int| 0 <= j < pairs.len() && pairs[j] == (name, true);
                if j < rest.len() {
                    assert(rest[j] == (name, true));
                    let k = choose|k: int| 0 <= k < before.len() && before[k] == name;
                    assert(all[k] == name);
                } else {
                    assert(all[all.len() - 1] == name);
                }
            }
        }
        assert forall|j: int, k: int| 0 <= j < k < all.len() implies #[trigger] all[j]
            != #[trigger] all[k] by {
            if k == before.len() {
                assert(before[j] == all[j]);
                assert(before.contains(all[j]));
                let at = choose|at: int| 0 <= at < rest.len() && rest[at] == (all[j], true);
                assert(pairs[at].0 != pairs[pairs.len() - 1].0);
            } else {
                assert(before[j] == all[j] && before[k] == all[k]);
            }
        }
    }
}

impl Default for ESLintEnv {
    fn default() -> (r: ESLintEnv)
        ensures
            r@ == Map::<Seq<char>, bool>::empty().insert("builtin"@, true),
    {
        let mut map: FxHashMap<String, bool> = FxHashMap::default();
        proof {
            lemma_empty_strings::<bool>();
        }
        string_map_insert(&mut map, "builtin".to_string(), true);
        ESLintEnv(map)
    }
}

/// A list of environments switches on just those in it.
pub proof fn law_listed_environments_are_on(names: Seq<Seq<char>>)
    ensures
        enabled(last_said(all_on(names))) == names.to_set(),
    decreases names.len(),
{
    if names.len() == 0 {
        assert(enabled(last_said(all_on(names))) =~= names.to_set());
    } else {
        let rest = names.drop_last();
        law_listed_environments_are_on(rest);
        assert(all_on(names).drop_last() =~= all_on(rest));
        assert(all_on(names).last() == (names.last(), true));
        assert forall|name: Seq<char>| #[trigger]
            enabled(last_said(all_on(names))).contains(name) == names.to_set().contains(name) by {
            assert(enabled(last_said(all_on(rest))).contains(name) == rest.to_set().contains(name));
            if rest.contains(name) {
                let i = choose|i: int| 0 <= i < rest.len() && rest[i] == name;
                assert(names[i] == name);
            }
            if names.contains(name) && name != names.last() {
                let i = choose|i: int| 0 <= i < names.len() && names[i] == name;
                assert(rest[i] == name);
            }
            assert(names[names.len() - 1] == names.last());
        }
        assert(enabled(last_said(all_on(names))) =~= names.to_set());
    }
}

/// An environment that is switched off is not among those that are on, whatever was said of it
/// before.
pub proof fn law_off_wins_when_said_last(entries: Seq<(Seq<char>, bool)>, name: Seq<char>)
    ensures
        !enabled(last_said(entries.push((name, false)))).contains(name),
{
    assert(entries.push((name, false)).drop_last() =~= entries);
}

/// An environment is on exactly if the last that is said of it is that it is on.
pub proof fn law_the_last_word_counts(entries: Seq<(Seq<char>, bool)>, name: Seq<char>)
    ensures
        enabled(last_said(entries)).contains(name) <==> exists|i: int|
            0 <= i < entries.len() && #[trigger] entries[i] == (name, true) && forall|j: int|
                i < j < entries.len() ==> (#[trigger] entries[j]).0 != name,
    decreases entries.len(),
{
    if entries.len() > 0 {
        let rest = entries.drop_last();
        let n = entries.len() - 1;
        law_the_last_word_counts(rest, name);
        assert(forall|i: int| 0 <= i < n ==> #[trigger] rest[i] == entries[i]);
        if entries[n].0 == name {
            if entries[n].1 {
                assert(entries[n] == (name, true));
            }
        } else {
            if enabled(last_said(rest)).contains(name) {
                let i = choose|i: int|
                    0 <= i < rest.len() && #[trigger] rest[i] == (name, true) && forall|j: int|
                        i < j < rest.len() ==> (#[trigger] rest[j]).0 != name;
                assert(entries[i] == (name, true));
                assert forall|j: int| i < j < entries.len() implies (#[trigger] entries[j]).0
                    != name by {
                    if j < n {
                        assert(rest[j].0 != name);
                    }
                }
            }
            if exists|i: int|
                0 <= i < entries.len() && #[trigger] entries[i] == (name, true) && forall|j: int|
                    i < j < entries.len() ==> (#[trigger] entries[j]).0 != name {
                let i = choose|i: int|
                    0 <= i < entries.len() && #[trigger] entries[i] == (name, true) && forall|
                        j: int,
                    | i < j < entries.len() ==> (#[trigger] entries[j]).0 != name;
                assert(rest[i] == (name, true));
                assert forall|j: int| i < j < rest.len() implies (#[trigger] rest[j]).0 != name by {
                    assert(entries[j].0 != name);
                }
            }
        }
    }
}

} // verus!

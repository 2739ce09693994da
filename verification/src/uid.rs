//! Names that the program does not use.

use crate::text::{concat3, decimal, decimal_string, digit_char, texts};
use vstd::prelude::*;

verus! {

/// The candidates for a new name: `_base`, `_base2`, `_base3` and so on.
pub open spec fn candidate(base: Seq<char>, n: nat) -> Seq<char> {
    if n == 0 {
        "_"@ + base
    } else {
        "_"@ + base + decimal(n + 1)
    }
}

/// `n` is the first candidate that is not among `used`.
pub open spec fn first_free(base: Seq<char>, used: Seq<Seq<char>>, n: nat) -> bool {
    &&& !used.contains(candidate(base, n))
    &&& forall|m: nat| m < n ==> used.contains(#[trigger] candidate(base, m))
}

/// The first candidate that is not among `used`.
pub open spec fn uid(base: Seq<char>, used: Seq<Seq<char>>) -> Seq<char> {
    candidate(base, choose|n: nat| first_free(base, used, n))
}

/// A numeral has at least one digit.
pub proof fn lemma_decimal_nonempty(n: nat)
    ensures
        decimal(n).len() >= 1,
    decreases n,
{
    if n >= 10 {
        lemma_decimal_nonempty(n / 10);
    }
}

/// Different numbers have different numerals.
pub proof fn lemma_decimal_injective(a: nat, b: nat)
    requires
        decimal(a) == decimal(b),
    ensures
        a == b,
    decreases a,
{
    let x = decimal(a);
    let y = decimal(b);
    assert(x.last() == y.last());
    if a < 10 && b < 10 {
        assert(x[0] == y[0]);
        assert(digit_char(a as int) as u32 == 48 + a);
        assert(digit_char(b as int) as u32 == 48 + b);
    } else if a < 10 {
        lemma_decimal_nonempty(b / 10);
        assert(y.len() == decimal(b / 10).len() + 1);
        assert(x.len() == 1);
    } else if b < 10 {
        lemma_decimal_nonempty(a / 10);
        assert(x.len() == decimal(a / 10).len() + 1);
        assert(y.len() == 1);
    } else {
        assert(x.drop_last() =~= decimal(a / 10));
        assert(y.drop_last() =~= decimal(b / 10));
        lemma_decimal_injective(a / 10, b / 10);
        assert(digit_char((a % 10) as int) as u32 == 48 + a % 10);
        assert(digit_char((b % 10) as int) as u32 == 48 + b % 10);
        assert(a % 10 == b % 10);
    }
}

/// Different candidates are different names.
pub proof fn lemma_candidates_differ(base: Seq<char>, m: nat, n: nat)
    requires
        candidate(base, m) == candidate(base, n),
    ensures
        m == n,
{
    let stem = "_"@ + base;
    if m == 0 && n > 0 {
        lemma_decimal_nonempty(n + 1);
        assert(candidate(base, n).len() > candidate(base, m).len());
    } else if n == 0 && m > 0 {
        lemma_decimal_nonempty(m + 1);
        assert(candidate(base, m).len() > candidate(base, n).len());
    } else if m > 0 && n > 0 {
        let x = candidate(base, m);
        let y = candidate(base, n);
        assert(decimal(m + 1) =~= x.skip(stem.len() as int));
        assert(decimal(n + 1) =~= y.skip(stem.len() as int));
        lemma_decimal_injective(m + 1, n + 1);
    }
}

/// Where the first `n` candidates are used, at least `n` names are.
proof fn lemma_used_count(base: Seq<char>, used: Seq<Seq<char>>, n: nat)
    requires
        forall|m: nat| m < n ==> used.contains(#[trigger] candidate(base, m)),
    ensures
        n <= used.len(),
{
    let c = Seq::new(n, |i: int| candidate(base, i as nat));
    assert(c.no_duplicates()) by {
        assert forall|i: int, j: int| 0 <= i < c.len() && 0 <= j < c.len() && i != j implies c[i]
            != c[j] by {
            if c[i] == c[j] {
                lemma_candidates_differ(base, i as nat, j as nat);
            }
        }
    }
    c.unique_seq_to_set();
    used.lemma_cardinality_of_set();
    assert(c.to_set().subset_of(used.to_set())) by {
        assert forall|x: Seq<char>| c.to_set().contains(x) implies used.to_set().contains(x) by {
            assert(c.contains(x));
            let i = c.index_of(x);
            assert(c[i] == candidate(base, i as nat));
        }
    }
    vstd::set_lib::lemma_len_subset(c.to_set(), used.to_set());
}

/// There is one first candidate that is not used.
pub proof fn lemma_first_free(base: Seq<char>, used: Seq<Seq<char>>, n: nat)
    requires
        first_free(base, used, n),
    ensures
        uid(base, used) == candidate(base, n),
{
    let chosen = choose|n: nat| first_free(base, used, n);
    assert(first_free(base, used, chosen));
    if chosen < n {
        assert(used.contains(candidate(base, chosen)));
    } else if n < chosen {
        assert(used.contains(candidate(base, n)));
    }
}

/// A new name is not a used one.
pub proof fn law_uid_is_unused(base: Seq<char>, used: Seq<Seq<char>>)
    ensures
        !used.contains(uid(base, used)),
{
    lemma_some_first_free(base, used, 0);
}

/// Some candidate from `n` on is the first free one, where all before `n` are used.
proof fn lemma_some_first_free(base: Seq<char>, used: Seq<Seq<char>>, n: nat)
    requires
        forall|m: nat| m < n ==> used.contains(#[trigger] candidate(base, m)),
    ensures
        exists|k: nat| first_free(base, used, k),
    decreases used.len() + 1 - n,
{
    lemma_used_count(base, used, n);
    if used.contains(candidate(base, n)) {
        assert forall|m: nat| m < n + 1 implies used.contains(#[trigger] candidate(base, m)) by {
            if m < n {
            }
        }
        lemma_used_count(base, used, n + 1);
        lemma_some_first_free(base, used, n + 1);
    } else {
        assert(first_free(base, used, n));
    }
}

/// The candidate `n`.
fn make_candidate(base: &str, n: u32) -> (r: String)
    requires
        n < u32::MAX,
    ensures
        r@ == candidate(base@, n as nat),
{
    if n == 0 {
        crate::text::concat("_", base)
    } else {
        let numeral = decimal_string(n + 1);
        concat3("_", base, numeral.as_str())
    }
}

/// Whether a name is among names.
fn is_used(used: &Vec<&str>, name: &str) -> (r: bool)
    ensures
        r == texts(used@).contains(name@),
{
    let mut i: usize = 0;
    while i < used.len()
        invariant
            i <= used@.len(),
            forall|j: int| 0 <= j < i ==> (#[trigger] used@[j])@ != name@,
        decreases used@.len() - i,
    {
        if crate::text::str_eq(used[i], name) {
            proof {
                assert(texts(used@)[i as int] == name@);
            }
            return true;
        }
        i += 1;
    }
    proof {
        if texts(used@).contains(name@) {
            let k = texts(used@).index_of(name@);
            assert(used@[k]@ == name@);
        }
    }
    false
}

/// The first candidate that is not among `used`.
pub fn find_uid(base: &str, used: &Vec<&str>) -> (r: String)
    requires
        used@.len() < u32::MAX,
    ensures
        r@ == uid(base@, texts(used@)),
        !texts(used@).contains(r@),
{
    let ghost names = texts(used@);
    let mut n: u32 = 0;
    loop
        invariant
            names == texts(used@),
            names.len() < u32::MAX,
            forall|m: nat| m < n ==> names.contains(#[trigger] candidate(base@, m)),
        decreases u32::MAX - n,
    {
        proof {
            lemma_used_count(base@, names, n as nat);
        }
        let name = make_candidate(base, n);
        if !is_used(used, name.as_str()) {
            proof {
                assert(first_free(base@, names, n as nat));
                lemma_first_free(base@, names, n as nat);
            }
            return name;
        }
        proof {
            assert forall|m: nat| m < n + 1 implies names.contains(#[trigger] candidate(base@, m)) by {
                if m < n {
                }
            }
            lemma_used_count(base@, names, (n + 1) as nat);
        }
        n += 1;
    }
}

/// A new name starts with an underscore. It is that and the base where nothing has that name, and
/// else has the least number from two on after it that makes it new.
pub proof fn law_uid_is_the_first_that_is_free(base: Seq<char>, used: Seq<Seq<char>>, n: nat)
    ensures
        !used.contains("_"@ + base) ==> uid(base, used) == "_"@ + base,
        used.contains("_"@ + base) && n >= 2 && !used.contains("_"@ + base + decimal(n)) && (forall|
            m: nat,
        | 2 <= m < n ==> used.contains("_"@ + base + #[trigger] decimal(m))) ==> uid(base, used)
            == "_"@ + base + decimal(n),
{
    if !used.contains("_"@ + base) {
        assert(first_free(base, used, 0));
        lemma_first_free(base, used, 0);
    } else if n >= 2 && !used.contains("_"@ + base + decimal(n)) && (forall|m: nat|
        2 <= m < n ==> used.contains("_"@ + base + #[trigger] decimal(m))) {
        let k = (n - 1) as nat;
        assert forall|m: nat| m < k implies used.contains(#[trigger] candidate(base, m)) by {
            if m > 0 {
                assert(used.contains("_"@ + base + decimal(m + 1)));
            }
        }
        assert(first_free(base, used, k));
        lemma_first_free(base, used, k);
    }
}

} // verus!

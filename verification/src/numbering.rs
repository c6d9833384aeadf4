//! Names made of a prefix and a number, and the least number whose name is
//! not taken.

use vstd::prelude::*;
use vstd::seq_lib::seq_to_set_is_finite;
use vstd::set_lib::lemma_len_subset;
use crate::text::{concat, decimal, decimal_string, lemma_decimal_round_trip, str_eq};

verus! {

/// The name with the number `k`: the prefix and the number's numeral.
pub open spec fn numbered(prefix: Seq<char>, k: nat) -> Seq<char> {
    prefix + decimal(k)
}

/// The least number from `k` on whose name is not among `taken`, looked
/// for up to one beyond the number of names taken.
pub open spec fn first_free(prefix: Seq<char>, taken: Seq<Seq<char>>, k: nat) -> nat
    decreases taken.len() + 1 - k,
{
    if k > taken.len() || !taken.contains(numbered(prefix, k)) {
        k
    } else {
        first_free(prefix, taken, k + 1)
    }
}

/// The name with the least positive number that is not taken.
pub open spec fn next_name(prefix: Seq<char>, taken: Seq<Seq<char>>) -> Seq<char> {
    numbered(prefix, first_free(prefix, taken, 1))
}

/// Names with different numbers are different.
pub proof fn lemma_numbered_injective(prefix: Seq<char>, a: nat, b: nat)
    requires
        numbered(prefix, a) == numbered(prefix, b),
    ensures
        a == b,
{
    let x = numbered(prefix, a);
    let y = numbered(prefix, b);
    assert(x.subrange(prefix.len() as int, x.len() as int) =~= decimal(a));
    assert(y.subrange(prefix.len() as int, y.len() as int) =~= decimal(b));
    lemma_decimal_round_trip(a);
    lemma_decimal_round_trip(b);
}

/// Of the names with the numbers 1 to one beyond the number of names
/// taken, one is not taken.
pub proof fn lemma_some_name_free(prefix: Seq<char>, taken: Seq<Seq<char>>)
    ensures
        exists|k: nat| 1 <= k <= taken.len() + 1 && !taken.contains(#[trigger] numbered(prefix, k)),
{
    if forall|k: nat| 1 <= k <= taken.len() + 1 ==> taken.contains(#[trigger] numbered(prefix, k)) {
        let candidates = Seq::new(taken.len() + 1, |i: int| numbered(prefix, (i + 1) as nat));
        assert forall|i: int, j: int|
            0 <= i < candidates.len() && 0 <= j < candidates.len() && i != j implies candidates[i]
            != candidates[j] by {
            if candidates[i] == candidates[j] {
                lemma_numbered_injective(prefix, (i + 1) as nat, (j + 1) as nat);
            }
        }
        candidates.unique_seq_to_set();
        taken.lemma_cardinality_of_set();
        seq_to_set_is_finite(taken);
        assert(candidates.to_set().subset_of(taken.to_set())) by {
            assert forall|x: Seq<char>| candidates.to_set().contains(x) implies taken.to_set().contains(
                x,
            ) by {
                assert(candidates.contains(x));
                let i = choose|i: int| 0 <= i < candidates.len() && candidates[i] == x;
                assert(taken.contains(numbered(prefix, (i + 1) as nat)));
            }
        }
        lemma_len_subset(candidates.to_set(), taken.to_set());
    }
}

/// What `first_free` finds from `k` on, where the names with the numbers
/// from 1 to below `k` are taken: a number whose name is not taken, while
/// those of all smaller positive numbers are.
pub proof fn lemma_first_free(prefix: Seq<char>, taken: Seq<Seq<char>>, k: nat)
    requires
        1 <= k <= taken.len() + 1,
        forall|j: nat| 1 <= j < k ==> taken.contains(#[trigger] numbered(prefix, j)),
    ensures
        k <= first_free(prefix, taken, k) <= taken.len() + 1,
        !taken.contains(numbered(prefix, first_free(prefix, taken, k))),
        forall|j: nat|
            1 <= j < first_free(prefix, taken, k) ==> taken.contains(#[trigger] numbered(prefix, j)),
    decreases taken.len() + 1 - k,
{
    if k > taken.len() {
        lemma_some_name_free(prefix, taken);
        let free = choose|f: nat|
            1 <= f <= taken.len() + 1 && !taken.contains(#[trigger] numbered(prefix, f));
        assert(free == k);
    } else if taken.contains(numbered(prefix, k)) {
        lemma_first_free(prefix, taken, k + 1);
    }
}

/// Whether `name` is one of `names`.
pub fn is_taken(names: &Vec<String>, name: &str) -> (taken: bool)
    ensures
        taken == names_view(names@).contains(name@),
{
    let ghost all = names_view(names@);
    let mut i: usize = 0;
    while i < names.len()
        invariant
            i <= names.len(),
            all == names_view(names@),
            forall|j: int| 0 <= j < i ==> all[j] != name@,
        decreases names.len() - i,
    {
        if str_eq(names[i].as_str(), name) {
            assert(all[i as int] == name@);
            return true;
        }
        i += 1;
    }
    false
}

/// The characters of each name of a list.
pub open spec fn names_view(names: Seq<String>) -> Seq<Seq<char>> {
    Seq::new(names.len(), |i: int| names[i]@)
}

/// The name with the least positive number that is not among `names`.
pub fn next_free_name(prefix: &str, names: &Vec<String>) -> (name: String)
    ensures
        name@ == next_name(prefix@, names_view(names@)),
        !names_view(names@).contains(name@),
{
    let ghost taken = names_view(names@);
    let count: u128 = names.len() as u128;
    let mut k: u128 = 1;
    loop
        invariant
            1 <= k <= count + 1,
            count == names.len(),
            taken == names_view(names@),
            first_free(prefix@, taken, 1) == first_free(prefix@, taken, k as nat),
            forall|j: nat| 1 <= j < k ==> taken.contains(#[trigger] numbered(prefix@, j)),
        decreases count + 1 - k,
    {
        let candidate = concat(prefix, decimal_string(k).as_str());
        proof {
            lemma_first_free(prefix@, taken, k as nat);
        }
        if k > count {
            return candidate;
        }
        if !is_taken(names, candidate.as_str()) {
            return candidate;
        }
        k += 1;
    }
}

} // verus!

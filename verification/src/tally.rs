use crate::order::same_id;
use crate::state::{tallies_of, Tallies};
use vstd::prelude::*;

verus! {

/// Some option carries this label.
pub open spec fn has_option(options: Tallies, label: Seq<char>) -> bool {
    exists|i: int| 0 <= i < options.len() && (#[trigger] options[i]).0 == label
}

/// `i` is the first place at which an option carries this label. A label
/// that is listed twice is always found at its first place.
pub open spec fn is_position(options: Tallies, label: Seq<char>, i: int) -> bool {
    &&& 0 <= i < options.len()
    &&& options[i].0 == label
    &&& forall|j: int| 0 <= j < i ==> (#[trigger] options[j]).0 != label
}

/// The first place at which an option carries this label; meaningful where
/// `has_option` holds.
pub open spec fn position(options: Tallies, label: Seq<char>) -> int {
    choose|i: int| is_position(options, label, i)
}

/// The tally of the option found under this label.
pub open spec fn tally(options: Tallies, label: Seq<char>) -> u64 {
    options[position(options, label)].1
}

/// The options with the tally at place `i` replaced.
pub open spec fn with_tally(options: Tallies, i: int, count: u64) -> Tallies {
    options.update(i, (options[i].0, count))
}

/// The options after one vote for `label` was taken back.
pub open spec fn retract(options: Tallies, label: Seq<char>) -> Tallies {
    with_tally(options, position(options, label), (tally(options, label) - 1) as u64)
}

/// The options after one vote for `label` was counted.
pub open spec fn record(options: Tallies, label: Seq<char>) -> Tallies {
    with_tally(options, position(options, label), (tally(options, label) + 1) as u64)
}

/// The votes counted over all options.
pub open spec fn tally_sum(options: Tallies) -> nat
    decreases options.len(),
{
    if options.len() == 0 {
        0
    } else {
        tally_sum(options.drop_last()) + options.last().1 as nat
    }
}

/// A label that occurs at place `k` has a first place, at or before `k`.
pub proof fn lemma_first_place(options: Tallies, label: Seq<char>, k: int)
    requires
        0 <= k < options.len(),
        options[k].0 == label,
    ensures
        has_option(options, label),
        is_position(options, label, position(options, label)),
        position(options, label) <= k,
    decreases k,
{
    if exists|j: int| 0 <= j < k && (#[trigger] options[j]).0 == label {
        let j = choose|j: int| 0 <= j < k && (#[trigger] options[j]).0 == label;
        lemma_first_place(options, label, j);
    } else {
        assert(is_position(options, label, k));
        let p = position(options, label);
        if k < p {
            assert(options[k].0 != label);
        }
    }
}

/// A label that some option carries has exactly one first place.
pub proof fn lemma_position(options: Tallies, label: Seq<char>)
    requires
        has_option(options, label),
    ensures
        is_position(options, label, position(options, label)),
        forall|i: int| is_position(options, label, i) ==> i == position(options, label),
{
    let k = choose|i: int| 0 <= i < options.len() && (#[trigger] options[i]).0 == label;
    lemma_first_place(options, label, k);
    let p = position(options, label);
    assert forall|i: int| is_position(options, label, i) implies i == p by {
        if i < p {
            assert(options[i].0 != label);
        }
        if p < i {
            assert(options[p].0 != label);
        }
    }
}

/// Two lists that carry the same labels at the same places find every label
/// at the same place.
pub proof fn lemma_same_labels(a: Tallies, b: Tallies, label: Seq<char>)
    requires
        a.len() == b.len(),
        forall|i: int| 0 <= i < a.len() ==> (#[trigger] a[i]).0 == b[i].0,
    ensures
        has_option(a, label) == has_option(b, label),
        forall|i: int| is_position(a, label, i) == is_position(b, label, i),
        has_option(a, label) ==> position(a, label) == position(b, label),
{
    assert forall|i: int| is_position(a, label, i) == is_position(b, label, i) by {
        if is_position(a, label, i) {
            assert(b[i].0 == a[i].0);
            assert forall|k: int| 0 <= k < i implies (#[trigger] b[k]).0 != label by {
                assert(a[k].0 != label);
            }
        }
        if is_position(b, label, i) {
            assert(a[i].0 == b[i].0);
            assert forall|k: int| 0 <= k < i implies (#[trigger] a[k]).0 != label by {
                assert(b[k].0 != label);
            }
        }
    }
    if has_option(a, label) {
        let k = choose|k: int| 0 <= k < a.len() && (#[trigger] a[k]).0 == label;
        assert(b[k].0 == label);
        lemma_position(a, label);
        lemma_position(b, label);
    }
    if has_option(b, label) {
        let k = choose|k: int| 0 <= k < b.len() && (#[trigger] b[k]).0 == label;
        assert(a[k].0 == label);
    }
}

/// Replacing a tally moves no label: every label is found where it was.
pub proof fn lemma_with_tally_keeps_labels(options: Tallies, i: int, count: u64, label: Seq<char>)
    requires
        0 <= i < options.len(),
    ensures
        has_option(with_tally(options, i, count), label) == has_option(options, label),
        forall|j: int|
            is_position(with_tally(options, i, count), label, j) == is_position(options, label, j),
        has_option(options, label) ==> position(with_tally(options, i, count), label) == position(
            options,
            label,
        ),
{
    lemma_same_labels(with_tally(options, i, count), options, label);
}

/// Replacing one tally changes the sum of all tallies by the difference.
pub proof fn lemma_with_tally_sum(options: Tallies, i: int, count: u64)
    requires
        0 <= i < options.len(),
    ensures
        tally_sum(with_tally(options, i, count)) == tally_sum(options) - options[i].1 + count,
    decreases options.len(),
{
    let changed = with_tally(options, i, count);
    if i == options.len() - 1 {
        assert(changed.drop_last() =~= options.drop_last());
    } else {
        lemma_with_tally_sum(options.drop_last(), i, count);
        assert(changed.drop_last() =~= with_tally(options.drop_last(), i, count));
    }
}

/// Looks a label up by a linear scan over the options, in their order.
pub fn find_option(options: &Vec<(String, u64)>, label: &str) -> (found: Option<usize>)
    ensures
        found is Some == has_option(tallies_of(options@), label@),
        found is Some ==> found.unwrap() as int == position(tallies_of(options@), label@),
{
    let ghost listed = tallies_of(options@);
    let mut i: usize = 0;
    while i < options.len()
        invariant
            i <= options.len(),
            listed == tallies_of(options@),
            forall|j: int| 0 <= j < i ==> (#[trigger] listed[j]).0 != label@,
        decreases options.len() - i,
    {
        assert(listed[i as int].0 == options@[i as int].0@);
        if same_id(options[i].0.as_str(), label) {
            proof {
                assert(listed[i as int].0 == label@);
                assert(is_position(listed, label@, i as int));
                lemma_position(listed, label@);
            }
            return Some(i);
        }
        i += 1;
    }
    assert(!has_option(listed, label@));
    None
}

/// Replaces the tally of the option at place `i`.
pub fn set_tally(options: &mut Vec<(String, u64)>, i: usize, count: u64)
    requires
        i < old(options)@.len(),
    ensures
        tallies_of(final(options)@) == with_tally(tallies_of(old(options)@), i as int, count),
{
    options[i].1 = count;
    assert(tallies_of(options@) =~= with_tally(tallies_of(old(options)@), i as int, count));
}

} // verus!

use crate::error::ContractError;
use crate::store::StoreView;
use crate::tally::{
    has_option, is_position, lemma_position, lemma_same_labels, lemma_with_tally_keeps_labels,
    lemma_with_tally_sum, position, tally, tally_sum, with_tally,
};
use vstd::prelude::*;
use vstd::set_lib::lemma_set_disjoint_lens;

verus! {

/// The ballots cast on a poll, each by its voter and the poll.
pub open spec fn ballots_on(store: StoreView, poll_id: Seq<char>) -> Set<(Seq<char>, Seq<char>)> {
    store.ballots.dom().filter(|key: (Seq<char>, Seq<char>)| key.1 == poll_id)
}

/// The ballots cast on a poll whose label is found at place `i` of its
/// options.
pub open spec fn ballots_at(store: StoreView, poll_id: Seq<char>, i: int) -> Set<
    (Seq<char>, Seq<char>),
> {
    store.ballots.dom().filter(
        |key: (Seq<char>, Seq<char>)|
            key.1 == poll_id && is_position(store.polls[poll_id].options, store.ballots[key], i),
    )
}

/// The ballots cast on a poll whose label is found before place `n`.
spec fn ballots_below(store: StoreView, poll_id: Seq<char>, n: int) -> Set<
    (Seq<char>, Seq<char>),
> {
    store.ballots.dom().filter(
        |key: (Seq<char>, Seq<char>)|
            key.1 == poll_id && has_option(store.polls[poll_id].options, store.ballots[key])
                && position(store.polls[poll_id].options, store.ballots[key]) < n,
    )
}

/// The poll and the ballots cast on it agree: every ballot names an option
/// of the poll, and every tally is the number of ballots that are counted
/// for its option.
pub open spec fn consistent(store: StoreView, poll_id: Seq<char>) -> bool {
    &&& store.ballots.dom().finite()
    &&& store.polls.contains_key(poll_id)
    &&& forall|key: (Seq<char>, Seq<char>)| #[trigger]
        ballots_on(store, poll_id).contains(key) ==> has_option(
            store.polls[poll_id].options,
            store.ballots[key],
        )
    &&& forall|i: int|
        0 <= i < store.polls[poll_id].options.len() ==> (#[trigger] store.polls[poll_id].options[i]).1
            == ballots_at(store, poll_id, i).len()
}

/// A poll that is created under an identifier on which no ballot stands
/// agrees with its ballots.
pub proof fn lemma_created_poll_consistent(
    store: StoreView,
    creator: Seq<char>,
    poll_id: Seq<char>,
    question: Seq<char>,
    labels: Seq<Seq<char>>,
)
    requires
        store.ballots.dom().finite(),
        StoreView::creation_error(labels) is None,
        ballots_on(store, poll_id) =~= Set::empty(),
    ensures
        consistent(store.create_or_replace_poll(creator, poll_id, question, labels), poll_id),
{
    let after = store.create_or_replace_poll(creator, poll_id, question, labels);
    assert(ballots_on(after, poll_id) =~= ballots_on(store, poll_id));
    assert forall|i: int| 0 <= i < after.polls[poll_id].options.len() implies (
    #[trigger] after.polls[poll_id].options[i]).1 == ballots_at(after, poll_id, i).len() by {
        assert(ballots_at(after, poll_id, i).subset_of(ballots_on(after, poll_id)));
        assert(ballots_at(after, poll_id, i) =~= Set::empty());
    }
}

/// The options of a poll after a vote that was counted carry the labels
/// that they carried before, at the same places.
proof fn lemma_vote_keeps_labels(
    store: StoreView,
    voter: Seq<char>,
    poll_id: Seq<char>,
    option: Seq<char>,
)
    requires
        store.admits_vote(voter, poll_id, option),
        store.vote_error(poll_id, option) is None,
    ensures
        ({
            let before = store.polls[poll_id].options;
            let taken = store.retracted(voter, poll_id);
            let after = store.vote(voter, poll_id, option).polls[poll_id].options;
            let at = position(before, option);
            &&& is_position(before, option, at)
            &&& position(taken, option) == at
            &&& taken.len() == before.len()
            &&& after.len() == before.len()
            &&& after == with_tally(taken, at, (taken[at].1 + 1) as u64)
            &&& taken[at].1 < u64::MAX
            &&& forall|i: int| 0 <= i < before.len() ==> (#[trigger] taken[i]).0 == before[i].0
            &&& forall|i: int| 0 <= i < before.len() ==> (#[trigger] after[i]).0 == before[i].0
            &&& match store.ballot(voter, poll_id) {
                Some(previous) => {
                    let from = position(before, previous);
                    &&& is_position(before, previous, from)
                    &&& before[from].1 >= 1
                    &&& taken == with_tally(before, from, (before[from].1 - 1) as u64)
                },
                None => taken == before,
            }
        }),
{
    let before = store.polls[poll_id].options;
    let taken = store.retracted(voter, poll_id);
    lemma_position(before, option);
    match store.ballot(voter, poll_id) {
        Some(previous) => {
            lemma_position(before, previous);
            let from = position(before, previous);
            lemma_with_tally_keeps_labels(before, from, (before[from].1 - 1) as u64, option);
        },
        None => {},
    }
}

/// A vote keeps every poll in agreement with its ballots: the poll voted on
/// where the vote is counted, and every other poll whatever comes of the
/// vote.
pub proof fn lemma_vote_keeps_consistent(
    store: StoreView,
    voter: Seq<char>,
    poll_id: Seq<char>,
    option: Seq<char>,
    other: Seq<char>,
)
    requires
        consistent(store, other),
        store.admits_vote(voter, poll_id, option),
        other == poll_id ==> store.vote_error(poll_id, option) is None,
    ensures
        consistent(store.vote(voter, poll_id, option), other),
{
    let after = store.vote(voter, poll_id, option);
    let key = (voter, poll_id);
    if !store.polls.contains_key(poll_id) {
    } else if other != poll_id {
        assert(after.polls[other] == store.polls[other]);
        assert(ballots_on(after, other) =~= ballots_on(store, other));
        assert forall|i: int| 0 <= i < after.polls[other].options.len() implies (
        #[trigger] after.polls[other].options[i]).1 == ballots_at(after, other, i).len() by {
            assert(ballots_at(after, other, i) =~= ballots_at(store, other, i));
        }
    } else {
        lemma_vote_keeps_labels(store, voter, poll_id, option);
        let before = store.polls[poll_id].options;
        let taken = store.retracted(voter, poll_id);
        let counted = after.polls[poll_id].options;
        let at = position(before, option);
        assert forall|k: (Seq<char>, Seq<char>)| #[trigger]
            ballots_on(after, poll_id).contains(k) implies has_option(counted, after.ballots[k]) by {
            lemma_same_labels(counted, before, after.ballots[k]);
            if k != key {
                assert(ballots_on(store, poll_id).contains(k));
            }
        }
        assert forall|i: int| 0 <= i < counted.len() implies (#[trigger] counted[i]).1 == ballots_at(
            after,
            poll_id,
            i,
        ).len() by {
            let held = ballots_at(store, poll_id, i);
            let now = ballots_at(after, poll_id, i);
            store.ballots.dom().lemma_len_filter(
                |key: (Seq<char>, Seq<char>)|
                    key.1 == poll_id && is_position(before, store.ballots[key], i),
            );
            assert(before[i].1 == held.len());
            assert forall|k: (Seq<char>, Seq<char>)| now.contains(k) == (if k == key {
                i == at
            } else {
                held.contains(k)
            }) by {
                lemma_same_labels(counted, before, after.ballots[k]);
            }
            match store.ballot(voter, poll_id) {
                Some(previous) => {
                    let from = position(before, previous);
                    assert(held.contains(key) == (i == from));
                },
                None => {
                    assert(!held.contains(key));
                },
            }
            if i == at {
                assert(now =~= held.insert(key));
            } else {
                assert(now =~= held.remove(key));
            }
        }
    }
}

/// Creating a poll under one identifier leaves the agreement of every
/// other poll with its ballots as it was.
pub proof fn lemma_create_poll_keeps_consistent(
    store: StoreView,
    creator: Seq<char>,
    poll_id: Seq<char>,
    question: Seq<char>,
    labels: Seq<Seq<char>>,
    other: Seq<char>,
)
    requires
        consistent(store, other),
        other != poll_id,
    ensures
        consistent(store.create_or_replace_poll(creator, poll_id, question, labels), other),
{
    let after = store.create_or_replace_poll(creator, poll_id, question, labels);
    assert(after.polls[other] == store.polls[other]);
    assert(ballots_on(after, other) =~= ballots_on(store, other));
    assert forall|i: int| 0 <= i < after.polls[other].options.len() implies (
    #[trigger] after.polls[other].options[i]).1 == ballots_at(after, other, i).len() by {
        assert(ballots_at(after, other, i) =~= ballots_at(store, other, i));
    }
}

/// Where a poll agrees with its ballots, the ballot that a vote replaces is
/// counted in the poll: the vote can be carried out unless it would raise a
/// tally beyond the largest number.
pub proof fn lemma_consistent_admits_vote(
    store: StoreView,
    voter: Seq<char>,
    poll_id: Seq<char>,
    option: Seq<char>,
)
    requires
        consistent(store, poll_id),
        has_option(store.polls[poll_id].options, option) ==> tally(
            store.retracted(voter, poll_id),
            option,
        ) < u64::MAX,
    ensures
        store.admits_vote(voter, poll_id, option),
{
    let key = (voter, poll_id);
    let options = store.polls[poll_id].options;
    match store.ballot(voter, poll_id) {
        Some(previous) => {
            assert(ballots_on(store, poll_id).contains(key));
            lemma_position(options, previous);
            let from = position(options, previous);
            let held = ballots_at(store, poll_id, from);
            store.ballots.dom().lemma_len_filter(
                |key: (Seq<char>, Seq<char>)|
                    key.1 == poll_id && is_position(options, store.ballots[key], from),
            );
            assert(held.contains(key));
            assert(options[from].1 == held.len());
        },
        None => {},
    }
}

/// The tallies before place `n` add up to the number of ballots that are
/// counted before place `n`.
proof fn lemma_tallies_below(store: StoreView, poll_id: Seq<char>, n: int)
    requires
        consistent(store, poll_id),
        0 <= n <= store.polls[poll_id].options.len(),
    ensures
        ballots_below(store, poll_id, n).finite(),
        tally_sum(store.polls[poll_id].options.take(n)) == ballots_below(store, poll_id, n).len(),
    decreases n,
{
    let options = store.polls[poll_id].options;
    store.ballots.dom().lemma_len_filter(
        |key: (Seq<char>, Seq<char>)|
            key.1 == poll_id && has_option(options, store.ballots[key]) && position(
                options,
                store.ballots[key],
            ) < n,
    );
    if n == 0 {
        assert forall|key: (Seq<char>, Seq<char>)| !ballots_below(store, poll_id, 0).contains(key) by {
            if ballots_on(store, poll_id).contains(key) && has_option(options, store.ballots[key]) {
                lemma_position(options, store.ballots[key]);
            }
        }
        assert(ballots_below(store, poll_id, 0) =~= Set::empty());
        assert(options.take(0) =~= Seq::empty());
    } else {
        lemma_tallies_below(store, poll_id, n - 1);
        let below = ballots_below(store, poll_id, n - 1);
        let here = ballots_at(store, poll_id, n - 1);
        store.ballots.dom().lemma_len_filter(
            |key: (Seq<char>, Seq<char>)|
                key.1 == poll_id && is_position(options, store.ballots[key], n - 1),
        );
        assert forall|key: (Seq<char>, Seq<char>)|
            ballots_below(store, poll_id, n).contains(key) == (below.contains(key) || here.contains(
                key,
            )) by {
            if store.ballots.dom().contains(key) && has_option(options, store.ballots[key]) {
                lemma_position(options, store.ballots[key]);
            }
            if here.contains(key) {
                assert(options[n - 1].0 == store.ballots[key]);
                lemma_position(options, store.ballots[key]);
            }
        }
        assert forall|key: (Seq<char>, Seq<char>)| below.contains(key) implies !here.contains(key) by {
            lemma_position(options, store.ballots[key]);
        }
        assert(ballots_below(store, poll_id, n) =~= below + here);
        lemma_set_disjoint_lens(below, here);
        assert(options.take(n).drop_last() =~= options.take(n - 1));
        assert(options.take(n).last() == options[n - 1]);
    }
}

/// Tally conservation: where a poll agrees with its ballots, its tallies add
/// up to the number of ballots cast on it, one for each voter who has voted
/// on the poll.
pub proof fn lemma_tally_conservation(store: StoreView, poll_id: Seq<char>)
    requires
        consistent(store, poll_id),
    ensures
        tally_sum(store.polls[poll_id].options) == ballots_on(store, poll_id).len(),
{
    let options = store.polls[poll_id].options;
    let n = options.len() as int;
    lemma_tallies_below(store, poll_id, n);
    assert(options.take(n) =~= options);
    assert forall|key: (Seq<char>, Seq<char>)|
        ballots_on(store, poll_id).contains(key) == ballots_below(store, poll_id, n).contains(key) by {
        if ballots_on(store, poll_id).contains(key) {
            lemma_position(options, store.ballots[key]);
        }
    }
    assert(ballots_on(store, poll_id) =~= ballots_below(store, poll_id, n));
}

/// Where the labels of a poll are all different and the poll agrees with its
/// ballots, the tally of each option is the number of ballots on the poll
/// that select its label.
pub proof fn lemma_tally_counts_its_label(store: StoreView, poll_id: Seq<char>, i: int)
    requires
        consistent(store, poll_id),
        0 <= i < store.polls[poll_id].options.len(),
        forall|a: int, b: int|
            0 <= a < b < store.polls[poll_id].options.len() ==> (
            #[trigger] store.polls[poll_id].options[a]).0 != (
            #[trigger] store.polls[poll_id].options[b]).0,
    ensures
        store.polls[poll_id].options[i].1 == ballots_on(store, poll_id).filter(
            |key: (Seq<char>, Seq<char>)| store.ballots[key] == store.polls[poll_id].options[i].0,
        ).len(),
{
    let options = store.polls[poll_id].options;
    let selecting = ballots_on(store, poll_id).filter(
        |key: (Seq<char>, Seq<char>)| store.ballots[key] == options[i].0,
    );
    assert forall|key: (Seq<char>, Seq<char>)| selecting.contains(key) == ballots_at(
        store,
        poll_id,
        i,
    ).contains(key) by {
        if store.ballots.dom().contains(key) && store.ballots[key] == options[i].0 {
            assert forall|j: int| 0 <= j < i implies (#[trigger] options[j]).0 != options[i].0 by {}
        }
    }
    assert(selecting =~= ballots_at(store, poll_id, i));
}

/// A vote changes the sum of the tallies of every poll by as much as it
/// changes the number of ballots cast on that poll: on the poll voted on
/// where the vote is counted, and on every other poll whatever comes of it.
pub proof fn lemma_vote_keeps_balance(
    store: StoreView,
    voter: Seq<char>,
    poll_id: Seq<char>,
    option: Seq<char>,
    other: Seq<char>,
)
    requires
        store.ballots.dom().finite(),
        store.polls.contains_key(other),
        store.admits_vote(voter, poll_id, option),
        other == poll_id ==> store.vote_error(poll_id, option) is None,
    ensures
        store.vote(voter, poll_id, option).ballots.dom().finite(),
        store.vote(voter, poll_id, option).polls.contains_key(other),
        tally_sum(store.vote(voter, poll_id, option).polls[other].options) - ballots_on(
            store.vote(voter, poll_id, option),
            other,
        ).len() == tally_sum(store.polls[other].options) - ballots_on(store, other).len(),
{
    let after = store.vote(voter, poll_id, option);
    let key = (voter, poll_id);
    store.ballots.dom().lemma_len_filter(|key: (Seq<char>, Seq<char>)| key.1 == other);
    if !store.polls.contains_key(poll_id) {
    } else if other != poll_id {
        assert(after.polls[other] == store.polls[other]);
        assert(ballots_on(after, other) =~= ballots_on(store, other));
    } else {
        lemma_vote_keeps_labels(store, voter, poll_id, option);
        let before = store.polls[poll_id].options;
        let taken = store.retracted(voter, poll_id);
        let at = position(before, option);
        lemma_with_tally_sum(taken, at, (taken[at].1 + 1) as u64);
        match store.ballot(voter, poll_id) {
            Some(previous) => {
                let from = position(before, previous);
                lemma_with_tally_sum(before, from, (before[from].1 - 1) as u64);
                assert(ballots_on(after, poll_id) =~= ballots_on(store, poll_id));
            },
            None => {
                assert(ballots_on(after, poll_id) =~= ballots_on(store, poll_id).insert(key));
            },
        }
    }
}

/// Tally conservation: after any run of counted votes, the tallies of a poll
/// add up to the number of ballots cast on it, one for each voter who has
/// voted on the poll, provided that they did so before the run. They do on
/// a poll that was created under an identifier on which no ballot stood.
pub proof fn lemma_votes_conserve_tallies(
    store: StoreView,
    votes: Seq<(Seq<char>, Seq<char>, Seq<char>)>,
    poll_id: Seq<char>,
)
    requires
        store.ballots.dom().finite(),
        store.polls.contains_key(poll_id),
        tally_sum(store.polls[poll_id].options) == ballots_on(store, poll_id).len(),
        store.all_counted(votes),
    ensures
        store.after_votes(votes).ballots.dom().finite(),
        store.after_votes(votes).polls.contains_key(poll_id),
        tally_sum(store.after_votes(votes).polls[poll_id].options) == ballots_on(
            store.after_votes(votes),
            poll_id,
        ).len(),
    decreases votes.len(),
{
    if votes.len() > 0 {
        lemma_votes_conserve_tallies(store, votes.drop_last(), poll_id);
        lemma_vote_keeps_balance(
            store.after_votes(votes.drop_last()),
            votes.last().0,
            votes.last().1,
            votes.last().2,
            poll_id,
        );
    }
}

/// After any run of counted votes, a poll that agreed with its ballots
/// before the run still does.
pub proof fn lemma_votes_keep_consistent(
    store: StoreView,
    votes: Seq<(Seq<char>, Seq<char>, Seq<char>)>,
    poll_id: Seq<char>,
)
    requires
        consistent(store, poll_id),
        store.all_counted(votes),
    ensures
        consistent(store.after_votes(votes), poll_id),
    decreases votes.len(),
{
    if votes.len() > 0 {
        lemma_votes_keep_consistent(store, votes.drop_last(), poll_id);
        lemma_vote_keeps_consistent(
            store.after_votes(votes.drop_last()),
            votes.last().0,
            votes.last().1,
            votes.last().2,
            poll_id,
        );
    }
}

/// A vote leaves every poll its creator, its question and its labels, each
/// label at its place: only tallies change.
pub proof fn lemma_vote_changes_tallies_only(
    store: StoreView,
    voter: Seq<char>,
    poll_id: Seq<char>,
    option: Seq<char>,
    other: Seq<char>,
)
    requires
        store.admits_vote(voter, poll_id, option),
        store.polls.contains_key(other),
    ensures
        ({
            let before = store.polls[other];
            let after = store.vote(voter, poll_id, option).polls[other];
            &&& store.vote(voter, poll_id, option).polls.dom() == store.polls.dom()
            &&& after.creator == before.creator
            &&& after.question == before.question
            &&& after.options.len() == before.options.len()
            &&& forall|i: int|
                0 <= i < before.options.len() ==> (#[trigger] after.options[i]).0 == before.options[i].0
        }),
{
    let after = store.vote(voter, poll_id, option);
    if store.polls.contains_key(poll_id) && store.vote_error(poll_id, option) is None {
        lemma_vote_keeps_labels(store, voter, poll_id, option);
        assert(after.polls.dom() =~= store.polls.dom());
    }
}

/// Voting again for the option that was just counted changes nothing: the
/// tallies and the ballot stay as the first vote left them.
pub proof fn lemma_revote_changes_nothing(
    store: StoreView,
    voter: Seq<char>,
    poll_id: Seq<char>,
    option: Seq<char>,
)
    requires
        store.admits_vote(voter, poll_id, option),
        store.vote_error(poll_id, option) is None,
    ensures
        ({
            let once = store.vote(voter, poll_id, option);
            &&& once.admits_vote(voter, poll_id, option)
            &&& once.vote_error(poll_id, option) is None
            &&& once.vote(voter, poll_id, option) == once
        }),
{
    lemma_vote_keeps_labels(store, voter, poll_id, option);
    let once = store.vote(voter, poll_id, option);
    let before = store.polls[poll_id].options;
    let counted = once.polls[poll_id].options;
    let at = position(before, option);
    lemma_same_labels(counted, before, option);
    lemma_position(counted, option);
    let taken = once.retracted(voter, poll_id);
    assert(taken == with_tally(counted, at, (counted[at].1 - 1) as u64));
    lemma_same_labels(taken, counted, option);
    let twice = once.vote(voter, poll_id, option);
    assert(twice.polls[poll_id].options =~= counted);
    assert(twice.polls =~= once.polls);
    assert(twice.ballots =~= once.ballots);
}

/// Changing a vote: a voter whose vote for `first` was counted and who then
/// votes for another option `second` of the poll ends with a ballot for
/// `second`; the tally of `first` is one less than the first vote left it,
/// and the tally of `second` is one more than it was before both votes.
/// The last holds unless the ballot that the first vote replaced was itself
/// for `second`.
pub proof fn lemma_vote_change(
    store: StoreView,
    voter: Seq<char>,
    poll_id: Seq<char>,
    first: Seq<char>,
    second: Seq<char>,
)
    requires
        first != second,
        store.admits_vote(voter, poll_id, first),
        store.vote_error(poll_id, first) is None,
        store.vote_error(poll_id, second) is None,
        store.ballot(voter, poll_id) != Some(second),
        tally(store.vote(voter, poll_id, first).polls[poll_id].options, second) < u64::MAX,
    ensures
        ({
            let before = store.polls[poll_id].options;
            let once = store.vote(voter, poll_id, first);
            let twice = once.vote(voter, poll_id, second);
            &&& once.admits_vote(voter, poll_id, second)
            &&& once.vote_error(poll_id, second) is None
            &&& twice.ballot(voter, poll_id) == Some(second)
            &&& tally(twice.polls[poll_id].options, first) == tally(once.polls[poll_id].options, first)
                - 1
            &&& tally(twice.polls[poll_id].options, second) == tally(before, second) + 1
        }),
{
    lemma_vote_keeps_labels(store, voter, poll_id, first);
    let before = store.polls[poll_id].options;
    let once = store.vote(voter, poll_id, first);
    let counted = once.polls[poll_id].options;
    lemma_position(before, first);
    lemma_position(before, second);
    let a = position(before, first);
    let b = position(before, second);
    assert(a != b);
    lemma_same_labels(counted, before, first);
    lemma_same_labels(counted, before, second);
    let taken = once.retracted(voter, poll_id);
    assert(taken == with_tally(counted, a, (counted[a].1 - 1) as u64));
    lemma_same_labels(taken, counted, second);
    lemma_same_labels(taken, counted, first);
    assert(once.admits_vote(voter, poll_id, second));
    lemma_vote_keeps_labels(once, voter, poll_id, second);
    let twice = once.vote(voter, poll_id, second);
    let last = twice.polls[poll_id].options;
    lemma_same_labels(last, before, first);
    lemma_same_labels(last, before, second);
    match store.ballot(voter, poll_id) {
        Some(previous) => {
            lemma_position(before, previous);
            assert(position(before, previous) != b);
        },
        None => {},
    }
}

/// A vote on a poll that the ledger does not hold is refused and changes
/// nothing: no ballot is written.
pub proof fn lemma_unknown_poll_changes_nothing(
    store: StoreView,
    voter: Seq<char>,
    poll_id: Seq<char>,
    option: Seq<char>,
)
    requires
        !store.polls.contains_key(poll_id),
    ensures
        store.vote_error(poll_id, option) == Some(ContractError::PollNotFound),
        store.vote(voter, poll_id, option) == store,
        store.admits_vote(voter, poll_id, option),
{
}

} // verus!

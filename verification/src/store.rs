use crate::assoc::{
    assoc_map, lemma_assoc_absent, lemma_assoc_at, lemma_assoc_finite, lemma_assoc_insert,
    lemma_assoc_update,
};
use crate::order::{
    compare_ids, id_before, lemma_id_before_irreflexive, lemma_id_before_transitive, same_id, Place,
};
use crate::state::{polls_of, Ballot, Config, Poll, PollView};
use vstd::prelude::*;

verus! {

/// The ledger as contracts see it: the admin once it is set, the polls by
/// their identifier, and the selected label by voter and poll.
#[verifier::ext_equal]
pub struct StoreView {
    pub config: Option<Seq<char>>,
    pub polls: Map<Seq<char>, PollView>,
    pub ballots: Map<(Seq<char>, Seq<char>), Seq<char>>,
}

/// The identifiers stand in strictly ascending order.
pub open spec fn ascending(ids: Seq<Seq<char>>) -> bool {
    forall|i: int, j: int| 0 <= i < j < ids.len() ==> id_before(#[trigger] ids[i], #[trigger] ids[j])
}

/// `listed` are the polls of `polls`, each once, in the ascending order of
/// their identifiers `ids`.
pub open spec fn is_listing(
    polls: Map<Seq<char>, PollView>,
    ids: Seq<Seq<char>>,
    listed: Seq<PollView>,
) -> bool {
    &&& ascending(ids)
    &&& forall|id: Seq<char>| polls.contains_key(id) <==> ids.contains(id)
    &&& listed.len() == ids.len()
    &&& forall|i: int| 0 <= i < ids.len() ==> #[trigger] listed[i] == polls[ids[i]]
}

/// `listed` are the polls of `polls`, each once, in the ascending order of
/// their identifiers.
pub open spec fn lists(polls: Map<Seq<char>, PollView>, listed: Seq<PollView>) -> bool {
    exists|ids: Seq<Seq<char>>| is_listing(polls, ids, listed)
}

impl StoreView {
    /// The ledger that holds nothing.
    pub open spec fn empty() -> StoreView {
        StoreView { config: None, polls: Map::empty(), ballots: Map::empty() }
    }

    /// The ledger with the admin set.
    pub open spec fn with_config(self, admin: Seq<char>) -> StoreView {
        StoreView { config: Some(admin), ..self }
    }

    /// The ledger with `poll` stored under `poll_id`, in place of any poll
    /// that stood there.
    pub open spec fn with_poll(self, poll_id: Seq<char>, poll: PollView) -> StoreView {
        StoreView { polls: self.polls.insert(poll_id, poll), ..self }
    }

    /// The ledger with the ballot of `voter` on `poll_id` set to `option`, in
    /// place of any ballot that stood there.
    pub open spec fn with_ballot(
        self,
        voter: Seq<char>,
        poll_id: Seq<char>,
        option: Seq<char>,
    ) -> StoreView {
        StoreView { ballots: self.ballots.insert((voter, poll_id), option), ..self }
    }

    /// The label that `voter` has selected on `poll_id`, if any.
    pub open spec fn ballot(self, voter: Seq<char>, poll_id: Seq<char>) -> Option<Seq<char>> {
        if self.ballots.contains_key((voter, poll_id)) {
            Some(self.ballots[(voter, poll_id)])
        } else {
            None
        }
    }
}

/// The ledger: one admin record, the polls in the ascending order of their
/// identifiers, and at most one ballot for each voter and poll.
pub struct Store {
    config: Option<Config>,
    polls: Vec<(String, Poll)>,
    ballots: Vec<(String, String, Ballot)>,
}

impl View for Store {
    type V = StoreView;

    closed spec fn view(&self) -> StoreView {
        StoreView {
            config: match self.config {
                Some(config) => Some(config@),
                None => None,
            },
            polls: assoc_map(self.poll_ids(), self.poll_views()),
            ballots: assoc_map(self.ballot_keys(), self.ballot_views()),
        }
    }
}

impl Store {
    spec fn poll_ids(&self) -> Seq<Seq<char>> {
        Seq::new(self.polls@.len(), |i: int| self.polls@[i].0@)
    }

    spec fn poll_views(&self) -> Seq<PollView> {
        Seq::new(self.polls@.len(), |i: int| self.polls@[i].1@)
    }

    spec fn ballot_keys(&self) -> Seq<(Seq<char>, Seq<char>)> {
        Seq::new(self.ballots@.len(), |i: int| (self.ballots@[i].0@, self.ballots@[i].1@))
    }

    spec fn ballot_views(&self) -> Seq<Seq<char>> {
        Seq::new(self.ballots@.len(), |i: int| self.ballots@[i].2@)
    }

    #[verifier::type_invariant]
    spec fn well_formed(&self) -> bool {
        &&& ascending(self.poll_ids())
        &&& self.ballot_keys().no_duplicates()
    }

    /// Every ledger holds finitely many polls and ballots.
    pub proof fn lemma_finite(self)
        ensures
            self@.polls.dom().finite(),
            self@.ballots.dom().finite(),
    {
        lemma_assoc_finite(self.poll_ids(), self.poll_views());
        lemma_assoc_finite(self.ballot_keys(), self.ballot_views());
    }

    /// A ledger without admin, polls or ballots.
    pub fn new() -> (store: Store)
        ensures
            store@ == StoreView::empty(),
    {
        let store = Store { config: None, polls: Vec::new(), ballots: Vec::new() };
        assert(store@.polls =~= Map::empty());
        assert(store@.ballots =~= Map::empty());
        store
    }

    /// The admin record, once it is set.
    pub fn config(&self) -> (config: Option<&Config>)
        ensures
            config is Some == self@.config is Some,
            config is Some ==> config.unwrap()@ == self@.config.unwrap(),
    {
        match &self.config {
            Some(config) => Some(config),
            None => None,
        }
    }

    /// Sets the admin record.
    pub fn set_config(&mut self, config: Config)
        ensures
            final(self)@ == old(self)@.with_config(config@),
    {
        proof {
            use_type_invariant(&*self);
        }
        self.config = Some(config);
    }

    /// Where the sorted list holds `poll_id`, or where it would go.
    fn seek_poll(&self, poll_id: &str) -> (at: (usize, bool))
        ensures
            at.0 <= self.poll_ids().len(),
            forall|j: int| 0 <= j < at.0 ==> id_before(#[trigger] self.poll_ids()[j], poll_id@),
            at.1 ==> at.0 < self.poll_ids().len() && self.poll_ids()[at.0 as int] == poll_id@,
            !at.1 ==> forall|j: int|
                at.0 <= j < self.poll_ids().len() ==> id_before(poll_id@, #[trigger] self.poll_ids()[j]),
            at.1 == self@.polls.contains_key(poll_id@),
            at.1 ==> self@.polls[poll_id@] == self.poll_views()[at.0 as int],
    {
        proof {
            use_type_invariant(self);
            lemma_ascending_no_duplicates(self.poll_ids());
        }
        let ghost ids = self.poll_ids();
        let mut i: usize = 0;
        while i < self.polls.len()
            invariant
                i <= self.polls@.len(),
                ids == self.poll_ids(),
                ascending(ids),
                ids.no_duplicates(),
                forall|j: int| 0 <= j < i ==> id_before(#[trigger] ids[j], poll_id@),
            decreases self.polls@.len() - i,
        {
            let place = compare_ids(self.polls[i].0.as_str(), poll_id);
            assert(ids[i as int] == self.polls@[i as int].0@);
            match place {
                Place::Before => {},
                Place::Same => {
                    proof {
                        lemma_assoc_at(ids, self.poll_views(), i as int);
                    }
                    return (i, true);
                },
                Place::After => {
                    proof {
                        assert forall|j: int| i <= j < ids.len() implies id_before(
                            poll_id@,
                            #[trigger] ids[j],
                        ) by {
                            if i < j {
                                lemma_id_before_transitive(poll_id@, ids[i as int], ids[j]);
                            }
                        }
                        lemma_absent_from_ascending(ids, poll_id@, i as int);
                        lemma_assoc_absent(ids, self.poll_views(), poll_id@);
                    }
                    return (i, false);
                },
            }
            i += 1;
        }
        proof {
            lemma_absent_from_ascending(ids, poll_id@, i as int);
            lemma_assoc_absent(ids, self.poll_views(), poll_id@);
        }
        (i, false)
    }

    /// The poll stored under `poll_id`, if there is one.
    pub fn get_poll(&self, poll_id: &str) -> (poll: Option<&Poll>)
        ensures
            poll is Some == self@.polls.contains_key(poll_id@),
            poll is Some ==> poll.unwrap()@ == self@.polls[poll_id@],
    {
        let (at, found) = self.seek_poll(poll_id);
        if found {
            Some(&self.polls[at].1)
        } else {
            None
        }
    }

    /// Stores `poll` under `poll_id`. A poll that stood there is replaced.
    pub fn save_poll(&mut self, poll_id: String, poll: Poll)
        ensures
            final(self)@ == old(self)@.with_poll(poll_id@, poll@),
    {
        proof {
            use_type_invariant(&*self);
            lemma_ascending_no_duplicates(self.poll_ids());
        }
        let ghost ids = self.poll_ids();
        let ghost views = self.poll_views();
        let (at, found) = self.seek_poll(poll_id.as_str());
        // The list is taken out while it changes and put back when it is in
        // order again, so that the ledger is well formed at every step.
        let mut polls: Vec<(String, Poll)> = Vec::new();
        core::mem::swap(&mut self.polls, &mut polls);
        if found {
            polls.set(at, (poll_id, poll));
            proof {
                let entries = polls@;
                assert(Seq::new(entries.len(), |i: int| entries[i].0@) =~= ids);
            }
            core::mem::swap(&mut self.polls, &mut polls);
            proof {
                assert(self.poll_ids() =~= ids);
                assert(self.poll_views() =~= views.update(at as int, poll@));
                lemma_assoc_update(ids, views, at as int, poll@);
            }
        } else {
            polls.insert(at, (poll_id, poll));
            proof {
                let entries = polls@;
                let ids2 = Seq::new(entries.len(), |i: int| entries[i].0@);
                let views2 = Seq::new(entries.len(), |i: int| entries[i].1@);
                assert(ids2 =~= ids.insert(at as int, poll_id@));
                assert(views2 =~= views.insert(at as int, poll@));
                lemma_absent_from_ascending(ids, poll_id@, at as int);
                lemma_assoc_insert(ids, views, at as int, poll_id@, poll@);
                lemma_insert_ascending(ids, at as int, poll_id@);
            }
            core::mem::swap(&mut self.polls, &mut polls);
            proof {
                assert(self.poll_ids() =~= ids.insert(at as int, poll_id@));
                assert(self.poll_views() =~= views.insert(at as int, poll@));
            }
        }
    }

    /// Where the list holds the ballot of `voter` on `poll_id`, if it does.
    fn seek_ballot(&self, voter: &str, poll_id: &str) -> (at: Option<usize>)
        ensures
            at is Some == self@.ballots.contains_key((voter@, poll_id@)),
            at is Some ==> at.unwrap() < self.ballot_keys().len() && self.ballot_keys()[at.unwrap() as int]
                == (voter@, poll_id@) && self@.ballots[(voter@, poll_id@)]
                == self.ballot_views()[at.unwrap() as int],
            at is None ==> forall|j: int|
                0 <= j < self.ballot_keys().len() ==> self.ballot_keys()[j] != (voter@, poll_id@),
    {
        proof {
            use_type_invariant(self);
        }
        let ghost keys = self.ballot_keys();
        let mut i: usize = 0;
        while i < self.ballots.len()
            invariant
                i <= self.ballots@.len(),
                keys == self.ballot_keys(),
                keys.no_duplicates(),
                forall|j: int| 0 <= j < i ==> keys[j] != (voter@, poll_id@),
            decreases self.ballots@.len() - i,
        {
            assert(keys[i as int] == (self.ballots@[i as int].0@, self.ballots@[i as int].1@));
            if same_id(self.ballots[i].0.as_str(), voter) && same_id(
                self.ballots[i].1.as_str(),
                poll_id,
            ) {
                proof {
                    lemma_assoc_at(keys, self.ballot_views(), i as int);
                }
                return Some(i);
            }
            i += 1;
        }
        proof {
            lemma_assoc_absent(keys, self.ballot_views(), (voter@, poll_id@));
        }
        None
    }

    /// The ballot of `voter` on `poll_id`, if there is one.
    pub fn get_ballot(&self, voter: &str, poll_id: &str) -> (ballot: Option<&Ballot>)
        ensures
            ballot is Some == self@.ballot(voter@, poll_id@) is Some,
            ballot is Some ==> ballot.unwrap()@ == self@.ballot(voter@, poll_id@).unwrap(),
    {
        match self.seek_ballot(voter, poll_id) {
            Some(at) => Some(&self.ballots[at].2),
            None => None,
        }
    }

    /// Sets the ballot of `voter` on `poll_id` to `option` in one step, and
    /// hands back the ballot that it replaces, if there was one.
    pub fn upsert_ballot(&mut self, voter: String, poll_id: String, option: String) -> (previous:
        Option<Ballot>)
        ensures
            final(self)@ == old(self)@.with_ballot(voter@, poll_id@, option@),
            previous is Some == old(self)@.ballot(voter@, poll_id@) is Some,
            previous is Some ==> previous.unwrap()@ == old(self)@.ballot(voter@, poll_id@).unwrap(),
    {
        proof {
            use_type_invariant(&*self);
        }
        let ghost keys = self.ballot_keys();
        let ghost views = self.ballot_views();
        let ghost key = (voter@, poll_id@);
        let found = self.seek_ballot(voter.as_str(), poll_id.as_str());
        let mut ballots: Vec<(String, String, Ballot)> = Vec::new();
        core::mem::swap(&mut self.ballots, &mut ballots);
        // The new ballot goes to the end; where an old one stands, it is
        // taken out and the new one moves to its place.
        ballots.push((voter, poll_id, Ballot { option }));
        let previous = match found {
            Some(at) => {
                let replaced = ballots.swap_remove(at);
                proof {
                    let entries = ballots@;
                    let keys2 = Seq::new(entries.len(), |i: int| (entries[i].0@, entries[i].1@));
                    let views2 = Seq::new(entries.len(), |i: int| entries[i].2@);
                    assert(keys2 =~= keys);
                    assert(views2 =~= views.update(at as int, option@));
                    lemma_assoc_update(keys, views, at as int, option@);
                }
                Some(replaced.2)
            },
            None => {
                proof {
                    let entries = ballots@;
                    let keys2 = Seq::new(entries.len(), |i: int| (entries[i].0@, entries[i].1@));
                    let views2 = Seq::new(entries.len(), |i: int| entries[i].2@);
                    assert(keys2 =~= keys.insert(keys.len() as int, key));
                    assert(views2 =~= views.insert(keys.len() as int, option@));
                    lemma_assoc_insert(keys, views, keys.len() as int, key, option@);
                }
                None
            },
        };
        core::mem::swap(&mut self.ballots, &mut ballots);
        proof {
            let entries = self.ballots@;
            assert(self.ballot_keys() =~= Seq::new(entries.len(), |i: int| (entries[i].0@, entries[i].1@)));
            assert(self.ballot_views() =~= Seq::new(entries.len(), |i: int| entries[i].2@));
        }
        previous
    }

    /// All polls, in the ascending order of their identifiers.
    pub fn list_polls(&self) -> (polls: Vec<Poll>)
        ensures
            lists(self@.polls, polls_of(polls@)),
    {
        proof {
            use_type_invariant(self);
            lemma_ascending_no_duplicates(self.poll_ids());
        }
        let mut polls: Vec<Poll> = Vec::new();
        let mut i: usize = 0;
        while i < self.polls.len()
            invariant
                i <= self.polls@.len(),
                polls@.len() == i,
                forall|j: int| 0 <= j < i ==> (#[trigger] polls@[j])@ == self.polls@[j].1@,
            decreases self.polls@.len() - i,
        {
            polls.push(self.polls[i].1.clone());
            i += 1;
        }
        proof {
            let ids = self.poll_ids();
            let listed = polls_of(polls@);
            assert forall|i: int| 0 <= i < ids.len() implies #[trigger] listed[i] == self@.polls[ids[i]] by {
                lemma_assoc_at(ids, self.poll_views(), i);
            }
            assert(is_listing(self@.polls, ids, listed));
        }
        polls
    }
}

/// Identifiers in strictly ascending order are all different.
pub proof fn lemma_ascending_no_duplicates(ids: Seq<Seq<char>>)
    requires
        ascending(ids),
    ensures
        ids.no_duplicates(),
{
    assert forall|i: int, j: int| 0 <= i < ids.len() && 0 <= j < ids.len() && i != j implies ids[i]
        != ids[j] by {
        lemma_id_before_irreflexive(ids[i]);
        if i < j {
            assert(id_before(ids[i], ids[j]));
        } else {
            assert(id_before(ids[j], ids[i]));
        }
    }
}

/// An identifier that falls between two neighbours of an ascending list is
/// not in the list.
proof fn lemma_absent_from_ascending(ids: Seq<Seq<char>>, id: Seq<char>, at: int)
    requires
        ascending(ids),
        0 <= at <= ids.len(),
        forall|j: int| 0 <= j < at ==> id_before(#[trigger] ids[j], id),
        forall|j: int| at <= j < ids.len() ==> id_before(id, #[trigger] ids[j]),
    ensures
        forall|j: int| 0 <= j < ids.len() ==> ids[j] != id,
{
    lemma_id_before_irreflexive(id);
    assert forall|j: int| 0 <= j < ids.len() implies ids[j] != id by {
        if j < at {
            assert(id_before(ids[j], id));
        } else {
            assert(id_before(id, ids[j]));
        }
    }
}

/// An identifier put between its neighbours keeps the list ascending.
proof fn lemma_insert_ascending(ids: Seq<Seq<char>>, at: int, id: Seq<char>)
    requires
        ascending(ids),
        0 <= at <= ids.len(),
        forall|j: int| 0 <= j < at ==> id_before(#[trigger] ids[j], id),
        forall|j: int| at <= j < ids.len() ==> id_before(id, #[trigger] ids[j]),
    ensures
        ascending(ids.insert(at, id)),
{
    let after = ids.insert(at, id);
    assert forall|i: int, j: int| 0 <= i < j < after.len() implies id_before(
        #[trigger] after[i],
        #[trigger] after[j],
    ) by {
        let a = if i < at { i } else { i - 1 };
        let b = if j < at { j } else { j - 1 };
        if i == at {
            assert(after[j] == ids[b]);
        } else if j == at {
            assert(after[i] == ids[a]);
        } else {
            assert(after[i] == ids[a]);
            assert(after[j] == ids[b]);
        }
    }
}


/// Two ascending lists of the same identifiers are the same list.
pub proof fn lemma_ascending_unique(a: Seq<Seq<char>>, b: Seq<Seq<char>>)
    requires
        ascending(a),
        ascending(b),
        forall|id: Seq<char>| a.contains(id) <==> b.contains(id),
    ensures
        a == b,
    decreases a.len(),
{
    if a.len() == 0 {
        if b.len() > 0 {
            assert(b.contains(b[0]));
        }
        assert(a =~= b);
    } else {
        assert(a.contains(a[0]));
        let j = b.index_of(a[0]);
        assert(b.contains(b[0]));
        let i = a.index_of(b[0]);
        lemma_id_before_irreflexive(a[0]);
        if j > 0 {
            assert(id_before(b[0], b[j]));
            if i > 0 {
                assert(id_before(a[0], a[i]));
                lemma_id_before_transitive(a[0], a[i], a[0]);
            }
        }
        assert(a[0] == b[0]);
        let x = a.skip(1);
        let y = b.skip(1);
        lemma_ascending_no_duplicates(a);
        lemma_ascending_no_duplicates(b);
        assert forall|id: Seq<char>| x.contains(id) <==> y.contains(id) by {
            if x.contains(id) {
                let k = x.index_of(id);
                assert(a[k + 1] == id);
                assert(a.contains(id));
                let m = b.index_of(id);
                assert(m != 0);
                assert(y[m - 1] == id);
            }
            if y.contains(id) {
                let k = y.index_of(id);
                assert(b[k + 1] == id);
                assert(b.contains(id));
                let m = a.index_of(id);
                assert(m != 0);
                assert(x[m - 1] == id);
            }
        }
        assert forall|i: int, j: int| 0 <= i < j < x.len() implies id_before(
            #[trigger] x[i],
            #[trigger] x[j],
        ) by {
            assert(id_before(a[i + 1], a[j + 1]));
        }
        assert forall|i: int, j: int| 0 <= i < j < y.len() implies id_before(
            #[trigger] y[i],
            #[trigger] y[j],
        ) by {
            assert(id_before(b[i + 1], b[j + 1]));
        }
        lemma_ascending_unique(x, y);
        assert forall|k: int| 0 <= k < a.len() implies a[k] == b[k] by {
            if k > 0 {
                assert(a[k] == x[k - 1]);
                assert(b[k] == y[k - 1]);
            }
        }
        assert(a.len() == x.len() + 1);
        assert(b.len() == y.len() + 1);
        assert(a =~= b);
    }
}

/// The polls of a ledger can be listed in one way only.
pub proof fn lemma_listing_unique(polls: Map<Seq<char>, PollView>, first: Seq<PollView>, second: Seq<PollView>)
    requires
        lists(polls, first),
        lists(polls, second),
    ensures
        first == second,
{
    let a = choose|ids: Seq<Seq<char>>| is_listing(polls, ids, first);
    let b = choose|ids: Seq<Seq<char>>| is_listing(polls, ids, second);
    assert forall|id: Seq<char>| a.contains(id) <==> b.contains(id) by {
        assert(polls.contains_key(id) <==> a.contains(id));
        assert(polls.contains_key(id) <==> b.contains(id));
    }
    lemma_ascending_unique(a, b);
    assert(first =~= second);
}

} // verus!

use crate::error::ContractError;
use crate::state::{PollView, Tallies, MAX_OPTIONS};
use crate::store::StoreView;
use crate::tally::{has_option, record, retract, tally};
use vstd::prelude::*;

verus! {

impl PollView {
    /// A poll on which nobody has voted yet: every option with tally 0, in
    /// the order given. Labels are taken as they come, a repeated one too.
    pub open spec fn fresh(creator: Seq<char>, question: Seq<char>, labels: Seq<Seq<char>>) -> PollView {
        PollView { creator, question, options: Seq::new(labels.len(), |i: int| (labels[i], 0u64)) }
    }

    /// The same poll with other tallies.
    pub open spec fn with_options(self, options: Tallies) -> PollView {
        PollView { options, ..self }
    }
}

impl StoreView {
    /// Whether a poll with these labels may be created.
    pub open spec fn creation_error(labels: Seq<Seq<char>>) -> Option<ContractError> {
        if labels.len() > MAX_OPTIONS {
            Some(ContractError::TooManyOptions)
        } else {
            None
        }
    }

    /// The ledger after `creator` asked for a poll: the fresh poll stands
    /// under `poll_id`, in place of any poll that stood there, unless it has
    /// too many options, in which case nothing changes.
    pub open spec fn create_or_replace_poll(
        self,
        creator: Seq<char>,
        poll_id: Seq<char>,
        question: Seq<char>,
        labels: Seq<Seq<char>>,
    ) -> StoreView {
        if Self::creation_error(labels) is Some {
            self
        } else {
            self.with_poll(poll_id, PollView::fresh(creator, question, labels))
        }
    }

    /// The options of the poll once the vote that `voter` has on it, if any,
    /// is taken back.
    pub open spec fn retracted(self, voter: Seq<char>, poll_id: Seq<char>) -> Tallies {
        let options = self.polls[poll_id].options;
        match self.ballot(voter, poll_id) {
            Some(previous) => retract(options, previous),
            None => options,
        }
    }

    /// Why a vote is refused, if it is.
    pub open spec fn vote_error(self, poll_id: Seq<char>, option: Seq<char>) -> Option<ContractError> {
        if !self.polls.contains_key(poll_id) {
            Some(ContractError::PollNotFound)
        } else if !has_option(self.polls[poll_id].options, option) {
            Some(ContractError::OptionNotFound)
        } else {
            None
        }
    }

    /// The ledger after `voter` asked to vote for `option` on `poll_id`.
    ///
    /// On an unknown poll nothing changes. Otherwise the ballot is written
    /// first, and it stays written when the option turns out not to be
    /// listed: the poll then keeps its tallies, and the ballot names a label
    /// that the poll lacks. Where the option is listed, the vote that the
    /// voter had before is taken back and the new one is counted.
    pub open spec fn vote(self, voter: Seq<char>, poll_id: Seq<char>, option: Seq<char>) -> StoreView {
        if !self.polls.contains_key(poll_id) {
            self
        } else {
            let cast = self.with_ballot(voter, poll_id, option);
            if !has_option(self.polls[poll_id].options, option) {
                cast
            } else {
                cast.with_poll(
                    poll_id,
                    self.polls[poll_id].with_options(record(self.retracted(voter, poll_id), option)),
                )
            }
        }
    }

    /// The vote can be carried out: the ballot that it replaces, if any, is
    /// counted in the poll, and the tally that it raises is not at its limit.
    pub open spec fn admits_vote(self, voter: Seq<char>, poll_id: Seq<char>, option: Seq<char>) -> bool {
        self.polls.contains_key(poll_id) ==> {
            let options = self.polls[poll_id].options;
            &&& match self.ballot(voter, poll_id) {
                Some(previous) => has_option(options, previous) && tally(options, previous) >= 1,
                None => true,
            }
            &&& has_option(options, option) ==> tally(self.retracted(voter, poll_id), option)
                < u64::MAX
        }
    }

    /// The ledger after a run of votes, each given as voter, poll and option,
    /// the first one first.
    pub open spec fn after_votes(self, votes: Seq<(Seq<char>, Seq<char>, Seq<char>)>) -> StoreView
        decreases votes.len(),
    {
        if votes.len() == 0 {
            self
        } else {
            self.after_votes(votes.drop_last()).vote(votes.last().0, votes.last().1, votes.last().2)
        }
    }

    /// Every vote of the run can be carried out when its turn comes, and is
    /// counted.
    pub open spec fn all_counted(self, votes: Seq<(Seq<char>, Seq<char>, Seq<char>)>) -> bool
        decreases votes.len(),
    {
        votes.len() == 0 || {
            let reached = self.after_votes(votes.drop_last());
            &&& self.all_counted(votes.drop_last())
            &&& reached.admits_vote(votes.last().0, votes.last().1, votes.last().2)
            &&& reached.vote_error(votes.last().1, votes.last().2) is None
        }
    }
}

} // verus!

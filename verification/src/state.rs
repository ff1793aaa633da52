use vstd::prelude::*;

verus! {

/// The most options a poll may be created with.
pub const MAX_OPTIONS: usize = 10;

/// The options of a poll as contracts see them: label and tally, in the
/// order in which the poll lists them.
pub type Tallies = Seq<(Seq<char>, u64)>;

/// The administrative record written once, when the ledger is set up.
#[derive(Debug, PartialEq, Eq)]
pub struct Config {
    pub admin: String,
}

/// A question with its options and the running tally of each.
#[derive(Debug, PartialEq, Eq)]
pub struct Poll {
    pub creator: String,
    pub question: String,
    pub options: Vec<(String, u64)>,
}

/// The option that one voter currently has selected on one poll.
#[derive(Debug, PartialEq, Eq)]
pub struct Ballot {
    pub option: String,
}

/// A poll as contracts see it.
#[verifier::ext_equal]
pub struct PollView {
    pub creator: Seq<char>,
    pub question: Seq<char>,
    pub options: Tallies,
}

/// The options of a poll, each label by its characters.
pub open spec fn tallies_of(options: Seq<(String, u64)>) -> Tallies {
    Seq::new(options.len(), |i: int| (options[i].0@, options[i].1))
}

/// A poll list as contracts see it.
pub open spec fn polls_of(polls: Seq<Poll>) -> Seq<PollView> {
    Seq::new(polls.len(), |i: int| polls[i]@)
}

impl View for Config {
    type V = Seq<char>;

    /// A configuration is the account it names as admin.
    open spec fn view(&self) -> Seq<char> {
        self.admin@
    }
}

impl View for Poll {
    type V = PollView;

    open spec fn view(&self) -> PollView {
        PollView {
            creator: self.creator@,
            question: self.question@,
            options: tallies_of(self.options@),
        }
    }
}

impl View for Ballot {
    type V = Seq<char>;

    /// A ballot is the label it selects.
    open spec fn view(&self) -> Seq<char> {
        self.option@
    }
}

impl Clone for Config {
    fn clone(&self) -> (copy: Self)
        ensures
            copy@ == self@,
    {
        Config { admin: self.admin.clone() }
    }
}

impl Clone for Ballot {
    fn clone(&self) -> (copy: Self)
        ensures
            copy@ == self@,
    {
        Ballot { option: self.option.clone() }
    }
}

impl Clone for Poll {
    fn clone(&self) -> (copy: Self)
        ensures
            copy@ == self@,
    {
        let mut options: Vec<(String, u64)> = Vec::new();
        let mut i: usize = 0;
        while i < self.options.len()
            invariant
                i <= self.options.len(),
                options@.len() == i,
                forall|j: int|
                    0 <= j < i ==> (#[trigger] options@[j]).0@ == self.options@[j].0@
                        && options@[j].1 == self.options@[j].1,
            decreases self.options.len() - i,
        {
            let label = self.options[i].0.clone();
            options.push((label, self.options[i].1));
            i += 1;
        }
        assert(tallies_of(options@) =~= tallies_of(self.options@));
        Poll { creator: self.creator.clone(), question: self.question.clone(), options }
    }
}

} // verus!

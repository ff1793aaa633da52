use crate::state::{Ballot, Config, Poll};
use vstd::prelude::*;

verus! {

/// Who sent a message.
#[derive(Clone, Debug, PartialEq, Eq)]
pub struct MessageInfo {
    pub sender: String,
}

/// Sets the ledger up. Without an admin, the sender becomes admin.
#[derive(Clone, Debug, PartialEq)]
pub struct InstantiateMsg {
    pub admin: Option<String>,
}

/// A request that changes the ledger.
#[derive(Clone, Debug, PartialEq)]
pub enum ExecuteMsg {
    CreatePoll { poll_id: String, question: String, options: Vec<String> },
    Vote { poll_id: String, vote: String },
}

/// A question about the ledger.
#[derive(Clone, Debug, PartialEq)]
pub enum QueryMsg {
    AllPolls {},
    Poll { poll_id: String },
    Vote { poll_id: String, address: String },
    GetConfig {},
}

/// Every poll, in the ascending order of the identifiers.
#[derive(Clone, Debug, PartialEq)]
pub struct AllPollsResponse {
    pub polls: Vec<Poll>,
}

/// One poll, or none where the identifier is unknown.
#[derive(Clone, Debug, PartialEq)]
pub struct PollResponse {
    pub poll: Option<Poll>,
}

/// The ballot of one voter on one poll, or none where there is none.
#[derive(Clone, Debug, PartialEq)]
pub struct VoteResponse {
    pub vote: Option<Ballot>,
}

/// The admin record.
#[derive(Clone, Debug, PartialEq)]
pub struct ConfigResponse {
    pub config: Config,
}

/// What a query answers, by the kind of the question.
#[derive(Clone, Debug, PartialEq)]
pub enum QueryResponse {
    AllPolls(AllPollsResponse),
    Poll(PollResponse),
    Vote(VoteResponse),
    Config(ConfigResponse),
}

impl InstantiateMsg {
    /// The account that is to become admin: the one the message names, or
    /// else the sender.
    pub open spec fn chosen_admin(self, sender: Seq<char>) -> Seq<char> {
        match self.admin {
            Some(admin) => admin@,
            None => sender,
        }
    }

    /// The account that is to become admin.
    pub fn admin_or(self, sender: String) -> (admin: String)
        ensures
            admin@ == self.chosen_admin(sender@),
    {
        match self.admin {
            Some(admin) => admin,
            None => sender,
        }
    }
}

} // verus!

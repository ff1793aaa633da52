use crate::error::ContractError;
use crate::msg::{
    AllPollsResponse, ConfigResponse, ExecuteMsg, InstantiateMsg, MessageInfo, PollResponse, QueryMsg,
    QueryResponse, VoteResponse,
};
use crate::response::{add_attribute, new_response, reports, response_attributes};
use crate::state::{polls_of, tallies_of, Config, Poll, PollView, MAX_OPTIONS};
use crate::store::{lists, Store, StoreView};
use crate::tally::{find_option, lemma_position, lemma_with_tally_keeps_labels, set_tally};
use cosmwasm_std::Response;
use vstd::prelude::*;

verus! {

/// The labels of a list of options, each by its characters.
pub open spec fn labels_of(options: Seq<String>) -> Seq<Seq<char>> {
    Seq::new(options.len(), |i: int| options[i]@)
}

/// What setting up the ledger reports.
pub open spec fn instantiate_report(admin: Seq<char>) -> Seq<(Seq<char>, Seq<char>)> {
    seq![("action"@, "instantiate"@), ("admin"@, admin)]
}

/// What a created poll reports.
pub open spec fn create_poll_report(poll_id: Seq<char>, question: Seq<char>) -> Seq<
    (Seq<char>, Seq<char>),
> {
    seq![("action"@, "execute_create_poll"@), ("poll_id"@, poll_id), ("question"@, question)]
}

/// What a counted vote reports.
pub open spec fn vote_report(poll_id: Seq<char>, option: Seq<char>) -> Seq<(Seq<char>, Seq<char>)> {
    seq![("action"@, "execute_vote"@), ("poll_id"@, poll_id), ("vote"@, option)]
}

/// The outcome of a request to create a poll.
pub open spec fn created(
    before: StoreView,
    after: StoreView,
    outcome: Result<Response, ContractError>,
    sender: Seq<char>,
    poll_id: Seq<char>,
    question: Seq<char>,
    labels: Seq<Seq<char>>,
) -> bool {
    &&& after == before.create_or_replace_poll(sender, poll_id, question, labels)
    &&& match outcome {
        Ok(response) => StoreView::creation_error(labels) is None && reports(
            response,
            create_poll_report(poll_id, question),
        ),
        Err(error) => StoreView::creation_error(labels) == Some(error),
    }
}

/// The outcome of a request to vote.
pub open spec fn voted(
    before: StoreView,
    after: StoreView,
    outcome: Result<Response, ContractError>,
    sender: Seq<char>,
    poll_id: Seq<char>,
    option: Seq<char>,
) -> bool {
    &&& after == before.vote(sender, poll_id, option)
    &&& match outcome {
        Ok(response) => before.vote_error(poll_id, option) is None && reports(
            response,
            vote_report(poll_id, option),
        ),
        Err(error) => before.vote_error(poll_id, option) == Some(error),
    }
}

/// Sets up the ledger: the admin is the account that the message names, or
/// else the sender. The caller has validated that account.
pub fn instantiate(store: &mut Store, info: MessageInfo, msg: InstantiateMsg) -> (outcome: Result<
    Response,
    ContractError,
>)
    ensures
        final(store)@ == old(store)@.with_config(msg.chosen_admin(info.sender@)),
        outcome is Ok,
        reports(outcome.unwrap(), instantiate_report(msg.chosen_admin(info.sender@))),
{
    proof {
        reveal_strlit("action");
        reveal_strlit("admin");
    }
    let admin = msg.admin_or(info.sender);
    let response = add_attribute(new_response(), "action", "instantiate");
    let response = add_attribute(response, "admin", admin.as_str());
    store.set_config(Config { admin });
    assert(response_attributes(response) =~= instantiate_report(msg.chosen_admin(info.sender@)));
    Ok(response)
}

/// The request can be carried out. A request to create a poll always can;
/// for a vote see `StoreView::admits_vote`.
pub open spec fn admits(store: StoreView, sender: Seq<char>, msg: ExecuteMsg) -> bool {
    match msg {
        ExecuteMsg::CreatePoll { .. } => true,
        ExecuteMsg::Vote { poll_id, vote } => store.admits_vote(sender, poll_id@, vote@),
    }
}

/// Tells whether `execute` can carry the request out.
pub fn can_execute(store: &Store, info: &MessageInfo, msg: &ExecuteMsg) -> (admitted: bool)
    ensures
        admitted == admits(store@, info.sender@, *msg),
{
    match msg {
        ExecuteMsg::CreatePoll { .. } => true,
        ExecuteMsg::Vote { poll_id, vote } => can_vote(
            store,
            info.sender.as_str(),
            poll_id.as_str(),
            vote.as_str(),
        ),
    }
}

/// Tells whether `execute_vote` can carry out the vote of `voter` for
/// `option` on `poll_id`.
pub fn can_vote(store: &Store, voter: &str, poll_id: &str, option: &str) -> (admitted: bool)
    ensures
        admitted == store@.admits_vote(voter@, poll_id@, option@),
{
    let poll = match store.get_poll(poll_id) {
        Some(poll) => poll,
        None => {
            return true;
        },
    };
    let ghost listed = tallies_of(poll.options@);
    let target = find_option(&poll.options, option);
    proof {
        if target is Some {
            lemma_position(listed, option@);
        }
    }
    match store.get_ballot(voter, poll_id) {
        Some(ballot) => {
            let from = match find_option(&poll.options, ballot.option.as_str()) {
                Some(from) => from,
                None => {
                    return false;
                },
            };
            proof {
                lemma_position(listed, ballot@);
            }
            let held = poll.options[from].1;
            if held < 1 {
                return false;
            }
            proof {
                lemma_with_tally_keeps_labels(listed, from as int, (held - 1) as u64, option@);
            }
            match target {
                Some(at) => if at == from {
                    true
                } else {
                    poll.options[at].1 < u64::MAX
                },
                None => true,
            }
        },
        None => match target {
            Some(at) => poll.options[at].1 < u64::MAX,
            None => true,
        },
    }
}

/// Carries out a request to create a poll or to vote. The ledger must admit
/// the request (`admits`, tested by `can_execute`).
pub fn execute(store: &mut Store, info: MessageInfo, msg: ExecuteMsg) -> (outcome: Result<
    Response,
    ContractError,
>)
    requires
        admits(old(store)@, info.sender@, msg),
    ensures
        match msg {
            ExecuteMsg::CreatePoll { poll_id, question, options } => created(
                old(store)@,
                final(store)@,
                outcome,
                info.sender@,
                poll_id@,
                question@,
                labels_of(options@),
            ),
            ExecuteMsg::Vote { poll_id, vote } => voted(
                old(store)@,
                final(store)@,
                outcome,
                info.sender@,
                poll_id@,
                vote@,
            ),
        },
{
    match msg {
        ExecuteMsg::CreatePoll { poll_id, question, options } => execute_create_poll(
            store,
            info,
            poll_id,
            question,
            options,
        ),
        ExecuteMsg::Vote { poll_id, vote } => execute_vote(store, info, poll_id, vote),
    }
}

/// Creates a poll with every tally at 0, or replaces the poll that stands
/// under the same identifier. More than `MAX_OPTIONS` options are refused.
pub fn execute_create_poll(
    store: &mut Store,
    info: MessageInfo,
    poll_id: String,
    question: String,
    options: Vec<String>,
) -> (outcome: Result<Response, ContractError>)
    ensures
        created(
            old(store)@,
            final(store)@,
            outcome,
            info.sender@,
            poll_id@,
            question@,
            labels_of(options@),
        ),
{
    if options.len() > MAX_OPTIONS {
        return Err(ContractError::TooManyOptions);
    }
    let ghost labels = labels_of(options@);
    let mut opts: Vec<(String, u64)> = Vec::new();
    let mut i: usize = 0;
    while i < options.len()
        invariant
            i <= options@.len(),
            opts@.len() == i,
            forall|j: int| 0 <= j < i ==> (#[trigger] opts@[j]).0@ == options@[j]@ && opts@[j].1 == 0,
        decreases options@.len() - i,
    {
        opts.push((options[i].clone(), 0));
        i += 1;
    }
    let poll = Poll { creator: info.sender, question: question.clone(), options: opts };
    assert(poll@.options =~= PollView::fresh(info.sender@, question@, labels).options);
    store.save_poll(poll_id.clone(), poll);
    proof {
        reveal_strlit("action");
        reveal_strlit("poll_id");
        reveal_strlit("question");
    }
    let response = add_attribute(new_response(), "action", "execute_create_poll");
    let response = add_attribute(response, "poll_id", poll_id.as_str());
    let response = add_attribute(response, "question", question.as_str());
    assert(response_attributes(response) =~= create_poll_report(poll_id@, question@));
    Ok(response)
}

/// Records the vote of the sender on a poll.
///
/// The ballot is written before the option is looked up. A vote for a label
/// that the poll does not list is refused, and leaves the poll as it was, but
/// the ballot then names that label.
///
/// The ledger must admit the vote (`StoreView::admits_vote`, tested by
/// `can_vote`): taking back the vote that the sender had before must not
/// bring a tally below 0, nor counting the new one above the largest number.
/// Every vote on a poll that agrees with its ballots is of that kind, short
/// of the largest number.
pub fn execute_vote(store: &mut Store, info: MessageInfo, poll_id: String, vote: String) -> (outcome:
    Result<Response, ContractError>)
    requires
        old(store)@.admits_vote(info.sender@, poll_id@, vote@),
    ensures
        voted(old(store)@, final(store)@, outcome, info.sender@, poll_id@, vote@),
{
    let ghost before = store@;
    let mut poll = match store.get_poll(poll_id.as_str()) {
        Some(poll) => poll.clone(),
        None => {
            return Err(ContractError::PollNotFound);
        },
    };
    let ghost listed = before.polls[poll_id@].options;
    let previous = store.upsert_ballot(info.sender, poll_id.clone(), vote.clone());
    match previous {
        Some(ballot) => {
            proof {
                lemma_position(listed, ballot@);
            }
            let found = find_option(&poll.options, ballot.option.as_str());
            let at = found.unwrap();
            let count = poll.options[at].1;
            set_tally(&mut poll.options, at, count - 1);
            proof {
                lemma_with_tally_keeps_labels(listed, at as int, (count - 1) as u64, vote@);
            }
        },
        None => {},
    }
    assert(tallies_of(poll.options@) == before.retracted(info.sender@, poll_id@));
    let at = match find_option(&poll.options, vote.as_str()) {
        Some(at) => at,
        None => {
            return Err(ContractError::OptionNotFound);
        },
    };
    proof {
        lemma_position(tallies_of(poll.options@), vote@);
    }
    let count = poll.options[at].1;
    set_tally(&mut poll.options, at, count + 1);
    store.save_poll(poll_id.clone(), poll);
    proof {
        reveal_strlit("action");
        reveal_strlit("poll_id");
        reveal_strlit("vote");
    }
    let response = add_attribute(new_response(), "action", "execute_vote");
    let response = add_attribute(response, "poll_id", poll_id.as_str());
    let response = add_attribute(response, "vote", vote.as_str());
    assert(response_attributes(response) =~= vote_report(poll_id@, vote@));
    Ok(response)
}

/// Answers a question about the ledger. The caller has validated the account
/// that a question about a vote names. The admin record can be asked for
/// once the ledger has been set up.
pub fn query(store: &Store, msg: QueryMsg) -> (answer: QueryResponse)
    requires
        msg is GetConfig ==> store@.config is Some,
    ensures
        match msg {
            QueryMsg::AllPolls {} => answer is AllPolls && lists_all(store@, answer->AllPolls_0),
            QueryMsg::Poll { poll_id } => answer is Poll && shows_poll(
                store@,
                poll_id@,
                answer->Poll_0,
            ),
            QueryMsg::Vote { poll_id, address } => answer is Vote && shows_vote(
                store@,
                address@,
                poll_id@,
                answer->Vote_0,
            ),
            QueryMsg::GetConfig {} => answer is Config && shows_config(store@, answer->Config_0),
        },
{
    match msg {
        QueryMsg::AllPolls {} => QueryResponse::AllPolls(query_all_polls(store)),
        QueryMsg::Poll { poll_id } => QueryResponse::Poll(query_poll(store, poll_id)),
        QueryMsg::Vote { poll_id, address } => QueryResponse::Vote(
            query_vote(store, address, poll_id),
        ),
        QueryMsg::GetConfig {} => QueryResponse::Config(query_config(store)),
    }
}

/// The answer holds every poll of the ledger once, in the ascending order of
/// their identifiers.
pub open spec fn lists_all(store: StoreView, answer: AllPollsResponse) -> bool {
    lists(store.polls, polls_of(answer.polls@))
}

/// The answer holds the poll that stands under `poll_id`, or none where
/// there is none.
pub open spec fn shows_poll(store: StoreView, poll_id: Seq<char>, answer: PollResponse) -> bool {
    match answer.poll {
        Some(poll) => store.polls.contains_key(poll_id) && poll@ == store.polls[poll_id],
        None => !store.polls.contains_key(poll_id),
    }
}

/// The answer holds the ballot of `voter` on `poll_id`, or none where there
/// is none.
pub open spec fn shows_vote(
    store: StoreView,
    voter: Seq<char>,
    poll_id: Seq<char>,
    answer: VoteResponse,
) -> bool {
    match answer.vote {
        Some(ballot) => store.ballot(voter, poll_id) == Some(ballot@),
        None => store.ballot(voter, poll_id) is None,
    }
}

/// The answer holds the admin record.
pub open spec fn shows_config(store: StoreView, answer: ConfigResponse) -> bool {
    store.config == Some(answer.config@)
}

/// All polls, in the ascending order of their identifiers.
pub fn query_all_polls(store: &Store) -> (answer: AllPollsResponse)
    ensures
        lists_all(store@, answer),
{
    AllPollsResponse { polls: store.list_polls() }
}

/// The poll that stands under `poll_id`, if there is one.
pub fn query_poll(store: &Store, poll_id: String) -> (answer: PollResponse)
    ensures
        shows_poll(store@, poll_id@, answer),
{
    let poll = match store.get_poll(poll_id.as_str()) {
        Some(poll) => Some(poll.clone()),
        None => None,
    };
    PollResponse { poll }
}

/// The ballot of the account `address` on `poll_id`, if there is one.
pub fn query_vote(store: &Store, address: String, poll_id: String) -> (answer: VoteResponse)
    ensures
        shows_vote(store@, address@, poll_id@, answer),
{
    let vote = match store.get_ballot(address.as_str(), poll_id.as_str()) {
        Some(ballot) => Some(ballot.clone()),
        None => None,
    };
    VoteResponse { vote }
}

/// The admin record of a ledger that has been set up.
pub fn query_config(store: &Store) -> (answer: ConfigResponse)
    requires
        store@.config is Some,
    ensures
        shows_config(store@, answer),
{
    let config = store.config().unwrap().clone();
    ConfigResponse { config }
}

} // verus!

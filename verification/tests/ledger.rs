use cosmwasm_std::{attr, Response};
use cw_starter::contract::{
    can_execute, can_vote, execute, execute_create_poll, execute_vote, instantiate, query,
    query_all_polls, query_config, query_poll, query_vote,
};
use cw_starter::msg::{ExecuteMsg, InstantiateMsg, MessageInfo, QueryMsg, QueryResponse};
use cw_starter::order::{compare_ids, same_id, Place};
use cw_starter::state::{Ballot, Config, Poll, MAX_OPTIONS};
use cw_starter::store::Store;
use cw_starter::tally::{find_option, set_tally};
use cw_starter::ContractError;

fn info(sender: &str) -> MessageInfo {
    MessageInfo { sender: sender.to_string() }
}

fn labels(names: &[&str]) -> Vec<String> {
    names.iter().map(|name| name.to_string()).collect()
}

fn tallies(entries: &[(&str, u64)]) -> Vec<(String, u64)> {
    entries.iter().map(|(label, count)| (label.to_string(), *count)).collect()
}

fn create(store: &mut Store, sender: &str, poll_id: &str, question: &str, names: &[&str]) {
    execute_create_poll(store, info(sender), poll_id.to_string(), question.to_string(), labels(names))
        .unwrap();
}

fn vote(store: &mut Store, sender: &str, poll_id: &str, option: &str) -> Result<Response, ContractError> {
    assert!(can_vote(store, sender, poll_id, option));
    execute_vote(store, info(sender), poll_id.to_string(), option.to_string())
}

fn options_of(store: &Store, poll_id: &str) -> Vec<(String, u64)> {
    store.get_poll(poll_id).unwrap().options.clone()
}

fn ballot_of(store: &Store, voter: &str, poll_id: &str) -> Option<String> {
    store.get_ballot(voter, poll_id).map(|ballot| ballot.option.clone())
}

#[test]
fn new_store_holds_nothing() {
    let store = Store::new();
    assert!(store.config().is_none());
    assert!(store.list_polls().is_empty());
    assert!(store.get_poll("p1").is_none());
    assert!(store.get_ballot("addr1", "p1").is_none());
}

#[test]
fn instantiate_without_admin_takes_the_sender() {
    let mut store = Store::new();
    let res = instantiate(&mut store, info("addr1"), InstantiateMsg { admin: None }).unwrap();
    assert_eq!(store.config(), Some(&Config { admin: "addr1".to_string() }));
    assert_eq!(
        res,
        Response::new().add_attribute("action", "instantiate").add_attribute("admin", "addr1")
    );
}

#[test]
fn instantiate_with_admin_takes_the_admin() {
    let mut store = Store::new();
    let msg = InstantiateMsg { admin: Some("addr2".to_string()) };
    instantiate(&mut store, info("addr1"), msg).unwrap();
    assert_eq!(query_config(&store).config.admin, "addr2");
}

#[test]
fn instantiate_leaves_polls_and_ballots() {
    let mut store = Store::new();
    create(&mut store, "addr1", "p1", "Q", &["A", "B"]);
    vote(&mut store, "addr1", "p1", "A").unwrap();
    instantiate(&mut store, info("addr1"), InstantiateMsg { admin: None }).unwrap();
    assert_eq!(options_of(&store, "p1"), tallies(&[("A", 1), ("B", 0)]));
    assert_eq!(ballot_of(&store, "addr1", "p1"), Some("A".to_string()));
}

#[test]
fn admin_or_picks_the_named_admin_first() {
    let named = InstantiateMsg { admin: Some("addr2".to_string()) };
    assert_eq!(named.admin_or("addr1".to_string()), "addr2");
    let unnamed = InstantiateMsg { admin: None };
    assert_eq!(unnamed.admin_or("addr1".to_string()), "addr1");
}

#[test]
fn created_poll_starts_at_zero() {
    let mut store = Store::new();
    let res = execute_create_poll(
        &mut store,
        info("addr1"),
        "p1".to_string(),
        "Q".to_string(),
        labels(&["A", "B"]),
    )
    .unwrap();
    assert_eq!(
        res,
        Response::new()
            .add_attribute("action", "execute_create_poll")
            .add_attribute("poll_id", "p1")
            .add_attribute("question", "Q")
    );
    assert_eq!(
        store.get_poll("p1"),
        Some(&Poll {
            creator: "addr1".to_string(),
            question: "Q".to_string(),
            options: tallies(&[("A", 0), ("B", 0)]),
        })
    );
}

#[test]
fn create_poll_with_ten_options_succeeds() {
    let mut store = Store::new();
    let names = ["1", "2", "3", "4", "5", "6", "7", "8", "9", "10"];
    assert_eq!(names.len(), MAX_OPTIONS);
    let res = execute_create_poll(
        &mut store,
        info("addr1"),
        "p1".to_string(),
        "Q".to_string(),
        labels(&names),
    );
    assert!(res.is_ok());
    assert_eq!(options_of(&store, "p1").len(), 10);
}

#[test]
fn create_poll_with_eleven_options_fails() {
    let mut store = Store::new();
    let names = ["1", "2", "3", "4", "5", "6", "7", "8", "9", "10", "11"];
    let res = execute_create_poll(
        &mut store,
        info("addr1"),
        "p1".to_string(),
        "Q".to_string(),
        labels(&names),
    );
    assert_eq!(res, Err(ContractError::TooManyOptions));
    assert!(store.get_poll("p1").is_none());
    assert!(store.list_polls().is_empty());
}

#[test]
fn create_poll_without_options_succeeds() {
    let mut store = Store::new();
    create(&mut store, "addr1", "p1", "Q", &[]);
    assert!(options_of(&store, "p1").is_empty());
    assert_eq!(vote(&mut store, "addr1", "p1", "A"), Err(ContractError::OptionNotFound));
}

#[test]
fn create_poll_twice_replaces_the_poll() {
    let mut store = Store::new();
    create(&mut store, "addr1", "p1", "Q", &["A", "B"]);
    vote(&mut store, "addr1", "p1", "A").unwrap();
    create(&mut store, "addr2", "p1", "R", &["A", "C"]);
    assert_eq!(
        store.get_poll("p1"),
        Some(&Poll {
            creator: "addr2".to_string(),
            question: "R".to_string(),
            options: tallies(&[("A", 0), ("C", 0)]),
        })
    );
    assert_eq!(store.list_polls().len(), 1);
    assert_eq!(ballot_of(&store, "addr1", "p1"), Some("A".to_string()));
}

#[test]
fn repeated_labels_are_kept_and_counted_at_the_first() {
    let mut store = Store::new();
    create(&mut store, "addr1", "p1", "Q", &["A", "B", "A"]);
    assert_eq!(options_of(&store, "p1"), tallies(&[("A", 0), ("B", 0), ("A", 0)]));
    vote(&mut store, "addr1", "p1", "A").unwrap();
    vote(&mut store, "addr2", "p1", "A").unwrap();
    assert_eq!(options_of(&store, "p1"), tallies(&[("A", 2), ("B", 0), ("A", 0)]));
}

#[test]
fn first_vote_is_counted_and_recorded() {
    let mut store = Store::new();
    create(&mut store, "addr1", "p1", "Q", &["A", "B"]);
    let res = vote(&mut store, "addr1", "p1", "A").unwrap();
    assert_eq!(
        res,
        Response::new()
            .add_attribute("action", "execute_vote")
            .add_attribute("poll_id", "p1")
            .add_attribute("vote", "A")
    );
    assert_eq!(options_of(&store, "p1"), tallies(&[("A", 1), ("B", 0)]));
    assert_eq!(store.get_ballot("addr1", "p1"), Some(&Ballot { option: "A".to_string() }));
}

#[test]
fn responses_carry_attributes_only() {
    let mut store = Store::new();
    create(&mut store, "addr1", "p1", "Q", &["A"]);
    let res = vote(&mut store, "addr1", "p1", "A").unwrap();
    assert_eq!(
        res.attributes,
        vec![attr("action", "execute_vote"), attr("poll_id", "p1"), attr("vote", "A")]
    );
    assert!(res.messages.is_empty());
    assert!(res.events.is_empty());
    assert!(res.data.is_none());
}

#[test]
fn tallies_add_up_to_the_number_of_voters() {
    let mut store = Store::new();
    create(&mut store, "addr1", "p1", "Q", &["A", "B", "C"]);
    create(&mut store, "addr1", "p2", "R", &["A", "B"]);
    let votes = [
        ("addr1", "p1", "A"),
        ("addr2", "p1", "B"),
        ("addr3", "p1", "B"),
        ("addr1", "p2", "B"),
        ("addr2", "p1", "C"),
        ("addr4", "p1", "A"),
        ("addr3", "p1", "B"),
        ("addr1", "p1", "C"),
    ];
    let mut voters: Vec<&str> = Vec::new();
    for (voter, poll_id, option) in votes {
        vote(&mut store, voter, poll_id, option).unwrap();
        if poll_id == "p1" && !voters.contains(&voter) {
            voters.push(voter);
        }
        let sum: u64 = options_of(&store, "p1").iter().map(|option| option.1).sum();
        assert_eq!(sum, voters.len() as u64);
    }
    assert_eq!(options_of(&store, "p1"), tallies(&[("A", 1), ("B", 1), ("C", 2)]));
    assert_eq!(options_of(&store, "p2"), tallies(&[("A", 0), ("B", 1)]));
}

#[test]
fn same_vote_twice_changes_nothing() {
    let mut store = Store::new();
    create(&mut store, "addr1", "p1", "Q", &["A", "B"]);
    vote(&mut store, "addr2", "p1", "A").unwrap();
    vote(&mut store, "addr1", "p1", "A").unwrap();
    let once = options_of(&store, "p1");
    assert_eq!(once, tallies(&[("A", 2), ("B", 0)]));
    vote(&mut store, "addr1", "p1", "A").unwrap();
    assert_eq!(options_of(&store, "p1"), once);
    assert_eq!(ballot_of(&store, "addr1", "p1"), Some("A".to_string()));
    assert_eq!(ballot_of(&store, "addr2", "p1"), Some("A".to_string()));
}

#[test]
fn changed_vote_moves_one_unit() {
    let mut store = Store::new();
    create(&mut store, "addr1", "p1", "Q", &["A", "B"]);
    vote(&mut store, "addr2", "p1", "B").unwrap();
    let before = options_of(&store, "p1");
    vote(&mut store, "addr1", "p1", "A").unwrap();
    let once = options_of(&store, "p1");
    vote(&mut store, "addr1", "p1", "B").unwrap();
    let twice = options_of(&store, "p1");
    assert_eq!(twice[0].1, once[0].1 - 1);
    assert_eq!(twice[1].1, before[1].1 + 1);
    assert_eq!(twice, tallies(&[("A", 0), ("B", 2)]));
    assert_eq!(ballot_of(&store, "addr1", "p1"), Some("B".to_string()));
}

#[test]
fn changed_vote_back_to_the_earlier_option_restores_its_tally() {
    let mut store = Store::new();
    create(&mut store, "addr1", "p1", "Q", &["A", "B"]);
    vote(&mut store, "addr1", "p1", "B").unwrap();
    let before = options_of(&store, "p1");
    vote(&mut store, "addr1", "p1", "A").unwrap();
    vote(&mut store, "addr1", "p1", "B").unwrap();
    assert_eq!(options_of(&store, "p1"), before);
    assert_eq!(before, tallies(&[("A", 0), ("B", 1)]));
}

#[test]
fn vote_on_unknown_poll_creates_no_ballot() {
    let mut store = Store::new();
    create(&mut store, "addr1", "p1", "Q", &["A", "B"]);
    let res = vote(&mut store, "addr1", "p2", "A");
    assert_eq!(res, Err(ContractError::PollNotFound));
    assert!(store.get_ballot("addr1", "p2").is_none());
    assert!(store.get_ballot("addr1", "p1").is_none());
    assert!(store.get_poll("p2").is_none());
    assert_eq!(options_of(&store, "p1"), tallies(&[("A", 0), ("B", 0)]));
}

#[test]
fn vote_for_unknown_option_is_refused() {
    let mut store = Store::new();
    create(&mut store, "addr1", "p1", "Q", &["Juno", "Osmosis"]);
    let res = vote(&mut store, "addr1", "p1", "Terra");
    assert_eq!(res, Err(ContractError::OptionNotFound));
    assert_eq!(options_of(&store, "p1"), tallies(&[("Juno", 0), ("Osmosis", 0)]));
}

#[test]
fn refused_option_still_overwrites_the_ballot() {
    let mut store = Store::new();
    create(&mut store, "addr1", "p1", "Q", &["Juno", "Osmosis"]);
    vote(&mut store, "addr1", "p1", "Juno").unwrap();
    let res = vote(&mut store, "addr1", "p1", "Terra");
    assert_eq!(res, Err(ContractError::OptionNotFound));
    assert_eq!(ballot_of(&store, "addr1", "p1"), Some("Terra".to_string()));
    assert_eq!(options_of(&store, "p1"), tallies(&[("Juno", 1), ("Osmosis", 0)]));
}

#[test]
fn refused_option_writes_a_first_ballot_too() {
    let mut store = Store::new();
    create(&mut store, "addr1", "p1", "Q", &["Juno", "Osmosis"]);
    let res = vote(&mut store, "addr1", "p1", "Terra");
    assert_eq!(res, Err(ContractError::OptionNotFound));
    assert_eq!(ballot_of(&store, "addr1", "p1"), Some("Terra".to_string()));
}

#[test]
fn vote_after_a_refused_option_cannot_be_carried_out() {
    let mut store = Store::new();
    create(&mut store, "addr1", "p1", "Q", &["Juno", "Osmosis"]);
    let _ = vote(&mut store, "addr1", "p1", "Terra");
    assert!(!can_vote(&store, "addr1", "p1", "Juno"));
    assert!(can_vote(&store, "addr2", "p1", "Juno"));
    let msg = ExecuteMsg::Vote { poll_id: "p1".to_string(), vote: "Juno".to_string() };
    assert!(!can_execute(&store, &info("addr1"), &msg));
    assert!(can_execute(&store, &info("addr2"), &msg));
}

#[test]
fn vote_after_the_poll_was_replaced_cannot_be_carried_out() {
    let mut store = Store::new();
    create(&mut store, "addr1", "p1", "Q", &["A", "B"]);
    vote(&mut store, "addr1", "p1", "A").unwrap();
    create(&mut store, "addr1", "p1", "Q", &["A", "B"]);
    assert!(!can_vote(&store, "addr1", "p1", "B"));
    assert!(!can_vote(&store, "addr1", "p1", "A"));
    assert!(can_vote(&store, "addr2", "p1", "B"));
}

#[test]
fn vote_at_the_largest_tally_cannot_be_carried_out() {
    let mut store = Store::new();
    let poll = Poll {
        creator: "addr1".to_string(),
        question: "Q".to_string(),
        options: tallies(&[("A", u64::MAX), ("B", 1)]),
    };
    store.save_poll("p1".to_string(), poll);
    assert!(!can_vote(&store, "addr1", "p1", "A"));
    assert!(can_vote(&store, "addr1", "p1", "B"));
    assert!(can_vote(&store, "addr1", "p1", "C"));
    store.upsert_ballot("addr1".to_string(), "p1".to_string(), "A".to_string());
    assert!(can_vote(&store, "addr1", "p1", "A"));
    vote(&mut store, "addr1", "p1", "A").unwrap();
    assert_eq!(options_of(&store, "p1"), tallies(&[("A", u64::MAX), ("B", 1)]));
    vote(&mut store, "addr1", "p1", "B").unwrap();
    assert_eq!(options_of(&store, "p1"), tallies(&[("A", u64::MAX - 1), ("B", 2)]));
}

#[test]
fn can_execute_admits_every_create_poll() {
    let store = Store::new();
    let names = ["1", "2", "3", "4", "5", "6", "7", "8", "9", "10", "11"];
    let msg = ExecuteMsg::CreatePoll {
        poll_id: "p1".to_string(),
        question: "Q".to_string(),
        options: labels(&names),
    };
    assert!(can_execute(&store, &info("addr1"), &msg));
    let msg = ExecuteMsg::Vote { poll_id: "p1".to_string(), vote: "A".to_string() };
    assert!(can_execute(&store, &info("addr1"), &msg));
}

#[test]
fn scenario_create_vote_and_change() {
    let mut store = Store::new();
    instantiate(&mut store, info("addr1"), InstantiateMsg { admin: None }).unwrap();
    assert_eq!(query_config(&store).config.admin, "addr1");

    let msg = ExecuteMsg::CreatePoll {
        poll_id: "p1".to_string(),
        question: "Q".to_string(),
        options: labels(&["A", "B"]),
    };
    execute(&mut store, info("addr1"), msg).unwrap();
    assert_eq!(options_of(&store, "p1"), tallies(&[("A", 0), ("B", 0)]));

    let msg = ExecuteMsg::Vote { poll_id: "p1".to_string(), vote: "A".to_string() };
    execute(&mut store, info("addr1"), msg).unwrap();
    assert_eq!(options_of(&store, "p1"), tallies(&[("A", 1), ("B", 0)]));
    assert_eq!(
        query_vote(&store, "addr1".to_string(), "p1".to_string()).vote,
        Some(Ballot { option: "A".to_string() })
    );

    let msg = ExecuteMsg::Vote { poll_id: "p1".to_string(), vote: "B".to_string() };
    execute(&mut store, info("addr1"), msg).unwrap();
    assert_eq!(options_of(&store, "p1"), tallies(&[("A", 0), ("B", 1)]));

    let all = query_all_polls(&store);
    assert_eq!(
        all.polls,
        vec![Poll {
            creator: "addr1".to_string(),
            question: "Q".to_string(),
            options: tallies(&[("A", 0), ("B", 1)]),
        }]
    );
}

#[test]
fn polls_are_listed_in_byte_order_of_their_identifiers() {
    let mut store = Store::new();
    for poll_id in ["b", "abc", "\u{e9}", "a", "Z", "ab", "", "z", "\u{10348}", "\u{20ac}"] {
        create(&mut store, "addr1", poll_id, poll_id, &["A"]);
    }
    let listed: Vec<String> =
        query_all_polls(&store).polls.into_iter().map(|poll| poll.question).collect();
    assert_eq!(
        listed,
        vec!["", "Z", "a", "ab", "abc", "b", "z", "\u{e9}", "\u{20ac}", "\u{10348}"]
    );
    let mut sorted = listed.clone();
    sorted.sort();
    assert_eq!(listed, sorted);
}

#[test]
fn replaced_poll_keeps_its_place_in_the_list() {
    let mut store = Store::new();
    create(&mut store, "addr1", "p2", "second", &["A"]);
    create(&mut store, "addr1", "p1", "first", &["A"]);
    create(&mut store, "addr1", "p3", "third", &["A"]);
    create(&mut store, "addr1", "p2", "again", &["B"]);
    let listed: Vec<String> = store.list_polls().into_iter().map(|poll| poll.question).collect();
    assert_eq!(listed, vec!["first", "again", "third"]);
}

#[test]
fn query_dispatches_by_kind() {
    let mut store = Store::new();
    instantiate(&mut store, info("addr1"), InstantiateMsg { admin: None }).unwrap();
    create(&mut store, "addr1", "p1", "Q", &["A", "B"]);
    vote(&mut store, "addr2", "p1", "B").unwrap();

    match query(&store, QueryMsg::AllPolls {}) {
        QueryResponse::AllPolls(all) => assert_eq!(all.polls.len(), 1),
        other => panic!("unexpected answer {:?}", other),
    }
    match query(&store, QueryMsg::Poll { poll_id: "p1".to_string() }) {
        QueryResponse::Poll(found) => {
            assert_eq!(found.poll.unwrap().options, tallies(&[("A", 0), ("B", 1)]))
        }
        other => panic!("unexpected answer {:?}", other),
    }
    match query(&store, QueryMsg::Vote { poll_id: "p1".to_string(), address: "addr2".to_string() }) {
        QueryResponse::Vote(found) => assert_eq!(found.vote, Some(Ballot { option: "B".to_string() })),
        other => panic!("unexpected answer {:?}", other),
    }
    match query(&store, QueryMsg::GetConfig {}) {
        QueryResponse::Config(found) => assert_eq!(found.config, Config { admin: "addr1".to_string() }),
        other => panic!("unexpected answer {:?}", other),
    }
}

#[test]
fn queries_answer_absence_with_none() {
    let mut store = Store::new();
    create(&mut store, "addr1", "p1", "Q", &["A", "B"]);
    vote(&mut store, "addr1", "p1", "A").unwrap();
    assert!(query_poll(&store, "p2".to_string()).poll.is_none());
    assert!(query_vote(&store, "addr2".to_string(), "p1".to_string()).vote.is_none());
    assert!(query_vote(&store, "addr1".to_string(), "p2".to_string()).vote.is_none());
    assert!(query_vote(&store, "p1".to_string(), "addr1".to_string()).vote.is_none());
}

#[test]
fn ballots_are_kept_by_voter_and_poll() {
    let mut store = Store::new();
    assert_eq!(store.upsert_ballot("addr1".to_string(), "p1".to_string(), "A".to_string()), None);
    assert_eq!(store.upsert_ballot("addr1".to_string(), "p2".to_string(), "B".to_string()), None);
    assert_eq!(store.upsert_ballot("addr2".to_string(), "p1".to_string(), "C".to_string()), None);
    assert_eq!(
        store.upsert_ballot("addr1".to_string(), "p1".to_string(), "D".to_string()),
        Some(Ballot { option: "A".to_string() })
    );
    assert_eq!(ballot_of(&store, "addr1", "p1"), Some("D".to_string()));
    assert_eq!(ballot_of(&store, "addr1", "p2"), Some("B".to_string()));
    assert_eq!(ballot_of(&store, "addr2", "p1"), Some("C".to_string()));
    assert_eq!(ballot_of(&store, "addr2", "p2"), None);
}

#[test]
fn voter_and_poll_are_not_run_together_in_the_key() {
    let mut store = Store::new();
    store.upsert_ballot("ab".to_string(), "c".to_string(), "A".to_string());
    assert_eq!(ballot_of(&store, "a", "bc"), None);
    assert_eq!(ballot_of(&store, "ab", "c"), Some("A".to_string()));
}

#[test]
fn set_config_replaces_the_admin() {
    let mut store = Store::new();
    store.set_config(Config { admin: "addr1".to_string() });
    store.set_config(Config { admin: "addr2".to_string() });
    assert_eq!(store.config(), Some(&Config { admin: "addr2".to_string() }));
}

#[test]
fn find_option_gives_the_first_place() {
    let options = tallies(&[("A", 3), ("B", 0), ("A", 5), ("C", 1)]);
    assert_eq!(find_option(&options, "A"), Some(0));
    assert_eq!(find_option(&options, "B"), Some(1));
    assert_eq!(find_option(&options, "C"), Some(3));
    assert_eq!(find_option(&options, "D"), None);
    assert_eq!(find_option(&options, ""), None);
    assert_eq!(find_option(&Vec::new(), "A"), None);
}

#[test]
fn set_tally_changes_one_tally() {
    let mut options = tallies(&[("A", 3), ("B", 0), ("C", 1)]);
    set_tally(&mut options, 1, 7);
    assert_eq!(options, tallies(&[("A", 3), ("B", 7), ("C", 1)]));
}

#[test]
fn identifiers_compare_by_their_bytes() {
    assert_eq!(compare_ids("a", "b"), Place::Before);
    assert_eq!(compare_ids("b", "a"), Place::After);
    assert_eq!(compare_ids("a", "a"), Place::Same);
    assert_eq!(compare_ids("", ""), Place::Same);
    assert_eq!(compare_ids("", "a"), Place::Before);
    assert_eq!(compare_ids("ab", "abc"), Place::Before);
    assert_eq!(compare_ids("abc", "ab"), Place::After);
    assert_eq!(compare_ids("Z", "a"), Place::Before);
    assert_eq!(compare_ids("z", "\u{e9}"), Place::Before);
    assert_eq!(compare_ids("\u{10348}", "\u{20ac}"), Place::After);
    assert!(same_id("p1", "p1"));
    assert!(!same_id("p1", "p2"));
    assert!(!same_id("p1", "p"));
}

#[test]
fn cloned_values_are_equal() {
    let poll = Poll {
        creator: "addr1".to_string(),
        question: "Q".to_string(),
        options: tallies(&[("A", 3), ("B", 0)]),
    };
    assert_eq!(poll.clone(), poll);
    let ballot = Ballot { option: "A".to_string() };
    assert_eq!(ballot.clone(), ballot);
    let config = Config { admin: "addr1".to_string() };
    assert_eq!(config.clone(), config);
}

use curp_client::error::CurpError;
use curp_client::fetch::{fetch_cluster, FetchClusterResponse, FetchReply, FetchRound};
use curp_client::members::Member;

fn members(prefix: &str) -> Vec<Member> {
    (0..5u64)
        .map(|id| Member::new(id, &format!("S{id}"), vec![format!("{prefix}{id}")], false))
        .collect()
}

fn report(leader: Option<u64>, term: u64, members: Vec<Member>) -> FetchClusterResponse {
    FetchClusterResponse::new(leader, term, 123, members, 1)
}

fn reply(id: u64, leader: Option<u64>, term: u64, members: Vec<Member>) -> FetchReply {
    (id, Ok(report(leader, term, members)))
}

/// The replies of five members of which 0, 1 and 4 follow leader 0 in term
/// 2, 3 believes to lead term 1, and 2 is a candidate in term 23.
fn agreeing(order: [u64; 5]) -> Vec<FetchReply> {
    order
        .iter()
        .map(|&id| match id {
            0 => reply(0, Some(0), 2, members("A")),
            1 | 4 => reply(id, Some(0), 2, vec![]),
            2 => reply(2, None, 23, vec![]),
            _ => reply(3, Some(3), 1, members("B")),
        })
        .collect()
}

/// As `agreeing`, but member 4 follows the old leader 3.
fn split(order: [u64; 5]) -> Vec<FetchReply> {
    order
        .iter()
        .map(|&id| match id {
            0 => reply(0, Some(0), 2, members("A")),
            1 => reply(1, Some(0), 2, vec![]),
            2 => reply(2, None, 23, vec![]),
            3 => reply(3, Some(3), 1, members("B")),
            _ => reply(4, Some(3), 1, vec![]),
        })
        .collect()
}

const ORDERS: [[u64; 5]; 5] = [
    [0, 1, 2, 3, 4],
    [4, 3, 2, 1, 0],
    [2, 3, 4, 1, 0],
    [3, 4, 0, 2, 1],
    [1, 4, 2, 0, 3],
];

#[test]
fn majority_behind_the_leader_returns_the_leaders_report() {
    for order in ORDERS {
        let res = fetch_cluster(true, 5, agreeing(order)).unwrap();
        assert_eq!(res, report(Some(0), 2, members("A")));
    }
}

#[test]
fn no_majority_behind_the_leader_is_a_transport_error() {
    for order in ORDERS {
        assert_eq!(fetch_cluster(true, 5, split(order)), Err(CurpError::RpcTransport));
    }
}

#[test]
fn candidate_with_the_highest_term_never_wins() {
    let replies = vec![
        reply(2, None, 23, members("C")),
        reply(1, None, 99, members("D")),
        reply(0, Some(0), 2, members("A")),
    ];
    assert_eq!(fetch_cluster(true, 1, replies), Ok(report(Some(0), 2, members("A"))));
    let replies = vec![reply(0, None, 23, members("C")), reply(1, None, 99, members("D"))];
    assert_eq!(fetch_cluster(true, 1, replies), Err(CurpError::RpcTransport));
}

#[test]
fn replies_without_a_leader_do_not_count_for_the_quorum() {
    let replies = vec![
        reply(0, Some(0), 2, members("A")),
        reply(1, None, 2, vec![]),
        reply(2, None, 2, vec![]),
        reply(3, Some(0), 2, vec![]),
    ];
    assert_eq!(fetch_cluster(true, 5, replies), Err(CurpError::RpcTransport));
}

#[test]
fn failed_requests_do_not_count() {
    let replies = vec![
        (1, Err(CurpError::rpc_transport())),
        reply(0, Some(0), 2, members("A")),
        (2, Err(CurpError::shutting_down())),
        reply(4, Some(0), 2, vec![]),
        (3, Err(CurpError::key_conflict())),
    ];
    assert_eq!(fetch_cluster(true, 5, replies.clone()), Err(CurpError::RpcTransport));
    assert_eq!(fetch_cluster(true, 3, replies), Ok(report(Some(0), 2, members("A"))));
}

#[test]
fn followers_alone_do_not_stand_for_the_leader() {
    let replies = vec![
        reply(1, Some(0), 2, vec![]),
        reply(2, Some(0), 2, members("B")),
        reply(3, Some(0), 2, vec![]),
        reply(4, Some(0), 2, vec![]),
    ];
    assert_eq!(fetch_cluster(true, 5, replies), Err(CurpError::RpcTransport));
}

#[test]
fn leader_report_is_taken_as_it_is() {
    // the leader's own list counts, even where it is empty and a follower's is not
    let replies = vec![
        reply(1, Some(0), 2, members("B")),
        reply(0, Some(0), 2, vec![]),
        reply(2, Some(0), 2, members("B")),
    ];
    assert_eq!(fetch_cluster(true, 5, replies), Ok(report(Some(0), 2, vec![])));
}

#[test]
fn greater_term_supersedes_the_agreement_that_was_building() {
    let replies = vec![
        reply(0, Some(0), 2, members("A")),
        reply(1, Some(0), 2, vec![]),
        reply(3, Some(3), 5, members("B")),
        reply(4, Some(0), 2, vec![]),
        reply(2, Some(0), 2, vec![]),
    ];
    // the presumed leader is 3 in term 5, and only one reply names it
    assert_eq!(fetch_cluster(true, 5, replies), Err(CurpError::RpcTransport));
}

#[test]
fn same_term_with_another_leader_does_not_add_to_the_count() {
    let replies = vec![
        reply(0, Some(0), 2, members("A")),
        reply(1, Some(1), 2, members("B")),
        reply(2, Some(0), 2, vec![]),
    ];
    assert_eq!(fetch_cluster(true, 5, replies), Err(CurpError::RpcTransport));
}

#[test]
fn in_one_term_the_lower_leader_is_presumed() {
    let a = reply(0, Some(0), 2, members("A"));
    let b = reply(1, Some(1), 2, members("B"));
    assert_eq!(
        fetch_cluster(true, 1, vec![b.clone(), a.clone()]),
        Ok(report(Some(1), 2, members("B")))
    );
    // with a quorum of two nobody is agreed on at the first reply
    let replies = vec![b.clone(), a.clone(), reply(2, Some(1), 2, vec![]), reply(3, Some(0), 2, vec![])];
    assert_eq!(fetch_cluster(true, 3, replies), Ok(report(Some(0), 2, members("A"))));
    let replies = vec![a, b, reply(3, Some(0), 2, vec![]), reply(2, Some(1), 2, vec![])];
    assert_eq!(fetch_cluster(true, 3, replies), Ok(report(Some(0), 2, members("A"))));
}

#[test]
fn agreement_ends_the_fetch() {
    let mut round = FetchRound::new(true, 3);
    assert!(!round.is_decided());
    round = round.on_response(1, Ok(report(Some(0), 2, vec![])));
    assert!(!round.is_decided());
    round = round.on_response(0, Ok(report(Some(0), 2, members("A"))));
    assert!(round.is_decided());
    // what arrives now is dropped, whatever its term
    round = round.on_response(2, Ok(report(Some(2), 9, members("B"))));
    assert!(round.is_decided());
    assert_eq!(round.finish(), Ok(report(Some(0), 2, members("A"))));
}

#[test]
fn quorum_without_the_leaders_report_waits_for_it() {
    let mut round = FetchRound::new(true, 3);
    round = round.on_response(1, Ok(report(Some(0), 2, vec![])));
    round = round.on_response(2, Ok(report(Some(0), 2, vec![])));
    assert!(!round.is_decided());
    round = round.on_response(0, Ok(report(Some(0), 2, members("A"))));
    assert!(round.is_decided());
    assert_eq!(round.finish(), Ok(report(Some(0), 2, members("A"))));
}

#[test]
fn first_report_of_the_leader_is_kept() {
    let replies = vec![
        reply(0, Some(0), 2, members("A")),
        reply(0, Some(0), 2, members("B")),
        reply(1, Some(0), 2, vec![]),
    ];
    assert_eq!(fetch_cluster(true, 5, replies), Ok(report(Some(0), 2, members("A"))));
}

#[test]
fn linearizable_fetch_without_replies_is_a_transport_error() {
    assert_eq!(fetch_cluster(true, 5, vec![]), Err(CurpError::RpcTransport));
    assert_eq!(fetch_cluster(true, 0, vec![]), Err(CurpError::RpcTransport));
    assert_eq!(FetchRound::new(true, 3).finish(), Err(CurpError::RpcTransport));
}

#[test]
fn serializable_fetch_returns_the_first_reply_as_it_is() {
    let replies = vec![reply(2, None, 23, members("C")), reply(0, Some(0), 2, members("A"))];
    assert_eq!(fetch_cluster(false, 5, replies), Ok(report(None, 23, members("C"))));
    let replies = vec![(1, Err(CurpError::internal("down"))), reply(0, Some(0), 2, members("A"))];
    assert_eq!(
        fetch_cluster(false, 5, replies),
        Err(CurpError::Internal("down".to_owned()))
    );
}

#[test]
fn serializable_fetch_is_decided_by_one_reply() {
    let mut round = FetchRound::new(false, 3);
    assert!(!round.is_decided());
    round = round.on_response(1, Ok(report(Some(0), 1, vec![])));
    assert!(round.is_decided());
    round = round.on_response(0, Ok(report(Some(0), 1, members("A"))));
    assert_eq!(round.finish(), Ok(report(Some(0), 1, vec![])));
}

#[test]
fn serializable_fetch_without_replies_is_a_transport_error() {
    assert_eq!(fetch_cluster(false, 3, vec![]), Err(CurpError::RpcTransport));
    assert_eq!(FetchRound::new(false, 3).finish(), Err(CurpError::RpcTransport));
}

#[test]
fn long_agreement_does_not_overflow_the_count() {
    let mut round = FetchRound::new(true, 3);
    for id in 1..200u64 {
        round = round.on_response(id, Ok(report(Some(0), 2, vec![])));
        assert!(!round.is_decided());
    }
    round = round.on_response(0, Ok(report(Some(0), 2, members("A"))));
    assert!(round.is_decided());
    assert_eq!(round.finish(), Ok(report(Some(0), 2, members("A"))));
}

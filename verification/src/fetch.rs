//! Fetching the state of the cluster: one round of replies, from which the
//! authoritative report is chosen.

use crate::error::CurpError;
use crate::members::{into_members_addrs, members_addrs, Member, ServerId};
use crate::quorum::{quorum, spec_quorum};
use std::collections::HashMap;
use vstd::prelude::*;

verus! {

/// What one member believes about the cluster at the moment of its reply.
#[derive(Clone, Debug, PartialEq, Eq)]
pub struct FetchClusterResponse {
    /// The leader as the member knows it; `None` if it knows none.
    pub leader_id: Option<ServerId>,
    /// The member's term.
    pub term: u64,
    /// The identifier of the cluster.
    pub cluster_id: u64,
    /// The members of the cluster. A follower may leave the list empty.
    pub members: Vec<Member>,
    /// The version of the membership.
    pub cluster_version: u64,
}

/// The reply of one member to a fetch, with the member it came from.
pub type FetchReply = (ServerId, Result<FetchClusterResponse, CurpError>);

impl FetchClusterResponse {
    /// A report with the given contents.
    pub fn new(
        leader_id: Option<ServerId>,
        term: u64,
        cluster_id: u64,
        members: Vec<Member>,
        cluster_version: u64,
    ) -> (resp: Self)
        ensures
            resp == (FetchClusterResponse { leader_id, term, cluster_id, members, cluster_version }),
    {
        FetchClusterResponse { leader_id, term, cluster_id, members, cluster_version }
    }

    /// The addresses of the reported members, by their identifiers.
    pub fn into_members_addrs(self) -> (addrs: HashMap<ServerId, Vec<String>>)
        ensures
            addrs@ == members_addrs(self.members@),
    {
        into_members_addrs(self.members)
    }
}

/// The reply is a report that names a leader.
pub open spec fn names_leader(reply: FetchReply) -> bool {
    reply.1 matches Ok(v) && v.leader_id is Some
}

/// The reply is a report that names `leader` as the leader of `term`.
pub open spec fn reports(reply: FetchReply, leader: ServerId, term: u64) -> bool {
    reply.1 matches Ok(v) && v.leader_id == Some(leader) && v.term == term
}

/// Whether the claim that `leader` leads `term` goes before the claim that
/// `held_leader` leads `held_term`: the greater term wins, and in one term
/// the lower identifier.
pub open spec fn supersedes(leader: ServerId, term: u64, held_leader: ServerId, held_term: u64) -> bool {
    term > held_term || (term == held_term && leader < held_leader)
}

/// The leader that the replies point to, with its term: the claim that goes
/// before all others that were made. Reports that name no leader and failed
/// requests make no claim.
pub open spec fn presumed_leader(replies: Seq<FetchReply>) -> Option<(ServerId, u64)>
    decreases replies.len(),
{
    if replies.len() == 0 {
        None
    } else {
        let held = presumed_leader(replies.drop_last());
        match replies.last().1 {
            Ok(v) => match v.leader_id {
                Some(leader) => match held {
                    Some(h) => if supersedes(leader, v.term, h.0, h.1) {
                        Some((leader, v.term))
                    } else {
                        held
                    },
                    None => Some((leader, v.term)),
                },
                None => held,
            },
            Err(_) => held,
        }
    }
}

/// The number of replies that name `leader` as the leader of `term`.
pub open spec fn corroboration(replies: Seq<FetchReply>, leader: ServerId, term: u64) -> nat
    decreases replies.len(),
{
    if replies.len() == 0 {
        0
    } else {
        corroboration(replies.drop_last(), leader, term) + if reports(replies.last(), leader, term) {
            1nat
        } else {
            0nat
        }
    }
}

/// The reply is the report of `leader` itself that it leads `term`.
pub open spec fn is_leader_report(reply: FetchReply, leader: ServerId, term: u64) -> bool {
    reply.0 == leader && reports(reply, leader, term)
}

/// The first report in which `leader` itself says that it leads `term`.
pub open spec fn leader_report(replies: Seq<FetchReply>, leader: ServerId, term: u64) -> Option<
    FetchClusterResponse,
>
    decreases replies.len(),
{
    if replies.len() == 0 {
        None
    } else {
        match leader_report(replies.drop_last(), leader, term) {
            Some(v) => Some(v),
            None => if is_leader_report(replies.last(), leader, term) {
                Some(replies.last().1->Ok_0)
            } else {
                None
            },
        }
    }
}

/// The report that a linearizable fetch in a cluster of `n` members returns
/// on these replies: that of the presumed leader itself, provided that a
/// majority quorum of the replies names this leader in this term.
pub open spec fn agreed_view(n: nat, replies: Seq<FetchReply>) -> Option<FetchClusterResponse> {
    match presumed_leader(replies) {
        Some(p) => if corroboration(replies, p.0, p.1) >= spec_quorum(n) {
            leader_report(replies, p.0, p.1)
        } else {
            None
        },
        None => None,
    }
}

/// Whether these replies decide the fetch: a serializable fetch takes the
/// first reply, a linearizable one goes on until a leader is agreed on.
pub open spec fn fetch_decided(linearizable: bool, n: nat, replies: Seq<FetchReply>) -> bool {
    if linearizable {
        agreed_view(n, replies) is Some
    } else {
        replies.len() > 0
    }
}

/// The replies that a fetch takes note of: those up to and including the one
/// that decides it. What arrives later is dropped.
pub open spec fn fetch_consumed(linearizable: bool, n: nat, replies: Seq<FetchReply>) -> Seq<FetchReply>
    decreases replies.len(),
{
    if replies.len() == 0 {
        replies
    } else {
        let before = fetch_consumed(linearizable, n, replies.drop_last());
        if fetch_decided(linearizable, n, before) {
            before
        } else {
            before.push(replies.last())
        }
    }
}

/// What the fetch returns once it has taken note of exactly `seen`.
pub open spec fn fetch_verdict(linearizable: bool, n: nat, seen: Seq<FetchReply>) -> Result<
    FetchClusterResponse,
    CurpError,
> {
    if linearizable {
        match agreed_view(n, seen) {
            Some(v) => Ok(v),
            None => Err(CurpError::RpcTransport),
        }
    } else if seen.len() > 0 {
        seen[0].1
    } else {
        Err(CurpError::RpcTransport)
    }
}

/// What a fetch returns in a cluster of `n` members whose replies arrive in
/// the order of `replies`.
pub open spec fn fetch_outcome(linearizable: bool, n: nat, replies: Seq<FetchReply>) -> Result<
    FetchClusterResponse,
    CurpError,
> {
    fetch_verdict(linearizable, n, fetch_consumed(linearizable, n, replies))
}

/// The smaller of a count and a bound.
spec fn capped(count: nat, bound: nat) -> nat {
    if count < bound {
        count
    } else {
        bound
    }
}

/// One fetch in progress. It is fed the replies in the order in which they
/// arrive and says after each whether the fetch is decided. The driver sends
/// one request per target, so each member replies at most once; the fetch
/// counts the replies that it is given.
pub struct FetchRound {
    linearizable: bool,
    quorum: usize,
    first: Option<Result<FetchClusterResponse, CurpError>>,
    held: Option<(ServerId, u64)>,
    ok_cnt: usize,
    view: Option<FetchClusterResponse>,
    size: Ghost<nat>,
    seen: Ghost<Seq<FetchReply>>,
}

impl FetchRound {
    #[verifier::type_invariant]
    spec fn inv(self) -> bool {
        &&& self.quorum == spec_quorum(self.size@)
        &&& if self.linearizable {
            &&& self.first is None
            &&& self.held == presumed_leader(self.seen@)
            &&& match self.held {
                Some(h) => {
                    &&& self.ok_cnt == capped(corroboration(self.seen@, h.0, h.1), self.quorum as nat)
                    &&& self.view == leader_report(self.seen@, h.0, h.1)
                },
                None => self.ok_cnt == 0 && self.view is None,
            }
        } else {
            &&& self.held is None
            &&& self.ok_cnt == 0
            &&& self.view is None
            &&& self.seen@.len() <= 1
            &&& self.first == if self.seen@.len() > 0 {
                Some(self.seen@[0].1)
            } else {
                None
            }
        }
    }

    /// Whether the fetch is linearizable.
    pub closed spec fn linearizable(self) -> bool {
        self.linearizable
    }

    /// The number of members of the cluster that the fetch runs in.
    pub closed spec fn size(self) -> nat {
        self.size@
    }

    /// The replies that the fetch has taken note of, in their order.
    pub closed spec fn seen(self) -> Seq<FetchReply> {
        self.seen@
    }

    /// A fetch in a cluster of `size` members, before any reply.
    pub fn new(linearizable: bool, size: usize) -> (round: Self)
        ensures
            round.linearizable() == linearizable,
            round.size() == size,
            round.seen() == Seq::<FetchReply>::empty(),
    {
        FetchRound {
            linearizable,
            quorum: quorum(size),
            first: None,
            held: None,
            ok_cnt: 0,
            view: None,
            size: Ghost(size as nat),
            seen: Ghost(Seq::empty()),
        }
    }

    /// Whether the fetch is decided: what it returns is settled, and a later
    /// reply is dropped.
    pub fn is_decided(&self) -> (done: bool)
        ensures
            done == fetch_decided(self.linearizable(), self.size(), self.seen()),
    {
        proof {
            use_type_invariant(self);
        }
        if self.linearizable {
            self.held.is_some() && self.ok_cnt >= self.quorum && self.view.is_some()
        } else {
            self.first.is_some()
        }
    }

    /// Takes note of the reply `resp` of member `id`. A reply that arrives
    /// after the fetch is decided is dropped.
    pub fn on_response(self, id: ServerId, resp: Result<FetchClusterResponse, CurpError>) -> (next: Self)
        ensures
            next.linearizable() == self.linearizable(),
            next.size() == self.size(),
            next.seen() == if fetch_decided(self.linearizable(), self.size(), self.seen()) {
                self.seen()
            } else {
                self.seen().push((id, resp))
            },
    {
        proof {
            use_type_invariant(&self);
        }
        if self.is_decided() {
            return self;
        }
        let ghost before = self.seen@;
        let ghost seen = before.push((id, resp));
        assert(seen.drop_last() =~= before);
        let FetchRound { linearizable, quorum, first, held, ok_cnt, view, size, seen: _ } = self;
        if !linearizable {
            return FetchRound {
                linearizable,
                quorum,
                first: Some(resp),
                held,
                ok_cnt,
                view,
                size,
                seen: Ghost(seen),
            };
        }
        let report = match resp {
            Ok(v) => v,
            Err(_) => {
                return FetchRound { linearizable, quorum, first, held, ok_cnt, view, size, seen: Ghost(seen) };
            },
        };
        let leader = match report.leader_id {
            Some(leader) => leader,
            None => {
                return FetchRound { linearizable, quorum, first, held, ok_cnt, view, size, seen: Ghost(seen) };
            },
        };
        let term = report.term;
        let fresh = match held {
            Some(h) => term > h.1 || (term == h.1 && leader < h.0),
            None => true,
        };
        if fresh {
            proof {
                lemma_presumed_leader(before);
                lemma_unreported(before, leader, term);
            }
            let view = if id == leader {
                Some(report)
            } else {
                None
            };
            FetchRound {
                linearizable,
                quorum,
                first,
                held: Some((leader, term)),
                ok_cnt: 1,
                view,
                size,
                seen: Ghost(seen),
            }
        } else {
            let h = held.unwrap();
            if leader == h.0 && term == h.1 {
                let ok_cnt = if ok_cnt < quorum {
                    ok_cnt + 1
                } else {
                    ok_cnt
                };
                let view = match view {
                    Some(v) => Some(v),
                    None => if id == leader {
                        Some(report)
                    } else {
                        None
                    },
                };
                FetchRound { linearizable, quorum, first, held, ok_cnt, view, size, seen: Ghost(seen) }
            } else {
                FetchRound { linearizable, quorum, first, held, ok_cnt, view, size, seen: Ghost(seen) }
            }
        }
    }

    /// Ends the fetch and returns its result. A serializable fetch returns
    /// the first reply as it is. A linearizable fetch returns the report of
    /// the agreed leader. Without a reply, or without agreement, the result
    /// is a transport error: the caller may try again.
    pub fn finish(self) -> (res: Result<FetchClusterResponse, CurpError>)
        ensures
            res == fetch_verdict(self.linearizable(), self.size(), self.seen()),
    {
        proof {
            use_type_invariant(&self);
        }
        let FetchRound { linearizable, quorum, first, held, ok_cnt, view, size: _, seen: _ } = self;
        if linearizable {
            if held.is_some() && ok_cnt >= quorum {
                match view {
                    Some(v) => Ok(v),
                    None => Err(CurpError::RpcTransport),
                }
            } else {
                Err(CurpError::RpcTransport)
            }
        } else {
            match first {
                Some(resp) => resp,
                None => Err(CurpError::RpcTransport),
            }
        }
    }
}

/// Decides a fetch in a cluster of `size` members from the replies in the
/// order in which they arrived.
pub fn fetch_cluster(linearizable: bool, size: usize, replies: Vec<FetchReply>) -> (res: Result<
    FetchClusterResponse,
    CurpError,
>)
    ensures
        res == fetch_outcome(linearizable, size as nat, replies@),
{
    let mut round = FetchRound::new(linearizable, size);
    for reply in it: replies.into_iter()
        invariant
            round.linearizable() == linearizable,
            round.size() == size,
            round.seen() == fetch_consumed(linearizable, size as nat, replies@.take(it.index() as int)),
    {
        assert(replies@.take(it.index() + 1).drop_last() =~= replies@.take(it.index() as int));
        let (id, resp) = reply;
        round = round.on_response(id, resp);
    }
    assert(replies@.take(replies@.len() as int) =~= replies@);
    round.finish()
}

/// The presumed leader was named by a reply, in the presumed term, and no
/// claim that was made goes before it. There is none exactly if no reply
/// names a leader.
pub proof fn lemma_presumed_leader(replies: Seq<FetchReply>)
    ensures
        match presumed_leader(replies) {
            Some(p) => (exists|i: int| 0 <= i < replies.len() && reports(#[trigger] replies[i], p.0, p.1))
                && forall|j: int|
                0 <= j < replies.len() && names_leader(#[trigger] replies[j]) ==> !supersedes(
                    replies[j].1->Ok_0.leader_id->Some_0,
                    replies[j].1->Ok_0.term,
                    p.0,
                    p.1,
                ),
            None => forall|i: int| 0 <= i < replies.len() ==> !names_leader(#[trigger] replies[i]),
        },
    decreases replies.len(),
{
    if replies.len() > 0 {
        let front = replies.drop_last();
        lemma_presumed_leader(front);
        assert forall|j: int| 0 <= j < front.len() implies replies[j] == #[trigger] front[j] by {}
        match presumed_leader(replies) {
            Some(p) => {
                if presumed_leader(front) == Some(p) {
                    let i = choose|i: int| 0 <= i < front.len() && reports(#[trigger] front[i], p.0, p.1);
                    assert(reports(replies[i], p.0, p.1));
                } else {
                    assert(reports(replies[replies.len() - 1], p.0, p.1));
                }
                assert forall|j: int|
                    0 <= j < replies.len() && names_leader(#[trigger] replies[j]) implies !supersedes(
                    replies[j].1->Ok_0.leader_id->Some_0,
                    replies[j].1->Ok_0.term,
                    p.0,
                    p.1,
                ) by {
                    if j < front.len() {
                        assert(replies[j] == front[j]);
                    }
                }
            },
            None => {
                assert forall|i: int| 0 <= i < replies.len() implies !names_leader(
                    #[trigger] replies[i],
                ) by {
                    if i < front.len() {
                        assert(replies[i] == front[i]);
                    }
                }
            },
        }
    }
}

/// A claim that no reply makes is corroborated by none, and no report of
/// the leader stands for it.
pub proof fn lemma_unreported(replies: Seq<FetchReply>, leader: ServerId, term: u64)
    requires
        forall|i: int| 0 <= i < replies.len() ==> !reports(#[trigger] replies[i], leader, term),
    ensures
        corroboration(replies, leader, term) == 0,
        leader_report(replies, leader, term) is None,
    decreases replies.len(),
{
    if replies.len() > 0 {
        let front = replies.drop_last();
        assert forall|i: int| 0 <= i < front.len() implies !reports(#[trigger] front[i], leader, term) by {
            assert(replies[i] == front[i]);
        }
        lemma_unreported(front, leader, term);
        assert(replies[replies.len() - 1] == replies.last());
    }
}

/// The report that stands for the leader is the earliest reply in which the
/// leader itself names itself in the term. There is none exactly if the
/// leader sent no such reply.
pub proof fn lemma_leader_report(replies: Seq<FetchReply>, leader: ServerId, term: u64)
    ensures
        match leader_report(replies, leader, term) {
            Some(v) => v.leader_id == Some(leader) && v.term == term && exists|i: int|
                0 <= i < replies.len() && #[trigger] replies[i] == (
                    leader,
                    Ok::<FetchClusterResponse, CurpError>(v),
                ) && forall|j: int| 0 <= j < i ==> !is_leader_report(#[trigger] replies[j], leader, term),
            None => forall|i: int|
                0 <= i < replies.len() ==> !is_leader_report(#[trigger] replies[i], leader, term),
        },
    decreases replies.len(),
{
    if replies.len() > 0 {
        let front = replies.drop_last();
        lemma_leader_report(front, leader, term);
        assert forall|j: int| 0 <= j < front.len() implies replies[j] == #[trigger] front[j] by {}
        match leader_report(front, leader, term) {
            Some(v) => {
                let i = choose|i: int|
                    0 <= i < front.len() && #[trigger] front[i] == (
                        leader,
                        Ok::<FetchClusterResponse, CurpError>(v),
                    ) && forall|j: int|
                        0 <= j < i ==> !is_leader_report(#[trigger] front[j], leader, term);
                assert(replies[i] == front[i]);
                assert forall|j: int| 0 <= j < i implies !is_leader_report(
                    #[trigger] replies[j],
                    leader,
                    term,
                ) by {
                    assert(replies[j] == front[j]);
                }
            },
            None => {
                assert forall|j: int| 0 <= j < front.len() implies !is_leader_report(
                    #[trigger] replies[j],
                    leader,
                    term,
                ) by {
                    assert(replies[j] == front[j]);
                }
                assert(replies[replies.len() - 1] == replies.last());
            },
        }
    }
}

/// A reply that names no leader, whatever term it reports, and a failed
/// request count for nothing in the choice of the leader: without the reply
/// the presumed leader, the number of replies that name it and the report
/// that stands for it are the same.
pub proof fn lemma_silent_reply_is_ignored(n: nat, replies: Seq<FetchReply>, i: int)
    requires
        0 <= i < replies.len(),
        !names_leader(replies[i]),
    ensures
        presumed_leader(replies.remove(i)) == presumed_leader(replies),
        forall|leader: ServerId, term: u64| #[trigger]
            corroboration(replies.remove(i), leader, term) == corroboration(replies, leader, term),
        forall|leader: ServerId, term: u64| #[trigger]
            leader_report(replies.remove(i), leader, term) == leader_report(replies, leader, term),
        agreed_view(n, replies.remove(i)) == agreed_view(n, replies),
    decreases replies.len(),
{
    let front = replies.drop_last();
    let rest = replies.remove(i);
    if i == replies.len() - 1 {
        assert(rest =~= front);
    } else {
        lemma_silent_reply_is_ignored(n, front, i);
        assert(rest.drop_last() =~= front.remove(i));
        assert(rest.last() == replies.last());
        assert(front[i] == replies[i]);
    }
    assert forall|leader: ServerId, term: u64| #[trigger]
        corroboration(rest, leader, term) == corroboration(replies, leader, term) by {
        if i < replies.len() - 1 {
            assert(corroboration(front.remove(i), leader, term) == corroboration(front, leader, term));
        }
    }
    assert forall|leader: ServerId, term: u64| #[trigger]
        leader_report(rest, leader, term) == leader_report(replies, leader, term) by {
        if i < replies.len() - 1 {
            assert(leader_report(front.remove(i), leader, term) == leader_report(front, leader, term));
        }
    }
}

/// The replies that a fetch takes note of are the shortest prefix of the
/// replies that decides it, and all of them if none does.
pub proof fn lemma_fetch_consumed_is_shortest_deciding_prefix(
    linearizable: bool,
    n: nat,
    replies: Seq<FetchReply>,
)
    ensures
        fetch_consumed(linearizable, n, replies).len() <= replies.len(),
        fetch_consumed(linearizable, n, replies) == replies.take(
            fetch_consumed(linearizable, n, replies).len() as int,
        ),
        fetch_consumed(linearizable, n, replies).len() < replies.len() ==> fetch_decided(
            linearizable,
            n,
            fetch_consumed(linearizable, n, replies),
        ),
        forall|j: int|
            0 <= j < fetch_consumed(linearizable, n, replies).len() ==> !fetch_decided(
                linearizable,
                n,
                #[trigger] replies.take(j),
            ),
    decreases replies.len(),
{
    if replies.len() > 0 {
        let front = replies.drop_last();
        let before = fetch_consumed(linearizable, n, front);
        lemma_fetch_consumed_is_shortest_deciding_prefix(linearizable, n, front);
        assert(before =~= replies.take(before.len() as int));
        assert forall|j: int| 0 <= j < before.len() implies !fetch_decided(
            linearizable,
            n,
            #[trigger] replies.take(j),
        ) by {
            assert(replies.take(j) =~= front.take(j));
        }
        if !fetch_decided(linearizable, n, before) {
            assert(before.len() == front.len());
            assert(front.take(front.len() as int) =~= front);
            assert(before.push(replies.last()) =~= replies);
            assert(replies.take(replies.len() as int) =~= replies);
            assert(replies.take(front.len() as int) =~= front);
        }
    }
}

/// A serializable fetch returns the first reply as it is, whether a report
/// or an error, and takes note of no other.
pub proof fn lemma_serializable_fetch(n: nat, replies: Seq<FetchReply>)
    ensures
        fetch_outcome(false, n, replies) == if replies.len() > 0 {
            replies[0].1
        } else {
            Err(CurpError::RpcTransport)
        },
        fetch_consumed(false, n, replies) == replies.take(
            if replies.len() > 0 {
                1int
            } else {
                0int
            },
        ),
{
    lemma_fetch_consumed_is_shortest_deciding_prefix(false, n, replies);
    let seen = fetch_consumed(false, n, replies);
    if replies.len() > 0 {
        if seen.len() == 0 {
            assert(fetch_decided(false, n, seen));
        }
        if seen.len() > 1 {
            assert(!fetch_decided(false, n, replies.take(1)));
        }
    }
}

/// What a linearizable fetch returns. A report that it returns is that of
/// the presumed leader itself, taken from the replies up to the one with
/// which a majority quorum named this leader in this term. If it returns an
/// error, that is a transport error, all replies were taken note of, and
/// they do not agree on a leader.
pub proof fn lemma_linearizable_fetch(n: nat, replies: Seq<FetchReply>)
    ensures
        ({
            let seen = fetch_consumed(true, n, replies);
            match fetch_outcome(true, n, replies) {
                Ok(v) => presumed_leader(seen) matches Some(p) && corroboration(seen, p.0, p.1)
                    >= spec_quorum(n) && leader_report(seen, p.0, p.1) == Some(v) && v.leader_id
                    == Some(p.0) && v.term == p.1 && exists|i: int|
                    0 <= i < seen.len() && #[trigger] seen[i] == (
                        p.0,
                        Ok::<FetchClusterResponse, CurpError>(v),
                    ),
                Err(e) => e == CurpError::RpcTransport && seen == replies && agreed_view(n, replies)
                    is None,
            }
        }),
{
    lemma_fetch_consumed_is_shortest_deciding_prefix(true, n, replies);
    let seen = fetch_consumed(true, n, replies);
    match presumed_leader(seen) {
        Some(p) => {
            lemma_leader_report(seen, p.0, p.1);
        },
        None => {},
    }
    if fetch_outcome(true, n, replies) is Err {
        assert(replies.take(replies.len() as int) =~= replies);
    }
}

/// Agreement decides a linearizable fetch: if, with all replies in and none
/// taken earlier as decisive, a majority quorum of them names the presumed
/// leader in its term, the fetch returns the report of that leader itself,
/// or a transport error if the leader sent none; if fewer replies name it,
/// or no reply names a leader, the fetch returns a transport error.
pub proof fn lemma_linearizable_agreement(n: nat, replies: Seq<FetchReply>)
    requires
        forall|k: int| 0 <= k < replies.len() ==> agreed_view(n, #[trigger] replies.take(k)) is None,
    ensures
        fetch_consumed(true, n, replies) == replies,
        fetch_outcome(true, n, replies) == match presumed_leader(replies) {
            Some(p) => if corroboration(replies, p.0, p.1) >= spec_quorum(n) {
                match leader_report(replies, p.0, p.1) {
                    Some(v) => Ok(v),
                    None => Err(CurpError::RpcTransport),
                }
            } else {
                Err(CurpError::RpcTransport)
            },
            None => Err(CurpError::RpcTransport),
        },
{
    lemma_fetch_consumed_is_shortest_deciding_prefix(true, n, replies);
    let m = fetch_consumed(true, n, replies).len() as int;
    if m < replies.len() {
        assert(agreed_view(n, replies.take(m)) is None);
    }
    assert(replies.take(replies.len() as int) =~= replies);
}

} // verus!

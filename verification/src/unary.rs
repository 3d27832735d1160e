//! The unary client: the connections of one cluster, and the decisions of
//! one round of requests to them.

use crate::connects::{
    connect_entries, lemma_lists_all_len, lists_all, table_entries, table_get, table_len, ConnectId,
};
use crate::error::CurpError;
use crate::fetch::{fetch_cluster, fetch_outcome, FetchClusterResponse, FetchReply, FetchRound};
use crate::members::ServerId;
use crate::propose::{fast_round, fast_round_outcome, FastRound, ProposeReply};
use dashmap::DashMap;
use vstd::prelude::*;

verus! {

/// The client of one cluster for requests that take a single round.
///
/// It holds one connection per member and decides from the replies of a
/// round. It sends nothing itself: the driver asks it whom to send to, sends,
/// and hands the replies over.
pub struct Unary {
    connects: DashMap<ServerId, ConnectId>,
    local_server_id: Option<ServerId>,
    leader_state: Option<(ServerId, u64)>,
}

impl Unary {
    /// The connections of the client, by member.
    pub closed spec fn connects(&self) -> Map<ServerId, ConnectId> {
        connect_entries(self.connects)
    }

    /// The member that runs in the client's own process, if there is one.
    pub closed spec fn local_server_id(&self) -> Option<ServerId> {
        self.local_server_id
    }

    /// The leader that the client was told of, with its term. It is a hint:
    /// the member may have left the cluster, or lost its lead.
    pub closed spec fn leader_state(&self) -> Option<(ServerId, u64)> {
        self.leader_state
    }

    /// The number of members that the client is connected to.
    pub open spec fn size(&self) -> nat {
        self.connects().dom().len()
    }

    /// The connection to `id`, if the client has one.
    pub open spec fn connect_of(&self, id: Option<ServerId>) -> Option<ConnectId> {
        match id {
            Some(id) => if self.connects().contains_key(id) {
                Some(self.connects()[id])
            } else {
                None
            },
            None => None,
        }
    }

    /// Whether `targets` is what a fetch is sent to. A serializable fetch
    /// goes to the local member alone where the client has a connection to
    /// it, else to one connection, whichever; to none only if there is none.
    /// A linearizable fetch goes to every connection once.
    pub open spec fn is_fetch_plan(&self, linearizable: bool, targets: Seq<(ServerId, ConnectId)>) -> bool {
        if linearizable {
            lists_all(targets, self.connects())
        } else {
            match self.connect_of(self.local_server_id()) {
                Some(local) => targets == seq![(self.local_server_id()->Some_0, local)],
                None => {
                    &&& targets.len() <= 1
                    &&& targets.len() == 1 ==> self.connects().contains_pair(targets[0].0, targets[0].1)
                    &&& targets.len() == 0 ==> forall|id: ServerId| !self.connects().contains_key(id)
                },
            }
        }
    }

    /// A client with the given connections. Both hints may be stale.
    pub fn new(
        connects: DashMap<ServerId, ConnectId>,
        local_server_id: Option<ServerId>,
        leader_state: Option<(ServerId, u64)>,
    ) -> (unary: Self)
        ensures
            unary.connects() == connect_entries(connects),
            unary.local_server_id() == local_server_id,
            unary.leader_state() == leader_state,
    {
        Unary { connects, local_server_id, leader_state }
    }

    /// The connection to the local member: `None` if the client has no local
    /// member, or no connection to it.
    pub fn local_connect(&self) -> (connect: Option<ConnectId>)
        ensures
            connect == self.connect_of(self.local_server_id()),
    {
        match self.local_server_id {
            Some(id) => table_get(&self.connects, id),
            None => None,
        }
    }

    /// The leader that the client was told of, with its term.
    pub fn leader_hint(&self) -> (hint: Option<(ServerId, u64)>)
        ensures
            hint == self.leader_state(),
    {
        self.leader_state
    }

    /// The connection to the leader that the client was told of: `None` if it
    /// was told of none, or has no connection to it.
    pub fn leader_connect(&self) -> (connect: Option<ConnectId>)
        ensures
            connect == self.connect_of(
                match self.leader_state() {
                    Some(hint) => Some(hint.0),
                    None => None,
                },
            ),
    {
        match self.leader_state {
            Some(hint) => table_get(&self.connects, hint.0),
            None => None,
        }
    }

    /// The number of members that the client is connected to. The quorums of
    /// every round are taken of this number.
    pub fn cluster_size(&self) -> (n: usize)
        ensures
            n == self.size(),
    {
        table_len(&self.connects)
    }

    /// Every connection of the client, once, with its member: what a
    /// proposal is sent to.
    pub fn for_each_server(&self) -> (targets: Vec<(ServerId, ConnectId)>)
        ensures
            lists_all(targets@, self.connects()),
            targets@.len() == self.size(),
    {
        let targets = table_entries(&self.connects);
        proof {
            lemma_lists_all_len(targets@, self.connects());
        }
        targets
    }

    /// The connections that a fetch is sent to.
    pub fn fetch_targets(&self, linearizable: bool) -> (targets: Vec<(ServerId, ConnectId)>)
        ensures
            self.is_fetch_plan(linearizable, targets@),
    {
        if linearizable {
            return table_entries(&self.connects);
        }
        let mut targets: Vec<(ServerId, ConnectId)> = Vec::new();
        match self.local_server_id {
            Some(id) => match table_get(&self.connects, id) {
                Some(local) => {
                    targets.push((id, local));
                    assert(targets@ =~= seq![(id, local)]);
                    return targets;
                },
                None => {},
            },
            None => {},
        }
        let all = table_entries(&self.connects);
        if all.len() > 0 {
            targets.push(all[0]);
        }
        targets
    }

    /// Starts a fast round for a proposal that was sent to every connection.
    pub fn start_fast_round<R>(&self) -> (round: FastRound<R>)
        ensures
            round.size() == self.size(),
            round.seen() == Seq::<ProposeReply<R>>::empty(),
    {
        FastRound::new(self.cluster_size())
    }

    /// Decides the fast round of a proposal from the replies of the members,
    /// in the order in which they arrived.
    ///
    /// An error that speaks for the whole cluster is returned as soon as it
    /// arrives. Otherwise the round succeeds as soon as the fast-path quorum
    /// has accepted, with the first execution result received up to then, if
    /// any. If the replies run out before, it fails with the error that
    /// stands for the failure.
    pub fn fast_round<R>(&self, replies: Vec<ProposeReply<R>>) -> (res: Result<Option<R>, CurpError>)
        ensures
            res == fast_round_outcome(self.size(), replies@),
    {
        fast_round(self.cluster_size(), replies)
    }

    /// Starts a fetch of the cluster's state.
    pub fn start_fetch_cluster(&self, linearizable: bool) -> (round: FetchRound)
        ensures
            round.linearizable() == linearizable,
            round.size() == self.size(),
            round.seen() == Seq::<FetchReply>::empty(),
    {
        FetchRound::new(linearizable, self.cluster_size())
    }

    /// Decides a fetch of the cluster's state from the replies of the
    /// members that it was sent to, in the order in which they arrived.
    pub fn fetch_cluster(&self, linearizable: bool, replies: Vec<FetchReply>) -> (res: Result<
        FetchClusterResponse,
        CurpError,
    >)
        ensures
            res == fetch_outcome(linearizable, self.size(), replies@),
    {
        fetch_cluster(linearizable, self.cluster_size(), replies)
    }
}

} // verus!

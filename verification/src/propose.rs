//! The fast path of a proposal: one round of replies, decided as they arrive.

use crate::error::CurpError;
use crate::members::ServerId;
use crate::quorum::{spec_super_quorum, super_quorum};
use vstd::prelude::*;

verus! {

/// What a member answers to a proposal that it accepts.
#[derive(Clone, Debug, PartialEq, Eq)]
pub enum ProposeResponse<R> {
    /// The member has executed the command; this is its result.
    Executed(R),
    /// The member has recorded the proposal and has no result yet.
    Acknowledged,
}

/// The reply of one member to a proposal, with the member it came from.
pub type ProposeReply<R> = (ServerId, Result<ProposeResponse<R>, CurpError>);

impl<R> ProposeResponse<R> {
    /// The answer of a member that has executed the command.
    pub fn new_result(result: R) -> (resp: Self)
        ensures
            resp == ProposeResponse::Executed(result),
    {
        ProposeResponse::Executed(result)
    }

    /// The answer of a member that has only recorded the proposal.
    pub fn new_empty() -> (resp: Self)
        ensures
            resp == ProposeResponse::<R>::Acknowledged,
    {
        ProposeResponse::Acknowledged
    }
}

/// The reply is an error that ends the round by itself.
pub open spec fn is_early_error<R>(reply: ProposeReply<R>) -> bool {
    reply.1 matches Err(e) && e.spec_return_early()
}

/// The number of replies that accept the proposal, with or without a result.
pub open spec fn accepted<R>(replies: Seq<ProposeReply<R>>) -> nat
    decreases replies.len(),
{
    if replies.len() == 0 {
        0
    } else {
        accepted(replies.drop_last()) + if replies.last().1 is Ok {
            1nat
        } else {
            0nat
        }
    }
}

/// The first error among the replies that ends a round by itself.
pub open spec fn early_error<R>(replies: Seq<ProposeReply<R>>) -> Option<CurpError>
    decreases replies.len(),
{
    if replies.len() == 0 {
        None
    } else {
        match early_error(replies.drop_last()) {
            Some(e) => Some(e),
            None => match replies.last().1 {
                Err(e) => if e.spec_return_early() {
                    Some(e)
                } else {
                    None
                },
                Ok(_) => None,
            },
        }
    }
}

/// The first execution result among the replies.
pub open spec fn first_result<R>(replies: Seq<ProposeReply<R>>) -> Option<R>
    decreases replies.len(),
{
    if replies.len() == 0 {
        None
    } else {
        match first_result(replies.drop_last()) {
            Some(r) => Some(r),
            None => match replies.last().1 {
                Ok(ProposeResponse::Executed(r)) => Some(r),
                _ => None,
            },
        }
    }
}

/// Whether the error `e` of member `id` is reported rather than the error
/// `held` of member `held_id`: a conflict goes before any other error, and
/// among errors of one class the lower member goes first.
pub open spec fn outranks(id: ServerId, e: CurpError, held_id: ServerId, held: CurpError) -> bool {
    ||| e.spec_is_conflict() && !held.spec_is_conflict()
    ||| e.spec_is_conflict() == held.spec_is_conflict() && id < held_id
}

/// The error that stands for a failed round, with the member that sent it:
/// among the errors that do not end a round by themselves, the one that
/// outranks the others. `None` if there is no such error.
pub open spec fn preferred_error<R>(replies: Seq<ProposeReply<R>>) -> Option<(ServerId, CurpError)>
    decreases replies.len(),
{
    if replies.len() == 0 {
        None
    } else {
        let held = preferred_error(replies.drop_last());
        match replies.last().1 {
            Err(e) => if e.spec_return_early() {
                held
            } else {
                match held {
                    None => Some((replies.last().0, e)),
                    Some(h) => if outranks(replies.last().0, e, h.0, h.1) {
                        Some((replies.last().0, e))
                    } else {
                        held
                    },
                }
            },
            Ok(_) => held,
        }
    }
}

/// Whether these replies decide the round in a cluster of `n` members: one
/// of them is an error that ends it, or the fast-path quorum has accepted.
pub open spec fn decided<R>(n: nat, replies: Seq<ProposeReply<R>>) -> bool {
    early_error(replies) is Some || accepted(replies) >= spec_super_quorum(n)
}

/// The replies that a round takes note of: those up to and including the one
/// that decides it. What arrives later is dropped.
pub open spec fn consumed<R>(n: nat, replies: Seq<ProposeReply<R>>) -> Seq<ProposeReply<R>>
    decreases replies.len(),
{
    if replies.len() == 0 {
        replies
    } else {
        let before = consumed(n, replies.drop_last());
        if decided(n, before) {
            before
        } else {
            before.push(replies.last())
        }
    }
}

/// What the round returns once it has taken note of exactly `seen`: the
/// error that ended it; else, if the fast-path quorum accepted, the first
/// execution result, or none if no reply carried one; else the error that
/// stands for the failure, or a transport error if no member sent one.
///
/// The results that the members report for one proposal are the same by the
/// protocol. The round does not compare them.
pub open spec fn verdict<R>(n: nat, seen: Seq<ProposeReply<R>>) -> Result<Option<R>, CurpError> {
    match early_error(seen) {
        Some(e) => Err(e),
        None => if accepted(seen) >= spec_super_quorum(n) {
            Ok(first_result(seen))
        } else {
            match preferred_error(seen) {
                Some(held) => Err(held.1),
                None => Err(CurpError::RpcTransport),
            }
        },
    }
}

/// What a fast round returns in a cluster of `n` members whose replies arrive
/// in the order of `replies`.
pub open spec fn fast_round_outcome<R>(n: nat, replies: Seq<ProposeReply<R>>) -> Result<Option<R>, CurpError> {
    verdict(n, consumed(n, replies))
}

/// One fast round in progress. It is fed the replies in the order in which
/// they arrive and says after each whether the round is decided. The driver
/// sends one request per connection, so each member replies at most once;
/// the round counts the replies that it is given.
pub struct FastRound<R> {
    super_quorum: usize,
    ok_cnt: usize,
    result: Option<R>,
    err: Option<(ServerId, CurpError)>,
    early: Option<CurpError>,
    size: Ghost<nat>,
    seen: Ghost<Seq<ProposeReply<R>>>,
}

impl<R> FastRound<R> {
    #[verifier::type_invariant]
    spec fn inv(self) -> bool {
        &&& self.super_quorum == spec_super_quorum(self.size@)
        &&& self.ok_cnt == accepted(self.seen@)
        &&& self.ok_cnt <= self.super_quorum
        &&& self.result == first_result(self.seen@)
        &&& self.err == preferred_error(self.seen@)
        &&& self.early == early_error(self.seen@)
    }

    /// The number of members of the cluster that the round runs in.
    pub closed spec fn size(self) -> nat {
        self.size@
    }

    /// The replies that the round has taken note of, in their order.
    pub closed spec fn seen(self) -> Seq<ProposeReply<R>> {
        self.seen@
    }

    /// A round in a cluster of `size` members, before any reply.
    pub fn new(size: usize) -> (round: Self)
        ensures
            round.size() == size,
            round.seen() == Seq::<ProposeReply<R>>::empty(),
    {
        FastRound {
            super_quorum: super_quorum(size),
            ok_cnt: 0,
            result: None,
            err: None,
            early: None,
            size: Ghost(size as nat),
            seen: Ghost(Seq::empty()),
        }
    }

    /// Whether the round is decided: no further reply changes what it returns.
    pub fn is_decided(&self) -> (done: bool)
        ensures
            done == decided(self.size(), self.seen()),
    {
        proof {
            use_type_invariant(self);
        }
        self.early.is_some() || self.ok_cnt >= self.super_quorum
    }

    /// Takes note of the reply `resp` of member `id`. A reply that arrives
    /// after the round is decided is dropped.
    pub fn on_response(self, id: ServerId, resp: Result<ProposeResponse<R>, CurpError>) -> (next: Self)
        ensures
            next.size() == self.size(),
            next.seen() == if decided(self.size(), self.seen()) {
                self.seen()
            } else {
                self.seen().push((id, resp))
            },
    {
        proof {
            use_type_invariant(&self);
        }
        if self.early.is_some() || self.ok_cnt >= self.super_quorum {
            return self;
        }
        let ghost seen = self.seen@.push((id, resp));
        assert(seen.drop_last() =~= self.seen@);
        let FastRound { super_quorum, ok_cnt, result, err, early, size, seen: _ } = self;
        match resp {
            Ok(outcome) => {
                let result = match result {
                    Some(r) => Some(r),
                    None => match outcome {
                        ProposeResponse::Executed(r) => Some(r),
                        ProposeResponse::Acknowledged => None,
                    },
                };
                FastRound { super_quorum, ok_cnt: ok_cnt + 1, result, err, early, size, seen: Ghost(seen) }
            },
            Err(e) => {
                if e.return_early() {
                    FastRound { super_quorum, ok_cnt, result, err, early: Some(e), size, seen: Ghost(seen) }
                } else {
                    let replace = match &err {
                        None => true,
                        Some(held) => (e.is_conflict() && !held.1.is_conflict()) || (e.is_conflict()
                            == held.1.is_conflict() && id < held.0),
                    };
                    let err = if replace {
                        Some((id, e))
                    } else {
                        err
                    };
                    FastRound { super_quorum, ok_cnt, result, err, early, size, seen: Ghost(seen) }
                }
            },
        }
    }

    /// Ends the round and returns its result: the error that ended it, or
    /// the first execution result if the fast-path quorum accepted, or the
    /// error that stands for the failure. Members that have not replied by
    /// now count as not accepting.
    pub fn finish(self) -> (res: Result<Option<R>, CurpError>)
        ensures
            res == verdict(self.size(), self.seen()),
    {
        proof {
            use_type_invariant(&self);
        }
        let FastRound { super_quorum, ok_cnt, result, err, early, size: _, seen: _ } = self;
        match early {
            Some(e) => Err(e),
            None => if ok_cnt >= super_quorum {
                Ok(result)
            } else {
                match err {
                    Some(held) => Err(held.1),
                    None => Err(CurpError::RpcTransport),
                }
            },
        }
    }
}

/// Decides a fast round in a cluster of `size` members from the replies in
/// the order in which they arrived.
pub fn fast_round<R>(size: usize, replies: Vec<ProposeReply<R>>) -> (res: Result<Option<R>, CurpError>)
    ensures
        res == fast_round_outcome(size as nat, replies@),
{
    let mut round = FastRound::new(size);
    for reply in it: replies.into_iter()
        invariant
            round.size() == size,
            round.seen() == consumed(size as nat, replies@.take(it.index() as int)),
    {
        assert(replies@.take(it.index() + 1).drop_last() =~= replies@.take(it.index() as int));
        let (id, resp) = reply;
        round = round.on_response(id, resp);
    }
    assert(replies@.take(replies@.len() as int) =~= replies@);
    round.finish()
}

/// The reply carries an execution result.
pub open spec fn is_executed<R>(reply: ProposeReply<R>) -> bool {
    reply.1 matches Ok(ProposeResponse::Executed(_))
}

/// The reply is an error that is tallied: the round goes on after it.
pub open spec fn is_tallied_error<R>(reply: ProposeReply<R>) -> bool {
    reply.1 matches Err(e) && !e.spec_return_early()
}

/// Counting and searching a prefix extended by one reply.
proof fn lemma_take_next<R>(replies: Seq<ProposeReply<R>>, k: int)
    requires
        0 <= k < replies.len(),
    ensures
        replies.take(k + 1).drop_last() == replies.take(k),
        replies.take(k + 1).last() == replies[k],
        replies.take(replies.len() as int) == replies,
{
    assert(replies.take(k + 1).drop_last() =~= replies.take(k));
    assert(replies.take(replies.len() as int) =~= replies);
}

/// A decided round stays decided whatever arrives later.
pub proof fn lemma_decided_stays<R>(n: nat, replies: Seq<ProposeReply<R>>, j: int, k: int)
    requires
        0 <= j <= k <= replies.len(),
        decided(n, replies.take(j)),
    ensures
        decided(n, replies.take(k)),
    decreases k - j,
{
    if j < k {
        lemma_decided_stays(n, replies, j, k - 1);
        lemma_take_next(replies, k - 1);
    }
}

/// The replies that a round takes note of are the shortest prefix of the
/// replies that decides it, and all of them if none does.
pub proof fn lemma_consumed_is_shortest_deciding_prefix<R>(n: nat, replies: Seq<ProposeReply<R>>)
    ensures
        consumed(n, replies).len() <= replies.len(),
        consumed(n, replies) == replies.take(consumed(n, replies).len() as int),
        consumed(n, replies).len() < replies.len() ==> decided(n, consumed(n, replies)),
        forall|j: int| 0 <= j < consumed(n, replies).len() ==> !decided(n, #[trigger] replies.take(j)),
    decreases replies.len(),
{
    if replies.len() > 0 {
        let front = replies.drop_last();
        let before = consumed(n, front);
        lemma_consumed_is_shortest_deciding_prefix(n, front);
        assert(before =~= replies.take(before.len() as int));
        assert forall|j: int| 0 <= j < before.len() implies !decided(n, #[trigger] replies.take(j)) by {
            assert(replies.take(j) =~= front.take(j));
        }
        if !decided(n, before) {
            assert(before.len() == front.len());
            assert(front.take(front.len() as int) =~= front);
            assert(before.push(replies.last()) =~= replies);
            assert(replies.take(replies.len() as int) =~= replies);
            assert(replies.take(front.len() as int) =~= front);
        }
    }
}

/// An error that ends a round by itself, arriving before the round is
/// decided, is returned as it is, and no later reply is taken note of.
pub proof fn lemma_early_error_ends_round<R>(n: nat, replies: Seq<ProposeReply<R>>, k: int)
    requires
        0 <= k < replies.len(),
        is_early_error(replies[k]),
        !decided(n, replies.take(k)),
    ensures
        consumed(n, replies) == replies.take(k + 1),
        fast_round_outcome(n, replies) == Err::<Option<R>, CurpError>(replies[k].1->Err_0),
{
    lemma_consumed_is_shortest_deciding_prefix(n, replies);
    lemma_take_next(replies, k);
    let m = consumed(n, replies).len() as int;
    assert(decided(n, replies.take(k + 1)));
    if m <= k {
        lemma_decided_stays(n, replies, m, k);
    }
}

/// Once the fast-path quorum has accepted, and no error has ended the round
/// before, the round succeeds with the first execution result received up to
/// then, or with none if no reply up to then carried one.
pub proof fn lemma_super_quorum_accepts<R>(n: nat, replies: Seq<ProposeReply<R>>, k: int)
    requires
        1 <= k <= replies.len(),
        early_error(replies.take(k)) is None,
        accepted(replies.take(k)) >= spec_super_quorum(n),
        accepted(replies.take(k - 1)) < spec_super_quorum(n),
    ensures
        consumed(n, replies) == replies.take(k),
        fast_round_outcome(n, replies) == Ok::<Option<R>, CurpError>(first_result(replies.take(k))),
{
    lemma_consumed_is_shortest_deciding_prefix(n, replies);
    lemma_take_next(replies, k - 1);
    let m = consumed(n, replies).len() as int;
    if m < k {
        lemma_decided_stays(n, replies, m, k - 1);
    }
}

/// The first execution result among the replies is that of the earliest
/// reply that carries one.
pub proof fn lemma_first_result<R>(replies: Seq<ProposeReply<R>>)
    ensures
        match first_result(replies) {
            Some(r) => exists|i: int|
                0 <= i < replies.len() && (#[trigger] replies[i]).1 == Ok::<
                    ProposeResponse<R>,
                    CurpError,
                >(ProposeResponse::Executed(r)) && forall|j: int|
                    0 <= j < i ==> !is_executed(#[trigger] replies[j]),
            None => forall|i: int| 0 <= i < replies.len() ==> !is_executed(#[trigger] replies[i]),
        },
    decreases replies.len(),
{
    if replies.len() > 0 {
        let front = replies.drop_last();
        lemma_first_result(front);
        match first_result(front) {
            Some(r) => {
                let i = choose|i: int|
                    0 <= i < front.len() && (#[trigger] front[i]).1 == Ok::<ProposeResponse<R>, CurpError>(
                        ProposeResponse::Executed(r),
                    ) && forall|j: int| 0 <= j < i ==> !is_executed(#[trigger] front[j]);
                assert(replies[i] == front[i]);
                assert forall|j: int| 0 <= j < i implies !is_executed(#[trigger] replies[j]) by {
                    assert(replies[j] == front[j]);
                }
            },
            None => {
                assert forall|j: int| 0 <= j < front.len() implies !is_executed(#[trigger] replies[j]) by {
                    assert(replies[j] == front[j]);
                }
                if is_executed(replies.last()) {
                    assert(replies[replies.len() - 1] == replies.last());
                }
            },
        }
    }
}

/// The error that stands for a failed round was sent by a member, does not
/// end a round by itself, and no other such error outranks it.
pub proof fn lemma_preferred_error<R>(replies: Seq<ProposeReply<R>>)
    ensures
        match preferred_error(replies) {
            Some(held) => !held.1.spec_return_early() && (exists|i: int|
                0 <= i < replies.len() && #[trigger] replies[i] == (
                    held.0,
                    Err::<ProposeResponse<R>, CurpError>(held.1),
                )) && forall|j: int|
                0 <= j < replies.len() && is_tallied_error(#[trigger] replies[j]) ==> !outranks(
                    replies[j].0,
                    replies[j].1->Err_0,
                    held.0,
                    held.1,
                ),
            None => forall|i: int| 0 <= i < replies.len() ==> !is_tallied_error(#[trigger] replies[i]),
        },
    decreases replies.len(),
{
    if replies.len() > 0 {
        let front = replies.drop_last();
        lemma_preferred_error(front);
        assert forall|j: int| 0 <= j < front.len() implies replies[j] == #[trigger] front[j] by {}
        match preferred_error(front) {
            Some(h) => {
                let i = choose|i: int|
                    0 <= i < front.len() && #[trigger] front[i] == (
                        h.0,
                        Err::<ProposeResponse<R>, CurpError>(h.1),
                    );
                assert(replies[i] == front[i]);
                let held = preferred_error(replies).unwrap();
                if held == h {
                    assert(replies[i] == (held.0, Err::<ProposeResponse<R>, CurpError>(held.1)));
                } else {
                    assert(replies[replies.len() - 1] == (
                        held.0,
                        Err::<ProposeResponse<R>, CurpError>(held.1),
                    ));
                }
                assert forall|j: int|
                    0 <= j < replies.len() && is_tallied_error(#[trigger] replies[j]) implies !outranks(
                    replies[j].0,
                    replies[j].1->Err_0,
                    held.0,
                    held.1,
                ) by {
                    if j < front.len() {
                        assert(replies[j] == front[j]);
                    }
                }
            },
            None => {
                if is_tallied_error(replies.last()) {
                    let held = preferred_error(replies).unwrap();
                    assert(replies[replies.len() - 1] == (
                        held.0,
                        Err::<ProposeResponse<R>, CurpError>(held.1),
                    ));
                    assert forall|j: int|
                        0 <= j < replies.len() && is_tallied_error(#[trigger] replies[j]) implies !outranks(
                        replies[j].0,
                        replies[j].1->Err_0,
                        held.0,
                        held.1,
                    ) by {
                        if j < front.len() {
                            assert(replies[j] == front[j]);
                        }
                    }
                } else {
                    assert forall|j: int| 0 <= j < replies.len() implies !is_tallied_error(
                        #[trigger] replies[j],
                    ) by {
                        if j < front.len() {
                            assert(replies[j] == front[j]);
                        }
                    }
                }
            },
        }
    }
}

/// Without an error that ends the round and without the fast-path quorum,
/// the round fails, and never with an error of the kind that ends a round:
/// with a conflict if a member reported one, else with another error that a
/// member sent, else with a transport error.
pub proof fn lemma_below_quorum_fails<R>(n: nat, replies: Seq<ProposeReply<R>>)
    requires
        early_error(replies) is None,
        accepted(replies) < spec_super_quorum(n),
    ensures
        consumed(n, replies) == replies,
        fast_round_outcome(n, replies) matches Err(e) && !e.spec_return_early() && e == (
        match preferred_error(replies) {
            Some(held) => held.1,
            None => CurpError::RpcTransport,
        }),
        (exists|i: int|
            0 <= i < replies.len() && ((#[trigger] replies[i]).1 matches Err(x)
                && x.spec_is_conflict())) ==> (fast_round_outcome(n, replies) matches Err(e)
            && e.spec_is_conflict()),
{
    lemma_consumed_is_shortest_deciding_prefix(n, replies);
    lemma_preferred_error(replies);
    let m = consumed(n, replies).len() as int;
    if m < replies.len() {
        lemma_decided_stays(n, replies, m, replies.len() as int);
        lemma_take_next(replies, m);
    }
    assert(replies.take(replies.len() as int) =~= replies);
    if exists|i: int|
        0 <= i < replies.len() && ((#[trigger] replies[i]).1 matches Err(x) && x.spec_is_conflict()) {
        let i = choose|i: int|
            0 <= i < replies.len() && ((#[trigger] replies[i]).1 matches Err(x)
                && x.spec_is_conflict());
        assert(is_tallied_error(replies[i]));
    }
}

} // verus!

//! The members of a cluster.

use std::collections::HashMap;
use vstd::prelude::*;

verus! {

/// Identifier of a cluster member.
pub type ServerId = u64;

/// One member of the cluster, as a node reports it.
#[derive(Clone, Debug, PartialEq, Eq)]
pub struct Member {
    /// The member's identifier.
    pub id: ServerId,
    /// The member's name.
    pub name: String,
    /// The addresses under which the member is reached, in order of preference.
    pub addrs: Vec<String>,
    /// Whether the member only replicates and has no vote.
    pub is_learner: bool,
}

impl Member {
    /// A member with the given identifier, name and addresses.
    pub fn new(id: ServerId, name: &str, addrs: Vec<String>, is_learner: bool) -> (member: Self)
        ensures
            member.id == id,
            member.name@ == name@,
            member.addrs == addrs,
            member.is_learner == is_learner,
    {
        Member { id, name: name.to_owned(), addrs, is_learner }
    }
}

/// The addresses of each member, by the member's identifier. Where two
/// entries bear one identifier, the later one counts.
pub open spec fn members_addrs(members: Seq<Member>) -> Map<ServerId, Vec<String>>
    decreases members.len(),
{
    if members.len() == 0 {
        Map::empty()
    } else {
        members_addrs(members.drop_last()).insert(members.last().id, members.last().addrs)
    }
}

/// The map of addresses has an entry for exactly the identifiers that occur
/// among the members, and each entry holds the addresses of the last member
/// with that identifier.
pub proof fn lemma_members_addrs(members: Seq<Member>)
    ensures
        forall|id: ServerId| #[trigger]
            members_addrs(members).contains_key(id) <==> exists|i: int|
                0 <= i < members.len() && (#[trigger] members[i]).id == id,
        forall|i: int|
            0 <= i < members.len() && (forall|j: int|
                i < j < members.len() ==> (#[trigger] members[j]).id != members[i].id)
                ==> members_addrs(members)[(#[trigger] members[i]).id] == members[i].addrs,
    decreases members.len(),
{
    if members.len() > 0 {
        let front = members.drop_last();
        let last = members.last();
        lemma_members_addrs(front);
        assert forall|i: int| 0 <= i < front.len() implies members[i] == #[trigger] front[i] by {}
        assert forall|id: ServerId| #[trigger]
            members_addrs(members).contains_key(id) implies exists|i: int|
            0 <= i < members.len() && (#[trigger] members[i]).id == id by {
            if id == last.id {
                assert(members[members.len() - 1].id == id);
            } else {
                assert(members_addrs(front).contains_key(id));
                let i = choose|i: int| 0 <= i < front.len() && (#[trigger] front[i]).id == id;
                assert(members[i].id == id);
            }
        }
        assert forall|id: ServerId|
            (exists|i: int|
                0 <= i < members.len() && (#[trigger] members[i]).id == id) implies #[trigger]
            members_addrs(members).contains_key(id) by {
            let i = choose|i: int| 0 <= i < members.len() && (#[trigger] members[i]).id == id;
            if i < front.len() {
                assert(front[i].id == id);
                assert(members_addrs(front).contains_key(id));
            }
        }
        assert forall|i: int|
            0 <= i < members.len() && (forall|j: int|
                i < j < members.len() ==> (#[trigger] members[j]).id
                    != members[i].id) implies members_addrs(members)[(#[trigger] members[i]).id]
            == members[i].addrs by {
            if i < front.len() {
                assert(members[members.len() - 1].id != members[i].id);
                assert forall|j: int| i < j < front.len() implies (#[trigger] front[j]).id
                    != front[i].id by {
                    assert(members[j].id != members[i].id);
                }
                assert(front[i] == members[i]);
            }
        }
    }
}

/// Collects the addresses of the members by identifier.
pub fn into_members_addrs(members: Vec<Member>) -> (addrs: HashMap<ServerId, Vec<String>>)
    ensures
        addrs@ == members_addrs(members@),
{
    let mut addrs: HashMap<ServerId, Vec<String>> = HashMap::new();
    for member in it: members.into_iter()
        invariant
            addrs@ == members_addrs(members@.take(it.index() as int)),
    {
        assert(members@.take(it.index() + 1).drop_last() =~= members@.take(it.index() as int));
        addrs.insert(member.id, member.addrs);
    }
    assert(members@.take(members@.len() as int) =~= members@);
    addrs
}

} // verus!

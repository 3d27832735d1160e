//! The table of connections, kept in a `dashmap::DashMap`.
//!
//! The client owns its table and never changes it, and no reference to it
//! leaves the crate. What the table holds is therefore a function of the
//! table, although a `DashMap` can be changed through a shared reference.

use crate::members::ServerId;
use dashmap::DashMap;
use vstd::prelude::*;

verus! {

/// Handle under which the driver keeps the connection to one member.
pub type ConnectId = u64;

/// `dashmap::DashMap`, a hash map that is split into shards, each behind a
/// lock. Nothing of its inside is known here.
#[verifier::external_type_specification]
#[verifier::external_body]
#[verifier::reject_recursive_types(K)]
#[verifier::reject_recursive_types(V)]
#[verifier::reject_recursive_types(S)]
pub struct ExDashMap<K, V, S>(DashMap<K, V, S>);

/// The entries of a connection table: for each member, its connection.
pub uninterp spec fn connect_entries(table: DashMap<ServerId, ConnectId>) -> Map<ServerId, ConnectId>;

/// `DashMap::len`: the number of entries of the table, summed over its
/// shards.
#[verifier::external_body]
pub(crate) fn table_len(table: &DashMap<ServerId, ConnectId>) -> (n: usize)
    ensures
        n == connect_entries(*table).dom().len(),
{
    table.len()
}

/// `DashMap::get`: the connection that the table holds for the member, or
/// `None` if it holds none. The guard that `get` returns is released before
/// the wrapper returns.
#[verifier::external_body]
pub(crate) fn table_get(table: &DashMap<ServerId, ConnectId>, id: ServerId) -> (found: Option<ConnectId>)
    ensures
        found == (if connect_entries(*table).contains_key(id) {
            Some(connect_entries(*table)[id])
        } else {
            None
        }),
{
    table.get(&id).map(|entry| *entry.value())
}

/// `DashMap::iter`: walks the shards one after the other and hands out each
/// entry once. The entries come in no stated order.
#[verifier::external_body]
pub(crate) fn table_entries(table: &DashMap<ServerId, ConnectId>) -> (entries: Vec<(ServerId, ConnectId)>)
    ensures
        lists_all(entries@, connect_entries(*table)),
{
    table.iter().map(|entry| (*entry.key(), *entry.value())).collect()
}

/// The list holds each entry of the table once, and nothing else.
pub open spec fn lists_all(entries: Seq<(ServerId, ConnectId)>, table: Map<ServerId, ConnectId>) -> bool {
    &&& forall|i: int|
        0 <= i < entries.len() ==> table.contains_pair((#[trigger] entries[i]).0, entries[i].1)
    &&& forall|i: int, j: int|
        0 <= i < j < entries.len() ==> (#[trigger] entries[i]).0 != (#[trigger] entries[j]).0
    &&& forall|id: ServerId| #[trigger]
        table.contains_key(id) ==> exists|i: int| 0 <= i < entries.len() && (#[trigger] entries[i]).0 == id
}

/// A list of all entries is as long as the table is large.
pub proof fn lemma_lists_all_len(entries: Seq<(ServerId, ConnectId)>, table: Map<ServerId, ConnectId>)
    requires
        lists_all(entries, table),
    ensures
        table.dom().finite(),
        table.dom().len() == entries.len(),
{
    let ids = entries.map_values(|e: (ServerId, ConnectId)| e.0);
    assert(ids.no_duplicates()) by {
        assert forall|i: int, j: int| 0 <= i < ids.len() && 0 <= j < ids.len() && i != j implies ids[i]
            != ids[j] by {
            if i < j {
                assert(entries[i].0 != entries[j].0);
            } else {
                assert(entries[j].0 != entries[i].0);
            }
        }
    }
    assert(ids.to_set() =~= table.dom()) by {
        assert forall|id: ServerId| ids.to_set().contains(id) implies table.dom().contains(id) by {
            let i = choose|i: int| 0 <= i < ids.len() && ids[i] == id;
            assert(table.contains_pair(entries[i].0, entries[i].1));
        }
        assert forall|id: ServerId| table.dom().contains(id) implies ids.to_set().contains(id) by {
            assert(table.contains_key(id));
            let i = choose|i: int| 0 <= i < entries.len() && (#[trigger] entries[i]).0 == id;
            assert(ids[i] == id);
        }
    }
    ids.unique_seq_to_set();
}

} // verus!

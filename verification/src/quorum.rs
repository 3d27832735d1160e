//! Quorum sizes of a cluster, as functions of the number of its members.

use vstd::prelude::*;

verus! {

/// The number of members that may fail while the cluster stays available:
/// `floor((n - 1) / 2)`. An empty cluster tolerates none.
pub open spec fn spec_fault_tolerance(n: nat) -> nat {
    if n == 0 {
        0
    } else {
        ((n - 1) / 2) as nat
    }
}

/// The majority quorum: one more than the fault tolerance.
pub open spec fn spec_quorum(n: nat) -> nat {
    spec_fault_tolerance(n) + 1
}

/// The fast-path quorum: `f + ceil(f / 2) + 1` for fault tolerance `f`.
pub open spec fn spec_super_quorum(n: nat) -> nat {
    let f = spec_fault_tolerance(n);
    f + (f + 1) / 2 + 1
}

/// Fault tolerance of a cluster of `n` members.
pub fn fault_tolerance(n: usize) -> (f: usize)
    ensures
        f == spec_fault_tolerance(n as nat),
        2 * f < n || n == 0,
{
    if n == 0 {
        0
    } else {
        (n - 1) / 2
    }
}

/// Number of agreeing replies that a linearizable read needs.
pub fn quorum(n: usize) -> (q: usize)
    ensures
        q == spec_quorum(n as nat),
        1 <= q,
        n >= 1 ==> q <= n,
{
    fault_tolerance(n) + 1
}

/// Number of accepting replies that the fast path of a proposal needs.
pub fn super_quorum(n: usize) -> (q: usize)
    ensures
        q == spec_super_quorum(n as nat),
        q >= spec_quorum(n as nat),
        n >= 1 ==> q <= n,
{
    let f: usize = fault_tolerance(n);
    f + (f + 1) / 2 + 1
}

/// Both quorums follow the closed formulas over `f = floor((n - 1) / 2)`:
/// the majority quorum is `f + 1`, and the fast-path quorum is `f + c + 1`,
/// where `c` is half of `f`, rounded up. The fast-path quorum is never
/// smaller than the majority quorum, and neither asks for more replies than
/// the cluster has members.
pub proof fn lemma_quorum_sizes(n: nat)
    requires
        n >= 1,
    ensures
        ({
            let f = (n - 1) / 2;
            let c = spec_super_quorum(n) - f - 1;
            &&& spec_fault_tolerance(n) == f
            &&& spec_quorum(n) == f + 1
            &&& f <= 2 * c <= f + 1
            &&& spec_quorum(n) <= spec_super_quorum(n) <= n
        }),
{
}

/// With at least three members the fast-path quorum is strictly larger than
/// the majority quorum.
pub proof fn lemma_super_quorum_strict(n: nat)
    requires
        n >= 3,
    ensures
        spec_super_quorum(n) > spec_quorum(n),
{
}

} // verus!

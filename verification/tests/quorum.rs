use curp_client::quorum::{fault_tolerance, quorum, super_quorum};

#[test]
fn fault_tolerance_is_half_of_the_others() {
    assert_eq!(fault_tolerance(1), 0);
    assert_eq!(fault_tolerance(2), 0);
    assert_eq!(fault_tolerance(3), 1);
    assert_eq!(fault_tolerance(4), 1);
    assert_eq!(fault_tolerance(5), 2);
    assert_eq!(fault_tolerance(6), 2);
    assert_eq!(fault_tolerance(7), 3);
    assert_eq!(fault_tolerance(9), 4);
}

#[test]
fn majority_quorum_values() {
    assert_eq!(quorum(1), 1);
    assert_eq!(quorum(2), 1);
    assert_eq!(quorum(3), 2);
    assert_eq!(quorum(4), 2);
    assert_eq!(quorum(5), 3);
    assert_eq!(quorum(6), 3);
    assert_eq!(quorum(7), 4);
}

#[test]
fn super_quorum_values() {
    assert_eq!(super_quorum(1), 1);
    assert_eq!(super_quorum(2), 1);
    assert_eq!(super_quorum(3), 3);
    assert_eq!(super_quorum(4), 3);
    assert_eq!(super_quorum(5), 4);
    assert_eq!(super_quorum(6), 4);
    assert_eq!(super_quorum(7), 6);
    assert_eq!(super_quorum(8), 6);
    assert_eq!(super_quorum(9), 7);
}

#[test]
fn quorums_follow_the_formulas() {
    for n in 1usize..=200 {
        let f = (n - 1) / 2;
        assert_eq!(fault_tolerance(n), f);
        assert_eq!(quorum(n), f + 1);
        assert_eq!(super_quorum(n), f + (f + 1) / 2 + 1);
        assert!(super_quorum(n) >= quorum(n));
        assert!(super_quorum(n) <= n);
        if n >= 3 {
            assert!(super_quorum(n) > quorum(n));
        }
    }
}

#[test]
fn empty_cluster_needs_one_reply_that_never_comes() {
    assert_eq!(fault_tolerance(0), 0);
    assert_eq!(quorum(0), 1);
    assert_eq!(super_quorum(0), 1);
}

#[test]
fn quorums_of_the_largest_cluster_do_not_overflow() {
    let n = usize::MAX;
    let f = (n - 1) / 2;
    assert_eq!(fault_tolerance(n), f);
    assert_eq!(quorum(n), f + 1);
    assert_eq!(super_quorum(n), f + (f / 2 + 1) + 1);
}

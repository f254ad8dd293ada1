use authority_store::epoch::{AuthorityEpochTables, ConsensusError, ConsensusOutcome};
use authority_store::types::{Certificate, ExecutionIndicesWithHash, SharedInput};

fn cert(digest: u64, shared: Vec<(u64, u64)>) -> Certificate {
    Certificate {
        digest,
        direct_args: vec![],
        collection_args: vec![],
        shared_inputs: shared
            .into_iter()
            .map(|(id, initial_version)| SharedInput { id, initial_version })
            .collect(),
    }
}

/// Feeds indices 1..=4 with unrelated certificates, so index 5 is next.
fn advance_to_four(t: &mut AuthorityEpochTables) {
    for i in 1..=4u64 {
        let c = cert(100 + i, vec![(900 + i, 1)]);
        assert_eq!(t.handle_consensus_certificate(i, &c, i), Ok(ConsensusOutcome::Assigned));
    }
}

#[test]
fn redelivered_index_assigns_once() {
    let mut t = AuthorityEpochTables::open();
    advance_to_four(&mut t);
    let c = cert(7, vec![(42, 3)]);
    assert_eq!(t.handle_consensus_certificate(5, &c, 55), Ok(ConsensusOutcome::Assigned));
    assert_eq!(t.handle_consensus_certificate(5, &c, 55), Ok(ConsensusOutcome::Redelivered));
    assert_eq!(t.assigned_object_version(7, 42), Some(3));
    assert_eq!(t.next_object_version(42), Some(4));
    let entries = t
        .assigned_object_versions()
        .iter()
        .filter(|e| e.0 == (7, 42))
        .count();
    assert_eq!(entries, 1);
    assert_eq!(t.last_consensus_index().index, 5);
}

#[test]
fn counter_continues_from_previous_assignment() {
    let mut t = AuthorityEpochTables::open();
    let a = cert(1, vec![(42, 3)]);
    let b = cert(2, vec![(42, 3)]);
    assert_eq!(t.handle_consensus_certificate(1, &a, 0), Ok(ConsensusOutcome::Assigned));
    assert_eq!(t.handle_consensus_certificate(2, &b, 0), Ok(ConsensusOutcome::Assigned));
    assert_eq!(t.assigned_object_version(1, 42), Some(3));
    assert_eq!(t.assigned_object_version(2, 42), Some(4));
    assert_eq!(t.next_object_version(42), Some(5));
}

#[test]
fn processed_certificate_only_moves_index() {
    let mut t = AuthorityEpochTables::open();
    let a = cert(1, vec![(42, 3)]);
    assert_eq!(t.handle_consensus_certificate(1, &a, 9), Ok(ConsensusOutcome::Assigned));
    assert!(t.is_consensus_message_processed(1));
    assert_eq!(t.handle_consensus_certificate(2, &a, 9), Ok(ConsensusOutcome::AlreadyAssigned));
    assert_eq!(t.next_object_version(42), Some(4));
    assert_eq!(t.last_consensus_index().index, 2);
}

#[test]
fn gap_in_feed_is_refused() {
    let mut t = AuthorityEpochTables::open();
    let a = cert(1, vec![(42, 3)]);
    assert_eq!(
        t.handle_consensus_certificate(3, &a, 0),
        Err(ConsensusError::ConsensusIndexMismatch { expected: 1, received: 3 })
    );
    assert_eq!(t.last_consensus_index(), ExecutionIndicesWithHash { index: 0, hash: 0 });
    assert_eq!(t.next_object_version(42), None);
    assert!(!t.is_consensus_message_processed(1));
}

#[test]
fn duplicate_shared_object_is_refused_without_writes() {
    let mut t = AuthorityEpochTables::open();
    let a = cert(1, vec![(42, 3), (42, 3)]);
    assert_eq!(
        t.handle_consensus_certificate(1, &a, 0),
        Err(ConsensusError::DuplicateObjectRefInput)
    );
    assert!(t.assigned_object_versions().is_empty());
    assert!(t.next_object_versions().is_empty());
    assert!(!t.is_consensus_message_processed(1));
    assert_eq!(t.last_consensus_index().index, 0);
}

#[test]
fn exhausted_version_is_refused() {
    let mut t = AuthorityEpochTables::open();
    let a = cert(1, vec![(5, 1), (6, u64::MAX)]);
    assert_eq!(t.handle_consensus_certificate(1, &a, 0), Err(ConsensusError::VersionOverflow));
    assert_eq!(t.assigned_object_version(1, 5), None);
    assert_eq!(t.next_object_version(5), None);
}

#[test]
fn rolling_hash_folds_each_message() {
    let mut t = AuthorityEpochTables::open();
    let a = cert(1, vec![]);
    let b = cert(2, vec![]);
    t.handle_consensus_certificate(1, &a, 7).unwrap();
    assert_eq!(t.last_consensus_index(), ExecutionIndicesWithHash { index: 1, hash: 7 });
    t.handle_consensus_certificate(2, &b, 3).unwrap();
    let expected = 7u64.wrapping_mul(1099511628211).wrapping_add(3);
    assert_eq!(t.last_consensus_index(), ExecutionIndicesWithHash { index: 2, hash: expected });
}

#[test]
fn replay_is_deterministic_whatever_execution_did() {
    let feed: Vec<(u64, Certificate, u64)> = vec![
        (1, cert(10, vec![(1, 1), (2, 5)]), 11),
        (2, cert(11, vec![(2, 5)]), 12),
        (2, cert(11, vec![(2, 5)]), 12),
        (3, cert(10, vec![(1, 1)]), 13),
        (4, cert(12, vec![(1, 1), (3, 2)]), 14),
    ];
    let mut a = AuthorityEpochTables::open();
    let mut b = AuthorityEpochTables::open();
    b.enqueue_pending_execution(99);
    b.enqueue_pending_execution(98);
    for (i, c, h) in &feed {
        let ra = a.handle_consensus_certificate(*i, c, *h);
        a.enqueue_pending_execution(c.digest);
        let rb = b.handle_consensus_certificate(*i, c, *h);
        assert_eq!(ra, rb);
    }
    b.remove_pending_execution(0);
    assert_eq!(a.assigned_object_versions(), b.assigned_object_versions());
    assert_eq!(a.next_object_versions(), b.next_object_versions());
    assert_eq!(a.consensus_message_processed(), b.consensus_message_processed());
    assert_eq!(a.last_consensus_index(), b.last_consensus_index());
    assert_eq!(a.assigned_object_version(12, 1), Some(2));
    assert_eq!(a.assigned_object_version(11, 2), Some(6));
}

#[test]
fn counters_never_go_down() {
    let mut t = AuthorityEpochTables::open();
    let a = cert(1, vec![(42, 3)]);
    t.handle_consensus_certificate(1, &a, 0).unwrap();
    let before = t.next_object_version(42).unwrap();
    // A later certificate that names an older initial version does not rewind.
    let b = cert(2, vec![(42, 1)]);
    t.handle_consensus_certificate(2, &b, 0).unwrap();
    let handed = t.assigned_object_version(2, 42).unwrap();
    let after = t.next_object_version(42).unwrap();
    assert_eq!(handed, before);
    assert!(after > handed);
    assert!(after >= before);
}

#[test]
fn prepared_batch_is_invisible_until_applied() {
    let mut t = AuthorityEpochTables::open();
    let a = cert(1, vec![(42, 3)]);
    let batch = t.prepare_consensus_batch(1, &a, 5).unwrap();
    // Nothing is visible before the batch is applied, as after a crash here.
    assert_eq!(t.assigned_object_version(1, 42), None);
    assert_eq!(t.next_object_version(42), None);
    assert!(!t.is_consensus_message_processed(1));
    assert_eq!(t.last_consensus_index().index, 0);
    // Recovery re-delivers the same message and gets the same assignment.
    let again = t.prepare_consensus_batch(1, &a, 5).unwrap();
    assert_eq!(batch.assignments, again.assignments);
    assert_eq!(batch.advances, again.advances);
    t.apply_consensus_batch(again);
    assert_eq!(t.assigned_object_version(1, 42), Some(3));
    assert_eq!(t.next_object_version(42), Some(4));
    assert!(t.is_consensus_message_processed(1));
}

#[test]
fn pending_execution_queue() {
    let mut t = AuthorityEpochTables::open();
    assert_eq!(t.enqueue_pending_execution(7), Some(0));
    assert_eq!(t.enqueue_pending_execution(8), Some(1));
    assert_eq!(t.enqueue_pending_execution(7), Some(2));
    t.remove_pending_execution(0);
    assert_eq!(t.pending_execution(), &vec![(1, 8), (2, 7)]);
}

#[test]
fn resume_point_follows_last_index() {
    let mut t = AuthorityEpochTables::open();
    assert_eq!(t.next_consensus_index(), Some(1));
    advance_to_four(&mut t);
    assert_eq!(t.next_consensus_index(), Some(5));
}

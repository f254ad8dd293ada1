use authority_store::perpetual::{AuthorityPerpetualTables, CommitOutcome, StoreError};
use authority_store::types::{
    Certificate, Effects, ExecutionDigests, Object, ObjectRef, SignedBatch, OBJECT_DIGEST_DELETED,
};

fn obj(id: u64, version: u64, owner: u64, digest: u64) -> Object {
    Object { id, version, owner, digest }
}

fn cert(digest: u64, direct: Vec<u64>, collections: Vec<Vec<u64>>) -> Certificate {
    Certificate { digest, direct_args: direct, collection_args: collections, shared_inputs: vec![] }
}

fn effects(digest: u64, inputs: Vec<(u64, u64)>, mutated: Vec<ObjectRef>) -> Effects {
    Effects {
        digest,
        success: true,
        inputs,
        created: vec![],
        mutated,
        unwrapped: vec![],
        deleted: vec![],
        wrapped: vec![],
    }
}

fn genesis() -> AuthorityPerpetualTables {
    let mut t = AuthorityPerpetualTables::open();
    t.insert_object(obj(1, 1, 50, 11));
    t.insert_object(obj(2, 1, 50, 21));
    t
}

fn mutate_one(t: &mut AuthorityPerpetualTables, d: u64, e_digest: u64) -> Result<CommitOutcome, StoreError> {
    let new = obj(1, 2, 50, 12);
    t.record_execution(
        cert(d, vec![1], vec![]),
        effects(e_digest, vec![(1, 1)], vec![new.object_ref()]),
        vec![new],
        vec![((50, 1), Some(new.object_ref()))],
    )
}

#[test]
fn commit_writes_every_table_once() {
    let mut t = genesis();
    assert_eq!(mutate_one(&mut t, 700, 800), Ok(CommitOutcome::Committed { sequence: 0 }));
    assert_eq!(t.get_object(1, 2), Some(obj(1, 2, 50, 12)));
    assert_eq!(t.get_object(1, 1), Some(obj(1, 1, 50, 11)));
    assert_eq!(t.get_effects(700).map(|e| e.digest), Some(800));
    assert_eq!(t.get_certificate(700).map(|c| c.digest), Some(700));
    assert_eq!(t.executed_sequence(), &vec![ExecutionDigests { transaction: 700, effects: 800 }]);
    assert_eq!(t.parent_sync(), &vec![(ObjectRef { id: 1, version: 2, digest: 12 }, 700)]);
    assert_eq!(t.owner_index().len(), 1);
}

#[test]
fn second_commit_is_a_no_op() {
    let mut t = genesis();
    assert_eq!(mutate_one(&mut t, 700, 800), Ok(CommitOutcome::Committed { sequence: 0 }));
    let first = t.get_effects(700).cloned().unwrap();
    assert_eq!(mutate_one(&mut t, 700, 801), Ok(CommitOutcome::AlreadyExecuted { effects: first }));
    assert_eq!(t.get_effects(700).map(|e| e.digest), Some(800));
    assert_eq!(t.executed_sequence().len(), 1);
    assert_eq!(t.effects().len(), 1);
    assert_eq!(t.certificates().len(), 1);
    assert_eq!(t.objects().len(), 3);
}

#[test]
fn stored_effects_are_returned_without_executing_again() {
    let mut t = genesis();
    mutate_one(&mut t, 700, 800).unwrap();
    // The executor looks for stored effects first and finds them.
    let stored = t.get_effects(700).cloned();
    assert!(stored.is_some());
    assert_eq!(stored.as_ref().map(|e| e.digest), Some(800));
    // Committing again hands back the stored effects, not the new ones.
    assert_eq!(
        mutate_one(&mut t, 700, 900),
        Ok(CommitOutcome::AlreadyExecuted { effects: stored.clone().unwrap() })
    );
    assert_eq!(t.get_effects(700).map(|e| e.digest), Some(800));
}

#[test]
fn sequence_numbers_have_no_gaps() {
    let mut t = genesis();
    assert_eq!(mutate_one(&mut t, 700, 800), Ok(CommitOutcome::Committed { sequence: 0 }));
    let r = t.record_execution(
        cert(701, vec![2], vec![]),
        effects(801, vec![(2, 1)], vec![]),
        vec![],
        vec![],
    );
    assert_eq!(r, Ok(CommitOutcome::Committed { sequence: 1 }));
    assert_eq!(t.executed_sequence()[1], ExecutionDigests { transaction: 701, effects: 801 });
}

#[test]
fn object_in_argument_and_collection_is_refused() {
    let mut t = genesis();
    let r = t.record_execution(
        cert(700, vec![1], vec![vec![2, 1]]),
        effects(800, vec![(1, 1)], vec![]),
        vec![obj(1, 2, 50, 12)],
        vec![],
    );
    assert_eq!(r, Err(StoreError::DuplicateObjectRefInput));
    assert!(t.get_certificate(700).is_none());
    assert!(t.get_effects(700).is_none());
    assert!(t.executed_sequence().is_empty());
    assert_eq!(t.get_object(1, 2), None);
    assert_eq!(t.objects().len(), 2);
}

#[test]
fn object_twice_in_one_collection_is_refused() {
    let mut t = genesis();
    let r = t.record_execution(cert(700, vec![], vec![vec![2], vec![2]]), effects(800, vec![], vec![]), vec![], vec![]);
    assert_eq!(r, Err(StoreError::DuplicateObjectRefInput));
    assert!(t.get_effects(700).is_none());
}

#[test]
fn input_version_cannot_be_pruned() {
    let mut t = genesis();
    mutate_one(&mut t, 700, 800).unwrap();
    assert!(!t.prune_object_version(1, 1));
    assert_eq!(t.get_object(1, 1), Some(obj(1, 1, 50, 11)));
    // A version no stored effects read may go.
    assert!(t.prune_object_version(2, 1));
    assert_eq!(t.get_object(2, 1), None);
    assert_eq!(t.get_object(1, 2), Some(obj(1, 2, 50, 12)));
}

#[test]
fn deletion_is_recorded_with_sentinel() {
    let mut t = genesis();
    let gone = ObjectRef { id: 2, version: 2, digest: OBJECT_DIGEST_DELETED };
    let mut e = effects(800, vec![(2, 1)], vec![]);
    e.deleted = vec![gone];
    let r = t.record_execution(cert(700, vec![2], vec![]), e, vec![], vec![((50, 2), None)]);
    assert_eq!(r, Ok(CommitOutcome::Committed { sequence: 0 }));
    assert_eq!(t.parent_sync(), &vec![(gone, 700)]);
    assert_eq!(t.owner_index(), &vec![((50, 2), None)]);
}

#[test]
fn batches_partition_the_sequence() {
    let mut t = genesis();
    mutate_one(&mut t, 700, 800).unwrap();
    let b0 = SignedBatch { initial_sequence_number: 0, next_sequence_number: 1, digest: 5 };
    let gap = SignedBatch { initial_sequence_number: 2, next_sequence_number: 2, digest: 6 };
    let beyond = SignedBatch { initial_sequence_number: 1, next_sequence_number: 3, digest: 7 };
    assert!(!t.insert_batch(gap));
    assert!(t.insert_batch(b0));
    assert!(!t.insert_batch(b0));
    assert!(!t.insert_batch(beyond));
    assert_eq!(t.batches(), &vec![b0]);
}

#[test]
fn latest_history_entry_decides_liveness() {
    let mut t = genesis();
    mutate_one(&mut t, 700, 800).unwrap();
    assert!(t.is_object_live(1));
    assert_eq!(
        t.get_latest_parent_entry(1),
        Some((ObjectRef { id: 1, version: 2, digest: 12 }, 700))
    );
    let gone = ObjectRef { id: 1, version: 3, digest: OBJECT_DIGEST_DELETED };
    let mut e = effects(801, vec![(1, 2)], vec![]);
    e.deleted = vec![gone];
    t.record_execution(cert(701, vec![1], vec![]), e, vec![], vec![((50, 1), None)]).unwrap();
    assert!(!t.is_object_live(1));
    assert_eq!(t.get_latest_parent_entry(1), Some((gone, 701)));
    assert_eq!(t.get_owner_entry(50, 1), None);
    assert!(!t.is_object_live(3));
}

#[test]
fn owner_index_holds_latest_reference() {
    let mut t = genesis();
    mutate_one(&mut t, 700, 800).unwrap();
    assert_eq!(t.get_owner_entry(50, 1), Some(ObjectRef { id: 1, version: 2, digest: 12 }));
    assert_eq!(t.get_owner_entry(51, 1), None);
}

#[test]
fn missing_input_version_is_refused() {
    let mut t = genesis();
    let r = t.record_execution(
        cert(700, vec![1], vec![]),
        effects(800, vec![(1, 9)], vec![]),
        vec![obj(1, 10, 50, 13)],
        vec![],
    );
    assert_eq!(r, Err(StoreError::MissingInputObject));
    assert!(t.get_effects(700).is_none());
    assert!(t.get_certificate(700).is_none());
    assert_eq!(t.get_object(1, 10), None);
    assert!(t.executed_sequence().is_empty());
}

//! Tables valid within one epoch, and the protocol by which the consensus
//! task assigns versions to the shared objects of consensus-ordered
//! certificates.
use vstd::prelude::*;
use crate::table::{
    find_latest, find_latest_pair, lemma_lookup_append_at, lemma_lookup_append_other, lemma_lookup_push,
    lookup,
};
use crate::perpetual::ids_distinct;
use crate::types::{Certificate, ExecutionIndicesWithHash, SharedInput};

verus! {

/// Multiplier of the rolling hash over consensus messages.
pub const ROLLING_HASH_FACTOR: u64 = 1099511628211;

/// The rolling hash after folding in a message whose hash is `m`.
pub open spec fn fold_hash(h: u64, m: u64) -> u64 {
    h.wrapping_mul(ROLLING_HASH_FACTOR).wrapping_add(m)
}

/// The contents of the epoch tables.
pub struct EpochView {
    pub pending_execution: Seq<(u64, u64)>,
    pub next_pending_sequence: u64,
    pub assigned_object_versions: Seq<((u64, u64), u64)>,
    pub next_object_versions: Seq<(u64, u64)>,
    pub consensus_message_processed: Seq<(u64, bool)>,
    pub last_consensus_index: ExecutionIndicesWithHash,
}

/// How a consensus message was taken in.
#[derive(Clone, Copy, Debug, PartialEq, Eq, Structural)]
pub enum ConsensusOutcome {
    /// Versions were assigned to the certificate's shared objects.
    Assigned,
    /// The certificate already had its versions; only the index advanced.
    AlreadyAssigned,
    /// The index was processed before; the message was discarded.
    Redelivered,
}

/// Why a consensus message was refused.
#[derive(Clone, Copy, Debug, PartialEq, Eq, Structural)]
pub enum ConsensusError {
    /// The index is past the next expected one: the feed lost or reordered messages.
    ConsensusIndexMismatch { expected: u64, received: u64 },
    /// The certificate names one shared object more than once.
    DuplicateObjectRefInput,
    /// A shared object's next version would pass the largest version.
    VersionOverflow,
}

/// The version the next certificate touching `o` gets: the counter's value,
/// or the object's initial version when the counter was never set.
pub open spec fn current_next_version(next: Seq<(u64, u64)>, o: SharedInput) -> u64 {
    match lookup(next, o.id) {
        Some(v) => v,
        None => o.initial_version,
    }
}

pub open spec fn distinct_ids(shared: Seq<SharedInput>) -> bool {
    forall|i: int, j: int| 0 <= i < j < shared.len() ==> shared[i].id != shared[j].id
}

/// Every counter of `shared` can advance by one.
pub open spec fn can_advance(next: Seq<(u64, u64)>, shared: Seq<SharedInput>) -> bool {
    forall|i: int| 0 <= i < shared.len() ==> current_next_version(next, shared[i]) < u64::MAX
}

/// The version assignments a certificate with digest `d` gets.
pub open spec fn assignments(next: Seq<(u64, u64)>, d: u64, shared: Seq<SharedInput>) -> Seq<
    ((u64, u64), u64),
> {
    Seq::new(shared.len(), |i: int| ((d, shared[i].id), current_next_version(next, shared[i])))
}

/// The counters after handing out the versions of `assignments`.
pub open spec fn advances(next: Seq<(u64, u64)>, shared: Seq<SharedInput>) -> Seq<(u64, u64)> {
    Seq::new(
        shared.len(),
        |i: int| (shared[i].id, (current_next_version(next, shared[i]) + 1) as u64),
    )
}

/// The epoch tables after the consensus task takes in certificate digest `d`
/// with shared objects `shared` at consensus index `index`, whose message
/// hashes to `h`, and what the task reports.
pub open spec fn consensus_step(
    s: EpochView,
    index: u64,
    d: u64,
    shared: Seq<SharedInput>,
    h: u64,
) -> (EpochView, Result<ConsensusOutcome, ConsensusError>) {
    let last = ExecutionIndicesWithHash { index, hash: fold_hash(s.last_consensus_index.hash, h) };
    if index <= s.last_consensus_index.index {
        (s, Ok(ConsensusOutcome::Redelivered))
    } else if index != s.last_consensus_index.index + 1 {
        (
            s,
            Err(
                ConsensusError::ConsensusIndexMismatch {
                    expected: (s.last_consensus_index.index + 1) as u64,
                    received: index,
                },
            ),
        )
    } else if lookup(s.consensus_message_processed, d) == Some(true) {
        (EpochView { last_consensus_index: last, ..s }, Ok(ConsensusOutcome::AlreadyAssigned))
    } else if !distinct_ids(shared) {
        (s, Err(ConsensusError::DuplicateObjectRefInput))
    } else if !can_advance(s.next_object_versions, shared) {
        (s, Err(ConsensusError::VersionOverflow))
    } else {
        (
            EpochView {
                assigned_object_versions: s.assigned_object_versions + assignments(
                    s.next_object_versions,
                    d,
                    shared,
                ),
                next_object_versions: s.next_object_versions + advances(
                    s.next_object_versions,
                    shared,
                ),
                consensus_message_processed: s.consensus_message_processed.push((d, true)),
                last_consensus_index: last,
                ..s
            },
            Ok(ConsensusOutcome::Assigned),
        )
    }
}

/// The writes of one consensus message, prepared before any of them is
/// applied, so that they reach the tables together or not at all.
pub struct ConsensusBatch {
    pub outcome: ConsensusOutcome,
    pub assignments: Vec<((u64, u64), u64)>,
    pub advances: Vec<(u64, u64)>,
    pub processed: Option<u64>,
    pub last_consensus_index: Option<ExecutionIndicesWithHash>,
}

impl ConsensusBatch {
    /// The epoch tables after this batch is applied to `s`.
    pub open spec fn applied_to(self, s: EpochView) -> EpochView {
        EpochView {
            assigned_object_versions: s.assigned_object_versions + self.assignments@,
            next_object_versions: s.next_object_versions + self.advances@,
            consensus_message_processed: match self.processed {
                Some(d) => s.consensus_message_processed.push((d, true)),
                None => s.consensus_message_processed,
            },
            last_consensus_index: match self.last_consensus_index {
                Some(l) => l,
                None => s.last_consensus_index,
            },
            ..s
        }
    }
}

/// Tables whose contents are valid only within one epoch.
pub struct AuthorityEpochTables {
    pending_execution: Vec<(u64, u64)>,
    next_pending_sequence: u64,
    assigned_object_versions: Vec<((u64, u64), u64)>,
    next_object_versions: Vec<(u64, u64)>,
    consensus_message_processed: Vec<(u64, bool)>,
    last_consensus_index: ExecutionIndicesWithHash,
}

impl View for AuthorityEpochTables {
    type V = EpochView;

    closed spec fn view(&self) -> EpochView {
        EpochView {
            pending_execution: self.pending_execution@,
            next_pending_sequence: self.next_pending_sequence,
            assigned_object_versions: self.assigned_object_versions@,
            next_object_versions: self.next_object_versions@,
            consensus_message_processed: self.consensus_message_processed@,
            last_consensus_index: self.last_consensus_index,
        }
    }
}

/// Whether the shared objects of a certificate are pairwise different.
pub fn shared_ids_distinct(shared: &Vec<SharedInput>) -> (r: bool)
    ensures
        r == distinct_ids(shared@),
{
    let mut ids: Vec<u64> = Vec::new();
    let mut i: usize = 0;
    while i < shared.len()
        invariant
            i <= shared@.len(),
            ids@.len() == i,
            forall|a: int| #![trigger ids@[a]] 0 <= a < i ==> ids@[a] == shared@[a].id,
        decreases shared@.len() - i,
    {
        ids.push(shared[i].id);
        i = i + 1;
    }
    let r = ids_distinct(&ids);
    proof {
        if r {
            assert forall|a: int, b: int| 0 <= a < b < shared@.len() implies shared@[a].id
                != shared@[b].id by {
                assert(ids@[a] != ids@[b]);
            }
        } else {
            let (a, b) = choose|a: int, b: int| 0 <= a < b < ids@.len() && ids@[a] == ids@[b];
            assert(shared@[a].id == shared@[b].id);
        }
    }
    r
}

impl AuthorityEpochTables {
    /// Empty tables at genesis: consensus index 0 and hash 0.
    pub fn open() -> (r: Self)
        ensures
            r@.pending_execution.len() == 0,
            r@.next_pending_sequence == 0,
            r@.assigned_object_versions.len() == 0,
            r@.next_object_versions.len() == 0,
            r@.consensus_message_processed.len() == 0,
            r@.last_consensus_index == (ExecutionIndicesWithHash { index: 0, hash: 0 }),
    {
        AuthorityEpochTables {
            pending_execution: Vec::new(),
            next_pending_sequence: 0,
            assigned_object_versions: Vec::new(),
            next_object_versions: Vec::new(),
            consensus_message_processed: Vec::new(),
            last_consensus_index: ExecutionIndicesWithHash { index: 0, hash: 0 },
        }
    }

    /// Queues certificate `d` for execution under the next internal sequence
    /// number, which it returns; `None`, with nothing written, once the
    /// sequence numbers are used up.
    pub fn enqueue_pending_execution(&mut self, d: u64) -> (r: Option<u64>)
        ensures
            old(self)@.next_pending_sequence < u64::MAX ==> r == Some(old(self)@.next_pending_sequence)
                && final(self)@ == (EpochView {
                    pending_execution: old(self)@.pending_execution.push(
                        (old(self)@.next_pending_sequence, d),
                    ),
                    next_pending_sequence: (old(self)@.next_pending_sequence + 1) as u64,
                    ..old(self)@
                }),
            old(self)@.next_pending_sequence == u64::MAX ==> r is None && final(self)@ == old(
                self,
            )@,
    {
        let seq = self.next_pending_sequence;
        if seq == u64::MAX {
            return None;
        }
        self.pending_execution.push((seq, d));
        self.next_pending_sequence = seq + 1;
        Some(seq)
    }

    /// Drops every pending-execution entry under sequence number `seq`, once
    /// the certificate's effects are written.
    pub fn remove_pending_execution(&mut self, seq: u64)
        ensures
            final(self)@ == (EpochView {
                pending_execution: old(self)@.pending_execution.filter(
                    |e: (u64, u64)| e.0 != seq,
                ),
                ..old(self)@
            }),
    {
        let ghost old_pending = self.pending_execution@;
        let ghost keep = |e: (u64, u64)| e.0 != seq;
        let mut kept: Vec<(u64, u64)> = Vec::new();
        let n = self.pending_execution.len();
        let mut i: usize = 0;
        while i < n
            invariant
                n == old_pending.len(),
                old_pending == self.pending_execution@,
                keep == (|e: (u64, u64)| e.0 != seq),
                i <= n,
                kept@ == old_pending.subrange(0, i as int).filter(keep),
            decreases n - i,
        {
            proof {
                reveal(Seq::filter);
                assert(old_pending.subrange(0, i + 1).drop_last() =~= old_pending.subrange(
                    0,
                    i as int,
                ));
            }
            let e = self.pending_execution[i];
            proof {
                let next = old_pending.subrange(0, i + 1);
                assert(next.last() == e);
                assert(next.filter(keep) == if keep(e) {
                    old_pending.subrange(0, i as int).filter(keep).push(e)
                } else {
                    old_pending.subrange(0, i as int).filter(keep)
                });
            }
            if e.0 != seq {
                kept.push(e);
            }
            i = i + 1;
        }
        assert(old_pending.subrange(0, n as int) =~= old_pending);
        self.pending_execution = kept;
    }

    /// The pending-execution queue, in the order it was filled.
    pub fn pending_execution(&self) -> (r: &Vec<(u64, u64)>)
        ensures
            r@ == self@.pending_execution,
    {
        &self.pending_execution
    }

    /// The shared-object version assignments, in the order they were written.
    pub fn assigned_object_versions(&self) -> (r: &Vec<((u64, u64), u64)>)
        ensures
            r@ == self@.assigned_object_versions,
    {
        &self.assigned_object_versions
    }

    /// The shared-object version counters, in the order they were written.
    pub fn next_object_versions(&self) -> (r: &Vec<(u64, u64)>)
        ensures
            r@ == self@.next_object_versions,
    {
        &self.next_object_versions
    }

    /// The consensus dedup markers, in the order they were written.
    pub fn consensus_message_processed(&self) -> (r: &Vec<(u64, bool)>)
        ensures
            r@ == self@.consensus_message_processed,
    {
        &self.consensus_message_processed
    }

    /// The consensus index to resume from after a restart: the one after the
    /// latest processed, if there is one.
    pub fn next_consensus_index(&self) -> (r: Option<u64>)
        ensures
            self@.last_consensus_index.index < u64::MAX ==> r == Some(
                (self@.last_consensus_index.index + 1) as u64,
            ),
            self@.last_consensus_index.index == u64::MAX ==> r is None,
    {
        let last = self.last_consensus_index.index;
        if last == u64::MAX {
            None
        } else {
            Some(last + 1)
        }
    }

    /// The index and rolling hash of the latest consensus message processed.
    pub fn last_consensus_index(&self) -> (r: ExecutionIndicesWithHash)
        ensures
            r == self@.last_consensus_index,
    {
        self.last_consensus_index
    }

    /// The version assigned to shared object `id` for certificate `d`.
    pub fn assigned_object_version(&self, d: u64, id: u64) -> (r: Option<u64>)
        ensures
            r == lookup(self@.assigned_object_versions, (d, id)),
    {
        match find_latest_pair(&self.assigned_object_versions, (d, id)) {
            Some(i) => Some(self.assigned_object_versions[i].1),
            None => None,
        }
    }

    /// The version the next certificate touching shared object `id` gets,
    /// if the counter was set.
    pub fn next_object_version(&self, id: u64) -> (r: Option<u64>)
        ensures
            r == lookup(self@.next_object_versions, id),
    {
        match find_latest(&self.next_object_versions, id) {
            Some(i) => Some(self.next_object_versions[i].1),
            None => None,
        }
    }

    /// Whether certificate `d` already had its shared-object versions assigned.
    pub fn is_consensus_message_processed(&self, d: u64) -> (r: bool)
        ensures
            r == (lookup(self@.consensus_message_processed, d) == Some(true)),
    {
        match find_latest(&self.consensus_message_processed, d) {
            Some(i) => self.consensus_message_processed[i].1,
            None => false,
        }
    }

    /// The writes that taking in certificate `cert` at consensus index
    /// `index`, with message hash `h`, makes; nothing is written yet.
    pub fn prepare_consensus_batch(&self, index: u64, cert: &Certificate, h: u64) -> (r: Result<
        ConsensusBatch,
        ConsensusError,
    >)
        ensures
            ({
                let (t, res) = consensus_step(self@, index, cert.digest, cert.shared_inputs@, h);
                match r {
                    Ok(b) => res == Ok::<ConsensusOutcome, ConsensusError>(b.outcome)
                        && b.applied_to(self@) == t,
                    Err(e) => res == Err::<ConsensusOutcome, ConsensusError>(e),
                }
            }),
    {
        let last = self.last_consensus_index;
        let d = cert.digest;
        let shared = &cert.shared_inputs;
        let ghost s = self@;
        if index <= last.index {
            let b = ConsensusBatch {
                outcome: ConsensusOutcome::Redelivered,
                assignments: Vec::new(),
                advances: Vec::new(),
                processed: None,
                last_consensus_index: None,
            };
            assert(b.applied_to(s).assigned_object_versions =~= s.assigned_object_versions);
            assert(b.applied_to(s).next_object_versions =~= s.next_object_versions);
            return Ok(b);
        }
        if index != last.index + 1 {
            return Err(
                ConsensusError::ConsensusIndexMismatch { expected: last.index + 1, received: index },
            );
        }
        let new_last = ExecutionIndicesWithHash {
            index,
            hash: last.hash.wrapping_mul(ROLLING_HASH_FACTOR).wrapping_add(h),
        };
        if self.is_consensus_message_processed(d) {
            let b = ConsensusBatch {
                outcome: ConsensusOutcome::AlreadyAssigned,
                assignments: Vec::new(),
                advances: Vec::new(),
                processed: None,
                last_consensus_index: Some(new_last),
            };
            assert(b.applied_to(s).assigned_object_versions =~= s.assigned_object_versions);
            assert(b.applied_to(s).next_object_versions =~= s.next_object_versions);
            return Ok(b);
        }
        if !shared_ids_distinct(shared) {
            return Err(ConsensusError::DuplicateObjectRefInput);
        }
        let n = shared.len();
        let mut assigned: Vec<((u64, u64), u64)> = Vec::new();
        let mut advanced: Vec<(u64, u64)> = Vec::new();
        let mut i: usize = 0;
        while i < n
            invariant
                n == shared@.len(),
                i <= n,
                s == self@,
                d == cert.digest,
                shared@ == cert.shared_inputs@,
                distinct_ids(shared@),
                lookup(s.consensus_message_processed, d) != Some(true),
                index == s.last_consensus_index.index + 1,
                assigned@ =~= assignments(s.next_object_versions, d, shared@).subrange(0, i as int),
                advanced@ =~= advances(s.next_object_versions, shared@).subrange(0, i as int),
                forall|k: int|
                    0 <= k < i ==> current_next_version(s.next_object_versions, shared@[k])
                        < u64::MAX,
            decreases n - i,
        {
            let o = shared[i];
            let v = match self.next_object_version(o.id) {
                Some(v) => v,
                None => o.initial_version,
            };
            if v == u64::MAX {
                assert(current_next_version(s.next_object_versions, shared@[i as int]) == u64::MAX);
                return Err(ConsensusError::VersionOverflow);
            }
            assigned.push(((d, o.id), v));
            advanced.push((o.id, v + 1));
            i = i + 1;
        }
        assert(assignments(s.next_object_versions, d, shared@).subrange(0, n as int)
            =~= assignments(s.next_object_versions, d, shared@));
        assert(advances(s.next_object_versions, shared@).subrange(0, n as int) =~= advances(
            s.next_object_versions,
            shared@,
        ));
        Ok(
            ConsensusBatch {
                outcome: ConsensusOutcome::Assigned,
                assignments: assigned,
                advances: advanced,
                processed: Some(d),
                last_consensus_index: Some(new_last),
            },
        )
    }

    /// Writes every entry of `b`, as one atomic batch.
    pub fn apply_consensus_batch(&mut self, b: ConsensusBatch)
        ensures
            final(self)@ == b.applied_to(old(self)@),
    {
        let mut a = b.assignments;
        let mut n = b.advances;
        self.assigned_object_versions.append(&mut a);
        self.next_object_versions.append(&mut n);
        match b.processed {
            Some(d) => self.consensus_message_processed.push((d, true)),
            None => {},
        }
        match b.last_consensus_index {
            Some(l) => self.last_consensus_index = l,
            None => {},
        }
    }

    /// Takes in certificate `cert` at consensus index `index`, whose message
    /// hashes to `h`: assigns versions to its shared objects, or skips it as
    /// already seen, or refuses it; on refusal nothing is written.
    pub fn handle_consensus_certificate(&mut self, index: u64, cert: &Certificate, h: u64) -> (r:
        Result<ConsensusOutcome, ConsensusError>)
        ensures
            (final(self)@, r) == consensus_step(
                old(self)@,
                index,
                cert.digest,
                cert.shared_inputs@,
                h,
            ),
    {
        match self.prepare_consensus_batch(index, cert, h) {
            Ok(b) => {
                let outcome = b.outcome;
                self.apply_consensus_batch(b);
                Ok(outcome)
            },
            Err(e) => Err(e),
        }
    }
}

} // verus!

verus! {

/// The epoch tables after the consensus task takes in every message of
/// `feed`, in order; a message is `(index, certificate, message hash)`.
pub open spec fn replay(s: EpochView, feed: Seq<(u64, Certificate, u64)>) -> EpochView
    decreases feed.len(),
{
    if feed.len() == 0 {
        s
    } else {
        let (index, cert, h) = feed[0];
        replay(
            consensus_step(s, index, cert.digest, cert.shared_inputs@, h).0,
            feed.drop_first(),
        )
    }
}

/// The tables written by the consensus task agree; the pending-execution
/// queue, which execution drains at its own pace, may differ.
pub open spec fn same_consensus_state(a: EpochView, b: EpochView) -> bool {
    a.assigned_object_versions == b.assigned_object_versions && a.next_object_versions
        == b.next_object_versions && a.consensus_message_processed
        == b.consensus_message_processed && a.last_consensus_index == b.last_consensus_index
}

/// Replaying one consensus feed from two states that agree on the consensus
/// tables gives states that agree on them, whatever execution did meanwhile:
/// every validator assigns the same versions.
pub proof fn lemma_replay_deterministic(
    s1: EpochView,
    s2: EpochView,
    feed: Seq<(u64, Certificate, u64)>,
)
    requires
        same_consensus_state(s1, s2),
    ensures
        same_consensus_state(replay(s1, feed), replay(s2, feed)),
    decreases feed.len(),
{
    if feed.len() > 0 {
        let (index, cert, h) = feed[0];
        let t1 = consensus_step(s1, index, cert.digest, cert.shared_inputs@, h).0;
        let t2 = consensus_step(s2, index, cert.digest, cert.shared_inputs@, h).0;
        assert(same_consensus_state(t1, t2));
        lemma_replay_deterministic(t1, t2, feed.drop_first());
    }
}

/// A message taken in is not taken in again: delivering it a second time is
/// discarded and changes nothing, so each counter advances once.
pub proof fn lemma_redelivery_discarded(
    s: EpochView,
    index: u64,
    d: u64,
    shared: Seq<SharedInput>,
    h: u64,
)
    ensures
        ({
            let (t, r) = consensus_step(s, index, d, shared, h);
            r is Ok ==> consensus_step(t, index, d, shared, h) == (
                t,
                Ok::<ConsensusOutcome, ConsensusError>(ConsensusOutcome::Redelivered),
            )
        }),
{
}

/// A consensus message is taken in whole or not at all: a refused message
/// writes nothing, and whenever assignments or counters were written, the
/// certificate is marked processed and the index has moved to the message.
pub proof fn lemma_consensus_step_atomic(
    s: EpochView,
    index: u64,
    d: u64,
    shared: Seq<SharedInput>,
    h: u64,
)
    ensures
        ({
            let (t, r) = consensus_step(s, index, d, shared, h);
            &&& r is Err ==> t == s
            &&& r == Ok::<ConsensusOutcome, ConsensusError>(ConsensusOutcome::Redelivered) ==> t == s
            &&& (t.assigned_object_versions != s.assigned_object_versions
                || t.next_object_versions != s.next_object_versions) ==> (lookup(
                t.consensus_message_processed,
                d,
            ) == Some(true) && t.last_consensus_index.index == index)
        }),
{
    let (t, r) = consensus_step(s, index, d, shared, h);
    if t.assigned_object_versions != s.assigned_object_versions
        || t.next_object_versions != s.next_object_versions {
        lemma_lookup_push(s.consensus_message_processed, (d, true), d);
    }
}

/// Counters never go down, and after an assignment each shared object's
/// counter is one above the version just handed out to the certificate.
pub proof fn lemma_next_version_monotonic(
    s: EpochView,
    index: u64,
    d: u64,
    shared: Seq<SharedInput>,
    h: u64,
)
    ensures
        ({
            let (t, r) = consensus_step(s, index, d, shared, h);
            &&& forall|id: u64|
                #![trigger lookup(t.next_object_versions, id)]
                lookup(s.next_object_versions, id) is Some ==> lookup(t.next_object_versions, id) is Some
                    && lookup(t.next_object_versions, id)->0 >= lookup(
                    s.next_object_versions,
                    id,
                )->0
            &&& r == Ok::<ConsensusOutcome, ConsensusError>(ConsensusOutcome::Assigned) ==> forall|
                j: int,
            |
                #![trigger shared[j]]
                0 <= j < shared.len() ==> {
                    let v = current_next_version(s.next_object_versions, shared[j]);
                    &&& lookup(t.assigned_object_versions, (d, shared[j].id)) == Some(v)
                    &&& lookup(t.next_object_versions, shared[j].id) == Some((v + 1) as u64)
                    &&& v < lookup(t.next_object_versions, shared[j].id)->0
                }
        }),
{
    let (t, r) = consensus_step(s, index, d, shared, h);
    if r == Ok::<ConsensusOutcome, ConsensusError>(ConsensusOutcome::Assigned) {
        let next = s.next_object_versions;
        let a = assignments(next, d, shared);
        let adv = advances(next, shared);
        assert forall|j: int| #![trigger shared[j]] 0 <= j < shared.len() implies {
            let v = current_next_version(next, shared[j]);
            &&& lookup(t.assigned_object_versions, (d, shared[j].id)) == Some(v)
            &&& lookup(t.next_object_versions, shared[j].id) == Some((v + 1) as u64)
        } by {
            lemma_lookup_append_at(s.assigned_object_versions, a, (d, shared[j].id), j);
            lemma_lookup_append_at(next, adv, shared[j].id, j);
        }
        assert forall|id: u64|
            #![trigger lookup(t.next_object_versions, id)]
            lookup(next, id) is Some implies lookup(t.next_object_versions, id) is Some
                && lookup(t.next_object_versions, id)->0 >= lookup(next, id)->0 by {
            if exists|j: int| 0 <= j < shared.len() && shared[j].id == id {
                let j = choose|j: int| 0 <= j < shared.len() && shared[j].id == id;
                lemma_lookup_append_at(next, adv, id, j);
            } else {
                lemma_lookup_append_other(next, adv, id);
            }
        }
    }
}

} // verus!

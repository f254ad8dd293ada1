//! Tables kept from one epoch to the next: objects, certificates, effects,
//! the owner index, version histories and the executed sequence.
use vstd::prelude::*;
use crate::table::{
    find_latest, find_latest_pair, lemma_lookup_filter_other, lemma_lookup_present, lemma_lookup_push,
    lookup,
};
use crate::types::{
    Certificate, Effects, ExecutionDigests, Object, ObjectRef, SignedBatch, OBJECT_DIGEST_DELETED,
    OBJECT_DIGEST_WRAPPED,
};

verus! {

/// The contents of the perpetual tables.
pub struct PerpetualView {
    pub objects: Seq<((u64, u64), Object)>,
    pub owner_index: Seq<((u64, u64), Option<ObjectRef>)>,
    pub certificates: Seq<(u64, Certificate)>,
    pub parent_sync: Seq<(ObjectRef, u64)>,
    pub effects: Seq<(u64, Effects)>,
    pub executed_sequence: Seq<ExecutionDigests>,
    pub batches: Seq<SignedBatch>,
}

/// Why an execution result was not committed.
#[derive(Clone, Copy, Debug, PartialEq, Eq, Structural)]
pub enum StoreError {
    /// One object id stands more than once among the certificate's direct
    /// and collection arguments.
    DuplicateObjectRefInput,
    /// An object version that the effects read is not stored.
    MissingInputObject,
    /// The executed sequence has no number left.
    SequenceExhausted,
}

/// How a commit of an execution result ended.
#[derive(Clone, Debug, PartialEq, Eq)]
pub enum CommitOutcome {
    /// The result was written under this sequence number.
    Committed { sequence: u64 },
    /// Effects were already stored for the certificate; nothing was
    /// written, and these are the stored effects.
    AlreadyExecuted { effects: Effects },
}

/// `r` is the outcome `expected`, where returned effects need only hold the
/// same contents.
pub open spec fn same_outcome(
    r: Result<CommitOutcome, StoreError>,
    expected: Result<CommitOutcome, StoreError>,
) -> bool {
    match (r, expected) {
        (
            Ok(CommitOutcome::AlreadyExecuted { effects: a }),
            Ok(CommitOutcome::AlreadyExecuted { effects: b }),
        ) => a.same_as(b),
        _ => r == expected,
    }
}

/// Every object version in `inputs` is stored in `objects`.
pub open spec fn inputs_present(
    objects: Seq<((u64, u64), Object)>,
    inputs: Seq<(u64, u64)>,
) -> bool {
    forall|j: int| #![trigger inputs[j]] 0 <= j < inputs.len() ==> lookup(objects, inputs[j]) is Some
}

/// The ids passed inside collection arguments, argument after argument.
pub open spec fn flatten_ids(c: Seq<Vec<u64>>) -> Seq<u64>
    decreases c.len(),
{
    if c.len() == 0 {
        Seq::empty()
    } else {
        flatten_ids(c.drop_last()) + c.last()@
    }
}

/// Every object id a certificate passes, direct arguments first.
pub open spec fn arg_ids(cert: Certificate) -> Seq<u64> {
    cert.direct_args@ + flatten_ids(cert.collection_args@)
}

pub open spec fn seq_distinct(s: Seq<u64>) -> bool {
    forall|i: int, j: int| 0 <= i < j < s.len() ==> s[i] != s[j]
}

impl PerpetualView {
    /// Certificates, effects and the executed sequence pair up one to one,
    /// in commit order and with no digest twice; every object version that
    /// stored effects read is still stored.
    pub open spec fn wf(self) -> bool {
        &&& self.certificates.len() == self.effects.len()
        &&& self.executed_sequence.len() == self.effects.len()
        &&& forall|i: int|
            #![trigger self.effects[i]]
            0 <= i < self.effects.len() ==> {
                &&& self.certificates[i].0 == self.effects[i].0
                &&& self.executed_sequence[i] == (ExecutionDigests {
                    transaction: self.effects[i].0,
                    effects: self.effects[i].1.digest,
                })
            }
        &&& forall|i: int, j: int|
            0 <= i < j < self.effects.len() ==> self.effects[i].0 != self.effects[j].0
        &&& self.inputs_stored()
        &&& batches_partition(self.batches, self.executed_sequence.len())
    }

    /// Every object version read by stored effects is still stored.
    pub open spec fn inputs_stored(self) -> bool {
        forall|i: int, j: int|
            #![trigger self.effects[i].1.inputs@[j]]
            0 <= i < self.effects.len() && 0 <= j < self.effects[i].1.inputs@.len() ==> lookup(
                self.objects,
                self.effects[i].1.inputs@[j],
            ) is Some
    }
}

/// The sequence number the next batch starts at: where the last one ended.
pub open spec fn batch_end(batches: Seq<SignedBatch>) -> u64 {
    if batches.len() == 0 {
        0
    } else {
        batches.last().next_sequence_number
    }
}

/// The batches cover a prefix of an executed sequence of `len` entries, one
/// after another from sequence number 0, with no gap and no overlap.
pub open spec fn batches_partition(batches: Seq<SignedBatch>, len: nat) -> bool {
    &&& forall|i: int|
        #![trigger batches[i]]
        0 <= i < batches.len() ==> batches[i].initial_sequence_number
            <= batches[i].next_sequence_number <= len
    &&& batches.len() > 0 ==> batches[0].initial_sequence_number == 0
    &&& forall|i: int|
        #![trigger batches[i + 1]]
        0 <= i < batches.len() - 1 ==> batches[i + 1].initial_sequence_number
            == batches[i].next_sequence_number
}

/// The latest version-history entry of object `id`, which tells whether it
/// is live, deleted or wrapped.
pub open spec fn latest_parent(s: Seq<(ObjectRef, u64)>, id: u64) -> Option<(ObjectRef, u64)>
    decreases s.len(),
{
    if s.len() == 0 {
        None
    } else if s.last().0.id == id {
        Some(s.last())
    } else {
        latest_parent(s.drop_last(), id)
    }
}

/// Whether some stored effects read object version `k`.
pub open spec fn is_referenced(s: PerpetualView, k: (u64, u64)) -> bool {
    exists|i: int, j: int|
        0 <= i < s.effects.len() && 0 <= j < s.effects[i].1.inputs@.len()
            && s.effects[i].1.inputs@[j] == k
}

/// Entries of the object table for the written versions.
pub open spec fn object_entries(writes: Seq<Object>) -> Seq<((u64, u64), Object)> {
    writes.map_values(|o: Object| (o.key(), o))
}

/// Version-history entries linking each produced reference to transaction `d`.
pub open spec fn parent_entries(refs: Seq<ObjectRef>, d: u64) -> Seq<(ObjectRef, u64)> {
    refs.map_values(|r: ObjectRef| (r, d))
}

/// The perpetual tables after committing certificate `cert`, its effects
/// `e`, the object versions `writes` and owner-index updates `updates`, and
/// what the commit reports.
pub open spec fn commit_step(
    s: PerpetualView,
    cert: Certificate,
    e: Effects,
    writes: Seq<Object>,
    updates: Seq<((u64, u64), Option<ObjectRef>)>,
) -> (PerpetualView, Result<CommitOutcome, StoreError>) {
    let d = cert.digest;
    if lookup(s.effects, d) is Some {
        (s, Ok(CommitOutcome::AlreadyExecuted { effects: lookup(s.effects, d)->0 }))
    } else if !seq_distinct(arg_ids(cert)) {
        (s, Err(StoreError::DuplicateObjectRefInput))
    } else if !inputs_present(s.objects, e.inputs@) {
        (s, Err(StoreError::MissingInputObject))
    } else if s.executed_sequence.len() >= u64::MAX {
        (s, Err(StoreError::SequenceExhausted))
    } else {
        (
            PerpetualView {
                objects: s.objects + object_entries(writes),
                owner_index: s.owner_index + updates,
                certificates: s.certificates.push((d, cert)),
                parent_sync: s.parent_sync + parent_entries(e.all_refs(), d),
                effects: s.effects.push((d, e)),
                executed_sequence: s.executed_sequence.push(
                    ExecutionDigests { transaction: d, effects: e.digest },
                ),
                batches: s.batches,
            },
            Ok(CommitOutcome::Committed { sequence: s.executed_sequence.len() as u64 }),
        )
    }
}

/// Whether the ids in `s` are pairwise different.
pub fn ids_distinct(s: &Vec<u64>) -> (r: bool)
    ensures
        r == seq_distinct(s@),
{
    let n = s.len();
    let mut j: usize = 0;
    while j < n
        invariant
            n == s@.len(),
            j <= n,
            forall|a: int, b: int| 0 <= a < b < j ==> s@[a] != s@[b],
        decreases n - j,
    {
        let mut i: usize = 0;
        while i < j
            invariant
                n == s@.len(),
                i <= j < n,
                forall|a: int| 0 <= a < i ==> s@[a] != s@[j as int],
            decreases j - i,
        {
            if s[i] == s[j] {
                return false;
            }
            i = i + 1;
        }
        j = j + 1;
    }
    true
}

/// Every object id that `cert` passes, direct arguments first, then the
/// contents of each collection argument.
pub fn collect_arg_ids(cert: &Certificate) -> (r: Vec<u64>)
    ensures
        r@ == arg_ids(*cert),
{
    let mut ids: Vec<u64> = Vec::new();
    let mut k: usize = 0;
    while k < cert.direct_args.len()
        invariant
            k <= cert.direct_args@.len(),
            ids@ == cert.direct_args@.subrange(0, k as int),
        decreases cert.direct_args@.len() - k,
    {
        ids.push(cert.direct_args[k]);
        k = k + 1;
    }
    let n = cert.collection_args.len();
    let mut a: usize = 0;
    while a < n
        invariant
            n == cert.collection_args@.len(),
            a <= n,
            ids@ == cert.direct_args@ + flatten_ids(cert.collection_args@.subrange(0, a as int)),
        decreases n - a,
    {
        let arg = &cert.collection_args[a];
        let ghost before = ids@;
        let mut b: usize = 0;
        while b < arg.len()
            invariant
                b <= arg@.len(),
                ids@ == before + arg@.subrange(0, b as int),
            decreases arg@.len() - b,
        {
            ids.push(arg[b]);
            b = b + 1;
        }
        proof {
            let c = cert.collection_args@.subrange(0, a + 1);
            assert(c.drop_last() =~= cert.collection_args@.subrange(0, a as int));
            assert(arg@.subrange(0, arg@.len() as int) =~= arg@);
            assert(ids@ =~= cert.direct_args@ + flatten_ids(c));
        }
        a = a + 1;
    }
    assert(cert.collection_args@.subrange(0, n as int) =~= cert.collection_args@);
    ids
}

/// Whether `cert` passes no object id twice, across its direct and
/// collection arguments.
pub fn has_distinct_object_args(cert: &Certificate) -> (r: bool)
    ensures
        r == seq_distinct(arg_ids(*cert)),
{
    let ids = collect_arg_ids(cert);
    ids_distinct(&ids)
}

/// Tables whose contents are kept from one epoch to the next.
pub struct AuthorityPerpetualTables {
    objects: Vec<((u64, u64), Object)>,
    owner_index: Vec<((u64, u64), Option<ObjectRef>)>,
    certificates: Vec<(u64, Certificate)>,
    parent_sync: Vec<(ObjectRef, u64)>,
    effects: Vec<(u64, Effects)>,
    executed_sequence: Vec<ExecutionDigests>,
    batches: Vec<SignedBatch>,
}

impl View for AuthorityPerpetualTables {
    type V = PerpetualView;

    closed spec fn view(&self) -> PerpetualView {
        PerpetualView {
            objects: self.objects@,
            owner_index: self.owner_index@,
            certificates: self.certificates@,
            parent_sync: self.parent_sync@,
            effects: self.effects@,
            executed_sequence: self.executed_sequence@,
            batches: self.batches@,
        }
    }
}

/// Appends one version-history entry per reference of `refs`, each linked to
/// transaction `d`.
fn append_parents(parents: &mut Vec<(ObjectRef, u64)>, refs: &Vec<ObjectRef>, d: u64)
    ensures
        final(parents)@ == old(parents)@ + parent_entries(refs@, d),
{
    let ghost start = parents@;
    let mut i: usize = 0;
    while i < refs.len()
        invariant
            i <= refs@.len(),
            parents@ == start + parent_entries(refs@.subrange(0, i as int), d),
        decreases refs@.len() - i,
    {
        parents.push((refs[i], d));
        proof {
            assert(parent_entries(refs@.subrange(0, i + 1), d) =~= parent_entries(
                refs@.subrange(0, i as int),
                d,
            ).push((refs@[i as int], d)));
        }
        i = i + 1;
    }
    assert(refs@.subrange(0, refs@.len() as int) =~= refs@);
}

impl AuthorityPerpetualTables {
    /// Empty tables.
    pub fn open() -> (r: Self)
        ensures
            r@.wf(),
            r@.objects.len() == 0,
            r@.owner_index.len() == 0,
            r@.certificates.len() == 0,
            r@.parent_sync.len() == 0,
            r@.effects.len() == 0,
            r@.executed_sequence.len() == 0,
            r@.batches.len() == 0,
    {
        AuthorityPerpetualTables {
            objects: Vec::new(),
            owner_index: Vec::new(),
            certificates: Vec::new(),
            parent_sync: Vec::new(),
            effects: Vec::new(),
            executed_sequence: Vec::new(),
            batches: Vec::new(),
        }
    }

    /// The stored object version `(id, version)`.
    pub fn get_object(&self, id: u64, version: u64) -> (r: Option<Object>)
        ensures
            r == lookup(self@.objects, (id, version)),
    {
        match find_latest_pair(&self.objects, (id, version)) {
            Some(i) => Some(self.objects[i].1),
            None => None,
        }
    }

    /// The stored effects of certificate `d`.
    pub fn get_effects(&self, d: u64) -> (r: Option<&Effects>)
        ensures
            match r {
                Some(x) => lookup(self@.effects, d) == Some(*x),
                None => lookup(self@.effects, d) is None,
            },
    {
        match find_latest(&self.effects, d) {
            Some(i) => Some(&self.effects[i].1),
            None => None,
        }
    }

    /// The stored certificate `d`.
    pub fn get_certificate(&self, d: u64) -> (r: Option<&Certificate>)
        ensures
            match r {
                Some(x) => lookup(self@.certificates, d) == Some(*x),
                None => lookup(self@.certificates, d) is None,
            },
    {
        match find_latest(&self.certificates, d) {
            Some(i) => Some(&self.certificates[i].1),
            None => None,
        }
    }

    /// The digests of the executed certificates, by sequence number.
    pub fn executed_sequence(&self) -> (r: &Vec<ExecutionDigests>)
        ensures
            r@ == self@.executed_sequence,
    {
        &self.executed_sequence
    }

    /// The object table, in the order it was written.
    pub fn objects(&self) -> (r: &Vec<((u64, u64), Object)>)
        ensures
            r@ == self@.objects,
    {
        &self.objects
    }

    /// The owner index, in the order it was written.
    pub fn owner_index(&self) -> (r: &Vec<((u64, u64), Option<ObjectRef>)>)
        ensures
            r@ == self@.owner_index,
    {
        &self.owner_index
    }

    /// The certificate table, in the order it was written.
    pub fn certificates(&self) -> (r: &Vec<(u64, Certificate)>)
        ensures
            r@ == self@.certificates,
    {
        &self.certificates
    }

    /// The version histories, in the order they were written.
    pub fn parent_sync(&self) -> (r: &Vec<(ObjectRef, u64)>)
        ensures
            r@ == self@.parent_sync,
    {
        &self.parent_sync
    }

    /// The effects table, in the order it was written.
    pub fn effects(&self) -> (r: &Vec<(u64, Effects)>)
        ensures
            r@ == self@.effects,
    {
        &self.effects
    }

    /// The batches, in the order they were written.
    pub fn batches(&self) -> (r: &Vec<SignedBatch>)
        ensures
            r@ == self@.batches,
    {
        &self.batches
    }

    /// The latest version-history entry of object `id`: its newest
    /// reference, with the transaction that produced it.
    pub fn get_latest_parent_entry(&self, id: u64) -> (r: Option<(ObjectRef, u64)>)
        ensures
            r == latest_parent(self@.parent_sync, id),
    {
        let s = &self.parent_sync;
        let mut i: usize = s.len();
        assert(s@.subrange(0, i as int) =~= s@);
        while i > 0
            invariant
                i <= s@.len(),
                s@ == self@.parent_sync,
                latest_parent(s@, id) == latest_parent(s@.subrange(0, i as int), id),
            decreases i,
        {
            assert(s@.subrange(0, i as int).drop_last() =~= s@.subrange(0, i - 1));
            if s[i - 1].0.id == id {
                return Some(s[i - 1]);
            }
            i = i - 1;
        }
        None
    }

    /// Whether object `id` exists now: its latest version-history entry
    /// marks neither a deletion nor a wrap.
    pub fn is_object_live(&self, id: u64) -> (r: bool)
        ensures
            r == match latest_parent(self@.parent_sync, id) {
                Some(e) => e.0.digest != OBJECT_DIGEST_DELETED && e.0.digest
                    != OBJECT_DIGEST_WRAPPED,
                None => false,
            },
    {
        match self.get_latest_parent_entry(id) {
            Some(e) => e.0.digest != OBJECT_DIGEST_DELETED && e.0.digest != OBJECT_DIGEST_WRAPPED,
            None => false,
        }
    }

    /// The reference the owner index holds for object `id` of `owner`.
    pub fn get_owner_entry(&self, owner: u64, id: u64) -> (r: Option<ObjectRef>)
        ensures
            r == match lookup(self@.owner_index, (owner, id)) {
                Some(e) => e,
                None => None,
            },
    {
        match find_latest_pair(&self.owner_index, (owner, id)) {
            Some(i) => self.owner_index[i].1,
            None => None,
        }
    }

    /// Records batch `b` when it starts where the last batch ended and ends
    /// within the executed sequence; returns whether it was recorded.
    pub fn insert_batch(&mut self, b: SignedBatch) -> (r: bool)
        requires
            old(self)@.wf(),
        ensures
            final(self)@.wf(),
            r == (b.initial_sequence_number == batch_end(old(self)@.batches)
                && b.initial_sequence_number <= b.next_sequence_number
                && b.next_sequence_number <= old(self)@.executed_sequence.len()),
            r ==> final(self)@ == (PerpetualView {
                batches: old(self)@.batches.push(b),
                ..old(self)@
            }),
            !r ==> final(self)@ == old(self)@,
    {
        let end = match self.batches.len() {
            0 => 0,
            n => self.batches[n - 1].next_sequence_number,
        };
        if b.initial_sequence_number != end || b.initial_sequence_number > b.next_sequence_number
            || b.next_sequence_number > self.executed_sequence.len() as u64 {
            return false;
        }
        let ghost s = self@;
        self.batches.push(b);
        proof {
            let t = self@;
            assert forall|i: int| #![trigger t.batches[i]] 0 <= i < t.batches.len() implies t.batches[i].initial_sequence_number
                <= t.batches[i].next_sequence_number <= t.executed_sequence.len() by {
                if i < s.batches.len() {
                    assert(t.batches[i] == s.batches[i]);
                }
            }
            assert forall|i: int| #![trigger t.batches[i + 1]] 0 <= i < t.batches.len() - 1 implies t.batches[i + 1].initial_sequence_number
                == t.batches[i].next_sequence_number by {
                if i + 1 < s.batches.len() {
                    assert(s.batches[i + 1] == t.batches[i + 1]);
                    assert(s.batches[i] == t.batches[i]);
                }
            }
        }
        true
    }

    /// Stores object version `o`, as genesis does.
    pub fn insert_object(&mut self, o: Object)
        requires
            old(self)@.wf(),
        ensures
            final(self)@.wf(),
            final(self)@ == (PerpetualView {
                objects: old(self)@.objects.push((o.key(), o)),
                ..old(self)@
            }),
    {
        let ghost s = self@;
        self.objects.push(((o.id, o.version), o));
        assert forall|i: int, j: int|
            #![trigger self@.effects[i].1.inputs@[j]]
            0 <= i < self@.effects.len() && 0 <= j < self@.effects[i].1.inputs@.len() implies lookup(
                self@.objects,
                self@.effects[i].1.inputs@[j],
            ) is Some by {
            lemma_lookup_push(s.objects, (o.key(), o), s.effects[i].1.inputs@[j]);
        }
    }

    /// Removes object version `(id, version)` from the object table, unless
    /// some stored effects read it; returns whether it was removed.
    pub fn prune_object_version(&mut self, id: u64, version: u64) -> (r: bool)
        requires
            old(self)@.wf(),
        ensures
            final(self)@.wf(),
            r == !is_referenced(old(self)@, (id, version)),
            r ==> final(self)@ == (PerpetualView {
                objects: old(self)@.objects.filter(|e: ((u64, u64), Object)| e.0 != (id, version)),
                ..old(self)@
            }),
            !r ==> final(self)@ == old(self)@,
    {
        let ghost s = self@;
        let k = (id, version);
        let n = self.effects.len();
        let mut i: usize = 0;
        while i < n
            invariant
                n == s.effects.len(),
                s == self@,
                s.wf(),
                k == (id, version),
                i <= n,
                forall|a: int, j: int|
                    0 <= a < i && 0 <= j < s.effects[a].1.inputs@.len() ==> s.effects[a].1.inputs@[j]
                        != k,
            decreases n - i,
        {
            let inputs = &self.effects[i].1.inputs;
            let mut j: usize = 0;
            while j < inputs.len()
                invariant
                    i < n,
                    n == s.effects.len(),
                    s == self@,
                    s.wf(),
                    k == (id, version),
                    inputs@ == s.effects[i as int].1.inputs@,
                    j <= inputs@.len(),
                    forall|b: int| 0 <= b < j ==> inputs@[b] != k,
                decreases inputs@.len() - j,
            {
                let x = inputs[j];
                if x.0 == id && x.1 == version {
                    assert(s.effects[i as int].1.inputs@[j as int] == k);
                    return false;
                }
                j = j + 1;
            }
            i = i + 1;
        }
        let ghost keep = |e: ((u64, u64), Object)| e.0 != k;
        let mut kept: Vec<((u64, u64), Object)> = Vec::new();
        let m = self.objects.len();
        let mut p: usize = 0;
        while p < m
            invariant
                m == s.objects.len(),
                s == self@,
                k == (id, version),
                keep == (|e: ((u64, u64), Object)| e.0 != k),
                p <= m,
                kept@ == s.objects.subrange(0, p as int).filter(keep),
            decreases m - p,
        {
            let e = self.objects[p];
            proof {
                reveal(Seq::filter);
                assert(s.objects.subrange(0, p + 1).drop_last() =~= s.objects.subrange(
                    0,
                    p as int,
                ));
                let next = s.objects.subrange(0, p + 1);
                assert(next.last() == e);
                assert(next.filter(keep) == if keep(e) {
                    s.objects.subrange(0, p as int).filter(keep).push(e)
                } else {
                    s.objects.subrange(0, p as int).filter(keep)
                });
            }
            if !(e.0.0 == id && e.0.1 == version) {
                kept.push(e);
            }
            p = p + 1;
        }
        assert(s.objects.subrange(0, m as int) =~= s.objects);
        self.objects = kept;
        proof {
            let t = self@;
            assert forall|a: int, j: int|
                #![trigger t.effects[a].1.inputs@[j]]
                0 <= a < t.effects.len() && 0 <= j < t.effects[a].1.inputs@.len() implies lookup(
                t.objects,
                t.effects[a].1.inputs@[j],
            ) is Some by {
                let k2 = s.effects[a].1.inputs@[j];
                assert(k2 != k);
                assert(lookup(s.objects, k2) is Some);
                lemma_lookup_filter_other(s.objects, keep, k, k2);
                assert(t.effects[a] == s.effects[a]);
            }
        }
        true
    }

    /// Whether every object version in `inputs` is stored.
    pub fn has_inputs(&self, inputs: &Vec<(u64, u64)>) -> (r: bool)
        ensures
            r == inputs_present(self@.objects, inputs@),
    {
        let mut j: usize = 0;
        while j < inputs.len()
            invariant
                j <= inputs@.len(),
                forall|a: int| #![trigger inputs@[a]] 0 <= a < j ==> lookup(self@.objects, inputs@[a]) is Some,
            decreases inputs@.len() - j,
        {
            if find_latest_pair(&self.objects, inputs[j]).is_none() {
                return false;
            }
            j = j + 1;
        }
        true
    }

    /// Commits the result of executing `cert` in one atomic write: its
    /// effects `e`, the object versions `writes` and the owner-index updates
    /// `updates`, under the next sequence number. When effects are already
    /// stored for the certificate nothing is written; a certificate that
    /// passes one object twice is refused before anything is written.
    pub fn record_execution(
        &mut self,
        cert: Certificate,
        e: Effects,
        writes: Vec<Object>,
        updates: Vec<((u64, u64), Option<ObjectRef>)>,
    ) -> (r: Result<CommitOutcome, StoreError>)
        requires
            old(self)@.wf(),
        ensures
            final(self)@.wf(),
            final(self)@ == commit_step(old(self)@, cert, e, writes@, updates@).0,
            same_outcome(r, commit_step(old(self)@, cert, e, writes@, updates@).1),
    {
        let d = cert.digest;
        match find_latest(&self.effects, d) {
            Some(i) => {
                return Ok(CommitOutcome::AlreadyExecuted { effects: self.effects[i].1.copy() });
            },
            None => {},
        }
        if !has_distinct_object_args(&cert) {
            return Err(StoreError::DuplicateObjectRefInput);
        }
        if !self.has_inputs(&e.inputs) {
            return Err(StoreError::MissingInputObject);
        }
        let seq = self.executed_sequence.len();
        if seq as u64 == u64::MAX {
            return Err(StoreError::SequenceExhausted);
        }
        let ghost s = self@;
        let mut i: usize = 0;
        while i < writes.len()
            invariant
                i <= writes@.len(),
                self@ == (PerpetualView {
                    objects: s.objects + object_entries(writes@.subrange(0, i as int)),
                    ..s
                }),
                forall|k: (u64, u64)|
                    #![trigger lookup(self@.objects, k)]
                    lookup(s.objects, k) is Some ==> lookup(self@.objects, k) is Some,
            decreases writes@.len() - i,
        {
            let o = writes[i];
            let ghost before = self@.objects;
            self.objects.push(((o.id, o.version), o));
            proof {
                assert(object_entries(writes@.subrange(0, i + 1)) =~= object_entries(
                    writes@.subrange(0, i as int),
                ).push((o.key(), o)));
                assert forall|k: (u64, u64)|
                    #![trigger lookup(self@.objects, k)]
                    lookup(s.objects, k) is Some implies lookup(self@.objects, k) is Some by {
                    lemma_lookup_push(before, (o.key(), o), k);
                }
            }
            i = i + 1;
        }
        assert(writes@.subrange(0, writes@.len() as int) =~= writes@);
        let ghost written = self@.objects;
        let mut u = updates;
        self.owner_index.append(&mut u);
        append_parents(&mut self.parent_sync, &e.created, d);
        append_parents(&mut self.parent_sync, &e.mutated, d);
        append_parents(&mut self.parent_sync, &e.unwrapped, d);
        append_parents(&mut self.parent_sync, &e.deleted, d);
        append_parents(&mut self.parent_sync, &e.wrapped, d);
        proof {
            assert(self@.parent_sync =~= s.parent_sync + parent_entries(e.all_refs(), d));
        }
        let digests = ExecutionDigests { transaction: d, effects: e.digest };
        self.certificates.push((d, cert));
        self.effects.push((d, e));
        self.executed_sequence.push(digests);
        proof {
            let t = self@;
            assert forall|a: int, b: int| 0 <= a < b < t.effects.len() implies t.effects[a].0
                != t.effects[b].0 by {
                if b == t.effects.len() - 1 {
                    lemma_lookup_present(s.effects, t.effects[a].0, a);
                }
            }
            assert forall|a: int, j: int|
                #![trigger t.effects[a].1.inputs@[j]]
                0 <= a < t.effects.len() && 0 <= j < t.effects[a].1.inputs@.len() implies lookup(
                t.objects,
                t.effects[a].1.inputs@[j],
            ) is Some by {
                let k = t.effects[a].1.inputs@[j];
                if a < s.effects.len() {
                    assert(t.effects[a] == s.effects[a]);
                    assert(lookup(s.objects, s.effects[a].1.inputs@[j]) is Some);
                } else {
                    assert(lookup(s.objects, e.inputs@[j]) is Some);
                }
                assert(t.objects == written);
                assert(lookup(written, k) is Some);
            }
        }
        Ok(CommitOutcome::Committed { sequence: seq as u64 })
    }
}

} // verus!

verus! {

/// Committing the execution of one certificate twice writes once: the
/// second commit changes nothing and hands back the effects the first
/// stored (or found stored), and the executed sequence grows by at most
/// one entry over both.
pub proof fn lemma_commit_idempotent(
    s: PerpetualView,
    cert: Certificate,
    e1: Effects,
    writes1: Seq<Object>,
    updates1: Seq<((u64, u64), Option<ObjectRef>)>,
    e2: Effects,
    writes2: Seq<Object>,
    updates2: Seq<((u64, u64), Option<ObjectRef>)>,
)
    ensures
        ({
            let (t, r) = commit_step(s, cert, e1, writes1, updates1);
            r is Ok ==> {
                &&& commit_step(t, cert, e2, writes2, updates2) == (
                    t,
                    Ok::<CommitOutcome, StoreError>(
                        CommitOutcome::AlreadyExecuted { effects: lookup(t.effects, cert.digest)->0 },
                    ),
                )
                &&& lookup(t.effects, cert.digest) == if lookup(s.effects, cert.digest) is Some {
                    lookup(s.effects, cert.digest)
                } else {
                    Some(e1)
                }
                &&& t.executed_sequence.len() <= s.executed_sequence.len() + 1
            }
        }),
{
    let (t, r) = commit_step(s, cert, e1, writes1, updates1);
    if r is Ok && lookup(s.effects, cert.digest) is None {
        lemma_lookup_push(s.effects, (cert.digest, e1), cert.digest);
    }
}

/// Once effects are stored for a certificate, committing it again writes
/// nothing and hands back the stored effects: the certificate needs no
/// second execution.
pub proof fn lemma_stored_effects_kept(
    s: PerpetualView,
    cert: Certificate,
    e: Effects,
    writes: Seq<Object>,
    updates: Seq<((u64, u64), Option<ObjectRef>)>,
)
    requires
        lookup(s.effects, cert.digest) is Some,
    ensures
        commit_step(s, cert, e, writes, updates) == (
            s,
            Ok::<CommitOutcome, StoreError>(
                CommitOutcome::AlreadyExecuted { effects: lookup(s.effects, cert.digest)->0 },
            ),
        ),
{
}

/// A certificate that passes one object id twice, across its direct and
/// collection arguments, is refused with nothing written, so neither its
/// certificate nor its effects are stored.
pub proof fn lemma_duplicate_args_refused(
    s: PerpetualView,
    cert: Certificate,
    e: Effects,
    writes: Seq<Object>,
    updates: Seq<((u64, u64), Option<ObjectRef>)>,
    i: int,
    j: int,
)
    requires
        lookup(s.effects, cert.digest) is None,
        0 <= i < j < arg_ids(cert).len(),
        arg_ids(cert)[i] == arg_ids(cert)[j],
    ensures
        commit_step(s, cert, e, writes, updates) == (
            s,
            Err::<CommitOutcome, StoreError>(StoreError::DuplicateObjectRefInput),
        ),
{
}

/// No object version read by stored effects is ever missing from the
/// object table of well-formed tables, which every operation keeps.
pub proof fn lemma_inputs_never_pruned(s: PerpetualView, i: int, j: int)
    requires
        s.wf(),
        0 <= i < s.effects.len(),
        0 <= j < s.effects[i].1.inputs@.len(),
    ensures
        lookup(s.objects, s.effects[i].1.inputs@[j]) is Some,
{
}

} // verus!

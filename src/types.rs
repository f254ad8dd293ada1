//! The values held by the validator's tables.
use vstd::prelude::*;

verus! {

/// Digest that a version history records for an object that was deleted.
pub const OBJECT_DIGEST_DELETED: u64 = 0;

/// Digest that a version history records for an object that was wrapped
/// into another object.
pub const OBJECT_DIGEST_WRAPPED: u64 = 1;

/// Identity, version and content digest of one object version.
#[derive(Clone, Copy, Debug, PartialEq, Eq, Structural)]
pub struct ObjectRef {
    pub id: u64,
    pub version: u64,
    pub digest: u64,
}

/// One stored version of an object.
#[derive(Clone, Copy, Debug, PartialEq, Eq, Structural)]
pub struct Object {
    pub id: u64,
    pub version: u64,
    pub owner: u64,
    pub digest: u64,
}

impl Object {
    /// The key under which this version is stored: `(id, version)`.
    pub open spec fn key(self) -> (u64, u64) {
        (self.id, self.version)
    }

    pub fn object_ref(&self) -> (r: ObjectRef)
        ensures
            r == (ObjectRef { id: self.id, version: self.version, digest: self.digest }),
    {
        ObjectRef { id: self.id, version: self.version, digest: self.digest }
    }
}

/// A shared object read by a certificate, with the version it had when it
/// was first shared.
#[derive(Clone, Copy, Debug, PartialEq, Eq, Structural)]
pub struct SharedInput {
    pub id: u64,
    pub initial_version: u64,
}

/// A certified transaction: its digest and the objects it takes.
#[derive(Clone, Debug, PartialEq, Eq)]
pub struct Certificate {
    pub digest: u64,
    /// Object ids passed as direct arguments.
    pub direct_args: Vec<u64>,
    /// Object ids passed inside collection (vector) arguments, one list per argument.
    pub collection_args: Vec<Vec<u64>>,
    /// Shared objects whose versions consensus assigns.
    pub shared_inputs: Vec<SharedInput>,
}

/// The output of executing a certificate.
#[derive(Clone, Debug, PartialEq, Eq)]
pub struct Effects {
    /// Digest of these effects.
    pub digest: u64,
    pub success: bool,
    /// The `(id, version)` keys of the object versions the execution read.
    pub inputs: Vec<(u64, u64)>,
    pub created: Vec<ObjectRef>,
    pub mutated: Vec<ObjectRef>,
    pub unwrapped: Vec<ObjectRef>,
    /// Deleted objects, each with the deletion sentinel digest.
    pub deleted: Vec<ObjectRef>,
    /// Wrapped objects, each with the wrap sentinel digest.
    pub wrapped: Vec<ObjectRef>,
}

impl Effects {
    /// `self` and `other` hold the same digest, status and object sets.
    pub open spec fn same_as(self, other: Effects) -> bool {
        &&& self.digest == other.digest
        &&& self.success == other.success
        &&& self.inputs@ == other.inputs@
        &&& self.created@ == other.created@
        &&& self.mutated@ == other.mutated@
        &&& self.unwrapped@ == other.unwrapped@
        &&& self.deleted@ == other.deleted@
        &&& self.wrapped@ == other.wrapped@
    }

    /// Every object reference these effects produce, in the order the
    /// version history records them.
    pub open spec fn all_refs(self) -> Seq<ObjectRef> {
        self.created@ + self.mutated@ + self.unwrapped@ + self.deleted@ + self.wrapped@
    }
}

fn copy_vec<T: Copy>(v: &Vec<T>) -> (r: Vec<T>)
    ensures
        r@ == v@,
{
    let mut r: Vec<T> = Vec::new();
    let mut i: usize = 0;
    while i < v.len()
        invariant
            i <= v@.len(),
            r@ == v@.subrange(0, i as int),
        decreases v@.len() - i,
    {
        r.push(v[i]);
        assert(v@.subrange(0, i + 1) =~= v@.subrange(0, i as int).push(v@[i as int]));
        i = i + 1;
    }
    assert(v@.subrange(0, v@.len() as int) =~= v@);
    r
}

impl Effects {
    /// A copy of these effects.
    pub fn copy(&self) -> (r: Effects)
        ensures
            r.same_as(*self),
    {
        Effects {
            digest: self.digest,
            success: self.success,
            inputs: copy_vec(&self.inputs),
            created: copy_vec(&self.created),
            mutated: copy_vec(&self.mutated),
            unwrapped: copy_vec(&self.unwrapped),
            deleted: copy_vec(&self.deleted),
            wrapped: copy_vec(&self.wrapped),
        }
    }
}

/// The transaction and effects digests of one executed certificate.
#[derive(Clone, Copy, Debug, PartialEq, Eq, Structural)]
pub struct ExecutionDigests {
    pub transaction: u64,
    pub effects: u64,
}

/// A signed range `[initial_sequence_number, next_sequence_number)` of the
/// executed sequence.
#[derive(Clone, Copy, Debug, PartialEq, Eq, Structural)]
pub struct SignedBatch {
    pub initial_sequence_number: u64,
    pub next_sequence_number: u64,
    pub digest: u64,
}

/// The index of the latest consensus message processed, and a rolling hash
/// of every message processed so far.
#[derive(Clone, Copy, Debug, PartialEq, Eq, Structural)]
pub struct ExecutionIndicesWithHash {
    pub index: u64,
    pub hash: u64,
}

impl Default for ExecutionIndicesWithHash {
    /// The genesis value: index 0 and hash 0.
    fn default() -> (r: Self)
        ensures
            r == (ExecutionIndicesWithHash { index: 0, hash: 0 }),
    {
        ExecutionIndicesWithHash { index: 0, hash: 0 }
    }
}

} // verus!

//! Read-only, paginated inspection of every table of the validator's stores.
use vstd::prelude::*;
use crate::epoch::{AuthorityEpochTables, EpochView};
use crate::current::{current_rows, entry_view, key_lt, rows_view, upsert, KeyLog};
use crate::epoch::{
    consensus_step, current_next_version, lemma_next_version_monotonic, lemma_redelivery_discarded,
    ConsensusError, ConsensusOutcome,
};
use crate::table::{lemma_lookup_map, lookup};
use crate::perpetual::{AuthorityPerpetualTables, PerpetualView};
use crate::types::{Certificate, Effects, ObjectRef, SharedInput};

verus! {

/// The stores an operator can name.
#[derive(Clone, Copy, Debug, PartialEq, Eq, Structural)]
pub enum StoreName {
    Validator,
    Gateway,
    Index,
    LocksService,
    NodeSync,
    Checkpoints,
    Wal,
    Epoch,
}

/// Every table of the epoch and perpetual stores.
#[derive(Clone, Copy, Debug, PartialEq, Eq, Structural)]
pub enum TableName {
    PendingExecution,
    AssignedObjectVersions,
    NextObjectVersions,
    ConsensusMessageProcessed,
    LastConsensusIndex,
    Objects,
    OwnerIndex,
    Certificates,
    ParentSync,
    Effects,
    ExecutedSequence,
    Batches,
}

/// Why a dump was refused.
#[derive(Clone, Copy, Debug, PartialEq, Eq, Structural)]
pub enum DumpError {
    /// No table of the store has this name.
    UnknownTable,
    /// The store's tables are not held by this library.
    UnsupportedStore,
}

/// The text of a store's name.
pub open spec fn store_name_text(s: StoreName) -> Seq<char> {
    match s {
        StoreName::Validator => "Validator"@,
        StoreName::Gateway => "Gateway"@,
        StoreName::Index => "Index"@,
        StoreName::LocksService => "LocksService"@,
        StoreName::NodeSync => "NodeSync"@,
        StoreName::Checkpoints => "Checkpoints"@,
        StoreName::Wal => "Wal"@,
        StoreName::Epoch => "Epoch"@,
    }
}

/// The name a table is registered under.
pub open spec fn table_name_text(t: TableName) -> Seq<char> {
    match t {
        TableName::PendingExecution => "pending_execution"@,
        TableName::AssignedObjectVersions => "assigned_object_versions"@,
        TableName::NextObjectVersions => "next_object_versions"@,
        TableName::ConsensusMessageProcessed => "consensus_message_processed"@,
        TableName::LastConsensusIndex => "last_consensus_index"@,
        TableName::Objects => "objects"@,
        TableName::OwnerIndex => "owner_index"@,
        TableName::Certificates => "certificates"@,
        TableName::ParentSync => "parent_sync"@,
        TableName::Effects => "effects"@,
        TableName::ExecutedSequence => "executed_sequence"@,
        TableName::Batches => "batches"@,
    }
}

/// Whether table `t` belongs to the epoch store, rather than the perpetual one.
pub open spec fn is_epoch_table(t: TableName) -> bool {
    match t {
        TableName::PendingExecution | TableName::AssignedObjectVersions
        | TableName::NextObjectVersions | TableName::ConsensusMessageProcessed
        | TableName::LastConsensusIndex => true,
        _ => false,
    }
}

/// The decimal digits of `n`, most significant first.
pub open spec fn decimal(n: nat) -> Seq<char>
    decreases n,
{
    let d = ((n % 10) + 48) as u8 as char;
    if n < 10 {
        seq![d]
    } else {
        decimal(n / 10).push(d)
    }
}

/// The integers of `s` in decimal, separated by `, `.
pub open spec fn joined_decimals(s: Seq<u64>) -> Seq<char>
    decreases s.len(),
{
    if s.len() == 0 {
        Seq::empty()
    } else if s.len() == 1 {
        decimal(s[0] as nat)
    } else {
        joined_decimals(s.drop_last()) + seq![',', ' '] + decimal(s.last() as nat)
    }
}

/// The text std's `Debug` formatting gives a list of integers: the
/// integers in decimal, separated by `, `, within brackets.
pub open spec fn debug_text(s: Seq<u64>) -> Seq<char> {
    seq!['['] + joined_decimals(s) + seq![']']
}

/// Relies on `format!("{:?}", ..)` of std, that is `Debug` of `Vec<u64>`:
/// renders a list of integers as text.
#[verifier::external_body]
fn render_fields(fields: &Vec<u64>) -> (r: String)
    ensures
        r@ == debug_text(fields@),
{
    format!("{:?}", fields)
}

/// Whether `a` and `b` hold the same text.
fn same_text(a: &str, b: &str) -> (r: bool)
    ensures
        r == (a@ == b@),
{
    let x = a.to_owned();
    let y = b.to_owned();
    x == y
}

impl StoreName {
    /// The store's name as text.
    pub fn as_str(&self) -> (r: &'static str)
        ensures
            r@ == store_name_text(*self),
    {
        match self {
            StoreName::Validator => "Validator",
            StoreName::Gateway => "Gateway",
            StoreName::Index => "Index",
            StoreName::LocksService => "LocksService",
            StoreName::NodeSync => "NodeSync",
            StoreName::Checkpoints => "Checkpoints",
            StoreName::Wal => "Wal",
            StoreName::Epoch => "Epoch",
        }
    }

    /// The store named `name`, if any.
    pub fn from_name(name: &str) -> (r: Option<StoreName>)
        ensures
            match r {
                Some(s) => name@ == store_name_text(s),
                None => forall|s: StoreName| name@ != store_name_text(s),
            },
    {
        let all = [
            StoreName::Validator,
            StoreName::Gateway,
            StoreName::Index,
            StoreName::LocksService,
            StoreName::NodeSync,
            StoreName::Checkpoints,
            StoreName::Wal,
            StoreName::Epoch,
        ];
        let mut i: usize = 0;
        while i < 8
            invariant
                all@ == seq![
                    StoreName::Validator,
                    StoreName::Gateway,
                    StoreName::Index,
                    StoreName::LocksService,
                    StoreName::NodeSync,
                    StoreName::Checkpoints,
                    StoreName::Wal,
                    StoreName::Epoch,
                ],
                i <= 8,
                forall|k: int| 0 <= k < i ==> name@ != store_name_text(all@[k]),
            decreases 8 - i,
        {
            let s = all[i];
            if same_text(name, s.as_str()) {
                return Some(s);
            }
            i = i + 1;
        }
        proof {
            assert forall|s: StoreName| name@ != store_name_text(s) by {
                match s {
                    StoreName::Validator => assert(all@[0] == s),
                    StoreName::Gateway => assert(all@[1] == s),
                    StoreName::Index => assert(all@[2] == s),
                    StoreName::LocksService => assert(all@[3] == s),
                    StoreName::NodeSync => assert(all@[4] == s),
                    StoreName::Checkpoints => assert(all@[5] == s),
                    StoreName::Wal => assert(all@[6] == s),
                    StoreName::Epoch => assert(all@[7] == s),
                }
            }
        }
        None
    }
}

} // verus!

verus! {

/// The first two characters of a table's name.
pub open spec fn name_prefix(t: TableName) -> (char, char) {
    match t {
        TableName::PendingExecution => ('p', 'e'),
        TableName::AssignedObjectVersions => ('a', 's'),
        TableName::NextObjectVersions => ('n', 'e'),
        TableName::ConsensusMessageProcessed => ('c', 'o'),
        TableName::LastConsensusIndex => ('l', 'a'),
        TableName::Objects => ('o', 'b'),
        TableName::OwnerIndex => ('o', 'w'),
        TableName::Certificates => ('c', 'e'),
        TableName::ParentSync => ('p', 'a'),
        TableName::Effects => ('e', 'f'),
        TableName::ExecutedSequence => ('e', 'x'),
        TableName::Batches => ('b', 'a'),
    }
}

proof fn lemma_name_prefix(t: TableName)
    ensures
        table_name_text(t).len() >= 2,
        table_name_text(t)[0] == name_prefix(t).0,
        table_name_text(t)[1] == name_prefix(t).1,
{
    match t {
        TableName::PendingExecution => reveal_strlit("pending_execution"),
        TableName::AssignedObjectVersions => reveal_strlit("assigned_object_versions"),
        TableName::NextObjectVersions => reveal_strlit("next_object_versions"),
        TableName::ConsensusMessageProcessed => reveal_strlit("consensus_message_processed"),
        TableName::LastConsensusIndex => reveal_strlit("last_consensus_index"),
        TableName::Objects => reveal_strlit("objects"),
        TableName::OwnerIndex => reveal_strlit("owner_index"),
        TableName::Certificates => reveal_strlit("certificates"),
        TableName::ParentSync => reveal_strlit("parent_sync"),
        TableName::Effects => reveal_strlit("effects"),
        TableName::ExecutedSequence => reveal_strlit("executed_sequence"),
        TableName::Batches => reveal_strlit("batches"),
    }
}

/// The names of distinct tables differ.
pub proof fn lemma_table_names_distinct(t1: TableName, t2: TableName)
    requires
        table_name_text(t1) == table_name_text(t2),
    ensures
        t1 == t2,
{
    lemma_name_prefix(t1);
    lemma_name_prefix(t2);
}

} // verus!

verus! {

/// Every table, epoch tables first.
pub open spec fn all_tables() -> Seq<TableName> {
    seq![
        TableName::PendingExecution,
        TableName::AssignedObjectVersions,
        TableName::NextObjectVersions,
        TableName::ConsensusMessageProcessed,
        TableName::LastConsensusIndex,
        TableName::Objects,
        TableName::OwnerIndex,
        TableName::Certificates,
        TableName::ParentSync,
        TableName::Effects,
        TableName::ExecutedSequence,
        TableName::Batches,
    ]
}

proof fn lemma_all_tables_complete(t: TableName)
    ensures
        all_tables().contains(t),
{
    let a = all_tables();
    match t {
        TableName::PendingExecution => assert(a[0] == t),
        TableName::AssignedObjectVersions => assert(a[1] == t),
        TableName::NextObjectVersions => assert(a[2] == t),
        TableName::ConsensusMessageProcessed => assert(a[3] == t),
        TableName::LastConsensusIndex => assert(a[4] == t),
        TableName::Objects => assert(a[5] == t),
        TableName::OwnerIndex => assert(a[6] == t),
        TableName::Certificates => assert(a[7] == t),
        TableName::ParentSync => assert(a[8] == t),
        TableName::Effects => assert(a[9] == t),
        TableName::ExecutedSequence => assert(a[10] == t),
        TableName::Batches => assert(a[11] == t),
    }
}

/// The tables a store declares: for the validator and gateway stores, the
/// epoch tables and then the perpetual ones; the others are not held here.
pub open spec fn declared_tables(s: StoreName) -> Seq<TableName> {
    match s {
        StoreName::Validator | StoreName::Gateway => all_tables(),
        _ => Seq::empty(),
    }
}

/// Which table a dump of store `s` under the name `name` reads, or why it
/// is refused.
pub open spec fn resolve_table(s: StoreName, name: Seq<char>) -> Result<TableName, DumpError> {
    if declared_tables(s).len() == 0 {
        Err(DumpError::UnsupportedStore)
    } else if exists|t: TableName| table_name_text(t) == name {
        Ok(choose|t: TableName| table_name_text(t) == name)
    } else {
        Err(DumpError::UnknownTable)
    }
}

/// The number of rows of table `t`.
pub open spec fn table_len(t: TableName, ev: EpochView, pv: PerpetualView) -> int {
    match t {
        TableName::PendingExecution => ev.pending_execution.len() as int,
        TableName::AssignedObjectVersions => ev.assigned_object_versions.len() as int,
        TableName::NextObjectVersions => ev.next_object_versions.len() as int,
        TableName::ConsensusMessageProcessed => ev.consensus_message_processed.len() as int,
        TableName::LastConsensusIndex => 1,
        TableName::Objects => pv.objects.len() as int,
        TableName::OwnerIndex => pv.owner_index.len() as int,
        TableName::Certificates => pv.certificates.len() as int,
        TableName::ParentSync => pv.parent_sync.len() as int,
        TableName::Effects => pv.effects.len() as int,
        TableName::ExecutedSequence => pv.executed_sequence.len() as int,
        TableName::Batches => pv.batches.len() as int,
    }
}

pub open spec fn flag(b: bool) -> u64 {
    if b {
        1
    } else {
        0
    }
}

/// The integers of `s`, each list preceded by its length.
pub open spec fn counted_lists(s: Seq<Vec<u64>>) -> Seq<u64>
    decreases s.len(),
{
    if s.len() == 0 {
        Seq::empty()
    } else {
        counted_lists(s.drop_last()) + seq![s.last()@.len() as u64] + s.last()@
    }
}

/// The integers of `s`, pair after pair.
pub open spec fn pair_fields(s: Seq<(u64, u64)>) -> Seq<u64>
    decreases s.len(),
{
    if s.len() == 0 {
        Seq::empty()
    } else {
        pair_fields(s.drop_last()) + seq![s.last().0, s.last().1]
    }
}

/// The integers of `s`, reference after reference.
pub open spec fn ref_list_fields(s: Seq<ObjectRef>) -> Seq<u64>
    decreases s.len(),
{
    if s.len() == 0 {
        Seq::empty()
    } else {
        ref_list_fields(s.drop_last()) + seq![s.last().id, s.last().version, s.last().digest]
    }
}

/// The integers of `s`, shared object after shared object.
pub open spec fn shared_fields(s: Seq<SharedInput>) -> Seq<u64>
    decreases s.len(),
{
    if s.len() == 0 {
        Seq::empty()
    } else {
        shared_fields(s.drop_last()) + seq![s.last().id, s.last().initial_version]
    }
}

/// A certificate as integers: its direct arguments, its collection
/// arguments and its shared objects, each group preceded by its length.
pub open spec fn certificate_fields(c: Certificate) -> Seq<u64> {
    seq![c.direct_args@.len() as u64] + c.direct_args@ + seq![c.collection_args@.len() as u64]
        + counted_lists(c.collection_args@) + seq![c.shared_inputs@.len() as u64] + shared_fields(
        c.shared_inputs@,
    )
}

/// Effects as integers: digest and status, then the inputs and each set of
/// references, each group preceded by its length.
pub open spec fn effects_fields(e: Effects) -> Seq<u64> {
    seq![e.digest, flag(e.success), e.inputs@.len() as u64] + pair_fields(e.inputs@) + seq![
        e.created@.len() as u64,
    ] + ref_list_fields(e.created@) + seq![e.mutated@.len() as u64] + ref_list_fields(e.mutated@)
        + seq![e.unwrapped@.len() as u64] + ref_list_fields(e.unwrapped@) + seq![
        e.deleted@.len() as u64,
    ] + ref_list_fields(e.deleted@) + seq![e.wrapped@.len() as u64] + ref_list_fields(
        e.wrapped@,
    )
}

/// How many of the three key components a table's keys use.
pub open spec fn key_arity(t: TableName) -> int {
    match t {
        TableName::AssignedObjectVersions | TableName::Objects | TableName::OwnerIndex => 2,
        TableName::ParentSync => 3,
        _ => 1,
    }
}

/// The integers of key `k` of table `t`.
pub open spec fn key_fields(t: TableName, k: (u64, u64, u64)) -> Seq<u64> {
    seq![k.0, k.1, k.2].subrange(0, key_arity(t))
}

/// Entry `i` of the log of table `t`: its key, padded with zeros to three
/// components, and the integers of the value it sets, or `None` for a
/// removal.
pub open spec fn log_entry(t: TableName, ev: EpochView, pv: PerpetualView, i: int) -> (
    (u64, u64, u64),
    Option<Seq<u64>>,
) {
    match t {
        TableName::PendingExecution => {
            let e = ev.pending_execution[i];
            ((e.0, 0, 0), Some(seq![e.1]))
        },
        TableName::AssignedObjectVersions => {
            let e = ev.assigned_object_versions[i];
            ((e.0.0, e.0.1, 0), Some(seq![e.1]))
        },
        TableName::NextObjectVersions => {
            let e = ev.next_object_versions[i];
            ((e.0, 0, 0), Some(seq![e.1]))
        },
        TableName::ConsensusMessageProcessed => {
            let e = ev.consensus_message_processed[i];
            ((e.0, 0, 0), Some(seq![flag(e.1)]))
        },
        TableName::LastConsensusIndex => {
            let l = ev.last_consensus_index;
            ((0, 0, 0), Some(seq![l.index, l.hash]))
        },
        TableName::Objects => {
            let e = pv.objects[i];
            ((e.0.0, e.0.1, 0), Some(seq![e.1.id, e.1.version, e.1.owner, e.1.digest]))
        },
        TableName::OwnerIndex => {
            let e = pv.owner_index[i];
            (
                (e.0.0, e.0.1, 0),
                match e.1 {
                    Some(r) => Some(seq![r.id, r.version, r.digest]),
                    None => None,
                },
            )
        },
        TableName::Certificates => {
            let e = pv.certificates[i];
            ((e.0, 0, 0), Some(certificate_fields(e.1)))
        },
        TableName::ParentSync => {
            let e = pv.parent_sync[i];
            ((e.0.id, e.0.version, e.0.digest), Some(seq![e.1]))
        },
        TableName::Effects => {
            let e = pv.effects[i];
            ((e.0, 0, 0), Some(effects_fields(e.1)))
        },
        TableName::ExecutedSequence => {
            let e = pv.executed_sequence[i];
            ((i as u64, 0, 0), Some(seq![e.transaction, e.effects]))
        },
        TableName::Batches => {
            let b = pv.batches[i];
            (
                (b.initial_sequence_number, 0, 0),
                Some(seq![b.initial_sequence_number, b.next_sequence_number, b.digest]),
            )
        },
    }
}

/// The log of table `t`, entry by entry.
pub open spec fn table_log(t: TableName, ev: EpochView, pv: PerpetualView) -> KeyLog {
    Seq::new(table_len(t, ev, pv) as nat, |i: int| log_entry(t, ev, pv, i))
}

/// Page `page_number` of the current rows `rows` of table `t`, rendered.
pub open spec fn rendered_page(
    t: TableName,
    rows: Seq<((u64, u64, u64), Seq<u64>)>,
    page_size: u16,
    page_number: usize,
    out: Seq<(String, String)>,
) -> bool {
    let start = page_start(rows.len() as int, page_size, page_number);
    &&& out.len() == page_end(rows.len() as int, page_size, page_number) - start
    &&& forall|k: int|
        #![trigger out[k]]
        0 <= k < out.len() ==> out[k].0@ == debug_text(key_fields(t, rows[start + k].0))
            && out[k].1@ == debug_text(rows[start + k].1)
}

/// The first row of page `page_number`, pages being `page_size` rows long.
pub open spec fn page_start(len: int, page_size: u16, page_number: usize) -> int {
    if page_number * page_size >= len {
        len
    } else {
        page_number * page_size
    }
}

/// One past the last row of page `page_number`.
pub open spec fn page_end(len: int, page_size: u16, page_number: usize) -> int {
    let s = page_start(len, page_size, page_number);
    if s + page_size >= len {
        len
    } else {
        s + page_size
    }
}

impl TableName {
    /// The name the table is registered under.
    pub fn as_str(&self) -> (r: &'static str)
        ensures
            r@ == table_name_text(*self),
    {
        match self {
            TableName::PendingExecution => "pending_execution",
            TableName::AssignedObjectVersions => "assigned_object_versions",
            TableName::NextObjectVersions => "next_object_versions",
            TableName::ConsensusMessageProcessed => "consensus_message_processed",
            TableName::LastConsensusIndex => "last_consensus_index",
            TableName::Objects => "objects",
            TableName::OwnerIndex => "owner_index",
            TableName::Certificates => "certificates",
            TableName::ParentSync => "parent_sync",
            TableName::Effects => "effects",
            TableName::ExecutedSequence => "executed_sequence",
            TableName::Batches => "batches",
        }
    }

    /// The table registered under `name`, if any.
    pub fn from_name(name: &str) -> (r: Option<TableName>)
        ensures
            match r {
                Some(t) => name@ == table_name_text(t),
                None => forall|t: TableName| name@ != table_name_text(t),
            },
    {
        let all = registered_tables(StoreName::Validator);
        let mut i: usize = 0;
        while i < all.len()
            invariant
                all@ == all_tables(),
                i <= all@.len(),
                forall|k: int| 0 <= k < i ==> name@ != table_name_text(all@[k]),
            decreases all@.len() - i,
        {
            let t = all[i];
            if same_text(name, t.as_str()) {
                return Some(t);
            }
            i = i + 1;
        }
        proof {
            assert forall|t: TableName| name@ != table_name_text(t) by {
                lemma_all_tables_complete(t);
            }
        }
        None
    }
}

/// The tables that store `s` declares.
pub fn registered_tables(s: StoreName) -> (r: Vec<TableName>)
    ensures
        r@ == declared_tables(s),
{
    match s {
        StoreName::Validator | StoreName::Gateway => {
            let v = vec![
                TableName::PendingExecution,
                TableName::AssignedObjectVersions,
                TableName::NextObjectVersions,
                TableName::ConsensusMessageProcessed,
                TableName::LastConsensusIndex,
                TableName::Objects,
                TableName::OwnerIndex,
                TableName::Certificates,
                TableName::ParentSync,
                TableName::Effects,
                TableName::ExecutedSequence,
                TableName::Batches,
            ];
            assert(v@ =~= all_tables());
            v
        },
        _ => Vec::new(),
    }
}

} // verus!

verus! {

fn flag_of(b: bool) -> (r: u64)
    ensures
        r == flag(b),
{
    if b {
        1
    } else {
        0
    }
}

/// The number of rows of table `t`.
pub fn table_len_of(t: TableName, epoch: &AuthorityEpochTables, perpetual: &AuthorityPerpetualTables) -> (r:
    usize)
    ensures
        r == table_len(t, epoch@, perpetual@),
{
    match t {
        TableName::PendingExecution => epoch.pending_execution().len(),
        TableName::AssignedObjectVersions => epoch.assigned_object_versions().len(),
        TableName::NextObjectVersions => epoch.next_object_versions().len(),
        TableName::ConsensusMessageProcessed => epoch.consensus_message_processed().len(),
        TableName::LastConsensusIndex => 1,
        TableName::Objects => perpetual.objects().len(),
        TableName::OwnerIndex => perpetual.owner_index().len(),
        TableName::Certificates => perpetual.certificates().len(),
        TableName::ParentSync => perpetual.parent_sync().len(),
        TableName::Effects => perpetual.effects().len(),
        TableName::ExecutedSequence => perpetual.executed_sequence().len(),
        TableName::Batches => perpetual.batches().len(),
    }
}

fn push_counted(out: &mut Vec<u64>, v: &Vec<u64>)
    ensures
        final(out)@ == old(out)@ + seq![v@.len() as u64] + v@,
{
    let ghost start = out@;
    out.push(v.len() as u64);
    let mut i: usize = 0;
    while i < v.len()
        invariant
            i <= v@.len(),
            out@ == start + seq![v@.len() as u64] + v@.subrange(0, i as int),
        decreases v@.len() - i,
    {
        out.push(v[i]);
        assert(v@.subrange(0, i + 1) =~= v@.subrange(0, i as int).push(v@[i as int]));
        i = i + 1;
    }
    assert(v@.subrange(0, v@.len() as int) =~= v@);
}

fn push_lists(out: &mut Vec<u64>, v: &Vec<Vec<u64>>)
    ensures
        final(out)@ == old(out)@ + counted_lists(v@),
{
    let ghost start = out@;
    let mut i: usize = 0;
    assert(counted_lists(v@.subrange(0, 0)) =~= Seq::<u64>::empty());
    assert(out@ =~= start + counted_lists(v@.subrange(0, 0)));
    while i < v.len()
        invariant
            i <= v@.len(),
            out@ == start + counted_lists(v@.subrange(0, i as int)),
        decreases v@.len() - i,
    {
        push_counted(out, &v[i]);
        let ghost s = v@.subrange(0, i + 1);
        assert(s.drop_last() =~= v@.subrange(0, i as int));
        assert(out@ =~= start + counted_lists(s));
        i = i + 1;
    }
    assert(v@.subrange(0, v@.len() as int) =~= v@);
}

fn push_pairs(out: &mut Vec<u64>, v: &Vec<(u64, u64)>)
    ensures
        final(out)@ == old(out)@ + pair_fields(v@),
{
    let ghost start = out@;
    let mut i: usize = 0;
    assert(out@ =~= start + pair_fields(v@.subrange(0, 0)));
    while i < v.len()
        invariant
            i <= v@.len(),
            out@ == start + pair_fields(v@.subrange(0, i as int)),
        decreases v@.len() - i,
    {
        out.push(v[i].0);
        out.push(v[i].1);
        let ghost s = v@.subrange(0, i + 1);
        assert(s.drop_last() =~= v@.subrange(0, i as int));
        assert(out@ =~= start + pair_fields(s));
        i = i + 1;
    }
    assert(v@.subrange(0, v@.len() as int) =~= v@);
}

fn push_refs(out: &mut Vec<u64>, v: &Vec<ObjectRef>)
    ensures
        final(out)@ == old(out)@ + seq![v@.len() as u64] + ref_list_fields(v@),
{
    let ghost start = out@;
    out.push(v.len() as u64);
    let mut i: usize = 0;
    assert(out@ =~= start + seq![v@.len() as u64] + ref_list_fields(v@.subrange(0, 0)));
    while i < v.len()
        invariant
            i <= v@.len(),
            out@ == start + seq![v@.len() as u64] + ref_list_fields(v@.subrange(0, i as int)),
        decreases v@.len() - i,
    {
        out.push(v[i].id);
        out.push(v[i].version);
        out.push(v[i].digest);
        let ghost s = v@.subrange(0, i + 1);
        assert(s.drop_last() =~= v@.subrange(0, i as int));
        assert(out@ =~= start + seq![v@.len() as u64] + ref_list_fields(s));
        i = i + 1;
    }
    assert(v@.subrange(0, v@.len() as int) =~= v@);
}

fn push_shared(out: &mut Vec<u64>, v: &Vec<SharedInput>)
    ensures
        final(out)@ == old(out)@ + shared_fields(v@),
{
    let ghost start = out@;
    let mut i: usize = 0;
    assert(out@ =~= start + shared_fields(v@.subrange(0, 0)));
    while i < v.len()
        invariant
            i <= v@.len(),
            out@ == start + shared_fields(v@.subrange(0, i as int)),
        decreases v@.len() - i,
    {
        out.push(v[i].id);
        out.push(v[i].initial_version);
        let ghost s = v@.subrange(0, i + 1);
        assert(s.drop_last() =~= v@.subrange(0, i as int));
        assert(out@ =~= start + shared_fields(s));
        i = i + 1;
    }
    assert(v@.subrange(0, v@.len() as int) =~= v@);
}

/// A certificate as integers, as `certificate_fields` lays them out.
pub fn certificate_fields_of(c: &Certificate) -> (r: Vec<u64>)
    ensures
        r@ == certificate_fields(*c),
{
    let mut out: Vec<u64> = Vec::new();
    push_counted(&mut out, &c.direct_args);
    out.push(c.collection_args.len() as u64);
    push_lists(&mut out, &c.collection_args);
    out.push(c.shared_inputs.len() as u64);
    push_shared(&mut out, &c.shared_inputs);
    assert(out@ =~= certificate_fields(*c));
    out
}

/// Effects as integers, as `effects_fields` lays them out.
pub fn effects_fields_of(e: &Effects) -> (r: Vec<u64>)
    ensures
        r@ == effects_fields(*e),
{
    let mut out: Vec<u64> = Vec::new();
    out.push(e.digest);
    out.push(flag_of(e.success));
    out.push(e.inputs.len() as u64);
    push_pairs(&mut out, &e.inputs);
    push_refs(&mut out, &e.created);
    push_refs(&mut out, &e.mutated);
    push_refs(&mut out, &e.unwrapped);
    push_refs(&mut out, &e.deleted);
    push_refs(&mut out, &e.wrapped);
    assert(out@ =~= effects_fields(*e));
    out
}

/// Entry `i` of the log of table `t`, as `log_entry` describes it.
pub fn log_entry_of(
    t: TableName,
    epoch: &AuthorityEpochTables,
    perpetual: &AuthorityPerpetualTables,
    i: usize,
) -> (r: ((u64, u64, u64), Option<Vec<u64>>))
    requires
        i < table_len(t, epoch@, perpetual@),
    ensures
        (r.0, entry_view(r.1)) == log_entry(t, epoch@, perpetual@, i as int),
{
    let ghost (k, v) = log_entry(t, epoch@, perpetual@, i as int);
    let r = match t {
        TableName::PendingExecution => {
            let e = epoch.pending_execution()[i];
            ((e.0, 0, 0), Some(vec![e.1]))
        },
        TableName::AssignedObjectVersions => {
            let e = epoch.assigned_object_versions()[i];
            ((e.0.0, e.0.1, 0), Some(vec![e.1]))
        },
        TableName::NextObjectVersions => {
            let e = epoch.next_object_versions()[i];
            ((e.0, 0, 0), Some(vec![e.1]))
        },
        TableName::ConsensusMessageProcessed => {
            let e = epoch.consensus_message_processed()[i];
            ((e.0, 0, 0), Some(vec![flag_of(e.1)]))
        },
        TableName::LastConsensusIndex => {
            let l = epoch.last_consensus_index();
            ((0, 0, 0), Some(vec![l.index, l.hash]))
        },
        TableName::Objects => {
            let e = perpetual.objects()[i];
            ((e.0.0, e.0.1, 0), Some(vec![e.1.id, e.1.version, e.1.owner, e.1.digest]))
        },
        TableName::OwnerIndex => {
            let e = perpetual.owner_index()[i];
            let value = match e.1 {
                Some(r) => Some(vec![r.id, r.version, r.digest]),
                None => None,
            };
            ((e.0.0, e.0.1, 0), value)
        },
        TableName::Certificates => {
            let e = &perpetual.certificates()[i];
            ((e.0, 0, 0), Some(certificate_fields_of(&e.1)))
        },
        TableName::ParentSync => {
            let e = perpetual.parent_sync()[i];
            ((e.0.id, e.0.version, e.0.digest), Some(vec![e.1]))
        },
        TableName::Effects => {
            let e = &perpetual.effects()[i];
            ((e.0, 0, 0), Some(effects_fields_of(&e.1)))
        },
        TableName::ExecutedSequence => {
            let e = perpetual.executed_sequence()[i];
            ((i as u64, 0, 0), Some(vec![e.transaction, e.effects]))
        },
        TableName::Batches => {
            let b = perpetual.batches()[i];
            (
                (b.initial_sequence_number, 0, 0),
                Some(vec![b.initial_sequence_number, b.next_sequence_number, b.digest]),
            )
        },
    };
    assert(entry_view(r.1) =~= v);
    r
}

/// The integers of key `k` of table `t`.
fn key_fields_of(t: TableName, k: (u64, u64, u64)) -> (r: Vec<u64>)
    ensures
        r@ == key_fields(t, k),
{
    let r = match t {
        TableName::AssignedObjectVersions | TableName::Objects | TableName::OwnerIndex => vec![
            k.0,
            k.1,
        ],
        TableName::ParentSync => vec![k.0, k.1, k.2],
        _ => vec![k.0],
    };
    assert(r@ =~= key_fields(t, k));
    r
}

/// The current rows of table `t`: its live keys in increasing order, each
/// with its latest value.
pub fn current_table_rows(
    t: TableName,
    epoch: &AuthorityEpochTables,
    perpetual: &AuthorityPerpetualTables,
) -> (r: Vec<((u64, u64, u64), Vec<u64>)>)
    ensures
        current_rows(rows_view(r@), table_log(t, epoch@, perpetual@)),
{
    let ghost log = table_log(t, epoch@, perpetual@);
    let n = table_len_of(t, epoch, perpetual);
    let mut rows: Vec<((u64, u64, u64), Vec<u64>)> = Vec::new();
    let mut i: usize = 0;
    assert(rows_view(rows@) =~= Seq::<((u64, u64, u64), Seq<u64>)>::empty());
    assert(log.subrange(0, 0).len() == 0);
    while i < n
        invariant
            n == log.len(),
            log == table_log(t, epoch@, perpetual@),
            i <= n,
            current_rows(rows_view(rows@), log.subrange(0, i as int)),
        decreases n - i,
    {
        let (k, v) = log_entry_of(t, epoch, perpetual, i);
        assert(log.subrange(0, i + 1) =~= log.subrange(0, i as int).push((k, entry_view(v))));
        upsert(&mut rows, Ghost(log.subrange(0, i as int)), k, v);
        i = i + 1;
    }
    assert(log.subrange(0, n as int) =~= log);
    rows
}

/// The first row of page `page_number` and one past its last row, in a
/// table of `len` rows.
fn page_bounds(len: usize, page_size: u16, page_number: usize) -> (r: (usize, usize))
    ensures
        r.0 == page_start(len as int, page_size, page_number),
        r.1 == page_end(len as int, page_size, page_number),
{
    let ps = page_size as usize;
    let start = if ps == 0 {
        assert(page_number * page_size == 0) by (nonlinear_arith)
            requires
                page_size == 0,
        ;
        0
    } else if page_number > len / ps {
        assert(page_number * ps >= len) by (nonlinear_arith)
            requires
                page_number > len / ps,
                ps > 0,
        ;
        len
    } else {
        assert(page_number * ps <= len) by (nonlinear_arith)
            requires
                page_number <= len / ps,
                ps > 0,
        ;
        let p = page_number * ps;
        if p >= len { len } else { p }
    };
    let end = if start >= len || len - start <= ps { len } else { start + ps };
    (start, end)
}

/// Page `page_number`, of `page_size` rows, of the current contents of
/// table `table_name` of store `store_name`: its live keys in increasing
/// order, each rendered with its latest value. Refused for a name the store
/// does not declare, and for stores whose tables are not held here.
pub fn dump_table(
    store_name: StoreName,
    epoch: &AuthorityEpochTables,
    perpetual: &AuthorityPerpetualTables,
    table_name: &str,
    page_size: u16,
    page_number: usize,
) -> (r: Result<Vec<(String, String)>, DumpError>)
    ensures
        match resolve_table(store_name, table_name@) {
            Ok(t) => r is Ok && exists|rows: Seq<((u64, u64, u64), Seq<u64>)>|
                #[trigger] current_rows(rows, table_log(t, epoch@, perpetual@)) && rendered_page(
                    t,
                    rows,
                    page_size,
                    page_number,
                    r->Ok_0@,
                ),
            Err(e) => r == Err::<Vec<(String, String)>, DumpError>(e),
        },
{
    match store_name {
        StoreName::Validator | StoreName::Gateway => {},
        _ => {
            return Err(DumpError::UnsupportedStore);
        },
    }
    let t = match TableName::from_name(table_name) {
        Some(t) => t,
        None => {
            return Err(DumpError::UnknownTable);
        },
    };
    proof {
        let c = choose|c: TableName| table_name_text(c) == table_name@;
        lemma_table_names_distinct(c, t);
    }
    let rows = current_table_rows(t, epoch, perpetual);
    let ghost rv = rows_view(rows@);
    let (start, end) = page_bounds(rows.len(), page_size, page_number);
    let mut out: Vec<(String, String)> = Vec::new();
    let mut i: usize = start;
    while i < end
        invariant
            start <= i <= end <= rows@.len(),
            rv == rows_view(rows@),
            start == page_start(rv.len() as int, page_size, page_number),
            out@.len() == i - start,
            forall|k: int|
                #![trigger out@[k]]
                0 <= k < out@.len() ==> out@[k].0@ == debug_text(key_fields(t, rv[start + k].0))
                    && out@[k].1@ == debug_text(rv[start + k].1),
        decreases end - i,
    {
        let key = key_fields_of(t, rows[i].0);
        out.push((render_fields(&key), render_fields(&rows[i].1)));
        i = i + 1;
    }
    assert(rendered_page(t, rv, page_size, page_number, out@));
    Ok(out)
}

/// The table names found on disk, less the engine's own `default` table,
/// which holds no data.
pub fn list_tables(found: Vec<String>) -> (r: Vec<String>)
    ensures
        r@ == found@.filter(|s: String| s@ != "default"@),
{
    let ghost keep = |s: String| s@ != "default"@;
    let default_name = "default".to_owned();
    let mut kept: Vec<String> = Vec::new();
    let n = found.len();
    let mut i: usize = 0;
    while i < n
        invariant
            n == found@.len(),
            keep == (|s: String| s@ != "default"@),
            default_name@ == "default"@,
            i <= n,
            kept@ == found@.subrange(0, i as int).filter(keep),
        decreases n - i,
    {
        let s = &found[i];
        proof {
            reveal(Seq::filter);
            let next = found@.subrange(0, i + 1);
            assert(next.drop_last() =~= found@.subrange(0, i as int));
            assert(next.last() == *s);
        }
        if !(*s == default_name) {
            kept.push(s.clone());
        }
        i = i + 1;
    }
    assert(found@.subrange(0, n as int) =~= found@);
    kept
}

/// Every table a store declares can be dumped: its registered name leads
/// the dump to that very table.
pub proof fn lemma_registry_complete(s: StoreName, i: int)
    requires
        0 <= i < declared_tables(s).len(),
    ensures
        resolve_table(s, table_name_text(declared_tables(s)[i])) == Ok::<TableName, DumpError>(
            declared_tables(s)[i],
        ),
{
    let t = declared_tables(s)[i];
    let c = choose|c: TableName| table_name_text(c) == table_name_text(t);
    lemma_table_names_distinct(c, t);
}

} // verus!

verus! {

/// The dump of the assigned versions shows, for certificate `d` and shared
/// object `id`, the version that the epoch tables currently assign.
pub proof fn lemma_assigned_log(ev: EpochView, pv: PerpetualView, d: u64, id: u64)
    ensures
        lookup(table_log(TableName::AssignedObjectVersions, ev, pv), (d, id, 0)) == match lookup(
            ev.assigned_object_versions,
            (d, id),
        ) {
            Some(v) => Some(Some(seq![v])),
            None => None,
        },
{
    let fk = |k: (u64, u64)| (k.0, k.1, 0u64);
    let fv = |v: u64| Some(seq![v]);
    assert(table_log(TableName::AssignedObjectVersions, ev, pv) =~= ev.assigned_object_versions.map_values(
        |e: ((u64, u64), u64)| (fk(e.0), fv(e.1)),
    ));
    lemma_lookup_map(ev.assigned_object_versions, fk, fv, (d, id));
}

/// The dump of the version counters shows, for shared object `id`, the
/// counter's current value.
pub proof fn lemma_next_versions_log(ev: EpochView, pv: PerpetualView, id: u64)
    ensures
        lookup(table_log(TableName::NextObjectVersions, ev, pv), (id, 0, 0)) == match lookup(
            ev.next_object_versions,
            id,
        ) {
            Some(v) => Some(Some(seq![v])),
            None => None,
        },
{
    let fk = |k: u64| (k, 0u64, 0u64);
    let fv = |v: u64| Some(seq![v]);
    assert(table_log(TableName::NextObjectVersions, ev, pv) =~= ev.next_object_versions.map_values(
        |e: (u64, u64)| (fk(e.0), fv(e.1)),
    ));
    lemma_lookup_map(ev.next_object_versions, fk, fv, id);
}

/// A consensus message delivered twice shows in the dumps as one
/// assignment: after the second delivery, the current rows of the assigned
/// versions hold the certificate's shared object once, with the version it
/// was handed, and the counter rows hold that version plus one.
pub proof fn lemma_redelivery_dumps_once(
    s: EpochView,
    pv: PerpetualView,
    index: u64,
    d: u64,
    shared: Seq<SharedInput>,
    h: u64,
    j: int,
    assigned_rows: Seq<((u64, u64, u64), Seq<u64>)>,
    next_rows: Seq<((u64, u64, u64), Seq<u64>)>,
)
    requires
        consensus_step(s, index, d, shared, h).1 == Ok::<ConsensusOutcome, ConsensusError>(
            ConsensusOutcome::Assigned,
        ),
        0 <= j < shared.len(),
        current_rows(
            assigned_rows,
            table_log(
                TableName::AssignedObjectVersions,
                consensus_step(consensus_step(s, index, d, shared, h).0, index, d, shared, h).0,
                pv,
            ),
        ),
        current_rows(
            next_rows,
            table_log(
                TableName::NextObjectVersions,
                consensus_step(consensus_step(s, index, d, shared, h).0, index, d, shared, h).0,
                pv,
            ),
        ),
    ensures
        ({
            let v = current_next_version(s.next_object_versions, shared[j]);
            &&& exists|i: int|
                0 <= i < assigned_rows.len() && assigned_rows[i] == ((d, shared[j].id, 0u64), seq![v])
            &&& forall|i: int, i2: int|
                0 <= i < assigned_rows.len() && 0 <= i2 < assigned_rows.len() && assigned_rows[i].0
                    == (d, shared[j].id, 0u64) && assigned_rows[i2].0 == (d, shared[j].id, 0u64)
                    ==> i == i2
            &&& exists|i: int|
                0 <= i < next_rows.len() && next_rows[i] == ((shared[j].id, 0u64, 0u64), seq![(v + 1) as u64])
        }),
{
    let t = consensus_step(s, index, d, shared, h).0;
    lemma_redelivery_discarded(s, index, d, shared, h);
    lemma_next_version_monotonic(s, index, d, shared, h);
    let v = current_next_version(s.next_object_versions, shared[j]);
    let id = shared[j].id;
    lemma_assigned_log(t, pv, d, id);
    lemma_next_versions_log(t, pv, id);
    let alog = table_log(TableName::AssignedObjectVersions, t, pv);
    let nlog = table_log(TableName::NextObjectVersions, t, pv);
    assert(lookup(alog, (d, id, 0u64)) == Some(Some(seq![v])));
    let i = choose|i: int| 0 <= i < assigned_rows.len() && assigned_rows[i].0 == (d, id, 0u64);
    assert(assigned_rows[i] == assigned_rows[i]);
    assert(lookup(nlog, (id, 0u64, 0u64)) == Some(Some(seq![(v + 1) as u64])));
    let k = choose|k: int| 0 <= k < next_rows.len() && next_rows[k].0 == (id, 0u64, 0u64);
    assert(next_rows[k] == next_rows[k]);
    assert forall|i: int, i2: int|
        0 <= i < assigned_rows.len() && 0 <= i2 < assigned_rows.len() && assigned_rows[i].0 == (
            d,
            id,
            0u64,
        ) && assigned_rows[i2].0 == (d, id, 0u64) implies i == i2 by {
        if i < i2 {
            assert(key_lt(assigned_rows[i].0, assigned_rows[i2].0));
        } else if i2 < i {
            assert(key_lt(assigned_rows[i2].0, assigned_rows[i].0));
        }
    }
}

} // verus!

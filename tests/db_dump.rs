use authority_store::dump::{dump_table, list_tables, registered_tables, DumpError, StoreName, TableName};
use authority_store::epoch::AuthorityEpochTables;
use authority_store::perpetual::AuthorityPerpetualTables;
use authority_store::types::{Certificate, Effects, Object, ObjectRef, SharedInput};

#[test]
fn db_dump_population() {
    let epoch = AuthorityEpochTables::open();
    let perpetual = AuthorityPerpetualTables::open();

    // Every table the two stores hold, as the engine lists them.
    let found: Vec<String> = [
        "default",
        "pending_execution",
        "assigned_object_versions",
        "next_object_versions",
        "consensus_message_processed",
        "last_consensus_index",
        "default",
        "objects",
        "owner_index",
        "certificates",
        "parent_sync",
        "effects",
        "executed_sequence",
        "batches",
    ]
    .iter()
    .map(|s| s.to_string())
    .collect();
    let tables = list_tables(found);
    assert_eq!(tables.len(), 12);

    let mut missing_tables = vec![];
    for t in tables {
        println!("{}", t);
        if dump_table(StoreName::Validator, &epoch, &perpetual, &t, 0, 0).is_err() {
            missing_tables.push(t);
        }
    }
    if !missing_tables.is_empty() {
        panic!(
            "Missing {} table(s) from DB dump registration function: {:?}",
            missing_tables.len(),
            missing_tables
        );
    }
}

#[test]
fn list_tables_drops_default() {
    let found = vec!["objects".to_string(), "default".to_string(), "effects".to_string()];
    assert_eq!(list_tables(found), vec!["objects".to_string(), "effects".to_string()]);
}

#[test]
fn unknown_table_is_refused() {
    let epoch = AuthorityEpochTables::open();
    let perpetual = AuthorityPerpetualTables::open();
    assert_eq!(
        dump_table(StoreName::Validator, &epoch, &perpetual, "no_such_table", 10, 0),
        Err(DumpError::UnknownTable)
    );
    assert_eq!(
        dump_table(StoreName::Wal, &epoch, &perpetual, "objects", 10, 0),
        Err(DumpError::UnsupportedStore)
    );
}

#[test]
fn dump_pages_render_keys_and_values() {
    let epoch = AuthorityEpochTables::open();
    let mut perpetual = AuthorityPerpetualTables::open();
    for id in 1..=5u64 {
        perpetual.insert_object(Object { id, version: 1, owner: 9, digest: 100 + id });
    }
    let page = dump_table(StoreName::Validator, &epoch, &perpetual, "objects", 2, 1).unwrap();
    assert_eq!(
        page,
        vec![
            ("[3, 1]".to_string(), "[3, 1, 9, 103]".to_string()),
            ("[4, 1]".to_string(), "[4, 1, 9, 104]".to_string()),
        ]
    );
    let last = dump_table(StoreName::Gateway, &epoch, &perpetual, "objects", 2, 2).unwrap();
    assert_eq!(last, vec![("[5, 1]".to_string(), "[5, 1, 9, 105]".to_string())]);
    let past = dump_table(StoreName::Validator, &epoch, &perpetual, "objects", 2, 9).unwrap();
    assert!(past.is_empty());
    let none = dump_table(StoreName::Validator, &epoch, &perpetual, "objects", 0, 0).unwrap();
    assert!(none.is_empty());
}

#[test]
fn dump_epoch_tables() {
    let mut epoch = AuthorityEpochTables::open();
    let perpetual = AuthorityPerpetualTables::open();
    let c = Certificate {
        digest: 7,
        direct_args: vec![],
        collection_args: vec![],
        shared_inputs: vec![SharedInput { id: 42, initial_version: 3 }],
    };
    epoch.handle_consensus_certificate(1, &c, 4).unwrap();
    let rows = dump_table(StoreName::Validator, &epoch, &perpetual, "assigned_object_versions", 10, 0).unwrap();
    assert_eq!(rows, vec![("[7, 42]".to_string(), "[3]".to_string())]);
    let rows = dump_table(StoreName::Validator, &epoch, &perpetual, "last_consensus_index", 10, 0).unwrap();
    assert_eq!(rows, vec![("[0]".to_string(), "[1, 4]".to_string())]);
    let rows = dump_table(StoreName::Validator, &epoch, &perpetual, "consensus_message_processed", 10, 0).unwrap();
    assert_eq!(rows, vec![("[7]".to_string(), "[1]".to_string())]);
}

#[test]
fn store_and_table_names() {
    assert_eq!(StoreName::from_name("Validator"), Some(StoreName::Validator));
    assert_eq!(StoreName::from_name("LocksService"), Some(StoreName::LocksService));
    assert_eq!(StoreName::from_name("validator"), None);
    assert_eq!(StoreName::NodeSync.as_str(), "NodeSync");
    assert_eq!(TableName::from_name("parent_sync"), Some(TableName::ParentSync));
    assert_eq!(TableName::from_name("default"), None);
    assert_eq!(registered_tables(StoreName::Validator).len(), 12);
    assert!(registered_tables(StoreName::Index).is_empty());
}

#[test]
fn dump_shows_current_value_per_key_in_key_order() {
    let epoch = AuthorityEpochTables::open();
    let mut perpetual = AuthorityPerpetualTables::open();
    perpetual.insert_object(Object { id: 9, version: 1, owner: 4, digest: 90 });
    perpetual.insert_object(Object { id: 2, version: 1, owner: 4, digest: 20 });
    perpetual.insert_object(Object { id: 9, version: 1, owner: 4, digest: 91 });
    let all = dump_table(StoreName::Validator, &epoch, &perpetual, "objects", 10, 0).unwrap();
    assert_eq!(
        all,
        vec![
            ("[2, 1]".to_string(), "[2, 1, 4, 20]".to_string()),
            ("[9, 1]".to_string(), "[9, 1, 4, 91]".to_string()),
        ]
    );
    let second = dump_table(StoreName::Validator, &epoch, &perpetual, "objects", 1, 1).unwrap();
    assert_eq!(second, vec![("[9, 1]".to_string(), "[9, 1, 4, 91]".to_string())]);
    let third = dump_table(StoreName::Validator, &epoch, &perpetual, "objects", 1, 2).unwrap();
    assert!(third.is_empty());
}

#[test]
fn dump_drops_removed_owner_entries() {
    let epoch = AuthorityEpochTables::open();
    let mut perpetual = AuthorityPerpetualTables::open();
    perpetual.insert_object(Object { id: 1, version: 1, owner: 50, digest: 11 });
    let gone = ObjectRef { id: 1, version: 2, digest: 0 };
    let e = Effects {
        digest: 800,
        success: true,
        inputs: vec![(1, 1)],
        created: vec![],
        mutated: vec![],
        unwrapped: vec![],
        deleted: vec![gone],
        wrapped: vec![],
    };
    let c = Certificate { digest: 700, direct_args: vec![1], collection_args: vec![vec![3, 4]], shared_inputs: vec![] };
    perpetual
        .record_execution(c, e, vec![], vec![((50, 1), Some(ObjectRef { id: 1, version: 1, digest: 11 })), ((50, 1), None)])
        .unwrap();
    let rows = dump_table(StoreName::Validator, &epoch, &perpetual, "owner_index", 10, 0).unwrap();
    assert!(rows.is_empty());
    let certs = dump_table(StoreName::Validator, &epoch, &perpetual, "certificates", 10, 0).unwrap();
    assert_eq!(certs, vec![("[700]".to_string(), "[1, 1, 1, 2, 3, 4, 0]".to_string())]);
    let effects = dump_table(StoreName::Validator, &epoch, &perpetual, "effects", 10, 0).unwrap();
    assert_eq!(
        effects,
        vec![("[700]".to_string(), "[800, 1, 1, 1, 1, 0, 0, 0, 1, 1, 2, 0, 0]".to_string())]
    );
    let history = dump_table(StoreName::Validator, &epoch, &perpetual, "parent_sync", 10, 0).unwrap();
    assert_eq!(history, vec![("[1, 2, 0]".to_string(), "[700]".to_string())]);
}

#[test]
fn dump_after_redelivery_shows_one_assignment() {
    let mut epoch = AuthorityEpochTables::open();
    let perpetual = AuthorityPerpetualTables::open();
    for i in 1..=4u64 {
        let c = Certificate { digest: 100 + i, direct_args: vec![], collection_args: vec![], shared_inputs: vec![] };
        epoch.handle_consensus_certificate(i, &c, 0).unwrap();
    }
    let c = Certificate {
        digest: 7,
        direct_args: vec![],
        collection_args: vec![],
        shared_inputs: vec![SharedInput { id: 42, initial_version: 3 }],
    };
    epoch.handle_consensus_certificate(5, &c, 1).unwrap();
    epoch.handle_consensus_certificate(5, &c, 1).unwrap();
    let assigned = dump_table(StoreName::Validator, &epoch, &perpetual, "assigned_object_versions", 100, 0).unwrap();
    assert_eq!(assigned, vec![("[7, 42]".to_string(), "[3]".to_string())]);
    let next = dump_table(StoreName::Validator, &epoch, &perpetual, "next_object_versions", 100, 0).unwrap();
    assert_eq!(next, vec![("[42]".to_string(), "[4]".to_string())]);
}

#[test]
fn refused_commit_leaves_every_dump_unchanged() {
    let epoch = AuthorityEpochTables::open();
    let mut perpetual = AuthorityPerpetualTables::open();
    perpetual.insert_object(Object { id: 1, version: 1, owner: 50, digest: 11 });
    let names = ["objects", "owner_index", "certificates", "parent_sync", "effects", "executed_sequence", "batches"];
    let before: Vec<_> = names
        .iter()
        .map(|n| dump_table(StoreName::Validator, &epoch, &perpetual, n, 100, 0).unwrap())
        .collect();
    let c = Certificate { digest: 700, direct_args: vec![1], collection_args: vec![vec![1]], shared_inputs: vec![] };
    let e = Effects {
        digest: 800,
        success: true,
        inputs: vec![(1, 1)],
        created: vec![],
        mutated: vec![],
        unwrapped: vec![],
        deleted: vec![],
        wrapped: vec![],
    };
    assert!(perpetual.record_execution(c, e, vec![Object { id: 1, version: 2, owner: 50, digest: 12 }], vec![]).is_err());
    let after: Vec<_> = names
        .iter()
        .map(|n| dump_table(StoreName::Validator, &epoch, &perpetual, n, 100, 0).unwrap())
        .collect();
    assert_eq!(before, after);
    assert!(after[2].is_empty());
    assert!(after[4].is_empty());
}

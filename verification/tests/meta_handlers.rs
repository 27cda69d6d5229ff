use pipeline_core::meta::{
    create_database_reply, create_table_reply, drop_database_reply, drop_table_reply,
    get_table_ext_reply, rename_table_reply, upsert_table_options_reply, Change, MetaError, SeqV,
};

fn fresh_create(id: u64, seq: u64) -> Change {
    Change { ident: Some(id), prev: None, result: Some(SeqV { seq, data: id }) }
}

fn already_there(id: u64, seq: u64) -> Change {
    let v = SeqV { seq, data: id };
    Change { ident: Some(id), prev: Some(v), result: Some(v) }
}

#[test]
fn create_database_twice_without_if_not_exists_errors() {
    // First issue: the database is new and gets an identifier.
    let first = create_database_reply("db1".to_string(), false, fresh_create(7, 1));
    assert_eq!(first, Ok(7));
    // Second issue of the same command: the database now exists.
    let second = create_database_reply("db1".to_string(), false, already_there(7, 1));
    assert_eq!(second, Err(MetaError::DatabaseAlreadyExists { db: "db1".to_string() }));
    // With if_not_exists the same condition is benign.
    let benign = create_database_reply("db1".to_string(), true, already_there(7, 1));
    assert_eq!(benign, Ok(7));
}

#[test]
fn upsert_table_options_with_stale_version_reports_both_versions() {
    // The service refused the mutation: nothing changed, current seq is 9.
    let unchanged = already_there(3, 9);
    let r = upsert_table_options_reply(Some(4), unchanged);
    assert_eq!(
        r,
        Err(MetaError::TableVersionMismatch { requested: Some(4), current: 9 })
    );
    // A write that did change the value succeeds.
    let changed = Change {
        ident: Some(3),
        prev: Some(SeqV { seq: 9, data: 3 }),
        result: Some(SeqV { seq: 10, data: 3 }),
    };
    assert_eq!(upsert_table_options_reply(Some(9), changed), Ok(()));
}

#[test]
fn drop_database_respects_if_exists() {
    let gone = Change { ident: None, prev: None, result: None };
    assert_eq!(
        drop_database_reply("nope".to_string(), false, gone),
        Err(MetaError::UnknownDatabase { db: "nope".to_string() })
    );
    assert_eq!(drop_database_reply("nope".to_string(), true, gone), Ok(()));
    let existed = Change {
        ident: Some(1),
        prev: Some(SeqV { seq: 2, data: 1 }),
        result: None,
    };
    assert_eq!(drop_database_reply("db".to_string(), false, existed), Ok(()));
}

#[test]
fn create_and_drop_table_follow_the_same_idempotency_rules() {
    assert_eq!(create_table_reply("t".to_string(), false, fresh_create(40, 1)), Ok(40));
    assert_eq!(
        create_table_reply("t".to_string(), false, already_there(40, 1)),
        Err(MetaError::TableAlreadyExists { table: "t".to_string() })
    );
    assert_eq!(create_table_reply("t".to_string(), true, already_there(40, 1)), Ok(40));

    let gone = Change { ident: None, prev: None, result: None };
    assert_eq!(
        drop_table_reply("t".to_string(), false, gone),
        Err(MetaError::UnknownTable { table: "t".to_string() })
    );
    assert_eq!(drop_table_reply("t".to_string(), true, gone), Ok(()));
}

#[test]
fn rename_and_lookup_return_identifiers() {
    let ch = Change {
        ident: Some(11),
        prev: Some(SeqV { seq: 5, data: 11 }),
        result: Some(SeqV { seq: 6, data: 11 }),
    };
    assert_eq!(rename_table_reply(ch), 11);

    assert_eq!(get_table_ext_reply(11, Some(SeqV { seq: 6, data: 42 })), Ok((11, 6, 42)));
    assert_eq!(
        get_table_ext_reply(12, None),
        Err(MetaError::UnknownTableId { table_id: 12 })
    );
}

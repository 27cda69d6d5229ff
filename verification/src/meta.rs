//! Decision logic of the metadata (DDL) handlers.
//!
//! Each handler sends one command to the replicated metadata service
//! (`write(command) -> Change`, a linearizable mutation returning previous
//! and current versioned state) and then decides, from that change alone,
//! whether to report success or which conflict error to return. The service
//! call itself is I/O performed by the surrounding program; the decisions
//! here are pure and exact: idempotency via if-not-exists / if-exists flags,
//! and optimistic updates via version (`seq`) comparison.

use vstd::prelude::*;

verus! {

/// A versioned value held by the metadata service: its sequence number (the
/// version) and an opaque payload identifier.
#[derive(Debug, Clone, Copy, PartialEq, Eq, Structural)]
pub struct SeqV {
    pub seq: u64,
    pub data: u64,
}

/// What a linearizable metadata write returned: the identifier the command
/// resolved to, and the value before and after the mutation.
#[derive(Debug, Clone, Copy, PartialEq, Eq)]
pub struct Change {
    /// Identifier assigned to or already held by the entity.
    pub ident: Option<u64>,
    /// The versioned value before the mutation, if the entity existed.
    pub prev: Option<SeqV>,
    /// The versioned value after the mutation.
    pub result: Option<SeqV>,
}

impl Change {
    /// Whether the write mutated anything.
    pub open spec fn changed_spec(self) -> bool {
        self.prev != self.result
    }

    /// Whether the write mutated anything.
    pub fn changed(&self) -> (r: bool)
        ensures
            r == self.changed_spec(),
    {
        self.prev != self.result
    }
}

/// A metadata conflict, returned directly to the caller and never retried
/// internally.
#[derive(Debug, Clone, PartialEq, Eq)]
pub enum MetaError {
    /// The database exists and the command did not allow that.
    DatabaseAlreadyExists { db: String },
    /// The database does not exist and the command required it.
    UnknownDatabase { db: String },
    /// The table exists and the command did not allow that.
    TableAlreadyExists { table: String },
    /// The table does not exist and the command required it.
    UnknownTable { table: String },
    /// No table has the given identifier.
    UnknownTableId { table_id: u64 },
    /// An optimistic update named a version that is no longer current.
    TableVersionMismatch { requested: Option<u64>, current: u64 },
}

/// Decides the reply to a create-database command from the change the
/// service returned. Succeeds with the database identifier unless the
/// database already existed and `if_not_exists` was not set.
pub fn create_database_reply(db: String, if_not_exists: bool, ch: Change) -> (r: Result<
    u64,
    MetaError,
>)
    requires
        ch.ident is Some,
    ensures
        r is Ok <==> !(ch.prev is Some && !if_not_exists),
        r is Ok ==> r->Ok_0 == ch.ident->0,
        r is Err ==> r->Err_0 == (MetaError::DatabaseAlreadyExists { db }),
{
    if ch.prev.is_some() && !if_not_exists {
        Err(MetaError::DatabaseAlreadyExists { db })
    } else {
        Ok(ch.ident.unwrap())
    }
}

/// Decides the reply to a drop-database command. Succeeds exactly when the
/// database existed or `if_exists` allows the benign miss.
pub fn drop_database_reply(db: String, if_exists: bool, ch: Change) -> (r: Result<(), MetaError>)
    ensures
        r is Ok <==> (ch.prev is Some || if_exists),
        r is Err ==> r->Err_0 == (MetaError::UnknownDatabase { db }),
{
    if ch.prev.is_some() || if_exists {
        Ok(())
    } else {
        Err(MetaError::UnknownDatabase { db })
    }
}

/// Decides the reply to a create-table command. Succeeds with the table
/// identifier unless the table already existed and `if_not_exists` was not
/// set.
pub fn create_table_reply(table: String, if_not_exists: bool, ch: Change) -> (r: Result<
    u64,
    MetaError,
>)
    requires
        ch.ident is Some,
    ensures
        r is Ok <==> !(ch.prev is Some && !if_not_exists),
        r is Ok ==> r->Ok_0 == ch.ident->0,
        r is Err ==> r->Err_0 == (MetaError::TableAlreadyExists { table }),
{
    if ch.prev.is_some() && !if_not_exists {
        Err(MetaError::TableAlreadyExists { table })
    } else {
        Ok(ch.ident.unwrap())
    }
}

/// Decides the reply to a drop-table command. Succeeds exactly when the
/// table existed or `if_exists` allows the benign miss.
pub fn drop_table_reply(table: String, if_exists: bool, ch: Change) -> (r: Result<(), MetaError>)
    ensures
        r is Ok <==> (ch.prev is Some || if_exists),
        r is Err ==> r->Err_0 == (MetaError::UnknownTable { table }),
{
    if ch.prev.is_some() || if_exists {
        Ok(())
    } else {
        Err(MetaError::UnknownTable { table })
    }
}

/// Decides the reply to a rename-table command: the identifier the renamed
/// table keeps.
pub fn rename_table_reply(ch: Change) -> (r: u64)
    requires
        ch.ident is Some,
    ensures
        r == ch.ident->0,
{
    ch.ident.unwrap()
}

/// Decides the reply to a lookup of a table by identifier: the identifier,
/// its current version, and the stored payload, or an unknown-identifier
/// error.
pub fn get_table_ext_reply(table_id: u64, found: Option<SeqV>) -> (r: Result<
    (u64, u64, u64),
    MetaError,
>)
    ensures
        r is Ok <==> found is Some,
        r is Ok ==> r->Ok_0 == (table_id, found->0.seq, found->0.data),
        r is Err ==> r->Err_0 == (MetaError::UnknownTableId { table_id }),
{
    match found {
        Some(v) => Ok((table_id, v.seq, v.data)),
        None => Err(MetaError::UnknownTableId { table_id }),
    }
}

/// Decides the reply to an optimistic upsert of table options. Succeeds
/// exactly when the service applied the mutation; otherwise reports a
/// version mismatch carrying both the requested and the current version.
pub fn upsert_table_options_reply(requested: Option<u64>, ch: Change) -> (r: Result<
    (),
    MetaError,
>)
    requires
        !ch.changed_spec() ==> ch.prev is Some,
    ensures
        r is Ok <==> ch.changed_spec(),
        r is Err ==> r->Err_0 == (MetaError::TableVersionMismatch {
            requested,
            current: ch.prev->0.seq,
        }),
{
    if ch.changed() {
        Ok(())
    } else {
        let prev = ch.prev.unwrap();
        Err(MetaError::TableVersionMismatch { requested, current: prev.seq })
    }
}

} // verus!

//! The show-tenant-quota interpreter's computation: shaping a tenant quota
//! into the one-row table it reports. Fetching the quota from the quota API
//! is I/O performed by the surrounding program.

use vstd::prelude::*;

verus! {

/// Resource ceilings of one tenant.
#[derive(Debug, Clone, Copy, PartialEq, Eq, Structural)]
pub struct TenantQuota {
    pub max_databases: u32,
    pub max_tables_per_database: u32,
    pub max_stages: u32,
    pub max_files_per_stage: u32,
}

/// The interpreter for the show-tenant-quota statement.
#[derive(Debug)]
pub struct ShowTenantQuotaInterpreter;

impl ShowTenantQuotaInterpreter {
    /// Builds the interpreter.
    pub fn try_create() -> (r: ShowTenantQuotaInterpreter) {
        ShowTenantQuotaInterpreter
    }

    /// The interpreter's reported name.
    pub fn name(&self) -> (r: &'static str)
        ensures
            r@ == "ShowTenantQuotaInterpreter"@,
    {
        "ShowTenantQuotaInterpreter"
    }

    /// The column names of the reported table, in order.
    pub fn column_names(&self) -> (names: Vec<&'static str>)
        ensures
            names@.len() == 4,
            names@[0]@ == "max_databases"@,
            names@[1]@ == "max_tables_per_database"@,
            names@[2]@ == "max_stages"@,
            names@[3]@ == "max_files_per_stage"@,
    {
        let mut names: Vec<&'static str> = Vec::new();
        names.push("max_databases");
        names.push("max_tables_per_database");
        names.push("max_stages");
        names.push("max_files_per_stage");
        names
    }

    /// The single data row of the reported table: the four ceilings of the
    /// quota, in column order.
    pub fn execute(&self, quota: &TenantQuota) -> (row: Vec<u64>)
        ensures
            row@ == seq![
                quota.max_databases as u64,
                quota.max_tables_per_database as u64,
                quota.max_stages as u64,
                quota.max_files_per_stage as u64,
            ],
    {
        let mut row: Vec<u64> = Vec::new();
        row.push(quota.max_databases as u64);
        row.push(quota.max_tables_per_database as u64);
        row.push(quota.max_stages as u64);
        row.push(quota.max_files_per_stage as u64);
        proof {
            assert(row@ =~= seq![
                quota.max_databases as u64,
                quota.max_tables_per_database as u64,
                quota.max_stages as u64,
                quota.max_files_per_stage as u64,
            ]);
        }
        row
    }
}

} // verus!

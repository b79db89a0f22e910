//! Schema migrations of the application database.

use vstd::prelude::*;

verus! {

/// What bringing a database up to date requires.
#[derive(Debug, Clone, Copy, PartialEq, Eq)]
pub enum MigrationStep {
    /// A new database: create the whole schema (which is already at the
    /// current version).
    InitialSchema,
    /// A version 1 database: add context axis descriptions and seed the
    /// `General` axis.
    AddAxisDescriptions,
    /// Nothing to do.
    UpToDate,
}

/// The migration a database at `current_version` needs.
pub open spec fn migration_step_spec(current_version: i64) -> MigrationStep {
    if current_version < 1 {
        MigrationStep::InitialSchema
    } else if current_version < 2 {
        MigrationStep::AddAxisDescriptions
    } else {
        MigrationStep::UpToDate
    }
}

/// Migrations move forward only: a database at the current version (2) or
/// later needs nothing, one that was never created gets the whole schema,
/// and only a version 1 database gets the version 2 step.
pub proof fn lemma_migration_moves_forward(current_version: i64)
    ensures
        current_version >= 2 ==> migration_step_spec(current_version) == MigrationStep::UpToDate,
        current_version <= 0 ==> migration_step_spec(current_version) == MigrationStep::InitialSchema,
        migration_step_spec(current_version) == MigrationStep::AddAxisDescriptions <==> current_version == 1,
{
}

/// Decides the migration for a database at `current_version` (0 when the
/// schema has never been created).
pub fn migration_step(current_version: i64) -> (step: MigrationStep)
    ensures
        step == if current_version < 1 {
            MigrationStep::InitialSchema
        } else if current_version < 2 {
            MigrationStep::AddAxisDescriptions
        } else {
            MigrationStep::UpToDate
        },
        step == migration_step_spec(current_version),
{
    if current_version < 1 {
        MigrationStep::InitialSchema
    } else if current_version < 2 {
        MigrationStep::AddAxisDescriptions
    } else {
        MigrationStep::UpToDate
    }
}

} // verus!

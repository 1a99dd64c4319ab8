//! Moving a tool's user data to another directory.
//!
//! A migration walks through nine stages: preflight, snapshot, quiesce, copy,
//! verify, rewrite, resume, validate and retain. The source is never deleted.
//! The modules below decide what is to be done next from what has been
//! observed so far; whoever drives a migration performs it.
pub mod copy;
pub mod course;
pub mod laws;
pub mod restore;
pub mod rewrite;
pub mod run;
pub mod service;
pub mod steps;
pub mod types;
pub mod undo;
pub mod whole;

pub use types::{
    ConfigBackup, CopySummary, EnvOverrideRecord, MigrateError, MigrationEvent, MigrationResult,
    MigrationUndo, QuiesceOutcome, ResumeAction, RetainOutcome, RewriteOutcome, Stage,
    ValidateOutcome, VerifyOutcome,
};
pub use service::{EnvWriter, Quiescer, SystemdEnvWriter, SystemdQuiescer};
pub use run::{migrate, migrate_with, migrate_with_backends, MigrateReply, MigrateRequest, MigrationRun};
pub use undo::{CleanupItem, CleanupReport, MigrationUndoReport};

//! Why a migration, a bundle or a run is refused.
use crate::text::{decimal, decimal_text};
use vstd::prelude::*;
use vstd::string::*;

verus! {

/// Why a migration, a bundle or a run is refused.
#[derive(Debug)]
pub enum MigrationError {
    InvalidSqlIdentifier(String),
    InvalidBundleId(String),
    InvalidMigration { version: i64, reason: &'static str },
    DuplicateMigrationVersion { bundle_id: String, version: i64 },
    InvalidMigrationOrder { bundle_id: String, previous: i64, current: i64 },
    DuplicateBundle(String),
    UnknownAppliedVersion { bundle_id: String, version: i64 },
    ChecksumMismatch { bundle_id: String, version: i64, expected: String, actual: String },
    /// A backend driver operation failed. Each backend shell maps its driver
    /// error here so the error type stays dialect-agnostic.
    Backend { operation: &'static str, message: String },
}

/// A [`MigrationError`] with its texts as character sequences.
pub enum MigrationErrorView {
    InvalidSqlIdentifier(Seq<char>),
    InvalidBundleId(Seq<char>),
    InvalidMigration { version: i64, reason: Seq<char> },
    DuplicateMigrationVersion { bundle_id: Seq<char>, version: i64 },
    InvalidMigrationOrder { bundle_id: Seq<char>, previous: i64, current: i64 },
    DuplicateBundle(Seq<char>),
    UnknownAppliedVersion { bundle_id: Seq<char>, version: i64 },
    ChecksumMismatch {
        bundle_id: Seq<char>,
        version: i64,
        expected: Seq<char>,
        actual: Seq<char>,
    },
    Backend { operation: Seq<char>, message: Seq<char> },
}

impl View for MigrationError {
    type V = MigrationErrorView;

    open spec fn view(&self) -> MigrationErrorView {
        match *self {
            MigrationError::InvalidSqlIdentifier(value) => MigrationErrorView::InvalidSqlIdentifier(
                value@,
            ),
            MigrationError::InvalidBundleId(value) => MigrationErrorView::InvalidBundleId(value@),
            MigrationError::InvalidMigration { version, reason } =>
                MigrationErrorView::InvalidMigration { version, reason: reason@ },
            MigrationError::DuplicateMigrationVersion { bundle_id, version } =>
                MigrationErrorView::DuplicateMigrationVersion { bundle_id: bundle_id@, version },
            MigrationError::InvalidMigrationOrder { bundle_id, previous, current } =>
                MigrationErrorView::InvalidMigrationOrder {
                bundle_id: bundle_id@,
                previous,
                current,
            },
            MigrationError::DuplicateBundle(value) => MigrationErrorView::DuplicateBundle(value@),
            MigrationError::UnknownAppliedVersion { bundle_id, version } =>
                MigrationErrorView::UnknownAppliedVersion { bundle_id: bundle_id@, version },
            MigrationError::ChecksumMismatch { bundle_id, version, expected, actual } =>
                MigrationErrorView::ChecksumMismatch {
                bundle_id: bundle_id@,
                version,
                expected: expected@,
                actual: actual@,
            },
            MigrationError::Backend { operation, message } => MigrationErrorView::Backend {
                operation: operation@,
                message: message@,
            },
        }
    }
}

impl MigrationErrorView {
    /// The text that a person reads of the error.
    pub open spec fn message(self) -> Seq<char> {
        match self {
            MigrationErrorView::InvalidSqlIdentifier(value) => "invalid SQL identifier prefix '"@
                + value + "'"@,
            MigrationErrorView::InvalidBundleId(value) => "invalid migration bundle id '"@ + value
                + "'"@,
            MigrationErrorView::InvalidMigration { version, reason } => "invalid migration "@
                + decimal(version as int) + ": "@ + reason,
            MigrationErrorView::DuplicateMigrationVersion { bundle_id, version } => "bundle '"@
                + bundle_id + "' contains duplicate migration version "@ + decimal(version as int),
            MigrationErrorView::InvalidMigrationOrder { bundle_id, previous, current } =>
                "bundle '"@ + bundle_id + "' migrations are not strictly increasing: "@ + decimal(
                previous as int,
            ) + " then "@ + decimal(current as int),
            MigrationErrorView::DuplicateBundle(value) => "duplicate migration bundle '"@ + value
                + "'"@,
            MigrationErrorView::UnknownAppliedVersion { bundle_id, version } => "bundle '"@
                + bundle_id + "' has unknown applied version "@ + decimal(version as int),
            MigrationErrorView::ChecksumMismatch { bundle_id, version, expected, actual } =>
                "bundle '"@ + bundle_id + "' migration "@ + decimal(version as int)
                + " checksum mismatch: expected "@ + expected + ", actual "@ + actual,
            MigrationErrorView::Backend { operation, message } => "migration backend operation '"@
                + operation + "' failed: "@ + message,
        }
    }
}

impl MigrationError {
    /// The text that a person reads of the error.
    pub fn message(&self) -> (text: String)
        ensures
            text@ == self@.message(),
    {
        match self {
            MigrationError::InvalidSqlIdentifier(value) => "invalid SQL identifier prefix '".to_owned().concat(
                value.as_str(),
            ).concat("'"),
            MigrationError::InvalidBundleId(value) => "invalid migration bundle id '".to_owned().concat(
                value.as_str(),
            ).concat("'"),
            MigrationError::InvalidMigration { version, reason } => {
                let number = decimal_text(*version);
                "invalid migration ".to_owned().concat(number.as_str()).concat(": ").concat(reason)
            },
            MigrationError::DuplicateMigrationVersion { bundle_id, version } => {
                let number = decimal_text(*version);
                "bundle '".to_owned().concat(bundle_id.as_str()).concat(
                    "' contains duplicate migration version ",
                ).concat(number.as_str())
            },
            MigrationError::InvalidMigrationOrder { bundle_id, previous, current } => {
                let first = decimal_text(*previous);
                let second = decimal_text(*current);
                "bundle '".to_owned().concat(bundle_id.as_str()).concat(
                    "' migrations are not strictly increasing: ",
                ).concat(first.as_str()).concat(" then ").concat(second.as_str())
            },
            MigrationError::DuplicateBundle(value) => "duplicate migration bundle '".to_owned().concat(
                value.as_str(),
            ).concat("'"),
            MigrationError::UnknownAppliedVersion { bundle_id, version } => {
                let number = decimal_text(*version);
                "bundle '".to_owned().concat(bundle_id.as_str()).concat(
                    "' has unknown applied version ",
                ).concat(number.as_str())
            },
            MigrationError::ChecksumMismatch { bundle_id, version, expected, actual } => {
                let number = decimal_text(*version);
                "bundle '".to_owned().concat(bundle_id.as_str()).concat("' migration ").concat(
                    number.as_str(),
                ).concat(" checksum mismatch: expected ").concat(expected.as_str()).concat(
                    ", actual ",
                ).concat(actual.as_str())
            },
            MigrationError::Backend { operation, message } => "migration backend operation '".to_owned().concat(
                operation,
            ).concat("' failed: ").concat(message.as_str()),
        }
    }
}

} // verus!

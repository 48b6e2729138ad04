//! Why a migration, a bundle or a run is refused.
use crate::text::{decimal, decimal_text, digits_text, pad_zeros, zero_padded};
use vstd::prelude::*;
use vstd::string::*;

verus! {

/// The zero-padded display form of a version, without its `V`. The sign counts
/// towards the width of four.
pub open spec fn padded_version(version: int) -> Seq<char> {
    if version < 0 {
        seq!['-'] + zero_padded(decimal(-version), 3)
    } else {
        zero_padded(decimal(version), 4)
    }
}

/// The display label of a version: `V0001`.
pub open spec fn label_of(version: int) -> Seq<char> {
    seq!['V'] + padded_version(version)
}

/// Render a migration version as its zero-padded display label (`V0001`).
///
/// The integer remains the source of truth for ordering and the ledger primary
/// key; this is only the readable form used in the ledger `description` and in
/// diagnostics. A free function so callers holding only an `i64` (the ledger,
/// error formatting) get the same label as a migration.
pub fn version_label(version: i64) -> (label: String)
    ensures
        label@ == label_of(version as int),
{
    let mut label = String::new();
    label.push('V');
    if version < 0 {
        label.push('-');
        let complement: i64 = -(version + 1);
        let body = digits_text(complement as u128 + 1);
        let padded = pad_zeros(body.as_str(), 3);
        label.append(padded.as_str());
    } else {
        let body = digits_text(version as u128);
        let padded = pad_zeros(body.as_str(), 4);
        label.append(padded.as_str());
    }
    assert(label@ =~= label_of(version as int));
    label
}

/// Why a migration, a bundle or a run is refused.
#[derive(Debug)]
#[allow(inconsistent_fields)]
pub enum MigrationError {
    InvalidSqlIdentifier(String),
    InvalidBundleId(String),
    InvalidMigration { version: i64, reason: &'static str },
    ConditionalSql { version: i64, clause: &'static str },
    PublishedLegacyChecksumMismatch {
        version: i64,
        body_kind: &'static str,
        expected: String,
        actual: String,
    },
    DuplicateMigrationVersion { bundle_id: String, version: i64 },
    InvalidMigrationOrder { bundle_id: String, previous: i64, current: i64 },
    DuplicateBundle(String),
    CrossBundleReference { bundle_id: String, version: i64, table: String },
    UnknownAppliedVersion { bundle_id: String, version: i64 },
    ChecksumMismatch { bundle_id: String, version: i64, expected: String, actual: String },
    PendingMigration { bundle_id: String, version: i64 },
    LedgerVersionMismatch { ledger_table: String, expected: i64, found: i64 },
    LedgerMetadataRowCount { meta_table: String, found: usize },
    IncompleteLedger {
        ledger_table: String,
        meta_table: String,
        ledger_exists: bool,
        meta_exists: bool,
    },
    /// A backend driver operation failed. Each backend shell maps its driver
    /// error here so the error type stays dialect-agnostic.
    Backend { operation: &'static str, message: String },
}

/// A [`MigrationError`] with its texts as character sequences.
#[allow(inconsistent_fields)]
pub enum MigrationErrorView {
    InvalidSqlIdentifier(Seq<char>),
    InvalidBundleId(Seq<char>),
    InvalidMigration { version: i64, reason: Seq<char> },
    ConditionalSql { version: i64, clause: Seq<char> },
    PublishedLegacyChecksumMismatch {
        version: i64,
        body_kind: Seq<char>,
        expected: Seq<char>,
        actual: Seq<char>,
    },
    DuplicateMigrationVersion { bundle_id: Seq<char>, version: i64 },
    InvalidMigrationOrder { bundle_id: Seq<char>, previous: i64, current: i64 },
    DuplicateBundle(Seq<char>),
    CrossBundleReference { bundle_id: Seq<char>, version: i64, table: Seq<char> },
    UnknownAppliedVersion { bundle_id: Seq<char>, version: i64 },
    ChecksumMismatch {
        bundle_id: Seq<char>,
        version: i64,
        expected: Seq<char>,
        actual: Seq<char>,
    },
    PendingMigration { bundle_id: Seq<char>, version: i64 },
    LedgerVersionMismatch { ledger_table: Seq<char>, expected: i64, found: i64 },
    LedgerMetadataRowCount { meta_table: Seq<char>, found: usize },
    IncompleteLedger {
        ledger_table: Seq<char>,
        meta_table: Seq<char>,
        ledger_exists: bool,
        meta_exists: bool,
    },
    Backend { operation: Seq<char>, message: Seq<char> },
}

impl View for MigrationError {
    type V = MigrationErrorView;

    open spec fn view(&self) -> MigrationErrorView {
        match *self {
            MigrationError::InvalidSqlIdentifier(value) => MigrationErrorView::InvalidSqlIdentifier(
                value@,
            ),
            MigrationError::InvalidBundleId(value) => MigrationErrorView::InvalidBundleId(value@),
            MigrationError::InvalidMigration { version, reason } =>
                MigrationErrorView::InvalidMigration { version, reason: reason@ },
            MigrationError::ConditionalSql { version, clause } =>
                MigrationErrorView::ConditionalSql { version, clause: clause@ },
            MigrationError::PublishedLegacyChecksumMismatch {
                version,
                body_kind,
                expected,
                actual,
            } => MigrationErrorView::PublishedLegacyChecksumMismatch {
                version,
                body_kind: body_kind@,
                expected: expected@,
                actual: actual@,
            },
            MigrationError::DuplicateMigrationVersion { bundle_id, version } =>
                MigrationErrorView::DuplicateMigrationVersion { bundle_id: bundle_id@, version },
            MigrationError::InvalidMigrationOrder { bundle_id, previous, current } =>
                MigrationErrorView::InvalidMigrationOrder {
                bundle_id: bundle_id@,
                previous,
                current,
            },
            MigrationError::DuplicateBundle(value) => MigrationErrorView::DuplicateBundle(value@),
            MigrationError::CrossBundleReference { bundle_id, version, table } =>
                MigrationErrorView::CrossBundleReference {
                bundle_id: bundle_id@,
                version,
                table: table@,
            },
            MigrationError::UnknownAppliedVersion { bundle_id, version } =>
                MigrationErrorView::UnknownAppliedVersion { bundle_id: bundle_id@, version },
            MigrationError::ChecksumMismatch { bundle_id, version, expected, actual } =>
                MigrationErrorView::ChecksumMismatch {
                bundle_id: bundle_id@,
                version,
                expected: expected@,
                actual: actual@,
            },
            MigrationError::PendingMigration { bundle_id, version } =>
                MigrationErrorView::PendingMigration { bundle_id: bundle_id@, version },
            MigrationError::LedgerVersionMismatch { ledger_table, expected, found } =>
                MigrationErrorView::LedgerVersionMismatch {
                ledger_table: ledger_table@,
                expected,
                found,
            },
            MigrationError::LedgerMetadataRowCount { meta_table, found } =>
                MigrationErrorView::LedgerMetadataRowCount { meta_table: meta_table@, found },
            MigrationError::IncompleteLedger {
                ledger_table,
                meta_table,
                ledger_exists,
                meta_exists,
            } => MigrationErrorView::IncompleteLedger {
                ledger_table: ledger_table@,
                meta_table: meta_table@,
                ledger_exists,
                meta_exists,
            },
            MigrationError::Backend { operation, message } => MigrationErrorView::Backend {
                operation: operation@,
                message: message@,
            },
        }
    }
}

/// `true` or `false`.
pub open spec fn truth(b: bool) -> Seq<char> {
    if b {
        "true"@
    } else {
        "false"@
    }
}

fn truth_text(b: bool) -> (s: &'static str)
    ensures
        s@ == truth(b),
{
    if b {
        "true"
    } else {
        "false"
    }
}

impl MigrationErrorView {
    /// The text that a person reads of the error.
    pub open spec fn message(self) -> Seq<char> {
        match self {
            MigrationErrorView::InvalidSqlIdentifier(value) => "invalid SQL identifier prefix '"@
                + value + "'"@,
            MigrationErrorView::InvalidBundleId(value) => "invalid migration bundle id '"@ + value
                + "'"@,
            MigrationErrorView::InvalidMigration { version, reason } => "invalid migration "@
                + decimal(version as int) + ": "@ + reason,
            MigrationErrorView::ConditionalSql { version, clause } => "migration V"@
                + padded_version(version as int) + " contains conditional SQL: "@ + clause,
            MigrationErrorView::PublishedLegacyChecksumMismatch {
                version,
                body_kind,
                expected,
                actual,
            } => "published legacy migration V"@ + padded_version(version as int) + " "@ + body_kind
                + " checksum mismatch: expected "@ + expected + ", actual "@ + actual,
            MigrationErrorView::DuplicateMigrationVersion { bundle_id, version } => "bundle '"@
                + bundle_id + "' contains duplicate migration version V"@ + padded_version(
                version as int,
            ),
            MigrationErrorView::InvalidMigrationOrder { bundle_id, previous, current } =>
                "bundle '"@ + bundle_id + "' migrations are not strictly increasing: V"@
                + padded_version(previous as int) + " then V"@ + padded_version(current as int),
            MigrationErrorView::DuplicateBundle(value) => "duplicate migration bundle '"@ + value
                + "'"@,
            MigrationErrorView::CrossBundleReference { bundle_id, version, table } => "bundle '"@
                + bundle_id + "' migration V"@ + padded_version(version as int)
                + " references table '"@ + table + "' that no migration in the bundle creates"@,
            MigrationErrorView::UnknownAppliedVersion { bundle_id, version } => "bundle '"@
                + bundle_id + "' has unknown applied version V"@ + padded_version(version as int),
            MigrationErrorView::ChecksumMismatch { bundle_id, version, expected, actual } =>
                "bundle '"@ + bundle_id + "' migration V"@ + padded_version(version as int)
                + " checksum mismatch: expected "@ + expected + ", actual "@ + actual,
            MigrationErrorView::PendingMigration { bundle_id, version } => "bundle '"@ + bundle_id
                + "' migration V"@ + padded_version(version as int) + " is pending"@,
            MigrationErrorView::LedgerVersionMismatch { ledger_table, expected, found } =>
                "ledger '"@ + ledger_table + "' is stamped version "@ + decimal(found as int)
                + ", but this runner expects "@ + decimal(expected as int),
            MigrationErrorView::LedgerMetadataRowCount { meta_table, found } =>
                "ledger metadata table '"@ + meta_table + "' holds "@ + decimal(found as int)
                + " rows instead of one"@,
            MigrationErrorView::IncompleteLedger {
                ledger_table,
                meta_table,
                ledger_exists,
                meta_exists,
            } => "incomplete ledger: table '"@ + ledger_table + "' exists: "@ + truth(ledger_exists)
                + ", table '"@ + meta_table + "' exists: "@ + truth(meta_exists),
            MigrationErrorView::Backend { operation, message } => "migration backend operation '"@
                + operation + "' failed: "@ + message,
        }
    }
}

/// The zero-padded display form of a version, without its `V`.
fn padded_version_text(version: i64) -> (s: String)
    ensures
        s@ == padded_version(version as int),
{
    let label = version_label(version);
    let chars = crate::text::chars_of(label.as_str());
    let s = crate::text::slice_text(&chars, 1, chars.len());
    assert(s@ =~= padded_version(version as int));
    s
}

impl MigrationError {
    /// The text that a person reads of the error.
    pub fn message(&self) -> (text: String)
        ensures
            text@ == self@.message(),
    {
        match self {
            MigrationError::InvalidSqlIdentifier(value) => "invalid SQL identifier prefix '".to_owned().concat(
                value.as_str(),
            ).concat("'"),
            MigrationError::InvalidBundleId(value) => "invalid migration bundle id '".to_owned().concat(
                value.as_str(),
            ).concat("'"),
            MigrationError::InvalidMigration { version, reason } => {
                let number = decimal_text(*version);
                "invalid migration ".to_owned().concat(number.as_str()).concat(": ").concat(reason)
            },
            MigrationError::ConditionalSql { version, clause } => {
                let number = padded_version_text(*version);
                "migration V".to_owned().concat(number.as_str()).concat(
                    " contains conditional SQL: ",
                ).concat(clause)
            },
            MigrationError::PublishedLegacyChecksumMismatch {
                version,
                body_kind,
                expected,
                actual,
            } => {
                let number = padded_version_text(*version);
                "published legacy migration V".to_owned().concat(number.as_str()).concat(
                    " ",
                ).concat(body_kind).concat(" checksum mismatch: expected ").concat(
                    expected.as_str(),
                ).concat(", actual ").concat(actual.as_str())
            },
            MigrationError::DuplicateMigrationVersion { bundle_id, version } => {
                let number = padded_version_text(*version);
                "bundle '".to_owned().concat(bundle_id.as_str()).concat(
                    "' contains duplicate migration version V",
                ).concat(number.as_str())
            },
            MigrationError::InvalidMigrationOrder { bundle_id, previous, current } => {
                let first = padded_version_text(*previous);
                let second = padded_version_text(*current);
                "bundle '".to_owned().concat(bundle_id.as_str()).concat(
                    "' migrations are not strictly increasing: V",
                ).concat(first.as_str()).concat(" then V").concat(second.as_str())
            },
            MigrationError::DuplicateBundle(value) => "duplicate migration bundle '".to_owned().concat(
                value.as_str(),
            ).concat("'"),
            MigrationError::CrossBundleReference { bundle_id, version, table } => {
                let number = padded_version_text(*version);
                "bundle '".to_owned().concat(bundle_id.as_str()).concat("' migration V").concat(
                    number.as_str(),
                ).concat(" references table '").concat(table.as_str()).concat(
                    "' that no migration in the bundle creates",
                )
            },
            MigrationError::UnknownAppliedVersion { bundle_id, version } => {
                let number = padded_version_text(*version);
                "bundle '".to_owned().concat(bundle_id.as_str()).concat(
                    "' has unknown applied version V",
                ).concat(number.as_str())
            },
            MigrationError::ChecksumMismatch { bundle_id, version, expected, actual } => {
                let number = padded_version_text(*version);
                "bundle '".to_owned().concat(bundle_id.as_str()).concat("' migration V").concat(
                    number.as_str(),
                ).concat(" checksum mismatch: expected ").concat(expected.as_str()).concat(
                    ", actual ",
                ).concat(actual.as_str())
            },
            MigrationError::PendingMigration { bundle_id, version } => {
                let number = padded_version_text(*version);
                "bundle '".to_owned().concat(bundle_id.as_str()).concat("' migration V").concat(
                    number.as_str(),
                ).concat(" is pending")
            },
            MigrationError::LedgerVersionMismatch { ledger_table, expected, found } => {
                let stamped = decimal_text(*found);
                let wanted = decimal_text(*expected);
                "ledger '".to_owned().concat(ledger_table.as_str()).concat(
                    "' is stamped version ",
                ).concat(stamped.as_str()).concat(", but this runner expects ").concat(
                    wanted.as_str(),
                )
            },
            MigrationError::LedgerMetadataRowCount { meta_table, found } => {
                let rows = digits_text(*found as u128);
                "ledger metadata table '".to_owned().concat(meta_table.as_str()).concat(
                    "' holds ",
                ).concat(rows.as_str()).concat(" rows instead of one")
            },
            MigrationError::IncompleteLedger {
                ledger_table,
                meta_table,
                ledger_exists,
                meta_exists,
            } => "incomplete ledger: table '".to_owned().concat(ledger_table.as_str()).concat(
                "' exists: ",
            ).concat(truth_text(*ledger_exists)).concat(", table '").concat(
                meta_table.as_str(),
            ).concat("' exists: ").concat(truth_text(*meta_exists)),
            MigrationError::Backend { operation, message } => "migration backend operation '".to_owned().concat(
                operation,
            ).concat("' failed: ").concat(message.as_str()),
        }
    }
}

} // verus!

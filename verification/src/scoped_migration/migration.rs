//! Migrations and bundles: what a migration carries, how it is identified, and
//! when a bundle is well formed.
use crate::checksum::{checksum_text, sha256_hex};
use crate::identifier::{is_sql_identifier, sql_identifier_valid};
use crate::scan::stands_at;
use crate::scoped_migration::error::{
    label_of, version_label, MigrationError, MigrationErrorView,
};
use crate::scoped_migration::identity::identity_input;
use crate::scoped_migration::words::{keyword_at, next_is, tokenize_words, words_of};
use crate::text::{blank, is_blank, lemma_replaced_absent, replace, replaced, same_text, texts};
use vstd::prelude::*;
use vstd::string::*;

verus! {

/// The SQL dialect a backend runner targets.
///
/// A portable migration resolves identically for every dialect; a
/// [`Migration::per_dialect`] escape-hatch migration resolves to the selected
/// dialect's body and checksum.
#[derive(Debug, Clone, Copy, PartialEq, Eq, Structural)]
pub enum Dialect {
    Postgres,
    Sqlite,
}

impl Dialect {
    pub open spec fn json_type(self) -> Seq<char> {
        match self {
            Dialect::Postgres => "JSONB"@,
            Dialect::Sqlite => "TEXT"@,
        }
    }

    pub open spec fn timestamptz_type(self) -> Seq<char> {
        match self {
            Dialect::Postgres => "TIMESTAMPTZ"@,
            Dialect::Sqlite => "TEXT"@,
        }
    }

    pub open spec fn now_value(self) -> Seq<char> {
        match self {
            Dialect::Postgres => "now()"@,
            Dialect::Sqlite => "CURRENT_TIMESTAMP"@,
        }
    }

    pub open spec fn blob_type(self) -> Seq<char> {
        match self {
            Dialect::Postgres => "BYTEA"@,
            Dialect::Sqlite => "BLOB"@,
        }
    }

    pub open spec fn pk_autoinc_clause(self) -> Seq<char> {
        match self {
            Dialect::Postgres => "BIGSERIAL PRIMARY KEY"@,
            Dialect::Sqlite => "INTEGER PRIMARY KEY AUTOINCREMENT"@,
        }
    }

    /// `{json}` column type: structured JSON storage.
    fn json(self) -> (s: &'static str)
        ensures
            s@ == self.json_type(),
    {
        match self {
            Dialect::Postgres => "JSONB",
            Dialect::Sqlite => "TEXT",
        }
    }

    /// `{timestamptz}` column type: an instant with time-zone semantics.
    fn timestamptz(self) -> (s: &'static str)
        ensures
            s@ == self.timestamptz_type(),
    {
        match self {
            Dialect::Postgres => "TIMESTAMPTZ",
            Dialect::Sqlite => "TEXT",
        }
    }

    /// `{now}` value expression: the current instant at statement time.
    fn now(self) -> (s: &'static str)
        ensures
            s@ == self.now_value(),
    {
        match self {
            Dialect::Postgres => "now()",
            Dialect::Sqlite => "CURRENT_TIMESTAMP",
        }
    }

    /// `{blob}` column type: opaque binary bytes.
    fn blob(self) -> (s: &'static str)
        ensures
            s@ == self.blob_type(),
    {
        match self {
            Dialect::Postgres => "BYTEA",
            Dialect::Sqlite => "BLOB",
        }
    }

    /// `{pk_autoinc}` column clause: an auto-incrementing integer primary key.
    fn pk_autoinc(self) -> (s: &'static str)
        ensures
            s@ == self.pk_autoinc_clause(),
    {
        match self {
            Dialect::Postgres => "BIGSERIAL PRIMARY KEY",
            Dialect::Sqlite => "INTEGER PRIMARY KEY AUTOINCREMENT",
        }
    }
}

/// The SQL that a template stands for: every token of the closed vocabulary
/// resolved for `dialect`, the prefix first.
pub open spec fn rendered(template: Seq<char>, dialect: Dialect, prefix: Seq<char>) -> Seq<char> {
    let s = replaced(template, "{prefix}"@, prefix);
    let s = replaced(s, "{json}"@, dialect.json_type());
    let s = replaced(s, "{timestamptz}"@, dialect.timestamptz_type());
    let s = replaced(s, "{now}"@, dialect.now_value());
    let s = replaced(s, "{blob}"@, dialect.blob_type());
    replaced(s, "{pk_autoinc}"@, dialect.pk_autoinc_clause())
}

/// Render a portable token template to backend SQL for `dialect`.
///
/// A migration body is a dialect-neutral template carrying the closed token
/// vocabulary: `{prefix}` for the per-database table prefix and a small type
/// vocabulary (`{json}`, `{timestamptz}`, `{now}`, `{blob}`, `{pk_autoinc}`).
/// Rendering happens at apply time in the runner; the stored template and its
/// checksum stay over the template. Any other `{...}` sequence is not a token
/// and passes through untouched.
pub fn render(template: &str, dialect: Dialect, prefix: &str) -> (sql: String)
    ensures
        sql@ == rendered(template@, dialect, prefix@),
{
    proof {
        reveal_strlit("{prefix}");
        reveal_strlit("{json}");
        reveal_strlit("{timestamptz}");
        reveal_strlit("{now}");
        reveal_strlit("{blob}");
        reveal_strlit("{pk_autoinc}");
    }
    let s = replace(template, "{prefix}", prefix);
    let s = replace(s.as_str(), "{json}", dialect.json());
    let s = replace(s.as_str(), "{timestamptz}", dialect.timestamptz());
    let s = replace(s.as_str(), "{now}", dialect.now());
    let s = replace(s.as_str(), "{blob}", dialect.blob());
    replace(s.as_str(), "{pk_autoinc}", dialect.pk_autoinc())
}

pub open spec fn occurs(s: Seq<char>, pattern: Seq<char>) -> bool {
    exists|k: int| 0 <= k < s.len() && #[trigger] stands_at(s, k, pattern)
}

/// Rendering touches nothing but the tokens: a template in which none of them
/// occurs is its own rendering, for every dialect and prefix.
pub proof fn rendering_leaves_other_text(template: Seq<char>, dialect: Dialect, prefix: Seq<char>)
    requires
        !occurs(template, "{prefix}"@),
        !occurs(template, "{json}"@),
        !occurs(template, "{timestamptz}"@),
        !occurs(template, "{now}"@),
        !occurs(template, "{blob}"@),
        !occurs(template, "{pk_autoinc}"@),
    ensures
        rendered(template, dialect, prefix) == template,
{
    reveal_strlit("{prefix}");
    reveal_strlit("{json}");
    reveal_strlit("{timestamptz}");
    reveal_strlit("{now}");
    reveal_strlit("{blob}");
    reveal_strlit("{pk_autoinc}");
    assert(template.skip(0) =~= template);
    lemma_replaced_absent(template, 0, "{prefix}"@, prefix);
    lemma_replaced_absent(template, 0, "{json}"@, dialect.json_type());
    lemma_replaced_absent(template, 0, "{timestamptz}"@, dialect.timestamptz_type());
    lemma_replaced_absent(template, 0, "{now}"@, dialect.now_value());
    lemma_replaced_absent(template, 0, "{blob}"@, dialect.blob_type());
    lemma_replaced_absent(template, 0, "{pk_autoinc}"@, dialect.pk_autoinc_clause());
}

/// A migration's SQL body.
///
/// The default is `Portable`: one dialect-neutral token template with the same
/// checksum on every backend. `PerDialect` carries one body per dialect and is
/// checksummed per the selected dialect. The published forms hold bodies that
/// were released before conditional SQL was refused, pinned to the checksums
/// that ledgers already record.
#[derive(Debug, Clone, PartialEq, Eq)]
enum MigrationBody {
    Portable(String),
    PerDialect { postgres: String, sqlite: String },
    PublishedLegacy { sql: String, checksum: String, aliases: Vec<String> },
    PublishedLegacyPerDialect {
        postgres: String,
        sqlite: String,
        postgres_checksum: String,
        sqlite_checksum: String,
    },
}

/// A migration body as character sequences.
pub enum BodyView {
    Portable(Seq<char>),
    PerDialect { postgres: Seq<char>, sqlite: Seq<char> },
    PublishedLegacy { sql: Seq<char>, checksum: Seq<char>, aliases: Seq<Seq<char>> },
    PublishedLegacyPerDialect {
        postgres: Seq<char>,
        sqlite: Seq<char>,
        postgres_checksum: Seq<char>,
        sqlite_checksum: Seq<char>,
    },
}

impl View for MigrationBody {
    type V = BodyView;

    closed spec fn view(&self) -> BodyView {
        match *self {
            MigrationBody::Portable(sql) => BodyView::Portable(sql@),
            MigrationBody::PerDialect { postgres, sqlite } => BodyView::PerDialect {
                postgres: postgres@,
                sqlite: sqlite@,
            },
            MigrationBody::PublishedLegacy { sql, checksum, aliases } => BodyView::PublishedLegacy {
                sql: sql@,
                checksum: checksum@,
                aliases: texts(aliases@),
            },
            MigrationBody::PublishedLegacyPerDialect {
                postgres,
                sqlite,
                postgres_checksum,
                sqlite_checksum,
            } => BodyView::PublishedLegacyPerDialect {
                postgres: postgres@,
                sqlite: sqlite@,
                postgres_checksum: postgres_checksum@,
                sqlite_checksum: sqlite_checksum@,
            },
        }
    }
}

/// One ordered SQL migration inside a named bundle.
#[derive(Debug, Clone, PartialEq, Eq)]
pub struct Migration {
    version: i64,
    description: String,
    body: MigrationBody,
}

/// What a migration is: its version, its description and its body.
pub struct MigrationView {
    pub version: i64,
    pub description: Seq<char>,
    pub body: BodyView,
}

impl View for Migration {
    type V = MigrationView;

    closed spec fn view(&self) -> MigrationView {
        MigrationView {
            version: self.version,
            description: self.description@,
            body: self.body@,
        }
    }
}

/// `SHA-256(label || 0x00 || sql)` in hexadecimal.
pub open spec fn body_checksum(version: i64, sql: Seq<char>) -> Seq<char> {
    checksum_text(identity_input(version, sql))
}

/// The first conditional clause among the words from `i` on.
pub open spec fn clause_from(words: Seq<Seq<char>>, i: int) -> Option<Seq<char>>
    decreases words.len() - i,
{
    if i < 0 || i >= words.len() {
        None
    } else if keyword_at(words, i, "if"@) && keyword_at(words, i + 1, "not"@) && keyword_at(
        words,
        i + 2,
        "exists"@,
    ) {
        Some("IF NOT EXISTS"@)
    } else if keyword_at(words, i, "if"@) && keyword_at(words, i + 1, "exists"@) {
        Some("IF EXISTS"@)
    } else if keyword_at(words, i, "create"@) && keyword_at(words, i + 1, "or"@) && keyword_at(
        words,
        i + 2,
        "replace"@,
    ) {
        Some("CREATE OR REPLACE"@)
    } else {
        clause_from(words, i + 1)
    }
}

/// The first clause of a SQL body that makes it depend on the state of the
/// database: `IF NOT EXISTS`, `IF EXISTS` or `CREATE OR REPLACE`.
pub open spec fn conditional_clause_of(sql: Seq<char>) -> Option<Seq<char>> {
    clause_from(words_of(sql), 0)
}

/// The fault of a list of freshly written bodies: the first conditional clause.
pub open spec fn conditional_fault(version: i64, bodies: Seq<Seq<char>>) -> Option<
    MigrationErrorView,
>
    decreases bodies.len(),
{
    if bodies.len() == 0 {
        None
    } else if conditional_clause_of(bodies[0]) is Some {
        Some(
            MigrationErrorView::ConditionalSql {
                version,
                clause: conditional_clause_of(bodies[0])->0,
            },
        )
    } else {
        conditional_fault(version, bodies.drop_first())
    }
}

/// The fault of a published body: a pinned checksum that is not its own.
pub open spec fn pin_fault(
    version: i64,
    kind: Seq<char>,
    sql: Seq<char>,
    pinned: Seq<char>,
) -> Option<MigrationErrorView> {
    if body_checksum(version, sql) == pinned {
        None
    } else {
        Some(
            MigrationErrorView::PublishedLegacyChecksumMismatch {
                version,
                body_kind: kind,
                expected: pinned,
                actual: body_checksum(version, sql),
            },
        )
    }
}

pub open spec fn refused(version: i64, reason: Seq<char>) -> Option<MigrationErrorView> {
    Some(MigrationErrorView::InvalidMigration { version, reason })
}

impl MigrationView {
    pub open spec fn label(self) -> Seq<char> {
        label_of(self.version as int)
    }

    /// The label, a space and the description.
    pub open spec fn ledger_description(self) -> Seq<char> {
        self.label() + " "@ + self.description
    }

    /// The body that `dialect` applies.
    pub open spec fn sql_for(self, dialect: Dialect) -> Seq<char> {
        match self.body {
            BodyView::Portable(sql) => sql,
            BodyView::PublishedLegacy { sql, checksum, aliases } => sql,
            BodyView::PerDialect { postgres, sqlite } => match dialect {
                Dialect::Postgres => postgres,
                Dialect::Sqlite => sqlite,
            },
            BodyView::PublishedLegacyPerDialect {
                postgres,
                sqlite,
                postgres_checksum,
                sqlite_checksum,
            } => match dialect {
                Dialect::Postgres => postgres,
                Dialect::Sqlite => sqlite,
            },
        }
    }

    /// Every distinct body that the migration carries.
    pub open spec fn bodies(self) -> Seq<Seq<char>> {
        match self.body {
            BodyView::Portable(sql) => seq![sql],
            BodyView::PublishedLegacy { sql, checksum, aliases } => seq![sql],
            BodyView::PerDialect { postgres, sqlite } => seq![postgres, sqlite],
            BodyView::PublishedLegacyPerDialect {
                postgres,
                sqlite,
                postgres_checksum,
                sqlite_checksum,
            } => seq![postgres, sqlite],
        }
    }

    /// The migration's identity on `dialect`.
    pub open spec fn checksum_for(self, dialect: Dialect) -> Seq<char> {
        body_checksum(self.version, self.sql_for(dialect))
    }

    /// Whether a ledger row with this checksum records the migration on
    /// `dialect`: its own checksum, or one of its published aliases.
    pub open spec fn accepts(self, dialect: Dialect, recorded: Seq<char>) -> bool {
        recorded == self.checksum_for(dialect) || match self.body {
            BodyView::PublishedLegacy { sql, checksum, aliases } => aliases.contains(recorded),
            _ => false,
        }
    }

    /// One body for every dialect.
    pub open spec fn is_portable(self) -> bool {
        self.body is Portable || self.body is PublishedLegacy
    }

    /// Why the migration is refused, if it is: a version that is not positive, a
    /// blank description, a blank body, conditional SQL in a fresh body, or a
    /// published body that does not have its pinned checksum.
    pub open spec fn fault(self) -> Option<MigrationErrorView> {
        if self.version <= 0 {
            refused(self.version, "version must be positive"@)
        } else if is_blank(self.description) {
            refused(self.version, "description must not be blank"@)
        } else if exists|i: int| 0 <= i < self.bodies().len() && is_blank(#[trigger] self.bodies()[i]) {
            refused(self.version, "sql must not be blank"@)
        } else {
            match self.body {
                BodyView::PublishedLegacy { sql, checksum, aliases } => pin_fault(
                    self.version,
                    "portable"@,
                    sql,
                    checksum,
                ),
                BodyView::PublishedLegacyPerDialect {
                    postgres,
                    sqlite,
                    postgres_checksum,
                    sqlite_checksum,
                } => match pin_fault(self.version, "postgres"@, postgres, postgres_checksum) {
                    Some(fault) => Some(fault),
                    None => pin_fault(self.version, "sqlite"@, sqlite, sqlite_checksum),
                },
                _ => conditional_fault(self.version, self.bodies()),
            }
        }
    }
}

/// What a check of a value says: nothing, or the fault.
pub open spec fn is_verdict(r: Result<(), MigrationError>, fault: Option<MigrationErrorView>) -> bool {
    match r {
        Ok(()) => fault is None,
        Err(error) => fault == Some(error@),
    }
}

/// The first conditional clause of a SQL body.
fn conditional_clause(sql: &str) -> (clause: Option<&'static str>)
    ensures
        clause is Some <==> conditional_clause_of(sql@) is Some,
        clause is Some ==> clause->0@ == conditional_clause_of(sql@)->0,
{
    let words = tokenize_words(sql);
    let len: usize = words.len();
    let mut i: usize = 0;
    while i < len
        invariant
            i <= len == words@.len(),
            texts(words@) == words_of(sql@),
            conditional_clause_of(sql@) == clause_from(words_of(sql@), i as int),
        decreases len - i,
    {
        let next: usize = i + 1;
        if next < len && next_is(&words, i, "if") {
            if next_is(&words, next, "not") && next_is(&words, next + 1, "exists") {
                return Some("IF NOT EXISTS");
            }
            if next_is(&words, next, "exists") {
                return Some("IF EXISTS");
            }
        }
        if next < len && next_is(&words, i, "create") && next_is(&words, next, "or") && next_is(
            &words,
            next + 1,
            "replace",
        ) {
            return Some("CREATE OR REPLACE");
        }
        i = next;
    }
    None
}

/// The identity of a body under a version.
fn body_checksum_text(version: i64, sql: &str) -> (checksum: String)
    ensures
        checksum@ == body_checksum(version, sql@),
        checksum@.len() == 64,
{
    let label = version_label(version);
    let mut input: Vec<u8> = Vec::new();
    input.extend_from_slice(label.as_str().as_bytes());
    input.push(0u8);
    input.extend_from_slice(sql.as_bytes());
    assert(input@ =~= identity_input(version, sql@));
    sha256_hex(input.as_slice())
}

/// Whether a published body has its pinned checksum.
fn check_pin(version: i64, kind: &'static str, sql: &str, pinned: &str) -> (r: Result<
    (),
    MigrationError,
>)
    ensures
        is_verdict(r, pin_fault(version, kind@, sql@, pinned@)),
{
    let actual = body_checksum_text(version, sql);
    if same_text(actual.as_str(), pinned) {
        Ok(())
    } else {
        Err(
            MigrationError::PublishedLegacyChecksumMismatch {
                version,
                body_kind: kind,
                expected: pinned.to_owned(),
                actual,
            },
        )
    }
}

impl Migration {
    /// A portable migration: one dialect-neutral token template, identical
    /// checksum on every backend. This is the default and the norm.
    pub fn new(version: i64, description: &str, sql: &str) -> (r: Result<Self, MigrationError>)
        ensures
            ({
                let wanted = MigrationView {
                    version,
                    description: description@,
                    body: BodyView::Portable(sql@),
                };
                match r {
                    Ok(migration) => wanted.fault() is None && migration@ == wanted,
                    Err(error) => wanted.fault() == Some(error@),
                }
            }),
    {
        Migration {
            version,
            description: description.to_owned(),
            body: MigrationBody::Portable(sql.to_owned()),
        }.checked()
    }

    /// Escape hatch for SQL that genuinely cannot be expressed in the portable
    /// token vocabulary: one body per dialect.
    ///
    /// Such a migration opts out of dialect-independence explicitly: it is
    /// checksummed per the selected dialect's body and is otherwise treated like
    /// any other migration.
    pub fn per_dialect(version: i64, description: &str, postgres: &str, sqlite: &str) -> (r: Result<
        Self,
        MigrationError,
    >)
        ensures
            ({
                let wanted = MigrationView {
                    version,
                    description: description@,
                    body: BodyView::PerDialect { postgres: postgres@, sqlite: sqlite@ },
                };
                match r {
                    Ok(migration) => wanted.fault() is None && migration@ == wanted,
                    Err(error) => wanted.fault() == Some(error@),
                }
            }),
    {
        Migration {
            version,
            description: description.to_owned(),
            body: MigrationBody::PerDialect {
                postgres: postgres.to_owned(),
                sqlite: sqlite.to_owned(),
            },
        }.checked()
    }

    /// A portable body that was released before conditional SQL was refused,
    /// pinned to the checksum that ledgers record for it.
    pub fn published_legacy(version: i64, description: &str, sql: &str, checksum: String) -> (r:
        Result<Self, MigrationError>)
        ensures
            ({
                let wanted = MigrationView {
                    version,
                    description: description@,
                    body: BodyView::PublishedLegacy {
                        sql: sql@,
                        checksum: checksum@,
                        aliases: Seq::empty(),
                    },
                };
                match r {
                    Ok(migration) => wanted.fault() is None && migration@ == wanted,
                    Err(error) => wanted.fault() == Some(error@),
                }
            }),
    {
        let aliases: Vec<String> = Vec::new();
        assert(texts(aliases@) =~= Seq::empty());
        Migration {
            version,
            description: description.to_owned(),
            body: MigrationBody::PublishedLegacy { sql: sql.to_owned(), checksum, aliases },
        }.checked()
    }

    /// A published body for which ledgers of a parallel release track record
    /// other checksums. An alias never selects or executes other SQL.
    pub fn published_legacy_with_aliases(
        version: i64,
        description: &str,
        sql: &str,
        checksum: String,
        aliases: Vec<String>,
    ) -> (r: Result<Self, MigrationError>)
        ensures
            ({
                let wanted = MigrationView {
                    version,
                    description: description@,
                    body: BodyView::PublishedLegacy {
                        sql: sql@,
                        checksum: checksum@,
                        aliases: texts(aliases@),
                    },
                };
                match r {
                    Ok(migration) => wanted.fault() is None && migration@ == wanted,
                    Err(error) => wanted.fault() == Some(error@),
                }
            }),
    {
        Migration {
            version,
            description: description.to_owned(),
            body: MigrationBody::PublishedLegacy { sql: sql.to_owned(), checksum, aliases },
        }.checked()
    }

    /// Published bodies, one per dialect, each pinned to its checksum.
    pub fn published_legacy_per_dialect(
        version: i64,
        description: &str,
        postgres: &str,
        sqlite: &str,
        postgres_checksum: String,
        sqlite_checksum: String,
    ) -> (r: Result<Self, MigrationError>)
        ensures
            ({
                let wanted = MigrationView {
                    version,
                    description: description@,
                    body: BodyView::PublishedLegacyPerDialect {
                        postgres: postgres@,
                        sqlite: sqlite@,
                        postgres_checksum: postgres_checksum@,
                        sqlite_checksum: sqlite_checksum@,
                    },
                };
                match r {
                    Ok(migration) => wanted.fault() is None && migration@ == wanted,
                    Err(error) => wanted.fault() == Some(error@),
                }
            }),
    {
        Migration {
            version,
            description: description.to_owned(),
            body: MigrationBody::PublishedLegacyPerDialect {
                postgres: postgres.to_owned(),
                sqlite: sqlite.to_owned(),
                postgres_checksum,
                sqlite_checksum,
            },
        }.checked()
    }

    /// The migration itself, if it has no fault.
    fn checked(self) -> (r: Result<Self, MigrationError>)
        ensures
            match r {
                Ok(migration) => self@.fault() is None && migration@ == self@,
                Err(error) => self@.fault() == Some(error@),
            },
    {
        match self.validate() {
            Ok(()) => Ok(self),
            Err(error) => Err(error),
        }
    }

    pub fn version(&self) -> (version: i64)
        ensures
            version == self@.version,
    {
        self.version
    }

    /// Human-readable, zero-padded version label (`V0001`).
    ///
    /// The stored version stays an `i64` for ordering and the ledger primary
    /// key; this is the display form, recorded in the ledger's `description`,
    /// surfaced in error messages, and the leading field of the checksum, so
    /// that reordering a recorded version fails closed.
    pub fn label(&self) -> (label: String)
        ensures
            label@ == self@.label(),
    {
        version_label(self.version)
    }

    pub fn description(&self) -> (description: &str)
        ensures
            description@ == self@.description,
    {
        self.description.as_str()
    }

    /// The description as recorded in the ledger row: the readable label
    /// followed by the human description (`"V0001 create the event store"`).
    pub fn ledger_description(&self) -> (description: String)
        ensures
            description@ == self@.ledger_description(),
    {
        self.label().concat(" ").concat(self.description.as_str())
    }

    /// The SQL body this migration applies on `dialect`. A portable migration
    /// returns the same template for every dialect; a [`Migration::per_dialect`]
    /// one returns the dialect-specific body.
    pub fn sql_for(&self, dialect: Dialect) -> (sql: &str)
        ensures
            sql@ == self@.sql_for(dialect),
    {
        match &self.body {
            MigrationBody::Portable(sql) => sql.as_str(),
            MigrationBody::PublishedLegacy { sql, checksum: _, aliases: _ } => sql.as_str(),
            MigrationBody::PerDialect { postgres, sqlite } => match dialect {
                Dialect::Postgres => postgres.as_str(),
                Dialect::Sqlite => sqlite.as_str(),
            },
            MigrationBody::PublishedLegacyPerDialect {
                postgres,
                sqlite,
                postgres_checksum: _,
                sqlite_checksum: _,
            } => match dialect {
                Dialect::Postgres => postgres.as_str(),
                Dialect::Sqlite => sqlite.as_str(),
            },
        }
    }

    /// Every distinct SQL body this migration carries: one for a portable
    /// migration, both dialect bodies for a [`Migration::per_dialect`] one.
    pub(crate) fn bodies(&self) -> (bodies: Vec<&str>)
        ensures
            bodies@.map_values(|body: &str| body@) == self@.bodies(),
    {
        match &self.body {
            MigrationBody::Portable(sql) => {
                let bodies: Vec<&str> = vec![sql.as_str()];
                assert(bodies@.map_values(|body: &str| body@) =~= self@.bodies());
                bodies
            },
            MigrationBody::PublishedLegacy { sql, checksum: _, aliases: _ } => {
                let bodies: Vec<&str> = vec![sql.as_str()];
                assert(bodies@.map_values(|body: &str| body@) =~= self@.bodies());
                bodies
            },
            MigrationBody::PerDialect { postgres, sqlite } => {
                let bodies: Vec<&str> = vec![postgres.as_str(), sqlite.as_str()];
                assert(bodies@.map_values(|body: &str| body@) =~= self@.bodies());
                bodies
            },
            MigrationBody::PublishedLegacyPerDialect {
                postgres,
                sqlite,
                postgres_checksum: _,
                sqlite_checksum: _,
            } => {
                let bodies: Vec<&str> = vec![postgres.as_str(), sqlite.as_str()];
                assert(bodies@.map_values(|body: &str| body@) =~= self@.bodies());
                bodies
            },
        }
    }

    /// Recorded identity of the migration on `dialect`:
    /// `SHA-256(label_bytes || 0x00 || body_bytes)`.
    ///
    /// For a portable migration the body is the neutral template, so the hash is
    /// dialect-independent. For a [`Migration::per_dialect`] migration the body
    /// is the selected dialect's SQL. The label is part of the input so that a
    /// reordered version is detected as drift; the `0x00` separator keeps the
    /// label and body fields unambiguous.
    pub fn checksum_for(&self, dialect: Dialect) -> (checksum: String)
        ensures
            checksum@ == self@.checksum_for(dialect),
            checksum@.len() == 64,
    {
        body_checksum_text(self.version, self.sql_for(dialect))
    }

    /// Whether a ledger row with the checksum `recorded` records this migration
    /// on `dialect`.
    pub fn accepts_recorded(&self, dialect: Dialect, recorded: &str) -> (accepted: bool)
        ensures
            accepted == self@.accepts(dialect, recorded@),
    {
        let own = self.checksum_for(dialect);
        if same_text(own.as_str(), recorded) {
            return true;
        }
        match &self.body {
            MigrationBody::PublishedLegacy { sql: _, checksum: _, aliases } => {
                let mut i: usize = 0;
                while i < aliases.len()
                    invariant
                        i <= aliases@.len(),
                        self@.body == (BodyView::PublishedLegacy {
                            sql: self@.body->PublishedLegacy_sql,
                            checksum: self@.body->PublishedLegacy_checksum,
                            aliases: texts(aliases@),
                        }),
                        forall|k: int| 0 <= k < i ==> #[trigger] texts(aliases@)[k] != recorded@,
                    decreases aliases@.len() - i,
                {
                    assert(texts(aliases@)[i as int] == aliases@[i as int]@);
                    if same_text(aliases[i].as_str(), recorded) {
                        return true;
                    }
                    i += 1;
                }
                false
            },
            _ => false,
        }
    }

    /// Dialect-neutral validation. Statement-count and other driver-specific
    /// limits are enforced by the backend shell, not here.
    pub(crate) fn validate(&self) -> (r: Result<(), MigrationError>)
        ensures
            is_verdict(r, self@.fault()),
    {
        if self.version <= 0 {
            return Err(
                MigrationError::InvalidMigration {
                    version: self.version,
                    reason: "version must be positive",
                },
            );
        }
        if blank(self.description.as_str()) {
            return Err(
                MigrationError::InvalidMigration {
                    version: self.version,
                    reason: "description must not be blank",
                },
            );
        }
        let bodies = self.bodies();
        let mut i: usize = 0;
        while i < bodies.len()
            invariant
                i <= bodies@.len(),
                self.version > 0,
                !is_blank(self@.description),
                bodies@.map_values(|body: &str| body@) == self@.bodies(),
                forall|k: int| 0 <= k < i ==> !is_blank(#[trigger] self@.bodies()[k]),
            decreases bodies@.len() - i,
        {
            assert(self@.bodies()[i as int] == bodies@[i as int]@);
            if blank(bodies[i]) {
                return Err(
                    MigrationError::InvalidMigration {
                        version: self.version,
                        reason: "sql must not be blank",
                    },
                );
            }
            i += 1;
        }
        match &self.body {
            MigrationBody::PublishedLegacy { sql, checksum, aliases: _ } => check_pin(
                self.version,
                "portable",
                sql.as_str(),
                checksum.as_str(),
            ),
            MigrationBody::PublishedLegacyPerDialect {
                postgres,
                sqlite,
                postgres_checksum,
                sqlite_checksum,
            } => match check_pin(
                self.version,
                "postgres",
                postgres.as_str(),
                postgres_checksum.as_str(),
            ) {
                Err(error) => Err(error),
                Ok(()) => check_pin(
                    self.version,
                    "sqlite",
                    sqlite.as_str(),
                    sqlite_checksum.as_str(),
                ),
            },
            _ => check_unconditional(self.version, &bodies),
        }
    }
}

/// Whether no body holds a conditional clause.
fn check_unconditional(version: i64, bodies: &Vec<&str>) -> (r: Result<(), MigrationError>)
    ensures
        is_verdict(
            r,
            conditional_fault(version, bodies@.map_values(|body: &str| body@)),
        ),
{
    let ghost all = bodies@.map_values(|body: &str| body@);
    let mut i: usize = 0;
    assert(all.skip(0) =~= all);
    while i < bodies.len()
        invariant
            i <= bodies@.len(),
            all == bodies@.map_values(|body: &str| body@),
            conditional_fault(version, all) == conditional_fault(version, all.skip(i as int)),
        decreases bodies@.len() - i,
    {
        assert(all.skip(i as int)[0] == bodies@[i as int]@);
        assert(all.skip(i as int).drop_first() =~= all.skip(i + 1));
        if let Some(clause) = conditional_clause(bodies[i]) {
            return Err(MigrationError::ConditionalSql { version, clause });
        }
        i += 1;
    }
    Ok(())
}

/// A portable migration has one identity: its checksum, and the ledger rows that
/// record it, are the same on every dialect.
pub proof fn portable_checksum_is_dialect_independent(
    migration: MigrationView,
    one: Dialect,
    other: Dialect,
)
    requires
        migration.is_portable(),
    ensures
        migration.checksum_for(one) == migration.checksum_for(other),
        forall|recorded: Seq<char>|
            #[trigger] migration.accepts(one, recorded) == migration.accepts(other, recorded),
{
}

/// A migration that is no published body is unconditional: none of its bodies
/// branches on the state of the database.
pub proof fn fresh_migrations_are_unconditional(migration: MigrationView)
    requires
        migration.fault() is None,
        !(migration.body is PublishedLegacy) && !(migration.body is PublishedLegacyPerDialect),
    ensures
        forall|i: int|
            0 <= i < migration.bodies().len() ==> conditional_clause_of(
                #[trigger] migration.bodies()[i],
            ) is None,
{
    lemma_unconditional(migration.version, migration.bodies());
}

proof fn lemma_unconditional(version: i64, bodies: Seq<Seq<char>>)
    requires
        conditional_fault(version, bodies) is None,
    ensures
        forall|i: int|
            0 <= i < bodies.len() ==> conditional_clause_of(#[trigger] bodies[i]) is None,
    decreases bodies.len(),
{
    if bodies.len() > 0 {
        let rest = bodies.drop_first();
        lemma_unconditional(version, rest);
        assert forall|i: int| 0 <= i < bodies.len() implies conditional_clause_of(
            #[trigger] bodies[i],
        ) is None by {
            if i > 0 {
                assert(rest[i - 1] == bodies[i]);
            }
        }
    }
}

/// An alias never selects or executes other SQL: it changes neither the body nor
/// the identity of a published migration, only which ledger rows record it.
pub proof fn aliases_never_select_sql(
    migration: MigrationView,
    other: MigrationView,
    dialect: Dialect,
)
    requires
        migration.body is PublishedLegacy,
        other.body is PublishedLegacy,
        migration.version == other.version,
        migration.body->PublishedLegacy_sql == other.body->PublishedLegacy_sql,
    ensures
        migration.sql_for(dialect) == other.sql_for(dialect),
        migration.bodies() == other.bodies(),
        migration.checksum_for(dialect) == other.checksum_for(dialect),
{
}

/// Validate a SQL identifier used as a table-name prefix (ASCII, leading
/// letter, `[A-Za-z0-9_]`).
pub fn sql_identifier(value: &str) -> (r: Result<String, MigrationError>)
    ensures
        match r {
            Ok(name) => is_sql_identifier(value@) && name@ == value@,
            Err(error) => !is_sql_identifier(value@) && error@
                == MigrationErrorView::InvalidSqlIdentifier(value@),
        },
{
    if sql_identifier_valid(value) {
        return Ok(value.to_owned());
    }
    Err(MigrationError::InvalidSqlIdentifier(value.to_owned()))
}

} // verus!

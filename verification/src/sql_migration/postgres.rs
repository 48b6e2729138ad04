//! What a PostgreSQL runner decides: whether a migration is one statement, and
//! what a bundle run sends to the database.
use crate::identifier::is_sql_identifier;
use crate::scan::{find_bytes, first_at, lemma_first_at};
use crate::scoped_migration::migration::Dialect;
use crate::sql_migration::error::{MigrationError, MigrationErrorView};
use crate::sql_migration::batch::{batch_starts, BatchStep};
use crate::sql_migration::migration::{
    bundle_views, migration_views, BundleView, MigrationBundle,
};
use crate::sql_migration::run::{BundleRun, RunView, RunnerSettings, SettingsView};
use vstd::prelude::*;
use vstd::slice::slice_subrange;
use vstd::utf8::encode_utf8;

verus! {

pub open spec fn is_alphanumeric(b: u8) -> bool {
    ||| 48 <= b <= 57
    ||| 65 <= b <= 90
    ||| 97 <= b <= 122
}

pub open spec fn is_tag_byte(b: u8) -> bool {
    is_alphanumeric(b) || b == 95
}

/// The end of the run of tag bytes that starts at `from`.
pub open spec fn tag_end(s: Seq<u8>, from: int) -> int
    decreases s.len() - from,
{
    if 0 <= from < s.len() && is_tag_byte(s[from]) {
        tag_end(s, from + 1)
    } else {
        from
    }
}

/// The length of the dollar-quote tag (`$tag$`) that `s` starts with.
pub open spec fn tag_len(s: Seq<u8>) -> Option<int> {
    let end = tag_end(s, 1);
    if s.len() > 0 && s[0] == 36 && end < s.len() && s[end] == 36 {
        Some(end + 1)
    } else {
        None
    }
}

fn tag_byte(b: u8) -> (t: bool)
    ensures
        t == is_tag_byte(b),
{
    (48 <= b && b <= 57) || (65 <= b && b <= 90) || (97 <= b && b <= 122) || b == 95
}

/// Length of a dollar-quote opening tag (`$tag$`) at the start of `bytes`, or
/// `None` if it is not a tag (e.g. a bare `$1` parameter marker).
pub fn dollar_tag_len(bytes: &[u8]) -> (len: Option<usize>)
    requires
        bytes@.len() > 0,
        bytes@[0] == 36,
    ensures
        len is Some <==> tag_len(bytes@) is Some,
        len is Some ==> len->0 == tag_len(bytes@)->0 && 2 <= len->0 <= bytes@.len(),
{
    let mut j: usize = 1;
    while j < bytes.len() && tag_byte(bytes[j])
        invariant
            1 <= j <= bytes@.len(),
            tag_end(bytes@, 1) == tag_end(bytes@, j as int),
        decreases bytes@.len() - j,
    {
        j += 1;
    }
    if j < bytes.len() && bytes[j] == 36 {
        Some(j + 1)
    } else {
        None
    }
}

/// What a lexical element of SQL text is to the split into statements.
pub enum Element {
    /// A `;` outside quotes and comments.
    Terminator,
    /// White space or a comment.
    Blank,
    /// Anything else.
    Content,
}

pub open spec fn is_space(b: u8) -> bool {
    b == 32 || b == 9 || b == 10 || b == 12 || b == 13
}

pub open spec fn least(a: int, b: int) -> int {
    if a < b {
        a
    } else {
        b
    }
}

/// The lexical element that starts at `i`, and the position behind it: a
/// single-quoted string, a `--` comment up to the line's end, a `/* */`
/// comment, a dollar-quoted body, or one byte.
pub open spec fn element_at(s: Seq<u8>, i: int) -> (Element, int) {
    let end = s.len() as int;
    if s[i] == 39 {
        (Element::Content, least(first_at(s, i + 1, seq![39u8]) + 1, end))
    } else if s[i] == 45 && i + 1 < end && s[i + 1] == 45 {
        (Element::Blank, first_at(s, i + 2, seq![10u8]))
    } else if s[i] == 47 && i + 1 < end && s[i + 1] == 42 {
        (Element::Blank, least(first_at(s, i + 2, seq![42u8, 47u8]) + 2, end))
    } else if s[i] == 36 && tag_len(s.skip(i)) is Some {
        let len = tag_len(s.skip(i))->0;
        let tag = s.subrange(i, i + len);
        (Element::Content, least(first_at(s, i + len, tag) + len, end))
    } else if s[i] == 59 {
        (Element::Terminator, i + 1)
    } else if is_space(s[i]) {
        (Element::Blank, i + 1)
    } else {
        (Element::Content, i + 1)
    }
}

/// From position `i` on, no content stands behind a terminator; `ended` says
/// whether a terminator came before `i`.
pub open spec fn ends_once(s: Seq<u8>, i: int, ended: bool) -> bool
    decreases s.len() - i via ends_once_decreases
{
    if i < 0 || i >= s.len() {
        true
    } else {
        let (element, next) = element_at(s, i);
        match element {
            Element::Terminator => ends_once(s, next, true),
            Element::Blank => ends_once(s, next, ended),
            Element::Content => !ended && ends_once(s, next, ended),
        }
    }
}

#[via_fn]
proof fn ends_once_decreases(s: Seq<u8>, i: int, ended: bool) {
    if 0 <= i < s.len() {
        lemma_element_advances(s, i);
    }
}

proof fn lemma_tag_end(s: Seq<u8>, from: int)
    requires
        0 <= from <= s.len(),
    ensures
        from <= tag_end(s, from) <= s.len(),
    decreases s.len() - from,
{
    if from < s.len() && is_tag_byte(s[from]) {
        lemma_tag_end(s, from + 1);
    }
}

/// Every lexical element holds at least one byte and lies inside the text.
proof fn lemma_element_advances(s: Seq<u8>, i: int)
    requires
        0 <= i < s.len(),
    ensures
        i < element_at(s, i).1 <= s.len(),
{
    lemma_first_at(s, i + 1, seq![39u8]);
    if i + 1 < s.len() {
        lemma_first_at(s, i + 2, seq![10u8]);
        lemma_first_at(s, i + 2, seq![42u8, 47u8]);
    }
    lemma_tag_end(s.skip(i), 1);
    if tag_len(s.skip(i)) is Some {
        let len = tag_len(s.skip(i))->0;
        lemma_first_at(s, i + len, s.subrange(i, i + len));
    }
}

/// The text holds at most one top-level statement: nothing but white space,
/// comments and further terminators follows its first terminator.
pub open spec fn at_most_one_statement(s: Seq<u8>) -> bool {
    ends_once(s, 0, false)
}

/// The lexical element that starts at `i`, and the position behind it.
fn next_element(bytes: &[u8], i: usize) -> (r: (Element, usize))
    requires
        i < bytes@.len(),
    ensures
        r.0 == element_at(bytes@, i as int).0,
        r.1 == element_at(bytes@, i as int).1,
        i < r.1 <= bytes@.len(),
{
    let end: usize = bytes.len();
    let b: u8 = bytes[i];
    let second: Option<u8> = if i + 1 < end { Some(bytes[i + 1]) } else { None };
    if b == 39 {
        let quote: [u8; 1] = [39];
        assert(quote@ =~= seq![39u8]);
        let close: usize = find_bytes(bytes, i + 1, &quote);
        (Element::Content, if close < end { close + 1 } else { end })
    } else if b == 45 && second == Some(45u8) {
        let line_feed: [u8; 1] = [10];
        assert(line_feed@ =~= seq![10u8]);
        (Element::Blank, find_bytes(bytes, i + 2, &line_feed))
    } else if b == 47 && second == Some(42u8) {
        let closing: [u8; 2] = [42, 47];
        assert(closing@ =~= seq![42u8, 47u8]);
        let close: usize = find_bytes(bytes, i + 2, &closing);
        (Element::Blank, if end - close > 2 { close + 2 } else { end })
    } else {
        if b == 36 {
            let rest = slice_subrange(bytes, i, end);
            assert(rest@ =~= bytes@.skip(i as int));
            if let Some(len) = dollar_tag_len(rest) {
                let tag = slice_subrange(bytes, i, i + len);
                let close: usize = find_bytes(bytes, i + len, tag);
                return (Element::Content, if end - close > len { close + len } else { end });
            }
        }
        if b == 59 {
            (Element::Terminator, i + 1)
        } else if b == 32 || b == 9 || b == 10 || b == 12 || b == 13 {
            (Element::Blank, i + 1)
        } else {
            (Element::Content, i + 1)
        }
    }
}

/// True if `sql` holds at most one top-level statement.
///
/// The prepared protocol used by the runner rejects multiple `;`-separated
/// statements. Semicolons inside single-quoted strings, dollar-quoted bodies
/// (`$$ … $$` / `$tag$ … $tag$`), and `--` / `/* */` comments are not
/// separators; a single trailing `;` is allowed.
pub fn is_single_statement(sql: &str) -> (single: bool)
    ensures
        single == at_most_one_statement(encode_utf8(sql@)),
{
    let bytes = sql.as_bytes();
    let mut i: usize = 0;
    let mut ended = false;
    while i < bytes.len()
        invariant
            i <= bytes@.len(),
            bytes@ == encode_utf8(sql@),
            at_most_one_statement(bytes@) == ends_once(bytes@, i as int, ended),
        decreases bytes@.len() - i,
    {
        let (element, next) = next_element(bytes, i);
        match element {
            Element::Terminator => {
                ended = true;
            },
            Element::Blank => {},
            Element::Content => {
                if ended {
                    return false;
                }
            },
        }
        i = next;
    }
    true
}

/// PostgreSQL migration runner with a per-prefix ledger table.
#[derive(Debug, Clone)]
pub struct PostgresMigrationRunner {
    settings: RunnerSettings,
}

impl View for PostgresMigrationRunner {
    type V = SettingsView;

    closed spec fn view(&self) -> SettingsView {
        self.settings@
    }
}

impl BundleView {
    /// Migration `i` is the first that holds more than one statement.
    pub open spec fn first_of_several(self, i: int) -> bool {
        &&& 0 <= i < self.migrations.len()
        &&& !at_most_one_statement(encode_utf8(self.migrations[i].sql))
        &&& forall|j: int|
            0 <= j < i ==> at_most_one_statement(encode_utf8((#[trigger] self.migrations[j]).sql))
    }
}

/// `r` says whether each migration of a bundle holds at most one statement: success,
/// or the first migration that does not.
pub open spec fn statements_verdict(bundle: BundleView, r: Result<(), MigrationErrorView>) -> bool {
    match r {
        Ok(()) => forall|i: int|
            0 <= i < bundle.migrations.len() ==> at_most_one_statement(
                encode_utf8((#[trigger] bundle.migrations[i]).sql),
            ),
        Err(fault) => exists|i: int| #[trigger]
            bundle.first_of_several(i) && fault == (MigrationErrorView::InvalidMigration {
                version: bundle.migrations[i].version,
                reason: "sql must contain exactly one statement"@,
            }),
    }
}

/// Whether each migration of a bundle holds at most one statement.
pub(crate) fn check_statements(bundle: &MigrationBundle) -> (r: Result<(), MigrationError>)
    ensures
        match r {
            Ok(()) => statements_verdict(bundle@, Ok(())),
            Err(error) => statements_verdict(bundle@, Err(error@)),
        },
{
    let migrations = bundle.migrations();
    let ghost all = bundle@.migrations;
    let mut i: usize = 0;
    while i < migrations.len()
        invariant
            i <= migrations@.len(),
            all == bundle@.migrations,
            all == migration_views(migrations@),
            forall|j: int|
                0 <= j < i ==> at_most_one_statement(encode_utf8((#[trigger] all[j]).sql)),
        decreases migrations@.len() - i,
    {
        assert(all[i as int] == migrations@[i as int]@);
        if !is_single_statement(migrations[i].sql()) {
            assert(bundle@.first_of_several(i as int));
            return Err(
                MigrationError::InvalidMigration {
                    version: migrations[i].version(),
                    reason: "sql must contain exactly one statement",
                },
            );
        }
        i += 1;
    }
    Ok(())
}

impl PostgresMigrationRunner {
    /// A runner whose ledger table carries `prefix`.
    pub fn with_prefix(prefix: &str) -> (r: Result<Self, MigrationError>)
        ensures
            match r {
                Ok(runner) => is_sql_identifier(prefix@) && runner@ == (SettingsView {
                    dialect: Dialect::Postgres,
                    ledger_table: prefix@ + "_schema_migrations"@,
                    applied_by: "awaken-sql-migration"@,
                }),
                Err(error) => !is_sql_identifier(prefix@) && error@
                    == MigrationErrorView::InvalidSqlIdentifier(prefix@),
            },
    {
        match RunnerSettings::with_prefix(Dialect::Postgres, prefix, "awaken-sql-migration") {
            Ok(settings) => Ok(PostgresMigrationRunner { settings }),
            Err(error) => Err(error),
        }
    }

    /// The same runner with another applier on record.
    pub fn with_applied_by(self, applied_by: &str) -> (runner: Self)
        ensures
            runner@ == (SettingsView { applied_by: applied_by@, ..self@ }),
    {
        let PostgresMigrationRunner { settings } = self;
        PostgresMigrationRunner {
            settings: RunnerSettings {
                dialect: settings.dialect,
                ledger_table: settings.ledger_table,
                applied_by: applied_by.to_owned(),
            },
        }
    }

    pub fn ledger_table(&self) -> (name: &str)
        ensures
            name@ == self@.ledger_table,
    {
        self.settings.ledger_table.as_str()
    }

    /// Start a run that applies what is pending of a bundle.
    ///
    /// Fails before the database is touched on the prepared protocol's
    /// single-statement limit. This is a constraint of the driver, not a property
    /// of migrations in general.
    pub fn run_bundle<'a>(&self, bundle: &'a MigrationBundle) -> (r: Result<
        BundleRun<'a>,
        MigrationError,
    >)
        ensures
            match r {
                Ok(run) => statements_verdict(bundle@, Ok(())) && run@ == (RunView {
                    settings: self@,
                    bundle: bundle@,
                    todo: self@.run_program(bundle@.bundle_id),
                    applied: Seq::empty(),
                }),
                Err(error) => statements_verdict(bundle@, Err(error@)),
            },
    {
        match check_statements(bundle) {
            Ok(()) => Ok(self.settings.run(bundle)),
            Err(error) => Err(error),
        }
    }

    /// Start to run bundles in registration order. A duplicate bundle id is refused
    /// before anything is run.
    pub fn run_bundles<'a>(&self, bundles: &'a [MigrationBundle]) -> (step: BatchStep<'a>)
        ensures
            batch_starts(self@, bundle_views(bundles@), step@),
    {
        self.settings.run_bundles(bundles)
    }
}

} // verus!

//! What the statements on the ledger table mean.
//!
//! A statement is read as a database reads it: its text is cut into tokens, and the
//! tokens say which rows of which table it selects, or which row it adds. The laws here
//! speak of a database that carries the statements of a run out as they are read.
use crate::identifier::is_sql_identifier;
use crate::scoped_migration::bundle::BundleView;
use crate::scoped_migration::conversation::{
    answered_from, complete_runs_apply_the_plan, fresh, is_conversation, is_exchange, migrates,
    migrating, runs_read_before_they_migrate, sent,
};
use crate::scoped_migration::error::MigrationErrorView;
use crate::scoped_migration::plan::{ledger_view, unrecorded};
use crate::scoped_migration::run::{
    ledger_after, lemma_ledger_after_apply, second_run_applies_nothing, ActionView, AppliedView, Backend,
    CommandView, Goal, Reply, RunView, SettingsView,
};
use vstd::prelude::*;
use vstd::string::*;

verus! {

pub open spec fn is_space(c: char) -> bool {
    c == ' ' || c == '\n'
}

pub open spec fn is_punctuation(c: char) -> bool {
    c == '(' || c == ')' || c == ','
}

/// One word, with nothing in it that would end it.
pub open spec fn is_word(text: Seq<char>) -> bool {
    &&& text.len() > 0
    &&& forall|i: int|
        0 <= i < text.len() ==> !is_space(#[trigger] text[i]) && !is_punctuation(text[i])
}

/// The tokens of a text of which `word` was just read: words, and parentheses and commas
/// by themselves.
pub open spec fn tokens_behind(word: Seq<char>, text: Seq<char>) -> Seq<Seq<char>>
    decreases text.len(),
{
    let done = if word.len() == 0 {
        Seq::empty()
    } else {
        seq![word]
    };
    if text.len() == 0 {
        done
    } else if is_space(text[0]) {
        done + tokens_behind(Seq::empty(), text.skip(1))
    } else if is_punctuation(text[0]) {
        done + seq![seq![text[0]]] + tokens_behind(Seq::empty(), text.skip(1))
    } else {
        tokens_behind(word.push(text[0]), text.skip(1))
    }
}

/// The tokens of a statement.
pub open spec fn tokens(text: Seq<char>) -> Seq<Seq<char>> {
    tokens_behind(Seq::empty(), text)
}

/// A value in a row.
pub enum Cell {
    Text(Seq<char>),
    Number(i64),
}

/// A value that a placeholder stands for: a numbered one for the value of its number,
/// one without a number for the value of its place among the placeholders.
pub open spec fn bound_to(mark: Seq<char>, place: int, bound: Seq<Cell>) -> Cell {
    if mark.len() == 2 && (mark[0] == '$' || mark[0] == '?') {
        bound[mark[1] as int - '1' as int]
    } else {
        bound[place]
    }
}

/// A comparison, by its sign.
pub open spec fn compares(sign: Seq<char>, a: Cell, b: Cell) -> bool {
    if sign == "="@ {
        a == b
    } else if sign == "<>"@ || sign == "!="@ {
        a != b
    } else {
        arbitrary()
    }
}

/// `SELECT a, b FROM t WHERE k sign mark ORDER BY c`.
pub open spec fn is_select(t: Seq<Seq<char>>) -> bool {
    &&& t.len() == 13
    &&& t[0] == "SELECT"@
    &&& t[2] == seq![',']
    &&& t[4] == "FROM"@
    &&& t[6] == "WHERE"@
    &&& t[10] == "ORDER"@
    &&& t[11] == "BY"@
}

/// The rows that such a query selects.
pub open spec fn selected(
    t: Seq<Seq<char>>,
    bound: Seq<Cell>,
    tables: spec_fn(Seq<char>) -> Set<Map<Seq<char>, Cell>>,
) -> Set<Map<Seq<char>, Cell>> {
    tables(t[5]).filter(
        |row: Map<Seq<char>, Cell>| compares(t[8], row[t[7]], bound_to(t[9], 0, bound)),
    )
}

/// `INSERT INTO t (a, b, c, d, e) VALUES (v, w, x, y, z)`.
pub open spec fn is_insert(t: Seq<Seq<char>>) -> bool {
    &&& t.len() == 26
    &&& t[0] == "INSERT"@
    &&& t[1] == "INTO"@
    &&& t[3] == seq!['(']
    &&& t[5] == seq![',']
    &&& t[7] == seq![',']
    &&& t[9] == seq![',']
    &&& t[11] == seq![',']
    &&& t[13] == seq![')']
    &&& t[14] == "VALUES"@
    &&& t[15] == seq!['(']
    &&& t[17] == seq![',']
    &&& t[19] == seq![',']
    &&& t[21] == seq![',']
    &&& t[23] == seq![',']
    &&& t[25] == seq![')']
}

/// The row that such a statement adds: each column gets the value of its placeholder.
pub open spec fn inserted(t: Seq<Seq<char>>, bound: Seq<Cell>) -> Map<Seq<char>, Cell> {
    map![
        t[4] => bound_to(t[16], 0, bound),
        t[6] => bound_to(t[18], 1, bound),
        t[8] => bound_to(t[20], 2, bound),
        t[10] => bound_to(t[22], 3, bound),
        t[12] => bound_to(t[24], 4, bound)
    ]
}

/// The values that are bound in the statement of an action.
pub open spec fn bound_values(action: ActionView) -> Seq<Cell> {
    match action {
        ActionView::ReadLedger { sql, bundle_id, goal } => seq![Cell::Text(bundle_id)],
        ActionView::Record { sql, row, applied_by } => seq![
            Cell::Text(row.bundle_id),
            Cell::Number(row.version),
            Cell::Text(row.checksum),
            Cell::Text(row.description),
            Cell::Text(applied_by),
        ],
        _ => Seq::empty(),
    }
}

/// The ledger holds a version with a checksum.
pub open spec fn is_entry(ledger: Map<i64, Seq<char>>, version: i64, checksum: Seq<char>) -> bool {
    ledger.contains_key(version) && ledger[version] == checksum
}

/// A row holds a version under one column and a checksum under another.
pub open spec fn shows(
    row: Map<Seq<char>, Cell>,
    first: Seq<char>,
    version: i64,
    second: Seq<char>,
    checksum: Seq<char>,
) -> bool {
    row[first] == Cell::Number(version) && row[second] == Cell::Text(checksum)
}

/// The query, with values bound, hands out exactly these versions and checksums.
pub open spec fn hands_out(
    sql: Seq<char>,
    bound: Seq<Cell>,
    tables: spec_fn(Seq<char>) -> Set<Map<Seq<char>, Cell>>,
    ledger: Map<i64, Seq<char>>,
) -> bool {
    let t = tokens(sql);
    &&& is_select(t)
    &&& forall|version: i64, checksum: Seq<char>|
        #[trigger] is_entry(ledger, version, checksum) <==> exists|row: Map<Seq<char>, Cell>|
            selected(t, bound, tables).contains(row) && #[trigger] shows(
                row,
                t[1],
                version,
                t[3],
                checksum,
            )
}

/// The statement, with values bound, adds its row to its table, which holds no other row
/// with the same bundle and version.
pub open spec fn adds(
    sql: Seq<char>,
    bound: Seq<Cell>,
    before: spec_fn(Seq<char>) -> Set<Map<Seq<char>, Cell>>,
    after: spec_fn(Seq<char>) -> Set<Map<Seq<char>, Cell>>,
) -> bool {
    let t = tokens(sql);
    let new = inserted(t, bound);
    &&& is_insert(t)
    &&& forall|row: Map<Seq<char>, Cell>| #[trigger]
        before(t[2]).contains(row) ==> row["bundle_id"@] != new["bundle_id"@] || row["version"@]
            != new["version"@]
    &&& forall|name: Seq<char>| #[trigger]
        after(name) == (if name == t[2] {
            before(name).insert(new)
        } else {
            before(name)
        })
}

/// A command was carried out on a database: a record adds its row, a read of the ledger
/// hands out what its query selects, and nothing else changes the ledger table.
pub open spec fn carried_out(
    action: ActionView,
    reply: Reply,
    table: Seq<char>,
    before: spec_fn(Seq<char>) -> Set<Map<Seq<char>, Cell>>,
    after: spec_fn(Seq<char>) -> Set<Map<Seq<char>, Cell>>,
) -> bool {
    match action {
        ActionView::Record { sql, row, applied_by } => adds(
            sql,
            bound_values(action),
            before,
            after,
        ),
        ActionView::ReadLedger { sql, bundle_id, goal } => {
            &&& after(table) == before(table)
            &&& match reply {
                Reply::Ledger(applied) => hands_out(
                    sql,
                    bound_values(action),
                    before,
                    ledger_view(applied@),
                ),
                _ => true,
            }
        },
        _ => after(table) == before(table),
    }
}

/// The states of a database that carries out the commands one by one.
pub open spec fn is_history(
    commands: Seq<CommandView>,
    replies: Seq<Reply>,
    table: Seq<char>,
    states: Seq<spec_fn(Seq<char>) -> Set<Map<Seq<char>, Cell>>>,
) -> bool {
    &&& replies.len() == commands.len()
    &&& states.len() == commands.len() + 1
    &&& forall|i: int|
        0 <= i < commands.len() ==> carried_out(
            (#[trigger] commands[i]).action,
            replies[i],
            table,
            states[i],
            states[i + 1],
        )
}

/// The row records a version of the bundle with a checksum.
pub open spec fn records(
    row: Map<Seq<char>, Cell>,
    bundle_id: Seq<char>,
    version: i64,
    checksum: Seq<char>,
) -> bool {
    row["bundle_id"@] == Cell::Text(bundle_id) && row["version"@] == Cell::Number(version)
        && row["checksum"@] == Cell::Text(checksum)
}

/// What a ledger table holds of a bundle.
pub open spec fn holds_ledger(
    rows: Set<Map<Seq<char>, Cell>>,
    bundle_id: Seq<char>,
    ledger: Map<i64, Seq<char>>,
) -> bool {
    forall|version: i64, checksum: Seq<char>|
        #[trigger] is_entry(ledger, version, checksum) <==> exists|row: Map<Seq<char>, Cell>|
            rows.contains(row) && #[trigger] records(row, bundle_id, version, checksum)
}

/// The query reads version and checksum of the rows of one table that belong to the
/// bundle that is bound.
pub open spec fn reads_bundle(sql: Seq<char>, table: Seq<char>) -> bool {
    let t = tokens(sql);
    &&& is_select(t)
    &&& t[1] == "version"@
    &&& t[3] == "checksum"@
    &&& forall|bundle_id: Seq<char>, tables: spec_fn(Seq<char>) -> Set<Map<Seq<char>, Cell>>, row: Map<
        Seq<char>,
        Cell,
    >| #[trigger]
        selected(t, seq![Cell::Text(bundle_id)], tables).contains(row) <==> tables(table).contains(
            row,
        ) && row["bundle_id"@] == Cell::Text(bundle_id)
}

/// The statement adds a row to one table with the five values that are bound: bundle
/// id, version, checksum, description and applier.
pub open spec fn adds_record(sql: Seq<char>, table: Seq<char>) -> bool {
    let t = tokens(sql);
    &&& is_insert(t)
    &&& t[2] == table
    &&& forall|bound: Seq<Cell>|
        {
            let row = #[trigger] inserted(t, bound);
            bound.len() == 5 ==> row["bundle_id"@] == bound[0] && row["version"@] == bound[1]
                && row["checksum"@] == bound[2] && row["description"@] == bound[3]
                && row["applied_by"@] == bound[4]
        }
}

proof fn lemma_word_from(before: Seq<char>, word: Seq<char>, rest: Seq<char>)
    requires
        forall|i: int|
            0 <= i < word.len() ==> !is_space(#[trigger] word[i]) && !is_punctuation(word[i]),
    ensures
        tokens_behind(before, word + rest) == tokens_behind(before + word, rest),
    decreases word.len(),
{
    if word.len() > 0 {
        let text = word + rest;
        assert(text.skip(1) =~= word.skip(1) + rest);
        lemma_word_from(before.push(word[0]), word.skip(1), rest);
        assert(before.push(word[0]) + word.skip(1) =~= before + word);
        assert(text[0] == word[0]);
    } else {
        assert(word + rest =~= rest);
        assert(before + word =~= before);
    }
}

/// A word and a space.
proof fn lemma_word(word: Seq<char>, rest: Seq<char>)
    requires
        is_word(word),
    ensures
        tokens(word + (" "@ + rest)) == seq![word] + tokens(rest),
{
    reveal_strlit(" ");
    let text = " "@ + rest;
    lemma_word_from(Seq::empty(), word, text);
    assert(Seq::<char>::empty() + word =~= word);
    assert(text[0] == ' ');
    assert(text.skip(1) =~= rest);
}

/// A word at the end.
proof fn lemma_last_word(word: Seq<char>)
    requires
        is_word(word),
    ensures
        tokens(word) == seq![word],
{
    lemma_word_from(Seq::empty(), word, Seq::empty());
    assert(word + Seq::<char>::empty() =~= word);
    assert(Seq::<char>::empty() + word =~= word);
}

proof fn lemma_spaces(spaces: Seq<char>, rest: Seq<char>)
    requires
        forall|i: int| 0 <= i < spaces.len() ==> is_space(#[trigger] spaces[i]),
    ensures
        tokens(spaces + rest) == tokens(rest),
    decreases spaces.len(),
{
    if spaces.len() > 0 {
        let text = spaces + rest;
        assert(text[0] == spaces[0]);
        assert(text.skip(1) =~= spaces.skip(1) + rest);
        lemma_spaces(spaces.skip(1), rest);
        assert(Seq::<Seq<char>>::empty() + tokens(rest) =~= tokens(rest));
    } else {
        assert(spaces + rest =~= rest);
    }
}

/// A word and a punctuation mark, with spaces round the mark.
proof fn lemma_pair(word: Seq<char>, separator: Seq<char>, at: int, rest: Seq<char>)
    requires
        is_word(word),
        0 <= at < separator.len(),
        is_punctuation(separator[at]),
        forall|i: int|
            0 <= i < separator.len() && i != at ==> is_space(#[trigger] separator[i]),
    ensures
        tokens(word + (separator + rest)) == seq![word, seq![separator[at]]] + tokens(rest),
{
    let text = separator + rest;
    let none = Seq::<char>::empty();
    lemma_word_from(none, word, text);
    assert(none + word =~= word);
    let behind = separator.skip(at + 1) + rest;
    lemma_spaces(separator.skip(at + 1), rest);
    assert(text[at] == separator[at]);
    assert(text.skip(at).skip(1) =~= behind);
    let here = text.skip(at);
    assert(here[0] == separator[at]);
    if at == 0 {
        assert(here =~= text);
    } else {
        assert(text[0] == separator[0]);
        lemma_spaces(separator.subrange(1, at), here);
        assert(text.skip(1) =~= separator.subrange(1, at) + here);
    }
    assert(tokens(here) =~= seq![seq![separator[at]]] + tokens(rest));
    assert(tokens(word + text) =~= seq![word, seq![separator[at]]] + tokens(rest));
}

proof fn lemma_names()
    ensures
        is_word("SELECT"@),
        is_word("FROM"@),
        is_word("WHERE"@),
        is_word("ORDER"@),
        is_word("BY"@),
        is_word("INSERT"@),
        is_word("INTO"@),
        is_word("VALUES"@),
        is_word("="@),
        is_word("bundle_id"@),
        is_word("version"@),
        is_word("checksum"@),
        is_word("description"@),
        is_word("applied_by"@),
        "bundle_id"@.len() == 9,
        "version"@.len() == 7,
        "checksum"@.len() == 8,
        "description"@.len() == 11,
        "applied_by"@.len() == 10,
        ", "@ == seq![',', ' '],
        " ("@ == seq![' ', '('],
        ")"@ == seq![')'],
{
    reveal_strlit("SELECT");
    reveal_strlit("FROM");
    reveal_strlit("WHERE");
    reveal_strlit("ORDER");
    reveal_strlit("BY");
    reveal_strlit("INSERT");
    reveal_strlit("INTO");
    reveal_strlit("VALUES");
    reveal_strlit("=");
    reveal_strlit("bundle_id");
    reveal_strlit("version");
    reveal_strlit("checksum");
    reveal_strlit("description");
    reveal_strlit("applied_by");
    reveal_strlit(", ");
    reveal_strlit(" (");
    reveal_strlit(")");
    assert(", "@ =~= seq![',', ' ']);
    assert(" ("@ =~= seq![' ', '(']);
    assert(")"@ =~= seq![')']);
}

/// A query on the ledger table, piece by piece.
proof fn lemma_select(table: Seq<char>, mark: Seq<char>) -> (text: Seq<char>)
    requires
        is_word(table),
        is_word(mark),
    ensures
        text == "SELECT"@ + (" "@ + ("version"@ + (", "@ + ("checksum"@ + (" "@ + ("FROM"@ + (" "@
            + (table + (" "@ + ("WHERE"@ + (" "@ + ("bundle_id"@ + (" "@ + ("="@ + (" "@ + (mark
            + (" "@ + ("ORDER"@ + (" "@ + ("BY"@ + (" "@ + "version"@))))))))))))))))))))),
        tokens(text) == seq![
            "SELECT"@,
            "version"@,
            seq![','],
            "checksum"@,
            "FROM"@,
            table,
            "WHERE"@,
            "bundle_id"@,
            "="@,
            mark,
            "ORDER"@,
            "BY"@,
            "version"@,
        ],
{
    lemma_names();
    lemma_last_word("version"@);
    let a = "version"@;
    lemma_word("BY"@, a);
    let b = "BY"@ + (" "@ + a);
    lemma_word("ORDER"@, b);
    let c = "ORDER"@ + (" "@ + b);
    lemma_word(mark, c);
    let d = mark + (" "@ + c);
    lemma_word("="@, d);
    let e = "="@ + (" "@ + d);
    lemma_word("bundle_id"@, e);
    let f = "bundle_id"@ + (" "@ + e);
    lemma_word("WHERE"@, f);
    let g = "WHERE"@ + (" "@ + f);
    lemma_word(table, g);
    let h = table + (" "@ + g);
    lemma_word("FROM"@, h);
    let i = "FROM"@ + (" "@ + h);
    lemma_word("checksum"@, i);
    let j = "checksum"@ + (" "@ + i);
    lemma_pair("version"@, ", "@, 0, j);
    let k = "version"@ + (", "@ + j);
    lemma_word("SELECT"@, k);
    let text = "SELECT"@ + (" "@ + k);
    assert(tokens(text) =~= seq![
        "SELECT"@,
        "version"@,
        seq![','],
        "checksum"@,
        "FROM"@,
        table,
        "WHERE"@,
        "bundle_id"@,
        "="@,
        mark,
        "ORDER"@,
        "BY"@,
        "version"@,
    ]);
    text
}

/// A statement that records a row, piece by piece.
proof fn lemma_insert(
    table: Seq<char>,
    m1: Seq<char>,
    m2: Seq<char>,
    m3: Seq<char>,
    m4: Seq<char>,
    m5: Seq<char>,
) -> (text: Seq<char>)
    requires
        is_word(table),
        is_word(m1),
        is_word(m2),
        is_word(m3),
        is_word(m4),
        is_word(m5),
    ensures
        text == "INSERT"@ + (" "@ + ("INTO"@ + (" "@ + (table + (" ("@ + ("bundle_id"@ + (", "@ + (
        "version"@ + (", "@ + ("checksum"@ + (", "@ + ("description"@ + (", "@ + ("applied_by"@ + (
        ")\n                 "@ + ("VALUES"@ + (" ("@ + (m1 + (", "@ + (m2 + (", "@ + (m3 + (", "@
            + (m4 + (", "@ + (m5 + (")"@ + Seq::<char>::empty()))))))))))))))))))))))))))),
        tokens(text) == seq![
            "INSERT"@,
            "INTO"@,
            table,
            seq!['('],
            "bundle_id"@,
            seq![','],
            "version"@,
            seq![','],
            "checksum"@,
            seq![','],
            "description"@,
            seq![','],
            "applied_by"@,
            seq![')'],
            "VALUES"@,
            seq!['('],
            m1,
            seq![','],
            m2,
            seq![','],
            m3,
            seq![','],
            m4,
            seq![','],
            m5,
            seq![')'],
        ],
{
    lemma_names();
    reveal_strlit(")\n                 ");
    let none = Seq::<char>::empty();
    lemma_pair(m5, ")"@, 0, none);
    let a = m5 + (")"@ + none);
    lemma_pair(m4, ", "@, 0, a);
    let b = m4 + (", "@ + a);
    lemma_pair(m3, ", "@, 0, b);
    let c = m3 + (", "@ + b);
    lemma_pair(m2, ", "@, 0, c);
    let d = m2 + (", "@ + c);
    lemma_pair(m1, ", "@, 0, d);
    let e = m1 + (", "@ + d);
    lemma_pair("VALUES"@, " ("@, 1, e);
    let f = "VALUES"@ + (" ("@ + e);
    lemma_pair("applied_by"@, ")\n                 "@, 0, f);
    let g = "applied_by"@ + (")\n                 "@ + f);
    lemma_pair("description"@, ", "@, 0, g);
    let h = "description"@ + (", "@ + g);
    lemma_pair("checksum"@, ", "@, 0, h);
    let i = "checksum"@ + (", "@ + h);
    lemma_pair("version"@, ", "@, 0, i);
    let j = "version"@ + (", "@ + i);
    lemma_pair("bundle_id"@, ", "@, 0, j);
    let k = "bundle_id"@ + (", "@ + j);
    lemma_pair(table, " ("@, 1, k);
    let l = table + (" ("@ + k);
    lemma_word("INTO"@, l);
    let m = "INTO"@ + (" "@ + l);
    lemma_word("INSERT"@, m);
    let text = "INSERT"@ + (" "@ + m);
    assert(tokens(e) =~= seq![
        m1,
        seq![','],
        m2,
        seq![','],
        m3,
        seq![','],
        m4,
        seq![','],
        m5,
        seq![')'],
    ]);
    assert(tokens(k) =~= seq![
        "bundle_id"@,
        seq![','],
        "version"@,
        seq![','],
        "checksum"@,
        seq![','],
        "description"@,
        seq![','],
        "applied_by"@,
        seq![')'],
        "VALUES"@,
        seq!['('],
    ] + tokens(e));
    assert(tokens(text) =~= seq![
        "INSERT"@,
        "INTO"@,
        table,
        seq!['('],
        "bundle_id"@,
        seq![','],
        "version"@,
        seq![','],
        "checksum"@,
        seq![','],
        "description"@,
        seq![','],
        "applied_by"@,
        seq![')'],
        "VALUES"@,
        seq!['('],
        m1,
        seq![','],
        m2,
        seq![','],
        m3,
        seq![','],
        m4,
        seq![','],
        m5,
        seq![')'],
    ]);
    text
}

/// How a query for the rows of a bundle is read, whatever marks its parameter.
pub(crate) proof fn lemma_reads_bundle(table: Seq<char>, mark: Seq<char>, tail: Seq<char>)
    requires
        is_word(table),
        ({
            ||| mark == "$1"@ && tail == " WHERE bundle_id = $1 ORDER BY version"@
            ||| mark == "?1"@ && tail == " WHERE bundle_id = ?1 ORDER BY version"@
            ||| mark == "?"@ && tail == " WHERE bundle_id = ? ORDER BY version"@
        }),
    ensures
        reads_bundle("SELECT version, checksum FROM "@ + table + tail, table),
{
    lemma_names();
    reveal_strlit("$1");
    reveal_strlit("?1");
    reveal_strlit("?");
    reveal_strlit(" ");
    reveal_strlit(", ");
    reveal_strlit("SELECT version, checksum FROM ");
    reveal_strlit(" WHERE bundle_id = $1 ORDER BY version");
    reveal_strlit(" WHERE bundle_id = ?1 ORDER BY version");
    reveal_strlit(" WHERE bundle_id = ? ORDER BY version");
    reveal_strlit("SELECT");
    reveal_strlit("version");
    reveal_strlit("checksum");
    reveal_strlit("FROM");
    reveal_strlit("WHERE");
    reveal_strlit("bundle_id");
    reveal_strlit("=");
    reveal_strlit("ORDER");
    reveal_strlit("BY");
    let text = lemma_select(table, mark);
    let head = "SELECT version, checksum FROM "@;
    assert(head =~= "SELECT"@ + (" "@ + ("version"@ + (", "@ + ("checksum"@ + (" "@ + ("FROM"@
        + " "@)))))));
    if tail == " WHERE bundle_id = $1 ORDER BY version"@ && mark == "$1"@ {
        assert(" WHERE bundle_id = $1 ORDER BY version"@ =~= " "@ + ("WHERE"@ + (" "@ + ("bundle_id"@
            + (" "@ + ("="@ + (" "@ + (mark + (" "@ + ("ORDER"@ + (" "@ + ("BY"@ + (" "@
            + "version"@)))))))))))));
    } else if tail == " WHERE bundle_id = ?1 ORDER BY version"@ && mark == "?1"@ {
        assert(" WHERE bundle_id = ?1 ORDER BY version"@ =~= " "@ + ("WHERE"@ + (" "@ + ("bundle_id"@
            + (" "@ + ("="@ + (" "@ + (mark + (" "@ + ("ORDER"@ + (" "@ + ("BY"@ + (" "@
            + "version"@)))))))))))));
    } else {
        assert(" WHERE bundle_id = ? ORDER BY version"@ =~= " "@ + ("WHERE"@ + (" "@ + ("bundle_id"@
            + (" "@ + ("="@ + (" "@ + (mark + (" "@ + ("ORDER"@ + (" "@ + ("BY"@ + (" "@
            + "version"@)))))))))))));
    }
    assert(head + table + tail =~= "SELECT"@ + (" "@ + ("version"@ + (", "@ + ("checksum"@ + (" "@
        + ("FROM"@ + (" "@ + (table + tail)))))))));
    assert(head + table + tail == text);
}

/// The record statement with placeholders from `$1` on.
pub(crate) proof fn lemma_adds_dollar(table: Seq<char>)
    requires
        is_word(table),
    ensures
        adds_record(
            "INSERT INTO "@ + table
                + " (bundle_id, version, checksum, description, applied_by)\n                 VALUES ($1, $2, $3, $4, $5)"@,
            table,
        ),
{
    lemma_names();
    reveal_strlit(" (bundle_id, version, checksum, description, applied_by)\n                 VALUES ($1, $2, $3, $4, $5)");
    reveal_strlit("INSERT INTO ");
    reveal_strlit("INSERT");
    reveal_strlit("INTO");
    reveal_strlit(" ");
    reveal_strlit("bundle_id");
    reveal_strlit("version");
    reveal_strlit("checksum");
    reveal_strlit("description");
    reveal_strlit("applied_by");
    reveal_strlit(")\n                 ");
    reveal_strlit("VALUES");
    reveal_strlit("$1");
    reveal_strlit("$2");
    reveal_strlit("$3");
    reveal_strlit("$4");
    reveal_strlit("$5");
    let tail = " (bundle_id, version, checksum, description, applied_by)\n                 VALUES ($1, $2, $3, $4, $5)"@;
    let text = lemma_insert(table, "$1"@, "$2"@, "$3"@, "$4"@, "$5"@);
    assert(tail =~= " ("@ + ("bundle_id"@ + (", "@ + ("version"@ + (", "@ + ("checksum"@ + (", "@ + ("description"@ + (", "@ + ("applied_by"@ + (")\n                 "@ + ("VALUES"@ + (" ("@ + ("$1"@ + (", "@ + ("$2"@ + (", "@ + ("$3"@ + (", "@ + ("$4"@ + (", "@ + ("$5"@ + (")"@ + Seq::<char>::empty())))))))))))))))))))))));
    assert("INSERT INTO "@ =~= "INSERT"@ + (" "@ + ("INTO"@ + " "@)));
    assert("INSERT INTO "@ + table + tail =~= "INSERT"@ + (" "@ + ("INTO"@ + (" "@ + (table
        + tail)))));
    assert("INSERT INTO "@ + table + tail == text);
}

/// The record statement with placeholders from `?1` on.
pub(crate) proof fn lemma_adds_numbered(table: Seq<char>)
    requires
        is_word(table),
    ensures
        adds_record(
            "INSERT INTO "@ + table
                + " (bundle_id, version, checksum, description, applied_by)\n                 VALUES (?1, ?2, ?3, ?4, ?5)"@,
            table,
        ),
{
    lemma_names();
    reveal_strlit(" (bundle_id, version, checksum, description, applied_by)\n                 VALUES (?1, ?2, ?3, ?4, ?5)");
    reveal_strlit("INSERT INTO ");
    reveal_strlit("INSERT");
    reveal_strlit("INTO");
    reveal_strlit(" ");
    reveal_strlit("bundle_id");
    reveal_strlit("version");
    reveal_strlit("checksum");
    reveal_strlit("description");
    reveal_strlit("applied_by");
    reveal_strlit(")\n                 ");
    reveal_strlit("VALUES");
    reveal_strlit("?1");
    reveal_strlit("?2");
    reveal_strlit("?3");
    reveal_strlit("?4");
    reveal_strlit("?5");
    let tail = " (bundle_id, version, checksum, description, applied_by)\n                 VALUES (?1, ?2, ?3, ?4, ?5)"@;
    let text = lemma_insert(table, "?1"@, "?2"@, "?3"@, "?4"@, "?5"@);
    assert(tail =~= " ("@ + ("bundle_id"@ + (", "@ + ("version"@ + (", "@ + ("checksum"@ + (", "@ + ("description"@ + (", "@ + ("applied_by"@ + (")\n                 "@ + ("VALUES"@ + (" ("@ + ("?1"@ + (", "@ + ("?2"@ + (", "@ + ("?3"@ + (", "@ + ("?4"@ + (", "@ + ("?5"@ + (")"@ + Seq::<char>::empty())))))))))))))))))))))));
    assert("INSERT INTO "@ =~= "INSERT"@ + (" "@ + ("INTO"@ + " "@)));
    assert("INSERT INTO "@ + table + tail =~= "INSERT"@ + (" "@ + ("INTO"@ + (" "@ + (table
        + tail)))));
    assert("INSERT INTO "@ + table + tail == text);
}

/// The record statement with placeholders that have no number.
proof fn lemma_adds_anonymous(table: Seq<char>)
    requires
        is_word(table),
    ensures
        adds_record(
            "INSERT INTO "@ + table
                + " (bundle_id, version, checksum, description, applied_by)\n                 VALUES (?, ?, ?, ?, ?)"@,
            table,
        ),
{
    lemma_names();
    reveal_strlit(" (bundle_id, version, checksum, description, applied_by)\n                 VALUES (?, ?, ?, ?, ?)");
    reveal_strlit("INSERT INTO ");
    reveal_strlit("INSERT");
    reveal_strlit("INTO");
    reveal_strlit(" ");
    reveal_strlit("bundle_id");
    reveal_strlit("version");
    reveal_strlit("checksum");
    reveal_strlit("description");
    reveal_strlit("applied_by");
    reveal_strlit(")\n                 ");
    reveal_strlit("VALUES");
    reveal_strlit("?");
    let tail = " (bundle_id, version, checksum, description, applied_by)\n                 VALUES (?, ?, ?, ?, ?)"@;
    let text = lemma_insert(table, "?"@, "?"@, "?"@, "?"@, "?"@);
    assert(tail =~= " ("@ + ("bundle_id"@ + (", "@ + ("version"@ + (", "@ + ("checksum"@ + (", "@ + ("description"@ + (", "@ + ("applied_by"@ + (")\n                 "@ + ("VALUES"@ + (" ("@ + ("?"@ + (", "@ + ("?"@ + (", "@ + ("?"@ + (", "@ + ("?"@ + (", "@ + ("?"@ + (")"@ + Seq::<char>::empty())))))))))))))))))))))));
    assert("INSERT INTO "@ =~= "INSERT"@ + (" "@ + ("INTO"@ + " "@)));
    assert("INSERT INTO "@ + table + tail =~= "INSERT"@ + (" "@ + ("INTO"@ + (" "@ + (table
        + tail)))));
    assert("INSERT INTO "@ + table + tail == text);
}

/// A query for a bundle hands out what the table holds of that bundle.
pub(crate) proof fn lemma_hands_out(
    sql: Seq<char>,
    table: Seq<char>,
    bundle_id: Seq<char>,
    tables: spec_fn(Seq<char>) -> Set<Map<Seq<char>, Cell>>,
    ledger: Map<i64, Seq<char>>,
)
    requires
        reads_bundle(sql, table),
    ensures
        hands_out(sql, seq![Cell::Text(bundle_id)], tables, ledger) == holds_ledger(
            tables(table),
            bundle_id,
            ledger,
        ),
{
    let t = tokens(sql);
    let bound = seq![Cell::Text(bundle_id)];
    let rows = selected(t, bound, tables);
    assert forall|version: i64, checksum: Seq<char>|
        #![trigger is_entry(ledger, version, checksum)]
        (exists|row: Map<Seq<char>, Cell>|
            rows.contains(row) && #[trigger] shows(row, t[1], version, t[3], checksum)) == (exists|
            row: Map<Seq<char>, Cell>,
        |
            tables(table).contains(row) && #[trigger] records(row, bundle_id, version, checksum)) by {
        if exists|row: Map<Seq<char>, Cell>|
            rows.contains(row) && #[trigger] shows(row, t[1], version, t[3], checksum) {
            let row = choose|row: Map<Seq<char>, Cell>|
                rows.contains(row) && #[trigger] shows(row, t[1], version, t[3], checksum);
            assert(records(row, bundle_id, version, checksum));
        }
        if exists|row: Map<Seq<char>, Cell>|
            tables(table).contains(row) && #[trigger] records(row, bundle_id, version, checksum) {
            let row = choose|row: Map<Seq<char>, Cell>|
                tables(table).contains(row) && #[trigger] records(
                    row,
                    bundle_id,
                    version,
                    checksum,
                );
            assert(rows.contains(row));
            assert(shows(row, t[1], version, t[3], checksum));
        }
    }
}

/// A table holds one ledger of a bundle.
pub(crate) proof fn lemma_one_ledger(
    rows: Set<Map<Seq<char>, Cell>>,
    bundle_id: Seq<char>,
    one: Map<i64, Seq<char>>,
    other: Map<i64, Seq<char>>,
)
    requires
        holds_ledger(rows, bundle_id, one),
        holds_ledger(rows, bundle_id, other),
    ensures
        one == other,
{
    assert forall|version: i64| one.contains_key(version) == other.contains_key(version) by {
        if one.contains_key(version) {
            assert(is_entry(one, version, one[version]));
            assert(is_entry(other, version, one[version]));
        }
        if other.contains_key(version) {
            assert(is_entry(other, version, other[version]));
            assert(is_entry(one, version, other[version]));
        }
    }
    assert forall|version: i64| one.contains_key(version) implies one[version] == other[version] by {
        assert(is_entry(one, version, one[version]));
        assert(is_entry(other, version, one[version]));
    }
    assert(one =~= other);
}

/// A recorded row is part of what the table holds of its bundle from then on.
pub(crate) proof fn lemma_added(
    sql: Seq<char>,
    table: Seq<char>,
    row: AppliedView,
    applied_by: Seq<char>,
    before: spec_fn(Seq<char>) -> Set<Map<Seq<char>, Cell>>,
    after: spec_fn(Seq<char>) -> Set<Map<Seq<char>, Cell>>,
    ledger: Map<i64, Seq<char>>,
)
    requires
        adds_record(sql, table),
        adds(sql, bound_values(ActionView::Record { sql, row, applied_by }), before, after),
        holds_ledger(before(table), row.bundle_id, ledger),
    ensures
        holds_ledger(after(table), row.bundle_id, ledger.insert(row.version, row.checksum)),
        !ledger.contains_key(row.version),
{
    let t = tokens(sql);
    let bound = bound_values(ActionView::Record { sql, row, applied_by });
    let new = inserted(t, bound);
    let id = row.bundle_id;
    let grown = ledger.insert(row.version, row.checksum);
    assert(after(table) == before(table).insert(new));
    assert(new["bundle_id"@] == Cell::Text(id));
    assert(new["version"@] == Cell::Number(row.version));
    assert(new["checksum"@] == Cell::Text(row.checksum));
    assert forall|version: i64, checksum: Seq<char>|
        (#[trigger] is_entry(grown, version, checksum)) == (exists|r: Map<Seq<char>, Cell>|
            after(table).contains(r) && #[trigger] records(r, id, version, checksum)) by {
        if version == row.version {
            if checksum == row.checksum {
                assert(after(table).contains(new) && records(new, id, version, checksum));
            }
            if exists|r: Map<Seq<char>, Cell>|
                after(table).contains(r) && #[trigger] records(r, id, version, checksum) {
                let r = choose|r: Map<Seq<char>, Cell>|
                    after(table).contains(r) && #[trigger] records(r, id, version, checksum);
                if r != new {
                    assert(before(t[2]).contains(r));
                    assert(false);
                }
            }
        } else {
            assert(is_entry(grown, version, checksum) == is_entry(ledger, version, checksum));
            if is_entry(ledger, version, checksum) {
                let r = choose|r: Map<Seq<char>, Cell>|
                    before(table).contains(r) && #[trigger] records(r, id, version, checksum);
                assert(after(table).contains(r) && records(r, id, version, checksum));
            }
            if exists|r: Map<Seq<char>, Cell>|
                after(table).contains(r) && #[trigger] records(r, id, version, checksum) {
                let r = choose|r: Map<Seq<char>, Cell>|
                    after(table).contains(r) && #[trigger] records(r, id, version, checksum);
                assert(r != new);
                assert(before(table).contains(r) && records(r, id, version, checksum));
            }
        }
    }
    if ledger.contains_key(row.version) {
        let checksum = ledger[row.version];
        assert(is_entry(ledger, row.version, checksum));
        let r = choose|r: Map<Seq<char>, Cell>|
            before(table).contains(r) && #[trigger] records(r, id, row.version, checksum);
        assert(before(t[2]).contains(r));
        assert(false);
    }
}

/// Every record among the commands is one of the bundle, in the ledger table.
pub open spec fn records_only(commands: Seq<CommandView>, table: Seq<char>, bundle_id: Seq<char>) -> bool {
    forall|i: int|
        0 <= i < commands.len() ==> match (#[trigger] commands[i]).action {
            ActionView::Record { sql, row, applied_by } => adds_record(sql, table) && row.bundle_id
                == bundle_id,
            _ => true,
        }
}

/// A database that carries commands out keeps the ledger that they leave behind.
pub(crate) proof fn lemma_history(
    commands: Seq<CommandView>,
    replies: Seq<Reply>,
    table: Seq<char>,
    states: Seq<spec_fn(Seq<char>) -> Set<Map<Seq<char>, Cell>>>,
    bundle_id: Seq<char>,
    ledger: Map<i64, Seq<char>>,
    n: nat,
)
    requires
        is_history(commands, replies, table, states),
        records_only(commands, table, bundle_id),
        holds_ledger(states[0](table), bundle_id, ledger),
        n <= commands.len(),
    ensures
        holds_ledger(states[n as int](table), bundle_id, ledger_after(ledger, commands.take(n as int))),
    decreases n,
{
    let some = commands.take(n as int);
    if n > 0 {
        let last = n - 1;
        lemma_history(commands, replies, table, states, bundle_id, ledger, last as nat);
        assert(some.drop_last() =~= commands.take(last));
        let action = commands[last].action;
        assert(some.last() == commands[last]);
        assert(carried_out(action, replies[last], table, states[last], states[last + 1]));
        let before = ledger_after(ledger, commands.take(last));
        if let ActionView::Record { sql, row, applied_by } = action {
            lemma_added(sql, table, row, applied_by, states[last], states[last + 1], before);
        }
    }
}

/// What migrates among the commands is among those that migrate.
pub(crate) proof fn lemma_among_migrating(commands: Seq<CommandView>, i: int) -> (k: int)
    requires
        0 <= i < commands.len(),
        migrates(commands[i]),
    ensures
        0 <= k < migrating(commands).len(),
        migrating(commands)[k] == commands[i],
    decreases commands.len(),
{
    if i == 0 {
        0
    } else {
        let k = lemma_among_migrating(commands.drop_first(), i - 1);
        if migrates(commands[0]) {
            k + 1
        } else {
            k
        }
    }
}

/// A ledger table's name is one word.
pub proof fn ledger_tables_are_words(prefix: Seq<char>)
    requires
        is_sql_identifier(prefix),
    ensures
        is_word(prefix + "_schema_migrations"@),
{
    reveal_strlit("_schema_migrations");
    let name = prefix + "_schema_migrations"@;
    assert forall|i: int| 0 <= i < name.len() implies !is_space(#[trigger] name[i])
        && !is_punctuation(name[i]) by {
        if i < prefix.len() {
            assert(name[i] == prefix[i]);
        }
    }
}

proof fn lemma_reads(settings: SettingsView)
    requires
        is_word(settings.ledger.ledger_table),
    ensures
        reads_bundle(settings.read_sql(), settings.ledger.ledger_table),
{
    let table = settings.ledger.ledger_table;
    match settings.backend {
        Backend::Postgres => {
            lemma_reads_bundle(table, "$1"@, " WHERE bundle_id = $1 ORDER BY version"@);
        },
        Backend::Sqlite => {
            lemma_reads_bundle(table, "?1"@, " WHERE bundle_id = ?1 ORDER BY version"@);
        },
        Backend::SqlxSqlite => {
            lemma_reads_bundle(table, "?"@, " WHERE bundle_id = ? ORDER BY version"@);
        },
    }
}

proof fn lemma_adds(settings: SettingsView)
    requires
        is_word(settings.ledger.ledger_table),
    ensures
        adds_record(settings.record_sql(), settings.ledger.ledger_table),
{
    let table = settings.ledger.ledger_table;
    match settings.backend {
        Backend::Postgres => {
            lemma_adds_dollar(table);
        },
        Backend::Sqlite => {
            lemma_adds_numbered(table);
        },
        Backend::SqlxSqlite => {
            lemma_adds_anonymous(table);
        },
    }
}

/// Where a run or a check reads the ledger, its query, with the value bound, selects
/// exactly the rows of the ledger table that belong to the bundle, and hands out their
/// versions and checksums.
pub proof fn reads_select_the_rows_of_the_bundle(
    settings: SettingsView,
    bundle_id: Seq<char>,
    i: int,
    tables: spec_fn(Seq<char>) -> Set<Map<Seq<char>, Cell>>,
    ledger: Map<i64, Seq<char>>,
)
    requires
        is_word(settings.ledger.ledger_table),
    ensures
        ({
            let run = settings.run_program(bundle_id);
            let check = settings.verify_program(bundle_id);
            let table = settings.ledger.ledger_table;
            let right = |action: ActionView|
                match action {
                    ActionView::ReadLedger { sql, bundle_id: id, goal } => reads_bundle(sql, table)
                        && (hands_out(sql, bound_values(action), tables, ledger)
                        <==> holds_ledger(tables(table), bundle_id, ledger)),
                    _ => true,
                };
            &&& 0 <= i < run.len() ==> right(run[i].action)
            &&& 0 <= i < check.len() ==> right(check[i].action)
        }),
{
    lemma_reads(settings);
    lemma_hands_out(
        settings.read_sql(),
        settings.ledger.ledger_table,
        bundle_id,
        tables,
        ledger,
    );
}

/// What is recorded is read back: a record adds a row with the bundle, the version, the
/// checksum, the description and the applier that it names, and the next read for that
/// bundle hands out the version with its checksum beside all that the table held before.
pub proof fn recorded_rows_are_read_back(
    settings: SettingsView,
    row: AppliedView,
    applied_by: Seq<char>,
    goal: Goal,
    before: spec_fn(Seq<char>) -> Set<Map<Seq<char>, Cell>>,
    after: spec_fn(Seq<char>) -> Set<Map<Seq<char>, Cell>>,
    ledger: Map<i64, Seq<char>>,
    read: Map<i64, Seq<char>>,
)
    requires
        is_word(settings.ledger.ledger_table),
        holds_ledger(before(settings.ledger.ledger_table), row.bundle_id, ledger),
        adds(
            settings.record_sql(),
            bound_values(ActionView::Record { sql: settings.record_sql(), row, applied_by }),
            before,
            after,
        ),
    ensures
        !ledger.contains_key(row.version),
        ({
            let action = settings.read_ledger(row.bundle_id, goal);
            hands_out(action->ReadLedger_sql, bound_values(action), after, read) <==> read
                == ledger.insert(row.version, row.checksum)
        }),
{
    let sql = settings.record_sql();
    let table = settings.ledger.ledger_table;
    lemma_adds(settings);
    lemma_reads(settings);
    lemma_added(sql, table, row, applied_by, before, after, ledger);
    let grown = ledger.insert(row.version, row.checksum);
    lemma_hands_out(settings.read_sql(), table, row.bundle_id, after, read);
    if holds_ledger(after(table), row.bundle_id, read) {
        lemma_one_ledger(after(table), row.bundle_id, read, grown);
    }
}

/// The database answers every command, from ledger tables that agree with each other
/// and carry the current stamp.
pub open spec fn well_answered(settings: SettingsView, replies: Seq<Reply>) -> bool {
    forall|i: int|
        0 <= i < replies.len() ==> match #[trigger] replies[i] {
            Reply::Failed { decoding, message } => false,
            Reply::Presence { ledger_exists, meta_exists } => ledger_exists == meta_exists,
            Reply::Stamps(stamps) => settings.ledger.stamps_fault(stamps@) is None,
            _ => true,
        }
}

/// Where no row was recorded, the ledger table is as it was.
pub(crate) proof fn lemma_unchanged(
    commands: Seq<CommandView>,
    replies: Seq<Reply>,
    table: Seq<char>,
    states: Seq<spec_fn(Seq<char>) -> Set<Map<Seq<char>, Cell>>>,
    n: nat,
)
    requires
        is_history(commands, replies, table, states),
        n <= commands.len(),
        forall|j: int| 0 <= j < n ==> !migrates(#[trigger] commands[j]),
    ensures
        states[n as int](table) == states[0](table),
    decreases n,
{
    if n > 0 {
        let last = n - 1;
        lemma_unchanged(commands, replies, table, states, last as nat);
        assert(!migrates(commands[last]));
        assert(carried_out(
            commands[last].action,
            replies[last],
            table,
            states[last],
            states[last + 1],
        ));
    }
}

proof fn lemma_answered(
    runs: Seq<RunView>,
    replies: Seq<Reply>,
    outcome: Result<Seq<AppliedView>, MigrationErrorView>,
    states: Seq<spec_fn(Seq<char>) -> Set<Map<Seq<char>, Cell>>>,
    settings: SettingsView,
    bundle: BundleView,
    ledger: Map<i64, Seq<char>>,
)
    requires
        is_word(settings.ledger.ledger_table),
        is_conversation(runs, replies, outcome),
        runs[0] == fresh(settings, bundle),
        well_answered(settings, replies),
        is_history(sent(runs), replies, settings.ledger.ledger_table, states),
        holds_ledger(states[0](settings.ledger.ledger_table), bundle.bundle_id, ledger),
    ensures
        answered_from(settings, replies, ledger),
{
    let table = settings.ledger.ledger_table;
    let id = bundle.bundle_id;
    let commands = sent(runs);
    lemma_reads(settings);
    assert forall|i: int| 0 <= i < replies.len() implies match #[trigger] replies[i] {
        Reply::Failed { decoding, message } => false,
        Reply::Presence { ledger_exists, meta_exists } => ledger_exists == meta_exists,
        Reply::Stamps(stamps) => settings.ledger.stamps_fault(stamps@) is None,
        Reply::Ledger(applied) => ledger_view(applied@) == ledger,
        Reply::Done => true,
    } by {
        if let Reply::Ledger(applied) = replies[i] {
            assert(is_exchange(runs, replies, outcome, i));
            assert(commands[i] == runs[i].todo[0]);
            runs_read_before_they_migrate(runs, replies, outcome, settings, bundle, i);
            lemma_unchanged(commands, replies, table, states, i as nat);
            assert(carried_out(commands[i].action, replies[i], table, states[i], states[i + 1]));
            lemma_hands_out(settings.read_sql(), table, id, states[i], ledger_view(applied@));
            lemma_one_ledger(states[i](table), id, ledger_view(applied@), ledger);
        }
    }
}

/// A run on the database that a completed run of the same bundle left behind has
/// nothing to do: it succeeds, reports nothing, and executes and records no migration.
/// Both runs speak to a database through the texts of their statements alone.
pub proof fn runs_are_not_repeated(
    runs: Seq<RunView>,
    replies: Seq<Reply>,
    outcome: Result<Seq<AppliedView>, MigrationErrorView>,
    states: Seq<spec_fn(Seq<char>) -> Set<Map<Seq<char>, Cell>>>,
    again: Seq<RunView>,
    replies_again: Seq<Reply>,
    outcome_again: Result<Seq<AppliedView>, MigrationErrorView>,
    states_again: Seq<spec_fn(Seq<char>) -> Set<Map<Seq<char>, Cell>>>,
    settings: SettingsView,
    bundle: BundleView,
    ledger: Map<i64, Seq<char>>,
)
    requires
        is_word(settings.ledger.ledger_table),
        bundle.fault() is None,
        is_conversation(runs, replies, outcome),
        runs[0] == fresh(settings, bundle),
        well_answered(settings, replies),
        is_history(sent(runs), replies, settings.ledger.ledger_table, states),
        holds_ledger(states[0](settings.ledger.ledger_table), bundle.bundle_id, ledger),
        outcome is Ok,
        is_conversation(again, replies_again, outcome_again),
        again[0] == fresh(settings, bundle),
        well_answered(settings, replies_again),
        is_history(sent(again), replies_again, settings.ledger.ledger_table, states_again),
        states_again[0](settings.ledger.ledger_table) == states.last()(
            settings.ledger.ledger_table,
        ),
    ensures
        outcome_again == Ok::<Seq<AppliedView>, MigrationErrorView>(Seq::empty()),
        forall|i: int| 0 <= i < again.len() ==> !migrates(#[trigger] sent(again)[i]),
        states_again.last()(settings.ledger.ledger_table) == states.last()(
            settings.ledger.ledger_table,
        ),
{
    let table = settings.ledger.ledger_table;
    let id = bundle.bundle_id;
    let commands = sent(runs);
    lemma_answered(runs, replies, outcome, states, settings, bundle, ledger);
    complete_runs_apply_the_plan(runs, replies, outcome, settings, bundle, ledger);
    lemma_adds(settings);
    let pending = unrecorded(bundle.migrations, ledger);
    let rows = outcome->Ok_0;
    assert forall|i: int| 0 <= i < commands.len() implies match (#[trigger] commands[i]).action {
        ActionView::Record { sql, row, applied_by } => adds_record(sql, table) && row.bundle_id
            == id,
        _ => true,
    } by {
        if commands[i].action is Record {
            let k = lemma_among_migrating(commands, i);
            let m = k / 2;
            let one = pending[m];
            assert(k == 2 * m || k == 2 * m + 1);
        }
    }
    assert(commands.take(commands.len() as int) =~= commands);
    lemma_history(commands, replies, table, states, id, ledger, commands.len());
    let left = ledger_after(ledger, commands);
    second_run_applies_nothing(settings, bundle, ledger);
    assert(pending.take(pending.len() as int) =~= pending);
    lemma_ledger_after_apply(settings, id, ledger, pending, pending.len());
    lemma_answered(
        again,
        replies_again,
        outcome_again,
        states_again,
        settings,
        bundle,
        left,
    );
    complete_runs_apply_the_plan(
        again,
        replies_again,
        outcome_again,
        settings,
        bundle,
        left,
    );
    assert(outcome_again->Ok_0 =~= Seq::empty());
    assert forall|i: int| 0 <= i < again.len() implies !migrates(#[trigger] sent(again)[i]) by {
        if migrates(sent(again)[i]) {
            let k = lemma_among_migrating(sent(again), i);
        }
    }
    lemma_unchanged(sent(again), replies_again, table, states_again, sent(again).len());
}

} // verus!

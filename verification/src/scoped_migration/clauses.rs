//! Which tables the clauses of a SQL body name, by the positions of their words.
use crate::scoped_migration::bundle::{lint_passes, names_of_bodies, BundleView};
use crate::scoped_migration::migration::{
    clause_from, conditional_clause_of, fresh_migrations_are_unconditional, Dialect, MigrationView,
};
use crate::scoped_migration::words::{
    keyword_at, leading, name_at, names_from, table_name, tables_of, words_of, TableNames,
};
use crate::text::{lower, strip_end, strip_start};
use vstd::prelude::*;
use vstd::string::*;

verus! {

/// The letter is `small`, or its capital.
pub open spec fn is_letter_of(c: char, small: char) -> bool {
    c == small || ('A' <= c <= 'Z' && c as int + 32 == small as int)
}

/// The word spells the keyword, in some mix of cases.
pub open spec fn spells(word: Seq<char>, keyword: Seq<char>) -> bool {
    &&& word.len() == keyword.len()
    &&& forall|i: int| 0 <= i < word.len() ==> is_letter_of(#[trigger] word[i], keyword[i])
}

/// The name is the word with the letters A to Z made small.
pub open spec fn is_small_form(name: Seq<char>, word: Seq<char>) -> bool {
    &&& name.len() == word.len()
    &&& forall|i: int|
        0 <= i < word.len() ==> if 'A' <= #[trigger] word[i] <= 'Z' {
            name[i] as int == word[i] as int + 32
        } else {
            name[i] == word[i]
        }
}

/// What may stand between `CREATE TABLE` and the name.
pub open spec fn may_precede_created(word: Seq<char>) -> bool {
    spells(word, "if"@) || spells(word, "not"@) || spells(word, "exists"@)
}

/// What may stand between `ALTER TABLE` and the name.
pub open spec fn may_precede_altered(word: Seq<char>) -> bool {
    spells(word, "if"@) || spells(word, "exists"@) || spells(word, "only"@)
}

/// `CREATE TABLE` stands at position `p`.
pub open spec fn creates_at(words: Seq<Seq<char>>, p: int) -> bool {
    0 <= p && p + 1 < words.len() && spells(words[p], "create"@) && spells(words[p + 1], "table"@)
}

/// `ALTER TABLE` stands at position `p`.
pub open spec fn alters_at(words: Seq<Seq<char>>, p: int) -> bool {
    0 <= p && p + 1 < words.len() && spells(words[p], "alter"@) && spells(words[p + 1], "table"@)
}

/// `FROM`, `JOIN` or `REFERENCES` stands at position `p`.
pub open spec fn reads_at(words: Seq<Seq<char>>, p: int) -> bool {
    0 <= p < words.len() && (spells(words[p], "from"@) || spells(words[p], "join"@) || spells(
        words[p],
        "references"@,
    ))
}

/// The clause `CREATE TABLE [IF NOT EXISTS] name` stands from position `p` to position
/// `n`, where the name is; at the end of the words the name may be missing.
pub open spec fn created_at(words: Seq<Seq<char>>, p: int, n: int) -> bool {
    &&& creates_at(words, p)
    &&& p + 2 <= n <= words.len()
    &&& forall|k: int| p + 2 <= k < n ==> may_precede_created(#[trigger] words[k])
    &&& n < words.len() ==> !may_precede_created(words[n])
}

/// The clause `ALTER TABLE [IF EXISTS] [ONLY] name` stands from position `p` to position
/// `n`.
pub open spec fn altered_at(words: Seq<Seq<char>>, p: int, n: int) -> bool {
    &&& alters_at(words, p)
    &&& p + 2 <= n <= words.len()
    &&& forall|k: int| p + 2 <= k < n ==> may_precede_altered(#[trigger] words[k])
    &&& n < words.len() ==> !may_precede_altered(words[n])
}

/// The word at `n` is referred to by a clause that starts at `p`.
pub open spec fn referred_at(words: Seq<Seq<char>>, p: int, n: int) -> bool {
    altered_at(words, p, n) || (reads_at(words, p) && n == p + 1)
}

/// Where reading goes on behind what starts at `q`.
pub open spec fn goes_on(words: Seq<Seq<char>>, q: int, p: int) -> bool {
    if creates_at(words, q) {
        created_at(words, q, p - 1)
    } else if alters_at(words, q) {
        altered_at(words, q, p - 1)
    } else if reads_at(words, q) {
        p == q + 2
    } else {
        p == q + 1
    }
}

/// Position `p` is no part of a clause that starts before it.
pub open spec fn is_free(words: Seq<Seq<char>>, p: int) -> bool
    decreases p,
{
    ||| p == 0
    ||| exists|q: int| 0 <= q < p && is_free(words, q) && #[trigger] goes_on(words, q, p)
}

proof fn lemma_spells(word: Seq<char>, keyword: Seq<char>)
    requires
        forall|i: int| 0 <= i < keyword.len() ==> 'a' <= #[trigger] keyword[i] <= 'z',
    ensures
        spells(word, keyword) == (lower(word) == keyword),
{
    if spells(word, keyword) {
        assert forall|i: int| 0 <= i < word.len() implies lower(word)[i] == keyword[i] by {
            assert(is_letter_of(word[i], keyword[i]));
        }
        assert(lower(word) =~= keyword);
    }
    if lower(word) == keyword {
        assert forall|i: int| 0 <= i < word.len() implies is_letter_of(
            #[trigger] word[i],
            keyword[i],
        ) by {
            assert(lower(word)[i] == keyword[i]);
        }
    }
}

proof fn lemma_keywords(word: Seq<char>)
    ensures
        spells(word, "create"@) == (lower(word) == "create"@),
        spells(word, "table"@) == (lower(word) == "table"@),
        spells(word, "alter"@) == (lower(word) == "alter"@),
        spells(word, "from"@) == (lower(word) == "from"@),
        spells(word, "join"@) == (lower(word) == "join"@),
        spells(word, "references"@) == (lower(word) == "references"@),
        spells(word, "if"@) == (lower(word) == "if"@),
        spells(word, "not"@) == (lower(word) == "not"@),
        spells(word, "exists"@) == (lower(word) == "exists"@),
        spells(word, "only"@) == (lower(word) == "only"@),
        may_precede_created(word) == seq!["if"@, "not"@, "exists"@].contains(lower(word)),
        may_precede_altered(word) == seq!["if"@, "exists"@, "only"@].contains(lower(word)),
{
    reveal_strlit("create");
    reveal_strlit("table");
    reveal_strlit("alter");
    reveal_strlit("from");
    reveal_strlit("join");
    reveal_strlit("references");
    reveal_strlit("if");
    reveal_strlit("not");
    reveal_strlit("exists");
    reveal_strlit("only");
    lemma_spells(word, "create"@);
    lemma_spells(word, "table"@);
    lemma_spells(word, "alter"@);
    lemma_spells(word, "from"@);
    lemma_spells(word, "join"@);
    lemma_spells(word, "references"@);
    lemma_spells(word, "if"@);
    lemma_spells(word, "not"@);
    lemma_spells(word, "exists"@);
    lemma_spells(word, "only"@);
    let creating = seq!["if"@, "not"@, "exists"@];
    let altering = seq!["if"@, "exists"@, "only"@];
    assert(creating[0] == "if"@ && creating[1] == "not"@ && creating[2] == "exists"@);
    assert(altering[0] == "if"@ && altering[1] == "exists"@ && altering[2] == "only"@);
}

/// Words of two different lengths or letters are not the same keyword.
proof fn lemma_distinct()
    ensures
        "create"@ != "alter"@,
        "create"@ != "from"@,
        "create"@ != "join"@,
        "create"@ != "references"@,
        "alter"@ != "from"@,
        "alter"@ != "join"@,
        "alter"@ != "references"@,
{
    reveal_strlit("create");
    reveal_strlit("alter");
    reveal_strlit("from");
    reveal_strlit("join");
    reveal_strlit("references");
    assert("create"@.len() == 6);
    assert("alter"@.len() == 5);
    assert("from"@.len() == 4);
    assert("join"@.len() == 4);
    assert("references"@.len() == 10);
}

proof fn lemma_skipped_created(words: Seq<Seq<char>>, from: int, n: int)
    requires
        0 <= from <= n <= words.len(),
        forall|k: int| from <= k < n ==> may_precede_created(#[trigger] words[k]),
        n < words.len() ==> !may_precede_created(words[n]),
    ensures
        from + leading(words, from, seq!["if"@, "not"@, "exists"@]) == n,
    decreases n - from,
{
    if from < words.len() {
        lemma_keywords(words[from]);
    }
    if from < n {
        assert(may_precede_created(words[from]));
        lemma_skipped_created(words, from + 1, n);
    }
}

proof fn lemma_skipped_altered(words: Seq<Seq<char>>, from: int, n: int)
    requires
        0 <= from <= n <= words.len(),
        forall|k: int| from <= k < n ==> may_precede_altered(#[trigger] words[k]),
        n < words.len() ==> !may_precede_altered(words[n]),
    ensures
        from + leading(words, from, seq!["if"@, "exists"@, "only"@]) == n,
    decreases n - from,
{
    if from < words.len() {
        lemma_keywords(words[from]);
    }
    if from < n {
        assert(may_precede_altered(words[from]));
        lemma_skipped_altered(words, from + 1, n);
    }
}

/// Where the words that may precede a created name end.
proof fn lemma_created_name(words: Seq<Seq<char>>, p: int) -> (n: int)
    requires
        creates_at(words, p),
    ensures
        created_at(words, p, n),
{
    lemma_created_end(words, p + 2)
}

proof fn lemma_created_end(words: Seq<Seq<char>>, from: int) -> (n: int)
    requires
        0 <= from <= words.len(),
    ensures
        from <= n <= words.len(),
        forall|k: int| from <= k < n ==> may_precede_created(#[trigger] words[k]),
        n < words.len() ==> !may_precede_created(words[n]),
    decreases words.len() - from,
{
    if from < words.len() && may_precede_created(words[from]) {
        lemma_created_end(words, from + 1)
    } else {
        from
    }
}

proof fn lemma_altered_name(words: Seq<Seq<char>>, p: int) -> (n: int)
    requires
        alters_at(words, p),
    ensures
        altered_at(words, p, n),
{
    lemma_altered_end(words, p + 2)
}

proof fn lemma_altered_end(words: Seq<Seq<char>>, from: int) -> (n: int)
    requires
        0 <= from <= words.len(),
    ensures
        from <= n <= words.len(),
        forall|k: int| from <= k < n ==> may_precede_altered(#[trigger] words[k]),
        n < words.len() ==> !may_precede_altered(words[n]),
    decreases words.len() - from,
{
    if from < words.len() && may_precede_altered(words[from]) {
        lemma_altered_end(words, from + 1)
    } else {
        from
    }
}

/// The clause that starts at `p`, in the scan of the words.
proof fn lemma_clause(words: Seq<Seq<char>>, p: int)
    requires
        0 <= p < words.len(),
    ensures
        creates_at(words, p) ==> !alters_at(words, p) && !reads_at(words, p),
        alters_at(words, p) ==> !reads_at(words, p),
        forall|n: int|
            #[trigger] created_at(words, p, n) ==> names_from(words, p) == (TableNames {
                created: name_at(words, n),
                referenced: Seq::empty(),
            }).followed_by(names_from(words, n + 1)),
        forall|n: int|
            #[trigger] altered_at(words, p, n) ==> names_from(words, p) == (TableNames {
                created: Seq::empty(),
                referenced: name_at(words, n),
            }).followed_by(names_from(words, n + 1)),
        reads_at(words, p) ==> names_from(words, p) == (TableNames {
            created: Seq::empty(),
            referenced: name_at(words, p + 1),
        }).followed_by(names_from(words, p + 2)),
        !creates_at(words, p) && !alters_at(words, p) && !reads_at(words, p) ==> names_from(
            words,
            p,
        ) == names_from(words, p + 1),
{
    lemma_distinct();
    lemma_keywords(words[p]);
    if p + 1 < words.len() {
        lemma_keywords(words[p + 1]);
    }
    assert(creates_at(words, p) == (keyword_at(words, p, "create"@) && keyword_at(
        words,
        p + 1,
        "table"@,
    )));
    assert(alters_at(words, p) == (keyword_at(words, p, "alter"@) && keyword_at(
        words,
        p + 1,
        "table"@,
    )));
    assert forall|n: int| #[trigger] created_at(words, p, n) implies names_from(words, p) == (
    TableNames { created: name_at(words, n), referenced: Seq::empty() }).followed_by(
        names_from(words, n + 1),
    ) by {
        lemma_skipped_created(words, p + 2, n);
    }
    assert forall|n: int| #[trigger] altered_at(words, p, n) implies names_from(words, p) == (
    TableNames { created: Seq::empty(), referenced: name_at(words, n) }).followed_by(
        names_from(words, n + 1),
    ) by {
        lemma_skipped_altered(words, p + 2, n);
    }
}

/// What was read before a free position stands before what is read from there on.
proof fn lemma_free(words: Seq<Seq<char>>, p: int) -> (before: TableNames)
    requires
        is_free(words, p),
        0 <= p,
    ensures
        names_from(words, 0) == before.followed_by(names_from(words, p)),
    decreases p,
{
    if p == 0 {
        assert(TableNames::none().followed_by(names_from(words, 0)) =~= names_from(words, 0));
        TableNames::none()
    } else {
        let q = choose|q: int| 0 <= q < p && is_free(words, q) && #[trigger] goes_on(words, q, p);
        let before = lemma_free(words, q);
        if q >= words.len() {
            assert(before.followed_by(names_from(words, p)) =~= names_from(words, 0));
            before
        } else {
            lemma_clause(words, q);
            let here = if creates_at(words, q) {
                assert(created_at(words, q, p - 1));
                TableNames { created: name_at(words, p - 1), referenced: Seq::empty() }
            } else if alters_at(words, q) {
                assert(altered_at(words, q, p - 1));
                TableNames { created: Seq::empty(), referenced: name_at(words, p - 1) }
            } else if reads_at(words, q) {
                TableNames { created: Seq::empty(), referenced: name_at(words, q + 1) }
            } else {
                TableNames::none()
            };
            assert(names_from(words, q) =~= here.followed_by(names_from(words, p)));
            assert(before.followed_by(here).followed_by(names_from(words, p)) =~= before.followed_by(
                here.followed_by(names_from(words, p)),
            ));
            before.followed_by(here)
        }
    }
}

proof fn lemma_small_form(word: Seq<char>)
    requires
        !word.contains('"'),
    ensures
        is_small_form(table_name(word), word),
{
    assert(strip_start(word, '"') == word) by {
        if word.len() > 0 {
            assert(word[0] != '"');
        }
    }
    assert(strip_end(word, '"') == word) by {
        if word.len() > 0 {
            assert(word[word.len() - 1] != '"');
        }
    }
    let name = table_name(word);
    assert forall|i: int| 0 <= i < word.len() implies if 'A' <= #[trigger] word[i] <= 'Z' {
        name[i] as int == word[i] as int + 32
    } else {
        name[i] == word[i]
    } by {
        assert(name[i] == lower(word)[i]);
    }
}

/// What a body alters, reads or references is among the tables that it refers to: the
/// name behind `ALTER TABLE`, `FROM`, `JOIN` or `REFERENCES`, in any case, wherever such
/// a clause stands and is no part of an earlier one. The name behind `CREATE TABLE` is
/// among those that it creates.
pub proof fn clauses_name_their_tables(sql: Seq<char>, p: int, n: int)
    requires
        0 <= p <= n < words_of(sql).len(),
        is_free(words_of(sql), p),
    ensures
        referred_at(words_of(sql), p, n) ==> tables_of(sql).referenced.contains(
            table_name(words_of(sql)[n]),
        ),
        created_at(words_of(sql), p, n) ==> tables_of(sql).created.contains(
            table_name(words_of(sql)[n]),
        ),
        !words_of(sql)[n].contains('"') ==> is_small_form(
            table_name(words_of(sql)[n]),
            words_of(sql)[n],
        ),
{
    let words = words_of(sql);
    let name = table_name(words[n]);
    let before = lemma_free(words, p);
    lemma_clause(words, p);
    if !words[n].contains('"') {
        lemma_small_form(words[n]);
    }
    let all = tables_of(sql);
    if referred_at(words, p, n) {
        let here = names_from(words, p).referenced;
        assert(here[0] == name);
        assert(all.referenced[before.referenced.len() + 0int] == name);
    }
    if created_at(words, p, n) {
        let here = names_from(words, p).created;
        assert(here[0] == name);
        assert(all.created[before.created.len() + 0int] == name);
    }
}

/// The scan goes from free position to free position.
proof fn lemma_next(words: Seq<Seq<char>>, p: int) -> (next: int)
    requires
        0 <= p < words.len(),
        is_free(words, p),
    ensures
        p < next <= words.len() + 1,
        is_free(words, next),
        goes_on(words, p, next),
{
    lemma_clause(words, p);
    let next = if creates_at(words, p) {
        lemma_created_name(words, p) + 1
    } else if alters_at(words, p) {
        lemma_altered_name(words, p) + 1
    } else if reads_at(words, p) {
        p + 2
    } else {
        p + 1
    };
    assert(is_free(words, p) && goes_on(words, p, next));
    next
}

proof fn lemma_names_come_from_clauses(words: Seq<Seq<char>>, p: int, k: int)
    requires
        0 <= p,
        is_free(words, p),
    ensures
        0 <= k < names_from(words, p).referenced.len() ==> exists|q: int, n: int|
            is_free(words, q) && #[trigger] referred_at(words, q, n) && 0 <= n < words.len()
                && names_from(words, p).referenced[k] == table_name(words[n]),
        0 <= k < names_from(words, p).created.len() ==> exists|q: int, n: int|
            is_free(words, q) && #[trigger] created_at(words, q, n) && 0 <= n < words.len()
                && names_from(words, p).created[k] == table_name(words[n]),
    decreases words.len() + 1 - p,
{
    if p < words.len() {
        let next = lemma_next(words, p);
        lemma_clause(words, p);
        let all = names_from(words, p);
        let rest = names_from(words, next);
        let referenced = all.referenced.len() - rest.referenced.len();
        let created = all.created.len() - rest.created.len();
        if creates_at(words, p) {
            assert(created_at(words, p, next - 1));
            assert(all.referenced =~= rest.referenced);
        } else if alters_at(words, p) {
            assert(altered_at(words, p, next - 1));
            assert(all.created =~= rest.created);
            assert(referred_at(words, p, next - 1));
        } else if reads_at(words, p) {
            assert(all.created =~= rest.created);
            assert(referred_at(words, p, next - 1));
        }
        lemma_names_come_from_clauses(words, next, k - referenced);
        lemma_names_come_from_clauses(words, next, k - created);
        if 0 <= k < all.referenced.len() && k >= referenced {
            assert(all.referenced[k] == rest.referenced[k - referenced]);
        }
        if 0 <= k < all.created.len() && k >= created {
            assert(all.created[k] == rest.created[k - created]);
        }
    }
}

/// A body refers to and creates no other tables: each of them is named by a clause.
pub proof fn tables_are_named_by_clauses(sql: Seq<char>, name: Seq<char>)
    ensures
        tables_of(sql).referenced.contains(name) ==> exists|p: int, n: int|
            is_free(words_of(sql), p) && #[trigger] referred_at(words_of(sql), p, n) && 0 <= n
                < words_of(sql).len() && name == table_name(words_of(sql)[n]),
        tables_of(sql).created.contains(name) ==> exists|p: int, n: int|
            is_free(words_of(sql), p) && #[trigger] created_at(words_of(sql), p, n) && 0 <= n
                < words_of(sql).len() && name == table_name(words_of(sql)[n]),
{
    let words = words_of(sql);
    let all = tables_of(sql);
    if all.referenced.contains(name) {
        let k = choose|k: int| 0 <= k < all.referenced.len() && all.referenced[k] == name;
        lemma_names_come_from_clauses(words, 0, k);
    }
    if all.created.contains(name) {
        let k = choose|k: int| 0 <= k < all.created.len() && all.created[k] == name;
        lemma_names_come_from_clauses(words, 0, k);
    }
}

proof fn lemma_body_names(bodies: Seq<Seq<char>>, b: int, name: Seq<char>)
    requires
        0 <= b < bodies.len(),
    ensures
        tables_of(bodies[b]).referenced.contains(name) ==> names_of_bodies(
            bodies,
        ).referenced.contains(name),
        tables_of(bodies[b]).created.contains(name) ==> names_of_bodies(bodies).created.contains(
            name,
        ),
    decreases bodies.len(),
{
    let rest = bodies.drop_last();
    let before = names_of_bodies(rest);
    let last = tables_of(bodies.last());
    let all = names_of_bodies(bodies);
    if b < rest.len() {
        lemma_body_names(rest, b, name);
        assert(rest[b] == bodies[b]);
        if before.referenced.contains(name) {
            let k = choose|k: int| 0 <= k < before.referenced.len() && before.referenced[k] == name;
            assert(all.referenced[k] == name);
        }
        if before.created.contains(name) {
            let k = choose|k: int| 0 <= k < before.created.len() && before.created[k] == name;
            assert(all.created[k] == name);
        }
    } else {
        if last.referenced.contains(name) {
            let k = choose|k: int| 0 <= k < last.referenced.len() && last.referenced[k] == name;
            assert(all.referenced[before.referenced.len() + k] == name);
        }
        if last.created.contains(name) {
            let k = choose|k: int| 0 <= k < last.created.len() && last.created[k] == name;
            assert(all.created[before.created.len() + k] == name);
        }
    }
}

/// A bundle that passes the lint alters, reads and references only tables that it
/// creates: whatever a migration's body says on either dialect, a name that stands
/// behind `ALTER TABLE`, `FROM`, `JOIN` or `REFERENCES` is one that some migration of
/// the bundle creates.
pub proof fn linted_bundles_touch_only_their_own(
    bundles: Seq<BundleView>,
    b: int,
    m: int,
    dialect: Dialect,
    p: int,
    n: int,
)
    requires
        0 <= b < bundles.len(),
        lint_passes(bundles, b),
        0 <= m < bundles[b].migrations.len(),
        ({
            let words = words_of(bundles[b].migrations[m].sql_for(dialect));
            0 <= p <= n < words.len() && is_free(words, p) && referred_at(words, p, n)
        }),
    ensures
        ({
            let words = words_of(bundles[b].migrations[m].sql_for(dialect));
            bundles[b].creates(table_name(words[n]))
        }),
{
    let bundle = bundles[b];
    let migration = bundle.migrations[m];
    let sql = migration.sql_for(dialect);
    let words = words_of(sql);
    let name = table_name(words[n]);
    clauses_name_their_tables(sql, p, n);
    let bodies = migration.bodies();
    let at: int = if bodies[0] == sql {
        0
    } else {
        1
    };
    assert(bodies[at] == sql);
    lemma_body_names(bodies, at, name);
    let referenced = migration.tables().referenced;
    let k = choose|k: int| 0 <= k < referenced.len() && referenced[k] == name;
    assert(bundle.owns_first(m, referenced.len() as int));
    assert(bundle.creates(migration.tables().referenced[k]));
}

/// A table that a migration's body creates, on either dialect, is one that the bundle
/// creates.
pub proof fn bundles_create_what_their_bodies_create(
    bundle: BundleView,
    m: int,
    dialect: Dialect,
    p: int,
    n: int,
)
    requires
        0 <= m < bundle.migrations.len(),
        ({
            let words = words_of(bundle.migrations[m].sql_for(dialect));
            0 <= p <= n < words.len() && is_free(words, p) && created_at(words, p, n)
        }),
    ensures
        bundle.creates(table_name(words_of(bundle.migrations[m].sql_for(dialect))[n])),
{
    let migration = bundle.migrations[m];
    let sql = migration.sql_for(dialect);
    let name = table_name(words_of(sql)[n]);
    clauses_name_their_tables(sql, p, n);
    let bodies = migration.bodies();
    let at: int = if bodies[0] == sql {
        0
    } else {
        1
    };
    assert(bodies[at] == sql);
    lemma_body_names(bodies, at, name);
    assert(bundle.migrations[m].tables().created.contains(name));
}

/// `IF NOT EXISTS` stands at position `p`.
pub open spec fn if_not_exists_at(words: Seq<Seq<char>>, p: int) -> bool {
    0 <= p && p + 2 < words.len() && spells(words[p], "if"@) && spells(words[p + 1], "not"@)
        && spells(words[p + 2], "exists"@)
}

/// `IF EXISTS` stands at position `p`.
pub open spec fn if_exists_at(words: Seq<Seq<char>>, p: int) -> bool {
    0 <= p && p + 1 < words.len() && spells(words[p], "if"@) && spells(words[p + 1], "exists"@)
}

/// `CREATE OR REPLACE` stands at position `p`.
pub open spec fn create_or_replace_at(words: Seq<Seq<char>>, p: int) -> bool {
    0 <= p && p + 2 < words.len() && spells(words[p], "create"@) && spells(words[p + 1], "or"@)
        && spells(words[p + 2], "replace"@)
}

/// A clause that depends on the state of the database stands at position `p`.
pub open spec fn is_conditional_at(words: Seq<Seq<char>>, p: int) -> bool {
    if_not_exists_at(words, p) || if_exists_at(words, p) || create_or_replace_at(words, p)
}

proof fn lemma_conditional_at(words: Seq<Seq<char>>, p: int)
    requires
        0 <= p < words.len(),
    ensures
        if_not_exists_at(words, p) == (keyword_at(words, p, "if"@) && keyword_at(
            words,
            p + 1,
            "not"@,
        ) && keyword_at(words, p + 2, "exists"@)),
        if_exists_at(words, p) == (keyword_at(words, p, "if"@) && keyword_at(
            words,
            p + 1,
            "exists"@,
        )),
        create_or_replace_at(words, p) == (keyword_at(words, p, "create"@) && keyword_at(
            words,
            p + 1,
            "or"@,
        ) && keyword_at(words, p + 2, "replace"@)),
{
    reveal_strlit("or");
    reveal_strlit("replace");
    lemma_keywords(words[p]);
    if p + 1 < words.len() {
        lemma_keywords(words[p + 1]);
        lemma_spells(words[p + 1], "or"@);
    }
    if p + 2 < words.len() {
        lemma_keywords(words[p + 2]);
        lemma_spells(words[p + 2], "replace"@);
    }
}

proof fn lemma_clause_from(words: Seq<Seq<char>>, from: int)
    requires
        0 <= from <= words.len(),
    ensures
        match clause_from(words, from) {
            None => forall|p: int|
                from <= p < words.len() ==> !#[trigger] is_conditional_at(words, p),
            Some(clause) => exists|p: int|
                from <= p < words.len() && #[trigger] is_conditional_at(words, p) && clause == (if
                if_not_exists_at(words, p) {
                    "IF NOT EXISTS"@
                } else if if_exists_at(words, p) {
                    "IF EXISTS"@
                } else {
                    "CREATE OR REPLACE"@
                }) && forall|q: int| from <= q < p ==> !#[trigger] is_conditional_at(words, q),
        },
    decreases words.len() - from,
{
    if from < words.len() {
        lemma_conditional_at(words, from);
        lemma_clause_from(words, from + 1);
        if is_conditional_at(words, from) {
            assert(clause_from(words, from) is Some);
        } else {
            assert(clause_from(words, from) == clause_from(words, from + 1));
            if clause_from(words, from) is Some {
                let clause = clause_from(words, from)->0;
                let p = choose|p: int|
                    from + 1 <= p < words.len() && #[trigger] is_conditional_at(words, p) && clause
                        == (if if_not_exists_at(words, p) {
                        "IF NOT EXISTS"@
                    } else if if_exists_at(words, p) {
                        "IF EXISTS"@
                    } else {
                        "CREATE OR REPLACE"@
                    }) && forall|q: int|
                        from + 1 <= q < p ==> !#[trigger] is_conditional_at(words, q);
                assert(is_conditional_at(words, p));
            }
        }
    }
}

/// A body is conditional exactly if `IF NOT EXISTS`, `IF EXISTS` or `CREATE OR REPLACE`
/// stands somewhere among its words, in any case; the first such clause is the one that
/// is named.
pub proof fn conditional_clauses_are_found(sql: Seq<char>)
    ensures
        match conditional_clause_of(sql) {
            None => forall|p: int|
                0 <= p < words_of(sql).len() ==> !#[trigger] is_conditional_at(words_of(sql), p),
            Some(clause) => exists|p: int|
                0 <= p < words_of(sql).len() && #[trigger] is_conditional_at(words_of(sql), p)
                    && clause == (if if_not_exists_at(words_of(sql), p) {
                    "IF NOT EXISTS"@
                } else if if_exists_at(words_of(sql), p) {
                    "IF EXISTS"@
                } else {
                    "CREATE OR REPLACE"@
                }) && forall|q: int|
                    0 <= q < p ==> !#[trigger] is_conditional_at(words_of(sql), q),
        },
{
    lemma_clause_from(words_of(sql), 0);
}

/// A migration that is no published body and is accepted says nothing conditional: no
/// such clause stands in what it applies, on either dialect.
pub proof fn accepted_migrations_are_unconditional(
    migration: MigrationView,
    dialect: Dialect,
    p: int,
)
    requires
        migration.fault() is None,
        !(migration.body is PublishedLegacy) && !(migration.body is PublishedLegacyPerDialect),
        0 <= p < words_of(migration.sql_for(dialect)).len(),
    ensures
        !is_conditional_at(words_of(migration.sql_for(dialect)), p),
{
    fresh_migrations_are_unconditional(migration);
    let sql = migration.sql_for(dialect);
    let bodies = migration.bodies();
    let at: int = if bodies[0] == sql {
        0
    } else {
        1
    };
    assert(bodies[at] == sql);
    conditional_clauses_are_found(sql);
}

} // verus!

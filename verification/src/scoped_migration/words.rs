//! A word scan of SQL text: enough to see which tables a migration body creates
//! and which it refers to.
use crate::scan::{find_chars, first_at, lemma_first_at};
use crate::text::{
    chars_of, lower, lower_text, same_text, slice_text, strip, stripped, texts,
};
use vstd::prelude::*;

verus! {

/// The alphabet of a bare word: identifier characters, and `{` `}` `.` so that
/// a templated or qualified name stays one word.
pub open spec fn is_word_char(c: char) -> bool {
    ||| 'a' <= c <= 'z'
    ||| 'A' <= c <= 'Z'
    ||| '0' <= c <= '9'
    ||| c == '_'
    ||| c == '{'
    ||| c == '}'
    ||| c == '.'
}

fn word_char(c: char) -> (w: bool)
    ensures
        w == is_word_char(c),
{
    ('a' <= c && c <= 'z') || ('A' <= c && c <= 'Z') || ('0' <= c && c <= '9') || c == '_'
        || c == '{' || c == '}' || c == '.'
}

/// The end of the run of word characters that starts at `from`.
pub open spec fn word_end(s: Seq<char>, from: int) -> int
    decreases s.len() - from,
{
    if 0 <= from < s.len() && is_word_char(s[from]) {
        word_end(s, from + 1)
    } else {
        from
    }
}

/// The position behind the string literal whose text starts at `from`. A
/// doubled quote stays inside the literal.
pub open spec fn literal_end(s: Seq<char>, from: int) -> int
    decreases s.len() - from,
{
    if from >= s.len() {
        s.len() as int
    } else if s[from] != '\'' {
        literal_end(s, from + 1)
    } else if from + 1 < s.len() && s[from + 1] == '\'' {
        literal_end(s, from + 2)
    } else {
        from + 1
    }
}

/// A word of SQL text, if one starts at `i`, and the position behind what
/// starts there. Comments and string literals hold no words; a quoted
/// identifier is the word between its quotes.
pub open spec fn word_at(s: Seq<char>, i: int) -> (Option<Seq<char>>, int) {
    let end = s.len() as int;
    let second = |c: char| i + 1 < end && s[i + 1] == c;
    if s[i] == '-' && second('-') {
        (None, first_at(s, i + 2, seq!['\n']))
    } else if s[i] == '/' && second('*') {
        let close = first_at(s, i + 2, seq!['*', '/']);
        (None, if close + 2 < end { close + 2 } else { end })
    } else if s[i] == '\'' {
        (None, literal_end(s, i + 1))
    } else if s[i] == '"' {
        let close = first_at(s, i + 1, seq!['"']);
        let word = if i + 1 < close {
            Some(s.subrange(i + 1, close))
        } else {
            None
        };
        (word, if close + 1 < end { close + 1 } else { end })
    } else if is_word_char(s[i]) {
        (Some(s.subrange(i, word_end(s, i))), word_end(s, i))
    } else {
        (None, i + 1)
    }
}

/// The words of `s` from position `i` on.
pub open spec fn words_from(s: Seq<char>, i: int) -> Seq<Seq<char>>
    decreases s.len() - i via words_from_decreases
{
    if i < 0 || i >= s.len() {
        Seq::empty()
    } else {
        let (word, next) = word_at(s, i);
        match word {
            Some(word) => seq![word] + words_from(s, next),
            None => words_from(s, next),
        }
    }
}

#[via_fn]
proof fn words_from_decreases(s: Seq<char>, i: int) {
    if 0 <= i < s.len() {
        lemma_word_at_advances(s, i);
    }
}

proof fn lemma_word_end(s: Seq<char>, from: int)
    requires
        0 <= from <= s.len(),
    ensures
        from <= word_end(s, from) <= s.len(),
    decreases s.len() - from,
{
    if from < s.len() && is_word_char(s[from]) {
        lemma_word_end(s, from + 1);
    }
}

proof fn lemma_literal_end(s: Seq<char>, from: int)
    requires
        0 <= from <= s.len(),
    ensures
        from <= literal_end(s, from) <= s.len(),
    decreases s.len() - from,
{
    if from < s.len() {
        if s[from] != '\'' {
            lemma_literal_end(s, from + 1);
        } else if from + 1 < s.len() && s[from + 1] == '\'' {
            lemma_literal_end(s, from + 2);
        }
    }
}

proof fn lemma_word_at_advances(s: Seq<char>, i: int)
    requires
        0 <= i < s.len(),
    ensures
        i < word_at(s, i).1 <= s.len(),
{
    if i + 1 < s.len() {
        lemma_first_at(s, i + 2, seq!['\n']);
        lemma_first_at(s, i + 2, seq!['*', '/']);
    }
    lemma_first_at(s, i + 1, seq!['"']);
    lemma_literal_end(s, i + 1);
    if is_word_char(s[i]) {
        lemma_word_end(s, i + 1);
    }
}

/// The words of a SQL body.
pub open spec fn words_of(s: Seq<char>) -> Seq<Seq<char>> {
    words_from(s, 0)
}

fn find_literal_end(chars: &Vec<char>, from: usize) -> (end: usize)
    requires
        from <= chars@.len(),
    ensures
        end == literal_end(chars@, from as int),
        from <= end <= chars@.len(),
{
    let len: usize = chars.len();
    let mut i: usize = from;
    while i < len
        invariant
            from <= i <= len == chars@.len(),
            literal_end(chars@, from as int) == literal_end(chars@, i as int),
        decreases len - i,
    {
        if chars[i] != '\'' {
            i += 1;
        } else if i + 1 < len && chars[i + 1] == '\'' {
            i += 2;
        } else {
            return i + 1;
        }
    }
    i
}

fn find_word_end(chars: &Vec<char>, from: usize) -> (end: usize)
    requires
        from <= chars@.len(),
    ensures
        end == word_end(chars@, from as int),
        from <= end <= chars@.len(),
{
    let mut i: usize = from;
    while i < chars.len() && word_char(chars[i])
        invariant
            from <= i <= chars@.len(),
            word_end(chars@, from as int) == word_end(chars@, i as int),
        decreases chars@.len() - i,
    {
        i += 1;
    }
    i
}

/// The word that starts at `i`, if one does, and the position behind what
/// starts there.
fn next_word(chars: &Vec<char>, i: usize) -> (r: (Option<String>, usize))
    requires
        i < chars@.len(),
    ensures
        r.0 is Some <==> word_at(chars@, i as int).0 is Some,
        r.0 is Some ==> r.0->0@ == word_at(chars@, i as int).0->0,
        r.1 == word_at(chars@, i as int).1,
        i < r.1 <= chars@.len(),
{
    let end: usize = chars.len();
    let c = chars[i];
    let second: Option<char> = if i + 1 < end { Some(chars[i + 1]) } else { None };
    if c == '-' && second == Some('-') {
        let line_feed: [char; 1] = ['\n'];
        assert(line_feed@ =~= seq!['\n']);
        (None, find_chars(chars, i + 2, &line_feed))
    } else if c == '/' && second == Some('*') {
        let closing: [char; 2] = ['*', '/'];
        assert(closing@ =~= seq!['*', '/']);
        let close: usize = find_chars(chars, i + 2, &closing);
        (None, if end - close > 2 { close + 2 } else { end })
    } else if c == '\'' {
        (None, find_literal_end(chars, i + 1))
    } else if c == '"' {
        let quote: [char; 1] = ['"'];
        assert(quote@ =~= seq!['"']);
        let close: usize = find_chars(chars, i + 1, &quote);
        let word = if i + 1 < close { Some(slice_text(chars, i + 1, close)) } else { None };
        (word, if close < end { close + 1 } else { end })
    } else if word_char(c) {
        let stop: usize = find_word_end(chars, i);
        proof {
            lemma_word_end(chars@, i + 1);
        }
        (Some(slice_text(chars, i, stop)), stop)
    } else {
        (None, i + 1)
    }
}

/// Split a SQL body into bare word runs, skipping `--`/`/* */` comments and
/// `'...'` string literals and unwrapping `"..."` quoted identifiers.
pub fn tokenize_words(sql: &str) -> (words: Vec<String>)
    ensures
        texts(words@) == words_of(sql@),
{
    let chars = chars_of(sql);
    let mut words: Vec<String> = Vec::new();
    let mut i: usize = 0;
    assert(texts(words@) + words_of(sql@) =~= words_of(sql@));
    while i < chars.len()
        invariant
            i <= chars@.len(),
            chars@ == sql@,
            texts(words@) + words_from(sql@, i as int) == words_of(sql@),
        decreases chars@.len() - i,
    {
        let (word, next) = next_word(&chars, i);
        let ghost before = words@;
        match word {
            Some(word) => {
                words.push(word);
                assert(texts(words@) + words_from(sql@, next as int) =~= texts(before) + (seq![word@]
                    + words_from(sql@, next as int)));
            },
            None => {},
        }
        i = next;
    }
    assert(texts(words@) + words_from(sql@, i as int) =~= texts(words@));
    words
}

/// The name under which a table is compared: without identifier quotes, and
/// with the letters A to Z made small.
pub open spec fn table_name(raw: Seq<char>) -> Seq<char> {
    lower(stripped(raw, '"'))
}

/// Normalize a table token for comparison: drop any identifier quoting and
/// lower-case it (SQL identifiers are case-insensitive). `{prefix}`-bearing
/// names compare verbatim, which is what keeps templated bundles comparable.
pub fn normalize_table(raw: &str) -> (name: String)
    ensures
        name@ == table_name(raw@),
{
    let bare = strip(raw, '"');
    lower_text(bare.as_str())
}

/// The word at `index` is `keyword` in some mix of cases.
pub open spec fn keyword_at(words: Seq<Seq<char>>, index: int, keyword: Seq<char>) -> bool {
    0 <= index < words.len() && lower(words[index]) == keyword
}

/// How many words from `index` on are, case aside, among `keywords`.
pub open spec fn leading(words: Seq<Seq<char>>, index: int, keywords: Seq<Seq<char>>) -> int
    decreases words.len() - index,
{
    if 0 <= index < words.len() && keywords.contains(lower(words[index])) {
        1 + leading(words, index + 1, keywords)
    } else {
        0
    }
}

/// The table names that a body creates and refers to, in the order in which
/// they occur.
#[verifier::ext_equal]
pub struct TableNames {
    pub created: Seq<Seq<char>>,
    pub referenced: Seq<Seq<char>>,
}

impl TableNames {
    pub open spec fn none() -> TableNames {
        TableNames { created: Seq::empty(), referenced: Seq::empty() }
    }

    /// These names, and behind them those of `rest`.
    pub open spec fn followed_by(self, rest: TableNames) -> TableNames {
        TableNames {
            created: self.created + rest.created,
            referenced: self.referenced + rest.referenced,
        }
    }
}

/// The name at position `index`, if there is a word there.
pub open spec fn name_at(words: Seq<Seq<char>>, index: int) -> Seq<Seq<char>> {
    if 0 <= index < words.len() {
        seq![table_name(words[index])]
    } else {
        Seq::empty()
    }
}

/// What the words from `index` on say of tables: the name behind
/// `CREATE TABLE [IF NOT EXISTS]` is created; the names behind
/// `ALTER TABLE [IF EXISTS] [ONLY]`, `FROM`, `JOIN` and `REFERENCES` are
/// referred to.
pub open spec fn names_from(words: Seq<Seq<char>>, index: int) -> TableNames
    decreases words.len() + 1 - index via names_from_decreases
{
    if index < 0 || index >= words.len() {
        TableNames::none()
    } else if keyword_at(words, index, "create"@) && keyword_at(words, index + 1, "table"@) {
        let name = index + 2 + leading(words, index + 2, seq!["if"@, "not"@, "exists"@]);
        (TableNames { created: name_at(words, name), referenced: Seq::empty() }).followed_by(
            names_from(words, name + 1),
        )
    } else if keyword_at(words, index, "alter"@) && keyword_at(words, index + 1, "table"@) {
        let name = index + 2 + leading(words, index + 2, seq!["if"@, "exists"@, "only"@]);
        (TableNames { created: Seq::empty(), referenced: name_at(words, name) }).followed_by(
            names_from(words, name + 1),
        )
    } else if keyword_at(words, index, "from"@) || keyword_at(words, index, "join"@)
        || keyword_at(words, index, "references"@) {
        (TableNames { created: Seq::empty(), referenced: name_at(words, index + 1) }).followed_by(
            names_from(words, index + 2),
        )
    } else {
        names_from(words, index + 1)
    }
}

#[via_fn]
proof fn names_from_decreases(words: Seq<Seq<char>>, index: int) {
    if 0 <= index < words.len() {
        if index + 2 <= words.len() {
            lemma_leading(words, index + 2, seq!["if"@, "not"@, "exists"@]);
            lemma_leading(words, index + 2, seq!["if"@, "exists"@, "only"@]);
        }
    }
}

proof fn lemma_leading(words: Seq<Seq<char>>, index: int, keywords: Seq<Seq<char>>)
    requires
        0 <= index <= words.len(),
    ensures
        0 <= leading(words, index, keywords) <= words.len() - index,
    decreases words.len() - index,
{
    if index < words.len() && keywords.contains(lower(words[index])) {
        lemma_leading(words, index + 1, keywords);
    }
}

/// The tables that a SQL body creates and refers to.
pub open spec fn tables_of(sql: Seq<char>) -> TableNames {
    names_from(words_of(sql), 0)
}

/// Whether the word at `index` is `keyword` in some mix of cases.
pub fn next_is(words: &Vec<String>, index: usize, keyword: &str) -> (is: bool)
    ensures
        is == keyword_at(texts(words@), index as int, keyword@),
{
    if index < words.len() {
        let word = lower_text(words[index].as_str());
        same_text(word.as_str(), keyword)
    } else {
        false
    }
}

/// Count leading words at `index` that match one of `keywords`
/// (case-insensitive), so noise like `IF NOT EXISTS` can be stepped over to
/// reach the table name.
/// At or behind the end of the words none leads.
pub fn leading_count(words: &Vec<String>, index: usize, keywords: &Vec<&str>) -> (count: usize)
    ensures
        count == leading(
            texts(words@),
            index as int,
            keywords@.map_values(|keyword: &str| keyword@),
        ),
        index <= words@.len() ==> index + count <= words@.len(),
{
    let ghost names = keywords@.map_values(|keyword: &str| keyword@);
    let len: usize = words.len();
    let mut count: usize = 0;
    if index >= len {
        return 0;
    }
    while count < len - index
        invariant
            index + count <= words@.len() == len,
            names == keywords@.map_values(|keyword: &str| keyword@),
            leading(texts(words@), index as int, names) == count + leading(
                texts(words@),
                index + count,
                names,
            ),
        decreases words@.len() - index - count,
    {
        let word = lower_text(words[index + count].as_str());
        let mut known = false;
        let mut i: usize = 0;
        while i < keywords.len() && !known
            invariant
                i <= keywords@.len(),
                names == keywords@.map_values(|keyword: &str| keyword@),
                known ==> names.contains(word@),
                !known ==> forall|k: int| 0 <= k < i ==> word@ != #[trigger] names[k],
            decreases keywords@.len() - i,
        {
            assert(names[i as int] == keywords@[i as int]@);
            known = same_text(word.as_str(), keywords[i]);
            i += 1;
        }
        if !known {
            return count;
        }
        count += 1;
    }
    count
}

/// Tables a SQL body creates and references, harvested by a word scan.
pub struct TableScan {
    pub created: Vec<String>,
    pub referenced: Vec<String>,
}

impl View for TableScan {
    type V = TableNames;

    open spec fn view(&self) -> TableNames {
        TableNames { created: texts(self.created@), referenced: texts(self.referenced@) }
    }
}

fn push_name(names: &mut Vec<String>, words: &Vec<String>, index: usize)
    ensures
        texts(final(names)@) == texts(old(names)@) + name_at(texts(words@), index as int),
{
    if index < words.len() {
        let name = normalize_table(words[index].as_str());
        names.push(name);
    }
    assert(texts(names@) =~= texts(old(names)@) + name_at(texts(words@), index as int));
}

/// Scan one SQL body for the tables it `CREATE`s and the tables it references
/// via `FROM` / `JOIN` / `REFERENCES` / `ALTER TABLE`. Comments and string
/// literals are skipped; identifiers are normalized so the same table compares
/// equal regardless of case or quoting.
pub fn scan_tables(sql: &str) -> (scan: TableScan)
    ensures
        scan@ == tables_of(sql@),
{
    let words = tokenize_words(sql);
    let ghost all = texts(words@);
    let creating: Vec<&str> = vec!["if", "not", "exists"];
    let altering: Vec<&str> = vec!["if", "exists", "only"];
    assert(creating@.map_values(|keyword: &str| keyword@) =~= seq!["if"@, "not"@, "exists"@]);
    assert(altering@.map_values(|keyword: &str| keyword@) =~= seq!["if"@, "exists"@, "only"@]);
    let mut scan = TableScan { created: Vec::new(), referenced: Vec::new() };
    let mut index: usize = 0;
    assert(scan@.followed_by(names_from(all, 0)) =~= tables_of(sql@));
    while index < words.len()
        invariant
            all == texts(words@),
            creating@.map_values(|keyword: &str| keyword@) == seq!["if"@, "not"@, "exists"@],
            altering@.map_values(|keyword: &str| keyword@) == seq!["if"@, "exists"@, "only"@],
            scan@.followed_by(names_from(all, index as int)) == tables_of(sql@),
        decreases words@.len() - index,
    {
        let ghost before = scan@;
        let ghost at = index as int;
        if next_is(&words, index, "create") && index + 1 < words.len() && next_is(
            &words,
            index + 1,
            "table",
        ) {
            let name: usize = index + 2 + leading_count(&words, index + 2, &creating);
            push_name(&mut scan.created, &words, name);
            if name == words.len() {
                index = name;
            } else {
                index = name + 1;
            }
            assert(scan@.followed_by(names_from(all, name + 1)) =~= before.followed_by(
                names_from(all, at),
            ));
        } else if next_is(&words, index, "alter") && index + 1 < words.len() && next_is(
            &words,
            index + 1,
            "table",
        ) {
            let name: usize = index + 2 + leading_count(&words, index + 2, &altering);
            push_name(&mut scan.referenced, &words, name);
            if name == words.len() {
                index = name;
            } else {
                index = name + 1;
            }
            assert(scan@.followed_by(names_from(all, name + 1)) =~= before.followed_by(
                names_from(all, at),
            ));
        } else if next_is(&words, index, "from") || next_is(&words, index, "join") || next_is(
            &words,
            index,
            "references",
        ) {
            push_name(&mut scan.referenced, &words, index + 1);
            assert(scan@.followed_by(names_from(all, at + 2)) =~= before.followed_by(
                names_from(all, at),
            ));
            if index + 1 == words.len() {
                index += 1;
            } else {
                index += 2;
            }
        } else {
            index += 1;
        }
    }
    assert(scan@.followed_by(names_from(all, index as int)) =~= scan@);
    scan
}

} // verus!

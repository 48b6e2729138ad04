//! What rendering does to a template as a whole: it works group by group, and it
//! leaves no token behind.
use crate::scan::stands_at;
use crate::scoped_migration::migration::{occurs, rendered, Dialect};
use crate::text::{replaced, replaced_from};
use vstd::prelude::*;
use vstd::string::*;

verus! {

pub open spec fn is_brace(c: char) -> bool {
    c == '{' || c == '}'
}

/// A text without braces.
pub open spec fn is_braceless(s: Seq<char>) -> bool {
    forall|i: int| 0 <= i < s.len() ==> !is_brace(#[trigger] s[i])
}

/// The brace at `j` is the next one behind `i`, and closes.
pub open spec fn closes_at(s: Seq<char>, i: int, j: int) -> bool {
    &&& i < j < s.len()
    &&& s[j] == '}'
    &&& forall|k: int| i < k < j ==> !is_brace(#[trigger] s[k])
}

/// The next brace behind every opening brace closes it: groups are complete and
/// hold no other group.
pub open spec fn is_paired(s: Seq<char>) -> bool {
    forall|i: int|
        0 <= i < s.len() && #[trigger] s[i] == '{' ==> exists|j: int| closes_at(s, i, j)
}

/// A word without braces, in braces.
pub open spec fn is_group(token: Seq<char>) -> bool {
    &&& token.len() >= 2
    &&& token[0] == '{'
    &&& token.last() == '}'
    &&& forall|k: int| 0 < k < token.len() - 1 ==> !is_brace(#[trigger] token[k])
}

proof fn lemma_from_skip(s: Seq<char>, d: int, i: int, pattern: Seq<char>, with: Seq<char>)
    requires
        0 <= d,
        0 <= i,
        d + i <= s.len(),
    ensures
        replaced_from(s, d + i, pattern, with) == replaced_from(s.skip(d), i, pattern, with),
    decreases s.len() - d - i,
{
    let rest = s.skip(d);
    if d + i < s.len() && pattern.len() > 0 {
        assert(stands_at(s, d + i, pattern) == stands_at(rest, i, pattern)) by {
            if d + i + pattern.len() <= s.len() {
                assert(s.subrange(d + i, d + i + pattern.len()) =~= rest.subrange(
                    i,
                    i + pattern.len(),
                ));
            }
        }
        if stands_at(s, d + i, pattern) {
            lemma_from_skip(s, d, i + pattern.len(), pattern, with);
        } else {
            lemma_from_skip(s, d, i + 1, pattern, with);
        }
    }
}

/// What replacing does at the start of a text.
proof fn lemma_head(s: Seq<char>, pattern: Seq<char>, with: Seq<char>)
    requires
        s.len() > 0,
        pattern.len() > 0,
    ensures
        stands_at(s, 0, pattern) ==> replaced(s, pattern, with) == with + replaced(
            s.skip(pattern.len() as int),
            pattern,
            with,
        ),
        !stands_at(s, 0, pattern) ==> replaced(s, pattern, with) == seq![s[0]] + replaced(
            s.skip(1),
            pattern,
            with,
        ),
{
    if stands_at(s, 0, pattern) {
        lemma_from_skip(s, pattern.len() as int, 0, pattern, with);
    } else {
        lemma_from_skip(s, 1, 0, pattern, with);
    }
}

proof fn lemma_stands(s: Seq<char>, at: int, pattern: Seq<char>)
    requires
        stands_at(s, at, pattern),
    ensures
        forall|k: int| 0 <= k < pattern.len() ==> s[at + k] == #[trigger] pattern[k],
{
    assert forall|k: int| 0 <= k < pattern.len() implies s[at + k] == #[trigger] pattern[k] by {
        assert(s.subrange(at, at + pattern.len())[k] == pattern[k]);
    }
}

/// A text in which no group starts is kept.
proof fn lemma_kept(kept: Seq<char>, rest: Seq<char>, token: Seq<char>, with: Seq<char>)
    requires
        is_group(token),
        forall|i: int| 0 <= i < kept.len() ==> #[trigger] kept[i] != '{',
    ensures
        replaced(kept + rest, token, with) == kept + replaced(rest, token, with),
    decreases kept.len(),
{
    if kept.len() == 0 {
        assert(kept + rest =~= rest);
        assert(kept + replaced(rest, token, with) =~= replaced(rest, token, with));
    } else {
        let all = kept + rest;
        lemma_head(all, token, with);
        if stands_at(all, 0, token) {
            lemma_stands(all, 0, token);
            assert(all[0] == kept[0]);
        }
        assert(all.skip(1) =~= kept.skip(1) + rest);
        assert forall|i: int| 0 <= i < kept.skip(1).len() implies #[trigger] kept.skip(1)[i]
            != '{' by {
            assert(kept.skip(1)[i] == kept[i + 1]);
        }
        lemma_kept(kept.skip(1), rest, token, with);
        assert(seq![kept[0]] + (kept.skip(1) + replaced(rest, token, with)) =~= kept + replaced(
            rest,
            token,
            with,
        ));
    }
}

proof fn lemma_suffix_is_paired(s: Seq<char>, n: int)
    requires
        is_paired(s),
        0 <= n <= s.len(),
    ensures
        is_paired(s.skip(n)),
{
    let rest = s.skip(n);
    assert forall|i: int| 0 <= i < rest.len() && #[trigger] rest[i] == '{' implies exists|j: int|
        closes_at(rest, i, j) by {
        let at = n + i;
        assert(s[at] == '{');
        let j = choose|j: int| closes_at(s, at, j);
        assert forall|k: int| i < k < j - n implies !is_brace(#[trigger] rest[k]) by {
            assert(rest[k] == s[n + k]);
        }
        assert(closes_at(rest, i, j - n));
    }
}

proof fn lemma_behind_is_paired(front: Seq<char>, rest: Seq<char>)
    requires
        is_paired(rest),
        forall|i: int| 0 <= i < front.len() ==> #[trigger] front[i] != '{',
    ensures
        is_paired(front + rest),
{
    let all = front + rest;
    let n = front.len();
    assert forall|i: int| 0 <= i < all.len() && #[trigger] all[i] == '{' implies exists|j: int|
        closes_at(all, i, j) by {
        if i < n {
            assert(all[i] == front[i]);
        } else {
            let at = i - n;
            assert(rest[at] == '{');
            let j = choose|j: int| closes_at(rest, at, j);
            assert forall|k: int| i < k < j + n implies !is_brace(#[trigger] all[k]) by {
                assert(all[k] == rest[k - n]);
            }
            assert(closes_at(all, i, j + n));
        }
    }
}

/// The first group of a text that is not the token stays as it is.
proof fn lemma_other_group(s: Seq<char>, token: Seq<char>, with: Seq<char>) -> (j: int)
    requires
        is_group(token),
        is_paired(s),
        s.len() > 0,
        s[0] == '{',
        !stands_at(s, 0, token),
    ensures
        closes_at(s, 0, j),
        replaced(s, token, with) == s.take(j + 1) + replaced(s.skip(j + 1), token, with),
        replaced(s, token, with) == seq![s[0]] + replaced(s.skip(1), token, with),
{
    let j = choose|j: int| closes_at(s, 0, j);
    let kept = s.subrange(1, j + 1);
    let rest = s.skip(j + 1);
    lemma_head(s, token, with);
    assert(s.skip(1) =~= kept + rest);
    assert forall|i: int| 0 <= i < kept.len() implies #[trigger] kept[i] != '{' by {
        assert(kept[i] == s[i + 1]);
        if i + 1 < j {
            assert(!is_brace(s[i + 1]));
        }
    }
    lemma_kept(kept, rest, token, with);
    assert(seq![s[0]] + (kept + replaced(rest, token, with)) =~= s.take(j + 1) + replaced(
        rest,
        token,
        with,
    ));
    j
}

/// Replacing a token by a text without braces keeps groups complete.
proof fn lemma_stays_paired(s: Seq<char>, token: Seq<char>, with: Seq<char>)
    requires
        is_group(token),
        is_paired(s),
        is_braceless(with),
    ensures
        is_paired(replaced(s, token, with)),
    decreases s.len(),
{
    if s.len() > 0 {
        lemma_head(s, token, with);
        if stands_at(s, 0, token) {
            let rest = s.skip(token.len() as int);
            lemma_suffix_is_paired(s, token.len() as int);
            lemma_stays_paired(rest, token, with);
            lemma_behind_is_paired(with, replaced(rest, token, with));
        } else if s[0] == '{' {
            let j = lemma_other_group(s, token, with);
            let group = s.take(j + 1);
            let rest = s.skip(j + 1);
            lemma_suffix_is_paired(s, j + 1);
            lemma_stays_paired(rest, token, with);
            let after = replaced(rest, token, with);
            let tail = group.skip(1);
            assert forall|i: int| 0 <= i < tail.len() implies #[trigger] tail[i] != '{' by {
                assert(tail[i] == s[i + 1]);
                if i + 1 < j {
                    assert(!is_brace(s[i + 1]));
                }
            }
            lemma_behind_is_paired(tail, after);
            let all = group + after;
            assert(all.skip(1) =~= tail + after);
            assert forall|i: int| 0 <= i < all.len() && #[trigger] all[i] == '{' implies exists|
                k: int,
            | closes_at(all, i, k) by {
                if i == 0 {
                    assert forall|k: int| 0 < k < j implies !is_brace(#[trigger] all[k]) by {
                        assert(all[k] == s[k]);
                    }
                    assert(closes_at(all, 0, j));
                } else {
                    let at = i - 1;
                    assert((tail + after)[at] == '{');
                    let k = choose|k: int| closes_at(tail + after, at, k);
                    assert forall|m: int| i < m < k + 1 implies !is_brace(#[trigger] all[m]) by {
                        assert(all[m] == (tail + after)[m - 1]);
                    }
                    assert(all[k + 1] == (tail + after)[k]);
                    assert(closes_at(all, i, k + 1));
                }
            }
        } else {
            lemma_suffix_is_paired(s, 1);
            lemma_stays_paired(s.skip(1), token, with);
            lemma_behind_is_paired(seq![s[0]], replaced(s.skip(1), token, with));
        }
    }
}

/// Replacing a token removes it, and brings back no token that was not there.
proof fn lemma_no_token(s: Seq<char>, token: Seq<char>, with: Seq<char>, other: Seq<char>)
    requires
        is_group(token),
        is_group(other),
        is_paired(s),
        is_braceless(with),
        other == token || !occurs(s, other),
    ensures
        !occurs(replaced(s, token, with), other),
    decreases s.len(),
{
    if s.len() > 0 {
        lemma_head(s, token, with);
        let all = replaced(s, token, with);
        let stands = stands_at(s, 0, token);
        let n: int = if stands {
            token.len() as int
        } else {
            1
        };
        let rest = s.skip(n);
        let after = replaced(rest, token, with);
        let front = if stands {
            with
        } else {
            seq![s[0]]
        };
        lemma_suffix_is_paired(s, n);
        if other != token {
            assert forall|k: int| 0 <= k < rest.len() implies !#[trigger] stands_at(
                rest,
                k,
                other,
            ) by {
                if stands_at(rest, k, other) {
                    assert(rest.subrange(k, k + other.len()) =~= s.subrange(
                        n + k,
                        n + k + other.len(),
                    ));
                    assert(stands_at(s, n + k, other));
                }
            }
        }
        lemma_no_token(rest, token, with, other);
        assert forall|k: int| 0 <= k < all.len() implies !#[trigger] stands_at(all, k, other) by {
            if stands_at(all, k, other) {
                lemma_stands(all, k, other);
                assert(all[k + 0] == other[0]);
                if k < front.len() {
                    assert(all[k] == front[k]);
                    assert(!stands && k == 0 && s[0] == '{');
                    let j = lemma_other_group(s, token, with);
                    let close = other.len() - 1;
                    assert(all[0 + close] == other[close]);
                    assert(all[j] == s[j]);
                    if close < j {
                        assert(all[close] == s[close]);
                        assert(!is_brace(s[close]));
                    } else if j < close {
                        assert(all[0 + j] == other[j]);
                        assert(!is_brace(other[j]));
                    }
                    assert(s.subrange(0, other.len() as int) =~= other) by {
                        assert forall|m: int| 0 <= m < other.len() implies s[m]
                            == #[trigger] other[m] by {
                            assert(all[0 + m] == other[m]);
                            assert(all[m] == s.take(j + 1)[m]);
                        }
                    }
                    assert(stands_at(s, 0, other));
                } else {
                    assert(after.subrange(k - front.len(), k - front.len() + other.len())
                        =~= all.subrange(k, k + other.len()));
                    assert(stands_at(after, k - front.len(), other));
                }
            }
        }
    }
}

/// Replacing a token works on the two parts of a text apart where no group is open
/// between them.
proof fn lemma_distributes(s: Seq<char>, t: Seq<char>, token: Seq<char>, with: Seq<char>)
    requires
        is_group(token),
        is_paired(s),
    ensures
        replaced(s + t, token, with) == replaced(s, token, with) + replaced(t, token, with),
    decreases s.len(),
{
    let all = s + t;
    if s.len() == 0 {
        assert(all =~= t);
        assert(replaced(s, token, with) + replaced(t, token, with) =~= replaced(t, token, with));
    } else {
        lemma_head(s, token, with);
        lemma_head(all, token, with);
        assert(stands_at(all, 0, token) == stands_at(s, 0, token)) by {
            if stands_at(s, 0, token) {
                assert(all.subrange(0, token.len() as int) =~= s.subrange(0, token.len() as int));
            }
            if stands_at(all, 0, token) {
                lemma_stands(all, 0, token);
                assert(all[0] == token[0]);
                assert(s[0] == '{');
                let j = choose|j: int| closes_at(s, 0, j);
                if j < token.len() - 1 {
                    assert(all[0 + j] == token[j]);
                    assert(!is_brace(token[j]));
                }
                assert(s.subrange(0, token.len() as int) =~= all.subrange(0, token.len() as int));
            }
        }
        let n: int = if stands_at(s, 0, token) {
            token.len() as int
        } else {
            1
        };
        let front = if stands_at(s, 0, token) {
            with
        } else {
            seq![s[0]]
        };
        assert(all.skip(n) =~= s.skip(n) + t);
        lemma_suffix_is_paired(s, n);
        lemma_distributes(s.skip(n), t, token, with);
        assert(front + (replaced(s.skip(n), token, with) + replaced(t, token, with)) =~= (front
            + replaced(s.skip(n), token, with)) + replaced(t, token, with));
    }
}

/// The six tokens are words in braces, and what a dialect puts in place of five of
/// them has no braces.
proof fn lemma_vocabulary(dialect: Dialect)
    ensures
        is_group("{prefix}"@),
        is_group("{json}"@),
        is_group("{timestamptz}"@),
        is_group("{now}"@),
        is_group("{blob}"@),
        is_group("{pk_autoinc}"@),
        is_braceless(dialect.json_type()),
        is_braceless(dialect.timestamptz_type()),
        is_braceless(dialect.now_value()),
        is_braceless(dialect.blob_type()),
        is_braceless(dialect.pk_autoinc_clause()),
{
    reveal_strlit("{prefix}");
    reveal_strlit("{json}");
    reveal_strlit("{timestamptz}");
    reveal_strlit("{now}");
    reveal_strlit("{blob}");
    reveal_strlit("{pk_autoinc}");
    reveal_strlit("JSONB");
    reveal_strlit("TEXT");
    reveal_strlit("TIMESTAMPTZ");
    reveal_strlit("now()");
    reveal_strlit("CURRENT_TIMESTAMP");
    reveal_strlit("BYTEA");
    reveal_strlit("BLOB");
    reveal_strlit("BIGSERIAL PRIMARY KEY");
    reveal_strlit("INTEGER PRIMARY KEY AUTOINCREMENT");
}

/// No token survives rendering: where the template's groups are complete and hold
/// no other group, and the prefix has no braces, none of the six tokens occurs in
/// the rendered SQL.
pub proof fn rendering_leaves_no_token(template: Seq<char>, dialect: Dialect, prefix: Seq<char>)
    requires
        is_paired(template),
        is_braceless(prefix),
    ensures
        !occurs(rendered(template, dialect, prefix), "{prefix}"@),
        !occurs(rendered(template, dialect, prefix), "{json}"@),
        !occurs(rendered(template, dialect, prefix), "{timestamptz}"@),
        !occurs(rendered(template, dialect, prefix), "{now}"@),
        !occurs(rendered(template, dialect, prefix), "{blob}"@),
        !occurs(rendered(template, dialect, prefix), "{pk_autoinc}"@),
{
    lemma_vocabulary(dialect);
    let a = "{prefix}"@;
    let b = "{json}"@;
    let c = "{timestamptz}"@;
    let d = "{now}"@;
    let e = "{blob}"@;
    let f = "{pk_autoinc}"@;
    let s1 = replaced(template, a, prefix);
    let s2 = replaced(s1, b, dialect.json_type());
    let s3 = replaced(s2, c, dialect.timestamptz_type());
    let s4 = replaced(s3, d, dialect.now_value());
    let s5 = replaced(s4, e, dialect.blob_type());
    lemma_stays_paired(template, a, prefix);
    lemma_stays_paired(s1, b, dialect.json_type());
    lemma_stays_paired(s2, c, dialect.timestamptz_type());
    lemma_stays_paired(s3, d, dialect.now_value());
    lemma_stays_paired(s4, e, dialect.blob_type());
    lemma_no_token(template, a, prefix, a);
    lemma_no_token(s1, b, dialect.json_type(), a);
    lemma_no_token(s1, b, dialect.json_type(), b);
    lemma_no_token(s2, c, dialect.timestamptz_type(), a);
    lemma_no_token(s2, c, dialect.timestamptz_type(), b);
    lemma_no_token(s2, c, dialect.timestamptz_type(), c);
    lemma_no_token(s3, d, dialect.now_value(), a);
    lemma_no_token(s3, d, dialect.now_value(), b);
    lemma_no_token(s3, d, dialect.now_value(), c);
    lemma_no_token(s3, d, dialect.now_value(), d);
    lemma_no_token(s4, e, dialect.blob_type(), a);
    lemma_no_token(s4, e, dialect.blob_type(), b);
    lemma_no_token(s4, e, dialect.blob_type(), c);
    lemma_no_token(s4, e, dialect.blob_type(), d);
    lemma_no_token(s4, e, dialect.blob_type(), e);
    lemma_no_token(s5, f, dialect.pk_autoinc_clause(), a);
    lemma_no_token(s5, f, dialect.pk_autoinc_clause(), b);
    lemma_no_token(s5, f, dialect.pk_autoinc_clause(), c);
    lemma_no_token(s5, f, dialect.pk_autoinc_clause(), d);
    lemma_no_token(s5, f, dialect.pk_autoinc_clause(), e);
    lemma_no_token(s5, f, dialect.pk_autoinc_clause(), f);
}

/// Rendering works part by part: behind a template whose groups are complete and
/// hold no other group, and with a prefix without braces, the rest is rendered by
/// itself.
pub proof fn rendering_distributes(
    template: Seq<char>,
    rest: Seq<char>,
    dialect: Dialect,
    prefix: Seq<char>,
)
    requires
        is_paired(template),
        is_braceless(prefix),
    ensures
        rendered(template + rest, dialect, prefix) == rendered(template, dialect, prefix)
            + rendered(rest, dialect, prefix),
{
    lemma_vocabulary(dialect);
    let a = "{prefix}"@;
    let b = "{json}"@;
    let c = "{timestamptz}"@;
    let d = "{now}"@;
    let e = "{blob}"@;
    let f = "{pk_autoinc}"@;
    let s1 = replaced(template, a, prefix);
    let s2 = replaced(s1, b, dialect.json_type());
    let s3 = replaced(s2, c, dialect.timestamptz_type());
    let s4 = replaced(s3, d, dialect.now_value());
    let s5 = replaced(s4, e, dialect.blob_type());
    let t1 = replaced(rest, a, prefix);
    let t2 = replaced(t1, b, dialect.json_type());
    let t3 = replaced(t2, c, dialect.timestamptz_type());
    let t4 = replaced(t3, d, dialect.now_value());
    let t5 = replaced(t4, e, dialect.blob_type());
    lemma_stays_paired(template, a, prefix);
    lemma_stays_paired(s1, b, dialect.json_type());
    lemma_stays_paired(s2, c, dialect.timestamptz_type());
    lemma_stays_paired(s3, d, dialect.now_value());
    lemma_stays_paired(s4, e, dialect.blob_type());
    lemma_distributes(template, rest, a, prefix);
    lemma_distributes(s1, t1, b, dialect.json_type());
    lemma_distributes(s2, t2, c, dialect.timestamptz_type());
    lemma_distributes(s3, t3, d, dialect.now_value());
    lemma_distributes(s4, t4, e, dialect.blob_type());
    lemma_distributes(s5, t5, f, dialect.pk_autoinc_clause());
}

/// A piece of a template: text without braces, or a token.
pub enum TemplatePiece {
    Text(Seq<char>),
    Prefix,
    Json,
    Timestamptz,
    Now,
    Blob,
    PkAutoinc,
}

impl TemplatePiece {
    /// How the piece is written.
    pub open spec fn text(self) -> Seq<char> {
        match self {
            TemplatePiece::Text(text) => text,
            TemplatePiece::Prefix => "{prefix}"@,
            TemplatePiece::Json => "{json}"@,
            TemplatePiece::Timestamptz => "{timestamptz}"@,
            TemplatePiece::Now => "{now}"@,
            TemplatePiece::Blob => "{blob}"@,
            TemplatePiece::PkAutoinc => "{pk_autoinc}"@,
        }
    }

    /// What a database of the dialect is sent for the piece.
    pub open spec fn sql(self, dialect: Dialect, prefix: Seq<char>) -> Seq<char> {
        let native = dialect == Dialect::Postgres;
        match self {
            TemplatePiece::Text(text) => text,
            TemplatePiece::Prefix => prefix,
            TemplatePiece::Json => if native {
                "JSONB"@
            } else {
                "TEXT"@
            },
            TemplatePiece::Timestamptz => if native {
                "TIMESTAMPTZ"@
            } else {
                "TEXT"@
            },
            TemplatePiece::Now => if native {
                "now()"@
            } else {
                "CURRENT_TIMESTAMP"@
            },
            TemplatePiece::Blob => if native {
                "BYTEA"@
            } else {
                "BLOB"@
            },
            TemplatePiece::PkAutoinc => if native {
                "BIGSERIAL PRIMARY KEY"@
            } else {
                "INTEGER PRIMARY KEY AUTOINCREMENT"@
            },
        }
    }
}

/// The template that the pieces make.
pub open spec fn template_text(pieces: Seq<TemplatePiece>) -> Seq<char>
    decreases pieces.len(),
{
    if pieces.len() == 0 {
        Seq::empty()
    } else {
        pieces[0].text() + template_text(pieces.skip(1))
    }
}

/// The SQL that the pieces stand for.
pub open spec fn template_sql(
    pieces: Seq<TemplatePiece>,
    dialect: Dialect,
    prefix: Seq<char>,
) -> Seq<char>
    decreases pieces.len(),
{
    if pieces.len() == 0 {
        Seq::empty()
    } else {
        pieces[0].sql(dialect, prefix) + template_sql(pieces.skip(1), dialect, prefix)
    }
}

proof fn lemma_braceless_kept(s: Seq<char>, token: Seq<char>, with: Seq<char>)
    requires
        is_braceless(s),
        is_group(token),
    ensures
        replaced(s, token, with) == s,
{
    assert forall|i: int| 0 <= i < s.len() implies #[trigger] s[i] != '{' by {
        assert(!is_brace(s[i]));
    }
    let none = Seq::<char>::empty();
    lemma_kept(s, none, token, with);
    assert(s + none =~= s);
    assert(s + replaced(none, token, with) =~= s);
}

proof fn lemma_group_replaced(group: Seq<char>, token: Seq<char>, with: Seq<char>)
    requires
        is_group(group),
        is_group(token),
    ensures
        replaced(group, token, with) == (if group == token {
            with
        } else {
            group
        }),
{
    let none = Seq::<char>::empty();
    lemma_head(group, token, with);
    if group == token {
        assert(group.subrange(0, group.len() as int) =~= group);
        assert(group.skip(group.len() as int) =~= none);
        assert(with + replaced(none, token, with) =~= with);
    } else {
        if stands_at(group, 0, token) {
            lemma_stands(group, 0, token);
            let last = token.len() - 1;
            assert(group[0 + last] == token[last]);
            assert(is_brace(group[last]));
            assert(last == group.len() - 1);
            assert(group =~= token);
        }
        let rest = group.skip(1);
        assert forall|i: int| 0 <= i < rest.len() implies #[trigger] rest[i] != '{' by {
            if i < rest.len() - 1 {
                assert(!is_brace(group[i + 1]));
            } else {
                assert(rest[i] == group.last());
            }
        }
        lemma_kept(rest, none, token, with);
        assert(rest + none =~= rest);
        assert(rest + replaced(none, token, with) =~= rest);
        assert(seq![group[0]] + rest =~= group);
    }
}

proof fn lemma_tokens_differ()
    ensures
        "{prefix}"@.len() == 8,
        "{json}"@.len() == 6,
        "{timestamptz}"@.len() == 13,
        "{now}"@.len() == 5,
        "{blob}"@.len() == 6,
        "{json}"@ != "{blob}"@,
        "{pk_autoinc}"@.len() == 12,
{
    reveal_strlit("{prefix}");
    reveal_strlit("{json}");
    reveal_strlit("{timestamptz}");
    reveal_strlit("{now}");
    reveal_strlit("{blob}");
    reveal_strlit("{pk_autoinc}");
    assert("{json}"@[1] == 'j');
    assert("{blob}"@[1] == 'b');
}

proof fn lemma_piece_sql(piece: TemplatePiece, dialect: Dialect, prefix: Seq<char>)
    requires
        is_braceless(prefix),
        piece is Text ==> is_braceless(piece->Text_0),
    ensures
        rendered(piece.text(), dialect, prefix) == piece.sql(dialect, prefix),
        is_paired(piece.text()),
{
    lemma_vocabulary(dialect);
    lemma_tokens_differ();
    let a = "{prefix}"@;
    let b = "{json}"@;
    let c = "{timestamptz}"@;
    let d = "{now}"@;
    let e = "{blob}"@;
    let f = "{pk_autoinc}"@;
    let t = piece.text();
    if piece is Text {
        lemma_braceless_kept(t, a, prefix);
        lemma_braceless_kept(t, b, dialect.json_type());
        lemma_braceless_kept(t, c, dialect.timestamptz_type());
        lemma_braceless_kept(t, d, dialect.now_value());
        lemma_braceless_kept(t, e, dialect.blob_type());
        lemma_braceless_kept(t, f, dialect.pk_autoinc_clause());
        assert forall|i: int| 0 <= i < t.len() && #[trigger] t[i] == '{' implies exists|j: int|
            closes_at(t, i, j) by {
            assert(!is_brace(t[i]));
        }
    } else {
        let sql = piece.sql(dialect, prefix);
        assert(is_group(t));
        assert forall|i: int| 0 <= i < t.len() && #[trigger] t[i] == '{' implies exists|j: int|
            closes_at(t, i, j) by {
            if 0 < i < t.len() - 1 {
                assert(!is_brace(t[i]));
            }
            assert(closes_at(t, i, t.len() - 1));
        }
        lemma_group_replaced(t, a, prefix);
        lemma_group_replaced(t, b, dialect.json_type());
        lemma_group_replaced(t, c, dialect.timestamptz_type());
        lemma_group_replaced(t, d, dialect.now_value());
        lemma_group_replaced(t, e, dialect.blob_type());
        lemma_group_replaced(t, f, dialect.pk_autoinc_clause());
        assert(is_braceless(sql));
        lemma_braceless_kept(sql, b, dialect.json_type());
        lemma_braceless_kept(sql, c, dialect.timestamptz_type());
        lemma_braceless_kept(sql, d, dialect.now_value());
        lemma_braceless_kept(sql, e, dialect.blob_type());
        lemma_braceless_kept(sql, f, dialect.pk_autoinc_clause());
    }
}

/// A template is rendered piece by piece: text stays, the prefix token becomes the
/// prefix, and every other token becomes what its dialect calls it.
pub proof fn templates_are_rendered_piece_by_piece(
    pieces: Seq<TemplatePiece>,
    dialect: Dialect,
    prefix: Seq<char>,
)
    requires
        is_braceless(prefix),
        forall|i: int|
            0 <= i < pieces.len() && #[trigger] pieces[i] is Text ==> is_braceless(
                pieces[i]->Text_0,
            ),
    ensures
        rendered(template_text(pieces), dialect, prefix) == template_sql(pieces, dialect, prefix),
    decreases pieces.len(),
{
    if pieces.len() == 0 {
        lemma_piece_sql(TemplatePiece::Text(Seq::empty()), dialect, prefix);
    } else {
        let rest = pieces.skip(1);
        lemma_piece_sql(pieces[0], dialect, prefix);
        assert forall|i: int| 0 <= i < rest.len() && #[trigger] rest[i] is Text implies is_braceless(
            rest[i]->Text_0,
        ) by {
            assert(rest[i] == pieces[i + 1]);
        }
        templates_are_rendered_piece_by_piece(rest, dialect, prefix);
        rendering_distributes(pieces[0].text(), template_text(rest), dialect, prefix);
    }
}

} // verus!

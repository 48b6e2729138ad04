//! What counts as one statement: texts are split as they are written.
use crate::scan::{first_at, stands_at};
use crate::sql_migration::postgres::{
    at_most_one_statement, element_at, ends_once, tag_end, tag_len, Element,
};
use vstd::prelude::*;

verus! {

/// A piece of SQL text, in bytes.
pub enum SqlPiece {
    /// A semicolon that ends a statement.
    Semicolon,
    /// A space, tab, line feed, form feed or carriage return.
    Space(u8),
    /// A string between single quotes.
    Quoted(Seq<u8>),
    /// A comment that runs to the end of its line.
    LineComment(Seq<u8>),
    /// A comment between its delimiters.
    BlockComment(Seq<u8>),
    /// A body between two equal dollar tags.
    DollarQuoted { tag: Seq<u8>, body: Seq<u8> },
    /// Any other byte.
    Other(u8),
}

/// A byte of a dollar tag: a letter, a digit or an underscore.
pub open spec fn may_be_in_tag(b: u8) -> bool {
    48 <= b <= 57 || 65 <= b <= 90 || 97 <= b <= 122 || b == 95
}

impl SqlPiece {
    pub open spec fn text(self) -> Seq<u8> {
        match self {
            SqlPiece::Semicolon => seq![59u8],
            SqlPiece::Space(b) => seq![b],
            SqlPiece::Quoted(content) => seq![39u8] + content + seq![39u8],
            SqlPiece::LineComment(content) => seq![45u8, 45u8] + content,
            SqlPiece::BlockComment(content) => seq![47u8, 42u8] + content + seq![42u8, 47u8],
            SqlPiece::DollarQuoted { tag, body } => {
                let mark = seq![36u8] + tag + seq![36u8];
                mark + body + mark
            },
            SqlPiece::Other(b) => seq![b],
        }
    }

    /// The piece ends where its text does, with `rest` behind it.
    pub open spec fn ends_before(self, rest: Seq<u8>) -> bool {
        match self {
            SqlPiece::Semicolon => true,
            SqlPiece::Space(b) => b == 32 || b == 9 || b == 10 || b == 12 || b == 13,
            SqlPiece::Quoted(content) => !content.contains(39u8),
            SqlPiece::LineComment(content) => !content.contains(10u8) && (rest.len() > 0
                ==> rest[0] == 10),
            SqlPiece::BlockComment(content) => forall|k: int|
                0 <= k && k + 1 < content.len() && #[trigger] content[k] == 42 ==> content[k + 1]
                    != 47,
            SqlPiece::DollarQuoted { tag, body } => {
                &&& forall|k: int| 0 <= k < tag.len() ==> may_be_in_tag(#[trigger] tag[k])
                &&& !body.contains(36u8)
            },
            SqlPiece::Other(b) => {
                &&& b != 59 && b != 32 && b != 9 && b != 10 && b != 12 && b != 13
                &&& b != 39 && b != 36
                &&& b == 45 && rest.len() > 0 ==> rest[0] != 45
                &&& b == 47 && rest.len() > 0 ==> rest[0] != 42
            },
        }
    }

    /// The piece is part of a statement.
    pub open spec fn is_content(self) -> bool {
        self is Quoted || self is DollarQuoted || self is Other
    }
}

/// The text of the pieces.
pub open spec fn pieces_text(pieces: Seq<SqlPiece>) -> Seq<u8>
    decreases pieces.len(),
{
    if pieces.len() == 0 {
        Seq::empty()
    } else {
        pieces[0].text() + pieces_text(pieces.skip(1))
    }
}

/// Each piece ends before the next.
pub open spec fn are_pieces(pieces: Seq<SqlPiece>) -> bool
    decreases pieces.len(),
{
    pieces.len() > 0 ==> pieces[0].ends_before(pieces_text(pieces.skip(1))) && are_pieces(
        pieces.skip(1),
    )
}

/// Piece `j` is part of a statement that stands behind the semicolon that is piece `i`.
pub open spec fn follows_an_end(pieces: Seq<SqlPiece>, i: int, j: int) -> bool {
    0 <= i < j < pieces.len() && pieces[i] is Semicolon && pieces[j].is_content()
}

/// Some piece is part of a statement.
spec fn has_content(pieces: Seq<SqlPiece>) -> bool {
    exists|j: int| 0 <= j < pieces.len() && (#[trigger] pieces[j]).is_content()
}

spec fn has_second(pieces: Seq<SqlPiece>) -> bool {
    exists|i: int, j: int| #[trigger] follows_an_end(pieces, i, j)
}

proof fn lemma_first_is(s: Seq<u8>, from: int, pattern: Seq<u8>, at: int)
    requires
        0 <= from <= at <= s.len(),
        at < s.len() ==> stands_at(s, at, pattern),
        forall|k: int| from <= k < at ==> !#[trigger] stands_at(s, k, pattern),
    ensures
        first_at(s, from, pattern) == at,
    decreases at - from,
{
    if from < at {
        assert(!stands_at(s, from, pattern));
        lemma_first_is(s, from + 1, pattern, at);
    }
}

proof fn lemma_stands_head(s: Seq<u8>, k: int, pattern: Seq<u8>)
    requires
        stands_at(s, k, pattern),
        pattern.len() > 0,
    ensures
        s[k] == pattern[0],
        pattern.len() > 1 ==> s[k + 1] == pattern[1],
{
    let here = s.subrange(k, k + pattern.len());
    assert(here[0] == pattern[0]);
    if pattern.len() > 1 {
        assert(here[1] == pattern[1]);
    }
}

proof fn lemma_tag_end(s: Seq<u8>, from: int, end: int)
    requires
        0 <= from <= end < s.len(),
        forall|i: int| from <= i < end ==> may_be_in_tag(#[trigger] s[i]),
        s[end] == 36,
    ensures
        tag_end(s, from) == end,
    decreases end - from,
{
    if from < end {
        assert(may_be_in_tag(s[from]));
        lemma_tag_end(s, from + 1, end);
    }
}

/// One piece, behind what was read before it.
proof fn lemma_piece(before: Seq<u8>, piece: SqlPiece, rest: Seq<u8>)
    requires
        piece.ends_before(rest),
    ensures
        ({
            let s = before + piece.text() + rest;
            let at = before.len() as int;
            let element = if piece is Semicolon {
                Element::Terminator
            } else if piece.is_content() {
                Element::Content
            } else {
                Element::Blank
            };
            &&& piece.text().len() > 0
            &&& element_at(s, at) == (element, at + piece.text().len())
        }),
{
    let s = before + piece.text() + rest;
    let at = before.len() as int;
    let text = piece.text();
    let end = at + text.len();
    assert forall|i: int| 0 <= i < text.len() implies s[at + i] == #[trigger] text[i] by {}
    if rest.len() > 0 {
        assert(s[end] == rest[0]);
    }
    match piece {
        SqlPiece::Semicolon => {
            assert(s[at] == text[0]);
        },
        SqlPiece::Space(b) => {
            assert(s[at] == text[0]);
        },
        SqlPiece::Quoted(content) => {
            assert(s[at] == text[0]);
            let mark = seq![39u8];
            assert forall|k: int| at + 1 <= k < end - 1 implies !#[trigger] stands_at(
                s,
                k,
                mark,
            ) by {
                if stands_at(s, k, mark) {
                    lemma_stands_head(s, k, mark);
                    assert(text[k - at] == content[k - at - 1]);
                }
            }
            assert(s.subrange(end - 1, end) =~= mark);
            lemma_first_is(s, at + 1, mark, end - 1);
        },
        SqlPiece::LineComment(content) => {
            assert(s[at] == text[0] && s[at + 1] == text[1]);
            let mark = seq![10u8];
            assert forall|k: int| at + 2 <= k < end implies !#[trigger] stands_at(s, k, mark) by {
                if stands_at(s, k, mark) {
                    lemma_stands_head(s, k, mark);
                    assert(text[k - at] == content[k - at - 2]);
                }
            }
            if end < s.len() {
                assert(s.subrange(end, end + 1) =~= mark);
            }
            lemma_first_is(s, at + 2, mark, end);
        },
        SqlPiece::BlockComment(content) => {
            assert(s[at] == text[0] && s[at + 1] == text[1]);
            let close = end - 2;
            let mark = seq![42u8, 47u8];
            assert forall|k: int| at + 2 <= k < close implies !#[trigger] stands_at(s, k, mark) by {
                if stands_at(s, k, mark) {
                    lemma_stands_head(s, k, mark);
                    let j = k - at - 2;
                    assert(text[k - at] == content[j]);
                    assert(s[k + 1] == text[k + 1 - at]);
                    if j + 1 < content.len() {
                        assert(text[k + 1 - at] == content[j + 1]);
                    }
                }
            }
            assert(s[close] == text[close - at] && s[close + 1] == text[close + 1 - at]);
            assert(s.subrange(close, end) =~= mark);
            lemma_first_is(s, at + 2, mark, close);
        },
        SqlPiece::DollarQuoted { tag, body } => {
            let mark = seq![36u8] + tag + seq![36u8];
            let len = mark.len() as int;
            let here = s.skip(at);
            assert forall|i: int| 0 <= i < text.len() implies here[i] == #[trigger] text[i] by {
                assert(here[i] == s[at + i]);
            }
            assert forall|i: int| 1 <= i < len - 1 implies may_be_in_tag(#[trigger] here[i]) by {
                assert(here[i] == text[i] && text[i] == tag[i - 1]);
            }
            assert(here[0] == text[0] && here[len - 1] == text[len - 1]);
            lemma_tag_end(here, 1, len - 1);
            assert(tag_len(here) == Some(len));
            assert(s[at] == text[0]);
            assert(s.subrange(at, at + len) =~= mark);
            let close = end - len;
            assert forall|k: int| at + len <= k < close implies !#[trigger] stands_at(
                s,
                k,
                mark,
            ) by {
                if stands_at(s, k, mark) {
                    lemma_stands_head(s, k, mark);
                    assert(s[k] == text[k - at]);
                    assert(text[k - at] == body[k - at - len]);
                }
            }
            assert(s.subrange(close, end) =~= mark) by {
                assert forall|i: int| 0 <= i < len implies s.subrange(close, end)[i] == mark[i] by {
                    assert(s[close + i] == text[close + i - at]);
                }
            }
            lemma_first_is(s, at + len, mark, close);
        },
        SqlPiece::Other(b) => {
            assert(s[at] == text[0]);
        },
    }
}

proof fn lemma_split_from(before: Seq<u8>, pieces: Seq<SqlPiece>, ended: bool)
    requires
        are_pieces(pieces),
    ensures
        ends_once(before + pieces_text(pieces), before.len() as int, ended) == (!has_second(pieces)
            && (ended ==> !has_content(pieces))),
    decreases pieces.len(),
{
    let s = before + pieces_text(pieces);
    if pieces.len() > 0 {
        let piece = pieces[0];
        let rest = pieces.skip(1);
        lemma_piece(before, piece, pieces_text(rest));
        let further = before + piece.text();
        assert(s =~= further + pieces_text(rest));
        lemma_split_from(further, rest, ended || piece is Semicolon);
        if has_content(rest) {
            let j = choose|j: int| 0 <= j < rest.len() && (#[trigger] rest[j]).is_content();
            assert(pieces[j + 1].is_content());
            if piece is Semicolon {
                assert(follows_an_end(pieces, 0, j + 1));
            }
        }
        if has_second(rest) {
            let (i, j) = choose|i: int, j: int| #[trigger] follows_an_end(rest, i, j);
            assert(follows_an_end(pieces, i + 1, j + 1));
        }
        if has_content(pieces) {
            let j = choose|j: int| 0 <= j < pieces.len() && (#[trigger] pieces[j]).is_content();
            if j > 0 {
                assert(rest[j - 1].is_content());
            }
        }
        if piece.is_content() {
            assert(pieces[0].is_content());
        }
        if has_second(pieces) {
            let (i, j) = choose|i: int, j: int| #[trigger] follows_an_end(pieces, i, j);
            assert(rest[j - 1].is_content());
            if i > 0 {
                assert(follows_an_end(rest, i - 1, j - 1));
            }
        }
    }
}

/// A text holds more than one statement exactly if something other than white space and
/// comments stands behind a semicolon. A semicolon in a string, a comment or a
/// dollar-quoted body ends nothing.
pub proof fn statements_end_at_semicolons(pieces: Seq<SqlPiece>)
    requires
        are_pieces(pieces),
    ensures
        at_most_one_statement(pieces_text(pieces)) <==> !exists|i: int, j: int| #[trigger]
            follows_an_end(pieces, i, j),
{
    lemma_split_from(Seq::empty(), pieces, false);
    assert(Seq::<u8>::empty() + pieces_text(pieces) =~= pieces_text(pieces));
}

} // verus!

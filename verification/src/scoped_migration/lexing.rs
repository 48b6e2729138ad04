//! What counts as a word of a SQL body: bodies are read as they are written.
use crate::scan::{first_at, stands_at};
use crate::scoped_migration::words::{literal_end, word_at, word_end, words_from, words_of};
use vstd::prelude::*;

verus! {

/// A character of a bare name: a letter, a digit, an underscore, or what a templated or
/// qualified name holds.
pub open spec fn is_name_char(c: char) -> bool {
    ||| 'a' <= c <= 'z'
    ||| 'A' <= c <= 'Z'
    ||| '0' <= c <= '9'
    ||| c == '_'
    ||| c == '{'
    ||| c == '}'
    ||| c == '.'
}

/// A piece of a SQL body.
pub enum Piece {
    /// A bare name or keyword.
    Name(Seq<char>),
    /// A name between double quotes.
    Quoted(Seq<char>),
    /// A string literal.
    Literal(Seq<char>),
    /// A comment that runs to the end of its line.
    LineComment(Seq<char>),
    /// A comment between its delimiters.
    BlockComment(Seq<char>),
    /// Any other character.
    Other(char),
}

/// The content of a string literal, with each quote in it doubled.
pub open spec fn doubled(content: Seq<char>) -> Seq<char>
    decreases content.len(),
{
    if content.len() == 0 {
        Seq::empty()
    } else if content[0] == '\'' {
        seq!['\'', '\''] + doubled(content.skip(1))
    } else {
        seq![content[0]] + doubled(content.skip(1))
    }
}

impl Piece {
    pub open spec fn text(self) -> Seq<char> {
        match self {
            Piece::Name(name) => name,
            Piece::Quoted(name) => seq!['"'] + name + seq!['"'],
            Piece::Literal(content) => seq!['\''] + doubled(content) + seq!['\''],
            Piece::LineComment(text) => seq!['-', '-'] + text,
            Piece::BlockComment(text) => seq!['/', '*'] + text + seq!['*', '/'],
            Piece::Other(c) => seq![c],
        }
    }

    /// The piece ends where its text does, with `rest` behind it.
    pub open spec fn ends_before(self, rest: Seq<char>) -> bool {
        match self {
            Piece::Name(name) => {
                &&& name.len() > 0
                &&& forall|i: int| 0 <= i < name.len() ==> is_name_char(#[trigger] name[i])
                &&& rest.len() > 0 ==> !is_name_char(rest[0])
            },
            Piece::Quoted(name) => name.len() > 0 && !name.contains('"'),
            Piece::Literal(content) => rest.len() > 0 ==> rest[0] != '\'',
            Piece::LineComment(text) => !text.contains('\n') && (rest.len() > 0 ==> rest[0]
                == '\n'),
            Piece::BlockComment(text) => forall|k: int|
                0 <= k && k + 1 < text.len() && #[trigger] text[k] == '*' ==> text[k + 1] != '/',
            Piece::Other(c) => {
                &&& !is_name_char(c)
                &&& c != '"'
                &&& c != '\''
                &&& c == '-' && rest.len() > 0 ==> rest[0] != '-'
                &&& c == '/' && rest.len() > 0 ==> rest[0] != '*'
            },
        }
    }
}

/// The text of a body.
pub open spec fn body_text(pieces: Seq<Piece>) -> Seq<char>
    decreases pieces.len(),
{
    if pieces.len() == 0 {
        Seq::empty()
    } else {
        pieces[0].text() + body_text(pieces.skip(1))
    }
}

/// Each piece ends before the next.
pub open spec fn is_body(pieces: Seq<Piece>) -> bool
    decreases pieces.len(),
{
    pieces.len() > 0 ==> pieces[0].ends_before(body_text(pieces.skip(1))) && is_body(
        pieces.skip(1),
    )
}

/// The names of a body, bare and quoted.
pub open spec fn body_names(pieces: Seq<Piece>) -> Seq<Seq<char>>
    decreases pieces.len(),
{
    if pieces.len() == 0 {
        Seq::empty()
    } else {
        (match pieces[0] {
            Piece::Name(name) => seq![name],
            Piece::Quoted(name) => seq![name],
            _ => Seq::empty(),
        }) + body_names(pieces.skip(1))
    }
}

proof fn lemma_word_end(s: Seq<char>, from: int, end: int)
    requires
        0 <= from <= end <= s.len(),
        forall|i: int| from <= i < end ==> is_name_char(#[trigger] s[i]),
        end < s.len() ==> !is_name_char(s[end]),
    ensures
        word_end(s, from) == end,
    decreases end - from,
{
    if from < end {
        assert(is_name_char(s[from]));
        lemma_word_end(s, from + 1, end);
    }
}

proof fn lemma_first_is(s: Seq<char>, from: int, pattern: Seq<char>, at: int)
    requires
        0 <= from <= at <= s.len(),
        at < s.len() ==> stands_at(s, at, pattern),
        forall|k: int| from <= k < at ==> !#[trigger] stands_at(s, k, pattern),
    ensures
        first_at(s, from, pattern) == at,
    decreases at - from,
{
    if from < at {
        assert(!stands_at(s, from, pattern));
        lemma_first_is(s, from + 1, pattern, at);
    }
}

proof fn lemma_literal_end(before: Seq<char>, content: Seq<char>, rest: Seq<char>)
    requires
        rest.len() > 0 ==> rest[0] != '\'',
    ensures
        ({
            let s = before + doubled(content) + seq!['\''] + rest;
            literal_end(s, before.len() as int) == before.len() + doubled(content).len() + 1
        }),
    decreases content.len(),
{
    let s = before + doubled(content) + seq!['\''] + rest;
    let at = before.len() as int;
    if content.len() == 0 {
        assert(s[at] == '\'');
        if rest.len() > 0 {
            assert(s[at + 1] == rest[0]);
        }
    } else {
        let tail = content.skip(1);
        let head = if content[0] == '\'' {
            seq!['\'', '\'']
        } else {
            seq![content[0]]
        };
        let longer = before + head;
        assert(s =~= longer + doubled(tail) + seq!['\''] + rest);
        lemma_literal_end(longer, tail, rest);
        assert(s[at] == head[0]);
        if content[0] == '\'' {
            assert(s[at + 1] == head[1]);
        }
    }
}

proof fn lemma_stands_head(s: Seq<char>, k: int, pattern: Seq<char>)
    requires
        stands_at(s, k, pattern),
        pattern.len() > 0,
    ensures
        s[k] == pattern[0],
        pattern.len() > 1 ==> s[k + 1] == pattern[1],
{
    let here = s.subrange(k, k + pattern.len());
    assert(here[0] == pattern[0]);
    if pattern.len() > 1 {
        assert(here[1] == pattern[1]);
    }
}

/// One piece, behind what was read before it.
proof fn lemma_piece(before: Seq<char>, piece: Piece, rest: Seq<char>)
    requires
        piece.ends_before(rest),
    ensures
        ({
            let s = before + piece.text() + rest;
            let at = before.len() as int;
            let word: Option<Seq<char>> = match piece {
                Piece::Name(name) => Some(name),
                Piece::Quoted(name) => Some(name),
                _ => None,
            };
            &&& piece.text().len() > 0
            &&& word_at(s, at) == (word, at + piece.text().len())
        }),
{
    let s = before + piece.text() + rest;
    let at = before.len() as int;
    let text = piece.text();
    let end = at + text.len();
    assert forall|i: int| 0 <= i < text.len() implies s[at + i] == #[trigger] text[i] by {}
    if rest.len() > 0 {
        assert(s[end] == rest[0]);
    }
    match piece {
        Piece::Name(name) => {
            assert forall|i: int| at <= i < end implies is_name_char(#[trigger] s[i]) by {
                assert(s[i] == name[i - at]);
            }
            lemma_word_end(s, at, end);
            assert(s.subrange(at, end) =~= name);
            assert(s[at] == name[0]);
        },
        Piece::Quoted(name) => {
            assert(s[at] == '"');
            let mark = seq!['"'];
            assert forall|k: int| at + 1 <= k < end - 1 implies !#[trigger] stands_at(
                s,
                k,
                mark,
            ) by {
                if stands_at(s, k, mark) {
                    lemma_stands_head(s, k, mark);
                    assert(text[k - at] == name[k - at - 1]);
                }
            }
            assert(s.subrange(end - 1, end) =~= mark);
            lemma_first_is(s, at + 1, mark, end - 1);
            assert(s.subrange(at + 1, end - 1) =~= name);
        },
        Piece::Literal(content) => {
            assert(s[at] == text[0]);
            let open = before + seq!['\''];
            assert(s =~= open + doubled(content) + seq!['\''] + rest);
            lemma_literal_end(open, content, rest);
        },
        Piece::LineComment(line) => {
            let mark = seq!['\n'];
            assert(s[at] == text[0] && s[at + 1] == text[1]);
            assert forall|k: int| at + 2 <= k < end implies !#[trigger] stands_at(
                s,
                k,
                mark,
            ) by {
                if stands_at(s, k, mark) {
                    lemma_stands_head(s, k, mark);
                    assert(text[k - at] == line[k - at - 2]);
                }
            }
            if end < s.len() {
                assert(s.subrange(end, end + 1) =~= mark);
            }
            lemma_first_is(s, at + 2, mark, end);
        },
        Piece::BlockComment(inner) => {
            assert(s[at] == text[0] && s[at + 1] == text[1]);
            let close = end - 2;
            let mark = seq!['*', '/'];
            assert forall|k: int| at + 2 <= k < close implies !#[trigger] stands_at(
                s,
                k,
                mark,
            ) by {
                if stands_at(s, k, mark) {
                    lemma_stands_head(s, k, mark);
                    let j = k - at - 2;
                    assert(text[k - at] == inner[j]);
                    assert(s[k + 1] == text[k + 1 - at]);
                    if j + 1 < inner.len() {
                        assert(text[k + 1 - at] == inner[j + 1]);
                    }
                }
            }
            assert(s[close] == text[close - at] && s[close + 1] == text[close + 1 - at]);
            assert(s.subrange(close, end) =~= mark);
            lemma_first_is(s, at + 2, mark, close);
        },
        Piece::Other(c) => {
            assert(s[at] == c);
        },
    }
}

proof fn lemma_read_from(before: Seq<char>, pieces: Seq<Piece>)
    requires
        is_body(pieces),
    ensures
        words_from(before + body_text(pieces), before.len() as int) == body_names(pieces),
    decreases pieces.len(),
{
    let s = before + body_text(pieces);
    if pieces.len() > 0 {
        let piece = pieces[0];
        let rest = pieces.skip(1);
        lemma_piece(before, piece, body_text(rest));
        assert(s =~= before + piece.text() + body_text(rest));
        let further = before + piece.text();
        lemma_read_from(further, rest);
        assert(s =~= further + body_text(rest));
        assert(Seq::<Seq<char>>::empty() + body_names(rest) =~= body_names(rest));
    }
}

/// The words of a body are its names, in order, bare or between double quotes. What
/// stands in a string literal or in a comment is no word.
pub proof fn words_are_the_names_of_the_body(pieces: Seq<Piece>)
    requires
        is_body(pieces),
    ensures
        words_of(body_text(pieces)) == body_names(pieces),
{
    lemma_read_from(Seq::empty(), pieces);
    assert(Seq::<char>::empty() + body_text(pieces) =~= body_text(pieces));
}

} // verus!

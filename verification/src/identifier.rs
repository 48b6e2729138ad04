//! The alphabets of names: SQL identifiers and migration bundle ids.
use crate::text::chars_of;
use vstd::prelude::*;

verus! {

pub open spec fn is_letter(c: char) -> bool {
    'a' <= c <= 'z' || 'A' <= c <= 'Z'
}

pub open spec fn is_letter_or_digit(c: char) -> bool {
    is_letter(c) || '0' <= c <= '9'
}

/// A SQL identifier: letters, digits and underscores, a letter first.
pub open spec fn is_sql_identifier(s: Seq<char>) -> bool {
    &&& s.len() > 0
    &&& is_letter(s[0])
    &&& forall|i: int| 0 <= i < s.len() ==> is_letter_or_digit(#[trigger] s[i]) || s[i] == '_'
}

/// A bundle id: letters, digits, `_`, `-` and `.`, a letter or digit first.
pub open spec fn is_bundle_id(s: Seq<char>) -> bool {
    &&& s.len() > 0
    &&& is_letter_or_digit(s[0])
    &&& forall|i: int|
        0 <= i < s.len() ==> is_letter_or_digit(#[trigger] s[i]) || s[i] == '_' || s[i] == '-'
            || s[i] == '.'
}

pub fn letter(c: char) -> (l: bool)
    ensures
        l == is_letter(c),
{
    ('a' <= c && c <= 'z') || ('A' <= c && c <= 'Z')
}

pub fn letter_or_digit(c: char) -> (l: bool)
    ensures
        l == is_letter_or_digit(c),
{
    letter(c) || ('0' <= c && c <= '9')
}

/// Whether `s` is a SQL identifier.
pub fn sql_identifier_valid(s: &str) -> (valid: bool)
    ensures
        valid == is_sql_identifier(s@),
{
    let chars = chars_of(s);
    if chars.len() == 0 || !letter(chars[0]) {
        return false;
    }
    let mut i: usize = 0;
    while i < chars.len()
        invariant
            i <= chars@.len(),
            chars@ == s@,
            forall|k: int| 0 <= k < i ==> is_letter_or_digit(#[trigger] s@[k]) || s@[k] == '_',
        decreases chars@.len() - i,
    {
        if !letter_or_digit(chars[i]) && chars[i] != '_' {
            assert(!is_letter_or_digit(s@[i as int]));
            return false;
        }
        i += 1;
    }
    true
}

/// Whether `s` is a bundle id.
pub fn bundle_id_valid(s: &str) -> (valid: bool)
    ensures
        valid == is_bundle_id(s@),
{
    let chars = chars_of(s);
    if chars.len() == 0 || !letter_or_digit(chars[0]) {
        return false;
    }
    let mut i: usize = 0;
    while i < chars.len()
        invariant
            i <= chars@.len(),
            chars@ == s@,
            forall|k: int|
                0 <= k < i ==> is_letter_or_digit(#[trigger] s@[k]) || s@[k] == '_' || s@[k] == '-'
                    || s@[k] == '.',
        decreases chars@.len() - i,
    {
        let c = chars[i];
        if !letter_or_digit(c) && c != '_' && c != '-' && c != '.' {
            assert(!is_letter_or_digit(s@[i as int]));
            return false;
        }
        i += 1;
    }
    true
}

} // verus!

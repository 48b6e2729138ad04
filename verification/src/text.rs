//! Text on the level of characters: the views that contracts speak of, and the
//! few string operations that the rest of the library is built from.
use crate::scan::{chars_stand_at, stands_at};
use vstd::prelude::*;
use vstd::string::*;

verus! {

/// `String::push`: appends one character.
pub assume_specification[ std::string::String::push ](s: &mut std::string::String, c: char)
    ensures
        final(s)@ == old(s)@.push(c),
;

/// The views of a sequence of strings.
pub open spec fn texts(v: Seq<String>) -> Seq<Seq<char>> {
    v.map_values(|s: String| s@)
}

pub broadcast proof fn lemma_texts_push(v: Seq<String>, s: String)
    ensures
        #[trigger] texts(v.push(s)) == texts(v).push(s@),
{
    assert(texts(v.push(s)) =~= texts(v).push(s@));
}

/// Whether `a` and `b` are the same text.
pub fn same_text(a: &str, b: &str) -> (same: bool)
    ensures
        same == (a@ == b@),
{
    a.to_owned() == b.to_owned()
}

/// The characters of `s`.
pub fn chars_of(s: &str) -> (chars: Vec<char>)
    ensures
        chars@ == s@,
{
    let mut chars: Vec<char> = Vec::new();
    for c in it: s.chars()
        invariant
            it.seq() == s@,
            chars@ == s@.take(it.index() as int),
    {
        chars.push(c);
        assert(chars@ =~= s@.take(it.index() + 1));
    }
    assert(s@.take(s@.len() as int) =~= s@);
    chars
}

/// The text of `chars[from..to]`.
pub fn slice_text(chars: &Vec<char>, from: usize, to: usize) -> (s: String)
    requires
        from <= to <= chars@.len(),
    ensures
        s@ == chars@.subrange(from as int, to as int),
{
    let mut s = String::new();
    let mut i: usize = from;
    while i < to
        invariant
            from <= i <= to <= chars@.len(),
            s@ == chars@.subrange(from as int, i as int),
        decreases to - i,
    {
        s.push(chars[i]);
        assert(chars@.subrange(from as int, i as int).push(chars@[i as int])
            =~= chars@.subrange(from as int, i + 1));
        i += 1;
    }
    s
}

/// The characters that Unicode gives the property `White_Space`.
pub open spec fn is_white(c: char) -> bool {
    let n = c as u32;
    ||| 0x9 <= n <= 0xD
    ||| n == 0x20
    ||| n == 0x85
    ||| n == 0xA0
    ||| n == 0x1680
    ||| 0x2000 <= n <= 0x200A
    ||| n == 0x2028
    ||| n == 0x2029
    ||| n == 0x202F
    ||| n == 0x205F
    ||| n == 0x3000
}

/// Whether `c` has the Unicode property `White_Space`.
pub fn white(c: char) -> (w: bool)
    ensures
        w == is_white(c),
{
    let n: u32 = c as u32;
    (0x9 <= n && n <= 0xD) || n == 0x20 || n == 0x85 || n == 0xA0 || n == 0x1680
        || (0x2000 <= n && n <= 0x200A) || n == 0x2028 || n == 0x2029 || n == 0x202F
        || n == 0x205F || n == 0x3000
}

/// `s` without its leading white space.
pub open spec fn trim_start(s: Seq<char>) -> Seq<char>
    decreases s.len(),
{
    if s.len() > 0 && is_white(s.first()) {
        trim_start(s.drop_first())
    } else {
        s
    }
}

/// `s` without its trailing white space.
pub open spec fn trim_end(s: Seq<char>) -> Seq<char>
    decreases s.len(),
{
    if s.len() > 0 && is_white(s.last()) {
        trim_end(s.drop_last())
    } else {
        s
    }
}

/// `s` without the white space at either end.
pub open spec fn trimmed(s: Seq<char>) -> Seq<char> {
    trim_end(trim_start(s))
}

/// `s` without the white space at either end.
pub fn trim(s: &str) -> (t: String)
    ensures
        t@ == trimmed(s@),
{
    let chars = chars_of(s);
    let mut from: usize = 0;
    assert(chars@.subrange(0, chars@.len() as int) =~= chars@);
    while from < chars.len() && white(chars[from])
        invariant
            from <= chars@.len(),
            trim_start(chars@) == trim_start(chars@.subrange(from as int, chars@.len() as int)),
        decreases chars@.len() - from,
    {
        assert(chars@.subrange(from as int, chars@.len() as int).drop_first()
            =~= chars@.subrange(from + 1, chars@.len() as int));
        from += 1;
    }
    let mut to: usize = chars.len();
    let ghost rest = chars@.subrange(from as int, chars@.len() as int);
    while from < to && white(chars[to - 1])
        invariant
            from <= to <= chars@.len(),
            trim_end(rest) == trim_end(chars@.subrange(from as int, to as int)),
        decreases to,
    {
        assert(chars@.subrange(from as int, to as int).drop_last()
            =~= chars@.subrange(from as int, to - 1));
        to -= 1;
    }
    slice_text(&chars, from, to)
}

/// The pieces of `s` between separators: a separator opens a new, empty piece
/// and every other character extends the last one.
pub open spec fn split_on(s: Seq<char>, separator: char) -> Seq<Seq<char>>
    decreases s.len(),
{
    if s.len() == 0 {
        seq![Seq::<char>::empty()]
    } else {
        let before = split_on(s.drop_last(), separator);
        if s.last() == separator {
            before.push(Seq::<char>::empty())
        } else {
            before.drop_last().push(before.last().push(s.last()))
        }
    }
}

/// The pieces of `s` between separators.
pub fn split(s: &str, separator: char) -> (pieces: Vec<String>)
    ensures
        texts(pieces@) == split_on(s@, separator),
        pieces@.len() > 0,
{
    broadcast use lemma_texts_push;

    let chars = chars_of(s);
    let mut pieces: Vec<String> = Vec::new();
    let mut current = String::new();
    let mut i: usize = 0;
    assert(texts(pieces@) =~= Seq::<Seq<char>>::empty());
    assert(texts(pieces@).push(current@) =~= split_on(chars@.take(0), separator));
    while i < chars.len()
        invariant
            i <= chars@.len(),
            texts(pieces@).push(current@) == split_on(chars@.take(i as int), separator),
        decreases chars@.len() - i,
    {
        let c = chars[i];
        let ghost before = texts(pieces@).push(current@);
        assert(chars@.take(i + 1).drop_last() =~= chars@.take(i as int));
        assert(before.drop_last() =~= texts(pieces@));
        if c == separator {
            pieces.push(current);
            current = String::new();
            assert(current@ =~= Seq::<char>::empty());
        } else {
            current.push(c);
        }
        i += 1;
    }
    assert(chars@.take(chars@.len() as int) =~= chars@);
    pieces.push(current);
    pieces
}

/// The digit of value `d`, for `d` below ten.
pub open spec fn digit_char(d: nat) -> char {
    (48 + d) as char
}

/// The decimal digits of `n`, without leading zeros.
pub open spec fn digits(n: nat) -> Seq<char>
    decreases n,
{
    if n < 10 {
        seq![digit_char(n)]
    } else {
        digits(n / 10).push(digit_char(n % 10))
    }
}

/// The decimal text of `n`.
pub open spec fn decimal(n: int) -> Seq<char> {
    if n < 0 {
        seq!['-'] + digits((-n) as nat)
    } else {
        digits(n as nat)
    }
}

/// The digits of `n`.
pub fn digits_text(n: u128) -> (s: String)
    ensures
        s@ == digits(n as nat),
    decreases n,
{
    let last: u8 = 48 + (n % 10) as u8;
    if n < 10 {
        let mut s = String::new();
        s.push(last as char);
        assert(s@ =~= digits(n as nat));
        s
    } else {
        let mut s = digits_text(n / 10);
        s.push(last as char);
        s
    }
}

/// The size of `n` as an unsigned number.
fn magnitude(n: i64) -> (m: u64)
    requires
        n < 0,
    ensures
        m == -n,
{
    let complement: i64 = -(n + 1);
    complement as u64 + 1
}

/// The decimal text of `n`.
pub fn decimal_text(n: i64) -> (s: String)
    ensures
        s@ == decimal(n as int),
{
    if n < 0 {
        let mut s = String::new();
        s.push('-');
        let body = digits_text(magnitude(n) as u128);
        s.append(body.as_str());
        assert(s@ =~= decimal(n as int));
        s
    } else {
        digits_text(n as u128)
    }
}

/// `s` filled up with zeros on the left until it is `width` long.
pub open spec fn zero_padded(s: Seq<char>, width: nat) -> Seq<char> {
    if s.len() >= width {
        s
    } else {
        Seq::new((width - s.len()) as nat, |i: int| '0') + s
    }
}

/// `s` filled up with zeros on the left until it is `width` long.
pub fn pad_zeros(s: &str, width: usize) -> (t: String)
    ensures
        t@ == zero_padded(s@, width as nat),
{
    let have: usize = s.unicode_len();
    let mut t = String::new();
    let mut missing: usize = if have < width { width - have } else { 0 };
    let ghost total = missing as nat;
    assert(t@ =~= Seq::new(0, |i: int| '0'));
    while missing > 0
        invariant
            missing <= total,
            t@ == Seq::new((total - missing) as nat, |i: int| '0'),
        decreases missing,
    {
        t.push('0');
        missing -= 1;
        assert(t@ =~= Seq::new((total - missing) as nat, |i: int| '0'));
    }
    t.append(s);
    assert(t@ =~= zero_padded(s@, width as nat));
    t
}

pub open spec fn is_digit(c: char) -> bool {
    '0' <= c <= '9'
}

pub open spec fn all_digits(s: Seq<char>) -> bool {
    forall|i: int| 0 <= i < s.len() ==> is_digit(#[trigger] s[i])
}

/// The number that a row of digits writes.
pub open spec fn digits_value(s: Seq<char>) -> nat
    decreases s.len(),
{
    if s.len() == 0 {
        0
    } else {
        digits_value(s.drop_last()) * 10 + (s.last() as nat - 48) as nat
    }
}

/// What `s` writes as an unsigned decimal number with an optional plus sign, if
/// it writes one of at most `max`.
pub open spec fn unsigned_value(s: Seq<char>, max: nat) -> Option<nat> {
    let row = if s.len() > 0 && s.first() == '+' {
        s.drop_first()
    } else {
        s
    };
    if row.len() > 0 && all_digits(row) && digits_value(row) <= max {
        Some(digits_value(row))
    } else {
        None
    }
}

proof fn lemma_digits_value_grows(s: Seq<char>, n: int)
    requires
        0 <= n <= s.len(),
        all_digits(s),
    ensures
        digits_value(s.take(n)) <= digits_value(s),
    decreases s.len() - n,
{
    if n < s.len() {
        lemma_digits_value_grows(s, n + 1);
        assert(s.take(n + 1).drop_last() =~= s.take(n));
    } else {
        assert(s.take(n) =~= s);
    }
}

/// The unsigned decimal number of at most `max` that `s` writes.
pub fn parse_unsigned(s: &str, max: u64) -> (n: Option<u64>)
    ensures
        n is Some <==> unsigned_value(s@, max as nat) is Some,
        n is Some ==> n->0 == unsigned_value(s@, max as nat)->0,
{
    let chars = chars_of(s);
    let from: usize = if chars.len() > 0 && chars[0] == '+' { 1 } else { 0 };
    let ghost row = s@.skip(from as int);
    assert(from == 0 ==> row =~= s@);
    if from == chars.len() {
        return None;
    }
    let mut value: u64 = 0;
    let mut i: usize = from;
    assert(row.take(0).len() == 0);
    while i < chars.len()
        invariant
            from <= i <= chars@.len(),
            chars@ == s@,
            row == s@.skip(from as int),
            row == (if s@.len() > 0 && s@.first() == '+' {
                s@.drop_first()
            } else {
                s@
            }),
            forall|k: int| 0 <= k < i - from ==> is_digit(#[trigger] row[k]),
            value == digits_value(row.take(i - from)),
            value <= max,
        decreases chars@.len() - i,
    {
        let c = chars[i];
        assert(row[i - from] == c);
        if !('0' <= c && c <= '9') {
            assert(!is_digit(row[i - from]));
            return None;
        }
        let d: u64 = (c as u32 - 48) as u64;
        assert(row.take(i - from + 1).drop_last() =~= row.take(i - from));
        proof {
            if all_digits(row) {
                lemma_digits_value_grows(row, i - from + 1);
            }
        }
        assert(digits_value(row.take(i - from + 1)) == value * 10 + d);
        if value > max / 10 {
            return None;
        }
        let tenfold: u64 = value * 10;
        if d > max - tenfold {
            return None;
        }
        value = tenfold + d;
        i += 1;
    }
    assert(row.take(row.len() as int) =~= row);
    Some(value)
}

pub open spec fn lower_char(c: char) -> char {
    if 'A' <= c <= 'Z' {
        (c as u32 + 32) as char
    } else {
        c
    }
}

/// `s` with the letters A to Z made small.
pub open spec fn lower(s: Seq<char>) -> Seq<char> {
    s.map_values(|c: char| lower_char(c))
}

/// `c`, made small if it is one of A to Z.
pub fn lower_of(c: char) -> (l: char)
    ensures
        l == lower_char(c),
{
    if 'A' <= c && c <= 'Z' {
        (c as u8 + 32) as char
    } else {
        c
    }
}

/// `s` with the letters A to Z made small.
pub fn lower_text(s: &str) -> (t: String)
    ensures
        t@ == lower(s@),
{
    let chars = chars_of(s);
    let mut t = String::new();
    let mut i: usize = 0;
    while i < chars.len()
        invariant
            i <= chars@.len(),
            t@ == lower(chars@.take(i as int)),
        decreases chars@.len() - i,
    {
        t.push(lower_of(chars[i]));
        i += 1;
        assert(t@ =~= lower(chars@.take(i as int)));
    }
    assert(chars@.take(chars@.len() as int) =~= chars@);
    t
}

/// The text from `i` on with each occurrence of `pattern`, taken from the left
/// and without overlap, replaced by `with`.
pub open spec fn replaced_from(
    s: Seq<char>,
    i: int,
    pattern: Seq<char>,
    with: Seq<char>,
) -> Seq<char>
    decreases s.len() - i,
{
    if i < 0 || i >= s.len() || pattern.len() == 0 {
        Seq::empty()
    } else if stands_at(s, i, pattern) {
        with + replaced_from(s, i + pattern.len(), pattern, with)
    } else {
        seq![s[i]] + replaced_from(s, i + 1, pattern, with)
    }
}

/// `s` with each occurrence of `pattern` replaced by `with`.
pub open spec fn replaced(s: Seq<char>, pattern: Seq<char>, with: Seq<char>) -> Seq<char> {
    replaced_from(s, 0, pattern, with)
}

/// A text in which `pattern` does not occur is left as it is.
pub proof fn lemma_replaced_absent(s: Seq<char>, i: int, pattern: Seq<char>, with: Seq<char>)
    requires
        0 <= i <= s.len(),
        pattern.len() > 0,
        forall|k: int| 0 <= k < s.len() ==> !#[trigger] stands_at(s, k, pattern),
    ensures
        replaced_from(s, i, pattern, with) == s.skip(i),
    decreases s.len() - i,
{
    if i < s.len() {
        lemma_replaced_absent(s, i + 1, pattern, with);
        assert(seq![s[i]] + s.skip(i + 1) =~= s.skip(i));
    } else {
        assert(s.skip(i) =~= Seq::empty());
    }
}

/// `s` with each occurrence of `pattern`, taken from the left and without
/// overlap, replaced by `with`.
pub fn replace(s: &str, pattern: &str, with: &str) -> (t: String)
    requires
        pattern@.len() > 0,
    ensures
        t@ == replaced(s@, pattern@, with@),
{
    let chars = chars_of(s);
    let sought = chars_of(pattern);
    let mut t = String::new();
    let mut i: usize = 0;
    assert(t@ + replaced(s@, pattern@, with@) =~= replaced(s@, pattern@, with@));
    while i < chars.len()
        invariant
            i <= chars@.len(),
            chars@ == s@,
            sought@ == pattern@,
            pattern@.len() > 0,
            t@ + replaced_from(s@, i as int, pattern@, with@) == replaced(s@, pattern@, with@),
        decreases chars@.len() - i,
    {
        let ghost before = t@;
        if chars_stand_at(&chars, i, sought.as_slice()) {
            t.append(with);
            assert(t@ + replaced_from(s@, i + sought@.len(), pattern@, with@) =~= before + (with@
                + replaced_from(s@, i + sought@.len(), pattern@, with@)));
            i += sought.len();
        } else {
            t.push(chars[i]);
            assert(t@ + replaced_from(s@, i + 1, pattern@, with@) =~= before + (seq![s@[i as int]]
                + replaced_from(s@, i + 1, pattern@, with@)));
            i += 1;
        }
    }
    assert(t@ + replaced_from(s@, i as int, pattern@, with@) =~= t@);
    t
}

/// Whether `s` holds nothing but white space.
pub open spec fn is_blank(s: Seq<char>) -> bool {
    forall|i: int| 0 <= i < s.len() ==> is_white(#[trigger] s[i])
}

/// A text is blank exactly when nothing is left of it after trimming.
pub proof fn lemma_blank(s: Seq<char>)
    ensures
        is_blank(s) <==> trimmed(s).len() == 0,
    decreases s.len(),
{
    if s.len() > 0 && is_white(s.first()) {
        lemma_blank(s.drop_first());
        assert(is_blank(s) <==> is_blank(s.drop_first())) by {
            if is_blank(s.drop_first()) {
                assert forall|i: int| 0 <= i < s.len() implies is_white(#[trigger] s[i]) by {
                    if i > 0 {
                        assert(s.drop_first()[i - 1] == s[i]);
                    }
                }
            }
        }
    } else if s.len() > 0 {
        assert(!is_white(s[0]));
        lemma_trim_end_keeps(s);
    }
}

proof fn lemma_trim_end_keeps(s: Seq<char>)
    requires
        s.len() > 0,
        !is_white(s.first()),
    ensures
        trim_end(s).len() > 0,
    decreases s.len(),
{
    if is_white(s.last()) {
        lemma_trim_end_keeps(s.drop_last());
    }
}

/// Whether `s` holds nothing but white space.
pub fn blank(s: &str) -> (b: bool)
    ensures
        b == is_blank(s@),
{
    proof {
        lemma_blank(s@);
    }
    let t = trim(s);
    t.as_str().is_empty()
}

/// The parts with `separator` between them.
pub open spec fn joined(parts: Seq<Seq<char>>, separator: Seq<char>) -> Seq<char>
    decreases parts.len(),
{
    if parts.len() == 0 {
        Seq::empty()
    } else if parts.len() == 1 {
        parts[0]
    } else {
        joined(parts.drop_last(), separator) + separator + parts.last()
    }
}

/// The parts with `separator` between them.
pub fn join(parts: &Vec<String>, separator: &str) -> (s: String)
    ensures
        s@ == joined(texts(parts@), separator@),
{
    let ghost all = texts(parts@);
    let mut s = String::new();
    let mut i: usize = 0;
    assert(s@ =~= joined(all.take(0), separator@));
    while i < parts.len()
        invariant
            i <= parts@.len(),
            all == texts(parts@),
            s@ == joined(all.take(i as int), separator@),
        decreases parts@.len() - i,
    {
        let ghost before = s@;
        if i > 0 {
            s.append(separator);
        }
        s.append(parts[i].as_str());
        i += 1;
        proof {
            let taken = all.take(i as int);
            assert(taken.drop_last() =~= all.take(i - 1));
            assert(taken.last() == parts@[i - 1]@);
            if i == 1 {
                assert(s@ =~= taken[0]);
            } else {
                assert(s@ =~= before + separator@ + taken.last());
            }
        }
    }
    assert(all.take(all.len() as int) =~= all);
    s
}

/// `s` without the characters `c` that it starts with.
pub open spec fn strip_start(s: Seq<char>, c: char) -> Seq<char>
    decreases s.len(),
{
    if s.len() > 0 && s.first() == c {
        strip_start(s.drop_first(), c)
    } else {
        s
    }
}

/// `s` without the characters `c` that it ends with.
pub open spec fn strip_end(s: Seq<char>, c: char) -> Seq<char>
    decreases s.len(),
{
    if s.len() > 0 && s.last() == c {
        strip_end(s.drop_last(), c)
    } else {
        s
    }
}

/// `s` without the characters `c` at either end.
pub open spec fn stripped(s: Seq<char>, c: char) -> Seq<char> {
    strip_end(strip_start(s, c), c)
}

/// `s` without the characters `c` that it ends with.
pub fn strip_tail(s: &str, c: char) -> (t: String)
    ensures
        t@ == strip_end(s@, c),
{
    let chars = chars_of(s);
    let mut to: usize = chars.len();
    assert(chars@.take(to as int) =~= chars@);
    while to > 0 && chars[to - 1] == c
        invariant
            to <= chars@.len(),
            strip_end(chars@, c) == strip_end(chars@.take(to as int), c),
        decreases to,
    {
        assert(chars@.take(to as int).drop_last() =~= chars@.take(to - 1));
        to -= 1;
    }
    assert(chars@.subrange(0, to as int) =~= chars@.take(to as int));
    slice_text(&chars, 0, to)
}

/// `s` without the characters `c` at either end.
pub fn strip(s: &str, c: char) -> (t: String)
    ensures
        t@ == stripped(s@, c),
{
    let chars = chars_of(s);
    let mut from: usize = 0;
    assert(chars@.skip(0) =~= chars@);
    while from < chars.len() && chars[from] == c
        invariant
            from <= chars@.len(),
            strip_start(chars@, c) == strip_start(chars@.skip(from as int), c),
        decreases chars@.len() - from,
    {
        assert(chars@.skip(from as int).drop_first() =~= chars@.skip(from + 1));
        from += 1;
    }
    let rest = slice_text(&chars, from, chars.len());
    assert(rest@ =~= chars@.skip(from as int));
    strip_tail(rest.as_str(), c)
}

/// A number's digits write that number: each is a digit, the first is no zero unless it
/// is the only one, and their value is the number.
pub proof fn digits_write_their_number(n: nat)
    ensures
        digits(n).len() > 0,
        forall|i: int| 0 <= i < digits(n).len() ==> '0' <= #[trigger] digits(n)[i] <= '9',
        digits(n).len() > 1 ==> digits(n)[0] != '0',
        digits_value(digits(n)) == n,
    decreases n,
{
    let row = digits(n);
    if n < 10 {
        assert(row.drop_last() =~= Seq::empty());
        assert(digits_value(row.drop_last()) == 0);
        assert(digits_value(row) == n);
    } else {
        let front = digits(n / 10);
        digits_write_their_number(n / 10);
        assert(row.drop_last() =~= front);
        assert(row[0] == front[0]);
        if n / 10 < 10 {
            assert(front[0] == digit_char(n / 10));
        } else {
            digits_write_their_number(n / 10 / 10);
            assert(front.len() > 1);
        }
        assert(digits_value(row) == digits_value(front) * 10 + n % 10);
    }
}

/// Splitting works part by part: the pieces on both sides of a separator are those of
/// the two parts.
pub proof fn splitting_works_part_by_part(before: Seq<char>, separator: char, after: Seq<char>)
    ensures
        split_on(before + seq![separator] + after, separator) == split_on(before, separator)
            + split_on(after, separator),
        split_on(before, separator).len() > 0,
        split_on(after, separator).len() > 0,
    decreases before.len() + after.len(),
{
    let s = before + seq![separator] + after;
    if after.len() == 0 {
        assert(s.drop_last() =~= before);
        assert(split_on(s, separator) =~= split_on(before, separator) + split_on(
            after,
            separator,
        ));
        if before.len() > 0 {
            splitting_works_part_by_part(before.drop_last(), separator, Seq::empty());
        }
    } else {
        let less = after.drop_last();
        splitting_works_part_by_part(before, separator, less);
        assert(s.drop_last() =~= before + seq![separator] + less);
        assert(s.last() == after.last());
        let one = split_on(before, separator);
        let two = split_on(less, separator);
        if after.last() == separator {
            assert((one + two).push(Seq::<char>::empty()) =~= one + two.push(Seq::<char>::empty()));
        } else {
            let last = two.last().push(after.last());
            assert((one + two).last() == two.last());
            assert((one + two).drop_last().push(last) =~= one + two.drop_last().push(last));
        }
    }
}

/// A text without the separator is its only piece.
pub proof fn whole_texts_are_not_split(s: Seq<char>, separator: char)
    requires
        !s.contains(separator),
    ensures
        split_on(s, separator) == seq![s],
    decreases s.len(),
{
    if s.len() > 0 {
        let less = s.drop_last();
        assert forall|i: int| 0 <= i < less.len() implies less[i] != separator by {
            assert(s[i] != separator);
        }
        assert(s.last() != separator) by {
            assert(s[s.len() - 1] != separator);
        }
        whole_texts_are_not_split(less, separator);
        assert(split_on(s, separator) =~= seq![s]) by {
            assert(less.push(s.last()) =~= s);
        }
    } else {
        assert(s =~= Seq::empty());
    }
}

/// Each piece of a split text stands in it between two separators, or between one and an
/// end of the text.
pub proof fn pieces_stand_between_separators(s: Seq<char>, separator: char, k: int) -> (at: int)
    requires
        0 <= k < split_on(s, separator).len(),
    ensures
        ({
            let piece = split_on(s, separator)[k];
            let end = at + piece.len();
            &&& 0 <= at <= end <= s.len()
            &&& s.subrange(at, end) == piece
            &&& at == 0 || s[at - 1] == separator
            &&& k + 1 < split_on(s, separator).len() ==> end < s.len() && s[end] == separator
            &&& k + 1 == split_on(s, separator).len() ==> end == s.len()
        }),
    decreases s.len(),
{
    if s.len() == 0 {
        assert(s.subrange(0, 0) =~= Seq::empty());
        0
    } else {
        let less = s.drop_last();
        let pieces = split_on(s, separator);
        let before = split_on(less, separator);
        splitting_works_part_by_part(less, separator, Seq::empty());
        if s.last() == separator && k == before.len() {
            assert(s.subrange(s.len() as int, s.len() as int) =~= Seq::empty());
            s.len() as int
        } else {
            let at = pieces_stand_between_separators(less, separator, k);
            let piece = before[k];
            let end = at + piece.len();
            assert(s.subrange(at, end) =~= less.subrange(at, end));
            if s.last() != separator && k + 1 == before.len() {
                assert(pieces[k] == piece.push(s.last()));
                assert(s.subrange(at, end + 1) =~= piece.push(s.last()));
            } else {
                assert(pieces[k] == piece);
            }
            if at > 0 {
                assert(s[at - 1] == less[at - 1]);
            }
            if end < less.len() {
                assert(s[end] == less[end]);
            }
            at
        }
    }
}

} // verus!

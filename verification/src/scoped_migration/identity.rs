//! Labels and identities: that a label tells versions apart and sorts like them,
//! and that an identity is taken over an unambiguous input.
use crate::scoped_migration::error::{label_of, padded_version};
use crate::text::{
    all_digits, decimal, digits, digits_value, is_digit, zero_padded,
};
use crate::text_map::precedes;
use vstd::prelude::*;
use vstd::utf8::{encode_scalar, encode_utf8, encode_utf8_decode_utf8};

verus! {

/// Digits write down the number that they were made of.
proof fn lemma_value_of_digits(n: nat)
    ensures
        digits_value(digits(n)) == n,
        all_digits(digits(n)),
        digits(n).len() > 0,
    decreases n,
{
    assert(digits(n).last() as nat == 48 + n % 10);
    if n >= 10 {
        lemma_value_of_digits(n / 10);
        assert(digits(n).drop_last() =~= digits(n / 10));
        assert(n == (n / 10) * 10 + n % 10);
    } else {
        assert(digits(n).drop_last() =~= Seq::empty());
        assert(digits_value(digits(n).drop_last()) == 0);
    }
}

spec fn zeros(k: nat) -> Seq<char> {
    Seq::new(k, |i: int| '0')
}

/// Zeros in front do not change what digits write down.
proof fn lemma_value_behind_zeros(k: nat, s: Seq<char>)
    ensures
        digits_value(zeros(k) + s) == digits_value(s),
    decreases k + s.len(),
{
    let all = zeros(k) + s;
    if s.len() > 0 {
        lemma_value_behind_zeros(k, s.drop_last());
        assert(all.drop_last() =~= zeros(k) + s.drop_last());
    } else if k > 0 {
        lemma_value_behind_zeros((k - 1) as nat, s);
        assert(all.drop_last() =~= zeros((k - 1) as nat) + s);
    } else {
        assert(all =~= s);
    }
}

/// A padded row of digits writes down the same number, in digits.
proof fn lemma_padded(n: nat, width: nat)
    ensures
        digits_value(zero_padded(digits(n), width)) == n,
        all_digits(zero_padded(digits(n), width)),
        zero_padded(digits(n), width).len() > 0,
        digits(n).len() <= width ==> zero_padded(digits(n), width).len() == width,
{
    lemma_value_of_digits(n);
    if digits(n).len() < width {
        let k = (width - digits(n).len()) as nat;
        lemma_value_behind_zeros(k, digits(n));
        assert(zero_padded(digits(n), width) =~= zeros(k) + digits(n));
        assert forall|i: int| 0 <= i < width implies is_digit(
            #[trigger] zero_padded(digits(n), width)[i],
        ) by {
            if i >= k {
                assert(zero_padded(digits(n), width)[i] == digits(n)[i - k]);
            }
        }
    }
}

/// Two versions with the same label are the same version.
pub proof fn labels_tell_versions_apart(one: i64, other: i64)
    requires
        label_of(one as int) == label_of(other as int),
    ensures
        one == other,
{
    assert(label_of(one as int).skip(1) =~= padded_version(one as int));
    assert(label_of(other as int).skip(1) =~= padded_version(other as int));
    lemma_padded(if one < 0 { (-one) as nat } else { one as nat }, if one < 0 { 3 } else { 4 });
    lemma_padded(
        if other < 0 {
            (-other) as nat
        } else {
            other as nat
        },
        if other < 0 {
            3
        } else {
            4
        },
    );
    let a = padded_version(one as int);
    let b = padded_version(other as int);
    assert(one >= 0 ==> is_digit(a[0]));
    assert(other >= 0 ==> is_digit(b[0]));
    assert(one < 0 ==> a[0] == '-');
    assert(other < 0 ==> b[0] == '-');
    if one < 0 {
        assert(a.skip(1) =~= zero_padded(decimal(-one), 3));
        assert(b.skip(1) =~= zero_padded(decimal(-other), 3));
    }
}

proof fn lemma_precedes_grows(a: Seq<char>, b: Seq<char>, c: char, d: char)
    requires
        a.len() == b.len(),
        precedes(a, b) || (a == b && c < d),
    ensures
        precedes(a.push(c), b.push(d)),
    decreases a.len(),
{
    if a.len() == 0 {
        assert(a.push(c).drop_first() =~= Seq::empty());
    } else {
        assert(a.push(c).drop_first() =~= a.drop_first().push(c));
        assert(b.push(d).drop_first() =~= b.drop_first().push(d));
        if a[0] == b[0] {
            lemma_precedes_grows(a.drop_first(), b.drop_first(), c, d);
        }
    }
}

/// Rows of digits of the same length stand in the order of what they write down,
/// and are the same row where they write down the same.
proof fn lemma_rows_in_order(s: Seq<char>, t: Seq<char>)
    requires
        s.len() == t.len(),
        all_digits(s),
        all_digits(t),
    ensures
        digits_value(s) < digits_value(t) ==> precedes(s, t),
        digits_value(s) == digits_value(t) ==> s == t,
    decreases s.len(),
{
    if s.len() == 0 {
        assert(s =~= t);
    } else {
        let a = s.drop_last();
        let b = t.drop_last();
        assert(forall|i: int| 0 <= i < a.len() ==> #[trigger] a[i] == s[i]);
        assert(forall|i: int| 0 <= i < b.len() ==> #[trigger] b[i] == t[i]);
        lemma_rows_in_order(a, b);
        lemma_rows_in_order(b, a);
        assert(s =~= a.push(s.last()));
        assert(t =~= b.push(t.last()));
        assert(is_digit(s[s.len() - 1]));
        assert(is_digit(t[t.len() - 1]));
        if digits_value(s) < digits_value(t) {
            lemma_precedes_grows(a, b, s.last(), t.last());
        }
    }
}

/// Labels of up to four digits sort the way they read: the label of an earlier
/// version comes first.
pub proof fn labels_sort_like_versions(earlier: i64, later: i64)
    requires
        0 <= earlier < later <= 9999,
    ensures
        precedes(label_of(earlier as int), label_of(later as int)),
{
    reveal_with_fuel(digits, 5);
    lemma_padded(earlier as nat, 4);
    lemma_padded(later as nat, 4);
    let a = zero_padded(digits(earlier as nat), 4);
    let b = zero_padded(digits(later as nat), 4);
    lemma_rows_in_order(a, b);
    assert(label_of(earlier as int).drop_first() =~= a);
    assert(label_of(later as int).drop_first() =~= b);
}

proof fn lemma_encode_concat(a: Seq<char>, b: Seq<char>)
    ensures
        encode_utf8(a + b) == encode_utf8(a) + encode_utf8(b),
    decreases a.len(),
{
    if a.len() == 0 {
        assert(a + b =~= b);
        assert(encode_utf8(a) + encode_utf8(b) =~= encode_utf8(b));
    } else {
        lemma_encode_concat(a.drop_first(), b);
        assert((a + b).drop_first() =~= a.drop_first() + b);
        assert(encode_utf8(a + b) =~= encode_utf8(a) + encode_utf8(b));
    }
}

/// What an identity is taken over: the label, a zero byte, and the body.
pub open spec fn identity_input(version: i64, sql: Seq<char>) -> Seq<u8> {
    encode_utf8(label_of(version as int)) + seq![0u8] + encode_utf8(sql)
}

proof fn lemma_input_is_text(version: i64, sql: Seq<char>)
    ensures
        identity_input(version, sql) == encode_utf8(
            label_of(version as int) + seq!['\0'] + sql,
        ),
{
    let label = label_of(version as int);
    lemma_encode_concat(label + seq!['\0'], sql);
    lemma_encode_concat(label, seq!['\0']);
    assert(seq!['\0'].drop_first() =~= Seq::empty());
    assert(encode_utf8(seq!['\0'].drop_first()) =~= Seq::empty());
    assert(0u32 & 0x7f == 0u32) by (bit_vector);
    assert(encode_scalar('\0' as u32) =~= seq![0u8]);
    assert(encode_utf8(seq!['\0']) =~= seq![0u8]);
}

proof fn lemma_label_without_nul(version: i64, i: int)
    requires
        0 <= i < label_of(version as int).len(),
    ensures
        label_of(version as int)[i] != '\0',
{
    lemma_padded(
        if version < 0 {
            (-version) as nat
        } else {
            version as nat
        },
        if version < 0 {
            3
        } else {
            4
        },
    );
    let padded = padded_version(version as int);
    if i > 0 {
        assert(label_of(version as int)[i] == padded[i - 1]);
        if version < 0 {
            let row = zero_padded(decimal(-version), 3);
            if i > 1 {
                assert(padded[i - 1] == row[i - 2]);
                assert(is_digit(row[i - 2]));
            }
        } else {
            assert(is_digit(padded[i - 1]));
        }
    }
}

/// The zero byte keeps label and body apart: two migrations whose identities are
/// taken over the same bytes have the same version and the same body. A body that
/// moves to another version is therefore hashed anew.
pub proof fn identity_inputs_are_unambiguous(
    one: i64,
    one_sql: Seq<char>,
    other: i64,
    other_sql: Seq<char>,
)
    requires
        identity_input(one, one_sql) == identity_input(other, other_sql),
    ensures
        one == other,
        one_sql == other_sql,
{
    lemma_input_is_text(one, one_sql);
    lemma_input_is_text(other, other_sql);
    let a = label_of(one as int);
    let b = label_of(other as int);
    let s = a + seq!['\0'] + one_sql;
    let t = b + seq!['\0'] + other_sql;
    encode_utf8_decode_utf8(s);
    encode_utf8_decode_utf8(t);
    assert(s == t);
    assert(s[a.len() as int] == '\0');
    assert(t[b.len() as int] == '\0');
    if a.len() < b.len() {
        assert(t[a.len() as int] == b[a.len() as int]);
        lemma_label_without_nul(other, a.len() as int);
    } else if b.len() < a.len() {
        assert(s[b.len() as int] == a[b.len() as int]);
        lemma_label_without_nul(one, b.len() as int);
    } else {
        assert(a =~= s.take(a.len() as int));
        assert(b =~= t.take(b.len() as int));
        labels_tell_versions_apart(one, other);
        assert(one_sql =~= s.skip(a.len() as int + 1));
        assert(other_sql =~= t.skip(b.len() as int + 1));
    }
}

} // verus!

//! What the pairs of a request come to, stated on the pairs and the parsed query.
use crate::api_contract::list_query::{
    brackets, filter_brackets, filter_key, operator_named, page_number, page_offset, page_size,
    parsed_query, parts_of, scalar_of, sort_piece, sort_pieces, sort_value, value_of, QueryParts,
};
use crate::api_contract::numeral::{digits_end, is_decimal, is_number, unsigned};
use crate::api_contract::page::{PageView, PaginationConfig, PaginationMode};
use crate::api_contract::query::{
    BoolOperator, FilterOperator, FilterTree, QueryErrorView, ScalarView, SchemaView, SortDirection,
    SortView, ValueView,
};
use crate::scan::{first_at, lemma_first_at, stands_at};
use crate::text::{all_digits, digits_value, is_digit, is_white, split_on, trimmed, unsigned_value};
use vstd::prelude::*;
use vstd::string::*;

verus! {

/// The pair has one of two keys.
pub open spec fn has_key(
    pair: (Seq<char>, Seq<char>),
    canonical: Seq<char>,
    alias: Seq<char>,
) -> bool {
    pair.0 == canonical || pair.0 == alias
}

/// Pair `i` is the last one with one of two keys.
pub open spec fn is_last_with(
    pairs: Seq<(Seq<char>, Seq<char>)>,
    i: int,
    canonical: Seq<char>,
    alias: Seq<char>,
) -> bool {
    &&& 0 <= i < pairs.len()
    &&& has_key(pairs[i], canonical, alias)
    &&& forall|j: int| i < j < pairs.len() ==> !has_key(#[trigger] pairs[j], canonical, alias)
}

/// No pair has one of two keys.
pub open spec fn none_with(
    pairs: Seq<(Seq<char>, Seq<char>)>,
    canonical: Seq<char>,
    alias: Seq<char>,
) -> bool {
    forall|j: int| 0 <= j < pairs.len() ==> !has_key(#[trigger] pairs[j], canonical, alias)
}

/// The value of a row of decimal digits: each further digit counts ten times less
/// than the one before it.
pub open spec fn row_value(row: Seq<char>) -> int
    decreases row.len(),
{
    if row.len() == 0 {
        0
    } else {
        10 * row_value(row.drop_last()) + (row.last() as int - '0' as int)
    }
}

/// Nothing but decimal digits, and at least one.
pub open spec fn is_row(row: Seq<char>) -> bool {
    row.len() > 0 && forall|i: int| 0 <= i < row.len() ==> '0' <= #[trigger] row[i] <= '9'
}

/// The text behind a plus sign, or all of it.
pub open spec fn behind_plus(text: Seq<char>) -> Seq<char> {
    if text.len() > 0 && text[0] == '+' {
        text.drop_first()
    } else {
        text
    }
}

/// The text writes the number in decimal digits, behind a plus sign or none.
pub open spec fn writes(text: Seq<char>, n: int) -> bool {
    is_row(behind_plus(text)) && row_value(behind_plus(text)) == n
}

proof fn lemma_row_value(row: Seq<char>)
    requires
        all_digits(row),
    ensures
        row_value(row) == digits_value(row),
    decreases row.len(),
{
    if row.len() > 0 {
        assert(all_digits(row.drop_last()));
        assert('0' <= row[row.len() - 1] <= '9');
        lemma_row_value(row.drop_last());
    }
}

proof fn lemma_written(text: Seq<char>, max: nat)
    ensures
        match unsigned_value(text, max) {
            Some(n) => writes(text, n as int) && n <= max,
            None => forall|n: int| #[trigger] writes(text, n) ==> n > max,
        },
{
    let row = behind_plus(text);
    if row.len() > 0 && all_digits(row) {
        lemma_row_value(row);
    }
    assert forall|n: int| #[trigger] writes(text, n) && unsigned_value(text, max) is None implies n
        > max by {
        assert forall|i: int| 0 <= i < row.len() implies is_digit(#[trigger] row[i]) by {}
    }
}

proof fn lemma_keys_differ()
    ensures
        "sort"@.len() == 4,
        "limit"@.len() == 5,
        "page"@.len() == 4,
        "page"@[0] == 'p',
        "sort"@[0] == 's',
        "cursor"@.len() == 6,
        "cursor"@[0] == 'c',
        "offset"@.len() == 6,
        "offset"@[0] == 'o',
        "page[size]"@.len() == 10,
        "page[cursor]"@.len() == 12,
        "page[cursor]"@[5] == 'c',
        "page[number]"@.len() == 12,
        "page[number]"@[5] == 'n',
        "page[offset]"@.len() == 12,
        "page[offset]"@[5] == 'o',
        "filter"@.len() == 6,
        "filter"@[0] == 'f',
        "page[size]"@[0] == 'p',
        "page[cursor]"@[0] == 'p',
        "page[number]"@[0] == 'p',
        "page[offset]"@[0] == 'p',
        "limit"@[0] == 'l',
{
    reveal_strlit("sort");
    reveal_strlit("limit");
    reveal_strlit("page");
    reveal_strlit("cursor");
    reveal_strlit("offset");
    reveal_strlit("page[size]");
    reveal_strlit("page[cursor]");
    reveal_strlit("page[number]");
    reveal_strlit("page[offset]");
    reveal_strlit("filter");
}

proof fn lemma_same_parts(
    a: Seq<(Seq<char>, Seq<char>)>,
    b: Seq<(Seq<char>, Seq<char>)>,
    n: nat,
    config: PaginationConfig,
)
    requires
        n <= a.len(),
        n <= b.len(),
        forall|i: int, parts: QueryParts|
            0 <= i < n ==> #[trigger] parts.with_pair(a[i].0, a[i].1, config) == parts.with_pair(
                b[i].0,
                b[i].1,
                config,
            ),
    ensures
        parts_of(a, n, config) == parts_of(b, n, config),
    decreases n,
{
    if n > 0 {
        lemma_same_parts(a, b, (n - 1) as nat, config);
        if parts_of(a, (n - 1) as nat, config) is Ok {
            let parts = parts_of(a, (n - 1) as nat, config)->Ok_0;
            let i = n - 1;
            assert(parts.with_pair(a[i].0, a[i].1, config) == parts.with_pair(
                b[i].0,
                b[i].1,
                config,
            ));
        }
    }
}

/// The documented aliases: each short key says what its canonical key says.
pub open spec fn is_alias_of(alias: Seq<char>, canonical: Seq<char>) -> bool {
    ||| canonical == "page[size]"@ && alias == "limit"@
    ||| canonical == "page[cursor]"@ && alias == "cursor"@
    ||| canonical == "page[number]"@ && alias == "page"@
    ||| canonical == "page[offset]"@ && alias == "offset"@
}

/// A canonical key and its alias can stand for each other: wherever one of them
/// stands in a request, the other gives the same query or the same error.
pub proof fn aliases_say_the_same(
    pairs: Seq<(Seq<char>, Seq<char>)>,
    i: int,
    canonical: Seq<char>,
    alias: Seq<char>,
    value: Seq<char>,
    schema: SchemaView,
)
    requires
        0 <= i < pairs.len(),
        is_alias_of(alias, canonical),
    ensures
        parsed_query(pairs.update(i, (canonical, value)), schema) == parsed_query(
            pairs.update(i, (alias, value)),
            schema,
        ),
{
    lemma_keys_differ();
    let a = pairs.update(i, (canonical, value));
    let b = pairs.update(i, (alias, value));
    assert forall|k: int, parts: QueryParts|
        0 <= k < a.len() implies #[trigger] parts.with_pair(a[k].0, a[k].1, schema.page)
        == parts.with_pair(b[k].0, b[k].1, schema.page) by {
        if k != i {
            assert(a[k] == b[k]);
        }
    }
    lemma_same_parts(a, b, a.len(), schema.page);
}

/// What the first `n` pairs have said of the page.
proof fn lemma_page_parts(
    pairs: Seq<(Seq<char>, Seq<char>)>,
    n: nat,
    config: PaginationConfig,
    i: int,
)
    requires
        n <= pairs.len(),
        parts_of(pairs, n, config) is Ok,
    ensures
        ({
            let seen = pairs.take(n as int);
            let parts = parts_of(pairs, n, config)->Ok_0;
            &&& is_last_with(seen, i, "page[offset]"@, "offset"@) ==> page_offset(seen[i].1) is Ok
                && parts.offset == Some(page_offset(seen[i].1)->Ok_0)
            &&& is_last_with(seen, i, "page[number]"@, "page"@) ==> page_number(seen[i].1) is Ok
                && parts.number == Some(page_number(seen[i].1)->Ok_0)
            &&& is_last_with(seen, i, "page[size]"@, "limit"@) ==> page_size(
                seen[i].1,
                config,
            ) is Ok && parts.size == Some(page_size(seen[i].1, config)->Ok_0)
            &&& none_with(seen, "page[offset]"@, "offset"@) ==> parts.offset is None
            &&& none_with(seen, "page[number]"@, "page"@) ==> parts.number is None
            &&& none_with(seen, "page[size]"@, "limit"@) ==> parts.size is None
        }),
    decreases n,
{
    if n > 0 {
        lemma_keys_differ();
        lemma_page_parts(pairs, (n - 1) as nat, config, i);
        let seen = pairs.take(n as int);
        let fewer = pairs.take(n - 1);
        assert(forall|j: int| 0 <= j < n - 1 ==> #[trigger] fewer[j] == seen[j]);
        assert(seen[n - 1] == pairs[n - 1]);
        assert forall|a: Seq<char>, b: Seq<char>|
            i != n - 1 && #[trigger] is_last_with(seen, i, a, b) implies is_last_with(
            fewer,
            i,
            a,
            b,
        ) && !has_key(pairs[n - 1], a, b) by {
            assert(!has_key(seen[n - 1], a, b));
            assert forall|j: int| i < j < fewer.len() implies !has_key(#[trigger] fewer[j], a, b) by {
                assert(!has_key(seen[j], a, b));
            }
        }
        assert forall|a: Seq<char>, b: Seq<char>| #[trigger]
            none_with(seen, a, b) implies none_with(fewer, a, b) && !has_key(pairs[n - 1], a, b) by {
            assert(!has_key(seen[n - 1], a, b));
            assert forall|j: int| 0 <= j < fewer.len() implies !has_key(#[trigger] fewer[j], a, b) by {
                assert(!has_key(seen[j], a, b));
            }
        }
    }
}

/// The last offset of a request counts: under either of its keys, the page is an
/// offset page at exactly the number that the value writes.
pub proof fn the_last_offset_counts(
    pairs: Seq<(Seq<char>, Seq<char>)>,
    i: int,
    schema: SchemaView,
)
    requires
        parsed_query(pairs, schema) is Ok,
        is_last_with(pairs, i, "page[offset]"@, "offset"@),
    ensures
        parsed_query(pairs, schema)->Ok_0.page matches PageView::Offset { size, offset } && writes(
            pairs[i].1,
            offset as int,
        ),
{
    assert(pairs.take(pairs.len() as int) =~= pairs);
    lemma_page_parts(pairs, pairs.len(), schema.page, i);
    lemma_written(pairs[i].1, u64::MAX as nat);
}

/// The last page number of a request counts: under either of its keys, the page is
/// a numbered page, from one on, with exactly the number that the value writes.
pub proof fn the_last_page_number_counts(
    pairs: Seq<(Seq<char>, Seq<char>)>,
    i: int,
    schema: SchemaView,
)
    requires
        parsed_query(pairs, schema) is Ok,
        is_last_with(pairs, i, "page[number]"@, "page"@),
    ensures
        parsed_query(pairs, schema)->Ok_0.page matches PageView::Page { size, number } && number > 0
            && writes(pairs[i].1, number as int),
{
    assert(pairs.take(pairs.len() as int) =~= pairs);
    lemma_page_parts(pairs, pairs.len(), schema.page, i);
    lemma_written(pairs[i].1, u32::MAX as nat);
}

/// The last page size of a request counts, under either of its keys, and lies
/// between one and the maximum of the surface. Without one the size is the default.
pub proof fn the_last_page_size_counts(
    pairs: Seq<(Seq<char>, Seq<char>)>,
    i: int,
    schema: SchemaView,
)
    requires
        parsed_query(pairs, schema) is Ok,
    ensures
        ({
            let size = parsed_query(pairs, schema)->Ok_0.page.size();
            &&& is_last_with(pairs, i, "page[size]"@, "limit"@) ==> writes(pairs[i].1, size as int)
                && 0 < size <= schema.page.max_size
            &&& none_with(pairs, "page[size]"@, "limit"@) ==> size == schema.page.default_size
        }),
{
    assert(pairs.take(pairs.len() as int) =~= pairs);
    lemma_page_parts(pairs, pairs.len(), schema.page, i);
    lemma_written(pairs[i].1, u32::MAX as nat);
}

/// A text with something to see in it.
pub open spec fn is_visible(text: Seq<char>) -> bool {
    exists|i: int| 0 <= i < text.len() && '!' <= #[trigger] text[i] <= '~'
}

/// A text of nothing but spaces.
pub open spec fn is_spaces(text: Seq<char>) -> bool {
    forall|i: int| 0 <= i < text.len() ==> #[trigger] text[i] == ' '
}

proof fn lemma_cursor_part(
    pairs: Seq<(Seq<char>, Seq<char>)>,
    n: nat,
    config: PaginationConfig,
    i: int,
)
    requires
        n <= pairs.len(),
        parts_of(pairs, n, config) is Ok,
    ensures
        ({
            let seen = pairs.take(n as int);
            let parts = parts_of(pairs, n, config)->Ok_0;
            &&& is_last_with(seen, i, "page[cursor]"@, "cursor"@) && is_visible(seen[i].1)
                ==> parts.cursor == Some(seen[i].1)
            &&& (forall|j: int|
                0 <= j < n && has_key(#[trigger] seen[j], "page[cursor]"@, "cursor"@) ==> is_spaces(
                    seen[j].1,
                )) ==> parts.cursor is None
        }),
    decreases n,
{
    if n > 0 {
        lemma_keys_differ();
        lemma_cursor_part(pairs, (n - 1) as nat, config, i);
        let a = "page[cursor]"@;
        let b = "cursor"@;
        let seen = pairs.take(n as int);
        let fewer = pairs.take(n - 1);
        let value = seen[n - 1].1;
        assert(forall|j: int| 0 <= j < n - 1 ==> #[trigger] fewer[j] == seen[j]);
        assert(seen[n - 1] == pairs[n - 1]);
        if is_visible(value) {
            let k = choose|k: int| 0 <= k < value.len() && '!' <= #[trigger] value[k] <= '~';
            assert(!is_white(value[k]));
        }
        if is_spaces(value) {
            assert forall|k: int| 0 <= k < value.len() implies is_white(#[trigger] value[k]) by {
                assert(value[k] == ' ');
            }
        }
        if i != n - 1 && is_last_with(seen, i, a, b) {
            assert(!has_key(seen[n - 1], a, b));
            assert forall|j: int| i < j < fewer.len() implies !has_key(#[trigger] fewer[j], a, b) by {
                assert(!has_key(seen[j], a, b));
            }
        }
        if forall|j: int| 0 <= j < n && has_key(#[trigger] seen[j], a, b) ==> is_spaces(seen[j].1) {
            assert forall|j: int| 0 <= j < n - 1 && has_key(#[trigger] fewer[j], a, b) implies is_spaces(
                fewer[j].1,
            ) by {
                assert(has_key(seen[j], a, b));
            }
            if has_key(seen[n - 1], a, b) {
                assert(is_spaces(value));
            }
        }
    }
}

/// The last cursor of a request counts: under either of its keys, a cursor with
/// something to see in it makes the page a cursor page with that very cursor.
pub proof fn the_last_cursor_counts(
    pairs: Seq<(Seq<char>, Seq<char>)>,
    i: int,
    schema: SchemaView,
)
    requires
        parsed_query(pairs, schema) is Ok,
        is_last_with(pairs, i, "page[cursor]"@, "cursor"@),
        is_visible(pairs[i].1),
    ensures
        parsed_query(pairs, schema)->Ok_0.page matches PageView::Cursor { size, cursor } && cursor
            == Some(pairs[i].1),
{
    assert(pairs.take(pairs.len() as int) =~= pairs);
    lemma_cursor_part(pairs, pairs.len(), schema.page, i);
}

/// A request that asks for no page, or only for empty cursors, gets the start in the
/// default mode of the surface.
pub proof fn requests_start_in_the_default_mode(
    pairs: Seq<(Seq<char>, Seq<char>)>,
    schema: SchemaView,
)
    requires
        parsed_query(pairs, schema) is Ok,
        none_with(pairs, "page[offset]"@, "offset"@),
        none_with(pairs, "page[number]"@, "page"@),
        forall|j: int|
            0 <= j < pairs.len() && has_key(#[trigger] pairs[j], "page[cursor]"@, "cursor"@)
                ==> is_spaces(pairs[j].1),
    ensures
        match parsed_query(pairs, schema)->Ok_0.page {
            PageView::Cursor { size, cursor } => schema.page.default_mode == PaginationMode::Cursor
                && cursor is None,
            PageView::Page { size, number } => schema.page.default_mode == PaginationMode::Page
                && number == 1,
            PageView::Offset { size, offset } => schema.page.default_mode == PaginationMode::Offset
                && offset == 0,
        },
{
    assert(pairs.take(pairs.len() as int) =~= pairs);
    lemma_page_parts(pairs, pairs.len(), schema.page, 0);
    lemma_cursor_part(pairs, pairs.len(), schema.page, 0);
}

/// The documented names of each operator.
pub open spec fn is_name_of(name: Seq<char>, operator: FilterOperator) -> bool {
    match operator {
        FilterOperator::Eq => name == "eq"@,
        FilterOperator::Ne => name == "ne"@,
        FilterOperator::Gt => name == "gt"@,
        FilterOperator::Gte => name == "gte"@,
        FilterOperator::Lt => name == "lt"@,
        FilterOperator::Lte => name == "lte"@,
        FilterOperator::Like => name == "like"@,
        FilterOperator::Ilike => name == "ilike"@,
        FilterOperator::Contains => name == "contains"@,
        FilterOperator::StartsWith => name == "starts_with"@ || name == "startswith"@ || name
            == "startsWith"@,
        FilterOperator::EndsWith => name == "ends_with"@ || name == "endswith"@ || name
            == "endsWith"@,
        FilterOperator::In => name == "in"@,
        FilterOperator::NotIn => name == "not_in"@ || name == "notIn"@ || name == "nin"@,
    }
}

/// A name stands for an operator exactly if it is one of the operator's documented
/// names; no name stands for two.
pub proof fn operators_go_by_their_names(name: Seq<char>, operator: FilterOperator)
    ensures
        operator_named(name) == Some(operator) <==> is_name_of(name, operator),
{
    reveal_strlit("eq");
    reveal_strlit("ne");
    reveal_strlit("gt");
    reveal_strlit("gte");
    reveal_strlit("lt");
    reveal_strlit("lte");
    reveal_strlit("like");
    reveal_strlit("ilike");
    reveal_strlit("contains");
    reveal_strlit("starts_with");
    reveal_strlit("startswith");
    reveal_strlit("startsWith");
    reveal_strlit("ends_with");
    reveal_strlit("endswith");
    reveal_strlit("endsWith");
    reveal_strlit("in");
    reveal_strlit("not_in");
    reveal_strlit("notIn");
    reveal_strlit("nin");
    assert("eq"@.len() == 2);
    assert("ne"@.len() == 2);
    assert("gt"@.len() == 2);
    assert("lt"@.len() == 2);
    assert("in"@.len() == 2);
    assert("gte"@.len() == 3);
    assert("lte"@.len() == 3);
    assert("nin"@.len() == 3);
    assert("like"@.len() == 4);
    assert("ilike"@.len() == 5);
    assert("notIn"@.len() == 5);
    assert("not_in"@.len() == 6);
    assert("contains"@.len() == 8);
    assert("endswith"@.len() == 8);
    assert("endsWith"@.len() == 8);
    assert("ends_with"@.len() == 9);
    assert("startswith"@.len() == 10);
    assert("startsWith"@.len() == 10);
    assert("starts_with"@.len() == 11);
    assert("eq"@[0] == 'e' && "ne"@[0] == 'n' && "gt"@[0] == 'g' && "lt"@[0] == 'l' && "in"@[0]
        == 'i');
    assert("gte"@[0] == 'g' && "lte"@[0] == 'l' && "nin"@[0] == 'n');
    assert("like"@[0] == 'l');
    assert("ilike"@[0] == 'i' && "notIn"@[0] == 'n');
    assert("ends_with"@[0] == 'e' && "endswith"@[0] == 'e' && "endsWith"@[0] == 'e');
    assert("endswith"@[4] == 'w' && "endsWith"@[4] == 'W' && "contains"@[0] == 'c');
    assert("startswith"@[6] == 'w' && "startsWith"@[6] == 'W');
}

/// A scalar says what its text says: one of the three words, a number as it is
/// written, or the text itself. A row of digits is a number.
pub open spec fn scalar_says(text: Seq<char>, scalar: ScalarView) -> bool {
    match scalar {
        ScalarView::Bool(b) => text == (if b {
            "true"@
        } else {
            "false"@
        }),
        ScalarView::Null => text == "null"@,
        ScalarView::Number(written) => written == text && !(text == "true"@) && !(text == "false"@)
            && !(text == "null"@),
        ScalarView::String(same) => same == text && !(text == "true"@) && !(text == "false"@)
            && !(text == "null"@) && !(exists|n: int| writes(text, n)),
    }
}

proof fn lemma_scalar_says(text: Seq<char>)
    ensures
        scalar_says(text, scalar_of(text)),
{
    if scalar_of(text) is String {
        assert forall|n: int| !writes(text, n) by {
            if writes(text, n) {
                lemma_digit_row_is_number(text);
            }
        }
    }
}

proof fn lemma_digits_run(s: Seq<char>, from: int)
    requires
        all_digits(s),
        0 <= from <= s.len(),
    ensures
        digits_end(s, from) == s.len(),
    decreases s.len() - from,
{
    if from < s.len() {
        assert(is_digit(s[from]));
        lemma_digits_run(s, from + 1);
    }
}

pub(crate) proof fn lemma_digit_row_is_number(text: Seq<char>)
    requires
        exists|n: int| writes(text, n),
    ensures
        is_number(text),
{
    let n = choose|n: int| writes(text, n);
    let row = behind_plus(text);
    assert forall|i: int| 0 <= i < row.len() implies is_digit(#[trigger] row[i]) by {}
    assert(all_digits(row));
    assert(row[0] != '-' && row[0] != '+');
    assert(unsigned(text) =~= row) by {
        assert(text.skip(1) =~= text.drop_first());
    }
    lemma_digits_run(row, 0);
    assert(is_decimal(row));
}

/// A list says what its text says: one scalar for each piece between commas.
pub open spec fn list_says(text: Seq<char>, scalars: Seq<ScalarView>) -> bool {
    exists|pieces: Seq<Seq<char>>| #[trigger] is_list_of(text, pieces, scalars)
}

/// The text is the pieces, with commas between them and none in them, and each
/// scalar says what its piece says.
pub open spec fn is_list_of(
    text: Seq<char>,
    pieces: Seq<Seq<char>>,
    scalars: Seq<ScalarView>,
) -> bool {
    &&& scalars.len() == pieces.len()
    &&& comma_text(pieces) == text
    &&& forall|k: int| 0 <= k < pieces.len() ==> !(#[trigger] pieces[k]).contains(',')
    &&& forall|k: int| 0 <= k < pieces.len() ==> scalar_says(pieces[k], #[trigger] scalars[k])
}

/// The pieces with a comma between each two.
pub open spec fn comma_text(pieces: Seq<Seq<char>>) -> Seq<char>
    decreases pieces.len(),
{
    if pieces.len() == 0 {
        Seq::empty()
    } else if pieces.len() == 1 {
        pieces[0]
    } else {
        comma_text(pieces.drop_last()) + seq![','] + pieces.last()
    }
}

proof fn lemma_split_pieces(s: Seq<char>)
    ensures
        split_on(s, ',').len() > 0,
        comma_text(split_on(s, ',')) == s,
        forall|k: int|
            0 <= k < split_on(s, ',').len() ==> !(#[trigger] split_on(s, ',')[k]).contains(','),
    decreases s.len(),
{
    let pieces = split_on(s, ',');
    if s.len() == 0 {
        assert(pieces =~= seq![Seq::<char>::empty()]);
        assert(comma_text(pieces) =~= s);
    } else {
        let before = split_on(s.drop_last(), ',');
        lemma_split_pieces(s.drop_last());
        assert(s =~= s.drop_last().push(s.last()));
        if s.last() == ',' {
            assert(pieces.drop_last() =~= before);
            assert(comma_text(pieces) =~= s);
        } else {
            let grown = before.last().push(s.last());
            assert(pieces == before.drop_last().push(grown));
            assert forall|k: int| 0 <= k < pieces.len() implies !(#[trigger] pieces[k]).contains(
                ',',
            ) by {
                if k < pieces.len() - 1 {
                    assert(pieces[k] == before[k]);
                } else {
                    assert(!before[k].contains(','));
                    assert forall|c: int| 0 <= c < grown.len() implies grown[c] != ',' by {
                        if c < before.last().len() {
                            assert(before.last()[c] == grown[c]);
                        }
                    }
                }
            }
            assert(pieces.drop_last() =~= before.drop_last());
            assert(comma_text(pieces) =~= s);
        }
    }
}

/// The value of a condition says what its text says.
pub open spec fn value_says(text: Seq<char>, operator: FilterOperator, value: ValueView) -> bool {
    match value {
        ValueView::List(scalars) => (operator == FilterOperator::In || operator
            == FilterOperator::NotIn) && list_says(text, scalars),
        ValueView::Scalar(scalar) => operator != FilterOperator::In && operator
            != FilterOperator::NotIn && scalar_says(text, scalar),
    }
}

proof fn lemma_value_says(text: Seq<char>, operator: FilterOperator)
    ensures
        value_says(text, operator, value_of(text, operator)),
{
    let pieces = split_on(text, ',');
    let scalars = pieces.map_values(|piece: Seq<char>| scalar_of(piece));
    lemma_split_pieces(text);
    lemma_scalar_says(text);
    assert forall|k: int| 0 <= k < pieces.len() implies scalar_says(
        pieces[k],
        #[trigger] scalars[k],
    ) by {
        lemma_scalar_says(pieces[k]);
    }
    assert(is_list_of(text, pieces, scalars));
}

/// The pair is a filter.
pub open spec fn is_filter(pair: (Seq<char>, Seq<char>)) -> bool {
    pair.0.len() >= 6 && pair.0.take(6) == "filter"@
}

/// How many of the first `n` pairs are filters.
pub open spec fn filters_before(pairs: Seq<(Seq<char>, Seq<char>)>, n: int) -> nat
    decreases n,
{
    if n <= 0 {
        0
    } else {
        filters_before(pairs, n - 1) + (if is_filter(pairs[n - 1]) {
            1nat
        } else {
            0
        })
    }
}

/// A text that can stand in brackets.
pub open spec fn is_bracketable(text: Seq<char>) -> bool {
    text.len() > 0 && !text.contains(']')
}

/// The key of a filter for equality on a field.
pub open spec fn equality_key(field: Seq<char>) -> Seq<char> {
    "filter["@ + field + "]"@
}

/// The key of a filter on a field with a named operator.
pub open spec fn operator_key(field: Seq<char>, name: Seq<char>) -> Seq<char> {
    "filter["@ + field + "]["@ + name + "]"@
}

/// The condition says what the pair says: its key names the field and the operator,
/// or the field alone for equality, and its value the value.
pub open spec fn condition_says(pair: (Seq<char>, Seq<char>), tree: FilterTree) -> bool {
    tree matches FilterTree::Condition { field, operator, value } && is_bracketable(field)
        && value_says(pair.1, operator, value) && ({
        ||| pair.0 == equality_key(field) && operator == FilterOperator::Eq
        ||| exists|name: Seq<char>|
            is_bracketable(name) && is_name_of(name, operator) && pair.0 == #[trigger] operator_key(
                field,
                name,
            )
    })
}

proof fn lemma_one_bracket(s: Seq<char>)
    requires
        brackets(s) is Some,
        s.len() > 0,
    ensures
        ({
            let part = brackets(s)->0[0];
            let close = (part.len() + 1) as int;
            &&& brackets(s)->0.len() > 0
            &&& !part.contains(']')
            &&& close < s.len()
            &&& s == seq!['['] + part + seq![']'] + s.skip(close + 1)
            &&& brackets(s.skip(close + 1)) == Some(brackets(s)->0.drop_first())
        }),
{
    let close = first_at(s, 1, seq![']']);
    lemma_first_at(s, 1, seq![']']);
    let part = s.subrange(1, close);
    let rest = brackets(s.skip(close + 1))->0;
    assert(brackets(s)->0 =~= seq![part] + rest);
    assert(brackets(s)->0.drop_first() =~= rest);
    assert forall|k: int| 0 <= k < part.len() implies part[k] != ']' by {
        assert(!stands_at(s, k + 1, seq![']']));
        if s[k + 1] == ']' {
            assert(s.subrange(k + 1, k + 2) =~= seq![']']);
        }
    }
    assert(s.subrange(close, close + 1)[0] == ']');
    assert(s =~= seq!['['] + part + seq![']'] + s.skip(close + 1));
}

proof fn lemma_filter_key(pair: (Seq<char>, Seq<char>))
    requires
        filter_key(pair.0) is Ok,
    ensures
        ({
            let (field, operator) = filter_key(pair.0)->Ok_0;
            condition_says(
                pair,
                FilterTree::Condition { field, operator, value: value_of(pair.1, operator) },
            )
        }),
{
    let key = pair.0;
    let (field, operator) = filter_key(key)->Ok_0;
    reveal_strlit("filter");
    reveal_strlit("filter[");
    reveal_strlit("]");
    reveal_strlit("][");
    let rest = key.skip(6);
    let parts = filter_brackets(key)->0;
    lemma_value_says(pair.1, operator);
    assert(key.subrange(0, 6) == "filter"@);
    assert(key =~= "filter"@ + rest);
    lemma_one_bracket(rest);
    let tail = rest.skip((parts[0].len() + 2) as int);
    if parts.len() == 1 {
        assert(tail.len() == 0) by {
            if tail.len() > 0 {
                lemma_one_bracket(tail);
            }
        }
        assert(key =~= equality_key(field));
    } else {
        assert(tail.len() > 0);
        lemma_one_bracket(tail);
        let name = parts.drop_first()[0];
        assert(name == parts[1]);
        let last = tail.skip((name.len() + 2) as int);
        assert(last.len() == 0) by {
            if last.len() > 0 {
                lemma_one_bracket(last);
            }
        }
        operators_go_by_their_names(name, operator);
        assert(key =~= operator_key(field, name));
    }
}

proof fn lemma_filters_parse(
    pairs: Seq<(Seq<char>, Seq<char>)>,
    n: nat,
    config: PaginationConfig,
)
    requires
        n <= pairs.len(),
        parts_of(pairs, n, config) is Ok,
    ensures
        ({
            let filters = parts_of(pairs, n, config)->Ok_0.filters;
            &&& filters.len() == filters_before(pairs, n as int)
            &&& forall|i: int|
                0 <= i < n && #[trigger] is_filter(pairs[i]) ==> filters_before(pairs, i)
                    < filters.len() && condition_says(pairs[i], filters[filters_before(pairs, i) as int])
        }),
    decreases n,
{
    if n > 0 {
        lemma_keys_differ();
        lemma_filters_parse(pairs, (n - 1) as nat, config);
        let pair = pairs[n - 1];
        if is_filter(pair) {
            assert(pair.0.take(6)[0] == pair.0[0]);
            assert(pair.0.subrange(0, 6) =~= pair.0.take(6));
            lemma_filter_key(pair);
        } else if pair.0.len() >= 6 {
            assert(pair.0.subrange(0, 6) =~= pair.0.take(6));
        }
        let before = parts_of(pairs, (n - 1) as nat, config)->Ok_0.filters;
        let filters = parts_of(pairs, n, config)->Ok_0.filters;
        assert forall|i: int| 0 <= i < n && #[trigger] is_filter(pairs[i]) implies filters_before(
            pairs,
            i,
        ) < filters.len() && condition_says(pairs[i], filters[filters_before(pairs, i) as int]) by {
            if i < n - 1 {
                assert(filters[filters_before(pairs, i) as int] == before[filters_before(
                    pairs,
                    i,
                ) as int]);
            }
        }
    }
}

/// Each filter pair of a request is one condition of the query, in order, under one
/// conjunction: it says of the field, the operator and the value what the pair says.
/// There are no other conditions.
pub proof fn every_filter_pair_is_a_condition(
    pairs: Seq<(Seq<char>, Seq<char>)>,
    schema: SchemaView,
)
    requires
        parsed_query(pairs, schema) is Ok,
    ensures
        parsed_query(pairs, schema)->Ok_0.filter matches FilterTree::Group { operator, conditions }
            && operator == BoolOperator::And && conditions.len() == filters_before(
            pairs,
            pairs.len() as int,
        ) && (forall|i: int|
            0 <= i < pairs.len() && #[trigger] is_filter(pairs[i]) ==> filters_before(pairs, i)
                < conditions.len() && condition_says(
                pairs[i],
                conditions[filters_before(pairs, i) as int],
            )),
{
    lemma_filters_parse(pairs, pairs.len(), schema.page);
}

proof fn lemma_first_close(head: Seq<char>, rest: Seq<char>, k: int)
    requires
        !head.contains(']'),
        1 <= k <= head.len() + 1,
    ensures
        first_at(seq!['['] + head + seq![']'] + rest, k, seq![']']) == head.len() + 1,
    decreases head.len() + 1 - k,
{
    let s = seq!['['] + head + seq![']'] + rest;
    let close = seq![']'];
    if k <= head.len() {
        assert(s[k] == head[k - 1]);
        assert(head.contains(head[k - 1]));
        if stands_at(s, k, close) {
            assert(s.subrange(k, k + 1)[0] == s[k]);
        }
        lemma_first_close(head, rest, k + 1);
    } else {
        assert(s.subrange(k, k + 1) =~= close);
    }
}

proof fn lemma_brackets_of(head: Seq<char>, rest: Seq<char>)
    requires
        !head.contains(']'),
        brackets(rest) is Some,
    ensures
        brackets(seq!['['] + head + seq![']'] + rest) == Some(seq![head] + brackets(rest)->0),
{
    let s = seq!['['] + head + seq![']'] + rest;
    lemma_first_close(head, rest, 1);
    assert(s.subrange(1, (head.len() + 1) as int) =~= head);
    assert(s.skip((head.len() + 2) as int) =~= rest);
}

/// A key that names a field in brackets, alone or with the name of an operator, is
/// read as that field and operator.
pub proof fn filter_keys_are_read_as_written(
    field: Seq<char>,
    name: Seq<char>,
    operator: FilterOperator,
)
    requires
        is_bracketable(field),
        is_name_of(name, operator),
    ensures
        filter_key(equality_key(field)) == Ok::<(Seq<char>, FilterOperator), QueryErrorView>(
            (field, FilterOperator::Eq),
        ),
        filter_key(operator_key(field, name)) == Ok::<(Seq<char>, FilterOperator), QueryErrorView>(
            (field, operator),
        ),
{
    reveal_strlit("filter");
    reveal_strlit("filter[");
    reveal_strlit("]");
    reveal_strlit("][");
    operators_go_by_their_names(name, operator);
    lemma_names_are_bracketable(name, operator);
    let none = Seq::<char>::empty();
    assert(brackets(none) == Some(Seq::<Seq<char>>::empty()));
    let key = equality_key(field);
    let one = seq!['['] + field + seq![']'] + none;
    lemma_brackets_of(field, none);
    assert(key.skip(6) =~= one);
    assert(key.subrange(0, 6) =~= "filter"@);
    assert(seq![field] + Seq::<Seq<char>>::empty() =~= seq![field]);
    let key = operator_key(field, name);
    let last = seq!['['] + name + seq![']'] + none;
    let two = seq!['['] + field + seq![']'] + last;
    lemma_brackets_of(name, none);
    lemma_brackets_of(field, last);
    assert(key.skip(6) =~= two);
    assert(key.subrange(0, 6) =~= "filter"@);
    assert(seq![name] + Seq::<Seq<char>>::empty() =~= seq![name]);
    assert(seq![field] + seq![name] =~= seq![field, name]);
}

proof fn lemma_names_are_bracketable(name: Seq<char>, operator: FilterOperator)
    requires
        is_name_of(name, operator),
    ensures
        is_bracketable(name),
{
    reveal_strlit("eq");
    reveal_strlit("ne");
    reveal_strlit("gt");
    reveal_strlit("gte");
    reveal_strlit("lt");
    reveal_strlit("lte");
    reveal_strlit("like");
    reveal_strlit("ilike");
    reveal_strlit("contains");
    reveal_strlit("starts_with");
    reveal_strlit("startswith");
    reveal_strlit("startsWith");
    reveal_strlit("ends_with");
    reveal_strlit("endswith");
    reveal_strlit("endsWith");
    reveal_strlit("in");
    reveal_strlit("not_in");
    reveal_strlit("notIn");
    reveal_strlit("nin");
}

/// A piece of a sort: visible at both ends, without a comma, and more than a sign.
pub open spec fn is_sort_piece(piece: Seq<char>) -> bool {
    &&& piece.len() > 0
    &&& '!' <= piece[0] <= '~'
    &&& '!' <= piece[piece.len() - 1] <= '~'
    &&& !piece.contains(',')
    &&& piece != seq!['-']
}

/// A piece behind a minus sign sorts downwards by what stands behind the sign, any
/// other piece upwards by itself.
pub open spec fn clause_says(piece: Seq<char>, clause: SortView) -> bool {
    if piece[0] == '-' {
        clause.direction == SortDirection::Desc && piece == seq!['-'] + clause.field
    } else {
        clause.direction == SortDirection::Asc && piece == clause.field
    }
}

/// The clauses say what the pieces say, in order.
pub open spec fn clauses_say(pieces: Seq<Seq<char>>, clauses: Seq<SortView>) -> bool {
    &&& clauses.len() == pieces.len()
    &&& forall|k: int| 0 <= k < pieces.len() ==> clause_says(pieces[k], #[trigger] clauses[k])
}

proof fn lemma_split_behind(before: Seq<char>, piece: Seq<char>)
    requires
        !piece.contains(','),
    ensures
        split_on(before + seq![','] + piece, ',') == split_on(before, ',').push(piece),
        split_on(piece, ',') == seq![piece],
    decreases piece.len(),
{
    let s = before + seq![','] + piece;
    if piece.len() == 0 {
        assert(piece =~= Seq::empty());
        assert(s.drop_last() =~= before);
        assert(split_on(s, ',') =~= split_on(before, ',').push(piece));
        assert(split_on(piece, ',') =~= seq![piece]);
    } else {
        let shorter = piece.drop_last();
        assert forall|k: int| 0 <= k < shorter.len() implies shorter[k] != ',' by {
            assert(piece.contains(piece[k]));
        }
        assert(piece.contains(piece.last()));
        lemma_split_behind(before, shorter);
        assert(s.drop_last() =~= before + seq![','] + shorter);
        assert(shorter.push(piece.last()) =~= piece);
        assert(split_on(s, ',') =~= split_on(before, ',').push(piece));
        assert(split_on(piece, ',') =~= seq![piece]);
    }
}

proof fn lemma_split_comma_text(pieces: Seq<Seq<char>>)
    requires
        pieces.len() > 0,
        forall|k: int| 0 <= k < pieces.len() ==> !(#[trigger] pieces[k]).contains(','),
    ensures
        split_on(comma_text(pieces), ',') == pieces,
    decreases pieces.len(),
{
    let last = pieces.last();
    assert(!pieces[pieces.len() - 1].contains(','));
    if pieces.len() == 1 {
        lemma_split_behind(Seq::empty(), last);
        assert(seq![last] =~= pieces);
    } else {
        let fewer = pieces.drop_last();
        assert forall|k: int| 0 <= k < fewer.len() implies !(#[trigger] fewer[k]).contains(',') by {
            assert(fewer[k] == pieces[k]);
        }
        lemma_split_comma_text(fewer);
        lemma_split_behind(comma_text(fewer), last);
        assert(fewer.push(last) =~= pieces);
    }
}

proof fn lemma_sort_pieces(pieces: Seq<Seq<char>>, n: nat)
    requires
        n <= pieces.len(),
        forall|k: int| 0 <= k < pieces.len() ==> is_sort_piece(#[trigger] pieces[k]),
    ensures
        sort_pieces(pieces, n) is Ok,
        clauses_say(pieces.take(n as int), sort_pieces(pieces, n)->Ok_0),
    decreases n,
{
    if n > 0 {
        lemma_sort_pieces(pieces, (n - 1) as nat);
        let piece = pieces[n - 1];
        assert(is_sort_piece(piece));
        assert(!is_white(piece[0]) && !is_white(piece[piece.len() - 1]));
        assert(trimmed(piece) == piece);
        if piece[0] == '-' {
            if piece.len() == 1 {
                assert(piece =~= seq!['-']);
            }
            assert(piece =~= seq!['-'] + piece.skip(1));
        }
        let before = sort_pieces(pieces, (n - 1) as nat)->Ok_0;
        let clauses = sort_pieces(pieces, n)->Ok_0;
        assert(clauses =~= before + sort_piece(piece)->Ok_0);
        assert forall|k: int| 0 <= k < n implies clause_says(
            pieces.take(n as int)[k],
            #[trigger] clauses[k],
        ) by {
            if k < n - 1 {
                assert(clauses[k] == before[k]);
                assert(pieces.take(n - 1)[k] == pieces.take(n as int)[k]);
            }
        }
    }
}

/// A sort value says its pieces, in order: behind a minus sign downwards, otherwise
/// upwards.
pub proof fn sorts_say_their_pieces(pieces: Seq<Seq<char>>)
    requires
        pieces.len() > 0,
        forall|k: int| 0 <= k < pieces.len() ==> is_sort_piece(#[trigger] pieces[k]),
    ensures
        sort_value(comma_text(pieces)) is Ok,
        clauses_say(pieces, sort_value(comma_text(pieces))->Ok_0),
{
    assert forall|k: int| 0 <= k < pieces.len() implies !(#[trigger] pieces[k]).contains(',') by {
        assert(is_sort_piece(pieces[k]));
    }
    lemma_split_comma_text(pieces);
    lemma_sort_pieces(pieces, pieces.len());
    assert(pieces.take(pieces.len() as int) =~= pieces);
}

proof fn lemma_sort_part(
    pairs: Seq<(Seq<char>, Seq<char>)>,
    n: nat,
    config: PaginationConfig,
    i: int,
)
    requires
        n <= pairs.len(),
        parts_of(pairs, n, config) is Ok,
        forall|j: int| 0 <= j < pairs.len() && j != i ==> (#[trigger] pairs[j]).0 != "sort"@,
        0 <= i < pairs.len() ==> pairs[i].0 == "sort"@,
    ensures
        ({
            let parts = parts_of(pairs, n, config)->Ok_0;
            if 0 <= i < n {
                sort_value(pairs[i].1) is Ok && parts.sort == sort_value(pairs[i].1)->Ok_0
            } else {
                parts.sort == Seq::<SortView>::empty()
            }
        }),
    decreases n,
{
    if n > 0 {
        lemma_keys_differ();
        lemma_sort_part(pairs, (n - 1) as nat, config, i);
        if i == n - 1 {
            let clauses = sort_value(pairs[i].1)->Ok_0;
            assert(Seq::<SortView>::empty() + clauses =~= clauses);
        } else {
            assert(pairs[n - 1].0 != "sort"@);
        }
    }
}

/// The query is sorted as the one sort of the request says; without a sort, as the
/// surface sorts by default.
pub proof fn queries_sort_as_asked(
    pairs: Seq<(Seq<char>, Seq<char>)>,
    i: int,
    pieces: Seq<Seq<char>>,
    schema: SchemaView,
)
    requires
        parsed_query(pairs, schema) is Ok,
        forall|j: int| 0 <= j < pairs.len() && j != i ==> (#[trigger] pairs[j]).0 != "sort"@,
        pieces.len() > 0,
        forall|k: int| 0 <= k < pieces.len() ==> is_sort_piece(#[trigger] pieces[k]),
        0 <= i < pairs.len() ==> pairs[i] == ("sort"@, comma_text(pieces)),
    ensures
        0 <= i < pairs.len() ==> clauses_say(pieces, parsed_query(pairs, schema)->Ok_0.sort),
        !(0 <= i < pairs.len()) ==> parsed_query(pairs, schema)->Ok_0.sort == schema.default_sort,
{
    lemma_sort_part(pairs, pairs.len(), schema.page, i);
    sorts_say_their_pieces(pieces);
}

/// The key is one of those that a request can have.
pub open spec fn is_known_key(key: Seq<char>) -> bool {
    ||| key == "sort"@
    ||| key == "page[size]"@ || key == "limit"@
    ||| key == "page[cursor]"@ || key == "cursor"@
    ||| key == "page[number]"@ || key == "page"@
    ||| key == "page[offset]"@ || key == "offset"@
    ||| key.len() >= 6 && key.take(6) == "filter"@
}

proof fn lemma_skipped_pair(
    pairs: Seq<(Seq<char>, Seq<char>)>,
    i: int,
    n: nat,
    config: PaginationConfig,
)
    requires
        0 <= i < pairs.len(),
        n <= pairs.len(),
        !is_known_key(pairs[i].0),
    ensures
        parts_of(pairs, n, config) == parts_of(
            pairs.remove(i),
            (if n > i {
                n - 1
            } else {
                n as int
            }) as nat,
            config,
        ),
    decreases n,
{
    let fewer = pairs.remove(i);
    if n > 0 {
        lemma_skipped_pair(pairs, i, (n - 1) as nat, config);
        if n - 1 == i {
            let key = pairs[i].0;
            if key.len() >= 6 {
                assert(key.subrange(0, 6) =~= key.take(6));
            }
            lemma_keys_differ();
        } else if n - 1 > i {
            assert(fewer[n - 2] == pairs[n - 1]);
        } else {
            assert(fewer[n - 1] == pairs[n - 1]);
        }
    }
}

/// A key that no request has is no part of the query: without the pair the request
/// gives the same query or the same error.
pub proof fn unknown_keys_are_ignored(
    pairs: Seq<(Seq<char>, Seq<char>)>,
    i: int,
    schema: SchemaView,
)
    requires
        0 <= i < pairs.len(),
        !is_known_key(pairs[i].0),
    ensures
        parsed_query(pairs, schema) == parsed_query(pairs.remove(i), schema),
{
    lemma_skipped_pair(pairs, i, pairs.len(), schema.page);
}

/// The pair is well formed: its value is what its key takes.
pub open spec fn is_well_formed(pair: (Seq<char>, Seq<char>), config: PaginationConfig) -> bool {
    let (key, value) = pair;
    ||| !is_known_key(key)
    ||| key == "sort"@ && exists|pieces: Seq<Seq<char>>|
        pieces.len() > 0 && value == #[trigger] comma_text(pieces) && (forall|k: int|
            0 <= k < pieces.len() ==> is_sort_piece(#[trigger] pieces[k]))
    ||| has_key(pair, "page[size]"@, "limit"@) && exists|n: int| #[trigger]
        writes(value, n) && 0 < n <= config.max_size
    ||| has_key(pair, "page[cursor]"@, "cursor"@)
    ||| has_key(pair, "page[number]"@, "page"@) && exists|n: int| #[trigger]
        writes(value, n) && 0 < n <= u32::MAX
    ||| has_key(pair, "page[offset]"@, "offset"@) && exists|n: int| #[trigger]
        writes(value, n) && n <= u64::MAX
    ||| exists|field: Seq<char>| is_bracketable(field) && key == #[trigger] equality_key(field)
    ||| exists|field: Seq<char>, name: Seq<char>, operator: FilterOperator|
        is_bracketable(field) && #[trigger] is_name_of(name, operator) && key
            == #[trigger] operator_key(field, name)
}

proof fn lemma_written_is_read(text: Seq<char>, n: int, max: nat)
    requires
        writes(text, n),
        n <= max,
    ensures
        unsigned_value(text, max) == Some(n as nat),
{
    lemma_written(text, max);
}

proof fn lemma_well_formed_pair(
    parts: QueryParts,
    pair: (Seq<char>, Seq<char>),
    config: PaginationConfig,
)
    requires
        is_well_formed(pair, config),
    ensures
        parts.with_pair(pair.0, pair.1, config) is Ok,
{
    lemma_keys_differ();
    let (key, value) = pair;
    reveal_strlit("filter[");
    if !is_known_key(key) {
        if key.len() >= 6 {
            assert(key.subrange(0, 6) =~= key.take(6));
        }
    } else if key == "sort"@ {
        if exists|pieces: Seq<Seq<char>>|
            pieces.len() > 0 && value == #[trigger] comma_text(pieces) && (forall|k: int|
                0 <= k < pieces.len() ==> is_sort_piece(#[trigger] pieces[k])) {
            let pieces = choose|pieces: Seq<Seq<char>>|
                pieces.len() > 0 && value == #[trigger] comma_text(pieces) && (forall|k: int|
                    0 <= k < pieces.len() ==> is_sort_piece(#[trigger] pieces[k]));
            sorts_say_their_pieces(pieces);
        } else {
            lemma_filter_key_starts(key, config, value);
        }
    } else if has_key(pair, "page[size]"@, "limit"@) {
        if exists|n: int| #[trigger] writes(value, n) && 0 < n <= config.max_size {
            let n = choose|n: int| #[trigger] writes(value, n) && 0 < n <= config.max_size;
            lemma_written_is_read(value, n, u32::MAX as nat);
        } else {
            lemma_filter_key_starts(key, config, value);
        }
    } else if has_key(pair, "page[cursor]"@, "cursor"@) {
    } else if has_key(pair, "page[number]"@, "page"@) {
        if exists|n: int| #[trigger] writes(value, n) && 0 < n <= u32::MAX {
            let n = choose|n: int| #[trigger] writes(value, n) && 0 < n <= u32::MAX;
            lemma_written_is_read(value, n, u32::MAX as nat);
        } else {
            lemma_filter_key_starts(key, config, value);
        }
    } else if has_key(pair, "page[offset]"@, "offset"@) {
        if exists|n: int| #[trigger] writes(value, n) && n <= u64::MAX {
            let n = choose|n: int| #[trigger] writes(value, n) && n <= u64::MAX;
            lemma_written_is_read(value, n, u64::MAX as nat);
        } else {
            lemma_filter_key_starts(key, config, value);
        }
    } else {
        if exists|field: Seq<char>| is_bracketable(field) && key == #[trigger] equality_key(field) {
            let field = choose|field: Seq<char>|
                is_bracketable(field) && key == #[trigger] equality_key(field);
            assert(is_name_of("eq"@, FilterOperator::Eq));
            filter_keys_are_read_as_written(field, "eq"@, FilterOperator::Eq);
        } else {
            let (field, name, operator) = choose|
                field: Seq<char>,
                name: Seq<char>,
                operator: FilterOperator,
            |
                is_bracketable(field) && #[trigger] is_name_of(name, operator) && key
                    == #[trigger] operator_key(field, name);
            filter_keys_are_read_as_written(field, name, operator);
        }
    }
}

/// A well-formed pair with one of the two forms of a filter key starts with the
/// word for it.
proof fn lemma_filter_key_starts(key: Seq<char>, config: PaginationConfig, value: Seq<char>)
    requires
        ({
            ||| exists|field: Seq<char>|
                is_bracketable(field) && key == #[trigger] equality_key(field)
            ||| exists|field: Seq<char>, name: Seq<char>, operator: FilterOperator|
                is_bracketable(field) && #[trigger] is_name_of(name, operator) && key
                    == #[trigger] operator_key(field, name)
        }),
    ensures
        key.len() > 6,
        key[0] == 'f',
{
    reveal_strlit("filter[");
}

proof fn lemma_well_formed_parts(
    pairs: Seq<(Seq<char>, Seq<char>)>,
    n: nat,
    config: PaginationConfig,
)
    requires
        n <= pairs.len(),
        forall|i: int| 0 <= i < pairs.len() ==> is_well_formed(#[trigger] pairs[i], config),
    ensures
        parts_of(pairs, n, config) is Ok,
    decreases n,
{
    if n > 0 {
        lemma_well_formed_parts(pairs, (n - 1) as nat, config);
        assert(is_well_formed(pairs[n - 1], config));
        lemma_well_formed_pair(
            parts_of(pairs, (n - 1) as nat, config)->Ok_0,
            pairs[n - 1],
            config,
        );
    }
}

/// A well-formed request that asks for a page in at most one way is refused only for
/// what the surface does not allow.
pub proof fn well_formed_requests_parse(pairs: Seq<(Seq<char>, Seq<char>)>, schema: SchemaView)
    requires
        forall|i: int| 0 <= i < pairs.len() ==> is_well_formed(#[trigger] pairs[i], schema.page),
        ({
            let cursor = none_with(pairs, "page[cursor]"@, "cursor"@);
            let number = none_with(pairs, "page[number]"@, "page"@);
            let offset = none_with(pairs, "page[offset]"@, "offset"@);
            cursor && number || cursor && offset || number && offset
        }),
    ensures
        match parsed_query(pairs, schema) {
            Ok(query) => true,
            Err(fault) => fault is UnsupportedFilterField || fault is OperatorNotAllowed
                || fault is UnsupportedSortField,
        },
{
    lemma_well_formed_parts(pairs, pairs.len(), schema.page);
    lemma_page_parts(pairs, pairs.len(), schema.page, 0);
    if none_with(pairs, "page[cursor]"@, "cursor"@) {
        lemma_cursor_absent(pairs, pairs.len(), schema.page);
    }
    assert(pairs.take(pairs.len() as int) =~= pairs);
    let parts = parts_of(pairs, pairs.len(), schema.page)->Ok_0;
    let query = crate::api_contract::list_query::assembled(parts, schema)->Ok_0;
    lemma_filter_fault_kind(schema, query.filter, query.filter.width());
    lemma_sort_fault_kind(schema, query.sort);
}

proof fn lemma_cursor_absent(
    pairs: Seq<(Seq<char>, Seq<char>)>,
    n: nat,
    config: PaginationConfig,
)
    requires
        n <= pairs.len(),
        parts_of(pairs, n, config) is Ok,
        none_with(pairs, "page[cursor]"@, "cursor"@),
    ensures
        parts_of(pairs, n, config)->Ok_0.cursor is None,
    decreases n,
{
    if n > 0 {
        lemma_cursor_absent(pairs, (n - 1) as nat, config);
        assert(!has_key(pairs[n - 1], "page[cursor]"@, "cursor"@));
    }
}

proof fn lemma_filter_fault_kind(schema: SchemaView, tree: FilterTree, n: nat)
    ensures
        match schema.filter_fault_within(tree, n) {
            None => true,
            Some(fault) => fault is UnsupportedFilterField || fault is OperatorNotAllowed,
        },
    decreases tree, n,
{
    if tree is Group && 0 < n <= tree->Group_conditions.len() {
        lemma_filter_fault_kind(schema, tree, (n - 1) as nat);
        let child = tree->Group_conditions[n - 1];
        lemma_filter_fault_kind(schema, child, child.width());
    }
}

proof fn lemma_sort_fault_kind(schema: SchemaView, sort: Seq<SortView>)
    ensures
        match schema.sort_fault(sort) {
            None => true,
            Some(fault) => fault is UnsupportedSortField,
        },
    decreases sort.len(),
{
    if sort.len() > 0 {
        lemma_sort_fault_kind(schema, sort.drop_first());
    }
}

} // verus!

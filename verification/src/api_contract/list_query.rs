//! Parsing of decoded query pairs into a list query.
use crate::api_contract::numeral::{is_number, Numeral};
use crate::api_contract::page::{
    optional_text, PageView, PaginationConfig, PaginationMode, PaginationRequest,
};
use crate::api_contract::query::{
    scalar_views, sort_views, tree_views, BoolOperator, FilterNode, FilterOperator, FilterScalar,
    FilterTree, FilterValue, ListQuery, ListQueryView, QueryError, QueryErrorView, QuerySchema,
    ScalarView, SchemaView, SortClause, SortDirection, SortView, ValueView,
};
use crate::scan::{chars_stand_at, find_chars, first_at, stands_at};
use crate::text::{
    blank, chars_of, is_blank, parse_unsigned, same_text, slice_text, split, split_on,
    texts, trim, trimmed, unsigned_value,
};
use vstd::prelude::*;

verus! {

/// The operator that a name stands for.
pub open spec fn operator_named(raw: Seq<char>) -> Option<FilterOperator> {
    if raw == "eq"@ {
        Some(FilterOperator::Eq)
    } else if raw == "ne"@ {
        Some(FilterOperator::Ne)
    } else if raw == "gt"@ {
        Some(FilterOperator::Gt)
    } else if raw == "gte"@ {
        Some(FilterOperator::Gte)
    } else if raw == "lt"@ {
        Some(FilterOperator::Lt)
    } else if raw == "lte"@ {
        Some(FilterOperator::Lte)
    } else if raw == "like"@ {
        Some(FilterOperator::Like)
    } else if raw == "ilike"@ {
        Some(FilterOperator::Ilike)
    } else if raw == "contains"@ {
        Some(FilterOperator::Contains)
    } else if raw == "starts_with"@ || raw == "startswith"@ || raw == "startsWith"@ {
        Some(FilterOperator::StartsWith)
    } else if raw == "ends_with"@ || raw == "endswith"@ || raw == "endsWith"@ {
        Some(FilterOperator::EndsWith)
    } else if raw == "in"@ {
        Some(FilterOperator::In)
    } else if raw == "not_in"@ || raw == "notIn"@ || raw == "nin"@ {
        Some(FilterOperator::NotIn)
    } else {
        None
    }
}

impl FilterOperator {
    /// The operator that `raw` names.
    pub fn named(raw: &str) -> (r: Result<FilterOperator, QueryError>)
        ensures
            match r {
                Ok(operator) => operator_named(raw@) == Some(operator),
                Err(error) => operator_named(raw@) is None && error@
                    == QueryErrorView::UnsupportedFilterOperator(raw@),
            },
    {
        if same_text(raw, "eq") {
            Ok(FilterOperator::Eq)
        } else if same_text(raw, "ne") {
            Ok(FilterOperator::Ne)
        } else if same_text(raw, "gt") {
            Ok(FilterOperator::Gt)
        } else if same_text(raw, "gte") {
            Ok(FilterOperator::Gte)
        } else if same_text(raw, "lt") {
            Ok(FilterOperator::Lt)
        } else if same_text(raw, "lte") {
            Ok(FilterOperator::Lte)
        } else if same_text(raw, "like") {
            Ok(FilterOperator::Like)
        } else if same_text(raw, "ilike") {
            Ok(FilterOperator::Ilike)
        } else if same_text(raw, "contains") {
            Ok(FilterOperator::Contains)
        } else if same_text(raw, "starts_with") || same_text(raw, "startswith") || same_text(
            raw,
            "startsWith",
        ) {
            Ok(FilterOperator::StartsWith)
        } else if same_text(raw, "ends_with") || same_text(raw, "endswith") || same_text(
            raw,
            "endsWith",
        ) {
            Ok(FilterOperator::EndsWith)
        } else if same_text(raw, "in") {
            Ok(FilterOperator::In)
        } else if same_text(raw, "not_in") || same_text(raw, "notIn") || same_text(raw, "nin") {
            Ok(FilterOperator::NotIn)
        } else {
            Err(QueryError::UnsupportedFilterOperator(raw.to_owned()))
        }
    }
}

impl std::str::FromStr for FilterOperator {
    type Err = QueryError;

    fn from_str(raw: &str) -> (r: Result<Self, Self::Err>)
        ensures
            match r {
                Ok(operator) => operator_named(raw@) == Some(operator),
                Err(error) => operator_named(raw@) is None && error@
                    == QueryErrorView::UnsupportedFilterOperator(raw@),
            },
    {
        FilterOperator::named(raw)
    }
}

/// What stands in the brackets of `[a][b]...`, if `s` is nothing but such
/// brackets. What a bracket holds ends at the first `]`.
pub open spec fn brackets(s: Seq<char>) -> Option<Seq<Seq<char>>>
    decreases s.len(),
{
    if s.len() == 0 {
        Some(Seq::empty())
    } else {
        let close = first_at(s, 1, seq![']']);
        if s[0] != '[' || close >= s.len() || close < 1 {
            None
        } else {
            match brackets(s.skip(close + 1)) {
                None => None,
                Some(rest) => Some(seq![s.subrange(1, close)] + rest),
            }
        }
    }
}

/// What stands in the brackets of `filter[a][b]...`.
pub open spec fn filter_brackets(key: Seq<char>) -> Option<Seq<Seq<char>>> {
    if !stands_at(key, 0, "filter"@) || key.len() == "filter"@.len() {
        None
    } else {
        brackets(key.skip("filter"@.len() as int))
    }
}

/// The field and operator of a filter key: `filter[field]` means equality.
pub open spec fn filter_key(key: Seq<char>) -> Result<(Seq<char>, FilterOperator), QueryErrorView> {
    match filter_brackets(key) {
        None => Err(QueryErrorView::InvalidFilterKey(key)),
        Some(parts) => if parts.len() == 1 && parts[0].len() > 0 {
            Ok((parts[0], FilterOperator::Eq))
        } else if parts.len() == 2 && parts[0].len() > 0 && parts[1].len() > 0 {
            match operator_named(parts[1]) {
                Some(operator) => Ok((parts[0], operator)),
                None => Err(QueryErrorView::UnsupportedFilterOperator(parts[1])),
            }
        } else {
            Err(QueryErrorView::InvalidFilterKey(key))
        },
    }
}

/// Whether `s` starts with `filter`.
fn starts_with_filter(chars: &Vec<char>) -> (starts: bool)
    ensures
        starts == stands_at(chars@, 0, "filter"@),
        "filter"@.len() == 6,
{
    let prefix = chars_of("filter");
    proof {
        reveal_strlit("filter");
    }
    chars_stand_at(chars, 0, prefix.as_slice())
}

/// What stands in the brackets of a filter key.
fn bracket_parts(key: &str) -> (parts: Option<Vec<String>>)
    ensures
        match parts {
            Some(parts) => filter_brackets(key@) == Some(texts(parts@)),
            None => filter_brackets(key@) is None,
        },
{
    let chars = chars_of(key);
    if !starts_with_filter(&chars) || chars.len() == 6 {
        return None;
    }
    let ghost rest = key@.skip(6);
    let mut parts: Vec<String> = Vec::new();
    let mut i: usize = 6;
    let closing: [char; 1] = [']'];
    assert(closing@ =~= seq![']']);
    assert(match brackets(rest) {
        None => true,
        Some(found) => found =~= texts(parts@) + found,
    });
    while i < chars.len()
        invariant
            6 <= i <= chars@.len(),
            chars@ == key@,
            closing@ == seq![']'],
            rest == key@.skip(6),
            filter_brackets(key@) == brackets(rest),
            brackets(rest) == (match brackets(key@.skip(i as int)) {
                None => None::<Seq<Seq<char>>>,
                Some(found) => Some(texts(parts@) + found),
            }),
        decreases chars@.len() - i,
    {
        let ghost here = key@.skip(i as int);
        if chars[i] != '[' {
            return None;
        }
        let close: usize = find_chars(&chars, i + 1, &closing);
        proof {
            lemma_first_in_suffix(key@, i as int, 1, seq![']']);
            assert(first_at(here, 1, seq![']']) == close - i);
        }
        if close == chars.len() {
            return None;
        }
        let part = slice_text(&chars, i + 1, close);
        let ghost before = texts(parts@);
        proof {
            assert(here.subrange(1, close - i) =~= part@);
            assert(here.skip(close - i + 1) =~= key@.skip(close + 1));
        }
        parts.push(part);
        assert(match brackets(key@.skip(close + 1)) {
            None => true,
            Some(found) => texts(parts@) + found =~= before + (seq![part@] + found),
        });
        i = close + 1;
    }
    assert(key@.skip(i as int).len() == 0);
    assert(texts(parts@) + Seq::<Seq<char>>::empty() =~= texts(parts@));
    Some(parts)
}

/// The first place of a pattern in a suffix is its first place in the whole,
/// counted from the suffix on.
proof fn lemma_first_in_suffix(s: Seq<char>, skipped: int, from: int, pattern: Seq<char>)
    requires
        0 <= skipped <= s.len(),
        0 <= from,
        skipped + from <= s.len(),
    ensures
        first_at(s.skip(skipped), from, pattern) == first_at(s, skipped + from, pattern) - skipped,
    decreases s.len() - skipped - from,
{
    let rest = s.skip(skipped);
    if from < rest.len() {
        if from + pattern.len() <= rest.len() {
            assert(rest.subrange(from, from + pattern.len()) =~= s.subrange(
                skipped + from,
                skipped + from + pattern.len(),
            ));
        }
        if !stands_at(rest, from, pattern) {
            lemma_first_in_suffix(s, skipped, from + 1, pattern);
        }
    }
}

fn parse_filter_key(key: &str) -> (r: Result<(String, FilterOperator), QueryError>)
    ensures
        match r {
            Ok((field, operator)) => filter_key(key@) == Ok::<
                (Seq<char>, FilterOperator),
                QueryErrorView,
            >((field@, operator)),
            Err(error) => filter_key(key@) == Err::<(Seq<char>, FilterOperator), QueryErrorView>(
                error@,
            ),
        },
{
    let mut parts = match bracket_parts(key) {
        Some(parts) => parts,
        None => return Err(QueryError::InvalidFilterKey(key.to_owned())),
    };
    let ghost all = texts(parts@);
    assert(forall|i: int| 0 <= i < all.len() ==> #[trigger] all[i] == parts@[i]@);
    if parts.len() == 1 && !parts[0].as_str().is_empty() {
        Ok((parts.remove(0), FilterOperator::Eq))
    } else if parts.len() == 2 && !parts[0].as_str().is_empty() && !parts[1].as_str().is_empty() {
        match FilterOperator::named(parts[1].as_str()) {
            Ok(operator) => Ok((parts.remove(0), operator)),
            Err(error) => Err(error),
        }
    } else {
        Err(QueryError::InvalidFilterKey(key.to_owned()))
    }
}

/// The scalar that a text stands for: `true`, `false`, `null`, a number, or the
/// text itself.
pub open spec fn scalar_of(value: Seq<char>) -> ScalarView {
    if value == "true"@ {
        ScalarView::Bool(true)
    } else if value == "false"@ {
        ScalarView::Bool(false)
    } else if value == "null"@ {
        ScalarView::Null
    } else if is_number(value) {
        ScalarView::Number(value)
    } else {
        ScalarView::String(value)
    }
}

/// The value of a condition: for set membership a list of scalars, separated by
/// commas, otherwise one scalar.
pub open spec fn value_of(value: Seq<char>, operator: FilterOperator) -> ValueView {
    if operator == FilterOperator::In || operator == FilterOperator::NotIn {
        ValueView::List(split_on(value, ',').map_values(|piece: Seq<char>| scalar_of(piece)))
    } else {
        ValueView::Scalar(scalar_of(value))
    }
}

pub(crate) fn parse_scalar(value: &str) -> (scalar: FilterScalar)
    ensures
        scalar@ == scalar_of(value@),
{
    if same_text(value, "true") {
        FilterScalar::Bool(true)
    } else if same_text(value, "false") {
        FilterScalar::Bool(false)
    } else if same_text(value, "null") {
        FilterScalar::Null
    } else {
        match Numeral::parse(value) {
            Some(numeral) => FilterScalar::Number(numeral),
            None => FilterScalar::String(value.to_owned()),
        }
    }
}

fn parse_filter_value(value: &str, operator: FilterOperator) -> (parsed: FilterValue)
    ensures
        parsed@ == value_of(value@, operator),
{
    if operator == FilterOperator::In || operator == FilterOperator::NotIn {
        let pieces = split(value, ',');
        let mut scalars: Vec<FilterScalar> = Vec::new();
        let mut i: usize = 0;
        while i < pieces.len()
            invariant
                i <= pieces@.len(),
                scalars@.len() == i,
                forall|k: int| 0 <= k < i ==> (#[trigger] scalars@[k])@ == scalar_of(pieces@[k]@),
            decreases pieces@.len() - i,
        {
            scalars.push(parse_scalar(pieces[i].as_str()));
            i += 1;
        }
        proof {
            let wanted = split_on(value@, ',').map_values(|piece: Seq<char>| scalar_of(piece));
            assert forall|k: int| 0 <= k < pieces@.len() implies #[trigger] wanted[k] == scalar_of(
                pieces@[k]@,
            ) by {
                assert(texts(pieces@)[k] == pieces@[k]@);
            }
            assert(scalar_views(scalars@) =~= wanted);
        }
        FilterValue::List(scalars)
    } else {
        FilterValue::Scalar(parse_scalar(value))
    }
}

/// The sort clause that a piece of a sort value stands for: nothing for a blank
/// piece, a descending clause behind a `-`, otherwise an ascending one.
pub open spec fn sort_piece(piece: Seq<char>) -> Result<Seq<SortView>, QueryErrorView> {
    let part = trimmed(piece);
    if part.len() == 0 {
        Ok(Seq::empty())
    } else if part[0] != '-' {
        Ok(seq![SortView { field: part, direction: SortDirection::Asc }])
    } else if part.len() == 1 {
        Err(QueryErrorView::InvalidSortClause(part))
    } else {
        Ok(seq![SortView { field: part.skip(1), direction: SortDirection::Desc }])
    }
}

/// The sort clauses of the first `n` pieces.
pub open spec fn sort_pieces(pieces: Seq<Seq<char>>, n: nat) -> Result<
    Seq<SortView>,
    QueryErrorView,
>
    decreases n,
{
    if n == 0 {
        Ok(Seq::empty())
    } else {
        match sort_pieces(pieces, (n - 1) as nat) {
            Err(fault) => Err(fault),
            Ok(clauses) => match sort_piece(pieces[n - 1]) {
                Err(fault) => Err(fault),
                Ok(clause) => Ok(clauses + clause),
            },
        }
    }
}

/// The sort clauses of a sort value.
pub open spec fn sort_value(raw: Seq<char>) -> Result<Seq<SortView>, QueryErrorView> {
    let pieces = split_on(raw, ',');
    sort_pieces(pieces, pieces.len())
}

proof fn lemma_sort_fault(pieces: Seq<Seq<char>>, n: nat)
    requires
        n <= pieces.len(),
        sort_pieces(pieces, n) is Err,
    ensures
        sort_pieces(pieces, pieces.len()) == sort_pieces(pieces, n),
    decreases pieces.len() - n,
{
    if n < pieces.len() {
        lemma_sort_fault(pieces, n + 1);
    }
}

fn parse_sort_value(raw: &str) -> (r: Result<Vec<SortClause>, QueryError>)
    ensures
        match r {
            Ok(clauses) => sort_value(raw@) == Ok::<Seq<SortView>, QueryErrorView>(
                sort_views(clauses@),
            ),
            Err(error) => sort_value(raw@) == Err::<Seq<SortView>, QueryErrorView>(error@),
        },
{
    let pieces = split(raw, ',');
    let ghost all = texts(pieces@);
    let mut clauses: Vec<SortClause> = Vec::new();
    let mut i: usize = 0;
    assert(sort_views(clauses@) =~= Seq::empty());
    while i < pieces.len()
        invariant
            i <= pieces@.len(),
            all == texts(pieces@),
            all == split_on(raw@, ','),
            sort_pieces(all, i as nat) == Ok::<Seq<SortView>, QueryErrorView>(
                sort_views(clauses@),
            ),
        decreases pieces@.len() - i,
    {
        let ghost before = clauses@;
        assert(all[i as int] == pieces@[i as int]@);
        let part = trim(pieces[i].as_str());
        let chars = chars_of(part.as_str());
        if chars.len() > 0 {
            if chars[0] == '-' {
                if chars.len() == 1 {
                    proof {
                        lemma_sort_fault(all, (i + 1) as nat);
                    }
                    return Err(QueryError::InvalidSortClause(part));
                }
                let field = slice_text(&chars, 1, chars.len());
                assert(field@ =~= part@.skip(1));
                clauses.push(SortClause { field, direction: SortDirection::Desc });
            } else {
                clauses.push(SortClause { field: part, direction: SortDirection::Asc });
            }
            assert(sort_views(clauses@) =~= sort_views(before) + sort_piece(all[i as int])->Ok_0);
        } else {
            assert(sort_views(clauses@) =~= sort_views(before) + Seq::<SortView>::empty());
        }
        i += 1;
    }
    Ok(clauses)
}

/// The page size that `raw` asks for, within the limits of the surface.
pub open spec fn page_size(raw: Seq<char>, config: PaginationConfig) -> Result<
    u32,
    QueryErrorView,
> {
    match unsigned_value(raw, u32::MAX as nat) {
        Some(size) if size > 0 => if size > config.max_size {
            Err(QueryErrorView::PageSizeTooLarge { size: size as u32, max: config.max_size })
        } else {
            Ok(size as u32)
        },
        _ => Err(QueryErrorView::InvalidPageSize(raw)),
    }
}

/// The one-based page number that `raw` asks for.
pub open spec fn page_number(raw: Seq<char>) -> Result<u32, QueryErrorView> {
    match unsigned_value(raw, u32::MAX as nat) {
        Some(number) if number > 0 => Ok(number as u32),
        _ => Err(QueryErrorView::InvalidPageNumber(raw)),
    }
}

/// The zero-based offset that `raw` asks for.
pub open spec fn page_offset(raw: Seq<char>) -> Result<u64, QueryErrorView> {
    match unsigned_value(raw, u64::MAX as nat) {
        Some(offset) => Ok(offset as u64),
        None => Err(QueryErrorView::InvalidPageOffset(raw)),
    }
}

fn parse_page_size(raw: &str, config: PaginationConfig) -> (r: Result<u32, QueryError>)
    ensures
        match r {
            Ok(size) => page_size(raw@, config) == Ok::<u32, QueryErrorView>(size),
            Err(error) => page_size(raw@, config) == Err::<u32, QueryErrorView>(error@),
        },
{
    match parse_unsigned(raw, u32::MAX as u64) {
        Some(size) if size > 0 => {
            if size > config.max_size as u64 {
                Err(QueryError::PageSizeTooLarge { size: size as u32, max: config.max_size })
            } else {
                Ok(size as u32)
            }
        },
        _ => Err(QueryError::InvalidPageSize(raw.to_owned())),
    }
}

fn parse_page_number(raw: &str) -> (r: Result<u32, QueryError>)
    ensures
        match r {
            Ok(number) => page_number(raw@) == Ok::<u32, QueryErrorView>(number),
            Err(error) => page_number(raw@) == Err::<u32, QueryErrorView>(error@),
        },
{
    match parse_unsigned(raw, u32::MAX as u64) {
        Some(number) if number > 0 => Ok(number as u32),
        _ => Err(QueryError::InvalidPageNumber(raw.to_owned())),
    }
}

fn parse_page_offset(raw: &str) -> (r: Result<u64, QueryError>)
    ensures
        match r {
            Ok(offset) => page_offset(raw@) == Ok::<u64, QueryErrorView>(offset),
            Err(error) => page_offset(raw@) == Err::<u64, QueryErrorView>(error@),
        },
{
    match parse_unsigned(raw, u64::MAX) {
        Some(offset) => Ok(offset),
        None => Err(QueryError::InvalidPageOffset(raw.to_owned())),
    }
}

/// The pagination that a request asks for: at most one of cursor, number and
/// offset, otherwise the start in the default mode.
pub open spec fn pagination(
    size: u32,
    cursor: Option<Seq<char>>,
    number: Option<u32>,
    offset: Option<u64>,
    default_mode: PaginationMode,
) -> Result<PageView, QueryErrorView> {
    match (cursor, number, offset) {
        (Some(text), None, None) => Ok(PageView::Cursor { size, cursor: Some(text) }),
        (None, Some(number), None) => Ok(PageView::Page { size, number }),
        (None, None, Some(offset)) => Ok(PageView::Offset { size, offset }),
        (None, None, None) => Ok(
            match default_mode {
                PaginationMode::Cursor => PageView::Cursor { size, cursor: None },
                PaginationMode::Page => PageView::Page { size, number: 1 },
                PaginationMode::Offset => PageView::Offset { size, offset: 0 },
            },
        ),
        _ => Err(QueryErrorView::ConflictingPagination),
    }
}

fn build_pagination(
    size: u32,
    cursor: Option<String>,
    page_number: Option<u32>,
    offset: Option<u64>,
    default_mode: PaginationMode,
) -> (r: Result<PaginationRequest, QueryError>)
    ensures
        match r {
            Ok(page) => pagination(size, optional_text(cursor), page_number, offset, default_mode)
                == Ok::<PageView, QueryErrorView>(page@),
            Err(error) => pagination(
                size,
                optional_text(cursor),
                page_number,
                offset,
                default_mode,
            ) == Err::<PageView, QueryErrorView>(error@),
        },
{
    match (cursor, page_number, offset) {
        (Some(text), None, None) => Ok(PaginationRequest::cursor(size, Some(text))),
        (None, Some(number), None) => Ok(PaginationRequest::page(size, number)),
        (None, None, Some(offset)) => Ok(PaginationRequest::offset(size, offset)),
        (None, None, None) => Ok(
            match default_mode {
                PaginationMode::Cursor => PaginationRequest::cursor(size, None),
                PaginationMode::Page => PaginationRequest::page(size, 1),
                PaginationMode::Offset => PaginationRequest::offset(size, 0),
            },
        ),
        _ => Err(QueryError::ConflictingPagination),
    }
}

/// What the pairs of a query have said so far.
pub struct QueryParts {
    pub filters: Seq<FilterTree>,
    pub sort: Seq<SortView>,
    pub size: Option<u32>,
    pub cursor: Option<Seq<char>>,
    pub number: Option<u32>,
    pub offset: Option<u64>,
}

impl QueryParts {
    pub open spec fn none() -> QueryParts {
        QueryParts {
            filters: Seq::empty(),
            sort: Seq::empty(),
            size: None,
            cursor: None,
            number: None,
            offset: None,
        }
    }

    /// What one more pair makes of the parts. Filters and sort clauses add up; of
    /// the page parameters the last one counts; a blank cursor and an unknown key
    /// say nothing.
    pub open spec fn with_pair(
        self,
        key: Seq<char>,
        value: Seq<char>,
        config: PaginationConfig,
    ) -> Result<QueryParts, QueryErrorView> {
        if key == "sort"@ {
            match sort_value(value) {
                Err(fault) => Err(fault),
                Ok(clauses) => Ok(QueryParts { sort: self.sort + clauses, ..self }),
            }
        } else if key == "page[size]"@ || key == "limit"@ {
            match page_size(value, config) {
                Err(fault) => Err(fault),
                Ok(size) => Ok(QueryParts { size: Some(size), ..self }),
            }
        } else if key == "page[cursor]"@ || key == "cursor"@ {
            if is_blank(value) {
                Ok(self)
            } else {
                Ok(QueryParts { cursor: Some(value), ..self })
            }
        } else if key == "page[number]"@ || key == "page"@ {
            match page_number(value) {
                Err(fault) => Err(fault),
                Ok(number) => Ok(QueryParts { number: Some(number), ..self }),
            }
        } else if key == "page[offset]"@ || key == "offset"@ {
            match page_offset(value) {
                Err(fault) => Err(fault),
                Ok(offset) => Ok(QueryParts { offset: Some(offset), ..self }),
            }
        } else if stands_at(key, 0, "filter"@) {
            match filter_key(key) {
                Err(fault) => Err(fault),
                Ok((field, operator)) => Ok(
                    QueryParts {
                        filters: self.filters.push(
                            FilterTree::Condition {
                                field,
                                operator,
                                value: value_of(value, operator),
                            },
                        ),
                        ..self
                    },
                ),
            }
        } else {
            Ok(self)
        }
    }
}

/// What the first `n` pairs say.
pub open spec fn parts_of(
    pairs: Seq<(Seq<char>, Seq<char>)>,
    n: nat,
    config: PaginationConfig,
) -> Result<QueryParts, QueryErrorView>
    decreases n,
{
    if n == 0 {
        Ok(QueryParts::none())
    } else {
        match parts_of(pairs, (n - 1) as nat, config) {
            Err(fault) => Err(fault),
            Ok(parts) => parts.with_pair(pairs[n - 1].0, pairs[n - 1].1, config),
        }
    }
}

proof fn lemma_parts_fault(pairs: Seq<(Seq<char>, Seq<char>)>, n: nat, config: PaginationConfig)
    requires
        n <= pairs.len(),
        parts_of(pairs, n, config) is Err,
    ensures
        parts_of(pairs, pairs.len(), config) == parts_of(pairs, n, config),
    decreases pairs.len() - n,
{
    if n < pairs.len() {
        lemma_parts_fault(pairs, n + 1, config);
    }
}

/// The query that the parts make: the filters under one conjunction, the default
/// sort where none was asked for, and one pagination.
pub open spec fn assembled(parts: QueryParts, schema: SchemaView) -> Result<
    ListQueryView,
    QueryErrorView,
> {
    let size = match parts.size {
        Some(size) => size,
        None => schema.page.default_size,
    };
    match pagination(
        size,
        parts.cursor,
        parts.number,
        parts.offset,
        schema.page.default_mode,
    ) {
        Err(fault) => Err(fault),
        Ok(page) => Ok(
            ListQueryView {
                filter: FilterTree::Group {
                    operator: BoolOperator::And,
                    conditions: parts.filters,
                },
                sort: if parts.sort.len() == 0 {
                    schema.default_sort
                } else {
                    parts.sort
                },
                page,
            },
        ),
    }
}

/// The query that decoded pairs ask for, held to the schema's allowlist.
pub open spec fn parsed_query(
    pairs: Seq<(Seq<char>, Seq<char>)>,
    schema: SchemaView,
) -> Result<ListQueryView, QueryErrorView> {
    match parts_of(pairs, pairs.len(), schema.page) {
        Err(fault) => Err(fault),
        Ok(parts) => match assembled(parts, schema) {
            Err(fault) => Err(fault),
            Ok(query) => match schema.fault(query) {
                Some(fault) => Err(fault),
                None => Ok(query),
            },
        },
    }
}

/// The views of a sequence of pairs.
pub open spec fn pair_views(pairs: Seq<(&str, &str)>) -> Seq<(Seq<char>, Seq<char>)> {
    pairs.map_values(|pair: (&str, &str)| (pair.0@, pair.1@))
}

/// What the pairs of a query have said so far.
struct PartsSoFar {
    filters: Vec<FilterNode>,
    sort: Vec<SortClause>,
    size: Option<u32>,
    cursor: Option<String>,
    number: Option<u32>,
    offset: Option<u64>,
}

impl View for PartsSoFar {
    type V = QueryParts;

    closed spec fn view(&self) -> QueryParts {
        QueryParts {
            filters: tree_views(self.filters@),
            sort: sort_views(self.sort@),
            size: self.size,
            cursor: optional_text(self.cursor),
            number: self.number,
            offset: self.offset,
        }
    }
}

/// Take in one more pair.
fn take_pair(parts: PartsSoFar, key: &str, value: &str, config: PaginationConfig) -> (r: Result<
    PartsSoFar,
    QueryError,
>)
    ensures
        match r {
            Ok(after) => parts@.with_pair(key@, value@, config) == Ok::<QueryParts, QueryErrorView>(
                after@,
            ),
            Err(error) => parts@.with_pair(key@, value@, config) == Err::<
                QueryParts,
                QueryErrorView,
            >(error@),
        },
{
    let mut parts = parts;
    let ghost before = parts@;
    if same_text(key, "sort") {
        let mut clauses = match parse_sort_value(value) {
            Ok(clauses) => clauses,
            Err(error) => return Err(error),
        };
        let ghost added = sort_views(clauses@);
        parts.sort.append(&mut clauses);
        assert(sort_views(parts.sort@) =~= before.sort + added);
    } else if same_text(key, "page[size]") || same_text(key, "limit") {
        match parse_page_size(value, config) {
            Ok(size) => {
                parts.size = Some(size);
            },
            Err(error) => return Err(error),
        }
    } else if same_text(key, "page[cursor]") || same_text(key, "cursor") {
        if !blank(value) {
            parts.cursor = Some(value.to_owned());
        }
    } else if same_text(key, "page[number]") || same_text(key, "page") {
        match parse_page_number(value) {
            Ok(number) => {
                parts.number = Some(number);
            },
            Err(error) => return Err(error),
        }
    } else if same_text(key, "page[offset]") || same_text(key, "offset") {
        match parse_page_offset(value) {
            Ok(offset) => {
                parts.offset = Some(offset);
            },
            Err(error) => return Err(error),
        }
    } else {
        let chars = chars_of(key);
        if starts_with_filter(&chars) {
            let (field, operator) = match parse_filter_key(key) {
                Ok(parsed) => parsed,
                Err(error) => return Err(error),
            };
            let condition = FilterNode::Condition {
                field,
                operator,
                value: parse_filter_value(value, operator),
            };
            parts.filters.push(condition);
            assert(tree_views(parts.filters@) =~= before.filters.push(condition@));
        }
    }
    Ok(parts)
}

/// Parse decoded query pairs into a validated [`ListQuery`].
///
/// Canonical keys are `filter[field]`, `filter[field][op]`, `sort`,
/// `page[size]`, and one of `page[cursor]`, `page[number]`, or `page[offset]`.
/// The parser also accepts `limit`, `cursor`, `page`, and `offset` as
/// compatibility aliases for existing APIs.
pub fn parse_list_query(pairs: &[(&str, &str)], schema: &QuerySchema) -> (r: Result<
    ListQuery,
    QueryError,
>)
    ensures
        match r {
            Ok(query) => parsed_query(pair_views(pairs@), schema@) == Ok::<
                ListQueryView,
                QueryErrorView,
            >(query@),
            Err(error) => parsed_query(pair_views(pairs@), schema@) == Err::<
                ListQueryView,
                QueryErrorView,
            >(error@),
        },
{
    let config = schema.page_config();
    let ghost all = pair_views(pairs@);
    let mut parts = PartsSoFar {
        filters: Vec::new(),
        sort: Vec::new(),
        size: None,
        cursor: None,
        number: None,
        offset: None,
    };
    assert(parts@.filters =~= Seq::empty());
    assert(parts@.sort =~= Seq::empty());
    let mut i: usize = 0;
    while i < pairs.len()
        invariant
            i <= pairs@.len(),
            all == pair_views(pairs@),
            config == schema@.page,
            parts_of(all, i as nat, config) == Ok::<QueryParts, QueryErrorView>(parts@),
        decreases pairs@.len() - i,
    {
        let (key, value) = pairs[i];
        assert(all[i as int] == (key@, value@));
        match take_pair(parts, key, value, config) {
            Ok(after) => {
                parts = after;
            },
            Err(error) => {
                proof {
                    lemma_parts_fault(all, (i + 1) as nat, config);
                }
                return Err(error);
            },
        }
        i += 1;
    }
    let PartsSoFar { filters, sort, size, cursor, number, offset } = parts;
    let size: u32 = match size {
        Some(size) => size,
        None => config.default_size,
    };
    let page = match build_pagination(size, cursor, number, offset, config.default_mode) {
        Ok(page) => page,
        Err(error) => return Err(error),
    };
    let sort = if sort.len() == 0 {
        schema.default_sort()
    } else {
        sort
    };
    let query = ListQuery { filter: FilterNode::and(filters), sort, page };
    match schema.validate(&query) {
        Ok(()) => Ok(query),
        Err(error) => Err(error),
    }
}

/// A parsed query asks for nothing outside the schema's allowlist: every
/// condition is on an allowed field with an operator allowed on it, and every
/// sort clause is on a sortable field.
pub proof fn parsed_queries_stay_inside_the_allowlist(
    pairs: Seq<(Seq<char>, Seq<char>)>,
    schema: SchemaView,
)
    requires
        parsed_query(pairs, schema) is Ok,
    ensures
        ({
            let query = parsed_query(pairs, schema)->Ok_0;
            &&& schema.fault(query) is None
            &&& schema.allows(query.filter)
            &&& forall|i: int|
                0 <= i < query.sort.len() ==> schema.sortable_fields.contains(
                    (#[trigger] query.sort[i]).field,
                )
        }),
{
    let query = parsed_query(pairs, schema)->Ok_0;
    schema.lemma_faultless_filter_is_allowed(query.filter);
    schema.lemma_faultless_sort_is_allowed(query.sort);
}

proof fn lemma_sizes_within_limit(
    pairs: Seq<(Seq<char>, Seq<char>)>,
    n: nat,
    config: PaginationConfig,
)
    requires
        parts_of(pairs, n, config) is Ok,
    ensures
        match parts_of(pairs, n, config)->Ok_0.size {
            Some(size) => 0 < size <= config.max_size,
            None => true,
        },
    decreases n,
{
    if n > 0 {
        lemma_sizes_within_limit(pairs, (n - 1) as nat, config);
    }
}

/// The page size of a parsed query is the surface's default, or one that was
/// asked for and lies between one and the surface's maximum.
pub proof fn parsed_page_size_is_within_limits(
    pairs: Seq<(Seq<char>, Seq<char>)>,
    schema: SchemaView,
)
    requires
        parsed_query(pairs, schema) is Ok,
    ensures
        ({
            let size = parsed_query(pairs, schema)->Ok_0.page.size();
            size == schema.page.default_size || 0 < size <= schema.page.max_size
        }),
{
    lemma_sizes_within_limit(pairs, pairs.len(), schema.page);
}

/// A request that mixes cursor, page number and offset is refused, whatever else it
/// asks for.
pub proof fn mixed_pagination_is_refused(
    pairs: Seq<(Seq<char>, Seq<char>)>,
    schema: SchemaView,
)
    requires
        parts_of(pairs, pairs.len(), schema.page) is Ok,
        ({
            let parts = parts_of(pairs, pairs.len(), schema.page)->Ok_0;
            ||| parts.cursor is Some && parts.number is Some
            ||| parts.cursor is Some && parts.offset is Some
            ||| parts.number is Some && parts.offset is Some
        }),
    ensures
        parsed_query(pairs, schema) == Err::<ListQueryView, QueryErrorView>(
            QueryErrorView::ConflictingPagination,
        ),
{
}

} // verus!

//! What holds of every compiled query.
use crate::api_contract::query::{
    FilterOperator, FilterTree, ListQueryView, ScalarView, SortView, ValueView,
};
use crate::query::compile::{
    binds, compiled, escaped, is_wildcard, lemma_param_count, RenderSettings,
};
use crate::query::dialect::{first_index, Dialect};
use crate::query::fragment::CompileOptions;
use vstd::prelude::*;

verus! {

/// The two values have the same shape: both are null or neither is, or both are
/// lists of the same length.
pub open spec fn values_alike(a: ValueView, b: ValueView) -> bool {
    match (a, b) {
        (ValueView::Scalar(s), ValueView::Scalar(t)) => (s is Null) == (t is Null),
        (ValueView::List(s), ValueView::List(t)) => s.len() == t.len(),
        _ => false,
    }
}

/// The two filters differ in nothing but the values that they compare with.
pub open spec fn filters_alike(a: FilterTree, b: FilterTree) -> bool
    decreases a,
{
    match (a, b) {
        (
            FilterTree::Condition { field: f, operator: o, value: v },
            FilterTree::Condition { field: g, operator: p, value: w },
        ) => f == g && o == p && values_alike(v, w),
        (
            FilterTree::Group { operator: o, conditions: x },
            FilterTree::Group { operator: p, conditions: y },
        ) => o == p && x.len() == y.len() && (forall|i: int|
            0 <= i < x.len() && i < y.len() ==> filters_alike(#[trigger] x[i], #[trigger] y[i])),
        _ => false,
    }
}

proof fn lemma_alike_text(settings: RenderSettings, a: FilterTree, b: FilterTree, next: nat)
    requires
        filters_alike(a, b),
        settings.filter(a, next) is Ok,
        settings.filter(b, next) is Ok,
    ensures
        settings.filter(a, next)->Ok_0.0 == settings.filter(b, next)->Ok_0.0,
        settings.filter(a, next)->Ok_0.1.len() == settings.filter(b, next)->Ok_0.1.len(),
    decreases a, a.width() + 1,
{
    if a is Group {
        lemma_alike_parts(settings, a, b, a.width(), next);
    }
}

proof fn lemma_alike_parts(
    settings: RenderSettings,
    a: FilterTree,
    b: FilterTree,
    n: nat,
    next: nat,
)
    requires
        filters_alike(a, b),
        a is Group,
        n <= a.width(),
        settings.parts(a, n, next) is Ok,
        settings.parts(b, n, next) is Ok,
    ensures
        settings.parts(a, n, next)->Ok_0.0 == settings.parts(b, n, next)->Ok_0.0,
        settings.parts(a, n, next)->Ok_0.1.len() == settings.parts(b, n, next)->Ok_0.1.len(),
    decreases a, n,
{
    if n > 0 {
        lemma_alike_parts(settings, a, b, (n - 1) as nat, next);
        let bound = settings.parts(a, (n - 1) as nat, next)->Ok_0.1.len();
        let x = a->Group_conditions[n - 1];
        let y = b->Group_conditions[n - 1];
        assert(filters_alike(x, y));
        lemma_alike_text(settings, x, y, next + bound);
    }
}

/// Values are bound, never written into the SQL: two queries that differ in
/// nothing but the values that they compare with compile to the same text.
pub proof fn values_never_reach_the_text(
    a: ListQueryView,
    b: ListQueryView,
    columns: Map<Seq<char>, Seq<char>>,
    dialect: Dialect,
    options: CompileOptions,
)
    requires
        filters_alike(a.filter, b.filter),
        a.sort == b.sort,
        compiled(a, columns, dialect, options) is Ok,
        compiled(b, columns, dialect, options) is Ok,
    ensures
        ({
            let one = compiled(a, columns, dialect, options)->Ok_0;
            let other = compiled(b, columns, dialect, options)->Ok_0;
            &&& one.where_clause == other.where_clause
            &&& one.order_by == other.order_by
            &&& one.params.len() == other.params.len()
        }),
{
    let settings = RenderSettings::of(columns, dialect, options);
    lemma_alike_text(settings, a.filter, b.filter, first_index(options.start_param as nat));
}

/// The scalar is within the bound on strings.
pub open spec fn scalar_bounded(settings: RenderSettings, scalar: ScalarView) -> bool {
    match scalar {
        ScalarView::String(text) => text.len() <= settings.max_string_len,
        _ => true,
    }
}

/// Every field of the filter is mapped to a column, and every value is within
/// the bounds.
pub open spec fn filter_admissible(settings: RenderSettings, tree: FilterTree) -> bool
    decreases tree,
{
    match tree {
        FilterTree::Condition { field, operator, value } => {
            &&& settings.columns.contains_key(field)
            &&& match value {
                ValueView::Scalar(scalar) => scalar_bounded(settings, scalar),
                ValueView::List(scalars) => scalars.len() <= settings.max_array_size && (
                forall|i: int|
                    0 <= i < scalars.len() ==> scalar_bounded(settings, #[trigger] scalars[i])),
            }
        },
        FilterTree::Group { operator, conditions } => forall|i: int|
            0 <= i < conditions.len() ==> filter_admissible(settings, #[trigger] conditions[i]),
    }
}

proof fn lemma_list_bounded(
    settings: RenderSettings,
    field: Seq<char>,
    scalars: Seq<ScalarView>,
)
    requires
        settings.list_fault(field, scalars) is None,
    ensures
        forall|i: int| 0 <= i < scalars.len() ==> scalar_bounded(settings, #[trigger] scalars[i]),
    decreases scalars.len(),
{
    if scalars.len() > 0 {
        let rest = scalars.drop_first();
        lemma_list_bounded(settings, field, rest);
        assert forall|i: int| 0 <= i < scalars.len() implies scalar_bounded(
            settings,
            #[trigger] scalars[i],
        ) by {
            if i > 0 {
                assert(rest[i - 1] == scalars[i]);
            }
        }
    }
}

proof fn lemma_rendered_is_admissible(settings: RenderSettings, tree: FilterTree, next: nat)
    requires
        settings.filter(tree, next) is Ok,
    ensures
        filter_admissible(settings, tree),
    decreases tree, tree.width() + 1,
{
    match tree {
        FilterTree::Condition { field, operator, value } => {
            if let ValueView::List(scalars) = value {
                lemma_list_bounded(settings, field, scalars);
            }
        },
        FilterTree::Group { operator, conditions } => {
            lemma_parts_admissible(settings, tree, tree.width(), next);
        },
    }
}

proof fn lemma_parts_admissible(settings: RenderSettings, tree: FilterTree, n: nat, next: nat)
    requires
        tree is Group,
        n <= tree.width(),
        settings.parts(tree, n, next) is Ok,
    ensures
        forall|i: int|
            0 <= i < n ==> filter_admissible(settings, #[trigger] tree->Group_conditions[i]),
    decreases tree, n,
{
    if n > 0 {
        lemma_parts_admissible(settings, tree, (n - 1) as nat, next);
        let bound = settings.parts(tree, (n - 1) as nat, next)->Ok_0.1.len();
        lemma_rendered_is_admissible(settings, tree->Group_conditions[n - 1], next + bound);
    }
}

proof fn lemma_ordered_is_mapped(settings: RenderSettings, sort: Seq<SortView>, n: nat)
    requires
        n <= sort.len(),
        settings.order_parts(sort, n) is Ok,
    ensures
        forall|i: int| 0 <= i < n ==> settings.columns.contains_key((#[trigger] sort[i]).field),
    decreases n,
{
    if n > 0 {
        lemma_ordered_is_mapped(settings, sort, (n - 1) as nat);
    }
}

/// A compiled query names only mapped fields and stays within the bounds: a
/// field that is not mapped, a set that is too large and a string that is too
/// long are refused before any SQL is produced.
pub proof fn compiled_queries_are_mapped_and_bounded(
    query: ListQueryView,
    columns: Map<Seq<char>, Seq<char>>,
    dialect: Dialect,
    options: CompileOptions,
)
    requires
        compiled(query, columns, dialect, options) is Ok,
    ensures
        filter_admissible(RenderSettings::of(columns, dialect, options), query.filter),
        forall|i: int|
            0 <= i < query.sort.len() ==> columns.contains_key((#[trigger] query.sort[i]).field),
{
    let settings = RenderSettings::of(columns, dialect, options);
    lemma_rendered_is_admissible(
        settings,
        query.filter,
        first_index(options.start_param as nat),
    );
    lemma_ordered_is_mapped(settings, query.sort, query.sort.len());
}

/// A compiled query binds exactly as many parameters as its filter has values to
/// bind, wherever the numbering starts.
pub proof fn compiled_queries_bind_every_value(
    query: ListQueryView,
    columns: Map<Seq<char>, Seq<char>>,
    dialect: Dialect,
    options: CompileOptions,
)
    requires
        compiled(query, columns, dialect, options) is Ok,
    ensures
        compiled(query, columns, dialect, options)->Ok_0.params.len() == binds(
            query.filter,
            dialect,
        ),
{
    lemma_param_count(
        RenderSettings::of(columns, dialect, options),
        query.filter,
        first_index(options.start_param as nat),
    );
}

/// No condition of the filter is on set membership.
pub open spec fn set_free(tree: FilterTree) -> bool
    decreases tree,
{
    match tree {
        FilterTree::Condition { field, operator, value } => operator != FilterOperator::In
            && operator != FilterOperator::NotIn,
        FilterTree::Group { operator, conditions } => forall|i: int|
            0 <= i < conditions.len() ==> set_free(#[trigger] conditions[i]),
    }
}

/// The two differ in nothing but the dialect.
spec fn same_but_dialect(a: RenderSettings, b: RenderSettings) -> bool {
    a.columns == b.columns && a.max_array_size == b.max_array_size && a.max_string_len
        == b.max_string_len
}

proof fn lemma_same_params(
    a: RenderSettings,
    b: RenderSettings,
    tree: FilterTree,
    next: nat,
)
    requires
        same_but_dialect(a, b),
        set_free(tree),
    ensures
        a.filter(tree, next) is Ok <==> b.filter(tree, next) is Ok,
        a.filter(tree, next) is Ok ==> a.filter(tree, next)->Ok_0.1 == b.filter(
            tree,
            next,
        )->Ok_0.1,
        a.filter(tree, next) is Err ==> a.filter(tree, next)->Err_0 == b.filter(
            tree,
            next,
        )->Err_0,
    decreases tree, tree.width() + 1,
{
    if tree is Group {
        lemma_same_params_of_parts(a, b, tree, tree.width(), next);
    }
}

proof fn lemma_same_params_of_parts(
    a: RenderSettings,
    b: RenderSettings,
    tree: FilterTree,
    n: nat,
    next: nat,
)
    requires
        same_but_dialect(a, b),
        set_free(tree),
        tree is Group,
        n <= tree.width(),
    ensures
        a.parts(tree, n, next) is Ok <==> b.parts(tree, n, next) is Ok,
        a.parts(tree, n, next) is Ok ==> a.parts(tree, n, next)->Ok_0.1 == b.parts(
            tree,
            n,
            next,
        )->Ok_0.1,
        a.parts(tree, n, next) is Err ==> a.parts(tree, n, next)->Err_0 == b.parts(
            tree,
            n,
            next,
        )->Err_0,
    decreases tree, n,
{
    if n > 0 {
        lemma_same_params_of_parts(a, b, tree, (n - 1) as nat, next);
        if a.parts(tree, (n - 1) as nat, next) is Ok {
            let bound = a.parts(tree, (n - 1) as nat, next)->Ok_0.1.len();
            lemma_same_params(a, b, tree->Group_conditions[n - 1], next + bound);
        }
    }
}

/// The dialects differ in text, not in what they bind: a query without set
/// membership binds the same parameters, or is refused for the same reason, on
/// every dialect.
pub proof fn dialects_bind_the_same_parameters(
    query: ListQueryView,
    columns: Map<Seq<char>, Seq<char>>,
    one: Dialect,
    other: Dialect,
    options: CompileOptions,
)
    requires
        set_free(query.filter),
    ensures
        ({
            let a = compiled(query, columns, one, options);
            let b = compiled(query, columns, other, options);
            match a {
                Ok(fragment) => b is Ok && b->Ok_0.params == fragment.params && b->Ok_0.order_by
                    == fragment.order_by && b->Ok_0.limit == fragment.limit,
                Err(fault) => b is Err && b->Err_0 == fault,
            }
        }),
{
    let a = RenderSettings::of(columns, one, options);
    let b = RenderSettings::of(columns, other, options);
    lemma_same_params(a, b, query.filter, first_index(options.start_param as nat));
    lemma_same_order(a, b, query.sort, query.sort.len());
}

proof fn lemma_same_order(a: RenderSettings, b: RenderSettings, sort: Seq<SortView>, n: nat)
    requires
        same_but_dialect(a, b),
        n <= sort.len(),
    ensures
        a.order_parts(sort, n) == b.order_parts(sort, n),
    decreases n,
{
    if n > 0 {
        lemma_same_order(a, b, sort, (n - 1) as nat);
    }
}

/// What a pattern matches literally: the pattern without the backslashes that
/// escape, or nothing if a wildcard stands in it unescaped.
pub open spec fn literal_of(pattern: Seq<char>) -> Option<Seq<char>>
    decreases pattern.len(),
{
    if pattern.len() == 0 {
        Some(Seq::empty())
    } else if pattern[0] == '\\' {
        if pattern.len() < 2 {
            None
        } else {
            match literal_of(pattern.skip(2)) {
                Some(rest) => Some(seq![pattern[1]] + rest),
                None => None,
            }
        }
    } else if is_wildcard(pattern[0]) {
        None
    } else {
        match literal_of(pattern.skip(1)) {
            Some(rest) => Some(seq![pattern[0]] + rest),
            None => None,
        }
    }
}

pub(crate) proof fn lemma_escaped_head(text: Seq<char>)
    requires
        text.len() > 0,
    ensures
        escaped(text) == (if is_wildcard(text[0]) {
            seq!['\\', text[0]]
        } else {
            seq![text[0]]
        }) + escaped(text.drop_first()),
    decreases text.len(),
{
    let head = if is_wildcard(text[0]) {
        seq!['\\', text[0]]
    } else {
        seq![text[0]]
    };
    if text.len() == 1 {
        assert(text.drop_last() =~= Seq::empty());
        assert(text.drop_first() =~= Seq::empty());
        assert(escaped(text) =~= head + escaped(text.drop_first()));
    } else {
        lemma_escaped_head(text.drop_last());
        assert(text.drop_last().drop_first() =~= text.drop_first().drop_last());
        assert(escaped(text) =~= head + escaped(text.drop_first()));
    }
}

/// A value that is matched as a substring, prefix or suffix matches itself: its
/// escaped form stands for exactly the value, with no wildcard left in it.
pub proof fn escaped_text_matches_literally(text: Seq<char>)
    ensures
        literal_of(escaped(text)) == Some(text),
    decreases text.len(),
{
    if text.len() > 0 {
        let rest = text.drop_first();
        escaped_text_matches_literally(rest);
        lemma_escaped_head(text);
        assert(seq![text[0]] + rest =~= text);
        if is_wildcard(text[0]) {
            assert(escaped(text).skip(2) =~= escaped(rest));
        } else {
            assert(escaped(text).skip(1) =~= escaped(rest));
        }
    } else {
        assert(text =~= Seq::empty());
    }
}

} // verus!

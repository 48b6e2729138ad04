//! Rendering of filters and sorts into SQL text and bound parameters.
use crate::api_contract::page::optional_text;
use crate::api_contract::query::{
    lemma_group_tree, scalar_views, sort_views, tree_views, BoolOperator, FilterNode,
    FilterOperator, FilterScalar, FilterTree, FilterValue, ListQuery, ListQueryView, ScalarView,
    SortClause, SortDirection, SortView, ValueView,
};
use crate::query::dialect::{first_index, Dialect, ParamBuilder};
use crate::query::fragment::{
    param_of, param_views, scalar_param, scalar_params, BuildErrorView, CompileOptions, FieldMap,
    FilterParam, ParamView, QueryBuildError, SqlFragment, ValueShape,
};
use crate::text::{chars_of, join, joined, lemma_texts_push, texts};
use vstd::prelude::*;
use vstd::string::*;

verus! {

/// What a filter is rendered with: the columns, the dialect and the bounds.
pub struct RenderSettings {
    pub columns: Map<Seq<char>, Seq<char>>,
    pub dialect: Dialect,
    pub max_array_size: nat,
    pub max_string_len: nat,
}

impl RenderSettings {
    pub open spec fn of(
        columns: Map<Seq<char>, Seq<char>>,
        dialect: Dialect,
        options: CompileOptions,
    ) -> RenderSettings {
        RenderSettings {
            columns,
            dialect,
            max_array_size: options.max_array_size as nat,
            max_string_len: options.max_string_len as nat,
        }
    }

    /// A string that is longer than the bound.
    pub open spec fn scalar_fault(self, field: Seq<char>, scalar: ScalarView) -> Option<
        BuildErrorView,
    > {
        match scalar {
            ScalarView::String(text) if text.len() > self.max_string_len => Some(
                BuildErrorView::StringTooLong {
                    field,
                    len: text.len(),
                    max: self.max_string_len,
                },
            ),
            _ => None,
        }
    }

    /// The first string of a list that is longer than the bound.
    pub open spec fn list_fault(self, field: Seq<char>, scalars: Seq<ScalarView>) -> Option<
        BuildErrorView,
    >
        decreases scalars.len(),
    {
        if scalars.len() == 0 {
            None
        } else {
            match self.scalar_fault(field, scalars[0]) {
                Some(fault) => Some(fault),
                None => self.list_fault(field, scalars.drop_first()),
            }
        }
    }

    /// A set with too many elements, or its first string that is too long.
    pub open spec fn set_fault(self, field: Seq<char>, scalars: Seq<ScalarView>) -> Option<
        BuildErrorView,
    > {
        if scalars.len() > self.max_array_size {
            Some(
                BuildErrorView::ArrayTooLarge {
                    field,
                    size: scalars.len(),
                    max: self.max_array_size,
                },
            )
        } else {
            self.list_fault(field, scalars)
        }
    }

    /// Set membership: one array parameter, or one placeholder per element. An
    /// empty set without an array parameter is a constant.
    pub open spec fn set_sql(
        self,
        column: Seq<char>,
        scalars: Seq<ScalarView>,
        negated: bool,
        next: nat,
    ) -> (Seq<char>, Seq<ParamView>) {
        match self.dialect {
            Dialect::Postgres => (
                column + (if negated {
                    " != ALL("@
                } else {
                    " = ANY("@
                }) + self.dialect.placeholder_text(next) + ")"@,
                seq![ParamView::Array(scalar_params(scalars))],
            ),
            Dialect::Sqlite => if scalars.len() == 0 {
                (
                    if negated {
                        "1 = 1"@
                    } else {
                        "1 = 0"@
                    },
                    Seq::empty(),
                )
            } else {
                (
                    column + (if negated {
                        " NOT IN ("@
                    } else {
                        " IN ("@
                    }) + joined(self.placeholders(next, scalars.len()), ", "@) + ")"@,
                    scalar_params(scalars),
                )
            },
        }
    }

    /// `count` placeholders from index `next` on.
    pub open spec fn placeholders(self, next: nat, count: nat) -> Seq<Seq<char>> {
        Seq::new(count, |i: int| self.dialect.placeholder_text((next + i) as nat))
    }

    /// A comparison of a column with one bound parameter.
    pub open spec fn comparison(
        self,
        column: Seq<char>,
        keyword: Seq<char>,
        next: nat,
        param: ParamView,
    ) -> (Seq<char>, Seq<ParamView>) {
        (column + " "@ + keyword + " "@ + self.dialect.placeholder_text(next), seq![param])
    }

    /// The SQL of one condition and its parameters, the first of which has the
    /// index `next`.
    pub open spec fn condition(
        self,
        field: Seq<char>,
        operator: FilterOperator,
        value: ValueView,
        next: nat,
    ) -> Result<(Seq<char>, Seq<ParamView>), BuildErrorView> {
        let column = self.columns[field];
        let mismatch = |expected: ValueShape|
            BuildErrorView::ValueShapeMismatch { field, operator, expected };
        if !self.columns.contains_key(field) {
            Err(BuildErrorView::UnmappedField(field))
        } else {
            match operator {
                FilterOperator::In | FilterOperator::NotIn => match value {
                    ValueView::Scalar(scalar) => Err(mismatch(ValueShape::List)),
                    ValueView::List(scalars) => match self.set_fault(field, scalars) {
                        Some(fault) => Err(fault),
                        None => Ok(
                            self.set_sql(
                                column,
                                scalars,
                                operator == FilterOperator::NotIn,
                                next,
                            ),
                        ),
                    },
                },
                FilterOperator::Like
                | FilterOperator::Ilike
                | FilterOperator::Contains
                | FilterOperator::StartsWith
                | FilterOperator::EndsWith => match value {
                    ValueView::Scalar(ScalarView::String(text)) => match self.scalar_fault(
                        field,
                        ScalarView::String(text),
                    ) {
                        Some(fault) => Err(fault),
                        None => Ok(self.pattern_match(column, operator, text, next)),
                    },
                    _ => Err(mismatch(ValueShape::StringScalar)),
                },
                _ => match value {
                    ValueView::List(scalars) => Err(mismatch(ValueShape::Scalar)),
                    ValueView::Scalar(scalar) => if scalar is Null && operator
                        == FilterOperator::Eq {
                        Ok((column + " IS NULL"@, Seq::empty()))
                    } else if scalar is Null && operator == FilterOperator::Ne {
                        Ok((column + " IS NOT NULL"@, Seq::empty()))
                    } else {
                        match self.scalar_fault(field, scalar) {
                            Some(fault) => Err(fault),
                            None => Ok(
                                self.comparison(
                                    column,
                                    comparison_sign(operator),
                                    next,
                                    scalar_param(scalar),
                                ),
                            ),
                        }
                    },
                },
            }
        }
    }

    /// A match of a column with a pattern. The operators that wrap their value
    /// match it literally: the value's wildcards are escaped.
    pub open spec fn pattern_match(
        self,
        column: Seq<char>,
        operator: FilterOperator,
        text: Seq<char>,
        next: nat,
    ) -> (Seq<char>, Seq<ParamView>) {
        match operator {
            FilterOperator::Like => self.comparison(
                column,
                "LIKE"@,
                next,
                ParamView::String(text),
            ),
            FilterOperator::Ilike => self.comparison(
                column,
                self.dialect.ilike_text(),
                next,
                ParamView::String(text),
            ),
            _ => {
                let (sql, params) = self.comparison(
                    column,
                    self.dialect.ilike_text(),
                    next,
                    ParamView::String(wrapped_pattern(operator, text)),
                );
                (sql + " ESCAPE '\\'"@, params)
            },
        }
    }

    /// The SQL of a filter, if it says anything, and its parameters, the first of
    /// which has the index `next`.
    pub open spec fn filter(self, tree: FilterTree, next: nat) -> Result<
        (Option<Seq<char>>, Seq<ParamView>),
        BuildErrorView,
    >
        decreases tree, tree.width() + 1,
    {
        match tree {
            FilterTree::Condition { field, operator, value } => match self.condition(
                field,
                operator,
                value,
                next,
            ) {
                Err(fault) => Err(fault),
                Ok((sql, params)) => Ok((Some(sql), params)),
            },
            FilterTree::Group { operator, conditions } => match self.parts(
                tree,
                conditions.len(),
                next,
            ) {
                Err(fault) => Err(fault),
                Ok((parts, params)) => Ok(
                    (
                        if parts.len() == 0 {
                            None
                        } else {
                            Some(joined(parts, joiner(operator)))
                        },
                        params,
                    ),
                ),
            },
        }
    }

    /// The SQL texts of the first `n` conditions of a group, without those that
    /// say nothing, and their parameters. A nested group stands in parentheses.
    pub open spec fn parts(self, tree: FilterTree, n: nat, next: nat) -> Result<
        (Seq<Seq<char>>, Seq<ParamView>),
        BuildErrorView,
    >
        decreases tree, n,
    {
        match tree {
            FilterTree::Group { operator, conditions } if 0 < n <= conditions.len() => {
                let child = conditions[n - 1];
                match self.parts(tree, (n - 1) as nat, next) {
                    Err(fault) => Err(fault),
                    Ok((parts, params)) => match self.filter(child, next + params.len()) {
                        Err(fault) => Err(fault),
                        Ok((None, more)) => Ok((parts, params + more)),
                        Ok((Some(sql), more)) => Ok(
                            (
                                parts.push(
                                    if child is Group {
                                        "("@ + sql + ")"@
                                    } else {
                                        sql
                                    },
                                ),
                                params + more,
                            ),
                        ),
                    },
                }
            },
            _ => Ok((Seq::empty(), Seq::empty())),
        }
    }

    /// The `ORDER BY` body of the first `n` sort clauses, as a list of parts.
    pub open spec fn order_parts(self, sort: Seq<SortView>, n: nat) -> Result<
        Seq<Seq<char>>,
        BuildErrorView,
    >
        decreases n,
    {
        if n == 0 || n > sort.len() {
            Ok(Seq::empty())
        } else {
            match self.order_parts(sort, (n - 1) as nat) {
                Err(fault) => Err(fault),
                Ok(parts) => if !self.columns.contains_key(sort[n - 1].field) {
                    Err(BuildErrorView::UnmappedField(sort[n - 1].field))
                } else {
                    Ok(
                        parts.push(
                            self.columns[sort[n - 1].field] + " "@ + direction_text(
                                sort[n - 1].direction,
                            ),
                        ),
                    )
                },
            }
        }
    }

    /// The `ORDER BY` body of a sort, if there is one.
    pub open spec fn order_by(self, sort: Seq<SortView>) -> Result<
        Option<Seq<char>>,
        BuildErrorView,
    > {
        match self.order_parts(sort, sort.len()) {
            Err(fault) => Err(fault),
            Ok(parts) => Ok(
                if sort.len() == 0 {
                    None
                } else {
                    Some(joined(parts, ", "@))
                },
            ),
        }
    }
}

pub open spec fn joiner(operator: BoolOperator) -> Seq<char> {
    match operator {
        BoolOperator::And => " AND "@,
        BoolOperator::Or => " OR "@,
    }
}

pub open spec fn direction_text(direction: SortDirection) -> Seq<char> {
    match direction {
        SortDirection::Asc => "ASC"@,
        SortDirection::Desc => "DESC"@,
    }
}

/// The sign of a scalar comparison.
pub open spec fn comparison_sign(operator: FilterOperator) -> Seq<char> {
    match operator {
        FilterOperator::Eq => "="@,
        FilterOperator::Ne => "<>"@,
        FilterOperator::Gt => ">"@,
        FilterOperator::Gte => ">="@,
        FilterOperator::Lt => "<"@,
        _ => "<="@,
    }
}

pub open spec fn is_wildcard(c: char) -> bool {
    c == '\\' || c == '%' || c == '_'
}

/// `text` with a backslash before each character that a pattern would not take
/// literally.
pub open spec fn escaped(text: Seq<char>) -> Seq<char>
    decreases text.len(),
{
    if text.len() == 0 {
        Seq::empty()
    } else if is_wildcard(text.last()) {
        escaped(text.drop_last()).push('\\').push(text.last())
    } else {
        escaped(text.drop_last()).push(text.last())
    }
}

/// The pattern of a substring, prefix or suffix match.
pub open spec fn wrapped_pattern(operator: FilterOperator, text: Seq<char>) -> Seq<char> {
    match operator {
        FilterOperator::Contains => "%"@ + escaped(text) + "%"@,
        FilterOperator::StartsWith => escaped(text) + "%"@,
        _ => "%"@ + escaped(text),
    }
}

/// How many parameters one condition binds.
pub open spec fn condition_binds(
    operator: FilterOperator,
    value: ValueView,
    dialect: Dialect,
) -> nat {
    match value {
        ValueView::List(scalars) => match dialect {
            Dialect::Postgres => 1,
            Dialect::Sqlite => scalars.len(),
        },
        ValueView::Scalar(ScalarView::Null) if operator == FilterOperator::Eq || operator
            == FilterOperator::Ne => 0,
        _ => 1,
    }
}

/// How many parameters the first `n` conditions of a group bind.
pub open spec fn binds_within(tree: FilterTree, n: nat, dialect: Dialect) -> nat
    decreases tree, n,
{
    match tree {
        FilterTree::Condition { field, operator, value } => condition_binds(
            operator,
            value,
            dialect,
        ),
        FilterTree::Group { operator, conditions } => if n == 0 || n > conditions.len() {
            0
        } else {
            binds_within(tree, (n - 1) as nat, dialect) + binds_within(
                conditions[n - 1],
                conditions[n - 1].width(),
                dialect,
            )
        },
    }
}

/// How many parameters a filter binds.
pub open spec fn binds(tree: FilterTree, dialect: Dialect) -> nat {
    binds_within(tree, tree.width(), dialect)
}

/// A compiled query by its views.
pub struct FragmentView {
    pub where_clause: Option<Seq<char>>,
    pub order_by: Option<Seq<char>>,
    pub limit: u32,
    pub params: Seq<ParamView>,
}

impl View for SqlFragment {
    type V = FragmentView;

    open spec fn view(&self) -> FragmentView {
        FragmentView {
            where_clause: optional_text(self.where_clause),
            order_by: optional_text(self.order_by),
            limit: self.limit,
            params: param_views(self.params@),
        }
    }
}

/// The fragment that a query compiles to.
pub open spec fn compiled(
    query: ListQueryView,
    columns: Map<Seq<char>, Seq<char>>,
    dialect: Dialect,
    options: CompileOptions,
) -> Result<FragmentView, BuildErrorView> {
    let settings = RenderSettings::of(columns, dialect, options);
    match settings.filter(query.filter, first_index(options.start_param as nat)) {
        Err(fault) => Err(fault),
        Ok((where_clause, params)) => match settings.order_by(query.sort) {
            Err(fault) => Err(fault),
            Ok(order_by) => Ok(
                FragmentView { where_clause, order_by, limit: query.page.size(), params },
            ),
        },
    }
}

/// The parameters of a rendered filter are as many as it binds.
pub proof fn lemma_param_count(settings: RenderSettings, tree: FilterTree, next: nat)
    requires
        settings.filter(tree, next) is Ok,
    ensures
        settings.filter(tree, next)->Ok_0.1.len() == binds(tree, settings.dialect),
    decreases tree, tree.width() + 1,
{
    if tree is Group {
        lemma_parts_param_count(settings, tree, tree.width(), next);
    }
}

proof fn lemma_parts_param_count(settings: RenderSettings, tree: FilterTree, n: nat, next: nat)
    requires
        tree is Group,
        n <= tree.width(),
        settings.parts(tree, n, next) is Ok,
    ensures
        settings.parts(tree, n, next)->Ok_0.1.len() == binds_within(tree, n, settings.dialect),
    decreases tree, n,
{
    if n > 0 {
        lemma_parts_param_count(settings, tree, (n - 1) as nat, next);
        let params = settings.parts(tree, (n - 1) as nat, next)->Ok_0.1;
        lemma_param_count(settings, tree->Group_conditions[n - 1], next + params.len());
    }
}

/// `text` with a backslash before each wildcard character.
fn escape_like(text: &str) -> (out: String)
    ensures
        out@ == escaped(text@),
{
    let chars = chars_of(text);
    let mut out = String::new();
    let mut i: usize = 0;
    assert(out@ =~= escaped(chars@.take(0)));
    while i < chars.len()
        invariant
            i <= chars@.len(),
            out@ == escaped(chars@.take(i as int)),
        decreases chars@.len() - i,
    {
        let c = chars[i];
        assert(chars@.take(i + 1).drop_last() =~= chars@.take(i as int));
        if c == '\\' || c == '%' || c == '_' {
            out.push('\\');
        }
        out.push(c);
        i += 1;
    }
    assert(chars@.take(chars@.len() as int) =~= chars@);
    out
}

/// The pattern of a substring, prefix or suffix match.
fn like_pattern(operator: FilterOperator, text: &str) -> (pattern: String)
    ensures
        pattern@ == wrapped_pattern(operator, text@),
{
    let escaped_text = escape_like(text);
    match operator {
        FilterOperator::Contains => "%".to_owned().concat(escaped_text.as_str()).concat("%"),
        FilterOperator::StartsWith => escaped_text.concat("%"),
        _ => "%".to_owned().concat(escaped_text.as_str()),
    }
}

fn check_scalar_bounds(field: &str, scalar: &FilterScalar, opts: &CompileOptions) -> (r: Result<
    (),
    QueryBuildError,
>)
    ensures
        forall|settings: RenderSettings|
            settings.max_string_len == opts.max_string_len ==> match r {
                Ok(()) => #[trigger] settings.scalar_fault(field@, scalar@) is None,
                Err(error) => settings.scalar_fault(field@, scalar@) == Some(error@),
            },
{
    match scalar {
        FilterScalar::String(text) => {
            let len: usize = text.as_str().unicode_len();
            if len > opts.max_string_len {
                Err(
                    QueryBuildError::StringTooLong {
                        field: field.to_owned(),
                        len,
                        max: opts.max_string_len,
                    },
                )
            } else {
                Ok(())
            }
        },
        _ => Ok(()),
    }
}

fn check_set_bounds(field: &str, scalars: &Vec<FilterScalar>, opts: &CompileOptions) -> (r: Result<
    (),
    QueryBuildError,
>)
    ensures
        forall|settings: RenderSettings|
            settings.max_string_len == opts.max_string_len && settings.max_array_size
                == opts.max_array_size ==> match r {
                Ok(()) => #[trigger] settings.set_fault(field@, scalar_views(scalars@)) is None,
                Err(error) => settings.set_fault(field@, scalar_views(scalars@)) == Some(error@),
            },
{
    if scalars.len() > opts.max_array_size {
        return Err(
            QueryBuildError::ArrayTooLarge {
                field: field.to_owned(),
                size: scalars.len(),
                max: opts.max_array_size,
            },
        );
    }
    let ghost all = scalar_views(scalars@);
    let mut i: usize = 0;
    assert(all.skip(0) =~= all);
    while i < scalars.len()
        invariant
            i <= scalars@.len() <= opts.max_array_size,
            all == scalar_views(scalars@),
            forall|settings: RenderSettings|
                settings.max_string_len == opts.max_string_len && settings.max_array_size
                    == opts.max_array_size ==> #[trigger] settings.set_fault(field@, all)
                    == settings.list_fault(field@, all.skip(i as int)),
        decreases scalars@.len() - i,
    {
        assert(all.skip(i as int)[0] == scalars@[i as int]@);
        assert(all.skip(i as int).drop_first() =~= all.skip(i + 1));
        if let Err(error) = check_scalar_bounds(field, &scalars[i], opts) {
            return Err(error);
        }
        i += 1;
    }
    Ok(())
}

/// The parameters that carry the scalars of a set.
fn params_of_set(scalars: &Vec<FilterScalar>) -> (params: Vec<FilterParam>)
    ensures
        param_views(params@) == scalar_params(scalar_views(scalars@)),
{
    let mut params: Vec<FilterParam> = Vec::new();
    let mut i: usize = 0;
    while i < scalars.len()
        invariant
            i <= scalars@.len(),
            params@.len() == i,
            forall|k: int|
                0 <= k < i ==> (#[trigger] params@[k])@ == scalar_param(scalars@[k]@),
        decreases scalars@.len() - i,
    {
        params.push(FilterParam::from_scalar(&scalars[i]));
        i += 1;
    }
    assert(param_views(params@) =~= scalar_params(scalar_views(scalars@)));
    params
}

/// The value of an array parameter is the sequence of its items' values.
proof fn lemma_array_param(items: Vec<FilterParam>)
    ensures
        param_of(FilterParam::Array(items)) == ParamView::Array(param_views(items@)),
{
    assert(param_of(FilterParam::Array(items))->Array_0 =~= param_views(items@));
}

/// Render set membership.
fn render_set(
    column: &str,
    scalars: &Vec<FilterScalar>,
    negated: bool,
    dialect: Dialect,
    params: &mut ParamBuilder,
) -> (sql: String)
    requires
        old(params)@.dialect == dialect,
    ensures
        forall|settings: RenderSettings|
            settings.dialect == dialect ==> {
                let (text, more) = #[trigger] settings.set_sql(
                    column@,
                    scalar_views(scalars@),
                    negated,
                    old(params)@.next,
                );
                sql@ == text && final(params)@ == old(params)@.with(more)
            },
{
    let ghost all = scalar_views(scalars@);
    if dialect.binds_set_as_array() {
        let items = params_of_set(scalars);
        proof {
            lemma_array_param(items);
        }
        let placeholder = params.bind(FilterParam::Array(items));
        column.to_owned().concat(
            if negated {
                " != ALL("
            } else {
                " = ANY("
            },
        ).concat(placeholder.as_str()).concat(")")
    } else if scalars.len() == 0 {
        assert(params@ == old(params)@.with(Seq::empty())) by {
            assert(old(params)@.params + Seq::<ParamView>::empty() =~= old(params)@.params);
        }
        if negated {
            "1 = 1".to_owned()
        } else {
            "1 = 0".to_owned()
        }
    } else {
        let mut placeholders: Vec<String> = Vec::new();
        let mut i: usize = 0;
        let ghost start = params@;
        assert(start == start.with(scalar_params(all.take(0)))) by {
            assert(start.params + scalar_params(all.take(0)) =~= start.params);
        }
        while i < scalars.len()
            invariant
                i <= scalars@.len(),
                placeholders@.len() == i,
                all == scalar_views(scalars@),
                start.dialect == dialect,
                dialect == Dialect::Sqlite,
                params@ == start.with(scalar_params(all.take(i as int))),
                forall|k: int|
                    0 <= k < i ==> (#[trigger] placeholders@[k])@ == dialect.placeholder_text(
                        (start.next + k) as nat,
                    ),
            decreases scalars@.len() - i,
        {
            placeholders.push(params.bind(FilterParam::from_scalar(&scalars[i])));
            i += 1;
            proof {
                assert(scalar_params(all.take(i as int)) =~= scalar_params(all.take(i - 1)).push(
                    scalar_param(all[i - 1]),
                ));
                assert(params@.params =~= start.params + scalar_params(all.take(i as int)));
            }
        }
        proof {
            assert(all.take(all.len() as int) =~= all);
            assert forall|settings: RenderSettings| settings.dialect == dialect implies texts(
                placeholders@,
            ) == #[trigger] settings.placeholders(start.next, all.len()) by {
                assert(texts(placeholders@) =~= settings.placeholders(start.next, all.len()));
            }
        }
        let list = join(&placeholders, ", ");
        column.to_owned().concat(
            if negated {
                " NOT IN ("
            } else {
                " IN ("
            },
        ).concat(list.as_str()).concat(")")
    }
}

/// The sign of a scalar comparison.
fn sign_text(operator: FilterOperator) -> (sign: &'static str)
    ensures
        sign@ == comparison_sign(operator),
{
    match operator {
        FilterOperator::Eq => "=",
        FilterOperator::Ne => "<>",
        FilterOperator::Gt => ">",
        FilterOperator::Gte => ">=",
        FilterOperator::Lt => "<",
        _ => "<=",
    }
}

/// A comparison of a column with one bound parameter.
fn render_comparison(
    column: &str,
    keyword: &str,
    param: FilterParam,
    params: &mut ParamBuilder,
) -> (sql: String)
    ensures
        sql@ == column@ + " "@ + keyword@ + " "@ + old(params)@.dialect.placeholder_text(
            old(params)@.next,
        ),
        final(params)@ == old(params)@.with(seq![param@]),
{
    let placeholder = params.bind(param);
    column.to_owned().concat(" ").concat(keyword).concat(" ").concat(placeholder.as_str())
}

/// Render one condition, binding its values.
fn render_condition(
    field: &str,
    operator: FilterOperator,
    value: &FilterValue,
    map: &FieldMap,
    dialect: Dialect,
    opts: &CompileOptions,
    params: &mut ParamBuilder,
) -> (r: Result<String, QueryBuildError>)
    requires
        old(params)@.dialect == dialect,
    ensures
        ({
            let settings = RenderSettings::of(map@, dialect, *opts);
            match settings.condition(field@, operator, value@, old(params)@.next) {
                Ok((sql, more)) => r is Ok && r->Ok_0@ == sql && final(params)@ == old(
                    params,
                )@.with(more),
                Err(fault) => r is Err && r->Err_0@ == fault,
            }
        }),
{
    let ghost settings = RenderSettings::of(map@, dialect, *opts);
    let column = match map.resolve(field) {
        Ok(column) => column,
        Err(error) => return Err(error),
    };
    match operator {
        FilterOperator::In | FilterOperator::NotIn => match value {
            FilterValue::Scalar(_) => Err(
                QueryBuildError::ValueShapeMismatch {
                    field: field.to_owned(),
                    operator,
                    expected: ValueShape::List,
                },
            ),
            FilterValue::List(scalars) => {
                if let Err(error) = check_set_bounds(field, scalars, opts) {
                    assert(settings.set_fault(field@, scalar_views(scalars@)) == Some(error@));
                    return Err(error);
                }
                assert(settings.set_fault(field@, scalar_views(scalars@)) is None);
                let negated = operator == FilterOperator::NotIn;
                let ghost wanted = settings.set_sql(
                    column@,
                    scalar_views(scalars@),
                    negated,
                    params@.next,
                );
                Ok(render_set(column, scalars, negated, dialect, params))
            },
        },
        FilterOperator::Like
        | FilterOperator::Ilike
        | FilterOperator::Contains
        | FilterOperator::StartsWith
        | FilterOperator::EndsWith => match value {
            FilterValue::Scalar(FilterScalar::String(text)) => {
                let scalar = FilterScalar::String(text.clone());
                if let Err(error) = check_scalar_bounds(field, &scalar, opts) {
                    assert(settings.scalar_fault(field@, scalar@) == Some(error@));
                    return Err(error);
                }
                assert(settings.scalar_fault(field@, scalar@) is None);
                match operator {
                    FilterOperator::Like => Ok(
                        render_comparison(
                            column,
                            "LIKE",
                            FilterParam::String(text.clone()),
                            params,
                        ),
                    ),
                    FilterOperator::Ilike => Ok(
                        render_comparison(
                            column,
                            dialect.ilike_keyword(),
                            FilterParam::String(text.clone()),
                            params,
                        ),
                    ),
                    _ => {
                        // Case-insensitive substring, prefix or suffix match. ESCAPE
                        // makes the wrapped value's `% _ \` literal.
                        let pattern = like_pattern(operator, text.as_str());
                        let sql = render_comparison(
                            column,
                            dialect.ilike_keyword(),
                            FilterParam::String(pattern),
                            params,
                        );
                        Ok(sql.concat(" ESCAPE '\\'"))
                    },
                }
            },
            _ => Err(
                QueryBuildError::ValueShapeMismatch {
                    field: field.to_owned(),
                    operator,
                    expected: ValueShape::StringScalar,
                },
            ),
        },
        _ => match value {
            FilterValue::List(_) => Err(
                QueryBuildError::ValueShapeMismatch {
                    field: field.to_owned(),
                    operator,
                    expected: ValueShape::Scalar,
                },
            ),
            FilterValue::Scalar(scalar) => {
                let null = match scalar {
                    FilterScalar::Null => true,
                    _ => false,
                };
                if null && (operator == FilterOperator::Eq || operator == FilterOperator::Ne) {
                    assert(old(params)@.params + Seq::<ParamView>::empty() =~= old(params)@.params);
                    return Ok(
                        column.to_owned().concat(
                            if operator == FilterOperator::Eq {
                                " IS NULL"
                            } else {
                                " IS NOT NULL"
                            },
                        ),
                    );
                }
                if let Err(error) = check_scalar_bounds(field, scalar, opts) {
                    assert(settings.scalar_fault(field@, scalar@) == Some(error@));
                    return Err(error);
                }
                assert(settings.scalar_fault(field@, scalar@) is None);
                Ok(
                    render_comparison(
                        column,
                        sign_text(operator),
                        FilterParam::from_scalar(scalar),
                        params,
                    ),
                )
            },
        },
    }
}

/// Whether a node is a group.
fn is_group(node: &FilterNode) -> (group: bool)
    ensures
        group == (node@ is Group),
{
    match node {
        FilterNode::Condition { field: _, operator: _, value: _ } => false,
        FilterNode::Group { operator: _, conditions: _ } => true,
    }
}

/// Render a filter, binding its values.
fn render_node(
    node: &FilterNode,
    map: &FieldMap,
    dialect: Dialect,
    opts: &CompileOptions,
    params: &mut ParamBuilder,
) -> (r: Result<Option<String>, QueryBuildError>)
    requires
        old(params)@.dialect == dialect,
    ensures
        ({
            let settings = RenderSettings::of(map@, dialect, *opts);
            match settings.filter(node@, old(params)@.next) {
                Ok((sql, more)) => r is Ok && optional_text(r->Ok_0)
                    == sql && final(params)@ == old(params)@.with(more),
                Err(fault) => r is Err && r->Err_0@ == fault,
            }
        }),
    decreases node,
{
    let ghost settings = RenderSettings::of(map@, dialect, *opts);
    match node {
        FilterNode::Condition { field, operator, value } => {
            match render_condition(field.as_str(), *operator, value, map, dialect, opts, params) {
                Ok(sql) => Ok(Some(sql)),
                Err(error) => Err(error),
            }
        },
        FilterNode::Group { operator, conditions } => {
            let ghost tree = node@;
            let ghost start = params@;
            let ghost next = start.next;
            let mut parts: Vec<String> = Vec::new();
            let mut i: usize = 0;
            proof {
                lemma_group_tree(*operator, *conditions);
                assert(texts(parts@) =~= Seq::empty());
                assert(start.params + Seq::<ParamView>::empty() =~= start.params);
            }
            while i < conditions.len()
                invariant
                    i <= conditions@.len(),
                    decreases_to!(node => conditions),
                    settings == RenderSettings::of(map@, dialect, *opts),
                    tree == node@,
                    tree == (FilterTree::Group {
                        operator: *operator,
                        conditions: tree_views(conditions@),
                    }),
                    start.dialect == dialect,
                    start == old(params)@,
                    next == start.next,
                    settings.parts(tree, i as nat, next) is Ok,
                    settings.parts(tree, i as nat, next)->Ok_0.0 == texts(parts@),
                    params@ == start.with(settings.parts(tree, i as nat, next)->Ok_0.1),
                decreases conditions@.len() - i,
            {
                let child = &conditions[i];
                let ghost before = parts@;
                let ghost bound = settings.parts(tree, i as nat, next)->Ok_0.1;
                proof {
                    assert(tree_views(conditions@)[i as int] == child@);
                    lemma_parts_fault(settings, tree, (i + 1) as nat, next);
                }
                match render_node(child, map, dialect, opts, params) {
                    Err(error) => return Err(error),
                    Ok(None) => {},
                    Ok(Some(sql)) => {
                        let part = if is_group(child) {
                            "(".to_owned().concat(sql.as_str()).concat(")")
                        } else {
                            sql
                        };
                        parts.push(part);
                        assert(texts(parts@) =~= texts(before).push(part@));
                    },
                }
                proof {
                    let more = settings.filter(child@, next + bound.len())->Ok_0.1;
                    assert(start.params + bound + more =~= start.params + (bound + more));
                }
                i += 1;
            }
            if parts.len() == 0 {
                Ok(None)
            } else {
                Ok(
                    Some(
                        join(
                            &parts,
                            match operator {
                                BoolOperator::And => " AND ",
                                BoolOperator::Or => " OR ",
                            },
                        ),
                    ),
                )
            }
        },
    }
}

/// A fault among the first conditions of a group is the fault of the group.
proof fn lemma_parts_fault(settings: RenderSettings, tree: FilterTree, n: nat, next: nat)
    requires
        tree is Group,
        n <= tree.width(),
    ensures
        settings.parts(tree, n, next) is Err ==> settings.parts(tree, tree.width(), next)
            == settings.parts(tree, n, next),
    decreases tree.width() - n,
{
    if n < tree.width() {
        lemma_parts_fault(settings, tree, n + 1, next);
    }
}

/// Render a sort spec into an `ORDER BY` body (without the keyword). `None` when
/// there are no clauses.
pub(crate) fn render_order_by(sort: &Vec<SortClause>, map: &FieldMap) -> (r: Result<
    Option<String>,
    QueryBuildError,
>)
    ensures
        forall|settings: RenderSettings|
            settings.columns == map@ ==> match r {
                Ok(body) => #[trigger] settings.order_by(sort_views(sort@)) == Ok::<
                    Option<Seq<char>>,
                    BuildErrorView,
                >(optional_text(body)),
                Err(error) => settings.order_by(sort_views(sort@)) == Err::<
                    Option<Seq<char>>,
                    BuildErrorView,
                >(error@),
            },
{
    broadcast use lemma_texts_push;

    let ghost all = sort_views(sort@);
    let mut parts: Vec<String> = Vec::new();
    let mut i: usize = 0;
    assert(texts(parts@) =~= Seq::empty());
    while i < sort.len()
        invariant
            i <= sort@.len(),
            all == sort_views(sort@),
            forall|settings: RenderSettings|
                settings.columns == map@ ==> #[trigger] settings.order_parts(all, i as nat) == Ok::<
                    Seq<Seq<char>>,
                    BuildErrorView,
                >(texts(parts@)),
        decreases sort@.len() - i,
    {
        let clause = &sort[i];
        assert(all[i as int] == clause@);
        let ghost before = parts@;
        match map.resolve(clause.field.as_str()) {
            Err(error) => {
                assert forall|settings: RenderSettings| settings.columns == map@ implies
                    #[trigger] settings.order_by(all) == Err::<Option<Seq<char>>, BuildErrorView>(
                    error@,
                ) by {
                    assert(settings.order_parts(all, i as nat) is Ok);
                    lemma_order_fault(settings, all, (i + 1) as nat);
                }
                return Err(error);
            },
            Ok(column) => {
                let part = column.to_owned().concat(" ").concat(
                    match clause.direction {
                        SortDirection::Asc => "ASC",
                        SortDirection::Desc => "DESC",
                    },
                );
                parts.push(part);
                assert(texts(parts@) =~= texts(before).push(part@));
                assert(part@ == map@[clause@.field] + " "@ + direction_text(clause@.direction));
                i += 1;
                assert forall|settings: RenderSettings| settings.columns == map@ implies
                    #[trigger] settings.order_parts(all, i as nat) == Ok::<
                    Seq<Seq<char>>,
                    BuildErrorView,
                >(texts(parts@)) by {
                    assert(settings.order_parts(all, (i - 1) as nat) == Ok::<
                        Seq<Seq<char>>,
                        BuildErrorView,
                    >(texts(before)));
                }
            },
        }
    }
    assert forall|settings: RenderSettings| settings.columns == map@ implies #[trigger] settings.order_by(
        all,
    ) is Ok by {
        assert(settings.order_parts(all, all.len()) is Ok);
    }
    if sort.len() == 0 {
        Ok(None)
    } else {
        let body = join(&parts, ", ");
        assert forall|settings: RenderSettings| settings.columns == map@ implies
            #[trigger] settings.order_by(all) == Ok::<Option<Seq<char>>, BuildErrorView>(
            Some(body@),
        ) by {
            assert(settings.order_parts(all, all.len()) == Ok::<Seq<Seq<char>>, BuildErrorView>(
                texts(parts@),
            ));
        }
        Ok(Some(body))
    }
}

proof fn lemma_order_fault(settings: RenderSettings, sort: Seq<SortView>, n: nat)
    requires
        n <= sort.len(),
    ensures
        settings.order_parts(sort, n) is Err ==> settings.order_parts(sort, sort.len())
            == settings.order_parts(sort, n),
    decreases sort.len() - n,
{
    if n < sort.len() {
        lemma_order_fault(settings, sort, n + 1);
    }
}

/// Compile a validated list query into a SQL fragment for `dialect`.
pub fn compile(
    query: &ListQuery,
    map: &FieldMap,
    dialect: Dialect,
    opts: &CompileOptions,
) -> (r: Result<SqlFragment, QueryBuildError>)
    ensures
        match r {
            Ok(fragment) => compiled(query@, map@, dialect, *opts) == Ok::<
                FragmentView,
                BuildErrorView,
            >(fragment@),
            Err(error) => compiled(query@, map@, dialect, *opts) == Err::<
                FragmentView,
                BuildErrorView,
            >(error@),
        },
{
    let ghost settings = RenderSettings::of(map@, dialect, *opts);
    let mut params = dialect.params(opts.start_param);
    let where_clause = match render_node(&query.filter, map, dialect, opts, &mut params) {
        Ok(where_clause) => where_clause,
        Err(error) => return Err(error),
    };
    let ghost ordered = settings.order_by(sort_views(query.sort@));
    let order_by = match render_order_by(&query.sort, map) {
        Ok(order_by) => order_by,
        Err(error) => return Err(error),
    };
    let fragment = SqlFragment {
        where_clause,
        order_by,
        limit: query.page.size(),
        params: params.into_params(),
    };
    proof {
        let bound = settings.filter(
            query@.filter,
            first_index(opts.start_param as nat),
        )->Ok_0.1;
        assert(Seq::<ParamView>::empty() + bound =~= bound);
    }
    Ok(fragment)
}

} // verus!

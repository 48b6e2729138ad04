//! Grouped pagination.
//!
//! Compiles a filtered/sorted query that partitions rows by a grouping key,
//! producing the building blocks for a windowed query: the filter, the partition
//! column, and the per-group `ROW_NUMBER` / `COUNT` window expressions. The
//! consumer assembles the final `SELECT` and binds the parameters.
use crate::api_contract::page::optional_text;
use crate::api_contract::query::{ListQuery, ListQueryView, QuerySchema, SchemaView};
use crate::query::compile::{compile, compiled};
use crate::query::dialect::Dialect;
use crate::query::fragment::{
    param_views, BuildErrorView, CompileOptions, FieldMap, FilterParam, ParamView, QueryBuildError,
};
use vstd::prelude::*;
use vstd::string::*;

verus! {

/// A list query plus the field its rows are grouped by. The base query's sort
/// applies within each group, and its page size is the per-group limit.
#[derive(Clone, Debug, PartialEq)]
pub struct GroupedQuery {
    pub base: ListQuery,
    pub group_by: String,
}

impl GroupedQuery {
    pub fn new(base: ListQuery, group_by: &str) -> (query: Self)
        ensures
            query.base == base,
            query.group_by@ == group_by@,
    {
        GroupedQuery { base, group_by: group_by.to_owned() }
    }
}

/// Compiled fragments for a grouped query. Window functions are standard in
/// PostgreSQL and SQLite, so these render the same for both dialects.
#[derive(Clone, Debug, PartialEq)]
pub struct GroupedSqlFragment {
    pub where_clause: Option<String>,
    pub group_column: String,
    /// `ORDER BY` body used to order rows within each partition (`None` when the
    /// base query has no sort).
    pub partition_order_by: Option<String>,
    pub per_group_limit: u32,
    pub params: Vec<FilterParam>,
}

/// A [`GroupedSqlFragment`] by its views.
pub struct GroupedView {
    pub where_clause: Option<Seq<char>>,
    pub group_column: Seq<char>,
    pub partition_order_by: Option<Seq<char>>,
    pub per_group_limit: u32,
    pub params: Seq<ParamView>,
}

impl View for GroupedSqlFragment {
    type V = GroupedView;

    open spec fn view(&self) -> GroupedView {
        GroupedView {
            where_clause: optional_text(self.where_clause),
            group_column: self.group_column@,
            partition_order_by: optional_text(self.partition_order_by),
            per_group_limit: self.per_group_limit,
            params: param_views(self.params@),
        }
    }
}

impl GroupedView {
    pub open spec fn row_number(self, alias: Seq<char>) -> Seq<char> {
        let window = "PARTITION BY "@ + self.group_column + match self.partition_order_by {
            Some(order) => " ORDER BY "@ + order,
            None => Seq::empty(),
        };
        "ROW_NUMBER() OVER ("@ + window + ") AS "@ + alias
    }

    pub open spec fn group_total(self, alias: Seq<char>) -> Seq<char> {
        "COUNT(*) OVER (PARTITION BY "@ + self.group_column + ") AS "@ + alias
    }
}

impl GroupedSqlFragment {
    /// `ROW_NUMBER() OVER (PARTITION BY <group> ORDER BY <sort>) AS <alias>`: the
    /// per-group ordinal used to take the first N rows of each group.
    pub fn row_number_expr(&self, alias: &str) -> (sql: String)
        ensures
            sql@ == self@.row_number(alias@),
    {
        let mut window = "PARTITION BY ".to_owned().concat(self.group_column.as_str());
        if let Some(order) = &self.partition_order_by {
            window.append(" ORDER BY ");
            window.append(order.as_str());
        }
        let sql = "ROW_NUMBER() OVER (".to_owned().concat(window.as_str()).concat(
            ") AS ",
        ).concat(alias);
        assert(sql@ =~= self@.row_number(alias@));
        sql
    }

    /// `COUNT(*) OVER (PARTITION BY <group>) AS <alias>`: each group's full total,
    /// independent of the per-group page.
    pub fn group_total_expr(&self, alias: &str) -> (sql: String)
        ensures
            sql@ == self@.group_total(alias@),
    {
        "COUNT(*) OVER (PARTITION BY ".to_owned().concat(self.group_column.as_str()).concat(
            ") AS ",
        ).concat(alias)
    }
}

/// The fragments that a grouped query compiles to. The grouping key must be
/// allowed by the schema and mapped to a column.
pub open spec fn grouped(
    base: ListQueryView,
    group_by: Seq<char>,
    schema: SchemaView,
    columns: Map<Seq<char>, Seq<char>>,
    dialect: Dialect,
    options: CompileOptions,
) -> Result<GroupedView, BuildErrorView> {
    if !schema.groupable_fields.contains(group_by) {
        Err(BuildErrorView::UngroupableField(group_by))
    } else if !columns.contains_key(group_by) {
        Err(BuildErrorView::UnmappedField(group_by))
    } else {
        match compiled(base, columns, dialect, options) {
            Err(fault) => Err(fault),
            Ok(fragment) => Ok(
                GroupedView {
                    where_clause: fragment.where_clause,
                    group_column: columns[group_by],
                    partition_order_by: fragment.order_by,
                    per_group_limit: fragment.limit,
                    params: fragment.params,
                },
            ),
        }
    }
}

/// Compile a grouped query. The grouping key must be allowlisted by `schema` and
/// mapped by `map`; otherwise this fails closed.
pub fn compile_grouped(
    query: &GroupedQuery,
    schema: &QuerySchema,
    map: &FieldMap,
    dialect: Dialect,
    opts: &CompileOptions,
) -> (r: Result<GroupedSqlFragment, QueryBuildError>)
    ensures
        ({
            let wanted = grouped(
                query.base@,
                query.group_by@,
                schema@,
                map@,
                dialect,
                *opts,
            );
            match r {
                Ok(fragment) => wanted == Ok::<GroupedView, BuildErrorView>(fragment@),
                Err(error) => wanted == Err::<GroupedView, BuildErrorView>(error@),
            }
        }),
{
    if !schema.is_groupable(query.group_by.as_str()) {
        return Err(QueryBuildError::UngroupableField(query.group_by.clone()));
    }
    let group_column = match map.resolve(query.group_by.as_str()) {
        Ok(column) => column.to_owned(),
        Err(error) => return Err(error),
    };
    match compile(&query.base, map, dialect, opts) {
        Err(error) => Err(error),
        Ok(base) => Ok(
            GroupedSqlFragment {
                where_clause: base.where_clause,
                group_column,
                partition_order_by: base.order_by,
                per_group_limit: base.limit,
                params: base.params,
            },
        ),
    }
}

} // verus!

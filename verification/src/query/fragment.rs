//! Compile a validated list query into a parameterized SQL fragment.
//!
//! This module never emits a field name from the request: every column comes
//! from the author-controlled [`FieldMap`], and every value is a bound
//! parameter. The result is a fragment plus ordered parameters; it is never
//! executed here.
use crate::api_contract::numeral::Numeral;
use crate::api_contract::query::{
    FilterOperator, FilterScalar, QuerySchema, ScalarView, SchemaView,
};
use crate::text::{digits, digits_text};
use crate::text_map::TextMap;
use vstd::prelude::*;
use vstd::string::*;

verus! {

/// A value bound to a placeholder. The consumer maps each variant onto its
/// driver's parameter type when executing.
#[derive(Debug, PartialEq)]
pub enum FilterParam {
    String(String),
    Number(Numeral),
    Bool(bool),
    Null,
    /// A whole set bound as one parameter (Postgres `= ANY($1)`).
    Array(Vec<FilterParam>),
}

/// A [`FilterParam`] by its views.
pub enum ParamView {
    String(Seq<char>),
    Number(Seq<char>),
    Bool(bool),
    Null,
    Array(Seq<ParamView>),
}

/// The value that a parameter is.
pub open spec fn param_of(param: FilterParam) -> ParamView
    decreases param,
{
    match param {
        FilterParam::String(text) => ParamView::String(text@),
        FilterParam::Number(numeral) => ParamView::Number(numeral@),
        FilterParam::Bool(b) => ParamView::Bool(b),
        FilterParam::Null => ParamView::Null,
        FilterParam::Array(items) => ParamView::Array(
            Seq::new(
                items@.len(),
                |i: int|
                    if 0 <= i < items@.len() {
                        param_of(items@[i])
                    } else {
                        arbitrary()
                    },
            ),
        ),
    }
}

impl View for FilterParam {
    type V = ParamView;

    open spec fn view(&self) -> ParamView {
        param_of(*self)
    }
}

/// The views of a sequence of parameters.
pub open spec fn param_views(params: Seq<FilterParam>) -> Seq<ParamView> {
    params.map_values(|param: FilterParam| param@)
}

impl Clone for FilterParam {
    fn clone(&self) -> (param: Self)
        ensures
            param@ == self@,
        decreases self,
    {
        match self {
            FilterParam::String(text) => FilterParam::String(text.clone()),
            FilterParam::Number(numeral) => FilterParam::Number(numeral.clone()),
            FilterParam::Bool(b) => FilterParam::Bool(*b),
            FilterParam::Null => FilterParam::Null,
            FilterParam::Array(items) => {
                let mut copies: Vec<FilterParam> = Vec::new();
                let mut i: usize = 0;
                while i < items.len()
                    invariant
                        i <= items@.len(),
                        copies@.len() == i,
                        forall|k: int| 0 <= k < i ==> (#[trigger] copies@[k])@ == items@[k]@,
                        decreases_to!(self => items),
                    decreases items@.len() - i,
                {
                    copies.push(items[i].clone());
                    i += 1;
                }
                let param = FilterParam::Array(copies);
                assert(param@->Array_0 =~= self@->Array_0);
                param
            },
        }
    }
}

/// The parameter that carries a scalar.
pub open spec fn scalar_param(scalar: ScalarView) -> ParamView {
    match scalar {
        ScalarView::String(text) => ParamView::String(text),
        ScalarView::Number(numeral) => ParamView::Number(numeral),
        ScalarView::Bool(b) => ParamView::Bool(b),
        ScalarView::Null => ParamView::Null,
    }
}

/// The parameters that carry several scalars.
pub open spec fn scalar_params(scalars: Seq<ScalarView>) -> Seq<ParamView> {
    scalars.map_values(|scalar: ScalarView| scalar_param(scalar))
}

impl FilterParam {
    /// The parameter that carries a scalar.
    pub fn from_scalar(scalar: &FilterScalar) -> (param: FilterParam)
        ensures
            param@ == scalar_param(scalar@),
    {
        match scalar {
            FilterScalar::String(text) => FilterParam::String(text.clone()),
            FilterScalar::Number(numeral) => FilterParam::Number(numeral.clone()),
            FilterScalar::Bool(b) => FilterParam::Bool(*b),
            FilterScalar::Null => FilterParam::Null,
        }
    }
}

/// The value shape an operator expected.
#[derive(Clone, Copy, Debug, PartialEq, Eq, Structural)]
pub enum ValueShape {
    Scalar,
    StringScalar,
    List,
}

impl ValueShape {
    pub open spec fn label_text(self) -> Seq<char> {
        match self {
            ValueShape::Scalar => "scalar"@,
            ValueShape::StringScalar => "string"@,
            ValueShape::List => "list"@,
        }
    }

    /// The word that names the shape in a message.
    pub fn label(self) -> (label: &'static str)
        ensures
            label@ == self.label_text(),
    {
        match self {
            ValueShape::Scalar => "scalar",
            ValueShape::StringScalar => "string",
            ValueShape::List => "list",
        }
    }
}

/// Filter/sort compilation failure.
#[derive(Clone, Debug, PartialEq)]
#[allow(inconsistent_fields)]
pub enum QueryBuildError {
    UnmappedField(String),
    ValueShapeMismatch { field: String, operator: FilterOperator, expected: ValueShape },
    ArrayTooLarge { field: String, size: usize, max: usize },
    StringTooLong { field: String, len: usize, max: usize },
    InvalidCursor(String),
    UngroupableField(String),
}

/// A [`QueryBuildError`] with its texts as character sequences.
pub enum BuildErrorView {
    UnmappedField(Seq<char>),
    ValueShapeMismatch { field: Seq<char>, operator: FilterOperator, expected: ValueShape },
    ArrayTooLarge { field: Seq<char>, size: nat, max: nat },
    StringTooLong { field: Seq<char>, len: nat, max: nat },
    InvalidCursor(Seq<char>),
    UngroupableField(Seq<char>),
}

impl View for QueryBuildError {
    type V = BuildErrorView;

    open spec fn view(&self) -> BuildErrorView {
        match *self {
            QueryBuildError::UnmappedField(field) => BuildErrorView::UnmappedField(field@),
            QueryBuildError::ValueShapeMismatch { field, operator, expected } =>
                BuildErrorView::ValueShapeMismatch { field: field@, operator, expected },
            QueryBuildError::ArrayTooLarge { field, size, max } => BuildErrorView::ArrayTooLarge {
                field: field@,
                size: size as nat,
                max: max as nat,
            },
            QueryBuildError::StringTooLong { field, len, max } => BuildErrorView::StringTooLong {
                field: field@,
                len: len as nat,
                max: max as nat,
            },
            QueryBuildError::InvalidCursor(text) => BuildErrorView::InvalidCursor(text@),
            QueryBuildError::UngroupableField(field) => BuildErrorView::UngroupableField(field@),
        }
    }
}

/// Default maximum element count in an `in` / `not_in` set.
pub const DEFAULT_MAX_ARRAY_SIZE: usize = 100;

/// Default maximum length of a string value.
pub const DEFAULT_MAX_STRING_LENGTH: usize = 1000;

/// Build-time bounds and parameter numbering.
#[derive(Clone, Copy, Debug, PartialEq, Eq, Structural)]
pub struct CompileOptions {
    /// Maximum element count in an `in` / `not_in` set.
    pub max_array_size: usize,
    /// Maximum length of a string value.
    pub max_string_len: usize,
    /// 1-based index of the first bound parameter, so callers can compose this
    /// fragment after their own leading parameters (e.g. a tenancy predicate).
    pub start_param: usize,
}

impl Default for CompileOptions {
    fn default() -> (options: Self)
        ensures
            options == (CompileOptions {
                max_array_size: 100,
                max_string_len: 1000,
                start_param: 1,
            }),
    {
        CompileOptions {
            max_array_size: DEFAULT_MAX_ARRAY_SIZE,
            max_string_len: DEFAULT_MAX_STRING_LENGTH,
            start_param: 1,
        }
    }
}

/// Compiled SQL fragment. `where_clause` and `order_by` are `None` when the
/// query carries no filter / no sort, so the consumer can omit the clause.
#[derive(Clone, Debug, PartialEq)]
pub struct SqlFragment {
    pub where_clause: Option<String>,
    pub order_by: Option<String>,
    pub limit: u32,
    pub params: Vec<FilterParam>,
}

impl SqlFragment {
    /// Number of bound parameters in this fragment.
    pub fn param_count(&self) -> (count: usize)
        ensures
            count == self.params@.len(),
    {
        self.params.len()
    }
}

/// Logical field to physical column (or SQL expression) mapping.
///
/// The column side is author-controlled and emitted verbatim, so it may be a
/// qualified name (`t.created_at`) or an expression. It must never be derived
/// from request input. A field absent from the map is rejected rather than
/// passed through, so a request can never name a storage column directly.
#[derive(Clone, Debug, PartialEq, Eq)]
pub struct FieldMap {
    columns: TextMap<String>,
}

impl View for FieldMap {
    type V = Map<Seq<char>, Seq<char>>;

    closed spec fn view(&self) -> Map<Seq<char>, Seq<char>> {
        self.columns@.map_values(|column: String| column@)
    }
}

impl FieldMap {
    pub fn new() -> (map: Self)
        ensures
            map@ == Map::<Seq<char>, Seq<char>>::empty(),
    {
        let map = FieldMap { columns: TextMap::new() };
        assert(map@ =~= Map::<Seq<char>, Seq<char>>::empty());
        map
    }

    /// Map a logical field to a physical column or SQL expression.
    pub fn column(self, field: &str, column: &str) -> (map: Self)
        ensures
            map@ == self@.insert(field@, column@),
    {
        let map = FieldMap { columns: self.columns.insert(field, column.to_owned()) };
        assert(map@ =~= self@.insert(field@, column@));
        map
    }

    /// Identity map over every field the schema allowlists (filter, sort, and
    /// group fields map to a column of the same name). Override specific columns
    /// afterwards with [`FieldMap::column`].
    pub fn from_schema(schema: &QuerySchema) -> (map: Self)
        ensures
            map@ == identity_columns(schema@),
    {
        let filters = schema.filter_field_names();
        let sorts = schema.sortable_field_names();
        let groups = schema.groupable_field_names();
        let map = FieldMap::new().with_identity(&filters).with_identity(&sorts).with_identity(
            &groups,
        );
        assert(map@ =~= identity_columns(schema@)) by {
            assert forall|field: Seq<char>| #[trigger] map@.contains_key(field)
                <==> identity_columns(schema@).contains_key(field) by {
                assert(schema@.filter_fields.contains_key(field) <==> filters@.map_values(
                    |n: &str| n@,
                ).contains(field));
                assert(schema@.sortable_fields.contains(field) <==> sorts@.map_values(
                    |n: &str| n@,
                ).contains(field));
                assert(schema@.groupable_fields.contains(field) <==> groups@.map_values(
                    |n: &str| n@,
                ).contains(field));
            }
        }
        map
    }

    /// Map each of the names to itself.
    fn with_identity(self, names: &Vec<&str>) -> (map: Self)
        ensures
            forall|field: Seq<char>| #[trigger]
                map@.contains_key(field) <==> self@.contains_key(field) || names@.map_values(
                    |n: &str| n@,
                ).contains(field),
            forall|field: Seq<char>|
                names@.map_values(|n: &str| n@).contains(field) ==> #[trigger] map@[field] == field,
            forall|field: Seq<char>|
                self@.contains_key(field) && self@[field] == field ==> #[trigger] map@[field]
                    == field,
    {
        let ghost all = names@.map_values(|n: &str| n@);
        let ghost before = self@;
        let mut map = self;
        let mut i: usize = 0;
        while i < names.len()
            invariant
                i <= names@.len(),
                all == names@.map_values(|n: &str| n@),
                forall|field: Seq<char>| #[trigger]
                    map@.contains_key(field) <==> before.contains_key(field) || all.take(
                        i as int,
                    ).contains(field),
                forall|field: Seq<char>|
                    all.take(i as int).contains(field) ==> #[trigger] map@[field] == field,
                forall|field: Seq<char>|
                    before.contains_key(field) && before[field] == field ==> #[trigger] map@[field]
                        == field,
            decreases names@.len() - i,
        {
            let name = names[i];
            proof {
                assert(all.take(i + 1) =~= all.take(i as int).push(name@));
                assert forall|field: Seq<char>| #[trigger]
                    all.take(i + 1).contains(field) <==> all.take(i as int).contains(field)
                        || field == name@ by {
                    let longer = all.take(i + 1);
                    let shorter = all.take(i as int);
                    if longer.contains(field) {
                        let k = choose|k: int| 0 <= k < longer.len() && longer[k] == field;
                        if k < i {
                            assert(shorter[k] == field);
                        }
                    }
                    if shorter.contains(field) {
                        let k = choose|k: int| 0 <= k < shorter.len() && shorter[k] == field;
                        assert(longer[k] == field);
                    }
                    assert(longer[i as int] == name@);
                }
            }
            map = map.column(name, name);
            i += 1;
        }
        assert(all.take(all.len() as int) =~= all);
        map
    }

    /// The column of a field.
    pub(crate) fn resolve(&self, field: &str) -> (r: Result<&str, QueryBuildError>)
        ensures
            match r {
                Ok(column) => self@.contains_key(field@) && column@ == self@[field@],
                Err(error) => !self@.contains_key(field@) && error@
                    == BuildErrorView::UnmappedField(field@),
            },
    {
        match self.columns.get(field) {
            Some(column) => Ok(column.as_str()),
            None => Err(QueryBuildError::UnmappedField(field.to_owned())),
        }
    }
}

impl Default for FieldMap {
    fn default() -> (map: Self)
        ensures
            map@ == Map::<Seq<char>, Seq<char>>::empty(),
    {
        FieldMap::new()
    }
}

/// Every field that the schema names, mapped to itself.
pub open spec fn identity_columns(schema: SchemaView) -> Map<Seq<char>, Seq<char>> {
    Map::new(
        |field: Seq<char>|
            schema.filter_fields.contains_key(field) || schema.sortable_fields.contains(field)
                || schema.groupable_fields.contains(field),
        |field: Seq<char>| field,
    )
}

impl BuildErrorView {
    /// The text that a person reads of the error.
    pub open spec fn message(self) -> Seq<char> {
        match self {
            BuildErrorView::UnmappedField(field) => "field '"@ + field
                + "' is not mapped to a column"@,
            BuildErrorView::ValueShapeMismatch { field, operator, expected } => "operator '"@
                + operator.label_text() + "' on field '"@ + field + "' requires a "@
                + expected.label_text() + " value"@,
            BuildErrorView::ArrayTooLarge { field, size, max } => "set on field '"@ + field
                + "' has "@ + digits(size) + " elements, exceeding the maximum "@ + digits(max),
            BuildErrorView::StringTooLong { field, len, max } => "string on field '"@ + field
                + "' is "@ + digits(len) + " chars, exceeding the maximum "@ + digits(max),
            BuildErrorView::InvalidCursor(reason) => "invalid cursor: "@ + reason,
            BuildErrorView::UngroupableField(field) => "field '"@ + field
                + "' is not allowed as a grouping key"@,
        }
    }
}

impl QueryBuildError {
    /// The text that a person reads of the error.
    pub fn message(&self) -> (text: String)
        ensures
            text@ == self@.message(),
    {
        match self {
            QueryBuildError::UnmappedField(field) => "field '".to_owned().concat(
                field.as_str(),
            ).concat("' is not mapped to a column"),
            QueryBuildError::ValueShapeMismatch { field, operator, expected } => "operator '".to_owned().concat(
                operator.label(),
            ).concat("' on field '").concat(field.as_str()).concat("' requires a ").concat(
                expected.label(),
            ).concat(" value"),
            QueryBuildError::ArrayTooLarge { field, size, max } => {
                let found = digits_text(*size as u128);
                let limit = digits_text(*max as u128);
                "set on field '".to_owned().concat(field.as_str()).concat("' has ").concat(
                    found.as_str(),
                ).concat(" elements, exceeding the maximum ").concat(limit.as_str())
            },
            QueryBuildError::StringTooLong { field, len, max } => {
                let found = digits_text(*len as u128);
                let limit = digits_text(*max as u128);
                "string on field '".to_owned().concat(field.as_str()).concat("' is ").concat(
                    found.as_str(),
                ).concat(" chars, exceeding the maximum ").concat(limit.as_str())
            },
            QueryBuildError::InvalidCursor(reason) => "invalid cursor: ".to_owned().concat(
                reason.as_str(),
            ),
            QueryBuildError::UngroupableField(field) => "field '".to_owned().concat(
                field.as_str(),
            ).concat("' is not allowed as a grouping key"),
        }
    }
}

} // verus!

//! List queries: filter trees, sort clauses, and the allowlist they are held to.
use crate::api_contract::numeral::Numeral;
use crate::api_contract::page::{PageView, PaginationConfig, PaginationMode, PaginationRequest};
use crate::text::{decimal, digits_text};
use crate::text_map::{precedes, TextMap};
use vstd::prelude::*;
use vstd::string::*;

verus! {

/// Boolean operator for filter groups.
#[derive(Clone, Copy, Debug, PartialEq, Eq, PartialOrd, Ord, Structural)]
pub enum BoolOperator {
    And,
    Or,
}

/// Supported comparison operator vocabulary.
#[derive(Clone, Copy, Debug, PartialEq, Eq, PartialOrd, Ord, Structural)]
pub enum FilterOperator {
    Eq,
    Ne,
    Gt,
    Gte,
    Lt,
    Lte,
    Like,
    Ilike,
    Contains,
    StartsWith,
    EndsWith,
    In,
    NotIn,
}

/// Scalar filter value. A number is kept as the numeral that writes it.
#[derive(Debug, PartialEq)]
pub enum FilterScalar {
    String(String),
    Number(Numeral),
    Bool(bool),
    Null,
}

/// A [`FilterScalar`] with its texts as character sequences.
pub enum ScalarView {
    String(Seq<char>),
    Number(Seq<char>),
    Bool(bool),
    Null,
}

impl View for FilterScalar {
    type V = ScalarView;

    open spec fn view(&self) -> ScalarView {
        match *self {
            FilterScalar::String(text) => ScalarView::String(text@),
            FilterScalar::Number(numeral) => ScalarView::Number(numeral@),
            FilterScalar::Bool(b) => ScalarView::Bool(b),
            FilterScalar::Null => ScalarView::Null,
        }
    }
}

/// Filter value. URL query parsing preserves scalar strings unless a boolean,
/// null, or number is unambiguous.
#[derive(Debug, PartialEq)]
pub enum FilterValue {
    Scalar(FilterScalar),
    List(Vec<FilterScalar>),
}

/// A [`FilterValue`] by its views.
pub enum ValueView {
    Scalar(ScalarView),
    List(Seq<ScalarView>),
}

/// The views of a sequence of scalars.
pub open spec fn scalar_views(scalars: Seq<FilterScalar>) -> Seq<ScalarView> {
    scalars.map_values(|scalar: FilterScalar| scalar@)
}

impl View for FilterValue {
    type V = ValueView;

    open spec fn view(&self) -> ValueView {
        match *self {
            FilterValue::Scalar(scalar) => ValueView::Scalar(scalar@),
            FilterValue::List(scalars) => ValueView::List(scalar_views(scalars@)),
        }
    }
}

/// Filter AST node.
#[derive(Debug, PartialEq)]
pub enum FilterNode {
    Condition { field: String, operator: FilterOperator, value: FilterValue },
    Group { operator: BoolOperator, conditions: Vec<FilterNode> },
}

/// A [`FilterNode`] by its views.
pub enum FilterTree {
    Condition { field: Seq<char>, operator: FilterOperator, value: ValueView },
    Group { operator: BoolOperator, conditions: Seq<FilterTree> },
}

/// The tree that a node is.
pub open spec fn tree_of(node: FilterNode) -> FilterTree
    decreases node,
{
    match node {
        FilterNode::Condition { field, operator, value } => FilterTree::Condition {
            field: field@,
            operator,
            value: value@,
        },
        FilterNode::Group { operator, conditions } => FilterTree::Group {
            operator,
            conditions: Seq::new(
                conditions@.len(),
                |i: int|
                    if 0 <= i < conditions@.len() {
                        tree_of(conditions@[i])
                    } else {
                        arbitrary()
                    },
            ),
        },
    }
}

impl View for FilterNode {
    type V = FilterTree;

    open spec fn view(&self) -> FilterTree {
        tree_of(*self)
    }
}

impl Clone for FilterScalar {
    fn clone(&self) -> (scalar: Self)
        ensures
            scalar@ == self@,
    {
        match self {
            FilterScalar::String(text) => FilterScalar::String(text.clone()),
            FilterScalar::Number(numeral) => FilterScalar::Number(numeral.clone()),
            FilterScalar::Bool(b) => FilterScalar::Bool(*b),
            FilterScalar::Null => FilterScalar::Null,
        }
    }
}

impl Clone for FilterValue {
    fn clone(&self) -> (value: Self)
        ensures
            value@ == self@,
    {
        match self {
            FilterValue::Scalar(scalar) => FilterValue::Scalar(scalar.clone()),
            FilterValue::List(scalars) => {
                let mut copies: Vec<FilterScalar> = Vec::new();
                let mut i: usize = 0;
                while i < scalars.len()
                    invariant
                        i <= scalars@.len(),
                        copies@.len() == i,
                        forall|k: int| 0 <= k < i ==> (#[trigger] copies@[k])@ == scalars@[k]@,
                    decreases scalars@.len() - i,
                {
                    copies.push(scalars[i].clone());
                    i += 1;
                }
                assert(scalar_views(copies@) =~= scalar_views(scalars@));
                FilterValue::List(copies)
            },
        }
    }
}

impl Clone for FilterNode {
    fn clone(&self) -> (node: Self)
        ensures
            node@ == self@,
        decreases self,
    {
        match self {
            FilterNode::Condition { field, operator, value } => FilterNode::Condition {
                field: field.clone(),
                operator: *operator,
                value: value.clone(),
            },
            FilterNode::Group { operator, conditions } => {
                let mut copies: Vec<FilterNode> = Vec::new();
                let mut i: usize = 0;
                while i < conditions.len()
                    invariant
                        i <= conditions@.len(),
                        copies@.len() == i,
                        forall|k: int| 0 <= k < i ==> (#[trigger] copies@[k])@ == conditions@[k]@,
                        decreases_to!(self => conditions),
                    decreases conditions@.len() - i,
                {
                    copies.push(conditions[i].clone());
                    i += 1;
                }
                let node = FilterNode::Group { operator: *operator, conditions: copies };
                assert(node@->Group_conditions =~= self@->Group_conditions);
                node
            },
        }
    }
}

impl FilterNode {
    pub fn empty_and() -> (node: Self)
        ensures
            node@ == (FilterTree::Group {
                operator: BoolOperator::And,
                conditions: Seq::empty(),
            }),
    {
        let node = FilterNode::Group { operator: BoolOperator::And, conditions: Vec::new() };
        assert(node@->Group_conditions =~= Seq::empty());
        node
    }

    pub fn and(conditions: Vec<FilterNode>) -> (node: Self)
        ensures
            node@ == (FilterTree::Group {
                operator: BoolOperator::And,
                conditions: tree_views(conditions@),
            }),
    {
        let node = FilterNode::Group { operator: BoolOperator::And, conditions };
        assert(node@->Group_conditions =~= tree_views(conditions@));
        node
    }
}

/// The trees of a sequence of nodes.
pub open spec fn tree_views(nodes: Seq<FilterNode>) -> Seq<FilterTree> {
    nodes.map_values(|node: FilterNode| node@)
}

/// The tree of a group is the group of the trees.
pub proof fn lemma_group_tree(operator: BoolOperator, conditions: Vec<FilterNode>)
    ensures
        tree_of(FilterNode::Group { operator, conditions }) == (FilterTree::Group {
            operator,
            conditions: tree_views(conditions@),
        }),
{
    let node = FilterNode::Group { operator, conditions };
    assert(tree_of(node)->Group_conditions =~= tree_views(conditions@));
}

/// Sort direction.
#[derive(Clone, Copy, Debug, PartialEq, Eq, Structural)]
pub enum SortDirection {
    Asc,
    Desc,
}

/// One stable sort clause.
#[derive(Debug, PartialEq, Eq)]
pub struct SortClause {
    pub field: String,
    pub direction: SortDirection,
}

/// A [`SortClause`] with its field as a character sequence.
pub struct SortView {
    pub field: Seq<char>,
    pub direction: SortDirection,
}

impl View for SortClause {
    type V = SortView;

    open spec fn view(&self) -> SortView {
        SortView { field: self.field@, direction: self.direction }
    }
}

impl Clone for SortClause {
    fn clone(&self) -> (clause: Self)
        ensures
            clause@ == self@,
    {
        SortClause { field: self.field.clone(), direction: self.direction }
    }
}

/// The views of a sequence of sort clauses.
pub open spec fn sort_views(clauses: Seq<SortClause>) -> Seq<SortView> {
    clauses.map_values(|clause: SortClause| clause@)
}

/// The same clauses once more.
pub fn copy_sort(clauses: &Vec<SortClause>) -> (copies: Vec<SortClause>)
    ensures
        sort_views(copies@) == sort_views(clauses@),
{
    let mut copies: Vec<SortClause> = Vec::new();
    let mut i: usize = 0;
    while i < clauses.len()
        invariant
            i <= clauses@.len(),
            copies@.len() == i,
            forall|k: int| 0 <= k < i ==> (#[trigger] copies@[k])@ == clauses@[k]@,
        decreases clauses@.len() - i,
    {
        copies.push(clauses[i].clone());
        i += 1;
    }
    assert(sort_views(copies@) =~= sort_views(clauses@));
    copies
}

impl SortClause {
    pub fn asc(field: &str) -> (clause: Self)
        ensures
            clause@ == (SortView { field: field@, direction: SortDirection::Asc }),
    {
        SortClause { field: field.to_owned(), direction: SortDirection::Asc }
    }

    pub fn desc(field: &str) -> (clause: Self)
        ensures
            clause@ == (SortView { field: field@, direction: SortDirection::Desc }),
    {
        SortClause { field: field.to_owned(), direction: SortDirection::Desc }
    }
}

/// Parsed list request shared by read-model APIs.
#[derive(Clone, Debug, PartialEq)]
pub struct ListQuery {
    pub filter: FilterNode,
    pub sort: Vec<SortClause>,
    pub page: PaginationRequest,
}

/// A [`ListQuery`] by its views.
pub struct ListQueryView {
    pub filter: FilterTree,
    pub sort: Seq<SortView>,
    pub page: PageView,
}

impl View for ListQuery {
    type V = ListQueryView;

    open spec fn view(&self) -> ListQueryView {
        ListQueryView { filter: self.filter@, sort: sort_views(self.sort@), page: self.page@ }
    }
}

/// Query parse or validation failure.
#[derive(Clone, Debug, PartialEq)]
#[allow(inconsistent_fields)]
pub enum QueryError {
    InvalidFilterKey(String),
    UnsupportedFilterOperator(String),
    UnsupportedFilterField(String),
    OperatorNotAllowed { field: String, operator: FilterOperator },
    UnsupportedSortField(String),
    InvalidSortClause(String),
    InvalidPageSize(String),
    InvalidPageNumber(String),
    InvalidPageOffset(String),
    ConflictingPagination,
    PageSizeTooLarge { size: u32, max: u32 },
}

/// A [`QueryError`] with its texts as character sequences.
pub enum QueryErrorView {
    InvalidFilterKey(Seq<char>),
    UnsupportedFilterOperator(Seq<char>),
    UnsupportedFilterField(Seq<char>),
    OperatorNotAllowed { field: Seq<char>, operator: FilterOperator },
    UnsupportedSortField(Seq<char>),
    InvalidSortClause(Seq<char>),
    InvalidPageSize(Seq<char>),
    InvalidPageNumber(Seq<char>),
    InvalidPageOffset(Seq<char>),
    ConflictingPagination,
    PageSizeTooLarge { size: u32, max: u32 },
}

impl View for QueryError {
    type V = QueryErrorView;

    open spec fn view(&self) -> QueryErrorView {
        match *self {
            QueryError::InvalidFilterKey(text) => QueryErrorView::InvalidFilterKey(text@),
            QueryError::UnsupportedFilterOperator(
                text,
            ) => QueryErrorView::UnsupportedFilterOperator(text@),
            QueryError::UnsupportedFilterField(text) => QueryErrorView::UnsupportedFilterField(
                text@,
            ),
            QueryError::OperatorNotAllowed { field, operator } =>
                QueryErrorView::OperatorNotAllowed { field: field@, operator },
            QueryError::UnsupportedSortField(text) => QueryErrorView::UnsupportedSortField(text@),
            QueryError::InvalidSortClause(text) => QueryErrorView::InvalidSortClause(text@),
            QueryError::InvalidPageSize(text) => QueryErrorView::InvalidPageSize(text@),
            QueryError::InvalidPageNumber(text) => QueryErrorView::InvalidPageNumber(text@),
            QueryError::InvalidPageOffset(text) => QueryErrorView::InvalidPageOffset(text@),
            QueryError::ConflictingPagination => QueryErrorView::ConflictingPagination,
            QueryError::PageSizeTooLarge { size, max } => QueryErrorView::PageSizeTooLarge {
                size,
                max,
            },
        }
    }
}

/// What a check of a query says: nothing, or the fault.
pub open spec fn is_verdict(r: Result<(), QueryError>, fault: Option<QueryErrorView>) -> bool {
    match r {
        Ok(()) => fault is None,
        Err(error) => fault == Some(error@),
    }
}

/// A set of operators. Its members stand in the order of the vocabulary, so two
/// sets with the same members are the same value.
#[derive(Clone, Debug, PartialEq, Eq)]
pub struct OperatorSet {
    members: Vec<FilterOperator>,
}

impl View for OperatorSet {
    type V = Set<FilterOperator>;

    closed spec fn view(&self) -> Set<FilterOperator> {
        self.members@.to_set()
    }
}

fn contains_operator(operators: &[FilterOperator], operator: FilterOperator) -> (found: bool)
    ensures
        found == operators@.contains(operator),
{
    let mut i: usize = 0;
    while i < operators.len()
        invariant
            i <= operators@.len(),
            forall|k: int| 0 <= k < i ==> #[trigger] operators@[k] != operator,
        decreases operators@.len() - i,
    {
        if operators[i] == operator {
            return true;
        }
        i += 1;
    }
    false
}

/// The operators in the order of the vocabulary.
pub open spec fn vocabulary() -> Seq<FilterOperator> {
    seq![
        FilterOperator::Eq,
        FilterOperator::Ne,
        FilterOperator::Gt,
        FilterOperator::Gte,
        FilterOperator::Lt,
        FilterOperator::Lte,
        FilterOperator::Like,
        FilterOperator::Ilike,
        FilterOperator::Contains,
        FilterOperator::StartsWith,
        FilterOperator::EndsWith,
        FilterOperator::In,
        FilterOperator::NotIn,
    ]
}

/// The place of an operator in the vocabulary.
spec fn place(operator: FilterOperator) -> int {
    match operator {
        FilterOperator::Eq => 0,
        FilterOperator::Ne => 1,
        FilterOperator::Gt => 2,
        FilterOperator::Gte => 3,
        FilterOperator::Lt => 4,
        FilterOperator::Lte => 5,
        FilterOperator::Like => 6,
        FilterOperator::Ilike => 7,
        FilterOperator::Contains => 8,
        FilterOperator::StartsWith => 9,
        FilterOperator::EndsWith => 10,
        FilterOperator::In => 11,
        FilterOperator::NotIn => 12,
    }
}

impl OperatorSet {
    /// The set of the operators in `operators`.
    pub fn of(operators: &[FilterOperator]) -> (set: OperatorSet)
        ensures
            set@ == operators@.to_set(),
    {
        let all: Vec<FilterOperator> = vec![
            FilterOperator::Eq,
            FilterOperator::Ne,
            FilterOperator::Gt,
            FilterOperator::Gte,
            FilterOperator::Lt,
            FilterOperator::Lte,
            FilterOperator::Like,
            FilterOperator::Ilike,
            FilterOperator::Contains,
            FilterOperator::StartsWith,
            FilterOperator::EndsWith,
            FilterOperator::In,
            FilterOperator::NotIn,
        ];
        assert(all@ =~= vocabulary());
        let mut members: Vec<FilterOperator> = Vec::new();
        let mut i: usize = 0;
        while i < all.len()
            invariant
                i <= all@.len(),
                all@ == vocabulary(),
                forall|operator: FilterOperator| #[trigger]
                    members@.contains(operator) <==> operators@.contains(operator) && place(
                        operator,
                    ) < i,
            decreases all@.len() - i,
        {
            let ghost before = members@;
            let candidate = all[i];
            assert(place(candidate) == i);
            if contains_operator(operators, candidate) {
                members.push(candidate);
            }
            i += 1;
            assert forall|operator: FilterOperator| #[trigger]
                members@.contains(operator) <==> operators@.contains(operator) && place(operator)
                    < i by {
                assert(place(operator) == i - 1 ==> operator == candidate);
                if members@.len() > before.len() {
                    assert(members@ == before.push(candidate));
                    assert(members@[before.len() as int] == candidate);
                    if before.contains(operator) {
                        let k = choose|k: int| 0 <= k < before.len() && before[k] == operator;
                        assert(members@[k] == operator);
                    }
                }
                if members@.contains(operator) {
                    let k = choose|k: int| 0 <= k < members@.len() && members@[k] == operator;
                    if k < before.len() {
                        assert(before[k] == operator);
                    }
                }
            }
        }
        assert(members@.to_set() =~= operators@.to_set());
        OperatorSet { members }
    }

    pub fn contains(&self, operator: FilterOperator) -> (found: bool)
        ensures
            found == self@.contains(operator),
    {
        contains_operator(self.members.as_slice(), operator)
    }
}

/// Allowlist for one resource or read-model query surface.
#[derive(Clone, Debug, PartialEq, Eq)]
pub struct QuerySchema {
    filter_fields: TextMap<OperatorSet>,
    sortable_fields: TextMap<()>,
    groupable_fields: TextMap<()>,
    default_sort: Vec<SortClause>,
    page: PaginationConfig,
}

/// What a schema allows: the operators of each filter field, the fields to sort
/// and to group by, and the defaults.
pub struct SchemaView {
    pub filter_fields: Map<Seq<char>, Set<FilterOperator>>,
    pub sortable_fields: Set<Seq<char>>,
    pub groupable_fields: Set<Seq<char>>,
    pub default_sort: Seq<SortView>,
    pub page: PaginationConfig,
}

impl View for QuerySchema {
    type V = SchemaView;

    closed spec fn view(&self) -> SchemaView {
        SchemaView {
            filter_fields: self.filter_fields@.map_values(|operators: OperatorSet| operators@),
            sortable_fields: self.sortable_fields@.dom(),
            groupable_fields: self.groupable_fields@.dom(),
            default_sort: sort_views(self.default_sort@),
            page: self.page,
        }
    }
}

impl FilterTree {
    /// How many conditions a group holds.
    pub open spec fn width(self) -> nat {
        match self {
            FilterTree::Condition { field, operator, value } => 0,
            FilterTree::Group { operator, conditions } => conditions.len(),
        }
    }
}

impl SchemaView {
    /// The first fault of a filter: for a condition, a field that is not allowed
    /// or an operator that is not allowed on it; for a group, the first fault
    /// among its first `n` conditions.
    pub open spec fn filter_fault_within(self, tree: FilterTree, n: nat) -> Option<QueryErrorView>
        decreases tree, n,
    {
        match tree {
            FilterTree::Condition { field, operator, value } => if !self.filter_fields.contains_key(
                field,
            ) {
                Some(QueryErrorView::UnsupportedFilterField(field))
            } else if !self.filter_fields[field].contains(operator) {
                Some(QueryErrorView::OperatorNotAllowed { field, operator })
            } else {
                None
            },
            FilterTree::Group { operator, conditions } => if n == 0 || n > conditions.len() {
                None
            } else {
                match self.filter_fault_within(tree, (n - 1) as nat) {
                    Some(fault) => Some(fault),
                    None => self.filter_fault_within(
                        conditions[n - 1],
                        conditions[n - 1].width(),
                    ),
                }
            },
        }
    }

    /// The first fault of a filter.
    pub open spec fn filter_fault(self, tree: FilterTree) -> Option<QueryErrorView> {
        self.filter_fault_within(tree, tree.width())
    }

    /// The first sort clause whose field is not sortable.
    pub open spec fn sort_fault(self, sort: Seq<SortView>) -> Option<QueryErrorView>
        decreases sort.len(),
    {
        if sort.len() == 0 {
            None
        } else if !self.sortable_fields.contains(sort[0].field) {
            Some(QueryErrorView::UnsupportedSortField(sort[0].field))
        } else {
            self.sort_fault(sort.drop_first())
        }
    }

    /// The first fault of a query.
    pub open spec fn fault(self, query: ListQueryView) -> Option<QueryErrorView> {
        match self.filter_fault(query.filter) {
            Some(fault) => Some(fault),
            None => self.sort_fault(query.sort),
        }
    }
}

impl QuerySchema {
    pub fn new() -> (schema: Self)
        ensures
            schema@ == (SchemaView {
                filter_fields: Map::empty(),
                sortable_fields: Set::empty(),
                groupable_fields: Set::empty(),
                default_sort: Seq::empty(),
                page: PaginationConfig {
                    default_size: 20,
                    max_size: 200,
                    default_mode: PaginationMode::Cursor,
                },
            }),
    {
        let schema = QuerySchema {
            filter_fields: TextMap::new(),
            sortable_fields: TextMap::new(),
            groupable_fields: TextMap::new(),
            default_sort: Vec::new(),
            page: PaginationConfig::default(),
        };
        assert(schema@.filter_fields =~= Map::empty());
        assert(schema@.sortable_fields =~= Set::empty());
        assert(schema@.groupable_fields =~= Set::empty());
        assert(schema@.default_sort =~= Seq::empty());
        schema
    }

    pub fn with_page_config(self, page: PaginationConfig) -> (schema: Self)
        ensures
            schema@ == (SchemaView { page, ..self@ }),
    {
        QuerySchema {
            filter_fields: self.filter_fields,
            sortable_fields: self.sortable_fields,
            groupable_fields: self.groupable_fields,
            default_sort: self.default_sort,
            page,
        }
    }

    /// Allow filtering on `field` with `operators`, in place of what was allowed
    /// on it before.
    pub fn allow_filter_field(self, field: &str, operators: &[FilterOperator]) -> (schema: Self)
        ensures
            schema@ == (SchemaView {
                filter_fields: self@.filter_fields.insert(field@, operators@.to_set()),
                ..self@
            }),
    {
        let allowed = OperatorSet::of(operators);
        let schema = QuerySchema {
            filter_fields: self.filter_fields.insert(field, allowed),
            sortable_fields: self.sortable_fields,
            groupable_fields: self.groupable_fields,
            default_sort: self.default_sort,
            page: self.page,
        };
        assert(schema@.filter_fields =~= self@.filter_fields.insert(field@, operators@.to_set()));
        schema
    }

    pub fn allow_sort_field(self, field: &str) -> (schema: Self)
        ensures
            schema@ == (SchemaView {
                sortable_fields: self@.sortable_fields.insert(field@),
                ..self@
            }),
    {
        let schema = QuerySchema {
            filter_fields: self.filter_fields,
            sortable_fields: self.sortable_fields.insert(field, ()),
            groupable_fields: self.groupable_fields,
            default_sort: self.default_sort,
            page: self.page,
        };
        assert(schema@.sortable_fields =~= self@.sortable_fields.insert(field@));
        schema
    }

    pub fn allow_group_field(self, field: &str) -> (schema: Self)
        ensures
            schema@ == (SchemaView {
                groupable_fields: self@.groupable_fields.insert(field@),
                ..self@
            }),
    {
        let schema = QuerySchema {
            filter_fields: self.filter_fields,
            sortable_fields: self.sortable_fields,
            groupable_fields: self.groupable_fields.insert(field, ()),
            default_sort: self.default_sort,
            page: self.page,
        };
        assert(schema@.groupable_fields =~= self@.groupable_fields.insert(field@));
        schema
    }

    pub fn with_default_sort(self, sort: Vec<SortClause>) -> (schema: Self)
        ensures
            schema@ == (SchemaView { default_sort: sort_views(sort@), ..self@ }),
    {
        QuerySchema {
            filter_fields: self.filter_fields,
            sortable_fields: self.sortable_fields,
            groupable_fields: self.groupable_fields,
            default_sort: sort,
            page: self.page,
        }
    }

    pub fn page_config(&self) -> (page: PaginationConfig)
        ensures
            page == self@.page,
    {
        self.page
    }

    pub fn default_sort(&self) -> (sort: Vec<SortClause>)
        ensures
            sort_views(sort@) == self@.default_sort,
    {
        copy_sort(&self.default_sort)
    }

    /// Whether results may be grouped by `field`.
    pub fn is_groupable(&self, field: &str) -> (groupable: bool)
        ensures
            groupable == self@.groupable_fields.contains(field@),
    {
        self.groupable_fields.contains_key(field)
    }

    /// The fields that may be filtered on, in increasing order.
    pub fn filter_field_names(&self) -> (names: Vec<&str>)
        ensures
            forall|i: int, j: int|
                0 <= i < j < names@.len() ==> precedes(
                    (#[trigger] names@[i])@,
                    (#[trigger] names@[j])@,
                ),
            forall|name: Seq<char>| #[trigger]
                self@.filter_fields.contains_key(name) <==> names@.map_values(
                    |n: &str| n@,
                ).contains(name),
    {
        let names = self.filter_fields.keys();
        assert forall|name: Seq<char>| #[trigger]
            self@.filter_fields.contains_key(name) <==> names@.map_values(|n: &str| n@).contains(
                name,
            ) by {
            assert(self.filter_fields@.contains_key(name) == self@.filter_fields.contains_key(name));
        }
        names
    }

    /// The fields that may be sorted by, in increasing order.
    pub fn sortable_field_names(&self) -> (names: Vec<&str>)
        ensures
            forall|i: int, j: int|
                0 <= i < j < names@.len() ==> precedes(
                    (#[trigger] names@[i])@,
                    (#[trigger] names@[j])@,
                ),
            forall|name: Seq<char>| #[trigger]
                self@.sortable_fields.contains(name) <==> names@.map_values(
                    |n: &str| n@,
                ).contains(name),
    {
        let names = self.sortable_fields.keys();
        assert forall|name: Seq<char>| #[trigger]
            self@.sortable_fields.contains(name) <==> names@.map_values(|n: &str| n@).contains(
                name,
            ) by {
            assert(self.sortable_fields@.contains_key(name) == self@.sortable_fields.contains(name));
        }
        names
    }

    /// The fields that may be grouped by, in increasing order.
    pub fn groupable_field_names(&self) -> (names: Vec<&str>)
        ensures
            forall|i: int, j: int|
                0 <= i < j < names@.len() ==> precedes(
                    (#[trigger] names@[i])@,
                    (#[trigger] names@[j])@,
                ),
            forall|name: Seq<char>| #[trigger]
                self@.groupable_fields.contains(name) <==> names@.map_values(
                    |n: &str| n@,
                ).contains(name),
    {
        let names = self.groupable_fields.keys();
        assert forall|name: Seq<char>| #[trigger]
            self@.groupable_fields.contains(name) <==> names@.map_values(|n: &str| n@).contains(
                name,
            ) by {
            assert(self.groupable_fields@.contains_key(name) == self@.groupable_fields.contains(
                name,
            ));
        }
        names
    }

    /// Hold a query to the allowlist: the filter first, then the sort.
    pub fn validate(&self, query: &ListQuery) -> (r: Result<(), QueryError>)
        ensures
            is_verdict(r, self@.fault(query@)),
    {
        if let Err(error) = self.validate_filter(&query.filter) {
            return Err(error);
        }
        let ghost sort = sort_views(query.sort@);
        let mut i: usize = 0;
        assert(sort.skip(0) =~= sort);
        while i < query.sort.len()
            invariant
                i <= query.sort@.len(),
                sort == sort_views(query.sort@),
                self@.filter_fault(query@.filter) is None,
                self@.sort_fault(sort) == self@.sort_fault(sort.skip(i as int)),
            decreases query.sort@.len() - i,
        {
            let clause = &query.sort[i];
            assert(sort.skip(i as int)[0] == clause@);
            assert(sort.skip(i as int).drop_first() =~= sort.skip(i + 1));
            if !self.sortable_fields.contains_key(clause.field.as_str()) {
                return Err(QueryError::UnsupportedSortField(clause.field.clone()));
            }
            i += 1;
        }
        Ok(())
    }

    /// Hold a filter to the allowlist.
    pub fn validate_filter(&self, node: &FilterNode) -> (r: Result<(), QueryError>)
        ensures
            is_verdict(r, self@.filter_fault(node@)),
        decreases node,
    {
        match node {
            FilterNode::Condition { field, operator, value: _ } => {
                match self.filter_fields.get(field.as_str()) {
                    None => Err(QueryError::UnsupportedFilterField(field.clone())),
                    Some(operators) => {
                        if operators.contains(*operator) {
                            Ok(())
                        } else {
                            Err(
                                QueryError::OperatorNotAllowed {
                                    field: field.clone(),
                                    operator: *operator,
                                },
                            )
                        }
                    },
                }
            },
            FilterNode::Group { operator, conditions } => {
                let ghost tree = node@;
                proof {
                    lemma_group_tree(*operator, *conditions);
                }
                let mut i: usize = 0;
                while i < conditions.len()
                    invariant
                        i <= conditions@.len(),
                        decreases_to!(node => conditions),
                        tree == node@,
                        tree == (FilterTree::Group {
                            operator: *operator,
                            conditions: tree_views(conditions@),
                        }),
                        self@.filter_fault_within(tree, i as nat) is None,
                    decreases conditions@.len() - i,
                {
                    proof {
                        lemma_fault_of_prefix(self@, tree, (i + 1) as nat);
                    }
                    assert(tree_views(conditions@)[i as int] == conditions@[i as int]@);
                    if let Err(error) = self.validate_filter(&conditions[i]) {
                        return Err(error);
                    }
                    i += 1;
                }
                Ok(())
            },
        }
    }
}

/// The first fault of some of a group's conditions is the fault of the group.
proof fn lemma_fault_of_prefix(schema: SchemaView, tree: FilterTree, n: nat)
    requires
        tree is Group,
        n <= tree.width(),
    ensures
        schema.filter_fault_within(tree, n) is Some ==> schema.filter_fault(tree)
            == schema.filter_fault_within(tree, n),
    decreases tree.width() - n,
{
    if n < tree.width() {
        lemma_fault_of_prefix(schema, tree, n + 1);
    }
}

impl SchemaView {
    /// Every condition in the tree is on an allowed field, with an operator that
    /// is allowed on it.
    pub open spec fn allows(self, tree: FilterTree) -> bool
        decreases tree,
    {
        match tree {
            FilterTree::Condition { field, operator, value } => self.filter_fields.contains_key(
                field,
            ) && self.filter_fields[field].contains(operator),
            FilterTree::Group { operator, conditions } => forall|i: int|
                0 <= i < conditions.len() ==> self.allows(#[trigger] conditions[i]),
        }
    }

    /// A filter has no fault exactly when all of it is allowed.
    pub proof fn lemma_faultless_filter_is_allowed(self, tree: FilterTree)
        ensures
            self.filter_fault(tree) is None <==> self.allows(tree),
        decreases tree, tree.width() + 1,
    {
        if tree is Group {
            self.lemma_faultless_prefix_is_allowed(tree, tree.width());
        }
    }

    proof fn lemma_faultless_prefix_is_allowed(self, tree: FilterTree, n: nat)
        requires
            tree is Group,
            n <= tree.width(),
        ensures
            self.filter_fault_within(tree, n) is None <==> forall|i: int|
                0 <= i < n ==> self.allows(#[trigger] tree->Group_conditions[i]),
        decreases tree, n,
    {
        if n > 0 {
            self.lemma_faultless_prefix_is_allowed(tree, (n - 1) as nat);
            self.lemma_faultless_filter_is_allowed(tree->Group_conditions[n - 1]);
        }
    }

    /// A sort has no fault exactly when every field of it is sortable.
    pub proof fn lemma_faultless_sort_is_allowed(self, sort: Seq<SortView>)
        ensures
            self.sort_fault(sort) is None <==> forall|i: int|
                0 <= i < sort.len() ==> self.sortable_fields.contains((#[trigger] sort[i]).field),
        decreases sort.len(),
    {
        if sort.len() > 0 {
            let rest = sort.drop_first();
            self.lemma_faultless_sort_is_allowed(rest);
            assert(forall|i: int| 0 <= i < rest.len() ==> #[trigger] rest[i] == sort[i + 1]);
            if self.sort_fault(sort) is None {
                assert forall|i: int| 0 <= i < sort.len() implies self.sortable_fields.contains(
                    (#[trigger] sort[i]).field,
                ) by {
                    if i > 0 {
                        assert(rest[i - 1] == sort[i]);
                    }
                }
            }
        }
    }
}

impl Default for QuerySchema {
    fn default() -> (schema: Self)
        ensures
            schema@ == (SchemaView {
                filter_fields: Map::empty(),
                sortable_fields: Set::empty(),
                groupable_fields: Set::empty(),
                default_sort: Seq::empty(),
                page: PaginationConfig {
                    default_size: 20,
                    max_size: 200,
                    default_mode: PaginationMode::Cursor,
                },
            }),
    {
        QuerySchema::new()
    }
}

impl FilterOperator {
    /// The name of the operator in a message.
    pub open spec fn label_text(self) -> Seq<char> {
        match self {
            FilterOperator::Eq => "Eq"@,
            FilterOperator::Ne => "Ne"@,
            FilterOperator::Gt => "Gt"@,
            FilterOperator::Gte => "Gte"@,
            FilterOperator::Lt => "Lt"@,
            FilterOperator::Lte => "Lte"@,
            FilterOperator::Like => "Like"@,
            FilterOperator::Ilike => "Ilike"@,
            FilterOperator::Contains => "Contains"@,
            FilterOperator::StartsWith => "StartsWith"@,
            FilterOperator::EndsWith => "EndsWith"@,
            FilterOperator::In => "In"@,
            FilterOperator::NotIn => "NotIn"@,
        }
    }

    /// The name of the operator in a message.
    pub fn label(self) -> (label: &'static str)
        ensures
            label@ == self.label_text(),
    {
        match self {
            FilterOperator::Eq => "Eq",
            FilterOperator::Ne => "Ne",
            FilterOperator::Gt => "Gt",
            FilterOperator::Gte => "Gte",
            FilterOperator::Lt => "Lt",
            FilterOperator::Lte => "Lte",
            FilterOperator::Like => "Like",
            FilterOperator::Ilike => "Ilike",
            FilterOperator::Contains => "Contains",
            FilterOperator::StartsWith => "StartsWith",
            FilterOperator::EndsWith => "EndsWith",
            FilterOperator::In => "In",
            FilterOperator::NotIn => "NotIn",
        }
    }
}

impl QueryErrorView {
    /// The text that a person reads of the error.
    pub open spec fn message(self) -> Seq<char> {
        match self {
            QueryErrorView::InvalidFilterKey(key) => "invalid filter key '"@ + key + "'"@,
            QueryErrorView::UnsupportedFilterOperator(name) => "unsupported filter operator '"@
                + name + "'"@,
            QueryErrorView::UnsupportedFilterField(field) => "unsupported filter field '"@ + field
                + "'"@,
            QueryErrorView::OperatorNotAllowed { field, operator } => "operator '"@
                + operator.label_text() + "' is not allowed on filter field '"@ + field + "'"@,
            QueryErrorView::UnsupportedSortField(field) => "unsupported sort field '"@ + field
                + "'"@,
            QueryErrorView::InvalidSortClause(clause) => "invalid sort clause '"@ + clause + "'"@,
            QueryErrorView::InvalidPageSize(raw) => "invalid page size '"@ + raw + "'"@,
            QueryErrorView::InvalidPageNumber(raw) => "invalid page number '"@ + raw + "'"@,
            QueryErrorView::InvalidPageOffset(raw) => "invalid page offset '"@ + raw + "'"@,
            QueryErrorView::ConflictingPagination => "conflicting pagination parameters"@,
            QueryErrorView::PageSizeTooLarge { size, max } => "page size "@ + decimal(size as int)
                + " exceeds maximum "@ + decimal(max as int),
        }
    }
}

/// `head`, the text and a closing quote.
fn quoting(head: &str, text: &str) -> (message: String)
    ensures
        message@ == head@ + text@ + "'"@,
{
    head.to_owned().concat(text).concat("'")
}

impl QueryError {
    /// The text that a person reads of the error.
    pub fn message(&self) -> (text: String)
        ensures
            text@ == self@.message(),
    {
        match self {
            QueryError::InvalidFilterKey(key) => quoting("invalid filter key '", key.as_str()),
            QueryError::UnsupportedFilterOperator(name) => quoting(
                "unsupported filter operator '",
                name.as_str(),
            ),
            QueryError::UnsupportedFilterField(field) => quoting(
                "unsupported filter field '",
                field.as_str(),
            ),
            QueryError::OperatorNotAllowed { field, operator } => "operator '".to_owned().concat(
                operator.label(),
            ).concat("' is not allowed on filter field '").concat(field.as_str()).concat("'"),
            QueryError::UnsupportedSortField(field) => quoting(
                "unsupported sort field '",
                field.as_str(),
            ),
            QueryError::InvalidSortClause(clause) => quoting(
                "invalid sort clause '",
                clause.as_str(),
            ),
            QueryError::InvalidPageSize(raw) => quoting("invalid page size '", raw.as_str()),
            QueryError::InvalidPageNumber(raw) => quoting("invalid page number '", raw.as_str()),
            QueryError::InvalidPageOffset(raw) => quoting("invalid page offset '", raw.as_str()),
            QueryError::ConflictingPagination => "conflicting pagination parameters".to_owned(),
            QueryError::PageSizeTooLarge { size, max } => {
                let asked = digits_text(*size as u128);
                let limit = digits_text(*max as u128);
                "page size ".to_owned().concat(asked.as_str()).concat(" exceeds maximum ").concat(
                    limit.as_str(),
                )
            },
        }
    }
}

} // verus!

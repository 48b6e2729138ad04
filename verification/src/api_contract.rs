//! Neutral API contract primitives: pagination, sorting, allowlisted filter
//! trees, and credential-reference shapes.
pub mod auth;
pub mod console;
pub mod laws;
pub mod list_query;
pub mod numeral;
pub mod page;
pub mod query;

pub use auth::{
    ApiKeyLocation, AuthRequirement, AuthScheme, ConnectionAuth, CredentialRef, OAuth2Flow,
};
pub use console::{SuiteNavigation, SUITE_NAVIGATION_PATH};
pub use list_query::parse_list_query;
pub use numeral::Numeral;
pub use page::{
    CursorPage, CursorPageConfig, CursorPageRequest, GroupBucket, GroupedPage, NumberedPage,
    OffsetPageRequest, PageNumberRequest, PaginationConfig, PaginationMode, PaginationRequest,
};
pub use query::{
    BoolOperator, FilterNode, FilterOperator, FilterScalar, FilterValue, ListQuery, QueryError,
    QuerySchema, SortClause, SortDirection,
};

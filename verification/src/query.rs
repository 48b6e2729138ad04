//! Dialect-aware compiler from list queries to parameterized SQL fragments.
//!
//! It takes an already validated list query plus an author-controlled field map
//! and emits a `WHERE` body, an `ORDER BY` body, a limit, and ordered bound
//! parameters. It also builds opaque keyset cursors and grouped-pagination
//! fragments. It never opens a connection or executes SQL.
pub mod dsl;
pub mod dsl_laws;
pub mod fragment;
pub mod group;
pub mod keyset;
pub mod laws;
pub mod meaning;
pub mod compile;
pub mod cursor;
pub mod dialect;

pub use compile::compile;
pub use fragment::{
    CompileOptions, FieldMap, FilterParam, QueryBuildError, SqlFragment, ValueShape,
    DEFAULT_MAX_ARRAY_SIZE, DEFAULT_MAX_STRING_LENGTH,
};
pub use cursor::{CursorState, CursorValue, RAW_VALUE_KEY};
pub use dialect::{Dialect, ParamBuilder};
pub use keyset::keyset_condition;
pub use group::{compile_grouped, GroupedQuery, GroupedSqlFragment};

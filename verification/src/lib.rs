//! Verified building blocks for services: list-query contracts and their SQL
//! compilation, scoped schema migrations, layered configuration, and the
//! decision logic of byte and HTTP transports.
pub mod api_contract;
pub mod checksum;
pub mod config;
pub mod connection;
pub mod connection_auth;
pub mod guardrail;
pub mod identifier;
pub mod query;
pub mod scan;
pub mod scoped_migration;
pub mod sql_migration;
pub mod text;
pub mod text_map;
pub mod transports;

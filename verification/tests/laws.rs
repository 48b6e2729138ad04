//! Edge cases, error variants and the laws of the library on concrete values.
use std::collections::BTreeMap;
use std::str::FromStr;

use awaken_foundation::api_contract::{
    parse_list_query, FilterNode, FilterOperator, FilterScalar, FilterValue, ListQuery, Numeral,
    PaginationConfig, PaginationRequest, QueryError, QuerySchema, SortClause,
};
use awaken_foundation::checksum::sha256_hex;
use awaken_foundation::config::Config;
use awaken_foundation::connection_auth::{AuthMaterialError, HeaderAuthMaterial, HeaderPair};
use awaken_foundation::query::dsl::{parse_filter_dsl, split_top_level, DslError};
use awaken_foundation::query::{
    compile, keyset_condition, CompileOptions, CursorState, CursorValue, Dialect as SqlDialect,
    FieldMap, FilterParam, QueryBuildError,
};
use awaken_foundation::scoped_migration::{
    lint, plan, render, version_label, Dialect, LedgerBootstrapAction, LedgerSchema, Migration,
    MigrationBundle, MigrationError,
};
use awaken_foundation::sql_migration;
use awaken_foundation::text::{parse_unsigned, replace, split, trim};
use awaken_foundation::text_map::TextMap;
use base64::Engine as _;

fn numeral(text: &str) -> Numeral {
    Numeral::parse(text).unwrap()
}

#[test]
fn sha256_of_known_bytes() {
    assert_eq!(
        sha256_hex(b"abc"),
        "ba7816bf8f01cfea414140de5dae2223b00361a396177a9cb410ff61f20015ad"
    );
    assert_eq!(
        sha256_hex(b""),
        "e3b0c44298fc1c149afbf4c8996fb92427ae41e4649b934ca495991b7852b855"
    );
}

#[test]
fn numerals_follow_the_float_grammar() {
    for text in [
        "0", "42", "-1", "+1", "1.", ".5", "1.5e3", "1E-3", "inf", "-Infinity", "NaN", "00012",
        "1e400",
    ] {
        assert!(Numeral::parse(text).is_some(), "{text}");
        assert!(text.parse::<f64>().is_ok(), "{text}");
    }
    for text in [
        "", "+", ".", "e5", "1e", "1e+", "1..2", "1 ", "0x10", "1_000", "infin", "--1", "1e5.0",
        "٣",
    ] {
        assert!(Numeral::parse(text).is_none(), "{text}");
        assert!(text.parse::<f64>().is_err(), "{text}");
    }
}

#[test]
fn unsigned_numbers_follow_the_integer_grammar() {
    assert_eq!(parse_unsigned("007", u32::MAX as u64), Some(7));
    assert_eq!(parse_unsigned("+7", u32::MAX as u64), Some(7));
    assert_eq!(parse_unsigned("4294967295", u32::MAX as u64), Some(4294967295));
    assert_eq!(parse_unsigned("4294967296", u32::MAX as u64), None);
    assert_eq!(parse_unsigned("18446744073709551615", u64::MAX), Some(u64::MAX));
    assert_eq!(parse_unsigned("18446744073709551616", u64::MAX), None);
    assert_eq!(parse_unsigned("", u64::MAX), None);
    assert_eq!(parse_unsigned("+", u64::MAX), None);
    assert_eq!(parse_unsigned("-0", u64::MAX), None);
    assert_eq!(parse_unsigned("1a", u64::MAX), None);
}

#[test]
fn text_operations_agree_with_std() {
    for text in ["", "  a b\t", "\u{3000}x\u{a0}", "a,,b,", "aXbXXc", "\u{85}"] {
        assert_eq!(trim(text), text.trim());
        assert_eq!(split(text, ','), text.split(',').collect::<Vec<_>>());
        assert_eq!(replace(text, "X", "yy"), text.replace("X", "yy"));
    }
    assert_eq!(replace("aaa", "aa", "b"), "aaa".replace("aa", "b"));
}

#[test]
fn text_maps_stand_in_key_order() {
    let map = TextMap::new()
        .insert("b", 1)
        .insert("a", 2)
        .insert("ab", 3)
        .insert("b", 4);
    assert_eq!(map.keys(), vec!["a", "ab", "b"]);
    assert_eq!(map.get("b"), Some(&4));
    assert_eq!(map.get("c"), None);
    let other = TextMap::new()
        .insert("ab", 3)
        .insert("b", 4)
        .insert("a", 2);
    assert_eq!(map, other);
}

#[test]
fn operators_have_names() {
    assert_eq!(
        FilterOperator::from_str("nin").unwrap(),
        FilterOperator::NotIn
    );
    assert_eq!(
        FilterOperator::from_str("EQ").unwrap_err(),
        QueryError::UnsupportedFilterOperator("EQ".to_string())
    );
    assert_eq!(FilterOperator::StartsWith.label(), "StartsWith");
}

fn schema() -> QuerySchema {
    QuerySchema::new()
        .allow_filter_field("name", &[FilterOperator::Eq, FilterOperator::Contains])
        .allow_filter_field("age", &[FilterOperator::Gt, FilterOperator::In])
        .allow_sort_field("name")
        .with_page_config(PaginationConfig::new(20, 100))
}

#[test]
fn query_errors_name_their_cause() {
    let cases: [(&[(&str, &str)], &str); 11] = [
        (&[("filterx", "1")], "invalid filter key 'filterx'"),
        (
            &[("filter[name][is]", "1")],
            "unsupported filter operator 'is'",
        ),
        (&[("filter[x]", "1")], "unsupported filter field 'x'"),
        (
            &[("filter[name][gt]", "1")],
            "operator 'Gt' is not allowed on filter field 'name'",
        ),
        (&[("sort", "x")], "unsupported sort field 'x'"),
        (&[("sort", "name, - ")], "invalid sort clause '-'"),
        (&[("limit", "0")], "invalid page size '0'"),
        (&[("page", "x")], "invalid page number 'x'"),
        (&[("offset", "")], "invalid page offset ''"),
        (
            &[("page", "1"), ("offset", "0")],
            "conflicting pagination parameters",
        ),
        (&[("limit", "101")], "page size 101 exceeds maximum 100"),
    ];
    for (pairs, message) in cases {
        assert_eq!(parse_list_query(pairs, &schema()).unwrap_err().message(), message);
    }
}

#[test]
fn parsed_queries_pass_the_allowlist() {
    let query = parse_list_query(
        &[
            ("filter[name][contains]", "a"),
            ("filter[age][in]", "1,2"),
            ("sort", "-name,"),
            ("cursor", "  "),
            ("unknown", "x"),
        ],
        &schema(),
    )
    .unwrap();
    assert_eq!(schema().validate(&query), Ok(()));
    assert_eq!(query.sort, vec![SortClause::desc("name")]);
    assert_eq!(query.page, PaginationRequest::cursor(20, None));
    assert!(query.page.size() <= 100);
}

#[test]
fn schema_names_its_fields_in_order() {
    let schema = schema().allow_group_field("team");
    assert_eq!(schema.filter_field_names(), vec!["age", "name"]);
    assert_eq!(schema.sortable_field_names(), vec!["name"]);
    assert_eq!(schema.groupable_field_names(), vec!["team"]);
    assert!(schema.is_groupable("team"));
    assert!(!schema.is_groupable("name"));
    // The order and repetition in which operators are allowed do not matter.
    let one = QuerySchema::new()
        .allow_filter_field("a", &[FilterOperator::Eq, FilterOperator::In, FilterOperator::Eq]);
    let other = QuerySchema::default()
        .allow_filter_field("a", &[FilterOperator::In, FilterOperator::Eq]);
    assert_eq!(one, other);
}

fn condition(field: &str, operator: FilterOperator, value: FilterScalar) -> FilterNode {
    FilterNode::Condition {
        field: field.to_string(),
        operator,
        value: FilterValue::Scalar(value),
    }
}

fn list(filter: FilterNode) -> ListQuery {
    ListQuery {
        filter,
        sort: vec![],
        page: PaginationRequest::cursor(20, None),
    }
}

fn columns() -> FieldMap {
    FieldMap::new().column("a", "t.a").column("b", "t.b")
}

#[test]
fn values_do_not_reach_the_text() {
    let with = |text: &str, number: &str| {
        let filter = FilterNode::and(vec![
            condition(
                "a",
                FilterOperator::Contains,
                FilterScalar::String(text.to_string()),
            ),
            condition("b", FilterOperator::Gte, FilterScalar::Number(numeral(number))),
        ]);
        compile(
            &list(filter),
            &columns(),
            SqlDialect::Postgres,
            &CompileOptions::default(),
        )
        .unwrap()
    };
    let plain = with("x", "1");
    let hostile = with("'; DROP TABLE t; --", "-1e5");
    assert_eq!(plain.where_clause, hostile.where_clause);
    assert_eq!(
        plain.where_clause.as_deref(),
        Some(r"t.a ILIKE $1 ESCAPE '\' AND t.b >= $2")
    );
    assert_eq!(plain.param_count(), hostile.param_count());
    assert_eq!(hostile.params[1], FilterParam::Number(numeral("-1e5")));
}

#[test]
fn a_start_index_of_zero_counts_from_one() {
    let fragment = compile(
        &list(condition("a", FilterOperator::Eq, FilterScalar::Bool(true))),
        &columns(),
        SqlDialect::Postgres,
        &CompileOptions {
            start_param: 0,
            ..CompileOptions::default()
        },
    )
    .unwrap();
    assert_eq!(fragment.where_clause.as_deref(), Some("t.a = $1"));
}

#[test]
fn groups_without_content_disappear() {
    let filter = FilterNode::and(vec![
        FilterNode::empty_and(),
        condition("a", FilterOperator::Ne, FilterScalar::Null),
        condition("b", FilterOperator::Lte, FilterScalar::Null),
    ]);
    let fragment = compile(
        &list(filter),
        &columns(),
        SqlDialect::Sqlite,
        &CompileOptions::default(),
    )
    .unwrap();
    assert_eq!(
        fragment.where_clause.as_deref(),
        Some("t.a IS NOT NULL AND t.b <= ?")
    );
    assert_eq!(fragment.params, vec![FilterParam::Null]);
}

#[test]
fn build_errors_name_their_cause() {
    let compile_one = |filter: FilterNode| {
        compile(
            &list(filter),
            &columns(),
            SqlDialect::Postgres,
            &CompileOptions {
                max_array_size: 1,
                max_string_len: 2,
                start_param: 1,
            },
        )
        .unwrap_err()
        .message()
    };
    assert_eq!(
        compile_one(condition("x", FilterOperator::Eq, FilterScalar::Null)),
        "field 'x' is not mapped to a column"
    );
    assert_eq!(
        compile_one(condition("a", FilterOperator::In, FilterScalar::Null)),
        "operator 'In' on field 'a' requires a list value"
    );
    assert_eq!(
        compile_one(condition("a", FilterOperator::Like, FilterScalar::Bool(true))),
        "operator 'Like' on field 'a' requires a string value"
    );
    assert_eq!(
        compile_one(FilterNode::Condition {
            field: "a".to_string(),
            operator: FilterOperator::Eq,
            value: FilterValue::List(vec![]),
        }),
        "operator 'Eq' on field 'a' requires a scalar value"
    );
    assert_eq!(
        compile_one(FilterNode::Condition {
            field: "a".to_string(),
            operator: FilterOperator::NotIn,
            value: FilterValue::List(vec![FilterScalar::Null, FilterScalar::Null]),
        }),
        "set on field 'a' has 2 elements, exceeding the maximum 1"
    );
    // Characters are counted, not bytes.
    assert_eq!(
        compile_one(condition(
            "a",
            FilterOperator::EndsWith,
            FilterScalar::String("äöü".to_string())
        )),
        "string on field 'a' is 3 chars, exceeding the maximum 2"
    );
    assert_eq!(
        QueryBuildError::UngroupableField("g".to_string()).message(),
        "field 'g' is not allowed as a grouping key"
    );
}

#[test]
fn cursors_come_back_as_they_went() {
    let state = CursorState::new()
        .set("null", CursorValue::Null)
        .set("flag", CursorValue::Bool(true))
        .set("big", CursorValue::Unsigned(u64::MAX))
        .set("low", CursorValue::Signed(i64::MIN))
        .set("text", CursorValue::String("ä \" \\ \u{1} \u{1F600}".to_string()));
    let token = state.encode();
    assert!(token
        .chars()
        .all(|c| c.is_ascii_alphanumeric() || c == '-' || c == '_'));
    assert_eq!(CursorState::decode(&token), Ok(state));
    assert_eq!(
        CursorState::new().set("n", CursorValue::Signed(5)),
        CursorState::new().set("n", CursorValue::Unsigned(5))
    );
    let empty = CursorState::new();
    assert_eq!(empty.encode(), "e30");
    assert_eq!(CursorState::decode("e30"), Ok(empty));
}

#[test]
fn cursor_members_are_read_by_their_json_kind() {
    let json = br#"{"a":1.5,"b":[1, 2],"c":-3,"d":1e300}"#;
    let token = base64::engine::general_purpose::URL_SAFE_NO_PAD.encode(json);
    let state = CursorState::decode(&token).unwrap();
    let expected = CursorState::new()
        .set("a", CursorValue::Float("1.5".to_string()))
        .set("b", CursorValue::Nested("[1,2]".to_string()))
        .set("c", CursorValue::Signed(-3))
        .set("d", CursorValue::Float("1e+300".to_string()));
    assert_eq!(state, expected);
    // Encoding again keeps nested values and fractions.
    assert_eq!(CursorState::decode(&state.encode()), Ok(state));
}

#[test]
fn cursor_errors_name_their_cause() {
    let reason = |token: &str| CursorState::decode(token).unwrap_err().message();
    assert_eq!(reason(""), "invalid cursor: empty cursor");
    assert_eq!(reason("!!"), "invalid cursor: malformed base64");
    assert_eq!(reason("e3"), "invalid cursor: malformed base64");
    assert_eq!(reason("eyI"), "invalid cursor: malformed json");
    assert_eq!(reason("W10"), "invalid cursor: cursor must be an object");
    assert_eq!(
        CursorState::from_members(None).unwrap_err().message(),
        "invalid cursor: cursor must be an object"
    );

    let sort = vec![SortClause::asc("a")];
    let keyset = |value: CursorValue| {
        keyset_condition(
            &sort,
            &CursorState::new().set("a", value),
            &columns(),
            SqlDialect::Sqlite,
            1,
            false,
        )
    };
    assert_eq!(
        keyset(CursorValue::Nested("[]".to_string()))
            .unwrap_err()
            .message(),
        "invalid cursor: cursor values must be scalar"
    );
    assert_eq!(
        keyset(CursorValue::Float("1.5".to_string())).unwrap(),
        (
            "(t.a > ?)".to_string(),
            vec![FilterParam::Number(numeral("1.5"))]
        )
    );
    assert_eq!(
        keyset_condition(
            &[SortClause::asc("b")],
            &CursorState::new(),
            &columns(),
            SqlDialect::Sqlite,
            1,
            false
        )
        .unwrap_err()
        .message(),
        "invalid cursor: cursor is missing sort field 'b'"
    );
}

#[test]
fn keysets_bind_each_prefix() {
    let map = columns().column("c", "t.c");
    let sort = [
        SortClause::asc("a"),
        SortClause::desc("b"),
        SortClause::asc("c"),
    ];
    let cursor = CursorState::new()
        .set("a", CursorValue::Unsigned(1))
        .set("b", CursorValue::Signed(-2))
        .set("c", CursorValue::Null);
    let (sql, params) =
        keyset_condition(&sort, &cursor, &map, SqlDialect::Postgres, 1, false).unwrap();
    assert_eq!(
        sql,
        "(t.a > $1 OR (t.a = $2 AND t.b < $3) OR (t.a = $4 AND t.b = $5 AND t.c > $6))"
    );
    assert_eq!(params.len(), 6);
    assert_eq!(params[2], FilterParam::Number(numeral("-2")));
    assert_eq!(params[5], FilterParam::Null);
}

#[test]
fn dsl_errors_name_their_cause() {
    let message = |input: &str| parse_filter_dsl(input, &schema()).unwrap_err().message();
    assert_eq!(message(""), "invalid filter syntax: empty expression");
    assert_eq!(message("a=1 &"), "invalid filter syntax: empty expression");
    assert_eq!(
        message("name"),
        "invalid filter syntax: no operator in condition 'name'"
    );
    assert_eq!(message(" = 1"), "invalid filter syntax: missing field in '= 1'");
    assert_eq!(
        message("age @ 1"),
        "invalid filter syntax: set must be parenthesized: '1'"
    );
    assert_eq!(message("name='x"), "unbalanced parentheses");
    assert_eq!(message("(a=1)(b=2)"), "unbalanced parentheses");
    assert_eq!(message("x=1"), "unsupported filter field 'x'");
    assert!(matches!(
        parse_filter_dsl("x=1", &schema()),
        Err(DslError::Validation(_))
    ));
}

#[test]
fn top_level_parts_rejoin_to_the_text() {
    for text in ["", "a", "a|b", "|a||", "(a|b)|'c|d'|e", "((x))|''"] {
        let parts = split_top_level(text, '|').unwrap();
        assert_eq!(parts.join("|"), text);
    }
    assert_eq!(
        split_top_level("(a|b)|'c|d'|e", '|').unwrap(),
        vec!["(a|b)", "'c|d'", "e"]
    );
    for text in ["(", ")", "'", "(a))", "'(' )"] {
        assert_eq!(
            split_top_level(text, '|'),
            Err(DslError::UnbalancedParentheses)
        );
    }
}

#[test]
fn dsl_reads_text_outside_ascii() {
    let schema = QuerySchema::new().allow_filter_field("größe", &[FilterOperator::Gte]);
    assert_eq!(
        parse_filter_dsl("größe >= 5", &schema),
        Ok(condition(
            "größe",
            FilterOperator::Gte,
            FilterScalar::Number(numeral("5"))
        ))
    );
}

#[test]
fn dsl_sets_may_be_empty_and_hold_quoted_commas() {
    let schema = QuerySchema::new().allow_filter_field("id", &[FilterOperator::In]);
    let value = |input: &str| match parse_filter_dsl(input, &schema).unwrap() {
        FilterNode::Condition { value, .. } => value,
        other => panic!("expected a condition, got {other:?}"),
    };
    assert_eq!(value("id @ ( )"), FilterValue::List(vec![]));
    assert_eq!(
        value("id @ ('a,b', null, x)"),
        FilterValue::List(vec![
            FilterScalar::String("a,b".to_string()),
            FilterScalar::Null,
            FilterScalar::String("x".to_string()),
        ])
    );
}

#[test]
fn layers_leave_other_keys_alone() {
    let mut config = Config::default();
    config.layer(&[("iam.a", "1"), ("iam.b", "2")]);
    config.layer(&[("iam.a", "3"), ("iam.a", "4")]);
    let section = config.section("iam");
    assert_eq!(section.get("a"), Some("4"));
    assert_eq!(section.require("b"), Ok("2"));
    assert_eq!(
        section.require("c").unwrap_err().message(),
        "missing required config key `iam.c`"
    );
    // A dot inside a namespace reaches into another one.
    assert_eq!(config.section("iam.a").get(""), None);
}

#[test]
fn header_pairs_are_safe_by_construction() {
    let pair = HeaderPair::new("X-Key", "secret").unwrap();
    assert_eq!(pair.name(), "X-Key");
    assert_eq!(pair.value(), "secret");
    assert_eq!(
        pair.debug_text(),
        "HeaderPair { name: \"X-Key\", value: \"<redacted>\" }"
    );
    assert_eq!(
        HeaderPair::new("X:Key", "v").err().unwrap().message(),
        "unsafe header name: \"X:Key\""
    );
    let material = HeaderAuthMaterial::none().with_header("A", "1").unwrap();
    assert_eq!(
        material.with_header("B", "\u{7f}").err(),
        Some(AuthMaterialError::UnsafeHeaderValue("B".to_string()))
    );
    let one = HeaderAuthMaterial::from_headers(&[("A", "1"), ("B", "2")]).unwrap();
    let other = HeaderAuthMaterial::from_headers(&[("A", "x"), ("B", "y")]).unwrap();
    assert_eq!(one.debug_text(), other.debug_text());
    assert_eq!(
        one.debug_text(),
        "HeaderAuthMaterial { headers: [HeaderPair { name: \"A\", value: \"<redacted>\" }, \
         HeaderPair { name: \"B\", value: \"<redacted>\" }] }"
    );
    assert_eq!(one.pairs().len(), 2);
}

#[test]
fn labels_count_the_sign_towards_their_width() {
    assert_eq!(version_label(0), "V0000");
    assert_eq!(version_label(-1), "V-001");
    assert_eq!(version_label(-1000), "V-1000");
    assert_eq!(version_label(i64::MIN), "V-9223372036854775808");
}

#[test]
fn labels_sort_and_differ_like_versions() {
    let labels: Vec<String> = [0, 1, 9, 10, 99, 100, 999, 1000, 9999]
        .iter()
        .map(|version| version_label(*version))
        .collect();
    let mut sorted = labels.clone();
    sorted.sort();
    sorted.dedup();
    assert_eq!(sorted, labels);
    // Beyond four digits a label keeps its digits and no longer sorts.
    assert!(version_label(10_000) < version_label(9_999));
}

#[test]
fn fresh_migrations_may_not_be_conditional() {
    for (sql, expected) in [
        ("CREATE TABLE IF NOT EXISTS t (id TEXT)", "IF NOT EXISTS"),
        ("drop table\n if  exists t", "IF EXISTS"),
        ("CREATE OR REPLACE VIEW v AS SELECT 1", "CREATE OR REPLACE"),
    ] {
        assert!(matches!(
            Migration::new(3, "x", sql).unwrap_err(),
            MigrationError::ConditionalSql { version: 3, clause } if clause == expected
        ));
        assert!(matches!(
            Migration::per_dialect(3, "x", "SELECT 1", sql).unwrap_err(),
            MigrationError::ConditionalSql { version: 3, clause } if clause == expected
        ));
    }
    // Words in comments and literals do not count.
    assert!(Migration::new(1, "x", "SELECT 'IF EXISTS' -- IF NOT EXISTS").is_ok());
}

fn identity(version: i64, sql: &str) -> String {
    let mut input = version_label(version).into_bytes();
    input.push(0);
    input.extend_from_slice(sql.as_bytes());
    sha256_hex(&input)
}

#[test]
fn published_bodies_are_pinned_to_their_checksums() {
    let sql = "CREATE TABLE IF NOT EXISTS t (id TEXT)";
    let pinned = identity(1, sql);
    assert!(Migration::published_legacy(1, "x", sql, pinned.clone()).is_ok());
    assert!(matches!(
        Migration::published_legacy(2, "x", sql, pinned.clone()).unwrap_err(),
        MigrationError::PublishedLegacyChecksumMismatch {
            version: 2,
            body_kind: "portable",
            ..
        }
    ));
    let lite = "CREATE TABLE IF NOT EXISTS t (id INTEGER)";
    assert!(Migration::published_legacy_per_dialect(
        1,
        "x",
        sql,
        lite,
        pinned.clone(),
        identity(1, lite)
    )
    .is_ok());
    assert!(matches!(
        Migration::published_legacy_per_dialect(1, "x", sql, lite, pinned.clone(), pinned)
            .unwrap_err(),
        MigrationError::PublishedLegacyChecksumMismatch {
            body_kind: "sqlite",
            ..
        }
    ));
}

#[test]
fn published_aliases_count_as_recorded() {
    let sql = "CREATE TABLE t (id TEXT)";
    let migration = Migration::published_legacy_with_aliases(
        1,
        "x",
        sql,
        identity(1, sql),
        vec!["other-track".to_string()],
    )
    .unwrap();
    let bundle = MigrationBundle::new("runtime.core", vec![migration]).unwrap();
    for recorded in [identity(1, sql), "other-track".to_string()] {
        let ledger = BTreeMap::from([(1, recorded)]);
        assert!(plan(&bundle, &ledger, Dialect::Sqlite).unwrap().is_empty());
    }
    let ledger = BTreeMap::from([(1, "unknown-track".to_string())]);
    assert!(matches!(
        plan(&bundle, &ledger, Dialect::Sqlite).unwrap_err(),
        MigrationError::ChecksumMismatch { actual, .. } if actual == identity(1, sql)
    ));
    assert_eq!(
        plan(&bundle, &BTreeMap::new(), Dialect::Sqlite).unwrap()[0].sql_for(Dialect::Sqlite),
        sql
    );
}

#[test]
fn plans_resume_where_a_run_stopped() {
    let bundle = MigrationBundle::new(
        "runtime.core",
        vec![
            Migration::new(1, "a", "CREATE TABLE a (id TEXT)").unwrap(),
            Migration::new(3, "b", "CREATE TABLE b (id TEXT)").unwrap(),
            Migration::new(7, "c", "CREATE TABLE c (id TEXT)").unwrap(),
        ],
    )
    .unwrap();
    let mut ledger = BTreeMap::new();
    let mut left = vec![1, 3, 7];
    loop {
        let pending: Vec<i64> = plan(&bundle, &ledger, Dialect::Postgres)
            .unwrap()
            .iter()
            .map(|m| m.version())
            .collect();
        assert_eq!(pending, left);
        if left.is_empty() {
            break;
        }
        let version = left.remove(0);
        let migration = bundle
            .migrations()
            .iter()
            .find(|m| m.version() == version)
            .unwrap();
        ledger.insert(version, migration.checksum_for(Dialect::Postgres));
    }
}

#[test]
fn lint_reads_every_body() {
    let bundle = MigrationBundle::new(
        "runtime.core",
        vec![Migration::per_dialect(
            1,
            "x",
            "CREATE TABLE a (id TEXT)",
            "CREATE TABLE a (id TEXT REFERENCES elsewhere)",
        )
        .unwrap()],
    )
    .unwrap();
    assert!(matches!(
        lint(&[bundle]).unwrap_err(),
        MigrationError::CrossBundleReference { table, version: 1, .. } if table == "elsewhere"
    ));
    assert!(lint(&[]).is_ok());
}

#[test]
fn rendering_leaves_text_without_tokens_alone() {
    for text in ["", "{ json }", "{PREFIX}", "{}", "SELECT '{x}'"] {
        assert_eq!(render(text, Dialect::Postgres, "p"), text);
        assert_eq!(render(text, Dialect::Sqlite, "p"), text);
    }
    assert_eq!(
        render("{prefix}{prefix} {json}", Dialect::Sqlite, "p"),
        "pp TEXT"
    );
}

#[test]
fn ledgers_are_created_reused_or_refused() {
    let schema = LedgerSchema::with_prefix("awaken").unwrap();
    assert_eq!(schema.ledger_table(), "awaken_schema_migrations");
    assert_eq!(schema.meta_table(), "awaken_schema_migrations_meta");
    assert_eq!(
        schema.bootstrap_action(false, false).unwrap(),
        LedgerBootstrapAction::Create
    );
    assert_eq!(
        schema.bootstrap_action(true, true).unwrap(),
        LedgerBootstrapAction::Reuse
    );
    for (ledger_exists, meta_exists) in [(true, false), (false, true)] {
        assert!(matches!(
            schema.bootstrap_action(ledger_exists, meta_exists).unwrap_err(),
            MigrationError::IncompleteLedger { ledger_exists: l, meta_exists: m, .. }
                if l == ledger_exists && m == meta_exists
        ));
    }
    assert!(schema.check_stamps(&vec![1]).is_ok());
    assert!(LedgerSchema::with_prefix("a-b").is_err());
}

#[test]
fn plain_migration_errors_name_their_cause() {
    let bundle = |id: &str, versions: &[i64]| {
        sql_migration::MigrationBundle::new(
            id,
            versions
                .iter()
                .map(|v| sql_migration::Migration::new(*v, "x", "SELECT 1").unwrap())
                .collect(),
        )
    };
    assert_eq!(
        bundle("-x", &[]).unwrap_err().message(),
        "invalid migration bundle id '-x'"
    );
    assert_eq!(
        bundle("x", &[3, 1]).unwrap_err().message(),
        "bundle 'x' migrations are not strictly increasing: 3 then 1"
    );
    assert_eq!(
        sql_migration::Migration::new(0, "x", "SELECT 1")
            .unwrap_err()
            .message(),
        "invalid migration 0: version must be positive"
    );
    assert_eq!(
        sql_migration::sql_identifier("1a").unwrap_err().message(),
        "invalid SQL identifier prefix '1a'"
    );
    let migration = sql_migration::Migration::new(1, "x", "SELECT 1").unwrap();
    assert_eq!(migration.checksum(), sha256_hex(b"SELECT 1"));
}

#[test]
fn numerals_compare_as_double_precision_numbers() {
    for (a, b) in [
        ("1", "1.0"),
        ("10", "1e1"),
        ("+.5", "0.50"),
        ("0", "-0"),
        ("-2.50", "-25e-1"),
        ("0.1", "0.1000000000000000055"),
        ("9007199254740992", "9007199254740993"),
        ("inf", "Infinity"),
        ("-inf", "-1e999"),
        ("0", "1e-999"),
    ] {
        assert_eq!(numeral(a), numeral(b), "{a} {b}");
        assert_eq!(numeral(b), numeral(a), "{b} {a}");
        assert_eq!(numeral(a), numeral(a));
        assert_eq!(FilterParam::Number(numeral(a)), FilterParam::Number(numeral(b)));
    }
    for (a, b) in [
        ("1", "2"),
        ("1", "-1"),
        ("inf", "-inf"),
        ("inf", "0"),
        ("9007199254740992", "9007199254740994"),
        ("nan", "nan"),
        ("nan", "0"),
        ("1", "NaN"),
    ] {
        assert_ne!(numeral(a), numeral(b), "{a} {b}");
        assert_ne!(numeral(b), numeral(a), "{b} {a}");
    }
    assert!(numeral("1").equals_given(&numeral("-2"), true, true));
    assert!(!numeral("1").equals_given(&numeral("-2"), true, false));
    assert!(!numeral("1").equals_given(&numeral("2"), false, true));
    assert!(!numeral("nan").equals_given(&numeral("2"), true, true));
}

#[test]
fn cursor_values_compare_as_json_values() {
    assert_eq!(CursorValue::Signed(5), CursorValue::Unsigned(5));
    assert_ne!(CursorValue::Signed(-5), CursorValue::Unsigned(5));
    let float = |text: &str| CursorValue::Float(text.to_string());
    assert_eq!(float("1.5"), float("15e-1"));
    assert_eq!(float("0.0"), float("-0.0"));
    assert_ne!(float("1.5"), float("-1.5"));
    // An integer and a number with a fraction are not the same JSON value.
    assert_ne!(float("1.0"), CursorValue::Unsigned(1));
    assert_eq!(float("nan"), CursorValue::Null);
    assert_ne!(CursorValue::Null, CursorValue::Bool(false));
    assert_ne!(
        CursorValue::String("a".to_string()),
        CursorValue::Nested("a".to_string())
    );
    assert_eq!(
        CursorState::new().set("a", float("1.50")),
        CursorState::new().set("a", float("1.5"))
    );
}

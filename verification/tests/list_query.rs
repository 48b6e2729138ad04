//! Parsing of list queries from decoded query pairs.
use awaken_foundation::api_contract::{
    parse_list_query, FilterNode, FilterOperator, FilterScalar, FilterValue, Numeral,
    PaginationConfig, PaginationMode, PaginationRequest, QueryError, QuerySchema, SortClause,
};

fn issue_completion_schema() -> QuerySchema {
    QuerySchema::new()
        .allow_filter_field("project_id", &[FilterOperator::Eq, FilterOperator::In])
        .allow_filter_field(
            "completed_at",
            &[
                FilterOperator::Gt,
                FilterOperator::Gte,
                FilterOperator::Lt,
                FilterOperator::Lte,
            ],
        )
        .allow_filter_field("category", &[FilterOperator::Eq, FilterOperator::In])
        .allow_sort_field("completed_at")
        .allow_sort_field("issue_id")
        .with_default_sort(vec![
            SortClause::desc("completed_at"),
            SortClause::asc("issue_id"),
        ])
        .with_page_config(PaginationConfig::new(20, 100))
}

#[test]
fn parses_bracket_filters_sort_and_cursor_page() {
    let query = parse_list_query(&[
            ("filter[project_id]", "019ede"),
            ("filter[completed_at][gt]", "2026-06-26T18:12:25Z"),
            ("filter[category][in]", "done,accepted"),
            ("sort", "-completed_at,issue_id"),
            ("page[size]", "50"),
            ("page[cursor]", "opaque"),
        ],
        &issue_completion_schema(),
    )
    .unwrap();

    assert_eq!(query.page.size(), 50);
    assert_eq!(query.page.cursor_value(), Some("opaque"));
    assert_eq!(
        query.sort,
        vec![
            SortClause::desc("completed_at"),
            SortClause::asc("issue_id")
        ]
    );
    let FilterNode::Group { conditions, .. } = query.filter else {
        panic!("expected group");
    };
    assert_eq!(conditions.len(), 3);
}

#[test]
fn applies_default_sort() {
    let query = parse_list_query(
        &[],
        &issue_completion_schema(),
    )
    .unwrap();
    assert_eq!(
        query.sort,
        vec![
            SortClause::desc("completed_at"),
            SortClause::asc("issue_id")
        ]
    );
    assert_eq!(query.page.size(), 20);
}

#[test]
fn rejects_unknown_filter_field() {
    let err = parse_list_query(&[("filter[state_key]", "done")], &issue_completion_schema())
        .unwrap_err();
    assert_eq!(
        err,
        QueryError::UnsupportedFilterField("state_key".to_string())
    );
}

#[test]
fn rejects_disallowed_operator() {
    let err = parse_list_query(&[("filter[category][gt]", "done")],
        &issue_completion_schema(),
    )
    .unwrap_err();
    assert_eq!(
        err,
        QueryError::OperatorNotAllowed {
            field: "category".to_string(),
            operator: FilterOperator::Gt
        }
    );
}

#[test]
fn rejects_unknown_sort_field() {
    let err =
        parse_list_query(&[("sort", "-state_key")], &issue_completion_schema()).unwrap_err();
    assert_eq!(
        err,
        QueryError::UnsupportedSortField("state_key".to_string())
    );
}

#[test]
fn rejects_page_size_above_surface_limit() {
    let err =
        parse_list_query(&[("page[size]", "101")], &issue_completion_schema()).unwrap_err();
    assert_eq!(
        err,
        QueryError::PageSizeTooLarge {
            size: 101,
            max: 100
        }
    );
}

#[test]
fn parses_every_bracket_operator_alias() {
    let schema = QuerySchema::new()
        .allow_filter_field(
            "field",
            &[
                FilterOperator::Eq,
                FilterOperator::Ne,
                FilterOperator::Gt,
                FilterOperator::Gte,
                FilterOperator::Lt,
                FilterOperator::Lte,
                FilterOperator::Like,
                FilterOperator::Ilike,
                FilterOperator::Contains,
                FilterOperator::StartsWith,
                FilterOperator::EndsWith,
                FilterOperator::In,
                FilterOperator::NotIn,
            ],
        )
        .with_page_config(PaginationConfig::new(20, 100));
    let cases = [
        ("filter[field]", FilterOperator::Eq),
        ("filter[field][eq]", FilterOperator::Eq),
        ("filter[field][ne]", FilterOperator::Ne),
        ("filter[field][gt]", FilterOperator::Gt),
        ("filter[field][gte]", FilterOperator::Gte),
        ("filter[field][lt]", FilterOperator::Lt),
        ("filter[field][lte]", FilterOperator::Lte),
        ("filter[field][like]", FilterOperator::Like),
        ("filter[field][ilike]", FilterOperator::Ilike),
        ("filter[field][contains]", FilterOperator::Contains),
        ("filter[field][startswith]", FilterOperator::StartsWith),
        ("filter[field][startsWith]", FilterOperator::StartsWith),
        ("filter[field][endswith]", FilterOperator::EndsWith),
        ("filter[field][endsWith]", FilterOperator::EndsWith),
        ("filter[field][in]", FilterOperator::In),
        ("filter[field][nin]", FilterOperator::NotIn),
        ("filter[field][notIn]", FilterOperator::NotIn),
        ("filter[field][not_in]", FilterOperator::NotIn),
    ];

    for (key, expected) in cases {
        let query = parse_list_query(&[(key, "value")], &schema).unwrap();
        let FilterNode::Group { conditions, .. } = query.filter else {
            panic!("expected group");
        };
        let FilterNode::Condition { operator, .. } = &conditions[0] else {
            panic!("expected condition");
        };
        assert_eq!(*operator, expected, "operator for {key}");
    }
}

#[test]
fn parses_filter_scalars_and_lists() {
    let schema = QuerySchema::new()
        .allow_filter_field("flag", &[FilterOperator::Eq])
        .allow_filter_field("count", &[FilterOperator::Eq])
        .allow_filter_field("empty", &[FilterOperator::Eq])
        .allow_filter_field("tags", &[FilterOperator::In])
        .with_page_config(PaginationConfig::new(20, 100));

    let query = parse_list_query(&[
            ("filter[flag]", "true"),
            ("filter[count]", "42"),
            ("filter[empty]", "null"),
            ("filter[tags][in]", "alpha,2,false,null"),
        ],
        &schema,
    )
    .unwrap();

    let FilterNode::Group { conditions, .. } = query.filter else {
        panic!("expected group");
    };
    assert_eq!(conditions.len(), 4);
    assert_eq!(
        conditions[0],
        FilterNode::Condition {
            field: "flag".to_string(),
            operator: FilterOperator::Eq,
            value: FilterValue::Scalar(FilterScalar::Bool(true))
        }
    );
    assert_eq!(
        conditions[1],
        FilterNode::Condition {
            field: "count".to_string(),
            operator: FilterOperator::Eq,
            value: FilterValue::Scalar(FilterScalar::Number(Numeral::parse("42").unwrap()))
        }
    );
    assert_eq!(
        conditions[2],
        FilterNode::Condition {
            field: "empty".to_string(),
            operator: FilterOperator::Eq,
            value: FilterValue::Scalar(FilterScalar::Null)
        }
    );
    assert_eq!(
        conditions[3],
        FilterNode::Condition {
            field: "tags".to_string(),
            operator: FilterOperator::In,
            value: FilterValue::List(vec![
                FilterScalar::String("alpha".to_string()),
                FilterScalar::Number(Numeral::parse("2").unwrap()),
                FilterScalar::Bool(false),
                FilterScalar::Null,
            ])
        }
    );
}

#[test]
fn rejects_malformed_filter_keys_and_unknown_operators() {
    let schema = QuerySchema::new()
        .allow_filter_field("field", &[FilterOperator::Eq])
        .with_page_config(PaginationConfig::new(20, 100));

    assert_eq!(
        parse_list_query(&[("filter", "x")], &schema).unwrap_err(),
        QueryError::InvalidFilterKey("filter".to_string())
    );
    assert_eq!(
        parse_list_query(&[("filter[][eq]", "x")], &schema).unwrap_err(),
        QueryError::InvalidFilterKey("filter[][eq]".to_string())
    );
    assert_eq!(
        parse_list_query(&[("filter[field][between]", "x")], &schema).unwrap_err(),
        QueryError::UnsupportedFilterOperator("between".to_string())
    );
}

#[test]
fn parses_page_number_pagination() {
    let query = parse_list_query(&[("page[size]", "10"), ("page[number]", "3")],
        &issue_completion_schema(),
    )
    .unwrap();
    assert_eq!(query.page, PaginationRequest::page(10, 3));
}

#[test]
fn parses_offset_pagination() {
    let query = parse_list_query(&[("limit", "10"), ("offset", "40")],
        &issue_completion_schema(),
    )
    .unwrap();
    assert_eq!(query.page, PaginationRequest::offset(10, 40));
}

#[test]
fn rejects_mixed_pagination_modes() {
    let err = parse_list_query(&[("cursor", "abc"), ("page[number]", "2")],
        &issue_completion_schema(),
    )
    .unwrap_err();
    assert_eq!(err, QueryError::ConflictingPagination);
}

#[test]
fn honors_non_cursor_default_pagination_modes() {
    let page_schema = issue_completion_schema().with_page_config(
        PaginationConfig::new(25, 100).with_default_mode(PaginationMode::Page),
    );
    let offset_schema = issue_completion_schema().with_page_config(
        PaginationConfig::new(25, 100).with_default_mode(PaginationMode::Offset),
    );

    assert_eq!(
        parse_list_query(&[], &page_schema)
            .unwrap()
            .page,
        PaginationRequest::page(25, 1)
    );
    assert_eq!(
        parse_list_query(&[], &offset_schema)
            .unwrap()
            .page,
        PaginationRequest::offset(25, 0)
    );
}

#[test]
fn rejects_invalid_numbered_pagination_values() {
    assert_eq!(
        parse_list_query(&[("page[number]", "0")], &issue_completion_schema()).unwrap_err(),
        QueryError::InvalidPageNumber("0".to_string())
    );
    assert_eq!(
        parse_list_query(&[("page[number]", "-1")], &issue_completion_schema()).unwrap_err(),
        QueryError::InvalidPageNumber("-1".to_string())
    );
    assert_eq!(
        parse_list_query(&[("offset", "-1")], &issue_completion_schema()).unwrap_err(),
        QueryError::InvalidPageOffset("-1".to_string())
    );
}

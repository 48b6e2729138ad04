//! Opaque cursor encode/decode and keyset condition building.
use awaken_foundation::api_contract::{Numeral, SortClause};
use awaken_foundation::query::{
    keyset_condition, CursorState, CursorValue, Dialect, FieldMap, FilterParam, QueryBuildError,
    RAW_VALUE_KEY,
};
use base64::Engine as _;

fn map() -> FieldMap {
    FieldMap::new()
        .column("completed_at", "completed_at")
        .column("id", "id")
}

fn sort() -> Vec<SortClause> {
    vec![SortClause::desc("completed_at"), SortClause::asc("id")]
}

fn cursor() -> CursorState {
    CursorState::new()
        .set("completed_at", CursorValue::String("2026-06-01".to_string()))
        .set("id", CursorValue::Unsigned(42))
}

#[test]
fn cursor_round_trips_through_opaque_token() {
    let state = cursor();
    let token = state.encode();
    // Opaque: not the raw values.
    assert!(!token.contains("2026"));
    let decoded = CursorState::decode(&token).unwrap();
    assert_eq!(decoded, state);
}

#[test]
fn decode_rejects_garbage() {
    assert!(matches!(
        CursorState::decode(""),
        Err(QueryBuildError::InvalidCursor(_))
    ));
    assert!(matches!(
        CursorState::decode("!!!not-base64!!!"),
        Err(QueryBuildError::InvalidCursor(_))
    ));
    // Valid base64 of a non-object JSON value.
    let array = base64_token(b"[1,2,3]");
    assert!(matches!(
        CursorState::decode(&array),
        Err(QueryBuildError::InvalidCursor(_))
    ));
}

fn base64_token(bytes: &[u8]) -> String {
    base64::engine::general_purpose::URL_SAFE_NO_PAD.encode(bytes)
}

#[test]
fn forward_keyset_is_compound_row_value_postgres() {
    let (sql, params) =
        keyset_condition(&sort(), &cursor(), &map(), Dialect::Postgres, 1, false).unwrap();
    assert_eq!(
        sql,
        "(completed_at < $1 OR (completed_at = $2 AND id > $3))"
    );
    assert_eq!(
        params,
        vec![
            FilterParam::String("2026-06-01".to_string()),
            FilterParam::String("2026-06-01".to_string()),
            FilterParam::Number(Numeral::parse("42").unwrap()),
        ]
    );
}

#[test]
fn forward_keyset_uses_anonymous_placeholders_sqlite() {
    let (sql, _) = keyset_condition(&sort(), &cursor(), &map(), Dialect::Sqlite, 1, false).unwrap();
    assert_eq!(sql, "(completed_at < ? OR (completed_at = ? AND id > ?))");
}

#[test]
fn backward_keyset_flips_every_comparison() {
    let (sql, _) =
        keyset_condition(&sort(), &cursor(), &map(), Dialect::Postgres, 1, true).unwrap();
    // desc->`>` and asc->`<` once direction is reversed.
    assert_eq!(
        sql,
        "(completed_at > $1 OR (completed_at = $2 AND id < $3))"
    );
}

#[test]
fn keyset_respects_start_param() {
    let (sql, _) =
        keyset_condition(&sort(), &cursor(), &map(), Dialect::Postgres, 10, false).unwrap();
    assert_eq!(
        sql,
        "(completed_at < $10 OR (completed_at = $11 AND id > $12))"
    );
}

#[test]
fn missing_sort_value_fails_closed() {
    let partial = CursorState::new().set("completed_at", CursorValue::String("2026-06-01".to_string()));
    let err = keyset_condition(&sort(), &partial, &map(), Dialect::Postgres, 1, false).unwrap_err();
    assert!(matches!(err, QueryBuildError::InvalidCursor(_)));
}

#[test]
fn empty_sort_is_rejected() {
    let err = keyset_condition(&[], &cursor(), &map(), Dialect::Postgres, 1, false).unwrap_err();
    assert!(matches!(err, QueryBuildError::InvalidCursor(_)));
}

#[test]
fn unmapped_sort_field_is_rejected() {
    let bare = FieldMap::new().column("completed_at", "completed_at");
    let err = keyset_condition(&sort(), &cursor(), &bare, Dialect::Postgres, 1, false).unwrap_err();
    assert_eq!(err, QueryBuildError::UnmappedField("id".to_string()));
}

#[test]
fn cursor_values_are_kept_in_one_form() {
    let by_members = CursorState::from_members(Some(vec![
        ("a".to_string(), CursorValue::Signed(5)),
        ("b".to_string(), CursorValue::Float("nan".to_string())),
        ("c".to_string(), CursorValue::Float("x".to_string())),
        ("d".to_string(), CursorValue::Float("-1.5e3".to_string())),
        ("d".to_string(), CursorValue::Float("+.5".to_string())),
    ]))
    .unwrap();
    let by_set = CursorState::new()
        .set("a", CursorValue::Unsigned(5))
        .set("b", CursorValue::Null)
        .set("c", CursorValue::Float("infinity".to_string()))
        .set("d", CursorValue::Float("+.5".to_string()));
    assert_eq!(by_members, by_set);
    let integers = CursorState::from_members(Some(vec![
        ("a".to_string(), CursorValue::Signed(5)),
        ("b".to_string(), CursorValue::Signed(-5)),
    ]))
    .unwrap();
    assert_eq!(CursorState::decode(&integers.encode()), Ok(integers));
}

#[test]
fn a_reserved_field_name_does_not_come_back() {
    assert_eq!(RAW_VALUE_KEY, "$serde_json::private::RawValue");
    let state = CursorState::new().set(RAW_VALUE_KEY, CursorValue::String("x".to_string()));
    assert!(matches!(
        CursorState::decode(&state.encode()),
        Err(QueryBuildError::InvalidCursor(_))
    ));
}

#[test]
fn clones_of_a_cursor_hold_the_same_values() {
    let state = cursor()
        .set("null", CursorValue::Null)
        .set("flag", CursorValue::Bool(false))
        .set("low", CursorValue::Signed(-7))
        .set("fraction", CursorValue::Float("0.5".to_string()))
        .set("list", CursorValue::Nested("[1]".to_string()));
    assert_eq!(state.clone(), state);
    assert_ne!(cursor(), state);
}

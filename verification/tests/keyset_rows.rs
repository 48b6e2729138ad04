//! Keyset conditions and compiled filters on real rows.
use awaken_foundation::api_contract::{
    parse_list_query, FilterOperator, Numeral, PaginationConfig, QuerySchema, SortClause,
};
use awaken_foundation::query::{
    compile, keyset_condition, CompileOptions, CursorState, CursorValue, Dialect, FieldMap,
    FilterParam,
};
use rusqlite::types::Value;
use rusqlite::Connection;

fn rows() -> Vec<(i64, &'static str)> {
    vec![(1, "b"), (2, "a"), (2, "b"), (2, "c"), (3, "a"), (1, "a"), (3, "c")]
}

fn database() -> Connection {
    let conn = Connection::open_in_memory().unwrap();
    conn.execute_batch("CREATE TABLE item (rank INTEGER, id TEXT)")
        .unwrap();
    for (rank, id) in rows() {
        conn.execute("INSERT INTO item VALUES (?1, ?2)", (rank, id))
            .unwrap();
    }
    conn
}

fn number(numeral: &Numeral) -> f64 {
    numeral.text().parse().unwrap()
}

fn bound(params: &[FilterParam]) -> Vec<Value> {
    params
        .iter()
        .map(|param| match param {
            FilterParam::String(text) => Value::Text(text.clone()),
            FilterParam::Number(numeral) => Value::Real(number(numeral)),
            FilterParam::Bool(b) => Value::Integer(i64::from(*b)),
            FilterParam::Null => Value::Null,
            FilterParam::Array(_) => panic!("SQLite binds no arrays"),
        })
        .collect()
}

fn select(conn: &Connection, condition: &str, params: &[FilterParam]) -> Vec<(i64, String)> {
    let sql = format!("SELECT rank, id FROM item WHERE {condition} ORDER BY rank DESC, id ASC");
    let mut statement = conn.prepare(&sql).unwrap();
    let found = statement
        .query_map(rusqlite::params_from_iter(bound(params)), |row| {
            Ok((row.get(0)?, row.get(1)?))
        })
        .unwrap();
    found.collect::<Result<_, _>>().unwrap()
}

#[test]
fn pages_split_the_rows_at_the_cursor() {
    let conn = database();
    let map = FieldMap::new().column("rank", "rank").column("id", "id");
    let sort = [SortClause::desc("rank"), SortClause::asc("id")];
    let mut ordered: Vec<(i64, String)> = rows()
        .into_iter()
        .map(|(rank, id)| (rank, id.to_string()))
        .collect();
    ordered.sort_by(|a, b| b.0.cmp(&a.0).then(a.1.cmp(&b.1)));

    for (place, (rank, id)) in ordered.iter().enumerate() {
        let cursor = CursorState::new()
            .set("rank", CursorValue::Signed(*rank))
            .set("id", CursorValue::String(id.clone()));
        let cursor = CursorState::decode(&cursor.encode()).unwrap();
        let page = |backward| {
            let (sql, params) =
                keyset_condition(&sort, &cursor, &map, Dialect::Sqlite, 1, backward).unwrap();
            select(&conn, &sql, &params)
        };
        assert_eq!(page(false), ordered[place + 1..].to_vec());
        assert_eq!(page(true), ordered[..place].to_vec());
    }
}

#[test]
fn compiled_filters_select_what_they_say() {
    let conn = database();
    let schema = QuerySchema::new()
        .allow_filter_field(
            "rank",
            &[FilterOperator::Gte, FilterOperator::In, FilterOperator::NotIn],
        )
        .allow_filter_field("id", &[FilterOperator::Ne, FilterOperator::Contains])
        .with_page_config(PaginationConfig::new(20, 100));
    let map = FieldMap::from_schema(&schema);
    let count = |pairs: &[(&str, &str)]| {
        let query = parse_list_query(pairs, &schema).unwrap();
        let fragment =
            compile(&query, &map, Dialect::Sqlite, &CompileOptions::default()).unwrap();
        select(&conn, &fragment.where_clause.unwrap(), &fragment.params).len()
    };
    assert_eq!(count(&[("filter[rank][gte]", "2")]), 5);
    assert_eq!(count(&[("filter[rank][in]", "1,3")]), 4);
    assert_eq!(count(&[("filter[rank][not_in]", "1,3")]), 3);
    assert_eq!(count(&[("filter[id][ne]", "a")]), 4);
    assert_eq!(count(&[("filter[id][contains]", "%")]), 0);
    assert_eq!(count(&[("filter[id][contains]", "B")]), 2);
    assert_eq!(count(&[("filter[rank][gte]", "2"), ("filter[id][ne]", "c")]), 3);
}

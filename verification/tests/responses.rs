use olap_engine::clickhouse::{check_response, client_settings, request_params, response_lines};
use olap_engine::config::{default_database, default_max_preaggregate_rows, default_timeout_secs, ClickHouseConfig, LimitsConfig};
use olap_engine::error::EngineError;
use olap_engine::json::{JsonNumber, JsonValue};

fn num(n: i64) -> JsonValue {
    JsonValue::Number(JsonNumber { text: n.to_string(), fixed_text: format!("{:025.6}", n as f64) })
}

fn config(url: &str) -> ClickHouseConfig {
    ClickHouseConfig {
        url: url.to_string(),
        database: "analytics".to_string(),
        username: Some("reader".to_string()),
        password: None,
        query_timeout_secs: 30,
        max_preaggregate_rows: 500_000,
    }
}

#[test]
fn error_codes_statuses_and_messages() {
    let cases: Vec<(EngineError, &str, u16, bool, &str)> = vec![
        (EngineError::ValidationFailed("bad".to_string()), "VALIDATION_FAILED", 400, false, "bad"),
        (
            EngineError::FieldNotAllowed("x".to_string()),
            "FIELD_NOT_ALLOWED",
            400,
            false,
            "Field 'x' is not available in this model.",
        ),
        (
            EngineError::PreaggregateToLarge("m".to_string()),
            "PREAGGREGATE_TOO_LARGE",
            400,
            false,
            "Result would be too large. Narrow filters or remove a dimension. (m)",
        ),
        (
            EngineError::ResultTooLarge("m".to_string()),
            "RESULT_TOO_LARGE",
            400,
            false,
            "Result exceeds Excel cell limit. Narrow filters or remove a dimension. (m)",
        ),
        (EngineError::QueryTimeout, "QUERY_TIMEOUT", 504, false, "Query timed out. Try narrowing your date range."),
        (EngineError::Cancelled, "CANCELLED", 200, false, "Query was cancelled."),
        (
            EngineError::ClickHouseUnavailable("down".to_string()),
            "CLICKHOUSE_UNAVAILABLE",
            503,
            true,
            "ClickHouse is temporarily unavailable. Please retry.",
        ),
        (EngineError::ModelNotFound("s".to_string()), "MODEL_NOT_FOUND", 404, false, "Model 's' not found."),
        (
            EngineError::Internal("oops".to_string()),
            "INTERNAL",
            500,
            false,
            "An internal error occurred. Please contact support.",
        ),
    ];
    for (e, code, status, retriable, message) in cases {
        assert_eq!(e.code(), code);
        assert_eq!(e.status_code(), status);
        assert_eq!(e.retriable(), retriable);
        assert_eq!(e.message_user(), message);
    }
    assert_eq!(EngineError::ModelNotFound("s".to_string()).message(), "model not found: s");
    assert_eq!(EngineError::QueryTimeout.message(), "query timed out");
}

#[test]
fn failed_responses_become_timeouts_or_unavailability() {
    match check_response(false, "500 Internal Server Error", "Code: 159. TIMEOUT_EXCEEDED", vec![], 3, 10) {
        Err(EngineError::QueryTimeout) => {}
        _ => panic!("expected QueryTimeout"),
    }
    match check_response(false, "500 Internal Server Error", "Code: 209. SOCKET_TIMED_OUT", vec![], 3, 10) {
        Err(EngineError::QueryTimeout) => {}
        _ => panic!("expected QueryTimeout"),
    }
    match check_response(false, "502 Bad Gateway", "boom", vec![], 3, 10) {
        Err(EngineError::ClickHouseUnavailable(m)) => assert_eq!(m, "HTTP 502 Bad Gateway: boom"),
        _ => panic!("expected ClickHouseUnavailable"),
    }
}

#[test]
fn successful_responses_drop_null_rows_and_check_the_row_limit() {
    let rows = vec![num(1), JsonValue::Null, num(2)];
    let q = check_response(true, "200 OK", "", rows, 7, 2).unwrap();
    assert_eq!(q.rows.len(), 2);
    assert_eq!(q.rows[1].to_string_lossy(), "2");
    assert_eq!(q.elapsed_ms, 7);
    match check_response(true, "200 OK", "", vec![num(1), num(2), num(3)], 7, 2) {
        Err(EngineError::PreaggregateToLarge(m)) => assert_eq!(m, "ClickHouse returned 3 rows, limit is 2"),
        _ => panic!("expected PreaggregateToLarge"),
    }
}

#[test]
fn body_lines_skip_blank_ones() {
    let lines = response_lines("{\"a\":1}\r\n\n   \n{\"a\":2}\n");
    assert_eq!(lines, vec!["{\"a\":1}".to_string(), "{\"a\":2}".to_string()]);
    assert!(response_lines("").is_empty());
    assert_eq!(response_lines("x\r"), vec!["x\r".to_string()]);
}

#[test]
fn client_settings_trim_the_url() {
    let s = client_settings(&config("http://localhost:8123///"));
    assert_eq!(s.base_url, "http://localhost:8123");
    assert_eq!(s.database, "analytics");
    assert_eq!(s.username.as_deref(), Some("reader"));
    assert_eq!(s.password, None);
    assert_eq!(s.timeout_secs, 30);
    assert_eq!(s.max_preaggregate_rows, 500_000);
    assert_eq!(client_settings(&config("http://h:1/x")).base_url, "http://h:1/x");
}

#[test]
fn request_params_put_database_first_and_credentials_last() {
    let mut cfg = config("http://h");
    cfg.password = Some("pw".to_string());
    let s = client_settings(&cfg);
    let pairs = request_params(&s, &vec![("param_p0".to_string(), "LV".to_string())]);
    assert_eq!(
        pairs,
        vec![
            ("database".to_string(), "analytics".to_string()),
            ("param_p0".to_string(), "LV".to_string()),
            ("user".to_string(), "reader".to_string()),
            ("password".to_string(), "pw".to_string()),
        ]
    );
}

#[test]
fn configuration_defaults() {
    assert_eq!(default_database(), "default");
    assert_eq!(default_timeout_secs(), 30);
    assert_eq!(default_max_preaggregate_rows(), 500_000);
    let limits = LimitsConfig::default();
    assert_eq!(limits.max_cells, 500_000);
    assert_eq!(limits.max_groups, 200_000);
}

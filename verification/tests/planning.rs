use olap_engine::cache::{cache_key, md5_of};
use olap_engine::clickhouse::QueryResult;
use olap_engine::config::LimitsConfig;
use olap_engine::error::EngineError;
use olap_engine::json::{JsonNumber, JsonValue};
use olap_engine::query::plan::SubQueryKind;
use olap_engine::query::plan::filter_param_count;
use olap_engine::query::{check_request, parse_agg, plan};
use olap_engine::semantic::{DimensionConfig, GuardsConfig, MeasureConfig, ModelConfig, ModelStore, SemanticModel, SourceConfig};
use olap_engine::session::{accept_rows, answer_from_cache, begin_query, describe_model, finish_query, key_to_store, mark_cached};
use olap_engine::types::{
    AggType, DateGranularity, FieldRef, Filter, FilterOp, MeasureRef, PivotRequest, RequestLimits, TotalsConfig,
};

fn dim(field: &str, dim_type: &str) -> DimensionConfig {
    DimensionConfig { field: field.to_string(), label: None, dim_type: dim_type.to_string(), hierarchy: vec![] }
}

fn measure(id: &str, field: &str, aggs: &[&str], additive: bool) -> MeasureConfig {
    MeasureConfig {
        id: id.to_string(),
        field: field.to_string(),
        label: Some(id.to_uppercase()),
        allowed_agg: aggs.iter().map(|a| a.to_string()).collect(),
        additive,
        format: Some("integer".to_string()),
    }
}

fn sales_config(id: &str) -> ModelConfig {
    ModelConfig {
        id: id.to_string(),
        label: Some("Sales".to_string()),
        source: SourceConfig { table: "analytics.sales".to_string() },
        dimensions: vec![
            dim("region", "categorical"),
            dim("product_category", "categorical"),
            dim("order_date", "date"),
            dim("customer_id", "categorical"),
        ],
        measures: vec![
            measure("revenue", "amount", &["sum", "avg"], true),
            measure("orders", "order_id", &["count_distinct"], false),
        ],
        filterable_fields: vec!["region".to_string(), "order_date".to_string(), "customer_id".to_string()],
        guards: GuardsConfig { max_groups: 1000, high_cardinality_fields: vec!["customer_id".to_string()] },
    }
}

fn sales_model() -> SemanticModel {
    SemanticModel::new(sales_config("sales"))
}

fn fref(field: &str) -> FieldRef {
    FieldRef { field: field.to_string(), date_granularity: None, sort: None, top_n: None }
}

fn mref(id: &str, agg: Option<AggType>) -> MeasureRef {
    MeasureRef { id: id.to_string(), field: None, agg, measure_type: None, expr: None }
}

fn text(s: &str) -> JsonValue {
    JsonValue::String(s.to_string())
}

fn num(n: i64) -> JsonValue {
    JsonValue::Number(JsonNumber { text: n.to_string(), fixed_text: format!("{:025.6}", n as f64) })
}

fn request() -> PivotRequest {
    let mut month = fref("order_date");
    month.date_granularity = Some(DateGranularity::Month);
    PivotRequest {
        api_version: "1".to_string(),
        request_id: "req-1".to_string(),
        model_id: "sales".to_string(),
        rows: vec![fref("region"), fref("product_category")],
        columns: vec![month],
        measures: vec![mref("revenue", None), mref("orders", Some(AggType::CountDistinct))],
        filters: vec![],
        totals: TotalsConfig { row_subtotals: true, column_subtotals: false, grand_total: true },
        limits: RequestLimits::default(),
    }
}

fn error_code(r: Result<olap_engine::query::QueryPlan, EngineError>) -> String {
    match r {
        Ok(_) => "OK".to_string(),
        Err(e) => e.code().to_string(),
    }
}

#[test]
fn plan_lists_main_subtotals_and_grand_total() {
    let p = plan(&request(), &sales_model(), 500).unwrap();
    let kinds: Vec<SubQueryKind> = p.sub_queries.iter().map(|s| s.kind).collect();
    assert_eq!(kinds, vec![SubQueryKind::Main, SubQueryKind::RowSubtotal { level: 1 }, SubQueryKind::GrandTotal]);
    assert_eq!(p.table, "analytics.sales");
    assert_eq!(p.max_groups, 500);
    assert_eq!(p.col_fields[0].alias, "order_date@month");
    assert_eq!(p.col_fields[0].sql_expr, "toStartOfMonth(order_date)");
    assert_eq!(p.measures[0].agg, AggType::Sum);
    assert_eq!(p.measures[1].agg, AggType::CountDistinct);
    assert_eq!(
        p.sub_queries[1].select_aliases,
        vec!["region".to_string(), "order_date@month".to_string(), "revenue".to_string(), "orders".to_string()]
    );
    assert_eq!(p.sub_queries[0].measure_aliases, vec!["revenue".to_string(), "orders".to_string()]);
}

#[test]
fn plan_without_totals_has_only_the_main_query() {
    let mut req = request();
    req.totals = TotalsConfig { row_subtotals: false, column_subtotals: true, grand_total: false };
    let p = plan(&req, &sales_model(), 500).unwrap();
    assert_eq!(p.sub_queries.len(), 1);
    assert_eq!(p.sub_queries[0].kind, SubQueryKind::Main);
}

#[test]
fn plan_refuses_fields_outside_the_model() {
    let mut req = request();
    req.columns.push(fref("secret"));
    match plan(&req, &sales_model(), 500) {
        Err(EngineError::FieldNotAllowed(f)) => assert_eq!(f, "secret"),
        _ => panic!("expected FieldNotAllowed"),
    }
}

#[test]
fn plan_refuses_granularity_on_a_non_date_dimension() {
    let mut req = request();
    req.rows[0].date_granularity = Some(DateGranularity::Year);
    match plan(&req, &sales_model(), 500) {
        Err(EngineError::ValidationFailed(m)) => assert_eq!(
            m,
            "date_granularity is only allowed on date dimensions, but 'region' has type 'categorical'"
        ),
        _ => panic!("expected ValidationFailed"),
    }
}

#[test]
fn plan_refuses_unknown_measures_and_aggregations() {
    let mut req = request();
    req.measures.push(mref("margin", None));
    match plan(&req, &sales_model(), 500) {
        Err(EngineError::FieldNotAllowed(f)) => assert_eq!(f, "measure 'margin'"),
        _ => panic!("expected FieldNotAllowed"),
    }
    let mut req = request();
    req.measures[0].agg = Some(AggType::Max);
    match plan(&req, &sales_model(), 500) {
        Err(EngineError::ValidationFailed(m)) => {
            assert_eq!(m, "aggregation 'Max' is not allowed for measure 'revenue' (allowed: sum, avg)")
        }
        _ => panic!("expected ValidationFailed"),
    }
}

#[test]
fn plan_skips_calculated_measures() {
    let mut req = request();
    let mut calc = mref("ratio", None);
    calc.measure_type = Some("calculated".to_string());
    req.measures.push(calc);
    let p = plan(&req, &sales_model(), 500).unwrap();
    assert_eq!(p.measures.len(), 2);
}

#[test]
fn plan_refuses_filters_outside_filterable_fields_and_dimensions() {
    let mut req = request();
    req.filters.push(Filter { field: "product_category".to_string(), op: FilterOp::Eq, value: text("x") });
    assert!(plan(&req, &sales_model(), 500).is_ok());
    req.filters.push(Filter { field: "amount".to_string(), op: FilterOp::Eq, value: text("x") });
    match plan(&req, &sales_model(), 500) {
        Err(EngineError::FieldNotAllowed(f)) => assert_eq!(f, "filter field 'amount'"),
        _ => panic!("expected FieldNotAllowed"),
    }
}

#[test]
fn high_cardinality_grouping_needs_a_filter_or_top_n() {
    let mut req = request();
    req.rows.push(fref("customer_id"));
    match plan(&req, &sales_model(), 500) {
        Err(EngineError::PreaggregateToLarge(m)) => {
            assert_eq!(m, "field 'customer_id' is high-cardinality; add a filter or top_n limit")
        }
        _ => panic!("expected PreaggregateToLarge"),
    }
    let mut bounded = req.clone();
    bounded.filters.push(Filter {
        field: "customer_id".to_string(),
        op: FilterOp::In,
        value: JsonValue::Array(vec![text("c1"), text("c2")]),
    });
    assert_eq!(error_code(plan(&bounded, &sales_model(), 500)), "OK");
    let mut ranged = req.clone();
    ranged.filters.push(Filter { field: "customer_id".to_string(), op: FilterOp::Gt, value: text("c1") });
    assert_eq!(error_code(plan(&ranged, &sales_model(), 500)), "PREAGGREGATE_TOO_LARGE");
    let mut topped = req.clone();
    topped.rows[2].top_n = Some(10);
    assert_eq!(error_code(plan(&topped, &sales_model(), 500)), "OK");
}

#[test]
fn filters_become_numbered_parameters() {
    let mut req = request();
    req.filters = vec![
        Filter { field: "region".to_string(), op: FilterOp::In, value: JsonValue::Array(vec![text("LV"), text("EE")]) },
        Filter {
            field: "order_date".to_string(),
            op: FilterOp::Between,
            value: JsonValue::Array(vec![text("2025-01-01"), text("2025-03-31")]),
        },
        Filter { field: "customer_id".to_string(), op: FilterOp::IsNull, value: JsonValue::Null },
        Filter { field: "region".to_string(), op: FilterOp::Neq, value: text("\"FI\"") },
        Filter { field: "order_date".to_string(), op: FilterOp::Gte, value: num(2025) },
    ];
    let p = plan(&req, &sales_model(), 500).unwrap();
    assert_eq!(
        p.filter_params.clauses,
        vec![
            "region IN ({p0:String}, {p1:String})".to_string(),
            "order_date BETWEEN {p2:Date} AND {p3:Date}".to_string(),
            "customer_id IS NULL".to_string(),
            "region != {p4:String}".to_string(),
            "order_date >= {p5:Date}".to_string(),
        ]
    );
    let values: Vec<(String, String)> = p.filter_params.params.clone();
    assert_eq!(
        values,
        vec![
            ("p0".to_string(), "LV".to_string()),
            ("p1".to_string(), "EE".to_string()),
            ("p2".to_string(), "2025-01-01".to_string()),
            ("p3".to_string(), "2025-03-31".to_string()),
            ("p4".to_string(), "\"FI\"".to_string()),
            ("p5".to_string(), "2025".to_string()),
        ]
    );
}

#[test]
fn filter_values_do_not_change_the_sql() {
    let model = sales_model();
    let mut a = request();
    a.filters = vec![Filter { field: "region".to_string(), op: FilterOp::Eq, value: text("LV") }];
    let mut b = request();
    b.filters = vec![Filter { field: "region".to_string(), op: FilterOp::Eq, value: text("'; DROP TABLE sales; --") }];
    let pa = plan(&a, &model, 500).unwrap();
    let pb = plan(&b, &model, 500).unwrap();
    for kind in [SubQueryKind::Main, SubQueryKind::RowSubtotal { level: 1 }, SubQueryKind::GrandTotal] {
        let (sa, qa) = olap_engine::query::build_sql(&pa, &kind);
        let (sb, qb) = olap_engine::query::build_sql(&pb, &kind);
        assert_eq!(sa, sb);
        assert_eq!(qa, vec![("param_p0".to_string(), "LV".to_string())]);
        assert_eq!(qb, vec![("param_p0".to_string(), "'; DROP TABLE sales; --".to_string())]);
        assert!(!sb.contains("DROP"));
    }
}

#[test]
fn aggregation_names_read_back() {
    for a in [AggType::Sum, AggType::Count, AggType::CountDistinct, AggType::Min, AggType::Max, AggType::Avg] {
        assert_eq!(parse_agg(a.name()), a);
    }
    assert_eq!(parse_agg("median"), AggType::Sum);
    assert_eq!(AggType::CountDistinct.to_sql_expr("order_id"), "uniq(order_id)");
    assert_eq!(AggType::Avg.to_sql_expr("amount"), "avg(amount)");
    assert!(AggType::Sum.is_additive());
    assert!(AggType::Count.is_additive());
    assert!(!AggType::Max.is_additive());
    assert!(!AggType::Avg.is_additive());
    assert!(!AggType::CountDistinct.is_additive());
    assert_eq!(DateGranularity::Quarter.to_sql_expr("d"), "toStartOfQuarter(d)");
    assert_eq!(DateGranularity::Day.suffix(), "day");
}

#[test]
fn cache_key_ignores_request_id_and_limits() {
    let a = request();
    let mut b = request();
    b.request_id = "another".to_string();
    b.limits.max_cells = Some(10);
    b.limits.max_groups = Some(5);
    let ka = cache_key(&a).unwrap();
    assert_eq!(Some(ka.clone()), cache_key(&b));
    assert!(ka.len() <= 32 && ka.chars().all(|c| c.is_ascii_hexdigit()));
    let mut c = request();
    c.measures.pop();
    assert_ne!(Some(ka.clone()), cache_key(&c));
    let mut d = request();
    d.filters.push(Filter { field: "region".to_string(), op: FilterOp::Eq, value: text("LV") });
    let mut e = request();
    e.filters.push(Filter { field: "region".to_string(), op: FilterOp::Eq, value: text("EE") });
    assert_ne!(cache_key(&d), cache_key(&e));
}

#[test]
fn bypassing_requests_have_no_cache_key() {
    let mut req = request();
    req.limits.bypass_cache = Some(true);
    assert_eq!(cache_key(&req), None);
    req.limits.bypass_cache = Some(false);
    assert!(cache_key(&req).is_some());
}

#[test]
fn key_hash_exact_values() {
    assert_eq!(md5_of(""), 0x6c62272e07bb0142);
    assert_eq!(md5_of("a"), 0x831a66965cc635a3ef7c8d3f07bb0123);
    assert_eq!(md5_of("sales"), 0x83b9d8c8007196aefbe6d7ee07bb012a);
}

#[test]
fn store_keeps_one_model_per_id_in_order() {
    let mut store = ModelStore::new();
    assert!(store.get("sales").is_none());
    store.insert_model(SemanticModel::new(sales_config("sales")));
    store.insert_model(SemanticModel::new(sales_config("alpha")));
    let mut replacement = sales_config("sales");
    replacement.label = Some("Sales v2".to_string());
    store.insert_model(SemanticModel::new(replacement));
    assert_eq!(store.get("sales").unwrap().config.label.as_deref(), Some("Sales v2"));
    let ids: Vec<String> = store.list().into_iter().map(|s| s.model_id).collect();
    assert_eq!(ids, vec!["alpha".to_string(), "sales".to_string()]);
}

#[test]
fn model_lookups_and_metadata() {
    let model = sales_model();
    assert_eq!(model.id(), "sales");
    assert_eq!(model.table(), "analytics.sales");
    assert!(model.validate_dimension_field("region"));
    assert!(!model.validate_dimension_field("amount"));
    assert!(model.validate_filter_field("order_date"));
    assert!(model.validate_filter_field("product_category"));
    assert!(!model.validate_filter_field("amount"));
    assert!(model.validate_measure_agg("orders", &AggType::CountDistinct));
    assert!(!model.validate_measure_agg("orders", &AggType::Sum));
    assert!(!model.validate_measure_agg("nothing", &AggType::Sum));
    assert_eq!(model.dimension("order_date").unwrap().dim_type, "date");
    assert_eq!(model.measure("revenue").unwrap().field, "amount");
    assert_eq!(model.guards().max_groups, 1000);
    let meta = model.to_metadata();
    assert_eq!(meta.model_id, "sales");
    assert_eq!(meta.dimensions.len(), 4);
    assert_eq!(meta.measures[0].allowed_agg, vec!["sum".to_string(), "avg".to_string()]);
    assert_eq!(meta.guards.high_cardinality_fields, vec!["customer_id".to_string()]);
    let summary = model.to_summary();
    assert_eq!(summary.label.as_deref(), Some("Sales"));
}

fn store() -> ModelStore {
    let mut s = ModelStore::new();
    s.insert_model(sales_model());
    s
}

#[test]
fn describing_a_missing_model_is_an_error() {
    let s = store();
    assert_eq!(describe_model(&s, "sales").unwrap().model_id, "sales");
    match describe_model(&s, "nope") {
        Err(EngineError::ModelNotFound(id)) => assert_eq!(id, "nope"),
        _ => panic!("expected ModelNotFound"),
    }
}

#[test]
fn a_query_runs_its_statements_in_order_and_checks_the_limits() {
    let s = store();
    let mut req = request();
    req.totals.row_subtotals = false;
    let limits = LimitsConfig { max_cells: 3, max_groups: 2 };
    let job = begin_query(&req, &s, &limits).unwrap();
    assert_eq!(job.statements.len(), 2);
    assert_eq!(job.statements[0].kind, SubQueryKind::Main);
    assert!(job.statements[0].sql.contains("LIMIT 3\n"));
    assert_eq!(job.max_cells, 3);

    let row = |r: &str, c: &str| {
        JsonValue::Object(vec![
            ("region".to_string(), text(r)),
            ("product_category".to_string(), text(c)),
            ("order_date@month".to_string(), text("2025-01-01")),
            ("revenue".to_string(), num(1)),
            ("orders".to_string(), num(1)),
        ])
    };
    let too_many = QueryResult { rows: vec![row("a", "x"), row("b", "x"), row("c", "x")], elapsed_ms: 1 };
    match accept_rows(&job, 0, too_many) {
        Err(EngineError::PreaggregateToLarge(m)) => assert_eq!(m, "sub-query returned >2 groups"),
        _ => panic!("expected PreaggregateToLarge"),
    }
    let main = accept_rows(&job, 0, QueryResult { rows: vec![row("a", "x"), row("b", "x")], elapsed_ms: 1 }).unwrap();
    let total = accept_rows(&job, 1, QueryResult { rows: vec![], elapsed_ms: 1 }).unwrap();
    assert_eq!(total.kind, SubQueryKind::GrandTotal);
    match finish_query(&job, vec![main, total], 5) {
        Err(EngineError::ResultTooLarge(m)) => assert_eq!(m, "4 cells exceed limit of 3"),
        _ => panic!("expected ResultTooLarge"),
    }
    req.limits.max_cells = Some(4);
    let job = begin_query(&req, &s, &limits).unwrap();
    let main = accept_rows(&job, 0, QueryResult { rows: vec![row("a", "x"), row("b", "x")], elapsed_ms: 1 }).unwrap();
    let resp = finish_query(&job, vec![main], 5).unwrap();
    assert_eq!(resp.cells.len(), 4);
    assert!(resp.data_version.len() >= 20 && resp.data_version.ends_with('Z'));
    assert_eq!(resp.request_id, "req-1");
    let cached = mark_cached(resp, "req-2".to_string());
    assert_eq!(cached.request_id, "req-2");
    assert!(cached.from_cache);
    assert_eq!(cached.cells.len(), 4);
}

#[test]
fn a_query_on_a_missing_model_or_invalid_request_fails_before_any_sql() {
    let s = store();
    let mut req = request();
    req.model_id = "nope".to_string();
    match begin_query(&req, &s, &LimitsConfig::default()) {
        Err(EngineError::ModelNotFound(id)) => assert_eq!(id, "nope"),
        _ => panic!("expected ModelNotFound"),
    }
    let mut req = request();
    req.rows.push(fref("customer_id"));
    match begin_query(&req, &s, &LimitsConfig::default()) {
        Err(e) => assert_eq!(e.code(), "PREAGGREGATE_TOO_LARGE"),
        Ok(_) => panic!("expected an error"),
    }
}

#[test]
fn filter_parameters_are_counted() {
    let filters = vec![
        Filter { field: "region".to_string(), op: FilterOp::In, value: JsonValue::Array(vec![text("LV"), text("EE"), text("FI")]) },
        Filter { field: "order_date".to_string(), op: FilterOp::Between, value: JsonValue::Null },
        Filter { field: "customer_id".to_string(), op: FilterOp::IsNotNull, value: JsonValue::Null },
        Filter { field: "region".to_string(), op: FilterOp::Lt, value: text("x") },
        Filter { field: "region".to_string(), op: FilterOp::NotIn, value: text("not an array") },
    ];
    assert_eq!(filter_param_count(&filters), Some(6));
    assert_eq!(filter_param_count(&vec![]), Some(0));
}

#[test]
fn checking_a_request_reports_its_first_error() {
    let model = sales_model();
    assert!(check_request(&request(), &model).is_ok());
    let mut req = request();
    req.rows.push(fref("secret"));
    req.measures.push(mref("nothing", None));
    match check_request(&req, &model) {
        Err(EngineError::FieldNotAllowed(f)) => assert_eq!(f, "secret"),
        _ => panic!("expected FieldNotAllowed"),
    }
}

#[test]
fn cache_answers_only_a_keyed_hit_and_stores_only_successes() {
    let s = store();
    let req = request();
    let job = begin_query(&req, &s, &LimitsConfig::default()).unwrap();
    let fresh = || finish_query(&job, vec![], 1).unwrap();
    let hit = answer_from_cache(&Some("k".to_string()), Some(fresh()), "req-9".to_string()).unwrap();
    assert_eq!(hit.request_id, "req-9");
    assert!(hit.from_cache);
    assert!(answer_from_cache(&None, Some(fresh()), "req-9".to_string()).is_none());
    assert!(answer_from_cache(&Some("k".to_string()), None, "req-9".to_string()).is_none());
    assert_eq!(key_to_store(Some("k".to_string()), &Ok(fresh())), Some("k".to_string()));
    assert_eq!(key_to_store(Some("k".to_string()), &Err(EngineError::QueryTimeout)), None);
    assert_eq!(key_to_store(None, &Ok(fresh())), None);
}

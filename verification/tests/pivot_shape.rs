use olap_engine::json::{JsonNumber, JsonValue};
use olap_engine::pivot::{json_sort_key, shape, SubQueryRows};
use olap_engine::query::plan::{FilterParams, QueryPlan, ResolvedField, SubQueryKind};
use olap_engine::query::ResolvedMeasure;
use olap_engine::types::{AxisMember, PivotResponse};
use olap_engine::types::AggType;

fn text(s: &str) -> JsonValue {
    JsonValue::String(s.to_string())
}

fn num(n: i64) -> JsonValue {
    JsonValue::Number(JsonNumber { text: n.to_string(), fixed_text: format!("{:025.6}", n as f64) })
}

fn obj(members: Vec<(&str, JsonValue)>) -> JsonValue {
    JsonValue::Object(members.into_iter().map(|(k, v)| (k.to_string(), v)).collect())
}

fn row(region: &str, month: &str, revenue: i64, orders: i64) -> JsonValue {
    obj(vec![
        ("region", text(region)),
        ("order_date@month", text(month)),
        ("revenue", num(revenue)),
        ("orders", num(orders)),
    ])
}

fn field(name: &str, sql_expr: &str, alias: &str) -> ResolvedField {
    ResolvedField { model_field: name.to_string(), sql_expr: sql_expr.to_string(), alias: alias.to_string() }
}

fn make_plan() -> QueryPlan {
    QueryPlan {
        table: "sales".to_string(),
        row_fields: vec![field("region", "region", "region")],
        col_fields: vec![field("order_date", "toStartOfMonth(order_date)", "order_date@month")],
        measures: vec![
            ResolvedMeasure {
                id: "revenue".to_string(),
                field: "amount".to_string(),
                agg: AggType::Sum,
                additive: true,
                format: Some("currency".to_string()),
            },
            ResolvedMeasure {
                id: "orders".to_string(),
                field: "order_id".to_string(),
                agg: AggType::CountDistinct,
                additive: false,
                format: Some("integer".to_string()),
            },
        ],
        filter_params: FilterParams::default(),
        sub_queries: vec![],
        max_groups: 200_000,
    }
}

fn string_of(v: &JsonValue) -> &str {
    match v {
        JsonValue::String(s) => s.as_str(),
        _ => panic!("not a string"),
    }
}

fn find_member<'a>(members: &'a [AxisMember], pick: impl Fn(&AxisMember) -> bool) -> Option<&'a AxisMember> {
    members.iter().find(|m| pick(m))
}

#[test]
fn shape_leaf_rows_produces_correct_axes() {
    let plan = make_plan();
    let sub = SubQueryRows {
        kind: SubQueryKind::Main,
        rows: vec![row("EE", "2025-01-01", 5000, 10), row("LV", "2025-01-01", 12500, 87)],
        elapsed_ms: 100,
    };

    let resp = shape("req-1", &plan, vec![sub], 10, "2025-06-01T00:00:00Z".to_string());

    assert_eq!(resp.status, "ok");
    assert_eq!(resp.row_axis.members.len(), 2);
    assert_eq!(resp.column_axis.members.len(), 1);
    assert_eq!(resp.cells.len(), 4); // 2 rows × 2 measures
}

#[test]
fn shape_grand_total_marked_correctly() {
    let plan = make_plan();
    let main_sub = SubQueryRows {
        kind: SubQueryKind::Main,
        rows: vec![row("LV", "2025-01-01", 12500, 87)],
        elapsed_ms: 50,
    };
    let total_sub = SubQueryRows {
        kind: SubQueryKind::GrandTotal,
        // Non-additive total from ClickHouse: orders=87 is computed by uniq(), not summed
        rows: vec![obj(vec![
            ("order_date@month", text("2025-01-01")),
            ("revenue", num(12500)),
            ("orders", num(87)),
        ])],
        elapsed_ms: 30,
    };

    let resp = shape("req-2", &plan, vec![main_sub, total_sub], 20, "2025-06-01T00:00:00Z".to_string());

    let grand_total = find_member(&resp.row_axis.members, |m| m.is_grand_total == Some(true));
    assert!(grand_total.is_some(), "grand total row must be present");
    assert!(grand_total.unwrap().key[0].same(&text("__GRAND_TOTAL__")));
}

#[test]
fn shape_subtotal_sentinel_value() {
    let mut plan = make_plan();
    plan.row_fields.push(field("product_category", "product_category", "product_category"));

    let main_sub = SubQueryRows {
        kind: SubQueryKind::Main,
        rows: vec![obj(vec![
            ("region", text("LV")),
            ("product_category", text("Electronics")),
            ("order_date@month", text("2025-01-01")),
            ("revenue", num(5000)),
            ("orders", num(30)),
        ])],
        elapsed_ms: 50,
    };
    let subtotal_sub = SubQueryRows {
        kind: SubQueryKind::RowSubtotal { level: 1 },
        // Non-additive orders computed by ClickHouse at region level
        rows: vec![row("LV", "2025-01-01", 5000, 30)],
        elapsed_ms: 30,
    };

    let resp = shape("req-3", &plan, vec![main_sub, subtotal_sub], 20, "2025-06-01T00:00:00Z".to_string());

    let subtotal = find_member(&resp.row_axis.members, |m| m.is_subtotal == Some(true));
    assert!(subtotal.is_some(), "subtotal row must exist");
    assert!(subtotal.unwrap().key[1].same(&text("__TOTAL__")));
}

#[test]
fn column_axis_is_sorted() {
    let plan = make_plan();
    let sub = SubQueryRows {
        kind: SubQueryKind::Main,
        rows: vec![
            // ClickHouse returns these in random order
            row("LV", "2025-03-01", 3000, 20),
            row("LV", "2025-01-01", 1000, 10),
            row("LV", "2025-02-01", 2000, 15),
        ],
        elapsed_ms: 50,
    };

    let resp = shape("req-4", &plan, vec![sub], 10, "2025-06-01T00:00:00Z".to_string());

    let keys: Vec<&str> = resp.column_axis.members.iter().map(|m| string_of(&m.key[0])).collect();
    assert_eq!(keys, ["2025-01-01", "2025-02-01", "2025-03-01"]);
}

fn three_months() -> Vec<SubQueryRows> {
    vec![SubQueryRows {
        kind: SubQueryKind::Main,
        rows: vec![
            row("LV", "2025-03-01", 3000, 20),
            row("EE", "2025-01-01", 1000, 10),
            row("LV", "2025-01-01", 2000, 15),
        ],
        elapsed_ms: 7,
    }]
}

fn cell_tuples(resp: &PivotResponse) -> Vec<(usize, usize, String, String)> {
    resp.cells.iter().map(|c| (c.r, c.c, c.m.clone(), c.v.to_string_lossy())).collect()
}

#[test]
fn cells_are_placed_after_column_sort() {
    let plan = make_plan();
    let resp = shape("req-5", &plan, three_months(), 3, "v1".to_string());
    // rows in order of first appearance: LV, EE; columns sorted: 2025-01-01, 2025-03-01
    let rows: Vec<&str> = resp.row_axis.members.iter().map(|m| string_of(&m.key[0])).collect();
    assert_eq!(rows, ["LV", "EE"]);
    let cols: Vec<&str> = resp.column_axis.members.iter().map(|m| string_of(&m.key[0])).collect();
    assert_eq!(cols, ["2025-01-01", "2025-03-01"]);
    assert_eq!(
        cell_tuples(&resp),
        vec![
            (0, 1, "revenue".to_string(), "3000".to_string()),
            (0, 1, "orders".to_string(), "20".to_string()),
            (1, 0, "revenue".to_string(), "1000".to_string()),
            (1, 0, "orders".to_string(), "10".to_string()),
            (0, 0, "revenue".to_string(), "2000".to_string()),
            (0, 0, "orders".to_string(), "15".to_string()),
        ]
    );
    assert_eq!(resp.data_version, "v1");
    assert_eq!(resp.request_id, "req-5");
    assert!(!resp.from_cache);
    assert_eq!(resp.api_version, "1");
    assert_eq!(resp.row_axis.fields, vec!["region".to_string()]);
    assert_eq!(resp.column_axis.fields, vec!["order_date@month".to_string()]);
}

#[test]
fn stats_sum_the_sub_queries() {
    let plan = make_plan();
    let mut subs = three_months();
    subs.push(SubQueryRows {
        kind: SubQueryKind::GrandTotal,
        rows: vec![obj(vec![("order_date@month", text("2025-01-01")), ("revenue", num(3000))])],
        elapsed_ms: 5,
    });
    let resp = shape("req-6", &plan, subs, 42, "v".to_string());
    assert_eq!(resp.stats.subqueries, 2);
    assert_eq!(resp.stats.engine_ms, 42);
    assert_eq!(resp.stats.clickhouse_ms, 12);
    assert_eq!(resp.stats.preaggregate_rows, 4);
    assert_eq!(resp.measures.len(), 2);
    assert_eq!(resp.measures[1].id, "orders");
    assert_eq!(resp.measures[1].format.as_deref(), Some("integer"));
    assert_eq!(resp.measures[1].value_type.as_deref(), Some("number"));
    assert!(resp.warnings.is_empty());
}

#[test]
fn shaping_twice_gives_the_same_pivot() {
    let plan = make_plan();
    let a = shape("req-7", &plan, three_months(), 1, "x".to_string());
    let b = shape("req-7", &plan, three_months(), 1, "x".to_string());
    assert_eq!(a.data_version, b.data_version);
    assert_eq!(cell_tuples(&a), cell_tuples(&b));
    let keys = |r: &PivotResponse| -> Vec<String> {
        r.row_axis.members.iter().chain(r.column_axis.members.iter()).map(|m| m.key[0].to_string_lossy()).collect()
    };
    assert_eq!(keys(&a), keys(&b));
}

#[test]
fn rows_that_are_not_objects_are_skipped() {
    let plan = make_plan();
    let subs = vec![SubQueryRows {
        kind: SubQueryKind::Main,
        rows: vec![text("stray"), row("LV", "2025-01-01", 1, 2), JsonValue::Null],
        elapsed_ms: 0,
    }];
    let resp = shape("req-8", &plan, subs, 0, "v".to_string());
    assert_eq!(resp.row_axis.members.len(), 1);
    assert_eq!(resp.cells.len(), 2);
    assert_eq!(resp.stats.preaggregate_rows, 3);
}

#[test]
fn missing_fields_read_as_null_and_missing_measures_give_no_cell() {
    let plan = make_plan();
    let subs = vec![SubQueryRows {
        kind: SubQueryKind::Main,
        rows: vec![obj(vec![("revenue", num(9))])],
        elapsed_ms: 0,
    }];
    let resp = shape("req-9", &plan, subs, 0, "v".to_string());
    assert!(resp.row_axis.members[0].key[0].same(&JsonValue::Null));
    assert!(resp.column_axis.members[0].key[0].same(&JsonValue::Null));
    assert_eq!(cell_tuples(&resp), vec![(0, 0, "revenue".to_string(), "9".to_string())]);
}

#[test]
fn sort_keys_of_each_kind() {
    assert_eq!(json_sort_key(&text("abc")), "s:abc");
    assert_eq!(json_sort_key(&JsonValue::Null), "z:null");
    assert_eq!(json_sort_key(&num(5000)), "n:000000000000005000.000000");
    assert_eq!(json_sort_key(&JsonValue::Array(vec![num(1), num(2)])), "o:[1,2]");
    assert_eq!(json_sort_key(&JsonValue::Bool(true)), "o:true");
}

#[test]
fn numbers_sort_by_value_on_the_column_axis() {
    let mut plan = make_plan();
    plan.col_fields = vec![field("bucket", "bucket", "bucket")];
    let subs = vec![SubQueryRows {
        kind: SubQueryKind::Main,
        rows: vec![
            obj(vec![("region", text("LV")), ("bucket", num(10)), ("revenue", num(1))]),
            obj(vec![("region", text("LV")), ("bucket", num(9)), ("revenue", num(2))]),
        ],
        elapsed_ms: 0,
    }];
    let resp = shape("req-10", &plan, subs, 0, "v".to_string());
    let cols: Vec<String> = resp.column_axis.members.iter().map(|m| m.key[0].to_string_lossy()).collect();
    assert_eq!(cols, ["9", "10"]);
}

#[test]
fn sort_keys_order_kinds_then_values() {
    let keys = [
        json_sort_key(&num(-5)),
        json_sort_key(&num(3)),
        json_sort_key(&JsonValue::Bool(false)),
        json_sort_key(&text("a")),
        json_sort_key(&text("b")),
        json_sort_key(&JsonValue::Null),
    ];
    for w in keys.windows(2) {
        assert!(w[0] < w[1], "{} < {}", w[0], w[1]);
    }
}

fn float(text: &str, value: f64) -> JsonValue {
    JsonValue::Number(JsonNumber { text: text.to_string(), fixed_text: format!("{:025.6}", value) })
}

#[test]
fn keys_merge_as_json_values_compare() {
    let plan = make_plan();
    let with_month = |month: JsonValue, revenue: i64| {
        obj(vec![("region", text("LV")), ("order_date@month", month), ("revenue", num(revenue))])
    };
    let subs = vec![SubQueryRows {
        kind: SubQueryKind::Main,
        rows: vec![
            with_month(float("0.0", 0.0), 1),
            with_month(float("-0.0", -0.0), 2),
            with_month(num(0), 3),
            with_month(float("1.5", 1.5), 4),
        ],
        elapsed_ms: 0,
    }];
    let resp = shape("req-11", &plan, subs, 0, "v".to_string());
    // 0.0 and -0.0 are one member (equal floats); the integer 0 is another
    let cols: Vec<String> = resp.column_axis.members.iter().map(|m| m.key[0].to_string_lossy()).collect();
    assert_eq!(cols, ["0.0", "0", "1.5"]);
    assert_eq!(resp.cells.len(), 4);
    assert!(float("-0.0", -0.0).equals(&float("0.0", 0.0)));
    assert!(!num(0).equals(&float("0.0", 0.0)));
    assert!(!float("1.0", 1.0).equals(&float("1.5", 1.5)));
}

use olap_engine::query::plan::{FilterParams, QueryPlan, ResolvedField, SubQueryKind};
use olap_engine::query::sql::build_sql;
use olap_engine::query::ResolvedMeasure;
use olap_engine::types::AggType;

fn field(model_field: &str, sql_expr: &str, alias: &str) -> ResolvedField {
    ResolvedField {
        model_field: model_field.to_string(),
        sql_expr: sql_expr.to_string(),
        alias: alias.to_string(),
    }
}

fn make_plan_no_filters() -> QueryPlan {
    QueryPlan {
        table: "sales".to_string(),
        row_fields: vec![
            field("region", "region", "region"),
            field("product_category", "product_category", "product_category"),
        ],
        col_fields: vec![field("order_date", "toStartOfMonth(order_date)", "order_date@month")],
        measures: vec![
            ResolvedMeasure {
                id: "revenue".to_string(),
                field: "amount".to_string(),
                agg: AggType::Sum,
                additive: true,
                format: Some("currency".to_string()),
            },
            ResolvedMeasure {
                id: "orders".to_string(),
                field: "order_id".to_string(),
                agg: AggType::CountDistinct,
                additive: false,
                format: Some("integer".to_string()),
            },
        ],
        filter_params: FilterParams::default(),
        sub_queries: vec![],
        max_groups: 200_000,
    }
}

#[test]
fn main_query_golden_sql() {
    let plan = make_plan_no_filters();
    let (sql, params) = build_sql(&plan, &SubQueryKind::Main);

    assert!(params.is_empty(), "no filters → no params");
    assert!(sql.contains("SELECT"), "has SELECT");
    assert!(sql.contains("FROM sales"), "correct table");
    assert!(sql.contains("GROUP BY `region`, `product_category`, `order_date@month`"));
    assert!(sql.contains("sum(amount) AS `revenue`"));
    assert!(sql.contains("uniq(order_id) AS `orders`"));
    assert!(sql.contains("toStartOfMonth(order_date) AS `order_date@month`"));
    assert!(sql.ends_with("FORMAT JSONEachRow"));
}

#[test]
fn row_subtotal_query_golden_sql() {
    let plan = make_plan_no_filters();
    let (sql, _) = build_sql(&plan, &SubQueryKind::RowSubtotal { level: 1 });

    // Only first row field (region) in GROUP BY, plus col field
    assert!(sql.contains("GROUP BY `region`, `order_date@month`"));
    // product_category must NOT be in GROUP BY
    assert!(!sql.contains("`product_category`"));
    // measures still present
    assert!(sql.contains("sum(amount)"));
}

#[test]
fn grand_total_query_golden_sql() {
    let plan = make_plan_no_filters();
    let (sql, _) = build_sql(&plan, &SubQueryKind::GrandTotal);

    // No row dims in GROUP BY — only col dim
    assert!(sql.contains("GROUP BY `order_date@month`"));
    assert!(!sql.contains("`region`"));
    assert!(!sql.contains("`product_category`"));
}

#[test]
fn grand_total_no_columns_has_no_group_by() {
    let mut plan = make_plan_no_filters();
    plan.col_fields.clear();
    let (sql, _) = build_sql(&plan, &SubQueryKind::GrandTotal);

    assert!(!sql.contains("GROUP BY"), "no GROUP BY when no col dims");
}

#[test]
fn main_query_exact_text() {
    let plan = make_plan_no_filters();
    let (sql, _) = build_sql(&plan, &SubQueryKind::Main);
    let expected = "SELECT\n    region AS `region`,\n    product_category AS `product_category`,\n    toStartOfMonth(order_date) AS `order_date@month`,\n    sum(amount) AS `revenue`,\n    uniq(order_id) AS `orders`\nFROM sales\nGROUP BY `region`, `product_category`, `order_date@month`\nLIMIT 200001\nFORMAT JSONEachRow";
    assert_eq!(sql, expected);
}

#[test]
fn filter_clauses_join_with_and_and_params_are_prefixed() {
    let mut plan = make_plan_no_filters();
    plan.filter_params = FilterParams {
        params: vec![("p0".to_string(), "LV".to_string()), ("p1".to_string(), "2025-01-01".to_string())],
        clauses: vec!["region = {p0:String}".to_string(), "order_date >= {p1:Date}".to_string()],
    };
    let (sql, params) = build_sql(&plan, &SubQueryKind::GrandTotal);
    assert!(sql.contains("WHERE region = {p0:String}\n  AND order_date >= {p1:Date}\nGROUP BY"));
    assert_eq!(
        params,
        vec![
            ("param_p0".to_string(), "LV".to_string()),
            ("param_p1".to_string(), "2025-01-01".to_string())
        ]
    );
    assert!(!sql.contains("LV"));
}

#[test]
fn limit_asks_for_one_group_more() {
    let mut plan = make_plan_no_filters();
    plan.max_groups = 0;
    let (sql, _) = build_sql(&plan, &SubQueryKind::Main);
    assert!(sql.contains("\nLIMIT 1\n"));
}

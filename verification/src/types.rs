//! Contract types of the pivot API: the request, the response and the model metadata.

use vstd::prelude::*;

use crate::json::JsonValue;
use crate::text::string_of;

verus! {

// ── Request ───────────────────────────────────────────────────────────────────
/// A pivot request: which model, which row and column dimensions, which measures,
/// which filters, which totals and which limits.
#[derive(Debug, Clone)]
pub struct PivotRequest {
    pub api_version: String,
    pub request_id: String,
    pub model_id: String,
    pub rows: Vec<FieldRef>,
    pub columns: Vec<FieldRef>,
    pub measures: Vec<MeasureRef>,
    pub filters: Vec<Filter>,
    pub totals: TotalsConfig,
    pub limits: RequestLimits,
}

/// A dimension placed on the row or column axis.
#[derive(Debug, Clone)]
pub struct FieldRef {
    pub field: String,
    pub date_granularity: Option<DateGranularity>,
    pub sort: Option<SortSpec>,
    pub top_n: Option<u32>,
}

/// Truncation applied to a date dimension.
#[derive(Debug, Clone, Copy, PartialEq, Eq, Structural)]
pub enum DateGranularity {
    Year,
    Quarter,
    Month,
    Day,
}

/// The ClickHouse truncation expression of `field` at granularity `g`.
pub open spec fn granularity_sql(g: DateGranularity, field: Seq<char>) -> Seq<char> {
    match g {
        DateGranularity::Year => "toStartOfYear("@ + field + ")"@,
        DateGranularity::Quarter => "toStartOfQuarter("@ + field + ")"@,
        DateGranularity::Month => "toStartOfMonth("@ + field + ")"@,
        DateGranularity::Day => "toDate("@ + field + ")"@,
    }
}

/// The alias suffix of granularity `g`, which is also its name in the API.
pub open spec fn granularity_suffix(g: DateGranularity) -> Seq<char> {
    match g {
        DateGranularity::Year => "year"@,
        DateGranularity::Quarter => "quarter"@,
        DateGranularity::Month => "month"@,
        DateGranularity::Day => "day"@,
    }
}

impl DateGranularity {
    /// ClickHouse date truncation expression.
    pub fn to_sql_expr(&self, field: &str) -> (r: String)
        ensures
            r@ == granularity_sql(*self, field@),
    {
        let mut r = match self {
            DateGranularity::Year => string_of("toStartOfYear("),
            DateGranularity::Quarter => string_of("toStartOfQuarter("),
            DateGranularity::Month => string_of("toStartOfMonth("),
            DateGranularity::Day => string_of("toDate("),
        };
        r.append(field);
        r.append(")");
        r
    }

    /// The suffix used in column aliases (`order_date@month`).
    pub fn suffix(&self) -> (r: &'static str)
        ensures
            r@ == granularity_suffix(*self),
    {
        match self {
            DateGranularity::Year => "year",
            DateGranularity::Quarter => "quarter",
            DateGranularity::Month => "month",
            DateGranularity::Day => "day",
        }
    }
}

/// Requested ordering of an axis.
#[derive(Debug, Clone)]
pub struct SortSpec {
    pub by: String,
    pub measure: Option<String>,
    pub dir: String,
}

/// The direction a sort takes when the request names none.
pub fn default_asc() -> (r: String)
    ensures
        r@ == "asc"@,
{
    string_of("asc")
}

/// A measure requested in the pivot.
#[derive(Debug, Clone)]
pub struct MeasureRef {
    pub id: String,
    pub field: Option<String>,
    pub agg: Option<AggType>,
    pub measure_type: Option<String>,
    pub expr: Option<String>,
}

/// An aggregation function.
#[derive(Debug, Clone, Copy, PartialEq, Eq, Hash, Structural)]
pub enum AggType {
    Sum,
    Count,
    CountDistinct,
    Min,
    Max,
    Avg,
}

/// The SQL aggregation expression of `field` under `a`.
pub open spec fn agg_sql(a: AggType, field: Seq<char>) -> Seq<char> {
    match a {
        AggType::Sum => "sum("@ + field + ")"@,
        AggType::Count => "count("@ + field + ")"@,
        AggType::CountDistinct => "uniq("@ + field + ")"@,
        AggType::Min => "min("@ + field + ")"@,
        AggType::Max => "max("@ + field + ")"@,
        AggType::Avg => "avg("@ + field + ")"@,
    }
}

/// The name of `a` in the API and in model files (`count_distinct`).
pub open spec fn agg_name(a: AggType) -> Seq<char> {
    match a {
        AggType::Sum => "sum"@,
        AggType::Count => "count"@,
        AggType::CountDistinct => "count_distinct"@,
        AggType::Min => "min"@,
        AggType::Max => "max"@,
        AggType::Avg => "avg"@,
    }
}

/// The variant name of `a` (`CountDistinct`), as its `Debug` form prints it.
pub open spec fn agg_variant(a: AggType) -> Seq<char> {
    match a {
        AggType::Sum => "Sum"@,
        AggType::Count => "Count"@,
        AggType::CountDistinct => "CountDistinct"@,
        AggType::Min => "Min"@,
        AggType::Max => "Max"@,
        AggType::Avg => "Avg"@,
    }
}

impl AggType {
    /// SQL aggregation expression for a given field.
    pub fn to_sql_expr(&self, field: &str) -> (r: String)
        ensures
            r@ == agg_sql(*self, field@),
    {
        let mut r = match self {
            AggType::Sum => string_of("sum("),
            AggType::Count => string_of("count("),
            AggType::CountDistinct => string_of("uniq("),
            AggType::Min => string_of("min("),
            AggType::Max => string_of("max("),
            AggType::Avg => string_of("avg("),
        };
        r.append(field);
        r.append(")");
        r
    }

    /// Whether this aggregation is additive (subtotals can be summed from parts).
    pub fn is_additive(&self) -> (r: bool)
        ensures
            r == (*self == AggType::Sum || *self == AggType::Count),
    {
        match self {
            AggType::Sum | AggType::Count => true,
            _ => false,
        }
    }

    /// The name of the aggregation in the API and in model files.
    pub fn name(&self) -> (r: &'static str)
        ensures
            r@ == agg_name(*self),
    {
        match self {
            AggType::Sum => "sum",
            AggType::Count => "count",
            AggType::CountDistinct => "count_distinct",
            AggType::Min => "min",
            AggType::Max => "max",
            AggType::Avg => "avg",
        }
    }

    /// The variant name of the aggregation, as its `Debug` form prints it.
    pub fn variant_name(&self) -> (r: &'static str)
        ensures
            r@ == agg_variant(*self),
    {
        match self {
            AggType::Sum => "Sum",
            AggType::Count => "Count",
            AggType::CountDistinct => "CountDistinct",
            AggType::Min => "Min",
            AggType::Max => "Max",
            AggType::Avg => "Avg",
        }
    }
}

/// A filter on a model field.
#[derive(Debug, Clone)]
pub struct Filter {
    pub field: String,
    pub op: FilterOp,
    pub value: JsonValue,
}

/// A filter comparison.
#[derive(Debug, Clone, Copy, PartialEq, Eq, Structural)]
pub enum FilterOp {
    Eq,
    Neq,
    In,
    NotIn,
    Between,
    Gt,
    Gte,
    Lt,
    Lte,
    IsNull,
    IsNotNull,
}

/// The variant name of `op` (`NotIn`), as its `Debug` form prints it.
pub open spec fn filter_op_variant(op: FilterOp) -> Seq<char> {
    match op {
        FilterOp::Eq => "Eq"@,
        FilterOp::Neq => "Neq"@,
        FilterOp::In => "In"@,
        FilterOp::NotIn => "NotIn"@,
        FilterOp::Between => "Between"@,
        FilterOp::Gt => "Gt"@,
        FilterOp::Gte => "Gte"@,
        FilterOp::Lt => "Lt"@,
        FilterOp::Lte => "Lte"@,
        FilterOp::IsNull => "IsNull"@,
        FilterOp::IsNotNull => "IsNotNull"@,
    }
}

impl FilterOp {
    /// The variant name of the comparison, as its `Debug` form prints it.
    pub fn variant_name(&self) -> (r: &'static str)
        ensures
            r@ == filter_op_variant(*self),
    {
        match self {
            FilterOp::Eq => "Eq",
            FilterOp::Neq => "Neq",
            FilterOp::In => "In",
            FilterOp::NotIn => "NotIn",
            FilterOp::Between => "Between",
            FilterOp::Gt => "Gt",
            FilterOp::Gte => "Gte",
            FilterOp::Lt => "Lt",
            FilterOp::Lte => "Lte",
            FilterOp::IsNull => "IsNull",
            FilterOp::IsNotNull => "IsNotNull",
        }
    }
}

/// Which totals the pivot carries.
#[derive(Debug, Clone, Copy)]
pub struct TotalsConfig {
    pub row_subtotals: bool,
    pub column_subtotals: bool,
    pub grand_total: bool,
}

/// Per-request limits that override the configured ones.
#[derive(Debug, Clone, Copy, Default)]
pub struct RequestLimits {
    pub max_cells: Option<u64>,
    pub max_groups: Option<u64>,
    pub bypass_cache: Option<bool>,
}

// ── Response ──────────────────────────────────────────────────────────────────
/// The shaped pivot.
#[derive(Debug)]
pub struct PivotResponse {
    pub api_version: String,
    pub request_id: String,
    pub status: &'static str,
    pub from_cache: bool,
    pub data_version: String,
    pub row_axis: Axis,
    pub column_axis: Axis,
    pub measures: Vec<MeasureMeta>,
    pub cells: Vec<Cell>,
    pub warnings: Vec<String>,
    pub stats: Stats,
}

/// One axis of the pivot: its field aliases and its members.
#[derive(Debug, Clone)]
pub struct Axis {
    pub fields: Vec<String>,
    pub members: Vec<AxisMember>,
}

/// One member of an axis: its key values and whether it is a total.
#[derive(Debug, Clone)]
pub struct AxisMember {
    pub key: Vec<JsonValue>,
    pub is_subtotal: Option<bool>,
    pub is_grand_total: Option<bool>,
}

/// A measure of the response with its display format.
#[derive(Debug)]
pub struct MeasureMeta {
    pub id: String,
    pub format: Option<String>,
    pub value_type: Option<String>,
}

/// One value of the pivot: row member `r`, column member `c`, measure `m`.
#[derive(Debug)]
pub struct Cell {
    pub r: usize,
    pub c: usize,
    pub m: String,
    pub v: JsonValue,
}

/// Execution statistics of a pivot.
#[derive(Debug, Default)]
pub struct Stats {
    pub subqueries: u32,
    pub engine_ms: u64,
    pub clickhouse_ms: u64,
    pub preaggregate_rows: u64,
}

// ── Model metadata ────────────────────────────────────────────────────────────
/// What the API tells of a model.
#[derive(Debug, Clone)]
pub struct ModelMetadata {
    pub model_id: String,
    pub label: Option<String>,
    pub dimensions: Vec<DimensionMeta>,
    pub measures: Vec<MeasureMetaModel>,
    pub filterable_fields: Vec<String>,
    pub guards: GuardsMeta,
}

/// A model in the model list.
#[derive(Debug, Clone)]
pub struct ModelSummary {
    pub model_id: String,
    pub label: Option<String>,
}

/// A dimension of a model.
#[derive(Debug, Clone)]
pub struct DimensionMeta {
    pub field: String,
    pub label: Option<String>,
    pub dim_type: String,
    pub hierarchy: Option<Vec<String>>,
}

/// A measure of a model.
#[derive(Debug, Clone)]
pub struct MeasureMetaModel {
    pub id: String,
    pub field: String,
    pub label: Option<String>,
    pub allowed_agg: Vec<String>,
    pub additive: bool,
    pub format: Option<String>,
}

/// The guards of a model.
#[derive(Debug, Clone)]
pub struct GuardsMeta {
    pub max_groups: u64,
    pub high_cardinality_fields: Vec<String>,
}

// ── Cancel request ────────────────────────────────────────────────────────────
/// The body of a cancel request (the id comes from the URL path).
#[derive(Debug)]
pub struct CancelRequest {}

// ── Laws ──────────────────────────────────────────────────────────────────────
/// Two letters are the same letter, whatever their case (`Y` and `y`).
pub open spec fn same_letter(a: char, b: char) -> bool {
    a == b || (a as int) + 32 == (b as int)
}

/// A date truncation names the unit its alias suffix names: a granularity other
/// than `day` truncates with `toStartOf` followed by its suffix (first letter in
/// upper case) and `day` with `toDate`; the field is the argument. Different
/// granularities truncate differently.
pub proof fn lemma_truncation_names_its_unit(g: DateGranularity, h: DateGranularity, field: Seq<char>)
    ensures
        ({
            let sql = granularity_sql(g, field);
            let unit = granularity_suffix(g);
            if unit == "day"@ {
                sql == "toDate("@ + field + ")"@
            } else {
                &&& sql.len() == 9 + unit.len() + 1 + field.len() + 1
                &&& sql.subrange(0, 9) == "toStartOf"@
                &&& forall|i: int| 0 <= i < unit.len() ==> same_letter(#[trigger] sql[9 + i], unit[i])
                &&& 'A' <= sql[9] <= 'Z'
                &&& sql.subrange(9 + unit.len() as int, sql.len() as int) == "("@ + field + ")"@
            }
        }),
        g != h ==> granularity_sql(g, field) != granularity_sql(h, field),
{
    reveal_strlit("toStartOfYear(");
    reveal_strlit("toStartOfQuarter(");
    reveal_strlit("toStartOfMonth(");
    reveal_strlit("toDate(");
    reveal_strlit("toStartOf");
    reveal_strlit("year");
    reveal_strlit("quarter");
    reveal_strlit("month");
    reveal_strlit("day");
    reveal_strlit("(");
    reveal_strlit(")");
    let sql = granularity_sql(g, field);
    let unit = granularity_suffix(g);
    assert(unit.len() != "day"@.len() ==> unit != "day"@);
    match g {
        DateGranularity::Day => {},
        _ => {
            assert(sql.subrange(0, 9) =~= "toStartOf"@);
            assert(sql.subrange(9 + unit.len() as int, sql.len() as int) =~= "("@ + field + ")"@);
        },
    }
    assert(granularity_sql(g, field).len() != granularity_sql(h, field).len() || g == h);
}

/// The SQL aggregation of a measure is the ClickHouse function its aggregation
/// names, applied to the field: the aggregation's own name, except that a
/// distinct count is `uniq`. Different aggregations give different SQL.
pub proof fn lemma_aggregation_sql_names_its_function(a: AggType, b: AggType, field: Seq<char>)
    ensures
        agg_sql(a, field) == (if a == AggType::CountDistinct {
            "uniq"@
        } else {
            agg_name(a)
        }) + "("@ + field + ")"@,
        a != b ==> agg_sql(a, field) != agg_sql(b, field),
{
    reveal_strlit("sum(");
    reveal_strlit("count(");
    reveal_strlit("uniq(");
    reveal_strlit("min(");
    reveal_strlit("max(");
    reveal_strlit("avg(");
    reveal_strlit("sum");
    reveal_strlit("count");
    reveal_strlit("uniq");
    reveal_strlit("min");
    reveal_strlit("max");
    reveal_strlit("avg");
    reveal_strlit("(");
    reveal_strlit(")");
    let name = if a == AggType::CountDistinct {
        "uniq"@
    } else {
        agg_name(a)
    };
    assert(agg_sql(a, field) =~= name + "("@ + field + ")"@);
    let (x, y) = (agg_sql(a, field), agg_sql(b, field));
    if a != b {
        if (a == AggType::Min && b == AggType::Max) || (a == AggType::Max && b == AggType::Min) {
            assert(x[1] != y[1]);
        } else {
            assert(x[0] != y[0]);
        }
    }
}

} // verus!

//! QueryPlan: describes which SQL sub-queries to run.

use vstd::prelude::*;

use super::{MeasureView, ResolvedMeasure};
use crate::json::{array_items, lossy_text, JsonValue, JsonView};
use crate::semantic::SemanticModel;
use crate::text::{decimal, decimal_string, join, join_strings, str_eq, string_of, views};
use crate::types::{granularity_sql, granularity_suffix, FieldRef, Filter, FilterOp, PivotRequest};

verus! {

/// A single SQL sub-query to send to ClickHouse.
#[derive(Debug, Clone)]
pub struct SubQuery {
    pub kind: SubQueryKind,
    /// SELECT column aliases in the order they appear.
    pub select_aliases: Vec<String>,
    /// Measure aliases (subset of select_aliases).
    pub measure_aliases: Vec<String>,
}

/// Which level of the pivot a sub-query aggregates.
#[derive(Debug, Clone, Copy, PartialEq, Eq, Structural)]
pub enum SubQueryKind {
    /// Full leaf-level data (GROUP BY all row + col dims).
    Main,
    /// Row subtotal at a given level (GROUP BY first `level` row dims + all col dims).
    /// level=1 means GROUP BY rows[0..1] + cols
    RowSubtotal { level: usize },
    /// Grand total: GROUP BY only col dims (or no GROUP BY if no cols).
    GrandTotal,
}

/// Full plan for a pivot request: which sub-queries to run.
#[derive(Debug, Clone)]
pub struct QueryPlan {
    pub table: String,
    pub row_fields: Vec<ResolvedField>,
    pub col_fields: Vec<ResolvedField>,
    pub measures: Vec<ResolvedMeasure>,
    pub filter_params: FilterParams,
    pub sub_queries: Vec<SubQuery>,
    pub max_groups: u64,
}

/// A dimension field resolved to a SQL expression and alias.
#[derive(Debug, Clone)]
pub struct ResolvedField {
    /// Field name as the model declares it.
    pub model_field: String,
    /// SQL expression (may include date truncation function).
    pub sql_expr: String,
    /// Column alias used in SELECT and GROUP BY.
    pub alias: String,
}

/// Collected filter parameters for parameterized queries.
#[derive(Debug, Clone, Default)]
pub struct FilterParams {
    /// List of (param_name, value_string) pairs for URL encoding.
    pub params: Vec<(String, String)>,
    /// SQL WHERE clause fragments (using {pN:Type} placeholders).
    pub clauses: Vec<String>,
}

// ── Models ────────────────────────────────────────────────────────────────────
/// The model of a resolved field.
pub struct FieldView {
    pub model_field: Seq<char>,
    pub sql_expr: Seq<char>,
    pub alias: Seq<char>,
}

impl View for ResolvedField {
    type V = FieldView;

    open spec fn view(&self) -> FieldView {
        FieldView { model_field: self.model_field@, sql_expr: self.sql_expr@, alias: self.alias@ }
    }
}

/// The model of one query parameter: its name and its value.
pub struct ParamView {
    pub name: Seq<char>,
    pub value: Seq<char>,
}

/// The models of a list of query parameters.
pub open spec fn param_views(s: Seq<(String, String)>) -> Seq<ParamView> {
    Seq::new(s.len(), |i: int| ParamView { name: s[i].0@, value: s[i].1@ })
}

/// Appending a parameter appends its model.
pub proof fn lemma_param_views_push(s: Seq<(String, String)>, x: (String, String))
    ensures
        param_views(s.push(x)) == param_views(s).push(ParamView { name: x.0@, value: x.1@ }),
{
    assert(param_views(s.push(x)) =~= param_views(s).push(ParamView { name: x.0@, value: x.1@ }));
}

/// The model of the collected filter parameters.
pub struct FilterParamsView {
    pub params: Seq<ParamView>,
    pub clauses: Seq<Seq<char>>,
}

impl View for FilterParams {
    type V = FilterParamsView;

    open spec fn view(&self) -> FilterParamsView {
        FilterParamsView { params: param_views(self.params@), clauses: views(self.clauses@) }
    }
}

/// The model of a sub-query.
pub struct SubQueryView {
    pub kind: SubQueryKind,
    pub select_aliases: Seq<Seq<char>>,
    pub measure_aliases: Seq<Seq<char>>,
}

impl View for SubQuery {
    type V = SubQueryView;

    open spec fn view(&self) -> SubQueryView {
        SubQueryView {
            kind: self.kind,
            select_aliases: views(self.select_aliases@),
            measure_aliases: views(self.measure_aliases@),
        }
    }
}

/// The model of a query plan.
pub struct PlanView {
    pub table: Seq<char>,
    pub row_fields: Seq<FieldView>,
    pub col_fields: Seq<FieldView>,
    pub measures: Seq<MeasureView>,
    pub filter_params: FilterParamsView,
    pub sub_queries: Seq<SubQueryView>,
    pub max_groups: u64,
}

/// The models of a list of resolved fields.
pub open spec fn field_views(s: Seq<ResolvedField>) -> Seq<FieldView> {
    Seq::new(s.len(), |i: int| s[i]@)
}

/// The models of a list of resolved measures.
pub open spec fn measure_views(s: Seq<ResolvedMeasure>) -> Seq<MeasureView> {
    Seq::new(s.len(), |i: int| s[i]@)
}

/// The models of a list of sub-queries.
pub open spec fn sub_query_views(s: Seq<SubQuery>) -> Seq<SubQueryView> {
    Seq::new(s.len(), |i: int| s[i]@)
}

impl View for QueryPlan {
    type V = PlanView;

    open spec fn view(&self) -> PlanView {
        PlanView {
            table: self.table@,
            row_fields: field_views(self.row_fields@),
            col_fields: field_views(self.col_fields@),
            measures: measure_views(self.measures@),
            filter_params: self.filter_params@,
            sub_queries: sub_query_views(self.sub_queries@),
            max_groups: self.max_groups,
        }
    }
}

// ── Resolved fields ───────────────────────────────────────────────────────────
/// The alias of a requested dimension: the field, or `field@granularity`.
pub open spec fn alias_of(f: FieldRef) -> Seq<char> {
    match f.date_granularity {
        Some(g) => f.field@ + "@"@ + granularity_suffix(g),
        None => f.field@,
    }
}

/// The SQL expression of a requested dimension.
pub open spec fn sql_expr_of(f: FieldRef) -> Seq<char> {
    match f.date_granularity {
        Some(g) => granularity_sql(g, f.field@),
        None => f.field@,
    }
}

/// The resolution of a requested dimension.
pub open spec fn resolve_field(f: FieldRef) -> FieldView {
    FieldView { model_field: f.field@, sql_expr: sql_expr_of(f), alias: alias_of(f) }
}

/// The resolutions of a list of requested dimensions.
pub open spec fn resolve_fields(s: Seq<FieldRef>) -> Seq<FieldView> {
    Seq::new(s.len(), |i: int| resolve_field(s[i]))
}

impl ResolvedField {
    pub fn new(f: &FieldRef) -> (r: Self)
        ensures
            r@ == resolve_field(*f),
    {
        let alias = match &f.date_granularity {
            Some(gran) => {
                let mut a = f.field.clone();
                a.append("@");
                a.append(gran.suffix());
                a
            },
            None => f.field.clone(),
        };
        let sql_expr = match &f.date_granularity {
            Some(gran) => gran.to_sql_expr(f.field.as_str()),
            None => f.field.clone(),
        };
        ResolvedField { model_field: f.field.clone(), sql_expr, alias }
    }
}

/// Resolves every requested dimension of `fs`.
fn resolve_all(fs: &Vec<FieldRef>) -> (r: Vec<ResolvedField>)
    ensures
        field_views(r@) == resolve_fields(fs@),
{
    let mut r: Vec<ResolvedField> = Vec::new();
    let mut i: usize = 0;
    while i < fs.len()
        invariant
            i <= fs.len(),
            r@.len() == i,
            forall|j: int| 0 <= j < i ==> #[trigger] r@[j]@ == resolve_field(fs@[j]),
        decreases fs.len() - i,
    {
        r.push(ResolvedField::new(&fs[i]));
        i = i + 1;
    }
    assert(field_views(r@) =~= resolve_fields(fs@));
    r
}

// ── Sub-queries ───────────────────────────────────────────────────────────────
/// The sub-queries a request asks for, in order: the main query, one row subtotal
/// per level `1 .. rows-1` when row subtotals are on and there are at least two row
/// dimensions, then the grand total when it is on.
pub open spec fn planned_kinds(req: PivotRequest) -> Seq<SubQueryKind> {
    let n = req.rows@.len();
    seq![SubQueryKind::Main] + (if req.totals.row_subtotals && n > 1 {
        Seq::new((n - 1) as nat, |l: int| SubQueryKind::RowSubtotal { level: (l + 1) as usize })
    } else {
        Seq::empty()
    }) + (if req.totals.grand_total {
        seq![SubQueryKind::GrandTotal]
    } else {
        Seq::empty()
    })
}

/// How many leading row dimensions a sub-query of `kind` groups by, out of `n`.
pub open spec fn row_levels(kind: SubQueryKind, n: nat) -> nat {
    match kind {
        SubQueryKind::Main => n,
        SubQueryKind::RowSubtotal { level } => level as nat,
        SubQueryKind::GrandTotal => 0,
    }
}

/// The aliases of a list of resolved fields.
pub open spec fn aliases(s: Seq<FieldView>) -> Seq<Seq<char>> {
    Seq::new(s.len(), |i: int| s[i].alias)
}

/// The ids of a list of measures.
pub open spec fn measure_ids(s: Seq<MeasureView>) -> Seq<Seq<char>> {
    Seq::new(s.len(), |i: int| s[i].id)
}

/// The SELECT aliases of a sub-query grouping by the first `level` row fields.
pub open spec fn select_aliases_for(
    rows: Seq<FieldView>,
    cols: Seq<FieldView>,
    measures: Seq<MeasureView>,
    level: nat,
) -> Seq<Seq<char>> {
    aliases(rows.take(level as int)) + aliases(cols) + measure_ids(measures)
}

/// The planned sub-query of `kind`.
pub open spec fn planned_sub_query(
    kind: SubQueryKind,
    rows: Seq<FieldView>,
    cols: Seq<FieldView>,
    measures: Seq<MeasureView>,
) -> SubQueryView {
    SubQueryView {
        kind,
        select_aliases: select_aliases_for(rows, cols, measures, row_levels(kind, rows.len())),
        measure_aliases: measure_ids(measures),
    }
}

// ── Filters ───────────────────────────────────────────────────────────────────
/// The ClickHouse parameter type of a dimension type.
pub open spec fn ch_type_of(dim_type: Seq<char>) -> Seq<char> {
    if dim_type == "date"@ {
        "Date"@
    } else if dim_type == "categorical"@ {
        "String"@
    } else if dim_type == "numeric_bucket"@ {
        "Float64"@
    } else {
        "String"@
    }
}

/// The ClickHouse parameter type of a filter on `field` in `model` (`String` when
/// the field is no dimension).
pub open spec fn filter_ch_type(model: SemanticModel, field: Seq<char>) -> Seq<char> {
    match model.spec_dimension(field) {
        Some(d) => ch_type_of(d.dim_type@),
        None => "String"@,
    }
}

/// The name of the `k`-th query parameter.
pub open spec fn param_name(k: nat) -> Seq<char> {
    "p"@ + decimal(k)
}

/// The placeholder of the `k`-th query parameter of type `ty`.
pub open spec fn placeholder(k: nat, ty: Seq<char>) -> Seq<char> {
    "{"@ + param_name(k) + ":"@ + ty + "}"@
}

/// The placeholders of `count` parameters numbered from `start`.
pub open spec fn placeholders(start: nat, count: nat, ty: Seq<char>) -> Seq<Seq<char>> {
    Seq::new(count, |j: int| placeholder((start + j) as nat, ty))
}

/// The values a filter passes as parameters, each as its text (a string as it is):
/// one for a comparison,
/// one per array element for `IN` and `NOT IN`, two for `BETWEEN` (the first two
/// elements, empty where missing), none for the null tests.
pub open spec fn filter_values(op: FilterOp, v: JsonView) -> Seq<Seq<char>> {
    let items = array_items(v);
    match op {
        FilterOp::In | FilterOp::NotIn => Seq::new(items.len(), |j: int| lossy_text(items[j])),
        FilterOp::Between => seq![
            if items.len() > 0 { lossy_text(items[0]) } else { Seq::empty() },
            if items.len() > 1 { lossy_text(items[1]) } else { Seq::empty() },
        ],
        FilterOp::IsNull | FilterOp::IsNotNull => Seq::empty(),
        _ => seq![lossy_text(v)],
    }
}

/// The WHERE fragment of a filter on `field` whose parameters are numbered from
/// `start`. It holds the field, the operator and placeholders, and no value.
pub open spec fn clause_text(field: Seq<char>, op: FilterOp, ty: Seq<char>, start: nat, count: nat) -> Seq<char> {
    match op {
        FilterOp::Eq => field + " = "@ + placeholder(start, ty),
        FilterOp::Neq => field + " != "@ + placeholder(start, ty),
        FilterOp::In => field + " IN ("@ + join(placeholders(start, count, ty), ", "@) + ")"@,
        FilterOp::NotIn => field + " NOT IN ("@ + join(placeholders(start, count, ty), ", "@) + ")"@,
        FilterOp::Between => field + " BETWEEN "@ + placeholder(start, ty) + " AND "@ + placeholder(
            start + 1,
            ty,
        ),
        FilterOp::Gt => field + " > "@ + placeholder(start, ty),
        FilterOp::Gte => field + " >= "@ + placeholder(start, ty),
        FilterOp::Lt => field + " < "@ + placeholder(start, ty),
        FilterOp::Lte => field + " <= "@ + placeholder(start, ty),
        FilterOp::IsNull => field + " IS NULL"@,
        FilterOp::IsNotNull => field + " IS NOT NULL"@,
    }
}

/// The negating operators negate their fragments: the `NOT IN` fragment is the
/// `IN` fragment of the same field and placeholders with `NOT` after the field,
/// `IS NOT NULL` is `IS NULL` with `NOT` after `IS`, and `!=` is `=` preceded by
/// `!`; each negated fragment differs from the one it negates.
pub proof fn lemma_negated_fragments(field: Seq<char>, ty: Seq<char>, start: nat, count: nat)
    ensures
        clause_text(field, FilterOp::NotIn, ty, start, count) == field + " NOT"@ + clause_text(
            field,
            FilterOp::In,
            ty,
            start,
            count,
        ).subrange(field.len() as int, clause_text(field, FilterOp::In, ty, start, count).len() as int),
        clause_text(field, FilterOp::IsNotNull, ty, start, count) == field + " IS NOT"@ + clause_text(
            field,
            FilterOp::IsNull,
            ty,
            start,
            count,
        ).subrange(field.len() + 3int, clause_text(field, FilterOp::IsNull, ty, start, count).len() as int),
        clause_text(field, FilterOp::Neq, ty, start, count) == field + " !"@ + clause_text(
            field,
            FilterOp::Eq,
            ty,
            start,
            count,
        ).subrange(field.len() + 1int, clause_text(field, FilterOp::Eq, ty, start, count).len() as int),
        clause_text(field, FilterOp::NotIn, ty, start, count) != clause_text(field, FilterOp::In, ty, start, count),
        clause_text(field, FilterOp::IsNotNull, ty, start, count) != clause_text(
            field,
            FilterOp::IsNull,
            ty,
            start,
            count,
        ),
        clause_text(field, FilterOp::Neq, ty, start, count) != clause_text(field, FilterOp::Eq, ty, start, count),
{
    reveal_strlit(" NOT IN (");
    reveal_strlit(" IN (");
    reveal_strlit(" NOT");
    reveal_strlit(" IS NULL");
    reveal_strlit(" IS NOT NULL");
    reveal_strlit(" IS NOT");
    reveal_strlit(" = ");
    reveal_strlit(" != ");
    reveal_strlit(" !");
    reveal_strlit(" NULL");
    let marks = join(placeholders(start, count, ty), ", "@) + ")"@;
    let p = placeholder(start, ty);
    let (i, ni) = (clause_text(field, FilterOp::In, ty, start, count), clause_text(field, FilterOp::NotIn, ty, start, count));
    assert(i == field + " IN ("@ + marks);
    assert(ni == field + " NOT IN ("@ + marks);
    assert(i.subrange(field.len() as int, i.len() as int) =~= " IN ("@ + marks);
    assert(ni =~= field + " NOT"@ + (" IN ("@ + marks));
    assert(ni.len() != i.len());
    let (n, nn) = (clause_text(field, FilterOp::IsNull, ty, start, count), clause_text(field, FilterOp::IsNotNull, ty, start, count));
    assert(n.subrange(field.len() + 3int, n.len() as int) =~= " NULL"@);
    assert(nn =~= field + " IS NOT"@ + " NULL"@);
    assert(nn.len() != n.len());
    let (e, ne) = (clause_text(field, FilterOp::Eq, ty, start, count), clause_text(field, FilterOp::Neq, ty, start, count));
    assert(e == field + " = "@ + p);
    assert(ne == field + " != "@ + p);
    assert(e.subrange(field.len() + 1int, e.len() as int) =~= "= "@ + p) by {
        reveal_strlit("= ");
    }
    assert(ne =~= field + " !"@ + ("= "@ + p)) by {
        reveal_strlit("= ");
    }
    assert(ne.len() != e.len());
}

/// The order comparisons compare the field with the placeholder: `>` and `>=`
/// put `>` after the field, `<` and `<=` put `<`, and the non-strict fragment is
/// the strict one with `=` added after the sign.
pub proof fn lemma_order_fragments(field: Seq<char>, ty: Seq<char>, start: nat, count: nat)
    ensures
        clause_text(field, FilterOp::Gt, ty, start, count)[field.len() + 1int] == '>',
        clause_text(field, FilterOp::Gte, ty, start, count)[field.len() + 1int] == '>',
        clause_text(field, FilterOp::Lt, ty, start, count)[field.len() + 1int] == '<',
        clause_text(field, FilterOp::Lte, ty, start, count)[field.len() + 1int] == '<',
        clause_text(field, FilterOp::Gte, ty, start, count) == clause_text(field, FilterOp::Gt, ty, start, count).subrange(
            0,
            field.len() + 2int,
        ) + "="@ + clause_text(field, FilterOp::Gt, ty, start, count).subrange(
            field.len() + 2int,
            clause_text(field, FilterOp::Gt, ty, start, count).len() as int,
        ),
        clause_text(field, FilterOp::Lte, ty, start, count) == clause_text(field, FilterOp::Lt, ty, start, count).subrange(
            0,
            field.len() + 2int,
        ) + "="@ + clause_text(field, FilterOp::Lt, ty, start, count).subrange(
            field.len() + 2int,
            clause_text(field, FilterOp::Lt, ty, start, count).len() as int,
        ),
{
    reveal_strlit(" > ");
    reveal_strlit(" >= ");
    reveal_strlit(" < ");
    reveal_strlit(" <= ");
    reveal_strlit("=");
    let p = placeholder(start, ty);
    let (gt, gte) = (clause_text(field, FilterOp::Gt, ty, start, count), clause_text(field, FilterOp::Gte, ty, start, count));
    let (lt, lte) = (clause_text(field, FilterOp::Lt, ty, start, count), clause_text(field, FilterOp::Lte, ty, start, count));
    assert(gt == field + " > "@ + p);
    assert(gte == field + " >= "@ + p);
    assert(lt == field + " < "@ + p);
    assert(lte == field + " <= "@ + p);
    assert(gte =~= gt.subrange(0, field.len() + 2int) + "="@ + gt.subrange(field.len() + 2int, gt.len() as int));
    assert(lte =~= lt.subrange(0, field.len() + 2int) + "="@ + lt.subrange(field.len() + 2int, lt.len() as int));
}

/// The parameters `values`, numbered from `start`.
pub open spec fn numbered_params(values: Seq<Seq<char>>, start: nat) -> Seq<ParamView> {
    Seq::new(values.len(), |j: int| ParamView { name: param_name((start + j) as nat), value: values[j] })
}

/// The parameters and WHERE fragments of `filters`, numbered across all filters.
pub open spec fn filters_view(model: SemanticModel, filters: Seq<Filter>) -> FilterParamsView
    decreases filters.len(),
{
    if filters.len() == 0 {
        FilterParamsView { params: Seq::empty(), clauses: Seq::empty() }
    } else {
        let prev = filters_view(model, filters.drop_last());
        let f = filters.last();
        let values = filter_values(f.op, f.value@);
        let start = prev.params.len();
        FilterParamsView {
            params: prev.params + numbered_params(values, start),
            clauses: prev.clauses.push(
                clause_text(f.field@, f.op, filter_ch_type(model, f.field@), start, values.len()),
            ),
        }
    }
}

/// The plan built for `req` on `model` with the resolved `measures`.
pub open spec fn planned(
    req: PivotRequest,
    model: SemanticModel,
    measures: Seq<MeasureView>,
    max_groups: u64,
) -> PlanView {
    let rows = resolve_fields(req.rows@);
    let cols = resolve_fields(req.columns@);
    let kinds = planned_kinds(req);
    PlanView {
        table: model.config.source.table@,
        row_fields: rows,
        col_fields: cols,
        measures,
        filter_params: filters_view(model, req.filters@),
        sub_queries: Seq::new(kinds.len(), |k: int| planned_sub_query(kinds[k], rows, cols, measures)),
        max_groups,
    }
}

/// How many query parameters the filters `fs` pass.
pub open spec fn param_count(fs: Seq<Filter>) -> nat
    decreases fs.len(),
{
    if fs.len() == 0 {
        0
    } else {
        param_count(fs.drop_last()) + filter_values(fs.last().op, fs.last().value@).len()
    }
}

/// The parameters of a prefix of the filters are at most those of all of them, and
/// one more filter adds its own.
proof fn lemma_param_count_prefix(fs: Seq<Filter>, n: int)
    requires
        0 < n <= fs.len(),
    ensures
        param_count(fs.take(n)) == param_count(fs.take(n - 1)) + filter_values(
            fs[n - 1].op,
            fs[n - 1].value@,
        ).len(),
        param_count(fs.take(n)) <= param_count(fs),
    decreases fs.len(),
{
    assert(fs.take(n).drop_last() =~= fs.take(n - 1));
    if n < fs.len() {
        assert(fs.drop_last().take(n) =~= fs.take(n));
        assert(fs.drop_last().take(n - 1) =~= fs.take(n - 1));
        lemma_param_count_prefix(fs.drop_last(), n);
    } else {
        assert(fs.take(n) =~= fs);
    }
}

/// The filters pass as many parameters as `param_count` counts.
proof fn lemma_filters_view_count(model: SemanticModel, fs: Seq<Filter>)
    ensures
        filters_view(model, fs).params.len() == param_count(fs),
    decreases fs.len(),
{
    if fs.len() > 0 {
        lemma_filters_view_count(model, fs.drop_last());
    }
}

/// The number of query parameters a filter passes.
fn value_count(filter: &Filter) -> (r: usize)
    ensures
        r == filter_values(filter.op, filter.value@).len(),
{
    match filter.op {
        FilterOp::In | FilterOp::NotIn => match filter.value.as_array() {
            Some(a) => a.len(),
            None => 0,
        },
        FilterOp::Between => 2,
        FilterOp::IsNull | FilterOp::IsNotNull => 0,
        _ => 1,
    }
}

/// The number of query parameters the filters pass, or `None` when it does not
/// fit in a `usize`.
pub fn filter_param_count(filters: &Vec<Filter>) -> (r: Option<usize>)
    ensures
        match r {
            Some(n) => n == param_count(filters@),
            None => param_count(filters@) > usize::MAX,
        },
{
    let mut total: usize = 0;
    let mut i: usize = 0;
    while i < filters.len()
        invariant
            i <= filters.len(),
            total == param_count(filters@.take(i as int)),
        decreases filters.len() - i,
    {
        proof {
            lemma_param_count_prefix(filters@, i + 1);
        }
        let n = value_count(&filters[i]);
        if total > usize::MAX - n {
            proof {
                lemma_param_count_prefix(filters@, i + 1);
            }
            return None;
        }
        total = total + n;
        i = i + 1;
    }
    assert(filters@.take(filters@.len() as int) =~= filters@);
    Some(total)
}

// ── Planning ──────────────────────────────────────────────────────────────────
/// Builds the plan of an already validated request.
pub fn build_plan(
    req: &PivotRequest,
    model: &SemanticModel,
    measures: &Vec<ResolvedMeasure>,
    max_groups: u64,
) -> (p: QueryPlan)
    requires
        param_count(req.filters@) <= usize::MAX,
    ensures
        p@ == planned(*req, *model, measure_views(measures@), max_groups),
{
    let row_fields = resolve_all(&req.rows);
    let col_fields = resolve_all(&req.columns);
    let ghost mv = measure_views(measures@);

    // Build filter params
    let mut param_counter: usize = 0;
    let mut filter_params = FilterParams { params: Vec::new(), clauses: Vec::new() };
    let mut i: usize = 0;
    assert(filter_params@.params =~= Seq::<ParamView>::empty());
    assert(filter_params@.clauses =~= Seq::<Seq<char>>::empty());
    assert(req.filters@.take(0) =~= Seq::<Filter>::empty());
    while i < req.filters.len()
        invariant
            i <= req.filters.len(),
            param_counter == param_count(req.filters@.take(i as int)),
            param_count(req.filters@) <= usize::MAX,
            filter_params@ == filters_view(*model, req.filters@.take(i as int)),
        decreases req.filters.len() - i,
    {
        proof {
            lemma_param_count_prefix(req.filters@, i + 1);
            lemma_filters_view_count(*model, req.filters@.take(i as int));
        }
        let filter = &req.filters[i];
        let ch_type = match model.dimension(filter.field.as_str()) {
            Some(d) => field_ch_type(d.dim_type.as_str()),
            None => "String",
        };
        assert(req.filters@.take(i + 1).drop_last() =~= req.filters@.take(i as int));
        build_filter_clause(filter, ch_type, &mut param_counter, &mut filter_params);
        i = i + 1;
    }
    assert(req.filters@.take(req.filters@.len() as int) =~= req.filters@);

    // Build sub-queries list
    let ghost rows = field_views(row_fields@);
    let ghost cols = field_views(col_fields@);
    let ghost kinds = planned_kinds(*req);
    let mut sub_queries: Vec<SubQuery> = Vec::new();

    // Main query (always)
    let main_aliases = row_col_aliases(&row_fields, row_fields.len(), &col_fields, measures);
    sub_queries.push(
        SubQuery {
            kind: SubQueryKind::Main,
            select_aliases: main_aliases,
            measure_aliases: measure_id_list(measures),
        },
    );
    proof {
        assert(rows.take(rows.len() as int) =~= rows);
    }

    // Row subtotals (one per level, from level=1 up to n_rows-1)
    if req.totals.row_subtotals && row_fields.len() > 1 {
        let mut level: usize = 1;
        while level < row_fields.len()
            invariant
                1 <= level <= row_fields.len(),
                rows == field_views(row_fields@),
                cols == field_views(col_fields@),
                mv == measure_views(measures@),
                sub_queries@.len() == level,
                forall|k: int|
                    0 <= k < level ==> #[trigger] sub_queries@[k]@ == planned_sub_query(
                        kinds[k],
                        rows,
                        cols,
                        mv,
                    ),
                kinds == planned_kinds(*req),
                req.totals.row_subtotals,
                row_fields@.len() == req.rows@.len(),
            decreases row_fields.len() - level,
        {
            let aliases = row_col_aliases(&row_fields, level, &col_fields, measures);
            sub_queries.push(
                SubQuery {
                    kind: SubQueryKind::RowSubtotal { level },
                    select_aliases: aliases,
                    measure_aliases: measure_id_list(measures),
                },
            );
            level = level + 1;
        }
    }
    let ghost n_before_total = sub_queries@.len();
    assert(n_before_total == if req.totals.row_subtotals && req.rows@.len() > 1 {
        req.rows@.len() as int
    } else {
        1
    });

    // Grand total
    if req.totals.grand_total {
        let aliases = row_col_aliases(&row_fields, 0, &col_fields, measures);
        sub_queries.push(
            SubQuery {
                kind: SubQueryKind::GrandTotal,
                select_aliases: aliases,
                measure_aliases: measure_id_list(measures),
            },
        );
    }
    let plan = QueryPlan {
        table: string_of(model.table()),
        row_fields,
        col_fields,
        measures: copy_measures(measures),
        filter_params,
        sub_queries,
        max_groups,
    };
    proof {
        let want = Seq::new(kinds.len(), |k: int| planned_sub_query(kinds[k], rows, cols, mv));
        assert(sub_query_views(plan.sub_queries@) =~= want);
    }
    plan
}

/// The SELECT aliases of a sub-query grouping by the first `level` row fields.
fn row_col_aliases(
    row_fields: &Vec<ResolvedField>,
    level: usize,
    col_fields: &Vec<ResolvedField>,
    measures: &Vec<ResolvedMeasure>,
) -> (r: Vec<String>)
    requires
        level <= row_fields@.len(),
    ensures
        views(r@) == select_aliases_for(
            field_views(row_fields@),
            field_views(col_fields@),
            measure_views(measures@),
            level as nat,
        ),
{
    let mut r: Vec<String> = Vec::new();
    let mut i: usize = 0;
    while i < level
        invariant
            i <= level <= row_fields@.len(),
            views(r@) == aliases(field_views(row_fields@).take(i as int)),
        decreases level - i,
    {
        let ghost before = views(r@);
        r.push(row_fields[i].alias.clone());
        assert(views(r@) =~= before.push(row_fields@[i as int].alias@));
        assert(aliases(field_views(row_fields@).take(i + 1)) =~= aliases(
            field_views(row_fields@).take(i as int),
        ).push(row_fields@[i as int].alias@));
        assert(views(r@) =~= aliases(field_views(row_fields@).take(i + 1)));
        i = i + 1;
    }
    let ghost rows_part = views(r@);
    let mut k: usize = 0;
    while k < col_fields.len()
        invariant
            k <= col_fields.len(),
            views(r@) == rows_part + aliases(field_views(col_fields@).take(k as int)),
        decreases col_fields.len() - k,
    {
        let ghost before = views(r@);
        r.push(col_fields[k].alias.clone());
        assert(views(r@) =~= before.push(col_fields@[k as int].alias@));
        assert(aliases(field_views(col_fields@).take(k + 1)) =~= aliases(
            field_views(col_fields@).take(k as int),
        ).push(col_fields@[k as int].alias@));
        assert(views(r@) =~= rows_part + aliases(field_views(col_fields@).take(k + 1)));
        k = k + 1;
    }
    assert(field_views(col_fields@).take(col_fields@.len() as int) =~= field_views(col_fields@));
    let ghost head = views(r@);
    let mut m: usize = 0;
    while m < measures.len()
        invariant
            m <= measures.len(),
            views(r@) == head + measure_ids(measure_views(measures@).take(m as int)),
        decreases measures.len() - m,
    {
        let ghost before = views(r@);
        r.push(measures[m].id.clone());
        assert(views(r@) =~= before.push(measures@[m as int].id@));
        assert(measure_ids(measure_views(measures@).take(m + 1)) =~= measure_ids(
            measure_views(measures@).take(m as int),
        ).push(measures@[m as int].id@));
        assert(views(r@) =~= head + measure_ids(measure_views(measures@).take(m + 1)));
        m = m + 1;
    }
    assert(measure_views(measures@).take(measures@.len() as int) =~= measure_views(measures@));
    r
}

/// The ids of the measures.
fn measure_id_list(measures: &Vec<ResolvedMeasure>) -> (r: Vec<String>)
    ensures
        views(r@) == measure_ids(measure_views(measures@)),
{
    let mut r: Vec<String> = Vec::new();
    let mut m: usize = 0;
    while m < measures.len()
        invariant
            m <= measures.len(),
            r@.len() == m,
            forall|j: int| 0 <= j < m ==> #[trigger] r@[j]@ == measures@[j].id@,
        decreases measures.len() - m,
    {
        r.push(measures[m].id.clone());
        m = m + 1;
    }
    assert(views(r@) =~= measure_ids(measure_views(measures@)));
    r
}

/// A copy of the measures.
fn copy_measures(measures: &Vec<ResolvedMeasure>) -> (r: Vec<ResolvedMeasure>)
    ensures
        measure_views(r@) == measure_views(measures@),
{
    let mut r: Vec<ResolvedMeasure> = Vec::new();
    let mut m: usize = 0;
    while m < measures.len()
        invariant
            m <= measures.len(),
            r@.len() == m,
            forall|j: int| 0 <= j < m ==> #[trigger] r@[j]@ == measures@[j]@,
        decreases measures.len() - m,
    {
        r.push(measures[m].copy());
        m = m + 1;
    }
    assert(measure_views(r@) =~= measure_views(measures@));
    r
}

/// The ClickHouse parameter type of a dimension type.
fn field_ch_type(dim_type: &str) -> (r: &'static str)
    ensures
        r@ == ch_type_of(dim_type@),
{
    if str_eq(dim_type, "date") {
        "Date"
    } else if str_eq(dim_type, "categorical") {
        "String"
    } else if str_eq(dim_type, "numeric_bucket") {
        "Float64"
    } else {
        "String"
    }
}

/// `{pK:ty}` for the parameter named `name`.
fn placeholder_text(name: &String, ch_type: &str) -> (r: String)
    ensures
        r@ == "{"@ + name@ + ":"@ + ch_type@ + "}"@,
{
    let mut r = string_of("{");
    r.append(name.as_str());
    r.append(":");
    r.append(ch_type);
    r.append("}");
    r
}

/// `field`, then `op`, then the placeholder of the parameter named `name`.
fn comparison_text(field: &String, op: &str, name: &String, ch_type: &str) -> (r: String)
    ensures
        r@ == field@ + op@ + ("{"@ + name@ + ":"@ + ch_type@ + "}"@),
{
    let mut r = field.clone();
    r.append(op);
    let p = placeholder_text(name, ch_type);
    r.append(p.as_str());
    r
}

/// Adds the parameters and the WHERE fragment of one filter.
fn build_filter_clause(
    filter: &Filter,
    ch_type: &'static str,
    counter: &mut usize,
    out: &mut FilterParams,
)
    requires
        *old(counter) + filter_values(filter.op, filter.value@).len() <= usize::MAX,
    ensures
        *final(counter) == *old(counter) + filter_values(filter.op, filter.value@).len(),
        final(out)@.params == old(out)@.params + numbered_params(
            filter_values(filter.op, filter.value@),
            *old(counter) as nat,
        ),
        final(out)@.clauses == old(out)@.clauses.push(
            clause_text(
                filter.field@,
                filter.op,
                ch_type@,
                *old(counter) as nat,
                filter_values(filter.op, filter.value@).len(),
            ),
        ),
{
    let field = &filter.field;
    let ghost start = *counter as nat;
    let ghost values = filter_values(filter.op, filter.value@);
    let ghost old_params = out@.params;
    let ghost old_clauses = out@.clauses;
    let clause = match &filter.op {
        FilterOp::In | FilterOp::NotIn => {
            let items: Vec<JsonValue> = match filter.value.as_array() {
                Some(a) => copy_values(a),
                None => Vec::new(),
            };
            let mut marks: Vec<String> = Vec::new();
            let mut j: usize = 0;
            assert(views(marks@) =~= placeholders(start, 0, ch_type@));
            assert(numbered_params(values.take(0), start) =~= Seq::<ParamView>::empty());
            assert(out@.params =~= old_params + numbered_params(values.take(0), start));
            while j < items.len()
                invariant
                    j <= items.len(),
                    json_views_of(items@) == array_items(filter.value@),
                    values == filter_values(filter.op, filter.value@),
                    filter.op == FilterOp::In || filter.op == FilterOp::NotIn,
                    start + values.len() <= usize::MAX,
                    values.len() == items@.len(),
                    out@.clauses == old_clauses,
                    out@.params == old_params + numbered_params(values.take(j as int), start),
                    views(marks@) == placeholders(start, j as nat, ch_type@),
                    *counter == start + j,
                decreases items.len() - j,
            {
                let p = next_param(counter, &items[j].to_string_lossy(), out);
                let ghost before = views(marks@);
                let mark = placeholder_text(&p, ch_type);
                marks.push(mark);
                assert(views(marks@) =~= before.push(mark@));
                assert(placeholders(start, (j + 1) as nat, ch_type@) =~= placeholders(
                    start,
                    j as nat,
                    ch_type@,
                ).push(placeholder((start + j) as nat, ch_type@)));
                proof {
                    assert(values.take(j + 1) =~= values.take(j as int).push(values[j as int]));
                    assert(numbered_params(values.take(j + 1), start) =~= numbered_params(
                        values.take(j as int),
                        start,
                    ).push(ParamView { name: param_name((start + j) as nat), value: values[j as int] }));
                    assert(views(marks@) =~= placeholders(start, (j + 1) as nat, ch_type@));
                }
                j = j + 1;
            }
            assert(values.take(items.len() as int) =~= values);
            let joined = join_strings(&marks, ", ");
            let mut c = field.clone();
            if let FilterOp::In = filter.op {
                c.append(" IN (");
            } else {
                c.append(" NOT IN (");
            }
            c.append(joined.as_str());
            c.append(")");
            c
        },
        FilterOp::Between => {
            let (v0, v1) = match filter.value.as_array() {
                Some(a) => (
                    if a.len() > 0 {
                        a[0].to_string_lossy()
                    } else {
                        String::new()
                    },
                    if a.len() > 1 {
                        a[1].to_string_lossy()
                    } else {
                        String::new()
                    },
                ),
                None => (String::new(), String::new()),
            };
            let p0 = next_param(counter, &v0, out);
            let p1 = next_param(counter, &v1, out);
            let mut c = field.clone();
            c.append(" BETWEEN ");
            let t0 = placeholder_text(&p0, ch_type);
            c.append(t0.as_str());
            c.append(" AND ");
            let t1 = placeholder_text(&p1, ch_type);
            c.append(t1.as_str());
            proof {
                assert(numbered_params(values, start) =~= seq![
                    ParamView { name: param_name(start), value: values[0] },
                    ParamView { name: param_name(start + 1), value: values[1] },
                ]);
                assert(out@.params =~= old_params + numbered_params(values, start));
            }
            c
        },
        FilterOp::IsNull => {
            let mut c = field.clone();
            c.append(" IS NULL");
            assert(numbered_params(values, start) =~= Seq::<ParamView>::empty());
            assert(out@.params =~= old_params + numbered_params(values, start));
            c
        },
        FilterOp::IsNotNull => {
            let mut c = field.clone();
            c.append(" IS NOT NULL");
            assert(numbered_params(values, start) =~= Seq::<ParamView>::empty());
            assert(out@.params =~= old_params + numbered_params(values, start));
            c
        },
        _ => {
            let p = next_param(counter, &filter.value.to_string_lossy(), out);
            let op_text = match filter.op {
                FilterOp::Eq => " = ",
                FilterOp::Neq => " != ",
                FilterOp::Gt => " > ",
                FilterOp::Gte => " >= ",
                FilterOp::Lt => " < ",
                _ => " <= ",
            };
            proof {
                assert(numbered_params(values, start) =~= seq![
                    ParamView { name: param_name(start), value: values[0] },
                ]);
                assert(out@.params =~= old_params + numbered_params(values, start));
            }
            comparison_text(field, op_text, &p, ch_type)
        },
    };
    out.clauses.push(clause);
    assert(views(out.clauses@) =~= old_clauses.push(clause@));
}

/// The views of a list of JSON values.
pub open spec fn json_views_of(s: Seq<JsonValue>) -> Seq<JsonView> {
    Seq::new(s.len(), |i: int| s[i]@)
}

/// A copy of a list of JSON values.
fn copy_values(a: &Vec<JsonValue>) -> (r: Vec<JsonValue>)
    ensures
        json_views_of(r@) == json_views_of(a@),
{
    let mut r: Vec<JsonValue> = Vec::new();
    let mut i: usize = 0;
    while i < a.len()
        invariant
            i <= a.len(),
            r@.len() == i,
            forall|j: int| 0 <= j < i ==> #[trigger] r@[j]@ == a@[j]@,
        decreases a.len() - i,
    {
        r.push(a[i].copy());
        i = i + 1;
    }
    assert(json_views_of(r@) =~= json_views_of(a@));
    r
}

/// Records the next query parameter with `value`, unchanged, and returns its name.
fn next_param(counter: &mut usize, value: &String, out: &mut FilterParams) -> (name: String)
    requires
        *old(counter) < usize::MAX,
    ensures
        *final(counter) == *old(counter) + 1,
        name@ == param_name(*old(counter) as nat),
        final(out)@.params == old(out)@.params.push(
            ParamView { name: param_name(*old(counter) as nat), value: value@ },
        ),
        final(out)@.clauses == old(out)@.clauses,
{
    let mut name = string_of("p");
    let digits = decimal_string(*counter as u64);
    name.append(digits.as_str());
    let ghost old_params = out.params@;
    out.params.push((name.clone(), value.clone()));
    assert(param_views(out.params@) =~= param_views(old_params).push(ParamView { name: name@, value: value@ }));
    *counter = *counter + 1;
    name
}

} // verus!

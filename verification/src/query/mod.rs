//! Query planning: validate request → build SQL plan → emit parameterized SQL.
//!
//! Invariants enforced here:
//!   • Only model fields may appear in GROUP BY / filters.
//!   • All filter values are ClickHouse HTTP parameters.
//!   • The cardinality guard fires before any SQL is executed.

use vstd::prelude::*;

use crate::error::{EngineError, ErrorView};
use crate::semantic::{copy_opt_string, opt_view, strings_contain, SemanticModel};
use crate::text::{join, join_strings, str_eq, string_of, views};
use crate::types::{agg_variant, AggType, FieldRef, Filter, FilterOp, MeasureRef, PivotRequest};

pub mod plan;
pub mod sql;

pub use plan::{QueryPlan, SubQuery, SubQueryKind};
pub use sql::build_sql;

use plan::{build_plan, planned};

verus! {

/// A requested measure resolved against the model.
#[derive(Debug, Clone)]
pub struct ResolvedMeasure {
    pub id: String,
    pub field: String,
    pub agg: AggType,
    pub additive: bool,
    pub format: Option<String>,
}

/// The model of a resolved measure.
pub struct MeasureView {
    pub id: Seq<char>,
    pub field: Seq<char>,
    pub agg: AggType,
    pub additive: bool,
    pub format: Option<Seq<char>>,
}

impl View for ResolvedMeasure {
    type V = MeasureView;

    open spec fn view(&self) -> MeasureView {
        MeasureView {
            id: self.id@,
            field: self.field@,
            agg: self.agg,
            additive: self.additive,
            format: opt_view(self.format),
        }
    }
}

impl ResolvedMeasure {
    /// A copy of the measure.
    pub fn copy(&self) -> (r: ResolvedMeasure)
        ensures
            r@ == self@,
    {
        ResolvedMeasure {
            id: self.id.clone(),
            field: self.field.clone(),
            agg: self.agg,
            additive: self.additive,
            format: copy_opt_string(&self.format),
        }
    }
}

// ── Validation rules ──────────────────────────────────────────────────────────
/// The message refusing a granularity on a dimension that is not a date.
pub open spec fn granularity_message(field: Seq<char>, dim_type: Seq<char>) -> Seq<char> {
    "date_granularity is only allowed on date dimensions, but '"@ + field + "' has type '"@
        + dim_type + "'"@
}

/// The error a requested dimension raises, if any: the field must be a dimension of
/// the model, and a granularity is allowed on date dimensions only.
pub open spec fn dimension_error(model: SemanticModel, f: FieldRef) -> Option<ErrorView> {
    match model.spec_dimension(f.field@) {
        None => Some(ErrorView::FieldNotAllowed(f.field@)),
        Some(d) => if f.date_granularity is Some && d.dim_type@ != "date"@ {
            Some(ErrorView::ValidationFailed(granularity_message(f.field@, d.dim_type@)))
        } else {
            None
        },
    }
}

/// The first error raised by the dimensions `fs`, in order.
pub open spec fn first_dimension_error(model: SemanticModel, fs: Seq<FieldRef>) -> Option<ErrorView>
    decreases fs.len(),
{
    if fs.len() == 0 {
        None
    } else {
        match first_dimension_error(model, fs.drop_last()) {
            Some(e) => Some(e),
            None => dimension_error(model, fs.last()),
        }
    }
}

/// A measure of type `calculated`, which planning skips.
pub open spec fn is_calculated(m: MeasureRef) -> bool {
    opt_view(m.measure_type) == Some("calculated"@)
}

/// The error a requested measure raises, if any: the measure must exist and a
/// requested aggregation must be among those the model allows for it.
pub open spec fn measure_error(model: SemanticModel, m: MeasureRef) -> Option<ErrorView> {
    if is_calculated(m) {
        None
    } else {
        match model.spec_measure(m.id@) {
            None => Some(ErrorView::FieldNotAllowed("measure '"@ + m.id@ + "'"@)),
            Some(meta) => match m.agg {
                Some(a) => if views(meta.allowed_agg@).contains(crate::types::agg_name(a)) {
                    None
                } else {
                    Some(
                        ErrorView::ValidationFailed(
                            "aggregation '"@ + agg_variant(a) + "' is not allowed for measure '"@
                                + m.id@ + "' (allowed: "@ + join(views(meta.allowed_agg@), ", "@)
                                + ")"@,
                        ),
                    )
                },
                None => None,
            },
        }
    }
}

/// The first error raised by the measures `ms`, in order.
pub open spec fn first_measure_error(model: SemanticModel, ms: Seq<MeasureRef>) -> Option<ErrorView>
    decreases ms.len(),
{
    if ms.len() == 0 {
        None
    } else {
        match first_measure_error(model, ms.drop_last()) {
            Some(e) => Some(e),
            None => measure_error(model, ms.last()),
        }
    }
}

/// The first filter on a field that the model does not allow in filters.
pub open spec fn first_filter_error(model: SemanticModel, fs: Seq<Filter>) -> Option<ErrorView>
    decreases fs.len(),
{
    if fs.len() == 0 {
        None
    } else {
        match first_filter_error(model, fs.drop_last()) {
            Some(e) => Some(e),
            None => if model.spec_filterable(fs.last().field@) {
                None
            } else {
                Some(ErrorView::FieldNotAllowed("filter field '"@ + fs.last().field@ + "'"@))
            },
        }
    }
}

/// Some filter bounds `field` by equality or membership.
pub open spec fn bounded_by_filter(filters: Seq<Filter>, field: Seq<char>) -> bool {
    exists|i: int|
        0 <= i < filters.len() && (#[trigger] filters[i]).field@ == field && (filters[i].op
            == FilterOp::Eq || filters[i].op == FilterOp::In)
}

/// The error a grouped dimension raises under the cardinality guard: a
/// high-cardinality field needs a `top_n` or a bounding filter.
pub open spec fn cardinality_error(model: SemanticModel, filters: Seq<Filter>, f: FieldRef) -> Option<
    ErrorView,
> {
    if views(model.config.guards.high_cardinality_fields@).contains(f.field@) && f.top_n is None
        && !bounded_by_filter(filters, f.field@) {
        Some(
            ErrorView::PreaggregateToLarge(
                "field '"@ + f.field@ + "' is high-cardinality; add a filter or top_n limit"@,
            ),
        )
    } else {
        None
    }
}

/// The first cardinality error raised by the dimensions `fs`, in order.
pub open spec fn first_cardinality_error(
    model: SemanticModel,
    filters: Seq<Filter>,
    fs: Seq<FieldRef>,
) -> Option<ErrorView>
    decreases fs.len(),
{
    if fs.len() == 0 {
        None
    } else {
        match first_cardinality_error(model, filters, fs.drop_last()) {
            Some(e) => Some(e),
            None => cardinality_error(model, filters, fs.last()),
        }
    }
}

/// The error that refuses `req` on `model`: the checks run in order over the
/// dimensions, the measures, the filters and the cardinality guard.
pub open spec fn plan_error(req: PivotRequest, model: SemanticModel) -> Option<ErrorView> {
    let dims = req.rows@ + req.columns@;
    if first_dimension_error(model, dims) is Some {
        first_dimension_error(model, dims)
    } else if first_measure_error(model, req.measures@) is Some {
        first_measure_error(model, req.measures@)
    } else if first_filter_error(model, req.filters@) is Some {
        first_filter_error(model, req.filters@)
    } else {
        first_cardinality_error(model, req.filters@, dims)
    }
}

/// The aggregation named `s`; an unknown name reads as `sum`.
pub open spec fn parse_agg_text(s: Seq<char>) -> AggType {
    if s == "sum"@ {
        AggType::Sum
    } else if s == "count"@ {
        AggType::Count
    } else if s == "count_distinct"@ {
        AggType::CountDistinct
    } else if s == "min"@ {
        AggType::Min
    } else if s == "max"@ {
        AggType::Max
    } else if s == "avg"@ {
        AggType::Avg
    } else {
        AggType::Sum
    }
}

/// The resolution of a non-calculated measure declared by the model: its field,
/// additivity and format come from the model, and its aggregation is the requested
/// one or else the first the model allows (`sum` when it allows none).
pub open spec fn resolve_measure(model: SemanticModel, m: MeasureRef) -> MeasureView {
    let meta = model.spec_measure(m.id@).unwrap();
    MeasureView {
        id: m.id@,
        field: meta.field@,
        agg: match m.agg {
            Some(a) => a,
            None => parse_agg_text(
                if meta.allowed_agg@.len() > 0 {
                    meta.allowed_agg@[0]@
                } else {
                    "sum"@
                },
            ),
        },
        additive: meta.additive,
        format: opt_view(meta.format),
    }
}

/// The resolutions of the non-calculated measures of `ms`, in order.
pub open spec fn resolved_measures(model: SemanticModel, ms: Seq<MeasureRef>) -> Seq<MeasureView>
    decreases ms.len(),
{
    if ms.len() == 0 {
        Seq::empty()
    } else if is_calculated(ms.last()) {
        resolved_measures(model, ms.drop_last())
    } else {
        resolved_measures(model, ms.drop_last()).push(resolve_measure(model, ms.last()))
    }
}

/// The group limit a request plans with: its own, or else the configured one.
pub open spec fn effective_max_groups(req: PivotRequest, max_groups: u64) -> u64 {
    match req.limits.max_groups {
        Some(g) => g,
        None => max_groups,
    }
}

// ── Planning ──────────────────────────────────────────────────────────────────
/// Validates the request against the semantic model: the dimensions, the
/// measures, the filter fields and the cardinality guard, in that order.
pub fn check_request(req: &PivotRequest, model: &SemanticModel) -> (r: Result<(), EngineError>)
    ensures
        match r {
            Ok(()) => plan_error(*req, *model) is None,
            Err(e) => plan_error(*req, *model) == Some(e@),
        },
{
    let ghost dims = req.rows@ + req.columns@;
    // ── 1. Validate dimension fields ──────────────────────────────────────────
    let dim_rows = check_dimensions(model, &req.rows);
    proof {
        lemma_first_dimension_error_concat(*model, req.rows@, req.columns@);
    }
    if let Err(e) = dim_rows {
        return Err(e);
    }
    let dim_cols = check_dimensions(model, &req.columns);
    if let Err(e) = dim_cols {
        return Err(e);
    }
    // ── 2. Validate measures ──────────────────────────────────────────────────
    let mut i: usize = 0;
    while i < req.measures.len()
        invariant
            i <= req.measures.len(),
            first_dimension_error(*model, req.rows@ + req.columns@) is None,
            first_measure_error(*model, req.measures@.take(i as int)) is None,
        decreases req.measures.len() - i,
    {
        let m = &req.measures[i];
        assert(req.measures@.take(i + 1).drop_last() =~= req.measures@.take(i as int));
        if let Some(e) = check_measure(model, m) {
            proof {
                lemma_first_measure_error_prefix(*model, req.measures@, (i + 1) as int);
            }
            return Err(e);
        }
        i = i + 1;
    }
    assert(req.measures@.take(req.measures@.len() as int) =~= req.measures@);
    // ── 3. Validate filter fields ─────────────────────────────────────────────
    let mut k: usize = 0;
    while k < req.filters.len()
        invariant
            k <= req.filters.len(),
            first_dimension_error(*model, req.rows@ + req.columns@) is None,
            first_measure_error(*model, req.measures@) is None,
            first_filter_error(*model, req.filters@.take(k as int)) is None,
        decreases req.filters.len() - k,
    {
        let f = &req.filters[k];
        assert(req.filters@.take(k + 1).drop_last() =~= req.filters@.take(k as int));
        if !model.validate_filter_field(f.field.as_str()) {
            let mut msg = string_of("filter field '");
            msg.append(f.field.as_str());
            msg.append("'");
            proof {
                lemma_first_filter_error_prefix(*model, req.filters@, (k + 1) as int);
            }
            return Err(EngineError::FieldNotAllowed(msg));
        }
        k = k + 1;
    }
    assert(req.filters@.take(req.filters@.len() as int) =~= req.filters@);
    // ── 4. Cardinality guard ──────────────────────────────────────────────────
    let card_rows = check_cardinality(model, &req.filters, &req.rows);
    proof {
        lemma_first_cardinality_error_concat(*model, req.filters@, req.rows@, req.columns@);
    }
    if let Err(e) = card_rows {
        return Err(e);
    }
    let card_cols = check_cardinality(model, &req.filters, &req.columns);
    if let Err(e) = card_cols {
        return Err(e);
    }
    Ok(())
}

/// Validate the request against the semantic model and produce a `QueryPlan`.
pub fn plan(req: &PivotRequest, model: &SemanticModel, max_groups: u64) -> (r: Result<
    QueryPlan,
    EngineError,
>)
    requires
        plan_error(*req, *model) is None ==> plan::param_count(req.filters@) <= usize::MAX,
    ensures
        match r {
            Err(e) => plan_error(*req, *model) == Some(e@),
            Ok(p) => plan_error(*req, *model) is None && p@ == planned(
                *req,
                *model,
                resolved_measures(*model, req.measures@),
                effective_max_groups(*req, max_groups),
            ),
        },
{
    if let Err(e) = check_request(req, model) {
        return Err(e);
    }
    let effective_max = match req.limits.max_groups {
        Some(g) => g,
        None => max_groups,
    };
    // ── 5. Build resolved measures ────────────────────────────────────────────
    let mut resolved: Vec<ResolvedMeasure> = Vec::new();
    let mut j: usize = 0;
    while j < req.measures.len()
        invariant
            j <= req.measures.len(),
            first_measure_error(*model, req.measures@) is None,
            plan::measure_views(resolved@) == resolved_measures(*model, req.measures@.take(j as int)),
        decreases req.measures.len() - j,
    {
        let m = &req.measures[j];
        assert(req.measures@.take(j + 1).drop_last() =~= req.measures@.take(j as int));
        proof {
            lemma_measure_error_prefix(*model, req.measures@, j as int);
        }
        let calculated = match &m.measure_type {
            Some(t) => str_eq(t.as_str(), "calculated"),
            None => false,
        };
        if !calculated {
            let meta = model.measure(m.id.as_str()).unwrap();
            let agg = match m.agg {
                Some(a) => a,
                None => if meta.allowed_agg.len() > 0 {
                    parse_agg(meta.allowed_agg[0].as_str())
                } else {
                    parse_agg("sum")
                },
            };
            let ghost before = plan::measure_views(resolved@);
            resolved.push(
                ResolvedMeasure {
                    id: m.id.clone(),
                    field: meta.field.clone(),
                    agg,
                    additive: meta.additive,
                    format: copy_opt_string(&meta.format),
                },
            );
            assert(plan::measure_views(resolved@) =~= before.push(resolve_measure(*model, *m)));
        }
        j = j + 1;
    }
    assert(req.measures@.take(req.measures@.len() as int) =~= req.measures@);
    // ── 6. Build QueryPlan ────────────────────────────────────────────────────
    Ok(build_plan(req, model, &resolved, effective_max))
}

/// The first error among the dimensions of `a + b` is the first of `a`, else the first of `b`.
proof fn lemma_first_dimension_error_concat(model: SemanticModel, a: Seq<FieldRef>, b: Seq<FieldRef>)
    ensures
        first_dimension_error(model, a + b) == match first_dimension_error(model, a) {
            Some(e) => Some(e),
            None => first_dimension_error(model, b),
        },
    decreases b.len(),
{
    if b.len() == 0 {
        assert(a + b =~= a);
    } else {
        lemma_first_dimension_error_concat(model, a, b.drop_last());
        assert((a + b).drop_last() =~= a + b.drop_last());
        assert((a + b).last() == b.last());
    }
}

/// The first cardinality error of `a + b` is the first of `a`, else the first of `b`.
proof fn lemma_first_cardinality_error_concat(
    model: SemanticModel,
    filters: Seq<Filter>,
    a: Seq<FieldRef>,
    b: Seq<FieldRef>,
)
    ensures
        first_cardinality_error(model, filters, a + b) == match first_cardinality_error(
            model,
            filters,
            a,
        ) {
            Some(e) => Some(e),
            None => first_cardinality_error(model, filters, b),
        },
    decreases b.len(),
{
    if b.len() == 0 {
        assert(a + b =~= a);
    } else {
        lemma_first_cardinality_error_concat(model, filters, a, b.drop_last());
        assert((a + b).drop_last() =~= a + b.drop_last());
        assert((a + b).last() == b.last());
    }
}

/// Where no measure raises an error, neither does the one at `j`.
proof fn lemma_measure_error_prefix(model: SemanticModel, ms: Seq<MeasureRef>, j: int)
    requires
        0 <= j < ms.len(),
        first_measure_error(model, ms) is None,
    ensures
        measure_error(model, ms[j]) is None,
    decreases ms.len(),
{
    if j < ms.len() - 1 {
        assert(ms.drop_last()[j] == ms[j]);
        lemma_measure_error_prefix(model, ms.drop_last(), j);
    }
}

/// Checks the dimensions `fs` in order.
fn check_dimensions(model: &SemanticModel, fs: &Vec<FieldRef>) -> (r: Result<(), EngineError>)
    ensures
        match r {
            Ok(()) => first_dimension_error(*model, fs@) is None,
            Err(e) => first_dimension_error(*model, fs@) == Some(e@),
        },
{
    let mut i: usize = 0;
    while i < fs.len()
        invariant
            i <= fs.len(),
            first_dimension_error(*model, fs@.take(i as int)) is None,
        decreases fs.len() - i,
    {
        let f = &fs[i];
        assert(fs@.take(i + 1).drop_last() =~= fs@.take(i as int));
        let dim = model.dimension(f.field.as_str());
        match dim {
            None => {
                proof {
                    lemma_first_dimension_error_prefix(*model, fs@, (i + 1) as int);
                }
                return Err(EngineError::FieldNotAllowed(f.field.clone()));
            },
            Some(d) => {
                if f.date_granularity.is_some() && !str_eq(d.dim_type.as_str(), "date") {
                    let mut msg = string_of(
                        "date_granularity is only allowed on date dimensions, but '",
                    );
                    msg.append(f.field.as_str());
                    msg.append("' has type '");
                    msg.append(d.dim_type.as_str());
                    msg.append("'");
                    proof {
                        lemma_first_dimension_error_prefix(*model, fs@, (i + 1) as int);
                    }
                    return Err(EngineError::ValidationFailed(msg));
                }
            },
        }
        i = i + 1;
    }
    assert(fs@.take(fs@.len() as int) =~= fs@);
    Ok(())
}

/// An error of a prefix is the first error of the whole sequence.
proof fn lemma_first_dimension_error_prefix(model: SemanticModel, fs: Seq<FieldRef>, n: int)
    requires
        0 <= n <= fs.len(),
        first_dimension_error(model, fs.take(n)) is Some,
    ensures
        first_dimension_error(model, fs) == first_dimension_error(model, fs.take(n)),
    decreases fs.len(),
{
    if n < fs.len() {
        assert(fs.drop_last().take(n) =~= fs.take(n));
        lemma_first_dimension_error_prefix(model, fs.drop_last(), n);
    } else {
        assert(fs.take(n) =~= fs);
    }
}

/// An error of a prefix of the measures is the first error of them all.
proof fn lemma_first_measure_error_prefix(model: SemanticModel, ms: Seq<MeasureRef>, n: int)
    requires
        0 <= n <= ms.len(),
        first_measure_error(model, ms.take(n)) is Some,
    ensures
        first_measure_error(model, ms) == first_measure_error(model, ms.take(n)),
    decreases ms.len(),
{
    if n < ms.len() {
        assert(ms.drop_last().take(n) =~= ms.take(n));
        lemma_first_measure_error_prefix(model, ms.drop_last(), n);
    } else {
        assert(ms.take(n) =~= ms);
    }
}

/// An error of a prefix of the filters is the first error of them all.
proof fn lemma_first_filter_error_prefix(model: SemanticModel, fs: Seq<Filter>, n: int)
    requires
        0 <= n <= fs.len(),
        first_filter_error(model, fs.take(n)) is Some,
    ensures
        first_filter_error(model, fs) == first_filter_error(model, fs.take(n)),
    decreases fs.len(),
{
    if n < fs.len() {
        assert(fs.drop_last().take(n) =~= fs.take(n));
        lemma_first_filter_error_prefix(model, fs.drop_last(), n);
    } else {
        assert(fs.take(n) =~= fs);
    }
}

/// An error of a prefix is the first cardinality error of the whole sequence.
proof fn lemma_first_cardinality_error_prefix(
    model: SemanticModel,
    filters: Seq<Filter>,
    fs: Seq<FieldRef>,
    n: int,
)
    requires
        0 <= n <= fs.len(),
        first_cardinality_error(model, filters, fs.take(n)) is Some,
    ensures
        first_cardinality_error(model, filters, fs) == first_cardinality_error(model, filters, fs.take(n)),
    decreases fs.len(),
{
    if n < fs.len() {
        assert(fs.drop_last().take(n) =~= fs.take(n));
        lemma_first_cardinality_error_prefix(model, filters, fs.drop_last(), n);
    } else {
        assert(fs.take(n) =~= fs);
    }
}

/// Checks one measure.
fn check_measure(model: &SemanticModel, m: &MeasureRef) -> (r: Option<EngineError>)
    ensures
        match r {
            None => measure_error(*model, *m) is None,
            Some(e) => measure_error(*model, *m) == Some(e@),
        },
{
    // Skip calculated measures (validated separately)
    if let Some(t) = &m.measure_type {
        if str_eq(t.as_str(), "calculated") {
            return None;
        }
    }
    let meta = match model.measure(m.id.as_str()) {
        Some(meta) => meta,
        None => {
            let mut msg = string_of("measure '");
            msg.append(m.id.as_str());
            msg.append("'");
            return Some(EngineError::FieldNotAllowed(msg));
        },
    };
    if let Some(agg) = &m.agg {
        if !model.validate_measure_agg(m.id.as_str(), agg) {
            let mut msg = string_of("aggregation '");
            msg.append(agg.variant_name());
            msg.append("' is not allowed for measure '");
            msg.append(m.id.as_str());
            msg.append("' (allowed: ");
            let allowed = join_strings(&meta.allowed_agg, ", ");
            msg.append(allowed.as_str());
            msg.append(")");
            return Some(EngineError::ValidationFailed(msg));
        }
    }
    None
}

/// Whether some filter bounds `field` by equality or membership.
fn has_bounding_filter(filters: &Vec<Filter>, field: &str) -> (r: bool)
    ensures
        r == bounded_by_filter(filters@, field@),
{
    let mut i: usize = 0;
    while i < filters.len()
        invariant
            i <= filters.len(),
            forall|j: int|
                0 <= j < i ==> !((#[trigger] filters@[j]).field@ == field@ && (filters@[j].op
                    == FilterOp::Eq || filters@[j].op == FilterOp::In)),
        decreases filters.len() - i,
    {
        let f = &filters[i];
        if str_eq(f.field.as_str(), field) && (f.op == FilterOp::Eq || f.op == FilterOp::In) {
            return true;
        }
        i = i + 1;
    }
    false
}

/// Applies the cardinality guard to the dimensions `fs` in order.
fn check_cardinality(model: &SemanticModel, filters: &Vec<Filter>, fs: &Vec<FieldRef>) -> (r: Result<
    (),
    EngineError,
>)
    ensures
        match r {
            Ok(()) => first_cardinality_error(*model, filters@, fs@) is None,
            Err(e) => first_cardinality_error(*model, filters@, fs@) == Some(e@),
        },
{
    let mut i: usize = 0;
    while i < fs.len()
        invariant
            i <= fs.len(),
            first_cardinality_error(*model, filters@, fs@.take(i as int)) is None,
        decreases fs.len() - i,
    {
        let f = &fs[i];
        assert(fs@.take(i + 1).drop_last() =~= fs@.take(i as int));
        if strings_contain(&model.guards().high_cardinality_fields, f.field.as_str()) {
            // High-cardinality field in GROUP BY — check if bounded by a filter or top_n
            let has_top_n = f.top_n.is_some();
            let has_eq_filter = has_bounding_filter(filters, f.field.as_str());
            if !has_top_n && !has_eq_filter {
                let mut msg = string_of("field '");
                msg.append(f.field.as_str());
                msg.append("' is high-cardinality; add a filter or top_n limit");
                proof {
                    lemma_first_cardinality_error_prefix(*model, filters@, fs@, (i + 1) as int);
                }
                return Err(EngineError::PreaggregateToLarge(msg));
            }
        }
        i = i + 1;
    }
    assert(fs@.take(fs@.len() as int) =~= fs@);
    Ok(())
}

/// The aggregation named `s`; an unknown name reads as `sum`.
pub fn parse_agg(s: &str) -> (r: AggType)
    ensures
        r == parse_agg_text(s@),
{
    if str_eq(s, "sum") {
        AggType::Sum
    } else if str_eq(s, "count") {
        AggType::Count
    } else if str_eq(s, "count_distinct") {
        AggType::CountDistinct
    } else if str_eq(s, "min") {
        AggType::Min
    } else if str_eq(s, "max") {
        AggType::Max
    } else if str_eq(s, "avg") {
        AggType::Avg
    } else {
        AggType::Sum
    }
}

// ── Laws ──────────────────────────────────────────────────────────────────────
/// Every aggregation name reads back as its aggregation.
pub proof fn lemma_parse_agg_name(a: AggType)
    ensures
        parse_agg_text(crate::types::agg_name(a)) == a,
{
    reveal_strlit("sum");
    reveal_strlit("count");
    reveal_strlit("count_distinct");
    reveal_strlit("min");
    reveal_strlit("max");
    reveal_strlit("avg");
    let (sum, count, distinct, min, max, avg) = ("sum"@, "count"@, "count_distinct"@, "min"@, "max"@, "avg"@);
    assert(count[0] != sum[0]);
    assert(distinct[0] != sum[0] && distinct.len() != count.len());
    assert(min[0] != sum[0] && min[0] != count[0] && min.len() != distinct.len());
    assert(max[0] != sum[0] && max[0] != count[0] && max.len() != distinct.len() && max[1] != min[1]);
    assert(avg[0] != sum[0] && avg[0] != count[0] && avg.len() != distinct.len() && avg[0] != min[0]
        && avg[0] != max[0]);
}

proof fn lemma_no_dimension_error(model: SemanticModel, fs: Seq<FieldRef>, i: int)
    requires
        first_dimension_error(model, fs) is None,
        0 <= i < fs.len(),
    ensures
        dimension_error(model, fs[i]) is None,
    decreases fs.len(),
{
    if i < fs.len() - 1 {
        lemma_no_dimension_error(model, fs.drop_last(), i);
    }
}

proof fn lemma_no_measure_error(model: SemanticModel, ms: Seq<MeasureRef>, i: int)
    requires
        first_measure_error(model, ms) is None,
        0 <= i < ms.len(),
    ensures
        measure_error(model, ms[i]) is None,
    decreases ms.len(),
{
    if i < ms.len() - 1 {
        lemma_no_measure_error(model, ms.drop_last(), i);
    }
}

proof fn lemma_no_filter_error(model: SemanticModel, fs: Seq<Filter>, i: int)
    requires
        first_filter_error(model, fs) is None,
        0 <= i < fs.len(),
    ensures
        model.spec_filterable(fs[i].field@),
    decreases fs.len(),
{
    if i < fs.len() - 1 {
        lemma_no_filter_error(model, fs.drop_last(), i);
    }
}

/// Only fields declared in the semantic model may be queried: a request the
/// planner accepts groups only by dimensions of the model, filters only on fields
/// the model lets filter, and aggregates only measures the model declares, with
/// an aggregation it allows.
pub proof fn lemma_accepted_fields_in_model(req: PivotRequest, model: SemanticModel)
    requires
        plan_error(req, model) is None,
    ensures
        forall|i: int|
            0 <= i < req.rows@.len() ==> model.spec_dimension((#[trigger] req.rows@[i]).field@) is Some,
        forall|i: int|
            0 <= i < req.columns@.len() ==> model.spec_dimension(
                (#[trigger] req.columns@[i]).field@,
            ) is Some,
        forall|i: int|
            0 <= i < req.filters@.len() ==> model.spec_filterable((#[trigger] req.filters@[i]).field@),
        forall|i: int|
            0 <= i < req.measures@.len() && !is_calculated(#[trigger] req.measures@[i]) ==> (
            model.spec_measure(req.measures@[i].id@) matches Some(meta) && (req.measures@[i].agg matches Some(
                a,
            ) ==> views(meta.allowed_agg@).contains(crate::types::agg_name(a)))),
{
    let dims = req.rows@ + req.columns@;
    assert forall|i: int| 0 <= i < req.rows@.len() implies model.spec_dimension(
        (#[trigger] req.rows@[i]).field@,
    ) is Some by {
        lemma_no_dimension_error(model, dims, i);
        assert(dims[i] == req.rows@[i]);
    }
    assert forall|i: int| 0 <= i < req.columns@.len() implies model.spec_dimension(
        (#[trigger] req.columns@[i]).field@,
    ) is Some by {
        lemma_no_dimension_error(model, dims, req.rows@.len() + i);
        assert(dims[req.rows@.len() + i] == req.columns@[i]);
    }
    assert forall|i: int| 0 <= i < req.filters@.len() implies model.spec_filterable(
        (#[trigger] req.filters@[i]).field@,
    ) by {
        lemma_no_filter_error(model, req.filters@, i);
    }
    assert forall|i: int| 0 <= i < req.measures@.len() && !is_calculated(#[trigger] req.measures@[i]) implies (
    model.spec_measure(req.measures@[i].id@) matches Some(meta) && (req.measures@[i].agg matches Some(a)
        ==> views(meta.allowed_agg@).contains(crate::types::agg_name(a)))) by {
        lemma_no_measure_error(model, req.measures@, i);
    }
}

proof fn lemma_cardinality_error_found(model: SemanticModel, filters: Seq<Filter>, fs: Seq<FieldRef>, i: int)
    requires
        0 <= i < fs.len(),
        cardinality_error(model, filters, fs[i]) is Some,
    ensures
        first_cardinality_error(model, filters, fs) is Some,
    decreases fs.len(),
{
    if i < fs.len() - 1 {
        lemma_cardinality_error_found(model, filters, fs.drop_last(), i);
    }
}

/// High-cardinality grouping is refused before any SQL is written: a request that
/// groups by a high-cardinality field with neither a `top_n` nor an equality or
/// membership filter on it is refused by the planner.
pub proof fn lemma_high_cardinality_refused(req: PivotRequest, model: SemanticModel, f: FieldRef)
    requires
        req.rows@.contains(f) || req.columns@.contains(f),
        views(model.config.guards.high_cardinality_fields@).contains(f.field@),
        f.top_n is None,
        !bounded_by_filter(req.filters@, f.field@),
    ensures
        plan_error(req, model) is Some,
{
    let dims = req.rows@ + req.columns@;
    if req.rows@.contains(f) {
        let i = choose|i: int| 0 <= i < req.rows@.len() && req.rows@[i] == f;
        assert(dims[i] == f);
        lemma_cardinality_error_found(model, req.filters@, dims, i);
    } else {
        let i = choose|i: int| 0 <= i < req.columns@.len() && req.columns@[i] == f;
        assert(dims[req.rows@.len() + i] == f);
        lemma_cardinality_error_found(model, req.filters@, dims, req.rows@.len() + i);
    }
}

} // verus!

//! The decisions of a pivot query: find the model and plan the request, accept
//! the rows of each sub-query, and shape the result within the cell limit. The
//! caller runs the sub-queries against ClickHouse between these steps.

use vstd::prelude::*;

use crate::clickhouse::QueryResult;
use crate::config::LimitsConfig;
use crate::error::{EngineError, ErrorView};
use crate::pivot::{is_shaped, levels_fit, shape, total_elapsed, total_rows, SubQueryRows};
use crate::query::plan::{param_count, param_views, planned, PlanView, SubQueryKind};
use crate::query::sql::{kind_fits, sql_text, url_params};
use crate::query::{build_sql, effective_max_groups, plan, plan_error, resolved_measures, QueryPlan};
use crate::semantic::{metadata_of, ModelStore};
use crate::text::{decimal, decimal_string, join, string_of};
use crate::types::{ModelMetadata, PivotRequest, PivotResponse};

verus! {

/// One SQL statement of a query, with its URL parameters.
#[derive(Debug)]
pub struct Statement {
    pub kind: SubQueryKind,
    pub sql: String,
    pub params: Vec<(String, String)>,
}

/// A planned pivot query: its plan, its limits and the statements to run, in order.
#[derive(Debug)]
pub struct QueryJob {
    pub request_id: String,
    pub plan: QueryPlan,
    pub max_groups: u64,
    pub max_cells: u64,
    pub statements: Vec<Statement>,
}

/// The statements of plan `p`: one per planned sub-query, in order.
pub open spec fn statements_of(p: PlanView, statements: Seq<Statement>) -> bool {
    &&& statements.len() == p.sub_queries.len()
    &&& forall|k: int|
        0 <= k < statements.len() ==> {
            &&& (#[trigger] statements[k]).kind == p.sub_queries[k].kind
            &&& statements[k].sql@ == sql_text(p, statements[k].kind)
            &&& param_views(statements[k].params@) == url_params(p.filter_params.params)
        }
}

/// The cell limit a request applies: its own, or else the configured one.
pub open spec fn effective_max_cells(req: PivotRequest, max_cells: u64) -> u64 {
    match req.limits.max_cells {
        Some(c) => c,
        None => max_cells,
    }
}

/// Finds the model of the request, validates and plans the request, and writes
/// the SQL of every sub-query.
pub fn begin_query(req: &PivotRequest, models: &ModelStore, limits: &LimitsConfig) -> (r: Result<
    QueryJob,
    EngineError,
>)
    requires
        models.spec_get(req.model_id@) matches Some(model) && plan_error(*req, model) is None ==> (
        effective_max_groups(*req, limits.max_groups) < u64::MAX && param_count(req.filters@)
            <= usize::MAX),
    ensures
        match r {
            Err(e) => match models.spec_get(req.model_id@) {
                None => e@ == ErrorView::ModelNotFound(req.model_id@),
                Some(model) => plan_error(*req, model) == Some(e@),
            },
            Ok(job) => {
                &&& models.spec_get(req.model_id@) matches Some(model)
                &&& plan_error(*req, model) is None
                &&& job.plan@ == planned(
                    *req,
                    model,
                    resolved_measures(model, req.measures@),
                    effective_max_groups(*req, limits.max_groups),
                )
                &&& job.request_id@ == req.request_id@
                &&& job.max_groups == effective_max_groups(*req, limits.max_groups)
                &&& job.max_cells == effective_max_cells(*req, limits.max_cells)
                &&& statements_of(job.plan@, job.statements@)
            },
        },
{
    let model = match models.get(req.model_id.as_str()) {
        Some(m) => m,
        None => return Err(EngineError::ModelNotFound(req.model_id.clone())),
    };
    let max_groups = match req.limits.max_groups {
        Some(g) => g,
        None => limits.max_groups,
    };
    let max_cells = match req.limits.max_cells {
        Some(c) => c,
        None => limits.max_cells,
    };
    let query_plan = match plan(req, model, max_groups) {
        Ok(p) => p,
        Err(e) => return Err(e),
    };
    let ghost p = query_plan@;
    let mut statements: Vec<Statement> = Vec::new();
    let mut k: usize = 0;
    while k < query_plan.sub_queries.len()
        invariant
            p == query_plan@,
            p == planned(*req, *model, resolved_measures(*model, req.measures@), max_groups),
            max_groups < u64::MAX,
            query_plan.max_groups == max_groups,
            k <= query_plan.sub_queries.len(),
            statements@.len() == k,
            forall|j: int|
                0 <= j < k ==> {
                    &&& (#[trigger] statements@[j]).kind == p.sub_queries[j].kind
                    &&& statements@[j].sql@ == sql_text(p, statements@[j].kind)
                    &&& param_views(statements@[j].params@) == url_params(p.filter_params.params)
                },
        decreases query_plan.sub_queries.len() - k,
    {
        let kind = query_plan.sub_queries[k].kind;
        proof {
            lemma_planned_kinds_fit(*req, *model, resolved_measures(*model, req.measures@), max_groups, k as int);
        }
        let (sql, params) = build_sql(&query_plan, &kind);
        statements.push(Statement { kind, sql, params });
        k = k + 1;
    }
    Ok(QueryJob { request_id: req.request_id.clone(), plan: query_plan, max_groups, max_cells, statements })
}

/// Every sub-query of a plan groups by no more row dimensions than the plan has.
proof fn lemma_planned_kinds_fit(
    req: PivotRequest,
    model: crate::semantic::SemanticModel,
    measures: Seq<crate::query::MeasureView>,
    max_groups: u64,
    k: int,
)
    requires
        0 <= k < planned(req, model, measures, max_groups).sub_queries.len(),
    ensures
        kind_fits(
            planned(req, model, measures, max_groups),
            planned(req, model, measures, max_groups).sub_queries[k].kind,
        ),
{
    let p = planned(req, model, measures, max_groups);
    let kinds = crate::query::plan::planned_kinds(req);
    let n = req.rows@.len();
    assert(p.sub_queries[k].kind == kinds[k]);
    assert(p.row_fields.len() == n);
    if req.totals.row_subtotals && n > 1 && 1 <= k < n {
        let middle = Seq::new((n - 1) as nat, |l: int| SubQueryKind::RowSubtotal { level: (l + 1) as usize });
        assert(kinds[k] == middle[k - 1]);
    }
}

/// The error refusing a sub-query that returned more groups than the limit.
pub open spec fn overflow_error(row_count: nat, max_groups: u64) -> Option<ErrorView> {
    if row_count > max_groups {
        Some(ErrorView::PreaggregateToLarge("sub-query returned >"@ + decimal(max_groups as nat) + " groups"@))
    } else {
        None
    }
}

/// Accepts the rows statement `index` returned, unless they overflow the group
/// limit (the statement asks for one group more than the limit).
pub fn accept_rows(job: &QueryJob, index: usize, result: QueryResult) -> (r: Result<SubQueryRows, EngineError>)
    requires
        index < job.statements@.len(),
    ensures
        match r {
            Ok(rows) => overflow_error(result.rows@.len(), job.max_groups) is None
                && rows.kind == job.statements@[index as int].kind && rows.rows@ == result.rows@
                && rows.elapsed_ms == result.elapsed_ms,
            Err(e) => overflow_error(result.rows@.len(), job.max_groups) == Some(e@),
        },
{
    if result.rows.len() as u64 > job.max_groups {
        let mut msg = string_of("sub-query returned >");
        let limit = decimal_string(job.max_groups);
        msg.append(limit.as_str());
        msg.append(" groups");
        return Err(EngineError::PreaggregateToLarge(msg));
    }
    Ok(SubQueryRows { kind: job.statements[index].kind, rows: result.rows, elapsed_ms: result.elapsed_ms })
}

/// The error refusing a pivot with more cells than the limit.
pub open spec fn cell_limit_error(cell_count: nat, max_cells: u64) -> Option<ErrorView> {
    if cell_count > max_cells {
        Some(
            ErrorView::ResultTooLarge(
                decimal(cell_count) + " cells exceed limit of "@ + decimal(max_cells as nat),
            ),
        )
    } else {
        None
    }
}

/// The current UTC time as `chrono::Utc::now` reads it, formatted by
/// `DateTime::format` as `%Y-%m-%dT%H:%M:%SZ`. The time depends on the clock; every
/// outcome is at least 20 characters long (a year beyond 9999 takes a sign and more
/// digits) and ends with `Z`.
#[verifier::external_body]
fn current_data_version() -> (r: String)
    ensures
        r@.len() >= 20,
        r@.last() == 'Z',
{
    chrono::Utc::now().format("%Y-%m-%dT%H:%M:%SZ").to_string()
}

/// Shapes the accepted rows into the pivot, stamped with the current time as its
/// data version, unless it has more cells than the limit.
pub fn finish_query(job: &QueryJob, sub_results: Vec<SubQueryRows>, engine_ms: u64) -> (r: Result<
    PivotResponse,
    EngineError,
>)
    requires
        levels_fit(job.plan@, sub_results@),
        total_elapsed(sub_results@) <= u64::MAX,
        total_rows(sub_results@) <= u64::MAX,
        sub_results@.len() <= u32::MAX,
    ensures
        match r {
            Ok(resp) => is_shaped(resp, job.request_id@, job.plan@, sub_results@, engine_ms)
                && cell_limit_error(resp.cells@.len(), job.max_cells) is None && resp.data_version@.len()
                >= 20 && resp.data_version@.last() == 'Z',
            Err(e) => exists|resp: PivotResponse|
                is_shaped(resp, job.request_id@, job.plan@, sub_results@, engine_ms) && cell_limit_error(
                    #[trigger] resp.cells@.len(),
                    job.max_cells,
                ) == Some(e@),
        },
{
    let data_version = current_data_version();
    let response = shape(job.request_id.as_str(), &job.plan, sub_results, engine_ms, data_version);
    let cell_count = response.cells.len() as u64;
    if cell_count > job.max_cells {
        let mut msg = decimal_string(cell_count);
        msg.append(" cells exceed limit of ");
        let limit = decimal_string(job.max_cells);
        msg.append(limit.as_str());
        assert(cell_limit_error(response.cells@.len(), job.max_cells) == Some(
            ErrorView::ResultTooLarge(msg@),
        ));
        return Err(EngineError::ResultTooLarge(msg));
    }
    Ok(response)
}

/// The metadata of model `model_id`, or `ModelNotFound`.
pub fn describe_model(models: &ModelStore, model_id: &str) -> (r: Result<ModelMetadata, EngineError>)
    ensures
        match r {
            Ok(meta) => models.spec_get(model_id@) matches Some(model) && metadata_of(meta, model.config),
            Err(e) => models.spec_get(model_id@) is None && e@ == ErrorView::ModelNotFound(model_id@),
        },
{
    match models.get(model_id) {
        Some(model) => Ok(model.to_metadata()),
        None => Err(EngineError::ModelNotFound(string_of(model_id))),
    }
}

/// A cached pivot answered to another request: the same pivot, under the new
/// request's id and marked as coming from the cache.
pub fn mark_cached(cached: PivotResponse, request_id: String) -> (r: PivotResponse)
    ensures
        r == (PivotResponse { request_id: request_id, from_cache: true, ..cached }),
{
    PivotResponse { request_id, from_cache: true, ..cached }
}

/// The answer a query takes from the cache: when the request has a cache key and
/// a response is cached under it, that response under the new request's id and
/// marked as coming from the cache; otherwise none, and the query is computed.
pub fn answer_from_cache(key: &Option<String>, cached: Option<PivotResponse>, request_id: String) -> (r:
    Option<PivotResponse>)
    ensures
        r == (if key is Some && cached is Some {
            Some(PivotResponse { request_id: request_id, from_cache: true, ..cached.unwrap() })
        } else {
            None
        }),
{
    match (key, cached) {
        (Some(_), Some(c)) => Some(mark_cached(c, request_id)),
        _ => None,
    }
}

/// The key under which a finished query's response is cached: its cache key when
/// the query succeeded, none when it failed or bypasses the cache.
pub fn key_to_store(key: Option<String>, outcome: &Result<PivotResponse, EngineError>) -> (r: Option<String>)
    ensures
        r == (if outcome is Ok {
            key
        } else {
            None
        }),
{
    match outcome {
        Ok(_) => key,
        Err(_) => None,
    }
}

/// Every sub-query detects an overflow of the group limit: its SQL ends with a
/// `LIMIT` and the output format, and the `LIMIT` lets through exactly one group
/// more than the plan accepts, so a full result is refused and one group fewer is
/// accepted.
pub proof fn lemma_limit_detects_overflow(p: PlanView, kind: SubQueryKind)
    ensures
        exists|prefix: Seq<char>, limit: nat|
            #![trigger decimal(limit), prefix.len()]
            sql_text(p, kind) == prefix + "LIMIT "@ + decimal(limit) + "\n"@ + "FORMAT JSONEachRow"@
                && overflow_error(limit, p.max_groups) is Some && overflow_error(
                (limit - 1) as nat,
                p.max_groups,
            ) is None,
{
    let grouped = crate::query::sql::grouped_fields(p, kind);
    let prefix = "SELECT\n"@ + join(crate::query::sql::select_items(grouped, p.measures), ",\n"@) + "\n"@
        + "FROM "@ + p.table + "\n"@ + crate::query::sql::where_section(p.filter_params.clauses)
        + crate::query::sql::group_by_section(grouped);
    let limit = (p.max_groups + 1) as nat;
    assert(sql_text(p, kind) =~= prefix + "LIMIT "@ + decimal(limit) + "\n"@ + "FORMAT JSONEachRow"@);
    assert(decimal(limit) == decimal(limit) && prefix.len() == prefix.len());
}

} // verus!

//! SQL builder: turns a QueryPlan + SubQuery into a parameterized SQL string.
//!
//! All user-supplied values travel as ClickHouse HTTP parameters ({pN:Type}).
//! Field names come exclusively from the semantic model — never from user input.

use vstd::prelude::*;

use super::plan::{
    filter_values, filters_view, lemma_param_views_push, param_views, planned, row_levels, FieldView, ParamView,
    PlanView, QueryPlan, ResolvedField, SubQueryKind,
};
use crate::semantic::SemanticModel;
use super::MeasureView;
use crate::text::{decimal, decimal_string, join, join_strings, lemma_views_push, string_of, views};
use crate::types::{agg_sql, Filter, PivotRequest};

verus! {

/// One SELECT item: `    expr AS `alias``.
pub open spec fn select_item(expr: Seq<char>, alias: Seq<char>) -> Seq<char> {
    "    "@ + expr + " AS `"@ + alias + "`"@
}

/// A quoted alias in GROUP BY: `` `alias` ``.
pub open spec fn quoted(alias: Seq<char>) -> Seq<char> {
    "`"@ + alias + "`"@
}

/// The fields a sub-query of `kind` groups by: the first row fields its level
/// keeps, then every column field.
pub open spec fn grouped_fields(p: PlanView, kind: SubQueryKind) -> Seq<FieldView> {
    p.row_fields.take(row_levels(kind, p.row_fields.len()) as int) + p.col_fields
}

/// The SELECT items of a sub-query: its grouped fields, then every measure.
pub open spec fn select_items(grouped: Seq<FieldView>, measures: Seq<MeasureView>) -> Seq<Seq<char>> {
    Seq::new(grouped.len(), |i: int| select_item(grouped[i].sql_expr, grouped[i].alias)) + Seq::new(
        measures.len(),
        |i: int| select_item(agg_sql(measures[i].agg, measures[i].field), measures[i].id),
    )
}

/// The WHERE section of the plan: empty without filters.
pub open spec fn where_section(clauses: Seq<Seq<char>>) -> Seq<char> {
    if clauses.len() == 0 {
        Seq::empty()
    } else {
        "WHERE "@ + join(clauses, "\n  AND "@) + "\n"@
    }
}

/// The GROUP BY section of a sub-query: empty when it groups by nothing.
pub open spec fn group_by_section(grouped: Seq<FieldView>) -> Seq<char> {
    if grouped.len() == 0 {
        Seq::empty()
    } else {
        "GROUP BY "@ + join(Seq::new(grouped.len(), |i: int| quoted(grouped[i].alias)), ", "@) + "\n"@
    }
}

/// The SQL text of the sub-query of `kind` in plan `p`. It asks for one group more
/// than the plan allows, so that an overflow can be detected.
pub open spec fn sql_text(p: PlanView, kind: SubQueryKind) -> Seq<char> {
    let grouped = grouped_fields(p, kind);
    "SELECT\n"@ + join(select_items(grouped, p.measures), ",\n"@) + "\n"@ + "FROM "@ + p.table
        + "\n"@ + where_section(p.filter_params.clauses) + group_by_section(grouped) + "LIMIT "@
        + decimal((p.max_groups + 1) as nat) + "\n"@ + "FORMAT JSONEachRow"@
}

/// The URL parameters of the plan: each filter parameter prefixed with `param_`.
pub open spec fn url_params(params: Seq<ParamView>) -> Seq<ParamView> {
    Seq::new(params.len(), |i: int| ParamView { name: "param_"@ + params[i].name, value: params[i].value })
}

/// The sub-query kind names a level within the plan's row fields.
pub open spec fn kind_fits(p: PlanView, kind: SubQueryKind) -> bool {
    kind matches SubQueryKind::RowSubtotal { level } ==> level <= p.row_fields.len()
}

/// Build the SQL string for a specific sub-query inside the plan.
/// Returns `(sql, params)` where params are URL query params like `param_p0=LV`.
pub fn build_sql(plan: &QueryPlan, kind: &SubQueryKind) -> (r: (String, Vec<(String, String)>))
    requires
        kind_fits(plan@, *kind),
        plan.max_groups < u64::MAX,
    ensures
        r.0@ == sql_text(plan@, *kind),
        param_views(r.1@) == url_params(plan@.filter_params.params),
{
    let level: usize = match kind {
        SubQueryKind::Main => plan.row_fields.len(),
        SubQueryKind::RowSubtotal { level } => *level,
        SubQueryKind::GrandTotal => 0,
    };
    let ghost grouped = grouped_fields(plan@, *kind);
    assert(grouped == plan@.row_fields.take(level as int) + plan@.col_fields);

    // SELECT
    let mut sql = string_of("SELECT\n");
    let select_parts = select_list(plan, level);
    let items = join_strings(&select_parts, ",\n");
    sql.append(items.as_str());
    sql.append("\n");

    // FROM
    sql.append("FROM ");
    sql.append(plan.table.as_str());
    sql.append("\n");

    // WHERE
    let ghost before_where = sql@;
    if plan.filter_params.clauses.len() > 0 {
        sql.append("WHERE ");
        let clauses = join_strings(&plan.filter_params.clauses, "\n  AND ");
        sql.append(clauses.as_str());
        sql.append("\n");
    }
    assert(sql@ =~= before_where + where_section(plan@.filter_params.clauses));

    // GROUP BY
    let ghost before_group = sql@;
    let group_by_aliases = group_by_list(plan, level);
    if group_by_aliases.len() > 0 {
        sql.append("GROUP BY ");
        let keys = join_strings(&group_by_aliases, ", ");
        sql.append(keys.as_str());
        sql.append("\n");
    }
    assert(sql@ =~= before_group + group_by_section(grouped));

    // Limit pre-aggregate size; one group more than allowed lets the executor
    // detect overflow.
    sql.append("LIMIT ");
    let limit = decimal_string(plan.max_groups + 1);
    sql.append(limit.as_str());
    sql.append("\n");

    // FORMAT — must be last
    sql.append("FORMAT JSONEachRow");

    // Params: convert to URL query params with "param_" prefix
    let url = url_param_list(plan);
    (sql, url)
}

/// The SELECT items of the sub-query grouping by the first `level` row fields.
fn select_list(plan: &QueryPlan, level: usize) -> (select_parts: Vec<String>)
    requires
        level <= plan.row_fields@.len(),
    ensures
        views(select_parts@) == select_items(plan@.row_fields.take(level as int) + plan@.col_fields, plan@.measures),
{
    let ghost p = plan@;
    let ghost grouped = p.row_fields.take(level as int) + p.col_fields;
    let mut select_parts: Vec<String> = Vec::new();
    let mut i: usize = 0;
    while i < level
        invariant
            p == plan@,
            level <= plan.row_fields@.len(),
            i <= level,
            views(select_parts@) == Seq::new(
                i as nat,
                |j: int| select_item(p.row_fields[j].sql_expr, p.row_fields[j].alias),
            ),
        decreases level - i,
    {
        let f = &plan.row_fields[i];
        let ghost before = select_parts@;
        let part = select_part(&f.sql_expr, &f.alias);
        select_parts.push(part);
        proof {
            lemma_views_push(before, part);
        }
        assert(views(select_parts@) =~= Seq::new(
            (i + 1) as nat,
            |j: int| select_item(p.row_fields[j].sql_expr, p.row_fields[j].alias),
        ));
        i = i + 1;
    }
    let mut k: usize = 0;
    while k < plan.col_fields.len()
        invariant
            p == plan@,
            level <= plan.row_fields@.len(),
            k <= plan.col_fields.len(),
            views(select_parts@) == Seq::new(
                (level + k) as nat,
                |j: int|
                    select_item(
                        (p.row_fields.take(level as int) + p.col_fields)[j].sql_expr,
                        (p.row_fields.take(level as int) + p.col_fields)[j].alias,
                    ),
            ),
        decreases plan.col_fields.len() - k,
    {
        let f = &plan.col_fields[k];
        let ghost before = select_parts@;
        let part = select_part(&f.sql_expr, &f.alias);
        select_parts.push(part);
        proof {
            lemma_views_push(before, part);
            assert((p.row_fields.take(level as int) + p.col_fields)[level + k] == p.col_fields[k as int]);
        }
        assert(views(select_parts@) =~= Seq::new(
            (level + k + 1) as nat,
            |j: int|
                select_item(
                    (p.row_fields.take(level as int) + p.col_fields)[j].sql_expr,
                    (p.row_fields.take(level as int) + p.col_fields)[j].alias,
                ),
        ));
        k = k + 1;
    }
    let mut m: usize = 0;
    while m < plan.measures.len()
        invariant
            p == plan@,
            level <= plan.row_fields@.len(),
            grouped == p.row_fields.take(level as int) + p.col_fields,
            m <= plan.measures.len(),
            views(select_parts@) == Seq::new(
                grouped.len(),
                |j: int| select_item(grouped[j].sql_expr, grouped[j].alias),
            ) + Seq::new(
                m as nat,
                |j: int| select_item(agg_sql(p.measures[j].agg, p.measures[j].field), p.measures[j].id),
            ),
        decreases plan.measures.len() - m,
    {
        let me = &plan.measures[m];
        let expr = me.agg.to_sql_expr(me.field.as_str());
        let ghost before = select_parts@;
        let part = select_part(&expr, &me.id);
        select_parts.push(part);
        proof {
            lemma_views_push(before, part);
        }
        assert(views(select_parts@) =~= Seq::new(
            grouped.len(),
            |j: int| select_item(grouped[j].sql_expr, grouped[j].alias),
        ) + Seq::new(
            (m + 1) as nat,
            |j: int| select_item(agg_sql(p.measures[j].agg, p.measures[j].field), p.measures[j].id),
        ));
        m = m + 1;
    }
    assert(views(select_parts@) =~= select_items(grouped, p.measures));

    assert(views(select_parts@) =~= select_items(grouped, p.measures));
    select_parts
}

/// The quoted GROUP BY aliases of the sub-query grouping by the first `level` row fields.
fn group_by_list(plan: &QueryPlan, level: usize) -> (group_by_aliases: Vec<String>)
    requires
        level <= plan.row_fields@.len(),
    ensures
        ({
            let grouped = plan@.row_fields.take(level as int) + plan@.col_fields;
            views(group_by_aliases@) == Seq::new(grouped.len(), |i: int| quoted(grouped[i].alias))
        }),
{
    let ghost p = plan@;
    let ghost grouped = p.row_fields.take(level as int) + p.col_fields;
    let mut group_by_aliases: Vec<String> = Vec::new();
    let mut g: usize = 0;
    while g < level
        invariant
            p == plan@,
            level <= plan.row_fields@.len(),
            g <= level,
            views(group_by_aliases@) == Seq::new(g as nat, |j: int| quoted(p.row_fields[j].alias)),
        decreases level - g,
    {
        let ghost before = group_by_aliases@;
        let key = quote_alias(&plan.row_fields[g].alias);
        group_by_aliases.push(key);
        proof {
            lemma_views_push(before, key);
        }
        assert(views(group_by_aliases@) =~= Seq::new(
            (g + 1) as nat,
            |j: int| quoted(p.row_fields[j].alias),
        ));
        g = g + 1;
    }
    let mut c: usize = 0;
    while c < plan.col_fields.len()
        invariant
            p == plan@,
            grouped == p.row_fields.take(level as int) + p.col_fields,
            level <= plan.row_fields@.len(),
            c <= plan.col_fields.len(),
            views(group_by_aliases@) == Seq::new((level + c) as nat, |j: int| quoted(grouped[j].alias)),
        decreases plan.col_fields.len() - c,
    {
        let ghost before = group_by_aliases@;
        let key = quote_alias(&plan.col_fields[c].alias);
        group_by_aliases.push(key);
        proof {
            lemma_views_push(before, key);
            assert(grouped[level + c] == p.col_fields[c as int]);
        }
        assert(views(group_by_aliases@) =~= Seq::new(
            (level + c + 1) as nat,
            |j: int| quoted(grouped[j].alias),
        ));
        c = c + 1;
    }

    assert(views(group_by_aliases@) =~= Seq::new(grouped.len(), |i: int| quoted(grouped[i].alias)));
    group_by_aliases
}

/// The URL parameters of the plan.
fn url_param_list(plan: &QueryPlan) -> (url: Vec<(String, String)>)
    ensures
        param_views(url@) == url_params(plan@.filter_params.params),
{
    let ghost p = plan@;
    let mut url: Vec<(String, String)> = Vec::new();
    let mut q: usize = 0;
    while q < plan.filter_params.params.len()
        invariant
            p == plan@,
            q <= plan.filter_params.params.len(),
            param_views(url@) == url_params(p.filter_params.params.take(q as int)),
        decreases plan.filter_params.params.len() - q,
    {
        let (name, value) = &plan.filter_params.params[q];
        let mut key = string_of("param_");
        key.append(name.as_str());
        let ghost before = url@;
        let entry = (key, value.clone());
        url.push(entry);
        proof {
            lemma_param_views_push(before, entry);
        }
        assert(param_views(url@) =~= url_params(p.filter_params.params.take(q + 1)));
        q = q + 1;
    }
    assert(p.filter_params.params.take(p.filter_params.params.len() as int) =~= p.filter_params.params);
    url
}

/// `    expr AS `alias``.
fn select_part(expr: &String, alias: &String) -> (r: String)
    ensures
        r@ == select_item(expr@, alias@),
{
    let mut r = string_of("    ");
    r.append(expr.as_str());
    r.append(" AS `");
    r.append(alias.as_str());
    r.append("`");
    r
}

/// `` `alias` ``.
fn quote_alias(alias: &String) -> (r: String)
    ensures
        r@ == quoted(alias@),
{
    let mut r = string_of("`");
    r.append(alias.as_str());
    r.append("`");
    r
}

// ── Laws ──────────────────────────────────────────────────────────────────────
/// Two filter lists of the same shape: the same fields and operators, each filter
/// passing as many values.
pub open spec fn same_filter_shape(a: Seq<Filter>, b: Seq<Filter>) -> bool {
    &&& a.len() == b.len()
    &&& forall|i: int|
        0 <= i < a.len() ==> (#[trigger] a[i]).field@ == b[i].field@ && a[i].op == b[i].op
            && filter_values(a[i].op, a[i].value@).len() == filter_values(b[i].op, b[i].value@).len()
}

/// The WHERE fragments of filters hold only fields, operators and numbered
/// placeholders: filters of the same shape give the same fragments and as many
/// parameters, whatever their values.
pub proof fn lemma_clauses_same_shape(model: SemanticModel, a: Seq<Filter>, b: Seq<Filter>)
    requires
        same_filter_shape(a, b),
    ensures
        filters_view(model, a).clauses == filters_view(model, b).clauses,
        filters_view(model, a).params.len() == filters_view(model, b).params.len(),
    decreases a.len(),
{
    if a.len() > 0 {
        let (pa, pb) = (a.drop_last(), b.drop_last());
        assert forall|i: int| 0 <= i < pa.len() implies (#[trigger] pa[i]).field@ == pb[i].field@ && pa[i].op
            == pb[i].op && filter_values(pa[i].op, pa[i].value@).len() == filter_values(
            pb[i].op,
            pb[i].value@,
        ).len() by {
            assert(pa[i] == a[i] && pb[i] == b[i]);
        }
        lemma_clauses_same_shape(model, pa, pb);
        assert(a.last() == a[a.len() - 1] && b.last() == b[b.len() - 1]);
    }
}

/// Filter values never reach the SQL text: two requests that differ only in the
/// values of their filters, each filter passing as many values, get the same SQL
/// for every sub-query; the values travel as URL parameters only.
pub proof fn lemma_sql_ignores_filter_values(
    req1: PivotRequest,
    req2: PivotRequest,
    model: SemanticModel,
    measures: Seq<MeasureView>,
    max_groups: u64,
    kind: SubQueryKind,
)
    requires
        req1.rows@ == req2.rows@,
        req1.columns@ == req2.columns@,
        req1.totals == req2.totals,
        same_filter_shape(req1.filters@, req2.filters@),
    ensures
        sql_text(planned(req1, model, measures, max_groups), kind) == sql_text(
            planned(req2, model, measures, max_groups),
            kind,
        ),
{
    lemma_clauses_same_shape(model, req1.filters@, req2.filters@);
    let p1 = planned(req1, model, measures, max_groups);
    let p2 = planned(req2, model, measures, max_groups);
    assert(p1.filter_params.clauses == p2.filter_params.clauses);
    assert(grouped_fields(p1, kind) == grouped_fields(p2, kind));
}

} // verus!

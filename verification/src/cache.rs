//! Result-cache keys: a stable hash of the parts of a request that decide its result.

use vstd::prelude::*;

use crate::json::{json_text, render_json, JsonValue, JsonView, MemberView};
use crate::text::{hex, hex_string, string_of};
use crate::types::{
    agg_name, filter_op_variant, granularity_suffix, AggType, DateGranularity, FieldRef, Filter, FilterOp, MeasureRef,
    PivotRequest,
};

verus! {

/// The starting value of the key hash.
pub const HASH_OFFSET: u128 = 0x6c62272e07bb0142u128;

/// The multiplier of the key hash.
pub const HASH_PRIME: u128 = 0x0000013b_00000000_0000013b_00000001u128;

/// A 128-bit FNV-1a style hash of `bytes`: start from the offset, then for each
/// byte xor it in and multiply by the prime, wrapping.
pub open spec fn key_hash(bytes: Seq<u8>) -> u128
    decreases bytes.len(),
{
    if bytes.len() == 0 {
        HASH_OFFSET
    } else {
        (key_hash(bytes.drop_last()) ^ (bytes.last() as u128)).wrapping_mul(HASH_PRIME)
    }
}

/// Simple non-cryptographic hash for cache keys, over the UTF-8 bytes of `s`.
pub fn md5_of(s: &str) -> (h: u128)
    ensures
        h == key_hash(vstd::utf8::encode_utf8(s@)),
{
    let bytes = s.as_bytes();
    let mut h: u128 = HASH_OFFSET;
    let mut i: usize = 0;
    assert(bytes@.take(0) =~= Seq::<u8>::empty());
    while i < bytes.len()
        invariant
            bytes@ == vstd::utf8::encode_utf8(s@),
            i <= bytes@.len(),
            h == key_hash(bytes@.take(i as int)),
        decreases bytes.len() - i,
    {
        assert(bytes@.take(i + 1).drop_last() =~= bytes@.take(i as int));
        h = h ^ (bytes[i] as u128);
        h = h.wrapping_mul(HASH_PRIME);
        i = i + 1;
    }
    assert(bytes@.take(bytes@.len() as int) =~= bytes@);
    h
}

/// A member of an object.
pub open spec fn member(key: Seq<char>, value: JsonView) -> MemberView {
    MemberView { key, value }
}

/// The stable form of a requested dimension: its field and granularity.
pub open spec fn field_json(f: FieldRef) -> JsonView {
    JsonView::Object(
        seq![
            member("field"@, JsonView::Str(f.field@)),
            member(
                "date_granularity"@,
                match f.date_granularity {
                    Some(g) => JsonView::Str(granularity_suffix(g)),
                    None => JsonView::Null,
                },
            ),
        ],
    )
}

/// The stable form of a requested measure: its id and aggregation.
pub open spec fn measure_json(m: MeasureRef) -> JsonView {
    JsonView::Object(
        seq![
            member("id"@, JsonView::Str(m.id@)),
            member(
                "agg"@,
                match m.agg {
                    Some(a) => JsonView::Str(agg_name(a)),
                    None => JsonView::Null,
                },
            ),
        ],
    )
}

/// The stable form of a filter: its field, operator and value.
pub open spec fn filter_json(f: Filter) -> JsonView {
    JsonView::Object(
        seq![
            member("field"@, JsonView::Str(f.field@)),
            member("op"@, JsonView::Str(filter_op_variant(f.op))),
            member("value"@, f.value@),
        ],
    )
}

/// The parts of a request that decide its result: the model, the dimensions, the
/// measures, the filters and the totals (not the request id, nor the limits).
pub open spec fn stable_json(req: PivotRequest) -> JsonView {
    JsonView::Object(
        seq![
            member("model_id"@, JsonView::Str(req.model_id@)),
            member("rows"@, JsonView::Array(Seq::new(req.rows@.len(), |i: int| field_json(req.rows@[i])))),
            member(
                "columns"@,
                JsonView::Array(Seq::new(req.columns@.len(), |i: int| field_json(req.columns@[i]))),
            ),
            member(
                "measures"@,
                JsonView::Array(Seq::new(req.measures@.len(), |i: int| measure_json(req.measures@[i]))),
            ),
            member(
                "filters"@,
                JsonView::Array(Seq::new(req.filters@.len(), |i: int| filter_json(req.filters@[i]))),
            ),
            member(
                "totals"@,
                JsonView::Object(
                    seq![
                        member("row_subtotals"@, JsonView::Bool(req.totals.row_subtotals)),
                        member("column_subtotals"@, JsonView::Bool(req.totals.column_subtotals)),
                        member("grand_total"@, JsonView::Bool(req.totals.grand_total)),
                    ],
                ),
            ),
        ],
    )
}

/// The cache key of a request: none when the request bypasses the cache, else the
/// hexadecimal hash of the JSON text of its stable parts.
pub open spec fn spec_cache_key(req: PivotRequest) -> Option<Seq<char>> {
    if req.limits.bypass_cache == Some(true) {
        None
    } else {
        Some(hex(key_hash(vstd::utf8::encode_utf8(json_text(stable_json(req)))) as nat))
    }
}

/// An object member with the given key and value.
fn entry(key: &str, value: JsonValue) -> (r: (String, JsonValue))
    ensures
        r.0@ == key@,
        r.1@ == value@,
{
    (string_of(key), value)
}

/// An object of the given members.
fn object(members: Vec<(String, JsonValue)>) -> (r: JsonValue)
    ensures
        r@ == JsonView::Object(crate::json::member_views(members@)),
{
    let r = JsonValue::Object(members);
    proof {
        crate::json::lemma_view_parts(r);
    }
    r
}

/// An array of the given values.
fn array(items: Vec<JsonValue>) -> (r: JsonValue)
    ensures
        r@ == JsonView::Array(crate::json::json_views(items@)),
{
    let r = JsonValue::Array(items);
    proof {
        crate::json::lemma_view_parts(r);
    }
    r
}

/// The stable form of a requested dimension.
fn field_value(f: &FieldRef) -> (r: JsonValue)
    ensures
        r@ == field_json(*f),
{
    let gran = match &f.date_granularity {
        Some(g) => JsonValue::String(string_of(g.suffix())),
        None => JsonValue::Null,
    };
    assert(gran@ == match f.date_granularity {
        Some(g) => JsonView::Str(granularity_suffix(g)),
        None => JsonView::Null,
    });
    let mut members: Vec<(String, JsonValue)> = Vec::new();
    members.push(entry("field", JsonValue::String(f.field.clone())));
    members.push(entry("date_granularity", gran));
    let r = object(members);
    assert(crate::json::member_views(members@) =~= match field_json(*f) {
        JsonView::Object(ms) => ms,
        _ => Seq::empty(),
    });
    r
}

/// The stable form of a requested measure.
fn measure_value(m: &MeasureRef) -> (r: JsonValue)
    ensures
        r@ == measure_json(*m),
{
    let agg = match &m.agg {
        Some(a) => JsonValue::String(string_of(a.name())),
        None => JsonValue::Null,
    };
    assert(agg@ == match m.agg {
        Some(a) => JsonView::Str(agg_name(a)),
        None => JsonView::Null,
    });
    let mut members: Vec<(String, JsonValue)> = Vec::new();
    members.push(entry("id", JsonValue::String(m.id.clone())));
    members.push(entry("agg", agg));
    let r = object(members);
    assert(crate::json::member_views(members@) =~= match measure_json(*m) {
        JsonView::Object(ms) => ms,
        _ => Seq::empty(),
    });
    r
}

/// The stable form of a filter.
fn filter_value(f: &Filter) -> (r: JsonValue)
    ensures
        r@ == filter_json(*f),
{
    let mut members: Vec<(String, JsonValue)> = Vec::new();
    members.push(entry("field", JsonValue::String(f.field.clone())));
    members.push(entry("op", JsonValue::String(string_of(f.op.variant_name()))));
    members.push(entry("value", f.value.copy()));
    let r = object(members);
    assert(crate::json::member_views(members@) =~= seq![
        member("field"@, JsonView::Str(f.field@)),
        member("op"@, JsonView::Str(filter_op_variant(f.op))),
        member("value"@, f.value@),
    ]);
    r
}

/// The stable forms of requested dimensions.
fn field_values(fs: &Vec<FieldRef>) -> (r: JsonValue)
    ensures
        r@ == JsonView::Array(Seq::new(fs@.len(), |i: int| field_json(fs@[i]))),
{
    let mut items: Vec<JsonValue> = Vec::new();
    let mut i: usize = 0;
    while i < fs.len()
        invariant
            i <= fs.len(),
            items@.len() == i,
            forall|j: int| 0 <= j < i ==> #[trigger] items@[j]@ == field_json(fs@[j]),
        decreases fs.len() - i,
    {
        items.push(field_value(&fs[i]));
        i = i + 1;
    }
    assert(crate::json::json_views(items@) =~= Seq::new(fs@.len(), |i: int| field_json(fs@[i])));
    array(items)
}

/// The stable parts of the request as a JSON object.
fn stable_value(req: &PivotRequest) -> (r: JsonValue)
    ensures
        r@ == stable_json(*req),
{
    let this = req;
    {
        let mut measures: Vec<JsonValue> = Vec::new();
        let mut i: usize = 0;
        while i < this.measures.len()
            invariant
                i <= this.measures.len(),
                measures@.len() == i,
                forall|j: int| 0 <= j < i ==> #[trigger] measures@[j]@ == measure_json(this.measures@[j]),
            decreases this.measures.len() - i,
        {
            measures.push(measure_value(&this.measures[i]));
            i = i + 1;
        }
        assert(crate::json::json_views(measures@) =~= Seq::new(
            this.measures@.len(),
            |i: int| measure_json(this.measures@[i]),
        ));
        let mut filters: Vec<JsonValue> = Vec::new();
        let mut k: usize = 0;
        while k < this.filters.len()
            invariant
                k <= this.filters.len(),
                filters@.len() == k,
                forall|j: int| 0 <= j < k ==> #[trigger] filters@[j]@ == filter_json(this.filters@[j]),
            decreases this.filters.len() - k,
        {
            filters.push(filter_value(&this.filters[k]));
            k = k + 1;
        }
        assert(crate::json::json_views(filters@) =~= Seq::new(
            this.filters@.len(),
            |i: int| filter_json(this.filters@[i]),
        ));
        let mut totals: Vec<(String, JsonValue)> = Vec::new();
        totals.push(entry("row_subtotals", JsonValue::Bool(this.totals.row_subtotals)));
        totals.push(entry("column_subtotals", JsonValue::Bool(this.totals.column_subtotals)));
        totals.push(entry("grand_total", JsonValue::Bool(this.totals.grand_total)));
        let totals_value = object(totals);
        assert(crate::json::member_views(totals@) =~= seq![
            member("row_subtotals"@, JsonView::Bool(this.totals.row_subtotals)),
            member("column_subtotals"@, JsonView::Bool(this.totals.column_subtotals)),
            member("grand_total"@, JsonView::Bool(this.totals.grand_total)),
        ]);
        let mut members: Vec<(String, JsonValue)> = Vec::new();
        members.push(entry("model_id", JsonValue::String(this.model_id.clone())));
        members.push(entry("rows", field_values(&this.rows)));
        members.push(entry("columns", field_values(&this.columns)));
        members.push(entry("measures", array(measures)));
        members.push(entry("filters", array(filters)));
        members.push(entry("totals", totals_value));
        let r = object(members);
        assert(crate::json::member_views(members@) =~= match stable_json(*this) {
            JsonView::Object(ms) => ms,
            _ => Seq::empty(),
        });
        r
    }

}

/// Compute a stable cache key from the request (excluding request_id and the
/// limits); none when the request asks to bypass the cache.
pub fn cache_key(req: &PivotRequest) -> (r: Option<String>)
    ensures
        match r {
            Some(k) => spec_cache_key(*req) == Some(k@),
            None => spec_cache_key(*req) is None,
        },
{
    if let Some(true) = req.limits.bypass_cache {
        return None;
    }
    let text = render_json(&stable_value(req));
    Some(hex_string(md5_of(text.as_str())))
}

/// The cache key leaves out the request id and the group and cell limits: two
/// requests that agree on the model, the dimensions, the measures, the filters,
/// the totals and whether to bypass the cache share their key.
pub proof fn lemma_cache_key_ignores_id_and_limits(req1: PivotRequest, req2: PivotRequest)
    requires
        req1.model_id@ == req2.model_id@,
        req1.rows@ == req2.rows@,
        req1.columns@ == req2.columns@,
        req1.measures@ == req2.measures@,
        req1.filters@ == req2.filters@,
        req1.totals == req2.totals,
        req1.limits.bypass_cache == req2.limits.bypass_cache,
    ensures
        spec_cache_key(req1) == spec_cache_key(req2),
{
    assert(stable_json(req1) =~~= stable_json(req2));
}

/// Distinct filter operators have distinct variant names.
proof fn lemma_filter_op_variant_injective(a: FilterOp, b: FilterOp)
    ensures
        filter_op_variant(a) == filter_op_variant(b) ==> a == b,
{
    reveal_strlit("Eq");
    reveal_strlit("Neq");
    reveal_strlit("In");
    reveal_strlit("NotIn");
    reveal_strlit("Between");
    reveal_strlit("Gt");
    reveal_strlit("Gte");
    reveal_strlit("Lt");
    reveal_strlit("Lte");
    reveal_strlit("IsNull");
    reveal_strlit("IsNotNull");
    let (x, y) = (filter_op_variant(a), filter_op_variant(b));
    if a != b {
        assert(x.len() != y.len() || x[0] != y[0]);
    }
}

/// Distinct granularities have distinct names.
proof fn lemma_granularity_suffix_injective(a: DateGranularity, b: DateGranularity)
    ensures
        granularity_suffix(a) == granularity_suffix(b) ==> a == b,
{
    reveal_strlit("year");
    reveal_strlit("quarter");
    reveal_strlit("month");
    reveal_strlit("day");
    if a != b {
        assert(granularity_suffix(a).len() != granularity_suffix(b).len());
    }
}

/// Distinct aggregations have distinct names.
proof fn lemma_agg_name_injective(a: AggType, b: AggType)
    ensures
        agg_name(a) == agg_name(b) ==> a == b,
{
    crate::query::lemma_parse_agg_name(a);
    crate::query::lemma_parse_agg_name(b);
}

/// Two dimensions with the same stable form name the same field at the same
/// granularity.
proof fn lemma_field_json_injective(a: FieldRef, b: FieldRef)
    requires
        field_json(a) == field_json(b),
    ensures
        a.field@ == b.field@,
        a.date_granularity == b.date_granularity,
{
    let (x, y) = (field_json(a), field_json(b));
    assert(x->Object_0[0] == y->Object_0[0]);
    assert(x->Object_0[1] == y->Object_0[1]);
    match (a.date_granularity, b.date_granularity) {
        (Some(g), Some(h)) => lemma_granularity_suffix_injective(g, h),
        _ => {},
    }
}

/// Two measures with the same stable form are the same measure under the same
/// aggregation.
proof fn lemma_measure_json_injective(a: MeasureRef, b: MeasureRef)
    requires
        measure_json(a) == measure_json(b),
    ensures
        a.id@ == b.id@,
        a.agg == b.agg,
{
    let (x, y) = (measure_json(a), measure_json(b));
    assert(x->Object_0[0] == y->Object_0[0]);
    assert(x->Object_0[1] == y->Object_0[1]);
    match (a.agg, b.agg) {
        (Some(g), Some(h)) => lemma_agg_name_injective(g, h),
        _ => {},
    }
}

/// Two filters with the same stable form filter the same field by the same
/// operator and value.
proof fn lemma_filter_json_injective(a: Filter, b: Filter)
    requires
        filter_json(a) == filter_json(b),
    ensures
        a.field@ == b.field@,
        a.op == b.op,
        a.value@ == b.value@,
{
    let (x, y) = (filter_json(a), filter_json(b));
    assert(x->Object_0[0] == y->Object_0[0]);
    assert(x->Object_0[1] == y->Object_0[1]);
    assert(x->Object_0[2] == y->Object_0[2]);
    lemma_filter_op_variant_injective(a.op, b.op);
}

/// The stable form of a request, which the cache key hashes, keeps every part that
/// decides the result: requests with the same stable form ask for the same model,
/// the same row and column fields at the same granularities, the same measures
/// under the same aggregations, the same filters and the same totals.
pub proof fn lemma_stable_form_determines_request(r1: PivotRequest, r2: PivotRequest)
    requires
        stable_json(r1) == stable_json(r2),
    ensures
        r1.model_id@ == r2.model_id@,
        r1.rows@.len() == r2.rows@.len(),
        forall|i: int|
            0 <= i < r1.rows@.len() ==> (#[trigger] r1.rows@[i]).field@ == r2.rows@[i].field@
                && r1.rows@[i].date_granularity == r2.rows@[i].date_granularity,
        r1.columns@.len() == r2.columns@.len(),
        forall|i: int|
            0 <= i < r1.columns@.len() ==> (#[trigger] r1.columns@[i]).field@ == r2.columns@[i].field@
                && r1.columns@[i].date_granularity == r2.columns@[i].date_granularity,
        r1.measures@.len() == r2.measures@.len(),
        forall|i: int|
            0 <= i < r1.measures@.len() ==> (#[trigger] r1.measures@[i]).id@ == r2.measures@[i].id@
                && r1.measures@[i].agg == r2.measures@[i].agg,
        r1.filters@.len() == r2.filters@.len(),
        forall|i: int|
            0 <= i < r1.filters@.len() ==> (#[trigger] r1.filters@[i]).field@ == r2.filters@[i].field@
                && r1.filters@[i].op == r2.filters@[i].op && r1.filters@[i].value@ == r2.filters@[i].value@,
        r1.totals == r2.totals,
{
    let (x, y) = (stable_json(r1)->Object_0, stable_json(r2)->Object_0);
    assert(x[0] == y[0]);
    assert(x[1] == y[1]);
    assert(x[2] == y[2]);
    assert(x[3] == y[3]);
    assert(x[4] == y[4]);
    assert(x[5] == y[5]);
    let (rows1, rows2) = (x[1].value->Array_0, y[1].value->Array_0);
    assert(rows1.len() == r1.rows@.len() && rows2.len() == r2.rows@.len());
    assert forall|i: int| 0 <= i < r1.rows@.len() implies (#[trigger] r1.rows@[i]).field@ == r2.rows@[i].field@
        && r1.rows@[i].date_granularity == r2.rows@[i].date_granularity by {
        assert(rows1[i] == field_json(r1.rows@[i]));
        assert(rows2[i] == field_json(r2.rows@[i]));
        lemma_field_json_injective(r1.rows@[i], r2.rows@[i]);
    }
    let (cols1, cols2) = (x[2].value->Array_0, y[2].value->Array_0);
    assert(cols1.len() == r1.columns@.len() && cols2.len() == r2.columns@.len());
    assert forall|i: int| 0 <= i < r1.columns@.len() implies (#[trigger] r1.columns@[i]).field@
        == r2.columns@[i].field@ && r1.columns@[i].date_granularity == r2.columns@[i].date_granularity by {
        assert(cols1[i] == field_json(r1.columns@[i]));
        assert(cols2[i] == field_json(r2.columns@[i]));
        lemma_field_json_injective(r1.columns@[i], r2.columns@[i]);
    }
    let (ms1, ms2) = (x[3].value->Array_0, y[3].value->Array_0);
    assert(ms1.len() == r1.measures@.len() && ms2.len() == r2.measures@.len());
    assert forall|i: int| 0 <= i < r1.measures@.len() implies (#[trigger] r1.measures@[i]).id@
        == r2.measures@[i].id@ && r1.measures@[i].agg == r2.measures@[i].agg by {
        assert(ms1[i] == measure_json(r1.measures@[i]));
        assert(ms2[i] == measure_json(r2.measures@[i]));
        lemma_measure_json_injective(r1.measures@[i], r2.measures@[i]);
    }
    let (fs1, fs2) = (x[4].value->Array_0, y[4].value->Array_0);
    assert(fs1.len() == r1.filters@.len() && fs2.len() == r2.filters@.len());
    assert forall|i: int| 0 <= i < r1.filters@.len() implies (#[trigger] r1.filters@[i]).field@
        == r2.filters@[i].field@ && r1.filters@[i].op == r2.filters@[i].op && r1.filters@[i].value@
        == r2.filters@[i].value@ by {
        assert(fs1[i] == filter_json(r1.filters@[i]));
        assert(fs2[i] == filter_json(r2.filters@[i]));
        lemma_filter_json_injective(r1.filters@[i], r2.filters@[i]);
    }
    let (t1, t2) = (x[5].value->Object_0, y[5].value->Object_0);
    assert(t1[0] == t2[0] && t1[1] == t2[1] && t1[2] == t2[2]);
}

} // verus!

//! Pivot shaper: shapes pre-aggregated ClickHouse rows into a PivotResponse.
//!
//! Invariants:
//!   • Non-additive totals (count distinct, avg) come from ClickHouse, not summed here.
//!   • Shaping is deterministic: identical input → identical output.

use vstd::prelude::*;

use crate::json::{
    json_equal, json_text, lemma_json_equal_refl, lemma_json_equal_symm, member_get, member_value, render_json, JsonValue,
    JsonView, MemberView,
};
use crate::query::plan::{aliases, field_views, measure_ids, PlanView, QueryPlan, SubQueryKind};
use crate::semantic::{copy_opt_string, opt_view};
use crate::text::{lemma_texts_lt_strict_total, string_of, texts_lt, views};
use crate::types::{Axis, AxisMember, Cell, MeasureMeta, PivotResponse, Stats};

verus! {

/// One batch of rows from a single sub-query execution.
#[derive(Debug)]
pub struct SubQueryRows {
    pub kind: SubQueryKind,
    pub rows: Vec<JsonValue>,
    pub elapsed_ms: u64,
}

// ── Models ────────────────────────────────────────────────────────────────────
/// The model of an axis member.
pub struct MemberModel {
    pub key: Seq<JsonView>,
    pub is_subtotal: Option<bool>,
    pub is_grand_total: Option<bool>,
}

/// The views of a list of JSON values.
pub open spec fn values_view(s: Seq<JsonValue>) -> Seq<JsonView> {
    Seq::new(s.len(), |i: int| s[i]@)
}

impl View for AxisMember {
    type V = MemberModel;

    open spec fn view(&self) -> MemberModel {
        MemberModel {
            key: values_view(self.key@),
            is_subtotal: self.is_subtotal,
            is_grand_total: self.is_grand_total,
        }
    }
}

/// The models of a list of axis members.
pub open spec fn member_models(s: Seq<AxisMember>) -> Seq<MemberModel> {
    Seq::new(s.len(), |i: int| s[i]@)
}

/// One object row of a sub-query result, with the kind of its sub-query.
pub struct Entry {
    pub kind: SubQueryKind,
    pub members: Seq<MemberView>,
}

/// The object rows of `rows` (other rows are skipped), tagged with `kind`.
pub open spec fn object_entries(kind: SubQueryKind, rows: Seq<JsonValue>) -> Seq<Entry>
    decreases rows.len(),
{
    if rows.len() == 0 {
        Seq::empty()
    } else {
        let prev = object_entries(kind, rows.drop_last());
        match rows.last()@ {
            JsonView::Object(members) => prev.push(Entry { kind, members }),
            _ => prev,
        }
    }
}

/// The object rows of every sub-query result, in order.
pub open spec fn entries(subs: Seq<SubQueryRows>) -> Seq<Entry>
    decreases subs.len(),
{
    if subs.len() == 0 {
        Seq::empty()
    } else {
        entries(subs.drop_last()) + object_entries(subs.last().kind, subs.last().rows@)
    }
}

/// The value of member `alias` of a row, or null.
pub open spec fn value_or_null(members: Seq<MemberView>, alias: Seq<char>) -> JsonView {
    match member_get(members, alias) {
        Some(v) => v,
        None => JsonView::Null,
    }
}

/// The values of the members named by `names`.
pub open spec fn values_at(members: Seq<MemberView>, names: Seq<Seq<char>>) -> Seq<JsonView> {
    Seq::new(names.len(), |i: int| value_or_null(members, names[i]))
}

/// The row member a row contributes: its row-field values for the main query;
/// the values of the first `level` row fields followed by `__TOTAL__` for a row
/// subtotal; `__GRAND_TOTAL__` alone for the grand total.
pub open spec fn row_member(p: PlanView, e: Entry) -> MemberModel {
    let names = aliases(p.row_fields);
    match e.kind {
        SubQueryKind::Main => MemberModel {
            key: values_at(e.members, names),
            is_subtotal: None,
            is_grand_total: None,
        },
        SubQueryKind::RowSubtotal { level } => MemberModel {
            key: values_at(e.members, names.take(level as int)) + Seq::new(
                (names.len() - level) as nat,
                |i: int| JsonView::Str("__TOTAL__"@),
            ),
            is_subtotal: Some(true),
            is_grand_total: None,
        },
        SubQueryKind::GrandTotal => MemberModel {
            key: seq![JsonView::Str("__GRAND_TOTAL__"@)],
            is_subtotal: None,
            is_grand_total: Some(true),
        },
    }
}

/// The column member a row contributes: its column-field values.
pub open spec fn col_member(p: PlanView, e: Entry) -> MemberModel {
    MemberModel { key: values_at(e.members, aliases(p.col_fields)), is_subtotal: None, is_grand_total: None }
}

/// Two keys match: they have as many values, each equal to the other's as
/// `serde_json` compares values.
pub open spec fn keys_match(a: Seq<JsonView>, b: Seq<JsonView>) -> bool {
    a.len() == b.len() && forall|i: int| 0 <= i < a.len() ==> json_equal(#[trigger] a[i], b[i])
}

/// Every key matches itself.
proof fn lemma_keys_match_refl(a: Seq<JsonView>)
    ensures
        keys_match(a, a),
{
    assert forall|i: int| 0 <= i < a.len() implies json_equal(#[trigger] a[i], a[i]) by {
        lemma_json_equal_refl(a[i]);
    }
}

/// Matching keys is symmetric.
proof fn lemma_keys_match_symm(a: Seq<JsonView>, b: Seq<JsonView>)
    ensures
        keys_match(a, b) == keys_match(b, a),
{
    if a.len() == b.len() {
        assert forall|i: int| 0 <= i < a.len() implies json_equal(a[i], b[i]) == json_equal(b[i], a[i]) by {
            lemma_json_equal_symm(a[i], b[i]);
        }
        if keys_match(a, b) {
            assert forall|i: int| 0 <= i < b.len() implies json_equal(#[trigger] b[i], a[i]) by {
                assert(json_equal(a[i], b[i]));
            }
        }
        if keys_match(b, a) {
            assert forall|i: int| 0 <= i < a.len() implies json_equal(#[trigger] a[i], b[i]) by {
                assert(json_equal(b[i], a[i]));
            }
        }
    }
}

/// The position of the first member of `ms` whose key matches `key`, if any.
pub open spec fn key_index(ms: Seq<MemberModel>, key: Seq<JsonView>) -> Option<int>
    decreases ms.len(),
{
    if ms.len() == 0 {
        None
    } else if key_index(ms.drop_last(), key) is Some {
        key_index(ms.drop_last(), key)
    } else if keys_match(ms.last().key, key) {
        Some(ms.len() - 1)
    } else {
        None
    }
}

/// `ms` keeps one member per key, the first of those whose keys match, in order
/// of first appearance.
pub open spec fn dedup(ms: Seq<MemberModel>) -> Seq<MemberModel>
    decreases ms.len(),
{
    if ms.len() == 0 {
        Seq::empty()
    } else {
        let prev = dedup(ms.drop_last());
        if key_index(prev, ms.last().key) is Some {
            prev
        } else {
            prev.push(ms.last())
        }
    }
}

/// The row members of the rows `es`, one per matching key, in order of first
/// appearance.
pub open spec fn row_members(p: PlanView, es: Seq<Entry>) -> Seq<MemberModel> {
    dedup(Seq::new(es.len(), |i: int| row_member(p, es[i])))
}

/// The column members of the rows `es` before ordering, one per matching key, in order
/// of first appearance.
pub open spec fn col_members(p: PlanView, es: Seq<Entry>) -> Seq<MemberModel> {
    dedup(Seq::new(es.len(), |i: int| col_member(p, es[i])))
}

/// A cell before the column axis is ordered: row member, column member in order
/// of first appearance, measure id, value.
pub struct RawCell {
    pub r: int,
    pub c: int,
    pub m: Seq<char>,
    pub v: JsonView,
}

/// The cells a row contributes at row member `r` and column member `c`: one per
/// measure of `ids` the row carries, in the order of `ids`.
pub open spec fn entry_cells(ids: Seq<Seq<char>>, members: Seq<MemberView>, r: int, c: int) -> Seq<
    RawCell,
>
    decreases ids.len(),
{
    if ids.len() == 0 {
        Seq::empty()
    } else {
        let prev = entry_cells(ids.drop_last(), members, r, c);
        match member_get(members, ids.last()) {
            Some(v) => prev.push(RawCell { r, c, m: ids.last(), v }),
            None => prev,
        }
    }
}

/// The cells of the rows `es`, row by row.
pub open spec fn raw_cells(p: PlanView, es: Seq<Entry>) -> Seq<RawCell>
    decreases es.len(),
{
    if es.len() == 0 {
        Seq::empty()
    } else {
        let e = es.last();
        raw_cells(p, es.drop_last()) + entry_cells(
            measure_ids(p.measures),
            e.members,
            key_index(row_members(p, es), row_member(p, e).key).unwrap(),
            key_index(col_members(p, es), col_member(p, e).key).unwrap(),
        )
    }
}

// ── Column order ──────────────────────────────────────────────────────────────
/// The text by which a value is ordered on an axis: `s:` and the string, `n:` and
/// the fixed-point number, `z:null`, or `o:` and the JSON text of anything else.
pub open spec fn sort_text(v: JsonView) -> Seq<char> {
    match v {
        JsonView::Str(s) => "s:"@ + s,
        JsonView::Number { text, fixed } => "n:"@ + fixed,
        JsonView::Null => "z:null"@,
        _ => "o:"@ + json_text(v),
    }
}

/// The texts by which a member is ordered.
pub open spec fn member_sort_texts(m: MemberModel) -> Seq<Seq<char>> {
    Seq::new(m.key.len(), |i: int| sort_text(m.key[i]))
}

/// Member `a` of `ms` comes before member `b`: its key orders first, or the keys
/// order alike and `a` appeared first.
pub open spec fn comes_before(ms: Seq<MemberModel>, a: int, b: int) -> bool {
    texts_lt(member_sort_texts(ms[a]), member_sort_texts(ms[b])) || (member_sort_texts(ms[a])
        == member_sort_texts(ms[b]) && a < b)
}

/// `perm` lists the positions of `ms` in sorted order (a stable sort by key).
pub open spec fn sorted_order(ms: Seq<MemberModel>, perm: Seq<int>) -> bool {
    &&& perm.len() == ms.len()
    &&& forall|i: int| 0 <= i < perm.len() ==> 0 <= #[trigger] perm[i] < ms.len()
    &&& forall|i: int, j: int|
        0 <= i < j < perm.len() ==> comes_before(ms, #[trigger] perm[i], #[trigger] perm[j])
}

// ── Totals ────────────────────────────────────────────────────────────────────
/// The summed execution time of the sub-queries.
pub open spec fn total_elapsed(subs: Seq<SubQueryRows>) -> int
    decreases subs.len(),
{
    if subs.len() == 0 {
        0
    } else {
        total_elapsed(subs.drop_last()) + subs.last().elapsed_ms
    }
}

/// The number of rows the sub-queries returned.
pub open spec fn total_rows(subs: Seq<SubQueryRows>) -> int
    decreases subs.len(),
{
    if subs.len() == 0 {
        0
    } else {
        total_rows(subs.drop_last()) + subs.last().rows@.len()
    }
}

/// Every row-subtotal level is within the plan's row fields.
pub open spec fn levels_fit(p: PlanView, subs: Seq<SubQueryRows>) -> bool {
    forall|i: int|
        0 <= i < subs.len() ==> ((#[trigger] subs[i]).kind matches SubQueryKind::RowSubtotal {
            level,
        } ==> level <= p.row_fields.len())
}

// ── Lemmas ────────────────────────────────────────────────────────────────────
/// Once a key has a position in a prefix, the whole sequence gives it that position.
proof fn lemma_key_index_prefix(ms: Seq<MemberModel>, key: Seq<JsonView>, n: int)
    requires
        0 <= n <= ms.len(),
        key_index(ms.take(n), key) is Some,
    ensures
        key_index(ms, key) == key_index(ms.take(n), key),
    decreases ms.len(),
{
    if n < ms.len() {
        assert(ms.drop_last().take(n) =~= ms.take(n));
        lemma_key_index_prefix(ms.drop_last(), key, n);
    } else {
        assert(ms.take(n) =~= ms);
    }
}

/// The position of a key is a position holding that key.
proof fn lemma_key_index_valid(ms: Seq<MemberModel>, key: Seq<JsonView>)
    ensures
        key_index(ms, key) matches Some(i) ==> 0 <= i < ms.len() && keys_match(ms[i].key, key),
        key_index(ms, key) is None ==> forall|i: int| 0 <= i < ms.len() ==> !keys_match(#[trigger] ms[i].key, key),
    decreases ms.len(),
{
    if ms.len() > 0 {
        lemma_key_index_valid(ms.drop_last(), key);
        assert forall|i: int| 0 <= i < ms.len() - 1 implies ms.drop_last()[i] == ms[i] by {}
    }
}

/// The rows `es` followed by one more row.
proof fn lemma_push_entry(p: PlanView, es: Seq<Entry>, e: Entry)
    ensures
        row_members(p, es.push(e)) == if key_index(row_members(p, es), row_member(p, e).key) is Some {
            row_members(p, es)
        } else {
            row_members(p, es).push(row_member(p, e))
        },
        col_members(p, es.push(e)) == if key_index(col_members(p, es), col_member(p, e).key) is Some {
            col_members(p, es)
        } else {
            col_members(p, es).push(col_member(p, e))
        },
        raw_cells(p, es.push(e)) == raw_cells(p, es) + entry_cells(
            measure_ids(p.measures),
            e.members,
            key_index(row_members(p, es.push(e)), row_member(p, e).key).unwrap(),
            key_index(col_members(p, es.push(e)), col_member(p, e).key).unwrap(),
        ),
{
    let es2 = es.push(e);
    let rs2 = Seq::new(es2.len(), |i: int| row_member(p, es2[i]));
    let rs = Seq::new(es.len(), |i: int| row_member(p, es[i]));
    assert(rs2.drop_last() =~= rs);
    let cs2 = Seq::new(es2.len(), |i: int| col_member(p, es2[i]));
    let cs = Seq::new(es.len(), |i: int| col_member(p, es[i]));
    assert(cs2.drop_last() =~= cs);
    assert(es2.drop_last() =~= es);
}

/// After adding a member with `key` (if new), `key` has a position.
proof fn lemma_dedup_has_key(ms: Seq<MemberModel>, m: MemberModel)
    ensures
        ({
            let d = if key_index(ms, m.key) is Some {
                ms
            } else {
                ms.push(m)
            };
            &&& key_index(d, m.key) is Some
            &&& key_index(ms, m.key) is None ==> key_index(d, m.key) == Some(ms.len() as int)
            &&& key_index(ms, m.key) is Some ==> key_index(d, m.key) == key_index(ms, m.key)
        }),
{
    if key_index(ms, m.key) is None {
        assert(ms.push(m).drop_last() =~= ms);
        lemma_keys_match_refl(m.key);
    }
}

/// `object_entries` of one more row.
proof fn lemma_object_entries_push(kind: SubQueryKind, rows: Seq<JsonValue>, j: int)
    requires
        0 <= j < rows.len(),
    ensures
        object_entries(kind, rows.take(j + 1)) == match rows[j]@ {
            JsonView::Object(members) => object_entries(kind, rows.take(j)).push(Entry { kind, members }),
            _ => object_entries(kind, rows.take(j)),
        },
{
    assert(rows.take(j + 1).drop_last() =~= rows.take(j));
    assert(rows.take(j + 1).last() == rows[j]);
}

/// `entries` of one more sub-query result.
proof fn lemma_entries_push(subs: Seq<SubQueryRows>, i: int)
    requires
        0 <= i < subs.len(),
    ensures
        entries(subs.take(i + 1)) == entries(subs.take(i)) + object_entries(subs[i].kind, subs[i].rows@),
        total_elapsed(subs.take(i + 1)) == total_elapsed(subs.take(i)) + subs[i].elapsed_ms,
        total_rows(subs.take(i + 1)) == total_rows(subs.take(i)) + subs[i].rows@.len(),
{
    assert(subs.take(i + 1).drop_last() =~= subs.take(i));
    assert(subs.take(i + 1).last() == subs[i]);
}

/// The totals of a prefix are at most the totals of the whole.
proof fn lemma_totals_prefix(subs: Seq<SubQueryRows>, i: int)
    requires
        0 <= i <= subs.len(),
    ensures
        total_elapsed(subs.take(i)) <= total_elapsed(subs),
        total_rows(subs.take(i)) <= total_rows(subs),
        0 <= total_elapsed(subs.take(i)),
        0 <= total_rows(subs.take(i)),
    decreases subs.len(),
{
    if i < subs.len() {
        assert(subs.drop_last().take(i) =~= subs.take(i));
        lemma_totals_prefix(subs.drop_last(), i);
        lemma_totals_prefix(subs.drop_last(), subs.len() - 1);
        assert(subs.drop_last().take(subs.len() - 1) =~= subs.drop_last());
    } else {
        assert(subs.take(i) =~= subs);
        if subs.len() > 0 {
            lemma_totals_prefix(subs.drop_last(), subs.len() - 1);
            assert(subs.drop_last().take(subs.len() - 1) =~= subs.drop_last());
        }
    }
}

/// `comes_before` is a strict total order on the positions of `ms`.
proof fn lemma_comes_before_order(ms: Seq<MemberModel>, a: int, b: int, c: int)
    ensures
        !comes_before(ms, a, a),
        comes_before(ms, a, b) && comes_before(ms, b, c) ==> comes_before(ms, a, c),
        a != b ==> comes_before(ms, a, b) || comes_before(ms, b, a),
        comes_before(ms, a, b) ==> !comes_before(ms, b, a),
{
    let ka = member_sort_texts(ms[a]);
    let kb = member_sort_texts(ms[b]);
    let kc = member_sort_texts(ms[c]);
    lemma_texts_lt_strict_total(ka, kb, kc);
    lemma_texts_lt_strict_total(kb, ka, kc);
    lemma_texts_lt_strict_total(ka, kc, kb);
    lemma_texts_lt_strict_total(kb, kc, ka);
    lemma_texts_lt_strict_total(kc, ka, kb);
}

// ── Executable helpers ────────────────────────────────────────────────────────
/// The text by which a value is ordered on an axis.
pub fn json_sort_key(v: &JsonValue) -> (r: String)
    ensures
        r@ == sort_text(v@),
{
    match v {
        JsonValue::String(s) => {
            let mut r = string_of("s:");
            r.append(s.as_str());
            r
        },
        JsonValue::Number(n) => {
            let mut r = string_of("n:");
            r.append(n.fixed_text.as_str());
            r
        },
        JsonValue::Null => string_of("z:null"),
        _ => {
            let mut r = string_of("o:");
            let t = render_json(v);
            r.append(t.as_str());
            r
        },
    }
}

/// The texts by which a member is ordered.
fn member_sort_keys(m: &AxisMember) -> (r: Vec<String>)
    ensures
        views(r@) == member_sort_texts(m@),
{
    let mut r: Vec<String> = Vec::new();
    let mut i: usize = 0;
    while i < m.key.len()
        invariant
            i <= m.key.len(),
            r@.len() == i,
            forall|j: int| 0 <= j < i ==> #[trigger] r@[j]@ == sort_text(m.key@[j]@),
        decreases m.key.len() - i,
    {
        r.push(json_sort_key(&m.key[i]));
        i = i + 1;
    }
    assert(views(r@) =~= member_sort_texts(m@));
    r
}

/// Whether `a` orders before `b`.
fn texts_less(a: &Vec<String>, b: &Vec<String>) -> (r: bool)
    ensures
        r == texts_lt(views(a@), views(b@)),
{
    let ghost x = views(a@);
    let ghost y = views(b@);
    let mut i: usize = 0;
    assert(x.skip(0) =~= x);
    assert(y.skip(0) =~= y);
    while i < a.len() && i < b.len() && crate::text::str_eq(a[i].as_str(), b[i].as_str())
        invariant
            x == views(a@),
            y == views(b@),
            i <= a.len(),
            i <= b.len(),
            texts_lt(x, y) == texts_lt(x.skip(i as int), y.skip(i as int)),
        decreases a.len() - i,
    {
        assert(x.skip(i as int).drop_first() =~= x.skip(i + 1));
        assert(y.skip(i as int).drop_first() =~= y.skip(i + 1));
        i = i + 1;
    }
    if i == a.len() {
        i < b.len()
    } else if i == b.len() {
        false
    } else {
        crate::text::str_lt(a[i].as_str(), b[i].as_str())
    }
}

/// Whether `a` and `b` are the same texts.
fn texts_equal(a: &Vec<String>, b: &Vec<String>) -> (r: bool)
    ensures
        r == (views(a@) == views(b@)),
{
    if a.len() != b.len() {
        assert(views(a@).len() != views(b@).len());
        return false;
    }
    let mut i: usize = 0;
    while i < a.len()
        invariant
            a.len() == b.len(),
            i <= a.len(),
            forall|j: int| 0 <= j < i ==> #[trigger] views(a@)[j] == views(b@)[j],
        decreases a.len() - i,
    {
        if !crate::text::str_eq(a[i].as_str(), b[i].as_str()) {
            assert(views(a@)[i as int] != views(b@)[i as int]);
            return false;
        }
        i = i + 1;
    }
    assert(views(a@) =~= views(b@));
    true
}

/// Whether two keys match, value by value as `serde_json` compares values.
fn keys_equal(a: &Vec<JsonValue>, b: &Vec<JsonValue>) -> (r: bool)
    ensures
        r == keys_match(values_view(a@), values_view(b@)),
{
    if a.len() != b.len() {
        return false;
    }
    let mut i: usize = 0;
    while i < a.len()
        invariant
            a.len() == b.len(),
            i <= a.len(),
            forall|j: int| 0 <= j < i ==> json_equal(#[trigger] values_view(a@)[j], values_view(b@)[j]),
        decreases a.len() - i,
    {
        if !a[i].equals(&b[i]) {
            assert(!json_equal(values_view(a@)[i as int], values_view(b@)[i as int]));
            return false;
        }
        i = i + 1;
    }
    true
}

/// Find the member with the key of `member`, or append `member`; return its position.
fn find_or_insert(members: &mut Vec<AxisMember>, member: AxisMember) -> (idx: usize)
    ensures
        member_models(final(members)@) == if key_index(member_models(old(members)@), member@.key) is Some {
            member_models(old(members)@)
        } else {
            member_models(old(members)@).push(member@)
        },
        key_index(member_models(final(members)@), member@.key) == Some(idx as int),
{
    let ghost ms = member_models(members@);
    let mut i: usize = 0;
    assert(ms.take(0) =~= Seq::<MemberModel>::empty());
    while i < members.len()
        invariant
            ms == member_models(members@),
            i <= members.len(),
            key_index(ms.take(i as int), member@.key) is None,
        decreases members.len() - i,
    {
        assert(ms.take(i + 1).drop_last() =~= ms.take(i as int));
        if keys_equal(&members[i].key, &member.key) {
            proof {
                assert(ms.take(i + 1).last() == ms[i as int]);
                lemma_key_index_prefix(ms, member@.key, i + 1);
                lemma_dedup_has_key(ms, member@);
            }
            return i;
        }
        i = i + 1;
    }
    assert(ms.take(ms.len() as int) =~= ms);
    proof {
        lemma_dedup_has_key(ms, member@);
    }
    members.push(member);
    assert(member_models(members@) =~= ms.push(member@));
    members.len() - 1
}

/// The values of the members of `obj` named by the aliases of `fields`, null where missing.
fn values_of(obj: &Vec<(String, JsonValue)>, fields: &Vec<crate::query::plan::ResolvedField>, n: usize) -> (r: Vec<JsonValue>)
    requires
        n <= fields@.len(),
    ensures
        values_view(r@) == values_at(crate::json::member_views(obj@), aliases(field_views(fields@)).take(n as int)),
{
    let ghost names = aliases(field_views(fields@)).take(n as int);
    let mut r: Vec<JsonValue> = Vec::new();
    let mut i: usize = 0;
    while i < n
        invariant
            i <= n <= fields@.len(),
            names == aliases(field_views(fields@)).take(n as int),
            r@.len() == i,
            forall|j: int|
                0 <= j < i ==> #[trigger] r@[j]@ == value_or_null(crate::json::member_views(obj@), names[j]),
        decreases n - i,
    {
        let v = match member_value(obj, fields[i].alias.as_str()) {
            Some(v) => v.copy(),
            None => JsonValue::Null,
        };
        r.push(v);
        i = i + 1;
    }
    assert(values_view(r@) =~= values_at(crate::json::member_views(obj@), names));
    r
}

/// The row member a row of a sub-query of `kind` contributes.
fn row_member_of(plan: &QueryPlan, kind: SubQueryKind, obj: &Vec<(String, JsonValue)>) -> (r: AxisMember)
    requires
        kind matches SubQueryKind::RowSubtotal { level } ==> level <= plan@.row_fields.len(),
    ensures
        r@ == row_member(plan@, Entry { kind, members: crate::json::member_views(obj@) }),
{
    let ghost names = aliases(plan@.row_fields);
    let n_rows = plan.row_fields.len();
    match kind {
        SubQueryKind::Main => {
            let key = values_of(obj, &plan.row_fields, n_rows);
            assert(names.take(n_rows as int) =~= names);
            AxisMember { key, is_subtotal: None, is_grand_total: None }
        },
        SubQueryKind::RowSubtotal { level } => {
            let mut key = values_of(obj, &plan.row_fields, level);
            let ghost head = values_view(key@);
            let mut i: usize = level;
            while i < n_rows
                invariant
                    level <= i <= n_rows,
                    values_view(key@) == head + Seq::new((i - level) as nat, |j: int| JsonView::Str("__TOTAL__"@)),
                decreases n_rows - i,
            {
                let ghost before = key@;
                let t = JsonValue::String(string_of("__TOTAL__"));
                assert(t@ == JsonView::Str("__TOTAL__"@));
                key.push(t);
                assert(values_view(key@) =~= values_view(before).push(t@));
                assert(values_view(key@) =~= head + Seq::new((i + 1 - level) as nat, |j: int| JsonView::Str("__TOTAL__"@)));
                i = i + 1;
            }
            AxisMember { key, is_subtotal: Some(true), is_grand_total: None }
        },
        SubQueryKind::GrandTotal => {
            let mut key: Vec<JsonValue> = Vec::new();
            key.push(JsonValue::String(string_of("__GRAND_TOTAL__")));
            assert(values_view(key@) =~= seq![JsonView::Str("__GRAND_TOTAL__"@)]);
            AxisMember { key, is_subtotal: None, is_grand_total: Some(true) }
        },
    }
}

/// A cell whose column position is not yet ordered.
struct PendingCell {
    r: usize,
    c_unsorted: usize,
    m: String,
    v: JsonValue,
}

/// The models of pending cells.
spec fn pending_views(s: Seq<PendingCell>) -> Seq<RawCell> {
    Seq::new(s.len(), |i: int| RawCell { r: s[i].r as int, c: s[i].c_unsorted as int, m: s[i].m@, v: s[i].v@ })
}

/// Adds the cells a row contributes at row `r` and column `c`.
fn push_entry_cells(
    cells: &mut Vec<PendingCell>,
    plan: &QueryPlan,
    obj: &Vec<(String, JsonValue)>,
    r: usize,
    c: usize,
)
    ensures
        pending_views(final(cells)@) == pending_views(old(cells)@) + entry_cells(
            measure_ids(plan@.measures),
            crate::json::member_views(obj@),
            r as int,
            c as int,
        ),
{
    let ghost ids = measure_ids(plan@.measures);
    let ghost base = pending_views(cells@);
    let mut k: usize = 0;
    assert(ids.take(0) =~= Seq::<Seq<char>>::empty());
    assert(pending_views(cells@) =~= base + entry_cells(ids.take(0), crate::json::member_views(obj@), r as int, c as int));
    while k < plan.measures.len()
        invariant
            ids == measure_ids(plan@.measures),
            k <= plan.measures.len(),
            pending_views(cells@) == base + entry_cells(ids.take(k as int), crate::json::member_views(obj@), r as int, c as int),
        decreases plan.measures.len() - k,
    {
        let id = &plan.measures[k].id;
        assert(ids.take(k + 1).drop_last() =~= ids.take(k as int));
        assert(ids.take(k + 1).last() == id@);
        match member_value(obj, id.as_str()) {
            Some(v) => {
                let ghost before = cells@;
                cells.push(PendingCell { r, c_unsorted: c, m: id.clone(), v: v.copy() });
                assert(pending_views(cells@) =~= pending_views(before).push(
                    RawCell { r: r as int, c: c as int, m: id@, v: v@ },
                ));
            },
            None => {},
        }
        k = k + 1;
    }
    assert(ids.take(plan.measures.len() as int) =~= ids);
}

/// The axes, cells and totals gathered from the sub-query results.
struct Collected {
    row_members: Vec<AxisMember>,
    col_members: Vec<AxisMember>,
    cells: Vec<PendingCell>,
    clickhouse_ms: u64,
    preaggregate_rows: u64,
    subqueries: u32,
}

/// Gathers the row members, the column members in order of first appearance and
/// the cells of every object row of the sub-query results.
fn collect(plan: &QueryPlan, subs: &Vec<SubQueryRows>) -> (r: Collected)
    requires
        levels_fit(plan@, subs@),
        total_elapsed(subs@) <= u64::MAX,
        total_rows(subs@) <= u64::MAX,
        subs@.len() <= u32::MAX,
    ensures
        member_models(r.row_members@) == row_members(plan@, entries(subs@)),
        member_models(r.col_members@) == col_members(plan@, entries(subs@)),
        pending_views(r.cells@) == raw_cells(plan@, entries(subs@)),
        r.clickhouse_ms == total_elapsed(subs@),
        r.preaggregate_rows == total_rows(subs@),
        r.subqueries == subs@.len(),
{
    let ghost p = plan@;
    let mut row_ms: Vec<AxisMember> = Vec::new();
    let mut col_ms: Vec<AxisMember> = Vec::new();
    let mut cells: Vec<PendingCell> = Vec::new();
    let mut total_clickhouse_ms: u64 = 0;
    let mut total_preaggregate_rows: u64 = 0;
    let mut subquery_count: u32 = 0;
    let mut i: usize = 0;
    assert(subs@.take(0) =~= Seq::<SubQueryRows>::empty());
    assert(member_models(row_ms@) =~= row_members(p, entries(subs@.take(0))));
    assert(member_models(col_ms@) =~= col_members(p, entries(subs@.take(0))));
    assert(pending_views(cells@) =~= raw_cells(p, entries(subs@.take(0))));
    while i < subs.len()
        invariant
            p == plan@,
            i <= subs.len(),
            levels_fit(p, subs@),
            total_elapsed(subs@) <= u64::MAX,
            total_rows(subs@) <= u64::MAX,
            subs@.len() <= u32::MAX,
            member_models(row_ms@) == row_members(p, entries(subs@.take(i as int))),
            member_models(col_ms@) == col_members(p, entries(subs@.take(i as int))),
            pending_views(cells@) == raw_cells(p, entries(subs@.take(i as int))),
            total_clickhouse_ms == total_elapsed(subs@.take(i as int)),
            total_preaggregate_rows == total_rows(subs@.take(i as int)),
            subquery_count == i,
        decreases subs.len() - i,
    {
        let sub = &subs[i];
        proof {
            lemma_entries_push(subs@, i as int);
            lemma_totals_prefix(subs@, i + 1);
        }
        total_clickhouse_ms = total_clickhouse_ms + sub.elapsed_ms;
        total_preaggregate_rows = total_preaggregate_rows + sub.rows.len() as u64;
        subquery_count = subquery_count + 1;
        let ghost done = entries(subs@.take(i as int));
        let mut j: usize = 0;
        assert(sub.rows@.take(0) =~= Seq::<JsonValue>::empty());
        assert(done + object_entries(sub.kind, sub.rows@.take(0)) =~= done);
        while j < sub.rows.len()
            invariant
                p == plan@,
                j <= sub.rows.len(),
                sub.kind matches SubQueryKind::RowSubtotal { level } ==> level <= p.row_fields.len(),
                member_models(row_ms@) == row_members(p, done + object_entries(sub.kind, sub.rows@.take(j as int))),
                member_models(col_ms@) == col_members(p, done + object_entries(sub.kind, sub.rows@.take(j as int))),
                pending_views(cells@) == raw_cells(p, done + object_entries(sub.kind, sub.rows@.take(j as int))),
            decreases sub.rows.len() - j,
        {
            let row = &sub.rows[j];
            proof {
                lemma_object_entries_push(sub.kind, sub.rows@, j as int);
            }
            match row.as_object() {
                Some(obj) => {
                    let ghost before = done + object_entries(sub.kind, sub.rows@.take(j as int));
                    let ghost e = Entry { kind: sub.kind, members: crate::json::member_views(obj@) };
                    assert(done + object_entries(sub.kind, sub.rows@.take(j + 1)) =~= before.push(e));
                    proof {
                        lemma_push_entry(p, before, e);
                    }
                    // ── Column key ────────────────────────────────────────────
                    let col_key = values_of(obj, &plan.col_fields, plan.col_fields.len());
                    assert(aliases(field_views(plan.col_fields@)).take(plan.col_fields@.len() as int) =~= aliases(p.col_fields));
                    let col_idx = find_or_insert(
                        &mut col_ms,
                        AxisMember { key: col_key, is_subtotal: None, is_grand_total: None },
                    );
                    // ── Row key ───────────────────────────────────────────────
                    let row_member = row_member_of(plan, sub.kind, obj);
                    let row_idx = find_or_insert(&mut row_ms, row_member);
                    // ── Cells ─────────────────────────────────────────────────
                    push_entry_cells(&mut cells, plan, obj, row_idx, col_idx);
                },
                None => {},
            }
            j = j + 1;
        }
        assert(sub.rows@.take(sub.rows@.len() as int) =~= sub.rows@);
        i = i + 1;
    }
    assert(subs@.take(subs@.len() as int) =~= subs@);
    Collected {
        row_members: row_ms,
        col_members: col_ms,
        cells,
        clickhouse_ms: total_clickhouse_ms,
        preaggregate_rows: total_preaggregate_rows,
        subqueries: subquery_count,
    }
}

/// The positions as integers.
pub open spec fn positions(s: Seq<usize>) -> Seq<int> {
    Seq::new(s.len(), |i: int| s[i] as int)
}

/// Whether member `a` comes before member `b`, given the members' sort texts.
fn comes_before_exec(keys: &Vec<Vec<String>>, a: usize, b: usize, ms: Ghost<Seq<MemberModel>>) -> (r: bool)
    requires
        a < keys@.len(),
        b < keys@.len(),
        keys@.len() == ms@.len(),
        forall|i: int| 0 <= i < keys@.len() ==> views(#[trigger] keys@[i]@) == member_sort_texts(ms@[i]),
    ensures
        r == comes_before(ms@, a as int, b as int),
{
    texts_less(&keys[a], &keys[b]) || (texts_equal(&keys[a], &keys[b]) && a < b)
}

/// The positions of `members` in stable order of their sort texts (insertion sort).
fn stable_order(members: &Vec<AxisMember>) -> (order: Vec<usize>)
    ensures
        sorted_order(member_models(members@), positions(order@)),
        forall|x: int| 0 <= x < members@.len() ==> positions(order@).contains(x),
{
    let ghost ms = member_models(members@);
    let n = members.len();
    let mut keys: Vec<Vec<String>> = Vec::new();
    let mut t: usize = 0;
    while t < n
        invariant
            n == members@.len(),
            ms == member_models(members@),
            t <= n,
            keys@.len() == t,
            forall|i: int| 0 <= i < t ==> views(#[trigger] keys@[i]@) == member_sort_texts(ms[i]),
        decreases n - t,
    {
        keys.push(member_sort_keys(&members[t]));
        t = t + 1;
    }
    let mut order: Vec<usize> = Vec::new();
    let mut k: usize = 0;
    while k < n
        invariant
            n == members@.len(),
            ms == member_models(members@),
            keys@.len() == n,
            forall|i: int| 0 <= i < n ==> views(#[trigger] keys@[i]@) == member_sort_texts(ms[i]),
            k <= n,
            order@.len() == k,
            forall|i: int| 0 <= i < k ==> #[trigger] order@[i] < k,
            forall|i: int, j: int|
                0 <= i < j < k ==> comes_before(ms, #[trigger] order@[i] as int, #[trigger] order@[j] as int),
            forall|x: int| 0 <= x < k ==> positions(order@).contains(x),
        decreases n - k,
    {
        let mut p: usize = 0;
        while p < k && comes_before_exec(&keys, order[p], k, Ghost(ms))
            invariant
                n == members@.len(),
                ms == member_models(members@),
                keys@.len() == n,
                forall|i: int| 0 <= i < n ==> views(#[trigger] keys@[i]@) == member_sort_texts(ms[i]),
                k < n,
                order@.len() == k,
                forall|i: int| 0 <= i < k ==> #[trigger] order@[i] < k,
                p <= k,
                forall|i: int| 0 <= i < p ==> comes_before(ms, #[trigger] order@[i] as int, k as int),
            decreases k - p,
        {
            p = p + 1;
        }
        proof {
            if p < k {
                lemma_comes_before_order(ms, order@[p as int] as int, k as int, k as int);
                assert(comes_before(ms, k as int, order@[p as int] as int));
                assert forall|i: int| p < i < k implies comes_before(ms, k as int, #[trigger] order@[i] as int) by {
                    lemma_comes_before_order(ms, k as int, order@[p as int] as int, order@[i] as int);
                }
            }
        }
        let ghost old_order = order@;
        order.insert(p, k);
        proof {
            assert forall|i: int| 0 <= i < k + 1 implies #[trigger] order@[i] < k + 1 by {
                if i < p {
                    assert(order@[i] == old_order[i]);
                } else if i > p {
                    assert(order@[i] == old_order[i - 1]);
                }
            }
            assert forall|i: int, j: int| 0 <= i < j < k + 1 implies comes_before(
                ms,
                #[trigger] order@[i] as int,
                #[trigger] order@[j] as int,
            ) by {
                if j < p {
                    assert(order@[i] == old_order[i] && order@[j] == old_order[j]);
                } else if j == p {
                    assert(order@[i] == old_order[i]);
                } else if i < p {
                    assert(order@[i] == old_order[i] && order@[j] == old_order[j - 1]);
                    if p < k {
                        lemma_comes_before_order(ms, old_order[i] as int, k as int, old_order[j - 1] as int);
                    }
                } else if i == p {
                    assert(order@[j] == old_order[j - 1]);
                } else {
                    assert(order@[i] == old_order[i - 1] && order@[j] == old_order[j - 1]);
                }
            }
            assert forall|x: int| 0 <= x < k + 1 implies positions(order@).contains(x) by {
                if x == k {
                    assert(positions(order@)[p as int] == x);
                } else {
                    assert(positions(old_order).contains(x));
                    let i = choose|i: int| 0 <= i < old_order.len() && positions(old_order)[i] == x;
                    if i < p {
                        assert(positions(order@)[i] == x);
                    } else {
                        assert(positions(order@)[i + 1] == x);
                    }
                }
            }
        }
        k = k + 1;
    }
    proof {
        assert forall|i: int| 0 <= i < positions(order@).len() implies 0 <= #[trigger] positions(order@)[i] < ms.len() by {}
        assert forall|i: int, j: int| 0 <= i < j < positions(order@).len() implies comes_before(
            ms,
            #[trigger] positions(order@)[i],
            #[trigger] positions(order@)[j],
        ) by {
            assert(comes_before(ms, order@[i] as int, order@[j] as int));
        }
    }
    order
}

/// Every cell of `entry_cells` sits at row `r` and column `c` and holds the value
/// the row carries for its measure.
proof fn lemma_entry_cells_at(ids: Seq<Seq<char>>, members: Seq<MemberView>, r: int, c: int)
    ensures
        forall|i: int|
            0 <= i < entry_cells(ids, members, r, c).len() ==> (#[trigger] entry_cells(ids, members, r, c)[i]).r
                == r && entry_cells(ids, members, r, c)[i].c == c && member_get(
                members,
                entry_cells(ids, members, r, c)[i].m,
            ) == Some(entry_cells(ids, members, r, c)[i].v),
    decreases ids.len(),
{
    if ids.len() > 0 {
        lemma_entry_cells_at(ids.drop_last(), members, r, c);
    }
}

/// Every cell refers to an existing row member and an existing column member.
pub proof fn lemma_cells_in_range(p: PlanView, es: Seq<Entry>)
    ensures
        forall|i: int|
            0 <= i < raw_cells(p, es).len() ==> 0 <= (#[trigger] raw_cells(p, es)[i]).r < row_members(p, es).len()
                && 0 <= raw_cells(p, es)[i].c < col_members(p, es).len(),
    decreases es.len(),
{
    if es.len() > 0 {
        let prev = es.drop_last();
        let e = es.last();
        assert(prev.push(e) =~= es);
        lemma_cells_in_range(p, prev);
        lemma_push_entry(p, prev, e);
        lemma_dedup_has_key(row_members(p, prev), row_member(p, e));
        lemma_dedup_has_key(col_members(p, prev), col_member(p, e));
        let r = key_index(row_members(p, es), row_member(p, e).key).unwrap();
        let c = key_index(col_members(p, es), col_member(p, e).key).unwrap();
        lemma_key_index_valid(row_members(p, es), row_member(p, e).key);
        lemma_key_index_valid(col_members(p, es), col_member(p, e).key);
        lemma_entry_cells_at(measure_ids(p.measures), e.members, r, c);
        let old_cells = raw_cells(p, prev);
        let new_cells = entry_cells(measure_ids(p.measures), e.members, r, c);
        assert forall|i: int| 0 <= i < raw_cells(p, es).len() implies 0 <= (#[trigger] raw_cells(p, es)[i]).r
            < row_members(p, es).len() && 0 <= raw_cells(p, es)[i].c < col_members(p, es).len() by {
            if i < old_cells.len() {
                assert(raw_cells(p, es)[i] == old_cells[i]);
            } else {
                assert(raw_cells(p, es)[i] == new_cells[i - old_cells.len()]);
            }
        }
    }
}

/// A copy of an axis member.
fn copy_member(m: &AxisMember) -> (r: AxisMember)
    ensures
        r@ == m@,
{
    let mut key: Vec<JsonValue> = Vec::new();
    let mut i: usize = 0;
    while i < m.key.len()
        invariant
            i <= m.key.len(),
            key@.len() == i,
            forall|j: int| 0 <= j < i ==> #[trigger] key@[j]@ == m.key@[j]@,
        decreases m.key.len() - i,
    {
        key.push(m.key[i].copy());
        i = i + 1;
    }
    assert(values_view(key@) =~= values_view(m.key@));
    AxisMember { key, is_subtotal: m.is_subtotal, is_grand_total: m.is_grand_total }
}

/// The cells of the response are the gathered cells, in order, with each column
/// position taken to where `order` places that column member.
pub open spec fn cells_placed(cells: Seq<Cell>, raw: Seq<RawCell>, order: Seq<int>) -> bool {
    &&& cells.len() == raw.len()
    &&& forall|i: int|
        0 <= i < cells.len() ==> {
            &&& (#[trigger] cells[i]).r == raw[i].r
            &&& cells[i].c < order.len()
            &&& order[cells[i].c as int] == raw[i].c
            &&& cells[i].m@ == raw[i].m
            &&& cells[i].v@ == raw[i].v
        }
}

/// The response's column axis lists the column members in `order`.
pub open spec fn columns_placed(members: Seq<AxisMember>, cm: Seq<MemberModel>, order: Seq<int>) -> bool {
    &&& members.len() == order.len()
    &&& forall|i: int| 0 <= i < members.len() ==> (#[trigger] members[i])@ == cm[order[i]]
}

/// The column axis is the stable sort `order` of the column members, and the
/// cells follow it.
pub open spec fn columns_in_order(
    columns: Seq<AxisMember>,
    cells: Seq<Cell>,
    p: PlanView,
    es: Seq<Entry>,
    order: Seq<int>,
) -> bool {
    let cm = col_members(p, es);
    &&& sorted_order(cm, order)
    &&& columns_placed(columns, cm, order)
    &&& cells_placed(cells, raw_cells(p, es), order)
}

/// The measure metadata of the response describes the plan's measures.
pub open spec fn measures_described(ms: Seq<MeasureMeta>, p: PlanView) -> bool {
    &&& ms.len() == p.measures.len()
    &&& forall|i: int|
        0 <= i < ms.len() ==> (#[trigger] ms[i]).id@ == p.measures[i].id && opt_view(ms[i].format)
            == p.measures[i].format && opt_view(ms[i].value_type) == Some("number"@)
}

/// `resp` is the pivot of the sub-query results `subs` under plan `p`: the row axis
/// lists the row members in order of first appearance; the column axis lists the
/// column members in stable order of their sort texts; each cell places a measure
/// value of an object row at its row and column member; the statistics count the
/// sub-queries, their time and their rows.
pub open spec fn is_shaped(
    resp: PivotResponse,
    request_id: Seq<char>,
    p: PlanView,
    subs: Seq<SubQueryRows>,
    engine_ms: u64,
) -> bool {
    &&& resp.api_version@ == "1"@
    &&& resp.request_id@ == request_id
    &&& resp.status@ == "ok"@
    &&& !resp.from_cache
    &&& views(resp.row_axis.fields@) == aliases(p.row_fields)
    &&& member_models(resp.row_axis.members@) == row_members(p, entries(subs))
    &&& views(resp.column_axis.fields@) == aliases(p.col_fields)
    &&& exists|order: Seq<int>|
        #[trigger] columns_in_order(resp.column_axis.members@, resp.cells@, p, entries(subs), order)
    &&& measures_described(resp.measures@, p)
    &&& resp.warnings@.len() == 0
    &&& resp.stats.subqueries == subs.len()
    &&& resp.stats.engine_ms == engine_ms
    &&& resp.stats.clickhouse_ms == total_elapsed(subs)
    &&& resp.stats.preaggregate_rows == total_rows(subs)
}

/// Shape all sub-query results into a final PivotResponse stamped with
/// `data_version`. Shaping is deterministic: the response is a function of the
/// arguments alone.
pub fn shape(
    request_id: &str,
    plan: &QueryPlan,
    sub_results: Vec<SubQueryRows>,
    total_engine_ms: u64,
    data_version: String,
) -> (resp: PivotResponse)
    requires
        levels_fit(plan@, sub_results@),
        total_elapsed(sub_results@) <= u64::MAX,
        total_rows(sub_results@) <= u64::MAX,
        sub_results@.len() <= u32::MAX,
    ensures
        is_shaped(resp, request_id@, plan@, sub_results@, total_engine_ms),
        resp.data_version@ == data_version@,
{
    let ghost p = plan@;
    let ghost es = entries(sub_results@);
    let gathered = collect(plan, &sub_results);
    proof {
        lemma_cells_in_range(p, es);
    }
    let ghost cm = col_members(p, es);

    // ── Sort column axis ──────────────────────────────────────────────────────
    let order = stable_order(&gathered.col_members);
    let ghost ord = positions(order@);
    let n = gathered.col_members.len();
    let mut old_col_to_new: Vec<usize> = Vec::new();
    let mut z: usize = 0;
    while z < n
        invariant
            z <= n,
            old_col_to_new@.len() == z,
        decreases n - z,
    {
        old_col_to_new.push(0);
        z = z + 1;
    }
    let mut sorted_col_members: Vec<AxisMember> = Vec::new();
    let mut i: usize = 0;
    while i < n
        invariant
            n == gathered.col_members@.len(),
            cm == member_models(gathered.col_members@),
            ord == positions(order@),
            sorted_order(cm, ord),
            forall|x: int| 0 <= x < n ==> ord.contains(x),
            i <= n,
            old_col_to_new@.len() == n,
            sorted_col_members@.len() == i,
            forall|j: int| 0 <= j < i ==> (#[trigger] sorted_col_members@[j])@ == cm[ord[j]],
            forall|j: int| 0 <= j < i ==> old_col_to_new@[#[trigger] ord[j]] == j,
        decreases n - i,
    {
        let old_idx = order[i];
        assert(ord[i as int] == old_idx);
        sorted_col_members.push(copy_member(&gathered.col_members[old_idx]));
        let ghost before = old_col_to_new@;
        old_col_to_new.set(old_idx, i);
        proof {
            assert forall|j: int| 0 <= j < i + 1 implies old_col_to_new@[#[trigger] ord[j]] == j by {
                if j < i {
                    lemma_comes_before_order(cm, ord[j], ord[j], ord[j]);
                    assert(comes_before(cm, ord[j], ord[i as int]));
                    assert(ord[j] != ord[i as int]);
                }
            }
        }
        i = i + 1;
    }

    // Remap cell column indices
    let ghost raw = raw_cells(p, es);
    let mut cells: Vec<Cell> = Vec::new();
    let mut q: usize = 0;
    while q < gathered.cells.len()
        invariant
            n == gathered.col_members@.len(),
            cm == member_models(gathered.col_members@),
            ord == positions(order@),
            sorted_order(cm, ord),
            raw == pending_views(gathered.cells@),
            forall|k: int| 0 <= k < raw.len() ==> 0 <= (#[trigger] raw[k]).c < n,
            old_col_to_new@.len() == n,
            forall|j: int| 0 <= j < n ==> old_col_to_new@[#[trigger] ord[j]] == j,
            forall|x: int| 0 <= x < n ==> ord.contains(x),
            q <= gathered.cells.len(),
            cells_placed(cells@, raw.take(q as int), ord),
        decreases gathered.cells.len() - q,
    {
        let rc = &gathered.cells[q];
        assert(raw[q as int].c == rc.c_unsorted);
        let c_new = old_col_to_new[rc.c_unsorted];
        proof {
            let x = rc.c_unsorted as int;
            assert(ord.contains(x));
            let j = choose|j: int| 0 <= j < ord.len() && ord[j] == x;
            assert(old_col_to_new@[ord[j]] == j);
        }
        cells.push(Cell { r: rc.r, c: c_new, m: rc.m.clone(), v: rc.v.copy() });
        proof {
            assert forall|k: int| 0 <= k < cells@.len() implies {
                &&& (#[trigger] cells@[k]).r == raw.take(q + 1)[k].r
                &&& cells@[k].c < ord.len()
                &&& ord[cells@[k].c as int] == raw.take(q + 1)[k].c
                &&& cells@[k].m@ == raw.take(q + 1)[k].m
                &&& cells@[k].v@ == raw.take(q + 1)[k].v
            } by {
                if k < q {
                    assert(raw.take(q + 1)[k] == raw.take(q as int)[k]);
                }
            }
        }
        q = q + 1;
    }
    assert(raw.take(raw.len() as int) =~= raw);

    let mut measures: Vec<MeasureMeta> = Vec::new();
    let mut m: usize = 0;
    while m < plan.measures.len()
        invariant
            p == plan@,
            m <= plan.measures.len(),
            measures@.len() == m,
            forall|k: int|
                0 <= k < m ==> (#[trigger] measures@[k]).id@ == p.measures[k].id && opt_view(
                    measures@[k].format,
                ) == p.measures[k].format && opt_view(measures@[k].value_type) == Some("number"@),
        decreases plan.measures.len() - m,
    {
        let me = &plan.measures[m];
        measures.push(
            MeasureMeta {
                id: me.id.clone(),
                format: copy_opt_string(&me.format),
                value_type: Some(string_of("number")),
            },
        );
        m = m + 1;
    }
    let row_fields = alias_list(&plan.row_fields);
    let col_fields = alias_list(&plan.col_fields);
    proof {
        assert(columns_placed(sorted_col_members@, cm, ord));
        assert(cells_placed(cells@, raw, ord));
        assert(columns_in_order(sorted_col_members@, cells@, p, es, ord));
    }
    let ok: &'static str = "ok";
    let resp = PivotResponse {
        api_version: string_of("1"),
        request_id: string_of(request_id),
        status: ok,
        from_cache: false,
        data_version,
        row_axis: Axis { fields: row_fields, members: gathered.row_members },
        column_axis: Axis { fields: col_fields, members: sorted_col_members },
        measures,
        cells,
        warnings: Vec::new(),
        stats: Stats {
            subqueries: gathered.subqueries,
            engine_ms: total_engine_ms,
            clickhouse_ms: gathered.clickhouse_ms,
            preaggregate_rows: gathered.preaggregate_rows,
        },
    };
    assert(columns_in_order(resp.column_axis.members@, resp.cells@, plan@, entries(sub_results@), ord));
    resp
}

/// The aliases of the fields.
fn alias_list(fields: &Vec<crate::query::plan::ResolvedField>) -> (r: Vec<String>)
    ensures
        views(r@) == aliases(field_views(fields@)),
{
    let mut r: Vec<String> = Vec::new();
    let mut i: usize = 0;
    while i < fields.len()
        invariant
            i <= fields.len(),
            r@.len() == i,
            forall|j: int| 0 <= j < i ==> #[trigger] r@[j]@ == fields@[j].alias@,
        decreases fields.len() - i,
    {
        r.push(fields[i].alias.clone());
        i = i + 1;
    }
    assert(views(r@) =~= aliases(field_views(fields@)));
    r
}

// ── Where cell values come from ───────────────────────────────────────────────
/// Some returned row carries value `v` for measure `m` and contributes a row key
/// matching `row_key` and a column key matching `col_key`.
pub open spec fn carried_by(
    p: PlanView,
    es: Seq<Entry>,
    row_key: Seq<JsonView>,
    col_key: Seq<JsonView>,
    m: Seq<char>,
    v: JsonView,
) -> bool {
    exists|j: int|
        0 <= j < es.len() && member_get((#[trigger] es[j]).members, m) == Some(v) && keys_match(
            row_key,
            row_member(p, es[j]).key,
        ) && keys_match(col_key, col_member(p, es[j]).key)
}

/// Every gathered cell holds the value a returned row carries for its measure, at
/// the members that row contributes.
proof fn lemma_raw_cells_carried(p: PlanView, es: Seq<Entry>)
    ensures
        forall|i: int|
            0 <= i < raw_cells(p, es).len() ==> carried_by(
                p,
                es,
                row_members(p, es)[(#[trigger] raw_cells(p, es)[i]).r].key,
                col_members(p, es)[raw_cells(p, es)[i].c].key,
                raw_cells(p, es)[i].m,
                raw_cells(p, es)[i].v,
            ),
    decreases es.len(),
{
    if es.len() > 0 {
        let prev = es.drop_last();
        let e = es.last();
        assert(prev.push(e) =~= es);
        lemma_raw_cells_carried(p, prev);
        lemma_cells_in_range(p, prev);
        lemma_push_entry(p, prev, e);
        lemma_dedup_has_key(row_members(p, prev), row_member(p, e));
        lemma_dedup_has_key(col_members(p, prev), col_member(p, e));
        let r = key_index(row_members(p, es), row_member(p, e).key).unwrap();
        let c = key_index(col_members(p, es), col_member(p, e).key).unwrap();
        lemma_key_index_valid(row_members(p, es), row_member(p, e).key);
        lemma_key_index_valid(col_members(p, es), col_member(p, e).key);
        let ids = measure_ids(p.measures);
        lemma_entry_cells_at(ids, e.members, r, c);
        let old_cells = raw_cells(p, prev);
        let new_cells = entry_cells(ids, e.members, r, c);
        assert forall|i: int| 0 <= i < raw_cells(p, es).len() implies carried_by(
            p,
            es,
            row_members(p, es)[(#[trigger] raw_cells(p, es)[i]).r].key,
            col_members(p, es)[raw_cells(p, es)[i].c].key,
            raw_cells(p, es)[i].m,
            raw_cells(p, es)[i].v,
        ) by {
            let cell = raw_cells(p, es)[i];
            if i < old_cells.len() {
                assert(cell == old_cells[i]);
                assert(carried_by(
                    p,
                    prev,
                    row_members(p, prev)[cell.r].key,
                    col_members(p, prev)[cell.c].key,
                    cell.m,
                    cell.v,
                ));
                let j = choose|j: int|
                    0 <= j < prev.len() && member_get((#[trigger] prev[j]).members, cell.m) == Some(cell.v)
                        && keys_match(row_members(p, prev)[cell.r].key, row_member(p, prev[j]).key)
                        && keys_match(col_members(p, prev)[cell.c].key, col_member(p, prev[j]).key);
                assert(es[j] == prev[j]);
                assert(row_members(p, es)[cell.r] == row_members(p, prev)[cell.r]);
                assert(col_members(p, es)[cell.c] == col_members(p, prev)[cell.c]);
            } else {
                assert(cell == new_cells[i - old_cells.len()]);
                assert(es[es.len() - 1] == e);
            }
        }
    }
}

/// Totals come from ClickHouse, never from sums: every cell of a shaped pivot holds
/// the value that one returned row carries for the cell's measure, and that row
/// contributes the cell's row member and column member.
pub proof fn lemma_cells_are_returned_values(
    resp: PivotResponse,
    request_id: Seq<char>,
    p: PlanView,
    subs: Seq<SubQueryRows>,
    engine_ms: u64,
)
    requires
        is_shaped(resp, request_id, p, subs, engine_ms),
    ensures
        forall|i: int|
            0 <= i < resp.cells@.len() ==> {
                &&& (#[trigger] resp.cells@[i]).r < resp.row_axis.members@.len()
                &&& resp.cells@[i].c < resp.column_axis.members@.len()
                &&& carried_by(
                    p,
                    entries(subs),
                    resp.row_axis.members@[resp.cells@[i].r as int]@.key,
                    resp.column_axis.members@[resp.cells@[i].c as int]@.key,
                    resp.cells@[i].m@,
                    resp.cells@[i].v@,
                )
            },
{
    let es = entries(subs);
    let order = choose|order: Seq<int>|
        #[trigger] columns_in_order(resp.column_axis.members@, resp.cells@, p, es, order);
    let raw = raw_cells(p, es);
    lemma_raw_cells_carried(p, es);
    lemma_cells_in_range(p, es);
    assert forall|i: int| 0 <= i < resp.cells@.len() implies {
        &&& (#[trigger] resp.cells@[i]).r < resp.row_axis.members@.len()
        &&& resp.cells@[i].c < resp.column_axis.members@.len()
        &&& carried_by(
            p,
            es,
            resp.row_axis.members@[resp.cells@[i].r as int]@.key,
            resp.column_axis.members@[resp.cells@[i].c as int]@.key,
            resp.cells@[i].m@,
            resp.cells@[i].v@,
        )
    } by {
        let cell = resp.cells@[i];
        assert(raw[i].r == cell.r);
        assert(member_models(resp.row_axis.members@)[cell.r as int] == row_members(p, es)[raw[i].r]);
        assert(resp.column_axis.members@[cell.c as int]@ == col_members(p, es)[order[cell.c as int]]);
        assert(raw[i].r < row_members(p, es).len());
    }
}

// ── Sort texts ────────────────────────────────────────────────────────────────
/// Where a value's kind orders on an axis: numbers, then booleans, arrays and
/// objects, then strings, then null.
pub open spec fn sort_rank(v: JsonView) -> int {
    match v {
        JsonView::Number { .. } => 0,
        JsonView::Str(_) => 2,
        JsonView::Null => 3,
        _ => 1,
    }
}

/// The text a string or a number is ordered by: the string itself, or the
/// fixed-point text of the number.
pub open spec fn ordered_text(v: JsonView) -> Seq<char> {
    match v {
        JsonView::Str(s) => s,
        JsonView::Number { text, fixed } => fixed,
        _ => Seq::empty(),
    }
}

/// Texts with a common prefix order as what follows the prefix.
proof fn lemma_chars_lt_after_prefix(p: Seq<char>, x: Seq<char>, y: Seq<char>)
    ensures
        crate::text::chars_lt(p + x, p + y) == crate::text::chars_lt(x, y),
    decreases p.len(),
{
    if p.len() == 0 {
        assert(p + x =~= x);
        assert(p + y =~= y);
    } else {
        assert((p + x).drop_first() =~= p.drop_first() + x);
        assert((p + y).drop_first() =~= p.drop_first() + y);
        assert((p + x)[0] == p[0] && (p + y)[0] == p[0]);
        lemma_chars_lt_after_prefix(p.drop_first(), x, y);
    }
}

/// How sort texts order values: by kind first (numbers, then booleans, arrays and
/// objects, then strings, then null); two strings as the strings order; two
/// numbers as their fixed-point texts order.
pub proof fn lemma_sort_text_order(a: JsonView, b: JsonView)
    ensures
        sort_rank(a) < sort_rank(b) ==> crate::text::chars_lt(sort_text(a), sort_text(b)),
        (a is Str && b is Str) ==> (crate::text::chars_lt(sort_text(a), sort_text(b))
            == crate::text::chars_lt(ordered_text(a), ordered_text(b))),
        (a is Number && b is Number) ==> (crate::text::chars_lt(sort_text(a), sort_text(b))
            == crate::text::chars_lt(ordered_text(a), ordered_text(b))),
{
    reveal_strlit("s:");
    reveal_strlit("n:");
    reveal_strlit("o:");
    reveal_strlit("z:null");
    let (ta, tb) = (sort_text(a), sort_text(b));
    assert(ta[0] == match a {
        JsonView::Number { .. } => 'n',
        JsonView::Str(_) => 's',
        JsonView::Null => 'z',
        _ => 'o',
    });
    assert(tb[0] == match b {
        JsonView::Number { .. } => 'n',
        JsonView::Str(_) => 's',
        JsonView::Null => 'z',
        _ => 'o',
    });
    assert(ta.len() > 0 && tb.len() > 0);
    match (a, b) {
        (JsonView::Str(x), JsonView::Str(y)) => lemma_chars_lt_after_prefix("s:"@, x, y),
        (JsonView::Number { fixed: x, .. }, JsonView::Number { fixed: y, .. }) => lemma_chars_lt_after_prefix(
            "n:"@,
            x,
            y,
        ),
        _ => {},
    }
}

// ── Axes ──────────────────────────────────────────────────────────────────────
/// `dedup` keeps one member per key.
proof fn lemma_dedup_distinct(ms: Seq<MemberModel>)
    ensures
        forall|i: int, j: int|
            0 <= i < j < dedup(ms).len() ==> !keys_match((#[trigger] dedup(ms)[i]).key, (#[trigger] dedup(ms)[j]).key),
    decreases ms.len(),
{
    if ms.len() > 0 {
        let prev = dedup(ms.drop_last());
        lemma_dedup_distinct(ms.drop_last());
        lemma_key_index_valid(prev, ms.last().key);
        if key_index(prev, ms.last().key) is None {
            assert forall|i: int, j: int| 0 <= i < j < dedup(ms).len() implies !keys_match(
                (#[trigger] dedup(ms)[i]).key,
                (#[trigger] dedup(ms)[j]).key,
            ) by {
                assert(dedup(ms)[i] == prev.push(ms.last())[i]);
                assert(dedup(ms)[j] == prev.push(ms.last())[j]);
                if j < prev.len() {
                    assert(!keys_match(prev[i].key, prev[j].key));
                } else {
                    assert(!keys_match(prev[i].key, ms.last().key));
                }
            }
        }
    }
}

/// No two members of an axis of a shaped pivot have matching keys (a key equal
/// to an earlier one as `serde_json` compares values joins the earlier member),
/// and the column axis is ordered by the sort texts of its keys.
pub proof fn lemma_axes_distinct_and_sorted(
    resp: PivotResponse,
    request_id: Seq<char>,
    p: PlanView,
    subs: Seq<SubQueryRows>,
    engine_ms: u64,
)
    requires
        is_shaped(resp, request_id, p, subs, engine_ms),
    ensures
        forall|i: int, j: int|
            0 <= i < j < resp.row_axis.members@.len() ==> !keys_match(
                (#[trigger] resp.row_axis.members@[i])@.key,
                (#[trigger] resp.row_axis.members@[j])@.key,
            ),
        forall|i: int, j: int|
            0 <= i < j < resp.column_axis.members@.len() ==> !keys_match(
                (#[trigger] resp.column_axis.members@[i])@.key,
                (#[trigger] resp.column_axis.members@[j])@.key,
            ),
        forall|i: int, j: int|
            0 <= i < j < resp.column_axis.members@.len() ==> texts_lt(
                member_sort_texts((#[trigger] resp.column_axis.members@[i])@),
                member_sort_texts((#[trigger] resp.column_axis.members@[j])@),
            ) || member_sort_texts(resp.column_axis.members@[i]@) == member_sort_texts(
                resp.column_axis.members@[j]@,
            ),
{
    let es = entries(subs);
    let rows = Seq::new(es.len(), |i: int| row_member(p, es[i]));
    let cols = Seq::new(es.len(), |i: int| col_member(p, es[i]));
    lemma_dedup_distinct(rows);
    lemma_dedup_distinct(cols);
    let cm = col_members(p, es);
    let order = choose|order: Seq<int>|
        #[trigger] columns_in_order(resp.column_axis.members@, resp.cells@, p, es, order);
    assert forall|i: int, j: int| 0 <= i < j < resp.row_axis.members@.len() implies !keys_match(
        (#[trigger] resp.row_axis.members@[i])@.key,
        (#[trigger] resp.row_axis.members@[j])@.key,
    ) by {
        assert(member_models(resp.row_axis.members@)[i] == dedup(rows)[i]);
        assert(member_models(resp.row_axis.members@)[j] == dedup(rows)[j]);
    }
    assert forall|i: int, j: int| 0 <= i < j < resp.column_axis.members@.len() implies !keys_match(
        (#[trigger] resp.column_axis.members@[i])@.key,
        (#[trigger] resp.column_axis.members@[j])@.key,
    ) && (texts_lt(
        member_sort_texts(resp.column_axis.members@[i]@),
        member_sort_texts(resp.column_axis.members@[j]@),
    ) || member_sort_texts(resp.column_axis.members@[i]@) == member_sort_texts(
        resp.column_axis.members@[j]@,
    )) by {
        assert(comes_before(cm, order[i], order[j]));
        lemma_comes_before_order(cm, order[i], order[j], order[j]);
        assert(resp.column_axis.members@[i]@ == cm[order[i]]);
        assert(resp.column_axis.members@[j]@ == cm[order[j]]);
        if order[i] < order[j] {
            assert(!keys_match(dedup(cols)[order[i]].key, dedup(cols)[order[j]].key));
        } else {
            assert(!keys_match(dedup(cols)[order[j]].key, dedup(cols)[order[i]].key));
            lemma_keys_match_symm(dedup(cols)[order[j]].key, dedup(cols)[order[i]].key);
        }
    }
}

/// The sort texts of a key, field by field in column-field order.
pub open spec fn key_texts(key: Seq<JsonView>) -> Seq<Seq<char>> {
    Seq::new(key.len(), |t: int| sort_text(key[t]))
}

/// Lexicographic order decides at the first field where two sequences of texts
/// differ: before that field they agree, and there the first is not the greater.
proof fn lemma_texts_lt_at(a: Seq<Seq<char>>, b: Seq<Seq<char>>, k: int)
    requires
        texts_lt(a, b) || a == b,
        0 <= k < a.len(),
        k < b.len(),
        forall|t: int| 0 <= t < k ==> a[t] == b[t],
    ensures
        crate::text::chars_lt(a[k], b[k]) || a[k] == b[k],
    decreases k,
{
    if k > 0 {
        assert(a[0] == b[0]);
        if a != b {
            assert(texts_lt(a.drop_first(), b.drop_first()));
        } else {
            assert(a.drop_first() == b.drop_first());
        }
        assert forall|t: int| 0 <= t < k - 1 implies a.drop_first()[t] == b.drop_first()[t] by {
            assert(a[t + 1] == b[t + 1]);
        }
        lemma_texts_lt_at(a.drop_first(), b.drop_first(), k - 1);
    }
}

/// The column axis is ordered lexicographically by key in column-field order:
/// along the axis, the sort text of the first column field never decreases, and
/// each later field decides only between members whose earlier fields have the
/// same sort texts.
pub proof fn lemma_column_axis_lexicographic(
    resp: PivotResponse,
    request_id: Seq<char>,
    p: PlanView,
    subs: Seq<SubQueryRows>,
    engine_ms: u64,
)
    requires
        is_shaped(resp, request_id, p, subs, engine_ms),
    ensures
        forall|i: int, j: int|
            0 <= i < j < resp.column_axis.members@.len() ==> texts_lt(
                key_texts((#[trigger] resp.column_axis.members@[i])@.key),
                key_texts((#[trigger] resp.column_axis.members@[j])@.key),
            ) || key_texts(resp.column_axis.members@[i]@.key) == key_texts(resp.column_axis.members@[j]@.key),
        forall|i: int, j: int, k: int|
            #![trigger sort_text(resp.column_axis.members@[i]@.key[k]), sort_text(resp.column_axis.members@[j]@.key[k])]
            0 <= i < j < resp.column_axis.members@.len() && 0 <= k < resp.column_axis.members@[i]@.key.len()
                && k < resp.column_axis.members@[j]@.key.len() && (forall|t: int|
                0 <= t < k ==> sort_text(resp.column_axis.members@[i]@.key[t]) == sort_text(
                    resp.column_axis.members@[j]@.key[t],
                )) ==> crate::text::chars_lt(
                sort_text(resp.column_axis.members@[i]@.key[k]),
                sort_text(resp.column_axis.members@[j]@.key[k]),
            ) || sort_text(resp.column_axis.members@[i]@.key[k]) == sort_text(
                resp.column_axis.members@[j]@.key[k],
            ),
{
    lemma_axes_distinct_and_sorted(resp, request_id, p, subs, engine_ms);
    let cols = resp.column_axis.members@;
    assert forall|i: int, j: int| 0 <= i < j < cols.len() implies texts_lt(
        key_texts((#[trigger] cols[i])@.key),
        key_texts((#[trigger] cols[j])@.key),
    ) || key_texts(cols[i]@.key) == key_texts(cols[j]@.key) by {
        assert(member_sort_texts(cols[i]@) =~= key_texts(cols[i]@.key));
        assert(member_sort_texts(cols[j]@) =~= key_texts(cols[j]@.key));
    }
    assert forall|i: int, j: int, k: int|
        #![trigger sort_text(cols[i]@.key[k]), sort_text(cols[j]@.key[k])]
        0 <= i < j < cols.len() && 0 <= k < cols[i]@.key.len() && k < cols[j]@.key.len() && (forall|t: int|
            0 <= t < k ==> sort_text(cols[i]@.key[t]) == sort_text(cols[j]@.key[t])) implies crate::text::chars_lt(
        sort_text(cols[i]@.key[k]),
        sort_text(cols[j]@.key[k]),
    ) || sort_text(cols[i]@.key[k]) == sort_text(cols[j]@.key[k]) by {
        let (a, b) = (key_texts(cols[i]@.key), key_texts(cols[j]@.key));
        assert(texts_lt(a, b) || a == b);
        assert forall|t: int| 0 <= t < k implies a[t] == b[t] by {
            assert(sort_text(cols[i]@.key[t]) == sort_text(cols[j]@.key[t]));
        }
        lemma_texts_lt_at(a, b, k);
    }
}

// ── Determinism ───────────────────────────────────────────────────────────────
/// Every position of `ms` occurs in a sorted order of `ms`.
proof fn lemma_sorted_order_covers(ms: Seq<MemberModel>, perm: Seq<int>, x: int)
    requires
        sorted_order(ms, perm),
        0 <= x < ms.len(),
    ensures
        exists|j: int| 0 <= j < perm.len() && perm[j] == x,
{
    assert forall|i: int, j: int| 0 <= i < perm.len() && 0 <= j < perm.len() && i != j implies perm[i]
        != perm[j] by {
        if i < j {
            lemma_comes_before_order(ms, perm[i], perm[j], perm[j]);
        } else {
            lemma_comes_before_order(ms, perm[j], perm[i], perm[i]);
        }
    }
    assert(perm.no_duplicates());
    perm.unique_seq_to_set();
    let range = vstd::set_lib::set_int_range(0, ms.len() as int);
    vstd::set_lib::lemma_int_range(0, ms.len() as int);
    assert forall|y: int| perm.to_set().contains(y) implies range.contains(y) by {
        let j = choose|j: int| 0 <= j < perm.len() && perm[j] == y;
    }
    vstd::set_lib::lemma_len_subset(perm.to_set(), range);
    vstd::set_lib::lemma_subset_equality(perm.to_set(), range);
    assert(range.contains(x));
    assert(perm.to_set().contains(x));
}

/// Two sorted orders of `ms` agree on their first `n` positions.
proof fn lemma_sorted_orders_agree(ms: Seq<MemberModel>, p1: Seq<int>, p2: Seq<int>, n: int)
    requires
        sorted_order(ms, p1),
        sorted_order(ms, p2),
        0 <= n <= ms.len(),
    ensures
        forall|k: int| 0 <= k < n ==> p1[k] == p2[k],
    decreases n,
{
    if n > 0 {
        let i = n - 1;
        lemma_sorted_orders_agree(ms, p1, p2, i);
        let x = p1[i];
        let y = p2[i];
        if x != y {
            lemma_sorted_order_covers(ms, p2, x);
            lemma_sorted_order_covers(ms, p1, y);
            let j = choose|j: int| 0 <= j < p2.len() && p2[j] == x;
            let j2 = choose|j: int| 0 <= j < p1.len() && p1[j] == y;
            if j < i {
                assert(p1[j] == x);
                lemma_comes_before_order(ms, p1[j], p1[i], p1[i]);
            }
            if j2 < i {
                assert(p2[j2] == y);
                lemma_comes_before_order(ms, p2[j2], p2[i], p2[i]);
            }
            assert(comes_before(ms, p2[i], p2[j]));
            assert(comes_before(ms, p1[i], p1[j2]));
            lemma_comes_before_order(ms, x, y, y);
        }
    }
}

/// The stable sort of a list of members is unique.
pub proof fn lemma_sorted_order_unique(ms: Seq<MemberModel>, p1: Seq<int>, p2: Seq<int>)
    requires
        sorted_order(ms, p1),
        sorted_order(ms, p2),
    ensures
        p1 == p2,
{
    lemma_sorted_orders_agree(ms, p1, p2, ms.len() as int);
    assert(p1 =~= p2);
}

/// Two responses agree in every field: version, request, status, data version,
/// both axes, measures, cells, warnings and statistics.
pub open spec fn same_pivot(a: PivotResponse, b: PivotResponse) -> bool {
    &&& a.api_version@ == b.api_version@
    &&& a.request_id@ == b.request_id@
    &&& a.data_version@ == b.data_version@
    &&& a.status@ == b.status@
    &&& a.from_cache == b.from_cache
    &&& views(a.row_axis.fields@) == views(b.row_axis.fields@)
    &&& member_models(a.row_axis.members@) == member_models(b.row_axis.members@)
    &&& views(a.column_axis.fields@) == views(b.column_axis.fields@)
    &&& member_models(a.column_axis.members@) == member_models(b.column_axis.members@)
    &&& a.measures@.len() == b.measures@.len()
    &&& forall|i: int|
        0 <= i < a.measures@.len() ==> (#[trigger] a.measures@[i]).id@ == b.measures@[i].id@ && opt_view(
            a.measures@[i].format,
        ) == opt_view(b.measures@[i].format) && opt_view(a.measures@[i].value_type) == opt_view(
            b.measures@[i].value_type,
        )
    &&& a.cells@.len() == b.cells@.len()
    &&& forall|i: int|
        0 <= i < a.cells@.len() ==> (#[trigger] a.cells@[i]).r == b.cells@[i].r && a.cells@[i].c
            == b.cells@[i].c && a.cells@[i].m@ == b.cells@[i].m@ && a.cells@[i].v@ == b.cells@[i].v@
    &&& views(a.warnings@) == views(b.warnings@)
    &&& a.stats == b.stats
}

/// Shaping is deterministic: the same request, plan, sub-query results, engine
/// time and data version give the same pivot, in every field.
pub proof fn lemma_shape_deterministic(
    a: PivotResponse,
    b: PivotResponse,
    request_id: Seq<char>,
    p: PlanView,
    subs: Seq<SubQueryRows>,
    engine_ms: u64,
    data_version: Seq<char>,
)
    requires
        is_shaped(a, request_id, p, subs, engine_ms),
        a.data_version@ == data_version,
        is_shaped(b, request_id, p, subs, engine_ms),
        b.data_version@ == data_version,
    ensures
        same_pivot(a, b),
{
    let es = entries(subs);
    let cm = col_members(p, es);
    let oa = choose|order: Seq<int>| #[trigger] columns_in_order(a.column_axis.members@, a.cells@, p, es, order);
    let ob = choose|order: Seq<int>| #[trigger] columns_in_order(b.column_axis.members@, b.cells@, p, es, order);
    lemma_sorted_order_unique(cm, oa, ob);
    assert(member_models(a.column_axis.members@) =~= member_models(b.column_axis.members@)) by {
        assert forall|i: int| 0 <= i < a.column_axis.members@.len() implies a.column_axis.members@[i]@
            == b.column_axis.members@[i]@ by {
            assert(a.column_axis.members@[i]@ == cm[oa[i]]);
            assert(b.column_axis.members@[i]@ == cm[ob[i]]);
        }
    }
    let raw = raw_cells(p, es);
    assert forall|i: int| 0 <= i < a.cells@.len() implies (#[trigger] a.cells@[i]).r == b.cells@[i].r
        && a.cells@[i].c == b.cells@[i].c && a.cells@[i].m@ == b.cells@[i].m@ && a.cells@[i].v@
        == b.cells@[i].v@ by {
        let ca = a.cells@[i].c as int;
        let cb = b.cells@[i].c as int;
        assert(oa[ca] == raw[i].c);
        assert(oa[cb] == raw[i].c);
        if ca != cb {
            if ca < cb {
                lemma_comes_before_order(cm, oa[ca], oa[cb], oa[cb]);
            } else {
                lemma_comes_before_order(cm, oa[cb], oa[ca], oa[ca]);
            }
        }
    }
    assert(views(a.warnings@) =~= views(b.warnings@));
    assert(views(a.row_axis.fields@) == views(b.row_axis.fields@));
}

} // verus!

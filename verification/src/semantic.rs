//! Semantic model: the model configuration, its lookups and validation helpers,
//! its metadata, and the store of loaded models.

use vstd::prelude::*;

use crate::text::{chars_lt, lemma_chars_lt_strict_total, str_eq, str_lt, string_of, views};
use crate::types::{
    agg_name, AggType, DimensionMeta, GuardsMeta, MeasureMetaModel, ModelMetadata, ModelSummary,
};

verus! {

// ── Model configuration ───────────────────────────────────────────────────────
/// A semantic model as a model file declares it.
#[derive(Debug, Clone)]
pub struct ModelConfig {
    pub id: String,
    pub label: Option<String>,
    pub source: SourceConfig,
    pub dimensions: Vec<DimensionConfig>,
    pub measures: Vec<MeasureConfig>,
    pub filterable_fields: Vec<String>,
    pub guards: GuardsConfig,
}

/// Where the model's rows live.
#[derive(Debug, Clone)]
pub struct SourceConfig {
    /// ClickHouse table name (optionally qualified: `db.table`).
    pub table: String,
}

/// A dimension of the model.
#[derive(Debug, Clone)]
pub struct DimensionConfig {
    pub field: String,
    pub label: Option<String>,
    pub dim_type: String,
    pub hierarchy: Vec<String>,
}

/// The dimension type a model file gets when it names none.
pub fn default_dim_type() -> (r: String)
    ensures
        r@ == "categorical"@,
{
    string_of("categorical")
}

/// A measure of the model.
#[derive(Debug, Clone)]
pub struct MeasureConfig {
    pub id: String,
    pub field: String,
    pub label: Option<String>,
    pub allowed_agg: Vec<String>,
    pub additive: bool,
    pub format: Option<String>,
}

/// The additivity a measure gets when the model file names none.
pub fn default_true() -> (r: bool)
    ensures
        r,
{
    true
}

/// Query guards of the model.
#[derive(Debug, Clone, Default)]
pub struct GuardsConfig {
    pub max_groups: u64,
    pub high_cardinality_fields: Vec<String>,
}

/// The group limit a `[guards]` section gets when it names none.
pub fn default_max_groups() -> (r: u64)
    ensures
        r == 200_000,
{
    200_000
}

// ── Lookups ───────────────────────────────────────────────────────────────────
/// The last dimension of `dims` declared for `field` (a later declaration replaces
/// an earlier one).
pub open spec fn last_dimension(dims: Seq<DimensionConfig>, field: Seq<char>) -> Option<
    DimensionConfig,
>
    decreases dims.len(),
{
    if dims.len() == 0 {
        None
    } else if dims.last().field@ == field {
        Some(dims.last())
    } else {
        last_dimension(dims.drop_last(), field)
    }
}

/// The last measure of `measures` declared with `id`.
pub open spec fn last_measure(measures: Seq<MeasureConfig>, id: Seq<char>) -> Option<MeasureConfig>
    decreases measures.len(),
{
    if measures.len() == 0 {
        None
    } else if measures.last().id@ == id {
        Some(measures.last())
    } else {
        last_measure(measures.drop_last(), id)
    }
}

/// The view of an optional string.
pub open spec fn opt_view(o: Option<String>) -> Option<Seq<char>> {
    match o {
        Some(s) => Some(s@),
        None => None,
    }
}

/// `m` is the metadata of dimension `d`.
pub open spec fn dimension_meta_of(m: DimensionMeta, d: DimensionConfig) -> bool {
    &&& m.field@ == d.field@
    &&& opt_view(m.label) == opt_view(d.label)
    &&& m.dim_type@ == d.dim_type@
    &&& if d.hierarchy@.len() == 0 {
        m.hierarchy is None
    } else {
        m.hierarchy matches Some(h) && views(h@) == views(d.hierarchy@)
    }
}

/// `m` is the metadata of measure `c`.
pub open spec fn measure_meta_of(m: MeasureMetaModel, c: MeasureConfig) -> bool {
    &&& m.id@ == c.id@
    &&& m.field@ == c.field@
    &&& opt_view(m.label) == opt_view(c.label)
    &&& views(m.allowed_agg@) == views(c.allowed_agg@)
    &&& m.additive == c.additive
    &&& opt_view(m.format) == opt_view(c.format)
}

/// `m` is the metadata of the model configured by `c`.
pub open spec fn metadata_of(m: ModelMetadata, c: ModelConfig) -> bool {
    &&& m.model_id@ == c.id@
    &&& opt_view(m.label) == opt_view(c.label)
    &&& m.dimensions@.len() == c.dimensions@.len()
    &&& forall|i: int|
        0 <= i < c.dimensions@.len() ==> dimension_meta_of(
            #[trigger] m.dimensions@[i],
            c.dimensions@[i],
        )
    &&& m.measures@.len() == c.measures@.len()
    &&& forall|i: int|
        0 <= i < c.measures@.len() ==> measure_meta_of(#[trigger] m.measures@[i], c.measures@[i])
    &&& views(m.filterable_fields@) == views(c.filterable_fields@)
    &&& m.guards.max_groups == c.guards.max_groups
    &&& views(m.guards.high_cardinality_fields@) == views(c.guards.high_cardinality_fields@)
}

/// A copy of an optional string.
pub fn copy_opt_string(o: &Option<String>) -> (r: Option<String>)
    ensures
        opt_view(r) == opt_view(*o),
{
    match o {
        Some(s) => Some(s.clone()),
        None => None,
    }
}

/// A copy of a list of strings.
pub fn copy_strings(v: &Vec<String>) -> (r: Vec<String>)
    ensures
        views(r@) == views(v@),
{
    let mut r: Vec<String> = Vec::new();
    let mut i: usize = 0;
    while i < v.len()
        invariant
            i <= v.len(),
            r@.len() == i,
            forall|j: int| 0 <= j < i ==> #[trigger] r@[j]@ == v@[j]@,
        decreases v.len() - i,
    {
        r.push(v[i].clone());
        i = i + 1;
    }
    assert(views(r@) =~= views(v@));
    r
}

/// Whether `v` holds a string equal to `s`.
pub fn strings_contain(v: &Vec<String>, s: &str) -> (r: bool)
    ensures
        r == views(v@).contains(s@),
{
    let mut i: usize = 0;
    while i < v.len()
        invariant
            i <= v.len(),
            forall|j: int| 0 <= j < i ==> #[trigger] v@[j]@ != s@,
        decreases v.len() - i,
    {
        if str_eq(v[i].as_str(), s) {
            assert(views(v@)[i as int] == s@);
            return true;
        }
        i = i + 1;
    }
    assert forall|j: int| 0 <= j < views(v@).len() implies views(v@)[j] != s@ by {
        assert(views(v@)[j] == v@[j]@);
    }
    false
}

// ── SemanticModel ─────────────────────────────────────────────────────────────
/// A loaded semantic model. Lookups by field or id find the last declaration.
#[derive(Debug, Clone)]
pub struct SemanticModel {
    pub config: ModelConfig,
}

impl SemanticModel {
    /// The dimension declared for `field`.
    pub open spec fn spec_dimension(&self, field: Seq<char>) -> Option<DimensionConfig> {
        last_dimension(self.config.dimensions@, field)
    }

    /// The measure declared with `id`.
    pub open spec fn spec_measure(&self, id: Seq<char>) -> Option<MeasureConfig> {
        last_measure(self.config.measures@, id)
    }

    /// Whether `field` may be used in a filter.
    pub open spec fn spec_filterable(&self, field: Seq<char>) -> bool {
        views(self.config.filterable_fields@).contains(field) || self.spec_dimension(field) is Some
    }

    pub fn new(config: ModelConfig) -> (m: Self)
        ensures
            m.config == config,
    {
        SemanticModel { config }
    }

    pub fn id(&self) -> (r: &str)
        ensures
            r@ == self.config.id@,
    {
        self.config.id.as_str()
    }

    pub fn table(&self) -> (r: &str)
        ensures
            r@ == self.config.source.table@,
    {
        self.config.source.table.as_str()
    }

    pub fn dimension(&self, field: &str) -> (r: Option<&DimensionConfig>)
        ensures
            match r {
                Some(d) => self.spec_dimension(field@) == Some(*d),
                None => self.spec_dimension(field@) is None,
            },
    {
        let dims = &self.config.dimensions;
        let mut i: usize = dims.len();
        assert(dims@.take(dims@.len() as int) =~= dims@);
        while i > 0
            invariant
                i <= dims.len(),
                dims@ == self.config.dimensions@,
                last_dimension(dims@, field@) == last_dimension(dims@.take(i as int), field@),
            decreases i,
        {
            assert(dims@.take(i as int).drop_last() =~= dims@.take(i - 1));
            if str_eq(dims[i - 1].field.as_str(), field) {
                assert(dims@.take(i as int).last() == dims@[i - 1]);
                assert(dims@.take(i as int).len() == i);
                assert(last_dimension(dims@.take(i as int), field@) == Some(dims@[i - 1]));
                return Some(&dims[i - 1]);
            }
            i = i - 1;
        }
        None
    }

    pub fn measure(&self, id: &str) -> (r: Option<&MeasureConfig>)
        ensures
            match r {
                Some(m) => self.spec_measure(id@) == Some(*m),
                None => self.spec_measure(id@) is None,
            },
    {
        let ms = &self.config.measures;
        let mut i: usize = ms.len();
        assert(ms@.take(ms@.len() as int) =~= ms@);
        while i > 0
            invariant
                i <= ms.len(),
                ms@ == self.config.measures@,
                last_measure(ms@, id@) == last_measure(ms@.take(i as int), id@),
            decreases i,
        {
            assert(ms@.take(i as int).drop_last() =~= ms@.take(i - 1));
            if str_eq(ms[i - 1].id.as_str(), id) {
                assert(ms@.take(i as int).last() == ms@[i - 1]);
                assert(ms@.take(i as int).len() == i);
                assert(last_measure(ms@.take(i as int), id@) == Some(ms@[i - 1]));
                return Some(&ms[i - 1]);
            }
            i = i - 1;
        }
        None
    }

    /// Check whether `field` is allowed as a dimension (in rows/columns).
    pub fn validate_dimension_field(&self, field: &str) -> (r: bool)
        ensures
            r == self.spec_dimension(field@) is Some,
    {
        self.dimension(field).is_some()
    }

    /// Check whether `field` is allowed in filters.
    pub fn validate_filter_field(&self, field: &str) -> (r: bool)
        ensures
            r == self.spec_filterable(field@),
    {
        strings_contain(&self.config.filterable_fields, field) || self.dimension(field).is_some()
    }

    /// Check whether `agg` is allowed for measure `id`.
    pub fn validate_measure_agg(&self, id: &str, agg: &AggType) -> (r: bool)
        ensures
            r == match self.spec_measure(id@) {
                Some(m) => views(m.allowed_agg@).contains(agg_name(*agg)),
                None => false,
            },
    {
        match self.measure(id) {
            Some(m) => strings_contain(&m.allowed_agg, agg.name()),
            None => false,
        }
    }

    pub fn guards(&self) -> (r: &GuardsConfig)
        ensures
            *r == self.config.guards,
    {
        &self.config.guards
    }

    /// Convert to API metadata type.
    pub fn to_metadata(&self) -> (r: ModelMetadata)
        ensures
            metadata_of(r, self.config),
    {
        let c = &self.config;
        let mut dimensions: Vec<DimensionMeta> = Vec::new();
        let mut i: usize = 0;
        while i < c.dimensions.len()
            invariant
                i <= c.dimensions.len(),
                dimensions@.len() == i,
                forall|j: int|
                    0 <= j < i ==> dimension_meta_of(#[trigger] dimensions@[j], c.dimensions@[j]),
            decreases c.dimensions.len() - i,
        {
            let d = &c.dimensions[i];
            let hierarchy = if d.hierarchy.len() == 0 {
                None
            } else {
                Some(copy_strings(&d.hierarchy))
            };
            dimensions.push(
                DimensionMeta {
                    field: d.field.clone(),
                    label: copy_opt_string(&d.label),
                    dim_type: d.dim_type.clone(),
                    hierarchy,
                },
            );
            i = i + 1;
        }
        let mut measures: Vec<MeasureMetaModel> = Vec::new();
        let mut k: usize = 0;
        while k < c.measures.len()
            invariant
                k <= c.measures.len(),
                measures@.len() == k,
                forall|j: int|
                    0 <= j < k ==> measure_meta_of(#[trigger] measures@[j], c.measures@[j]),
            decreases c.measures.len() - k,
        {
            let m = &c.measures[k];
            measures.push(
                MeasureMetaModel {
                    id: m.id.clone(),
                    field: m.field.clone(),
                    label: copy_opt_string(&m.label),
                    allowed_agg: copy_strings(&m.allowed_agg),
                    additive: m.additive,
                    format: copy_opt_string(&m.format),
                },
            );
            k = k + 1;
        }
        ModelMetadata {
            model_id: c.id.clone(),
            label: copy_opt_string(&c.label),
            dimensions,
            measures,
            filterable_fields: copy_strings(&c.filterable_fields),
            guards: GuardsMeta {
                max_groups: c.guards.max_groups,
                high_cardinality_fields: copy_strings(&c.guards.high_cardinality_fields),
            },
        }
    }

    pub fn to_summary(&self) -> (r: ModelSummary)
        ensures
            r.model_id@ == self.config.id@,
            opt_view(r.label) == opt_view(self.config.label),
    {
        ModelSummary { model_id: self.config.id.clone(), label: copy_opt_string(&self.config.label) }
    }
}

// ── ModelStore ────────────────────────────────────────────────────────────────
/// The models ordered by strictly increasing id.
pub open spec fn ids_increasing(s: Seq<SemanticModel>) -> bool {
    forall|i: int, j: int|
        0 <= i < j < s.len() ==> chars_lt(#[trigger] s[i].config.id@, #[trigger] s[j].config.id@)
}

/// The model of `s` whose id is `id`.
pub open spec fn find_model(s: Seq<SemanticModel>, id: Seq<char>) -> Option<SemanticModel>
    decreases s.len(),
{
    if s.len() == 0 {
        None
    } else if s.last().config.id@ == id {
        Some(s.last())
    } else {
        find_model(s.drop_last(), id)
    }
}

/// The loaded models, one per id.
#[derive(Debug)]
pub struct ModelStore {
    models: Vec<SemanticModel>,
}

impl ModelStore {
    #[verifier::type_invariant]
    spec fn well_formed(self) -> bool {
        ids_increasing(self.models@)
    }

    /// The models of the store in increasing order of id.
    pub closed spec fn entries(&self) -> Seq<SemanticModel> {
        self.models@
    }

    /// The model stored under `id`.
    pub open spec fn spec_get(&self, id: Seq<char>) -> Option<SemanticModel> {
        find_model(self.entries(), id)
    }

    pub fn new() -> (s: Self)
        ensures
            s.entries().len() == 0,
            ids_increasing(s.entries()),
            forall|id: Seq<char>| s.spec_get(id) is None,
    {
        ModelStore { models: Vec::new() }
    }

    /// Stores `model` under its id, replacing the model stored under that id.
    pub fn insert_model(&mut self, model: SemanticModel)
        ensures
            ids_increasing(final(self).entries()),
            final(self).spec_get(model.config.id@) == Some(model),
            forall|id: Seq<char>|
                id != model.config.id@ ==> #[trigger] final(self).spec_get(id) == old(
                    self,
                ).spec_get(id),
    {
        proof {
            use_type_invariant(&*self);
        }
        let ghost id = model.config.id@;
        let ghost old_models = self.models@;
        let mut i: usize = 0;
        while i < self.models.len() && str_lt(self.models[i].config.id.as_str(), model.config.id.as_str())
            invariant
                self.models@ == old_models,
                id == model.config.id@,
                ids_increasing(old_models),
                i <= old_models.len(),
                forall|j: int| 0 <= j < i ==> chars_lt(#[trigger] old_models[j].config.id@, id),
            decreases old_models.len() - i,
        {
            i = i + 1;
        }
        let replace = i < self.models.len() && str_eq(self.models[i].config.id.as_str(), model.config.id.as_str());
        let mut models = Vec::new();
        std::mem::swap(&mut models, &mut self.models);
        if replace {
            models.set(i, model);
        } else {
            models.insert(i, model);
        }
        proof {
            lemma_after_insert(old_models, models@, model, i as int, replace);
        }
        self.models = models;
    }

    pub fn get(&self, id: &str) -> (r: Option<&SemanticModel>)
        ensures
            match r {
                Some(m) => self.spec_get(id@) == Some(*m),
                None => self.spec_get(id@) is None,
            },
    {
        let ms = &self.models;
        let mut i: usize = ms.len();
        assert(ms@.take(ms@.len() as int) =~= ms@);
        while i > 0
            invariant
                i <= ms.len(),
                ms@ == self.models@,
                find_model(ms@, id@) == find_model(ms@.take(i as int), id@),
            decreases i,
        {
            assert(ms@.take(i as int).drop_last() =~= ms@.take(i - 1));
            if str_eq(ms[i - 1].config.id.as_str(), id) {
                assert(ms@.take(i as int).last() == ms@[i - 1]);
                assert(ms@.take(i as int).len() == i);
                assert(find_model(ms@.take(i as int), id@) == Some(ms@[i - 1]));
                return Some(&ms[i - 1]);
            }
            i = i - 1;
        }
        None
    }

    /// The summaries of all models, ordered by id.
    pub fn list(&self) -> (r: Vec<ModelSummary>)
        ensures
            r@.len() == self.entries().len(),
            forall|i: int|
                0 <= i < r@.len() ==> (#[trigger] r@[i]).model_id@ == self.entries()[i].config.id@
                    && opt_view(r@[i].label) == opt_view(self.entries()[i].config.label),
            forall|i: int, j: int|
                0 <= i < j < r@.len() ==> chars_lt(#[trigger] r@[i].model_id@, #[trigger] r@[j].model_id@),
            forall|id: Seq<char>|
                #[trigger] self.spec_get(id) is Some <==> exists|i: int|
                    0 <= i < r@.len() && (#[trigger] r@[i]).model_id@ == id,
    {
        proof {
            use_type_invariant(self);
        }
        let mut r: Vec<ModelSummary> = Vec::new();
        let mut i: usize = 0;
        while i < self.models.len()
            invariant
                i <= self.models.len(),
                r@.len() == i,
                ids_increasing(self.models@),
                forall|j: int|
                    0 <= j < i ==> (#[trigger] r@[j]).model_id@ == self.models@[j].config.id@
                        && opt_view(r@[j].label) == opt_view(self.models@[j].config.label),
            decreases self.models.len() - i,
        {
            r.push(self.models[i].to_summary());
            i = i + 1;
        }
        assert forall|a: int, b: int| 0 <= a < b < r@.len() implies chars_lt(
            #[trigger] r@[a].model_id@,
            #[trigger] r@[b].model_id@,
        ) by {
            assert(chars_lt(self.models@[a].config.id@, self.models@[b].config.id@));
        }
        assert forall|id: Seq<char>| #[trigger] self.spec_get(id) is Some <==> exists|i: int|
            0 <= i < r@.len() && (#[trigger] r@[i]).model_id@ == id by {
            if exists|i: int| 0 <= i < r@.len() && (#[trigger] r@[i]).model_id@ == id {
                let i = choose|i: int| 0 <= i < r@.len() && (#[trigger] r@[i]).model_id@ == id;
                lemma_find_model_sorted_at(self.models@, id, i);
            } else {
                assert forall|j: int| 0 <= j < self.models@.len() implies #[trigger] self.models@[j].config.id@
                    != id by {
                    assert(r@[j].model_id@ == self.models@[j].config.id@);
                }
                lemma_find_model_absent(self.models@, id);
            }
        }
        r
    }
}

/// `find_model` finds nothing where no entry has the id.
proof fn lemma_find_model_absent(s: Seq<SemanticModel>, id: Seq<char>)
    requires
        forall|j: int| 0 <= j < s.len() ==> #[trigger] s[j].config.id@ != id,
    ensures
        find_model(s, id) is None,
    decreases s.len(),
{
    if s.len() > 0 {
        assert(s.last() == s[s.len() - 1]);
        assert forall|j: int| 0 <= j < s.drop_last().len() implies #[trigger] s.drop_last()[j].config.id@ != id by {
            assert(s.drop_last()[j] == s[j]);
        }
        lemma_find_model_absent(s.drop_last(), id);
    }
}

/// `find_model` finds the last entry with the id.
proof fn lemma_find_model_at(s: Seq<SemanticModel>, id: Seq<char>, k: int)
    requires
        0 <= k < s.len(),
        s[k].config.id@ == id,
        forall|j: int| k < j < s.len() ==> #[trigger] s[j].config.id@ != id,
    ensures
        find_model(s, id) == Some(s[k]),
    decreases s.len(),
{
    assert(s.last() == s[s.len() - 1]);
    if k < s.len() - 1 {
        assert forall|j: int| k < j < s.drop_last().len() implies #[trigger] s.drop_last()[j].config.id@ != id by {
            assert(s.drop_last()[j] == s[j]);
        }
        assert(s.drop_last()[k] == s[k]);
        lemma_find_model_at(s.drop_last(), id, k);
    }
}

/// In a store ordered by id, the entry with the id is the one `find_model` finds.
proof fn lemma_find_model_sorted_at(s: Seq<SemanticModel>, id: Seq<char>, k: int)
    requires
        ids_increasing(s),
        0 <= k < s.len(),
        s[k].config.id@ == id,
    ensures
        find_model(s, id) == Some(s[k]),
{
    assert forall|j: int| k < j < s.len() implies #[trigger] s[j].config.id@ != id by {
        assert(chars_lt(s[k].config.id@, s[j].config.id@));
        lemma_chars_lt_strict_total(id, id, id);
    }
    lemma_find_model_at(s, id, k);
}

/// Replacing or inserting at the position where the id belongs keeps the store
/// ordered and changes the entry under that id only.
proof fn lemma_after_insert(
    old_s: Seq<SemanticModel>,
    new_s: Seq<SemanticModel>,
    model: SemanticModel,
    i: int,
    replace: bool,
)
    requires
        ids_increasing(old_s),
        0 <= i <= old_s.len(),
        forall|j: int| 0 <= j < i ==> chars_lt(#[trigger] old_s[j].config.id@, model.config.id@),
        i < old_s.len() ==> !chars_lt(old_s[i].config.id@, model.config.id@),
        replace == (i < old_s.len() && old_s[i].config.id@ == model.config.id@),
        replace ==> new_s == old_s.update(i, model),
        !replace ==> new_s == old_s.insert(i, model),
    ensures
        ids_increasing(new_s),
        find_model(new_s, model.config.id@) == Some(model),
        forall|id: Seq<char>|
            id != model.config.id@ ==> #[trigger] find_model(new_s, id) == find_model(old_s, id),
{
    let mid = model.config.id@;
    if !replace && i < old_s.len() {
        lemma_chars_lt_strict_total(old_s[i].config.id@, mid, mid);
        assert(chars_lt(mid, old_s[i].config.id@));
    }
    assert forall|a: int, b: int| 0 <= a < b < new_s.len() implies chars_lt(
        #[trigger] new_s[a].config.id@,
        #[trigger] new_s[b].config.id@,
    ) by {
        let x = new_s[a].config.id@;
        let y = new_s[b].config.id@;
        if replace {
            if a == i {
                lemma_chars_lt_strict_total(mid, old_s[i].config.id@, y);
            } else if b == i {
                assert(chars_lt(x, mid));
            }
        } else {
            if a == i {
                assert(new_s[b] == old_s[b - 1]);
                if b - 1 > i {
                    lemma_chars_lt_strict_total(mid, old_s[i].config.id@, y);
                }
            } else if b == i {
                assert(new_s[a] == old_s[a]);
            } else if a > i {
                assert(new_s[a] == old_s[a - 1]);
                assert(new_s[b] == old_s[b - 1]);
            } else if b > i {
                assert(new_s[a] == old_s[a]);
                assert(new_s[b] == old_s[b - 1]);
                lemma_chars_lt_strict_total(x, mid, y);
                if b - 1 > i {
                    lemma_chars_lt_strict_total(mid, old_s[i].config.id@, y);
                }
            }
        }
    }
    assert(new_s[i] == model);
    lemma_find_model_sorted_at(new_s, mid, i);
    assert forall|id: Seq<char>| id != mid implies #[trigger] find_model(new_s, id) == find_model(
        old_s,
        id,
    ) by {
        if exists|j: int| 0 <= j < old_s.len() && #[trigger] old_s[j].config.id@ == id {
            let j0 = choose|j: int| 0 <= j < old_s.len() && #[trigger] old_s[j].config.id@ == id;
            let n0 = if replace || j0 < i { j0 } else { j0 + 1 };
            if replace && j0 == i {
                assert(false);
            }
            assert(new_s[n0] == old_s[j0]);
            lemma_find_model_sorted_at(old_s, id, j0);
            lemma_find_model_sorted_at(new_s, id, n0);
        } else {
            assert forall|j: int| 0 <= j < new_s.len() implies #[trigger] new_s[j].config.id@ != id by {
                if j != i {
                    let oj = if replace || j < i { j } else { j - 1 };
                    assert(new_s[j] == old_s[oj]);
                }
            }
            lemma_find_model_absent(old_s, id);
            lemma_find_model_absent(new_s, id);
        }
    }
}

} // verus!

//! Immutable metadata source evidence, indexed projections and explicit
//! reconciliation.
use crate::catalog_images::recorded_revision;
use crate::error::CatalogError;
use crate::lookups;
use crate::support;
use crate::support::{find, same};
use crate::tables;
use crate::tables::{Detail, EffectiveRow, HistoryRow, RevisionRow, Tables, TablesModel};
use vstd::prelude::*;

pub mod change_laws;
pub mod discovery;
pub mod discovery_laws;
pub mod documents;
pub mod edit;
pub mod edit_laws;
pub mod effects;
pub mod export_laws;
pub mod exports;
pub mod identity;
pub mod laws;
pub mod ownership;
pub mod prepared;
pub mod prepared_laws;
pub mod reconcile_laws;
pub mod scan;
pub mod scan_laws;
pub mod sources;
pub mod storage;
pub mod storage_laws;
pub mod store;
pub mod store_laws;
pub mod view_laws;
pub mod views;

verus! {

/// A value that a source offers for a field of an image.
#[derive(Clone, Debug)]
pub struct Candidate {
    pub model_id: i64,
    pub source_id: i64,
    pub source_kind: String,
    pub source_display: String,
    pub observation_id: i64,
    pub ambiguous: bool,
    pub value: String,
    pub semantic_hash: String,
}

/// What a `Candidate` stands for.
#[verifier::ext_equal]
pub struct CandidateModel {
    pub model_id: i64,
    pub source_id: i64,
    pub source_kind: Seq<char>,
    pub source_display: Seq<char>,
    pub observation_id: i64,
    pub ambiguous: bool,
    pub value: Seq<char>,
    pub semantic_hash: Seq<char>,
}

impl View for Candidate {
    type V = CandidateModel;

    open spec fn view(&self) -> CandidateModel {
        CandidateModel {
            model_id: self.model_id,
            source_id: self.source_id,
            source_kind: self.source_kind@,
            source_display: self.source_display@,
            observation_id: self.observation_id,
            ambiguous: self.ambiguous,
            value: self.value@,
            semantic_hash: self.semantic_hash@,
        }
    }
}

/// The candidate that a model's value is for an image. Evidence whose
/// association is ambiguous or whose inspection is not complete is marked.
pub open spec fn candidate_from(
    s: tables::SourceModel,
    a: tables::ImageSourceModel,
    o: tables::ObservationModel,
    m: tables::InterpretationModel,
    v: tables::ValueModel,
) -> CandidateModel {
    CandidateModel {
        model_id: m.id,
        source_id: s.id,
        source_kind: s.kind,
        source_display: s.display,
        observation_id: m.observation_id,
        ambiguous: a.association == "ambiguous"@ || o.status != "Complete"@,
        value: v.value,
        semantic_hash: v.semantic_hash,
    }
}

pub open spec fn candidate_of_model(model: i64) -> spec_fn(CandidateModel) -> bool {
    |c: CandidateModel| c.model_id == model
}

impl TablesModel {
    /// An image's use of a source together with the observation it uses.
    pub open spec fn usage(self, image: Seq<char>, source: i64) -> Option<
        (tables::ImageSourceModel, tables::ObservationModel),
    > {
        match self.image_source_at(image, source) {
            None => None,
            Some(a) => match self.image_sources[a].current_observation {
                None => None,
                Some(id) => match self.observation_at(id) {
                    None => None,
                    Some(o) => Some((self.image_sources[a], self.observations[o])),
                },
            },
        }
    }

    /// The candidates for a field among the first `n` models, where an image
    /// uses a source.
    pub open spec fn model_candidates(
        self,
        s: tables::SourceModel,
        a: tables::ImageSourceModel,
        o: tables::ObservationModel,
        field: Seq<char>,
        n: nat,
    ) -> Seq<CandidateModel>
        decreases n,
    {
        if n == 0 {
            Seq::empty()
        } else {
            let before = self.model_candidates(s, a, o, field, (n - 1) as nat);
            let m = self.models[n - 1];
            match self.value_at(m.id, field) {
                Some(v) if m.observation_id == o.id => before.push(
                    candidate_from(s, a, o, m, self.values[v]),
                ),
                _ => before,
            }
        }
    }

    /// The candidates for a field of an image among the first `n` sources.
    pub open spec fn source_candidates(
        self,
        image: Seq<char>,
        field: Seq<char>,
        n: nat,
    ) -> Seq<CandidateModel>
        decreases n,
    {
        if n == 0 {
            Seq::empty()
        } else {
            let before = self.source_candidates(image, field, (n - 1) as nat);
            let s = self.sources[n - 1];
            match self.usage(image, s.id) {
                Some((a, o)) => before + self.model_candidates(s, a, o, field, self.models.len()),
                None => before,
            }
        }
    }

    /// What the current sources of an image offer for a field, in the order of
    /// sources and of their models.
    pub open spec fn candidates_for(self, image: Seq<char>, field: Seq<char>) -> Seq<
        CandidateModel,
    > {
        self.source_candidates(image, field, self.sources.len())
    }

    /// The model chosen for a field of an image.
    pub open spec fn choice_of(self, image: Seq<char>, field: Seq<char>) -> Option<i64> {
        match self.choice_at(image, field) {
            Some(i) => Some(self.choices[i].model_id),
            None => None,
        }
    }

    /// A field of an image has a candidate or was decided.
    pub open spec fn relevant(self, image: Seq<char>, field: Seq<char>) -> bool {
        self.candidates_for(image, field).len() > 0 || self.choice_of(image, field) is Some
    }

    /// The value in effect for a field of an image: the chosen model's where a
    /// choice was made, otherwise the one all candidates agree on.
    pub open spec fn resolved(
        self,
        image: Seq<char>,
        field: Seq<char>,
    ) -> tables::EffectiveValue {
        let selected = selection(
            self.candidates_for(image, field),
            self.choice_of(image, field),
        );
        tables::EffectiveValue {
            value: match selected {
                Some(c) => Some(c.value),
                None => None,
            },
            conflicted: selected is None,
            model_id: match selected {
                Some(c) => Some(c.model_id),
                None => None,
            },
        }
    }

    /// The tables with the values in effect for an image derived anew.
    pub open spec fn rebuilt(self, image: Seq<char>) -> TablesModel {
        TablesModel {
            effective: Map::new(
                |k: (Seq<char>, Seq<char>)|
                    if k.0 == image {
                        self.relevant(image, k.1)
                    } else {
                        self.effective.contains_key(k)
                    },
                |k: (Seq<char>, Seq<char>)|
                    if k.0 == image {
                        self.resolved(image, k.1)
                    } else {
                        self.effective[k]
                    },
            ),
            ..self
        }
    }
}

/// Candidates that are all unambiguous and agree in value and meaning.
pub open spec fn agree(values: Seq<CandidateModel>) -> bool {
    values.len() > 0 && forall|i: int|
        0 <= i < values.len() ==> !(#[trigger] values[i]).ambiguous && values[i].value
            == values[0].value && values[i].semantic_hash == values[0].semantic_hash
}

/// The candidate that takes effect. A choice that no candidate matches any more
/// selects nothing rather than falling back.
pub open spec fn selection(values: Seq<CandidateModel>, choice: Option<i64>) -> Option<
    CandidateModel,
> {
    match choice {
        Some(model) => match support::first_where(values, candidate_of_model(model)) {
            Some(i) => Some(values[i]),
            None => None,
        },
        None => if agree(values) {
            Some(values[0])
        } else {
            None
        },
    }
}

/// The tables and the revision after a change of an image's metadata is
/// recorded.
pub open spec fn advance_outcome(
    m: TablesModel,
    image: Seq<char>,
    action: Seq<char>,
    detail: tables::DetailModel,
    affects_pixels: bool,
) -> Result<(TablesModel, i64), CatalogError> {
    match m.image_at(image) {
        None => Err(CatalogError::AssetNotFound),
        Some(i) => if m.asset_at(m.images[i].asset_id) is None {
            Err(CatalogError::AssetNotFound)
        } else if m.revision_of(image) == i64::MAX || m.history_high == i64::MAX || (affects_pixels
            && (m.images[i].pixel_generation == i64::MAX || (m.asset_at(image) matches Some(a)
            && m.assets[a].render_generation == i64::MAX))) {
            Err(CatalogError::Exhausted)
        } else {
            let next = (m.revision_of(image) + 1) as i64;
            let row = m.images[i];
            Ok(
                (
                    TablesModel {
                        revisions: support::put(
                            m.revisions,
                            lookups::revision_for(image),
                            tables::RevisionModel { image_id: image, revision: next },
                        ),
                        history: m.history.push(
                            tables::HistoryModel {
                                id: (m.history_high + 1) as i64,
                                image_id: image,
                                revision: next,
                                action,
                                detail,
                                created_at: m.clock,
                            },
                        ),
                        history_high: (m.history_high + 1) as i64,
                        images: if affects_pixels {
                            m.images.update(
                                i,
                                tables::ImageModel {
                                    pixel_generation: (row.pixel_generation + 1) as i64,
                                    ..row
                                },
                            )
                        } else {
                            m.images
                        },
                        assets: match m.asset_at(image) {
                            Some(a) if affects_pixels => m.assets.update(
                                a,
                                tables::AssetModel {
                                    render_generation: (m.assets[a].render_generation + 1) as i64,
                                    ..m.assets[a]
                                },
                            ),
                            _ => m.assets,
                        },
                        ..m
                    },
                    next,
                ),
            )
        },
    }
}

/// Records a change of an image's metadata and gives the new revision. A change
/// that may affect pixels also makes renderings of the image stale.
pub fn advance(
    db: &mut Tables,
    image: &str,
    action: &str,
    detail: Detail,
    affects_pixels: bool,
) -> (r: Result<i64, CatalogError>)
    ensures
        match advance_outcome(old(db)@, image@, action@, detail@, affects_pixels) {
            Ok((after, next)) => r == Ok::<i64, CatalogError>(next) && final(db)@ == after,
            Err(e) => r == Err::<i64, CatalogError>(e) && *final(db) == *old(db),
        },
{
    let i: usize = match db.find_image_at(image) {
        None => return Err(CatalogError::AssetNotFound),
        Some(i) => i,
    };
    if db.find_asset_at(db.images[i].asset_id.as_str()).is_none() {
        return Err(CatalogError::AssetNotFound);
    }
    let revision: i64 = recorded_revision(db, image);
    let master: Option<usize> = db.find_asset_at(image);
    if revision == i64::MAX || db.history_high == i64::MAX {
        return Err(CatalogError::Exhausted);
    }
    if affects_pixels {
        if db.images[i].pixel_generation == i64::MAX {
            return Err(CatalogError::Exhausted);
        }
        if let Some(a) = master {
            if db.assets[a].render_generation == i64::MAX {
                return Err(CatalogError::Exhausted);
            }
        }
    }
    let next: i64 = revision + 1;
    let row: RevisionRow = RevisionRow { image_id: image.to_owned(), revision: next };
    match db.find_revision_at(image) {
        Some(k) => db.revisions.set(k, row),
        None => db.revisions.push(row),
    }
    db.history_high = db.history_high + 1;
    db.history.push(
        HistoryRow {
            id: db.history_high,
            image_id: image.to_owned(),
            revision: next,
            action: action.to_owned(),
            detail,
            created_at: db.clock.clone(),
        },
    );
    if affects_pixels {
        db.images[i].pixel_generation = db.images[i].pixel_generation + 1;
        if let Some(a) = master {
            db.assets[a].render_generation = db.assets[a].render_generation + 1;
        }
    }
    assert(db@ =~= advance_outcome(old(db)@, image@, action@, detail@, affects_pixels)->Ok_0.0);
    Ok(next)
}

fn add_model_candidates(
    db: &Tables,
    s: usize,
    a: usize,
    o: usize,
    field: &str,
    values: &mut Vec<Candidate>,
)
    requires
        s < db.sources@.len(),
        a < db.image_sources@.len(),
        o < db.observations@.len(),
    ensures
        support::models(final(values)@) == support::models(old(values)@) + db@.model_candidates(
            db.sources@[s as int]@,
            db.image_sources@[a as int]@,
            db.observations@[o as int]@,
            field@,
            db.models@.len(),
        ),
{
    let ghost before = support::models(values@);
    let ghost source = db.sources@[s as int]@;
    let ghost usage = db.image_sources@[a as int]@;
    let ghost observation = db.observations@[o as int]@;
    let id: i64 = db.observations[o].id;
    let ambiguous: bool = same(db.image_sources[a].association.as_str(), "ambiguous") || !same(
        db.observations[o].status.as_str(),
        "Complete",
    );
    let mut j: usize = 0;
    assert(support::models(values@) =~= before + db@.model_candidates(
        source,
        usage,
        observation,
        field@,
        0,
    ));
    while j < db.models.len()
        invariant
            j <= db.models@.len(),
            s < db.sources@.len(),
            source == db.sources@[s as int]@,
            observation.id == id,
            ambiguous == (usage.association == "ambiguous"@ || observation.status != "Complete"@),
            support::models(values@) == before + db@.model_candidates(
                source,
                usage,
                observation,
                field@,
                j as nat,
            ),
        decreases db.models@.len() - j,
    {
        let ghost so_far = support::models(values@);
        assert(db@.models[j as int] == db.models@[j as int]@);
        if db.models[j].observation_id == id {
            match db.find_value_at(db.models[j].id, field) {
                None => {},
                Some(v) => {
                    let candidate: Candidate = Candidate {
                        model_id: db.models[j].id,
                        source_id: db.sources[s].id,
                        source_kind: db.sources[s].kind.clone(),
                        source_display: db.sources[s].display.clone(),
                        observation_id: db.models[j].observation_id,
                        ambiguous,
                        value: db.values[v].value.clone(),
                        semantic_hash: db.values[v].semantic_hash.clone(),
                    };
                    assert(db@.values[v as int] == db.values@[v as int]@);
                    assert(candidate@ == candidate_from(
                        source,
                        usage,
                        observation,
                        db@.models[j as int],
                        db@.values[v as int],
                    ));
                    values.push(candidate);
                    assert(support::models(values@) =~= so_far.push(candidate@));
                },
            }
        }
        j += 1;
        assert(support::models(values@) =~= before + db@.model_candidates(
            source,
            usage,
            observation,
            field@,
            j as nat,
        ));
    }
}

/// What the current sources of an image offer for a field.
pub fn candidates(db: &Tables, image: &str, field: &str) -> (values: Vec<Candidate>)
    ensures
        support::models(values@) == db@.candidates_for(image@, field@),
{
    let mut values: Vec<Candidate> = Vec::new();
    let mut s: usize = 0;
    assert(support::models(values@) =~= db@.source_candidates(image@, field@, 0));
    while s < db.sources.len()
        invariant
            s <= db.sources@.len(),
            support::models(values@) == db@.source_candidates(image@, field@, s as nat),
        decreases db.sources@.len() - s,
    {
        assert(db@.sources[s as int] == db.sources@[s as int]@);
        if let Some(a) = db.find_image_source_at(image, db.sources[s].id) {
            assert(db@.image_sources[a as int] == db.image_sources@[a as int]@);
            if let Some(current) = db.image_sources[a].current_observation {
                if let Some(o) = db.find_observation_at(current) {
                    assert(db@.observations[o as int] == db.observations@[o as int]@);
                    add_model_candidates(db, s, a, o, field, &mut values);
                }
            }
        }
        s += 1;
    }
    values
}

fn select(values: &Vec<Candidate>, choice: Option<i64>) -> (r: Option<usize>)
    ensures
        match r {
            Some(i) => i < values@.len() && selection(support::models(values@), choice) == Some(
                values@[i as int]@,
            ),
            None => selection(support::models(values@), choice) is None,
        },
{
    match choice {
        Some(model) => {
            let test = |c: &Candidate| -> (b: bool)
                ensures b == candidate_of_model(model)(c@)
            {
                c.model_id == model
            };
            find(values, test, Ghost(candidate_of_model(model)))
        },
        None => {
            if values.len() == 0 {
                return None;
            }
            let ghost all = support::models(values@);
            assert(all[0] == values@[0]@);
            let mut i: usize = 0;
            while i < values.len()
                invariant
                    i <= values@.len(),
                    values@.len() > 0,
                    choice is None,
                    all == support::models(values@),
                    all[0] == values@[0]@,
                    forall|j: int|
                        0 <= j < i ==> !(#[trigger] all[j]).ambiguous && all[j].value
                            == all[0].value && all[j].semantic_hash == all[0].semantic_hash,
                decreases values@.len() - i,
            {
                assert(all[i as int] == values@[i as int]@);
                if values[i].ambiguous || !same(values[i].value.as_str(), values[0].value.as_str())
                    || !same(
                    values[i].semantic_hash.as_str(),
                    values[0].semantic_hash.as_str(),
                ) {
                    return None;
                }
                i += 1;
            }
            Some(0)
        },
    }
}

proof fn lemma_model_candidates_have_values(
    m: TablesModel,
    s: tables::SourceModel,
    a: tables::ImageSourceModel,
    o: tables::ObservationModel,
    field: Seq<char>,
    n: nat,
)
    requires
        m.model_candidates(s, a, o, field, n).len() > 0,
        n <= m.models.len(),
    ensures
        exists|k: int| 0 <= k < m.values.len() && (#[trigger] m.values[k]).field == field,
    decreases n,
{
    let model = m.models[n - 1];
    if m.model_candidates(s, a, o, field, (n - 1) as nat).len() > 0 {
        lemma_model_candidates_have_values(m, s, a, o, field, (n - 1) as nat);
    } else {
        support::lemma_first_where(m.values, lookups::value_for(model.id, field));
        let k = m.value_at(model.id, field)->0;
        assert(m.values[k].field == field);
    }
}

/// A candidate for a field comes from a row of values for that field.
proof fn lemma_candidates_have_values(m: TablesModel, image: Seq<char>, field: Seq<char>, n: nat)
    requires
        m.source_candidates(image, field, n).len() > 0,
        n <= m.sources.len(),
    ensures
        exists|k: int| 0 <= k < m.values.len() && (#[trigger] m.values[k]).field == field,
    decreases n,
{
    let s = m.sources[n - 1];
    if m.source_candidates(image, field, (n - 1) as nat).len() > 0 {
        lemma_candidates_have_values(m, image, field, (n - 1) as nat);
    } else {
        let (a, o) = m.usage(image, s.id)->0;
        lemma_model_candidates_have_values(m, s, a, o, field, m.models.len());
    }
}

pub open spec fn effective_of(image: Seq<char>) -> spec_fn(tables::EffectiveModel) -> bool {
    |r: tables::EffectiveModel| r.image_id == image
}

/// The tables without any value in effect for an image.
pub open spec fn without_effective(m: TablesModel, image: Seq<char>) -> TablesModel {
    TablesModel {
        effective: Map::new(
            |k: (Seq<char>, Seq<char>)| k.0 != image && m.effective.contains_key(k),
            |k: (Seq<char>, Seq<char>)| m.effective[k],
        ),
        ..m
    }
}

fn clear_effective(db: &mut Tables, image: &str)
    ensures
        final(db)@ == without_effective(old(db)@, image@),
{
    let ghost m = old(db)@;
    let test = |r: &EffectiveRow| -> (b: bool)
        ensures b == effective_of(image@)(r@)
    {
        same(r.image_id.as_str(), image)
    };
    let mut found: Option<usize> = find(&db.effective, &test, Ghost(effective_of(image@)));
    while found.is_some()
        invariant
            m == old(db)@,
            db@ == (TablesModel { effective: db@.effective, ..m }),
            forall|k: (Seq<char>, Seq<char>)|
                k.0 != image@ ==> #[trigger] db@.effective.contains_key(k)
                    == m.effective.contains_key(k),
            forall|k: (Seq<char>, Seq<char>)|
                k.0 != image@ && m.effective.contains_key(k) ==> #[trigger] db@.effective[k]
                    == m.effective[k],
            forall|r: &EffectiveRow| #[trigger] test.requires((r,)),
            forall|r: &EffectiveRow, b: bool| #[trigger]
                test.ensures((r,), b) ==> b == effective_of(image@)(r@),
            match found {
                Some(i) => i < db.effective@.len() && effective_of(image@)(
                    db.effective@[i as int]@,
                ),
                None => support::first_where(
                    support::models(db.effective@),
                    effective_of(image@),
                ) is None,
            },
        decreases db.effective@.len(),
    {
        let i: usize = found.unwrap();
        let ghost before = support::models(db.effective@);
        db.effective.remove(i);
        proof {
            let after = support::models(db.effective@);
            assert(after =~= before.remove(i as int));
            assert forall|k: (Seq<char>, Seq<char>)| k.0 != image@ implies #[trigger] db@.effective.contains_key(k)
                == m.effective.contains_key(k) by {
                support::lemma_removed(before, after, i as int, tables::effective_for(k));
                assert(tables::effective_values(before).contains_key(k)
                    == m.effective.contains_key(k));
            }
            assert forall|k: (Seq<char>, Seq<char>)|
                k.0 != image@ && m.effective.contains_key(k) implies #[trigger] db@.effective[k]
                == m.effective[k] by {
                support::lemma_removed(before, after, i as int, tables::effective_for(k));
                assert(tables::effective_values(before).contains_key(k));
                assert(tables::effective_values(before)[k] == m.effective[k]);
            }
        }
        found = find(&db.effective, &test, Ghost(effective_of(image@)));
    }
    proof {
        let rows = support::models(db.effective@);
        support::lemma_first_where(rows, effective_of(image@));
        assert forall|k: (Seq<char>, Seq<char>)| k.0 == image@ implies !(
        #[trigger] db@.effective.contains_key(k)) by {
            support::lemma_first_where(rows, tables::effective_for(k));
            if support::first_where(rows, tables::effective_for(k)) is Some {
                let j = support::first_where(rows, tables::effective_for(k))->0;
                assert(effective_of(image@)(rows[j]));
            }
        }
        assert(db@.effective =~= without_effective(m, image@).effective);
        assert(db@ =~= without_effective(m, image@));
    }
}

/// Derives the value in effect for one field unless it was derived before.
fn rebuild_field(db: &mut Tables, image: &str, field: &str, Ghost(m): Ghost<TablesModel>)
    requires
        old(db)@ == (TablesModel { effective: old(db)@.effective, ..m }),
    ensures
        final(db)@ == (TablesModel {
            effective: if m.relevant(image@, field@) && !old(db)@.effective.contains_key(
                (image@, field@),
            ) {
                old(db)@.effective.insert((image@, field@), m.resolved(image@, field@))
            } else {
                old(db)@.effective
            },
            ..m
        }),
{
    let ghost key = (image@, field@);
    let test = |r: &EffectiveRow| -> (b: bool)
        ensures b == tables::effective_for((image@, field@))(r@)
    {
        same(r.image_id.as_str(), image) && same(r.field.as_str(), field)
    };
    if find(&db.effective, test, Ghost(tables::effective_for(key))).is_some() {
        return;
    }
    proof {
        lemma_effective_apart(db@, m, image@, field@);
    }
    let values: Vec<Candidate> = candidates(db, image, field);
    let choice: Option<i64> = match db.find_choice_at(image, field) {
        Some(c) => Some(db.choices[c].model_id),
        None => None,
    };
    if values.len() == 0 && choice.is_none() {
        return;
    }
    let selected: Option<usize> = select(&values, choice);
    let row: EffectiveRow = EffectiveRow {
        image_id: image.to_owned(),
        field: field.to_owned(),
        value: match selected {
            Some(i) => Some(values[i].value.clone()),
            None => None,
        },
        conflicted: selected.is_none(),
        model_id: match selected {
            Some(i) => Some(values[i].model_id),
            None => None,
        },
    };
    let ghost before = support::models(db.effective@);
    db.effective.push(row);
    proof {
        let after = support::models(db.effective@);
        assert(after =~= before.push(row@));
        assert forall|k: (Seq<char>, Seq<char>)| #[trigger]
            tables::effective_values(after).contains_key(k) == (tables::effective_values(
                before,
            ).contains_key(k) || k == key) by {
            support::lemma_pushed(before, after, tables::effective_for(k));
        }
        assert forall|k: (Seq<char>, Seq<char>)|
            tables::effective_values(after).contains_key(k) implies #[trigger] tables::effective_values(
            after,
        )[k] == if k == key {
            m.resolved(image@, field@)
        } else {
            tables::effective_values(before)[k]
        } by {
            support::lemma_pushed(before, after, tables::effective_for(k));
            support::lemma_first_where(before, tables::effective_for(k));
        }
        assert(tables::effective_values(after) =~= tables::effective_values(before).insert(
            key,
            m.resolved(image@, field@),
        ));
        assert(db@ =~= TablesModel {
            effective: old(db)@.effective.insert(key, m.resolved(image@, field@)),
            ..m
        });
    }
}

/// Candidates and choices do not depend on the values in effect.
proof fn lemma_effective_apart(a: TablesModel, b: TablesModel, image: Seq<char>, field: Seq<char>)
    requires
        a == (TablesModel { effective: a.effective, ..b }),
    ensures
        a.candidates_for(image, field) == b.candidates_for(image, field),
        a.choice_of(image, field) == b.choice_of(image, field),
{
    lemma_same_candidates(a, b, image, field, a.sources.len());
}

proof fn lemma_same_candidates(
    a: TablesModel,
    b: TablesModel,
    image: Seq<char>,
    field: Seq<char>,
    n: nat,
)
    requires
        a == (TablesModel { effective: a.effective, ..b }),
        n <= a.sources.len(),
    ensures
        a.source_candidates(image, field, n) == b.source_candidates(image, field, n),
    decreases n,
{
    if n > 0 {
        lemma_same_candidates(a, b, image, field, (n - 1) as nat);
        let s = a.sources[n - 1];
        assert(a.usage(image, s.id) == b.usage(image, s.id));
        if let Some((u, o)) = a.usage(image, s.id) {
            lemma_same_model_candidates(a, b, s, u, o, field, a.models.len());
        }
    }
}

proof fn lemma_same_model_candidates(
    a: TablesModel,
    b: TablesModel,
    s: tables::SourceModel,
    u: tables::ImageSourceModel,
    o: tables::ObservationModel,
    field: Seq<char>,
    n: nat,
)
    requires
        a == (TablesModel { effective: a.effective, ..b }),
        n <= a.models.len(),
    ensures
        a.model_candidates(s, u, o, field, n) == b.model_candidates(s, u, o, field, n),
    decreases n,
{
    if n > 0 {
        lemma_same_model_candidates(a, b, s, u, o, field, (n - 1) as nat);
    }
}

/// Derives the values in effect for an image anew from its current sources and
/// the choices made.
pub fn rebuild(db: &mut Tables, image: &str)
    ensures
        final(db)@ == old(db)@.rebuilt(image@),
{
    let ghost m = old(db)@;
    clear_effective(db, image);
    let ghost cleared = db@.effective;
    assert(db@.values.len() == db.values@.len());
    let mut i: usize = 0;
    while i < db.values.len()
        invariant
            i <= m.values.len(),
            db.values@.len() == m.values.len(),
            db@ == (TablesModel { effective: db@.effective, ..m }),
            rebuilding(m, cleared, db@.effective, image@),
            forall|k: int|
                0 <= k < i && m.relevant(image@, (#[trigger] m.values[k]).field)
                    ==> db@.effective.contains_key((image@, m.values[k].field)),
        decreases m.values.len() - i,
    {
        let field: String = db.values[i].field.clone();
        assert(db@.values[i as int] == db.values@[i as int]@);
        assert(m.values[i as int].field == field@);
        rebuild_field(db, image, field.as_str(), Ghost(m));
        assert(db@.values.len() == db.values@.len());
        i += 1;
    }
    let mut j: usize = 0;
    assert(db@.choices.len() == db.choices@.len());
    while j < db.choices.len()
        invariant
            j <= m.choices.len(),
            db.choices@.len() == m.choices.len(),
            i == m.values.len(),
            db@ == (TablesModel { effective: db@.effective, ..m }),
            rebuilding(m, cleared, db@.effective, image@),
            forall|k: int|
                0 <= k < i && m.relevant(image@, (#[trigger] m.values[k]).field)
                    ==> db@.effective.contains_key((image@, m.values[k].field)),
            forall|k: int|
                0 <= k < j && (#[trigger] m.choices[k]).image_id == image@
                    ==> db@.effective.contains_key((image@, m.choices[k].field)),
        decreases m.choices.len() - j,
    {
        assert(db@.choices[j as int] == db.choices@[j as int]@);
        if same(db.choices[j].image_id.as_str(), image) {
            let field: String = db.choices[j].field.clone();
            assert(m.choices[j as int].field == field@);
            proof {
                support::lemma_first_where(m.choices, lookups::choice_for(image@, field@));
                assert(lookups::choice_for(image@, field@)(m.choices[j as int]));
                assert(m.relevant(image@, field@));
            }
            rebuild_field(db, image, field.as_str(), Ghost(m));
            assert(db@.choices.len() == db.choices@.len());
        }
        j += 1;
    }
    proof {
        assert forall|f: Seq<char>| #[trigger] m.relevant(image@, f) implies db@.effective.contains_key(
            (image@, f),
        ) by {
            if m.candidates_for(image@, f).len() > 0 {
                lemma_candidates_have_values(m, image@, f, m.sources.len());
                let k = choose|k: int|
                    0 <= k < m.values.len() && (#[trigger] m.values[k]).field == f;
                assert(m.relevant(image@, m.values[k].field));
            } else {
                support::lemma_first_where(m.choices, lookups::choice_for(image@, f));
                let k = m.choice_at(image@, f)->0;
                assert(m.choices[k].image_id == image@);
            }
        }
        assert(db@.effective =~= m.rebuilt(image@).effective);
        assert(db@ =~= m.rebuilt(image@));
    }
}

/// The values in effect while those of an image are being derived: the others
/// are untouched, and what is there already is right.
pub open spec fn rebuilding(
    m: TablesModel,
    cleared: Map<(Seq<char>, Seq<char>), tables::EffectiveValue>,
    now: Map<(Seq<char>, Seq<char>), tables::EffectiveValue>,
    image: Seq<char>,
) -> bool {
    &&& cleared == without_effective(m, image).effective
    &&& forall|k: (Seq<char>, Seq<char>)|
        #![trigger now.contains_key(k)]
        #![trigger now[k]]
        if k.0 == image {
            now.contains_key(k) ==> m.relevant(image, k.1) && now[k] == m.resolved(image, k.1)
        } else {
            now.contains_key(k) == m.effective.contains_key(k) && (now.contains_key(k) ==> now[k]
                == m.effective[k])
        }
}

} // verus!

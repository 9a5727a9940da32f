//! What an edit sets takes effect: the fields that it chooses show its own values.
use crate::catalog_metadata;
use crate::catalog_metadata::edit;
use crate::catalog_metadata::edit::PreparedEdit;
use crate::catalog_metadata::ownership;
use crate::catalog_metadata::prepared;
use crate::catalog_metadata::store;
use crate::error::CatalogError;
use crate::lookups;
use crate::ordering;
use crate::support;
use crate::tables;
use crate::tables::TablesModel;
use vstd::prelude::*;

verus! {

/// Every candidate of a model has the value that the model gives the field.
spec fn all_of_value(values: Seq<catalog_metadata::CandidateModel>, model: i64, value: Seq<char>) -> bool {
    forall|i: int|
        0 <= i < values.len() && (#[trigger] values[i]).model_id == model ==> values[i].value
            == value
}

/// Some candidate is of a model.
spec fn has_model(values: Seq<catalog_metadata::CandidateModel>, model: i64) -> bool {
    exists|i: int| 0 <= i < values.len() && (#[trigger] values[i]).model_id == model
}

proof fn lemma_model_candidates(
    m: TablesModel,
    s: tables::SourceModel,
    a: tables::ImageSourceModel,
    o: tables::ObservationModel,
    field: Seq<char>,
    n: nat,
    model: i64,
    v: int,
)
    requires
        m.value_at(model, field) == Some(v),
    ensures
        ({
            let found = m.model_candidates(s, a, o, field, n);
            &&& all_of_value(found, model, m.values[v].value)
            &&& (exists|k: int|
                0 <= k < n && (#[trigger] m.models[k]).id == model && m.models[k].observation_id
                    == o.id) ==> has_model(found, model)
        }),
    decreases n,
{
    if n > 0 {
        lemma_model_candidates(m, s, a, o, field, (n - 1) as nat, model, v);
        let before = m.model_candidates(s, a, o, field, (n - 1) as nat);
        let found = m.model_candidates(s, a, o, field, n);
        let row = m.models[n - 1];
        if has_model(before, model) {
            let i = choose|i: int| 0 <= i < before.len() && (#[trigger] before[i]).model_id == model;
            assert(found[i].model_id == model);
        }
        if row.id == model && row.observation_id == o.id {
            assert(found[before.len() as int].model_id == model);
        }
    }
}

proof fn lemma_source_candidates(
    m: TablesModel,
    image: Seq<char>,
    field: Seq<char>,
    n: nat,
    model: i64,
    v: int,
    k: int,
)
    requires
        m.value_at(model, field) == Some(v),
        0 <= k < m.models.len(),
        m.models[k].id == model,
    ensures
        ({
            let found = m.source_candidates(image, field, n);
            &&& all_of_value(found, model, m.values[v].value)
            &&& (exists|j: int|
                0 <= j < n && (m.usage(image, (#[trigger] m.sources[j]).id) matches Some((_, o))
                    && o.id == m.models[k].observation_id)) ==> has_model(found, model)
        }),
    decreases n,
{
    if n > 0 {
        lemma_source_candidates(m, image, field, (n - 1) as nat, model, v, k);
        let before = m.source_candidates(image, field, (n - 1) as nat);
        let found = m.source_candidates(image, field, n);
        let s = m.sources[n - 1];
        if has_model(before, model) {
            let i = choose|i: int| 0 <= i < before.len() && (#[trigger] before[i]).model_id == model;
            assert(found[i].model_id == model);
        }
        if let Some((a, o)) = m.usage(image, s.id) {
            let here = m.model_candidates(s, a, o, field, m.models.len());
            lemma_model_candidates(m, s, a, o, field, m.models.len(), model, v);
            assert forall|i: int|
                0 <= i < found.len() && (#[trigger] found[i]).model_id == model implies found[i].value
                == m.values[v].value by {
                if i >= before.len() {
                    assert(found[i] == here[i - before.len()]);
                } else {
                    assert(found[i] == before[i]);
                }
            }
            if o.id == m.models[k].observation_id {
                assert(m.models[k].id == model);
                let i = choose|i: int| 0 <= i < here.len() && (#[trigger] here[i]).model_id == model;
                assert(found[before.len() + i] == here[i]);
            }
        }
    }
}

/// A choice of a model that one of an image's sources offers takes effect.
proof fn lemma_choice_in_effect(
    m: TablesModel,
    image: Seq<char>,
    field: Seq<char>,
    model: i64,
    v: int,
    k: int,
    j: int,
)
    requires
        m.choice_of(image, field) == Some(model),
        m.value_at(model, field) == Some(v),
        0 <= k < m.models.len(),
        m.models[k].id == model,
        0 <= j < m.sources.len(),
        m.usage(image, m.sources[j].id) matches Some((_, o)) && o.id == m.models[k].observation_id,
    ensures
        m.resolved(image, field) == (tables::EffectiveValue {
            value: Some(m.values[v].value),
            conflicted: false,
            model_id: Some(model),
        }),
{
    let found = m.candidates_for(image, field);
    lemma_source_candidates(m, image, field, m.sources.len(), model, v, k);
    assert(has_model(found, model));
    let i = choose|i: int| 0 <= i < found.len() && (#[trigger] found[i]).model_id == model;
    assert(catalog_metadata::candidate_of_model(model)(found[i]));
    support::lemma_first_where(found, catalog_metadata::candidate_of_model(model));
}

proof fn lemma_choice_put(m: TablesModel, image: Seq<char>, field: Seq<char>, model: i64, f: Seq<char>)
    ensures
        f == field ==> m.chosen(image, field, model).choice_of(image, f) == Some(model),
        f != field ==> m.chosen(image, field, model).choice_of(image, f) == m.choice_of(image, f),
{
    let row = tables::ChoiceModel { image_id: image, field, model_id: model };
    let p = lookups::choice_for(image, field);
    let q = lookups::choice_for(image, f);
    support::lemma_first_where(m.choices, p);
    support::lemma_first_where(m.choices, q);
    match support::first_where(m.choices, p) {
        Some(i) => {
            if f == field {
                assert forall|j: int| 0 <= j < i implies !p(#[trigger] m.choices.update(i, row)[j]) by {
                    assert(!p(m.choices[j]));
                }
                support::lemma_first_found(m.choices.update(i, row), p, i);
            } else {
                support::lemma_replaced(m.choices, m.choices.update(i, row), i, q);
            }
        },
        None => support::lemma_pushed(m.choices, m.choices.push(row), q),
    }
}

pub(crate) proof fn lemma_edit_choice(
    m: TablesModel,
    after: TablesModel,
    e: PreparedEdit,
    model: i64,
    n: nat,
    i: int,
)
    requires
        0 <= i < n <= e.updated@.len(),
        edit::edit_chooses(m, e, e.updated@[i]@),
    ensures
        edit::edit_chosen(m, after, e, model, n).choice_of(
            e.image_identity.image_id@,
            e.updated@[i]@.field,
        ) == Some(model),
    decreases n,
{
    let image = e.image_identity.image_id@;
    let before = edit::edit_chosen(m, after, e, model, (n - 1) as nat);
    lemma_choice_put(before, image, e.updated@[n - 1]@.field, model, e.updated@[i]@.field);
    if i < n - 1 {
        lemma_edit_choice(m, after, e, model, (n - 1) as nat, i);
    }
}

proof fn lemma_edit_frame(m: TablesModel, after: TablesModel, e: PreparedEdit, model: i64, n: nat)
    ensures
        ({
            let chosen = edit::edit_chosen(m, after, e, model, n);
            chosen == (TablesModel { choices: chosen.choices, ..after })
        }),
    decreases n,
{
    if n > 0 {
        lemma_edit_frame(m, after, e, model, (n - 1) as nat);
    }
}

/// An image uses what was stored for it, unless the source changed meanwhile.
proof fn lemma_stored_usage(
    m: TablesModel,
    image: Seq<char>,
    source: store::SourceRequest,
    p: prepared::PreparedObservation,
)
    requires
        p.status != "SourceChanged"@,
    ensures
        store::store_outcome(m, image, source, p) matches Ok((after, oid, _)) ==> exists|j: int|
            0 <= j < after.sources.len() && (after.usage(image, (#[trigger] after.sources[j]).id) matches Some(
                (_, o),
            ) && o.id == oid),
{
    if let Ok((after, oid, _)) = store::store_outcome(m, image, source, p) {
        let asset = m.images[m.image_at(image)->Some_0].asset_id;
        let locator = source.scoped_locator(image, asset);
        let (m1, sid) = store::source_put(m, asset, source, locator)->Ok_0;
        let current = match m.source_named(asset, source.kind, locator) {
            Some(s) => m.sources[s].current_observation,
            None => None,
        };
        let (m2, _) = store::observed(m1, asset, sid, current, p)->Ok_0;
        let m3 = store::source_pointed(m2, sid, oid, false).linked(image, oid)->Ok_0;
        let q = lookups::image_source_for(image, sid);
        support::lemma_first_where(m3.image_sources, q);
        support::lemma_first_where(m3.sources, lookups::source_with_id(sid));
        support::lemma_first_where(m3.observations, lookups::observation_with_id(oid));
        let j = m3.source_at(sid)->Some_0;
        assert(after.sources[j].id == sid);
        match m3.image_source_at(image, sid) {
            Some(a) => {
                assert forall|i: int| 0 <= i < a implies !q(#[trigger] after.image_sources[i]) by {
                    assert(!q(m3.image_sources[i]));
                }
                support::lemma_first_found(after.image_sources, q, a);
            },
            None => {
                support::lemma_pushed(m3.image_sources, after.image_sources, q);
            },
        }
        assert(after.usage(image, after.sources[j].id) matches Some((_, o)) && o.id == oid);
    }
}

/// The first model of an observation is one of its models.
proof fn lemma_first_model(m: TablesModel, oid: i64)
    requires
        store::models_of(m, oid).len() > 0,
    ensures
        exists|k: int|
            0 <= k < m.models.len() && (#[trigger] m.models[k]).id == store::models_of(m, oid)[0]
                && m.models[k].observation_id == oid,
{
    broadcast use vstd::seq_lib::group_to_multiset_ensures;

    let kept = m.models.filter(store::model_of(oid));
    let rows = store::model_rows(m, oid);
    ordering::law_ordered_rows_are_the_same_in_order(kept, store::model_ordinal());
    assert(rows.contains(rows[0]));
    assert(kept.to_multiset().count(rows[0]) > 0);
    assert(kept.contains(rows[0]));
    let i = choose|i: int| 0 <= i < kept.len() && kept[i] == rows[0];
    ownership::lemma_filtered_from(m.models, store::model_of(oid), i);
    let k = choose|k: int| 0 <= k < m.models.len() && m.models[k] == kept[i];
    assert(m.models[k].id == store::models_of(m, oid)[0]);
}

/// What an edit chooses takes effect: the field shows the value of the edit's own model,
/// without a conflict.
pub proof fn law_edited_fields_show_the_edit(m: TablesModel, e: PreparedEdit, i: int)
    requires
        0 <= i < e.updated@.len(),
        edit::edit_chooses(m, e, e.updated@[i]@),
        e.prepared@.status != "SourceChanged"@,
    ensures
        edit::commit_outcome(m, e) matches Ok((after, change)) ==> {
            let image = e.image_identity.image_id@;
            let field = e.updated@[i]@.field;
            after.value_at(change.model_ids[0], field) matches Some(v) ==> ownership::in_effect(
                after,
                image,
                field,
            ) == Some(
                tables::EffectiveValue {
                    value: Some(after.values[v].value),
                    conflicted: false,
                    model_id: Some(change.model_ids[0]),
                },
            )
        },
{
    if let Ok((after, change)) = edit::commit_outcome(m, e) {
        let image = e.image_identity.image_id@;
        let field = e.updated@[i]@.field;
        let (stored, oid, _) = store::store_outcome(m, image, e.source@, e.prepared@)->Ok_0;
        let model = store::models_of(stored, oid)[0];
        let n = e.updated@.len();
        let chosen = edit::edit_chosen(m, stored, e, model, n);
        lemma_stored_usage(m, image, e.source@, e.prepared@);
        lemma_first_model(stored, oid);
        lemma_edit_choice(m, stored, e, model, n, i);
        lemma_edit_frame(m, stored, e, model, n);
        if let Some(v) = after.value_at(model, field) {
            let j = choose|j: int|
                0 <= j < stored.sources.len() && (stored.usage(
                    image,
                    (#[trigger] stored.sources[j]).id,
                ) matches Some((_, o)) && o.id == oid);
            let k = choose|k: int|
                0 <= k < stored.models.len() && (#[trigger] stored.models[k]).id == model
                    && stored.models[k].observation_id == oid;
            assert(chosen.usage(image, chosen.sources[j].id) == stored.usage(
                image,
                stored.sources[j].id,
            ));
            lemma_choice_in_effect(chosen, image, field, model, v, k, j);
            assert(chosen.relevant(image, field));
            assert(after.effective == chosen.rebuilt(image).effective);
        }
    }
}

/// Models are of observations that there are, and values of models that there are.
pub open spec fn evidence_numbered(m: TablesModel) -> bool {
    &&& forall|i: int|
        0 <= i < m.models.len() ==> (#[trigger] m.models[i]).observation_id <= m.observation_high
    &&& forall|i: int|
        0 <= i < m.values.len() ==> (#[trigger] m.values[i]).model_id <= m.model_high
}

/// An edit has one model, with the values that it sets.
pub open spec fn whole_edit(e: PreparedEdit) -> bool {
    e.prepared@.models.len() == 1 && e.prepared@.models[0].fields == support::models(e.updated@)
}

proof fn lemma_blobs_frame(m: TablesModel, blobs: Seq<tables::BlobModel>, n: nat)
    ensures
        ({
            let after = store::blobs_added(m, blobs, n);
            after == (TablesModel { blobs: after.blobs, ..m })
        }),
    decreases n,
{
    if n > 0 {
        lemma_blobs_frame(m, blobs, (n - 1) as nat);
    }
}

proof fn lemma_values_rows(
    m: TablesModel,
    mid: i64,
    values: Seq<prepared::PreparedValueModel>,
    n: nat,
)
    requires
        n <= values.len(),
    ensures
        store::values_added(m, mid, values, n) matches Ok(after) ==> {
            &&& after == (TablesModel { values: after.values, ..m })
            &&& after.values.len() == m.values.len() + n
            &&& forall|k: int| 0 <= k < m.values.len() ==> #[trigger] after.values[k] == m.values[k]
            &&& forall|k: int|
                m.values.len() <= k < after.values.len() ==> (#[trigger] after.values[k]).model_id
                    == mid && after.values[k].field == values[k - m.values.len()].field
                    && after.values[k].value == values[k - m.values.len()].value
        },
    decreases n,
{
    if n > 0 {
        lemma_values_rows(m, mid, values, (n - 1) as nat);
    }
}

proof fn lemma_new_model(m: TablesModel, sid: i64, p: prepared::PreparedObservation, i: int)
    requires
        evidence_numbered(m),
        p.models.len() == 1,
        0 <= i < p.models[0].fields.len(),
        forall|j: int|
            0 <= j < i ==> (#[trigger] p.models[0].fields[j]).field != p.models[0].fields[i].field,
    ensures
        store::observation_added(m, sid, p) matches Ok((after, oid)) ==> {
            &&& store::models_of(after, oid) == seq![(m.model_high + 1) as i64]
            &&& after.value_at((m.model_high + 1) as i64, p.models[0].fields[i].field) matches Some(v)
                && after.values[v].value == p.models[0].fields[i].value
        },
{
    if let Ok((after, oid)) = store::observation_added(m, sid, p) {
        let stored = store::blobs_added(m, p.blobs, p.blobs.len());
        lemma_blobs_frame(m, p.blobs, p.blobs.len());
        let seen = TablesModel {
            observations: stored.observations.push(
                tables::ObservationModel {
                    id: oid,
                    source_id: sid,
                    revision: p.revision,
                    status: p.status,
                    issues: p.issues,
                    provenance: p.provenance,
                    source_provenance: p.source_provenance,
                    file_length: p.file_length,
                    file_blake3: p.file_blake3,
                    modified: p.modified,
                },
            ),
            observation_high: oid,
            ..stored
        };
        let base = store::packets_added(seen, oid, p.packets);
        let mid = (m.model_high + 1) as i64;
        let model = p.models[0];
        reveal_with_fuel(store::models_added, 2);
        let row = tables::InterpretationModel {
            id: mid,
            observation_id: oid,
            ordinal: 0,
            blob_hash: model.hash,
            descriptor: model.descriptor,
            projection: model.projection,
            error: model.error,
        };
        let with = TablesModel { models: base.models.push(row), model_high: mid, ..base };
        lemma_values_rows(with, mid, model.fields, model.fields.len());
        assert(after.models == m.models.push(row));
        assert(m.models.filter(store::model_of(oid)).len() == 0) by {
            if m.models.filter(store::model_of(oid)).len() > 0 {
                ownership::lemma_filtered_from(m.models, store::model_of(oid), 0);
            }
        }
        support::lemma_filter_push(m.models, row, store::model_of(oid));
        let kept = after.models.filter(store::model_of(oid));
        assert(kept =~= seq![row]);
        reveal_with_fuel(ordering::ordered, 2);
        assert(kept.drop_last() =~= Seq::empty());
        assert(ordering::ordered(kept, store::model_ordinal()) =~= seq![row]);
        assert(store::models_of(after, oid) =~= seq![mid]);
        let at = m.values.len() + i;
        let q = lookups::value_for(mid, model.fields[i].field);
        assert forall|k: int| 0 <= k < at implies !q(#[trigger] after.values[k]) by {
            if k < m.values.len() {
                assert(after.values[k] == m.values[k]);
                assert(m.values[k].model_id <= m.model_high);
            } else {
                assert(model.fields[k - m.values.len()].field != model.fields[i].field);
            }
        }
        support::lemma_first_found(after.values, q, at);
    }
}

proof fn lemma_stored_model(
    m: TablesModel,
    image: Seq<char>,
    source: store::SourceRequest,
    p: prepared::PreparedObservation,
    i: int,
)
    requires
        evidence_numbered(m),
        p.models.len() == 1,
        0 <= i < p.models[0].fields.len(),
        forall|j: int|
            0 <= j < i ==> (#[trigger] p.models[0].fields[j]).field != p.models[0].fields[i].field,
    ensures
        store::store_outcome(m, image, source, p) matches Ok((after, oid, _))
            ==> after.observations.len() > m.observations.len() ==> {
            &&& store::models_of(after, oid).len() == 1
            &&& after.value_at(store::models_of(after, oid)[0], p.models[0].fields[i].field) matches Some(
                v,
            ) && after.values[v].value == p.models[0].fields[i].value
        },
{
    if let Ok((after, oid, _)) = store::store_outcome(m, image, source, p) {
        if after.observations.len() > m.observations.len() {
            let asset = m.images[m.image_at(image)->Some_0].asset_id;
            let locator = source.scoped_locator(image, asset);
            let (m1, sid) = store::source_put(m, asset, source, locator)->Ok_0;
            let current = match m.source_named(asset, source.kind, locator) {
                Some(s) => m.sources[s].current_observation,
                None => None,
            };
            let (m2, _) = store::observed(m1, asset, sid, current, p)->Ok_0;
            assert(evidence_numbered(m1));
            lemma_new_model(m1, sid, p, i);
            assert(after.models == m2.models && after.values == m2.values && after.observations
                == m2.observations);
            assert(store::observed(m1, asset, sid, current, p) == store::observation_added(
                m1,
                sid,
                p,
            ));
        }
    }
}

/// A new edit shows what it set: each field that it organizes by or changes has the edit's
/// value in effect, without a conflict.
pub proof fn law_new_edits_show_their_values(m: TablesModel, e: PreparedEdit, i: int)
    requires
        evidence_numbered(m),
        whole_edit(e),
        0 <= i < e.updated@.len(),
        forall|j: int| 0 <= j < i ==> (#[trigger] e.updated@[j])@.field != e.updated@[i]@.field,
        edit::edit_chooses(m, e, e.updated@[i]@),
        e.prepared@.status != "SourceChanged"@,
    ensures
        edit::commit_outcome(m, e) matches Ok((after, change)) ==> after.observations.len()
            > m.observations.len() ==> ownership::in_effect(
            after,
            e.image_identity.image_id@,
            e.updated@[i]@.field,
        ) == Some(
            tables::EffectiveValue {
                value: Some(e.updated@[i]@.value),
                conflicted: false,
                model_id: Some(change.model_ids[0]),
            },
        ),
{
    if let Ok((after, change)) = edit::commit_outcome(m, e) {
        let image = e.image_identity.image_id@;
        let p = e.prepared@;
        let (stored, oid, _) = store::store_outcome(m, image, e.source@, p)->Ok_0;
        let ids = store::models_of(stored, oid);
        assert(p.models[0].fields[i] == e.updated@[i]@);
        assert forall|j: int| 0 <= j < i implies (#[trigger] p.models[0].fields[j]).field
            != p.models[0].fields[i].field by {
            assert(p.models[0].fields[j] == e.updated@[j]@);
        }
        lemma_stored_model(m, image, e.source@, p, i);
        lemma_edit_frame(m, stored, e, ids[0], e.updated@.len());
        law_edited_fields_show_the_edit(m, e, i);
    }
}

} // verus!

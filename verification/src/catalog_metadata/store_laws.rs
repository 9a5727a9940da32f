//! What storing, choosing and losing sources leaves in the tables, told by the rows.
use crate::catalog_metadata::export_laws;
use crate::catalog_metadata::prepared;
use crate::catalog_metadata::reconcile_laws;
use crate::catalog_metadata::store;
use crate::catalog_metadata::views;
use crate::lookups;
use crate::support;
use crate::tables;
use crate::tables::TablesModel;
use vstd::prelude::*;

verus! {

/// A row of an image.
pub open spec fn is_image(m: TablesModel, i: int, image: Seq<char>) -> bool {
    0 <= i < m.images.len() && m.images[i].id == image && forall|j: int|
        0 <= j < i ==> (#[trigger] m.images[j]).id != image
}

/// A word for whether a source is surely the image's.
pub open spec fn is_association(word: Seq<char>, ambiguous: bool) -> bool {
    (ambiguous ==> word == "ambiguous"@) && (!ambiguous ==> word == "confirmed"@)
}

/// A source stands as it was asked for.
pub open spec fn is_source(
    r: tables::SourceModel,
    asset: Seq<char>,
    image: Seq<char>,
    source: store::SourceRequest,
) -> bool {
    &&& r.asset_id == asset
    &&& r.kind == source.kind
    &&& r.display == source.display
    &&& is_association(r.association, source.ambiguous)
    &&& (source.kind != "catalog"@ || asset == image) ==> r.locator == source.locator
}

/// An image uses a source, with or without an observation.
pub open spec fn is_usage(
    r: tables::ImageSourceModel,
    image: Seq<char>,
    s: i64,
    current: Option<i64>,
    ambiguous: bool,
    availability: Seq<char>,
) -> bool {
    &&& r.image_id == image
    &&& r.source_id == s
    &&& r.current_observation == current
    &&& is_association(r.association, ambiguous)
    &&& r.availability == availability
}

/// An observation is in an image's history.
pub open spec fn in_history(m: TablesModel, image: Seq<char>, o: i64) -> bool {
    exists|h: int|
        0 <= h < m.image_observations.len() && (#[trigger] m.image_observations[h]).image_id
            == image && m.image_observations[h].observation_id == o
}

/// What a stored observation holds is what was prepared: it is of the same revision, or of the
/// same bytes with the same provenance of the source.
pub open spec fn holds_prepared(
    o: tables::ObservationModel,
    p: prepared::PreparedObservation,
) -> bool {
    o.revision == p.revision || (o.file_length == p.file_length && o.file_blake3 == p.file_blake3
        && o.source_provenance == p.source_provenance)
}

pub(crate) proof fn lemma_same_sources(
    m: TablesModel,
    asset: Seq<char>,
    sid: i64,
    current: Option<i64>,
    p: prepared::PreparedObservation,
)
    ensures
        store::observed(m, asset, sid, current, p) matches Ok((after, _)) ==> after.sources
            == m.sources && after.image_sources == m.image_sources && after.images == m.images
            && after.image_observations == m.image_observations,
{
    if store::observed(m, asset, sid, current, p) is Ok {
        lemma_added_frame(m, sid, p);
    }
}

proof fn lemma_blobs_frame(m: TablesModel, blobs: Seq<tables::BlobModel>, n: nat)
    ensures
        ({
            let after = store::blobs_added(m, blobs, n);
            after == (TablesModel { blobs: after.blobs, ..m })
        }),
    decreases n,
{
    if n > 0 {
        lemma_blobs_frame(m, blobs, (n - 1) as nat);
    }
}

/// A value was stored as it was prepared.
pub open spec fn is_value(r: tables::ValueModel, model: i64, v: prepared::PreparedValueModel) -> bool {
    r.model_id == model && r.field == v.field && r.value == v.value && Some(r.semantic_hash)
        == v.semantic_hash
}

/// A model was stored as it was prepared, at its place in its observation, with its values.
pub open spec fn is_model(
    m: TablesModel,
    k: int,
    oid: i64,
    i: int,
    x: prepared::PreparedModelModel,
) -> bool {
    &&& 0 <= k < m.models.len()
    &&& m.models[k].observation_id == oid
    &&& m.models[k].ordinal == i
    &&& m.models[k].blob_hash == x.hash
    &&& m.models[k].descriptor == x.descriptor
    &&& m.models[k].projection == x.projection
    &&& m.models[k].error == x.error
    &&& forall|f: int|
        0 <= f < x.fields.len() ==> has_value(m, m.models[k].id, #[trigger] x.fields[f])
}

/// A model's value is among the values.
pub open spec fn has_value(m: TablesModel, model: i64, v: prepared::PreparedValueModel) -> bool {
    exists|r: int| 0 <= r < m.values.len() && is_value(#[trigger] m.values[r], model, v)
}

/// A model is among the models.
pub open spec fn has_model(
    m: TablesModel,
    oid: i64,
    i: int,
    x: prepared::PreparedModelModel,
) -> bool {
    exists|k: int| #[trigger] is_model(m, k, oid, i, x)
}

proof fn lemma_values(
    m: TablesModel,
    mid: i64,
    values: Seq<prepared::PreparedValueModel>,
    n: nat,
)
    requires
        n <= values.len(),
    ensures
        store::values_added(m, mid, values, n) matches Ok(after) ==> {
            &&& after == (TablesModel { values: after.values, ..m })
            &&& after.values.len() == m.values.len() + n
            &&& forall|r: int| 0 <= r < m.values.len() ==> #[trigger] after.values[r] == m.values[r]
            &&& forall|r: int|
                m.values.len() <= r < after.values.len() ==> is_value(
                    #[trigger] after.values[r],
                    mid,
                    values[r - m.values.len()],
                )
        },
    decreases n,
{
    if n > 0 {
        lemma_values(m, mid, values, (n - 1) as nat);
    }
}

proof fn lemma_models(
    m: TablesModel,
    oid: i64,
    models: Seq<prepared::PreparedModelModel>,
    n: nat,
)
    requires
        n <= models.len(),
        models.len() <= i64::MAX,
    ensures
        store::models_added(m, oid, models, n) matches Ok(after) ==> {
            &&& after == (TablesModel {
                values: after.values,
                models: after.models,
                model_high: after.model_high,
                ..m
            })
            &&& forall|i: int|
                0 <= i < n ==> has_model(after, oid, i, #[trigger] models[i])
        },
    decreases n,
{
    if n > 0 {
        lemma_models(m, oid, models, (n - 1) as nat);
        if let Ok(after) = store::models_added(m, oid, models, n) {
            let before = store::models_added(m, oid, models, (n - 1) as nat)->Ok_0;
            let x = models[n - 1];
            let mid = (before.model_high + 1) as i64;
            let row = tables::InterpretationModel {
                id: mid,
                observation_id: oid,
                ordinal: (n - 1) as i64,
                blob_hash: x.hash,
                descriptor: x.descriptor,
                projection: x.projection,
                error: x.error,
            };
            let with = TablesModel { models: before.models.push(row), model_high: mid, ..before };
            lemma_values(with, mid, x.fields, x.fields.len());
            assert forall|i: int| 0 <= i < n implies has_model(after, oid, i, #[trigger] models[i]) by {
                if i < n - 1 {
                    assert(has_model(before, oid, i, models[i]));
                    let k = choose|k: int| #[trigger] is_model(before, k, oid, i, models[i]);
                    assert(after.models[k] == before.models[k]);
                    assert forall|f: int| 0 <= f < models[i].fields.len() implies has_value(
                        after,
                        after.models[k].id,
                        #[trigger] models[i].fields[f],
                    ) by {
                        assert(has_value(before, before.models[k].id, models[i].fields[f]));
                        let r = choose|r: int|
                            0 <= r < before.values.len() && is_value(
                                #[trigger] before.values[r],
                                before.models[k].id,
                                models[i].fields[f],
                            );
                        assert(after.values[r] == before.values[r]);
                    }
                    assert(is_model(after, k, oid, i, models[i]));
                } else {
                    let k = before.models.len() as int;
                    assert(after.models[k] == row);
                    assert forall|f: int| 0 <= f < x.fields.len() implies has_value(
                        after,
                        mid,
                        #[trigger] x.fields[f],
                    ) by {
                        assert(is_value(after.values[with.values.len() + f], mid, x.fields[f]));
                    }
                    assert(is_model(after, k, oid, i, models[i]));
                }
            }
        }
    }
}

proof fn lemma_added_frame(m: TablesModel, sid: i64, p: prepared::PreparedObservation)
    ensures
        store::observation_added(m, sid, p) matches Ok((after, oid)) ==> {
            &&& after.sources == m.sources
            &&& after.image_sources == m.image_sources
            &&& after.images == m.images
            &&& after.image_observations == m.image_observations
            &&& after.observations.len() == m.observations.len() + 1
            &&& after.packets.len() == m.packets.len() + p.packets.len()
        },
{
    if let Ok((after, oid)) = store::observation_added(m, sid, p) {
        let stored = store::blobs_added(m, p.blobs, p.blobs.len());
        lemma_blobs_frame(m, p.blobs, p.blobs.len());
        let seen = TablesModel {
            observations: stored.observations.push(
                tables::ObservationModel {
                    id: oid,
                    source_id: sid,
                    revision: p.revision,
                    status: p.status,
                    issues: p.issues,
                    provenance: p.provenance,
                    source_provenance: p.source_provenance,
                    file_length: p.file_length,
                    file_blake3: p.file_blake3,
                    modified: p.modified,
                },
            ),
            observation_high: oid,
            ..stored
        };
        lemma_models(store::packets_added(seen, oid, p.packets), oid, p.models, p.models.len());
    }
}

/// A new observation is stored whole: all that was found in the file, each packet at its place
/// with its digest and descriptor, and each model at its place with what it was read as and
/// every value that it gives.
pub proof fn law_new_observations_are_stored_whole(
    m: TablesModel,
    sid: i64,
    p: prepared::PreparedObservation,
)
    ensures
        store::observation_added(m, sid, p) matches Ok((after, oid)) ==> {
            &&& after.observations.len() == m.observations.len() + 1
            &&& after.observations.last().id == oid
            &&& after.observations.last().source_id == sid
            &&& after.observations.last().revision == p.revision
            &&& after.observations.last().status == p.status
            &&& after.observations.last().issues == p.issues
            &&& after.observations.last().provenance == p.provenance
            &&& after.observations.last().source_provenance == p.source_provenance
            &&& after.observations.last().file_length == p.file_length
            &&& after.observations.last().file_blake3 == p.file_blake3
            &&& after.observations.last().modified == p.modified
            &&& oid > m.observation_high
            &&& after.packets.len() == m.packets.len() + p.packets.len()
            &&& forall|i: int|
                0 <= i < p.packets.len() ==> {
                    let row = after.packets[m.packets.len() + i];
                    row.observation_id == oid && row.ordinal == i && row.blob_hash == (
                    #[trigger] p.packets[i]).hash && row.descriptor == p.packets[i].descriptor
                }
            &&& forall|i: int|
                0 <= i < p.models.len() ==> has_model(after, oid, i, #[trigger] p.models[i])
        },
{
    if let Ok((after, oid)) = store::observation_added(m, sid, p) {
        let stored = store::blobs_added(m, p.blobs, p.blobs.len());
        lemma_blobs_frame(m, p.blobs, p.blobs.len());
        let seen = TablesModel {
            observations: stored.observations.push(
                tables::ObservationModel {
                    id: oid,
                    source_id: sid,
                    revision: p.revision,
                    status: p.status,
                    issues: p.issues,
                    provenance: p.provenance,
                    source_provenance: p.source_provenance,
                    file_length: p.file_length,
                    file_blake3: p.file_blake3,
                    modified: p.modified,
                },
            ),
            observation_high: oid,
            ..stored
        };
        lemma_models(store::packets_added(seen, oid, p.packets), oid, p.models, p.models.len());
    }
}

proof fn lemma_linked(m: TablesModel, image: Seq<char>, o: i64)
    ensures
        m.linked(image, o) matches Ok(after) ==> in_history(after, image, o),
{
    let q = lookups::image_observation_for(image, o);
    support::lemma_first_where(m.image_observations, q);
    if let Ok(after) = m.linked(image, o) {
        match m.image_observation_at(image, o) {
            Some(h) => {
                assert(after.image_observations[h].image_id == image);
            },
            None => {
                assert(after.image_observations[m.image_observations.len() as int].image_id == image);
            },
        }
    }
}

/// The source that an image uses, and how it uses it.
pub open spec fn uses(
    m: TablesModel,
    s: int,
    a: int,
    asset: Seq<char>,
    image: Seq<char>,
    source: store::SourceRequest,
    current: Option<i64>,
    availability: Seq<char>,
) -> bool {
    &&& 0 <= s < m.sources.len()
    &&& 0 <= a < m.image_sources.len()
    &&& is_source(m.sources[s], asset, image, source)
    &&& is_usage(m.image_sources[a], image, m.sources[s].id, current, source.ambiguous, availability)
    &&& m.sources[s].availability == availability
}

proof fn lemma_usage_put(
    m: TablesModel,
    image: Seq<char>,
    sid: i64,
    current: Option<i64>,
    source: store::SourceRequest,
    availability: Seq<char>,
) -> (a: int)
    requires
        store::usage_put(m, image, sid, current, source, availability) is Ok,
    ensures
        ({
            let after = store::usage_put(m, image, sid, current, source, availability)->Ok_0;
            &&& 0 <= a < after.image_sources.len()
            &&& is_usage(after.image_sources[a], image, sid, current, source.ambiguous, availability)
            &&& after.sources == m.sources
            &&& after.observations == m.observations
            &&& after.image_observations == m.image_observations
        }),
{
    support::lemma_first_where(m.image_sources, lookups::image_source_for(image, sid));
    match m.image_source_at(image, sid) {
        Some(a) => a,
        None => m.image_sources.len() as int,
    }
}

/// Source numbers have been given out in turn.
pub open spec fn sources_numbered(m: TablesModel) -> bool {
    forall|i: int| 0 <= i < m.sources.len() ==> (#[trigger] m.sources[i]).id <= m.source_high
}

/// An observation is there that holds what was prepared, of a source where there is one.
pub open spec fn is_kept(
    m: TablesModel,
    oid: i64,
    source: Option<i64>,
    p: prepared::PreparedObservation,
) -> bool {
    exists|o: int|
        0 <= o < m.observations.len() && (#[trigger] m.observations[o]).id == oid && holds_prepared(
            m.observations[o],
            p,
        ) && (source matches Some(s) ==> m.observations[o].source_id == s)
}

proof fn lemma_source_found(m: TablesModel, s: int)
    requires
        reconcile_laws::rows_keyed(m),
        0 <= s < m.sources.len(),
    ensures
        m.source_at(m.sources[s].id) == Some(s),
{
    let q = lookups::source_with_id(m.sources[s].id);
    assert forall|j: int| 0 <= j < m.sources.len() && j != s implies !q(#[trigger] m.sources[j]) by {
        if j < s {
            assert(m.sources[j].id != m.sources[s].id);
        } else {
            assert(m.sources[s].id != m.sources[j].id);
        }
    }
    reconcile_laws::lemma_only(m.sources, q, s);
}

proof fn lemma_put_found(
    m: TablesModel,
    asset: Seq<char>,
    image: Seq<char>,
    source: store::SourceRequest,
) -> (s: int)
    requires
        reconcile_laws::rows_keyed(m),
        sources_numbered(m),
        store::source_put(m, asset, source, source.scoped_locator(image, asset)) is Ok,
    ensures
        ({
            let (after, sid) = store::source_put(
                m,
                asset,
                source,
                source.scoped_locator(image, asset),
            )->Ok_0;
            &&& 0 <= s < after.sources.len()
            &&& after.source_at(sid) == Some(s)
            &&& after.sources[s].id == sid
            &&& is_source(after.sources[s], asset, image, source)
            &&& after.sources[s].availability == "available"@
            &&& after == (TablesModel {
                sources: after.sources,
                source_high: after.source_high,
                ..m
            })
            &&& reconcile_laws::rows_keyed(after)
        }),
{
    let locator = source.scoped_locator(image, asset);
    let (after, sid) = store::source_put(m, asset, source, locator)->Ok_0;
    support::lemma_first_where(m.sources, lookups::source_with_name(asset, source.kind, locator));
    let s = match m.source_named(asset, source.kind, locator) {
        Some(s) => s,
        None => m.sources.len() as int,
    };
    assert forall|i: int, j: int| 0 <= i < j < after.sources.len() implies (
    #[trigger] after.sources[i]).id != (#[trigger] after.sources[j]).id by {
        if j < m.sources.len() {
            assert(m.sources[i].id != m.sources[j].id);
        } else {
            assert(m.sources[i].id <= m.source_high);
        }
    }
    assert(reconcile_laws::rows_keyed(after));
    lemma_source_found(after, s);
    s
}

proof fn lemma_observed(
    m: TablesModel,
    asset: Seq<char>,
    sid: i64,
    current: Option<i64>,
    p: prepared::PreparedObservation,
)
    ensures
        store::observed(m, asset, sid, current, p) matches Ok((after, oid)) ==> {
            &&& is_kept(after, oid, None, p)
            &&& (after.observation_at(oid) matches Some(o) && after.observations[o].source_id == sid)
                ==> is_kept(after, oid, Some(sid), p)
        },
{
    if let Ok((after, oid)) = store::observed(m, asset, sid, current, p) {
        support::lemma_first_where(m.observations, lookups::observation_with_name(sid, p.revision));
        match m.observation_named(sid, p.revision) {
            Some(o) => {
                assert(holds_prepared(after.observations[o], p));
            },
            None => {
                law_new_observations_are_stored_whole(m, sid, p);
                match current {
                    Some(c) => {
                        support::lemma_first_where(m.observations, lookups::observation_with_id(c));
                        let o = m.observation_at(c)->Some_0;
                        if store::relocates(m.observations[o], p) == Ok::<bool, crate::error::CatalogError>(true) {
                            assert(after.observations == m.observations);
                            assert(holds_prepared(after.observations[o], p));
                        } else {
                            assert(holds_prepared(after.observations[after.observations.len() - 1], p));
                        }
                    },
                    None => {
                        assert(holds_prepared(after.observations[after.observations.len() - 1], p));
                    },
                }
            },
        }
    }
}

/// What is stored for an image is used by it: its source is there as it was asked for, marked
/// as ambiguous or confirmed, the image uses it so, and the observation is in the image's
/// history and is the one that the image and the source have as their current one. It is of
/// that source, and holds what was prepared.
pub proof fn law_stored_observations_are_used(
    m: TablesModel,
    i: int,
    image: Seq<char>,
    source: store::SourceRequest,
    p: prepared::PreparedObservation,
)
    requires
        reconcile_laws::rows_keyed(m),
        sources_numbered(m),
        is_image(m, i, image),
        p.status != "SourceChanged"@,
    ensures
        store::store_outcome(m, image, source, p) matches Ok((after, oid, _)) ==> {
            &&& in_history(after, image, oid)
            &&& exists|s: int, a: int|
                #[trigger] uses(
                    after,
                    s,
                    a,
                    m.images[i].asset_id,
                    image,
                    source,
                    Some(oid),
                    "available"@,
                ) && after.sources[s].current_observation == Some(oid) && is_kept(
                    after,
                    oid,
                    Some(after.sources[s].id),
                    p,
                )
        },
{
    if let Ok((after, oid, _)) = store::store_outcome(m, image, source, p) {
        support::lemma_first_found(m.images, lookups::image_with_id(image), i);
        let asset = m.images[i].asset_id;
        let locator = source.scoped_locator(image, asset);
        let (m1, sid) = store::source_put(m, asset, source, locator)->Ok_0;
        let s = lemma_put_found(m, asset, image, source);
        let current = match m.source_named(asset, source.kind, locator) {
            Some(s) => m.sources[s].current_observation,
            None => None,
        };
        let (m2, _) = store::observed(m1, asset, sid, current, p)->Ok_0;
        lemma_same_sources(m1, asset, sid, current, p);
        lemma_observed(m1, asset, sid, current, p);
        let pointed = store::source_pointed(m2, sid, oid, false);
        let m3 = pointed.linked(image, oid)->Ok_0;
        lemma_linked(pointed, image, oid);
        assert(m2.source_at(sid) == Some(s));
        assert(m3.sources[s].current_observation == Some(oid));
        let a = lemma_usage_put(m3, image, sid, Some(oid), source, "available"@);
        assert(m3.observation_at(oid) == m2.observation_at(oid));
        assert(is_kept(m2, oid, Some(sid), p));
        let o = choose|o: int|
            0 <= o < m2.observations.len() && (#[trigger] m2.observations[o]).id == oid
                && holds_prepared(m2.observations[o], p) && m2.observations[o].source_id == sid;
        assert(after.observations[o] == m2.observations[o]);
        assert(is_kept(after, oid, Some(after.sources[s].id), p));
        let h = choose|h: int|
            0 <= h < m3.image_observations.len() && (#[trigger] m3.image_observations[h]).image_id
                == image && m3.image_observations[h].observation_id == oid;
        assert(after.image_observations[h].image_id == image);
        assert(uses(after, s, a, asset, image, source, Some(oid), "available"@));
    }
}

/// Where a source changed while it was read, what was found is kept in the image's history,
/// but not used: the image goes on with the observation that it had, if any, and the source and
/// the image's use of it are marked.
pub proof fn law_unstable_observations_are_only_kept(
    m: TablesModel,
    i: int,
    image: Seq<char>,
    source: store::SourceRequest,
    p: prepared::PreparedObservation,
)
    requires
        reconcile_laws::rows_keyed(m),
        sources_numbered(m),
        is_image(m, i, image),
        p.status == "SourceChanged"@,
    ensures
        store::store_outcome(m, image, source, p) matches Ok((after, oid, _)) ==> {
            &&& in_history(after, image, oid)
            &&& is_kept(after, oid, None, p)
            &&& exists|s: int, a: int|
                #[trigger] uses(
                    after,
                    s,
                    a,
                    m.images[i].asset_id,
                    image,
                    source,
                    after.image_sources[a].current_observation,
                    "source changed during inspection; observation retained for review"@,
                ) && (forall|b: int|
                    0 <= b < m.image_sources.len() && (#[trigger] m.image_sources[b]).image_id
                        == image && m.image_sources[b].source_id == after.sources[s].id
                        ==> m.image_sources[b].current_observation
                        == after.image_sources[a].current_observation) && ((forall|b: int|
                    0 <= b < m.image_sources.len() && (#[trigger] m.image_sources[b]).image_id
                        == image ==> m.image_sources[b].source_id != after.sources[s].id)
                    ==> after.image_sources[a].current_observation is None)
        },
{
    if let Ok((after, oid, _)) = store::store_outcome(m, image, source, p) {
        support::lemma_first_found(m.images, lookups::image_with_id(image), i);
        let asset = m.images[i].asset_id;
        let locator = source.scoped_locator(image, asset);
        let (m1, sid) = store::source_put(m, asset, source, locator)->Ok_0;
        let s = lemma_put_found(m, asset, image, source);
        let named = match m.source_named(asset, source.kind, locator) {
            Some(s) => m.sources[s].current_observation,
            None => None,
        };
        let (m2, _) = store::observed(m1, asset, sid, named, p)->Ok_0;
        lemma_same_sources(m1, asset, sid, named, p);
        lemma_observed(m1, asset, sid, named, p);
        let pointed = store::source_pointed(m2, sid, oid, true);
        let m3 = pointed.linked(image, oid)->Ok_0;
        lemma_linked(pointed, image, oid);
        assert(m2.source_at(sid) == Some(s));
        let q = lookups::image_source_for(image, sid);
        support::lemma_first_where(m2.image_sources, q);
        let current = match m2.image_source_at(image, sid) {
            Some(a) => m2.image_sources[a].current_observation,
            None => None,
        };
        let note = "source changed during inspection; observation retained for review"@;
        let a = lemma_usage_put(m3, image, sid, current, source, note);
        let o = choose|o: int|
            0 <= o < m2.observations.len() && (#[trigger] m2.observations[o]).id == oid
                && holds_prepared(m2.observations[o], p);
        assert(after.observations[o] == m2.observations[o]);
        assert(is_kept(after, oid, None, p));
        let h = choose|h: int|
            0 <= h < m3.image_observations.len() && (#[trigger] m3.image_observations[h]).image_id
                == image && m3.image_observations[h].observation_id == oid;
        assert(after.image_observations[h].image_id == image);
        assert(after.image_sources[a].current_observation == current);
        assert forall|b: int|
            0 <= b < m.image_sources.len() && (#[trigger] m.image_sources[b]).image_id == image
                && m.image_sources[b].source_id == sid implies m.image_sources[b].current_observation
            == current by {
            assert(q(m2.image_sources[b]));
            let at = m2.image_source_at(image, sid)->Some_0;
            if at < b {
                assert(m.image_sources[at].source_id != m.image_sources[b].source_id);
            } else if b < at {
                assert(!q(m2.image_sources[b]));
            }
        }
        if forall|b: int|
            0 <= b < m.image_sources.len() && (#[trigger] m.image_sources[b]).image_id == image
                ==> m.image_sources[b].source_id != sid {
            if let Some(at) = m2.image_source_at(image, sid) {
                assert(m.image_sources[at].source_id == sid);
            }
        }
        assert(uses(
            after,
            s,
            a,
            asset,
            image,
            source,
            after.image_sources[a].current_observation,
            note,
        ));
    }
}

/// A model gives a field of an image a value now: the image uses an observation of a source
/// that is there, the model is of that observation, and the value is the model's.
pub open spec fn at_hand(
    m: TablesModel,
    image: Seq<char>,
    field: Seq<char>,
    model: i64,
    s: int,
    a: int,
    k: int,
    v: int,
) -> bool {
    &&& 0 <= s < m.sources.len()
    &&& 0 <= a < m.image_sources.len()
    &&& 0 <= k < m.models.len()
    &&& 0 <= v < m.values.len()
    &&& m.models[k].id == model
    &&& m.values[v].model_id == model
    &&& m.values[v].field == field
    &&& m.image_sources[a].image_id == image
    &&& m.image_sources[a].source_id == m.sources[s].id
    &&& m.image_sources[a].current_observation == Some(m.models[k].observation_id)
}

proof fn lemma_at_hand(m: TablesModel, image: Seq<char>, field: Seq<char>, model: i64)
    requires
        reconcile_laws::rows_keyed(m),
    ensures
        m.is_offered(image, field, model) <==> exists|s: int, a: int, k: int, v: int|
            #[trigger] at_hand(m, image, field, model, s, a, k, v),
{
    let km = lookups::model_with_id(model);
    let vf = lookups::value_for(model, field);
    support::lemma_first_where(m.models, km);
    support::lemma_first_where(m.values, vf);
    if m.is_offered(image, field, model) {
        let k = m.model_at(model)->Some_0;
        let v = m.value_at(model, field)->Some_0;
        let q = views::offers(m, image, m.models[k].observation_id);
        support::lemma_first_where(m.image_sources, q);
        let a = support::first_where(m.image_sources, q)->Some_0;
        support::lemma_first_where(m.sources, lookups::source_with_id(m.image_sources[a].source_id));
        let s = m.source_at(m.image_sources[a].source_id)->Some_0;
        assert(at_hand(m, image, field, model, s, a, k, v));
    }
    if exists|s: int, a: int, k: int, v: int|
        #[trigger] at_hand(m, image, field, model, s, a, k, v) {
        let (s, a, k, v) = choose|s: int, a: int, k: int, v: int|
            #[trigger] at_hand(m, image, field, model, s, a, k, v);
        assert forall|j: int| 0 <= j < m.models.len() && j != k implies !km(#[trigger] m.models[j]) by {
            if j < k {
                assert(m.models[j].id != m.models[k].id);
            } else {
                assert(m.models[k].id != m.models[j].id);
            }
        }
        reconcile_laws::lemma_only(m.models, km, k);
        assert(vf(m.values[v]));
        let q = views::offers(m, image, m.models[k].observation_id);
        lemma_source_found(m, s);
        assert(q(m.image_sources[a]));
        support::lemma_first_where(m.image_sources, q);
    }
}

/// A conflict is settled only by a model that gives the field a value now, and only at the
/// revision that the choice was made at; the revision then goes up by one and the model is the
/// choice, while all other choices stand. Anything else is refused.
pub proof fn law_conflicts_are_settled_by_what_is_at_hand(
    m: TablesModel,
    image: Seq<char>,
    expected: i64,
    field: Seq<char>,
    model: i64,
)
    requires
        reconcile_laws::rows_keyed(m),
    ensures
        views::resolve_outcome(m, image, expected, field, model) matches Ok((after, revision)) ==> {
            &&& export_laws::records_revision(m, image, expected)
            &&& exists|s: int, a: int, k: int, v: int|
                #[trigger] at_hand(m, image, field, model, s, a, k, v)
            &&& revision == expected + 1
            &&& export_laws::records_revision(after, image, revision)
            &&& reconcile_laws::chose(after, image, field, model)
            &&& forall|c: int|
                0 <= c < m.choices.len() && ((#[trigger] m.choices[c]).image_id != image
                    || m.choices[c].field != field) ==> after.choices.contains(m.choices[c])
            &&& forall|c: int|
                0 <= c < after.choices.len() && ((#[trigger] after.choices[c]).image_id != image
                    || after.choices[c].field != field) ==> m.choices.contains(after.choices[c])
        },
        !export_laws::records_revision(m, image, expected) ==> views::resolve_outcome(
            m,
            image,
            expected,
            field,
            model,
        ) is Err,
        (forall|s: int, a: int, k: int, v: int|
            !#[trigger] at_hand(m, image, field, model, s, a, k, v)) ==> views::resolve_outcome(
            m,
            image,
            expected,
            field,
            model,
        ) is Err,
{
    export_laws::lemma_recorded(m, image, expected);
    lemma_at_hand(m, image, field, model);
    if let Ok((after, revision)) = views::resolve_outcome(m, image, expected, field, model) {
        let q = lookups::choice_for(image, field);
        support::lemma_first_where(m.choices, q);
        let next = m.chosen(image, field, model);
        assert(after.choices == next.choices);
        match m.choice_at(image, field) {
            Some(c) => {
                assert(after.choices[c].model_id == model);
                assert forall|x: int|
                    0 <= x < m.choices.len() && ((#[trigger] m.choices[x]).image_id != image
                        || m.choices[x].field != field) implies after.choices.contains(
                    m.choices[x],
                ) by {
                    assert(after.choices[x] == m.choices[x]);
                }
                assert forall|x: int|
                    0 <= x < after.choices.len() && ((#[trigger] after.choices[x]).image_id != image
                        || after.choices[x].field != field) implies m.choices.contains(
                    after.choices[x],
                ) by {
                    assert(x != c);
                    assert(after.choices[x] == m.choices[x]);
                }
            },
            None => {
                assert(after.choices[m.choices.len() as int].model_id == model);
                assert forall|x: int|
                    0 <= x < m.choices.len() && ((#[trigger] m.choices[x]).image_id != image
                        || m.choices[x].field != field) implies after.choices.contains(
                    m.choices[x],
                ) by {
                    assert(after.choices[x] == m.choices[x]);
                }
                assert forall|x: int|
                    0 <= x < after.choices.len() && ((#[trigger] after.choices[x]).image_id != image
                        || after.choices[x].field != field) implies m.choices.contains(
                    after.choices[x],
                ) by {
                    assert(x < m.choices.len());
                    assert(after.choices[x] == m.choices[x]);
                }
            },
        }
        let rq = lookups::revision_for(image);
        support::lemma_first_where(m.revisions, rq);
        match m.revision_at(image) {
            Some(r) => {
                support::lemma_replaced(m.revisions, after.revisions, r, rq);
                assert forall|j: int| 0 <= j < r implies !rq(#[trigger] after.revisions[j]) by {
                    assert(!rq(m.revisions[j]));
                }
                support::lemma_first_found(after.revisions, rq, r);
            },
            None => {
                support::lemma_pushed(m.revisions, after.revisions, rq);
            },
        }
        export_laws::lemma_recorded(after, image, revision);
    }
}

} // verus!

//! What is shown of an image's metadata, told by the rows: pages show the rows they are of,
//! each of them once and in order, and pass none over.
use crate::catalog_metadata::reconcile_laws;
use crate::catalog_metadata::store;
use crate::catalog_metadata::store_laws;
use crate::catalog_metadata::views;
use crate::catalog_metadata::views::{Decision, FileInstance, Observation, SourceState};
use crate::lookups;
use crate::ordering;
use crate::outside;
use crate::support;
use crate::tables;
use crate::tables::TablesModel;
use vstd::prelude::*;

verus! {

/// Numbers are listed that come after one: those that are there, in ascending order, none of
/// them left out before the last one listed, and none at all unless the limit was reached.
pub open spec fn lists(
    ids: Seq<i64>,
    there: spec_fn(i64) -> bool,
    after: Option<i64>,
    limit: Option<nat>,
) -> bool {
    &&& limit matches Some(n) ==> ids.len() <= n
    &&& forall|i: int|
        0 <= i < ids.len() ==> there(#[trigger] ids[i]) && (after matches Some(a) ==> a < ids[i])
    &&& forall|i: int, j: int| 0 <= i < j < ids.len() ==> #[trigger] ids[i] < #[trigger] ids[j]
    &&& forall|id: i64| #[trigger]
        there(id) && (after matches Some(a) ==> a < id) ==> ids.contains(id) || (limit == Some(
            ids.len(),
        ) && forall|i: int| 0 <= i < ids.len() ==> #[trigger] ids[i] < id)
}

proof fn lemma_lists(
    keys: Seq<Option<(i64, i64)>>,
    after: Option<i64>,
    limit: Option<nat>,
    picks: Seq<usize>,
    ids: Seq<i64>,
    there: spec_fn(i64) -> bool,
)
    requires
        ordering::is_page::<(i64, i64)>(
            keys,
            match after {
                Some(a) => Some((a, 0i64)),
                None => None,
            },
            limit,
            picks,
        ),
        ids.len() == picks.len(),
        forall|i: int| 0 <= i < ids.len() ==> keys[picks[i] as int] == Some((#[trigger] ids[i], 0i64)),
        forall|j: int|
            0 <= j < keys.len() ==> (#[trigger] keys[j] matches Some(k) ==> k.1 == 0 && there(k.0)),
        forall|id: i64| #[trigger]
            there(id) ==> exists|j: int| 0 <= j < keys.len() && #[trigger] keys[j] == Some((id, 0i64)),
    ensures
        lists(ids, there, after, limit),
{
    let start = match after {
        Some(a) => Some((a, 0i64)),
        None => None,
    };
    assert forall|i: int| 0 <= i < ids.len() implies there(#[trigger] ids[i]) && (
    after matches Some(a) ==> a < ids[i]) by {
        assert(ordering::follows::<(i64, i64)>(start, keys[picks[i] as int]));
    }
    assert forall|i: int, j: int| 0 <= i < j < ids.len() implies #[trigger] ids[i]
        < #[trigger] ids[j] by {
        assert(<(i64, i64) as ordering::Ranked>::before(
            keys[picks[i] as int]->0,
            keys[picks[j] as int]->0,
        ));
    }
    assert forall|id: i64| #[trigger] there(id) && (after matches Some(a) ==> a < id) implies (
    ids.contains(id) || (limit == Some(ids.len()) && forall|i: int|
        0 <= i < ids.len() ==> #[trigger] ids[i] < id)) by {
        let j = choose|j: int| 0 <= j < keys.len() && #[trigger] keys[j] == Some((id, 0i64));
        assert(ordering::follows::<(i64, i64)>(start, keys[j]));
        if exists|a: int| 0 <= a < picks.len() && keys[(#[trigger] picks[a]) as int] == keys[j] {
            let a = choose|a: int|
                0 <= a < picks.len() && keys[(#[trigger] picks[a]) as int] == keys[j];
            assert(ids[a] == id);
        } else {
            assert forall|i: int| 0 <= i < ids.len() implies #[trigger] ids[i] < id by {
                assert(<(i64, i64) as ordering::Ranked>::before(
                    keys[picks[i] as int]->0,
                    keys[j]->0,
                ));
            }
        }
    }
}

pub(crate) proof fn lemma_history(m: TablesModel, image: Seq<char>, o: i64)
    ensures
        store_laws::in_history(m, image, o) <==> m.image_observation_at(image, o) is Some,
{
    let q = lookups::image_observation_for(image, o);
    support::lemma_first_where(m.image_observations, q);
    if store_laws::in_history(m, image, o) {
        let h = choose|h: int|
            0 <= h < m.image_observations.len() && (#[trigger] m.image_observations[h]).image_id
                == image && m.image_observations[h].observation_id == o;
        assert(q(m.image_observations[h]));
    }
    if let Some(h) = m.image_observation_at(image, o) {
        assert(m.image_observations[h].image_id == image);
    }
}

/// An observation of an image's history is there.
pub open spec fn is_past(m: TablesModel, image: Seq<char>) -> spec_fn(i64) -> bool {
    |id: i64|
        store_laws::in_history(m, image, id) && exists|o: int|
            0 <= o < m.observations.len() && (#[trigger] m.observations[o]).id == id
}

/// An image uses an observation: it is the current one of the image's use of its source.
pub open spec fn is_used(m: TablesModel, image: Seq<char>, o: tables::ObservationModel) -> bool {
    exists|s: int, a: int|
        0 <= s < m.sources.len() && 0 <= a < m.image_sources.len() && (#[trigger] m.sources[s]).id
            == o.source_id && (#[trigger] m.image_sources[a]).image_id == image
            && m.image_sources[a].source_id == o.source_id && m.image_sources[a].current_observation
            == Some(o.id)
}

/// An observation is shown as it is stored.
pub open spec fn shows_observation(
    m: TablesModel,
    image: Seq<char>,
    x: views::ObservationView,
    o: int,
) -> bool {
    &&& 0 <= o < m.observations.len()
    &&& x.id == m.observations[o].id
    &&& x.source_id == m.observations[o].source_id
    &&& x.revision == m.observations[o].revision
    &&& x.status == m.observations[o].status
    &&& x.issues == m.observations[o].issues
    &&& x.provenance == m.observations[o].provenance
    &&& x.current <==> is_used(m, image, m.observations[o])
}

/// A model is shown as it is stored.
pub open spec fn shows_model(m: TablesModel, x: views::ModelSummaryModel, k: int, o: i64) -> bool {
    &&& 0 <= k < m.models.len()
    &&& m.models[k].observation_id == o
    &&& x.id == m.models[k].id
    &&& x.ordinal == m.models[k].ordinal
    &&& x.blob_hash == m.models[k].blob_hash
    &&& x.descriptor == m.models[k].descriptor
    &&& x.projection == m.models[k].projection
    &&& x.error == m.models[k].error
}

/// An observation is shown as one of the stored.
pub open spec fn is_shown_observation(m: TablesModel, image: Seq<char>, x: views::ObservationView) -> bool {
    exists|o: int| #[trigger] shows_observation(m, image, x, o)
}

/// A model is shown as one of the stored.
pub open spec fn is_shown_model(m: TablesModel, x: views::ModelSummaryModel, o: i64) -> bool {
    exists|k: int| #[trigger] shows_model(m, x, k, o)
}

/// A stored model is among those that are shown.
pub open spec fn model_is_shown(
    m: TablesModel,
    xs: Seq<views::ModelSummaryModel>,
    k: int,
    o: i64,
) -> bool {
    exists|j: int| 0 <= j < xs.len() && #[trigger] shows_model(m, xs[j], k, o)
}

proof fn lemma_used(m: TablesModel, image: Seq<char>, o: tables::ObservationModel)
    requires
        reconcile_laws::rows_keyed(m),
    ensures
        is_used(m, image, o) <==> m.source_at(o.source_id) is Some && (m.image_source_at(
            image,
            o.source_id,
        ) matches Some(a) && m.image_sources[a].current_observation == Some(o.id)),
{
    let sq = lookups::source_with_id(o.source_id);
    let aq = lookups::image_source_for(image, o.source_id);
    support::lemma_first_where(m.sources, sq);
    support::lemma_first_where(m.image_sources, aq);
    if is_used(m, image, o) {
        let (s, a) = choose|s: int, a: int|
            0 <= s < m.sources.len() && 0 <= a < m.image_sources.len() && (
            #[trigger] m.sources[s]).id == o.source_id && (#[trigger] m.image_sources[a]).image_id
                == image && m.image_sources[a].source_id == o.source_id
                && m.image_sources[a].current_observation == Some(o.id);
        assert(sq(m.sources[s]));
        assert(aq(m.image_sources[a]));
        assert forall|j: int| 0 <= j < m.image_sources.len() && j != a implies !aq(
            #[trigger] m.image_sources[j],
        ) by {
            if j < a {
                assert(m.image_sources[j].image_id == m.image_sources[a].image_id
                    ==> m.image_sources[j].source_id != m.image_sources[a].source_id);
            } else {
                assert(m.image_sources[a].image_id == m.image_sources[j].image_id
                    ==> m.image_sources[a].source_id != m.image_sources[j].source_id);
            }
        }
        reconcile_laws::lemma_only(m.image_sources, aq, a);
    }
    if let Some(s) = m.source_at(o.source_id) {
        if let Some(a) = m.image_source_at(image, o.source_id) {
            if m.image_sources[a].current_observation == Some(o.id) {
                assert(m.sources[s].id == o.source_id && m.image_sources[a].image_id == image);
            }
        }
    }
}

/// A page of an image's history shows the observations in it that come after a number, as they
/// are stored and in ascending order, and none of another image's. An observation is shown as
/// the current one exactly where the image uses it.
pub proof fn law_history_shows_what_was_observed(
    m: TablesModel,
    image: Seq<char>,
    after: i64,
    limit: nat,
    rows: Seq<Observation>,
)
    requires
        reconcile_laws::rows_keyed(m),
        views::is_history_page(m, image, after, limit, rows),
    ensures
        lists(rows.map_values(|x: Observation| x@.id), is_past(m, image), Some(after), Some(limit)),
        forall|i: int|
            0 <= i < rows.len() ==> is_shown_observation(m, image, (#[trigger] rows[i])@),
{
    let there = is_past(m, image);
    let key = views::history_key(m, image);
    let keys = m.observations.map_values(key);
    let picks = choose|picks: Seq<usize>|
        {
            &&& #[trigger] ordering::is_page::<(i64, i64)>(
                keys,
                Some((after, 0i64)),
                Some(limit),
                picks,
            )
            &&& rows.len() == picks.len()
            &&& forall|i: int|
                0 <= i < rows.len() ==> (#[trigger] rows[i])@ == views::observation_view(
                    m,
                    image,
                    m.observations[picks[i] as int],
                )
        };
    let ids = rows.map_values(|x: Observation| x@.id);
    assert forall|i: int| 0 <= i < ids.len() implies keys[picks[i] as int] == Some(
        (#[trigger] ids[i], 0i64),
    ) by {
        assert(ordering::follows::<(i64, i64)>(Some((after, 0i64)), keys[picks[i] as int]));
        assert(keys[picks[i] as int] == key(m.observations[picks[i] as int]));
        assert(rows[i]@.id == ids[i]);
    }
    assert forall|j: int| 0 <= j < keys.len() implies (#[trigger] keys[j] matches Some(k) ==> k.1
        == 0 && there(k.0)) by {
        assert(keys[j] == key(m.observations[j]));
        lemma_history(m, image, m.observations[j].id);
    }
    assert forall|id: i64| #[trigger] there(id) implies exists|j: int|
        0 <= j < keys.len() && #[trigger] keys[j] == Some((id, 0i64)) by {
        let o = choose|o: int|
            0 <= o < m.observations.len() && (#[trigger] m.observations[o]).id == id;
        lemma_history(m, image, id);
        assert(keys[o] == key(m.observations[o]));
    }
    lemma_lists(keys, Some(after), Some(limit), picks, ids, there);
    assert forall|i: int| 0 <= i < rows.len() implies is_shown_observation(
        m,
        image,
        (#[trigger] rows[i])@,
    ) by {
        let o = picks[i] as int;
        assert(ordering::follows::<(i64, i64)>(Some((after, 0i64)), keys[o]));
        lemma_used(m, image, m.observations[o]);
        assert(shows_observation(m, image, rows[i]@, o));
    }
}

proof fn lemma_ordered<T>(s: Seq<T>, p: spec_fn(T) -> bool, k: spec_fn(T) -> i64)
    ensures
        ({
            let t = ordering::ordered(s.filter(p), k);
            &&& forall|j: int| 0 <= j < t.len() ==> s.contains(#[trigger] t[j]) && p(t[j])
            &&& forall|j: int| 0 <= j < s.len() && p(#[trigger] s[j]) ==> t.contains(s[j])
            &&& ordering::in_order(t, k)
        }),
{
    broadcast use vstd::seq_lib::group_to_multiset_ensures;

    let f = s.filter(p);
    let t = ordering::ordered(f, k);
    ordering::law_ordered_rows_are_the_same_in_order(f, k);
    assert forall|j: int| 0 <= j < t.len() implies s.contains(#[trigger] t[j]) && p(t[j]) by {
        assert(t.contains(t[j]));
        assert(t.to_multiset().count(t[j]) > 0);
        assert(f.contains(t[j]));
        let x = choose|x: int| 0 <= x < f.len() && f[x] == t[j];
        crate::catalog_metadata::ownership::lemma_filtered_from(s, p, x);
    }
    assert forall|j: int| 0 <= j < s.len() && p(#[trigger] s[j]) implies t.contains(s[j]) by {
        s.lemma_filter_contains(p, j);
        assert(f.contains(s[j]));
        assert(f.to_multiset().count(s[j]) > 0);
        assert(t.to_multiset().count(s[j]) > 0);
    }
}

/// The models that are shown of an observation are its own, all of them, as they are stored
/// and in the order of their places.
pub proof fn law_models_are_shown_in_order(m: TablesModel, image: Seq<char>, o: int)
    requires
        0 <= o < m.observations.len(),
    ensures
        ({
            let shown = views::observation_view(m, image, m.observations[o]).models;
            &&& forall|j: int|
                0 <= j < shown.len() ==> is_shown_model(m, #[trigger] shown[j], m.observations[o].id)
            &&& forall|k: int|
                0 <= k < m.models.len() && (#[trigger] m.models[k]).observation_id
                    == m.observations[o].id ==> model_is_shown(m, shown, k, m.observations[o].id)
            &&& forall|i: int, j: int|
                0 <= i < j < shown.len() ==> (#[trigger] shown[i]).ordinal <= (
                #[trigger] shown[j]).ordinal
        }),
{
    let oid = m.observations[o].id;
    let rows = store::model_rows(m, oid);
    let shown = views::observation_view(m, image, m.observations[o]).models;
    lemma_ordered(m.models, store::model_of(oid), store::model_ordinal());
    assert forall|j: int| 0 <= j < shown.len() implies is_shown_model(
        m,
        #[trigger] shown[j],
        oid,
    ) by {
        assert(m.models.contains(rows[j]) && store::model_of(oid)(rows[j]));
        let k = choose|k: int| 0 <= k < m.models.len() && m.models[k] == rows[j];
        assert(shows_model(m, shown[j], k, oid));
    }
    assert forall|k: int|
        0 <= k < m.models.len() && (#[trigger] m.models[k]).observation_id == oid implies model_is_shown(
        m,
        shown,
        k,
        oid,
    ) by {
        assert(store::model_of(oid)(m.models[k]));
        assert(rows.contains(m.models[k]));
        let j = choose|j: int| 0 <= j < rows.len() && rows[j] == m.models[k];
        assert(shows_model(m, shown[j], k, oid));
    }
    assert forall|i: int, j: int| 0 <= i < j < shown.len() implies (#[trigger] shown[i]).ordinal
        <= (#[trigger] shown[j]).ordinal by {
        assert(store::model_ordinal()(rows[i]) <= store::model_ordinal()(rows[j]));
    }
}

/// A change of an image's metadata is there.
pub open spec fn is_change(m: TablesModel, image: Seq<char>) -> spec_fn(i64) -> bool {
    |id: i64|
        exists|h: int|
            0 <= h < m.history.len() && (#[trigger] m.history[h]).id == id && m.history[h].image_id
                == image
}

/// A change is shown as one of an image's that was recorded.
pub open spec fn is_shown_change(m: TablesModel, image: Seq<char>, x: views::DecisionModel) -> bool {
    exists|h: int|
        0 <= h < m.history.len() && (#[trigger] m.history[h]).image_id == image && m.history[h].id
            == x.id && m.history[h].revision == x.revision && m.history[h].action == x.action
            && m.history[h].detail == x.detail && m.history[h].created_at == x.created_at
}

/// A page of an image's decisions shows the changes of its metadata that come after a number,
/// as they were recorded and in ascending order, and none of another image's.
pub proof fn law_decisions_show_what_was_done(
    m: TablesModel,
    image: Seq<char>,
    after: i64,
    limit: nat,
    rows: Seq<Decision>,
)
    requires
        views::is_decision_page(m, image, after, limit, rows),
    ensures
        lists(rows.map_values(|x: Decision| x@.id), is_change(m, image), Some(after), Some(limit)),
        forall|i: int|
            0 <= i < rows.len() ==> is_shown_change(m, image, (#[trigger] rows[i])@),
{
    let there = is_change(m, image);
    let key = views::decision_key(image);
    let keys = m.history.map_values(key);
    let picks = choose|picks: Seq<usize>|
        {
            &&& #[trigger] ordering::is_page::<(i64, i64)>(
                keys,
                Some((after, 0i64)),
                Some(limit),
                picks,
            )
            &&& rows.len() == picks.len()
            &&& forall|i: int|
                0 <= i < rows.len() ==> (#[trigger] rows[i])@ == (views::DecisionModel {
                    id: m.history[picks[i] as int].id,
                    revision: m.history[picks[i] as int].revision,
                    action: m.history[picks[i] as int].action,
                    detail: m.history[picks[i] as int].detail,
                    created_at: m.history[picks[i] as int].created_at,
                })
        };
    let ids = rows.map_values(|x: Decision| x@.id);
    assert forall|i: int| 0 <= i < ids.len() implies keys[picks[i] as int] == Some(
        (#[trigger] ids[i], 0i64),
    ) by {
        assert(ordering::follows::<(i64, i64)>(Some((after, 0i64)), keys[picks[i] as int]));
        assert(keys[picks[i] as int] == key(m.history[picks[i] as int]));
        assert(rows[i]@.id == ids[i]);
    }
    assert forall|j: int| 0 <= j < keys.len() implies (#[trigger] keys[j] matches Some(k) ==> k.1
        == 0 && there(k.0)) by {
        assert(keys[j] == key(m.history[j]));
    }
    assert forall|id: i64| #[trigger] there(id) implies exists|j: int|
        0 <= j < keys.len() && #[trigger] keys[j] == Some((id, 0i64)) by {
        let h = choose|h: int|
            0 <= h < m.history.len() && (#[trigger] m.history[h]).id == id && m.history[h].image_id
                == image;
        assert(keys[h] == key(m.history[h]));
    }
    lemma_lists(keys, Some(after), Some(limit), picks, ids, there);
    assert forall|i: int| 0 <= i < rows.len() implies is_shown_change(m, image, (#[trigger] rows[i])@) by {
        let h = picks[i] as int;
        assert(ordering::follows::<(i64, i64)>(Some((after, 0i64)), keys[h]));
        assert(keys[h] == key(m.history[h]));
        assert(m.history[h].image_id == image);
    }
}

/// A file in which an observation of a physical file's source was found is there.
pub open spec fn is_instance(m: TablesModel, asset: Seq<char>) -> spec_fn(i64) -> bool {
    |id: i64|
        exists|h: int|
            0 <= h < m.file_instances.len() && (#[trigger] m.file_instances[h]).id == id
                && m.file_instances[h].asset_id == asset
}

/// An instance is shown as one of a physical file's that was recorded.
pub open spec fn is_shown_instance(m: TablesModel, asset: Seq<char>, x: views::InstanceModel) -> bool {
    exists|h: int|
        0 <= h < m.file_instances.len() && (#[trigger] m.file_instances[h]).asset_id == asset
            && m.file_instances[h].id == x.id && m.file_instances[h].source_id == x.source_id
            && m.file_instances[h].provenance == x.provenance && m.file_instances[h].observed_at
            == x.observed_at
}

/// A page of a physical file's instances shows those that come after a number, as they were
/// recorded and in ascending order, and none of another file's.
pub proof fn law_instances_show_where_files_were_found(
    m: TablesModel,
    asset: Seq<char>,
    after: i64,
    limit: nat,
    rows: Seq<FileInstance>,
)
    requires
        views::is_instance_page(m, asset, after, limit, rows),
    ensures
        lists(
            rows.map_values(|x: FileInstance| x@.id),
            is_instance(m, asset),
            Some(after),
            Some(limit),
        ),
        forall|i: int|
            0 <= i < rows.len() ==> is_shown_instance(m, asset, (#[trigger] rows[i])@),
{
    let there = is_instance(m, asset);
    let key = views::instance_key(asset);
    let keys = m.file_instances.map_values(key);
    let picks = choose|picks: Seq<usize>|
        {
            &&& #[trigger] ordering::is_page::<(i64, i64)>(
                keys,
                Some((after, 0i64)),
                Some(limit),
                picks,
            )
            &&& rows.len() == picks.len()
            &&& forall|i: int|
                0 <= i < rows.len() ==> (#[trigger] rows[i])@ == (views::InstanceModel {
                    id: m.file_instances[picks[i] as int].id,
                    source_id: m.file_instances[picks[i] as int].source_id,
                    provenance: m.file_instances[picks[i] as int].provenance,
                    observed_at: m.file_instances[picks[i] as int].observed_at,
                })
        };
    let ids = rows.map_values(|x: FileInstance| x@.id);
    assert forall|i: int| 0 <= i < ids.len() implies keys[picks[i] as int] == Some(
        (#[trigger] ids[i], 0i64),
    ) by {
        assert(ordering::follows::<(i64, i64)>(Some((after, 0i64)), keys[picks[i] as int]));
        assert(keys[picks[i] as int] == key(m.file_instances[picks[i] as int]));
        assert(rows[i]@.id == ids[i]);
    }
    assert forall|j: int| 0 <= j < keys.len() implies (#[trigger] keys[j] matches Some(k) ==> k.1
        == 0 && there(k.0)) by {
        assert(keys[j] == key(m.file_instances[j]));
    }
    assert forall|id: i64| #[trigger] there(id) implies exists|j: int|
        0 <= j < keys.len() && #[trigger] keys[j] == Some((id, 0i64)) by {
        let h = choose|h: int|
            0 <= h < m.file_instances.len() && (#[trigger] m.file_instances[h]).id == id
                && m.file_instances[h].asset_id == asset;
        assert(keys[h] == key(m.file_instances[h]));
    }
    lemma_lists(keys, Some(after), Some(limit), picks, ids, there);
    assert forall|i: int| 0 <= i < rows.len() implies is_shown_instance(m, asset, (#[trigger] rows[i])@) by {
        let h = picks[i] as int;
        assert(ordering::follows::<(i64, i64)>(Some((after, 0i64)), keys[h]));
        assert(keys[h] == key(m.file_instances[h]));
        assert(m.file_instances[h].asset_id == asset);
    }
}

/// An image uses a source that is there.
pub open spec fn is_source_of(m: TablesModel, image: Seq<char>) -> spec_fn(i64) -> bool {
    |id: i64|
        exists|s: int, a: int|
            0 <= s < m.sources.len() && 0 <= a < m.image_sources.len() && (
            #[trigger] m.sources[s]).id == id && (#[trigger] m.image_sources[a]).source_id == id
                && m.image_sources[a].image_id == image
}

/// A source that an image uses is shown as the image uses it, with how the observation that it
/// uses came out.
pub open spec fn shows_source(
    m: TablesModel,
    image: Seq<char>,
    x: views::SourceStateModel,
    s: int,
    a: int,
) -> bool {
    &&& 0 <= s < m.sources.len()
    &&& 0 <= a < m.image_sources.len()
    &&& m.image_sources[a].image_id == image
    &&& m.image_sources[a].source_id == x.id
    &&& m.sources[s].id == x.id
    &&& m.sources[s].kind == x.kind
    &&& m.sources[s].display == x.display
    &&& m.image_sources[a].association == x.association
    &&& m.image_sources[a].availability == x.availability
    &&& m.image_sources[a].current_observation == x.observation_id
    &&& forall|o: int|
        0 <= o < m.observations.len() && Some((#[trigger] m.observations[o]).id) == x.observation_id
            ==> x.status == Some(m.observations[o].status) && x.issues == Some(
            m.observations[o].issues,
        )
    &&& x.observation_id is None ==> x.status is None && x.issues is None
}

/// A source is shown as one that an image uses.
pub open spec fn is_shown_source(m: TablesModel, image: Seq<char>, x: views::SourceStateModel) -> bool {
    exists|s: int, a: int| #[trigger] shows_source(m, image, x, s, a)
}

/// The sources of an image are those that it uses and no other image's, all of them, each as
/// the image uses it and in ascending order.
pub proof fn law_sources_are_shown_as_they_are_used(
    m: TablesModel,
    image: Seq<char>,
    rows: Seq<SourceState>,
)
    requires
        reconcile_laws::rows_keyed(m),
        views::are_sources(m, image, rows),
    ensures
        lists(rows.map_values(|x: SourceState| x@.id), is_source_of(m, image), None, None),
        forall|i: int|
            0 <= i < rows.len() ==> is_shown_source(m, image, (#[trigger] rows[i])@),
{
    let there = is_source_of(m, image);
    let key = views::usage_key(m, image);
    let keys = m.image_sources.map_values(key);
    let picks = choose|picks: Seq<usize>|
        {
            &&& #[trigger] ordering::is_page::<(i64, i64)>(keys, None, None, picks)
            &&& rows.len() == picks.len()
            &&& forall|i: int|
                0 <= i < rows.len() ==> (#[trigger] rows[i])@ == views::usage_view(
                    m,
                    m.image_sources[picks[i] as int],
                )
        };
    let ids = rows.map_values(|x: SourceState| x@.id);
    assert forall|i: int| 0 <= i < ids.len() implies keys[picks[i] as int] == Some(
        (#[trigger] ids[i], 0i64),
    ) by {
        assert(ordering::follows::<(i64, i64)>(None, keys[picks[i] as int]));
        assert(keys[picks[i] as int] == key(m.image_sources[picks[i] as int]));
        assert(rows[i]@.id == ids[i]);
    }
    assert forall|j: int| 0 <= j < keys.len() implies (#[trigger] keys[j] matches Some(k) ==> k.1
        == 0 && there(k.0)) by {
        assert(keys[j] == key(m.image_sources[j]));
        if keys[j] is Some {
            let id = m.image_sources[j].source_id;
            support::lemma_first_where(m.sources, lookups::source_with_id(id));
            let s = m.source_at(id)->Some_0;
            assert(m.sources[s].id == id && m.image_sources[j].source_id == id);
        }
    }
    assert forall|id: i64| #[trigger] there(id) implies exists|j: int|
        0 <= j < keys.len() && #[trigger] keys[j] == Some((id, 0i64)) by {
        let (s, a) = choose|s: int, a: int|
            0 <= s < m.sources.len() && 0 <= a < m.image_sources.len() && (
            #[trigger] m.sources[s]).id == id && (#[trigger] m.image_sources[a]).source_id == id
                && m.image_sources[a].image_id == image;
        support::lemma_first_where(m.sources, lookups::source_with_id(id));
        assert(lookups::source_with_id(id)(m.sources[s]));
        assert(keys[a] == key(m.image_sources[a]));
    }
    lemma_lists(keys, None, None, picks, ids, there);
    assert forall|i: int| 0 <= i < rows.len() implies is_shown_source(
        m,
        image,
        (#[trigger] rows[i])@,
    ) by {
        let a = picks[i] as int;
        assert(ordering::follows::<(i64, i64)>(None, keys[a]));
        assert(keys[a] == key(m.image_sources[a]));
        let row = m.image_sources[a];
        support::lemma_first_where(m.sources, lookups::source_with_id(row.source_id));
        let s = m.source_at(row.source_id)->Some_0;
        let x = rows[i]@;
        assert forall|o: int|
            0 <= o < m.observations.len() && Some((#[trigger] m.observations[o]).id)
                == x.observation_id implies x.status == Some(m.observations[o].status) && x.issues
            == Some(m.observations[o].issues) by {
            let q = lookups::observation_with_id(m.observations[o].id);
            assert forall|j: int| 0 <= j < m.observations.len() && j != o implies !q(
                #[trigger] m.observations[j],
            ) by {
                if j < o {
                    assert(m.observations[j].id != m.observations[o].id);
                } else {
                    assert(m.observations[o].id != m.observations[j].id);
                }
            }
            reconcile_laws::lemma_only(m.observations, q, o);
        }
        assert(shows_source(m, image, x, s, a));
    }
}

/// The bytes of a model are given out for editing or exporting only where the model is of an
/// observation in the image's history and was read without an error; they are those of the
/// digest that the model was stored with.
pub proof fn law_only_sound_models_can_be_edited(m: TablesModel, image: Seq<char>, model: i64)
    ensures
        m.editable_bytes(image, model) matches Ok(bytes) ==> exists|k: int|
            0 <= k < m.models.len() && (#[trigger] m.models[k]).id == model && m.models[k].error
                is None && store_laws::in_history(m, image, m.models[k].observation_id)
                && outside::blake3_hex(bytes) == m.models[k].blob_hash,
{
    support::lemma_first_where(m.models, lookups::model_with_id(model));
    if m.editable_bytes(image, model) is Ok {
        let k = m.model_at(model)->Some_0;
        lemma_history(m, image, m.models[k].observation_id);
        assert(m.models[k].id == model);
    }
}

/// A packet is given out as it is stored, with bytes of its digest.
pub open spec fn shows_packet(
    m: TablesModel,
    x: views::PacketEvidenceModel,
    k: int,
    oid: i64,
) -> bool {
    &&& 0 <= k < m.packets.len()
    &&& m.packets[k].observation_id == oid
    &&& x.ordinal == m.packets[k].ordinal
    &&& x.descriptor == m.packets[k].descriptor
    &&& x.blake3 == m.packets[k].blob_hash
    &&& outside::blake3_hex(x.bytes) == x.blake3
}

/// A packet is given out as one of the stored.
pub open spec fn is_shown_packet(m: TablesModel, x: views::PacketEvidenceModel, oid: i64) -> bool {
    exists|k: int| #[trigger] shows_packet(m, x, k, oid)
}

/// A stored packet is among those that are given out.
pub open spec fn packet_is_shown(
    m: TablesModel,
    xs: Seq<views::PacketEvidenceModel>,
    k: int,
    oid: i64,
) -> bool {
    exists|j: int| 0 <= j < xs.len() && #[trigger] shows_packet(m, xs[j], k, oid)
}

proof fn lemma_packets_read(m: TablesModel, rows: Seq<tables::PacketModel>, n: nat)
    requires
        n <= rows.len(),
    ensures
        views::packets_read(m, rows, n) matches Ok(xs) ==> xs.len() == n && forall|j: int|
            0 <= j < n ==> (#[trigger] xs[j]).ordinal == rows[j].ordinal && xs[j].descriptor
                == rows[j].descriptor && xs[j].blake3 == rows[j].blob_hash && outside::blake3_hex(
                xs[j].bytes,
            ) == xs[j].blake3,
    decreases n,
{
    if n > 0 {
        lemma_packets_read(m, rows, (n - 1) as nat);
    }
}

/// The packets of an observation are given out only for an image that has it in its history:
/// all of them and no other's, in the order of their places, each with bytes of its digest.
pub proof fn law_packets_are_given_out_whole(m: TablesModel, image: Seq<char>, oid: i64)
    ensures
        !store_laws::in_history(m, image, oid) ==> views::packets_for(m, image, oid) is Err,
        views::packets_for(m, image, oid) matches Ok(xs) ==> {
            &&& forall|j: int|
                0 <= j < xs.len() ==> is_shown_packet(m, #[trigger] xs[j], oid)
            &&& forall|k: int|
                0 <= k < m.packets.len() && (#[trigger] m.packets[k]).observation_id == oid
                    ==> packet_is_shown(m, xs, k, oid)
            &&& forall|i: int, j: int|
                0 <= i < j < xs.len() ==> (#[trigger] xs[i]).ordinal <= (#[trigger] xs[j]).ordinal
        },
{
    lemma_history(m, image, oid);
    if let Ok(xs) = views::packets_for(m, image, oid) {
        let rows = views::packet_rows(m, oid);
        lemma_ordered(m.packets, views::packet_of(oid), views::packet_ordinal());
        lemma_packets_read(m, rows, rows.len());
        assert forall|j: int| 0 <= j < xs.len() implies is_shown_packet(
            m,
            #[trigger] xs[j],
            oid,
        ) by {
            assert(m.packets.contains(rows[j]) && views::packet_of(oid)(rows[j]));
            let k = choose|k: int| 0 <= k < m.packets.len() && m.packets[k] == rows[j];
            assert(shows_packet(m, xs[j], k, oid));
        }
        assert forall|k: int|
            0 <= k < m.packets.len() && (#[trigger] m.packets[k]).observation_id == oid implies packet_is_shown(
            m,
            xs,
            k,
            oid,
        ) by {
            assert(views::packet_of(oid)(m.packets[k]));
            assert(rows.contains(m.packets[k]));
            let j = choose|j: int| 0 <= j < rows.len() && rows[j] == m.packets[k];
            assert(shows_packet(m, xs[j], k, oid));
        }
        assert forall|i: int, j: int| 0 <= i < j < xs.len() implies (#[trigger] xs[i]).ordinal <= (
        #[trigger] xs[j]).ordinal by {
            assert(views::packet_ordinal()(rows[i]) <= views::packet_ordinal()(rows[j]));
        }
    }
}

} // verus!

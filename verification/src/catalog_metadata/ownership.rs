//! Images share their physical files, but each owns its metadata: what is done for one
//! image is not seen in another, and nothing is taken up that is not settled.
use crate::catalog_images;
use crate::catalog_images::epochs;
use crate::catalog_images::refresh;
use crate::catalog_images::register;
use crate::catalog_metadata;
use crate::catalog_metadata::edit;
use crate::catalog_metadata::edit::PreparedEdit;
use crate::catalog_metadata::laws;
use crate::catalog_metadata::prepared;
use crate::catalog_metadata::store;
use crate::catalog_metadata::views;
use crate::error::CatalogError;
use crate::lookups;
use crate::support;
use crate::tables;
use crate::tables::TablesModel;
use vstd::prelude::*;

verus! {

/// The first element that satisfies `q`.
pub open spec fn found<T>(s: Seq<T>, q: spec_fn(T) -> bool) -> Option<T> {
    match support::first_where(s, q) {
        Some(i) => Some(s[i]),
        None => None,
    }
}

/// The value in effect for a field of an image, where it has one.
pub open spec fn in_effect(m: TablesModel, image: Seq<char>, field: Seq<char>) -> Option<
    tables::EffectiveValue,
> {
    if m.effective.contains_key((image, field)) {
        Some(m.effective[(image, field)])
    } else {
        None
    }
}

/// What an image holds is as it was: its revision, its choices and values in effect, the
/// sources that it uses and the observations in its history.
pub open spec fn keeps_holdings(before: TablesModel, after: TablesModel, image: Seq<char>) -> bool {
    &&& after.revision_of(image) == before.revision_of(image)
    &&& forall|f: Seq<char>| #[trigger]
        after.choice_of(image, f) == before.choice_of(image, f)
    &&& forall|f: Seq<char>| #[trigger] in_effect(after, image, f) == in_effect(before, image, f)
    &&& forall|s: i64|
        found(after.image_sources, #[trigger] lookups::image_source_for(image, s)) == found(
            before.image_sources,
            lookups::image_source_for(image, s),
        )
    &&& forall|o: i64|
        (#[trigger] after.image_observation_at(image, o) is Some) == (before.image_observation_at(
            image,
            o,
        ) is Some)
}

/// All that an image shows is as it was: its row and what it holds.
pub open spec fn keeps_image(before: TablesModel, after: TablesModel, image: Seq<char>) -> bool {
    &&& found(after.images, lookups::image_with_id(image)) == found(
        before.images,
        lookups::image_with_id(image),
    )
    &&& keeps_holdings(before, after, image)
}

proof fn lemma_update_apart<T>(s: Seq<T>, i: int, x: T, q: spec_fn(T) -> bool)
    requires
        0 <= i < s.len(),
        !q(s[i]),
        !q(x),
    ensures
        found(s.update(i, x), q) == found(s, q),
        support::first_where(s.update(i, x), q) == support::first_where(s, q),
{
    support::lemma_replaced(s, s.update(i, x), i, q);
    support::lemma_first_where(s, q);
}

proof fn lemma_push_apart<T>(s: Seq<T>, x: T, q: spec_fn(T) -> bool)
    requires
        !q(x),
    ensures
        found(s.push(x), q) == found(s, q),
        support::first_where(s.push(x), q) is Some == support::first_where(s, q) is Some,
{
    support::lemma_pushed(s, s.push(x), q);
    support::lemma_first_where(s, q);
}

proof fn lemma_put_apart<T>(s: Seq<T>, p: spec_fn(T) -> bool, x: T, q: spec_fn(T) -> bool)
    requires
        !q(x),
        forall|y: T| #[trigger] p(y) ==> !q(y),
    ensures
        found(support::put(s, p, x), q) == found(s, q),
{
    support::lemma_first_where(s, p);
    match support::first_where(s, p) {
        Some(i) => lemma_update_apart(s, i, x, q),
        None => lemma_push_apart(s, x, q),
    }
}

proof fn lemma_revision(before: TablesModel, after: TablesModel, image: Seq<char>)
    requires
        found(after.revisions, lookups::revision_for(image)) == found(
            before.revisions,
            lookups::revision_for(image),
        ),
    ensures
        after.revision_of(image) == before.revision_of(image),
{
}

proof fn lemma_choice(before: TablesModel, after: TablesModel, image: Seq<char>, f: Seq<char>)
    requires
        found(after.choices, lookups::choice_for(image, f)) == found(
            before.choices,
            lookups::choice_for(image, f),
        ),
    ensures
        after.choice_of(image, f) == before.choice_of(image, f),
{
}

proof fn lemma_chosen_apart(
    m: TablesModel,
    image: Seq<char>,
    field: Seq<char>,
    model: i64,
    other: Seq<char>,
)
    requires
        other != image,
    ensures
        keeps_image(m, m.chosen(image, field, model), other),
{
    let after = m.chosen(image, field, model);
    assert forall|f: Seq<char>| #[trigger]
        after.choice_of(other, f) == m.choice_of(other, f) by {
        lemma_put_apart(
            m.choices,
            lookups::choice_for(image, field),
            (tables::ChoiceModel { image_id: image, field, model_id: model }),
            lookups::choice_for(other, f),
        );
        lemma_choice(m, after, other, f);
    }
}

proof fn lemma_advance_apart(
    m: TablesModel,
    image: Seq<char>,
    action: Seq<char>,
    detail: tables::DetailModel,
    affects_pixels: bool,
    other: Seq<char>,
)
    requires
        other != image,
    ensures
        catalog_metadata::advance_outcome(m, image, action, detail, affects_pixels) matches Ok(
            (after, _),
        ) ==> keeps_image(m, after, other),
{
    if let Ok((after, next)) = catalog_metadata::advance_outcome(
        m,
        image,
        action,
        detail,
        affects_pixels,
    ) {
        lemma_put_apart(
            m.revisions,
            lookups::revision_for(image),
            (tables::RevisionModel { image_id: image, revision: next }),
            lookups::revision_for(other),
        );
        lemma_revision(m, after, other);
        if affects_pixels {
            support::lemma_first_where(m.images, lookups::image_with_id(image));
            let i = m.image_at(image)->Some_0;
            lemma_update_apart(m.images, i, after.images[i], lookups::image_with_id(other));
        }
    }
}

proof fn lemma_rebuilt_apart(m: TablesModel, image: Seq<char>, other: Seq<char>)
    requires
        other != image,
    ensures
        keeps_image(m, m.rebuilt(image), other),
{
}

proof fn lemma_keeps(a: TablesModel, b: TablesModel, c: TablesModel, image: Seq<char>)
    requires
        keeps_image(a, b, image),
        keeps_image(b, c, image),
    ensures
        keeps_image(a, c, image),
{
    assert forall|f: Seq<char>| #[trigger] c.choice_of(image, f) == a.choice_of(image, f) by {
        assert(b.choice_of(image, f) == a.choice_of(image, f));
    }
    assert forall|f: Seq<char>| #[trigger] in_effect(c, image, f) == in_effect(a, image, f) by {
        assert(in_effect(b, image, f) == in_effect(a, image, f));
    }
    assert forall|o: i64|
        (#[trigger] c.image_observation_at(image, o) is Some) == (a.image_observation_at(image, o)
            is Some) by {
        assert(b.image_observation_at(image, o) is Some == a.image_observation_at(image, o)
            is Some);
    }
}

/// Neither images nor files changed, nor anything that images hold for themselves.
spec fn same_holdings(before: TablesModel, after: TablesModel) -> bool {
    &&& before.images == after.images
    &&& before.assets == after.assets
    &&& before.revisions == after.revisions
    &&& before.choices == after.choices
    &&& before.effective == after.effective
    &&& before.image_sources == after.image_sources
    &&& before.image_observations == after.image_observations
}

/// Models came only behind those that there were, and are all of one observation.
spec fn adds_models(before: TablesModel, after: TablesModel, oid: int) -> bool {
    forall|k: int|
        before.models.len() <= k < after.models.len() ==> (
        #[trigger] after.models[k]).observation_id == oid
}

proof fn lemma_blobs_apart(m: TablesModel, blobs: Seq<tables::BlobModel>, n: nat)
    ensures
        same_holdings(m, store::blobs_added(m, blobs, n)),
        store::blobs_added(m, blobs, n).models == m.models,
        store::blobs_added(m, blobs, n).observation_high == m.observation_high,
    decreases n,
{
    if n > 0 {
        lemma_blobs_apart(m, blobs, (n - 1) as nat);
    }
}

proof fn lemma_values_apart(
    m: TablesModel,
    mid: i64,
    values: Seq<prepared::PreparedValueModel>,
    n: nat,
)
    ensures
        store::values_added(m, mid, values, n) matches Ok(after) ==> same_holdings(m, after)
            && after.models == m.models,
    decreases n,
{
    if n > 0 {
        lemma_values_apart(m, mid, values, (n - 1) as nat);
    }
}

proof fn lemma_models_apart(
    m: TablesModel,
    oid: i64,
    models: Seq<prepared::PreparedModelModel>,
    n: nat,
)
    ensures
        store::models_added(m, oid, models, n) matches Ok(after) ==> same_holdings(m, after)
            && adds_models(m, after, oid as int),
    decreases n,
{
    if n > 0 {
        lemma_models_apart(m, oid, models, (n - 1) as nat);
        if let Ok(before) = store::models_added(m, oid, models, (n - 1) as nat) {
            let model = models[n - 1];
            let mid = (before.model_high + 1) as i64;
            let with = TablesModel {
                models: before.models.push(
                    tables::InterpretationModel {
                        id: mid,
                        observation_id: oid,
                        ordinal: (n - 1) as i64,
                        blob_hash: model.hash,
                        descriptor: model.descriptor,
                        projection: model.projection,
                        error: model.error,
                    },
                ),
                model_high: mid,
                ..before
            };
            lemma_values_apart(with, mid, model.fields, model.fields.len());
        }
    }
}

proof fn lemma_added_apart(m: TablesModel, sid: i64, p: prepared::PreparedObservation)
    ensures
        store::observation_added(m, sid, p) matches Ok((after, _)) ==> same_holdings(m, after)
            && adds_models(m, after, m.observation_high + 1),
{
    if let Ok((after, oid)) = store::observation_added(m, sid, p) {
        let stored = store::blobs_added(m, p.blobs, p.blobs.len());
        lemma_blobs_apart(m, p.blobs, p.blobs.len());
        let seen = TablesModel {
            observations: stored.observations.push(
                tables::ObservationModel {
                    id: oid,
                    source_id: sid,
                    revision: p.revision,
                    status: p.status,
                    issues: p.issues,
                    provenance: p.provenance,
                    source_provenance: p.source_provenance,
                    file_length: p.file_length,
                    file_blake3: p.file_blake3,
                    modified: p.modified,
                },
            ),
            observation_high: oid,
            ..stored
        };
        lemma_models_apart(
            store::packets_added(seen, oid, p.packets),
            oid,
            p.models,
            p.models.len(),
        );
    }
}

proof fn lemma_usage_apart(
    m: TablesModel,
    image: Seq<char>,
    source: store::SourceRequest,
    status: Seq<char>,
    sid: i64,
    oid: i64,
    other: Seq<char>,
)
    requires
        other != image,
    ensures
        store::store_usage(m, image, source, status, sid, oid) matches Ok((after, _, _))
            ==> keeps_image(m, after, other),
{
    if let Ok((after, _, _)) = store::store_usage(m, image, source, status, sid, oid) {
        assert forall|o: i64|
            (#[trigger] after.image_observation_at(other, o) is Some) == (m.image_observation_at(
                other,
                o,
            ) is Some) by {
            lemma_push_apart(
                m.image_observations,
                (tables::ImageObservationModel { image_id: image, observation_id: oid }),
                lookups::image_observation_for(other, o),
            );
        }
        assert forall|s: i64|
            found(after.image_sources, #[trigger] lookups::image_source_for(other, s)) == found(
                m.image_sources,
                lookups::image_source_for(other, s),
            ) by {
            let q = lookups::image_source_for(other, s);
            support::lemma_first_where(m.image_sources, lookups::image_source_for(image, sid));
            match m.image_source_at(image, sid) {
                Some(a) => lemma_update_apart(m.image_sources, a, after.image_sources[a], q),
                None => lemma_push_apart(m.image_sources, after.image_sources.last(), q),
            }
        }
    }
}

proof fn lemma_store_apart(
    m: TablesModel,
    image: Seq<char>,
    source: store::SourceRequest,
    p: prepared::PreparedObservation,
    other: Seq<char>,
)
    requires
        other != image,
    ensures
        store::store_outcome(m, image, source, p) matches Ok((after, _, _)) ==> keeps_image(
            m,
            after,
            other,
        ) && adds_models(m, after, m.observation_high + 1) && after.images == m.images
            && after.assets == m.assets && after.revisions == m.revisions,
{
    if let Ok((after, oid, _)) = store::store_outcome(m, image, source, p) {
        let asset = m.images[m.image_at(image)->Some_0].asset_id;
        let locator = source.scoped_locator(image, asset);
        let (m1, sid) = store::source_put(m, asset, source, locator)->Ok_0;
        assert(same_holdings(m, m1));
        lemma_added_apart(m1, sid, p);
        let current = match m.source_named(asset, source.kind, locator) {
            Some(s) => m.sources[s].current_observation,
            None => None,
        };
        let (m2, _) = store::observed(m1, asset, sid, current, p)->Ok_0;
        assert(same_holdings(m1, m2));
        lemma_usage_apart(m2, image, source, p.status, sid, oid, other);
        assert(keeps_image(m, m2, other));
        lemma_keeps(m, m2, after, other);
    }
}

pub(crate) proof fn lemma_store_choices(
    m: TablesModel,
    image: Seq<char>,
    source: store::SourceRequest,
    p: prepared::PreparedObservation,
)
    ensures
        store::store_outcome(m, image, source, p) matches Ok((after, _, _)) ==> after.choices
            == m.choices && after.revisions == m.revisions && after.images == m.images
            && after.assets == m.assets && after.effective == m.effective,
{
    if let Ok((after, oid, _)) = store::store_outcome(m, image, source, p) {
        let asset = m.images[m.image_at(image)->Some_0].asset_id;
        let locator = source.scoped_locator(image, asset);
        let (m1, sid) = store::source_put(m, asset, source, locator)->Ok_0;
        assert(same_holdings(m, m1));
        lemma_added_apart(m1, sid, p);
        let current = match m.source_named(asset, source.kind, locator) {
            Some(s) => m.sources[s].current_observation,
            None => None,
        };
        let (m2, _) = store::observed(m1, asset, sid, current, p)->Ok_0;
        assert(same_holdings(m1, m2));
    }
}

pub(crate) proof fn lemma_edit_kept(
    m: TablesModel,
    after: TablesModel,
    e: PreparedEdit,
    model: i64,
    n: nat,
)
    ensures
        edit::edit_chosen(m, after, e, model, n).images == after.images,
        edit::edit_chosen(m, after, e, model, n).assets == after.assets,
        edit::edit_chosen(m, after, e, model, n).revisions == after.revisions,
    decreases n,
{
    if n > 0 {
        lemma_edit_kept(m, after, e, model, (n - 1) as nat);
    }
}

/// An observation that is retained for one image alone changes nothing for any other,
/// not even for one of the same physical file.
pub proof fn law_observations_stay_with_their_image(
    m: TablesModel,
    image: Seq<char>,
    source: store::SourceRequest,
    p: prepared::PreparedObservation,
    other: Seq<char>,
)
    requires
        other != image,
    ensures
        store::retain_outcome(m, image, source, p, false) matches Ok((after, _)) ==> keeps_image(
            m,
            after,
            other,
        ),
{
    if let Ok((after, change)) = store::retain_outcome(m, image, source, p, false) {
        lemma_store_apart(m, image, source, p, other);
        let (stored, oid, changed) = store::store_outcome(m, image, source, p)->Ok_0;
        if changed {
            lemma_rebuilt_apart(stored, image, other);
            lemma_keeps(m, stored, stored.rebuilt(image), other);
            lemma_advance_apart(
                stored.rebuilt(image),
                image,
                "observe"@,
                tables::DetailModel::Observed { observation_id: oid },
                true,
                other,
            );
            lemma_keeps(m, stored.rebuilt(image), after, other);
        }
    }
}

/// Settling a conflict for one image changes nothing for any other.
pub proof fn law_choices_stay_with_their_image(
    m: TablesModel,
    image: Seq<char>,
    expected: i64,
    field: Seq<char>,
    model: i64,
    other: Seq<char>,
)
    requires
        other != image,
    ensures
        views::resolve_outcome(m, image, expected, field, model) matches Ok((after, _))
            ==> keeps_image(m, after, other),
{
    if let Ok((after, _)) = views::resolve_outcome(m, image, expected, field, model) {
        let chosen = m.chosen(image, field, model);
        lemma_chosen_apart(m, image, field, model, other);
        lemma_rebuilt_apart(chosen, image, other);
        lemma_keeps(m, chosen, chosen.rebuilt(image), other);
        lemma_advance_apart(
            chosen.rebuilt(image),
            image,
            "resolve"@,
            tables::DetailModel::Resolved { field, model_id: model },
            true,
            other,
        );
        lemma_keeps(m, chosen.rebuilt(image), after, other);
    }
}

proof fn lemma_edit_chosen_apart(
    m: TablesModel,
    after: TablesModel,
    e: PreparedEdit,
    model: i64,
    n: nat,
    other: Seq<char>,
)
    requires
        other != e.image_identity.image_id@,
    ensures
        keeps_image(after, edit::edit_chosen(m, after, e, model, n), other),
        edit::edit_chosen(m, after, e, model, n).images == after.images,
        edit::edit_chosen(m, after, e, model, n).assets == after.assets,
        edit::edit_chosen(m, after, e, model, n).revisions == after.revisions,
    decreases n,
{
    if n > 0 {
        lemma_edit_chosen_apart(m, after, e, model, (n - 1) as nat, other);
        let before = edit::edit_chosen(m, after, e, model, (n - 1) as nat);
        let v = e.updated@[n - 1]@;
        lemma_chosen_apart(before, e.image_identity.image_id@, v.field, model, other);
        if edit::edit_chooses(m, e, v) {
            lemma_keeps(
                after,
                before,
                before.chosen(e.image_identity.image_id@, v.field, model),
                other,
            );
        }
    }
}

/// Editing one image's metadata changes nothing for any other.
pub proof fn law_edits_stay_with_their_image(m: TablesModel, e: PreparedEdit, other: Seq<char>)
    requires
        other != e.image_identity.image_id@,
    ensures
        edit::commit_outcome(m, e) matches Ok((after, _)) ==> keeps_image(m, after, other),
{
    if let Ok((after, _)) = edit::commit_outcome(m, e) {
        let image = e.image_identity.image_id@;
        lemma_store_apart(m, image, e.source@, e.prepared@, other);
        let (stored, oid, _) = store::store_outcome(m, image, e.source@, e.prepared@)->Ok_0;
        let ids = store::models_of(stored, oid);
        let chosen = edit::edit_chosen(m, stored, e, ids[0], e.updated@.len());
        lemma_edit_chosen_apart(m, stored, e, ids[0], e.updated@.len(), other);
        lemma_keeps(m, stored, chosen, other);
        lemma_rebuilt_apart(chosen, image, other);
        lemma_keeps(m, chosen, chosen.rebuilt(image), other);
        lemma_advance_apart(
            chosen.rebuilt(image),
            image,
            "edit"@,
            tables::DetailModel::Edited {
                base_model: e.base_model,
                observation_id: oid,
                edits: e.edits@,
            },
            e.organization_fields@.len() == 0,
            other,
        );
        lemma_keeps(m, chosen.rebuilt(image), after, other);
    }
}

/// Ambiguous evidence is never taken up by itself: as long as nothing was chosen and one
/// candidate for a field is ambiguous, the field is conflicted and has no value.
pub proof fn law_ambiguous_evidence_is_not_taken_up(
    m: TablesModel,
    image: Seq<char>,
    field: Seq<char>,
    i: int,
)
    requires
        m.choice_of(image, field) is None,
        0 <= i < m.candidates_for(image, field).len(),
        m.candidates_for(image, field)[i].ambiguous,
    ensures
        m.resolved(image, field).conflicted,
        m.resolved(image, field).value is None,
        m.resolved(image, field).model_id is None,
{
}

/// A choice binds what its model said. Once no current source offers that model any more,
/// the field is conflicted: no other value takes the place of the chosen one.
pub proof fn law_stale_choices_show(m: TablesModel, image: Seq<char>, field: Seq<char>, model: i64)
    requires
        m.choice_of(image, field) == Some(model),
        forall|i: int|
            0 <= i < m.candidates_for(image, field).len() ==> (#[trigger] m.candidates_for(
                image,
                field,
            )[i]).model_id != model,
    ensures
        m.resolved(image, field).conflicted,
        m.resolved(image, field).value is None,
        m.rebuilt(image).effective.contains_key((image, field)),
{
    support::lemma_first_where(
        m.candidates_for(image, field),
        catalog_metadata::candidate_of_model(model),
    );
}

/// A change that cannot affect pixels leaves every rendering as it is; one that can makes
/// those of its image stale.
pub proof fn law_renderings_follow_the_pixels(
    m: TablesModel,
    image: Seq<char>,
    action: Seq<char>,
    detail: tables::DetailModel,
    affects_pixels: bool,
)
    ensures
        catalog_metadata::advance_outcome(m, image, action, detail, affects_pixels) matches Ok(
            (after, _),
        ) ==> if affects_pixels {
            found(after.images, lookups::image_with_id(image))->Some_0.pixel_generation == found(
                m.images,
                lookups::image_with_id(image),
            )->Some_0.pixel_generation + 1
        } else {
            after.images == m.images && after.assets == m.assets
        },
{
    if let Ok((after, _)) = catalog_metadata::advance_outcome(
        m,
        image,
        action,
        detail,
        affects_pixels,
    ) {
        support::lemma_first_where(m.images, lookups::image_with_id(image));
        if affects_pixels {
            let i = m.image_at(image)->Some_0;
            support::lemma_replaced(m.images, after.images, i, lookups::image_with_id(image));
        }
    }
}

/// A file that was only moved or copied keeps its observation: nothing is added but a
/// note of where it was found.
pub proof fn law_moved_files_keep_their_observation(
    m: TablesModel,
    asset: Seq<char>,
    sid: i64,
    current: i64,
    p: prepared::PreparedObservation,
)
    requires
        m.observation_at(current) matches Some(o) && store::relocates(m.observations[o], p) == Ok::<
            bool,
            CatalogError,
        >(true),
        m.observation_named(sid, p.revision) is None,
    ensures
        store::observed(m, asset, sid, Some(current), p) matches Ok((after, oid)) ==> oid == current
            && after == (TablesModel {
            file_instances: after.file_instances,
            instance_high: after.instance_high,
            ..m
        }),
{
}

/// What images hold belongs to images that there are.
pub open spec fn holdings_wf(m: TablesModel) -> bool {
    &&& forall|i: int|
        0 <= i < m.choices.len() ==> m.image_at((#[trigger] m.choices[i]).image_id) is Some
    &&& forall|i: int|
        0 <= i < m.image_sources.len() ==> m.image_at((#[trigger] m.image_sources[i]).image_id)
            is Some
    &&& forall|i: int|
        0 <= i < m.image_observations.len() ==> m.image_at(
            (#[trigger] m.image_observations[i]).image_id,
        ) is Some
    &&& forall|k: (Seq<char>, Seq<char>)| #[trigger]
        m.effective.contains_key(k) ==> m.image_at(k.0) is Some
}

proof fn lemma_found_behind<T>(a: Seq<T>, b: Seq<T>, q: spec_fn(T) -> bool)
    requires
        forall|i: int| 0 <= i < a.len() ==> !q(#[trigger] a[i]),
    ensures
        found(a + b, q) == found(b, q),
{
    support::lemma_first_where(b, q);
    let s = a + b;
    match support::first_where(b, q) {
        Some(j) => {
            assert forall|i: int| 0 <= i < a.len() + j implies !q(#[trigger] s[i]) by {
                if i < a.len() {
                    assert(s[i] == a[i]);
                } else {
                    assert(s[i] == b[i - a.len()]);
                }
            }
            support::lemma_first_found(s, q, a.len() + j);
        },
        None => {
            assert forall|i: int| 0 <= i < s.len() implies !q(#[trigger] s[i]) by {
                if i < a.len() {
                    assert(s[i] == a[i]);
                } else {
                    assert(s[i] == b[i - a.len()]);
                }
            }
            support::lemma_none_found(s, q);
        },
    }
}

pub(crate) proof fn lemma_filtered_from<T>(s: Seq<T>, p: spec_fn(T) -> bool, i: int)
    requires
        0 <= i < s.filter(p).len(),
    ensures
        s.contains(s.filter(p)[i]),
        p(s.filter(p)[i]),
    decreases s.len(),
{
    reveal(Seq::filter);
    let t = s.drop_last();
    assert(s.contains(s.last()));
    if i < t.filter(p).len() {
        lemma_filtered_from(t, p, i);
        let k = choose|k: int| 0 <= k < t.len() && t[k] == t.filter(p)[i];
        assert(s[k] == t.filter(p)[i]);
    }
}

proof fn lemma_duplicated_found<T>(
    rows: Seq<T>,
    p: spec_fn(T) -> bool,
    f: spec_fn(T) -> T,
    q: spec_fn(T) -> bool,
    origin: spec_fn(T) -> bool,
)
    requires
        forall|i: int| 0 <= i < rows.len() ==> !q(#[trigger] rows[i]),
        forall|y: T| #[trigger] p(y) ==> q(f(y)) == origin(y),
        forall|y: T| #[trigger] origin(y) ==> p(y),
    ensures
        found(register::duplicated(rows, p, f), q) == match found(rows, origin) {
            Some(y) => Some(f(y)),
            None => None,
        },
{
    let kept = rows.filter(p);
    let copies = kept.map_values(f);
    lemma_found_behind(rows, copies, q);
    support::lemma_first_where(rows, origin);
    match support::first_where(rows, origin) {
        Some(j) => {
            let head = rows.take(j);
            let tail = rows.skip(j + 1);
            assert(rows =~= head.push(rows[j]) + tail);
            Seq::filter_distributes_over_add(head.push(rows[j]), tail, p);
            support::lemma_filter_push(head, rows[j], p);
            let n = head.filter(p).len() as int;
            assert(kept[n] == rows[j]);
            assert forall|i: int| 0 <= i < n implies !q(#[trigger] copies[i]) by {
                assert(kept[i] == head.filter(p)[i]);
                lemma_filtered_from(head, p, i);
                let k = choose|k: int| 0 <= k < head.len() && head[k] == head.filter(p)[i];
                assert(!origin(rows[k]));
            }
            support::lemma_first_found(copies, q, n);
        },
        None => {
            assert forall|i: int| 0 <= i < copies.len() implies !q(#[trigger] copies[i]) by {
                lemma_filtered_from(rows, p, i);
                let k = choose|k: int| 0 <= k < rows.len() && rows[k] == kept[i];
                assert(!origin(rows[k]));
            }
            support::lemma_none_found(copies, q);
        },
    }
}

/// A copy starts out as what it was copied from: with the same revision, choices, values in
/// effect, sources and history.
pub proof fn law_copies_start_as_their_original(
    m: TablesModel,
    key: catalog_images::VariantKeyModel,
    source: catalog_images::VariantKeyModel,
    fresh: Seq<char>,
)
    requires
        holdings_wf(m),
        register::copy_outcome(m, key, source, fresh) is Ok,
    ensures
        ({
            let after = register::copy_outcome(m, key, source, fresh)->Ok_0;
            let from = m.id_of(source)->Some_0;
            &&& after.revision_of(fresh) == m.revision_of(from)
            &&& forall|f: Seq<char>| #[trigger]
                after.choice_of(fresh, f) == m.choice_of(from, f)
            &&& forall|f: Seq<char>| #[trigger]
                in_effect(after, fresh, f) == in_effect(m, from, f)
            &&& forall|s: i64|
                found(after.image_sources, #[trigger] lookups::image_source_for(fresh, s))
                    == match found(m.image_sources, lookups::image_source_for(from, s)) {
                    Some(row) => Some(tables::ImageSourceModel { image_id: fresh, ..row }),
                    None => None,
                }
            &&& forall|o: i64|
                (#[trigger] after.image_observation_at(fresh, o) is Some)
                    == (m.image_observation_at(from, o) is Some)
        }),
{
    let after = register::copy_outcome(m, key, source, fresh)->Ok_0;
    let from = m.id_of(source)->Some_0;
    let row = tables::RevisionModel { image_id: fresh, revision: m.revision_of(from) };
    support::lemma_first_where(m.revisions, lookups::revision_for(fresh));
    match m.revision_at(fresh) {
        Some(k) => {
            support::lemma_first_found(
                m.revisions.update(k, row),
                lookups::revision_for(fresh),
                k,
            );
        },
        None => support::lemma_pushed(
            m.revisions,
            m.revisions.push(row),
            lookups::revision_for(fresh),
        ),
    }
    assert forall|f: Seq<char>| #[trigger]
        after.choice_of(fresh, f) == m.choice_of(from, f) by {
        lemma_duplicated_found(
            m.choices,
            register::choice_of(from),
            register::choice_for(fresh),
            lookups::choice_for(fresh, f),
            lookups::choice_for(from, f),
        );
    }
    assert forall|s: i64|
        found(after.image_sources, #[trigger] lookups::image_source_for(fresh, s)) == (
        match found(m.image_sources, lookups::image_source_for(from, s)) {
            Some(row) => Some(tables::ImageSourceModel { image_id: fresh, ..row }),
            None => None,
        }) by {
        lemma_duplicated_found(
            m.image_sources,
            register::usage_of(from),
            register::usage_for(fresh),
            lookups::image_source_for(fresh, s),
            lookups::image_source_for(from, s),
        );
    }
    assert forall|o: i64|
        (#[trigger] after.image_observation_at(fresh, o) is Some) == (m.image_observation_at(
            from,
            o,
        ) is Some) by {
        lemma_duplicated_found(
            m.image_observations,
            register::observation_of(from),
            register::observation_for(fresh),
            lookups::image_observation_for(fresh, o),
            lookups::image_observation_for(from, o),
        );
    }
}

/// All that an image shows is as it was, but for the epoch of its file that it has come to.
pub open spec fn keeps_metadata(before: TablesModel, after: TablesModel, image: Seq<char>) -> bool {
    &&& match (
        found(before.images, lookups::image_with_id(image)),
        found(after.images, lookups::image_with_id(image)),
    ) {
        (Some(a), Some(b)) => b == (tables::ImageModel {
            applied_shared_epoch: b.applied_shared_epoch,
            ..a
        }),
        (None, None) => true,
        _ => false,
    }
    &&& keeps_holdings(before, after, image)
}

/// An image keeps its own copy of every source of its file that an event is about.
pub open spec fn keeps_own_copies(m: TablesModel, image: Seq<char>) -> bool {
    found(m.images, lookups::image_with_id(image)) matches Some(row) ==> forall|k: int|
        0 <= k < m.shared_events.len() && (#[trigger] m.shared_events[k]).asset_id
            == row.asset_id ==> (found(
            m.image_sources,
            lookups::image_source_for(image, m.shared_events[k].source_id),
        ) matches Some(used) && !used.follow_file)
}

/// Images have identities of their own.
pub open spec fn identities_apart(m: TablesModel) -> bool {
    forall|i: int, j: int|
        0 <= i < j < m.images.len() ==> (#[trigger] m.images[i]).id != (#[trigger] m.images[j]).id
}

proof fn lemma_keeps_metadata(a: TablesModel, b: TablesModel, c: TablesModel, image: Seq<char>)
    requires
        keeps_metadata(a, b, image),
        keeps_metadata(b, c, image),
    ensures
        keeps_metadata(a, c, image),
{
    assert forall|f: Seq<char>| #[trigger] c.choice_of(image, f) == a.choice_of(image, f) by {
        assert(b.choice_of(image, f) == a.choice_of(image, f));
    }
    assert forall|f: Seq<char>| #[trigger] in_effect(c, image, f) == in_effect(a, image, f) by {
        assert(in_effect(b, image, f) == in_effect(a, image, f));
    }
    assert forall|o: i64|
        (#[trigger] c.image_observation_at(image, o) is Some) == (a.image_observation_at(image, o)
            is Some) by {
        assert(b.image_observation_at(image, o) is Some == a.image_observation_at(image, o)
            is Some);
    }
}

proof fn lemma_linked_apart(m: TablesModel, image: Seq<char>, o: Option<i64>, other: Seq<char>)
    requires
        other != image,
    ensures
        m.linked_option(image, o) matches Ok(after) ==> keeps_image(m, after, other)
            && after.images == m.images && after.shared_events == m.shared_events,
{
    if let Ok(after) = m.linked_option(image, o) {
        assert forall|x: i64|
            (#[trigger] after.image_observation_at(other, x) is Some) == (m.image_observation_at(
                other,
                x,
            ) is Some) by {
            if after.image_observations != m.image_observations {
                lemma_push_apart(
                    m.image_observations,
                    (tables::ImageObservationModel { image_id: image, observation_id: o->0 }),
                    lookups::image_observation_for(other, x),
                );
            }
        }
    }
}

proof fn lemma_following_apart(
    m: TablesModel,
    image: Seq<char>,
    e: tables::SharedEventModel,
    other: Seq<char>,
)
    requires
        other != image,
    ensures
        m.following(image, e.source_id, e.current_observation, e.association, e.availability) matches Ok(
            after,
        ) ==> keeps_image(m, after, other) && after.images == m.images && after.shared_events
            == m.shared_events,
{
    if let Ok(after) = m.following(
        image,
        e.source_id,
        e.current_observation,
        e.association,
        e.availability,
    ) {
        if let Some(k) = m.source_at(e.source_id) {
            let row = tables::ImageSourceModel {
                image_id: image,
                source_id: e.source_id,
                current_observation: e.current_observation,
                follow_file: match m.image_source_at(image, e.source_id) {
                    Some(a) => m.image_sources[a].follow_file,
                    None => true,
                },
                logical_locator: m.sources[k].locator,
                association: e.association,
                availability: e.availability,
            };
            assert forall|s: i64|
                found(after.image_sources, #[trigger] lookups::image_source_for(other, s))
                    == found(m.image_sources, lookups::image_source_for(other, s)) by {
                lemma_put_apart(
                    m.image_sources,
                    lookups::image_source_for(image, e.source_id),
                    row,
                    lookups::image_source_for(other, s),
                );
            }
        }
    }
}

proof fn lemma_advanced_images(
    m: TablesModel,
    image: Seq<char>,
    action: Seq<char>,
    detail: tables::DetailModel,
)
    ensures
        catalog_metadata::advance_outcome(m, image, action, detail, true) matches Ok((after, _))
            ==> after.shared_events == m.shared_events && after.images.len() == m.images.len()
            && forall|i: int|
            0 <= i < m.images.len() ==> (#[trigger] after.images[i]).id == m.images[i].id
                && after.images[i].asset_id == m.images[i].asset_id,
{
    support::lemma_first_where(m.images, lookups::image_with_id(image));
}

proof fn lemma_followed_apart(
    m: TablesModel,
    image: Seq<char>,
    e: tables::SharedEventModel,
    other: Seq<char>,
)
    requires
        other != image,
    ensures
        m.followed(image, e) matches Ok(after) ==> keeps_image(m, after, other)
            && after.shared_events == m.shared_events && after.images.len() == m.images.len()
            && forall|i: int|
            0 <= i < m.images.len() ==> (#[trigger] after.images[i]).id == m.images[i].id
                && after.images[i].asset_id == m.images[i].asset_id,
{
    lemma_linked_apart(m, image, e.observation_id, other);
    if let Ok(m1) = m.linked_option(image, e.observation_id) {
        lemma_linked_apart(m1, image, e.current_observation, other);
        if let Ok(m2) = m1.linked_option(image, e.current_observation) {
            lemma_keeps(m, m1, m2, other);
            lemma_following_apart(m2, image, e, other);
            if let Ok(m3) = m2.following(
                image,
                e.source_id,
                e.current_observation,
                e.association,
                e.availability,
            ) {
                lemma_keeps(m, m2, m3, other);
                let detail = tables::DetailModel::SharedObservation {
                    event: e.id,
                    observation: e.observation_id,
                };
                lemma_rebuilt_apart(m3, image, other);
                lemma_keeps(m, m3, m3.rebuilt(image), other);
                lemma_advance_apart(
                    m3.rebuilt(image),
                    image,
                    "shared_observation"@,
                    detail,
                    true,
                    other,
                );
                lemma_advanced_images(m3.rebuilt(image), image, "shared_observation"@, detail);
                if let Ok((m4, _)) = catalog_metadata::advance_outcome(
                    m3.rebuilt(image),
                    image,
                    "shared_observation"@,
                    detail,
                    true,
                ) {
                    lemma_keeps(m, m3.rebuilt(image), m4, other);
                }
            }
        }
    }
}

proof fn lemma_refreshed_image_kept(m: TablesModel, i: int, image: Seq<char>)
    requires
        identities_apart(m),
        keeps_own_copies(m, image),
        m.shared_events.len() > 0,
        m.next_image(
            m.shared_events[0].asset_id,
            m.shared_events[0].cursor,
            m.shared_events[0].high_water,
        ) == Some(i),
    ensures
        m.refreshed_image(i) matches Ok(after) ==> keeps_metadata(m, after, image)
            && identities_apart(after) && keeps_own_copies(after, image),
{
    let e = m.shared_events[0];
    let within = refresh::image_within(e.asset_id, e.cursor, e.high_water);
    let named = lookups::image_with_id(image);
    support::lemma_first_where(m.images, within);
    support::lemma_first_where(m.images, named);
    let row = m.images[i];
    if let Ok(after) = m.refreshed_image(i) {
        if row.applied_shared_epoch >= e.epoch {
            assert(after.images == m.images);
        } else if row.id == image {
            assert forall|j: int| 0 <= j < i implies !named(#[trigger] m.images[j]) by {
                assert(m.images[j].id != m.images[i].id);
            }
            support::lemma_first_found(m.images, named, i);
            assert(found(m.images, named) == Some(row));
            assert(m.followed(image, e) == Ok::<TablesModel, CatalogError>(m));
            let next = tables::ImageModel { applied_shared_epoch: e.epoch, ..row };
            assert(after.images == m.images.update(i, next));
            assert forall|j: int| 0 <= j < i implies !named(#[trigger] after.images[j]) by {
                assert(!named(m.images[j]));
            }
            support::lemma_first_found(after.images, named, i);
        } else {
            lemma_followed_apart(m, row.id, e, image);
            let met = m.followed(row.id, e)->Ok_0;
            let next = tables::ImageModel { applied_shared_epoch: e.epoch, ..met.images[i] };
            assert(after.images == met.images.update(i, next));
            lemma_update_apart(met.images, i, next, named);
            assert(keeps_image(met, after, image));
            lemma_keeps(m, met, after, image);
        }
        assert forall|a: int, b: int| 0 <= a < b < after.images.len() implies (
        #[trigger] after.images[a]).id != (#[trigger] after.images[b]).id by {
            assert(m.images[a].id != m.images[b].id);
        }
        assert forall|k: int| 0 <= k < after.shared_events.len() implies (
        #[trigger] after.shared_events[k]).asset_id == m.shared_events[k].asset_id
            && after.shared_events[k].source_id == m.shared_events[k].source_id by {}
    }
}

proof fn lemma_refreshed_kept(m: TablesModel, budget: nat, image: Seq<char>)
    requires
        identities_apart(m),
        keeps_own_copies(m, image),
    ensures
        m.refreshed(budget) matches Ok((after, _)) ==> keeps_metadata(m, after, image),
    decreases budget, m.shared_events.len(),
{
    if budget > 0 && m.shared_events.len() > 0 {
        let e = m.shared_events[0];
        match m.next_image(e.asset_id, e.cursor, e.high_water) {
            None => {
                let rest = TablesModel { shared_events: m.shared_events.skip(1), ..m };
                assert forall|k: int| 0 <= k < rest.shared_events.len() implies (
                #[trigger] rest.shared_events[k]) == m.shared_events[k + 1] by {}
                lemma_refreshed_kept(rest, budget, image);
            },
            Some(i) => {
                lemma_refreshed_image_kept(m, i, image);
                if let Ok(next) = m.refreshed_image(i) {
                    lemma_refreshed_kept(next, (budget - 1) as nat, image);
                    if let Ok((after, _)) = next.refreshed((budget - 1) as nat) {
                        lemma_keeps_metadata(m, next, after, image);
                    }
                }
            },
        }
    }
}

/// Letting images follow their shared sources takes no more steps than allowed, and ends
/// before only where no event is left; no image is found to have missed an epoch, and once
/// no event is left every image is at its file's. An image that keeps its own copies of the
/// sources keeps its metadata and its revision meanwhile.
pub proof fn law_refreshing_settles_what_follows(m: TablesModel, limit: nat, image: Seq<char>)
    requires
        m.epochs_wf(),
        m.images_wf(),
    ensures
        match m.refreshed(limit) {
            Ok((after, steps)) => {
                &&& steps <= limit
                &&& steps < limit ==> after.shared_events.len() == 0
                &&& after.epochs_wf()
                &&& after.shared_events.len() == 0 ==> epochs::settled(after)
                &&& keeps_own_copies(m, image) ==> keeps_metadata(m, after, image)
            },
            Err(e) => e != CatalogError::EpochGap,
        },
{
    refresh::lemma_refreshed_steps(m, limit);
    epochs::law_refreshing_misses_no_change(m, limit);
    if keeps_own_copies(m, image) {
        assert forall|i: int, j: int| 0 <= i < j < m.images.len() implies (
        #[trigger] m.images[i]).id != (#[trigger] m.images[j]).id by {}
        lemma_refreshed_kept(m, limit, image);
    }
}

proof fn lemma_grown_found<T>(a: Seq<T>, b: Seq<T>, q: spec_fn(T) -> bool)
    requires
        laws::grown(a, b),
        support::first_where(a, q) is Some,
    ensures
        support::first_where(b, q) == support::first_where(a, q),
        b[support::first_where(a, q)->0] == a[support::first_where(a, q)->0],
{
    support::lemma_first_where(a, q);
    let i = support::first_where(a, q)->0;
    assert forall|j: int| 0 <= j < i implies !q(#[trigger] b[j]) by {
        assert(b[j] == a[j]);
    }
    assert(b[i] == a[i]);
    support::lemma_first_found(b, q, i);
}

/// The observations in images' histories are numbered among those that there are.
pub open spec fn histories_wf(m: TablesModel) -> bool {
    forall|i: int|
        0 <= i < m.image_observations.len() ==> (
        #[trigger] m.image_observations[i]).observation_id <= m.observation_high
}

/// What another image could read of its history stays as it is when an observation is
/// retained for one image alone, and the models of that observation are not among it.
pub proof fn law_private_models_stay_with_their_image(
    m: TablesModel,
    image: Seq<char>,
    source: store::SourceRequest,
    p: prepared::PreparedObservation,
    other: Seq<char>,
    model: i64,
)
    requires
        other != image,
        histories_wf(m),
    ensures
        store::retain_outcome(m, image, source, p, false) matches Ok((after, _)) ==> {
            &&& m.model_bytes(other, model) is Ok ==> after.model_bytes(other, model)
                == m.model_bytes(other, model)
            &&& m.model_at(model) is None ==> after.model_bytes(other, model) == Err::<
                Seq<u8>,
                CatalogError,
            >(CatalogError::ModelNotFound)
        },
{
    if let Ok((after, _)) = store::retain_outcome(m, image, source, p, false) {
        laws::law_retained_evidence_is_immutable(m, image, source, p, false);
        law_observations_stay_with_their_image(m, image, source, p, other);
        lemma_store_apart(m, image, source, p, other);
        let stored = store::store_outcome(m, image, source, p)->Ok_0.0;
        assert(after.models == stored.models);
        if m.model_bytes(other, model) is Ok {
            lemma_grown_found(m.models, after.models, lookups::model_with_id(model));
            let row = m.models[m.model_at(model)->0];
            assert(after.image_observation_at(other, row.observation_id) is Some);
            lemma_grown_found(
                m.observations,
                after.observations,
                lookups::observation_with_id(row.observation_id),
            );
            lemma_grown_found(m.blobs, after.blobs, lookups::blob_with_hash(row.blob_hash));
        }
        if m.model_at(model) is None && after.model_at(model) is Some {
            let k = after.model_at(model)->0;
            let q = lookups::model_with_id(model);
            support::lemma_first_where(after.models, q);
            support::lemma_first_where(m.models, q);
            if k < m.models.len() {
                assert(after.models[k] == m.models[k]);
            }
            let oid = after.models[k].observation_id;
            support::lemma_first_where(
                m.image_observations,
                lookups::image_observation_for(other, oid),
            );
            assert(m.image_observation_at(other, oid) is None);
            assert(after.image_observation_at(other, oid) is None);
        }
    }
}

/// A copy reads the models that its original could read when it was made. It goes on
/// reading the same, with the same values in effect, once something else is observed for
/// the original alone, and does not read what came with that.
pub proof fn law_copies_keep_their_snapshot(
    m: TablesModel,
    key: catalog_images::VariantKeyModel,
    source: catalog_images::VariantKeyModel,
    fresh: Seq<char>,
    request: store::SourceRequest,
    p: prepared::PreparedObservation,
    model: i64,
)
    requires
        holdings_wf(m),
        histories_wf(m),
        register::copy_outcome(m, key, source, fresh) is Ok,
    ensures
        ({
            let copied = register::copy_outcome(m, key, source, fresh)->Ok_0;
            let from = m.id_of(source)->Some_0;
            &&& copied.id_of(key) == Some(fresh)
            &&& copied.model_bytes(fresh, model) == m.model_bytes(from, model)
            &&& store::retain_outcome(copied, from, request, p, false) matches Ok((later, _)) ==> {
                &&& forall|f: Seq<char>| #[trigger]
                    in_effect(later, fresh, f) == in_effect(m, from, f)
                &&& m.model_bytes(from, model) is Ok ==> later.model_bytes(fresh, model)
                    == m.model_bytes(from, model)
                &&& m.model_at(model) is None ==> later.model_bytes(fresh, model) == Err::<
                    Seq<u8>,
                    CatalogError,
                >(CatalogError::ModelNotFound)
            }
        }),
{
    let copied = register::copy_outcome(m, key, source, fresh)->Ok_0;
    let from = m.id_of(source)->Some_0;
    law_copies_start_as_their_original(m, key, source, fresh);
    support::lemma_pushed(
        m.images,
        copied.images,
        lookups::image_with_key(key.asset_id, key.variant_id),
    );
    assert(fresh != from);
    assert forall|i: int| 0 <= i < copied.image_observations.len() implies (
    #[trigger] copied.image_observations[i]).observation_id <= copied.observation_high by {
        if i >= m.image_observations.len() {
            let k = i - m.image_observations.len();
            lemma_filtered_from(m.image_observations, register::observation_of(from), k);
            let row = m.image_observations.filter(register::observation_of(from))[k];
            let j = choose|j: int|
                0 <= j < m.image_observations.len() && m.image_observations[j] == row;
            assert(m.image_observations[j].observation_id <= m.observation_high);
        }
    }
    match m.model_at(model) {
        Some(k) => {
            let oid = m.models[k].observation_id;
            assert(copied.image_observation_at(fresh, oid) is Some == m.image_observation_at(
                from,
                oid,
            ) is Some);
        },
        None => {},
    }
    law_private_models_stay_with_their_image(copied, from, request, p, fresh, model);
    law_observations_stay_with_their_image(copied, from, request, p, fresh);
    if let Ok((later, _)) = store::retain_outcome(copied, from, request, p, false) {
        assert forall|f: Seq<char>| #[trigger]
            in_effect(later, fresh, f) == in_effect(m, from, f) by {
            assert(in_effect(copied, fresh, f) == in_effect(m, from, f));
        }
    }
}

/// Organizing one image changes nothing for any other, not even in its identity, leaves every
/// image's pixels and every physical file as they are, and makes the image's earlier identity
/// stale: what was prepared with it is refused afterwards.
pub proof fn law_organizing_is_for_one_image_and_once(m: TablesModel, e: PreparedEdit, other: Seq<char>)
    requires
        e.organization_fields@.len() > 0,
        other != e.image_identity.image_id@,
    ensures
        edit::commit_outcome(m, e) matches Ok((after, change)) ==> {
            &&& keeps_image(m, after, other)
            &&& after.images == m.images
            &&& after.assets == m.assets
            &&& change.revision == m.revision_of(e.image_identity.image_id@) + 1
            &&& after.revision_of(e.image_identity.image_id@) == change.revision
            &&& after.identity_of(other) == m.identity_of(other)
            &&& after.identity_of(e.image_identity.image_id@) == Ok::<
                catalog_images::IdentityModel,
                CatalogError,
            >(
                catalog_images::IdentityModel {
                    metadata_revision: change.revision,
                    ..e.image_identity@
                },
            )
            &&& edit::commit_outcome(after, e) == Err::<
                (TablesModel, store::ChangeModel),
                CatalogError,
            >(CatalogError::IdentityChanged)
        },
{
    if let Ok((after, change)) = edit::commit_outcome(m, e) {
        law_edits_stay_with_their_image(m, e, other);
        let image = e.image_identity.image_id@;
        lemma_store_apart(m, image, e.source@, e.prepared@, other);
        let (stored, oid, _) = store::store_outcome(m, image, e.source@, e.prepared@)->Ok_0;
        let ids = store::models_of(stored, oid);
        lemma_edit_chosen_apart(m, stored, e, ids[0], e.updated@.len(), other);
        let row = tables::RevisionModel { image_id: image, revision: change.revision };
        support::lemma_first_where(m.revisions, lookups::revision_for(image));
        match m.revision_at(image) {
            Some(k) => {
                support::lemma_first_found(
                    m.revisions.update(k, row),
                    lookups::revision_for(image),
                    k,
                );
            },
            None => support::lemma_pushed(
                m.revisions,
                m.revisions.push(row),
                lookups::revision_for(image),
            ),
        }
    }
}

} // verus!

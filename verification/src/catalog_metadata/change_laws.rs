//! How changes of an image's metadata are counted, recorded and answered, told by the rows.
use crate::catalog::Catalog;
use crate::catalog_images;
use crate::catalog_metadata;
use crate::catalog_metadata::edit;
use crate::catalog_metadata::edit_laws;
use crate::catalog_metadata::export_laws;
use crate::catalog_metadata::prepared;
use crate::catalog_metadata::reconcile_laws;
use crate::catalog_metadata::scan_laws;
use crate::catalog_metadata::sources;
use crate::catalog_metadata::store;
use crate::catalog_metadata::views;
use crate::catalog_metadata_write;
use crate::catalog_metadata_write::WritesModel;
use crate::error::CatalogError;
use crate::lookups;
use crate::support;
use crate::tables;
use crate::tables::TablesModel;
use vstd::prelude::*;

verus! {

/// A change of an image's metadata takes its revision up by one and is recorded with what was
/// done; where it affects pixels, the image's pixels count as changed, and the renderings of the
/// physical file too where the image goes by the file's own name. Nothing else of any image or
/// file is changed.
pub proof fn law_changes_are_counted_and_recorded(
    m: TablesModel,
    image: Seq<char>,
    action: Seq<char>,
    detail: tables::DetailModel,
    affects: bool,
    revision: i64,
    i: int,
)
    requires
        export_laws::records_revision(m, image, revision),
        0 <= i < m.images.len(),
        m.images[i].id == image,
        forall|j: int| 0 <= j < m.images.len() && j != i ==> (#[trigger] m.images[j]).id != image,
        forall|a: int, b: int|
            0 <= a < b < m.assets.len() ==> (#[trigger] m.assets[a]).id != (
            #[trigger] m.assets[b]).id,
    ensures
        catalog_metadata::advance_outcome(m, image, action, detail, affects) matches Ok((after, next))
            ==> {
            &&& next == revision + 1
            &&& export_laws::records_revision(after, image, next)
            &&& after.history.len() == m.history.len() + 1
            &&& after.history.last().image_id == image
            &&& after.history.last().revision == next
            &&& after.history.last().action == action
            &&& after.history.last().detail == detail
            &&& after.history.last().created_at == m.clock
            &&& after.history.last().id == m.history_high + 1
            &&& forall|h: int|
                0 <= h < m.history.len() ==> #[trigger] after.history[h] == m.history[h]
            &&& after.images.len() == m.images.len()
            &&& after.images[i].pixel_generation == m.images[i].pixel_generation + (if affects {
                1int
            } else {
                0
            })
            &&& after.images[i].id == image
            &&& after.images[i].asset_id == m.images[i].asset_id
            &&& after.images[i].applied_shared_epoch == m.images[i].applied_shared_epoch
            &&& forall|j: int|
                0 <= j < m.images.len() && j != i ==> #[trigger] after.images[j] == m.images[j]
            &&& after.assets.len() == m.assets.len()
            &&& forall|a: int|
                0 <= a < m.assets.len() ==> (#[trigger] after.assets[a]).id == m.assets[a].id
                    && after.assets[a].render_generation == m.assets[a].render_generation + (
                if affects && m.assets[a].id == image {
                    1int
                } else {
                    0
                }) && after.assets[a].physical_generation == m.assets[a].physical_generation
                    && after.assets[a].shared_epoch == m.assets[a].shared_epoch
            &&& after.choices == m.choices
            &&& after.effective == m.effective
            &&& after.image_sources == m.image_sources
        },
{
    export_laws::lemma_recorded(m, image, revision);
    let q = lookups::image_with_id(image);
    assert forall|j: int| 0 <= j < m.images.len() && j != i implies !q(#[trigger] m.images[j]) by {}
    reconcile_laws::lemma_only(m.images, q, i);
    if let Ok((after, next)) = catalog_metadata::advance_outcome(m, image, action, detail, affects) {
        let rq = lookups::revision_for(image);
        support::lemma_first_where(m.revisions, rq);
        match m.revision_at(image) {
            Some(r) => {
                assert forall|j: int| 0 <= j < r implies !rq(#[trigger] after.revisions[j]) by {
                    assert(!rq(m.revisions[j]));
                }
                support::lemma_first_found(after.revisions, rq, r);
            },
            None => support::lemma_pushed(m.revisions, after.revisions, rq),
        }
        export_laws::lemma_recorded(after, image, next);
        support::lemma_first_where(m.assets, lookups::asset_with_id(image));
        assert forall|a: int| 0 <= a < m.assets.len() implies (#[trigger] after.assets[a]).id
            == m.assets[a].id && after.assets[a].render_generation == m.assets[a].render_generation
            + (if affects && m.assets[a].id == image {
            1int
        } else {
            0
        }) && after.assets[a].physical_generation == m.assets[a].physical_generation
            && after.assets[a].shared_epoch == m.assets[a].shared_epoch by {
            match m.asset_at(image) {
                Some(x) => {
                    if a < x {
                        assert(m.assets[a].id != m.assets[x].id);
                    } else if x < a {
                        assert(m.assets[x].id != m.assets[a].id);
                    }
                },
                None => {
                    assert(!lookups::asset_with_id(image)(m.assets[a]));
                },
            }
        }
    }
}

/// What a file's renderings are known by is what the file's row says, and the revision of its
/// metadata.
pub proof fn law_renderings_are_known_by_their_file(
    m: TablesModel,
    asset: Seq<char>,
    r: views::RenderIdentityModel,
)
    requires
        m.render_identity_of(asset) == Ok::<views::RenderIdentityModel, CatalogError>(r),
    ensures
        r.asset_id == asset,
        export_laws::records_revision(m, asset, r.metadata_revision),
        exists|a: int|
            0 <= a < m.assets.len() && (#[trigger] m.assets[a]).id == asset
                && m.assets[a].render_generation == r.generation && m.assets[a].fingerprint
                == r.fingerprint && m.assets[a].state == r.state,
{
    support::lemma_first_where(m.assets, lookups::asset_with_id(asset));
    export_laws::lemma_recorded(m, asset, r.metadata_revision);
    let a = m.asset_at(asset)->0;
    assert(m.assets[a].id == asset);
}

/// Renderings are the same where nothing but the revision of the metadata differs.
pub proof fn law_renderings_differ_by_more_than_the_revision(
    a: views::RenderIdentityModel,
    b: views::RenderIdentityModel,
)
    ensures
        views::renders_same(a, b) <==> (views::RenderIdentityModel {
            metadata_revision: b.metadata_revision,
            ..a
        }) == b,
        views::renders_same(a, b) <==> views::renders_same(b, a),
{
}

/// A change of a file's metadata leaves its renderings the same exactly where it does not affect
/// pixels.
pub proof fn law_changes_of_pixels_change_the_rendering(
    m: TablesModel,
    image: Seq<char>,
    action: Seq<char>,
    detail: tables::DetailModel,
    affects: bool,
    r: views::RenderIdentityModel,
)
    requires
        m.render_identity_of(image) == Ok::<views::RenderIdentityModel, CatalogError>(r),
    ensures
        catalog_metadata::advance_outcome(m, image, action, detail, affects) matches Ok((after, next))
            ==> {
            &&& after.render_identity_of(image) matches Ok(s) && s.metadata_revision
                == r.metadata_revision + 1 && (views::renders_same(r, s) <==> !affects)
        },
{
    if let Ok((after, next)) = catalog_metadata::advance_outcome(m, image, action, detail, affects) {
        let q = lookups::asset_with_id(image);
        support::lemma_first_where(m.assets, q);
        let a = m.asset_at(image)->0;
        assert forall|j: int| 0 <= j < a implies !q(#[trigger] after.assets[j]) by {
            assert(!q(m.assets[j]));
        }
        support::lemma_first_found(after.assets, q, a);
        let rq = lookups::revision_for(image);
        support::lemma_first_where(m.revisions, rq);
        match m.revision_at(image) {
            Some(k) => {
                assert forall|j: int| 0 <= j < k implies !rq(#[trigger] after.revisions[j]) by {
                    assert(!rq(m.revisions[j]));
                }
                support::lemma_first_found(after.revisions, rq, k);
            },
            None => support::lemma_pushed(m.revisions, after.revisions, rq),
        }
    }
}

/// A choice that is kept a receipt of is made on the identity that was expected, in every part,
/// of an attempt that had no receipt; it decides the field, and the one receipt that is added
/// says whose request it answers and what came of it.
pub proof fn law_choices_are_receipted(
    m: TablesModel,
    w: WritesModel,
    expected: catalog_images::IdentityModel,
    field: Seq<char>,
    model: i64,
    attempt: Seq<char>,
    digest: Seq<char>,
    owner_document: Seq<char>,
)
    ensures
        edit::resolve_with_receipt(m, w, expected, field, model, attempt, digest, owner_document) matches Ok(
            (after, kept, next),
        ) ==> {
            &&& export_laws::is_identity(m, expected)
            &&& next == expected.metadata_revision + 1
            &&& reconcile_laws::chose(after, expected.image_id, field, model)
            &&& forall|i: int| 0 <= i < w.receipts.len() ==> (#[trigger] w.receipts[i]).attempt != attempt
            &&& kept.receipts.len() == w.receipts.len() + 1
            &&& forall|i: int|
                0 <= i < w.receipts.len() ==> #[trigger] kept.receipts[i] == w.receipts[i]
            &&& kept.receipts.last().attempt == attempt
            &&& kept.receipts.last().request_digest == digest
            &&& kept.receipts.last().kind == "resolve"@
            &&& kept.receipts.last().owner == (catalog_metadata_write::OwnerModel::Image {
                identity: expected,
            })
            &&& kept.receipts.last().owner_document == owner_document
            &&& kept.receipts.last().result == "{\"revision\":"@ + edit::signed_text(next) + "}"@
            &&& kept.plans == w.plans
        },
{
    if let Ok((after, kept, next)) = edit::resolve_with_receipt(
        m,
        w,
        expected,
        field,
        model,
        attempt,
        digest,
        owner_document,
    ) {
        export_laws::lemma_identity(m, expected);
        let q = catalog_metadata_write::receipt_for(attempt);
        support::lemma_first_where(w.receipts, q);
        assert forall|i: int| 0 <= i < w.receipts.len() implies (#[trigger] w.receipts[i]).attempt
            != attempt by {
            assert(!q(w.receipts[i]));
        }
        let p = lookups::choice_for(expected.image_id, field);
        support::lemma_first_where(m.choices, p);
        match m.choice_at(expected.image_id, field) {
            Some(c) => {
                assert(after.choices[c].model_id == model);
            },
            None => {
                assert(after.choices[m.choices.len() as int].model_id == model);
            },
        }
    }
}

/// A file's source is marked with a reason why it is not to be had.
pub open spec fn is_marked(
    m: TablesModel,
    asset: Seq<char>,
    source: store::SourceRequest,
    reason: Seq<char>,
) -> bool {
    exists|s: int|
        0 <= s < m.sources.len() && scan_laws::is_named(
            #[trigger] m.sources[s],
            asset,
            source.kind,
            source.locator,
        ) && m.sources[s].availability == reason
}

/// What was found of a source calls for a warning where the source could belong to several
/// files or what was found does, and a source that was not to be had is marked with the reason.
pub proof fn law_unclear_sources_call_for_a_warning(
    m: TablesModel,
    asset: Seq<char>,
    input: sources::PreparedImportSource,
)
    requires
        scan_laws::sources_named(m.sources),
    ensures
        sources::apply_outcome(m, asset, input) matches Ok((_, _, warning)) ==> (warning
            <==> input.warning || input.source.ambiguous),
        sources::apply_outcome(m, asset, input) matches Ok((after, _, _)) ==> (
        input.found matches sources::Found::Unavailable(reason) ==> is_marked(
            after,
            asset,
            input.source@,
            reason@,
        )),
{
    if let sources::Found::Unavailable(reason) = input.found {
        scan_laws::law_unavailable_sources_are_marked(m, asset, input.source@, reason@);
        if let Ok((after, changed)) = sources::unavailable_outcome(
            m,
            asset,
            input.source@,
            reason@,
        ) {
            let s = choose|s: int|
                0 <= s < after.sources.len() && scan_laws::is_named(
                    #[trigger] after.sources[s],
                    asset,
                    input.source@.kind,
                    input.source@.locator,
                ) && after.sources[s].availability == reason@;
            assert(is_marked(after, asset, input.source@, reason@));
        }
    }
}

/// Prepared metadata is alarming where it could not be read completely though it is there, or
/// where a part of it is flawed.
pub proof fn law_incomplete_metadata_is_alarming(p: prepared::PreparedObservation)
    ensures
        !sources::alarming(p) <==> {
            &&& p.status == "Complete"@ || p.status == "Absent"@
            &&& forall|i: int|
                0 <= i < p.models.len() ==> (#[trigger] p.models[i]).error is None
                    && !p.models[i].flawed
        },
{
    if sources::alarming(p) && (p.status == "Complete"@ || p.status == "Absent"@) {
        let i = choose|i: int| 0 <= i < p.models.len() && sources::impaired(#[trigger] p.models[i]);
        assert(p.models[i].error is Some || p.models[i].flawed);
    }
    if !sources::alarming(p) {
        assert forall|i: int| 0 <= i < p.models.len() implies (#[trigger] p.models[i]).error is None
            && !p.models[i].flawed by {
            assert(!sources::impaired(p.models[i]));
        }
    }
}

/// When a look is finished, every sidecar that was not seen is marked as not found, and
/// what was seen and what is another file's stays as it was.
pub proof fn law_finished_looks_mark_what_was_not_seen(
    m: TablesModel,
    asset: Seq<char>,
    sidecars: Seq<tables::SourceModel>,
    seen: Set<Seq<u8>>,
    n: nat,
)
    requires
        scan_laws::sources_named(m.sources),
        n <= sidecars.len(),
    ensures
        sources::finished(m, asset, sidecars, seen, n) matches Ok((after, changed)) ==> {
            &&& scan_laws::sources_named(after.sources)
            &&& m.sources.len() <= after.sources.len()
            &&& forall|k: int|
                0 <= k < n && !seen.contains((#[trigger] sidecars[k]).locator) ==> is_missing(
                    after,
                    asset,
                    sidecars[k].locator,
                )
            &&& forall|s: int|
                0 <= s < m.sources.len() ==> scan_laws::same_but_availability(
                    #[trigger] after.sources[s],
                    m.sources[s],
                )
            &&& forall|s: int|
                0 <= s < m.sources.len() && (seen.contains((#[trigger] m.sources[s]).locator)
                    || m.sources[s].asset_id != asset || m.sources[s].kind != "sidecar"@)
                    ==> after.sources[s] == m.sources[s]
            &&& !changed ==> after == m
        },
    decreases n,
{
    if n > 0 {
        law_finished_looks_mark_what_was_not_seen(m, asset, sidecars, seen, (n - 1) as nat);
        if let Ok((before, _)) = sources::finished(m, asset, sidecars, seen, (n - 1) as nat) {
            let x = sidecars[n - 1];
            if !seen.contains(x.locator) {
                let request = sources::sidecar_request(x);
                let note = sources::missing_note();
                scan_laws::law_unavailable_sources_are_marked(before, asset, request, note);
                if let Ok((after, _)) = sources::unavailable_outcome(before, asset, request, note) {
                    assert(is_missing(after, asset, x.locator));
                    assert forall|k: int|
                        0 <= k < n && !seen.contains((#[trigger] sidecars[k]).locator) implies is_missing(
                        after,
                        asset,
                        sidecars[k].locator,
                    ) by {
                        if k < n - 1 {
                            assert(is_missing(before, asset, sidecars[k].locator));
                            let s = choose|s: int|
                                0 <= s < before.sources.len() && scan_laws::is_named(
                                    #[trigger] before.sources[s],
                                    asset,
                                    "sidecar"@,
                                    sidecars[k].locator,
                                ) && before.sources[s].availability == missing();
                            assert(scan_laws::same_but_availability(
                                after.sources[s],
                                before.sources[s],
                            ));
                            if sidecars[k].locator != x.locator {
                                assert(after.sources[s] == before.sources[s]);
                            }
                        }
                    }
                    assert forall|s: int| 0 <= s < m.sources.len() implies scan_laws::same_but_availability(
                        #[trigger] after.sources[s],
                        m.sources[s],
                    ) by {
                        assert(scan_laws::same_but_availability(before.sources[s], m.sources[s]));
                    }
                    assert forall|s: int|
                        0 <= s < m.sources.len() && (seen.contains((#[trigger] m.sources[s]).locator)
                            || m.sources[s].asset_id != asset || m.sources[s].kind
                            != "sidecar"@) implies after.sources[s] == m.sources[s] by {
                        assert(before.sources[s] == m.sources[s]);
                        assert(!scan_laws::is_named(
                            before.sources[s],
                            asset,
                            "sidecar"@,
                            x.locator,
                        ));
                    }
                }
            }
        }
    }
}

/// How a sidecar is marked that was not found.
pub open spec fn missing() -> Seq<char> {
    "not found in current directory scan; retained metadata remains available"@
}

/// A file's sidecar is marked as not found.
pub open spec fn is_missing(m: TablesModel, asset: Seq<char>, locator: Seq<u8>) -> bool {
    exists|s: int|
        0 <= s < m.sources.len() && scan_laws::is_named(
            #[trigger] m.sources[s],
            asset,
            "sidecar"@,
            locator,
        ) && m.sources[s].availability == missing()
}

/// An edit that was asked for is refused without a trace, or takes the image on by one revision
/// from the one that it was asked for on.
#[verifier::rlimit(60)]
pub proof fn law_edits_are_made_on_what_was_asked(
    before: Catalog,
    after: Catalog,
    r: edit::EditRequest,
    fields: Seq<views::Field>,
    c: Result<store::Change, CatalogError>,
)
    requires
        edit::edited(before, after, r, fields, c),
    ensures
        c is Err ==> after == before,
        c matches Ok(change) ==> {
            &&& export_laws::records_revision(before.tables@, r.image@, r.expected_revision)
            &&& change@.revision == r.expected_revision + 1
            &&& export_laws::records_revision(after.tables@, r.image@, change@.revision)
            &&& change@.changed
        },
{
    if c is Ok {
        let e = choose|e: edit::PreparedEdit| #[trigger]
            edit::is_prepared(before, r, e) && match edit::commit_outcome(before.tables@, e) {
                Ok((m, change)) => c matches Ok(found) && found@ == change && after.tables@ == m,
                Err(e) => c == Err::<store::Change, CatalogError>(e) && after == before,
            };
        lemma_made(before.tables@, r.image@, e, edit::commit_outcome(before.tables@, e)->Ok_0);
    }
}

proof fn lemma_made(
    m: TablesModel,
    image: Seq<char>,
    e: edit::PreparedEdit,
    made: (TablesModel, store::ChangeModel),
)
    requires
        m.identity_of(image) == Ok::<catalog_images::IdentityModel, CatalogError>(
            e.image_identity@,
        ),
        edit::commit_outcome(m, e) == Ok::<(TablesModel, store::ChangeModel), CatalogError>(made),
    ensures
        export_laws::records_revision(m, image, e.expected_revision),
        made.1.revision == e.expected_revision + 1,
        export_laws::records_revision(made.0, image, made.1.revision),
        made.1.changed,
{
    edit_laws::law_edits_rest_on_their_revision(m, e);
    support::lemma_first_where(m.images, lookups::image_with_id(image));
}

} // verus!

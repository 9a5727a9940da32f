//! What a look at an original and its sidecars leaves of their sources, told by the rows.
use crate::catalog_images::refresh;
use crate::catalog_images::register;
use crate::catalog_metadata;
use crate::catalog_metadata::export_laws;
use crate::catalog_metadata::prepared;
use crate::catalog_metadata::prepared::Reading;
use crate::catalog_metadata::scan;
use crate::catalog_metadata::scan::Look;
use crate::catalog_metadata::sources;
use crate::catalog_metadata::sources::Inspected;
use crate::catalog_metadata::store;
use crate::catalog_metadata::store_laws;
use crate::error::CatalogError;
use crate::lookups;
use crate::support;
use crate::tables;
use crate::tables::TablesModel;
use vstd::prelude::*;

verus! {

/// A source of a physical file by its kind and locator.
pub open spec fn is_named(
    r: tables::SourceModel,
    asset: Seq<char>,
    kind: Seq<char>,
    locator: Seq<u8>,
) -> bool {
    r.asset_id == asset && r.kind == kind && r.locator == locator
}

/// No two sources are of one physical file, kind and locator.
pub open spec fn sources_named(rows: Seq<tables::SourceModel>) -> bool {
    forall|i: int, j: int|
        0 <= i < j < rows.len() ==> !is_named(
            #[trigger] rows[i],
            (#[trigger] rows[j]).asset_id,
            rows[j].kind,
            rows[j].locator,
        )
}

/// A source differs at most in whether it can be read.
pub open spec fn same_but_availability(a: tables::SourceModel, b: tables::SourceModel) -> bool {
    a == (tables::SourceModel { availability: a.availability, ..b })
}

proof fn lemma_refreshed(m: TablesModel, budget: nat)
    ensures
        m.refreshed(budget) matches Ok((after, _)) ==> after.sources == m.sources
            && after.source_high == m.source_high,
    decreases budget, m.shared_events.len(),
{
    if budget > 0 && m.shared_events.len() > 0 {
        let e = m.shared_events[0];
        match m.next_image(e.asset_id, e.cursor, e.high_water) {
            None => lemma_refreshed(
                (TablesModel { shared_events: m.shared_events.skip(1), ..m }),
                budget,
            ),
            Some(i) => {
                if let Ok(next) = m.refreshed_image(i) {
                    assert(next.sources == m.sources && next.source_high == m.source_high);
                    lemma_refreshed(next, (budget - 1) as nat);
                }
            },
        }
    }
}

/// Marking a source as unavailable changes this source's availability and no other's, and
/// nothing else of any source that was there. Where the source is marked so already, nothing
/// at all is changed.
pub proof fn law_unavailable_sources_are_marked(
    m: TablesModel,
    asset: Seq<char>,
    source: store::SourceRequest,
    reason: Seq<char>,
)
    requires
        sources_named(m.sources),
    ensures
        sources::unavailable_outcome(m, asset, source, reason) matches Ok((after, changed)) ==> {
            &&& m.sources.len() <= after.sources.len()
            &&& sources_named(after.sources)
            &&& exists|s: int|
                0 <= s < after.sources.len() && is_named(
                    #[trigger] after.sources[s],
                    asset,
                    source.kind,
                    source.locator,
                ) && after.sources[s].availability == reason
            &&& forall|s: int|
                0 <= s < m.sources.len() ==> same_but_availability(
                    #[trigger] after.sources[s],
                    m.sources[s],
                )
            &&& forall|s: int|
                0 <= s < m.sources.len() && !is_named(
                    #[trigger] m.sources[s],
                    asset,
                    source.kind,
                    source.locator,
                ) ==> after.sources[s] == m.sources[s]
            &&& forall|s: int|
                m.sources.len() <= s < after.sources.len() ==> is_named(
                    #[trigger] after.sources[s],
                    asset,
                    source.kind,
                    source.locator,
                )
            &&& (exists|s: int|
                0 <= s < m.sources.len() && is_named(
                    #[trigger] m.sources[s],
                    asset,
                    source.kind,
                    source.locator,
                )) ==> after.sources.len() == m.sources.len()
            &&& !changed <==> exists|s: int|
                0 <= s < m.sources.len() && is_named(
                    #[trigger] m.sources[s],
                    asset,
                    source.kind,
                    source.locator,
                ) && m.sources[s].availability == reason
            &&& !changed ==> after == m
        },
{
    let q = lookups::source_with_name(asset, source.kind, source.locator);
    support::lemma_first_where(m.sources, q);
    if let Ok((after, changed)) = sources::unavailable_outcome(m, asset, source, reason) {
        let found = m.source_named(asset, source.kind, source.locator);
        if let Some(f) = found {
            assert forall|s: int|
                0 <= s < m.sources.len() && is_named(
                    #[trigger] m.sources[s],
                    asset,
                    source.kind,
                    source.locator,
                ) implies s == f by {
                assert(q(m.sources[s]));
                if f < s {
                    assert(!is_named(
                        m.sources[f],
                        m.sources[s].asset_id,
                        m.sources[s].kind,
                        m.sources[s].locator,
                    ));
                }
            }
            assert(is_named(m.sources[f], asset, source.kind, source.locator));
        } else {
            assert forall|s: int| 0 <= s < m.sources.len() implies !is_named(
                #[trigger] m.sources[s],
                asset,
                source.kind,
                source.locator,
            ) by {
                assert(!q(m.sources[s]));
            }
        }
        if changed {
            let (m1, sid) = sources::source_marked(m, asset, source, reason)->Ok_0;
            let row = m1.sources[m1.source_at(sid)->Some_0];
            let m2 = m1.linked_option(asset, row.current_observation)->Ok_0;
            let m3 = m2.following(
                asset,
                sid,
                row.current_observation,
                row.association,
                row.availability,
            )->Ok_0;
            let (m4, _) = catalog_metadata::advance_outcome(
                m3,
                asset,
                "source_unavailable"@,
                tables::DetailModel::Unavailable {
                    kind: source.kind,
                    display: source.display,
                    reason,
                },
                true,
            )->Ok_0;
            let queued = refresh::enqueue_source_outcome(m4, sid)->Ok_0;
            assert(queued.sources == m1.sources);
            lemma_refreshed(queued, store::FOLLOW_BATCH as nat);
            assert(after.sources == m1.sources);
            let at = match found {
                Some(f) => f,
                None => m.sources.len() as int,
            };
            assert(is_named(after.sources[at], asset, source.kind, source.locator));
            assert forall|i: int, j: int| 0 <= i < j < after.sources.len() implies !is_named(
                #[trigger] after.sources[i],
                (#[trigger] after.sources[j]).asset_id,
                after.sources[j].kind,
                after.sources[j].locator,
            ) by {
                if j < m.sources.len() {
                    assert(!is_named(
                        m.sources[i],
                        m.sources[j].asset_id,
                        m.sources[j].kind,
                        m.sources[j].locator,
                    ));
                } else {
                    assert(!is_named(m.sources[i], asset, source.kind, source.locator));
                }
            }
        }
    }
}

/// The name of a source among others stays.
pub open spec fn names_kept(
    before: Seq<tables::SourceModel>,
    after: Seq<tables::SourceModel>,
) -> bool {
    &&& before.len() <= after.len()
    &&& forall|s: int|
        0 <= s < before.len() ==> is_named(
            #[trigger] after[s],
            before[s].asset_id,
            before[s].kind,
            before[s].locator,
        )
}

proof fn lemma_names_updated(rows: Seq<tables::SourceModel>, s: int, r: tables::SourceModel)
    requires
        sources_named(rows),
        0 <= s < rows.len(),
        is_named(r, rows[s].asset_id, rows[s].kind, rows[s].locator),
    ensures
        sources_named(rows.update(s, r)),
{
    let after = rows.update(s, r);
    assert forall|i: int, j: int| 0 <= i < j < after.len() implies !is_named(
        #[trigger] after[i],
        (#[trigger] after[j]).asset_id,
        after[j].kind,
        after[j].locator,
    ) by {
        assert(!is_named(rows[i], rows[j].asset_id, rows[j].kind, rows[j].locator));
    }
}

proof fn lemma_stored(
    m: TablesModel,
    image: Seq<char>,
    source: store::SourceRequest,
    p: prepared::PreparedObservation,
)
    requires
        sources_named(m.sources),
    ensures
        store::store_outcome(m, image, source, p) matches Ok((after, _, _)) ==> sources_named(
            after.sources,
        ),
{
    if let Ok((after, oid, _)) = store::store_outcome(m, image, source, p) {
        let asset = m.images[m.image_at(image)->Some_0].asset_id;
        let locator = source.scoped_locator(image, asset);
        let (m1, sid) = store::source_put(m, asset, source, locator)->Ok_0;
        let q = lookups::source_with_name(asset, source.kind, locator);
        support::lemma_first_where(m.sources, q);
        match m.source_named(asset, source.kind, locator) {
            Some(s) => lemma_names_updated(m.sources, s, m1.sources[s]),
            None => {
                assert forall|i: int, j: int| 0 <= i < j < m1.sources.len() implies !is_named(
                    #[trigger] m1.sources[i],
                    (#[trigger] m1.sources[j]).asset_id,
                    m1.sources[j].kind,
                    m1.sources[j].locator,
                ) by {
                    if j < m.sources.len() {
                        assert(!is_named(
                            m.sources[i],
                            m.sources[j].asset_id,
                            m.sources[j].kind,
                            m.sources[j].locator,
                        ));
                    } else {
                        assert(!q(m.sources[i]));
                    }
                }
            },
        }
        let current = match m.source_named(asset, source.kind, locator) {
            Some(s) => m.sources[s].current_observation,
            None => None,
        };
        let (m2, _) = store::observed(m1, asset, sid, current, p)->Ok_0;
        store_laws::lemma_same_sources(m1, asset, sid, current, p);
        support::lemma_first_where(m2.sources, lookups::source_with_id(sid));
        let unstable = p.status == "SourceChanged"@;
        let pointed = store::source_pointed(m2, sid, oid, unstable);
        if let Some(s) = m2.source_at(sid) {
            lemma_names_updated(m2.sources, s, pointed.sources[s]);
        }
        assert(after.sources == pointed.sources);
    }
}

proof fn lemma_looked(
    m: TablesModel,
    asset: Seq<char>,
    source: store::SourceRequest,
    inspected: Inspected<'_>,
)
    requires
        sources_named(m.sources),
    ensures
        scan::looked(m, asset, source, inspected) matches Ok((after, _, _)) ==> sources_named(
            after.sources,
        ),
{
    reveal(scan::looked);
    match inspected {
        Inspected::Found(inspection) => {
            if let Ok(p) = prepared::prepare_outcome(*inspection, source) {
                let shared = register::shared_kind(source.kind);
                lemma_stored(m, asset, source, p);
                if let Ok((after, change)) = store::retain_outcome(m, asset, source, p, shared) {
                    let (stored, oid, changed) = store::store_outcome(m, asset, source, p)->Ok_0;
                    if changed && shared {
                        let (advanced, _) = catalog_metadata::advance_outcome(
                            stored.rebuilt(asset),
                            asset,
                            "observe"@,
                            tables::DetailModel::Observed { observation_id: oid },
                            true,
                        )->Ok_0;
                        let queued = refresh::enqueue_shared_outcome(advanced, asset, oid)->Ok_0;
                        assert(queued.sources == stored.sources);
                        lemma_refreshed(queued, store::FOLLOW_BATCH as nat);
                    }
                    assert(after.sources == stored.sources);
                }
            }
        },
        Inspected::Failed(reason) => law_unavailable_sources_are_marked(
            m,
            asset,
            source,
            "inspection failed: "@ + reason@,
        ),
    }
}

proof fn lemma_all_looked(m: TablesModel, asset: Seq<char>, looks: Seq<Look<'_>>, n: nat)
    requires
        sources_named(m.sources),
    ensures
        sources_named(scan::all_looked(m, asset, looks, n).0.sources),
    decreases n,
{
    if n > 0 {
        lemma_all_looked(m, asset, looks, (n - 1) as nat);
        let (before, tally) = scan::all_looked(m, asset, looks, (n - 1) as nat);
        if tally is Ok {
            lemma_looked(before, asset, looks[n - 1].source@, looks[n - 1].inspected);
        }
    }
}

/// A sidecar of a physical file that was not looked at.
pub open spec fn overlooked(r: tables::SourceModel, asset: Seq<char>, looks: Seq<Look<'_>>) -> bool {
    r.asset_id == asset && r.kind == "sidecar"@ && forall|i: int|
        0 <= i < looks.len() ==> (#[trigger] looks[i]).source.locator@ != r.locator
}

proof fn lemma_absent(
    m: TablesModel,
    asset: Seq<char>,
    stored: Seq<tables::SourceModel>,
    looks: Seq<Look<'_>>,
    n: nat,
)
    requires
        sources_named(m.sources),
        n <= stored.len(),
        forall|k: int| 0 <= k < stored.len() ==> sources::sidecar_of(asset)(#[trigger] stored[k]),
        forall|k: int| 0 <= k < stored.len() ==> m.sources.contains(#[trigger] stored[k]),
    ensures
        ({
            let (after, r) = scan::absent_marked(m, asset, stored, looks, n);
            &&& sources_named(after.sources)
            &&& after.sources.len() == m.sources.len()
            &&& forall|s: int|
                0 <= s < m.sources.len() ==> same_but_availability(
                    #[trigger] after.sources[s],
                    m.sources[s],
                )
            &&& forall|s: int|
                0 <= s < m.sources.len() && !overlooked(#[trigger] m.sources[s], asset, looks)
                    ==> after.sources[s] == m.sources[s]
            &&& r is Ok ==> forall|s: int, k: int|
                0 <= s < m.sources.len() && 0 <= k < n && #[trigger] m.sources[s]
                    == #[trigger] stored[k] && overlooked(stored[k], asset, looks)
                    ==> after.sources[s].availability
                    == "not found in current directory scan; retained metadata remains available"@
        }),
    decreases n,
{
    if n > 0 {
        lemma_absent(m, asset, stored, looks, (n - 1) as nat);
        let (before, r) = scan::absent_marked(m, asset, stored, looks, (n - 1) as nat);
        let x = stored[n - 1];
        assert(sources::sidecar_of(asset)(x));
        assert(overlooked(x, asset, looks) <==> !scan::among(looks, x.locator));
        if r is Ok && !scan::among(looks, x.locator) {
            let request = sources::sidecar_request(x);
            let note = sources::missing_note();
            let at = choose|at: int| 0 <= at < m.sources.len() && m.sources[at] == x;
            assert(same_but_availability(before.sources[at], m.sources[at]));
            assert(is_named(before.sources[at], asset, "sidecar"@, x.locator));
            law_unavailable_sources_are_marked(before, asset, request, note);
            if let Ok((after, _)) = sources::unavailable_outcome(before, asset, request, note) {
                let f = choose|s: int|
                    0 <= s < after.sources.len() && is_named(
                        #[trigger] after.sources[s],
                        asset,
                        request.kind,
                        request.locator,
                    ) && after.sources[s].availability == note;
                assert forall|s: int| 0 <= s < m.sources.len() implies same_but_availability(
                    #[trigger] after.sources[s],
                    m.sources[s],
                ) by {
                    assert(same_but_availability(after.sources[s], before.sources[s]));
                    assert(same_but_availability(before.sources[s], m.sources[s]));
                }
                assert forall|s: int|
                    0 <= s < m.sources.len() && !overlooked(#[trigger] m.sources[s], asset, looks) implies after.sources[s]
                    == m.sources[s] by {
                    assert(before.sources[s] == m.sources[s]);
                    assert(!is_named(before.sources[s], asset, "sidecar"@, x.locator));
                }
                assert forall|s: int, k: int|
                    0 <= s < m.sources.len() && 0 <= k < n && #[trigger] m.sources[s]
                        == #[trigger] stored[k] && overlooked(stored[k], asset, looks) implies after.sources[s].availability
                    == note by {
                    assert(same_but_availability(after.sources[s], before.sources[s]));
                    assert(same_but_availability(before.sources[s], m.sources[s]));
                    if m.sources[s].locator == x.locator {
                        assert(is_named(after.sources[s], asset, "sidecar"@, x.locator));
                        if s < f {
                            assert(!is_named(
                                after.sources[s],
                                after.sources[f].asset_id,
                                after.sources[f].kind,
                                after.sources[f].locator,
                            ));
                        } else if f < s {
                            assert(!is_named(
                                after.sources[f],
                                after.sources[s].asset_id,
                                after.sources[s].kind,
                                after.sources[s].locator,
                            ));
                        }
                    } else {
                        assert(k < n - 1);
                        assert(!is_named(before.sources[s], asset, "sidecar"@, x.locator));
                        assert(after.sources[s] == before.sources[s]);
                    }
                }
            }
        }
    }
}

/// After a look at an original's sidecars, every sidecar of the original that is known but was
/// not among those looked at is marked as not found; what else is known of it stays.
pub proof fn law_missing_sidecars_are_marked(
    m: TablesModel,
    asset: Seq<char>,
    changed: bool,
    warnings: nat,
    looks: Seq<Look<'_>>,
    s: int,
)
    requires
        sources_named(m.sources),
    ensures
        ({
            let (after, tally) = scan::sidecars_refreshed(
                m,
                asset,
                changed,
                warnings,
                Ok::<Seq<Look<'_>>, CatalogError>(looks),
            );
            tally is Ok && 0 <= s < after.sources.len() && overlooked(after.sources[s], asset, looks)
                ==> after.sources[s].availability
                == "not found in current directory scan; retained metadata remains available"@
        }),
{
    let (after, tally) = scan::sidecars_refreshed(
        m,
        asset,
        changed,
        warnings,
        Ok::<Seq<Look<'_>>, CatalogError>(looks),
    );
    if tally is Ok && 0 <= s < after.sources.len() && overlooked(after.sources[s], asset, looks) {
        let seen = scan::all_looked(m, asset, looks, looks.len()).0;
        lemma_all_looked(m, asset, looks, looks.len());
        let p = sources::sidecar_of(asset);
        let stored = seen.sources.filter(p);
        assert forall|k: int| 0 <= k < stored.len() implies p(#[trigger] stored[k])
            && seen.sources.contains(stored[k]) by {
            catalog_metadata::ownership::lemma_filtered_from(seen.sources, p, k);
        }
        lemma_absent(seen, asset, stored, looks, stored.len());
        assert(same_but_availability(after.sources[s], seen.sources[s]));
        assert(p(seen.sources[s]));
        seen.sources.lemma_filter_contains(p, s);
        let k = choose|k: int| 0 <= k < stored.len() && stored[k] == seen.sources[s];
        assert(overlooked(stored[k], asset, looks));
    }
}

/// An original's own metadata is not looked at again where its bytes did not change, it was
/// read before and it could be read then: whatever the look would find makes no difference.
pub proof fn law_known_metadata_is_not_read_again(
    m: TablesModel,
    a: int,
    s: int,
    source: store::SourceRequest,
    one: Inspected<'_>,
    other: Inspected<'_>,
    sidecars: Result<Seq<Look<'_>>, CatalogError>,
)
    requires
        sources_named(m.sources),
        0 <= a < m.assets.len(),
        m.assets[a].location == source.locator,
        forall|j: int| 0 <= j < a ==> (#[trigger] m.assets[j]).location != source.locator,
        0 <= s < m.sources.len(),
        is_named(m.sources[s], m.assets[a].id, "embedded"@, source.locator),
        m.sources[s].current_observation is Some,
        m.sources[s].availability == "available"@,
    ensures
        scan::refreshed(m, source, false, one, sidecars) == scan::refreshed(
            m,
            source,
            false,
            other,
            sidecars,
        ),
{
    support::lemma_first_found(m.assets, scan::file_at(source.locator), a);
    let asset = m.assets[a].id;
    let q = lookups::source_with_name(asset, "embedded"@, source.locator);
    assert(q(m.sources[s]));
    assert forall|j: int| 0 <= j < s implies !q(#[trigger] m.sources[j]) by {
        assert(!is_named(
            m.sources[j],
            m.sources[s].asset_id,
            m.sources[s].kind,
            m.sources[s].locator,
        ));
    }
    support::lemma_first_found(m.sources, q, s);
}

/// An original's own metadata is looked at where its bytes changed, or where it was never read,
/// or could not be read: a look that is refused then refuses the whole.
pub proof fn law_other_metadata_is_read(
    m: TablesModel,
    a: int,
    source: store::SourceRequest,
    changed: bool,
    inspected: Inspected<'_>,
    sidecars: Result<Seq<Look<'_>>, CatalogError>,
)
    requires
        0 <= a < m.assets.len(),
        m.assets[a].location == source.locator,
        forall|j: int| 0 <= j < a ==> (#[trigger] m.assets[j]).location != source.locator,
        changed || forall|s: int|
            0 <= s < m.sources.len() && is_named(
                #[trigger] m.sources[s],
                m.assets[a].id,
                "embedded"@,
                source.locator,
            ) ==> m.sources[s].current_observation is None || m.sources[s].availability
                != "available"@,
        scan::looked(m, m.assets[a].id, source, inspected) is Err,
    ensures
        scan::refreshed(m, source, changed, inspected, sidecars).1 is Err,
        scan::refreshed(m, source, changed, inspected, sidecars).0 == m,
{
    support::lemma_first_found(m.assets, scan::file_at(source.locator), a);
    let asset = m.assets[a].id;
    support::lemma_first_where(
        m.sources,
        lookups::source_with_name(asset, "embedded"@, source.locator),
    );
    if let Some(s) = m.source_named(asset, "embedded"@, source.locator) {
        assert(is_named(m.sources[s], asset, "embedded"@, source.locator));
    }
}

/// A look at a source calls for attention exactly where the file could not be inspected, where
/// what was found in it is neither complete nor absent, or where some of it could not be
/// interpreted whole. Where the file could not be inspected the source is marked so, with the
/// reason.
pub proof fn law_looks_call_for_attention(
    m: TablesModel,
    asset: Seq<char>,
    source: store::SourceRequest,
    inspected: Inspected<'_>,
)
    requires
        sources_named(m.sources),
    ensures
        scan::looked(m, asset, source, inspected) matches Ok((after, _, warning)) ==> match inspected {
            Inspected::Failed(reason) => warning && exists|s: int|
                0 <= s < after.sources.len() && is_named(
                    #[trigger] after.sources[s],
                    asset,
                    source.kind,
                    source.locator,
                ) && after.sources[s].availability == "inspection failed: "@ + reason@,
            Inspected::Found(found) => warning <==> (found.status@ != "Complete"@ && found.status@
                != "Absent"@) || exists|k: int|
                0 <= k < found.parse_inputs@.len() && !((
                #[trigger] found.parse_inputs@[k]).reading matches Reading::Projected(p)
                    && !p.flawed),
        },
{
    reveal(scan::looked);
    if let Ok((after, _, warning)) = scan::looked(m, asset, source, inspected) {
        match inspected {
            Inspected::Failed(reason) => law_unavailable_sources_are_marked(
                m,
                asset,
                source,
                "inspection failed: "@ + reason@,
            ),
            Inspected::Found(found) => {
                if scan::worrying(*found) && (found.status@ == "Complete"@ || found.status@
                    == "Absent"@) {
                    let k = choose|k: int|
                        0 <= k < found.parse_inputs@.len() && scan::misread(
                            #[trigger] found.parse_inputs@[k],
                        );
                    assert(!(found.parse_inputs@[k].reading matches Reading::Projected(p)
                        && !p.flawed));
                }
                if exists|k: int|
                    0 <= k < found.parse_inputs@.len() && !((
                    #[trigger] found.parse_inputs@[k]).reading matches Reading::Projected(p)
                        && !p.flawed) {
                    let k = choose|k: int|
                        0 <= k < found.parse_inputs@.len() && !((
                        #[trigger] found.parse_inputs@[k]).reading matches Reading::Projected(p)
                            && !p.flawed);
                    assert(scan::misread(found.parse_inputs@[k]));
                }
            },
        }
    }
}

/// An observation that is retained for one image counts as a change exactly where the image
/// did not yet use it so: with the observation as its current one, associated as asked for, and
/// available. A change takes the image's revision up by one, and nothing else does.
pub proof fn law_only_changes_are_counted(
    m: TablesModel,
    i: int,
    image: Seq<char>,
    source: store::SourceRequest,
    p: prepared::PreparedObservation,
    revision: i64,
)
    requires
        catalog_metadata::reconcile_laws::rows_keyed(m),
        store_laws::sources_numbered(m),
        store_laws::is_image(m, i, image),
        export_laws::records_revision(m, image, revision),
        p.status != "SourceChanged"@,
    ensures
        store::retain_outcome(m, image, source, p, false) matches Ok((after, change)) ==> {
            &&& change.revision == if change.changed {
                revision + 1
            } else {
                revision as int
            }
            &&& export_laws::records_revision(after, image, change.revision)
            &&& !change.changed ==> exists|b: int|
                0 <= b < m.image_sources.len() && store_laws::is_usage(
                    #[trigger] m.image_sources[b],
                    image,
                    m.image_sources[b].source_id,
                    Some(change.observation_id),
                    source.ambiguous,
                    "available"@,
                )
            &&& change.changed ==> forall|b: int, s: int|
                0 <= b < m.image_sources.len() && 0 <= s < m.sources.len() && is_named(
                    #[trigger] m.sources[s],
                    m.images[i].asset_id,
                    source.kind,
                    source.locator,
                ) && (source.kind != "catalog"@ || m.images[i].asset_id == image)
                    && sources_named(m.sources) ==> !store_laws::is_usage(
                    #[trigger] m.image_sources[b],
                    image,
                    m.sources[s].id,
                    Some(change.observation_id),
                    source.ambiguous,
                    "available"@,
                )
        },
{
    if let Ok((after, change)) = store::retain_outcome(m, image, source, p, false) {
        let (stored, oid, changed) = store::store_outcome(m, image, source, p)->Ok_0;
        support::lemma_first_found(m.images, lookups::image_with_id(image), i);
        let asset = m.images[i].asset_id;
        let locator = source.scoped_locator(image, asset);
        let (m1, sid) = store::source_put(m, asset, source, locator)->Ok_0;
        let current = match m.source_named(asset, source.kind, locator) {
            Some(s) => m.sources[s].current_observation,
            None => None,
        };
        let (m2, _) = store::observed(m1, asset, sid, current, p)->Ok_0;
        store_laws::lemma_same_sources(m1, asset, sid, current, p);
        let q = lookups::image_source_for(image, sid);
        support::lemma_first_where(m2.image_sources, q);
        assert(m2.image_sources == m.image_sources);
        catalog_metadata::ownership::lemma_store_choices(m, image, source, p);
        export_laws::lemma_recorded(m, image, revision);
        assert(stored.revision_of(image) == revision);
        if !changed {
            let b = m2.image_source_at(image, sid)->Some_0;
            assert(store_laws::is_usage(
                m.image_sources[b],
                image,
                m.image_sources[b].source_id,
                Some(oid),
                source.ambiguous,
                "available"@,
            ));
        } else {
            assert forall|b: int, s: int|
                0 <= b < m.image_sources.len() && 0 <= s < m.sources.len() && is_named(
                    #[trigger] m.sources[s],
                    asset,
                    source.kind,
                    source.locator,
                ) && (source.kind != "catalog"@ || asset == image) && sources_named(m.sources) implies !store_laws::is_usage(
                #[trigger] m.image_sources[b],
                image,
                m.sources[s].id,
                Some(oid),
                source.ambiguous,
                "available"@,
            ) by {
                let sq = lookups::source_with_name(asset, source.kind, locator);
                assert(sq(m.sources[s]));
                assert forall|j: int| 0 <= j < s implies !sq(#[trigger] m.sources[j]) by {
                    assert(!is_named(
                        m.sources[j],
                        m.sources[s].asset_id,
                        m.sources[s].kind,
                        m.sources[s].locator,
                    ));
                }
                support::lemma_first_found(m.sources, sq, s);
                assert(sid == m.sources[s].id);
                if m.image_sources[b].image_id == image && m.image_sources[b].source_id == sid {
                    assert(q(m.image_sources[b]));
                    let at = m2.image_source_at(image, sid)->Some_0;
                    if at < b {
                        assert(m.image_sources[at].source_id != m.image_sources[b].source_id);
                    } else if b < at {
                        assert(!q(m2.image_sources[b]));
                    }
                }
            }
        }
        export_laws::lemma_recorded(after, image, change.revision);
        if changed {
            let rq = lookups::revision_for(image);
            support::lemma_first_where(stored.revisions, rq);
            match stored.revision_at(image) {
                Some(r) => {
                    assert forall|j: int| 0 <= j < r implies !rq(#[trigger] after.revisions[j]) by {
                        assert(!rq(stored.revisions[j]));
                    }
                    support::lemma_first_found(after.revisions, rq, r);
                },
                None => support::lemma_pushed(stored.revisions, after.revisions, rq),
            }
        }
    }
}

} // verus!

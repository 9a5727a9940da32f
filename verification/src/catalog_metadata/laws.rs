//! What holds of the evidence whatever is done to the catalog: it only grows, and
//! what was retained can be read back.
use crate::catalog_images::refresh;
use crate::catalog_images::register;
use crate::catalog_metadata;
use crate::catalog_metadata::edit;
use crate::catalog_metadata::edit::PreparedEdit;
use crate::catalog_metadata::prepared;
use crate::catalog_metadata::prepared::MAX_PACKET_BYTES;
use crate::catalog_metadata::scan;
use crate::catalog_metadata::scan::Look;
use crate::catalog_metadata::sources;
use crate::catalog_metadata::sources::Inspected;
use crate::catalog_metadata::store;
use crate::catalog_metadata::views;
use crate::catalog_metadata::views::STREAM_MARGIN;
use crate::error::CatalogError;
use crate::lookups;
use crate::outside;
use crate::support;
use crate::tables;
use crate::tables::TablesModel;
use vstd::prelude::*;

verus! {

/// A list with more behind what it held.
pub open spec fn grown<T>(before: Seq<T>, after: Seq<T>) -> bool {
    &&& before.len() <= after.len()
    &&& forall|i: int| 0 <= i < before.len() ==> #[trigger] after[i] == before[i]
}

/// Every observation, packet, interpretation, value and retained byte string is
/// still there as it was, and so is every file that an observation was found in.
pub open spec fn keeps_evidence(before: TablesModel, after: TablesModel) -> bool {
    &&& grown(before.observations, after.observations)
    &&& grown(before.packets, after.packets)
    &&& grown(before.models, after.models)
    &&& grown(before.values, after.values)
    &&& grown(before.blobs, after.blobs)
    &&& grown(before.file_instances, after.file_instances)
}

/// The evidence is untouched.
pub open spec fn same_evidence(before: TablesModel, after: TablesModel) -> bool {
    &&& before.observations == after.observations
    &&& before.packets == after.packets
    &&& before.models == after.models
    &&& before.values == after.values
    &&& before.blobs == after.blobs
    &&& before.file_instances == after.file_instances
}

proof fn lemma_followed(m: TablesModel, image: Seq<char>, e: tables::SharedEventModel)
    ensures
        m.followed(image, e) matches Ok(after) ==> same_evidence(m, after),
{
}

/// Letting images follow their shared sources takes no more steps than allowed, and
/// leaves all evidence as it is.
pub proof fn law_refreshing_is_bounded(m: TablesModel, budget: nat)
    ensures
        m.refreshed(budget) matches Ok((after, steps)) ==> steps <= budget && same_evidence(
            m,
            after,
        ),
    decreases budget, m.shared_events.len(),
{
    if budget > 0 && m.shared_events.len() > 0 {
        let e = m.shared_events[0];
        match m.next_image(e.asset_id, e.cursor, e.high_water) {
            None => law_refreshing_is_bounded(
                (TablesModel { shared_events: m.shared_events.skip(1), ..m }),
                budget,
            ),
            Some(i) => {
                lemma_followed(m, m.images[i].id, e);
                if let Ok(next) = m.refreshed_image(i) {
                    law_refreshing_is_bounded(next, (budget - 1) as nat);
                }
            },
        }
    }
}

proof fn lemma_blobs(m: TablesModel, blobs: Seq<tables::BlobModel>, n: nat)
    requires
        n <= blobs.len(),
    ensures
        ({
            let after = store::blobs_added(m, blobs, n);
            &&& after == (TablesModel { blobs: after.blobs, ..m })
            &&& grown(m.blobs, after.blobs)
            &&& prepared::all_restore(m.blobs) && prepared::all_restore(blobs)
                ==> prepared::all_restore(after.blobs)
        }),
    decreases n,
{
    if n > 0 {
        lemma_blobs(m, blobs, (n - 1) as nat);
    }
}

proof fn lemma_values(
    m: TablesModel,
    mid: i64,
    values: Seq<prepared::PreparedValueModel>,
    n: nat,
)
    ensures
        store::values_added(m, mid, values, n) matches Ok(after) ==> after == (TablesModel {
            values: after.values,
            ..m
        }) && grown(m.values, after.values),
    decreases n,
{
    if n > 0 {
        lemma_values(m, mid, values, (n - 1) as nat);
    }
}

proof fn lemma_models(m: TablesModel, oid: i64, models: Seq<prepared::PreparedModelModel>, n: nat)
    ensures
        store::models_added(m, oid, models, n) matches Ok(after) ==> keeps_evidence(m, after)
            && after.blobs == m.blobs,
    decreases n,
{
    if n > 0 {
        lemma_models(m, oid, models, (n - 1) as nat);
        if let Ok(before) = store::models_added(m, oid, models, (n - 1) as nat) {
            let model = models[n - 1];
            let mid = (before.model_high + 1) as i64;
            let with = TablesModel {
                models: before.models.push(
                    tables::InterpretationModel {
                        id: mid,
                        observation_id: oid,
                        ordinal: (n - 1) as i64,
                        blob_hash: model.hash,
                        descriptor: model.descriptor,
                        projection: model.projection,
                        error: model.error,
                    },
                ),
                model_high: mid,
                ..before
            };
            lemma_values(with, mid, model.fields, model.fields.len());
        }
    }
}

proof fn lemma_added(m: TablesModel, sid: i64, p: prepared::PreparedObservation)
    ensures
        store::observation_added(m, sid, p) matches Ok((after, _)) ==> keeps_evidence(m, after) && (
        prepared::all_restore(m.blobs) && prepared::all_restore(p.blobs) ==> prepared::all_restore(
            after.blobs,
        )),
{
    if let Ok((after, oid)) = store::observation_added(m, sid, p) {
        let stored = store::blobs_added(m, p.blobs, p.blobs.len());
        lemma_blobs(m, p.blobs, p.blobs.len());
        let observed = TablesModel {
            observations: stored.observations.push(
                tables::ObservationModel {
                    id: oid,
                    source_id: sid,
                    revision: p.revision,
                    status: p.status,
                    issues: p.issues,
                    provenance: p.provenance,
                    source_provenance: p.source_provenance,
                    file_length: p.file_length,
                    file_blake3: p.file_blake3,
                    modified: p.modified,
                },
            ),
            observation_high: oid,
            ..stored
        };
        lemma_models(
            store::packets_added(observed, oid, p.packets),
            oid,
            p.models,
            p.models.len(),
        );
    }
}

proof fn lemma_stored(
    m: TablesModel,
    image: Seq<char>,
    source: store::SourceRequest,
    p: prepared::PreparedObservation,
)
    ensures
        store::store_outcome(m, image, source, p) matches Ok((after, _, _)) ==> keeps_evidence(
            m,
            after,
        ) && (prepared::all_restore(m.blobs) && prepared::all_restore(p.blobs)
            ==> prepared::all_restore(after.blobs)),
{
    if let Ok((after, oid, _)) = store::store_outcome(m, image, source, p) {
        let asset = m.images[m.image_at(image)->Some_0].asset_id;
        let locator = source.scoped_locator(image, asset);
        let (m1, sid) = store::source_put(m, asset, source, locator)->Ok_0;
        assert(same_evidence(m, m1));
        lemma_added(m1, sid, p);
        let current = match m.source_named(asset, source.kind, locator) {
            Some(s) => m.sources[s].current_observation,
            None => None,
        };
        let (m2, observation) = store::observed(m1, asset, sid, current, p)->Ok_0;
        assert(keeps_evidence(m1, m2));
        assert(same_evidence(m2, store::store_usage(m2, image, source, p.status, sid, oid)->Ok_0.0));
    }
}

/// Retaining an observation leaves all evidence that there is as it is, and keeps
/// every retained byte string readable.
pub proof fn law_retained_evidence_is_immutable(
    m: TablesModel,
    image: Seq<char>,
    source: store::SourceRequest,
    p: prepared::PreparedObservation,
    shared: bool,
)
    ensures
        store::retain_outcome(m, image, source, p, shared) matches Ok((after, _))
            ==> keeps_evidence(m, after) && (prepared::all_restore(m.blobs)
            && prepared::all_restore(p.blobs) ==> prepared::all_restore(after.blobs)),
{
    lemma_stored(m, image, source, p);
    if let Ok((after, change)) = store::retain_outcome(m, image, source, p, shared) {
        let (stored, oid, changed) = store::store_outcome(m, image, source, p)->Ok_0;
        if changed {
            let (advanced, _) = catalog_metadata::advance_outcome(
                stored.rebuilt(image),
                image,
                "observe"@,
                tables::DetailModel::Observed { observation_id: oid },
                true,
            )->Ok_0;
            assert(same_evidence(stored, advanced));
            if shared {
                let queued = refresh::enqueue_shared_outcome(advanced, image, oid)->Ok_0;
                assert(same_evidence(advanced, queued));
                law_refreshing_is_bounded(queued, store::FOLLOW_BATCH as nat);
            }
        }
    }
}

/// A source that cannot be read any more loses none of the evidence that was found
/// in it.
pub proof fn law_unavailable_sources_keep_their_evidence(
    m: TablesModel,
    asset: Seq<char>,
    source: store::SourceRequest,
    reason: Seq<char>,
)
    ensures
        sources::unavailable_outcome(m, asset, source, reason) matches Ok((after, _))
            ==> same_evidence(m, after),
{
    if let Ok((after, changed)) = sources::unavailable_outcome(m, asset, source, reason) {
        if changed {
            let (m1, sid) = sources::source_marked(m, asset, source, reason)->Ok_0;
            assert(same_evidence(m, m1));
            let row = m1.sources[m1.source_at(sid)->Some_0];
            let m2 = m1.linked_option(asset, row.current_observation)->Ok_0;
            let m3 = m2.following(
                asset,
                sid,
                row.current_observation,
                row.association,
                row.availability,
            )->Ok_0;
            assert(same_evidence(m1, m3));
            let (m4, _) = catalog_metadata::advance_outcome(
                m3,
                asset,
                "source_unavailable"@,
                tables::DetailModel::Unavailable {
                    kind: source.kind,
                    display: source.display,
                    reason,
                },
                true,
            )->Ok_0;
            let queued = refresh::enqueue_source_outcome(m4, sid)->Ok_0;
            assert(same_evidence(m4, queued));
            law_refreshing_is_bounded(queued, store::FOLLOW_BATCH as nat);
        }
    }
}

/// Settling a conflict leaves all evidence as it is.
pub proof fn law_choices_keep_the_evidence(
    m: TablesModel,
    image: Seq<char>,
    expected: i64,
    field: Seq<char>,
    model: i64,
)
    ensures
        views::resolve_outcome(m, image, expected, field, model) matches Ok((after, revision))
            ==> same_evidence(m, after) && revision == expected + 1,
{
}

proof fn lemma_chosen(m: TablesModel, after: TablesModel, e: PreparedEdit, model: i64, n: nat)
    ensures
        same_evidence(after, edit::edit_chosen(m, after, e, model, n)),
    decreases n,
{
    if n > 0 {
        lemma_chosen(m, after, e, model, (n - 1) as nat);
    }
}

/// Publishing an edit adds to the evidence and changes none of it, and keeps every
/// retained byte string readable.
pub proof fn law_edits_keep_the_evidence(m: TablesModel, e: PreparedEdit)
    ensures
        edit::commit_outcome(m, e) matches Ok((after, _)) ==> keeps_evidence(m, after) && (
        prepared::all_restore(m.blobs) && prepared::all_restore(e.prepared@.blobs)
            ==> prepared::all_restore(after.blobs)),
{
    if let Ok((after, _)) = edit::commit_outcome(m, e) {
        let image = e.image_identity.image_id@;
        lemma_stored(m, image, e.source@, e.prepared@);
        let (stored, oid, _) = store::store_outcome(m, image, e.source@, e.prepared@)->Ok_0;
        let ids = store::models_of(stored, oid);
        lemma_chosen(m, stored, e, ids[0], e.updated@.len());
    }
}

/// An edit that was prepared before the image changed is refused and changes
/// nothing.
pub proof fn law_stale_edits_are_refused(m: TablesModel, e: PreparedEdit)
    requires
        m.identity_of(e.image_identity.image_id@) is Ok,
        m.identity_of(e.image_identity.image_id@)->Ok_0 != e.image_identity@,
    ensures
        edit::commit_outcome(m, e) == Err::<(TablesModel, store::ChangeModel), CatalogError>(
            CatalogError::IdentityChanged,
        ),
{
}

/// What is retained under a digest reads back as bytes of that digest, unless its
/// stream is longer than a stream may be.
pub proof fn law_retained_bytes_read_back(m: TablesModel, hash: Seq<char>)
    requires
        prepared::all_restore(m.blobs),
        m.blob_at(hash) matches Some(b) && m.blobs[b].compressed.len() <= MAX_PACKET_BYTES
            + STREAM_MARGIN,
    ensures
        views::blob_bytes(m, hash) matches Ok(bytes) && outside::blake3_hex(bytes) == hash,
{
    support::lemma_first_where(m.blobs, lookups::blob_with_hash(hash));
    let b = m.blob_at(hash)->Some_0;
    assert(prepared::restores(m.blobs[b]));
}

proof fn lemma_added_blobs(m: TablesModel, sid: i64, p: prepared::PreparedObservation)
    ensures
        store::observation_added(m, sid, p) matches Ok((after, _)) ==> after.blobs
            == store::blobs_added(m, p.blobs, p.blobs.len()).blobs,
{
    if let Ok((after, oid)) = store::observation_added(m, sid, p) {
        let stored = store::blobs_added(m, p.blobs, p.blobs.len());
        let observed = TablesModel {
            observations: stored.observations.push(
                tables::ObservationModel {
                    id: oid,
                    source_id: sid,
                    revision: p.revision,
                    status: p.status,
                    issues: p.issues,
                    provenance: p.provenance,
                    source_provenance: p.source_provenance,
                    file_length: p.file_length,
                    file_blake3: p.file_blake3,
                    modified: p.modified,
                },
            ),
            observation_high: oid,
            ..stored
        };
        lemma_models(
            store::packets_added(observed, oid, p.packets),
            oid,
            p.models,
            p.models.len(),
        );
    }
}

/// A byte string stays among retained bytes when more are added.
proof fn lemma_still_held(
    blobs: Seq<tables::BlobModel>,
    bytes: Seq<u8>,
    after: Seq<tables::BlobModel>,
    hash: Seq<char>,
)
    requires
        prepared::with_blob(blobs, bytes) == Ok::<Seq<tables::BlobModel>, CatalogError>(after),
    ensures
        support::first_where(blobs, lookups::blob_with_hash(hash)) is Some ==> support::first_where(
            after,
            lookups::blob_with_hash(hash),
        ) is Some,
        support::first_where(after, lookups::blob_with_hash(outside::blake3_hex(bytes))) is Some,
{
    let own = outside::blake3_hex(bytes);
    assert(prepared::prepared_blob(own) =~= lookups::blob_with_hash(own));
    if after != blobs {
        support::lemma_pushed(blobs, after, lookups::blob_with_hash(hash));
        support::lemma_pushed(blobs, after, lookups::blob_with_hash(own));
    }
}

proof fn lemma_packets_held(packets: Seq<prepared::Packet>, n: nat)
    requires
        n <= packets.len(),
        prepared::packet_blobs(packets, n) is Ok,
    ensures
        forall|i: int|
            0 <= i < n ==> support::first_where(
                prepared::packet_blobs(packets, n)->Ok_0,
                lookups::blob_with_hash(outside::blake3_hex((#[trigger] packets[i]).bytes@)),
            ) is Some,
    decreases n,
{
    if n > 0 {
        lemma_packets_held(packets, (n - 1) as nat);
        let before = prepared::packet_blobs(packets, (n - 1) as nat)->Ok_0;
        let after = prepared::packet_blobs(packets, n)->Ok_0;
        assert forall|i: int| 0 <= i < n implies support::first_where(
            after,
            lookups::blob_with_hash(outside::blake3_hex((#[trigger] packets[i]).bytes@)),
        ) is Some by {
            lemma_still_held(
                before,
                packets[n - 1].bytes@,
                after,
                outside::blake3_hex(packets[i].bytes@),
            );
        }
    }
}

proof fn lemma_inputs_held(inspection: prepared::Inspection, n: nat, hash: Seq<char>)
    requires
        n <= inspection.parse_inputs@.len(),
        prepared::input_blobs(inspection, n) is Ok,
    ensures
        prepared::packet_blobs(inspection.packets@, inspection.packets@.len()) is Ok,
        support::first_where(
            prepared::packet_blobs(inspection.packets@, inspection.packets@.len())->Ok_0,
            lookups::blob_with_hash(hash),
        ) is Some ==> support::first_where(
            prepared::input_blobs(inspection, n)->Ok_0,
            lookups::blob_with_hash(hash),
        ) is Some,
        forall|i: int|
            0 <= i < n && outside::blake3_hex((#[trigger] inspection.parse_inputs@[i]).bytes@) == hash
                ==> support::first_where(
                prepared::input_blobs(inspection, n)->Ok_0,
                lookups::blob_with_hash(hash),
            ) is Some,
    decreases n,
{
    if n > 0 {
        lemma_inputs_held(inspection, (n - 1) as nat, hash);
        lemma_still_held(
            prepared::input_blobs(inspection, (n - 1) as nat)->Ok_0,
            inspection.parse_inputs@[n - 1].bytes@,
            prepared::input_blobs(inspection, n)->Ok_0,
            hash,
        );
    }
}

proof fn lemma_merged_held(inspection: prepared::Inspection, n: nat, hash: Seq<char>)
    requires
        n <= inspection.parse_inputs@.len(),
        prepared::merged_models(inspection, n) is Ok,
    ensures
        prepared::input_blobs(inspection, inspection.parse_inputs@.len()) is Ok,
        support::first_where(
            prepared::input_blobs(inspection, inspection.parse_inputs@.len())->Ok_0,
            lookups::blob_with_hash(hash),
        ) is Some ==> support::first_where(
            prepared::merged_models(inspection, n)->Ok_0.0,
            lookups::blob_with_hash(hash),
        ) is Some,
    decreases n,
{
    if n > 0 {
        lemma_merged_held(inspection, (n - 1) as nat, hash);
        let before = prepared::merged_models(inspection, (n - 1) as nat)->Ok_0.0;
        let after = prepared::merged_models(inspection, n)->Ok_0.0;
        if after != before {
            let bytes = inspection.parse_inputs@[n - 1].merge->0->bytes;
            lemma_still_held(before, bytes@, after, hash);
        }
    }
}

/// What is prepared of a file holds the bytes of every packet that was found in it, and
/// of everything that was read.
pub proof fn law_all_found_bytes_are_prepared(
    inspection: prepared::Inspection,
    source: store::SourceRequest,
    p: prepared::PreparedObservation,
)
    requires
        prepared::prepare_outcome(inspection, source) == Ok::<
            prepared::PreparedObservation,
            CatalogError,
        >(p),
    ensures
        forall|i: int|
            0 <= i < inspection.packets@.len() ==> holds(
                p,
                (#[trigger] inspection.packets@[i]).bytes@,
            ),
        forall|i: int|
            0 <= i < inspection.parse_inputs@.len() ==> holds(
                p,
                (#[trigger] inspection.parse_inputs@[i]).bytes@,
            ),
{
    let inputs = inspection.parse_inputs@.len();
    assert forall|hash: Seq<char>|
        support::first_where(
            prepared::input_blobs(inspection, inputs)->Ok_0,
            lookups::blob_with_hash(hash),
        ) is Some implies #[trigger] support::first_where(p.blobs, lookups::blob_with_hash(hash))
        is Some by {
        lemma_merged_held(inspection, inputs, hash);
    }
    lemma_merged_held(inspection, inputs, Seq::empty());
    lemma_inputs_held(inspection, inputs, Seq::empty());
    lemma_packets_held(inspection.packets@, inspection.packets@.len());
    assert forall|i: int| 0 <= i < inspection.packets@.len() implies holds(
        p,
        (#[trigger] inspection.packets@[i]).bytes@,
    ) by {
        lemma_inputs_held(inspection, inputs, outside::blake3_hex(inspection.packets@[i].bytes@));
    }
    assert forall|i: int| 0 <= i < inspection.parse_inputs@.len() implies holds(
        p,
        (#[trigger] inspection.parse_inputs@[i]).bytes@,
    ) by {
        lemma_inputs_held(
            inspection,
            inputs,
            outside::blake3_hex(inspection.parse_inputs@[i].bytes@),
        );
    }
}

/// What was prepared holds bytes of the digest of these.
pub open spec fn holds(p: prepared::PreparedObservation, bytes: Seq<u8>) -> bool {
    support::first_where(p.blobs, lookups::blob_with_hash(outside::blake3_hex(bytes))) is Some
}

/// No stream of what was prepared is longer than a stream may be.
pub open spec fn streams_fit(p: prepared::PreparedObservation) -> bool {
    forall|i: int|
        0 <= i < p.blobs.len() ==> (#[trigger] p.blobs[i]).compressed.len() <= MAX_PACKET_BYTES
            + STREAM_MARGIN
}

/// No other byte string that was found has the digest of this one.
pub open spec fn told_apart(found: Set<Seq<u8>>, bytes: Seq<u8>) -> bool {
    found.contains(bytes) && forall|other: Seq<u8>|
        #[trigger] found.contains(other) && outside::blake3_hex(other) == outside::blake3_hex(bytes)
            ==> other == bytes
}

/// Where a digest was new, what is retained under it is what was prepared.
proof fn lemma_blob_added(m: TablesModel, blobs: Seq<tables::BlobModel>, n: nat, hash: Seq<char>)
    requires
        n <= blobs.len(),
        m.blob_at(hash) is None,
    ensures
        ({
            let after = store::blobs_added(m, blobs, n);
            match after.blob_at(hash) {
                Some(b) => exists|k: int|
                    0 <= k < n && after.blobs[b] == #[trigger] blobs[k] && blobs[k].hash == hash,
                None => forall|k: int| 0 <= k < n ==> (#[trigger] blobs[k]).hash != hash,
            }
        }),
    decreases n,
{
    let p = lookups::blob_with_hash(hash);
    if n > 0 {
        lemma_blob_added(m, blobs, (n - 1) as nat, hash);
        let before = store::blobs_added(m, blobs, (n - 1) as nat);
        let after = store::blobs_added(m, blobs, n);
        support::lemma_first_where(before.blobs, p);
        if before.blob_at(blobs[n - 1].hash) is None {
            support::lemma_pushed(before.blobs, after.blobs, p);
        }
        if let Some(b) = before.blob_at(hash) {
            let k = choose|k: int|
                0 <= k < n - 1 && before.blobs[b] == #[trigger] blobs[k] && blobs[k].hash == hash;
            assert(after.blobs[b] == blobs[k]);
        }
    }
}

/// Bytes that a new observation holds, and that no retained bytes had the digest of,
/// read back.
proof fn lemma_read_back(
    m: TablesModel,
    after: TablesModel,
    p: prepared::PreparedObservation,
    found: Set<Seq<u8>>,
    bytes: Seq<u8>,
)
    requires
        prepared::all_give(p.blobs, found),
        told_apart(found, bytes),
        holds(p, bytes),
        streams_fit(p),
        m.blob_at(outside::blake3_hex(bytes)) is None,
        after.blobs == store::blobs_added(m, p.blobs, p.blobs.len()).blobs,
    ensures
        views::blob_bytes(after, outside::blake3_hex(bytes)) == Ok::<Seq<u8>, CatalogError>(bytes),
{
    let hash = outside::blake3_hex(bytes);
    let with = store::blobs_added(m, p.blobs, p.blobs.len());
    assert(after.blob_at(hash) == with.blob_at(hash));
    support::lemma_first_where(p.blobs, lookups::blob_with_hash(hash));
    lemma_blob_added(m, p.blobs, p.blobs.len(), hash);
    assert(with.blob_at(hash) is Some);
    let b = with.blob_at(hash)->0;
    let k = choose|k: int|
        0 <= k < p.blobs.len() && with.blobs[b] == #[trigger] p.blobs[k] && p.blobs[k].hash == hash;
    let given = choose|given: Seq<u8>|
        found.contains(given) && prepared::gives(p.blobs[k], given);
    assert(prepared::gives(p.blobs[k], given));
    assert(given == bytes);
}

/// A new observation was stored with all its bytes.
proof fn lemma_stored_blobs(
    m: TablesModel,
    image: Seq<char>,
    source: store::SourceRequest,
    p: prepared::PreparedObservation,
)
    ensures
        store::store_outcome(m, image, source, p) matches Ok((after, _, _)) ==> (
        after.observations.len() > m.observations.len() ==> after.blobs == store::blobs_added(
            m,
            p.blobs,
            p.blobs.len(),
        ).blobs),
{
    if let Ok((after, oid, _)) = store::store_outcome(m, image, source, p) {
        let asset = m.images[m.image_at(image)->Some_0].asset_id;
        let locator = source.scoped_locator(image, asset);
        let (m1, sid) = store::source_put(m, asset, source, locator)->Ok_0;
        assert(same_evidence(m, m1));
        lemma_same_blobs(m, m1, p.blobs, p.blobs.len());
        lemma_added_blobs(m1, sid, p);
        let current = match m.source_named(asset, source.kind, locator) {
            Some(s) => m.sources[s].current_observation,
            None => None,
        };
        let (m2, observation) = store::observed(m1, asset, sid, current, p)->Ok_0;
        let used = store::store_usage(m2, image, source, p.status, sid, oid)->Ok_0.0;
        assert(same_evidence(m2, used));
    }
}

proof fn lemma_same_blobs(a: TablesModel, b: TablesModel, blobs: Seq<tables::BlobModel>, n: nat)
    requires
        a.blobs == b.blobs,
    ensures
        store::blobs_added(a, blobs, n).blobs == store::blobs_added(b, blobs, n).blobs,
    decreases n,
{
    if n > 0 {
        lemma_same_blobs(a, b, blobs, (n - 1) as nat);
    }
}

/// What a new observation holds reads back as the bytes that were found, where no other
/// bytes had their digest and their stream is no longer than a stream may be.
pub proof fn law_found_bytes_read_back(
    m: TablesModel,
    image: Seq<char>,
    source: store::SourceRequest,
    p: prepared::PreparedObservation,
    shared: bool,
    found: Set<Seq<u8>>,
    bytes: Seq<u8>,
)
    requires
        prepared::all_give(p.blobs, found),
        told_apart(found, bytes),
        holds(p, bytes),
        streams_fit(p),
        m.blob_at(outside::blake3_hex(bytes)) is None,
        store::retain_outcome(m, image, source, p, shared) matches Ok((after, _))
            && after.observations.len() > m.observations.len(),
    ensures
        views::blob_bytes(
            store::retain_outcome(m, image, source, p, shared)->Ok_0.0,
            outside::blake3_hex(bytes),
        ) == Ok::<Seq<u8>, CatalogError>(bytes),
{
    let (after, _) = store::retain_outcome(m, image, source, p, shared)->Ok_0;
    let (stored, oid, changed) = store::store_outcome(m, image, source, p)->Ok_0;
    lemma_stored_blobs(m, image, source, p);
    if changed {
        let (advanced, _) = catalog_metadata::advance_outcome(
            stored.rebuilt(image),
            image,
            "observe"@,
            tables::DetailModel::Observed { observation_id: oid },
            true,
        )->Ok_0;
        assert(same_evidence(stored, advanced));
        if shared {
            let queued = refresh::enqueue_shared_outcome(advanced, image, oid)->Ok_0;
            assert(same_evidence(advanced, queued));
            law_refreshing_is_bounded(queued, store::FOLLOW_BATCH as nat);
        }
    }
    assert(same_evidence(stored, after));
    lemma_read_back(m, after, p, found, bytes);
}

/// The packet of a new edit reads back as it was, where no other bytes had its digest and
/// its stream is no longer than a stream may be.
pub proof fn law_edited_packets_read_back(m: TablesModel, e: PreparedEdit, packet: Seq<u8>)
    requires
        prepared::all_give(e.prepared@.blobs, set![packet]),
        holds(e.prepared@, packet),
        streams_fit(e.prepared@),
        m.blob_at(outside::blake3_hex(packet)) is None,
        edit::commit_outcome(m, e) matches Ok((after, _)) && after.observations.len()
            > m.observations.len(),
    ensures
        views::blob_bytes(edit::commit_outcome(m, e)->Ok_0.0, outside::blake3_hex(packet)) == Ok::<
            Seq<u8>,
            CatalogError,
        >(packet),
{
    let (after, _) = edit::commit_outcome(m, e)->Ok_0;
    let image = e.image_identity.image_id@;
    let (stored, oid, _) = store::store_outcome(m, image, e.source@, e.prepared@)->Ok_0;
    let ids = store::models_of(stored, oid);
    lemma_chosen(m, stored, e, ids[0], e.updated@.len());
    assert(same_evidence(stored, after));
    lemma_stored_blobs(m, image, e.source@, e.prepared@);
    lemma_read_back(m, after, e.prepared@, set![packet], packet);
}

/// What is prepared of an edit holds its packet.
pub proof fn law_edited_packets_are_prepared(m: TablesModel, r: edit::EditRequest)
    ensures
        edit::edit_observation(m, r) matches Ok(p) ==> holds(p, r.packet@),
{
    if let Ok(p) = edit::edit_observation(m, r) {
        lemma_still_held(Seq::empty(), r.packet@, p.blobs, Seq::empty());
    }
}

proof fn lemma_keeps_evidence(a: TablesModel, b: TablesModel, c: TablesModel)
    requires
        keeps_evidence(a, b),
        keeps_evidence(b, c),
    ensures
        keeps_evidence(a, c),
{
    lemma_grown(a.observations, b.observations, c.observations);
    lemma_grown(a.packets, b.packets, c.packets);
    lemma_grown(a.models, b.models, c.models);
    lemma_grown(a.values, b.values, c.values);
    lemma_grown(a.blobs, b.blobs, c.blobs);
    lemma_grown(a.file_instances, b.file_instances, c.file_instances);
}

proof fn lemma_grown<T>(a: Seq<T>, b: Seq<T>, c: Seq<T>)
    requires
        grown(a, b),
        grown(b, c),
    ensures
        grown(a, c),
{
    assert forall|i: int| 0 <= i < a.len() implies #[trigger] c[i] == a[i] by {
        assert(c[i] == b[i]);
        assert(b[i] == a[i]);
    }
}

proof fn lemma_looked(
    m: TablesModel,
    asset: Seq<char>,
    source: store::SourceRequest,
    inspected: Inspected<'_>,
)
    ensures
        scan::looked(m, asset, source, inspected) matches Ok((after, _, _)) ==> keeps_evidence(
            m,
            after,
        ),
{
    reveal(scan::looked);
    match inspected {
        Inspected::Found(inspection) => {
            if let Ok(p) = prepared::prepare_outcome(*inspection, source) {
                law_retained_evidence_is_immutable(
                    m,
                    asset,
                    source,
                    p,
                    register::shared_kind(source.kind),
                );
            }
        },
        Inspected::Failed(reason) => law_unavailable_sources_keep_their_evidence(
            m,
            asset,
            source,
            "inspection failed: "@ + reason@,
        ),
    }
}

proof fn lemma_all_looked(m: TablesModel, asset: Seq<char>, looks: Seq<Look<'_>>, n: nat)
    ensures
        keeps_evidence(m, scan::all_looked(m, asset, looks, n).0),
    decreases n,
{
    if n > 0 {
        lemma_all_looked(m, asset, looks, (n - 1) as nat);
        let (before, tally) = scan::all_looked(m, asset, looks, (n - 1) as nat);
        if tally is Ok {
            let look = looks[n - 1];
            lemma_looked(before, asset, look.source@, look.inspected);
            if let Ok((after, _, _)) = scan::looked(
                before,
                asset,
                look.source@,
                look.inspected,
            ) {
                lemma_keeps_evidence(m, before, after);
            }
        }
    }
}

proof fn lemma_absent_marked(
    m: TablesModel,
    asset: Seq<char>,
    stored: Seq<tables::SourceModel>,
    looks: Seq<Look<'_>>,
    n: nat,
)
    ensures
        keeps_evidence(m, scan::absent_marked(m, asset, stored, looks, n).0),
    decreases n,
{
    if n > 0 {
        lemma_absent_marked(m, asset, stored, looks, (n - 1) as nat);
        let (before, changed) = scan::absent_marked(m, asset, stored, looks, (n - 1) as nat);
        if changed is Ok && !scan::among(looks, stored[n - 1].locator) {
            let request = sources::sidecar_request(stored[n - 1]);
            law_unavailable_sources_keep_their_evidence(
                before,
                asset,
                request,
                sources::missing_note(),
            );
            if let Ok((after, _)) = sources::unavailable_outcome(
                before,
                asset,
                request,
                sources::missing_note(),
            ) {
                lemma_keeps_evidence(m, before, after);
            }
        }
    }
}

proof fn lemma_sidecars(
    m: TablesModel,
    asset: Seq<char>,
    changed: bool,
    warnings: nat,
    sidecars: Result<Seq<Look<'_>>, CatalogError>,
)
    ensures
        keeps_evidence(
            m,
            scan::sidecars_refreshed(m, asset, changed, warnings, sidecars).0,
        ),
{
    if let Ok(looks) = sidecars {
        lemma_all_looked(m, asset, looks, looks.len());
        let (seen, tally) = scan::all_looked(m, asset, looks, looks.len());
        if tally is Ok {
            let stored = seen.sources.filter(sources::sidecar_of(asset));
            lemma_absent_marked(seen, asset, stored, looks, stored.len());
            let after = scan::absent_marked(seen, asset, stored, looks, stored.len()).0;
            lemma_keeps_evidence(m, seen, after);
        }
    }
}

/// Whatever a look at an original and its sidecars finds, or fails to find, the evidence
/// that there was is kept as it was.
pub proof fn law_looks_keep_the_evidence(
    m: TablesModel,
    source: store::SourceRequest,
    embedded_changed: bool,
    embedded: Inspected<'_>,
    sidecars: Result<Seq<Look<'_>>, CatalogError>,
)
    ensures
        keeps_evidence(
            m,
            scan::refreshed(m, source, embedded_changed, embedded, sidecars).0,
        ),
{
    if let Some(a) = support::first_where(m.assets, scan::file_at(source.locator)) {
        let asset = m.assets[a].id;
        lemma_looked(m, asset, source, embedded);
        if embedded_changed || !sources::embedded_known(m, asset, source.locator) {
            if let Ok((seen, changed, warning)) = scan::looked(m, asset, source, embedded) {
                let warnings: nat = if warning {
                    1
                } else {
                    0
                };
                lemma_sidecars(seen, asset, changed, warnings, sidecars);
                lemma_keeps_evidence(
                    m,
                    seen,
                    scan::sidecars_refreshed(seen, asset, changed, warnings, sidecars).0,
                );
            }
        } else {
            lemma_sidecars(m, asset, false, 0, sidecars);
        }
    }
}

} // verus!

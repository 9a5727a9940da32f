//! Storing a prepared observation, and having images follow it.
use crate::catalog_images::refresh;
use crate::catalog_images::refresh::{check_usage, enqueue_shared, link, step_refresh};
use crate::catalog_images::register;
use crate::catalog_images::register::is_shared_kind;
use crate::catalog_images::{recorded_revision, require_current};
use crate::catalog_metadata;
use crate::catalog_metadata::identity;
use crate::catalog_metadata::identity::revision_with_provenance;
use crate::catalog_metadata::prepared;
use crate::catalog_metadata::prepared::{Prepared, PreparedModel, PreparedValue, Source};
use crate::catalog_metadata::{advance, rebuild};
use crate::copies::Copied;
use crate::error::CatalogError;
use crate::ordering;
use crate::ordering::pick_ordered;
use crate::outside;
use crate::outside::blake3_digest;
use crate::support;
use crate::support::{append_bytes, byte_len, copy_bytes, copy_option, same};
use crate::tables;
use crate::tables::{
    BlobRow, Detail, FileInstanceRow, ImageSourceRow, ModelRow, ObservationRow, PacketRow,
    SourceRow, Tables, TablesModel, ValueRow,
};
use vstd::prelude::*;
use vstd::utf8::*;

verus! {

/// The most bytes of a source's kind.
pub const KIND_BYTES: usize = 100;

/// The most bytes of a source's locator.
pub const LOCATOR_BYTES: usize = 32768;

/// How many images follow a change of a shared source at once.
pub const FOLLOW_BATCH: usize = 32;

/// A change of an image's metadata.
#[derive(Clone, Debug)]
pub struct Change {
    pub revision: i64,
    pub observation_id: i64,
    pub model_ids: Vec<i64>,
    pub changed: bool,
}

/// What a `Change` stands for.
#[verifier::ext_equal]
pub struct ChangeModel {
    pub revision: i64,
    pub observation_id: i64,
    pub model_ids: Seq<i64>,
    pub changed: bool,
}

impl View for Change {
    type V = ChangeModel;

    open spec fn view(&self) -> ChangeModel {
        ChangeModel {
            revision: self.revision,
            observation_id: self.observation_id,
            model_ids: self.model_ids@,
            changed: self.changed,
        }
    }
}

/// What a `Source` stands for.
#[verifier::ext_equal]
pub struct SourceRequest {
    pub kind: Seq<char>,
    pub locator: Seq<u8>,
    pub display: Seq<char>,
    pub ambiguous: bool,
    pub provenance: Seq<char>,
}

impl View for Source {
    type V = SourceRequest;

    open spec fn view(&self) -> SourceRequest {
        SourceRequest {
            kind: self.kind@,
            locator: self.locator@,
            display: self.display@,
            ambiguous: self.ambiguous,
            provenance: self.provenance@,
        }
    }
}

/// What a source that changed while it was read is marked with.
pub open spec fn changed_note() -> Seq<char> {
    "source changed during inspection; observation retained for review"@
}

impl SourceRequest {
    /// How a source is associated.
    pub open spec fn association(self) -> Seq<char> {
        if self.ambiguous {
            "ambiguous"@
        } else {
            "confirmed"@
        }
    }

    /// The locator that a source is stored under: a copy's own catalog source is
    /// kept apart from those of the other images of its physical file.
    pub open spec fn scoped_locator(self, image: Seq<char>, asset: Seq<char>) -> Seq<u8> {
        if asset != image && self.kind == "catalog"@ {
            encode_utf8("image:"@) + encode_utf8(image) + seq![0u8] + self.locator
        } else {
            self.locator
        }
    }
}

/// The tables with a source in place, and its number.
pub open spec fn source_put(
    m: TablesModel,
    asset: Seq<char>,
    source: SourceRequest,
    locator: Seq<u8>,
) -> Result<(TablesModel, i64), CatalogError> {
    match m.source_named(asset, source.kind, locator) {
        Some(s) => Ok(
            (
                TablesModel {
                    sources: m.sources.update(
                        s,
                        tables::SourceModel {
                            display: source.display,
                            association: source.association(),
                            availability: "available"@,
                            ..m.sources[s]
                        },
                    ),
                    ..m
                },
                m.sources[s].id,
            ),
        ),
        None => if m.source_high == i64::MAX {
            Err(CatalogError::Exhausted)
        } else {
            let id = (m.source_high + 1) as i64;
            Ok(
                (
                    TablesModel {
                        sources: m.sources.push(
                            tables::SourceModel {
                                id,
                                asset_id: asset,
                                kind: source.kind,
                                locator,
                                display: source.display,
                                association: source.association(),
                                availability: "available"@,
                                current_observation: None,
                            },
                        ),
                        source_high: id,
                        ..m
                    },
                    id,
                ),
            )
        },
    }
}

fn put_source(db: &mut Tables, asset: &str, source: &Source, locator: &[u8]) -> (r: Result<
    i64,
    CatalogError,
>)
    ensures
        match source_put(old(db)@, asset@, source@, locator@) {
            Ok((m, sid)) => r == Ok::<i64, CatalogError>(sid) && final(db)@ == m,
            Err(e) => r == Err::<i64, CatalogError>(e),
        },
{
    let association: &str = if source.ambiguous {
        "ambiguous"
    } else {
        "confirmed"
    };
    match db.find_source_named(asset, source.kind.as_str(), locator) {
        Some(s) => {
            assert(db@.sources[s as int] == db.sources@[s as int]@);
            db.sources[s].display = source.display.clone();
            db.sources[s].association = association.to_owned();
            db.sources[s].availability = "available".to_owned();
            assert(db@ =~= source_put(old(db)@, asset@, source@, locator@)->Ok_0.0);
            Ok(db.sources[s].id)
        },
        None => {
            if db.source_high == i64::MAX {
                return Err(CatalogError::Exhausted);
            }
            db.source_high = db.source_high + 1;
            db.sources.push(
                SourceRow {
                    id: db.source_high,
                    asset_id: asset.to_owned(),
                    kind: source.kind.clone(),
                    locator: copy_bytes(locator),
                    display: source.display.clone(),
                    association: association.to_owned(),
                    availability: "available".to_owned(),
                    current_observation: None,
                },
            );
            assert(db@ =~= source_put(old(db)@, asset@, source@, locator@)->Ok_0.0);
            Ok(db.source_high)
        },
    }
}

/// The same file was observed: its bytes, its source's provenance and what they
/// were interpreted as are those of a stored observation. Only where the file is
/// and when it was changed may differ: under the stored observation's provenance
/// what was prepared has the stored revision.
pub open spec fn relocates(
    o: tables::ObservationModel,
    p: prepared::PreparedObservation,
) -> Result<bool, CatalogError> {
    if o.file_length != p.file_length || o.file_blake3 != p.file_blake3 || o.source_provenance
        != p.source_provenance {
        Ok(false)
    } else {
        match identity::revision_under(
            p,
            o.provenance,
            (identity::FileState {
                blake3: o.file_blake3,
                length: o.file_length,
                modified: o.modified,
            }),
        ) {
            None => Err(CatalogError::DocumentFailed),
            Some(revision) => Ok(revision == o.revision),
        }
    }
}

fn is_relocated(row: &ObservationRow, p: &Prepared) -> (r: Result<bool, CatalogError>)
    ensures
        r == relocates(row@, p@),
{
    if row.file_length != p.file_length || !same(
        row.file_blake3.as_str(),
        p.file_blake3.as_str(),
    ) || !same(row.source_provenance.as_str(), p.source_provenance.as_str()) {
        return Ok(false);
    }
    match revision_with_provenance(
        p,
        row.provenance.as_str(),
        row.file_blake3.as_str(),
        row.file_length,
        row.modified,
    ) {
        None => Err(CatalogError::DocumentFailed),
        Some(revision) => Ok(same(revision.as_str(), row.revision.as_str())),
    }
}

/// The tables with a file noted in which an unchanged observation was found.
pub open spec fn instance_noted(
    m: TablesModel,
    asset: Seq<char>,
    sid: i64,
    provenance: Seq<char>,
) -> Result<TablesModel, CatalogError> {
    let hash = outside::blake3_hex(encode_utf8(provenance));
    if m.instance_at(sid, hash) is Some {
        Ok(m)
    } else if m.instance_high == i64::MAX {
        Err(CatalogError::Exhausted)
    } else {
        let id = (m.instance_high + 1) as i64;
        Ok(
            TablesModel {
                file_instances: m.file_instances.push(
                    tables::FileInstanceModel {
                        id,
                        asset_id: asset,
                        source_id: sid,
                        evidence_hash: hash,
                        provenance,
                        observed_at: m.clock,
                    },
                ),
                instance_high: id,
                ..m
            },
        )
    }
}

fn note_instance(db: &mut Tables, asset: &str, sid: i64, provenance: &str) -> (r: Result<
    (),
    CatalogError,
>)
    ensures
        match instance_noted(old(db)@, asset@, sid, provenance@) {
            Ok(m) => r is Ok && final(db)@ == m,
            Err(e) => r == Err::<(), CatalogError>(e),
        },
{
    let hash: String = blake3_digest(provenance.as_bytes());
    if db.find_instance_at(sid, hash.as_str()).is_some() {
        return Ok(());
    }
    if db.instance_high == i64::MAX {
        return Err(CatalogError::Exhausted);
    }
    db.instance_high = db.instance_high + 1;
    db.file_instances.push(
        FileInstanceRow {
            id: db.instance_high,
            asset_id: asset.to_owned(),
            source_id: sid,
            evidence_hash: hash,
            provenance: provenance.to_owned(),
            observed_at: db.clock.clone(),
        },
    );
    assert(db@ =~= instance_noted(old(db)@, asset@, sid, provenance@)->Ok_0);
    Ok(())
}

/// The tables with blobs among them, as far as they were missing.
pub open spec fn blobs_added(m: TablesModel, blobs: Seq<tables::BlobModel>, n: nat) -> TablesModel
    decreases n,
{
    if n == 0 {
        m
    } else {
        let before = blobs_added(m, blobs, (n - 1) as nat);
        if before.blob_at(blobs[n - 1].hash) is Some {
            before
        } else {
            TablesModel { blobs: before.blobs.push(blobs[n - 1]), ..before }
        }
    }
}

fn add_blobs(db: &mut Tables, blobs: &Vec<BlobRow>)
    ensures
        final(db)@ == blobs_added(old(db)@, support::models(blobs@), blobs@.len()),
{
    let ghost m = db@;
    let ghost all = support::models(blobs@);
    let mut n: usize = 0;
    while n < blobs.len()
        invariant
            n <= blobs@.len(),
            all == support::models(blobs@),
            db@ == blobs_added(m, all, n as nat),
        decreases blobs@.len() - n,
    {
        let ghost before = db@;
        assert(all[n as int] == blobs@[n as int]@);
        if db.find_blob_at(blobs[n].hash.as_str()).is_none() {
            db.blobs.push(blobs[n].copied());
            assert(db@ =~= TablesModel { blobs: before.blobs.push(all[n as int]), ..before });
        }
        n += 1;
    }
}

/// The tables with the first packets of an observation.
pub open spec fn packets_added(
    m: TablesModel,
    oid: i64,
    packets: Seq<prepared::PreparedPacketModel>,
) -> TablesModel {
    TablesModel {
        packets: m.packets + Seq::new(
            packets.len(),
            |i: int|
                tables::PacketModel {
                    observation_id: oid,
                    ordinal: i as i64,
                    blob_hash: packets[i].hash,
                    descriptor: packets[i].descriptor,
                },
        ),
        ..m
    }
}

fn add_packets(db: &mut Tables, oid: i64, p: &Prepared)
    requires
        p.packets@.len() <= i64::MAX,
    ensures
        final(db)@ == packets_added(old(db)@, oid, p@.packets),
{
    let ghost m = db@;
    let ghost all = p@.packets;
    let mut n: usize = 0;
    assert(packets_added(m, oid, all.take(0)) =~= m);
    while n < p.packets.len()
        invariant
            n <= p.packets@.len() <= i64::MAX,
            all == p@.packets,
            db@ == packets_added(m, oid, all.take(n as int)),
        decreases p.packets@.len() - n,
    {
        assert(all[n as int] == p.packets@[n as int]@);
        let ghost before = db@;
        db.packets.push(
            PacketRow {
                observation_id: oid,
                ordinal: n as i64,
                blob_hash: p.packets[n].hash.clone(),
                descriptor: p.packets[n].descriptor.clone(),
            },
        );
        proof {
            let after = packets_added(m, oid, all.take(n + 1));
            assert(db@.packets =~= before.packets.push(
                tables::PacketModel {
                    observation_id: oid,
                    ordinal: n as i64,
                    blob_hash: all[n as int].hash,
                    descriptor: all[n as int].descriptor,
                },
            ));
            assert(after.packets =~= before.packets.push(after.packets.last()));
            assert(db@ =~= after);
        }
        n += 1;
    }
    assert(all.take(n as int) =~= all);
}

/// The tables with the first values that a model gives.
pub open spec fn values_added(
    m: TablesModel,
    mid: i64,
    values: Seq<prepared::PreparedValueModel>,
    n: nat,
) -> Result<TablesModel, CatalogError>
    decreases n,
{
    if n == 0 {
        Ok(m)
    } else {
        match values_added(m, mid, values, (n - 1) as nat) {
            Err(e) => Err(e),
            Ok(before) => match values[n - 1].semantic_hash {
                None => Err(CatalogError::SemanticsMissing),
                Some(hash) => Ok(
                    TablesModel {
                        values: before.values.push(
                            tables::ValueModel {
                                model_id: mid,
                                field: values[n - 1].field,
                                value: values[n - 1].value,
                                semantic_hash: hash,
                            },
                        ),
                        ..before
                    },
                ),
            },
        }
    }
}

proof fn lemma_values_error(
    m: TablesModel,
    mid: i64,
    values: Seq<prepared::PreparedValueModel>,
    n: nat,
)
    requires
        n <= values.len(),
        values_added(m, mid, values, n) is Err,
    ensures
        values_added(m, mid, values, values.len()) == values_added(m, mid, values, n),
    decreases values.len() - n,
{
    if n < values.len() {
        lemma_values_error(m, mid, values, n + 1);
    }
}

fn add_values(db: &mut Tables, mid: i64, values: &Vec<PreparedValue>) -> (r: Result<
    (),
    CatalogError,
>)
    ensures
        match values_added(old(db)@, mid, support::models(values@), values@.len()) {
            Ok(m) => r is Ok && final(db)@ == m,
            Err(e) => r == Err::<(), CatalogError>(e),
        },
{
    let ghost m = db@;
    let ghost all = support::models(values@);
    let mut n: usize = 0;
    while n < values.len()
        invariant
            n <= values@.len(),
            m == old(db)@,
            all == support::models(values@),
            values_added(m, mid, all, n as nat) == Ok::<TablesModel, CatalogError>(db@),
        decreases values@.len() - n,
    {
        let ghost before = db@;
        assert(all[n as int] == values@[n as int]@);
        match &values[n].semantic_hash {
            None => {
                proof {
                    lemma_values_error(m, mid, all, (n + 1) as nat);
                }
                return Err(CatalogError::SemanticsMissing);
            },
            Some(hash) => {
                db.values.push(
                    ValueRow {
                        model_id: mid,
                        field: values[n].field.clone(),
                        value: values[n].value.clone(),
                        semantic_hash: hash.clone(),
                    },
                );
                assert(db@ =~= values_added(m, mid, all, (n + 1) as nat)->Ok_0);
            },
        }
        n += 1;
    }
    Ok(())
}

/// The tables with the first models of an observation.
pub open spec fn models_added(
    m: TablesModel,
    oid: i64,
    models: Seq<prepared::PreparedModelModel>,
    n: nat,
) -> Result<TablesModel, CatalogError>
    decreases n,
{
    if n == 0 {
        Ok(m)
    } else {
        match models_added(m, oid, models, (n - 1) as nat) {
            Err(e) => Err(e),
            Ok(before) => if before.model_high == i64::MAX {
                Err(CatalogError::Exhausted)
            } else {
                let model = models[n - 1];
                let mid = (before.model_high + 1) as i64;
                values_added(
                    TablesModel {
                        models: before.models.push(
                            tables::InterpretationModel {
                                id: mid,
                                observation_id: oid,
                                ordinal: (n - 1) as i64,
                                blob_hash: model.hash,
                                descriptor: model.descriptor,
                                projection: model.projection,
                                error: model.error,
                            },
                        ),
                        model_high: mid,
                        ..before
                    },
                    mid,
                    model.fields,
                    model.fields.len(),
                )
            },
        }
    }
}

proof fn lemma_models_error(
    m: TablesModel,
    oid: i64,
    models: Seq<prepared::PreparedModelModel>,
    n: nat,
)
    requires
        n <= models.len(),
        models_added(m, oid, models, n) is Err,
    ensures
        models_added(m, oid, models, models.len()) == models_added(m, oid, models, n),
    decreases models.len() - n,
{
    if n < models.len() {
        lemma_models_error(m, oid, models, n + 1);
    }
}

fn add_models(db: &mut Tables, oid: i64, p: &Prepared) -> (r: Result<(), CatalogError>)
    requires
        p.models@.len() <= i64::MAX,
    ensures
        match models_added(old(db)@, oid, p@.models, p@.models.len()) {
            Ok(m) => r is Ok && final(db)@ == m,
            Err(e) => r == Err::<(), CatalogError>(e),
        },
{
    let ghost m = db@;
    let ghost all = p@.models;
    let mut n: usize = 0;
    while n < p.models.len()
        invariant
            n <= p.models@.len() <= i64::MAX,
            m == old(db)@,
            all == p@.models,
            models_added(m, oid, all, n as nat) == Ok::<TablesModel, CatalogError>(db@),
        decreases p.models@.len() - n,
    {
        let ghost before = db@;
        let model: &PreparedModel = &p.models[n];
        assert(all[n as int] == model@);
        if db.model_high == i64::MAX {
            proof {
                lemma_models_error(m, oid, all, (n + 1) as nat);
            }
            return Err(CatalogError::Exhausted);
        }
        db.model_high = db.model_high + 1;
        let mid: i64 = db.model_high;
        db.models.push(
            ModelRow {
                id: mid,
                observation_id: oid,
                ordinal: n as i64,
                blob_hash: model.hash.clone(),
                descriptor: model.descriptor.clone(),
                projection: model.projection.clone(),
                error: copy_option(&model.error),
            },
        );
        proof {
            assert(db@ =~= TablesModel {
                models: before.models.push(
                    tables::InterpretationModel {
                        id: mid,
                        observation_id: oid,
                        ordinal: n as i64,
                        blob_hash: model@.hash,
                        descriptor: model@.descriptor,
                        projection: model@.projection,
                        error: model@.error,
                    },
                ),
                model_high: mid,
                ..before
            });
        }
        match add_values(db, mid, &model.fields) {
            Err(e) => {
                proof {
                    lemma_models_error(m, oid, all, (n + 1) as nat);
                }
                return Err(e);
            },
            Ok(()) => {},
        }
        n += 1;
    }
    Ok(())
}

/// The tables with a new observation of a source, and its number.
pub open spec fn observation_added(m: TablesModel, sid: i64, p: prepared::PreparedObservation) -> Result<
    (TablesModel, i64),
    CatalogError,
> {
    if m.observation_high == i64::MAX || p.packets.len() > i64::MAX || p.models.len() > i64::MAX {
        Err(CatalogError::Exhausted)
    } else {
        let oid = (m.observation_high + 1) as i64;
        let stored = blobs_added(m, p.blobs, p.blobs.len());
        let observed = TablesModel {
            observations: stored.observations.push(
                tables::ObservationModel {
                    id: oid,
                    source_id: sid,
                    revision: p.revision,
                    status: p.status,
                    issues: p.issues,
                    provenance: p.provenance,
                    source_provenance: p.source_provenance,
                    file_length: p.file_length,
                    file_blake3: p.file_blake3,
                    modified: p.modified,
                },
            ),
            observation_high: oid,
            ..stored
        };
        match models_added(
            packets_added(observed, oid, p.packets),
            oid,
            p.models,
            p.models.len(),
        ) {
            Err(e) => Err(e),
            Ok(after) => Ok((after, oid)),
        }
    }
}

proof fn lemma_blobs_frame(m: TablesModel, blobs: Seq<tables::BlobModel>, n: nat)
    ensures
        blobs_added(m, blobs, n) == (TablesModel { blobs: blobs_added(m, blobs, n).blobs, ..m }),
    decreases n,
{
    if n > 0 {
        lemma_blobs_frame(m, blobs, (n - 1) as nat);
    }
}

fn add_observation(db: &mut Tables, sid: i64, p: &Prepared) -> (r: Result<i64, CatalogError>)
    ensures
        match observation_added(old(db)@, sid, p@) {
            Ok((m, oid)) => r == Ok::<i64, CatalogError>(oid) && final(db)@ == m,
            Err(e) => r == Err::<i64, CatalogError>(e),
        },
{
    assert(p@.packets.len() == p.packets@.len());
    assert(p@.models.len() == p.models@.len());
    assert(p@.blobs.len() == p.blobs@.len());
    if db.observation_high == i64::MAX || p.packets.len() as u128 > i64::MAX as u128
        || p.models.len() as u128 > i64::MAX as u128 {
        return Err(CatalogError::Exhausted);
    }
    add_blobs(db, &p.blobs);
    proof {
        lemma_blobs_frame(old(db)@, p@.blobs, p@.blobs.len());
    }
    let ghost stored = db@;
    db.observation_high = db.observation_high + 1;
    let oid: i64 = db.observation_high;
    db.observations.push(
        ObservationRow {
            id: oid,
            source_id: sid,
            revision: p.revision.clone(),
            status: p.status.clone(),
            issues: p.issues.clone(),
            provenance: p.provenance.clone(),
            source_provenance: p.source_provenance.clone(),
            file_length: p.file_length,
            file_blake3: p.file_blake3.clone(),
            modified: p.modified,
        },
    );
    proof {
        let observed = TablesModel {
            observations: stored.observations.push(
                tables::ObservationModel {
                    id: oid,
                    source_id: sid,
                    revision: p@.revision,
                    status: p@.status,
                    issues: p@.issues,
                    provenance: p@.provenance,
                    source_provenance: p@.source_provenance,
                    file_length: p@.file_length,
                    file_blake3: p@.file_blake3,
                    modified: p@.modified,
                },
            ),
            observation_high: oid,
            ..stored
        };
        assert(db@ =~= observed);
    }
    add_packets(db, oid, p);
    match add_models(db, oid, p) {
        Err(e) => Err(e),
        Ok(()) => Ok(oid),
    }
}

/// The observation that what was prepared stands for: one that is stored already,
/// or a new one.
pub open spec fn observed(
    m: TablesModel,
    asset: Seq<char>,
    sid: i64,
    current: Option<i64>,
    p: prepared::PreparedObservation,
) -> Result<(TablesModel, i64), CatalogError> {
    match m.observation_named(sid, p.revision) {
        Some(o) => Ok((m, m.observations[o].id)),
        None => match current {
            Some(c) => match m.observation_at(c) {
                None => Err(CatalogError::ObservationNotFound),
                Some(o) => match relocates(m.observations[o], p) {
                    Err(e) => Err(e),
                    Ok(true) => match instance_noted(m, asset, sid, p.provenance) {
                        Err(e) => Err(e),
                        Ok(after) => Ok((after, c)),
                    },
                    Ok(false) => observation_added(m, sid, p),
                },
            },
            None => observation_added(m, sid, p),
        },
    }
}

/// A document in an option.
pub open spec fn document_of(d: Option<Vec<u8>>) -> Option<Seq<u8>> {
    match d {
        Some(v) => Some(v@),
        None => None,
    }
}

fn observe(
    db: &mut Tables,
    asset: &str,
    sid: i64,
    current: Option<i64>,
    p: &Prepared,
) -> (r: Result<i64, CatalogError>)
    ensures
        match observed(old(db)@, asset@, sid, current, p@) {
            Ok((m, oid)) => r == Ok::<i64, CatalogError>(oid) && final(db)@ == m,
            Err(e) => r == Err::<i64, CatalogError>(e),
        },
{
    if let Some(o) = db.find_observation_named(sid, p.revision.as_str()) {
        assert(db@.observations[o as int] == db.observations@[o as int]@);
        return Ok(db.observations[o].id);
    }
    if let Some(c) = current {
        match db.find_observation_at(c) {
            None => return Err(CatalogError::ObservationNotFound),
            Some(o) => {
                assert(db@.observations[o as int] == db.observations@[o as int]@);
                let unchanged: bool = match is_relocated(&db.observations[o], p) {
                    Err(e) => return Err(e),
                    Ok(unchanged) => unchanged,
                };
                if unchanged {
                    return match note_instance(db, asset, sid, p.provenance.as_str()) {
                        Err(e) => Err(e),
                        Ok(()) => Ok(c),
                    };
                }
            },
        }
    }
    add_observation(db, sid, p)
}

/// The tables with a source's own current observation or availability set.
pub open spec fn source_pointed(m: TablesModel, sid: i64, oid: i64, unstable: bool) -> TablesModel {
    match m.source_at(sid) {
        None => m,
        Some(s) => TablesModel {
            sources: m.sources.update(
                s,
                if unstable {
                    tables::SourceModel { availability: changed_note(), ..m.sources[s] }
                } else {
                    tables::SourceModel { current_observation: Some(oid), ..m.sources[s] }
                },
            ),
            ..m
        },
    }
}

fn point_source(db: &mut Tables, sid: i64, oid: i64, unstable: bool)
    ensures
        final(db)@ == source_pointed(old(db)@, sid, oid, unstable),
{
    if let Some(s) = db.find_source_at(sid) {
        assert(db@.sources[s as int] == db.sources@[s as int]@);
        if unstable {
            db.sources[s].availability =
            "source changed during inspection; observation retained for review".to_owned();
        } else {
            db.sources[s].current_observation = Some(oid);
        }
    }
    assert(db@ =~= source_pointed(old(db)@, sid, oid, unstable));
}

pub open spec fn model_of(oid: i64) -> spec_fn(tables::InterpretationModel) -> bool {
    |r: tables::InterpretationModel| r.observation_id == oid
}

/// The number of a model within its observation.
pub open spec fn model_ordinal() -> spec_fn(tables::InterpretationModel) -> i64 {
    |r: tables::InterpretationModel| r.ordinal
}

/// The rows of the models of an observation, in the order of their numbers.
pub open spec fn model_rows(m: TablesModel, oid: i64) -> Seq<tables::InterpretationModel> {
    ordering::ordered(m.models.filter(model_of(oid)), model_ordinal())
}

/// The models of an observation, in the order of their numbers.
pub open spec fn models_of(m: TablesModel, oid: i64) -> Seq<i64> {
    model_rows(m, oid).map_values(|r: tables::InterpretationModel| r.id)
}

/// The positions of the models of an observation, in the order of their numbers.
pub(crate) fn pick_models(db: &Tables, oid: i64) -> (picks: Vec<usize>)
    ensures
        ordering::picked(db.models@, picks@, model_rows(db@, oid)),
{
    let test = |r: &ModelRow| -> (b: bool)
        ensures b == model_of(oid)(r@)
    {
        r.observation_id == oid
    };
    let number = |r: &ModelRow| -> (n: i64)
        ensures n == model_ordinal()(r@)
    {
        r.ordinal
    };
    pick_ordered(&db.models, test, number, Ghost(model_of(oid)), Ghost(model_ordinal()))
}

/// The models of an observation, in the order of their numbers.
pub fn list_models(db: &Tables, oid: i64) -> (ids: Vec<i64>)
    ensures
        ids@ == models_of(db@, oid),
{
    let picks: Vec<usize> = pick_models(db, oid);
    let mut ids: Vec<i64> = Vec::new();
    let mut i: usize = 0;
    while i < picks.len()
        invariant
            i <= picks@.len(),
            ids@.len() == i,
            ordering::picked(db.models@, picks@, model_rows(db@, oid)),
            forall|j: int| 0 <= j < i ==> #[trigger] ids@[j] == model_rows(db@, oid)[j].id,
        decreases picks@.len() - i,
    {
        let p: usize = picks[i];
        ids.push(db.models[p].id);
        i += 1;
    }
    assert(ids@ =~= models_of(db@, oid));
    ids
}

/// The tables with an image using an observation of a source.
pub open spec fn usage_put(
    m: TablesModel,
    image: Seq<char>,
    sid: i64,
    current: Option<i64>,
    source: SourceRequest,
    availability: Seq<char>,
) -> Result<TablesModel, CatalogError> {
    match m.usage_refusal(image, sid, current) {
        Some(e) => Err(e),
        None => Ok(
            TablesModel {
                image_sources: match m.image_source_at(image, sid) {
                    Some(a) => m.image_sources.update(
                        a,
                        tables::ImageSourceModel {
                            current_observation: current,
                            association: source.association(),
                            availability,
                            ..m.image_sources[a]
                        },
                    ),
                    None => m.image_sources.push(
                        tables::ImageSourceModel {
                            image_id: image,
                            source_id: sid,
                            current_observation: current,
                            follow_file: register::shared_kind(source.kind),
                            logical_locator: source.locator,
                            association: source.association(),
                            availability,
                        },
                    ),
                },
                ..m
            },
        ),
    }
}

fn put_usage(
    db: &mut Tables,
    image: &str,
    sid: i64,
    current: Option<i64>,
    source: &Source,
    availability: &str,
) -> (r: Result<(), CatalogError>)
    ensures
        match usage_put(old(db)@, image@, sid, current, source@, availability@) {
            Ok(m) => r is Ok && final(db)@ == m,
            Err(e) => r == Err::<(), CatalogError>(e),
        },
{
    match check_usage(db, image, sid, current) {
        Err(e) => return Err(e),
        Ok(()) => {},
    }
    let association: &str = if source.ambiguous {
        "ambiguous"
    } else {
        "confirmed"
    };
    match db.find_image_source_at(image, sid) {
        Some(a) => {
            assert(db@.image_sources[a as int] == db.image_sources@[a as int]@);
            db.image_sources[a].current_observation = current;
            db.image_sources[a].association = association.to_owned();
            db.image_sources[a].availability = availability.to_owned();
        },
        None => db.image_sources.push(
            ImageSourceRow {
                image_id: image.to_owned(),
                source_id: sid,
                current_observation: current,
                follow_file: is_shared_kind(source.kind.as_str()),
                logical_locator: copy_bytes(source.locator.as_slice()),
                association: association.to_owned(),
                availability: availability.to_owned(),
            },
        ),
    }
    assert(db@ =~= usage_put(old(db)@, image@, sid, current, source@, availability@)->Ok_0);
    Ok(())
}

/// What storing an observation gives: the tables, the observation and whether the
/// image sees anything else than before.
pub open spec fn store_outcome(
    m: TablesModel,
    image: Seq<char>,
    source: SourceRequest,
    p: prepared::PreparedObservation,
) -> Result<(TablesModel, i64, bool), CatalogError> {
    match m.image_at(image) {
        None => Err(CatalogError::AssetNotFound),
        Some(i) => {
            let asset = m.images[i].asset_id;
            let locator = source.scoped_locator(image, asset);
            if m.asset_at(asset) is None {
                Err(CatalogError::AssetNotFound)
            } else if source.kind.len() == 0 || support::byte_length(source.kind) > KIND_BYTES
                || locator.len() > LOCATOR_BYTES {
                Err(CatalogError::SourceBounds)
            } else {
                let current = match m.source_named(asset, source.kind, locator) {
                    Some(s) => m.sources[s].current_observation,
                    None => None,
                };
                match source_put(m, asset, source, locator) {
                    Err(e) => Err(e),
                    Ok((m1, sid)) => match observed(m1, asset, sid, current, p) {
                        Err(e) => Err(e),
                        Ok((m2, oid)) => store_usage(m2, image, source, p.status, sid, oid),
                    },
                }
            }
        },
    }
}

/// What an image's use of a source becomes once an observation of it is stored.
pub open spec fn store_usage(
    m: TablesModel,
    image: Seq<char>,
    source: SourceRequest,
    status: Seq<char>,
    sid: i64,
    oid: i64,
) -> Result<(TablesModel, i64, bool), CatalogError> {
    let unstable = status == "SourceChanged"@;
    let old = m.image_source_at(image, sid);
    let current = if unstable {
        match old {
            Some(a) => m.image_sources[a].current_observation,
            None => None,
        }
    } else {
        Some(oid)
    };
    let availability = if unstable {
        changed_note()
    } else {
        "available"@
    };
    let changed = match old {
        Some(a) => m.image_sources[a].current_observation != Some(oid)
            || m.image_sources[a].association != source.association()
            || m.image_sources[a].availability != "available"@,
        None => true,
    };
    match source_pointed(m, sid, oid, unstable).linked(image, oid) {
        Err(e) => Err(e),
        Ok(m3) => match usage_put(m3, image, sid, current, source, availability) {
            Err(e) => Err(e),
            Ok(m4) => Ok((m4, oid, changed)),
        },
    }
}

fn find_locator(source: &Source, image: &str, asset: &str) -> (locator: Vec<u8>)
    ensures
        locator@ == source@.scoped_locator(image@, asset@),
{
    if !same(asset, image) && same(source.kind.as_str(), "catalog") {
        let mut locator: Vec<u8> = copy_bytes("image:".as_bytes());
        append_bytes(&mut locator, image.as_bytes());
        locator.push(0);
        append_bytes(&mut locator, source.locator.as_slice());
        assert(locator@ =~= source@.scoped_locator(image@, asset@));
        locator
    } else {
        copy_bytes(source.locator.as_slice())
    }
}

fn record_usage(
    db: &mut Tables,
    image: &str,
    source: &Source,
    status: &str,
    sid: i64,
    oid: i64,
) -> (r: Result<bool, CatalogError>)
    ensures
        match store_usage(old(db)@, image@, source@, status@, sid, oid) {
            Ok((m, _, changed)) => r == Ok::<bool, CatalogError>(changed) && final(db)@ == m,
            Err(e) => r == Err::<bool, CatalogError>(e),
        },
{
    let unstable: bool = same(status, "SourceChanged");
    let association: &str = if source.ambiguous {
        "ambiguous"
    } else {
        "confirmed"
    };
    let mut current: Option<i64> = None;
    let mut changed: bool = true;
    if let Some(a) = db.find_image_source_at(image, sid) {
        assert(db@.image_sources[a as int] == db.image_sources@[a as int]@);
        let row = &db.image_sources[a];
        current = row.current_observation;
        changed = match row.current_observation {
            Some(c) => c != oid,
            None => true,
        } || !same(row.association.as_str(), association) || !same(
            row.availability.as_str(),
            "available",
        );
    }
    point_source(db, sid, oid, unstable);
    match link(db, image, oid) {
        Err(e) => return Err(e),
        Ok(()) => {},
    }
    let stored: Result<(), CatalogError> = if unstable {
        put_usage(
            db,
            image,
            sid,
            current,
            source,
            "source changed during inspection; observation retained for review",
        )
    } else {
        put_usage(db, image, sid, Some(oid), source, "available")
    };
    match stored {
        Err(e) => Err(e),
        Ok(()) => Ok(changed),
    }
}

/// Stores an observation of a source for an image. Where this fails, what it has
/// changed is to be thrown away.
pub(crate) fn store(
    db: &mut Tables,
    image: &str,
    source: &Source,
    p: &Prepared,
) -> (r: Result<(i64, bool), CatalogError>)
    ensures
        match store_outcome(old(db)@, image@, source@, p@) {
            Ok((m, oid, changed)) => r == Ok::<(i64, bool), CatalogError>((oid, changed))
                && final(db)@ == m,
            Err(e) => r == Err::<(i64, bool), CatalogError>(e),
        },
{
    let i: usize = match db.find_image_at(image) {
        None => return Err(CatalogError::AssetNotFound),
        Some(i) => i,
    };
    assert(db@.images[i as int] == db.images@[i as int]@);
    let asset: String = db.images[i].asset_id.clone();
    if db.find_asset_at(asset.as_str()).is_none() {
        return Err(CatalogError::AssetNotFound);
    }
    let locator: Vec<u8> = find_locator(source, image, asset.as_str());
    if source.kind.as_str().is_empty() || byte_len(source.kind.as_str()) > KIND_BYTES
        || locator.len() > LOCATOR_BYTES {
        return Err(CatalogError::SourceBounds);
    }
    let current: Option<i64> = match db.find_source_named(
        asset.as_str(),
        source.kind.as_str(),
        locator.as_slice(),
    ) {
        Some(s) => {
            assert(db@.sources[s as int] == db.sources@[s as int]@);
            db.sources[s].current_observation
        },
        None => None,
    };
    let sid: i64 = match put_source(db, asset.as_str(), source, locator.as_slice()) {
        Err(e) => return Err(e),
        Ok(sid) => sid,
    };
    let oid: i64 = match observe(db, asset.as_str(), sid, current, p) {
        Err(e) => return Err(e),
        Ok(oid) => oid,
    };
    match record_usage(db, image, source, p.status.as_str(), sid, oid) {
        Err(e) => Err(e),
        Ok(changed) => Ok((oid, changed)),
    }
}

/// What retaining an observation gives. An observation of a shared source reaches
/// the other images of the physical file as well, some of them at once.
pub open spec fn retain_outcome(
    m: TablesModel,
    image: Seq<char>,
    source: SourceRequest,
    p: prepared::PreparedObservation,
    shared: bool,
) -> Result<(TablesModel, ChangeModel), CatalogError> {
    match m.current_refusal(image) {
        Some(e) if !shared => Err(e),
        _ => match store_outcome(m, image, source, p) {
            Err(e) => Err(e),
            Ok((stored, oid, changed)) => {
                let ids = models_of(stored, oid);
                if !changed {
                    Ok(
                        (
                            stored,
                            ChangeModel {
                                revision: stored.revision_of(image),
                                observation_id: oid,
                                model_ids: ids,
                                changed,
                            },
                        ),
                    )
                } else {
                    match catalog_metadata::advance_outcome(
                        stored.rebuilt(image),
                        image,
                        "observe"@,
                        tables::DetailModel::Observed { observation_id: oid },
                        true,
                    ) {
                        Err(e) => Err(e),
                        Ok((advanced, revision)) => {
                            let change = ChangeModel {
                                revision,
                                observation_id: oid,
                                model_ids: ids,
                                changed,
                            };
                            if !shared {
                                Ok((advanced, change))
                            } else {
                                match shared_step(
                                    refresh::enqueue_shared_outcome(advanced, image, oid),
                                ) {
                                    Err(e) => Err(e),
                                    Ok(after) => Ok((after, change)),
                                }
                            }
                        },
                    }
                }
            },
        },
    }
}

/// The tables after some images have followed a shared source.
pub open spec fn shared_step(queued: Result<TablesModel, CatalogError>) -> Result<
    TablesModel,
    CatalogError,
> {
    match queued {
        Err(e) => Err(e),
        Ok(m) => match m.refreshed(FOLLOW_BATCH as nat) {
            Err(e) => Err(e),
            Ok((after, _)) => Ok(after),
        },
    }
}

/// Retains a prepared observation. Where this fails, what it has changed is to be
/// thrown away.
pub fn retain_prepared(
    db: &mut Tables,
    image: &str,
    source: &Source,
    p: &Prepared,
    shared: bool,
) -> (r: Result<Change, CatalogError>)
    ensures
        match retain_outcome(old(db)@, image@, source@, p@, shared) {
            Ok((m, change)) => r matches Ok(c) && c@ == change && final(db)@ == m,
            Err(e) => r == Err::<Change, CatalogError>(e),
        },
{
    if !shared {
        match require_current(db, image) {
            Err(e) => return Err(e),
            Ok(()) => {},
        }
    }
    let (oid, changed) = match store(db, image, source, p) {
        Err(e) => return Err(e),
        Ok(stored) => stored,
    };
    let model_ids: Vec<i64> = list_models(db, oid);
    if !changed {
        let revision: i64 = recorded_revision(db, image);
        return Ok(Change { revision, observation_id: oid, model_ids, changed });
    }
    rebuild(db, image);
    let revision: i64 = match advance(
        db,
        image,
        "observe",
        Detail::Observed { observation_id: oid },
        true,
    ) {
        Err(e) => return Err(e),
        Ok(revision) => revision,
    };
    if shared {
        match enqueue_shared(db, image, oid) {
            Err(e) => return Err(e),
            Ok(()) => {},
        }
        match step_refresh(db, FOLLOW_BATCH) {
            Err(e) => return Err(e),
            Ok(_) => {},
        }
    }
    Ok(Change { revision, observation_id: oid, model_ids, changed })
}

} // verus!

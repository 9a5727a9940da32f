//! What callers see of an image's metadata, its history and its packets, and how
//! they settle conflicts.
use crate::catalog::Catalog;
use crate::catalog_images;
use crate::catalog_images::{
    id, recorded_revision, require_current, VariantKey,
};
use crate::catalog_metadata;
use crate::catalog_metadata::prepared;
use crate::catalog_metadata::prepared::{Inspection, Prepared, Source, MAX_PACKET_BYTES};
use crate::catalog_metadata::store;
use crate::catalog_metadata::store::{pick_models, retain_prepared, Change};
use crate::catalog_metadata::{advance, candidates, rebuild, Candidate};
use crate::catalog_images::register::is_shared_kind;
use crate::copies::Copied;
use crate::error::CatalogError;
use crate::lookups;
use crate::ordering;
use crate::ordering::{page_rows, pick_ordered};
use crate::outside;
use crate::outside::{blake3_digest, zlib_decompress};
use crate::support;
use crate::support::{byte_len, copy_option, find, same, same_option};
use crate::tables;
use crate::tables::{
    ChoiceRow, Detail, EffectiveRow, FileInstanceRow, HistoryRow, ImageSourceRow, ObservationRow,
    PacketRow,
    Tables, TablesModel,
};
use vstd::prelude::*;

verus! {

/// How many bytes a retained stream may be longer than the longest packet.
pub const STREAM_MARGIN: usize = 65536;

/// The most rows on a page of metadata history.
pub const HISTORY_PAGE_LIMIT: usize = 100;

/// The most rows on a page of file instances.
pub const INSTANCE_PAGE_LIMIT: usize = 1000;

/// The most bytes of a fingerprint.
pub const FINGERPRINT_BYTES: usize = 64;

/// The most bytes of a physical file's state.
pub const STATE_BYTES: usize = 7;

/// What an image sees of a source.
pub struct SourceState {
    pub id: i64,
    pub kind: String,
    pub display: String,
    pub association: String,
    pub availability: String,
    pub observation_id: Option<i64>,
    pub status: Option<String>,
    pub issues: Option<String>,
}

/// What a `SourceState` stands for.
#[verifier::ext_equal]
pub struct SourceStateModel {
    pub id: i64,
    pub kind: Seq<char>,
    pub display: Seq<char>,
    pub association: Seq<char>,
    pub availability: Seq<char>,
    pub observation_id: Option<i64>,
    pub status: Option<Seq<char>>,
    pub issues: Option<Seq<char>>,
}

impl View for SourceState {
    type V = SourceStateModel;

    open spec fn view(&self) -> SourceStateModel {
        SourceStateModel {
            id: self.id,
            kind: self.kind@,
            display: self.display@,
            association: self.association@,
            availability: self.availability@,
            observation_id: self.observation_id,
            status: support::text_of(self.status),
            issues: support::text_of(self.issues),
        }
    }
}

/// An interpretation of an observation.
pub struct ModelSummary {
    pub id: i64,
    pub ordinal: i64,
    pub blob_hash: String,
    pub descriptor: String,
    pub projection: String,
    pub error: Option<String>,
}

/// What a `ModelSummary` stands for.
#[verifier::ext_equal]
pub struct ModelSummaryModel {
    pub id: i64,
    pub ordinal: i64,
    pub blob_hash: Seq<char>,
    pub descriptor: Seq<char>,
    pub projection: Seq<char>,
    pub error: Option<Seq<char>>,
}

impl View for ModelSummary {
    type V = ModelSummaryModel;

    open spec fn view(&self) -> ModelSummaryModel {
        ModelSummaryModel {
            id: self.id,
            ordinal: self.ordinal,
            blob_hash: self.blob_hash@,
            descriptor: self.descriptor@,
            projection: self.projection@,
            error: support::text_of(self.error),
        }
    }
}

/// A retained packet.
pub struct PacketEvidence {
    pub ordinal: i64,
    pub descriptor: String,
    pub bytes: Vec<u8>,
    pub blake3: String,
}

/// What a `PacketEvidence` stands for.
#[verifier::ext_equal]
pub struct PacketEvidenceModel {
    pub ordinal: i64,
    pub descriptor: Seq<char>,
    pub bytes: Seq<u8>,
    pub blake3: Seq<char>,
}

impl View for PacketEvidence {
    type V = PacketEvidenceModel;

    open spec fn view(&self) -> PacketEvidenceModel {
        PacketEvidenceModel {
            ordinal: self.ordinal,
            descriptor: self.descriptor@,
            bytes: self.bytes@,
            blake3: self.blake3@,
        }
    }
}

/// Everything whose change makes a rendering of a physical file stale.
pub struct RenderIdentity {
    pub asset_id: String,
    pub generation: i64,
    pub fingerprint: Option<String>,
    pub state: String,
    pub metadata_revision: i64,
}

/// What a `RenderIdentity` stands for.
#[verifier::ext_equal]
pub struct RenderIdentityModel {
    pub asset_id: Seq<char>,
    pub generation: i64,
    pub fingerprint: Option<Seq<char>>,
    pub state: Seq<char>,
    pub metadata_revision: i64,
}

impl View for RenderIdentity {
    type V = RenderIdentityModel;

    open spec fn view(&self) -> RenderIdentityModel {
        RenderIdentityModel {
            asset_id: self.asset_id@,
            generation: self.generation,
            fingerprint: support::text_of(self.fingerprint),
            state: self.state@,
            metadata_revision: self.metadata_revision,
        }
    }
}

/// A file in which an unchanged observation was found again.
pub struct FileInstance {
    pub id: i64,
    pub source_id: i64,
    pub provenance: String,
    pub observed_at: String,
}

/// What a `FileInstance` stands for.
#[verifier::ext_equal]
pub struct InstanceModel {
    pub id: i64,
    pub source_id: i64,
    pub provenance: Seq<char>,
    pub observed_at: Seq<char>,
}

impl View for FileInstance {
    type V = InstanceModel;

    open spec fn view(&self) -> InstanceModel {
        InstanceModel {
            id: self.id,
            source_id: self.source_id,
            provenance: self.provenance@,
            observed_at: self.observed_at@,
        }
    }
}

/// A change in an image's metadata history.
pub struct Decision {
    pub id: i64,
    pub revision: i64,
    pub action: String,
    pub detail: Detail,
    pub created_at: String,
}

/// What a `Decision` stands for.
#[verifier::ext_equal]
pub struct DecisionModel {
    pub id: i64,
    pub revision: i64,
    pub action: Seq<char>,
    pub detail: tables::DetailModel,
    pub created_at: Seq<char>,
}

impl View for Decision {
    type V = DecisionModel;

    open spec fn view(&self) -> DecisionModel {
        DecisionModel {
            id: self.id,
            revision: self.revision,
            action: self.action@,
            detail: self.detail@,
            created_at: self.created_at@,
        }
    }
}

/// A field of an image's metadata with everything that is said of it.
pub struct Field {
    pub name: String,
    pub value: Option<String>,
    pub conflicted: bool,
    pub selected_model: Option<i64>,
    pub candidates: Vec<Candidate>,
}

/// What a `Field` stands for.
#[verifier::ext_equal]
pub struct FieldModel {
    pub name: Seq<char>,
    pub value: Option<Seq<char>>,
    pub conflicted: bool,
    pub selected_model: Option<i64>,
    pub candidates: Seq<catalog_metadata::CandidateModel>,
}

impl View for Field {
    type V = FieldModel;

    open spec fn view(&self) -> FieldModel {
        FieldModel {
            name: self.name@,
            value: support::text_of(self.value),
            conflicted: self.conflicted,
            selected_model: self.selected_model,
            candidates: support::models(self.candidates@),
        }
    }
}

/// An image's metadata.
pub struct MetadataView {
    pub asset_id: String,
    pub revision: i64,
    pub sources: Vec<SourceState>,
    pub fields: Vec<Field>,
}

/// An observation in an image's history.
pub struct Observation {
    pub id: i64,
    pub source_id: i64,
    pub revision: String,
    pub status: String,
    pub issues: String,
    pub provenance: String,
    pub current: bool,
    pub models: Vec<ModelSummary>,
}

/// What an `Observation` stands for.
#[verifier::ext_equal]
pub struct ObservationView {
    pub id: i64,
    pub source_id: i64,
    pub revision: Seq<char>,
    pub status: Seq<char>,
    pub issues: Seq<char>,
    pub provenance: Seq<char>,
    pub current: bool,
    pub models: Seq<ModelSummaryModel>,
}

impl View for Observation {
    type V = ObservationView;

    open spec fn view(&self) -> ObservationView {
        ObservationView {
            id: self.id,
            source_id: self.source_id,
            revision: self.revision@,
            status: self.status@,
            issues: self.issues@,
            provenance: self.provenance@,
            current: self.current,
            models: support::models(self.models@),
        }
    }
}

/// The bytes that are retained under a digest. Nothing is decoded that claims to
/// be too large, and nothing is given out that does not match its digest.
pub open spec fn blob_bytes(m: TablesModel, hash: Seq<char>) -> Result<Seq<u8>, CatalogError> {
    match m.blob_at(hash) {
        None => Err(CatalogError::BlobMissing),
        Some(b) => {
            let row = m.blobs[b];
            if row.raw_length < 0 || row.raw_length > MAX_PACKET_BYTES {
                Err(CatalogError::BlobSize)
            } else if row.compressed.len() > MAX_PACKET_BYTES + STREAM_MARGIN {
                Err(CatalogError::StreamSize)
            } else {
                match outside::zlib_decoded(row.compressed, (row.raw_length + 1) as nat) {
                    None => Err(CatalogError::StreamDamaged),
                    Some((bytes, _)) => if bytes.len() == row.raw_length && outside::blake3_hex(
                        bytes,
                    ) == hash {
                        Ok(bytes)
                    } else {
                        Err(CatalogError::BlobChecksum)
                    },
                }
            }
        },
    }
}

/// The bytes that are retained under a digest.
pub fn read_blob(db: &Tables, hash: &str) -> (r: Result<Vec<u8>, CatalogError>)
    ensures
        match blob_bytes(db@, hash@) {
            Ok(bytes) => r matches Ok(v) && v@ == bytes,
            Err(e) => r == Err::<Vec<u8>, CatalogError>(e),
        },
{
    let b: usize = match db.find_blob_at(hash) {
        None => return Err(CatalogError::BlobMissing),
        Some(b) => b,
    };
    let row = &db.blobs[b];
    assert(db@.blobs[b as int] == row@);
    if row.raw_length < 0 || row.raw_length > MAX_PACKET_BYTES as i64 {
        return Err(CatalogError::BlobSize);
    }
    if row.compressed.len() > MAX_PACKET_BYTES + STREAM_MARGIN {
        return Err(CatalogError::StreamSize);
    }
    match zlib_decompress(row.compressed.as_slice(), row.raw_length as u64 + 1) {
        None => Err(CatalogError::StreamDamaged),
        Some((bytes, _)) => {
            if bytes.len() as u64 == row.raw_length as u64 && same(
                blake3_digest(bytes.as_slice()).as_str(),
                hash,
            ) {
                Ok(bytes)
            } else {
                Err(CatalogError::BlobChecksum)
            }
        },
    }
}

/// Where file instances come on the pages of a physical file.
pub open spec fn instance_key(asset: Seq<char>) -> spec_fn(tables::FileInstanceModel) -> Option<
    (i64, i64),
> {
    |r: tables::FileInstanceModel|
        if r.asset_id == asset {
            Some((r.id, 0i64))
        } else {
            None
        }
}

/// These are the file instances that come next after a number.
pub open spec fn is_instance_page(
    m: TablesModel,
    asset: Seq<char>,
    after: i64,
    limit: nat,
    rows: Seq<FileInstance>,
) -> bool {
    exists|picks: Seq<usize>|
        {
            &&& #[trigger] ordering::is_page::<(i64, i64)>(
                m.file_instances.map_values(instance_key(asset)),
                Some((after, 0i64)),
                Some(limit),
                picks,
            )
            &&& rows.len() == picks.len()
            &&& forall|i: int|
                0 <= i < rows.len() ==> (#[trigger] rows[i])@ == InstanceModel {
                    id: m.file_instances[picks[i] as int].id,
                    source_id: m.file_instances[picks[i] as int].source_id,
                    provenance: m.file_instances[picks[i] as int].provenance,
                    observed_at: m.file_instances[picks[i] as int].observed_at,
                }
        }
}

impl TablesModel {
    /// An image is there, with its physical file.
    pub open spec fn is_stored(self, image: Seq<char>) -> bool {
        self.image_at(image) matches Some(i) && self.asset_at(self.images[i].asset_id) is Some
    }

    /// The render identity of a physical file.
    pub open spec fn render_identity_of(self, asset: Seq<char>) -> Result<
        RenderIdentityModel,
        CatalogError,
    > {
        match self.asset_at(asset) {
            None => Err(CatalogError::AssetNotFound),
            Some(a) => {
                let row = self.assets[a];
                if (row.fingerprint matches Some(f) && support::byte_length(f) > FINGERPRINT_BYTES)
                    || support::byte_length(row.state) > STATE_BYTES {
                    Err(CatalogError::RowBounds)
                } else {
                    Ok(
                        RenderIdentityModel {
                            asset_id: asset,
                            generation: row.render_generation,
                            fingerprint: row.fingerprint,
                            state: row.state,
                            metadata_revision: self.revision_of(asset),
                        },
                    )
                }
            },
        }
    }
}

/// A rendering made under one identity still shows what the other one stands for.
/// Metadata revisions also count changes that leave pixels as they are, so they
/// are no part of this.
pub open spec fn renders_same(a: RenderIdentityModel, b: RenderIdentityModel) -> bool {
    a.asset_id == b.asset_id && a.generation == b.generation && a.fingerprint == b.fingerprint
        && a.state == b.state
}

pub(crate) fn is_stored(db: &Tables, image: &str) -> (r: bool)
    ensures
        r == db@.is_stored(image@),
{
    match db.find_image_at(image) {
        None => false,
        Some(i) => {
            assert(db@.images[i as int] == db.images@[i as int]@);
            db.find_asset_at(db.images[i].asset_id.as_str()).is_some()
        },
    }
}

impl Catalog {
    /// A page of the files in which unchanged observations of a physical file's
    /// sources were found again.
    pub fn metadata_file_instances(&self, asset: &str, after: i64, limit: usize) -> (r: Result<
        Vec<FileInstance>,
        CatalogError,
    >)
        ensures
            match r {
                Err(e) => if limit == 0 || limit > INSTANCE_PAGE_LIMIT {
                    e == CatalogError::PageBounds
                } else {
                    !self.tables@.is_stored(asset@) && e == CatalogError::AssetNotFound
                },
                Ok(rows) => 0 < limit <= INSTANCE_PAGE_LIMIT && self.tables@.is_stored(asset@)
                    && is_instance_page(self.tables@, asset@, after, limit as nat, rows@),
            },
    {
        if limit == 0 || limit > INSTANCE_PAGE_LIMIT {
            return Err(CatalogError::PageBounds);
        }
        let db = &self.tables;
        if !is_stored(db, asset) {
            return Err(CatalogError::AssetNotFound);
        }
        let key = |r: &FileInstanceRow| -> (k: Option<(i64, i64)>)
            ensures ordering::key_of(k) == instance_key(asset@)(r@)
        {
            if same(r.asset_id.as_str(), asset) {
                Some((r.id, 0))
            } else {
                None
            }
        };
        let picks: Vec<usize> = page_rows(
            &db.file_instances,
            key,
            Ghost(instance_key(asset@)),
            &Some((after, 0)),
            Some(limit),
        );
        let mut rows: Vec<FileInstance> = Vec::new();
        let mut n: usize = 0;
        while n < picks.len()
            invariant
                n <= picks@.len(),
                rows@.len() == n,
                ordering::is_page::<(i64, i64)>(
                    db@.file_instances.map_values(instance_key(asset@)),
                    Some((after, 0i64)),
                    Some(limit as nat),
                    picks@,
                ),
                forall|j: int|
                    0 <= j < n ==> (#[trigger] rows@[j])@ == (InstanceModel {
                        id: db@.file_instances[picks@[j] as int].id,
                        source_id: db@.file_instances[picks@[j] as int].source_id,
                        provenance: db@.file_instances[picks@[j] as int].provenance,
                        observed_at: db@.file_instances[picks@[j] as int].observed_at,
                    }),
            decreases picks@.len() - n,
        {
            let p: usize = picks[n];
            assert(db@.file_instances[p as int] == db.file_instances@[p as int]@);
            let row = &db.file_instances[p];
            rows.push(
                FileInstance {
                    id: row.id,
                    source_id: row.source_id,
                    provenance: row.provenance.clone(),
                    observed_at: row.observed_at.clone(),
                },
            );
            n += 1;
        }
        Ok(rows)
    }

    /// The render identity of a physical file.
    pub fn render_identity(&self, asset: &str) -> (r: Result<RenderIdentity, CatalogError>)
        ensures
            match self.tables@.render_identity_of(asset@) {
                Ok(identity) => r matches Ok(found) && found@ == identity,
                Err(e) => r == Err::<RenderIdentity, CatalogError>(e),
            },
    {
        let db = &self.tables;
        let a: usize = match db.find_asset_at(asset) {
            None => return Err(CatalogError::AssetNotFound),
            Some(a) => a,
        };
        let row = &db.assets[a];
        assert(db@.assets[a as int] == row@);
        if let Some(f) = &row.fingerprint {
            if byte_len(f.as_str()) > FINGERPRINT_BYTES {
                return Err(CatalogError::RowBounds);
            }
        }
        if byte_len(row.state.as_str()) > STATE_BYTES {
            return Err(CatalogError::RowBounds);
        }
        Ok(
            RenderIdentity {
                asset_id: asset.to_owned(),
                generation: row.render_generation,
                fingerprint: copy_option(&row.fingerprint),
                state: row.state.clone(),
                metadata_revision: recorded_revision(db, asset),
            },
        )
    }

    /// Does something while what renderings of a physical file show is as
    /// expected, and nothing where it is not.
    pub fn with_render_identity<T, F: FnOnce() -> Result<T, CatalogError>>(
        &self,
        expected: &RenderIdentity,
        attach: F,
    ) -> (r: Result<Option<T>, CatalogError>)
        requires
            attach.requires(()),
        ensures
            match self.tables@.render_identity_of(expected.asset_id@) {
                Err(CatalogError::RowBounds) => r == Err::<Option<T>, CatalogError>(
                    CatalogError::RowBounds,
                ),
                Ok(found) if renders_same(found, expected@) => exists|done: Result<T, CatalogError>|
                    #[trigger] attach.ensures((), done) && r == match done {
                        Ok(t) => Ok::<Option<T>, CatalogError>(Some(t)),
                        Err(e) => Err::<Option<T>, CatalogError>(e),
                    },
                _ => r == Ok::<Option<T>, CatalogError>(None),
            },
    {
        match self.render_identity(expected.asset_id.as_str()) {
            Err(CatalogError::RowBounds) => Err(CatalogError::RowBounds),
            Err(_) => Ok(None),
            Ok(found) => {
                if found.generation == expected.generation && same_option(
                    &found.fingerprint,
                    &expected.fingerprint,
                ) && same(found.state.as_str(), expected.state.as_str()) {
                    match attach() {
                        Ok(t) => Ok(Some(t)),
                        Err(e) => Err(e),
                    }
                } else {
                    Ok(None)
                }
            },
        }
    }

    /// Stores an observation of an image's source, wholly or not at all.
    pub fn retain_image_metadata_id(
        &mut self,
        image: &str,
        source: &Source,
        inspection: &Inspection,
        shared: bool,
    ) -> (r: Result<Change, CatalogError>)
        ensures
            final(self).tables_only(*old(self)),
            match retained(
                old(self).tables@,
                image@,
                *source,
                *inspection,
                shared,
            ) {
                Ok((m, change)) => r matches Ok(c) && c@ == change && final(self).tables@ == m,
                Err(e) => r == Err::<Change, CatalogError>(e) && *final(self) == *old(self),
            },
    {
        let p: Prepared = match Prepared::new(inspection, source) {
            Err(e) => return Err(e),
            Ok(p) => p,
        };
        let mut tables: Tables = self.tables.copied();
        match retain_prepared(&mut tables, image, source, &p, shared) {
            Err(e) => Err(e),
            Ok(change) => {
                self.tables = tables;
                Ok(change)
            },
        }
    }

    /// Stores an observation of an image's source. Observations of files reach all
    /// images of the physical file.
    pub fn retain_metadata(
        &mut self,
        image: &str,
        source: &Source,
        inspection: &Inspection,
    ) -> (r: Result<Change, CatalogError>)
        ensures
            final(self).tables_only(*old(self)),
            match retained(
                old(self).tables@,
                image@,
                *source,
                *inspection,
                catalog_images::register::shared_kind(source.kind@),
            ) {
                Ok((m, change)) => r matches Ok(c) && c@ == change && final(self).tables@ == m,
                Err(e) => r == Err::<Change, CatalogError>(e) && *final(self) == *old(self),
            },
    {
        let shared: bool = is_shared_kind(source.kind.as_str());
        self.retain_image_metadata_id(image, source, inspection, shared)
    }

    /// Stores an observation for the image of a variant alone.
    pub fn retain_metadata_for_image(
        &mut self,
        key: &VariantKey,
        source: &Source,
        inspection: &Inspection,
    ) -> (r: Result<Change, CatalogError>)
        ensures
            final(self).tables_only(*old(self)),
            match retained_for_image(
                old(self).tables@,
                key@,
                *source,
                *inspection,
            ) {
                Ok((m, change)) => r matches Ok(c) && c@ == change && final(self).tables@ == m,
                Err(e) => r == Err::<Change, CatalogError>(e) && *final(self) == *old(self),
            },
    {
        let image: String = match id(&self.tables, key) {
            Err(e) => return Err(e),
            Ok(image) => image,
        };
        match require_current(&self.tables, image.as_str()) {
            Err(e) => return Err(e),
            Ok(()) => {},
        }
        self.retain_image_metadata_id(
            image.as_str(),
            source,
            inspection,
            false,
        )
    }

    /// Stores an observation on behalf of an importer, which is allowed only for a
    /// complete observation of a confirmed source.
    pub fn retain_import_metadata_for_image(
        &mut self,
        key: &VariantKey,
        source: &Source,
        inspection: &Inspection,
    ) -> (r: Result<Change, CatalogError>)
        ensures
            final(self).tables_only(*old(self)),
            if inspection.status@ != "Complete"@ || source.ambiguous {
                r == Err::<Change, CatalogError>(CatalogError::ImportIncomplete) && *final(self)
                    == *old(self)
            } else {
                match retained_for_image(
                    old(self).tables@,
                    key@,
                    *source,
                    *inspection,
                ) {
                    Ok((m, change)) => r matches Ok(c) && c@ == change && final(self).tables@
                        == m,
                    Err(e) => r == Err::<Change, CatalogError>(e) && *final(self) == *old(self),
                }
            },
    {
        if !same(inspection.status.as_str(), "Complete") || source.ambiguous {
            return Err(CatalogError::ImportIncomplete);
        }
        self.retain_metadata_for_image(key, source, inspection)
    }
}

/// What storing an inspection of a source gives.
pub open spec fn retained(
    m: TablesModel,
    image: Seq<char>,
    source: Source,
    inspection: Inspection,
    shared: bool,
) -> Result<(TablesModel, store::ChangeModel), CatalogError> {
    match prepared::prepare_outcome(inspection, source@) {
        Err(e) => Err(e),
        Ok(p) => store::retain_outcome(
            m,
            image,
            source@,
            p,
            shared,
        ),
    }
}

/// What storing an inspection for the image of a variant alone gives.
pub open spec fn retained_for_image(
    m: TablesModel,
    key: catalog_images::VariantKeyModel,
    source: Source,
    inspection: Inspection,
) -> Result<(TablesModel, store::ChangeModel), CatalogError> {
    match m.id_of(key) {
        None => Err(CatalogError::ImageNotFound),
        Some(image) => match m.current_refusal(image) {
            Some(e) => Err(e),
            None => retained(m, image, source, inspection, false),
        },
    }
}

/// Where values in effect come in an image's fields.
pub open spec fn field_key(image: Seq<char>) -> spec_fn(tables::EffectiveModel) -> Option<
    Seq<char>,
> {
    |r: tables::EffectiveModel|
        if r.image_id == image {
            Some(r.field)
        } else {
            None
        }
}

/// What is shown of a field.
pub open spec fn field_view(m: TablesModel, image: Seq<char>, name: Seq<char>) -> FieldModel {
    let effective = m.effective[(image, name)];
    FieldModel {
        name,
        value: effective.value,
        conflicted: effective.conflicted,
        selected_model: effective.model_id,
        candidates: m.candidates_for(image, name),
    }
}

/// These are all fields of an image, in the order of their names.
pub open spec fn are_fields(m: TablesModel, image: Seq<char>, fields: Seq<Field>) -> bool {
    &&& forall|i: int|
        0 <= i < fields.len() ==> m.effective.contains_key((image, (#[trigger] fields[i])@.name))
            && fields[i]@ == field_view(m, image, fields[i]@.name)
    &&& forall|i: int, j: int|
        0 <= i < j < fields.len() ==> ordering::text_before(
            (#[trigger] fields[i])@.name,
            (#[trigger] fields[j])@.name,
        )
    &&& forall|name: Seq<char>| #[trigger]
        m.effective.contains_key((image, name)) ==> exists|i: int|
            0 <= i < fields.len() && (#[trigger] fields[i])@.name == name
}

/// The fields are all that the image has, where its metadata may be used.
pub open spec fn shows_fields(m: TablesModel, image: Seq<char>, fields: Seq<Field>) -> bool {
    m.current_refusal(image) is None ==> are_fields(m, image, fields)
}

/// Where an image's sources come.
pub open spec fn usage_key(m: TablesModel, image: Seq<char>) -> spec_fn(
    tables::ImageSourceModel,
) -> Option<(i64, i64)> {
    |r: tables::ImageSourceModel|
        if r.image_id == image && m.source_at(r.source_id) is Some {
            Some((r.source_id, 0i64))
        } else {
            None
        }
}

/// What is shown of an image's use of a source.
pub open spec fn usage_view(m: TablesModel, row: tables::ImageSourceModel) -> SourceStateModel {
    let source = m.sources[m.source_at(row.source_id)->0];
    let observation = match row.current_observation {
        Some(c) => m.observation_at(c),
        None => None,
    };
    SourceStateModel {
        id: row.source_id,
        kind: source.kind,
        display: source.display,
        association: row.association,
        availability: row.availability,
        observation_id: row.current_observation,
        status: match observation {
            Some(o) => Some(m.observations[o].status),
            None => None,
        },
        issues: match observation {
            Some(o) => Some(m.observations[o].issues),
            None => None,
        },
    }
}

/// These are all sources of an image, in the order of their numbers.
pub open spec fn are_sources(m: TablesModel, image: Seq<char>, rows: Seq<SourceState>) -> bool {
    exists|picks: Seq<usize>|
        {
            &&& #[trigger] ordering::is_page::<(i64, i64)>(
                m.image_sources.map_values(usage_key(m, image)),
                None,
                None,
                picks,
            )
            &&& rows.len() == picks.len()
            &&& forall|i: int|
                0 <= i < rows.len() ==> (#[trigger] rows[i])@ == usage_view(
                    m,
                    m.image_sources[picks[i] as int],
                )
        }
}

fn find_effective(db: &Tables, image: &str, field: &str) -> (r: Option<usize>)
    ensures
        match r {
            Some(i) => i < db.effective@.len() && db@.effective.contains_key((image@, field@))
                && db@.effective[(image@, field@)] == (tables::EffectiveValue {
                value: db.effective@[i as int]@.value,
                conflicted: db.effective@[i as int]@.conflicted,
                model_id: db.effective@[i as int]@.model_id,
            }),
            None => !db@.effective.contains_key((image@, field@)),
        },
{
    let test = |r: &EffectiveRow| -> (b: bool)
        ensures b == tables::effective_for((image@, field@))(r@)
    {
        same(r.image_id.as_str(), image) && same(r.field.as_str(), field)
    };
    let found: Option<usize> = find(
        &db.effective,
        test,
        Ghost(tables::effective_for((image@, field@))),
    );
    proof {
        if let Some(i) = found {
            assert(support::models(db.effective@)[i as int] == db.effective@[i as int]@);
        }
    }
    found
}

fn list_fields(db: &Tables, image: &str) -> (fields: Vec<Field>)
    ensures
        are_fields(db@, image@, fields@),
{
    let key = |r: &EffectiveRow| -> (k: Option<String>)
        ensures ordering::key_of(k) == field_key(image@)(r@)
    {
        if same(r.image_id.as_str(), image) {
            Some(r.field.clone())
        } else {
            None
        }
    };
    let picks: Vec<usize> = page_rows(
        &db.effective,
        key,
        Ghost(field_key(image@)),
        &None,
        None,
    );
    let ghost rows = support::models(db.effective@);
    let ghost keys = rows.map_values(field_key(image@));
    let mut fields: Vec<Field> = Vec::new();
    let mut n: usize = 0;
    while n < picks.len()
        invariant
            n <= picks@.len(),
            fields@.len() == n,
            rows == support::models(db.effective@),
            keys == rows.map_values(field_key(image@)),
            ordering::is_page::<String>(keys, None, None, picks@),
            forall|j: int|
                0 <= j < n ==> Some((#[trigger] fields@[j])@.name) == keys[picks@[j] as int]
                    && db@.effective.contains_key((image@, fields@[j]@.name)) && fields@[j]@
                    == field_view(db@, image@, fields@[j]@.name),
        decreases picks@.len() - n,
    {
        let p: usize = picks[n];
        assert(ordering::follows::<String>(None, keys[p as int]));
        assert(rows[p as int] == db.effective@[p as int]@);
        let name: String = db.effective[p].field.clone();
        let found: Option<usize> = find_effective(db, image, name.as_str());
        proof {
            support::lemma_first_where(rows, tables::effective_for((image@, name@)));
            assert(tables::effective_for((image@, name@))(rows[p as int]));
        }
        if let Some(f) = found {
            let values: Vec<Candidate> = candidates(db, image, name.as_str());
            let row = &db.effective[f];
            let field: Field = Field {
                name,
                value: copy_option(&row.value),
                conflicted: row.conflicted,
                selected_model: row.model_id,
                candidates: values,
            };
            assert(field@ =~= field_view(db@, image@, field@.name));
            fields.push(field);
        }
        n += 1;
    }
    proof {
        assert forall|i: int, j: int| 0 <= i < j < fields@.len() implies ordering::text_before(
            (#[trigger] fields@[i])@.name,
            (#[trigger] fields@[j])@.name,
        ) by {
            assert(Some(fields@[i]@.name) == keys[picks@[i] as int]);
            assert(Some(fields@[j]@.name) == keys[picks@[j] as int]);
        }
        assert forall|name: Seq<char>| #[trigger]
            db@.effective.contains_key((image@, name)) implies exists|i: int|
            0 <= i < fields@.len() && (#[trigger] fields@[i])@.name == name by {
            let first = support::first_where(rows, tables::effective_for((image@, name)))->0;
            support::lemma_first_where(rows, tables::effective_for((image@, name)));
            assert(keys[first] == Some(name));
            assert(ordering::follows::<String>(None, keys[first]));
            let a = choose|a: int|
                0 <= a < picks@.len() && keys[(#[trigger] picks@[a]) as int] == keys[first];
            assert(Some(fields@[a]@.name) == keys[picks@[a] as int]);
        }
    }
    fields
}

fn list_sources(db: &Tables, image: &str) -> (rows: Vec<SourceState>)
    ensures
        are_sources(db@, image@, rows@),
{
    let key = |r: &ImageSourceRow| -> (k: Option<(i64, i64)>)
        ensures ordering::key_of(k) == usage_key(db@, image@)(r@)
    {
        if same(r.image_id.as_str(), image) && db.find_source_at(r.source_id).is_some() {
            Some((r.source_id, 0))
        } else {
            None
        }
    };
    let picks: Vec<usize> = page_rows(
        &db.image_sources,
        key,
        Ghost(usage_key(db@, image@)),
        &None,
        None,
    );
    let ghost keys = db@.image_sources.map_values(usage_key(db@, image@));
    let mut rows: Vec<SourceState> = Vec::new();
    let mut n: usize = 0;
    while n < picks.len()
        invariant
            n <= picks@.len(),
            rows@.len() == n,
            keys == db@.image_sources.map_values(usage_key(db@, image@)),
            ordering::is_page::<(i64, i64)>(keys, None, None, picks@),
            forall|j: int|
                0 <= j < n ==> (#[trigger] rows@[j])@ == usage_view(
                    db@,
                    db@.image_sources[picks@[j] as int],
                ),
        decreases picks@.len() - n,
    {
        let p: usize = picks[n];
        assert(ordering::follows::<(i64, i64)>(None, keys[p as int]));
        assert(db@.image_sources[p as int] == db.image_sources@[p as int]@);
        let row = &db.image_sources[p];
        if let Some(s) = db.find_source_at(row.source_id) {
            assert(db@.sources[s as int] == db.sources@[s as int]@);
            let mut status: Option<String> = None;
            let mut issues: Option<String> = None;
            if let Some(c) = row.current_observation {
                if let Some(o) = db.find_observation_at(c) {
                    assert(db@.observations[o as int] == db.observations@[o as int]@);
                    status = Some(db.observations[o].status.clone());
                    issues = Some(db.observations[o].issues.clone());
                }
            }
            let state: SourceState = SourceState {
                id: row.source_id,
                kind: db.sources[s].kind.clone(),
                display: db.sources[s].display.clone(),
                association: row.association.clone(),
                availability: row.availability.clone(),
                observation_id: row.current_observation,
                status,
                issues,
            };
            assert(state@ =~= usage_view(db@, row@));
            rows.push(state);
        }
        n += 1;
    }
    rows
}

/// A current use of a source offers a field of a model.
pub open spec fn offers(
    m: TablesModel,
    image: Seq<char>,
    observation: i64,
) -> spec_fn(tables::ImageSourceModel) -> bool {
    |r: tables::ImageSourceModel|
        r.image_id == image && r.current_observation == Some(observation) && m.source_at(
            r.source_id,
        ) is Some
}

impl TablesModel {
    /// A model gives a field a value now, as far as an image sees.
    pub open spec fn is_offered(self, image: Seq<char>, field: Seq<char>, model: i64) -> bool {
        self.model_at(model) matches Some(k) && self.value_at(model, field) is Some
            && support::first_where(
            self.image_sources,
            offers(self, image, self.models[k].observation_id),
        ) is Some
    }

    /// The tables with a model chosen for a field.
    pub open spec fn chosen(self, image: Seq<char>, field: Seq<char>, model: i64) -> TablesModel {
        TablesModel {
            choices: support::put(
                self.choices,
                lookups::choice_for(image, field),
                tables::ChoiceModel { image_id: image, field, model_id: model },
            ),
            ..self
        }
    }

    /// The digest of a model in an image's history.
    pub open spec fn model_digest(self, image: Seq<char>, model: i64) -> Option<Seq<char>> {
        match self.model_at(model) {
            Some(k) if self.observation_at(self.models[k].observation_id) is Some
                && self.image_observation_at(image, self.models[k].observation_id)
                is Some => Some(self.models[k].blob_hash),
            _ => None,
        }
    }

    /// The bytes of a model in an image's history.
    pub open spec fn model_bytes(self, image: Seq<char>, model: i64) -> Result<
        Seq<u8>,
        CatalogError,
    > {
        match self.model_digest(image, model) {
            None => Err(CatalogError::ModelNotFound),
            Some(hash) => blob_bytes(self, hash),
        }
    }

    /// The bytes of a model that can be edited or exported.
    pub open spec fn editable_bytes(self, image: Seq<char>, model: i64) -> Result<
        Seq<u8>,
        CatalogError,
    > {
        match self.model_bytes(image, model) {
            Err(e) => Err(e),
            Ok(bytes) => if self.models[self.model_at(model)->0].error is Some {
                Err(CatalogError::ModelNotEditable)
            } else {
                Ok(bytes)
            },
        }
    }
}

/// What choosing a model for a field gives.
pub open spec fn resolve_outcome(
    m: TablesModel,
    image: Seq<char>,
    expected: i64,
    field: Seq<char>,
    model: i64,
) -> Result<(TablesModel, i64), CatalogError> {
    match m.current_refusal(image) {
        Some(e) => Err(e),
        None => if m.revision_of(image) != expected {
            Err(CatalogError::RevisionChanged)
        } else if !m.is_offered(image, field, model) {
            Err(CatalogError::ChoiceInvalid)
        } else {
            catalog_metadata::advance_outcome(
                m.chosen(image, field, model).rebuilt(image),
                image,
                "resolve"@,
                tables::DetailModel::Resolved { field, model_id: model },
                true,
            )
        },
    }
}

fn find_offer(db: &Tables, image: &str, field: &str, model: i64) -> (r: bool)
    ensures
        r == db@.is_offered(image@, field@, model),
{
    let k: usize = match db.find_model_at(model) {
        None => return false,
        Some(k) => k,
    };
    assert(db@.models[k as int] == db.models@[k as int]@);
    if db.find_value_at(model, field).is_none() {
        return false;
    }
    let observation: i64 = db.models[k].observation_id;
    let test = |r: &ImageSourceRow| -> (b: bool)
        ensures b == offers(db@, image@, observation)(r@)
    {
        (match r.current_observation {
            Some(c) => c == observation,
            None => false,
        }) && same(r.image_id.as_str(), image) && db.find_source_at(r.source_id).is_some()
    };
    find(&db.image_sources, test, Ghost(offers(db@, image@, observation))).is_some()
}

pub(crate) fn choose_model(db: &mut Tables, image: &str, field: &str, model: i64)
    ensures
        final(db)@ == old(db)@.chosen(image@, field@, model),
{
    let row: ChoiceRow = ChoiceRow {
        image_id: image.to_owned(),
        field: field.to_owned(),
        model_id: model,
    };
    match db.find_choice_at(image, field) {
        Some(i) => db.choices.set(i, row),
        None => db.choices.push(row),
    }
    assert(db@ =~= old(db)@.chosen(image@, field@, model));
}

/// Chooses a model for a field and gives the new revision. Where this fails, what
/// it has changed is to be thrown away.
pub(crate) fn resolve(db: &mut Tables, image: &str, expected: i64, field: &str, model: i64) -> (r:
    Result<i64, CatalogError>)
    ensures
        match resolve_outcome(old(db)@, image@, expected, field@, model) {
            Ok((m, next)) => r == Ok::<i64, CatalogError>(next) && final(db)@ == m,
            Err(e) => r == Err::<i64, CatalogError>(e),
        },
{
    match require_current(db, image) {
        Err(e) => return Err(e),
        Ok(()) => {},
    }
    if recorded_revision(db, image) != expected {
        return Err(CatalogError::RevisionChanged);
    }
    if !find_offer(db, image, field, model) {
        return Err(CatalogError::ChoiceInvalid);
    }
    choose_model(db, image, field, model);
    rebuild(db, image);
    advance(
        db,
        image,
        "resolve",
        Detail::Resolved { field: field.to_owned(), model_id: model },
        true,
    )
}

impl Catalog {
    /// An image's metadata: its revision, its sources and its fields, with the
    /// candidates for each.
    pub fn metadata(&self, image: &str) -> (r: Result<MetadataView, CatalogError>)
        ensures
            match self.tables@.current_refusal(image@) {
                Some(e) => r == Err::<MetadataView, CatalogError>(e),
                None => r matches Ok(view) && view.asset_id@ == image@ && view.revision
                    == self.tables@.revision_of(image@) && are_fields(
                    self.tables@,
                    image@,
                    view.fields@,
                ) && are_sources(self.tables@, image@, view.sources@),
            },
    {
        let db = &self.tables;
        match require_current(db, image) {
            Err(e) => return Err(e),
            Ok(()) => {},
        }
        Ok(
            MetadataView {
                asset_id: image.to_owned(),
                revision: recorded_revision(db, image),
                sources: list_sources(db, image),
                fields: list_fields(db, image),
            },
        )
    }

    /// The metadata of the image of a variant.
    pub fn metadata_for_image(&self, key: &VariantKey) -> (r: Result<MetadataView, CatalogError>)
        ensures
            match self.tables@.id_of(key@) {
                None => r == Err::<MetadataView, CatalogError>(CatalogError::ImageNotFound),
                Some(image) => match self.tables@.current_refusal(image) {
                    Some(e) => r == Err::<MetadataView, CatalogError>(e),
                    None => r matches Ok(view) && view.asset_id@ == image && view.revision
                        == self.tables@.revision_of(image) && are_fields(
                        self.tables@,
                        image,
                        view.fields@,
                    ) && are_sources(self.tables@, image, view.sources@),
                },
            },
    {
        match id(&self.tables, key) {
            Err(e) => Err(e),
            Ok(image) => self.metadata(image.as_str()),
        }
    }

    /// Chooses one of the models that offer a field now. The choice is bound to
    /// that model: once its source changes, the choice shows as stale.
    pub fn resolve_metadata(
        &mut self,
        image: &str,
        expected_revision: i64,
        field: &str,
        model_id: i64,
    ) -> (r: Result<i64, CatalogError>)
        ensures
            final(self).tables_only(*old(self)),
            match resolve_outcome(
                old(self).tables@,
                image@,
                expected_revision,
                field@,
                model_id,
            ) {
                Ok((m, next)) => r == Ok::<i64, CatalogError>(next) && final(self).tables@ == m,
                Err(e) => r == Err::<i64, CatalogError>(e) && *final(self) == *old(self),
            },
    {
        let mut tables: Tables = self.tables.copied();
        match resolve(&mut tables, image, expected_revision, field, model_id) {
            Err(e) => Err(e),
            Ok(next) => {
                self.tables = tables;
                Ok(next)
            },
        }
    }

    /// Chooses a model for a field of the image of a variant.
    pub fn resolve_metadata_for_image(
        &mut self,
        key: &VariantKey,
        expected: i64,
        field: &str,
        model: i64,
    ) -> (r: Result<i64, CatalogError>)
        ensures
            final(self).tables_only(*old(self)),
            match old(self).tables@.id_of(key@) {
                None => r == Err::<i64, CatalogError>(CatalogError::ImageNotFound) && *final(self)
                    == *old(self),
                Some(image) => match resolve_outcome(
                    old(self).tables@,
                    image,
                    expected,
                    field@,
                    model,
                ) {
                    Ok((m, next)) => r == Ok::<i64, CatalogError>(next) && final(self).tables@
                        == m,
                    Err(e) => r == Err::<i64, CatalogError>(e) && *final(self) == *old(self),
                },
            },
    {
        let image: String = match id(&self.tables, key) {
            Err(e) => return Err(e),
            Ok(image) => image,
        };
        self.resolve_metadata(image.as_str(), expected, field, model)
    }

    /// The bytes of a model in an image's history.
    pub fn metadata_model(&self, image: &str, model_id: i64) -> (r: Result<Vec<u8>, CatalogError>)
        ensures
            match self.tables@.model_bytes(image@, model_id) {
                Ok(bytes) => r matches Ok(v) && v@ == bytes,
                Err(e) => r == Err::<Vec<u8>, CatalogError>(e),
            },
    {
        let db = &self.tables;
        let k: usize = match db.find_model_at(model_id) {
            None => return Err(CatalogError::ModelNotFound),
            Some(k) => k,
        };
        assert(db@.models[k as int] == db.models@[k as int]@);
        let observation: i64 = db.models[k].observation_id;
        if db.find_observation_at(observation).is_none() || db.find_image_observation_at(
            image,
            observation,
        ).is_none() {
            return Err(CatalogError::ModelNotFound);
        }
        read_blob(db, db.models[k].blob_hash.as_str())
    }

    /// The bytes of a model in the history of the image of a variant.
    pub fn metadata_model_for_image(&self, key: &VariantKey, model: i64) -> (r: Result<
        Vec<u8>,
        CatalogError,
    >)
        ensures
            match self.tables@.id_of(key@) {
                None => r == Err::<Vec<u8>, CatalogError>(CatalogError::ImageNotFound),
                Some(image) => match self.tables@.model_bytes(image, model) {
                    Ok(bytes) => r matches Ok(v) && v@ == bytes,
                    Err(e) => r == Err::<Vec<u8>, CatalogError>(e),
                },
            },
    {
        match id(&self.tables, key) {
            Err(e) => Err(e),
            Ok(image) => self.metadata_model(image.as_str(), model),
        }
    }

    /// The bytes of a model that can be edited or exported. Whether they parse is
    /// for the caller to find out.
    pub fn editable_metadata_model(&self, image: &str, model_id: i64) -> (r: Result<
        Vec<u8>,
        CatalogError,
    >)
        ensures
            match self.tables@.editable_bytes(image@, model_id) {
                Ok(bytes) => r matches Ok(v) && v@ == bytes,
                Err(e) => r == Err::<Vec<u8>, CatalogError>(e),
            },
    {
        let bytes: Vec<u8> = match self.metadata_model(image, model_id) {
            Err(e) => return Err(e),
            Ok(bytes) => bytes,
        };
        let db = &self.tables;
        match db.find_model_at(model_id) {
            None => Err(CatalogError::ModelNotFound),
            Some(k) => {
                assert(db@.models[k as int] == db.models@[k as int]@);
                if db.models[k].error.is_some() {
                    Err(CatalogError::ModelNotEditable)
                } else {
                    Ok(bytes)
                }
            },
        }
    }
}

/// Where observations come in an image's history.
pub open spec fn history_key(m: TablesModel, image: Seq<char>) -> spec_fn(
    tables::ObservationModel,
) -> Option<(i64, i64)> {
    |o: tables::ObservationModel|
        if m.image_observation_at(image, o.id) is Some {
            Some((o.id, 0i64))
        } else {
            None
        }
}

/// What is shown of a model.
pub open spec fn summary_of(r: tables::InterpretationModel) -> ModelSummaryModel {
    ModelSummaryModel {
        id: r.id,
        ordinal: r.ordinal,
        blob_hash: r.blob_hash,
        descriptor: r.descriptor,
        projection: r.projection,
        error: r.error,
    }
}

/// What is shown of an observation in an image's history.
pub open spec fn observation_view(m: TablesModel, image: Seq<char>, o: tables::ObservationModel) -> ObservationView {
    ObservationView {
        id: o.id,
        source_id: o.source_id,
        revision: o.revision,
        status: o.status,
        issues: o.issues,
        provenance: o.provenance,
        current: m.source_at(o.source_id) is Some && (m.image_source_at(
            image,
            o.source_id,
        ) matches Some(a) && m.image_sources[a].current_observation == Some(o.id)),
        models: store::model_rows(m, o.id).map_values(
            |r: tables::InterpretationModel| summary_of(r),
        ),
    }
}

/// These are the observations in an image's history that come next after a
/// number.
pub open spec fn is_history_page(
    m: TablesModel,
    image: Seq<char>,
    after: i64,
    limit: nat,
    rows: Seq<Observation>,
) -> bool {
    exists|picks: Seq<usize>|
        {
            &&& #[trigger] ordering::is_page::<(i64, i64)>(
                m.observations.map_values(history_key(m, image)),
                Some((after, 0i64)),
                Some(limit),
                picks,
            )
            &&& rows.len() == picks.len()
            &&& forall|i: int|
                0 <= i < rows.len() ==> (#[trigger] rows[i])@ == observation_view(
                    m,
                    image,
                    m.observations[picks[i] as int],
                )
        }
}

fn list_summaries(db: &Tables, oid: i64) -> (rows: Vec<ModelSummary>)
    ensures
        support::models(rows@) == store::model_rows(db@, oid).map_values(
            |r: tables::InterpretationModel| summary_of(r),
        ),
{
    let ghost f = |r: tables::InterpretationModel| summary_of(r);
    let picks: Vec<usize> = pick_models(db, oid);
    let mut rows: Vec<ModelSummary> = Vec::new();
    let mut i: usize = 0;
    while i < picks.len()
        invariant
            i <= picks@.len(),
            rows@.len() == i,
            ordering::picked(db.models@, picks@, store::model_rows(db@, oid)),
            forall|j: int|
                0 <= j < i ==> (#[trigger] rows@[j])@ == summary_of(
                    store::model_rows(db@, oid)[j],
                ),
        decreases picks@.len() - i,
    {
        let p: usize = picks[i];
        let model = &db.models[p];
        rows.push(
            ModelSummary {
                id: model.id,
                ordinal: model.ordinal,
                blob_hash: model.blob_hash.clone(),
                descriptor: model.descriptor.clone(),
                projection: model.projection.clone(),
                error: copy_option(&model.error),
            },
        );
        i += 1;
    }
    assert(support::models(rows@) =~= store::model_rows(db@, oid).map_values(f));
    rows
}

fn show_observation(db: &Tables, image: &str, p: usize) -> (o: Observation)
    requires
        p < db.observations@.len(),
    ensures
        o@ == observation_view(db@, image@, db@.observations[p as int]),
{
    let row = &db.observations[p];
    assert(db@.observations[p as int] == row@);
    let mut current: bool = false;
    if db.find_source_at(row.source_id).is_some() {
        if let Some(a) = db.find_image_source_at(image, row.source_id) {
            assert(db@.image_sources[a as int] == db.image_sources@[a as int]@);
            current = match db.image_sources[a].current_observation {
                Some(c) => c == row.id,
                None => false,
            };
        }
    }
    let o: Observation = Observation {
        id: row.id,
        source_id: row.source_id,
        revision: row.revision.clone(),
        status: row.status.clone(),
        issues: row.issues.clone(),
        provenance: row.provenance.clone(),
        current,
        models: list_summaries(db, row.id),
    };
    assert(o@ =~= observation_view(db@, image@, row@));
    o
}

/// A page of history that is not given out.
pub open spec fn history_refused(after: i64, limit: usize) -> bool {
    after < 0 || limit == 0 || limit > HISTORY_PAGE_LIMIT
}

/// The packets of an observation.
pub open spec fn packet_of(oid: i64) -> spec_fn(tables::PacketModel) -> bool {
    |r: tables::PacketModel| r.observation_id == oid
}

/// The number of a packet within its observation.
pub open spec fn packet_ordinal() -> spec_fn(tables::PacketModel) -> i64 {
    |r: tables::PacketModel| r.ordinal
}

/// The rows of the packets of an observation, in the order of their numbers.
pub open spec fn packet_rows(m: TablesModel, oid: i64) -> Seq<tables::PacketModel> {
    ordering::ordered(m.packets.filter(packet_of(oid)), packet_ordinal())
}

/// The positions of the packets of an observation, in the order of their numbers.
pub(crate) fn pick_packets(db: &Tables, oid: i64) -> (picks: Vec<usize>)
    ensures
        ordering::picked(db.packets@, picks@, packet_rows(db@, oid)),
{
    let test = |r: &PacketRow| -> (b: bool)
        ensures b == packet_of(oid)(r@)
    {
        r.observation_id == oid
    };
    let number = |r: &PacketRow| -> (n: i64)
        ensures n == packet_ordinal()(r@)
    {
        r.ordinal
    };
    pick_ordered(&db.packets, test, number, Ghost(packet_of(oid)), Ghost(packet_ordinal()))
}

/// The first packets of some packet rows with their bytes.
pub open spec fn packets_read(m: TablesModel, rows: Seq<tables::PacketModel>, n: nat) -> Result<
    Seq<PacketEvidenceModel>,
    CatalogError,
>
    decreases n,
{
    if n == 0 {
        Ok(Seq::empty())
    } else {
        match packets_read(m, rows, (n - 1) as nat) {
            Err(e) => Err(e),
            Ok(before) => match blob_bytes(m, rows[n - 1].blob_hash) {
                Err(e) => Err(e),
                Ok(bytes) => Ok(
                    before.push(
                        PacketEvidenceModel {
                            ordinal: rows[n - 1].ordinal,
                            descriptor: rows[n - 1].descriptor,
                            bytes,
                            blake3: rows[n - 1].blob_hash,
                        },
                    ),
                ),
            },
        }
    }
}

/// The packets of an observation in an image's history, in their order.
pub open spec fn packets_for(m: TablesModel, image: Seq<char>, oid: i64) -> Result<
    Seq<PacketEvidenceModel>,
    CatalogError,
> {
    if m.image_observation_at(image, oid) is None {
        Err(CatalogError::ObservationForeign)
    } else {
        let rows = packet_rows(m, oid);
        packets_read(m, rows, rows.len())
    }
}

proof fn lemma_packets_error(m: TablesModel, rows: Seq<tables::PacketModel>, n: nat)
    requires
        n <= rows.len(),
        packets_read(m, rows, n) is Err,
    ensures
        packets_read(m, rows, rows.len()) == packets_read(m, rows, n),
    decreases rows.len() - n,
{
    if n < rows.len() {
        lemma_packets_error(m, rows, n + 1);
    }
}

/// Where changes come in an image's decisions.
pub open spec fn decision_key(image: Seq<char>) -> spec_fn(tables::HistoryModel) -> Option<
    (i64, i64),
> {
    |r: tables::HistoryModel|
        if r.image_id == image {
            Some((r.id, 0i64))
        } else {
            None
        }
}

/// These are the changes of an image's metadata that come next after a number.
pub open spec fn is_decision_page(
    m: TablesModel,
    image: Seq<char>,
    after: i64,
    limit: nat,
    rows: Seq<Decision>,
) -> bool {
    exists|picks: Seq<usize>|
        {
            &&& #[trigger] ordering::is_page::<(i64, i64)>(
                m.history.map_values(decision_key(image)),
                Some((after, 0i64)),
                Some(limit),
                picks,
            )
            &&& rows.len() == picks.len()
            &&& forall|i: int|
                0 <= i < rows.len() ==> (#[trigger] rows[i])@ == DecisionModel {
                    id: m.history[picks[i] as int].id,
                    revision: m.history[picks[i] as int].revision,
                    action: m.history[picks[i] as int].action,
                    detail: m.history[picks[i] as int].detail,
                    created_at: m.history[picks[i] as int].created_at,
                }
        }
}

impl Catalog {
    /// A page of the observations in an image's history, with their models.
    pub fn metadata_history(&self, image: &str, after: i64, limit: usize) -> (r: Result<
        Vec<Observation>,
        CatalogError,
    >)
        ensures
            match r {
                Err(e) => if !self.tables@.is_stored(image@) {
                    e == CatalogError::AssetNotFound
                } else {
                    history_refused(after, limit) && e == CatalogError::PageBounds
                },
                Ok(rows) => self.tables@.is_stored(image@) && !history_refused(after, limit)
                    && is_history_page(self.tables@, image@, after, limit as nat, rows@),
            },
    {
        let db = &self.tables;
        if !is_stored(db, image) {
            return Err(CatalogError::AssetNotFound);
        }
        if after < 0 || limit == 0 || limit > HISTORY_PAGE_LIMIT {
            return Err(CatalogError::PageBounds);
        }
        let key = |r: &ObservationRow| -> (k: Option<(i64, i64)>)
            ensures ordering::key_of(k) == history_key(db@, image@)(r@)
        {
            if db.find_image_observation_at(image, r.id).is_some() {
                Some((r.id, 0))
            } else {
                None
            }
        };
        let picks: Vec<usize> = page_rows(
            &db.observations,
            key,
            Ghost(history_key(db@, image@)),
            &Some((after, 0)),
            Some(limit),
        );
        let mut rows: Vec<Observation> = Vec::new();
        let mut n: usize = 0;
        while n < picks.len()
            invariant
                n <= picks@.len(),
                rows@.len() == n,
                ordering::is_page::<(i64, i64)>(
                    db@.observations.map_values(history_key(db@, image@)),
                    Some((after, 0i64)),
                    Some(limit as nat),
                    picks@,
                ),
                forall|j: int|
                    0 <= j < n ==> (#[trigger] rows@[j])@ == observation_view(
                        db@,
                        image@,
                        db@.observations[picks@[j] as int],
                    ),
            decreases picks@.len() - n,
        {
            let p: usize = picks[n];
            assert(db@.observations.len() == db.observations@.len());
            rows.push(show_observation(db, image, p));
            n += 1;
        }
        Ok(rows)
    }

    /// A page of the observations in the history of the image of a variant.
    pub fn metadata_history_for_image(&self, key: &VariantKey, after: i64, limit: usize) -> (r:
        Result<Vec<Observation>, CatalogError>)
        ensures
            match self.tables@.id_of(key@) {
                None => r == Err::<Vec<Observation>, CatalogError>(CatalogError::ImageNotFound),
                Some(image) => match r {
                    Err(e) => if !self.tables@.is_stored(image) {
                        e == CatalogError::AssetNotFound
                    } else {
                        history_refused(after, limit) && e == CatalogError::PageBounds
                    },
                    Ok(rows) => self.tables@.is_stored(image) && !history_refused(after, limit)
                        && is_history_page(self.tables@, image, after, limit as nat, rows@),
                },
            },
    {
        match id(&self.tables, key) {
            Err(e) => Err(e),
            Ok(image) => self.metadata_history(image.as_str(), after, limit),
        }
    }

    /// The packets of an observation in an image's history, in their order.
    pub fn metadata_packets(&self, image: &str, observation_id: i64) -> (r: Result<
        Vec<PacketEvidence>,
        CatalogError,
    >)
        ensures
            match packets_for(self.tables@, image@, observation_id) {
                Ok(packets) => r matches Ok(rows) && support::models(rows@) == packets,
                Err(e) => r == Err::<Vec<PacketEvidence>, CatalogError>(e),
            },
    {
        let db = &self.tables;
        if db.find_image_observation_at(image, observation_id).is_none() {
            return Err(CatalogError::ObservationForeign);
        }
        let ghost all = packet_rows(db@, observation_id);
        let picks: Vec<usize> = pick_packets(db, observation_id);
        let mut rows: Vec<PacketEvidence> = Vec::new();
        let mut i: usize = 0;
        assert(support::models(rows@) =~= Seq::<PacketEvidenceModel>::empty());
        while i < picks.len()
            invariant
                i <= picks@.len(),
                all == packet_rows(db@, observation_id),
                ordering::picked(db.packets@, picks@, all),
                db@ == self.tables@,
                self.tables@.image_observation_at(image@, observation_id) is Some,
                packets_read(db@, all, i as nat) == Ok::<Seq<PacketEvidenceModel>, CatalogError>(
                    support::models(rows@),
                ),
            decreases picks@.len() - i,
        {
            let p: usize = picks[i];
            let packet = &db.packets[p];
            match read_blob(db, packet.blob_hash.as_str()) {
                Err(e) => {
                    proof {
                        assert(packets_read(db@, all, (i + 1) as nat) is Err);
                        lemma_packets_error(db@, all, (i + 1) as nat);
                    }
                    return Err(e);
                },
                Ok(bytes) => {
                    rows.push(
                        PacketEvidence {
                            ordinal: packet.ordinal,
                            descriptor: packet.descriptor.clone(),
                            bytes,
                            blake3: packet.blob_hash.clone(),
                        },
                    );
                    assert(support::models(rows@) =~= packets_read(
                        db@,
                        all,
                        (i + 1) as nat,
                    )->Ok_0);
                },
            }
            i += 1;
        }
        Ok(rows)
    }

    /// The packets of an observation in the history of the image of a variant.
    pub fn metadata_packets_for_image(&self, key: &VariantKey, observation: i64) -> (r: Result<
        Vec<PacketEvidence>,
        CatalogError,
    >)
        ensures
            match self.tables@.id_of(key@) {
                None => r == Err::<Vec<PacketEvidence>, CatalogError>(CatalogError::ImageNotFound),
                Some(image) => match packets_for(self.tables@, image, observation) {
                    Ok(packets) => r matches Ok(rows) && support::models(rows@) == packets,
                    Err(e) => r == Err::<Vec<PacketEvidence>, CatalogError>(e),
                },
            },
    {
        match id(&self.tables, key) {
            Err(e) => Err(e),
            Ok(image) => self.metadata_packets(image.as_str(), observation),
        }
    }

    /// A page of the changes of an image's metadata.
    pub fn metadata_decisions(&self, image: &str, after: i64, limit: usize) -> (r: Result<
        Vec<Decision>,
        CatalogError,
    >)
        ensures
            match r {
                Err(e) => if !self.tables@.is_stored(image@) {
                    e == CatalogError::AssetNotFound
                } else {
                    history_refused(after, limit) && e == CatalogError::PageBounds
                },
                Ok(rows) => self.tables@.is_stored(image@) && !history_refused(after, limit)
                    && is_decision_page(self.tables@, image@, after, limit as nat, rows@),
            },
    {
        let db = &self.tables;
        if !is_stored(db, image) {
            return Err(CatalogError::AssetNotFound);
        }
        if after < 0 || limit == 0 || limit > HISTORY_PAGE_LIMIT {
            return Err(CatalogError::PageBounds);
        }
        let key = |r: &HistoryRow| -> (k: Option<(i64, i64)>)
            ensures ordering::key_of(k) == decision_key(image@)(r@)
        {
            if same(r.image_id.as_str(), image) {
                Some((r.id, 0))
            } else {
                None
            }
        };
        let picks: Vec<usize> = page_rows(
            &db.history,
            key,
            Ghost(decision_key(image@)),
            &Some((after, 0)),
            Some(limit),
        );
        let mut rows: Vec<Decision> = Vec::new();
        let mut n: usize = 0;
        while n < picks.len()
            invariant
                n <= picks@.len(),
                rows@.len() == n,
                ordering::is_page::<(i64, i64)>(
                    db@.history.map_values(decision_key(image@)),
                    Some((after, 0i64)),
                    Some(limit as nat),
                    picks@,
                ),
                forall|j: int|
                    0 <= j < n ==> (#[trigger] rows@[j])@ == (DecisionModel {
                        id: db@.history[picks@[j] as int].id,
                        revision: db@.history[picks@[j] as int].revision,
                        action: db@.history[picks@[j] as int].action,
                        detail: db@.history[picks@[j] as int].detail,
                        created_at: db@.history[picks@[j] as int].created_at,
                    }),
            decreases picks@.len() - n,
        {
            let p: usize = picks[n];
            assert(db@.history[p as int] == db.history@[p as int]@);
            let row = &db.history[p];
            rows.push(
                Decision {
                    id: row.id,
                    revision: row.revision,
                    action: row.action.clone(),
                    detail: row.detail.copied(),
                    created_at: row.created_at.clone(),
                },
            );
            n += 1;
        }
        Ok(rows)
    }

    /// A page of the changes of the metadata of the image of a variant.
    pub fn metadata_decisions_for_image(&self, key: &VariantKey, after: i64, limit: usize) -> (r:
        Result<Vec<Decision>, CatalogError>)
        ensures
            match self.tables@.id_of(key@) {
                None => r == Err::<Vec<Decision>, CatalogError>(CatalogError::ImageNotFound),
                Some(image) => match r {
                    Err(e) => if !self.tables@.is_stored(image) {
                        e == CatalogError::AssetNotFound
                    } else {
                        history_refused(after, limit) && e == CatalogError::PageBounds
                    },
                    Ok(rows) => self.tables@.is_stored(image) && !history_refused(after, limit)
                        && is_decision_page(self.tables@, image, after, limit as nat, rows@),
                },
            },
    {
        match id(&self.tables, key) {
            Err(e) => Err(e),
            Ok(image) => self.metadata_decisions(image.as_str(), after, limit),
        }
    }
}

} // verus!

//! The rows a catalog keeps of its images and their metadata.
use crate::catalog_images::{ImageRole, TranslationState};
use crate::support;
use vstd::prelude::*;

verus! {

/// A physical file that images share.
pub struct Asset {
    pub id: String,
    pub location: Vec<u8>,
    pub fingerprint: Option<String>,
    pub state: String,
    pub render_generation: i64,
    pub physical_generation: i64,
    pub shared_epoch: i64,
}

/// What a `Asset` stands for.
#[verifier::ext_equal]
pub struct AssetModel {
    pub id: Seq<char>,
    pub location: Seq<u8>,
    pub fingerprint: Option<Seq<char>>,
    pub state: Seq<char>,
    pub render_generation: i64,
    pub physical_generation: i64,
    pub shared_epoch: i64,
}

impl View for Asset {
    type V = AssetModel;

    open spec fn view(&self) -> AssetModel {
        AssetModel {
            id: self.id@,
            location: self.location@,
            fingerprint: support::text_of(self.fingerprint),
            state: self.state@,
            render_generation: self.render_generation,
            physical_generation: self.physical_generation,
            shared_epoch: self.shared_epoch,
        }
    }
}

/// A logical image.
pub struct ImageRow {
    pub sequence: i64,
    pub id: String,
    pub asset_id: String,
    pub variant_id: String,
    pub role: ImageRole,
    pub imported: bool,
    pub master_sequence: Option<i64>,
    pub copied_from_sequence: Option<i64>,
    pub translation_state: TranslationState,
    pub pixel_generation: i64,
    pub applied_shared_epoch: i64,
}

/// What a `ImageRow` stands for.
#[verifier::ext_equal]
pub struct ImageModel {
    pub sequence: i64,
    pub id: Seq<char>,
    pub asset_id: Seq<char>,
    pub variant_id: Seq<char>,
    pub role: ImageRole,
    pub imported: bool,
    pub master_sequence: Option<i64>,
    pub copied_from_sequence: Option<i64>,
    pub translation_state: TranslationState,
    pub pixel_generation: i64,
    pub applied_shared_epoch: i64,
}

impl View for ImageRow {
    type V = ImageModel;

    open spec fn view(&self) -> ImageModel {
        ImageModel {
            sequence: self.sequence,
            id: self.id@,
            asset_id: self.asset_id@,
            variant_id: self.variant_id@,
            role: self.role,
            imported: self.imported,
            master_sequence: self.master_sequence,
            copied_from_sequence: self.copied_from_sequence,
            translation_state: self.translation_state,
            pixel_generation: self.pixel_generation,
            applied_shared_epoch: self.applied_shared_epoch,
        }
    }
}

/// A physical file that an importer has set aside for itself.
pub struct Reservation {
    pub asset_id: String,
    pub owner: String,
}

/// What a `Reservation` stands for.
#[verifier::ext_equal]
pub struct ReservationModel {
    pub asset_id: Seq<char>,
    pub owner: Seq<char>,
}

impl View for Reservation {
    type V = ReservationModel;

    open spec fn view(&self) -> ReservationModel {
        ReservationModel {
            asset_id: self.asset_id@,
            owner: self.owner@,
        }
    }
}

/// A change of a physical file that its images have still to follow.
pub struct StorageEvent {
    pub asset_id: String,
    pub high_water: i64,
    pub cursor: i64,
}

/// What a `StorageEvent` stands for.
#[verifier::ext_equal]
pub struct StorageEventModel {
    pub asset_id: Seq<char>,
    pub high_water: i64,
    pub cursor: i64,
}

impl View for StorageEvent {
    type V = StorageEventModel;

    open spec fn view(&self) -> StorageEventModel {
        StorageEventModel {
            asset_id: self.asset_id@,
            high_water: self.high_water,
            cursor: self.cursor,
        }
    }
}

/// An image's edit history.
pub struct Variant {
    pub asset_id: String,
    pub id: String,
    pub label: String,
}

/// What a `Variant` stands for.
#[verifier::ext_equal]
pub struct VariantModel {
    pub asset_id: Seq<char>,
    pub id: Seq<char>,
    pub label: Seq<char>,
}

impl View for Variant {
    type V = VariantModel;

    open spec fn view(&self) -> VariantModel {
        VariantModel {
            asset_id: self.asset_id@,
            id: self.id@,
            label: self.label@,
        }
    }
}

/// The image that a source record was imported as.
pub struct ImportMapping {
    pub import_source: String,
    pub capture_revision: String,
    pub source_table: String,
    pub source_id: String,
    pub input_digest: String,
    pub adapter_version: String,
    pub image_id: String,
}

/// What a `ImportMapping` stands for.
#[verifier::ext_equal]
pub struct ImportMappingModel {
    pub import_source: Seq<char>,
    pub capture_revision: Seq<char>,
    pub source_table: Seq<char>,
    pub source_id: Seq<char>,
    pub input_digest: Seq<char>,
    pub adapter_version: Seq<char>,
    pub image_id: Seq<char>,
}

impl View for ImportMapping {
    type V = ImportMappingModel;

    open spec fn view(&self) -> ImportMappingModel {
        ImportMappingModel {
            import_source: self.import_source@,
            capture_revision: self.capture_revision@,
            source_table: self.source_table@,
            source_id: self.source_id@,
            input_digest: self.input_digest@,
            adapter_version: self.adapter_version@,
            image_id: self.image_id@,
        }
    }
}

/// A change of a shared source that images have still to follow.
pub struct SharedEvent {
    pub id: i64,
    pub asset_id: String,
    pub epoch: i64,
    pub source_id: i64,
    pub observation_id: Option<i64>,
    pub current_observation: Option<i64>,
    pub association: String,
    pub availability: String,
    pub high_water: i64,
    pub cursor: i64,
}

/// What a `SharedEvent` stands for.
#[verifier::ext_equal]
pub struct SharedEventModel {
    pub id: i64,
    pub asset_id: Seq<char>,
    pub epoch: i64,
    pub source_id: i64,
    pub observation_id: Option<i64>,
    pub current_observation: Option<i64>,
    pub association: Seq<char>,
    pub availability: Seq<char>,
    pub high_water: i64,
    pub cursor: i64,
}

impl View for SharedEvent {
    type V = SharedEventModel;

    open spec fn view(&self) -> SharedEventModel {
        SharedEventModel {
            id: self.id,
            asset_id: self.asset_id@,
            epoch: self.epoch,
            source_id: self.source_id,
            observation_id: self.observation_id,
            current_observation: self.current_observation,
            association: self.association@,
            availability: self.availability@,
            high_water: self.high_water,
            cursor: self.cursor,
        }
    }
}

/// A place that metadata was read from.
pub struct SourceRow {
    pub id: i64,
    pub asset_id: String,
    pub kind: String,
    pub locator: Vec<u8>,
    pub display: String,
    pub association: String,
    pub availability: String,
    pub current_observation: Option<i64>,
}

/// What a `SourceRow` stands for.
#[verifier::ext_equal]
pub struct SourceModel {
    pub id: i64,
    pub asset_id: Seq<char>,
    pub kind: Seq<char>,
    pub locator: Seq<u8>,
    pub display: Seq<char>,
    pub association: Seq<char>,
    pub availability: Seq<char>,
    pub current_observation: Option<i64>,
}

impl View for SourceRow {
    type V = SourceModel;

    open spec fn view(&self) -> SourceModel {
        SourceModel {
            id: self.id,
            asset_id: self.asset_id@,
            kind: self.kind@,
            locator: self.locator@,
            display: self.display@,
            association: self.association@,
            availability: self.availability@,
            current_observation: self.current_observation,
        }
    }
}

/// What was once read from a source.
pub struct ObservationRow {
    pub id: i64,
    pub source_id: i64,
    pub revision: String,
    pub status: String,
    pub issues: String,
    pub provenance: String,
    pub source_provenance: String,
    pub file_length: u64,
    pub file_blake3: String,
    pub modified: Option<u128>,
}

/// What a `ObservationRow` stands for.
#[verifier::ext_equal]
pub struct ObservationModel {
    pub id: i64,
    pub source_id: i64,
    pub revision: Seq<char>,
    pub status: Seq<char>,
    pub issues: Seq<char>,
    pub provenance: Seq<char>,
    pub source_provenance: Seq<char>,
    pub file_length: u64,
    pub file_blake3: Seq<char>,
    pub modified: Option<u128>,
}

impl View for ObservationRow {
    type V = ObservationModel;

    open spec fn view(&self) -> ObservationModel {
        ObservationModel {
            id: self.id,
            source_id: self.source_id,
            revision: self.revision@,
            status: self.status@,
            issues: self.issues@,
            provenance: self.provenance@,
            source_provenance: self.source_provenance@,
            file_length: self.file_length,
            file_blake3: self.file_blake3@,
            modified: self.modified,
        }
    }
}

/// A packet of an observation.
pub struct PacketRow {
    pub observation_id: i64,
    pub ordinal: i64,
    pub blob_hash: String,
    pub descriptor: String,
}

/// What a `PacketRow` stands for.
#[verifier::ext_equal]
pub struct PacketModel {
    pub observation_id: i64,
    pub ordinal: i64,
    pub blob_hash: Seq<char>,
    pub descriptor: Seq<char>,
}

impl View for PacketRow {
    type V = PacketModel;

    open spec fn view(&self) -> PacketModel {
        PacketModel {
            observation_id: self.observation_id,
            ordinal: self.ordinal,
            blob_hash: self.blob_hash@,
            descriptor: self.descriptor@,
        }
    }
}

/// An interpretation of an observation's packets.
pub struct ModelRow {
    pub id: i64,
    pub observation_id: i64,
    pub ordinal: i64,
    pub blob_hash: String,
    pub descriptor: String,
    pub projection: String,
    pub error: Option<String>,
}

/// What a `ModelRow` stands for.
#[verifier::ext_equal]
pub struct InterpretationModel {
    pub id: i64,
    pub observation_id: i64,
    pub ordinal: i64,
    pub blob_hash: Seq<char>,
    pub descriptor: Seq<char>,
    pub projection: Seq<char>,
    pub error: Option<Seq<char>>,
}

impl View for ModelRow {
    type V = InterpretationModel;

    open spec fn view(&self) -> InterpretationModel {
        InterpretationModel {
            id: self.id,
            observation_id: self.observation_id,
            ordinal: self.ordinal,
            blob_hash: self.blob_hash@,
            descriptor: self.descriptor@,
            projection: self.projection@,
            error: support::text_of(self.error),
        }
    }
}

/// The value a model gives a field.
pub struct ValueRow {
    pub model_id: i64,
    pub field: String,
    pub value: String,
    pub semantic_hash: String,
}

/// What a `ValueRow` stands for.
#[verifier::ext_equal]
pub struct ValueModel {
    pub model_id: i64,
    pub field: Seq<char>,
    pub value: Seq<char>,
    pub semantic_hash: Seq<char>,
}

impl View for ValueRow {
    type V = ValueModel;

    open spec fn view(&self) -> ValueModel {
        ValueModel {
            model_id: self.model_id,
            field: self.field@,
            value: self.value@,
            semantic_hash: self.semantic_hash@,
        }
    }
}

/// Compressed bytes that packets and models share.
pub struct BlobRow {
    pub hash: String,
    pub raw_length: i64,
    pub compressed: Vec<u8>,
}

/// What a `BlobRow` stands for.
#[verifier::ext_equal]
pub struct BlobModel {
    pub hash: Seq<char>,
    pub raw_length: i64,
    pub compressed: Seq<u8>,
}

impl View for BlobRow {
    type V = BlobModel;

    open spec fn view(&self) -> BlobModel {
        BlobModel {
            hash: self.hash@,
            raw_length: self.raw_length,
            compressed: self.compressed@,
        }
    }
}

/// A file in which an unchanged observation was found again.
pub struct FileInstanceRow {
    pub id: i64,
    pub asset_id: String,
    pub source_id: i64,
    pub evidence_hash: String,
    pub provenance: String,
    /// When the file was found to be as it is.
    pub observed_at: String,
}

/// What a `FileInstanceRow` stands for.
#[verifier::ext_equal]
pub struct FileInstanceModel {
    pub id: i64,
    pub asset_id: Seq<char>,
    pub source_id: i64,
    pub evidence_hash: Seq<char>,
    pub provenance: Seq<char>,
    pub observed_at: Seq<char>,
}

impl View for FileInstanceRow {
    type V = FileInstanceModel;

    open spec fn view(&self) -> FileInstanceModel {
        FileInstanceModel {
            id: self.id,
            asset_id: self.asset_id@,
            source_id: self.source_id,
            evidence_hash: self.evidence_hash@,
            provenance: self.provenance@,
            observed_at: self.observed_at@,
        }
    }
}

/// How an image uses a source.
pub struct ImageSourceRow {
    pub image_id: String,
    pub source_id: i64,
    pub current_observation: Option<i64>,
    pub follow_file: bool,
    pub logical_locator: Vec<u8>,
    pub association: String,
    pub availability: String,
}

/// What a `ImageSourceRow` stands for.
#[verifier::ext_equal]
pub struct ImageSourceModel {
    pub image_id: Seq<char>,
    pub source_id: i64,
    pub current_observation: Option<i64>,
    pub follow_file: bool,
    pub logical_locator: Seq<u8>,
    pub association: Seq<char>,
    pub availability: Seq<char>,
}

impl View for ImageSourceRow {
    type V = ImageSourceModel;

    open spec fn view(&self) -> ImageSourceModel {
        ImageSourceModel {
            image_id: self.image_id@,
            source_id: self.source_id,
            current_observation: self.current_observation,
            follow_file: self.follow_file,
            logical_locator: self.logical_locator@,
            association: self.association@,
            availability: self.availability@,
        }
    }
}

/// An observation in an image's history.
pub struct ImageObservationRow {
    pub image_id: String,
    pub observation_id: i64,
}

/// What a `ImageObservationRow` stands for.
#[verifier::ext_equal]
pub struct ImageObservationModel {
    pub image_id: Seq<char>,
    pub observation_id: i64,
}

impl View for ImageObservationRow {
    type V = ImageObservationModel;

    open spec fn view(&self) -> ImageObservationModel {
        ImageObservationModel {
            image_id: self.image_id@,
            observation_id: self.observation_id,
        }
    }
}

/// An image's metadata revision.
pub struct RevisionRow {
    pub image_id: String,
    pub revision: i64,
}

/// What a `RevisionRow` stands for.
#[verifier::ext_equal]
pub struct RevisionModel {
    pub image_id: Seq<char>,
    pub revision: i64,
}

impl View for RevisionRow {
    type V = RevisionModel;

    open spec fn view(&self) -> RevisionModel {
        RevisionModel {
            image_id: self.image_id@,
            revision: self.revision,
        }
    }
}

/// The model chosen for a field of an image.
pub struct ChoiceRow {
    pub image_id: String,
    pub field: String,
    pub model_id: i64,
}

/// What a `ChoiceRow` stands for.
#[verifier::ext_equal]
pub struct ChoiceModel {
    pub image_id: Seq<char>,
    pub field: Seq<char>,
    pub model_id: i64,
}

impl View for ChoiceRow {
    type V = ChoiceModel;

    open spec fn view(&self) -> ChoiceModel {
        ChoiceModel {
            image_id: self.image_id@,
            field: self.field@,
            model_id: self.model_id,
        }
    }
}

/// The value in effect for a field of an image.
pub struct EffectiveRow {
    pub image_id: String,
    pub field: String,
    pub value: Option<String>,
    pub conflicted: bool,
    pub model_id: Option<i64>,
}

/// What a `EffectiveRow` stands for.
#[verifier::ext_equal]
pub struct EffectiveModel {
    pub image_id: Seq<char>,
    pub field: Seq<char>,
    pub value: Option<Seq<char>>,
    pub conflicted: bool,
    pub model_id: Option<i64>,
}

impl View for EffectiveRow {
    type V = EffectiveModel;

    open spec fn view(&self) -> EffectiveModel {
        EffectiveModel {
            image_id: self.image_id@,
            field: self.field@,
            value: support::text_of(self.value),
            conflicted: self.conflicted,
            model_id: self.model_id,
        }
    }
}

/// What a change of an image's metadata was about.
#[derive(Clone, Debug)]
pub enum Detail {
    /// A source was observed.
    Observed { observation_id: i64 },
    /// A change of a shared source was followed.
    SharedObservation { event: i64, observation: Option<i64> },
    /// A model was chosen for a field.
    Resolved { field: String, model_id: i64 },
    /// An image was put into a collection.
    CollectionMembership { collection: String, position: i64 },
    /// An image was copied from another.
    Cloned { asset_id: String, variant_id: String },
    /// A new model was made by editing another; the edits are a document.
    Edited { base_model: Option<i64>, observation_id: i64, edits: String },
    /// A source could not be read any more.
    Unavailable { kind: String, display: String, reason: String },
    /// Something said in the words of whoever made the change.
    Note { text: String },
}

/// What a `Detail` stands for.
#[verifier::ext_equal]
pub enum DetailModel {
    Observed { observation_id: i64 },
    SharedObservation { event: i64, observation: Option<i64> },
    Resolved { field: Seq<char>, model_id: i64 },
    CollectionMembership { collection: Seq<char>, position: i64 },
    Cloned { asset_id: Seq<char>, variant_id: Seq<char> },
    Edited { base_model: Option<i64>, observation_id: i64, edits: Seq<char> },
    Unavailable { kind: Seq<char>, display: Seq<char>, reason: Seq<char> },
    Note { text: Seq<char> },
}

impl View for Detail {
    type V = DetailModel;

    open spec fn view(&self) -> DetailModel {
        match *self {
            Detail::Observed { observation_id } => DetailModel::Observed { observation_id },
            Detail::SharedObservation { event, observation } => DetailModel::SharedObservation {
                event,
                observation,
            },
            Detail::Resolved { field, model_id } => DetailModel::Resolved {
                field: field@,
                model_id,
            },
            Detail::CollectionMembership { collection, position } => {
                DetailModel::CollectionMembership { collection: collection@, position }
            },
            Detail::Cloned { asset_id, variant_id } => DetailModel::Cloned {
                asset_id: asset_id@,
                variant_id: variant_id@,
            },
            Detail::Edited { base_model, observation_id, edits } => DetailModel::Edited {
                base_model,
                observation_id,
                edits: edits@,
            },
            Detail::Unavailable { kind, display, reason } => DetailModel::Unavailable {
                kind: kind@,
                display: display@,
                reason: reason@,
            },
            Detail::Note { text } => DetailModel::Note { text: text@ },
        }
    }
}

/// A change of an image's metadata.
pub struct HistoryRow {
    pub id: i64,
    pub image_id: String,
    pub revision: i64,
    pub action: String,
    pub detail: Detail,
    pub created_at: String,
}

/// What a `HistoryRow` stands for.
#[verifier::ext_equal]
pub struct HistoryModel {
    pub id: i64,
    pub image_id: Seq<char>,
    pub revision: i64,
    pub action: Seq<char>,
    pub detail: DetailModel,
    pub created_at: Seq<char>,
}

impl View for HistoryRow {
    type V = HistoryModel;

    open spec fn view(&self) -> HistoryModel {
        HistoryModel {
            id: self.id,
            image_id: self.image_id@,
            revision: self.revision,
            action: self.action@,
            detail: self.detail@,
            created_at: self.created_at@,
        }
    }
}

/// The value in effect for a field: none where candidates disagree or a chosen
/// model no longer offers one.
#[verifier::ext_equal]
pub struct EffectiveValue {
    pub value: Option<Seq<char>>,
    pub conflicted: bool,
    pub model_id: Option<i64>,
}

pub open spec fn effective_for(k: (Seq<char>, Seq<char>)) -> spec_fn(EffectiveModel) -> bool {
    |r: EffectiveModel| r.image_id == k.0 && r.field == k.1
}

/// The values in effect, by image and field.
pub open spec fn effective_values(rows: Seq<EffectiveModel>) -> Map<
    (Seq<char>, Seq<char>),
    EffectiveValue,
> {
    Map::new(
        |k: (Seq<char>, Seq<char>)| support::first_where(rows, effective_for(k)) is Some,
        |k: (Seq<char>, Seq<char>)|
            {
                let row = rows[support::first_where(rows, effective_for(k))->0];
                EffectiveValue {
                    value: row.value,
                    conflicted: row.conflicted,
                    model_id: row.model_id,
                }
            },
    )
}

/// Everything a catalog keeps of its images and their metadata.
pub struct Tables {
    pub assets: Vec<Asset>,
    pub images: Vec<ImageRow>,
    pub reservations: Vec<Reservation>,
    pub storage_events: Vec<StorageEvent>,
    pub variants: Vec<Variant>,
    pub import_map: Vec<ImportMapping>,
    pub shared_events: Vec<SharedEvent>,
    pub sources: Vec<SourceRow>,
    pub observations: Vec<ObservationRow>,
    pub packets: Vec<PacketRow>,
    pub models: Vec<ModelRow>,
    pub values: Vec<ValueRow>,
    pub blobs: Vec<BlobRow>,
    pub file_instances: Vec<FileInstanceRow>,
    pub image_sources: Vec<ImageSourceRow>,
    pub image_observations: Vec<ImageObservationRow>,
    pub revisions: Vec<RevisionRow>,
    pub choices: Vec<ChoiceRow>,
    pub effective: Vec<EffectiveRow>,
    pub history: Vec<HistoryRow>,
    /// The last image sequence number given out.
    pub image_high: i64,
    /// The last shared event number given out.
    pub event_high: i64,
    /// The last source number given out.
    pub source_high: i64,
    /// The last observation number given out.
    pub observation_high: i64,
    /// The last model number given out.
    pub model_high: i64,
    /// The last file instance number given out.
    pub instance_high: i64,
    /// The last history number given out.
    pub history_high: i64,
    /// The time that changes are recorded with.
    pub clock: String,
}

/// What `Tables` stand for.
#[verifier::ext_equal]
pub struct TablesModel {
    pub assets: Seq<AssetModel>,
    pub images: Seq<ImageModel>,
    pub reservations: Seq<ReservationModel>,
    pub storage_events: Seq<StorageEventModel>,
    pub variants: Seq<VariantModel>,
    pub import_map: Seq<ImportMappingModel>,
    pub shared_events: Seq<SharedEventModel>,
    pub sources: Seq<SourceModel>,
    pub observations: Seq<ObservationModel>,
    pub packets: Seq<PacketModel>,
    pub models: Seq<InterpretationModel>,
    pub values: Seq<ValueModel>,
    pub blobs: Seq<BlobModel>,
    pub file_instances: Seq<FileInstanceModel>,
    pub image_sources: Seq<ImageSourceModel>,
    pub image_observations: Seq<ImageObservationModel>,
    pub revisions: Seq<RevisionModel>,
    pub choices: Seq<ChoiceModel>,
    pub effective: Map<(Seq<char>, Seq<char>), EffectiveValue>,
    pub history: Seq<HistoryModel>,
    pub image_high: i64,
    pub event_high: i64,
    pub source_high: i64,
    pub observation_high: i64,
    pub model_high: i64,
    pub instance_high: i64,
    pub history_high: i64,
    pub clock: Seq<char>,
}

impl View for Tables {
    type V = TablesModel;

    open spec fn view(&self) -> TablesModel {
        TablesModel {
            assets: support::models(self.assets@),
            images: support::models(self.images@),
            reservations: support::models(self.reservations@),
            storage_events: support::models(self.storage_events@),
            variants: support::models(self.variants@),
            import_map: support::models(self.import_map@),
            shared_events: support::models(self.shared_events@),
            sources: support::models(self.sources@),
            observations: support::models(self.observations@),
            packets: support::models(self.packets@),
            models: support::models(self.models@),
            values: support::models(self.values@),
            blobs: support::models(self.blobs@),
            file_instances: support::models(self.file_instances@),
            image_sources: support::models(self.image_sources@),
            image_observations: support::models(self.image_observations@),
            revisions: support::models(self.revisions@),
            choices: support::models(self.choices@),
            effective: effective_values(support::models(self.effective@)),
            history: support::models(self.history@),
            image_high: self.image_high,
            event_high: self.event_high,
            source_high: self.source_high,
            observation_high: self.observation_high,
            model_high: self.model_high,
            instance_high: self.instance_high,
            history_high: self.history_high,
            clock: self.clock@,
        }
    }
}

impl Tables {
    /// Tables without any row.
    pub fn new() -> (t: Self)
        ensures
            t@ == TablesModel::empty(),
    {
        let t: Tables = Tables {
            assets: Vec::new(),
            images: Vec::new(),
            reservations: Vec::new(),
            storage_events: Vec::new(),
            variants: Vec::new(),
            import_map: Vec::new(),
            shared_events: Vec::new(),
            sources: Vec::new(),
            observations: Vec::new(),
            packets: Vec::new(),
            models: Vec::new(),
            values: Vec::new(),
            blobs: Vec::new(),
            file_instances: Vec::new(),
            image_sources: Vec::new(),
            image_observations: Vec::new(),
            revisions: Vec::new(),
            choices: Vec::new(),
            effective: Vec::new(),
            history: Vec::new(),
            image_high: 0,
            event_high: 0,
            source_high: 0,
            observation_high: 0,
            model_high: 0,
            instance_high: 0,
            history_high: 0,
            clock: String::new(),
        };
        proof {
            assert forall|k: (Seq<char>, Seq<char>)| !t@.effective.contains_key(k) by {
                support::lemma_none_found(support::models(t.effective@), effective_for(k));
            }
        }
        assert(t@ =~= TablesModel::empty());
        t
    }
}

impl TablesModel {
    /// Tables without any row.
    pub open spec fn empty() -> Self {
        TablesModel {
            assets: Seq::empty(),
            images: Seq::empty(),
            reservations: Seq::empty(),
            storage_events: Seq::empty(),
            variants: Seq::empty(),
            import_map: Seq::empty(),
            shared_events: Seq::empty(),
            sources: Seq::empty(),
            observations: Seq::empty(),
            packets: Seq::empty(),
            models: Seq::empty(),
            values: Seq::empty(),
            blobs: Seq::empty(),
            file_instances: Seq::empty(),
            image_sources: Seq::empty(),
            image_observations: Seq::empty(),
            revisions: Seq::empty(),
            choices: Seq::empty(),
            effective: Map::empty(),
            history: Seq::empty(),
            image_high: 0,
            event_high: 0,
            source_high: 0,
            observation_high: 0,
            model_high: 0,
            instance_high: 0,
            history_high: 0,
            clock: Seq::empty(),
        }
    }
}

} // verus!

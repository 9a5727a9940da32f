//! Copies of rows, for changes that have to take effect as a whole or not at all.
use crate::support;
use crate::support::{copy_bytes, copy_option};
use crate::tables::{
    Asset, BlobRow, ChoiceRow, Detail, EffectiveRow, FileInstanceRow, HistoryRow,
    ImageObservationRow, ImageRow, ImageSourceRow, ImportMapping, ModelRow, ObservationRow,
    PacketRow, Reservation, RevisionRow, SharedEvent, SourceRow, StorageEvent, Tables, ValueRow,
    Variant,
};
use vstd::prelude::*;

verus! {

/// A row that can be copied.
pub trait Copied: View + Sized {
    /// A row that stands for the same thing.
    fn copied(&self) -> (c: Self)
        ensures
            c@ == self@,
    ;
}

/// Rows that stand for the same things.
pub fn copy_rows<T: Copied>(rows: &Vec<T>) -> (copy: Vec<T>)
    ensures
        support::models(copy@) == support::models(rows@),
{
    let mut copy: Vec<T> = Vec::new();
    let mut i: usize = 0;
    while i < rows.len()
        invariant
            i <= rows@.len(),
            copy@.len() == i,
            forall|j: int| 0 <= j < i ==> (#[trigger] copy@[j])@ == rows@[j]@,
        decreases rows@.len() - i,
    {
        let row: T = rows[i].copied();
        copy.push(row);
        i += 1;
    }
    assert(support::models(copy@) =~= support::models(rows@));
    copy
}

impl Copied for Asset {
    fn copied(&self) -> (c: Self) {
        Asset {
            id: self.id.clone(),
            location: copy_bytes(self.location.as_slice()),
            fingerprint: copy_option(&self.fingerprint),
            state: self.state.clone(),
            render_generation: self.render_generation,
            physical_generation: self.physical_generation,
            shared_epoch: self.shared_epoch,
        }
    }
}

impl Copied for ImageRow {
    fn copied(&self) -> (c: Self) {
        ImageRow {
            sequence: self.sequence,
            id: self.id.clone(),
            asset_id: self.asset_id.clone(),
            variant_id: self.variant_id.clone(),
            role: self.role,
            imported: self.imported,
            master_sequence: self.master_sequence,
            copied_from_sequence: self.copied_from_sequence,
            translation_state: self.translation_state,
            pixel_generation: self.pixel_generation,
            applied_shared_epoch: self.applied_shared_epoch,
        }
    }
}

impl Copied for Reservation {
    fn copied(&self) -> (c: Self) {
        Reservation {
            asset_id: self.asset_id.clone(),
            owner: self.owner.clone(),
        }
    }
}

impl Copied for StorageEvent {
    fn copied(&self) -> (c: Self) {
        StorageEvent {
            asset_id: self.asset_id.clone(),
            high_water: self.high_water,
            cursor: self.cursor,
        }
    }
}

impl Copied for Variant {
    fn copied(&self) -> (c: Self) {
        Variant {
            asset_id: self.asset_id.clone(),
            id: self.id.clone(),
            label: self.label.clone(),
        }
    }
}

impl Copied for ImportMapping {
    fn copied(&self) -> (c: Self) {
        ImportMapping {
            import_source: self.import_source.clone(),
            capture_revision: self.capture_revision.clone(),
            source_table: self.source_table.clone(),
            source_id: self.source_id.clone(),
            input_digest: self.input_digest.clone(),
            adapter_version: self.adapter_version.clone(),
            image_id: self.image_id.clone(),
        }
    }
}

impl Copied for SharedEvent {
    fn copied(&self) -> (c: Self) {
        SharedEvent {
            id: self.id,
            asset_id: self.asset_id.clone(),
            epoch: self.epoch,
            source_id: self.source_id,
            observation_id: self.observation_id,
            current_observation: self.current_observation,
            association: self.association.clone(),
            availability: self.availability.clone(),
            high_water: self.high_water,
            cursor: self.cursor,
        }
    }
}

impl Copied for SourceRow {
    fn copied(&self) -> (c: Self) {
        SourceRow {
            id: self.id,
            asset_id: self.asset_id.clone(),
            kind: self.kind.clone(),
            locator: copy_bytes(self.locator.as_slice()),
            display: self.display.clone(),
            association: self.association.clone(),
            availability: self.availability.clone(),
            current_observation: self.current_observation,
        }
    }
}

impl Copied for ObservationRow {
    fn copied(&self) -> (c: Self) {
        ObservationRow {
            id: self.id,
            source_id: self.source_id,
            revision: self.revision.clone(),
            status: self.status.clone(),
            issues: self.issues.clone(),
            provenance: self.provenance.clone(),
            source_provenance: self.source_provenance.clone(),
            file_length: self.file_length,
            file_blake3: self.file_blake3.clone(),
            modified: self.modified,
        }
    }
}

impl Copied for PacketRow {
    fn copied(&self) -> (c: Self) {
        PacketRow {
            observation_id: self.observation_id,
            ordinal: self.ordinal,
            blob_hash: self.blob_hash.clone(),
            descriptor: self.descriptor.clone(),
        }
    }
}

impl Copied for ModelRow {
    fn copied(&self) -> (c: Self) {
        ModelRow {
            id: self.id,
            observation_id: self.observation_id,
            ordinal: self.ordinal,
            blob_hash: self.blob_hash.clone(),
            descriptor: self.descriptor.clone(),
            projection: self.projection.clone(),
            error: copy_option(&self.error),
        }
    }
}

impl Copied for ValueRow {
    fn copied(&self) -> (c: Self) {
        ValueRow {
            model_id: self.model_id,
            field: self.field.clone(),
            value: self.value.clone(),
            semantic_hash: self.semantic_hash.clone(),
        }
    }
}

impl Copied for BlobRow {
    fn copied(&self) -> (c: Self) {
        BlobRow {
            hash: self.hash.clone(),
            raw_length: self.raw_length,
            compressed: copy_bytes(self.compressed.as_slice()),
        }
    }
}

impl Copied for FileInstanceRow {
    fn copied(&self) -> (c: Self) {
        FileInstanceRow {
            id: self.id,
            asset_id: self.asset_id.clone(),
            source_id: self.source_id,
            evidence_hash: self.evidence_hash.clone(),
            provenance: self.provenance.clone(),
            observed_at: self.observed_at.clone(),
        }
    }
}

impl Copied for ImageSourceRow {
    fn copied(&self) -> (c: Self) {
        ImageSourceRow {
            image_id: self.image_id.clone(),
            source_id: self.source_id,
            current_observation: self.current_observation,
            follow_file: self.follow_file,
            logical_locator: copy_bytes(self.logical_locator.as_slice()),
            association: self.association.clone(),
            availability: self.availability.clone(),
        }
    }
}

impl Copied for ImageObservationRow {
    fn copied(&self) -> (c: Self) {
        ImageObservationRow {
            image_id: self.image_id.clone(),
            observation_id: self.observation_id,
        }
    }
}

impl Copied for RevisionRow {
    fn copied(&self) -> (c: Self) {
        RevisionRow {
            image_id: self.image_id.clone(),
            revision: self.revision,
        }
    }
}

impl Copied for ChoiceRow {
    fn copied(&self) -> (c: Self) {
        ChoiceRow {
            image_id: self.image_id.clone(),
            field: self.field.clone(),
            model_id: self.model_id,
        }
    }
}

impl Copied for EffectiveRow {
    fn copied(&self) -> (c: Self) {
        EffectiveRow {
            image_id: self.image_id.clone(),
            field: self.field.clone(),
            value: copy_option(&self.value),
            conflicted: self.conflicted,
            model_id: self.model_id,
        }
    }
}

impl Copied for HistoryRow {
    fn copied(&self) -> (c: Self) {
        HistoryRow {
            id: self.id,
            image_id: self.image_id.clone(),
            revision: self.revision,
            action: self.action.clone(),
            detail: self.detail.copied(),
            created_at: self.created_at.clone(),
        }
    }
}

impl Copied for Detail {
    fn copied(&self) -> (c: Self) {
        match self {
            Detail::Observed { observation_id } => Detail::Observed {
                observation_id: *observation_id,
            },
            Detail::SharedObservation { event, observation } => Detail::SharedObservation {
                event: *event,
                observation: *observation,
            },
            Detail::Resolved { field, model_id } => Detail::Resolved {
                field: field.clone(),
                model_id: *model_id,
            },
            Detail::CollectionMembership { collection, position } => Detail::CollectionMembership {
                collection: collection.clone(),
                position: *position,
            },
            Detail::Cloned { asset_id, variant_id } => Detail::Cloned {
                asset_id: asset_id.clone(),
                variant_id: variant_id.clone(),
            },
            Detail::Edited { base_model, observation_id, edits } => Detail::Edited {
                base_model: *base_model,
                observation_id: *observation_id,
                edits: edits.clone(),
            },
            Detail::Unavailable { kind, display, reason } => Detail::Unavailable {
                kind: kind.clone(),
                display: display.clone(),
                reason: reason.clone(),
            },
            Detail::Note { text } => Detail::Note { text: text.clone() },
        }
    }
}

impl Copied for Tables {
    fn copied(&self) -> (c: Self) {
        let c: Tables = Tables {
            assets: copy_rows(&self.assets),
            images: copy_rows(&self.images),
            reservations: copy_rows(&self.reservations),
            storage_events: copy_rows(&self.storage_events),
            variants: copy_rows(&self.variants),
            import_map: copy_rows(&self.import_map),
            shared_events: copy_rows(&self.shared_events),
            sources: copy_rows(&self.sources),
            observations: copy_rows(&self.observations),
            packets: copy_rows(&self.packets),
            models: copy_rows(&self.models),
            values: copy_rows(&self.values),
            blobs: copy_rows(&self.blobs),
            file_instances: copy_rows(&self.file_instances),
            image_sources: copy_rows(&self.image_sources),
            image_observations: copy_rows(&self.image_observations),
            revisions: copy_rows(&self.revisions),
            choices: copy_rows(&self.choices),
            effective: copy_rows(&self.effective),
            history: copy_rows(&self.history),
            image_high: self.image_high,
            event_high: self.event_high,
            source_high: self.source_high,
            observation_high: self.observation_high,
            model_high: self.model_high,
            instance_high: self.instance_high,
            history_high: self.history_high,
            clock: self.clock.clone(),
        };
        assert(c@ =~= self@);
        c
    }
}

} // verus!

//! Finding rows by their keys.
use crate::support;
use crate::support::{find, same, same_bytes};
use crate::tables;
use crate::tables::{
    Asset, BlobRow, ChoiceRow, FileInstanceRow, ImageObservationRow, ImageRow,
    ImageSourceRow, ImportMapping, ModelRow, ObservationRow, Reservation, RevisionRow, SourceRow,
    StorageEvent, Tables, TablesModel, ValueRow, Variant,
};
use vstd::prelude::*;

verus! {

pub open spec fn image_with_id(id: Seq<char>) -> spec_fn(tables::ImageModel) -> bool {
    |r: tables::ImageModel| r.id == id
}

pub open spec fn image_with_key(asset: Seq<char>, variant: Seq<char>) -> spec_fn(tables::ImageModel) -> bool {
    |r: tables::ImageModel| r.asset_id == asset && r.variant_id == variant
}

pub open spec fn asset_with_id(id: Seq<char>) -> spec_fn(tables::AssetModel) -> bool {
    |r: tables::AssetModel| r.id == id
}

pub open spec fn reservation_for(asset: Seq<char>) -> spec_fn(tables::ReservationModel) -> bool {
    |r: tables::ReservationModel| r.asset_id == asset
}

pub open spec fn storage_event_for(asset: Seq<char>) -> spec_fn(tables::StorageEventModel) -> bool {
    |r: tables::StorageEventModel| r.asset_id == asset
}

pub open spec fn mapping_for(owner: Seq<char>, capture: Seq<char>, table: Seq<char>, id: Seq<char>) -> spec_fn(tables::ImportMappingModel) -> bool {
    |r: tables::ImportMappingModel| r.import_source == owner && r.capture_revision == capture && r.source_table == table && r.source_id == id
}

pub open spec fn mapping_to(image: Seq<char>) -> spec_fn(tables::ImportMappingModel) -> bool {
    |r: tables::ImportMappingModel| r.image_id == image
}

pub open spec fn variant_with_asset(asset: Seq<char>) -> spec_fn(tables::VariantModel) -> bool {
    |r: tables::VariantModel| r.asset_id == asset
}

pub open spec fn source_with_id(id: i64) -> spec_fn(tables::SourceModel) -> bool {
    |r: tables::SourceModel| r.id == id
}

pub open spec fn source_with_name(asset: Seq<char>, kind: Seq<char>, locator: Seq<u8>) -> spec_fn(tables::SourceModel) -> bool {
    |r: tables::SourceModel| r.asset_id == asset && r.kind == kind && r.locator == locator
}

pub open spec fn observation_with_id(id: i64) -> spec_fn(tables::ObservationModel) -> bool {
    |r: tables::ObservationModel| r.id == id
}

pub open spec fn observation_with_name(source: i64, revision: Seq<char>) -> spec_fn(tables::ObservationModel) -> bool {
    |r: tables::ObservationModel| r.source_id == source && r.revision == revision
}

pub open spec fn model_with_id(id: i64) -> spec_fn(tables::InterpretationModel) -> bool {
    |r: tables::InterpretationModel| r.id == id
}

pub open spec fn value_for(model: i64, field: Seq<char>) -> spec_fn(tables::ValueModel) -> bool {
    |r: tables::ValueModel| r.model_id == model && r.field == field
}

pub open spec fn blob_with_hash(hash: Seq<char>) -> spec_fn(tables::BlobModel) -> bool {
    |r: tables::BlobModel| r.hash == hash
}

pub open spec fn instance_with(source: i64, hash: Seq<char>) -> spec_fn(tables::FileInstanceModel) -> bool {
    |r: tables::FileInstanceModel| r.source_id == source && r.evidence_hash == hash
}

pub open spec fn image_source_for(image: Seq<char>, source: i64) -> spec_fn(tables::ImageSourceModel) -> bool {
    |r: tables::ImageSourceModel| r.image_id == image && r.source_id == source
}

pub open spec fn image_observation_for(image: Seq<char>, observation: i64) -> spec_fn(tables::ImageObservationModel) -> bool {
    |r: tables::ImageObservationModel| r.image_id == image && r.observation_id == observation
}

pub open spec fn revision_for(image: Seq<char>) -> spec_fn(tables::RevisionModel) -> bool {
    |r: tables::RevisionModel| r.image_id == image
}

pub open spec fn choice_for(image: Seq<char>, field: Seq<char>) -> spec_fn(tables::ChoiceModel) -> bool {
    |r: tables::ChoiceModel| r.image_id == image && r.field == field
}

impl TablesModel {
    /// The image with an identity.
    pub open spec fn image_at(self, id: Seq<char>) -> Option<int> {
        support::first_where(self.images, image_with_id(id))
    }

    /// The image of a variant of a physical file.
    pub open spec fn image_of(self, asset: Seq<char>, variant: Seq<char>) -> Option<int> {
        support::first_where(self.images, image_with_key(asset, variant))
    }

    /// The physical file with an identity.
    pub open spec fn asset_at(self, id: Seq<char>) -> Option<int> {
        support::first_where(self.assets, asset_with_id(id))
    }

    /// The reservation of a physical file.
    pub open spec fn reservation_at(self, asset: Seq<char>) -> Option<int> {
        support::first_where(self.reservations, reservation_for(asset))
    }

    /// The storage event of a physical file.
    pub open spec fn storage_event_at(self, asset: Seq<char>) -> Option<int> {
        support::first_where(self.storage_events, storage_event_for(asset))
    }

    /// The mapping of a source record.
    pub open spec fn mapping_at(self, owner: Seq<char>, capture: Seq<char>, table: Seq<char>, id: Seq<char>) -> Option<int> {
        support::first_where(self.import_map, mapping_for(owner, capture, table, id))
    }

    /// The mapping that leads to an image.
    pub open spec fn mapping_of(self, image: Seq<char>) -> Option<int> {
        support::first_where(self.import_map, mapping_to(image))
    }

    /// A variant of a physical file that has an edit history.
    pub open spec fn variant_of(self, asset: Seq<char>) -> Option<int> {
        support::first_where(self.variants, variant_with_asset(asset))
    }

    /// The source with a number.
    pub open spec fn source_at(self, id: i64) -> Option<int> {
        support::first_where(self.sources, source_with_id(id))
    }

    /// The source of a physical file with a kind and a locator.
    pub open spec fn source_named(self, asset: Seq<char>, kind: Seq<char>, locator: Seq<u8>) -> Option<int> {
        support::first_where(self.sources, source_with_name(asset, kind, locator))
    }

    /// The observation with a number.
    pub open spec fn observation_at(self, id: i64) -> Option<int> {
        support::first_where(self.observations, observation_with_id(id))
    }

    /// The observation of a source with a revision.
    pub open spec fn observation_named(self, source: i64, revision: Seq<char>) -> Option<int> {
        support::first_where(self.observations, observation_with_name(source, revision))
    }

    /// The model with a number.
    pub open spec fn model_at(self, id: i64) -> Option<int> {
        support::first_where(self.models, model_with_id(id))
    }

    /// The value a model gives a field.
    pub open spec fn value_at(self, model: i64, field: Seq<char>) -> Option<int> {
        support::first_where(self.values, value_for(model, field))
    }

    /// The shared bytes with a hash.
    pub open spec fn blob_at(self, hash: Seq<char>) -> Option<int> {
        support::first_where(self.blobs, blob_with_hash(hash))
    }

    /// The file instance of a source with an evidence hash.
    pub open spec fn instance_at(self, source: i64, hash: Seq<char>) -> Option<int> {
        support::first_where(self.file_instances, instance_with(source, hash))
    }

    /// How an image uses a source.
    pub open spec fn image_source_at(self, image: Seq<char>, source: i64) -> Option<int> {
        support::first_where(self.image_sources, image_source_for(image, source))
    }

    /// An observation in an image's history.
    pub open spec fn image_observation_at(self, image: Seq<char>, observation: i64) -> Option<int> {
        support::first_where(self.image_observations, image_observation_for(image, observation))
    }

    /// The revision of an image.
    pub open spec fn revision_at(self, image: Seq<char>) -> Option<int> {
        support::first_where(self.revisions, revision_for(image))
    }

    /// The choice for a field of an image.
    pub open spec fn choice_at(self, image: Seq<char>, field: Seq<char>) -> Option<int> {
        support::first_where(self.choices, choice_for(image, field))
    }
}

impl Tables {
    pub(crate) fn find_image_at(&self, id: &str) -> (r: Option<usize>)
        ensures
            match r {
                Some(i) => i < self.images@.len() && self@.image_at(id@) == Some(i as int)
                    && image_with_id(id@)(self.images@[i as int]@),
                None => self@.image_at(id@) is None,
            },
    {
        let test = |r: &ImageRow| -> (b: bool)
            ensures b == image_with_id(id@)(r@)
        {
            same(r.id.as_str(), id)
        };
        find(&self.images, test, Ghost(image_with_id(id@)))
    }

    pub(crate) fn find_image_of(&self, asset: &str, variant: &str) -> (r: Option<usize>)
        ensures
            match r {
                Some(i) => i < self.images@.len() && self@.image_of(asset@, variant@) == Some(i as int)
                    && image_with_key(asset@, variant@)(self.images@[i as int]@),
                None => self@.image_of(asset@, variant@) is None,
            },
    {
        let test = |r: &ImageRow| -> (b: bool)
            ensures b == image_with_key(asset@, variant@)(r@)
        {
            same(r.asset_id.as_str(), asset) && same(r.variant_id.as_str(), variant)
        };
        find(&self.images, test, Ghost(image_with_key(asset@, variant@)))
    }

    pub(crate) fn find_asset_at(&self, id: &str) -> (r: Option<usize>)
        ensures
            match r {
                Some(i) => i < self.assets@.len() && self@.asset_at(id@) == Some(i as int)
                    && asset_with_id(id@)(self.assets@[i as int]@),
                None => self@.asset_at(id@) is None,
            },
    {
        let test = |r: &Asset| -> (b: bool)
            ensures b == asset_with_id(id@)(r@)
        {
            same(r.id.as_str(), id)
        };
        find(&self.assets, test, Ghost(asset_with_id(id@)))
    }

    pub(crate) fn find_reservation_at(&self, asset: &str) -> (r: Option<usize>)
        ensures
            match r {
                Some(i) => i < self.reservations@.len() && self@.reservation_at(asset@) == Some(i as int)
                    && reservation_for(asset@)(self.reservations@[i as int]@),
                None => self@.reservation_at(asset@) is None,
            },
    {
        let test = |r: &Reservation| -> (b: bool)
            ensures b == reservation_for(asset@)(r@)
        {
            same(r.asset_id.as_str(), asset)
        };
        find(&self.reservations, test, Ghost(reservation_for(asset@)))
    }

    pub(crate) fn find_storage_event_at(&self, asset: &str) -> (r: Option<usize>)
        ensures
            match r {
                Some(i) => i < self.storage_events@.len() && self@.storage_event_at(asset@) == Some(i as int)
                    && storage_event_for(asset@)(self.storage_events@[i as int]@),
                None => self@.storage_event_at(asset@) is None,
            },
    {
        let test = |r: &StorageEvent| -> (b: bool)
            ensures b == storage_event_for(asset@)(r@)
        {
            same(r.asset_id.as_str(), asset)
        };
        find(&self.storage_events, test, Ghost(storage_event_for(asset@)))
    }

    pub(crate) fn find_mapping_at(&self, owner: &str, capture: &str, table: &str, id: &str) -> (r: Option<usize>)
        ensures
            match r {
                Some(i) => i < self.import_map@.len() && self@.mapping_at(owner@, capture@, table@, id@) == Some(i as int)
                    && mapping_for(owner@, capture@, table@, id@)(self.import_map@[i as int]@),
                None => self@.mapping_at(owner@, capture@, table@, id@) is None,
            },
    {
        let test = |r: &ImportMapping| -> (b: bool)
            ensures b == mapping_for(owner@, capture@, table@, id@)(r@)
        {
            same(r.import_source.as_str(), owner) && same(r.capture_revision.as_str(), capture) && same(r.source_table.as_str(), table) && same(r.source_id.as_str(), id)
        };
        find(&self.import_map, test, Ghost(mapping_for(owner@, capture@, table@, id@)))
    }

    pub(crate) fn find_mapping_of(&self, image: &str) -> (r: Option<usize>)
        ensures
            match r {
                Some(i) => i < self.import_map@.len() && self@.mapping_of(image@) == Some(i as int)
                    && mapping_to(image@)(self.import_map@[i as int]@),
                None => self@.mapping_of(image@) is None,
            },
    {
        let test = |r: &ImportMapping| -> (b: bool)
            ensures b == mapping_to(image@)(r@)
        {
            same(r.image_id.as_str(), image)
        };
        find(&self.import_map, test, Ghost(mapping_to(image@)))
    }

    pub(crate) fn find_variant_of(&self, asset: &str) -> (r: Option<usize>)
        ensures
            match r {
                Some(i) => i < self.variants@.len() && self@.variant_of(asset@) == Some(i as int)
                    && variant_with_asset(asset@)(self.variants@[i as int]@),
                None => self@.variant_of(asset@) is None,
            },
    {
        let test = |r: &Variant| -> (b: bool)
            ensures b == variant_with_asset(asset@)(r@)
        {
            same(r.asset_id.as_str(), asset)
        };
        find(&self.variants, test, Ghost(variant_with_asset(asset@)))
    }

    pub(crate) fn find_source_at(&self, id: i64) -> (r: Option<usize>)
        ensures
            match r {
                Some(i) => i < self.sources@.len() && self@.source_at(id) == Some(i as int)
                    && source_with_id(id)(self.sources@[i as int]@),
                None => self@.source_at(id) is None,
            },
    {
        let test = |r: &SourceRow| -> (b: bool)
            ensures b == source_with_id(id)(r@)
        {
            r.id == id
        };
        find(&self.sources, test, Ghost(source_with_id(id)))
    }

    pub(crate) fn find_source_named(&self, asset: &str, kind: &str, locator: &[u8]) -> (r: Option<usize>)
        ensures
            match r {
                Some(i) => i < self.sources@.len() && self@.source_named(asset@, kind@, locator@) == Some(i as int)
                    && source_with_name(asset@, kind@, locator@)(self.sources@[i as int]@),
                None => self@.source_named(asset@, kind@, locator@) is None,
            },
    {
        let test = |r: &SourceRow| -> (b: bool)
            ensures b == source_with_name(asset@, kind@, locator@)(r@)
        {
            same(r.asset_id.as_str(), asset) && same(r.kind.as_str(), kind) && same_bytes(r.locator.as_slice(), locator)
        };
        find(&self.sources, test, Ghost(source_with_name(asset@, kind@, locator@)))
    }

    pub(crate) fn find_observation_at(&self, id: i64) -> (r: Option<usize>)
        ensures
            match r {
                Some(i) => i < self.observations@.len() && self@.observation_at(id) == Some(i as int)
                    && observation_with_id(id)(self.observations@[i as int]@),
                None => self@.observation_at(id) is None,
            },
    {
        let test = |r: &ObservationRow| -> (b: bool)
            ensures b == observation_with_id(id)(r@)
        {
            r.id == id
        };
        find(&self.observations, test, Ghost(observation_with_id(id)))
    }

    pub(crate) fn find_observation_named(&self, source: i64, revision: &str) -> (r: Option<usize>)
        ensures
            match r {
                Some(i) => i < self.observations@.len() && self@.observation_named(source, revision@) == Some(i as int)
                    && observation_with_name(source, revision@)(self.observations@[i as int]@),
                None => self@.observation_named(source, revision@) is None,
            },
    {
        let test = |r: &ObservationRow| -> (b: bool)
            ensures b == observation_with_name(source, revision@)(r@)
        {
            r.source_id == source && same(r.revision.as_str(), revision)
        };
        find(&self.observations, test, Ghost(observation_with_name(source, revision@)))
    }

    pub(crate) fn find_model_at(&self, id: i64) -> (r: Option<usize>)
        ensures
            match r {
                Some(i) => i < self.models@.len() && self@.model_at(id) == Some(i as int)
                    && model_with_id(id)(self.models@[i as int]@),
                None => self@.model_at(id) is None,
            },
    {
        let test = |r: &ModelRow| -> (b: bool)
            ensures b == model_with_id(id)(r@)
        {
            r.id == id
        };
        find(&self.models, test, Ghost(model_with_id(id)))
    }

    pub(crate) fn find_value_at(&self, model: i64, field: &str) -> (r: Option<usize>)
        ensures
            match r {
                Some(i) => i < self.values@.len() && self@.value_at(model, field@) == Some(i as int)
                    && value_for(model, field@)(self.values@[i as int]@),
                None => self@.value_at(model, field@) is None,
            },
    {
        let test = |r: &ValueRow| -> (b: bool)
            ensures b == value_for(model, field@)(r@)
        {
            r.model_id == model && same(r.field.as_str(), field)
        };
        find(&self.values, test, Ghost(value_for(model, field@)))
    }

    pub(crate) fn find_blob_at(&self, hash: &str) -> (r: Option<usize>)
        ensures
            match r {
                Some(i) => i < self.blobs@.len() && self@.blob_at(hash@) == Some(i as int)
                    && blob_with_hash(hash@)(self.blobs@[i as int]@),
                None => self@.blob_at(hash@) is None,
            },
    {
        let test = |r: &BlobRow| -> (b: bool)
            ensures b == blob_with_hash(hash@)(r@)
        {
            same(r.hash.as_str(), hash)
        };
        find(&self.blobs, test, Ghost(blob_with_hash(hash@)))
    }

    pub(crate) fn find_instance_at(&self, source: i64, hash: &str) -> (r: Option<usize>)
        ensures
            match r {
                Some(i) => i < self.file_instances@.len() && self@.instance_at(source, hash@) == Some(i as int)
                    && instance_with(source, hash@)(self.file_instances@[i as int]@),
                None => self@.instance_at(source, hash@) is None,
            },
    {
        let test = |r: &FileInstanceRow| -> (b: bool)
            ensures b == instance_with(source, hash@)(r@)
        {
            r.source_id == source && same(r.evidence_hash.as_str(), hash)
        };
        find(&self.file_instances, test, Ghost(instance_with(source, hash@)))
    }

    pub(crate) fn find_image_source_at(&self, image: &str, source: i64) -> (r: Option<usize>)
        ensures
            match r {
                Some(i) => i < self.image_sources@.len() && self@.image_source_at(image@, source) == Some(i as int)
                    && image_source_for(image@, source)(self.image_sources@[i as int]@),
                None => self@.image_source_at(image@, source) is None,
            },
    {
        let test = |r: &ImageSourceRow| -> (b: bool)
            ensures b == image_source_for(image@, source)(r@)
        {
            r.source_id == source && same(r.image_id.as_str(), image)
        };
        find(&self.image_sources, test, Ghost(image_source_for(image@, source)))
    }

    pub(crate) fn find_image_observation_at(&self, image: &str, observation: i64) -> (r: Option<usize>)
        ensures
            match r {
                Some(i) => i < self.image_observations@.len() && self@.image_observation_at(image@, observation) == Some(i as int)
                    && image_observation_for(image@, observation)(self.image_observations@[i as int]@),
                None => self@.image_observation_at(image@, observation) is None,
            },
    {
        let test = |r: &ImageObservationRow| -> (b: bool)
            ensures b == image_observation_for(image@, observation)(r@)
        {
            r.observation_id == observation && same(r.image_id.as_str(), image)
        };
        find(&self.image_observations, test, Ghost(image_observation_for(image@, observation)))
    }

    pub(crate) fn find_revision_at(&self, image: &str) -> (r: Option<usize>)
        ensures
            match r {
                Some(i) => i < self.revisions@.len() && self@.revision_at(image@) == Some(i as int)
                    && revision_for(image@)(self.revisions@[i as int]@),
                None => self@.revision_at(image@) is None,
            },
    {
        let test = |r: &RevisionRow| -> (b: bool)
            ensures b == revision_for(image@)(r@)
        {
            same(r.image_id.as_str(), image)
        };
        find(&self.revisions, test, Ghost(revision_for(image@)))
    }

    pub(crate) fn find_choice_at(&self, image: &str, field: &str) -> (r: Option<usize>)
        ensures
            match r {
                Some(i) => i < self.choices@.len() && self@.choice_at(image@, field@) == Some(i as int)
                    && choice_for(image@, field@)(self.choices@[i as int]@),
                None => self@.choice_at(image@, field@) is None,
            },
    {
        let test = |r: &ChoiceRow| -> (b: bool)
            ensures b == choice_for(image@, field@)(r@)
        {
            same(r.image_id.as_str(), image) && same(r.field.as_str(), field)
        };
        find(&self.choices, test, Ghost(choice_for(image@, field@)))
    }
}

} // verus!

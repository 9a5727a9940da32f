//! Moving another program's catalog into this one without losing its evidence.
use crate::catalog_migration::artifacts::Artifacts;
use crate::catalog_migration::current_repair::Repairs;
use crate::catalog_migration::file_metadata::FileMetadata;
use crate::catalog_migration::images::Projections;
use crate::catalog_migration::importer::Runs;
use crate::catalog_migration::retained::Retained;
use vstd::prelude::*;

pub mod answer_laws;
pub mod artifacts;
pub mod current_repair;
pub mod custody_laws;
pub mod descriptor_laws;
pub mod document_laws;
pub mod evidence;
pub mod file_content;
pub mod file_history;
pub mod file_metadata;
pub mod file_laws;
pub mod file_projection;
pub mod history;
pub mod history_laws;
pub mod image_import_laws;
pub mod images;
pub mod import_artifacts;
pub mod import_laws;
pub mod import_rows;
pub mod import_steps;
pub mod importer;
pub mod link_laws;
pub mod policy_laws;
pub mod proofs;
pub mod reading_laws;
pub mod record_laws;
pub mod repair_laws;
pub mod retained;
pub mod row_laws;

verus! {

/// What a catalog knows of the sources that are moved into it.
pub struct Migration {
    pub retained: Retained,
    pub images: Projections,
    pub files: FileMetadata,
    pub artifacts: Artifacts,
    pub runs: Runs,
    pub repairs: Repairs,
}

impl Migration {
    /// Nothing was moved yet.
    pub fn new() -> (m: Self)
        ensures
            m.retained@ == (retained::RetainedModel {
                records: Seq::empty(),
                coverage: Seq::empty(),
            }),
            m.images@ == (images::ProjectionsModel { originals: Seq::empty(), rows: Seq::empty() }),
            m.artifacts@ == Seq::<artifacts::CustodyModel>::empty(),
            m.runs@ == (importer::RunsModel {
                runs: Seq::empty(),
                items: Seq::empty(),
                supplements: Seq::empty(),
            }),
            m.repairs@ == current_repair::RepairsModel::empty(),
            m.files@ == (file_metadata::FilesModel { rows: Seq::empty(), seals: Seq::empty() }),
    {
        Migration {
            retained: Retained::new(),
            images: Projections::new(),
            files: FileMetadata::new(),
            artifacts: Artifacts::new(),
            runs: Runs::new(),
            repairs: Repairs::new(),
        }
    }
}

} // verus!

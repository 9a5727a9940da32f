//! Correction of a decision that a run made: where the current settings of its images
//! were looked for. What was retained is never replaced. What a correction replaces
//! is archived first, and an image that was edited since is left alone.
use crate::catalog::Catalog;
use crate::catalog_images;
use crate::catalog_images::VariantKey;
use crate::catalog_metadata::edit;
use crate::catalog_metadata::edit::{append_number, append_signed};
use crate::catalog_migration::artifacts::is_digest;
use crate::catalog_migration::file_metadata;
use crate::catalog_migration::file_metadata::SelectedCapture;
use crate::catalog_migration::images;
use crate::catalog_migration::images::mapped_image;
use crate::catalog_migration::import_rows;
use crate::catalog_migration::import_rows::{find_link, find_row_record};
use crate::catalog_migration::importer;
use crate::catalog_migration::importer::{make_policy_document, Outcome, OutcomeModel, Policy, Stage};
use crate::catalog_migration::proofs::{Link, SourceRecord, SourceRecordModel, TABLE_BYTES};
use crate::catalog_migration::retained;
use crate::catalog_migration::retained::{Collection, MigrationError, Retained, RetainedModel, Status};
use crate::copies::Copied;
use crate::outside;
use crate::outside::{blake3_digest, json_string, zlib_compress, zlib_decompress};
use crate::support;
use crate::support::{byte_len, copy_bytes, copy_option, is_blank, same, same_bytes, same_option};
use vstd::prelude::*;
use vstd::string::*;
use vstd::utf8::*;

verus! {

/// The most bytes of anything that is archived.
pub const ARCHIVE_LIMIT: usize = 8388608;

/// The most bytes of an archive.
pub const COMPRESSED_LIMIT: usize = 8454144;

/// The compression level of archives.
pub const ARCHIVE_LEVEL: u32 = 6;

/// The most bytes of a reason.
pub const REASON_BYTES: usize = 4096;

/// What a repair is doing.
#[derive(Clone, Copy, Debug, PartialEq, Eq, Structural)]
pub enum Phase {
    ArchiveReports,
    Project,
    Reconciliation,
    Complete,
}

/// A request to correct where the current settings of a run's images were looked for.
#[derive(Clone, Debug)]
pub struct Request {
    pub run: String,
    pub expected_complete_progress_blake3: String,
    pub expected_mapping_epoch: i64,
    pub reason: String,
}

/// What a `Request` stands for.
#[verifier::ext_equal]
pub struct RequestModel {
    pub run: Seq<char>,
    pub expected_complete_progress_blake3: Seq<char>,
    pub expected_mapping_epoch: i64,
    pub reason: Seq<char>,
}

impl View for Request {
    type V = RequestModel;

    open spec fn view(&self) -> RequestModel {
        RequestModel {
            run: self.run@,
            expected_complete_progress_blake3: self.expected_complete_progress_blake3@,
            expected_mapping_epoch: self.expected_mapping_epoch,
            reason: self.reason@,
        }
    }
}

impl Copied for Request {
    fn copied(&self) -> (c: Self) {
        Request {
            run: self.run.clone(),
            expected_complete_progress_blake3: self.expected_complete_progress_blake3.clone(),
            expected_mapping_epoch: self.expected_mapping_epoch,
            reason: self.reason.clone(),
        }
    }
}

/// How far a repair has come.
#[derive(Clone, Debug)]
pub struct Progress {
    pub id: String,
    pub run: String,
    pub input: String,
    pub phase: Phase,
    pub report_index: usize,
    pub after_record: i64,
    pub examined: u64,
    pub repaired: u64,
    pub unchanged: u64,
    pub complete: bool,
}

/// What a `Progress` stands for.
#[verifier::ext_equal]
pub struct ProgressModel {
    pub id: Seq<char>,
    pub run: Seq<char>,
    pub input: Seq<char>,
    pub phase: Phase,
    pub report_index: usize,
    pub after_record: i64,
    pub examined: u64,
    pub repaired: u64,
    pub unchanged: u64,
    pub complete: bool,
}

impl View for Progress {
    type V = ProgressModel;

    open spec fn view(&self) -> ProgressModel {
        ProgressModel {
            id: self.id@,
            run: self.run@,
            input: self.input@,
            phase: self.phase,
            report_index: self.report_index,
            after_record: self.after_record,
            examined: self.examined,
            repaired: self.repaired,
            unchanged: self.unchanged,
            complete: self.complete,
        }
    }
}

impl Copied for Progress {
    fn copied(&self) -> (c: Self) {
        Progress {
            id: self.id.clone(),
            run: self.run.clone(),
            input: self.input.clone(),
            phase: self.phase,
            report_index: self.report_index,
            after_record: self.after_record,
            examined: self.examined,
            repaired: self.repaired,
            unchanged: self.unchanged,
            complete: self.complete,
        }
    }
}

/// What a step of a repair came to.
#[derive(Clone, Debug)]
pub struct Step {
    pub progress: Progress,
    pub record: Option<i64>,
    pub outcome: Option<String>,
}

/// What a `Step` stands for.
#[verifier::ext_equal]
pub struct StepModel {
    pub progress: ProgressModel,
    pub record: Option<i64>,
    pub outcome: Option<Seq<char>>,
}

impl View for Step {
    type V = StepModel;

    open spec fn view(&self) -> StepModel {
        StepModel {
            progress: self.progress@,
            record: self.record,
            outcome: support::text_of(self.outcome),
        }
    }
}

/// What was extracted from settings.
#[derive(Clone, Debug)]
pub struct Extraction {
    /// Where in the settings it was looked for.
    pub settings_path: Vec<String>,
    /// What it was extracted from, apart from the place, as a document.
    pub source: String,
    /// Something was translated into a recipe.
    pub translated: bool,
    /// All that was extracted, as a document.
    pub document: String,
}

/// What an `Extraction` stands for.
#[verifier::ext_equal]
pub struct ExtractionModel {
    pub settings_path: Seq<Seq<char>>,
    pub source: Seq<char>,
    pub translated: bool,
    pub document: Seq<char>,
}

impl View for Extraction {
    type V = ExtractionModel;

    open spec fn view(&self) -> ExtractionModel {
        ExtractionModel {
            settings_path: support::models(self.settings_path@),
            source: self.source@,
            translated: self.translated,
            document: self.document@,
        }
    }
}

/// What projecting the current settings of an image gave.
#[derive(Clone, Debug)]
pub struct ResultRecord {
    pub input_digest: String,
    pub state: String,
    pub observation: Option<i64>,
    pub reason: Option<String>,
    pub image: VariantKey,
    pub edit_revision: Option<i64>,
    pub extraction: Option<Extraction>,
}

/// What a `ResultRecord` stands for.
#[verifier::ext_equal]
pub struct ResultRecordModel {
    pub input_digest: Seq<char>,
    pub state: Seq<char>,
    pub observation: Option<i64>,
    pub reason: Option<Seq<char>>,
    pub image: catalog_images::VariantKeyModel,
    pub edit_revision: Option<i64>,
    pub extraction: Option<ExtractionModel>,
}

impl View for ResultRecord {
    type V = ResultRecordModel;

    open spec fn view(&self) -> ResultRecordModel {
        ResultRecordModel {
            input_digest: self.input_digest@,
            state: self.state@,
            observation: self.observation,
            reason: support::text_of(self.reason),
            image: self.image@,
            edit_revision: self.edit_revision,
            extraction: match self.extraction {
                Some(e) => Some(e@),
                None => None,
            },
        }
    }
}

/// Projected metadata of an image's settings.
pub struct MetadataRow {
    pub image_source: String,
    pub payload_source: String,
    pub slot: String,
    pub owner: String,
    pub input_digest: String,
    pub retained_record: i64,
    /// The result as a document.
    pub result: Vec<u8>,
    pub record: ResultRecord,
}

/// What a `MetadataRow` stands for.
#[verifier::ext_equal]
pub struct MetadataModel {
    pub image_source: Seq<char>,
    pub payload_source: Seq<char>,
    pub slot: Seq<char>,
    pub owner: Seq<char>,
    pub input_digest: Seq<char>,
    pub retained_record: i64,
    pub result: Seq<u8>,
    pub record: ResultRecordModel,
}

impl View for MetadataRow {
    type V = MetadataModel;

    open spec fn view(&self) -> MetadataModel {
        MetadataModel {
            image_source: self.image_source@,
            payload_source: self.payload_source@,
            slot: self.slot@,
            owner: self.owner@,
            input_digest: self.input_digest@,
            retained_record: self.retained_record,
            result: self.result@,
            record: self.record@,
        }
    }
}

/// What archived metadata was the metadata of.
#[derive(Clone, Debug)]
pub struct MetadataHeader {
    pub image_source: String,
    pub payload_source: String,
    pub slot: String,
    pub owner: String,
    pub input_digest: String,
    pub retained_record: i64,
}

/// What a `MetadataHeader` stands for.
#[verifier::ext_equal]
pub struct MetadataHeaderModel {
    pub image_source: Seq<char>,
    pub payload_source: Seq<char>,
    pub slot: Seq<char>,
    pub owner: Seq<char>,
    pub input_digest: Seq<char>,
    pub retained_record: i64,
}

impl View for MetadataHeader {
    type V = MetadataHeaderModel;

    open spec fn view(&self) -> MetadataHeaderModel {
        MetadataHeaderModel {
            image_source: self.image_source@,
            payload_source: self.payload_source@,
            slot: self.slot@,
            owner: self.owner@,
            input_digest: self.input_digest@,
            retained_record: self.retained_record,
        }
    }
}

impl Copied for MetadataHeader {
    fn copied(&self) -> (c: Self) {
        MetadataHeader {
            image_source: self.image_source.clone(),
            payload_source: self.payload_source.clone(),
            slot: self.slot.clone(),
            owner: self.owner.clone(),
            input_digest: self.input_digest.clone(),
            retained_record: self.retained_record,
        }
    }
}

/// A report of what a run reconciled.
pub struct ReportRow {
    pub run: String,
    pub revision: String,
    pub report: Vec<u8>,
    pub epoch: i64,
}

/// What a `ReportRow` stands for.
#[verifier::ext_equal]
pub struct ReportModel {
    pub run: Seq<char>,
    pub revision: Seq<char>,
    pub report: Seq<u8>,
    pub epoch: i64,
}

impl View for ReportRow {
    type V = ReportModel;

    open spec fn view(&self) -> ReportModel {
        ReportModel {
            run: self.run@,
            revision: self.revision@,
            report: self.report@,
            epoch: self.epoch,
        }
    }
}

/// A report that a repair archived.
pub struct ArchivedReport {
    pub repair: String,
    pub revision: String,
    pub compressed: Vec<u8>,
    pub raw_length: i64,
    pub digest: String,
    pub epoch: i64,
}

/// What an `ArchivedReport` stands for.
#[verifier::ext_equal]
pub struct ArchivedReportModel {
    pub repair: Seq<char>,
    pub revision: Seq<char>,
    pub compressed: Seq<u8>,
    pub raw_length: i64,
    pub digest: Seq<char>,
    pub epoch: i64,
}

impl View for ArchivedReport {
    type V = ArchivedReportModel;

    open spec fn view(&self) -> ArchivedReportModel {
        ArchivedReportModel {
            repair: self.repair@,
            revision: self.revision@,
            compressed: self.compressed@,
            raw_length: self.raw_length,
            digest: self.digest@,
            epoch: self.epoch,
        }
    }
}

/// A repair.
pub struct RepairRow {
    pub id: String,
    pub run: String,
    pub request: Request,
    pub input: String,
    pub policy_blake3: String,
    pub progress: Progress,
    pub original: Vec<u8>,
    pub original_length: i64,
    pub original_digest: String,
}

/// What a `RepairRow` stands for.
#[verifier::ext_equal]
pub struct RepairModel {
    pub id: Seq<char>,
    pub run: Seq<char>,
    pub request: RequestModel,
    pub input: Seq<char>,
    pub policy_blake3: Seq<char>,
    pub progress: ProgressModel,
    pub original: Seq<u8>,
    pub original_length: i64,
    pub original_digest: Seq<char>,
}

impl View for RepairRow {
    type V = RepairModel;

    open spec fn view(&self) -> RepairModel {
        RepairModel {
            id: self.id@,
            run: self.run@,
            request: self.request@,
            input: self.input@,
            policy_blake3: self.policy_blake3@,
            progress: self.progress@,
            original: self.original@,
            original_length: self.original_length,
            original_digest: self.original_digest@,
        }
    }
}

/// What a repair did with a row, and what was there before.
pub struct RepairItem {
    pub repair: String,
    pub record: i64,
    pub revision: String,
    pub disposition: String,
    pub old_outcome: Vec<u8>,
    pub outcome_length: i64,
    pub outcome_digest: String,
    /// The metadata that was there: what it was of, its archive, and its length and
    /// digest.
    pub metadata: Option<(MetadataHeader, Vec<u8>, i64, String)>,
    pub new_result_digest: Option<String>,
    pub new_outcome_digest: String,
}

/// What a `RepairItem` stands for.
#[verifier::ext_equal]
pub struct RepairItemModel {
    pub repair: Seq<char>,
    pub record: i64,
    pub revision: Seq<char>,
    pub disposition: Seq<char>,
    pub old_outcome: Seq<u8>,
    pub outcome_length: i64,
    pub outcome_digest: Seq<char>,
    pub metadata: Option<(MetadataHeaderModel, Seq<u8>, i64, Seq<char>)>,
    pub new_result_digest: Option<Seq<char>>,
    pub new_outcome_digest: Seq<char>,
}

impl View for RepairItem {
    type V = RepairItemModel;

    open spec fn view(&self) -> RepairItemModel {
        RepairItemModel {
            repair: self.repair@,
            record: self.record,
            revision: self.revision@,
            disposition: self.disposition@,
            old_outcome: self.old_outcome@,
            outcome_length: self.outcome_length,
            outcome_digest: self.outcome_digest@,
            metadata: match self.metadata {
                None => None,
                Some(m) => Some((m.0@, m.1@, m.2, m.3@)),
            },
            new_result_digest: support::text_of(self.new_result_digest),
            new_outcome_digest: self.new_outcome_digest@,
        }
    }
}

/// All repairs, with what they work on.
pub struct Repairs {
    pub repairs: Vec<RepairRow>,
    pub archived: Vec<ArchivedReport>,
    pub items: Vec<RepairItem>,
    /// The reports that stand.
    pub reports: Vec<ReportRow>,
    /// The projected metadata that stands.
    pub metadata: Vec<MetadataRow>,
    /// How often the mappings have changed.
    pub epoch: i64,
}

/// What `Repairs` stands for.
#[verifier::ext_equal]
pub struct RepairsModel {
    pub repairs: Seq<RepairModel>,
    pub archived: Seq<ArchivedReportModel>,
    pub items: Seq<RepairItemModel>,
    pub reports: Seq<ReportModel>,
    pub metadata: Seq<MetadataModel>,
    pub epoch: i64,
}

impl View for Repairs {
    type V = RepairsModel;

    open spec fn view(&self) -> RepairsModel {
        RepairsModel {
            repairs: support::models(self.repairs@),
            archived: support::models(self.archived@),
            items: support::models(self.items@),
            reports: support::models(self.reports@),
            metadata: support::models(self.metadata@),
            epoch: self.epoch,
        }
    }
}

pub open spec fn repair_named(id: Seq<char>) -> spec_fn(RepairModel) -> bool {
    |r: RepairModel| r.id == id
}

pub open spec fn repair_for(run: Seq<char>) -> spec_fn(RepairModel) -> bool {
    |r: RepairModel| r.run == run
}

pub open spec fn report_of(run: Seq<char>, revision: Seq<char>) -> spec_fn(ReportModel) -> bool {
    |r: ReportModel| r.run == run && r.revision == revision
}

pub open spec fn report_in(run: Seq<char>) -> spec_fn(ReportModel) -> bool {
    |r: ReportModel| r.run == run
}

pub open spec fn archived_of(repair: Seq<char>, revision: Seq<char>) -> spec_fn(ArchivedReportModel) -> bool {
    |r: ArchivedReportModel| r.repair == repair && r.revision == revision
}

pub open spec fn repaired_item(repair: Seq<char>, record: i64) -> spec_fn(RepairItemModel) -> bool {
    |r: RepairItemModel| r.repair == repair && r.record == record
}

/// The slot of current settings.
pub open spec fn current_slot() -> Seq<char> {
    "current_develop"@
}

pub open spec fn settings_of(image: Seq<char>, payload: Seq<char>) -> spec_fn(MetadataModel) -> bool {
    |m: MetadataModel|
        m.image_source == image && m.payload_source == payload && m.slot == current_slot()
}

impl RepairsModel {
    /// Nothing was repaired, and nothing stands.
    pub open spec fn empty() -> RepairsModel {
        RepairsModel {
            repairs: Seq::empty(),
            archived: Seq::empty(),
            items: Seq::empty(),
            reports: Seq::empty(),
            metadata: Seq::empty(),
            epoch: 0,
        }
    }

    /// The repair of an identity.
    pub open spec fn repair_at(self, id: Seq<char>) -> Option<int> {
        support::first_where(self.repairs, repair_named(id))
    }
}

impl Repairs {
    /// Nothing was repaired, and nothing stands.
    pub fn new() -> (r: Self)
        ensures
            r@ == RepairsModel::empty(),
    {
        let r: Repairs = Repairs {
            repairs: Vec::new(),
            archived: Vec::new(),
            items: Vec::new(),
            reports: Vec::new(),
            metadata: Vec::new(),
            epoch: 0,
        };
        assert(r@ =~= RepairsModel::empty());
        r
    }

    fn find_repair(&self, id: &str) -> (r: Option<usize>)
        ensures
            match r {
                Some(i) => i < self.repairs@.len() && self@.repair_at(id@) == Some(i as int)
                    && self@.repairs[i as int] == self.repairs@[i as int]@,
                None => self@.repair_at(id@) is None,
            },
    {
        let test = |r: &RepairRow| -> (b: bool)
            ensures b == repair_named(id@)(r@)
        {
            same(r.id.as_str(), id)
        };
        let r: Option<usize> = support::find(&self.repairs, test, Ghost(repair_named(id@)));
        proof {
            if let Some(i) = r {
                assert(self@.repairs[i as int] == self.repairs@[i as int]@);
            }
        }
        r
    }

    fn find_repair_for(&self, run: &str) -> (r: Option<usize>)
        ensures
            match r {
                Some(i) => i < self.repairs@.len() && support::first_where(
                    self@.repairs,
                    repair_for(run@),
                ) == Some(i as int) && self@.repairs[i as int] == self.repairs@[i as int]@,
                None => support::first_where(self@.repairs, repair_for(run@)) is None,
            },
    {
        let test = |r: &RepairRow| -> (b: bool)
            ensures b == repair_for(run@)(r@)
        {
            same(r.run.as_str(), run)
        };
        let r: Option<usize> = support::find(&self.repairs, test, Ghost(repair_for(run@)));
        proof {
            if let Some(i) = r {
                assert(self@.repairs[i as int] == self.repairs@[i as int]@);
            }
        }
        r
    }

    fn find_report(&self, run: &str, revision: &str) -> (r: Option<usize>)
        ensures
            match r {
                Some(i) => i < self.reports@.len() && support::first_where(
                    self@.reports,
                    report_of(run@, revision@),
                ) == Some(i as int) && self@.reports[i as int] == self.reports@[i as int]@,
                None => support::first_where(self@.reports, report_of(run@, revision@)) is None,
            },
    {
        let test = |r: &ReportRow| -> (b: bool)
            ensures b == report_of(run@, revision@)(r@)
        {
            same(r.run.as_str(), run) && same(r.revision.as_str(), revision)
        };
        let r: Option<usize> = support::find(
            &self.reports,
            test,
            Ghost(report_of(run@, revision@)),
        );
        proof {
            if let Some(i) = r {
                assert(self@.reports[i as int] == self.reports@[i as int]@);
            }
        }
        r
    }

    fn find_settings(&self, image: &str, payload: &str) -> (r: Option<usize>)
        ensures
            match r {
                Some(i) => i < self.metadata@.len() && support::first_where(
                    self@.metadata,
                    settings_of(image@, payload@),
                ) == Some(i as int) && self@.metadata[i as int] == self.metadata@[i as int]@,
                None => support::first_where(self@.metadata, settings_of(image@, payload@)) is None,
            },
    {
        let test = |m: &MetadataRow| -> (b: bool)
            ensures b == settings_of(image@, payload@)(m@)
        {
            same(m.image_source.as_str(), image) && same(m.payload_source.as_str(), payload)
                && same(m.slot.as_str(), "current_develop")
        };
        let r: Option<usize> = support::find(
            &self.metadata,
            test,
            Ghost(settings_of(image@, payload@)),
        );
        proof {
            if let Some(i) = r {
                assert(self@.metadata[i as int] == self.metadata@[i as int]@);
            }
        }
        r
    }
}

/// A stage as a document's word.
pub open spec fn stage_word(stage: Stage) -> Seq<char> {
    match stage {
        Stage::Custody => "\"Custody\""@,
        Stage::SupplementCustody => "\"SupplementCustody\""@,
        Stage::Index => "\"Index\""@,
        Stage::Files => "\"Files\""@,
        Stage::Masters => "\"Masters\""@,
        Stage::VirtualCopies => "\"VirtualCopies\""@,
        Stage::FileEmbedded => "\"FileEmbedded\""@,
        Stage::FileSidecarXmp => "\"FileSidecarXmp\""@,
        Stage::FileSidecarUpper => "\"FileSidecarUpper\""@,
        Stage::FileAppendedXmp => "\"FileAppendedXmp\""@,
        Stage::FileAppendedUpper => "\"FileAppendedUpper\""@,
        Stage::CatalogXmp => "\"CatalogXmp\""@,
        Stage::CurrentDevelop => "\"CurrentDevelop\""@,
        Stage::ImageFields => "\"ImageFields\""@,
        Stage::Keywords => "\"Keywords\""@,
        Stage::Collections => "\"Collections\""@,
        Stage::KeywordSynonyms => "\"KeywordSynonyms\""@,
        Stage::KeywordMemberships => "\"KeywordMemberships\""@,
        Stage::CollectionMemberships => "\"CollectionMemberships\""@,
        Stage::History => "\"History\""@,
        Stage::DevelopSettings => "\"DevelopSettings\""@,
        Stage::BeforeSettings => "\"BeforeSettings\""@,
        Stage::Snapshots => "\"Snapshots\""@,
        Stage::SmartCollections => "\"SmartCollections\""@,
        Stage::Stacks => "\"Stacks\""@,
        Stage::ArtifactCustody => "\"ArtifactCustody\""@,
        Stage::Reconciliation => "\"Reconciliation\""@,
        Stage::Complete => "\"Complete\""@,
    }
}

fn get_stage_word(stage: Stage) -> (r: &'static str)
    ensures
        r@ == stage_word(stage),
{
    match stage {
        Stage::Custody => "\"Custody\"",
        Stage::SupplementCustody => "\"SupplementCustody\"",
        Stage::Index => "\"Index\"",
        Stage::Files => "\"Files\"",
        Stage::Masters => "\"Masters\"",
        Stage::VirtualCopies => "\"VirtualCopies\"",
        Stage::FileEmbedded => "\"FileEmbedded\"",
        Stage::FileSidecarXmp => "\"FileSidecarXmp\"",
        Stage::FileSidecarUpper => "\"FileSidecarUpper\"",
        Stage::FileAppendedXmp => "\"FileAppendedXmp\"",
        Stage::FileAppendedUpper => "\"FileAppendedUpper\"",
        Stage::CatalogXmp => "\"CatalogXmp\"",
        Stage::CurrentDevelop => "\"CurrentDevelop\"",
        Stage::ImageFields => "\"ImageFields\"",
        Stage::Keywords => "\"Keywords\"",
        Stage::Collections => "\"Collections\"",
        Stage::KeywordSynonyms => "\"KeywordSynonyms\"",
        Stage::KeywordMemberships => "\"KeywordMemberships\"",
        Stage::CollectionMemberships => "\"CollectionMemberships\"",
        Stage::History => "\"History\"",
        Stage::DevelopSettings => "\"DevelopSettings\"",
        Stage::BeforeSettings => "\"BeforeSettings\"",
        Stage::Snapshots => "\"Snapshots\"",
        Stage::SmartCollections => "\"SmartCollections\"",
        Stage::Stacks => "\"Stacks\"",
        Stage::ArtifactCustody => "\"ArtifactCustody\"",
        Stage::Reconciliation => "\"Reconciliation\"",
        Stage::Complete => "\"Complete\"",
    }
}

/// An optional number as a document.
pub open spec fn number_document(n: Option<i64>) -> Seq<char> {
    match n {
        None => "null"@,
        Some(v) => edit::signed_text(v),
    }
}

fn append_optional(d: &mut String, n: Option<i64>)
    ensures
        final(d)@ == old(d)@ + number_document(n),
{
    match n {
        None => {
            d.append("null");
        },
        Some(v) => {
            append_signed(d, v);
        },
    }
}

/// A truth value as a document.
pub open spec fn truth_document(b: bool) -> Seq<char> {
    if b {
        "true"@
    } else {
        "false"@
    }
}

fn get_truth(b: bool) -> (r: &'static str)
    ensures
        r@ == truth_document(b),
{
    if b {
        "true"
    } else {
        "false"
    }
}

/// An optional text as a document.
pub open spec fn text_document(t: Option<Seq<char>>) -> Option<Seq<char>> {
    match t {
        None => Some("null"@),
        Some(v) => outside::json_text(v),
    }
}

fn make_text_document(t: &Option<String>) -> (d: Option<String>)
    ensures
        support::text_of(d) == text_document(support::text_of(*t)),
{
    match t {
        None => Some("null".to_owned()),
        Some(v) => json_string(v.as_str()),
    }
}

/// The progress of a run as a document.
pub open spec fn progress_document(p: importer::ProgressModel) -> Option<Seq<char>> {
    match (outside::json_text(p.id), outside::json_text(p.input)) {
        (Some(id), Some(input)) => Some(
            "{\"id\":"@ + id + ",\"input\":"@ + input + ",\"stage\":"@ + stage_word(p.stage)
                + ",\"capture_index\":"@ + edit::decimal_text(p.capture_index as nat)
                + ",\"artifact_index\":"@ + edit::decimal_text(p.artifact_index as nat)
                + ",\"cursor\":"@ + number_document(p.cursor) + ",\"processed\":"@
                + edit::decimal_text(p.processed as nat) + ",\"complete\":"@ + truth_document(
                p.complete,
            ) + "}"@,
        ),
        _ => None,
    }
}

/// The bytes that a document is kept as.
pub open spec fn encoded(document: Option<Seq<char>>) -> Result<Seq<u8>, MigrationError> {
    match document {
        None => Err(MigrationError::DocumentBounds),
        Some(d) => if encode_utf8(d).len() > ARCHIVE_LIMIT {
            Err(MigrationError::DocumentBounds)
        } else {
            Ok(encode_utf8(d))
        },
    }
}

fn encode(document: Option<String>) -> (r: Result<Vec<u8>, MigrationError>)
    ensures
        match encoded(support::text_of(document)) {
            Err(e) => r == Err::<Vec<u8>, MigrationError>(e),
            Ok(bytes) => r matches Ok(v) && v@ == bytes,
        },
{
    match document {
        None => Err(MigrationError::DocumentBounds),
        Some(d) => {
            let bytes = d.as_str().as_bytes();
            if bytes.len() > ARCHIVE_LIMIT {
                Err(MigrationError::DocumentBounds)
            } else {
                Ok(copy_bytes(bytes))
            }
        },
    }
}

fn make_progress_document(p: &importer::Progress) -> (d: Option<String>)
    ensures
        support::text_of(d) == progress_document(p@),
{
    match (json_string(p.id.as_str()), json_string(p.input.as_str())) {
        (Some(id), Some(input)) => {
            let mut d: String = "{\"id\":".to_owned();
            d.append(id.as_str());
            d.append(",\"input\":");
            d.append(input.as_str());
            d.append(",\"stage\":");
            d.append(get_stage_word(p.stage));
            d.append(",\"capture_index\":");
            append_number(&mut d, p.capture_index as u64);
            d.append(",\"artifact_index\":");
            append_number(&mut d, p.artifact_index as u64);
            d.append(",\"cursor\":");
            append_optional(&mut d, p.cursor);
            d.append(",\"processed\":");
            append_number(&mut d, p.processed);
            d.append(",\"complete\":");
            d.append(get_truth(p.complete));
            d.append("}");
            assert(d@ =~= progress_document(p@)->0);
            Some(d)
        },
        _ => None,
    }
}

/// A status as a document.
pub open spec fn status_document(s: Option<Status>) -> Seq<char> {
    match s {
        None => "null"@,
        Some(Status::Complete) => "\"Complete\""@,
        Some(Status::Absent) => "\"Absent\""@,
        Some(Status::Malformed) => "\"Malformed\""@,
        Some(Status::ResourceLimit) => "\"ResourceLimit\""@,
        Some(Status::Other) => "\"Other\""@,
    }
}

fn get_status_document(s: Option<Status>) -> (r: &'static str)
    ensures
        r@ == status_document(s),
{
    match s {
        None => "null",
        Some(Status::Complete) => "\"Complete\"",
        Some(Status::Absent) => "\"Absent\"",
        Some(Status::Malformed) => "\"Malformed\"",
        Some(Status::ResourceLimit) => "\"ResourceLimit\"",
        Some(Status::Other) => "\"Other\"",
    }
}

/// What became of an image, as a document.
pub open spec fn image_document(o: images::OutcomeModel) -> Option<Seq<char>> {
    match o {
        images::OutcomeModel::Image { id, key } => match (
            outside::json_text(id),
            outside::json_text(key.asset_id),
            outside::json_text(key.variant_id),
        ) {
            (Some(id), Some(asset), Some(variant)) => Some(
                "{\"kind\":\"Image\",\"id\":"@ + id + ",\"key\":{\"asset_id\":"@ + asset
                    + ",\"variant_id\":"@ + variant + "}}"@,
            ),
            _ => None,
        },
        images::OutcomeModel::Retained { reason } => match outside::json_text(reason) {
            None => None,
            Some(said) => Some("{\"kind\":\"Retained\",\"reason\":"@ + said + "}"@),
        },
    }
}

fn make_image_document(o: &images::Outcome) -> (d: Option<String>)
    ensures
        support::text_of(d) == image_document(o@),
{
    match o {
        images::Outcome::Image { id, key } => match (
            json_string(id.as_str()),
            json_string(key.asset_id.as_str()),
            json_string(key.variant_id.as_str()),
        ) {
            (Some(name), Some(asset), Some(variant)) => {
                let mut d: String = "{\"kind\":\"Image\",\"id\":".to_owned();
                d.append(name.as_str());
                d.append(",\"key\":{\"asset_id\":");
                d.append(asset.as_str());
                d.append(",\"variant_id\":");
                d.append(variant.as_str());
                d.append("}}");
                assert(d@ =~= image_document(o@)->0);
                Some(d)
            },
            _ => None,
        },
        images::Outcome::Retained { reason } => match json_string(reason.as_str()) {
            None => None,
            Some(said) => {
                let mut d: String = "{\"kind\":\"Retained\",\"reason\":".to_owned();
                d.append(said.as_str());
                d.append("}");
                assert(d@ =~= image_document(o@)->0);
                Some(d)
            },
        },
    }
}

/// What became of a file's metadata, as a document.
pub open spec fn file_document(o: file_metadata::FileResultModel) -> Option<Seq<char>> {
    match (
        outside::json_text(o.input_digest),
        outside::json_text(o.asset_id),
        outside::json_text(o.state),
        text_document(o.reason),
    ) {
        (Some(digest), Some(asset), Some(state), Some(reason)) => Some(
            "{\"input_digest\":"@ + digest + ",\"asset_id\":"@ + asset + ",\"state\":"@ + state
                + ",\"historical_status\":"@ + status_document(o.historical_status)
                + ",\"observation\":"@ + number_document(o.observation) + ",\"reason\":"@ + reason
                + "}"@,
        ),
        _ => None,
    }
}

fn make_file_document(o: &file_metadata::ProjectionResult) -> (d: Option<String>)
    ensures
        support::text_of(d) == file_document(o@),
{
    match (
        json_string(o.input_digest.as_str()),
        json_string(o.asset_id.as_str()),
        json_string(o.state.as_str()),
        make_text_document(&o.reason),
    ) {
        (Some(digest), Some(asset), Some(state), Some(reason)) => {
            let mut d: String = "{\"input_digest\":".to_owned();
            d.append(digest.as_str());
            d.append(",\"asset_id\":");
            d.append(asset.as_str());
            d.append(",\"state\":");
            d.append(state.as_str());
            d.append(",\"historical_status\":");
            d.append(get_status_document(o.historical_status));
            d.append(",\"observation\":");
            append_optional(&mut d, o.observation);
            d.append(",\"reason\":");
            d.append(reason.as_str());
            d.append("}");
            assert(d@ =~= file_document(o@)->0);
            Some(d)
        },
        _ => None,
    }
}

/// A compact receipt of projected metadata, as a document.
pub open spec fn receipt_document(
    input_digest: Seq<char>,
    state: Seq<char>,
    observation: Option<i64>,
    reason: Option<Seq<char>>,
) -> Option<Seq<char>> {
    match (outside::json_text(input_digest), outside::json_text(state), text_document(reason)) {
        (Some(digest), Some(said), Some(why)) => Some(
            "{\"Metadata\":{\"input_digest\":"@ + digest + ",\"state\":"@ + said
                + ",\"observation\":"@ + number_document(observation) + ",\"reason\":"@ + why
                + "}}"@,
        ),
        _ => None,
    }
}

fn make_receipt_document(
    input_digest: &str,
    state: &str,
    observation: Option<i64>,
    reason: &Option<String>,
) -> (d: Option<String>)
    ensures
        support::text_of(d) == receipt_document(
            input_digest@,
            state@,
            observation,
            support::text_of(*reason),
        ),
{
    match (json_string(input_digest), json_string(state), make_text_document(reason)) {
        (Some(digest), Some(said), Some(why)) => {
            let mut d: String = "{\"Metadata\":{\"input_digest\":".to_owned();
            d.append(digest.as_str());
            d.append(",\"state\":");
            d.append(said.as_str());
            d.append(",\"observation\":");
            append_optional(&mut d, observation);
            d.append(",\"reason\":");
            d.append(why.as_str());
            d.append("}}");
            assert(d@ =~= receipt_document(
                input_digest@,
                state@,
                observation,
                support::text_of(*reason),
            )->0);
            Some(d)
        },
        _ => None,
    }
}

/// A document under the name of what it is.
pub open spec fn tagged(tag: Seq<char>, document: Option<Seq<char>>) -> Option<Seq<char>> {
    match document {
        None => None,
        Some(d) => Some("{\""@ + tag + "\":"@ + d + "}"@),
    }
}

fn make_tagged(tag: &str, document: Option<String>) -> (d: Option<String>)
    ensures
        support::text_of(d) == tagged(tag@, support::text_of(document)),
{
    match document {
        None => None,
        Some(inner) => {
            let mut d: String = "{\"".to_owned();
            d.append(tag);
            d.append("\":");
            d.append(inner.as_str());
            d.append("}");
            assert(d@ =~= "{\""@ + tag@ + "\":"@ + inner@ + "}"@);
            Some(d)
        },
    }
}

/// What projecting the current settings of an image gave, as a document.
#[verifier::opaque]
pub open spec fn result_document(r: ResultRecordModel) -> Option<Seq<char>> {
    match (
        outside::json_text(r.input_digest),
        outside::json_text(r.state),
        text_document(r.reason),
        outside::json_text(r.image.asset_id),
        outside::json_text(r.image.variant_id),
    ) {
        (Some(digest), Some(said), Some(why), Some(asset), Some(variant)) => Some(
            "{\"input_digest\":"@ + digest + ",\"state\":"@ + said + ",\"observation\":"@
                + number_document(r.observation) + ",\"reason\":"@ + why
                + ",\"image\":{\"asset_id\":"@ + asset + ",\"variant_id\":"@ + variant
                + "},\"edit_revision\":"@ + number_document(r.edit_revision)
                + ",\"extraction\":"@ + (match r.extraction {
                None => "null"@,
                Some(e) => e.document,
            }) + "}"@,
        ),
        _ => None,
    }
}

fn make_result_document(r: &ResultRecord) -> (d: Option<String>)
    ensures
        support::text_of(d) == result_document(r@),
{
    reveal(result_document);
    match (
        json_string(r.input_digest.as_str()),
        json_string(r.state.as_str()),
        make_text_document(&r.reason),
        json_string(r.image.asset_id.as_str()),
        json_string(r.image.variant_id.as_str()),
    ) {
        (Some(digest), Some(said), Some(why), Some(asset), Some(variant)) => {
            let mut d: String = "{\"input_digest\":".to_owned();
            d.append(digest.as_str());
            d.append(",\"state\":");
            d.append(said.as_str());
            d.append(",\"observation\":");
            append_optional(&mut d, r.observation);
            d.append(",\"reason\":");
            d.append(why.as_str());
            d.append(",\"image\":{\"asset_id\":");
            d.append(asset.as_str());
            d.append(",\"variant_id\":");
            d.append(variant.as_str());
            d.append("},\"edit_revision\":");
            append_optional(&mut d, r.edit_revision);
            d.append(",\"extraction\":");
            match &r.extraction {
                None => {
                    d.append("null");
                },
                Some(e) => {
                    d.append(e.document.as_str());
                },
            }
            d.append("}");
            Some(d)
        },
        _ => None,
    }
}

/// What became of a row, as a document.
#[verifier::opaque]
pub open spec fn outcome_document(o: OutcomeModel) -> Option<Seq<char>> {
    match o {
        OutcomeModel::Original { asset_id, created } => match outside::json_text(asset_id) {
            None => None,
            Some(asset) => tagged(
                "Original"@,
                Some("{\"asset_id\":"@ + asset + ",\"created\":"@ + truth_document(created) + "}"@),
            ),
        },
        OutcomeModel::Image(v) => tagged("Image"@, image_document(v)),
        OutcomeModel::Metadata { input_digest, state, observation, reason } => receipt_document(
            input_digest,
            state,
            observation,
            reason,
        ),
        OutcomeModel::FileMetadata(v) => tagged("FileMetadata"@, file_document(v)),
        OutcomeModel::Organization(v) => tagged("Organization"@, Some(v)),
        OutcomeModel::OtherImageRole => Some("\"OtherImageRole\""@),
        OutcomeModel::Retained { reason } => match outside::json_text(reason) {
            None => None,
            Some(said) => tagged("Retained"@, Some("{\"reason\":"@ + said + "}"@)),
        },
    }
}

fn make_outcome_document(o: &Outcome) -> (d: Option<String>)
    ensures
        support::text_of(d) == outcome_document(o@),
{
    reveal(outcome_document);
    match o {
        Outcome::Original { asset_id, created } => match json_string(asset_id.as_str()) {
            None => None,
            Some(asset) => {
                let mut d: String = "{\"asset_id\":".to_owned();
                d.append(asset.as_str());
                d.append(",\"created\":");
                d.append(get_truth(*created));
                d.append("}");
                assert(d@ =~= "{\"asset_id\":"@ + asset@ + ",\"created\":"@ + truth_document(
                    *created,
                ) + "}"@);
                make_tagged("Original", Some(d))
            },
        },
        Outcome::Image(v) => make_tagged("Image", make_image_document(v)),
        Outcome::Metadata { input_digest, state, observation, reason } => make_receipt_document(
            input_digest.as_str(),
            state.as_str(),
            *observation,
            reason,
        ),
        Outcome::FileMetadata(v) => make_tagged("FileMetadata", make_file_document(v)),
        Outcome::Organization(v) => make_tagged("Organization", Some(v.clone())),
        Outcome::OtherImageRole => Some("\"OtherImageRole\"".to_owned()),
        Outcome::Retained { reason } => match json_string(reason.as_str()) {
            None => None,
            Some(said) => {
                let mut d: String = "{\"reason\":".to_owned();
                d.append(said.as_str());
                d.append("}");
                assert(d@ =~= "{\"reason\":"@ + said@ + "}"@);
                make_tagged("Retained", Some(d))
            },
        },
    }
}

/// The archive of bytes.
pub open spec fn archive_of(bytes: Seq<u8>) -> Result<Seq<u8>, MigrationError> {
    if bytes.len() > ARCHIVE_LIMIT {
        Err(MigrationError::ArchiveBounds)
    } else {
        match outside::zlib_stream(ARCHIVE_LEVEL, bytes) {
            None => Err(MigrationError::Compression),
            Some(stream) => Ok(stream),
        }
    }
}

/// An archive can be read again to what was archived.
pub open spec fn restores(stream: Seq<u8>, bytes: Seq<u8>) -> bool {
    outside::zlib_decoded(stream, (bytes.len() + 1) as nat) == Some((bytes, stream.len()))
}

fn compress(bytes: &[u8]) -> (r: Result<Vec<u8>, MigrationError>)
    ensures
        match archive_of(bytes@) {
            Err(e) => r == Err::<Vec<u8>, MigrationError>(e),
            Ok(stream) => r matches Ok(v) && v@ == stream && restores(stream, bytes@),
        },
{
    if bytes.len() > ARCHIVE_LIMIT {
        return Err(MigrationError::ArchiveBounds);
    }
    match zlib_compress(bytes, ARCHIVE_LEVEL) {
        None => Err(MigrationError::Compression),
        Some(stream) => {
            assert(outside::zlib_decoded(stream@, (bytes@.len() + 1) as nat) == Some(
                (bytes@, stream@.len()),
            ));
            Ok(stream)
        },
    }
}

/// What an archive holds, if it is what was archived.
pub open spec fn archived_bytes(stream: Seq<u8>, length: i64, expected: Seq<char>) -> Result<
    Seq<u8>,
    MigrationError,
> {
    if length < 0 || length > ARCHIVE_LIMIT || stream.len() > COMPRESSED_LIMIT {
        Err(MigrationError::ArchiveBounds)
    } else {
        match outside::zlib_decoded(stream, (length + 1) as nat) {
            None => Err(MigrationError::ArchiveDiffers),
            Some((bytes, _)) => if bytes.len() == length && outside::blake3_hex(bytes) == expected {
                Ok(bytes)
            } else {
                Err(MigrationError::ArchiveDiffers)
            },
        }
    }
}

fn decompress(stream: &[u8], length: i64, expected: &str) -> (r: Result<Vec<u8>, MigrationError>)
    ensures
        match archived_bytes(stream@, length, expected@) {
            Err(e) => r == Err::<Vec<u8>, MigrationError>(e),
            Ok(bytes) => r matches Ok(v) && v@ == bytes,
        },
{
    if length < 0 || length > ARCHIVE_LIMIT as i64 || stream.len() > COMPRESSED_LIMIT {
        return Err(MigrationError::ArchiveBounds);
    }
    match zlib_decompress(stream, (length + 1) as u64) {
        None => Err(MigrationError::ArchiveDiffers),
        Some((bytes, _)) => {
            if bytes.len() as u64 == length as u64 && same(
                blake3_digest(bytes.as_slice()).as_str(),
                expected,
            ) {
                Ok(bytes)
            } else {
                Err(MigrationError::ArchiveDiffers)
            }
        },
    }
}

/// What was archived is read again byte for byte, as long as the archive is not too
/// large to be read.
pub proof fn law_archives_read_back(bytes: Seq<u8>)
    requires
        archive_of(bytes) matches Ok(stream) && restores(stream, bytes) && stream.len()
            <= COMPRESSED_LIMIT,
    ensures
        archived_bytes(
            archive_of(bytes)->Ok_0,
            bytes.len() as i64,
            outside::blake3_hex(bytes),
        ) == Ok::<Seq<u8>, MigrationError>(bytes),
{
}

/// What a repair is bound to, as a document.
pub open spec fn binding_document(
    request: RequestModel,
    input: Seq<char>,
    policy_blake3: Seq<char>,
) -> Option<Seq<char>> {
    match (
        outside::json_text(request.run),
        outside::json_text(request.expected_complete_progress_blake3),
        outside::json_text(request.reason),
        outside::json_text(input),
        outside::json_text(policy_blake3),
    ) {
        (Some(run), Some(progress), Some(reason), Some(from), Some(policy)) => Some(
            "{\"adapter\":\"lightroom-current-container-repair-v1\",\"request\":{\"run\":"@ + run
                + ",\"expected_complete_progress_blake3\":"@ + progress
                + ",\"expected_mapping_epoch\":"@ + edit::signed_text(
                request.expected_mapping_epoch,
            ) + ",\"reason\":"@ + reason + "},\"input\":"@ + from + ",\"policy_blake3\":"@ + policy
                + "}"@,
        ),
        _ => None,
    }
}

/// The identity of a repair: that of what it is bound to.
#[verifier::opaque]
pub open spec fn repair_identity(
    request: RequestModel,
    input: Seq<char>,
    policy_blake3: Seq<char>,
) -> Result<Seq<char>, MigrationError> {
    match encoded(binding_document(request, input, policy_blake3)) {
        Err(e) => Err(e),
        Ok(bytes) => Ok(outside::blake3_hex(bytes)),
    }
}

fn make_repair_identity(request: &Request, input: &str, policy_blake3: &str) -> (r: Result<
    String,
    MigrationError,
>)
    ensures
        match repair_identity(request@, input@, policy_blake3@) {
            Err(e) => r == Err::<String, MigrationError>(e),
            Ok(id) => r matches Ok(text) && text@ == id,
        },
{
    reveal(repair_identity);
    let document: Option<String> = match (
        json_string(request.run.as_str()),
        json_string(request.expected_complete_progress_blake3.as_str()),
        json_string(request.reason.as_str()),
        json_string(input),
        json_string(policy_blake3),
    ) {
        (Some(run), Some(progress), Some(reason), Some(from), Some(policy)) => {
            let mut d: String =
                "{\"adapter\":\"lightroom-current-container-repair-v1\",\"request\":{\"run\":".to_owned();
            d.append(run.as_str());
            d.append(",\"expected_complete_progress_blake3\":");
            d.append(progress.as_str());
            d.append(",\"expected_mapping_epoch\":");
            append_signed(&mut d, request.expected_mapping_epoch);
            d.append(",\"reason\":");
            d.append(reason.as_str());
            d.append("},\"input\":");
            d.append(from.as_str());
            d.append(",\"policy_blake3\":");
            d.append(policy.as_str());
            d.append("}");
            assert(d@ =~= binding_document(request@, input@, policy_blake3@)->0);
            Some(d)
        },
        _ => None,
    };
    match encode(document) {
        Err(e) => Err(e),
        Ok(bytes) => Ok(blake3_digest(bytes.as_slice())),
    }
}

/// The digest of a policy.
pub open spec fn policy_digest(p: importer::PolicyModel) -> Result<Seq<char>, MigrationError> {
    match encoded(importer::policy_document(p)) {
        Err(e) => Err(e),
        Ok(bytes) => Ok(outside::blake3_hex(bytes)),
    }
}

fn make_policy_digest(p: &Policy) -> (r: Result<String, MigrationError>)
    ensures
        match policy_digest(p@) {
            Err(e) => r == Err::<String, MigrationError>(e),
            Ok(digest) => r matches Ok(text) && text@ == digest,
        },
{
    match encode(make_policy_document(p)) {
        Err(e) => Err(e),
        Ok(bytes) => Ok(blake3_digest(bytes.as_slice())),
    }
}

/// The repair of an identity that is the identity of what it is bound to.
pub open spec fn read_repair(repairs: RepairsModel, id: Seq<char>) -> Result<int, MigrationError> {
    if !outside::digest_text(id) {
        Err(MigrationError::IdentityBounds)
    } else {
        match repairs.repair_at(id) {
            None => Err(MigrationError::RunMissing),
            Some(k) => {
                let row = repairs.repairs[k];
                match repair_identity(row.request, row.input, row.policy_blake3) {
                    Err(e) => Err(e),
                    Ok(expected) => if expected != id || row.progress.id != id || row.progress.run
                        != row.request.run || row.progress.input != row.input {
                        Err(MigrationError::RunForeign)
                    } else if row.progress.complete != (row.progress.phase == Phase::Complete) {
                        Err(MigrationError::StageDiffers)
                    } else {
                        Ok(k)
                    },
                }
            },
        }
    }
}

fn read(repairs: &Repairs, id: &str) -> (r: Result<usize, MigrationError>)
    ensures
        match read_repair(repairs@, id@) {
            Err(e) => r == Err::<usize, MigrationError>(e),
            Ok(k) => r matches Ok(i) && i == k && i < repairs.repairs@.len() && repairs@.repairs[k]
                == repairs.repairs@[k]@,
        },
{
    if !is_digest(id) {
        return Err(MigrationError::IdentityBounds);
    }
    let k: usize = match repairs.find_repair(id) {
        None => return Err(MigrationError::RunMissing),
        Some(k) => k,
    };
    let row = &repairs.repairs[k];
    match make_repair_identity(&row.request, row.input.as_str(), row.policy_blake3.as_str()) {
        Err(e) => Err(e),
        Ok(expected) => {
            if !same(expected.as_str(), id) || !same(row.progress.id.as_str(), id) || !same(
                row.progress.run.as_str(),
                row.request.run.as_str(),
            ) || !same(row.progress.input.as_str(), row.input.as_str()) {
                Err(MigrationError::RunForeign)
            } else if row.progress.complete != (row.progress.phase == Phase::Complete) {
                Err(MigrationError::StageDiffers)
            } else {
                Ok(k)
            }
        },
    }
}

/// How far a repair has come.
pub fn read_progress(repairs: &Repairs, id: &str) -> (r: Result<Progress, MigrationError>)
    ensures
        match read_repair(repairs@, id@) {
            Err(e) => r == Err::<Progress, MigrationError>(e),
            Ok(k) => r matches Ok(p) && p@ == repairs@.repairs[k].progress,
        },
{
    match read(repairs, id) {
        Err(e) => Err(e),
        Ok(k) => Ok(repairs.repairs[k].progress.copied()),
    }
}

/// Why a run may not be reconciled: its receipts are being corrected.
pub open spec fn pending_refusal(repairs: RepairsModel, run: Seq<char>) -> Option<MigrationError> {
    match support::first_where(repairs.repairs, repair_for(run)) {
        None => None,
        Some(k) => match read_repair(repairs, repairs.repairs[k].id) {
            Err(e) => Some(e),
            Ok(i) => match repairs.repairs[i].progress.phase {
                Phase::Reconciliation | Phase::Complete => None,
                _ => Some(MigrationError::RepairPending),
            },
        },
    }
}

pub(crate) fn require_not_pending(repairs: &Repairs, run: &str) -> (r: Option<MigrationError>)
    ensures
        r == pending_refusal(repairs@, run@),
{
    match repairs.find_repair_for(run) {
        None => None,
        Some(k) => match read(repairs, repairs.repairs[k].id.as_str()) {
            Err(e) => Some(e),
            Ok(i) => match repairs.repairs[i].progress.phase {
                Phase::Reconciliation | Phase::Complete => None,
                _ => Some(MigrationError::RepairPending),
            },
        },
    }
}

/// Why a repair cannot go on: its run, its policy or the mappings are others than they
/// were.
pub open spec fn check_refusal(c: Catalog, row: RepairModel) -> Option<MigrationError> {
    let runs = c.migration.runs@;
    match importer::read_run(runs, row.progress.run) {
        Err(e) => Some(e),
        Ok(k) => {
            let run = runs.runs[k].progress;
            match policy_digest(runs.runs[k].policy) {
                Err(e) => Some(e),
                Ok(digest) => if run.input != row.input || digest != row.policy_blake3 {
                    Some(MigrationError::PolicyChanged)
                } else if c.migration.repairs@.epoch != row.request.expected_mapping_epoch {
                    Some(MigrationError::EpochChanged)
                } else if (row.progress.phase == Phase::ArchiveReports || row.progress.phase
                    == Phase::Project) && (run.complete || run.stage != Stage::Reconciliation) {
                    Some(MigrationError::ProgressDiffers)
                } else {
                    None
                },
            }
        },
    }
}

fn check(c: &Catalog, k: usize) -> (r: Option<MigrationError>)
    requires
        k < c.migration.repairs.repairs@.len(),
    ensures
        r == check_refusal(*c, c.migration.repairs.repairs@[k as int]@),
{
    let row = &c.migration.repairs.repairs[k];
    let i: usize = match importer::read(&c.migration.runs, row.progress.run.as_str()) {
        Err(e) => return Some(e),
        Ok(i) => i,
    };
    let run = &c.migration.runs.runs[i].progress;
    let digest: String = match make_policy_digest(&c.migration.runs.runs[i].policy) {
        Err(e) => return Some(e),
        Ok(digest) => digest,
    };
    if !same(run.input.as_str(), row.input.as_str()) || !same(
        digest.as_str(),
        row.policy_blake3.as_str(),
    ) {
        return Some(MigrationError::PolicyChanged);
    }
    if c.migration.repairs.epoch != row.request.expected_mapping_epoch {
        return Some(MigrationError::EpochChanged);
    }
    if (row.progress.phase == Phase::ArchiveReports || row.progress.phase == Phase::Project) && (
    run.complete || run.stage != Stage::Reconciliation) {
        return Some(MigrationError::ProgressDiffers);
    }
    None
}

/// What a sealed source says of itself.
pub struct SourceSelection {
    pub binding: String,
    /// The seal as a document.
    pub seal: Vec<u8>,
    pub approval_blake3: String,
}

/// What was retained of a source's selection.
pub struct RetainedSelection {
    pub complete: bool,
    pub seal: Vec<u8>,
    pub approval: Vec<u8>,
}

/// A source is the very selection that was retained.
pub open spec fn same_selection(source: SourceSelection, kept: RetainedSelection) -> bool {
    kept.complete && kept.seal@.len() <= ARCHIVE_LIMIT && kept.seal@ == source.seal@
        && kept.approval@.len() <= ARCHIVE_LIMIT && outside::blake3_hex(kept.approval@)
        == source.approval_blake3@
}

fn is_same_selection(source: &SourceSelection, kept: &RetainedSelection) -> (r: bool)
    ensures
        r == same_selection(*source, *kept),
{
    kept.complete && kept.seal.len() <= ARCHIVE_LIMIT && same_bytes(
        kept.seal.as_slice(),
        source.seal.as_slice(),
    ) && kept.approval.len() <= ARCHIVE_LIMIT && same(
        blake3_digest(kept.approval.as_slice()).as_str(),
        source.approval_blake3.as_str(),
    )
}

/// A request is in bounds.
pub open spec fn request_bounded(request: RequestModel) -> bool {
    outside::digest_text(request.run) && outside::digest_text(
        request.expected_complete_progress_blake3,
    ) && request.expected_mapping_epoch >= 0 && !support::blank(request.reason)
        && support::byte_length(request.reason) <= REASON_BYTES
}

/// How a repair starts.
pub open spec fn repair_started(id: Seq<char>, run: Seq<char>, input: Seq<char>) -> ProgressModel {
    ProgressModel {
        id,
        run,
        input,
        phase: Phase::ArchiveReports,
        report_index: 0,
        after_record: 0,
        examined: 0,
        repaired: 0,
        unchanged: 0,
        complete: false,
    }
}

/// The progress of a run that is to be reconciled once more.
pub open spec fn reopened(p: importer::ProgressModel) -> importer::ProgressModel {
    importer::ProgressModel {
        complete: false,
        stage: Stage::Reconciliation,
        capture_index: 0,
        cursor: None,
        ..p
    }
}

/// What beginning a repair comes to. A repair that was begun before is found again as
/// far as it has come.
#[verifier::opaque]
pub open spec fn repair_begun(
    c: Catalog,
    source: SourceSelection,
    kept: RetainedSelection,
    request: RequestModel,
) -> Result<(importer::RunsModel, RepairsModel, ProgressModel), MigrationError> {
    let runs = c.migration.runs@;
    let repairs = c.migration.repairs@;
    if !request_bounded(request) {
        Err(MigrationError::RequestBounds)
    } else {
        match importer::read_run(runs, request.run) {
            Err(e) => Err(e),
            Ok(k) => {
                let before = runs.runs[k].progress;
                if before.input != source.binding@ {
                    Err(MigrationError::SealForeign)
                } else if !same_selection(source, kept) {
                    Err(MigrationError::SelectionDiffers)
                } else {
                    match policy_digest(runs.runs[k].policy) {
                        Err(e) => Err(e),
                        Ok(policy) => match repair_identity(request, before.input, policy) {
                            Err(e) => Err(e),
                            Ok(id) => match support::first_where(
                                repairs.repairs,
                                repair_for(request.run),
                            ) {
                                Some(j) => if repairs.repairs[j].id != id {
                                    Err(MigrationError::DecisionChanged)
                                } else {
                                    match read_repair(repairs, id) {
                                        Err(e) => Err(e),
                                        Ok(i) => Ok((runs, repairs, repairs.repairs[i].progress)),
                                    }
                                },
                                None => repair_opened(c, before, request, policy, id),
                            },
                        },
                    }
                }
            },
        }
    }
}

/// What beginning a repair for the first time comes to: the run is to be reconciled
/// once more, and its progress is archived.
pub open spec fn repair_opened(
    c: Catalog,
    before: importer::ProgressModel,
    request: RequestModel,
    policy: Seq<char>,
    id: Seq<char>,
) -> Result<(importer::RunsModel, RepairsModel, ProgressModel), MigrationError> {
    let repairs = c.migration.repairs@;
    if !before.complete || before.stage != Stage::Complete || repairs.epoch
        != request.expected_mapping_epoch {
        Err(MigrationError::RunUnfinished)
    } else {
        match encoded(progress_document(before)) {
            Err(e) => Err(e),
            Ok(original) => if outside::blake3_hex(original)
                != request.expected_complete_progress_blake3 {
                Err(MigrationError::ProgressDiffers)
            } else {
                match archive_of(original) {
                    Err(e) => Err(e),
                    Ok(stream) => match importer::advanced(
                        c.migration.retained@,
                        c.migration.runs@,
                        before,
                        reopened(before),
                        None,
                    ) {
                        Err(e) => Err(e),
                        Ok(moved) => Ok(
                            (
                                moved,
                                RepairsModel {
                                    repairs: repairs.repairs.push(
                                        RepairModel {
                                            id,
                                            run: request.run,
                                            request,
                                            input: before.input,
                                            policy_blake3: policy,
                                            progress: repair_started(id, request.run, before.input),
                                            original: stream,
                                            original_length: original.len() as i64,
                                            original_digest:
                                                request.expected_complete_progress_blake3,
                                        },
                                    ),
                                    ..repairs
                                },
                                repair_started(id, request.run, before.input),
                            ),
                        ),
                    },
                }
            },
        }
    }
}

impl Catalog {
    fn open_repair(
        &mut self,
        before: &importer::Progress,
        request: &Request,
        policy: String,
        id: String,
    ) -> (out: Result<Progress, MigrationError>)
        ensures
            final(self).repairs_only(*old(self)),
            match repair_opened(*old(self), before@, request@, policy@, id@) {
                Err(e) => out == Err::<Progress, MigrationError>(e) && *final(self) == *old(self),
                Ok((runs, repairs, progress)) => final(self).migration.runs@ == runs && final(
                    self).migration.repairs@ == repairs && (out matches Ok(p) && p@ == progress),
            },
    {
        if !before.complete || before.stage != Stage::Complete || self.migration.repairs.epoch
            != request.expected_mapping_epoch {
            return Err(MigrationError::RunUnfinished);
        }
        let original: Vec<u8> = match encode(make_progress_document(before)) {
            Err(e) => return Err(e),
            Ok(original) => original,
        };
        if !same(
            blake3_digest(original.as_slice()).as_str(),
            request.expected_complete_progress_blake3.as_str(),
        ) {
            return Err(MigrationError::ProgressDiffers);
        }
        let stream: Vec<u8> = match compress(original.as_slice()) {
            Err(e) => return Err(e),
            Ok(stream) => stream,
        };
        let mut pending: importer::Progress = before.copied();
        pending.complete = false;
        pending.stage = Stage::Reconciliation;
        pending.capture_index = 0;
        pending.cursor = None;
        match importer::advance(
            &self.migration.retained,
            &mut self.migration.runs,
            before,
            &pending,
            None,
        ) {
            Err(e) => return Err(e),
            Ok(()) => {},
        }
        let progress: Progress = Progress {
            id: id.clone(),
            run: request.run.clone(),
            input: before.input.clone(),
            phase: Phase::ArchiveReports,
            report_index: 0,
            after_record: 0,
            examined: 0,
            repaired: 0,
            unchanged: 0,
            complete: false,
        };
        let row: RepairRow = RepairRow {
            id,
            run: request.run.clone(),
            request: request.copied(),
            input: before.input.clone(),
            policy_blake3: policy,
            progress: progress.copied(),
            original: stream,
            original_length: original.len() as i64,
            original_digest: request.expected_complete_progress_blake3.clone(),
        };
        let ghost start = self.migration.repairs@;
        self.migration.repairs.repairs.push(row);
        assert(self.migration.repairs@.repairs =~= start.repairs.push(row@));
        Ok(progress)
    }

    /// Begins to correct the current settings of a run that is over, or finds the
    /// correction again as far as it has come.
    pub fn begin_current_develop_repair(
        &mut self,
        source: &SourceSelection,
        kept: &RetainedSelection,
        request: &Request,
    ) -> (out: Result<Progress, MigrationError>)
        ensures
            final(self).repairs_only(*old(self)),
            match repair_begun(*old(self), *source, *kept, request@) {
                Err(e) => out == Err::<Progress, MigrationError>(e) && *final(self) == *old(self),
                Ok((runs, repairs, progress)) => final(self).migration.runs@ == runs && final(
                    self).migration.repairs@ == repairs && (out matches Ok(p) && p@ == progress),
            },
    {
        reveal(repair_begun);
        if !is_digest(request.run.as_str()) || !is_digest(
            request.expected_complete_progress_blake3.as_str(),
        ) || request.expected_mapping_epoch < 0 || is_blank(request.reason.as_str()) || byte_len(
            request.reason.as_str(),
        ) > REASON_BYTES {
            return Err(MigrationError::RequestBounds);
        }
        let k: usize = match importer::read(&self.migration.runs, request.run.as_str()) {
            Err(e) => return Err(e),
            Ok(k) => k,
        };
        let before: importer::Progress = self.migration.runs.runs[k].progress.copied();
        if !same(before.input.as_str(), source.binding.as_str()) {
            return Err(MigrationError::SealForeign);
        }
        if !is_same_selection(source, kept) {
            return Err(MigrationError::SelectionDiffers);
        }
        let policy: String = match make_policy_digest(&self.migration.runs.runs[k].policy) {
            Err(e) => return Err(e),
            Ok(policy) => policy,
        };
        let id: String = match make_repair_identity(
            request,
            before.input.as_str(),
            policy.as_str(),
        ) {
            Err(e) => return Err(e),
            Ok(id) => id,
        };
        match self.migration.repairs.find_repair_for(request.run.as_str()) {
            Some(j) => {
                if !same(self.migration.repairs.repairs[j].id.as_str(), id.as_str()) {
                    return Err(MigrationError::DecisionChanged);
                }
                read_progress(&self.migration.repairs, id.as_str())
            },
            None => self.open_repair(&before, request, policy, id),
        }
    }

    /// How far a repair has come.
    pub fn current_develop_repair_progress(&self, id: &str) -> (r: Result<Progress, MigrationError>)
        ensures
            match read_repair(self.migration.repairs@, id@) {
                Err(e) => r == Err::<Progress, MigrationError>(e),
                Ok(k) => r matches Ok(p) && p@ == self.migration.repairs@.repairs[k].progress,
            },
    {
        read_progress(&self.migration.repairs, id)
    }
}

/// The repairs with another progress of one of them.
pub open spec fn with_progress(repairs: RepairsModel, k: int, after: ProgressModel) -> RepairsModel {
    RepairsModel {
        repairs: repairs.repairs.update(k, RepairModel { progress: after, ..repairs.repairs[k] }),
        ..repairs
    }
}

fn set_progress(repairs: &mut Repairs, k: usize, after: Progress)
    requires
        k < old(repairs).repairs@.len(),
    ensures
        final(repairs)@ == with_progress(old(repairs)@, k as int, after@),
        final(repairs).repairs@.len() == old(repairs).repairs@.len(),
{
    let ghost start = repairs@;
    let old_row = &repairs.repairs[k];
    let row: RepairRow = RepairRow {
        id: old_row.id.clone(),
        run: old_row.run.clone(),
        request: old_row.request.copied(),
        input: old_row.input.clone(),
        policy_blake3: old_row.policy_blake3.clone(),
        progress: after,
        original: copy_bytes(old_row.original.as_slice()),
        original_length: old_row.original_length,
        original_digest: old_row.original_digest.clone(),
    };
    assert(start.repairs[k as int] == repairs.repairs@[k as int]@);
    repairs.repairs.set(k, row);
    assert(repairs@ =~= with_progress(start, k as int, after@));
}

/// A step that archives the next report, or goes on once no report is left.
pub open spec fn report_archived(
    repairs: RepairsModel,
    k: int,
    selected: Seq<SelectedCapture>,
) -> Result<(RepairsModel, StepModel), MigrationError> {
    let row = repairs.repairs[k];
    let before = row.progress;
    if before.report_index < selected.len() {
        let revision = selected[before.report_index as int].revision@;
        match support::first_where(repairs.reports, report_of(before.run, revision)) {
            None => Err(MigrationError::ReportMissing),
            Some(j) => {
                let report = repairs.reports[j];
                let after = ProgressModel {
                    report_index: (before.report_index + 1) as usize,
                    ..before
                };
                if report.report.len() > ARCHIVE_LIMIT {
                    Err(MigrationError::ArchiveBounds)
                } else if report.epoch != row.request.expected_mapping_epoch {
                    Err(MigrationError::EpochChanged)
                } else {
                    match archive_of(report.report) {
                        Err(e) => Err(e),
                        Ok(stream) => if support::first_where(
                            repairs.archived,
                            archived_of(before.id, revision),
                        ) is Some {
                            Err(MigrationError::ItemRecorded)
                        } else {
                            Ok(
                                (
                                    RepairsModel {
                                        archived: repairs.archived.push(
                                            ArchivedReportModel {
                                                repair: before.id,
                                                revision,
                                                compressed: stream,
                                                raw_length: report.report.len() as i64,
                                                digest: outside::blake3_hex(report.report),
                                                epoch: report.epoch,
                                            },
                                        ),
                                        reports: repairs.reports.remove(j),
                                        ..with_progress(repairs, k, after)
                                    },
                                    StepModel { progress: after, record: None, outcome: None },
                                ),
                            )
                        },
                    }
                }
            },
        }
    } else if support::first_where(repairs.reports, report_in(before.run)) is Some {
        Err(MigrationError::ReportUnexpected)
    } else {
        let after = ProgressModel { phase: Phase::Project, ..before };
        Ok(
            (
                with_progress(repairs, k, after),
                StepModel { progress: after, record: None, outcome: None },
            ),
        )
    }
}

fn archive_report(repairs: &mut Repairs, k: usize, selected: &Vec<SelectedCapture>) -> (out: Result<
    Step,
    MigrationError,
>)
    requires
        k < old(repairs).repairs@.len(),
    ensures
        match report_archived(old(repairs)@, k as int, selected@) {
            Err(e) => out == Err::<Step, MigrationError>(e) && *final(repairs) == *old(repairs),
            Ok((m, step)) => final(repairs)@ == m && (out matches Ok(made) && made@ == step),
        },
{
    let ghost start = repairs@;
    assert(start.repairs[k as int] == repairs.repairs@[k as int]@);
    let before: Progress = repairs.repairs[k].progress.copied();
    let epoch: i64 = repairs.repairs[k].request.expected_mapping_epoch;
    let mut after: Progress = before.copied();
    if before.report_index < selected.len() {
        let revision: &str = selected[before.report_index].revision.as_str();
        let j: usize = match repairs.find_report(before.run.as_str(), revision) {
            None => return Err(MigrationError::ReportMissing),
            Some(j) => j,
        };
        let report = &repairs.reports[j];
        if report.report.len() > ARCHIVE_LIMIT {
            return Err(MigrationError::ArchiveBounds);
        }
        if report.epoch != epoch {
            return Err(MigrationError::EpochChanged);
        }
        let stream: Vec<u8> = match compress(report.report.as_slice()) {
            Err(e) => return Err(e),
            Ok(stream) => stream,
        };
        let id: &str = before.id.as_str();
        let test = |a: &ArchivedReport| -> (b: bool)
            ensures b == archived_of(id@, revision@)(a@)
        {
            same(a.repair.as_str(), id) && same(a.revision.as_str(), revision)
        };
        if support::find(&repairs.archived, test, Ghost(archived_of(id@, revision@))).is_some() {
            return Err(MigrationError::ItemRecorded);
        }
        after.report_index = before.report_index + 1;
        let row: ArchivedReport = ArchivedReport {
            repair: before.id.clone(),
            revision: revision.to_owned(),
            compressed: stream,
            raw_length: report.report.len() as i64,
            digest: blake3_digest(report.report.as_slice()),
            epoch: report.epoch,
        };
        repairs.archived.push(row);
        let ghost reports = repairs.reports@;
        repairs.reports.remove(j);
        assert(support::models(repairs.reports@) =~= support::models(reports).remove(j as int));
        set_progress(repairs, k, after.copied());
        assert(repairs@ =~= report_archived(start, k as int, selected@)->Ok_0.0);
        Ok(Step { progress: after, record: None, outcome: None })
    } else {
        let run: &str = before.run.as_str();
        let test = |r: &ReportRow| -> (b: bool)
            ensures b == report_in(run@)(r@)
        {
            same(r.run.as_str(), run)
        };
        if support::find(&repairs.reports, test, Ghost(report_in(run@))).is_some() {
            return Err(MigrationError::ReportUnexpected);
        }
        after.phase = Phase::Project;
        set_progress(repairs, k, after.copied());
        Ok(Step { progress: after, record: None, outcome: None })
    }
}

/// Where an imported recipe came from.
#[derive(Clone, Debug)]
pub struct RecipeSource {
    pub adapter: String,
    pub input_digest: String,
    pub retained_record: i64,
    pub capture_revision: String,
    pub table: String,
    /// The key of the row as a document.
    pub key: String,
}

/// What is known of the recipe that an image was imported with.
#[derive(Clone, Debug)]
pub struct RecipeFacts {
    /// The image's revision now.
    pub current_revision: i64,
    /// The kind of the change that made the imported revision.
    pub kind: String,
    /// Where that change came from, if it is what an import writes and nothing else.
    pub provenance: Option<RecipeSource>,
    /// The recipe that the change made, the recipe that the image has, its revision, and
    /// the digests of both.
    pub node: i64,
    pub cursor: Option<i64>,
    pub revision: i64,
    pub digest: String,
    pub stored_digest: String,
}

/// A projection that was made again with the settings' proper place.
#[derive(Clone, Debug)]
pub struct ProjectionFacts {
    pub result: ResultRecord,
    pub key: VariantKey,
    pub image_source: String,
    pub payload_source: String,
}

/// What interpreting a row's settings once more gave.
#[derive(Clone, Debug)]
pub struct RepairFacts {
    /// The digest of the decision that was made.
    pub input_digest: String,
    /// Where the settings are to be looked for.
    pub settings_path: Vec<String>,
    pub recipe: Option<RecipeFacts>,
    pub projection: Option<ProjectionFacts>,
}

/// A row that a repair has yet to look at.
pub open spec fn yet_to_repair(item: importer::RunItemModel, run: Seq<char>, after: i64) -> bool {
    item.run == run && item.stage == Stage::CurrentDevelop && item.record > after
}

/// The next row that a repair looks at, among the first `n`: the one with the least
/// number.
pub open spec fn next_item(items: Seq<importer::RunItemModel>, run: Seq<char>, after: i64, n: nat) -> Option<
    int,
>
    decreases n,
{
    if n == 0 {
        None
    } else {
        let found = next_item(items, run, after, (n - 1) as nat);
        if !yet_to_repair(items[n - 1], run, after) {
            found
        } else {
            match found {
                Some(i) if items[i].record <= items[n - 1].record => Some(i),
                _ => Some(n - 1),
            }
        }
    }
}

proof fn lemma_next_item(items: Seq<importer::RunItemModel>, run: Seq<char>, after: i64, n: nat)
    requires
        n <= items.len(),
    ensures
        match next_item(items, run, after, n) {
            Some(i) => 0 <= i < n && yet_to_repair(items[i], run, after) && forall|j: int|
                0 <= j < n && yet_to_repair(#[trigger] items[j], run, after) ==> items[i].record
                    <= items[j].record,
            None => forall|j: int|
                0 <= j < n ==> !yet_to_repair(#[trigger] items[j], run, after),
        },
    decreases n,
{
    if n > 0 {
        lemma_next_item(items, run, after, (n - 1) as nat);
    }
}

fn find_next_item(items: &Vec<importer::RunItem>, run: &str, after: i64) -> (r: Option<usize>)
    ensures
        match r {
            Some(i) => i < items@.len() && next_item(
                support::models(items@),
                run@,
                after,
                items@.len(),
            ) == Some(i as int) && support::models(items@)[i as int] == items@[i as int]@,
            None => next_item(support::models(items@), run@, after, items@.len()) is None,
        },
{
    let ghost all = support::models(items@);
    let mut found: Option<usize> = None;
    let mut n: usize = 0;
    while n < items.len()
        invariant
            n <= items@.len(),
            all == support::models(items@),
            match found {
                Some(i) => i < n && next_item(all, run@, after, n as nat) == Some(i as int),
                None => next_item(all, run@, after, n as nat) is None,
            },
        decreases items@.len() - n,
    {
        let item = &items[n];
        assert(all[n as int] == item@);
        if item.stage == Stage::CurrentDevelop && item.record > after && same(
            item.run.as_str(),
            run,
        ) {
            found = match found {
                Some(i) => {
                    assert(all[i as int] == items@[i as int]@);
                    if items[i].record <= item.record {
                        Some(i)
                    } else {
                        Some(n)
                    }
                },
                None => Some(n),
            };
        }
        n += 1;
    }
    proof {
        if let Some(i) = found {
            assert(all[i as int] == items@[i as int]@);
        }
    }
    found
}

/// A compact receipt of projected metadata.
pub open spec fn receipt_of(result: ResultRecordModel) -> OutcomeModel {
    OutcomeModel::Metadata {
        input_digest: result.input_digest,
        state: result.state,
        observation: result.observation,
        reason: result.reason,
    }
}

/// A compact receipt of projected metadata.
pub fn outcome(result: &ResultRecord) -> (o: Outcome)
    ensures
        o@ == receipt_of(result@),
{
    Outcome::Metadata {
        input_digest: result.input_digest.clone(),
        state: result.state.clone(),
        observation: result.observation,
        reason: copy_option(&result.reason),
    }
}

/// What a row's metadata is of, and where it stands.
#[verifier::ext_equal]
pub struct Predecessors {
    pub image: Seq<char>,
    pub payload: Seq<char>,
    pub target: SourceRecordModel,
    pub at: int,
}

/// The metadata that a row became: it has to be the run's own, of the image that the
/// row became, and what the row's receipt says.
pub open spec fn predecessor_of(
    c: Catalog,
    item: importer::RunItemModel,
    owner: Seq<char>,
    input: Seq<char>,
) -> Result<Predecessors, MigrationError> {
    let r = c.migration.retained@;
    let metadata = c.migration.repairs@.metadata;
    match import_rows::row_record(r, item.record) {
        Err(e) => Err(e),
        Ok(origin) => if origin.source.table != "Adobe_images"@ {
            Err(MigrationError::SourceTable)
        } else {
            match import_rows::link_of(
                r,
                input,
                origin,
                "developSettingsIDCache"@,
                "Adobe_imageDevelopSettings"@,
            ) {
                Err(e) => Err(e),
                Ok(Err(why)) => Err(retained::relation_error(why)),
                Ok(Ok(link)) => {
                    let image = origin.source.identity;
                    let payload = link.target.source.identity;
                    match support::first_where(metadata, settings_of(image, payload)) {
                        None => Err(MigrationError::MetadataMissing),
                        Some(j) => {
                            let old = metadata[j];
                            if old.result.len() > ARCHIVE_LIMIT {
                                Err(MigrationError::ArchiveBounds)
                            } else if old.owner != owner || old.input_digest
                                != old.record.input_digest || old.retained_record
                                != link.target.retained_record || receipt_of(old.record)
                                != item.outcome {
                                Err(MigrationError::AssociationDiffers)
                            } else if images::mapped_image_of(c.tables@, owner, origin.source)
                                != Some(old.record.image) {
                                Err(MigrationError::ImageDiffers)
                            } else {
                                Ok(Predecessors { image, payload, target: link.target, at: j })
                            }
                        },
                    }
                },
            }
        },
    }
}

/// Where settings were looked for.
pub open spec fn prior_path(old: ResultRecordModel) -> Seq<Seq<char>> {
    match old.extraction {
        Some(e) => e.settings_path,
        None => Seq::empty(),
    }
}

/// An imported recipe comes from the settings that a decision was made of.
pub open spec fn comes_from(p: RecipeSource, target: SourceRecordModel, input_digest: Seq<char>) -> bool {
    &&& p.adapter@ == "lightroom-native-metadata-v1"@
    &&& p.input_digest@ == input_digest
    &&& p.retained_record == target.retained_record
    &&& p.capture_revision@ == target.source.capture_revision
    &&& p.table@ == target.source.table
    &&& p.key@ == target.source.key
}

/// Why an image's recipe is not to be touched: it is not the imported one any more.
pub open spec fn recipe_refusal(
    recipe: RecipeFacts,
    target: SourceRecordModel,
    old: ResultRecordModel,
    revision: i64,
) -> Option<MigrationError> {
    if recipe.current_revision != revision || recipe.kind@ != "import"@ || recipe.cursor != Some(
        recipe.node,
    ) || recipe.revision != revision || recipe.digest@ != recipe.stored_digest@ {
        Some(MigrationError::RecipeChanged)
    } else if !(recipe.provenance matches Some(p) && comes_from(p, target, old.input_digest)) {
        Some(MigrationError::RecipeChanged)
    } else {
        None
    }
}

fn check_recipe(
    recipe: &RecipeFacts,
    target: &SourceRecord,
    old: &ResultRecord,
    revision: i64,
) -> (r: Option<MigrationError>)
    ensures
        r == recipe_refusal(*recipe, target@, old@, revision),
{
    let current: bool = match recipe.cursor {
        Some(cursor) => cursor == recipe.node,
        None => false,
    };
    if recipe.current_revision != revision || !same(recipe.kind.as_str(), "import") || !current
        || recipe.revision != revision || !same(
        recipe.digest.as_str(),
        recipe.stored_digest.as_str(),
    ) {
        return Some(MigrationError::RecipeChanged);
    }
    match &recipe.provenance {
        None => Some(MigrationError::RecipeChanged),
        Some(p) => {
            if !same(p.adapter.as_str(), "lightroom-native-metadata-v1") || !same(
                p.input_digest.as_str(),
                old.input_digest.as_str(),
            ) || p.retained_record != target.retained_record || !same(
                p.capture_revision.as_str(),
                target.source.capture_revision.as_str(),
            ) || !same(p.table.as_str(), target.source.table.as_str()) || !same(
                p.key.as_str(),
                target.source.key.as_str(),
            ) {
                Some(MigrationError::RecipeChanged)
            } else {
                None
            }
        },
    }
}

/// A projection that was made again is of the same image and comes from the same
/// settings.
pub open spec fn projection_refusal(
    p: ProjectionFacts,
    found: Predecessors,
    old: ResultRecordModel,
) -> Option<MigrationError> {
    match (old.extraction, p.result@.extraction) {
        (Some(before), Some(after)) => if before.source != after.source {
            Some(MigrationError::ExtractionDiffers)
        } else if p.key@ != old.image || p.image_source@ != found.image || p.payload_source@
            != found.payload {
            Some(MigrationError::ImageDiffers)
        } else {
            match encoded(result_document(p.result@)) {
                Err(e) => Some(e),
                Ok(_) => None,
            }
        },
        _ => Some(MigrationError::ExtractionDiffers),
    }
}

/// Whether a row's metadata is to be replaced. Only a decision that translated nothing
/// can be corrected, and only as long as the image is as it was imported.
pub open spec fn rebinds(found: Predecessors, old: ResultRecordModel, facts: RepairFacts) -> Result<
    bool,
    MigrationError,
> {
    if facts.input_digest@ != old.input_digest {
        Err(MigrationError::PredecessorDiffers)
    } else if support::models(facts.settings_path@) == prior_path(old) {
        Ok(false)
    } else if prior_path(old).len() != 0 || old.state != "retained_only"@ || old.observation is Some
        || (old.extraction matches Some(e) && e.translated) {
        Err(MigrationError::RepairForbidden)
    } else {
        match (old.edit_revision, facts.recipe) {
            (Some(revision), Some(recipe)) => match recipe_refusal(
                recipe,
                found.target,
                old,
                revision,
            ) {
                Some(e) => Err(e),
                None => match facts.projection {
                    None => Err(MigrationError::ExtractionDiffers),
                    Some(p) => match projection_refusal(p, found, old) {
                        Some(e) => Err(e),
                        None => Ok(true),
                    },
                },
            },
            _ => Err(MigrationError::RecipeMissing),
        }
    }
}

pub(crate) fn same_paths(a: &Vec<String>, b: &Vec<String>) -> (r: bool)
    ensures
        r == (support::models(a@) == support::models(b@)),
{
    if a.len() != b.len() {
        assert(support::models(a@).len() != support::models(b@).len());
        return false;
    }
    let mut i: usize = 0;
    while i < a.len()
        invariant
            i <= a@.len() == b@.len(),
            forall|k: int| 0 <= k < i ==> (#[trigger] a@[k])@ == b@[k]@,
        decreases a@.len() - i,
    {
        if !same(a[i].as_str(), b[i].as_str()) {
            assert(support::models(a@)[i as int] != support::models(b@)[i as int]);
            return false;
        }
        i += 1;
    }
    assert(support::models(a@) =~= support::models(b@));
    true
}

fn check_projection(
    p: &ProjectionFacts,
    image: &str,
    payload: &str,
    old: &ResultRecord,
    Ghost(found): Ghost<Predecessors>,
) -> (r: Option<MigrationError>)
    requires
        found.image == image@,
        found.payload == payload@,
    ensures
        r == projection_refusal(*p, found, old@),
{
    match (&old.extraction, &p.result.extraction) {
        (Some(before), Some(after)) => {
            if !same(before.source.as_str(), after.source.as_str()) {
                Some(MigrationError::ExtractionDiffers)
            } else if !p.key.same_as(&old.image) || !same(p.image_source.as_str(), image) || !same(
                p.payload_source.as_str(),
                payload,
            ) {
                Some(MigrationError::ImageDiffers)
            } else {
                match encode(make_result_document(&p.result)) {
                    Err(e) => Some(e),
                    Ok(_) => None,
                }
            }
        },
        _ => Some(MigrationError::ExtractionDiffers),
    }
}

fn check_rebind(
    image: &str,
    payload: &str,
    target: &SourceRecord,
    old: &ResultRecord,
    facts: &RepairFacts,
    Ghost(found): Ghost<Predecessors>,
) -> (r: Result<bool, MigrationError>)
    requires
        found.image == image@,
        found.payload == payload@,
        found.target == target@,
    ensures
        r == rebinds(found, old@, *facts),
{
    if !same(facts.input_digest.as_str(), old.input_digest.as_str()) {
        return Err(MigrationError::PredecessorDiffers);
    }
    let (unmoved, empty, translated): (bool, bool, bool) = match &old.extraction {
        Some(e) => {
            assert(support::models(e.settings_path@).len() == e.settings_path@.len());
            (
                same_paths(&facts.settings_path, &e.settings_path),
                e.settings_path.len() == 0,
                e.translated,
            )
        },
        None => {
            proof {
                let path = support::models(facts.settings_path@);
                assert(path.len() == facts.settings_path@.len());
                if path.len() == 0 {
                    assert(path =~= Seq::<Seq<char>>::empty());
                }
            }
            (facts.settings_path.len() == 0, true, false)
        },
    };
    if unmoved {
        return Ok(false);
    }
    if !empty || !same(old.state.as_str(), "retained_only") || old.observation.is_some()
        || translated {
        return Err(MigrationError::RepairForbidden);
    }
    match (old.edit_revision, &facts.recipe) {
        (Some(revision), Some(recipe)) => {
            match check_recipe(recipe, target, old, revision) {
                Some(e) => return Err(e),
                None => {},
            }
            match &facts.projection {
                None => Err(MigrationError::ExtractionDiffers),
                Some(p) => match check_projection(p, image, payload, old, Ghost(found)) {
                    Some(e) => Err(e),
                    None => Ok(true),
                },
            }
        },
        _ => Err(MigrationError::RecipeMissing),
    }
}

/// Why a row that became no metadata is not looked at: it is no image row of the
/// source.
pub open spec fn row_refusal(r: RetainedModel, item: importer::RunItemModel, input: Seq<char>) -> Option<
    MigrationError,
> {
    match r.record_of(item.record) {
        None => Some(MigrationError::RecordMissing),
        Some(i) => {
            let rec = r.records[i];
            if rec.input != input || rec.revision != item.revision || rec.collection
                != Collection::Rows {
                Some(MigrationError::RecordForeign)
            } else {
                match rec.field_bytes("table_name"@, TABLE_BYTES as nat) {
                    Err(e) => Some(e),
                    Ok(name) => if name == encode_utf8("Adobe_images"@) {
                        None
                    } else {
                        Some(MigrationError::RecordForeign)
                    },
                }
            }
        },
    }
}

fn check_row(r: &Retained, item: &importer::RunItem, input: &str) -> (out: Option<MigrationError>)
    ensures
        out == row_refusal(r@, item@, input@),
{
    let i: usize = match r.find_record(item.record) {
        None => return Some(MigrationError::RecordMissing),
        Some(i) => i,
    };
    let rec = &r.records[i];
    if rec.collection != Collection::Rows || !same(rec.input.as_str(), input) || !same(
        rec.revision.as_str(),
        item.revision.as_str(),
    ) {
        return Some(MigrationError::RecordForeign);
    }
    match rec.read_bytes("table_name", TABLE_BYTES) {
        Err(e) => Some(e),
        Ok(name) => {
            if same_bytes(name.as_slice(), "Adobe_images".as_bytes()) {
                None
            } else {
                Some(MigrationError::RecordForeign)
            }
        },
    }
}

/// What a repair does with a row.
pub enum RowChoice {
    /// The row became no metadata.
    Untouched,
    /// The settings were looked for where they are.
    Kept(Predecessors),
    /// The settings are somewhere else.
    Rebound(Predecessors),
}

/// What a repair does with a row.
pub open spec fn row_choice(
    c: Catalog,
    item: importer::RunItemModel,
    owner: Seq<char>,
    input: Seq<char>,
    facts: Option<RepairFacts>,
) -> Result<RowChoice, MigrationError> {
    if item.outcome is Metadata {
        match predecessor_of(c, item, owner, input) {
            Err(e) => Err(e),
            Ok(found) => match facts {
                None => Err(MigrationError::EventDiffers),
                Some(facts) => match rebinds(
                    found,
                    c.migration.repairs@.metadata[found.at].record,
                    facts,
                ) {
                    Err(e) => Err(e),
                    Ok(true) => Ok(RowChoice::Rebound(found)),
                    Ok(false) => Ok(RowChoice::Kept(found)),
                },
            },
        }
    } else {
        match row_refusal(c.migration.retained@, item, input) {
            Some(e) => Err(e),
            None => Ok(RowChoice::Untouched),
        }
    }
}

/// What is said of a row that a repair looked at.
pub open spec fn disposition(choice: RowChoice) -> Seq<char> {
    match choice {
        RowChoice::Untouched => "unchanged_nonprojection"@,
        RowChoice::Kept(_) => "unchanged_container"@,
        RowChoice::Rebound(_) => "container_rebound"@,
    }
}

/// The progress of a repair after one more row.
pub open spec fn counted(before: ProgressModel, record: i64, rebound: bool) -> Result<
    ProgressModel,
    MigrationError,
> {
    if before.examined == u64::MAX || (rebound && before.repaired == u64::MAX) || (!rebound
        && before.unchanged == u64::MAX) {
        Err(MigrationError::Overflow)
    } else {
        Ok(
            ProgressModel {
                after_record: record,
                examined: (before.examined + 1) as u64,
                repaired: if rebound {
                    (before.repaired + 1) as u64
                } else {
                    before.repaired
                },
                unchanged: if rebound {
                    before.unchanged
                } else {
                    (before.unchanged + 1) as u64
                },
                ..before
            },
        )
    }
}

/// The header of metadata that stood.
pub open spec fn header_of(m: MetadataModel) -> MetadataHeaderModel {
    MetadataHeaderModel {
        image_source: m.image_source,
        payload_source: m.payload_source,
        slot: m.slot,
        owner: m.owner,
        input_digest: m.input_digest,
        retained_record: m.retained_record,
    }
}

/// The archive of metadata that stood.
pub open spec fn metadata_archive(m: MetadataModel) -> Result<
    (MetadataHeaderModel, Seq<u8>, i64, Seq<char>),
    MigrationError,
> {
    match archive_of(m.result) {
        Err(e) => Err(e),
        Ok(stream) => Ok(
            (header_of(m), stream, m.result.len() as i64, outside::blake3_hex(m.result)),
        ),
    }
}

/// The archive of what stood of a row, before a repair changes anything.
pub open spec fn row_archive(
    repair: Seq<char>,
    item: importer::RunItemModel,
    metadata: Option<MetadataModel>,
    said: Seq<char>,
    new_result: Option<Seq<char>>,
    new_outcome: OutcomeModel,
) -> Result<RepairItemModel, MigrationError> {
    match (encoded(outcome_document(item.outcome)), encoded(outcome_document(new_outcome))) {
        (Err(e), _) => Err(e),
        (Ok(_), Err(e)) => Err(e),
        (Ok(old), Ok(new)) => match archive_of(old) {
            Err(e) => Err(e),
            Ok(stream) => {
                let made = RepairItemModel {
                    repair,
                    record: item.record,
                    revision: item.revision,
                    disposition: said,
                    old_outcome: stream,
                    outcome_length: old.len() as i64,
                    outcome_digest: outside::blake3_hex(old),
                    metadata: None,
                    new_result_digest: new_result,
                    new_outcome_digest: outside::blake3_hex(new),
                };
                match metadata {
                    None => Ok(made),
                    Some(m) => match metadata_archive(m) {
                        Err(e) => Err(e),
                        Ok(archive) => Ok(RepairItemModel { metadata: Some(archive), ..made }),
                    },
                }
            },
        },
    }
}

/// The metadata that a corrected projection leaves.
pub open spec fn rebound_metadata(m: MetadataModel, p: ProjectionFacts) -> MetadataModel {
    MetadataModel {
        input_digest: p.result@.input_digest,
        result: encoded(result_document(p.result@))->Ok_0,
        record: p.result@,
        ..m
    }
}

/// What looking at a row changes: what stood is archived, and where the settings are
/// somewhere else, metadata and receipt are replaced.
#[verifier::opaque]
pub open spec fn row_repaired(
    c: Catalog,
    k: int,
    i: int,
    owner: Seq<char>,
    facts: Option<RepairFacts>,
) -> Result<(importer::RunsModel, RepairsModel, StepModel), MigrationError> {
    let runs = c.migration.runs@;
    let repairs = c.migration.repairs@;
    let before = repairs.repairs[k].progress;
    let item = runs.items[i];
    match row_choice(c, item, owner, before.input, facts) {
        Err(e) => Err(e),
        Ok(choice) => {
            let rebound = choice is Rebound;
            let metadata = match choice {
                RowChoice::Untouched => None,
                RowChoice::Kept(found) => Some(repairs.metadata[found.at]),
                RowChoice::Rebound(found) => Some(repairs.metadata[found.at]),
            };
            let new_outcome = if rebound {
                receipt_of(facts->0.projection->0.result@)
            } else {
                item.outcome
            };
            let new_result = match choice {
                RowChoice::Untouched => None,
                RowChoice::Kept(found) => Some(
                    outside::blake3_hex(repairs.metadata[found.at].result),
                ),
                RowChoice::Rebound(_) => Some(
                    outside::blake3_hex(
                        encoded(result_document(facts->0.projection->0.result@))->Ok_0,
                    ),
                ),
            };
            match row_archive(
                before.id,
                item,
                metadata,
                disposition(choice),
                new_result,
                new_outcome,
            ) {
                Err(e) => Err(e),
                Ok(archive) => match counted(before, item.record, rebound) {
                    Err(e) => Err(e),
                    Ok(after) => if support::first_where(
                        repairs.items,
                        repaired_item(before.id, item.record),
                    ) is Some {
                        Err(MigrationError::ItemRecorded)
                    } else {
                        let step = StepModel {
                            progress: after,
                            record: Some(item.record),
                            outcome: Some(disposition(choice)),
                        };
                        let moved = RepairsModel {
                            items: repairs.items.push(archive),
                            ..with_progress(repairs, k, after)
                        };
                        match choice {
                            RowChoice::Rebound(found) => Ok(
                                (
                                    importer::RunsModel {
                                        items: runs.items.update(
                                            i,
                                            importer::RunItemModel { outcome: new_outcome, ..item },
                                        ),
                                        ..runs
                                    },
                                    RepairsModel {
                                        metadata: repairs.metadata.update(
                                            found.at,
                                            rebound_metadata(
                                                repairs.metadata[found.at],
                                                facts->0.projection->0,
                                            ),
                                        ),
                                        ..moved
                                    },
                                    step,
                                ),
                            ),
                            _ => Ok((runs, moved, step)),
                        }
                    },
                },
            }
        },
    }
}

/// What a row's metadata is of, and where it stands, in the rows themselves.
struct Found {
    image: String,
    payload: String,
    target: SourceRecord,
    at: usize,
}

impl Found {
    spec fn shows(self) -> Predecessors {
        Predecessors {
            image: self.image@,
            payload: self.payload@,
            target: self.target@,
            at: self.at as int,
        }
    }
}

fn same_receipt(result: &ResultRecord, o: &Outcome) -> (r: bool)
    ensures
        r == (receipt_of(result@) == o@),
{
    match o {
        Outcome::Metadata { input_digest, state, observation, reason } => {
            let observed: bool = match (result.observation, *observation) {
                (Some(a), Some(b)) => a == b,
                (None, None) => true,
                _ => false,
            };
            same(result.input_digest.as_str(), input_digest.as_str()) && same(
                result.state.as_str(),
                state.as_str(),
            ) && observed && same_option(&result.reason, reason)
        },
        _ => false,
    }
}

fn find_predecessor(c: &Catalog, item: &importer::RunItem, owner: &str, input: &str) -> (out: Result<
    Found,
    MigrationError,
>)
    ensures
        match predecessor_of(*c, item@, owner@, input@) {
            Err(e) => out matches Err(why) && why == e,
            Ok(p) => out matches Ok(found) && found.shows() == p && found.at
                < c.migration.repairs.metadata@.len() && c.migration.repairs@.metadata[p.at]
                == c.migration.repairs.metadata@[p.at]@,
        },
{
    let r = &c.migration.retained;
    let origin: SourceRecord = match find_row_record(r, item.record) {
        Err(e) => return Err(e),
        Ok(origin) => origin,
    };
    if !same(origin.source.table.as_str(), "Adobe_images") {
        return Err(MigrationError::SourceTable);
    }
    let link: Link = match find_link(
        r,
        input,
        &origin,
        "developSettingsIDCache",
        "Adobe_imageDevelopSettings",
    ) {
        Err(e) => return Err(e),
        Ok(Err(why)) => return Err(retained::to_relation_error(why)),
        Ok(Ok(link)) => link,
    };
    let at: usize = match c.migration.repairs.find_settings(
        origin.source.identity.as_str(),
        link.target.source.identity.as_str(),
    ) {
        None => return Err(MigrationError::MetadataMissing),
        Some(at) => at,
    };
    let old = &c.migration.repairs.metadata[at];
    if old.result.len() > ARCHIVE_LIMIT {
        return Err(MigrationError::ArchiveBounds);
    }
    if !same(old.owner.as_str(), owner) || !same(
        old.input_digest.as_str(),
        old.record.input_digest.as_str(),
    ) || old.retained_record != link.target.retained_record || !same_receipt(
        &old.record,
        &item.outcome,
    ) {
        return Err(MigrationError::AssociationDiffers);
    }
    let mapped: bool = match mapped_image(&c.tables, owner, &origin.source) {
        None => false,
        Some(key) => key.same_as(&old.record.image),
    };
    if !mapped {
        return Err(MigrationError::ImageDiffers);
    }
    Ok(
        Found {
            image: origin.source.identity,
            payload: link.target.source.identity.clone(),
            target: link.target,
            at,
        },
    )
}

/// The choice that is made of a row.
spec fn choice_of(found: Option<Found>, rebound: bool) -> RowChoice {
    match found {
        None => RowChoice::Untouched,
        Some(f) => if rebound {
            RowChoice::Rebound(f.shows())
        } else {
            RowChoice::Kept(f.shows())
        },
    }
}

fn choose_row(
    c: &Catalog,
    item: &importer::RunItem,
    owner: &str,
    input: &str,
    facts: &Option<RepairFacts>,
) -> (out: Result<(Option<Found>, bool), MigrationError>)
    ensures
        match row_choice(*c, item@, owner@, input@, *facts) {
            Err(e) => out matches Err(why) && why == e,
            Ok(choice) => out matches Ok((found, rebound)) && choice == choice_of(found, rebound) && (
            found is None ==> !rebound) && (found matches Some(f) ==> f.at
                < c.migration.repairs.metadata@.len() && c.migration.repairs@.metadata[f.at as int]
                == c.migration.repairs.metadata@[f.at as int]@) && (rebound ==> facts is Some
                && facts->0.projection is Some),
        },
{
    let projected: bool = match &item.outcome {
        Outcome::Metadata { .. } => true,
        _ => false,
    };
    if !projected {
        match check_row(&c.migration.retained, item, input) {
            Some(e) => return Err(e),
            None => {},
        }
        return Ok((None, false));
    }
    let found: Found = match find_predecessor(c, item, owner, input) {
        Err(e) => return Err(e),
        Ok(found) => found,
    };
    match facts {
        None => Err(MigrationError::EventDiffers),
        Some(facts) => match check_rebind(
            found.image.as_str(),
            found.payload.as_str(),
            &found.target,
            &c.migration.repairs.metadata[found.at].record,
            facts,
            Ghost(found.shows()),
        ) {
            Err(e) => Err(e),
            Ok(rebound) => Ok((Some(found), rebound)),
        },
    }
}

fn get_disposition(found: bool, rebound: bool) -> (r: &'static str)
    ensures
        r@ == if !found {
            "unchanged_nonprojection"@
        } else if rebound {
            "container_rebound"@
        } else {
            "unchanged_container"@
        },
{
    if !found {
        "unchanged_nonprojection"
    } else if rebound {
        "container_rebound"
    } else {
        "unchanged_container"
    }
}

fn make_row_archive(
    repair: &str,
    item: &importer::RunItem,
    metadata: Option<&MetadataRow>,
    said: &str,
    new_result: Option<String>,
    new_outcome: &Outcome,
) -> (out: Result<RepairItem, MigrationError>)
    ensures
        match row_archive(
            repair@,
            item@,
            (match metadata {
                Some(m) => Some(m@),
                None => None,
            }),
            said@,
            support::text_of(new_result),
            new_outcome@,
        ) {
            Err(e) => out matches Err(why) && why == e,
            Ok(archive) => out matches Ok(made) && made@ == archive,
        },
{
    let old: Vec<u8> = match encode(make_outcome_document(&item.outcome)) {
        Err(e) => return Err(e),
        Ok(old) => old,
    };
    let new: Vec<u8> = match encode(make_outcome_document(new_outcome)) {
        Err(e) => return Err(e),
        Ok(new) => new,
    };
    let stream: Vec<u8> = match compress(old.as_slice()) {
        Err(e) => return Err(e),
        Ok(stream) => stream,
    };
    let archive: Option<(MetadataHeader, Vec<u8>, i64, String)> = match metadata {
        None => None,
        Some(m) => match compress(m.result.as_slice()) {
            Err(e) => return Err(e),
            Ok(kept) => Some(
                (
                    MetadataHeader {
                        image_source: m.image_source.clone(),
                        payload_source: m.payload_source.clone(),
                        slot: m.slot.clone(),
                        owner: m.owner.clone(),
                        input_digest: m.input_digest.clone(),
                        retained_record: m.retained_record,
                    },
                    kept,
                    m.result.len() as i64,
                    blake3_digest(m.result.as_slice()),
                ),
            ),
        },
    };
    Ok(
        RepairItem {
            repair: repair.to_owned(),
            record: item.record,
            revision: item.revision.clone(),
            disposition: said.to_owned(),
            old_outcome: stream,
            outcome_length: old.len() as i64,
            outcome_digest: blake3_digest(old.as_slice()),
            metadata: archive,
            new_result_digest: new_result,
            new_outcome_digest: blake3_digest(new.as_slice()),
        },
    )
}

fn count_row(before: &Progress, record: i64, rebound: bool) -> (r: Result<Progress, MigrationError>)
    ensures
        match counted(before@, record, rebound) {
            Err(e) => r == Err::<Progress, MigrationError>(e),
            Ok(after) => r matches Ok(p) && p@ == after,
        },
{
    if before.examined == u64::MAX || (rebound && before.repaired == u64::MAX) || (!rebound
        && before.unchanged == u64::MAX) {
        return Err(MigrationError::Overflow);
    }
    let mut after: Progress = before.copied();
    after.after_record = record;
    after.examined = before.examined + 1;
    if rebound {
        after.repaired = before.repaired + 1;
    } else {
        after.unchanged = before.unchanged + 1;
    }
    Ok(after)
}

fn rebind_metadata(repairs: &mut Repairs, at: usize, result: ResultRecord, bytes: Vec<u8>)
    requires
        at < old(repairs).metadata@.len(),
    ensures
        final(repairs)@ == (RepairsModel {
            metadata: old(repairs)@.metadata.update(
                at as int,
                MetadataModel {
                    input_digest: result@.input_digest,
                    result: bytes@,
                    record: result@,
                    ..old(repairs)@.metadata[at as int]
                },
            ),
            ..old(repairs)@
        }),
        final(repairs).repairs@ == old(repairs).repairs@,
{
    let ghost start = repairs@;
    let old_row = &repairs.metadata[at];
    let row: MetadataRow = MetadataRow {
        image_source: old_row.image_source.clone(),
        payload_source: old_row.payload_source.clone(),
        slot: old_row.slot.clone(),
        owner: old_row.owner.clone(),
        input_digest: result.input_digest.clone(),
        retained_record: old_row.retained_record,
        result: bytes,
        record: result,
    };
    assert(start.metadata[at as int] == repairs.metadata@[at as int]@);
    repairs.metadata.set(at, row);
    assert(repairs@.metadata =~= start.metadata.update(at as int, row@));
}

fn replace_outcome(runs: &mut importer::Runs, i: usize, o: Outcome)
    requires
        i < old(runs).items@.len(),
    ensures
        final(runs)@ == (importer::RunsModel {
            items: old(runs)@.items.update(
                i as int,
                importer::RunItemModel { outcome: o@, ..old(runs)@.items[i as int] },
            ),
            ..old(runs)@
        }),
{
    let ghost start = runs@;
    let old_row = &runs.items[i];
    let row: importer::RunItem = importer::RunItem {
        run: old_row.run.clone(),
        stage: old_row.stage,
        record: old_row.record,
        revision: old_row.revision.clone(),
        outcome: o,
    };
    assert(start.items[i as int] == runs.items@[i as int]@);
    runs.items.set(i, row);
    assert(runs@.items =~= start.items.update(i as int, row@));
}

impl Catalog {
    fn repair_current_item(&mut self, k: usize, i: usize, owner: &str, facts: Option<RepairFacts>) -> (out:
        Result<Step, MigrationError>)
        requires
            k < old(self).migration.repairs.repairs@.len(),
            i < old(self).migration.runs.items@.len(),
        ensures
            final(self).repairs_only(*old(self)),
            match row_repaired(*old(self), k as int, i as int, owner@, facts) {
                Err(e) => *final(self) == *old(self) && (out matches Err(why) && why == e),
                Ok((runs, repairs, step)) => final(self).migration.runs@ == runs && final(
                    self).migration.repairs@ == repairs && (out matches Ok(made) && made@ == step),
            },
    {
        reveal(row_repaired);
        let ghost start = *self;
        assert(start.migration.repairs@.repairs[k as int]
            == start.migration.repairs.repairs@[k as int]@);
        assert(start.migration.runs@.items[i as int] == start.migration.runs.items@[i as int]@);
        let before: Progress = self.migration.repairs.repairs[k].progress.copied();
        let (found, rebound): (Option<Found>, bool) = match choose_row(
            self,
            &self.migration.runs.items[i],
            owner,
            before.input.as_str(),
            &facts,
        ) {
            Err(e) => return Err(e),
            Ok(chosen) => chosen,
        };
        let ghost choice = choice_of(found, rebound);
        let item = &self.migration.runs.items[i];
        let record: i64 = item.record;
        let said: &str = get_disposition(found.is_some(), rebound);
        assert(said@ == disposition(choice));
        let metadata: Option<&MetadataRow> = match &found {
            None => None,
            Some(f) => Some(&self.migration.repairs.metadata[f.at]),
        };
        let bytes: Vec<u8> = match &facts {
            Some(RepairFacts { projection: Some(p), .. }) if rebound => match encode(
                make_result_document(&p.result),
            ) {
                Err(e) => return Err(e),
                Ok(bytes) => bytes,
            },
            _ => Vec::new(),
        };
        let (new_result, new_outcome): (Option<String>, Outcome) = match (&found, &facts) {
            (Some(_), Some(RepairFacts { projection: Some(p), .. })) if rebound => (
                Some(blake3_digest(bytes.as_slice())),
                outcome(&p.result),
            ),
            (Some(f), _) => (
                Some(
                    blake3_digest(self.migration.repairs.metadata[f.at].result.as_slice()),
                ),
                item.outcome.copied(),
            ),
            (None, _) => (None, item.outcome.copied()),
        };
        let archive: RepairItem = match make_row_archive(
            before.id.as_str(),
            item,
            metadata,
            said,
            new_result,
            &new_outcome,
        ) {
            Err(e) => return Err(e),
            Ok(archive) => archive,
        };
        let after: Progress = match count_row(&before, record, rebound) {
            Err(e) => return Err(e),
            Ok(after) => after,
        };
        let id: &str = before.id.as_str();
        let test = |x: &RepairItem| -> (b: bool)
            ensures b == repaired_item(id@, record)(x@)
        {
            x.record == record && same(x.repair.as_str(), id)
        };
        if support::find(
            &self.migration.repairs.items,
            test,
            Ghost(repaired_item(id@, record)),
        ).is_some() {
            return Err(MigrationError::ItemRecorded);
        }
        let step: Step = Step {
            progress: after.copied(),
            record: Some(record),
            outcome: Some(said.to_owned()),
        };
        self.migration.repairs.items.push(archive);
        assert(self.migration.repairs@.items =~= start.migration.repairs@.items.push(archive@));
        set_progress(&mut self.migration.repairs, k, after);
        if rebound {
            match (found, facts) {
                (Some(f), Some(RepairFacts { projection: Some(p), .. })) => {
                    rebind_metadata(&mut self.migration.repairs, f.at, p.result, bytes);
                    replace_outcome(&mut self.migration.runs, i, new_outcome);
                },
                _ => {},
            }
        }
        proof {
            let made = row_repaired(start, k as int, i as int, owner@, facts)->Ok_0;
            assert(self.migration.repairs@ =~= made.1);
            assert(self.migration.runs@ =~= made.0);
        }
        Ok(step)
    }
}

/// A step that changes nothing.
pub open spec fn rests(c: Catalog, before: ProgressModel) -> Result<
    (importer::RunsModel, RepairsModel, StepModel),
    MigrationError,
> {
    Ok(
        (
            c.migration.runs@,
            c.migration.repairs@,
            StepModel { progress: before, record: None, outcome: None },
        ),
    )
}

/// A step that goes on to another phase.
pub open spec fn enters(c: Catalog, k: int, phase: Phase) -> Result<
    (importer::RunsModel, RepairsModel, StepModel),
    MigrationError,
> {
    let repairs = c.migration.repairs@;
    let after = ProgressModel {
        phase,
        complete: phase == Phase::Complete,
        ..repairs.repairs[k].progress
    };
    Ok(
        (
            c.migration.runs@,
            with_progress(repairs, k, after),
            StepModel { progress: after, record: None, outcome: None },
        ),
    )
}

/// What a step of a repair comes to.
#[verifier::opaque]
pub open spec fn repair_stepped(c: Catalog, binding: Seq<char>, id: Seq<char>, facts: Option<RepairFacts>) -> Result<
    (importer::RunsModel, RepairsModel, StepModel),
    MigrationError,
> {
    let runs = c.migration.runs@;
    let repairs = c.migration.repairs@;
    match read_repair(repairs, id) {
        Err(e) => Err(e),
        Ok(k) => {
            let row = repairs.repairs[k];
            let before = row.progress;
            if row.input != binding {
                Err(MigrationError::SealForeign)
            } else {
                match check_refusal(c, row) {
                    Some(e) => Err(e),
                    None => match before.phase {
                        Phase::ArchiveReports => match c.migration.files@.seal_at(binding) {
                            None => Err(MigrationError::SealMissing),
                            Some(s) => match report_archived(
                                repairs,
                                k,
                                c.migration.files@.seals[s].selected@,
                            ) {
                                Err(e) => Err(e),
                                Ok((m, step)) => Ok((runs, m, step)),
                            },
                        },
                        Phase::Project => match next_item(
                            runs.items,
                            before.run,
                            before.after_record,
                            runs.items.len(),
                        ) {
                            None => enters(c, k, Phase::Reconciliation),
                            Some(i) => match importer::read_run(runs, before.run) {
                                Err(e) => Err(e),
                                Ok(n) => row_repaired(
                                    c,
                                    k,
                                    i,
                                    runs.runs[n].policy.import_source,
                                    facts,
                                ),
                            },
                        },
                        Phase::Reconciliation => match importer::read_run(runs, before.run) {
                            Err(e) => Err(e),
                            Ok(n) => if !runs.runs[n].progress.complete {
                                rests(c, before)
                            } else if runs.runs[n].progress.stage != Stage::Complete {
                                Err(MigrationError::ProgressDiffers)
                            } else {
                                enters(c, k, Phase::Complete)
                            },
                        },
                        Phase::Complete => rests(c, before),
                    },
                }
            }
        },
    }
}

impl Catalog {
    fn enter(&mut self, k: usize, phase: Phase) -> (out: Result<Step, MigrationError>)
        requires
            k < old(self).migration.repairs.repairs@.len(),
        ensures
            final(self).repairs_only(*old(self)),
            enters(*old(self), k as int, phase) matches Ok((runs, repairs, step)) && final(
                self).migration.runs@ == runs && final(self).migration.repairs@ == repairs && (
            out matches Ok(made) && made@ == step),
    {
        assert(self.migration.repairs@.repairs[k as int]
            == self.migration.repairs.repairs@[k as int]@);
        let mut after: Progress = self.migration.repairs.repairs[k].progress.copied();
        after.phase = phase;
        after.complete = phase == Phase::Complete;
        set_progress(&mut self.migration.repairs, k, after.copied());
        Ok(Step { progress: after, record: None, outcome: None })
    }

    /// One step of a repair: it archives one report, looks at one row, or goes on.
    pub fn step_current_develop_repair(
        &mut self,
        binding: &str,
        id: &str,
        facts: Option<RepairFacts>,
    ) -> (out: Result<Step, MigrationError>)
        ensures
            final(self).repairs_only(*old(self)),
            match repair_stepped(*old(self), binding@, id@, facts) {
                Err(e) => *final(self) == *old(self) && (out matches Err(why) && why == e),
                Ok((runs, repairs, step)) => final(self).migration.runs@ == runs && final(
                    self).migration.repairs@ == repairs && (out matches Ok(made) && made@ == step),
            },
    {
        reveal(repair_stepped);
        let k: usize = match read(&self.migration.repairs, id) {
            Err(e) => return Err(e),
            Ok(k) => k,
        };
        if !same(self.migration.repairs.repairs[k].input.as_str(), binding) {
            return Err(MigrationError::SealForeign);
        }
        match check(self, k) {
            Some(e) => return Err(e),
            None => {},
        }
        let before: Progress = self.migration.repairs.repairs[k].progress.copied();
        match before.phase {
            Phase::ArchiveReports => {
                let s: usize = match self.migration.files.find_seal(binding) {
                    None => return Err(MigrationError::SealMissing),
                    Some(s) => s,
                };
                archive_report(
                    &mut self.migration.repairs,
                    k,
                    &self.migration.files.seals[s].selected,
                )
            },
            Phase::Project => match find_next_item(
                &self.migration.runs.items,
                before.run.as_str(),
                before.after_record,
            ) {
                None => self.enter(k, Phase::Reconciliation),
                Some(i) => {
                    let n: usize = match importer::read(
                        &self.migration.runs,
                        before.run.as_str(),
                    ) {
                        Err(e) => return Err(e),
                        Ok(n) => n,
                    };
                    let owner: String = self.migration.runs.runs[n].policy.import_source.clone();
                    self.repair_current_item(k, i, owner.as_str(), facts)
                },
            },
            Phase::Reconciliation => {
                let n: usize = match importer::read(&self.migration.runs, before.run.as_str()) {
                    Err(e) => return Err(e),
                    Ok(n) => n,
                };
                if !self.migration.runs.runs[n].progress.complete {
                    return Ok(Step { progress: before, record: None, outcome: None });
                }
                if self.migration.runs.runs[n].progress.stage != Stage::Complete {
                    return Err(MigrationError::ProgressDiffers);
                }
                self.enter(k, Phase::Complete)
            },
            Phase::Complete => Ok(Step { progress: before, record: None, outcome: None }),
        }
    }

    /// What stood of a row before a repair looked at it, byte for byte.
    pub fn current_develop_repair_predecessor(&self, id: &str, record: i64) -> (r: Result<
        Predecessor,
        MigrationError,
    >)
        ensures
            match predecessor_read(self.migration.repairs@, id@, record) {
                Err(e) => r matches Err(why) && why == e,
                Ok(p) => r matches Ok(found) && found@ == p,
            },
    {
        match read(&self.migration.repairs, id) {
            Err(e) => return Err(e),
            Ok(_) => {},
        }
        if record <= 0 {
            return Err(MigrationError::RecordMissing);
        }
        let test = |x: &RepairItem| -> (b: bool)
            ensures b == repaired_item(id@, record)(x@)
        {
            x.record == record && same(x.repair.as_str(), id)
        };
        let i: usize = match support::find(
            &self.migration.repairs.items,
            test,
            Ghost(repaired_item(id@, record)),
        ) {
            None => return Err(MigrationError::RecordMissing),
            Some(i) => i,
        };
        let item = &self.migration.repairs.items[i];
        assert(self.migration.repairs@.items[i as int] == item@);
        let old: Vec<u8> = match decompress(
            item.old_outcome.as_slice(),
            item.outcome_length,
            item.outcome_digest.as_str(),
        ) {
            Err(e) => return Err(e),
            Ok(old) => old,
        };
        let metadata: Option<(MetadataHeader, Vec<u8>)> = match &item.metadata {
            None => None,
            Some(m) => match decompress(m.1.as_slice(), m.2, m.3.as_str()) {
                Err(e) => return Err(e),
                Ok(bytes) => Some((m.0.copied(), bytes)),
            },
        };
        Ok(
            Predecessor {
                outcome: old,
                metadata,
                new_result_digest: copy_option(&item.new_result_digest),
                new_outcome_digest: item.new_outcome_digest.clone(),
                disposition: item.disposition.clone(),
            },
        )
    }
}

/// What stood of a row before a repair looked at it.
#[derive(Clone, Debug)]
pub struct Predecessor {
    pub outcome: Vec<u8>,
    pub metadata: Option<(MetadataHeader, Vec<u8>)>,
    pub new_result_digest: Option<String>,
    pub new_outcome_digest: String,
    pub disposition: String,
}

/// What a `Predecessor` stands for.
#[verifier::ext_equal]
pub struct PredecessorModel {
    pub outcome: Seq<u8>,
    pub metadata: Option<(MetadataHeaderModel, Seq<u8>)>,
    pub new_result_digest: Option<Seq<char>>,
    pub new_outcome_digest: Seq<char>,
    pub disposition: Seq<char>,
}

impl View for Predecessor {
    type V = PredecessorModel;

    open spec fn view(&self) -> PredecessorModel {
        PredecessorModel {
            outcome: self.outcome@,
            metadata: match self.metadata {
                None => None,
                Some(m) => Some((m.0@, m.1@)),
            },
            new_result_digest: support::text_of(self.new_result_digest),
            new_outcome_digest: self.new_outcome_digest@,
            disposition: self.disposition@,
        }
    }
}

/// What an archived row holds.
pub open spec fn item_read(item: RepairItemModel) -> Result<PredecessorModel, MigrationError> {
    match archived_bytes(item.old_outcome, item.outcome_length, item.outcome_digest) {
        Err(e) => Err(e),
        Ok(outcome) => {
            let found = PredecessorModel {
                outcome,
                metadata: None,
                new_result_digest: item.new_result_digest,
                new_outcome_digest: item.new_outcome_digest,
                disposition: item.disposition,
            };
            match item.metadata {
                None => Ok(found),
                Some(m) => match archived_bytes(m.1, m.2, m.3) {
                    Err(e) => Err(e),
                    Ok(bytes) => Ok(PredecessorModel { metadata: Some((m.0, bytes)), ..found }),
                },
            }
        },
    }
}

/// What stood of a row before a repair looked at it.
pub open spec fn predecessor_read(repairs: RepairsModel, id: Seq<char>, record: i64) -> Result<
    PredecessorModel,
    MigrationError,
> {
    match read_repair(repairs, id) {
        Err(e) => Err(e),
        Ok(_) => if record <= 0 {
            Err(MigrationError::RecordMissing)
        } else {
            match support::first_where(repairs.items, repaired_item(id, record)) {
                None => Err(MigrationError::RecordMissing),
                Some(i) => item_read(repairs.items[i]),
            }
        },
    }
}

/// An import cannot be reconciled while its receipts are being corrected: until the rows of
/// a repair are done, every step of its run at that stage is refused.
pub proof fn law_repairs_hold_the_import(
    c: Catalog,
    binding: Seq<char>,
    run: Seq<char>,
    event: importer::EventModel,
    k: int,
    j: int,
)
    requires
        importer::read_run(c.migration.runs@, run) == Ok::<int, MigrationError>(k),
        c.migration.runs@.runs[k].progress.stage == Stage::Reconciliation,
        support::first_where(
            c.migration.repairs@.repairs,
            repair_for(c.migration.runs@.runs[k].progress.id),
        ) == Some(j),
        read_repair(c.migration.repairs@, c.migration.repairs@.repairs[j].id) == Ok::<
            int,
            MigrationError,
        >(j),
        c.migration.repairs@.repairs[j].progress.phase == Phase::ArchiveReports
            || c.migration.repairs@.repairs[j].progress.phase == Phase::Project,
    ensures
        importer::stepped(c, binding, run, event) is Err,
{
    reveal(importer::stepped);
}

/// Every row that a repair has looked at is either corrected or unchanged.
pub open spec fn balanced(p: ProgressModel) -> bool {
    p.examined == p.repaired + p.unchanged
}

/// The rows that a repair has corrected and those it has left unchanged are all that
/// it has looked at, from its start on and after every step.
pub proof fn law_repairs_balance(
    c: Catalog,
    source: SourceSelection,
    kept: RetainedSelection,
    request: RequestModel,
    binding: Seq<char>,
    id: Seq<char>,
    facts: Option<RepairFacts>,
)
    requires
        forall|k: int|
            0 <= k < c.migration.repairs@.repairs.len() ==> balanced(
                (#[trigger] c.migration.repairs@.repairs[k]).progress,
            ),
    ensures
        repair_begun(c, source, kept, request) matches Ok(made) ==> balanced(made.2),
        repair_stepped(c, binding, id, facts) matches Ok(made) ==> balanced(made.2.progress),
{
    reveal(repair_begun);
    reveal(repair_stepped);
    reveal(row_repaired);
    let repairs = c.migration.repairs@;
    if repair_begun(c, source, kept, request) is Ok {
        support::lemma_first_where(repairs.repairs, repair_for(request.run));
        match importer::read_run(c.migration.runs@, request.run) {
            Ok(k) => match policy_digest(c.migration.runs@.runs[k].policy) {
                Ok(policy) => match repair_identity(
                    request,
                    c.migration.runs@.runs[k].progress.input,
                    policy,
                ) {
                    Ok(name) => {
                        support::lemma_first_where(repairs.repairs, repair_named(name));
                    },
                    Err(_) => {},
                },
                Err(_) => {},
            },
            Err(_) => {},
        }
    }
    support::lemma_first_where(repairs.repairs, repair_named(id));
}

/// The place of a phase in the order of phases.
pub open spec fn phase_rank(phase: Phase) -> int {
    match phase {
        Phase::ArchiveReports => 0,
        Phase::Project => 1,
        Phase::Reconciliation => 2,
        Phase::Complete => 3,
    }
}

/// A repair never goes back: a step leaves its phase as it is, or goes on to the next,
/// and it looks at rows in the order of their numbers.
pub proof fn law_repairs_never_go_back(
    c: Catalog,
    binding: Seq<char>,
    id: Seq<char>,
    facts: Option<RepairFacts>,
)
    requires
        repair_stepped(c, binding, id, facts) is Ok,
    ensures
        ({
            let before = c.migration.repairs@.repairs[read_repair(
                c.migration.repairs@,
                id,
            )->Ok_0].progress;
            let step = repair_stepped(c, binding, id, facts)->Ok_0.2;
            &&& phase_rank(before.phase) <= phase_rank(step.progress.phase) <= phase_rank(
                before.phase,
            ) + 1
            &&& step.record matches Some(record) ==> record > before.after_record
                && step.progress.after_record == record
        }),
{
    reveal(repair_stepped);
    reveal(row_repaired);
    let runs = c.migration.runs@;
    let before = c.migration.repairs@.repairs[read_repair(c.migration.repairs@, id)->Ok_0].progress;
    lemma_next_item(runs.items, before.run, before.after_record, runs.items.len());
}

/// Beginning the same repair again finds it as far as it has come, and changes nothing.
pub proof fn law_begun_repairs_are_found_again(
    c: Catalog,
    again: Catalog,
    source: SourceSelection,
    kept: RetainedSelection,
    request: RequestModel,
)
    requires
        repair_begun(c, source, kept, request) matches Ok(made) && again.migration.runs@ == made.0
            && again.migration.repairs@ == made.1 && outside::digest_text(made.2.id) && (
        support::first_where(c.migration.repairs@.repairs, repair_for(request.run)) is None
            ==> c.migration.repairs@.repair_at(made.2.id) is None),
    ensures
        repair_begun(again, source, kept, request) == repair_begun(c, source, kept, request),
{
    reveal(repair_begun);
    let runs = c.migration.runs@;
    let repairs = c.migration.repairs@;
    let k = importer::read_run(runs, request.run)->Ok_0;
    let (moved, made, progress) = repair_begun(c, source, kept, request)->Ok_0;
    support::lemma_first_where(runs.runs, importer::run_named(request.run));
    if support::first_where(repairs.repairs, repair_for(request.run)) is None {
        support::lemma_replaced(runs.runs, moved.runs, k, importer::run_named(request.run));
        support::lemma_pushed(repairs.repairs, made.repairs, repair_for(request.run));
        support::lemma_pushed(repairs.repairs, made.repairs, repair_named(progress.id));
        assert(made.repairs[repairs.repairs.len() as int] == made.repairs.last());
    }
}

/// What a step leaves as it is: all runs, and of every repair all but its progress.
proof fn lemma_stepped_frame(
    c: Catalog,
    binding: Seq<char>,
    id: Seq<char>,
    facts: Option<RepairFacts>,
)
    requires
        repair_stepped(c, binding, id, facts) is Ok,
    ensures
        ({
            let repairs = c.migration.repairs@;
            let k = read_repair(repairs, id)->Ok_0;
            let before = repairs.repairs[k].progress;
            let (runs, after, step) = repair_stepped(c, binding, id, facts)->Ok_0;
            &&& read_repair(repairs, id) is Ok
            &&& runs.runs == c.migration.runs@.runs
            &&& after.repairs == with_progress(repairs, k, step.progress).repairs
            &&& step.progress.id == before.id
            &&& step.progress.run == before.run
            &&& step.progress.input == before.input
            &&& step.progress.complete == (step.progress.phase == Phase::Complete)
        }),
{
    reveal(repair_stepped);
    reveal(row_repaired);
    let repairs = c.migration.repairs@;
    let k = read_repair(repairs, id)->Ok_0;
    support::lemma_first_where(repairs.repairs, repair_named(id));
    assert(with_progress(repairs, k, repairs.repairs[k].progress).repairs =~= repairs.repairs);
}

/// Beginning a repair again after a step finds it where the step has left it.
pub proof fn law_begun_repairs_follow_their_steps(
    c: Catalog,
    again: Catalog,
    source: SourceSelection,
    kept: RetainedSelection,
    request: RequestModel,
    binding: Seq<char>,
    facts: Option<RepairFacts>,
)
    requires
        repair_begun(c, source, kept, request) matches Ok(found) && (repair_stepped(
            c,
            binding,
            found.2.id,
            facts,
        ) matches Ok(made) && again.migration.runs@ == made.0 && again.migration.repairs@ == made.1),
        support::first_where(c.migration.repairs@.repairs, repair_for(request.run)) is Some,
    ensures
        ({
            let id = repair_begun(c, source, kept, request)->Ok_0.2.id;
            let (runs, repairs, step) = repair_stepped(c, binding, id, facts)->Ok_0;
            repair_begun(again, source, kept, request) == Ok::<
                (importer::RunsModel, RepairsModel, ProgressModel),
                MigrationError,
            >((runs, repairs, step.progress))
        }),
{
    reveal(repair_begun);
    let repairs = c.migration.repairs@;
    let id = repair_begun(c, source, kept, request)->Ok_0.2.id;
    lemma_stepped_frame(c, binding, id, facts);
    let k = read_repair(repairs, id)->Ok_0;
    let (_, after, step) = repair_stepped(c, binding, id, facts)->Ok_0;
    support::lemma_first_where(repairs.repairs, repair_named(id));
    support::lemma_first_where(repairs.repairs, repair_for(request.run));
    support::lemma_replaced(repairs.repairs, after.repairs, k, repair_named(id));
    support::lemma_replaced(repairs.repairs, after.repairs, k, repair_for(request.run));
}

/// An image that was edited since it was imported is never corrected: nothing of it
/// changes.
pub proof fn law_edited_images_are_left_alone(
    found: Predecessors,
    old: ResultRecordModel,
    facts: RepairFacts,
)
    requires
        facts.recipe matches Some(recipe) ==> old.edit_revision != Some(recipe.current_revision),
    ensures
        rebinds(found, old, facts) != Ok::<bool, MigrationError>(true),
{
}

/// What a repair archives of a row is what stood, byte for byte: once archived, its
/// receipt and its metadata are read back as they were.
pub proof fn law_predecessors_read_back(
    repair: Seq<char>,
    item: importer::RunItemModel,
    metadata: Option<MetadataModel>,
    said: Seq<char>,
    new_result: Option<Seq<char>>,
    new_outcome: OutcomeModel,
)
    requires
        row_archive(repair, item, metadata, said, new_result, new_outcome) matches Ok(archive)
            && restores(archive.old_outcome, encoded(outcome_document(item.outcome))->Ok_0)
            && archive.old_outcome.len() <= COMPRESSED_LIMIT && (archive.metadata matches Some(m)
            ==> restores(m.1, metadata->0.result) && m.1.len() <= COMPRESSED_LIMIT),
    ensures
        ({
            let archive = row_archive(
                repair,
                item,
                metadata,
                said,
                new_result,
                new_outcome,
            )->Ok_0;
            item_read(archive) matches Ok(found) && found.outcome == encoded(
                outcome_document(item.outcome),
            )->Ok_0 && found.disposition == said && match metadata {
                None => found.metadata is None,
                Some(m) => found.metadata == Some((header_of(m), m.result)),
            }
        }),
{
    law_archives_read_back(encoded(outcome_document(item.outcome))->Ok_0);
    if let Some(m) = metadata {
        law_archives_read_back(m.result);
    }
}

} // verus!

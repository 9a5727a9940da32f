//! Import of a selected catalog, one step at a time. Every change leaves a receipt
//! of the source row it comes from, and going on is a change of its own: a run can
//! stop between any two steps.
use crate::catalog::Catalog;
use crate::catalog_metadata::edit;
use crate::catalog_metadata::edit::append_number;
use crate::catalog_migration::artifacts;
use crate::catalog_migration::artifacts::{
    count_units, make_mapping_document, ArtifactDescriptor, ArtifactError, ArtifactMapping, ArtifactRequest,
    CaptureDetail, PATH_UNITS,
};
use crate::catalog_migration::current_repair;
use crate::catalog_migration::current_repair::require_not_pending;
use crate::catalog_migration::evidence::{EvidenceError, EvidenceState, EvidenceStore};
use crate::catalog_migration::file_history::Origin;
use crate::catalog_migration::file_metadata;
use crate::catalog_migration::file_metadata::{custody, InputSeal, SelectedCapture, SupplementPin};
use crate::catalog_migration::file_projection;
use crate::catalog_migration::file_projection::get_origin_word;
use crate::catalog_migration::images;
use crate::catalog_migration::import_rows;
use crate::catalog_migration::import_rows::prepared_origin;
use crate::catalog_migration::import_steps::{DevelopFacts, FileFacts};
use crate::catalog_migration::retained;
use crate::catalog_migration::retained::{
    Collection, Detail, EvidenceRecord, Lookup, MigrationError, Page, Query, RecordModel, Retained, RetainedModel,
};
use crate::copies::{copy_rows, Copied};
use crate::outside;
use crate::outside::{blake3_digest, json_string};
use crate::support;
use crate::support::{byte_len, contains_nul, copy_option, is_blank, same};
use vstd::prelude::*;
use vstd::string::*;
use vstd::utf8::*;

verus! {

/// The most mappings, and the most supplements, of a policy.
pub const POLICY_ROWS: usize = 4096;

/// The most bytes of an importer's name, of a reason and of a file's name.
pub const POLICY_TEXT: usize = 4096;

/// The most bytes of a state or policy as a document.
pub const STATE_LIMIT: usize = 8388608;

/// The most bytes of all supplements' documents.
pub const SUPPLEMENT_BYTES: u64 = 33554432;

/// The most bytes of a supplement's document.
pub const SUPPLEMENT_LIMIT: usize = 8388608;

/// What to do about a file whose path is known.
#[derive(Clone, Debug)]
pub enum OverlapPolicy {
    RequireDecision,
    /// Files at the very same path are one file. Every image of theirs stays an image
    /// of its own.
    ReuseExactPath { reason: String },
}

/// What to do about a keyword that is known.
#[derive(Clone, Debug)]
pub enum KeywordOverlap {
    RequireDecision,
    ReuseExactHierarchy { reason: String },
}

/// The reason that a path is shared for, if it is.
pub open spec fn overlap_reason(o: OverlapPolicy) -> Option<Seq<char>> {
    match o {
        OverlapPolicy::RequireDecision => None,
        OverlapPolicy::ReuseExactPath { reason } => Some(reason@),
    }
}

/// The reason that a keyword is shared for, if it is.
pub open spec fn keyword_reason(o: KeywordOverlap) -> Option<Seq<char>> {
    match o {
        KeywordOverlap::RequireDecision => None,
        KeywordOverlap::ReuseExactHierarchy { reason } => Some(reason@),
    }
}

/// Where the copy of a captured file is.
#[derive(Clone, Debug)]
pub struct ArtifactInput {
    pub capture_revision: String,
    pub member_index: usize,
    pub mapping: ArtifactMapping,
}

/// What an `ArtifactInput` stands for.
#[verifier::ext_equal]
pub struct ArtifactInputModel {
    pub capture_revision: Seq<char>,
    pub member_index: usize,
    pub mapping: artifacts::ArtifactMappingModel,
}

impl View for ArtifactInput {
    type V = ArtifactInputModel;

    open spec fn view(&self) -> ArtifactInputModel {
        ArtifactInputModel {
            capture_revision: self.capture_revision@,
            member_index: self.member_index,
            mapping: self.mapping@,
        }
    }
}

/// A document that supplements a file's inspection.
#[derive(Clone, Debug)]
pub struct SupplementInput {
    pub capture_revision: String,
    pub source_id: String,
    pub origin: Origin,
    pub evidence: String,
}

/// What a `SupplementInput` stands for.
#[verifier::ext_equal]
pub struct SupplementInputModel {
    pub capture_revision: Seq<char>,
    pub source_id: Seq<char>,
    pub origin: Origin,
    pub evidence: Seq<char>,
}

impl View for SupplementInput {
    type V = SupplementInputModel;

    open spec fn view(&self) -> SupplementInputModel {
        SupplementInputModel {
            capture_revision: self.capture_revision@,
            source_id: self.source_id@,
            origin: self.origin,
            evidence: self.evidence@,
        }
    }
}

impl Copied for ArtifactInput {
    fn copied(&self) -> (c: Self) {
        ArtifactInput {
            capture_revision: self.capture_revision.clone(),
            member_index: self.member_index,
            mapping: self.mapping.copied(),
        }
    }
}

impl Copied for SupplementInput {
    fn copied(&self) -> (c: Self) {
        SupplementInput {
            capture_revision: self.capture_revision.clone(),
            source_id: self.source_id.clone(),
            origin: self.origin,
            evidence: self.evidence.clone(),
        }
    }
}

/// What a run may decide by itself.
#[derive(Clone, Debug)]
pub struct Policy {
    pub import_source: String,
    pub overlap: OverlapPolicy,
    pub keyword_overlap: KeywordOverlap,
    pub artifacts: Vec<ArtifactInput>,
    pub supplements: Vec<SupplementInput>,
}

/// What a `Policy` stands for.
#[verifier::ext_equal]
pub struct PolicyModel {
    pub import_source: Seq<char>,
    /// The reason that paths are shared for, if they are.
    pub overlap: Option<Seq<char>>,
    /// The reason that keywords are shared for, if they are.
    pub keyword_overlap: Option<Seq<char>>,
    pub artifacts: Seq<ArtifactInputModel>,
    pub supplements: Seq<SupplementInputModel>,
}

impl View for Policy {
    type V = PolicyModel;

    open spec fn view(&self) -> PolicyModel {
        PolicyModel {
            import_source: self.import_source@,
            overlap: overlap_reason(self.overlap),
            keyword_overlap: keyword_reason(self.keyword_overlap),
            artifacts: support::models(self.artifacts@),
            supplements: support::models(self.supplements@),
        }
    }
}

impl Copied for Policy {
    fn copied(&self) -> (c: Self) {
        Policy {
            import_source: self.import_source.clone(),
            overlap: match &self.overlap {
                OverlapPolicy::RequireDecision => OverlapPolicy::RequireDecision,
                OverlapPolicy::ReuseExactPath { reason } => OverlapPolicy::ReuseExactPath {
                    reason: reason.clone(),
                },
            },
            keyword_overlap: match &self.keyword_overlap {
                KeywordOverlap::RequireDecision => KeywordOverlap::RequireDecision,
                KeywordOverlap::ReuseExactHierarchy {
                    reason,
                } => KeywordOverlap::ReuseExactHierarchy { reason: reason.clone() },
            },
            artifacts: copy_rows(&self.artifacts),
            supplements: copy_rows(&self.supplements),
        }
    }
}

/// The stages of a run, in their order.
#[derive(Clone, Copy, Debug, PartialEq, Eq, Structural)]
pub enum Stage {
    Custody,
    SupplementCustody,
    Index,
    Files,
    Masters,
    VirtualCopies,
    FileEmbedded,
    FileSidecarXmp,
    FileSidecarUpper,
    FileAppendedXmp,
    FileAppendedUpper,
    CatalogXmp,
    CurrentDevelop,
    ImageFields,
    Keywords,
    Collections,
    KeywordSynonyms,
    KeywordMemberships,
    CollectionMemberships,
    History,
    DevelopSettings,
    BeforeSettings,
    Snapshots,
    SmartCollections,
    Stacks,
    ArtifactCustody,
    Reconciliation,
    Complete,
}

/// The place of a stage in the order of stages.
pub open spec fn rank(stage: Stage) -> int {
    match stage {
        Stage::Custody => 0,
        Stage::SupplementCustody => 1,
        Stage::Index => 2,
        Stage::Files => 3,
        Stage::Masters => 4,
        Stage::VirtualCopies => 5,
        Stage::FileEmbedded => 6,
        Stage::FileSidecarXmp => 7,
        Stage::FileSidecarUpper => 8,
        Stage::FileAppendedXmp => 9,
        Stage::FileAppendedUpper => 10,
        Stage::CatalogXmp => 11,
        Stage::CurrentDevelop => 12,
        Stage::ImageFields => 13,
        Stage::Keywords => 14,
        Stage::Collections => 15,
        Stage::KeywordSynonyms => 16,
        Stage::KeywordMemberships => 17,
        Stage::CollectionMemberships => 18,
        Stage::History => 19,
        Stage::DevelopSettings => 20,
        Stage::BeforeSettings => 21,
        Stage::Snapshots => 22,
        Stage::SmartCollections => 23,
        Stage::Stacks => 24,
        Stage::ArtifactCustody => 25,
        Stage::Reconciliation => 26,
        Stage::Complete => 27,
    }
}

/// The stage that follows a stage.
pub open spec fn next_stage(stage: Stage) -> Stage {
    match stage {
            Stage::Custody => Stage::SupplementCustody,
            Stage::SupplementCustody => Stage::Index,
            Stage::Index => Stage::Files,
            Stage::Files => Stage::Masters,
            Stage::Masters => Stage::VirtualCopies,
            Stage::VirtualCopies => Stage::FileEmbedded,
            Stage::FileEmbedded => Stage::FileSidecarXmp,
            Stage::FileSidecarXmp => Stage::FileSidecarUpper,
            Stage::FileSidecarUpper => Stage::FileAppendedXmp,
            Stage::FileAppendedXmp => Stage::FileAppendedUpper,
            Stage::FileAppendedUpper => Stage::CatalogXmp,
            Stage::CatalogXmp => Stage::CurrentDevelop,
            Stage::CurrentDevelop => Stage::ImageFields,
            Stage::ImageFields => Stage::Keywords,
            Stage::Keywords => Stage::Collections,
            Stage::Collections => Stage::KeywordSynonyms,
            Stage::KeywordSynonyms => Stage::KeywordMemberships,
            Stage::KeywordMemberships => Stage::CollectionMemberships,
            Stage::CollectionMemberships => Stage::History,
            Stage::History => Stage::DevelopSettings,
            Stage::DevelopSettings => Stage::BeforeSettings,
            Stage::BeforeSettings => Stage::Snapshots,
            Stage::Snapshots => Stage::SmartCollections,
            Stage::SmartCollections => Stage::Stacks,
            Stage::Stacks => Stage::ArtifactCustody,
            Stage::ArtifactCustody => Stage::Reconciliation,
            Stage::Reconciliation => Stage::Complete,
            Stage::Complete => Stage::Complete,
    }
}

/// The source table that a stage walks.
pub open spec fn stage_table(stage: Stage) -> Option<Seq<char>> {
    match stage {
            Stage::Files
            | Stage::FileEmbedded
            | Stage::FileSidecarXmp
            | Stage::FileSidecarUpper
            | Stage::FileAppendedXmp
            | Stage::FileAppendedUpper => Some("AgLibraryFile"@),
            Stage::Masters
            | Stage::VirtualCopies
            | Stage::CurrentDevelop
            | Stage::ImageFields
            | Stage::Stacks => Some("Adobe_images"@),
            Stage::CatalogXmp => Some("Adobe_AdditionalMetadata"@),
            Stage::Keywords => Some("AgLibraryKeyword"@),
            Stage::Collections => Some("AgLibraryCollection"@),
            Stage::KeywordSynonyms => Some("AgLibraryKeywordSynonym"@),
            Stage::KeywordMemberships => Some("AgLibraryKeywordImage"@),
            Stage::CollectionMemberships => Some("AgLibraryCollectionImage"@),
            Stage::History => Some("Adobe_libraryImageDevelopHistoryStep"@),
            Stage::DevelopSettings => Some("Adobe_imageDevelopSettings"@),
            Stage::BeforeSettings => Some("Adobe_imageDevelopBeforeSettings"@),
            Stage::Snapshots => Some("Adobe_libraryImageDevelopSnapshot"@),
            Stage::SmartCollections => Some("AgLibraryCollectionContent"@),
            _ => None,
    }
}

impl Stage {
    /// The stage that follows.
    pub fn next(self) -> (r: Stage)
        ensures
            r == next_stage(self),
    {
        match self {
            Stage::Custody => Stage::SupplementCustody,
            Stage::SupplementCustody => Stage::Index,
            Stage::Index => Stage::Files,
            Stage::Files => Stage::Masters,
            Stage::Masters => Stage::VirtualCopies,
            Stage::VirtualCopies => Stage::FileEmbedded,
            Stage::FileEmbedded => Stage::FileSidecarXmp,
            Stage::FileSidecarXmp => Stage::FileSidecarUpper,
            Stage::FileSidecarUpper => Stage::FileAppendedXmp,
            Stage::FileAppendedXmp => Stage::FileAppendedUpper,
            Stage::FileAppendedUpper => Stage::CatalogXmp,
            Stage::CatalogXmp => Stage::CurrentDevelop,
            Stage::CurrentDevelop => Stage::ImageFields,
            Stage::ImageFields => Stage::Keywords,
            Stage::Keywords => Stage::Collections,
            Stage::Collections => Stage::KeywordSynonyms,
            Stage::KeywordSynonyms => Stage::KeywordMemberships,
            Stage::KeywordMemberships => Stage::CollectionMemberships,
            Stage::CollectionMemberships => Stage::History,
            Stage::History => Stage::DevelopSettings,
            Stage::DevelopSettings => Stage::BeforeSettings,
            Stage::BeforeSettings => Stage::Snapshots,
            Stage::Snapshots => Stage::SmartCollections,
            Stage::SmartCollections => Stage::Stacks,
            Stage::Stacks => Stage::ArtifactCustody,
            Stage::ArtifactCustody => Stage::Reconciliation,
            Stage::Reconciliation => Stage::Complete,
            Stage::Complete => Stage::Complete,
        }
    }

    /// The source table that the stage walks.
    pub fn table(self) -> (r: Option<&'static str>)
        ensures
            match r {
                Some(t) => stage_table(self) == Some(t@),
                None => stage_table(self) is None,
            },
    {
        match self {
            Stage::Files
            | Stage::FileEmbedded
            | Stage::FileSidecarXmp
            | Stage::FileSidecarUpper
            | Stage::FileAppendedXmp
            | Stage::FileAppendedUpper => Some("AgLibraryFile"),
            Stage::Masters
            | Stage::VirtualCopies
            | Stage::CurrentDevelop
            | Stage::ImageFields
            | Stage::Stacks => Some("Adobe_images"),
            Stage::CatalogXmp => Some("Adobe_AdditionalMetadata"),
            Stage::Keywords => Some("AgLibraryKeyword"),
            Stage::Collections => Some("AgLibraryCollection"),
            Stage::KeywordSynonyms => Some("AgLibraryKeywordSynonym"),
            Stage::KeywordMemberships => Some("AgLibraryKeywordImage"),
            Stage::CollectionMemberships => Some("AgLibraryCollectionImage"),
            Stage::History => Some("Adobe_libraryImageDevelopHistoryStep"),
            Stage::DevelopSettings => Some("Adobe_imageDevelopSettings"),
            Stage::BeforeSettings => Some("Adobe_imageDevelopBeforeSettings"),
            Stage::Snapshots => Some("Adobe_libraryImageDevelopSnapshot"),
            Stage::SmartCollections => Some("AgLibraryCollectionContent"),
            _ => None,
        }
    }
}

/// The stages follow each other in one order, none is left out, and the last is the
/// only one that nothing follows.
pub proof fn law_stages_run_in_order(stage: Stage)
    ensures
        stage != Stage::Complete ==> rank(next_stage(stage)) == rank(stage) + 1,
        next_stage(stage) == stage <==> stage == Stage::Complete,
        rank(stage) <= rank(Stage::Complete),
{
}

/// How far a run has come.
#[derive(Clone, Debug)]
pub struct Progress {
    pub id: String,
    pub input: String,
    pub stage: Stage,
    pub capture_index: usize,
    pub artifact_index: usize,
    pub cursor: Option<i64>,
    pub processed: u64,
    pub complete: bool,
}

/// What a `Progress` stands for.
#[verifier::ext_equal]
pub struct ProgressModel {
    pub id: Seq<char>,
    pub input: Seq<char>,
    pub stage: Stage,
    pub capture_index: usize,
    pub artifact_index: usize,
    pub cursor: Option<i64>,
    pub processed: u64,
    pub complete: bool,
}

impl View for Progress {
    type V = ProgressModel;

    open spec fn view(&self) -> ProgressModel {
        ProgressModel {
            id: self.id@,
            input: self.input@,
            stage: self.stage,
            capture_index: self.capture_index,
            artifact_index: self.artifact_index,
            cursor: self.cursor,
            processed: self.processed,
            complete: self.complete,
        }
    }
}

impl Copied for Progress {
    fn copied(&self) -> (c: Self) {
        Progress {
            id: self.id.clone(),
            input: self.input.clone(),
            stage: self.stage,
            capture_index: self.capture_index,
            artifact_index: self.artifact_index,
            cursor: self.cursor,
            processed: self.processed,
            complete: self.complete,
        }
    }
}

impl Progress {
    /// Whether two progresses are the same.
    pub fn same_as(&self, other: &Progress) -> (r: bool)
        ensures
            r == (self@ == other@),
    {
        let cursor: bool = match (self.cursor, other.cursor) {
            (Some(a), Some(b)) => a == b,
            (None, None) => true,
            _ => false,
        };
        same(self.id.as_str(), other.id.as_str()) && same(self.input.as_str(), other.input.as_str())
            && self.stage == other.stage && self.capture_index == other.capture_index
            && self.artifact_index == other.artifact_index && cursor && self.processed
            == other.processed && self.complete == other.complete
    }
}

/// What became of a source row.
#[derive(Clone, Debug)]
pub enum Outcome {
    Original { asset_id: String, created: bool },
    Image(images::Outcome),
    Metadata {
        input_digest: String,
        state: String,
        observation: Option<i64>,
        reason: Option<String>,
    },
    FileMetadata(file_metadata::ProjectionResult),
    /// What organizing gave, as a document.
    Organization(String),
    /// The row is an image of the other role.
    OtherImageRole,
    Retained { reason: String },
}

/// What an `Outcome` stands for.
pub enum OutcomeModel {
    Original { asset_id: Seq<char>, created: bool },
    Image(images::OutcomeModel),
    Metadata {
        input_digest: Seq<char>,
        state: Seq<char>,
        observation: Option<i64>,
        reason: Option<Seq<char>>,
    },
    FileMetadata(file_metadata::FileResultModel),
    Organization(Seq<char>),
    OtherImageRole,
    Retained { reason: Seq<char> },
}

impl View for Outcome {
    type V = OutcomeModel;

    open spec fn view(&self) -> OutcomeModel {
        match *self {
            Outcome::Original { asset_id, created } => OutcomeModel::Original {
                asset_id: asset_id@,
                created,
            },
            Outcome::Image(v) => OutcomeModel::Image(v@),
            Outcome::Metadata {
                input_digest,
                state,
                observation,
                reason,
            } => OutcomeModel::Metadata {
                input_digest: input_digest@,
                state: state@,
                observation,
                reason: support::text_of(reason),
            },
            Outcome::FileMetadata(v) => OutcomeModel::FileMetadata(v@),
            Outcome::Organization(v) => OutcomeModel::Organization(v@),
            Outcome::OtherImageRole => OutcomeModel::OtherImageRole,
            Outcome::Retained { reason } => OutcomeModel::Retained { reason: reason@ },
        }
    }
}

impl Copied for Outcome {
    fn copied(&self) -> (c: Self) {
        match self {
            Outcome::Original { asset_id, created } => Outcome::Original {
                asset_id: asset_id.clone(),
                created: *created,
            },
            Outcome::Image(v) => Outcome::Image(v.copied()),
            Outcome::Metadata { input_digest, state, observation, reason } => Outcome::Metadata {
                input_digest: input_digest.clone(),
                state: state.clone(),
                observation: *observation,
                reason: copy_option(reason),
            },
            Outcome::FileMetadata(v) => Outcome::FileMetadata(v.copied()),
            Outcome::Organization(v) => Outcome::Organization(v.clone()),
            Outcome::OtherImageRole => Outcome::OtherImageRole,
            Outcome::Retained { reason } => Outcome::Retained { reason: reason.clone() },
        }
    }
}

/// What a step came to.
#[derive(Clone, Debug)]
pub struct Step {
    pub progress: Progress,
    pub outcome: Option<Outcome>,
    /// Where there is one, the run stays at its row until somebody decides.
    pub needs_decision: Option<String>,
}

/// What a `Step` stands for.
#[verifier::ext_equal]
pub struct StepModel {
    pub progress: ProgressModel,
    pub outcome: Option<OutcomeModel>,
    pub needs_decision: Option<Seq<char>>,
}

/// What an optional outcome stands for.
pub open spec fn outcome_of(o: Option<Outcome>) -> Option<OutcomeModel> {
    match o {
        Some(v) => Some(v@),
        None => None,
    }
}

impl View for Step {
    type V = StepModel;

    open spec fn view(&self) -> StepModel {
        StepModel {
            progress: self.progress@,
            outcome: outcome_of(self.outcome),
            needs_decision: support::text_of(self.needs_decision),
        }
    }
}

/// What a source row came to.
pub enum RowResult {
    Applied(Outcome),
    NeedsDecision(String),
}

/// What a `RowResult` stands for.
pub enum RowModel {
    Applied(OutcomeModel),
    NeedsDecision(Seq<char>),
}

impl View for RowResult {
    type V = RowModel;

    open spec fn view(&self) -> RowModel {
        match *self {
            RowResult::Applied(v) => RowModel::Applied(v@),
            RowResult::NeedsDecision(v) => RowModel::NeedsDecision(v@),
        }
    }
}

/// A row that is kept for a reason.
pub open spec fn kept(reason: Seq<char>) -> RowModel {
    RowModel::Applied(OutcomeModel::Retained { reason })
}

/// A row that is kept for a reason.
pub fn retained(reason: &str) -> (r: RowResult)
    ensures
        r@ == kept(reason@),
{
    RowResult::Applied(Outcome::Retained { reason: reason.to_owned() })
}

/// A run: its policy and its progress.
pub struct RunRow {
    pub id: String,
    pub input: String,
    pub policy: Policy,
    pub progress: Progress,
}

/// What a `RunRow` stands for.
#[verifier::ext_equal]
pub struct RunModel {
    pub id: Seq<char>,
    pub input: Seq<char>,
    pub policy: PolicyModel,
    pub progress: ProgressModel,
}

impl View for RunRow {
    type V = RunModel;

    open spec fn view(&self) -> RunModel {
        RunModel {
            id: self.id@,
            input: self.input@,
            policy: self.policy@,
            progress: self.progress@,
        }
    }
}

/// What became of a source row in a run.
pub struct RunItem {
    pub run: String,
    pub stage: Stage,
    pub record: i64,
    pub revision: String,
    pub outcome: Outcome,
}

/// What a `RunItem` stands for.
#[verifier::ext_equal]
pub struct RunItemModel {
    pub run: Seq<char>,
    pub stage: Stage,
    pub record: i64,
    pub revision: Seq<char>,
    pub outcome: OutcomeModel,
}

impl View for RunItem {
    type V = RunItemModel;

    open spec fn view(&self) -> RunItemModel {
        RunItemModel {
            run: self.run@,
            stage: self.stage,
            record: self.record,
            revision: self.revision@,
            outcome: self.outcome@,
        }
    }
}

/// A supplement whose custody a run has verified.
pub struct RunSupplement {
    pub run: String,
    pub revision: String,
    pub source_id: String,
    pub origin: String,
    pub proof: String,
    pub evidence: String,
    pub semantic: String,
}

/// What a `RunSupplement` stands for.
#[verifier::ext_equal]
pub struct RunSupplementModel {
    pub run: Seq<char>,
    pub revision: Seq<char>,
    pub source_id: Seq<char>,
    pub origin: Seq<char>,
    pub proof: Seq<char>,
    pub evidence: Seq<char>,
    pub semantic: Seq<char>,
}

impl View for RunSupplement {
    type V = RunSupplementModel;

    open spec fn view(&self) -> RunSupplementModel {
        RunSupplementModel {
            run: self.run@,
            revision: self.revision@,
            source_id: self.source_id@,
            origin: self.origin@,
            proof: self.proof@,
            evidence: self.evidence@,
            semantic: self.semantic@,
        }
    }
}

/// All runs and what became of their rows.
pub struct Runs {
    pub runs: Vec<RunRow>,
    pub items: Vec<RunItem>,
    pub supplements: Vec<RunSupplement>,
}

/// What `Runs` stands for.
#[verifier::ext_equal]
pub struct RunsModel {
    pub runs: Seq<RunModel>,
    pub items: Seq<RunItemModel>,
    pub supplements: Seq<RunSupplementModel>,
}

impl View for Runs {
    type V = RunsModel;

    open spec fn view(&self) -> RunsModel {
        RunsModel {
            runs: support::models(self.runs@),
            items: support::models(self.items@),
            supplements: support::models(self.supplements@),
        }
    }
}

pub open spec fn run_named(id: Seq<char>) -> spec_fn(RunModel) -> bool {
    |r: RunModel| r.id == id
}

pub open spec fn item_of(run: Seq<char>, stage: Stage, record: i64) -> spec_fn(RunItemModel) -> bool {
    |r: RunItemModel| r.run == run && r.stage == stage && r.record == record
}

impl RunsModel {
    /// The run of an identity.
    pub open spec fn run_at(self, id: Seq<char>) -> Option<int> {
        support::first_where(self.runs, run_named(id))
    }

    /// What became of a row in a stage of a run.
    pub open spec fn item_at(self, run: Seq<char>, stage: Stage, record: i64) -> Option<int> {
        support::first_where(self.items, item_of(run, stage, record))
    }
}

impl Runs {
    /// No runs.
    pub fn new() -> (r: Self)
        ensures
            r@ == (RunsModel {
                runs: Seq::empty(),
                items: Seq::empty(),
                supplements: Seq::empty(),
            }),
    {
        let r: Runs = Runs { runs: Vec::new(), items: Vec::new(), supplements: Vec::new() };
        assert(r@ =~= (RunsModel {
            runs: Seq::empty(),
            items: Seq::empty(),
            supplements: Seq::empty(),
        }));
        r
    }

    fn find_run(&self, id: &str) -> (r: Option<usize>)
        ensures
            match r {
                Some(i) => i < self.runs@.len() && self@.run_at(id@) == Some(i as int)
                    && self@.runs[i as int] == self.runs@[i as int]@ && self.runs@[i as int].id@
                    == id@,
                None => self@.run_at(id@) is None,
            },
    {
        let test = |r: &RunRow| -> (b: bool)
            ensures b == run_named(id@)(r@)
        {
            same(r.id.as_str(), id)
        };
        let r: Option<usize> = support::find(&self.runs, test, Ghost(run_named(id@)));
        proof {
            support::lemma_first_where(self@.runs, run_named(id@));
            if let Some(i) = r {
                assert(self@.runs[i as int] == self.runs@[i as int]@);
            }
        }
        r
    }

    fn has_item(&self, run: &str, stage: Stage, record: i64) -> (r: bool)
        ensures
            r == (self@.item_at(run@, stage, record) is Some),
    {
        let test = |r: &RunItem| -> (b: bool)
            ensures b == item_of(run@, stage, record)(r@)
        {
            r.stage == stage && r.record == record && same(r.run.as_str(), run)
        };
        support::find(&self.items, test, Ghost(item_of(run@, stage, record))).is_some()
    }
}

/// A mapping as a document.
pub open spec fn artifact_input_document(a: ArtifactInputModel) -> Option<Seq<char>> {
    match (outside::json_text(a.capture_revision), artifacts::mapping_document(a.mapping)) {
        (Some(revision), Some(mapping)) => Some(
            "{\"capture_revision\":"@ + revision + ",\"member_index\":"@ + edit::decimal_text(
                a.member_index as nat,
            ) + ",\"mapping\":"@ + mapping + "}"@,
        ),
        _ => None,
    }
}

fn make_artifact_input_document(a: &ArtifactInput) -> (d: Option<String>)
    ensures
        support::text_of(d) == artifact_input_document(a@),
{
    match (json_string(a.capture_revision.as_str()), make_mapping_document(&a.mapping)) {
        (Some(revision), Some(mapping)) => {
            let mut d: String = "{\"capture_revision\":".to_owned();
            d.append(revision.as_str());
            d.append(",\"member_index\":");
            append_number(&mut d, a.member_index as u64);
            d.append(",\"mapping\":");
            d.append(mapping.as_str());
            d.append("}");
            assert(d@ =~= artifact_input_document(a@)->0);
            Some(d)
        },
        _ => None,
    }
}

/// The documents of the first `n`, with commas between them.
pub open spec fn artifact_input_list(s: Seq<ArtifactInputModel>, n: nat) -> Option<Seq<char>>
    decreases n,
{
    if n == 0 {
        Some(""@)
    } else {
        match (artifact_input_list(s, (n - 1) as nat), artifact_input_document(s[n - 1])) {
            (Some(before), Some(d)) => Some(
                before + if n > 1 {
                    ","@
                } else {
                    ""@
                } + d,
            ),
            _ => None,
        }
    }
}

proof fn lemma_artifact_input_list_ends(s: Seq<ArtifactInputModel>, n: nat)
    requires
        n <= s.len(),
        artifact_input_list(s, n) is None,
    ensures
        artifact_input_list(s, s.len()) is None,
    decreases s.len() - n,
{
    if n < s.len() {
        lemma_artifact_input_list_ends(s, n + 1);
    }
}

fn make_artifact_input_list(s: &Vec<ArtifactInput>) -> (d: Option<String>)
    ensures
        support::text_of(d) == artifact_input_list(support::models(s@), s@.len()),
{
    let ghost all = support::models(s@);
    let mut d: String = "".to_owned();
    let mut n: usize = 0;
    while n < s.len()
        invariant
            n <= s@.len(),
            all == support::models(s@),
            artifact_input_list(all, n as nat) == Some(d@),
        decreases s@.len() - n,
    {
        assert(all[n as int] == s@[n as int]@);
        match make_artifact_input_document(&s[n]) {
            None => {
                proof {
                    assert(artifact_input_list(all, (n + 1) as nat) is None);
                    lemma_artifact_input_list_ends(all, (n + 1) as nat);
                }
                return None;
            },
            Some(item) => {
                let ghost before = d@;
                d.append(
                    if n > 0 {
                        ","
                    } else {
                        ""
                    },
                );
                d.append(item.as_str());
                assert(d@ =~= artifact_input_list(all, (n + 1) as nat)->0);
            },
        }
        n += 1;
    }
    Some(d)
}

/// A supplement as a document.
pub open spec fn supplement_input_document(a: SupplementInputModel) -> Option<Seq<char>> {
    match (
        outside::json_text(a.capture_revision),
        outside::json_text(a.source_id),
        outside::json_text(a.evidence),
    ) {
        (Some(revision), Some(source_id), Some(evidence)) => Some(
            "{\"capture_revision\":"@ + revision + ",\"source_id\":"@ + source_id
                + ",\"origin\":"@ + file_projection::origin_word(a.origin) + ",\"evidence\":"@
                + evidence + "}"@,
        ),
        _ => None,
    }
}

fn make_supplement_input_document(a: &SupplementInput) -> (d: Option<String>)
    ensures
        support::text_of(d) == supplement_input_document(a@),
{
    match (
        json_string(a.capture_revision.as_str()),
        json_string(a.source_id.as_str()),
        json_string(a.evidence.as_str()),
    ) {
        (Some(revision), Some(source_id), Some(evidence)) => {
            let mut d: String = "{\"capture_revision\":".to_owned();
            d.append(revision.as_str());
            d.append(",\"source_id\":");
            d.append(source_id.as_str());
            d.append(",\"origin\":");
            d.append(get_origin_word(a.origin));
            d.append(",\"evidence\":");
            d.append(evidence.as_str());
            d.append("}");
            assert(d@ =~= supplement_input_document(a@)->0);
            Some(d)
        },
        _ => None,
    }
}

/// The documents of the first `n`, with commas between them.
pub open spec fn supplement_input_list(s: Seq<SupplementInputModel>, n: nat) -> Option<Seq<char>>
    decreases n,
{
    if n == 0 {
        Some(""@)
    } else {
        match (supplement_input_list(s, (n - 1) as nat), supplement_input_document(s[n - 1])) {
            (Some(before), Some(d)) => Some(
                before + if n > 1 {
                    ","@
                } else {
                    ""@
                } + d,
            ),
            _ => None,
        }
    }
}

proof fn lemma_supplement_input_list_ends(s: Seq<SupplementInputModel>, n: nat)
    requires
        n <= s.len(),
        supplement_input_list(s, n) is None,
    ensures
        supplement_input_list(s, s.len()) is None,
    decreases s.len() - n,
{
    if n < s.len() {
        lemma_supplement_input_list_ends(s, n + 1);
    }
}

fn make_supplement_input_list(s: &Vec<SupplementInput>) -> (d: Option<String>)
    ensures
        support::text_of(d) == supplement_input_list(support::models(s@), s@.len()),
{
    let ghost all = support::models(s@);
    let mut d: String = "".to_owned();
    let mut n: usize = 0;
    while n < s.len()
        invariant
            n <= s@.len(),
            all == support::models(s@),
            supplement_input_list(all, n as nat) == Some(d@),
        decreases s@.len() - n,
    {
        assert(all[n as int] == s@[n as int]@);
        match make_supplement_input_document(&s[n]) {
            None => {
                proof {
                    assert(supplement_input_list(all, (n + 1) as nat) is None);
                    lemma_supplement_input_list_ends(all, (n + 1) as nat);
                }
                return None;
            },
            Some(item) => {
                let ghost before = d@;
                d.append(
                    if n > 0 {
                        ","
                    } else {
                        ""
                    },
                );
                d.append(item.as_str());
                assert(d@ =~= supplement_input_list(all, (n + 1) as nat)->0);
            },
        }
        n += 1;
    }
    Some(d)
}

/// What is done about something known, as a document.
pub open spec fn overlap_document(reuse: Seq<char>, reason: Option<Seq<char>>) -> Option<Seq<char>> {
    match reason {
        None => Some("{\"kind\":\"RequireDecision\"}"@),
        Some(text) => match outside::json_text(text) {
            None => None,
            Some(said) => Some(
                "{\"kind\":\""@ + reuse + "\",\"reason\":"@ + said + "}"@,
            ),
        },
    }
}

fn make_overlap_document(reuse: &str, reason: Option<&str>) -> (d: Option<String>)
    ensures
        support::text_of(d) == overlap_document(
            reuse@,
            (match reason {
                Some(text) => Some(text@),
                None => None,
            }),
        ),
{
    match reason {
        None => Some("{\"kind\":\"RequireDecision\"}".to_owned()),
        Some(text) => match json_string(text) {
            None => None,
            Some(said) => {
                let mut d: String = "{\"kind\":\"".to_owned();
                d.append(reuse);
                d.append("\",\"reason\":");
                d.append(said.as_str());
                d.append("}");
                assert(d@ =~= overlap_document(reuse@, Some(text@))->0);
                Some(d)
            },
        },
    }
}

/// A policy as a document.
pub open spec fn policy_document(p: PolicyModel) -> Option<Seq<char>> {
    match (
        outside::json_text(p.import_source),
        overlap_document("ReuseExactPath"@, p.overlap),
        overlap_document("ReuseExactHierarchy"@, p.keyword_overlap),
        artifact_input_list(p.artifacts, p.artifacts.len()),
        supplement_input_list(p.supplements, p.supplements.len()),
    ) {
        (Some(owner), Some(overlap), Some(keywords), Some(artifacts), Some(supplements)) => Some(
            "{\"import_source\":"@ + owner + ",\"overlap\":"@ + overlap
                + ",\"keyword_overlap\":"@ + keywords + ",\"artifacts\":["@ + artifacts
                + "],\"supplements\":["@ + supplements + "]}"@,
        ),
        _ => None,
    }
}

pub(crate) fn make_policy_document(p: &Policy) -> (d: Option<String>)
    ensures
        support::text_of(d) == policy_document(p@),
{
    let overlap: Option<&str> = match &p.overlap {
        OverlapPolicy::RequireDecision => None,
        OverlapPolicy::ReuseExactPath { reason } => Some(reason.as_str()),
    };
    let keywords: Option<&str> = match &p.keyword_overlap {
        KeywordOverlap::RequireDecision => None,
        KeywordOverlap::ReuseExactHierarchy { reason } => Some(reason.as_str()),
    };
    match (
        json_string(p.import_source.as_str()),
        make_overlap_document("ReuseExactPath", overlap),
        make_overlap_document("ReuseExactHierarchy", keywords),
        make_artifact_input_list(&p.artifacts),
        make_supplement_input_list(&p.supplements),
    ) {
        (Some(owner), Some(overlap), Some(keywords), Some(artifacts), Some(supplements)) => {
            let mut d: String = "{\"import_source\":".to_owned();
            d.append(owner.as_str());
            d.append(",\"overlap\":");
            d.append(overlap.as_str());
            d.append(",\"keyword_overlap\":");
            d.append(keywords.as_str());
            d.append(",\"artifacts\":[");
            d.append(artifacts.as_str());
            d.append("],\"supplements\":[");
            d.append(supplements.as_str());
            d.append("]}");
            assert(d@ =~= policy_document(p@)->0);
            Some(d)
        },
        _ => None,
    }
}

/// The identity of a run: that of its input and its policy.
#[verifier::opaque]
pub open spec fn run_identity(input: Seq<char>, p: PolicyModel) -> Result<Seq<char>, MigrationError> {
    match (outside::json_text(input), policy_document(p)) {
        (Some(from), Some(policy)) => {
            let document = encode_utf8(
                "[\"lightroom-selected-import-v2\","@ + from + ","@ + policy + "]"@,
            );
            if document.len() > STATE_LIMIT {
                Err(MigrationError::DocumentBounds)
            } else {
                Ok(outside::blake3_hex(document))
            }
        },
        _ => Err(MigrationError::DocumentBounds),
    }
}

fn make_run_identity(input: &str, p: &Policy) -> (r: Result<String, MigrationError>)
    ensures
        match run_identity(input@, p@) {
            Err(e) => r == Err::<String, MigrationError>(e),
            Ok(id) => r matches Ok(text) && text@ == id,
        },
{
    reveal(run_identity);
    match (json_string(input), make_policy_document(p)) {
        (Some(from), Some(policy)) => {
            let mut d: String = "[\"lightroom-selected-import-v2\",".to_owned();
            d.append(from.as_str());
            d.append(",");
            d.append(policy.as_str());
            d.append("]");
            assert(d@ =~= "[\"lightroom-selected-import-v2\","@ + from@ + ","@ + policy@ + "]"@);
            let bytes = d.as_str().as_bytes();
            if bytes.len() > STATE_LIMIT {
                Err(MigrationError::DocumentBounds)
            } else {
                Ok(blake3_digest(bytes))
            }
        },
        _ => Err(MigrationError::DocumentBounds),
    }
}

/// A capture was selected.
pub open spec fn selects(selected: Seq<SelectedCapture>, revision: Seq<char>) -> bool {
    exists|i: int| 0 <= i < selected.len() && (#[trigger] selected[i]).revision@ == revision
}

fn is_selecting(selected: &Vec<SelectedCapture>, revision: &str) -> (r: bool)
    ensures
        r == selects(selected@, revision@),
{
    let mut i: usize = 0;
    while i < selected.len()
        invariant
            i <= selected@.len(),
            forall|k: int| 0 <= k < i ==> (#[trigger] selected@[k]).revision@ != revision@,
        decreases selected@.len() - i,
    {
        if same(selected[i].revision.as_str(), revision) {
            return true;
        }
        i += 1;
    }
    false
}

/// Two supplements are of one origin of one file.
pub open spec fn same_file(a: SupplementInputModel, b: SupplementInputModel) -> bool {
    a.capture_revision == b.capture_revision && a.source_id == b.source_id && a.origin == b.origin
}

/// Why a supplement of a policy is refused.
pub open spec fn supplement_refusal(
    s: Seq<SupplementInputModel>,
    selected: Seq<SelectedCapture>,
    i: int,
) -> Option<MigrationError> {
    if support::byte_length(s[i].capture_revision) != 64 || !(0 < support::byte_length(
        s[i].source_id,
    ) <= POLICY_TEXT) || support::byte_length(s[i].evidence) != 64 {
        Some(MigrationError::SupplementBounds)
    } else if !selects(selected, s[i].capture_revision) {
        Some(MigrationError::CaptureExcluded)
    } else if exists|k: int| 0 <= k < i && same_file(#[trigger] s[k], s[i]) {
        Some(MigrationError::SupplementRepeated)
    } else {
        None
    }
}

/// Why one of the first `n` supplements of a policy is refused.
pub open spec fn supplements_refusal(
    s: Seq<SupplementInputModel>,
    selected: Seq<SelectedCapture>,
    n: nat,
) -> Option<MigrationError>
    decreases n,
{
    if n == 0 {
        None
    } else {
        match supplements_refusal(s, selected, (n - 1) as nat) {
            Some(e) => Some(e),
            None => supplement_refusal(s, selected, n - 1),
        }
    }
}

proof fn lemma_supplements_refused(
    s: Seq<SupplementInputModel>,
    selected: Seq<SelectedCapture>,
    n: nat,
)
    requires
        n <= s.len(),
        supplements_refusal(s, selected, n) is Some,
    ensures
        supplements_refusal(s, selected, s.len()) == supplements_refusal(s, selected, n),
    decreases s.len() - n,
{
    if n < s.len() {
        lemma_supplements_refused(s, selected, n + 1);
    }
}

#[verifier::loop_isolation(false)]
fn check_supplement(
    s: &Vec<SupplementInput>,
    selected: &Vec<SelectedCapture>,
    i: usize,
) -> (r: Option<MigrationError>)
    requires
        i < s@.len(),
    ensures
        r == supplement_refusal(support::models(s@), selected@, i as int),
{
    let ghost all = support::models(s@);
    assert(all[i as int] == s@[i as int]@);
    let x = &s[i];
    if byte_len(x.capture_revision.as_str()) != 64 || byte_len(x.source_id.as_str()) == 0
        || byte_len(x.source_id.as_str()) > POLICY_TEXT || byte_len(x.evidence.as_str()) != 64 {
        return Some(MigrationError::SupplementBounds);
    }
    if !is_selecting(selected, x.capture_revision.as_str()) {
        return Some(MigrationError::CaptureExcluded);
    }
    let mut k: usize = 0;
    while k < i
        invariant
            k <= i < s@.len(),
            all == support::models(s@),
            x == s@[i as int],
            forall|j: int| 0 <= j < k ==> !same_file(#[trigger] all[j], all[i as int]),
        decreases i - k,
    {
        assert(all[k as int] == s@[k as int]@);
        assert(all[i as int] == s@[i as int]@);
        if s[k].origin == x.origin && same(
            s[k].capture_revision.as_str(),
            x.capture_revision.as_str(),
        ) && same(s[k].source_id.as_str(), x.source_id.as_str()) {
            assert(same_file(all[k as int], all[i as int]));
            return Some(MigrationError::SupplementRepeated);
        }
        k += 1;
    }
    None
}

/// Why a mapping of a policy is refused.
pub open spec fn artifact_refusal(
    s: Seq<ArtifactInputModel>,
    selected: Seq<SelectedCapture>,
    i: int,
) -> Option<MigrationError> {
    if !selects(selected, s[i].capture_revision) {
        Some(MigrationError::CaptureExcluded)
    } else if exists|k: int|
        0 <= k < i && (#[trigger] s[k]).capture_revision == s[i].capture_revision
            && s[k].member_index == s[i].member_index {
        Some(MigrationError::ArtifactRepeated)
    } else if !artifacts::path_bounded(s[i].mapping.root) || !artifacts::path_bounded(
        s[i].mapping.relative,
    ) {
        Some(MigrationError::PathBounds)
    } else {
        None
    }
}

/// Why one of the first `n` mappings of a policy is refused.
pub open spec fn artifacts_refusal(
    s: Seq<ArtifactInputModel>,
    selected: Seq<SelectedCapture>,
    n: nat,
) -> Option<MigrationError>
    decreases n,
{
    if n == 0 {
        None
    } else {
        match artifacts_refusal(s, selected, (n - 1) as nat) {
            Some(e) => Some(e),
            None => artifact_refusal(s, selected, n - 1),
        }
    }
}

proof fn lemma_artifacts_refused(
    s: Seq<ArtifactInputModel>,
    selected: Seq<SelectedCapture>,
    n: nat,
)
    requires
        n <= s.len(),
        artifacts_refusal(s, selected, n) is Some,
    ensures
        artifacts_refusal(s, selected, s.len()) == artifacts_refusal(s, selected, n),
    decreases s.len() - n,
{
    if n < s.len() {
        lemma_artifacts_refused(s, selected, n + 1);
    }
}

#[verifier::loop_isolation(false)]
fn check_artifact(s: &Vec<ArtifactInput>, selected: &Vec<SelectedCapture>, i: usize) -> (r: Option<
    MigrationError,
>)
    requires
        i < s@.len(),
    ensures
        r == artifact_refusal(support::models(s@), selected@, i as int),
{
    let ghost all = support::models(s@);
    assert(all[i as int] == s@[i as int]@);
    let x = &s[i];
    if !is_selecting(selected, x.capture_revision.as_str()) {
        return Some(MigrationError::CaptureExcluded);
    }
    let mut k: usize = 0;
    while k < i
        invariant
            k <= i < s@.len(),
            all == support::models(s@),
            x == s@[i as int],
            forall|j: int|
                0 <= j < k ==> !((#[trigger] all[j]).capture_revision
                    == all[i as int].capture_revision && all[j].member_index
                    == all[i as int].member_index),
        decreases i - k,
    {
        assert(all[k as int] == s@[k as int]@);
        assert(all[i as int] == s@[i as int]@);
        if s[k].member_index == x.member_index && same(
            s[k].capture_revision.as_str(),
            x.capture_revision.as_str(),
        ) {
            assert(all[k as int].capture_revision == all[i as int].capture_revision);
            return Some(MigrationError::ArtifactRepeated);
        }
        k += 1;
    }
    let root: usize = count_units(&x.mapping.root);
    let relative: usize = count_units(&x.mapping.relative);
    if root == 0 || root > PATH_UNITS || relative == 0 || relative > PATH_UNITS {
        return Some(MigrationError::PathBounds);
    }
    None
}

/// A reason is given and short.
pub open spec fn short_reason(reason: Option<Seq<char>>) -> bool {
    match reason {
        None => true,
        Some(text) => !support::blank(text) && support::byte_length(text) <= POLICY_TEXT,
    }
}

/// Why a policy is refused.
#[verifier::opaque]
pub open spec fn policy_refusal(p: PolicyModel, selected: Seq<SelectedCapture>) -> Option<
    MigrationError,
> {
    if support::blank(p.import_source) || support::byte_length(p.import_source) > POLICY_TEXT
        || support::has_nul(p.import_source) {
        Some(MigrationError::OwnerBounds)
    } else if !short_reason(p.overlap) {
        Some(MigrationError::ReasonBounds)
    } else if p.artifacts.len() > POLICY_ROWS || p.supplements.len() > POLICY_ROWS {
        Some(MigrationError::RosterLimit)
    } else {
        match supplements_refusal(p.supplements, selected, p.supplements.len()) {
            Some(e) => Some(e),
            None => match artifacts_refusal(p.artifacts, selected, p.artifacts.len()) {
                Some(e) => Some(e),
                None => if !short_reason(p.keyword_overlap) {
                    Some(MigrationError::ReasonBounds)
                } else {
                    None
                },
            },
        }
    }
}

fn is_short_reason(reason: &str) -> (r: bool)
    ensures
        r == short_reason(Some(reason@)),
{
    !is_blank(reason) && byte_len(reason) <= POLICY_TEXT
}

fn check_rows(p: &Policy, selected: &Vec<SelectedCapture>) -> (r: Option<MigrationError>)
    ensures
        r == match supplements_refusal(p@.supplements, selected@, p@.supplements.len()) {
            Some(e) => Some(e),
            None => artifacts_refusal(p@.artifacts, selected@, p@.artifacts.len()),
        },
{
    let mut i: usize = 0;
    while i < p.supplements.len()
        invariant
            i <= p.supplements@.len(),
            supplements_refusal(p@.supplements, selected@, i as nat) is None,
        decreases p.supplements@.len() - i,
    {
        match check_supplement(&p.supplements, selected, i) {
            Some(e) => {
                proof {
                    lemma_supplements_refused(p@.supplements, selected@, (i + 1) as nat);
                }
                return Some(e);
            },
            None => {},
        }
        i += 1;
    }
    let mut k: usize = 0;
    while k < p.artifacts.len()
        invariant
            k <= p.artifacts@.len(),
            supplements_refusal(p@.supplements, selected@, p@.supplements.len()) is None,
            artifacts_refusal(p@.artifacts, selected@, k as nat) is None,
        decreases p.artifacts@.len() - k,
    {
        match check_artifact(&p.artifacts, selected, k) {
            Some(e) => {
                proof {
                    lemma_artifacts_refused(p@.artifacts, selected@, (k + 1) as nat);
                }
                return Some(e);
            },
            None => {},
        }
        k += 1;
    }
    None
}

fn check_policy(p: &Policy, selected: &Vec<SelectedCapture>) -> (r: Option<MigrationError>)
    ensures
        r == policy_refusal(p@, selected@),
{
    reveal(policy_refusal);
    if is_blank(p.import_source.as_str()) || byte_len(p.import_source.as_str()) > POLICY_TEXT
        || contains_nul(p.import_source.as_str()) {
        return Some(MigrationError::OwnerBounds);
    }
    match &p.overlap {
        OverlapPolicy::ReuseExactPath { reason } => {
            if !is_short_reason(reason.as_str()) {
                return Some(MigrationError::ReasonBounds);
            }
        },
        OverlapPolicy::RequireDecision => {},
    }
    if p.artifacts.len() > POLICY_ROWS || p.supplements.len() > POLICY_ROWS {
        return Some(MigrationError::RosterLimit);
    }
    match check_rows(p, selected) {
        Some(e) => return Some(e),
        None => {},
    }
    match &p.keyword_overlap {
        KeywordOverlap::ReuseExactHierarchy { reason } => {
            if !is_short_reason(reason.as_str()) {
                return Some(MigrationError::ReasonBounds);
            }
        },
        KeywordOverlap::RequireDecision => {},
    }
    None
}

pub open spec fn supplements_pin(pin: SupplementPin) -> spec_fn(SupplementInputModel) -> bool {
    |s: SupplementInputModel|
        s.capture_revision == pin.revision@ && s.source_id == pin.source_id@ && s.origin
            == Origin::Embedded
}

fn find_pinned(supplements: &Vec<SupplementInput>, pin: &SupplementPin) -> (found: Vec<usize>)
    ensures
        support::ints(found@) == support::positions(
            support::models(supplements@),
            supplements_pin(*pin),
            supplements@.len(),
        ),
        forall|k: int| 0 <= k < found@.len() ==> (#[trigger] found@[k]) < supplements@.len(),
{
    let test = |s: &SupplementInput| -> (b: bool)
        ensures b == supplements_pin(*pin)(s@)
    {
        s.origin == Origin::Embedded && same(s.capture_revision.as_str(), pin.revision.as_str())
            && same(s.source_id.as_str(), pin.source_id.as_str())
    };
    support::find_all(supplements, test, Ghost(supplements_pin(*pin)))
}

/// A retained document is the one that a pin names.
pub open spec fn document_pinned(
    store: EvidenceStore,
    evidence: Seq<char>,
    pin: SupplementPin,
) -> Result<(), MigrationError> {
    match file_metadata::custody_bytes(store, evidence, SUPPLEMENT_LIMIT as nat) {
        Err(e) => Err(e),
        Ok(bytes) => if outside::blake3_hex(bytes) == pin.proof_blake3@ {
            Ok(())
        } else {
            Err(MigrationError::DigestDiffers)
        },
    }
}

fn check_document(store: &EvidenceStore, evidence: &str, pin: &SupplementPin) -> (r: Result<
    (),
    MigrationError,
>)
    ensures
        r == document_pinned(*store, evidence@, *pin),
{
    match custody(store, evidence, SUPPLEMENT_LIMIT) {
        Err(e) => Err(e),
        Ok(bytes) => {
            if same(blake3_digest(bytes.as_slice()).as_str(), pin.proof_blake3.as_str()) {
                Ok(())
            } else {
                Err(MigrationError::DigestDiffers)
            }
        },
    }
}

/// The bytes that may still be read once the first `n` pins have their documents.
pub open spec fn documents_left(
    store: EvidenceStore,
    pins: Seq<SupplementPin>,
    supplements: Seq<SupplementInputModel>,
    n: nat,
) -> Result<nat, MigrationError>
    decreases n,
{
    if n == 0 {
        Ok(SUPPLEMENT_BYTES as nat)
    } else {
        match documents_left(store, pins, supplements, (n - 1) as nat) {
            Err(e) => Err(e),
            Ok(left) => {
                let pin = pins[n - 1];
                let found = support::positions(supplements, supplements_pin(pin), supplements.len());
                if pin.origin@ != "embedded"@ || found.len() != 1 {
                    Err(MigrationError::SupplementUnpinned)
                } else {
                    let evidence = supplements[found[0]].evidence;
                    match store.row_of(evidence) {
                        None => Err(
                            MigrationError::Evidence(
                                crate::catalog_migration::evidence::EvidenceError::Unknown,
                            ),
                        ),
                        Some(k) => {
                            let row = store.rows@[k];
                            if !row.complete || row.length > SUPPLEMENT_LIMIT || row.length > left {
                                Err(MigrationError::CustodyDiffers)
                            } else {
                                match document_pinned(store, evidence, pin) {
                                    Err(e) => Err(e),
                                    Ok(()) => Ok((left - row.length) as nat),
                                }
                            }
                        },
                    }
                }
            },
        }
    }
}

proof fn lemma_documents_stop(
    store: EvidenceStore,
    pins: Seq<SupplementPin>,
    supplements: Seq<SupplementInputModel>,
    n: nat,
)
    requires
        n <= pins.len(),
        documents_left(store, pins, supplements, n) is Err,
    ensures
        documents_left(store, pins, supplements, pins.len()) == documents_left(
            store,
            pins,
            supplements,
            n,
        ),
    decreases pins.len() - n,
{
    if n < pins.len() {
        lemma_documents_stop(store, pins, supplements, n + 1);
    }
}

/// Whether every supplement that was sealed has its document, and no other is given.
pub open spec fn supplements_checked(
    store: EvidenceStore,
    pins: Seq<SupplementPin>,
    supplements: Seq<SupplementInputModel>,
) -> Result<(), MigrationError> {
    if pins.len() != supplements.len() {
        Err(MigrationError::RosterDiffers)
    } else {
        match documents_left(store, pins, supplements, pins.len()) {
            Err(e) => Err(e),
            Ok(_) => Ok(()),
        }
    }
}

/// Whether every supplement that was sealed has its document, and no other is given.
pub fn check_supplements(
    store: &EvidenceStore,
    pins: &Vec<SupplementPin>,
    supplements: &Vec<SupplementInput>,
) -> (r: Result<(), MigrationError>)
    ensures
        r == supplements_checked(*store, pins@, support::models(supplements@)),
{
    let ghost all = support::models(supplements@);
    if pins.len() != supplements.len() {
        return Err(MigrationError::RosterDiffers);
    }
    let mut left: u64 = SUPPLEMENT_BYTES;
    let mut n: usize = 0;
    while n < pins.len()
        invariant
            n <= pins@.len(),
            pins@.len() == supplements@.len(),
            all == support::models(supplements@),
            documents_left(*store, pins@, all, n as nat) == Ok::<nat, MigrationError>(left as nat),
        decreases pins@.len() - n,
    {
        let pin = &pins[n];
        let found: Vec<usize> = find_pinned(supplements, pin);
        assert(support::ints(found@).len() == found@.len());
        if !same(pin.origin.as_str(), "embedded") || found.len() != 1 {
            proof {
                lemma_documents_stop(*store, pins@, all, (n + 1) as nat);
            }
            return Err(MigrationError::SupplementUnpinned);
        }
        assert(support::ints(found@)[0] == found@[0] as int);
        let evidence: &str = supplements[found[0]].evidence.as_str();
        assert(all[found@[0] as int] == supplements@[found@[0] as int]@);
        let state: EvidenceState = match store.state(evidence) {
            Err(e) => {
                proof {
                    lemma_documents_stop(*store, pins@, all, (n + 1) as nat);
                }
                return Err(MigrationError::Evidence(e));
            },
            Ok(state) => state,
        };
        if !state.complete || state.length > SUPPLEMENT_LIMIT as u64 || state.length > left {
            proof {
                lemma_documents_stop(*store, pins@, all, (n + 1) as nat);
            }
            return Err(MigrationError::CustodyDiffers);
        }
        match check_document(store, evidence, pin) {
            Err(e) => {
                proof {
                    lemma_documents_stop(*store, pins@, all, (n + 1) as nat);
                }
                return Err(e);
            },
            Ok(()) => {},
        }
        left = left - state.length;
        n += 1;
    }
    Ok(())
}

/// How a run starts.
pub open spec fn started(id: Seq<char>, input: Seq<char>) -> ProgressModel {
    ProgressModel {
        id,
        input,
        stage: Stage::Custody,
        capture_index: 0,
        artifact_index: 0,
        cursor: None,
        processed: 0,
        complete: false,
    }
}

/// The run of an identity that is the identity of its input and its policy.
pub open spec fn read_run(runs: RunsModel, id: Seq<char>) -> Result<int, MigrationError> {
    if support::byte_length(id) != 64 {
        Err(MigrationError::IdentityBounds)
    } else {
        match runs.run_at(id) {
            None => Err(MigrationError::RunMissing),
            Some(k) => if runs.runs[k].progress.id != id {
                Err(MigrationError::RunForeign)
            } else {
                match run_identity(runs.runs[k].progress.input, runs.runs[k].policy) {
                    Err(e) => Err(e),
                    Ok(expected) => if expected != id {
                        Err(MigrationError::RunForeign)
                    } else {
                        Ok(k)
                    },
                }
            },
        }
    }
}

pub(crate) fn read(runs: &Runs, id: &str) -> (r: Result<usize, MigrationError>)
    ensures
        match read_run(runs@, id@) {
            Err(e) => r == Err::<usize, MigrationError>(e),
            Ok(k) => r matches Ok(i) && i == k && i < runs.runs@.len() && runs@.runs[k]
                == runs.runs@[k]@ && runs.runs@[k].id@ == id@,
        },
{
    if byte_len(id) != 64 {
        return Err(MigrationError::IdentityBounds);
    }
    let k: usize = match runs.find_run(id) {
        None => return Err(MigrationError::RunMissing),
        Some(k) => k,
    };
    if !same(runs.runs[k].progress.id.as_str(), id) {
        return Err(MigrationError::RunForeign);
    }
    match make_run_identity(runs.runs[k].progress.input.as_str(), &runs.runs[k].policy) {
        Err(e) => Err(e),
        Ok(expected) => {
            if !same(expected.as_str(), id) {
                Err(MigrationError::RunForeign)
            } else {
                Ok(k)
            }
        },
    }
}

/// What beginning a run comes to. A run that was begun before is found again as far
/// as it has come.
pub open spec fn begun(c: Catalog, binding: Seq<char>, policy: PolicyModel) -> Result<
    (RunsModel, ProgressModel),
    MigrationError,
> {
    let runs = c.migration.runs@;
    match c.migration.files@.seal_at(binding) {
        None => Err(MigrationError::SealMissing),
        Some(k) => {
            let seal = c.migration.files@.seals[k];
            match policy_refusal(policy, seal.selected@) {
                Some(e) => Err(e),
                None => match supplements_checked(
                    c.evidence,
                    seal.supplements@,
                    policy.supplements,
                ) {
                    Err(e) => Err(e),
                    Ok(()) => match run_identity(binding, policy) {
                        Err(e) => Err(e),
                        Ok(id) => match runs.run_at(id) {
                            None => Ok(
                                (
                                    RunsModel {
                                        runs: runs.runs.push(
                                            RunModel {
                                                id,
                                                input: binding,
                                                policy,
                                                progress: started(id, binding),
                                            },
                                        ),
                                        ..runs
                                    },
                                    started(id, binding),
                                ),
                            ),
                            Some(_) => match read_run(runs, id) {
                                Err(e) => Err(e),
                                Ok(i) => if runs.runs[i].progress.input != binding
                                    || policy_document(runs.runs[i].policy) != policy_document(
                                    policy,
                                ) {
                                    Err(MigrationError::RunForeign)
                                } else {
                                    Ok((runs, runs.runs[i].progress))
                                },
                            },
                        },
                    },
                },
            }
        },
    }
}

/// What going on with a run comes to: its progress changes only from what it was
/// believed to be, and the row that was worked on is recorded with it.
pub open spec fn advanced(
    r: RetainedModel,
    runs: RunsModel,
    before: ProgressModel,
    after: ProgressModel,
    item: Option<(i64, OutcomeModel)>,
) -> Result<RunsModel, MigrationError> {
    match runs.run_at(before.id) {
        None => Err(MigrationError::CursorChanged),
        Some(k) => if runs.runs[k].progress != before {
            Err(MigrationError::CursorChanged)
        } else {
            let moved = RunsModel {
                runs: runs.runs.update(k, RunModel { progress: after, ..runs.runs[k] }),
                ..runs
            };
            match item {
                None => Ok(moved),
                Some((record, outcome)) => match r.record_of(record) {
                    None => Err(MigrationError::ItemForeign),
                    Some(i) => if r.records[i].input != before.input {
                        Err(MigrationError::ItemForeign)
                    } else if runs.item_at(before.id, before.stage, record) is Some {
                        Err(MigrationError::ItemRecorded)
                    } else {
                        Ok(
                            RunsModel {
                                items: runs.items.push(
                                    RunItemModel {
                                        run: before.id,
                                        stage: before.stage,
                                        record,
                                        revision: r.records[i].revision,
                                        outcome,
                                    },
                                ),
                                ..moved
                            },
                        )
                    },
                },
            }
        },
    }
}

/// What an optional row and its outcome stand for.
pub open spec fn item_model(item: Option<(i64, &Outcome)>) -> Option<(i64, OutcomeModel)> {
    match item {
        Some((record, outcome)) => Some((record, outcome@)),
        None => None,
    }
}

pub(crate) fn advance(
    r: &Retained,
    runs: &mut Runs,
    before: &Progress,
    after: &Progress,
    item: Option<(i64, &Outcome)>,
) -> (out: Result<(), MigrationError>)
    ensures
        match advanced(r@, old(runs)@, before@, after@, item_model(item)) {
            Err(e) => out == Err::<(), MigrationError>(e) && *final(runs) == *old(runs),
            Ok(m) => out is Ok && final(runs)@ == m,
        },
{
    let k: usize = match runs.find_run(before.id.as_str()) {
        None => return Err(MigrationError::CursorChanged),
        Some(k) => k,
    };
    if !runs.runs[k].progress.same_as(before) {
        return Err(MigrationError::CursorChanged);
    }
    let ghost start = runs@;
    match item {
        None => {},
        Some((record, outcome)) => {
            let i: usize = match r.find_record(record) {
                None => return Err(MigrationError::ItemForeign),
                Some(i) => i,
            };
            if !same(r.records[i].input.as_str(), before.input.as_str()) {
                return Err(MigrationError::ItemForeign);
            }
            if runs.has_item(before.id.as_str(), before.stage, record) {
                return Err(MigrationError::ItemRecorded);
            }
            let row: RunItem = RunItem {
                run: before.id.clone(),
                stage: before.stage,
                record,
                revision: r.records[i].revision.clone(),
                outcome: outcome.copied(),
            };
            runs.items.push(row);
            assert(runs@.items =~= start.items.push(row@));
        },
    }
    let next: Progress = after.copied();
    let ghost old_row = runs.runs@[k as int];
    let row: RunRow = RunRow {
        id: runs.runs[k].id.clone(),
        input: runs.runs[k].input.clone(),
        policy: runs.runs[k].policy.copied(),
        progress: next,
    };
    runs.runs.set(k, row);
    assert(runs@.runs =~= start.runs.update(
        k as int,
        RunModel { progress: after@, ..start.runs[k as int] },
    ));
    assert(runs@ =~= advanced(r@, start, before@, after@, item_model(item))->Ok_0);
    Ok(())
}

impl Catalog {
    /// Begins the import of a sealed source under a policy, or finds it again as far
    /// as it has come.
    pub fn begin_selected_import(&mut self, binding: &str, policy: &Policy) -> (out: Result<
        Progress,
        MigrationError,
    >)
        ensures
            final(self).runs_only(*old(self)),
            match begun(*old(self), binding@, policy@) {
                Err(e) => out == Err::<Progress, MigrationError>(e) && *final(self) == *old(self),
                Ok((runs, progress)) => final(self).migration.runs@ == runs && (out matches Ok(p)
                    && p@ == progress),
            },
    {
        let k: usize = match self.migration.files.find_seal(binding) {
            None => return Err(MigrationError::SealMissing),
            Some(k) => k,
        };
        let seal = &self.migration.files.seals[k];
        match check_policy(policy, &seal.selected) {
            Some(e) => return Err(e),
            None => {},
        }
        match check_supplements(&self.evidence, &seal.supplements, &policy.supplements) {
            Err(e) => return Err(e),
            Ok(()) => {},
        }
        let id: String = match make_run_identity(binding, policy) {
            Err(e) => return Err(e),
            Ok(id) => id,
        };
        match self.migration.runs.find_run(id.as_str()) {
            None => {
                let progress: Progress = Progress {
                    id: id.clone(),
                    input: binding.to_owned(),
                    stage: Stage::Custody,
                    capture_index: 0,
                    artifact_index: 0,
                    cursor: None,
                    processed: 0,
                    complete: false,
                };
                let row: RunRow = RunRow {
                    id,
                    input: binding.to_owned(),
                    policy: policy.copied(),
                    progress: progress.copied(),
                };
                let ghost before = self.migration.runs@;
                self.migration.runs.runs.push(row);
                assert(self.migration.runs@.runs =~= before.runs.push(row@));
                Ok(progress)
            },
            Some(_) => {
                let i: usize = match read(&self.migration.runs, id.as_str()) {
                    Err(e) => return Err(e),
                    Ok(i) => i,
                };
                let row = &self.migration.runs.runs[i];
                let alike: bool = match (
                    make_policy_document(&row.policy),
                    make_policy_document(policy),
                ) {
                    (Some(a), Some(b)) => same(a.as_str(), b.as_str()),
                    (None, None) => true,
                    _ => false,
                };
                if !same(row.progress.input.as_str(), binding) || !alike {
                    return Err(MigrationError::RunForeign);
                }
                Ok(row.progress.copied())
            },
        }
    }

    /// The policy of a run.
    pub fn selected_import_policy(&self, id: &str) -> (out: Result<Policy, MigrationError>)
        ensures
            match read_run(self.migration.runs@, id@) {
                Err(e) => out == Err::<Policy, MigrationError>(e),
                Ok(k) => out matches Ok(p) && p@ == self.migration.runs@.runs[k].policy,
            },
    {
        match read(&self.migration.runs, id) {
            Err(e) => Err(e),
            Ok(k) => Ok(self.migration.runs.runs[k].policy.copied()),
        }
    }

    /// How far a run has come.
    pub fn selected_import_progress(&self, id: &str) -> (out: Result<Progress, MigrationError>)
        ensures
            match read_run(self.migration.runs@, id@) {
                Err(e) => out == Err::<Progress, MigrationError>(e),
                Ok(k) => out matches Ok(p) && p@ == self.migration.runs@.runs[k].progress,
            },
    {
        match read(&self.migration.runs, id) {
            Err(e) => Err(e),
            Ok(k) => Ok(self.migration.runs.runs[k].progress.copied()),
        }
    }
}

/// What happened outside since the last step.
pub enum StepEvent {
    Nothing,
    /// Evidence was retained; all of it, or some.
    Retained { complete: bool },
    /// Retained evidence was indexed; all of it, or some.
    Indexed { complete: bool },
    /// The document of a supplement was verified, and its meaning digested.
    Supplemented { semantic: String },
    /// A source row was worked on.
    Row { record: i64, result: RowResult },
    /// The metadata of a source file was read and interpreted.
    File(FileFacts),
    /// The current settings of a source image were projected.
    Develop(DevelopFacts),
    /// What was imported was reconciled; all of it, or some.
    Reconciled { complete: bool },
}

/// What a `StepEvent` stands for.
pub enum EventModel {
    Nothing,
    Retained { complete: bool },
    Indexed { complete: bool },
    Supplemented { semantic: Seq<char> },
    Row { record: i64, result: RowModel },
    File,
    Develop,
    Reconciled { complete: bool },
}

impl View for StepEvent {
    type V = EventModel;

    open spec fn view(&self) -> EventModel {
        match *self {
            StepEvent::Nothing => EventModel::Nothing,
            StepEvent::Retained { complete } => EventModel::Retained { complete },
            StepEvent::Indexed { complete } => EventModel::Indexed { complete },
            StepEvent::Supplemented { semantic } => EventModel::Supplemented { semantic: semantic@ },
            StepEvent::Row { record, result } => EventModel::Row { record, result: result@ },
            StepEvent::File(_) => EventModel::File,
            StepEvent::Develop(_) => EventModel::Develop,
            StepEvent::Reconciled { complete } => EventModel::Reconciled { complete },
        }
    }
}

/// A step that changes nothing.
pub open spec fn stays(runs: RunsModel, before: ProgressModel) -> Result<
    (RunsModel, StepModel),
    MigrationError,
> {
    Ok((runs, StepModel { progress: before, outcome: None, needs_decision: None }))
}

/// A step that goes on to another progress.
pub open spec fn goes(
    r: RetainedModel,
    runs: RunsModel,
    before: ProgressModel,
    after: ProgressModel,
    item: Option<(i64, OutcomeModel)>,
) -> Result<(RunsModel, StepModel), MigrationError> {
    match advanced(r, runs, before, after, item) {
        Err(e) => Err(e),
        Ok(m) => Ok(
            (
                m,
                StepModel {
                    progress: after,
                    outcome: match item {
                        Some(x) => Some(x.1),
                        None => None,
                    },
                    needs_decision: None,
                },
            ),
        ),
    }
}

/// A step of a stage that is over as soon as something else is.
pub open spec fn waits(
    r: RetainedModel,
    runs: RunsModel,
    before: ProgressModel,
    complete: bool,
) -> Result<(RunsModel, StepModel), MigrationError> {
    if complete {
        let stage = next_stage(before.stage);
        goes(
            r,
            runs,
            before,
            ProgressModel { stage, complete: stage == Stage::Complete, ..before },
            None,
        )
    } else {
        stays(runs, before)
    }
}

pub open spec fn verified_supplement(
    run: Seq<char>,
    revision: Seq<char>,
    source_id: Seq<char>,
    origin: Seq<char>,
) -> spec_fn(RunSupplementModel) -> bool {
    |s: RunSupplementModel|
        s.run == run && s.revision == revision && s.source_id == source_id && s.origin == origin
}

/// A step that verifies the custody of a supplement.
pub open spec fn supplement_stepped(
    c: Catalog,
    seal: InputSeal,
    before: ProgressModel,
    policy: PolicyModel,
    event: EventModel,
) -> Result<(RunsModel, StepModel), MigrationError> {
    let r = c.migration.retained@;
    let runs = c.migration.runs@;
    let pins = seal.supplements@;
    if before.artifact_index == pins.len() {
        goes(
            r,
            runs,
            before,
            ProgressModel { artifact_index: 0, stage: Stage::Index, ..before },
            None,
        )
    } else if before.artifact_index > pins.len() {
        Err(MigrationError::CursorBounds)
    } else {
        let pin = pins[before.artifact_index as int];
        match support::first_where(policy.supplements, supplements_pin(pin)) {
            None => Err(MigrationError::SupplementUnpinned),
            Some(k) => match document_pinned(c.evidence, policy.supplements[k].evidence, pin) {
                Err(e) => Err(e),
                Ok(()) => match event {
                    EventModel::Supplemented { semantic } => {
                        let after = ProgressModel {
                            artifact_index: (before.artifact_index + 1) as usize,
                            ..before
                        };
                        match goes(r, runs, before, after, None) {
                            Err(e) => Err(e),
                            Ok((m, step)) => if support::first_where(
                                runs.supplements,
                                verified_supplement(
                                    before.id,
                                    pin.revision@,
                                    pin.source_id@,
                                    pin.origin@,
                                ),
                            ) is Some {
                                Err(MigrationError::ItemRecorded)
                            } else {
                                Ok(
                                    (
                                        RunsModel {
                                            supplements: runs.supplements.push(
                                                RunSupplementModel {
                                                    run: before.id,
                                                    revision: pin.revision@,
                                                    source_id: pin.source_id@,
                                                    origin: pin.origin@,
                                                    proof: pin.proof_blake3@,
                                                    evidence: policy.supplements[k].evidence,
                                                    semantic,
                                                },
                                            ),
                                            ..m
                                        },
                                        step,
                                    ),
                                )
                            },
                        }
                    },
                    _ => Err(MigrationError::EventDiffers),
                },
            },
        }
    }
}

/// A step that works on the next source row, or goes on to the next capture or stage.
pub open spec fn row_stepped(
    c: Catalog,
    seal: InputSeal,
    before: ProgressModel,
    event: EventModel,
) -> Result<(RunsModel, StepModel), MigrationError> {
    let r = c.migration.retained@;
    let runs = c.migration.runs@;
    let captures = seal.selected@;
    if before.capture_index == captures.len() {
        let stage = next_stage(before.stage);
        goes(
            r,
            runs,
            before,
            ProgressModel {
                capture_index: 0,
                cursor: None,
                stage,
                complete: stage == Stage::Complete,
                ..before
            },
            None,
        )
    } else if before.capture_index > captures.len() {
        Err(MigrationError::CursorBounds)
    } else {
        match stage_table(before.stage) {
            None => Err(MigrationError::StageDiffers),
            Some(table) => {
                let revision = captures[before.capture_index as int].revision@;
                let q = Query::RowsByTable(table);
                let hits = r.page_hits(before.input, revision, q, before.cursor, 1);
                let cursor = r.page_next(before.input, revision, q, before.cursor, 1);
                let passed = ProgressModel {
                    cursor,
                    capture_index: if cursor is None {
                        (before.capture_index + 1) as usize
                    } else {
                        before.capture_index
                    },
                    ..before
                };
                if hits.len() == 0 {
                    goes(r, runs, before, passed, None)
                } else {
                    let record = r.records[hits[0]].sequence;
                    match row_result(r, before.input, revision, record, event) {
                        Err(e) => Err(e),
                        Ok(RowModel::NeedsDecision(reason)) => Ok(
                            (
                                runs,
                                StepModel {
                                    progress: before,
                                    outcome: None,
                                    needs_decision: Some(reason),
                                },
                            ),
                        ),
                        Ok(RowModel::Applied(outcome)) => if before.processed == u64::MAX {
                            Err(MigrationError::Overflow)
                        } else {
                            goes(
                                r,
                                runs,
                                before,
                                ProgressModel { processed: (before.processed + 1) as u64, ..passed },
                                Some((record, outcome)),
                            )
                        },
                    }
                }
            },
        }
    }
}

/// What a row came to: a row that cannot be interpreted is kept, any other is what
/// working on it gave.
pub open spec fn row_result(
    r: RetainedModel,
    input: Seq<char>,
    revision: Seq<char>,
    record: i64,
    event: EventModel,
) -> Result<RowModel, MigrationError> {
    match import_rows::origin_of(r, input, revision, record) {
        Err(e) => Err(e),
        Ok(Err(reason)) => Ok(kept(reason)),
        Ok(Ok(_)) => match event {
            EventModel::Row { record: about, result } => if about == record {
                Ok(result)
            } else {
                Err(MigrationError::EventDiffers)
            },
            _ => Err(MigrationError::EventDiffers),
        },
    }
}

pub open spec fn capture_record(input: Seq<char>, revision: Seq<char>) -> spec_fn(RecordModel) -> bool {
    |x: RecordModel|
        x.complete && x.collection == Collection::Captures && x.input == input && x.revision
            == revision
}

/// The only record of a capture.
pub open spec fn capture_of(r: RetainedModel, input: Seq<char>, revision: Seq<char>) -> Result<
    int,
    MigrationError,
> {
    let found = support::positions(r.records, capture_record(input, revision), r.records.len());
    if found.len() == 1 {
        Ok(found[0])
    } else {
        Err(MigrationError::RelationAmbiguous)
    }
}

pub(crate) fn find_capture(r: &Retained, input: &str, revision: &str) -> (out: Result<usize, MigrationError>)
    ensures
        match capture_of(r@, input@, revision@) {
            Err(e) => out == Err::<usize, MigrationError>(e),
            Ok(i) => out matches Ok(k) && k == i && k < r.records@.len() && r@.records[i]
                == r.records@[i]@,
        },
{
    let test = |x: &EvidenceRecord| -> (b: bool)
        ensures b == capture_record(input@, revision@)(x@)
    {
        x.complete && x.collection == Collection::Captures && same(x.input.as_str(), input) && same(
            x.revision.as_str(),
            revision,
        )
    };
    let found: Vec<usize> = support::find_all(
        &r.records,
        test,
        Ghost(capture_record(input@, revision@)),
    );
    assert(support::ints(found@).len() == found@.len());
    if found.len() == 1 {
        assert(support::ints(found@)[0] == found@[0] as int);
        assert(r@.records[found@[0] as int] == r.records@[found@[0] as int]@);
        Ok(found[0])
    } else {
        Err(MigrationError::RelationAmbiguous)
    }
}

pub open spec fn copy_of(revision: Seq<char>, member: usize) -> spec_fn(ArtifactInputModel) -> bool {
    |a: ArtifactInputModel| a.capture_revision == revision && a.member_index == member
}

/// What a run asks about a captured file without a copy.
pub open spec fn mapping_question(revision: Seq<char>, member: nat) -> Seq<char> {
    "Captured artifact "@ + revision + " member "@ + edit::decimal_text(member)
        + " needs an explicit sealed copy mapping"@
}

/// The request to take the next captured file into custody.
pub open spec fn next_request(
    before: ProgressModel,
    record: i64,
    mapping: artifacts::ArtifactMappingModel,
) -> artifacts::ArtifactRequestModel {
    artifacts::ArtifactRequestModel {
        retained_capture_record: record,
        member_index: before.artifact_index,
        mapping,
    }
}

/// A step of the custody of captured files: it goes on from a file once that file is
/// in custody completely, with the copy that the policy names.
pub open spec fn artifact_stepped(c: Catalog, seal: InputSeal, before: ProgressModel, policy: PolicyModel) -> Result<
    (RunsModel, StepModel),
    MigrationError,
> {
    let r = c.migration.retained@;
    let runs = c.migration.runs@;
    let captures = seal.selected@;
    if before.capture_index == captures.len() {
        goes(
            r,
            runs,
            before,
            ProgressModel {
                stage: Stage::Reconciliation,
                capture_index: 0,
                artifact_index: 0,
                ..before
            },
            None,
        )
    } else if before.capture_index > captures.len() {
        Err(MigrationError::CursorBounds)
    } else {
        let capture = captures[before.capture_index as int];
        match capture_of(r, before.input, capture.revision@) {
            Err(e) => Err(e),
            Ok(i) => match r.records[i].detail {
                Detail::Capture(detail) => {
                    let members = detail.manifest.artifacts@;
                    if before.artifact_index == members.len() {
                        goes(
                            r,
                            runs,
                            before,
                            ProgressModel {
                                capture_index: (before.capture_index + 1) as usize,
                                artifact_index: 0,
                                ..before
                            },
                            None,
                        )
                    } else if before.artifact_index > members.len() {
                        Err(MigrationError::CursorBounds)
                    } else {
                        member_stepped(
                            c,
                            before,
                            policy,
                            capture,
                            r.records[i].sequence,
                            members[before.artifact_index as int]@,
                        )
                    }
                },
                _ => Err(MigrationError::FieldType),
            },
        }
    }
}

/// A step of the custody of one captured file.
pub open spec fn member_stepped(
    c: Catalog,
    before: ProgressModel,
    policy: PolicyModel,
    capture: SelectedCapture,
    record: i64,
    member: artifacts::ArtifactModel,
) -> Result<(RunsModel, StepModel), MigrationError> {
    let r = c.migration.retained@;
    let runs = c.migration.runs@;
    match support::first_where(
        policy.artifacts,
        copy_of(capture.revision@, before.artifact_index),
    ) {
        None => Ok(
            (
                runs,
                StepModel {
                    progress: before,
                    outcome: None,
                    needs_decision: Some(
                        mapping_question(capture.revision@, before.artifact_index as nat),
                    ),
                },
            ),
        ),
        Some(k) => match artifacts::custody_found(c, record, before.artifact_index) {
            Err(ArtifactError::CustodyMissing) => stays(runs, before),
            Err(ArtifactError::Evidence(EvidenceError::DescriptorSize)) => Err(
                MigrationError::DescriptorSize,
            ),
            Err(ArtifactError::EvidenceShape) => Err(MigrationError::EvidenceShape),
            Err(_) => Err(MigrationError::CustodyDiffers),
            Ok((d, e)) => if d.selected_input != before.input || d.capture_revision
                != capture.revision@ || d.manifest_blake3 != capture.manifest_blake3@ || d.request
                != next_request(before, record, policy.artifacts[k].mapping) || d.artifact != member {
                Err(MigrationError::CustodyDiffers)
            } else if c.evidence.rows@[e].complete {
                goes(
                    r,
                    runs,
                    before,
                    ProgressModel {
                        artifact_index: (before.artifact_index + 1) as usize,
                        ..before
                    },
                    None,
                )
            } else {
                stays(runs, before)
            },
        },
    }
}

/// What a step of a run comes to, given what happened outside.
#[verifier::opaque]
pub open spec fn stepped(c: Catalog, binding: Seq<char>, id: Seq<char>, event: EventModel) -> Result<
    (RunsModel, StepModel),
    MigrationError,
> {
    let r = c.migration.retained@;
    let runs = c.migration.runs@;
    match read_run(runs, id) {
        Err(e) => Err(e),
        Ok(k) => {
            let before = runs.runs[k].progress;
            let policy = runs.runs[k].policy;
            if before.input != binding {
                Err(MigrationError::SealForeign)
            } else {
                match c.migration.files@.seal_at(binding) {
                    None => Err(MigrationError::SealMissing),
                    Some(s) => {
                        let seal = c.migration.files@.seals[s];
                        match before.stage {
                            Stage::Custody => match event {
                                EventModel::Retained { complete } => waits(
                                    r,
                                    runs,
                                    before,
                                    complete,
                                ),
                                _ => Err(MigrationError::EventDiffers),
                            },
                            Stage::SupplementCustody => supplement_stepped(
                                c,
                                seal,
                                before,
                                policy,
                                event,
                            ),
                            Stage::Index => match event {
                                EventModel::Indexed { complete } => waits(
                                    r,
                                    runs,
                                    before,
                                    complete,
                                ),
                                _ => Err(MigrationError::EventDiffers),
                            },
                            Stage::ArtifactCustody => artifact_stepped(c, seal, before, policy),
                            Stage::Reconciliation => match current_repair::pending_refusal(
                                c.migration.repairs@,
                                before.id,
                            ) {
                                Some(e) => Err(e),
                                None => match event {
                                    EventModel::Reconciled { complete } => waits(
                                        r,
                                        runs,
                                        before,
                                        complete,
                                    ),
                                    _ => Err(MigrationError::EventDiffers),
                                },
                            },
                            Stage::Complete => stays(runs, before),
                            _ => row_stepped(c, seal, before, event),
                        }
                    },
                }
            }
        },
    }
}

/// A step left a catalog as it should.
pub open spec fn step_made(
    before: Catalog,
    after: Catalog,
    made: Result<(RunsModel, StepModel), MigrationError>,
    out: Result<Step, MigrationError>,
) -> bool {
    match made {
        Err(e) => after == before && out == Err::<Step, MigrationError>(e),
        Ok((runs, step)) => after.migration.runs@ == runs && (out matches Ok(found) && found@
            == step),
    }
}

impl Catalog {
    fn go_on(&mut self, before: &Progress, after: Progress, item: Option<(i64, Outcome)>) -> (out: Result<
        Step,
        MigrationError,
    >)
        ensures
            final(self).runs_only(*old(self)),
            step_made(
                *old(self),
                *final(self),
                goes(
                    old(self).migration.retained@,
                    old(self).migration.runs@,
                    before@,
                    after@,
                    (match item {
                        Some((record, outcome)) => Some((record, outcome@)),
                        None => None,
                    }),
                ),
                out,
            ),
    {
        let borrowed: Option<(i64, &Outcome)> = match &item {
            Some((record, outcome)) => Some((*record, outcome)),
            None => None,
        };
        match advance(
            &self.migration.retained,
            &mut self.migration.runs,
            before,
            &after,
            borrowed,
        ) {
            Err(e) => Err(e),
            Ok(()) => {
                let outcome: Option<Outcome> = match item {
                    Some((_, outcome)) => Some(outcome),
                    None => None,
                };
                Ok(Step { progress: after, outcome, needs_decision: None })
            },
        }
    }

    fn wait_for(&mut self, before: Progress, complete: bool) -> (out: Result<Step, MigrationError>)
        ensures
            final(self).runs_only(*old(self)),
            step_made(
                *old(self),
                *final(self),
                waits(
                    old(self).migration.retained@,
                    old(self).migration.runs@,
                    before@,
                    complete,
                ),
                out,
            ),
    {
        if complete {
            let stage: Stage = before.stage.next();
            let mut after: Progress = before.copied();
            after.stage = stage;
            after.complete = stage == Stage::Complete;
            self.go_on(&before, after, None)
        } else {
            Ok(Step { progress: before, outcome: None, needs_decision: None })
        }
    }

    fn step_supplement(&mut self, seal: usize, run: usize, before: Progress, event: StepEvent) -> (out:
        Result<Step, MigrationError>)
        requires
            seal < old(self).migration.files.seals@.len(),
            run < old(self).migration.runs.runs@.len(),
        ensures
            final(self).runs_only(*old(self)),
            step_made(
                *old(self),
                *final(self),
                supplement_stepped(
                    *old(self),
                    old(self).migration.files.seals@[seal as int],
                    before@,
                    old(self).migration.runs.runs@[run as int]@.policy,
                    event@,
                ),
                out,
            ),
    {
        let pins = &self.migration.files.seals[seal].supplements;
        let mut after: Progress = before.copied();
        if before.artifact_index == pins.len() {
            after.artifact_index = 0;
            after.stage = Stage::Index;
            return self.go_on(&before, after, None);
        }
        if before.artifact_index > pins.len() {
            return Err(MigrationError::CursorBounds);
        }
        let pin = &pins[before.artifact_index];
        let supplements = &self.migration.runs.runs[run].policy.supplements;
        let test = |s: &SupplementInput| -> (b: bool)
            ensures b == supplements_pin(*pin)(s@)
        {
            s.origin == Origin::Embedded && same(
                s.capture_revision.as_str(),
                pin.revision.as_str(),
            ) && same(s.source_id.as_str(), pin.source_id.as_str())
        };
        let k: usize = match support::find(supplements, test, Ghost(supplements_pin(*pin))) {
            None => return Err(MigrationError::SupplementUnpinned),
            Some(k) => k,
        };
        assert(support::models(supplements@)[k as int] == supplements@[k as int]@);
        let evidence: String = supplements[k].evidence.clone();
        match check_document(&self.evidence, evidence.as_str(), pin) {
            Err(e) => return Err(e),
            Ok(()) => {},
        }
        let semantic: String = match event {
            StepEvent::Supplemented { semantic } => semantic,
            _ => return Err(MigrationError::EventDiffers),
        };
        after.artifact_index = before.artifact_index + 1;
        let row: RunSupplement = RunSupplement {
            run: before.id.clone(),
            revision: pin.revision.clone(),
            source_id: pin.source_id.clone(),
            origin: pin.origin.clone(),
            proof: pin.proof_blake3.clone(),
            evidence,
            semantic,
        };
        let known = |s: &RunSupplement| -> (b: bool)
            ensures b == verified_supplement(row.run@, row.revision@, row.source_id@, row.origin@)(
                s@)
        {
            same(s.run.as_str(), row.run.as_str()) && same(
                s.revision.as_str(),
                row.revision.as_str(),
            ) && same(s.source_id.as_str(), row.source_id.as_str()) && same(
                s.origin.as_str(),
                row.origin.as_str(),
            )
        };
        let recorded: bool = support::find(
            &self.migration.runs.supplements,
            known,
            Ghost(verified_supplement(row.run@, row.revision@, row.source_id@, row.origin@)),
        ).is_some();
        let current: bool = match self.migration.runs.find_run(before.id.as_str()) {
            None => false,
            Some(i) => self.migration.runs.runs[i].progress.same_as(&before),
        };
        if !current {
            return Err(MigrationError::CursorChanged);
        }
        if recorded {
            return Err(MigrationError::ItemRecorded);
        }
        let ghost start = self.migration.runs@;
        let step: Step = match self.go_on(&before, after, None) {
            Err(e) => return Err(e),
            Ok(step) => step,
        };
        self.migration.runs.supplements.push(row);
        assert(self.migration.runs@.supplements =~= start.supplements.push(row@));
        Ok(step)
    }

    fn step_row(&mut self, seal: usize, before: Progress, event: StepEvent) -> (out: Result<
        Step,
        MigrationError,
    >)
        requires
            seal < old(self).migration.files.seals@.len(),
        ensures
            final(self).runs_only(*old(self)),
            step_made(
                *old(self),
                *final(self),
                row_stepped(
                    *old(self),
                    old(self).migration.files.seals@[seal as int],
                    before@,
                    event@,
                ),
                out,
            ),
    {
        let captures = &self.migration.files.seals[seal].selected;
        let mut after: Progress = before.copied();
        if before.capture_index == captures.len() {
            let stage: Stage = before.stage.next();
            after.capture_index = 0;
            after.cursor = None;
            after.stage = stage;
            after.complete = stage == Stage::Complete;
            return self.go_on(&before, after, None);
        }
        if before.capture_index > captures.len() {
            return Err(MigrationError::CursorBounds);
        }
        let table: &str = match before.stage.table() {
            None => return Err(MigrationError::StageDiffers),
            Some(table) => table,
        };
        let revision: &str = captures[before.capture_index].revision.as_str();
        let r = &self.migration.retained;
        let page: Page = r.lookup(
            before.input.as_str(),
            revision,
            &Lookup::RowsByTable(table.to_owned()),
            before.cursor,
            1,
        );
        assert(support::ints(page.hits@).len() == page.hits@.len());
        after.cursor = page.next;
        if page.next.is_none() {
            after.capture_index = before.capture_index + 1;
        }
        if page.hits.len() == 0 {
            return self.go_on(&before, after, None);
        }
        let i: usize = page.hits[0];
        assert(support::ints(page.hits@)[0] == i as int);
        assert(r@.records[i as int] == r.records@[i as int]@);
        let record: i64 = r.records[i].sequence;
        let result: RowResult = match prepared_origin(r, before.input.as_str(), revision, record) {
            Err(e) => return Err(e),
            Ok(Err(reason)) => RowResult::Applied(Outcome::Retained { reason }),
            Ok(Ok(_)) => match event {
                StepEvent::Row { record: about, result } => {
                    if about != record {
                        return Err(MigrationError::EventDiffers);
                    }
                    result
                },
                _ => return Err(MigrationError::EventDiffers),
            },
        };
        match result {
            RowResult::NeedsDecision(reason) => Ok(
                Step { progress: before, outcome: None, needs_decision: Some(reason) },
            ),
            RowResult::Applied(outcome) => {
                if before.processed == u64::MAX {
                    return Err(MigrationError::Overflow);
                }
                after.processed = before.processed + 1;
                self.go_on(&before, after, Some((record, outcome)))
            },
        }
    }

    fn step_artifact(&mut self, seal: usize, run: usize, before: Progress) -> (out: Result<
        Step,
        MigrationError,
    >)
        requires
            seal < old(self).migration.files.seals@.len(),
            run < old(self).migration.runs.runs@.len(),
        ensures
            final(self).runs_only(*old(self)),
            step_made(
                *old(self),
                *final(self),
                artifact_stepped(
                    *old(self),
                    old(self).migration.files.seals@[seal as int],
                    before@,
                    old(self).migration.runs.runs@[run as int]@.policy,
                ),
                out,
            ),
    {
        let captures = &self.migration.files.seals[seal].selected;
        let mut after: Progress = before.copied();
        if before.capture_index == captures.len() {
            after.stage = Stage::Reconciliation;
            after.capture_index = 0;
            after.artifact_index = 0;
            return self.go_on(&before, after, None);
        }
        if before.capture_index > captures.len() {
            return Err(MigrationError::CursorBounds);
        }
        let capture = &captures[before.capture_index];
        let revision: &str = capture.revision.as_str();
        let r = &self.migration.retained;
        let i: usize = match find_capture(r, before.input.as_str(), revision) {
            Err(e) => return Err(e),
            Ok(i) => i,
        };
        let detail: &CaptureDetail = match &r.records[i].detail {
            Detail::Capture(detail) => detail,
            _ => return Err(MigrationError::FieldType),
        };
        if before.artifact_index == detail.manifest.artifacts.len() {
            after.capture_index = before.capture_index + 1;
            after.artifact_index = 0;
            return self.go_on(&before, after, None);
        }
        if before.artifact_index > detail.manifest.artifacts.len() {
            return Err(MigrationError::CursorBounds);
        }
        let member = &detail.manifest.artifacts[before.artifact_index];
        let index: usize = before.artifact_index;
        let copies = &self.migration.runs.runs[run].policy.artifacts;
        let test = |a: &ArtifactInput| -> (b: bool)
            ensures b == copy_of(revision@, index)(a@)
        {
            a.member_index == index && same(a.capture_revision.as_str(), revision)
        };
        let k: usize = match support::find(copies, test, Ghost(copy_of(revision@, index))) {
            None => {
                let mut text: String = "Captured artifact ".to_owned();
                text.append(revision);
                text.append(" member ");
                append_number(&mut text, index as u64);
                text.append(" needs an explicit sealed copy mapping");
                assert(text@ =~= mapping_question(revision@, index as nat));
                return Ok(Step { progress: before, outcome: None, needs_decision: Some(text) });
            },
            Some(k) => k,
        };
        assert(support::models(copies@)[k as int] == copies@[k as int]@);
        let record: i64 = r.records[i].sequence;
        let (d, state): (ArtifactDescriptor, EvidenceState) = match self.migration_artifact(
            record,
            index,
        ) {
            Err(ArtifactError::CustodyMissing) => return Ok(
                Step { progress: before, outcome: None, needs_decision: None },
            ),
            Err(ArtifactError::Evidence(EvidenceError::DescriptorSize)) => return Err(
                MigrationError::DescriptorSize,
            ),
            Err(ArtifactError::EvidenceShape) => return Err(MigrationError::EvidenceShape),
            Err(_) => return Err(MigrationError::CustodyDiffers),
            Ok(found) => found,
        };
        let wanted: ArtifactRequest = ArtifactRequest {
            retained_capture_record: record,
            member_index: index,
            mapping: copies[k].mapping.copied(),
        };
        if !same(d.selected_input.as_str(), before.input.as_str()) || !same(
            d.capture_revision.as_str(),
            revision,
        ) || !same(d.manifest_blake3.as_str(), capture.manifest_blake3.as_str())
            || !d.request.same_as(&wanted) || !d.artifact.same_as(member) {
            return Err(MigrationError::CustodyDiffers);
        }
        if state.complete {
            after.artifact_index = index + 1;
            return self.go_on(&before, after, None);
        }
        Ok(Step { progress: before, outcome: None, needs_decision: None })
    }

    /// One step of a run, given what happened outside and what working on a row gave.
    pub(crate) fn take_step(&mut self, binding: &str, id: &str, event: StepEvent) -> (out: Result<
        Step,
        MigrationError,
    >)
        ensures
            final(self).runs_only(*old(self)),
            step_made(
                *old(self),
                *final(self),
                stepped(*old(self), binding@, id@, event@),
                out,
            ),
    {
        reveal(stepped);
        let k: usize = match read(&self.migration.runs, id) {
            Err(e) => return Err(e),
            Ok(k) => k,
        };
        let before: Progress = self.migration.runs.runs[k].progress.copied();
        if !same(before.input.as_str(), binding) {
            return Err(MigrationError::SealForeign);
        }
        let s: usize = match self.migration.files.find_seal(binding) {
            None => return Err(MigrationError::SealMissing),
            Some(s) => s,
        };
        match before.stage {
            Stage::Custody => match event {
                StepEvent::Retained { complete } => self.wait_for(before, complete),
                _ => Err(MigrationError::EventDiffers),
            },
            Stage::SupplementCustody => self.step_supplement(s, k, before, event),
            Stage::Index => match event {
                StepEvent::Indexed { complete } => self.wait_for(before, complete),
                _ => Err(MigrationError::EventDiffers),
            },
            Stage::ArtifactCustody => self.step_artifact(s, k, before),
            Stage::Reconciliation => match require_not_pending(
                &self.migration.repairs,
                before.id.as_str(),
            ) {
                Some(e) => Err(e),
                None => match event {
                    StepEvent::Reconciled { complete } => self.wait_for(before, complete),
                    _ => Err(MigrationError::EventDiffers),
                },
            },
            Stage::Complete => Ok(Step { progress: before, outcome: None, needs_decision: None }),
            _ => self.step_row(s, before, event),
        }
    }
}

/// A run that waits for a decision stays where it is: nothing is recorded, and its
/// progress is what it was.
pub proof fn law_decisions_hold_the_run(c: Catalog, binding: Seq<char>, id: Seq<char>, event: EventModel)
    requires
        stepped(c, binding, id, event) matches Ok(made) && made.1.needs_decision is Some,
    ensures
        ({
            let (runs, step) = stepped(c, binding, id, event)->Ok_0;
            &&& runs == c.migration.runs@
            &&& read_run(runs, id) matches Ok(k) && step.progress == runs.runs[k].progress
            &&& step.outcome is None
        }),
{
    reveal(stepped);
}

/// Every row is counted once: a step counts one row more exactly where it records
/// what became of a row, and that is the row it records.
pub proof fn law_rows_are_counted(c: Catalog, binding: Seq<char>, id: Seq<char>, event: EventModel)
    requires
        stepped(c, binding, id, event) is Ok,
    ensures
        ({
            let before = c.migration.runs@;
            let (runs, step) = stepped(c, binding, id, event)->Ok_0;
            let k = read_run(before, id)->Ok_0;
            match step.outcome {
                None => step.progress.processed == before.runs[k].progress.processed && runs.items
                    == before.items,
                Some(outcome) => {
                    &&& step.progress.processed == before.runs[k].progress.processed + 1
                    &&& runs.items.len() == before.items.len() + 1
                    &&& runs.items.drop_last() == before.items
                    &&& runs.items.last().outcome == outcome
                    &&& runs.items.last().run == id
                    &&& runs.items.last().stage == before.runs[k].progress.stage
                    &&& before.item_at(id, runs.items.last().stage, runs.items.last().record) is None
                },
            }
        }),
{
    reveal(stepped);
    let before = c.migration.runs@;
    let (runs, step) = stepped(c, binding, id, event)->Ok_0;
    if step.outcome is Some {
        assert(runs.items.drop_last() =~= before.items);
    }
}

/// A run never goes back: a step leaves its stage as it is, or goes on to the next.
pub proof fn law_runs_never_go_back(c: Catalog, binding: Seq<char>, id: Seq<char>, event: EventModel)
    requires
        stepped(c, binding, id, event) is Ok,
    ensures
        ({
            let (runs, step) = stepped(c, binding, id, event)->Ok_0;
            let before = c.migration.runs@.runs[read_run(c.migration.runs@, id)->Ok_0].progress;
            step.progress.stage == before.stage || step.progress.stage == next_stage(before.stage)
        }),
{
    reveal(stepped);
}

/// A step that was planned from a progress that is no longer the run's changes
/// nothing.
pub proof fn law_stale_steps_are_refused(
    r: RetainedModel,
    runs: RunsModel,
    before: ProgressModel,
    after: ProgressModel,
    item: Option<(i64, OutcomeModel)>,
)
    requires
        runs.run_at(before.id) matches Some(k) ==> runs.runs[k].progress != before,
    ensures
        advanced(r, runs, before, after, item) == Err::<RunsModel, MigrationError>(
            MigrationError::CursorChanged,
        ),
{
}

/// Beginning a run again finds it as far as it has come, and changes nothing.
pub proof fn law_begun_runs_are_found_again(c: Catalog, again: Catalog, binding: Seq<char>, policy: PolicyModel)
    requires
        begun(c, binding, policy) matches Ok(made) && again.migration.runs@ == made.0,
        again.evidence == c.evidence,
        again.migration.files@ == c.migration.files@,
        run_identity(binding, policy) matches Ok(id) && support::byte_length(id) == 64,
    ensures
        begun(again, binding, policy) == Ok::<(RunsModel, ProgressModel), MigrationError>(
            begun(c, binding, policy)->Ok_0,
        ),
{
    let runs = c.migration.runs@;
    let id = run_identity(binding, policy)->Ok_0;
    match runs.run_at(id) {
        None => {
            let row = RunModel { id, input: binding, policy, progress: started(id, binding) };
            support::lemma_pushed(runs.runs, runs.runs.push(row), run_named(id));
        },
        Some(_) => {},
    }
}

} // verus!

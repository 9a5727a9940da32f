//! The worker of an import keeps one copy open at a time: it is digested once, when
//! it is opened, and read on until its custody is complete.
use crate::catalog::Catalog;
use crate::catalog_migration::artifacts;
use crate::catalog_migration::artifacts::{ArtifactLimits, ArtifactReader, ArtifactRequest, CaptureDetail};
use crate::catalog_migration::file_content;
use crate::catalog_migration::file_metadata::{has_hex, InputSeal};
use crate::catalog_migration::import_steps;
use crate::catalog_migration::importer;
use crate::catalog_migration::importer::{
    find_capture, ArtifactInput, Policy, PolicyModel, Progress, ProgressModel, Stage, Step, StepEvent, StepModel,
};
use crate::catalog_migration::retained::{Detail, MigrationError, Retained, RetainedModel};
use crate::copies::Copied;
use crate::support;
use crate::support::same;
use vstd::prelude::*;

verus! {

/// The request that a run's custody of captured files is at; none where the custody
/// of its captures, or of a capture, is over.
pub open spec fn current_request(
    r: RetainedModel,
    seal: InputSeal,
    progress: ProgressModel,
    policy: PolicyModel,
) -> Result<Option<artifacts::ArtifactRequestModel>, MigrationError> {
    if progress.capture_index >= seal.selected@.len() {
        Ok(None)
    } else {
        let revision = seal.selected@[progress.capture_index as int].revision@;
        match importer::capture_of(r, progress.input, revision) {
            Err(e) => Err(e),
            Ok(i) => match r.records[i].detail {
                Detail::Capture(detail) => if progress.artifact_index
                    >= detail.manifest.artifacts@.len() {
                    Ok(None)
                } else {
                    match support::first_where(
                        policy.artifacts,
                        importer::copy_of(revision, progress.artifact_index),
                    ) {
                        None => Err(MigrationError::RelationMissing),
                        Some(k) => Ok(
                            Some(
                                importer::next_request(
                                    progress,
                                    r.records[i].sequence,
                                    policy.artifacts[k].mapping,
                                ),
                            ),
                        ),
                    }
                },
                _ => Err(MigrationError::FieldType),
            },
        }
    }
}

/// The request that a run's custody of captured files is at.
pub fn request(r: &Retained, seal: &InputSeal, progress: &Progress, policy: &Policy) -> (out: Result<
    Option<ArtifactRequest>,
    MigrationError,
>)
    ensures
        match current_request(r@, *seal, progress@, policy@) {
            Err(e) => out == Err::<Option<ArtifactRequest>, MigrationError>(e),
            Ok(None) => out matches Ok(found) && found is None,
            Ok(Some(wanted)) => out matches Ok(Some(found)) && found@ == wanted,
        },
{
    if progress.capture_index >= seal.selected.len() {
        return Ok(None);
    }
    let revision: &str = seal.selected[progress.capture_index].revision.as_str();
    let i: usize = match find_capture(r, progress.input.as_str(), revision) {
        Err(e) => return Err(e),
        Ok(i) => i,
    };
    let detail: &CaptureDetail = match &r.records[i].detail {
        Detail::Capture(detail) => detail,
        _ => return Err(MigrationError::FieldType),
    };
    if progress.artifact_index >= detail.manifest.artifacts.len() {
        return Ok(None);
    }
    let index: usize = progress.artifact_index;
    let test = |a: &ArtifactInput| -> (b: bool)
        ensures b == importer::copy_of(revision@, index)(a@)
    {
        a.member_index == index && same(a.capture_revision.as_str(), revision)
    };
    match support::find(&policy.artifacts, test, Ghost(importer::copy_of(revision@, index))) {
        None => Err(MigrationError::RelationMissing),
        Some(k) => {
            assert(policy@.artifacts[k as int] == policy.artifacts@[k as int]@);
            Ok(
                Some(
                    ArtifactRequest {
                        retained_capture_record: r.records[i].sequence,
                        member_index: index,
                        mapping: policy.artifacts[k].mapping.copied(),
                    },
                ),
            )
        },
    }
}

/// A step left a run at a captured file whose copy is to be read on.
pub open spec fn reads_on(before: ProgressModel, step: StepModel) -> bool {
    before.stage == Stage::ArtifactCustody && step.progress.stage == Stage::ArtifactCustody
        && step.needs_decision is None && before.capture_index == step.progress.capture_index
        && before.artifact_index == step.progress.artifact_index
}

/// The worker of a run.
pub struct Worker {
    run: String,
    limits: ArtifactLimits,
    artifact: Option<ArtifactReader>,
}

/// What a `Worker` stands for.
#[verifier::ext_equal]
pub struct WorkerModel {
    pub run: Seq<char>,
    pub limits: ArtifactLimits,
    /// What the open copy is the copy of.
    pub open: Option<artifacts::ReaderModel>,
}

impl View for Worker {
    type V = WorkerModel;

    closed spec fn view(&self) -> WorkerModel {
        WorkerModel {
            run: self.run@,
            limits: self.limits,
            open: match self.artifact {
                None => None,
                Some(reader) => Some(reader@),
            },
        }
    }
}

/// What a worker's step came to.
pub enum Work {
    /// The run's own step is all.
    Stepped(Step),
    /// The copy of a request is to be opened, or read on.
    Read(Step, ArtifactRequest),
}

/// How a worker's step changes the worker, and what it gives.
pub open spec fn worked(
    before: Catalog,
    after: Catalog,
    old_worker: WorkerModel,
    new_worker: WorkerModel,
    binding: Seq<char>,
    event: StepEvent,
    stopped: bool,
    out: Result<Work, MigrationError>,
) -> bool {
    if stopped {
        after == before && new_worker == old_worker && out == Err::<Work, MigrationError>(
            MigrationError::EventDiffers,
        )
    } else {
        match importer::read_run(before.migration.runs@, old_worker.run) {
            Err(e) => after == before && new_worker == old_worker && out == Err::<
                Work,
                MigrationError,
            >(e),
            Ok(k) => exists|made: Result<Step, MigrationError>|
                {
                    &&& #[trigger] import_steps::import_stepped(
                        before,
                        after,
                        binding,
                        old_worker.run,
                        event,
                        made,
                    )
                    &&& match made {
                        Err(e) => new_worker == old_worker && out == Err::<Work, MigrationError>(e),
                        Ok(step) => if reads_on(
                            before.migration.runs@.runs[k].progress,
                            step@,
                        ) {
                            new_worker == old_worker && reading(before, old_worker, k, step@, out)
                        } else {
                            new_worker == (WorkerModel { open: None, ..old_worker }) && (
                            out matches Ok(Work::Stepped(given)) && given@ == step@)
                        },
                    }
                },
        }
    }
}

/// What a worker at a captured file gives: the request it is at, which is the one of
/// the copy that is open.
pub open spec fn reading(
    c: Catalog,
    worker: WorkerModel,
    k: int,
    step: StepModel,
    out: Result<Work, MigrationError>,
) -> bool {
    match c.migration.files@.seal_at(step.progress.input) {
        None => out == Err::<Work, MigrationError>(MigrationError::SealMissing),
        Some(s) => match current_request(
            c.migration.retained@,
            c.migration.files@.seals[s],
            step.progress,
            c.migration.runs@.runs[k].policy,
        ) {
            Err(e) => out == Err::<Work, MigrationError>(e),
            Ok(None) => out == Err::<Work, MigrationError>(MigrationError::RelationMissing),
            Ok(Some(wanted)) => if worker.open matches Some(reader) && reader.descriptor.request
                != wanted {
                out == Err::<Work, MigrationError>(MigrationError::CursorChanged)
            } else {
                out matches Ok(Work::Read(made, found)) && made@ == step && found@ == wanted
            },
        },
    }
}

impl Worker {
    /// The worker of a run, with nothing open.
    pub fn new(run: &str, limits: ArtifactLimits) -> (r: Result<Worker, MigrationError>)
        ensures
            if file_content::is_hex(run@) {
                r matches Ok(w) && w@ == (WorkerModel { run: run@, limits, open: None })
            } else {
                r == Err::<Worker, MigrationError>(MigrationError::IdentityBounds)
            },
    {
        if !has_hex(run) {
            return Err(MigrationError::IdentityBounds);
        }
        Ok(Worker { run: run.to_owned(), limits, artifact: None })
    }

    /// One step of the run. Where the run is at a captured file, its copy is to be
    /// read on; anywhere else nothing stays open.
    pub fn step(&mut self, catalog: &mut Catalog, binding: &str, event: StepEvent, stopped: bool) -> (out:
        Result<Work, MigrationError>)
        ensures
            final(catalog).imports_only(*old(catalog)),
            worked(
                *old(catalog),
                *final(catalog),
                old(self)@,
                final(self)@,
                binding@,
                event,
                stopped,
                out,
            ),
    {
        if stopped {
            return Err(MigrationError::EventDiffers);
        }
        let before: Progress = match catalog.selected_import_progress(self.run.as_str()) {
            Err(e) => return Err(e),
            Ok(before) => before,
        };
        let policy: Policy = match catalog.selected_import_policy(self.run.as_str()) {
            Err(e) => return Err(e),
            Ok(policy) => policy,
        };
        let ghost start = *catalog;
        let ghost given = event;
        let made = catalog.step_selected_import(binding, self.run.as_str(), event);
        assert(import_steps::import_stepped(start, *catalog, binding@, self.run@, given, made));
        let step: Step = match made {
            Err(e) => return Err(e),
            Ok(step) => step,
        };
        if before.stage != Stage::ArtifactCustody || step.progress.stage != Stage::ArtifactCustody
            || step.needs_decision.is_some() || before.capture_index != step.progress.capture_index
            || before.artifact_index != step.progress.artifact_index {
            self.artifact = None;
            return Ok(Work::Stepped(step));
        }
        let s: usize = match catalog.migration.files.find_seal(step.progress.input.as_str()) {
            None => return Err(MigrationError::SealMissing),
            Some(s) => s,
        };
        let wanted: ArtifactRequest = match request(
            &catalog.migration.retained,
            &catalog.migration.files.seals[s],
            &step.progress,
            &policy,
        ) {
            Err(e) => return Err(e),
            Ok(None) => return Err(MigrationError::RelationMissing),
            Ok(Some(wanted)) => wanted,
        };
        match &self.artifact {
            None => {},
            Some(reader) => {
                if !reader.descriptor().request.same_as(&wanted) {
                    return Err(MigrationError::CursorChanged);
                }
            },
        }
        Ok(Work::Read(step, wanted))
    }

    /// Keeps a copy open.
    pub fn open(&mut self, reader: ArtifactReader)
        ensures
            final(self)@ == (WorkerModel { open: Some(reader@), ..old(self)@ }),
    {
        self.artifact = Some(reader);
    }

    /// Takes the open copy, to read it on.
    pub fn take(&mut self) -> (reader: Option<ArtifactReader>)
        ensures
            final(self)@ == (WorkerModel { open: None, ..old(self)@ }),
            match old(self)@.open {
                None => reader is None,
                Some(model) => reader matches Some(r) && r@ == model,
            },
    {
        self.artifact.take()
    }
}

} // verus!

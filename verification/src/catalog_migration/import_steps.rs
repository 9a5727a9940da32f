//! The steps of a selected import. A step that comes to a row of images or of files'
//! metadata does the row's work; what only the world outside can tell of a row is
//! handed in.
use crate::catalog::Catalog;
use crate::catalog_metadata::prepared::Inspection;
use crate::catalog_migration::current_repair;
use crate::catalog_migration::current_repair::{same_paths, RepairFacts, ResultRecord};
use crate::catalog_migration::file_metadata;
use crate::catalog_migration::file_metadata::{ProjectionResult, Roster, Supplement};
use crate::catalog_migration::file_projection;
use crate::catalog_migration::images;
use crate::catalog_migration::images::mapped_image;
use crate::catalog_migration::import_rows;
use crate::catalog_migration::import_rows::{
    choose_file_metadata, choose_metadata, choose_original, origin_of_stage, prepared_origin, FileChoice,
    FileRequest, MetadataChoice, MetadataRequest, OriginalChoice, OriginalRequest,
};
use crate::catalog_migration::importer;
use crate::catalog_migration::importer::{
    read, EventModel, Outcome, Policy, PolicyModel, Progress, RowModel, RowResult, Stage, Step, StepEvent,
};
use crate::catalog_migration::proofs::{SourceRecord, SourceRecordModel};
use crate::catalog_migration::retained::{Lookup, MigrationError, Page, Query};
use crate::copies::Copied;
use crate::support;
use crate::support::same;
use vstd::prelude::*;

verus! {

/// What is known outside of the metadata of a source file.
pub struct FileFacts {
    /// The rows that the sealed source enumerates of the origin.
    pub rowids: Vec<i64>,
    /// What an earlier inspection found, interpreted.
    pub interpreted: Option<Inspection>,
    /// The document that supplements it, verified.
    pub supplement: Option<Supplement>,
    /// What the document holds, interpreted.
    pub supplemented: Option<Inspection>,
}

/// What is known outside of the current settings of a source image.
pub struct DevelopFacts {
    /// Where the settings stand in their text.
    pub settings_path: Vec<String>,
    /// What projecting them gave.
    pub result: ResultRecord,
}

/// What the current settings of a source image came to. They have to be those of the
/// image that the row was imported as, looked for where they stand.
pub open spec fn developed(c: Catalog, owner: Seq<char>, origin: SourceRecordModel, facts: DevelopFacts) -> Result<
    RowModel,
    MigrationError,
> {
    if current_repair::prior_path(facts.result@) != support::models(facts.settings_path@) {
        Err(MigrationError::ExtractionDiffers)
    } else if images::mapped_image_of(c.tables@, owner, origin.source) != Some(
        facts.result@.image,
    ) {
        Err(MigrationError::ImageDiffers)
    } else {
        Ok(RowModel::Applied(current_repair::receipt_of(facts.result@)))
    }
}

fn take_develop(c: &Catalog, owner: &str, origin: &SourceRecord, facts: &DevelopFacts) -> (out: Result<
    RowResult,
    MigrationError,
>)
    ensures
        match developed(*c, owner@, origin@, *facts) {
            Err(e) => out == Err::<RowResult, MigrationError>(e),
            Ok(row) => out matches Ok(result) && result@ == row,
        },
{
    let bound: bool = match &facts.result.extraction {
        Some(e) => same_paths(&e.settings_path, &facts.settings_path),
        None => {
            assert((support::models(facts.settings_path@) =~= Seq::<Seq<char>>::empty()) == (
            facts.settings_path@.len() == 0));
            facts.settings_path.len() == 0
        },
    };
    if !bound {
        return Err(MigrationError::ExtractionDiffers);
    }
    let mapped: bool = match mapped_image(&c.tables, owner, &origin.source) {
        None => false,
        Some(key) => key.same_as(&facts.result.image),
    };
    if !mapped {
        return Err(MigrationError::ImageDiffers);
    }
    Ok(RowResult::Applied(current_repair::outcome(&facts.result)))
}

/// Settings that were looked for where they stand when they were imported are left as
/// they are by a repair that finds them there.
pub proof fn law_bound_settings_are_left_alone(
    c: Catalog,
    owner: Seq<char>,
    origin: SourceRecordModel,
    facts: DevelopFacts,
    found: current_repair::Predecessors,
    repair: RepairFacts,
)
    requires
        developed(c, owner, origin, facts) is Ok,
        support::models(repair.settings_path@) == support::models(facts.settings_path@),
        repair.input_digest@ == facts.result@.input_digest,
    ensures
        current_repair::rebinds(found, facts.result@, repair) == Ok::<bool, MigrationError>(false),
{
}

/// Projecting the metadata of a file left a catalog as it should.
pub open spec fn file_done(
    before: Catalog,
    after: Catalog,
    roster: Roster,
    request: file_metadata::Projection,
    given: Option<Supplement>,
    interpreted: Option<Inspection>,
    out: Result<ProjectionResult, MigrationError>,
) -> bool {
    after.files_only(before) && match file_projection::file_projected(
        before,
        Some(roster),
        request,
        given,
        interpreted,
    ) {
        Err(e) => after == before && out == Err::<ProjectionResult, MigrationError>(e),
        Ok((m, files, result)) => after.tables@ == m && after.migration.files@ == files && (
        out matches Ok(found) && found@ == result),
    }
}

/// A row gives what projecting a file's metadata gave.
pub open spec fn gives(
    projected: Result<ProjectionResult, MigrationError>,
    out: Result<RowResult, MigrationError>,
) -> bool {
    match projected {
        Err(e) => out == Err::<RowResult, MigrationError>(e),
        Ok(result) => out matches Ok(row) && row@ == RowModel::Applied(
            importer::OutcomeModel::FileMetadata(result@),
        ),
    }
}

/// What an earlier inspection found is projected first; the document that supplements
/// it, where there is one, is projected after it and gives the result.
pub open spec fn projected_twice(
    before: Catalog,
    after: Catalog,
    roster: Roster,
    request: file_metadata::Projection,
    evidence: Option<Seq<char>>,
    facts: FileFacts,
    out: Result<RowResult, MigrationError>,
) -> bool {
    exists|middle: Catalog, first: Result<ProjectionResult, MigrationError>|
        {
            &&& #[trigger] file_done(
                before,
                middle,
                roster,
                request,
                None,
                facts.interpreted,
                first,
            )
            &&& if first is Err || evidence is None {
                after == middle && gives(first, out)
            } else {
                supplemented(middle, after, roster, request, evidence, facts, out)
            }
        }
}

/// The document that supplements an inspection is projected.
pub open spec fn supplemented(
    before: Catalog,
    after: Catalog,
    roster: Roster,
    request: file_metadata::Projection,
    evidence: Option<Seq<char>>,
    facts: FileFacts,
    out: Result<RowResult, MigrationError>,
) -> bool {
    exists|second: file_metadata::Projection, result: Result<ProjectionResult, MigrationError>|
        {
            &&& second == (file_metadata::Projection { supplement: second.supplement, ..request })
            &&& support::text_of(second.supplement) == evidence
            &&& #[trigger] file_done(
                before,
                after,
                roster,
                second,
                facts.supplement,
                facts.supplemented,
                result,
            )
            &&& gives(result, out)
        }
}

/// How importing the metadata of a file changes a catalog, and what it gives.
pub open spec fn file_imported(
    before: Catalog,
    after: Catalog,
    input: Seq<char>,
    policy: PolicyModel,
    origin: SourceRecordModel,
    stage: Stage,
    facts: FileFacts,
    out: Result<RowResult, MigrationError>,
) -> bool {
    match import_rows::file_choice(
        before.migration.retained@,
        before.migration.images@,
        input,
        policy,
        origin,
        stage,
        facts.rowids@,
    ) {
        Err(e) => after == before && out == Err::<RowResult, MigrationError>(e),
        Ok(FileChoice::Keep(reason)) => after == before && (out matches Ok(row) && row@
            == importer::kept(reason)),
        Ok(FileChoice::Project { retained_path, origin: kind, packet_records, supplement }) => exists|
            roster: Roster,
            request: file_metadata::Projection,
        |
            {
                &&& roster.binding@ == input
                &&& roster.rowids@ == facts.rowids@
                &&& import_rows::asks_file(
                    request,
                    origin,
                    policy.import_source,
                    retained_path,
                    kind,
                    packet_records,
                )
                &&& #[trigger] projected_twice(
                    before,
                    after,
                    roster,
                    request,
                    supplement,
                    facts,
                    out,
                )
            },
    }
}

fn borrowed<T>(o: &Option<T>) -> (r: Option<&T>)
    ensures
        file_projection::referred(r) == *o,
{
    match o {
        Some(x) => Some(x),
        None => None,
    }
}

fn row_of(projected: Result<ProjectionResult, MigrationError>) -> (out: Result<RowResult, MigrationError>)
    ensures
        gives(projected, out),
{
    match projected {
        Err(e) => Err(e),
        Ok(result) => Ok(RowResult::Applied(Outcome::FileMetadata(result))),
    }
}

impl Catalog {
    /// Imports the metadata of a source file, or keeps it with a reason.
    pub fn import_file_metadata(
        &mut self,
        input: &str,
        policy: &Policy,
        origin: &SourceRecord,
        stage: Stage,
        facts: &FileFacts,
    ) -> (out: Result<RowResult, MigrationError>)
        ensures
            final(self).files_only(*old(self)),
            file_imported(
                *old(self),
                *final(self),
                input@,
                policy@,
                origin@,
                stage,
                *facts,
                out,
            ),
    {
        let (request, evidence): (file_metadata::Projection, Option<String>) =
            match choose_file_metadata(
            &self.migration.retained,
            &self.migration.images,
            input,
            policy,
            origin,
            stage,
            &facts.rowids,
        ) {
            Err(e) => return Err(e),
            Ok(FileRequest::Keep(row)) => return Ok(row),
            Ok(FileRequest::Project(request, evidence)) => (request, evidence),
        };
        let roster: Roster = Roster { binding: input.to_owned(), rowids: facts.rowids.clone() };
        assert(roster.rowids@ =~= facts.rowids@);
        let ghost asked = request;
        let ghost wanted = support::text_of(evidence);
        let ghost before = *self;
        let first = self.project_migration_file_metadata(
            Some(&roster),
            &request,
            None,
            borrowed(&facts.interpreted),
        );
        let ghost middle = *self;
        assert(file_done(before, middle, roster, asked, None, facts.interpreted, first));
        if first.is_err() || evidence.is_none() {
            let out = row_of(first);
            assert(projected_twice(before, *self, roster, asked, wanted, *facts, out));
            return out;
        }
        let mut second: file_metadata::Projection = request;
        second.supplement = evidence;
        let result = self.project_migration_file_metadata(
            Some(&roster),
            &second,
            borrowed(&facts.supplement),
            borrowed(&facts.supplemented),
        );
        assert(file_done(
            middle,
            *self,
            roster,
            second,
            facts.supplement,
            facts.supplemented,
            result,
        ));
        let out = row_of(result);
        assert(supplemented(middle, *self, roster, asked, wanted, *facts, out));
        assert(projected_twice(before, *self, roster, asked, wanted, *facts, out));
        out
    }
}

/// The row that a run comes to next, where it can be interpreted: the run, the row's
/// record and what it is the row of.
pub open spec fn row_at(c: Catalog, binding: Seq<char>, id: Seq<char>) -> Option<
    (int, i64, SourceRecordModel),
> {
    let r = c.migration.retained@;
    match (importer::read_run(c.migration.runs@, id), c.migration.files@.seal_at(binding)) {
        (Ok(k), Some(s)) => {
            let progress = c.migration.runs@.runs[k].progress;
            let captures = c.migration.files@.seals[s].selected@;
            match importer::stage_table(progress.stage) {
                Some(table) => if progress.input != binding || progress.capture_index
                    >= captures.len() {
                    None
                } else {
                    let revision = captures[progress.capture_index as int].revision@;
                    let hits = r.page_hits(
                        binding,
                        revision,
                        Query::RowsByTable(table),
                        progress.cursor,
                        1,
                    );
                    if hits.len() == 0 {
                        None
                    } else {
                        let record = r.records[hits[0]].sequence;
                        match import_rows::origin_of(r, binding, revision, record) {
                            Ok(Ok(origin)) => Some((k, record, origin)),
                            _ => None,
                        }
                    }
                },
                None => None,
            }
        },
        _ => None,
    }
}

/// What the catalog itself knows of a row of files, of packets or of settings: that
/// it is only kept. Nothing is known where its work is to be done outside.
pub open spec fn settled(
    c: Catalog,
    input: Seq<char>,
    owner: Seq<char>,
    origin: SourceRecordModel,
    stage: Stage,
) -> Result<Option<RowModel>, MigrationError> {
    let r = c.migration.retained@;
    match stage {
        Stage::Files => match import_rows::original_choice(
            r,
            c.migration.images@,
            input,
            owner,
            origin,
        ) {
            Err(e) => Err(e),
            Ok(OriginalChoice::Keep(reason)) => Ok(Some(importer::kept(reason))),
            Ok(_) => Ok(None),
        },
        Stage::CurrentDevelop => settled_as(
            import_rows::develop_choice(c.tables@, r, input, owner, origin, Seq::empty()),
        ),
        Stage::CatalogXmp => settled_as(
            import_rows::packet_choice(c.tables@, r, input, owner, origin),
        ),
        _ => Ok(None),
    }
}

pub open spec fn settled_as(choice: Result<MetadataChoice, MigrationError>) -> Result<
    Option<RowModel>,
    MigrationError,
> {
    match choice {
        Err(e) => Err(e),
        Ok(MetadataChoice::Keep(reason)) => Ok(Some(importer::kept(reason))),
        Ok(_) => Ok(None),
    }
}

/// How working on a row changes a catalog, and what it gives; nothing where the row's
/// work was done outside.
pub open spec fn row_worked(
    before: Catalog,
    after: Catalog,
    policy: PolicyModel,
    input: Seq<char>,
    origin: SourceRecordModel,
    stage: Stage,
    event: StepEvent,
    row: Result<Option<RowResult>, MigrationError>,
) -> bool {
    if stage == Stage::Masters || stage == Stage::VirtualCopies {
        after.images_only(before) && match row {
            Err(e) => import_rows::image_imported(
                before,
                after,
                input,
                policy.import_source,
                origin,
                stage,
                Err(e),
            ),
            Ok(None) => false,
            Ok(Some(result)) => import_rows::image_imported(
                before,
                after,
                input,
                policy.import_source,
                origin,
                stage,
                Ok(result),
            ),
        }
    } else if import_rows::stage_origin(stage) is Some {
        match event {
            StepEvent::File(facts) => after.files_only(before) && match row {
                Err(e) => file_imported(before, after, input, policy, origin, stage, facts, Err(e)),
                Ok(None) => false,
                Ok(Some(result)) => file_imported(
                    before,
                    after,
                    input,
                    policy,
                    origin,
                    stage,
                    facts,
                    Ok(result),
                ),
            },
            _ => after == before && row == Err::<Option<RowResult>, MigrationError>(
                MigrationError::EventDiffers,
            ),
        }
    } else {
        after == before && match settled(before, input, policy.import_source, origin, stage) {
            Err(e) => row == Err::<Option<RowResult>, MigrationError>(e),
            Ok(Some(kept)) => row matches Ok(Some(result)) && result@ == kept,
            Ok(None) => if stage != Stage::CurrentDevelop {
                row == Ok::<Option<RowResult>, MigrationError>(None)
            } else {
                match event {
                    StepEvent::Develop(facts) => match developed(
                        before,
                        policy.import_source,
                        origin,
                        facts,
                    ) {
                        Err(e) => row == Err::<Option<RowResult>, MigrationError>(e),
                        Ok(made) => row matches Ok(Some(result)) && result@ == made,
                    },
                    _ => row == Err::<Option<RowResult>, MigrationError>(
                        MigrationError::EventDiffers,
                    ),
                }
            },
        }
    }
}

/// How a step of a run changes a catalog, and what it gives. Where the run comes to a
/// row, the row is worked on first.
pub open spec fn import_stepped(
    before: Catalog,
    after: Catalog,
    binding: Seq<char>,
    id: Seq<char>,
    event: StepEvent,
    out: Result<Step, MigrationError>,
) -> bool {
    match row_at(before, binding, id) {
        None => after.runs_only(before) && importer::step_made(
            before,
            after,
            importer::stepped(before, binding, id, event@),
            out,
        ),
        Some((k, record, origin)) => {
            let run = before.migration.runs@.runs[k];
            exists|middle: Catalog, row: Result<Option<RowResult>, MigrationError>|
                {
                    &&& #[trigger] row_worked(
                        before,
                        middle,
                        run.policy,
                        binding,
                        origin,
                        run.progress.stage,
                        event,
                        row,
                    )
                    &&& recorded(middle, after, binding, id, record, event, row, out)
                }
        },
    }
}

/// What a row came to is recorded, and the run goes on.
pub open spec fn recorded(
    before: Catalog,
    after: Catalog,
    binding: Seq<char>,
    id: Seq<char>,
    record: i64,
    event: StepEvent,
    row: Result<Option<RowResult>, MigrationError>,
    out: Result<Step, MigrationError>,
) -> bool {
    match row {
        Err(e) => after == before && out == Err::<Step, MigrationError>(e),
        Ok(result) => after.runs_only(before) && importer::step_made(
            before,
            after,
            importer::stepped(before, binding, id, told(record, event@, result)),
            out,
        ),
    }
}

/// What a run is told of a row.
pub open spec fn told(record: i64, event: EventModel, result: Option<RowResult>) -> EventModel {
    match result {
        Some(row) => EventModel::Row { record, result: row@ },
        None => event,
    }
}

impl Catalog {
    fn find_row(&self, binding: &str, id: &str) -> (out: Option<(usize, i64, SourceRecord)>)
        ensures
            match row_at(*self, binding@, id@) {
                None => out is None,
                Some((k, record, origin)) => out matches Some(found) && found.0 == k && k
                    < self.migration.runs.runs@.len() && found.1 == record && found.2@ == origin,
            },
    {
        let k: usize = match read(&self.migration.runs, id) {
            Err(_) => return None,
            Ok(k) => k,
        };
        let s: usize = match self.migration.files.find_seal(binding) {
            None => return None,
            Some(s) => s,
        };
        let progress: &Progress = &self.migration.runs.runs[k].progress;
        let table: &str = match progress.stage.table() {
            None => return None,
            Some(table) => table,
        };
        let captures = &self.migration.files.seals[s].selected;
        if !same(progress.input.as_str(), binding) || progress.capture_index >= captures.len() {
            return None;
        }
        let revision: &str = captures[progress.capture_index].revision.as_str();
        let r = &self.migration.retained;
        let page: Page = r.lookup(
            binding,
            revision,
            &Lookup::RowsByTable(table.to_owned()),
            progress.cursor,
            1,
        );
        assert(support::ints(page.hits@).len() == page.hits@.len());
        if page.hits.len() == 0 {
            return None;
        }
        let i: usize = page.hits[0];
        assert(support::ints(page.hits@)[0] == i as int);
        assert(r@.records[i as int] == r.records@[i as int]@);
        let record: i64 = r.records[i].sequence;
        match prepared_origin(r, binding, revision, record) {
            Ok(Ok(origin)) => Some((k, record, origin)),
            _ => None,
        }
    }

    fn settle(&self, input: &str, policy: &Policy, origin: &SourceRecord, stage: Stage) -> (out: Result<
        Option<RowResult>,
        MigrationError,
    >)
        ensures
            match settled(*self, input@, policy@.import_source, origin@, stage) {
                Err(e) => out == Err::<Option<RowResult>, MigrationError>(e),
                Ok(None) => out == Ok::<Option<RowResult>, MigrationError>(None),
                Ok(Some(kept)) => out matches Ok(Some(result)) && result@ == kept,
            },
    {
        let r = &self.migration.retained;
        let nowhere: Vec<String> = Vec::new();
        assert(support::models(nowhere@) =~= Seq::<Seq<char>>::empty());
        match stage {
            Stage::Files => match choose_original(r, &self.migration.images, input, policy, origin) {
                Err(e) => Err(e),
                Ok(OriginalRequest::Keep(row)) => Ok(Some(row)),
                Ok(_) => Ok(None),
            },
            Stage::CurrentDevelop | Stage::CatalogXmp => match choose_metadata(
                &self.tables,
                r,
                input,
                policy,
                origin,
                stage,
                nowhere,
            ) {
                Err(e) => Err(e),
                Ok(MetadataRequest::Keep(row)) => Ok(Some(row)),
                Ok(_) => Ok(None),
            },
            _ => Ok(None),
        }
    }

    fn work_on_row(
        &mut self,
        policy: &Policy,
        input: &str,
        origin: &SourceRecord,
        stage: Stage,
        event: &StepEvent,
    ) -> (row: Result<Option<RowResult>, MigrationError>)
        ensures
            row_worked(
                *old(self),
                *final(self),
                policy@,
                input@,
                origin@,
                stage,
                *event,
                row,
            ),
    {
        if stage == Stage::Masters || stage == Stage::VirtualCopies {
            return match self.import_image(input, policy, origin, stage) {
                Err(e) => Err(e),
                Ok(result) => Ok(Some(result)),
            };
        }
        if origin_of_stage(stage).is_some() {
            return match event {
                StepEvent::File(facts) => match self.import_file_metadata(
                    input,
                    policy,
                    origin,
                    stage,
                    facts,
                ) {
                    Err(e) => Err(e),
                    Ok(result) => Ok(Some(result)),
                },
                _ => Err(MigrationError::EventDiffers),
            };
        }
        match self.settle(input, policy, origin, stage) {
            Err(e) => Err(e),
            Ok(Some(row)) => Ok(Some(row)),
            Ok(None) => {
                if stage != Stage::CurrentDevelop {
                    return Ok(None);
                }
                match event {
                    StepEvent::Develop(facts) => match take_develop(
                        self,
                        policy.import_source.as_str(),
                        origin,
                        facts,
                    ) {
                        Err(e) => Err(e),
                        Ok(row) => Ok(Some(row)),
                    },
                    _ => Err(MigrationError::EventDiffers),
                }
            },
        }
    }

    /// One step of a run: it looks at what happened outside, works on one row, or goes
    /// on. A run can stop between any two steps: what was done of a row is found again
    /// when the row is come to again.
    pub fn step_selected_import(&mut self, binding: &str, id: &str, event: StepEvent) -> (out: Result<
        Step,
        MigrationError,
    >)
        ensures
            final(self).imports_only(*old(self)),
            import_stepped(*old(self), *final(self), binding@, id@, event, out),
    {
        let (k, record, origin): (usize, i64, SourceRecord) = match self.find_row(binding, id) {
            None => return self.take_step(binding, id, event),
            Some(found) => found,
        };
        let stage: Stage = self.migration.runs.runs[k].progress.stage;
        let policy: Policy = self.migration.runs.runs[k].policy.copied();
        let ghost before = *self;
        let ghost given = event;
        let row = self.work_on_row(&policy, binding, &origin, stage, &event);
        let ghost middle = *self;
        assert(row_worked(
            before,
            middle,
            before.migration.runs@.runs[k as int].policy,
            binding@,
            origin@,
            stage,
            given,
            row,
        ));
        let ghost worked = row;
        let event: StepEvent = match row {
            Err(e) => {
                assert(recorded(middle, *self, binding@, id@, record, given, worked, Err(e)));
                return Err(e);
            },
            Ok(Some(result)) => StepEvent::Row { record, result },
            Ok(None) => event,
        };
        let out = self.take_step(binding, id, event);
        assert(recorded(middle, *self, binding@, id@, record, given, worked, out));
        out
    }
}

/// Whatever a row came to, its run accounts for it: a step leaves the stage as it is
/// or goes on to the next, counts one row more exactly where it records a row, and
/// leaves a run that waits for a decision as it was.
pub proof fn law_every_step_is_accounted_for(
    before: Catalog,
    after: Catalog,
    binding: Seq<char>,
    id: Seq<char>,
    event: StepEvent,
    step: Step,
)
    requires
        import_stepped(before, after, binding, id, event, Ok(step)),
    ensures
        ({
            let runs = before.migration.runs@;
            let made = after.migration.runs@;
            &&& importer::read_run(runs, id) matches Ok(k) && {
                let progress = runs.runs[k].progress;
                &&& step@.progress.stage == progress.stage || step@.progress.stage
                    == importer::next_stage(progress.stage)
                &&& step@.needs_decision is Some ==> made == runs && step@.progress == progress
                &&& match step@.outcome {
                    None => step@.progress.processed == progress.processed && made.items
                        == runs.items,
                    Some(outcome) => step@.progress.processed == progress.processed + 1
                        && made.items.len() == runs.items.len() + 1 && made.items.drop_last()
                        == runs.items && made.items.last().outcome == outcome
                        && made.items.last().run == id,
                }
            }
        }),
{
    let (c, told_of): (Catalog, EventModel) = match row_at(before, binding, id) {
        None => (before, event@),
        Some((k, record, origin)) => {
            let run = before.migration.runs@.runs[k];
            let (middle, row) = choose|
                middle: Catalog,
                row: Result<Option<RowResult>, MigrationError>,
            |
                {
                    &&& #[trigger] row_worked(
                        before,
                        middle,
                        run.policy,
                        binding,
                        origin,
                        run.progress.stage,
                        event,
                        row,
                    )
                    &&& recorded(middle, after, binding, id, record, event, row, Ok(step))
                };
            (middle, told(record, event@, row->Ok_0))
        },
    };
    assert(c.migration.runs == before.migration.runs);
    importer::law_rows_are_counted(c, binding, id, told_of);
    importer::law_runs_never_go_back(c, binding, id, told_of);
    if step@.needs_decision is Some {
        importer::law_decisions_hold_the_run(c, binding, id, told_of);
    }
    reveal(importer::stepped);
}

} // verus!

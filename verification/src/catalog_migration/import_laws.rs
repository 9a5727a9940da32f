//! What a run imports at each of its stages: rows of one source table, each of them once
//! and in turn.
use crate::catalog::Catalog;
use crate::catalog_migration::file_metadata;
use crate::catalog_migration::import_rows;
use crate::catalog_migration::import_steps;
use crate::catalog_migration::importer;
use crate::catalog_migration::importer::{EventModel, ProgressModel, RowResult, Stage, Step, StepEvent};
use crate::catalog_migration::proofs::SourceRecordModel;
use crate::catalog_migration::record_laws;
use crate::catalog_migration::retained;
use crate::catalog_migration::retained::{Collection, MigrationError, RecordModel, RetainedModel};
use crate::support;
use vstd::prelude::*;

verus! {

/// A record is a whole row of a source table: it is one of the rows of a capture, and its
/// field `table_name` holds the table's name.
pub open spec fn row_of_table(
    x: RecordModel,
    input: Seq<char>,
    revision: Seq<char>,
    table: Seq<char>,
) -> bool {
    &&& x.complete
    &&& x.collection == Collection::Rows
    &&& x.input == input
    &&& x.revision == revision
    &&& record_laws::record_holds(x, "table_name"@, table)
}

/// A record of a number is a row of a source table.
pub open spec fn is_row_of(
    r: RetainedModel,
    sequence: i64,
    input: Seq<char>,
    revision: Seq<char>,
    table: Seq<char>,
) -> bool {
    exists|i: int|
        0 <= i < r.records.len() && (#[trigger] r.records[i]).sequence == sequence && row_of_table(
            r.records[i],
            input,
            revision,
            table,
        )
}

proof fn lemma_hit(
    x: RecordModel,
    input: Seq<char>,
    revision: Seq<char>,
    table: Seq<char>,
    after: Option<i64>,
)
    ensures
        retained::hit(input, revision, retained::Query::RowsByTable(table), after)(x) <==> (
        row_of_table(x, input, revision, table) && (after matches Some(a) ==> x.sequence > a)),
{
    record_laws::lemma_says(x, "table_name"@, table);
}

proof fn lemma_first_hit(
    r: RetainedModel,
    input: Seq<char>,
    revision: Seq<char>,
    table: Seq<char>,
    after: Option<i64>,
)
    ensures
        ({
            let q = retained::Query::RowsByTable(table);
            let hits = r.page_hits(input, revision, q, after, 1);
            let next = r.page_next(input, revision, q, after, 1);
            &&& hits.len() <= 1
            &&& hits.len() == 0 ==> next is None && forall|i: int|
                0 <= i < r.records.len() && (after matches Some(a) ==> (
                #[trigger] r.records[i]).sequence > a) ==> !row_of_table(
                    r.records[i],
                    input,
                    revision,
                    table,
                )
            &&& hits.len() == 1 ==> {
                &&& 0 <= hits[0] < r.records.len()
                &&& row_of_table(r.records[hits[0]], input, revision, table)
                &&& after matches Some(a) ==> r.records[hits[0]].sequence > a
                &&& forall|i: int|
                    0 <= i < hits[0] && (after matches Some(a) ==> (
                    #[trigger] r.records[i]).sequence > a) ==> !row_of_table(
                        r.records[i],
                        input,
                        revision,
                        table,
                    )
                &&& next matches Some(n) ==> n == r.records[hits[0]].sequence
                &&& next is None ==> forall|i: int|
                    0 <= i < r.records.len() && i != hits[0] && (after matches Some(a) ==> (
                    #[trigger] r.records[i]).sequence > a) ==> !row_of_table(
                        r.records[i],
                        input,
                        revision,
                        table,
                    )
            }
        }),
{
    let q = retained::Query::RowsByTable(table);
    let p = retained::hit(input, revision, q, after);
    let all = r.hits(input, revision, q, after);
    record_laws::lemma_positions(r.records, p, r.records.len());
    assert forall|i: int| 0 <= i < r.records.len() implies p(#[trigger] r.records[i]) == (
    row_of_table(r.records[i], input, revision, table) && (after matches Some(a)
        ==> r.records[i].sequence > a)) by {
        lemma_hit(r.records[i], input, revision, table, after);
    }
    assert forall|i: int| 0 <= i < r.records.len() && p(#[trigger] r.records[i]) implies all.len() > 0
        && all[0] <= i && (all.len() == 1 ==> all[0] == i) by {
        assert(all.contains(i));
        let k = choose|k: int| 0 <= k < all.len() && all[k] == i;
        if k > 0 {
            assert(all[0] < all[k]);
        }
    }
    if all.len() > 0 {
        assert(p(r.records[all[0]]));
    }
}


/// A run of an identity: the first of that name.
pub open spec fn is_run(c: Catalog, id: Seq<char>, k: int) -> bool {
    let runs = c.migration.runs@.runs;
    &&& 0 <= k < runs.len()
    &&& runs[k].id == id
    &&& forall|j: int| 0 <= j < k ==> (#[trigger] runs[j]).id != id
}

pub(crate) proof fn lemma_run(c: Catalog, id: Seq<char>, k: int)
    requires
        is_run(c, id, k),
    ensures
        importer::read_run(c.migration.runs@, id) matches Ok(found) ==> found == k,
{
    let runs = c.migration.runs@.runs;
    assert forall|j: int| 0 <= j < k implies !importer::run_named(id)(#[trigger] runs[j]) by {}
    support::lemma_first_found(runs, importer::run_named(id), k);
}

/// Records are numbered in their order.
pub open spec fn in_sequence(r: RetainedModel) -> bool {
    forall|i: int, j: int|
        0 <= i < j < r.records.len() ==> (#[trigger] r.records[i]).sequence < (
        #[trigger] r.records[j]).sequence
}

/// What a step recorded is a row of a table, in turn: the first row of the capture behind
/// where the run stood. The run goes on behind it, or to the next capture where no other
/// row of the table follows in this one.
pub open spec fn takes_next_row(
    r: RetainedModel,
    before: ProgressModel,
    after: ProgressModel,
    record: i64,
    revision: Seq<char>,
    table: Seq<char>,
) -> bool {
    &&& is_row_of(r, record, before.input, revision, table)
    &&& before.cursor matches Some(a) ==> record > a
    &&& forall|i: int|
        0 <= i < r.records.len() && (before.cursor matches Some(a) ==> (
        #[trigger] r.records[i]).sequence > a) && row_of_table(
            r.records[i],
            before.input,
            revision,
            table,
        ) ==> r.records[i].sequence >= record
    &&& {
        ||| after.capture_index == before.capture_index && after.cursor == Some(record)
        ||| after.capture_index == before.capture_index + 1 && after.cursor is None && forall|i: int|
            0 <= i < r.records.len() && (#[trigger] r.records[i]).sequence > record
                ==> !row_of_table(r.records[i], before.input, revision, table)
    }
}

proof fn lemma_row_step(c: Catalog, binding: Seq<char>, id: Seq<char>, event: EventModel)
    requires
        in_sequence(c.migration.retained@),
        importer::stepped(c, binding, id, event) matches Ok((_, step)) && step.outcome is Some,
    ensures
        ({
            let (runs, step) = importer::stepped(c, binding, id, event)->Ok_0;
            let before = c.migration.runs@.runs[importer::read_run(
                c.migration.runs@,
                id,
            )->Ok_0].progress;
            let item = runs.items.last();
            &&& importer::stage_table(before.stage) is Some
            &&& item.stage == before.stage
            &&& step.progress.stage == before.stage
            &&& before.input == binding
            &&& c.migration.files@.seal_at(binding) matches Some(s) && reads_capture(
                c.migration.files@.seals[s],
                before,
                item.revision,
            )
            &&& takes_next_row(
                c.migration.retained@,
                before,
                step.progress,
                item.record,
                item.revision,
                importer::stage_table(before.stage)->0,
            )
        }),
{
    reveal(importer::stepped);
    let r = c.migration.retained@;
    let (runs, step) = importer::stepped(c, binding, id, event)->Ok_0;
    let before = c.migration.runs@.runs[importer::read_run(c.migration.runs@, id)->Ok_0].progress;
    support::lemma_first_where(c.migration.files@.seals, file_metadata::sealed_as(binding));
    let seal = c.migration.files@.seals[c.migration.files@.seal_at(binding)->0];
    let table = importer::stage_table(before.stage)->0;
    let revision = seal.selected@[before.capture_index as int].revision@;
    lemma_first_hit(r, before.input, revision, table, before.cursor);
    let hits = r.page_hits(
        before.input,
        revision,
        retained::Query::RowsByTable(table),
        before.cursor,
        1,
    );
    let item = runs.items.last();
    assert(item.record == r.records[hits[0]].sequence);
    support::lemma_first_where(r.records, retained::record_at(item.record));
    let at = r.record_of(item.record)->0;
    assert(at == hits[0]) by {
        if at < hits[0] {
            assert(r.records[at].sequence < r.records[hits[0]].sequence);
        } else if hits[0] < at {
            assert(r.records[hits[0]].sequence < r.records[at].sequence);
        }
    }
    assert(is_row_of(r, item.record, before.input, item.revision, table));
    assert forall|i: int|
        0 <= i < r.records.len() && (before.cursor matches Some(a) ==> (
        #[trigger] r.records[i]).sequence > a) && row_of_table(
            r.records[i],
            before.input,
            revision,
            table,
        ) implies r.records[i].sequence >= item.record by {
        if hits[0] < i {
            assert(r.records[hits[0]].sequence < r.records[i].sequence);
        }
    }
    assert forall|i: int|
        0 <= i < r.records.len() && (#[trigger] r.records[i]).sequence > item.record
            && step.progress.cursor is None implies !row_of_table(
        r.records[i],
        before.input,
        revision,
        table,
    ) by {
        assert(i != hits[0]);
    }
    assert(seal.selected@.len() == seal.selected.len());
    assert(step.progress.capture_index == before.capture_index || step.progress.capture_index
        == before.capture_index + 1);
    assert(step.progress.cursor is Some ==> step.progress.cursor == Some(item.record));
    assert(item.stage == before.stage);
}

proof fn lemma_seals_kept(
    before: Catalog,
    after: Catalog,
    policy: importer::PolicyModel,
    input: Seq<char>,
    origin: SourceRecordModel,
    stage: Stage,
    event: StepEvent,
    row: Result<Option<RowResult>, MigrationError>,
)
    requires
        import_steps::row_worked(before, after, policy, input, origin, stage, event, row),
    ensures
        after.migration.files@.seals == before.migration.files@.seals,
        after.migration.retained == before.migration.retained,
        after.migration.runs == before.migration.runs,
{
    if stage == Stage::Masters || stage == Stage::VirtualCopies {
    } else if import_rows::stage_origin(stage) is Some {
        if let StepEvent::File(facts) = event {
            let out: Result<RowResult, MigrationError> = match row {
                Err(e) => Err(e),
                Ok(result) => Ok(result->0),
            };
            if after != before {
                let choice = import_rows::file_choice(
                    before.migration.retained@,
                    before.migration.images@,
                    input,
                    policy,
                    origin,
                    stage,
                    facts.rowids@,
                );
                if let Ok(import_rows::FileChoice::Project {
                    retained_path,
                    origin: kind,
                    packet_records,
                    supplement,
                }) = choice {
                    let (roster, request) = choose|
                        roster: file_metadata::Roster,
                        request: file_metadata::Projection,
                    |
                        {
                            &&& roster.binding@ == input
                            &&& roster.rowids@ == facts.rowids@
                            &&& import_rows::asks_file(
                                request,
                                origin,
                                policy.import_source,
                                retained_path,
                                kind,
                                packet_records,
                            )
                            &&& #[trigger] import_steps::projected_twice(
                                before,
                                after,
                                roster,
                                request,
                                supplement,
                                facts,
                                out,
                            )
                        };
                    let (middle, first) = choose|
                        middle: Catalog,
                        first: Result<
                            file_metadata::ProjectionResult,
                            MigrationError,
                        >,
                    |
                        {
                            &&& #[trigger] import_steps::file_done(
                                before,
                                middle,
                                roster,
                                request,
                                None,
                                facts.interpreted,
                                first,
                            )
                            &&& if first is Err || supplement is None {
                                after == middle && import_steps::gives(first, out)
                            } else {
                                import_steps::supplemented(
                                    middle,
                                    after,
                                    roster,
                                    request,
                                    supplement,
                                    facts,
                                    out,
                                )
                            }
                        };
                    assert(middle.migration.files@.seals == before.migration.files@.seals);
                    if !(first is Err || supplement is None) {
                        let (second, result) = choose|
                            second: file_metadata::Projection,
                            result: Result<
                                file_metadata::ProjectionResult,
                                MigrationError,
                            >,
                        |
                            {
                                &&& second == (file_metadata::Projection {
                                    supplement: second.supplement,
                                    ..request
                                })
                                &&& support::text_of(second.supplement) == supplement
                                &&& #[trigger] import_steps::file_done(
                                    middle,
                                    after,
                                    roster,
                                    second,
                                    facts.supplement,
                                    facts.supplemented,
                                    result,
                                )
                                &&& import_steps::gives(result, out)
                            };
                        assert(after.migration.files@.seals == middle.migration.files@.seals);
                    }
                }
            }
        }
    }
}

/// The catalog that a step is recorded in, and what the run is told of: the row is worked on
/// first, which changes neither the runs nor the records nor the seals.
proof fn lemma_recorded_in(
    before: Catalog,
    after: Catalog,
    binding: Seq<char>,
    id: Seq<char>,
    event: StepEvent,
    step: Step,
) -> (at: (Catalog, EventModel))
    requires
        import_steps::import_stepped(before, after, binding, id, event, Ok(step)),
    ensures
        importer::step_made(at.0, after, importer::stepped(at.0, binding, id, at.1), Ok(step)),
        at.0.migration.runs == before.migration.runs,
        at.0.migration.retained == before.migration.retained,
        at.0.migration.files@.seals == before.migration.files@.seals,
{
    match import_steps::row_at(before, binding, id) {
        None => (before, event@),
        Some((k, record, origin)) => {
            let run = before.migration.runs@.runs[k];
            let (middle, row) = choose|
                middle: Catalog,
                row: Result<Option<RowResult>, MigrationError>,
            |
                {
                    &&& #[trigger] import_steps::row_worked(
                        before,
                        middle,
                        run.policy,
                        binding,
                        origin,
                        run.progress.stage,
                        event,
                        row,
                    )
                    &&& import_steps::recorded(
                        middle,
                        after,
                        binding,
                        id,
                        record,
                        event,
                        row,
                        Ok(step),
                    )
                };
            lemma_seals_kept(
                before,
                middle,
                run.policy,
                binding,
                origin,
                run.progress.stage,
                event,
                row,
            );
            (middle, import_steps::told(record, event@, row->Ok_0))
        },
    }
}

/// A run reads the capture of a seal that it has come to.
pub open spec fn reads_capture(
    seal: file_metadata::InputSeal,
    progress: ProgressModel,
    revision: Seq<char>,
) -> bool {
    &&& seal.id@ == progress.input
    &&& progress.capture_index < seal.selected@.len()
    &&& seal.selected@[progress.capture_index as int].revision@ == revision
}

/// A run imports at each stage the rows of one table of the capture that it has come to, each
/// in turn: files and what stands beside them from the files' table, images and what belongs
/// to them from the images' table, keywords, collections, synonyms and memberships each from
/// their own. Where it imports nothing of a table it records no row.
pub proof fn law_stages_import_the_rows_of_their_table(
    before: Catalog,
    after: Catalog,
    binding: Seq<char>,
    id: Seq<char>,
    event: StepEvent,
    step: Step,
    k: int,
)
    requires
        in_sequence(before.migration.retained@),
        is_run(before, id, k),
        import_steps::import_stepped(before, after, binding, id, event, Ok(step)),
        step@.outcome is Some,
    ensures
        ({
            let r = before.migration.retained@;
            let progress = before.migration.runs@.runs[k].progress;
            let stage = progress.stage;
            let made = step@.progress;
            let item = after.migration.runs@.items.last();
            &&& after.migration.runs@.items == before.migration.runs@.items.push(item)
            &&& item.run == id
            &&& item.stage == stage
            &&& made.stage == stage
            &&& made.processed == progress.processed + 1
            &&& exists|s: int|
                0 <= s < before.migration.files@.seals.len() && reads_capture(
                    #[trigger] before.migration.files@.seals[s],
                    progress,
                    item.revision,
                )
            &&& stage == Stage::Files ==> takes_next_row(r, progress, made, item.record, item.revision, "AgLibraryFile"@)
            &&& stage == Stage::Masters ==> takes_next_row(r, progress, made, item.record, item.revision, "Adobe_images"@)
            &&& stage == Stage::VirtualCopies ==> takes_next_row(r, progress, made, item.record, item.revision, "Adobe_images"@)
            &&& stage == Stage::FileEmbedded ==> takes_next_row(r, progress, made, item.record, item.revision, "AgLibraryFile"@)
            &&& stage == Stage::FileSidecarXmp ==> takes_next_row(r, progress, made, item.record, item.revision, "AgLibraryFile"@)
            &&& stage == Stage::FileSidecarUpper ==> takes_next_row(r, progress, made, item.record, item.revision, "AgLibraryFile"@)
            &&& stage == Stage::FileAppendedXmp ==> takes_next_row(r, progress, made, item.record, item.revision, "AgLibraryFile"@)
            &&& stage == Stage::FileAppendedUpper ==> takes_next_row(r, progress, made, item.record, item.revision, "AgLibraryFile"@)
            &&& stage == Stage::CatalogXmp ==> takes_next_row(r, progress, made, item.record, item.revision, "Adobe_AdditionalMetadata"@)
            &&& stage == Stage::CurrentDevelop ==> takes_next_row(r, progress, made, item.record, item.revision, "Adobe_images"@)
            &&& stage == Stage::ImageFields ==> takes_next_row(r, progress, made, item.record, item.revision, "Adobe_images"@)
            &&& stage == Stage::Keywords ==> takes_next_row(r, progress, made, item.record, item.revision, "AgLibraryKeyword"@)
            &&& stage == Stage::Collections ==> takes_next_row(r, progress, made, item.record, item.revision, "AgLibraryCollection"@)
            &&& stage == Stage::KeywordSynonyms ==> takes_next_row(r, progress, made, item.record, item.revision, "AgLibraryKeywordSynonym"@)
            &&& stage == Stage::KeywordMemberships ==> takes_next_row(r, progress, made, item.record, item.revision, "AgLibraryKeywordImage"@)
            &&& stage == Stage::CollectionMemberships ==> takes_next_row(r, progress, made, item.record, item.revision, "AgLibraryCollectionImage"@)
            &&& stage == Stage::History ==> takes_next_row(r, progress, made, item.record, item.revision, "Adobe_libraryImageDevelopHistoryStep"@)
            &&& stage == Stage::DevelopSettings ==> takes_next_row(r, progress, made, item.record, item.revision, "Adobe_imageDevelopSettings"@)
            &&& stage == Stage::BeforeSettings ==> takes_next_row(r, progress, made, item.record, item.revision, "Adobe_imageDevelopBeforeSettings"@)
            &&& stage == Stage::Snapshots ==> takes_next_row(r, progress, made, item.record, item.revision, "Adobe_libraryImageDevelopSnapshot"@)
            &&& stage == Stage::SmartCollections ==> takes_next_row(r, progress, made, item.record, item.revision, "AgLibraryCollectionContent"@)
            &&& stage == Stage::Stacks ==> takes_next_row(r, progress, made, item.record, item.revision, "Adobe_images"@)
            &&& stage != Stage::Custody
            &&& stage != Stage::SupplementCustody
            &&& stage != Stage::Index
            &&& stage != Stage::ArtifactCustody
            &&& stage != Stage::Reconciliation
            &&& stage != Stage::Complete
        }),
{
    let (c, told) = lemma_recorded_in(before, after, binding, id, event, step);
    lemma_run(before, id, k);
    assert(importer::read_run(c.migration.runs@, id) is Ok) by {
        reveal(importer::stepped);
    }
    lemma_row_step(c, binding, id, told);
    importer::law_rows_are_counted(c, binding, id, told);
    let seals = before.migration.files@.seals;
    support::lemma_first_where(seals, file_metadata::sealed_as(binding));
    let s = c.migration.files@.seal_at(binding)->0;
    assert(reads_capture(
        seals[s],
        before.migration.runs@.runs[k].progress,
        after.migration.runs@.items.last().revision,
    ));
    assert(after.migration.runs@.items =~= before.migration.runs@.items.push(
        after.migration.runs@.items.last(),
    ));
}

proof fn lemma_next_stage(c: Catalog, binding: Seq<char>, id: Seq<char>, event: EventModel)
    requires
        importer::stepped(c, binding, id, event) is Ok,
    ensures
        ({
            let step = importer::stepped(c, binding, id, event)->Ok_0.1;
            let before = c.migration.runs@.runs[importer::read_run(
                c.migration.runs@,
                id,
            )->Ok_0].progress;
            step.progress.stage != before.stage ==> {
                &&& step.progress.stage == importer::next_stage(before.stage)
                &&& step.outcome is None
                &&& step.progress.processed == before.processed
                &&& !before.complete ==> step.progress.complete == (step.progress.stage
                    == Stage::Complete)
            }
        }),
{
    reveal(importer::stepped);
}

/// A run goes through its stages in one order: a step keeps the stage or goes on to the one
/// behind it. Files come before images, masters before virtual copies, images before what
/// belongs to them, keywords and collections before their members.
pub proof fn law_steps_go_through_the_stages_in_order(
    before: Catalog,
    after: Catalog,
    binding: Seq<char>,
    id: Seq<char>,
    event: StepEvent,
    step: Step,
    k: int,
)
    requires
        is_run(before, id, k),
        import_steps::import_stepped(before, after, binding, id, event, Ok(step)),
        step@.progress.stage != before.migration.runs@.runs[k].progress.stage,
    ensures
        ({
            let from = before.migration.runs@.runs[k].progress.stage;
            let to = step@.progress.stage;
            &&& from != Stage::Complete
            &&& step@.outcome is None
            &&& step@.progress.processed == before.migration.runs@.runs[k].progress.processed
            &&& !before.migration.runs@.runs[k].progress.complete ==> (step@.progress.complete
                <==> to == Stage::Complete)
            &&& from == Stage::Custody ==> to == Stage::SupplementCustody
            &&& from == Stage::SupplementCustody ==> to == Stage::Index
            &&& from == Stage::Index ==> to == Stage::Files
            &&& from == Stage::Files ==> to == Stage::Masters
            &&& from == Stage::Masters ==> to == Stage::VirtualCopies
            &&& from == Stage::VirtualCopies ==> to == Stage::FileEmbedded
            &&& from == Stage::FileEmbedded ==> to == Stage::FileSidecarXmp
            &&& from == Stage::FileSidecarXmp ==> to == Stage::FileSidecarUpper
            &&& from == Stage::FileSidecarUpper ==> to == Stage::FileAppendedXmp
            &&& from == Stage::FileAppendedXmp ==> to == Stage::FileAppendedUpper
            &&& from == Stage::FileAppendedUpper ==> to == Stage::CatalogXmp
            &&& from == Stage::CatalogXmp ==> to == Stage::CurrentDevelop
            &&& from == Stage::CurrentDevelop ==> to == Stage::ImageFields
            &&& from == Stage::ImageFields ==> to == Stage::Keywords
            &&& from == Stage::Keywords ==> to == Stage::Collections
            &&& from == Stage::Collections ==> to == Stage::KeywordSynonyms
            &&& from == Stage::KeywordSynonyms ==> to == Stage::KeywordMemberships
            &&& from == Stage::KeywordMemberships ==> to == Stage::CollectionMemberships
            &&& from == Stage::CollectionMemberships ==> to == Stage::History
            &&& from == Stage::History ==> to == Stage::DevelopSettings
            &&& from == Stage::DevelopSettings ==> to == Stage::BeforeSettings
            &&& from == Stage::BeforeSettings ==> to == Stage::Snapshots
            &&& from == Stage::Snapshots ==> to == Stage::SmartCollections
            &&& from == Stage::SmartCollections ==> to == Stage::Stacks
            &&& from == Stage::Stacks ==> to == Stage::ArtifactCustody
            &&& from == Stage::ArtifactCustody ==> to == Stage::Reconciliation
            &&& from == Stage::Reconciliation ==> to == Stage::Complete
        }),
{
    let (c, told) = lemma_recorded_in(before, after, binding, id, event, step);
    lemma_run(before, id, k);
    lemma_next_stage(c, binding, id, told);
    assert(importer::stepped(c, binding, id, told) is Ok);
    assert(importer::read_run(c.migration.runs@, id) is Ok) by {
        reveal(importer::stepped);
    }
}

/// A run leaves a stage that walks a table only behind the last capture, and goes on to the
/// next capture only where no row of the table is left in this one.
pub proof fn law_no_row_is_left_behind(
    before: Catalog,
    after: Catalog,
    binding: Seq<char>,
    id: Seq<char>,
    event: StepEvent,
    step: Step,
    k: int,
    s: int,
    i: int,
)
    requires
        is_run(before, id, k),
        import_steps::import_stepped(before, after, binding, id, event, Ok(step)),
        step@.outcome is None,
        importer::stage_table(before.migration.runs@.runs[k].progress.stage) is Some,
        before.migration.files@.seal_at(binding) == Some(s),
        0 <= i < before.migration.retained@.records.len(),
    ensures
        ({
            let r = before.migration.retained@;
            let progress = before.migration.runs@.runs[k].progress;
            let captures = before.migration.files@.seals[s].selected@;
            let made = step@.progress;
            &&& made.stage != progress.stage ==> progress.capture_index == captures.len()
                && made.capture_index == 0 && made.cursor is None
            &&& made.stage == progress.stage && made != progress ==> {
                &&& progress.capture_index < captures.len()
                &&& made.capture_index == progress.capture_index + 1
                &&& made.cursor is None
                &&& (progress.cursor matches Some(a) ==> r.records[i].sequence > a)
                    ==> !row_of_table(
                    r.records[i],
                    progress.input,
                    captures[progress.capture_index as int].revision@,
                    importer::stage_table(progress.stage)->0,
                )
            }
        }),
{
    let (c, told) = lemma_recorded_in(before, after, binding, id, event, step);
    lemma_run(before, id, k);
    reveal(importer::stepped);
    let r = before.migration.retained@;
    let progress = before.migration.runs@.runs[k].progress;
    let captures = before.migration.files@.seals[s].selected;
    assert(captures@.len() == captures.len());
    if progress.capture_index < captures@.len() {
        lemma_first_hit(
            r,
            progress.input,
            captures@[progress.capture_index as int].revision@,
            importer::stage_table(progress.stage)->0,
            progress.cursor,
        );
    }
}

} // verus!

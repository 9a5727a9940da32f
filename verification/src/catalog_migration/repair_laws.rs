//! What a repair of an import does, told by its rows: which rows it looks at and in what order,
//! which of them it corrects, and what it leaves as it was.
use crate::catalog::Catalog;
use crate::catalog_migration::current_repair;
use crate::catalog_migration::current_repair::{
    Phase, RepairFacts, RepairsModel, RowChoice, StepModel,
};
use crate::catalog_migration::importer;
use crate::catalog_migration::importer::{OutcomeModel, RunItemModel, RunsModel, Stage};
use crate::catalog_migration::retained::MigrationError;
use crate::outside;
use crate::support;
use vstd::prelude::*;

verus! {

/// A row of a run that became current settings, or was to.
pub open spec fn is_settings_row(x: RunItemModel, run: Seq<char>) -> bool {
    x.run == run && x.stage == Stage::CurrentDevelop
}

/// The row with the least number above another one, among those of a run that became current
/// settings.
pub open spec fn is_next(items: Seq<RunItemModel>, i: int, run: Seq<char>, after: i64) -> bool {
    &&& 0 <= i < items.len()
    &&& is_settings_row(items[i], run)
    &&& items[i].record > after
    &&& forall|j: int|
        0 <= j < items.len() && is_settings_row(#[trigger] items[j], run) && items[j].record > after
            ==> items[i].record <= items[j].record
}

/// No row of a run that became current settings is left above a number.
pub open spec fn none_left(items: Seq<RunItemModel>, run: Seq<char>, after: i64) -> bool {
    forall|j: int|
        0 <= j < items.len() && is_settings_row(#[trigger] items[j], run) ==> items[j].record
            <= after
}

proof fn lemma_next(items: Seq<RunItemModel>, run: Seq<char>, after: i64, n: nat)
    requires
        n <= items.len(),
    ensures
        match current_repair::next_item(items, run, after, n) {
            Some(i) => 0 <= i < n && is_settings_row(items[i], run) && items[i].record > after
                && forall|j: int|
                0 <= j < n && is_settings_row(#[trigger] items[j], run) && items[j].record > after
                    ==> items[i].record <= items[j].record,
            None => forall|j: int|
                0 <= j < n && is_settings_row(#[trigger] items[j], run) ==> items[j].record
                    <= after,
        },
    decreases n,
{
    if n > 0 {
        lemma_next(items, run, after, (n - 1) as nat);
    }
}

/// The repair of an identity.
pub open spec fn is_repair(m: RepairsModel, k: int, id: Seq<char>) -> bool {
    0 <= k < m.repairs.len() && m.repairs[k].id == id && forall|j: int|
        0 <= j < k ==> (#[trigger] m.repairs[j]).id != id
}

proof fn lemma_repair(m: RepairsModel, id: Seq<char>)
    ensures
        m.repair_at(id) matches Some(k) ==> is_repair(m, k, id),
{
    let q = current_repair::repair_named(id);
    support::lemma_first_where(m.repairs, q);
    if let Some(k) = m.repair_at(id) {
        assert forall|j: int| 0 <= j < k implies (#[trigger] m.repairs[j]).id != id by {
            assert(!q(m.repairs[j]));
        }
    }
}

/// What a step of a repair does in each phase.
pub open spec fn steps_on(
    c: Catalog,
    k: int,
    runs: RunsModel,
    m: RepairsModel,
    step: StepModel,
) -> bool {
    let before = c.migration.repairs@.repairs[k].progress;
    let items = c.migration.runs@.items;
    match before.phase {
        Phase::ArchiveReports => {
            &&& runs == c.migration.runs@
            &&& m.metadata == c.migration.repairs@.metadata
            &&& m.items == c.migration.repairs@.items
            &&& step.record is None
            &&& step.progress.phase == Phase::ArchiveReports || step.progress.phase == Phase::Project
            &&& step.progress.phase == Phase::ArchiveReports ==> step.progress.report_index
                == before.report_index + 1 && m.archived.len() == c.migration.repairs@.archived.len()
                + 1 && m.archived.last().repair == before.id
            &&& step.progress.phase == Phase::Project ==> forall|j: int|
                0 <= j < m.reports.len() ==> (#[trigger] m.reports[j]).run != before.run
        },
        Phase::Project => {
            ||| {
                &&& none_left(items, before.run, before.after_record)
                &&& step.progress.phase == Phase::Reconciliation
                &&& step.record is None
                &&& runs == c.migration.runs@
                &&& m.metadata == c.migration.repairs@.metadata
                &&& m.items == c.migration.repairs@.items
            }
            ||| {
                &&& step.progress.phase == Phase::Project
                &&& step.record matches Some(record) && step.progress.after_record == record
                    && exists|i: int|
                    #[trigger] is_next(items, i, before.run, before.after_record) && items[i].record
                        == record
                &&& step.progress.examined == before.examined + 1
            }
        },
        Phase::Reconciliation => {
            &&& runs == c.migration.runs@
            &&& m.metadata == c.migration.repairs@.metadata
            &&& m.items == c.migration.repairs@.items
            &&& step.progress.phase == Phase::Reconciliation || step.progress.phase
                == Phase::Complete
            &&& step.progress.phase == Phase::Complete ==> step.progress.complete && exists|n: int|
                0 <= n < runs.runs.len() && (#[trigger] runs.runs[n]).progress.id == before.run
                    && runs.runs[n].progress.complete
        },
        Phase::Complete => runs == c.migration.runs@ && m == c.migration.repairs@ && step.progress
            == before,
    }
}

/// A repair goes on only from the source that it was begun with and as long as the mappings are
/// those that it was begun with. It first archives the reports of its run, until none is left;
/// then it looks at the rows of the run that became current settings, each once and in turn,
/// until none is left; then it waits for the run to be reconciled, and is complete.
pub proof fn law_repairs_go_through_their_phases(
    c: Catalog,
    binding: Seq<char>,
    id: Seq<char>,
    facts: Option<RepairFacts>,
    runs: RunsModel,
    m: RepairsModel,
    step: StepModel,
)
    requires
        current_repair::repair_stepped(c, binding, id, facts) == Ok::<
            (RunsModel, RepairsModel, StepModel),
            MigrationError,
        >((runs, m, step)),
    ensures
        exists|k: int|
            #[trigger] is_repair(c.migration.repairs@, k, id)
                && c.migration.repairs@.repairs[k].input == binding
                && c.migration.repairs@.repairs[k].request.expected_mapping_epoch
                == c.migration.repairs@.epoch && steps_on(c, k, runs, m, step),
{
    reveal(current_repair::repair_stepped);
    let repairs = c.migration.repairs@;
    lemma_repair(repairs, id);
    let k = current_repair::read_repair(repairs, id)->Ok_0;
    let before = repairs.repairs[k].progress;
    let items = c.migration.runs@.items;
    match before.phase {
        Phase::ArchiveReports => {
            let s = c.migration.files@.seal_at(binding)->Some_0;
            let selected = c.migration.files@.seals[s].selected;
            assert(selected.len() == selected@.len());
            support::lemma_first_where(repairs.reports, current_repair::report_in(before.run));
            if step.progress.phase == Phase::Project {
                assert forall|j: int| 0 <= j < m.reports.len() implies (
                #[trigger] m.reports[j]).run != before.run by {
                    assert(!current_repair::report_in(before.run)(repairs.reports[j]));
                }
            }
        },
        Phase::Project => {
            lemma_next(items, before.run, before.after_record, items.len());
            if let Some(i) = current_repair::next_item(
                items,
                before.run,
                before.after_record,
                items.len(),
            ) {
                assert(is_next(items, i, before.run, before.after_record));
                reveal(current_repair::row_repaired);
            }
        },
        Phase::Reconciliation => {
            support::lemma_first_where(
                c.migration.runs@.runs,
                importer::run_named(before.run),
            );
            let n = importer::read_run(c.migration.runs@, before.run)->Ok_0;
            assert(c.migration.runs@.runs[n].progress.id == before.run);
        },
        Phase::Complete => {},
    }
    assert(steps_on(c, k, runs, m, step));
}

/// Where settings were looked for before: nowhere in particular, or at a place.
pub open spec fn looked_nowhere(x: current_repair::ResultRecordModel) -> bool {
    x.extraction matches Some(e) ==> e.settings_path.len() == 0
}

/// A row is corrected only where it became current settings of its importer's image that were
/// only retained: looked for nowhere in particular, with no observation and nothing translated.
/// The image has to be as it was imported, at the very recipe and revision that the import made,
/// and what is put in place has to be of the same image and the same settings. Its settings are
/// then looked for somewhere else than before; a row whose settings were looked for there
/// already is left as it is.
pub proof fn law_only_untranslated_settings_are_corrected(
    c: Catalog,
    item: RunItemModel,
    owner: Seq<char>,
    input: Seq<char>,
    facts: Option<RepairFacts>,
)
    ensures
        match current_repair::row_choice(c, item, owner, input, facts) {
            Ok(RowChoice::Untouched) => !(item.outcome is Metadata),
            Ok(RowChoice::Kept(found)) => {
                let old = c.migration.repairs@.metadata[found.at];
                &&& item.outcome is Metadata
                &&& 0 <= found.at < c.migration.repairs@.metadata.len()
                &&& old.owner == owner
                &&& old.slot == "current_develop"@
                &&& facts matches Some(f) && match old.record.extraction {
                    Some(e) => support::models(f.settings_path@) == e.settings_path,
                    None => f.settings_path@.len() == 0,
                }
            },
            Ok(RowChoice::Rebound(found)) => {
                let old = c.migration.repairs@.metadata[found.at];
                &&& item.outcome is Metadata
                &&& 0 <= found.at < c.migration.repairs@.metadata.len()
                &&& old.owner == owner
                &&& old.slot == "current_develop"@
                &&& old.image_source == found.image
                &&& old.payload_source == found.payload
                &&& old.record.state == "retained_only"@
                &&& old.record.observation is None
                &&& looked_nowhere(old.record)
                &&& old.record.extraction matches Some(e) ==> !e.translated
                &&& facts matches Some(f) && {
                    &&& f.settings_path@.len() > 0
                    &&& f.input_digest@ == old.record.input_digest
                    &&& f.recipe matches Some(x) && {
                        &&& old.record.edit_revision == Some(x.current_revision)
                        &&& x.revision == x.current_revision
                        &&& x.kind@ == "import"@
                        &&& x.cursor == Some(x.node)
                        &&& x.digest@ == x.stored_digest@
                        &&& x.provenance matches Some(p) && p.adapter@
                            == "lightroom-native-metadata-v1"@ && p.input_digest@
                            == old.record.input_digest && p.retained_record
                            == found.target.retained_record
                    }
                    &&& f.projection matches Some(p) && {
                        &&& p.key@ == old.record.image
                        &&& p.image_source@ == found.image
                        &&& p.payload_source@ == found.payload
                        &&& old.record.extraction matches Some(a) && (
                        p.result@.extraction matches Some(b) && a.source == b.source)
                    }
                }
            },
            Err(_) => true,
        },
{
    if item.outcome is Metadata {
        if let Ok(found) = current_repair::predecessor_of(c, item, owner, input) {
            support::lemma_first_where(
                c.migration.repairs@.metadata,
                current_repair::settings_of(found.image, found.payload),
            );
            let old = c.migration.repairs@.metadata[found.at].record;
            if let Some(f) = facts {
                let path = support::models(f.settings_path@);
                assert(path.len() == f.settings_path@.len());
                assert(path.len() == 0 ==> path =~= Seq::empty());
                assert(current_repair::prior_path(old).len() == 0 ==> current_repair::prior_path(
                    old,
                ) =~= Seq::empty());
            }
        }
    }
}

/// What was found of a row is recorded once, with what was done about it. Only a corrected row
/// has its receipt and its metadata replaced, by those of the projection that was made again;
/// nothing else of the run or of the metadata is changed.
pub proof fn law_repaired_rows_are_recorded(
    c: Catalog,
    k: int,
    i: int,
    owner: Seq<char>,
    facts: Option<RepairFacts>,
    runs: RunsModel,
    m: RepairsModel,
    step: StepModel,
)
    requires
        0 <= i < c.migration.runs@.items.len(),
        current_repair::row_repaired(c, k, i, owner, facts) == Ok::<
            (RunsModel, RepairsModel, StepModel),
            MigrationError,
        >((runs, m, step)),
    ensures
        m.items.len() == c.migration.repairs@.items.len() + 1,
        m.items.last().repair == c.migration.repairs@.repairs[k].progress.id,
        m.items.last().record == c.migration.runs@.items[i].record,
        forall|j: int|
            0 <= j < c.migration.repairs@.items.len() ==> (
            #[trigger] c.migration.repairs@.items[j]).repair != m.items.last().repair
                || c.migration.repairs@.items[j].record != m.items.last().record,
        step.outcome == Some(m.items.last().disposition),
        m.items.last().disposition == "unchanged_nonprojection"@ || m.items.last().disposition
            == "unchanged_container"@ || m.items.last().disposition == "container_rebound"@,
        m.items.last().disposition != "container_rebound"@ ==> runs == c.migration.runs@
            && m.metadata == c.migration.repairs@.metadata,
        forall|j: int|
            0 <= j < runs.items.len() && j != i ==> #[trigger] runs.items[j]
                == c.migration.runs@.items[j],
        runs.runs == c.migration.runs@.runs,
        runs.items.len() == c.migration.runs@.items.len(),
        !(c.migration.runs@.items[i].outcome is Metadata) ==> m.items.last().disposition
            == "unchanged_nonprojection"@,
        runs != c.migration.runs@ ==> (facts matches Some(f) && (f.projection matches Some(p)
            && runs.items[i].outcome == (OutcomeModel::Metadata {
            input_digest: p.result@.input_digest,
            state: p.result@.state,
            observation: p.result@.observation,
            reason: p.result@.reason,
        }))),
{
    reveal(current_repair::row_repaired);
    let repairs = c.migration.repairs@;
    let before = repairs.repairs[k].progress;
    let item = c.migration.runs@.items[i];
    let q = current_repair::repaired_item(before.id, item.record);
    support::lemma_first_where(repairs.items, q);
    assert forall|j: int| 0 <= j < repairs.items.len() implies (#[trigger] repairs.items[j]).repair
        != m.items.last().repair || repairs.items[j].record != m.items.last().record by {
        assert(!q(repairs.items[j]));
    }
    lemma_words();
}

proof fn lemma_words()
    ensures
        "unchanged_nonprojection"@ != "container_rebound"@,
        "unchanged_container"@ != "container_rebound"@,
{
    reveal_strlit("unchanged_nonprojection");
    reveal_strlit("unchanged_container");
    reveal_strlit("container_rebound");
    assert("unchanged_nonprojection"@.len() == 23);
    assert("unchanged_container"@.len() == 19);
    assert("container_rebound"@.len() == 17);
}

/// A run is repaired only once it is complete, with the progress that was expected of it and
/// under the mappings that were expected, and only from the very source that it was imported
/// from. The repair starts with nothing looked at, and the run is to be reconciled once more.
pub proof fn law_only_complete_runs_are_repaired(
    c: Catalog,
    source: current_repair::SourceSelection,
    kept: current_repair::RetainedSelection,
    request: current_repair::RequestModel,
    runs: RunsModel,
    m: RepairsModel,
    p: current_repair::ProgressModel,
)
    requires
        current_repair::repair_begun(c, source, kept, request) == Ok::<
            (RunsModel, RepairsModel, current_repair::ProgressModel),
            MigrationError,
        >((runs, m, p)),
        forall|j: int|
            0 <= j < c.migration.repairs@.repairs.len() ==> (
            #[trigger] c.migration.repairs@.repairs[j]).run != request.run,
    ensures
        kept.complete,
        kept.seal@ == source.seal@,
        outside::blake3_hex(kept.approval@) == source.approval_blake3@,
        c.migration.repairs@.epoch == request.expected_mapping_epoch,
        exists|k: int|
            0 <= k < c.migration.runs@.runs.len() && (
            #[trigger] c.migration.runs@.runs[k]).progress.id == request.run
                && c.migration.runs@.runs[k].progress.complete
                && c.migration.runs@.runs[k].progress.stage == Stage::Complete
                && c.migration.runs@.runs[k].progress.input == source.binding@,
        m.repairs.len() == c.migration.repairs@.repairs.len() + 1,
        m.repairs.last().run == request.run,
        m.repairs.last().request == request,
        m.repairs.last().progress == p,
        p.run == request.run,
        p.phase == Phase::ArchiveReports,
        p.report_index == 0,
        p.after_record == 0,
        p.examined == 0,
        p.repaired == 0,
        p.unchanged == 0,
        !p.complete,
        m.items == c.migration.repairs@.items,
        m.metadata == c.migration.repairs@.metadata,
        m.reports == c.migration.repairs@.reports,
{
    reveal(current_repair::repair_begun);
    let repairs = c.migration.repairs@;
    let q = current_repair::repair_for(request.run);
    support::lemma_first_where(repairs.repairs, q);
    if let Some(j) = support::first_where(repairs.repairs, q) {
        assert(repairs.repairs[j].run == request.run);
    }
    support::lemma_first_where(c.migration.runs@.runs, importer::run_named(request.run));
    let k = importer::read_run(c.migration.runs@, request.run)->Ok_0;
    assert(c.migration.runs@.runs[k].progress.id == request.run);
}

} // verus!

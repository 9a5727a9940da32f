//! What an import asks for, archives and answers, told by what it was given.
use crate::catalog::Catalog;
use crate::catalog_migration::current_repair;
use crate::catalog_migration::current_repair::{PredecessorModel, RepairsModel};
use crate::catalog_migration::evidence::EvidenceStore;
use crate::catalog_migration::evidence;
use crate::catalog_migration::import_artifacts;
use crate::catalog_migration::import_artifacts::{Work, WorkerModel};
use crate::catalog_migration::import_rows;
use crate::catalog_migration::import_rows::{MetadataChoice, MetadataRequest};
use crate::catalog_migration::importer;
use crate::catalog_migration::importer::StepEvent;
use crate::catalog_migration::retained::MigrationError;
use crate::outside;
use crate::support;
use vstd::prelude::*;

verus! {

/// What is asked for says all of what was chosen: a request is that of one choice only.
pub proof fn law_requests_say_all_of_a_choice(request: MetadataRequest, a: MetadataChoice, b: MetadataChoice)
    requires
        import_rows::asks_metadata(request, a),
        import_rows::asks_metadata(request, b),
    ensures
        a == b,
{
}

/// What is read of a row before its repair is what was archived of that row by that repair: it
/// has the digest and the length that were noted, and what is said of the repair is what was
/// noted of it.
pub proof fn law_archived_rows_are_read_back(
    repairs: RepairsModel,
    id: Seq<char>,
    record: i64,
    found: PredecessorModel,
)
    requires
        current_repair::predecessor_read(repairs, id, record) == Ok::<
            PredecessorModel,
            MigrationError,
        >(found),
    ensures
        record > 0,
        exists|i: int|
            {
                &&& 0 <= i < repairs.items.len()
                &&& (#[trigger] repairs.items[i]).repair == id
                &&& repairs.items[i].record == record
                &&& outside::blake3_hex(found.outcome) == repairs.items[i].outcome_digest
                &&& found.outcome.len() == repairs.items[i].outcome_length
                &&& found.new_result_digest == repairs.items[i].new_result_digest
                &&& found.new_outcome_digest == repairs.items[i].new_outcome_digest
                &&& found.disposition == repairs.items[i].disposition
                &&& found.metadata is Some <==> repairs.items[i].metadata is Some
                &&& found.metadata matches Some(m) ==> (repairs.items[i].metadata matches Some(n)
                    && m.0 == n.0 && m.1.len() == n.2 && outside::blake3_hex(m.1) == n.3)
            },
{
    let q = current_repair::repaired_item(id, record);
    support::lemma_first_where(repairs.items, q);
    let i = support::first_where(repairs.items, q)->0;
    assert(repairs.items[i].repair == id);
}

/// A worker that is stopped, or whose run is not to be had, changes nothing; and whatever is
/// refused leaves the worker as it was.
pub proof fn law_refused_work_leaves_no_trace(
    before: Catalog,
    after: Catalog,
    old_worker: WorkerModel,
    new_worker: WorkerModel,
    binding: Seq<char>,
    event: StepEvent,
    stopped: bool,
    out: Result<Work, MigrationError>,
)
    requires
        import_artifacts::worked(before, after, old_worker, new_worker, binding, event, stopped, out),
    ensures
        stopped || importer::read_run(before.migration.runs@, old_worker.run) is Err ==> out is Err
            && after == before,
        out is Err ==> new_worker == old_worker,
        new_worker.run == old_worker.run,
        out matches Ok(Work::Stepped(_)) ==> new_worker.open is None,
        out matches Ok(Work::Read(_, wanted)) ==> new_worker == old_worker && (
        old_worker.open matches Some(reader) ==> reader.descriptor.request == wanted@),
{
}

/// A payload is declared only within bounds, and never over another that goes by the same
/// identity.
pub proof fn law_payloads_are_declared_within_bounds(store: EvidenceStore, descriptor: Seq<u8>, length: u64, i: int)
    requires
        store.begin_refusal(descriptor, length) is None,
    ensures
        descriptor.len() <= 65536,
        length <= i64::MAX,
        0 <= i < store.rows@.len() && store.rows@[i].id@ == evidence::initial_manifest_text(
            descriptor,
            length,
        ) && (forall|j: int| 0 <= j < i ==> (#[trigger] store.rows@[j]).id@ != store.rows@[i].id@)
            ==> store.rows@[i].descriptor@ == descriptor && store.rows@[i].length == length,
{
    let id = evidence::initial_manifest_text(descriptor, length);
    let q = evidence::with_id(id);
    if 0 <= i < store.rows@.len() && store.rows@[i].id@ == id && (forall|j: int|
        0 <= j < i ==> (#[trigger] store.rows@[j]).id@ != store.rows@[i].id@) {
        support::lemma_first_found(store.rows@, q, i);
    }
}

} // verus!

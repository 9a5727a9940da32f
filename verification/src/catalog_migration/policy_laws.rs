//! What an import's policy has to name, and what an import goes on with, told by the rows.
use crate::catalog::Catalog;
use crate::catalog_migration::artifacts;
use crate::catalog_migration::evidence::EvidenceStore;
use crate::catalog_migration::file_history::Origin;
use crate::catalog_migration::file_metadata;
use crate::catalog_migration::file_metadata::{SelectedCapture, SupplementPin};
use crate::catalog_migration::image_import_laws;
use crate::catalog_migration::import_laws;
use crate::catalog_migration::import_steps;
use crate::catalog_migration::import_steps::DevelopFacts;
use crate::catalog_migration::importer;
use crate::catalog_migration::importer::{
    ArtifactInputModel, EventModel, PolicyModel, ProgressModel, RowModel, RunsModel, Stage, StepModel,
    SupplementInputModel,
};
use crate::catalog_migration::proofs::SourceRecordModel;
use crate::catalog_migration::record_laws;
use crate::catalog_migration::retained::MigrationError;
use crate::lookups;
use crate::outside;
use crate::support;
use vstd::prelude::*;

verus! {

/// A capture is among those that were selected.
pub open spec fn is_selected(selected: Seq<SelectedCapture>, revision: Seq<char>) -> bool {
    exists|j: int| 0 <= j < selected.len() && (#[trigger] selected[j]).revision@ == revision
}

proof fn lemma_supplements(
    s: Seq<SupplementInputModel>,
    selected: Seq<SelectedCapture>,
    n: nat,
)
    requires
        n <= s.len(),
        importer::supplements_refusal(s, selected, n) is None,
    ensures
        forall|i: int| 0 <= i < n ==> is_selected(selected, (#[trigger] s[i]).capture_revision),
        forall|i: int, k: int|
            0 <= k < i < n && (#[trigger] s[k]).capture_revision == (
            #[trigger] s[i]).capture_revision && s[k].source_id == s[i].source_id ==> s[k].origin
                != s[i].origin,
    decreases n,
{
    if n > 0 {
        lemma_supplements(s, selected, (n - 1) as nat);
        assert(importer::selects(selected, s[n - 1].capture_revision));
        assert(is_selected(selected, s[n - 1].capture_revision));
        assert forall|i: int, k: int|
            0 <= k < i < n && (#[trigger] s[k]).capture_revision == (
            #[trigger] s[i]).capture_revision && s[k].source_id == s[i].source_id implies s[k].origin
            != s[i].origin by {
            if i == n - 1 {
                assert(!importer::same_file(s[k], s[i]));
            }
        }
    }
}

proof fn lemma_artifacts(s: Seq<ArtifactInputModel>, selected: Seq<SelectedCapture>, n: nat)
    requires
        n <= s.len(),
        importer::artifacts_refusal(s, selected, n) is None,
    ensures
        forall|i: int| 0 <= i < n ==> is_selected(selected, (#[trigger] s[i]).capture_revision),
        forall|i: int, k: int|
            0 <= k < i < n && (#[trigger] s[k]).capture_revision == (
            #[trigger] s[i]).capture_revision ==> s[k].member_index != s[i].member_index,
    decreases n,
{
    if n > 0 {
        lemma_artifacts(s, selected, (n - 1) as nat);
        assert(importer::selects(selected, s[n - 1].capture_revision));
        assert(is_selected(selected, s[n - 1].capture_revision));
    }
}

/// A policy that is taken up speaks of selected captures only. It gives at most one supplement
/// for an origin of a file and at most one copy for a captured file.
pub proof fn law_policies_speak_of_selected_captures(
    p: PolicyModel,
    selected: Seq<SelectedCapture>,
)
    requires
        importer::policy_refusal(p, selected) is None,
    ensures
        !support::blank(p.import_source),
        forall|i: int|
            0 <= i < p.supplements.len() ==> is_selected(
                selected,
                (#[trigger] p.supplements[i]).capture_revision,
            ),
        forall|i: int, k: int|
            0 <= k < i < p.supplements.len() && (#[trigger] p.supplements[k]).capture_revision == (
            #[trigger] p.supplements[i]).capture_revision && p.supplements[k].source_id
                == p.supplements[i].source_id ==> p.supplements[k].origin
                != p.supplements[i].origin,
        forall|i: int|
            0 <= i < p.artifacts.len() ==> is_selected(
                selected,
                (#[trigger] p.artifacts[i]).capture_revision,
            ),
        forall|i: int, k: int|
            0 <= k < i < p.artifacts.len() && (#[trigger] p.artifacts[k]).capture_revision == (
            #[trigger] p.artifacts[i]).capture_revision ==> p.artifacts[k].member_index
                != p.artifacts[i].member_index,
        p.overlap matches Some(reason) ==> !support::blank(reason),
        p.keyword_overlap matches Some(reason) ==> !support::blank(reason),
{
    reveal(importer::policy_refusal);
    lemma_supplements(p.supplements, selected, p.supplements.len());
    lemma_artifacts(p.artifacts, selected, p.artifacts.len());
}

/// A supplement is what a pin asks for.
pub open spec fn answers(s: SupplementInputModel, pin: SupplementPin) -> bool {
    s.capture_revision == pin.revision@ && s.source_id == pin.source_id@ && s.origin
        == Origin::Embedded
}

/// A supplement of those given is the only one that a pin asks for, and its document is the one
/// that the pin names.
pub open spec fn is_answered(
    store: EvidenceStore,
    supplements: Seq<SupplementInputModel>,
    pin: SupplementPin,
) -> bool {
    exists|k: int|
        {
            &&& 0 <= k < supplements.len()
            &&& answers(#[trigger] supplements[k], pin)
            &&& forall|j: int|
                0 <= j < supplements.len() && j != k ==> !answers(#[trigger] supplements[j], pin)
            &&& file_metadata::custody_bytes(
                store,
                supplements[k].evidence,
                importer::SUPPLEMENT_LIMIT as nat,
            ) matches Ok(bytes) && outside::blake3_hex(bytes) == pin.proof_blake3@
        }
}

proof fn lemma_documents(
    store: EvidenceStore,
    pins: Seq<SupplementPin>,
    supplements: Seq<SupplementInputModel>,
    n: nat,
)
    requires
        n <= pins.len(),
        importer::documents_left(store, pins, supplements, n) is Ok,
    ensures
        forall|i: int|
            0 <= i < n ==> (#[trigger] pins[i]).origin@ == "embedded"@ && is_answered(
                store,
                supplements,
                pins[i],
            ),
    decreases n,
{
    if n > 0 {
        lemma_documents(store, pins, supplements, (n - 1) as nat);
        let pin = pins[n - 1];
        let q = importer::supplements_pin(pin);
        let all = support::positions(supplements, q, supplements.len());
        record_laws::lemma_positions(supplements, q, supplements.len());
        let k = all[0];
        assert(q(supplements[k]));
        assert(answers(supplements[k], pin));
        assert forall|j: int| 0 <= j < supplements.len() && j != k implies !answers(
            #[trigger] supplements[j],
            pin,
        ) by {
            if answers(supplements[j], pin) {
                assert(q(supplements[j]));
                assert(all.contains(j));
            }
        }
        assert(is_answered(store, supplements, pin));
    }
}

/// A run begins only where every supplement that its source was sealed with has its own
/// document, retained whole and with the digest that it was sealed with, and no other one is
/// given.
pub proof fn law_sealed_supplements_have_their_documents(
    store: EvidenceStore,
    pins: Seq<SupplementPin>,
    supplements: Seq<SupplementInputModel>,
)
    requires
        importer::supplements_checked(store, pins, supplements) is Ok,
    ensures
        supplements.len() == pins.len(),
        forall|i: int|
            0 <= i < pins.len() ==> (#[trigger] pins[i]).origin@ == "embedded"@ && is_answered(
                store,
                supplements,
                pins[i],
            ),
{
    lemma_documents(store, pins, supplements, pins.len());
}

/// A stage that waits for something outside stays where it is until that is complete, and
/// goes on to the next stage once it is.
pub proof fn law_waiting_stages_wait(
    c: Catalog,
    binding: Seq<char>,
    id: Seq<char>,
    event: EventModel,
    k: int,
    runs: RunsModel,
    step: StepModel,
)
    requires
        import_laws::is_run(c, id, k),
        importer::stepped(c, binding, id, event) == Ok::<(RunsModel, StepModel), MigrationError>(
            (runs, step),
        ),
    ensures
        ({
            let before = c.migration.runs@.runs[k].progress;
            &&& before.stage == Stage::Custody ==> (event matches EventModel::Retained { complete }
                && (complete <==> step.progress.stage == Stage::SupplementCustody) && (!complete
                ==> runs == c.migration.runs@ && step.progress == before))
            &&& before.stage == Stage::Index ==> (event matches EventModel::Indexed { complete } && (
            complete <==> step.progress.stage == Stage::Files) && (!complete ==> runs
                == c.migration.runs@ && step.progress == before))
            &&& before.stage == Stage::Reconciliation ==> (
            event matches EventModel::Reconciled { complete } && (complete <==> step.progress.stage
                == Stage::Complete) && (complete ==> step.progress.complete) && (
            !complete ==> runs == c.migration.runs@ && step.progress == before))
            &&& before.stage == Stage::Complete ==> runs == c.migration.runs@ && step.progress
                == before
        }),
{
    reveal(importer::stepped);
    import_laws::lemma_run(c, id, k);
}

/// The copy that a policy names for a captured file.
pub open spec fn names_copy(a: ArtifactInputModel, revision: Seq<char>, member: usize) -> bool {
    a.capture_revision == revision && a.member_index == member
}

/// The custody of captured files asks for a copy where the policy names none, and goes on from a
/// file to the next only once that file is in custody completely, as the copy that the policy
/// names, of this source, capture and manifest.
pub proof fn law_captured_files_are_taken_into_custody_whole(
    c: Catalog,
    before: ProgressModel,
    policy: PolicyModel,
    capture: SelectedCapture,
    record: i64,
    member: artifacts::ArtifactModel,
    runs: RunsModel,
    step: StepModel,
)
    requires
        importer::member_stepped(c, before, policy, capture, record, member) == Ok::<
            (RunsModel, StepModel),
            MigrationError,
        >((runs, step)),
        before.artifact_index < usize::MAX,
    ensures
        step.progress.capture_index == before.capture_index,
        step.progress.stage == before.stage,
        step.progress.artifact_index == before.artifact_index || step.progress.artifact_index
            == before.artifact_index + 1,
        (forall|k: int|
            0 <= k < policy.artifacts.len() ==> !names_copy(
                #[trigger] policy.artifacts[k],
                capture.revision@,
                before.artifact_index,
            )) <==> step.needs_decision is Some,
        step.progress.artifact_index == before.artifact_index ==> runs == c.migration.runs@,
        step.progress.artifact_index != before.artifact_index ==> exists|k: int, x: int, e: int|
            #![trigger policy.artifacts[k], c.migration.artifacts@[x], c.evidence.rows@[e]]
            {
                &&& 0 <= k < policy.artifacts.len()
                &&& 0 <= x < c.migration.artifacts@.len()
                &&& 0 <= e < c.evidence.rows@.len()
                &&& names_copy(policy.artifacts[k], capture.revision@, before.artifact_index)
                &&& c.migration.artifacts@[x].retained_capture_record == record
                &&& c.migration.artifacts@[x].member_index == before.artifact_index
                &&& c.migration.artifacts@[x].descriptor.artifact == member
                &&& c.migration.artifacts@[x].descriptor.request.mapping
                    == policy.artifacts[k].mapping
                &&& c.migration.artifacts@[x].descriptor.selected_input == before.input
                &&& c.migration.artifacts@[x].descriptor.capture_revision == capture.revision@
                &&& c.migration.artifacts@[x].descriptor.manifest_blake3
                    == capture.manifest_blake3@
                &&& c.evidence.rows@[e].id@ == c.migration.artifacts@[x].evidence
                &&& c.evidence.rows@[e].complete
            },
{
    let q = importer::copy_of(capture.revision@, before.artifact_index);
    support::lemma_first_where(policy.artifacts, q);
    match support::first_where(policy.artifacts, q) {
        None => {
            assert forall|k: int| 0 <= k < policy.artifacts.len() implies !names_copy(
                #[trigger] policy.artifacts[k],
                capture.revision@,
                before.artifact_index,
            ) by {
                assert(!q(policy.artifacts[k]));
            }
        },
        Some(k) => {
            assert(names_copy(policy.artifacts[k], capture.revision@, before.artifact_index));
            let rows = c.migration.artifacts@;
            support::lemma_first_where(rows, artifacts::custody_of(record, before.artifact_index));
            if let Ok((d, e)) = artifacts::custody_found(c, record, before.artifact_index) {
                let x = support::first_where(
                    rows,
                    artifacts::custody_of(record, before.artifact_index),
                )->Some_0;
                lemma_row(c.evidence, rows[x].evidence);
                assert(policy.artifacts[k] == policy.artifacts[k] && rows[x] == rows[x]
                    && c.evidence.rows@[e] == c.evidence.rows@[e]);
            }
        },
    }
}

proof fn lemma_row(store: EvidenceStore, id: Seq<char>)
    ensures
        store.row_of(id) matches Some(e) ==> 0 <= e < store.rows@.len() && store.rows@[e].id@ == id,
{
    support::lemma_first_where(store.rows@, crate::catalog_migration::evidence::with_id(id));
}

/// Settings that were interpreted outside are taken only for the image that the source row was
/// imported as, and only where they were looked for at the place that was asked for.
pub proof fn law_settings_go_to_the_image_of_their_row(
    c: Catalog,
    owner: Seq<char>,
    origin: SourceRecordModel,
    facts: DevelopFacts,
    row: RowModel,
)
    requires
        import_steps::developed(c, owner, origin, facts) == Ok::<RowModel, MigrationError>(row),
    ensures
        image_import_laws::is_mapped(c.tables@, owner, origin.source),
        exists|x: int, i: int|
            #![trigger c.tables@.import_map[x], c.tables@.images[i]]
            0 <= x < c.tables@.import_map.len() && 0 <= i < c.tables@.images.len()
                && c.tables@.import_map[x].import_source == owner
                && c.tables@.import_map[x].source_id == origin.source.identity
                && c.tables@.import_map[x].capture_revision == origin.source.capture_revision
                && c.tables@.images[i].id == c.tables@.import_map[x].image_id
                && c.tables@.images[i].asset_id == facts.result@.image.asset_id
                && c.tables@.images[i].variant_id == facts.result@.image.variant_id,
        facts.result@.extraction matches Some(e) ==> e.settings_path == support::models(
            facts.settings_path@,
        ),
        row == RowModel::Applied(
            importer::OutcomeModel::Metadata {
                input_digest: facts.result@.input_digest,
                state: facts.result@.state,
                observation: facts.result@.observation,
                reason: facts.result@.reason,
            },
        ),
{
    let m = c.tables@;
    let q = lookups::mapping_for(
        owner,
        origin.source.capture_revision,
        origin.source.table,
        origin.source.identity,
    );
    support::lemma_first_where(m.import_map, q);
    let x = m.mapping_at(
        owner,
        origin.source.capture_revision,
        origin.source.table,
        origin.source.identity,
    )->Some_0;
    support::lemma_first_where(m.images, lookups::image_with_id(m.import_map[x].image_id));
    let i = m.image_at(m.import_map[x].image_id)->Some_0;
    assert(m.import_map[x].import_source == owner && m.images[i].id == m.import_map[x].image_id);
}

} // verus!

//! The run of a selected import, and the repair of what it decided.
use photo_catalog::catalog::Catalog;
use photo_catalog::catalog_images::register::{insert_asset, NewAsset};
use photo_catalog::catalog_images::VariantKey;
use photo_catalog::catalog_migration::current_repair::{
    Extraction, MetadataRow, Phase, Progress, ProjectionFacts, RecipeFacts, RecipeSource,
    RepairFacts,
    ReportRow, Request, ResultRecord, RetainedSelection, SourceSelection,
};
use photo_catalog::catalog_migration::file_metadata::{InputSeal, SelectedCapture};
use photo_catalog::catalog_migration::import_rows::{
    decide_original, is_typed_key_bounded, metadata_outcome, prepared_origin, OriginalDecision,
    TYPED_KEY_BYTES, TYPED_KEY_CELLS,
};
use photo_catalog::catalog_migration::import_steps::DevelopFacts;
use photo_catalog::catalog_migration::importer::{
    Outcome, OverlapPolicy, KeywordOverlap, Policy, RowResult, Stage, Step, StepEvent,
};
use photo_catalog::catalog_migration::retained::{
    Cell, Collection, Coverage, Detail, EvidenceRecord, Field, MigrationError, NamedField,
    NativePath, RowKey,
};
use photo_catalog::tables::ImportMapping;

const INPUT: &str = "input";
const REVISION: &str = "capture";
const OWNER: &str = "lightroom";

fn hash(bytes: &[u8]) -> String {
    blake3::hash(bytes).to_hex().to_string()
}

fn text(name: &str, value: &str) -> NamedField {
    NamedField {
        name: name.to_string(),
        field: Field::Inline(Cell::Text(value.as_bytes().to_vec())),
    }
}

fn record(sequence: i64, collection: Collection, fields: Vec<NamedField>) -> EvidenceRecord {
    EvidenceRecord {
        sequence,
        input: INPUT.to_string(),
        revision: REVISION.to_string(),
        source_rowid: sequence,
        digest: String::new(),
        raw_length: 256,
        complete: true,
        collection,
        fields,
        key_cells: None,
        key: None,
        columns: None,
        cells: None,
        detail: Detail::Unread,
    }
}

fn row(sequence: i64, id: i64, table: &str) -> EvidenceRecord {
    let key = format!("[{{\"Integer\":{id}}}]");
    let mut r = record(
        sequence,
        Collection::Rows,
        vec![
            text("source_id", &format!("s-{id}")),
            text("table_name", table),
            text("key_json", &key),
            text("cells_json", "[]"),
        ],
    );
    r.key_cells = Some(vec![Cell::Integer(id)]);
    r.key = Some(RowKey { key, identity: format!("identity-{id}") });
    r.cells = Some(vec![]);
    r
}

fn policy() -> Policy {
    Policy {
        import_source: OWNER.to_string(),
        overlap: OverlapPolicy::RequireDecision,
        keyword_overlap: KeywordOverlap::RequireDecision,
        artifacts: vec![],
        supplements: vec![],
    }
}

fn result(digest: &str, path: Vec<String>, translated: bool) -> ResultRecord {
    ResultRecord {
        input_digest: digest.to_string(),
        state: if translated { "translated_with_appearance_gaps" } else { "retained_only" }
            .to_string(),
        observation: None,
        reason: None,
        image: VariantKey::master("file"),
        edit_revision: Some(1),
        extraction: Some(Extraction {
            settings_path: path,
            source: "settings-source".to_string(),
            translated,
            document: "{\"kept\":true}".to_string(),
        }),
    }
}

/// A catalog with two image rows, their settings and a capture of no files.
fn fixture() -> Catalog {
    let mut c = Catalog::new(1);
    let mut records = vec![
        row(1, 20, "Adobe_images"),
        row(2, 21, "Adobe_images"),
        row(3, 30, "Adobe_imageDevelopSettings"),
    ];
    for (sequence, id, table) in [
        (4, 20, "Adobe_images"),
        (5, 21, "Adobe_images"),
        (6, 30, "Adobe_imageDevelopSettings"),
    ] {
        records.push(record(
            sequence,
            Collection::Entities,
            vec![
                text("source_id", &format!("s-{id}")),
                text("table_name", table),
                text("local_key", &format!("{{\"Integer\":{id}}}")),
            ],
        ));
    }
    records.push(record(
        7,
        Collection::References,
        vec![
            text("source_id", "s-20"),
            text("field", "developSettingsIDCache"),
            text("target_table", "Adobe_imageDevelopSettings"),
            text("target_key", "{\"Integer\":30}"),
        ],
    ));
    let mut capture = record(
        8,
        Collection::Captures,
        vec![text("manifest", "{}")],
    );
    capture.detail = Detail::Capture(photo_catalog::catalog_migration::artifacts::CaptureDetail {
        manifest: photo_catalog::catalog_migration::artifacts::Manifest {
            protocol: 1,
            state: "captured".to_string(),
            revision_id: Some(REVISION.to_string()),
            artifacts: vec![],
        },
        artifacts_blake3: REVISION.to_string(),
    });
    records.push(capture);
    for (sequence, name) in [(9, "Adobe_images"), (10, "Adobe_imageDevelopSettings")] {
        let mut table = record(
            sequence,
            Collection::Tables,
            vec![text("name", name), text("columns_json", "[]")],
        );
        table.columns = Some(vec![]);
        records.push(table);
    }
    c.migration.retained.records = records;
    c.migration.retained.coverage.push(Coverage {
        input: INPUT.to_string(),
        revision: REVISION.to_string(),
        complete: true,
        keys_complete: true,
    });
    c.migration.files.seals.push(InputSeal {
        id: INPUT.to_string(),
        selected: vec![SelectedCapture {
            revision: REVISION.to_string(),
            manifest_blake3: hash(b"{}"),
        }],
        supplements: vec![],
    });
    insert_asset(
        &mut c.tables,
        &NewAsset {
            id: "file".to_string(),
            location: b"/file".to_vec(),
            fingerprint: None,
            state: "offline".to_string(),
        },
    )
    .unwrap();
    c.tables.import_map.push(ImportMapping {
        import_source: OWNER.to_string(),
        capture_revision: REVISION.to_string(),
        source_table: "Adobe_images".to_string(),
        source_id: "identity-20".to_string(),
        input_digest: "digest".to_string(),
        adapter_version: "fixture".to_string(),
        image_id: "file".to_string(),
    });
    c
}

fn kept(record: i64, reason: &str) -> StepEvent {
    StepEvent::Row {
        record,
        result: RowResult::Applied(Outcome::Retained { reason: reason.to_string() }),
    }
}

fn step(c: &mut Catalog, id: &str, old: &ResultRecord) -> Step {
    let progress = c.selected_import_progress(id).ok().unwrap();
    let next = {
        let table = progress.stage.table();
        let after = progress.cursor.unwrap_or(0);
        table.and_then(|t| {
            c.migration
                .retained
                .records
                .iter()
                .find(|r| {
                    r.collection == Collection::Rows
                        && r.sequence > after
                        && r.read_text("table_name", 1024).ok().as_deref() == Some(t)
                })
                .map(|r| r.sequence)
        })
    };
    let event = match progress.stage {
        Stage::Custody => StepEvent::Retained { complete: true },
        Stage::Index => StepEvent::Indexed { complete: true },
        Stage::Reconciliation => StepEvent::Reconciled { complete: true },
        Stage::CurrentDevelop => match next {
            Some(1) => StepEvent::Develop(DevelopFacts {
                settings_path: old
                    .extraction
                    .as_ref()
                    .map_or(vec![], |e| e.settings_path.clone()),
                result: old.clone(),
            }),
            _ => StepEvent::Nothing,
        },
        Stage::Masters | Stage::VirtualCopies => StepEvent::Nothing,
        _ => match next {
            Some(record) => kept(record, "kept"),
            None => StepEvent::Nothing,
        },
    };
    c.step_selected_import(INPUT, id, event).ok().unwrap()
}

/// A complete run whose current settings were looked for in the wrong place.
fn old_complete(old: &ResultRecord) -> (Catalog, String) {
    completed(fixture(), old)
}

fn completed(mut c: Catalog, old: &ResultRecord) -> (Catalog, String) {
    let run = c.begin_selected_import(INPUT, &policy()).ok().unwrap();
    for _ in 0..200 {
        if step(&mut c, &run.id, old).progress.complete {
            break;
        }
    }
    assert!(c.selected_import_progress(&run.id).ok().unwrap().complete);
    c.migration.repairs.metadata.push(MetadataRow {
        image_source: "identity-20".to_string(),
        payload_source: "identity-30".to_string(),
        slot: "current_develop".to_string(),
        owner: OWNER.to_string(),
        input_digest: old.input_digest.clone(),
        retained_record: 3,
        result: b"the old result".to_vec(),
        record: old.clone(),
    });
    c.migration.repairs.reports.push(ReportRow {
        run: run.id.clone(),
        revision: REVISION.to_string(),
        report: b"the old report".to_vec(),
        epoch: 5,
    });
    c.migration.repairs.epoch = 5;
    (c, run.id)
}

fn request(c: &Catalog, run: &str) -> Request {
    let p = c.selected_import_progress(run).ok().unwrap();
    let document = format!(
        "{{\"id\":\"{}\",\"input\":\"{}\",\"stage\":\"Complete\",\"capture_index\":{},\
         \"artifact_index\":{},\"cursor\":null,\"processed\":{},\"complete\":true}}",
        p.id, p.input, p.capture_index, p.artifact_index, p.processed
    );
    Request {
        run: run.to_string(),
        expected_complete_progress_blake3: hash(document.as_bytes()),
        expected_mapping_epoch: 5,
        reason: "synthetic wrapped-container integration correction".to_string(),
    }
}

fn selection() -> (SourceSelection, RetainedSelection) {
    (
        SourceSelection {
            binding: INPUT.to_string(),
            seal: b"seal".to_vec(),
            approval_blake3: hash(b"approval"),
        },
        RetainedSelection {
            complete: true,
            seal: b"seal".to_vec(),
            approval: b"approval".to_vec(),
        },
    )
}

fn facts(path: Vec<String>) -> RepairFacts {
    RepairFacts {
        input_digest: "old".to_string(),
        settings_path: path.clone(),
        recipe: Some(RecipeFacts {
            current_revision: 1,
            kind: "import".to_string(),
            provenance: Some(RecipeSource {
                adapter: "lightroom-native-metadata-v1".to_string(),
                input_digest: "old".to_string(),
                retained_record: 3,
                capture_revision: REVISION.to_string(),
                table: "Adobe_imageDevelopSettings".to_string(),
                key: "[{\"Integer\":30}]".to_string(),
            }),
            node: 9,
            cursor: Some(9),
            revision: 1,
            digest: "recipe".to_string(),
            stored_digest: "recipe".to_string(),
        }),
        projection: Some(ProjectionFacts {
            result: result("new", path, true),
            key: VariantKey::master("file"),
            image_source: "identity-20".to_string(),
            payload_source: "identity-30".to_string(),
        }),
    }
}

fn wrapped() -> Vec<String> {
    vec!["s".to_string()]
}

fn begin(c: &mut Catalog, r: &Request) -> Result<Progress, MigrationError> {
    let (source, kept) = selection();
    c.begin_current_develop_repair(&source, &kept, r)
}

fn to_project(c: &mut Catalog, id: &str) {
    for _ in 0..10 {
        if c.current_develop_repair_progress(id).ok().unwrap().phase == Phase::Project {
            return;
        }
        c.step_current_develop_repair(INPUT, id, None).ok().unwrap();
    }
    panic!("the repair should have come to its rows");
}

fn finish(c: &mut Catalog, run: &str, id: &str, path: Vec<String>) -> Progress {
    let old = result("old", vec![], false);
    for _ in 0..64 {
        let p = c.current_develop_repair_progress(id).ok().unwrap();
        if p.phase == Phase::Reconciliation
            && !c.selected_import_progress(run).ok().unwrap().complete
        {
            step(c, run, &old);
        }
        let p = c
            .step_current_develop_repair(INPUT, id, Some(facts(path.clone())))
            .ok()
            .unwrap()
            .progress;
        if p.complete {
            return p;
        }
    }
    panic!("the repair should have completed");
}

#[test]
fn runs_walk_their_stages_and_are_found_again() {
    let mut c = fixture();
    let run = c.begin_selected_import(INPUT, &policy()).ok().unwrap();
    assert_eq!(run.stage, Stage::Custody);
    assert!(c.begin_selected_import(INPUT, &policy()).ok().unwrap().same_as(&run));
    assert_eq!(c.migration.runs.runs.len(), 1);
    assert_eq!(
        c.step_selected_import(INPUT, &run.id, StepEvent::Nothing).err(),
        Some(MigrationError::EventDiffers)
    );
    let waiting =
        c.step_selected_import(INPUT, &run.id, StepEvent::Retained { complete: false }).ok().unwrap();
    assert!(waiting.progress.same_as(&run));
    let old = result("old", vec![], false);
    let mut last = step(&mut c, &run.id, &old).progress;
    assert_eq!(last.stage, Stage::SupplementCustody);
    let mut rows = 0;
    while !last.complete {
        let s = step(&mut c, &run.id, &old);
        if s.outcome.is_some() {
            rows += 1;
        }
        last = s.progress;
    }
    assert_eq!(last.stage, Stage::Complete);
    assert_eq!(last.processed, rows);
    assert_eq!(c.migration.runs.items.len() as u64, rows);
    // A complete run stays as it is.
    assert!(step(&mut c, &run.id, &old).progress.same_as(&last));
    assert_eq!(
        c.selected_import_progress("short").err(),
        Some(MigrationError::IdentityBounds)
    );
    assert_eq!(
        c.selected_import_progress(&"0".repeat(64)).err(),
        Some(MigrationError::RunMissing)
    );
    assert_eq!(
        c.begin_selected_import("foreign", &policy()).err(),
        Some(MigrationError::SealMissing)
    );
    let mut blank = policy();
    blank.import_source = " ".to_string();
    assert_eq!(
        c.begin_selected_import(INPUT, &blank).err(),
        Some(MigrationError::OwnerBounds)
    );
}

#[test]
fn decisions_hold_a_run_where_it_is() {
    let mut c = fixture();
    let run = c.begin_selected_import(INPUT, &policy()).ok().unwrap();
    let old = result("old", vec![], false);
    loop {
        let p = c.selected_import_progress(&run.id).ok().unwrap();
        if p.stage == Stage::ImageFields {
            break;
        }
        step(&mut c, &run.id, &old);
    }
    // The rows of images are worked on without being told of.
    assert_eq!(c.migration.runs.items.iter().filter(|i| i.stage == Stage::Masters).count(), 2);
    let before = c.selected_import_progress(&run.id).ok().unwrap();
    let held = c
        .step_selected_import(
            INPUT,
            &run.id,
            StepEvent::Row { record: 1, result: RowResult::NeedsDecision("which?".to_string()) },
        )
        .ok()
        .unwrap();
    assert_eq!(held.needs_decision.as_deref(), Some("which?"));
    assert!(held.progress.same_as(&before));
    assert_eq!(
        c.step_selected_import(INPUT, &run.id, kept(2, "not yet")).err(),
        Some(MigrationError::EventDiffers)
    );
    let went = c.step_selected_import(INPUT, &run.id, kept(1, "kept")).ok().unwrap();
    assert_eq!(went.progress.processed, before.processed + 1);
    assert_eq!(went.progress.cursor, Some(1));
}

#[test]
fn wrapped_repair_preserves_archives_maps_variants_and_resumes() {
    let old = result("old", vec![], false);
    let (mut c, run) = old_complete(&old);
    let processed = c.selected_import_progress(&run).ok().unwrap().processed;
    let mappings = c.tables.import_map.len();
    let req = request(&c, &run);
    let start = begin(&mut c, &req).ok().unwrap();
    assert!(!c.selected_import_progress(&run).ok().unwrap().complete);
    assert_eq!(
        c.step_selected_import(INPUT, &run, StepEvent::Reconciled { complete: true }).err(),
        Some(MigrationError::RepairPending)
    );
    to_project(&mut c, &start.id);
    assert_eq!(c.migration.repairs.archived.len(), 1);
    c.step_current_develop_repair(INPUT, &start.id, Some(facts(wrapped()))).ok().unwrap();
    let checkpoint = c.current_develop_repair_progress(&start.id).ok().unwrap();
    assert_eq!(checkpoint.repaired, 1);
    let again = begin(&mut c, &req).ok().unwrap();
    assert_eq!(again.after_record, checkpoint.after_record);
    assert_eq!(again.repaired, 1);
    let done = finish(&mut c, &run, &start.id, wrapped());
    assert_eq!((done.examined, done.repaired, done.unchanged), (2, 1, 1));
    assert!(c.selected_import_progress(&run).ok().unwrap().complete);
    assert_eq!(c.selected_import_progress(&run).ok().unwrap().processed, processed);
    assert_eq!(c.tables.import_map.len(), mappings);
    assert_eq!(c.migration.repairs.epoch, req.expected_mapping_epoch);
    let archived = c.current_develop_repair_predecessor(&start.id, 1).ok().unwrap();
    assert_eq!(
        archived.outcome,
        b"{\"Metadata\":{\"input_digest\":\"old\",\"state\":\"retained_only\",\
          \"observation\":null,\"reason\":null}}"
    );
    let (header, bytes) = archived.metadata.unwrap();
    assert_eq!(header.input_digest, "old");
    assert_eq!(bytes, b"the old result");
    let written: &[u8] = b"{\"input_digest\":\"new\",\"state\":\"translated_with_appearance_gaps\",\
        \"observation\":null,\"reason\":null,\"image\":{\"asset_id\":\"file\",\
        \"variant_id\":\"master\"},\"edit_revision\":1,\"extraction\":{\"kept\":true}}";
    assert_eq!(archived.new_result_digest, Some(hash(written)));
    assert_eq!(c.migration.repairs.metadata[0].result, written);
    // A complete repair is found again and does nothing more.
    assert!(begin(&mut c, &req).ok().unwrap().complete);
    assert!(c
        .step_current_develop_repair(INPUT, &start.id, None)
        .ok()
        .unwrap()
        .progress
        .complete);
}

#[test]
fn repair_transaction_failure_restores_recipe_receipts_archive_and_cursor() {
    let old = result("old", vec![], false);
    let (mut c, run) = old_complete(&old);
    let req = request(&c, &run);
    let p = begin(&mut c, &req).ok().unwrap();
    to_project(&mut c, &p.id);
    let before = c.current_develop_repair_progress(&p.id).ok().unwrap();
    let mut broken = facts(wrapped());
    broken.projection = None;
    assert_eq!(
        c.step_current_develop_repair(INPUT, &p.id, Some(broken)).err(),
        Some(MigrationError::ExtractionDiffers)
    );
    assert_eq!(
        c.step_current_develop_repair(INPUT, &p.id, None).err(),
        Some(MigrationError::EventDiffers)
    );
    let after = c.current_develop_repair_progress(&p.id).ok().unwrap();
    assert_eq!(after.after_record, before.after_record);
    assert_eq!(after.examined, before.examined);
    assert!(c.migration.repairs.items.is_empty());
    assert_eq!(c.migration.repairs.metadata[0].result, b"the old result");
    let s = c.step_current_develop_repair(INPUT, &p.id, Some(facts(wrapped()))).ok().unwrap();
    assert_eq!(s.progress.repaired, 1);
}

#[test]
fn repair_refuses_user_edits_wrong_epoch_progress_and_outcome() {
    let old = result("old", vec![], false);
    let (mut c, run) = old_complete(&old);
    let req = request(&c, &run);
    let mut bad = req.clone();
    bad.expected_mapping_epoch += 1;
    assert!(begin(&mut c, &bad).is_err());
    bad = req.clone();
    bad.expected_complete_progress_blake3 = "a".repeat(64);
    assert_eq!(begin(&mut c, &bad).err(), Some(MigrationError::ProgressDiffers));
    assert!(c.migration.repairs.repairs.is_empty());
    let p = begin(&mut c, &req).ok().unwrap();
    to_project(&mut c, &p.id);
    let before = c.current_develop_repair_progress(&p.id).ok().unwrap();
    c.migration.repairs.metadata[0].record.reason = Some("wrong".to_string());
    assert_eq!(
        c.step_current_develop_repair(INPUT, &p.id, Some(facts(wrapped()))).err(),
        Some(MigrationError::AssociationDiffers)
    );
    c.migration.repairs.metadata[0].record.reason = None;
    let mut corrupt = facts(wrapped());
    corrupt.projection.as_mut().unwrap().result.extraction.as_mut().unwrap().source =
        "other".to_string();
    assert_eq!(
        c.step_current_develop_repair(INPUT, &p.id, Some(corrupt)).err(),
        Some(MigrationError::ExtractionDiffers)
    );
    let mut edited = facts(wrapped());
    edited.recipe.as_mut().unwrap().current_revision = 2;
    assert_eq!(
        c.step_current_develop_repair(INPUT, &p.id, Some(edited)).err(),
        Some(MigrationError::RecipeChanged)
    );
    let after = c.current_develop_repair_progress(&p.id).ok().unwrap();
    assert_eq!(after.examined, before.examined);
    assert_eq!(after.after_record, before.after_record);
}

#[test]
fn unsupported_wrapped_settings_remain_explicit_and_archive_corruption_refused() {
    let old = result("old", vec![], false);
    let (mut c, run) = old_complete(&old);
    let req = request(&c, &run);
    let p = begin(&mut c, &req).ok().unwrap();
    let done = finish(&mut c, &run, &p.id, wrapped());
    assert_eq!(done.repaired, 1);
    let item = c.migration.repairs.items.iter_mut().find(|i| i.record == 1).unwrap();
    if let Some(archive) = &mut item.metadata {
        archive.1 = vec![0, 1];
    }
    assert!(c.current_develop_repair_predecessor(&p.id, 1).is_err());
}

#[test]
fn correctly_bound_projection_is_unchanged_and_foreign_seal_refused() {
    let old = result("old", wrapped(), true);
    // An import looks for the settings where they stand, and nowhere else.
    let mut unbound = fixture();
    let run = unbound.begin_selected_import(INPUT, &policy()).ok().unwrap().id;
    while unbound.selected_import_progress(&run).ok().unwrap().stage != Stage::CurrentDevelop {
        step(&mut unbound, &run, &old);
    }
    let develop = |path: Vec<String>, image: &str| {
        let mut result = old.clone();
        result.image = VariantKey::master(image);
        StepEvent::Develop(DevelopFacts { settings_path: path, result })
    };
    assert_eq!(
        unbound.step_selected_import(INPUT, &run, develop(vec![], "file")).err(),
        Some(MigrationError::ExtractionDiffers)
    );
    assert_eq!(
        unbound.step_selected_import(INPUT, &run, develop(wrapped(), "other")).err(),
        Some(MigrationError::ImageDiffers)
    );
    assert_eq!(
        unbound.step_selected_import(INPUT, &run, StepEvent::Nothing).err(),
        Some(MigrationError::EventDiffers)
    );
    assert!(unbound.step_selected_import(INPUT, &run, develop(wrapped(), "file")).is_ok());
    let (mut c, run) = old_complete(&old);
    let req = request(&c, &run);
    let (mut source, kept) = selection();
    source.seal = b"other seal".to_vec();
    assert_eq!(
        c.begin_current_develop_repair(&source, &kept, &req).err(),
        Some(MigrationError::SelectionDiffers)
    );
    let p = begin(&mut c, &req).ok().unwrap();
    let done = finish(&mut c, &run, &p.id, wrapped());
    assert_eq!((done.examined, done.repaired, done.unchanged), (2, 0, 2));
    assert_eq!(c.migration.repairs.metadata[0].result, b"the old result");
}

#[test]
fn retained_oversized_identity_repairs_without_interpreting_or_stalling() {
    let old = result("old", wrapped(), true);
    let mut c = fixture();
    // A row whose key is too large to be interpreted.
    let mut oversized = row(11, 92, "Adobe_images");
    oversized.fields[2] = text("key_json", &"7".repeat(65537));
    c.migration.retained.records.push(oversized);
    let (mut c, run) = completed(c, &old);
    assert!(matches!(
        prepared_origin(&c.migration.retained, INPUT, REVISION, 11),
        Ok(Err(_))
    ));
    let processed = c.selected_import_progress(&run).ok().unwrap().processed;
    let mappings = c.tables.import_map.len();
    let req = request(&c, &run);
    let repair = begin(&mut c, &req).ok().unwrap();
    let done = finish(&mut c, &run, &repair.id, wrapped());
    assert_eq!((done.examined, done.repaired, done.unchanged), (3, 0, 3));
    let archived = c.current_develop_repair_predecessor(&repair.id, 11).ok().unwrap();
    assert_eq!(
        archived.outcome,
        b"{\"Retained\":{\"reason\":\"Source key_json exceeds supported identity bounds; \
          full row retained\"}}"
    );
    assert_eq!(c.selected_import_progress(&run).ok().unwrap().processed, processed);
    assert_eq!(c.tables.import_map.len(), mappings);
    assert!(archived.metadata.is_none());
    assert_eq!(archived.disposition, "unchanged_nonprojection");
}

#[test]
fn keys_out_of_bounds_are_kept_and_damaged_keys_are_refused() {
    assert!(!is_typed_key_bounded(&vec![]));
    assert!(is_typed_key_bounded(&vec![Cell::Null; TYPED_KEY_CELLS]));
    assert!(!is_typed_key_bounded(&vec![Cell::Null; TYPED_KEY_CELLS + 1]));
    assert!(is_typed_key_bounded(&vec![
        Cell::Text(vec![b'x'; TYPED_KEY_BYTES - 8]),
        Cell::RealBits(0)
    ]));
    assert!(!is_typed_key_bounded(&vec![
        Cell::Blob(vec![0; TYPED_KEY_BYTES - 8]),
        Cell::Integer(1),
        Cell::Text(vec![b'x'])
    ]));
    let mut c = fixture();
    let named = prepared_origin(&c.migration.retained, INPUT, REVISION, 1).ok().unwrap();
    assert_eq!(named.ok().unwrap().retained_record, 1);
    let i = c.migration.retained.records.iter().position(|r| r.sequence == 1).unwrap();
    c.migration.retained.records[i].key_cells = Some(vec![Cell::Null; TYPED_KEY_CELLS + 1]);
    c.migration.retained.records[i].key = None;
    let kept = prepared_origin(&c.migration.retained, INPUT, REVISION, 1).ok().unwrap();
    assert_eq!(
        kept.err().as_deref(),
        Some("Source typed key exceeds supported identity bounds; full row retained")
    );
    c.migration.retained.records[i].key_cells = None;
    assert_eq!(
        prepared_origin(&c.migration.retained, INPUT, REVISION, 1).err(),
        Some(MigrationError::KeyDamaged)
    );
}

#[test]
fn a_repair_is_found_again_where_its_last_step_has_left_it() {
    let old = result("old", vec![], false);
    let (mut c, run) = old_complete(&old);
    let req = request(&c, &run);
    let start = begin(&mut c, &req).ok().unwrap();
    let again = begin(&mut c, &req).ok().unwrap();
    assert_eq!((again.id.as_str(), again.phase), (start.id.as_str(), start.phase));
    to_project(&mut c, &start.id);
    let went = c
        .step_current_develop_repair(INPUT, &start.id, Some(facts(wrapped())))
        .ok()
        .unwrap()
        .progress;
    assert_eq!(went.examined, 1);
    let found = begin(&mut c, &req).ok().unwrap();
    assert_eq!(found.examined, 1);
    assert_eq!(found.after_record, went.after_record);
    assert_eq!(found.phase, Phase::Project);
    assert_eq!(c.migration.repairs.repairs.len(), 1);
}

#[test]
fn a_path_that_is_taken_is_reused_only_where_the_policy_says_so() {
    let path = || NativePath::UnixBytes(b"/photos/a.raw".to_vec());
    let created = decide_original(&policy(), "identity-1", path(), None);
    assert!(matches!(
        created,
        Ok(OriginalDecision::Create { path: NativePath::UnixBytes(p) }) if p == b"/photos/a.raw"
    ));
    let asked = decide_original(&policy(), "identity-1", path(), Some("asset".to_string()));
    assert!(matches!(
        asked,
        Err(RowResult::NeedsDecision(text)) if text == "Source file identity-1 shares an existing path; choose an explicit physical-file reuse policy"
    ));
    let mut reuse = policy();
    reuse.overlap = OverlapPolicy::ReuseExactPath { reason: "the same file".to_string() };
    let reused = decide_original(&reuse, "identity-1", path(), Some("asset".to_string()));
    assert!(matches!(
        reused,
        Ok(OriginalDecision::Reuse { asset_id, expected_path: NativePath::UnixBytes(p) })
            if asset_id == "asset" && p == b"/photos/a.raw"
    ));
    assert!(matches!(
        metadata_outcome("digest", "retained_only", Some(3), None),
        Outcome::Metadata { input_digest, state, observation: Some(3), reason: None }
            if input_digest == "digest" && state == "retained_only"
    ));
}

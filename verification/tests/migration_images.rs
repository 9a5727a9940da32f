//! Images imported from retained rows.
use photo_catalog::catalog::Catalog;
use photo_catalog::catalog_images::register::{insert_asset, reserve_import_asset, NewAsset};
use photo_catalog::catalog_images::VariantKey;
use photo_catalog::catalog_migration::images::{
    has_mapped_image, mapped_image, Decision, OriginalRow, Outcome, Projection, ProjectionResult,
    Role,
};
use photo_catalog::catalog_migration::file_metadata::{InputSeal, SelectedCapture};
use photo_catalog::catalog_migration::import_steps::FileFacts;
use photo_catalog::catalog_migration::import_rows::{
    choose_develop, choose_image, choose_packet, find_link, prepared_origin, MetadataRequest,
};
use photo_catalog::catalog_migration::importer::{
    KeywordOverlap, Outcome as RowOutcome, OverlapPolicy, Policy, RowResult, Stage, StepEvent,
};
use photo_catalog::catalog_migration::proofs::{Link, SourceKey, SourceRecord};
use photo_catalog::catalog_migration::retained::{
    Cell, Collection, Coverage, Detail, EvidenceRecord, Field, MigrationError, NamedField, RowKey,
};
use photo_catalog::tables::{ImportMapping, Tables};
use std::collections::BTreeMap;

const INPUT: &str = "selected-input";
const REVISION: &str = "selected-capture";

fn text(name: &str, value: &str) -> NamedField {
    NamedField {
        name: name.to_string(),
        field: Field::Inline(Cell::Text(value.as_bytes().to_vec())),
    }
}

fn integer(value: i64) -> String {
    format!("{{\"Integer\":{value}}}")
}

fn record(sequence: i64, collection: Collection, fields: Vec<NamedField>) -> EvidenceRecord {
    EvidenceRecord {
        sequence,
        input: INPUT.to_string(),
        revision: REVISION.to_string(),
        source_rowid: sequence,
        digest: String::new(),
        raw_length: 256,
        complete: true,
        collection,
        fields,
        key_cells: None,
        key: None,
        columns: None,
        cells: None,
        detail: Detail::Unread,
    }
}

struct Fixture {
    catalog: Catalog,
    rows: BTreeMap<i64, SourceRecord>,
    tables: BTreeMap<String, i64>,
    references: BTreeMap<(i64, String), i64>,
    entities: BTreeMap<i64, i64>,
}

impl Fixture {
    fn new() -> Fixture {
        let mut catalog = Catalog::new(1);
        let mut records = vec![];
        let mut sequence: i64 = 0;
        let mut tables = BTreeMap::new();
        for (name, columns) in [
            ("AgLibraryFile", vec!["id_local"]),
            (
                "Adobe_images",
                vec!["id_local", "rootFile", "masterImage", "fileFormat", "developSettingsIDCache"],
            ),
            ("Adobe_imageDevelopSettings", vec!["id_local", "text"]),
            ("Adobe_AdditionalMetadata", vec!["id_local", "image", "xmp"]),
        ] {
            sequence += 1;
            let mut r = record(
                sequence,
                Collection::Tables,
                vec![text("name", name), text("columns_json", &format!("{columns:?}"))],
            );
            r.columns = Some(columns.iter().map(|c| c.to_string()).collect());
            records.push(r);
            tables.insert(name.to_string(), sequence);
        }
        let raw = || Cell::Text(b"RAW".to_vec());
        let list: Vec<(i64, &str, Vec<Cell>)> = vec![
            (10, "AgLibraryFile", vec![Cell::Integer(10)]),
            (
                20,
                "Adobe_images",
                vec![Cell::Integer(20), Cell::Integer(10), Cell::Null, raw(), Cell::Integer(30)],
            ),
            (
                21,
                "Adobe_images",
                vec![
                    Cell::Integer(21),
                    Cell::RealBits(10.0f64.to_bits()),
                    Cell::RealBits(20.0f64.to_bits()),
                    raw(),
                    Cell::Integer(31),
                ],
            ),
            (
                22,
                "Adobe_images",
                vec![
                    Cell::Integer(22),
                    Cell::Integer(10),
                    Cell::Integer(0),
                    raw(),
                    Cell::Integer(30),
                ],
            ),
            (
                30,
                "Adobe_imageDevelopSettings",
                vec![Cell::Integer(30), Cell::Text(b"{Exposure2012=1}".to_vec())],
            ),
            (
                31,
                "Adobe_imageDevelopSettings",
                vec![Cell::Integer(31), Cell::Text(b"{Exposure2012=-1}".to_vec())],
            ),
            (
                40,
                "Adobe_AdditionalMetadata",
                vec![Cell::Integer(40), Cell::Integer(20), Cell::Blob(b"xmp".to_vec())],
            ),
        ];
        let mut rows = BTreeMap::new();
        for (id, table, cells) in &list {
            sequence += 1;
            let key = format!("[{}]", integer(*id));
            let mut r = record(
                sequence,
                Collection::Rows,
                vec![
                    text("source_id", &format!("source-{id}")),
                    text("table_name", table),
                    text("key_json", &key),
                    text("cells_json", &format!("{cells:?}")),
                ],
            );
            let identity = format!("identity-{id}");
            r.key_cells = Some(vec![Cell::Integer(*id)]);
            r.key = Some(RowKey { key: key.clone(), identity: identity.clone() });
            r.cells = Some(cells.clone());
            records.push(r);
            rows.insert(
                *id,
                SourceRecord {
                    retained_record: sequence,
                    source: SourceKey {
                        capture_revision: REVISION.to_string(),
                        table: table.to_string(),
                        key,
                        identity,
                    },
                },
            );
        }
        let mut entities = BTreeMap::new();
        for (id, table, _) in &list {
            sequence += 1;
            records.push(record(
                sequence,
                Collection::Entities,
                vec![
                    text("source_id", &format!("source-{id}")),
                    text("table_name", table),
                    text("local_key", &integer(*id)),
                ],
            ));
            entities.insert(*id, sequence);
        }
        let mut references = BTreeMap::new();
        for (from, field, table, key) in [
            (20, "rootFile", "AgLibraryFile", 10),
            (20, "developSettingsIDCache", "Adobe_imageDevelopSettings", 30),
            (21, "rootFile", "AgLibraryFile", 10),
            (21, "developSettingsIDCache", "Adobe_imageDevelopSettings", 31),
            (21, "masterImage", "Adobe_images", 20),
            (22, "rootFile", "AgLibraryFile", 10),
            (22, "developSettingsIDCache", "Adobe_imageDevelopSettings", 30),
            (40, "image", "Adobe_images", 20),
        ] {
            sequence += 1;
            records.push(record(
                sequence,
                Collection::References,
                vec![
                    text("source_id", &format!("source-{from}")),
                    text("field", field),
                    text("target_table", table),
                    text("target_key", &integer(key)),
                ],
            ));
            references.insert((from, field.to_string()), sequence);
        }
        sequence += 1;
        records.push(record(
            sequence,
            Collection::Packets,
            vec![text("source_id", "source-40"), text("origin", "catalog")],
        ));
        catalog.migration.retained.records = records;
        catalog.migration.retained.coverage.push(Coverage {
            input: INPUT.to_string(),
            revision: REVISION.to_string(),
            complete: true,
            keys_complete: true,
        });
        Fixture { catalog, rows, tables, references, entities }
    }

    fn link(&self, from: i64, field: &str, to: i64) -> Link {
        Link {
            reference_record: self.references[&(from, field.to_string())],
            target_entity_record: self.entities[&to],
            field: field.to_string(),
            target: self.rows[&to].clone(),
        }
    }

    fn request(&self, id: i64) -> Projection {
        Projection {
            origin: self.rows[&id].clone(),
            retained_table: self.tables["Adobe_images"],
            import_source: "lightroom".to_string(),
            decision: Decision::Register {
                file: self.link(id, "rootFile", 10),
                role: if id == 21 {
                    Role::Virtual { master: self.link(id, "masterImage", 20) }
                } else {
                    Role::Master
                },
                label: format!("source-{id}"),
            },
        }
    }

    fn original(&mut self) -> String {
        reserve_import_asset(&mut self.catalog.tables, "file", "lightroom").unwrap();
        insert_asset(
            &mut self.catalog.tables,
            &NewAsset {
                id: "file".to_string(),
                location: b"/missing/2014/January/photo.CR2".to_vec(),
                fingerprint: None,
                state: "offline".to_string(),
            },
        )
        .unwrap();
        self.catalog.migration.images.originals.push(OriginalRow {
            source_identity: "identity-10".to_string(),
            asset_id: "file".to_string(),
            import_source: "lightroom".to_string(),
            decision: String::new(),
        });
        "file".to_string()
    }

    fn project(&mut self, id: i64) -> Result<ProjectionResult, MigrationError> {
        let request = self.request(id);
        self.catalog.project_migration_image(true, &request)
    }

    fn policy(&self) -> Policy {
        Policy {
            import_source: "lightroom".to_string(),
            overlap: OverlapPolicy::RequireDecision,
            keyword_overlap: KeywordOverlap::RequireDecision,
            artifacts: vec![],
            supplements: vec![],
        }
    }
}

fn image(result: &ProjectionResult) -> (String, VariantKey) {
    match &result.outcome {
        Outcome::Image { id, key } => (id.clone(), key.clone()),
        Outcome::Retained { .. } => panic!("image expected"),
    }
}

fn same_result(a: &ProjectionResult, b: &ProjectionResult) -> bool {
    a.source_identity == b.source_identity
        && a.input_digest == b.input_digest
        && image(a).0 == image(b).0
        && image(a).1.same_as(&image(b).1)
}

#[test]
fn masters_and_virtual_copies_share_file_without_merging_identity() {
    let mut t = Fixture::new();
    let asset = t.original();
    let request = t.request(20);
    let master = t.project(20).unwrap();
    let virtual_copy = t.project(21).unwrap();
    let other_master = t.project(22).unwrap();
    let (master_id, master_key) = image(&master);
    let (copy_id, copy_key) = image(&virtual_copy);
    let (other_id, other_key) = image(&other_master);
    assert!(master_key.same_as(&VariantKey::master(&asset)));
    assert_eq!(copy_key.asset_id, asset);
    assert_eq!(other_key.asset_id, asset);
    assert_ne!(master_id, copy_id);
    assert_ne!(master_id, other_id);
    assert_ne!(copy_id, other_id);
    assert_eq!(
        t.catalog.image(&copy_key).unwrap().master_sequence,
        Some(t.catalog.image(&master_key).unwrap().sequence)
    );
    assert_eq!(t.catalog.browse_images(0, 100).unwrap().len(), 3);
    // A replay needs no sealed source and makes no other images.
    assert!(same_result(&t.catalog.project_migration_image(false, &request).unwrap(), &master));
    assert!(same_result(&t.project(21).unwrap(), &virtual_copy));
    assert_eq!(t.catalog.browse_images(0, 100).unwrap().len(), 3);
}

#[test]
fn forged_relationships_missing_parents_and_changed_decisions_do_not_mutate() {
    let mut t = Fixture::new();
    t.original();
    assert_eq!(t.project(21).err(), Some(MigrationError::ParentMissing));
    let mut request = t.request(20);
    request.retained_table = t.tables["AgLibraryFile"];
    assert!(t.catalog.project_migration_image(true, &request).is_err());
    request = t.request(21);
    if let Decision::Register { role, .. } = &mut request.decision {
        *role = Role::Master;
    }
    assert_eq!(
        t.catalog.project_migration_image(true, &request).err(),
        Some(MigrationError::RoleUnproven)
    );
    let master = t.project(20).unwrap();
    let mut changed = t.request(20);
    if let Decision::Register { label, .. } = &mut changed.decision {
        *label = "changed".to_string();
    }
    assert_eq!(
        t.catalog.project_migration_image(false, &changed).err(),
        Some(MigrationError::DecisionChanged)
    );
    assert!(same_result(&t.project(20).unwrap(), &master));
    assert_eq!(t.catalog.migration.images.rows.len(), 1);
}

#[test]
fn image_checkpoint_failure_rolls_back_reserved_master_claim() {
    let mut t = Fixture::new();
    t.original();
    let request = t.request(20);
    t.catalog.tables.image_high = i64::MAX;
    t.catalog.tables.history_high = i64::MAX;
    assert_eq!(
        t.catalog.project_migration_image(false, &request).err(),
        Some(MigrationError::SealNeeded)
    );
    assert!(t.catalog.tables.import_map.is_empty());
    assert_eq!(t.catalog.tables.reservations.len(), 1);
    assert!(t.catalog.migration.images.rows.is_empty());
    t.project(20).unwrap();
    assert_eq!(t.catalog.tables.reservations.len(), 0);
}

#[test]
fn metadata_mapping_uses_bounded_complete_identity_lookup() {
    let source = |key: i64| SourceKey {
        capture_revision: "a".repeat(64),
        table: "Adobe_images".to_string(),
        key: format!("[{}]", integer(key)),
        identity: format!("Adobe_images/integer/{key}"),
    };
    let mut db = Tables::new();
    for key in 0..20_000 {
        let row = source(key);
        db.import_map.push(ImportMapping {
            import_source: "owner".to_string(),
            capture_revision: row.capture_revision,
            source_table: row.table,
            source_id: row.identity,
            input_digest: "input".to_string(),
            adapter_version: "fixture".to_string(),
            image_id: format!("image-{key}"),
        });
    }
    let matched = source(19_999);
    let missing = source(20_000);
    let mut other_capture = matched.clone();
    other_capture.capture_revision = "b".repeat(64);
    let mut other_table = matched.clone();
    other_table.table = "AgLibraryFile".to_string();
    let mut other_typed_key = matched.clone();
    other_typed_key.identity = "Adobe_images/text/19999".to_string();
    for (owner, row, expected) in [
        ("owner", &matched, true),
        ("owner", &missing, false),
        ("other-owner", &matched, false),
        ("owner", &other_capture, false),
        ("owner", &other_table, false),
        ("owner", &other_typed_key, false),
    ] {
        assert_eq!(has_mapped_image(&db, owner, row), expected);
    }
    assert!(mapped_image(&db, "owner", &matched).is_none());
}

#[test]
fn rows_can_be_retained_without_an_image() {
    let mut t = Fixture::new();
    let mut request = t.request(22);
    request.decision = Decision::Retain {
        reason: "Oversized source image row retained for review".to_string(),
    };
    let kept = t.catalog.project_migration_image(false, &request).unwrap();
    assert!(matches!(kept.outcome, Outcome::Retained { .. }));
    assert!(t.catalog.tables.images.is_empty());
    request.decision = Decision::Retain { reason: "  ".to_string() };
    assert_eq!(
        t.catalog.project_migration_image(false, &request).err(),
        Some(MigrationError::ReasonBounds)
    );
    let mut long = t.request(20);
    if let Decision::Register { label, .. } = &mut long.decision {
        *label = "x".repeat(4097);
    }
    assert_eq!(
        t.catalog.project_migration_image(true, &long).err(),
        Some(MigrationError::LabelBounds)
    );
}

#[test]
fn importers_choose_what_becomes_of_image_rows() {
    let mut t = Fixture::new();
    t.original();
    let policy = t.policy();
    let origin = t.rows[&20].clone();
    let found = prepared_origin(&t.catalog.migration.retained, INPUT, REVISION, origin.retained_record)
        .ok()
        .unwrap()
        .ok()
        .unwrap();
    assert_eq!(found.source.identity, "identity-20");
    let link = find_link(
        &t.catalog.migration.retained,
        INPUT,
        &origin,
        "developSettingsIDCache",
        "Adobe_imageDevelopSettings",
    )
    .ok()
    .unwrap()
    .ok()
    .unwrap();
    assert_eq!(link.target.source.identity, "identity-30");
    // A row is an image of one role only.
    let master = choose_image(
        &t.catalog.migration.retained,
        &t.catalog.migration.images,
        INPUT,
        "lightroom",
        &origin,
        Stage::Masters,
    )
    .ok()
    .unwrap();
    assert!(master.is_some());
    let other = choose_image(
        &t.catalog.migration.retained,
        &t.catalog.migration.images,
        INPUT,
        "lightroom",
        &origin,
        Stage::VirtualCopies,
    )
    .ok()
    .unwrap();
    assert!(other.is_none());
    match t.catalog.import_image(INPUT, &policy, &origin, Stage::Masters).ok().unwrap() {
        RowResult::Applied(RowOutcome::Image(Outcome::Image { id, .. })) => assert_eq!(id, "file"),
        _ => panic!("image expected"),
    }
    assert!(matches!(
        t.catalog.import_image(INPUT, &policy, &origin, Stage::VirtualCopies).ok().unwrap(),
        RowResult::Applied(RowOutcome::OtherImageRole)
    ));
    match choose_develop(
        &t.catalog.tables,
        &t.catalog.migration.retained,
        INPUT,
        &policy,
        &origin,
        vec!["s".to_string()],
    )
    .ok()
    .unwrap()
    {
        MetadataRequest::CurrentDevelop {
            settings,
            settings_path,
            expected_edit_revision,
            ..
        } => {
            assert_eq!(settings.target.source.identity, "identity-30");
            assert_eq!(settings_path, vec!["s".to_string()]);
            assert_eq!(expected_edit_revision, 0);
        }
        _ => panic!("settings expected"),
    }
    match choose_packet(
        &t.catalog.tables,
        &t.catalog.migration.retained,
        INPUT,
        &policy,
        &t.rows[&40],
    )
    .ok()
    .unwrap()
    {
        MetadataRequest::CatalogXmp { image, .. } => {
            assert_eq!(image.target.source.identity, "identity-20")
        }
        _ => panic!("packet expected"),
    }
}

#[test]
fn a_run_makes_the_images_of_its_rows() {
    let mut t = Fixture::new();
    t.original();
    t.catalog.migration.files.seals.push(InputSeal {
        id: INPUT.to_string(),
        selected: vec![SelectedCapture {
            revision: REVISION.to_string(),
            manifest_blake3: String::new(),
        }],
        supplements: vec![],
    });
    let policy = t.policy();
    let run = t.catalog.begin_selected_import(INPUT, &policy).ok().unwrap().id;
    let file = t.rows[&10].retained_record;
    let mut images = vec![];
    loop {
        let stage = t.catalog.selected_import_progress(&run).ok().unwrap().stage;
        let event = match stage {
            Stage::Custody => StepEvent::Retained { complete: true },
            Stage::Index => StepEvent::Indexed { complete: true },
            Stage::Files => StepEvent::Row {
                record: file,
                result: RowResult::Applied(RowOutcome::Original {
                    asset_id: "file".to_string(),
                    created: false,
                }),
            },
            Stage::FileEmbedded => break,
            _ => StepEvent::Nothing,
        };
        let step = t.catalog.step_selected_import(INPUT, &run, event).ok().unwrap();
        match step.outcome {
            Some(RowOutcome::Image(Outcome::Image { id, .. })) => images.push((stage, id)),
            Some(RowOutcome::OtherImageRole) | Some(RowOutcome::Original { .. }) | None => {}
            _ => panic!("the rows are images or files"),
        }
    }
    let stages: Vec<Stage> = images.iter().map(|x| x.0).collect();
    assert_eq!(stages, vec![Stage::Masters, Stage::Masters, Stage::VirtualCopies]);
    assert_eq!(t.catalog.browse_images(0, 100).unwrap().len(), 3);
    assert_eq!(t.catalog.tables.import_map.len(), 3);
    // What is known outside of a file's metadata has to be told.
    assert_eq!(
        t.catalog.step_selected_import(INPUT, &run, StepEvent::Nothing).err(),
        Some(MigrationError::EventDiffers)
    );
    let facts =
        FileFacts { rowids: vec![], interpreted: None, supplement: None, supplemented: None };
    let step = t.catalog.step_selected_import(INPUT, &run, StepEvent::File(facts)).ok().unwrap();
    match step.outcome {
        Some(RowOutcome::Retained { reason }) => {
            assert_eq!(reason, "No file metadata path observation")
        }
        _ => panic!("a file without a path is kept"),
    }
}

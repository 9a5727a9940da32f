//! The history of imported images, followed through retained evidence.
use photo_catalog::catalog::Catalog;
use photo_catalog::catalog_images::register::{insert_asset, reserve_import_asset, NewAsset};
use photo_catalog::catalog_images::VariantKey;
use photo_catalog::catalog_migration::history::{
    classification, Classification, Direction, Hop, SettingsAssociation, MAX_HOPS,
};
use photo_catalog::catalog_migration::images::{Decision, OriginalRow, Outcome, Projection, Role};
use photo_catalog::catalog_migration::proofs::{Link, SourceKey, SourceRecord};
use photo_catalog::catalog_migration::retained::{
    field_size, Cell, Collection, Compatibility, Coverage, Detail, EvidenceRecord, Field,
    MigrationError, NamedField, RowKey,
};
use std::collections::BTreeMap;

const INPUT: &str = "selected-input";
const REVISION: &str = "selected-capture";

fn text(name: &str, value: &str) -> NamedField {
    NamedField {
        name: name.to_string(),
        field: Field::Inline(Cell::Text(value.as_bytes().to_vec())),
    }
}

fn record(sequence: i64, collection: Collection, fields: Vec<NamedField>) -> EvidenceRecord {
    EvidenceRecord {
        sequence,
        input: INPUT.to_string(),
        revision: REVISION.to_string(),
        source_rowid: sequence,
        digest: String::new(),
        raw_length: 256,
        complete: true,
        collection,
        fields,
        key_cells: None,
        key: None,
        columns: None,
        cells: None,
        detail: Detail::Unread,
    }
}

fn integer(value: i64) -> String {
    format!("{{\"Integer\":{value}}}")
}

struct Fixture {
    catalog: Catalog,
    keys: Vec<VariantKey>,
}

struct Row {
    id: i64,
    table: &'static str,
    cells: Vec<Cell>,
}

fn row(id: i64, table: &'static str, cells: Vec<Cell>) -> Row {
    Row { id, table, cells }
}

impl Fixture {
    fn new(duplicate: bool, huge: bool) -> Fixture {
        Fixture::with_case(duplicate, huge, "")
    }

    fn with_case(duplicate: bool, huge: bool, case: &str) -> Fixture {
        let mut catalog = Catalog::new(1);
        let mut records = Vec::new();
        let mut sequence: i64 = 0;
        let mut tables = BTreeMap::new();
        for (name, columns) in [
            ("AgLibraryFile", vec!["id_local"]),
            ("Adobe_images", vec!["id_local", "rootFile", "masterImage", "developSettingsIDCache"]),
            ("Adobe_imageDevelopSettings", vec!["id_local", "image", "text"]),
            ("Adobe_libraryImageDevelopHistoryStep", vec!["id_local", "image", "text"]),
            ("Adobe_libraryImageDevelopSnapshot", vec!["id_local", "image", "text"]),
            ("Adobe_imageDevelopBeforeSettings", vec!["id_local", "developSettings", "beforeText"]),
            ("UnknownHistory", vec!["id_local", "image", "opaque"]),
        ] {
            sequence += 1;
            let mut r = record(
                sequence,
                Collection::Tables,
                vec![text("name", name), text("columns_json", &format!("{columns:?}"))],
            );
            r.columns = Some(columns.iter().map(|c| c.to_string()).collect());
            records.push(r);
            tables.insert(name, sequence);
        }
        let payload = || {
            Cell::Text(
                b"{ProcessVersion='11.0',Exposure2012=1,UnknownPlugin={opaque='keep'}}".to_vec(),
            )
        };
        let mut rows = vec![row(10, "AgLibraryFile", vec![Cell::Integer(10)])];
        for image in [20, 21, 22] {
            let settings = Cell::RealBits(((image + 10) as f64).to_bits());
            rows.push(row(
                image,
                "Adobe_images",
                vec![
                    Cell::Integer(image),
                    Cell::Integer(10),
                    if image == 21 { Cell::Integer(20) } else { Cell::Null },
                    settings.clone(),
                ],
            ));
            rows.push(row(
                image + 10,
                "Adobe_imageDevelopSettings",
                vec![Cell::Integer(image + 10), Cell::Integer(image), payload()],
            ));
            rows.push(row(
                image + 20,
                "Adobe_libraryImageDevelopHistoryStep",
                vec![Cell::Integer(image + 20), Cell::Integer(image), payload()],
            ));
            rows.push(row(
                image + 30,
                "Adobe_libraryImageDevelopSnapshot",
                vec![Cell::Integer(image + 30), Cell::Integer(image), payload()],
            ));
            rows.push(row(
                image + 40,
                "Adobe_imageDevelopBeforeSettings",
                vec![Cell::Integer(image + 40), settings, payload()],
            ));
        }
        rows.push(row(
            80,
            "UnknownHistory",
            vec![Cell::Integer(80), Cell::Integer(20), Cell::Blob(vec![0, 255, 7])],
        ));
        if huge {
            rows.push(row(
                70,
                "Adobe_libraryImageDevelopHistoryStep",
                vec![
                    Cell::Integer(70),
                    Cell::Integer(20),
                    Cell::Text(vec![b'x'; 9 * 1024 * 1024]),
                ],
            ));
        }
        if duplicate {
            rows.push(row(
                300,
                "Adobe_imageDevelopSettings",
                vec![Cell::RealBits(30.0f64.to_bits()), Cell::Integer(20), payload()],
            ));
        }
        let mut sources = BTreeMap::new();
        for r in &rows {
            sequence += 1;
            let key = format!("[{}]", integer(r.id));
            let mut rec = record(
                sequence,
                Collection::Rows,
                vec![
                    text("source_id", &format!("h-{}", r.id)),
                    text("table_name", r.table),
                    text("key_json", &key),
                ],
            );
            let cells = if r.id == 70 {
                // The text is spelled out as numbers, most of them three digits long.
                Field::Bytes {
                    text: true,
                    content: vec![b'1'; 36 * 1024 * 1024],
                    committed: true,
                    chunks: Vec::new(),
                }
            } else {
                Field::Inline(Cell::Text(format!("{:?}", r.cells).into_bytes()))
            };
            rec.fields.push(NamedField { name: "cells_json".to_string(), field: cells });
            let identity = format!("identity-{}", r.id);
            rec.key_cells = Some(vec![Cell::Integer(r.id)]);
            rec.key = Some(RowKey { key: key.clone(), identity: identity.clone() });
            rec.cells = Some(r.cells.clone());
            records.push(rec);
            sources.insert(
                r.id,
                SourceRecord {
                    retained_record: sequence,
                    source: SourceKey {
                        capture_revision: REVISION.to_string(),
                        table: r.table.to_string(),
                        key,
                        identity,
                    },
                },
            );
        }
        let mut entities = BTreeMap::new();
        for r in &rows {
            sequence += 1;
            records.push(record(
                sequence,
                Collection::Entities,
                vec![
                    text("source_id", &format!("h-{}", r.id)),
                    text("table_name", r.table),
                    text("local_key", &integer(if r.id == 300 { 30 } else { r.id })),
                ],
            ));
            entities.insert(r.id, sequence);
        }
        let mut listed = Vec::new();
        let mut refer = |from: i64, field: &'static str, table: &'static str, key: i64| {
            listed.push((format!("h-{from}"), field, table, integer(key), from));
        };
        for r in &rows {
            let id = r.id;
            if r.table == "Adobe_images" {
                refer(id, "rootFile", "AgLibraryFile", 10);
                refer(id, "developSettingsIDCache", "Adobe_imageDevelopSettings", id + 10);
                if id == 21 {
                    refer(id, "masterImage", "Adobe_images", 20);
                }
            } else if r.table == "Adobe_imageDevelopBeforeSettings" {
                refer(id, "developSettings", "Adobe_imageDevelopSettings", id - 30);
            } else if r.table != "AgLibraryFile" {
                let image = if id == 300 || id == 70 || id == 80 {
                    20
                } else if id >= 50 {
                    id - 30
                } else if id >= 40 {
                    id - 20
                } else {
                    id - 10
                };
                refer(id, "image", "Adobe_images", image);
            }
        }
        match case {
            "incoming" => refer(40, "image", "Adobe_images", 21),
            "outgoing" => {
                refer(20, "developSettingsIDCache", "Adobe_imageDevelopSettings", 31)
            }
            "dangling" => {
                refer(20, "developSettingsIDCache", "Adobe_imageDevelopSettings", 999)
            }
            "overlimit" => {
                for key in 1000..1100 {
                    refer(20, "developSettingsIDCache", "Adobe_imageDevelopSettings", key);
                }
            }
            _ => {}
        }
        // References come in the order of their own columns.
        listed.sort();
        let mut references = BTreeMap::new();
        for (source_id, field, table, key, from) in listed {
            sequence += 1;
            records.push(record(
                sequence,
                Collection::References,
                vec![
                    text("source_id", &source_id),
                    text("field", field),
                    text("target_table", table),
                    text("target_key", &key),
                ],
            ));
            references.insert((from, field), sequence);
        }
        catalog.migration.retained.records = records;
        catalog.migration.retained.coverage.push(Coverage {
            input: INPUT.to_string(),
            revision: REVISION.to_string(),
            complete: true,
            keys_complete: true,
        });
        reserve_import_asset(&mut catalog.tables, "offline", "fixture").unwrap();
        insert_asset(
            &mut catalog.tables,
            &NewAsset {
                id: "offline".to_string(),
                location: b"/offline.CR2".to_vec(),
                fingerprint: None,
                state: "offline".to_string(),
            },
        )
        .unwrap();
        catalog.migration.images.originals.push(OriginalRow {
            source_identity: "identity-10".to_string(),
            asset_id: "offline".to_string(),
            import_source: "fixture".to_string(),
            decision: String::new(),
        });
        let link = |from: i64, field: &'static str, to: i64| Link {
            reference_record: references[&(from, field)],
            target_entity_record: entities[&to],
            field: field.to_string(),
            target: sources[&to].clone(),
        };
        let mut keys = Vec::new();
        for id in [20, 21, 22] {
            let result = catalog
                .project_migration_image(
                    true,
                    &Projection {
                        origin: sources[&id].clone(),
                        retained_table: tables["Adobe_images"],
                        import_source: "fixture".to_string(),
                        decision: Decision::Register {
                            file: link(id, "rootFile", 10),
                            role: if id == 21 {
                                Role::Virtual { master: link(id, "masterImage", 20) }
                            } else {
                                Role::Master
                            },
                            label: format!("history-{id}"),
                        },
                    },
                )
                .unwrap();
            match result.outcome {
                Outcome::Image { key, .. } => keys.push(key),
                Outcome::Retained { .. } => unreachable!(),
            }
        }
        Fixture { catalog, keys }
    }
}

#[test]
fn offline_variant_history_is_paged_distinct_and_preserves_unknowns() {
    let t = Fixture::new(false, false);
    for (index, key) in t.keys.iter().enumerate() {
        let mut cursor = None;
        let mut seen = Vec::new();
        loop {
            let p = t.catalog.migration_variant_evidence(key, cursor.as_ref(), 1).unwrap();
            assert!(p.coverage_complete && p.keys_complete);
            for r in p.relations {
                if let Some(raw) = r.source {
                    if raw.source.table != "Adobe_images" {
                        seen.push(raw.source_id);
                    }
                }
            }
            cursor = p.next;
            if cursor.is_none() {
                break;
            }
        }
        assert!(seen.contains(&format!("h-{}", 40 + index)));
        assert!(!seen.contains(&format!("h-{}", 40 + (index + 1) % 3)));
    }
    let p = t.catalog.migration_variant_evidence(&t.keys[0], None, 100).unwrap();
    let history = p
        .relations
        .iter()
        .find(|r| r.source.as_ref().is_some_and(|s| s.source_id == "h-40"))
        .unwrap()
        .anchor
        .as_ref()
        .unwrap();
    let result = t.catalog.migration_adobe_evidence(history, "text", vec![]).unwrap();
    let extraction = result.extraction.unwrap();
    assert_eq!(extraction.association, SettingsAssociation::Historical);
    assert!(String::from_utf8(extraction.payload.clone()).unwrap().contains("UnknownPlugin"));
    assert_eq!(
        extraction.payload_blake3,
        blake3::hash(&extraction.payload).to_hex().to_string()
    );
    assert_eq!(extraction.payload_bytes, extraction.payload.len() as u64);
    assert!(!p.adobe_rendering_equivalent);
    let unknown = p
        .relations
        .iter()
        .find(|r| r.source.as_ref().is_some_and(|s| s.source_id == "h-80"))
        .unwrap();
    assert_eq!(
        unknown.source.as_ref().unwrap().classification,
        Classification::Unsupported
    );
    assert!(t
        .catalog
        .migration_adobe_evidence(unknown.anchor.as_ref().unwrap(), "opaque", vec![])
        .unwrap()
        .extraction
        .is_none());
}

#[test]
fn current_before_snapshot_surface_and_cross_variant_cursors() {
    let t = Fixture::new(false, false);
    let p = t.catalog.migration_variant_evidence(&t.keys[0], None, 1).unwrap();
    assert!(t.catalog.migration_variant_evidence(&t.keys[1], p.next.as_ref(), 1).is_err());
    let out = t
        .catalog
        .migration_source_evidence(&p.anchor, Direction::Outgoing, None, 100)
        .unwrap();
    assert!(out.relations.iter().find(|r| r.field == "rootFile").unwrap().anchor.is_none());
    let current =
        out.relations.iter().find(|r| r.field == "developSettingsIDCache").unwrap();
    assert_eq!(
        current.target.as_ref().unwrap().classification,
        Classification::CurrentSettings
    );
    let extraction = t
        .catalog
        .migration_adobe_evidence(current.anchor.as_ref().unwrap(), "text", vec![])
        .unwrap()
        .extraction
        .unwrap();
    assert_eq!(extraction.association, SettingsAssociation::Unresolved);
    let before = t
        .catalog
        .migration_source_evidence(current.anchor.as_ref().unwrap(), Direction::Incoming, None, 100)
        .unwrap();
    let before = before
        .relations
        .iter()
        .find(|r| r.field == "developSettings")
        .unwrap()
        .anchor
        .as_ref()
        .unwrap();
    let result = t.catalog.migration_adobe_evidence(before, "beforeText", vec![]).unwrap();
    assert_eq!(result.row.classification, Classification::BeforeSettings);
    assert!(result.extraction.is_some());
    let mut forged = before.clone();
    forged.variant = t.keys[1].clone();
    assert!(t.catalog.migration_source_evidence(&forged, Direction::Incoming, None, 1).is_err());
    forged = before.clone();
    forged.input = "excluded-input".to_string();
    assert!(t.catalog.migration_source_evidence(&forged, Direction::Incoming, None, 1).is_err());
    let mut long = before.clone();
    while long.hops.len() <= MAX_HOPS {
        let first = long.hops[0];
        long.hops.push(first);
    }
    assert!(matches!(
        t.catalog.migration_source_evidence(&long, Direction::Incoming, None, 1),
        Err(MigrationError::HopLimit)
    ));
}

#[test]
fn numeric_duplicate_target_does_not_authorize_arbitrary_settings() {
    let t = Fixture::new(true, false);
    let p = t.catalog.migration_variant_evidence(&t.keys[0], None, 100).unwrap();
    let out = t
        .catalog
        .migration_source_evidence(&p.anchor, Direction::Outgoing, None, 100)
        .unwrap();
    let settings =
        out.relations.iter().find(|r| r.field == "developSettingsIDCache").unwrap();
    assert_eq!(settings.compatibility, Compatibility::Ambiguous);
    assert!(settings.target.is_none() && settings.anchor.is_none());
}

#[test]
fn oversized_text_keeps_complete_offline_chunk_locator() {
    let t = Fixture::new(false, true);
    let p = t.catalog.migration_variant_evidence(&t.keys[0], None, 100).unwrap();
    let huge = p
        .relations
        .iter()
        .find(|r| r.source.as_ref().is_some_and(|s| s.source_id == "h-70"))
        .unwrap();
    let result = t
        .catalog
        .migration_adobe_evidence(huge.anchor.as_ref().unwrap(), "text", vec![])
        .unwrap();
    assert!(result.extraction.is_none() && result.row.cells_json_bytes > 16 * 1024 * 1024);
    let retained = t
        .catalog
        .migration
        .retained
        .records
        .iter()
        .find(|r| r.sequence == result.row.record)
        .unwrap();
    let evidence = retained.get("cells_json").unwrap();
    assert_eq!(field_size(evidence), result.row.cells_json_bytes);
    assert!(matches!(evidence, Field::Bytes { committed: true, .. }));
    assert_eq!(p.input, INPUT);
}

#[test]
fn incoming_conflicting_history_owners_keep_rows_without_variant_anchors() {
    let t = Fixture::with_case(false, false, "incoming");
    for key in &t.keys[..2] {
        let page = t.catalog.migration_variant_evidence(key, None, 100).unwrap();
        let relation = page.relations.iter().find(|r| r.source_id == "h-40").unwrap();
        assert_eq!(relation.compatibility, Compatibility::Ambiguous);
        assert!(relation.anchor.is_none());
        assert_eq!(
            relation.source.as_ref().unwrap().classification,
            Classification::History
        );
        assert_eq!(relation.target.as_ref().unwrap().record, page.row.record);
        let mut forged = page.anchor.clone();
        forged.hops.push(Hop {
            reference: relation.reference_record,
            direction: Direction::Incoming,
        });
        assert!(t
            .catalog
            .migration_source_evidence(&forged, Direction::Outgoing, None, 1)
            .is_err());
        assert!(t.catalog.migration_adobe_evidence(&forged, "text", vec![]).is_err());
        let row = relation.source.as_ref().unwrap();
        let retained = t
            .catalog
            .migration
            .retained
            .records
            .iter()
            .find(|r| r.sequence == row.record)
            .unwrap();
        let cells = retained.read_bytes("cells_json", 8 * 1024 * 1024).unwrap();
        assert_eq!(cells.len() as u64, row.cells_json_bytes);
        assert!(!retained.cells.as_ref().unwrap().is_empty());
    }
}

#[test]
fn outgoing_conflicting_current_groups_never_label_or_mint_current_settings() {
    let t = Fixture::with_case(false, false, "outgoing");
    let base = t.catalog.migration_variant_evidence(&t.keys[0], None, 1).unwrap();
    let out = t
        .catalog
        .migration_source_evidence(&base.anchor, Direction::Outgoing, None, 100)
        .unwrap();
    let targets =
        out.relations.iter().filter(|r| r.field == "developSettingsIDCache").collect::<Vec<_>>();
    assert_eq!(targets.len(), 2);
    for relation in targets {
        assert_eq!(relation.compatibility, Compatibility::Ambiguous);
        assert!(relation.anchor.is_none());
        assert_eq!(
            relation.target.as_ref().unwrap().classification,
            Classification::Settings
        );
        let mut forged = base.anchor.clone();
        forged.hops.push(Hop {
            reference: relation.reference_record,
            direction: Direction::Outgoing,
        });
        assert!(t
            .catalog
            .migration_source_evidence(&forged, Direction::Incoming, None, 1)
            .is_err());
    }
}

#[test]
fn dangling_extra_reference_keeps_unique_join_semantics_but_excess_group_is_unavailable() {
    let t = Fixture::with_case(false, false, "dangling");
    let base = t.catalog.migration_variant_evidence(&t.keys[0], None, 1).unwrap();
    let out = t
        .catalog
        .migration_source_evidence(&base.anchor, Direction::Outgoing, None, 100)
        .unwrap();
    let targets =
        out.relations.iter().filter(|r| r.field == "developSettingsIDCache").collect::<Vec<_>>();
    assert_eq!(targets.len(), 2);
    let existing = targets.iter().find(|r| r.target.is_some()).unwrap();
    assert_eq!(existing.compatibility, Compatibility::RetainedOnly);
    assert!(existing.anchor.is_some());
    let missing = targets.iter().find(|r| r.target.is_none()).unwrap();
    assert_eq!(missing.compatibility, Compatibility::Missing);
    assert!(missing.anchor.is_none());
    let t = Fixture::with_case(false, false, "overlimit");
    let base = t.catalog.migration_variant_evidence(&t.keys[0], None, 1).unwrap();
    let out = t
        .catalog
        .migration_source_evidence(&base.anchor, Direction::Outgoing, None, 100)
        .unwrap();
    assert!(out.next.is_some());
    assert!(out
        .relations
        .iter()
        .filter(|r| r.field == "developSettingsIDCache")
        .all(|r| r.compatibility == Compatibility::Unavailable && r.anchor.is_none()));
    let last = t
        .catalog
        .migration_source_evidence(&base.anchor, Direction::Outgoing, out.next.as_ref(), 100)
        .unwrap();
    let existing = last
        .relations
        .iter()
        .find(|r| r.field == "developSettingsIDCache" && r.target.is_some())
        .unwrap();
    assert_eq!(existing.compatibility, Compatibility::Unavailable);
    assert!(existing.anchor.is_none());
}

#[test]
fn only_settings_rows_are_interpreted_and_pages_are_bounded() {
    assert_eq!(classification("Adobe_images"), Classification::Image);
    assert_eq!(
        classification("Adobe_libraryImageDevelopSnapshot"),
        Classification::Snapshot
    );
    assert_eq!(classification("Anything else"), Classification::Unsupported);
    let t = Fixture::new(false, false);
    assert!(matches!(
        t.catalog.migration_variant_evidence(&t.keys[0], None, 0),
        Err(MigrationError::PageLimit)
    ));
    assert!(matches!(
        t.catalog.migration_variant_evidence(&t.keys[0], None, 101),
        Err(MigrationError::PageLimit)
    ));
    let p = t.catalog.migration_variant_evidence(&t.keys[0], None, 100).unwrap();
    assert!(matches!(
        t.catalog.migration_adobe_evidence(&p.anchor, "", vec![]),
        Err(MigrationError::LocatorBounds)
    ));
    let snapshot = p.relations.iter().find(|r| r.source_id == "h-50").unwrap();
    let anchor = snapshot.anchor.as_ref().unwrap();
    assert!(matches!(
        t.catalog.migration_adobe_evidence(anchor, "missing", vec![]),
        Err(MigrationError::ColumnAmbiguous)
    ));
    let not_text = t.catalog.migration_adobe_evidence(anchor, "image", vec![]).unwrap();
    assert!(not_text.extraction.is_none());
    assert_eq!(not_text.reason, "selected retained field is not typed text");
    let text = t.catalog.migration_adobe_evidence(anchor, "text", vec![]).unwrap();
    let input = text.extraction.unwrap();
    assert_eq!(
        input.locator,
        format!("retained:{}:cells_json:column:text", snapshot.source.as_ref().unwrap().record)
    );
}

#[test]
fn pages_lead_to_the_rows_they_show_and_name_their_own_image() {
    let t = Fixture::new(false, false);
    for key in [&t.keys[0], &t.keys[1]] {
        let page = t.catalog.migration_variant_evidence(key, None, 100).unwrap();
        assert!(!page.adobe_rendering_equivalent);
        assert!(!page.relations.is_empty());
        for r in &page.relations {
            assert_eq!(r.target_table, "Adobe_images");
            assert_eq!(r.target_key, page.relations[0].target_key);
            if let Some(anchor) = &r.anchor {
                assert_eq!(anchor.hops.len(), page.anchor.hops.len() + 1);
                let there = t
                    .catalog
                    .migration_source_evidence(anchor, Direction::Outgoing, None, 1)
                    .unwrap();
                assert_eq!(there.row.record, r.source.as_ref().unwrap().record);
            }
        }
    }
    let page = t.catalog.migration_variant_evidence(&t.keys[0], None, 1).unwrap();
    assert!(page.next.is_some());
    assert!(t
        .catalog
        .migration_source_evidence(&page.anchor, Direction::Incoming, page.next.as_ref(), 1)
        .is_ok());
    assert!(t
        .catalog
        .migration_source_evidence(&page.anchor, Direction::Outgoing, page.next.as_ref(), 1)
        .is_err());
}

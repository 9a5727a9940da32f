//! Editing metadata, durable receipts and planned exports.
use photo_catalog::catalog::Catalog;
use photo_catalog::catalog_images::register::{insert_asset, NewAsset};
use photo_catalog::catalog_images::{ImageMetadataIdentity, VariantKey};
use photo_catalog::catalog_metadata::edit::{EditRequest, PreparedEdit};
use photo_catalog::catalog_metadata::exports::{recovery_operation, Attempt};
use photo_catalog::catalog_metadata::prepared::{
    Declared, Inspection, Packet, ParseInput, PreparedValue, Projected, Reading, Source,
};
use photo_catalog::catalog_metadata::views::read_blob;
use photo_catalog::catalog_metadata_write::{
    existing, insert, validate_attempt, validate_digest, Owner, Receipt, Writes,
};
use photo_catalog::error::CatalogError;
use photo_catalog::tables::Detail;

fn hash(bytes: &[u8]) -> String {
    blake3::hash(bytes).to_hex().to_string()
}

fn value(field: &str, text: &str) -> PreparedValue {
    PreparedValue {
        field: field.to_string(),
        value: format!("\"{text}\""),
        semantic_hash: Some(hash(text.as_bytes())),
    }
}

fn whole(i: &ImageMetadataIdentity) -> (String, String, String, i64, i64, i64, i64) {
    (
        i.image_id.clone(),
        i.key.asset_id.clone(),
        i.key.variant_id.clone(),
        i.metadata_revision,
        i.pixel_generation,
        i.shared_source_epoch,
        i.physical_generation,
    )
}

fn sidecar(name: &str, rating: &str) -> (Source, Inspection) {
    let bytes = format!("<rdf:RDF xmp:Rating=\"{rating}\" xmp:Label=\"old\"/>").into_bytes();
    let inspection = Inspection {
        file_length: bytes.len() as u64,
        file_blake3: hash(&bytes),
        modified: Some(5),
        status: "Complete".to_string(),
        issues: "[]".to_string(),
        blank: "{}".to_string(),
        packets: vec![Packet {
            container: "Sidecar".to_string(),
            bytes: bytes.clone(),
            blake3: hash(&bytes),
            ranges: vec![],
            group: "sidecar".to_string(),
            attributes: "{}".to_string(),
        }],
        parse_inputs: vec![ParseInput {
            blake3: hash(&bytes),
            text_bound: bytes.len(),
            bytes,
            packet_indices: vec![0],
            transformation: "Identity".to_string(),
            group: "sidecar".to_string(),
            reading: Reading::Projected(Projected {
                rest: String::new(),
                fields: vec![value("label", "old"), value("rating", rating)],
                flawed: false,
            }),
            extended: Declared::Nothing,
            merge: None,
        }],
    };
    let source = Source {
        kind: "sidecar".to_string(),
        locator: name.as_bytes().to_vec(),
        display: "synthetic source".to_string(),
        ambiguous: false,
        provenance: "{\"fixture\":true}".to_string(),
    };
    (source, inspection)
}

fn fixture(session: u64) -> Catalog {
    let mut catalog = Catalog::new(session);
    insert_asset(
        &mut catalog.tables,
        &NewAsset {
            id: "a".to_string(),
            location: b"missing original".to_vec(),
            fingerprint: None,
            state: "pending".to_string(),
        },
    )
    .unwrap();
    let (source, inspection) = sidecar("synthetic-source.xmp", "2");
    catalog.retain_metadata("a", &source, &inspection).unwrap();
    catalog
}

fn request(catalog: &Catalog, image: &str) -> EditRequest {
    let view = catalog.metadata(image).unwrap();
    let base = view.fields.iter().find(|f| f.name == "rating").unwrap().selected_model;
    EditRequest {
        image: image.to_string(),
        expected_revision: view.revision,
        base_model: base,
        organization_fields: vec![],
        edits: "[{\"Set\":\"green\"}]".to_string(),
        packet: b"<rdf:RDF xmp:Label=\"green\"/>".to_vec(),
        original: vec![],
        updated: Projected {
            rest: String::new(),
            fields: vec![value("label", "green")],
            flawed: false,
        },
    }
}

fn prepare(catalog: &Catalog, image: &str) -> PreparedEdit {
    catalog.prepare_metadata_edit(&request(catalog, image)).ok().unwrap()
}

fn other_edit(catalog: &mut Catalog, text: &str) {
    let mut r = request(catalog, "a");
    r.base_model = None;
    r.packet = text.as_bytes().to_vec();
    r.updated.fields = vec![value("rating", text)];
    catalog.edit_metadata(&r).unwrap();
}

fn state(catalog: &Catalog) -> Vec<usize> {
    vec![
        catalog.tables.blobs.len(),
        catalog.tables.models.len(),
        catalog.tables.sources.len(),
        catalog.tables.observations.len(),
        catalog.tables.history.len(),
        catalog.tables.choices.len(),
    ]
}

#[test]
fn all_four_forms_prepare_without_writes_and_commit_on_inherited_worker() {
    let mut catalog = fixture(1);
    let master = VariantKey::master("a");
    let copy = VariantKey { asset_id: "a".to_string(), variant_id: "copy".to_string() };
    catalog.register_copy(&copy, &master).unwrap();
    let copy_identity = catalog.image_metadata_identity(&copy).unwrap();
    let master_identity = catalog.image_metadata_identity(&master).unwrap();
    let before = state(&catalog);
    let edit = prepare(&catalog, &copy_identity.image_id);
    assert_eq!(state(&catalog), before);
    let packet = edit.packet().unwrap();
    assert_eq!(packet, b"<rdf:RDF xmp:Label=\"green\"/>");
    let summary = edit.summary().ok().unwrap();
    assert_eq!(summary.packet_bytes, packet.len() as u64);
    assert_eq!(summary.packet_blake3, hash(&packet));
    let change = catalog.commit_prepared_metadata_edit(&edit, |_, _| Ok(())).unwrap();
    assert_eq!(change.revision, copy_identity.metadata_revision + 1);
    assert_eq!(
        whole(&catalog.image_metadata_identity(&master).unwrap()),
        whole(&master_identity)
    );
    let bytes = catalog.metadata_model_for_image(&copy, change.model_ids[0]).unwrap();
    assert_eq!(bytes, packet);
    let fields = catalog.metadata_for_image(&copy).unwrap().fields;
    let label = fields.iter().find(|f| f.name == "label").unwrap();
    assert_eq!(label.value.as_deref(), Some("\"green\""));
    // What the edit left out of the packet is removed, not forgotten.
    let rating = fields.iter().find(|f| f.name == "rating").unwrap();
    assert_eq!(rating.value.as_deref(), Some("null"));
    assert_eq!(rating.selected_model, Some(change.model_ids[0]));
    let revision = &catalog.tables.observations.last().unwrap().revision;
    assert_eq!(*revision, edit.prepared.revision);
}

#[test]
fn every_image_authority_change_rejects_prepared_edit_without_publication() {
    for change in ["metadata", "pixel", "physical", "source"] {
        let mut catalog = fixture(1);
        let edit = prepare(&catalog, "a");
        match change {
            "metadata" => other_edit(&mut catalog, "5"),
            "pixel" => catalog.tables.images[0].pixel_generation += 1,
            "physical" => catalog.tables.assets[0].physical_generation += 1,
            "source" => {
                catalog.tables.assets[0].shared_epoch += 1;
                catalog.tables.images[0].applied_shared_epoch += 1;
            }
            _ => unreachable!(),
        }
        let before = state(&catalog);
        let identity = catalog.image_metadata_identity(&VariantKey::master("a")).unwrap();
        assert!(
            catalog
                .commit_prepared_metadata_edit(&edit, |_, _| panic!("a stale edit was published"))
                .is_err(),
            "{change}"
        );
        assert_eq!(state(&catalog), before, "{change}");
        assert_eq!(
            whole(&catalog.image_metadata_identity(&VariantKey::master("a")).unwrap()),
            whole(&identity),
            "{change}"
        );
    }
}

#[test]
fn different_catalog_and_independent_reopen_cannot_consume_preparation() {
    let catalog = fixture(1);
    let mut different = fixture(2);
    let edit = prepare(&catalog, "a");
    let before = state(&different);
    assert_eq!(
        different.commit_prepared_metadata_edit(&edit, |_, _| Ok(())).err(),
        Some(CatalogError::SessionForeign)
    );
    assert_eq!(state(&different), before);
    let mut reopened = catalog;
    reopened.session = 3;
    let before = state(&reopened);
    assert_eq!(
        reopened.commit_prepared_metadata_edit(&edit, |_, _| Ok(())).err(),
        Some(CatalogError::SessionForeign)
    );
    assert_eq!(state(&reopened), before);
}

#[test]
fn callback_sees_new_revision_and_failure_rolls_back_entire_commit() {
    let mut catalog = fixture(1);
    let edit = prepare(&catalog, "a");
    let expected = edit.expected_revision;
    let before = state(&catalog);
    let identity = catalog.image_metadata_identity(&VariantKey::master("a")).unwrap();
    let result = catalog.commit_prepared_metadata_edit(&edit, |tables, next| {
        assert_eq!(next, expected + 1);
        assert!(tables.revisions.iter().any(|r| r.image_id == "a" && r.revision == next));
        Err(CatalogError::Exhausted)
    });
    assert_eq!(result.err(), Some(CatalogError::Exhausted));
    assert_eq!(state(&catalog), before);
    assert_eq!(
        whole(&catalog.image_metadata_identity(&VariantKey::master("a")).unwrap()),
        whole(&identity)
    );
}

#[test]
fn durable_attempt_replays_exact_result_and_failed_cas_writes_no_receipt() {
    let mut catalog = fixture(1);
    let attempt = "00000000-0000-4000-8000-000000000001";
    let digest = hash(b"prepared edit request");
    let edit = prepare(&catalog, "a");
    let change = catalog
        .commit_prepared_metadata_edit_with_receipt(&edit, attempt, &digest, "{}")
        .unwrap();
    let receipt = catalog.metadata_write_receipt(attempt).unwrap().unwrap();
    assert_eq!(receipt.request_digest, digest);
    assert_eq!(receipt.kind, "edit");
    assert_eq!(receipt.result, format!("{{\"revision\":{}}}", change.revision));
    assert_eq!(
        existing(&catalog.writes, attempt, &hash(b"different request")).err(),
        Some(CatalogError::AttemptTaken)
    );
    assert!(existing(&catalog.writes, attempt, &digest).unwrap().is_some());
    let stale = prepare(&catalog, "a");
    other_edit(&mut catalog, "4");
    let failed_attempt = "00000000-0000-4000-8000-000000000002";
    let failed_digest = hash(b"stale prepared edit");
    assert!(catalog
        .commit_prepared_metadata_edit_with_receipt(&stale, failed_attempt, &failed_digest, "{}")
        .is_err());
    assert!(catalog.metadata_write_receipt(failed_attempt).unwrap().is_none());
}

#[test]
fn attempts_and_digests_are_canonical() {
    assert!(validate_attempt("00000000-0000-4000-8000-00000000000a").is_ok());
    assert_eq!(
        validate_attempt("00000000-0000-4000-8000-00000000000A").err(),
        Some(CatalogError::AttemptForm)
    );
    assert_eq!(
        validate_attempt("00000000000040008000000000000001").err(),
        Some(CatalogError::AttemptForm)
    );
    assert!(validate_digest(&"a".repeat(64)).is_ok());
    assert_eq!(validate_digest(&"A".repeat(64)).err(), Some(CatalogError::DigestForm));
    assert_eq!(validate_digest(&"a".repeat(63)).err(), Some(CatalogError::DigestForm));
    let mut writes = Writes::new();
    let receipt = |kind: &str, result: String| Receipt {
        attempt: "00000000-0000-4000-8000-000000000001".to_string(),
        request_digest: "a".repeat(64),
        kind: kind.to_string(),
        owner: Owner::LegacyAsset { asset_id: "a".to_string(), revision: 1 },
        owner_document: "{}".to_string(),
        result,
    };
    assert_eq!(
        insert(&mut writes, receipt("unknown", String::new())).err(),
        Some(CatalogError::ReceiptKind)
    );
    assert_eq!(
        insert(&mut writes, receipt("edit", "x".repeat(65537))).err(),
        Some(CatalogError::ReceiptBounds)
    );
    assert!(insert(&mut writes, receipt("edit", "{}".to_string())).is_ok());
    assert_eq!(
        insert(&mut writes, receipt("edit", "{}".to_string())).err(),
        Some(CatalogError::AttemptTaken)
    );
}

#[test]
fn resolutions_are_recorded_with_their_receipt() {
    let mut catalog = fixture(1);
    let identity = catalog.image_metadata_identity(&VariantKey::master("a")).unwrap();
    let model = catalog.metadata("a").unwrap().fields[0].selected_model.unwrap();
    let attempt = "00000000-0000-4000-8000-000000000003";
    let revision = catalog
        .resolve_metadata_for_image_with_receipt(
            &identity,
            "label",
            model,
            attempt,
            &hash(b"resolve"),
            "{}",
        )
        .unwrap();
    assert_eq!(revision, identity.metadata_revision + 1);
    assert_eq!(catalog.metadata_write_receipt(attempt).unwrap().unwrap().kind, "resolve");
    assert_eq!(
        catalog
            .resolve_metadata_for_image_with_receipt(
                &identity,
                "label",
                model,
                "00000000-0000-4000-8000-000000000004",
                &hash(b"resolve"),
                "{}",
            )
            .err(),
        Some(CatalogError::IdentityChanged)
    );
}

#[test]
fn exports_are_planned_applied_and_listed() {
    let mut catalog = fixture(1);
    let view = catalog.metadata("a").unwrap();
    let base = view.fields[0].selected_model.unwrap();
    let input = catalog.export_input("a", view.revision, base).ok().unwrap();
    assert_eq!(input.base, b"<rdf:RDF xmp:Rating=\"2\" xmp:Label=\"old\"/>");
    let fields = vec![value("label", "old"), value("rating", "2")];
    assert!(catalog.resolved_export_xmp("a", view.revision, base, &fields).is_ok());
    assert_eq!(
        catalog
            .resolved_export_xmp("a", view.revision, base, &vec![value("label", "old")])
            .err(),
        Some(CatalogError::ExportMismatch)
    );
    let operation = "00000000-0000-4000-8000-00000000000b";
    let projected = || Projected {
        rest: String::new(),
        fields: vec![value("label", "old"), value("rating", "2")],
        flawed: false,
    };
    let plan = catalog
        .plan_metadata_export("a", view.revision, base, operation, "{\"p\":1}", b"xmp", projected())
        .ok()
        .unwrap();
    assert_eq!(plan.metadata_revision, view.revision);
    assert_eq!(
        catalog
            .plan_metadata_export("a", view.revision, base, operation, "{}", b"xmp", projected())
            .err(),
        Some(CatalogError::PlanExists)
    );
    let action = catalog.metadata_export_action(operation, &None).ok().unwrap();
    assert_eq!(action.plan, "{\"p\":1}");
    assert_eq!(action.payload, b"xmp");
    let attempt = || Attempt {
        attempt: "00000000-0000-4000-8000-00000000000c".to_string(),
        request_digest: hash(b"apply"),
        owner_document: "{}".to_string(),
    };
    catalog
        .apply_metadata_export_with_receipt(operation, "{\"done\":true}", attempt(), "sidecar_apply")
        .unwrap();
    let saved = catalog.metadata_export_plan(operation).unwrap().unwrap();
    assert_eq!(saved.receipt.as_deref(), Some("{\"done\":true}"));
    let (plans, _, _) = catalog.metadata_export_plans(None, 0, 10, 10).unwrap();
    assert_eq!(plans.len(), 1);
    assert_eq!(
        catalog.metadata_export_plans(None, 0, 101, 10).err(),
        Some(CatalogError::PageBounds)
    );
    assert_eq!(
        catalog.metadata_export_action("00000000-0000-4000-8000-00000000000d", &None).err(),
        Some(CatalogError::PlanMissing)
    );
    assert_eq!(catalog.metadata_export_action("x", &None).err(), Some(CatalogError::OperationForm));
    let name = format!(".photocatalog-xmp-export-{operation}");
    assert_eq!(recovery_operation(&name).as_deref(), Some(operation));
    assert_eq!(recovery_operation("unrelated"), None);
}

#[test]
fn evidence_of_an_observation_is_one_document() {
    let catalog = fixture(1);
    let identity = catalog.image_metadata_identity(&VariantKey::master("a")).unwrap();
    let observation = catalog.tables.observations[0].id;
    let (document, digest) =
        catalog.export_metadata_evidence(&identity, observation, 1 << 20, 10).unwrap();
    assert_eq!(digest, hash(&document));
    let parsed: serde_json::Value = serde_json::from_slice(&document).unwrap();
    let packet = &parsed[0];
    let bytes = b"<rdf:RDF xmp:Rating=\"2\" xmp:Label=\"old\"/>";
    assert_eq!(packet["ordinal"], 0);
    assert_eq!(packet["descriptor"]["container"], "Sidecar");
    assert_eq!(packet["blake3"], hash(bytes));
    let numbers: Vec<u64> =
        packet["bytes"].as_array().unwrap().iter().map(|n| n.as_u64().unwrap()).collect();
    assert_eq!(numbers, bytes.iter().map(|b| *b as u64).collect::<Vec<_>>());
    assert_eq!(
        catalog.export_metadata_evidence(&identity, observation, 10, 10).err(),
        Some(CatalogError::EvidenceBytes)
    );
    assert_eq!(
        catalog.export_metadata_evidence(&identity, observation, 0, 10).err(),
        Some(CatalogError::EvidenceLimits)
    );
    let mut damaged = catalog;
    damaged.tables.packets[0].descriptor = "{".to_string();
    assert_eq!(
        damaged.export_metadata_evidence(&identity, observation, 1 << 20, 10).err(),
        Some(CatalogError::PacketDamaged)
    );
}

#[test]
fn organizing_edits_may_only_organize() {
    let catalog = fixture(1);
    let mut r = request(&catalog, "a");
    r.organization_fields = vec!["creator".to_string()];
    assert_eq!(
        catalog.prepare_metadata_edit(&r).err(),
        Some(CatalogError::FieldAffectsPixels)
    );
    r.organization_fields = vec![];
    r.expected_revision += 1;
    assert_eq!(catalog.prepare_metadata_edit(&r).err(), Some(CatalogError::RevisionChanged));
    r.image = "none".to_string();
    assert!(catalog.prepare_metadata_edit(&r).is_err());
}

#[test]
fn decisions_say_what_was_edited_and_when() {
    let mut catalog = fixture(1);
    catalog.set_clock("2024-05-01 10:00:00");
    let r = request(&catalog, "a");
    let change = catalog.edit_metadata(&r).unwrap();
    let decisions = catalog.metadata_decisions("a", 0, 100).ok().unwrap();
    let last = decisions.last().unwrap();
    assert_eq!(last.revision, change.revision);
    assert_eq!(last.action, "edit");
    assert_eq!(last.created_at, "2024-05-01 10:00:00");
    match &last.detail {
        Detail::Edited { base_model, observation_id, edits } => {
            assert_eq!(*base_model, r.base_model);
            assert_eq!(*observation_id, change.observation_id);
            assert_eq!(edits, "[{\"Set\":\"green\"}]");
        }
        _ => panic!("an edit"),
    }
    assert_eq!(read_blob(&catalog.tables, &hash(&r.packet)).unwrap(), r.packet);
}

#[test]
fn conflicted_fields_are_settled_before_they_are_organized_by() {
    let mut catalog = fixture(1);
    let (source, inspection) = sidecar("another-source.xmp", "3");
    catalog.retain_metadata("a", &source, &inspection).unwrap();
    let view = catalog.metadata("a").unwrap();
    assert!(view.fields.iter().find(|f| f.name == "rating").unwrap().conflicted);
    assert!(!view.fields.iter().find(|f| f.name == "label").unwrap().conflicted);
    let mut r = request(&catalog, "a");
    r.base_model = None;
    r.updated.fields = vec![value("label", "old"), value("rating", "5")];
    r.organization_fields = vec!["rating".to_string()];
    assert_eq!(catalog.prepare_metadata_edit(&r).err(), Some(CatalogError::FieldConflicted));
    let before = state(&catalog);
    assert_eq!(catalog.edit_metadata(&r).err(), Some(CatalogError::FieldConflicted));
    assert_eq!(state(&catalog), before);
    r.organization_fields = vec!["label".to_string()];
    assert!(catalog.prepare_metadata_edit(&r).is_ok());
    let input = catalog.organization_edit_input("a", None, &r.organization_fields).ok().unwrap();
    assert_eq!(input.fields.len(), 1);
    assert_eq!(input.fields[0].name, "label");
    let model = view.fields.iter().find(|f| f.name == "rating").unwrap().candidates[0].model_id;
    let revision = catalog.resolve_metadata("a", view.revision, "rating", model).unwrap();
    r.organization_fields = vec!["rating".to_string()];
    r.expected_revision = revision;
    assert!(catalog.prepare_metadata_edit(&r).is_ok());
}

#[test]
fn packets_come_in_the_order_of_their_numbers() {
    let mut catalog = fixture(1);
    let (source, mut inspection) = sidecar("another-source.xmp", "3");
    let mut second = inspection.packets[0].clone();
    second.bytes = b"second".to_vec();
    second.blake3 = hash(b"second");
    inspection.packets.push(second);
    let change = catalog.retain_metadata("a", &source, &inspection).unwrap();
    catalog.tables.packets.reverse();
    let packets = catalog.metadata_packets("a", change.observation_id).unwrap();
    assert_eq!(packets.iter().map(|p| p.ordinal).collect::<Vec<_>>(), vec![0, 1]);
    assert_eq!(packets[1].bytes, b"second");
    let identity = catalog.image_metadata_identity(&VariantKey::master("a")).unwrap();
    let (document, _) = catalog
        .export_metadata_evidence(&identity, change.observation_id, 1 << 20, 10)
        .unwrap();
    let parsed: serde_json::Value = serde_json::from_slice(&document).unwrap();
    assert_eq!(parsed[0]["ordinal"], 0);
    assert_eq!(parsed[1]["ordinal"], 1);
}

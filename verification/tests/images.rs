//! Logical images: registration, shared and private metadata, refresh.
use photo_catalog::catalog::Catalog;
use photo_catalog::catalog_images::refresh::{enqueue_source_state, step_storage};
use photo_catalog::catalog_images::register::{
    insert_asset, register_import_image, reserve_import_asset, touch_asset, ImportImageRequest,
    NewAsset,
};
use photo_catalog::catalog_images::upgrade::migrate;
use photo_catalog::catalog_images::{
    require_image_metadata_identity, ImageMetadataIdentity, ImageRole, VariantKey,
};
use photo_catalog::catalog_metadata::edit::EditRequest;
use photo_catalog::catalog_metadata::prepared::{
    Declared, Inspection, Packet, ParseInput, PreparedValue, Projected, Reading, Source,
};
use photo_catalog::copies::Copied;
use photo_catalog::error::CatalogError;
use photo_catalog::tables::{
    Asset, ChoiceRow, Detail, HistoryRow, RevisionRow, SourceRow, Tables, Variant,
};

fn catalog() -> Catalog {
    Catalog::new(1)
}

fn asset(c: &mut Catalog, name: &str) -> VariantKey {
    insert_asset(
        &mut c.tables,
        &NewAsset {
            id: name.to_string(),
            location: name.as_bytes().to_vec(),
            fingerprint: None,
            state: "pending".to_string(),
        },
    )
    .unwrap();
    VariantKey::master(name)
}

fn copy(c: &mut Catalog, of: &VariantKey, name: &str) -> VariantKey {
    let key = VariantKey { asset_id: of.asset_id.clone(), variant_id: name.to_string() };
    c.register_copy(&key, of).unwrap();
    key
}

fn value(field: &str, text: &str) -> PreparedValue {
    PreparedValue {
        field: field.to_string(),
        value: format!("\"{text}\""),
        semantic_hash: Some(blake3::hash(text.as_bytes()).to_hex().to_string()),
    }
}

fn input(rating: u8, status: &str) -> Inspection {
    let bytes = format!(
        "<rdf:Description xmp:Rating=\"{rating}\"><u:opaque>unknown</u:opaque></rdf:Description>"
    )
    .into_bytes();
    let hash = blake3::hash(&bytes).to_hex().to_string();
    Inspection {
        file_length: bytes.len() as u64,
        file_blake3: hash.clone(),
        modified: None,
        status: status.to_string(),
        issues: "[]".to_string(),
        blank: "{}".to_string(),
        packets: vec![Packet {
            container: "Sidecar".to_string(),
            bytes: bytes.clone(),
            blake3: hash.clone(),
            ranges: vec![],
            group: "fixture".to_string(),
            attributes: "{}".to_string(),
        }],
        parse_inputs: vec![ParseInput {
            text_bound: bytes.len(),
            bytes,
            blake3: hash,
            packet_indices: vec![0],
            transformation: "Identity".to_string(),
            group: "fixture".to_string(),
            reading: Reading::Projected(Projected {
                rest: String::new(),
                fields: vec![value("rating", &rating.to_string())],
                flawed: false,
            }),
            extended: Declared::Nothing,
            merge: None,
        }],
    }
}

fn source(kind: &str) -> Source {
    Source {
        kind: kind.to_string(),
        locator: b"fixture-source".to_vec(),
        display: "fixture".to_string(),
        ambiguous: false,
        provenance: "{\"fixture\":true}".to_string(),
    }
}

fn rating(c: &Catalog, k: &VariantKey) -> Option<String> {
    c.metadata_for_image(k)
        .unwrap()
        .fields
        .into_iter()
        .find(|f| f.name == "rating")
        .and_then(|f| f.value)
}

fn rated(text: &str) -> Option<String> {
    Some(format!("\"{text}\""))
}

fn edit(c: &Catalog, image: &str, revision: i64, text: &str, organizes: bool) -> EditRequest {
    let packet = format!("<xmp:Rating>{text}</xmp:Rating>").into_bytes();
    let _ = c;
    EditRequest {
        image: image.to_string(),
        expected_revision: revision,
        base_model: None,
        organization_fields: if organizes { vec!["rating".to_string()] } else { vec![] },
        edits: "[]".to_string(),
        packet,
        original: vec![],
        updated: Projected {
            rest: String::new(),
            fields: vec![value("rating", text)],
            flawed: false,
        },
    }
}

fn request(
    asset: &str,
    id: &str,
    role: ImageRole,
    parent: Option<VariantKey>,
) -> ImportImageRequest {
    ImportImageRequest {
        import_source: "job".to_string(),
        capture_revision: "revision".to_string(),
        source_table: "Adobe_images".to_string(),
        source_id: id.to_string(),
        input_digest: format!("digest:{id}"),
        adapter_version: "adapter1".to_string(),
        asset_id: asset.to_string(),
        claim_reserved_master: false,
        role,
        master: parent,
        label: id.to_string(),
    }
}

fn same_identity(a: &ImageMetadataIdentity, b: &ImageMetadataIdentity) -> bool {
    a.image_id == b.image_id
        && a.key.same_as(&b.key)
        && a.metadata_revision == b.metadata_revision
        && a.pixel_generation == b.pixel_generation
        && a.shared_source_epoch == b.shared_source_epoch
        && a.physical_generation == b.physical_generation
}

#[test]
fn actual_master_claim_is_atomic_idempotent_and_preserves_virtual_roles() {
    let mut c = catalog();
    let mut r = request("file", "master-record", ImageRole::Master, None);
    r.claim_reserved_master = true;
    reserve_import_asset(&mut c.tables, "file", "job").unwrap();
    asset(&mut c, "file");
    let image = register_import_image(&mut c.tables, &r).unwrap();
    assert!(image.key.same_as(&VariantKey::master("file")));
    assert_eq!(image.id, "file");
    let m = c.register_import_image(&r).unwrap();
    assert_eq!(c.browse_images(0, 100).unwrap().len(), 1);
    let v = c
        .register_import_image(&request(
            "file",
            "copy-record",
            ImageRole::Virtual,
            Some(m.key.clone()),
        ))
        .unwrap();
    assert_eq!(v.master_sequence, Some(m.sequence));
    assert_eq!(c.browse_images(0, 100).unwrap().len(), 2);
    assert_eq!(c.tables.assets.len(), 1);
    let v2 = c
        .register_import_image(&request(
            "file",
            "copy-record",
            ImageRole::Virtual,
            Some(m.key.clone()),
        ))
        .unwrap();
    assert_eq!(v.id, v2.id);
    let mut changed = request("file", "master-record", ImageRole::Master, None);
    changed.claim_reserved_master = true;
    changed.input_digest = "different".to_string();
    assert_eq!(c.register_import_image(&changed).err(), Some(CatalogError::MappingChanged));
    assert_eq!(
        c.register_import_image(&request(
            "file",
            "bad-parent",
            ImageRole::Virtual,
            Some(v.key.clone())
        ))
        .err(),
        Some(CatalogError::ParentNotMaster)
    );
    let native = asset(&mut c, "native");
    assert_eq!(
        reserve_import_asset(&mut c.tables, &native.asset_id, "job").err(),
        Some(CatalogError::AssetExists)
    );
    let mut steal = request("native", "steal", ImageRole::Master, None);
    steal.claim_reserved_master = true;
    assert_eq!(c.register_import_image(&steal).err(), Some(CatalogError::ClaimRefused));
    // What is done to a copy of the tables that is dropped leaves nothing behind.
    {
        let mut tables = c.tables.copied();
        reserve_import_asset(&mut tables, "rollback", "job").unwrap();
        insert_asset(
            &mut tables,
            &NewAsset {
                id: "rollback".to_string(),
                location: vec![0xab],
                fingerprint: None,
                state: "pending".to_string(),
            },
        )
        .unwrap();
        let mut rr = request("rollback", "r", ImageRole::Master, None);
        rr.claim_reserved_master = true;
        register_import_image(&mut tables, &rr).unwrap();
    }
    assert!(c.tables.assets.iter().all(|a| a.id != "rollback"));
}

#[test]
fn sibling_metadata_history_and_explicit_incomplete_choices_are_independent() {
    let mut c = catalog();
    let m = asset(&mut c, "one");
    let first =
        c.retain_metadata_for_image(&m, &source("catalog"), &input(2, "Complete")).unwrap();
    let v = copy(&mut c, &m, "copy");
    let old = c.metadata_model_for_image(&v, first.model_ids[0]).unwrap();
    let second =
        c.retain_metadata_for_image(&m, &source("catalog"), &input(4, "Complete")).unwrap();
    assert_eq!(rating(&c, &v), rated("2"));
    assert!(c.metadata_model_for_image(&v, second.model_ids[0]).is_err());
    assert_eq!(c.metadata_model_for_image(&v, first.model_ids[0]).unwrap(), old);
    let hist = c.metadata_history_for_image(&m, 0, 100).unwrap();
    assert_eq!(hist.len(), 2);
    assert!(!hist[0].current);
    let rev = c.metadata_for_image(&m).unwrap().revision;
    assert_eq!(
        c.resolve_metadata_for_image(&m, rev, "rating", first.model_ids[0]).err(),
        Some(CatalogError::ChoiceInvalid)
    );
    let incomplete =
        c.retain_metadata_for_image(&m, &source("catalog"), &input(5, "Malformed")).unwrap();
    let view = c.metadata_for_image(&m).unwrap();
    assert!(view.fields.iter().find(|f| f.name == "rating").unwrap().conflicted);
    c.resolve_metadata_for_image(&m, incomplete.revision, "rating", incomplete.model_ids[0])
        .unwrap();
    assert_eq!(rating(&c, &m), rated("5"));
    let changed = c
        .retain_metadata_for_image(&m, &source("catalog"), &input(1, "SourceChanged"))
        .unwrap();
    let hist = c.metadata_history_for_image(&m, 0, 100).unwrap();
    assert_eq!(hist.len(), 4);
    assert!(!hist.last().unwrap().current);
    assert!(hist.iter().find(|h| h.id == incomplete.observation_id).unwrap().current);
    assert!(!c.metadata_packets_for_image(&m, changed.observation_id).unwrap().is_empty());
    assert_eq!(
        c.retain_import_metadata_for_image(&v, &source("catalog"), &input(3, "Unsupported"))
            .err(),
        Some(CatalogError::ImportIncomplete)
    );
    assert_eq!(rating(&c, &v), rated("2"));
}

#[test]
fn copy_local_organization_and_edit_identity_do_not_touch_siblings_or_physical_generation() {
    let mut c = catalog();
    let m = asset(&mut c, "one");
    c.retain_metadata(&m.asset_id, &source("sidecar"), &input(2, "Complete")).unwrap();
    let v = copy(&mut c, &m, "copy");
    let m_before = c.image_metadata_identity(&m).unwrap();
    let v_before = c.image_metadata_identity(&v).unwrap();
    let item = c.organize_image(&v, v_before.metadata_revision).unwrap();
    let organized = edit(&c, &item.asset_id, item.expected_revision, "4", true);
    c.edit_metadata(&organized).unwrap();
    assert_eq!(rating(&c, &v), rated("4"));
    assert_eq!(rating(&c, &m), rated("2"));
    assert!(same_identity(&c.image_metadata_identity(&m).unwrap(), &m_before));
    assert_eq!(
        c.image_metadata_identity(&v).unwrap().physical_generation,
        v_before.physical_generation
    );
    assert_eq!(
        c.with_image_metadata_identity(&v_before, |t| Ok((t, ()))).err(),
        Some(CatalogError::IdentityChanged)
    );
    let batch = c.append_image_organization_batch(&vec![(v.clone(), 1), (m.clone(), 2)]).unwrap();
    assert_eq!(batch.len(), 2);
    assert_eq!(batch[1].asset_id, "one");
    assert_eq!(batch[1].expected_revision, 2);
    let rev = c.metadata_for_image(&v).unwrap().revision;
    let own = edit(&c, "", rev, "3", false);
    c.edit_metadata_for_image(&v, own).unwrap();
    assert_eq!(rating(&c, &v), rated("3"));
    assert!(same_identity(&c.image_metadata_identity(&m).unwrap(), &m_before));
}

#[test]
fn bounded_shared_refresh_keeps_real_foreground_pages_and_rejects_stale_authority() {
    let mut c = catalog();
    let m = asset(&mut c, "one");
    c.retain_metadata(&m.asset_id, &source("sidecar"), &input(2, "Complete")).unwrap();
    let mut last = m.clone();
    for i in 0..220 {
        last = copy(&mut c, &m, &format!("copy{i}"));
    }
    let before = c.image_metadata_identity(&last).unwrap();
    c.retain_metadata(&m.asset_id, &source("sidecar"), &input(3, "Complete")).unwrap();
    assert_eq!(c.image_metadata_identity(&last).err(), Some(CatalogError::PendingRefresh));
    assert!(c.with_image_metadata_identity(&before, |t| Ok((t, ()))).is_err());
    let page = c.browse_images(0, 200).unwrap();
    assert_eq!(page.len(), 200);
    assert!(page.iter().any(|x| c.image_metadata_identity(&x.key).is_err()));
    assert!(page.iter().any(|x| c.image_metadata_identity(&x.key).is_ok()));
    c.retain_metadata(&m.asset_id, &source("sidecar"), &input(4, "Complete")).unwrap();
    let mut steps = 0;
    loop {
        let progress = c.step_image_metadata_refresh(17).unwrap();
        assert!(progress.processed <= 17);
        steps += 1;
        if !progress.pending {
            break;
        }
        assert!(steps < 40);
    }
    assert_eq!(rating(&c, &last), rated("4"));
    assert_eq!(c.metadata_history_for_image(&last, 0, 100).unwrap().len(), 3);
    let rest = c.browse_images(page.last().unwrap().sequence, 200).unwrap();
    assert_eq!(rest.len(), 21);
    assert!(c
        .browse_images(0, 200)
        .unwrap()
        .iter()
        .all(|x| c.image_metadata_identity(&x.key).is_ok()));
    // A change of the physical file queues one cursor rather than one row per image.
    touch_asset(&mut c.tables, "one").unwrap();
    assert_eq!(c.tables.storage_events.len(), 1);
    let mut visited = 0;
    loop {
        let images = step_storage(&mut c.tables, 17);
        assert!(images.len() <= 17);
        visited += images.len();
        if c.tables.storage_events.is_empty() {
            break;
        }
    }
    assert_eq!(visited, 221);
    assert_eq!(c.step_image_metadata_refresh(0).err(), Some(CatalogError::BatchLimit));
    assert_eq!(c.step_image_metadata_refresh(1001).err(), Some(CatalogError::BatchLimit));
    assert_eq!(c.browse_images(0, 0).err(), Some(CatalogError::PageBounds));
}

#[test]
fn source_membership_constraints_reject_foreign_history_and_current_pointers() {
    let mut c = catalog();
    let a = asset(&mut c, "a");
    let b = asset(&mut c, "b");
    let obs =
        c.retain_metadata_for_image(&a, &source("catalog"), &input(2, "Complete")).unwrap();
    assert!(c.metadata_packets_for_image(&b, obs.observation_id).is_err());
    // An image that claims the observation of another file cannot follow it.
    let sid = c
        .tables
        .observations
        .iter()
        .find(|o| o.id == obs.observation_id)
        .unwrap()
        .source_id;
    let mut tables = c.tables.copied();
    tables.sources.iter_mut().find(|s| s.id == sid).unwrap().asset_id = "b".to_string();
    tables.sources.iter_mut().find(|s| s.id == sid).unwrap().current_observation =
        Some(obs.observation_id + 1);
    assert!(enqueue_source_state(&mut tables, sid).is_ok());
    c.tables = tables;
    assert!(c.step_image_metadata_refresh(10).is_err());
}

#[test]
fn unavailable_shared_source_advances_master_and_follower_once() {
    let mut c = catalog();
    let master = asset(&mut c, "source");
    let from = source("sidecar");
    c.retain_metadata("source", &from, &input(3, "Complete")).unwrap();
    let follower = copy(&mut c, &master, "copy");
    let before = c.metadata_for_image(&master).unwrap().revision;
    let copy_before = c.metadata_for_image(&follower).unwrap().revision;
    assert!(c.unavailable_metadata_source("source", &from, "missing fixture").unwrap());
    assert_eq!(c.metadata_for_image(&master).unwrap().revision, before + 1);
    assert_eq!(c.metadata_for_image(&follower).unwrap().revision, copy_before + 1);
    assert_eq!(
        c.metadata_for_image(&follower).unwrap().sources[0].availability,
        "missing fixture"
    );
    assert!(!c.unavailable_metadata_source("source", &from, "missing fixture").unwrap());
    assert_eq!(c.metadata_for_image(&master).unwrap().revision, before + 1);
    assert_eq!(c.metadata_for_image(&follower).unwrap().revision, copy_before + 1);
    assert_eq!(rating(&c, &master), rated("3"));
}

#[test]
fn a_stale_identity_of_an_image_is_refused() {
    let mut c = catalog();
    let m = asset(&mut c, "one");
    let before = c.image_metadata_identity(&m).unwrap();
    assert!(require_image_metadata_identity(&c.tables, &before).is_ok());
    let write = |mut t: Tables| {
        t.clock = "noon".to_string();
        Ok((t, 7))
    };
    assert_eq!(c.with_image_metadata_identity(&before, write).unwrap(), 7);
    assert_eq!(c.tables.clock, "noon");
    // What a failed action wrote is not kept.
    let fail = |mut t: Tables| -> Result<(Tables, ()), CatalogError> {
        t.clock = "midnight".to_string();
        t.assets.clear();
        Err(CatalogError::Exhausted)
    };
    assert_eq!(
        c.with_image_metadata_identity(&before, fail).err(),
        Some(CatalogError::Exhausted)
    );
    assert_eq!(c.tables.clock, "noon");
    assert_eq!(c.tables.assets.len(), 1);
    c.retain_metadata_for_image(&m, &source("catalog"), &input(2, "Complete")).unwrap();
    assert_eq!(
        require_image_metadata_identity(&c.tables, &before).err(),
        Some(CatalogError::IdentityChanged)
    );
    assert_eq!(
        c.image(&VariantKey { asset_id: "one".to_string(), variant_id: "none".to_string() }).err(),
        Some(CatalogError::ImageNotFound)
    );
}

#[test]
fn names_of_roles_and_imports_are_bounded() {
    assert_eq!(ImageRole::Virtual.sql(), "virtual");
    let mut c = catalog();
    asset(&mut c, "one");
    let mut r = request("one", "", ImageRole::Master, None);
    assert_eq!(c.register_import_image(&r).err(), Some(CatalogError::ImportBounds));
    r = request("one", "copy", ImageRole::NativeCopy, None);
    assert_eq!(c.register_import_image(&r).err(), Some(CatalogError::ImportRole));
    r = request("one", "virtual", ImageRole::Virtual, None);
    assert!(c.register_import_image(&r).is_err());
    r = request("missing", "master", ImageRole::Master, None);
    assert_eq!(c.register_import_image(&r).err(), Some(CatalogError::AssetNotFound));
    assert_eq!(
        reserve_import_asset(&mut c.tables, "", "job").err(),
        Some(CatalogError::ReservationBounds)
    );
    let taken = c.register_copy(&VariantKey::master("one"), &VariantKey::master("one"));
    assert_eq!(taken.err(), Some(CatalogError::ImageExists));
}

#[test]
fn files_keep_their_numbers_when_images_are_told_apart() {
    let mut db = Tables::new();
    db.assets.push(Asset {
        id: "a".to_string(),
        location: vec![1],
        fingerprint: None,
        state: "pending".to_string(),
        render_generation: 23,
        physical_generation: 0,
        shared_epoch: 0,
    });
    for id in ["master", "copy"] {
        db.variants.push(Variant {
            asset_id: "a".to_string(),
            id: id.to_string(),
            label: id.to_string(),
        });
    }
    db.sources.push(SourceRow {
        id: 3,
        asset_id: "a".to_string(),
        kind: "sidecar".to_string(),
        locator: b"a.xmp".to_vec(),
        display: "a.xmp".to_string(),
        association: "confirmed".to_string(),
        availability: "available".to_string(),
        current_observation: None,
    });
    db.revisions.push(RevisionRow { image_id: "a".to_string(), revision: 9 });
    db.choices.push(ChoiceRow {
        image_id: "a".to_string(),
        field: "rating".to_string(),
        model_id: 5,
    });
    db.history.push(HistoryRow {
        id: 100,
        image_id: "a".to_string(),
        revision: 9,
        action: "old".to_string(),
        detail: Detail::Note { text: "{}".to_string() },
        created_at: String::new(),
    });
    assert_eq!(migrate(&mut db, &vec![71]), Ok(()));
    let mut c = Catalog::new(1);
    c.tables = db;
    assert_eq!(c.image(&VariantKey::master("a")).unwrap().sequence, 71);
    let identity = c.image_metadata_identity(&VariantKey::master("a")).unwrap();
    assert_eq!(identity.physical_generation, 23);
    assert_eq!(identity.metadata_revision, 9);
    let copy = VariantKey { asset_id: "a".to_string(), variant_id: "copy".to_string() };
    let image = c.image(&copy).unwrap();
    assert_eq!(image.sequence, 72);
    assert_eq!(image.id, "variant:a:copy");
    assert_eq!(c.image_metadata_identity(&copy).unwrap().metadata_revision, 9);
    assert_eq!(c.tables.image_sources.len(), 2);
    assert!(c.tables.image_sources.iter().all(|u| u.follow_file && u.source_id == 3));
    assert_eq!(c.tables.choices[1].image_id, "variant:a:copy");
    assert_eq!(c.tables.choices[1].model_id, 5);
    assert_eq!(c.tables.history[0].id, 100);
    // A variant of no file cannot be told apart from one.
    let mut db = Tables::new();
    db.variants.push(Variant {
        asset_id: "gone".to_string(),
        id: "copy".to_string(),
        label: String::new(),
    });
    assert_eq!(migrate(&mut db, &vec![]), Err(CatalogError::AssetNotFound));
}

#[test]
fn every_image_is_at_its_files_epoch_once_no_event_is_left() {
    let mut c = catalog();
    let m = asset(&mut c, "one");
    let other = asset(&mut c, "two");
    c.retain_metadata(&m.asset_id, &source("sidecar"), &input(2, "Complete")).unwrap();
    for i in 0..150 {
        copy(&mut c, &m, &format!("copy{i}"));
    }
    c.retain_metadata(&m.asset_id, &source("sidecar"), &input(3, "Complete")).unwrap();
    c.retain_metadata(&other.asset_id, &source("sidecar"), &input(5, "Complete")).unwrap();
    c.retain_metadata(&m.asset_id, &source("sidecar"), &input(4, "Complete")).unwrap();
    assert!(!c.tables.shared_events.is_empty());
    while c.step_image_metadata_refresh(7).unwrap().pending {}
    assert!(c.tables.shared_events.is_empty());
    for image in &c.tables.images {
        let file = c.tables.assets.iter().find(|a| a.id == image.asset_id).unwrap();
        assert_eq!(image.applied_shared_epoch, file.shared_epoch);
    }
    assert_eq!(c.tables.assets[0].shared_epoch, 3);
    assert_eq!(c.tables.assets[1].shared_epoch, 1);
}

#[test]
fn an_imported_record_is_found_again_only_as_it_was_imported() {
    let mut c = catalog();
    reserve_import_asset(&mut c.tables, "file", "job").unwrap();
    asset(&mut c, "file");
    let mut first = request("file", "master-record", ImageRole::Master, None);
    first.claim_reserved_master = true;
    let master = c.register_import_image(&first).unwrap();
    let ask = || request("file", "copy-record", ImageRole::Virtual, Some(VariantKey::master("file")));
    let v = c.register_import_image(&ask()).unwrap();
    let images = c.tables.images.len();
    let mut digest = ask();
    digest.input_digest = "other".to_string();
    let mut adapter = ask();
    adapter.adapter_version = "adapter2".to_string();
    let mut moved = ask();
    moved.asset_id = "elsewhere".to_string();
    let mut role = ask();
    role.role = ImageRole::Master;
    for changed in [digest, adapter, moved, role] {
        assert_eq!(c.register_import_image(&changed).err(), Some(CatalogError::MappingChanged));
    }
    let mut orphan = ask();
    orphan.master = None;
    assert_eq!(c.register_import_image(&orphan).err(), Some(CatalogError::ParentChanged));
    let mut own = ask();
    own.master = Some(v.key.clone());
    assert_eq!(c.register_import_image(&own).err(), Some(CatalogError::ParentChanged));
    assert_eq!(c.tables.images.len(), images);
    let again = c.register_import_image(&ask()).unwrap();
    assert_eq!((again.id, again.sequence), (v.id, v.sequence));
    assert_eq!(again.master_sequence, Some(master.sequence));
    assert_eq!(c.tables.images.len(), images);
}

#[test]
fn an_image_with_its_own_copy_of_a_source_keeps_its_metadata() {
    let mut c = catalog();
    let m = asset(&mut c, "one");
    c.retain_metadata_for_image(&m, &source("catalog"), &input(2, "Complete")).unwrap();
    c.retain_metadata("one", &source("sidecar"), &input(2, "Complete")).unwrap();
    let own = copy(&mut c, &m, "own");
    let before = c.image_metadata_identity(&own).unwrap();
    let revision = c.metadata_for_image(&m).unwrap().revision;
    assert!(c.unavailable_metadata_source("one", &source("catalog"), "gone").unwrap());
    while c.step_image_metadata_refresh(1).unwrap().pending {}
    assert_eq!(c.metadata_for_image(&m).unwrap().revision, revision + 1);
    let after = c.image_metadata_identity(&own).unwrap();
    assert_eq!(after.metadata_revision, before.metadata_revision);
    assert_eq!(after.pixel_generation, before.pixel_generation);
    assert_eq!(after.shared_source_epoch, before.shared_source_epoch + 1);
    assert!(c.metadata_for_image(&own).unwrap().sources.iter().all(|s| s.availability == "available"));
    assert_eq!(rating(&c, &own), rated("2"));
    // A source that the copy follows is another matter.
    assert!(c.unavailable_metadata_source("one", &source("sidecar"), "gone").unwrap());
    while c.step_image_metadata_refresh(1).unwrap().pending {}
    let followed = c.image_metadata_identity(&own).unwrap();
    assert_eq!(followed.metadata_revision, before.metadata_revision + 1);
    let idle = c.step_image_metadata_refresh(10).unwrap();
    assert_eq!((idle.processed, idle.pending), (0, false));
}

#[test]
fn what_was_done_for_a_copy_is_listed_for_the_copy() {
    let mut c = catalog();
    let m = asset(&mut c, "one");
    c.retain_metadata_for_image(&m, &source("catalog"), &input(2, "Complete")).unwrap();
    let v = copy(&mut c, &m, "copy");
    let revision = c.metadata_for_image(&v).unwrap().revision;
    let own = edit(&c, "", revision, "3", false);
    c.edit_metadata_for_image(&v, own).unwrap();
    let of = |key: &VariantKey| -> Vec<String> {
        let rows = c.metadata_decisions_for_image(key, 0, 100).unwrap();
        rows.into_iter().map(|d| d.action).collect()
    };
    assert_eq!(of(&m), vec!["observe"]);
    assert_eq!(of(&v), vec!["clone", "edit"]);
    let none = VariantKey { asset_id: "one".to_string(), variant_id: "none".to_string() };
    assert_eq!(
        c.metadata_decisions_for_image(&none, 0, 100).err(),
        Some(CatalogError::ImageNotFound)
    );
}

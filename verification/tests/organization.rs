//! Collections, keywords, relations and the order of members.
use photo_catalog::catalog::Catalog;
use photo_catalog::catalog_images::collection_order_index::{
    MemberRow, Membership, OrderIndexError, OrderRow,
};
use photo_catalog::catalog_images::organization::{
    add_keyword_synonym, set_image_collection_membership, CollectionPlacement, CollectionRow,
    Organization,
};
use photo_catalog::catalog_images::register::{insert_asset, NewAsset};
use photo_catalog::catalog_images::VariantKey;
use photo_catalog::catalog_metadata::edit::EditRequest;
use photo_catalog::catalog_metadata::prepared::{PreparedValue, Projected};
use photo_catalog::copies::Copied;
use photo_catalog::error::CatalogError;

fn asset(c: &mut Catalog, name: &str) -> VariantKey {
    insert_asset(
        &mut c.tables,
        &NewAsset {
            id: name.to_string(),
            location: name.as_bytes().to_vec(),
            fingerprint: None,
            state: "pending".to_string(),
        },
    )
    .unwrap();
    VariantKey::master(name)
}

fn collection(o: &mut Organization, id: &str) -> String {
    o.collections.push(CollectionRow { id: id.to_string(), revision: 0 });
    id.to_string()
}

fn rate(image: &str, revision: i64, text: &str) -> EditRequest {
    EditRequest {
        image: image.to_string(),
        expected_revision: revision,
        base_model: None,
        organization_fields: vec!["rating".to_string()],
        edits: "[]".to_string(),
        packet: text.as_bytes().to_vec(),
        original: vec![],
        updated: Projected {
            rest: String::new(),
            fields: vec![PreparedValue {
                field: "rating".to_string(),
                value: format!("\"{text}\""),
                semantic_hash: Some(text.to_string()),
            }],
            flawed: false,
        },
    }
}

#[test]
fn flag_and_xmp_actions_roll_back_with_failed_checkpoint_then_commit_once() {
    let mut c = Catalog::new(1);
    let key = asset(&mut c, "a");
    let before = c.image_metadata_identity(&key).unwrap();
    let item = c.organize_image(&key, before.metadata_revision).unwrap();
    let prepared =
        c.prepare_metadata_edit(&rate(&item.asset_id, item.expected_revision, "4")).unwrap();
    let observations = c.tables.observations.len();
    let history = c.tables.history.len();
    assert_eq!(
        c.commit_prepared_metadata_edit(&prepared, |_, _| Err(CatalogError::Exhausted)).err(),
        Some(CatalogError::Exhausted)
    );
    assert_eq!(
        c.image_metadata_identity(&key).unwrap().metadata_revision,
        before.metadata_revision
    );
    assert_eq!(c.tables.observations.len(), observations);
    assert_eq!(c.tables.history.len(), history);
    let change = c.commit_prepared_metadata_edit(&prepared, |_, _| Ok(())).unwrap();
    assert_eq!(change.revision, before.metadata_revision + 1);
    assert_eq!(c.tables.history.len(), history + 1);
    assert_eq!(
        c.commit_prepared_metadata_edit(&prepared, |_, _| unreachable!()).err(),
        Some(CatalogError::IdentityChanged)
    );
}

#[test]
fn dictionary_membership_and_synonym_effects_share_checkpoint_transaction() {
    let mut c = Catalog::new(1);
    let key = asset(&mut c, "a");
    let expected = c.image_metadata_identity(&key).unwrap();
    c.organization.keywords.push(5);
    let imported = collection(&mut c.organization, "imported");
    {
        // Effects on copies that are dropped leave the catalog as it was.
        let mut tables = c.tables.copied();
        let mut other = Organization::new();
        other.keywords.push(5);
        collection(&mut other, "imported");
        add_keyword_synonym(&mut other, 5, "Strigiformes", "{\"source\":\"synonym\"}").unwrap();
        set_image_collection_membership(
            &mut tables,
            &mut other,
            &expected,
            "imported",
            4,
            "{\"source\":\"membership\"}",
        )
        .unwrap();
    }
    assert_eq!(
        c.image_metadata_identity(&key).unwrap().metadata_revision,
        expected.metadata_revision
    );
    assert!(c.organization.synonyms.is_empty());
    c.add_keyword_synonym(5, "Strigiformes", "{\"source\":\"synonym\"}").unwrap();
    let revision = c
        .set_image_collection_membership(&expected, &imported, 4, "{\"source\":\"membership\"}")
        .unwrap();
    assert_eq!(revision, expected.metadata_revision + 1);
    let members = c.image_collection_members(&imported, None, 10).unwrap();
    assert_eq!(members.len(), 1);
    assert!(members[0].1.key.same_as(&key));
    assert_eq!(members[0].1.position, 4);
    assert_eq!(members[0].1.provenance, "{\"source\":\"membership\"}");
    assert_eq!(c.keyword_synonyms(5, "", 10).unwrap()[0].0, "Strigiformes");
    assert_eq!(
        c.set_image_collection_membership(&expected, &imported, 5, "{}").err(),
        Some(CatalogError::IdentityChanged)
    );
}

#[test]
fn collection_hierarchy_order_synonyms_and_relationship_replay_preserve_logical_endpoints() {
    let mut c = Catalog::new(1);
    let m = asset(&mut c, "a");
    let v = VariantKey { asset_id: "a".to_string(), variant_id: "copy".to_string() };
    c.register_copy(&v, &m).unwrap();
    let p = collection(&mut c.organization, "parent");
    let child = collection(&mut c.organization, "child");
    c.place_collection(&CollectionPlacement {
        collection: child.clone(),
        parent: Some(p.clone()),
        position: 2,
    })
    .unwrap();
    assert_eq!(c.collection_placement(&child).unwrap().parent, Some(p.clone()));
    assert_eq!(
        c.place_collection(&CollectionPlacement {
            collection: p,
            parent: Some(child.clone()),
            position: 0,
        })
        .err(),
        Some(CatalogError::HierarchyCycle)
    );
    let vi = c.image_metadata_identity(&v).unwrap();
    c.set_image_collection_membership(&vi, &child, 9, "{\"source\":\"membership\"}").unwrap();
    let mi = c.image_metadata_identity(&m).unwrap();
    c.set_image_collection_membership(&mi, &child, 3, "{}").unwrap();
    let first = c.image_collection_members(&child, None, 1).unwrap();
    assert!(first[0].1.key.same_as(&m));
    let second = c
        .image_collection_members(&child, Some((first[0].1.position, first[0].0)), 1)
        .unwrap();
    assert!(second[0].1.key.same_as(&v));
    assert!(c
        .image_collection_members(&child, Some((second[0].1.position, second[0].0)), 1)
        .unwrap()
        .is_empty());
    c.organization.keywords.push(7);
    c.add_keyword_synonym(7, "aves", "{\"source\":\"keyword\"}").unwrap();
    assert_eq!(c.keyword_synonyms(7, "", 1).unwrap()[0].0, "aves");
    let seq = c
        .retain_image_relation("source:stack", "stack", &m, &v, 0, "{\"raw\":\"retained\"}")
        .unwrap();
    assert_eq!(
        c.retain_image_relation("source:stack", "stack", &m, &v, 0, "{\"raw\":\"retained\"}")
            .unwrap(),
        seq
    );
    assert_eq!(
        c.retain_image_relation("source:stack", "stack", &v, &m, 0, "{\"raw\":\"retained\"}")
            .err(),
        Some(CatalogError::RelationChanged)
    );
    assert!(c.image_relations(&m, 0, 1).unwrap()[0].to.same_as(&v));
}

fn base() -> Membership {
    let mut m = Membership::new();
    for sequence in 1..=40 {
        m.members.push(MemberRow {
            collection: "c".to_string(),
            sequence,
            provenance: "exact provenance".to_string(),
        });
        if sequence % 2 == 0 {
            m.order.push(OrderRow {
                collection: "c".to_string(),
                image_sequence: sequence,
                position: if sequence % 3 == 0 { 0 } else { sequence },
            });
        }
    }
    m
}

fn equivalent(m: &Membership) {
    let mut actual: Vec<(String, i64)> =
        m.zero.iter().map(|z| (z.collection.clone(), z.image_sequence)).collect();
    actual.sort();
    let mut expected: Vec<(String, i64)> = m
        .members
        .iter()
        .filter(|r| m.position(&r.collection, r.sequence) == 0)
        .map(|r| (r.collection.clone(), r.sequence))
        .collect();
    expected.sort();
    assert_eq!(actual, expected);
}

#[test]
fn migration_is_bounded_restartable_and_triggers_cover_concurrent_authoritative_changes() {
    let mut m = base();
    assert_eq!(m.ready().err(), Some(OrderIndexError::NotInstalled));
    m.install();
    assert_eq!(m.ready(), Ok(false));
    assert!(m.zero.is_empty(), "installation must not backfill at once");
    assert_eq!(m.step(7), Ok(7));
    assert_eq!(m.ready(), Ok(false));
    assert_eq!(m.backfill.as_ref().unwrap().after_sequence, 7);
    m.put_member("c", 50, "new");
    m.set_position("c", 50, 9).unwrap();
    m.set_position("c", 2, 0).unwrap();
    m.clear_position("c", 4);
    m.remove_member("c", 6);
    while m.ready() == Ok(false) {
        assert!(m.step(7).unwrap() <= 7);
    }
    equivalent(&m);
    assert_eq!(m.members.iter().filter(|r| r.provenance == "exact provenance").count(), 39);
    assert_eq!(
        m.order.iter().filter(|r| r.image_sequence == 3).count(),
        0,
        "implicit order absence must stay absent"
    );
    m.copy_members(2, 60).unwrap();
    equivalent(&m);
    m.set_position("c", 60, 7).unwrap();
    m.clear_position("c", 60);
    equivalent(&m);
    m.move_member("c", 60, 61).unwrap();
    equivalent(&m);
    assert!(m.members.iter().any(|r| r.sequence == 61));
    assert!(m.members.iter().all(|r| r.sequence != 60));
    assert_eq!(m.ready(), Ok(true));
    assert_eq!(m.step(0), Ok(0));
    assert_eq!(m.step(1001).err(), Some(OrderIndexError::StepLimit));
    assert_eq!(m.set_position("c", 2, -1).err(), Some(OrderIndexError::NegativePosition));
    assert_eq!(m.set_position("c", 1000, 1).err(), Some(OrderIndexError::MissingMember));
}

#[test]
fn backfill_uses_bounded_primary_key_candidates_without_sort() {
    let m = base();
    let rows: Vec<i64> =
        m.candidates("c", 7, "c", 40, 7).iter().map(|r| r.sequence).collect();
    assert_eq!(rows, (8..=14).collect::<Vec<_>>());
}

#[test]
fn organization_refuses_what_is_out_of_bounds() {
    let mut c = Catalog::new(1);
    let m = asset(&mut c, "a");
    assert_eq!(c.collection_placement("none").err(), Some(CatalogError::CollectionMissing));
    assert_eq!(
        c.add_keyword_synonym(1, "word", "{}").err(),
        Some(CatalogError::KeywordMissing)
    );
    c.organization.keywords.push(1);
    assert_eq!(c.add_keyword_synonym(1, "", "{}").err(), Some(CatalogError::ValueBounds));
    assert_eq!(
        c.add_keyword_synonym(1, "nul\0", "{}").err(),
        Some(CatalogError::ValueBounds)
    );
    assert_eq!(
        c.add_keyword_synonym(1, "word", &"x".repeat(65537)).err(),
        Some(CatalogError::ProvenanceBounds)
    );
    let child = collection(&mut c.organization, "child");
    let mut place = CollectionPlacement { collection: child, parent: None, position: -1 };
    assert_eq!(c.place_collection(&place).err(), Some(CatalogError::NegativeOrder));
    place.position = 0;
    place.parent = Some("child".to_string());
    assert_eq!(c.place_collection(&place).err(), Some(CatalogError::SelfParent));
    place.parent = Some("none".to_string());
    assert_eq!(c.place_collection(&place).err(), Some(CatalogError::ParentMissing));
    assert_eq!(c.image_relations(&m, 0, 0).err(), Some(CatalogError::PageBounds));
    let gone = VariantKey { asset_id: "a".to_string(), variant_id: "gone".to_string() };
    assert_eq!(
        c.retain_image_relation("key", "stack", &m, &gone, 0, "{}").err(),
        Some(CatalogError::ImageNotFound)
    );
}

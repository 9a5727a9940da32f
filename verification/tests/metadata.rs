//! Preparation, retention, blobs, discovery and the identity of observations.
use photo_catalog::catalog::Catalog;
use photo_catalog::catalog_images::register::{insert_asset, NewAsset};
use photo_catalog::catalog_metadata::discovery::{
    name_key, DirectoryFact, FileName, ImportDiscovery, ScanLimits,
};
use photo_catalog::catalog_metadata::prepared::{
    Association, Declared, Inspection, Merge, Packet, ParseInput, Prepared, PreparedValue,
    Projected, Reading, Source, MAX_PACKET_BYTES,
};
use photo_catalog::catalog_metadata::scan::Look;
use photo_catalog::catalog_metadata::sources::{
    apply_import_source, finish_import_sources, prepare_import_source, Found, Inspected,
};
use photo_catalog::catalog_metadata::storage::{
    merged_descriptor_storage, prepared_counts, prepared_storage, zlib_bound, Refusal,
};
use photo_catalog::catalog_metadata::views::read_blob;
use photo_catalog::catalog_migration::retained::ByteRange;
use photo_catalog::error::CatalogError;
use photo_catalog::tables::{BlobRow, Tables};
use std::io::Write;

const XMP: &[u8] = br#"<rdf:RDF xmlns:rdf="http://www.w3.org/1999/02/22-rdf-syntax-ns#"><rdf:Description rdf:about="" xmlns:xmp="http://ns.adobe.com/xap/1.0/" xmp:Rating="2"/></rdf:RDF>"#;

fn hash(bytes: &[u8]) -> String {
    blake3::hash(bytes).to_hex().to_string()
}

fn empty() -> (Inspection, Source) {
    (
        Inspection {
            file_length: 0,
            file_blake3: "0".repeat(64),
            modified: None,
            status: "Absent".to_string(),
            issues: "[]".to_string(),
            blank: "{\"fields\":{}}".to_string(),
            packets: vec![],
            parse_inputs: vec![],
        },
        Source {
            kind: "selected".to_string(),
            locator: b"fixture".to_vec(),
            display: "fixture".to_string(),
            ambiguous: false,
            provenance: "{\"fixture\":true}".to_string(),
        },
    )
}

fn packet(container: &str, bytes: &[u8]) -> Packet {
    Packet {
        container: container.to_string(),
        bytes: bytes.to_vec(),
        blake3: hash(bytes),
        ranges: vec![ByteRange { offset: 3, length: bytes.len() as u64 }],
        group: "g".to_string(),
        attributes: "{}".to_string(),
    }
}

fn projected(rating: &str) -> Projected {
    Projected {
        rest: String::new(),
        fields: vec![PreparedValue {
            field: "rating".to_string(),
            value: format!("\"{rating}\""),
            semantic_hash: Some(hash(rating.as_bytes())),
        }],
        flawed: false,
    }
}

fn parse_input(bytes: &[u8], packets: Vec<usize>, group: &str) -> ParseInput {
    ParseInput {
        bytes: bytes.to_vec(),
        blake3: hash(bytes),
        packet_indices: packets,
        transformation: "Identity".to_string(),
        group: group.to_string(),
        text_bound: bytes.len(),
        reading: Reading::Projected(projected("3")),
        extended: Declared::Nothing,
        merge: None,
    }
}

fn photo(c: &mut Catalog) {
    insert_asset(
        &mut c.tables,
        &NewAsset {
            id: "a".to_string(),
            location: b"a".to_vec(),
            fingerprint: Some("f".to_string()),
            state: "ready".to_string(),
        },
    )
    .unwrap();
}

#[test]
fn prepared_denial_is_typed_and_precedes_first_prepared_owner() {
    let (inspection, source) = empty();
    let required = prepared_storage(&inspection, &source, 1000, 100).unwrap();
    match Prepared::new_admitted(&inspection, &source, 1000, 100, required - 1) {
        Err(Refusal::ResourceLimit { required: asked, available }) => {
            assert_eq!(asked, required);
            assert_eq!(available, required - 1);
        }
        _ => panic!("the preparation should have been denied"),
    }
    assert!(Prepared::new_admitted(&inspection, &source, 1000, 100, required).is_ok());
}

#[test]
fn prepared_scope_retains_its_graph_through_nested_requested_storage() {
    let (mut inspection, source) = empty();
    let nothing = prepared_storage(&inspection, &source, 0, 0).unwrap();
    inspection.packets.push(packet("Sidecar", b"retained original packet"));
    let retained = prepared_storage(&inspection, &source, 0, 0).unwrap();
    assert!(retained > nothing);
    let p = match Prepared::new_admitted(&inspection, &source, 0, 0, retained) {
        Ok(p) => p,
        Err(_) => panic!("the preparation should have been allowed"),
    };
    assert_eq!(p.packets.len(), 1);
    assert_eq!(p.blobs.len(), 1);
    assert_eq!(prepared_counts(&inspection), Ok((0, 1)));
}

#[test]
fn streamed_revision_identity_matches_previous_json_value_digest() {
    let (mut inspection, source) = empty();
    inspection.modified = Some(1700000000123456789);
    inspection.packets.push(packet("Sidecar", b"one \"quoted\" packet"));
    inspection.parse_inputs.push(parse_input(b"one", vec![0], "g"));
    let mut failed = parse_input(b"two", vec![], "h");
    failed.reading = Reading::Failed("not \\ XMP\n".to_string());
    inspection.parse_inputs.push(failed);
    let prepared = match Prepared::new(&inspection, &source) {
        Ok(p) => p,
        Err(e) => panic!("{e:?}"),
    };
    let text = |s: &str| serde_json::Value::String(s.to_string());
    let mut file = serde_json::Map::new();
    file.insert("blake3".to_string(), text(&inspection.file_blake3));
    file.insert("length".to_string(), serde_json::Value::from(0u64));
    file.insert("modified_unix_ns".to_string(), serde_json::Value::from(1700000000123456789u64));
    let mut identity = serde_json::Map::new();
    identity.insert("version".to_string(), serde_json::Value::from(1u64));
    identity.insert("source_revision".to_string(), serde_json::Value::Object(file));
    identity.insert("status".to_string(), text(&prepared.status));
    identity.insert("issues".to_string(), text(&prepared.issues));
    identity.insert(
        "packets".to_string(),
        serde_json::Value::Array(
            prepared
                .packets
                .iter()
                .map(|p| serde_json::Value::Array(vec![text(&p.hash), text(&p.descriptor)]))
                .collect(),
        ),
    );
    identity.insert(
        "models".to_string(),
        serde_json::Value::Array(
            prepared
                .models
                .iter()
                .map(|m| {
                    serde_json::Value::Array(vec![
                        text(&m.hash),
                        text(&m.descriptor),
                        serde_json::from_str(&m.projection).unwrap(),
                        m.error.as_ref().map_or(serde_json::Value::Null, |e| text(e)),
                    ])
                })
                .collect(),
        ),
    );
    identity.insert("provenance".to_string(), text(&prepared.provenance));
    let bytes = serde_json::to_vec(&serde_json::Value::Object(identity)).unwrap();
    assert_eq!(prepared.revision, hash(&bytes));
    assert_eq!(prepared.models[1].projection, "{\"fields\":{}}");
    assert_eq!(prepared.models[1].error, Some("not \\ XMP\n".to_string()));
}

#[test]
fn compressed_size_rejects_before_decoding_even_with_small_raw_claim() {
    let mut tables = Tables::new();
    tables.blobs.push(BlobRow {
        hash: "oversized".to_string(),
        raw_length: 1,
        compressed: vec![0; MAX_PACKET_BYTES + 65537],
    });
    assert_eq!(read_blob(&tables, "oversized").err(), Some(CatalogError::StreamSize));
    for length in [-1, MAX_PACKET_BYTES as i64 + 1] {
        tables.blobs[0].raw_length = length;
        assert_eq!(read_blob(&tables, "oversized").err(), Some(CatalogError::BlobSize));
    }
    assert_eq!(read_blob(&tables, "absent").err(), Some(CatalogError::BlobMissing));
}

#[test]
fn admitted_blob_still_requires_exact_raw_length_and_digest() {
    let bytes = b"retained exact packet bytes\0\xff";
    let mut encoder =
        flate2::write::ZlibEncoder::new(Vec::new(), flate2::Compression::fast());
    encoder.write_all(bytes).unwrap();
    let mut tables = Tables::new();
    tables.blobs.push(BlobRow {
        hash: hash(bytes),
        raw_length: bytes.len() as i64,
        compressed: encoder.finish().unwrap(),
    });
    assert_eq!(read_blob(&tables, &hash(bytes)).unwrap(), bytes);
    for length in [bytes.len() as i64 - 1, bytes.len() as i64 + 1] {
        tables.blobs[0].raw_length = length;
        assert_eq!(read_blob(&tables, &hash(bytes)).err(), Some(CatalogError::BlobChecksum));
    }
    tables.blobs[0].raw_length = bytes.len() as i64;
    tables.blobs[0].hash = "wrong-digest".to_string();
    assert_eq!(read_blob(&tables, "wrong-digest").err(), Some(CatalogError::BlobChecksum));
    tables.blobs[0].compressed = vec![1, 2, 3];
    assert_eq!(read_blob(&tables, "wrong-digest").err(), Some(CatalogError::StreamDamaged));
}

#[test]
fn nested_resource_limit_is_not_recorded_as_an_xmp_parse_observation() {
    let (mut inspection, source) = empty();
    let mut input = parse_input(XMP, vec![], "xmp");
    // What is prepared would fit, but interpreting the input does not.
    input.reading = Reading::Limited { required: 900, available: 899 };
    inspection.parse_inputs.push(input);
    let required = prepared_storage(&inspection, &source, 1000, 100).unwrap();
    match Prepared::new_admitted(&inspection, &source, 1000, 100, required) {
        Err(Refusal::ResourceLimit { required: asked, available }) => {
            assert_eq!((asked, available), (900, 899));
        }
        _ => panic!("interpreting the input should have been denied"),
    }
    assert_eq!(
        Prepared::new(&inspection, &source).err(),
        Some(CatalogError::ResourceLimit { required: 900, available: 899 })
    );
    inspection.parse_inputs[0].reading = Reading::Failed("not XMP".to_string());
    let p = match Prepared::new_admitted(&inspection, &source, 1000, 100, required) {
        Ok(p) => p,
        Err(_) => panic!("a packet that is no XMP is recorded as such"),
    };
    assert_eq!(p.models[0].error.as_deref(), Some("not XMP"));
    inspection.parse_inputs[0].reading = Reading::Unclear;
    assert_eq!(
        Prepared::new(&inspection, &source).err(),
        Some(CatalogError::InterpretationFailed)
    );
}

#[test]
fn limits_met_while_packets_are_joined_refuse_the_observation() {
    let (mut inspection, source) = empty();
    inspection.packets.push(packet("JpegMain", b"main"));
    inspection.packets.push(packet("JpegExtended", b"extended"));
    let mut main = parse_input(b"main", vec![0], "jpeg:main:0");
    main.extended = Declared::Limited { required: 7, available: 6 };
    let mut extended = parse_input(b"extended", vec![1], "jpeg:extended:ABC");
    extended.transformation = "JpegExtendedReassembled".to_string();
    inspection.parse_inputs.push(main);
    inspection.parse_inputs.push(extended);
    let limit = |required: usize| CatalogError::ResourceLimit { required, available: required - 1 };
    assert_eq!(Prepared::new(&inspection, &source).err(), Some(limit(7)));
    inspection.parse_inputs[0].extended = Declared::Extended("abc".to_string());
    inspection.parse_inputs[0].merge = Some(Merge::Limited { required: 9, available: 8 });
    assert_eq!(Prepared::new(&inspection, &source).err(), Some(limit(9)));
    inspection.parse_inputs[0].merge = Some(Merge::Unclear);
    assert_eq!(
        Prepared::new(&inspection, &source).err(),
        Some(CatalogError::InterpretationFailed)
    );
    // Only a main packet is parsed for what it declares.
    inspection.packets[0].container = "Sidecar".to_string();
    inspection.parse_inputs[0].extended = Declared::Limited { required: 7, available: 6 };
    assert!(Prepared::new(&inspection, &source).is_ok());
}

fn name(text: &str) -> FileName {
    FileName { bytes: text.as_bytes().to_vec(), text: Some(text.to_string()) }
}

fn fact(file: FileName, stem: FileName, extension: &str, supported: bool) -> DirectoryFact {
    let mut path = b"/photos/".to_vec();
    path.extend_from_slice(&file.bytes);
    DirectoryFact {
        parent: b"/photos".to_vec(),
        path_units: path.len() as u64,
        path,
        display: String::from_utf8_lossy(&file.bytes).to_string(),
        name: file,
        stem,
        extension: extension.to_string(),
        supported,
        regular: true,
    }
}

#[test]
fn bounded_directory_facts_preserve_native_names_and_rollback_incomplete_roster() {
    let limits = Some(ScanLimits { entries: 100, path_units: 4096 });
    let original = || fact(name("photo.cr2"), name("photo"), "cr2", true);
    let sidecar = fact(name("photo.cr2.xmp"), name("photo.cr2"), "xmp", false);
    let native = fact(
        FileName { bytes: b"native\xff.xmp".to_vec(), text: None },
        FileName { bytes: b"native\xff".to_vec(), text: None },
        "xmp",
        false,
    );
    let mut discovery = ImportDiscovery::new();
    let facts = vec![original(), sidecar, native];
    discovery.index_directory_facts(b"/photos", &facts, &limits).unwrap();
    for f in &facts {
        let stored = discovery.files.iter().find(|r| r.name == f.name.bytes).unwrap();
        assert_eq!(stored.path, f.path);
    }
    let found = discovery.sidecars(b"/photos", &name("photo"), &name("photo.cr2")).unwrap();
    assert_eq!(found.len(), 1);
    assert_eq!(found[0].locator, b"/photos/photo.cr2.xmp");
    assert!(!found[0].ambiguous);
    assert!(discovery.is_indexed(b"/photos"));
    let mut discovery = ImportDiscovery::new();
    let mut elsewhere = fact(name("elsewhere.xmp"), name("elsewhere"), "xmp", false);
    elsewhere.parent = b"/photos/wrong".to_vec();
    assert_eq!(
        discovery.index_directory_facts(b"/photos", &vec![original(), elsewhere], &limits).err(),
        Some(CatalogError::ForeignEntry)
    );
    assert!(discovery.files.is_empty());
    assert!(discovery.directories.is_empty());
    let too_many: Vec<DirectoryFact> = (0..=100)
        .map(|_| {
            let mut f = original();
            f.regular = false;
            f
        })
        .collect();
    assert_eq!(
        discovery.index_directory_facts(b"/photos", &too_many, &limits).err(),
        Some(CatalogError::EntryLimit)
    );
    assert!(discovery.directories.is_empty());
    let long = Some(ScanLimits { entries: 100, path_units: 3 });
    assert_eq!(
        discovery.index_directory_facts(b"/photos", &vec![original()], &long).err(),
        Some(CatalogError::PathBounds)
    );
}

#[test]
fn sidecars_are_found_whatever_their_case_and_shared_ones_are_ambiguous() {
    let mut discovery = ImportDiscovery::new();
    let facts = vec![
        fact(name("Photo.CR2"), name("Photo"), "CR2", true),
        fact(name("photo.jpg"), name("photo"), "jpg", true),
        fact(name("PHOTO.XMP"), name("PHOTO"), "XMP", false),
        fact(name("notes.txt"), name("notes"), "txt", false),
    ];
    discovery.index_directory_facts(b"/photos", &facts, &None).unwrap();
    assert_eq!(discovery.files.len(), 3);
    let found = discovery.sidecars(b"/photos", &name("photo"), &name("photo.jpg")).unwrap();
    assert_eq!(found.len(), 1);
    assert!(found[0].ambiguous);
    assert_eq!(
        found[0].provenance,
        "{\"discovery\":\"case-insensitive stem or full filename plus .xmp\",\
         \"matching_photos\":2,\"matching_sidecars\":\"one\"}"
    );
    // Names are compared in Unicode lowercase.
    assert_eq!(name_key(&name("\u{c4}RGER")), name_key(&name("\u{e4}rger")));
    assert_ne!(name_key(&name("a")), name_key(&name("b")));
}

#[test]
fn a_moved_copy_of_a_file_is_no_new_observation() {
    let mut c = Catalog::new(1);
    photo(&mut c);
    let (mut inspection, mut source) = empty();
    source.kind = "sidecar".to_string();
    inspection.status = "Complete".to_string();
    inspection.packets.push(packet("Sidecar", b"packet"));
    inspection.parse_inputs.push(parse_input(b"packet", vec![0], "g"));
    inspection.modified = Some(1);
    let first = c.retain_metadata("a", &source, &inspection).unwrap();
    assert!(first.changed);
    c.set_clock("2024-01-02T03:04:05.678Z");
    inspection.modified = Some(2);
    let moved = c.retain_metadata("a", &source, &inspection).unwrap();
    assert_eq!(moved.observation_id, first.observation_id);
    assert!(!moved.changed);
    assert_eq!(c.tables.observations.len(), 1);
    let instances = c.metadata_file_instances("a", 0, 10).unwrap();
    assert_eq!(instances.len(), 1);
    let provenance = |modified: u8| {
        format!(
            "{{\"file_revision\":{{\"length\":0,\"blake3\":\"{}\",\"modified_unix_ns\":{modified}}},\
             \"source\":{{\"fixture\":true}},\"source_location\":{{\"display\":\"fixture\",\
             \"kind\":\"sidecar\",\"locator\":[102,105,120,116,117,114,101]}}}}",
            "0".repeat(64)
        )
    };
    assert_eq!(instances[0].provenance, provenance(2));
    assert_eq!(instances[0].observed_at, "2024-01-02T03:04:05.678Z");
    // Other issues make it another observation, and all evidence stays.
    inspection.issues = "[\"late\"]".to_string();
    let other = c.retain_metadata("a", &source, &inspection).unwrap();
    assert_ne!(other.observation_id, first.observation_id);
    assert_eq!(c.tables.observations.len(), 2);
    assert_eq!(c.tables.observations[0].provenance, provenance(1));
    assert_eq!(c.metadata_packets("a", first.observation_id).unwrap()[0].bytes, b"packet");
}

#[test]
fn retained_bytes_are_compressed_and_read_back() {
    let mut c = Catalog::new(1);
    photo(&mut c);
    let (mut inspection, source) = empty();
    let bytes = vec![7u8; 4096];
    inspection.packets.push(packet("PsdResource1060", &bytes));
    c.retain_metadata("a", &source, &inspection).unwrap();
    assert_eq!(c.tables.blobs.len(), 1);
    assert!(c.tables.blobs[0].compressed.len() < 200);
    assert_ne!(c.tables.blobs[0].compressed, bytes);
    assert_eq!(read_blob(&c.tables, &hash(&bytes)).unwrap(), bytes);
}

#[test]
fn damaged_or_oversized_inspections_are_refused() {
    let (mut inspection, source) = empty();
    inspection.packets.push(packet("PsdResource1060", b"bytes"));
    inspection.packets[0].blake3 = hash(b"others");
    assert_eq!(Prepared::new(&inspection, &source).err(), Some(CatalogError::PacketDigest));
    let (mut inspection, source) = empty();
    inspection.parse_inputs.push(parse_input(b"bytes", vec![0], "g"));
    assert_eq!(Prepared::new(&inspection, &source).err(), Some(CatalogError::PacketMissing));
    inspection.parse_inputs[0].packet_indices.clear();
    inspection.parse_inputs[0].blake3 = hash(b"others");
    assert_eq!(Prepared::new(&inspection, &source).err(), Some(CatalogError::InputDigest));
    let (mut inspection, source) = empty();
    for _ in 0..1025 {
        inspection.packets.push(packet("PsdResource1060", b""));
    }
    assert_eq!(Prepared::new(&inspection, &source).err(), Some(CatalogError::PacketCount));
    let (mut inspection, source) = empty();
    inspection.packets.push(packet("PsdResource1060", &vec![0; MAX_PACKET_BYTES + 1]));
    assert_eq!(Prepared::new(&inspection, &source).err(), Some(CatalogError::BlobBounds));
    for _ in 0..4 {
        inspection.packets.push(packet("PsdResource1060", &vec![0; MAX_PACKET_BYTES]));
    }
    assert_eq!(Prepared::new(&inspection, &source).err(), Some(CatalogError::PacketBytes));
}

#[test]
fn main_packets_are_merged_with_the_extended_packet_they_declare() {
    let (mut inspection, source) = empty();
    inspection.packets.push(packet("JpegMain", b"main"));
    inspection.packets.push(packet("PsdResource1060", b"extended"));
    let mut main = parse_input(b"main", vec![0], "jpeg:main:0");
    main.extended = Declared::Extended("abc".to_string());
    let mut extended = parse_input(b"extended", vec![1], "jpeg:extended:ABC");
    extended.transformation = "JpegExtendedReassembled".to_string();
    inspection.parse_inputs.push(main);
    inspection.parse_inputs.push(extended);
    assert_eq!(inspection.associate(0), Association::Joined(1));
    assert_eq!(inspection.associate(1), Association::Unrelated);
    assert_eq!(Prepared::new(&inspection, &source).err(), Some(CatalogError::MergeMissing));
    inspection.parse_inputs[0].merge = Some(Merge::Merged {
        bytes: b"merged".to_vec(),
        projected: projected("5"),
    });
    let p = Prepared::new(&inspection, &source).ok().unwrap();
    assert_eq!(p.models.len(), 3);
    assert_eq!(
        p.models[0].error.as_deref(),
        Some("JPEG main fragment; use the associated merged model for editing/export")
    );
    assert_eq!(
        p.models[1].error.as_deref(),
        Some("JPEG extended fragment; see associated main model")
    );
    assert_eq!(p.models[2].hash, hash(b"merged"));
    assert_eq!(p.models[2].error, None);
    assert_eq!(
        p.models[2].descriptor,
        "{\"derived_from_inputs\":[0,1],\"guid\":\"abc\",\"packet_indices\":[0,1],\
         \"transformation\":\"JpegMainAndExtendedMerged\"}"
    );
    assert_eq!(p.models[2].projection, "{\"fields\":{\"rating\":\"5\"}}");
    assert_eq!(
        p.packets[0].descriptor,
        "{\"attributes\":{},\"container\":\"JpegMain\",\"group\":\"g\",\
         \"ranges\":[{\"offset\":3,\"length\":4}]}"
    );
    assert_eq!(
        p.models[1].descriptor,
        "{\"group\":\"jpeg:extended:ABC\",\"packet_indices\":[1],\
         \"transformation\":\"JpegExtendedReassembled\"}"
    );
    inspection.parse_inputs[0].merge = Some(Merge::Failed("no".to_string()));
    let p = Prepared::new(&inspection, &source).ok().unwrap();
    assert_eq!(
        p.models[0].error.as_deref(),
        Some("JPEG main/extended reconciliation failed: no")
    );
    inspection.parse_inputs[0].extended = Declared::Extended("other".to_string());
    assert_eq!(inspection.associate(0), Association::Unresolved);
    let p = Prepared::new(&inspection, &source).ok().unwrap();
    assert_eq!(
        p.models[1].error.as_deref(),
        Some("unassociated JPEG extended fragment retained; explicit association review required")
    );
    let (mains, bytes) = merged_descriptor_storage(&inspection).unwrap();
    assert_eq!(mains, 1);
    // {"derived_from_inputs":[0,1],"guid":"","packet_indices":[0,1],"transformation":
    // "JpegMainAndExtendedMerged"} and six bytes for each byte of the text.
    assert_eq!(bytes, 107 + 6 * 4);
}

#[test]
fn storage_is_bounded_by_the_expression_of_zlib() {
    assert_eq!(zlib_bound(0), Some(13));
    assert_eq!(zlib_bound(16384), Some(16384 + 4 + 1 + 13));
    assert_eq!(zlib_bound(usize::MAX), None);
}

#[test]
fn importers_are_warned_of_what_could_not_be_read_whole() {
    let mut c = Catalog::new(1);
    photo(&mut c);
    let (mut inspection, mut source) = empty();
    source.kind = "sidecar".to_string();
    let quiet = prepare_import_source(source.clone(), Inspected::Found(&inspection)).ok().unwrap();
    assert!(!quiet.warning);
    assert!(matches!(quiet.found, Found::Prepared(_)));
    assert_eq!(apply_import_source(&mut c.tables, "a", &quiet), Ok((true, false)));
    inspection.parse_inputs.push(parse_input(b"x", vec![], "g"));
    if let Reading::Projected(p) = &mut inspection.parse_inputs[0].reading {
        p.flawed = true;
    }
    let flawed = prepare_import_source(source.clone(), Inspected::Found(&inspection)).ok().unwrap();
    assert!(flawed.warning);
    inspection.parse_inputs.clear();
    inspection.status = "Malformed".to_string();
    let broken = prepare_import_source(source.clone(), Inspected::Found(&inspection)).ok().unwrap();
    assert!(broken.warning);
    let failed = prepare_import_source(source, Inspected::Failed("gone")).ok().unwrap();
    assert!(failed.warning);
    match &failed.found {
        Found::Unavailable(said) => assert_eq!(said, "inspection failed: gone"),
        Found::Prepared(_) => panic!("nothing was prepared"),
    }
    assert_eq!(apply_import_source(&mut c.tables, "a", &failed), Ok((true, true)));
    assert_eq!(c.metadata("a").unwrap().sources[0].availability, "inspection failed: gone");
}

#[test]
fn scans_mark_sidecars_that_are_gone() {
    let mut c = Catalog::new(1);
    photo(&mut c);
    let (inspection, mut source) = empty();
    source.kind = "sidecar".to_string();
    c.retain_metadata("a", &source, &inspection).unwrap();
    assert_eq!(finish_import_sources(&mut c.tables, "a", &vec![b"fixture".to_vec()]), Ok(false));
    assert_eq!(finish_import_sources(&mut c.tables, "a", &vec![]), Ok(true));
    assert_eq!(
        c.metadata("a").unwrap().sources[0].availability,
        "not found in current directory scan; retained metadata remains available"
    );
    assert!(c.needs_embedded_inspection("a", b"a", false));
}

#[test]
fn originals_are_looked_at_together_with_their_sidecars() {
    let mut c = Catalog::new(1);
    photo(&mut c);
    let (inspection, mut source) = empty();
    source.kind = "sidecar".to_string();
    source.locator = b"a.xmp".to_vec();
    source.ambiguous = true;
    let found = Inspected::Found(&inspection);
    let looks = vec![Look { source, inspected: Inspected::Found(&inspection) }];
    // The original is new, and its one sidecar is ambiguous.
    assert_eq!(c.refresh_metadata(b"a", "a", false, &found, Ok(&looks)), Ok((true, 1)));
    assert_eq!(c.metadata("a").unwrap().sources.len(), 2);
    assert!(!c.needs_embedded_inspection("a", b"a", false));
    // The second look finds nothing new.
    assert_eq!(c.refresh_metadata(b"a", "a", false, &found, Ok(&looks)), Ok((false, 1)));
    // A file that cannot be read and a sidecar that is gone.
    let failed = Inspected::Failed("gone");
    assert_eq!(c.refresh_metadata(b"a", "a", true, &failed, Ok(&vec![])), Ok((true, 1)));
    let said: Vec<String> =
        c.metadata("a").unwrap().sources.into_iter().map(|s| s.availability).collect();
    assert_eq!(
        said,
        [
            "inspection failed: gone",
            "not found in current directory scan; retained metadata remains available"
        ]
    );
    // A listing that fails comes after the look at the original.
    assert_eq!(
        c.refresh_metadata(b"a", "a", true, &found, Err(CatalogError::SidecarLimit)),
        Err(CatalogError::SidecarLimit)
    );
    assert!(!c.needs_embedded_inspection("a", b"a", false));
    assert_eq!(
        c.refresh_metadata(b"b", "b", true, &found, Ok(&vec![])),
        Err(CatalogError::AssetNotFound)
    );
}

#[test]
fn renderings_are_attached_only_to_what_they_show() {
    let mut c = Catalog::new(1);
    photo(&mut c);
    let before = c.render_identity("a").unwrap();
    assert_eq!(c.with_render_identity(&before, || Ok(7)).unwrap(), Some(7));
    c.tables.assets[0].fingerprint = Some("new".to_string());
    assert_eq!(c.with_render_identity(&before, || -> Result<i32, CatalogError> {
        panic!("a stale rendering was attached")
    }).unwrap(), None);
    assert!(c.render_identity("none").is_err());
}

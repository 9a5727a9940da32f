//! Metadata of imported files, projected from earlier inspections and supplements.
use photo_catalog::catalog::Catalog;
use photo_catalog::catalog_images::register::{insert_asset, NewAsset};
use photo_catalog::catalog_images::VariantKey;
use photo_catalog::catalog_metadata::prepared::{
    Declared, Inspection, Packet, ParseInput, PreparedValue, Projected, Reading,
};
use photo_catalog::catalog_migration::evidence::CHUNK_BYTES;
use photo_catalog::catalog_migration::file_history::{
    indices, origin_path, ranges, read_historical, reconstruct, Origin, RawInspection, Rebuilt,
    META, PACKET,
};
use photo_catalog::catalog_migration::file_metadata::{
    payload, Association, InputSeal, Payload, Projection, ProjectionResult, Roster,
    SelectedCapture, Supplement, SupplementInput, SupplementPacket, SupplementPin,
    SupplementalProof,
};
use photo_catalog::catalog_migration::file_projection::FilePlan;
use photo_catalog::catalog_migration::images::OriginalRow;
use photo_catalog::catalog_migration::import_steps::FileFacts;
use photo_catalog::catalog_migration::importer;
use photo_catalog::catalog_migration::importer::{
    KeywordOverlap, Outcome, OverlapPolicy, Policy, RowResult, Stage,
};
use photo_catalog::catalog_migration::proofs::{SourceKey, SourceRecord};
use photo_catalog::catalog_migration::retained::{
    ByteRange, Cell, Chunk, Collection, Coverage, Detail, EvidenceRecord, Field, MigrationError,
    NamedField, NativePath, Observation, PacketDetail, ParseDetail, PathDetail, RowKey,
    SourceRevision, Status,
};

const XML: &[u8] = b"<rdf:RDF xmp:Rating=\"4\"><u:unknown>keep all</u:unknown></rdf:RDF>";
const REVISION: &str = "selected-capture";

fn hash(bytes: &[u8]) -> String {
    blake3::hash(bytes).to_hex().to_string()
}

fn text(name: &str, value: &str) -> NamedField {
    NamedField {
        name: name.to_string(),
        field: Field::Inline(Cell::Text(value.as_bytes().to_vec())),
    }
}

fn chunked(content: Vec<u8>, size: usize) -> Field {
    let mut chunks = Vec::new();
    let mut offset: usize = 0;
    for part in content.chunks(size) {
        chunks.push(Chunk { offset: offset as u64, length: part.len() as u64, hash: hash(part) });
        offset += part.len();
    }
    Field::Bytes { text: false, content, committed: true, chunks }
}

fn record(sequence: i64, input: &str, collection: Collection) -> EvidenceRecord {
    EvidenceRecord {
        sequence,
        input: input.to_string(),
        revision: REVISION.to_string(),
        source_rowid: sequence,
        digest: String::new(),
        raw_length: 256,
        complete: true,
        collection,
        fields: vec![],
        key_cells: None,
        key: None,
        columns: None,
        cells: None,
        detail: Detail::Unread,
    }
}

fn revision() -> SourceRevision {
    SourceRevision { length: 100000, blake3: "a".repeat(64), modified_unix_ns: Some(42) }
}

fn base() -> NativePath {
    NativePath::UnixBytes(b"/photos/never-opened-original.psd".to_vec())
}

struct Fixture {
    catalog: Catalog,
    request: Projection,
    roster: Roster,
    supplement: Option<Supplement>,
    status: Status,
}

fn records(
    first: i64,
    input: &str,
    source_id: &str,
    origin: Origin,
    status: Status,
    chunk: usize,
) -> Vec<EvidenceRecord> {
    let key = "[{\"Integer\":17}]";
    let mut row = record(first, input, Collection::Rows);
    row.fields = vec![
        text("source_id", source_id),
        text("table_name", "AgLibraryFile"),
        text("key_json", key),
        text("cells_json", "[]"),
    ];
    row.key_cells = Some(vec![Cell::Integer(17)]);
    row.key = Some(RowKey { key: key.to_string(), identity: "file-identity".to_string() });
    row.cells = Some(vec![]);
    let mut path = record(first + 1, input, Collection::Paths);
    path.fields = vec![
        text("source_id", source_id),
        text("evidence", "{}"),
        text("inspection_path", "{}"),
    ];
    path.detail = Detail::Path(PathDetail {
        inspections: Some(vec![Observation {
            origin: origin.name().to_string(),
            status: Some(status),
            revision: Some(revision()),
            packets: Some(1),
            parse_inputs: Some(1),
            issues: "[]".to_string(),
            document: format!("{{\"origin\":\"{}\"}}", origin.name()),
        }]),
        base: base(),
    });
    let mut packet = record(first + 2, input, Collection::Packets);
    packet.fields = vec![
        text("source_id", source_id),
        text("origin", &format!("{}:packet:0", origin.name())),
        text("raw_digest", &hash(XML)),
        NamedField { name: "raw".to_string(), field: chunked(XML.to_vec(), chunk) },
        NamedField { name: "decoded".to_string(), field: Field::Inline(Cell::Null) },
        text("detail", "{\"container\":\"PsdResource1060\"}"),
    ];
    packet.detail = Detail::Packet(PacketDetail {
        container: Some("PsdResource1060".to_string()),
        ranges: vec![ByteRange { offset: 123, length: XML.len() as u64 }],
        group: "original:packet:0".to_string(),
        attributes: "{\"unknown-container-key\":\"retain\"}".to_string(),
        source_revision: revision(),
        inspection_status: status,
        source_path: origin_path(&base(), origin).unwrap(),
    });
    let mut input_row = record(first + 3, input, Collection::Packets);
    input_row.fields = vec![
        text("source_id", source_id),
        text("origin", &format!("{}:parse_input:0", origin.name())),
        text("raw_digest", &hash(XML)),
        NamedField { name: "raw".to_string(), field: Field::Inline(Cell::Blob(vec![])) },
        NamedField { name: "decoded".to_string(), field: chunked(XML.to_vec(), chunk) },
        text("detail", "{\"transformation\":\"Identity\"}"),
    ];
    input_row.detail = Detail::Parse(ParseDetail {
        transformation: Some("Identity".to_string()),
        packet_indices: vec![0],
        group: "original:packet:0".to_string(),
        input_blake3: hash(XML),
        source_revision: revision(),
        inspection_status: status,
    });
    vec![row, path, packet, input_row]
}

fn upload(c: &mut Catalog, bytes: &[u8], name: &str) -> Payload {
    let state = c.begin_migration_evidence(name.as_bytes(), bytes.len() as u64).unwrap();
    for (n, part) in bytes.chunks(CHUNK_BYTES).enumerate() {
        c.append_migration_evidence(&state.id, (n * CHUNK_BYTES) as u64, part).unwrap();
    }
    Payload { evidence: state.id, length: bytes.len() as u64, blake3: hash(bytes) }
}

impl Fixture {
    fn new(origin: Origin, status: Status, supplemental: bool, hidden: bool) -> Fixture {
        let mut catalog = Catalog::new(1);
        catalog.migration.retained.records = records(1, "first", "file-id", origin, status, 1 << 20);
        for input in ["first", "second", "third", "fourth"] {
            catalog.migration.retained.coverage.push(Coverage {
                input: input.to_string(),
                revision: REVISION.to_string(),
                complete: true,
                keys_complete: true,
            });
        }
        let mut rowids = vec![3, 4];
        if hidden {
            let mut other = record(5, "first", Collection::Packets);
            other.fields = vec![
                text("source_id", "file-id"),
                text("origin", &format!("{}:packet:99", origin.name())),
            ];
            catalog.migration.retained.records.push(other);
            rowids.push(5);
        }
        let mut pins = vec![];
        let mut supplement = None;
        let mut id = None;
        if supplemental {
            let bytes = upload(&mut catalog, XML, "qualified supplemental bytes");
            let validation_document = upload(
                &mut catalog,
                b"original exact independent validation document",
                "original validation",
            );
            let again = Payload {
                evidence: bytes.evidence.clone(),
                length: bytes.length,
                blake3: bytes.blake3.clone(),
            };
            let proof = SupplementalProof {
                protocol: 1,
                revision: REVISION.to_string(),
                source_id: "file-id".to_string(),
                origin: origin.name().to_string(),
                source_revision: revision(),
                historical_status: status,
                status: Status::Complete,
                issues: "[]".to_string(),
                validation_document,
                packets: vec![SupplementPacket {
                    payload: bytes,
                    container: "PsdResource1060".to_string(),
                    ranges: vec![ByteRange { offset: 123, length: XML.len() as u64 }],
                    group: "original:packet:0".to_string(),
                    attributes: "{}".to_string(),
                }],
                parse_inputs: vec![SupplementInput {
                    payload: again,
                    transformation: "Identity".to_string(),
                    packet_indices: vec![0],
                    group: "original:packet:0".to_string(),
                }],
            };
            let document =
                upload(&mut catalog, b"the document of the proof", "qualified supplement manifest");
            pins.push(SupplementPin {
                revision: REVISION.to_string(),
                source_id: "file-id".to_string(),
                origin: origin.name().to_string(),
                source_revision: revision(),
                historical_status: status,
                proof_blake3: document.blake3,
            });
            id = Some(document.evidence);
            supplement = Some(Supplement { proof, semantic: b"meaning".to_vec() });
        }
        for input in ["second", "third", "fourth"] {
            catalog.migration.files.seals.push(InputSeal {
                id: input.to_string(),
                selected: vec![],
                supplements: vec![],
            });
        }
        catalog.migration.files.seals.push(InputSeal {
            id: "first".to_string(),
            selected: vec![SelectedCapture {
                revision: REVISION.to_string(),
                manifest_blake3: String::new(),
            }],
            supplements: pins,
        });
        insert_asset(
            &mut catalog.tables,
            &NewAsset {
                id: "asset".to_string(),
                location: b"/photos/never-opened-original.psd".to_vec(),
                fingerprint: None,
                state: "pending".to_string(),
            },
        )
        .unwrap();
        catalog.migration.images.originals.push(OriginalRow {
            source_identity: "file-identity".to_string(),
            asset_id: "asset".to_string(),
            import_source: "lightroom".to_string(),
            decision: String::new(),
        });
        Fixture {
            catalog,
            request: Projection {
                file: SourceRecord {
                    retained_record: 1,
                    source: SourceKey {
                        capture_revision: REVISION.to_string(),
                        table: "AgLibraryFile".to_string(),
                        key: "[{\"Integer\":17}]".to_string(),
                        identity: "file-identity".to_string(),
                    },
                },
                retained_path: 2,
                origin,
                packet_records: vec![3, 4],
                import_source: "lightroom".to_string(),
                association: Association::Unresolved,
                supplement: id,
            },
            roster: Roster { binding: "first".to_string(), rowids },
            supplement,
            status,
        }
    }

    /// Another inspection of the same capture, under other names of its own.
    fn rebuilt(&mut self, input: &str, first: i64, chunk: usize) -> (Projection, Roster) {
        let origin = self.request.origin;
        self.catalog.migration.retained.records.extend(records(
            first,
            input,
            "rebuilt-file-id",
            origin,
            self.status,
            chunk,
        ));
        let mut request = copy(&self.request);
        request.file.retained_record = first;
        request.retained_path = first + 1;
        request.packet_records = vec![first + 2, first + 3];
        (request, Roster { binding: input.to_string(), rowids: vec![first + 2, first + 3] })
    }

    fn run(&mut self) -> Result<ProjectionResult, MigrationError> {
        project(&mut self.catalog, Some(&self.roster), &self.request, self.supplement.as_ref())
    }

    fn master(&self) -> VariantKey {
        VariantKey::master("asset")
    }
}

fn copy(r: &Projection) -> Projection {
    Projection {
        file: r.file.clone(),
        retained_path: r.retained_path,
        origin: r.origin,
        packet_records: r.packet_records.clone(),
        import_source: r.import_source.clone(),
        association: match &r.association {
            Association::Unresolved => Association::Unresolved,
            Association::Confirmed { reason } => Association::Confirmed { reason: reason.clone() },
        },
        supplement: r.supplement.clone(),
    }
}

fn interpret(raw: &RawInspection) -> Inspection {
    Inspection {
        file_length: raw.revision.length,
        file_blake3: raw.revision.blake3.clone(),
        modified: raw.revision.modified_unix_ns,
        status: "Complete".to_string(),
        issues: raw.issues.clone(),
        blank: "{}".to_string(),
        packets: raw
            .packets
            .iter()
            .map(|p| Packet {
                container: p.container.clone(),
                bytes: p.bytes.clone(),
                blake3: p.blake3.clone(),
                ranges: p.ranges.clone(),
                group: p.group.clone(),
                attributes: p.attributes.clone(),
            })
            .collect(),
        parse_inputs: raw
            .parse_inputs
            .iter()
            .map(|p| ParseInput {
                bytes: p.bytes.clone(),
                blake3: p.blake3.clone(),
                packet_indices: p.packet_indices.clone(),
                transformation: p.transformation.clone(),
                group: p.group.clone(),
                text_bound: p.bytes.len(),
                reading: Reading::Projected(Projected {
                    rest: String::new(),
                    fields: vec![PreparedValue {
                        field: "rating".to_string(),
                        value: "\"4\"".to_string(),
                        semantic_hash: Some(hash(b"4")),
                    }],
                    flawed: false,
                }),
                extended: Declared::Nothing,
                merge: None,
            })
            .collect(),
    }
}

fn project(
    catalog: &mut Catalog,
    roster: Option<&Roster>,
    request: &Projection,
    supplement: Option<&Supplement>,
) -> Result<ProjectionResult, MigrationError> {
    let inspection = match catalog.plan_migration_file_metadata(roster, request, supplement)? {
        FilePlan::Replayed(_) => None,
        FilePlan::Ready(p) => p.found.as_ref().map(|x| interpret(&x.0)),
    };
    catalog.project_migration_file_metadata(roster, request, supplement, inspection.as_ref())
}

fn same_result(a: &ProjectionResult, b: &ProjectionResult) -> bool {
    a.input_digest == b.input_digest
        && a.asset_id == b.asset_id
        && a.state == b.state
        && a.historical_status == b.historical_status
        && a.observation == b.observation
        && a.reason == b.reason
}

#[test]
fn rebuilt_capture_replays_actual_content_without_new_metadata_revision() {
    let mut t = Fixture::new(Origin::Embedded, Status::Complete, false, false);
    let old = t.run().unwrap();
    let revision = t.catalog.metadata_for_image(&t.master()).unwrap().revision;
    let (request, roster) = t.rebuilt("second", 11, 64);
    // A new input cannot borrow the roster of the old one.
    assert_eq!(
        project(&mut t.catalog, None, &request, None).err(),
        Some(MigrationError::SealNeeded)
    );
    assert!(same_result(&project(&mut t.catalog, Some(&roster), &request, None).unwrap(), &old));
    assert_eq!(t.catalog.metadata_for_image(&t.master()).unwrap().revision, revision);
    let first = copy(&t.request);
    assert!(same_result(&project(&mut t.catalog, None, &first, None).unwrap(), &old));
}

#[test]
fn rebuilt_payload_detail_and_omitted_roster_do_not_reuse_old_observation() {
    for (column, record) in [("raw", 13), ("decoded", 14), ("detail", 13)] {
        let mut t = Fixture::new(Origin::Embedded, Status::Complete, false, false);
        let old = t.run().unwrap();
        let (request, roster) = t.rebuilt("second", 11, 1 << 20);
        let rec = t
            .catalog
            .migration
            .retained
            .records
            .iter_mut()
            .find(|r| r.sequence == record)
            .unwrap();
        let field = rec.fields.iter_mut().find(|f| f.name == column).unwrap();
        field.field = chunked(b"different actual custody".to_vec(), 1 << 20);
        assert!(project(&mut t.catalog, Some(&roster), &request, None).is_err(), "{column}");
        let first = copy(&t.request);
        assert!(same_result(&project(&mut t.catalog, None, &first, None).unwrap(), &old));
    }
    let mut t = Fixture::new(Origin::Embedded, Status::Complete, false, false);
    t.run().unwrap();
    let (request, mut roster) = t.rebuilt("second", 11, 1 << 20);
    roster.rowids.push(15);
    assert_eq!(
        project(&mut t.catalog, Some(&roster), &request, None).err(),
        Some(MigrationError::RosterDiffers)
    );
}

#[test]
fn oversized_rebuilt_custody_binds_committed_chunks_without_reading_payload() {
    let mut t = Fixture::new(Origin::Embedded, Status::ResourceLimit, false, false);
    let large = vec![23u8; PACKET + 1];
    let put = |t: &mut Fixture, sequence: i64, content: Vec<u8>, chunk: usize| {
        let rec = t
            .catalog
            .migration
            .retained
            .records
            .iter_mut()
            .find(|r| r.sequence == sequence)
            .unwrap();
        rec.fields.iter_mut().find(|f| f.name == "raw").unwrap().field = chunked(content, chunk);
    };
    put(&mut t, 3, large.clone(), CHUNK_BYTES);
    let old = t.run().unwrap();
    assert_eq!(old.state, "retained_only");
    assert!(old.reason.as_deref().unwrap().contains("ordered chunk geometry"));
    let (request, roster) = t.rebuilt("second", 11, 1 << 20);
    put(&mut t, 13, large.clone(), CHUNK_BYTES);
    assert!(same_result(&project(&mut t.catalog, Some(&roster), &request, None).unwrap(), &old));
    let (request, roster) = t.rebuilt("third", 21, 1 << 20);
    put(&mut t, 23, large.clone(), 64 * 1024);
    assert_eq!(
        project(&mut t.catalog, Some(&roster), &request, None).err(),
        Some(MigrationError::DecisionChanged)
    );
    let mut changed = large;
    changed[0] = 24;
    let (request, roster) = t.rebuilt("fourth", 31, 1 << 20);
    put(&mut t, 33, changed, CHUNK_BYTES);
    assert!(project(&mut t.catalog, Some(&roster), &request, None).is_err());
}

#[test]
fn complete_embedded_projects_full_evidence_once_and_shares_with_copy() {
    let mut t = Fixture::new(Origin::Embedded, Status::Complete, false, false);
    let master = t.master();
    let other = VariantKey { asset_id: "asset".to_string(), variant_id: "copy".to_string() };
    t.catalog.register_copy(&other, &master).unwrap();
    let done = t.run().unwrap();
    assert_eq!(done.state, "metadata_retained");
    let packets =
        t.catalog.metadata_packets_for_image(&master, done.observation.unwrap()).unwrap();
    assert_eq!(packets[0].bytes, XML);
    assert!(!t.catalog.metadata_history_for_image(&other, 0, 100).unwrap().is_empty());
    let revision = t.catalog.metadata_for_image(&master).unwrap().revision;
    let request = copy(&t.request);
    assert!(same_result(&project(&mut t.catalog, None, &request, None).unwrap(), &done));
    assert_eq!(t.catalog.metadata_for_image(&master).unwrap().revision, revision);
}

#[test]
fn sidecar_confirmation_is_explicit_and_cannot_change_on_replay() {
    let mut t = Fixture::new(Origin::AppendedXmp, Status::Complete, false, false);
    let done = t.run().unwrap();
    assert_eq!(done.state, "ambiguous_metadata_retained");
    assert_eq!(
        t.catalog.metadata_for_image(&t.master()).unwrap().sources[0].association,
        "ambiguous"
    );
    t.request.association =
        Association::Confirmed { reason: "reviewed exact source ownership".to_string() };
    assert_eq!(t.run().err(), Some(MigrationError::DecisionChanged));
    let mut other = Fixture::new(Origin::SidecarUpper, Status::Complete, false, false);
    other.request.association =
        Association::Confirmed { reason: "reviewed literal source association".to_string() };
    assert_eq!(other.run().unwrap().state, "metadata_retained");
    other.request.association = Association::Confirmed { reason: " ".to_string() };
    assert_eq!(other.run().err(), Some(MigrationError::ReasonBounds));
}

#[test]
fn subset_wrong_file_and_hidden_roster_fail_without_native_change() {
    let mut t = Fixture::new(Origin::Embedded, Status::Complete, false, false);
    t.request.packet_records.pop();
    assert!(t.run().is_err());
    let mut t = Fixture::new(Origin::Embedded, Status::Complete, false, true);
    assert_eq!(t.run().err(), Some(MigrationError::RosterDiffers));
    assert!(t.catalog.migration.files.rows.is_empty());
    t.request.file.source.key = "[{\"Integer\":999}]".to_string();
    assert_eq!(t.run().err(), Some(MigrationError::SourceDiffers));
    assert!(t.catalog.tables.observations.is_empty());
}

#[test]
fn incomplete_is_retained_and_complete_supplement_is_separate() {
    let mut t = Fixture::new(Origin::Embedded, Status::Malformed, true, false);
    let original = t.request.supplement.take();
    let old = t.run().unwrap();
    assert_eq!(old.state, "retained_only");
    assert!(old.observation.is_none());
    t.request.supplement = original;
    let new = t.run().unwrap();
    assert_eq!(new.state, "metadata_retained");
    assert_eq!(new.historical_status, Some(Status::Malformed));
    assert_eq!(t.catalog.migration.files.rows.len(), 2);
    let forged = upload(&mut t.catalog, b"arbitrary unqualified summary", "wrong proof");
    t.request.supplement = Some(forged.evidence);
    assert_eq!(t.run().err(), Some(MigrationError::SupplementUnpinned));
}

#[test]
fn metadata_checkpoint_failure_rolls_back_observation_and_retries() {
    let mut t = Fixture::new(Origin::Embedded, Status::Complete, false, false);
    let request = copy(&t.request);
    // What was found has to come back interpreted.
    assert_eq!(
        t.catalog
            .project_migration_file_metadata(Some(&t.roster), &request, None, None)
            .err(),
        Some(MigrationError::PreparationDiffers)
    );
    assert!(t.catalog.metadata_history_for_image(&t.master(), 0, 100).unwrap().is_empty());
    assert!(t.catalog.migration.files.rows.is_empty());
    t.run().unwrap();
}

#[test]
fn interpretation_limits_keep_complete_custody_without_reading_oversized_bytes() {
    let mut t = Fixture::new(Origin::Embedded, Status::Complete, false, false);
    let sequences = vec![3, 4];
    {
        let r = &t.catalog.migration.retained;
        let (observed, entries) =
            read_historical(r, 1, "first", REVISION, "file-id", Origin::Embedded, &sequences, true)
                .ok()
                .unwrap();
        assert!(matches!(
            reconstruct(r, observed, &base(), &entries, Origin::Embedded),
            Rebuilt::Built(_)
        ));
    }
    t.catalog.migration.retained.records[2]
        .fields
        .iter_mut()
        .find(|f| f.name == "raw")
        .unwrap()
        .field = Field::Bytes {
        text: false,
        content: vec![0; PACKET + 1],
        committed: true,
        chunks: vec![],
    };
    let r = &t.catalog.migration.retained;
    let (observed, entries) =
        read_historical(r, 1, "first", REVISION, "file-id", Origin::Embedded, &sequences, true)
            .ok()
            .unwrap();
    assert!(matches!(
        reconstruct(r, observed, &base(), &entries, Origin::Embedded),
        Rebuilt::RetainedOnly
    ));
}

#[test]
fn supplemental_transport_never_supplies_hash_or_length_authority() {
    let mut t = Fixture::new(Origin::Embedded, Status::Complete, false, false);
    let mut p = upload(&mut t.catalog, b"complete bytes", "hash negative");
    assert_eq!(payload(&t.catalog.evidence, &p, META).ok().unwrap(), b"complete bytes");
    p.blake3 = "0".repeat(64);
    assert!(payload(&t.catalog.evidence, &p, META).is_err());
    p.blake3 = hash(b"complete bytes");
    p.length += 1;
    assert!(payload(&t.catalog.evidence, &p, META).is_err());
    assert!(!indices(&vec![1], 1));
    assert!(indices(&vec![0], 1));
    assert!(!ranges(&vec![ByteRange { offset: 100000, length: 1 }], &revision()));
    assert!(ranges(&vec![ByteRange { offset: 99999, length: 1 }], &revision()));
}

#[test]
fn sidecars_are_located_beside_the_file() {
    let at = |o: Origin| match origin_path(&NativePath::UnixBytes(b"/p/a.CR2".to_vec()), o) {
        Some(NativePath::UnixBytes(b)) => String::from_utf8(b).unwrap(),
        _ => panic!("a path of this platform"),
    };
    assert_eq!(at(Origin::Embedded), "/p/a.CR2");
    assert_eq!(at(Origin::SidecarXmp), "/p/a.xmp");
    assert_eq!(at(Origin::SidecarUpper), "/p/a.XMP");
    assert_eq!(at(Origin::AppendedXmp), "/p/a.CR2.xmp");
    assert_eq!(at(Origin::AppendedUpper), "/p/a.CR2.XMP");
    let beside = |path: &[u8]| match origin_path(
        &NativePath::UnixBytes(path.to_vec()),
        Origin::SidecarXmp,
    ) {
        Some(NativePath::UnixBytes(b)) => String::from_utf8(b).unwrap(),
        _ => panic!("a path of this platform"),
    };
    assert_eq!(beside(b"/p/a.CR2/"), "/p/a.xmp");
    assert_eq!(beside(b"/p/a.CR2/."), "/p/a.xmp");
    assert_eq!(beside(b"/p/.."), "/p/..");
    assert_eq!(beside(b"/p/.a"), "/p/.a.xmp");
    assert!(origin_path(&NativePath::WindowsWide(vec![67]), Origin::SidecarXmp).is_none());
    assert_eq!(Origin::SidecarXmp.kind(), "sidecar");
    assert_eq!(Origin::Embedded.kind(), "embedded");
}

fn planned(t: &Fixture, request: &Projection, given: Option<&Supplement>) -> Option<Inspection> {
    match t.catalog.plan_migration_file_metadata(Some(&t.roster), request, given).ok().unwrap() {
        FilePlan::Replayed(_) => None,
        FilePlan::Ready(p) => p.found.as_ref().map(|x| interpret(&x.0)),
    }
}

#[test]
fn importing_projects_the_inspection_first_and_its_supplement_after() {
    let mut t = Fixture::new(Origin::Embedded, Status::Malformed, true, false);
    let mut request = copy(&t.request);
    request.association = Association::Confirmed {
        reason: "Retained embedded packet belongs to its exact selected file source".to_string(),
    };
    let supplemented = planned(&t, &request, t.supplement.as_ref());
    assert!(supplemented.is_some());
    let policy = Policy {
        import_source: "lightroom".to_string(),
        overlap: OverlapPolicy::RequireDecision,
        keyword_overlap: KeywordOverlap::RequireDecision,
        artifacts: vec![],
        supplements: vec![importer::SupplementInput {
            capture_revision: REVISION.to_string(),
            source_id: "file-id".to_string(),
            origin: Origin::Embedded,
            evidence: request.supplement.clone().unwrap(),
        }],
    };
    let facts = FileFacts {
        rowids: vec![3, 4],
        interpreted: None,
        supplement: t.supplement.take(),
        supplemented,
    };
    let origin = t.request.file.clone();
    let import = |c: &mut Catalog, stage: Stage| {
        c.import_file_metadata("first", &policy, &origin, stage, &facts)
    };
    let first = match import(&mut t.catalog, Stage::FileEmbedded) {
        Ok(RowResult::Applied(Outcome::FileMetadata(result))) => result,
        _ => panic!("the supplement is projected"),
    };
    assert_eq!(first.state, "metadata_retained");
    assert_eq!(first.historical_status, Some(Status::Malformed));
    let states: Vec<bool> =
        t.catalog.migration.files.rows.iter().map(|r| r.result.observation.is_some()).collect();
    assert_eq!(states, vec![false, true]);
    // Coming to the row again finds both as they were decided.
    match import(&mut t.catalog, Stage::FileEmbedded) {
        Ok(RowResult::Applied(Outcome::FileMetadata(again))) => assert!(same_result(&again, &first)),
        _ => panic!("the supplement is found again"),
    }
    assert_eq!(t.catalog.migration.files.rows.len(), 2);
    assert_eq!(import(&mut t.catalog, Stage::Masters).err(), Some(MigrationError::StageDiffers));
    t.catalog.migration.images.originals.clear();
    match import(&mut t.catalog, Stage::FileEmbedded) {
        Ok(RowResult::Applied(Outcome::Retained { reason })) => assert_eq!(
            reason,
            "File metadata has no mapped original; all source evidence remains retained"
        ),
        _ => panic!("a file without an original is kept"),
    }
}

#[test]
fn decisions_on_files_keep_what_they_rest_on_and_are_found_again() {
    let mut t = Fixture::new(Origin::Embedded, Status::Malformed, true, false);
    let mut request = copy(&t.request);
    request.association = Association::Confirmed {
        reason: "Retained embedded packet belongs to its exact selected file source".to_string(),
    };
    let given = t.supplement.clone();
    let first =
        project(&mut t.catalog, Some(&t.roster), &request, given.as_ref()).ok().unwrap();
    let receipts = t.catalog.migration.files.rows.last().unwrap().receipts.clone();
    assert_eq!(receipts.file, request.file.retained_record);
    assert_eq!(receipts.path, request.retained_path);
    assert_eq!(receipts.packet_records, request.packet_records);
    assert_eq!(receipts.supplement_evidence, request.supplement);
    assert_eq!(receipts.source_binding, t.roster.binding);
    let rows = t.catalog.migration.files.rows.len();
    let again = project(&mut t.catalog, None, &request, given.as_ref()).ok().unwrap();
    assert!(same_result(&again, &first));
    assert_eq!(t.catalog.migration.files.rows.len(), rows);
}

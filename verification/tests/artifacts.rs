//! Custody of the files that were captured.
use photo_catalog::catalog::Catalog;
use photo_catalog::catalog_migration::artifacts::{
    admitted_mapping_path, decode, encode_descriptor, mapping_path, prepare_mapping, Allowance,
    Artifact, ArtifactDescriptor, ArtifactError, ArtifactLimits, ArtifactMapping, ArtifactReader,
    ArtifactRequest, CaptureDetail, ContentCheck, FileIdentity, FileKey, Manifest,
    MappingPreparation, DESCRIPTOR_LIMIT,
};
use photo_catalog::catalog_migration::evidence::{EvidenceError, CHUNK_BYTES};
use photo_catalog::catalog_migration::file_metadata::{InputSeal, SelectedCapture};
use photo_catalog::catalog_migration::import_artifacts::{request, Work, Worker};
use photo_catalog::catalog_migration::importer::{
    ArtifactInput, KeywordOverlap, OverlapPolicy, Policy, Progress, Stage, StepEvent,
};
use photo_catalog::catalog_migration::retained::{
    Cell, Collection, Detail, EvidenceRecord, Field, MigrationError, NamedField, NativePath,
};

const INPUT: &str = "6b7d04a1f0c85e2396b7d04a1f0c85e2396b7d04a1f0c85e2396b7d04a1f0c85";

fn hash(bytes: &[u8]) -> String {
    blake3::hash(bytes).to_hex().to_string()
}

fn must<T>(r: Result<T, ArtifactError>) -> T {
    match r {
        Ok(value) => value,
        Err(e) => panic!("{e:?}"),
    }
}

fn unix(path: &str) -> NativePath {
    NativePath::UnixBytes(path.as_bytes().to_vec())
}

fn record(sequence: i64, collection: Collection, revision: &str) -> EvidenceRecord {
    EvidenceRecord {
        sequence,
        input: INPUT.to_string(),
        revision: revision.to_string(),
        source_rowid: sequence,
        digest: String::new(),
        raw_length: 256,
        complete: true,
        collection,
        fields: vec![],
        key_cells: None,
        key: None,
        columns: None,
        cells: None,
        detail: Detail::Unread,
    }
}

struct Fixture {
    catalog: Catalog,
    requests: Vec<ArtifactRequest>,
    expected: Vec<Vec<u8>>,
    revision: String,
}

impl Fixture {
    fn new(length: usize) -> Fixture {
        let expected = vec![
            (0..length).map(|n| (n % 251) as u8).collect::<Vec<_>>(),
            vec![0, 255, 0, 129, 3],
        ];
        let revision = hash(b"the captured files");
        let mut artifacts = vec![];
        let mut requests = vec![];
        for (index, bytes) in expected.iter().enumerate() {
            let relative = format!("member-{index}.opaque");
            let copy = FileIdentity {
                object: format!("copy-{index}"),
                bytes: bytes.len() as u64,
                modified_ns: Some(7),
                changed: "stamp".to_string(),
            };
            let original = FileIdentity {
                object: format!("historical-original-{index}"),
                bytes: bytes.len() as u64,
                modified_ns: Some(7),
                changed: "historical stamp".to_string(),
            };
            requests.push(ArtifactRequest {
                retained_capture_record: 1,
                member_index: index,
                mapping: ArtifactMapping {
                    root: unix("/sealed"),
                    relative: unix(&relative),
                    copy_identity: copy,
                },
            });
            artifacts.push(Artifact {
                source: unix("/never/open/original"),
                role: if index == 0 { "main" } else { "opaque_auxiliary" }.to_string(),
                relative: unix(&relative),
                stored: format!("raw/{relative}"),
                revision: original,
                blake3: hash(bytes),
            });
        }
        let manifest = b"{\"protocol\":1}";
        let mut capture = record(1, Collection::Captures, &revision);
        capture.fields = vec![NamedField {
            name: "manifest".to_string(),
            field: Field::Inline(Cell::Text(manifest.to_vec())),
        }];
        capture.detail = Detail::Capture(CaptureDetail {
            manifest: Manifest {
                protocol: 1,
                state: "captured".to_string(),
                revision_id: Some(revision.clone()),
                artifacts,
            },
            artifacts_blake3: revision.clone(),
        });
        let mut catalog = Catalog::new(1);
        catalog.migration.retained.records.push(capture);
        catalog.migration.retained.records.push(record(2, Collection::Rows, &revision));
        catalog.migration.files.seals.push(InputSeal {
            id: INPUT.to_string(),
            selected: vec![SelectedCapture {
                revision: revision.clone(),
                manifest_blake3: hash(manifest),
            }],
            supplements: vec![],
        });
        Fixture { catalog, requests, expected, revision }
    }

    fn limits() -> ArtifactLimits {
        ArtifactLimits {
            maximum_bytes: 32 * 1024 * 1024,
            open_deadline_ms: 30_000,
            chunk_deadline_ms: 10_000,
            chunk_bytes: 256 * 1024,
        }
    }

    fn content(&self, index: usize) -> ContentCheck {
        read(&self.expected[index])
    }

    fn open(&self, request: &ArtifactRequest) -> Result<ArtifactReader, ArtifactError> {
        self.catalog.open_migration_artifact(
            request,
            Fixture::limits(),
            false,
            &request.mapping.copy_identity,
            FileKey { device: 1, object: request.member_index as u64 },
            &self.content(request.member_index.min(1)),
        )
    }

    fn policy(&self) -> Policy {
        Policy {
            import_source: "custody".to_string(),
            overlap: OverlapPolicy::RequireDecision,
            keyword_overlap: KeywordOverlap::RequireDecision,
            artifacts: self
                .requests
                .iter()
                .map(|r| ArtifactInput {
                    capture_revision: self.revision.clone(),
                    member_index: r.member_index,
                    mapping: r.mapping.clone(),
                })
                .collect(),
            supplements: vec![],
        }
    }
}

fn read(bytes: &[u8]) -> ContentCheck {
    let mut check = ContentCheck::new(bytes.len() as u64);
    let mut at = 0;
    while check.next_read() > 0 {
        let n = check.next_read();
        check.take(&bytes[at..at + n]).unwrap();
        at += n;
    }
    check
}

#[test]
fn saved_artifact_identity_and_descriptor_guards_cover_pending_and_recheck() {
    let mut t = Fixture::new(17);
    let wanted = t.requests[0].clone();
    let mut reader = must(t.open(&wanted));
    let before = t.catalog.begin_migration_artifact(&mut reader, true).unwrap();
    let policy = t.policy();
    let run = t.catalog.begin_selected_import(INPUT, &policy).ok().unwrap().id;
    t.catalog.migration.runs.runs[0].progress.stage = Stage::ArtifactCustody;
    let progress: Progress = t.catalog.selected_import_progress(&run).ok().unwrap();
    let pending = |c: &mut Catalog| c.step_selected_import(INPUT, &run, StepEvent::Nothing);
    let next = request(
        &t.catalog.migration.retained,
        &t.catalog.migration.files.seals[0],
        &progress,
        &policy,
    )
    .ok()
    .unwrap()
    .unwrap();
    assert!(next.same_as(&wanted));
    // Custody whose evidence has a name that no evidence can have.
    let id = before.id.clone();
    for name in ["x".repeat(1048576), "é".repeat(66), "\u{ff}".repeat(63)] {
        t.catalog.migration.artifacts.rows[0].evidence = name.clone();
        t.catalog.evidence.rows[0].id = name;
        assert_eq!(t.open(&wanted).err(), Some(ArtifactError::EvidenceShape));
        assert_eq!(t.catalog.migration_artifact(1, 0).err(), Some(ArtifactError::EvidenceShape));
        assert_eq!(pending(&mut t.catalog).err(), Some(MigrationError::EvidenceShape));
        assert!(t.catalog.selected_import_progress(&run).ok().unwrap().same_as(&progress));
    }
    t.catalog.migration.artifacts.rows[0].evidence = id.clone();
    t.catalog.evidence.rows[0].id = id;
    assert_eq!(t.catalog.migration_artifact(1, 0).ok().unwrap().1.id, before.id);
    // Custody whose evidence describes more than any evidence can.
    let kept = t.catalog.evidence.rows[0].descriptor.clone();
    t.catalog.evidence.rows[0].descriptor = vec![0; 65537];
    assert_eq!(pending(&mut t.catalog).err(), Some(MigrationError::DescriptorSize));
    assert!(t.catalog.selected_import_progress(&run).ok().unwrap().same_as(&progress));
    assert_eq!(
        t.catalog.migration_artifact(1, 0).err(),
        Some(ArtifactError::Evidence(EvidenceError::DescriptorSize))
    );
    // Nor is custody found whose evidence describes something else.
    t.catalog.evidence.rows[0].descriptor = vec![0; 17];
    assert_eq!(pending(&mut t.catalog).err(), Some(MigrationError::CustodyDiffers));
    t.catalog.evidence.rows[0].descriptor = kept;
    assert_eq!(pending(&mut t.catalog).ok().unwrap().progress.artifact_index, 0);
    assert_eq!(t.catalog.migration_artifact(1, 0).ok().unwrap().1.committed, before.committed);
}

#[test]
fn main_and_opaque_auxiliary_resume_and_remain_available_offline() {
    let mut t = Fixture::new(3 * 1024 * 1024 + 17);
    let mut ids = vec![];
    for request in t.requests.clone() {
        let bytes = t.expected[request.member_index].clone();
        let mut reader = must(t.open(&request));
        assert_ne!(
            reader.descriptor().artifact.revision.object,
            request.mapping.copy_identity.object
        );
        let started = t.catalog.begin_migration_artifact(&mut reader, true).unwrap();
        let n = reader.chunk_size(0).unwrap();
        let first =
            t.catalog.step_migration_artifact(&mut reader, true, false, &bytes[..n]).unwrap();
        assert!(first.committed > 0);
        assert!(t.catalog.step_migration_artifact(&mut reader, true, true, &bytes[..n]).is_err());
        assert_eq!(t.catalog.migration_evidence(&first.id).unwrap().committed, first.committed);
        // Reading goes on where it stopped.
        let mut reader = must(t.open(&request));
        let again = t.catalog.begin_migration_artifact(&mut reader, true).unwrap();
        assert_eq!(again.committed, first.committed);
        assert_eq!(again.id, started.id);
        let mut done = again;
        while !done.complete {
            let at = done.committed as usize;
            let n = reader.chunk_size(done.committed).unwrap();
            done = t
                .catalog
                .step_migration_artifact(&mut reader, true, false, &bytes[at..at + n])
                .unwrap();
        }
        let once_more = t.catalog.step_migration_artifact(&mut reader, true, false, &[]).unwrap();
        assert_eq!(once_more.manifest, done.manifest);
        assert!(t.catalog.migration_artifact(1, request.member_index).ok().unwrap().1.complete);
        ids.push(done.id);
    }
    for (id, expected) in ids.iter().zip(&t.expected) {
        let mut whole = vec![];
        while whole.len() < expected.len() {
            let part = t.catalog.migration_evidence_chunk(id, whole.len() as u64).unwrap();
            whole.extend(part);
        }
        assert_eq!(whole, *expected);
        assert!(t.catalog.migration_evidence_chunk(id, whole.len() as u64).unwrap().is_empty());
    }
}

#[test]
fn authority_member_manifest_mapping_and_exclusion_reject_before_custody() {
    let mut t = Fixture::new(4096);
    let base = t.requests[0].clone();
    let mut bad = base.clone();
    bad.member_index = 2;
    assert_eq!(t.open(&bad).err(), Some(ArtifactError::MemberUnknown));
    let mut bad = base.clone();
    bad.retained_capture_record = 2;
    assert_eq!(t.open(&bad).err(), Some(ArtifactError::AuthorityKind));
    for relative in
        ["../escape", "member-0.opaque/../member-1.opaque", "./member-0.opaque", "/absolute"]
    {
        let mut bad = base.clone();
        bad.mapping.relative = unix(relative);
        assert!(t.open(&bad).is_err(), "{relative}");
    }
    let mut bad = base.clone();
    bad.mapping.relative = NativePath::WindowsWide(vec![97]);
    assert_eq!(t.open(&bad).err(), Some(ArtifactError::PathForeign));
    let mut reader = must(t.open(&base));
    t.catalog.begin_migration_artifact(&mut reader, true).unwrap();
    let mut bad = base.clone();
    bad.mapping = t.requests[1].mapping.clone();
    assert!(t.open(&bad).is_err());
    // A seal that names another capture gives no authority.
    t.catalog.migration.files.seals[0].selected[0].revision = "excluded".to_string();
    assert_eq!(t.open(&base).err(), Some(ArtifactError::CaptureExcluded));
    assert_eq!(t.catalog.migration.artifacts.rows.len(), 1);
}

#[test]
fn changed_artifact_is_rejected_or_windows_writer_is_denied() {
    let mut t = Fixture::new(4096);
    let request = t.requests[0].clone();
    let bytes = t.expected[0].clone();
    let mut reader = must(t.open(&request));
    let state = t.catalog.begin_migration_artifact(&mut reader, true).unwrap();
    assert_eq!(
        t.catalog.step_migration_artifact(&mut reader, false, false, &bytes).err(),
        Some(ArtifactError::Invalidated)
    );
    assert_eq!(t.catalog.migration_evidence(&state.id).unwrap().committed, state.committed);
    // A reader that saw a change is of no use any more.
    assert!(t.catalog.step_migration_artifact(&mut reader, true, false, &bytes).is_err());
}

#[test]
fn admission_stop_limits_wrong_digest_and_empty_artifact() {
    let mut t = Fixture::new(0);
    let request = t.requests[0].clone();
    let key = FileKey { device: 1, object: 1 };
    assert_eq!(
        t.catalog
            .open_migration_artifact(
                &request,
                Fixture::limits(),
                true,
                &request.mapping.copy_identity,
                key,
                &t.content(0)
            )
            .err(),
        Some(ArtifactError::Stopped)
    );
    let mut limits = Fixture::limits();
    limits.chunk_bytes = CHUNK_BYTES + 1;
    assert_eq!(
        t.catalog
            .open_migration_artifact(
                &request,
                limits,
                false,
                &request.mapping.copy_identity,
                key,
                &t.content(0)
            )
            .err(),
        Some(ArtifactError::ChunkBound)
    );
    let mut reader = must(t.open(&request));
    assert!(t.catalog.begin_migration_artifact(&mut reader, true).unwrap().complete);
    let request = t.requests[1].clone();
    assert_eq!(
        t.catalog
            .open_migration_artifact(
                &request,
                Fixture::limits(),
                false,
                &request.mapping.copy_identity,
                key,
                &read(&[1, 2, 3, 4, 5])
            )
            .err(),
        Some(ArtifactError::ContentDiffers)
    );
    let mut other = request.mapping.copy_identity.clone();
    other.object = "another file".to_string();
    assert_eq!(
        t.catalog
            .open_migration_artifact(&request, Fixture::limits(), false, &other, key, &t.content(1))
            .err(),
        Some(ArtifactError::IdentityDiffers)
    );
    assert_eq!(ContentCheck::new(1).take(&[1, 2]).err(), Some(ArtifactError::ChunkLength));
}

#[test]
fn owned_mapping_grants_precede_paths_and_keep_legacy_native_spelling() {
    let t = Fixture::new(10);
    let mapping = &t.requests[0].mapping;
    let expected = mapping_path(mapping).unwrap();
    assert_eq!(expected, b"/sealed/member-0.opaque");
    let mut nothing = Allowance { remaining: 0 };
    assert_eq!(
        admitted_mapping_path(mapping, &mut nothing).err(),
        Some(ArtifactError::AllowanceDenied)
    );
    let mut plenty = Allowance { remaining: 10_000 };
    let actual = admitted_mapping_path(mapping, &mut plenty).unwrap();
    assert_eq!(actual, expected);
    let total = 10_000 - plenty.remaining;
    assert!(total > actual.len());
    let mut foreign = mapping.clone();
    foreign.relative = NativePath::WindowsWide(vec![0xd800]);
    assert!(admitted_mapping_path(&foreign, &mut Allowance { remaining: 10_000 }).is_err());
    assert!(mapping_path(&foreign).is_err());
}

fn sample() -> ArtifactDescriptor {
    let identity = |object: &str| FileIdentity {
        object: object.to_string(),
        bytes: u64::MAX,
        modified_ns: Some(u128::MAX),
        changed: "stamp".to_string(),
    };
    ArtifactDescriptor {
        protocol: 1,
        request: ArtifactRequest {
            retained_capture_record: i64::MAX,
            member_index: usize::MAX,
            mapping: ArtifactMapping {
                root: NativePath::WindowsWide(vec![55296, 0, 65535]),
                relative: NativePath::UnixBytes(vec![0, 255]),
                copy_identity: identity("retained-copy"),
            },
        },
        selected_input: "a".repeat(64),
        capture_revision: "b".repeat(64),
        manifest_blake3: "c".repeat(64),
        artifact: Artifact {
            source: NativePath::UnixBytes(vec![255, 0]),
            role: "opaque".to_string(),
            relative: NativePath::WindowsWide(vec![55296]),
            stored: "raw/member".to_string(),
            revision: identity("historical-original"),
            blake3: "d".repeat(64),
        },
    }
}

#[test]
fn descriptor_full_fields_foreign_paths_and_representations_preserve_bytes() {
    let d = sample();
    let raw = String::from_utf8(encode_descriptor(&d).unwrap()).unwrap();
    let expected = format!(
        "{{\"protocol\":1,\"request\":{{\"retained_capture_record\":9223372036854775807,\
         \"member_index\":18446744073709551615,\"mapping\":{{\"root\":{{\"encoding\":\
         \"WindowsWide\",\"units\":[55296,0,65535]}},\"relative\":{{\"encoding\":\"UnixBytes\",\
         \"units\":[0,255]}},\"copy_identity\":{{\"object\":\"retained-copy\",\
         \"bytes\":18446744073709551615,\"modified_ns\":340282366920938463463374607431768211455,\
         \"changed\":\"stamp\"}}}}}},\"selected_input\":\"{}\",\"capture_revision\":\"{}\",\
         \"manifest_blake3\":\"{}\",\"artifact\":{{\"source\":{{\"encoding\":\"UnixBytes\",\
         \"units\":[255,0]}},\"role\":\"opaque\",\"relative\":{{\"encoding\":\"WindowsWide\",\
         \"units\":[55296]}},\"stored\":\"raw/member\",\"revision\":{{\"object\":\
         \"historical-original\",\"bytes\":18446744073709551615,\
         \"modified_ns\":340282366920938463463374607431768211455,\"changed\":\"stamp\"}},\
         \"blake3\":\"{}\"}}}}",
        "a".repeat(64),
        "b".repeat(64),
        "c".repeat(64),
        "d".repeat(64)
    );
    assert_eq!(raw, expected);
    let again = decode(sample(), raw.len(), 32 * 1024 * 1024, false).ok().unwrap();
    assert_eq!(encode_descriptor(&again).unwrap(), raw.as_bytes());
    assert_eq!(again.request.mapping.copy_identity.object, "retained-copy");
    assert_eq!(again.artifact.revision.object, "historical-original");
}

#[test]
fn descriptor_paths_are_counted_before_allocation_and_canonical_limit_stays() {
    let limit = 32 * 1024 * 1024;
    let mut d = sample();
    d.artifact.source = NativePath::WindowsWide(vec![0; 30_000]);
    let bytes = encode_descriptor(&d).unwrap();
    assert!(bytes.len() < DESCRIPTOR_LIMIT);
    let out = decode(d, bytes.len(), limit, false).ok().unwrap();
    assert_eq!(encode_descriptor(&out).unwrap(), bytes);
    let mut d = sample();
    d.artifact.source = NativePath::WindowsWide(vec![0; 32_769]);
    assert_eq!(
        decode(d, 100_000, limit, false).err(),
        Some(ArtifactError::DescriptorBounds)
    );
    assert_eq!(decode(sample(), 1000, limit, true).err(), Some(ArtifactError::Stopped));
    assert_eq!(decode(sample(), 1000, 999, false).err(), Some(ArtifactError::DescriptorBounds));
}

#[test]
fn preparation_binds_current_copy_and_never_uses_foreign_original_locator() {
    let bytes = b"exact retained raw artifact\0\xff";
    let current = FileIdentity {
        object: "current".to_string(),
        bytes: bytes.len() as u64,
        modified_ns: None,
        changed: "now".to_string(),
    };
    let mut historical = current.clone();
    historical.object = "historical-original-object".to_string();
    historical.changed = "historical-original-change".to_string();
    let revision = hash(b"revision");
    let detail = CaptureDetail {
        manifest: Manifest {
            protocol: 1,
            state: "captured".to_string(),
            revision_id: Some(revision.clone()),
            artifacts: vec![Artifact {
                source: NativePath::WindowsWide(vec![67, 58, 92, 0xd800]),
                role: "main".to_string(),
                relative: unix("old-name"),
                stored: "raw/old-name".to_string(),
                revision: historical.clone(),
                blake3: hash(bytes),
            }],
        },
        artifacts_blake3: revision.clone(),
    };
    let raw = b"{\"manifest\":true}".to_vec();
    let preparation = |member_index: usize| MappingPreparation {
        capture_revision: revision.clone(),
        manifest_blake3: hash(b"{\"manifest\":true}"),
        member_index,
        root: unix("/root"),
        relative: unix("retained-copy"),
    };
    let limits = ArtifactLimits {
        maximum_bytes: 1024,
        open_deadline_ms: 1000,
        chunk_deadline_ms: 1000,
        chunk_bytes: 1024,
    };
    let whole = read(bytes);
    let mapped = prepare_mapping(&raw, &detail, &preparation(0), limits, false, &current, &whole)
        .ok()
        .unwrap();
    assert!(mapped.copy_identity.same_as(&current));
    assert!(!mapped.copy_identity.same_as(&historical));
    assert!(
        prepare_mapping(&raw, &detail, &preparation(1), limits, false, &current, &whole).is_err()
    );
    let mut changed = raw.clone();
    changed.push(b' ');
    assert_eq!(
        prepare_mapping(&changed, &detail, &preparation(0), limits, false, &current, &whole).err(),
        Some(ArtifactError::ManifestDigest)
    );
    assert_eq!(
        prepare_mapping(&raw, &detail, &preparation(0), limits, true, &current, &whole).err(),
        Some(ArtifactError::Stopped)
    );
    let wrong = read(b"wrong retained raw artifact..");
    assert!(
        prepare_mapping(&raw, &detail, &preparation(0), limits, false, &current, &wrong).is_err()
    );
}

#[test]
fn capacity_parent_descriptor_measures_success_and_rejection_clones() {
    let t = Fixture::new(1024);
    let request = &t.requests[0];
    let result = t.catalog.migration_artifact_reader_descriptor(request).ok().unwrap();
    assert!(encode_descriptor(&result).unwrap().len() <= DESCRIPTOR_LIMIT);
    let mut oversized = request.clone();
    oversized.mapping.relative = NativePath::UnixBytes(vec![120; 100_000]);
    assert_eq!(
        t.catalog.migration_artifact_reader_descriptor(&oversized).err(),
        Some(ArtifactError::DescriptorBounds)
    );
    assert!(t.catalog.migration.artifacts.rows.is_empty());
}

#[test]
fn capacity_custody_consumer_keeps_two_manifests_and_one_raw_reader() {
    let mut t = Fixture::new(600_000);
    let policy = t.policy();
    let progress = t.catalog.begin_selected_import(INPUT, &policy).ok().unwrap();
    t.catalog.migration.runs.runs[0].progress.stage = Stage::ArtifactCustody;
    let mut worker = Worker::new(&progress.id, Fixture::limits()).ok().unwrap();
    let mut stepped = 0;
    for _ in 0..20 {
        match worker.step(&mut t.catalog, INPUT, StepEvent::Nothing, false).ok().unwrap() {
            Work::Stepped(step) => {
                stepped += 1;
                if step.progress.stage == Stage::Reconciliation {
                    break;
                }
            }
            Work::Read(_, wanted) => {
                let bytes = t.expected[wanted.member_index].clone();
                let mut reader = match worker.take() {
                    Some(reader) => reader,
                    None => must(t.open(&wanted)),
                };
                let state = t.catalog.begin_migration_artifact(&mut reader, true).unwrap();
                if !state.complete {
                    let at = state.committed as usize;
                    let n = reader.chunk_size(state.committed).unwrap();
                    t.catalog
                        .step_migration_artifact(&mut reader, true, false, &bytes[at..at + n])
                        .unwrap();
                }
                worker.open(reader);
            }
        }
    }
    assert!(stepped >= 3);
    assert_eq!(
        t.catalog.selected_import_progress(&progress.id).ok().unwrap().stage,
        Stage::Reconciliation
    );
    assert!(t.catalog.evidence.rows.iter().all(|r| r.complete));
    assert!(matches!(Worker::new("short", Fixture::limits()), Err(MigrationError::IdentityBounds)));
}

#[test]
fn documents_escape_what_json_reserves() {
    let mut d = sample();
    d.artifact.role = "a\"\\/\u{8}\t\n\u{c}\r\u{1}\u{1f}\u{7f}é".to_string();
    let raw = String::from_utf8(encode_descriptor(&d).unwrap()).unwrap();
    let role = "\"role\":\"a\\\"\\\\/\\b\\t\\n\\f\\r\\u0001\\u001f\u{7f}é\"";
    assert!(raw.contains(role), "{raw}");
    assert!(serde_json::from_str::<serde_json::Value>(&raw).is_ok());
}

#[test]
fn descriptors_that_differ_are_kept_as_different_bytes() {
    let bytes = encode_descriptor(&sample()).unwrap();
    let mut others: Vec<ArtifactDescriptor> = vec![];
    let mut d = sample();
    d.request.retained_capture_record = -1;
    others.push(d);
    d = sample();
    d.request.mapping.copy_identity.modified_ns = None;
    others.push(d);
    d = sample();
    d.artifact.source = NativePath::WindowsWide(vec![255, 0]);
    others.push(d);
    d = sample();
    d.artifact.role = "opaque\",\"x".to_string();
    others.push(d);
    for other in others {
        let kept = encode_descriptor(&other).unwrap();
        assert_ne!(kept, bytes);
        let length = kept.len();
        let again = decode(other, length, length, false).ok().unwrap();
        assert_eq!(encode_descriptor(&again).unwrap(), kept);
    }
}

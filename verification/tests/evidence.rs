//! Large evidence, kept in chunks.
use photo_catalog::catalog::Catalog;
use photo_catalog::catalog_migration::evidence::{
    EvidenceError, EvidenceStore, PreparedChunk, CHUNK_BYTES,
};

#[test]
fn interrupted_large_payload_resumes_without_duplicate_chunks() {
    let mut store = EvidenceStore::new();
    let size = 17 * CHUNK_BYTES + 7;
    let id = store.begin(b"sealed-source/oversized-history", size as u64).unwrap().id;
    let full = PreparedChunk::new(&vec![0xa7; CHUNK_BYTES]).ok().unwrap();
    for index in 0..3 {
        store.append(&id, (index * CHUNK_BYTES) as u64, &full).unwrap();
    }
    assert_eq!(
        store.begin(b"sealed-source/oversized-history", size as u64).unwrap().committed,
        (3 * CHUNK_BYTES) as u64
    );
    assert_eq!(store.read(&id, 0).err(), Some(EvidenceError::Incomplete));
    for index in 0..17 {
        store.append(&id, (index * CHUNK_BYTES) as u64, &full).unwrap();
    }
    let final_chunk = PreparedChunk::new(b"the end").ok().unwrap();
    let finished = store.append(&id, (17 * CHUNK_BYTES) as u64, &final_chunk).unwrap();
    assert!(finished.complete);
    assert_eq!(store.read(&id, (17 * CHUNK_BYTES) as u64).unwrap(), b"the end");
    assert_eq!(store.read(&id, 0).unwrap(), vec![0xa7; CHUNK_BYTES]);
    assert_eq!(store.blobs.len(), 2);
    assert_eq!(store.chunks.len(), 18);
}

#[test]
fn rejects_changed_replay_skips_and_corrupt_retained_bytes() {
    let mut store = EvidenceStore::new();
    let id = store.begin(b"packet", (CHUNK_BYTES + 1) as u64).unwrap().id;
    let first = PreparedChunk::new(&vec![1; CHUNK_BYTES]).ok().unwrap();
    let tail = PreparedChunk::new(&[2]).ok().unwrap();
    assert!(store.append(&id, CHUNK_BYTES as u64, &tail).is_err());
    store.append(&id, 0, &first).unwrap();
    let changed = PreparedChunk::new(&vec![3; CHUNK_BYTES]).ok().unwrap();
    assert_eq!(store.append(&id, 0, &changed).err(), Some(EvidenceError::ReplayDiffers));
    store.append(&id, CHUNK_BYTES as u64, &tail).unwrap();
    store.blobs.iter_mut().find(|b| b.hash == tail.hash).unwrap().compressed = vec![0];
    assert!(store.read(&id, CHUNK_BYTES as u64).is_err());
    let empty = store.begin(b"empty", 0).unwrap();
    assert!(empty.complete);
    assert_eq!(store.read(&empty.id, 0).unwrap(), Vec::<u8>::new());
}

#[test]
fn evidence_of_a_catalog_reads_back_with_its_descriptor() {
    let mut c = Catalog::new(1);
    let state = c.begin_migration_evidence(b"descriptor", 3).unwrap();
    assert!(!state.complete);
    let state = c.append_migration_evidence(&state.id, 0, b"abc").unwrap();
    assert!(state.complete);
    assert_eq!(c.migration_evidence(&state.id).unwrap().committed, 3);
    assert_eq!(c.migration_evidence_descriptor(&state.id).unwrap(), b"descriptor");
    assert_eq!(c.migration_evidence_chunk(&state.id, 0).unwrap(), b"abc");
    assert_eq!(c.migration_evidence("none").err(), Some(EvidenceError::Unknown));
    assert_eq!(
        PreparedChunk::new(&vec![0; CHUNK_BYTES + 1]).err(),
        Some(EvidenceError::ChunkSize)
    );
    assert_eq!(
        c.begin_migration_evidence(&vec![0; 65537], 3).err(),
        Some(EvidenceError::DescriptorSize)
    );
}

#[test]
fn parts_read_back_where_they_begin_and_nowhere_else() {
    let mut store = EvidenceStore::new();
    let first: Vec<u8> = (0..CHUNK_BYTES).map(|i| (i % 251) as u8).collect();
    let id = store.begin(b"parts", (CHUNK_BYTES + 5) as u64).unwrap().id;
    store.append(&id, 0, &PreparedChunk::new(&first).ok().unwrap()).unwrap();
    store
        .append(&id, CHUNK_BYTES as u64, &PreparedChunk::new(b"after").ok().unwrap())
        .unwrap();
    assert_eq!(store.read(&id, 0).unwrap(), first);
    assert_eq!(store.read(&id, CHUNK_BYTES as u64).unwrap(), b"after");
    assert!(store.read(&id, 1).is_err());
    assert!(store.read(&id, (CHUNK_BYTES + 1) as u64).is_err());
    assert_eq!(store.read(&id, (CHUNK_BYTES + 5) as u64).unwrap(), Vec::<u8>::new());
    assert!(store.read(&id, (CHUNK_BYTES + 6) as u64).is_err());
}

#[test]
fn payloads_that_are_committed_in_turns_report_their_progress_and_read_back() {
    let mut c = Catalog::new(1);
    let one = c.begin_migration_evidence(b"one", 6).unwrap();
    assert_eq!(one.manifest, one.id);
    let two = c.begin_migration_evidence(b"two", 4).unwrap();
    assert_ne!(one.id, two.id);
    assert_eq!(c.append_migration_evidence(&one.id, 0, b"abc").unwrap().committed, 3);
    assert_eq!(c.migration_evidence(&two.id).unwrap().manifest, two.id);
    assert!(c.append_migration_evidence(&two.id, 0, b"wxyz").unwrap().complete);
    let between = c.migration_evidence(&one.id).unwrap();
    assert_eq!((between.length, between.committed, between.complete), (6, 3, false));
    assert_ne!(between.manifest, one.id);
    assert_eq!(c.migration_evidence_chunk(&one.id, 0).err(), Some(EvidenceError::Incomplete));
    // Beginning the payload again finds what is committed of it.
    assert_eq!(c.begin_migration_evidence(b"one", 6).unwrap().committed, 3);
    assert!(c.append_migration_evidence(&one.id, 3, b"def").unwrap().complete);
    assert_eq!(c.migration_evidence_chunk(&one.id, 0).unwrap(), b"abc");
    assert_eq!(c.migration_evidence_chunk(&one.id, 3).unwrap(), b"def");
    assert_eq!(c.migration_evidence_chunk(&two.id, 0).unwrap(), b"wxyz");
    assert_eq!(c.migration_evidence(&one.id).unwrap().committed, 6);
}

//! Compressed, ordered evidence chunks.
//!
//! A payload is visible as complete only after all declared bytes are committed.
//! The manifest digest binds the descriptor, byte count and ordered chunk hashes;
//! it is distinct from a digest of the uncompressed payload.
use crate::catalog::Catalog;
use crate::outside;
use crate::outside::{blake3_digest, zlib_compress, zlib_decompress};
use crate::support;
use crate::support::{append_bytes, copy_bytes, same, same_bytes};
use vstd::bytes::*;
use vstd::prelude::*;
use vstd::utf8::*;

verus! {

/// The most bytes one chunk holds.
pub const CHUNK_BYTES: usize = 1048576;

/// The most bytes a descriptor takes up.
pub const DESCRIPTOR_BYTES: usize = 65536;

/// The most bytes a compressed chunk takes up.
pub const COMPRESSED_BYTES: usize = 1052672;

/// The compression level of chunks.
pub const CHUNK_LEVEL: u32 = 1;

/// Why evidence was refused or could not be read.
#[derive(Clone, Copy, Debug, PartialEq, Eq, Structural)]
pub enum EvidenceError {
    /// A chunk is empty or larger than the chunk limit.
    ChunkSize,
    /// The compressor failed.
    Compression,
    /// The descriptor exceeds its limit.
    DescriptorSize,
    /// The declared length exceeds the stored range.
    LengthRange,
    /// Another payload already has this identity.
    IdentityCollision,
    /// No evidence has this identity.
    Unknown,
    /// The offset lies beyond the declared length.
    OffsetRange,
    /// The chunk reaches beyond the declared length.
    ChunkExceedsLength,
    /// No chunk starts at this offset.
    MissingChunk,
    /// Bytes offered again differ from those committed.
    ReplayDiffers,
    /// The chunk does not follow the committed bytes.
    OutOfOrder,
    /// The compressed chunk exceeds the stored limit.
    BlobRefused,
    /// A chunk is already recorded at this offset.
    ChunkExists,
    /// The evidence is not complete.
    Incomplete,
    /// The stored chunk length does not fit the payload.
    ChunkLength,
    /// The stored compressed chunk exceeds the limit.
    CompressedSize,
    /// The stored chunk cannot be decompressed.
    Undecodable,
    /// The stored chunk does not decompress to the bytes its hash names.
    Corrupt,
}

/// How far a payload has been committed.
#[derive(Clone, Debug)]
pub struct EvidenceState {
    pub id: String,
    pub length: u64,
    pub committed: u64,
    pub manifest: String,
    pub complete: bool,
}

/// A payload's declaration and progress.
pub struct EvidenceRow {
    pub id: String,
    pub descriptor: Vec<u8>,
    pub length: u64,
    pub committed: u64,
    pub manifest: String,
    pub complete: bool,
}

/// One committed chunk of a payload.
pub struct ChunkRow {
    pub evidence: String,
    pub offset: u64,
    pub hash: String,
}

/// The compressed bytes that chunks of one hash share.
pub struct BlobRow {
    pub hash: String,
    pub length: u64,
    pub compressed: Vec<u8>,
}

/// All retained evidence.
pub struct EvidenceStore {
    pub rows: Vec<EvidenceRow>,
    pub chunks: Vec<ChunkRow>,
    pub blobs: Vec<BlobRow>,
}

/// A chunk that was hashed and compressed before it is committed.
pub struct PreparedChunk {
    pub hash: String,
    pub length: usize,
    pub compressed: Vec<u8>,
}

/// The manifest of a payload without any chunk, which is also its identity.
pub open spec fn initial_manifest_text(descriptor: Seq<u8>, length: u64) -> Seq<char> {
    outside::blake3_hex(
        encode_utf8("photocatalog-retained-evidence-v1\0"@) + spec_u64_to_le_bytes(length)
            + descriptor,
    )
}

/// The manifest after one more chunk.
pub open spec fn next_manifest_text(
    previous: Seq<char>,
    offset: u64,
    length: u64,
    hash: Seq<char>,
) -> Seq<char> {
    outside::blake3_hex(
        encode_utf8("photocatalog-evidence-chunk-v1\0"@) + encode_utf8(previous)
            + spec_u64_to_le_bytes(offset) + spec_u64_to_le_bytes(length) + encode_utf8(hash),
    )
}

/// A compressed chunk that decompresses, in full, to bytes of the given length
/// and hash.
pub open spec fn decodes(compressed: Seq<u8>, length: nat, hash: Seq<char>) -> bool {
    match outside::zlib_decoded(compressed, length + 1) {
        Some((bytes, taken)) => taken == compressed.len() && bytes.len() == length && outside::blake3_hex(
            bytes,
        ) == hash,
        None => false,
    }
}

pub open spec fn with_id(id: Seq<char>) -> spec_fn(EvidenceRow) -> bool {
    |r: EvidenceRow| r.id@ == id
}

pub open spec fn with_start(id: Seq<char>, offset: u64) -> spec_fn(ChunkRow) -> bool {
    |c: ChunkRow| c.evidence@ == id && c.offset == offset
}

pub open spec fn with_hash(hash: Seq<char>) -> spec_fn(BlobRow) -> bool {
    |b: BlobRow| b.hash@ == hash
}

pub open spec fn of_evidence(id: Seq<char>) -> spec_fn(ChunkRow) -> bool {
    |c: ChunkRow| c.evidence@ == id
}

impl EvidenceState {
    /// The state a row stands for.
    pub open spec fn of(self, row: EvidenceRow) -> bool {
        &&& self.id@ == row.id@
        &&& self.length == row.length
        &&& self.committed == row.committed
        &&& self.manifest@ == row.manifest@
        &&& self.complete == row.complete
    }
}

impl PreparedChunk {
    /// The chunk is what preparing these bytes gives.
    pub open spec fn prepared_from(self, bytes: Seq<u8>) -> bool {
        &&& 0 < bytes.len() <= CHUNK_BYTES
        &&& self.hash@ == outside::blake3_hex(bytes)
        &&& self.length == bytes.len()
        &&& outside::zlib_stream(CHUNK_LEVEL, bytes) == Some(self.compressed@)
        &&& outside::zlib_decoded(self.compressed@, (bytes.len() + 1) as nat) == Some(
            (bytes, self.compressed@.len()),
        )
    }

    /// The chunk was prepared from some bytes.
    pub open spec fn wf(self) -> bool {
        0 < self.length <= CHUNK_BYTES && decodes(
            self.compressed@,
            self.length as nat,
            self.hash@,
        )
    }

    /// Hashes and compresses the bytes of one chunk.
    pub fn new(bytes: &[u8]) -> (r: Result<Self, EvidenceError>)
        ensures
            match r {
                Ok(chunk) => chunk.prepared_from(bytes@) && chunk.wf(),
                Err(e) => if bytes@.len() == 0 || bytes@.len() > CHUNK_BYTES {
                    e == EvidenceError::ChunkSize
                } else {
                    e == EvidenceError::Compression && outside::zlib_stream(CHUNK_LEVEL, bytes@) is None
                },
            },
    {
        if bytes.is_empty() || bytes.len() > CHUNK_BYTES {
            return Err(EvidenceError::ChunkSize);
        }
        match zlib_compress(bytes, CHUNK_LEVEL) {
            None => Err(EvidenceError::Compression),
            Some(compressed) => Ok(
                PreparedChunk { hash: blake3_digest(bytes), length: bytes.len(), compressed },
            ),
        }
    }
}

fn initial_manifest(descriptor: &[u8], length: u64) -> (manifest: String)
    ensures
        manifest@ == initial_manifest_text(descriptor@, length),
        outside::digest_text(manifest@),
{
    let mut document: Vec<u8> = copy_bytes("photocatalog-retained-evidence-v1\0".as_bytes());
    append_bytes(&mut document, u64_to_le_bytes(length).as_slice());
    append_bytes(&mut document, descriptor);
    blake3_digest(document.as_slice())
}

fn next_manifest(previous: &str, offset: u64, length: u64, hash: &str) -> (manifest: String)
    ensures
        manifest@ == next_manifest_text(previous@, offset, length, hash@),
{
    let mut document: Vec<u8> = copy_bytes("photocatalog-evidence-chunk-v1\0".as_bytes());
    append_bytes(&mut document, previous.as_bytes());
    append_bytes(&mut document, u64_to_le_bytes(offset).as_slice());
    append_bytes(&mut document, u64_to_le_bytes(length).as_slice());
    append_bytes(&mut document, hash.as_bytes());
    blake3_digest(document.as_slice())
}

impl EvidenceStore {
    /// The row of an identity.
    pub open spec fn row_of(self, id: Seq<char>) -> Option<int> {
        support::first_where(self.rows@, with_id(id))
    }

    /// The chunk that starts at an offset of a payload.
    pub open spec fn chunk_of(self, id: Seq<char>, offset: u64) -> Option<int> {
        support::first_where(self.chunks@, with_start(id, offset))
    }

    /// The shared bytes of a hash.
    pub open spec fn blob_of(self, hash: Seq<char>) -> Option<int> {
        support::first_where(self.blobs@, with_hash(hash))
    }

    /// The shared bytes of the chunk that starts at an offset of a payload.
    pub open spec fn joined(self, id: Seq<char>, offset: u64) -> Option<BlobRow> {
        match self.chunk_of(id, offset) {
            Some(c) => match self.blob_of(self.chunks@[c].hash@) {
                Some(b) => Some(self.blobs@[b]),
                None => None,
            },
            None => None,
        }
    }

    /// A store without any evidence.
    pub fn new() -> (store: Self)
        ensures
            store.rows@.len() == 0,
            store.chunks@.len() == 0,
            store.blobs@.len() == 0,
            store.wf(),
    {
        EvidenceStore { rows: Vec::new(), chunks: Vec::new(), blobs: Vec::new() }
    }

    fn find_row(&self, id: &str) -> (r: Option<usize>)
        ensures
            match r {
                Some(i) => self.row_of(id@) == Some(i as int) && i < self.rows@.len()
                    && self.rows@[i as int].id@ == id@,
                None => self.row_of(id@) is None,
            },
    {
        let mut i: usize = 0;
        while i < self.rows.len()
            invariant
                i <= self.rows@.len(),
                forall|j: int| 0 <= j < i ==> !with_id(id@)(#[trigger] self.rows@[j]),
            decreases self.rows@.len() - i,
        {
            if same(self.rows[i].id.as_str(), id) {
                proof {
                    support::lemma_first_found(self.rows@, with_id(id@), i as int);
                }
                return Some(i);
            }
            i += 1;
        }
        proof {
            support::lemma_none_found(self.rows@, with_id(id@));
        }
        None
    }

    fn find_chunk(&self, id: &str, offset: u64) -> (r: Option<usize>)
        ensures
            match r {
                Some(i) => self.chunk_of(id@, offset) == Some(i as int) && i < self.chunks@.len(),
                None => self.chunk_of(id@, offset) is None,
            },
    {
        let mut i: usize = 0;
        while i < self.chunks.len()
            invariant
                i <= self.chunks@.len(),
                forall|j: int| 0 <= j < i ==> !with_start(id@, offset)(#[trigger] self.chunks@[j]),
            decreases self.chunks@.len() - i,
        {
            if self.chunks[i].offset == offset && same(self.chunks[i].evidence.as_str(), id) {
                proof {
                    support::lemma_first_found(self.chunks@, with_start(id@, offset), i as int);
                }
                return Some(i);
            }
            i += 1;
        }
        proof {
            support::lemma_none_found(self.chunks@, with_start(id@, offset));
        }
        None
    }

    fn find_blob(&self, hash: &str) -> (r: Option<usize>)
        ensures
            match r {
                Some(i) => self.blob_of(hash@) == Some(i as int) && i < self.blobs@.len()
                    && self.blobs@[i as int].hash@ == hash@,
                None => self.blob_of(hash@) is None,
            },
    {
        let mut i: usize = 0;
        while i < self.blobs.len()
            invariant
                i <= self.blobs@.len(),
                forall|j: int| 0 <= j < i ==> !with_hash(hash@)(#[trigger] self.blobs@[j]),
            decreases self.blobs@.len() - i,
        {
            if same(self.blobs[i].hash.as_str(), hash) {
                proof {
                    support::lemma_first_found(self.blobs@, with_hash(hash@), i as int);
                }
                return Some(i);
            }
            i += 1;
        }
        proof {
            support::lemma_none_found(self.blobs@, with_hash(hash@));
        }
        None
    }

    fn find_joined(&self, id: &str, offset: u64) -> (r: Option<usize>)
        ensures
            match r {
                Some(i) => i < self.blobs@.len() && self.joined(id@, offset) == Some(
                    self.blobs@[i as int],
                ),
                None => self.joined(id@, offset) is None,
            },
    {
        match self.find_chunk(id, offset) {
            None => None,
            Some(c) => self.find_blob(self.chunks[c].hash.as_str()),
        }
    }

    /// The state of the evidence with an identity.
    pub fn state(&self, id: &str) -> (r: Result<EvidenceState, EvidenceError>)
        ensures
            match r {
                Ok(state) => self.row_of(id@) matches Some(i) && state.of(self.rows@[i]),
                Err(e) => self.row_of(id@) is None && e == EvidenceError::Unknown,
            },
    {
        match self.find_row(id) {
            None => Err(EvidenceError::Unknown),
            Some(i) => {
                let row = &self.rows[i];
                Ok(
                    EvidenceState {
                        id: row.id.clone(),
                        length: row.length,
                        committed: row.committed,
                        manifest: row.manifest.clone(),
                        complete: row.complete,
                    },
                )
            },
        }
    }

    /// Why a payload cannot be declared.
    pub open spec fn begin_refusal(self, descriptor: Seq<u8>, length: u64) -> Option<
        EvidenceError,
    > {
        if descriptor.len() > DESCRIPTOR_BYTES {
            Some(EvidenceError::DescriptorSize)
        } else if length > i64::MAX {
            Some(EvidenceError::LengthRange)
        } else {
            match self.row_of(initial_manifest_text(descriptor, length)) {
                Some(i) if self.rows@[i].descriptor@ != descriptor || self.rows@[i].length
                    != length => Some(EvidenceError::IdentityCollision),
                _ => None,
            }
        }
    }

    /// The store `after` is this one with a new, empty payload declared.
    pub open spec fn declared(self, after: Self, descriptor: Seq<u8>, length: u64) -> bool {
        let row = after.rows@.last();
        &&& after.rows@ == self.rows@.push(row)
        &&& after.chunks@ == self.chunks@
        &&& after.blobs@ == self.blobs@
        &&& row.id@ == initial_manifest_text(descriptor, length)
        &&& row.descriptor@ == descriptor
        &&& row.length == length
        &&& row.committed == 0
        &&& row.manifest@ == row.id@
        &&& row.complete == (length == 0)
    }

    /// Declares a payload, or finds it where it was declared before.
    pub fn begin(&mut self, descriptor: &[u8], length: u64) -> (r: Result<
        EvidenceState,
        EvidenceError,
    >)
        ensures
            match r {
                Err(e) => old(self).begin_refusal(descriptor@, length) == Some(e) && *final(self)
                    == *old(self),
                Ok(state) => {
                    let id = initial_manifest_text(descriptor@, length);
                    &&& old(self).begin_refusal(descriptor@, length) is None
                    &&& final(self).row_of(id) matches Some(i) && state.of(final(self).rows@[i])
                    &&& if old(self).row_of(id) is Some {
                        *final(self) == *old(self)
                    } else {
                        old(self).declared(*final(self), descriptor@, length)
                    }
                },
            },
            old(self).wf() ==> final(self).wf(),
    {
        if descriptor.len() > DESCRIPTOR_BYTES {
            return Err(EvidenceError::DescriptorSize);
        }
        if length > i64::MAX as u64 {
            return Err(EvidenceError::LengthRange);
        }
        let id: String = initial_manifest(descriptor, length);
        match self.find_row(id.as_str()) {
            Some(i) => {
                if !same_bytes(self.rows[i].descriptor.as_slice(), descriptor)
                    || self.rows[i].length != length {
                    return Err(EvidenceError::IdentityCollision);
                }
            },
            None => {
                self.rows.push(
                    EvidenceRow {
                        id: id.clone(),
                        descriptor: copy_bytes(descriptor),
                        length,
                        committed: 0,
                        manifest: id.clone(),
                        complete: length == 0,
                    },
                );
                proof {
                    let n = (self.rows@.len() - 1) as int;
                    support::lemma_first_where(old(self).rows@, with_id(id@));
                    support::lemma_first_found(self.rows@, with_id(id@), n);
                    lemma_declared_keeps_wf(*old(self), *self, descriptor@, length);
                }
            },
        }
        self.state(id.as_str())
    }

    /// Why a chunk cannot be committed at an offset.
    pub open spec fn append_refusal(
        self,
        id: Seq<char>,
        offset: u64,
        chunk: PreparedChunk,
    ) -> Option<EvidenceError> {
        match self.row_of(id) {
            None => Some(EvidenceError::Unknown),
            Some(i) => {
                let row = self.rows@[i];
                if offset > row.length {
                    Some(EvidenceError::OffsetRange)
                } else if chunk.length > row.length - offset {
                    Some(EvidenceError::ChunkExceedsLength)
                } else if offset < row.committed {
                    match self.joined(id, offset) {
                        None => Some(EvidenceError::MissingChunk),
                        Some(blob) => if blob.hash@ == chunk.hash@ && blob.length == chunk.length {
                            None
                        } else {
                            Some(EvidenceError::ReplayDiffers)
                        },
                    }
                } else if offset != row.committed || row.complete {
                    Some(EvidenceError::OutOfOrder)
                } else if self.blob_of(chunk.hash@) is None && chunk.compressed@.len()
                    > COMPRESSED_BYTES {
                    Some(EvidenceError::BlobRefused)
                } else if self.chunk_of(id, offset) is Some {
                    Some(EvidenceError::ChunkExists)
                } else {
                    None
                }
            },
        }
    }

    /// The store `after` is this one with a chunk committed at the end of a
    /// payload.
    pub open spec fn appended(
        self,
        after: Self,
        id: Seq<char>,
        offset: u64,
        chunk: PreparedChunk,
    ) -> bool {
        let i = self.row_of(id)->0;
        let row = self.rows@[i];
        let next = after.rows@[i];
        let last = after.chunks@.last();
        let blob = after.blobs@.last();
        &&& after.rows@ == self.rows@.update(i, next)
        &&& next.id@ == row.id@
        &&& next.descriptor@ == row.descriptor@
        &&& next.length == row.length
        &&& next.committed == offset + chunk.length
        &&& next.manifest@ == next_manifest_text(
            row.manifest@,
            offset,
            chunk.length as u64,
            chunk.hash@,
        )
        &&& next.complete == (offset + chunk.length == row.length)
        &&& after.chunks@ == self.chunks@.push(last)
        &&& last.evidence@ == id
        &&& last.offset == offset
        &&& last.hash@ == chunk.hash@
        &&& if self.blob_of(chunk.hash@) is Some {
            after.blobs@ == self.blobs@
        } else {
            &&& after.blobs@ == self.blobs@.push(blob)
            &&& blob.hash@ == chunk.hash@
            &&& blob.length == chunk.length
            &&& blob.compressed@ == chunk.compressed@
        }
    }

    /// Bytes already shared under the chunk's hash have its length. Only bytes
    /// of another length with the same digest would break this.
    pub open spec fn no_collision(self, chunk: PreparedChunk) -> bool {
        self.blob_of(chunk.hash@) matches Some(b) ==> self.blobs@[b].length == chunk.length
    }

    /// Commits a chunk at the end of a payload. A chunk that was committed
    /// before is accepted again, without any change, only with the same hash.
    pub fn append(&mut self, id: &str, offset: u64, chunk: &PreparedChunk) -> (r: Result<
        EvidenceState,
        EvidenceError,
    >)
        ensures
            match r {
                Err(e) => old(self).append_refusal(id@, offset, *chunk) == Some(e) && *final(self)
                    == *old(self),
                Ok(state) => {
                    &&& old(self).append_refusal(id@, offset, *chunk) is None
                    &&& old(self).row_of(id@) matches Some(i) && final(self).row_of(id@) == Some(i)
                        && state.of(final(self).rows@[i]) && if offset
                        < old(self).rows@[i].committed {
                        *final(self) == *old(self)
                    } else {
                        old(self).appended(*final(self), id@, offset, *chunk)
                    }
                },
            },
            old(self).wf() && chunk.wf() && old(self).no_collision(*chunk) ==> final(self).wf(),
    {
        let i: usize = match self.find_row(id) {
            None => return Err(EvidenceError::Unknown),
            Some(i) => i,
        };
        let length: u64 = self.rows[i].length;
        let committed: u64 = self.rows[i].committed;
        if offset > length {
            return Err(EvidenceError::OffsetRange);
        }
        if chunk.length as u64 > length - offset {
            return Err(EvidenceError::ChunkExceedsLength);
        }
        if offset < committed {
            return match self.find_joined(id, offset) {
                None => Err(EvidenceError::MissingChunk),
                Some(b) => {
                    if !same(self.blobs[b].hash.as_str(), chunk.hash.as_str())
                        || self.blobs[b].length != chunk.length as u64 {
                        Err(EvidenceError::ReplayDiffers)
                    } else {
                        self.state(id)
                    }
                },
            };
        }
        if offset != committed || self.rows[i].complete {
            return Err(EvidenceError::OutOfOrder);
        }
        let shared: bool = self.find_blob(chunk.hash.as_str()).is_some();
        if !shared && chunk.compressed.len() > COMPRESSED_BYTES {
            return Err(EvidenceError::BlobRefused);
        }
        if self.find_chunk(id, offset).is_some() {
            return Err(EvidenceError::ChunkExists);
        }
        let manifest: String = next_manifest(
            self.rows[i].manifest.as_str(),
            offset,
            chunk.length as u64,
            chunk.hash.as_str(),
        );
        if !shared {
            self.blobs.push(
                BlobRow {
                    hash: chunk.hash.clone(),
                    length: chunk.length as u64,
                    compressed: copy_bytes(chunk.compressed.as_slice()),
                },
            );
        }
        self.chunks.push(
            ChunkRow { evidence: self.rows[i].id.clone(), offset, hash: chunk.hash.clone() },
        );
        let next: u64 = offset + chunk.length as u64;
        let row: EvidenceRow = EvidenceRow {
            id: self.rows[i].id.clone(),
            descriptor: copy_bytes(self.rows[i].descriptor.as_slice()),
            length,
            committed: next,
            manifest,
            complete: next == length,
        };
        self.rows.set(i, row);
        proof {
            support::lemma_first_where(old(self).rows@, with_id(id@));
            support::lemma_first_found(self.rows@, with_id(id@), i as int);
            if old(self).wf() && chunk.wf() && old(self).no_collision(*chunk) {
                lemma_appended_keeps_wf(*old(self), *self, id@, offset, *chunk);
            }
        }
        self.state(id)
    }

    /// What reading a payload at an offset gives.
    pub open spec fn read_outcome(self, id: Seq<char>, offset: u64) -> Result<
        Seq<u8>,
        EvidenceError,
    > {
        match self.row_of(id) {
            None => Err(EvidenceError::Unknown),
            Some(i) => {
                let row = self.rows@[i];
                if !row.complete {
                    Err(EvidenceError::Incomplete)
                } else if offset > row.length {
                    Err(EvidenceError::OffsetRange)
                } else if offset == row.length {
                    Ok(Seq::empty())
                } else {
                    match self.joined(id, offset) {
                        None => Err(EvidenceError::MissingChunk),
                        Some(blob) => if blob.length == 0 || blob.length > row.length - offset
                            || blob.length > CHUNK_BYTES {
                            Err(EvidenceError::ChunkLength)
                        } else if blob.compressed@.len() > COMPRESSED_BYTES {
                            Err(EvidenceError::CompressedSize)
                        } else {
                            match outside::zlib_decoded(
                                blob.compressed@,
                                (blob.length + 1) as nat,
                            ) {
                                None => Err(EvidenceError::Undecodable),
                                Some((bytes, taken)) => if decodes(
                                    blob.compressed@,
                                    blob.length as nat,
                                    blob.hash@,
                                ) {
                                    Ok(bytes)
                                } else {
                                    Err(EvidenceError::Corrupt)
                                },
                            }
                        },
                    }
                }
            },
        }
    }

    /// Reads the chunk of a complete payload that starts at an offset, and
    /// nothing at the payload's end.
    pub fn read(&self, id: &str, offset: u64) -> (r: Result<Vec<u8>, EvidenceError>)
        ensures
            match r {
                Ok(bytes) => self.read_outcome(id@, offset) == Ok::<Seq<u8>, EvidenceError>(
                    bytes@,
                ),
                Err(e) => self.read_outcome(id@, offset) == Err::<Seq<u8>, EvidenceError>(e),
            },
    {
        let i: usize = match self.find_row(id) {
            None => return Err(EvidenceError::Unknown),
            Some(i) => i,
        };
        if !self.rows[i].complete {
            return Err(EvidenceError::Incomplete);
        }
        let length: u64 = self.rows[i].length;
        if offset > length {
            return Err(EvidenceError::OffsetRange);
        }
        if offset == length {
            let empty: Vec<u8> = Vec::new();
            assert(empty@ =~= Seq::<u8>::empty());
            return Ok(empty);
        }
        let b: usize = match self.find_joined(id, offset) {
            None => return Err(EvidenceError::MissingChunk),
            Some(b) => b,
        };
        let blob = &self.blobs[b];
        if blob.length == 0 || blob.length > length - offset || blob.length
            > CHUNK_BYTES as u64 {
            return Err(EvidenceError::ChunkLength);
        }
        if blob.compressed.len() > COMPRESSED_BYTES {
            return Err(EvidenceError::CompressedSize);
        }
        match zlib_decompress(blob.compressed.as_slice(), blob.length + 1) {
            None => Err(EvidenceError::Undecodable),
            Some((bytes, taken)) => {
                if bytes.len() as u64 == blob.length && taken == blob.compressed.len() as u64
                    && same(blake3_digest(bytes.as_slice()).as_str(), blob.hash.as_str()) {
                    Ok(bytes)
                } else {
                    Err(EvidenceError::Corrupt)
                }
            },
        }
    }

    /// The chunks of a payload in the order they were committed.
    pub open spec fn layout(self, id: Seq<char>) -> Seq<ChunkRow> {
        self.chunks@.filter(of_evidence(id))
    }

    /// The number of bytes a chunk stands for.
    pub open spec fn chunk_length(self, chunk: ChunkRow) -> nat {
        match self.blob_of(chunk.hash@) {
            Some(b) => self.blobs@[b].length as nat,
            None => 0,
        }
    }

    /// The number of bytes that chunks stand for together.
    pub open spec fn span(self, chunks: Seq<ChunkRow>) -> nat
        decreases chunks.len(),
    {
        if chunks.len() == 0 {
            0
        } else {
            self.span(chunks.drop_last()) + self.chunk_length(chunks.last())
        }
    }

    /// Every chunk has its bytes and starts where the one before it ends.
    pub open spec fn in_order(self, chunks: Seq<ChunkRow>) -> bool
        decreases chunks.len(),
    {
        chunks.len() > 0 ==> {
            &&& self.in_order(chunks.drop_last())
            &&& self.blob_of(chunks.last().hash@) is Some
            &&& chunks.last().offset == self.span(chunks.drop_last())
        }
    }

    /// The manifest that a payload's identity and chunks give.
    pub open spec fn chain(self, id: Seq<char>, chunks: Seq<ChunkRow>) -> Seq<char>
        decreases chunks.len(),
    {
        if chunks.len() == 0 {
            id
        } else {
            next_manifest_text(
                self.chain(id, chunks.drop_last()),
                chunks.last().offset,
                self.chunk_length(chunks.last()) as u64,
                chunks.last().hash@,
            )
        }
    }

    /// A row agrees with the chunks of its payload.
    pub open spec fn row_wf(self, row: EvidenceRow) -> bool {
        &&& row.id@ == initial_manifest_text(row.descriptor@, row.length)
        &&& row.length <= i64::MAX
        &&& row.committed <= row.length
        &&& row.complete == (row.committed == row.length)
        &&& self.in_order(self.layout(row.id@))
        &&& row.committed == self.span(self.layout(row.id@))
        &&& row.manifest@ == self.chain(row.id@, self.layout(row.id@))
    }

    /// Shared bytes decompress to what their hash names.
    pub open spec fn blob_wf(blob: BlobRow) -> bool {
        &&& 0 < blob.length <= CHUNK_BYTES
        &&& blob.compressed@.len() <= COMPRESSED_BYTES
        &&& decodes(blob.compressed@, blob.length as nat, blob.hash@)
    }

    /// Identities and hashes are unique, every payload's chunks lie end to end
    /// from its start to what is committed, manifests chain their hashes, and
    /// all bytes can be recovered.
    pub open spec fn wf(self) -> bool {
        &&& forall|i: int, j: int|
            0 <= i < j < self.rows@.len() ==> (#[trigger] self.rows@[i]).id@ != (
            #[trigger] self.rows@[j]).id@
        &&& forall|i: int, j: int|
            0 <= i < j < self.blobs@.len() ==> (#[trigger] self.blobs@[i]).hash@ != (
            #[trigger] self.blobs@[j]).hash@
        &&& forall|i: int| 0 <= i < self.rows@.len() ==> self.row_wf(#[trigger] self.rows@[i])
        &&& forall|i: int|
            0 <= i < self.blobs@.len() ==> Self::blob_wf(#[trigger] self.blobs@[i])
        &&& forall|c: int|
            0 <= c < self.chunks@.len() ==> self.row_of((#[trigger] self.chunks@[c]).evidence@)
                is Some
    }
}

/// The bytes of one store are all in another, under the same hashes.
pub open spec fn blobs_kept(before: EvidenceStore, after: EvidenceStore) -> bool {
    before.blobs@.is_prefix_of(after.blobs@)
}

proof fn lemma_blob_kept(before: EvidenceStore, after: EvidenceStore, hash: Seq<char>)
    requires
        blobs_kept(before, after),
        before.blob_of(hash) is Some,
    ensures
        after.blob_of(hash) == before.blob_of(hash),
        after.blobs@[before.blob_of(hash)->0] == before.blobs@[before.blob_of(hash)->0],
{
    support::lemma_first_where(before.blobs@, with_hash(hash));
    let b = before.blob_of(hash)->0;
    assert forall|j: int| 0 <= j < b implies !with_hash(hash)(#[trigger] after.blobs@[j]) by {
        assert(after.blobs@[j] == before.blobs@[j]);
    }
    assert(after.blobs@[b] == before.blobs@[b]);
    support::lemma_first_found(after.blobs@, with_hash(hash), b);
}

proof fn lemma_layout_kept(
    before: EvidenceStore,
    after: EvidenceStore,
    id: Seq<char>,
    chunks: Seq<ChunkRow>,
)
    requires
        blobs_kept(before, after),
        before.in_order(chunks),
    ensures
        after.in_order(chunks),
        after.span(chunks) == before.span(chunks),
        after.chain(id, chunks) == before.chain(id, chunks),
    decreases chunks.len(),
{
    if chunks.len() > 0 {
        lemma_layout_kept(before, after, id, chunks.drop_last());
        lemma_blob_kept(before, after, chunks.last().hash@);
    }
}

proof fn lemma_no_layout(store: EvidenceStore, id: Seq<char>)
    requires
        forall|c: int| 0 <= c < store.chunks@.len() ==> (#[trigger] store.chunks@[c]).evidence@ != id,
    ensures
        store.layout(id).len() == 0,
{
    if store.layout(id).len() > 0 {
        lemma_filtered_from(store.chunks@, of_evidence(id), 0);
    }
}

/// What a filter keeps was there before.
proof fn lemma_filtered_from<T>(s: Seq<T>, p: spec_fn(T) -> bool, i: int)
    requires
        0 <= i < s.filter(p).len(),
    ensures
        s.contains(s.filter(p)[i]),
        p(s.filter(p)[i]),
    decreases s.len(),
{
    reveal(Seq::filter);
    if s.len() > 0 {
        let rest = s.drop_last();
        assert(s =~= rest.push(s.last()));
        support::lemma_filter_push(rest, s.last(), p);
        if i < rest.filter(p).len() {
            lemma_filtered_from(rest, p, i);
            let k = choose|k: int| 0 <= k < rest.len() && rest[k] == rest.filter(p)[i];
            assert(s[k] == s.filter(p)[i]);
        } else {
            assert(s.filter(p)[i] == s.last());
        }
    }
}

proof fn lemma_declared_keeps_wf(
    before: EvidenceStore,
    after: EvidenceStore,
    descriptor: Seq<u8>,
    length: u64,
)
    requires
        before.row_of(initial_manifest_text(descriptor, length)) is None,
        before.declared(after, descriptor, length),
        length <= i64::MAX,
    ensures
        before.wf() ==> after.wf(),
{
    if before.wf() {
        let id = initial_manifest_text(descriptor, length);
        let n = before.rows@.len() as int;
        support::lemma_first_where(before.rows@, with_id(id));
        assert forall|i: int| 0 <= i < after.rows@.len() implies after.row_wf(
            #[trigger] after.rows@[i],
        ) by {
            if i < n {
                assert(after.rows@[i] == before.rows@[i]);
                assert(before.row_wf(before.rows@[i]));
                lemma_layout_kept(before, after, before.rows@[i].id@, before.layout(before.rows@[i].id@));
            } else {
                assert forall|c: int| 0 <= c < after.chunks@.len() implies (
                #[trigger] after.chunks@[c]).evidence@ != id by {
                    assert(before.row_of(before.chunks@[c].evidence@) is Some);
                    support::lemma_first_where(before.rows@, with_id(before.chunks@[c].evidence@));
                }
                lemma_no_layout(after, id);
            }
        }
        assert forall|i: int, j: int| 0 <= i < j < after.rows@.len() implies (
        #[trigger] after.rows@[i]).id@ != (#[trigger] after.rows@[j]).id@ by {
            assert(!with_id(id)(before.rows@[i]));
        }
        assert forall|c: int| 0 <= c < after.chunks@.len() implies after.row_of(
            (#[trigger] after.chunks@[c]).evidence@,
        ) is Some by {
            let e = after.chunks@[c].evidence@;
            assert(before.row_of(before.chunks@[c].evidence@) is Some);
            support::lemma_first_where(before.rows@, with_id(e));
            support::lemma_first_where(after.rows@, with_id(e));
            assert(with_id(e)(after.rows@[before.row_of(e)->0]));
        }
    }
}

proof fn lemma_appended_keeps_wf(
    before: EvidenceStore,
    after: EvidenceStore,
    id: Seq<char>,
    offset: u64,
    chunk: PreparedChunk,
)
    requires
        before.wf(),
        chunk.wf(),
        before.no_collision(chunk),
        before.append_refusal(id, offset, chunk) is None,
        before.row_of(id) matches Some(i) && offset == before.rows@[i].committed,
        before.appended(after, id, offset, chunk),
    ensures
        after.wf(),
{
    let i = before.row_of(id)->0;
    let row = before.rows@[i];
    let next = after.rows@[i];
    let last = after.chunks@.last();
    support::lemma_first_where(before.rows@, with_id(id));
    support::lemma_first_where(before.blobs@, with_hash(chunk.hash@));
    assert(blobs_kept(before, after));
    assert(before.row_wf(row));
    // The chunk's bytes are there, with its length.
    assert(after.chunk_length(last) == chunk.length && after.blob_of(last.hash@) is Some) by {
        if before.blob_of(chunk.hash@) is Some {
            lemma_blob_kept(before, after, chunk.hash@);
        } else {
            support::lemma_first_found(
                after.blobs@,
                with_hash(chunk.hash@),
                before.blobs@.len() as int,
            );
        }
    }
    assert forall|k: int| 0 <= k < after.rows@.len() implies after.row_wf(
        #[trigger] after.rows@[k],
    ) by {
        let e = before.rows@[k].id@;
        assert(before.row_wf(before.rows@[k]));
        lemma_layout_kept(before, after, e, before.layout(e));
        support::lemma_filter_push(before.chunks@, last, of_evidence(e));
        if k == i {
            assert(after.layout(id) == before.layout(id).push(last));
            assert(after.layout(id).drop_last() =~= before.layout(id));
        } else {
            assert(e != id);
            assert(after.layout(e) == before.layout(e));
        }
    }
    assert forall|k: int| 0 <= k < after.blobs@.len() implies EvidenceStore::blob_wf(
        #[trigger] after.blobs@[k],
    ) by {
        if k < before.blobs@.len() {
            assert(EvidenceStore::blob_wf(before.blobs@[k]));
        }
    }
    assert forall|a: int, b: int| 0 <= a < b < after.blobs@.len() implies (
    #[trigger] after.blobs@[a]).hash@ != (#[trigger] after.blobs@[b]).hash@ by {
        if b < before.blobs@.len() {
            assert(before.blobs@[a].hash@ != before.blobs@[b].hash@);
        } else {
            assert(!with_hash(chunk.hash@)(before.blobs@[a]));
        }
    }
    assert forall|a: int, b: int| 0 <= a < b < after.rows@.len() implies (
    #[trigger] after.rows@[a]).id@ != (#[trigger] after.rows@[b]).id@ by {
        assert(before.rows@[a].id@ != before.rows@[b].id@);
    }
    assert forall|c: int| 0 <= c < after.chunks@.len() implies after.row_of(
        (#[trigger] after.chunks@[c]).evidence@,
    ) is Some by {
        let e = after.chunks@[c].evidence@;
        if c < before.chunks@.len() {
            assert(before.row_of(before.chunks@[c].evidence@) is Some);
            support::lemma_first_where(before.rows@, with_id(e));
            let k = before.row_of(e)->0;
            assert(with_id(e)(after.rows@[k]));
        } else {
            assert(with_id(e)(after.rows@[i]));
        }
        support::lemma_first_where(after.rows@, with_id(e));
    }
}

impl EvidenceStore {
    /// The bytes a chunk stands for.
    pub open spec fn chunk_bytes(self, chunk: ChunkRow) -> Seq<u8> {
        let blob = self.blobs@[self.blob_of(chunk.hash@)->0];
        (outside::zlib_decoded(blob.compressed@, (blob.length + 1) as nat)->0).0
    }

    /// The bytes that chunks stand for, one after the other.
    pub open spec fn payload(self, chunks: Seq<ChunkRow>) -> Seq<u8>
        decreases chunks.len(),
    {
        if chunks.len() == 0 {
            Seq::empty()
        } else {
            self.payload(chunks.drop_last()) + self.chunk_bytes(chunks.last())
        }
    }
}

/// Chunks in order start at increasing offsets, and each lies within the whole.
proof fn lemma_chunk_within(store: EvidenceStore, chunks: Seq<ChunkRow>, k: int)
    requires
        store.wf(),
        store.in_order(chunks),
        0 <= k < chunks.len(),
    ensures
        store.blob_of(chunks[k].hash@) is Some,
        store.chunk_length(chunks[k]) > 0,
        chunks[k].offset + store.chunk_length(chunks[k]) <= store.span(chunks),
        k < chunks.len() - 1 ==> chunks[k].offset < chunks.last().offset,
        store.payload(chunks).len() == store.span(chunks),
        store.payload(chunks).subrange(
            chunks[k].offset as int,
            chunks[k].offset + store.chunk_length(chunks[k]),
        ) == store.chunk_bytes(chunks[k]),
    decreases chunks.len(),
{
    let rest = chunks.drop_last();
    let last = chunks.last();
    support::lemma_first_where(store.blobs@, with_hash(last.hash@));
    assert(EvidenceStore::blob_wf(store.blobs@[store.blob_of(last.hash@)->0]));
    assert(store.chunk_bytes(last).len() == store.chunk_length(last));
    assert(store.payload(chunks) == store.payload(rest) + store.chunk_bytes(last));
    if rest.len() > 0 {
        if k < rest.len() {
            lemma_chunk_within(store, rest, k);
        } else {
            lemma_chunk_within(store, rest, 0);
        }
    }
    assert(store.payload(rest).len() == store.span(rest));
    assert(store.payload(chunks).subrange(
        chunks[k].offset as int,
        chunks[k].offset + store.chunk_length(chunks[k]),
    ) =~= store.chunk_bytes(chunks[k])) by {
        if k < rest.len() {
            let start = chunks[k].offset as int;
            let end = chunks[k].offset + store.chunk_length(chunks[k]);
            assert(store.payload(chunks).subrange(start, end) =~= store.payload(rest).subrange(
                start,
                end,
            ));
        }
    }
}

proof fn lemma_offsets_differ(store: EvidenceStore, chunks: Seq<ChunkRow>, a: int, b: int)
    requires
        store.wf(),
        store.in_order(chunks),
        0 <= a < b < chunks.len(),
    ensures
        chunks[a].offset < chunks[b].offset,
    decreases chunks.len(),
{
    if b == chunks.len() - 1 {
        lemma_chunk_within(store, chunks, a);
    } else {
        lemma_offsets_differ(store, chunks.drop_last(), a, b);
    }
}

/// A complete payload can be read from its first chunk to its last: every
/// chunk's offset gives the stretch of the payload from there to the next chunk,
/// with the digest recorded for it, and together they are as long as declared.
pub proof fn law_complete_payload_reads_back(store: EvidenceStore, id: Seq<char>, k: int)
    requires
        store.wf(),
        store.row_of(id) matches Some(i) && store.rows@[i].complete,
        0 <= k < store.layout(id).len(),
    ensures
        ({
            let row = store.rows@[store.row_of(id)->0];
            let chunk = store.layout(id)[k];
            let whole = store.payload(store.layout(id));
            let part = whole.subrange(
                chunk.offset as int,
                chunk.offset + store.chunk_length(chunk),
            );
            &&& whole.len() == row.length
            &&& 0 < store.chunk_length(chunk) <= row.length - chunk.offset
            &&& store.read_outcome(id, chunk.offset) == Ok::<Seq<u8>, EvidenceError>(part)
            &&& outside::blake3_hex(part) == chunk.hash@
        }),
{
    let i = store.row_of(id)->0;
    support::lemma_first_where(store.rows@, with_id(id));
    assert(store.row_wf(store.rows@[i]));
    let chunks = store.layout(id);
    let chunk = chunks[k];
    lemma_chunk_within(store, chunks, k);
    // The chunk found at the offset is this one.
    lemma_filtered_from(store.chunks@, of_evidence(id), k);
    let c = choose|c: int| 0 <= c < store.chunks@.len() && store.chunks@[c] == chunk;
    assert(with_start(id, chunk.offset)(store.chunks@[c]));
    support::lemma_first_where(store.chunks@, with_start(id, chunk.offset));
    let d = store.chunk_of(id, chunk.offset)->0;
    store.chunks@.lemma_filter_contains(of_evidence(id), d);
    assert(chunks.contains(store.chunks@[d]));
    let m = choose|m: int| 0 <= m < chunks.len() && chunks[m] == store.chunks@[d];
    if m < k {
        lemma_offsets_differ(store, chunks, m, k);
    } else if k < m {
        lemma_offsets_differ(store, chunks, k, m);
    }
    support::lemma_first_where(store.blobs@, with_hash(chunk.hash@));
    assert(EvidenceStore::blob_wf(store.blobs@[store.blob_of(chunk.hash@)->0]));
}

impl EvidenceStore {
    /// Bytes that are shared under the digest of these are these.
    pub open spec fn agrees(self, bytes: Seq<u8>) -> bool {
        self.blob_of(outside::blake3_hex(bytes)) matches Some(b) ==> (outside::zlib_decoded(
            self.blobs@[b].compressed@,
            (self.blobs@[b].length + 1) as nat,
        ) matches Some((found, _)) && found == bytes)
    }

    /// Bytes that are shared under the digest of these are as many.
    pub open spec fn agrees_in_length(self, bytes: Seq<u8>) -> bool {
        self.blob_of(outside::blake3_hex(bytes)) matches Some(b) ==> self.blobs@[b].length
            == bytes.len()
    }
}

/// Committed bytes are what is read at their offset from then on, in every later store
/// that keeps what was committed, once the payload is complete. Bytes that were shared
/// under the same digest before have to be the same.
pub proof fn law_appended_bytes_read_back(
    before: EvidenceStore,
    after: EvidenceStore,
    later: EvidenceStore,
    id: Seq<char>,
    offset: u64,
    chunk: PreparedChunk,
    bytes: Seq<u8>,
)
    requires
        before.wf(),
        chunk.prepared_from(bytes),
        before.append_refusal(id, offset, chunk) is None,
        before.row_of(id) matches Some(i) && offset == before.rows@[i].committed,
        before.agrees(bytes),
        before.appended(after, id, offset, chunk),
        after.chunks@.is_prefix_of(later.chunks@),
        after.blobs@.is_prefix_of(later.blobs@),
        later.wf(),
        later.row_of(id) matches Some(i) && later.rows@[i].complete,
    ensures
        later.read_outcome(id, offset) == Ok::<Seq<u8>, EvidenceError>(bytes),
{
    let c = before.chunks@.len() as int;
    assert(after.chunks@[c] == after.chunks@.last());
    assert(later.chunks@[c] == after.chunks@[c]);
    later.chunks@.lemma_filter_contains(of_evidence(id), c);
    assert(later.layout(id).contains(later.chunks@[c]));
    let k = choose|k: int|
        0 <= k < later.layout(id).len() && later.layout(id)[k] == later.chunks@[c];
    law_complete_payload_reads_back(later, id, k);
    let i = later.row_of(id)->0;
    support::lemma_first_where(later.rows@, with_id(id));
    assert(later.row_wf(later.rows@[i]));
    lemma_chunk_within(later, later.layout(id), k);
    support::lemma_first_where(before.blobs@, with_hash(chunk.hash@));
    if before.blob_of(chunk.hash@) is Some {
        lemma_blob_kept(before, after, chunk.hash@);
    } else {
        let b = before.blobs@.len() as int;
        support::lemma_first_found(after.blobs@, with_hash(chunk.hash@), b);
    }
    lemma_blob_kept(after, later, chunk.hash@);
}

/// A store has bytes committed at the end of a payload.
pub open spec fn commits(
    before: EvidenceStore,
    after: EvidenceStore,
    id: Seq<char>,
    chunk: PreparedChunk,
    bytes: Seq<u8>,
) -> bool {
    &&& chunk.prepared_from(bytes)
    &&& before.agrees(bytes)
    &&& before.row_of(id) matches Some(i) && before.append_refusal(
        id,
        before.rows@[i].committed,
        chunk,
    ) is None && before.appended(after, id, before.rows@[i].committed, chunk)
}

/// The first `n` of these parts, one after the other.
pub open spec fn joined_parts(parts: Seq<Seq<u8>>, n: nat) -> Seq<u8>
    decreases n,
{
    if n == 0 {
        Seq::empty()
    } else {
        joined_parts(parts, (n - 1) as nat) + parts[n - 1]
    }
}

proof fn lemma_payload_kept(before: EvidenceStore, after: EvidenceStore, chunks: Seq<ChunkRow>)
    requires
        blobs_kept(before, after),
        before.in_order(chunks),
    ensures
        after.payload(chunks) == before.payload(chunks),
    decreases chunks.len(),
{
    if chunks.len() > 0 {
        lemma_payload_kept(before, after, chunks.drop_last());
        lemma_blob_kept(before, after, chunks.last().hash@);
    }
}

proof fn lemma_commit(
    before: EvidenceStore,
    after: EvidenceStore,
    id: Seq<char>,
    chunk: PreparedChunk,
    bytes: Seq<u8>,
)
    requires
        before.wf(),
        commits(before, after, id, chunk, bytes),
    ensures
        after.wf(),
        after.row_of(id) == before.row_of(id),
        after.rows@[after.row_of(id)->0].committed == before.rows@[before.row_of(id)->0].committed
            + bytes.len(),
        after.payload(after.layout(id)) == before.payload(before.layout(id)) + bytes,
        before.chunks@.is_prefix_of(after.chunks@),
        before.blobs@.is_prefix_of(after.blobs@),
{
    let i = before.row_of(id)->0;
    let offset = before.rows@[i].committed;
    support::lemma_first_where(before.rows@, with_id(id));
    support::lemma_first_where(before.blobs@, with_hash(chunk.hash@));
    if before.blob_of(chunk.hash@) is Some {
        assert(EvidenceStore::blob_wf(before.blobs@[before.blob_of(chunk.hash@)->0]));
    }
    lemma_appended_keeps_wf(before, after, id, offset, chunk);
    assert forall|j: int| 0 <= j < i implies !with_id(id)(#[trigger] after.rows@[j]) by {
        assert(after.rows@[j] == before.rows@[j]);
    }
    support::lemma_first_found(after.rows@, with_id(id), i);
    assert(before.row_wf(before.rows@[i]));
    let last = after.chunks@.last();
    support::lemma_filter_push(before.chunks@, last, of_evidence(id));
    assert(after.layout(id) == before.layout(id).push(last));
    assert(after.layout(id).drop_last() =~= before.layout(id));
    lemma_payload_kept(before, after, before.layout(id));
    if before.blob_of(chunk.hash@) is Some {
        lemma_blob_kept(before, after, chunk.hash@);
    } else {
        support::lemma_first_found(
            after.blobs@,
            with_hash(chunk.hash@),
            before.blobs@.len() as int,
        );
    }
    assert(after.chunk_bytes(last) == bytes);
}

proof fn lemma_commits(
    stores: Seq<EvidenceStore>,
    id: Seq<char>,
    chunks: Seq<PreparedChunk>,
    parts: Seq<Seq<u8>>,
    n: nat,
)
    requires
        n <= parts.len() == chunks.len(),
        stores.len() == parts.len() + 1,
        stores[0].wf(),
        stores[0].row_of(id) is Some,
        stores[0].layout(id).len() == 0,
        forall|i: int|
            0 <= i < parts.len() ==> commits(
                stores[i],
                stores[i + 1],
                id,
                #[trigger] chunks[i],
                parts[i],
            ),
    ensures
        stores[n as int].wf(),
        stores[n as int].row_of(id) == stores[0].row_of(id),
        stores[n as int].rows@[stores[0].row_of(id)->0].committed == joined_parts(parts, n).len(),
        stores[n as int].payload(stores[n as int].layout(id)) == joined_parts(parts, n),
        forall|k: int|
            0 <= k <= n ==> (#[trigger] stores[k]).chunks@.is_prefix_of(stores[n as int].chunks@)
                && stores[k].blobs@.is_prefix_of(stores[n as int].blobs@),
    decreases n,
{
    if n == 0 {
        support::lemma_first_where(stores[0].rows@, with_id(id));
        assert(stores[0].row_wf(stores[0].rows@[stores[0].row_of(id)->0]));
    } else {
        lemma_commits(stores, id, chunks, parts, (n - 1) as nat);
        assert(commits(stores[n - 1], stores[n as int], id, chunks[n - 1], parts[n - 1]));
        lemma_commit(stores[n - 1], stores[n as int], id, chunks[n - 1], parts[n - 1]);
        assert forall|k: int| 0 <= k <= n implies (#[trigger] stores[k]).chunks@.is_prefix_of(
            stores[n as int].chunks@,
        ) && stores[k].blobs@.is_prefix_of(stores[n as int].blobs@) by {
            if k < n {
                assert(stores[k].chunks@.is_prefix_of(stores[n - 1].chunks@));
                assert(stores[k].chunks@ =~= stores[n as int].chunks@.subrange(
                    0,
                    stores[k].chunks@.len() as int,
                ));
                assert(stores[k].blobs@ =~= stores[n as int].blobs@.subrange(
                    0,
                    stores[k].blobs@.len() as int,
                ));
            }
        }
    }
}

/// A payload that was committed part by part is read back part by part: each part at
/// the offset where the parts before it end, nothing at the payload's end, and all of
/// them together are the payload.
pub proof fn law_appended_parts_read_back(
    stores: Seq<EvidenceStore>,
    id: Seq<char>,
    chunks: Seq<PreparedChunk>,
    parts: Seq<Seq<u8>>,
)
    requires
        parts.len() == chunks.len(),
        stores.len() == parts.len() + 1,
        stores[0].wf(),
        stores[0].row_of(id) is Some,
        stores[0].layout(id).len() == 0,
        forall|i: int|
            0 <= i < parts.len() ==> commits(
                stores[i],
                stores[i + 1],
                id,
                #[trigger] chunks[i],
                parts[i],
            ),
        stores.last().row_of(id) matches Some(i) && stores.last().rows@[i].complete,
    ensures
        ({
            let last = stores.last();
            let row = last.rows@[last.row_of(id)->0];
            &&& last.payload(last.layout(id)) == joined_parts(parts, parts.len())
            &&& row.length == joined_parts(parts, parts.len()).len()
            &&& last.read_outcome(id, row.length) == Ok::<Seq<u8>, EvidenceError>(Seq::empty())
            &&& forall|k: int|
                0 <= k < parts.len() ==> last.read_outcome(
                    id,
                    joined_parts(parts, k as nat).len() as u64,
                ) == Ok::<Seq<u8>, EvidenceError>(#[trigger] parts[k])
        }),
{
    let n = parts.len();
    let last = stores.last();
    lemma_commits(stores, id, chunks, parts, n);
    support::lemma_first_where(last.rows@, with_id(id));
    assert(last.row_wf(last.rows@[last.row_of(id)->0]));
    assert forall|k: int| 0 <= k < parts.len() implies last.read_outcome(
        id,
        joined_parts(parts, k as nat).len() as u64,
    ) == Ok::<Seq<u8>, EvidenceError>(#[trigger] parts[k]) by {
        lemma_commits(stores, id, chunks, parts, k as nat);
        assert(commits(stores[k], stores[k + 1], id, chunks[k], parts[k]));
        assert(stores[k + 1].chunks@.is_prefix_of(last.chunks@));
        law_appended_bytes_read_back(
            stores[k],
            stores[k + 1],
            last,
            id,
            stores[k].rows@[stores[k].row_of(id)->0].committed,
            chunks[k],
            parts[k],
        );
    }
}

/// A payload is read nowhere but where its chunks start: beyond its end and within a
/// chunk there is nothing to read.
pub proof fn law_reads_elsewhere_are_refused(store: EvidenceStore, id: Seq<char>, offset: u64, k: int)
    requires
        store.wf(),
        store.row_of(id) matches Some(i) && store.rows@[i].complete,
    ensures
        ({
            let row = store.rows@[store.row_of(id)->0];
            &&& offset > row.length ==> store.read_outcome(id, offset) == Err::<
                Seq<u8>,
                EvidenceError,
            >(EvidenceError::OffsetRange)
            &&& 0 <= k < store.layout(id).len() && store.layout(id)[k].offset < offset
                < store.layout(id)[k].offset + store.chunk_length(store.layout(id)[k])
                ==> store.read_outcome(id, offset) == Err::<Seq<u8>, EvidenceError>(
                EvidenceError::MissingChunk,
            )
        }),
{
    let i = store.row_of(id)->0;
    support::lemma_first_where(store.rows@, with_id(id));
    assert(store.row_wf(store.rows@[i]));
    let chunks = store.layout(id);
    if 0 <= k < chunks.len() && chunks[k].offset < offset < chunks[k].offset
        + store.chunk_length(chunks[k]) {
        lemma_chunk_within(store, chunks, k);
        support::lemma_first_where(store.chunks@, with_start(id, offset));
        if store.chunk_of(id, offset) is Some {
            let d = store.chunk_of(id, offset)->0;
            store.chunks@.lemma_filter_contains(of_evidence(id), d);
            assert(chunks.contains(store.chunks@[d]));
            let m = choose|m: int| 0 <= m < chunks.len() && chunks[m] == store.chunks@[d];
            lemma_starts_apart(store, chunks, k, m);
        }
    }
}

/// No chunk starts within another.
proof fn lemma_starts_apart(store: EvidenceStore, chunks: Seq<ChunkRow>, a: int, b: int)
    requires
        store.wf(),
        store.in_order(chunks),
        0 <= a < chunks.len(),
        0 <= b < chunks.len(),
    ensures
        a < b ==> chunks[b].offset >= chunks[a].offset + store.chunk_length(chunks[a]),
        b <= a ==> chunks[b].offset <= chunks[a].offset,
    decreases chunks.len(),
{
    let rest = chunks.drop_last();
    if a < b {
        if b == chunks.len() - 1 {
            lemma_chunk_within(store, rest, a);
        } else {
            lemma_starts_apart(store, rest, a, b);
        }
    } else if b < a {
        lemma_offsets_differ(store, chunks, b, a);
    }
}

/// Whatever a store holds, no other bytes are read than those of the digest that was
/// recorded for their offset, and none of a payload that is not complete.
pub proof fn law_no_other_bytes_are_read(store: EvidenceStore, id: Seq<char>, offset: u64, bytes: Seq<u8>)
    requires
        store.read_outcome(id, offset) == Ok::<Seq<u8>, EvidenceError>(bytes),
    ensures
        store.row_of(id) matches Some(i) && store.rows@[i].complete && offset
            <= store.rows@[i].length && if offset == store.rows@[i].length {
            bytes.len() == 0
        } else {
            store.chunk_of(id, offset) matches Some(c) && outside::blake3_hex(bytes)
                == store.chunks@[c].hash@
        },
{
    if store.chunk_of(id, offset) is Some {
        let c = store.chunk_of(id, offset)->0;
        support::lemma_first_where(store.blobs@, with_hash(store.chunks@[c].hash@));
    }
}

/// What was committed stays: committing a chunk or declaring a payload keeps
/// every chunk and all bytes that were there.
pub proof fn law_evidence_is_append_only(
    before: EvidenceStore,
    after: EvidenceStore,
    id: Seq<char>,
    offset: u64,
    chunk: PreparedChunk,
    descriptor: Seq<u8>,
    length: u64,
)
    requires
        before.appended(after, id, offset, chunk) || before.declared(after, descriptor, length),
    ensures
        before.chunks@.is_prefix_of(after.chunks@),
        before.blobs@.is_prefix_of(after.blobs@),
{
}

/// One step on what is retained: nothing is changed, a payload is declared, or a chunk
/// is committed at the end of one.
pub open spec fn steps_on(before: EvidenceStore, after: EvidenceStore) -> bool {
    ||| after == before
    ||| exists|descriptor: Seq<u8>, length: u64|
        {
            &&& length <= i64::MAX
            &&& before.row_of(initial_manifest_text(descriptor, length)) is None
            &&& #[trigger] before.declared(after, descriptor, length)
        }
    ||| exists|id: Seq<char>, offset: u64, chunk: PreparedChunk|
        {
            &&& chunk.wf()
            &&& before.no_collision(chunk)
            &&& before.append_refusal(id, offset, chunk) is None
            &&& before.row_of(id) is Some
            &&& offset == before.rows@[before.row_of(id)->0].committed
            &&& #[trigger] before.appended(after, id, offset, chunk)
        }
}

/// Every store comes from the one before it by one step.
pub open spec fn stepped(stores: Seq<EvidenceStore>) -> bool {
    forall|i: int| 0 <= i < stores.len() - 1 ==> steps_on(#[trigger] stores[i], stores[i + 1])
}

proof fn lemma_step(before: EvidenceStore, after: EvidenceStore, id: Seq<char>)
    requires
        before.wf(),
        steps_on(before, after),
    ensures
        after.wf(),
        before.chunks@.is_prefix_of(after.chunks@),
        before.blobs@.is_prefix_of(after.blobs@),
        before.row_of(id) matches Some(i) ==> {
            &&& after.row_of(id) == Some(i)
            &&& after.rows@[i].length == before.rows@[i].length
            &&& after.rows@[i].committed >= before.rows@[i].committed
        },
{
    support::lemma_first_where(before.rows@, with_id(id));
    if after != before {
        if exists|descriptor: Seq<u8>, length: u64|
            {
                &&& length <= i64::MAX
                &&& before.row_of(initial_manifest_text(descriptor, length)) is None
                &&& #[trigger] before.declared(after, descriptor, length)
            } {
            let (descriptor, length) = choose|descriptor: Seq<u8>, length: u64|
                {
                    &&& length <= i64::MAX
                    &&& before.row_of(initial_manifest_text(descriptor, length)) is None
                    &&& #[trigger] before.declared(after, descriptor, length)
                };
            lemma_declared_keeps_wf(before, after, descriptor, length);
        } else {
            let (at, offset, chunk) = choose|at: Seq<char>, offset: u64, chunk: PreparedChunk|
                {
                    &&& chunk.wf()
                    &&& before.no_collision(chunk)
                    &&& before.append_refusal(at, offset, chunk) is None
                    &&& before.row_of(at) is Some
                    &&& offset == before.rows@[before.row_of(at)->0].committed
                    &&& #[trigger] before.appended(after, at, offset, chunk)
                };
            lemma_appended_keeps_wf(before, after, at, offset, chunk);
            support::lemma_first_where(before.rows@, with_id(at));
        }
        if before.row_of(id) is Some {
            let i = before.row_of(id)->0;
            assert forall|j: int| 0 <= j < i implies !with_id(id)(#[trigger] after.rows@[j]) by {
                assert(!with_id(id)(before.rows@[j]));
                assert(after.rows@[j].id@ == before.rows@[j].id@);
            }
            assert(after.rows@[i].id@ == before.rows@[i].id@);
            support::lemma_first_found(after.rows@, with_id(id), i);
        }
    }
}

proof fn lemma_steps(stores: Seq<EvidenceStore>, id: Seq<char>, k: int)
    requires
        0 <= k < stores.len(),
        stores[k].wf(),
        stepped(stores),
    ensures
        stores.last().wf(),
        stores[k].chunks@.is_prefix_of(stores.last().chunks@),
        stores[k].blobs@.is_prefix_of(stores.last().blobs@),
        stores[k].row_of(id) matches Some(i) ==> {
            &&& stores.last().row_of(id) == Some(i)
            &&& stores.last().rows@[i].length == stores[k].rows@[i].length
            &&& stores.last().rows@[i].committed >= stores[k].rows@[i].committed
        },
    decreases stores.len() - k,
{
    if k < stores.len() - 1 {
        assert(steps_on(stores[k], stores[k + 1]));
        lemma_step(stores[k], stores[k + 1], id);
        lemma_steps(stores, id, k + 1);
        assert(stores[k].chunks@ =~= stores.last().chunks@.subrange(
            0,
            stores[k].chunks@.len() as int,
        ));
        assert(stores[k].blobs@ =~= stores.last().blobs@.subrange(
            0,
            stores[k].blobs@.len() as int,
        ));
    }
}

/// Whatever is declared and committed after a payload was begun, its state keeps its
/// identity and its length, counts no more bytes than were declared and never fewer
/// than before, is complete exactly when all of them are there, and has the identity as
/// its manifest as long as none is.
pub proof fn law_begun_payloads_report_their_progress(
    stores: Seq<EvidenceStore>,
    descriptor: Seq<u8>,
    length: u64,
    begun: EvidenceState,
    state: EvidenceState,
)
    requires
        stores.len() > 0,
        stores[0].wf(),
        stepped(stores),
        stores[0].row_of(initial_manifest_text(descriptor, length)) matches Some(i) && begun.of(
            stores[0].rows@[i],
        ) && stores[0].rows@[i].length == length,
        stores.last().row_of(initial_manifest_text(descriptor, length)) matches Some(i) ==> state.of(
            stores.last().rows@[i],
        ),
    ensures
        stores.last().row_of(initial_manifest_text(descriptor, length)) is Some,
        state.id@ == initial_manifest_text(descriptor, length),
        state.length == length,
        begun.committed <= state.committed <= length,
        state.complete <==> state.committed == length,
        state.committed == 0 ==> state.manifest@ == state.id@,
{
    let id = initial_manifest_text(descriptor, length);
    let last = stores.last();
    lemma_steps(stores, id, 0);
    support::lemma_first_where(last.rows@, with_id(id));
    let row = last.rows@[last.row_of(id)->0];
    assert(last.row_wf(row));
    let chunks = last.layout(id);
    if row.committed == 0 && chunks.len() > 0 {
        lemma_chunk_within(last, chunks, 0);
    }
}

/// Bytes that were committed to a payload are read at their offset once the payload is
/// complete, whatever was declared and committed before and after them, to it or to
/// others.
pub proof fn law_committed_bytes_outlast_every_step(
    stores: Seq<EvidenceStore>,
    k: int,
    id: Seq<char>,
    chunk: PreparedChunk,
    bytes: Seq<u8>,
)
    requires
        0 <= k < stores.len() - 1,
        stores[0].wf(),
        stepped(stores),
        commits(stores[k], stores[k + 1], id, chunk, bytes),
        stores.last().row_of(id) matches Some(i) && stores.last().rows@[i].complete,
    ensures
        stores.last().read_outcome(
            id,
            stores[k].rows@[stores[k].row_of(id)->0].committed,
        ) == Ok::<Seq<u8>, EvidenceError>(bytes),
{
    let first = stores.take(k + 1);
    assert forall|i: int| 0 <= i < first.len() - 1 implies steps_on(
        #[trigger] first[i],
        first[i + 1],
    ) by {
        assert(steps_on(stores[i], stores[i + 1]));
    }
    lemma_steps(first, id, 0);
    lemma_commit(stores[k], stores[k + 1], id, chunk, bytes);
    lemma_steps(stores, id, k + 1);
    law_appended_bytes_read_back(
        stores[k],
        stores[k + 1],
        stores.last(),
        id,
        stores[k].rows@[stores[k].row_of(id)->0].committed,
        chunk,
        bytes,
    );
}

/// A payload that is complete after any steps is read back whole. Each of its chunks is read
/// where it starts, they lie end to end from its start to its end, nothing is read at its end,
/// and nowhere else is anything read; what was committed to it by any of the steps is what is
/// read where it was committed.
pub proof fn law_payloads_read_back_after_all_steps(stores: Seq<EvidenceStore>, id: Seq<char>)
    requires
        stores.len() > 0,
        stores[0].wf(),
        stepped(stores),
        stores.last().row_of(id) matches Some(i) && stores.last().rows@[i].complete,
    ensures
        ({
            let last = stores.last();
            let length = last.rows@[last.row_of(id)->0].length;
            let chunks = last.layout(id);
            &&& last.in_order(chunks)
            &&& last.payload(chunks).len() == length
            &&& forall|k: int|
                0 <= k < chunks.len() ==> last.read_outcome(id, (#[trigger] chunks[k]).offset)
                    == Ok::<Seq<u8>, EvidenceError>(last.chunk_bytes(chunks[k]))
            &&& last.read_outcome(id, length) == Ok::<Seq<u8>, EvidenceError>(Seq::empty())
            &&& forall|offset: u64| #[trigger]
                last.read_outcome(id, offset) is Ok ==> offset == length || exists|k: int|
                    0 <= k < chunks.len() && (#[trigger] chunks[k]).offset == offset
            &&& forall|i: int, chunk: PreparedChunk, bytes: Seq<u8>|
                0 <= i < stores.len() - 1 && #[trigger] commits(
                    stores[i],
                    stores[i + 1],
                    id,
                    chunk,
                    bytes,
                ) ==> last.read_outcome(id, stores[i].rows@[stores[i].row_of(id)->0].committed)
                    == Ok::<Seq<u8>, EvidenceError>(bytes)
        }),
{
    let last = stores.last();
    let chunks = last.layout(id);
    lemma_steps(stores, id, 0);
    support::lemma_first_where(last.rows@, with_id(id));
    let row = last.rows@[last.row_of(id)->0];
    assert(last.row_wf(row));
    if chunks.len() > 0 {
        lemma_chunk_within(last, chunks, 0);
    }
    assert forall|k: int| 0 <= k < chunks.len() implies last.read_outcome(
        id,
        (#[trigger] chunks[k]).offset,
    ) == Ok::<Seq<u8>, EvidenceError>(last.chunk_bytes(chunks[k])) by {
        law_complete_payload_reads_back(last, id, k);
        lemma_chunk_within(last, chunks, k);
    }
    assert forall|offset: u64| #[trigger]
        last.read_outcome(id, offset) is Ok implies offset == row.length || exists|k: int|
        0 <= k < chunks.len() && (#[trigger] chunks[k]).offset == offset by {
        law_no_other_bytes_are_read(last, id, offset, last.read_outcome(id, offset)->Ok_0);
        if offset != row.length {
            let c = last.chunk_of(id, offset)->0;
            support::lemma_first_where(last.chunks@, with_start(id, offset));
            last.chunks@.lemma_filter_contains(of_evidence(id), c);
            assert(chunks.contains(last.chunks@[c]));
            let k = choose|k: int| 0 <= k < chunks.len() && chunks[k] == last.chunks@[c];
            assert(chunks[k].offset == offset);
        }
    }
    assert forall|i: int, chunk: PreparedChunk, bytes: Seq<u8>|
        0 <= i < stores.len() - 1 && #[trigger] commits(
            stores[i],
            stores[i + 1],
            id,
            chunk,
            bytes,
        ) implies last.read_outcome(id, stores[i].rows@[stores[i].row_of(id)->0].committed) == Ok::<
        Seq<u8>,
        EvidenceError,
    >(bytes) by {
        law_committed_bytes_outlast_every_step(stores, i, id, chunk, bytes);
    }
}

impl Catalog {
    /// Declares a payload to retain. A payload that was declared before is found
    /// again with what is committed of it.
    pub fn begin_migration_evidence(&mut self, descriptor: &[u8], length: u64) -> (r: Result<
        EvidenceState,
        EvidenceError,
    >)
        ensures
            final(self).evidence_only(*old(self)),
            old(self).evidence.wf() ==> final(self).evidence.wf(),
            match r {
                Err(e) => old(self).evidence.begin_refusal(descriptor@, length) == Some(e)
                    && *final(self) == *old(self),
                Ok(state) => {
                    let id = initial_manifest_text(descriptor@, length);
                    &&& old(self).evidence.begin_refusal(descriptor@, length) is None
                    &&& final(self).evidence.row_of(id) matches Some(i) && state.of(
                        final(self).evidence.rows@[i],
                    )
                    &&& if old(self).evidence.row_of(id) is Some {
                        *final(self) == *old(self)
                    } else {
                        old(self).evidence.declared(final(self).evidence, descriptor@, length)
                    }
                },
            },
    {
        self.evidence.begin(descriptor, length)
    }

    /// Commits bytes at the end of a payload. Bytes that were committed before are
    /// accepted again, without any change, only with the same hash.
    pub fn append_migration_evidence(&mut self, id: &str, offset: u64, bytes: &[u8]) -> (r: Result<
        EvidenceState,
        EvidenceError,
    >)
        ensures
            final(self).evidence_only(*old(self)),
            r is Err ==> *final(self) == *old(self),
            old(self).evidence.wf() && old(self).evidence.agrees_in_length(bytes@)
                ==> final(self).evidence.wf(),
            if bytes@.len() == 0 || bytes@.len() > CHUNK_BYTES {
                r == Err::<EvidenceState, EvidenceError>(EvidenceError::ChunkSize)
            } else if outside::zlib_stream(CHUNK_LEVEL, bytes@) is None {
                r == Err::<EvidenceState, EvidenceError>(EvidenceError::Compression)
            } else {
                exists|chunk: PreparedChunk|
                    #[trigger] chunk.prepared_from(bytes@) && match r {
                        Err(e) => old(self).evidence.append_refusal(id@, offset, chunk) == Some(e),
                        Ok(state) => {
                            &&& old(self).evidence.append_refusal(id@, offset, chunk) is None
                            &&& old(self).evidence.row_of(id@) matches Some(i) && final(
                                self).evidence.row_of(id@) == Some(i) && state.of(
                                final(self).evidence.rows@[i],
                            ) && if offset < old(self).evidence.rows@[i].committed {
                                *final(self) == *old(self)
                            } else {
                                old(self).evidence.appended(
                                    final(self).evidence,
                                    id@,
                                    offset,
                                    chunk,
                                )
                            }
                        },
                    }
            },
    {
        let chunk: PreparedChunk = match PreparedChunk::new(bytes) {
            Err(e) => return Err(e),
            Ok(chunk) => chunk,
        };
        assert(chunk.prepared_from(bytes@));
        self.evidence.append(id, offset, &chunk)
    }

    /// What is committed of a payload.
    pub fn migration_evidence(&self, id: &str) -> (r: Result<EvidenceState, EvidenceError>)
        ensures
            match r {
                Ok(state) => self.evidence.row_of(id@) matches Some(i) && state.of(
                    self.evidence.rows@[i],
                ),
                Err(e) => self.evidence.row_of(id@) is None && e == EvidenceError::Unknown,
            },
    {
        self.evidence.state(id)
    }

    /// The descriptor that a payload was declared with.
    pub fn migration_evidence_descriptor(&self, id: &str) -> (r: Result<Vec<u8>, EvidenceError>)
        ensures
            match self.evidence.row_of(id@) {
                Some(i) => r matches Ok(bytes) && bytes@ == self.evidence.rows@[i].descriptor@,
                None => r == Err::<Vec<u8>, EvidenceError>(EvidenceError::Unknown),
            },
    {
        match self.evidence.find_row(id) {
            None => Err(EvidenceError::Unknown),
            Some(i) => Ok(copy_bytes(self.evidence.rows[i].descriptor.as_slice())),
        }
    }

    /// One chunk of a complete payload, and nothing at its end.
    pub fn migration_evidence_chunk(&self, id: &str, offset: u64) -> (r: Result<
        Vec<u8>,
        EvidenceError,
    >)
        ensures
            match r {
                Ok(bytes) => self.evidence.read_outcome(id@, offset) == Ok::<
                    Seq<u8>,
                    EvidenceError,
                >(bytes@),
                Err(e) => self.evidence.read_outcome(id@, offset) == Err::<
                    Seq<u8>,
                    EvidenceError,
                >(e),
            },
    {
        self.evidence.read(id, offset)
    }
}

} // verus!

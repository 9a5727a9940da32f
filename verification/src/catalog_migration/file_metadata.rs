//! Metadata of files, put together from what a migration retains. No file is
//! opened: what an earlier inspection found, and what supplements it, become
//! observations of their own, and nothing is taken to be complete that was not.
use crate::catalog_metadata::store;
use crate::catalog_migration::evidence::{EvidenceError, EvidenceState, EvidenceStore};
use crate::catalog_migration::file_content;
use crate::catalog_migration::file_content::is_hex;
use crate::catalog_migration::file_history;
use crate::catalog_migration::file_history::{
    indices, ranges, FileScope, RawInput, RawInspection, RawPacket, COUNT, META, PACKET, PAYLOAD,
};
use crate::catalog_migration::proofs::SourceRecord;
use crate::catalog_migration::retained::{
    ByteRange, MigrationError, Observation, SourceRevision, Status,
};
use crate::copies::Copied;
use crate::outside;
use crate::outside::blake3_digest;
use crate::support;
use crate::support::{append_bytes, copy_option, same};
use vstd::prelude::*;
use vstd::string::*;
use vstd::utf8::*;

pub use crate::catalog_migration::file_history::Origin;

verus! {

/// Whether a sidecar is known to belong to its file.
#[derive(Clone, Debug)]
pub enum Association {
    /// A candidate's name does not tell whose it is.
    Unresolved,
    /// Somebody decided that it belongs to the file.
    Confirmed { reason: String },
}

/// A request to project the metadata of a file.
#[derive(Clone, Debug)]
pub struct Projection {
    pub file: SourceRecord,
    pub retained_path: i64,
    pub origin: Origin,
    /// All records of this origin.
    pub packet_records: Vec<i64>,
    pub import_source: String,
    pub association: Association,
    /// The retained document that supplements the inspection.
    pub supplement: Option<String>,
}

/// What projecting a file's metadata gave.
#[derive(Clone, Debug)]
pub struct ProjectionResult {
    pub input_digest: String,
    pub asset_id: String,
    pub state: String,
    pub historical_status: Option<Status>,
    pub observation: Option<i64>,
    pub reason: Option<String>,
}

/// What a `ProjectionResult` stands for.
#[verifier::ext_equal]
pub struct FileResultModel {
    pub input_digest: Seq<char>,
    pub asset_id: Seq<char>,
    pub state: Seq<char>,
    pub historical_status: Option<Status>,
    pub observation: Option<i64>,
    pub reason: Option<Seq<char>>,
}

impl View for ProjectionResult {
    type V = FileResultModel;

    open spec fn view(&self) -> FileResultModel {
        FileResultModel {
            input_digest: self.input_digest@,
            asset_id: self.asset_id@,
            state: self.state@,
            historical_status: self.historical_status,
            observation: self.observation,
            reason: support::text_of(self.reason),
        }
    }
}

impl Copied for ProjectionResult {
    fn copied(&self) -> (c: Self) {
        ProjectionResult {
            input_digest: self.input_digest.clone(),
            asset_id: self.asset_id.clone(),
            state: self.state.clone(),
            historical_status: self.historical_status,
            observation: self.observation,
            reason: copy_option(&self.reason),
        }
    }
}

/// What a decision on a file's metadata rests on: the records of the file, of its path
/// and of all its packets, what supplements them, and the source they are bound to.
#[derive(Clone, Debug)]
pub struct FileProof {
    pub file: i64,
    pub path: i64,
    pub packet_records: Vec<i64>,
    pub supplement_evidence: Option<String>,
    pub source_binding: String,
}

/// What a `FileProof` stands for.
#[verifier::ext_equal]
pub struct FileProofModel {
    pub file: i64,
    pub path: i64,
    pub packet_records: Seq<i64>,
    pub supplement_evidence: Option<Seq<char>>,
    pub source_binding: Seq<char>,
}

impl View for FileProof {
    type V = FileProofModel;

    open spec fn view(&self) -> FileProofModel {
        FileProofModel {
            file: self.file,
            path: self.path,
            packet_records: self.packet_records@,
            supplement_evidence: support::text_of(self.supplement_evidence),
            source_binding: self.source_binding@,
        }
    }
}

/// A file's metadata that was decided upon.
pub struct FileMetadataRow {
    pub file_source: String,
    pub origin: Origin,
    pub supplement: String,
    pub owner: String,
    pub input_digest: String,
    pub retained_file: i64,
    pub retained_path: i64,
    pub receipts: FileProof,
    pub result: ProjectionResult,
}

/// What a `FileMetadataRow` stands for.
#[verifier::ext_equal]
pub struct FileMetadataModel {
    pub file_source: Seq<char>,
    pub origin: Origin,
    pub supplement: Seq<char>,
    pub owner: Seq<char>,
    pub input_digest: Seq<char>,
    pub retained_file: i64,
    pub retained_path: i64,
    pub receipts: FileProofModel,
    pub result: FileResultModel,
}

impl View for FileMetadataRow {
    type V = FileMetadataModel;

    open spec fn view(&self) -> FileMetadataModel {
        FileMetadataModel {
            file_source: self.file_source@,
            origin: self.origin,
            supplement: self.supplement@,
            owner: self.owner@,
            input_digest: self.input_digest@,
            retained_file: self.retained_file,
            retained_path: self.retained_path,
            receipts: self.receipts@,
            result: self.result@,
        }
    }
}

/// Retained bytes, with the length and the digest that they have to have.
#[derive(Clone, Debug)]
pub struct Payload {
    pub evidence: String,
    pub length: u64,
    pub blake3: String,
}

/// A packet of a supplement.
#[derive(Clone, Debug)]
pub struct SupplementPacket {
    pub payload: Payload,
    pub container: String,
    pub ranges: Vec<ByteRange>,
    pub group: String,
    /// The attributes as a document.
    pub attributes: String,
}

/// Bytes to interpret of a supplement.
#[derive(Clone, Debug)]
pub struct SupplementInput {
    pub payload: Payload,
    pub transformation: String,
    pub packet_indices: Vec<usize>,
    pub group: String,
}

/// A later, qualified inspection of a file, bound to the earlier one.
#[derive(Clone, Debug)]
pub struct SupplementalProof {
    pub protocol: u32,
    pub revision: String,
    pub source_id: String,
    pub origin: String,
    pub source_revision: SourceRevision,
    pub historical_status: Status,
    pub status: Status,
    /// The issues as a document.
    pub issues: String,
    pub validation_document: Payload,
    pub packets: Vec<SupplementPacket>,
    pub parse_inputs: Vec<SupplementInput>,
}

/// What a supplement's document says, and the document of its meaning: that without
/// transport identities and names within one inspection.
#[derive(Clone, Debug)]
pub struct Supplement {
    pub proof: SupplementalProof,
    pub semantic: Vec<u8>,
}

/// A supplement that a seal pins.
#[derive(Clone, Debug)]
pub struct SupplementPin {
    pub revision: String,
    pub source_id: String,
    pub origin: String,
    pub source_revision: SourceRevision,
    pub historical_status: Status,
    pub proof_blake3: String,
}

/// A capture that was selected.
#[derive(Clone, Debug)]
pub struct SelectedCapture {
    pub revision: String,
    pub manifest_blake3: String,
}

/// What was selected of a source, under the identity that binds the selection.
#[derive(Clone, Debug)]
pub struct InputSeal {
    pub id: String,
    pub selected: Vec<SelectedCapture>,
    pub supplements: Vec<SupplementPin>,
}

/// What the sealed source enumerates of a file's origin.
pub struct Roster {
    pub binding: String,
    pub rowids: Vec<i64>,
}

/// The metadata of files that was decided upon, and the seals of the sources.
pub struct FileMetadata {
    pub rows: Vec<FileMetadataRow>,
    pub seals: Vec<InputSeal>,
}

/// What `FileMetadata` stands for.
#[verifier::ext_equal]
pub struct FilesModel {
    pub rows: Seq<FileMetadataModel>,
    pub seals: Seq<InputSeal>,
}

impl View for FileMetadata {
    type V = FilesModel;

    open spec fn view(&self) -> FilesModel {
        FilesModel { rows: support::models(self.rows@), seals: self.seals@ }
    }
}

pub open spec fn decided_on(file: Seq<char>, origin: Origin, supplement: Seq<char>) -> spec_fn(
    FileMetadataModel,
) -> bool {
    |r: FileMetadataModel|
        r.file_source == file && r.origin == origin && r.supplement == supplement
}

pub open spec fn sealed_as(id: Seq<char>) -> spec_fn(InputSeal) -> bool {
    |s: InputSeal| s.id@ == id
}

impl FilesModel {
    /// The decision on a file's origin.
    pub open spec fn row_at(self, file: Seq<char>, origin: Origin, supplement: Seq<char>) -> Option<
        int,
    > {
        support::first_where(self.rows, decided_on(file, origin, supplement))
    }

    /// The seal of an identity.
    pub open spec fn seal_at(self, id: Seq<char>) -> Option<int> {
        support::first_where(self.seals, sealed_as(id))
    }
}

impl FileMetadata {
    /// Nothing was decided yet.
    pub fn new() -> (f: Self)
        ensures
            f@ == (FilesModel { rows: Seq::empty(), seals: Seq::empty() }),
    {
        let f: FileMetadata = FileMetadata { rows: Vec::new(), seals: Vec::new() };
        assert(f@ =~= (FilesModel { rows: Seq::empty(), seals: Seq::empty() }));
        f
    }

    pub(crate) fn find_row_at(&self, file: &str, origin: Origin, supplement: &str) -> (r: Option<usize>)
        ensures
            match r {
                Some(i) => i < self.rows@.len() && self@.row_at(file@, origin, supplement@) == Some(
                    i as int,
                ) && self@.rows[i as int] == self.rows@[i as int]@,
                None => self@.row_at(file@, origin, supplement@) is None,
            },
    {
        let test = |r: &FileMetadataRow| -> (b: bool)
            ensures b == decided_on(file@, origin, supplement@)(r@)
        {
            r.origin == origin && same(r.file_source.as_str(), file) && same(
                r.supplement.as_str(),
                supplement,
            )
        };
        let r: Option<usize> = support::find(
            &self.rows,
            test,
            Ghost(decided_on(file@, origin, supplement@)),
        );
        proof {
            if let Some(i) = r {
                assert(self@.rows[i as int] == self.rows@[i as int]@);
            }
        }
        r
    }

    pub(crate) fn find_seal(&self, id: &str) -> (r: Option<usize>)
        ensures
            match r {
                Some(i) => i < self.seals@.len() && self@.seal_at(id@) == Some(i as int),
                None => self@.seal_at(id@) is None,
            },
    {
        let ghost p = sealed_as(id@);
        let mut i: usize = 0;
        while i < self.seals.len()
            invariant
                i <= self.seals@.len(),
                p == sealed_as(id@),
                forall|j: int| 0 <= j < i ==> !p(#[trigger] self.seals@[j]),
            decreases self.seals@.len() - i,
        {
            if same(self.seals[i].id.as_str(), id) {
                proof {
                    support::lemma_first_found(self.seals@, p, i as int);
                }
                return Some(i);
            }
            i += 1;
        }
        proof {
            support::lemma_none_found(self.seals@, p);
        }
        None
    }
}

/// The bytes of a payload, read on from those that were read.
pub open spec fn collected(
    store: EvidenceStore,
    id: Seq<char>,
    length: nat,
    maximum: nat,
    so_far: Seq<u8>,
) -> Result<Seq<u8>, MigrationError>
    decreases
            (if length > so_far.len() {
                length - so_far.len()
            } else {
                0
            }),
{
    if so_far.len() >= length {
        if so_far.len() == length {
            Ok(so_far)
        } else {
            Err(MigrationError::CustodyDiffers)
        }
    } else {
        match store.read_outcome(id, so_far.len() as u64) {
            Err(e) => Err(MigrationError::Evidence(e)),
            Ok(part) => if part.len() == 0 || part.len() > maximum - so_far.len() {
                Err(MigrationError::CustodyDiffers)
            } else {
                collected(store, id, length, maximum, so_far + part)
            },
        }
    }
}

/// All bytes of a complete payload of at most a length.
pub open spec fn custody_bytes(store: EvidenceStore, id: Seq<char>, maximum: nat) -> Result<
    Seq<u8>,
    MigrationError,
> {
    if !is_hex(id) {
        Err(MigrationError::IdentityBounds)
    } else {
        match store.row_of(id) {
            None => Err(MigrationError::Evidence(EvidenceError::Unknown)),
            Some(i) => if !store.rows@[i].complete || store.rows@[i].length > maximum {
                Err(MigrationError::CustodyDiffers)
            } else {
                collected(store, id, store.rows@[i].length as nat, maximum, Seq::empty())
            },
        }
    }
}

/// Whether a text is made of sixty-four hexadecimal digits.
pub(crate) fn has_hex(s: &str) -> (r: bool)
    ensures
        r == is_hex(s@),
{
    if s.unicode_len() != 64 {
        return false;
    }
    let mut i: usize = 0;
    while i < 64
        invariant
            i <= 64,
            s@.len() == 64,
            forall|k: int| 0 <= k < i ==> file_content::hex_value(#[trigger] s@[k]) is Some,
        decreases 64 - i,
    {
        let c: char = s.get_char(i);
        let hex: bool = ('0' <= c && c <= '9') || ('a' <= c && c <= 'f') || ('A' <= c && c <= 'F');
        if !hex {
            assert(file_content::hex_value(s@[i as int]) is None);
            return false;
        }
        i += 1;
    }
    true
}

/// All bytes of a complete payload of at most a length.
pub fn custody(store: &EvidenceStore, id: &str, maximum: usize) -> (r: Result<
    Vec<u8>,
    MigrationError,
>)
    ensures
        match custody_bytes(*store, id@, maximum as nat) {
            Ok(bytes) => r matches Ok(v) && v@ == bytes,
            Err(e) => r == Err::<Vec<u8>, MigrationError>(e),
        },
{
    if !has_hex(id) {
        return Err(MigrationError::IdentityBounds);
    }
    let state: EvidenceState = match store.state(id) {
        Err(e) => return Err(MigrationError::Evidence(e)),
        Ok(state) => state,
    };
    if !state.complete || state.length > maximum as u64 {
        return Err(MigrationError::CustodyDiffers);
    }
    let length: u64 = state.length;
    let mut bytes: Vec<u8> = Vec::new();
    assert(bytes@ =~= Seq::empty());
    while (bytes.len() as u64) < length
        invariant
            bytes@.len() <= maximum,
            length <= maximum,
            collected(*store, id@, length as nat, maximum as nat, bytes@) == collected(
                *store,
                id@,
                length as nat,
                maximum as nat,
                Seq::empty(),
            ),
            is_hex(id@),
            store.row_of(id@) matches Some(i) && store.rows@[i].complete && store.rows@[i].length
                == length,
        decreases
                (if length > bytes@.len() {
                    length - bytes@.len()
                } else {
                    0
                }),
    {
        match store.read(id, bytes.len() as u64) {
            Err(e) => return Err(MigrationError::Evidence(e)),
            Ok(part) => {
                if part.len() == 0 || part.len() > maximum - bytes.len() {
                    return Err(MigrationError::CustodyDiffers);
                }
                append_bytes(&mut bytes, part.as_slice());
            },
        }
    }
    if bytes.len() as u64 != length {
        return Err(MigrationError::CustodyDiffers);
    }
    Ok(bytes)
}

/// Retained bytes that have the length and the digest that they have to have.
pub open spec fn payload_bytes(store: EvidenceStore, p: Payload, maximum: nat) -> Result<
    Seq<u8>,
    MigrationError,
> {
    match custody_bytes(store, p.evidence@, maximum) {
        Err(e) => Err(e),
        Ok(bytes) => if bytes.len() != p.length || outside::blake3_hex(bytes) != p.blake3@ {
            Err(MigrationError::DigestDiffers)
        } else {
            Ok(bytes)
        },
    }
}

/// Retained bytes that have the length and the digest that they have to have.
pub fn payload(store: &EvidenceStore, p: &Payload, maximum: usize) -> (r: Result<
    Vec<u8>,
    MigrationError,
>)
    ensures
        match payload_bytes(*store, *p, maximum as nat) {
            Ok(bytes) => r matches Ok(v) && v@ == bytes,
            Err(e) => r == Err::<Vec<u8>, MigrationError>(e),
        },
{
    match custody(store, p.evidence.as_str(), maximum) {
        Err(e) => Err(e),
        Ok(bytes) => {
            if bytes.len() as u64 != p.length || !same(
                blake3_digest(bytes.as_slice()).as_str(),
                p.blake3.as_str(),
            ) {
                Err(MigrationError::DigestDiffers)
            } else {
                Ok(bytes)
            }
        },
    }
}

pub open spec fn pinned(
    revision: Seq<char>,
    source_id: Seq<char>,
    origin: Origin,
    hash: Seq<char>,
) -> spec_fn(SupplementPin) -> bool {
    |p: SupplementPin|
        p.revision@ == revision && p.source_id@ == source_id && p.origin@
            == file_history::origin_name(origin) && p.proof_blake3@ == hash
}

/// The pin of a supplement, where there is exactly one.
pub open spec fn only_pin(
    pins: Seq<SupplementPin>,
    revision: Seq<char>,
    source_id: Seq<char>,
    origin: Origin,
    hash: Seq<char>,
) -> Option<int> {
    let found = support::positions(pins, pinned(revision, source_id, origin, hash), pins.len());
    if found.len() == 1 {
        Some(found[0])
    } else {
        None
    }
}

fn find_only_pin(
    pins: &Vec<SupplementPin>,
    revision: &str,
    source_id: &str,
    origin: Origin,
    hash: &str,
) -> (r: Option<usize>)
    ensures
        match r {
            Some(i) => i < pins@.len() && only_pin(pins@, revision@, source_id@, origin, hash@)
                == Some(i as int),
            None => only_pin(pins@, revision@, source_id@, origin, hash@) is None,
        },
{
    let ghost p = pinned(revision@, source_id@, origin, hash@);
    let mut found: Vec<usize> = Vec::new();
    let mut i: usize = 0;
    assert(support::ints(found@) =~= Seq::<int>::empty());
    while i < pins.len()
        invariant
            i <= pins@.len(),
            p == pinned(revision@, source_id@, origin, hash@),
            support::ints(found@) == support::positions(pins@, p, i as nat),
            forall|k: int| 0 <= k < found@.len() ==> (#[trigger] found@[k]) < pins@.len(),
        decreases pins@.len() - i,
    {
        let ghost before = found@;
        if same(pins[i].revision.as_str(), revision) && same(pins[i].source_id.as_str(), source_id)
            && same(pins[i].origin.as_str(), origin.name()) && same(
            pins[i].proof_blake3.as_str(),
            hash,
        ) {
            found.push(i);
            assert(support::ints(found@) =~= support::ints(before).push(i as int));
        }
        i += 1;
    }
    assert(support::ints(found@).len() == found@.len());
    if found.len() == 1 {
        assert(support::ints(found@)[0] == found@[0] as int);
        Some(found[0])
    } else {
        None
    }
}

/// The declared bytes of the first `n` packets of a supplement.
pub open spec fn packets_declared(packets: Seq<SupplementPacket>, n: nat) -> nat
    decreases n,
{
    if n == 0 {
        0
    } else {
        packets_declared(packets, (n - 1) as nat) + packets[n - 1].payload.length as nat
    }
}

/// The declared bytes of the first `n` inputs of a supplement.
pub open spec fn inputs_declared(inputs: Seq<SupplementInput>, n: nat) -> nat
    decreases n,
{
    if n == 0 {
        0
    } else {
        inputs_declared(inputs, (n - 1) as nat) + inputs[n - 1].payload.length as nat
    }
}

/// A supplement declares too much to be interpreted.
pub open spec fn too_large(proof: SupplementalProof) -> bool {
    ||| packets_declared(proof.packets@, proof.packets@.len()) > PAYLOAD
    ||| inputs_declared(proof.parse_inputs@, proof.parse_inputs@.len()) > PAYLOAD
    ||| exists|i: int|
        0 <= i < proof.packets@.len() && (#[trigger] proof.packets@[i]).payload.length > PACKET
    ||| exists|i: int|
        0 <= i < proof.parse_inputs@.len() && (#[trigger] proof.parse_inputs@[i]).payload.length
            > PACKET
}

/// What a supplement declares can be counted.
pub open spec fn adds_up(proof: SupplementalProof) -> bool {
    packets_declared(proof.packets@, proof.packets@.len()) <= u64::MAX && inputs_declared(
        proof.parse_inputs@,
        proof.parse_inputs@.len(),
    ) <= u64::MAX
}

fn is_adding_up(proof: &SupplementalProof) -> (r: bool)
    requires
        proof.packets@.len() <= COUNT,
        proof.parse_inputs@.len() <= COUNT,
    ensures
        r == adds_up(*proof),
{
    let mut raw: u128 = 0;
    let mut i: usize = 0;
    while i < proof.packets.len()
        invariant
            i <= proof.packets@.len() <= COUNT,
            raw <= i * u64::MAX,
            raw == packets_declared(proof.packets@, i as nat),
        decreases proof.packets@.len() - i,
    {
        raw = raw + proof.packets[i].payload.length as u128;
        i += 1;
    }
    let mut decoded: u128 = 0;
    let mut k: usize = 0;
    while k < proof.parse_inputs.len()
        invariant
            k <= proof.parse_inputs@.len() <= COUNT,
            decoded <= k * u64::MAX,
            decoded == inputs_declared(proof.parse_inputs@, k as nat),
        decreases proof.parse_inputs@.len() - k,
    {
        decoded = decoded + proof.parse_inputs[k].payload.length as u128;
        k += 1;
    }
    raw <= u64::MAX as u128 && decoded <= u64::MAX as u128
}

fn is_too_large(proof: &SupplementalProof) -> (r: bool)
    requires
        proof.packets@.len() <= COUNT,
        proof.parse_inputs@.len() <= COUNT,
    ensures
        r == too_large(*proof),
{
    let mut raw: u64 = 0;
    let mut i: usize = 0;
    while i < proof.packets.len()
        invariant
            i <= proof.packets@.len() <= COUNT,
            raw <= i * PACKET,
            raw == packets_declared(proof.packets@, i as nat),
            forall|k: int|
                0 <= k < i ==> (#[trigger] proof.packets@[k]).payload.length <= PACKET,
        decreases proof.packets@.len() - i,
    {
        let length: u64 = proof.packets[i].payload.length;
        if length > PACKET as u64 {
            assert(proof.packets@[i as int].payload.length > PACKET);
            return true;
        }
        raw = raw + length;
        i += 1;
    }
    let mut decoded: u64 = 0;
    let mut k: usize = 0;
    while k < proof.parse_inputs.len()
        invariant
            k <= proof.parse_inputs@.len() <= COUNT,
            decoded <= k * PACKET,
            decoded == inputs_declared(proof.parse_inputs@, k as nat),
            forall|j: int|
                0 <= j < k ==> (#[trigger] proof.parse_inputs@[j]).payload.length <= PACKET,
        decreases proof.parse_inputs@.len() - k,
    {
        let length: u64 = proof.parse_inputs[k].payload.length;
        if length > PACKET as u64 {
            assert(proof.parse_inputs@[k as int].payload.length > PACKET);
            return true;
        }
        decoded = decoded + length;
        k += 1;
    }
    raw > PAYLOAD as u64 || decoded > PAYLOAD as u64
}

/// The first `n` packets of a supplement.
pub open spec fn packets_supplied(
    store: EvidenceStore,
    packets: Seq<SupplementPacket>,
    length: u64,
    n: nat,
) -> Result<Seq<file_history::RawPacketModel>, MigrationError>
    decreases n,
{
    if n == 0 {
        Ok(Seq::empty())
    } else {
        match packets_supplied(store, packets, length, (n - 1) as nat) {
            Err(e) => Err(e),
            Ok(before) => {
                let p = packets[n - 1];
                if !file_history::ranges_fit(p.ranges@, length) {
                    Err(MigrationError::RangeBounds)
                } else {
                    match payload_bytes(store, p.payload, PACKET as nat) {
                        Err(e) => Err(e),
                        Ok(bytes) => Ok(
                            before.push(
                                file_history::RawPacketModel {
                                    container: p.container@,
                                    bytes,
                                    blake3: p.payload.blake3@,
                                    ranges: p.ranges@,
                                    group: p.group@,
                                    attributes: p.attributes@,
                                },
                            ),
                        ),
                    }
                }
            },
        }
    }
}

/// The first `n` inputs of a supplement.
pub open spec fn inputs_supplied(
    store: EvidenceStore,
    inputs: Seq<SupplementInput>,
    packets: nat,
    n: nat,
) -> Result<Seq<file_history::RawInputModel>, MigrationError>
    decreases n,
{
    if n == 0 {
        Ok(Seq::empty())
    } else {
        match inputs_supplied(store, inputs, packets, (n - 1) as nat) {
            Err(e) => Err(e),
            Ok(before) => {
                let p = inputs[n - 1];
                if !file_history::indices_fit(p.packet_indices@, packets) {
                    Err(MigrationError::IndexBounds)
                } else {
                    match payload_bytes(store, p.payload, PACKET as nat) {
                        Err(e) => Err(e),
                        Ok(bytes) => Ok(
                            before.push(
                                file_history::RawInputModel {
                                    bytes,
                                    blake3: p.payload.blake3@,
                                    packet_indices: p.packet_indices@,
                                    transformation: p.transformation@,
                                    group: p.group@,
                                },
                            ),
                        ),
                    }
                }
            },
        }
    }
}

proof fn lemma_packets_error(
    store: EvidenceStore,
    packets: Seq<SupplementPacket>,
    length: u64,
    n: nat,
)
    requires
        n <= packets.len(),
        packets_supplied(store, packets, length, n) is Err,
    ensures
        packets_supplied(store, packets, length, packets.len()) == packets_supplied(
            store,
            packets,
            length,
            n,
        ),
    decreases packets.len() - n,
{
    if n < packets.len() {
        lemma_packets_error(store, packets, length, n + 1);
    }
}

proof fn lemma_inputs_error(store: EvidenceStore, inputs: Seq<SupplementInput>, packets: nat, n: nat)
    requires
        n <= inputs.len(),
        inputs_supplied(store, inputs, packets, n) is Err,
    ensures
        inputs_supplied(store, inputs, packets, inputs.len()) == inputs_supplied(
            store,
            inputs,
            packets,
            n,
        ),
    decreases inputs.len() - n,
{
    if n < inputs.len() {
        lemma_inputs_error(store, inputs, packets, n + 1);
    }
}

fn supply_packets(store: &EvidenceStore, packets: &Vec<SupplementPacket>, revision: &SourceRevision) -> (r:
    Result<Vec<RawPacket>, MigrationError>)
    ensures
        match packets_supplied(*store, packets@, revision.length, packets@.len()) {
            Err(e) => r == Err::<Vec<RawPacket>, MigrationError>(e),
            Ok(found) => r matches Ok(v) && support::models(v@) == found,
        },
{
    let mut found: Vec<RawPacket> = Vec::new();
    let mut n: usize = 0;
    assert(support::models(found@) =~= Seq::<file_history::RawPacketModel>::empty());
    while n < packets.len()
        invariant
            n <= packets@.len(),
            packets_supplied(*store, packets@, revision.length, n as nat) == Ok::<
                Seq<file_history::RawPacketModel>,
                MigrationError,
            >(support::models(found@)),
        decreases packets@.len() - n,
    {
        let p = &packets[n];
        let ghost before = support::models(found@);
        if !ranges(&p.ranges, revision) {
            proof {
                lemma_packets_error(*store, packets@, revision.length, (n + 1) as nat);
            }
            return Err(MigrationError::RangeBounds);
        }
        match payload(store, &p.payload, PACKET) {
            Err(e) => {
                proof {
                    lemma_packets_error(*store, packets@, revision.length, (n + 1) as nat);
                }
                return Err(e);
            },
            Ok(bytes) => {
                let packet: RawPacket = RawPacket {
                    container: p.container.clone(),
                    bytes,
                    blake3: p.payload.blake3.clone(),
                    ranges: file_history::copy_ranges(&p.ranges),
                    group: p.group.clone(),
                    attributes: p.attributes.clone(),
                };
                found.push(packet);
                assert(support::models(found@) =~= before.push(packet@));
            },
        }
        n += 1;
    }
    Ok(found)
}

fn supply_inputs(store: &EvidenceStore, inputs: &Vec<SupplementInput>, packets: usize) -> (r: Result<
    Vec<RawInput>,
    MigrationError,
>)
    ensures
        match inputs_supplied(*store, inputs@, packets as nat, inputs@.len()) {
            Err(e) => r == Err::<Vec<RawInput>, MigrationError>(e),
            Ok(found) => r matches Ok(v) && support::models(v@) == found,
        },
{
    let mut found: Vec<RawInput> = Vec::new();
    let mut n: usize = 0;
    assert(support::models(found@) =~= Seq::<file_history::RawInputModel>::empty());
    while n < inputs.len()
        invariant
            n <= inputs@.len(),
            inputs_supplied(*store, inputs@, packets as nat, n as nat) == Ok::<
                Seq<file_history::RawInputModel>,
                MigrationError,
            >(support::models(found@)),
        decreases inputs@.len() - n,
    {
        let p = &inputs[n];
        let ghost before = support::models(found@);
        if !indices(&p.packet_indices, packets) {
            proof {
                lemma_inputs_error(*store, inputs@, packets as nat, (n + 1) as nat);
            }
            return Err(MigrationError::IndexBounds);
        }
        match payload(store, &p.payload, PACKET) {
            Err(e) => {
                proof {
                    lemma_inputs_error(*store, inputs@, packets as nat, (n + 1) as nat);
                }
                return Err(e);
            },
            Ok(bytes) => {
                let input: RawInput = RawInput {
                    bytes,
                    blake3: p.payload.blake3.clone(),
                    packet_indices: file_history::copy_indices(&p.packet_indices),
                    transformation: p.transformation.clone(),
                    group: p.group.clone(),
                };
                found.push(input);
                assert(support::models(found@) =~= before.push(input@));
            },
        }
        n += 1;
    }
    Ok(found)
}

/// A supplement is about what its pin says, and its pin about what was observed.
pub open spec fn about(
    proof: SupplementalProof,
    pin: SupplementPin,
    observed: Option<Observation>,
) -> bool {
    &&& proof.protocol == 1
    &&& proof.revision@ == pin.revision@
    &&& proof.source_id@ == pin.source_id@
    &&& proof.origin@ == pin.origin@
    &&& proof.source_revision@ == pin.source_revision@
    &&& proof.historical_status == pin.historical_status
    &&& observed matches Some(o) && o.status == Some(pin.historical_status) && (
    o.revision matches Some(r) && r@ == pin.source_revision@)
}

fn is_about(proof: &SupplementalProof, pin: &SupplementPin, observed: Option<&Observation>) -> (r: bool)
    ensures
        r == about(
            *proof,
            *pin,
            (match observed {
                Some(o) => Some(*o),
                None => None,
            }),
        ),
{
    proof.protocol == 1 && same(proof.revision.as_str(), pin.revision.as_str()) && same(
        proof.source_id.as_str(),
        pin.source_id.as_str(),
    ) && same(proof.origin.as_str(), pin.origin.as_str()) && proof.source_revision.same_as(
        &pin.source_revision,
    ) && proof.historical_status == pin.historical_status && match observed {
        None => false,
        Some(o) => {
            let status: bool = match o.status {
                Some(s) => s == pin.historical_status,
                None => false,
            };
            let revision: bool = match &o.revision {
                Some(r) => r.same_as(&pin.source_revision),
                None => false,
            };
            status && revision
        },
    }
}

/// What a supplement gives: the digest of its document, the digest of its meaning,
/// and what it found, where that can be interpreted.
pub open spec fn supplied(
    store: EvidenceStore,
    pins: Seq<SupplementPin>,
    f: FileScope,
    id: Seq<char>,
    given: Option<Supplement>,
    observed: Option<Observation>,
) -> Result<(Seq<char>, Seq<char>, Option<file_history::RawInspectionModel>), MigrationError> {
    if f.origin != Origin::Embedded {
        Err(MigrationError::SupplementOrigin)
    } else {
        match custody_bytes(store, id, META as nat) {
            Err(e) => Err(e),
            Ok(document) => {
                let hash = outside::blake3_hex(document);
                match only_pin(pins, f.revision, f.source_id, f.origin, hash) {
                    None => Err(MigrationError::SupplementUnpinned),
                    Some(k) => match given {
                        None => Err(MigrationError::SupplementUnread),
                        Some(s) => if !about(s.proof, pins[k], observed) {
                            Err(MigrationError::SupplementDiffers)
                        } else if s.proof.packets@.len() > COUNT || s.proof.parse_inputs@.len()
                            > COUNT {
                            Err(MigrationError::RosterDiffers)
                        } else {
                            match payload_bytes(store, s.proof.validation_document, META as nat) {
                                Err(e) => Err(e),
                                Ok(_) => if s.semantic@.len() > META {
                                    Err(MigrationError::DocumentBounds)
                                } else {
                                    let meaning = outside::blake3_hex(s.semantic@);
                                    if !adds_up(s.proof) {
                                        Err(MigrationError::Overflow)
                                    } else if s.proof.status != Status::Complete || too_large(s.proof) {
                                        Ok((hash, meaning, None))
                                    } else {
                                        match supplied_rows(store, s.proof) {
                                            Err(e) => Err(e),
                                            Ok(found) => Ok((hash, meaning, Some(found))),
                                        }
                                    }
                                },
                            }
                        },
                    },
                }
            },
        }
    }
}

/// What a supplement found.
pub open spec fn supplied_rows(store: EvidenceStore, proof: SupplementalProof) -> Result<
    file_history::RawInspectionModel,
    MigrationError,
> {
    match packets_supplied(
        store,
        proof.packets@,
        proof.source_revision.length,
        proof.packets@.len(),
    ) {
        Err(e) => Err(e),
        Ok(packets) => match inputs_supplied(
            store,
            proof.parse_inputs@,
            proof.packets@.len(),
            proof.parse_inputs@.len(),
        ) {
            Err(e) => Err(e),
            Ok(parse_inputs) => Ok(
                file_history::RawInspectionModel {
                    revision: proof.source_revision@,
                    issues: proof.issues@,
                    packets,
                    parse_inputs,
                },
            ),
        },
    }
}

pub(crate) fn supply(
    store: &EvidenceStore,
    pins: &Vec<SupplementPin>,
    revision: &str,
    source_id: &str,
    o: Origin,
    id: &str,
    given: Option<&Supplement>,
    observed: Option<&Observation>,
    Ghost(f): Ghost<FileScope>,
) -> (out: Result<(String, String, Option<RawInspection>), MigrationError>)
    requires
        f.revision == revision@,
        f.source_id == source_id@,
        f.origin == o,
    ensures
        match supplied(
            *store,
            pins@,
            f,
            id@,
            (match given {
                Some(s) => Some(*s),
                None => None,
            }),
            (match observed {
                Some(v) => Some(*v),
                None => None,
            }),
        ) {
            Err(e) => out == Err::<(String, String, Option<RawInspection>), MigrationError>(e),
            Ok((hash, meaning, found)) => out matches Ok((h, m, i)) && h@ == hash && m@ == meaning
                && inspection_of(i) == found,
        },
{
    if o != Origin::Embedded {
        return Err(MigrationError::SupplementOrigin);
    }
    let document: Vec<u8> = match custody(store, id, META) {
        Err(e) => return Err(e),
        Ok(document) => document,
    };
    let hash: String = blake3_digest(document.as_slice());
    let k: usize = match find_only_pin(pins, revision, source_id, o, hash.as_str()) {
        None => return Err(MigrationError::SupplementUnpinned),
        Some(k) => k,
    };
    let s: &Supplement = match given {
        None => return Err(MigrationError::SupplementUnread),
        Some(s) => s,
    };
    let proof_document = &s.proof;
    if !is_about(proof_document, &pins[k], observed) {
        return Err(MigrationError::SupplementDiffers);
    }
    if proof_document.packets.len() > COUNT || proof_document.parse_inputs.len() > COUNT {
        return Err(MigrationError::RosterDiffers);
    }
    match payload(store, &proof_document.validation_document, META) {
        Err(e) => return Err(e),
        Ok(_) => {},
    }
    if s.semantic.len() > META {
        return Err(MigrationError::DocumentBounds);
    }
    let meaning: String = blake3_digest(s.semantic.as_slice());
    if !is_adding_up(proof_document) {
        return Err(MigrationError::Overflow);
    }
    if proof_document.status != Status::Complete || is_too_large(proof_document) {
        return Ok((hash, meaning, None));
    }
    let packets: Vec<RawPacket> = match supply_packets(
        store,
        &proof_document.packets,
        &proof_document.source_revision,
    ) {
        Err(e) => return Err(e),
        Ok(packets) => packets,
    };
    match supply_inputs(store, &proof_document.parse_inputs, proof_document.packets.len()) {
        Err(e) => Err(e),
        Ok(parse_inputs) => Ok(
            (
                hash,
                meaning,
                Some(
                    RawInspection {
                        revision: proof_document.source_revision.copied(),
                        issues: proof_document.issues.clone(),
                        packets,
                        parse_inputs,
                    },
                ),
            ),
        ),
    }
}

/// What an optional inspection stands for.
pub open spec fn inspection_of(i: Option<RawInspection>) -> Option<
    file_history::RawInspectionModel,
> {
    match i {
        Some(v) => Some(v@),
        None => None,
    }
}

} // verus!

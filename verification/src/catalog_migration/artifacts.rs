//! Custody of captured files, byte for byte. Only a complete, selected capture can
//! say what its files are. Where they came from is never opened: the copy that is
//! read has an identity of its own, is digested in full once when it is opened, and
//! is then taken in chunk by chunk.
use crate::catalog::Catalog;
use crate::catalog_metadata::edit;
use crate::catalog_metadata::edit::{append_number, append_signed, append_wide};
use crate::catalog_migration::evidence;
use crate::catalog_migration::evidence::{EvidenceError, EvidenceState, PreparedChunk, CHUNK_BYTES};
use crate::catalog_migration::file_content;
use crate::catalog_migration::file_content::make_path_document;
use crate::catalog_migration::file_history::same_path;
use crate::catalog_migration::file_metadata::{FileMetadata, FilesModel, SelectedCapture};
use crate::catalog_migration::retained;
use crate::catalog_migration::retained::{
    Collection, Detail, MigrationError, NativePath, Retained, RetainedModel,
};
use crate::copies::Copied;
use crate::outside;
use crate::outside::{blake3_digest, hasher_digest, hasher_new, hasher_update, json_string};
use crate::support;
use crate::support::{append_bytes, byte_len, copy_bytes, same, same_bytes};
use vstd::prelude::*;
use vstd::string::*;
use vstd::utf8::*;

verus! {

/// The most bytes of a descriptor's document.
pub const DESCRIPTOR_LIMIT: usize = 65536;

/// The bytes of a payload's identity.
pub const IDENTITY_BYTES: usize = 64;

/// The most bytes of a manifest.
pub const MANIFEST_BYTES: usize = 8388608;

/// The most units of a path.
pub const PATH_UNITS: usize = 32768;

/// The most names in a path.
pub const PATH_PARTS: usize = 256;

/// The most objects that a copy may not be.
pub const PROTECTED_LIMIT: usize = 4096;

/// The bytes that are digested at a time.
pub const READ_BYTES: u64 = 131072;

/// Why custody is refused.
#[derive(Clone, Copy, Debug, PartialEq, Eq, Structural)]
pub enum ArtifactError {
    /// The admitted bytes are none or too many.
    ByteLimit,
    /// A deadline is out of bounds.
    DeadlineBounds,
    /// A chunk is none or too large.
    ChunkBound,
    /// Custody was stopped.
    Stopped,
    /// There are too many protected objects.
    ProtectedLimit,
    /// A descriptor is too large or cannot be written.
    DescriptorBounds,
    /// A descriptor's protocol or member is out of bounds.
    MemberBounds,
    /// The copy is longer or shorter than what was captured.
    LengthDiffers,
    /// A digest is not in lowercase hexadecimal.
    DigestShape,
    /// The copy is larger than what is admitted.
    TooLarge,
    /// A path is empty or too long.
    PathLength,
    /// A path is of another platform.
    PathForeign,
    /// A path is not an absolute root with plain names below it.
    PathShape,
    /// There is no allowance left.
    AllowanceDenied,
    /// The copy is another file than the one that was sealed.
    IdentityDiffers,
    /// The copy is a protected object.
    Aliased,
    /// The copy does not hold what was captured.
    ContentDiffers,
    /// The copy changed while it was read.
    Invalidated,
    /// An offset is beyond the copy's end.
    OffsetBounds,
    /// Other bytes were read than were asked for.
    ChunkLength,
    /// The retained record is no capture.
    AuthorityKind,
    /// What is retained cannot be read.
    Retained(MigrationError),
    /// A manifest is too large.
    ManifestBounds,
    /// A manifest is not of its capture.
    ManifestDiffers,
    /// The capture was not selected.
    CaptureExcluded,
    /// The manifest is another one than the selected.
    ManifestDigest,
    /// The manifest has no such member.
    MemberUnknown,
    /// The member is in custody with another copy or another origin.
    CustodyDiffers,
    /// The identity of a payload in custody is none that a payload can have.
    EvidenceShape,
    /// Custody of the member has not begun.
    CustodyMissing,
    /// The catalog says something else of the member than the reader.
    AuthorityDiffers,
    /// The retained evidence refuses.
    Evidence(EvidenceError),
}

/// What tells a file from every other, and one state of it from another.
#[derive(Clone, Debug)]
pub struct FileIdentity {
    pub object: String,
    pub bytes: u64,
    pub modified_ns: Option<u128>,
    pub changed: String,
}

/// What a `FileIdentity` stands for.
#[verifier::ext_equal]
pub struct FileIdentityModel {
    pub object: Seq<char>,
    pub bytes: u64,
    pub modified_ns: Option<u128>,
    pub changed: Seq<char>,
}

impl View for FileIdentity {
    type V = FileIdentityModel;

    open spec fn view(&self) -> FileIdentityModel {
        FileIdentityModel {
            object: self.object@,
            bytes: self.bytes,
            modified_ns: self.modified_ns,
            changed: self.changed@,
        }
    }
}

/// A file that a capture is made of.
#[derive(Clone, Debug)]
pub struct Artifact {
    pub source: NativePath,
    pub role: String,
    pub relative: NativePath,
    pub stored: String,
    pub revision: FileIdentity,
    pub blake3: String,
}

/// What an `Artifact` stands for.
#[verifier::ext_equal]
pub struct ArtifactModel {
    pub source: retained::PathModel,
    pub role: Seq<char>,
    pub relative: retained::PathModel,
    pub stored: Seq<char>,
    pub revision: FileIdentityModel,
    pub blake3: Seq<char>,
}

impl View for Artifact {
    type V = ArtifactModel;

    open spec fn view(&self) -> ArtifactModel {
        ArtifactModel {
            source: self.source@,
            role: self.role@,
            relative: self.relative@,
            stored: self.stored@,
            revision: self.revision@,
            blake3: self.blake3@,
        }
    }
}

/// Where the copy of a captured file is, and what it is. The copy is another file than the one that was captured.
#[derive(Clone, Debug)]
pub struct ArtifactMapping {
    pub root: NativePath,
    pub relative: NativePath,
    pub copy_identity: FileIdentity,
}

/// What an `ArtifactMapping` stands for.
#[verifier::ext_equal]
pub struct ArtifactMappingModel {
    pub root: retained::PathModel,
    pub relative: retained::PathModel,
    pub copy_identity: FileIdentityModel,
}

impl View for ArtifactMapping {
    type V = ArtifactMappingModel;

    open spec fn view(&self) -> ArtifactMappingModel {
        ArtifactMappingModel {
            root: self.root@,
            relative: self.relative@,
            copy_identity: self.copy_identity@,
        }
    }
}

/// A request to take a captured file into custody.
#[derive(Clone, Debug)]
pub struct ArtifactRequest {
    pub retained_capture_record: i64,
    pub member_index: usize,
    pub mapping: ArtifactMapping,
}

/// What an `ArtifactRequest` stands for.
#[verifier::ext_equal]
pub struct ArtifactRequestModel {
    pub retained_capture_record: i64,
    pub member_index: usize,
    pub mapping: ArtifactMappingModel,
}

impl View for ArtifactRequest {
    type V = ArtifactRequestModel;

    open spec fn view(&self) -> ArtifactRequestModel {
        ArtifactRequestModel {
            retained_capture_record: self.retained_capture_record,
            member_index: self.member_index,
            mapping: self.mapping@,
        }
    }
}

/// What a payload in custody is the copy of.
#[derive(Clone, Debug)]
pub struct ArtifactDescriptor {
    pub protocol: u32,
    pub request: ArtifactRequest,
    pub selected_input: String,
    pub capture_revision: String,
    pub manifest_blake3: String,
    pub artifact: Artifact,
}

/// What an `ArtifactDescriptor` stands for.
#[verifier::ext_equal]
pub struct ArtifactDescriptorModel {
    pub protocol: u32,
    pub request: ArtifactRequestModel,
    pub selected_input: Seq<char>,
    pub capture_revision: Seq<char>,
    pub manifest_blake3: Seq<char>,
    pub artifact: ArtifactModel,
}

impl View for ArtifactDescriptor {
    type V = ArtifactDescriptorModel;

    open spec fn view(&self) -> ArtifactDescriptorModel {
        ArtifactDescriptorModel {
            protocol: self.protocol,
            request: self.request@,
            selected_input: self.selected_input@,
            capture_revision: self.capture_revision@,
            manifest_blake3: self.manifest_blake3@,
            artifact: self.artifact@,
        }
    }
}

/// A payload that was taken into custody.
#[derive(Clone, Debug)]
pub struct ArtifactRow {
    pub retained_capture_record: i64,
    pub member_index: usize,
    pub descriptor: ArtifactDescriptor,
    pub encoded: Vec<u8>,
    pub evidence: String,
}

/// What an `ArtifactRow` stands for.
#[verifier::ext_equal]
pub struct CustodyModel {
    pub retained_capture_record: i64,
    pub member_index: usize,
    pub descriptor: ArtifactDescriptorModel,
    pub encoded: Seq<u8>,
    pub evidence: Seq<char>,
}

impl View for ArtifactRow {
    type V = CustodyModel;

    open spec fn view(&self) -> CustodyModel {
        CustodyModel {
            retained_capture_record: self.retained_capture_record,
            member_index: self.member_index,
            descriptor: self.descriptor@,
            encoded: self.encoded@,
            evidence: self.evidence@,
        }
    }
}

impl Copied for FileIdentity {
    fn copied(&self) -> (c: Self) {
        FileIdentity {
            object: self.object.clone(),
            bytes: self.bytes,
            modified_ns: self.modified_ns,
            changed: self.changed.clone(),
        }
    }
}

impl Copied for Artifact {
    fn copied(&self) -> (c: Self) {
        Artifact {
            source: self.source.copied(),
            role: self.role.clone(),
            relative: self.relative.copied(),
            stored: self.stored.clone(),
            revision: self.revision.copied(),
            blake3: self.blake3.clone(),
        }
    }
}

impl Copied for ArtifactMapping {
    fn copied(&self) -> (c: Self) {
        ArtifactMapping {
            root: self.root.copied(),
            relative: self.relative.copied(),
            copy_identity: self.copy_identity.copied(),
        }
    }
}

impl Copied for ArtifactRequest {
    fn copied(&self) -> (c: Self) {
        ArtifactRequest {
            retained_capture_record: self.retained_capture_record,
            member_index: self.member_index,
            mapping: self.mapping.copied(),
        }
    }
}

impl Copied for ArtifactDescriptor {
    fn copied(&self) -> (c: Self) {
        ArtifactDescriptor {
            protocol: self.protocol,
            request: self.request.copied(),
            selected_input: self.selected_input.clone(),
            capture_revision: self.capture_revision.clone(),
            manifest_blake3: self.manifest_blake3.clone(),
            artifact: self.artifact.copied(),
        }
    }
}

/// What a capture is made of.
#[derive(Clone, Debug)]
pub struct Manifest {
    pub protocol: u32,
    pub state: String,
    pub revision_id: Option<String>,
    pub artifacts: Vec<Artifact>,
}

/// What a capture's record says: its manifest, and the digest of its files.
#[derive(Clone, Debug)]
pub struct CaptureDetail {
    pub manifest: Manifest,
    pub artifacts_blake3: String,
}

/// What a copy is looked for by before a selection is sealed.
#[derive(Clone, Debug)]
pub struct MappingPreparation {
    pub capture_revision: String,
    pub manifest_blake3: String,
    pub member_index: usize,
    pub root: NativePath,
    pub relative: NativePath,
}

/// What custody may take up.
#[derive(Clone, Copy, Debug)]
pub struct ArtifactLimits {
    pub maximum_bytes: u64,
    pub open_deadline_ms: u64,
    pub chunk_deadline_ms: u64,
    pub chunk_bytes: usize,
}

impl ArtifactLimits {
    /// Why the limits are refused.
    pub open spec fn refusal(self) -> Option<ArtifactError> {
        if !(0 < self.maximum_bytes <= i64::MAX) {
            Some(ArtifactError::ByteLimit)
        } else if !(1 <= self.open_deadline_ms <= 3_600_000) || !(1 <= self.chunk_deadline_ms
            <= 120_000) {
            Some(ArtifactError::DeadlineBounds)
        } else if !(1 <= self.chunk_bytes <= CHUNK_BYTES) {
            Some(ArtifactError::ChunkBound)
        } else {
            None
        }
    }

    /// Whether the limits are in bounds.
    pub fn validate(self) -> (r: Result<(), ArtifactError>)
        ensures
            match self.refusal() {
                None => r is Ok,
                Some(e) => r == Err::<(), ArtifactError>(e),
            },
    {
        if self.maximum_bytes == 0 || self.maximum_bytes > i64::MAX as u64 {
            return Err(ArtifactError::ByteLimit);
        }
        if self.open_deadline_ms == 0 || self.open_deadline_ms > 3_600_000
            || self.chunk_deadline_ms == 0 || self.chunk_deadline_ms > 120_000 {
            return Err(ArtifactError::DeadlineBounds);
        }
        if self.chunk_bytes == 0 || self.chunk_bytes > CHUNK_BYTES {
            return Err(ArtifactError::ChunkBound);
        }
        Ok(())
    }
}

impl FileIdentity {
    /// Whether two identities are the same.
    pub fn same_as(&self, other: &FileIdentity) -> (r: bool)
        ensures
            r == (self@ == other@),
    {
        let modified: bool = match (self.modified_ns, other.modified_ns) {
            (Some(a), Some(b)) => a == b,
            (None, None) => true,
            _ => false,
        };
        self.bytes == other.bytes && modified && same(self.object.as_str(), other.object.as_str())
            && same(self.changed.as_str(), other.changed.as_str())
    }
}

impl ArtifactMapping {
    /// Whether two mappings are the same.
    pub fn same_as(&self, other: &ArtifactMapping) -> (r: bool)
        ensures
            r == (self@ == other@),
    {
        same_path(&self.root, &other.root) && same_path(&self.relative, &other.relative)
            && self.copy_identity.same_as(&other.copy_identity)
    }
}

impl ArtifactRequest {
    /// Whether two requests are the same.
    pub fn same_as(&self, other: &ArtifactRequest) -> (r: bool)
        ensures
            r == (self@ == other@),
    {
        self.retained_capture_record == other.retained_capture_record && self.member_index
            == other.member_index && self.mapping.same_as(&other.mapping)
    }
}

impl Artifact {
    /// Whether two captured files are the same.
    pub fn same_as(&self, other: &Artifact) -> (r: bool)
        ensures
            r == (self@ == other@),
    {
        same_path(&self.source, &other.source) && same(self.role.as_str(), other.role.as_str())
            && same_path(&self.relative, &other.relative) && same(
            self.stored.as_str(),
            other.stored.as_str(),
        ) && self.revision.same_as(&other.revision) && same(
            self.blake3.as_str(),
            other.blake3.as_str(),
        )
    }
}

/// An identity as a document.
pub open spec fn identity_document(i: FileIdentityModel) -> Option<Seq<char>> {
    match (outside::json_text(i.object), outside::json_text(i.changed)) {
        (Some(object), Some(changed)) => Some(
            "{\"object\":"@ + object + ",\"bytes\":"@ + edit::decimal_text(i.bytes as nat)
                + ",\"modified_ns\":"@ + (match i.modified_ns {
                None => "null"@,
                Some(n) => edit::decimal_text(n as nat),
            }) + ",\"changed\":"@ + changed + "}"@,
        ),
        _ => None,
    }
}

fn make_identity_document(i: &FileIdentity) -> (d: Option<String>)
    ensures
        support::text_of(d) == identity_document(i@),
{
    match (json_string(i.object.as_str()), json_string(i.changed.as_str())) {
        (Some(object), Some(changed)) => {
            let mut d: String = "{\"object\":".to_owned();
            d.append(object.as_str());
            d.append(",\"bytes\":");
            append_number(&mut d, i.bytes);
            d.append(",\"modified_ns\":");
            match i.modified_ns {
                None => {
                    d.append("null");
                },
                Some(n) => {
                    append_wide(&mut d, n);
                },
            }
            d.append(",\"changed\":");
            d.append(changed.as_str());
            d.append("}");
            assert(d@ =~= identity_document(i@)->0);
            Some(d)
        },
        _ => None,
    }
}

/// A captured file as a document.
pub open spec fn artifact_document(a: ArtifactModel) -> Option<Seq<char>> {
    match (
        outside::json_text(a.role),
        outside::json_text(a.stored),
        identity_document(a.revision),
        outside::json_text(a.blake3),
    ) {
        (Some(role), Some(stored), Some(revision), Some(blake3)) => Some(
            "{\"source\":"@ + file_content::path_document(a.source) + ",\"role\":"@ + role
                + ",\"relative\":"@ + file_content::path_document(a.relative) + ",\"stored\":"@
                + stored + ",\"revision\":"@ + revision + ",\"blake3\":"@ + blake3 + "}"@,
        ),
        _ => None,
    }
}

fn make_artifact_document(a: &Artifact) -> (d: Option<String>)
    ensures
        support::text_of(d) == artifact_document(a@),
{
    match (
        json_string(a.role.as_str()),
        json_string(a.stored.as_str()),
        make_identity_document(&a.revision),
        json_string(a.blake3.as_str()),
    ) {
        (Some(role), Some(stored), Some(revision), Some(blake3)) => {
            let mut d: String = "{\"source\":".to_owned();
            d.append(make_path_document(&a.source).as_str());
            d.append(",\"role\":");
            d.append(role.as_str());
            d.append(",\"relative\":");
            d.append(make_path_document(&a.relative).as_str());
            d.append(",\"stored\":");
            d.append(stored.as_str());
            d.append(",\"revision\":");
            d.append(revision.as_str());
            d.append(",\"blake3\":");
            d.append(blake3.as_str());
            d.append("}");
            assert(d@ =~= artifact_document(a@)->0);
            Some(d)
        },
        _ => None,
    }
}

/// A mapping as a document.
pub open spec fn mapping_document(m: ArtifactMappingModel) -> Option<Seq<char>> {
    match identity_document(m.copy_identity) {
        None => None,
        Some(identity) => Some(
            "{\"root\":"@ + file_content::path_document(m.root) + ",\"relative\":"@
                + file_content::path_document(m.relative) + ",\"copy_identity\":"@ + identity
                + "}"@,
        ),
    }
}

pub(crate) fn make_mapping_document(m: &ArtifactMapping) -> (d: Option<String>)
    ensures
        support::text_of(d) == mapping_document(m@),
{
    match make_identity_document(&m.copy_identity) {
        None => None,
        Some(identity) => {
            let mut d: String = "{\"root\":".to_owned();
            d.append(make_path_document(&m.root).as_str());
            d.append(",\"relative\":");
            d.append(make_path_document(&m.relative).as_str());
            d.append(",\"copy_identity\":");
            d.append(identity.as_str());
            d.append("}");
            assert(d@ =~= mapping_document(m@)->0);
            Some(d)
        },
    }
}

/// A request as a document.
pub open spec fn request_document(r: ArtifactRequestModel) -> Option<Seq<char>> {
    match mapping_document(r.mapping) {
        None => None,
        Some(mapping) => Some(
            "{\"retained_capture_record\":"@ + edit::signed_text(r.retained_capture_record)
                + ",\"member_index\":"@ + edit::decimal_text(r.member_index as nat)
                + ",\"mapping\":"@ + mapping + "}"@,
        ),
    }
}

fn make_request_document(r: &ArtifactRequest) -> (d: Option<String>)
    ensures
        support::text_of(d) == request_document(r@),
{
    match make_mapping_document(&r.mapping) {
        None => None,
        Some(mapping) => {
            let mut d: String = "{\"retained_capture_record\":".to_owned();
            append_signed(&mut d, r.retained_capture_record);
            d.append(",\"member_index\":");
            append_number(&mut d, r.member_index as u64);
            d.append(",\"mapping\":");
            d.append(mapping.as_str());
            d.append("}");
            assert(d@ =~= request_document(r@)->0);
            Some(d)
        },
    }
}

/// A descriptor as a document.
pub open spec fn descriptor_document(d: ArtifactDescriptorModel) -> Option<Seq<char>> {
    match (
        request_document(d.request),
        outside::json_text(d.selected_input),
        outside::json_text(d.capture_revision),
        outside::json_text(d.manifest_blake3),
        artifact_document(d.artifact),
    ) {
        (Some(request), Some(input), Some(revision), Some(manifest), Some(artifact)) => Some(
            "{\"protocol\":"@ + edit::decimal_text(d.protocol as nat) + ",\"request\":"@ + request
                + ",\"selected_input\":"@ + input + ",\"capture_revision\":"@ + revision
                + ",\"manifest_blake3\":"@ + manifest + ",\"artifact\":"@ + artifact + "}"@,
        ),
        _ => None,
    }
}

/// The bytes that a descriptor is kept as.
#[verifier::opaque]
pub open spec fn encoded_descriptor(d: ArtifactDescriptorModel) -> Result<
    Seq<u8>,
    ArtifactError,
> {
    match descriptor_document(d) {
        None => Err(ArtifactError::DescriptorBounds),
        Some(document) => if encode_utf8(document).len() > DESCRIPTOR_LIMIT {
            Err(ArtifactError::DescriptorBounds)
        } else {
            Ok(encode_utf8(document))
        },
    }
}

/// The bytes that a descriptor is kept as.
pub fn encode_descriptor(d: &ArtifactDescriptor) -> (r: Result<Vec<u8>, ArtifactError>)
    ensures
        match encoded_descriptor(d@) {
            Err(e) => r == Err::<Vec<u8>, ArtifactError>(e),
            Ok(bytes) => r matches Ok(v) && v@ == bytes,
        },
{
    reveal(encoded_descriptor);
    match (
        make_request_document(&d.request),
        json_string(d.selected_input.as_str()),
        json_string(d.capture_revision.as_str()),
        json_string(d.manifest_blake3.as_str()),
        make_artifact_document(&d.artifact),
    ) {
        (Some(request), Some(input), Some(revision), Some(manifest), Some(artifact)) => {
            let mut t: String = "{\"protocol\":".to_owned();
            append_number(&mut t, d.protocol as u64);
            t.append(",\"request\":");
            t.append(request.as_str());
            t.append(",\"selected_input\":");
            t.append(input.as_str());
            t.append(",\"capture_revision\":");
            t.append(revision.as_str());
            t.append(",\"manifest_blake3\":");
            t.append(manifest.as_str());
            t.append(",\"artifact\":");
            t.append(artifact.as_str());
            t.append("}");
            assert(t@ =~= descriptor_document(d@)->0);
            let bytes = t.as_str().as_bytes();
            if bytes.len() > DESCRIPTOR_LIMIT {
                Err(ArtifactError::DescriptorBounds)
            } else {
                Ok(copy_bytes(bytes))
            }
        },
        _ => Err(ArtifactError::DescriptorBounds),
    }
}

/// The bytes of the texts of a descriptor, taken together.
pub open spec fn text_bytes(d: ArtifactDescriptorModel) -> nat {
    support::byte_length(d.selected_input) + support::byte_length(d.capture_revision)
        + support::byte_length(d.manifest_blake3) + support::byte_length(
        d.request.mapping.copy_identity.object,
    ) + support::byte_length(d.request.mapping.copy_identity.changed) + support::byte_length(
        d.artifact.role,
    ) + support::byte_length(d.artifact.stored) + support::byte_length(d.artifact.revision.object)
        + support::byte_length(d.artifact.revision.changed) + support::byte_length(
        d.artifact.blake3,
    )
}

/// A path is short enough for a descriptor.
pub open spec fn path_fits(path: retained::PathModel) -> bool {
    match path {
        retained::PathModel::UnixBytes(v) => v.len() <= PATH_UNITS,
        retained::PathModel::WindowsWide(v) => v.len() <= PATH_UNITS,
    }
}

fn is_path_fitting(path: &NativePath) -> (r: bool)
    ensures
        r == path_fits(path@),
{
    match path {
        NativePath::UnixBytes(v) => v.len() <= PATH_UNITS,
        NativePath::WindowsWide(v) => v.len() <= PATH_UNITS,
    }
}

/// Why a descriptor that was read from its bytes is refused.
pub open spec fn decode_refusal(
    d: ArtifactDescriptorModel,
    bytes: nat,
    input_limit: nat,
    stopped: bool,
) -> Option<ArtifactError> {
    if bytes > input_limit {
        Some(ArtifactError::DescriptorBounds)
    } else if stopped {
        Some(ArtifactError::Stopped)
    } else if text_bytes(d) > DESCRIPTOR_LIMIT || !path_fits(d.request.mapping.root) || !path_fits(
        d.request.mapping.relative,
    ) || !path_fits(d.artifact.source) || !path_fits(d.artifact.relative) {
        Some(ArtifactError::DescriptorBounds)
    } else {
        match encoded_descriptor(d) {
            Err(e) => Some(e),
            Ok(_) => None,
        }
    }
}

fn within(limit: usize, lengths: &Vec<usize>) -> (r: bool)
    ensures
        r == (summed(lengths@, lengths@.len()) <= limit),
{
    let mut left: usize = limit;
    let mut i: usize = 0;
    while i < lengths.len()
        invariant
            i <= lengths@.len(),
            left <= limit,
            summed(lengths@, i as nat) == limit - left,
        decreases lengths@.len() - i,
    {
        if lengths[i] > left {
            proof {
                lemma_summed_grows(lengths@, (i + 1) as nat);
            }
            return false;
        }
        left = left - lengths[i];
        i += 1;
    }
    true
}

/// The sum of the first `n` numbers.
pub open spec fn summed(s: Seq<usize>, n: nat) -> nat
    decreases n,
{
    if n == 0 {
        0
    } else {
        summed(s, (n - 1) as nat) + s[n - 1] as nat
    }
}

proof fn lemma_summed_grows(s: Seq<usize>, n: nat)
    requires
        n <= s.len(),
    ensures
        summed(s, n) <= summed(s, s.len()),
    decreases s.len() - n,
{
    if n < s.len() {
        lemma_summed_grows(s, n + 1);
    }
}

/// Accepts a descriptor that was read from its bytes.
pub fn decode(d: ArtifactDescriptor, bytes: usize, input_limit: usize, stopped: bool) -> (r: Result<
    ArtifactDescriptor,
    ArtifactError,
>)
    ensures
        match decode_refusal(d@, bytes as nat, input_limit as nat, stopped) {
            Some(e) => r == Err::<ArtifactDescriptor, ArtifactError>(e),
            None => r matches Ok(found) && found@ == d@,
        },
{
    if bytes > input_limit {
        return Err(ArtifactError::DescriptorBounds);
    }
    if stopped {
        return Err(ArtifactError::Stopped);
    }
    let lengths: Vec<usize> = vec![
        byte_len(d.selected_input.as_str()),
        byte_len(d.capture_revision.as_str()),
        byte_len(d.manifest_blake3.as_str()),
        byte_len(d.request.mapping.copy_identity.object.as_str()),
        byte_len(d.request.mapping.copy_identity.changed.as_str()),
        byte_len(d.artifact.role.as_str()),
        byte_len(d.artifact.stored.as_str()),
        byte_len(d.artifact.revision.object.as_str()),
        byte_len(d.artifact.revision.changed.as_str()),
        byte_len(d.artifact.blake3.as_str()),
    ];
    proof {
        reveal_with_fuel(summed, 11);
        assert(summed(lengths@, lengths@.len()) == text_bytes(d@));
    }
    if !within(DESCRIPTOR_LIMIT, &lengths) || !is_path_fitting(&d.request.mapping.root)
        || !is_path_fitting(&d.request.mapping.relative) || !is_path_fitting(&d.artifact.source)
        || !is_path_fitting(&d.artifact.relative) {
        return Err(ArtifactError::DescriptorBounds);
    }
    match encode_descriptor(&d) {
        Err(e) => Err(e),
        Ok(_) => Ok(d),
    }
}

pub open spec fn is_slash() -> spec_fn(u8) -> bool {
    |b: u8| b == 0x2f
}

/// The names of a path: what is between its slashes.
pub open spec fn parts(path: Seq<u8>) -> Seq<Seq<u8>>
    decreases path.len(),
    via parts_shrink
{
    match support::first_where(path, is_slash()) {
        None => seq![path],
        Some(i) => seq![path.take(i)] + parts(path.skip(i + 1)),
    }
}

#[via_fn]
proof fn parts_shrink(path: Seq<u8>) {
    support::lemma_first_where(path, is_slash());
}

/// A plain name: neither empty nor one that leads elsewhere.
pub open spec fn plain_name(name: Seq<u8>) -> bool {
    name.len() > 0 && name != seq![0x2eu8] && name != seq![0x2eu8, 0x2eu8]
}

/// A path is made of plain names, and not of too many.
pub open spec fn plain_path(path: Seq<u8>) -> bool {
    parts(path).len() <= PATH_PARTS && forall|i: int|
        0 <= i < parts(path).len() ==> plain_name(#[trigger] parts(path)[i])
}

/// The end of the name that starts at a place.
fn name_end(path: &Vec<u8>, start: usize) -> (end: usize)
    requires
        start <= path@.len(),
    ensures
        start <= end <= path@.len(),
        match support::first_where(path@.skip(start as int), is_slash()) {
            None => end == path@.len(),
            Some(i) => end == start + i && end < path@.len(),
        },
{
    let ghost rest = path@.skip(start as int);
    let mut end: usize = start;
    while end < path.len()
        invariant
            start <= end <= path@.len(),
            rest == path@.skip(start as int),
            forall|k: int| 0 <= k < end - start ==> !is_slash()(#[trigger] rest[k]),
        decreases path@.len() - end,
    {
        assert(rest[end - start] == path@[end as int]);
        if path[end] == 0x2f {
            proof {
                support::lemma_first_found(rest, is_slash(), end - start);
            }
            return end;
        }
        end += 1;
    }
    proof {
        support::lemma_none_found(rest, is_slash());
    }
    end
}

fn is_plain_name(path: &Vec<u8>, start: usize, end: usize) -> (r: bool)
    requires
        start <= end <= path@.len(),
    ensures
        r == plain_name(path@.subrange(start as int, end as int)),
{
    let ghost name = path@.subrange(start as int, end as int);
    let length: usize = end - start;
    if length == 0 {
        return false;
    }
    if length == 1 && path[start] == 0x2e {
        assert(name =~= seq![0x2eu8]);
        return false;
    }
    if length == 2 && path[start] == 0x2e && path[start + 1] == 0x2e {
        assert(name =~= seq![0x2eu8, 0x2eu8]);
        return false;
    }
    proof {
        if name == seq![0x2eu8] {
            assert(name.len() == 1 && name[0] == 0x2e);
        }
        if name == seq![0x2eu8, 0x2eu8] {
            assert(name.len() == 2 && name[0] == 0x2e && name[1] == 0x2e);
        }
    }
    true
}

fn is_plain_path(path: &Vec<u8>) -> (r: bool)
    ensures
        r == plain_path(path@),
{
    let mut start: usize = 0;
    let mut count: usize = 0;
    let ghost mut done: Seq<Seq<u8>> = Seq::empty();
    assert(path@.skip(0) =~= path@);
    assert(parts(path@) =~= done + parts(path@.skip(0)));
    loop
        invariant
            start <= path@.len(),
            count == done.len(),
            count <= start,
            parts(path@) == done + parts(path@.skip(start as int)),
            forall|i: int| 0 <= i < done.len() ==> plain_name(#[trigger] done[i]),
        decreases path@.len() - start,
    {
        let end: usize = name_end(path, start);
        let ghost rest = path@.skip(start as int);
        let ghost name = path@.subrange(start as int, end as int);
        assert(parts(path@)[done.len() as int] == name) by {
            if end < path@.len() {
                assert(rest.take(end - start) =~= name);
            } else {
                assert(rest =~= name);
            }
            assert(parts(rest)[0] == name);
        }
        assert(parts(path@).len() == done.len() + parts(rest).len());
        if !is_plain_name(path, start, end) {
            return false;
        }
        if end == path.len() {
            assert(parts(rest) == seq![rest]);
            assert forall|i: int| 0 <= i < parts(path@).len() implies plain_name(
                #[trigger] parts(path@)[i],
            ) by {
                if i < done.len() {
                    assert(parts(path@)[i] == done[i]);
                }
            }
            return count < PATH_PARTS;
        }
        proof {
            assert(rest.skip(end - start + 1) =~= path@.skip(end + 1));
            let before = done;
            done = done.push(name);
            assert(parts(path@) =~= done + parts(path@.skip(end + 1)));
        }
        start = end + 1;
        count += 1;
    }
}

/// Why a mapping's paths are refused.
pub open spec fn paths_refusal(root: retained::PathModel, relative: retained::PathModel) -> Option<
    ArtifactError,
> {
    if !path_bounded(root) || !path_bounded(relative) {
        Some(ArtifactError::PathLength)
    } else {
        match (root, relative) {
            (retained::PathModel::UnixBytes(r), retained::PathModel::UnixBytes(below)) => if r[0]
                != 0x2f || !plain_path(below) {
                Some(ArtifactError::PathShape)
            } else {
                None
            },
            _ => Some(ArtifactError::PathForeign),
        }
    }
}

/// The units of a path.
pub open spec fn path_units(path: retained::PathModel) -> nat {
    match path {
        retained::PathModel::UnixBytes(v) => v.len(),
        retained::PathModel::WindowsWide(v) => v.len(),
    }
}

/// A path is neither empty nor too long.
pub open spec fn path_bounded(path: retained::PathModel) -> bool {
    1 <= path_units(path) <= PATH_UNITS
}

pub(crate) fn count_units(path: &NativePath) -> (n: usize)
    ensures
        n == path_units(path@),
{
    match path {
        NativePath::UnixBytes(v) => v.len(),
        NativePath::WindowsWide(v) => v.len(),
    }
}

/// Two paths joined by one slash.
pub open spec fn joined_path(root: Seq<u8>, relative: Seq<u8>) -> Seq<u8> {
    if root.len() > 0 && root.last() == 0x2f {
        root + relative
    } else {
        root + seq![0x2fu8] + relative
    }
}

/// What a mapping's paths come to.
pub open spec fn mapped_path(root: retained::PathModel, relative: retained::PathModel) -> Result<
    Seq<u8>,
    ArtifactError,
> {
    match paths_refusal(root, relative) {
        Some(e) => Err(e),
        None => Ok(joined_path(root->UnixBytes_0, relative->UnixBytes_0)),
    }
}

fn join_paths(root: &Vec<u8>, relative: &Vec<u8>) -> (path: Vec<u8>)
    ensures
        path@ == joined_path(root@, relative@),
{
    let mut path: Vec<u8> = copy_bytes(root.as_slice());
    if root.len() == 0 || root[root.len() - 1] != 0x2f {
        path.push(0x2f);
    }
    append_bytes(&mut path, relative.as_slice());
    assert(path@ =~= joined_path(root@, relative@));
    path
}

/// Whether a mapping's paths are an absolute root with plain names below it, and
/// what they come to.
pub fn mapping_native_paths(root: &NativePath, relative: &NativePath) -> (r: Result<
    Vec<u8>,
    ArtifactError,
>)
    ensures
        match mapped_path(root@, relative@) {
            Err(e) => r == Err::<Vec<u8>, ArtifactError>(e),
            Ok(path) => r matches Ok(v) && v@ == path,
        },
{
    let a: usize = count_units(root);
    let b: usize = count_units(relative);
    if a == 0 || a > PATH_UNITS || b == 0 || b > PATH_UNITS {
        return Err(ArtifactError::PathLength);
    }
    match (root, relative) {
        (NativePath::UnixBytes(r), NativePath::UnixBytes(below)) => {
            if r[0] != 0x2f || !is_plain_path(below) {
                Err(ArtifactError::PathShape)
            } else {
                Ok(join_paths(r, below))
            }
        },
        _ => Err(ArtifactError::PathForeign),
    }
}

/// Where the copy of a mapping is.
pub fn mapping_path(mapping: &ArtifactMapping) -> (r: Result<Vec<u8>, ArtifactError>)
    ensures
        match mapped_path(mapping@.root, mapping@.relative) {
            Err(e) => r == Err::<Vec<u8>, ArtifactError>(e),
            Ok(path) => r matches Ok(v) && v@ == path,
        },
{
    mapping_native_paths(&mapping.root, &mapping.relative)
}

/// Bytes that may still be allocated.
pub struct Allowance {
    pub remaining: usize,
}

impl Allowance {
    /// Takes bytes off the allowance, where it has them.
    pub fn grant(&mut self, bytes: usize) -> (granted: bool)
        ensures
            granted == (bytes <= old(self).remaining),
            final(self).remaining == if granted {
                old(self).remaining - bytes
            } else {
                old(self).remaining as int
            },
    {
        if bytes <= self.remaining {
            self.remaining = self.remaining - bytes;
            true
        } else {
            false
        }
    }
}

/// What finding a copy's path allocates: both paths, the root's prefixes, the joined
/// path, and its own prefixes.
pub open spec fn path_allowance(root: nat, relative: nat, joined: nat) -> nat {
    root + relative + (4 * root + 9) + (root + relative + 1) + (5 * joined + 9)
}

/// Finding a copy's path within an allowance. Every allocation is granted before it
/// is made; the paths' shape is looked at once both paths are.
pub open spec fn granted_path(mapping: ArtifactMappingModel, remaining: nat) -> Result<
    Seq<u8>,
    ArtifactError,
> {
    let root = path_units(mapping.root);
    let relative = path_units(mapping.relative);
    if !path_bounded(mapping.root) {
        Err(ArtifactError::PathLength)
    } else if root > remaining {
        Err(ArtifactError::AllowanceDenied)
    } else if !path_bounded(mapping.relative) {
        Err(ArtifactError::PathLength)
    } else if root + relative > remaining {
        Err(ArtifactError::AllowanceDenied)
    } else {
        match mapped_path(mapping.root, mapping.relative) {
            Err(e) => Err(e),
            Ok(path) => if path_allowance(root, relative, path.len()) > remaining {
                Err(ArtifactError::AllowanceDenied)
            } else {
                Ok(path)
            },
        }
    }
}

/// Where the copy of a mapping is, found within an allowance.
pub fn admitted_mapping_path(mapping: &ArtifactMapping, allowance: &mut Allowance) -> (r: Result<
    Vec<u8>,
    ArtifactError,
>)
    ensures
        match granted_path(mapping@, old(allowance).remaining as nat) {
            Err(e) => r == Err::<Vec<u8>, ArtifactError>(e) && final(allowance).remaining <= old(
                allowance).remaining,
            Ok(path) => r matches Ok(v) && v@ == path && final(allowance).remaining == old(
                allowance).remaining - path_allowance(
                path_units(mapping@.root),
                path_units(mapping@.relative),
                path.len(),
            ),
        },
{
    let root: usize = count_units(&mapping.root);
    if root == 0 || root > PATH_UNITS {
        return Err(ArtifactError::PathLength);
    }
    if !allowance.grant(root) {
        return Err(ArtifactError::AllowanceDenied);
    }
    let relative: usize = count_units(&mapping.relative);
    if relative == 0 || relative > PATH_UNITS {
        return Err(ArtifactError::PathLength);
    }
    if !allowance.grant(relative) {
        return Err(ArtifactError::AllowanceDenied);
    }
    match (&mapping.root, &mapping.relative) {
        (NativePath::UnixBytes(r), NativePath::UnixBytes(below)) => {
            if r[0] != 0x2f || !is_plain_path(below) {
                return Err(ArtifactError::PathShape);
            }
            if !allowance.grant(4 * root + 9) || !allowance.grant(root + relative + 1) {
                return Err(ArtifactError::AllowanceDenied);
            }
            let path: Vec<u8> = join_paths(r, below);
            if !allowance.grant(5 * path.len() + 9) {
                return Err(ArtifactError::AllowanceDenied);
            }
            Ok(path)
        },
        _ => Err(ArtifactError::PathForeign),
    }
}

/// A copy's path stays below its root, whatever names lead to it: it starts with the
/// root, and no name below it leads up or out.
pub proof fn law_copies_stay_below_their_root(root: retained::PathModel, relative: retained::PathModel)
    requires
        mapped_path(root, relative) is Ok,
    ensures
        ({
            let path = mapped_path(root, relative)->Ok_0;
            let top = root->UnixBytes_0;
            let below = relative->UnixBytes_0;
            &&& path.take(top.len() as int) == top
            &&& path.skip(path.len() - below.len()) == below
            &&& path[path.len() - below.len() - 1] == 0x2f
            &&& forall|i: int|
                0 <= i < parts(below).len() ==> (#[trigger] parts(below)[i]).len() > 0
                    && parts(below)[i] != seq![0x2eu8, 0x2eu8]
        }),
{
    let path = mapped_path(root, relative)->Ok_0;
    let top = root->UnixBytes_0;
    let below = relative->UnixBytes_0;
    assert(path.take(top.len() as int) =~= top);
    assert(path.skip(path.len() - below.len()) =~= below);
    assert forall|i: int| 0 <= i < parts(below).len() implies (#[trigger] parts(below)[i]).len() > 0
        && parts(below)[i] != seq![0x2eu8, 0x2eu8] by {
        assert(plain_name(parts(below)[i]));
    }
}

/// A path that is found within an allowance is the one that is found without, and
/// what was granted for it is more than its own bytes.
pub proof fn law_grants_cover_the_path(mapping: ArtifactMappingModel, remaining: nat)
    requires
        granted_path(mapping, remaining) is Ok,
    ensures
        granted_path(mapping, remaining)->Ok_0.len() < path_allowance(
            path_units(mapping.root),
            path_units(mapping.relative),
            granted_path(mapping, remaining)->Ok_0.len(),
        ) <= remaining,
        mapped_path(mapping.root, mapping.relative) == Ok::<Seq<u8>, ArtifactError>(
            granted_path(mapping, remaining)->Ok_0,
        ),
{
}

/// The digest in the making of a copy that is read from its start to its end.
pub struct ContentCheck {
    hasher: blake3::Hasher,
    remaining: u64,
}

impl ContentCheck {
    /// What was read so far.
    pub closed spec fn taken(self) -> Seq<u8> {
        outside::hashed(self.hasher)
    }

    /// How many bytes are still to be read.
    pub closed spec fn left(self) -> u64 {
        self.remaining
    }

    /// Nothing of a copy's bytes was read yet.
    pub fn new(length: u64) -> (c: Self)
        ensures
            c.taken() == Seq::<u8>::empty(),
            c.left() == length,
    {
        ContentCheck { hasher: hasher_new(), remaining: length }
    }

    /// How many bytes to read next; none where all were read.
    pub fn next_read(&self) -> (n: usize)
        ensures
            n == if self.left() < READ_BYTES {
                self.left()
            } else {
                READ_BYTES
            },
    {
        if self.remaining < READ_BYTES {
            self.remaining as usize
        } else {
            READ_BYTES as usize
        }
    }

    /// Takes in the bytes that were read next.
    pub fn take(&mut self, bytes: &[u8]) -> (r: Result<(), ArtifactError>)
        ensures
            if bytes@.len() > old(self).left() {
                r == Err::<(), ArtifactError>(ArtifactError::ChunkLength) && *final(self) == *old(
                    self)
            } else {
                r is Ok && final(self).taken() == old(self).taken() + bytes@ && final(self).left()
                    == old(self).left() - bytes@.len()
            },
    {
        if bytes.len() as u64 > self.remaining {
            return Err(ArtifactError::ChunkLength);
        }
        hasher_update(&mut self.hasher, bytes);
        self.remaining = self.remaining - bytes.len() as u64;
        Ok(())
    }

    /// Everything was read and has a digest.
    pub open spec fn is_whole(self, digest: Seq<char>) -> bool {
        self.left() == 0 && outside::blake3_hex(self.taken()) == digest
    }

    /// Whether everything was read and has a digest.
    pub fn whole(&self, digest: &str) -> (r: bool)
        ensures
            r == self.is_whole(digest@),
    {
        self.remaining == 0 && same(hasher_digest(&self.hasher).as_str(), digest)
    }
}

/// What tells an open file from every other.
#[derive(Clone, Copy, Debug, PartialEq, Eq, Structural)]
pub struct FileKey {
    pub device: u64,
    pub object: u64,
}

/// Whether a text is made of sixty-four lowercase hexadecimal digits.
pub(crate) fn is_digest(s: &str) -> (r: bool)
    ensures
        r == outside::digest_text(s@),
{
    if s.unicode_len() != 64 {
        return false;
    }
    let mut i: usize = 0;
    while i < 64
        invariant
            i <= 64,
            s@.len() == 64,
            forall|k: int| 0 <= k < i ==> outside::hex_digit(#[trigger] s@[k]),
        decreases 64 - i,
    {
        let c: char = s.get_char(i);
        if !(('0' <= c && c <= '9') || ('a' <= c && c <= 'f')) {
            assert(!outside::hex_digit(s@[i as int]));
            return false;
        }
        i += 1;
    }
    true
}

/// A member's number fits a stored row.
pub open spec fn member_bounded(r: ArtifactRequestModel) -> bool {
    r.retained_capture_record > 0 && r.member_index <= i64::MAX
}

fn is_member_bounded(r: &ArtifactRequest) -> (b: bool)
    ensures
        b == member_bounded(r@),
{
    r.retained_capture_record > 0 && r.member_index as u64 <= i64::MAX as u64
}

/// Why a copy is refused before it is opened.
pub open spec fn opening_refusal(
    d: ArtifactDescriptorModel,
    limits: ArtifactLimits,
    stopped: bool,
    protected: nat,
) -> Option<ArtifactError> {
    match limits.refusal() {
        Some(e) => Some(e),
        None => if stopped {
            Some(ArtifactError::Stopped)
        } else if protected > PROTECTED_LIMIT {
            Some(ArtifactError::ProtectedLimit)
        } else {
            match encoded_descriptor(d) {
                Err(e) => Some(e),
                Ok(_) => if d.protocol != 1 || !member_bounded(d.request) {
                    Some(ArtifactError::MemberBounds)
                } else if d.artifact.revision.bytes != d.request.mapping.copy_identity.bytes {
                    Some(ArtifactError::LengthDiffers)
                } else if !outside::digest_text(d.selected_input) || !outside::digest_text(
                    d.capture_revision,
                ) || !outside::digest_text(d.manifest_blake3) || !outside::digest_text(
                    d.artifact.blake3,
                ) {
                    Some(ArtifactError::DigestShape)
                } else if d.artifact.revision.bytes > limits.maximum_bytes {
                    Some(ArtifactError::TooLarge)
                } else {
                    match mapped_path(d.request.mapping.root, d.request.mapping.relative) {
                        Err(e) => Some(e),
                        Ok(_) => None,
                    }
                },
            }
        },
    }
}

/// Why a copy is refused once it is open and was read.
pub open spec fn opened_refusal(
    d: ArtifactDescriptorModel,
    protected: Seq<FileKey>,
    opened: FileIdentityModel,
    key: FileKey,
    content: ContentCheck,
) -> Option<ArtifactError> {
    if opened != d.request.mapping.copy_identity {
        Some(ArtifactError::IdentityDiffers)
    } else if protected.contains(key) {
        Some(ArtifactError::Aliased)
    } else if !content.is_whole(d.artifact.blake3) {
        Some(ArtifactError::ContentDiffers)
    } else {
        None
    }
}

/// A copy that was opened and holds what was captured. No digest that is merely
/// claimed makes one.
pub struct ArtifactReader {
    descriptor: ArtifactDescriptor,
    encoded: Vec<u8>,
    limits: ArtifactLimits,
    poisoned: bool,
}

/// What an `ArtifactReader` stands for.
#[verifier::ext_equal]
pub struct ReaderModel {
    pub descriptor: ArtifactDescriptorModel,
    pub encoded: Seq<u8>,
    pub limits: ArtifactLimits,
    pub poisoned: bool,
}

impl View for ArtifactReader {
    type V = ReaderModel;

    closed spec fn view(&self) -> ReaderModel {
        ReaderModel {
            descriptor: self.descriptor@,
            encoded: self.encoded@,
            limits: self.limits,
            poisoned: self.poisoned,
        }
    }
}

fn is_protected(protected: &Vec<FileKey>, key: FileKey) -> (r: bool)
    ensures
        r == protected@.contains(key),
{
    let mut i: usize = 0;
    while i < protected.len()
        invariant
            i <= protected@.len(),
            forall|k: int| 0 <= k < i ==> protected@[k] != key,
        decreases protected@.len() - i,
    {
        if protected[i] == key {
            assert(protected@[i as int] == key);
            return true;
        }
        i += 1;
    }
    false
}

impl ArtifactReader {
    /// Whether a copy may be opened, where it is, and the bytes of its descriptor.
    pub fn check_descriptor(
        descriptor: &ArtifactDescriptor,
        limits: ArtifactLimits,
        stopped: bool,
        protected: usize,
    ) -> (r: Result<(Vec<u8>, Vec<u8>), ArtifactError>)
        ensures
            match opening_refusal(descriptor@, limits, stopped, protected as nat) {
                Some(e) => r == Err::<(Vec<u8>, Vec<u8>), ArtifactError>(e),
                None => r matches Ok((path, encoded)) && mapped_path(
                    descriptor@.request.mapping.root,
                    descriptor@.request.mapping.relative,
                ) == Ok::<Seq<u8>, ArtifactError>(path@) && encoded_descriptor(descriptor@) == Ok::<
                    Seq<u8>,
                    ArtifactError,
                >(encoded@),
            },
    {
        match limits.validate() {
            Err(e) => return Err(e),
            Ok(()) => {},
        }
        if stopped {
            return Err(ArtifactError::Stopped);
        }
        if protected > PROTECTED_LIMIT {
            return Err(ArtifactError::ProtectedLimit);
        }
        let encoded: Vec<u8> = match encode_descriptor(descriptor) {
            Err(e) => return Err(e),
            Ok(encoded) => encoded,
        };
        if descriptor.protocol != 1 || !is_member_bounded(&descriptor.request) {
            return Err(ArtifactError::MemberBounds);
        }
        if descriptor.artifact.revision.bytes != descriptor.request.mapping.copy_identity.bytes {
            return Err(ArtifactError::LengthDiffers);
        }
        if !is_digest(descriptor.selected_input.as_str()) || !is_digest(
            descriptor.capture_revision.as_str(),
        ) || !is_digest(descriptor.manifest_blake3.as_str()) || !is_digest(
            descriptor.artifact.blake3.as_str(),
        ) {
            return Err(ArtifactError::DigestShape);
        }
        if descriptor.artifact.revision.bytes > limits.maximum_bytes {
            return Err(ArtifactError::TooLarge);
        }
        match mapping_path(&descriptor.request.mapping) {
            Err(e) => Err(e),
            Ok(path) => Ok((path, encoded)),
        }
    }

    /// The reader of a copy that was opened and read: it has to be the sealed file,
    /// no protected object, and to hold what was captured.
    pub fn open_descriptor(
        descriptor: ArtifactDescriptor,
        limits: ArtifactLimits,
        stopped: bool,
        protected: &Vec<FileKey>,
        opened: &FileIdentity,
        key: FileKey,
        content: &ContentCheck,
    ) -> (r: Result<ArtifactReader, ArtifactError>)
        ensures
            match opening_refusal(descriptor@, limits, stopped, protected@.len()) {
                Some(e) => r == Err::<ArtifactReader, ArtifactError>(e),
                None => match opened_refusal(descriptor@, protected@, opened@, key, *content) {
                    Some(e) => r == Err::<ArtifactReader, ArtifactError>(e),
                    None => r matches Ok(reader) && reader@.descriptor == descriptor@
                        && reader@.limits == limits && !reader@.poisoned && encoded_descriptor(
                        descriptor@,
                    ) == Ok::<Seq<u8>, ArtifactError>(reader@.encoded),
                },
            },
    {
        let encoded: Vec<u8> = match Self::check_descriptor(
            &descriptor,
            limits,
            stopped,
            protected.len(),
        ) {
            Err(e) => return Err(e),
            Ok((_, encoded)) => encoded,
        };
        if !opened.same_as(&descriptor.request.mapping.copy_identity) {
            return Err(ArtifactError::IdentityDiffers);
        }
        if is_protected(protected, key) {
            return Err(ArtifactError::Aliased);
        }
        if !content.whole(descriptor.artifact.blake3.as_str()) {
            return Err(ArtifactError::ContentDiffers);
        }
        Ok(ArtifactReader { descriptor, encoded, limits, poisoned: false })
    }

    /// What the copy is the copy of.
    pub fn descriptor(&self) -> (d: &ArtifactDescriptor)
        ensures
            d@ == self@.descriptor,
    {
        &self.descriptor
    }

    /// Notes whether the copy is still unchanged. Once it was not, the reader stays
    /// invalid.
    pub fn verify(&mut self, unchanged: bool) -> (r: Result<(), ArtifactError>)
        ensures
            final(self)@ == (ReaderModel {
                poisoned: old(self)@.poisoned || !unchanged,
                ..old(self)@
            }),
            r == if final(self)@.poisoned {
                Err::<(), ArtifactError>(ArtifactError::Invalidated)
            } else {
                Ok(())
            },
    {
        if self.poisoned {
            return Err(ArtifactError::Invalidated);
        }
        if !unchanged {
            self.poisoned = true;
            return Err(ArtifactError::Invalidated);
        }
        Ok(())
    }

    /// How many bytes to read at an offset of the copy.
    pub fn chunk_size(&self, offset: u64) -> (r: Result<usize, ArtifactError>)
        ensures
            match chunk_at(self@, offset) {
                Err(e) => r == Err::<usize, ArtifactError>(e),
                Ok(n) => r matches Ok(size) && size == n,
            },
    {
        let length: u64 = self.descriptor.artifact.revision.bytes;
        if offset > length {
            return Err(ArtifactError::OffsetBounds);
        }
        let left: u64 = length - offset;
        if left < self.limits.chunk_bytes as u64 {
            Ok(left as usize)
        } else {
            Ok(self.limits.chunk_bytes)
        }
    }
}

/// How many bytes are read at an offset of a copy.
pub open spec fn chunk_at(reader: ReaderModel, offset: u64) -> Result<nat, ArtifactError> {
    let length = reader.descriptor.artifact.revision.bytes;
    if offset > length {
        Err(ArtifactError::OffsetBounds)
    } else if length - offset < reader.limits.chunk_bytes {
        Ok((length - offset) as nat)
    } else {
        Ok(reader.limits.chunk_bytes as nat)
    }
}

/// Why a copy cannot be mapped to a captured file.
pub open spec fn preparation_refusal(
    artifact: ArtifactModel,
    root: retained::PathModel,
    relative: retained::PathModel,
    limits: ArtifactLimits,
    stopped: bool,
    opened: FileIdentityModel,
    content: ContentCheck,
) -> Option<ArtifactError> {
    match limits.refusal() {
        Some(e) => Some(e),
        None => if artifact.revision.bytes > limits.maximum_bytes {
            Some(ArtifactError::TooLarge)
        } else if stopped {
            Some(ArtifactError::Stopped)
        } else {
            match mapped_path(root, relative) {
                Err(e) => Some(e),
                Ok(_) => if opened.bytes != artifact.revision.bytes {
                    Some(ArtifactError::LengthDiffers)
                } else if !content.is_whole(artifact.blake3) {
                    Some(ArtifactError::ContentDiffers)
                } else {
                    None
                },
            }
        },
    }
}

/// Maps a captured file to a copy that was opened and read. The mapping holds the
/// copy's own identity.
pub fn prepare_manifest_artifact(
    artifact: &Artifact,
    root: &NativePath,
    relative: &NativePath,
    limits: ArtifactLimits,
    stopped: bool,
    opened: &FileIdentity,
    content: &ContentCheck,
) -> (r: Result<ArtifactMapping, ArtifactError>)
    ensures
        match preparation_refusal(
            artifact@,
            root@,
            relative@,
            limits,
            stopped,
            opened@,
            *content,
        ) {
            Some(e) => r == Err::<ArtifactMapping, ArtifactError>(e),
            None => r matches Ok(mapping) && mapping@ == (ArtifactMappingModel {
                root: root@,
                relative: relative@,
                copy_identity: opened@,
            }),
        },
{
    match limits.validate() {
        Err(e) => return Err(e),
        Ok(()) => {},
    }
    if artifact.revision.bytes > limits.maximum_bytes {
        return Err(ArtifactError::TooLarge);
    }
    if stopped {
        return Err(ArtifactError::Stopped);
    }
    match mapping_native_paths(root, relative) {
        Err(e) => return Err(e),
        Ok(_) => {},
    }
    if opened.bytes != artifact.revision.bytes {
        return Err(ArtifactError::LengthDiffers);
    }
    if !content.whole(artifact.blake3.as_str()) {
        return Err(ArtifactError::ContentDiffers);
    }
    Ok(
        ArtifactMapping {
            root: root.copied(),
            relative: relative.copied(),
            copy_identity: opened.copied(),
        },
    )
}

/// A manifest is a complete capture's, of a revision.
pub open spec fn of_capture(detail: CaptureDetail, revision: Seq<char>) -> bool {
    detail.manifest.protocol == 1 && detail.manifest.state@ == "captured"@ && support::text_of(
        detail.manifest.revision_id,
    ) == Some(revision) && detail.artifacts_blake3@ == revision
}

fn is_of_capture(detail: &CaptureDetail, revision: &str) -> (r: bool)
    ensures
        r == of_capture(*detail, revision@),
{
    detail.manifest.protocol == 1 && same(detail.manifest.state.as_str(), "captured")
        && match &detail.manifest.revision_id {
        Some(id) => same(id.as_str(), revision),
        None => false,
    } && same(detail.artifacts_blake3.as_str(), revision)
}

/// The member of a reviewed manifest that a copy is looked for of.
pub open spec fn reviewed_member(
    manifest_json: Seq<u8>,
    detail: CaptureDetail,
    request: MappingPreparation,
    limits: ArtifactLimits,
    stopped: bool,
) -> Result<ArtifactModel, ArtifactError> {
    match limits.refusal() {
        Some(e) => Err(e),
        None => if stopped {
            Err(ArtifactError::Stopped)
        } else if manifest_json.len() > MANIFEST_BYTES {
            Err(ArtifactError::ManifestBounds)
        } else if outside::blake3_hex(manifest_json) != request.manifest_blake3@ {
            Err(ArtifactError::ManifestDigest)
        } else if !of_capture(detail, request.capture_revision@) {
            Err(ArtifactError::ManifestDiffers)
        } else if request.member_index >= detail.manifest.artifacts@.len() {
            Err(ArtifactError::MemberUnknown)
        } else {
            let artifact = detail.manifest.artifacts@[request.member_index as int]@;
            if !outside::digest_text(artifact.blake3) {
                Err(ArtifactError::DigestShape)
            } else {
                Ok(artifact)
            }
        },
    }
}

/// Maps a member of a reviewed manifest, given its bytes and what they say, to a
/// copy that was opened and read.
pub fn prepare_mapping(
    manifest_json: &[u8],
    detail: &CaptureDetail,
    request: &MappingPreparation,
    limits: ArtifactLimits,
    stopped: bool,
    opened: &FileIdentity,
    content: &ContentCheck,
) -> (r: Result<ArtifactMapping, ArtifactError>)
    ensures
        match reviewed_member(manifest_json@, *detail, *request, limits, stopped) {
            Err(e) => r == Err::<ArtifactMapping, ArtifactError>(e),
            Ok(artifact) => match preparation_refusal(
                artifact,
                request.root@,
                request.relative@,
                limits,
                stopped,
                opened@,
                *content,
            ) {
                Some(e) => r == Err::<ArtifactMapping, ArtifactError>(e),
                None => r matches Ok(mapping) && mapping@ == (ArtifactMappingModel {
                    root: request.root@,
                    relative: request.relative@,
                    copy_identity: opened@,
                }),
            },
        },
{
    match limits.validate() {
        Err(e) => return Err(e),
        Ok(()) => {},
    }
    if stopped {
        return Err(ArtifactError::Stopped);
    }
    if manifest_json.len() > MANIFEST_BYTES {
        return Err(ArtifactError::ManifestBounds);
    }
    if !same(blake3_digest(manifest_json).as_str(), request.manifest_blake3.as_str()) {
        return Err(ArtifactError::ManifestDigest);
    }
    if !is_of_capture(detail, request.capture_revision.as_str()) {
        return Err(ArtifactError::ManifestDiffers);
    }
    if request.member_index >= detail.manifest.artifacts.len() {
        return Err(ArtifactError::MemberUnknown);
    }
    let artifact = &detail.manifest.artifacts[request.member_index];
    if !is_digest(artifact.blake3.as_str()) {
        return Err(ArtifactError::DigestShape);
    }
    prepare_manifest_artifact(
        artifact,
        &request.root,
        &request.relative,
        limits,
        stopped,
        opened,
        content,
    )
}

/// The payloads that were taken into custody.
pub struct Artifacts {
    pub rows: Vec<ArtifactRow>,
}

impl View for Artifacts {
    type V = Seq<CustodyModel>;

    open spec fn view(&self) -> Seq<CustodyModel> {
        support::models(self.rows@)
    }
}

pub open spec fn custody_of(record: i64, member: usize) -> spec_fn(CustodyModel) -> bool {
    |r: CustodyModel| r.retained_capture_record == record && r.member_index == member
}

pub open spec fn custody_in(evidence: Seq<char>) -> spec_fn(CustodyModel) -> bool {
    |r: CustodyModel| r.evidence == evidence
}

pub open spec fn selected_as(revision: Seq<char>) -> spec_fn(SelectedCapture) -> bool {
    |s: SelectedCapture| s.revision@ == revision
}

impl Artifacts {
    /// Nothing is in custody yet.
    pub fn new() -> (a: Self)
        ensures
            a@ == Seq::<CustodyModel>::empty(),
    {
        let a: Artifacts = Artifacts { rows: Vec::new() };
        assert(a@ =~= Seq::<CustodyModel>::empty());
        a
    }

    pub(crate) fn find_custody(&self, record: i64, member: usize) -> (r: Option<usize>)
        ensures
            match r {
                Some(i) => i < self.rows@.len() && support::first_where(
                    self@,
                    custody_of(record, member),
                ) == Some(i as int) && self@[i as int] == self.rows@[i as int]@,
                None => support::first_where(self@, custody_of(record, member)) is None,
            },
    {
        let test = |r: &ArtifactRow| -> (b: bool)
            ensures b == custody_of(record, member)(r@)
        {
            r.retained_capture_record == record && r.member_index == member
        };
        let r: Option<usize> = support::find(
            &self.rows,
            test,
            Ghost(custody_of(record, member)),
        );
        proof {
            if let Some(i) = r {
                assert(self@[i as int] == self.rows@[i as int]@);
            }
        }
        r
    }

    fn find_evidence(&self, evidence: &str) -> (r: Option<usize>)
        ensures
            r is Some == support::first_where(self@, custody_in(evidence@)) is Some,
    {
        let test = |r: &ArtifactRow| -> (b: bool)
            ensures b == custody_in(evidence@)(r@)
        {
            same(r.evidence.as_str(), evidence)
        };
        support::find(&self.rows, test, Ghost(custody_in(evidence@)))
    }
}

pub(crate) fn find_selected(selected: &Vec<SelectedCapture>, revision: &str) -> (r: Option<usize>)
    ensures
        match r {
            Some(i) => i < selected@.len() && support::first_where(
                selected@,
                selected_as(revision@),
            ) == Some(i as int),
            None => support::first_where(selected@, selected_as(revision@)) is None,
        },
{
    let ghost p = selected_as(revision@);
    let mut i: usize = 0;
    while i < selected.len()
        invariant
            i <= selected@.len(),
            p == selected_as(revision@),
            forall|j: int| 0 <= j < i ==> !p(#[trigger] selected@[j]),
        decreases selected@.len() - i,
    {
        if same(selected[i].revision.as_str(), revision) {
            proof {
                support::lemma_first_found(selected@, p, i as int);
            }
            return Some(i);
        }
        i += 1;
    }
    proof {
        support::lemma_none_found(selected@, p);
    }
    None
}

/// What a catalog says of a requested member: only a complete record of a selected
/// capture, whose manifest is the selected one, says anything.
#[verifier::opaque]
pub open spec fn descriptor_of(r: RetainedModel, files: FilesModel, request: ArtifactRequestModel) -> Result<
    ArtifactDescriptorModel,
    ArtifactError,
> {
    if !member_bounded(request) {
        Err(ArtifactError::MemberBounds)
    } else {
        match r.record_of(request.retained_capture_record) {
            None => Err(ArtifactError::Retained(MigrationError::RecordMissing)),
            Some(i) => {
                let rec = r.records[i];
                if rec.collection != Collection::Captures {
                    Err(ArtifactError::AuthorityKind)
                } else {
                    match rec.field_bytes("manifest"@, MANIFEST_BYTES as nat) {
                        Err(e) => Err(ArtifactError::Retained(e)),
                        Ok(bytes) => match rec.detail {
                            Detail::Capture(detail) => if !of_capture(detail, rec.revision) {
                                Err(ArtifactError::ManifestDiffers)
                            } else {
                                match files.seal_at(rec.input) {
                                    None => Err(
                                        ArtifactError::Retained(MigrationError::SealMissing),
                                    ),
                                    Some(k) => member_of(
                                        files.seals[k].selected@,
                                        rec.input,
                                        rec.revision,
                                        bytes,
                                        detail,
                                        request,
                                    ),
                                }
                            },
                            _ => Err(ArtifactError::ManifestDiffers),
                        },
                    }
                }
            },
        }
    }
}

/// What a selected capture's manifest says of a member.
pub open spec fn member_of(
    selected: Seq<SelectedCapture>,
    input: Seq<char>,
    revision: Seq<char>,
    manifest: Seq<u8>,
    detail: CaptureDetail,
    request: ArtifactRequestModel,
) -> Result<ArtifactDescriptorModel, ArtifactError> {
    match support::first_where(selected, selected_as(revision)) {
        None => Err(ArtifactError::CaptureExcluded),
        Some(j) => if selected[j].manifest_blake3@ != outside::blake3_hex(manifest) {
            Err(ArtifactError::ManifestDigest)
        } else if request.member_index >= detail.manifest.artifacts@.len() {
            Err(ArtifactError::MemberUnknown)
        } else {
            let artifact = detail.manifest.artifacts@[request.member_index as int]@;
            let d = ArtifactDescriptorModel {
                protocol: 1,
                request,
                selected_input: input,
                capture_revision: revision,
                manifest_blake3: outside::blake3_hex(manifest),
                artifact,
            };
            if !outside::digest_text(artifact.blake3) {
                Err(ArtifactError::DigestShape)
            } else if artifact.revision.bytes != request.mapping.copy_identity.bytes {
                Err(ArtifactError::LengthDiffers)
            } else {
                match encoded_descriptor(d) {
                    Err(e) => Err(e),
                    Ok(_) => Ok(d),
                }
            }
        },
    }
}

fn find_descriptor(r: &Retained, files: &FileMetadata, request: &ArtifactRequest) -> (out: Result<
    ArtifactDescriptor,
    ArtifactError,
>)
    ensures
        match descriptor_of(r@, files@, request@) {
            Err(e) => out == Err::<ArtifactDescriptor, ArtifactError>(e),
            Ok(d) => out matches Ok(found) && found@ == d,
        },
{
    reveal(descriptor_of);
    if !is_member_bounded(request) {
        return Err(ArtifactError::MemberBounds);
    }
    let i: usize = match r.find_record(request.retained_capture_record) {
        None => return Err(ArtifactError::Retained(MigrationError::RecordMissing)),
        Some(i) => i,
    };
    let rec = &r.records[i];
    if rec.collection != Collection::Captures {
        return Err(ArtifactError::AuthorityKind);
    }
    let bytes: Vec<u8> = match rec.read_bytes("manifest", MANIFEST_BYTES) {
        Err(e) => return Err(ArtifactError::Retained(e)),
        Ok(bytes) => bytes,
    };
    let detail: &CaptureDetail = match &rec.detail {
        Detail::Capture(detail) => detail,
        _ => return Err(ArtifactError::ManifestDiffers),
    };
    if !is_of_capture(detail, rec.revision.as_str()) {
        return Err(ArtifactError::ManifestDiffers);
    }
    let k: usize = match files.find_seal(rec.input.as_str()) {
        None => return Err(ArtifactError::Retained(MigrationError::SealMissing)),
        Some(k) => k,
    };
    let selected = &files.seals[k].selected;
    let j: usize = match find_selected(selected, rec.revision.as_str()) {
        None => return Err(ArtifactError::CaptureExcluded),
        Some(j) => j,
    };
    let digest: String = blake3_digest(bytes.as_slice());
    if !same(selected[j].manifest_blake3.as_str(), digest.as_str()) {
        return Err(ArtifactError::ManifestDigest);
    }
    if request.member_index >= detail.manifest.artifacts.len() {
        return Err(ArtifactError::MemberUnknown);
    }
    let artifact = &detail.manifest.artifacts[request.member_index];
    if !is_digest(artifact.blake3.as_str()) {
        return Err(ArtifactError::DigestShape);
    }
    if artifact.revision.bytes != request.mapping.copy_identity.bytes {
        return Err(ArtifactError::LengthDiffers);
    }
    let d: ArtifactDescriptor = ArtifactDescriptor {
        protocol: 1,
        request: request.copied(),
        selected_input: rec.input.clone(),
        capture_revision: rec.revision.clone(),
        manifest_blake3: digest,
        artifact: artifact.copied(),
    };
    match encode_descriptor(&d) {
        Err(e) => Err(e),
        Ok(_) => Ok(d),
    }
}

/// The custody of a member: none, the same, or one that has to be reconciled.
pub open spec fn existing_custody(
    rows: Seq<CustodyModel>,
    encoded: Seq<u8>,
    record: i64,
    member: usize,
) -> Result<Option<Seq<char>>, ArtifactError> {
    match support::first_where(rows, custody_of(record, member)) {
        None => Ok(None),
        Some(i) => if support::byte_length(rows[i].evidence) != IDENTITY_BYTES {
            Err(ArtifactError::EvidenceShape)
        } else if rows[i].encoded == encoded {
            Ok(Some(rows[i].evidence))
        } else {
            Err(ArtifactError::CustodyDiffers)
        },
    }
}

fn existing(a: &Artifacts, encoded: &[u8], record: i64, member: usize) -> (r: Result<
    Option<String>,
    ArtifactError,
>)
    ensures
        match existing_custody(a@, encoded@, record, member) {
            Err(e) => r == Err::<Option<String>, ArtifactError>(e),
            Ok(found) => r matches Ok(id) && support::text_of(id) == found,
        },
{
    match a.find_custody(record, member) {
        None => Ok(None),
        Some(i) => {
            if byte_len(a.rows[i].evidence.as_str()) != IDENTITY_BYTES {
                return Err(ArtifactError::EvidenceShape);
            }
            if same_bytes(a.rows[i].encoded.as_slice(), encoded) {
                Ok(Some(a.rows[i].evidence.clone()))
            } else {
                Err(ArtifactError::CustodyDiffers)
            }
        },
    }
}

/// What a catalog says of a member that is not, or not otherwise, in custody.
pub open spec fn reader_descriptor(c: Catalog, request: ArtifactRequestModel) -> Result<
    ArtifactDescriptorModel,
    ArtifactError,
> {
    match descriptor_of(c.migration.retained@, c.migration.files@, request) {
        Err(e) => Err(e),
        Ok(d) => match encoded_descriptor(d) {
            Err(e) => Err(e),
            Ok(encoded) => match existing_custody(
                c.migration.artifacts@,
                encoded,
                request.retained_capture_record,
                request.member_index,
            ) {
                Err(e) => Err(e),
                Ok(_) => Ok(d),
            },
        },
    }
}

/// Why a catalog refuses a reader.
pub open spec fn authority_refusal(c: Catalog, reader: ReaderModel) -> Option<ArtifactError> {
    let request = reader.descriptor.request;
    match descriptor_of(c.migration.retained@, c.migration.files@, request) {
        Err(e) => Some(e),
        Ok(d) => match encoded_descriptor(d) {
            Err(e) => Some(e),
            Ok(encoded) => if encoded != reader.encoded {
                Some(ArtifactError::AuthorityDiffers)
            } else {
                match existing_custody(
                    c.migration.artifacts@,
                    encoded,
                    request.retained_capture_record,
                    request.member_index,
                ) {
                    Err(e) => Some(e),
                    Ok(_) => None,
                }
            },
        },
    }
}

/// The custody with one more row, unless its member or its payload has one.
pub open spec fn with_custody(rows: Seq<CustodyModel>, row: CustodyModel) -> Seq<CustodyModel> {
    if support::first_where(rows, custody_of(row.retained_capture_record, row.member_index)) is Some
        || support::first_where(rows, custody_in(row.evidence)) is Some {
        rows
    } else {
        rows.push(row)
    }
}

/// The row of a reader's payload.
pub open spec fn custody_row(reader: ReaderModel, evidence: Seq<char>) -> CustodyModel {
    CustodyModel {
        retained_capture_record: reader.descriptor.request.retained_capture_record,
        member_index: reader.descriptor.request.member_index,
        descriptor: reader.descriptor,
        encoded: reader.encoded,
        evidence,
    }
}

/// How beginning the custody of a copy changes a catalog, and what it gives.
pub open spec fn custody_begun(
    before: Catalog,
    after: Catalog,
    reader: ReaderModel,
    unchanged: bool,
    out: Result<EvidenceState, ArtifactError>,
) -> bool {
    let length = reader.descriptor.artifact.revision.bytes;
    let id = evidence::initial_manifest_text(reader.encoded, length);
    if reader.poisoned || !unchanged {
        out == Err::<EvidenceState, ArtifactError>(ArtifactError::Invalidated) && after == before
    } else {
        match authority_refusal(before, reader) {
            Some(e) => out == Err::<EvidenceState, ArtifactError>(e) && after == before,
            None => match before.evidence.begin_refusal(reader.encoded, length) {
                Some(e) => out == Err::<EvidenceState, ArtifactError>(ArtifactError::Evidence(e))
                    && after == before,
                None => {
                    &&& out matches Ok(state) && after.evidence.row_of(id) matches Some(i)
                        && state.of(after.evidence.rows@[i])
                    &&& if before.evidence.row_of(id) is Some {
                        after.evidence == before.evidence
                    } else {
                        before.evidence.declared(after.evidence, reader.encoded, length)
                    }
                    &&& after.migration.artifacts@ == with_custody(
                        before.migration.artifacts@,
                        custody_row(reader, id),
                    )
                },
            },
        }
    }
}

/// How taking in the next chunk of a copy changes a catalog, and what it gives.
pub open spec fn custody_stepped(
    before: Catalog,
    after: Catalog,
    reader: ReaderModel,
    unchanged: bool,
    stopped: bool,
    bytes: Seq<u8>,
    out: Result<EvidenceState, ArtifactError>,
) -> bool {
    let request = reader.descriptor.request;
    if reader.poisoned || !unchanged {
        out == Err::<EvidenceState, ArtifactError>(ArtifactError::Invalidated) && after == before
    } else if stopped {
        out == Err::<EvidenceState, ArtifactError>(ArtifactError::Stopped) && after == before
    } else {
        match existing_custody(
            before.migration.artifacts@,
            reader.encoded,
            request.retained_capture_record,
            request.member_index,
        ) {
            Err(e) => out == Err::<EvidenceState, ArtifactError>(e) && after == before,
            Ok(None) => out == Err::<EvidenceState, ArtifactError>(ArtifactError::CustodyMissing)
                && after == before,
            Ok(Some(id)) => match before.evidence.row_of(id) {
                None => out == Err::<EvidenceState, ArtifactError>(
                    ArtifactError::Evidence(EvidenceError::Unknown),
                ) && after == before,
                Some(i) => chunk_taken(before, after, reader, id, i, bytes, out),
            },
        }
    }
}

/// How taking in a chunk of a payload changes a catalog, and what it gives.
pub open spec fn chunk_taken(
    before: Catalog,
    after: Catalog,
    reader: ReaderModel,
    id: Seq<char>,
    i: int,
    bytes: Seq<u8>,
    out: Result<EvidenceState, ArtifactError>,
) -> bool {
    let row = before.evidence.rows@[i];
    if row.complete {
        after == before && (out matches Ok(state) && state.of(row))
    } else {
        match chunk_at(reader, row.committed) {
            Err(e) => out == Err::<EvidenceState, ArtifactError>(e) && after == before,
            Ok(n) => if bytes.len() != n {
                out == Err::<EvidenceState, ArtifactError>(ArtifactError::ChunkLength) && after
                    == before
            } else if n == 0 || n > CHUNK_BYTES {
                out == Err::<EvidenceState, ArtifactError>(
                    ArtifactError::Evidence(EvidenceError::ChunkSize),
                ) && after == before
            } else if outside::zlib_stream(evidence::CHUNK_LEVEL, bytes) is None {
                out == Err::<EvidenceState, ArtifactError>(
                    ArtifactError::Evidence(EvidenceError::Compression),
                ) && after == before
            } else {
                exists|chunk: PreparedChunk| #[trigger]
                    chunk.prepared_from(bytes) && match out {
                        Err(e) => after == before && e is Evidence
                            && before.evidence.append_refusal(id, row.committed, chunk) == Some(
                            e->Evidence_0,
                        ),
                        Ok(state) => {
                            &&& before.evidence.append_refusal(id, row.committed, chunk) is None
                            &&& before.evidence.appended(after.evidence, id, row.committed, chunk)
                            &&& after.evidence.row_of(id) == Some(i)
                            &&& state.of(after.evidence.rows@[i])
                        },
                    }
            },
        }
    }
}

impl Catalog {
    /// What the catalog says of a member, without opening its copy.
    pub fn migration_artifact_reader_descriptor(&self, request: &ArtifactRequest) -> (r: Result<
        ArtifactDescriptor,
        ArtifactError,
    >)
        ensures
            match reader_descriptor(*self, request@) {
                Err(e) => r == Err::<ArtifactDescriptor, ArtifactError>(e),
                Ok(d) => r matches Ok(found) && found@ == d,
            },
    {
        let d: ArtifactDescriptor = match find_descriptor(
            &self.migration.retained,
            &self.migration.files,
            request,
        ) {
            Err(e) => return Err(e),
            Ok(d) => d,
        };
        let encoded: Vec<u8> = match encode_descriptor(&d) {
            Err(e) => return Err(e),
            Ok(encoded) => encoded,
        };
        match existing(
            &self.migration.artifacts,
            encoded.as_slice(),
            request.retained_capture_record,
            request.member_index,
        ) {
            Err(e) => Err(e),
            Ok(_) => Ok(d),
        }
    }

    /// The reader of a member's copy that was opened and read.
    pub fn open_migration_artifact(
        &self,
        request: &ArtifactRequest,
        limits: ArtifactLimits,
        stopped: bool,
        opened: &FileIdentity,
        key: FileKey,
        content: &ContentCheck,
    ) -> (r: Result<ArtifactReader, ArtifactError>)
        ensures
            match limits.refusal() {
                Some(e) => r == Err::<ArtifactReader, ArtifactError>(e),
                None => if stopped {
                    r == Err::<ArtifactReader, ArtifactError>(ArtifactError::Stopped)
                } else {
                    match reader_descriptor(*self, request@) {
                        Err(e) => r == Err::<ArtifactReader, ArtifactError>(e),
                        Ok(d) => match opening_refusal(d, limits, false, 0) {
                            Some(e) => r == Err::<ArtifactReader, ArtifactError>(e),
                            None => match opened_refusal(
                                d,
                                Seq::empty(),
                                opened@,
                                key,
                                *content,
                            ) {
                                Some(e) => r == Err::<ArtifactReader, ArtifactError>(e),
                                None => r matches Ok(reader) && reader@.descriptor == d
                                    && reader@.limits == limits && !reader@.poisoned
                                    && encoded_descriptor(d) == Ok::<Seq<u8>, ArtifactError>(
                                    reader@.encoded,
                                ),
                            },
                        },
                    }
                },
            },
    {
        match limits.validate() {
            Err(e) => return Err(e),
            Ok(()) => {},
        }
        if stopped {
            return Err(ArtifactError::Stopped);
        }
        let d: ArtifactDescriptor = match self.migration_artifact_reader_descriptor(request) {
            Err(e) => return Err(e),
            Ok(d) => d,
        };
        let protected: Vec<FileKey> = Vec::new();
        assert(protected@ =~= Seq::<FileKey>::empty());
        ArtifactReader::open_descriptor(d, limits, stopped, &protected, opened, key, content)
    }

    /// Takes a member's copy into custody, or finds it where it was.
    pub fn begin_migration_artifact(&mut self, reader: &mut ArtifactReader, unchanged: bool) -> (out:
        Result<EvidenceState, ArtifactError>)
        ensures
            final(self).custody_only(*old(self)),
            final(reader)@ == (ReaderModel {
                poisoned: old(reader)@.poisoned || !unchanged,
                ..old(reader)@
            }),
            custody_begun(*old(self), *final(self), old(reader)@, unchanged, out),
    {
        match reader.verify(unchanged) {
            Err(e) => return Err(e),
            Ok(()) => {},
        }
        let request = &reader.descriptor.request;
        let d: ArtifactDescriptor = match find_descriptor(
            &self.migration.retained,
            &self.migration.files,
            request,
        ) {
            Err(e) => return Err(e),
            Ok(d) => d,
        };
        let encoded: Vec<u8> = match encode_descriptor(&d) {
            Err(e) => return Err(e),
            Ok(encoded) => encoded,
        };
        if !same_bytes(encoded.as_slice(), reader.encoded.as_slice()) {
            return Err(ArtifactError::AuthorityDiffers);
        }
        match existing(
            &self.migration.artifacts,
            encoded.as_slice(),
            request.retained_capture_record,
            request.member_index,
        ) {
            Err(e) => return Err(e),
            Ok(_) => {},
        }
        let length: u64 = reader.descriptor.artifact.revision.bytes;
        let state: EvidenceState = match self.evidence.begin(reader.encoded.as_slice(), length) {
            Err(e) => return Err(ArtifactError::Evidence(e)),
            Ok(state) => state,
        };
        proof {
            support::lemma_first_where(
                self.evidence.rows@,
                evidence::with_id(evidence::initial_manifest_text(reader.encoded@, length)),
            );
        }
        let free: bool = self.migration.artifacts.find_custody(
            request.retained_capture_record,
            request.member_index,
        ).is_none() && self.migration.artifacts.find_evidence(state.id.as_str()).is_none();
        if free {
            let ghost before = self.migration.artifacts@;
            let row: ArtifactRow = ArtifactRow {
                retained_capture_record: request.retained_capture_record,
                member_index: request.member_index,
                descriptor: reader.descriptor.copied(),
                encoded: copy_bytes(reader.encoded.as_slice()),
                evidence: state.id.clone(),
            };
            self.migration.artifacts.rows.push(row);
            assert(self.migration.artifacts@ =~= before.push(row@));
        }
        Ok(state)
    }

    /// Takes in the next chunk of a member's copy, read where its custody goes on. A
    /// complete payload stays as it is.
    pub fn step_migration_artifact(
        &mut self,
        reader: &mut ArtifactReader,
        unchanged: bool,
        stopped: bool,
        bytes: &[u8],
    ) -> (out: Result<EvidenceState, ArtifactError>)
        ensures
            final(self).evidence_only(*old(self)),
            final(reader)@ == (ReaderModel {
                poisoned: old(reader)@.poisoned || !unchanged,
                ..old(reader)@
            }),
            custody_stepped(
                *old(self),
                *final(self),
                old(reader)@,
                unchanged,
                stopped,
                bytes@,
                out,
            ),
    {
        match reader.verify(unchanged) {
            Err(e) => return Err(e),
            Ok(()) => {},
        }
        if stopped {
            return Err(ArtifactError::Stopped);
        }
        let request = &reader.descriptor.request;
        let id: String = match existing(
            &self.migration.artifacts,
            reader.encoded.as_slice(),
            request.retained_capture_record,
            request.member_index,
        ) {
            Err(e) => return Err(e),
            Ok(None) => return Err(ArtifactError::CustodyMissing),
            Ok(Some(id)) => id,
        };
        let before: EvidenceState = match self.evidence.state(id.as_str()) {
            Err(e) => return Err(ArtifactError::Evidence(e)),
            Ok(before) => before,
        };
        if before.complete {
            return Ok(before);
        }
        match reader.chunk_size(before.committed) {
            Err(e) => return Err(e),
            Ok(n) => {
                if bytes.len() != n {
                    return Err(ArtifactError::ChunkLength);
                }
            },
        }
        let chunk: PreparedChunk = match PreparedChunk::new(bytes) {
            Err(e) => return Err(ArtifactError::Evidence(e)),
            Ok(chunk) => chunk,
        };
        assert(chunk.prepared_from(bytes@));
        match self.evidence.append(id.as_str(), before.committed, &chunk) {
            Err(e) => Err(ArtifactError::Evidence(e)),
            Ok(state) => Ok(state),
        }
    }

    /// What is in custody of a member, and how far.
    pub fn migration_artifact(&self, retained_capture_record: i64, member_index: usize) -> (r: Result<
        (ArtifactDescriptor, EvidenceState),
        ArtifactError,
    >)
        ensures
            match custody_found(*self, retained_capture_record, member_index) {
                Err(e) => r == Err::<(ArtifactDescriptor, EvidenceState), ArtifactError>(e),
                Ok((d, i)) => r matches Ok((found, state)) && found@ == d && state.of(
                    self.evidence.rows@[i],
                ),
            },
    {
        let i: usize = match self.migration.artifacts.find_custody(
            retained_capture_record,
            member_index,
        ) {
            None => return Err(ArtifactError::CustodyMissing),
            Some(i) => i,
        };
        let row = &self.migration.artifacts.rows[i];
        if byte_len(row.evidence.as_str()) != IDENTITY_BYTES {
            return Err(ArtifactError::EvidenceShape);
        }
        match self.migration_evidence_descriptor(row.evidence.as_str()) {
            Err(e) => return Err(ArtifactError::Evidence(e)),
            Ok(bytes) => {
                if bytes.len() > DESCRIPTOR_LIMIT {
                    return Err(ArtifactError::Evidence(EvidenceError::DescriptorSize));
                }
                if !same_bytes(bytes.as_slice(), row.encoded.as_slice()) {
                    return Err(ArtifactError::CustodyDiffers);
                }
            },
        }
        match self.evidence.state(row.evidence.as_str()) {
            Err(e) => Err(ArtifactError::Evidence(e)),
            Ok(state) => Ok((row.descriptor.copied(), state)),
        }
    }
}

/// What is in custody of a member, and the row of its payload.
pub open spec fn custody_found(c: Catalog, record: i64, member: usize) -> Result<
    (ArtifactDescriptorModel, int),
    ArtifactError,
> {
    let rows = c.migration.artifacts@;
    match support::first_where(rows, custody_of(record, member)) {
        None => Err(ArtifactError::CustodyMissing),
        Some(k) => match c.evidence.row_of(rows[k].evidence) {
            _ if support::byte_length(rows[k].evidence) != IDENTITY_BYTES => Err(
                ArtifactError::EvidenceShape,
            ),
            None => Err(ArtifactError::Evidence(EvidenceError::Unknown)),
            Some(i) => if c.evidence.rows@[i].descriptor@.len() > DESCRIPTOR_LIMIT {
                Err(ArtifactError::Evidence(EvidenceError::DescriptorSize))
            } else if c.evidence.rows@[i].descriptor@ != rows[k].encoded {
                Err(ArtifactError::CustodyDiffers)
            } else {
                Ok((rows[k].descriptor, i))
            },
        },
    }
}

/// Once a member was taken into custody, the same copy finds that custody again, and
/// any other copy or origin is refused.
pub proof fn law_custody_stands(rows: Seq<CustodyModel>, reader: ReaderModel, id: Seq<char>, encoded: Seq<u8>)
    requires
        support::first_where(
            rows,
            custody_of(
                reader.descriptor.request.retained_capture_record,
                reader.descriptor.request.member_index,
            ),
        ) is None,
        support::first_where(rows, custody_in(id)) is None,
        support::byte_length(id) == IDENTITY_BYTES,
    ensures
        existing_custody(
            with_custody(rows, custody_row(reader, id)),
            encoded,
            reader.descriptor.request.retained_capture_record,
            reader.descriptor.request.member_index,
        ) == if encoded == reader.encoded {
            Ok::<Option<Seq<char>>, ArtifactError>(Some(id))
        } else {
            Err(ArtifactError::CustodyDiffers)
        },
{
    let row = custody_row(reader, id);
    support::lemma_pushed(
        rows,
        rows.push(row),
        custody_of(row.retained_capture_record, row.member_index),
    );
}

/// Only a selected capture gives authority: where the seal does not select the
/// capture of a record, or selects another manifest, nothing is said of a member.
pub proof fn law_only_selected_captures_give_authority(
    r: RetainedModel,
    files: FilesModel,
    request: ArtifactRequestModel,
)
    requires
        descriptor_of(r, files, request) is Ok,
    ensures
        ({
            let d = descriptor_of(r, files, request)->Ok_0;
            &&& r.record_of(request.retained_capture_record) matches Some(i) && r.records[i].collection
                == Collection::Captures && r.records[i].input == d.selected_input
                && r.records[i].revision == d.capture_revision
            &&& files.seal_at(d.selected_input) matches Some(k) && exists|j: int|
                0 <= j < files.seals[k].selected@.len() && (#[trigger] files.seals[k].selected@[j]).revision@
                    == d.capture_revision && files.seals[k].selected@[j].manifest_blake3@
                    == d.manifest_blake3
            &&& d.request == request
        }),
{
    reveal(descriptor_of);
    let i = r.record_of(request.retained_capture_record)->0;
    let rec = r.records[i];
    let k = files.seal_at(rec.input)->0;
    support::lemma_first_where(files.seals[k].selected@, selected_as(rec.revision));
}

} // verus!

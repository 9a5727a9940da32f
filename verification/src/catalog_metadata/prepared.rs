//! Preparation of an observation: its packets and interpretations, digested and
//! compressed before anything is stored.
use crate::catalog_metadata::documents;
use crate::catalog_metadata::documents::{
    describe_input, describe_merged, describe_packet, describe_projection, describe_provenance,
};
use crate::catalog_metadata::identity;
use crate::catalog_metadata::identity::revision_with_provenance;
use crate::catalog_metadata::store;
use crate::catalog_migration::retained::ByteRange;
use crate::copies::Copied;
use crate::error::CatalogError;
use crate::outside;
use crate::outside::{blake3_digest, zlib_compress};
use crate::support;
use crate::support::{copy_option, find, same};
use crate::tables;
use crate::tables::BlobRow;
use vstd::prelude::*;
use vstd::string::*;

verus! {

/// The most bytes of a packet.
pub const MAX_PACKET_BYTES: usize = 16777216;

/// The most packets, and the most parse inputs, of an observation.
pub const MAX_PACKETS: usize = 1024;

/// The most bytes of all packets, and of all parse inputs, of an observation.
pub const MAX_TOTAL_BYTES: u64 = 67108864;

/// The compression level of retained bytes.
pub const FAST: u32 = 1;

/// A packet as it was found.
#[derive(Clone, Debug)]
pub struct Packet {
    /// Where the packet was found, by name. `JpegMain` is the main packet of a JPEG
    /// file, which may lead to an extended one.
    pub container: String,
    pub bytes: Vec<u8>,
    pub blake3: String,
    /// Where its bytes stand in the file.
    pub ranges: Vec<ByteRange>,
    pub group: String,
    /// The attributes as a document.
    pub attributes: String,
}

/// The value an interpretation gives a field.
#[derive(Clone, Debug)]
pub struct PreparedValue {
    pub field: String,
    pub value: String,
    pub semantic_hash: Option<String>,
}

/// What a `PreparedValue` stands for.
#[verifier::ext_equal]
pub struct PreparedValueModel {
    pub field: Seq<char>,
    pub value: Seq<char>,
    pub semantic_hash: Option<Seq<char>>,
}

impl View for PreparedValue {
    type V = PreparedValueModel;

    open spec fn view(&self) -> PreparedValueModel {
        PreparedValueModel {
            field: self.field@,
            value: self.value@,
            semantic_hash: support::text_of(self.semantic_hash),
        }
    }
}

/// What interpreting bytes gave: a projection onto known fields.
#[derive(Clone, Debug)]
pub struct Projected {
    /// The values of the fields, in the order of the fields' names.
    pub fields: Vec<PreparedValue>,
    /// What else the projection says: the members that follow the fields in its
    /// document, each after a comma.
    pub rest: String,
    /// The projection names issues.
    pub flawed: bool,
}

impl Projected {
    /// The projection as a document.
    pub open spec fn document(self) -> Seq<char> {
        documents::projection_document(support::models(self.fields@), self.rest@)
    }

    fn describe(&self) -> (d: String)
        ensures
            d@ == self.document(),
    {
        describe_projection(&self.fields, self.rest.as_str())
    }
}

/// What interpreting a parse input gave.
#[derive(Clone, Debug)]
pub enum Reading {
    Projected(Projected),
    Failed(String),
    /// It would have taken up more bytes than there were.
    Limited { required: usize, available: usize },
    /// It was projected, but what its fields mean could not be told.
    Unclear,
}

/// What merging a main packet of a JPEG file with its extended packet gave.
#[derive(Clone, Debug)]
pub enum Merge {
    Merged { bytes: Vec<u8>, projected: Projected },
    Failed(String),
    /// It would have taken up more bytes than there were.
    Limited { required: usize, available: usize },
    /// It was merged, but could not be interpreted.
    Unclear,
}

/// What parsing a main packet of a JPEG file says of an extended one.
#[derive(Clone, Debug)]
pub enum Declared {
    /// Nothing, or the packet could not be parsed.
    Nothing,
    /// The identity of the extended packet.
    Extended(String),
    /// Parsing would have taken up more bytes than there were.
    Limited { required: usize, available: usize },
}

/// Bytes to interpret, with what interpreting them gave.
#[derive(Clone, Debug)]
pub struct ParseInput {
    pub bytes: Vec<u8>,
    pub blake3: String,
    pub packet_indices: Vec<usize>,
    /// How the input came from its packets, by name. `JpegExtendedReassembled` was put
    /// together from the portions of an extended packet of a JPEG file.
    pub transformation: String,
    pub group: String,
    /// The most bytes that the text of the input can take up.
    pub text_bound: usize,
    pub reading: Reading,
    /// The extended packet that the bytes declare.
    pub extended: Declared,
    /// What merging with that packet gave, where it was found.
    pub merge: Option<Merge>,
}

/// Everything found in a file.
#[derive(Clone, Debug)]
pub struct Inspection {
    pub file_length: u64,
    pub file_blake3: String,
    /// When the file was changed, in nanoseconds of the Unix epoch.
    pub modified: Option<u128>,
    pub status: String,
    /// The issues as a document.
    pub issues: String,
    /// The projection of what was not interpreted, as a document.
    pub blank: String,
    pub packets: Vec<Packet>,
    pub parse_inputs: Vec<ParseInput>,
}

/// A place that metadata is read from.
#[derive(Clone, Debug)]
pub struct Source {
    pub kind: String,
    /// The place in the platform's own form, or a stable key of an importer.
    pub locator: Vec<u8>,
    pub display: String,
    /// Ambiguous associations are retained but never selected silently.
    pub ambiguous: bool,
    /// The source's own provenance as a document.
    pub provenance: String,
}

/// A packet ready to be stored.
pub struct PreparedPacket {
    pub hash: String,
    pub descriptor: String,
}

/// What a `PreparedPacket` stands for.
#[verifier::ext_equal]
pub struct PreparedPacketModel {
    pub hash: Seq<char>,
    pub descriptor: Seq<char>,
}

impl View for PreparedPacket {
    type V = PreparedPacketModel;

    open spec fn view(&self) -> PreparedPacketModel {
        PreparedPacketModel {
            hash: self.hash@,
            descriptor: self.descriptor@,
        }
    }
}

/// An interpretation ready to be stored.
pub struct PreparedModel {
    pub hash: String,
    pub descriptor: String,
    /// The projection as a document.
    pub projection: String,
    pub fields: Vec<PreparedValue>,
    pub error: Option<String>,
    pub flawed: bool,
}

/// What a `PreparedModel` stands for.
#[verifier::ext_equal]
pub struct PreparedModelModel {
    pub hash: Seq<char>,
    pub descriptor: Seq<char>,
    pub projection: Seq<char>,
    pub fields: Seq<PreparedValueModel>,
    pub error: Option<Seq<char>>,
    pub flawed: bool,
}

impl View for PreparedModel {
    type V = PreparedModelModel;

    open spec fn view(&self) -> PreparedModelModel {
        PreparedModelModel {
            hash: self.hash@,
            descriptor: self.descriptor@,
            projection: self.projection@,
            fields: support::models(self.fields@),
            error: support::text_of(self.error),
            flawed: self.flawed,
        }
    }
}

/// An observation ready to be stored.
pub struct Prepared {
    pub revision: String,
    pub status: String,
    pub issues: String,
    pub provenance: String,
    pub source_provenance: String,
    pub file_length: u64,
    pub file_blake3: String,
    pub modified: Option<u128>,
    pub blobs: Vec<BlobRow>,
    pub packets: Vec<PreparedPacket>,
    pub models: Vec<PreparedModel>,
}

/// What a `Prepared` stands for.
#[verifier::ext_equal]
pub struct PreparedObservation {
    pub revision: Seq<char>,
    pub status: Seq<char>,
    pub issues: Seq<char>,
    pub provenance: Seq<char>,
    pub source_provenance: Seq<char>,
    pub file_length: u64,
    pub file_blake3: Seq<char>,
    pub modified: Option<u128>,
    pub blobs: Seq<tables::BlobModel>,
    pub packets: Seq<PreparedPacketModel>,
    pub models: Seq<PreparedModelModel>,
}

impl View for Prepared {
    type V = PreparedObservation;

    open spec fn view(&self) -> PreparedObservation {
        PreparedObservation {
            revision: self.revision@,
            status: self.status@,
            issues: self.issues@,
            provenance: self.provenance@,
            source_provenance: self.source_provenance@,
            file_length: self.file_length,
            file_blake3: self.file_blake3@,
            modified: self.modified,
            blobs: support::models(self.blobs@),
            packets: support::models(self.packets@),
            models: support::models(self.models@),
        }
    }
}

/// The bytes of packets taken together.
pub open spec fn packet_bytes(packets: Seq<Packet>) -> nat
    decreases packets.len(),
{
    if packets.len() == 0 {
        0
    } else {
        packet_bytes(packets.drop_last()) + packets.last().bytes@.len()
    }
}

/// The bytes of parse inputs taken together.
pub open spec fn input_bytes(inputs: Seq<ParseInput>) -> nat
    decreases inputs.len(),
{
    if inputs.len() == 0 {
        0
    } else {
        input_bytes(inputs.drop_last()) + inputs.last().bytes@.len()
    }
}

/// What a main packet's declaration of an extended one leads to.
#[derive(Clone, Copy, Debug, PartialEq, Eq, Structural)]
pub enum Association {
    /// It declares none, or is no main packet.
    Unrelated,
    /// There is no such packet, or more than one.
    Unresolved,
    /// It belongs with the input at this position.
    Joined(usize),
}

impl ParseInput {
    /// The input was put together from the portions of an extended packet.
    pub open spec fn is_extension(self) -> bool {
        self.transformation@ == "JpegExtendedReassembled"@
    }

    pub(crate) fn extends_another(&self) -> (r: bool)
        ensures
            r == self.is_extension(),
    {
        same(self.transformation.as_str(), "JpegExtendedReassembled")
    }
}

impl Inspection {
    /// Bytes are those of a packet, of what was read, or of what was merged.
    pub open spec fn holds(self, bytes: Seq<u8>) -> bool {
        ||| exists|i: int| 0 <= i < self.packets@.len() && (#[trigger] self.packets@[i]).bytes@ == bytes
        ||| exists|i: int|
            0 <= i < self.parse_inputs@.len() && ((#[trigger] self.parse_inputs@[i]).bytes@ == bytes
                || (self.parse_inputs@[i].merge matches Some(Merge::Merged { bytes: merged, .. })
                && merged@ == bytes))
    }

    /// All byte strings that are retained of what was found in a file.
    pub open spec fn contents(self) -> Set<Seq<u8>> {
        Set::new(|bytes: Seq<u8>| self.holds(bytes))
    }

    /// The packets and inputs are few and small enough to be retained.
    pub open spec fn admissible(self) -> Result<(), CatalogError> {
        if self.packets@.len() > MAX_PACKETS || self.parse_inputs@.len() > MAX_PACKETS {
            Err(CatalogError::PacketCount)
        } else if packet_bytes(self.packets@) > MAX_TOTAL_BYTES || input_bytes(self.parse_inputs@)
            > MAX_TOTAL_BYTES {
            Err(CatalogError::PacketBytes)
        } else {
            Ok(())
        }
    }

    /// A parse input holds the main packet of a JPEG file.
    pub open spec fn is_main(self, i: int) -> bool {
        exists|k: int|
            0 <= k < self.parse_inputs@[i].packet_indices@.len() && (
            #[trigger] self.parse_inputs@[i].packet_indices@[k]) < self.packets@.len()
                && self.packets@[self.parse_inputs@[i].packet_indices@[k] as int].container@
                == "JpegMain"@
    }

    /// Every packet that an input refers to is there.
    pub open spec fn packets_present(self, i: int) -> bool {
        forall|k: int|
            0 <= k < self.parse_inputs@[i].packet_indices@.len() ==> (
            #[trigger] self.parse_inputs@[i].packet_indices@[k]) < self.packets@.len()
    }

    /// An input is the extended packet that an input declares by its group.
    pub open spec fn extends(self, i: int, j: usize) -> bool {
        &&& j < self.parse_inputs@.len()
        &&& self.parse_inputs@[j as int].is_extension()
        &&& self.parse_inputs@[i].extended matches Declared::Extended(guid) && self.parse_inputs@[j as int].group@
            == extended_group(self.parse_inputs@[i].group@, guid@)
    }

    /// An input is the only extended packet that an input declares.
    pub open spec fn only_extension(self, i: int, j: usize) -> bool {
        self.extends(i, j) && forall|k: usize| #[trigger] self.extends(i, k) ==> k == j
    }

    /// What a main packet's declaration of an extended one leads to.
    pub open spec fn association(self, i: int) -> Association {
        if !self.is_main(i) || self.parse_inputs@[i].extended !is Extended {
            Association::Unrelated
        } else if exists|j: usize| #[trigger] self.only_extension(i, j) {
            Association::Joined(choose|j: usize| #[trigger] self.only_extension(i, j))
        } else {
            Association::Unresolved
        }
    }

    /// Some main packet is joined with this input.
    pub open spec fn joined(self, j: int) -> bool {
        exists|i: int|
            0 <= i < self.parse_inputs@.len() && #[trigger] self.association(i)
                == Association::Joined(j as usize)
    }
}

/// A lowercase letter of the alphabet made uppercase.
pub open spec fn uppercase(c: char) -> char {
    if 'a' <= c && c <= 'z' {
        ((c as u32) - 32) as char
    } else {
        c
    }
}

/// The text `mark` stands at a position.
pub open spec fn marked(s: Seq<char>, mark: Seq<char>, i: int) -> bool {
    0 <= i && i + mark.len() <= s.len() && s.subrange(i, i + mark.len()) == mark
}

/// What comes before the first `mark` in a text.
pub open spec fn before_mark(s: Seq<char>, mark: Seq<char>) -> Seq<char>
    decreases s.len(),
{
    if s.len() == 0 || marked(s, mark, 0) {
        Seq::empty()
    } else {
        seq![s[0]] + before_mark(s.skip(1), mark)
    }
}

/// The group of the extended packet that a main packet declares.
pub open spec fn extended_group(group: Seq<char>, guid: Seq<char>) -> Seq<char> {
    before_mark(group, ":main:"@) + ":extended:"@ + guid.map_values(|c: char| uppercase(c))
}

/// The blobs with these bytes among them.
pub open spec fn with_blob(blobs: Seq<tables::BlobModel>, bytes: Seq<u8>) -> Result<
    Seq<tables::BlobModel>,
    CatalogError,
> {
    let hash = outside::blake3_hex(bytes);
    if bytes.len() > MAX_PACKET_BYTES {
        Err(CatalogError::BlobBounds)
    } else if support::first_where(blobs, prepared_blob(hash)) is Some {
        Ok(blobs)
    } else {
        match outside::zlib_stream(FAST, bytes) {
            None => Err(CatalogError::CompressionFailed),
            Some(stream) => Ok(
                blobs.push(
                    tables::BlobModel {
                        hash,
                        raw_length: bytes.len() as i64,
                        compressed: stream,
                    },
                ),
            ),
        }
    }
}

/// Retained bytes can be read back: decoding gives as many bytes as there were,
/// with the digest that they are retained under.
pub open spec fn restores(b: tables::BlobModel) -> bool {
    &&& 0 <= b.raw_length <= MAX_PACKET_BYTES
    &&& outside::zlib_decoded(b.compressed, (b.raw_length + 1) as nat) matches Some((bytes, _))
        && bytes.len() == b.raw_length && outside::blake3_hex(bytes) == b.hash
}

/// All retained bytes can be read back.
pub open spec fn all_restore(blobs: Seq<tables::BlobModel>) -> bool {
    forall|i: int| 0 <= i < blobs.len() ==> restores(#[trigger] blobs[i])
}

/// These bytes are what retained bytes give back.
pub open spec fn gives(b: tables::BlobModel, bytes: Seq<u8>) -> bool {
    &&& b.raw_length == bytes.len() <= MAX_PACKET_BYTES
    &&& b.hash == outside::blake3_hex(bytes)
    &&& outside::zlib_decoded(b.compressed, bytes.len() + 1) == Some((bytes, b.compressed.len()))
}

/// Retained bytes all give back one or other of some byte strings.
pub open spec fn all_give(blobs: Seq<tables::BlobModel>, found: Set<Seq<u8>>) -> bool {
    forall|i: int|
        0 <= i < blobs.len() ==> exists|bytes: Seq<u8>|
            found.contains(bytes) && gives(#[trigger] blobs[i], bytes)
}

/// Retained bytes that give back some bytes can be read back.
pub proof fn law_given_bytes_can_be_read_back(blobs: Seq<tables::BlobModel>, found: Set<Seq<u8>>)
    requires
        all_give(blobs, found),
    ensures
        all_restore(blobs),
{
}

pub(crate) proof fn lemma_gives_more(
    before: Seq<tables::BlobModel>,
    after: Seq<tables::BlobModel>,
    bytes: Seq<u8>,
    found: Set<Seq<u8>>,
)
    requires
        all_give(before, found),
        found.contains(bytes),
        after == before || (after == before.push(after.last()) && gives(after.last(), bytes)),
    ensures
        all_give(after, found),
{
    assert forall|i: int| 0 <= i < after.len() implies exists|bytes: Seq<u8>|
        found.contains(bytes) && gives(#[trigger] after[i], bytes) by {
        if i < before.len() {
            assert(after[i] == before[i]);
        } else {
            assert(gives(after[i], bytes));
        }
    }
}

pub open spec fn prepared_blob(hash: Seq<char>) -> spec_fn(tables::BlobModel) -> bool {
    |b: tables::BlobModel| b.hash == hash
}

/// The blobs with the first `n` packets among them.
pub open spec fn packet_blobs(packets: Seq<Packet>, n: nat) -> Result<
    Seq<tables::BlobModel>,
    CatalogError,
>
    decreases n,
{
    if n == 0 {
        Ok(Seq::empty())
    } else {
        match packet_blobs(packets, (n - 1) as nat) {
            Err(e) => Err(e),
            Ok(blobs) => match with_blob(blobs, packets[n - 1].bytes@) {
                Err(e) => Err(e),
                Ok(after) => if outside::blake3_hex(packets[n - 1].bytes@) != packets[n
                    - 1].blake3@ {
                    Err(CatalogError::PacketDigest)
                } else {
                    Ok(after)
                },
            },
        }
    }
}

/// Why a reading is no observation of the bytes that were read, if it is none: a limit
/// that was met is not recorded as if the bytes could not be read.
pub open spec fn reading_refusal(reading: Reading) -> Option<CatalogError> {
    match reading {
        Reading::Limited { required, available } => Some(
            CatalogError::ResourceLimit { required, available },
        ),
        Reading::Unclear => Some(CatalogError::InterpretationFailed),
        _ => None,
    }
}

fn refuse_reading(reading: &Reading) -> (r: Option<CatalogError>)
    ensures
        r == reading_refusal(*reading),
{
    match reading {
        Reading::Limited { required, available } => Some(
            CatalogError::ResourceLimit { required: *required, available: *available },
        ),
        Reading::Unclear => Some(CatalogError::InterpretationFailed),
        _ => None,
    }
}

/// The blobs with all packets and the first `n` parse inputs among them.
pub open spec fn input_blobs(inspection: Inspection, n: nat) -> Result<
    Seq<tables::BlobModel>,
    CatalogError,
>
    decreases n,
{
    if n == 0 {
        packet_blobs(inspection.packets@, inspection.packets@.len())
    } else {
        match input_blobs(inspection, (n - 1) as nat) {
            Err(e) => Err(e),
            Ok(blobs) => if !inspection.packets_present(n - 1) {
                Err(CatalogError::PacketMissing)
            } else {
                let input = inspection.parse_inputs@[n - 1];
                match with_blob(blobs, input.bytes@) {
                    Err(e) => Err(e),
                    Ok(after) => if outside::blake3_hex(input.bytes@) != input.blake3@ {
                        Err(CatalogError::InputDigest)
                    } else {
                        match reading_refusal(input.reading) {
                            Some(e) => Err(e),
                            None => Ok(after),
                        }
                    },
                }
            },
        }
    }
}

/// Why a main packet is not merged with what it declares, where that refuses the whole
/// observation: a limit was met, or what was merged could not be interpreted.
pub open spec fn merge_refusal(inspection: Inspection, i: int) -> Option<CatalogError> {
    match (inspection.parse_inputs@[i].extended, inspection.association(i)) {
        (Declared::Limited { required, available }, _) => if inspection.is_main(i) {
            Some(CatalogError::ResourceLimit { required, available })
        } else {
            None
        },
        (_, Association::Joined(_)) => match inspection.parse_inputs@[i].merge {
            None => Some(CatalogError::MergeMissing),
            Some(Merge::Limited { required, available }) => Some(
                CatalogError::ResourceLimit { required, available },
            ),
            Some(Merge::Unclear) => Some(CatalogError::InterpretationFailed),
            _ => None,
        },
        _ => None,
    }
}

fn refuse_merge(inspection: &Inspection, i: usize) -> (r: Option<CatalogError>)
    requires
        i < inspection.parse_inputs@.len(),
    ensures
        r == merge_refusal(*inspection, i as int),
{
    match &inspection.parse_inputs[i].extended {
        Declared::Limited { required, available } => {
            if inspection.holds_main(i) {
                return Some(
                    CatalogError::ResourceLimit { required: *required, available: *available },
                );
            }
            return None;
        },
        _ => {},
    }
    match inspection.associate(i) {
        Association::Joined(_) => match &inspection.parse_inputs[i].merge {
            None => Some(CatalogError::MergeMissing),
            Some(Merge::Limited { required, available }) => Some(
                CatalogError::ResourceLimit { required: *required, available: *available },
            ),
            Some(Merge::Unclear) => Some(CatalogError::InterpretationFailed),
            _ => None,
        },
        _ => None,
    }
}

/// The model that is merged of a main input and its only extension: its descriptor
/// names the two, in this order, with the identity that joins them.
pub open spec fn merged_model(
    inspection: Inspection,
    i: int,
    e: int,
    bytes: Seq<u8>,
    projected: Projected,
) -> PreparedModelModel {
    PreparedModelModel {
        hash: outside::blake3_hex(bytes),
        descriptor: documents::merged_document(
            i as nat,
            e as nat,
            inspection.parse_inputs@[i].extended->Extended_0@,
            inspection.parse_inputs@[i].packet_indices@
                + inspection.parse_inputs@[e].packet_indices@,
        ),
        projection: projected.document(),
        fields: support::models(projected.fields@),
        error: None,
        flawed: projected.flawed,
    }
}

/// The blobs and the added models once the first `n` inputs were merged with the
/// extended packets they declare.
pub open spec fn merged_models(inspection: Inspection, n: nat) -> Result<
    (Seq<tables::BlobModel>, Seq<PreparedModelModel>),
    CatalogError,
>
    decreases n,
{
    if n == 0 {
        match input_blobs(inspection, inspection.parse_inputs@.len()) {
            Err(e) => Err(e),
            Ok(blobs) => Ok((blobs, Seq::empty())),
        }
    } else {
        match merged_models(inspection, (n - 1) as nat) {
            Err(e) => Err(e),
            Ok((blobs, models)) => match merge_refusal(inspection, n - 1) {
                Some(e) => Err(e),
                None => match (
                    inspection.association(n - 1),
                    inspection.parse_inputs@[n - 1].merge,
                ) {
                    (
                        Association::Joined(e),
                        Some(Merge::Merged { bytes, projected }),
                    ) => match with_blob(blobs, bytes@) {
                        Err(why) => Err(why),
                        Ok(after) => Ok(
                            (
                                after,
                                models.push(
                                    merged_model(inspection, n - 1, e as int, bytes@, projected),
                                ),
                            ),
                        ),
                    },
                    _ => Ok((blobs, models)),
                },
            },
        }
    }
}

/// Why an input's own interpretation is not offered, if it is not.
pub open spec fn fragment_error(inspection: Inspection, i: int) -> Option<Seq<char>> {
    if inspection.parse_inputs@[i].is_extension() {
        if inspection.joined(i) {
            Some("JPEG extended fragment; see associated main model"@)
        } else {
            Some(
                "unassociated JPEG extended fragment retained; explicit association review required"@,
            )
        }
    } else {
        match inspection.association(i) {
            Association::Unrelated => None,
            Association::Unresolved => Some(
                "JPEG extended XMP association is missing or ambiguous; original main packet retained"@,
            ),
            Association::Joined(_) => match inspection.parse_inputs@[i].merge {
                Some(Merge::Failed(reason)) => Some(
                    "JPEG main/extended reconciliation failed: "@ + reason@,
                ),
                _ => Some(
                    "JPEG main fragment; use the associated merged model for editing/export"@,
                ),
            },
        }
    }
}

/// The model of a parse input.
pub open spec fn input_model(inspection: Inspection, i: int) -> PreparedModelModel {
    let input = inspection.parse_inputs@[i];
    let hash = outside::blake3_hex(input.bytes@);
    match fragment_error(inspection, i) {
        Some(error) => PreparedModelModel {
            hash,
            descriptor: documents::input_document(input),
            projection: inspection.blank@,
            fields: Seq::empty(),
            error: Some(error),
            flawed: false,
        },
        None => match input.reading {
            Reading::Projected(projected) => PreparedModelModel {
                hash,
                descriptor: documents::input_document(input),
                projection: projected.document(),
                fields: support::models(projected.fields@),
                error: None,
                flawed: projected.flawed,
            },
            reading => PreparedModelModel {
                hash,
                descriptor: documents::input_document(input),
                projection: inspection.blank@,
                fields: Seq::empty(),
                error: match reading {
                    Reading::Failed(reason) => Some(reason@),
                    _ => None,
                },
                flawed: false,
            },
        },
    }
}

/// An observation with the revision that its identity gives it.
pub open spec fn sealed(p: PreparedObservation) -> Result<PreparedObservation, CatalogError> {
    match identity::own_revision(p) {
        None => Err(CatalogError::DocumentFailed),
        Some(revision) => Ok(PreparedObservation { revision, ..p }),
    }
}

/// What preparing an observation gives.
pub open spec fn prepare_outcome(inspection: Inspection, source: store::SourceRequest) -> Result<
    PreparedObservation,
    CatalogError,
> {
    match inspection.admissible() {
        Err(e) => Err(e),
        Ok(()) => match merged_models(inspection, inspection.parse_inputs@.len()) {
            Err(e) => Err(e),
            Ok((blobs, merged)) => sealed(
                PreparedObservation {
                    revision: Seq::empty(),
                    status: inspection.status@,
                    issues: inspection.issues@,
                    provenance: documents::provenance_document(inspection, source),
                    source_provenance: source.provenance,
                    file_length: inspection.file_length,
                    file_blake3: inspection.file_blake3@,
                    modified: inspection.modified,
                    blobs,
                    packets: Seq::new(
                        inspection.packets@.len(),
                        |i: int|
                            PreparedPacketModel {
                                hash: inspection.packets@[i].blake3@,
                                descriptor: documents::packet_document(inspection.packets@[i]),
                            },
                    ),
                    models: Seq::new(
                        inspection.parse_inputs@.len(),
                        |i: int| input_model(inspection, i),
                    ) + merged,
                },
            ),
        },
    }
}

fn chars_of(s: &str) -> (v: Vec<char>)
    ensures
        v@ == s@,
{
    let mut v: Vec<char> = Vec::new();
    for c in it: s.chars()
        invariant
            it.seq() == s@,
            v@ == s@.take(it.index() as int),
    {
        v.push(c);
        assert(s@.take(it.index() + 1) =~= s@.take(it.index() as int).push(c));
    }
    assert(s@.take(s@.len() as int) =~= s@);
    v
}

fn same_chars(a: &Vec<char>, b: &Vec<char>) -> (r: bool)
    ensures
        r == (a@ == b@),
{
    if a.len() != b.len() {
        return false;
    }
    let mut i: usize = 0;
    while i < a.len()
        invariant
            i <= a@.len(),
            a@.len() == b@.len(),
            forall|j: int| 0 <= j < i ==> a@[j] == b@[j],
        decreases a@.len() - i,
    {
        if a[i] != b[i] {
            return false;
        }
        i += 1;
    }
    assert(a@ =~= b@);
    true
}

fn is_marked(s: &Vec<char>, mark: &Vec<char>, i: usize) -> (r: bool)
    ensures
        r == marked(s@, mark@, i as int),
{
    if i > s.len() || mark.len() > s.len() - i {
        return false;
    }
    let n: usize = s.len();
    let mut k: usize = 0;
    while k < mark.len()
        invariant
            n == s@.len(),
            i + mark@.len() <= n,
            k <= mark@.len(),
            forall|j: int| 0 <= j < k ==> s@[i + j] == #[trigger] mark@[j],
        decreases mark@.len() - k,
    {
        if s[i + k] != mark[k] {
            assert(s@.subrange(i as int, i + mark@.len())[k as int] == s@[i + k]);
            return false;
        }
        k += 1;
    }
    assert(s@.subrange(i as int, i + mark@.len()) =~= mark@);
    true
}

proof fn lemma_before_mark(s: Seq<char>, mark: Seq<char>, n: int)
    requires
        0 <= n <= s.len(),
        forall|j: int| 0 <= j < n ==> !#[trigger] marked(s, mark, j),
        n == s.len() || marked(s, mark, n),
    ensures
        before_mark(s, mark) == s.take(n),
    decreases s.len(),
{
    if n == 0 {
        assert(s.take(0) =~= Seq::empty());
    } else {
        assert(!marked(s, mark, 0));
        let rest = s.skip(1);
        assert forall|j: int| 0 <= j implies #[trigger] marked(rest, mark, j) == marked(
            s,
            mark,
            j + 1,
        ) by {
            if j + mark.len() <= rest.len() {
                assert(rest.subrange(j, j + mark.len()) =~= s.subrange(j + 1, j + 1 + mark.len()));
            }
        }
        assert forall|j: int| 0 <= j < n - 1 implies !#[trigger] marked(rest, mark, j) by {
            assert(!marked(s, mark, j + 1));
        }
        lemma_before_mark(rest, mark, n - 1);
        assert(seq![s[0]] + rest.take(n - 1) =~= s.take(n));
    }
}

fn find_extended_group(group: &str, guid: &str) -> (target: Vec<char>)
    ensures
        target@ == extended_group(group@, guid@),
{
    let text: Vec<char> = chars_of(group);
    let mark: Vec<char> = chars_of(":main:");
    let mut target: Vec<char> = Vec::new();
    let mut i: usize = 0;
    while i < text.len() && !is_marked(&text, &mark, i)
        invariant
            i <= text@.len(),
            target@ == text@.take(i as int),
            forall|j: int| 0 <= j < i ==> !#[trigger] marked(text@, mark@, j),
        decreases text@.len() - i,
    {
        target.push(text[i]);
        assert(text@.take(i + 1) =~= text@.take(i as int).push(text@[i as int]));
        i += 1;
    }
    proof {
        lemma_before_mark(text@, mark@, i as int);
    }
    let ghost prefix = target@;
    let mut middle: Vec<char> = chars_of(":extended:");
    target.append(&mut middle);
    assert(target@ =~= prefix + ":extended:"@);
    let ghost stem = target@;
    let upper: Vec<char> = chars_of(guid);
    let mut k: usize = 0;
    while k < upper.len()
        invariant
            k <= upper@.len(),
            upper@ == guid@,
            target@ == stem + upper@.take(k as int).map_values(|c: char| uppercase(c)),
        decreases upper@.len() - k,
    {
        let c: char = upper[k];
        let u: char = if 'a' <= c && c <= 'z' {
            (c as u8 - 32) as char
        } else {
            c
        };
        assert(u == uppercase(c));
        target.push(u);
        assert(upper@.take(k + 1) =~= upper@.take(k as int).push(c));
        assert(target@ =~= stem + upper@.take(k + 1).map_values(|c: char| uppercase(c)));
        k += 1;
    }
    assert(upper@.take(k as int) =~= upper@);
    target
}

proof fn lemma_packet_bytes(packets: Seq<Packet>, n: int)
    requires
        0 <= n <= packets.len(),
    ensures
        packet_bytes(packets.take(n)) <= packet_bytes(packets),
    decreases packets.len() - n,
{
    if n < packets.len() {
        assert(packets.take(n + 1).drop_last() =~= packets.take(n));
        lemma_packet_bytes(packets, n + 1);
    } else {
        assert(packets.take(n) =~= packets);
    }
}

proof fn lemma_input_bytes(inputs: Seq<ParseInput>, n: int)
    requires
        0 <= n <= inputs.len(),
    ensures
        input_bytes(inputs.take(n)) <= input_bytes(inputs),
    decreases inputs.len() - n,
{
    if n < inputs.len() {
        assert(inputs.take(n + 1).drop_last() =~= inputs.take(n));
        lemma_input_bytes(inputs, n + 1);
    } else {
        assert(inputs.take(n) =~= inputs);
    }
}

impl Inspection {
    pub(crate) fn check_sizes(&self) -> (r: Result<(), CatalogError>)
        ensures
            r == self.admissible(),
    {
        if self.packets.len() > MAX_PACKETS || self.parse_inputs.len() > MAX_PACKETS {
            return Err(CatalogError::PacketCount);
        }
        let mut total: u64 = 0;
        let mut i: usize = 0;
        while i < self.packets.len()
            invariant
                i <= self.packets@.len() <= MAX_PACKETS,
                self.parse_inputs@.len() <= MAX_PACKETS,
                total == packet_bytes(self.packets@.take(i as int)),
                total <= MAX_TOTAL_BYTES,
            decreases self.packets@.len() - i,
        {
            let n: u64 = self.packets[i].bytes.len() as u64;
            proof {
                assert(self.packets@.take(i + 1).drop_last() =~= self.packets@.take(i as int));
                lemma_packet_bytes(self.packets@, i + 1);
            }
            if n > MAX_TOTAL_BYTES - total {
                return Err(CatalogError::PacketBytes);
            }
            total += n;
            i += 1;
        }
        assert(self.packets@.take(i as int) =~= self.packets@);
        let mut read: u64 = 0;
        let mut k: usize = 0;
        while k < self.parse_inputs.len()
            invariant
                k <= self.parse_inputs@.len() <= MAX_PACKETS,
                self.packets@.len() <= MAX_PACKETS,
                read == input_bytes(self.parse_inputs@.take(k as int)),
                read <= MAX_TOTAL_BYTES,
            decreases self.parse_inputs@.len() - k,
        {
            let n: u64 = self.parse_inputs[k].bytes.len() as u64;
            proof {
                assert(self.parse_inputs@.take(k + 1).drop_last() =~= self.parse_inputs@.take(
                    k as int,
                ));
                lemma_input_bytes(self.parse_inputs@, k + 1);
            }
            if n > MAX_TOTAL_BYTES - read {
                return Err(CatalogError::PacketBytes);
            }
            read += n;
            k += 1;
        }
        assert(self.parse_inputs@.take(k as int) =~= self.parse_inputs@);
        Ok(())
    }

    pub(crate) fn holds_main(&self, i: usize) -> (r: bool)
        requires
            i < self.parse_inputs@.len(),
        ensures
            r == self.is_main(i as int),
    {
        let indices = &self.parse_inputs[i].packet_indices;
        let mut k: usize = 0;
        while k < indices.len()
            invariant
                k <= indices@.len(),
                i < self.parse_inputs@.len(),
                *indices == self.parse_inputs@[i as int].packet_indices,
                forall|j: int|
                    0 <= j < k && (#[trigger] indices@[j]) < self.packets@.len()
                        ==> self.packets@[indices@[j] as int].container@ != "JpegMain"@,
            decreases indices@.len() - k,
        {
            let p: usize = indices[k];
            if p < self.packets.len() && same(self.packets[p].container.as_str(), "JpegMain") {
                assert(self.parse_inputs@[i as int].packet_indices@[k as int] == p);
                return true;
            }
            k += 1;
        }
        false
    }

    fn has_packets(&self, i: usize) -> (r: bool)
        requires
            i < self.parse_inputs@.len(),
        ensures
            r == self.packets_present(i as int),
    {
        let indices = &self.parse_inputs[i].packet_indices;
        let mut k: usize = 0;
        while k < indices.len()
            invariant
                k <= indices@.len(),
                i < self.parse_inputs@.len(),
                *indices == self.parse_inputs@[i as int].packet_indices,
                forall|j: int| 0 <= j < k ==> (#[trigger] indices@[j]) < self.packets@.len(),
            decreases indices@.len() - k,
        {
            if indices[k] >= self.packets.len() {
                assert(self.parse_inputs@[i as int].packet_indices@[k as int]
                    >= self.packets@.len());
                return false;
            }
            k += 1;
        }
        true
    }

    /// What a main packet's declaration of an extended one leads to.
    pub fn associate(&self, i: usize) -> (r: Association)
        requires
            i < self.parse_inputs@.len(),
        ensures
            r == self.association(i as int),
    {
        if !self.holds_main(i) {
            return Association::Unrelated;
        }
        let guid: &String = match &self.parse_inputs[i].extended {
            Declared::Extended(guid) => guid,
            _ => return Association::Unrelated,
        };
        let target: Vec<char> = find_extended_group(
            self.parse_inputs[i].group.as_str(),
            guid.as_str(),
        );
        let mut found: Option<usize> = None;
        let mut j: usize = 0;
        while j < self.parse_inputs.len()
            invariant
                i < self.parse_inputs@.len(),
                j <= self.parse_inputs@.len(),
                self.is_main(i as int),
                self.parse_inputs@[i as int].extended == Declared::Extended(*guid),
                target@ == extended_group(self.parse_inputs@[i as int].group@, guid@),
                match found {
                    None => forall|k: usize| k < j ==> !#[trigger] self.extends(i as int, k),
                    Some(f) => f < j && self.extends(i as int, f) && forall|k: usize|
                        k < j && #[trigger] self.extends(i as int, k) ==> k == f,
                },
            decreases self.parse_inputs@.len() - j,
        {
            if self.parse_inputs[j].extends_another() && same_chars(&chars_of(self.parse_inputs[j].group.as_str()), &target) {
                assert(self.extends(i as int, j));
                if let Some(f) = found {
                    assert forall|k: usize| !#[trigger] self.only_extension(i as int, k) by {
                        assert(self.extends(i as int, f));
                    }
                    return Association::Unresolved;
                }
                found = Some(j);
            } else {
                assert(!self.extends(i as int, j));
            }
            j += 1;
        }
        match found {
            None => {
                assert forall|k: usize| !#[trigger] self.only_extension(i as int, k) by {
                    assert(!self.extends(i as int, k));
                }
                Association::Unresolved
            },
            Some(f) => {
                assert(self.only_extension(i as int, f));
                Association::Joined(f)
            },
        }
    }

    fn is_joined(&self, j: usize) -> (r: bool)
        requires
            j < self.parse_inputs@.len(),
        ensures
            r == self.joined(j as int),
    {
        let mut i: usize = 0;
        while i < self.parse_inputs.len()
            invariant
                i <= self.parse_inputs@.len(),
                forall|k: int|
                    0 <= k < i ==> #[trigger] self.association(k) != Association::Joined(j),
            decreases self.parse_inputs@.len() - i,
        {
            match self.associate(i) {
                Association::Joined(f) => {
                    if f == j {
                        assert(self.association(i as int) == Association::Joined(j));
                        return true;
                    }
                },
                _ => {},
            }
            i += 1;
        }
        false
    }
}

pub(crate) fn add_blob(blobs: &mut Vec<BlobRow>, bytes: &[u8]) -> (r: Result<String, CatalogError>)
    ensures
        match with_blob(support::models(old(blobs)@), bytes@) {
            Ok(after) => r matches Ok(hash) && hash@ == outside::blake3_hex(bytes@)
                && support::models(final(blobs)@) == after,
            Err(e) => r == Err::<String, CatalogError>(e),
        },
        r is Ok ==> (support::models(final(blobs)@) == support::models(old(blobs)@) || (
        support::models(final(blobs)@) == support::models(old(blobs)@).push(
            support::models(final(blobs)@).last(),
        ) && gives(support::models(final(blobs)@).last(), bytes@))),
{
    if bytes.len() > MAX_PACKET_BYTES {
        return Err(CatalogError::BlobBounds);
    }
    let hash: String = blake3_digest(bytes);
    let test = |b: &BlobRow| -> (r: bool)
        ensures r == prepared_blob(hash@)(b@)
    {
        same(b.hash.as_str(), hash.as_str())
    };
    if find(blobs, test, Ghost(prepared_blob(hash@))).is_some() {
        return Ok(hash);
    }
    match zlib_compress(bytes, FAST) {
        None => Err(CatalogError::CompressionFailed),
        Some(stream) => {
            blobs.push(
                BlobRow {
                    hash: hash.clone(),
                    raw_length: bytes.len() as i64,
                    compressed: stream,
                },
            );
            assert(support::models(blobs@) =~= with_blob(
                support::models(old(blobs)@),
                bytes@,
            )->Ok_0);
            assert(gives(support::models(blobs@).last(), bytes@));
            Ok(hash)
        },
    }
}

fn copy_values(values: &Vec<PreparedValue>) -> (copy: Vec<PreparedValue>)
    ensures
        support::models(copy@) == support::models(values@),
{
    crate::copies::copy_rows(values)
}

impl Copied for PreparedValue {
    fn copied(&self) -> (c: Self) {
        PreparedValue {
            field: self.field.clone(),
            value: self.value.clone(),
            semantic_hash: copy_option(&self.semantic_hash),
        }
    }
}

fn find_fragment_error(inspection: &Inspection, i: usize) -> (r: Option<String>)
    requires
        i < inspection.parse_inputs@.len(),
    ensures
        support::text_of(r) == fragment_error(*inspection, i as int),
{
    if inspection.parse_inputs[i].extends_another() {
        if inspection.is_joined(i) {
            return Some("JPEG extended fragment; see associated main model".to_owned());
        }
        return Some(
            "unassociated JPEG extended fragment retained; explicit association review required".to_owned(),
        );
    }
    match inspection.associate(i) {
        Association::Unrelated => None,
        Association::Unresolved => Some(
            "JPEG extended XMP association is missing or ambiguous; original main packet retained".to_owned(),
        ),
        Association::Joined(_) => match &inspection.parse_inputs[i].merge {
            Some(Merge::Failed(reason)) => {
                let text: String = "JPEG main/extended reconciliation failed: ".to_owned();
                Some(text.concat(reason.as_str()))
            },
            _ => Some(
                "JPEG main fragment; use the associated merged model for editing/export".to_owned(),
            ),
        },
    }
}

fn make_model(inspection: &Inspection, i: usize, hash: String) -> (model: PreparedModel)
    requires
        i < inspection.parse_inputs@.len(),
        hash@ == outside::blake3_hex(inspection.parse_inputs@[i as int].bytes@),
    ensures
        model@ == input_model(*inspection, i as int),
{
    let input = &inspection.parse_inputs[i];
    let model: PreparedModel = match find_fragment_error(inspection, i) {
        Some(error) => PreparedModel {
            hash,
            descriptor: describe_input(input),
            projection: inspection.blank.clone(),
            fields: Vec::new(),
            error: Some(error),
            flawed: false,
        },
        None => match &input.reading {
            Reading::Projected(projected) => PreparedModel {
                hash,
                descriptor: describe_input(input),
                projection: projected.describe(),
                fields: copy_values(&projected.fields),
                error: None,
                flawed: projected.flawed,
            },
            reading => PreparedModel {
                hash,
                descriptor: describe_input(input),
                projection: inspection.blank.clone(),
                fields: Vec::new(),
                error: match reading {
                    Reading::Failed(reason) => Some(reason.clone()),
                    _ => None,
                },
                flawed: false,
            },
        },
    };
    assert(model@ =~= input_model(*inspection, i as int));
    model
}

proof fn lemma_packet_error(packets: Seq<Packet>, n: nat)
    requires
        n <= packets.len(),
        packet_blobs(packets, n) is Err,
    ensures
        packet_blobs(packets, packets.len()) == packet_blobs(packets, n),
    decreases packets.len() - n,
{
    if n < packets.len() {
        lemma_packet_error(packets, n + 1);
    }
}

proof fn lemma_input_error(inspection: Inspection, n: nat)
    requires
        n <= inspection.parse_inputs@.len(),
        input_blobs(inspection, n) is Err,
    ensures
        input_blobs(inspection, inspection.parse_inputs@.len()) == input_blobs(inspection, n),
    decreases inspection.parse_inputs@.len() - n,
{
    if n < inspection.parse_inputs@.len() {
        lemma_input_error(inspection, n + 1);
    }
}

proof fn lemma_merge_error(inspection: Inspection, n: nat)
    requires
        n <= inspection.parse_inputs@.len(),
        merged_models(inspection, n) is Err,
    ensures
        merged_models(inspection, inspection.parse_inputs@.len()) == merged_models(inspection, n),
    decreases inspection.parse_inputs@.len() - n,
{
    if n < inspection.parse_inputs@.len() {
        lemma_merge_error(inspection, n + 1);
    }
}

/// Digested inputs carry the digests they claim.
proof fn lemma_digests(inspection: Inspection, n: nat)
    requires
        n <= inspection.parse_inputs@.len(),
        input_blobs(inspection, n) is Ok,
    ensures
        forall|i: int|
            0 <= i < n ==> outside::blake3_hex((#[trigger] inspection.parse_inputs@[i]).bytes@)
                == inspection.parse_inputs@[i].blake3@,
    decreases n,
{
    if n > 0 {
        lemma_digests(inspection, (n - 1) as nat);
    }
}

/// Adds the packets, or says why they are refused.
fn add_packets(inspection: &Inspection, blobs: &mut Vec<BlobRow>) -> (r: Result<
    Vec<PreparedPacket>,
    CatalogError,
>)
    requires
        old(blobs)@.len() == 0,
    ensures
        match packet_blobs(inspection.packets@, inspection.packets@.len()) {
            Err(e) => r == Err::<Vec<PreparedPacket>, CatalogError>(e),
            Ok(after) => support::models(final(blobs)@) == after && (r matches Ok(packets)
                && support::models(packets@) == Seq::new(
                inspection.packets@.len(),
                |i: int|
                    PreparedPacketModel {
                        hash: inspection.packets@[i].blake3@,
                        descriptor: documents::packet_document(inspection.packets@[i]),
                    },
            )),
        },
        r is Ok ==> all_give(support::models(final(blobs)@), inspection.contents()),
{
    let ghost all = inspection.packets@;
    let mut packets: Vec<PreparedPacket> = Vec::new();
    let mut i: usize = 0;
    assert(support::models(blobs@) =~= Seq::<tables::BlobModel>::empty());
    while i < inspection.packets.len()
        invariant
            i <= inspection.packets@.len(),
            all_give(support::models(blobs@), inspection.contents()),
            all == inspection.packets@,
            packets@.len() == i,
            packet_blobs(all, i as nat) == Ok::<Seq<tables::BlobModel>, CatalogError>(
                support::models(blobs@),
            ),
            forall|j: int|
                0 <= j < i ==> (#[trigger] packets@[j])@ == (PreparedPacketModel {
                    hash: all[j].blake3@,
                    descriptor: documents::packet_document(all[j]),
                }),
        decreases inspection.packets@.len() - i,
    {
        let packet = &inspection.packets[i];
        let ghost before = support::models(blobs@);
        let hash: String = match add_blob(blobs, packet.bytes.as_slice()) {
            Err(e) => {
                proof {
                    assert(packet_blobs(all, (i + 1) as nat) == Err::<
                        Seq<tables::BlobModel>,
                        CatalogError,
                    >(e));
                    lemma_packet_error(all, (i + 1) as nat);
                }
                return Err(e);
            },
            Ok(hash) => hash,
        };
        if !same(hash.as_str(), packet.blake3.as_str()) {
            proof {
                assert(packet_blobs(all, (i + 1) as nat) == Err::<
                    Seq<tables::BlobModel>,
                    CatalogError,
                >(CatalogError::PacketDigest));
                lemma_packet_error(all, (i + 1) as nat);
            }
            return Err(CatalogError::PacketDigest);
        }
        proof {
            assert(inspection.contents().contains(packet.bytes@));
            lemma_gives_more(
                before,
                support::models(blobs@),
                packet.bytes@,
                inspection.contents(),
            );
        }
        packets.push(PreparedPacket { hash, descriptor: describe_packet(packet) });
        i += 1;
    }
    assert(support::models(packets@) =~= Seq::new(
        inspection.packets@.len(),
        |i: int|
            PreparedPacketModel {
                hash: inspection.packets@[i].blake3@,
                descriptor: documents::packet_document(inspection.packets@[i]),
            },
    ));
    Ok(packets)
}

fn add_inputs(inspection: &Inspection, blobs: &mut Vec<BlobRow>) -> (r: Result<
    Vec<PreparedModel>,
    CatalogError,
>)
    requires
        packet_blobs(inspection.packets@, inspection.packets@.len()) == Ok::<
            Seq<tables::BlobModel>,
            CatalogError,
        >(support::models(old(blobs)@)),
        all_give(support::models(old(blobs)@), inspection.contents()),
    ensures
        match input_blobs(*inspection, inspection.parse_inputs@.len()) {
            Err(e) => r == Err::<Vec<PreparedModel>, CatalogError>(e),
            Ok(after) => support::models(final(blobs)@) == after && (r matches Ok(models)
                && support::models(models@) == Seq::new(
                inspection.parse_inputs@.len(),
                |i: int| input_model(*inspection, i),
            )),
        },
        r is Ok ==> all_give(support::models(final(blobs)@), inspection.contents()),
{
    let mut models: Vec<PreparedModel> = Vec::new();
    let mut i: usize = 0;
    while i < inspection.parse_inputs.len()
        invariant
            i <= inspection.parse_inputs@.len(),
            all_give(support::models(blobs@), inspection.contents()),
            models@.len() == i,
            input_blobs(*inspection, i as nat) == Ok::<Seq<tables::BlobModel>, CatalogError>(
                support::models(blobs@),
            ),
            forall|j: int| 0 <= j < i ==> (#[trigger] models@[j])@ == input_model(*inspection, j),
        decreases inspection.parse_inputs@.len() - i,
    {
        let input = &inspection.parse_inputs[i];
        if !inspection.has_packets(i) {
            proof {
                assert(input_blobs(*inspection, (i + 1) as nat) == Err::<
                    Seq<tables::BlobModel>,
                    CatalogError,
                >(CatalogError::PacketMissing));
                lemma_input_error(*inspection, (i + 1) as nat);
            }
            return Err(CatalogError::PacketMissing);
        }
        let ghost before = support::models(blobs@);
        let hash: String = match add_blob(blobs, input.bytes.as_slice()) {
            Err(e) => {
                proof {
                    assert(input_blobs(*inspection, (i + 1) as nat) == Err::<
                        Seq<tables::BlobModel>,
                        CatalogError,
                    >(e));
                    lemma_input_error(*inspection, (i + 1) as nat);
                }
                return Err(e);
            },
            Ok(hash) => hash,
        };
        if !same(hash.as_str(), input.blake3.as_str()) {
            proof {
                assert(input_blobs(*inspection, (i + 1) as nat) == Err::<
                    Seq<tables::BlobModel>,
                    CatalogError,
                >(CatalogError::InputDigest));
                lemma_input_error(*inspection, (i + 1) as nat);
            }
            return Err(CatalogError::InputDigest);
        }
        proof {
            assert(inspection.contents().contains(input.bytes@));
            lemma_gives_more(
                before,
                support::models(blobs@),
                input.bytes@,
                inspection.contents(),
            );
        }
        match refuse_reading(&input.reading) {
            None => {},
            Some(e) => {
                proof {
                    assert(input_blobs(*inspection, (i + 1) as nat) == Err::<
                        Seq<tables::BlobModel>,
                        CatalogError,
                    >(e));
                    lemma_input_error(*inspection, (i + 1) as nat);
                }
                return Err(e);
            },
        }
        models.push(make_model(inspection, i, hash));
        i += 1;
    }
    assert(support::models(models@) =~= Seq::new(
        inspection.parse_inputs@.len(),
        |i: int| input_model(*inspection, i),
    ));
    Ok(models)
}

fn add_merges(inspection: &Inspection, blobs: &mut Vec<BlobRow>) -> (r: Result<
    Vec<PreparedModel>,
    CatalogError,
>)
    requires
        input_blobs(*inspection, inspection.parse_inputs@.len()) == Ok::<
            Seq<tables::BlobModel>,
            CatalogError,
        >(support::models(old(blobs)@)),
        all_give(support::models(old(blobs)@), inspection.contents()),
    ensures
        match merged_models(*inspection, inspection.parse_inputs@.len()) {
            Err(e) => r == Err::<Vec<PreparedModel>, CatalogError>(e),
            Ok((after, added)) => support::models(final(blobs)@) == after && (r matches Ok(models)
                && support::models(models@) == added),
        },
        r is Ok ==> all_give(support::models(final(blobs)@), inspection.contents()),
{
    let mut models: Vec<PreparedModel> = Vec::new();
    let mut i: usize = 0;
    assert(support::models(models@) =~= Seq::<PreparedModelModel>::empty());
    while i < inspection.parse_inputs.len()
        invariant
            i <= inspection.parse_inputs@.len(),
            all_give(support::models(blobs@), inspection.contents()),
            merged_models(*inspection, i as nat) == Ok::<
                (Seq<tables::BlobModel>, Seq<PreparedModelModel>),
                CatalogError,
            >((support::models(blobs@), support::models(models@))),
        decreases inspection.parse_inputs@.len() - i,
    {
        let ghost before = support::models(models@);
        match refuse_merge(inspection, i) {
            None => {},
            Some(e) => {
                proof {
                    assert(merged_models(*inspection, (i + 1) as nat) == Err::<
                        (Seq<tables::BlobModel>, Seq<PreparedModelModel>),
                        CatalogError,
                    >(e));
                    lemma_merge_error(*inspection, (i + 1) as nat);
                }
                return Err(e);
            },
        }
        let input = &inspection.parse_inputs[i];
        match (inspection.associate(i), &input.extended, &input.merge) {
            (
                Association::Joined(e),
                Declared::Extended(guid),
                Some(Merge::Merged { bytes, projected }),
            ) => {
                assert(e < inspection.parse_inputs@.len()) by {
                    assert(exists|j: usize| #[trigger] inspection.only_extension(i as int, j));
                }
                let ghost kept = support::models(blobs@);
                let hash: String = match add_blob(blobs, bytes.as_slice()) {
                    Err(e) => {
                        proof {
                            assert(merged_models(*inspection, (i + 1) as nat) == Err::<
                                (Seq<tables::BlobModel>, Seq<PreparedModelModel>),
                                CatalogError,
                            >(e));
                            lemma_merge_error(*inspection, (i + 1) as nat);
                        }
                        return Err(e);
                    },
                    Ok(hash) => hash,
                };
                proof {
                    assert(inspection.parse_inputs@[i as int].merge == input.merge);
                    assert(inspection.contents().contains(bytes@));
                    lemma_gives_more(
                        kept,
                        support::models(blobs@),
                        bytes@,
                        inspection.contents(),
                    );
                }
                let descriptor: String = describe_merged(
                    i,
                    e,
                    guid.as_str(),
                    &input.packet_indices,
                    &inspection.parse_inputs[e].packet_indices,
                );
                models.push(
                    PreparedModel {
                        hash,
                        descriptor,
                        projection: projected.describe(),
                        fields: copy_values(&projected.fields),
                        error: None,
                        flawed: projected.flawed,
                    },
                );
                assert(support::models(models@) =~= before.push(
                    merged_model(*inspection, i as int, e as int, bytes@, *projected),
                ));
            },
            _ => {},
        }
        i += 1;
    }
    Ok(models)
}

impl Prepared {
    /// Digests and compresses what was found in a file.
    pub fn new(inspection: &Inspection, source: &Source) -> (r: Result<Prepared, CatalogError>)
        ensures
            match prepare_outcome(*inspection, source@) {
                Ok(prepared) => r matches Ok(p) && p@ == prepared,
                Err(e) => r == Err::<Prepared, CatalogError>(e),
            },
            r matches Ok(p) ==> all_give(p@.blobs, inspection.contents()),
    {
        match inspection.check_sizes() {
            Err(e) => return Err(e),
            Ok(()) => {},
        }
        proof {
            if packet_blobs(inspection.packets@, inspection.packets@.len()) is Err {
                lemma_input_error(*inspection, 0);
            }
            if input_blobs(*inspection, inspection.parse_inputs@.len()) is Err {
                lemma_merge_error(*inspection, 0);
            }
        }
        let mut blobs: Vec<BlobRow> = Vec::new();
        let packets: Vec<PreparedPacket> = match add_packets(inspection, &mut blobs) {
            Err(e) => return Err(e),
            Ok(packets) => packets,
        };
        let mut models: Vec<PreparedModel> = match add_inputs(inspection, &mut blobs) {
            Err(e) => return Err(e),
            Ok(models) => models,
        };
        let mut merged: Vec<PreparedModel> = match add_merges(inspection, &mut blobs) {
            Err(e) => return Err(e),
            Ok(merged) => merged,
        };
        let ghost own = support::models(models@);
        let ghost added = support::models(merged@);
        models.append(&mut merged);
        assert(support::models(models@) =~= own + added);
        let mut prepared: Prepared = Prepared {
            revision: String::new(),
            status: inspection.status.clone(),
            issues: inspection.issues.clone(),
            provenance: describe_provenance(inspection, source),
            source_provenance: source.provenance.clone(),
            file_length: inspection.file_length,
            file_blake3: inspection.file_blake3.clone(),
            modified: inspection.modified,
            blobs,
            packets,
            models,
        };
        match prepared.seal() {
            Err(e) => Err(e),
            Ok(()) => Ok(prepared),
        }
    }

    /// Gives the observation the revision that its identity stands for.
    fn seal(&mut self) -> (r: Result<(), CatalogError>)
        ensures
            match sealed(old(self)@) {
                Ok(after) => r is Ok && final(self)@ == after,
                Err(e) => r == Err::<(), CatalogError>(e),
            },
    {
        match revision_with_provenance(
            &*self,
            self.provenance.as_str(),
            self.file_blake3.as_str(),
            self.file_length,
            self.modified,
        ) {
            None => Err(CatalogError::DocumentFailed),
            Some(revision) => {
                self.revision = revision;
                Ok(())
            },
        }
    }
}

} // verus!

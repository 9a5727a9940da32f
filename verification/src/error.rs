//! Why a catalog refuses a request.
use vstd::prelude::*;

verus! {

/// Why a catalog refuses a request.
#[derive(Clone, Copy, Debug, PartialEq, Eq, Structural)]
pub enum CatalogError {
    /// There is no such logical image.
    ImageNotFound,
    /// There is no such physical file.
    AssetNotFound,
    /// The image has not followed its shared sources yet.
    PendingRefresh,
    /// The image or its sources changed since their identity was taken.
    IdentityChanged,
    /// A page is empty, too large, or starts before the first row.
    PageBounds,
    /// Interpreting took up more bytes than there are.
    ResourceLimit { required: usize, available: usize },
    /// What was projected or merged could not be understood.
    InterpretationFailed,
    /// The batch limit is zero or too large.
    BatchLimit,
    /// A shared event does not follow the one an image applied last.
    EpochGap,
    /// There is no such observation.
    ObservationNotFound,
    /// There is no such source.
    SourceNotFound,
    /// The source belongs to another physical file.
    ForeignSource,
    /// The observation belongs to another physical file.
    ForeignObservation,
    /// The current observation is not in the image's history.
    ObservationOutsideHistory,
    /// There is a physical file with this identity already.
    AssetExists,
    /// There is an image with this identity or for this variant already.
    ImageExists,
    /// The names of a reservation are empty or too long.
    ReservationBounds,
    /// The physical file is reserved already.
    ReservationExists,
    /// A name in an import request is empty or too long.
    ImportBounds,
    /// Only masters and virtual images can be imported.
    ImportRole,
    /// The source record was imported before from other input or in another role.
    MappingChanged,
    /// The source record was imported before under another parent.
    ParentChanged,
    /// Only a master can claim a reserved image.
    ClaimRole,
    /// The reserved image is not the importer's, or is edited or mapped already.
    ClaimRefused,
    /// The parent belongs to another physical file.
    ForeignParent,
    /// The parent is not a master.
    ParentNotMaster,
    /// A virtual image needs a parent, and no other image has one.
    ParentRole,
    /// The image is mapped already.
    MappingExists,
    /// A name is empty, too long or holds NUL.
    ValueBounds,
    /// A provenance document is too long.
    ProvenanceBounds,
    /// A position is negative.
    NegativeOrder,
    /// There is no such collection.
    CollectionMissing,
    /// A collection cannot be its own parent.
    SelfParent,
    /// There is no such parent collection.
    ParentMissing,
    /// The collection would come to stand above itself.
    HierarchyCycle,
    /// The hierarchy of collections is too deep.
    HierarchyDepth,
    /// There is no such keyword.
    KeywordMissing,
    /// The source key stands for another relation already.
    RelationChanged,
    /// A stored position does not belong to any membership.
    MembershipDamaged,
    /// An observation has too many packets or parse inputs.
    PacketCount,
    /// An observation's packets or parse inputs are too large.
    PacketBytes,
    /// Bytes are too large to be retained.
    BlobBounds,
    /// Bytes could not be compressed.
    CompressionFailed,
    /// A document could not be written.
    DocumentFailed,
    /// A packet does not match its digest.
    PacketDigest,
    /// A parse input refers to a packet that is not there.
    PacketMissing,
    /// A parse input does not match its digest.
    InputDigest,
    /// A main packet was not merged with the extended packet it belongs with.
    MergeMissing,
    /// A source's kind is empty or too long, or its locator is too long.
    SourceBounds,
    /// A projected field has no identity of its meaning.
    SemanticsMissing,
    /// Nothing is retained under this digest.
    BlobMissing,
    /// Retained bytes claim an impossible size.
    BlobSize,
    /// A retained stream is too long.
    StreamSize,
    /// A retained stream cannot be decoded.
    StreamDamaged,
    /// Retained bytes do not match their size or their digest.
    BlobChecksum,
    /// A stored text is too long.
    RowBounds,
    /// An importer may store complete observations of confirmed sources only.
    ImportIncomplete,
    /// The metadata changed since it was looked at.
    RevisionChanged,
    /// The chosen model does not offer the field now.
    ChoiceInvalid,
    /// There is no such model in the image's history.
    ModelNotFound,
    /// The model cannot be edited or exported directly.
    ModelNotEditable,
    /// The observation is not in the image's history.
    ObservationForeign,
    /// An attempt is no canonical UUID.
    AttemptForm,
    /// An operation is no canonical UUID.
    OperationForm,
    /// A request digest is not in lowercase hexadecimal.
    DigestForm,
    /// There is no such kind of receipt.
    ReceiptKind,
    /// A receipt is too large.
    ReceiptBounds,
    /// The attempt belongs to another request, or was carried out already.
    AttemptTaken,
    /// There is no such planned export.
    PlanMissing,
    /// A planned export is too large.
    PlanBounds,
    /// There is a planned export for this operation already.
    PlanExists,
    /// The limits of an evidence document are out of bounds.
    EvidenceLimits,
    /// An observation has more packets than an evidence document takes.
    EvidencePackets,
    /// An evidence document would be too long.
    EvidenceBytes,
    /// A stored packet is damaged.
    PacketDamaged,
    /// A field's conflict has to be settled first.
    FieldConflicted,
    /// A field has no value or no model it comes from.
    FieldUnselected,
    /// A field that an organizing edit names could affect pixels.
    FieldAffectsPixels,
    /// A prepared edit belongs to another session.
    SessionForeign,
    /// An export does not hold a settled field.
    ExportMismatch,
    /// A recovery does not belong to the planned export.
    RecoveryForeign,
    /// A directory holds more entries than a scan takes.
    EntryLimit,
    /// An entry belongs to another directory.
    ForeignEntry,
    /// An entry's path is too long.
    PathBounds,
    /// A directory or an entry was scanned already.
    EntryExists,
    /// More sidecars belong to an original than are taken.
    SidecarLimit,
    /// A number would exceed what can be stored.
    Exhausted,
}

} // verus!

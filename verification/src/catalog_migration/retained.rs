//! Source records that a migration retains, and how they are looked up.
use crate::catalog_migration::artifacts::CaptureDetail;
use crate::catalog_migration::evidence::EvidenceError;
use crate::copies::Copied;
use crate::error::CatalogError;
use crate::outside::text_from_utf8;
use crate::support;
use crate::support::{copy_bytes, find, find_all, same, same_bytes};
use vstd::prelude::*;
use vstd::utf8::*;

verus! {

/// Why a migration refuses a request.
#[derive(Clone, Copy, Debug, PartialEq, Eq, Structural)]
pub enum MigrationError {
    /// There is no such complete record.
    RecordMissing,
    /// The record belongs to another input or capture.
    RecordForeign,
    /// Reading on would exceed the bytes that a navigation may take up.
    ByteLimit,
    /// The record is of another collection.
    RecordKind,
    /// A field is missing.
    FieldMissing,
    /// A field is no retained text or no bytes.
    FieldType,
    /// A field is too long.
    FieldBounds,
    /// A text is not UTF-8.
    NotText,
    /// A row and its entity say different things.
    RowDiffers,
    /// A row's key is not canonical or out of bounds.
    KeyDamaged,
    /// A relation that has to be unique is missing.
    RelationMissing,
    /// A relation that has to be unique is ambiguous.
    RelationAmbiguous,
    /// A relation that has to be unique cannot be settled.
    RelationUnavailable,
    /// An importer's name is empty, too long or holds NUL.
    OwnerBounds,
    /// The source row is of another table.
    SourceTable,
    /// A reason is blank or too long.
    ReasonBounds,
    /// A label is empty or too long.
    LabelBounds,
    /// A request is too large.
    RequestBounds,
    /// The retained records do not prove the source row.
    SourceDiffers,
    /// The columns of a table and the values of a row do not fit together.
    ColumnsDiffer,
    /// A column occurs twice.
    ColumnRepeated,
    /// A source was decided upon before in another way.
    DecisionChanged,
    /// A link is not the one that the source row has.
    LinkDiffers,
    /// The sealed source is needed to decide on a row for the first time.
    SealNeeded,
    /// The file has no mapped original.
    OriginalMissing,
    /// The original belongs to another importer.
    OriginalForeign,
    /// The source row does not prove the image's role.
    RoleUnproven,
    /// The parent has no mapped image.
    ParentMissing,
    /// A variant does not come from exactly one retained source image.
    OriginAmbiguous,
    /// A variant's retained source image is another one.
    OriginDiffers,
    /// A path has too many hops.
    HopLimit,
    /// An anchor belongs to another variant or input.
    AnchorForeign,
    /// A hop does not lead on from where its path has come to.
    HopUnproven,
    /// A hop leads into another image's history.
    HopForbidden,
    /// A page is empty or too large.
    PageLimit,
    /// A cursor belongs to another anchor or direction.
    CursorForeign,
    /// A document is too large or cannot be written.
    DocumentBounds,
    /// A place to interpret is out of bounds.
    LocatorBounds,
    /// The column to interpret is missing or occurs twice.
    ColumnAmbiguous,
    /// There are too many inspections, or two of one origin.
    InspectionsDiffer,
    /// No inspection, or more than one, is of the origin.
    ObservationAmbiguous,
    /// A packet belongs to another file, capture or origin.
    PacketForeign,
    /// A packet's index is not canonical or out of bounds.
    PacketIndex,
    /// The packets are not those that the inspection counted.
    RosterDiffers,
    /// An inspection does not say enough.
    InspectionIncomplete,
    /// A packet's revision, status or path is another one.
    PacketDiffers,
    /// A range leaves the inspected file.
    RangeBounds,
    /// Bytes do not match their digest.
    DigestDiffers,
    /// Bytes are where none belong.
    CarrierDiffers,
    /// A packet reference is missing, or there are too many.
    IndexBounds,
    /// Numbers are too large.
    Overflow,
    /// There is more content than can be bound.
    ContentLimit,
    /// Bytes are not committed as their field says.
    CustodyDiffers,
    /// The identity of a payload in custody is none that a payload can have.
    EvidenceShape,
    /// A stored descriptor is larger than any that is kept.
    DescriptorSize,
    /// Only embedded metadata can be supplemented.
    SupplementOrigin,
    /// The seal does not pin a supplement exactly once.
    SupplementUnpinned,
    /// A supplement cannot be understood.
    SupplementUnread,
    /// A supplement is about something else.
    SupplementDiffers,
    /// The seal is missing.
    SealMissing,
    /// The enumeration belongs to another seal.
    SealForeign,
    /// The path belongs to another file.
    PathForeign,
    /// What was interpreted is not what was retained.
    PreparationDiffers,
    /// An identity is not in hexadecimal.
    IdentityBounds,
    /// There is no such run.
    RunMissing,
    /// A run's identity is not that of its input and its policy.
    RunForeign,
    /// A run went on elsewhere in the meantime.
    CursorChanged,
    /// A run's cursor is out of bounds.
    CursorBounds,
    /// A row is not of a run's input.
    ItemForeign,
    /// A row was recorded before.
    ItemRecorded,
    /// A stage is about something else.
    StageDiffers,
    /// What happened is not what a run waits for.
    EventDiffers,
    /// There are too many mappings.
    RosterLimit,
    /// A supplement's identity is out of bounds.
    SupplementBounds,
    /// Two supplements are of one file.
    SupplementRepeated,
    /// Two copies are of one captured file.
    ArtifactRepeated,
    /// A capture was not selected.
    CaptureExcluded,
    /// A path is empty or too long.
    PathBounds,
    /// There is no one path of a file.
    PathAmbiguous,
    /// There is no one packet of a row.
    PacketAmbiguous,
    /// A run's policy is another one than it was.
    PolicyChanged,
    /// The mappings are others than they were.
    EpochChanged,
    /// A run is not over.
    RunUnfinished,
    /// A run is being repaired.
    RepairPending,
    /// The retained selection is another one.
    SelectionDiffers,
    /// A run's progress is another one than it was believed to be.
    ProgressDiffers,
    /// A report is missing.
    ReportMissing,
    /// A report is left over.
    ReportUnexpected,
    /// An archive is too large.
    ArchiveBounds,
    /// An archive cannot be written.
    Compression,
    /// An archive does not hold what was archived.
    ArchiveDiffers,
    /// There is no projected metadata of an image's settings.
    MetadataMissing,
    /// Projected metadata and what became of its row say different things.
    AssociationDiffers,
    /// Projected metadata is of another image.
    ImageDiffers,
    /// Projected metadata was decided in another way.
    PredecessorDiffers,
    /// Projected metadata is no decision that can be corrected.
    RepairForbidden,
    /// An image has no imported recipe.
    RecipeMissing,
    /// An image was edited since.
    RecipeChanged,
    /// What was extracted comes from something else.
    ExtractionDiffers,
    /// The catalog refuses what a migration asks of it.
    Catalog(CatalogError),
    /// The retained evidence refuses what a migration asks of it.
    Evidence(EvidenceError),
}

/// A typed value of a source row.
#[derive(Clone, Debug)]
pub enum Cell {
    Null,
    Integer(i64),
    /// The bits of a floating-point number.
    RealBits(u64),
    Text(Vec<u8>),
    Blob(Vec<u8>),
}

/// What a `Cell` stands for.
#[verifier::ext_equal]
pub enum CellModel {
    Null,
    Integer(i64),
    RealBits(u64),
    Text(Seq<u8>),
    Blob(Seq<u8>),
}

impl View for Cell {
    type V = CellModel;

    open spec fn view(&self) -> CellModel {
        match *self {
            Cell::Null => CellModel::Null,
            Cell::Integer(v) => CellModel::Integer(v),
            Cell::RealBits(v) => CellModel::RealBits(v),
            Cell::Text(v) => CellModel::Text(v@),
            Cell::Blob(v) => CellModel::Blob(v@),
        }
    }
}

impl Copied for Cell {
    fn copied(&self) -> (c: Self) {
        match self {
            Cell::Null => Cell::Null,
            Cell::Integer(v) => Cell::Integer(*v),
            Cell::RealBits(v) => Cell::RealBits(*v),
            Cell::Text(v) => Cell::Text(copy_bytes(v.as_slice())),
            Cell::Blob(v) => Cell::Blob(copy_bytes(v.as_slice())),
        }
    }
}

impl CellModel {
    /// No value, or a number that is zero. The bits of a floating-point zero are
    /// all clear but for its sign.
    pub open spec fn is_zero(self) -> bool {
        match self {
            CellModel::Null => true,
            CellModel::Integer(v) => v == 0,
            CellModel::RealBits(v) => v == 0 || v == 0x8000_0000_0000_0000,
            _ => false,
        }
    }
}

/// Whether a cell has no value or is a number that is zero.
pub fn zero(cell: &Cell) -> (r: bool)
    ensures
        r == cell@.is_zero(),
{
    match cell {
        Cell::Null => true,
        Cell::Integer(v) => *v == 0,
        Cell::RealBits(v) => *v == 0 || *v == 0x8000_0000_0000_0000,
        _ => false,
    }
}

/// A chunk that bytes are committed in.
#[derive(Clone, Debug)]
pub struct Chunk {
    pub offset: u64,
    pub length: u64,
    pub hash: String,
}

/// A field of a record: a typed value that it holds itself, or bytes that are
/// retained beside it, with the chunks that they are committed in.
#[derive(Clone, Debug)]
pub enum Field {
    Inline(Cell),
    Bytes {
        text: bool,
        content: Vec<u8>,
        /// The bytes are committed in full and come from the selected source.
        committed: bool,
        chunks: Vec<Chunk>,
    },
}

/// What a `Field` stands for.
#[verifier::ext_equal]
pub enum FieldModel {
    Inline(CellModel),
    Bytes { text: bool, content: Seq<u8>, committed: bool, chunks: Seq<Chunk> },
}

impl View for Field {
    type V = FieldModel;

    open spec fn view(&self) -> FieldModel {
        match *self {
            Field::Inline(cell) => FieldModel::Inline(cell@),
            Field::Bytes { text, content, committed, chunks } => FieldModel::Bytes {
                text,
                content: content@,
                committed,
                chunks: chunks@,
            },
        }
    }
}

impl FieldModel {
    /// The field's bytes, where it has any.
    pub open spec fn bytes(self) -> Option<Seq<u8>> {
        match self {
            FieldModel::Inline(CellModel::Text(v)) => Some(v),
            FieldModel::Inline(CellModel::Blob(v)) => Some(v),
            FieldModel::Inline(_) => None,
            FieldModel::Bytes { content, .. } => Some(content),
        }
    }

    /// The field is a text.
    pub open spec fn is_text(self) -> bool {
        match self {
            FieldModel::Inline(cell) => cell is Text,
            FieldModel::Bytes { text, .. } => text,
        }
    }

    /// The number of bytes of the field; none for a number.
    pub open spec fn size(self) -> nat {
        match self.bytes() {
            Some(v) => v.len(),
            None => 0,
        }
    }
}

pub(crate) fn bytes_of(field: &Field) -> (r: Option<&Vec<u8>>)
    ensures
        match r {
            Some(v) => field@.bytes() == Some(v@),
            None => field@.bytes() is None,
        },
{
    match field {
        Field::Inline(Cell::Text(v)) => Some(v),
        Field::Inline(Cell::Blob(v)) => Some(v),
        Field::Inline(_) => None,
        Field::Bytes { content, .. } => Some(content),
    }
}

fn holds_text(field: &Field) -> (r: bool)
    ensures
        r == field@.is_text(),
{
    match field {
        Field::Inline(Cell::Text(_)) => true,
        Field::Inline(_) => false,
        Field::Bytes { text, .. } => *text,
    }
}

/// The number of bytes of a field; none for a number.
pub fn field_size(field: &Field) -> (n: u64)
    ensures
        n == field@.size(),
{
    match bytes_of(field) {
        Some(v) => v.len() as u64,
        None => 0,
    }
}

/// What a record is of.
#[derive(Clone, Copy, Debug, PartialEq, Eq, Structural)]
pub enum Collection {
    Tables,
    Rows,
    Entities,
    References,
    Paths,
    Packets,
    Captures,
    Other,
}

/// A field under its name.
#[derive(Clone, Debug)]
pub struct NamedField {
    pub name: String,
    pub field: Field,
}

/// What a `NamedField` stands for.
#[verifier::ext_equal]
pub struct NamedFieldModel {
    pub name: Seq<char>,
    pub field: FieldModel,
}

impl View for NamedField {
    type V = NamedFieldModel;

    open spec fn view(&self) -> NamedFieldModel {
        NamedFieldModel {
            name: self.name@,
            field: self.field@,
        }
    }
}

/// The typed key of a row in its canonical form, and the identity that it has in its
/// table and capture.
#[derive(Clone, Debug)]
pub struct RowKey {
    pub key: String,
    pub identity: String,
}

/// What a `RowKey` stands for.
#[verifier::ext_equal]
pub struct RowKeyModel {
    pub key: Seq<char>,
    pub identity: Seq<char>,
}

impl View for RowKey {
    type V = RowKeyModel;

    open spec fn view(&self) -> RowKeyModel {
        RowKeyModel {
            key: self.key@,
            identity: self.identity@,
        }
    }
}

/// What an optional key stands for.
pub open spec fn row_key_of(k: Option<RowKey>) -> Option<RowKeyModel> {
    match k {
        Some(k) => Some(k@),
        None => None,
    }
}

/// How an inspection ended.
#[derive(Clone, Copy, Debug, PartialEq, Eq, Structural)]
pub enum Status {
    Complete,
    Absent,
    Malformed,
    ResourceLimit,
    Other,
}

/// The revision of an inspected file.
#[derive(Clone, Debug)]
pub struct SourceRevision {
    pub length: u64,
    pub blake3: String,
    pub modified_unix_ns: Option<u128>,
}

/// What a `SourceRevision` stands for.
#[verifier::ext_equal]
pub struct SourceRevisionModel {
    pub length: u64,
    pub blake3: Seq<char>,
    pub modified_unix_ns: Option<u128>,
}

impl View for SourceRevision {
    type V = SourceRevisionModel;

    open spec fn view(&self) -> SourceRevisionModel {
        SourceRevisionModel {
            length: self.length,
            blake3: self.blake3@,
            modified_unix_ns: self.modified_unix_ns,
        }
    }
}

impl Copied for SourceRevision {
    fn copied(&self) -> (c: Self) {
        SourceRevision {
            length: self.length,
            blake3: self.blake3.clone(),
            modified_unix_ns: self.modified_unix_ns,
        }
    }
}

impl SourceRevision {
    /// Whether two revisions are the same.
    pub fn same_as(&self, other: &SourceRevision) -> (r: bool)
        ensures
            r == (self@ == other@),
    {
        let modified: bool = match (self.modified_unix_ns, other.modified_unix_ns) {
            (Some(a), Some(b)) => a == b,
            (None, None) => true,
            _ => false,
        };
        self.length == other.length && modified && same(
            self.blake3.as_str(),
            other.blake3.as_str(),
        )
    }
}

/// A path in the form of the platform that it comes from.
#[derive(Clone, Debug)]
pub enum NativePath {
    UnixBytes(Vec<u8>),
    WindowsWide(Vec<u16>),
}

/// What a `NativePath` stands for.
#[verifier::ext_equal]
pub enum PathModel {
    UnixBytes(Seq<u8>),
    WindowsWide(Seq<u16>),
}

impl View for NativePath {
    type V = PathModel;

    open spec fn view(&self) -> PathModel {
        match *self {
            NativePath::UnixBytes(v) => PathModel::UnixBytes(v@),
            NativePath::WindowsWide(v) => PathModel::WindowsWide(v@),
        }
    }
}

/// A range of a file's bytes.
#[derive(Clone, Copy, Debug, PartialEq, Eq, Structural)]
pub struct ByteRange {
    pub offset: u64,
    pub length: u64,
}

/// What was observed at one of the places where a file's metadata can be.
#[derive(Clone, Debug)]
pub struct Observation {
    pub origin: String,
    pub status: Option<Status>,
    pub revision: Option<SourceRevision>,
    pub packets: Option<usize>,
    pub parse_inputs: Option<usize>,
    /// The issues as a document.
    pub issues: String,
    /// The observation as a document.
    pub document: String,
}

/// What is said of a packet.
#[derive(Clone, Debug)]
pub struct PacketDetail {
    /// Where the packet was found by name, where that is known.
    pub container: Option<String>,
    pub ranges: Vec<ByteRange>,
    pub group: String,
    /// The attributes as a document.
    pub attributes: String,
    pub source_revision: SourceRevision,
    pub inspection_status: Status,
    pub source_path: NativePath,
}

/// What is said of bytes to interpret.
#[derive(Clone, Debug)]
pub struct ParseDetail {
    /// How the bytes came from their packets by name, where that is known.
    pub transformation: Option<String>,
    pub packet_indices: Vec<usize>,
    pub group: String,
    pub input_blake3: String,
    pub source_revision: SourceRevision,
    pub inspection_status: Status,
}

/// What is said of a file's path.
#[derive(Clone, Debug)]
pub struct PathDetail {
    /// What was observed, where the file was inspected at all.
    pub inspections: Option<Vec<Observation>>,
    pub base: NativePath,
}

/// What a record's documents say, where they can be understood.
#[derive(Clone, Debug)]
pub enum Detail {
    Unread,
    Packet(PacketDetail),
    Parse(ParseDetail),
    Path(PathDetail),
    Capture(CaptureDetail),
}

/// A record of a selected source.
#[derive(Clone, Debug)]
pub struct EvidenceRecord {
    pub sequence: i64,
    pub input: String,
    pub revision: String,
    pub source_rowid: i64,
    pub digest: String,
    pub raw_length: usize,
    pub complete: bool,
    pub collection: Collection,
    pub fields: Vec<NamedField>,
    /// The typed key of a row whose key field can be read.
    pub key_cells: Option<Vec<Cell>>,
    /// The name that a row has by its key, where that is in bounds.
    pub key: Option<RowKey>,
    /// The column names of a table.
    pub columns: Option<Vec<String>>,
    /// The values of a row.
    pub cells: Option<Vec<Cell>>,
    pub detail: Detail,
}

/// What an `EvidenceRecord` stands for.
#[verifier::ext_equal]
pub struct RecordModel {
    pub sequence: i64,
    pub input: Seq<char>,
    pub revision: Seq<char>,
    pub source_rowid: i64,
    pub digest: Seq<char>,
    pub raw_length: usize,
    pub complete: bool,
    pub collection: Collection,
    pub fields: Seq<NamedFieldModel>,
    pub key_cells: Option<Seq<CellModel>>,
    pub key: Option<RowKeyModel>,
    pub columns: Option<Seq<Seq<char>>>,
    pub cells: Option<Seq<CellModel>>,
    pub detail: Detail,
}

impl View for EvidenceRecord {
    type V = RecordModel;

    open spec fn view(&self) -> RecordModel {
        RecordModel {
            sequence: self.sequence,
            input: self.input@,
            revision: self.revision@,
            source_rowid: self.source_rowid,
            digest: self.digest@,
            raw_length: self.raw_length,
            complete: self.complete,
            collection: self.collection,
            fields: support::models(self.fields@),
            key_cells: match self.key_cells {
                Some(cells) => Some(support::models(cells@)),
                None => None,
            },
            key: row_key_of(self.key),
            columns: match self.columns {
                Some(names) => Some(support::models(names@)),
                None => None,
            },
            cells: match self.cells {
                Some(cells) => Some(support::models(cells@)),
                None => None,
            },
            detail: self.detail,
        }
    }
}

pub open spec fn field_named(name: Seq<char>) -> spec_fn(NamedFieldModel) -> bool {
    |f: NamedFieldModel| f.name == name
}

impl RecordModel {
    /// The field of a name.
    pub open spec fn field(self, name: Seq<char>) -> Option<FieldModel> {
        match support::first_where(self.fields, field_named(name)) {
            Some(i) => Some(self.fields[i].field),
            None => None,
        }
    }

    /// The bytes of a field, at most `cap` of them.
    pub open spec fn field_bytes(self, name: Seq<char>, cap: nat) -> Result<
        Seq<u8>,
        MigrationError,
    > {
        match self.field(name) {
            None => Err(MigrationError::FieldMissing),
            Some(f) => match f.bytes() {
                None => Err(MigrationError::FieldType),
                Some(v) => if v.len() > cap {
                    Err(MigrationError::FieldBounds)
                } else {
                    Ok(v)
                },
            },
        }
    }

    /// The text of a field whose bytes are at most `cap`, whatever its type.
    pub open spec fn field_text(self, name: Seq<char>, cap: nat) -> Result<
        Seq<char>,
        MigrationError,
    > {
        match self.field_bytes(name, cap) {
            Err(e) => Err(e),
            Ok(v) => if valid_utf8(v) {
                Ok(decode_utf8(v))
            } else {
                Err(MigrationError::NotText)
            },
        }
    }

    /// The text of a field that is a retained text of at most `cap` bytes.
    pub open spec fn typed_text(self, name: Seq<char>, cap: nat) -> Result<
        Seq<char>,
        MigrationError,
    > {
        match self.field(name) {
            Some(f) if f.is_text() => self.field_text(name, cap),
            _ => Err(MigrationError::FieldType),
        }
    }

    /// A field holds exactly the bytes of a text.
    pub open spec fn says(self, name: Seq<char>, value: Seq<char>) -> bool {
        self.field(name) matches Some(f) && f.bytes() == Some(encode_utf8(value))
    }
}

impl EvidenceRecord {
    /// The field of a name.
    pub fn get(&self, name: &str) -> (r: Option<&Field>)
        ensures
            match r {
                Some(f) => self@.field(name@) == Some(f@),
                None => self@.field(name@) is None,
            },
    {
        let test = |f: &NamedField| -> (b: bool)
            ensures b == field_named(name@)(f@)
        {
            same(f.name.as_str(), name)
        };
        match find(&self.fields, test, Ghost(field_named(name@))) {
            Some(i) => {
                assert(self@.fields[i as int] == self.fields@[i as int]@);
                Some(&self.fields[i].field)
            },
            None => None,
        }
    }

    /// The bytes of a field, at most `cap` of them.
    pub fn read_bytes(&self, name: &str, cap: usize) -> (r: Result<Vec<u8>, MigrationError>)
        ensures
            match self@.field_bytes(name@, cap as nat) {
                Ok(bytes) => r matches Ok(v) && v@ == bytes,
                Err(e) => r == Err::<Vec<u8>, MigrationError>(e),
            },
    {
        match self.get(name) {
            None => Err(MigrationError::FieldMissing),
            Some(f) => match bytes_of(f) {
                None => Err(MigrationError::FieldType),
                Some(v) => {
                    if v.len() > cap {
                        Err(MigrationError::FieldBounds)
                    } else {
                        Ok(copy_bytes(v.as_slice()))
                    }
                },
            },
        }
    }

    /// The text of a field whose bytes are at most `cap`, whatever its type.
    pub fn read_text(&self, name: &str, cap: usize) -> (r: Result<String, MigrationError>)
        ensures
            match self@.field_text(name@, cap as nat) {
                Ok(text) => r matches Ok(s) && s@ == text,
                Err(e) => r == Err::<String, MigrationError>(e),
            },
    {
        match self.read_bytes(name, cap) {
            Err(e) => Err(e),
            Ok(v) => match text_from_utf8(v) {
                None => Err(MigrationError::NotText),
                Some(s) => Ok(s),
            },
        }
    }

    /// The text of a field that is a retained text of at most `cap` bytes.
    pub fn read_typed_text(&self, name: &str, cap: usize) -> (r: Result<String, MigrationError>)
        ensures
            match self@.typed_text(name@, cap as nat) {
                Ok(text) => r matches Ok(s) && s@ == text,
                Err(e) => r == Err::<String, MigrationError>(e),
            },
    {
        match self.get(name) {
            None => Err(MigrationError::FieldType),
            Some(f) => {
                if holds_text(f) {
                    self.read_text(name, cap)
                } else {
                    Err(MigrationError::FieldType)
                }
            },
        }
    }

    pub(crate) fn is_saying(&self, name: &str, value: &str) -> (r: bool)
        ensures
            r == self@.says(name@, value@),
    {
        match self.get(name) {
            None => false,
            Some(f) => match bytes_of(f) {
                None => false,
                Some(v) => same_bytes(v.as_slice(), value.as_bytes()),
            },
        }
    }
}

/// How much of a capture is looked up.
pub struct Coverage {
    pub input: String,
    pub revision: String,
    pub complete: bool,
    pub keys_complete: bool,
}

/// What a `Coverage` stands for.
#[verifier::ext_equal]
pub struct CoverageModel {
    pub input: Seq<char>,
    pub revision: Seq<char>,
    pub complete: bool,
    pub keys_complete: bool,
}

impl View for Coverage {
    type V = CoverageModel;

    open spec fn view(&self) -> CoverageModel {
        CoverageModel {
            input: self.input@,
            revision: self.revision@,
            complete: self.complete,
            keys_complete: self.keys_complete,
        }
    }
}

/// The records that a catalog retains of selected sources.
pub struct Retained {
    /// The records, in the order of their sequence numbers.
    pub records: Vec<EvidenceRecord>,
    pub coverage: Vec<Coverage>,
}

/// What `Retained` stands for.
#[verifier::ext_equal]
pub struct RetainedModel {
    pub records: Seq<RecordModel>,
    pub coverage: Seq<CoverageModel>,
}

impl View for Retained {
    type V = RetainedModel;

    open spec fn view(&self) -> RetainedModel {
        RetainedModel {
            records: support::models(self.records@),
            coverage: support::models(self.coverage@),
        }
    }
}

/// What records are looked up by.
#[derive(Clone, Debug)]
pub enum Lookup {
    RowsBySource(String),
    RowsByTable(String),
    TableByName(String),
    EntitiesBySource(String),
    EntitiesByLocalKey { table_name: String, local_key: String },
    References { source_id: String, field: Option<String>, target_table: Option<String> },
    ReferencesByTargetKey { target_table: String, target_key: String },
    PathsBySource(String),
    Packets { source_id: String, origin: Option<String> },
}

/// What a `Lookup` stands for.
pub enum Query {
    RowsBySource(Seq<char>),
    RowsByTable(Seq<char>),
    TableByName(Seq<char>),
    EntitiesBySource(Seq<char>),
    EntitiesByLocalKey { table_name: Seq<char>, local_key: Seq<char> },
    References {
        source_id: Seq<char>,
        field: Option<Seq<char>>,
        target_table: Option<Seq<char>>,
    },
    ReferencesByTargetKey { target_table: Seq<char>, target_key: Seq<char> },
    PathsBySource(Seq<char>),
    Packets { source_id: Seq<char>, origin: Option<Seq<char>> },
}

impl View for Lookup {
    type V = Query;

    open spec fn view(&self) -> Query {
        match *self {
            Lookup::RowsBySource(s) => Query::RowsBySource(s@),
            Lookup::RowsByTable(s) => Query::RowsByTable(s@),
            Lookup::TableByName(s) => Query::TableByName(s@),
            Lookup::EntitiesBySource(s) => Query::EntitiesBySource(s@),
            Lookup::EntitiesByLocalKey { table_name, local_key } => Query::EntitiesByLocalKey {
                table_name: table_name@,
                local_key: local_key@,
            },
            Lookup::References { source_id, field, target_table } => Query::References {
                source_id: source_id@,
                field: support::text_of(field),
                target_table: support::text_of(target_table),
            },
            Lookup::ReferencesByTargetKey {
                target_table,
                target_key,
            } => Query::ReferencesByTargetKey {
                target_table: target_table@,
                target_key: target_key@,
            },
            Lookup::PathsBySource(s) => Query::PathsBySource(s@),
            Lookup::Packets { source_id, origin } => Query::Packets {
                source_id: source_id@,
                origin: support::text_of(origin),
            },
        }
    }
}

/// A record answers a query.
pub open spec fn answers(r: RecordModel, q: Query) -> bool {
    match q {
        Query::RowsBySource(id) => r.collection == Collection::Rows && r.says("source_id"@, id),
        Query::RowsByTable(table) => r.collection == Collection::Rows && r.says(
            "table_name"@,
            table,
        ),
        Query::TableByName(name) => r.collection == Collection::Tables && r.says("name"@, name),
        Query::EntitiesBySource(id) => r.collection == Collection::Entities && r.says(
            "source_id"@,
            id,
        ),
        Query::EntitiesByLocalKey { table_name, local_key } => r.collection
            == Collection::Entities && r.says("table_name"@, table_name) && r.says(
            "local_key"@,
            local_key,
        ),
        Query::References { source_id, field, target_table } => r.collection
            == Collection::References && r.says("source_id"@, source_id) && (match field {
            Some(f) => r.says("field"@, f),
            None => true,
        }) && (match target_table {
            Some(t) => r.says("target_table"@, t),
            None => true,
        }),
        Query::ReferencesByTargetKey { target_table, target_key } => r.collection
            == Collection::References && r.says("target_table"@, target_table) && r.says(
            "target_key"@,
            target_key,
        ),
        Query::PathsBySource(id) => r.collection == Collection::Paths && r.says("source_id"@, id),
        Query::Packets { source_id, origin } => r.collection == Collection::Packets && r.says(
            "source_id"@,
            source_id,
        ) && (match origin {
            Some(o) => r.says("origin"@, o),
            None => true,
        }),
    }
}

fn is_answer(r: &EvidenceRecord, q: &Lookup) -> (b: bool)
    ensures
        b == answers(r@, q@),
{
    match q {
        Lookup::RowsBySource(id) => r.collection == Collection::Rows && r.is_saying(
            "source_id",
            id.as_str(),
        ),
        Lookup::RowsByTable(table) => r.collection == Collection::Rows && r.is_saying(
            "table_name",
            table.as_str(),
        ),
        Lookup::TableByName(name) => r.collection == Collection::Tables && r.is_saying(
            "name",
            name.as_str(),
        ),
        Lookup::EntitiesBySource(id) => r.collection == Collection::Entities && r.is_saying(
            "source_id",
            id.as_str(),
        ),
        Lookup::EntitiesByLocalKey { table_name, local_key } => r.collection
            == Collection::Entities && r.is_saying("table_name", table_name.as_str())
            && r.is_saying("local_key", local_key.as_str()),
        Lookup::References { source_id, field, target_table } => r.collection
            == Collection::References && r.is_saying("source_id", source_id.as_str())
            && match field {
            Some(f) => r.is_saying("field", f.as_str()),
            None => true,
        } && match target_table {
            Some(t) => r.is_saying("target_table", t.as_str()),
            None => true,
        },
        Lookup::ReferencesByTargetKey { target_table, target_key } => r.collection
            == Collection::References && r.is_saying("target_table", target_table.as_str())
            && r.is_saying("target_key", target_key.as_str()),
        Lookup::PathsBySource(id) => r.collection == Collection::Paths && r.is_saying(
            "source_id",
            id.as_str(),
        ),
        Lookup::Packets { source_id, origin } => r.collection == Collection::Packets
            && r.is_saying("source_id", source_id.as_str()) && match origin {
            Some(o) => r.is_saying("origin", o.as_str()),
            None => true,
        },
    }
}

pub open spec fn record_at(sequence: i64) -> spec_fn(RecordModel) -> bool {
    |r: RecordModel| r.sequence == sequence && r.complete
}

pub open spec fn covers(input: Seq<char>, revision: Seq<char>) -> spec_fn(CoverageModel) -> bool {
    |c: CoverageModel| c.input == input && c.revision == revision
}

/// A record of a capture that answers a query and comes after a sequence number.
pub open spec fn hit(input: Seq<char>, revision: Seq<char>, q: Query, after: Option<i64>) -> spec_fn(
    RecordModel,
) -> bool {
    |r: RecordModel|
        r.complete && r.input == input && r.revision == revision && answers(r, q) && (match after {
            Some(a) => r.sequence > a,
            None => true,
        })
}

/// What a lookup gives: the records found, whether there are more, and whether the
/// capture is covered.
pub struct Page {
    pub hits: Vec<usize>,
    pub next: Option<i64>,
    pub coverage_complete: bool,
    pub keys_complete: bool,
}

impl RetainedModel {
    /// The complete record of a sequence number.
    pub open spec fn record_of(self, sequence: i64) -> Option<int> {
        support::first_where(self.records, record_at(sequence))
    }

    /// The positions of all records that answer a query.
    pub open spec fn hits(
        self,
        input: Seq<char>,
        revision: Seq<char>,
        q: Query,
        after: Option<i64>,
    ) -> Seq<int> {
        support::positions(self.records, hit(input, revision, q, after), self.records.len())
    }

    /// The positions of the first records that answer a query.
    pub open spec fn page_hits(
        self,
        input: Seq<char>,
        revision: Seq<char>,
        q: Query,
        after: Option<i64>,
        limit: nat,
    ) -> Seq<int> {
        let all = self.hits(input, revision, q, after);
        if all.len() > limit {
            all.take(limit as int)
        } else {
            all
        }
    }

    /// Where a lookup goes on.
    pub open spec fn page_next(
        self,
        input: Seq<char>,
        revision: Seq<char>,
        q: Query,
        after: Option<i64>,
        limit: nat,
    ) -> Option<i64> {
        let all = self.hits(input, revision, q, after);
        if all.len() > limit && limit > 0 {
            Some(self.records[all[limit - 1]].sequence)
        } else {
            None
        }
    }

    /// All records of a capture are there.
    pub open spec fn coverage_complete(self, input: Seq<char>, revision: Seq<char>) -> bool {
        support::first_where(self.coverage, covers(input, revision)) matches Some(i)
            && self.coverage[i].complete
    }

    /// All keys of a capture are there.
    pub open spec fn keys_complete(self, input: Seq<char>, revision: Seq<char>) -> bool {
        support::first_where(self.coverage, covers(input, revision)) matches Some(i)
            && self.coverage[i].keys_complete
    }

    /// The only record that answers a query, or why there is none.
    pub open spec fn unique(self, input: Seq<char>, revision: Seq<char>, q: Query) -> Result<
        i64,
        Compatibility,
    > {
        let all = self.hits(input, revision, q, None);
        if !self.coverage_complete(input, revision) || !self.keys_complete(input, revision) {
            Err(Compatibility::Unavailable)
        } else if all.len() == 0 {
            Err(Compatibility::Missing)
        } else if all.len() == 1 {
            Ok(self.records[all[0]].sequence)
        } else {
            Err(Compatibility::Ambiguous)
        }
    }
}

/// How far a relation can be relied upon.
#[derive(Clone, Copy, Debug, PartialEq, Eq, Structural)]
pub enum Compatibility {
    RetainedOnly,
    Missing,
    Ambiguous,
    Unavailable,
    OutsideImageHistory,
    TraversalLimit,
}

/// Why something that has to be unique cannot be used.
pub open spec fn relation_error(why: Compatibility) -> MigrationError {
    match why {
        Compatibility::Missing => MigrationError::RelationMissing,
        Compatibility::Ambiguous => MigrationError::RelationAmbiguous,
        _ => MigrationError::RelationUnavailable,
    }
}

pub fn to_relation_error(why: Compatibility) -> (e: MigrationError)
    ensures
        e == relation_error(why),
{
    match why {
        Compatibility::Missing => MigrationError::RelationMissing,
        Compatibility::Ambiguous => MigrationError::RelationAmbiguous,
        _ => MigrationError::RelationUnavailable,
    }
}

impl Retained {
    /// No records.
    pub fn new() -> (r: Self)
        ensures
            r@ == (RetainedModel { records: Seq::empty(), coverage: Seq::empty() }),
    {
        let r: Retained = Retained { records: Vec::new(), coverage: Vec::new() };
        assert(r@ =~= (RetainedModel { records: Seq::empty(), coverage: Seq::empty() }));
        r
    }

    pub(crate) fn find_record(&self, sequence: i64) -> (r: Option<usize>)
        ensures
            match r {
                Some(i) => i < self.records@.len() && self@.record_of(sequence) == Some(i as int)
                    && self@.records[i as int] == self.records@[i as int]@
                    && self.records@[i as int]@.sequence == sequence
                    && self.records@[i as int]@.complete,
                None => self@.record_of(sequence) is None,
            },
    {
        let test = |r: &EvidenceRecord| -> (b: bool)
            ensures b == record_at(sequence)(r@)
        {
            r.sequence == sequence && r.complete
        };
        let r: Option<usize> = find(&self.records, test, Ghost(record_at(sequence)));
        proof {
            if let Some(i) = r {
                assert(self@.records[i as int] == self.records@[i as int]@);
            }
        }
        r
    }

    fn find_coverage(&self, input: &str, revision: &str) -> (r: Option<usize>)
        ensures
            match r {
                Some(i) => i < self.coverage@.len() && support::first_where(
                    self@.coverage,
                    covers(input@, revision@),
                ) == Some(i as int) && self@.coverage[i as int] == self.coverage@[i as int]@,
                None => support::first_where(self@.coverage, covers(input@, revision@)) is None,
            },
    {
        let test = |c: &Coverage| -> (b: bool)
            ensures b == covers(input@, revision@)(c@)
        {
            same(c.input.as_str(), input) && same(c.revision.as_str(), revision)
        };
        let r: Option<usize> = find(&self.coverage, test, Ghost(covers(input@, revision@)));
        proof {
            if let Some(i) = r {
                assert(self@.coverage[i as int] == self.coverage@[i as int]@);
            }
        }
        r
    }

    fn find_hits(&self, input: &str, revision: &str, q: &Lookup, after: Option<i64>) -> (picks:
        Vec<usize>)
        ensures
            support::ints(picks@) == self@.hits(input@, revision@, q@, after),
            forall|k: int| 0 <= k < picks@.len() ==> (#[trigger] picks@[k]) < self.records@.len(),
    {
        let test = |r: &EvidenceRecord| -> (b: bool)
            ensures b == hit(input@, revision@, q@, after)(r@)
        {
            r.complete && same(r.input.as_str(), input) && same(r.revision.as_str(), revision)
                && is_answer(r, q) && match after {
                Some(a) => r.sequence > a,
                None => true,
            }
        };
        find_all(&self.records, test, Ghost(hit(input@, revision@, q@, after)))
    }

    /// The first records of a capture that answer a query and come after a cursor.
    pub fn lookup(
        &self,
        input: &str,
        revision: &str,
        q: &Lookup,
        after: Option<i64>,
        limit: usize,
    ) -> (page: Page)
        ensures
            support::ints(page.hits@) == self@.page_hits(
                input@,
                revision@,
                q@,
                after,
                limit as nat,
            ),
            page.next == self@.page_next(input@, revision@, q@, after, limit as nat),
            page.coverage_complete == self@.coverage_complete(input@, revision@),
            page.keys_complete == self@.keys_complete(input@, revision@),
            forall|k: int|
                0 <= k < page.hits@.len() ==> (#[trigger] page.hits@[k]) < self.records@.len(),
    {
        let mut hits: Vec<usize> = self.find_hits(input, revision, q, after);
        let ghost all = hits@;
        let ghost wanted = self@.hits(input@, revision@, q@, after);
        let mut next: Option<i64> = None;
        if hits.len() > limit {
            if limit > 0 {
                let last: usize = hits[limit - 1];
                proof {
                    assert(support::ints(all)[limit - 1] == last as int);
                    assert(self@.records[last as int] == self.records@[last as int]@);
                }
                next = Some(self.records[last].sequence);
            }
            hits.truncate(limit);
            assert(hits@ =~= all.take(limit as int));
            assert(support::ints(hits@) =~= wanted.take(limit as int));
        }
        let (coverage_complete, keys_complete): (bool, bool) = match self.find_coverage(
            input,
            revision,
        ) {
            Some(i) => (self.coverage[i].complete, self.coverage[i].keys_complete),
            None => (false, false),
        };
        Page { hits, next, coverage_complete, keys_complete }
    }

    /// The only record that answers a query, or why there is none.
    pub fn find_unique(&self, input: &str, revision: &str, q: &Lookup) -> (r: Result<
        i64,
        Compatibility,
    >)
        ensures
            r == self@.unique(input@, revision@, q@),
    {
        let page: Page = self.lookup(input, revision, q, None, 2);
        let ghost all = self@.hits(input@, revision@, q@, None);
        if !page.coverage_complete || !page.keys_complete {
            return Err(Compatibility::Unavailable);
        }
        assert(support::ints(page.hits@).len() == page.hits@.len());
        if page.hits.len() == 0 {
            return Err(Compatibility::Missing);
        }
        if page.hits.len() == 1 && page.next.is_none() {
            let i: usize = page.hits[0];
            proof {
                assert(support::ints(page.hits@)[0] == i as int);
                assert(self@.records[i as int] == self.records@[i as int]@);
            }
            return Ok(self.records[i].sequence);
        }
        Err(Compatibility::Ambiguous)
    }
}

} // verus!

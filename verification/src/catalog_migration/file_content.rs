//! Digests of what retained records hold, whatever their numbers and however they
//! were read.
use crate::catalog_metadata::edit;
use crate::catalog_metadata::edit::{append_number, append_signed};
use crate::catalog_migration::evidence::CHUNK_BYTES;
use crate::catalog_migration::file_history;
use crate::catalog_migration::file_history::{FileScope, Origin, META, PACKET, PAYLOAD};
use crate::catalog_migration::proofs::IDENTITY_BYTES;
use crate::catalog_migration::retained;
use crate::catalog_migration::retained::{
    Cell, Chunk, Collection, EvidenceRecord, Field, MigrationError, NamedField, NativePath,
    RecordModel, Retained, RetainedModel,
};
use crate::ordering;
use crate::ordering::is_text_before;
use crate::outside;
use crate::outside::{blake3_digest, json_string};
use crate::support;
use crate::support::{append_bytes, find, same};
use vstd::bytes::*;
use vstd::prelude::*;
use vstd::string::*;
use vstd::utf8::*;

verus! {

/// The most chunks that are looked at.
pub const CHUNK_LIMIT: usize = 65536;

/// What binding content has taken up.
pub struct ContentBudget {
    pub bytes: u64,
    pub descriptors: u64,
    pub chunks: usize,
    /// The chunks of some field are bound in place of its bytes.
    pub geometry: bool,
}

/// What a `ContentBudget` stands for.
#[verifier::ext_equal]
pub struct BudgetModel {
    pub bytes: nat,
    pub descriptors: nat,
    pub chunks: nat,
    pub geometry: bool,
}

impl View for ContentBudget {
    type V = BudgetModel;

    open spec fn view(&self) -> BudgetModel {
        BudgetModel {
            bytes: self.bytes as nat,
            descriptors: self.descriptors as nat,
            chunks: self.chunks as nat,
            geometry: self.geometry,
        }
    }
}

impl ContentBudget {
    /// Nothing was taken up yet.
    pub fn new() -> (b: Self)
        ensures
            b@ == (BudgetModel { bytes: 0, descriptors: 0, chunks: 0, geometry: false }),
    {
        ContentBudget { bytes: 0, descriptors: 0, chunks: 0, geometry: false }
    }
}

/// The value of a hexadecimal digit.
pub open spec fn hex_value(c: char) -> Option<u8> {
    if '0' <= c && c <= '9' {
        Some((c as u32 - 48) as u8)
    } else if 'a' <= c && c <= 'f' {
        Some((c as u32 - 87) as u8)
    } else if 'A' <= c && c <= 'F' {
        Some((c as u32 - 55) as u8)
    } else {
        None
    }
}

/// A text of sixty-four hexadecimal digits.
pub open spec fn is_hex(s: Seq<char>) -> bool {
    s.len() == 64 && forall|i: int| 0 <= i < 64 ==> hex_value(#[trigger] s[i]) is Some
}

/// The bytes that hexadecimal digits stand for.
pub open spec fn hex_bytes(s: Seq<char>) -> Seq<u8> {
    Seq::new(32, |i: int| (hex_value(s[2 * i])->0 * 16 + hex_value(s[2 * i + 1])->0) as u8)
}

fn digit_value(c: char) -> (r: Option<u8>)
    ensures
        r == hex_value(c),
        r matches Some(v) ==> v < 16,
{
    if '0' <= c && c <= '9' {
        Some((c as u32 - 48) as u8)
    } else if 'a' <= c && c <= 'f' {
        Some((c as u32 - 87) as u8)
    } else if 'A' <= c && c <= 'F' {
        Some((c as u32 - 55) as u8)
    } else {
        None
    }
}

fn digest_bytes(s: &str) -> (r: Option<Vec<u8>>)
    ensures
        match r {
            Some(v) => is_hex(s@) && v@ == hex_bytes(s@),
            None => !is_hex(s@),
        },
{
    if s.unicode_len() != 64 {
        return None;
    }
    let mut v: Vec<u8> = Vec::new();
    let mut i: usize = 0;
    while i < 32
        invariant
            i <= 32,
            s@.len() == 64,
            v@.len() == i,
            forall|k: int| 0 <= k < 2 * i ==> hex_value(#[trigger] s@[k]) is Some,
            forall|k: int| 0 <= k < i ==> #[trigger] v@[k] == hex_bytes(s@)[k],
        decreases 32 - i,
    {
        match (digit_value(s.get_char(2 * i)), digit_value(s.get_char(2 * i + 1))) {
            (Some(a), Some(b)) => {
                v.push(a * 16 + b);
                assert forall|k: int| 0 <= k < 2 * (i + 1) implies hex_value(
                    #[trigger] s@[k],
                ) is Some by {
                    if k >= 2 * i {
                        assert(k == 2 * i || k == 2 * i + 1);
                    }
                }
            },
            (None, _) => {
                assert(hex_value(s@[2 * i as int]) is None);
                return None;
            },
            _ => {
                assert(hex_value(s@[2 * i + 1]) is None);
                return None;
            },
        }
        i += 1;
    }
    assert(v@ =~= hex_bytes(s@));
    Some(v)
}

/// How far the first `n` chunks reach, where they lie end to end.
pub open spec fn reached(chunks: Seq<Chunk>, length: nat, n: nat) -> Option<nat>
    decreases n,
{
    if n == 0 {
        Some(0)
    } else {
        match reached(chunks, length, (n - 1) as nat) {
            None => None,
            Some(offset) => {
                let c = chunks[n - 1];
                if c.offset == offset && 0 < c.length <= CHUNK_BYTES && c.length <= length - offset {
                    Some(offset + c.length as nat)
                } else {
                    None
                }
            },
        }
    }
}

/// What stands for the first `n` chunks: their places, their lengths and their
/// digests.
pub open spec fn geometry_of(chunks: Seq<Chunk>, n: nat) -> Seq<u8>
    decreases n,
{
    if n == 0 {
        Seq::empty()
    } else {
        let c = chunks[n - 1];
        geometry_of(chunks, (n - 1) as nat) + spec_u64_to_le_bytes(c.offset)
            + spec_u64_to_le_bytes(c.length) + hex_bytes(c.hash@)
    }
}

/// All chunks have digests.
pub open spec fn hashes_whole(chunks: Seq<Chunk>) -> bool {
    forall|i: int| 0 <= i < chunks.len() ==> is_hex((#[trigger] chunks[i]).hash@)
}

/// What committed bytes are bound by: the bytes themselves, or the chunks of bytes
/// that are too many to be read.
pub open spec fn bound_bytes(
    b: BudgetModel,
    content: Seq<u8>,
    committed: bool,
    chunks: Seq<Chunk>,
) -> Result<(BudgetModel, Seq<u8>), MigrationError> {
    let large = content.len() > PACKET;
    let bytes = if large {
        b.bytes
    } else {
        b.bytes + content.len()
    };
    if bytes > 2 * PAYLOAD {
        Err(MigrationError::ContentLimit)
    } else if !committed {
        Err(MigrationError::CustodyDiffers)
    } else if b.chunks + chunks.len() > CHUNK_LIMIT {
        Err(MigrationError::ContentLimit)
    } else if reached(chunks, content.len(), chunks.len()) != Some(content.len()) || !hashes_whole(
        chunks,
    ) {
        Err(MigrationError::CustodyDiffers)
    } else {
        Ok(
            (
                BudgetModel {
                    bytes,
                    chunks: b.chunks + chunks.len(),
                    geometry: b.geometry || large,
                    ..b
                },
                if large {
                    geometry_of(chunks, chunks.len())
                } else {
                    content
                },
            ),
        )
    }
}

/// The document of a value that is no bytes.
pub open spec fn scalar_document(cell: retained::CellModel) -> Seq<char> {
    match cell {
        retained::CellModel::Integer(v) => "{\"scalar\":{\"Integer\":"@ + edit::signed_text(v)
            + "}}"@,
        retained::CellModel::RealBits(v) => "{\"scalar\":{\"RealBits\":"@ + edit::decimal_text(
            v as nat,
        ) + "}}"@,
        _ => "{\"scalar\":\"Null\"}"@,
    }
}

/// The document of bytes.
pub open spec fn bytes_document(text: bool, length: nat, bound: Seq<u8>) -> Seq<char> {
    "{\"blake3\":\""@ + outside::blake3_hex(bound) + "\",\"length\":"@ + edit::decimal_text(length)
        + if length > PACKET {
        ",\"mode\":\"committed_chunks_v1\",\"text\":"@
    } else {
        ",\"mode\":\"whole_bytes_v1\",\"text\":"@
    } + if text {
        "true}"@
    } else {
        "false}"@
    }
}

/// What a field's content is bound by.
pub open spec fn field_content(b: BudgetModel, f: retained::FieldModel) -> Result<
    (BudgetModel, Seq<char>),
    MigrationError,
> {
    match f {
        retained::FieldModel::Inline(cell) => match f.bytes() {
            None => Ok((b, scalar_document(cell))),
            Some(v) => {
                let bytes = if v.len() > PACKET {
                    b.bytes
                } else {
                    b.bytes + v.len()
                };
                if bytes > 2 * PAYLOAD {
                    Err(MigrationError::ContentLimit)
                } else {
                    Ok(
                        (
                            BudgetModel { bytes, ..b },
                            bytes_document(f.is_text(), v.len(), v),
                        ),
                    )
                }
            },
        },
        retained::FieldModel::Bytes { text, content, committed, chunks } => match bound_bytes(
            b,
            content,
            committed,
            chunks,
        ) {
            Err(e) => Err(e),
            Ok((after, bound)) => Ok((after, bytes_document(text, content.len(), bound))),
        },
    }
}

fn walk_chunks(chunks: &Vec<Chunk>, length: u64) -> (r: Option<Vec<u8>>)
    ensures
        match r {
            Some(v) => reached(chunks@, length as nat, chunks@.len()) == Some(length as nat)
                && hashes_whole(chunks@) && v@ == geometry_of(chunks@, chunks@.len()),
            None => reached(chunks@, length as nat, chunks@.len()) != Some(length as nat)
                || !hashes_whole(chunks@),
        },
{
    let mut v: Vec<u8> = Vec::new();
    let mut offset: u64 = 0;
    let mut n: usize = 0;
    assert(v@ =~= Seq::empty());
    while n < chunks.len()
        invariant
            n <= chunks@.len(),
            offset <= length,
            reached(chunks@, length as nat, n as nat) == Some(offset as nat),
            forall|i: int| 0 <= i < n ==> is_hex((#[trigger] chunks@[i]).hash@),
            v@ == geometry_of(chunks@, n as nat),
        decreases chunks@.len() - n,
    {
        let c = &chunks[n];
        if c.offset != offset || c.length == 0 || c.length > CHUNK_BYTES as u64 || c.length > length
            - offset {
            proof {
                lemma_unreached(chunks@, length as nat, (n + 1) as nat);
            }
            return None;
        }
        match digest_bytes(c.hash.as_str()) {
            None => {
                assert(!is_hex(chunks@[n as int].hash@));
                return None;
            },
            Some(hash) => {
                append_bytes(&mut v, u64_to_le_bytes(c.offset).as_slice());
                append_bytes(&mut v, u64_to_le_bytes(c.length).as_slice());
                append_bytes(&mut v, hash.as_slice());
                assert(v@ =~= geometry_of(chunks@, (n + 1) as nat));
            },
        }
        offset = offset + c.length;
        n += 1;
    }
    if offset == length {
        Some(v)
    } else {
        None
    }
}

proof fn lemma_unreached(chunks: Seq<Chunk>, length: nat, n: nat)
    requires
        n <= chunks.len(),
        reached(chunks, length, n) is None,
    ensures
        reached(chunks, length, chunks.len()) is None,
    decreases chunks.len() - n,
{
    if n < chunks.len() {
        lemma_unreached(chunks, length, n + 1);
    }
}

fn make_scalar(cell: &Cell) -> (d: String)
    requires
        !(cell@ is Text) && !(cell@ is Blob),
    ensures
        d@ == scalar_document(cell@),
{
    match cell {
        Cell::Integer(v) => {
            let mut d: String = "{\"scalar\":{\"Integer\":".to_owned();
            append_signed(&mut d, *v);
            d.append("}}");
            assert(d@ =~= scalar_document(cell@));
            d
        },
        Cell::RealBits(v) => {
            let mut d: String = "{\"scalar\":{\"RealBits\":".to_owned();
            append_number(&mut d, *v);
            d.append("}}");
            assert(d@ =~= scalar_document(cell@));
            d
        },
        _ => "{\"scalar\":\"Null\"}".to_owned(),
    }
}

fn make_bytes_document(text: bool, length: u64, bound: &[u8]) -> (d: String)
    ensures
        d@ == bytes_document(text, length as nat, bound@),
{
    let mut d: String = "{\"blake3\":\"".to_owned();
    d.append(blake3_digest(bound).as_str());
    d.append("\",\"length\":");
    append_number(&mut d, length);
    if length > PACKET as u64 {
        d.append(",\"mode\":\"committed_chunks_v1\",\"text\":");
    } else {
        d.append(",\"mode\":\"whole_bytes_v1\",\"text\":");
    }
    if text {
        d.append("true}");
    } else {
        d.append("false}");
    }
    assert(d@ =~= bytes_document(text, length as nat, bound@));
    d
}

/// What taking up bytes makes of the budget; nothing where they are too many.
fn take_bytes(b: &ContentBudget, length: u64) -> (r: Option<u64>)
    requires
        b.bytes <= 2 * PAYLOAD,
    ensures
        ({
            let bytes = if length > PACKET {
                b.bytes as nat
            } else {
                b.bytes as nat + length as nat
            };
            match r {
                Some(v) => v == bytes && v <= 2 * PAYLOAD,
                None => bytes > 2 * PAYLOAD,
            }
        }),
{
    if length > PACKET as u64 {
        return Some(b.bytes);
    }
    if b.bytes + length > 2 * PAYLOAD as u64 {
        None
    } else {
        Some(b.bytes + length)
    }
}

/// The budget is within its bounds.
pub open spec fn within(b: BudgetModel) -> bool {
    b.bytes <= 2 * PAYLOAD && b.chunks <= CHUNK_LIMIT && b.descriptors <= PAYLOAD
}

impl ContentBudget {
    /// What a field's content is bound by.
    pub fn field(&mut self, f: &Field) -> (r: Result<String, MigrationError>)
        requires
            within(old(self)@),
        ensures
            within(final(self)@),
            match field_content(old(self)@, f@) {
                Err(e) => r == Err::<String, MigrationError>(e),
                Ok((b, document)) => r matches Ok(d) && d@ == document && final(self)@ == b,
            },
    {
        match f {
            Field::Inline(Cell::Text(v)) => match take_bytes(self, v.len() as u64) {
                None => Err(MigrationError::ContentLimit),
                Some(bytes) => {
                    self.bytes = bytes;
                    Ok(make_bytes_document(true, v.len() as u64, v.as_slice()))
                },
            },
            Field::Inline(Cell::Blob(v)) => match take_bytes(self, v.len() as u64) {
                None => Err(MigrationError::ContentLimit),
                Some(bytes) => {
                    self.bytes = bytes;
                    Ok(make_bytes_document(false, v.len() as u64, v.as_slice()))
                },
            },
            Field::Inline(cell) => Ok(make_scalar(cell)),
            Field::Bytes { text, content, committed, chunks } => {
                let length: u64 = content.len() as u64;
                let bytes: u64 = match take_bytes(self, length) {
                    None => return Err(MigrationError::ContentLimit),
                    Some(bytes) => bytes,
                };
                if !*committed {
                    return Err(MigrationError::CustodyDiffers);
                }
                if chunks.len() > CHUNK_LIMIT - self.chunks {
                    return Err(MigrationError::ContentLimit);
                }
                match walk_chunks(chunks, length) {
                    None => Err(MigrationError::CustodyDiffers),
                    Some(geometry) => {
                        self.bytes = bytes;
                        self.chunks = self.chunks + chunks.len();
                        if length > PACKET as u64 {
                            self.geometry = true;
                            Ok(make_bytes_document(*text, length, geometry.as_slice()))
                        } else {
                            Ok(make_bytes_document(*text, length, content.as_slice()))
                        }
                    },
                }
            },
        }
    }
}

/// What the first `n` fields of a record are bound by. The source identity is only
/// a name within one inspection and is no part of it.
pub open spec fn fields_content(b: BudgetModel, fields: Seq<retained::NamedFieldModel>, n: nat) -> Result<
    (BudgetModel, Seq<char>),
    MigrationError,
>
    decreases n,
{
    if n == 0 {
        Ok((b, ""@))
    } else {
        match fields_content(b, fields, (n - 1) as nat) {
            Err(e) => Err(e),
            Ok((b1, before)) => if fields[n - 1].name == "source_id"@ {
                Ok((b1, before))
            } else {
                match field_content(b1, fields[n - 1].field) {
                    Err(e) => Err(e),
                    Ok((b2, document)) => match outside::json_text(fields[n - 1].name) {
                        None => Err(MigrationError::DocumentBounds),
                        Some(name) => Ok(
                            (
                                b2,
                                before + if before.len() > 0 {
                                    ","@
                                } else {
                                    ""@
                                } + name + ":"@ + document,
                            ),
                        ),
                    },
                }
            },
        }
    }
}

proof fn lemma_fields_error(b: BudgetModel, fields: Seq<retained::NamedFieldModel>, n: nat)
    requires
        n <= fields.len(),
        fields_content(b, fields, n) is Err,
    ensures
        fields_content(b, fields, fields.len()) == fields_content(b, fields, n),
    decreases fields.len() - n,
{
    if n < fields.len() {
        lemma_fields_error(b, fields, n + 1);
    }
}

/// The digest of a record's content.
pub open spec fn record_content(b: BudgetModel, rec: RecordModel) -> Result<
    (BudgetModel, Seq<char>),
    MigrationError,
> {
    match fields_content(b, rec.fields, rec.fields.len()) {
        Err(e) => Err(e),
        Ok((after, body)) => {
            let document = encode_utf8("{"@ + body + "}"@);
            if document.len() > META {
                Err(MigrationError::DocumentBounds)
            } else {
                Ok((after, outside::blake3_hex(document)))
            }
        },
    }
}

fn bind_record(b: &mut ContentBudget, rec: &EvidenceRecord) -> (r: Result<String, MigrationError>)
    requires
        within(old(b)@),
    ensures
        within(final(b)@),
        match record_content(old(b)@, rec@) {
            Err(e) => r == Err::<String, MigrationError>(e),
            Ok((after, digest)) => r matches Ok(d) && d@ == digest && final(b)@ == after,
        },
{
    let ghost start = b@;
    let ghost all = rec@.fields;
    let mut body: String = "".to_owned();
    let mut n: usize = 0;
    while n < rec.fields.len()
        invariant
            n <= rec.fields@.len(),
            all == support::models(rec.fields@),
            start == old(b)@,
            rec@.fields == all,
            within(b@),
            fields_content(start, all, n as nat) == Ok::<(BudgetModel, Seq<char>), MigrationError>(
                (b@, body@),
            ),
        decreases rec.fields@.len() - n,
    {
        let f: &NamedField = &rec.fields[n];
        assert(all[n as int] == f@);
        if !same(f.name.as_str(), "source_id") {
            match b.field(&f.field) {
                Err(e) => {
                    proof {
                        lemma_fields_error(start, all, (n + 1) as nat);
                    }
                    return Err(e);
                },
                Ok(document) => match json_string(f.name.as_str()) {
                    None => {
                        proof {
                            lemma_fields_error(start, all, (n + 1) as nat);
                        }
                        return Err(MigrationError::DocumentBounds);
                    },
                    Some(name) => {
                        let ghost before = body@;
                        let some: bool = body.as_str().unicode_len() > 0;
                        body.append(
                            if some {
                                ","
                            } else {
                                ""
                            },
                        );
                        body.append(name.as_str());
                        body.append(":");
                        body.append(document.as_str());
                        assert(body@ =~= before + (if before.len() > 0 {
                            ","@
                        } else {
                            ""@
                        }) + name@ + ":"@ + document@);
                    },
                },
            }
        }
        n += 1;
    }
    let mut document: String = "{".to_owned();
    document.append(body.as_str());
    document.append("}");
    assert(document@ =~= "{"@ + body@ + "}"@);
    let bytes = document.as_str().as_bytes();
    if bytes.len() > META {
        Err(MigrationError::DocumentBounds)
    } else {
        Ok(blake3_digest(bytes))
    }
}

/// A row of an inspection with the digest of its content.
pub struct ContentRow {
    pub origin: String,
    pub hash: String,
}

/// What a `ContentRow` stands for.
#[verifier::ext_equal]
pub struct ContentRowModel {
    pub origin: Seq<char>,
    pub hash: Seq<char>,
}

impl View for ContentRow {
    type V = ContentRowModel;

    open spec fn view(&self) -> ContentRowModel {
        ContentRowModel {
            origin: self.origin@,
            hash: self.hash@,
        }
    }
}

/// A row that does not come before an origin.
pub open spec fn not_before(origin: Seq<char>) -> spec_fn(ContentRowModel) -> bool {
    |r: ContentRowModel| !ordering::text_before(r.origin, origin)
}

pub open spec fn of_origin(origin: Seq<char>) -> spec_fn(ContentRowModel) -> bool {
    |r: ContentRowModel| r.origin == origin
}

/// The rows with one more, in the order of their origins.
pub open spec fn with_row(rows: Seq<ContentRowModel>, row: ContentRowModel) -> Seq<ContentRowModel> {
    match support::first_where(rows, not_before(row.origin)) {
        Some(i) => rows.insert(i, row),
        None => rows.push(row),
    }
}

fn insert_row(rows: &mut Vec<ContentRow>, row: ContentRow)
    ensures
        support::models(final(rows)@) == with_row(support::models(old(rows)@), row@),
{
    let ghost before = support::models(rows@);
    let origin: String = row.origin.clone();
    let test = |r: &ContentRow| -> (b: bool)
        ensures b == not_before(origin@)(r@)
    {
        !is_text_before(r.origin.as_str(), origin.as_str())
    };
    match find(rows, test, Ghost(not_before(origin@))) {
        Some(i) => {
            rows.insert(i, row);
            assert(support::models(rows@) =~= before.insert(i as int, row@));
        },
        None => {
            rows.push(row);
            assert(support::models(rows@) =~= before.push(row@));
        },
    }
}

/// The digest of a row of an inspection, under its origin.
pub open spec fn row_content(r: RetainedModel, f: FileScope, b: BudgetModel, sequence: i64) -> Result<
    (BudgetModel, ContentRowModel),
    MigrationError,
> {
    match r.record_of(sequence) {
        None => Err(MigrationError::RecordMissing),
        Some(i) => {
            let rec = r.records[i];
            let descriptors = b.descriptors + rec.raw_length as nat;
            if descriptors > PAYLOAD {
                Err(MigrationError::ContentLimit)
            } else if rec.collection != Collection::Packets || rec.revision != f.revision {
                Err(MigrationError::PacketForeign)
            } else {
                match rec.field_text("source_id"@, IDENTITY_BYTES as nat) {
                    Err(e) => Err(e),
                    Ok(id) => if id != f.source_id {
                        Err(MigrationError::PacketForeign)
                    } else {
                        match rec.field_text("origin"@, IDENTITY_BYTES as nat) {
                            Err(e) => Err(e),
                            Ok(origin) => if !(file_history::origin_name(f.origin)
                                + ":"@).is_prefix_of(origin) {
                                Err(MigrationError::PacketForeign)
                            } else {
                                match record_content(BudgetModel { descriptors, ..b }, rec) {
                                    Err(e) => Err(e),
                                    Ok((after, hash)) => Ok(
                                        (after, ContentRowModel { origin, hash }),
                                    ),
                                }
                            },
                        }
                    },
                }
            }
        },
    }
}

/// The digests of the first `n` rows of an inspection, in the order of their
/// origins.
pub open spec fn rows_content(r: RetainedModel, f: FileScope, sequences: Seq<i64>, n: nat) -> Result<
    (BudgetModel, Seq<ContentRowModel>),
    MigrationError,
>
    decreases n,
{
    if n == 0 {
        Ok((BudgetModel { bytes: 0, descriptors: 0, chunks: 0, geometry: false }, Seq::empty()))
    } else {
        match rows_content(r, f, sequences, (n - 1) as nat) {
            Err(e) => Err(e),
            Ok((b, before)) => match row_content(r, f, b, sequences[n - 1]) {
                Err(e) => Err(e),
                Ok((after, row)) => if support::first_where(before, of_origin(row.origin)) is Some {
                    Err(MigrationError::PacketIndex)
                } else {
                    Ok((after, with_row(before, row)))
                },
            },
        }
    }
}

proof fn lemma_rows_error(r: RetainedModel, f: FileScope, sequences: Seq<i64>, n: nat)
    requires
        n <= sequences.len(),
        rows_content(r, f, sequences, n) is Err,
    ensures
        rows_content(r, f, sequences, sequences.len()) == rows_content(r, f, sequences, n),
    decreases sequences.len() - n,
{
    if n < sequences.len() {
        lemma_rows_error(r, f, sequences, n + 1);
    }
}

/// Numbers with commas between them.
pub open spec fn numbers_text(values: Seq<nat>, n: nat) -> Seq<char>
    decreases n,
{
    if n == 0 {
        ""@
    } else {
        numbers_text(values, (n - 1) as nat) + if n > 1 {
            ","@
        } else {
            ""@
        } + edit::decimal_text(values[n - 1])
    }
}

/// A path as a document.
pub open spec fn path_document(path: retained::PathModel) -> Seq<char> {
    match path {
        retained::PathModel::UnixBytes(v) => "{\"encoding\":\"UnixBytes\",\"units\":["@ + numbers_text(
            v.map_values(|b: u8| b as nat),
            v.len(),
        ) + "]}"@,
        retained::PathModel::WindowsWide(v) => "{\"encoding\":\"WindowsWide\",\"units\":["@ + numbers_text(
            v.map_values(|b: u16| b as nat),
            v.len(),
        ) + "]}"@,
    }
}

pub(crate) fn make_path_document(path: &NativePath) -> (d: String)
    ensures
        d@ == path_document(path@),
{
    match path {
        NativePath::UnixBytes(v) => {
            let ghost values = v@.map_values(|b: u8| b as nat);
            let mut d: String = "{\"encoding\":\"UnixBytes\",\"units\":[".to_owned();
            let ghost head = d@;
            let mut i: usize = 0;
            assert(d@ =~= head + numbers_text(values, 0)) by {
                reveal_strlit("");
            }
            while i < v.len()
                invariant
                    i <= v@.len(),
                    values == v@.map_values(|b: u8| b as nat),
                    d@ == head + numbers_text(values, i as nat),
                decreases v@.len() - i,
            {
                d.append(
                    if i > 0 {
                        ","
                    } else {
                        ""
                    },
                );
                append_number(&mut d, v[i] as u64);
                i += 1;
                assert(d@ =~= head + numbers_text(values, i as nat));
            }
            d.append("]}");
            assert(d@ =~= path_document(path@));
            d
        },
        NativePath::WindowsWide(v) => {
            let ghost values = v@.map_values(|b: u16| b as nat);
            let mut d: String = "{\"encoding\":\"WindowsWide\",\"units\":[".to_owned();
            let ghost head = d@;
            let mut i: usize = 0;
            assert(d@ =~= head + numbers_text(values, 0)) by {
                reveal_strlit("");
            }
            while i < v.len()
                invariant
                    i <= v@.len(),
                    values == v@.map_values(|b: u16| b as nat),
                    d@ == head + numbers_text(values, i as nat),
                decreases v@.len() - i,
            {
                d.append(
                    if i > 0 {
                        ","
                    } else {
                        ""
                    },
                );
                append_number(&mut d, v[i] as u64);
                i += 1;
                assert(d@ =~= head + numbers_text(values, i as nat));
            }
            d.append("]}");
            assert(d@ =~= path_document(path@));
            d
        },
    }
}

/// The first `n` rows as a document.
pub open spec fn rows_document(rows: Seq<ContentRowModel>, n: nat) -> Option<Seq<char>>
    decreases n,
{
    if n == 0 {
        Some(""@)
    } else {
        match (rows_document(rows, (n - 1) as nat), outside::json_text(rows[n - 1].origin)) {
            (Some(before), Some(origin)) => Some(
                before + if n > 1 {
                    ","@
                } else {
                    ""@
                } + origin + ":\""@ + rows[n - 1].hash + "\""@,
            ),
            _ => None,
        }
    }
}

proof fn lemma_document_none(rows: Seq<ContentRowModel>, n: nat)
    requires
        n <= rows.len(),
        rows_document(rows, n) is None,
    ensures
        rows_document(rows, rows.len()) is None,
    decreases rows.len() - n,
{
    if n < rows.len() {
        lemma_document_none(rows, n + 1);
    }
}

fn make_rows_document(rows: &Vec<ContentRow>) -> (d: Option<String>)
    ensures
        support::text_of(d) == rows_document(support::models(rows@), rows@.len()),
{
    let ghost all = support::models(rows@);
    let mut d: String = "".to_owned();
    let mut n: usize = 0;
    while n < rows.len()
        invariant
            n <= rows@.len(),
            all == support::models(rows@),
            rows_document(all, n as nat) == Some(d@),
        decreases rows@.len() - n,
    {
        assert(all[n as int] == rows@[n as int]@);
        match json_string(rows[n].origin.as_str()) {
            None => {
                proof {
                    lemma_document_none(all, (n + 1) as nat);
                }
                return None;
            },
            Some(origin) => {
                let ghost before = d@;
                d.append(
                    if n > 0 {
                        ","
                    } else {
                        ""
                    },
                );
                d.append(origin.as_str());
                d.append(":\"");
                d.append(rows[n].hash.as_str());
                d.append("\"");
                assert(d@ =~= rows_document(all, (n + 1) as nat)->0);
            },
        }
        n += 1;
    }
    Some(d)
}

/// The digest of everything that an earlier inspection of an origin left, and
/// whether the chunks of some field stand for its bytes.
pub open spec fn historical_content(
    r: RetainedModel,
    f: FileScope,
    sequences: Seq<i64>,
    path: retained::PathModel,
) -> Result<(Seq<char>, bool), MigrationError> {
    match rows_content(r, f, sequences, sequences.len()) {
        Err(e) => Err(e),
        Ok((b, rows)) => match rows_document(rows, rows.len()) {
            None => Err(MigrationError::DocumentBounds),
            Some(body) => {
                let document = encode_utf8(
                    "{\"path\":"@ + path_document(path) + ",\"records\":{"@ + body + "}}"@,
                );
                if document.len() > META {
                    Err(MigrationError::DocumentBounds)
                } else {
                    Ok((outside::blake3_hex(document), b.geometry))
                }
            },
        },
    }
}

fn begins_with(text: &str, o: Origin) -> (r: bool)
    ensures
        r == (file_history::origin_name(o) + ":"@).is_prefix_of(text@),
{
    let mut head: String = o.name().to_owned();
    head.append(":");
    let n: usize = head.as_str().unicode_len();
    let ghost fixed = file_history::origin_name(o) + ":"@;
    assert(head@ =~= fixed);
    if text.unicode_len() < n {
        return false;
    }
    let r: bool = same(text.substring_char(0, n), head.as_str());
    proof {
        assert(text@.subrange(0, n as int) =~= text@.take(n as int));
        if fixed.is_prefix_of(text@) {
            assert(text@.subrange(0, n as int) =~= fixed);
        }
    }
    r
}

fn bind_row(
    r: &Retained,
    revision: &str,
    source_id: &str,
    o: Origin,
    b: &mut ContentBudget,
    sequence: i64,
    Ghost(f): Ghost<FileScope>,
) -> (out: Result<ContentRow, MigrationError>)
    requires
        within(old(b)@),
        f.revision == revision@,
        f.source_id == source_id@,
        f.origin == o,
    ensures
        within(final(b)@),
        match row_content(r@, f, old(b)@, sequence) {
            Err(e) => out == Err::<ContentRow, MigrationError>(e),
            Ok((after, row)) => out matches Ok(found) && found@ == row && final(b)@ == after,
        },
{
    let i: usize = match r.find_record(sequence) {
        None => return Err(MigrationError::RecordMissing),
        Some(i) => i,
    };
    let rec = &r.records[i];
    if rec.raw_length as u64 > PAYLOAD as u64 - b.descriptors {
        return Err(MigrationError::ContentLimit);
    }
    b.descriptors = b.descriptors + rec.raw_length as u64;
    if rec.collection != Collection::Packets || !same(rec.revision.as_str(), revision) {
        return Err(MigrationError::PacketForeign);
    }
    match rec.read_text("source_id", IDENTITY_BYTES) {
        Err(e) => return Err(e),
        Ok(id) => {
            if !same(id.as_str(), source_id) {
                return Err(MigrationError::PacketForeign);
            }
        },
    }
    let origin: String = match rec.read_text("origin", IDENTITY_BYTES) {
        Err(e) => return Err(e),
        Ok(origin) => origin,
    };
    if !begins_with(origin.as_str(), o) {
        return Err(MigrationError::PacketForeign);
    }
    match bind_record(b, rec) {
        Err(e) => Err(e),
        Ok(hash) => Ok(ContentRow { origin, hash }),
    }
}

/// The digest of everything that an earlier inspection of an origin left.
pub fn bind_content(
    r: &Retained,
    input: &str,
    revision: &str,
    source_id: &str,
    o: Origin,
    sequences: &Vec<i64>,
    path: &NativePath,
) -> (out: Result<(String, bool), MigrationError>)
    ensures
        match historical_content(
            r@,
            (FileScope { input: input@, revision: revision@, source_id: source_id@, origin: o }),
            sequences@,
            path@,
        ) {
            Err(e) => out == Err::<(String, bool), MigrationError>(e),
            Ok((digest, geometry)) => out matches Ok((d, g)) && d@ == digest && g == geometry,
        },
{
    let ghost f = FileScope {
        input: input@,
        revision: revision@,
        source_id: source_id@,
        origin: o,
    };
    let mut b: ContentBudget = ContentBudget::new();
    let mut rows: Vec<ContentRow> = Vec::new();
    let mut n: usize = 0;
    assert(support::models(rows@) =~= Seq::<ContentRowModel>::empty());
    while n < sequences.len()
        invariant
            n <= sequences@.len(),
            f == (FileScope {
                input: input@,
                revision: revision@,
                source_id: source_id@,
                origin: o,
            }),
            within(b@),
            rows_content(r@, f, sequences@, n as nat) == Ok::<
                (BudgetModel, Seq<ContentRowModel>),
                MigrationError,
            >((b@, support::models(rows@))),
        decreases sequences@.len() - n,
    {
        match bind_row(r, revision, source_id, o, &mut b, sequences[n], Ghost(f)) {
            Err(e) => {
                proof {
                    lemma_rows_error(r@, f, sequences@, (n + 1) as nat);
                }
                return Err(e);
            },
            Ok(row) => {
                let test = |r: &ContentRow| -> (b: bool)
                    ensures b == of_origin(row.origin@)(r@)
                {
                    same(r.origin.as_str(), row.origin.as_str())
                };
                if find(&rows, test, Ghost(of_origin(row.origin@))).is_some() {
                    proof {
                        lemma_rows_error(r@, f, sequences@, (n + 1) as nat);
                    }
                    return Err(MigrationError::PacketIndex);
                }
                insert_row(&mut rows, row);
            },
        }
        n += 1;
    }
    match make_rows_document(&rows) {
        None => Err(MigrationError::DocumentBounds),
        Some(body) => {
            let mut d: String = "{\"path\":".to_owned();
            d.append(make_path_document(path).as_str());
            d.append(",\"records\":{");
            d.append(body.as_str());
            d.append("}}");
            assert(support::models(rows@).len() == rows@.len());
            assert(d@ =~= "{\"path\":"@ + path_document(path@) + ",\"records\":{"@ + body@ + "}}"@);
            let bytes = d.as_str().as_bytes();
            if bytes.len() > META {
                Err(MigrationError::DocumentBounds)
            } else {
                Ok((blake3_digest(bytes), b.geometry))
            }
        },
    }
}

} // verus!

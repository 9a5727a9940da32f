//! What the rows of a selected catalog are to become: which row a step is about,
//! where its relations lead, and what is asked of the catalog for it.
use crate::catalog::Catalog;
use crate::catalog_migration::file_history::Origin;
use crate::catalog_migration::file_metadata;
use crate::catalog_migration::file_metadata::Association;
use crate::catalog_migration::images;
use crate::catalog_migration::images::{
    has_mapped_image, Decision, Projections, ProjectionsModel, Role,
};
use crate::catalog_migration::importer;
use crate::catalog_migration::importer::{Outcome, OverlapPolicy, Policy, RowModel, RowResult, Stage};
use crate::catalog_migration::proofs;
use crate::catalog_migration::proofs::{
    find_columns, find_target, get_column, prove_source, Link, LinkModel, SourceKey, SourceKeyModel,
    SourceRecord, SourceRecordModel, DOCUMENT_LIMIT, GROUP_LIMIT, IDENTITY_BYTES, TABLE_BYTES,
};
use crate::catalog_migration::retained;
use crate::catalog_migration::retained::{
    bytes_of, zero, Cell, CellModel, Collection, Compatibility, Detail, EvidenceRecord, Field, Lookup,
    MigrationError, NativePath, Page, Query, RecordModel, Retained, RetainedModel,
};
use crate::copies::Copied;
use crate::outside::text_from_utf8;
use crate::support;
use crate::support::{copy_bytes, same};
use crate::tables::{Tables, TablesModel};
use vstd::prelude::*;
use vstd::string::*;
use vstd::utf8::*;

verus! {

/// The most bytes of a key as a document.
pub const KEY_BYTES: usize = 65536;

/// The most bytes of a copy's name.
pub const LABEL_BYTES: usize = 4096;

/// The most bytes of a path as a document.
pub const PATH_BYTES: usize = 131072;

/// The bytes of a field, which has to have some.
pub open spec fn bytes_in(rec: RecordModel, name: Seq<char>) -> Result<nat, MigrationError> {
    match rec.field(name) {
        None => Err(MigrationError::FieldMissing),
        Some(f) => match f.bytes() {
            None => Err(MigrationError::FieldType),
            Some(v) => Ok(v.len()),
        },
    }
}

fn count_bytes(rec: &EvidenceRecord, name: &str) -> (r: Result<usize, MigrationError>)
    ensures
        match bytes_in(rec@, name@) {
            Err(e) => r == Err::<usize, MigrationError>(e),
            Ok(n) => r matches Ok(k) && k == n,
        },
{
    match rec.get(name) {
        None => Err(MigrationError::FieldMissing),
        Some(f) => match bytes_of(f) {
            None => Err(MigrationError::FieldType),
            Some(v) => Ok(v.len()),
        },
    }
}

/// The source row of a record.
pub open spec fn row_record(r: RetainedModel, sequence: i64) -> Result<
    SourceRecordModel,
    MigrationError,
> {
    match r.record_of(sequence) {
        None => Err(MigrationError::RecordMissing),
        Some(i) => match r.records[i].key {
            None => Err(MigrationError::KeyDamaged),
            Some(k) => match r.records[i].field_text("table_name"@, TABLE_BYTES as nat) {
                Err(e) => Err(e),
                Ok(table) => Ok(
                    SourceRecordModel {
                        retained_record: sequence,
                        source: SourceKeyModel {
                            capture_revision: r.records[i].revision,
                            table,
                            key: k.key,
                            identity: k.identity,
                        },
                    },
                ),
            },
        },
    }
}

pub(crate) fn find_row_record(r: &Retained, sequence: i64) -> (out: Result<SourceRecord, MigrationError>)
    ensures
        match row_record(r@, sequence) {
            Err(e) => out == Err::<SourceRecord, MigrationError>(e),
            Ok(s) => out matches Ok(found) && found@ == s,
        },
{
    let i: usize = match r.find_record(sequence) {
        None => return Err(MigrationError::RecordMissing),
        Some(i) => i,
    };
    let rec = &r.records[i];
    match &rec.key {
        None => Err(MigrationError::KeyDamaged),
        Some(k) => match rec.read_text("table_name", TABLE_BYTES) {
            Err(e) => Err(e),
            Ok(table) => Ok(
                SourceRecord {
                    retained_record: sequence,
                    source: SourceKey {
                        capture_revision: rec.revision.clone(),
                        table,
                        key: k.key.clone(),
                        identity: k.identity.clone(),
                    },
                },
            ),
        },
    }
}

/// The source row that a step is about, or why it is only kept.
pub open spec fn origin_of(r: RetainedModel, input: Seq<char>, revision: Seq<char>, sequence: i64) -> Result<
    Result<SourceRecordModel, Seq<char>>,
    MigrationError,
> {
    match r.record_of(sequence) {
        None => Err(MigrationError::RecordMissing),
        Some(i) => {
            let rec = r.records[i];
            if rec.revision != revision || rec.collection != Collection::Rows {
                Err(MigrationError::RecordKind)
            } else if rec.input != input {
                Err(MigrationError::RecordForeign)
            } else {
                match (
                    bytes_in(rec, "source_id"@),
                    bytes_in(rec, "table_name"@),
                    bytes_in(rec, "key_json"@),
                ) {
                    (Err(e), _, _) => Err(e),
                    (Ok(a), b, c) => if a > IDENTITY_BYTES {
                        Ok(
                            Err(
                                "Source source_id exceeds supported identity bounds; full row retained"@,
                            ),
                        )
                    } else {
                        match (b, c) {
                            (Err(e), _) => Err(e),
                            (Ok(b), c) => if b > TABLE_BYTES {
                                Ok(
                                    Err(
                                        "Source table_name exceeds supported identity bounds; full row retained"@,
                                    ),
                                )
                            } else {
                                match c {
                                    Err(e) => Err(e),
                                    Ok(c) => if c > KEY_BYTES {
                                        Ok(
                                            Err(
                                                "Source key_json exceeds supported identity bounds; full row retained"@,
                                            ),
                                        )
                                    } else {
                                        named_row(r, rec, sequence)
                                    },
                                }
                            },
                        }
                    },
                }
            }
        },
    }
}

/// The most values of a typed key.
pub const TYPED_KEY_CELLS: usize = 128;

/// The most bytes of a typed key.
pub const TYPED_KEY_BYTES: usize = 16384;

/// The bytes that a value of a key takes up.
pub open spec fn cell_bytes(cell: CellModel) -> nat {
    match cell {
        CellModel::Text(v) => v.len(),
        CellModel::Blob(v) => v.len(),
        _ => 8,
    }
}

/// The bytes that the first `n` values of a key take up.
pub open spec fn typed_key_bytes(cells: Seq<CellModel>, n: nat) -> nat
    decreases n,
{
    if n == 0 {
        0
    } else {
        typed_key_bytes(cells, (n - 1) as nat) + cell_bytes(cells[n - 1])
    }
}

/// A typed key can be a row's identity: it has a value, and neither too many of them nor
/// too many bytes.
pub open spec fn typed_key_bounded(cells: Seq<CellModel>) -> bool {
    0 < cells.len() <= TYPED_KEY_CELLS && typed_key_bytes(cells, cells.len()) <= TYPED_KEY_BYTES
}

proof fn lemma_typed_key_grows(cells: Seq<CellModel>, n: nat)
    requires
        n <= cells.len(),
    ensures
        typed_key_bytes(cells, n) <= typed_key_bytes(cells, cells.len()),
    decreases cells.len() - n,
{
    if n < cells.len() {
        lemma_typed_key_grows(cells, n + 1);
    }
}

/// Whether a typed key can be a row's identity.
pub fn is_typed_key_bounded(cells: &Vec<Cell>) -> (r: bool)
    ensures
        r == typed_key_bounded(support::models(cells@)),
{
    let ghost all = support::models(cells@);
    assert(all.len() == cells@.len());
    if cells.len() == 0 || cells.len() > TYPED_KEY_CELLS {
        return false;
    }
    let mut left: usize = TYPED_KEY_BYTES;
    let mut i: usize = 0;
    while i < cells.len()
        invariant
            i <= cells@.len(),
            all == support::models(cells@),
            left <= TYPED_KEY_BYTES,
            typed_key_bytes(all, i as nat) == TYPED_KEY_BYTES - left,
        decreases cells@.len() - i,
    {
        assert(all[i as int] == cells@[i as int]@);
        let bytes: usize = match &cells[i] {
            Cell::Text(v) => v.len(),
            Cell::Blob(v) => v.len(),
            _ => 8,
        };
        if bytes > left {
            proof {
                lemma_typed_key_grows(all, (i + 1) as nat);
            }
            return false;
        }
        left = left - bytes;
        i += 1;
    }
    true
}

/// The source row of a record whose name can be read, or why it is only kept. A key that
/// cannot be read is damaged; one that is out of bounds leaves its row retained.
pub open spec fn named_row(r: RetainedModel, rec: RecordModel, sequence: i64) -> Result<
    Result<SourceRecordModel, Seq<char>>,
    MigrationError,
> {
    match rec.key_cells {
        None => Err(MigrationError::KeyDamaged),
        Some(cells) => if !typed_key_bounded(cells) {
            Ok(Err("Source typed key exceeds supported identity bounds; full row retained"@))
        } else {
            match rec.field_text("source_id"@, IDENTITY_BYTES as nat) {
                Err(MigrationError::NotText) => Ok(
                    Err("Source identity is not UTF-8; full row retained"@),
                ),
                Err(e) => Err(e),
                Ok(_) => match row_record(r, sequence) {
                    Err(e) => Err(e),
                    Ok(s) => Ok(Ok(s)),
                },
            }
        },
    }
}

/// The source row that a step is about, or why it is only kept.
pub fn prepared_origin(r: &Retained, input: &str, revision: &str, sequence: i64) -> (out: Result<
    Result<SourceRecord, String>,
    MigrationError,
>)
    ensures
        match origin_of(r@, input@, revision@, sequence) {
            Err(e) => out == Err::<Result<SourceRecord, String>, MigrationError>(e),
            Ok(Err(reason)) => out matches Ok(Err(why)) && why@ == reason,
            Ok(Ok(s)) => out matches Ok(Ok(found)) && found@ == s,
        },
{
    let i: usize = match r.find_record(sequence) {
        None => return Err(MigrationError::RecordMissing),
        Some(i) => i,
    };
    let rec = &r.records[i];
    if rec.collection != Collection::Rows || !same(rec.revision.as_str(), revision) {
        return Err(MigrationError::RecordKind);
    }
    if !same(rec.input.as_str(), input) {
        return Err(MigrationError::RecordForeign);
    }
    match count_bytes(rec, "source_id") {
        Err(e) => return Err(e),
        Ok(n) => {
            if n > IDENTITY_BYTES {
                return Ok(
                    Err(
                        "Source source_id exceeds supported identity bounds; full row retained".to_owned(),
                    ),
                );
            }
        },
    }
    match count_bytes(rec, "table_name") {
        Err(e) => return Err(e),
        Ok(n) => {
            if n > TABLE_BYTES {
                return Ok(
                    Err(
                        "Source table_name exceeds supported identity bounds; full row retained".to_owned(),
                    ),
                );
            }
        },
    }
    match count_bytes(rec, "key_json") {
        Err(e) => return Err(e),
        Ok(n) => {
            if n > KEY_BYTES {
                return Ok(
                    Err(
                        "Source key_json exceeds supported identity bounds; full row retained".to_owned(),
                    ),
                );
            }
        },
    }
    match &rec.key_cells {
        None => return Err(MigrationError::KeyDamaged),
        Some(cells) => {
            if !is_typed_key_bounded(cells) {
                return Ok(
                    Err(
                        "Source typed key exceeds supported identity bounds; full row retained".to_owned(),
                    ),
                );
            }
        },
    }
    match rec.read_text("source_id", IDENTITY_BYTES) {
        Err(MigrationError::NotText) => return Ok(
            Err("Source identity is not UTF-8; full row retained".to_owned()),
        ),
        Err(e) => return Err(e),
        Ok(_) => {},
    }
    match find_row_record(r, sequence) {
        Err(e) => Err(e),
        Ok(s) => Ok(Ok(s)),
    }
}

/// The record of a table of a capture.
pub open spec fn schema_of(r: RetainedModel, input: Seq<char>, revision: Seq<char>, table: Seq<char>) -> Result<
    i64,
    MigrationError,
> {
    match r.unique(input, revision, Query::TableByName(table)) {
        Err(why) => Err(retained::relation_error(why)),
        Ok(id) => Ok(id),
    }
}

fn find_schema(r: &Retained, input: &str, revision: &str, table: &str) -> (out: Result<
    i64,
    MigrationError,
>)
    ensures
        out == schema_of(r@, input@, revision@, table@),
{
    match r.find_unique(input, revision, &Lookup::TableByName(table.to_owned())) {
        Err(why) => Err(retained::to_relation_error(why)),
        Ok(id) => Ok(id),
    }
}

/// A reference leads to an entity.
pub open spec fn leads(
    r: RetainedModel,
    input: Seq<char>,
    revision: Seq<char>,
    table: Seq<char>,
    entity: i64,
) -> spec_fn(int) -> bool {
    |i: int|
        match r.records[i].typed_text("target_key"@, IDENTITY_BYTES as nat) {
            Err(_) => false,
            Ok(local_key) => r.unique(
                input,
                revision,
                Query::EntitiesByLocalKey { table_name: table, local_key },
            ) == Ok::<i64, Compatibility>(entity),
        }
}

/// The link of a row in one field into one table, or why there is none.
pub open spec fn link_of(
    r: RetainedModel,
    input: Seq<char>,
    origin: SourceRecordModel,
    field: Seq<char>,
    table: Seq<char>,
) -> Result<Result<LinkModel, Compatibility>, MigrationError> {
    let revision = origin.source.capture_revision;
    match proofs::source_proof(r, origin) {
        Err(e) => Err(e),
        Ok((_, source_id)) => match proofs::single_target(
            r,
            input,
            revision,
            source_id,
            field,
            table,
        ) {
            Err(why) => Ok(Err(why)),
            Ok(entity) => match r.record_of(entity) {
                None => Err(MigrationError::RecordMissing),
                Some(b) => match r.records[b].field_text("source_id"@, IDENTITY_BYTES as nat) {
                    Err(e) => Err(e),
                    Ok(target_id) => match r.unique(
                        input,
                        revision,
                        Query::RowsBySource(target_id),
                    ) {
                        Err(why) => Ok(Err(why)),
                        Ok(row) => match row_record(r, row) {
                            Err(e) => Err(e),
                            Ok(target) => {
                                let hits = r.hits(
                                    input,
                                    revision,
                                    Query::References {
                                        source_id,
                                        field: Some(field),
                                        target_table: Some(table),
                                    },
                                    None,
                                );
                                match support::first_where(
                                    hits,
                                    leads(r, input, revision, table, entity),
                                ) {
                                    None => Ok(Err(Compatibility::Unavailable)),
                                    Some(k) => Ok(
                                        Ok(
                                            LinkModel {
                                                reference_record: r.records[hits[k]].sequence,
                                                target_entity_record: entity,
                                                field,
                                                target,
                                            },
                                        ),
                                    ),
                                }
                            },
                        },
                    },
                },
            },
        },
    }
}

fn find_leading(
    r: &Retained,
    input: &str,
    revision: &str,
    source_id: &str,
    field: &str,
    table: &str,
    entity: i64,
) -> (out: Option<i64>)
    requires
        r@.hits(
            input@,
            revision@,
            Query::References {
                source_id: source_id@,
                field: Some(field@),
                target_table: Some(table@),
            },
            None,
        ).len() <= GROUP_LIMIT,
    ensures
        ({
            let hits = r@.hits(
                input@,
                revision@,
                Query::References {
                    source_id: source_id@,
                    field: Some(field@),
                    target_table: Some(table@),
                },
                None,
            );
            match support::first_where(hits, leads(r@, input@, revision@, table@, entity)) {
                None => out is None,
                Some(k) => out == Some(r@.records[hits[k]].sequence),
            }
        }),
{
    let q: Lookup = Lookup::References {
        source_id: source_id.to_owned(),
        field: Some(field.to_owned()),
        target_table: Some(table.to_owned()),
    };
    let page: Page = r.lookup(input, revision, &q, None, GROUP_LIMIT);
    let ghost hits = r@.hits(input@, revision@, q@, None);
    let ghost p = leads(r@, input@, revision@, table@, entity);
    assert(support::ints(page.hits@) == hits);
    let mut n: usize = 0;
    while n < page.hits.len()
        invariant
            n <= page.hits@.len(),
            support::ints(page.hits@) == hits,
            q@ == (Query::References {
                source_id: source_id@,
                field: Some(field@),
                target_table: Some(table@),
            }),
            hits == r@.hits(input@, revision@, q@, None),
            p == leads(r@, input@, revision@, table@, entity),
            forall|k: int|
                0 <= k < page.hits@.len() ==> (#[trigger] page.hits@[k]) < r.records@.len(),
            forall|k: int| 0 <= k < n ==> !p(#[trigger] hits[k]),
        decreases page.hits@.len() - n,
    {
        let i: usize = page.hits[n];
        proof {
            assert(hits[n as int] == i as int);
            assert(r@.records[i as int] == r.records@[i as int]@);
        }
        let leading: bool = match r.records[i].read_typed_text("target_key", IDENTITY_BYTES) {
            Err(_) => false,
            Ok(local_key) => match r.find_unique(
                input,
                revision,
                &Lookup::EntitiesByLocalKey { table_name: table.to_owned(), local_key },
            ) {
                Ok(id) => id == entity,
                Err(_) => false,
            },
        };
        assert(leading == p(hits[n as int]));
        if leading {
            proof {
                support::lemma_first_found(hits, p, n as int);
            }
            return Some(r.records[i].sequence);
        }
        n += 1;
    }
    proof {
        assert(hits.len() == page.hits@.len());
        support::lemma_none_found(hits, p);
    }
    None
}

/// The link of a row in one field into one table, or why there is none.
pub fn find_link(r: &Retained, input: &str, origin: &SourceRecord, field: &str, table: &str) -> (out:
    Result<Result<Link, Compatibility>, MigrationError>)
    ensures
        match link_of(r@, input@, origin@, field@, table@) {
            Err(e) => out == Err::<Result<Link, Compatibility>, MigrationError>(e),
            Ok(Err(why)) => out == Ok::<Result<Link, Compatibility>, MigrationError>(Err(why)),
            Ok(Ok(link)) => out matches Ok(Ok(found)) && found@ == link,
        },
{
    let revision: &str = origin.source.capture_revision.as_str();
    let source_id: String = match prove_source(r, origin) {
        Err(e) => return Err(e),
        Ok((_, source_id)) => source_id,
    };
    let entity: i64 = match find_target(r, input, revision, source_id.as_str(), field, table) {
        Err(why) => return Ok(Err(why)),
        Ok(entity) => entity,
    };
    let b: usize = match r.find_record(entity) {
        None => return Err(MigrationError::RecordMissing),
        Some(b) => b,
    };
    let target_id: String = match r.records[b].read_text("source_id", IDENTITY_BYTES) {
        Err(e) => return Err(e),
        Ok(target_id) => target_id,
    };
    let row: i64 = match r.find_unique(input, revision, &Lookup::RowsBySource(target_id)) {
        Err(why) => return Ok(Err(why)),
        Ok(row) => row,
    };
    let target: SourceRecord = match find_row_record(r, row) {
        Err(e) => return Err(e),
        Ok(target) => target,
    };
    match find_leading(r, input, revision, source_id.as_str(), field, table, entity) {
        None => Ok(Err(Compatibility::Unavailable)),
        Some(reference_record) => Ok(
            Ok(
                Link {
                    reference_record,
                    target_entity_record: entity,
                    field: field.to_owned(),
                    target,
                },
            ),
        ),
    }
}

/// Why a relation cannot be relied upon, as a word.
pub open spec fn relation_word(why: Compatibility) -> Seq<char> {
    match why {
        Compatibility::RetainedOnly => "RetainedOnly"@,
        Compatibility::Missing => "Missing"@,
        Compatibility::Ambiguous => "Ambiguous"@,
        Compatibility::Unavailable => "Unavailable"@,
        Compatibility::OutsideImageHistory => "OutsideImageHistory"@,
        Compatibility::TraversalLimit => "TraversalLimit"@,
    }
}

fn get_relation_word(why: Compatibility) -> (r: &'static str)
    ensures
        r@ == relation_word(why),
{
    match why {
        Compatibility::RetainedOnly => "RetainedOnly",
        Compatibility::Missing => "Missing",
        Compatibility::Ambiguous => "Ambiguous",
        Compatibility::Unavailable => "Unavailable",
        Compatibility::OutsideImageHistory => "OutsideImageHistory",
        Compatibility::TraversalLimit => "TraversalLimit",
    }
}

fn relation_text(what: &str, why: Compatibility) -> (text: String)
    ensures
        text@ == what@ + relation_word(why),
{
    let mut text: String = what.to_owned();
    text.append(get_relation_word(why));
    text
}

/// The label of an image, or why it cannot be read.
pub open spec fn label_of(cell: Option<retained::CellModel>, is_master: bool) -> Result<
    Seq<char>,
    Seq<char>,
> {
    let plain = if is_master {
        "Original"@
    } else {
        "Virtual copy"@
    };
    match cell {
        None => Ok(plain),
        Some(retained::CellModel::Null) => Ok(plain),
        Some(retained::CellModel::Text(bytes)) => if bytes.len() == 0 {
            Ok(plain)
        } else if bytes.len() > LABEL_BYTES {
            Err("Source copy name exceeds interpretation limit; complete source retained"@)
        } else if !valid_utf8(bytes) {
            Err("Source copy name is not UTF-8; complete source retained"@)
        } else {
            Ok(decode_utf8(bytes))
        },
        _ => Err("Source copy name has unsupported type; complete source retained"@),
    }
}

fn read_label(cell: Option<&Cell>, is_master: bool) -> (r: Result<String, String>)
    ensures
        match label_of(
            (match cell {
                Some(c) => Some(c@),
                None => None,
            }),
            is_master,
        ) {
            Ok(label) => r matches Ok(text) && text@ == label,
            Err(reason) => r matches Err(text) && text@ == reason,
        },
{
    let plain: &str = if is_master {
        "Original"
    } else {
        "Virtual copy"
    };
    match cell {
        None => Ok(plain.to_owned()),
        Some(Cell::Null) => Ok(plain.to_owned()),
        Some(Cell::Text(bytes)) => {
            if bytes.len() == 0 {
                Ok(plain.to_owned())
            } else if bytes.len() > LABEL_BYTES {
                Err(
                    "Source copy name exceeds interpretation limit; complete source retained".to_owned(),
                )
            } else {
                match text_from_utf8(copy_bytes(bytes.as_slice())) {
                    None => Err(
                        "Source copy name is not UTF-8; complete source retained".to_owned(),
                    ),
                    Some(text) => Ok(text),
                }
            }
        },
        _ => Err("Source copy name has unsupported type; complete source retained".to_owned()),
    }
}

/// A file has a mapped original of an importer.
pub open spec fn has_original(p: ProjectionsModel, identity: Seq<char>, owner: Seq<char>) -> bool {
    p.original_at(identity) matches Some(k) && p.originals[k].import_source == owner
}

fn find_original(p: &Projections, identity: &str, owner: &str) -> (r: bool)
    ensures
        r == has_original(p@, identity@, owner@),
{
    match p.find_original_at(identity) {
        None => false,
        Some(k) => {
            assert(p@.originals[k as int] == p.originals@[k as int]@);
            same(p.originals[k].import_source.as_str(), owner)
        },
    }
}

/// A source image was registered by an importer.
pub open spec fn has_image(p: ProjectionsModel, identity: Seq<char>, owner: Seq<char>) -> bool {
    p.projection_at(identity) matches Some(k) && p.rows[k].owner == owner
        && p.rows[k].result.outcome is Image
}

fn find_image(p: &Projections, identity: &str, owner: &str) -> (r: bool)
    ensures
        r == has_image(p@, identity@, owner@),
{
    match p.find_projection_at(identity) {
        None => false,
        Some(k) => {
            assert(p@.rows[k as int] == p.rows@[k as int]@);
            let registered: bool = match &p.rows[k].result.outcome {
                images::Outcome::Image { .. } => true,
                images::Outcome::Retained { .. } => false,
            };
            registered && same(p.rows[k].owner.as_str(), owner)
        },
    }
}

/// The file that an image is of, or why it is not known.
pub open spec fn image_file(
    r: RetainedModel,
    p: ProjectionsModel,
    input: Seq<char>,
    owner: Seq<char>,
    origin: SourceRecordModel,
) -> Result<Result<LinkModel, Seq<char>>, MigrationError> {
    match link_of(r, input, origin, "rootFile"@, "AgLibraryFile"@) {
        Err(e) => Err(e),
        Ok(Err(why)) => Ok(Err("Original file relation: "@ + relation_word(why))),
        Ok(Ok(link)) => if has_original(p, link.target.source.identity, owner) {
            Ok(Ok(link))
        } else {
            Ok(Err("Original path is unresolved; no native physical asset was invented"@))
        },
    }
}

/// The master that an image is a copy of, none for a master, or why it is not known.
pub open spec fn image_role(
    r: RetainedModel,
    p: ProjectionsModel,
    input: Seq<char>,
    owner: Seq<char>,
    origin: SourceRecordModel,
    table: i64,
    master: Option<retained::CellModel>,
) -> Result<Result<Option<LinkModel>, Seq<char>>, MigrationError> {
    match master {
        None => Ok(Err("Source schema has no masterImage classification"@)),
        Some(cell) => if cell.is_zero() {
            Ok(Ok(None))
        } else {
            match link_of(r, input, origin, "masterImage"@, "Adobe_images"@) {
                Err(e) => Err(e),
                Ok(Err(why)) => Ok(Err("Virtual parent relation: "@ + relation_word(why))),
                Ok(Ok(link)) => match proofs::columns(r, link.target, table) {
                    Err(e) => Err(e),
                    Ok((names, values)) => if (proofs::column(
                        names,
                        values,
                        "masterImage"@,
                    ) matches Some(c) && c.is_zero()) && has_image(
                        p,
                        link.target.source.identity,
                        owner,
                    ) {
                        Ok(Ok(Some(link)))
                    } else {
                        Ok(Err("Virtual parent is not a registered source master"@))
                    },
                },
            }
        },
    }
}

/// What a source image is to become.
pub enum ImageChoice {
    /// It is an image of the role that another stage is about.
    OtherRole,
    Retain { table: i64, reason: Seq<char> },
    Register { table: i64, file: LinkModel, master: Option<LinkModel>, label: Seq<char> },
}

/// What a source image is to become, once its columns are known. Where several things
/// stand against it, the last one is given as the reason.
pub open spec fn image_known(
    r: RetainedModel,
    p: ProjectionsModel,
    input: Seq<char>,
    owner: Seq<char>,
    origin: SourceRecordModel,
    table: i64,
    names: Seq<Seq<char>>,
    values: Seq<retained::CellModel>,
    stage: Stage,
) -> Result<ImageChoice, MigrationError> {
    let master = proofs::column(names, values, "masterImage"@);
    let is_master = master matches Some(c) && c.is_zero();
    if (stage == Stage::Masters && !is_master) || (stage == Stage::VirtualCopies && is_master) {
        Ok(ImageChoice::OtherRole)
    } else {
        let label = label_of(proofs::column(names, values, "copyName"@), is_master);
        match image_file(r, p, input, owner, origin) {
            Err(e) => Err(e),
            Ok(file) => match image_role(r, p, input, owner, origin, table, master) {
                Err(e) => Err(e),
                Ok(role) => match (label, file, role) {
                    (_, _, Err(reason)) => Ok(ImageChoice::Retain { table, reason }),
                    (_, Err(reason), _) => Ok(ImageChoice::Retain { table, reason }),
                    (Err(reason), _, _) => Ok(ImageChoice::Retain { table, reason }),
                    (Ok(label), Ok(file), Ok(master)) => Ok(
                        ImageChoice::Register { table, file, master, label },
                    ),
                },
            },
        }
    }
}

/// What a source image is to become.
#[verifier::opaque]
pub open spec fn image_choice(
    r: RetainedModel,
    p: ProjectionsModel,
    input: Seq<char>,
    owner: Seq<char>,
    origin: SourceRecordModel,
    stage: Stage,
) -> Result<ImageChoice, MigrationError> {
    match schema_of(r, input, origin.source.capture_revision, "Adobe_images"@) {
        Err(e) => Err(e),
        Ok(table) => match (r.record_of(origin.retained_record), r.record_of(table)) {
            (Some(a), Some(b)) => match (
                bytes_in(r.records[a], "cells_json"@),
                bytes_in(r.records[b], "columns_json"@),
            ) {
                (Err(e), _) => Err(e),
                (Ok(cells), columns) => if cells > DOCUMENT_LIMIT {
                    Ok(ImageChoice::Retain { table, reason: oversized() })
                } else {
                    match columns {
                        Err(e) => Err(e),
                        Ok(columns) => if columns > DOCUMENT_LIMIT {
                            Ok(ImageChoice::Retain { table, reason: oversized() })
                        } else {
                            match proofs::columns(r, origin, table) {
                                Err(e) => Err(e),
                                Ok((names, values)) => image_known(
                                    r,
                                    p,
                                    input,
                                    owner,
                                    origin,
                                    table,
                                    names,
                                    values,
                                    stage,
                                ),
                            }
                        },
                    }
                },
            },
            _ => Err(MigrationError::RecordMissing),
        },
    }
}

/// Why an image with too many values is only kept.
pub open spec fn oversized() -> Seq<char> {
    "Image interpretation exceeds bounded cells/columns limits; complete original row retained"@
}

/// A request says what a source image is to become.
pub open spec fn asks(
    request: images::Projection,
    choice: ImageChoice,
    origin: SourceRecordModel,
    owner: Seq<char>,
) -> bool {
    &&& request.origin@ == origin
    &&& request.import_source@ == owner
    &&& match (choice, request.decision) {
        (ImageChoice::Retain { table, reason }, Decision::Retain { reason: said }) => said@ == reason
            && request.retained_table == table,
        (
            ImageChoice::Register { table, file, master, label },
            Decision::Register { file: of, role, label: named },
        ) => request.retained_table == table && of@ == file && named@ == label && match (
            role,
            master,
        ) {
            (Role::Master, None) => true,
            (Role::Virtual { master: link }, Some(found)) => link@ == found,
            _ => false,
        },
        _ => false,
    }
}

fn find_file(
    r: &Retained,
    p: &Projections,
    input: &str,
    owner: &str,
    origin: &SourceRecord,
) -> (out: Result<Result<Link, String>, MigrationError>)
    ensures
        match image_file(r@, p@, input@, owner@, origin@) {
            Err(e) => out == Err::<Result<Link, String>, MigrationError>(e),
            Ok(Err(reason)) => out matches Ok(Err(text)) && text@ == reason,
            Ok(Ok(link)) => out matches Ok(Ok(found)) && found@ == link,
        },
{
    match find_link(r, input, origin, "rootFile", "AgLibraryFile") {
        Err(e) => Err(e),
        Ok(Err(why)) => Ok(Err(relation_text("Original file relation: ", why))),
        Ok(Ok(link)) => {
            if find_original(p, link.target.source.identity.as_str(), owner) {
                Ok(Ok(link))
            } else {
                Ok(
                    Err(
                        "Original path is unresolved; no native physical asset was invented".to_owned(),
                    ),
                )
            }
        },
    }
}

fn find_role(
    r: &Retained,
    p: &Projections,
    input: &str,
    owner: &str,
    origin: &SourceRecord,
    table: i64,
    master: Option<&Cell>,
) -> (out: Result<Result<Option<Link>, String>, MigrationError>)
    ensures
        match image_role(
            r@,
            p@,
            input@,
            owner@,
            origin@,
            table,
            (match master {
                Some(c) => Some(c@),
                None => None,
            }),
        ) {
            Err(e) => out == Err::<Result<Option<Link>, String>, MigrationError>(e),
            Ok(Err(reason)) => out matches Ok(Err(text)) && text@ == reason,
            Ok(Ok(None)) => out matches Ok(Ok(found)) && found is None,
            Ok(Ok(Some(link))) => out matches Ok(Ok(Some(found))) && found@ == link,
        },
{
    let cell: &Cell = match master {
        None => return Ok(
            Err("Source schema has no masterImage classification".to_owned()),
        ),
        Some(cell) => cell,
    };
    if zero(cell) {
        return Ok(Ok(None));
    }
    match find_link(r, input, origin, "masterImage", "Adobe_images") {
        Err(e) => Err(e),
        Ok(Err(why)) => Ok(Err(relation_text("Virtual parent relation: ", why))),
        Ok(Ok(link)) => match find_columns(r, &link.target, table) {
            Err(e) => Err(e),
            Ok((row, t)) => {
                let parent: bool = match get_column(r, row, t, "masterImage") {
                    Some(c) => zero(c),
                    None => false,
                };
                if parent && find_image(p, link.target.source.identity.as_str(), owner) {
                    Ok(Ok(Some(link)))
                } else {
                    Ok(Err("Virtual parent is not a registered source master".to_owned()))
                }
            },
        },
    }
}

/// What to ask of the catalog for a source image; nothing for an image of the role
/// that another stage is about.
pub fn choose_image(
    r: &Retained,
    p: &Projections,
    input: &str,
    owner: &str,
    origin: &SourceRecord,
    stage: Stage,
) -> (out: Result<Option<images::Projection>, MigrationError>)
    ensures
        match image_choice(r@, p@, input@, owner@, origin@, stage) {
            Err(e) => out == Err::<Option<images::Projection>, MigrationError>(e),
            Ok(ImageChoice::OtherRole) => out matches Ok(request) && request is None,
            Ok(choice) => out matches Ok(Some(request)) && asks(request, choice, origin@, owner@),
        },
{
    reveal(image_choice);
    let table: i64 = match find_schema(
        r,
        input,
        origin.source.capture_revision.as_str(),
        "Adobe_images",
    ) {
        Err(e) => return Err(e),
        Ok(table) => table,
    };
    let a: usize = match r.find_record(origin.retained_record) {
        None => return Err(MigrationError::RecordMissing),
        Some(a) => a,
    };
    let b: usize = match r.find_record(table) {
        None => return Err(MigrationError::RecordMissing),
        Some(b) => b,
    };
    let cells: usize = match count_bytes(&r.records[a], "cells_json") {
        Err(e) => return Err(e),
        Ok(cells) => cells,
    };
    let large: bool = if cells > DOCUMENT_LIMIT {
        true
    } else {
        match count_bytes(&r.records[b], "columns_json") {
            Err(e) => return Err(e),
            Ok(columns) => columns > DOCUMENT_LIMIT,
        }
    };
    if large {
        return Ok(
            Some(
                images::Projection {
                    origin: origin.copied(),
                    retained_table: table,
                    import_source: owner.to_owned(),
                    decision: Decision::Retain {
                        reason: "Image interpretation exceeds bounded cells/columns limits; complete original row retained".to_owned(),
                    },
                },
            ),
        );
    }
    let (row, t): (usize, usize) = match find_columns(r, origin, table) {
        Err(e) => return Err(e),
        Ok(found) => found,
    };
    let master: Option<&Cell> = get_column(r, row, t, "masterImage");
    let is_master: bool = match master {
        Some(c) => zero(c),
        None => false,
    };
    if (stage == Stage::Masters && !is_master) || (stage == Stage::VirtualCopies && is_master) {
        return Ok(None);
    }
    let label: Result<String, String> = read_label(get_column(r, row, t, "copyName"), is_master);
    let file: Result<Link, String> = match find_file(r, p, input, owner, origin) {
        Err(e) => return Err(e),
        Ok(file) => file,
    };
    let role: Result<Option<Link>, String> = match find_role(
        r,
        p,
        input,
        owner,
        origin,
        table,
        master,
    ) {
        Err(e) => return Err(e),
        Ok(role) => role,
    };
    let decision: Decision = match (label, file, role) {
        (_, _, Err(reason)) => Decision::Retain { reason },
        (_, Err(reason), _) => Decision::Retain { reason },
        (Err(reason), _, _) => Decision::Retain { reason },
        (Ok(label), Ok(file), Ok(master)) => Decision::Register {
            file,
            role: match master {
                None => Role::Master,
                Some(master) => Role::Virtual { master },
            },
            label,
        },
    };
    Ok(
        Some(
            images::Projection {
                origin: origin.copied(),
                retained_table: table,
                import_source: owner.to_owned(),
                decision,
            },
        ),
    )
}

/// How importing a source image changes a catalog, and what it gives.
pub open spec fn image_imported(
    before: Catalog,
    after: Catalog,
    input: Seq<char>,
    owner: Seq<char>,
    origin: SourceRecordModel,
    stage: Stage,
    out: Result<RowResult, MigrationError>,
) -> bool {
    match image_choice(
        before.migration.retained@,
        before.migration.images@,
        input,
        owner,
        origin,
        stage,
    ) {
        Err(e) => after == before && out == Err::<RowResult, MigrationError>(e),
        Ok(ImageChoice::OtherRole) => after == before && (out matches Ok(result) && result@
            == RowModel::Applied(importer::OutcomeModel::OtherImageRole)),
        Ok(choice) => exists|request: images::Projection, projected: Result<images::ProjectionResult, MigrationError>|
            {
                &&& asks(request, choice, origin, owner)
                &&& #[trigger] images::image_projected(before, after, request, true, projected)
                &&& match projected {
                    Err(e) => out == Err::<RowResult, MigrationError>(e),
                    Ok(result) => out matches Ok(row) && row@ == RowModel::Applied(
                        importer::OutcomeModel::Image(result@.outcome),
                    ),
                }
            },
    }
}

impl Catalog {
    /// Imports a source image, or keeps it with a reason.
    pub fn import_image(&mut self, input: &str, policy: &Policy, origin: &SourceRecord, stage: Stage) -> (out:
        Result<RowResult, MigrationError>)
        ensures
            final(self).images_only(*old(self)),
            image_imported(
                *old(self),
                *final(self),
                input@,
                policy@.import_source,
                origin@,
                stage,
                out,
            ),
    {
        let request: images::Projection = match choose_image(
            &self.migration.retained,
            &self.migration.images,
            input,
            policy.import_source.as_str(),
            origin,
            stage,
        ) {
            Err(e) => return Err(e),
            Ok(None) => return Ok(RowResult::Applied(Outcome::OtherImageRole)),
            Ok(Some(request)) => request,
        };
        let ghost before = *self;
        let projected = self.project_migration_image(true, &request);
        assert(images::image_projected(before, *self, request, true, projected));
        match projected {
            Err(e) => Err(e),
            Ok(result) => Ok(RowResult::Applied(Outcome::Image(result.outcome))),
        }
    }
}

/// The origin of metadata that a stage is about.
pub open spec fn stage_origin(stage: Stage) -> Option<Origin> {
    match stage {
        Stage::FileEmbedded => Some(Origin::Embedded),
        Stage::FileSidecarXmp => Some(Origin::SidecarXmp),
        Stage::FileSidecarUpper => Some(Origin::SidecarUpper),
        Stage::FileAppendedXmp => Some(Origin::AppendedXmp),
        Stage::FileAppendedUpper => Some(Origin::AppendedUpper),
        _ => None,
    }
}

/// The origin of metadata that a stage is about.
pub fn origin_of_stage(stage: Stage) -> (r: Option<Origin>)
    ensures
        r == stage_origin(stage),
{
    match stage {
        Stage::FileEmbedded => Some(Origin::Embedded),
        Stage::FileSidecarXmp => Some(Origin::SidecarXmp),
        Stage::FileSidecarUpper => Some(Origin::SidecarUpper),
        Stage::FileAppendedXmp => Some(Origin::AppendedXmp),
        Stage::FileAppendedUpper => Some(Origin::AppendedUpper),
        _ => None,
    }
}

/// The only path record of a file; none where the file has none.
pub open spec fn path_of(r: RetainedModel, input: Seq<char>, revision: Seq<char>, source_id: Seq<char>) -> Result<
    Option<int>,
    MigrationError,
> {
    let hits = r.hits(input, revision, Query::PathsBySource(source_id), None);
    if !r.keys_complete(input, revision) || hits.len() > 1 {
        Err(MigrationError::PathAmbiguous)
    } else if hits.len() == 0 {
        Ok(None)
    } else {
        Ok(Some(hits[0]))
    }
}

fn find_path(r: &Retained, input: &str, revision: &str, source_id: &str) -> (out: Result<
    Option<usize>,
    MigrationError,
>)
    ensures
        match path_of(r@, input@, revision@, source_id@) {
            Err(e) => out == Err::<Option<usize>, MigrationError>(e),
            Ok(None) => out matches Ok(found) && found is None,
            Ok(Some(i)) => out matches Ok(Some(k)) && k == i && k < r.records@.len()
                && r@.records[i] == r.records@[i]@,
        },
{
    let page: Page = r.lookup(
        input,
        revision,
        &Lookup::PathsBySource(source_id.to_owned()),
        None,
        2,
    );
    assert(support::ints(page.hits@).len() == page.hits@.len());
    if !page.keys_complete || page.next.is_some() || page.hits.len() > 1 {
        return Err(MigrationError::PathAmbiguous);
    }
    if page.hits.len() == 0 {
        return Ok(None);
    }
    let i: usize = page.hits[0];
    assert(support::ints(page.hits@)[0] == i as int);
    assert(r@.records[i as int] == r.records@[i as int]@);
    Ok(Some(i))
}

pub open spec fn packet_row(input: Seq<char>, revision: Seq<char>, rowid: i64) -> spec_fn(
    RecordModel,
) -> bool {
    |r: RecordModel|
        r.complete && r.collection == Collection::Packets && r.source_rowid == rowid && r.input
            == input && r.revision == revision
}

/// The records of the first `n` enumerated rows.
pub open spec fn packets_of(
    r: RetainedModel,
    input: Seq<char>,
    revision: Seq<char>,
    rowids: Seq<i64>,
    n: nat,
) -> Result<Seq<i64>, MigrationError>
    decreases n,
{
    if n == 0 {
        Ok(Seq::empty())
    } else {
        match packets_of(r, input, revision, rowids, (n - 1) as nat) {
            Err(e) => Err(e),
            Ok(before) => match support::first_where(
                r.records,
                packet_row(input, revision, rowids[n - 1]),
            ) {
                None => Err(MigrationError::RecordMissing),
                Some(i) => Ok(before.push(r.records[i].sequence)),
            },
        }
    }
}

proof fn lemma_packets_stop(
    r: RetainedModel,
    input: Seq<char>,
    revision: Seq<char>,
    rowids: Seq<i64>,
    n: nat,
)
    requires
        n <= rowids.len(),
        packets_of(r, input, revision, rowids, n) is Err,
    ensures
        packets_of(r, input, revision, rowids, rowids.len()) == packets_of(
            r,
            input,
            revision,
            rowids,
            n,
        ),
    decreases rowids.len() - n,
{
    if n < rowids.len() {
        lemma_packets_stop(r, input, revision, rowids, n + 1);
    }
}

fn find_packets(r: &Retained, input: &str, revision: &str, rowids: &Vec<i64>) -> (out: Result<
    Vec<i64>,
    MigrationError,
>)
    ensures
        match packets_of(r@, input@, revision@, rowids@, rowids@.len()) {
            Err(e) => out == Err::<Vec<i64>, MigrationError>(e),
            Ok(found) => out matches Ok(v) && v@ == found,
        },
{
    let mut found: Vec<i64> = Vec::new();
    let mut n: usize = 0;
    assert(found@ =~= Seq::<i64>::empty());
    while n < rowids.len()
        invariant
            n <= rowids@.len(),
            packets_of(r@, input@, revision@, rowids@, n as nat) == Ok::<Seq<i64>, MigrationError>(
                found@,
            ),
        decreases rowids@.len() - n,
    {
        let rowid: i64 = rowids[n];
        let test = |x: &EvidenceRecord| -> (b: bool)
            ensures b == packet_row(input@, revision@, rowid)(x@)
        {
            x.complete && x.collection == Collection::Packets && x.source_rowid == rowid && same(
                x.input.as_str(),
                input,
            ) && same(x.revision.as_str(), revision)
        };
        match support::find(&r.records, test, Ghost(packet_row(input@, revision@, rowid))) {
            None => {
                proof {
                    lemma_packets_stop(r@, input@, revision@, rowids@, (n + 1) as nat);
                }
                return Err(MigrationError::RecordMissing);
            },
            Some(i) => {
                assert(r@.records[i as int] == r.records@[i as int]@);
                found.push(r.records[i].sequence);
            },
        }
        n += 1;
    }
    Ok(found)
}

pub open spec fn supplements_file(revision: Seq<char>, source_id: Seq<char>, origin: Origin) -> spec_fn(
    importer::SupplementInputModel,
) -> bool {
    |s: importer::SupplementInputModel|
        s.capture_revision == revision && s.source_id == source_id && s.origin == origin
}

/// What is asked of the catalog for the metadata of a file.
pub enum FileChoice {
    Keep(Seq<char>),
    /// The metadata that an earlier inspection found, and what supplements it.
    Project {
        retained_path: i64,
        origin: Origin,
        packet_records: Seq<i64>,
        supplement: Option<Seq<char>>,
    },
}

/// What is asked of the catalog for the metadata of a file, given the rows that the
/// sealed source enumerates of its origin.
pub open spec fn file_choice(
    r: RetainedModel,
    p: ProjectionsModel,
    input: Seq<char>,
    policy: importer::PolicyModel,
    origin: SourceRecordModel,
    stage: Stage,
    rowids: Seq<i64>,
) -> Result<FileChoice, MigrationError> {
    let revision = origin.source.capture_revision;
    match stage_origin(stage) {
        None => Err(MigrationError::StageDiffers),
        Some(kind) => if !has_original(p, origin.source.identity, policy.import_source) {
            Ok(
                FileChoice::Keep(
                    "File metadata has no mapped original; all source evidence remains retained"@,
                ),
            )
        } else {
            match proofs::source_proof(r, origin) {
                Err(e) => Err(e),
                Ok((_, source_id)) => match path_of(r, input, revision, source_id) {
                    Err(e) => Err(e),
                    Ok(None) => Ok(FileChoice::Keep("No file metadata path observation"@)),
                    Ok(Some(i)) => match packets_of(r, input, revision, rowids, rowids.len()) {
                        Err(e) => Err(e),
                        Ok(packet_records) => Ok(
                            FileChoice::Project {
                                retained_path: r.records[i].sequence,
                                origin: kind,
                                packet_records,
                                supplement: match support::first_where(
                                    policy.supplements,
                                    supplements_file(revision, source_id, kind),
                                ) {
                                    None => None,
                                    Some(k) => Some(policy.supplements[k].evidence),
                                },
                            },
                        ),
                    },
                },
            }
        },
    }
}

/// A request is for a file's metadata as it was chosen; only what is embedded in a
/// file is known to be the file's own.
pub open spec fn asks_file(
    request: file_metadata::Projection,
    origin: SourceRecordModel,
    owner: Seq<char>,
    retained_path: i64,
    kind: Origin,
    packet_records: Seq<i64>,
) -> bool {
    &&& request.file@ == origin
    &&& request.import_source@ == owner
    &&& request.retained_path == retained_path
    &&& request.origin == kind
    &&& request.packet_records@ == packet_records
    &&& request.supplement is None
    &&& match request.association {
        Association::Confirmed { reason } => kind == Origin::Embedded && reason@
            == "Retained embedded packet belongs to its exact selected file source"@,
        Association::Unresolved => kind != Origin::Embedded,
    }
}

/// What is asked of the catalog for a file's metadata.
pub enum FileRequest {
    Keep(RowResult),
    /// The request for what an earlier inspection found, and the document that
    /// supplements it.
    Project(file_metadata::Projection, Option<String>),
}

/// What to ask of the catalog for the metadata of a file.
pub fn choose_file_metadata(
    r: &Retained,
    p: &Projections,
    input: &str,
    policy: &Policy,
    origin: &SourceRecord,
    stage: Stage,
    rowids: &Vec<i64>,
) -> (out: Result<FileRequest, MigrationError>)
    ensures
        match file_choice(r@, p@, input@, policy@, origin@, stage, rowids@) {
            Err(e) => out == Err::<FileRequest, MigrationError>(e),
            Ok(FileChoice::Keep(reason)) => out matches Ok(FileRequest::Keep(kept)) && kept@
                == importer::kept(reason),
            Ok(
                FileChoice::Project { retained_path, origin: kind, packet_records, supplement },
            ) => out matches Ok(FileRequest::Project(request, evidence)) && asks_file(
                request,
                origin@,
                policy@.import_source,
                retained_path,
                kind,
                packet_records,
            ) && support::text_of(evidence) == supplement,
        },
{
    let kind: Origin = match origin_of_stage(stage) {
        None => return Err(MigrationError::StageDiffers),
        Some(kind) => kind,
    };
    let owner: &str = policy.import_source.as_str();
    let revision: &str = origin.source.capture_revision.as_str();
    if !find_original(p, origin.source.identity.as_str(), owner) {
        return Ok(
            FileRequest::Keep(
                importer::retained(
                    "File metadata has no mapped original; all source evidence remains retained",
                ),
            ),
        );
    }
    let source_id: String = match prove_source(r, origin) {
        Err(e) => return Err(e),
        Ok((_, source_id)) => source_id,
    };
    let i: usize = match find_path(r, input, revision, source_id.as_str()) {
        Err(e) => return Err(e),
        Ok(None) => return Ok(
            FileRequest::Keep(importer::retained("No file metadata path observation")),
        ),
        Ok(Some(i)) => i,
    };
    let packet_records: Vec<i64> = match find_packets(r, input, revision, rowids) {
        Err(e) => return Err(e),
        Ok(found) => found,
    };
    let test = |s: &importer::SupplementInput| -> (b: bool)
        ensures b == supplements_file(revision@, source_id@, kind)(s@)
    {
        s.origin == kind && same(s.capture_revision.as_str(), revision) && same(
            s.source_id.as_str(),
            source_id.as_str(),
        )
    };
    let supplement: Option<String> = match support::find(
        &policy.supplements,
        test,
        Ghost(supplements_file(revision@, source_id@, kind)),
    ) {
        None => None,
        Some(k) => {
            assert(policy@.supplements[k as int] == policy.supplements@[k as int]@);
            Some(policy.supplements[k].evidence.clone())
        },
    };
    Ok(
        FileRequest::Project(
            file_metadata::Projection {
                file: origin.copied(),
                retained_path: r.records[i].sequence,
                origin: kind,
                packet_records,
                import_source: owner.to_owned(),
                association: if kind == Origin::Embedded {
                    Association::Confirmed {
                        reason: "Retained embedded packet belongs to its exact selected file source".to_owned(),
                    }
                } else {
                    Association::Unresolved
                },
                supplement: None,
            },
            supplement,
        ),
    )
}

/// What is asked for the settings or the packet of an image.
pub enum MetadataChoice {
    Keep(Seq<char>),
    /// The current settings of an image, from their place in the settings' text, for an
    /// image that was not edited.
    CurrentDevelop {
        image_table: i64,
        settings_table: i64,
        settings: LinkModel,
        settings_path: Seq<Seq<char>>,
        expected_edit_revision: i64,
    },
    /// The packet that the source's catalog held of an image.
    CatalogXmp { retained_table: i64, packet_record: i64, image: LinkModel },
}

/// What is asked for the current settings of an image, which stand at a place of the
/// settings' text.
pub open spec fn develop_choice(
    m: TablesModel,
    r: RetainedModel,
    input: Seq<char>,
    owner: Seq<char>,
    origin: SourceRecordModel,
    settings_path: Seq<Seq<char>>,
) -> Result<MetadataChoice, MigrationError> {
    let revision = origin.source.capture_revision;
    if m.mapping_at(owner, revision, origin.source.table, origin.source.identity) is None {
        Ok(
            MetadataChoice::Keep(
                "Current settings have no mapped image; source evidence retained"@,
            ),
        )
    } else {
        match link_of(r, input, origin, "developSettingsIDCache"@, "Adobe_imageDevelopSettings"@) {
            Err(e) => Err(e),
            Ok(Err(why)) => Ok(
                MetadataChoice::Keep("Current settings relation: "@ + relation_word(why)),
            ),
            Ok(Ok(settings)) => match schema_of(r, input, revision, "Adobe_images"@) {
                Err(e) => Err(e),
                Ok(image_table) => match schema_of(
                    r,
                    input,
                    revision,
                    "Adobe_imageDevelopSettings"@,
                ) {
                    Err(e) => Err(e),
                    Ok(settings_table) => Ok(
                        MetadataChoice::CurrentDevelop {
                            image_table,
                            settings_table,
                            settings,
                            settings_path,
                            expected_edit_revision: 0,
                        },
                    ),
                },
            },
        }
    }
}

/// What is asked for the packet that the source's catalog held of an image.
pub open spec fn packet_choice(
    m: TablesModel,
    r: RetainedModel,
    input: Seq<char>,
    owner: Seq<char>,
    origin: SourceRecordModel,
) -> Result<MetadataChoice, MigrationError> {
    let revision = origin.source.capture_revision;
    match link_of(r, input, origin, "image"@, "Adobe_images"@) {
        Err(e) => Err(e),
        Ok(Err(why)) => Ok(
            MetadataChoice::Keep("Catalog XMP image relation: "@ + relation_word(why)),
        ),
        Ok(Ok(image)) => if m.mapping_at(
            owner,
            image.target.source.capture_revision,
            image.target.source.table,
            image.target.source.identity,
        ) is None {
            Ok(
                MetadataChoice::Keep(
                    "Catalog XMP has no mapped image; original packet retained"@,
                ),
            )
        } else {
            match proofs::source_proof(r, origin) {
                Err(e) => Err(e),
                Ok((_, source_id)) => {
                    let hits = r.hits(
                        input,
                        revision,
                        Query::Packets { source_id, origin: Some("catalog"@) },
                        None,
                    );
                    if !r.keys_complete(input, revision) || hits.len() > 1 {
                        Err(MigrationError::PacketAmbiguous)
                    } else if hits.len() == 0 {
                        Ok(
                            MetadataChoice::Keep(
                                "No catalog XMP packet; original source row retained"@,
                            ),
                        )
                    } else {
                        match schema_of(r, input, revision, "Adobe_AdditionalMetadata"@) {
                            Err(e) => Err(e),
                            Ok(retained_table) => Ok(
                                MetadataChoice::CatalogXmp {
                                    retained_table,
                                    packet_record: r.records[hits[0]].sequence,
                                    image,
                                },
                            ),
                        }
                    }
                },
            }
        },
    }
}

/// What is asked for the settings or the packet of an image.
pub enum MetadataRequest {
    Keep(RowResult),
    CurrentDevelop {
        image_table: i64,
        settings_table: i64,
        settings: Link,
        settings_path: Vec<String>,
        expected_edit_revision: i64,
    },
    CatalogXmp { retained_table: i64, packet_record: i64, image: Link },
}

/// A request is as it was chosen.
pub open spec fn asks_metadata(request: MetadataRequest, choice: MetadataChoice) -> bool {
    match (request, choice) {
        (MetadataRequest::Keep(kept), MetadataChoice::Keep(reason)) => kept@ == importer::kept(
            reason,
        ),
        (
            MetadataRequest::CurrentDevelop {
                image_table,
                settings_table,
                settings,
                settings_path,
                expected_edit_revision,
            },
            MetadataChoice::CurrentDevelop {
                image_table: a,
                settings_table: b,
                settings: link,
                settings_path: path,
                expected_edit_revision: revision,
            },
        ) => image_table == a && settings_table == b && settings@ == link && support::models(
            settings_path@,
        ) == path && expected_edit_revision == revision,
        (
            MetadataRequest::CatalogXmp { retained_table, packet_record, image },
            MetadataChoice::CatalogXmp { retained_table: a, packet_record: b, image: link },
        ) => retained_table == a && packet_record == b && image@ == link,
        _ => false,
    }
}

/// What to ask for the current settings of an image.
pub fn choose_develop(
    db: &Tables,
    r: &Retained,
    input: &str,
    policy: &Policy,
    origin: &SourceRecord,
    settings_path: Vec<String>,
) -> (out: Result<MetadataRequest, MigrationError>)
    ensures
        match develop_choice(
            db@,
            r@,
            input@,
            policy@.import_source,
            origin@,
            support::models(settings_path@),
        ) {
            Err(e) => out == Err::<MetadataRequest, MigrationError>(e),
            Ok(choice) => out matches Ok(request) && asks_metadata(request, choice),
        },
{
    let revision: &str = origin.source.capture_revision.as_str();
    if !has_mapped_image(db, policy.import_source.as_str(), &origin.source) {
        return Ok(
            MetadataRequest::Keep(
                importer::retained(
                    "Current settings have no mapped image; source evidence retained",
                ),
            ),
        );
    }
    let settings: Link = match find_link(
        r,
        input,
        origin,
        "developSettingsIDCache",
        "Adobe_imageDevelopSettings",
    ) {
        Err(e) => return Err(e),
        Ok(Err(why)) => {
            let text: String = relation_text("Current settings relation: ", why);
            return Ok(MetadataRequest::Keep(importer::retained(text.as_str())));
        },
        Ok(Ok(settings)) => settings,
    };
    let image_table: i64 = match find_schema(r, input, revision, "Adobe_images") {
        Err(e) => return Err(e),
        Ok(table) => table,
    };
    match find_schema(r, input, revision, "Adobe_imageDevelopSettings") {
        Err(e) => Err(e),
        Ok(settings_table) => Ok(
            MetadataRequest::CurrentDevelop {
                image_table,
                settings_table,
                settings,
                settings_path,
                expected_edit_revision: 0,
            },
        ),
    }
}

/// What to ask for the packet that the source's catalog held of an image.
pub fn choose_packet(
    db: &Tables,
    r: &Retained,
    input: &str,
    policy: &Policy,
    origin: &SourceRecord,
) -> (out: Result<MetadataRequest, MigrationError>)
    ensures
        match packet_choice(db@, r@, input@, policy@.import_source, origin@) {
            Err(e) => out == Err::<MetadataRequest, MigrationError>(e),
            Ok(choice) => out matches Ok(request) && asks_metadata(request, choice),
        },
{
    let revision: &str = origin.source.capture_revision.as_str();
    let image: Link = match find_link(r, input, origin, "image", "Adobe_images") {
        Err(e) => return Err(e),
        Ok(Err(why)) => {
            let text: String = relation_text("Catalog XMP image relation: ", why);
            return Ok(MetadataRequest::Keep(importer::retained(text.as_str())));
        },
        Ok(Ok(image)) => image,
    };
    if !has_mapped_image(db, policy.import_source.as_str(), &image.target.source) {
        return Ok(
            MetadataRequest::Keep(
                importer::retained("Catalog XMP has no mapped image; original packet retained"),
            ),
        );
    }
    let source_id: String = match prove_source(r, origin) {
        Err(e) => return Err(e),
        Ok((_, source_id)) => source_id,
    };
    let page: Page = r.lookup(
        input,
        revision,
        &Lookup::Packets { source_id, origin: Some("catalog".to_owned()) },
        None,
        2,
    );
    assert(support::ints(page.hits@).len() == page.hits@.len());
    if !page.keys_complete || page.next.is_some() || page.hits.len() > 1 {
        return Err(MigrationError::PacketAmbiguous);
    }
    if page.hits.len() == 0 {
        return Ok(
            MetadataRequest::Keep(
                importer::retained("No catalog XMP packet; original source row retained"),
            ),
        );
    }
    let i: usize = page.hits[0];
    assert(support::ints(page.hits@)[0] == i as int);
    assert(r@.records[i as int] == r.records@[i as int]@);
    match find_schema(r, input, revision, "Adobe_AdditionalMetadata") {
        Err(e) => Err(e),
        Ok(retained_table) => Ok(
            MetadataRequest::CatalogXmp {
                retained_table,
                packet_record: r.records[i].sequence,
                image,
            },
        ),
    }
}

/// What to ask for the settings or the packet of an image.
pub fn choose_metadata(
    db: &Tables,
    r: &Retained,
    input: &str,
    policy: &Policy,
    origin: &SourceRecord,
    stage: Stage,
    settings_path: Vec<String>,
) -> (out: Result<MetadataRequest, MigrationError>)
    ensures
        ({
            let chosen = if stage == Stage::CurrentDevelop {
                develop_choice(
                    db@,
                    r@,
                    input@,
                    policy@.import_source,
                    origin@,
                    support::models(settings_path@),
                )
            } else {
                packet_choice(db@, r@, input@, policy@.import_source, origin@)
            };
            match chosen {
                Err(e) => out == Err::<MetadataRequest, MigrationError>(e),
                Ok(choice) => out matches Ok(request) && asks_metadata(request, choice),
            }
        }),
{
    if stage == Stage::CurrentDevelop {
        choose_develop(db, r, input, policy, origin, settings_path)
    } else {
        choose_packet(db, r, input, policy, origin)
    }
}

/// A compact receipt of projected metadata: the values themselves stay where they
/// were projected to.
pub fn metadata_outcome(
    input_digest: &str,
    state: &str,
    observation: Option<i64>,
    reason: Option<String>,
) -> (outcome: Outcome)
    ensures
        outcome@ == (importer::OutcomeModel::Metadata {
            input_digest: input_digest@,
            state: state@,
            observation,
            reason: support::text_of(reason),
        }),
{
    Outcome::Metadata {
        input_digest: input_digest.to_owned(),
        state: state.to_owned(),
        observation,
        reason,
    }
}

/// What is known of a source file before its original is decided on.
pub enum OriginalChoice {
    Keep(Seq<char>),
    /// The file was decided on before; the decision stands, whatever became of the
    /// original since.
    Decided(Seq<char>),
    /// The file is at a path.
    At(retained::PathModel),
}

/// What is known of a source file before its original is decided on.
pub open spec fn original_choice(
    r: RetainedModel,
    p: ProjectionsModel,
    input: Seq<char>,
    owner: Seq<char>,
    origin: SourceRecordModel,
) -> Result<OriginalChoice, MigrationError> {
    match p.original_at(origin.source.identity) {
        Some(k) => if p.originals[k].import_source != owner {
            Err(MigrationError::OriginalForeign)
        } else {
            Ok(OriginalChoice::Decided(p.originals[k].decision))
        },
        None => match proofs::source_proof(r, origin) {
            Err(e) => Err(e),
            Ok((_, source_id)) => match path_of(
                r,
                input,
                origin.source.capture_revision,
                source_id,
            ) {
                Err(e) => Err(e),
                Ok(None) => Ok(OriginalChoice::Keep("No retained original path"@)),
                Ok(Some(i)) => {
                    let rec = r.records[i];
                    if rec.field("inspection_path"@) == Some(
                        retained::FieldModel::Inline(retained::CellModel::Null),
                    ) {
                        Ok(
                            OriginalChoice::Keep(
                                "Original path is unresolved; original row and path evidence retained"@,
                            ),
                        )
                    } else {
                        match (
                            rec.field_bytes("inspection_path"@, PATH_BYTES as nat),
                            rec.detail,
                        ) {
                            (Err(e), _) => Err(e),
                            (Ok(_), Detail::Path(detail)) => Ok(OriginalChoice::At(detail.base@)),
                            _ => Err(MigrationError::FieldType),
                        }
                    }
                },
            },
        },
    }
}

/// What is known of a source file before its original is decided on.
pub enum OriginalRequest {
    Keep(RowResult),
    Decided(String),
    At(NativePath),
}

/// What to do about the original of a source file, before the catalog's files are
/// looked at.
pub fn choose_original(
    r: &Retained,
    p: &Projections,
    input: &str,
    policy: &Policy,
    origin: &SourceRecord,
) -> (out: Result<OriginalRequest, MigrationError>)
    ensures
        match original_choice(r@, p@, input@, policy@.import_source, origin@) {
            Err(e) => out == Err::<OriginalRequest, MigrationError>(e),
            Ok(OriginalChoice::Keep(reason)) => out matches Ok(OriginalRequest::Keep(kept)) && kept@
                == importer::kept(reason),
            Ok(OriginalChoice::Decided(decision)) => out matches Ok(OriginalRequest::Decided(text))
                && text@ == decision,
            Ok(OriginalChoice::At(path)) => out matches Ok(OriginalRequest::At(found)) && found@
                == path,
        },
{
    match p.find_original_at(origin.source.identity.as_str()) {
        Some(k) => {
            assert(p@.originals[k as int] == p.originals@[k as int]@);
            if !same(p.originals[k].import_source.as_str(), policy.import_source.as_str()) {
                return Err(MigrationError::OriginalForeign);
            }
            return Ok(OriginalRequest::Decided(p.originals[k].decision.clone()));
        },
        None => {},
    }
    let source_id: String = match prove_source(r, origin) {
        Err(e) => return Err(e),
        Ok((_, source_id)) => source_id,
    };
    let i: usize = match find_path(
        r,
        input,
        origin.source.capture_revision.as_str(),
        source_id.as_str(),
    ) {
        Err(e) => return Err(e),
        Ok(None) => return Ok(
            OriginalRequest::Keep(importer::retained("No retained original path")),
        ),
        Ok(Some(i)) => i,
    };
    let rec = &r.records[i];
    let unresolved: bool = match rec.get("inspection_path") {
        Some(Field::Inline(Cell::Null)) => true,
        _ => false,
    };
    if unresolved {
        return Ok(
            OriginalRequest::Keep(
                importer::retained(
                    "Original path is unresolved; original row and path evidence retained",
                ),
            ),
        );
    }
    match rec.read_bytes("inspection_path", PATH_BYTES) {
        Err(e) => return Err(e),
        Ok(_) => {},
    }
    match &rec.detail {
        Detail::Path(detail) => Ok(OriginalRequest::At(detail.base.copied())),
        _ => Err(MigrationError::FieldType),
    }
}

/// What becomes of a file at a path.
pub enum OriginalDecision {
    Create { path: NativePath },
    /// The file at the path is the original of this one, too.
    Reuse { asset_id: String, expected_path: NativePath },
}

/// What becomes of a file at a path that another file of the catalog may have: a new
/// original, the other file's, or a question.
pub fn decide_original(policy: &Policy, identity: &str, path: NativePath, existing: Option<String>) -> (out:
    Result<OriginalDecision, RowResult>)
    ensures
        match (existing, policy@.overlap) {
            (None, _) => out matches Ok(OriginalDecision::Create { path: at }) && at@ == path@,
            (Some(asset), Some(_)) => out matches Ok(
                OriginalDecision::Reuse { asset_id, expected_path },
            ) && asset_id@ == asset@ && expected_path@ == path@,
            (Some(_), None) => out matches Err(row) && row@ == RowModel::NeedsDecision(
                "Source file "@ + identity@
                    + " shares an existing path; choose an explicit physical-file reuse policy"@,
            ),
        },
{
    match existing {
        None => Ok(OriginalDecision::Create { path }),
        Some(asset_id) => match &policy.overlap {
            OverlapPolicy::ReuseExactPath { .. } => Ok(
                OriginalDecision::Reuse { asset_id, expected_path: path },
            ),
            OverlapPolicy::RequireDecision => {
                let mut text: String = "Source file ".to_owned();
                text.append(identity);
                text.append(
                    " shares an existing path; choose an explicit physical-file reuse policy",
                );
                Err(RowResult::NeedsDecision(text))
            },
        },
    }
}

/// A file that was decided on is decided on once: whatever becomes of its original, a
/// later look at the same row gives the decision that was made.
pub proof fn law_original_decisions_stand(
    r: RetainedModel,
    p: ProjectionsModel,
    input: Seq<char>,
    origin: SourceRecordModel,
    row: images::OriginalModel,
    owner: Seq<char>,
)
    requires
        p.original_at(origin.source.identity) is None,
        row.source_identity == origin.source.identity,
    ensures
        original_choice(
            r,
            ProjectionsModel { originals: p.originals.push(row), ..p },
            input,
            owner,
            origin,
        ) == if owner == row.import_source {
            Ok::<OriginalChoice, MigrationError>(OriginalChoice::Decided(row.decision))
        } else {
            Err(MigrationError::OriginalForeign)
        },
{
    support::lemma_pushed(
        p.originals,
        p.originals.push(row),
        images::original_of(origin.source.identity),
    );
}

} // verus!

//! What retained records prove of source rows and of the links between them.
use crate::catalog_migration::retained;
use crate::catalog_migration::retained::{
    Cell, Collection, Compatibility, EvidenceRecord, Lookup, MigrationError, Page, Query, Retained,
    RetainedModel,
};
use crate::copies::Copied;
use crate::support;
use crate::support::{find, same, same_bytes};
use vstd::prelude::*;
use vstd::utf8::*;

verus! {

/// The most bytes of a source identity.
pub const IDENTITY_BYTES: usize = 4096;

/// The most bytes of a table's name.
pub const TABLE_BYTES: usize = 1024;

/// The most bytes of a document that is interpreted.
pub const DOCUMENT_LIMIT: usize = 8388608;

/// The most columns of a table.
pub const COLUMN_LIMIT: usize = 4096;

/// The most references that are followed for one relation.
pub const GROUP_LIMIT: usize = 100;

/// The key of a source row in its capture: the row's table, its typed key in canonical
/// form, and the identity that these have.
#[derive(Clone, Debug)]
pub struct SourceKey {
    pub capture_revision: String,
    pub table: String,
    pub key: String,
    pub identity: String,
}

/// What a `SourceKey` stands for.
#[verifier::ext_equal]
pub struct SourceKeyModel {
    pub capture_revision: Seq<char>,
    pub table: Seq<char>,
    pub key: Seq<char>,
    pub identity: Seq<char>,
}

impl View for SourceKey {
    type V = SourceKeyModel;

    open spec fn view(&self) -> SourceKeyModel {
        SourceKeyModel {
            capture_revision: self.capture_revision@,
            table: self.table@,
            key: self.key@,
            identity: self.identity@,
        }
    }
}

/// A source row with the record that retains it.
#[derive(Clone, Debug)]
pub struct SourceRecord {
    pub retained_record: i64,
    pub source: SourceKey,
}

/// What a `SourceRecord` stands for.
#[verifier::ext_equal]
pub struct SourceRecordModel {
    pub retained_record: i64,
    pub source: SourceKeyModel,
}

impl View for SourceRecord {
    type V = SourceRecordModel;

    open spec fn view(&self) -> SourceRecordModel {
        SourceRecordModel {
            retained_record: self.retained_record,
            source: self.source@,
        }
    }
}

/// A reference from a source row to another one.
#[derive(Clone, Debug)]
pub struct Link {
    pub reference_record: i64,
    pub target_entity_record: i64,
    pub field: String,
    pub target: SourceRecord,
}

/// What a `Link` stands for.
#[verifier::ext_equal]
pub struct LinkModel {
    pub reference_record: i64,
    pub target_entity_record: i64,
    pub field: Seq<char>,
    pub target: SourceRecordModel,
}

impl View for Link {
    type V = LinkModel;

    open spec fn view(&self) -> LinkModel {
        LinkModel {
            reference_record: self.reference_record,
            target_entity_record: self.target_entity_record,
            field: self.field@,
            target: self.target@,
        }
    }
}

impl Copied for SourceKey {
    fn copied(&self) -> (c: Self) {
        SourceKey {
            capture_revision: self.capture_revision.clone(),
            table: self.table.clone(),
            key: self.key.clone(),
            identity: self.identity.clone(),
        }
    }
}

impl Copied for SourceRecord {
    fn copied(&self) -> (c: Self) {
        SourceRecord {
            retained_record: self.retained_record,
            source: self.source.copied(),
        }
    }
}

impl Copied for Link {
    fn copied(&self) -> (c: Self) {
        Link {
            reference_record: self.reference_record,
            target_entity_record: self.target_entity_record,
            field: self.field.clone(),
            target: self.target.copied(),
        }
    }
}

/// The row that a source record names is the one its record retains. Gives the
/// position of the record and the row's source identity.
pub open spec fn source_proof(r: RetainedModel, s: SourceRecordModel) -> Result<
    (int, Seq<char>),
    MigrationError,
> {
    match r.record_of(s.retained_record) {
        None => Err(MigrationError::RecordMissing),
        Some(i) => {
            let rec = r.records[i];
            if rec.collection != Collection::Rows || rec.revision != s.source.capture_revision
                || !rec.says("table_name"@, s.source.table) || rec.key != Some(
                retained::RowKeyModel { key: s.source.key, identity: s.source.identity },
            ) {
                Err(MigrationError::SourceDiffers)
            } else {
                match rec.field_text("source_id"@, IDENTITY_BYTES as nat) {
                    Err(e) => Err(e),
                    Ok(id) => Ok((i, id)),
                }
            }
        },
    }
}

fn has_key(rec: &EvidenceRecord, s: &SourceKey) -> (r: bool)
    ensures
        r == (rec@.key == Some(retained::RowKeyModel { key: s.key@, identity: s.identity@ })),
{
    match &rec.key {
        None => false,
        Some(k) => same(k.key.as_str(), s.key.as_str()) && same(
            k.identity.as_str(),
            s.identity.as_str(),
        ),
    }
}

/// The row that a source record names is the one its record retains.
pub fn prove_source(r: &Retained, s: &SourceRecord) -> (p: Result<(usize, String), MigrationError>)
    ensures
        match source_proof(r@, s@) {
            Err(e) => p == Err::<(usize, String), MigrationError>(e),
            Ok((i, id)) => p matches Ok((k, text)) && k == i && text@ == id && k
                < r.records@.len() && r@.records[i] == r.records@[i]@,
        },
{
    let i: usize = match r.find_record(s.retained_record) {
        None => return Err(MigrationError::RecordMissing),
        Some(i) => i,
    };
    let rec = &r.records[i];
    if rec.collection != Collection::Rows || !same(
        rec.revision.as_str(),
        s.source.capture_revision.as_str(),
    ) || !rec.is_saying("table_name", s.source.table.as_str()) || !has_key(rec, &s.source) {
        return Err(MigrationError::SourceDiffers);
    }
    match rec.read_text("source_id", IDENTITY_BYTES) {
        Err(e) => Err(e),
        Ok(id) => Ok((i, id)),
    }
}

/// The table's record is of the row's capture and table.
pub open spec fn table_proof(r: RetainedModel, s: SourceRecordModel, table: i64) -> Result<
    (int, int),
    MigrationError,
> {
    match source_proof(r, s) {
        Err(e) => Err(e),
        Ok((row, _)) => match r.record_of(table) {
            None => Err(MigrationError::RecordMissing),
            Some(t) => {
                let schema = r.records[t];
                if schema.input != r.records[row].input {
                    Err(MigrationError::RecordForeign)
                } else if schema.collection != Collection::Tables || schema.revision
                    != s.source.capture_revision {
                    Err(MigrationError::SourceDiffers)
                } else {
                    match schema.field_bytes("name"@, TABLE_BYTES as nat) {
                        Err(e) => Err(e),
                        Ok(name) => if name == encode_utf8(s.source.table) {
                            Ok((row, t))
                        } else {
                            Err(MigrationError::SourceDiffers)
                        },
                    }
                }
            },
        },
    }
}

/// The table's record is of the row's capture and table.
pub fn prove_table(r: &Retained, s: &SourceRecord, table: i64) -> (p: Result<
    (usize, usize),
    MigrationError,
>)
    ensures
        match table_proof(r@, s@, table) {
            Err(e) => p == Err::<(usize, usize), MigrationError>(e),
            Ok((row, t)) => p matches Ok((a, b)) && a == row && b == t && a < r.records@.len() && b
                < r.records@.len() && r@.records[row] == r.records@[row]@ && r@.records[t]
                == r.records@[t]@,
        },
{
    let row: usize = match prove_source(r, s) {
        Err(e) => return Err(e),
        Ok((row, _)) => row,
    };
    let t: usize = match r.find_record(table) {
        None => return Err(MigrationError::RecordMissing),
        Some(t) => t,
    };
    let schema = &r.records[t];
    if !same(schema.input.as_str(), r.records[row].input.as_str()) {
        return Err(MigrationError::RecordForeign);
    }
    if schema.collection != Collection::Tables || !same(
        schema.revision.as_str(),
        s.source.capture_revision.as_str(),
    ) {
        return Err(MigrationError::SourceDiffers);
    }
    match schema.read_bytes("name", TABLE_BYTES) {
        Err(e) => Err(e),
        Ok(name) => {
            if same_bytes(name.as_slice(), s.source.table.as_str().as_bytes()) {
                Ok((row, t))
            } else {
                Err(MigrationError::SourceDiffers)
            }
        },
    }
}

/// A name occurs at two places.
pub open spec fn repeats(names: Seq<Seq<char>>) -> bool {
    exists|i: int, j: int| 0 <= i < j < names.len() && names[i] == names[j]
}

/// The names and the values of a row's columns.
pub open spec fn columns(r: RetainedModel, s: SourceRecordModel, table: i64) -> Result<
    (Seq<Seq<char>>, Seq<retained::CellModel>),
    MigrationError,
> {
    match table_proof(r, s, table) {
        Err(e) => Err(e),
        Ok((row, t)) => match r.records[t].field_bytes("columns_json"@, DOCUMENT_LIMIT as nat) {
            Err(e) => Err(e),
            Ok(_) => match r.records[row].field_bytes("cells_json"@, DOCUMENT_LIMIT as nat) {
                Err(e) => Err(e),
                Ok(_) => match (r.records[t].columns, r.records[row].cells) {
                    (Some(names), Some(values)) => if names.len() != values.len() || names.len()
                        > COLUMN_LIMIT {
                        Err(MigrationError::ColumnsDiffer)
                    } else if repeats(names) {
                        Err(MigrationError::ColumnRepeated)
                    } else {
                        Ok((names, values))
                    },
                    _ => Err(MigrationError::ColumnsDiffer),
                },
            },
        },
    }
}

pub open spec fn is_name(name: Seq<char>) -> spec_fn(Seq<char>) -> bool {
    |n: Seq<char>| n == name
}

/// The value of a column.
pub open spec fn column(
    names: Seq<Seq<char>>,
    values: Seq<retained::CellModel>,
    name: Seq<char>,
) -> Option<retained::CellModel> {
    match support::first_where(names, is_name(name)) {
        Some(i) => Some(values[i]),
        None => None,
    }
}

fn has_repetition(names: &Vec<String>) -> (r: bool)
    ensures
        r == repeats(support::models(names@)),
{
    let ghost all = support::models(names@);
    let mut i: usize = 0;
    while i < names.len()
        invariant
            i <= names@.len(),
            all == support::models(names@),
            forall|a: int, b: int| 0 <= a < b < i ==> all[a] != all[b],
        decreases names@.len() - i,
    {
        let mut j: usize = 0;
        while j < i
            invariant
                j <= i < names@.len(),
                all == support::models(names@),
                forall|a: int| 0 <= a < j ==> all[a] != all[i as int],
            decreases i - j,
        {
            assert(all[i as int] == names@[i as int]@);
            assert(all[j as int] == names@[j as int]@);
            if same(names[i].as_str(), names[j].as_str()) {
                assert(all[j as int] == all[i as int]);
                return true;
            }
            j += 1;
        }
        i += 1;
    }
    false
}

/// The records of a row's values and of its table's columns, and what they say.
pub fn find_columns(r: &Retained, s: &SourceRecord, table: i64) -> (p: Result<
    (usize, usize),
    MigrationError,
>)
    ensures
        match columns(r@, s@, table) {
            Err(e) => p == Err::<(usize, usize), MigrationError>(e),
            Ok((names, values)) => p matches Ok((row, t)) && row < r.records@.len() && t
                < r.records@.len() && r.records@[t as int]@.columns == Some(names)
                && r.records@[row as int]@.cells == Some(values) && names.len() == values.len(),
        },
{
    let (row, t): (usize, usize) = match prove_table(r, s, table) {
        Err(e) => return Err(e),
        Ok(found) => found,
    };
    match r.records[t].read_bytes("columns_json", DOCUMENT_LIMIT) {
        Err(e) => return Err(e),
        Ok(_) => {},
    }
    match r.records[row].read_bytes("cells_json", DOCUMENT_LIMIT) {
        Err(e) => return Err(e),
        Ok(_) => {},
    }
    match (&r.records[t].columns, &r.records[row].cells) {
        (Some(names), Some(values)) => {
            assert(support::models(names@).len() == names@.len());
            assert(support::models(values@).len() == values@.len());
            if names.len() != values.len() || names.len() > COLUMN_LIMIT {
                Err(MigrationError::ColumnsDiffer)
            } else if has_repetition(names) {
                Err(MigrationError::ColumnRepeated)
            } else {
                Ok((row, t))
            }
        },
        _ => Err(MigrationError::ColumnsDiffer),
    }
}

/// The value of a column, given the records of the values and of the columns.
pub fn get_column<'a>(r: &'a Retained, row: usize, t: usize, name: &str) -> (cell: Option<&'a Cell>)
    requires
        row < r.records@.len(),
        t < r.records@.len(),
        r.records@[t as int]@.columns is Some,
        r.records@[row as int]@.cells is Some,
        r.records@[t as int]@.columns->0.len() == r.records@[row as int]@.cells->0.len(),
    ensures
        match cell {
            Some(c) => column(
                r.records@[t as int]@.columns->0,
                r.records@[row as int]@.cells->0,
                name@,
            ) == Some(c@),
            None => column(
                r.records@[t as int]@.columns->0,
                r.records@[row as int]@.cells->0,
                name@,
            ) is None,
        },
{
    match (&r.records[t].columns, &r.records[row].cells) {
        (Some(names), Some(values)) => {
            let test = |n: &String| -> (b: bool)
                ensures b == is_name(name@)(n@)
            {
                same(n.as_str(), name)
            };
            assert(support::models(names@).len() == names@.len());
            assert(support::models(values@).len() == values@.len());
            match find(names, test, Ghost(is_name(name@))) {
                None => None,
                Some(i) => {
                    assert(support::models(values@)[i as int] == values@[i as int]@);
                    Some(&values[i])
                },
            }
        },
        _ => None,
    }
}

/// How far the references of one relation lead, taken together.
pub enum Walked {
    /// Nothing or one target was found so far.
    Open(Option<i64>),
    /// The relation is settled to have no single target.
    Closed(Compatibility),
}

/// How far the first `n` references of a relation lead.
pub open spec fn walked(
    r: RetainedModel,
    input: Seq<char>,
    revision: Seq<char>,
    hits: Seq<int>,
    table: Seq<char>,
    n: nat,
) -> Walked
    decreases n,
{
    if n == 0 {
        Walked::Open(None)
    } else {
        match walked(r, input, revision, hits, table, (n - 1) as nat) {
            Walked::Closed(why) => Walked::Closed(why),
            Walked::Open(found) => match r.records[hits[n - 1]].typed_text(
                "target_key"@,
                IDENTITY_BYTES as nat,
            ) {
                Err(_) => Walked::Closed(Compatibility::Unavailable),
                Ok(local_key) => match r.unique(
                    input,
                    revision,
                    Query::EntitiesByLocalKey { table_name: table, local_key },
                ) {
                    Ok(id) => if found is Some {
                        Walked::Closed(Compatibility::Ambiguous)
                    } else {
                        Walked::Open(Some(id))
                    },
                    Err(Compatibility::Missing) => Walked::Open(found),
                    Err(why) => Walked::Closed(why),
                },
            },
        }
    }
}

/// The single target of a relation: all of the row's references of one field into
/// one table are counted, and those that lead nowhere do not matter.
pub open spec fn single_target(
    r: RetainedModel,
    input: Seq<char>,
    revision: Seq<char>,
    source_id: Seq<char>,
    field: Seq<char>,
    table: Seq<char>,
) -> Result<i64, Compatibility> {
    let q = Query::References { source_id, field: Some(field), target_table: Some(table) };
    let hits = r.hits(input, revision, q, None);
    if !r.coverage_complete(input, revision) || !r.keys_complete(input, revision) || hits.len()
        > GROUP_LIMIT {
        Err(Compatibility::Unavailable)
    } else {
        match walked(r, input, revision, hits, table, hits.len()) {
            Walked::Closed(why) => Err(why),
            Walked::Open(None) => Err(Compatibility::Missing),
            Walked::Open(Some(id)) => Ok(id),
        }
    }
}

proof fn lemma_walk_closed(
    r: RetainedModel,
    input: Seq<char>,
    revision: Seq<char>,
    hits: Seq<int>,
    table: Seq<char>,
    n: nat,
)
    requires
        n <= hits.len(),
        walked(r, input, revision, hits, table, n) is Closed,
    ensures
        walked(r, input, revision, hits, table, hits.len()) == walked(
            r,
            input,
            revision,
            hits,
            table,
            n,
        ),
    decreases hits.len() - n,
{
    if n < hits.len() {
        lemma_walk_closed(r, input, revision, hits, table, n + 1);
    }
}

/// The single target of a relation.
pub fn find_target(
    r: &Retained,
    input: &str,
    revision: &str,
    source_id: &str,
    field: &str,
    table: &str,
) -> (p: Result<i64, Compatibility>)
    ensures
        p == single_target(r@, input@, revision@, source_id@, field@, table@),
{
    let q: Lookup = Lookup::References {
        source_id: source_id.to_owned(),
        field: Some(field.to_owned()),
        target_table: Some(table.to_owned()),
    };
    let page: Page = r.lookup(input, revision, &q, None, GROUP_LIMIT);
    let ghost hits = r@.hits(input@, revision@, q@, None);
    if !page.coverage_complete || !page.keys_complete || page.next.is_some() {
        return Err(Compatibility::Unavailable);
    }
    assert(support::ints(page.hits@) == hits);
    let mut found: Option<i64> = None;
    let mut n: usize = 0;
    while n < page.hits.len()
        invariant
            n <= page.hits@.len(),
            support::ints(page.hits@) == hits,
            hits.len() <= GROUP_LIMIT,
            r@.coverage_complete(input@, revision@),
            r@.keys_complete(input@, revision@),
            q@ == (Query::References {
                source_id: source_id@,
                field: Some(field@),
                target_table: Some(table@),
            }),
            hits == r@.hits(input@, revision@, q@, None),
            forall|k: int|
                0 <= k < page.hits@.len() ==> (#[trigger] page.hits@[k]) < r.records@.len(),
            walked(r@, input@, revision@, hits, table@, n as nat) == Walked::Open(found),
        decreases page.hits@.len() - n,
    {
        let i: usize = page.hits[n];
        proof {
            assert(hits[n as int] == i as int);
            assert(r@.records[i as int] == r.records@[i as int]@);
        }
        match r.records[i].read_typed_text("target_key", IDENTITY_BYTES) {
            Err(_) => {
                proof {
                    lemma_walk_closed(r@, input@, revision@, hits, table@, (n + 1) as nat);
                }
                return Err(Compatibility::Unavailable);
            },
            Ok(local_key) => {
                let target: Lookup = Lookup::EntitiesByLocalKey {
                    table_name: table.to_owned(),
                    local_key,
                };
                match r.find_unique(input, revision, &target) {
                    Ok(id) => {
                        if found.is_some() {
                            proof {
                                lemma_walk_closed(
                                    r@,
                                    input@,
                                    revision@,
                                    hits,
                                    table@,
                                    (n + 1) as nat,
                                );
                            }
                            return Err(Compatibility::Ambiguous);
                        }
                        found = Some(id);
                    },
                    Err(Compatibility::Missing) => {},
                    Err(why) => {
                        proof {
                            lemma_walk_closed(
                                r@,
                                input@,
                                revision@,
                                hits,
                                table@,
                                (n + 1) as nat,
                            );
                        }
                        return Err(why);
                    },
                }
            },
        }
        n += 1;
    }
    match found {
        Some(id) => Ok(id),
        None => Err(Compatibility::Missing),
    }
}

/// A link is the row's only one of its field: its reference is one of the row's,
/// its target is what it says, and no other target is found.
pub open spec fn link_proof(r: RetainedModel, origin: SourceRecordModel, link: LinkModel) -> Result<
    (),
    MigrationError,
> {
    match source_proof(r, origin) {
        Err(e) => Err(e),
        Ok((row, origin_id)) => match source_proof(r, link.target) {
            Err(e) => Err(e),
            Ok((target, target_id)) => match (
                r.record_of(link.reference_record),
                r.record_of(link.target_entity_record),
            ) {
                (Some(a), Some(b)) => {
                    let input = r.records[row].input;
                    let revision = origin.source.capture_revision;
                    let reference = r.records[a];
                    let entity = r.records[b];
                    if r.records[target].input != input || reference.input != input || entity.input
                        != input || link.target.source.capture_revision != revision
                        || reference.revision != revision || entity.revision != revision {
                        Err(MigrationError::RecordForeign)
                    } else if reference.collection != Collection::References || !reference.says(
                        "source_id"@,
                        origin_id,
                    ) || !reference.says("field"@, link.field) || !reference.says(
                        "target_table"@,
                        link.target.source.table,
                    ) || entity.collection != Collection::Entities || !entity.says(
                        "source_id"@,
                        target_id,
                    ) {
                        Err(MigrationError::LinkDiffers)
                    } else {
                        match single_target(
                            r,
                            input,
                            revision,
                            origin_id,
                            link.field,
                            link.target.source.table,
                        ) {
                            Err(why) => Err(retained::relation_error(why)),
                            Ok(id) => if id == link.target_entity_record {
                                Ok(())
                            } else {
                                Err(MigrationError::LinkDiffers)
                            },
                        }
                    }
                },
                _ => Err(MigrationError::RecordMissing),
            },
        },
    }
}

/// Whether a link is the row's only one of its field.
pub fn prove_link(r: &Retained, origin: &SourceRecord, link: &Link) -> (p: Result<
    (),
    MigrationError,
>)
    ensures
        p == link_proof(r@, origin@, link@),
{
    let (row, origin_id): (usize, String) = match prove_source(r, origin) {
        Err(e) => return Err(e),
        Ok(found) => found,
    };
    let (target, target_id): (usize, String) = match prove_source(r, &link.target) {
        Err(e) => return Err(e),
        Ok(found) => found,
    };
    let a: usize = match r.find_record(link.reference_record) {
        None => return Err(MigrationError::RecordMissing),
        Some(a) => a,
    };
    let b: usize = match r.find_record(link.target_entity_record) {
        None => return Err(MigrationError::RecordMissing),
        Some(b) => b,
    };
    let input: &str = r.records[row].input.as_str();
    let revision: &str = origin.source.capture_revision.as_str();
    let reference = &r.records[a];
    let entity = &r.records[b];
    if !same(r.records[target].input.as_str(), input) || !same(reference.input.as_str(), input)
        || !same(entity.input.as_str(), input) || !same(
        link.target.source.capture_revision.as_str(),
        revision,
    ) || !same(reference.revision.as_str(), revision) || !same(
        entity.revision.as_str(),
        revision,
    ) {
        return Err(MigrationError::RecordForeign);
    }
    if reference.collection != Collection::References || !reference.is_saying(
        "source_id",
        origin_id.as_str(),
    ) || !reference.is_saying("field", link.field.as_str()) || !reference.is_saying(
        "target_table",
        link.target.source.table.as_str(),
    ) || entity.collection != Collection::Entities || !entity.is_saying(
        "source_id",
        target_id.as_str(),
    ) {
        return Err(MigrationError::LinkDiffers);
    }
    match find_target(
        r,
        input,
        revision,
        origin_id.as_str(),
        link.field.as_str(),
        link.target.source.table.as_str(),
    ) {
        Err(why) => Err(retained::to_relation_error(why)),
        Ok(id) => {
            if id == link.target_entity_record {
                Ok(())
            } else {
                Err(MigrationError::LinkDiffers)
            }
        },
    }
}

} // verus!

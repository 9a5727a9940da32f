//! Navigation through the history that a source program kept of an image, over
//! retained records alone. An anchor proves a path from one imported image; shared
//! files and other images are shown, but never lead into another image's history.
use crate::catalog::Catalog;
use crate::catalog_images;
use crate::catalog_images::VariantKey;
use crate::catalog_metadata::edit;
use crate::catalog_metadata::edit::append_signed;
use crate::catalog_migration::history_laws;
use crate::catalog_migration::images;
use crate::catalog_migration::images::{Outcome, Projections};
use crate::catalog_migration::proofs;
use crate::catalog_migration::proofs::{SourceKey, GROUP_LIMIT, IDENTITY_BYTES};
use crate::catalog_migration::retained;
use crate::catalog_migration::retained::{
    field_size, to_relation_error, Cell, Collection, Lookup, MigrationError, Page, Query, Retained,
    RetainedModel,
};
use crate::copies::Copied;
use crate::outside;
use crate::outside::{blake3_digest, json_string};
use crate::support;
use crate::support::{byte_len, copy_bytes, find_all, same};
use crate::tables;
use crate::tables::{ImportMapping, Tables, TablesModel};
use vstd::prelude::*;
use vstd::string::*;
use vstd::utf8::*;

pub use crate::catalog_migration::retained::Compatibility;

verus! {

/// The most bytes of records that one navigation reads.
pub const MAX_BYTES: usize = 8388608;

/// The most bytes of a document that is handed out.
pub const OUTPUT_BYTES: usize = 4194304;

/// The most bytes of a text that is interpreted.
pub const TEXT_BYTES: usize = 4194304;

/// The most hops of a path.
pub const MAX_HOPS: usize = 8;

/// The most relations on a page.
pub const PAGE_RELATIONS: usize = 100;

/// The most bytes of a row's key.
pub const KEY_BYTES: usize = 65536;

/// Which way a reference is followed.
#[derive(Clone, Copy, Debug, PartialEq, Eq, Structural)]
pub enum Direction {
    Incoming,
    Outgoing,
}

/// What a source row is about.
#[derive(Clone, Copy, Debug, PartialEq, Eq, Structural)]
pub enum Classification {
    Image,
    CurrentSettings,
    Settings,
    BeforeSettings,
    History,
    Snapshot,
    Metadata,
    Organization,
    Unsupported,
}

/// A reference that a path follows.
#[derive(Clone, Copy, Debug, PartialEq, Eq, Structural)]
pub struct Hop {
    pub reference: i64,
    pub direction: Direction,
}

/// A path from an imported image to a row of its history. Nothing of it is
/// believed: every hop is proved again whenever it is used.
#[derive(Clone, Debug)]
pub struct Anchor {
    pub variant: VariantKey,
    pub input: String,
    pub root: i64,
    pub hops: Vec<Hop>,
}

/// What an `Anchor` stands for.
#[verifier::ext_equal]
pub struct AnchorModel {
    pub variant: catalog_images::VariantKeyModel,
    pub input: Seq<char>,
    pub root: i64,
    pub hops: Seq<Hop>,
}

impl View for Anchor {
    type V = AnchorModel;

    open spec fn view(&self) -> AnchorModel {
        AnchorModel {
            variant: self.variant@,
            input: self.input@,
            root: self.root,
            hops: self.hops@,
        }
    }
}

impl Copied for Anchor {
    fn copied(&self) -> (c: Self) {
        let mut hops: Vec<Hop> = Vec::new();
        let mut i: usize = 0;
        while i < self.hops.len()
            invariant
                i <= self.hops@.len(),
                hops@ == self.hops@.take(i as int),
            decreases self.hops@.len() - i,
        {
            hops.push(self.hops[i]);
            assert(hops@ =~= self.hops@.take(i + 1));
            i += 1;
        }
        assert(hops@ =~= self.hops@);
        Anchor { variant: self.variant.copy(), input: self.input.clone(), root: self.root, hops }
    }
}

/// A retained source row.
#[derive(Clone, Debug)]
pub struct RawRow {
    pub record: i64,
    pub source: SourceKey,
    pub source_id: String,
    pub entity_record: i64,
    pub table_record: i64,
    pub cells_field: String,
    pub cells_json_bytes: u64,
    pub classification: Classification,
}

/// What a `RawRow` stands for.
#[verifier::ext_equal]
pub struct RawRowModel {
    pub record: i64,
    pub source: proofs::SourceKeyModel,
    pub source_id: Seq<char>,
    pub entity_record: i64,
    pub table_record: i64,
    pub cells_field: Seq<char>,
    pub cells_json_bytes: u64,
    pub classification: Classification,
}

impl View for RawRow {
    type V = RawRowModel;

    open spec fn view(&self) -> RawRowModel {
        RawRowModel {
            record: self.record,
            source: self.source@,
            source_id: self.source_id@,
            entity_record: self.entity_record,
            table_record: self.table_record,
            cells_field: self.cells_field@,
            cells_json_bytes: self.cells_json_bytes,
            classification: self.classification,
        }
    }
}

impl Copied for RawRow {
    fn copied(&self) -> (c: Self) {
        RawRow {
            record: self.record,
            source: self.source.copied(),
            source_id: self.source_id.clone(),
            entity_record: self.entity_record,
            table_record: self.table_record,
            cells_field: self.cells_field.clone(),
            cells_json_bytes: self.cells_json_bytes,
            classification: self.classification,
        }
    }
}

/// Where a page of relations goes on.
#[derive(Clone, Debug)]
pub struct Cursor {
    pub anchor_blake3: String,
    pub direction: Direction,
    pub lookup: i64,
}

/// What a `Cursor` stands for.
#[verifier::ext_equal]
pub struct CursorModel {
    pub anchor_blake3: Seq<char>,
    pub direction: Direction,
    pub lookup: i64,
}

impl View for Cursor {
    type V = CursorModel;

    open spec fn view(&self) -> CursorModel {
        CursorModel {
            anchor_blake3: self.anchor_blake3@,
            direction: self.direction,
            lookup: self.lookup,
        }
    }
}

/// What an optional row stands for.
pub open spec fn row_of(row: Option<RawRow>) -> Option<RawRowModel> {
    match row {
        Some(r) => Some(r@),
        None => None,
    }
}

/// What an optional anchor stands for.
pub open spec fn anchor_of(anchor: Option<Anchor>) -> Option<AnchorModel> {
    match anchor {
        Some(a) => Some(a@),
        None => None,
    }
}

/// What an optional cursor stands for.
pub open spec fn cursor_of(cursor: Option<Cursor>) -> Option<CursorModel> {
    match cursor {
        Some(c) => Some(c@),
        None => None,
    }
}

/// A reference with what it leads from and to. Only one that can be relied upon
/// has an anchor to go on from.
#[derive(Clone, Debug)]
pub struct Relation {
    pub reference_record: i64,
    pub source_id: String,
    pub field: String,
    pub target_table: String,
    pub target_key: String,
    pub source: Option<RawRow>,
    pub target: Option<RawRow>,
    pub compatibility: Compatibility,
    pub anchor: Option<Anchor>,
}

/// What a `Relation` stands for.
#[verifier::ext_equal]
pub struct RelationModel {
    pub reference_record: i64,
    pub source_id: Seq<char>,
    pub field: Seq<char>,
    pub target_table: Seq<char>,
    pub target_key: Seq<char>,
    pub source: Option<RawRowModel>,
    pub target: Option<RawRowModel>,
    pub compatibility: Compatibility,
    pub anchor: Option<AnchorModel>,
}

impl View for Relation {
    type V = RelationModel;

    open spec fn view(&self) -> RelationModel {
        RelationModel {
            reference_record: self.reference_record,
            source_id: self.source_id@,
            field: self.field@,
            target_table: self.target_table@,
            target_key: self.target_key@,
            source: row_of(self.source),
            target: row_of(self.target),
            compatibility: self.compatibility,
            anchor: anchor_of(self.anchor),
        }
    }
}

/// A page of the relations of a row. Its completeness is that of the retained
/// references, and no claim that unknown tables were understood.
#[derive(Clone, Debug)]
pub struct EvidencePage {
    pub variant: VariantKey,
    pub input: String,
    pub anchor: Anchor,
    pub row: RawRow,
    pub relations: Vec<Relation>,
    pub next: Option<Cursor>,
    pub coverage_complete: bool,
    pub keys_complete: bool,
    pub adobe_rendering_equivalent: bool,
}

/// What an `EvidencePage` stands for.
#[verifier::ext_equal]
pub struct PageModel {
    pub variant: catalog_images::VariantKeyModel,
    pub input: Seq<char>,
    pub anchor: AnchorModel,
    pub row: RawRowModel,
    pub relations: Seq<RelationModel>,
    pub next: Option<CursorModel>,
    pub coverage_complete: bool,
    pub keys_complete: bool,
    pub adobe_rendering_equivalent: bool,
}

impl View for EvidencePage {
    type V = PageModel;

    open spec fn view(&self) -> PageModel {
        PageModel {
            variant: self.variant@,
            input: self.input@,
            anchor: self.anchor@,
            row: self.row@,
            relations: support::models(self.relations@),
            next: cursor_of(self.next),
            coverage_complete: self.coverage_complete,
            keys_complete: self.keys_complete,
            adobe_rendering_equivalent: self.adobe_rendering_equivalent,
        }
    }
}

/// What a table's rows are about.
pub open spec fn classified(table: Seq<char>) -> Classification {
    if table == "Adobe_images"@ {
        Classification::Image
    } else if table == "Adobe_imageDevelopSettings"@ {
        Classification::Settings
    } else if table == "Adobe_imageDevelopBeforeSettings"@ {
        Classification::BeforeSettings
    } else if table == "Adobe_libraryImageDevelopHistoryStep"@ {
        Classification::History
    } else if table == "Adobe_libraryImageDevelopSnapshot"@ {
        Classification::Snapshot
    } else if table == "Adobe_AdditionalMetadata"@ || table == "AgHarvestedExifMetadata"@ || table
        == "AgHarvestedIptcMetadata"@ || table == "AgLibraryIPTC"@ || table == "AgVideoInfo"@ {
        Classification::Metadata
    } else if table == "AgLibraryKeywordImage"@ || table == "AgLibraryCollectionImage"@ || table
        == "AgLibraryCollectionContent"@ {
        Classification::Organization
    } else {
        Classification::Unsupported
    }
}

/// What a table's rows are about.
pub fn classification(table: &str) -> (c: Classification)
    ensures
        c == classified(table@),
{
    if same(table, "Adobe_images") {
        Classification::Image
    } else if same(table, "Adobe_imageDevelopSettings") {
        Classification::Settings
    } else if same(table, "Adobe_imageDevelopBeforeSettings") {
        Classification::BeforeSettings
    } else if same(table, "Adobe_libraryImageDevelopHistoryStep") {
        Classification::History
    } else if same(table, "Adobe_libraryImageDevelopSnapshot") {
        Classification::Snapshot
    } else if same(table, "Adobe_AdditionalMetadata") || same(table, "AgHarvestedExifMetadata")
        || same(table, "AgHarvestedIptcMetadata") || same(table, "AgLibraryIPTC") || same(
        table,
        "AgVideoInfo",
    ) {
        Classification::Metadata
    } else if same(table, "AgLibraryKeywordImage") || same(table, "AgLibraryCollectionImage")
        || same(table, "AgLibraryCollectionContent") {
        Classification::Organization
    } else {
        Classification::Unsupported
    }
}

/// A retained capture that is navigated.
pub struct Scope<'a> {
    pub retained: &'a Retained,
    pub input: String,
    pub revision: String,
}

/// What a `Scope` stands for.
pub struct ScopeModel {
    pub retained: RetainedModel,
    pub input: Seq<char>,
    pub revision: Seq<char>,
}

impl<'a> View for Scope<'a> {
    type V = ScopeModel;

    open spec fn view(&self) -> ScopeModel {
        ScopeModel {
            retained: self.retained@,
            input: self.input@,
            revision: self.revision@,
        }
    }
}

impl ScopeModel {
    /// Reads a record, given the bytes that were read before. Gives its position and
    /// the bytes that are read then.
    pub open spec fn record(self, used: nat, sequence: i64) -> Result<(int, nat), MigrationError> {
        match self.retained.record_of(sequence) {
            None => Err(MigrationError::RecordMissing),
            Some(i) => {
                let rec = self.retained.records[i];
                if rec.input != self.input || rec.revision != self.revision {
                    Err(MigrationError::RecordForeign)
                } else if rec.raw_length > MAX_BYTES - used {
                    Err(MigrationError::ByteLimit)
                } else {
                    Ok((i, used + rec.raw_length as nat))
                }
            },
        }
    }

    /// A text that a record's field holds.
    pub open spec fn text(self, i: int, name: Seq<char>) -> Result<Seq<char>, MigrationError> {
        self.retained.records[i].typed_text(name, IDENTITY_BYTES as nat)
    }

    /// A record's field holds a text, where it can be read.
    pub open spec fn holds(self, i: int, name: Seq<char>, value: Seq<char>) -> Result<
        bool,
        MigrationError,
    > {
        match self.text(i, name) {
            Err(e) => Err(e),
            Ok(text) => Ok(text == value),
        }
    }

    /// The only record that answers a query, or why there is none.
    pub open spec fn unique(self, q: Query) -> Result<i64, Compatibility> {
        self.retained.unique(self.input, self.revision, q)
    }

    /// The row that an entity stands for.
    pub open spec fn row(self, used: nat, entity: i64) -> Result<
        (RawRowModel, nat),
        MigrationError,
    > {
        match self.record(used, entity) {
            Err(e) => Err(e),
            Ok((e, used1)) => if self.retained.records[e].collection != Collection::Entities {
                Err(MigrationError::RecordKind)
            } else {
                match (self.text(e, "source_id"@), self.text(e, "table_name"@)) {
                    (Err(e), _) => Err(e),
                    (_, Err(e)) => Err(e),
                    (Ok(source_id), Ok(table)) => match self.unique(
                        Query::RowsBySource(source_id),
                    ) {
                        Err(why) => Err(retained::relation_error(why)),
                        Ok(sequence) => self.raw_row(used1, entity, sequence, source_id, table),
                    },
                }
            },
        }
    }

    /// The row of a record, which has to be what its entity says.
    pub open spec fn raw_row(
        self,
        used: nat,
        entity: i64,
        sequence: i64,
        source_id: Seq<char>,
        table: Seq<char>,
    ) -> Result<(RawRowModel, nat), MigrationError> {
        match self.record(used, sequence) {
            Err(e) => Err(e),
            Ok((i, used1)) => {
                let rec = self.retained.records[i];
                if rec.collection != Collection::Rows {
                    Err(MigrationError::RowDiffers)
                } else {
                    match (
                        self.holds(i, "source_id"@, source_id),
                        self.holds(i, "table_name"@, table),
                    ) {
                        (Err(e), _) => Err(e),
                        (Ok(false), _) => Err(MigrationError::RowDiffers),
                        (_, Err(e)) => Err(e),
                        (_, Ok(false)) => Err(MigrationError::RowDiffers),
                        _ => match rec.typed_text("key_json"@, KEY_BYTES as nat) {
                            Err(e) => Err(e),
                            Ok(text) => match rec.key {
                                None => Err(MigrationError::KeyDamaged),
                                Some(key) if key.key != text => Err(MigrationError::KeyDamaged),
                                Some(key) => match self.unique(Query::TableByName(table)) {
                                    Err(why) => Err(retained::relation_error(why)),
                                    Ok(table_record) => match self.record(used1, table_record) {
                                        Err(e) => Err(e),
                                        Ok((t, used2)) => if self.retained.records[t].collection
                                            != Collection::Tables {
                                            Err(MigrationError::RowDiffers)
                                        } else {
                                            match self.holds(t, "name"@, table) {
                                                Err(e) => Err(e),
                                                Ok(false) => Err(MigrationError::RowDiffers),
                                                Ok(true) => match rec.field("cells_json"@) {
                                                    None => Err(MigrationError::FieldMissing),
                                                    Some(cells) => Ok(
                                                        (
                                                            RawRowModel {
                                                                record: sequence,
                                                                source: proofs::SourceKeyModel {
                                                                    capture_revision: self.revision,
                                                                    table,
                                                                    key: key.key,
                                                                    identity: key.identity,
                                                                },
                                                                source_id,
                                                                entity_record: entity,
                                                                table_record,
                                                                cells_field: "cells_json"@,
                                                                cells_json_bytes: cells.size() as u64,
                                                                classification: classified(table),
                                                            },
                                                            used2,
                                                        ),
                                                    ),
                                                },
                                            }
                                        },
                                    },
                                },
                            },
                        },
                    }
                }
            },
        }
    }

    /// The key that references to a row name it by.
    pub open spec fn local_key(self, used: nat, row: RawRowModel) -> Result<
        (Seq<char>, nat),
        MigrationError,
    > {
        match self.record(used, row.entity_record) {
            Err(e) => Err(e),
            Ok((i, used1)) => match self.text(i, "local_key"@) {
                Err(e) => Err(e),
                Ok(key) => Ok((key, used1)),
            },
        }
    }

    /// How far the first `n` references of a relation lead.
    pub open spec fn group_walk(
        self,
        used: nat,
        hits: Seq<int>,
        source_id: Seq<char>,
        field: Seq<char>,
        table: Seq<char>,
        n: nat,
    ) -> Result<(proofs::Walked, nat), MigrationError>
        decreases n,
    {
        if n == 0 {
            Ok((proofs::Walked::Open(None), used))
        } else {
            match self.group_walk(used, hits, source_id, field, table, (n - 1) as nat) {
                Err(e) => Err(e),
                Ok((proofs::Walked::Closed(why), used1)) => Ok((proofs::Walked::Closed(why), used1)),
                Ok((proofs::Walked::Open(found), used1)) => match self.record(
                    used1,
                    self.retained.records[hits[n - 1]].sequence,
                ) {
                    Err(e) => Err(e),
                    Ok((i, used2)) => match self.in_group(i, source_id, field, table) {
                        Err(e) => Err(e),
                        Ok(local_key) => match self.unique(
                            Query::EntitiesByLocalKey { table_name: table, local_key },
                        ) {
                            Ok(id) => if found is Some {
                                Ok((proofs::Walked::Closed(Compatibility::Ambiguous), used2))
                            } else {
                                Ok((proofs::Walked::Open(Some(id)), used2))
                            },
                            Err(Compatibility::Missing) => Ok((proofs::Walked::Open(found), used2)),
                            Err(why) => Ok((proofs::Walked::Closed(why), used2)),
                        },
                    },
                },
            }
        }
    }

    /// The target key of a reference that has to belong to a relation.
    pub open spec fn in_group(
        self,
        i: int,
        source_id: Seq<char>,
        field: Seq<char>,
        table: Seq<char>,
    ) -> Result<Seq<char>, MigrationError> {
        if self.retained.records[i].collection != Collection::References {
            Err(MigrationError::RowDiffers)
        } else {
            match (
                self.holds(i, "source_id"@, source_id),
                self.holds(i, "field"@, field),
                self.holds(i, "target_table"@, table),
            ) {
                (Err(e), _, _) => Err(e),
                (Ok(false), _, _) => Err(MigrationError::RowDiffers),
                (_, Err(e), _) => Err(e),
                (_, Ok(false), _) => Err(MigrationError::RowDiffers),
                (_, _, Err(e)) => Err(e),
                (_, _, Ok(false)) => Err(MigrationError::RowDiffers),
                _ => self.text(i, "target_key"@),
            }
        }
    }

    /// The single target of a relation: all references of the row's field into the
    /// table count, not one of them alone. One that leads nowhere does not matter,
    /// but two that lead somewhere are ambiguous.
    pub open spec fn group_target(
        self,
        used: nat,
        source_id: Seq<char>,
        field: Seq<char>,
        table: Seq<char>,
    ) -> Result<(Result<i64, Compatibility>, nat), MigrationError> {
        let q = Query::References { source_id, field: Some(field), target_table: Some(table) };
        let hits = self.retained.hits(self.input, self.revision, q, None);
        if !self.retained.coverage_complete(self.input, self.revision)
            || !self.retained.keys_complete(self.input, self.revision) || hits.len() > GROUP_LIMIT {
            Ok((Err(Compatibility::Unavailable), used))
        } else {
            match self.group_walk(used, hits, source_id, field, table, hits.len()) {
                Err(e) => Err(e),
                Ok((proofs::Walked::Closed(why), used1)) => Ok((Err(why), used1)),
                Ok((proofs::Walked::Open(None), used1)) => Ok((Err(Compatibility::Missing), used1)),
                Ok((proofs::Walked::Open(Some(id)), used1)) => Ok((Ok(id), used1)),
            }
        }
    }

    /// The row that an entity stands for, where there is one.
    pub open spec fn optional_row(self, used: nat, entity: Result<i64, Compatibility>) -> Result<
        (Option<RawRowModel>, nat),
        MigrationError,
    > {
        match entity {
            Err(_) => Ok((None, used)),
            Ok(id) => match self.row(used, id) {
                Err(e) => Err(e),
                Ok((row, used1)) => Ok((Some(row), used1)),
            },
        }
    }

    /// What a reference leads from and to.
    #[verifier::opaque]
    pub open spec fn endpoints(self, used: nat, reference: i64) -> Result<
        (RelationModel, nat),
        MigrationError,
    > {
        match self.record(used, reference) {
            Err(e) => Err(e),
            Ok((i, used1)) => if self.retained.records[i].collection != Collection::References {
                Err(MigrationError::RecordKind)
            } else {
                match (
                    self.text(i, "source_id"@),
                    self.text(i, "field"@),
                    self.text(i, "target_table"@),
                    self.text(i, "target_key"@),
                ) {
                    (Err(e), _, _, _) => Err(e),
                    (_, Err(e), _, _) => Err(e),
                    (_, _, Err(e), _) => Err(e),
                    (_, _, _, Err(e)) => Err(e),
                    (Ok(source_id), Ok(field), Ok(target_table), Ok(target_key)) => {
                        let from = self.unique(Query::EntitiesBySource(source_id));
                        let to = self.unique(
                            Query::EntitiesByLocalKey {
                                table_name: target_table,
                                local_key: target_key,
                            },
                        );
                        match self.group_target(used1, source_id, field, target_table) {
                            Err(e) => Err(e),
                            Ok((group, used2)) => match self.optional_row(used2, from) {
                                Err(e) => Err(e),
                                Ok((source, used3)) => match self.optional_row(used3, to) {
                                    Err(e) => Err(e),
                                    Ok((target, used4)) => Ok(
                                        (
                                            RelationModel {
                                                reference_record: reference,
                                                source_id,
                                                field,
                                                target_table,
                                                target_key,
                                                source,
                                                target,
                                                compatibility: settled(group, from, to),
                                                anchor: None,
                                            },
                                            used4,
                                        ),
                                    ),
                                },
                            },
                        }
                    },
                }
            },
        }
    }

    /// A settings row belongs to the image, or to none at all.
    #[verifier::opaque]
    pub open spec fn settings_owner(self, used: nat, next: RawRowModel, root: RawRowModel) -> Result<
        (bool, nat),
        MigrationError,
    > {
        let q = Query::References {
            source_id: next.source_id,
            field: Some("image"@),
            target_table: Some("Adobe_images"@),
        };
        let hits = self.retained.hits(self.input, self.revision, q, None);
        if next.source.table != "Adobe_imageDevelopSettings"@ {
            Ok((true, used))
        } else if !self.retained.coverage_complete(self.input, self.revision)
            || !self.retained.keys_complete(self.input, self.revision) || hits.len() > 1 {
            Ok((false, used))
        } else if hits.len() == 0 {
            Ok((true, used))
        } else {
            match self.endpoints(used, self.retained.records[hits[0]].sequence) {
                Err(e) => Err(e),
                Ok((link, used1)) => Ok(
                    (link.target matches Some(target) && target.record == root.record, used1),
                ),
            }
        }
    }
}

/// How far a relation can be relied upon: all three of its findings have to be
/// unique.
pub open spec fn settled(
    group: Result<i64, Compatibility>,
    from: Result<i64, Compatibility>,
    to: Result<i64, Compatibility>,
) -> Compatibility {
    match (group, from, to) {
        (Err(why), _, _) => why,
        (_, Err(why), _) => why,
        (_, _, Err(why)) => why,
        _ => Compatibility::RetainedOnly,
    }
}

/// The row that a relation leads to from a row, where it can be relied upon and
/// starts there.
pub open spec fn following(current: RawRowModel, relation: RelationModel, direction: Direction) -> Option<
    RawRowModel,
> {
    if relation.compatibility != Compatibility::RetainedOnly {
        None
    } else {
        let (from, to) = match direction {
            Direction::Incoming => (relation.target, relation.source),
            Direction::Outgoing => (relation.source, relation.target),
        };
        match (from, to) {
            (Some(f), Some(t)) => if f.record == current.record {
                Some(t)
            } else {
                None
            },
            _ => None,
        }
    }
}

/// The steps that stay within an image's history: from the image to rows that name
/// it, but for other images and files; from the image to its current settings; and
/// between settings and those before them.
pub open spec fn step_allowed(
    current: RawRowModel,
    next: RawRowModel,
    relation: RelationModel,
    direction: Direction,
    root: i64,
) -> bool {
    if current.record == root {
        match direction {
            Direction::Incoming => relation.target_table == "Adobe_images"@ && next.source.table
                != "Adobe_images"@ && next.source.table != "AgLibraryFile"@,
            Direction::Outgoing => relation.field == "developSettingsIDCache"@ && next.source.table
                == "Adobe_imageDevelopSettings"@,
        }
    } else {
        ||| current.source.table == "Adobe_imageDevelopSettings"@ && next.source.table
            == "Adobe_imageDevelopBeforeSettings"@ && direction == Direction::Incoming
            && relation.field == "developSettings"@
        ||| current.source.table == "Adobe_imageDevelopBeforeSettings"@ && next.source.table
            == "Adobe_imageDevelopSettings"@ && direction == Direction::Outgoing && relation.field
            == "developSettings"@
    }
}

/// A step from the image to the settings it names as its current ones.
pub open spec fn to_current(
    current: RawRowModel,
    next: RawRowModel,
    relation: RelationModel,
    direction: Direction,
    root: i64,
) -> bool {
    current.record == root && direction == Direction::Outgoing && relation.field
        == "developSettingsIDCache"@ && next.source.table == "Adobe_imageDevelopSettings"@
}

/// The row that a step comes to.
pub open spec fn arrived(
    current: RawRowModel,
    next: RawRowModel,
    relation: RelationModel,
    direction: Direction,
    root: i64,
) -> RawRowModel {
    if to_current(current, next, relation, direction, root) {
        RawRowModel { classification: Classification::CurrentSettings, ..next }
    } else {
        next
    }
}

impl<'a> Scope<'a> {
    fn read_record(&self, used: usize, sequence: i64) -> (r: Result<(usize, usize), MigrationError>)
        ensures
            match self@.record(used as nat, sequence) {
                Err(e) => r == Err::<(usize, usize), MigrationError>(e),
                Ok((i, u)) => r matches Ok((k, v)) && k == i && v == u && k
                    < self.retained.records@.len() && self@.retained.records[i]
                    == self.retained.records@[i]@,
            },
    {
        let i: usize = match self.retained.find_record(sequence) {
            None => return Err(MigrationError::RecordMissing),
            Some(i) => i,
        };
        let rec = &self.retained.records[i];
        if !same(rec.input.as_str(), self.input.as_str()) || !same(
            rec.revision.as_str(),
            self.revision.as_str(),
        ) {
            return Err(MigrationError::RecordForeign);
        }
        if used > MAX_BYTES || rec.raw_length > MAX_BYTES - used {
            return Err(MigrationError::ByteLimit);
        }
        Ok((i, used + rec.raw_length))
    }

    fn read_text(&self, i: usize, name: &str) -> (r: Result<String, MigrationError>)
        requires
            i < self.retained.records@.len(),
        ensures
            match self@.text(i as int, name@) {
                Err(e) => r == Err::<String, MigrationError>(e),
                Ok(text) => r matches Ok(s) && s@ == text,
            },
    {
        assert(self@.retained.records[i as int] == self.retained.records@[i as int]@);
        self.retained.records[i].read_typed_text(name, IDENTITY_BYTES)
    }

    fn is_holding(&self, i: usize, name: &str, value: &str) -> (r: Result<bool, MigrationError>)
        requires
            i < self.retained.records@.len(),
        ensures
            r == self@.holds(i as int, name@, value@),
    {
        match self.read_text(i, name) {
            Err(e) => Err(e),
            Ok(text) => Ok(same(text.as_str(), value)),
        }
    }

    fn find_unique(&self, q: &Lookup) -> (r: Result<i64, Compatibility>)
        ensures
            r == self@.unique(q@),
    {
        self.retained.find_unique(self.input.as_str(), self.revision.as_str(), q)
    }

    fn read_row(&self, used: usize, entity: i64) -> (r: Result<(RawRow, usize), MigrationError>)
        ensures
            match self@.row(used as nat, entity) {
                Err(e) => r == Err::<(RawRow, usize), MigrationError>(e),
                Ok((row, u)) => r matches Ok((found, v)) && found@ == row && v == u,
            },
    {
        let (e, used1): (usize, usize) = match self.read_record(used, entity) {
            Err(e) => return Err(e),
            Ok(found) => found,
        };
        if self.retained.records[e].collection != Collection::Entities {
            return Err(MigrationError::RecordKind);
        }
        let source_id: String = match self.read_text(e, "source_id") {
            Err(e) => return Err(e),
            Ok(text) => text,
        };
        let table: String = match self.read_text(e, "table_name") {
            Err(e) => return Err(e),
            Ok(text) => text,
        };
        match self.find_unique(&Lookup::RowsBySource(source_id.clone())) {
            Err(why) => Err(to_relation_error(why)),
            Ok(sequence) => self.read_raw_row(used1, entity, sequence, source_id, table),
        }
    }

    fn read_raw_row(
        &self,
        used: usize,
        entity: i64,
        sequence: i64,
        source_id: String,
        table: String,
    ) -> (r: Result<(RawRow, usize), MigrationError>)
        ensures
            match self@.raw_row(used as nat, entity, sequence, source_id@, table@) {
                Err(e) => r == Err::<(RawRow, usize), MigrationError>(e),
                Ok((row, u)) => r matches Ok((found, v)) && found@ == row && v == u,
            },
    {
        let (i, used1): (usize, usize) = match self.read_record(used, sequence) {
            Err(e) => return Err(e),
            Ok(found) => found,
        };
        let rec = &self.retained.records[i];
        if rec.collection != Collection::Rows {
            return Err(MigrationError::RowDiffers);
        }
        match self.is_holding(i, "source_id", source_id.as_str()) {
            Err(e) => return Err(e),
            Ok(false) => return Err(MigrationError::RowDiffers),
            Ok(true) => {},
        }
        match self.is_holding(i, "table_name", table.as_str()) {
            Err(e) => return Err(e),
            Ok(false) => return Err(MigrationError::RowDiffers),
            Ok(true) => {},
        }
        let text: String = match rec.read_typed_text("key_json", KEY_BYTES) {
            Err(e) => return Err(e),
            Ok(text) => text,
        };
        let (key, identity): (String, String) = match &rec.key {
            None => return Err(MigrationError::KeyDamaged),
            Some(key) => {
                if !same(key.key.as_str(), text.as_str()) {
                    return Err(MigrationError::KeyDamaged);
                }
                (key.key.clone(), key.identity.clone())
            },
        };
        let table_record: i64 = match self.find_unique(&Lookup::TableByName(table.clone())) {
            Err(why) => return Err(to_relation_error(why)),
            Ok(table_record) => table_record,
        };
        let (t, used2): (usize, usize) = match self.read_record(used1, table_record) {
            Err(e) => return Err(e),
            Ok(found) => found,
        };
        if self.retained.records[t].collection != Collection::Tables {
            return Err(MigrationError::RowDiffers);
        }
        match self.is_holding(t, "name", table.as_str()) {
            Err(e) => return Err(e),
            Ok(false) => return Err(MigrationError::RowDiffers),
            Ok(true) => {},
        }
        match rec.get("cells_json") {
            None => Err(MigrationError::FieldMissing),
            Some(cells) => {
                let classification: Classification = classification(table.as_str());
                let row: RawRow = RawRow {
                    record: sequence,
                    source: SourceKey {
                        capture_revision: self.revision.clone(),
                        table,
                        key,
                        identity,
                    },
                    source_id,
                    entity_record: entity,
                    table_record,
                    cells_field: "cells_json".to_owned(),
                    cells_json_bytes: field_size(cells),
                    classification,
                };
                Ok((row, used2))
            },
        }
    }

    fn read_local_key(&self, used: usize, row: &RawRow) -> (r: Result<
        (String, usize),
        MigrationError,
    >)
        ensures
            match self@.local_key(used as nat, row@) {
                Err(e) => r == Err::<(String, usize), MigrationError>(e),
                Ok((key, u)) => r matches Ok((found, v)) && found@ == key && v == u,
            },
    {
        match self.read_record(used, row.entity_record) {
            Err(e) => Err(e),
            Ok((i, used1)) => match self.read_text(i, "local_key") {
                Err(e) => Err(e),
                Ok(key) => Ok((key, used1)),
            },
        }
    }

    fn read_in_group(&self, i: usize, source_id: &str, field: &str, table: &str) -> (r: Result<
        String,
        MigrationError,
    >)
        requires
            i < self.retained.records@.len(),
        ensures
            match self@.in_group(i as int, source_id@, field@, table@) {
                Err(e) => r == Err::<String, MigrationError>(e),
                Ok(key) => r matches Ok(found) && found@ == key,
            },
    {
        assert(self@.retained.records[i as int] == self.retained.records@[i as int]@);
        if self.retained.records[i].collection != Collection::References {
            return Err(MigrationError::RowDiffers);
        }
        match self.is_holding(i, "source_id", source_id) {
            Err(e) => return Err(e),
            Ok(false) => return Err(MigrationError::RowDiffers),
            Ok(true) => {},
        }
        match self.is_holding(i, "field", field) {
            Err(e) => return Err(e),
            Ok(false) => return Err(MigrationError::RowDiffers),
            Ok(true) => {},
        }
        match self.is_holding(i, "target_table", table) {
            Err(e) => return Err(e),
            Ok(false) => return Err(MigrationError::RowDiffers),
            Ok(true) => {},
        }
        self.read_text(i, "target_key")
    }

    fn find_group_target(&self, used: usize, source_id: &str, field: &str, table: &str) -> (r: Result<
        (Result<i64, Compatibility>, usize),
        MigrationError,
    >)
        ensures
            match self@.group_target(used as nat, source_id@, field@, table@) {
                Err(e) => r == Err::<(Result<i64, Compatibility>, usize), MigrationError>(e),
                Ok((found, u)) => r matches Ok((f, v)) && f == found && v == u,
            },
    {
        let q: Lookup = Lookup::References {
            source_id: source_id.to_owned(),
            field: Some(field.to_owned()),
            target_table: Some(table.to_owned()),
        };
        let page: Page = self.retained.lookup(
            self.input.as_str(),
            self.revision.as_str(),
            &q,
            None,
            GROUP_LIMIT,
        );
        let ghost hits = self@.retained.hits(self.input@, self.revision@, q@, None);
        if !page.coverage_complete || !page.keys_complete || page.next.is_some() {
            return Ok((Err(Compatibility::Unavailable), used));
        }
        assert(support::ints(page.hits@) == hits);
        let ghost start = used as nat;
        let mut spent: usize = used;
        let mut found: Option<i64> = None;
        let mut n: usize = 0;
        while n < page.hits.len()
            invariant
                n <= page.hits@.len(),
                start == used as nat,
                support::ints(page.hits@) == hits,
                hits.len() <= GROUP_LIMIT,
                self@.retained.coverage_complete(self.input@, self.revision@),
                self@.retained.keys_complete(self.input@, self.revision@),
                hits == self@.retained.hits(
                    self.input@,
                    self.revision@,
                    (Query::References {
                        source_id: source_id@,
                        field: Some(field@),
                        target_table: Some(table@),
                    }),
                    None,
                ),
                forall|k: int|
                    0 <= k < page.hits@.len() ==> (#[trigger] page.hits@[k])
                        < self.retained.records@.len(),
                self@.group_walk(start, hits, source_id@, field@, table@, n as nat) == Ok::<
                    (proofs::Walked, nat),
                    MigrationError,
                >((proofs::Walked::Open(found), spent as nat)),
            decreases page.hits@.len() - n,
        {
            let h: usize = page.hits[n];
            let ghost next = (n + 1) as nat;
            proof {
                assert(hits[n as int] == h as int);
                assert(self@.retained.records[h as int] == self.retained.records@[h as int]@);
            }
            let (i, after): (usize, usize) = match self.read_record(
                spent,
                self.retained.records[h].sequence,
            ) {
                Err(e) => {
                    proof {
                        lemma_group_stopped(self@, start, hits, source_id@, field@, table@, next);
                    }
                    return Err(e);
                },
                Ok(read) => read,
            };
            let local_key: String = match self.read_in_group(i, source_id, field, table) {
                Err(e) => {
                    proof {
                        lemma_group_stopped(self@, start, hits, source_id@, field@, table@, next);
                    }
                    return Err(e);
                },
                Ok(key) => key,
            };
            let target: Lookup = Lookup::EntitiesByLocalKey {
                table_name: table.to_owned(),
                local_key,
            };
            spent = after;
            match self.find_unique(&target) {
                Ok(id) => {
                    if found.is_some() {
                        proof {
                            lemma_group_stopped(
                                self@,
                                start,
                                hits,
                                source_id@,
                                field@,
                                table@,
                                next,
                            );
                        }
                        return Ok((Err(Compatibility::Ambiguous), spent));
                    }
                    found = Some(id);
                },
                Err(Compatibility::Missing) => {},
                Err(why) => {
                    proof {
                        lemma_group_stopped(self@, start, hits, source_id@, field@, table@, next);
                    }
                    return Ok((Err(why), spent));
                },
            }
            n += 1;
        }
        match found {
            Some(id) => Ok((Ok(id), spent)),
            None => Ok((Err(Compatibility::Missing), spent)),
        }
    }

    fn read_optional_row(&self, used: usize, entity: Result<i64, Compatibility>) -> (r: Result<
        (Option<RawRow>, usize),
        MigrationError,
    >)
        ensures
            match self@.optional_row(used as nat, entity) {
                Err(e) => r == Err::<(Option<RawRow>, usize), MigrationError>(e),
                Ok((row, u)) => r matches Ok((found, v)) && row_of(found) == row && v == u,
            },
    {
        match entity {
            Err(_) => Ok((None, used)),
            Ok(id) => match self.read_row(used, id) {
                Err(e) => Err(e),
                Ok((row, used1)) => Ok((Some(row), used1)),
            },
        }
    }

    /// What a reference leads from and to.
    fn read_endpoints(&self, used: usize, reference: i64) -> (r: Result<
        (Relation, usize),
        MigrationError,
    >)
        ensures
            match self@.endpoints(used as nat, reference) {
                Err(e) => r == Err::<(Relation, usize), MigrationError>(e),
                Ok((relation, u)) => r matches Ok((found, v)) && found@ == relation && v == u,
            },
    {
        proof {
            reveal(ScopeModel::endpoints);
        }
        let (i, used1): (usize, usize) = match self.read_record(used, reference) {
            Err(e) => return Err(e),
            Ok(found) => found,
        };
        if self.retained.records[i].collection != Collection::References {
            return Err(MigrationError::RecordKind);
        }
        let source_id: String = match self.read_text(i, "source_id") {
            Err(e) => return Err(e),
            Ok(text) => text,
        };
        let field: String = match self.read_text(i, "field") {
            Err(e) => return Err(e),
            Ok(text) => text,
        };
        let target_table: String = match self.read_text(i, "target_table") {
            Err(e) => return Err(e),
            Ok(text) => text,
        };
        let target_key: String = match self.read_text(i, "target_key") {
            Err(e) => return Err(e),
            Ok(text) => text,
        };
        let from: Result<i64, Compatibility> = self.find_unique(
            &Lookup::EntitiesBySource(source_id.clone()),
        );
        let to: Result<i64, Compatibility> = self.find_unique(
            &Lookup::EntitiesByLocalKey {
                table_name: target_table.clone(),
                local_key: target_key.clone(),
            },
        );
        let (group, used2): (Result<i64, Compatibility>, usize) = match self.find_group_target(
            used1,
            source_id.as_str(),
            field.as_str(),
            target_table.as_str(),
        ) {
            Err(e) => return Err(e),
            Ok(found) => found,
        };
        let (source, used3): (Option<RawRow>, usize) = match self.read_optional_row(used2, from) {
            Err(e) => return Err(e),
            Ok(found) => found,
        };
        let (target, used4): (Option<RawRow>, usize) = match self.read_optional_row(used3, to) {
            Err(e) => return Err(e),
            Ok(found) => found,
        };
        let compatibility: Compatibility = settle(group, from, to);
        let relation: Relation = Relation {
            reference_record: reference,
            source_id,
            field,
            target_table,
            target_key,
            source,
            target,
            compatibility,
            anchor: None,
        };
        Ok((relation, used4))
    }

    fn check_settings_owner(&self, used: usize, next: &RawRow, root: &RawRow) -> (r: Result<
        (bool, usize),
        MigrationError,
    >)
        ensures
            match self@.settings_owner(used as nat, next@, root@) {
                Err(e) => r == Err::<(bool, usize), MigrationError>(e),
                Ok((owned, u)) => r matches Ok((b, v)) && b == owned && v == u,
            },
    {
        proof {
            reveal(ScopeModel::settings_owner);
        }
        if !same(next.source.table.as_str(), "Adobe_imageDevelopSettings") {
            return Ok((true, used));
        }
        let q: Lookup = Lookup::References {
            source_id: next.source_id.clone(),
            field: Some("image".to_owned()),
            target_table: Some("Adobe_images".to_owned()),
        };
        let page: Page = self.retained.lookup(
            self.input.as_str(),
            self.revision.as_str(),
            &q,
            None,
            2,
        );
        let ghost hits = self@.retained.hits(self.input@, self.revision@, q@, None);
        assert(support::ints(page.hits@).len() == page.hits@.len());
        if !page.coverage_complete || !page.keys_complete || page.hits.len() > 1
            || page.next.is_some() {
            return Ok((false, used));
        }
        if page.hits.len() == 0 {
            return Ok((true, used));
        }
        let h: usize = page.hits[0];
        proof {
            assert(support::ints(page.hits@)[0] == h as int);
            assert(self@.retained.records[h as int] == self.retained.records@[h as int]@);
        }
        match self.read_endpoints(used, self.retained.records[h].sequence) {
            Err(e) => Err(e),
            Ok((link, used1)) => {
                let owned: bool = match &link.target {
                    Some(target) => target.record == root.record,
                    None => false,
                };
                Ok((owned, used1))
            },
        }
    }
}

proof fn lemma_group_stopped(
    s: ScopeModel,
    used: nat,
    hits: Seq<int>,
    source_id: Seq<char>,
    field: Seq<char>,
    table: Seq<char>,
    n: nat,
)
    requires
        n <= hits.len(),
        match s.group_walk(used, hits, source_id, field, table, n) {
            Err(_) => true,
            Ok((walked, _)) => walked is Closed,
        },
    ensures
        s.group_walk(used, hits, source_id, field, table, hits.len()) == s.group_walk(
            used,
            hits,
            source_id,
            field,
            table,
            n,
        ),
    decreases hits.len() - n,
{
    if n < hits.len() {
        lemma_group_stopped(s, used, hits, source_id, field, table, n + 1);
    }
}

fn settle(
    group: Result<i64, Compatibility>,
    from: Result<i64, Compatibility>,
    to: Result<i64, Compatibility>,
) -> (c: Compatibility)
    ensures
        c == settled(group, from, to),
{
    match group {
        Err(why) => why,
        Ok(_) => match from {
            Err(why) => why,
            Ok(_) => match to {
                Err(why) => why,
                Ok(_) => Compatibility::RetainedOnly,
            },
        },
    }
}

/// The row that a relation leads to from a row.
pub fn next_row(current: &RawRow, relation: &Relation, direction: Direction) -> (r: Option<RawRow>)
    ensures
        row_of(r) == following(current@, relation@, direction),
{
    if relation.compatibility != Compatibility::RetainedOnly {
        return None;
    }
    let (from, to): (&Option<RawRow>, &Option<RawRow>) = match direction {
        Direction::Incoming => (&relation.target, &relation.source),
        Direction::Outgoing => (&relation.source, &relation.target),
    };
    match (from, to) {
        (Some(f), Some(t)) => {
            if f.record == current.record {
                Some(t.copied())
            } else {
                None
            }
        },
        _ => None,
    }
}

/// Whether a step stays within an image's history.
pub fn allowed_step(
    current: &RawRow,
    next: &RawRow,
    relation: &Relation,
    direction: Direction,
    root: i64,
) -> (r: bool)
    ensures
        r == step_allowed(current@, next@, relation@, direction, root),
{
    if current.record == root {
        return match direction {
            Direction::Incoming => same(relation.target_table.as_str(), "Adobe_images") && !same(
                next.source.table.as_str(),
                "Adobe_images",
            ) && !same(next.source.table.as_str(), "AgLibraryFile"),
            Direction::Outgoing => same(relation.field.as_str(), "developSettingsIDCache") && same(
                next.source.table.as_str(),
                "Adobe_imageDevelopSettings",
            ),
        };
    }
    (same(current.source.table.as_str(), "Adobe_imageDevelopSettings") && same(
        next.source.table.as_str(),
        "Adobe_imageDevelopBeforeSettings",
    ) && direction == Direction::Incoming && same(relation.field.as_str(), "developSettings")) || (
    same(current.source.table.as_str(), "Adobe_imageDevelopBeforeSettings") && same(
        next.source.table.as_str(),
        "Adobe_imageDevelopSettings",
    ) && direction == Direction::Outgoing && same(relation.field.as_str(), "developSettings"))
}

fn arrive(
    current: &RawRow,
    next: RawRow,
    relation: &Relation,
    direction: Direction,
    root: i64,
) -> (r: RawRow)
    ensures
        r@ == arrived(current@, next@, relation@, direction, root),
{
    let mut row: RawRow = next;
    if current.record == root && direction == Direction::Outgoing && same(
        relation.field.as_str(),
        "developSettingsIDCache",
    ) && same(row.source.table.as_str(), "Adobe_imageDevelopSettings") {
        row.classification = Classification::CurrentSettings;
    }
    row
}

/// An import of an image that retained records and a decision stand behind.
pub open spec fn origin_of(
    image: Seq<char>,
    r: RetainedModel,
    p: images::ProjectionsModel,
) -> spec_fn(tables::ImportMappingModel) -> bool {
    |m: tables::ImportMappingModel|
        m.image_id == image && (p.projection_at(m.source_id) matches Some(i) && p.rows[i].owner
            == m.import_source && p.rows[i].input_digest == m.input_digest && r.record_of(
            p.rows[i].retained_record,
        ) is Some)
}

/// Where an image's history starts.
pub struct Root {
    pub input: Seq<char>,
    pub revision: Seq<char>,
    pub used: nat,
    pub record: i64,
    pub row: RawRowModel,
}

/// Where the history of a variant's image starts: at the row of the one source
/// image that the variant was imported from.
#[verifier::opaque]
pub open spec fn root_of(
    m: TablesModel,
    r: RetainedModel,
    p: images::ProjectionsModel,
    key: catalog_images::VariantKeyModel,
) -> Result<Root, MigrationError> {
    match m.id_of(key) {
        None => Err(MigrationError::OriginAmbiguous),
        Some(image) => {
            let found = support::positions(m.import_map, origin_of(image, r, p), m.import_map.len());
            if found.len() != 1 {
                Err(MigrationError::OriginAmbiguous)
            } else {
                let mapping = m.import_map[found[0]];
                let row = p.rows[p.projection_at(mapping.source_id)->0];
                let rec = r.records[r.record_of(row.retained_record)->0];
                if mapping.source_table != "Adobe_images"@ {
                    Err(MigrationError::SourceTable)
                } else if row.result.source_identity != mapping.source_id || !(
                row.result.outcome matches images::OutcomeModel::Image { key: k, .. } && k == key) {
                    Err(MigrationError::OriginDiffers)
                } else {
                    let s = ScopeModel {
                        retained: r,
                        input: rec.input,
                        revision: mapping.capture_revision,
                    };
                    root_row(s, row.retained_record, row.retained_table, mapping.source_id)
                }
            }
        },
    }
}

/// The row that a history starts at, which has to be the one that was imported and
/// to be named by one key only.
pub open spec fn root_row(s: ScopeModel, record: i64, table: i64, identity: Seq<char>) -> Result<
    Root,
    MigrationError,
> {
    match s.record(0, record) {
        Err(e) => Err(e),
        Ok((i, used)) => match s.text(i, "source_id"@) {
            Err(e) => Err(e),
            Ok(source_id) => match s.unique(Query::EntitiesBySource(source_id)) {
                Err(why) => Err(retained::relation_error(why)),
                Ok(entity) => match s.row(used, entity) {
                    Err(e) => Err(e),
                    Ok((row, used1)) => if row.record != record || row.table_record != table
                        || row.source.identity != identity {
                        Err(MigrationError::OriginDiffers)
                    } else {
                        match s.local_key(used1, row) {
                            Err(e) => Err(e),
                            Ok((local_key, used2)) => if s.unique(
                                Query::EntitiesByLocalKey {
                                    table_name: "Adobe_images"@,
                                    local_key,
                                },
                            ) != Ok::<i64, Compatibility>(entity) {
                                Err(MigrationError::RelationAmbiguous)
                            } else {
                                Ok(
                                    Root {
                                        input: s.input,
                                        revision: s.revision,
                                        used: used2,
                                        record,
                                        row,
                                    },
                                )
                            },
                        }
                    },
                },
            },
        },
    }
}

fn read_root_row<'a>(s: Scope<'a>, record: i64, table: i64, identity: &str) -> (out: Result<
    (Scope<'a>, usize, RawRow),
    MigrationError,
>)
    ensures
        match root_row(s@, record, table, identity@) {
            Err(e) => out == Err::<(Scope, usize, RawRow), MigrationError>(e),
            Ok(root) => out matches Ok((scope, used, row)) && scope == s && used == root.used
                && row@ == root.row && root.record == record && root.input == s@.input
                && root.revision == s@.revision,
        },
{
    let (i, used): (usize, usize) = match s.read_record(0, record) {
        Err(e) => return Err(e),
        Ok(found) => found,
    };
    let source_id: String = match s.read_text(i, "source_id") {
        Err(e) => return Err(e),
        Ok(text) => text,
    };
    let entity: i64 = match s.find_unique(&Lookup::EntitiesBySource(source_id)) {
        Err(why) => return Err(to_relation_error(why)),
        Ok(entity) => entity,
    };
    let (row, used1): (RawRow, usize) = match s.read_row(used, entity) {
        Err(e) => return Err(e),
        Ok(found) => found,
    };
    if row.record != record || row.table_record != table || !same(
        row.source.identity.as_str(),
        identity,
    ) {
        return Err(MigrationError::OriginDiffers);
    }
    let (local_key, used2): (String, usize) = match s.read_local_key(used1, &row) {
        Err(e) => return Err(e),
        Ok(found) => found,
    };
    let own: Lookup = Lookup::EntitiesByLocalKey {
        table_name: "Adobe_images".to_owned(),
        local_key,
    };
    match s.find_unique(&own) {
        Ok(id) => {
            if id != entity {
                return Err(MigrationError::RelationAmbiguous);
            }
        },
        Err(_) => return Err(MigrationError::RelationAmbiguous),
    }
    Ok((s, used2, row))
}

fn is_origin(r: &Retained, p: &Projections, image: &str, m: &ImportMapping) -> (b: bool)
    ensures
        b == origin_of(image@, r@, p@)(m@),
{
    if !same(m.image_id.as_str(), image) {
        return false;
    }
    match p.find_projection_at(m.source_id.as_str()) {
        None => false,
        Some(i) => {
            assert(p@.rows[i as int] == p.rows@[i as int]@);
            same(p.rows[i].owner.as_str(), m.import_source.as_str()) && same(
                p.rows[i].input_digest.as_str(),
                m.input_digest.as_str(),
            ) && r.find_record(p.rows[i].retained_record).is_some()
        },
    }
}

fn is_image_of(outcome: &Outcome, key: &VariantKey) -> (r: bool)
    ensures
        r == (outcome@ matches images::OutcomeModel::Image { key: k, .. } && k == key@),
{
    match outcome {
        Outcome::Image { key: k, .. } => k.same_as(key),
        Outcome::Retained { .. } => false,
    }
}

fn find_root<'a>(db: &Tables, r: &'a Retained, p: &Projections, key: &VariantKey) -> (out: Result<
    (Scope<'a>, usize, i64, RawRow),
    MigrationError,
>)
    ensures
        match root_of(db@, r@, p@, key@) {
            Err(e) => out == Err::<(Scope, usize, i64, RawRow), MigrationError>(e),
            Ok(root) => out matches Ok((scope, used, record, row)) && scope@ == (ScopeModel {
                retained: r@,
                input: root.input,
                revision: root.revision,
            }) && used == root.used && record == root.record && row@ == root.row,
        },
{
    proof {
        reveal(root_of);
    }
    let i: usize = match db.find_image_of(key.asset_id.as_str(), key.variant_id.as_str()) {
        None => return Err(MigrationError::OriginAmbiguous),
        Some(i) => i,
    };
    let image: &str = db.images[i].id.as_str();
    assert(db@.images[i as int] == db.images@[i as int]@);
    let test = |m: &ImportMapping| -> (b: bool)
        ensures b == origin_of(image@, r@, p@)(m@)
    {
        is_origin(r, p, image, m)
    };
    let found: Vec<usize> = find_all(&db.import_map, test, Ghost(origin_of(image@, r@, p@)));
    let ghost places = support::positions(
        db@.import_map,
        origin_of(image@, r@, p@),
        db@.import_map.len(),
    );
    assert(support::ints(found@).len() == found@.len());
    if found.len() != 1 {
        return Err(MigrationError::OriginAmbiguous);
    }
    let k: usize = found[0];
    let mapping = &db.import_map[k];
    proof {
        assert(support::ints(found@)[0] == k as int);
        assert(db@.import_map[k as int] == mapping@);
    }
    let (c, n): (usize, usize) = match p.find_projection_at(mapping.source_id.as_str()) {
        None => return Err(MigrationError::OriginAmbiguous),
        Some(c) => {
            assert(p@.rows[c as int] == p.rows@[c as int]@);
            match r.find_record(p.rows[c].retained_record) {
                None => return Err(MigrationError::OriginAmbiguous),
                Some(n) => (c, n),
            }
        },
    };
    let row = &p.rows[c];
    if !same(mapping.source_table.as_str(), "Adobe_images") {
        return Err(MigrationError::SourceTable);
    }
    if !same(row.result.source_identity.as_str(), mapping.source_id.as_str()) || !is_image_of(
        &row.result.outcome,
        key,
    ) {
        return Err(MigrationError::OriginDiffers);
    }
    let scope: Scope = Scope {
        retained: r,
        input: r.records[n].input.clone(),
        revision: mapping.capture_revision.clone(),
    };
    match read_root_row(scope, row.retained_record, row.retained_table, mapping.source_id.as_str()) {
        Err(e) => Err(e),
        Ok((s, used, start)) => Ok((s, used, row.retained_record, start)),
    }
}

/// Where the first `n` hops of a path come to. Each has to be adjacent, unique, and
/// to stay within the image's history.
pub open spec fn path(s: ScopeModel, root: Root, hops: Seq<Hop>, n: nat) -> Result<
    (RawRowModel, nat),
    MigrationError,
>
    decreases n,
{
    if n == 0 {
        Ok((root.row, root.used))
    } else {
        match path(s, root, hops, (n - 1) as nat) {
            Err(e) => Err(e),
            Ok((row, used)) => hopped(s, root, row, used, hops[n - 1]),
        }
    }
}

/// Where a hop comes to.
#[verifier::opaque]
pub open spec fn hopped(s: ScopeModel, root: Root, row: RawRowModel, used: nat, hop: Hop) -> Result<
    (RawRowModel, nat),
    MigrationError,
> {
    match s.endpoints(used, hop.reference) {
        Err(e) => Err(e),
        Ok((relation, used1)) => match following(row, relation, hop.direction) {
            None => Err(MigrationError::HopUnproven),
            Some(next) => if !step_allowed(row, next, relation, hop.direction, root.record) {
                Err(MigrationError::HopForbidden)
            } else {
                match s.settings_owner(used1, next, root.row) {
                    Err(e) => Err(e),
                    Ok((false, _)) => Err(MigrationError::HopForbidden),
                    Ok((true, used2)) => Ok(
                        (arrived(row, next, relation, hop.direction, root.record), used2),
                    ),
                }
            },
        },
    }
}

/// Where an anchor comes to, with the root it starts from.
pub open spec fn resolution(
    m: TablesModel,
    r: RetainedModel,
    p: images::ProjectionsModel,
    anchor: AnchorModel,
) -> Result<(Root, RawRowModel, nat), MigrationError> {
    if anchor.hops.len() > MAX_HOPS {
        Err(MigrationError::HopLimit)
    } else {
        match root_of(m, r, p, anchor.variant) {
            Err(e) => Err(e),
            Ok(root) => if anchor.input != root.input || anchor.root != root.record {
                Err(MigrationError::AnchorForeign)
            } else {
                let s = ScopeModel { retained: r, input: root.input, revision: root.revision };
                match path(s, root, anchor.hops, anchor.hops.len()) {
                    Err(e) => Err(e),
                    Ok((row, used)) => Ok((root, row, used)),
                }
            },
        }
    }
}

proof fn lemma_path_error(s: ScopeModel, root: Root, hops: Seq<Hop>, n: nat)
    requires
        n <= hops.len(),
        path(s, root, hops, n) is Err,
    ensures
        path(s, root, hops, hops.len()) == path(s, root, hops, n),
    decreases hops.len() - n,
{
    if n < hops.len() {
        lemma_path_error(s, root, hops, n + 1);
    }
}

fn take_hop(s: &Scope, root_record: i64, root_row: &RawRow, row: &RawRow, used: usize, hop: Hop, Ghost(root): Ghost<Root>) -> (out:
    Result<(RawRow, usize), MigrationError>)
    requires
        root.record == root_record,
        root.row == root_row@,
    ensures
        match hopped(s@, root, row@, used as nat, hop) {
            Err(e) => out == Err::<(RawRow, usize), MigrationError>(e),
            Ok((next, u)) => out matches Ok((found, v)) && found@ == next && v == u,
        },
{
    proof {
        reveal(hopped);
    }
    let (relation, used1): (Relation, usize) = match s.read_endpoints(used, hop.reference) {
        Err(e) => return Err(e),
        Ok(found) => found,
    };
    let next: RawRow = match next_row(row, &relation, hop.direction) {
        None => return Err(MigrationError::HopUnproven),
        Some(next) => next,
    };
    if !allowed_step(row, &next, &relation, hop.direction, root_record) {
        return Err(MigrationError::HopForbidden);
    }
    match s.check_settings_owner(used1, &next, root_row) {
        Err(e) => Err(e),
        Ok((false, _)) => Err(MigrationError::HopForbidden),
        Ok((true, used2)) => Ok((arrive(row, next, &relation, hop.direction, root_record), used2)),
    }
}

fn resolve<'a>(db: &Tables, r: &'a Retained, p: &Projections, anchor: &Anchor) -> (out: Result<
    (Scope<'a>, RawRow, RawRow, usize),
    MigrationError,
>)
    ensures
        match resolution(db@, r@, p@, anchor@) {
            Err(e) => out == Err::<(Scope, RawRow, RawRow, usize), MigrationError>(e),
            Ok((root, row, u)) => out matches Ok((scope, start, found, used)) && scope@ == (
            ScopeModel { retained: r@, input: root.input, revision: root.revision }) && start@
                == root.row && found@ == row && used == u && root.record == anchor.root,
        },
{
    if anchor.hops.len() > MAX_HOPS {
        return Err(MigrationError::HopLimit);
    }
    let (s, start_used, record, start): (Scope, usize, i64, RawRow) = match find_root(
        db,
        r,
        p,
        &anchor.variant,
    ) {
        Err(e) => return Err(e),
        Ok(found) => found,
    };
    let ghost root = root_of(db@, r@, p@, anchor.variant@)->Ok_0;
    if !same(anchor.input.as_str(), s.input.as_str()) || anchor.root != record {
        return Err(MigrationError::AnchorForeign);
    }
    let mut row: RawRow = start.copied();
    let mut used: usize = start_used;
    let mut n: usize = 0;
    while n < anchor.hops.len()
        invariant
            n <= anchor.hops@.len(),
            anchor.hops@.len() <= MAX_HOPS,
            root_of(db@, r@, p@, anchor.variant@) == Ok::<Root, MigrationError>(root),
            anchor.input@ == root.input,
            anchor.root == root.record,
            record == root.record,
            start@ == root.row,
            s@ == (ScopeModel { retained: r@, input: root.input, revision: root.revision }),
            path(s@, root, anchor.hops@, n as nat) == Ok::<(RawRowModel, nat), MigrationError>(
                (row@, used as nat),
            ),
        decreases anchor.hops@.len() - n,
    {
        match take_hop(&s, record, &start, &row, used, anchor.hops[n], Ghost(root)) {
            Err(e) => {
                proof {
                    lemma_path_error(s@, root, anchor.hops@, (n + 1) as nat);
                }
                return Err(e);
            },
            Ok((next, after)) => {
                row = next;
                used = after;
            },
        }
        n += 1;
    }
    Ok((s, start, row, used))
}

/// The hops as a document.
pub open spec fn hops_document(hops: Seq<Hop>, n: nat) -> Seq<char>
    decreases n,
{
    if n == 0 {
        ""@
    } else {
        hops_document(hops, (n - 1) as nat) + if n > 1 {
            ","@
        } else {
            ""@
        } + "{\"reference\":"@ + edit::signed_text(hops[n - 1].reference)
            + match hops[n - 1].direction {
            Direction::Incoming => ",\"direction\":\"Incoming\"}"@,
            Direction::Outgoing => ",\"direction\":\"Outgoing\"}"@,
        }
    }
}

/// An anchor as a document.
pub open spec fn anchor_document(a: AnchorModel) -> Option<Seq<char>> {
    match (
        outside::json_text(a.variant.asset_id),
        outside::json_text(a.variant.variant_id),
        outside::json_text(a.input),
    ) {
        (Some(asset), Some(variant), Some(input)) => Some(
            "{\"variant\":{\"asset_id\":"@ + asset + ",\"variant_id\":"@ + variant
                + "},\"input\":"@ + input + ",\"root\":"@ + edit::signed_text(a.root)
                + ",\"hops\":["@ + hops_document(a.hops, a.hops.len()) + "]}"@,
        ),
        _ => None,
    }
}

/// The token that binds a cursor to its anchor.
pub open spec fn anchor_token(a: AnchorModel) -> Result<Seq<char>, MigrationError> {
    match anchor_document(a) {
        None => Err(MigrationError::DocumentBounds),
        Some(document) => if encode_utf8(document).len() > OUTPUT_BYTES {
            Err(MigrationError::DocumentBounds)
        } else {
            Ok(outside::blake3_hex(encode_utf8(document)))
        },
    }
}

fn make_hops_document(hops: &Vec<Hop>) -> (d: String)
    ensures
        d@ == hops_document(hops@, hops@.len()),
{
    let mut d: String = "".to_owned();
    let mut n: usize = 0;
    while n < hops.len()
        invariant
            n <= hops@.len(),
            d@ == hops_document(hops@, n as nat),
        decreases hops@.len() - n,
    {
        let ghost before = d@;
        d.append(
            if n > 0 {
                ","
            } else {
                ""
            },
        );
        d.append("{\"reference\":");
        append_signed(&mut d, hops[n].reference);
        match hops[n].direction {
            Direction::Incoming => d.append(",\"direction\":\"Incoming\"}"),
            Direction::Outgoing => d.append(",\"direction\":\"Outgoing\"}"),
        }
        n += 1;
        assert(d@ =~= hops_document(hops@, n as nat));
    }
    d
}

fn make_token(a: &Anchor) -> (r: Result<String, MigrationError>)
    ensures
        match anchor_token(a@) {
            Err(e) => r == Err::<String, MigrationError>(e),
            Ok(token) => r matches Ok(s) && s@ == token,
        },
{
    match (
        json_string(a.variant.asset_id.as_str()),
        json_string(a.variant.variant_id.as_str()),
        json_string(a.input.as_str()),
    ) {
        (Some(asset), Some(variant), Some(input)) => {
            let mut d: String = "{\"variant\":{\"asset_id\":".to_owned();
            d.append(asset.as_str());
            d.append(",\"variant_id\":");
            d.append(variant.as_str());
            d.append("},\"input\":");
            d.append(input.as_str());
            d.append(",\"root\":");
            append_signed(&mut d, a.root);
            d.append(",\"hops\":[");
            d.append(make_hops_document(&a.hops).as_str());
            d.append("]}");
            assert(d@ =~= anchor_document(a@)->0);
            let bytes = d.as_str().as_bytes();
            if bytes.len() > OUTPUT_BYTES {
                Err(MigrationError::DocumentBounds)
            } else {
                Ok(blake3_digest(bytes))
            }
        },
        _ => Err(MigrationError::DocumentBounds),
    }
}

/// A relation as it is shown: with an anchor to go on from where it stays within
/// the image's history and the path has room for another hop.
#[verifier::opaque]
pub open spec fn relation_shown(
    s: ScopeModel,
    root: Root,
    anchor: AnchorModel,
    row: RawRowModel,
    direction: Direction,
    used: nat,
    reference: i64,
) -> Result<(RelationModel, nat), MigrationError> {
    match s.endpoints(used, reference) {
        Err(e) => Err(e),
        Ok((relation, used1)) => match following(row, relation, direction) {
            None => Ok((relation, used1)),
            Some(next) => if !step_allowed(row, next, relation, direction, root.record) {
                Ok(
                    (
                        RelationModel {
                            compatibility: Compatibility::OutsideImageHistory,
                            ..relation
                        },
                        used1,
                    ),
                )
            } else {
                match s.settings_owner(used1, next, root.row) {
                    Err(e) => Err(e),
                    Ok((false, used2)) => Ok(
                        (
                            RelationModel {
                                compatibility: Compatibility::OutsideImageHistory,
                                ..relation
                            },
                            used2,
                        ),
                    ),
                    Ok((true, used2)) => if anchor.hops.len() == MAX_HOPS {
                        Ok(
                            (
                                RelationModel {
                                    compatibility: Compatibility::TraversalLimit,
                                    ..relation
                                },
                                used2,
                            ),
                        )
                    } else {
                        let to = arrived(row, next, relation, direction, root.record);
                        let child = AnchorModel {
                            hops: anchor.hops.push(Hop { reference, direction }),
                            ..anchor
                        };
                        Ok(
                            (
                                RelationModel {
                                    anchor: Some(child),
                                    source: match direction {
                                        Direction::Incoming => Some(to),
                                        Direction::Outgoing => relation.source,
                                    },
                                    target: match direction {
                                        Direction::Incoming => relation.target,
                                        Direction::Outgoing => Some(to),
                                    },
                                    ..relation
                                },
                                used2,
                            ),
                        )
                    },
                }
            },
        },
    }
}

/// The first `n` relations of a page.
pub open spec fn relations_shown(
    s: ScopeModel,
    root: Root,
    anchor: AnchorModel,
    row: RawRowModel,
    direction: Direction,
    used: nat,
    hits: Seq<int>,
    n: nat,
) -> Result<(Seq<RelationModel>, nat), MigrationError>
    decreases n,
{
    if n == 0 {
        Ok((Seq::empty(), used))
    } else {
        match relations_shown(s, root, anchor, row, direction, used, hits, (n - 1) as nat) {
            Err(e) => Err(e),
            Ok((before, used1)) => match relation_shown(
                s,
                root,
                anchor,
                row,
                direction,
                used1,
                s.retained.records[hits[n - 1]].sequence,
            ) {
                Err(e) => Err(e),
                Ok((relation, used2)) => Ok((before.push(relation), used2)),
            },
        }
    }
}

proof fn lemma_relations_error(
    s: ScopeModel,
    root: Root,
    anchor: AnchorModel,
    row: RawRowModel,
    direction: Direction,
    used: nat,
    hits: Seq<int>,
    n: nat,
)
    requires
        n <= hits.len(),
        relations_shown(s, root, anchor, row, direction, used, hits, n) is Err,
    ensures
        relations_shown(s, root, anchor, row, direction, used, hits, hits.len())
            == relations_shown(s, root, anchor, row, direction, used, hits, n),
    decreases hits.len() - n,
{
    if n < hits.len() {
        lemma_relations_error(s, root, anchor, row, direction, used, hits, n + 1);
    }
}

/// The query for a row's relations.
pub open spec fn relation_query(s: ScopeModel, used: nat, row: RawRowModel, direction: Direction) -> Result<
    (Query, nat),
    MigrationError,
> {
    match direction {
        Direction::Incoming => match s.local_key(used, row) {
            Err(e) => Err(e),
            Ok((target_key, used1)) => Ok(
                (
                    Query::ReferencesByTargetKey { target_table: row.source.table, target_key },
                    used1,
                ),
            ),
        },
        Direction::Outgoing => Ok(
            (
                Query::References {
                    source_id: row.source_id,
                    field: None,
                    target_table: None,
                },
                used,
            ),
        ),
    }
}

/// A page of the relations of the row that an anchor comes to.
pub open spec fn evidence_page(
    m: TablesModel,
    r: RetainedModel,
    p: images::ProjectionsModel,
    anchor: AnchorModel,
    direction: Direction,
    cursor: Option<CursorModel>,
    limit: nat,
) -> Result<PageModel, MigrationError> {
    if limit == 0 || limit > PAGE_RELATIONS {
        Err(MigrationError::PageLimit)
    } else {
        match resolution(m, r, p, anchor) {
            Err(e) => Err(e),
            Ok((root, row, used)) => match anchor_token(anchor) {
                Err(e) => Err(e),
                Ok(token) => if cursor matches Some(c) && (c.anchor_blake3 != token || c.direction
                    != direction) {
                    Err(MigrationError::CursorForeign)
                } else {
                    let s = ScopeModel { retained: r, input: root.input, revision: root.revision };
                    let after = match cursor {
                        Some(c) => Some(c.lookup),
                        None => None,
                    };
                    match relation_query(s, used, row, direction) {
                        Err(e) => Err(e),
                        Ok((q, used1)) => {
                            let hits = r.page_hits(root.input, root.revision, q, after, limit);
                            match relations_shown(
                                s,
                                root,
                                anchor,
                                row,
                                direction,
                                used1,
                                hits,
                                hits.len(),
                            ) {
                                Err(e) => Err(e),
                                Ok((relations, _)) => Ok(
                                    PageModel {
                                        variant: anchor.variant,
                                        input: root.input,
                                        anchor,
                                        row,
                                        relations,
                                        next: match r.page_next(
                                            root.input,
                                            root.revision,
                                            q,
                                            after,
                                            limit,
                                        ) {
                                            Some(lookup) => Some(
                                                CursorModel {
                                                    anchor_blake3: token,
                                                    direction,
                                                    lookup,
                                                },
                                            ),
                                            None => None,
                                        },
                                        coverage_complete: r.coverage_complete(
                                            root.input,
                                            root.revision,
                                        ),
                                        keys_complete: r.keys_complete(root.input, root.revision),
                                        adobe_rendering_equivalent: false,
                                    },
                                ),
                            }
                        },
                    }
                },
            },
        }
    }
}

fn show_relation(
    s: &Scope,
    start: &RawRow,
    anchor: &Anchor,
    row: &RawRow,
    direction: Direction,
    used: usize,
    reference: i64,
    Ghost(root): Ghost<Root>,
) -> (out: Result<(Relation, usize), MigrationError>)
    requires
        root.record == anchor.root,
        root.row == start@,
        anchor.hops@.len() <= MAX_HOPS,
    ensures
        match relation_shown(s@, root, anchor@, row@, direction, used as nat, reference) {
            Err(e) => out == Err::<(Relation, usize), MigrationError>(e),
            Ok((relation, u)) => out matches Ok((found, v)) && found@ == relation && v == u,
        },
{
    proof {
        reveal(relation_shown);
    }
    let (found, used1): (Relation, usize) = match s.read_endpoints(used, reference) {
        Err(e) => return Err(e),
        Ok(found) => found,
    };
    let mut relation: Relation = found;
    let next: RawRow = match next_row(row, &relation, direction) {
        None => return Ok((relation, used1)),
        Some(next) => next,
    };
    if !allowed_step(row, &next, &relation, direction, anchor.root) {
        relation.compatibility = Compatibility::OutsideImageHistory;
        return Ok((relation, used1));
    }
    let used2: usize = match s.check_settings_owner(used1, &next, start) {
        Err(e) => return Err(e),
        Ok((false, used2)) => {
            relation.compatibility = Compatibility::OutsideImageHistory;
            return Ok((relation, used2));
        },
        Ok((true, used2)) => used2,
    };
    if anchor.hops.len() == MAX_HOPS {
        relation.compatibility = Compatibility::TraversalLimit;
        return Ok((relation, used2));
    }
    let to: RawRow = arrive(row, next, &relation, direction, anchor.root);
    let mut child: Anchor = anchor.copied();
    child.hops.push(Hop { reference, direction });
    assert(child@.hops =~= anchor@.hops.push(Hop { reference, direction }));
    relation.anchor = Some(child);
    match direction {
        Direction::Incoming => relation.source = Some(to),
        Direction::Outgoing => relation.target = Some(to),
    }
    Ok((relation, used2))
}

fn find_query(s: &Scope, used: usize, row: &RawRow, direction: Direction) -> (r: Result<
    (Lookup, usize),
    MigrationError,
>)
    ensures
        match relation_query(s@, used as nat, row@, direction) {
            Err(e) => r == Err::<(Lookup, usize), MigrationError>(e),
            Ok((q, u)) => r matches Ok((found, v)) && found@ == q && v == u,
        },
{
    match direction {
        Direction::Incoming => match s.read_local_key(used, row) {
            Err(e) => Err(e),
            Ok((target_key, used1)) => Ok(
                (
                    Lookup::ReferencesByTargetKey {
                        target_table: row.source.table.clone(),
                        target_key,
                    },
                    used1,
                ),
            ),
        },
        Direction::Outgoing => Ok(
            (
                Lookup::References {
                    source_id: row.source_id.clone(),
                    field: None,
                    target_table: None,
                },
                used,
            ),
        ),
    }
}

impl Catalog {
    /// The source rows that refer to an imported image.
    pub fn migration_variant_evidence(
        &self,
        key: &VariantKey,
        cursor: Option<&Cursor>,
        limit: usize,
    ) -> (out: Result<EvidencePage, MigrationError>)
        ensures
            ({
                let m = self.tables@;
                let r = self.migration.retained@;
                let p = self.migration.images@;
                match root_of(m, r, p, key@) {
                    Err(e) => out == Err::<EvidencePage, MigrationError>(e),
                    Ok(root) => {
                        let anchor = AnchorModel {
                            variant: key@,
                            input: root.input,
                            root: root.record,
                            hops: Seq::empty(),
                        };
                        match evidence_page(
                            m,
                            r,
                            p,
                            anchor,
                            Direction::Incoming,
                            borrowed(cursor),
                            limit as nat,
                        ) {
                            Err(e) => out == Err::<EvidencePage, MigrationError>(e),
                            Ok(page) => out matches Ok(found) && found@ == page
                                && history_laws::keeps_to_history(
                                m,
                                r,
                                p,
                                anchor,
                                Direction::Incoming,
                                limit as nat,
                                page,
                            ) && (history_laws::numbered_apart(r)
                                ==> history_laws::names_own_image(r, root, page)),
                        }
                    },
                }
            }),
    {
        let (s, _, record, _): (Scope, usize, i64, RawRow) = match find_root(
            &self.tables,
            &self.migration.retained,
            &self.migration.images,
            key,
        ) {
            Err(e) => return Err(e),
            Ok(found) => found,
        };
        let anchor: Anchor = Anchor {
            variant: key.copy(),
            input: s.input.clone(),
            root: record,
            hops: Vec::new(),
        };
        assert(anchor@.hops =~= Seq::empty());
        proof {
            let m = self.tables@;
            let r = self.migration.retained@;
            let p = self.migration.images@;
            let root = root_of(m, r, p, key@)->Ok_0;
            assert(anchor@ == history_laws::start_anchor(key@, root));
            if history_laws::numbered_apart(r) {
                if let Ok(page) = evidence_page(
                    m,
                    r,
                    p,
                    anchor@,
                    Direction::Incoming,
                    borrowed(cursor),
                    limit as nat,
                ) {
                    history_laws::law_variant_pages_name_their_image(
                        m,
                        r,
                        p,
                        key@,
                        root,
                        borrowed(cursor),
                        limit as nat,
                        page,
                    );
                }
            }
        }
        self.migration_source_evidence(&anchor, Direction::Incoming, cursor, limit)
    }

    /// A page of the relations of the row that an anchor comes to. What is missing,
    /// ambiguous, unavailable or outside the image's history is shown without an
    /// anchor to go on from.
    pub fn migration_source_evidence(
        &self,
        anchor: &Anchor,
        direction: Direction,
        cursor: Option<&Cursor>,
        limit: usize,
    ) -> (out: Result<EvidencePage, MigrationError>)
        ensures
            match evidence_page(
                self.tables@,
                self.migration.retained@,
                self.migration.images@,
                anchor@,
                direction,
                borrowed(cursor),
                limit as nat,
            ) {
                Err(e) => out == Err::<EvidencePage, MigrationError>(e),
                Ok(page) => out matches Ok(found) && found@ == page,
            },
            out matches Ok(page) ==> history_laws::keeps_to_history(
                self.tables@,
                self.migration.retained@,
                self.migration.images@,
                anchor@,
                direction,
                limit as nat,
                page@,
            ),
    {
        proof {
            history_laws::law_every_page_keeps_to_its_history(
                self.tables@,
                self.migration.retained@,
                self.migration.images@,
                anchor@,
                direction,
                borrowed(cursor),
                limit as nat,
            );
        }
        if limit == 0 || limit > PAGE_RELATIONS {
            return Err(MigrationError::PageLimit);
        }
        let r = &self.migration.retained;
        let (s, start, row, used): (Scope, RawRow, RawRow, usize) = match resolve(
            &self.tables,
            r,
            &self.migration.images,
            anchor,
        ) {
            Err(e) => return Err(e),
            Ok(found) => found,
        };
        let ghost root = resolution(self.tables@, r@, self.migration.images@, anchor@)->Ok_0.0;
        let token: String = match make_token(anchor) {
            Err(e) => return Err(e),
            Ok(token) => token,
        };
        let mut after: Option<i64> = None;
        if let Some(c) = cursor {
            if !same(c.anchor_blake3.as_str(), token.as_str()) || c.direction != direction {
                return Err(MigrationError::CursorForeign);
            }
            after = Some(c.lookup);
        }
        let (q, used1): (Lookup, usize) = match find_query(&s, used, &row, direction) {
            Err(e) => return Err(e),
            Ok(found) => found,
        };
        let page: Page = r.lookup(s.input.as_str(), s.revision.as_str(), &q, after, limit);
        let ghost hits = r@.page_hits(s.input@, s.revision@, q@, after, limit as nat);
        let mut relations: Vec<Relation> = Vec::new();
        let mut spent: usize = used1;
        let mut n: usize = 0;
        assert(support::models(relations@) =~= Seq::<RelationModel>::empty());
        assert(support::ints(page.hits@).len() == page.hits@.len());
        while n < page.hits.len()
            invariant
                n <= page.hits@.len(),
                hits.len() == page.hits@.len(),
                support::ints(page.hits@) == hits,
                forall|k: int|
                    0 <= k < page.hits@.len() ==> (#[trigger] page.hits@[k]) < r.records@.len(),
                s@ == (ScopeModel { retained: r@, input: root.input, revision: root.revision }),
                root.record == anchor.root,
                root.row == start@,
                anchor.hops@.len() <= MAX_HOPS,
                relations_shown(
                    s@,
                    root,
                    anchor@,
                    row@,
                    direction,
                    used1 as nat,
                    hits,
                    n as nat,
                ) == Ok::<(Seq<RelationModel>, nat), MigrationError>(
                    (support::models(relations@), spent as nat),
                ),
                0 < limit <= PAGE_RELATIONS,
                resolution(self.tables@, r@, self.migration.images@, anchor@) == Ok::<
                    (Root, RawRowModel, nat),
                    MigrationError,
                >((root, row@, used as nat)),
                anchor_token(anchor@) == Ok::<Seq<char>, MigrationError>(token@),
                !(borrowed(cursor) matches Some(c) && (c.anchor_blake3 != token@ || c.direction
                    != direction)),
                after == match borrowed(cursor) {
                    Some(c) => Some(c.lookup),
                    None => None,
                },
                relation_query(s@, used as nat, row@, direction) == Ok::<
                    (Query, nat),
                    MigrationError,
                >((q@, used1 as nat)),
                hits == r@.page_hits(root.input, root.revision, q@, after, limit as nat),
                r@ == self.migration.retained@,
            decreases page.hits@.len() - n,
        {
            let h: usize = page.hits[n];
            proof {
                assert(hits[n as int] == h as int);
                assert(r@.records[h as int] == r.records@[h as int]@);
            }
            let ghost before = support::models(relations@);
            match show_relation(
                &s,
                &start,
                anchor,
                &row,
                direction,
                spent,
                r.records[h].sequence,
                Ghost(root),
            ) {
                Err(e) => {
                    proof {
                        lemma_relations_error(
                            s@,
                            root,
                            anchor@,
                            row@,
                            direction,
                            used1 as nat,
                            hits,
                            (n + 1) as nat,
                        );
                    }
                    return Err(e);
                },
                Ok((relation, next)) => {
                    relations.push(relation);
                    spent = next;
                    assert(support::models(relations@) =~= before.push(relation@));
                },
            }
            n += 1;
        }
        let next: Option<Cursor> = match page.next {
            Some(lookup) => Some(Cursor { anchor_blake3: token, direction, lookup }),
            None => None,
        };
        Ok(
            EvidencePage {
                variant: anchor.variant.copy(),
                input: s.input.clone(),
                anchor: anchor.copied(),
                row,
                relations,
                next,
                coverage_complete: page.coverage_complete,
                keys_complete: page.keys_complete,
                adobe_rendering_equivalent: false,
            },
        )
    }
}

/// What an optional cursor stands for.
pub open spec fn borrowed(cursor: Option<&Cursor>) -> Option<CursorModel> {
    match cursor {
        Some(c) => Some(c@),
        None => None,
    }
}

/// How settings belong to an image.
#[derive(Clone, Copy, Debug, PartialEq, Eq, Structural)]
pub enum SettingsAssociation {
    Historical,
    Unresolved,
}

/// A text to be interpreted, with where it comes from.
#[derive(Clone, Debug)]
pub struct AdobeInput {
    pub source_id: String,
    pub revision: String,
    pub locator: String,
    pub payload_blake3: String,
    pub payload_bytes: u64,
    pub association: SettingsAssociation,
    pub settings_path: Vec<String>,
    pub payload: Vec<u8>,
}

/// What an `AdobeInput` stands for.
#[verifier::ext_equal]
pub struct AdobeInputModel {
    pub source_id: Seq<char>,
    pub revision: Seq<char>,
    pub locator: Seq<char>,
    pub payload_blake3: Seq<char>,
    pub payload_bytes: u64,
    pub association: SettingsAssociation,
    pub settings_path: Seq<Seq<char>>,
    pub payload: Seq<u8>,
}

impl View for AdobeInput {
    type V = AdobeInputModel;

    open spec fn view(&self) -> AdobeInputModel {
        AdobeInputModel {
            source_id: self.source_id@,
            revision: self.revision@,
            locator: self.locator@,
            payload_blake3: self.payload_blake3@,
            payload_bytes: self.payload_bytes,
            association: self.association,
            settings_path: support::models(self.settings_path@),
            payload: self.payload@,
        }
    }
}

/// A retained text of a row, where it can be interpreted, or why it cannot. The
/// settings that it holds are never applied.
#[derive(Clone, Debug)]
pub struct AdobeEvidence {
    pub row: RawRow,
    pub column: String,
    pub compatibility: Compatibility,
    pub reason: String,
    pub extraction: Option<AdobeInput>,
}

/// What an optional input stands for.
pub open spec fn input_of(input: Option<AdobeInput>) -> Option<AdobeInputModel> {
    match input {
        Some(i) => Some(i@),
        None => None,
    }
}

/// Rows that hold develop settings.
pub open spec fn holds_settings(c: Classification) -> bool {
    c == Classification::CurrentSettings || c == Classification::Settings || c
        == Classification::BeforeSettings || c == Classification::History || c
        == Classification::Snapshot
}

/// The position of the only column of a name.
pub open spec fn only_column(names: Seq<Seq<char>>, name: Seq<char>) -> Option<int> {
    let found = support::positions(names, proofs::is_name(name), names.len());
    if found.len() == 1 {
        Some(found[0])
    } else {
        None
    }
}

/// The text to be interpreted that a row's column holds, or why there is none.
pub open spec fn text_to_interpret(
    s: ScopeModel,
    used: nat,
    row: RawRowModel,
    column: Seq<char>,
    settings_path: Seq<Seq<char>>,
) -> Result<Result<AdobeInputModel, Seq<char>>, MigrationError> {
    match s.record(used, row.record) {
        Err(e) => Err(e),
        Ok((i, used1)) => match s.record(used1, row.table_record) {
            Err(e) => Err(e),
            Ok((t, _)) => {
                let rec = s.retained.records[i];
                let schema = s.retained.records[t];
                match schema.field("columns_json"@) {
                    None => Err(MigrationError::FieldMissing),
                    Some(roster) => if row.cells_json_bytes > MAX_BYTES || roster.size() > KEY_BYTES {
                        Ok(
                            Err(
                                "interpretation row/column byte limit; use complete retained cells_json chunks"@,
                            ),
                        )
                    } else {
                        match (
                            schema.field_bytes("columns_json"@, KEY_BYTES as nat),
                            rec.field_bytes("cells_json"@, MAX_BYTES as nat),
                        ) {
                            (Err(e), _) => Err(e),
                            (_, Err(e)) => Err(e),
                            _ => match (schema.columns, rec.cells) {
                                (Some(names), Some(cells)) => if names.len() != cells.len()
                                    || names.len() > proofs::COLUMN_LIMIT {
                                    Err(MigrationError::ColumnsDiffer)
                                } else {
                                    match only_column(names, column) {
                                        None => Err(MigrationError::ColumnAmbiguous),
                                        Some(c) => match cells[c] {
                                            retained::CellModel::Text(payload) => if payload.len()
                                                > TEXT_BYTES {
                                                Ok(
                                                    Err(
                                                        "Adobe 4 MiB input limit; complete typed text remains retained"@,
                                                    ),
                                                )
                                            } else {
                                                Ok(
                                                    Ok(
                                                        interpretation(
                                                            row,
                                                            column,
                                                            settings_path,
                                                            payload,
                                                        ),
                                                    ),
                                                )
                                            },
                                            _ => Ok(
                                                Err("selected retained field is not typed text"@),
                                            ),
                                        },
                                    }
                                },
                                _ => Err(MigrationError::ColumnsDiffer),
                            },
                        }
                    },
                }
            },
        },
    }
}

/// What is handed to an interpreter of a text.
pub open spec fn interpretation(
    row: RawRowModel,
    column: Seq<char>,
    settings_path: Seq<Seq<char>>,
    payload: Seq<u8>,
) -> AdobeInputModel {
    AdobeInputModel {
        source_id: row.source_id,
        revision: row.source.capture_revision,
        locator: "retained:"@ + edit::signed_text(row.record) + ":cells_json:column:"@ + column,
        payload_blake3: outside::blake3_hex(payload),
        payload_bytes: payload.len() as u64,
        association: if row.classification == Classification::BeforeSettings || row.classification
            == Classification::History || row.classification == Classification::Snapshot {
            SettingsAssociation::Historical
        } else {
            SettingsAssociation::Unresolved
        },
        settings_path,
        payload,
    }
}

/// What interpreting a column of the row that an anchor comes to starts from.
pub open spec fn adobe_outcome(
    m: TablesModel,
    r: RetainedModel,
    p: images::ProjectionsModel,
    anchor: AnchorModel,
    column: Seq<char>,
    settings_path: Seq<Seq<char>>,
) -> Result<(RawRowModel, Seq<char>, Option<AdobeInputModel>), MigrationError> {
    if support::byte_length(column) == 0 || support::byte_length(column) > COLUMN_BYTES
        || settings_path.len() > PATH_KEYS {
        Err(MigrationError::LocatorBounds)
    } else {
        match resolution(m, r, p, anchor) {
            Err(e) => Err(e),
            Ok((root, row, used)) => if !holds_settings(row.classification) {
                Ok((row, "retained typed row; no supported text interpretation"@, None))
            } else {
                let s = ScopeModel { retained: r, input: root.input, revision: root.revision };
                match text_to_interpret(s, used, row, column, settings_path) {
                    Err(e) => Err(e),
                    Ok(Err(reason)) => Ok((row, reason, None)),
                    Ok(Ok(input)) => Ok(
                        (
                            row,
                            "offline Adobe syntax/compatibility extraction only; historical/unresolved recipes never applied"@,
                            Some(input),
                        ),
                    ),
                }
            },
        }
    }
}

/// The most bytes of a column's name.
pub const COLUMN_BYTES: usize = 1024;

/// The most keys of a path into settings.
pub const PATH_KEYS: usize = 16;

impl Copied for String {
    fn copied(&self) -> (c: Self) {
        self.clone()
    }
}

fn make_interpretation(row: &RawRow, column: &str, settings_path: Vec<String>, payload: &Vec<u8>) -> (input:
    AdobeInput)
    requires
        payload@.len() <= TEXT_BYTES,
    ensures
        input@ == interpretation(row@, column@, support::models(settings_path@), payload@),
{
    let mut locator: String = "retained:".to_owned();
    append_signed(&mut locator, row.record);
    locator.append(":cells_json:column:");
    locator.append(column);
    assert(locator@ =~= "retained:"@ + edit::signed_text(row.record) + ":cells_json:column:"@
        + column@);
    let historical: bool = row.classification == Classification::BeforeSettings
        || row.classification == Classification::History || row.classification
        == Classification::Snapshot;
    AdobeInput {
        source_id: row.source_id.clone(),
        revision: row.source.capture_revision.clone(),
        locator,
        payload_blake3: blake3_digest(payload.as_slice()),
        payload_bytes: payload.len() as u64,
        association: if historical {
            SettingsAssociation::Historical
        } else {
            SettingsAssociation::Unresolved
        },
        settings_path,
        payload: copy_bytes(payload.as_slice()),
    }
}

fn find_text(s: &Scope, used: usize, row: &RawRow, column: &str, settings_path: Vec<String>) -> (out:
    Result<Result<AdobeInput, String>, MigrationError>)
    ensures
        match text_to_interpret(
            s@,
            used as nat,
            row@,
            column@,
            support::models(settings_path@),
        ) {
            Err(e) => out == Err::<Result<AdobeInput, String>, MigrationError>(e),
            Ok(Err(reason)) => out matches Ok(Err(text)) && text@ == reason,
            Ok(Ok(input)) => out matches Ok(Ok(found)) && found@ == input,
        },
{
    let (i, used1): (usize, usize) = match s.read_record(used, row.record) {
        Err(e) => return Err(e),
        Ok(found) => found,
    };
    let (t, _): (usize, usize) = match s.read_record(used1, row.table_record) {
        Err(e) => return Err(e),
        Ok(found) => found,
    };
    let rec = &s.retained.records[i];
    let schema = &s.retained.records[t];
    let roster: u64 = match schema.get("columns_json") {
        None => return Err(MigrationError::FieldMissing),
        Some(f) => field_size(f),
    };
    if row.cells_json_bytes > MAX_BYTES as u64 || roster > KEY_BYTES as u64 {
        return Ok(
            Err(
                "interpretation row/column byte limit; use complete retained cells_json chunks".to_owned(),
            ),
        );
    }
    match schema.read_bytes("columns_json", KEY_BYTES) {
        Err(e) => return Err(e),
        Ok(_) => {},
    }
    match rec.read_bytes("cells_json", MAX_BYTES) {
        Err(e) => return Err(e),
        Ok(_) => {},
    }
    match (&schema.columns, &rec.cells) {
        (Some(names), Some(cells)) => {
            assert(support::models(names@).len() == names@.len());
            assert(support::models(cells@).len() == cells@.len());
            if names.len() != cells.len() || names.len() > proofs::COLUMN_LIMIT {
                return Err(MigrationError::ColumnsDiffer);
            }
            let test = |n: &String| -> (b: bool)
                ensures b == proofs::is_name(column@)(n@)
            {
                same(n.as_str(), column)
            };
            let found: Vec<usize> = find_all(names, test, Ghost(proofs::is_name(column@)));
            assert(support::ints(found@).len() == found@.len());
            if found.len() != 1 {
                return Err(MigrationError::ColumnAmbiguous);
            }
            let c: usize = found[0];
            proof {
                assert(support::ints(found@)[0] == c as int);
                assert(support::models(cells@)[c as int] == cells@[c as int]@);
            }
            match &cells[c] {
                Cell::Text(payload) => {
                    if payload.len() > TEXT_BYTES {
                        Ok(
                            Err(
                                "Adobe 4 MiB input limit; complete typed text remains retained".to_owned(),
                            ),
                        )
                    } else {
                        Ok(Ok(make_interpretation(row, column, settings_path, payload)))
                    }
                },
                _ => Ok(Err("selected retained field is not typed text".to_owned())),
            }
        },
        _ => Err(MigrationError::ColumnsDiffer),
    }
}

impl Catalog {
    /// What interpreting a column of the row that an anchor comes to starts from: a
    /// text and where it comes from, or why there is none. Settings of the past are
    /// marked as such.
    pub fn migration_adobe_evidence(
        &self,
        anchor: &Anchor,
        column: &str,
        settings_path: Vec<String>,
    ) -> (out: Result<AdobeEvidence, MigrationError>)
        ensures
            match adobe_outcome(
                self.tables@,
                self.migration.retained@,
                self.migration.images@,
                anchor@,
                column@,
                support::models(settings_path@),
            ) {
                Err(e) => out == Err::<AdobeEvidence, MigrationError>(e),
                Ok((row, reason, input)) => out matches Ok(found) && found.row@ == row
                    && found.column@ == column@ && found.compatibility
                    == Compatibility::RetainedOnly && found.reason@ == reason && input_of(
                    found.extraction,
                ) == input,
            },
    {
        assert(support::models(settings_path@).len() == settings_path@.len());
        if byte_len(column) == 0 || byte_len(column) > COLUMN_BYTES || settings_path.len()
            > PATH_KEYS {
            return Err(MigrationError::LocatorBounds);
        }
        let (s, _, row, used): (Scope, RawRow, RawRow, usize) = match resolve(
            &self.tables,
            &self.migration.retained,
            &self.migration.images,
            anchor,
        ) {
            Err(e) => return Err(e),
            Ok(found) => found,
        };
        let settings: bool = row.classification == Classification::CurrentSettings
            || row.classification == Classification::Settings || row.classification
            == Classification::BeforeSettings || row.classification == Classification::History
            || row.classification == Classification::Snapshot;
        if !settings {
            return Ok(
                AdobeEvidence {
                    row,
                    column: column.to_owned(),
                    compatibility: Compatibility::RetainedOnly,
                    reason: "retained typed row; no supported text interpretation".to_owned(),
                    extraction: None,
                },
            );
        }
        match find_text(&s, used, &row, column, settings_path) {
            Err(e) => Err(e),
            Ok(Err(reason)) => Ok(
                AdobeEvidence {
                    row,
                    column: column.to_owned(),
                    compatibility: Compatibility::RetainedOnly,
                    reason,
                    extraction: None,
                },
            ),
            Ok(Ok(input)) => Ok(
                AdobeEvidence {
                    row,
                    column: column.to_owned(),
                    compatibility: Compatibility::RetainedOnly,
                    reason: "offline Adobe syntax/compatibility extraction only; historical/unresolved recipes never applied".to_owned(),
                    extraction: Some(input),
                },
            ),
        }
    }
}

/// A relation that is shown leads on only where it can be relied upon, stays within
/// the image's history and leaves the path within its bound; then its anchor is the
/// path with this one hop more.
pub proof fn law_only_reliable_relations_lead_on(
    s: ScopeModel,
    root: Root,
    anchor: AnchorModel,
    row: RawRowModel,
    direction: Direction,
    used: nat,
    reference: i64,
)
    requires
        anchor.hops.len() <= MAX_HOPS,
    ensures
        relation_shown(s, root, anchor, row, direction, used, reference) matches Ok((relation, _))
            ==> match relation.anchor {
            None => true,
            Some(child) => {
                &&& relation.compatibility == Compatibility::RetainedOnly
                &&& child == (AnchorModel {
                    hops: anchor.hops.push(Hop { reference, direction }),
                    ..anchor
                })
                &&& child.hops.len() <= MAX_HOPS
                &&& s.endpoints(used, reference) matches Ok((found, _)) && (following(
                    row,
                    found,
                    direction,
                ) matches Some(next) && step_allowed(row, next, found, direction, root.record))
            },
        },
{
    reveal(relation_shown);
    reveal(ScopeModel::endpoints);
}

/// A path of which any hop cannot be relied upon, or leaves the image's history, is
/// refused as a whole.
pub proof fn law_every_hop_is_proved(s: ScopeModel, root: Root, hops: Seq<Hop>, n: nat, k: nat)
    requires
        k < n <= hops.len(),
        path(s, root, hops, n) is Ok,
    ensures
        path(s, root, hops, k) matches Ok((row, used)) && (s.endpoints(
            used,
            hops[k as int].reference,
        ) matches Ok((relation, _)) && relation.compatibility == Compatibility::RetainedOnly && (
        following(row, relation, hops[k as int].direction) matches Some(next) && step_allowed(
            row,
            next,
            relation,
            hops[k as int].direction,
            root.record,
        ))),
    decreases n,
{
    reveal(hopped);
    if k + 1 < n {
        law_every_hop_is_proved(s, root, hops, (n - 1) as nat, k);
    }
}

proof fn lemma_row_bounded(s: ScopeModel, used: nat, entity: i64)
    requires
        used <= MAX_BYTES,
    ensures
        s.row(used, entity) matches Ok((_, after)) ==> used <= after <= MAX_BYTES,
{
}

proof fn lemma_group_bounded(
    s: ScopeModel,
    used: nat,
    hits: Seq<int>,
    source_id: Seq<char>,
    field: Seq<char>,
    table: Seq<char>,
    n: nat,
)
    requires
        used <= MAX_BYTES,
    ensures
        s.group_walk(used, hits, source_id, field, table, n) matches Ok((_, after)) ==> used
            <= after <= MAX_BYTES,
    decreases n,
{
    if n > 0 {
        lemma_group_bounded(s, used, hits, source_id, field, table, (n - 1) as nat);
    }
}

proof fn lemma_endpoints_bounded(s: ScopeModel, used: nat, reference: i64)
    requires
        used <= MAX_BYTES,
    ensures
        s.endpoints(used, reference) matches Ok((_, after)) ==> used <= after <= MAX_BYTES,
{
    reveal(ScopeModel::endpoints);
    if let Ok((i, used1)) = s.record(used, reference) {
        match (
            s.text(i, "source_id"@),
            s.text(i, "field"@),
            s.text(i, "target_table"@),
            s.text(i, "target_key"@),
        ) {
            (Ok(source_id), Ok(field), Ok(table), Ok(target_key)) => {
                let q = Query::References {
                    source_id,
                    field: Some(field),
                    target_table: Some(table),
                };
                let hits = s.retained.hits(s.input, s.revision, q, None);
                lemma_group_bounded(s, used1, hits, source_id, field, table, hits.len());
                let from = s.unique(Query::EntitiesBySource(source_id));
                let to = s.unique(
                    Query::EntitiesByLocalKey { table_name: table, local_key: target_key },
                );
                if let Ok((_, used2)) = s.group_target(used1, source_id, field, table) {
                    if let Ok(id) = from {
                        lemma_row_bounded(s, used2, id);
                    }
                    if let Ok((_, used3)) = s.optional_row(used2, from) {
                        if let Ok(id) = to {
                            lemma_row_bounded(s, used3, id);
                        }
                    }
                }
            },
            _ => {},
        }
    }
}

/// Following a path reads no more bytes of records than a navigation may.
pub proof fn law_navigation_is_bounded(s: ScopeModel, root: Root, hops: Seq<Hop>, n: nat)
    requires
        root.used <= MAX_BYTES,
        n <= hops.len(),
    ensures
        path(s, root, hops, n) matches Ok((_, used)) ==> used <= MAX_BYTES,
    decreases n,
{
    if n > 0 {
        law_navigation_is_bounded(s, root, hops, (n - 1) as nat);
        reveal(hopped);
        reveal(ScopeModel::settings_owner);
        if let Ok((row, used)) = path(s, root, hops, (n - 1) as nat) {
            let hop = hops[n - 1];
            lemma_endpoints_bounded(s, used, hop.reference);
            if let Ok((relation, used1)) = s.endpoints(used, hop.reference) {
                if let Some(next) = following(row, relation, hop.direction) {
                    let q = Query::References {
                        source_id: next.source_id,
                        field: Some("image"@),
                        target_table: Some("Adobe_images"@),
                    };
                    let hits = s.retained.hits(s.input, s.revision, q, None);
                    if hits.len() > 0 {
                        lemma_endpoints_bounded(
                            s,
                            used1,
                            s.retained.records[hits[0]].sequence,
                        );
                    }
                }
            }
        }
    }
}

} // verus!

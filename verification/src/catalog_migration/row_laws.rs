//! What the rows and references of a history are shown as, told by the retained records.
use crate::catalog_migration::file_history;
use crate::catalog_migration::file_history::Origin;
use crate::catalog_migration::history;
use crate::catalog_migration::history::{RawRowModel, RelationModel, ScopeModel};
use crate::catalog_migration::retained;
use crate::catalog_migration::retained::{Collection, Compatibility, MigrationError};
use crate::support;
use vstd::prelude::*;

verus! {

/// A record is a complete one of the history's source and capture, with a number and of a kind,
/// and the first of that number.
pub open spec fn is_record(s: ScopeModel, i: int, sequence: i64, collection: Collection) -> bool {
    &&& 0 <= i < s.retained.records.len()
    &&& s.retained.records[i].sequence == sequence
    &&& s.retained.records[i].complete
    &&& s.retained.records[i].input == s.input
    &&& s.retained.records[i].revision == s.revision
    &&& s.retained.records[i].collection == collection
}

proof fn lemma_record(s: ScopeModel, used: nat, sequence: i64)
    requires
        s.record(used, sequence) is Ok,
    ensures
        ({
            let i = s.record(used, sequence)->Ok_0.0;
            is_record(s, i, sequence, s.retained.records[i].collection)
        }),
        s.record(used, sequence)->Ok_0.1 >= used,
{
    support::lemma_first_where(s.retained.records, retained::record_at(sequence));
}

/// A row is shown as it is retained: of the source and the capture, with its own name, table and
/// key, and the size of its cells.
pub open spec fn shows_row(s: ScopeModel, row: RawRowModel) -> bool {
    exists|i: int, t: int|
        #![trigger s.retained.records[i], s.retained.records[t]]
        {
            let rec = s.retained.records[i];
            &&& is_record(s, i, row.record, Collection::Rows)
            &&& is_record(s, t, row.table_record, Collection::Tables)
            &&& s.text(i, "source_id"@) == Ok::<Seq<char>, MigrationError>(row.source_id)
            &&& s.text(i, "table_name"@) == Ok::<Seq<char>, MigrationError>(row.source.table)
            &&& s.text(t, "name"@) == Ok::<Seq<char>, MigrationError>(row.source.table)
            &&& row.source.capture_revision == s.revision
            &&& rec.key matches Some(key) && row.source.key == key.key && row.source.identity
                == key.identity
            &&& row.cells_field == "cells_json"@
            &&& rec.field("cells_json"@) matches Some(cells) && row.cells_json_bytes
                == cells.size() as u64
        }
}

/// What is shown of a row that was asked for is what is retained of it.
pub proof fn law_rows_are_shown_as_they_are_retained(
    s: ScopeModel,
    used: nat,
    entity: i64,
    sequence: i64,
    source_id: Seq<char>,
    table: Seq<char>,
)
    requires
        s.raw_row(used, entity, sequence, source_id, table) is Ok,
    ensures
        ({
            let row = s.raw_row(used, entity, sequence, source_id, table)->Ok_0.0;
            &&& row.record == sequence
            &&& row.entity_record == entity
            &&& row.source_id == source_id
            &&& row.source.table == table
            &&& shows_row(s, row)
        }),
{
    let (row, _) = s.raw_row(used, entity, sequence, source_id, table)->Ok_0;
    lemma_record(s, used, sequence);
    let (i, used1) = s.record(used, sequence)->Ok_0;
    lemma_record(s, used1, row.table_record);
    let t = s.record(used1, row.table_record)->Ok_0.0;
    assert(is_record(s, i, row.record, Collection::Rows));
    assert(is_record(s, t, row.table_record, Collection::Tables));
}

/// The row of an entity is the one that the entity names, and is shown as it is retained.
pub proof fn law_entities_lead_to_their_row(s: ScopeModel, used: nat, entity: i64)
    requires
        s.row(used, entity) is Ok,
    ensures
        ({
            let row = s.row(used, entity)->Ok_0.0;
            &&& row.entity_record == entity
            &&& shows_row(s, row)
            &&& exists|e: int|
                {
                    &&& #[trigger] is_record(s, e, entity, Collection::Entities)
                    &&& s.text(e, "source_id"@) == Ok::<Seq<char>, MigrationError>(row.source_id)
                    &&& s.text(e, "table_name"@) == Ok::<Seq<char>, MigrationError>(
                        row.source.table,
                    )
                }
        }),
{
    lemma_record(s, used, entity);
    let (e, used1) = s.record(used, entity)->Ok_0;
    let source_id = s.text(e, "source_id"@)->Ok_0;
    let table = s.text(e, "table_name"@)->Ok_0;
    let sequence = s.unique(retained::Query::RowsBySource(source_id))->Ok_0;
    law_rows_are_shown_as_they_are_retained(s, used1, entity, sequence, source_id, table);
    assert(is_record(s, e, entity, Collection::Entities));
}

/// A reference is shown with what its record says, and with the rows at its ends: the source's is
/// that of the source that it names, and the target's that of the table that it names, where each
/// is the only one. It is retained only where nothing is missing or ambiguous.
pub proof fn law_references_are_shown_with_their_ends(s: ScopeModel, used: nat, reference: i64)
    requires
        s.endpoints(used, reference) is Ok,
    ensures
        ({
            let link = s.endpoints(used, reference)->Ok_0.0;
            &&& link.reference_record == reference
            &&& link.anchor is None
            &&& exists|i: int|
                {
                    &&& #[trigger] is_record(s, i, reference, Collection::References)
                    &&& s.text(i, "source_id"@) == Ok::<Seq<char>, MigrationError>(link.source_id)
                    &&& s.text(i, "field"@) == Ok::<Seq<char>, MigrationError>(link.field)
                    &&& s.text(i, "target_table"@) == Ok::<Seq<char>, MigrationError>(
                        link.target_table,
                    )
                    &&& s.text(i, "target_key"@) == Ok::<Seq<char>, MigrationError>(link.target_key)
                }
            &&& link.source matches Some(row) ==> shows_row(s, row) && s.unique(
                retained::Query::EntitiesBySource(link.source_id),
            ) == Ok::<i64, Compatibility>(row.entity_record)
            &&& link.target matches Some(row) ==> shows_row(s, row) && s.unique(
                retained::Query::EntitiesByLocalKey {
                    table_name: link.target_table,
                    local_key: link.target_key,
                },
            ) == Ok::<i64, Compatibility>(row.entity_record)
            &&& link.compatibility == Compatibility::RetainedOnly && (link.source is None
                || link.target is None) ==> !settles(s, link)
        }),
{
    reveal(ScopeModel::endpoints);
    lemma_record(s, used, reference);
    let (i, used1) = s.record(used, reference)->Ok_0;
    let (link, _) = s.endpoints(used, reference)->Ok_0;
    assert(is_record(s, i, reference, Collection::References));
    let from = s.unique(retained::Query::EntitiesBySource(link.source_id));
    let to = s.unique(
        retained::Query::EntitiesByLocalKey {
            table_name: link.target_table,
            local_key: link.target_key,
        },
    );
    let used2 = s.group_target(used1, link.source_id, link.field, link.target_table)->Ok_0.1;
    let used3 = s.optional_row(used2, from)->Ok_0.1;
    if let Ok(id) = from {
        law_entities_lead_to_their_row(s, used2, id);
    }
    if let Ok(id) = to {
        law_entities_lead_to_their_row(s, used3, id);
    }
}

/// Both ends of a reference are the only ones that it can mean.
pub open spec fn settles(s: ScopeModel, link: RelationModel) -> bool {
    &&& s.unique(retained::Query::EntitiesBySource(link.source_id)) is Ok
    &&& s.unique(
        retained::Query::EntitiesByLocalKey {
            table_name: link.target_table,
            local_key: link.target_key,
        },
    ) is Ok
}

/// A history starts at the row that was asked for, with the identity and of the table that were
/// asked for, and only where this is the one image of its key.
pub proof fn law_histories_start_at_their_row(s: ScopeModel, record: i64, table: i64, identity: Seq<char>)
    requires
        history::root_row(s, record, table, identity) is Ok,
    ensures
        ({
            let root = history::root_row(s, record, table, identity)->Ok_0;
            &&& root.input == s.input
            &&& root.revision == s.revision
            &&& root.record == record
            &&& root.row.record == record
            &&& root.row.table_record == table
            &&& root.row.source.identity == identity
            &&& shows_row(s, root.row)
        }),
{
    let (i, used) = s.record(0, record)->Ok_0;
    let source_id = s.text(i, "source_id"@)->Ok_0;
    let entity = s.unique(retained::Query::EntitiesBySource(source_id))->Ok_0;
    law_entities_lead_to_their_row(s, used, entity);
}

/// Settings belong to the image that they name: settings that name another image, or of which it
/// cannot be told, are not the image's.
pub proof fn law_settings_belong_to_the_image_they_name(
    s: ScopeModel,
    used: nat,
    next: RawRowModel,
    root: RawRowModel,
)
    ensures
        s.settings_owner(used, next, root) matches Ok((own, _)) ==> {
            let hits = s.retained.hits(
                s.input,
                s.revision,
                retained::Query::References {
                    source_id: next.source_id,
                    field: Some("image"@),
                    target_table: Some("Adobe_images"@),
                },
                None,
            );
            &&& next.source.table != "Adobe_imageDevelopSettings"@ ==> own
            &&& next.source.table == "Adobe_imageDevelopSettings"@ && hits.len() > 1 ==> !own
            &&& next.source.table == "Adobe_imageDevelopSettings"@ && own && hits.len() == 1
                ==> exists|target: RawRowModel|
                #![trigger shows_row(s, target)]
                shows_row(s, target) && target.record == root.record
        },
{
    reveal(ScopeModel::settings_owner);
    if let Ok((own, _)) = s.settings_owner(used, next, root) {
        let hits = s.retained.hits(
            s.input,
            s.revision,
            retained::Query::References {
                source_id: next.source_id,
                field: Some("image"@),
                target_table: Some("Adobe_images"@),
            },
            None,
        );
        if next.source.table == "Adobe_imageDevelopSettings"@ && own && hits.len() == 1 {
            let reference = s.retained.records[hits[0]].sequence;
            law_references_are_shown_with_their_ends(s, used, reference);
            let link = s.endpoints(used, reference)->Ok_0.0;
            assert(shows_row(s, link.target->0));
        }
    }
}

/// An origin of metadata bears the name of where it was found: in the file, or in a sidecar whose
/// name replaces or is appended to the file's, in small or in capital letters.
pub proof fn law_origins_bear_their_names(o: Origin)
    ensures
        file_history::origin_name(o) == "embedded"@ <==> o is Embedded,
        file_history::origin_name(o) == "sidecar_xmp"@ <==> o is SidecarXmp,
        file_history::origin_name(o) == "sidecar_XMP"@ <==> o is SidecarUpper,
        file_history::origin_name(o) == "sidecar_appended_xmp"@ <==> o is AppendedXmp,
        file_history::origin_name(o) == "sidecar_appended_XMP"@ <==> o is AppendedUpper,
{
    reveal_strlit("embedded");
    reveal_strlit("sidecar_xmp");
    reveal_strlit("sidecar_XMP");
    reveal_strlit("sidecar_appended_xmp");
    reveal_strlit("sidecar_appended_XMP");
    assert("sidecar_xmp"@[8] != "sidecar_XMP"@[8]);
    assert("sidecar_appended_xmp"@[17] != "sidecar_appended_XMP"@[17]);
    assert("sidecar_xmp"@.len() == 11 && "sidecar_XMP"@.len() == 11);
    assert("sidecar_appended_xmp"@.len() == 20 && "sidecar_appended_XMP"@.len() == 20);
    assert("embedded"@.len() == 8);
}

} // verus!

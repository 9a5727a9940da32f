//! What is read of an image's history: rows that say what they are, within the image, and
//! texts that are handed out as they were asked for.
use crate::catalog_migration::history;
use crate::catalog_migration::history::{
    AdobeInputModel, AnchorModel, Classification, CursorModel, Direction, Hop, PageModel,
    RawRowModel, RelationModel, Root, ScopeModel, SettingsAssociation,
};
use crate::catalog_migration::images;
use crate::catalog_migration::proofs;
use crate::catalog_migration::record_laws;
use crate::catalog_migration::retained;
use crate::catalog_migration::retained::{
    CellModel, Collection, Compatibility, MigrationError, RecordModel, RetainedModel,
};
use crate::catalog_metadata::edit;
use crate::outside;
use crate::support;
use crate::tables::TablesModel;
use vstd::prelude::*;
use vstd::utf8::*;

verus! {

/// A text that is handed to an interpreter is the whole text of the one column that was asked
/// for, of the row that the anchor comes to, with its own digest and length; the settings in it
/// are to be looked for exactly where the caller asked; and what is of the past is marked so.
pub proof fn law_texts_are_handed_out_as_asked_for(
    m: TablesModel,
    r: RetainedModel,
    p: images::ProjectionsModel,
    anchor: AnchorModel,
    column: Seq<char>,
    settings_path: Seq<Seq<char>>,
    row: RawRowModel,
    reason: Seq<char>,
    input: AdobeInputModel,
)
    requires
        history::adobe_outcome(m, r, p, anchor, column, settings_path) == Ok::<
            (RawRowModel, Seq<char>, Option<AdobeInputModel>),
            MigrationError,
        >((row, reason, Some(input))),
    ensures
        input.settings_path == settings_path,
        input.source_id == row.source_id,
        input.revision == row.source.capture_revision,
        input.payload_blake3 == outside::blake3_hex(input.payload),
        input.payload_bytes == input.payload.len(),
        exists|i: int, t: int, c: int|
            #![trigger r.records[i], r.records[t], holds_cell(r.records[t], r.records[i], column, input.payload, c)]
            0 <= i < r.records.len() && 0 <= t < r.records.len() && r.records[i].sequence
                == row.record && r.records[t].sequence == row.table_record && holds_cell(
                r.records[t],
                r.records[i],
                column,
                input.payload,
                c,
            ),
        row.classification == Classification::BeforeSettings || row.classification
            == Classification::History || row.classification == Classification::Snapshot
            <==> input.association == SettingsAssociation::Historical,
        row.classification == Classification::CurrentSettings || row.classification
            == Classification::Settings <==> input.association == SettingsAssociation::Unresolved,
{
    let (root, found, used) = history::resolution(m, r, p, anchor)->Ok_0;
    let s = ScopeModel { retained: r, input: root.input, revision: root.revision };
    let (i, used1) = s.record(used, row.record)->Ok_0;
    let (t, _) = s.record(used1, row.table_record)->Ok_0;
    support::lemma_first_where(r.records, retained::record_at(row.record));
    support::lemma_first_where(r.records, retained::record_at(row.table_record));
    let names = r.records[t].columns->0;
    record_laws::lemma_positions(names, proofs::is_name(column), names.len());
    let c = history::only_column(names, column)->0;
    assert forall|k: int| 0 <= k < names.len() && k != c implies #[trigger] names[k] != column by {
        if names[k] == column {
            assert(proofs::is_name(column)(names[k]));
            let all = support::positions(names, proofs::is_name(column), names.len());
            assert(all.contains(k));
        }
    }
    assert(holds_cell(r.records[t], r.records[i], column, input.payload, c));
    assert(input.payload.len() <= history::TEXT_BYTES);
}

/// A row holds a text in the column of a name, which is the only one of that name.
pub open spec fn holds_cell(
    table: RecordModel,
    row: RecordModel,
    column: Seq<char>,
    text: Seq<u8>,
    c: int,
) -> bool {
    &&& table.columns matches Some(names) && row.cells matches Some(cells) && names.len()
        == cells.len() && 0 <= c < names.len() && names[c] == column && cells[c]
        == CellModel::Text(text) && forall|k: int|
        0 <= k < names.len() && k != c ==> #[trigger] names[k] != column
}

/// What a row is about goes by its table alone.
pub open spec fn says_what_it_is(row: RawRowModel) -> bool {
    let table = row.source.table;
    let about = row.classification;
    &&& about == Classification::Image <==> table == "Adobe_images"@
    &&& about == Classification::BeforeSettings <==> table == "Adobe_imageDevelopBeforeSettings"@
    &&& about == Classification::History <==> table == "Adobe_libraryImageDevelopHistoryStep"@
    &&& about == Classification::Snapshot <==> table == "Adobe_libraryImageDevelopSnapshot"@
    &&& about == Classification::Settings || about == Classification::CurrentSettings <==> table
        == "Adobe_imageDevelopSettings"@
    &&& about == Classification::Organization <==> table == "AgLibraryKeywordImage"@ || table
        == "AgLibraryCollectionImage"@ || table == "AgLibraryCollectionContent"@
    &&& about == Classification::Metadata <==> table == "Adobe_AdditionalMetadata"@ || table
        == "AgHarvestedExifMetadata"@ || table == "AgHarvestedIptcMetadata"@ || table
        == "AgLibraryIPTC"@ || table == "AgVideoInfo"@
}

proof fn lemma_classified(table: Seq<char>)
    ensures
        "Adobe_images"@.len() == 12,
        "Adobe_imageDevelopSettings"@.len() == 26,
        "Adobe_imageDevelopBeforeSettings"@.len() == 32,
        "Adobe_libraryImageDevelopHistoryStep"@.len() == 36,
        "Adobe_libraryImageDevelopSnapshot"@.len() == 33,
        "Adobe_AdditionalMetadata"@.len() == 24,
        "AgHarvestedExifMetadata"@.len() == 23,
        "AgHarvestedIptcMetadata"@.len() == 23,
        "AgLibraryIPTC"@.len() == 13,
        "AgVideoInfo"@.len() == 11,
        "AgLibraryKeywordImage"@.len() == 21,
        "AgLibraryCollectionImage"@.len() == 24,
        "AgLibraryCollectionContent"@.len() == 26,
        "AgLibraryFile"@.len() == 13,
        "AgLibraryCollectionImage"@ != "Adobe_AdditionalMetadata"@,
        "AgLibraryCollectionContent"@ != "Adobe_imageDevelopSettings"@,
{
    reveal_strlit("Adobe_images");
    reveal_strlit("Adobe_imageDevelopSettings");
    reveal_strlit("Adobe_imageDevelopBeforeSettings");
    reveal_strlit("Adobe_libraryImageDevelopHistoryStep");
    reveal_strlit("Adobe_libraryImageDevelopSnapshot");
    reveal_strlit("Adobe_AdditionalMetadata");
    reveal_strlit("AgHarvestedExifMetadata");
    reveal_strlit("AgHarvestedIptcMetadata");
    reveal_strlit("AgLibraryIPTC");
    reveal_strlit("AgVideoInfo");
    reveal_strlit("AgLibraryKeywordImage");
    reveal_strlit("AgLibraryCollectionImage");
    reveal_strlit("AgLibraryCollectionContent");
    reveal_strlit("AgLibraryFile");
    assert("AgLibraryCollectionImage"@[1] == 'g');
    assert("Adobe_AdditionalMetadata"@[1] == 'd');
    assert("AgLibraryCollectionContent"@[1] == 'g');
    assert("Adobe_imageDevelopSettings"@[1] == 'd');
}

proof fn lemma_row(s: ScopeModel, used: nat, entity: i64)
    ensures
        s.row(used, entity) matches Ok((row, _)) ==> {
            &&& says_what_it_is(row)
            &&& row.classification != Classification::CurrentSettings
            &&& row.entity_record == entity
            &&& row.source.capture_revision == s.revision
        },
{
    if let Ok((row, _)) = s.row(used, entity) {
        lemma_classified(row.source.table);
    }
}

proof fn lemma_text(x: RecordModel, name: Seq<char>, cap: nat)
    ensures
        x.typed_text(name, cap) matches Ok(text) ==> record_laws::record_holds(x, name, text),
{
    if let Ok(text) = x.typed_text(name, cap) {
        let bytes = x.field_bytes(name, cap)->Ok_0;
        decode_utf8_encode_utf8(bytes);
        record_laws::lemma_says(x, name, text);
    }
}

/// A record of a capture that refers from a row to another, with what it says of it.
pub open spec fn is_reference(
    r: RetainedModel,
    root: Root,
    reference: i64,
    name: Seq<char>,
    text: Seq<char>,
) -> bool {
    exists|i: int|
        {
            &&& 0 <= i < r.records.len()
            &&& (#[trigger] r.records[i]).sequence == reference
            &&& r.records[i].complete
            &&& r.records[i].collection == Collection::References
            &&& r.records[i].input == root.input
            &&& r.records[i].revision == root.revision
            &&& record_laws::record_holds(r.records[i], name, text)
        }
}

proof fn lemma_endpoints(s: ScopeModel, root: Root, used: nat, reference: i64)
    requires
        s.input == root.input,
        s.revision == root.revision,
    ensures
        s.endpoints(used, reference) matches Ok((relation, _)) ==> {
            &&& relation.source matches Some(row) ==> says_what_it_is(row) && row.classification
                != Classification::CurrentSettings
            &&& relation.target matches Some(row) ==> says_what_it_is(row) && row.classification
                != Classification::CurrentSettings
            &&& is_reference(s.retained, root, reference, "field"@, relation.field)
            &&& is_reference(s.retained, root, reference, "target_table"@, relation.target_table)
            &&& is_reference(s.retained, root, reference, "source_id"@, relation.source_id)
            &&& is_reference(s.retained, root, reference, "target_key"@, relation.target_key)
            &&& relation.reference_record == reference
        },
{
    reveal(ScopeModel::endpoints);
    if let Ok((relation, _)) = s.endpoints(used, reference) {
        let (i, used1) = s.record(used, reference)->Ok_0;
        support::lemma_first_where(s.retained.records, retained::record_at(reference));
        let x = s.retained.records[i];
        let cap = proofs::IDENTITY_BYTES as nat;
        lemma_text(x, "field"@, cap);
        lemma_text(x, "target_table"@, cap);
        lemma_text(x, "source_id"@, cap);
        lemma_text(x, "target_key"@, cap);
        let from = s.unique(retained::Query::EntitiesBySource(relation.source_id));
        let to = s.unique(
            retained::Query::EntitiesByLocalKey {
                table_name: relation.target_table,
                local_key: relation.target_key,
            },
        );
        let (_, used2) = s.group_target(
            used1,
            relation.source_id,
            relation.field,
            relation.target_table,
        )->Ok_0;
        if let Ok(id) = from {
            lemma_row(s, used2, id);
        }
        let (_, used3) = s.optional_row(used2, from)->Ok_0;
        if let Ok(id) = to {
            lemma_row(s, used3, id);
        }
    }
}

/// How a row is come to from the row before it by one reference.
pub open spec fn comes_by(r: RetainedModel, root: Root, hop: Hop, row: RawRowModel) -> bool {
    let current = row.classification == Classification::CurrentSettings;
    let table = row.source.table;
    ||| {
        &&& hop.direction == Direction::Incoming
        &&& is_reference(r, root, hop.reference, "target_table"@, "Adobe_images"@)
        &&& table != "Adobe_images"@
        &&& table != "AgLibraryFile"@
        &&& !current
    }
    ||| {
        &&& hop.direction == Direction::Outgoing
        &&& is_reference(r, root, hop.reference, "field"@, "developSettingsIDCache"@)
        &&& table == "Adobe_imageDevelopSettings"@
        &&& current
    }
    ||| {
        &&& hop.direction == Direction::Incoming
        &&& is_reference(r, root, hop.reference, "field"@, "developSettings"@)
        &&& table == "Adobe_imageDevelopBeforeSettings"@
        &&& !current
    }
    ||| {
        &&& hop.direction == Direction::Outgoing
        &&& is_reference(r, root, hop.reference, "field"@, "developSettings"@)
        &&& table == "Adobe_imageDevelopSettings"@
        &&& !current
    }
}

proof fn lemma_root(m: TablesModel, r: RetainedModel, p: images::ProjectionsModel, anchor: AnchorModel)
    ensures
        history::root_of(m, r, p, anchor.variant) matches Ok(root) ==> says_what_it_is(root.row)
            && root.row.classification != Classification::CurrentSettings && root.row.record
            == root.record,
{
    reveal(history::root_of);
    if let Ok(root) = history::root_of(m, r, p, anchor.variant) {
        let s = ScopeModel { retained: r, input: root.input, revision: root.revision };
        let found = s.record(0, root.record)->Ok_0;
        let source_id = s.text(found.0, "source_id"@)->Ok_0;
        let entity = s.unique(retained::Query::EntitiesBySource(source_id))->Ok_0;
        lemma_row(s, found.1, entity);
    }
}

/// What an anchor comes to belongs to its image. Without hops it is the image's own row. Every
/// hop either goes to a row that names the image and is neither an image nor a file, or to the
/// settings that the image names as its current ones, or between settings and those before
/// them; and only what the image names as such counts as current. A row is about what its
/// table says.
pub proof fn law_reading_keeps_to_the_image(
    m: TablesModel,
    r: RetainedModel,
    p: images::ProjectionsModel,
    anchor: AnchorModel,
    root: Root,
    row: RawRowModel,
    used: nat,
)
    requires
        history::resolution(m, r, p, anchor) == Ok::<(Root, RawRowModel, nat), MigrationError>(
            (root, row, used),
        ),
    ensures
        anchor.root == root.record,
        anchor.input == root.input,
        says_what_it_is(row),
        anchor.hops.len() == 0 ==> row.record == anchor.root && row.classification
            != Classification::CurrentSettings,
        anchor.hops.len() > 0 ==> comes_by(r, root, anchor.hops.last(), row),
{
    let s = ScopeModel { retained: r, input: root.input, revision: root.revision };
    let n = anchor.hops.len();
    lemma_root(m, r, p, anchor);
    if n > 0 {
        let (before, spent) = history::path(s, root, anchor.hops, (n - 1) as nat)->Ok_0;
        let hop = anchor.hops[n - 1];
        reveal(history::hopped);
        lemma_endpoints(s, root, spent, hop.reference);
        lemma_classified(row.source.table);
    }
}

/// A page lists the references of the row that its anchor comes to, and no others: those to
/// the row, or those from it. They come in the order of their records, behind the cursor, and
/// what is not on the page comes behind its last, where the next page begins.
pub proof fn law_pages_list_the_references_of_their_row(
    m: TablesModel,
    r: RetainedModel,
    p: images::ProjectionsModel,
    anchor: AnchorModel,
    direction: Direction,
    cursor: Option<CursorModel>,
    limit: nat,
    page: PageModel,
    i: int,
)
    requires
        history::evidence_page(m, r, p, anchor, direction, cursor, limit) == Ok::<
            PageModel,
            MigrationError,
        >(page),
        0 <= i < r.records.len(),
    ensures
        ({
            let (root, row, used) = history::resolution(m, r, p, anchor)->Ok_0;
            &&& history::resolution(m, r, p, anchor) is Ok
            &&& page.row == row
            &&& page.variant == anchor.variant
            &&& forall|k: int|
                0 <= k < page.relations.len() ==> {
                    let x = #[trigger] page.relations[k];
                    &&& cursor matches Some(c) ==> x.reference_record > c.lookup
                    &&& direction == Direction::Outgoing ==> is_reference(
                        r,
                        root,
                        x.reference_record,
                        "source_id"@,
                        row.source_id,
                    )
                    &&& direction == Direction::Incoming ==> is_reference(
                        r,
                        root,
                        x.reference_record,
                        "target_table"@,
                        row.source.table,
                    )
                }
            &&& page.next matches Some(c) ==> page.relations.len() == limit && c.lookup
                == page.relations.last().reference_record && c.direction == direction
            &&& direction == Direction::Outgoing && page.next is None && is_reference_at(
                r.records[i],
                root,
                "source_id"@,
                row.source_id,
            ) && (cursor matches Some(c) ==> r.records[i].sequence > c.lookup) ==> exists|k: int|
                0 <= k < page.relations.len() && (#[trigger] page.relations[k]).reference_record
                    == r.records[i].sequence
        }),
{
    let (root, row, used) = history::resolution(m, r, p, anchor)->Ok_0;
    let s = ScopeModel { retained: r, input: root.input, revision: root.revision };
    let after = match cursor {
        Some(c) => Some(c.lookup),
        None => None,
    };
    let (q, used1) = history::relation_query(s, used, row, direction)->Ok_0;
    let hits = r.page_hits(root.input, root.revision, q, after, limit);
    record_laws::law_lookup_pages_leave_nothing_out(
        r,
        root.input,
        root.revision,
        q,
        after,
        limit,
        i,
    );
    lemma_listed(s, root, anchor, row, direction, used1, hits, hits.len());
    assert forall|k: int| 0 <= k < page.relations.len() implies {
        let x = #[trigger] page.relations[k];
        &&& cursor matches Some(c) ==> x.reference_record > c.lookup
        &&& direction == Direction::Outgoing ==> is_reference(
            r,
            root,
            x.reference_record,
            "source_id"@,
            row.source_id,
        )
        &&& direction == Direction::Incoming ==> is_reference(
            r,
            root,
            x.reference_record,
            "target_table"@,
            row.source.table,
        )
    } by {
        let x = r.records[hits[k]];
        record_laws::law_lookups_find_what_they_name(x, root.input, root.revision, q, after);
        assert(r.records[hits[k]].sequence == page.relations[k].reference_record);
    }
    if direction == Direction::Outgoing && page.next is None && is_reference_at(
        r.records[i],
        root,
        "source_id"@,
        row.source_id,
    ) && (cursor matches Some(c) ==> r.records[i].sequence > c.lookup) {
        record_laws::law_lookups_find_what_they_name(
            r.records[i],
            root.input,
            root.revision,
            q,
            after,
        );
        assert(hits.contains(i));
        let k = choose|k: int| 0 <= k < hits.len() && hits[k] == i;
        assert(page.relations[k].reference_record == r.records[i].sequence);
    }
}

/// A record is a reference of a capture that says something of it.
pub open spec fn is_reference_at(x: RecordModel, root: Root, name: Seq<char>, text: Seq<char>) -> bool {
    &&& x.complete
    &&& x.collection == Collection::References
    &&& x.input == root.input
    &&& x.revision == root.revision
    &&& record_laws::record_holds(x, name, text)
}

proof fn lemma_listed(
    s: ScopeModel,
    root: Root,
    anchor: AnchorModel,
    row: RawRowModel,
    direction: Direction,
    used: nat,
    hits: Seq<int>,
    n: nat,
)
    requires
        n <= hits.len(),
        s.input == root.input,
        s.revision == root.revision,
    ensures
        history::relations_shown(s, root, anchor, row, direction, used, hits, n) matches Ok(
            (relations, _),
        ) ==> relations.len() == n && forall|k: int|
            0 <= k < n ==> (#[trigger] relations[k]).reference_record
                == s.retained.records[hits[k]].sequence,
    decreases n,
{
    if n > 0 {
        lemma_listed(s, root, anchor, row, direction, used, hits, (n - 1) as nat);
        if let Ok((_, used1)) = history::relations_shown(
            s,
            root,
            anchor,
            row,
            direction,
            used,
            hits,
            (n - 1) as nat,
        ) {
            reveal(history::relation_shown);
            lemma_endpoints(s, root, used1, s.retained.records[hits[n - 1]].sequence);
        }
    }
}

} // verus!

//! What the rows of a source's images and files are imported as, told by the retained records
//! and by the rows that an import leaves.
use crate::catalog::Catalog;
use crate::catalog_images::image_laws;
use crate::catalog_images::ImageRole;
use crate::catalog_migration::file_metadata;
use crate::catalog_migration::file_metadata::{Association, Origin};
use crate::catalog_migration::images;
use crate::catalog_migration::images::{Decision, OutcomeModel, ProjectionsModel, Role};
use crate::catalog_migration::import_rows;
use crate::catalog_migration::import_rows::{FileChoice, ImageChoice, MetadataChoice, OriginalChoice};
use crate::catalog_migration::importer;
use crate::catalog_migration::importer::Stage;
use crate::catalog_migration::proofs;
use crate::catalog_migration::proofs::{LinkModel, SourceRecordModel};
use crate::catalog_migration::record_laws;
use crate::catalog_migration::retained;
use crate::catalog_migration::retained::{
    CellModel, Collection, MigrationError, Query, RetainedModel,
};
use crate::catalog_images::register;
use crate::lookups;
use crate::support;
use crate::tables::TablesModel;
use vstd::prelude::*;
use vstd::utf8::*;

verus! {

/// A record by its number.
pub open spec fn is_record(r: RetainedModel, i: int, sequence: i64) -> bool {
    0 <= i < r.records.len() && r.records[i].sequence == sequence
}

/// A row, read by the record of its table, has a value in the one column of a name.
pub open spec fn has_cell(
    r: RetainedModel,
    row: i64,
    table: i64,
    name: Seq<char>,
    cell: CellModel,
) -> bool {
    exists|i: int, t: int, c: int|
        #![trigger r.records[i], r.records[t], cell_at(r, i, t, name, cell, c)]
        is_record(r, i, row) && is_record(r, t, table) && cell_at(r, i, t, name, cell, c)
}

/// A value stands in the one column of a name.
pub open spec fn cell_at(
    r: RetainedModel,
    i: int,
    t: int,
    name: Seq<char>,
    cell: CellModel,
    c: int,
) -> bool {
    &&& r.records[t].columns matches Some(names) && r.records[i].cells matches Some(cells)
        && names.len() == cells.len() && 0 <= c < names.len() && names[c] == name && cells[c]
        == cell && forall|k: int| 0 <= k < names.len() && k != c ==> #[trigger] names[k] != name
}

/// A row, read by the record of its table, has no column of a name.
pub open spec fn has_no_column(r: RetainedModel, table: i64, name: Seq<char>) -> bool {
    exists|t: int|
        is_record(r, t, table) && ((#[trigger] r.records[t]).columns matches Some(names) && forall|
            k: int,
        | 0 <= k < names.len() ==> #[trigger] names[k] != name)
}

/// A value that names no other row: none, or a number that is zero.
pub open spec fn names_none(cell: CellModel) -> bool {
    cell == CellModel::Null || cell == CellModel::Integer(0) || cell == CellModel::RealBits(0)
        || cell == CellModel::RealBits(0x8000_0000_0000_0000)
}

/// A source file has an original of an importer.
pub open spec fn has_original(p: ProjectionsModel, identity: Seq<char>, owner: Seq<char>) -> bool {
    exists|k: int|
        0 <= k < p.originals.len() && (#[trigger] p.originals[k]).source_identity == identity
            && p.originals[k].import_source == owner
}

/// A source image was registered as an image by an importer.
pub open spec fn is_registered(p: ProjectionsModel, identity: Seq<char>, owner: Seq<char>) -> bool {
    exists|k: int|
        0 <= k < p.rows.len() && (#[trigger] p.rows[k]).source_identity == identity
            && p.rows[k].owner == owner && p.rows[k].result.outcome is Image
}

proof fn lemma_column(
    r: RetainedModel,
    origin: SourceRecordModel,
    table: i64,
    name: Seq<char>,
)
    requires
        proofs::columns(r, origin, table) is Ok,
    ensures
        ({
            let (names, values) = proofs::columns(r, origin, table)->Ok_0;
            &&& proofs::column(names, values, name) matches Some(cell) ==> has_cell(
                r,
                origin.retained_record,
                table,
                name,
                cell,
            )
            &&& proofs::column(names, values, name) is None ==> has_no_column(r, table, name)
        }),
{
    let (names, values) = proofs::columns(r, origin, table)->Ok_0;
    let (row, t) = proofs::table_proof(r, origin, table)->Ok_0;
    support::lemma_first_where(r.records, retained::record_at(origin.retained_record));
    support::lemma_first_where(r.records, retained::record_at(table));
    support::lemma_first_where(names, proofs::is_name(name));
    match support::first_where(names, proofs::is_name(name)) {
        Some(c) => {
            assert forall|k: int| 0 <= k < names.len() && k != c implies #[trigger] names[k]
                != name by {
                if names[k] == name {
                    if k < c {
                        assert(!proofs::is_name(name)(names[k]));
                    } else {
                        assert(names[c] == names[k]);
                    }
                }
            }
            assert(cell_at(r, row, t, name, values[c], c));
            assert(is_record(r, row, origin.retained_record) && is_record(r, t, table));
        },
        None => {
            assert forall|k: int| 0 <= k < names.len() implies #[trigger] names[k] != name by {
                assert(!proofs::is_name(name)(names[k]));
            }
            assert(is_record(r, t, table));
        },
    }
}

proof fn lemma_original(p: ProjectionsModel, identity: Seq<char>, owner: Seq<char>)
    ensures
        import_rows::has_original(p, identity, owner) ==> has_original(p, identity, owner),
        import_rows::has_image(p, identity, owner) ==> is_registered(p, identity, owner),
{
    support::lemma_first_where(p.originals, images::original_of(identity));
    support::lemma_first_where(p.rows, images::projection_of(identity));
    if import_rows::has_original(p, identity, owner) {
        let k = p.original_at(identity)->Some_0;
        assert(p.originals[k].source_identity == identity);
    }
    if import_rows::has_image(p, identity, owner) {
        let k = p.projection_at(identity)->Some_0;
        assert(p.rows[k].source_identity == identity);
    }
}

/// Each stage for images takes those of its own role: a row whose column masterImage names no
/// other row is a master, and any other one a virtual copy. What is to be registered is of the
/// file that its column rootFile leads to, which has an original of the importer, and a virtual
/// copy is under the image that its column masterImage leads to, which the importer registered.
pub proof fn law_images_are_imported_in_their_role(
    r: RetainedModel,
    p: ProjectionsModel,
    input: Seq<char>,
    owner: Seq<char>,
    origin: SourceRecordModel,
    stage: Stage,
)
    ensures
        match import_rows::image_choice(r, p, input, owner, origin, stage) {
            Ok(ImageChoice::OtherRole) => {
                ||| stage == Stage::Masters && exists|table: i64, cell: CellModel|
                    has_cell(r, origin.retained_record, table, "masterImage"@, cell) && !names_none(
                        cell,
                    )
                ||| stage == Stage::Masters && exists|table: i64|
                    has_no_column(r, table, "masterImage"@)
                ||| stage == Stage::VirtualCopies && exists|table: i64, cell: CellModel|
                    has_cell(r, origin.retained_record, table, "masterImage"@, cell) && names_none(
                        cell,
                    )
            },
            Ok(ImageChoice::Register { table, file, master, label }) => {
                &&& stage == Stage::Masters ==> master is None
                &&& stage == Stage::VirtualCopies ==> master is Some
                &&& exists|cell: CellModel|
                    #[trigger] has_cell(r, origin.retained_record, table, "masterImage"@, cell) && (
                    names_none(cell) <==> master is None)
                &&& file.field == "rootFile"@
                &&& has_original(p, file.target.source.identity, owner)
                &&& master matches Some(link) ==> link.field == "masterImage"@ && is_registered(
                    p,
                    link.target.source.identity,
                    owner,
                ) && exists|cell: CellModel|
                    #[trigger] has_cell(
                        r,
                        link.target.retained_record,
                        table,
                        "masterImage"@,
                        cell,
                    ) && names_none(cell)
            },
            _ => true,
        },
{
    reveal(import_rows::image_choice);
    match import_rows::image_choice(r, p, input, owner, origin, stage) {
        Ok(ImageChoice::OtherRole) => {
            let table = import_rows::schema_of(
                r,
                input,
                origin.source.capture_revision,
                "Adobe_images"@,
            )->Ok_0;
            lemma_column(r, origin, table, "masterImage"@);
        },
        Ok(ImageChoice::Register { table, file, master, label }) => {
            lemma_column(r, origin, table, "masterImage"@);
            lemma_original(p, file.target.source.identity, owner);
            let (names, values) = proofs::columns(r, origin, table)->Ok_0;
            let cell = proofs::column(names, values, "masterImage"@)->Some_0;
            assert(has_cell(r, origin.retained_record, table, "masterImage"@, cell));
            if let Some(link) = master {
                lemma_original(p, link.target.source.identity, owner);
                lemma_column(r, link.target, table, "masterImage"@);
                let (n, v) = proofs::columns(r, link.target, table)->Ok_0;
                let c = proofs::column(n, v, "masterImage"@)->Some_0;
                assert(has_cell(r, link.target.retained_record, table, "masterImage"@, c));
            }
        },
        _ => {},
    }
}

/// An image is labelled by its column copyName; one without a name there is called an original
/// where it is a master and a virtual copy where it is not.
pub proof fn law_images_are_labelled_by_their_name(
    r: RetainedModel,
    p: ProjectionsModel,
    input: Seq<char>,
    owner: Seq<char>,
    origin: SourceRecordModel,
    stage: Stage,
    table: i64,
    file: LinkModel,
    master: Option<LinkModel>,
    label: Seq<char>,
)
    requires
        import_rows::image_choice(r, p, input, owner, origin, stage) == Ok::<
            ImageChoice,
            MigrationError,
        >(ImageChoice::Register { table, file, master, label }),
    ensures
        ({
            ||| has_no_column(r, table, "copyName"@) && is_plain_label(label, master is None)
            ||| has_cell(r, origin.retained_record, table, "copyName"@, CellModel::Null)
                && is_plain_label(label, master is None)
            ||| has_cell(r, origin.retained_record, table, "copyName"@, CellModel::Text(Seq::empty()))
                && is_plain_label(label, master is None)
            ||| label.len() > 0 && has_cell(
                r,
                origin.retained_record,
                table,
                "copyName"@,
                CellModel::Text(encode_utf8(label)),
            )
        }),
{
    reveal(import_rows::image_choice);
    lemma_column(r, origin, table, "copyName"@);
    let (names, values) = proofs::columns(r, origin, table)->Ok_0;
    match proofs::column(names, values, "copyName"@) {
        Some(CellModel::Text(bytes)) => {
            if bytes.len() > 0 {
                decode_utf8_encode_utf8(bytes);
                if label.len() == 0 {
                    assert(encode_utf8(label).len() == 0);
                }
            } else {
                assert(bytes =~= Seq::empty());
            }
        },
        _ => {},
    }
}

/// The label of an image without a name of its own.
pub open spec fn is_plain_label(label: Seq<char>, master: bool) -> bool {
    if master {
        label == "Original"@
    } else {
        label == "Virtual copy"@
    }
}

/// A source image that is registered for the first time becomes an image of the original that
/// its importer mapped its file to. A master is one only where its row proves it, and a virtual
/// copy only under an image that its row proves. The decision is kept with the image, and the
/// source row is known to be imported as that image.
pub proof fn law_registered_images_are_of_their_file(
    before: Catalog,
    after: Catalog,
    request: images::Projection,
    sealed: bool,
    out: images::ProjectionResult,
    file: proofs::Link,
    role: Role,
    label: String,
)
    requires
        image_laws::images_keyed(before.tables@),
        images::image_projected(
            before,
            after,
            request,
            sealed,
            Ok::<images::ProjectionResult, MigrationError>(out),
        ),
        request.decision == (Decision::Register { file, role, label }),
        forall|k: int|
            0 <= k < before.migration.images@.rows.len() ==> (
            #[trigger] before.migration.images@.rows[k]).source_identity
                != request.origin@.source.identity,
    ensures
        sealed,
        request.origin@.source.table == "Adobe_images"@,
        file@.field == "rootFile"@,
        file@.target.source.table == "AgLibraryFile"@,
        role is Master ==> exists|cell: CellModel|
            #[trigger] has_cell(
                before.migration.retained@,
                request.origin@.retained_record,
                request.retained_table,
                "masterImage"@,
                cell,
            ) && names_none(cell),
        role matches Role::Virtual { master } ==> master@.field == "masterImage"@
            && master@.target.source.table == "Adobe_images"@ && exists|cell: CellModel|
            #[trigger] has_cell(
                before.migration.retained@,
                request.origin@.retained_record,
                request.retained_table,
                "masterImage"@,
                cell,
            ) && !names_none(cell),
        out@.outcome matches OutcomeModel::Image { id, key } && {
            &&& exists|k: int|
                0 <= k < before.migration.images@.originals.len() && (
                #[trigger] before.migration.images@.originals[k]).source_identity
                    == file@.target.source.identity
                    && before.migration.images@.originals[k].import_source
                    == request.import_source@ && before.migration.images@.originals[k].asset_id
                    == key.asset_id
            &&& exists|x: int|
                0 <= x < after.tables@.import_map.len() && (
                #[trigger] after.tables@.import_map[x]).import_source == request.import_source@
                    && after.tables@.import_map[x].capture_revision
                    == request.origin@.source.capture_revision
                    && after.tables@.import_map[x].source_table == request.origin@.source.table
                    && after.tables@.import_map[x].source_id == request.origin@.source.identity
                    && after.tables@.import_map[x].image_id == id
            &&& after.migration.images@.rows.len() == before.migration.images@.rows.len() + 1
            &&& after.migration.images@.rows.last().source_identity
                == request.origin@.source.identity
            &&& after.migration.images@.rows.last().owner == request.import_source@
            &&& after.migration.images@.rows.last().result.outcome == out@.outcome
        },
{
    let m = before.tables@;
    let r = before.migration.retained@;
    let p = before.migration.images@;
    let identity = request.origin@.source.identity;
    support::lemma_first_where(p.rows, images::projection_of(identity));
    if let Some(k) = p.projection_at(identity) {
        assert(p.rows[k].source_identity == identity);
    }
    let digest = images::request_outcome(r, request)->Ok_0;
    let resolved = images::resolve_outcome(m, r, p, request, file, role, label@, sealed)->Ok_0;
    let (made, fi, fv) = choose|
        made: register::ImportImageRequest,
        fresh_image: Seq<char>,
        fresh_variant: Seq<char>,
    |
        images::is_image_request(m, request, digest, resolved, made)
            && crate::outside::canonical_uuid(fresh_image) && crate::outside::canonical_uuid(
            fresh_variant,
        ) && match #[trigger] images::registered(
            m,
            p,
            request,
            digest,
            made,
            fresh_image,
            fresh_variant,
        ) {
            Err(e) => Ok::<images::ProjectionResult, MigrationError>(out) == Err::<
                images::ProjectionResult,
                MigrationError,
            >(e) && after == before,
            Ok((tables, images, result)) => out@ == result && after.tables@ == tables
                && after.migration.images@ == images,
        };
    support::lemma_first_where(p.originals, images::original_of(file@.target.source.identity));
    let o = p.original_at(file@.target.source.identity)->Some_0;
    assert(p.originals[o].source_identity == file@.target.source.identity);
    lemma_column(r, request.origin@, request.retained_table, "masterImage"@);
    let (tables, image) = register::register_outcome(m, made, fi, fv)->Ok_0;
    lemma_registered(m, made, fi, fv);
    let x = choose|x: int|
        0 <= x < tables.import_map.len() && image_laws::is_mapping(
            #[trigger] tables.import_map[x],
            made,
            image.id,
        );
    assert(after.tables@.import_map[x].import_source == request.import_source@);
}

proof fn lemma_registered(
    m: TablesModel,
    made: register::ImportImageRequest,
    fi: Seq<char>,
    fv: Seq<char>,
)
    requires
        image_laws::images_keyed(m),
    ensures
        register::register_outcome(m, made, fi, fv) matches Ok((after, image)) ==> {
            &&& image.key.asset_id == made.asset_id@
            &&& exists|x: int|
                0 <= x < after.import_map.len() && image_laws::is_mapping(
                    #[trigger] after.import_map[x],
                    made,
                    image.id,
                )
        },
{
    if let Ok((after, image)) = register::register_outcome(m, made, fi, fv) {
        let q = lookups::mapping_for(
            made.import_source@,
            made.capture_revision@,
            made.source_table@,
            made.source_id@,
        );
        support::lemma_first_where(m.import_map, q);
        match m.mapping_at(
            made.import_source@,
            made.capture_revision@,
            made.source_table@,
            made.source_id@,
        ) {
            Some(x) => {
                support::lemma_first_where(
                    m.images,
                    lookups::image_with_id(m.import_map[x].image_id),
                );
                assert(image_laws::is_mapping(after.import_map[x], made, image.id));
            },
            None => {
                if image_laws::is_known(m, made) {
                    let x = choose|x: int|
                        0 <= x < m.import_map.len() && (#[trigger] m.import_map[x]).import_source
                            == made.import_source@ && m.import_map[x].capture_revision
                            == made.capture_revision@ && m.import_map[x].source_table
                            == made.source_table@ && m.import_map[x].source_id == made.source_id@;
                    assert(q(m.import_map[x]));
                }
                if made.claim_reserved_master {
                    image_laws::law_only_owners_claim_reserved_masters(m, made, fi, fv);
                } else {
                    image_laws::law_new_imports_are_as_requested(m, made, fi, fv);
                }
                assert(image_laws::is_mapping(
                    after.import_map[after.import_map.len() - 1],
                    made,
                    image.id,
                ));
            },
        }
    }
}

/// A file's metadata is imported only where the importer mapped the file to an original, each
/// stage for the one origin that it is about. What supplements it is what the policy gives for
/// that capture, file and origin, where it gives anything.
pub proof fn law_file_stages_are_for_one_origin(
    r: RetainedModel,
    p: ProjectionsModel,
    input: Seq<char>,
    policy: importer::PolicyModel,
    from: SourceRecordModel,
    stage: Stage,
    rowids: Seq<i64>,
    retained_path: i64,
    origin: Origin,
    packet_records: Seq<i64>,
    supplement: Option<Seq<char>>,
)
    requires
        import_rows::file_choice(r, p, input, policy, from, stage, rowids) == Ok::<
            FileChoice,
            MigrationError,
        >(FileChoice::Project { retained_path, origin, packet_records, supplement }),
    ensures
        has_original(p, from.source.identity, policy.import_source),
        stage == Stage::FileEmbedded <==> origin == Origin::Embedded,
        stage == Stage::FileSidecarXmp <==> origin == Origin::SidecarXmp,
        stage == Stage::FileSidecarUpper <==> origin == Origin::SidecarUpper,
        stage == Stage::FileAppendedXmp <==> origin == Origin::AppendedXmp,
        stage == Stage::FileAppendedUpper <==> origin == Origin::AppendedUpper,
        exists|i: int|
            #[trigger] is_record(r, i, retained_path) && r.records[i].collection == Collection::Paths
                && r.records[i].input == input && r.records[i].revision
                == from.source.capture_revision,
        packet_records.len() == rowids.len(),
        forall|k: int|
            0 <= k < rowids.len() ==> is_packet(
                r,
                input,
                from.source.capture_revision,
                rowids[k],
                #[trigger] packet_records[k],
            ),
        exists|source_id: Seq<char>|
            #[trigger] row_says(r, from.retained_record, source_id) && match supplement {
                Some(evidence) => exists|k: int|
                    0 <= k < policy.supplements.len() && is_supplement(
                        #[trigger] policy.supplements[k],
                        from.source.capture_revision,
                        source_id,
                        origin,
                    ) && policy.supplements[k].evidence == evidence,
                None => forall|k: int|
                    0 <= k < policy.supplements.len() ==> !is_supplement(
                        #[trigger] policy.supplements[k],
                        from.source.capture_revision,
                        source_id,
                        origin,
                    ),
            },
{
    lemma_original(p, from.source.identity, policy.import_source);
    let revision = from.source.capture_revision;
    let (row, source_id) = proofs::source_proof(r, from)->Ok_0;
    support::lemma_first_where(r.records, retained::record_at(from.retained_record));
    lemma_text(r.records[row], "source_id"@, source_id);
    assert(is_record(r, row, from.retained_record));
    assert(row_says(r, from.retained_record, source_id));
    let at = import_rows::path_of(r, input, revision, source_id)->Ok_0->Some_0;
    lemma_hit(r, input, revision, Query::PathsBySource(source_id), 0);
    assert(is_record(r, at, retained_path));
    lemma_packets(r, input, revision, rowids, rowids.len());
    let q = import_rows::supplements_file(revision, source_id, origin);
    support::lemma_first_where(policy.supplements, q);
    match support::first_where(policy.supplements, q) {
        Some(k) => {
            assert(is_supplement(policy.supplements[k], revision, source_id, origin));
        },
        None => {
            assert forall|k: int| 0 <= k < policy.supplements.len() implies !is_supplement(
                #[trigger] policy.supplements[k],
                revision,
                source_id,
                origin,
            ) by {
                assert(!q(policy.supplements[k]));
            }
        },
    }
}

/// What a policy gives to supplement the metadata of a file.
pub open spec fn is_supplement(
    s: importer::SupplementInputModel,
    revision: Seq<char>,
    source_id: Seq<char>,
    origin: Origin,
) -> bool {
    s.capture_revision == revision && s.source_id == source_id && s.origin == origin
}

/// The record of a row says which source row it is of.
pub open spec fn row_says(r: RetainedModel, sequence: i64, source_id: Seq<char>) -> bool {
    exists|i: int|
        #[trigger] is_record(r, i, sequence) && record_laws::record_holds(
            r.records[i],
            "source_id"@,
            source_id,
        )
}

/// A record is that of a packet's row.
pub open spec fn is_packet(
    r: RetainedModel,
    input: Seq<char>,
    revision: Seq<char>,
    rowid: i64,
    sequence: i64,
) -> bool {
    exists|i: int|
        #[trigger] is_record(r, i, sequence) && r.records[i].complete && r.records[i].collection
            == Collection::Packets && r.records[i].source_rowid == rowid && r.records[i].input
            == input && r.records[i].revision == revision
}

proof fn lemma_hit(r: RetainedModel, input: Seq<char>, revision: Seq<char>, q: Query, k: int)
    requires
        0 <= k < r.hits(input, revision, q, None).len(),
    ensures
        ({
            let i = r.hits(input, revision, q, None)[k];
            &&& 0 <= i < r.records.len()
            &&& r.records[i].complete
            &&& r.records[i].input == input
            &&& r.records[i].revision == revision
            &&& q is PathsBySource ==> r.records[i].collection == Collection::Paths
            &&& q matches Query::Packets { source_id, origin } ==> r.records[i].collection
                == Collection::Packets && record_laws::record_holds(
                r.records[i],
                "source_id"@,
                source_id,
            ) && (origin matches Some(o) ==> record_laws::record_holds(
                r.records[i],
                "origin"@,
                o,
            ))
        }),
{
    let h = retained::hit(input, revision, q, None);
    record_laws::lemma_positions(r.records, h, r.records.len());
    let i = r.hits(input, revision, q, None)[k];
    assert(h(r.records[i]));
    record_laws::law_lookups_find_what_they_name(r.records[i], input, revision, q, None);
}

proof fn lemma_text(x: retained::RecordModel, name: Seq<char>, text: Seq<char>)
    requires
        exists|cap: nat| #[trigger] x.field_text(name, cap) == Ok::<Seq<char>, MigrationError>(text),
    ensures
        record_laws::record_holds(x, name, text),
{
    let cap = choose|cap: nat|
        #[trigger] x.field_text(name, cap) == Ok::<Seq<char>, MigrationError>(text);
    decode_utf8_encode_utf8(x.field_bytes(name, cap)->Ok_0);
    record_laws::lemma_says(x, name, text);
}

proof fn lemma_packets(
    r: RetainedModel,
    input: Seq<char>,
    revision: Seq<char>,
    rowids: Seq<i64>,
    n: nat,
)
    requires
        n <= rowids.len(),
    ensures
        import_rows::packets_of(r, input, revision, rowids, n) matches Ok(xs) ==> xs.len() == n
            && forall|k: int|
            0 <= k < n ==> is_packet(r, input, revision, rowids[k], #[trigger] xs[k]),
    decreases n,
{
    if n > 0 {
        lemma_packets(r, input, revision, rowids, (n - 1) as nat);
        if let Ok(xs) = import_rows::packets_of(r, input, revision, rowids, n) {
            let q = import_rows::packet_row(input, revision, rowids[n - 1]);
            support::lemma_first_where(r.records, q);
            let i = support::first_where(r.records, q)->Some_0;
            assert(is_record(r, i, xs[n - 1]));
        }
    }
}

/// Only metadata that is embedded in a file is taken as surely the file's; a sidecar's is left
/// unresolved. What is asked for is of the row, the importer and the origin that were given.
pub proof fn law_only_embedded_metadata_is_surely_the_files(
    request: file_metadata::Projection,
    from: SourceRecordModel,
    owner: Seq<char>,
    retained_path: i64,
    kind: Origin,
    packet_records: Seq<i64>,
)
    requires
        import_rows::asks_file(request, from, owner, retained_path, kind, packet_records),
    ensures
        request.association is Confirmed <==> kind == Origin::Embedded,
        request.association is Unresolved <==> kind != Origin::Embedded,
        request.origin == kind,
        request.file@ == from,
        request.import_source@ == owner,
        request.retained_path == retained_path,
        request.packet_records@ == packet_records,
{
}

/// An image of an importer is known for a source row.
pub open spec fn is_mapped(
    m: TablesModel,
    owner: Seq<char>,
    source: proofs::SourceKeyModel,
) -> bool {
    exists|x: int|
        0 <= x < m.import_map.len() && (#[trigger] m.import_map[x]).import_source == owner
            && m.import_map[x].capture_revision == source.capture_revision
            && m.import_map[x].source_table == source.table && m.import_map[x].source_id
            == source.identity
}

proof fn lemma_mapped(m: TablesModel, owner: Seq<char>, source: proofs::SourceKeyModel)
    ensures
        is_mapped(m, owner, source) <==> m.mapping_at(
            owner,
            source.capture_revision,
            source.table,
            source.identity,
        ) is Some,
{
    let q = lookups::mapping_for(owner, source.capture_revision, source.table, source.identity);
    support::lemma_first_where(m.import_map, q);
    if is_mapped(m, owner, source) {
        let x = choose|x: int|
            0 <= x < m.import_map.len() && (#[trigger] m.import_map[x]).import_source == owner
                && m.import_map[x].capture_revision == source.capture_revision
                && m.import_map[x].source_table == source.table && m.import_map[x].source_id
                == source.identity;
        assert(q(m.import_map[x]));
    }
    if let Some(x) = m.mapping_at(
        owner,
        source.capture_revision,
        source.table,
        source.identity,
    ) {
        assert(m.import_map[x].import_source == owner);
    }
}

/// An image's current settings are taken from the row that its column developSettingsIDCache
/// leads to, at the place that was asked for, only for a source row that was imported as an
/// image, and only onto an image that was not edited.
pub proof fn law_current_settings_are_those_of_the_image(
    m: TablesModel,
    r: RetainedModel,
    input: Seq<char>,
    owner: Seq<char>,
    origin: SourceRecordModel,
    path: Seq<Seq<char>>,
)
    ensures
        !is_mapped(m, owner, origin.source) ==> (import_rows::develop_choice(
            m,
            r,
            input,
            owner,
            origin,
            path,
        ) matches Ok(MetadataChoice::Keep(_))),
        import_rows::develop_choice(m, r, input, owner, origin, path) matches Ok(
            MetadataChoice::CurrentDevelop {
                image_table,
                settings_table,
                settings,
                settings_path,
                expected_edit_revision,
            },
        ) ==> {
            &&& is_mapped(m, owner, origin.source)
            &&& settings.field == "developSettingsIDCache"@
            &&& settings_path == path
            &&& expected_edit_revision == 0
        },
        !(import_rows::develop_choice(m, r, input, owner, origin, path) matches Ok(
            MetadataChoice::CatalogXmp { .. },
        )),
{
    lemma_mapped(m, owner, origin.source);
}

/// A packet that the source's catalog held is taken for the image that its column image leads
/// to, only where that row was imported as an image, and it is the one packet of the row.
pub proof fn law_catalog_packets_are_those_of_their_image(
    m: TablesModel,
    r: RetainedModel,
    input: Seq<char>,
    owner: Seq<char>,
    origin: SourceRecordModel,
)
    ensures
        import_rows::packet_choice(m, r, input, owner, origin) matches Ok(
            MetadataChoice::CatalogXmp { retained_table, packet_record, image },
        ) ==> {
            &&& image.field == "image"@
            &&& is_mapped(m, owner, image.target.source)
            &&& exists|i: int|
                #[trigger] is_record(r, i, packet_record) && r.records[i].collection
                    == Collection::Packets && r.records[i].input == input && r.records[i].revision
                    == origin.source.capture_revision && record_laws::record_holds(
                    r.records[i],
                    "origin"@,
                    "catalog"@,
                )
        },
{
    if let Ok(MetadataChoice::CatalogXmp { retained_table, packet_record, image }) =
        import_rows::packet_choice(m, r, input, owner, origin) {
        lemma_mapped(m, owner, image.target.source);
        let revision = origin.source.capture_revision;
        let (_, source_id) = proofs::source_proof(r, origin)->Ok_0;
        let q = Query::Packets { source_id, origin: Some("catalog"@) };
        let hits = r.hits(input, revision, q, None);
        lemma_hit(r, input, revision, q, 0);
        assert(is_record(r, hits[0], packet_record));
    }
}

/// A source file that was decided on is not decided on again: the decision stands for its own
/// importer, and another importer's is refused.
pub proof fn law_decided_files_are_their_importers(
    r: RetainedModel,
    p: ProjectionsModel,
    input: Seq<char>,
    owner: Seq<char>,
    origin: SourceRecordModel,
    k: int,
)
    requires
        0 <= k < p.originals.len(),
        p.originals[k].source_identity == origin.source.identity,
        forall|j: int|
            0 <= j < k ==> (#[trigger] p.originals[j]).source_identity != origin.source.identity,
    ensures
        p.originals[k].import_source == owner ==> import_rows::original_choice(
            r,
            p,
            input,
            owner,
            origin,
        ) == Ok::<OriginalChoice, MigrationError>(OriginalChoice::Decided(p.originals[k].decision)),
        p.originals[k].import_source != owner ==> import_rows::original_choice(
            r,
            p,
            input,
            owner,
            origin,
        ) is Err,
{
    support::lemma_first_found(p.originals, images::original_of(origin.source.identity), k);
}

} // verus!

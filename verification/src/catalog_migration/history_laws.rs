//! The laws of pages of evidence: where their relations lead on, and whose they are.
use crate::catalog_images;
use crate::catalog_metadata::edit;
use crate::catalog_migration::descriptor_laws;
use crate::catalog_migration::history;
use crate::catalog_migration::history::{AnchorModel, CursorModel, Direction, Hop, PageModel, RawRowModel, RelationModel, Root, ScopeModel, MAX_HOPS, PAGE_RELATIONS};
use crate::catalog_migration::images;
use crate::catalog_migration::proofs;
use crate::catalog_migration::retained;
use crate::catalog_migration::retained::{Compatibility, MigrationError, Query, RecordModel, RetainedModel};
use crate::outside;
use crate::support;
use crate::tables::TablesModel;
use vstd::prelude::*;
use vstd::utf8::*;

verus! {

/// What was read with so many bytes read before can be read with fewer, at the same
/// cost.
pub open spec fn cheaper<T>(
    at: Result<(T, nat), MigrationError>,
    used: nat,
    earlier: Result<(T, nat), MigrationError>,
    less: nat,
) -> bool {
    at matches Ok((x, after)) ==> after >= used && earlier == Ok::<(T, nat), MigrationError>(
        (x, (less + (after - used)) as nat),
    )
}

proof fn lemma_row_cheaper(s: ScopeModel, used: nat, less: nat, entity: i64)
    requires
        less <= used,
    ensures
        cheaper(s.row(used, entity), used, s.row(less, entity), less),
{
    if let Ok((e, used1)) = s.record(used, entity) {
        let less1 = (less + (used1 - used)) as nat;
        assert(s.record(less, entity) == Ok::<(int, nat), MigrationError>((e, less1)));
        if let Ok(source_id) = s.text(e, "source_id"@) {
            if let Ok(sequence) = s.unique(Query::RowsBySource(source_id)) {
                if let Ok((i, used2)) = s.record(used1, sequence) {
                    let less2 = (less1 + (used2 - used1)) as nat;
                    assert(s.record(less1, sequence) == Ok::<(int, nat), MigrationError>(
                        (i, less2),
                    ));
                }
            }
        }
    }
}

proof fn lemma_optional_cheaper(s: ScopeModel, used: nat, less: nat, entity: Result<i64, Compatibility>)
    requires
        less <= used,
    ensures
        cheaper(s.optional_row(used, entity), used, s.optional_row(less, entity), less),
{
    if let Ok(id) = entity {
        lemma_row_cheaper(s, used, less, id);
    }
}

proof fn lemma_walk_cheaper(
    s: ScopeModel,
    used: nat,
    less: nat,
    hits: Seq<int>,
    source_id: Seq<char>,
    field: Seq<char>,
    table: Seq<char>,
    n: nat,
)
    requires
        less <= used,
    ensures
        cheaper(
            s.group_walk(used, hits, source_id, field, table, n),
            used,
            s.group_walk(less, hits, source_id, field, table, n),
            less,
        ),
    decreases n,
{
    if n > 0 {
        lemma_walk_cheaper(s, used, less, hits, source_id, field, table, (n - 1) as nat);
    }
}

proof fn lemma_endpoints_cheaper(s: ScopeModel, used: nat, less: nat, reference: i64)
    requires
        less <= used,
    ensures
        cheaper(s.endpoints(used, reference), used, s.endpoints(less, reference), less),
{
    reveal(ScopeModel::endpoints);
    if let Ok((i, used1)) = s.record(used, reference) {
        let less1 = (less + (used1 - used)) as nat;
        match (
            s.text(i, "source_id"@),
            s.text(i, "field"@),
            s.text(i, "target_table"@),
            s.text(i, "target_key"@),
        ) {
            (Ok(source_id), Ok(field), Ok(table), Ok(target_key)) => {
                let q = Query::References {
                    source_id,
                    field: Some(field),
                    target_table: Some(table),
                };
                let hits = s.retained.hits(s.input, s.revision, q, None);
                lemma_walk_cheaper(s, used1, less1, hits, source_id, field, table, hits.len());
                assert(cheaper(
                    s.group_target(used1, source_id, field, table),
                    used1,
                    s.group_target(less1, source_id, field, table),
                    less1,
                ));
                let from = s.unique(Query::EntitiesBySource(source_id));
                let to = s.unique(
                    Query::EntitiesByLocalKey { table_name: table, local_key: target_key },
                );
                if let Ok((_, used2)) = s.group_target(used1, source_id, field, table) {
                    let less2 = (less1 + (used2 - used1)) as nat;
                    lemma_optional_cheaper(s, used2, less2, from);
                    if let Ok((_, used3)) = s.optional_row(used2, from) {
                        let less3 = (less2 + (used3 - used2)) as nat;
                        lemma_optional_cheaper(s, used3, less3, to);
                    }
                }
            },
            _ => {},
        }
    }
}

proof fn lemma_owner_cheaper(s: ScopeModel, used: nat, less: nat, next: RawRowModel, root: RawRowModel)
    requires
        less <= used,
    ensures
        cheaper(s.settings_owner(used, next, root), used, s.settings_owner(less, next, root), less),
{
    reveal(ScopeModel::settings_owner);
    let q = Query::References {
        source_id: next.source_id,
        field: Some("image"@),
        target_table: Some("Adobe_images"@),
    };
    let hits = s.retained.hits(s.input, s.revision, q, None);
    if hits.len() > 0 {
        lemma_endpoints_cheaper(s, used, less, s.retained.records[hits[0]].sequence);
    }
}

/// The row that a shown relation leads to.
pub open spec fn far_row(relation: RelationModel, direction: Direction) -> Option<RawRowModel> {
    match direction {
        Direction::Incoming => relation.source,
        Direction::Outgoing => relation.target,
    }
}

/// A shown relation leads on, from an anchor, only where it can be relied upon; then
/// its own anchor has this one hop more and comes to the relation's far row.
pub open spec fn leads_on(
    m: TablesModel,
    r: RetainedModel,
    p: images::ProjectionsModel,
    anchor: AnchorModel,
    direction: Direction,
    relation: RelationModel,
) -> bool {
    match relation.anchor {
        None => true,
        Some(a) => {
            &&& relation.compatibility == Compatibility::RetainedOnly
            &&& a == (AnchorModel {
                hops: anchor.hops.push(
                    Hop { reference: relation.reference_record, direction },
                ),
                ..anchor
            })
            &&& history::resolution(m, r, p, a) matches Ok((_, row, _)) && far_row(
                relation,
                direction,
            ) == Some(row)
        },
    }
}

proof fn lemma_path_prefix(s: ScopeModel, root: Root, hops: Seq<Hop>, longer: Seq<Hop>, n: nat)
    requires
        n <= hops.len() <= longer.len(),
        forall|i: int| 0 <= i < hops.len() ==> #[trigger] longer[i] == hops[i],
    ensures
        history::path(s, root, longer, n) == history::path(s, root, hops, n),
    decreases n,
{
    if n > 0 {
        lemma_path_prefix(s, root, hops, longer, (n - 1) as nat);
        assert(longer[n - 1] == hops[n - 1]);
    }
}

proof fn lemma_shown(
    m: TablesModel,
    r: RetainedModel,
    p: images::ProjectionsModel,
    anchor: AnchorModel,
    direction: Direction,
    used: nat,
    reference: i64,
)
    requires
        history::resolution(m, r, p, anchor) matches Ok((_, _, before)) && before <= used,
    ensures
        ({
            let (root, row, _) = history::resolution(m, r, p, anchor)->Ok_0;
            let s = ScopeModel { retained: r, input: root.input, revision: root.revision };
            history::relation_shown(s, root, anchor, row, direction, used, reference) matches Ok(
                (relation, after),
            ) ==> after >= used && relation.reference_record == reference && leads_on(
                m,
                r,
                p,
                anchor,
                direction,
                relation,
            )
        }),
{
    let (root, row, before) = history::resolution(m, r, p, anchor)->Ok_0;
    let s = ScopeModel { retained: r, input: root.input, revision: root.revision };
    let hop = Hop { reference, direction };
    let hops = anchor.hops.push(hop);
    let child = AnchorModel { hops, ..anchor };
    reveal(history::relation_shown);
    reveal(history::hopped);
    lemma_endpoints_cheaper(s, used, before, reference);
    assert(s.endpoints(used, reference) matches Ok((found, _)) ==> found.reference_record
        == reference && found.anchor is None) by {
        reveal(ScopeModel::endpoints);
    }
    if let Ok((found, used1)) = s.endpoints(used, reference) {
        let before1 = (before + (used1 - used)) as nat;
        if let Some(next) = history::following(row, found, direction) {
            lemma_owner_cheaper(s, used1, before1, next, root.row);
            lemma_path_prefix(s, root, anchor.hops, hops, anchor.hops.len());
            assert(hops[hops.len() - 1] == hop);
            assert(history::path(s, root, hops, hops.len()) == history::hopped(
                s,
                root,
                row,
                before,
                hop,
            ));
        }
    }
}

proof fn lemma_all_shown(
    m: TablesModel,
    r: RetainedModel,
    p: images::ProjectionsModel,
    anchor: AnchorModel,
    direction: Direction,
    used: nat,
    hits: Seq<int>,
    n: nat,
)
    requires
        history::resolution(m, r, p, anchor) matches Ok((_, _, before)) && before <= used,
        n <= hits.len(),
    ensures
        ({
            let (root, row, _) = history::resolution(m, r, p, anchor)->Ok_0;
            let s = ScopeModel { retained: r, input: root.input, revision: root.revision };
            history::relations_shown(s, root, anchor, row, direction, used, hits, n) matches Ok(
                (relations, after),
            ) ==> after >= used && relations.len() == n && forall|k: int|
                0 <= k < n ==> (#[trigger] relations[k]).reference_record
                    == r.records[hits[k]].sequence && leads_on(
                    m,
                    r,
                    p,
                    anchor,
                    direction,
                    relations[k],
                )
        }),
    decreases n,
{
    let (root, row, _) = history::resolution(m, r, p, anchor)->Ok_0;
    let s = ScopeModel { retained: r, input: root.input, revision: root.revision };
    if n > 0 {
        lemma_all_shown(m, r, p, anchor, direction, used, hits, (n - 1) as nat);
        if let Ok((_, used1)) = history::relations_shown(
            s,
            root,
            anchor,
            row,
            direction,
            used,
            hits,
            (n - 1) as nat,
        ) {
            lemma_shown(m, r, p, anchor, direction, used1, r.records[hits[n - 1]].sequence);
        }
    }
}

/// A page shows no more relations than it was asked for and than a page may hold, and
/// claims no rendering. Each relation leads on only where it can be relied upon, and
/// then by one hop more, to the row that it shows.
pub proof fn law_pages_lead_on_by_one_hop(
    m: TablesModel,
    r: RetainedModel,
    p: images::ProjectionsModel,
    anchor: AnchorModel,
    direction: Direction,
    cursor: Option<CursorModel>,
    limit: nat,
    page: PageModel,
)
    requires
        history::evidence_page(m, r, p, anchor, direction, cursor, limit) == Ok::<
            PageModel,
            MigrationError,
        >(page),
    ensures
        page.relations.len() <= limit <= PAGE_RELATIONS,
        !page.adobe_rendering_equivalent,
        forall|k: int|
            0 <= k < page.relations.len() ==> leads_on(
                m,
                r,
                p,
                anchor,
                direction,
                #[trigger] page.relations[k],
            ),
{
    let (root, row, used) = history::resolution(m, r, p, anchor)->Ok_0;
    let s = ScopeModel { retained: r, input: root.input, revision: root.revision };
    let after = match cursor {
        Some(c) => Some(c.lookup),
        None => None,
    };
    let (q, used1) = history::relation_query(s, used, row, direction)->Ok_0;
    let hits = r.page_hits(root.input, root.revision, q, after, limit);
    lemma_all_shown(m, r, p, anchor, direction, used1, hits, hits.len());
}

/// An anchor of too many hops, or that does not start where the history of its
/// variant's image starts, gives no page.
pub proof fn law_foreign_anchors_give_no_page(
    m: TablesModel,
    r: RetainedModel,
    p: images::ProjectionsModel,
    anchor: AnchorModel,
    direction: Direction,
    cursor: Option<CursorModel>,
    limit: nat,
)
    requires
        anchor.hops.len() > MAX_HOPS || !(history::root_of(m, r, p, anchor.variant) matches Ok(root)
            && anchor.input == root.input && anchor.root == root.record),
    ensures
        history::evidence_page(m, r, p, anchor, direction, cursor, limit) is Err,
{
}

/// A page keeps to the history it was asked for: its anchor starts where the history of
/// the variant's image starts and is not too long, it shows no more relations than asked
/// for and than a page may hold, it claims no rendering, and each relation leads on by
/// one hop, and only where it can be relied upon.
pub open spec fn keeps_to_history(
    m: TablesModel,
    r: RetainedModel,
    p: images::ProjectionsModel,
    anchor: AnchorModel,
    direction: Direction,
    limit: nat,
    page: PageModel,
) -> bool {
    &&& anchor.hops.len() <= MAX_HOPS
    &&& history::root_of(m, r, p, anchor.variant) matches Ok(root) && anchor.input == root.input
        && anchor.root == root.record
    &&& page.anchor == anchor
    &&& page.relations.len() <= limit <= PAGE_RELATIONS
    &&& !page.adobe_rendering_equivalent
    &&& forall|k: int|
        0 <= k < page.relations.len() ==> leads_on(
            m,
            r,
            p,
            anchor,
            direction,
            #[trigger] page.relations[k],
        )
    &&& forall|k: int|
        0 <= k < page.relations.len() && (#[trigger] page.relations[k]).compatibility
            != Compatibility::RetainedOnly ==> page.relations[k].anchor is None
}

/// Every page of evidence keeps to the history it was asked for.
pub proof fn law_every_page_keeps_to_its_history(
    m: TablesModel,
    r: RetainedModel,
    p: images::ProjectionsModel,
    anchor: AnchorModel,
    direction: Direction,
    cursor: Option<CursorModel>,
    limit: nat,
)
    ensures
        history::evidence_page(m, r, p, anchor, direction, cursor, limit) matches Ok(page)
            ==> keeps_to_history(m, r, p, anchor, direction, limit, page),
{
    if let Ok(page) = history::evidence_page(m, r, p, anchor, direction, cursor, limit) {
        law_pages_lead_on_by_one_hop(m, r, p, anchor, direction, cursor, limit, page);
        if anchor.hops.len() > MAX_HOPS || !(history::root_of(m, r, p, anchor.variant) matches Ok(
            root,
        ) && anchor.input == root.input && anchor.root == root.record) {
            law_foreign_anchors_give_no_page(m, r, p, anchor, direction, cursor, limit);
        }
        assert forall|k: int|
            0 <= k < page.relations.len() && (#[trigger] page.relations[k]).compatibility
                != Compatibility::RetainedOnly implies page.relations[k].anchor is None by {
            assert(leads_on(m, r, p, anchor, direction, page.relations[k]));
        }
    }
}

/// The anchor that the evidence of a variant's image starts from.
pub open spec fn start_anchor(key: catalog_images::VariantKeyModel, root: Root) -> AnchorModel {
    AnchorModel { variant: key, input: root.input, root: root.record, hops: Seq::empty() }
}

/// A cursor goes on only where it was given: with another anchor, such as that of
/// another variant, or in another direction it is refused. Anchors are told apart by
/// their digests.
pub proof fn law_cursors_stay_with_their_anchor(
    m: TablesModel,
    r: RetainedModel,
    p: images::ProjectionsModel,
    anchor: AnchorModel,
    direction: Direction,
    cursor: Option<CursorModel>,
    limit: nat,
    page: PageModel,
    other: AnchorModel,
    way: Direction,
    more: nat,
)
    requires
        history::evidence_page(m, r, p, anchor, direction, cursor, limit) == Ok::<
            PageModel,
            MigrationError,
        >(page),
        page.next is Some,
        history::anchor_token(other) != history::anchor_token(anchor) || way != direction,
    ensures
        history::evidence_page(m, r, p, other, way, page.next, more) is Err,
{
}

/// What an anchor's document holds behind its variant.
spec fn behind_variant(a: AnchorModel) -> Seq<char> {
    "},\"input\":"@ + (outside::json_text(a.input)->0 + (",\"root\":"@ + (edit::signed_text(a.root)
        + (",\"hops\":["@ + (history::hops_document(a.hops, a.hops.len()) + "]}"@)))))
}

proof fn lemma_anchor_parts(a: AnchorModel)
    requires
        history::anchor_document(a) is Some,
    ensures
        history::anchor_document(a)->0 == "{\"variant\":{\"asset_id\":"@ + (outside::json_text(
            a.variant.asset_id,
        )->0 + (",\"variant_id\":"@ + (outside::json_text(a.variant.variant_id)->0
            + behind_variant(a)))),
{
    let asset = outside::json_text(a.variant.asset_id)->0;
    let variant = outside::json_text(a.variant.variant_id)->0;
    let input = outside::json_text(a.input)->0;
    let root = edit::signed_text(a.root);
    let hops = history::hops_document(a.hops, a.hops.len());
    let s0 = "{\"variant\":{\"asset_id\":"@ + asset;
    let s1 = s0 + ",\"variant_id\":"@;
    let s2 = s1 + variant;
    let s3 = s2 + "},\"input\":"@;
    let s4 = s3 + input;
    let s5 = s4 + ",\"root\":"@;
    let s6 = s5 + root;
    let s7 = s6 + ",\"hops\":["@;
    let t7 = hops + "]}"@;
    let t6 = ",\"hops\":["@ + t7;
    let t5 = root + t6;
    let t4 = ",\"root\":"@ + t5;
    let t3 = input + t4;
    descriptor_laws::lemma_joined(s7, hops, "]}"@);
    descriptor_laws::lemma_joined(s6, ",\"hops\":["@, t7);
    descriptor_laws::lemma_joined(s5, root, t6);
    descriptor_laws::lemma_joined(s4, ",\"root\":"@, t5);
    descriptor_laws::lemma_joined(s3, input, t4);
    descriptor_laws::lemma_joined(s2, "},\"input\":"@, t3);
    descriptor_laws::lemma_joined(s1, variant, behind_variant(a));
    descriptor_laws::lemma_joined(s0, ",\"variant_id\":"@, variant + behind_variant(a));
    descriptor_laws::lemma_joined(
        "{\"variant\":{\"asset_id\":"@,
        asset,
        ",\"variant_id\":"@ + (variant + behind_variant(a)),
    );
}

/// Anchors of different variants are written differently.
pub proof fn law_variants_have_anchors_of_their_own(a: AnchorModel, b: AnchorModel)
    requires
        a.variant != b.variant,
        history::anchor_document(a) is Some,
        history::anchor_document(b) is Some,
    ensures
        encode_utf8(history::anchor_document(a)->0) != encode_utf8(history::anchor_document(b)->0),
{
    if encode_utf8(history::anchor_document(a)->0) == encode_utf8(history::anchor_document(b)->0) {
        encode_utf8_decode_utf8(history::anchor_document(a)->0);
        encode_utf8_decode_utf8(history::anchor_document(b)->0);
        lemma_anchor_parts(a);
        lemma_anchor_parts(b);
        let x = ",\"variant_id\":"@ + (outside::json_text(a.variant.variant_id)->0
            + behind_variant(a));
        let y = ",\"variant_id\":"@ + (outside::json_text(b.variant.variant_id)->0
            + behind_variant(b));
        descriptor_laws::lemma_same_part(
            "{\"variant\":{\"asset_id\":"@,
            outside::json_text(a.variant.asset_id)->0 + x,
            outside::json_text(b.variant.asset_id)->0 + y,
        );
        descriptor_laws::lemma_string(a.variant.asset_id, x, b.variant.asset_id, y);
        descriptor_laws::lemma_same_part(
            ",\"variant_id\":"@,
            outside::json_text(a.variant.variant_id)->0 + behind_variant(a),
            outside::json_text(b.variant.variant_id)->0 + behind_variant(b),
        );
        descriptor_laws::lemma_string(
            a.variant.variant_id,
            behind_variant(a),
            b.variant.variant_id,
            behind_variant(b),
        );
    }
}

/// Two byte strings with the same digest are the same.
pub open spec fn no_collision(a: Seq<u8>, b: Seq<u8>) -> bool {
    outside::blake3_hex(a) == outside::blake3_hex(b) ==> a == b
}

/// A cursor that was given for one variant is refused for every other, unless what their
/// anchors are written as has the same digest.
pub proof fn law_cursors_of_other_variants_are_refused(
    m: TablesModel,
    r: RetainedModel,
    p: images::ProjectionsModel,
    anchor: AnchorModel,
    direction: Direction,
    cursor: Option<CursorModel>,
    limit: nat,
    page: PageModel,
    other: AnchorModel,
    way: Direction,
    more: nat,
)
    requires
        history::evidence_page(m, r, p, anchor, direction, cursor, limit) == Ok::<
            PageModel,
            MigrationError,
        >(page),
        page.next is Some,
        other.variant != anchor.variant,
        no_collision(
            encode_utf8(history::anchor_document(anchor)->0),
            encode_utf8(history::anchor_document(other)->0),
        ),
    ensures
        history::evidence_page(m, r, p, other, way, page.next, more) is Err,
{
    if history::anchor_document(anchor) is Some && history::anchor_document(other) is Some {
        law_variants_have_anchors_of_their_own(anchor, other);
    }
    law_cursors_stay_with_their_anchor(
        m,
        r,
        p,
        anchor,
        direction,
        cursor,
        limit,
        page,
        other,
        way,
        more,
    );
}

proof fn lemma_says(rec: RecordModel, name: Seq<char>, value: Seq<char>, cap: nat)
    requires
        rec.says(name, value),
    ensures
        rec.typed_text(name, cap) matches Ok(text) ==> text == value,
{
    encode_utf8_decode_utf8(value);
}

proof fn lemma_positions<T>(s: Seq<T>, p: spec_fn(T) -> bool, n: nat)
    requires
        n <= s.len(),
    ensures
        forall|k: int|
            #![trigger support::positions(s, p, n)[k]]
            0 <= k < support::positions(s, p, n).len() ==> 0 <= support::positions(s, p, n)[k] < n
                && p(s[support::positions(s, p, n)[k]]),
    decreases n,
{
    if n > 0 {
        lemma_positions(s, p, (n - 1) as nat);
        let before = support::positions(s, p, (n - 1) as nat);
        assert forall|k: int|
            #![trigger support::positions(s, p, n)[k]]
            0 <= k < support::positions(s, p, n).len() implies 0 <= support::positions(s, p, n)[k]
            < n && p(s[support::positions(s, p, n)[k]]) by {
            if k < before.len() {
                assert(support::positions(s, p, n)[k] == before[k]);
            }
        }
    }
}

/// Every record has a number of its own.
pub open spec fn numbered_apart(r: RetainedModel) -> bool {
    forall|i: int, j: int|
        0 <= i < j < r.records.len() ==> (#[trigger] r.records[i]).sequence != (
        #[trigger] r.records[j]).sequence
}

proof fn lemma_numbered(r: RetainedModel, i: int)
    requires
        numbered_apart(r),
        0 <= i < r.records.len(),
        r.records[i].complete,
    ensures
        r.record_of(r.records[i].sequence) == Some(i),
{
    let sequence = r.records[i].sequence;
    assert forall|j: int| 0 <= j < i implies !retained::record_at(sequence)(
        #[trigger] r.records[j],
    ) by {
        assert(r.records[j].sequence != r.records[i].sequence);
    }
    support::lemma_first_found(r.records, retained::record_at(sequence), i);
}

/// What refers to an imported image is listed for that image alone: each relation of a
/// page of its evidence points at the row of its own source image.
pub proof fn law_variant_pages_name_their_image(
    m: TablesModel,
    r: RetainedModel,
    p: images::ProjectionsModel,
    key: catalog_images::VariantKeyModel,
    root: Root,
    cursor: Option<CursorModel>,
    limit: nat,
    page: PageModel,
)
    requires
        numbered_apart(r),
        history::root_of(m, r, p, key) == Ok::<Root, MigrationError>(root),
        history::evidence_page(
            m,
            r,
            p,
            start_anchor(key, root),
            Direction::Incoming,
            cursor,
            limit,
        ) == Ok::<PageModel, MigrationError>(page),
    ensures
        ({
            let s = ScopeModel { retained: r, input: root.input, revision: root.revision };
            s.local_key(root.used, root.row) matches Ok((own, _)) && forall|k: int|
                0 <= k < page.relations.len() ==> (#[trigger] page.relations[k]).target_table
                    == "Adobe_images"@ && page.relations[k].target_key == own
        }),
{
    let anchor = start_anchor(key, root);
    let s = ScopeModel { retained: r, input: root.input, revision: root.revision };
    let after = match cursor {
        Some(c) => Some(c.lookup),
        None => None,
    };
    lemma_root_table(m, r, p, key, root);
    let (q, used1) = history::relation_query(s, root.used, root.row, Direction::Incoming)->Ok_0;
    let (own, _) = s.local_key(root.used, root.row)->Ok_0;
    let all = r.hits(root.input, root.revision, q, after);
    let hits = r.page_hits(root.input, root.revision, q, after, limit);
    let test = retained::hit(root.input, root.revision, q, after);
    lemma_positions(r.records, test, r.records.len());
    assert forall|k: int| 0 <= k < hits.len() implies {
        &&& 0 <= #[trigger] hits[k] < r.records.len()
        &&& test(r.records[hits[k]])
    } by {
        assert(hits[k] == all[k]);
    }
    lemma_targets(s, root, anchor, root.row, used1, hits, hits.len(), own);
}

/// A page shows what points at the row of one source image, and nothing else.
pub open spec fn names_own_image(r: RetainedModel, root: Root, page: PageModel) -> bool {
    let s = ScopeModel { retained: r, input: root.input, revision: root.revision };
    s.local_key(root.used, root.row) matches Ok((own, _)) && forall|k: int|
        0 <= k < page.relations.len() ==> (#[trigger] page.relations[k]).target_table
            == "Adobe_images"@ && page.relations[k].target_key == own
}

/// The evidence of a variant's image stays with that variant: each relation of a page
/// points at the row of its own source image, and the page's cursor is refused for every
/// other variant, unless what their anchors are written as has the same digest.
pub proof fn law_variant_evidence_stays_with_its_variant(
    m: TablesModel,
    r: RetainedModel,
    p: images::ProjectionsModel,
    key: catalog_images::VariantKeyModel,
    root: Root,
    cursor: Option<CursorModel>,
    limit: nat,
    page: PageModel,
    other: catalog_images::VariantKeyModel,
    other_root: Root,
    more: nat,
)
    requires
        numbered_apart(r),
        history::root_of(m, r, p, key) == Ok::<Root, MigrationError>(root),
        history::evidence_page(
            m,
            r,
            p,
            start_anchor(key, root),
            Direction::Incoming,
            cursor,
            limit,
        ) == Ok::<PageModel, MigrationError>(page),
        other != key,
        no_collision(
            encode_utf8(history::anchor_document(start_anchor(key, root))->0),
            encode_utf8(history::anchor_document(start_anchor(other, other_root))->0),
        ),
    ensures
        names_own_image(r, root, page),
        page.next is Some ==> history::evidence_page(
            m,
            r,
            p,
            start_anchor(other, other_root),
            Direction::Incoming,
            page.next,
            more,
        ) is Err,
{
    law_variant_pages_name_their_image(m, r, p, key, root, cursor, limit, page);
    if page.next is Some {
        law_cursors_of_other_variants_are_refused(
            m,
            r,
            p,
            start_anchor(key, root),
            Direction::Incoming,
            cursor,
            limit,
            page,
            start_anchor(other, other_root),
            Direction::Incoming,
            more,
        );
    }
}

proof fn lemma_targets(
    s: ScopeModel,
    root: Root,
    anchor: AnchorModel,
    row: RawRowModel,
    used: nat,
    hits: Seq<int>,
    n: nat,
    own: Seq<char>,
)
    requires
        numbered_apart(s.retained),
        n <= hits.len(),
        forall|k: int|
            0 <= k < hits.len() ==> 0 <= #[trigger] hits[k] < s.retained.records.len()
                && s.retained.records[hits[k]].complete
                && s.retained.records[hits[k]].says("target_table"@, "Adobe_images"@)
                && s.retained.records[hits[k]].says("target_key"@, own),
    ensures
        history::relations_shown(s, root, anchor, row, Direction::Incoming, used, hits, n) matches Ok(
            (relations, _),
        ) ==> forall|k: int|
            0 <= k < relations.len() ==> (#[trigger] relations[k]).target_table
                == "Adobe_images"@ && relations[k].target_key == own,
    decreases n,
{
    if n > 0 {
        lemma_targets(s, root, anchor, row, used, hits, (n - 1) as nat, own);
        let i = hits[n - 1];
        let rec = s.retained.records[i];
        lemma_numbered(s.retained, i);
        lemma_says(rec, "target_table"@, "Adobe_images"@, proofs::IDENTITY_BYTES as nat);
        lemma_says(rec, "target_key"@, own, proofs::IDENTITY_BYTES as nat);
        reveal(history::relation_shown);
        reveal(ScopeModel::endpoints);
    }
}

/// The history of an image starts at a row of images.
proof fn lemma_root_table(
    m: TablesModel,
    r: RetainedModel,
    p: images::ProjectionsModel,
    key: catalog_images::VariantKeyModel,
    root: Root,
)
    requires
        numbered_apart(r),
        history::root_of(m, r, p, key) == Ok::<Root, MigrationError>(root),
    ensures
        root.row.source.table == "Adobe_images"@,
{
    reveal(history::root_of);
    let s = ScopeModel { retained: r, input: root.input, revision: root.revision };
    let (i, used) = s.record(0, root.record)->Ok_0;
    let source_id = s.text(i, "source_id"@)->Ok_0;
    let entity = s.unique(Query::EntitiesBySource(source_id))->Ok_0;
    let (row, used1) = s.row(used, entity)->Ok_0;
    let (local_key, _) = s.local_key(used1, row)->Ok_0;
    let q = Query::EntitiesByLocalKey { table_name: "Adobe_images"@, local_key };
    assert(s.unique(q) == Ok::<i64, Compatibility>(entity));
    let test = retained::hit(s.input, s.revision, q, None);
    lemma_positions(r.records, test, r.records.len());
    let at = r.hits(s.input, s.revision, q, None)[0];
    assert(test(r.records[at]));
    lemma_numbered(r, at);
    lemma_says(r.records[at], "table_name"@, "Adobe_images"@, proofs::IDENTITY_BYTES as nat);
}

} // verus!

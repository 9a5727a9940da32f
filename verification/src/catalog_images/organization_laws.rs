//! What organizing images leaves, told by the rows: where collections stand, which images are
//! in them and in what order, and which images are tied to each other.
use crate::catalog_images;
use crate::catalog_images::collection_order_index::Membership;
use crate::catalog_images::image_laws;
use crate::catalog_images::organization;
use crate::catalog_images::organization::{ImageMembership, ImageRelation, OrganizationModel, PlacementModel};
use crate::catalog_images::VariantKey;
use crate::catalog_metadata::export_laws;
use crate::lookups;
use crate::ordering;
use crate::support;
use crate::tables::TablesModel;
use vstd::prelude::*;

verus! {

/// There is a collection.
pub open spec fn has_collection(o: OrganizationModel, id: Seq<char>) -> bool {
    exists|i: int| 0 <= i < o.collections.len() && (#[trigger] o.collections[i]).id == id
}

/// No two collections have one identity.
pub open spec fn collections_keyed(o: OrganizationModel) -> bool {
    forall|i: int, j: int|
        0 <= i < j < o.collections.len() ==> (#[trigger] o.collections[i]).id != (
        #[trigger] o.collections[j]).id
}

proof fn lemma_collection(o: OrganizationModel, id: Seq<char>)
    ensures
        has_collection(o, id) <==> o.collection_at(id) is Some,
{
    let q = organization::collection_with_id(id);
    support::lemma_first_where(o.collections, q);
    if has_collection(o, id) {
        let i = choose|i: int|
            0 <= i < o.collections.len() && (#[trigger] o.collections[i]).id == id;
        assert(q(o.collections[i]));
    }
    if let Some(i) = o.collection_at(id) {
        assert(o.collections[i].id == id);
    }
}

/// A collection is placed only where it and its parent are there and the parent is another
/// collection. It then stands under that parent, at that position, with its revision taken up by
/// one; every other collection stands where it stood.
pub proof fn law_collections_are_placed_where_asked(o: OrganizationModel, p: PlacementModel)
    requires
        collections_keyed(o),
        o.placement_refusal(p) is None,
    ensures
        p.position >= 0,
        has_collection(o, p.collection),
        p.parent matches Some(parent) ==> parent != p.collection && has_collection(o, parent),
        ({
            let after = o.placed(p);
            &&& exists|s: int|
                0 <= s < after.structure.len() && (#[trigger] after.structure[s]).collection
                    == p.collection && after.structure[s].parent == p.parent
                    && after.structure[s].position == p.position
            &&& forall|s: int|
                0 <= s < o.structure.len() && (#[trigger] o.structure[s]).collection != p.collection
                    ==> after.structure[s] == o.structure[s]
            &&& forall|s: int|
                o.structure.len() <= s < after.structure.len() ==> (
                #[trigger] after.structure[s]).collection == p.collection
            &&& after.structure.len() >= o.structure.len()
            &&& after.collections.len() == o.collections.len()
            &&& forall|i: int|
                0 <= i < o.collections.len() ==> (#[trigger] after.collections[i]).id
                    == o.collections[i].id && after.collections[i].revision == if o.collections[i].id
                    == p.collection {
                    o.collections[i].revision + 1
                } else {
                    o.collections[i].revision as int
                }
            &&& after.relations == o.relations
            &&& after.synonyms == o.synonyms
            &&& after.keywords == o.keywords
            &&& after.flags == o.flags
        }),
{
    lemma_collection(o, p.collection);
    if let Some(parent) = p.parent {
        lemma_collection(o, parent);
    }
    let after = o.placed(p);
    let q = organization::structure_of(p.collection);
    support::lemma_first_where(o.structure, q);
    let s = match o.structure_at(p.collection) {
        Some(s) => s,
        None => o.structure.len() as int,
    };
    assert(after.structure[s].collection == p.collection);
    let cq = organization::collection_with_id(p.collection);
    support::lemma_first_where(o.collections, cq);
    let c = o.collection_at(p.collection)->Some_0;
    assert forall|i: int| 0 <= i < o.collections.len() implies (#[trigger] after.collections[i]).id
        == o.collections[i].id && after.collections[i].revision == if o.collections[i].id
        == p.collection {
        o.collections[i].revision + 1
    } else {
        o.collections[i].revision as int
    } by {
        if i < c {
            assert(o.collections[i].id != o.collections[c].id);
        } else if c < i {
            assert(o.collections[c].id != o.collections[i].id);
        }
    }
}

/// A collection is not placed under itself, at a negative position, or under or as a collection
/// that is not there.
pub proof fn law_impossible_placements_are_refused(o: OrganizationModel, p: PlacementModel)
    requires
        p.position < 0 || !has_collection(o, p.collection) || p.parent == Some(p.collection) || (
        p.parent matches Some(parent) && !has_collection(o, parent)),
    ensures
        o.placement_refusal(p) is Some,
{
    lemma_collection(o, p.collection);
    if let Some(parent) = p.parent {
        lemma_collection(o, parent);
    }
}

/// An image's membership of a collection is there, with where it comes from.
pub open spec fn has_member(
    ms: Membership,
    collection: Seq<char>,
    sequence: i64,
    provenance: Seq<char>,
) -> bool {
    exists|i: int|
        0 <= i < ms.members@.len() && (#[trigger] ms.members@[i]).collection@ == collection
            && ms.members@[i].sequence == sequence && ms.members@[i].provenance@ == provenance
}

/// An image's explicit position in a collection is there.
pub open spec fn has_position(ms: Membership, collection: Seq<char>, sequence: i64, position: i64) -> bool {
    exists|i: int|
        0 <= i < ms.order@.len() && (#[trigger] ms.order@[i]).collection@ == collection
            && ms.order@[i].image_sequence == sequence && ms.order@[i].position == position
}

/// No image is twice in a collection, or has two positions in it.
pub open spec fn members_keyed(ms: Membership) -> bool {
    &&& forall|i: int, j: int|
        0 <= i < j < ms.members@.len() && (#[trigger] ms.members@[i]).collection@ == (
        #[trigger] ms.members@[j]).collection@ ==> ms.members@[i].sequence != ms.members@[j].sequence
    &&& forall|i: int, j: int|
        0 <= i < j < ms.order@.len() && (#[trigger] ms.order@[i]).collection@ == (
        #[trigger] ms.order@[j]).collection@ ==> ms.order@[i].image_sequence
            != ms.order@[j].image_sequence
}

proof fn lemma_member(ms: Membership, collection: Seq<char>, sequence: i64, provenance: Seq<char>)
    requires
        members_keyed(ms),
    ensures
        has_member(ms, collection, sequence, provenance) <==> ms.provenance_of(
            (collection, sequence),
        ) == Some(provenance),
{
    let q = catalog_images::collection_order_index::member_at((collection, sequence));
    support::lemma_first_where(ms.members@, q);
    let found = support::first_where(ms.members@, q);
    if has_member(ms, collection, sequence, provenance) {
        let i = choose|i: int|
            0 <= i < ms.members@.len() && (#[trigger] ms.members@[i]).collection@ == collection
                && ms.members@[i].sequence == sequence && ms.members@[i].provenance@ == provenance;
        assert(q(ms.members@[i]));
        let f = found->Some_0;
        if f < i {
            assert(ms.members@[f].sequence != ms.members@[i].sequence);
        } else if i < f {
            assert(!q(ms.members@[i]));
        }
    }
    if let Some(f) = found {
        assert(ms.members@[f].collection@ == collection);
    }
}

proof fn lemma_position(ms: Membership, collection: Seq<char>, sequence: i64, position: i64)
    requires
        members_keyed(ms),
    ensures
        has_position(ms, collection, sequence, position) <==> ms.position_of((collection, sequence))
            == Some(position),
{
    let q = catalog_images::collection_order_index::order_at((collection, sequence));
    support::lemma_first_where(ms.order@, q);
    let found = support::first_where(ms.order@, q);
    if has_position(ms, collection, sequence, position) {
        let i = choose|i: int|
            0 <= i < ms.order@.len() && (#[trigger] ms.order@[i]).collection@ == collection
                && ms.order@[i].image_sequence == sequence && ms.order@[i].position == position;
        assert(q(ms.order@[i]));
        let f = found->Some_0;
        if f < i {
            assert(ms.order@[f].image_sequence != ms.order@[i].image_sequence);
        } else if i < f {
            assert(!q(ms.order@[i]));
        }
    }
    if let Some(f) = found {
        assert(ms.order@[f].collection@ == collection);
    }
}

/// An image that was put into a collection is in it with where that comes from, at the position
/// that was asked for; all other memberships and positions stay as they were.
pub proof fn law_members_are_put_where_asked(
    before: Membership,
    after: Membership,
    collection: Seq<char>,
    sequence: i64,
    position: i64,
    evidence: Seq<char>,
    c: Seq<char>,
    s: i64,
    e: Seq<char>,
    p: i64,
)
    requires
        members_keyed(before),
        members_keyed(after),
        organization::member_put(before, after, (collection, sequence), position, evidence),
    ensures
        has_member(after, collection, sequence, evidence),
        has_position(after, collection, sequence, position),
        c != collection || s != sequence ==> (has_member(after, c, s, e) <==> has_member(
            before,
            c,
            s,
            e,
        )) && (has_position(after, c, s, p) <==> has_position(before, c, s, p)),
{
    lemma_member(after, collection, sequence, evidence);
    lemma_position(after, collection, sequence, position);
    assert(after.provenance_of((collection, sequence)) == Some(evidence));
    assert(after.position_of((collection, sequence)) == Some(position));
    lemma_member(after, c, s, e);
    lemma_member(before, c, s, e);
    lemma_position(after, c, s, p);
    lemma_position(before, c, s, p);
    assert(c != collection || s != sequence ==> after.provenance_of((c, s))
        == before.provenance_of((c, s)));
    assert(c != collection || s != sequence ==> after.position_of((c, s)) == before.position_of(
        (c, s),
    ));
}

/// An image that is given another one's memberships is in every collection that the other one is
/// in, as the other one is and at its position; what any other image is in stays.
pub proof fn law_copies_are_in_the_same_collections(
    before: Membership,
    after: Membership,
    from: i64,
    to: i64,
    c: Seq<char>,
    s: i64,
    e: Seq<char>,
    p: i64,
)
    requires
        members_keyed(before),
        members_keyed(after),
        before.shared_with(after, from, to),
    ensures
        has_member(before, c, from, e) ==> has_member(after, c, to, e),
        has_position(before, c, from, p) ==> has_position(after, c, to, p),
        s != to ==> (has_member(after, c, s, e) <==> has_member(before, c, s, e)) && (has_position(
            after,
            c,
            s,
            p,
        ) <==> has_position(before, c, s, p)),
{
    lemma_member(before, c, from, e);
    lemma_member(after, c, to, e);
    lemma_position(before, c, from, p);
    lemma_position(after, c, to, p);
    lemma_member(before, c, s, e);
    lemma_member(after, c, s, e);
    lemma_position(before, c, s, p);
    lemma_position(after, c, s, p);
    assert((c, to).1 == to);
    assert(after.provenance_of((c, to)) == if before.provenance_of((c, from)) is Some {
        before.provenance_of((c, from))
    } else {
        before.provenance_of((c, to))
    });
    assert(after.position_of((c, to)) == if before.position_of((c, from)) is Some {
        before.position_of((c, from))
    } else {
        before.position_of((c, to))
    });
    assert(s != to ==> after.provenance_of((c, s)) == before.provenance_of((c, s)));
    assert(s != to ==> after.position_of((c, s)) == before.position_of((c, s)));
}

/// A membership is shown on a collection's page: the image of that number, the membership's
/// provenance, and the explicit position or else zero.
pub open spec fn shows_member(
    m: TablesModel,
    ms: Membership,
    collection: Seq<char>,
    x: (i64, organization::MembershipModel),
    r: int,
    i: int,
) -> bool {
    &&& 0 <= r < ms.members@.len()
    &&& 0 <= i < m.images.len()
    &&& ms.members@[r].collection@ == collection
    &&& ms.members@[r].sequence == x.0
    &&& ms.members@[r].provenance@ == x.1.provenance
    &&& m.images[i].sequence == x.0
    &&& m.images[i].asset_id == x.1.key.asset_id
    &&& m.images[i].variant_id == x.1.key.variant_id
    &&& is_place(ms, collection, x.0, x.1.position)
}

/// Where an image stands in a collection: at its explicit position, or at zero without one.
pub open spec fn is_place(ms: Membership, collection: Seq<char>, sequence: i64, position: i64) -> bool {
    has_position(ms, collection, sequence, position) || (position == 0 && forall|p: i64|
        !#[trigger] has_position(ms, collection, sequence, p))
}

/// A membership is shown.
pub open spec fn is_shown_member(
    m: TablesModel,
    ms: Membership,
    collection: Seq<char>,
    x: (i64, organization::MembershipModel),
) -> bool {
    exists|r: int, i: int| #[trigger] shows_member(m, ms, collection, x, r, i)
}

proof fn lemma_place(ms: Membership, collection: Seq<char>, sequence: i64, position: i64)
    requires
        members_keyed(ms),
    ensures
        is_place(ms, collection, sequence, position) <==> ms.effective_position(
            (collection, sequence),
        ) == position,
{
    lemma_position(ms, collection, sequence, position);
    match ms.position_of((collection, sequence)) {
        Some(p) => lemma_position(ms, collection, sequence, p),
        None => {
            assert forall|p: i64| !#[trigger] has_position(ms, collection, sequence, p) by {
                lemma_position(ms, collection, sequence, p);
            }
        },
    }
}

/// A page of a collection shows its images that come after a cursor, in ascending order of
/// their positions and then of their numbers, each as it is in the collection. None is passed
/// over: an image of the collection that comes after the cursor is shown, unless the page is
/// full and it comes after all that are.
pub proof fn law_collections_show_their_images_in_order(
    m: TablesModel,
    ms: Membership,
    collection: Seq<char>,
    after: (i64, i64),
    limit: nat,
    rows: Seq<(i64, ImageMembership)>,
    r: int,
    position: i64,
)
    requires
        members_keyed(ms),
        organization::is_member_page(m, ms, collection, after, limit, rows),
    ensures
        rows.len() <= limit,
        forall|i: int|
            0 <= i < rows.len() ==> is_shown_member(
                m,
                ms,
                collection,
                ((#[trigger] rows[i]).0, rows[i].1@),
            ) && (after.0 < rows[i].1@.position || (after.0 == rows[i].1@.position && after.1
                < rows[i].0)),
        forall|i: int, j: int|
            0 <= i < j < rows.len() ==> (#[trigger] rows[i]).1@.position < (
            #[trigger] rows[j]).1@.position || (rows[i].1@.position == rows[j].1@.position
                && rows[i].0 < rows[j].0),
        0 <= r < ms.members@.len() && ms.members@[r].collection@ == collection && is_place(
            ms,
            collection,
            ms.members@[r].sequence,
            position,
        ) && (exists|i: int|
            0 <= i < m.images.len() && (#[trigger] m.images[i]).sequence
                == ms.members@[r].sequence) && (after.0 < position || (after.0 == position && after.1
            < ms.members@[r].sequence)) ==> (exists|i: int|
            0 <= i < rows.len() && (#[trigger] rows[i]).0 == ms.members@[r].sequence
                && rows[i].1@.position == position) || (rows.len() == limit && forall|i: int|
            0 <= i < rows.len() ==> (#[trigger] rows[i]).1@.position < position || (
            rows[i].1@.position == position && rows[i].0 < ms.members@[r].sequence)),
{
    let keys = organization::member_keys(m, ms, collection);
    let picks = choose|picks: Seq<usize>|
        {
            &&& #[trigger] ordering::is_page::<(i64, i64)>(keys, Some(after), Some(limit), picks)
            &&& rows.len() == picks.len()
            &&& forall|i: int|
                0 <= i < rows.len() ==> (#[trigger] rows[i]).0
                    == ms.members@[picks[i] as int].sequence && rows[i].1@
                    == organization::member_view(m, ms, ms.members@[picks[i] as int])
        };
    assert forall|i: int| 0 <= i < rows.len() implies is_shown_member(
        m,
        ms,
        collection,
        ((#[trigger] rows[i]).0, rows[i].1@),
    ) && (after.0 < rows[i].1@.position || (after.0 == rows[i].1@.position && after.1 < rows[i].0))
        && keys[picks[i] as int] == Some((rows[i].1@.position, rows[i].0)) by {
        let k = picks[i] as int;
        assert(ordering::follows::<(i64, i64)>(Some(after), keys[k]));
        let row = ms.members@[k];
        assert(keys[k] == organization::listed_member(m, ms, collection, row));
        support::lemma_first_where(m.images, organization::numbered(row.sequence));
        let at = m.image_with_sequence(row.sequence)->Some_0;
        lemma_place(ms, collection, row.sequence, rows[i].1@.position);
        assert(shows_member(m, ms, collection, (rows[i].0, rows[i].1@), k, at));
    }
    assert forall|i: int, j: int| 0 <= i < j < rows.len() implies (#[trigger] rows[i]).1@.position
        < (#[trigger] rows[j]).1@.position || (rows[i].1@.position == rows[j].1@.position
        && rows[i].0 < rows[j].0) by {
        assert(keys[picks[i] as int] == Some((rows[i].1@.position, rows[i].0)));
        assert(keys[picks[j] as int] == Some((rows[j].1@.position, rows[j].0)));
        assert(<(i64, i64) as ordering::Ranked>::before(
            keys[picks[i] as int]->0,
            keys[picks[j] as int]->0,
        ));
    }
    if 0 <= r < ms.members@.len() && ms.members@[r].collection@ == collection && is_place(
        ms,
        collection,
        ms.members@[r].sequence,
        position,
    ) && (exists|i: int|
        0 <= i < m.images.len() && (#[trigger] m.images[i]).sequence == ms.members@[r].sequence) && (
    after.0 < position || (after.0 == position && after.1 < ms.members@[r].sequence)) {
        let row = ms.members@[r];
        let i = choose|i: int|
            0 <= i < m.images.len() && (#[trigger] m.images[i]).sequence == row.sequence;
        let q = organization::numbered(row.sequence);
        support::lemma_first_where(m.images, q);
        assert(q(m.images[i]));
        lemma_place(ms, collection, row.sequence, position);
        assert(keys[r] == organization::listed_member(m, ms, collection, row));
        assert(keys[r] == Some((position, row.sequence)));
        assert(ordering::follows::<(i64, i64)>(Some(after), keys[r]));
        if exists|a: int| 0 <= a < picks.len() && keys[(#[trigger] picks[a]) as int] == keys[r] {
            let a = choose|a: int|
                0 <= a < picks.len() && keys[(#[trigger] picks[a]) as int] == keys[r];
            assert(keys[picks[a] as int] == Some((rows[a].1@.position, rows[a].0)));
        } else {
            assert forall|x: int| 0 <= x < rows.len() implies (#[trigger] rows[x]).1@.position
                < position || (rows[x].1@.position == position && rows[x].0 < row.sequence) by {
                assert(keys[picks[x] as int] == Some((rows[x].1@.position, rows[x].0)));
                assert(<(i64, i64) as ordering::Ranked>::before(
                    keys[picks[x] as int]->0,
                    keys[r]->0,
                ));
            }
        }
    }
}

/// An image is put into a collection only on what is now known of it: at its recorded revision,
/// with its pixels and its physical file as they are now. The collection has to be there and the
/// position not negative.
pub proof fn law_members_are_put_on_what_is_known(
    m: TablesModel,
    o: OrganizationModel,
    i: int,
    a: int,
    expected: catalog_images::IdentityModel,
    collection: Seq<char>,
    position: i64,
    evidence: Seq<char>,
)
    requires
        image_laws::images_keyed(m),
        0 <= i < m.images.len(),
        m.images[i].id == expected.image_id,
        0 <= a < m.assets.len(),
        m.assets[a].id == m.images[i].asset_id,
        forall|b: int| 0 <= b < a ==> (#[trigger] m.assets[b]).id != m.assets[a].id,
        organization::membership_refusal(m, o, expected, collection, position, evidence) is None,
    ensures
        position >= 0,
        has_collection(o, collection),
        export_laws::records_revision(m, expected.image_id, expected.metadata_revision),
        expected.pixel_generation == m.images[i].pixel_generation,
        expected.key.asset_id == m.images[i].asset_id,
        expected.key.variant_id == m.images[i].variant_id,
        expected.physical_generation == m.assets[a].physical_generation,
        expected.shared_source_epoch == m.assets[a].shared_epoch,
        m.images[i].applied_shared_epoch == m.assets[a].shared_epoch,
{
    image_laws::lemma_image(m, i);
    lemma_collection(o, collection);
    support::lemma_first_found(m.assets, lookups::asset_with_id(m.images[i].asset_id), a);
    export_laws::lemma_recorded(m, expected.image_id, expected.metadata_revision);
}

/// A relation is retained as it was asked for, between the images of the two variants, under a
/// key of its own: there is one with its number and all that was said of it, and those that
/// were there stay. The same key never comes to stand for anything else.
pub proof fn law_relations_are_retained_as_asked(
    m: TablesModel,
    o: OrganizationModel,
    source_key: Seq<char>,
    kind: Seq<char>,
    from: catalog_images::VariantKeyModel,
    to: catalog_images::VariantKeyModel,
    position: i64,
    evidence: Seq<char>,
)
    ensures
        organization::relation_outcome(m, o, source_key, kind, from, to, position, evidence) matches Ok(
            (after, number),
        ) ==> {
            &&& position >= 0
            &&& exists|x: int, i: int, j: int|
                0 <= x < after.relations.len() && #[trigger] image_laws::is_variant(
                    m,
                    i,
                    from.asset_id,
                    from.variant_id,
                ) && #[trigger] image_laws::is_variant(m, j, to.asset_id, to.variant_id) && (
                #[trigger] after.relations[x]).sequence == number && after.relations[x].source_key
                    == source_key && after.relations[x].kind == kind && after.relations[x].from_image
                    == m.images[i].id && after.relations[x].to_image == m.images[j].id
                    && after.relations[x].position == position && after.relations[x].provenance
                    == evidence
            &&& o.relations.len() <= after.relations.len()
            &&& forall|x: int|
                0 <= x < o.relations.len() ==> #[trigger] after.relations[x] == o.relations[x]
            &&& (exists|x: int|
                0 <= x < o.relations.len() && (#[trigger] o.relations[x]).source_key == source_key)
                ==> after == o
        },
{
    if let Ok((after, number)) = organization::relation_outcome(
        m,
        o,
        source_key,
        kind,
        from,
        to,
        position,
        evidence,
    ) {
        image_laws::lemma_variant(m, from.asset_id, from.variant_id);
        image_laws::lemma_variant(m, to.asset_id, to.variant_id);
        let i = m.image_of(from.asset_id, from.variant_id)->Some_0;
        let j = m.image_of(to.asset_id, to.variant_id)->Some_0;
        let q = organization::relation_with_key(source_key);
        support::lemma_first_where(o.relations, q);
        let x = match o.relation_at(source_key) {
            Some(x) => x,
            None => o.relations.len() as int,
        };
        assert(image_laws::is_variant(m, i, from.asset_id, from.variant_id)
            && image_laws::is_variant(m, j, to.asset_id, to.variant_id)
            && after.relations[x].sequence == number);
        if exists|y: int|
            0 <= y < o.relations.len() && (#[trigger] o.relations[y]).source_key == source_key {
            let y = choose|y: int|
                0 <= y < o.relations.len() && (#[trigger] o.relations[y]).source_key == source_key;
            assert(q(o.relations[y]));
        }
    }
}

/// A batch of variants names the image of each of them, in their order, with the revision that
/// is expected of it.
pub proof fn law_batches_name_the_images_of_their_variants(
    m: TablesModel,
    items: Seq<(VariantKey, i64)>,
    n: nat,
)
    requires
        n <= items.len(),
    ensures
        organization::batch_items(m, items, n) matches Ok(xs) ==> xs.len() == n && forall|k: int|
            0 <= k < n ==> (#[trigger] xs[k]).expected_revision == items[k].1 && names_image(
                m,
                items[k].0@,
                xs[k].asset_id,
            ),
    decreases n,
{
    if n > 0 {
        law_batches_name_the_images_of_their_variants(m, items, (n - 1) as nat);
        let key = items[n - 1].0@;
        image_laws::lemma_variant(m, key.asset_id, key.variant_id);
        if let Some(i) = m.image_of(key.asset_id, key.variant_id) {
            assert(image_laws::is_variant(m, i, key.asset_id, key.variant_id));
        }
    }
}

/// An identity is that of the image of a variant.
pub open spec fn names_image(m: TablesModel, key: catalog_images::VariantKeyModel, id: Seq<char>) -> bool {
    exists|i: int|
        #[trigger] image_laws::is_variant(m, i, key.asset_id, key.variant_id) && m.images[i].id
            == id
}

/// A relation is shown on the page of an image that it starts from.
pub open spec fn shows_relation(
    m: TablesModel,
    o: OrganizationModel,
    from: Seq<char>,
    x: organization::ImageRelationModel,
    r: int,
    j: int,
) -> bool {
    &&& 0 <= r < o.relations.len()
    &&& 0 <= j < m.images.len()
    &&& o.relations[r].from_image == from
    &&& o.relations[r].to_image == m.images[j].id
    &&& x.sequence == o.relations[r].sequence
    &&& x.kind == o.relations[r].kind
    &&& x.position == o.relations[r].position
    &&& x.provenance == o.relations[r].provenance
    &&& x.to.asset_id == m.images[j].asset_id
    &&& x.to.variant_id == m.images[j].variant_id
}

/// A relation is shown.
pub open spec fn is_shown_relation(
    m: TablesModel,
    o: OrganizationModel,
    from: Seq<char>,
    x: organization::ImageRelationModel,
) -> bool {
    exists|r: int, j: int| #[trigger] shows_relation(m, o, from, x, r, j)
}

/// A page of an image's relations shows those that start from it and come after a number, as
/// they were retained, in ascending order of their numbers, and passes none over.
pub proof fn law_relations_are_shown_in_order(
    m: TablesModel,
    o: OrganizationModel,
    i: int,
    from: catalog_images::VariantKeyModel,
    after: i64,
    limit: nat,
    rows: Seq<ImageRelation>,
    r: int,
)
    requires
        image_laws::is_variant(m, i, from.asset_id, from.variant_id),
        organization::is_relation_page(m, o, from, (after, 0), limit, rows),
    ensures
        rows.len() <= limit,
        forall|k: int|
            0 <= k < rows.len() ==> is_shown_relation(
                m,
                o,
                m.images[i].id,
                (#[trigger] rows[k])@,
            ) && after < rows[k]@.sequence && rows[k]@.from == from,
        forall|k: int, l: int|
            0 <= k < l < rows.len() ==> (#[trigger] rows[k])@.sequence < (
            #[trigger] rows[l])@.sequence,
        0 <= r < o.relations.len() && o.relations[r].from_image == m.images[i].id && after
            < o.relations[r].sequence && (exists|j: int|
            0 <= j < m.images.len() && (#[trigger] m.images[j]).id == o.relations[r].to_image) ==> (
        exists|k: int|
            0 <= k < rows.len() && (#[trigger] rows[k])@.sequence == o.relations[r].sequence) || (
        rows.len() == limit && forall|k: int|
            0 <= k < rows.len() ==> (#[trigger] rows[k])@.sequence < o.relations[r].sequence),
{
    support::lemma_first_found(
        m.images,
        lookups::image_with_key(from.asset_id, from.variant_id),
        i,
    );
    let id = m.images[i].id;
    let key = organization::relation_key(m, id);
    let keys = o.relations.map_values(key);
    let picks = choose|picks: Seq<usize>|
        {
            &&& #[trigger] ordering::is_page::<(i64, i64)>(
                keys,
                Some((after, 0i64)),
                Some(limit),
                picks,
            )
            &&& rows.len() == picks.len()
            &&& forall|k: int|
                0 <= k < rows.len() ==> (#[trigger] rows[k])@ == organization::relation_view(
                    m,
                    from,
                    o.relations[picks[k] as int],
                )
        };
    assert forall|k: int| 0 <= k < rows.len() implies is_shown_relation(
        m,
        o,
        id,
        (#[trigger] rows[k])@,
    ) && after < rows[k]@.sequence && rows[k]@.from == from && keys[picks[k] as int] == Some(
        (rows[k]@.sequence, 0i64),
    ) by {
        let x = picks[k] as int;
        assert(ordering::follows::<(i64, i64)>(Some((after, 0i64)), keys[x]));
        assert(keys[x] == key(o.relations[x]));
        support::lemma_first_where(m.images, lookups::image_with_id(o.relations[x].to_image));
        let j = m.image_at(o.relations[x].to_image)->Some_0;
        assert(shows_relation(m, o, id, rows[k]@, x, j));
    }
    assert forall|k: int, l: int| 0 <= k < l < rows.len() implies (#[trigger] rows[k])@.sequence < (
    #[trigger] rows[l])@.sequence by {
        assert(keys[picks[k] as int] == Some((rows[k]@.sequence, 0i64)));
        assert(keys[picks[l] as int] == Some((rows[l]@.sequence, 0i64)));
        assert(<(i64, i64) as ordering::Ranked>::before(
            keys[picks[k] as int]->0,
            keys[picks[l] as int]->0,
        ));
    }
    if 0 <= r < o.relations.len() && o.relations[r].from_image == id && after
        < o.relations[r].sequence && (exists|j: int|
        0 <= j < m.images.len() && (#[trigger] m.images[j]).id == o.relations[r].to_image) {
        let j = choose|j: int|
            0 <= j < m.images.len() && (#[trigger] m.images[j]).id == o.relations[r].to_image;
        let q = lookups::image_with_id(o.relations[r].to_image);
        support::lemma_first_where(m.images, q);
        assert(q(m.images[j]));
        assert(keys[r] == key(o.relations[r]));
        assert(ordering::follows::<(i64, i64)>(Some((after, 0i64)), keys[r]));
        if exists|a: int| 0 <= a < picks.len() && keys[(#[trigger] picks[a]) as int] == keys[r] {
            let a = choose|a: int|
                0 <= a < picks.len() && keys[(#[trigger] picks[a]) as int] == keys[r];
            assert(keys[picks[a] as int] == Some((rows[a]@.sequence, 0i64)));
        } else {
            assert forall|k: int| 0 <= k < rows.len() implies (#[trigger] rows[k])@.sequence
                < o.relations[r].sequence by {
                assert(keys[picks[k] as int] == Some((rows[k]@.sequence, 0i64)));
                assert(<(i64, i64) as ordering::Ranked>::before(
                    keys[picks[k] as int]->0,
                    keys[r]->0,
                ));
            }
        }
    }
}

/// A keyword's synonym is retained with where it comes from, once; those of other keywords and
/// its other synonyms stay.
pub proof fn law_synonyms_belong_to_their_keyword(
    o: OrganizationModel,
    keyword: i64,
    synonym: Seq<char>,
    evidence: Seq<char>,
)
    ensures
        organization::synonym_refusal(o, keyword, synonym, evidence) is None ==> o.keywords.contains(
            keyword,
        ) && synonym.len() > 0,
        ({
            let after = support::put(
                o.synonyms,
                organization::synonym_for(keyword, synonym),
                organization::SynonymModel { keyword, synonym, provenance: evidence },
            );
            &&& exists|x: int|
                0 <= x < after.len() && (#[trigger] after[x]).keyword == keyword && after[x].synonym
                    == synonym && after[x].provenance == evidence
            &&& forall|x: int|
                0 <= x < o.synonyms.len() && ((#[trigger] o.synonyms[x]).keyword != keyword
                    || o.synonyms[x].synonym != synonym) ==> after[x] == o.synonyms[x]
            &&& (exists|x: int|
                0 <= x < o.synonyms.len() && (#[trigger] o.synonyms[x]).keyword == keyword
                    && o.synonyms[x].synonym == synonym) ==> after.len() == o.synonyms.len()
        }),
{
    let q = organization::synonym_for(keyword, synonym);
    let row = organization::SynonymModel { keyword, synonym, provenance: evidence };
    support::lemma_first_where(o.synonyms, q);
    let after = support::put(o.synonyms, q, row);
    let x = match support::first_where(o.synonyms, q) {
        Some(x) => x,
        None => o.synonyms.len() as int,
    };
    assert(after[x].keyword == keyword);
    if exists|y: int|
        0 <= y < o.synonyms.len() && (#[trigger] o.synonyms[y]).keyword == keyword
            && o.synonyms[y].synonym == synonym {
        let y = choose|y: int|
            0 <= y < o.synonyms.len() && (#[trigger] o.synonyms[y]).keyword == keyword
                && o.synonyms[y].synonym == synonym;
        assert(q(o.synonyms[y]));
    }
}

} // verus!

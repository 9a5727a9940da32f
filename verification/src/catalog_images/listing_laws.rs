//! Which images a page lists, and which memberships can be placed and moved.
use crate::catalog_images;
use crate::catalog_images::Image;
use crate::catalog_images::collection_order_index::Membership;
use crate::catalog_images::collection_order_index;
use crate::ordering;
use crate::support;
use crate::tables;
use crate::tables::TablesModel;
use vstd::prelude::*;

verus! {

/// A listed image is as a row of an image says.
pub open spec fn lists(x: catalog_images::ImageView, row: tables::ImageModel) -> bool {
    &&& x.id == row.id
    &&& x.sequence == row.sequence
    &&& x.key.asset_id == row.asset_id
    &&& x.key.variant_id == row.variant_id
    &&& x.role == row.role
    &&& x.imported == row.imported
    &&& x.master_sequence == row.master_sequence
    &&& x.copied_from_sequence == row.copied_from_sequence
    &&& x.translation_state == row.translation_state
}

/// An image that is there, with a number behind another, is listed.
pub open spec fn is_listed(m: TablesModel, after: i64, x: catalog_images::ImageView) -> bool {
    exists|i: int|
        0 <= i < m.images.len() && lists(x, #[trigger] m.images[i]) && m.images[i].sequence > after
}

/// An image's number is among those that are listed.
pub open spec fn is_among(rows: Seq<Image>, sequence: i64) -> bool {
    exists|j: int| 0 <= j < rows.len() && (#[trigger] rows[j])@.sequence == sequence
}

/// A page of images lists no more than was asked for, each as its row says and in the order of
/// their numbers, of those that come behind a number; an image is left out only where the page is
/// full with images that come before it.
pub proof fn law_images_are_listed_in_order(m: TablesModel, after: i64, limit: nat, rows: Seq<Image>)
    requires
        catalog_images::is_image_page(m, after, limit, rows),
    ensures
        rows.len() <= limit,
        forall|j: int| 0 <= j < rows.len() ==> is_listed(m, after, (#[trigger] rows[j])@),
        forall|i: int, j: int|
            0 <= i < j < rows.len() ==> (#[trigger] rows[i])@.sequence < (
            #[trigger] rows[j])@.sequence,
        forall|i: int|
            0 <= i < m.images.len() && (#[trigger] m.images[i]).sequence > after ==> is_among(
                rows,
                m.images[i].sequence,
            ) || (rows.len() == limit && forall|j: int|
                0 <= j < rows.len() ==> (#[trigger] rows[j])@.sequence < m.images[i].sequence),
{
    let keys = m.images.map_values(catalog_images::sequence_key());
    let picks = choose|picks: Seq<usize>|
        {
            &&& #[trigger] ordering::is_page::<(i64, i64)>(
                keys,
                Some((after, 0i64)),
                Some(limit),
                picks,
            )
            &&& rows.len() == picks.len()
            &&& forall|i: int|
                0 <= i < rows.len() ==> (#[trigger] rows[i])@ == catalog_images::image_view(
                    m.images[picks[i] as int],
                )
        };
    assert forall|j: int| 0 <= j < rows.len() implies is_listed(m, after, (#[trigger] rows[j])@) by {
        let i = picks[j] as int;
        assert(keys[i] == Some((m.images[i].sequence, 0i64)));
        assert(lists(rows[j]@, m.images[i]));
    }
    assert forall|i: int, j: int| 0 <= i < j < rows.len() implies (#[trigger] rows[i])@.sequence < (
    #[trigger] rows[j])@.sequence by {
        let a = picks[i] as int;
        let b = picks[j] as int;
        assert(keys[a] == Some((m.images[a].sequence, 0i64)));
        assert(keys[b] == Some((m.images[b].sequence, 0i64)));
    }
    assert forall|i: int|
        0 <= i < m.images.len() && (#[trigger] m.images[i]).sequence > after implies is_among(
        rows,
        m.images[i].sequence,
    ) || (rows.len() == limit && forall|j: int|
        0 <= j < rows.len() ==> (#[trigger] rows[j])@.sequence < m.images[i].sequence) by {
        assert(keys[i] == Some((m.images[i].sequence, 0i64)));
        assert(ordering::follows::<(i64, i64)>(Some((after, 0i64)), keys[i]));
        if exists|a: int| 0 <= a < picks.len() && keys[(#[trigger] picks[a]) as int] == keys[i] {
            let a = choose|a: int|
                0 <= a < picks.len() && keys[(#[trigger] picks[a]) as int] == keys[i];
            assert(rows[a]@.sequence == m.images[i].sequence);
        } else {
            assert forall|j: int| 0 <= j < rows.len() implies (#[trigger] rows[j])@.sequence
                < m.images[i].sequence by {
                let b = picks[j] as int;
                assert(keys[b] == Some((m.images[b].sequence, 0i64)));
            }
        }
    }
}

/// A membership is there.
pub open spec fn belongs(x: Membership, k: ordering::Key) -> bool {
    exists|i: int|
        0 <= i < x.members@.len() && (#[trigger] x.members@[i]).collection@ == k.0
            && x.members@[i].sequence == k.1
}

/// A membership has a position of its own.
pub open spec fn is_placed(x: Membership, k: ordering::Key) -> bool {
    exists|i: int|
        0 <= i < x.order@.len() && (#[trigger] x.order@[i]).collection@ == k.0
            && x.order@[i].image_sequence == k.1
}

proof fn lemma_belongs(x: Membership, k: ordering::Key)
    ensures
        x.is_member(k) <==> belongs(x, k),
        x.position_of(k) is Some <==> is_placed(x, k),
{
    let p = collection_order_index::member_at(k);
    support::lemma_first_where(x.members@, p);
    if x.is_member(k) {
        let i = support::first_where(x.members@, p)->0;
        assert(x.members@[i].key() == k);
        assert(x.members@[i].collection@ == k.0);
    } else if belongs(x, k) {
        let i = choose|i: int|
            0 <= i < x.members@.len() && (#[trigger] x.members@[i]).collection@ == k.0
                && x.members@[i].sequence == k.1;
        assert(x.members@[i].key() == k);
        assert(!p(x.members@[i]));
    }
    let q = collection_order_index::order_at(k);
    support::lemma_first_where(x.order@, q);
    if x.position_of(k) is Some {
        let i = support::first_where(x.order@, q)->0;
        assert(x.order@[i].key() == k);
        assert(x.order@[i].collection@ == k.0);
    } else if is_placed(x, k) {
        let i = choose|i: int|
            0 <= i < x.order@.len() && (#[trigger] x.order@[i]).collection@ == k.0
                && x.order@[i].image_sequence == k.1;
        assert(x.order@[i].key() == k);
        assert(!q(x.order@[i]));
    }
}

/// Only what belongs to a collection is placed in it, and never before its start.
pub proof fn law_only_members_are_placed(x: Membership, k: ordering::Key, position: i64)
    ensures
        x.place_refusal(k, position) is None <==> position >= 0 && belongs(x, k),
{
    lemma_belongs(x, k);
}

/// A membership is moved only where it is there, has no position of its own, and nothing else
/// is in the place that it is moved to.
pub proof fn law_members_are_moved_to_free_places(x: Membership, from: ordering::Key, to: ordering::Key)
    ensures
        x.move_refusal(from, to) is None <==> belongs(x, from) && !is_placed(x, from) && (to == from
            || !belongs(x, to)),
{
    lemma_belongs(x, from);
    lemma_belongs(x, to);
}

/// A step of the maintenance is within bounds, and asks for nothing before there is anything to
/// maintain.
pub proof fn law_maintenance_steps_are_bounded(x: Membership, limit: usize)
    ensures
        x.step_refusal(limit) is None <==> limit == 0 || (limit <= 1000 && x.backfill is Some),
{
}

} // verus!

//! That no image misses a change of a shared source.
use crate::catalog_images;
use crate::catalog_images::laws;
use crate::catalog_images::refresh;
use crate::catalog_images::register;
use crate::catalog_images::upgrade;
use crate::catalog_metadata;
use crate::catalog_metadata::edit;
use crate::catalog_metadata::edit::PreparedEdit;
use crate::catalog_metadata::prepared;
use crate::catalog_metadata::scan;
use crate::catalog_metadata::scan::Look;
use crate::catalog_metadata::sources;
use crate::catalog_metadata::sources::Inspected;
use crate::catalog_metadata::store;
use crate::catalog_metadata::views;
use crate::error::CatalogError;
use crate::lookups;
use crate::support;
use crate::tables;
use crate::tables::TablesModel;
use vstd::prelude::*;

verus! {

/// A shared event brings an image to an epoch of its physical file, and has not come to
/// it yet.
pub open spec fn brings(e: tables::SharedEventModel, row: tables::ImageModel, epoch: int) -> bool {
    e.asset_id == row.asset_id && e.epoch == epoch && e.cursor < row.sequence && row.sequence
        <= e.high_water
}

/// Some event will bring an image to an epoch.
pub open spec fn awaits(m: TablesModel, row: tables::ImageModel, epoch: int) -> bool {
    exists|k: int|
        0 <= k < m.shared_events.len() && brings(#[trigger] m.shared_events[k], row, epoch)
}

/// An image is at its physical file's epoch, or awaits every epoch up to it.
pub open spec fn follows(m: TablesModel, row: tables::ImageModel) -> bool {
    m.asset_at(row.asset_id) matches Some(a) && row.applied_shared_epoch
        <= m.assets[a].shared_epoch && forall|t: int|
        row.applied_shared_epoch < t <= m.assets[a].shared_epoch ==> #[trigger] awaits(m, row, t)
}

/// An event is of a physical file that has come to the event's epoch.
pub open spec fn known(m: TablesModel, e: tables::SharedEventModel) -> bool {
    m.asset_at(e.asset_id) matches Some(a) && e.epoch <= m.assets[a].shared_epoch
}

/// Two events, one behind the other, are of different physical files or in the order
/// of their epochs.
pub open spec fn in_turn(a: tables::SharedEventModel, b: tables::SharedEventModel) -> bool {
    a.asset_id == b.asset_id ==> a.epoch < b.epoch
}

impl TablesModel {
    /// Images are numbered in their order from one on, every image is at its file's
    /// epoch or awaits what is missing, and every file's events are in turn.
    pub open spec fn epochs_wf(self) -> bool {
        &&& forall|i: int|
            0 <= i < self.images.len() ==> 0 < (#[trigger] self.images[i]).sequence
                <= self.image_high && follows(self, self.images[i])
        &&& forall|i: int, j: int|
            0 <= i < j < self.images.len() ==> (#[trigger] self.images[i]).sequence < (
            #[trigger] self.images[j]).sequence
        &&& forall|k: int|
            0 <= k < self.shared_events.len() ==> known(self, #[trigger] self.shared_events[k])
        &&& forall|k: int, l: int|
            0 <= k < l < self.shared_events.len() ==> in_turn(
                #[trigger] self.shared_events[k],
                #[trigger] self.shared_events[l],
            )
        &&& 0 <= self.image_high
    }
}

/// Every image is at its physical file's epoch.
pub open spec fn settled(m: TablesModel) -> bool {
    forall|i: int|
        0 <= i < m.images.len() ==> (m.asset_at((#[trigger] m.images[i]).asset_id) matches Some(a)
            && m.images[i].applied_shared_epoch == m.assets[a].shared_epoch)
}

/// Once no shared event is left, every image is at its physical file's epoch.
pub proof fn law_images_are_current_once_no_event_is_left(m: TablesModel)
    requires
        m.epochs_wf(),
        m.shared_events.len() == 0,
    ensures
        settled(m),
{
    assert forall|i: int| 0 <= i < m.images.len() implies (m.asset_at(
        (#[trigger] m.images[i]).asset_id,
    ) matches Some(a) && m.images[i].applied_shared_epoch == m.assets[a].shared_epoch) by {
        let row = m.images[i];
        let a = m.asset_at(row.asset_id)->0;
        if row.applied_shared_epoch < m.assets[a].shared_epoch {
            assert(awaits(m, row, m.assets[a].shared_epoch as int));
        }
    }
}

proof fn lemma_high_water(images: Seq<tables::ImageModel>, asset: Seq<char>, i: int)
    requires
        0 <= i < images.len(),
        images[i].asset_id == asset,
    ensures
        images[i].sequence <= refresh::high_water(images, asset),
    decreases images.len(),
{
    if i < images.len() - 1 {
        assert(images.drop_last()[i] == images[i]);
        lemma_high_water(images.drop_last(), asset, i);
    }
}

/// Announcing a change to all images of a physical file leaves none out.
pub proof fn law_announcements_reach_every_image(
    m: TablesModel,
    asset: Seq<char>,
    source: i64,
    observation: Option<i64>,
)
    requires
        m.epochs_wf(),
    ensures
        m.enqueued(asset, source, observation) matches Ok(after) ==> after.epochs_wf(),
{
    if let Ok(after) = m.enqueued(asset, source, observation) {
        let a = m.asset_at(asset)->0;
        support::lemma_first_where(m.assets, lookups::asset_with_id(asset));
        assert forall|id: Seq<char>| #[trigger] after.asset_at(id) == m.asset_at(id) by {
            support::lemma_replaced(m.assets, after.assets, a, lookups::asset_with_id(id));
        }
        let e = after.shared_events.last();
        let n = m.shared_events.len() as int;
        assert(after.shared_events[n] == e);
        assert forall|i: int| 0 <= i < after.images.len() implies 0 < (
        #[trigger] after.images[i]).sequence <= after.image_high && follows(
            after,
            after.images[i],
        ) by {
            let row = m.images[i];
            assert(follows(m, row));
            let b = m.asset_at(row.asset_id)->0;
            support::lemma_first_where(m.assets, lookups::asset_with_id(row.asset_id));
            assert forall|t: int|
                row.applied_shared_epoch < t <= after.assets[b].shared_epoch implies #[trigger] awaits(
                after,
                row,
                t,
            ) by {
                if t <= m.assets[b].shared_epoch {
                    assert(awaits(m, row, t));
                    let k = choose|k: int|
                        0 <= k < n && brings(#[trigger] m.shared_events[k], row, t);
                    assert(brings(after.shared_events[k], row, t));
                } else {
                    lemma_high_water(m.images, asset, i);
                    assert(brings(after.shared_events[n], row, t));
                }
            }
        }
        assert forall|k: int| 0 <= k < after.shared_events.len() implies known(
            after,
            #[trigger] after.shared_events[k],
        ) by {
            if k < n {
                assert(known(m, m.shared_events[k]));
                support::lemma_first_where(
                    m.assets,
                    lookups::asset_with_id(m.shared_events[k].asset_id),
                );
            }
        }
        assert forall|k: int, l: int| 0 <= k < l < after.shared_events.len() implies in_turn(
            #[trigger] after.shared_events[k],
            #[trigger] after.shared_events[l],
        ) by {
            assert(after.shared_events[k] == m.shared_events[k]);
            assert(known(m, m.shared_events[k]));
            if l < n {
                assert(in_turn(m.shared_events[k], m.shared_events[l]));
            }
        }
    }
}

/// What decides how far images have followed is the same.
pub open spec fn same_epochs(m: TablesModel, after: TablesModel) -> bool {
    &&& after.shared_events == m.shared_events
    &&& after.image_high == m.image_high
    &&& after.images.len() == m.images.len()
    &&& forall|i: int|
        0 <= i < m.images.len() ==> (#[trigger] after.images[i]).sequence == m.images[i].sequence
            && after.images[i].asset_id == m.images[i].asset_id
            && after.images[i].applied_shared_epoch == m.images[i].applied_shared_epoch
    &&& after.assets.len() == m.assets.len()
    &&& forall|a: int|
        0 <= a < m.assets.len() ==> (#[trigger] after.assets[a]).id == m.assets[a].id
            && after.assets[a].shared_epoch == m.assets[a].shared_epoch
}

proof fn lemma_same_assets(m: TablesModel, after: TablesModel, id: Seq<char>)
    requires
        same_epochs(m, after),
    ensures
        after.asset_at(id) == m.asset_at(id),
        m.asset_at(id) matches Some(a) ==> 0 <= a < m.assets.len() && after.assets[a].shared_epoch
            == m.assets[a].shared_epoch,
{
    let p = lookups::asset_with_id(id);
    support::lemma_first_where(m.assets, p);
    match m.asset_at(id) {
        Some(a) => {
            assert forall|j: int| 0 <= j < a implies !p(#[trigger] after.assets[j]) by {
                assert(!p(m.assets[j]));
            }
            support::lemma_first_found(after.assets, p, a);
        },
        None => {
            assert forall|j: int| 0 <= j < after.assets.len() implies !p(
                #[trigger] after.assets[j],
            ) by {
                assert(!p(m.assets[j]));
            }
            support::lemma_none_found(after.assets, p);
        },
    }
}

/// A change of anything else keeps every image following.
proof fn lemma_kept(m: TablesModel, after: TablesModel)
    requires
        m.epochs_wf(),
        same_epochs(m, after),
    ensures
        after.epochs_wf(),
{
    assert forall|i: int| 0 <= i < after.images.len() implies 0 < (
    #[trigger] after.images[i]).sequence <= after.image_high && follows(after, after.images[i]) by {
        let row = m.images[i];
        let now = after.images[i];
        assert(follows(m, row));
        lemma_same_assets(m, after, row.asset_id);
        let a = m.asset_at(row.asset_id)->0;
        assert forall|t: int|
            now.applied_shared_epoch < t <= after.assets[a].shared_epoch implies #[trigger] awaits(
            after,
            now,
            t,
        ) by {
            assert(awaits(m, row, t));
            let k = choose|k: int|
                0 <= k < m.shared_events.len() && brings(#[trigger] m.shared_events[k], row, t);
            assert(brings(after.shared_events[k], now, t));
        }
    }
    assert forall|i: int, j: int| 0 <= i < j < after.images.len() implies (
    #[trigger] after.images[i]).sequence < (#[trigger] after.images[j]).sequence by {
        assert(m.images[i].sequence < m.images[j].sequence);
    }
    assert forall|k: int| 0 <= k < after.shared_events.len() implies known(
        after,
        #[trigger] after.shared_events[k],
    ) by {
        assert(known(m, m.shared_events[k]));
        lemma_same_assets(m, after, m.shared_events[k].asset_id);
    }
}

proof fn lemma_advanced(
    m: TablesModel,
    image: Seq<char>,
    action: Seq<char>,
    detail: tables::DetailModel,
    affects_pixels: bool,
)
    ensures
        match catalog_metadata::advance_outcome(m, image, action, detail, affects_pixels) {
            Ok((after, _)) => same_epochs(m, after),
            Err(e) => e != CatalogError::EpochGap,
        },
{
    support::lemma_first_where(m.images, lookups::image_with_id(image));
    support::lemma_first_where(m.assets, lookups::asset_with_id(image));
}

proof fn lemma_followed(m: TablesModel, image: Seq<char>, e: tables::SharedEventModel)
    ensures
        match m.followed(image, e) {
            Ok(after) => same_epochs(m, after),
            Err(x) => x != CatalogError::EpochGap,
        },
{
    if let Ok(m1) = m.linked_option(image, e.observation_id) {
        if let Ok(m2) = m1.linked_option(image, e.current_observation) {
            if let Ok(m3) = m2.following(
                image,
                e.source_id,
                e.current_observation,
                e.association,
                e.availability,
            ) {
                lemma_advanced(
                    m3.rebuilt(image),
                    image,
                    "shared_observation"@,
                    tables::DetailModel::SharedObservation {
                        event: e.id,
                        observation: e.observation_id,
                    },
                    true,
                );
            }
        }
    }
}

/// An event is over only when it has come to every image it was for.
proof fn lemma_event_over(m: TablesModel)
    requires
        m.epochs_wf(),
        m.shared_events.len() > 0,
        m.next_image(
            m.shared_events[0].asset_id,
            m.shared_events[0].cursor,
            m.shared_events[0].high_water,
        ) is None,
    ensures
        (TablesModel { shared_events: m.shared_events.skip(1), ..m }).epochs_wf(),
{
    let e = m.shared_events[0];
    let after = TablesModel { shared_events: m.shared_events.skip(1), ..m };
    let within = refresh::image_within(e.asset_id, e.cursor, e.high_water);
    support::lemma_first_where(m.images, within);
    assert forall|i: int| 0 <= i < after.images.len() implies 0 < (
    #[trigger] after.images[i]).sequence <= after.image_high && follows(after, after.images[i]) by {
        let row = m.images[i];
        assert(follows(m, row));
        assert(!within(row));
        let a = m.asset_at(row.asset_id)->0;
        assert forall|t: int|
            row.applied_shared_epoch < t <= m.assets[a].shared_epoch implies #[trigger] awaits(
            after,
            row,
            t,
        ) by {
            assert(awaits(m, row, t));
            let k = choose|k: int|
                0 <= k < m.shared_events.len() && brings(#[trigger] m.shared_events[k], row, t);
            assert(after.shared_events[k - 1] == m.shared_events[k]);
        }
    }
    assert forall|k: int| 0 <= k < after.shared_events.len() implies known(
        after,
        #[trigger] after.shared_events[k],
    ) by {
        assert(known(m, m.shared_events[k + 1]));
    }
    assert forall|k: int, l: int| 0 <= k < l < after.shared_events.len() implies in_turn(
        #[trigger] after.shared_events[k],
        #[trigger] after.shared_events[l],
    ) by {
        assert(in_turn(m.shared_events[k + 1], m.shared_events[l + 1]));
    }
}

/// The next image that an event comes to has missed no earlier one.
proof fn lemma_no_gap(m: TablesModel, i: int)
    requires
        m.epochs_wf(),
        m.shared_events.len() > 0,
        0 <= i < m.images.len(),
        m.images[i].asset_id == m.shared_events[0].asset_id,
    ensures
        m.images[i].applied_shared_epoch >= m.shared_events[0].epoch - 1,
{
    let row = m.images[i];
    let e = m.shared_events[0];
    let next = row.applied_shared_epoch + 1;
    if next < e.epoch {
        assert(follows(m, row));
        assert(known(m, e));
        assert(awaits(m, row, next));
        let k = choose|k: int|
            0 <= k < m.shared_events.len() && brings(#[trigger] m.shared_events[k], row, next);
        assert(in_turn(m.shared_events[0], m.shared_events[k]));
    }
}

proof fn lemma_image_refreshed(m: TablesModel, i: int)
    requires
        m.epochs_wf(),
        m.shared_events.len() > 0,
        m.next_image(
            m.shared_events[0].asset_id,
            m.shared_events[0].cursor,
            m.shared_events[0].high_water,
        ) == Some(i),
    ensures
        match m.refreshed_image(i) {
            Ok(after) => after.epochs_wf(),
            Err(x) => x != CatalogError::EpochGap,
        },
{
    let e = m.shared_events[0];
    let within = refresh::image_within(e.asset_id, e.cursor, e.high_water);
    support::lemma_first_where(m.images, within);
    let row = m.images[i];
    lemma_no_gap(m, i);
    lemma_followed(m, row.id, e);
    if let Ok(after) = m.refreshed_image(i) {
        let base = if row.applied_shared_epoch >= e.epoch {
            m
        } else {
            m.followed(row.id, e)->Ok_0
        };
        lemma_kept(m, base);
        assert(base.shared_events == m.shared_events);
        assert(after.assets == base.assets);
        assert forall|j: int| 0 <= j < after.images.len() implies 0 < (
        #[trigger] after.images[j]).sequence <= after.image_high && follows(
            after,
            after.images[j],
        ) by {
            let was = base.images[j];
            let now = after.images[j];
            assert(follows(base, was));
            let a = base.asset_at(was.asset_id)->0;
            assert(known(base, base.shared_events[0]));
            assert forall|t: int|
                now.applied_shared_epoch < t <= after.assets[a].shared_epoch implies #[trigger] awaits(
                after,
                now,
                t,
            ) by {
                assert(awaits(base, was, t));
                let k = choose|k: int|
                    0 <= k < base.shared_events.len() && brings(
                        #[trigger] base.shared_events[k],
                        was,
                        t,
                    );
                if k == 0 {
                    assert(within(m.images[j]));
                    assert(j >= i);
                    if j > i {
                        assert(m.images[i].sequence < m.images[j].sequence);
                    }
                }
                assert(brings(after.shared_events[k], now, t));
            }
        }
        assert forall|j: int, k: int| 0 <= j < k < after.images.len() implies (
        #[trigger] after.images[j]).sequence < (#[trigger] after.images[k]).sequence by {
            assert(base.images[j].sequence < base.images[k].sequence);
        }
        assert forall|k: int| 0 <= k < after.shared_events.len() implies known(
            after,
            #[trigger] after.shared_events[k],
        ) by {
            assert(known(base, base.shared_events[k]));
        }
        assert forall|k: int, l: int| 0 <= k < l < after.shared_events.len() implies in_turn(
            #[trigger] after.shared_events[k],
            #[trigger] after.shared_events[l],
        ) by {
            assert(in_turn(base.shared_events[k], base.shared_events[l]));
        }
    }
}

/// However far images are let follow their shared sources, none misses a change: no
/// image is found to have one epoch too few, and once no event is left every image is
/// at its physical file's epoch.
pub proof fn law_refreshing_misses_no_change(m: TablesModel, budget: nat)
    requires
        m.epochs_wf(),
    ensures
        match m.refreshed(budget) {
            Ok((after, _)) => after.epochs_wf() && (after.shared_events.len() == 0 ==> settled(
                after,
            )),
            Err(x) => x != CatalogError::EpochGap,
        },
    decreases budget, m.shared_events.len(),
{
    if budget == 0 || m.shared_events.len() == 0 {
        if m.shared_events.len() == 0 {
            law_images_are_current_once_no_event_is_left(m);
        }
    } else {
        let e = m.shared_events[0];
        match m.next_image(e.asset_id, e.cursor, e.high_water) {
            None => {
                lemma_event_over(m);
                law_refreshing_misses_no_change(
                    (TablesModel { shared_events: m.shared_events.skip(1), ..m }),
                    budget,
                );
            },
            Some(i) => {
                lemma_image_refreshed(m, i);
                if let Ok(next) = m.refreshed_image(i) {
                    law_refreshing_misses_no_change(next, (budget - 1) as nat);
                }
            },
        }
    }
}

/// An image that is at its physical file's epoch can be added behind the others.
proof fn lemma_placed(m: TablesModel, after: TablesModel, row: tables::ImageModel)
    requires
        m.epochs_wf(),
        m.image_high < i64::MAX,
        row.sequence == m.image_high + 1,
        after.images == m.images.push(row),
        after.image_high == row.sequence,
        after.shared_events == m.shared_events,
        forall|id: Seq<char>|
            m.asset_at(id) is Some ==> #[trigger] after.asset_at(id) == m.asset_at(id)
                && after.assets[m.asset_at(id)->0].shared_epoch
                == m.assets[m.asset_at(id)->0].shared_epoch,
        after.asset_at(row.asset_id) matches Some(a) && row.applied_shared_epoch
            == after.assets[a].shared_epoch,
    ensures
        after.epochs_wf(),
{
    assert forall|i: int| 0 <= i < after.images.len() implies 0 < (
    #[trigger] after.images[i]).sequence <= after.image_high && follows(after, after.images[i]) by {
        if i < m.images.len() {
            let was = m.images[i];
            assert(follows(m, was));
            let a = m.asset_at(was.asset_id)->0;
            assert(after.asset_at(was.asset_id) == Some(a));
            assert forall|t: int|
                was.applied_shared_epoch < t <= after.assets[a].shared_epoch implies #[trigger] awaits(
                after,
                was,
                t,
            ) by {
                assert(awaits(m, was, t));
            }
        }
    }
    assert forall|i: int, j: int| 0 <= i < j < after.images.len() implies (
    #[trigger] after.images[i]).sequence < (#[trigger] after.images[j]).sequence by {
        assert(after.images[i] == m.images[i]);
        if j < m.images.len() {
            assert(after.images[j] == m.images[j]);
        }
    }
    assert forall|k: int| 0 <= k < after.shared_events.len() implies known(
        after,
        #[trigger] after.shared_events[k],
    ) by {
        assert(known(m, m.shared_events[k]));
        let id = m.shared_events[k].asset_id;
        assert(after.asset_at(id) == m.asset_at(id));
    }
}

/// The master image of a new physical file has missed nothing.
pub proof fn law_new_files_start_current(m: TablesModel, asset: register::NewAsset)
    requires
        m.epochs_wf(),
        register::insert_asset_outcome(m, asset) is Ok,
    ensures
        register::insert_asset_outcome(m, asset)->Ok_0.epochs_wf(),
{
    let after = register::insert_asset_outcome(m, asset)->Ok_0;
    assert forall|id: Seq<char>| m.asset_at(id) is Some implies #[trigger] after.asset_at(id)
        == m.asset_at(id) && after.assets[m.asset_at(id)->0].shared_epoch
        == m.assets[m.asset_at(id)->0].shared_epoch by {
        support::lemma_first_where(m.assets, lookups::asset_with_id(id));
        support::lemma_pushed(m.assets, after.assets, lookups::asset_with_id(id));
    }
    support::lemma_pushed(m.assets, after.assets, lookups::asset_with_id(asset.id@));
    lemma_placed(m, after, after.images.last());
}

/// A copy has missed nothing that its original has not: only an image at its physical
/// file's epoch is copied.
pub proof fn law_copies_start_current(
    m: TablesModel,
    key: catalog_images::VariantKeyModel,
    source: catalog_images::VariantKeyModel,
    fresh: Seq<char>,
)
    requires
        m.epochs_wf(),
        register::copy_outcome(m, key, source, fresh) is Ok,
    ensures
        register::copy_outcome(m, key, source, fresh)->Ok_0.epochs_wf(),
{
    let after = register::copy_outcome(m, key, source, fresh)->Ok_0;
    lemma_placed(m, after, after.images.last());
}

/// An imported image starts at its physical file's epoch, and a claimed master stays
/// where it was.
pub proof fn law_imports_start_current(
    m: TablesModel,
    r: register::ImportImageRequest,
    fresh_image: Seq<char>,
    fresh_variant: Seq<char>,
)
    requires
        m.epochs_wf(),
        register::register_outcome(m, r, fresh_image, fresh_variant) is Ok,
    ensures
        register::register_outcome(m, r, fresh_image, fresh_variant)->Ok_0.0.epochs_wf(),
{
    if m.mapping_at(r.import_source@, r.capture_revision@, r.source_table@, r.source_id@) is None {
        let (after, _) = register::registered(m, r, fresh_image, fresh_variant)->Ok_0;
        let a = m.asset_at(r.asset_id@)->0;
        let parent = register::master_parent(m, r)->Ok_0;
        let variant = if r.claim_reserved_master {
            "master"@
        } else {
            fresh_variant
        };
        let m1 = register::placed(
            m,
            r,
            parent,
            m.assets[a].shared_epoch,
            fresh_image,
            variant,
        )->Ok_0;
        let i = m1.image_of(r.asset_id@, variant)->0;
        register::lemma_linked_frame(m1, m1.images[i].id, r.asset_id@, m1.sources.len());
        if r.claim_reserved_master {
            support::lemma_first_where(m.images, lookups::image_with_id(r.asset_id@));
            lemma_kept(m, after);
        } else {
            lemma_placed(m, after, m1.images.last());
        }
    }
}

proof fn lemma_variants(m: TablesModel, n: nat)
    requires
        m.epochs_wf(),
        forall|a: int| 0 <= a < m.assets.len() ==> (#[trigger] m.assets[a]).shared_epoch == 0,
        upgrade::variants_added(m, n) is Ok,
    ensures
        ({
            let after = upgrade::variants_added(m, n)->Ok_0;
            after.epochs_wf() && after.assets == m.assets
        }),
    decreases n,
{
    if n > 0 {
        lemma_variants(m, (n - 1) as nat);
        let before = upgrade::variants_added(m, (n - 1) as nat)->Ok_0;
        let after = upgrade::variants_added(m, n)->Ok_0;
        let v = m.variants[n - 1];
        if v.id != "master"@ {
            support::lemma_first_where(m.assets, lookups::asset_with_id(v.asset_id));
            lemma_placed(before, after, after.images.last());
        }
    }
}

/// Telling images apart from files starts every image at its physical file's epoch.
pub proof fn law_migrated_images_start_current(m: TablesModel, sequences: Seq<i64>)
    requires
        laws::files_wf(m, sequences),
        m.images.len() == 0,
        m.image_high == 0,
        m.shared_events.len() == 0,
        upgrade::migrated(m, sequences) is Ok,
    ensures
        upgrade::migrated(m, sequences)->Ok_0.epochs_wf(),
        settled(upgrade::migrated(m, sequences)->Ok_0),
{
    laws::lemma_masters(m, sequences, sequences.len());
    let started = upgrade::masters_added(m, sequences, sequences.len());
    assert forall|a: int| 0 <= a < started.assets.len() implies (
    #[trigger] started.assets[a]).shared_epoch == 0 && started.asset_at(m.assets[a].id) == Some(
        a,
    ) by {
        let p = lookups::asset_with_id(m.assets[a].id);
        assert forall|j: int| 0 <= j < a implies !p(#[trigger] started.assets[j]) by {
            assert(m.assets[j].id != m.assets[a].id);
        }
        support::lemma_first_found(started.assets, p, a);
    }
    assert forall|i: int| 0 <= i < started.images.len() implies 0 < (
    #[trigger] started.images[i]).sequence <= started.image_high && follows(
        started,
        started.images[i],
    ) by {
        assert(started.images[i] == laws::master_image(m, sequences, i));
        assert(started.assets[i].shared_epoch == 0);
        if i < sequences.len() - 1 {
            assert(sequences[i] < sequences[sequences.len() - 1]);
        }
    }
    assert forall|i: int, j: int| 0 <= i < j < started.images.len() implies (
    #[trigger] started.images[i]).sequence < (#[trigger] started.images[j]).sequence by {
        assert(sequences[i] < sequences[j]);
    }
    lemma_variants(started, m.variants.len());
    let with = upgrade::variants_added(started, m.variants.len())->Ok_0;
    laws::lemma_given(with, with.images.len());
    let after = upgrade::migrated(m, sequences)->Ok_0;
    lemma_kept(with, after);
    lemma_no_events(started, m.variants.len());
    law_images_are_current_once_no_event_is_left(after);
}

proof fn lemma_no_events(m: TablesModel, n: nat)
    ensures
        upgrade::variants_added(m, n) matches Ok(after) ==> after.shared_events == m.shared_events,
    decreases n,
{
    if n > 0 {
        lemma_no_events(m, (n - 1) as nat);
    }
}

/// A new content of a physical file leaves all images following.
pub proof fn law_new_contents_keep_images_following(m: TablesModel, asset: Seq<char>)
    requires
        m.epochs_wf(),
    ensures
        register::touch_asset_outcome(m, asset) matches Ok(after) ==> after.epochs_wf(),
{
    if let Ok(after) = register::touch_asset_outcome(m, asset) {
        support::lemma_first_where(m.assets, lookups::asset_with_id(asset));
        lemma_kept(m, after);
    }
}

proof fn lemma_values(m: TablesModel, mid: i64, values: Seq<prepared::PreparedValueModel>, n: nat)
    ensures
        store::values_added(m, mid, values, n) matches Ok(after) ==> same_epochs(m, after),
    decreases n,
{
    if n > 0 {
        lemma_values(m, mid, values, (n - 1) as nat);
    }
}

proof fn lemma_models(m: TablesModel, oid: i64, models: Seq<prepared::PreparedModelModel>, n: nat)
    ensures
        store::models_added(m, oid, models, n) matches Ok(after) ==> same_epochs(m, after),
    decreases n,
{
    if n > 0 {
        lemma_models(m, oid, models, (n - 1) as nat);
        if let Ok(before) = store::models_added(m, oid, models, (n - 1) as nat) {
            let model = models[n - 1];
            let mid = (before.model_high + 1) as i64;
            let with = TablesModel {
                models: before.models.push(
                    tables::InterpretationModel {
                        id: mid,
                        observation_id: oid,
                        ordinal: (n - 1) as i64,
                        blob_hash: model.hash,
                        descriptor: model.descriptor,
                        projection: model.projection,
                        error: model.error,
                    },
                ),
                model_high: mid,
                ..before
            };
            lemma_values(with, mid, model.fields, model.fields.len());
        }
    }
}

proof fn lemma_blobs(m: TablesModel, blobs: Seq<tables::BlobModel>, n: nat)
    ensures
        same_epochs(m, store::blobs_added(m, blobs, n)),
    decreases n,
{
    if n > 0 {
        lemma_blobs(m, blobs, (n - 1) as nat);
    }
}

proof fn lemma_added(m: TablesModel, sid: i64, p: prepared::PreparedObservation)
    ensures
        store::observation_added(m, sid, p) matches Ok((after, _)) ==> same_epochs(m, after),
{
    if let Ok((after, oid)) = store::observation_added(m, sid, p) {
        let stored = store::blobs_added(m, p.blobs, p.blobs.len());
        lemma_blobs(m, p.blobs, p.blobs.len());
        let observed = TablesModel {
            observations: stored.observations.push(
                tables::ObservationModel {
                    id: oid,
                    source_id: sid,
                    revision: p.revision,
                    status: p.status,
                    issues: p.issues,
                    provenance: p.provenance,
                    source_provenance: p.source_provenance,
                    file_length: p.file_length,
                    file_blake3: p.file_blake3,
                    modified: p.modified,
                },
            ),
            observation_high: oid,
            ..stored
        };
        lemma_models(
            store::packets_added(observed, oid, p.packets),
            oid,
            p.models,
            p.models.len(),
        );
    }
}

proof fn lemma_stored(
    m: TablesModel,
    image: Seq<char>,
    source: store::SourceRequest,
    p: prepared::PreparedObservation,
)
    ensures
        store::store_outcome(m, image, source, p) matches Ok((after, _, _)) ==> same_epochs(
            m,
            after,
        ),
{
    if let Ok((after, oid, _)) = store::store_outcome(m, image, source, p) {
        let asset = m.images[m.image_at(image)->Some_0].asset_id;
        let locator = source.scoped_locator(image, asset);
        let (m1, sid) = store::source_put(m, asset, source, locator)->Ok_0;
        assert(same_epochs(m, m1));
        lemma_added(m1, sid, p);
        let current = match m.source_named(asset, source.kind, locator) {
            Some(s) => m.sources[s].current_observation,
            None => None,
        };
        let (m2, observation) = store::observed(m1, asset, sid, current, p)->Ok_0;
        assert(same_epochs(m1, m2));
        assert(same_epochs(m2, store::store_usage(m2, image, source, p.status, sid, oid)->Ok_0.0));
    }
}

/// Retaining an observation lets no image miss it: an observation of a shared source
/// is announced to all images of the physical file.
pub proof fn law_observing_misses_no_image(
    m: TablesModel,
    image: Seq<char>,
    source: store::SourceRequest,
    p: prepared::PreparedObservation,
    shared: bool,
)
    requires
        m.epochs_wf(),
    ensures
        store::retain_outcome(m, image, source, p, shared) matches Ok((after, _))
            ==> after.epochs_wf(),
{
    lemma_stored(m, image, source, p);
    if let Ok((after, _)) = store::retain_outcome(m, image, source, p, shared) {
        let (stored, oid, changed) = store::store_outcome(m, image, source, p)->Ok_0;
        lemma_kept(m, stored);
        if changed {
            lemma_advanced(
                stored.rebuilt(image),
                image,
                "observe"@,
                tables::DetailModel::Observed { observation_id: oid },
                true,
            );
            let (advanced, _) = catalog_metadata::advance_outcome(
                stored.rebuilt(image),
                image,
                "observe"@,
                tables::DetailModel::Observed { observation_id: oid },
                true,
            )->Ok_0;
            lemma_kept(stored, advanced);
            if shared {
                let i = advanced.image_at(image)->0;
                let o = advanced.observation_at(oid)->0;
                law_announcements_reach_every_image(
                    advanced,
                    advanced.images[i].asset_id,
                    advanced.observations[o].source_id,
                    Some(oid),
                );
                let queued = refresh::enqueue_shared_outcome(advanced, image, oid)->Ok_0;
                law_refreshing_misses_no_change(queued, store::FOLLOW_BATCH as nat);
            }
        }
    }
}

/// That a source cannot be read any more is announced to all images of the physical
/// file.
pub proof fn law_unavailable_sources_miss_no_image(
    m: TablesModel,
    asset: Seq<char>,
    source: store::SourceRequest,
    reason: Seq<char>,
)
    requires
        m.epochs_wf(),
    ensures
        sources::unavailable_outcome(m, asset, source, reason) matches Ok((after, _))
            ==> after.epochs_wf(),
{
    if let Ok((after, changed)) = sources::unavailable_outcome(m, asset, source, reason) {
        if changed {
            let (m1, sid) = sources::source_marked(m, asset, source, reason)->Ok_0;
            let row = m1.sources[m1.source_at(sid)->Some_0];
            let m2 = m1.linked_option(asset, row.current_observation)->Ok_0;
            let m3 = m2.following(
                asset,
                sid,
                row.current_observation,
                row.association,
                row.availability,
            )->Ok_0;
            assert(same_epochs(m, m3));
            lemma_kept(m, m3);
            let detail = tables::DetailModel::Unavailable {
                kind: source.kind,
                display: source.display,
                reason,
            };
            lemma_advanced(m3, asset, "source_unavailable"@, detail, true);
            let (m4, _) = catalog_metadata::advance_outcome(
                m3,
                asset,
                "source_unavailable"@,
                detail,
                true,
            )->Ok_0;
            lemma_kept(m3, m4);
            let s = m4.source_at(sid)->0;
            law_announcements_reach_every_image(
                m4,
                m4.sources[s].asset_id,
                sid,
                m4.sources[s].current_observation,
            );
            let queued = refresh::enqueue_source_outcome(m4, sid)->Ok_0;
            law_refreshing_misses_no_change(queued, store::FOLLOW_BATCH as nat);
        }
    }
}

/// Settling a conflict leaves all images following.
pub proof fn law_choices_keep_images_following(
    m: TablesModel,
    image: Seq<char>,
    expected: i64,
    field: Seq<char>,
    model: i64,
)
    requires
        m.epochs_wf(),
    ensures
        views::resolve_outcome(m, image, expected, field, model) matches Ok((after, _))
            ==> after.epochs_wf(),
{
    support::lemma_first_where(m.images, lookups::image_with_id(image));
    support::lemma_first_where(m.assets, lookups::asset_with_id(image));
    if let Ok((after, _)) = views::resolve_outcome(m, image, expected, field, model) {
        lemma_kept(m, after);
    }
}

proof fn lemma_chosen(m: TablesModel, after: TablesModel, e: PreparedEdit, model: i64, n: nat)
    ensures
        same_epochs(after, edit::edit_chosen(m, after, e, model, n)),
    decreases n,
{
    if n > 0 {
        lemma_chosen(m, after, e, model, (n - 1) as nat);
    }
}

/// Publishing an edit leaves all images following.
pub proof fn law_edits_keep_images_following(m: TablesModel, e: PreparedEdit)
    requires
        m.epochs_wf(),
    ensures
        edit::commit_outcome(m, e) matches Ok((after, _)) ==> after.epochs_wf(),
{
    if let Ok((after, _)) = edit::commit_outcome(m, e) {
        let image = e.image_identity.image_id@;
        lemma_stored(m, image, e.source@, e.prepared@);
        let (stored, oid, _) = store::store_outcome(m, image, e.source@, e.prepared@)->Ok_0;
        let ids = store::models_of(stored, oid);
        lemma_chosen(m, stored, e, ids[0], e.updated@.len());
        let chosen = edit::edit_chosen(m, stored, e, ids[0], e.updated@.len());
        assert(same_epochs(m, chosen));
        lemma_advanced(
            chosen.rebuilt(image),
            image,
            "edit"@,
            tables::DetailModel::Edited {
                base_model: e.base_model,
                observation_id: oid,
                edits: e.edits@,
            },
            e.organization_fields@.len() == 0,
        );
        lemma_kept(m, after);
    }
}

proof fn lemma_looked(
    m: TablesModel,
    asset: Seq<char>,
    source: store::SourceRequest,
    inspected: Inspected<'_>,
)
    requires
        m.epochs_wf(),
    ensures
        scan::looked(m, asset, source, inspected) matches Ok((after, _, _)) ==> after.epochs_wf(),
{
    reveal(scan::looked);
    match inspected {
        Inspected::Found(inspection) => {
            if let Ok(p) = prepared::prepare_outcome(*inspection, source) {
                law_observing_misses_no_image(
                    m,
                    asset,
                    source,
                    p,
                    register::shared_kind(source.kind),
                );
            }
        },
        Inspected::Failed(reason) => law_unavailable_sources_miss_no_image(
            m,
            asset,
            source,
            "inspection failed: "@ + reason@,
        ),
    }
}

proof fn lemma_all_looked(m: TablesModel, asset: Seq<char>, looks: Seq<Look<'_>>, n: nat)
    requires
        m.epochs_wf(),
    ensures
        scan::all_looked(m, asset, looks, n).0.epochs_wf(),
    decreases n,
{
    if n > 0 {
        lemma_all_looked(m, asset, looks, (n - 1) as nat);
        let (before, tally) = scan::all_looked(m, asset, looks, (n - 1) as nat);
        if tally is Ok {
            let look = looks[n - 1];
            lemma_looked(before, asset, look.source@, look.inspected);
        }
    }
}

proof fn lemma_absent_marked(
    m: TablesModel,
    asset: Seq<char>,
    stored: Seq<tables::SourceModel>,
    looks: Seq<Look<'_>>,
    n: nat,
)
    requires
        m.epochs_wf(),
    ensures
        scan::absent_marked(m, asset, stored, looks, n).0.epochs_wf(),
    decreases n,
{
    if n > 0 {
        lemma_absent_marked(m, asset, stored, looks, (n - 1) as nat);
        let (before, changed) = scan::absent_marked(m, asset, stored, looks, (n - 1) as nat);
        if changed is Ok && !scan::among(looks, stored[n - 1].locator) {
            law_unavailable_sources_miss_no_image(
                before,
                asset,
                sources::sidecar_request(stored[n - 1]),
                sources::missing_note(),
            );
        }
    }
}

proof fn lemma_sidecars(
    m: TablesModel,
    asset: Seq<char>,
    changed: bool,
    warnings: nat,
    sidecars: Result<Seq<Look<'_>>, CatalogError>,
)
    requires
        m.epochs_wf(),
    ensures
        scan::sidecars_refreshed(m, asset, changed, warnings, sidecars).0.epochs_wf(),
{
    if let Ok(looks) = sidecars {
        lemma_all_looked(m, asset, looks, looks.len());
        let (seen, tally) = scan::all_looked(m, asset, looks, looks.len());
        if tally is Ok {
            let stored = seen.sources.filter(sources::sidecar_of(asset));
            lemma_absent_marked(seen, asset, stored, looks, stored.len());
        }
    }
}

/// Whatever a look at an original and its sidecars finds, or fails to find, no image of
/// the physical file misses it.
pub proof fn law_looks_miss_no_image(
    m: TablesModel,
    source: store::SourceRequest,
    embedded_changed: bool,
    embedded: Inspected<'_>,
    sidecars: Result<Seq<Look<'_>>, CatalogError>,
)
    requires
        m.epochs_wf(),
    ensures
        scan::refreshed(m, source, embedded_changed, embedded, sidecars).0.epochs_wf(),
{
    if let Some(a) = support::first_where(m.assets, scan::file_at(source.locator)) {
        let asset = m.assets[a].id;
        lemma_looked(m, asset, source, embedded);
        if embedded_changed || !sources::embedded_known(m, asset, source.locator) {
            if let Ok((seen, changed, warning)) = scan::looked(m, asset, source, embedded) {
                let warnings: nat = if warning {
                    1
                } else {
                    0
                };
                lemma_sidecars(seen, asset, changed, warnings, sidecars);
            }
        } else {
            lemma_sidecars(m, asset, false, 0, sidecars);
        }
    }
}

} // verus!

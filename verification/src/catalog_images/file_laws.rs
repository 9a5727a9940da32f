//! What happens to the images of a physical file when the file or its sources change, told by
//! the rows.
use crate::catalog_images::image_laws;
use crate::catalog_images::refresh;
use crate::catalog_images::register;
use crate::catalog_images::register::NewAsset;
use crate::catalog_images::upgrade;
use crate::catalog_images::{ImageRole, TranslationState};
use crate::lookups;
use crate::support;
use crate::tables;
use crate::tables::TablesModel;
use vstd::prelude::*;

verus! {

/// No two physical files have one identity.
pub open spec fn assets_keyed(m: TablesModel) -> bool {
    forall|i: int, j: int|
        0 <= i < j < m.assets.len() ==> (#[trigger] m.assets[i]).id != (#[trigger] m.assets[j]).id
}

/// Images come in the order of their numbers.
pub open spec fn in_order(images: Seq<tables::ImageModel>) -> bool {
    forall|i: int, j: int|
        0 <= i < j < images.len() ==> (#[trigger] images[i]).sequence < (
        #[trigger] images[j]).sequence
}

/// A number is that of the last image of a physical file, or zero without any above it.
pub open spec fn is_last(images: Seq<tables::ImageModel>, asset: Seq<char>, high: i64) -> bool {
    &&& forall|i: int|
        0 <= i < images.len() && (#[trigger] images[i]).asset_id == asset ==> images[i].sequence
            <= high
    &&& high == 0 || exists|i: int|
        0 <= i < images.len() && (#[trigger] images[i]).asset_id == asset && images[i].sequence
            == high
}

proof fn lemma_high(images: Seq<tables::ImageModel>, asset: Seq<char>)
    ensures
        is_last(images, asset, refresh::high_water(images, asset)),
    decreases images.len(),
{
    if images.len() > 0 {
        let before = images.drop_last();
        lemma_high(before, asset);
        let high = refresh::high_water(before, asset);
        let now = refresh::high_water(images, asset);
        assert forall|i: int|
            0 <= i < images.len() && (#[trigger] images[i]).asset_id == asset implies images[i].sequence
            <= now by {
            if i < before.len() {
                assert(before[i] == images[i]);
            }
        }
        if now != 0 {
            if now == high && high != 0 {
                let i = choose|i: int|
                    0 <= i < before.len() && (#[trigger] before[i]).asset_id == asset
                        && before[i].sequence == high;
                assert(images[i].asset_id == asset && images[i].sequence == now);
            } else {
                assert(images[images.len() - 1].asset_id == asset);
            }
        }
    }
}

/// A change of a source is announced to all images that its physical file has now: with what the
/// source is now, from the first image up to the last. The file's sources and its generation
/// count as changed, and no other file's do.
pub proof fn law_changes_are_announced_as_they_are(
    m: TablesModel,
    asset: Seq<char>,
    source: i64,
    observation: Option<i64>,
)
    requires
        assets_keyed(m),
    ensures
        m.enqueued(asset, source, observation) matches Ok(after) ==> {
            &&& after.shared_events.len() == m.shared_events.len() + 1
            &&& after.shared_events.last().asset_id == asset
            &&& after.shared_events.last().source_id == source
            &&& after.shared_events.last().observation_id == observation
            &&& after.shared_events.last().cursor == 0
            &&& is_last(m.images, asset, after.shared_events.last().high_water)
            &&& exists|s: int|
                0 <= s < m.sources.len() && (#[trigger] m.sources[s]).id == source
                    && after.shared_events.last().current_observation
                    == m.sources[s].current_observation && after.shared_events.last().association
                    == m.sources[s].association && after.shared_events.last().availability
                    == m.sources[s].availability
            &&& after.assets.len() == m.assets.len()
            &&& forall|a: int|
                0 <= a < m.assets.len() ==> (#[trigger] after.assets[a]).id == m.assets[a].id
                    && after.assets[a].location == m.assets[a].location
                    && after.assets[a].shared_epoch == m.assets[a].shared_epoch + (
                if m.assets[a].id == asset {
                    1int
                } else {
                    0
                }) && after.assets[a].physical_generation == m.assets[a].physical_generation + (
                if m.assets[a].id == asset {
                    1int
                } else {
                    0
                })
            &&& exists|a: int|
                0 <= a < after.assets.len() && (#[trigger] after.assets[a]).id == asset
                    && after.shared_events.last().epoch == after.assets[a].shared_epoch
            &&& after.images == m.images
            &&& after.sources == m.sources
        },
{
    if let Ok(after) = m.enqueued(asset, source, observation) {
        lemma_high(m.images, asset);
        support::lemma_first_where(m.sources, lookups::source_with_id(source));
        support::lemma_first_where(m.assets, lookups::asset_with_id(asset));
        let s = m.source_at(source)->Some_0;
        assert(m.sources[s].id == source);
        let a = m.asset_at(asset)->Some_0;
        assert(after.assets[a].id == asset);
        assert forall|b: int| 0 <= b < m.assets.len() && b != a implies (#[trigger] m.assets[b]).id
            != asset by {
            if b < a {
                assert(m.assets[b].id != m.assets[a].id);
            } else {
                assert(m.assets[a].id != m.assets[b].id);
            }
        }
    }
}

/// A physical file whose bytes changed has a new generation, and all images that it has now are
/// to be visited, from the first up to the last. What is to be visited of other files stays.
pub proof fn law_touched_files_are_visited_anew(m: TablesModel, asset: Seq<char>)
    requires
        assets_keyed(m),
    ensures
        register::touch_asset_outcome(m, asset) matches Ok(after) ==> {
            &&& after.assets.len() == m.assets.len()
            &&& forall|a: int|
                0 <= a < m.assets.len() ==> (#[trigger] after.assets[a]).id == m.assets[a].id
                    && after.assets[a].physical_generation == m.assets[a].physical_generation + (
                if m.assets[a].id == asset {
                    1int
                } else {
                    0
                }) && after.assets[a].shared_epoch == m.assets[a].shared_epoch
            &&& exists|e: int|
                0 <= e < after.storage_events.len() && (
                #[trigger] after.storage_events[e]).asset_id == asset
                    && after.storage_events[e].cursor == 0 && is_last(
                    m.images,
                    asset,
                    after.storage_events[e].high_water,
                )
            &&& forall|e: int|
                0 <= e < m.storage_events.len() && (#[trigger] m.storage_events[e]).asset_id != asset
                    ==> after.storage_events[e] == m.storage_events[e]
            &&& after.images == m.images
        },
{
    if let Ok(after) = register::touch_asset_outcome(m, asset) {
        lemma_high(m.images, asset);
        support::lemma_first_where(m.assets, lookups::asset_with_id(asset));
        support::lemma_first_where(m.storage_events, lookups::storage_event_for(asset));
        let a = m.asset_at(asset)->Some_0;
        assert forall|b: int| 0 <= b < m.assets.len() && b != a implies (#[trigger] m.assets[b]).id
            != asset by {
            if b < a {
                assert(m.assets[b].id != m.assets[a].id);
            } else {
                assert(m.assets[a].id != m.assets[b].id);
            }
        }
        let e = match m.storage_event_at(asset) {
            Some(e) => e,
            None => m.storage_events.len() as int,
        };
        assert(after.storage_events[e].asset_id == asset);
    }
}

/// An image is still to be visited for a change of its file.
pub open spec fn is_due(m: TablesModel, e: int, i: int) -> bool {
    &&& 0 <= e < m.storage_events.len()
    &&& 0 <= i < m.images.len()
    &&& m.images[i].asset_id == m.storage_events[e].asset_id
    &&& m.storage_events[e].cursor < m.images[i].sequence
    &&& m.images[i].sequence <= m.storage_events[e].high_water
}

/// An identity is that of an image that is to be visited.
pub open spec fn was_due(m: TablesModel, id: Seq<char>) -> bool {
    exists|e: int, i: int| #[trigger] is_due(m, e, i) && m.images[i].id == id
}

proof fn lemma_least(events: Seq<tables::StorageEventModel>, n: nat)
    requires
        0 < n <= events.len(),
    ensures
        0 <= refresh::least_event(events, n) < n,
    decreases n,
{
    if n > 1 {
        lemma_least(events, (n - 1) as nat);
    }
}

/// Working off the changes of files visits no more images than allowed, and only images that
/// were to be visited; once no change is left, all of those were visited.
pub proof fn law_changed_files_have_all_their_images_visited(m: TablesModel, budget: nat)
    requires
        in_order(m.images),
    ensures
        ({
            let (after, visited) = m.drained(budget);
            &&& visited.len() <= budget
            &&& after.images == m.images
            &&& forall|v: int|
                0 <= v < visited.len() ==> was_due(m, #[trigger] visited[v])
            &&& after.storage_events.len() == 0 ==> forall|e: int, i: int| #[trigger]
                is_due(m, e, i) ==> visited.contains(m.images[i].id)
        }),
    decreases budget, m.storage_events.len(),
{
    if budget > 0 && m.storage_events.len() > 0 {
        let b = refresh::least_event(m.storage_events, m.storage_events.len());
        lemma_least(m.storage_events, m.storage_events.len());
        let e = m.storage_events[b];
        let q = refresh::image_within(e.asset_id, e.cursor, e.high_water);
        support::lemma_first_where(m.images, q);
        let (after, visited) = m.drained(budget);
        match m.next_image(e.asset_id, e.cursor, e.high_water) {
            None => {
                let next = TablesModel { storage_events: m.storage_events.remove(b), ..m };
                law_changed_files_have_all_their_images_visited(next, budget);
                assert forall|v: int| 0 <= v < visited.len() implies was_due(
                    m,
                    #[trigger] visited[v],
                ) by {
                    assert(was_due(next, visited[v]));
                    let (y, i) = choose|y: int, i: int|
                        #[trigger] is_due(next, y, i) && next.images[i].id == visited[v];
                    let x = if y < b {
                        y
                    } else {
                        y + 1
                    };
                    assert(next.storage_events[y] == m.storage_events[x]);
                    assert(is_due(m, x, i));
                }
                if after.storage_events.len() == 0 {
                    assert forall|x: int, i: int| #[trigger] is_due(m, x, i) implies visited.contains(
                        m.images[i].id,
                    ) by {
                        if x == b {
                            assert(!q(m.images[i]));
                        } else {
                            let y = if x < b {
                                x
                            } else {
                                x - 1
                            };
                            assert(next.storage_events[y] == m.storage_events[x]);
                            assert(is_due(next, y, i));
                        }
                    }
                }
            },
            Some(f) => {
                let moved = tables::StorageEventModel { cursor: m.images[f].sequence, ..e };
                let next = TablesModel { storage_events: m.storage_events.update(b, moved), ..m };
                law_changed_files_have_all_their_images_visited(next, (budget - 1) as nat);
                let rest = next.drained((budget - 1) as nat).1;
                assert(visited == seq![m.images[f].id] + rest);
                assert(visited[0] == m.images[f].id);
                assert(is_due(m, b, f));
                assert forall|v: int| 0 <= v < visited.len() implies was_due(
                    m,
                    #[trigger] visited[v],
                ) by {
                    if v > 0 {
                        assert(visited[v] == rest[v - 1]);
                        assert(was_due(next, rest[v - 1]));
                        let (y, i) = choose|y: int, i: int|
                            #[trigger] is_due(next, y, i) && next.images[i].id == rest[v - 1];
                        assert(is_due(m, y, i));
                    }
                }
                if after.storage_events.len() == 0 {
                    assert forall|x: int, i: int| #[trigger] is_due(m, x, i) implies visited.contains(
                        m.images[i].id,
                    ) by {
                        if x == b && m.images[i].sequence <= m.images[f].sequence {
                            if f < i {
                                assert(m.images[f].sequence < m.images[i].sequence);
                            } else if i < f {
                                assert(!q(m.images[i]));
                            }
                            assert(visited[0] == m.images[i].id);
                        } else {
                            assert(is_due(next, x, i));
                            assert(rest.contains(m.images[i].id));
                            let v = choose|v: int|
                                0 <= v < rest.len() && rest[v] == m.images[i].id;
                            assert(visited[v + 1] == m.images[i].id);
                        }
                    }
                }
            },
        }
    }
}

/// A new physical file is there as it was given, with one image of its own: its master, which is
/// native, and numbered above all others. No file of that identity was there.
pub proof fn law_new_files_have_a_master(m: TablesModel, asset: NewAsset)
    ensures
        register::insert_asset_outcome(m, asset) matches Ok(after) ==> {
            &&& forall|a: int| 0 <= a < m.assets.len() ==> (#[trigger] m.assets[a]).id != asset.id@
            &&& after.assets.len() == m.assets.len() + 1
            &&& forall|a: int| 0 <= a < m.assets.len() ==> #[trigger] after.assets[a] == m.assets[a]
            &&& after.assets.last().id == asset.id@
            &&& after.assets.last().location == asset.location@
            &&& after.assets.last().state == asset.state@
            &&& after.assets.last().shared_epoch == 0
            &&& after.images.len() == m.images.len() + 1
            &&& forall|i: int| 0 <= i < m.images.len() ==> #[trigger] after.images[i] == m.images[i]
            &&& after.images.last().id == asset.id@
            &&& after.images.last().asset_id == asset.id@
            &&& after.images.last().variant_id == "master"@
            &&& after.images.last().role == ImageRole::Master
            &&& after.images.last().translation_state == TranslationState::Native
            &&& !after.images.last().imported
            &&& after.images.last().master_sequence is None
            &&& after.images.last().copied_from_sequence is None
            &&& after.images.last().sequence == m.image_high + 1
        },
{
    if register::insert_asset_outcome(m, asset) is Ok {
        support::lemma_first_where(m.assets, lookups::asset_with_id(asset.id@));
        assert forall|a: int| 0 <= a < m.assets.len() implies (#[trigger] m.assets[a]).id
            != asset.id@ by {
            assert(!lookups::asset_with_id(asset.id@)(m.assets[a]));
        }
    }
}

/// A kind of source whose evidence belongs to the physical file, and so to all of its images.
pub open spec fn is_files_own(kind: Seq<char>) -> bool {
    kind == "embedded"@ || kind == "sidecar"@
}

/// An image uses a source.
pub open spec fn has_source(m: TablesModel, image: Seq<char>, source: i64) -> bool {
    exists|a: int|
        0 <= a < m.image_sources.len() && (#[trigger] m.image_sources[a]).image_id == image
            && m.image_sources[a].source_id == source
}

/// An image uses a source as its file does, and follows it.
pub open spec fn follows_source(
    m: TablesModel,
    a: int,
    image: Seq<char>,
    s: tables::SourceModel,
) -> bool {
    &&& m.image_sources[a].image_id == image
    &&& m.image_sources[a].source_id == s.id
    &&& m.image_sources[a].current_observation == s.current_observation
    &&& m.image_sources[a].association == s.association
    &&& m.image_sources[a].availability == s.availability
    &&& m.image_sources[a].follow_file
}

/// One of the first sources, which is the file's own.
pub open spec fn is_shared_source(
    m: TablesModel,
    asset: Seq<char>,
    n: nat,
    a: int,
    image: Seq<char>,
    from: TablesModel,
) -> bool {
    exists|s: int|
        0 <= s < n && (#[trigger] from.sources[s]).asset_id == asset && is_files_own(
            from.sources[s].kind,
        ) && follows_source(m, a, image, from.sources[s])
}

/// A new image of a physical file uses all sources that are the file's own, as the file does, and
/// follows them; it is given no source that belongs to another image.
pub proof fn law_new_images_share_the_files_sources(
    m: TablesModel,
    image: Seq<char>,
    asset: Seq<char>,
    n: nat,
)
    requires
        n <= m.sources.len(),
    ensures
        m.shared_sources_linked(image, asset, n) matches Ok(after) ==> {
            &&& after.sources == m.sources
            &&& m.image_sources.len() <= after.image_sources.len()
            &&& forall|a: int|
                0 <= a < m.image_sources.len() ==> #[trigger] after.image_sources[a]
                    == m.image_sources[a]
            &&& forall|s: int|
                0 <= s < n && (#[trigger] m.sources[s]).asset_id == asset && is_files_own(
                    m.sources[s].kind,
                ) ==> has_source(after, image, m.sources[s].id)
            &&& forall|a: int|
                m.image_sources.len() <= a < after.image_sources.len() ==> is_shared_source(
                    after,
                    asset,
                    n,
                    a,
                    image,
                    m,
                ) && #[trigger] after.image_sources[a] == after.image_sources[a]
        },
    decreases n,
{
    if n > 0 {
        law_new_images_share_the_files_sources(m, image, asset, (n - 1) as nat);
        if let Ok(after) = m.shared_sources_linked(image, asset, n) {
            let before = m.shared_sources_linked(image, asset, (n - 1) as nat)->Ok_0;
            let s = m.sources[n - 1];
            assert(after.sources == m.sources);
            let q = lookups::image_source_for(image, s.id);
            support::lemma_first_where(before.image_sources, q);
            assert(before.image_sources.len() <= after.image_sources.len());
            assert forall|a: int| 0 <= a < before.image_sources.len() implies #[trigger] after.image_sources[a]
                == before.image_sources[a] by {}
            assert forall|x: int|
                0 <= x < n && (#[trigger] m.sources[x]).asset_id == asset && is_files_own(
                    m.sources[x].kind,
                ) implies has_source(after, image, m.sources[x].id) by {
                if x < n - 1 {
                    assert(has_source(before, image, m.sources[x].id));
                    let a = choose|a: int|
                        0 <= a < before.image_sources.len() && (
                        #[trigger] before.image_sources[a]).image_id == image
                            && before.image_sources[a].source_id == m.sources[x].id;
                    assert(after.image_sources[a].image_id == image);
                } else {
                    let a = match before.image_source_at(image, s.id) {
                        Some(a) => a,
                        None => before.image_sources.len() as int,
                    };
                    assert(after.image_sources[a].image_id == image);
                }
            }
            assert forall|a: int| m.image_sources.len() <= a < after.image_sources.len() implies is_shared_source(
                after,
                asset,
                n,
                a,
                image,
                m,
            ) && #[trigger] after.image_sources[a] == after.image_sources[a] by {
                if a < before.image_sources.len() {
                    assert(before.image_sources[a] == before.image_sources[a]);
                    assert(is_shared_source(before, asset, (n - 1) as nat, a, image, m));
                    let x = choose|x: int|
                        0 <= x < n - 1 && (#[trigger] m.sources[x]).asset_id == asset
                            && is_files_own(m.sources[x].kind) && follows_source(
                            before,
                            a,
                            image,
                            m.sources[x],
                        );
                    assert(follows_source(after, a, image, m.sources[x]));
                } else {
                    assert(follows_source(after, a, image, m.sources[n - 1]));
                }
            }
        }
    }
}

/// A file's own number is that of its master once images are told apart from files.
pub proof fn law_migrated_files_have_their_masters(m: TablesModel, sequences: Seq<i64>, n: nat)
    requires
        n <= m.assets.len(),
        n <= sequences.len(),
    ensures
        ({
            let after = upgrade::masters_added(m, sequences, n);
            &&& after.images.len() == m.images.len() + n
            &&& after.assets.len() == m.assets.len()
            &&& after.variants == m.variants
            &&& after.sources == m.sources
            &&& forall|i: int| 0 <= i < m.images.len() ==> #[trigger] after.images[i] == m.images[i]
            &&& forall|a: int|
                0 <= a < m.assets.len() ==> (#[trigger] after.assets[a]).id == m.assets[a].id
                    && after.assets[a].location == m.assets[a].location
            &&& forall|a: int|
                0 <= a < n ==> (#[trigger] after.assets[a]).physical_generation
                    == m.assets[a].render_generation && after.assets[a].shared_epoch == 0
            &&& forall|a: int|
                0 <= a < n ==> {
                    let row = after.images[m.images.len() + a];
                    &&& row.id == (#[trigger] m.assets[a]).id
                    &&& row.asset_id == m.assets[a].id
                    &&& row.variant_id == "master"@
                    &&& row.role == ImageRole::Master
                    &&& row.sequence == sequences[a]
                    &&& row.translation_state == TranslationState::Native
                    &&& !row.imported
                    &&& row.applied_shared_epoch == 0
                }
            &&& forall|a: int| n <= a < m.assets.len() ==> #[trigger] after.assets[a] == m.assets[a]
        }),
    decreases n,
{
    if n > 0 {
        law_migrated_files_have_their_masters(m, sequences, (n - 1) as nat);
        let before = upgrade::masters_added(m, sequences, (n - 1) as nat);
        let after = upgrade::masters_added(m, sequences, n);
        assert(before.assets[n - 1] == m.assets[n - 1]);
        assert forall|a: int| 0 <= a < n implies {
            let row = after.images[m.images.len() + a];
            &&& row.id == (#[trigger] m.assets[a]).id
            &&& row.asset_id == m.assets[a].id
            &&& row.variant_id == "master"@
            &&& row.role == ImageRole::Master
            &&& row.sequence == sequences[a]
            &&& row.translation_state == TranslationState::Native
            &&& !row.imported
            &&& row.applied_shared_epoch == 0
        } by {
            if a < n - 1 {
                assert(after.images[m.images.len() + a] == before.images[m.images.len() + a]);
            }
        }
        assert forall|a: int| 0 <= a < n implies (#[trigger] after.assets[a]).physical_generation
            == m.assets[a].render_generation && after.assets[a].shared_epoch == 0 by {
            if a < n - 1 {
                assert(after.assets[a] == before.assets[a]);
            }
        }
    }
}

/// A variant that is no master becomes an image of its file, in the role of a copy made here;
/// a master is its file's already.
pub proof fn law_migrated_variants_become_images(m: TablesModel, v: tables::VariantModel)
    ensures
        upgrade::variant_added(m, v) matches Ok(after) ==> {
            &&& v.id == "master"@ ==> after == m
            &&& v.id != "master"@ ==> {
                &&& after.images.len() == m.images.len() + 1
                &&& forall|i: int|
                    0 <= i < m.images.len() ==> #[trigger] after.images[i] == m.images[i]
                &&& after.images.last().asset_id == v.asset_id
                &&& after.images.last().variant_id == v.id
                &&& after.images.last().role == ImageRole::NativeCopy
                &&& after.images.last().translation_state == TranslationState::Native
                &&& !after.images.last().imported
                &&& after.images.last().sequence == m.image_high + 1
                &&& forall|i: int|
                    0 <= i < m.images.len() && (#[trigger] m.images[i]).asset_id == v.asset_id
                        ==> m.images[i].variant_id != v.id
                &&& exists|a: int|
                    0 <= a < m.assets.len() && (#[trigger] m.assets[a]).id == v.asset_id
            }
        },
{
    if upgrade::variant_added(m, v) is Ok && v.id != "master"@ {
        image_laws::lemma_variant(m, v.asset_id, v.id);
        support::lemma_first_where(m.assets, lookups::asset_with_id(v.asset_id));
        let a = m.asset_at(v.asset_id)->Some_0;
        assert(m.assets[a].id == v.asset_id);
    }
}

/// An image that is told apart from its file uses every source that the file has, as the file
/// does, and follows those that are the file's own.
pub proof fn law_migrated_images_use_the_files_sources(
    m: TablesModel,
    row: tables::ImageModel,
    s: int,
)
    requires
        0 <= s < m.sources.len(),
        m.sources[s].asset_id == row.asset_id,
    ensures
        ({
            let after = upgrade::metadata_given(m, row);
            exists|a: int|
                m.image_sources.len() <= a < after.image_sources.len() && (
                #[trigger] after.image_sources[a]).image_id == row.id
                    && after.image_sources[a].source_id == m.sources[s].id
                    && after.image_sources[a].current_observation
                    == m.sources[s].current_observation && after.image_sources[a].association
                    == m.sources[s].association && after.image_sources[a].availability
                    == m.sources[s].availability && (after.image_sources[a].follow_file
                    <==> is_files_own(m.sources[s].kind))
        }),
{
    let after = upgrade::metadata_given(m, row);
    let p = upgrade::source_of(row.asset_id);
    let own = m.sources.filter(p);
    let added = own.map_values(upgrade::usage_from(row.id));
    assert(after.image_sources == m.image_sources + added);
    m.sources.lemma_filter_contains(p, s);
    let k = choose|k: int| 0 <= k < own.len() && own[k] == m.sources[s];
    let a = m.image_sources.len() + k;
    assert(after.image_sources[a] == added[k]);
    assert(after.image_sources[a].image_id == row.id);
}

} // verus!

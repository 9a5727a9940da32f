//! What images are registered as, told by the rows.
use crate::catalog_images;
use crate::catalog_images::register;
use crate::catalog_images::register::ImportImageRequest;
use crate::catalog_images::{ImageRole, TranslationState};
use crate::lookups;
use crate::support;
use crate::tables;
use crate::tables::TablesModel;
use vstd::prelude::*;

verus! {

/// A row is that of a variant of a physical file, and the first such.
pub open spec fn is_variant(m: TablesModel, i: int, asset: Seq<char>, variant: Seq<char>) -> bool {
    0 <= i < m.images.len() && m.images[i].asset_id == asset && m.images[i].variant_id == variant
        && forall|j: int|
        0 <= j < i && (#[trigger] m.images[j]).asset_id == asset ==> m.images[j].variant_id
            != variant
}

/// No two images have one identity, and no two are one variant of a physical file.
pub open spec fn images_keyed(m: TablesModel) -> bool {
    &&& forall|i: int, j: int|
        0 <= i < j < m.images.len() ==> (#[trigger] m.images[i]).id != (#[trigger] m.images[j]).id
    &&& forall|i: int, j: int|
        0 <= i < j < m.images.len() && (#[trigger] m.images[i]).asset_id == (
        #[trigger] m.images[j]).asset_id ==> m.images[i].variant_id != m.images[j].variant_id
}

/// A record is known to be imported as an image.
pub open spec fn is_mapping(x: tables::ImportMappingModel, r: ImportImageRequest, image: Seq<char>) -> bool {
    &&& x.import_source == r.import_source@
    &&& x.capture_revision == r.capture_revision@
    &&& x.source_table == r.source_table@
    &&& x.source_id == r.source_id@
    &&& x.input_digest == r.input_digest@
    &&& x.adapter_version == r.adapter_version@
    &&& x.image_id == image
}

/// A record was imported before.
pub open spec fn is_known(m: TablesModel, r: ImportImageRequest) -> bool {
    exists|x: int|
        0 <= x < m.import_map.len() && (#[trigger] m.import_map[x]).import_source
            == r.import_source@ && m.import_map[x].capture_revision == r.capture_revision@
            && m.import_map[x].source_table == r.source_table@ && m.import_map[x].source_id
            == r.source_id@
}

proof fn lemma_known(m: TablesModel, r: ImportImageRequest)
    ensures
        !is_known(m, r) ==> m.mapping_at(
            r.import_source@,
            r.capture_revision@,
            r.source_table@,
            r.source_id@,
        ) is None,
{
    support::lemma_first_where(
        m.import_map,
        lookups::mapping_for(
            r.import_source@,
            r.capture_revision@,
            r.source_table@,
            r.source_id@,
        ),
    );
    if let Some(x) = m.mapping_at(
        r.import_source@,
        r.capture_revision@,
        r.source_table@,
        r.source_id@,
    ) {
        assert(m.import_map[x].import_source == r.import_source@);
    }
}

pub(crate) proof fn lemma_variant(m: TablesModel, asset: Seq<char>, variant: Seq<char>)
    ensures
        m.image_of(asset, variant) matches Some(i) ==> is_variant(m, i, asset, variant),
        m.image_of(asset, variant) is None ==> forall|j: int|
            0 <= j < m.images.len() && (#[trigger] m.images[j]).asset_id == asset
                ==> m.images[j].variant_id != variant,
{
    let q = lookups::image_with_key(asset, variant);
    support::lemma_first_where(m.images, q);
    match m.image_of(asset, variant) {
        Some(i) => {
            assert forall|j: int|
                0 <= j < i && (#[trigger] m.images[j]).asset_id == asset implies m.images[j].variant_id
                != variant by {
                assert(!q(m.images[j]));
            }
        },
        None => {
            assert forall|j: int|
                0 <= j < m.images.len() && (#[trigger] m.images[j]).asset_id == asset implies m.images[j].variant_id
                != variant by {
                assert(!q(m.images[j]));
            }
        },
    }
}

pub(crate) proof fn lemma_image(m: TablesModel, i: int)
    requires
        images_keyed(m),
        0 <= i < m.images.len(),
    ensures
        m.image_at(m.images[i].id) == Some(i),
        m.image_of(m.images[i].asset_id, m.images[i].variant_id) == Some(i),
{
    let q = lookups::image_with_id(m.images[i].id);
    assert forall|j: int| 0 <= j < i implies !q(#[trigger] m.images[j]) by {
        assert(m.images[j].id != m.images[i].id);
    }
    support::lemma_first_found(m.images, q, i);
    let k = lookups::image_with_key(m.images[i].asset_id, m.images[i].variant_id);
    assert forall|j: int| 0 <= j < i implies !k(#[trigger] m.images[j]) by {
        assert(m.images[j].asset_id == m.images[i].asset_id ==> m.images[j].variant_id
            != m.images[i].variant_id);
    }
    support::lemma_first_found(m.images, k, i);
}

proof fn lemma_linked_frame(m: TablesModel, image: Seq<char>, asset: Seq<char>, n: nat)
    ensures
        m.shared_sources_linked(image, asset, n) matches Ok(after) ==> after == (TablesModel {
            image_sources: after.image_sources,
            image_observations: after.image_observations,
            ..m
        }),
    decreases n,
{
    if n > 0 {
        lemma_linked_frame(m, image, asset, (n - 1) as nat);
    }
}

/// The row of an image that was imported anew is as the record asks for: a variant of its
/// physical file in the role that was asked for, imported and not yet translated, with a number
/// above all that were there, and under the master that was named.
pub open spec fn is_import(
    m: TablesModel,
    row: tables::ImageModel,
    r: ImportImageRequest,
    parent: Option<i64>,
) -> bool {
    &&& row.asset_id == r.asset_id@
    &&& row.role == r.role
    &&& row.imported
    &&& row.translation_state == TranslationState::Untranslated
    &&& row.copied_from_sequence is None
    &&& row.master_sequence == parent
    &&& row.sequence == m.image_high + 1
}

/// A record that is imported for the first time, and not as a reserved master, becomes a new
/// image of the physical file that it names, in its role. A virtual copy stands under a master
/// of the same file, and a master under none. The record is then known to be imported as that
/// image, and the variant has the record's label; all other images stay.
pub proof fn law_new_imports_are_as_requested(
    m: TablesModel,
    r: ImportImageRequest,
    fresh_image: Seq<char>,
    fresh_variant: Seq<char>,
)
    requires
        images_keyed(m),
        !r.claim_reserved_master,
        !is_known(m, r),
    ensures
        register::register_outcome(m, r, fresh_image, fresh_variant) matches Ok((after, image)) ==> {
            &&& r.role == ImageRole::Master || r.role == ImageRole::Virtual
            &&& after.images.len() == m.images.len() + 1
            &&& forall|j: int| 0 <= j < m.images.len() ==> #[trigger] after.images[j] == m.images[j]
            &&& is_import(m, after.images.last(), r, image.master_sequence)
            &&& image == catalog_images::image_view(after.images.last())
            &&& image.key.asset_id == r.asset_id@
            &&& image.role == r.role
            &&& r.role == ImageRole::Master ==> image.master_sequence is None
            &&& r.role == ImageRole::Virtual ==> exists|i: int|
                0 <= i < m.images.len() && (#[trigger] m.images[i]).asset_id == r.asset_id@
                    && m.images[i].role == ImageRole::Master && (r.master matches Some(k)
                    && k.asset_id@ == r.asset_id@ && k.variant_id@ == m.images[i].variant_id)
                    && image.master_sequence == Some(m.images[i].sequence)
            &&& after.import_map.len() == m.import_map.len() + 1
            &&& is_mapping(after.import_map.last(), r, image.id)
            &&& after.variants.last().asset_id == r.asset_id@
            &&& after.variants.last().id == image.key.variant_id
            &&& after.variants.last().label == r.label@
        },
{
    lemma_known(m, r);
    if let Ok((after, image)) = register::register_outcome(m, r, fresh_image, fresh_variant) {
        let parent = register::master_parent(m, r)->Ok_0;
        let a = m.asset_at(r.asset_id@)->Some_0;
        let m1 = register::placed(
            m,
            r,
            parent,
            m.assets[a].shared_epoch,
            fresh_image,
            fresh_variant,
        )->Ok_0;
        let last = m.images.len() as int;
        support::lemma_first_where(m.images, lookups::image_with_id(fresh_image));
        lemma_variant(m, r.asset_id@, fresh_variant);
        assert(images_keyed(m1)) by {
            assert forall|i: int, j: int| 0 <= i < j < m1.images.len() implies (
            #[trigger] m1.images[i]).id != (#[trigger] m1.images[j]).id by {
                assert(m1.images[i] == m.images[i]);
                if j == last {
                    assert(!lookups::image_with_id(fresh_image)(m.images[i]));
                }
            }
            assert forall|i: int, j: int|
                0 <= i < j < m1.images.len() && (#[trigger] m1.images[i]).asset_id == (
                #[trigger] m1.images[j]).asset_id implies m1.images[i].variant_id
                != m1.images[j].variant_id by {
                assert(m1.images[i] == m.images[i]);
            }
        }
        lemma_image(m1, last);
        lemma_linked_frame(m1, fresh_image, r.asset_id@, m1.sources.len());
        let m2 = m1.shared_sources_linked(fresh_image, r.asset_id@, m1.sources.len())->Ok_0;
        assert(m2.images == m1.images);
        assert(after.images == m1.images);
        if let Some(k) = r.master {
            lemma_variant(m, k@.asset_id, k@.variant_id);
            let i = m.image_of(k@.asset_id, k@.variant_id)->Some_0;
            lemma_image(m, i);
            assert(m.images[i].asset_id == r.asset_id@);
        }
    }
}

/// A reserved master is claimed only by the owner of its reservation, only as a master, and only
/// where nothing was imported as it before. It is then an imported image that is not yet
/// translated, known to be the record's, and the reservation is over.
pub proof fn law_only_owners_claim_reserved_masters(
    m: TablesModel,
    r: ImportImageRequest,
    fresh_image: Seq<char>,
    fresh_variant: Seq<char>,
)
    requires
        images_keyed(m),
        r.claim_reserved_master,
        !is_known(m, r),
    ensures
        register::register_outcome(m, r, fresh_image, fresh_variant) matches Ok((after, image)) ==> {
            &&& r.role == ImageRole::Master
            &&& exists|k: int|
                0 <= k < m.reservations.len() && (#[trigger] m.reservations[k]).asset_id
                    == r.asset_id@ && m.reservations[k].owner == r.import_source@
                    && after.reservations == m.reservations.remove(k)
            &&& forall|x: int|
                0 <= x < m.import_map.len() ==> (#[trigger] m.import_map[x]).image_id != r.asset_id@
            &&& forall|v: int|
                0 <= v < m.variants.len() ==> (#[trigger] m.variants[v]).asset_id != r.asset_id@
            &&& image.key.asset_id == r.asset_id@
            &&& image.key.variant_id == "master"@
            &&& after.images.len() == m.images.len()
            &&& forall|j: int|
                0 <= j < m.images.len() && (#[trigger] m.images[j]).id == r.asset_id@
                    ==> after.images[j].imported && after.images[j].translation_state
                    == TranslationState::Untranslated && after.images[j].role == m.images[j].role
            &&& forall|j: int|
                0 <= j < m.images.len() && (#[trigger] m.images[j]).id != r.asset_id@
                    ==> after.images[j] == m.images[j]
            &&& is_mapping(after.import_map.last(), r, image.id)
        },
{
    lemma_known(m, r);
    if let Ok((after, image)) = register::register_outcome(m, r, fresh_image, fresh_variant) {
        support::lemma_first_where(m.reservations, lookups::reservation_for(r.asset_id@));
        support::lemma_first_where(m.import_map, lookups::mapping_to(r.asset_id@));
        support::lemma_first_where(m.variants, lookups::variant_with_asset(r.asset_id@));
        let k = m.reservation_at(r.asset_id@)->Some_0;
        assert(m.reservations[k].asset_id == r.asset_id@);
        assert forall|x: int| 0 <= x < m.import_map.len() implies (
        #[trigger] m.import_map[x]).image_id != r.asset_id@ by {
            assert(!lookups::mapping_to(r.asset_id@)(m.import_map[x]));
        }
        assert forall|v: int| 0 <= v < m.variants.len() implies (#[trigger] m.variants[v]).asset_id
            != r.asset_id@ by {
            assert(!lookups::variant_with_asset(r.asset_id@)(m.variants[v]));
        }
        let parent = register::master_parent(m, r)->Ok_0;
        let a = m.asset_at(r.asset_id@)->Some_0;
        let m1 = register::placed(
            m,
            r,
            parent,
            m.assets[a].shared_epoch,
            fresh_image,
            "master"@,
        )->Ok_0;
        lemma_variant(m1, r.asset_id@, "master"@);
        support::lemma_first_where(m.images, lookups::image_with_id(r.asset_id@));
        let i = m1.image_of(r.asset_id@, "master"@)->Some_0;
        let id = m1.images[i].id;
        assert(images_keyed(m1)) by {
            assert forall|x: int, y: int| 0 <= x < y < m1.images.len() implies (
            #[trigger] m1.images[x]).id != (#[trigger] m1.images[y]).id by {
                assert(m.images[x].id != m.images[y].id);
            }
            assert forall|x: int, y: int|
                0 <= x < y < m1.images.len() && (#[trigger] m1.images[x]).asset_id == (
                #[trigger] m1.images[y]).asset_id implies m1.images[x].variant_id
                != m1.images[y].variant_id by {
                assert(m.images[x].asset_id == m.images[y].asset_id ==> m.images[x].variant_id
                    != m.images[y].variant_id);
            }
        }
        lemma_image(m1, i);
        lemma_linked_frame(m1, id, r.asset_id@, m1.sources.len());
        let m2 = m1.shared_sources_linked(id, r.asset_id@, m1.sources.len())->Ok_0;
        assert(after.images == m1.images);
        assert forall|j: int|
            0 <= j < m.images.len() && (#[trigger] m.images[j]).id == r.asset_id@ implies after.images[j].imported
            && after.images[j].translation_state == TranslationState::Untranslated
            && after.images[j].role == m.images[j].role by {
            lemma_image(m, j);
        }
    }
}

/// A copy is a new image of the same physical file under its own variant, in the role of a
/// copy made here, under no master, and known to be copied from its original; no image of that
/// variant was there, and all other images stay.
pub proof fn law_copies_are_variants_of_their_file(
    m: TablesModel,
    key: catalog_images::VariantKeyModel,
    source: catalog_images::VariantKeyModel,
    fresh: Seq<char>,
)
    requires
        images_keyed(m),
    ensures
        register::copy_outcome(m, key, source, fresh) matches Ok(after) ==> {
            &&& after.images.len() == m.images.len() + 1
            &&& forall|j: int| 0 <= j < m.images.len() ==> #[trigger] after.images[j] == m.images[j]
            &&& after.images.last().id == fresh
            &&& after.images.last().asset_id == key.asset_id
            &&& after.images.last().variant_id == key.variant_id
            &&& after.images.last().role == ImageRole::NativeCopy
            &&& after.images.last().translation_state == TranslationState::Native
            &&& !after.images.last().imported
            &&& after.images.last().master_sequence is None
            &&& after.images.last().sequence == m.image_high + 1
            &&& exists|i: int|
                0 <= i < m.images.len() && (#[trigger] m.images[i]).asset_id == source.asset_id
                    && m.images[i].variant_id == source.variant_id && m.images[i].asset_id
                    == key.asset_id && after.images.last().copied_from_sequence == Some(
                    m.images[i].sequence,
                )
            &&& forall|j: int|
                0 <= j < m.images.len() ==> (#[trigger] m.images[j]).id != fresh && !(
                m.images[j].asset_id == key.asset_id && m.images[j].variant_id == key.variant_id)
        },
{
    if let Ok(after) = register::copy_outcome(m, key, source, fresh) {
        lemma_variant(m, source.asset_id, source.variant_id);
        lemma_variant(m, key.asset_id, key.variant_id);
        let i = m.image_of(source.asset_id, source.variant_id)->Some_0;
        lemma_image(m, i);
        support::lemma_first_where(m.images, lookups::image_with_id(fresh));
        assert forall|j: int| 0 <= j < m.images.len() implies (#[trigger] m.images[j]).id != fresh
            && !(m.images[j].asset_id == key.asset_id && m.images[j].variant_id == key.variant_id) by {
            assert(!lookups::image_with_id(fresh)(m.images[j]));
        }
    }
}

/// An image follows a change of a shared source: where it uses the source on its own account
/// nothing is changed, and otherwise it uses the source from then on as the change says.
pub proof fn law_followers_take_over_the_change(
    m: TablesModel,
    image: Seq<char>,
    e: tables::SharedEventModel,
)
    requires
        crate::catalog_metadata::reconcile_laws::rows_keyed(m),
    ensures
        m.followed(image, e) matches Ok(after) ==> {
            &&& (exists|a: int|
                0 <= a < m.image_sources.len() && (#[trigger] m.image_sources[a]).image_id == image
                    && m.image_sources[a].source_id == e.source_id
                    && !m.image_sources[a].follow_file) ==> after == m
            &&& (forall|a: int|
                0 <= a < m.image_sources.len() && (#[trigger] m.image_sources[a]).image_id == image
                    && m.image_sources[a].source_id == e.source_id
                    ==> m.image_sources[a].follow_file) && (exists|s: int|
                0 <= s < m.sources.len() && (#[trigger] m.sources[s]).id == e.source_id)
                ==> exists|a: int|
                0 <= a < after.image_sources.len() && (#[trigger] after.image_sources[a]).image_id
                    == image && after.image_sources[a].source_id == e.source_id
                    && after.image_sources[a].current_observation == e.current_observation
                    && after.image_sources[a].association == e.association
                    && after.image_sources[a].availability == e.availability
        },
{
    let q = lookups::image_source_for(image, e.source_id);
    support::lemma_first_where(m.image_sources, q);
    let sq = lookups::source_with_id(e.source_id);
    support::lemma_first_where(m.sources, sq);
    if let Ok(after) = m.followed(image, e) {
        let at = m.image_source_at(image, e.source_id);
        if exists|a: int|
            0 <= a < m.image_sources.len() && (#[trigger] m.image_sources[a]).image_id == image
                && m.image_sources[a].source_id == e.source_id && !m.image_sources[a].follow_file {
            let a = choose|a: int|
                0 <= a < m.image_sources.len() && (#[trigger] m.image_sources[a]).image_id == image
                    && m.image_sources[a].source_id == e.source_id
                    && !m.image_sources[a].follow_file;
            assert(q(m.image_sources[a]));
            let f = at->Some_0;
            if f < a {
                assert(m.image_sources[f].source_id != m.image_sources[a].source_id);
            } else if a < f {
                assert(!q(m.image_sources[a]));
            }
        }
        if (forall|a: int|
            0 <= a < m.image_sources.len() && (#[trigger] m.image_sources[a]).image_id == image
                && m.image_sources[a].source_id == e.source_id ==> m.image_sources[a].follow_file)
            && (exists|s: int|
            0 <= s < m.sources.len() && (#[trigger] m.sources[s]).id == e.source_id) {
            let s = choose|s: int|
                0 <= s < m.sources.len() && (#[trigger] m.sources[s]).id == e.source_id;
            assert(sq(m.sources[s]));
            if let Some(f) = at {
                assert(m.image_sources[f].image_id == image);
            }
            let m1 = m.linked_option(image, e.observation_id)->Ok_0;
            let m2 = m1.linked_option(image, e.current_observation)->Ok_0;
            let m3 = m2.following(
                image,
                e.source_id,
                e.current_observation,
                e.association,
                e.availability,
            )->Ok_0;
            assert(m2.image_sources == m.image_sources);
            assert(after.image_sources == m3.image_sources);
            let a = match at {
                Some(f) => f,
                None => m.image_sources.len() as int,
            };
            assert(after.image_sources[a].image_id == image);
        }
    }
}

/// A physical file is reserved for an owner only while there is no such file and nobody else has
/// reserved it, under a name and for an owner that are given and within bounds.
pub proof fn law_only_new_files_are_reserved(m: TablesModel, asset: Seq<char>, owner: Seq<char>)
    ensures
        register::reserve_refusal(m, asset, owner) is None <==> {
            &&& 0 < asset.len() && support::byte_length(asset) <= 256
            &&& 0 < owner.len() && support::byte_length(owner) <= 32768
            &&& forall|a: int| 0 <= a < m.assets.len() ==> (#[trigger] m.assets[a]).id != asset
            &&& forall|k: int|
                0 <= k < m.reservations.len() ==> (#[trigger] m.reservations[k]).asset_id != asset
        },
{
    let p = lookups::asset_with_id(asset);
    support::lemma_first_where(m.assets, p);
    match m.asset_at(asset) {
        Some(a) => {
            assert(m.assets[a].id == asset);
        },
        None => {
            assert forall|a: int| 0 <= a < m.assets.len() implies (#[trigger] m.assets[a]).id
                != asset by {
                assert(!p(m.assets[a]));
            }
        },
    }
    let q = lookups::reservation_for(asset);
    support::lemma_first_where(m.reservations, q);
    match m.reservation_at(asset) {
        Some(k) => {
            assert(m.reservations[k].asset_id == asset);
        },
        None => {
            assert forall|k: int| 0 <= k < m.reservations.len() implies (
            #[trigger] m.reservations[k]).asset_id != asset by {
                assert(!q(m.reservations[k]));
            }
        },
    }
}

} // verus!

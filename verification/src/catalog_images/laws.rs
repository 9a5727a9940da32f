//! What holds of the images of a catalog however they came into it.
use crate::catalog_images;
use crate::catalog_images::register;
use crate::catalog_images::upgrade;
use crate::catalog_images::{ImageRole, TranslationState};
use crate::error::CatalogError;
use crate::lookups;
use crate::support;
use crate::tables;
use crate::tables::TablesModel;
use vstd::prelude::*;

verus! {

/// The image with a sequence number, if it shows the same physical file and has a
/// smaller number than `below`.
pub open spec fn relative(images: Seq<tables::ImageModel>, row: tables::ImageModel, sequence: i64) -> bool {
    exists|j: int|
        0 <= j < images.len() && (#[trigger] images[j]).sequence == sequence && images[j].asset_id
            == row.asset_id && sequence < row.sequence
}

/// The image with a sequence number is a master of the same physical file.
pub open spec fn master_of(images: Seq<tables::ImageModel>, row: tables::ImageModel, sequence: i64) -> bool {
    exists|j: int|
        0 <= j < images.len() && (#[trigger] images[j]).sequence == sequence && images[j].asset_id
            == row.asset_id && images[j].role == ImageRole::Master
}

/// An image's role, parent and variant fit together.
pub open spec fn image_wf(images: Seq<tables::ImageModel>, row: tables::ImageModel) -> bool {
    &&& row.variant_id == "master"@ ==> row.role == ImageRole::Master && row.id == row.asset_id
    &&& (row.role == ImageRole::Virtual) == (row.master_sequence is Some)
    &&& row.master_sequence matches Some(s) ==> master_of(images, row, s)
    &&& row.copied_from_sequence matches Some(s) ==> relative(images, row, s)
}

/// Two images are told apart by identity, by number and by variant.
pub open spec fn distinct(a: tables::ImageModel, b: tables::ImageModel) -> bool {
    a.id != b.id && a.sequence < b.sequence && (a.asset_id != b.asset_id || a.variant_id
        != b.variant_id)
}

impl TablesModel {
    /// Images are numbered in the order in which they came, are told apart by
    /// identity and by variant, and fit together with their parents.
    pub open spec fn images_wf(self) -> bool {
        &&& forall|i: int|
            0 <= i < self.images.len() ==> (#[trigger] self.images[i]).sequence <= self.image_high
                && image_wf(self.images, self.images[i])
        &&& forall|i: int, j: int|
            0 <= i < j < self.images.len() ==> distinct(
                #[trigger] self.images[i],
                #[trigger] self.images[j],
            )
    }
}

/// An image that fits in can be added.
proof fn lemma_added(m: TablesModel, after: TablesModel, row: tables::ImageModel)
    requires
        m.images_wf(),
        row.sequence > m.image_high,
        m.image_at(row.id) is None,
        m.image_of(row.asset_id, row.variant_id) is None,
        image_wf(m.images, row),
        after.images == m.images.push(row),
        after.image_high == row.sequence,
    ensures
        after.images_wf(),
{
    support::lemma_first_where(m.images, lookups::image_with_id(row.id));
    support::lemma_first_where(m.images, lookups::image_with_key(row.asset_id, row.variant_id));
    assert forall|i: int| 0 <= i < after.images.len() implies (#[trigger] after.images[i]).sequence
        <= after.image_high && image_wf(after.images, after.images[i]) by {
        let here = if i < m.images.len() {
            m.images[i]
        } else {
            row
        };
        assert(image_wf(m.images, here));
        lemma_grown(m.images, after.images, here);
    }
    assert forall|i: int, j: int| 0 <= i < j < after.images.len() implies distinct(
        #[trigger] after.images[i],
        #[trigger] after.images[j],
    ) by {
        assert(after.images[i] == m.images[i]);
        if j < m.images.len() {
            assert(after.images[j] == m.images[j]);
        } else {
            assert(!lookups::image_with_id(row.id)(m.images[i]));
            assert(!lookups::image_with_key(row.asset_id, row.variant_id)(m.images[i]));
        }
    }
}

proof fn lemma_grown(
    images: Seq<tables::ImageModel>,
    after: Seq<tables::ImageModel>,
    row: tables::ImageModel,
)
    requires
        image_wf(images, row),
        after.len() == images.len() + 1,
        after == images.push(after.last()),
    ensures
        image_wf(after, row),
{
    if let Some(s) = row.master_sequence {
        let j = choose|j: int|
            0 <= j < images.len() && (#[trigger] images[j]).sequence == s && images[j].asset_id
                == row.asset_id && images[j].role == ImageRole::Master;
        assert(after[j] == images[j]);
    }
    if let Some(s) = row.copied_from_sequence {
        let j = choose|j: int|
            0 <= j < images.len() && (#[trigger] images[j]).sequence == s && images[j].asset_id
                == row.asset_id && s < row.sequence;
        assert(after[j] == images[j]);
    }
}

/// A new physical file's master image fits in with the images there are.
pub proof fn law_new_files_fit_in(m: TablesModel, asset: register::NewAsset)
    requires
        m.images_wf(),
        register::insert_asset_outcome(m, asset) is Ok,
    ensures
        register::insert_asset_outcome(m, asset)->Ok_0.images_wf(),
{
    let after = register::insert_asset_outcome(m, asset)->Ok_0;
    lemma_added(m, after, after.images.last());
}

/// A copy fits in with the images there are, whatever identity it is given: it
/// was copied from an earlier image of the same physical file and has no parent.
pub proof fn law_copies_fit_in(
    m: TablesModel,
    key: catalog_images::VariantKeyModel,
    source: catalog_images::VariantKeyModel,
    fresh: Seq<char>,
)
    requires
        m.images_wf(),
        key.variant_id != "master"@,
        register::copy_outcome(m, key, source, fresh) is Ok,
    ensures
        register::copy_outcome(m, key, source, fresh)->Ok_0.images_wf(),
{
    let after = register::copy_outcome(m, key, source, fresh)->Ok_0;
    let from = m.id_of(source)->0;
    let i = m.image_at(from)->0;
    support::lemma_first_where(m.images, lookups::image_with_id(from));
    let row = after.images.last();
    assert(relative(m.images, row, m.images[i].sequence)) by {
        assert(m.images[i].sequence <= m.image_high);
        assert(m.images[i].asset_id == row.asset_id);
    }
    lemma_added(m, after, row);
}

/// An image that was found is one of the images.
proof fn lemma_found(m: TablesModel, key: catalog_images::VariantKeyModel)
    requires
        m.images_wf(),
        m.id_of(key) is Some,
    ensures
        ({
            let i = m.image_of(key.asset_id, key.variant_id)->0;
            0 <= i < m.images.len() && m.images[i].asset_id == key.asset_id
                && m.images[i].variant_id == key.variant_id && m.image_at(m.id_of(key)->0) == Some(
                i,
            )
        }),
{
    let i = m.image_of(key.asset_id, key.variant_id)->0;
    support::lemma_first_where(
        m.images,
        lookups::image_with_key(key.asset_id, key.variant_id),
    );
    let id = m.images[i].id;
    support::lemma_first_where(m.images, lookups::image_with_id(id));
    let k = m.image_at(id);
    match k {
        Some(j) => {
            if j < i {
                assert(distinct(m.images[j], m.images[i]));
            } else if i < j {
                assert(distinct(m.images[i], m.images[j]));
            }
        },
        None => {
            assert(lookups::image_with_id(id)(m.images[i]));
        },
    }
}

/// The images after a source record was imported for the first time.
proof fn lemma_registered(
    m: TablesModel,
    r: register::ImportImageRequest,
    fresh_image: Seq<char>,
    fresh_variant: Seq<char>,
)
    requires
        m.images_wf(),
        fresh_variant != "master"@,
        r.role != ImageRole::NativeCopy,
        register::registered(m, r, fresh_image, fresh_variant) is Ok,
    ensures
        ({
            let (after, image) = register::registered(m, r, fresh_image, fresh_variant)->Ok_0;
            &&& after.images_wf()
            &&& image.key.asset_id == r.asset_id@
            &&& image.role == r.role
            &&& register::named_parent(after, r) == Ok::<Option<i64>, CatalogError>(
                image.master_sequence,
            )
            &&& after.image_at(image.id) matches Some(i) && catalog_images::image_view(
                after.images[i],
            ) == image
            &&& after.import_map == m.import_map.push(after.import_map.last())
            &&& after.import_map.last() == (tables::ImportMappingModel {
                import_source: r.import_source@,
                capture_revision: r.capture_revision@,
                source_table: r.source_table@,
                source_id: r.source_id@,
                input_digest: r.input_digest@,
                adapter_version: r.adapter_version@,
                image_id: image.id,
            })
        }),
{
    let (after, image) = register::registered(m, r, fresh_image, fresh_variant)->Ok_0;
    let a = m.asset_at(r.asset_id@)->0;
    let parent = register::master_parent(m, r)->Ok_0;
    let variant = if r.claim_reserved_master {
        "master"@
    } else {
        fresh_variant
    };
    let m1 = register::placed(
        m,
        r,
        parent,
        m.assets[a].shared_epoch,
        fresh_image,
        variant,
    )->Ok_0;
    let i = m1.image_of(r.asset_id@, variant)->0;
    let id = m1.images[i].id;
    register::lemma_linked_frame(m1, id, r.asset_id@, m1.sources.len());
    let m2 = m1.shared_sources_linked(id, r.asset_id@, m1.sources.len())->Ok_0;
    assert(after.images == m1.images);
    assert(after.image_high == m1.image_high);
    if let Some(k) = r.master {
        lemma_found(m, k@);
    }
    support::lemma_first_where(m1.images, lookups::image_with_key(r.asset_id@, variant));
    if r.claim_reserved_master {
        support::lemma_first_where(m.images, lookups::image_with_id(r.asset_id@));
        if let Some(c) = m.image_at(r.asset_id@) {
            lemma_claimed(m, m1, c);
        } else {
            assert(m1.images == m.images);
        }
        assert(image_wf(m1.images, m1.images[i]));
    } else {
        let row = m1.images.last();
        support::lemma_pushed(
            m.images,
            m1.images,
            lookups::image_with_key(r.asset_id@, variant),
        );
        assert(i == m.images.len());
        if let Some(s) = parent {
            let k = r.master->0;
            let p = m.image_of(k@.asset_id, k@.variant_id)->0;
            assert(m.images[p].sequence == s);
            assert(master_of(m.images, row, s));
        }
        lemma_added(m, m1, row);
        if let Some(k) = r.master {
            support::lemma_pushed(
                m.images,
                m1.images,
                lookups::image_with_key(k@.asset_id, k@.variant_id),
            );
            support::lemma_pushed(
                m.images,
                m1.images,
                lookups::image_with_id(m.id_of(k@)->0),
            );
        }
    }
    assert(after.images_wf());
    lemma_found(
        after,
        catalog_images::VariantKeyModel { asset_id: r.asset_id@, variant_id: variant },
    );
}

/// Claiming an image changes neither identities nor roles.
proof fn lemma_claimed(m: TablesModel, after: TablesModel, c: int)
    requires
        m.images_wf(),
        0 <= c < m.images.len(),
        after.images == m.images.update(
            c,
            tables::ImageModel {
                imported: true,
                translation_state: TranslationState::Untranslated,
                ..m.images[c]
            },
        ),
        after.image_high == m.image_high,
    ensures
        after.images_wf(),
{
    assert forall|i: int| 0 <= i < after.images.len() implies (#[trigger] after.images[i]).sequence
        <= after.image_high && image_wf(after.images, after.images[i]) by {
        let row = m.images[i];
        assert(image_wf(m.images, row));
        if let Some(s) = row.master_sequence {
            let j = choose|j: int|
                0 <= j < m.images.len() && (#[trigger] m.images[j]).sequence == s
                    && m.images[j].asset_id == row.asset_id && m.images[j].role
                    == ImageRole::Master;
            assert(after.images[j].sequence == s);
        }
        if let Some(s) = row.copied_from_sequence {
            let j = choose|j: int|
                0 <= j < m.images.len() && (#[trigger] m.images[j]).sequence == s
                    && m.images[j].asset_id == row.asset_id && s < row.sequence;
            assert(after.images[j].sequence == s);
        }
    }
    assert forall|i: int, j: int| 0 <= i < j < after.images.len() implies distinct(
        #[trigger] after.images[i],
        #[trigger] after.images[j],
    ) by {
        assert(distinct(m.images[i], m.images[j]));
    }
}

/// An imported image fits in with the images there are: a virtual image has a
/// master of the same physical file as its parent, and no other image has one.
pub proof fn law_imports_fit_in(
    m: TablesModel,
    r: register::ImportImageRequest,
    fresh_image: Seq<char>,
    fresh_variant: Seq<char>,
)
    requires
        m.images_wf(),
        fresh_variant != "master"@,
        register::register_outcome(m, r, fresh_image, fresh_variant) is Ok,
    ensures
        register::register_outcome(m, r, fresh_image, fresh_variant)->Ok_0.0.images_wf(),
{
    if m.mapping_at(r.import_source@, r.capture_revision@, r.source_table@, r.source_id@) is None {
        lemma_registered(m, r, fresh_image, fresh_variant);
    }
}

/// Importing a source record again gives the same image and changes nothing,
/// whatever identities are drawn the second time.
pub proof fn law_imports_replay(
    m: TablesModel,
    r: register::ImportImageRequest,
    fresh_image: Seq<char>,
    fresh_variant: Seq<char>,
    other_image: Seq<char>,
    other_variant: Seq<char>,
)
    requires
        m.images_wf(),
        fresh_variant != "master"@,
        register::register_outcome(m, r, fresh_image, fresh_variant) is Ok,
    ensures
        ({
            let first = register::register_outcome(m, r, fresh_image, fresh_variant);
            register::register_outcome(first->Ok_0.0, r, other_image, other_variant) == first
        }),
{
    if m.mapping_at(r.import_source@, r.capture_revision@, r.source_table@, r.source_id@) is None {
        lemma_registered(m, r, fresh_image, fresh_variant);
        let after = register::registered(m, r, fresh_image, fresh_variant)->Ok_0.0;
        support::lemma_pushed(
            m.import_map,
            after.import_map,
            lookups::mapping_for(
                r.import_source@,
                r.capture_revision@,
                r.source_table@,
                r.source_id@,
            ),
        );
    }
}

/// Two requests are about the same record of the same source.
pub open spec fn same_record(a: register::ImportImageRequest, b: register::ImportImageRequest) -> bool {
    &&& a.import_source@ == b.import_source@
    &&& a.capture_revision@ == b.capture_revision@
    &&& a.source_table@ == b.source_table@
    &&& a.source_id@ == b.source_id@
}

/// A record that was imported stays as it was imported. A later request for it gives the
/// same image and changes nothing, whatever identities are drawn, where it has the same
/// digest, adapter version, file, role and parent and names that are not too long; with any
/// of these different it fails.
pub proof fn law_imported_records_stay_as_they_are(
    m: TablesModel,
    r: register::ImportImageRequest,
    fresh_image: Seq<char>,
    fresh_variant: Seq<char>,
    again: register::ImportImageRequest,
    other_image: Seq<char>,
    other_variant: Seq<char>,
)
    requires
        m.images_wf(),
        fresh_variant != "master"@,
        register::register_outcome(m, r, fresh_image, fresh_variant) is Ok,
        same_record(r, again),
    ensures
        ({
            let first = register::register_outcome(m, r, fresh_image, fresh_variant);
            let after = first->Ok_0.0;
            let second = register::register_outcome(after, again, other_image, other_variant);
            if again.bounded() && again.input_digest@ == r.input_digest@ && again.adapter_version@
                == r.adapter_version@ && again.asset_id@ == r.asset_id@ && again.role == r.role
                && register::named_parent(after, again) == register::named_parent(after, r) {
                second == first
            } else {
                second is Err
            }
        }),
{
    let first = register::register_outcome(m, r, fresh_image, fresh_variant);
    let after = first->Ok_0.0;
    law_imports_replay(m, r, fresh_image, fresh_variant, other_image, other_variant);
    if m.mapping_at(r.import_source@, r.capture_revision@, r.source_table@, r.source_id@) is None {
        lemma_registered(m, r, fresh_image, fresh_variant);
        support::lemma_pushed(
            m.import_map,
            after.import_map,
            lookups::mapping_for(
                r.import_source@,
                r.capture_revision@,
                r.source_table@,
                r.source_id@,
            ),
        );
    }
    assert(after.mapping_at(
        again.import_source@,
        again.capture_revision@,
        again.source_table@,
        again.source_id@,
    ) is Some);
}

/// The files of a catalog are told apart, and numbered in the order in which they came.
pub open spec fn files_wf(m: TablesModel, sequences: Seq<i64>) -> bool {
    &&& sequences.len() == m.assets.len()
    &&& forall|i: int| 0 <= i < sequences.len() ==> 0 < #[trigger] sequences[i]
    &&& forall|i: int, j: int|
        0 <= i < j < sequences.len() ==> #[trigger] sequences[i] < #[trigger] sequences[j]
    &&& forall|i: int, j: int|
        0 <= i < j < m.assets.len() ==> (#[trigger] m.assets[i]).id != (#[trigger] m.assets[j]).id
}

/// The master image of a file that is numbered.
pub open spec fn master_image(m: TablesModel, sequences: Seq<i64>, k: int) -> tables::ImageModel {
    upgrade::native_image(
        sequences[k],
        m.assets[k].id,
        m.assets[k].id,
        "master"@,
        ImageRole::Master,
    )
}

pub(crate) proof fn lemma_masters(m: TablesModel, sequences: Seq<i64>, n: nat)
    requires
        files_wf(m, sequences),
        m.images.len() == 0,
        m.image_high == 0,
        n <= sequences.len(),
    ensures
        ({
            let after = upgrade::masters_added(m, sequences, n);
            &&& after.images_wf()
            &&& after.shared_events == m.shared_events
            &&& after.variants == m.variants
            &&& after.images.len() == n
            &&& after.assets.len() == m.assets.len()
            &&& after.image_high == if n == 0 {
                0
            } else {
                sequences[n - 1]
            }
            &&& forall|k: int|
                0 <= k < n ==> #[trigger] after.images[k] == master_image(m, sequences, k)
            &&& forall|k: int|
                0 <= k < m.assets.len() ==> #[trigger] after.assets[k] == if k < n {
                    tables::AssetModel {
                        physical_generation: m.assets[k].render_generation,
                        shared_epoch: 0,
                        ..m.assets[k]
                    }
                } else {
                    m.assets[k]
                }
        }),
    decreases n,
{
    if n > 0 {
        lemma_masters(m, sequences, (n - 1) as nat);
        let before = upgrade::masters_added(m, sequences, (n - 1) as nat);
        let after = upgrade::masters_added(m, sequences, n);
        let row = master_image(m, sequences, n - 1);
        assert(before.assets[n - 1] == m.assets[n - 1]);
        assert forall|j: int| 0 <= j < before.images.len() implies !lookups::image_with_id(row.id)(
            #[trigger] before.images[j],
        ) by {
            assert(before.images[j] == master_image(m, sequences, j));
            assert(m.assets[j].id != m.assets[n - 1].id);
        }
        support::lemma_none_found(before.images, lookups::image_with_id(row.id));
        assert forall|j: int| 0 <= j < before.images.len() implies !lookups::image_with_key(
            row.asset_id,
            row.variant_id,
        )(#[trigger] before.images[j]) by {
            assert(before.images[j] == master_image(m, sequences, j));
            assert(m.assets[j].id != m.assets[n - 1].id);
        }
        support::lemma_none_found(
            before.images,
            lookups::image_with_key(row.asset_id, row.variant_id),
        );
        if n > 1 {
            assert(sequences[n - 2] < sequences[n - 1]);
        }
        lemma_added(before, after, row);
    }
}

proof fn lemma_variants(m: TablesModel, n: nat)
    requires
        m.images_wf(),
        upgrade::variants_added(m, n) is Ok,
    ensures
        ({
            let after = upgrade::variants_added(m, n)->Ok_0;
            &&& after.images_wf()
            &&& after.assets == m.assets
            &&& m.images.len() <= after.images.len()
            &&& forall|k: int|
                0 <= k < m.images.len() ==> #[trigger] after.images[k] == m.images[k]
        }),
    decreases n,
{
    if n > 0 {
        lemma_variants(m, (n - 1) as nat);
        let before = upgrade::variants_added(m, (n - 1) as nat)->Ok_0;
        let after = upgrade::variants_added(m, n)->Ok_0;
        if m.variants[n - 1].id != "master"@ {
            lemma_added(before, after, after.images.last());
            assert forall|k: int| 0 <= k < m.images.len() implies #[trigger] after.images[k]
                == m.images[k] by {
                assert(after.images[k] == before.images[k]);
            }
        }
    }
}

pub(crate) proof fn lemma_given(m: TablesModel, n: nat)
    ensures
        ({
            let after = upgrade::all_given(m, n);
            after.images == m.images && after.image_high == m.image_high && after.assets == m.assets
                && after.shared_events == m.shared_events
        }),
    decreases n,
{
    if n > 0 {
        lemma_given(m, (n - 1) as nat);
    }
}

/// Telling images apart from files keeps every file's number and generation: its master
/// image goes by them, and all images fit together.
pub proof fn law_migrated_files_keep_their_numbers(m: TablesModel, sequences: Seq<i64>)
    requires
        files_wf(m, sequences),
        m.images.len() == 0,
        m.image_high == 0,
        upgrade::migrated(m, sequences) is Ok,
    ensures
        ({
            let after = upgrade::migrated(m, sequences)->Ok_0;
            &&& after.images_wf()
            &&& after.images.len() >= m.assets.len()
            &&& forall|k: int|
                0 <= k < m.assets.len() ==> #[trigger] after.images[k] == master_image(
                    m,
                    sequences,
                    k,
                )
            &&& forall|k: int|
                0 <= k < m.assets.len() ==> (#[trigger] after.assets[k]).physical_generation
                    == m.assets[k].render_generation
        }),
{
    lemma_masters(m, sequences, sequences.len());
    let started = upgrade::masters_added(m, sequences, sequences.len());
    lemma_variants(started, m.variants.len());
    let with = upgrade::variants_added(started, m.variants.len())->Ok_0;
    lemma_given(with, with.images.len());
    let after = upgrade::migrated(m, sequences)->Ok_0;
    assert forall|k: int| 0 <= k < m.assets.len() implies #[trigger] after.images[k]
        == master_image(m, sequences, k) by {
        assert(with.images[k] == started.images[k]);
    }
    assert forall|k: int| 0 <= k < m.assets.len() implies (
    #[trigger] after.assets[k]).physical_generation == m.assets[k].render_generation by {
        assert(with.assets[k] == started.assets[k]);
    }
}

} // verus!

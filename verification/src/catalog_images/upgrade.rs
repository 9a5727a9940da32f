//! Telling images apart from physical files in a catalog that knew files alone.
use crate::catalog_images;
use crate::catalog_images::register;
use crate::catalog_images::register::{copy_choices, is_shared_kind};
use crate::catalog_images::{ImageRole, TranslationState};
use crate::error::CatalogError;
use crate::lookups;
use crate::support;
use crate::support::{copy_bytes, same};
use crate::tables;
use crate::tables::{
    ImageObservationRow, ImageRow, ImageSourceRow, RevisionRow, Tables, TablesModel,
};
use vstd::prelude::*;
use vstd::string::*;

verus! {

/// An image that is native to the catalog and was not copied.
pub open spec fn native_image(
    sequence: i64,
    id: Seq<char>,
    asset: Seq<char>,
    variant: Seq<char>,
    role: ImageRole,
) -> tables::ImageModel {
    tables::ImageModel {
        sequence,
        id,
        asset_id: asset,
        variant_id: variant,
        role,
        imported: false,
        master_sequence: None,
        copied_from_sequence: None,
        translation_state: TranslationState::Native,
        pixel_generation: 0,
        applied_shared_epoch: 0,
    }
}

fn make_native_image(sequence: i64, id: &str, asset: &str, variant: &str, role: ImageRole) -> (row:
    ImageRow)
    ensures
        row@ == native_image(sequence, id@, asset@, variant@, role),
{
    ImageRow {
        sequence,
        id: id.to_owned(),
        asset_id: asset.to_owned(),
        variant_id: variant.to_owned(),
        role,
        imported: false,
        master_sequence: None,
        copied_from_sequence: None,
        translation_state: TranslationState::Native,
        pixel_generation: 0,
        applied_shared_epoch: 0,
    }
}

/// The tables with a master image for each of the first `n` files, under the file's own
/// number. A file's physical generation starts from that of its renderings.
pub open spec fn masters_added(m: TablesModel, sequences: Seq<i64>, n: nat) -> TablesModel
    decreases n,
{
    if n == 0 {
        m
    } else {
        let before = masters_added(m, sequences, (n - 1) as nat);
        let asset = before.assets[n - 1];
        let sequence = sequences[n - 1];
        TablesModel {
            assets: before.assets.update(
                n - 1,
                tables::AssetModel {
                    physical_generation: asset.render_generation,
                    shared_epoch: 0,
                    ..asset
                },
            ),
            images: before.images.push(
                native_image(sequence, asset.id, asset.id, "master"@, ImageRole::Master),
            ),
            image_high: if sequence > before.image_high {
                sequence
            } else {
                before.image_high
            },
            ..before
        }
    }
}

/// The identity of the image that a variant becomes.
pub open spec fn variant_image(asset: Seq<char>, variant: Seq<char>) -> Seq<char> {
    "variant:"@ + asset + ":"@ + variant
}

/// The tables with an image for a variant, unless it is a master.
pub open spec fn variant_added(m: TablesModel, v: tables::VariantModel) -> Result<
    TablesModel,
    CatalogError,
> {
    let id = variant_image(v.asset_id, v.id);
    if v.id == "master"@ {
        Ok(m)
    } else if m.asset_at(v.asset_id) is None {
        Err(CatalogError::AssetNotFound)
    } else if m.image_at(id) is Some || m.image_of(v.asset_id, v.id) is Some {
        Err(CatalogError::ImageExists)
    } else if m.image_high == i64::MAX {
        Err(CatalogError::Exhausted)
    } else {
        let sequence = (m.image_high + 1) as i64;
        Ok(
            TablesModel {
                images: m.images.push(
                    native_image(sequence, id, v.asset_id, v.id, ImageRole::NativeCopy),
                ),
                image_high: sequence,
                ..m
            },
        )
    }
}

/// The tables with an image for each of the first `n` variants.
pub open spec fn variants_added(m: TablesModel, n: nat) -> Result<TablesModel, CatalogError>
    decreases n,
{
    if n == 0 {
        Ok(m)
    } else {
        match variants_added(m, (n - 1) as nat) {
            Err(e) => Err(e),
            Ok(before) => variant_added(before, m.variants[n - 1]),
        }
    }
}

proof fn lemma_variants_error(m: TablesModel, n: nat)
    requires
        n <= m.variants.len(),
        variants_added(m, n) is Err,
    ensures
        variants_added(m, m.variants.len()) == variants_added(m, n),
    decreases m.variants.len() - n,
{
    if n < m.variants.len() {
        lemma_variants_error(m, n + 1);
    }
}

/// A source of a physical file.
pub open spec fn source_of(asset: Seq<char>) -> spec_fn(tables::SourceModel) -> bool {
    |s: tables::SourceModel| s.asset_id == asset
}

/// An image's use of a source of its file, as the file used it.
pub open spec fn usage_from(image: Seq<char>) -> spec_fn(
    tables::SourceModel,
) -> tables::ImageSourceModel {
    |s: tables::SourceModel|
        tables::ImageSourceModel {
            image_id: image,
            source_id: s.id,
            current_observation: s.current_observation,
            follow_file: register::shared_kind(s.kind),
            logical_locator: s.locator,
            association: s.association,
            availability: s.availability,
        }
}

/// An observation of a source of a physical file.
pub open spec fn observation_of(m: TablesModel, asset: Seq<char>) -> spec_fn(
    tables::ObservationModel,
) -> bool {
    |o: tables::ObservationModel|
        m.source_at(o.source_id) matches Some(s) && m.sources[s].asset_id == asset
}

/// An observation in an image's history.
pub open spec fn membership_from(image: Seq<char>) -> spec_fn(
    tables::ObservationModel,
) -> tables::ImageObservationModel {
    |o: tables::ObservationModel|
        tables::ImageObservationModel { image_id: image, observation_id: o.id }
}

/// The tables with an image using all sources of its file, and with all observations of
/// them in its history.
pub open spec fn sources_given(m: TablesModel, image: Seq<char>, asset: Seq<char>) -> TablesModel {
    TablesModel {
        image_sources: m.image_sources + m.sources.filter(source_of(asset)).map_values(
            usage_from(image),
        ),
        image_observations: m.image_observations + m.observations.filter(
            observation_of(m, asset),
        ).map_values(membership_from(image)),
        ..m
    }
}

/// The tables with an image given what its file had: the sources and their observations
/// and, where it is no master, the revision, the choices and the values in effect. A master
/// goes by its file's name and so has those already.
pub open spec fn metadata_given(m: TablesModel, row: tables::ImageModel) -> TablesModel {
    let with = sources_given(m, row.id, row.asset_id);
    if row.variant_id == "master"@ {
        with
    } else {
        register::choices_copied(
            TablesModel {
                revisions: support::put(
                    with.revisions,
                    lookups::revision_for(row.id),
                    tables::RevisionModel {
                        image_id: row.id,
                        revision: with.revision_of(row.asset_id),
                    },
                ),
                ..with
            },
            row.asset_id,
            row.id,
        )
    }
}

/// The tables with the first `n` images given what their files had.
pub open spec fn all_given(m: TablesModel, n: nat) -> TablesModel
    decreases n,
{
    if n == 0 {
        m
    } else {
        metadata_given(all_given(m, (n - 1) as nat), m.images[n - 1])
    }
}

/// What telling images apart from files gives.
pub open spec fn migrated(m: TablesModel, sequences: Seq<i64>) -> Result<TablesModel, CatalogError> {
    match variants_added(masters_added(m, sequences, sequences.len()), m.variants.len()) {
        Err(e) => Err(e),
        Ok(with) => Ok(all_given(with, with.images.len())),
    }
}

fn add_masters(db: &mut Tables, sequences: &Vec<i64>)
    requires
        sequences@.len() == old(db).assets@.len(),
    ensures
        final(db)@ == masters_added(old(db)@, sequences@, sequences@.len()),
        final(db)@.variants == old(db)@.variants,
{
    let ghost m = db@;
    let mut n: usize = 0;
    while n < sequences.len()
        invariant
            n <= sequences@.len() == db.assets@.len(),
            db@ == masters_added(m, sequences@, n as nat),
            db@.variants == m.variants,
        decreases sequences@.len() - n,
    {
        let ghost before = db@;
        assert(before.assets[n as int] == db.assets@[n as int]@);
        let sequence: i64 = sequences[n];
        let row: ImageRow = make_native_image(
            sequence,
            db.assets[n].id.as_str(),
            db.assets[n].id.as_str(),
            "master",
            ImageRole::Master,
        );
        let generation: i64 = db.assets[n].render_generation;
        db.assets[n].physical_generation = generation;
        db.assets[n].shared_epoch = 0;
        db.images.push(row);
        if sequence > db.image_high {
            db.image_high = sequence;
        }
        n += 1;
        assert(db@ =~= masters_added(m, sequences@, n as nat));
    }
}

fn add_variant(db: &mut Tables, k: usize) -> (r: Result<(), CatalogError>)
    requires
        k < old(db).variants@.len(),
    ensures
        match variant_added(old(db)@, old(db)@.variants[k as int]) {
            Err(e) => r == Err::<(), CatalogError>(e),
            Ok(m) => r is Ok && final(db)@ == m,
        },
        final(db).variants == old(db).variants,
{
    let ghost m = db@;
    assert(m.variants[k as int] == db.variants@[k as int]@);
    if same(db.variants[k].id.as_str(), "master") {
        return Ok(());
    }
    let asset: String = db.variants[k].asset_id.clone();
    let variant: String = db.variants[k].id.clone();
    if db.find_asset_at(asset.as_str()).is_none() {
        return Err(CatalogError::AssetNotFound);
    }
    let mut id: String = "variant:".to_owned();
    id.append(asset.as_str());
    id.append(":");
    id.append(variant.as_str());
    assert(id@ =~= variant_image(asset@, variant@));
    if db.find_image_at(id.as_str()).is_some() || db.find_image_of(
        asset.as_str(),
        variant.as_str(),
    ).is_some() {
        return Err(CatalogError::ImageExists);
    }
    if db.image_high == i64::MAX {
        return Err(CatalogError::Exhausted);
    }
    db.image_high = db.image_high + 1;
    db.images.push(
        make_native_image(
            db.image_high,
            id.as_str(),
            asset.as_str(),
            variant.as_str(),
            ImageRole::NativeCopy,
        ),
    );
    assert(db@ =~= variant_added(m, m.variants[k as int])->Ok_0);
    Ok(())
}

fn add_usages(db: &mut Tables, image: &str, asset: &str)
    ensures
        final(db)@ == (TablesModel {
            image_sources: old(db)@.image_sources + old(db)@.sources.filter(
                source_of(asset@),
            ).map_values(usage_from(image@)),
            ..old(db)@
        }),
        final(db).sources == old(db).sources,
        final(db).observations == old(db).observations,
{
    let ghost m = db@;
    let ghost p = source_of(asset@);
    let ghost f = usage_from(image@);
    let mut i: usize = 0;
    proof {
        assert(m.sources.take(0).filter(p).map_values(f) =~= Seq::empty());
        assert(m.image_sources + Seq::<tables::ImageSourceModel>::empty() =~= m.image_sources);
        assert(db@ =~= TablesModel {
            image_sources: m.image_sources + m.sources.take(0).filter(p).map_values(f),
            ..m
        });
    }
    while i < db.sources.len()
        invariant
            i <= db.sources@.len(),
            m == old(db)@,
            p == source_of(asset@),
            f == usage_from(image@),
            db.sources == old(db).sources,
            db.observations == old(db).observations,
            db@ == (TablesModel {
                image_sources: m.image_sources + m.sources.take(i as int).filter(p).map_values(f),
                ..m
            }),
        decreases db.sources@.len() - i,
    {
        let ghost row = m.sources[i as int];
        assert(row == db.sources@[i as int]@);
        let ghost held = db@.image_sources;
        proof {
            assert(m.sources.take(i + 1) =~= m.sources.take(i as int).push(row));
            support::lemma_filter_push(m.sources.take(i as int), row, p);
        }
        if same(db.sources[i].asset_id.as_str(), asset) {
            let usage: ImageSourceRow = ImageSourceRow {
                image_id: image.to_owned(),
                source_id: db.sources[i].id,
                current_observation: db.sources[i].current_observation,
                follow_file: is_shared_kind(db.sources[i].kind.as_str()),
                logical_locator: copy_bytes(db.sources[i].locator.as_slice()),
                association: db.sources[i].association.clone(),
                availability: db.sources[i].availability.clone(),
            };
            assert(usage@ =~= f(row));
            db.image_sources.push(usage);
            proof {
                assert(m.sources.take(i + 1).filter(p).map_values(f) =~= m.sources.take(
                    i as int,
                ).filter(p).map_values(f).push(f(row)));
                assert(db@.image_sources =~= held.push(f(row)));
                assert(db@.image_sources =~= m.image_sources + m.sources.take(i + 1).filter(
                    p,
                ).map_values(f));
            }
        }
        i += 1;
        assert(db@ =~= TablesModel {
            image_sources: m.image_sources + m.sources.take(i as int).filter(p).map_values(f),
            ..m
        });
    }
    assert(m.sources.take(i as int) =~= m.sources);
}

fn add_memberships(db: &mut Tables, image: &str, asset: &str)
    ensures
        final(db)@ == (TablesModel {
            image_observations: old(db)@.image_observations + old(db)@.observations.filter(
                observation_of(old(db)@, asset@),
            ).map_values(membership_from(image@)),
            ..old(db)@
        }),
{
    let ghost m = db@;
    let ghost p = observation_of(m, asset@);
    let ghost f = membership_from(image@);
    let mut i: usize = 0;
    proof {
        assert(m.observations.take(0).filter(p).map_values(f) =~= Seq::empty());
        assert(m.image_observations + Seq::<tables::ImageObservationModel>::empty()
            =~= m.image_observations);
        assert(db@ =~= TablesModel {
            image_observations: m.image_observations + m.observations.take(0).filter(
                p,
            ).map_values(f),
            ..m
        });
    }
    while i < db.observations.len()
        invariant
            i <= db.observations@.len(),
            m == old(db)@,
            p == observation_of(m, asset@),
            f == membership_from(image@),
            db.observations == old(db).observations,
            db@ == (TablesModel {
                image_observations: m.image_observations + m.observations.take(i as int).filter(
                    p,
                ).map_values(f),
                ..m
            }),
        decreases db.observations@.len() - i,
    {
        let ghost row = m.observations[i as int];
        assert(row == db.observations@[i as int]@);
        let ghost held = db@.image_observations;
        proof {
            assert(m.observations.take(i + 1) =~= m.observations.take(i as int).push(row));
            support::lemma_filter_push(m.observations.take(i as int), row, p);
        }
        let own: bool = match db.find_source_at(db.observations[i].source_id) {
            None => false,
            Some(s) => {
                assert(db@.sources[s as int] == db.sources@[s as int]@);
                same(db.sources[s].asset_id.as_str(), asset)
            },
        };
        if own {
            let membership: ImageObservationRow = ImageObservationRow {
                image_id: image.to_owned(),
                observation_id: db.observations[i].id,
            };
            assert(membership@ =~= f(row));
            db.image_observations.push(membership);
            proof {
                assert(m.observations.take(i + 1).filter(p).map_values(f) =~= m.observations.take(
                    i as int,
                ).filter(p).map_values(f).push(f(row)));
                assert(db@.image_observations =~= held.push(f(row)));
                assert(db@.image_observations =~= m.image_observations + m.observations.take(
                    i + 1,
                ).filter(p).map_values(f));
            }
        }
        i += 1;
        assert(db@ =~= TablesModel {
            image_observations: m.image_observations + m.observations.take(i as int).filter(
                p,
            ).map_values(f),
            ..m
        });
    }
    assert(m.observations.take(i as int) =~= m.observations);
}

fn give_metadata(db: &mut Tables, image: &str, asset: &str, variant: &str, Ghost(row): Ghost<
    tables::ImageModel,
>)
    requires
        row.id == image@,
        row.asset_id == asset@,
        row.variant_id == variant@,
    ensures
        final(db)@ == metadata_given(old(db)@, row),
{
    let ghost m = db@;
    add_usages(db, image, asset);
    assert(observation_of(db@, asset@) =~= observation_of(m, asset@));
    add_memberships(db, image, asset);
    assert(db@ =~= sources_given(m, image@, asset@));
    if !same(variant, "master") {
        let revision: i64 = catalog_images::recorded_revision(db, asset);
        let recorded: RevisionRow = RevisionRow { image_id: image.to_owned(), revision };
        let ghost with = db@;
        match db.find_revision_at(image) {
            Some(k) => db.revisions.set(k, recorded),
            None => db.revisions.push(recorded),
        }
        assert(db@ =~= TablesModel {
            revisions: support::put(with.revisions, lookups::revision_for(image@), recorded@),
            ..with
        });
        copy_choices(db, asset, image);
    }
}

/// Tells images apart from physical files: every file gets a master image under its own
/// number, every other variant an image of its own behind them, and each image what its
/// file had. Where this fails, what it has changed is to be thrown away.
pub fn migrate(db: &mut Tables, sequences: &Vec<i64>) -> (r: Result<(), CatalogError>)
    requires
        sequences@.len() == old(db).assets@.len(),
    ensures
        match migrated(old(db)@, sequences@) {
            Err(e) => r == Err::<(), CatalogError>(e),
            Ok(m) => r is Ok && final(db)@ == m,
        },
{
    let ghost m = db@;
    add_masters(db, sequences);
    let ghost started = db@;
    let mut n: usize = 0;
    while n < db.variants.len()
        invariant
            n <= db.variants@.len(),
            m == old(db)@,
            started == masters_added(m, sequences@, sequences@.len()),
            started.variants == m.variants,
            db@.variants == m.variants,
            variants_added(started, n as nat) == Ok::<TablesModel, CatalogError>(db@),
        decreases db.variants@.len() - n,
    {
        match add_variant(db, n) {
            Err(e) => {
                proof {
                    lemma_variants_error(started, (n + 1) as nat);
                }
                return Err(e);
            },
            Ok(()) => {},
        }
        n += 1;
    }
    let ghost with = db@;
    let total: usize = db.images.len();
    let mut k: usize = 0;
    while k < total
        invariant
            k <= total == with.images.len(),
            db@.images == with.images,
            db@ == all_given(with, k as nat),
        decreases total - k,
    {
        assert(db@.images.len() == db.images@.len());
        assert(db@.images[k as int] == db.images@[k as int]@);
        let image: String = db.images[k].id.clone();
        let asset: String = db.images[k].asset_id.clone();
        let variant: String = db.images[k].variant_id.clone();
        give_metadata(
            db,
            image.as_str(),
            asset.as_str(),
            variant.as_str(),
            Ghost(with.images[k as int]),
        );
        k += 1;
    }
    Ok(())
}

} // verus!

//! Registration of physical files, of copies and of imported images.
use crate::catalog_images;
use crate::catalog_images::{id, read_image, require_current, Image, ImageRole, TranslationState, VariantKey};
use crate::catalog_images::refresh;
use crate::catalog_images::refresh::{check_usage, find_high_water, link};
use crate::catalog_metadata::rebuild;
use crate::error::CatalogError;
use crate::lookups;
use crate::outside;
use crate::outside::uuid_fresh;
use crate::support;
use crate::support::{byte_len, copy_bytes, copy_option, same};
use crate::tables;
use crate::tables::{
    Asset, ChoiceRow, Detail, EffectiveRow, HistoryRow, ImageObservationRow, ImageRow,
    ImageSourceRow, ImportMapping, Reservation, RevisionRow, StorageEvent, Tables, TablesModel,
    Variant,
};
use vstd::prelude::*;

verus! {

/// The most bytes a name in an import request takes up.
pub const IMPORT_NAME_BYTES: usize = 32768;

/// A request to import a source record as an image.
#[derive(Clone, Debug)]
pub struct ImportImageRequest {
    pub import_source: String,
    pub capture_revision: String,
    pub source_table: String,
    pub source_id: String,
    pub input_digest: String,
    pub adapter_version: String,
    pub asset_id: String,
    pub claim_reserved_master: bool,
    pub role: ImageRole,
    pub master: Option<VariantKey>,
    pub label: String,
}

/// A new physical file.
pub struct NewAsset {
    pub id: String,
    pub location: Vec<u8>,
    pub fingerprint: Option<String>,
    pub state: String,
}

/// The tables with a new physical file and its master image.
pub open spec fn insert_asset_outcome(m: TablesModel, asset: NewAsset) -> Result<
    TablesModel,
    CatalogError,
> {
    let id = asset.id@;
    if m.asset_at(id) is Some {
        Err(CatalogError::AssetExists)
    } else if m.image_at(id) is Some || m.image_of(id, "master"@) is Some {
        Err(CatalogError::ImageExists)
    } else if m.image_high == i64::MAX {
        Err(CatalogError::Exhausted)
    } else {
        Ok(
            TablesModel {
                assets: m.assets.push(
                    tables::AssetModel {
                        id,
                        location: asset.location@,
                        fingerprint: support::text_of(asset.fingerprint),
                        state: asset.state@,
                        render_generation: 0,
                        physical_generation: 0,
                        shared_epoch: 0,
                    },
                ),
                images: m.images.push(
                    tables::ImageModel {
                        sequence: (m.image_high + 1) as i64,
                        id,
                        asset_id: id,
                        variant_id: "master"@,
                        role: ImageRole::Master,
                        imported: false,
                        master_sequence: None,
                        copied_from_sequence: None,
                        translation_state: TranslationState::Native,
                        pixel_generation: 0,
                        applied_shared_epoch: 0,
                    },
                ),
                image_high: (m.image_high + 1) as i64,
                ..m
            },
        )
    }
}

/// Adds a physical file; its master image comes with it.
pub fn insert_asset(db: &mut Tables, asset: &NewAsset) -> (r: Result<(), CatalogError>)
    ensures
        match insert_asset_outcome(old(db)@, *asset) {
            Ok(m) => r is Ok && final(db)@ == m,
            Err(e) => r == Err::<(), CatalogError>(e) && *final(db) == *old(db),
        },
{
    if db.find_asset_at(asset.id.as_str()).is_some() {
        return Err(CatalogError::AssetExists);
    }
    if db.find_image_at(asset.id.as_str()).is_some() || db.find_image_of(
        asset.id.as_str(),
        "master",
    ).is_some() {
        return Err(CatalogError::ImageExists);
    }
    if db.image_high == i64::MAX {
        return Err(CatalogError::Exhausted);
    }
    db.assets.push(
        Asset {
            id: asset.id.clone(),
            location: copy_bytes(asset.location.as_slice()),
            fingerprint: copy_option(&asset.fingerprint),
            state: asset.state.clone(),
            render_generation: 0,
            physical_generation: 0,
            shared_epoch: 0,
        },
    );
    db.image_high = db.image_high + 1;
    db.images.push(
        ImageRow {
            sequence: db.image_high,
            id: asset.id.clone(),
            asset_id: asset.id.clone(),
            variant_id: "master".to_owned(),
            role: ImageRole::Master,
            imported: false,
            master_sequence: None,
            copied_from_sequence: None,
            translation_state: TranslationState::Native,
            pixel_generation: 0,
            applied_shared_epoch: 0,
        },
    );
    assert(db@ =~= insert_asset_outcome(old(db)@, *asset)->Ok_0);
    Ok(())
}

/// The tables once a physical file was changed: a new generation of it, and an
/// event from the start for all images it has now.
pub open spec fn touch_asset_outcome(m: TablesModel, asset: Seq<char>) -> Result<
    TablesModel,
    CatalogError,
> {
    match m.asset_at(asset) {
        None => Err(CatalogError::AssetNotFound),
        Some(a) => if m.assets[a].physical_generation == i64::MAX {
            Err(CatalogError::Exhausted)
        } else {
            Ok(
                TablesModel {
                    assets: m.assets.update(
                        a,
                        tables::AssetModel {
                            physical_generation: (m.assets[a].physical_generation + 1) as i64,
                            ..m.assets[a]
                        },
                    ),
                    storage_events: support::put(
                        m.storage_events,
                        lookups::storage_event_for(asset),
                        tables::StorageEventModel {
                            asset_id: asset,
                            high_water: refresh::high_water(m.images, asset),
                            cursor: 0,
                        },
                    ),
                    ..m
                },
            )
        },
    }
}

/// Records that a physical file was changed.
pub fn touch_asset(db: &mut Tables, asset: &str) -> (r: Result<(), CatalogError>)
    ensures
        match touch_asset_outcome(old(db)@, asset@) {
            Ok(m) => r is Ok && final(db)@ == m,
            Err(e) => r == Err::<(), CatalogError>(e) && *final(db) == *old(db),
        },
{
    let a: usize = match db.find_asset_at(asset) {
        None => return Err(CatalogError::AssetNotFound),
        Some(a) => a,
    };
    if db.assets[a].physical_generation == i64::MAX {
        return Err(CatalogError::Exhausted);
    }
    db.assets[a].physical_generation = db.assets[a].physical_generation + 1;
    let high: i64 = find_high_water(db, asset);
    let row: StorageEvent = StorageEvent { asset_id: asset.to_owned(), high_water: high, cursor: 0 };
    match db.find_storage_event_at(asset) {
        Some(i) => db.storage_events.set(i, row),
        None => db.storage_events.push(row),
    }
    assert(db@ =~= touch_asset_outcome(old(db)@, asset@)->Ok_0);
    Ok(())
}

/// Why a physical file cannot be reserved.
pub open spec fn reserve_refusal(m: TablesModel, asset: Seq<char>, owner: Seq<char>) -> Option<
    CatalogError,
> {
    if asset.len() == 0 || owner.len() == 0 || support::byte_length(asset) > 256
        || support::byte_length(owner) > 32768 {
        Some(CatalogError::ReservationBounds)
    } else if m.asset_at(asset) is Some {
        Some(CatalogError::AssetExists)
    } else if m.reservation_at(asset) is Some {
        Some(CatalogError::ReservationExists)
    } else {
        None
    }
}

/// Reserves a physical file that is still to be added for an importer.
pub fn reserve_import_asset(db: &mut Tables, asset: &str, owner: &str) -> (r: Result<
    (),
    CatalogError,
>)
    ensures
        match reserve_refusal(old(db)@, asset@, owner@) {
            Some(e) => r == Err::<(), CatalogError>(e) && *final(db) == *old(db),
            None => r is Ok && final(db)@ == (TablesModel {
                reservations: old(db)@.reservations.push(
                    tables::ReservationModel { asset_id: asset@, owner: owner@ },
                ),
                ..old(db)@
            }),
        },
{
    if asset.is_empty() || owner.is_empty() || byte_len(asset) > 256 || byte_len(owner) > 32768 {
        return Err(CatalogError::ReservationBounds);
    }
    if db.find_asset_at(asset).is_some() {
        return Err(CatalogError::AssetExists);
    }
    if db.find_reservation_at(asset).is_some() {
        return Err(CatalogError::ReservationExists);
    }
    db.reservations.push(Reservation { asset_id: asset.to_owned(), owner: owner.to_owned() });
    assert(db@ =~= TablesModel {
        reservations: old(db)@.reservations.push(
            tables::ReservationModel { asset_id: asset@, owner: owner@ },
        ),
        ..old(db)@
    });
    Ok(())
}

/// A source whose evidence all images of a file share.
pub open spec fn shared_kind(kind: Seq<char>) -> bool {
    kind == "embedded"@ || kind == "sidecar"@
}

/// Whether a source's evidence is shared by all images of a file.
pub fn is_shared_kind(kind: &str) -> (r: bool)
    ensures
        r == shared_kind(kind@),
{
    same(kind, "embedded") || same(kind, "sidecar")
}

impl TablesModel {
    /// The tables with a shared source linked to an image.
    pub open spec fn shared_source_linked(self, image: Seq<char>, s: int) -> Result<
        TablesModel,
        CatalogError,
    > {
        let source = self.sources[s];
        let observed = match source.current_observation {
            Some(o) if self.observation_at(o) is Some => self.linked(image, o),
            _ => Ok(self),
        };
        match observed {
            Err(e) => Err(e),
            Ok(m) => if m.image_source_at(image, source.id) is Some {
                Ok(m)
            } else {
                match m.usage_refusal(image, source.id, source.current_observation) {
                    Some(e) => Err(e),
                    None => Ok(
                        TablesModel {
                            image_sources: m.image_sources.push(
                                tables::ImageSourceModel {
                                    image_id: image,
                                    source_id: source.id,
                                    current_observation: source.current_observation,
                                    follow_file: true,
                                    logical_locator: source.locator,
                                    association: source.association,
                                    availability: source.availability,
                                },
                            ),
                            ..m
                        },
                    ),
                }
            },
        }
    }

    /// The tables with the shared sources of a file, among the first `n`, linked
    /// to an image.
    pub open spec fn shared_sources_linked(self, image: Seq<char>, asset: Seq<char>, n: nat) -> Result<
        TablesModel,
        CatalogError,
    >
        decreases n,
    {
        if n == 0 {
            Ok(self)
        } else {
            match self.shared_sources_linked(image, asset, (n - 1) as nat) {
                Err(e) => Err(e),
                Ok(m) => {
                    let s = self.sources[n - 1];
                    if s.asset_id == asset && shared_kind(s.kind) {
                        m.shared_source_linked(image, n - 1)
                    } else {
                        Ok(m)
                    }
                },
            }
        }
    }
}

pub(crate) proof fn lemma_linked_frame(m: TablesModel, image: Seq<char>, asset: Seq<char>, n: nat)
    ensures
        match m.shared_sources_linked(image, asset, n) {
            Ok(z) => z == (TablesModel {
                image_observations: z.image_observations,
                image_sources: z.image_sources,
                ..m
            }),
            Err(_) => true,
        },
    decreases n,
{
    if n > 0 {
        lemma_linked_frame(m, image, asset, (n - 1) as nat);
    }
}

fn link_shared_source(db: &mut Tables, image: &str, s: usize) -> (r: Result<(), CatalogError>)
    requires
        s < old(db).sources@.len(),
    ensures
        match old(db)@.shared_source_linked(image@, s as int) {
            Ok(m) => r is Ok && final(db)@ == m,
            Err(e) => r == Err::<(), CatalogError>(e),
        },
{
    assert(db@.sources[s as int] == db.sources@[s as int]@);
    assert(db@.sources.len() == db.sources@.len());
    let source: i64 = db.sources[s].id;
    let current: Option<i64> = db.sources[s].current_observation;
    let ghost before = db@;
    if let Some(o) = current {
        if db.find_observation_at(o).is_some() {
            match link(db, image, o) {
                Err(e) => return Err(e),
                Ok(()) => {},
            }
        }
    }
    assert(db@.sources.len() == db.sources@.len());
    assert(db@.sources[s as int] == db.sources@[s as int]@);
    if db.find_image_source_at(image, source).is_some() {
        return Ok(());
    }
    match check_usage(db, image, source, current) {
        Err(e) => return Err(e),
        Ok(()) => {},
    }
    db.image_sources.push(
        ImageSourceRow {
            image_id: image.to_owned(),
            source_id: source,
            current_observation: current,
            follow_file: true,
            logical_locator: copy_bytes(db.sources[s].locator.as_slice()),
            association: db.sources[s].association.clone(),
            availability: db.sources[s].availability.clone(),
        },
    );
    assert(db@ =~= before.shared_source_linked(image@, s as int)->Ok_0);
    Ok(())
}

fn link_shared_sources(db: &mut Tables, image: &str, asset: &str) -> (r: Result<(), CatalogError>)
    ensures
        match old(db)@.shared_sources_linked(image@, asset@, old(db)@.sources.len()) {
            Ok(m) => r is Ok && final(db)@ == m,
            Err(e) => r == Err::<(), CatalogError>(e),
        },
{
    let ghost m = old(db)@;
    let mut n: usize = 0;
    assert(m.sources.len() == db.sources@.len());
    while n < db.sources.len()
        invariant
            n <= m.sources.len(),
            m == old(db)@,
            db.sources@.len() == m.sources.len(),
            m.shared_sources_linked(image@, asset@, n as nat) == Ok::<TablesModel, CatalogError>(
                db@,
            ),
        decreases m.sources.len() - n,
    {
        proof {
            lemma_linked_frame(m, image@, asset@, n as nat);
            assert(db@.sources[n as int] == db.sources@[n as int]@);
        }
        if same(db.sources[n].asset_id.as_str(), asset) && is_shared_kind(
            db.sources[n].kind.as_str(),
        ) {
            match link_shared_source(db, image, n) {
                Err(e) => {
                    proof {
                        lemma_linked_error(m, image@, asset@, (n + 1) as nat, m.sources.len());
                    }
                    return Err(e);
                },
                Ok(()) => {},
            }
        }
        n += 1;
        proof {
            lemma_linked_frame(m, image@, asset@, n as nat);
            assert(db@.sources.len() == db.sources@.len());
        }
    }
    Ok(())
}

/// A source that cannot be linked stops the whole.
proof fn lemma_linked_error(m: TablesModel, image: Seq<char>, asset: Seq<char>, n: nat, end: nat)
    requires
        n <= end,
        m.shared_sources_linked(image, asset, n) is Err,
    ensures
        m.shared_sources_linked(image, asset, end) == m.shared_sources_linked(image, asset, n),
    decreases end,
{
    if n < end {
        lemma_linked_error(m, image, asset, n, (end - 1) as nat);
    }
}

/// A name in an import request is there and not too long.
pub open spec fn import_name(s: Seq<char>) -> bool {
    0 < s.len() && support::byte_length(s) <= IMPORT_NAME_BYTES
}

fn is_import_name(s: &str) -> (r: bool)
    ensures
        r == import_name(s@),
{
    !s.is_empty() && byte_len(s) <= IMPORT_NAME_BYTES
}

impl ImportImageRequest {
    /// All names in the request are there and not too long.
    pub open spec fn bounded(self) -> bool {
        &&& import_name(self.import_source@)
        &&& import_name(self.capture_revision@)
        &&& import_name(self.source_table@)
        &&& import_name(self.source_id@)
        &&& import_name(self.input_digest@)
        &&& import_name(self.adapter_version@)
        &&& import_name(self.asset_id@)
        &&& import_name(self.label@)
    }
}

/// The sequence number of the requested parent, as it stands.
pub open spec fn named_parent(m: TablesModel, r: ImportImageRequest) -> Result<
    Option<i64>,
    CatalogError,
> {
    match r.master {
        None => Ok(None),
        Some(k) => match m.id_of(k@) {
            None => Err(CatalogError::ImageNotFound),
            Some(id) => match m.image_at(id) {
                None => Err(CatalogError::ImageNotFound),
                Some(i) => Ok(Some(m.images[i].sequence)),
            },
        },
    }
}

/// The sequence number of the requested parent, which has to be a master of the
/// same physical file.
pub open spec fn master_parent(m: TablesModel, r: ImportImageRequest) -> Result<
    Option<i64>,
    CatalogError,
> {
    match r.master {
        None => Ok(None),
        Some(k) => if k.asset_id@ != r.asset_id@ {
            Err(CatalogError::ForeignParent)
        } else {
            match m.id_of(k@) {
                None => Err(CatalogError::ImageNotFound),
                Some(id) => match m.image_at(id) {
                    None => Err(CatalogError::ImageNotFound),
                    Some(i) => if m.images[i].role != ImageRole::Master {
                        Err(CatalogError::ParentNotMaster)
                    } else {
                        Ok(Some(m.images[i].sequence))
                    },
                },
            }
        },
    }
}

/// What importing a record again gives: the image it was imported as, provided
/// that the request is still the same.
pub open spec fn replayed(m: TablesModel, r: ImportImageRequest, k: int) -> Result<
    catalog_images::ImageView,
    CatalogError,
> {
    let row = m.import_map[k];
    match m.image_at(row.image_id) {
        None => Err(CatalogError::ImageNotFound),
        Some(i) => if row.input_digest != r.input_digest@ || row.adapter_version
            != r.adapter_version@ || m.images[i].asset_id != r.asset_id@ || m.images[i].role
            != r.role {
            Err(CatalogError::MappingChanged)
        } else {
            match named_parent(m, r) {
                Err(e) => Err(e),
                Ok(parent) => if parent != m.images[i].master_sequence {
                    Err(CatalogError::ParentChanged)
                } else {
                    Ok(catalog_images::image_view(m.images[i]))
                },
            }
        },
    }
}

/// Why a reserved master cannot be claimed.
pub open spec fn claim_refusal(m: TablesModel, r: ImportImageRequest) -> Option<CatalogError> {
    if !r.claim_reserved_master {
        None
    } else if r.role != ImageRole::Master {
        Some(CatalogError::ClaimRole)
    } else if !(m.reservation_at(r.asset_id@) matches Some(k) && m.reservations[k].owner
        == r.import_source@) || m.mapping_of(r.asset_id@) is Some || m.variant_of(r.asset_id@)
        is Some {
        Some(CatalogError::ClaimRefused)
    } else {
        None
    }
}

/// The tables with the image itself in place: a claimed master turned into an
/// imported one, or a new image.
pub open spec fn placed(
    m: TablesModel,
    r: ImportImageRequest,
    parent: Option<i64>,
    epoch: i64,
    image: Seq<char>,
    variant: Seq<char>,
) -> Result<TablesModel, CatalogError> {
    if r.claim_reserved_master {
        Ok(
            TablesModel {
                images: match m.image_at(r.asset_id@) {
                    Some(i) => m.images.update(
                        i,
                        tables::ImageModel {
                            imported: true,
                            translation_state: TranslationState::Untranslated,
                            ..m.images[i]
                        },
                    ),
                    None => m.images,
                },
                ..m
            },
        )
    } else if m.image_at(image) is Some || m.image_of(r.asset_id@, variant) is Some {
        Err(CatalogError::ImageExists)
    } else if m.image_high == i64::MAX {
        Err(CatalogError::Exhausted)
    } else {
        Ok(
            TablesModel {
                images: m.images.push(
                    tables::ImageModel {
                        sequence: (m.image_high + 1) as i64,
                        id: image,
                        asset_id: r.asset_id@,
                        variant_id: variant,
                        role: r.role,
                        imported: true,
                        master_sequence: parent,
                        copied_from_sequence: None,
                        translation_state: TranslationState::Untranslated,
                        pixel_generation: 0,
                        applied_shared_epoch: epoch,
                    },
                ),
                image_high: (m.image_high + 1) as i64,
                ..m
            },
        )
    }
}

/// The tables with an image's mapping, variant and values in effect recorded.
pub open spec fn recorded(m: TablesModel, r: ImportImageRequest, variant: Seq<char>, image: Seq<char>) -> TablesModel {
    let with_variant = if r.claim_reserved_master {
        m
    } else {
        TablesModel {
            variants: m.variants.push(
                tables::VariantModel { asset_id: r.asset_id@, id: variant, label: r.label@ },
            ),
            ..m
        }
    };
    let mapped = TablesModel {
        import_map: m.import_map.push(
            tables::ImportMappingModel {
                import_source: r.import_source@,
                capture_revision: r.capture_revision@,
                source_table: r.source_table@,
                source_id: r.source_id@,
                input_digest: r.input_digest@,
                adapter_version: r.adapter_version@,
                image_id: image,
            },
        ),
        ..with_variant
    };
    let rebuilt = mapped.rebuilt(image);
    match m.reservation_at(r.asset_id@) {
        Some(k) if r.claim_reserved_master => TablesModel {
            reservations: rebuilt.reservations.remove(k),
            ..rebuilt
        },
        _ => rebuilt,
    }
}

/// What importing a record for the first time gives, with the identities drawn
/// for a new image and its variant.
pub open spec fn registered(
    m: TablesModel,
    r: ImportImageRequest,
    fresh_image: Seq<char>,
    fresh_variant: Seq<char>,
) -> Result<(TablesModel, catalog_images::ImageView), CatalogError> {
    match m.asset_at(r.asset_id@) {
        None => Err(CatalogError::AssetNotFound),
        Some(a) => match claim_refusal(m, r) {
            Some(e) => Err(e),
            None => match master_parent(m, r) {
                Err(e) => Err(e),
                Ok(parent) => if (r.role == ImageRole::Virtual) != (parent is Some) {
                    Err(CatalogError::ParentRole)
                } else {
                    let variant = if r.claim_reserved_master {
                        "master"@
                    } else {
                        fresh_variant
                    };
                    match placed(m, r, parent, m.assets[a].shared_epoch, fresh_image, variant) {
                        Err(e) => Err(e),
                        Ok(m1) => match m1.image_of(r.asset_id@, variant) {
                            None => Err(CatalogError::ImageNotFound),
                            Some(i) => {
                                let image = m1.images[i].id;
                                match m1.shared_sources_linked(
                                    image,
                                    r.asset_id@,
                                    m1.sources.len(),
                                ) {
                                    Err(e) => Err(e),
                                    Ok(m2) => if m2.mapping_of(image) is Some {
                                        Err(CatalogError::MappingExists)
                                    } else {
                                        match m2.image_at(image) {
                                            None => Err(CatalogError::ImageNotFound),
                                            Some(j) => Ok(
                                                (
                                                    recorded(m2, r, variant, image),
                                                    catalog_images::image_view(m2.images[j]),
                                                ),
                                            ),
                                        }
                                    },
                                }
                            },
                        },
                    }
                },
            },
        },
    }
}

/// What importing a record gives.
pub open spec fn register_outcome(
    m: TablesModel,
    r: ImportImageRequest,
    fresh_image: Seq<char>,
    fresh_variant: Seq<char>,
) -> Result<(TablesModel, catalog_images::ImageView), CatalogError> {
    if !r.bounded() {
        Err(CatalogError::ImportBounds)
    } else if r.role == ImageRole::NativeCopy {
        Err(CatalogError::ImportRole)
    } else {
        match m.mapping_at(
            r.import_source@,
            r.capture_revision@,
            r.source_table@,
            r.source_id@,
        ) {
            Some(k) => match replayed(m, r, k) {
                Ok(image) => Ok((m, image)),
                Err(e) => Err(e),
            },
            None => registered(m, r, fresh_image, fresh_variant),
        }
    }
}

fn find_named_parent(db: &Tables, r: &ImportImageRequest) -> (p: Result<Option<i64>, CatalogError>)
    ensures
        p == named_parent(db@, *r),
{
    match &r.master {
        None => Ok(None),
        Some(k) => match id(db, k) {
            Err(e) => Err(e),
            Ok(image) => match db.find_image_at(image.as_str()) {
                None => Err(CatalogError::ImageNotFound),
                Some(i) => Ok(Some(db.images[i].sequence)),
            },
        },
    }
}

fn find_master_parent(db: &Tables, r: &ImportImageRequest) -> (p: Result<Option<i64>, CatalogError>)
    ensures
        p == master_parent(db@, *r),
{
    match &r.master {
        None => Ok(None),
        Some(k) => {
            if !same(k.asset_id.as_str(), r.asset_id.as_str()) {
                return Err(CatalogError::ForeignParent);
            }
            match id(db, k) {
                Err(e) => Err(e),
                Ok(image) => match db.find_image_at(image.as_str()) {
                    None => Err(CatalogError::ImageNotFound),
                    Some(i) => if db.images[i].role != ImageRole::Master {
                        Err(CatalogError::ParentNotMaster)
                    } else {
                        Ok(Some(db.images[i].sequence))
                    },
                },
            }
        },
    }
}

fn check_claim(db: &Tables, r: &ImportImageRequest) -> (c: Option<CatalogError>)
    ensures
        c == claim_refusal(db@, *r),
{
    if !r.claim_reserved_master {
        return None;
    }
    if r.role != ImageRole::Master {
        return Some(CatalogError::ClaimRole);
    }
    let owned: bool = match db.find_reservation_at(r.asset_id.as_str()) {
        None => false,
        Some(k) => same(db.reservations[k].owner.as_str(), r.import_source.as_str()),
    };
    if !owned || db.find_mapping_of(r.asset_id.as_str()).is_some() || db.find_variant_of(
        r.asset_id.as_str(),
    ).is_some() {
        Some(CatalogError::ClaimRefused)
    } else {
        None
    }
}

fn replay(db: &Tables, r: &ImportImageRequest, k: usize) -> (p: Result<Image, CatalogError>)
    requires
        k < db.import_map@.len(),
    ensures
        match replayed(db@, *r, k as int) {
            Ok(image) => p matches Ok(found) && found@ == image,
            Err(e) => p == Err::<Image, CatalogError>(e),
        },
{
    let row = &db.import_map[k];
    assert(db@.import_map[k as int] == row@);
    let found: Image = match read_image(db, row.image_id.as_str()) {
        Err(e) => return Err(e),
        Ok(found) => found,
    };
    if !same(row.input_digest.as_str(), r.input_digest.as_str()) || !same(
        row.adapter_version.as_str(),
        r.adapter_version.as_str(),
    ) || !same(found.key.asset_id.as_str(), r.asset_id.as_str()) || found.role != r.role {
        return Err(CatalogError::MappingChanged);
    }
    match find_named_parent(db, r) {
        Err(e) => Err(e),
        Ok(parent) => if parent != found.master_sequence {
            Err(CatalogError::ParentChanged)
        } else {
            Ok(found)
        },
    }
}

fn place(
    db: &mut Tables,
    r: &ImportImageRequest,
    parent: Option<i64>,
    epoch: i64,
    image: &str,
    variant: &str,
) -> (p: Result<(), CatalogError>)
    ensures
        match placed(old(db)@, *r, parent, epoch, image@, variant@) {
            Ok(m) => p is Ok && final(db)@ == m,
            Err(e) => p == Err::<(), CatalogError>(e),
        },
{
    if r.claim_reserved_master {
        if let Some(i) = db.find_image_at(r.asset_id.as_str()) {
            db.images[i].imported = true;
            db.images[i].translation_state = TranslationState::Untranslated;
        }
        assert(db@ =~= placed(old(db)@, *r, parent, epoch, image@, variant@)->Ok_0);
        return Ok(());
    }
    if db.find_image_at(image).is_some() || db.find_image_of(
        r.asset_id.as_str(),
        variant,
    ).is_some() {
        return Err(CatalogError::ImageExists);
    }
    if db.image_high == i64::MAX {
        return Err(CatalogError::Exhausted);
    }
    db.image_high = db.image_high + 1;
    db.images.push(
        ImageRow {
            sequence: db.image_high,
            id: image.to_owned(),
            asset_id: r.asset_id.clone(),
            variant_id: variant.to_owned(),
            role: r.role,
            imported: true,
            master_sequence: parent,
            copied_from_sequence: None,
            translation_state: TranslationState::Untranslated,
            pixel_generation: 0,
            applied_shared_epoch: epoch,
        },
    );
    assert(db@ =~= placed(old(db)@, *r, parent, epoch, image@, variant@)->Ok_0);
    Ok(())
}

fn record(db: &mut Tables, r: &ImportImageRequest, variant: &str, image: &str)
    ensures
        final(db)@ == recorded(old(db)@, *r, variant@, image@),
{
    let ghost m = old(db)@;
    let reservation: Option<usize> = db.find_reservation_at(r.asset_id.as_str());
    if !r.claim_reserved_master {
        db.variants.push(
            Variant {
                asset_id: r.asset_id.clone(),
                id: variant.to_owned(),
                label: r.label.clone(),
            },
        );
    }
    db.import_map.push(
        ImportMapping {
            import_source: r.import_source.clone(),
            capture_revision: r.capture_revision.clone(),
            source_table: r.source_table.clone(),
            source_id: r.source_id.clone(),
            input_digest: r.input_digest.clone(),
            adapter_version: r.adapter_version.clone(),
            image_id: image.to_owned(),
        },
    );
    let ghost mapped = TablesModel {
        variants: if r.claim_reserved_master {
            m.variants
        } else {
            m.variants.push(
                tables::VariantModel { asset_id: r.asset_id@, id: variant@, label: r.label@ },
            )
        },
        import_map: m.import_map.push(
            tables::ImportMappingModel {
                import_source: r.import_source@,
                capture_revision: r.capture_revision@,
                source_table: r.source_table@,
                source_id: r.source_id@,
                input_digest: r.input_digest@,
                adapter_version: r.adapter_version@,
                image_id: image@,
            },
        ),
        ..m
    };
    assert(db@ =~= mapped);
    rebuild(db, image);
    let ghost rebuilt = db@;
    if r.claim_reserved_master {
        if let Some(k) = reservation {
            assert(db@.reservations.len() == db.reservations@.len());
            assert(m.reservations.len() == old(db).reservations@.len());
            db.reservations.remove(k);
            assert(db@ =~= TablesModel {
                reservations: rebuilt.reservations.remove(k as int),
                ..rebuilt
            });
        }
    }
}

/// Imports a source record as an image, with the identities drawn for a new
/// image and its variant. A record that was imported before gives the same image
/// again. Where this fails, what it has changed is to be thrown away.
pub fn register_drawn(
    db: &mut Tables,
    r: &ImportImageRequest,
    fresh_image: &str,
    fresh_variant: &str,
) -> (p: Result<Image, CatalogError>)
    ensures
        match register_outcome(old(db)@, *r, fresh_image@, fresh_variant@) {
            Ok((m, image)) => p matches Ok(found) && found@ == image && final(db)@ == m,
            Err(e) => p == Err::<Image, CatalogError>(e),
        },
{
    if !is_import_name(r.import_source.as_str()) || !is_import_name(r.capture_revision.as_str())
        || !is_import_name(r.source_table.as_str()) || !is_import_name(r.source_id.as_str())
        || !is_import_name(r.input_digest.as_str()) || !is_import_name(r.adapter_version.as_str())
        || !is_import_name(r.asset_id.as_str()) || !is_import_name(r.label.as_str()) {
        return Err(CatalogError::ImportBounds);
    }
    if r.role == ImageRole::NativeCopy {
        return Err(CatalogError::ImportRole);
    }
    if let Some(k) = db.find_mapping_at(
        r.import_source.as_str(),
        r.capture_revision.as_str(),
        r.source_table.as_str(),
        r.source_id.as_str(),
    ) {
        return replay(db, r, k);
    }
    let a: usize = match db.find_asset_at(r.asset_id.as_str()) {
        None => return Err(CatalogError::AssetNotFound),
        Some(a) => a,
    };
    let epoch: i64 = db.assets[a].shared_epoch;
    match check_claim(db, r) {
        Some(e) => return Err(e),
        None => {},
    }
    let parent: Option<i64> = match find_master_parent(db, r) {
        Err(e) => return Err(e),
        Ok(parent) => parent,
    };
    if (r.role == ImageRole::Virtual) != parent.is_some() {
        return Err(CatalogError::ParentRole);
    }
    let variant: String = if r.claim_reserved_master {
        "master".to_owned()
    } else {
        fresh_variant.to_owned()
    };
    match place(db, r, parent, epoch, fresh_image, variant.as_str()) {
        Err(e) => return Err(e),
        Ok(()) => {},
    }
    let image: String = match db.find_image_of(r.asset_id.as_str(), variant.as_str()) {
        None => return Err(CatalogError::ImageNotFound),
        Some(i) => db.images[i].id.clone(),
    };
    match link_shared_sources(db, image.as_str(), r.asset_id.as_str()) {
        Err(e) => return Err(e),
        Ok(()) => {},
    }
    if db.find_mapping_of(image.as_str()).is_some() {
        return Err(CatalogError::MappingExists);
    }
    let found: Image = match read_image(db, image.as_str()) {
        Err(e) => return Err(e),
        Ok(found) => found,
    };
    record(db, r, variant.as_str(), image.as_str());
    Ok(found)
}

/// Imports a source record as an image. Where this fails, what it has changed is
/// to be thrown away.
pub fn register_import_image(db: &mut Tables, r: &ImportImageRequest) -> (p: Result<
    Image,
    CatalogError,
>)
    ensures
        exists|fresh_image: Seq<char>, fresh_variant: Seq<char>|
            outside::canonical_uuid(fresh_image) && outside::canonical_uuid(fresh_variant)
                && match #[trigger] register_outcome(old(db)@, *r, fresh_image, fresh_variant) {
                Ok((m, image)) => p matches Ok(found) && found@ == image && final(db)@ == m,
                Err(e) => p == Err::<Image, CatalogError>(e),
            },
{
    let image: String = uuid_fresh();
    let variant: String = uuid_fresh();
    register_drawn(db, r, image.as_str(), variant.as_str())
}

/// The rows with a copy of some of them at the end.
pub open spec fn duplicated<T>(rows: Seq<T>, p: spec_fn(T) -> bool, f: spec_fn(T) -> T) -> Seq<T> {
    rows + rows.filter(p).map_values(f)
}

/// Adds a changed copy of each row that `pick` takes.
pub(crate) fn duplicate<T: View, F: Fn(&T) -> Option<T>>(
    rows: &mut Vec<T>,
    pick: F,
    Ghost(p): Ghost<spec_fn(T::V) -> bool>,
    Ghost(f): Ghost<spec_fn(T::V) -> T::V>,
)
    requires
        forall|t: &T| #[trigger] pick.requires((t,)),
        forall|t: &T, o: Option<T>| #[trigger]
            pick.ensures((t,), o) ==> match o {
                Some(u) => p(t@) && u@ == f(t@),
                None => !p(t@),
            },
    ensures
        support::models(final(rows)@) == duplicated(support::models(old(rows)@), p, f),
{
    let ghost before = support::models(rows@);
    let n: usize = rows.len();
    let mut i: usize = 0;
    proof {
        assert(before.take(0).filter(p).map_values(f) =~= Seq::empty());
        assert(support::models(rows@) =~= before + before.take(0).filter(p).map_values(f));
    }
    while i < n
        invariant
            i <= n <= rows@.len(),
            n == before.len(),
            support::models(rows@) == before + before.take(i as int).filter(p).map_values(f),
            forall|t: &T| #[trigger] pick.requires((t,)),
            forall|t: &T, o: Option<T>| #[trigger]
                pick.ensures((t,), o) ==> match o {
                    Some(u) => p(t@) && u@ == f(t@),
                    None => !p(t@),
                },
        decreases n - i,
    {
        let ghost held = support::models(rows@);
        let picked: Option<T> = pick(&rows[i]);
        proof {
            assert(held[i as int] == rows@[i as int]@);
            assert(before.take(i + 1) =~= before.take(i as int).push(before[i as int]));
            support::lemma_filter_push(before.take(i as int), before[i as int], p);
        }
        if let Some(row) = picked {
            rows.push(row);
            proof {
                assert(support::models(rows@) =~= held.push(f(before[i as int])));
                assert(before.take(i + 1).filter(p).map_values(f) =~= before.take(i as int).filter(
                    p,
                ).map_values(f).push(f(before[i as int])));
                assert(support::models(rows@) =~= before + before.take(i + 1).filter(p).map_values(
                    f,
                ));
            }
        }
        i += 1;
    }
    assert(before.take(n as int) =~= before);
}

pub open spec fn observation_of(image: Seq<char>) -> spec_fn(tables::ImageObservationModel) -> bool {
    |r: tables::ImageObservationModel| r.image_id == image
}

pub open spec fn observation_for(image: Seq<char>) -> spec_fn(
    tables::ImageObservationModel,
) -> tables::ImageObservationModel {
    |r: tables::ImageObservationModel| tables::ImageObservationModel { image_id: image, ..r }
}

pub open spec fn usage_of(image: Seq<char>) -> spec_fn(tables::ImageSourceModel) -> bool {
    |r: tables::ImageSourceModel| r.image_id == image
}

pub open spec fn usage_for(image: Seq<char>) -> spec_fn(
    tables::ImageSourceModel,
) -> tables::ImageSourceModel {
    |r: tables::ImageSourceModel| tables::ImageSourceModel { image_id: image, ..r }
}

pub open spec fn choice_of(image: Seq<char>) -> spec_fn(tables::ChoiceModel) -> bool {
    |r: tables::ChoiceModel| r.image_id == image
}

pub open spec fn choice_for(image: Seq<char>) -> spec_fn(
    tables::ChoiceModel,
) -> tables::ChoiceModel {
    |r: tables::ChoiceModel| tables::ChoiceModel { image_id: image, ..r }
}

/// The values in effect once an image has those of another image as well.
pub open spec fn effective_copied(
    e: Map<(Seq<char>, Seq<char>), tables::EffectiveValue>,
    from: Seq<char>,
    to: Seq<char>,
) -> Map<(Seq<char>, Seq<char>), tables::EffectiveValue> {
    Map::new(
        |k: (Seq<char>, Seq<char>)|
            e.contains_key(k) || (k.0 == to && e.contains_key((from, k.1))),
        |k: (Seq<char>, Seq<char>)|
            if e.contains_key(k) {
                e[k]
            } else {
                e[(from, k.1)]
            },
    )
}

/// The tables with one image's metadata given to a new image as well.
pub open spec fn metadata_copied(
    m: TablesModel,
    from: Seq<char>,
    to: Seq<char>,
    source: catalog_images::VariantKeyModel,
) -> TablesModel {
    TablesModel {
        image_observations: duplicated(
            m.image_observations,
            observation_of(from),
            observation_for(to),
        ),
        image_sources: duplicated(m.image_sources, usage_of(from), usage_for(to)),
        revisions: support::put(
            m.revisions,
            lookups::revision_for(to),
            tables::RevisionModel { image_id: to, revision: m.revision_of(from) },
        ),
        choices: duplicated(m.choices, choice_of(from), choice_for(to)),
        effective: effective_copied(m.effective, from, to),
        history: match m.revision_at(from) {
            Some(k) => m.history.push(
                tables::HistoryModel {
                    id: (m.history_high + 1) as i64,
                    image_id: to,
                    revision: m.revisions[k].revision,
                    action: "clone"@,
                    detail: tables::DetailModel::Cloned {
                        asset_id: source.asset_id,
                        variant_id: source.variant_id,
                    },
                    created_at: m.clock,
                },
            ),
            None => m.history,
        },
        history_high: match m.revision_at(from) {
            Some(k) => (m.history_high + 1) as i64,
            None => m.history_high,
        },
        ..m
    }
}

/// What registering a copy gives, with the identity drawn for it.
pub open spec fn copy_outcome(
    m: TablesModel,
    key: catalog_images::VariantKeyModel,
    source: catalog_images::VariantKeyModel,
    fresh: Seq<char>,
) -> Result<TablesModel, CatalogError> {
    match m.id_of(source) {
        None => Err(CatalogError::ImageNotFound),
        Some(from) => match m.current_refusal(from) {
            Some(e) => Err(e),
            None => {
                let row = m.images[m.image_at(from)->0];
                if key.asset_id != row.asset_id {
                    Err(CatalogError::ImageNotFound)
                } else if m.image_at(fresh) is Some || m.image_of(key.asset_id, key.variant_id)
                    is Some {
                    Err(CatalogError::ImageExists)
                } else if m.image_high == i64::MAX || (m.revision_at(from) is Some
                    && m.history_high == i64::MAX) {
                    Err(CatalogError::Exhausted)
                } else {
                    let added = TablesModel {
                        images: m.images.push(
                            tables::ImageModel {
                                sequence: (m.image_high + 1) as i64,
                                id: fresh,
                                asset_id: row.asset_id,
                                variant_id: key.variant_id,
                                role: ImageRole::NativeCopy,
                                imported: false,
                                master_sequence: None,
                                copied_from_sequence: Some(row.sequence),
                                translation_state: TranslationState::Native,
                                pixel_generation: 0,
                                applied_shared_epoch: row.applied_shared_epoch,
                            },
                        ),
                        image_high: (m.image_high + 1) as i64,
                        ..m
                    };
                    Ok(metadata_copied(added, from, fresh, source))
                }
            },
        },
    }
}

proof fn lemma_effective_copied(
    rows: Seq<tables::EffectiveModel>,
    from: Seq<char>,
    to: Seq<char>,
    p: spec_fn(tables::EffectiveModel) -> bool,
    f: spec_fn(tables::EffectiveModel) -> tables::EffectiveModel,
)
    requires
        p == (|r: tables::EffectiveModel| r.image_id == from),
        f == (|r: tables::EffectiveModel| tables::EffectiveModel { image_id: to, ..r }),
    ensures
        tables::effective_values(duplicated(rows, p, f)) == effective_copied(
            tables::effective_values(rows),
            from,
            to,
        ),
{
    let left = tables::effective_values(duplicated(rows, p, f));
    let right = effective_copied(tables::effective_values(rows), from, to);
    assert forall|k: (Seq<char>, Seq<char>)| #[trigger]
        left.dom().contains(k) == right.dom().contains(k) by {
        lemma_value_copied(rows, from, to, p, f, k);
    }
    assert forall|k: (Seq<char>, Seq<char>)| left.dom().contains(k) implies #[trigger] left[k]
        == right[k] by {
        lemma_value_copied(rows, from, to, p, f, k);
    }
    assert(left.dom() =~= right.dom());
    assert(left =~= right);
}

proof fn lemma_value_copied(
    rows: Seq<tables::EffectiveModel>,
    from: Seq<char>,
    to: Seq<char>,
    p: spec_fn(tables::EffectiveModel) -> bool,
    f: spec_fn(tables::EffectiveModel) -> tables::EffectiveModel,
    k: (Seq<char>, Seq<char>),
)
    requires
        p == (|r: tables::EffectiveModel| r.image_id == from),
        f == (|r: tables::EffectiveModel| tables::EffectiveModel { image_id: to, ..r }),
    ensures
        ({
            let left = tables::effective_values(duplicated(rows, p, f));
            let right = effective_copied(tables::effective_values(rows), from, to);
            left.dom().contains(k) == right.dom().contains(k) && (left.dom().contains(k) ==> left[k]
                == right[k])
        }),
{
    let after = duplicated(rows, p, f);
    let here = tables::effective_for(k);
    let there = tables::effective_for((from, k.1));
    support::lemma_first_where(rows, here);
    match support::first_where(rows, here) {
        Some(i) => {
            assert forall|j: int| 0 <= j < i implies !here(#[trigger] after[j]) by {
                assert(after[j] == rows[j]);
            }
            assert(after[i] == rows[i]);
            support::lemma_first_found(after, here, i);
        },
        None => {
            lemma_first_duplicate(rows, rows.filter(p).map_values(f), here);
            lemma_first_mapped(rows, p, f, here, there, k.0 == to);
        },
    }
}

/// What is found past rows among which there is nothing to find.
proof fn lemma_first_duplicate<T>(a: Seq<T>, b: Seq<T>, p: spec_fn(T) -> bool)
    requires
        support::first_where(a, p) is None,
    ensures
        match support::first_where(b, p) {
            Some(i) => support::first_where(a + b, p) == Some(a.len() + i) && (a + b)[a.len() + i]
                == b[i],
            None => support::first_where(a + b, p) is None,
        },
{
    support::lemma_first_where(a, p);
    support::lemma_first_where(b, p);
    match support::first_where(b, p) {
        Some(i) => {
            assert forall|j: int| 0 <= j < a.len() + i implies !p(#[trigger] (a + b)[j]) by {
                if j < a.len() {
                    assert((a + b)[j] == a[j]);
                } else {
                    assert((a + b)[j] == b[j - a.len()]);
                }
            }
            support::lemma_first_found(a + b, p, a.len() + i);
        },
        None => {
            assert forall|j: int| 0 <= j < (a + b).len() implies !p(#[trigger] (a + b)[j]) by {
                if j < a.len() {
                    assert((a + b)[j] == a[j]);
                } else {
                    assert((a + b)[j] == b[j - a.len()]);
                }
            }
            support::lemma_none_found(a + b, p);
        },
    }
}

/// What is found among the changed copies of the rows with `p`.
proof fn lemma_first_mapped<T>(
    rows: Seq<T>,
    p: spec_fn(T) -> bool,
    f: spec_fn(T) -> T,
    here: spec_fn(T) -> bool,
    there: spec_fn(T) -> bool,
    related: bool,
)
    requires
        forall|t: T| #[trigger] p(t) ==> here(f(t)) == (related && there(t)),
        forall|t: T| #[trigger] there(t) ==> p(t),
    ensures
        match support::first_where(rows.filter(p).map_values(f), here) {
            Some(i) => related && (support::first_where(rows, there) matches Some(j)
                && rows.filter(p).map_values(f)[i] == f(rows[j])),
            None => !related || support::first_where(rows, there) is None,
        },
    decreases rows.len(),
{
    let mapped = rows.filter(p).map_values(f);
    if rows.len() > 0 {
        let less = rows.drop_last();
        let last = rows.last();
        lemma_first_mapped(less, p, f, here, there, related);
        assert(rows =~= less.push(last));
        support::lemma_filter_push(less, last, p);
        support::lemma_pushed(less, rows, there);
        support::lemma_first_where(less, there);
        let before = less.filter(p).map_values(f);
        support::lemma_first_where(before, here);
        if p(last) {
            assert(mapped =~= before.push(f(last)));
            support::lemma_pushed(before, mapped, here);
        } else {
            assert(mapped =~= before);
        }
    } else {
        reveal(Seq::filter);
        assert(mapped.len() == 0);
    }
}

/// The tables with one image's choices and values in effect given to another as well.
pub open spec fn choices_copied(m: TablesModel, from: Seq<char>, to: Seq<char>) -> TablesModel {
    TablesModel {
        choices: duplicated(m.choices, choice_of(from), choice_for(to)),
        effective: effective_copied(m.effective, from, to),
        ..m
    }
}

pub(crate) fn copy_choices(db: &mut Tables, from: &str, to: &str)
    ensures
        final(db)@ == choices_copied(old(db)@, from@, to@),
{
    let choice = |r: &ChoiceRow| -> (o: Option<ChoiceRow>)
        ensures
            match o {
                Some(u) => choice_of(from@)(r@) && u@ == choice_for(to@)(r@),
                None => !choice_of(from@)(r@),
            }
    {
        if same(r.image_id.as_str(), from) {
            Some(
                ChoiceRow {
                    image_id: to.to_owned(),
                    field: r.field.clone(),
                    model_id: r.model_id,
                },
            )
        } else {
            None
        }
    };
    duplicate(&mut db.choices, choice, Ghost(choice_of(from@)), Ghost(choice_for(to@)));
    let effect = |r: &EffectiveRow| -> (o: Option<EffectiveRow>)
        ensures
            match o {
                Some(u) => r@.image_id == from@ && u@ == (tables::EffectiveModel {
                    image_id: to@,
                    ..r@
                }),
                None => r@.image_id != from@,
            }
    {
        if same(r.image_id.as_str(), from) {
            Some(
                EffectiveRow {
                    image_id: to.to_owned(),
                    field: r.field.clone(),
                    value: copy_option(&r.value),
                    conflicted: r.conflicted,
                    model_id: r.model_id,
                },
            )
        } else {
            None
        }
    };
    let ghost p = |r: tables::EffectiveModel| r.image_id == from@;
    let ghost f = |r: tables::EffectiveModel| tables::EffectiveModel { image_id: to@, ..r };
    proof {
        lemma_effective_copied(support::models(db.effective@), from@, to@, p, f);
    }
    duplicate(&mut db.effective, effect, Ghost(p), Ghost(f));
    assert(db@ =~= choices_copied(old(db)@, from@, to@));
}

fn copy_metadata(db: &mut Tables, from: &str, to: &str, source: &VariantKey)
    requires
        old(db)@.revision_at(from@) is Some ==> old(db)@.history_high < i64::MAX,
    ensures
        final(db)@ == metadata_copied(old(db)@, from@, to@, source@),
{
    let ghost m = db@;
    let revision: i64 = catalog_images::recorded_revision(db, from);
    let recorded: bool = db.find_revision_at(from).is_some();
    let observation = |r: &ImageObservationRow| -> (o: Option<ImageObservationRow>)
        ensures
            match o {
                Some(u) => observation_of(from@)(r@) && u@ == observation_for(to@)(r@),
                None => !observation_of(from@)(r@),
            }
    {
        if same(r.image_id.as_str(), from) {
            Some(
                ImageObservationRow { image_id: to.to_owned(), observation_id: r.observation_id },
            )
        } else {
            None
        }
    };
    duplicate(
        &mut db.image_observations,
        observation,
        Ghost(observation_of(from@)),
        Ghost(observation_for(to@)),
    );
    let usage = |r: &ImageSourceRow| -> (o: Option<ImageSourceRow>)
        ensures
            match o {
                Some(u) => usage_of(from@)(r@) && u@ == usage_for(to@)(r@),
                None => !usage_of(from@)(r@),
            }
    {
        if same(r.image_id.as_str(), from) {
            Some(
                ImageSourceRow {
                    image_id: to.to_owned(),
                    source_id: r.source_id,
                    current_observation: r.current_observation,
                    follow_file: r.follow_file,
                    logical_locator: copy_bytes(r.logical_locator.as_slice()),
                    association: r.association.clone(),
                    availability: r.availability.clone(),
                },
            )
        } else {
            None
        }
    };
    duplicate(&mut db.image_sources, usage, Ghost(usage_of(from@)), Ghost(usage_for(to@)));
    copy_choices(db, from, to);
    let row: RevisionRow = RevisionRow { image_id: to.to_owned(), revision };
    match db.find_revision_at(to) {
        Some(k) => db.revisions.set(k, row),
        None => db.revisions.push(row),
    }
    if recorded {
        db.history_high = db.history_high + 1;
        db.history.push(
            HistoryRow {
                id: db.history_high,
                image_id: to.to_owned(),
                revision,
                action: "clone".to_owned(),
                detail: Detail::Cloned {
                    asset_id: source.asset_id.clone(),
                    variant_id: source.variant_id.clone(),
                },
                created_at: db.clock.clone(),
            },
        );
    }
    assert(db@ =~= metadata_copied(m, from@, to@, source@));
}

/// Registers a copy of an image as a new variant, with the identity drawn for
/// it. The copy starts from a fixed snapshot of the image's metadata.
pub fn register_copy_drawn(
    db: &mut Tables,
    key: &VariantKey,
    source: &VariantKey,
    fresh: &str,
) -> (r: Result<(), CatalogError>)
    ensures
        match copy_outcome(old(db)@, key@, source@, fresh@) {
            Ok(m) => r is Ok && final(db)@ == m,
            Err(e) => r == Err::<(), CatalogError>(e) && *final(db) == *old(db),
        },
{
    let from: String = match id(db, source) {
        Err(e) => return Err(e),
        Ok(from) => from,
    };
    match require_current(db, from.as_str()) {
        Err(e) => return Err(e),
        Ok(()) => {},
    }
    let i: usize = match db.find_image_at(from.as_str()) {
        None => return Err(CatalogError::ImageNotFound),
        Some(i) => i,
    };
    if !same(key.asset_id.as_str(), db.images[i].asset_id.as_str()) {
        return Err(CatalogError::ImageNotFound);
    }
    if db.find_image_at(fresh).is_some() || db.find_image_of(
        key.asset_id.as_str(),
        key.variant_id.as_str(),
    ).is_some() {
        return Err(CatalogError::ImageExists);
    }
    if db.image_high == i64::MAX || (db.find_revision_at(from.as_str()).is_some()
        && db.history_high == i64::MAX) {
        return Err(CatalogError::Exhausted);
    }
    let ghost m = db@;
    db.image_high = db.image_high + 1;
    let sequence: i64 = db.images[i].sequence;
    let epoch: i64 = db.images[i].applied_shared_epoch;
    db.images.push(
        ImageRow {
            sequence: db.image_high,
            id: fresh.to_owned(),
            asset_id: key.asset_id.clone(),
            variant_id: key.variant_id.clone(),
            role: ImageRole::NativeCopy,
            imported: false,
            master_sequence: None,
            copied_from_sequence: Some(sequence),
            translation_state: TranslationState::Native,
            pixel_generation: 0,
            applied_shared_epoch: epoch,
        },
    );
    proof {
        let row = m.images[i as int];
        let added = TablesModel {
            images: m.images.push(
                tables::ImageModel {
                    sequence: (m.image_high + 1) as i64,
                    id: fresh@,
                    asset_id: row.asset_id,
                    variant_id: key.variant_id@,
                    role: ImageRole::NativeCopy,
                    imported: false,
                    master_sequence: None,
                    copied_from_sequence: Some(row.sequence),
                    translation_state: TranslationState::Native,
                    pixel_generation: 0,
                    applied_shared_epoch: row.applied_shared_epoch,
                },
            ),
            image_high: (m.image_high + 1) as i64,
            ..m
        };
        assert(db@ =~= added);
    }
    copy_metadata(db, from.as_str(), fresh, source);
    Ok(())
}

} // verus!

//! Logical images share physical storage but own metadata and organization state.
use crate::catalog::Catalog;
use crate::catalog_images::organization::{FlagRow, PAGE_LIMIT};
use crate::catalog_images::refresh::{step_refresh, ImageRefreshProgress, REFRESH_LIMIT};
use crate::catalog_images::register::{
    duplicate, register_copy_drawn, register_import_image, ImportImageRequest,
};
use crate::copies::Copied;
use crate::error::CatalogError;
use crate::ordering;
use crate::ordering::page_rows;
use crate::outside;
use crate::outside::uuid_fresh;
use crate::support::same;
use crate::tables;
use crate::tables::{ImageRow, Tables, TablesModel};
use vstd::prelude::*;

pub mod collection_order_index;
pub mod epochs;
pub mod file_laws;
pub mod image_laws;
pub mod laws;
pub mod listing_laws;
pub mod organization;
pub mod organization_laws;
pub mod refresh;
pub mod register;
pub mod upgrade;

verus! {

/// What an image is to the physical file it shows.
#[derive(Debug, Clone, Copy, PartialEq, Eq, Structural)]
pub enum ImageRole {
    Master,
    Virtual,
    NativeCopy,
}

/// How far an image's edits were carried over.
#[derive(Debug, Clone, Copy, PartialEq, Eq, Structural)]
pub enum TranslationState {
    Native,
    Translated,
    RetainedOnly,
    Untranslated,
}

impl ImageRole {
    /// The stored name of a role.
    pub open spec fn stored(self) -> Seq<char> {
        match self {
            ImageRole::Master => "master"@,
            ImageRole::Virtual => "virtual"@,
            ImageRole::NativeCopy => "native_copy"@,
        }
    }

    /// The stored name of a role.
    pub fn sql(self) -> (name: &'static str)
        ensures
            name@ == self.stored(),
    {
        match self {
            ImageRole::Master => "master",
            ImageRole::Virtual => "virtual",
            ImageRole::NativeCopy => "native_copy",
        }
    }
}

impl TranslationState {
    /// The stored name of a state.
    pub open spec fn stored(self) -> Seq<char> {
        match self {
            TranslationState::Native => "native"@,
            TranslationState::Translated => "translated"@,
            TranslationState::RetainedOnly => "retained_only"@,
            TranslationState::Untranslated => "untranslated"@,
        }
    }

    /// The stored name of a state.
    pub fn sql(self) -> (name: &'static str)
        ensures
            name@ == self.stored(),
    {
        match self {
            TranslationState::Native => "native",
            TranslationState::Translated => "translated",
            TranslationState::RetainedOnly => "retained_only",
            TranslationState::Untranslated => "untranslated",
        }
    }
}

/// A variant of a physical file.
#[derive(Clone, Debug)]
pub struct VariantKey {
    pub asset_id: String,
    pub variant_id: String,
}

/// What a `VariantKey` stands for.
#[verifier::ext_equal]
pub struct VariantKeyModel {
    pub asset_id: Seq<char>,
    pub variant_id: Seq<char>,
}

impl View for VariantKey {
    type V = VariantKeyModel;

    open spec fn view(&self) -> VariantKeyModel {
        VariantKeyModel { asset_id: self.asset_id@, variant_id: self.variant_id@ }
    }
}

impl VariantKey {
    /// The variant that stands for the physical file itself.
    pub fn master(asset: &str) -> (key: VariantKey)
        ensures
            key@ == (VariantKeyModel { asset_id: asset@, variant_id: "master"@ }),
    {
        VariantKey { asset_id: asset.to_owned(), variant_id: "master".to_owned() }
    }

    /// A key for the same variant.
    pub fn copy(&self) -> (key: VariantKey)
        ensures
            key@ == self@,
    {
        VariantKey { asset_id: self.asset_id.clone(), variant_id: self.variant_id.clone() }
    }

    /// Whether two keys stand for the same variant.
    pub fn same_as(&self, other: &VariantKey) -> (r: bool)
        ensures
            r == (self@ == other@),
    {
        same(self.asset_id.as_str(), other.asset_id.as_str()) && same(
            self.variant_id.as_str(),
            other.variant_id.as_str(),
        )
    }
}

/// A logical image as callers see it.
#[derive(Clone, Debug)]
pub struct Image {
    pub id: String,
    pub sequence: i64,
    pub key: VariantKey,
    pub role: ImageRole,
    /// Whether the image was imported rather than made here.
    pub imported: bool,
    pub master_sequence: Option<i64>,
    pub copied_from_sequence: Option<i64>,
    pub translation_state: TranslationState,
}

/// What an `Image` stands for.
#[verifier::ext_equal]
pub struct ImageView {
    pub id: Seq<char>,
    pub sequence: i64,
    pub key: VariantKeyModel,
    pub role: ImageRole,
    pub imported: bool,
    pub master_sequence: Option<i64>,
    pub copied_from_sequence: Option<i64>,
    pub translation_state: TranslationState,
}

impl View for Image {
    type V = ImageView;

    open spec fn view(&self) -> ImageView {
        ImageView {
            id: self.id@,
            sequence: self.sequence,
            key: self.key@,
            role: self.role,
            imported: self.imported,
            master_sequence: self.master_sequence,
            copied_from_sequence: self.copied_from_sequence,
            translation_state: self.translation_state,
        }
    }
}

/// What callers see of a stored image.
pub open spec fn image_view(row: tables::ImageModel) -> ImageView {
    ImageView {
        id: row.id,
        sequence: row.sequence,
        key: VariantKeyModel { asset_id: row.asset_id, variant_id: row.variant_id },
        role: row.role,
        imported: row.imported,
        master_sequence: row.master_sequence,
        copied_from_sequence: row.copied_from_sequence,
        translation_state: row.translation_state,
    }
}

/// Everything whose change makes what was derived from an image's metadata
/// stale.
#[derive(Clone, Debug)]
pub struct ImageMetadataIdentity {
    pub image_id: String,
    pub key: VariantKey,
    pub metadata_revision: i64,
    pub pixel_generation: i64,
    pub shared_source_epoch: i64,
    pub physical_generation: i64,
}

/// What an `ImageMetadataIdentity` stands for.
#[verifier::ext_equal]
pub struct IdentityModel {
    pub image_id: Seq<char>,
    pub key: VariantKeyModel,
    pub metadata_revision: i64,
    pub pixel_generation: i64,
    pub shared_source_epoch: i64,
    pub physical_generation: i64,
}

impl View for ImageMetadataIdentity {
    type V = IdentityModel;

    open spec fn view(&self) -> IdentityModel {
        IdentityModel {
            image_id: self.image_id@,
            key: self.key@,
            metadata_revision: self.metadata_revision,
            pixel_generation: self.pixel_generation,
            shared_source_epoch: self.shared_source_epoch,
            physical_generation: self.physical_generation,
        }
    }
}

impl TablesModel {
    /// The metadata revision of an image, zero where none was recorded.
    pub open spec fn revision_of(self, image: Seq<char>) -> i64 {
        match self.revision_at(image) {
            Some(i) => self.revisions[i].revision,
            None => 0,
        }
    }

    /// Why an image's metadata may not be used: the image has to exist and to
    /// have followed all changes of its shared sources.
    pub open spec fn current_refusal(self, image: Seq<char>) -> Option<CatalogError> {
        match self.image_at(image) {
            None => Some(CatalogError::ImageNotFound),
            Some(i) => match self.asset_at(self.images[i].asset_id) {
                None => Some(CatalogError::AssetNotFound),
                Some(a) => if self.images[i].applied_shared_epoch != self.assets[a].shared_epoch {
                    Some(CatalogError::PendingRefresh)
                } else {
                    None
                },
            },
        }
    }

    /// The metadata identity of an image.
    pub open spec fn identity_of(self, image: Seq<char>) -> Result<IdentityModel, CatalogError> {
        match self.current_refusal(image) {
            Some(e) => Err(e),
            None => {
                let row = self.images[self.image_at(image)->0];
                let asset = self.assets[self.asset_at(row.asset_id)->0];
                Ok(
                    IdentityModel {
                        image_id: row.id,
                        key: VariantKeyModel {
                            asset_id: row.asset_id,
                            variant_id: row.variant_id,
                        },
                        metadata_revision: self.revision_of(image),
                        pixel_generation: row.pixel_generation,
                        shared_source_epoch: asset.shared_epoch,
                        physical_generation: asset.physical_generation,
                    },
                )
            },
        }
    }

    /// The identity of the image of a variant.
    pub open spec fn id_of(self, key: VariantKeyModel) -> Option<Seq<char>> {
        match self.image_of(key.asset_id, key.variant_id) {
            Some(i) => Some(self.images[i].id),
            None => None,
        }
    }
}

/// The identity of the image of a variant.
pub fn id(db: &Tables, key: &VariantKey) -> (r: Result<String, CatalogError>)
    ensures
        match r {
            Ok(id) => db@.id_of(key@) == Some(id@),
            Err(e) => db@.id_of(key@) is None && e == CatalogError::ImageNotFound,
        },
{
    match db.find_image_of(key.asset_id.as_str(), key.variant_id.as_str()) {
        Some(i) => Ok(db.images[i].id.clone()),
        None => Err(CatalogError::ImageNotFound),
    }
}

/// The physical file of an image.
pub fn physical(db: &Tables, image: &str) -> (r: Result<String, CatalogError>)
    ensures
        match r {
            Ok(asset) => db@.image_at(image@) matches Some(i) && asset@ == db@.images[i].asset_id,
            Err(e) => db@.image_at(image@) is None && e == CatalogError::ImageNotFound,
        },
{
    match db.find_image_at(image) {
        Some(i) => Ok(db.images[i].asset_id.clone()),
        None => Err(CatalogError::ImageNotFound),
    }
}

/// The metadata revision of an image, zero where none was recorded.
pub fn recorded_revision(db: &Tables, image: &str) -> (revision: i64)
    ensures
        revision == db@.revision_of(image@),
{
    match db.find_revision_at(image) {
        Some(i) => db.revisions[i].revision,
        None => 0,
    }
}

/// Refuses an image that has not followed its shared sources.
pub fn require_current(db: &Tables, image: &str) -> (r: Result<(), CatalogError>)
    ensures
        match r {
            Ok(()) => db@.current_refusal(image@) is None,
            Err(e) => db@.current_refusal(image@) == Some(e),
        },
{
    let i: usize = match db.find_image_at(image) {
        None => return Err(CatalogError::ImageNotFound),
        Some(i) => i,
    };
    match db.find_asset_at(db.images[i].asset_id.as_str()) {
        None => Err(CatalogError::AssetNotFound),
        Some(a) => if db.images[i].applied_shared_epoch != db.assets[a].shared_epoch {
            Err(CatalogError::PendingRefresh)
        } else {
            Ok(())
        },
    }
}

/// The metadata identity of an image.
pub fn identity(db: &Tables, image: &str) -> (r: Result<ImageMetadataIdentity, CatalogError>)
    ensures
        match r {
            Ok(identity) => db@.identity_of(image@) == Ok::<IdentityModel, CatalogError>(identity@),
            Err(e) => db@.identity_of(image@) == Err::<IdentityModel, CatalogError>(e),
        },
{
    match require_current(db, image) {
        Err(e) => return Err(e),
        Ok(()) => {},
    }
    let i: usize = match db.find_image_at(image) {
        None => return Err(CatalogError::ImageNotFound),
        Some(i) => i,
    };
    let a: usize = match db.find_asset_at(db.images[i].asset_id.as_str()) {
        None => return Err(CatalogError::AssetNotFound),
        Some(a) => a,
    };
    Ok(
        ImageMetadataIdentity {
            image_id: db.images[i].id.clone(),
            key: VariantKey {
                asset_id: db.images[i].asset_id.clone(),
                variant_id: db.images[i].variant_id.clone(),
            },
            metadata_revision: recorded_revision(db, image),
            pixel_generation: db.images[i].pixel_generation,
            shared_source_epoch: db.assets[a].shared_epoch,
            physical_generation: db.assets[a].physical_generation,
        },
    )
}

/// Refuses an identity that is no longer that of its image.
pub fn require_image_metadata_identity(db: &Tables, expected: &ImageMetadataIdentity) -> (r: Result<
    (),
    CatalogError,
>)
    ensures
        match r {
            Ok(()) => db@.identity_of(expected.image_id@) == Ok::<IdentityModel, CatalogError>(
                expected@,
            ),
            Err(e) => match db@.identity_of(expected.image_id@) {
                Ok(found) => found != expected@ && e == CatalogError::IdentityChanged,
                Err(f) => e == f,
            },
        },
{
    match identity(db, expected.image_id.as_str()) {
        Err(e) => Err(e),
        Ok(found) => {
            if same(found.image_id.as_str(), expected.image_id.as_str()) && found.key.same_as(
                &expected.key,
            ) && found.metadata_revision == expected.metadata_revision && found.pixel_generation
                == expected.pixel_generation && found.shared_source_epoch
                == expected.shared_source_epoch && found.physical_generation
                == expected.physical_generation {
                Ok(())
            } else {
                Err(CatalogError::IdentityChanged)
            }
        },
    }
}

fn read_row(row: &ImageRow) -> (image: Image)
    ensures
        image@ == image_view(row@),
{
    Image {
        id: row.id.clone(),
        sequence: row.sequence,
        key: VariantKey { asset_id: row.asset_id.clone(), variant_id: row.variant_id.clone() },
        role: row.role,
        imported: row.imported,
        master_sequence: row.master_sequence,
        copied_from_sequence: row.copied_from_sequence,
        translation_state: row.translation_state,
    }
}

/// The image with an identity.
pub fn read_image(db: &Tables, image: &str) -> (r: Result<Image, CatalogError>)
    ensures
        match r {
            Ok(found) => db@.image_at(image@) matches Some(i) && found@ == image_view(
                db@.images[i],
            ),
            Err(e) => db@.image_at(image@) is None && e == CatalogError::ImageNotFound,
        },
{
    match db.find_image_at(image) {
        Some(i) => Ok(read_row(&db.images[i])),
        None => Err(CatalogError::ImageNotFound),
    }
}

/// Where images come on pages of all images.
pub open spec fn sequence_key() -> spec_fn(tables::ImageModel) -> Option<(i64, i64)> {
    |r: tables::ImageModel| Some((r.sequence, 0i64))
}

/// These are the images that come next after a sequence number.
pub open spec fn is_image_page(m: TablesModel, after: i64, limit: nat, rows: Seq<Image>) -> bool {
    exists|picks: Seq<usize>|
        {
            &&& #[trigger] ordering::is_page::<(i64, i64)>(
                m.images.map_values(sequence_key()),
                Some((after, 0i64)),
                Some(limit),
                picks,
            )
            &&& rows.len() == picks.len()
            &&& forall|i: int|
                0 <= i < rows.len() ==> (#[trigger] rows[i])@ == image_view(
                    m.images[picks[i] as int],
                )
        }
}

pub open spec fn flag_of(sequence: i64) -> spec_fn(organization::FlagModel) -> bool {
    |r: organization::FlagModel| r.sequence == sequence
}

pub open spec fn flag_for(sequence: i64) -> spec_fn(
    organization::FlagModel,
) -> organization::FlagModel {
    |r: organization::FlagModel| organization::FlagModel { sequence, ..r }
}

impl Catalog {
    /// The image of a variant.
    pub fn image(&self, key: &VariantKey) -> (r: Result<Image, CatalogError>)
        ensures
            match r {
                Ok(found) => self.tables@.id_of(key@) matches Some(id) && self.tables@.image_at(
                    id,
                ) matches Some(i) && found@ == image_view(self.tables@.images[i]),
                Err(e) => e == CatalogError::ImageNotFound && (self.tables@.id_of(key@) is None
                    || self.tables@.image_at(self.tables@.id_of(key@)->0) is None),
            },
    {
        match id(&self.tables, key) {
            Err(e) => Err(e),
            Ok(image) => read_image(&self.tables, image.as_str()),
        }
    }

    /// A page of all images, in the order of their sequence numbers.
    pub fn browse_images(&self, after: i64, limit: usize) -> (r: Result<Vec<Image>, CatalogError>)
        ensures
            match r {
                Err(e) => (after < 0 || limit == 0 || limit > PAGE_LIMIT) && e
                    == CatalogError::PageBounds,
                Ok(rows) => after >= 0 && 0 < limit <= PAGE_LIMIT && is_image_page(
                    self.tables@,
                    after,
                    limit as nat,
                    rows@,
                ),
            },
    {
        if after < 0 || limit == 0 || limit > PAGE_LIMIT {
            return Err(CatalogError::PageBounds);
        }
        let db = &self.tables;
        let key = |r: &ImageRow| -> (k: Option<(i64, i64)>)
            ensures ordering::key_of(k) == sequence_key()(r@)
        {
            Some((r.sequence, 0))
        };
        let cursor: Option<(i64, i64)> = Some((after, 0));
        let picks: Vec<usize> = page_rows(
            &db.images,
            key,
            Ghost(sequence_key()),
            &cursor,
            Some(limit),
        );
        let mut rows: Vec<Image> = Vec::new();
        let mut n: usize = 0;
        while n < picks.len()
            invariant
                n <= picks@.len(),
                rows@.len() == n,
                ordering::is_page::<(i64, i64)>(
                    db@.images.map_values(sequence_key()),
                    Some((after, 0i64)),
                    Some(limit as nat),
                    picks@,
                ),
                forall|j: int|
                    0 <= j < n ==> (#[trigger] rows@[j])@ == image_view(
                        db@.images[picks@[j] as int],
                    ),
            decreases picks@.len() - n,
        {
            let p: usize = picks[n];
            assert(db@.images[p as int] == db.images@[p as int]@);
            rows.push(read_row(&db.images[p]));
            n += 1;
        }
        Ok(rows)
    }

    /// The metadata identity of the image of a variant.
    pub fn image_metadata_identity(&self, key: &VariantKey) -> (r: Result<
        ImageMetadataIdentity,
        CatalogError,
    >)
        ensures
            match self.tables@.id_of(key@) {
                None => r == Err::<ImageMetadataIdentity, CatalogError>(
                    CatalogError::ImageNotFound,
                ),
                Some(id) => match self.tables@.identity_of(id) {
                    Ok(found) => r matches Ok(identity) && identity@ == found,
                    Err(e) => r == Err::<ImageMetadataIdentity, CatalogError>(e),
                },
            },
    {
        match id(&self.tables, key) {
            Err(e) => Err(e),
            Ok(image) => identity(&self.tables, image.as_str()),
        }
    }

    /// Writes to the tables of a catalog in which an image's metadata identity is the
    /// expected one, and does nothing where it is not. The action is handed the tables
    /// and gives back what they are to become; where it fails, nothing of what it did is
    /// kept.
    pub fn with_image_metadata_identity<
        T,
        F: FnOnce(Tables) -> Result<(Tables, T), CatalogError>,
    >(&mut self, expected: &ImageMetadataIdentity, action: F) -> (r: Result<T, CatalogError>)
        requires
            forall|t: Tables| action.requires((t,)),
        ensures
            final(self).tables_only(*old(self)),
            r is Err ==> *final(self) == *old(self),
            match old(self).tables@.identity_of(expected.image_id@) {
                Err(e) => r == Err::<T, CatalogError>(e),
                Ok(found) => if found != expected@ {
                    r == Err::<T, CatalogError>(CatalogError::IdentityChanged)
                } else {
                    exists|t: Tables, done: Result<(Tables, T), CatalogError>|
                        {
                            &&& t@ == old(self).tables@
                            &&& #[trigger] action.ensures((t,), done)
                            &&& match done {
                                Err(e) => r == Err::<T, CatalogError>(e),
                                Ok((after, value)) => r == Ok::<T, CatalogError>(value)
                                    && final(self).tables == after,
                            }
                        }
                },
            },
    {
        match require_image_metadata_identity(&self.tables, expected) {
            Err(e) => return Err(e),
            Ok(()) => {},
        }
        let tables: Tables = self.tables.copied();
        let ghost given = tables;
        let done = action(tables);
        assert(action.ensures((given,), done));
        match done {
            Err(e) => Err(e),
            Ok((after, value)) => {
                self.tables = after;
                Ok(value)
            },
        }
    }

    /// Imports a source record as an image, wholly or not at all. The caller has
    /// to admit the record's source beforehand.
    pub fn register_import_image(&mut self, r: &ImportImageRequest) -> (p: Result<
        Image,
        CatalogError,
    >)
        ensures
            final(self).tables_only(*old(self)),
            exists|fresh_image: Seq<char>, fresh_variant: Seq<char>|
                outside::canonical_uuid(fresh_image) && outside::canonical_uuid(fresh_variant)
                    && match #[trigger] register::register_outcome(
                    old(self).tables@,
                    *r,
                    fresh_image,
                    fresh_variant,
                ) {
                    Ok((m, image)) => p matches Ok(found) && found@ == image && final(self).tables@
                        == m,
                    Err(e) => p == Err::<Image, CatalogError>(e) && *final(self) == *old(self),
                },
    {
        let mut tables: Tables = self.tables.copied();
        match register_import_image(&mut tables, r) {
            Err(e) => Err(e),
            Ok(image) => {
                self.tables = tables;
                Ok(image)
            },
        }
    }

    /// Registers a copy of an image as a new variant, with the copied image's
    /// metadata, flag and memberships as they are now.
    pub fn register_copy(&mut self, key: &VariantKey, source: &VariantKey) -> (r: Result<
        (),
        CatalogError,
    >)
        ensures
            final(self).apart(*old(self)),
            old(self).organization.membership.wf() ==> final(self).organization.membership.wf()
                && exists|fresh: Seq<char>|
                outside::canonical_uuid(fresh) && match #[trigger] register::copy_outcome(
                    old(self).tables@,
                    key@,
                    source@,
                    fresh,
                ) {
                    Err(e) => r == Err::<(), CatalogError>(e) && *final(self) == *old(self),
                    Ok(m) => {
                        let old_rows = old(self).tables@;
                        let from = old_rows.images[old_rows.image_at(
                            old_rows.id_of(source@)->0,
                        )->0].sequence;
                        &&& r is Ok
                        &&& final(self).tables@ == m
                        &&& final(self).organization@ == (organization::OrganizationModel {
                            flags: register::duplicated(
                                old(self).organization@.flags,
                                flag_of(from),
                                flag_for(m.image_high),
                            ),
                            ..old(self).organization@
                        })
                        &&& old(self).organization.membership.shared_with(
                            final(self).organization.membership,
                            from,
                            m.image_high,
                        )
                    },
                },
    {
        let fresh: String = uuid_fresh();
        let from: i64 = match id(&self.tables, source) {
            Err(e) => {
                assert(register::copy_outcome(self.tables@, key@, source@, fresh@) is Err);
                return Err(e);
            },
            Ok(image) => match self.tables.find_image_at(image.as_str()) {
                None => {
                    assert(register::copy_outcome(self.tables@, key@, source@, fresh@) is Err);
                    return Err(CatalogError::ImageNotFound);
                },
                Some(i) => {
                    assert(self.tables@.images[i as int] == self.tables.images@[i as int]@);
                    self.tables.images[i].sequence
                },
            },
        };
        let ghost before = self.tables@;
        match register_copy_drawn(&mut self.tables, key, source, fresh.as_str()) {
            Err(e) => {
                assert(register::copy_outcome(before, key@, source@, fresh@) is Err);
                return Err(e);
            },
            Ok(()) => {},
        }
        assert(register::copy_outcome(before, key@, source@, fresh@) is Ok);
        let to: i64 = self.tables.image_high;
        let flag = |r: &FlagRow| -> (o: Option<FlagRow>)
            ensures
                match o {
                    Some(u) => flag_of(from)(r@) && u@ == flag_for(to)(r@),
                    None => !flag_of(from)(r@),
                }
        {
            if r.sequence == from {
                Some(
                    FlagRow {
                        sequence: to,
                        flag: r.flag.clone(),
                        provenance: r.provenance.clone(),
                    },
                )
            } else {
                None
            }
        };
        duplicate(
            &mut self.organization.flags,
            flag,
            Ghost(flag_of(from)),
            Ghost(flag_for(to)),
        );
        match self.organization.membership.copy_members(from, to) {
            Err(_) => Err(CatalogError::MembershipDamaged),
            Ok(()) => {
                assert(self.organization@ =~= organization::OrganizationModel {
                    flags: register::duplicated(
                        old(self).organization@.flags,
                        flag_of(from),
                        flag_for(to),
                    ),
                    ..old(self).organization@
                });
                Ok(())
            },
        }
    }

    /// Has images follow changes of their shared sources, at most `limit` of them.
    pub fn step_image_metadata_refresh(&mut self, limit: usize) -> (r: Result<
        ImageRefreshProgress,
        CatalogError,
    >)
        ensures
            final(self).tables_only(*old(self)),
            if limit == 0 || limit > REFRESH_LIMIT {
                r == Err::<ImageRefreshProgress, CatalogError>(CatalogError::BatchLimit)
                    && *final(self) == *old(self)
            } else {
                match old(self).tables@.refreshed(limit as nat) {
                    Ok((m, done)) => r matches Ok(p) && p.processed == done && p.pending == (
                    m.shared_events.len() > 0) && final(self).tables@ == m,
                    Err(e) => r == Err::<ImageRefreshProgress, CatalogError>(e) && *final(self)
                        == *old(self),
                }
            },
            r matches Ok(p) ==> 0 < limit <= REFRESH_LIMIT && p.processed <= limit && (p.processed
                < limit ==> !p.pending),
            old(self).tables@.epochs_wf() ==> match r {
                Ok(p) => final(self).tables@.epochs_wf() && (!p.pending ==> epochs::settled(
                    final(self).tables@,
                )),
                Err(e) => e != CatalogError::EpochGap && *final(self) == *old(self),
            },
    {
        let mut tables: Tables = self.tables.copied();
        match step_refresh(&mut tables, limit) {
            Err(e) => Err(e),
            Ok(progress) => {
                self.tables = tables;
                Ok(progress)
            },
        }
    }
}

} // verus!

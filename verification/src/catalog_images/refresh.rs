//! Bounded propagation of changes of shared sources to all images of a file.
use crate::catalog_images::epochs;
use crate::catalog_images::physical;
use crate::catalog_metadata;
use crate::catalog_metadata::{advance, rebuild};
use crate::copies::Copied;
use crate::error::CatalogError;
use crate::lookups;
use crate::ordering;
use crate::ordering::is_text_before;
use crate::support;
use crate::support::{copy_bytes, find, same};
use crate::tables;
use crate::tables::{
    Detail, ImageObservationRow, ImageRow, ImageSourceRow, SharedEvent, StorageEvent, Tables,
    TablesModel,
};
use vstd::prelude::*;

verus! {

/// The most images one batch visits.
pub const REFRESH_LIMIT: usize = 1000;

/// How far a batch has come.
#[derive(Clone, Debug)]
pub struct ImageRefreshProgress {
    pub processed: usize,
    pub pending: bool,
}

pub open spec fn image_within(asset: Seq<char>, after: i64, high: i64) -> spec_fn(
    tables::ImageModel,
) -> bool {
    |i: tables::ImageModel| i.asset_id == asset && after < i.sequence && i.sequence <= high
}

/// The greatest sequence number of a physical file's images, zero without any.
pub open spec fn high_water(images: Seq<tables::ImageModel>, asset: Seq<char>) -> i64
    decreases images.len(),
{
    if images.len() == 0 {
        0
    } else {
        let before = high_water(images.drop_last(), asset);
        let last = images.last();
        if last.asset_id == asset && last.sequence > before {
            last.sequence
        } else {
            before
        }
    }
}

/// The greatest sequence number of a physical file's images.
pub fn find_high_water(db: &Tables, asset: &str) -> (high: i64)
    ensures
        high == high_water(db@.images, asset@),
{
    let mut high: i64 = 0;
    let mut i: usize = 0;
    let ghost images = db@.images;
    while i < db.images.len()
        invariant
            i <= db.images@.len(),
            images == support::models(db.images@),
            high == high_water(images.take(i as int), asset@),
        decreases db.images@.len() - i,
    {
        assert(images[i as int] == db.images@[i as int]@);
        assert(images.take(i + 1).drop_last() =~= images.take(i as int));
        if db.images[i].sequence > high && same(db.images[i].asset_id.as_str(), asset) {
            high = db.images[i].sequence;
        }
        i += 1;
    }
    assert(images.take(i as int) =~= images);
    high
}

impl TablesModel {
    /// The next image of a physical file after a sequence number and not beyond
    /// another.
    pub open spec fn next_image(self, asset: Seq<char>, after: i64, high: i64) -> Option<int> {
        support::first_where(self.images, image_within(asset, after, high))
    }

    /// An observation was made of a source of an image's physical file.
    pub open spec fn own_observation(self, image: Seq<char>, observation: i64) -> bool {
        self.image_at(image) matches Some(i) && self.observation_at(observation) matches Some(o)
            && self.source_at(self.observations[o].source_id) matches Some(s)
            && self.sources[s].asset_id == self.images[i].asset_id
    }

    /// The tables with an observation in an image's history.
    pub open spec fn linked(self, image: Seq<char>, observation: i64) -> Result<
        TablesModel,
        CatalogError,
    > {
        if self.image_observation_at(image, observation) is Some {
            Ok(self)
        } else if !self.own_observation(image, observation) {
            Err(CatalogError::ForeignObservation)
        } else {
            Ok(
                TablesModel {
                    image_observations: self.image_observations.push(
                        tables::ImageObservationModel {
                            image_id: image,
                            observation_id: observation,
                        },
                    ),
                    ..self
                },
            )
        }
    }

    /// As `linked`, where there is an observation.
    pub open spec fn linked_option(self, image: Seq<char>, observation: Option<i64>) -> Result<
        TablesModel,
        CatalogError,
    > {
        match observation {
            Some(o) => self.linked(image, o),
            None => Ok(self),
        }
    }

    /// Why an image may not use an observation as the current one of a source.
    pub open spec fn usage_refusal(
        self,
        image: Seq<char>,
        source: i64,
        current: Option<i64>,
    ) -> Option<CatalogError> {
        if !(self.image_at(image) matches Some(i) && self.source_at(source) matches Some(s)
            && self.sources[s].asset_id == self.images[i].asset_id) {
            Some(CatalogError::ForeignSource)
        } else {
            match current {
                Some(c) if !(self.observation_at(c) matches Some(o)
                    && self.observations[o].source_id == source && self.image_observation_at(
                    image,
                    c,
                ) is Some) => Some(CatalogError::ObservationOutsideHistory),
                _ => None,
            }
        }
    }

    /// The tables with an image following a source of its physical file.
    pub open spec fn following(
        self,
        image: Seq<char>,
        source: i64,
        current: Option<i64>,
        association: Seq<char>,
        availability: Seq<char>,
    ) -> Result<TablesModel, CatalogError> {
        match self.source_at(source) {
            None => Ok(self),
            Some(s) => match self.usage_refusal(image, source, current) {
                Some(e) => Err(e),
                None => {
                    let row = tables::ImageSourceModel {
                        image_id: image,
                        source_id: source,
                        current_observation: current,
                        follow_file: match self.image_source_at(image, source) {
                            Some(a) => self.image_sources[a].follow_file,
                            None => true,
                        },
                        logical_locator: self.sources[s].locator,
                        association,
                        availability,
                    };
                    Ok(
                        TablesModel {
                            image_sources: support::put(
                                self.image_sources,
                                lookups::image_source_for(image, source),
                                row,
                            ),
                            ..self
                        },
                    )
                },
            },
        }
    }

    /// The tables after an image has followed a shared event in what it sees of
    /// the source. Images that keep their own copy of the source are left as they
    /// are; metadata advances only where something the image sees changed.
    pub open spec fn followed(self, image: Seq<char>, e: tables::SharedEventModel) -> Result<
        TablesModel,
        CatalogError,
    > {
        match self.image_source_at(image, e.source_id) {
            Some(a) if !self.image_sources[a].follow_file => Ok(self),
            old => match self.linked_option(image, e.observation_id) {
                Err(x) => Err(x),
                Ok(m1) => match m1.linked_option(image, e.current_observation) {
                    Err(x) => Err(x),
                    Ok(m2) => match m2.following(
                        image,
                        e.source_id,
                        e.current_observation,
                        e.association,
                        e.availability,
                    ) {
                        Err(x) => Err(x),
                        Ok(m3) => if old is None || self.image_sources[old->0].current_observation
                            != e.current_observation || self.image_sources[old->0].association
                            != e.association || self.image_sources[old->0].availability
                            != e.availability {
                            match catalog_metadata::advance_outcome(
                                m3.rebuilt(image),
                                image,
                                "shared_observation"@,
                                tables::DetailModel::SharedObservation {
                                    event: e.id,
                                    observation: e.observation_id,
                                },
                                true,
                            ) {
                                Ok((m4, _)) => Ok(m4),
                                Err(x) => Err(x),
                            }
                        } else {
                            Ok(m3)
                        },
                    },
                },
            },
        }
    }

    /// The tables after one image has applied the first shared event.
    pub open spec fn refreshed_image(self, i: int) -> Result<TablesModel, CatalogError> {
        let e = self.shared_events[0];
        let row = self.images[i];
        let applied = if row.applied_shared_epoch >= e.epoch {
            Ok(self)
        } else if row.applied_shared_epoch != e.epoch - 1 {
            Err(CatalogError::EpochGap)
        } else {
            match self.followed(row.id, e) {
                Err(x) => Err(x),
                Ok(m) => Ok(
                    TablesModel {
                        images: m.images.update(
                            i,
                            tables::ImageModel { applied_shared_epoch: e.epoch, ..m.images[i] },
                        ),
                        ..m
                    },
                ),
            }
        };
        match applied {
            Err(x) => Err(x),
            Ok(m) => Ok(
                TablesModel {
                    shared_events: m.shared_events.update(
                        0,
                        tables::SharedEventModel { cursor: row.sequence, ..e },
                    ),
                    ..m
                },
            ),
        }
    }

    /// The tables after images have followed shared events, at most `budget` of
    /// them, and the number that did. Events are taken in order, and an event is
    /// over when no image up to its high-water mark is left.
    pub open spec fn refreshed(self, budget: nat) -> Result<(TablesModel, nat), CatalogError>
        decreases budget, self.shared_events.len(),
    {
        if budget == 0 || self.shared_events.len() == 0 {
            Ok((self, 0))
        } else {
            let e = self.shared_events[0];
            match self.next_image(e.asset_id, e.cursor, e.high_water) {
                None => TablesModel { shared_events: self.shared_events.skip(1), ..self }.refreshed(
                    budget,
                ),
                Some(i) => match self.refreshed_image(i) {
                    Err(x) => Err(x),
                    Ok(m) => match m.refreshed((budget - 1) as nat) {
                        Err(x) => Err(x),
                        Ok((z, n)) => Ok((z, n + 1)),
                    },
                },
            }
        }
    }
}

/// Puts an observation into an image's history.
pub(crate) fn link(db: &mut Tables, image: &str, observation: i64) -> (r: Result<(), CatalogError>)
    ensures
        match old(db)@.linked(image@, observation) {
            Ok(m) => r is Ok && final(db)@ == m,
            Err(e) => r == Err::<(), CatalogError>(e),
        },
{
    if db.find_image_observation_at(image, observation).is_some() {
        return Ok(());
    }
    let i: usize = match db.find_image_at(image) {
        None => return Err(CatalogError::ForeignObservation),
        Some(i) => i,
    };
    let o: usize = match db.find_observation_at(observation) {
        None => return Err(CatalogError::ForeignObservation),
        Some(o) => o,
    };
    let s: usize = match db.find_source_at(db.observations[o].source_id) {
        None => return Err(CatalogError::ForeignObservation),
        Some(s) => s,
    };
    if !same(db.sources[s].asset_id.as_str(), db.images[i].asset_id.as_str()) {
        return Err(CatalogError::ForeignObservation);
    }
    db.image_observations.push(
        ImageObservationRow { image_id: image.to_owned(), observation_id: observation },
    );
    assert(db@ =~= old(db)@.linked(image@, observation)->Ok_0);
    Ok(())
}

fn link_option(db: &mut Tables, image: &str, observation: Option<i64>) -> (r: Result<
    (),
    CatalogError,
>)
    ensures
        match old(db)@.linked_option(image@, observation) {
            Ok(m) => r is Ok && final(db)@ == m,
            Err(e) => r == Err::<(), CatalogError>(e),
        },
{
    match observation {
        Some(o) => link(db, image, o),
        None => Ok(()),
    }
}

pub(crate) fn check_usage(db: &Tables, image: &str, source: i64, current: Option<i64>) -> (r: Result<
    (),
    CatalogError,
>)
    ensures
        match r {
            Ok(()) => db@.usage_refusal(image@, source, current) is None,
            Err(e) => db@.usage_refusal(image@, source, current) == Some(e),
        },
{
    let i: usize = match db.find_image_at(image) {
        None => return Err(CatalogError::ForeignSource),
        Some(i) => i,
    };
    let s: usize = match db.find_source_at(source) {
        None => return Err(CatalogError::ForeignSource),
        Some(s) => s,
    };
    if !same(db.sources[s].asset_id.as_str(), db.images[i].asset_id.as_str()) {
        return Err(CatalogError::ForeignSource);
    }
    match current {
        None => Ok(()),
        Some(c) => match db.find_observation_at(c) {
            None => Err(CatalogError::ObservationOutsideHistory),
            Some(o) => if db.observations[o].source_id == source && db.find_image_observation_at(
                image,
                c,
            ).is_some() {
                Ok(())
            } else {
                Err(CatalogError::ObservationOutsideHistory)
            },
        },
    }
}

/// Makes an image follow a source.
pub(crate) fn follow(
    db: &mut Tables,
    image: &str,
    source: i64,
    current: Option<i64>,
    association: &str,
    availability: &str,
) -> (r: Result<(), CatalogError>)
    ensures
        match old(db)@.following(image@, source, current, association@, availability@) {
            Ok(m) => r is Ok && final(db)@ == m,
            Err(e) => r == Err::<(), CatalogError>(e),
        },
{
    let s: usize = match db.find_source_at(source) {
        None => return Ok(()),
        Some(s) => s,
    };
    match check_usage(db, image, source, current) {
        Err(e) => return Err(e),
        Ok(()) => {},
    }
    let existing: Option<usize> = db.find_image_source_at(image, source);
    let row: ImageSourceRow = ImageSourceRow {
        image_id: image.to_owned(),
        source_id: source,
        current_observation: current,
        follow_file: match existing {
            Some(a) => db.image_sources[a].follow_file,
            None => true,
        },
        logical_locator: copy_bytes(db.sources[s].locator.as_slice()),
        association: association.to_owned(),
        availability: availability.to_owned(),
    };
    match existing {
        Some(a) => db.image_sources.set(a, row),
        None => db.image_sources.push(row),
    }
    assert(db@ =~= old(db)@.following(image@, source, current, association@, availability@)->Ok_0);
    Ok(())
}

/// Lets an image follow a shared event.
fn follow_event(db: &mut Tables, image: &str, e: &SharedEvent) -> (r: Result<(), CatalogError>)
    ensures
        match old(db)@.followed(image@, e@) {
            Ok(m) => r is Ok && final(db)@ == m,
            Err(x) => r == Err::<(), CatalogError>(x),
        },
{
    let existing: Option<usize> = db.find_image_source_at(image, e.source_id);
    let changed: bool = match existing {
        None => true,
        Some(a) => {
            if !db.image_sources[a].follow_file {
                return Ok(());
            }
            let row = &db.image_sources[a];
            row.current_observation != e.current_observation || !same(
                row.association.as_str(),
                e.association.as_str(),
            ) || !same(row.availability.as_str(), e.availability.as_str())
        },
    };
    match link_option(db, image, e.observation_id) {
        Err(x) => return Err(x),
        Ok(()) => {},
    }
    match link_option(db, image, e.current_observation) {
        Err(x) => return Err(x),
        Ok(()) => {},
    }
    match follow(
        db,
        image,
        e.source_id,
        e.current_observation,
        e.association.as_str(),
        e.availability.as_str(),
    ) {
        Err(x) => return Err(x),
        Ok(()) => {},
    }
    if changed {
        rebuild(db, image);
        match advance(
            db,
            image,
            "shared_observation",
            Detail::SharedObservation { event: e.id, observation: e.observation_id },
            true,
        ) {
            Err(x) => return Err(x),
            Ok(_) => {},
        }
    }
    Ok(())
}

/// Following an event changes no image's place and no event.
proof fn lemma_followed_frame(m: TablesModel, image: Seq<char>, e: tables::SharedEventModel)
    ensures
        match m.followed(image, e) {
            Ok(n) => n.images.len() == m.images.len() && n.shared_events == m.shared_events,
            Err(_) => true,
        },
{
    support::lemma_first_where(m.images, lookups::image_with_id(image));
}

/// Lets one image apply the first shared event.
fn refresh_image(db: &mut Tables, i: usize) -> (r: Result<(), CatalogError>)
    requires
        i < old(db).images@.len(),
        old(db).shared_events@.len() > 0,
    ensures
        match old(db)@.refreshed_image(i as int) {
            Ok(m) => r is Ok && final(db)@ == m,
            Err(x) => r == Err::<(), CatalogError>(x),
        },
{
    let e: SharedEvent = db.shared_events[0].copied();
    let image: String = db.images[i].id.clone();
    let sequence: i64 = db.images[i].sequence;
    let applied: i64 = db.images[i].applied_shared_epoch;
    assert(db@.shared_events[0] == e@);
    assert(db@.images[i as int] == db.images@[i as int]@);
    assert(db@.images.len() == db.images@.len());
    assert(db@.shared_events.len() == db.shared_events@.len());
    if applied < e.epoch {
        if applied != e.epoch - 1 {
            return Err(CatalogError::EpochGap);
        }
        proof {
            lemma_followed_frame(old(db)@, image@, e@);
        }
        match follow_event(db, image.as_str(), &e) {
            Err(x) => return Err(x),
            Ok(()) => {},
        }
        assert(db@.images.len() == db.images@.len());
        assert(db@.shared_events.len() == db.shared_events@.len());
        let ghost followed = db@;
        db.images[i].applied_shared_epoch = e.epoch;
        assert(db@ =~= TablesModel {
            images: followed.images.update(
                i as int,
                tables::ImageModel { applied_shared_epoch: e.epoch, ..followed.images[i as int] },
            ),
            ..followed
        });
    }
    let ghost applied_tables = db@;
    assert(db@.shared_events[0] == db.shared_events@[0]@);
    db.shared_events[0].cursor = sequence;
    assert(db@ =~= TablesModel {
        shared_events: applied_tables.shared_events.update(
            0,
            tables::SharedEventModel { cursor: sequence, ..e@ },
        ),
        ..applied_tables
    });
    Ok(())
}

/// The count of a batch that goes on after some images.
pub open spec fn counted(
    rest: Result<(TablesModel, nat), CatalogError>,
    before: nat,
) -> Result<(TablesModel, nat), CatalogError> {
    match rest {
        Ok((m, n)) => Ok((m, n + before)),
        Err(e) => Err(e),
    }
}

/// A batch takes no more steps than allowed, and fewer only where no event is left.
pub(crate) proof fn lemma_refreshed_steps(m: TablesModel, budget: nat)
    ensures
        m.refreshed(budget) matches Ok((after, n)) ==> n <= budget && (n < budget
            ==> after.shared_events.len() == 0),
    decreases budget, m.shared_events.len(),
{
    if budget > 0 && m.shared_events.len() > 0 {
        let e = m.shared_events[0];
        match m.next_image(e.asset_id, e.cursor, e.high_water) {
            None => lemma_refreshed_steps(
                (TablesModel { shared_events: m.shared_events.skip(1), ..m }),
                budget,
            ),
            Some(i) => {
                if let Ok(next) = m.refreshed_image(i) {
                    lemma_refreshed_steps(next, (budget - 1) as nat);
                }
            },
        }
    }
}

/// Lets images follow shared events, at most `limit` of them. Where this fails,
/// what it has changed is to be thrown away.
pub fn step_refresh(db: &mut Tables, limit: usize) -> (r: Result<ImageRefreshProgress, CatalogError>)
    ensures
        if limit == 0 || limit > REFRESH_LIMIT {
            r == Err::<ImageRefreshProgress, CatalogError>(CatalogError::BatchLimit)
        } else {
            match old(db)@.refreshed(limit as nat) {
                Ok((m, n)) => r matches Ok(p) && p.processed == n && p.pending == (
                m.shared_events.len() > 0) && final(db)@ == m,
                Err(e) => r == Err::<ImageRefreshProgress, CatalogError>(e),
            }
        },
        r matches Ok(p) ==> 0 < limit <= REFRESH_LIMIT && p.processed <= limit && (p.processed
            < limit ==> !p.pending),
        old(db)@.epochs_wf() ==> match r {
            Ok(p) => final(db)@.epochs_wf() && (!p.pending ==> epochs::settled(final(db)@)),
            Err(e) => e != CatalogError::EpochGap,
        },
{
    proof {
        lemma_refreshed_steps(old(db)@, limit as nat);
        if old(db)@.epochs_wf() {
            epochs::law_refreshing_misses_no_change(old(db)@, limit as nat);
        }
    }
    if limit == 0 || limit > REFRESH_LIMIT {
        return Err(CatalogError::BatchLimit);
    }
    let mut processed: usize = 0;
    let ghost whole = old(db)@.refreshed(limit as nat);
    while processed < limit && db.shared_events.len() > 0
        invariant
            processed <= limit,
            0 < limit <= REFRESH_LIMIT,
            whole == old(db)@.refreshed(limit as nat),
            whole == counted(db@.refreshed((limit - processed) as nat), processed as nat),
            old(db)@.epochs_wf() ==> whole != Err::<(TablesModel, nat), CatalogError>(
                CatalogError::EpochGap,
            ),
        decreases limit - processed, db.shared_events@.len(),
    {
        let ghost before = db@;
        assert(before.shared_events.len() == db.shared_events@.len());
        let asset: String = db.shared_events[0].asset_id.clone();
        let after: i64 = db.shared_events[0].cursor;
        let high: i64 = db.shared_events[0].high_water;
        assert(before.shared_events[0] == db.shared_events@[0]@);
        let test = |i: &ImageRow| -> (b: bool)
            ensures b == image_within(asset@, after, high)(i@)
        {
            after < i.sequence && i.sequence <= high && same(i.asset_id.as_str(), asset.as_str())
        };
        match find(&db.images, test, Ghost(image_within(asset@, after, high))) {
            None => {
                db.shared_events.remove(0);
                assert(db@ =~= TablesModel {
                    shared_events: before.shared_events.skip(1),
                    ..before
                });
            },
            Some(i) => {
                match refresh_image(db, i) {
                    Err(x) => return Err(x),
                    Ok(()) => {},
                }
                processed += 1;
            },
        }
    }
    assert(db@.shared_events.len() == db.shared_events@.len());
    Ok(ImageRefreshProgress { processed, pending: db.shared_events.len() > 0 })
}

impl TablesModel {
    /// The tables once a physical file's shared sources are marked as changed.
    pub open spec fn shared_changed(self, a: int) -> TablesModel {
        TablesModel {
            assets: self.assets.update(
                a,
                tables::AssetModel {
                    shared_epoch: (self.assets[a].shared_epoch + 1) as i64,
                    physical_generation: (self.assets[a].physical_generation + 1) as i64,
                    ..self.assets[a]
                },
            ),
            ..self
        }
    }

    /// The tables with an event for all images of a physical file that one of its
    /// sources has changed.
    pub open spec fn enqueued(self, asset: Seq<char>, source: i64, observation: Option<i64>) -> Result<
        TablesModel,
        CatalogError,
    > {
        match (self.source_at(source), self.asset_at(asset)) {
            (None, _) => Err(CatalogError::SourceNotFound),
            (_, None) => Err(CatalogError::AssetNotFound),
            (Some(s), Some(a)) => if self.assets[a].shared_epoch == i64::MAX
                || self.assets[a].physical_generation == i64::MAX || self.event_high == i64::MAX {
                Err(CatalogError::Exhausted)
            } else {
                let m = self.shared_changed(a);
                Ok(
                    TablesModel {
                        shared_events: m.shared_events.push(
                            tables::SharedEventModel {
                                id: (self.event_high + 1) as i64,
                                asset_id: asset,
                                epoch: m.assets[a].shared_epoch,
                                source_id: source,
                                observation_id: observation,
                                current_observation: self.sources[s].current_observation,
                                association: self.sources[s].association,
                                availability: self.sources[s].availability,
                                high_water: high_water(self.images, asset),
                                cursor: 0,
                            },
                        ),
                        event_high: (self.event_high + 1) as i64,
                        ..m
                    },
                )
            },
        }
    }
}

fn enqueue(db: &mut Tables, asset: &str, source: i64, observation: Option<i64>) -> (r: Result<
    (),
    CatalogError,
>)
    ensures
        match old(db)@.enqueued(asset@, source, observation) {
            Ok(m) => r is Ok && final(db)@ == m,
            Err(e) => r == Err::<(), CatalogError>(e) && *final(db) == *old(db),
        },
{
    let s: usize = match db.find_source_at(source) {
        None => return Err(CatalogError::SourceNotFound),
        Some(s) => s,
    };
    let a: usize = match db.find_asset_at(asset) {
        None => return Err(CatalogError::AssetNotFound),
        Some(a) => a,
    };
    if db.assets[a].shared_epoch == i64::MAX || db.assets[a].physical_generation == i64::MAX
        || db.event_high == i64::MAX {
        return Err(CatalogError::Exhausted);
    }
    db.assets[a].shared_epoch = db.assets[a].shared_epoch + 1;
    db.assets[a].physical_generation = db.assets[a].physical_generation + 1;
    let high: i64 = find_high_water(db, asset);
    db.event_high = db.event_high + 1;
    db.shared_events.push(
        SharedEvent {
            id: db.event_high,
            asset_id: asset.to_owned(),
            epoch: db.assets[a].shared_epoch,
            source_id: source,
            observation_id: observation,
            current_observation: db.sources[s].current_observation,
            association: db.sources[s].association.clone(),
            availability: db.sources[s].availability.clone(),
            high_water: high,
            cursor: 0,
        },
    );
    assert(db@ =~= old(db)@.enqueued(asset@, source, observation)->Ok_0);
    Ok(())
}

/// What announcing an observation to all images of a file gives.
pub open spec fn enqueue_shared_outcome(m: TablesModel, image: Seq<char>, observation: i64) -> Result<
    TablesModel,
    CatalogError,
> {
    match m.image_at(image) {
        None => Err(CatalogError::ImageNotFound),
        Some(i) => match m.observation_at(observation) {
            None => Err(CatalogError::ObservationNotFound),
            Some(o) => m.enqueued(
                m.images[i].asset_id,
                m.observations[o].source_id,
                Some(observation),
            ),
        },
    }
}

/// Announces an observation, made through one image, to all images of its
/// physical file.
pub fn enqueue_shared(db: &mut Tables, image: &str, observation: i64) -> (r: Result<(), CatalogError>)
    ensures
        match enqueue_shared_outcome(old(db)@, image@, observation) {
            Ok(m) => r is Ok && final(db)@ == m,
            Err(e) => r == Err::<(), CatalogError>(e) && *final(db) == *old(db),
        },
{
    let asset: String = match physical(db, image) {
        Err(e) => return Err(e),
        Ok(asset) => asset,
    };
    let o: usize = match db.find_observation_at(observation) {
        None => return Err(CatalogError::ObservationNotFound),
        Some(o) => o,
    };
    let source: i64 = db.observations[o].source_id;
    enqueue(db, asset.as_str(), source, Some(observation))
}

/// What announcing a source's state to all images of a file gives.
pub open spec fn enqueue_source_outcome(m: TablesModel, source: i64) -> Result<
    TablesModel,
    CatalogError,
> {
    match m.source_at(source) {
        None => Err(CatalogError::SourceNotFound),
        Some(s) => m.enqueued(m.sources[s].asset_id, source, m.sources[s].current_observation),
    }
}

/// Announces that a source's state has changed to all images of its physical
/// file.
pub fn enqueue_source_state(db: &mut Tables, source: i64) -> (r: Result<(), CatalogError>)
    ensures
        match enqueue_source_outcome(old(db)@, source) {
            Ok(m) => r is Ok && final(db)@ == m,
            Err(e) => r == Err::<(), CatalogError>(e) && *final(db) == *old(db),
        },
{
    let s: usize = match db.find_source_at(source) {
        None => return Err(CatalogError::SourceNotFound),
        Some(s) => s,
    };
    let asset: String = db.sources[s].asset_id.clone();
    let observation: Option<i64> = db.sources[s].current_observation;
    enqueue(db, asset.as_str(), source, observation)
}

/// The position of the storage event whose physical file comes first, among the
/// first `n` events.
pub open spec fn least_event(events: Seq<tables::StorageEventModel>, n: nat) -> int
    decreases n,
{
    if n <= 1 {
        0
    } else {
        let b = least_event(events, (n - 1) as nat);
        if ordering::text_before(events[n - 1].asset_id, events[b].asset_id) {
            n - 1
        } else {
            b
        }
    }
}

fn find_least_event(events: &Vec<StorageEvent>) -> (b: usize)
    requires
        events@.len() > 0,
    ensures
        b == least_event(support::models(events@), events@.len()),
        b < events@.len(),
{
    let ghost all = support::models(events@);
    let mut b: usize = 0;
    let mut i: usize = 1;
    while i < events.len()
        invariant
            1 <= i <= events@.len(),
            b < i,
            all == support::models(events@),
            b == least_event(all, i as nat),
        decreases events@.len() - i,
    {
        assert(all[i as int] == events@[i as int]@);
        assert(all[b as int] == events@[b as int]@);
        if is_text_before(events[i].asset_id.as_str(), events[b].asset_id.as_str()) {
            b = i;
        }
        i += 1;
    }
    b
}

impl TablesModel {
    /// The tables after storage events were worked off, at most `budget` images,
    /// and the images that were visited, in order.
    pub open spec fn drained(self, budget: nat) -> (TablesModel, Seq<Seq<char>>)
        decreases budget, self.storage_events.len(),
    {
        if budget == 0 || self.storage_events.len() == 0 {
            (self, Seq::empty())
        } else {
            let b = least_event(self.storage_events, self.storage_events.len());
            let e = self.storage_events[b];
            if !(0 <= b < self.storage_events.len()) {
                (self, Seq::empty())
            } else {
                match self.next_image(e.asset_id, e.cursor, e.high_water) {
                    None => TablesModel {
                        storage_events: self.storage_events.remove(b),
                        ..self
                    }.drained(budget),
                    Some(i) => {
                        let (m, rest) = TablesModel {
                            storage_events: self.storage_events.update(
                                b,
                                tables::StorageEventModel { cursor: self.images[i].sequence, ..e },
                            ),
                            ..self
                        }.drained((budget - 1) as nat);
                        (m, seq![self.images[i].id] + rest)
                    },
                }
            }
        }
    }
}

/// Works off storage events, at most `limit` images, and gives the images whose
/// derived records have to follow.
pub fn step_storage(db: &mut Tables, limit: usize) -> (visited: Vec<String>)
    ensures
        (final(db)@, support::models(visited@)) == old(db)@.drained(limit as nat),
        visited@.len() <= limit,
{
    let mut visited: Vec<String> = Vec::new();
    let ghost whole = old(db)@.drained(limit as nat);
    assert(support::models(visited@) + db@.drained(limit as nat).1 =~= whole.1);
    while visited.len() < limit && db.storage_events.len() > 0
        invariant
            visited@.len() <= limit,
            whole == old(db)@.drained(limit as nat),
            whole.0 == db@.drained((limit - visited@.len()) as nat).0,
            whole.1 == support::models(visited@) + db@.drained((limit - visited@.len()) as nat).1,
        decreases limit - visited@.len(), db.storage_events@.len(),
    {
        let ghost before = db@;
        let ghost so_far = support::models(visited@);
        let ghost budget = (limit - visited@.len()) as nat;
        assert(before.storage_events.len() == db.storage_events@.len());
        let b: usize = find_least_event(&db.storage_events);
        let asset: String = db.storage_events[b].asset_id.clone();
        let after: i64 = db.storage_events[b].cursor;
        let high: i64 = db.storage_events[b].high_water;
        assert(before.storage_events[b as int] == db.storage_events@[b as int]@);
        let test = |i: &ImageRow| -> (r: bool)
            ensures r == image_within(asset@, after, high)(i@)
        {
            after < i.sequence && i.sequence <= high && same(i.asset_id.as_str(), asset.as_str())
        };
        match find(&db.images, test, Ghost(image_within(asset@, after, high))) {
            None => {
                db.storage_events.remove(b);
                assert(db@ =~= TablesModel {
                    storage_events: before.storage_events.remove(b as int),
                    ..before
                });
            },
            Some(i) => {
                assert(before.images[i as int] == db.images@[i as int]@);
                let image: String = db.images[i].id.clone();
                db.storage_events[b].cursor = db.images[i].sequence;
                assert(db@ =~= TablesModel {
                    storage_events: before.storage_events.update(
                        b as int,
                        tables::StorageEventModel {
                            cursor: before.images[i as int].sequence,
                            ..before.storage_events[b as int]
                        },
                    ),
                    ..before
                });
                visited.push(image);
                proof {
                    let rest = db@.drained((budget - 1) as nat).1;
                    assert(support::models(visited@) =~= so_far.push(image@));
                    assert(so_far + (seq![image@] + rest) =~= so_far.push(image@) + rest);
                }
            },
        }
    }
    proof {
        assert(support::models(visited@) + Seq::<Seq<char>>::empty() =~= support::models(visited@));
    }
    visited
}

} // verus!

//! What an importer's look at a photo's files does to their sources.
use crate::catalog::Catalog;
use crate::catalog_images::refresh;
use crate::catalog_images::refresh::{enqueue_source_state, follow, link, step_refresh};
use crate::catalog_metadata;
use crate::catalog_metadata::advance;
use crate::catalog_metadata::prepared;
use crate::catalog_metadata::prepared::{Inspection, Prepared, Source};
use crate::catalog_metadata::store;
use crate::catalog_metadata::store::{retain_prepared, FOLLOW_BATCH};
use crate::copies::Copied;
use crate::error::CatalogError;
use crate::support;
use crate::support::{copy_bytes, same, same_bytes};
use crate::tables;
use crate::tables::{Detail, SourceRow, Tables, TablesModel};
use vstd::prelude::*;
use vstd::string::*;

verus! {

/// What a source is marked with that a scan did not find again.
pub open spec fn missing_note() -> Seq<char> {
    "not found in current directory scan; retained metadata remains available"@
}

/// The tables with a source marked as unavailable, and its number.
pub open spec fn source_marked(
    m: TablesModel,
    asset: Seq<char>,
    source: store::SourceRequest,
    reason: Seq<char>,
) -> Result<(TablesModel, i64), CatalogError> {
    match m.source_named(asset, source.kind, source.locator) {
        Some(s) => Ok(
            (
                TablesModel {
                    sources: m.sources.update(
                        s,
                        tables::SourceModel { availability: reason, ..m.sources[s] },
                    ),
                    ..m
                },
                m.sources[s].id,
            ),
        ),
        None => if m.source_high == i64::MAX {
            Err(CatalogError::Exhausted)
        } else {
            let id = (m.source_high + 1) as i64;
            Ok(
                (
                    TablesModel {
                        sources: m.sources.push(
                            tables::SourceModel {
                                id,
                                asset_id: asset,
                                kind: source.kind,
                                locator: source.locator,
                                display: source.display,
                                association: source.association(),
                                availability: reason,
                                current_observation: None,
                            },
                        ),
                        source_high: id,
                        ..m
                    },
                    id,
                ),
            )
        },
    }
}

fn mark_source(db: &mut Tables, asset: &str, source: &Source, reason: &str) -> (r: Result<
    i64,
    CatalogError,
>)
    ensures
        match source_marked(old(db)@, asset@, source@, reason@) {
            Ok((m, sid)) => r == Ok::<i64, CatalogError>(sid) && final(db)@ == m,
            Err(e) => r == Err::<i64, CatalogError>(e),
        },
{
    match db.find_source_named(asset, source.kind.as_str(), source.locator.as_slice()) {
        Some(s) => {
            assert(db@.sources[s as int] == db.sources@[s as int]@);
            db.sources[s].availability = reason.to_owned();
            assert(db@ =~= source_marked(old(db)@, asset@, source@, reason@)->Ok_0.0);
            Ok(db.sources[s].id)
        },
        None => {
            if db.source_high == i64::MAX {
                return Err(CatalogError::Exhausted);
            }
            db.source_high = db.source_high + 1;
            let association: &str = if source.ambiguous {
                "ambiguous"
            } else {
                "confirmed"
            };
            db.sources.push(
                SourceRow {
                    id: db.source_high,
                    asset_id: asset.to_owned(),
                    kind: source.kind.clone(),
                    locator: copy_bytes(source.locator.as_slice()),
                    display: source.display.clone(),
                    association: association.to_owned(),
                    availability: reason.to_owned(),
                    current_observation: None,
                },
            );
            assert(db@ =~= source_marked(old(db)@, asset@, source@, reason@)->Ok_0.0);
            Ok(db.source_high)
        },
    }
}

/// What marking a physical file's source as unavailable gives: whether anything
/// changed. The master image sees the change at once, the other images follow it.
pub open spec fn unavailable_outcome(
    m: TablesModel,
    asset: Seq<char>,
    source: store::SourceRequest,
    reason: Seq<char>,
) -> Result<(TablesModel, bool), CatalogError> {
    match m.source_named(asset, source.kind, source.locator) {
        Some(s) if m.sources[s].availability == reason => Ok((m, false)),
        _ => match source_marked(m, asset, source, reason) {
            Err(e) => Err(e),
            Ok((m1, sid)) => match m1.source_at(sid) {
                None => Err(CatalogError::SourceNotFound),
                Some(s) => {
                    let row = m1.sources[s];
                    match m1.linked_option(asset, row.current_observation) {
                        Err(e) => Err(e),
                        Ok(m2) => match m2.following(
                            asset,
                            sid,
                            row.current_observation,
                            row.association,
                            row.availability,
                        ) {
                            Err(e) => Err(e),
                            Ok(m3) => match catalog_metadata::advance_outcome(
                                m3,
                                asset,
                                "source_unavailable"@,
                                tables::DetailModel::Unavailable {
                                    kind: source.kind,
                                    display: source.display,
                                    reason,
                                },
                                true,
                            ) {
                                Err(e) => Err(e),
                                Ok((m4, _)) => match store::shared_step(
                                    refresh::enqueue_source_outcome(m4, sid),
                                ) {
                                    Err(e) => Err(e),
                                    Ok(m5) => Ok((m5, true)),
                                },
                            },
                        },
                    }
                },
            },
        },
    }
}

/// Marks a physical file's source as unavailable. Where this fails, what it has
/// changed is to be thrown away.
pub fn set_import_source_unavailable(db: &mut Tables, asset: &str, source: &Source, reason: &str) -> (r:
    Result<bool, CatalogError>)
    ensures
        match unavailable_outcome(old(db)@, asset@, source@, reason@) {
            Ok((m, changed)) => r == Ok::<bool, CatalogError>(changed) && final(db)@ == m,
            Err(e) => r == Err::<bool, CatalogError>(e),
        },
{
    if let Some(s) = db.find_source_named(
        asset,
        source.kind.as_str(),
        source.locator.as_slice(),
    ) {
        assert(db@.sources[s as int] == db.sources@[s as int]@);
        if same(db.sources[s].availability.as_str(), reason) {
            return Ok(false);
        }
    }
    let sid: i64 = match mark_source(db, asset, source, reason) {
        Err(e) => return Err(e),
        Ok(sid) => sid,
    };
    let s: usize = match db.find_source_at(sid) {
        None => return Err(CatalogError::SourceNotFound),
        Some(s) => s,
    };
    assert(db@.sources[s as int] == db.sources@[s as int]@);
    let current: Option<i64> = db.sources[s].current_observation;
    let association: String = db.sources[s].association.clone();
    let availability: String = db.sources[s].availability.clone();
    if let Some(o) = current {
        match link(db, asset, o) {
            Err(e) => return Err(e),
            Ok(()) => {},
        }
    }
    match follow(db, asset, sid, current, association.as_str(), availability.as_str()) {
        Err(e) => return Err(e),
        Ok(()) => {},
    }
    match advance(
        db,
        asset,
        "source_unavailable",
        Detail::Unavailable {
            kind: source.kind.clone(),
            display: source.display.clone(),
            reason: reason.to_owned(),
        },
        true,
    ) {
        Err(e) => return Err(e),
        Ok(_) => {},
    }
    match enqueue_source_state(db, sid) {
        Err(e) => return Err(e),
        Ok(()) => {},
    }
    match step_refresh(db, FOLLOW_BATCH) {
        Err(e) => Err(e),
        Ok(_) => Ok(true),
    }
}

/// What an importer found of a source: an observation, or why there is none.
pub enum Found {
    Prepared(Prepared),
    Unavailable(String),
}

/// A source that an importer has looked at.
pub struct PreparedImportSource {
    pub source: Source,
    pub found: Found,
    pub warning: bool,
}

/// What reading a source's file gave.
pub enum Inspected<'a> {
    Found(&'a Inspection),
    Failed(&'a str),
}

/// An interpretation could not be had whole.
pub open spec fn impaired(m: prepared::PreparedModelModel) -> bool {
    m.error is Some || m.flawed
}

/// An observation calls for attention.
pub open spec fn alarming(p: prepared::PreparedObservation) -> bool {
    (p.status != "Complete"@ && p.status != "Absent"@) || exists|i: int|
        0 <= i < p.models.len() && impaired(#[trigger] p.models[i])
}

fn is_alarming(p: &Prepared) -> (r: bool)
    ensures
        r == alarming(p@),
{
    if !same(p.status.as_str(), "Complete") && !same(p.status.as_str(), "Absent") {
        return true;
    }
    let mut i: usize = 0;
    while i < p.models.len()
        invariant
            i <= p.models@.len(),
            p@.models.len() == p.models@.len(),
            forall|j: int| 0 <= j < i ==> !impaired(#[trigger] p@.models[j]),
        decreases p.models@.len() - i,
    {
        assert(p@.models[i as int] == p.models@[i as int]@);
        if p.models[i].error.is_some() || p.models[i].flawed {
            assert(impaired(p@.models[i as int]));
            return true;
        }
        i += 1;
    }
    false
}

/// Prepares what reading a source's file gave. A file that could not be read leaves
/// its source unavailable.
pub fn prepare_import_source(source: Source, inspected: Inspected<'_>) -> (r: Result<
    PreparedImportSource,
    CatalogError,
>)
    ensures
        match inspected {
            Inspected::Failed(reason) => r matches Ok(made) && made.source == source && made.warning
                && (made.found matches Found::Unavailable(said) && said@ == "inspection failed: "@
                + reason@),
            Inspected::Found(inspection) => match prepared::prepare_outcome(*inspection, source@) {
                Err(e) => r == Err::<PreparedImportSource, CatalogError>(e),
                Ok(p) => r matches Ok(made) && made.source == source && made.warning == alarming(p)
                    && (made.found matches Found::Prepared(found) && found@ == p),
            },
        },
{
    match inspected {
        Inspected::Failed(reason) => {
            let mut said: String = "inspection failed: ".to_owned();
            said.append(reason);
            Ok(PreparedImportSource { source, found: Found::Unavailable(said), warning: true })
        },
        Inspected::Found(inspection) => match Prepared::new(inspection, &source) {
            Err(e) => Err(e),
            Ok(p) => {
                let warning: bool = is_alarming(&p);
                Ok(PreparedImportSource { source, found: Found::Prepared(p), warning })
            },
        },
    }
}

/// What applying an importer's look at a source gives: whether anything changed,
/// and whether it calls for attention.
pub open spec fn apply_outcome(m: TablesModel, asset: Seq<char>, input: PreparedImportSource) -> Result<
    (TablesModel, bool, bool),
    CatalogError,
> {
    let warning = input.warning || input.source.ambiguous;
    match input.found {
        Found::Prepared(prepared) => match store::retain_outcome(
            m,
            asset,
            input.source@,
            prepared@,
            true,
        ) {
            Err(e) => Err(e),
            Ok((after, change)) => Ok((after, change.changed, warning)),
        },
        Found::Unavailable(reason) => match unavailable_outcome(
            m,
            asset,
            input.source@,
            reason@,
        ) {
            Err(e) => Err(e),
            Ok((after, changed)) => Ok((after, changed, warning)),
        },
    }
}

/// Applies an importer's look at a source. Where this fails, what it has changed
/// is to be thrown away.
pub fn apply_import_source(db: &mut Tables, asset: &str, input: &PreparedImportSource) -> (r: Result<
    (bool, bool),
    CatalogError,
>)
    ensures
        match apply_outcome(old(db)@, asset@, *input) {
            Ok((m, changed, warning)) => r == Ok::<(bool, bool), CatalogError>((changed, warning))
                && final(db)@ == m,
            Err(e) => r == Err::<(bool, bool), CatalogError>(e),
        },
{
    let warning: bool = input.warning || input.source.ambiguous;
    match &input.found {
        Found::Prepared(prepared) => match retain_prepared(
            db,
            asset,
            &input.source,
            prepared,
            true,
        ) {
            Err(e) => Err(e),
            Ok(change) => Ok((change.changed, warning)),
        },
        Found::Unavailable(reason) => match set_import_source_unavailable(
            db,
            asset,
            &input.source,
            reason.as_str(),
        ) {
            Err(e) => Err(e),
            Ok(changed) => Ok((changed, warning)),
        },
    }
}

/// A sidecar of a physical file.
pub open spec fn sidecar_of(asset: Seq<char>) -> spec_fn(tables::SourceModel) -> bool {
    |s: tables::SourceModel| s.asset_id == asset && s.kind == "sidecar"@
}

/// The request that stands for a stored sidecar.
pub open spec fn sidecar_request(s: tables::SourceModel) -> store::SourceRequest {
    store::SourceRequest {
        kind: "sidecar"@,
        locator: s.locator,
        display: s.display,
        ambiguous: s.association == "ambiguous"@,
        provenance: "null"@,
    }
}

/// What marking those of the first `n` sidecars that were not seen gives.
pub open spec fn finished(
    m: TablesModel,
    asset: Seq<char>,
    sidecars: Seq<tables::SourceModel>,
    seen: Set<Seq<u8>>,
    n: nat,
) -> Result<(TablesModel, bool), CatalogError>
    decreases n,
{
    if n == 0 {
        Ok((m, false))
    } else {
        match finished(m, asset, sidecars, seen, (n - 1) as nat) {
            Err(e) => Err(e),
            Ok((before, changed)) => if seen.contains(sidecars[n - 1].locator) {
                Ok((before, changed))
            } else {
                match unavailable_outcome(
                    before,
                    asset,
                    sidecar_request(sidecars[n - 1]),
                    missing_note(),
                ) {
                    Err(e) => Err(e),
                    Ok((after, more)) => Ok((after, changed || more)),
                }
            },
        }
    }
}

proof fn lemma_finished_error(
    m: TablesModel,
    asset: Seq<char>,
    sidecars: Seq<tables::SourceModel>,
    seen: Set<Seq<u8>>,
    n: nat,
)
    requires
        n <= sidecars.len(),
        finished(m, asset, sidecars, seen, n) is Err,
    ensures
        finished(m, asset, sidecars, seen, sidecars.len()) == finished(m, asset, sidecars, seen, n),
    decreases sidecars.len() - n,
{
    if n < sidecars.len() {
        lemma_finished_error(m, asset, sidecars, seen, n + 1);
    }
}

/// The locators in a list.
pub open spec fn locators(seen: Seq<Vec<u8>>) -> Set<Seq<u8>> {
    Set::new(|l: Seq<u8>| exists|i: int| 0 <= i < seen.len() && (#[trigger] seen[i])@ == l)
}

fn is_seen(seen: &Vec<Vec<u8>>, locator: &[u8]) -> (r: bool)
    ensures
        r == locators(seen@).contains(locator@),
{
    let mut i: usize = 0;
    while i < seen.len()
        invariant
            i <= seen@.len(),
            forall|j: int| 0 <= j < i ==> (#[trigger] seen@[j])@ != locator@,
        decreases seen@.len() - i,
    {
        if same_bytes(seen[i].as_slice(), locator) {
            assert(seen@[i as int]@ == locator@);
            return true;
        }
        i += 1;
    }
    false
}

pub(crate) fn list_sidecars(db: &Tables, asset: &str) -> (rows: Vec<SourceRow>)
    ensures
        support::models(rows@) == db@.sources.filter(sidecar_of(asset@)),
{
    let ghost p = sidecar_of(asset@);
    let mut rows: Vec<SourceRow> = Vec::new();
    let mut i: usize = 0;
    proof {
        assert(support::models(rows@) =~= db@.sources.take(0).filter(p)) by {
            reveal(Seq::filter);
        }
    }
    while i < db.sources.len()
        invariant
            i <= db.sources@.len(),
            p == sidecar_of(asset@),
            support::models(rows@) == db@.sources.take(i as int).filter(p),
        decreases db.sources@.len() - i,
    {
        let ghost row = db@.sources[i as int];
        assert(row == db.sources@[i as int]@);
        let ghost before = support::models(rows@);
        proof {
            assert(db@.sources.take(i + 1) =~= db@.sources.take(i as int).push(row));
            support::lemma_filter_push(db@.sources.take(i as int), row, p);
        }
        if same(db.sources[i].asset_id.as_str(), asset) && same(
            db.sources[i].kind.as_str(),
            "sidecar",
        ) {
            rows.push(db.sources[i].copied());
            assert(support::models(rows@) =~= before.push(row));
        }
        i += 1;
    }
    assert(db@.sources.take(i as int) =~= db@.sources);
    rows
}

/// Marks the sidecars of a physical file that were not seen as unavailable, and
/// says whether anything changed. Where this fails, what it has changed is to be
/// thrown away.
pub fn finish_import_sources(db: &mut Tables, asset: &str, seen: &Vec<Vec<u8>>) -> (r: Result<
    bool,
    CatalogError,
>)
    ensures
        ({
            let sidecars = old(db)@.sources.filter(sidecar_of(asset@));
            match finished(old(db)@, asset@, sidecars, locators(seen@), sidecars.len()) {
                Ok((m, changed)) => r == Ok::<bool, CatalogError>(changed) && final(db)@ == m,
                Err(e) => r == Err::<bool, CatalogError>(e),
            }
        }),
{
    let ghost m = db@;
    let rows: Vec<SourceRow> = list_sidecars(db, asset);
    let ghost sidecars = support::models(rows@);
    let mut changed: bool = false;
    let mut n: usize = 0;
    while n < rows.len()
        invariant
            n <= rows@.len(),
            sidecars == support::models(rows@),
            m == old(db)@,
            sidecars == old(db)@.sources.filter(sidecar_of(asset@)),
            finished(m, asset@, sidecars, locators(seen@), n as nat) == Ok::<
                (TablesModel, bool),
                CatalogError,
            >((db@, changed)),
        decreases rows@.len() - n,
    {
        let row = &rows[n];
        assert(sidecars[n as int] == row@);
        if !is_seen(seen, row.locator.as_slice()) {
            let source: Source = Source {
                kind: "sidecar".to_owned(),
                locator: copy_bytes(row.locator.as_slice()),
                display: row.display.clone(),
                ambiguous: same(row.association.as_str(), "ambiguous"),
                provenance: "null".to_owned(),
            };
            assert(source@ =~= sidecar_request(row@));
            match set_import_source_unavailable(
                db,
                asset,
                &source,
                "not found in current directory scan; retained metadata remains available",
            ) {
                Err(e) => {
                    proof {
                        lemma_finished_error(
                            m,
                            asset@,
                            sidecars,
                            locators(seen@),
                            (n + 1) as nat,
                        );
                    }
                    return Err(e);
                },
                Ok(more) => changed = changed || more,
            }
        }
        n += 1;
    }
    Ok(changed)
}

/// An original's embedded metadata was read before and is available.
pub open spec fn embedded_known(m: TablesModel, asset: Seq<char>, locator: Seq<u8>) -> bool {
    m.source_named(asset, "embedded"@, locator) matches Some(s)
        && m.sources[s].current_observation is Some && m.sources[s].availability == "available"@
}

impl Catalog {
    /// Marks a physical file's source as unavailable, wholly or not at all.
    pub fn unavailable_metadata_source(&mut self, asset: &str, source: &Source, reason: &str) -> (r:
        Result<bool, CatalogError>)
        ensures
            final(self).tables_only(*old(self)),
            match unavailable_outcome(old(self).tables@, asset@, source@, reason@) {
                Ok((m, changed)) => r == Ok::<bool, CatalogError>(changed) && final(self).tables@
                    == m,
                Err(e) => r == Err::<bool, CatalogError>(e) && *final(self) == *old(self),
            },
    {
        let mut tables: Tables = self.tables.copied();
        match set_import_source_unavailable(&mut tables, asset, source, reason) {
            Err(e) => Err(e),
            Ok(changed) => {
                self.tables = tables;
                Ok(changed)
            },
        }
    }

    /// Whether an original's embedded metadata has to be read: its bytes changed, or
    /// they were not read before or not found then.
    pub fn needs_embedded_inspection(&self, asset: &str, locator: &[u8], changed: bool) -> (r: bool)
        ensures
            r == (changed || !embedded_known(self.tables@, asset@, locator@)),
    {
        let db = &self.tables;
        changed || match db.find_source_named(asset, "embedded", locator) {
            None => true,
            Some(s) => {
                assert(db@.sources[s as int] == db.sources@[s as int]@);
                db.sources[s].current_observation.is_none() || !same(
                    db.sources[s].availability.as_str(),
                    "available",
                )
            },
        }
    }
}

} // verus!

//! A look at one original and at the sidecars beside it.
use crate::catalog::Catalog;
use crate::catalog_images;
use crate::catalog_metadata::discovery::SIDECAR_LIMIT;
use crate::catalog_metadata::prepared;
use crate::catalog_metadata::prepared::{Inspection, ParseInput, Reading, Source};
use crate::catalog_metadata::sources;
use crate::catalog_metadata::sources::{list_sidecars, Inspected};
use crate::catalog_metadata::store;
use crate::error::CatalogError;
use crate::support;
use crate::support::{copy_bytes, find, same, same_bytes};
use crate::tables;
use crate::tables::{Asset, SourceRow, Tables, TablesModel};
use vstd::prelude::*;
use vstd::string::*;

verus! {

/// A source, and what reading its file gave.
pub struct Look<'a> {
    pub source: Source,
    pub inspected: Inspected<'a>,
}

/// An input could not be interpreted whole.
pub open spec fn misread(input: ParseInput) -> bool {
    match input.reading {
        Reading::Projected(p) => p.flawed,
        _ => true,
    }
}

/// What was found in a file calls for attention.
pub open spec fn worrying(i: Inspection) -> bool {
    (i.status@ != "Complete"@ && i.status@ != "Absent"@) || exists|k: int|
        0 <= k < i.parse_inputs@.len() && misread(#[trigger] i.parse_inputs@[k])
}

fn is_worrying(i: &Inspection) -> (r: bool)
    ensures
        r == worrying(*i),
{
    if !same(i.status.as_str(), "Complete") && !same(i.status.as_str(), "Absent") {
        return true;
    }
    let mut k: usize = 0;
    while k < i.parse_inputs.len()
        invariant
            k <= i.parse_inputs@.len(),
            forall|j: int| 0 <= j < k ==> !misread(#[trigger] i.parse_inputs@[j]),
        decreases i.parse_inputs@.len() - k,
    {
        let bad: bool = match &i.parse_inputs[k].reading {
            Reading::Projected(p) => p.flawed,
            _ => true,
        };
        if bad {
            assert(misread(i.parse_inputs@[k as int]));
            return true;
        }
        k += 1;
    }
    false
}

/// What a look at one source gives: the tables, whether anything changed, and whether
/// it calls for attention.
#[verifier::opaque]
pub open spec fn looked(
    m: TablesModel,
    asset: Seq<char>,
    source: store::SourceRequest,
    inspected: Inspected<'_>,
) -> Result<(TablesModel, bool, bool), CatalogError> {
    match inspected {
        Inspected::Found(inspection) => match prepared::prepare_outcome(*inspection, source) {
            Err(e) => Err(e),
            Ok(p) => match store::retain_outcome(
                m,
                asset,
                source,
                p,
                catalog_images::register::shared_kind(source.kind),
            ) {
                Err(e) => Err(e),
                Ok((after, change)) => Ok((after, change.changed, worrying(*inspection))),
            },
        },
        Inspected::Failed(reason) => match sources::unavailable_outcome(
            m,
            asset,
            source,
            "inspection failed: "@ + reason@,
        ) {
            Err(e) => Err(e),
            Ok((after, changed)) => Ok((after, changed, true)),
        },
    }
}

/// A tally of what was looked at: whether anything changed, and how many sources call
/// for attention.
pub type Tally = Result<(bool, nat), CatalogError>;

/// What looking at the first `n` of some sidecars gives. Each look stands by itself:
/// a refusal leaves what the looks before it did.
pub open spec fn all_looked(m: TablesModel, asset: Seq<char>, looks: Seq<Look<'_>>, n: nat) -> (
    TablesModel,
    Tally,
)
    decreases n,
{
    if n == 0 {
        (m, Ok((false, 0)))
    } else {
        match all_looked(m, asset, looks, (n - 1) as nat) {
            (before, Err(e)) => (before, Err(e)),
            (before, Ok((changed, warnings))) => {
                let look = looks[n - 1];
                match looked(before, asset, look.source@, look.inspected) {
                    Err(e) => (before, Err(e)),
                    Ok((after, more, warning)) => (
                        after,
                        Ok(
                            (
                                changed || more,
                                warnings + (if warning || look.source.ambiguous {
                                    1nat
                                } else {
                                    0
                                }),
                            ),
                        ),
                    ),
                }
            },
        }
    }
}

proof fn lemma_all_looked_error(m: TablesModel, asset: Seq<char>, looks: Seq<Look<'_>>, n: nat)
    requires
        n <= looks.len(),
        all_looked(m, asset, looks, n).1 is Err,
    ensures
        all_looked(m, asset, looks, looks.len()) == all_looked(m, asset, looks, n),
    decreases looks.len() - n,
{
    if n < looks.len() {
        lemma_all_looked_error(m, asset, looks, n + 1);
    }
}

/// A sidecar was looked at.
pub open spec fn among(looks: Seq<Look<'_>>, locator: Seq<u8>) -> bool {
    exists|i: int| 0 <= i < looks.len() && (#[trigger] looks[i]).source.locator@ == locator
}

fn is_among(looks: &Vec<Look<'_>>, locator: &[u8]) -> (r: bool)
    ensures
        r == among(looks@, locator@),
{
    let mut i: usize = 0;
    while i < looks.len()
        invariant
            i <= looks@.len(),
            forall|j: int| 0 <= j < i ==> (#[trigger] looks@[j]).source.locator@ != locator@,
        decreases looks@.len() - i,
    {
        if same_bytes(looks[i].source.locator.as_slice(), locator) {
            assert(looks@[i as int].source.locator@ == locator@);
            return true;
        }
        i += 1;
    }
    false
}

/// What marking those of the first `n` stored sidecars gives that were not looked at.
/// Each mark stands by itself.
pub open spec fn absent_marked(
    m: TablesModel,
    asset: Seq<char>,
    stored: Seq<tables::SourceModel>,
    looks: Seq<Look<'_>>,
    n: nat,
) -> (TablesModel, Result<bool, CatalogError>)
    decreases n,
{
    if n == 0 {
        (m, Ok(false))
    } else {
        match absent_marked(m, asset, stored, looks, (n - 1) as nat) {
            (before, Err(e)) => (before, Err(e)),
            (before, Ok(changed)) => if among(looks, stored[n - 1].locator) {
                (before, Ok(changed))
            } else {
                match sources::unavailable_outcome(
                    before,
                    asset,
                    sources::sidecar_request(stored[n - 1]),
                    sources::missing_note(),
                ) {
                    Err(e) => (before, Err(e)),
                    Ok((after, more)) => (after, Ok(changed || more)),
                }
            },
        }
    }
}

proof fn lemma_absent_marked_error(
    m: TablesModel,
    asset: Seq<char>,
    stored: Seq<tables::SourceModel>,
    looks: Seq<Look<'_>>,
    n: nat,
)
    requires
        n <= stored.len(),
        absent_marked(m, asset, stored, looks, n).1 is Err,
    ensures
        absent_marked(m, asset, stored, looks, stored.len()) == absent_marked(
            m,
            asset,
            stored,
            looks,
            n,
        ),
    decreases stored.len() - n,
{
    if n < stored.len() {
        lemma_absent_marked_error(m, asset, stored, looks, n + 1);
    }
}

/// A physical file at a location.
pub open spec fn file_at(location: Seq<u8>) -> spec_fn(tables::AssetModel) -> bool {
    |a: tables::AssetModel| a.location == location
}

fn find_file_at(db: &Tables, location: &[u8]) -> (r: Option<usize>)
    ensures
        match r {
            Some(i) => i < db.assets@.len() && support::first_where(
                db@.assets,
                file_at(location@),
            ) == Some(i as int),
            None => support::first_where(db@.assets, file_at(location@)) is None,
        },
{
    let test = |a: &Asset| -> (b: bool)
        ensures b == file_at(location@)(a@)
    {
        same_bytes(a.location.as_slice(), location)
    };
    find(&db.assets, test, Ghost(file_at(location@)))
}

/// An original as a source of its own embedded metadata.
pub open spec fn embedded_source(location: Seq<u8>, display: Seq<char>) -> store::SourceRequest {
    store::SourceRequest {
        kind: "embedded"@,
        locator: location,
        display,
        ambiguous: false,
        provenance: r#"{"discovery":"original file"}"#@,
    }
}

/// What follows the look at an original itself: the sidecars, and those of its stored
/// sidecars that are gone.
pub open spec fn sidecars_refreshed(
    m: TablesModel,
    asset: Seq<char>,
    changed: bool,
    warnings: nat,
    sidecars: Result<Seq<Look<'_>>, CatalogError>,
) -> (TablesModel, Tally) {
    match sidecars {
        Err(e) => (m, Err(e)),
        Ok(looks) => if looks.len() > SIDECAR_LIMIT {
            (m, Err(CatalogError::SidecarLimit))
        } else {
            match all_looked(m, asset, looks, looks.len()) {
                (seen, Err(e)) => (seen, Err(e)),
                (seen, Ok((more, found))) => {
                    let stored = seen.sources.filter(sources::sidecar_of(asset));
                    match absent_marked(seen, asset, stored, looks, stored.len()) {
                        (after, Err(e)) => (after, Err(e)),
                        (after, Ok(gone)) => (
                            after,
                            Ok((changed || more || gone, warnings + found)),
                        ),
                    }
                },
            }
        },
    }
}

/// What a look at an original gives. Its embedded metadata is taken where its bytes
/// changed, or where it was not read before or not found then.
pub open spec fn refreshed(
    m: TablesModel,
    source: store::SourceRequest,
    embedded_changed: bool,
    embedded: Inspected<'_>,
    sidecars: Result<Seq<Look<'_>>, CatalogError>,
) -> (TablesModel, Tally) {
    match support::first_where(m.assets, file_at(source.locator)) {
        None => (m, Err(CatalogError::AssetNotFound)),
        Some(a) => {
            let asset = m.assets[a].id;
            if embedded_changed || !sources::embedded_known(m, asset, source.locator) {
                match looked(m, asset, source, embedded) {
                    Err(e) => (m, Err(e)),
                    Ok((seen, changed, warning)) => sidecars_refreshed(
                        seen,
                        asset,
                        changed,
                        if warning {
                            1
                        } else {
                            0
                        },
                        sidecars,
                    ),
                }
            } else {
                sidecars_refreshed(m, asset, false, 0, sidecars)
            }
        },
    }
}

/// The listed looks of a scan, or why there are none.
pub open spec fn listed<'a>(sidecars: Result<&'a Vec<Look<'a>>, CatalogError>) -> Result<
    Seq<Look<'a>>,
    CatalogError,
> {
    match sidecars {
        Ok(looks) => Ok(looks@),
        Err(e) => Err(e),
    }
}

/// A tally with a number that the machine holds.
pub open spec fn told(r: Result<(bool, usize), CatalogError>) -> Tally {
    match r {
        Ok((changed, warnings)) => Ok((changed, warnings as nat)),
        Err(e) => Err(e),
    }
}

impl Catalog {
    /// Takes a look at one source of a physical file: what was found in its file is
    /// stored; where it could not be read, the source is marked as unavailable. Says
    /// whether anything changed and whether it calls for attention.
    pub fn inspect_metadata_source(
        &mut self,
        asset: &str,
        source: &Source,
        inspected: &Inspected<'_>,
    ) -> (r: Result<(bool, bool), CatalogError>)
        ensures
            final(self).tables_only(*old(self)),
            match looked(old(self).tables@, asset@, source@, *inspected) {
                Ok((m, changed, warning)) => r == Ok::<(bool, bool), CatalogError>(
                    (changed, warning),
                ) && final(self).tables@ == m,
                Err(e) => r == Err::<(bool, bool), CatalogError>(e) && *final(self) == *old(self),
            },
    {
        reveal(looked);
        match inspected {
            Inspected::Found(inspection) => {
                let warning: bool = is_worrying(inspection);
                match self.retain_metadata(asset, source, inspection) {
                    Err(e) => Err(e),
                    Ok(change) => Ok((change.changed, warning)),
                }
            },
            Inspected::Failed(reason) => {
                let mut said: String = "inspection failed: ".to_owned();
                said.append(reason);
                match self.unavailable_metadata_source(asset, source, said.as_str()) {
                    Err(e) => Err(e),
                    Ok(changed) => Ok((changed, true)),
                }
            },
        }
    }

    fn look_at_sidecars(&mut self, asset: &str, looks: &Vec<Look<'_>>) -> (r: Result<
        (bool, usize),
        CatalogError,
    >)
        requires
            looks@.len() <= SIDECAR_LIMIT,
        ensures
            final(self).tables_only(*old(self)),
            (final(self).tables@, told(r)) == all_looked(
                old(self).tables@,
                asset@,
                looks@,
                looks@.len(),
            ),
            r matches Ok((_, warnings)) ==> warnings <= looks@.len(),
    {
        let ghost m = self.tables@;
        let mut changed: bool = false;
        let mut warnings: usize = 0;
        let mut n: usize = 0;
        while n < looks.len()
            invariant
                n <= looks@.len() <= SIDECAR_LIMIT,
                warnings <= n,
                m == old(self).tables@,
                self.tables_only(*old(self)),
                all_looked(m, asset@, looks@, n as nat) == (
                    self.tables@,
                    Ok::<(bool, nat), CatalogError>((changed, warnings as nat)),
                ),
            decreases looks@.len() - n,
        {
            let look = &looks[n];
            match self.inspect_metadata_source(asset, &look.source, &look.inspected) {
                Err(e) => {
                    proof {
                        lemma_all_looked_error(m, asset@, looks@, (n + 1) as nat);
                    }
                    return Err(e);
                },
                Ok((more, warning)) => {
                    changed = changed || more;
                    if warning || look.source.ambiguous {
                        warnings += 1;
                    }
                },
            }
            n += 1;
        }
        Ok((changed, warnings))
    }

    fn mark_absent(&mut self, asset: &str, looks: &Vec<Look<'_>>) -> (r: Result<bool, CatalogError>)
        ensures
            final(self).tables_only(*old(self)),
            ({
                let m = old(self).tables@;
                let stored = m.sources.filter(sources::sidecar_of(asset@));
                (final(self).tables@, r) == absent_marked(m, asset@, stored, looks@, stored.len())
            }),
    {
        let ghost m = self.tables@;
        let rows: Vec<SourceRow> = list_sidecars(&self.tables, asset);
        let ghost stored = support::models(rows@);
        let mut changed: bool = false;
        let mut n: usize = 0;
        while n < rows.len()
            invariant
                n <= rows@.len(),
                stored == support::models(rows@),
                m == old(self).tables@,
                stored == m.sources.filter(sources::sidecar_of(asset@)),
                self.tables_only(*old(self)),
                absent_marked(m, asset@, stored, looks@, n as nat) == (
                    self.tables@,
                    Ok::<bool, CatalogError>(changed),
                ),
            decreases rows@.len() - n,
        {
            let row = &rows[n];
            assert(stored[n as int] == row@);
            if !is_among(looks, row.locator.as_slice()) {
                let source: Source = Source {
                    kind: "sidecar".to_owned(),
                    locator: copy_bytes(row.locator.as_slice()),
                    display: row.display.clone(),
                    ambiguous: same(row.association.as_str(), "ambiguous"),
                    provenance: "null".to_owned(),
                };
                assert(source@ =~= sources::sidecar_request(row@));
                match self.unavailable_metadata_source(
                    asset,
                    &source,
                    "not found in current directory scan; retained metadata remains available",
                ) {
                    Err(e) => {
                        proof {
                            lemma_absent_marked_error(m, asset@, stored, looks@, (n + 1) as nat);
                        }
                        return Err(e);
                    },
                    Ok(more) => changed = changed || more,
                }
            }
            n += 1;
        }
        Ok(changed)
    }

    /// Takes a look at an original and at the sidecars that a scan of its directory
    /// listed, in their order; stored sidecars that were not listed are marked as
    /// unavailable. Says whether anything changed and how many sources call for
    /// attention. Each source is dealt with by itself: where one is refused, what was
    /// done before stands.
    pub fn refresh_metadata<'a>(
        &mut self,
        location: &[u8],
        display: &str,
        embedded_changed: bool,
        embedded: &Inspected<'_>,
        sidecars: Result<&'a Vec<Look<'a>>, CatalogError>,
    ) -> (r: Result<(bool, usize), CatalogError>)
        ensures
            final(self).tables_only(*old(self)),
            (final(self).tables@, told(r)) == refreshed(
                old(self).tables@,
                embedded_source(location@, display@),
                embedded_changed,
                *embedded,
                listed(sidecars),
            ),
    {
        let source: Source = Source {
            kind: "embedded".to_owned(),
            locator: copy_bytes(location),
            display: display.to_owned(),
            ambiguous: false,
            provenance: r#"{"discovery":"original file"}"#.to_owned(),
        };
        assert(source@ == embedded_source(location@, display@));
        let asset: String = match find_file_at(&self.tables, location) {
            None => return Err(CatalogError::AssetNotFound),
            Some(a) => {
                assert(self.tables@.assets[a as int] == self.tables.assets@[a as int]@);
                self.tables.assets[a].id.clone()
            },
        };
        let ghost whole = refreshed(
            old(self).tables@,
            source@,
            embedded_changed,
            *embedded,
            listed(sidecars),
        );
        let mut changed: bool = false;
        let mut warnings: usize = 0;
        if self.needs_embedded_inspection(asset.as_str(), location, embedded_changed) {
            match self.inspect_metadata_source(asset.as_str(), &source, embedded) {
                Err(e) => {
                    assert((self.tables@, told(Err(e))) == whole);
                    return Err(e);
                },
                Ok((more, warning)) => {
                    changed = more;
                    if warning {
                        warnings = 1;
                    }
                },
            }
        }
        assert(whole == sidecars_refreshed(
            self.tables@,
            asset@,
            changed,
            warnings as nat,
            listed(sidecars),
        ));
        let looks: &Vec<Look<'a>> = match sidecars {
            Err(e) => {
                assert((self.tables@, told(Err(e))) == whole);
                return Err(e);
            },
            Ok(looks) => looks,
        };
        if looks.len() > SIDECAR_LIMIT {
            assert((self.tables@, told(Err(CatalogError::SidecarLimit))) == whole);
            return Err(CatalogError::SidecarLimit);
        }
        match self.look_at_sidecars(asset.as_str(), looks) {
            Err(e) => {
                assert((self.tables@, told(Err(e))) == whole);
                return Err(e);
            },
            Ok((more, found)) => {
                changed = changed || more;
                warnings += found;
            },
        }
        match self.mark_absent(asset.as_str(), looks) {
            Err(e) => {
                assert((self.tables@, told(Err(e))) == whole);
                Err(e)
            },
            Ok(gone) => {
                let r: Result<(bool, usize), CatalogError> = Ok((changed || gone, warnings));
                assert((self.tables@, told(r)) == whole);
                r
            },
        }
    }
}

} // verus!

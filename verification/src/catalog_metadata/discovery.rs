//! Which sidecars belong to an original: the files that scans of directories saw.
use crate::catalog_metadata::edit;
use crate::catalog_metadata::edit::append_number;
use crate::catalog_metadata::prepared::Source;
use crate::catalog_metadata::store;
use crate::copies::{copy_rows, Copied};
use crate::error::CatalogError;
use crate::ordering;
use crate::ordering::page_rows;
use crate::outside;
use crate::outside::to_lowercase;
use crate::support;
use crate::support::{append_bytes, copy_bytes, find, same_bytes};
use vstd::prelude::*;
use vstd::string::*;
use vstd::utf8::*;

verus! {

/// The most sidecars that may belong to an original.
pub const SIDECAR_LIMIT: usize = 1024;

/// The last part of a path: its bytes in the platform's own form, and its text where
/// it has one.
pub struct FileName {
    pub bytes: Vec<u8>,
    pub text: Option<String>,
}

/// What a `FileName` stands for.
#[verifier::ext_equal]
pub struct FileNameModel {
    pub bytes: Seq<u8>,
    pub text: Option<Seq<char>>,
}

impl View for FileName {
    type V = FileNameModel;

    open spec fn view(&self) -> FileNameModel {
        FileNameModel {
            bytes: self.bytes@,
            text: support::text_of(self.text),
        }
    }
}

/// What an enumeration of a directory says of an entry.
pub struct DirectoryFact {
    pub parent: Vec<u8>,
    pub path: Vec<u8>,
    /// The path's length in the platform's own units.
    pub path_units: u64,
    pub display: String,
    pub name: FileName,
    pub stem: FileName,
    /// The extension's text; empty where it has none.
    pub extension: String,
    /// The extension is that of a photo.
    pub supported: bool,
    pub regular: bool,
}

/// What a `DirectoryFact` stands for.
#[verifier::ext_equal]
pub struct DirectoryFactModel {
    pub parent: Seq<u8>,
    pub path: Seq<u8>,
    pub path_units: u64,
    pub display: Seq<char>,
    pub name: FileNameModel,
    pub stem: FileNameModel,
    pub extension: Seq<char>,
    pub supported: bool,
    pub regular: bool,
}

impl View for DirectoryFact {
    type V = DirectoryFactModel;

    open spec fn view(&self) -> DirectoryFactModel {
        DirectoryFactModel {
            parent: self.parent@,
            path: self.path@,
            path_units: self.path_units,
            display: self.display@,
            name: self.name@,
            stem: self.stem@,
            extension: self.extension@,
            supported: self.supported,
            regular: self.regular,
        }
    }
}

/// A file that a scan has seen.
pub struct ScanFile {
    pub directory: Vec<u8>,
    pub name: Vec<u8>,
    pub stem: Vec<u8>,
    pub full_name: Vec<u8>,
    pub path: Vec<u8>,
    pub display: String,
    pub sidecar: bool,
}

/// What a `ScanFile` stands for.
#[verifier::ext_equal]
pub struct ScanFileModel {
    pub directory: Seq<u8>,
    pub name: Seq<u8>,
    pub stem: Seq<u8>,
    pub full_name: Seq<u8>,
    pub path: Seq<u8>,
    pub display: Seq<char>,
    pub sidecar: bool,
}

impl View for ScanFile {
    type V = ScanFileModel;

    open spec fn view(&self) -> ScanFileModel {
        ScanFileModel {
            directory: self.directory@,
            name: self.name@,
            stem: self.stem@,
            full_name: self.full_name@,
            path: self.path@,
            display: self.display@,
            sidecar: self.sidecar,
        }
    }
}

impl Copied for ScanFile {
    fn copied(&self) -> (c: Self) {
        ScanFile {
            directory: copy_bytes(self.directory.as_slice()),
            name: copy_bytes(self.name.as_slice()),
            stem: copy_bytes(self.stem.as_slice()),
            full_name: copy_bytes(self.full_name.as_slice()),
            path: copy_bytes(self.path.as_slice()),
            display: self.display.clone(),
            sidecar: self.sidecar,
        }
    }
}

/// What a scan on behalf of a bounded owner may take.
pub struct ScanLimits {
    pub entries: usize,
    pub path_units: u64,
}

/// The scanned directories and the files seen in them.
pub struct ImportDiscovery {
    pub directories: Vec<Vec<u8>>,
    pub files: Vec<ScanFile>,
}

/// What an `ImportDiscovery` stands for.
#[verifier::ext_equal]
pub struct DiscoveryModel {
    pub directories: Seq<Seq<u8>>,
    pub files: Seq<ScanFileModel>,
}

impl View for ImportDiscovery {
    type V = DiscoveryModel;

    open spec fn view(&self) -> DiscoveryModel {
        DiscoveryModel {
            directories: support::models(self.directories@),
            files: support::models(self.files@),
        }
    }
}

/// A letter A to Z in lowercase, and any other byte as it is.
pub open spec fn ascii_lower(b: u8) -> u8 {
    if 0x41 <= b <= 0x5a {
        (b + 0x20) as u8
    } else {
        b
    }
}

/// Bytes with the letters A to Z in lowercase.
pub open spec fn ascii_lowered(bytes: Seq<u8>) -> Seq<u8> {
    bytes.map_values(|b: u8| ascii_lower(b))
}

fn append_lowered(v: &mut Vec<u8>, bytes: &[u8])
    ensures
        final(v)@ == old(v)@ + ascii_lowered(bytes@),
{
    let mut i: usize = 0;
    while i < bytes.len()
        invariant
            i <= bytes@.len(),
            v@ == old(v)@ + ascii_lowered(bytes@).take(i as int),
        decreases bytes@.len() - i,
    {
        let b: u8 = bytes[i];
        v.push(
            if 0x41 <= b && b <= 0x5a {
                b + 0x20
            } else {
                b
            },
        );
        proof {
            assert(ascii_lowered(bytes@)[i as int] == ascii_lower(b));
            assert(ascii_lowered(bytes@).take(i + 1) =~= ascii_lowered(bytes@).take(i as int).push(
                ascii_lower(b),
            ));
            assert(v@ =~= old(v)@ + ascii_lowered(bytes@).take(i + 1));
        }
        i += 1;
    }
    assert(v@ =~= old(v)@ + ascii_lowered(bytes@));
}

/// The key that names are matched by: without regard to case, as Unicode has it
/// for a text and for the letters A to Z otherwise. Texts never match other bytes.
pub open spec fn key_of_name(name: FileNameModel) -> Seq<u8> {
    match name.text {
        Some(text) => seq![1u8] + encode_utf8(outside::lowercase(text)),
        None => seq![0u8] + ascii_lowered(name.bytes),
    }
}

/// The key that a name is matched by.
pub fn name_key(name: &FileName) -> (key: Vec<u8>)
    ensures
        key@ == key_of_name(name@),
{
    let mut key: Vec<u8> = Vec::new();
    match &name.text {
        Some(text) => {
            key.push(1);
            append_bytes(&mut key, to_lowercase(text.as_str()).as_str().as_bytes());
        },
        None => {
            key.push(0);
            append_lowered(&mut key, name.bytes.as_slice());
        },
    }
    assert(key@ =~= key_of_name(name@));
    key
}

/// An extension is that of a sidecar, without regard to case.
pub open spec fn is_sidecar_extension(extension: Seq<char>) -> bool {
    ascii_lowered(encode_utf8(extension)) == seq![0x78u8, 0x6du8, 0x70u8]
}

fn names_sidecar(extension: &str) -> (r: bool)
    ensures
        r == is_sidecar_extension(extension@),
{
    let mut lowered: Vec<u8> = Vec::new();
    append_lowered(&mut lowered, extension.as_bytes());
    assert(lowered@ =~= ascii_lowered(encode_utf8(extension@)));
    let sidecar: Vec<u8> = vec![0x78, 0x6d, 0x70];
    assert(sidecar@ =~= seq![0x78u8, 0x6du8, 0x70u8]);
    same_bytes(lowered.as_slice(), sidecar.as_slice())
}

pub open spec fn file_in(directory: Seq<u8>, name: Seq<u8>) -> spec_fn(ScanFileModel) -> bool {
    |r: ScanFileModel| r.directory == directory && r.name == name
}

/// The file that an entry stands for.
pub open spec fn scanned(directory: Seq<u8>, fact: DirectoryFactModel) -> ScanFileModel {
    ScanFileModel {
        directory,
        name: fact.name.bytes,
        stem: key_of_name(fact.stem),
        full_name: key_of_name(fact.name),
        path: fact.path,
        display: fact.display,
        sidecar: is_sidecar_extension(fact.extension),
    }
}

/// An entry that is kept: a regular file that is a photo or a sidecar.
pub open spec fn kept(fact: DirectoryFactModel) -> bool {
    fact.regular && (is_sidecar_extension(fact.extension) || fact.supported)
}

/// Why the entry at a position is refused.
pub open spec fn fact_refusal(
    directory: Seq<u8>,
    fact: DirectoryFactModel,
    position: int,
    limits: Option<ScanLimits>,
) -> Option<CatalogError> {
    if limits matches Some(l) && position >= l.entries {
        Some(CatalogError::EntryLimit)
    } else if fact.parent != directory {
        Some(CatalogError::ForeignEntry)
    } else if limits matches Some(l) && fact.path_units > l.path_units {
        Some(CatalogError::PathBounds)
    } else {
        None
    }
}

/// The files with those of the first `n` entries that are kept.
pub open spec fn entries_added(
    files: Seq<ScanFileModel>,
    directory: Seq<u8>,
    facts: Seq<DirectoryFactModel>,
    limits: Option<ScanLimits>,
    n: nat,
) -> Result<Seq<ScanFileModel>, CatalogError>
    decreases n,
{
    if n == 0 {
        Ok(files)
    } else {
        match entries_added(files, directory, facts, limits, (n - 1) as nat) {
            Err(e) => Err(e),
            Ok(before) => match fact_refusal(directory, facts[n - 1], n - 1, limits) {
                Some(e) => Err(e),
                None => if !kept(facts[n - 1]) {
                    Ok(before)
                } else if support::first_where(
                    before,
                    file_in(directory, facts[n - 1].name.bytes),
                ) is Some {
                    Err(CatalogError::EntryExists)
                } else {
                    Ok(before.push(scanned(directory, facts[n - 1])))
                },
            },
        }
    }
}

proof fn lemma_entries_error(
    files: Seq<ScanFileModel>,
    directory: Seq<u8>,
    facts: Seq<DirectoryFactModel>,
    limits: Option<ScanLimits>,
    n: nat,
)
    requires
        n <= facts.len(),
        entries_added(files, directory, facts, limits, n) is Err,
    ensures
        entries_added(files, directory, facts, limits, facts.len()) == entries_added(
            files,
            directory,
            facts,
            limits,
            n,
        ),
    decreases facts.len() - n,
{
    if n < facts.len() {
        lemma_entries_error(files, directory, facts, limits, n + 1);
    }
}

/// What a scan of a directory gives.
pub open spec fn index_outcome(
    d: DiscoveryModel,
    directory: Seq<u8>,
    facts: Seq<DirectoryFactModel>,
    limits: Option<ScanLimits>,
) -> Result<DiscoveryModel, CatalogError> {
    match entries_added(d.files, directory, facts, limits, facts.len()) {
        Err(e) => Err(e),
        Ok(files) => if d.directories.contains(directory) {
            Err(CatalogError::EntryExists)
        } else {
            Ok(DiscoveryModel { directories: d.directories.push(directory), files })
        },
    }
}

fn check_fact(
    directory: &[u8],
    fact: &DirectoryFact,
    position: usize,
    limits: &Option<ScanLimits>,
) -> (r: Option<CatalogError>)
    ensures
        r == fact_refusal(directory@, fact@, position as int, *limits),
{
    if let Some(l) = limits {
        if position >= l.entries {
            return Some(CatalogError::EntryLimit);
        }
    }
    if !same_bytes(fact.parent.as_slice(), directory) {
        return Some(CatalogError::ForeignEntry);
    }
    if let Some(l) = limits {
        if fact.path_units > l.path_units {
            return Some(CatalogError::PathBounds);
        }
    }
    None
}

/// The sidecars of a directory that may belong to an original, by its two keys,
/// with the names that they are ordered by.
pub open spec fn sidecar_key(directory: Seq<u8>, stem: Seq<u8>, name: Seq<u8>) -> spec_fn(
    ScanFileModel,
) -> Option<Seq<u8>> {
    |r: ScanFileModel|
        if r.directory == directory && r.sidecar && (r.stem == stem || r.stem == name) {
            Some(r.name)
        } else {
            None
        }
}

/// A photo that a sidecar's key matches.
pub open spec fn matches_key(directory: Seq<u8>, key: Seq<u8>) -> spec_fn(ScanFileModel) -> bool {
    |r: ScanFileModel| r.directory == directory && !r.sidecar && (r.stem == key || r.full_name == key)
}

/// The number of photos that a sidecar's key matches.
pub open spec fn matching(files: Seq<ScanFileModel>, directory: Seq<u8>, key: Seq<u8>) -> nat {
    files.filter(matches_key(directory, key)).len()
}

/// How a sidecar was found, as a document.
pub open spec fn discovery_document(photos: nat, multiple: bool) -> Seq<char> {
    "{\"discovery\":\"case-insensitive stem or full filename plus .xmp\",\"matching_photos\":"@
        + edit::decimal_text(photos) + if multiple {
        ",\"matching_sidecars\":\"multiple\"}"@
    } else {
        ",\"matching_sidecars\":\"one\"}"@
    }
}

/// The source that a sidecar gives. It is ambiguous where other sidecars belong to
/// the original too, or where it does not belong to exactly one photo.
pub open spec fn sidecar_source(
    files: Seq<ScanFileModel>,
    directory: Seq<u8>,
    file: ScanFileModel,
    multiple: bool,
) -> store::SourceRequest {
    let photos = matching(files, directory, file.stem);
    store::SourceRequest {
        kind: "sidecar"@,
        locator: file.path,
        display: file.display,
        ambiguous: multiple || photos != 1,
        provenance: discovery_document(photos, multiple),
    }
}

/// The sources that the picked sidecars give.
pub open spec fn sidecar_sources(
    files: Seq<ScanFileModel>,
    directory: Seq<u8>,
    picks: Seq<usize>,
) -> Seq<store::SourceRequest> {
    Seq::new(
        picks.len(),
        |i: int| sidecar_source(files, directory, files[picks[i] as int], picks.len() > 1),
    )
}

fn count_matching(files: &Vec<ScanFile>, directory: &[u8], key: &[u8]) -> (n: usize)
    ensures
        n == matching(support::models(files@), directory@, key@),
{
    let ghost p = matches_key(directory@, key@);
    let ghost rows = support::models(files@);
    let mut n: usize = 0;
    let mut i: usize = 0;
    proof {
        assert(rows.take(0).filter(p).len() == 0) by {
            reveal(Seq::filter);
        }
    }
    while i < files.len()
        invariant
            i <= files@.len(),
            n <= i,
            p == matches_key(directory@, key@),
            rows == support::models(files@),
            n == rows.take(i as int).filter(p).len(),
        decreases files@.len() - i,
    {
        let f = &files[i];
        proof {
            assert(rows.take(i + 1) =~= rows.take(i as int).push(f@));
            support::lemma_filter_push(rows.take(i as int), f@, p);
        }
        if !f.sidecar && same_bytes(f.directory.as_slice(), directory) && (same_bytes(
            f.stem.as_slice(),
            key,
        ) || same_bytes(f.full_name.as_slice(), key)) {
            n += 1;
        }
        i += 1;
    }
    assert(rows.take(i as int) =~= rows);
    n
}

fn make_discovery_document(photos: usize, multiple: bool) -> (s: String)
    ensures
        s@ == discovery_document(photos as nat, multiple),
{
    let mut s: String =
        "{\"discovery\":\"case-insensitive stem or full filename plus .xmp\",\"matching_photos\":".to_owned();
    append_number(&mut s, photos as u64);
    if multiple {
        s.append(",\"matching_sidecars\":\"multiple\"}");
    } else {
        s.append(",\"matching_sidecars\":\"one\"}");
    }
    assert(s@ =~= discovery_document(photos as nat, multiple));
    s
}

impl ImportDiscovery {
    /// Nothing was scanned yet.
    pub fn new() -> (d: Self)
        ensures
            d@ == (DiscoveryModel { directories: Seq::empty(), files: Seq::empty() }),
    {
        let d: ImportDiscovery = ImportDiscovery { directories: Vec::new(), files: Vec::new() };
        assert(d@ =~= (DiscoveryModel { directories: Seq::empty(), files: Seq::empty() }));
        d
    }

    /// Whether a directory was scanned.
    pub fn is_indexed(&self, directory: &[u8]) -> (r: bool)
        ensures
            r == self@.directories.contains(directory@),
    {
        let mut i: usize = 0;
        while i < self.directories.len()
            invariant
                i <= self.directories@.len(),
                forall|j: int| 0 <= j < i ==> (#[trigger] self.directories@[j])@ != directory@,
            decreases self.directories@.len() - i,
        {
            if same_bytes(self.directories[i].as_slice(), directory) {
                assert(self@.directories[i as int] == directory@);
                return true;
            }
            i += 1;
        }
        assert forall|j: int| 0 <= j < self@.directories.len() implies self@.directories[j]
            != directory@ by {
            assert(self@.directories[j] == self.directories@[j]@);
        }
        false
    }

    /// Takes in the entries of a directory, all that matter of them or none.
    pub fn index_directory_facts(
        &mut self,
        directory: &[u8],
        facts: &Vec<DirectoryFact>,
        limits: &Option<ScanLimits>,
    ) -> (r: Result<(), CatalogError>)
        ensures
            match index_outcome(old(self)@, directory@, support::models(facts@), *limits) {
                Ok(d) => r is Ok && final(self)@ == d,
                Err(e) => r == Err::<(), CatalogError>(e) && *final(self) == *old(self),
            },
    {
        let ghost start = self@.files;
        let ghost all = support::models(facts@);
        let mut files: Vec<ScanFile> = copy_rows(&self.files);
        let mut n: usize = 0;
        while n < facts.len()
            invariant
                n <= facts@.len(),
                all == support::models(facts@),
                *self == *old(self),
                start == self@.files,
                entries_added(start, directory@, all, *limits, n as nat) == Ok::<
                    Seq<ScanFileModel>,
                    CatalogError,
                >(support::models(files@)),
            decreases facts@.len() - n,
        {
            let fact = &facts[n];
            assert(all[n as int] == fact@);
            match check_fact(directory, fact, n, limits) {
                Some(e) => {
                    proof {
                        lemma_entries_error(start, directory@, all, *limits, (n + 1) as nat);
                    }
                    return Err(e);
                },
                None => {},
            }
            let sidecar: bool = names_sidecar(fact.extension.as_str());
            if fact.regular && (sidecar || fact.supported) {
                let test = |r: &ScanFile| -> (b: bool)
                    ensures b == file_in(directory@, fact.name.bytes@)(r@)
                {
                    same_bytes(r.directory.as_slice(), directory) && same_bytes(
                        r.name.as_slice(),
                        fact.name.bytes.as_slice(),
                    )
                };
                if find(&files, test, Ghost(file_in(directory@, fact.name.bytes@))).is_some() {
                    proof {
                        lemma_entries_error(start, directory@, all, *limits, (n + 1) as nat);
                    }
                    return Err(CatalogError::EntryExists);
                }
                let ghost before = support::models(files@);
                files.push(
                    ScanFile {
                        directory: copy_bytes(directory),
                        name: copy_bytes(fact.name.bytes.as_slice()),
                        stem: name_key(&fact.stem),
                        full_name: name_key(&fact.name),
                        path: copy_bytes(fact.path.as_slice()),
                        display: fact.display.clone(),
                        sidecar,
                    },
                );
                assert(support::models(files@) =~= before.push(scanned(directory@, fact@)));
            }
            n += 1;
        }
        if self.is_indexed(directory) {
            return Err(CatalogError::EntryExists);
        }
        self.files = files;
        self.directories.push(copy_bytes(directory));
        assert(self@ =~= index_outcome(old(self)@, directory@, all, *limits)->Ok_0);
        Ok(())
    }

    /// The sidecars that belong to an original, in the order of their names.
    pub fn sidecars(&self, directory: &[u8], stem: &FileName, name: &FileName) -> (r: Result<
        Vec<Source>,
        CatalogError,
    >)
        ensures
            exists|picks: Seq<usize>|
                #[trigger] ordering::is_page::<Vec<u8>>(
                    self@.files.map_values(
                        sidecar_key(directory@, key_of_name(stem@), key_of_name(name@)),
                    ),
                    None,
                    None,
                    picks,
                ) && if picks.len() > SIDECAR_LIMIT {
                    r == Err::<Vec<Source>, CatalogError>(CatalogError::SidecarLimit)
                } else {
                    r matches Ok(sources) && support::models(sources@) == sidecar_sources(
                        self@.files,
                        directory@,
                        picks,
                    )
                },
    {
        let stem_key: Vec<u8> = name_key(stem);
        let full_key: Vec<u8> = name_key(name);
        let key = |r: &ScanFile| -> (k: Option<Vec<u8>>)
            ensures ordering::key_of(k) == sidecar_key(directory@, stem_key@, full_key@)(r@)
        {
            if r.sidecar && same_bytes(r.directory.as_slice(), directory) && (same_bytes(
                r.stem.as_slice(),
                stem_key.as_slice(),
            ) || same_bytes(r.stem.as_slice(), full_key.as_slice())) {
                Some(copy_bytes(r.name.as_slice()))
            } else {
                None
            }
        };
        let picks: Vec<usize> = page_rows(
            &self.files,
            key,
            Ghost(sidecar_key(directory@, stem_key@, full_key@)),
            &None::<Vec<u8>>,
            None,
        );
        assert(ordering::is_page::<Vec<u8>>(
            self@.files.map_values(sidecar_key(directory@, key_of_name(stem@), key_of_name(name@))),
            None,
            None,
            picks@,
        ));
        if picks.len() > SIDECAR_LIMIT {
            return Err(CatalogError::SidecarLimit);
        }
        let multiple: bool = picks.len() > 1;
        let ghost wanted = sidecar_sources(self@.files, directory@, picks@);
        let mut sources: Vec<Source> = Vec::new();
        let mut i: usize = 0;
        assert(support::models(sources@) =~= wanted.take(0));
        while i < picks.len()
            invariant
                i <= picks@.len(),
                picks@.len() <= SIDECAR_LIMIT,
                multiple == (picks@.len() > 1),
                ordering::is_page::<Vec<u8>>(
                    self@.files.map_values(
                        sidecar_key(directory@, key_of_name(stem@), key_of_name(name@)),
                    ),
                    None,
                    None,
                    picks@,
                ),
                wanted == sidecar_sources(self@.files, directory@, picks@),
                support::models(sources@) == wanted.take(i as int),
            decreases picks@.len() - i,
        {
            let p: usize = picks[i];
            let file = &self.files[p];
            assert(self@.files[p as int] == file@);
            let photos: usize = count_matching(&self.files, directory, file.stem.as_slice());
            let source: Source = Source {
                kind: "sidecar".to_owned(),
                locator: copy_bytes(file.path.as_slice()),
                display: file.display.clone(),
                ambiguous: multiple || photos != 1,
                provenance: make_discovery_document(photos, multiple),
            };
            let ghost before = support::models(sources@);
            proof {
                assert(source@ =~= wanted[i as int]);
                assert(wanted.take(i + 1) =~= wanted.take(i as int).push(wanted[i as int]));
            }
            sources.push(source);
            assert(support::models(sources@) =~= before.push(source@));
            i += 1;
        }
        assert(wanted.take(i as int) =~= wanted);
        Ok(sources)
    }
}

} // verus!

//! Which sidecars belong to an original, told by the entries of a directory: by their names,
//! their extensions and what else is there.
use crate::catalog_metadata::discovery;
use crate::catalog_metadata::discovery::{DirectoryFactModel, DiscoveryModel, FileNameModel, ScanFileModel, ScanLimits};
use crate::ordering;
use crate::outside;
use crate::support;
use vstd::prelude::*;
use vstd::utf8::*;

verus! {

/// The extension of a sidecar, in capital or small letters.
pub open spec fn is_xmp(e: Seq<char>) -> bool {
    e.len() == 3 && (e[0] == 'x' || e[0] == 'X') && (e[1] == 'm' || e[1] == 'M') && (e[2] == 'p'
        || e[2] == 'P')
}

/// The same byte, or the same letter of A to Z in capital and in small.
pub open spec fn same_letter(a: u8, b: u8) -> bool {
    a == b || (0x41 <= a <= 0x5a && b == a + 0x20) || (0x41 <= b <= 0x5a && a == b + 0x20)
}

/// Names that are one without regard to case. A name that is a text is never one with a name
/// that is not.
pub open spec fn named_alike(a: FileNameModel, b: FileNameModel) -> bool {
    match (a.text, b.text) {
        (Some(x), Some(y)) => outside::lowercase(x) == outside::lowercase(y),
        (None, None) => a.bytes.len() == b.bytes.len() && forall|i: int|
            0 <= i < a.bytes.len() ==> same_letter(#[trigger] a.bytes[i], b.bytes[i]),
        _ => false,
    }
}

/// A row stands for an entry of a directory.
pub open spec fn stands_for(r: ScanFileModel, directory: Seq<u8>, fact: DirectoryFactModel) -> bool {
    &&& r.directory == directory
    &&& r.name == fact.name.bytes
    &&& r.path == fact.path
    &&& r.display == fact.display
    &&& r.sidecar == is_xmp(fact.extension)
    &&& r.stem == discovery::key_of_name(fact.stem)
    &&& r.full_name == discovery::key_of_name(fact.name)
}

/// An entry that matters: a regular file, and a photo or a sidecar.
pub open spec fn matters(fact: DirectoryFactModel) -> bool {
    fact.regular && (fact.supported || is_xmp(fact.extension))
}

/// A photo of a directory that a sidecar of the stem may belong to.
pub open spec fn photo_of(r: ScanFileModel, directory: Seq<u8>, stem: Seq<u8>) -> bool {
    !r.sidecar && r.directory == directory && (stem == r.stem || stem == r.full_name)
}

/// A sidecar of a directory that may belong to the photo of a stem and a name.
pub open spec fn sidecar_of(
    r: ScanFileModel,
    directory: Seq<u8>,
    stem: Seq<u8>,
    name: Seq<u8>,
) -> bool {
    r.sidecar && r.directory == directory && (r.stem == stem || r.stem == name)
}

/// There is exactly one photo that a sidecar of the stem may belong to.
pub open spec fn one_photo(files: Seq<ScanFileModel>, directory: Seq<u8>, stem: Seq<u8>) -> bool {
    exists|i: int|
        0 <= i < files.len() && photo_of(#[trigger] files[i], directory, stem) && forall|j: int|
            0 <= j < files.len() && j != i ==> !photo_of(#[trigger] files[j], directory, stem)
}

/// No two files of a directory have one name.
pub open spec fn files_keyed(files: Seq<ScanFileModel>) -> bool {
    forall|i: int, j: int|
        0 <= i < j < files.len() && (#[trigger] files[i]).directory == (
        #[trigger] files[j]).directory ==> files[i].name != files[j].name
}

proof fn lemma_xmp(e: Seq<char>)
    ensures
        is_xmp(e) <==> discovery::is_sidecar_extension(e),
{
    let bytes = encode_utf8(e);
    let low = discovery::ascii_lowered(bytes);
    let want = seq![0x78u8, 0x6du8, 0x70u8];
    if is_xmp(e) {
        assert(is_ascii_chars(e));
        is_ascii_chars_encode_utf8(e);
        assert(e[0] as u8 == bytes[0]);
        assert(e[1] as u8 == bytes[1]);
        assert(e[2] as u8 == bytes[2]);
        assert(low[0] == 0x78u8 && low[1] == 0x6du8 && low[2] == 0x70u8);
        assert(low =~= want);
    }
    if low == want {
        assert(bytes.len() == low.len() && low.len() == 3);
        assert(low[0] == discovery::ascii_lower(bytes[0]) && low[0] == 0x78u8);
        assert(low[1] == discovery::ascii_lower(bytes[1]) && low[1] == 0x6du8);
        assert(low[2] == discovery::ascii_lower(bytes[2]) && low[2] == 0x70u8);
        assert(bytes[0] == 0x78u8 || bytes[0] == 0x58u8);
        assert(bytes[1] == 0x6du8 || bytes[1] == 0x4du8);
        assert(bytes[2] == 0x70u8 || bytes[2] == 0x50u8);
        let c0 = if bytes[0] == 0x78u8 { 'x' } else { 'X' };
        let c1 = if bytes[1] == 0x6du8 { 'm' } else { 'M' };
        let c2 = if bytes[2] == 0x70u8 { 'p' } else { 'P' };
        let f = seq![c0, c1, c2];
        assert(is_ascii_chars(f));
        is_ascii_chars_encode_utf8(f);
        assert(f[0] as u8 == encode_utf8(f)[0]);
        assert(f[1] as u8 == encode_utf8(f)[1]);
        assert(f[2] as u8 == encode_utf8(f)[2]);
        assert(encode_utf8(f) =~= bytes);
        encode_utf8_decode_utf8(f);
        encode_utf8_decode_utf8(e);
        assert(e == f);
    }
}

/// Files are matched by their names without regard to case: two names have one key exactly
/// where they are one but for the case of their letters.
pub proof fn law_names_match_without_regard_to_case(a: FileNameModel, b: FileNameModel)
    ensures
        discovery::key_of_name(a) == discovery::key_of_name(b) <==> named_alike(a, b),
{
    let ka = discovery::key_of_name(a);
    let kb = discovery::key_of_name(b);
    assert(ka[0] == if a.text is Some { 1u8 } else { 0u8 });
    assert(kb[0] == if b.text is Some { 1u8 } else { 0u8 });
    if a.text is Some && b.text is Some {
        let x = outside::lowercase(a.text->0);
        let y = outside::lowercase(b.text->0);
        assert(ka.skip(1) =~= encode_utf8(x));
        assert(kb.skip(1) =~= encode_utf8(y));
        encode_utf8_decode_utf8(x);
        encode_utf8_decode_utf8(y);
    } else if a.text is None && b.text is None {
        let x = discovery::ascii_lowered(a.bytes);
        let y = discovery::ascii_lowered(b.bytes);
        assert(ka.skip(1) =~= x);
        assert(kb.skip(1) =~= y);
        if ka == kb {
            assert(x == y);
            assert(a.bytes.len() == b.bytes.len()) by {
                assert(x.len() == a.bytes.len() && y.len() == b.bytes.len());
            }
            assert forall|i: int| 0 <= i < a.bytes.len() implies same_letter(
                #[trigger] a.bytes[i],
                b.bytes[i],
            ) by {
                assert(x[i] == discovery::ascii_lower(a.bytes[i]));
                assert(y[i] == discovery::ascii_lower(b.bytes[i]));
            }
        }
        if named_alike(a, b) {
            assert forall|i: int| 0 <= i < x.len() implies #[trigger] x[i] == y[i] by {
                assert(same_letter(a.bytes[i], b.bytes[i]));
            }
            assert(x =~= y);
        }
    }
}

/// A row stands for one of the first entries of a directory, and that entry matters.
pub open spec fn comes_of(
    r: ScanFileModel,
    directory: Seq<u8>,
    facts: Seq<DirectoryFactModel>,
    n: nat,
) -> bool {
    exists|i: int| 0 <= i < n && matters(facts[i]) && #[trigger] stands_for(r, directory, facts[i])
}

/// One of the rows from a position on stands for an entry.
pub open spec fn taken_in(
    rows: Seq<ScanFileModel>,
    from: nat,
    directory: Seq<u8>,
    fact: DirectoryFactModel,
) -> bool {
    exists|j: int| from <= j < rows.len() && #[trigger] stands_for(rows[j], directory, fact)
}

/// An entry is of a directory and within the limits.
pub open spec fn within(
    fact: DirectoryFactModel,
    i: int,
    directory: Seq<u8>,
    limits: Option<ScanLimits>,
) -> bool {
    fact.parent == directory && (limits matches Some(l) ==> i < l.entries && fact.path_units
        <= l.path_units)
}

proof fn lemma_entry(
    before: Seq<ScanFileModel>,
    after: Seq<ScanFileModel>,
    directory: Seq<u8>,
    fact: DirectoryFactModel,
)
    requires
        matters(fact) ==> after == before.push(discovery::scanned(directory, fact)),
        matters(fact) ==> support::first_where(
            before,
            discovery::file_in(directory, fact.name.bytes),
        ) is None,
        !matters(fact) ==> after == before,
    ensures
        matters(fact) ==> after.len() == before.len() + 1 && stands_for(
            after[before.len() as int],
            directory,
            fact,
        ),
        files_keyed(before) ==> files_keyed(after),
{
    lemma_xmp(fact.extension);
    support::lemma_first_where(before, discovery::file_in(directory, fact.name.bytes));
    if matters(fact) && files_keyed(before) {
        assert forall|i: int, j: int|
            0 <= i < j < after.len() && (#[trigger] after[i]).directory == (
            #[trigger] after[j]).directory implies after[i].name != after[j].name by {
            assert(after[i] == before[i]);
            if j == before.len() {
                assert(!discovery::file_in(directory, fact.name.bytes)(before[i]));
            } else {
                assert(after[j] == before[j]);
            }
        }
    }
}

proof fn lemma_entries(
    files: Seq<ScanFileModel>,
    directory: Seq<u8>,
    facts: Seq<DirectoryFactModel>,
    limits: Option<ScanLimits>,
    n: nat,
)
    requires
        n <= facts.len(),
        discovery::entries_added(files, directory, facts, limits, n) is Ok,
    ensures
        ({
            let after = discovery::entries_added(files, directory, facts, limits, n)->Ok_0;
            &&& files.len() <= after.len()
            &&& forall|j: int| 0 <= j < files.len() ==> #[trigger] after[j] == files[j]
            &&& forall|j: int|
                files.len() <= j < after.len() ==> comes_of(#[trigger] after[j], directory, facts, n)
            &&& forall|i: int|
                0 <= i < n && matters(#[trigger] facts[i]) ==> taken_in(
                    after,
                    files.len(),
                    directory,
                    facts[i],
                )
            &&& forall|i: int| 0 <= i < n ==> within(#[trigger] facts[i], i, directory, limits)
            &&& files_keyed(files) ==> files_keyed(after)
        }),
    decreases n,
{
    if n > 0 {
        lemma_entries(files, directory, facts, limits, (n - 1) as nat);
        let before = discovery::entries_added(files, directory, facts, limits, (n - 1) as nat)->Ok_0;
        let after = discovery::entries_added(files, directory, facts, limits, n)->Ok_0;
        let fact = facts[n - 1];
        lemma_xmp(fact.extension);
        assert(matters(fact) == discovery::kept(fact));
        lemma_entry(before, after, directory, fact);
        assert(within(fact, n - 1, directory, limits));
        assert forall|j: int| files.len() <= j < after.len() implies comes_of(
            #[trigger] after[j],
            directory,
            facts,
            n,
        ) by {
            if j < before.len() {
                assert(after[j] == before[j]);
                assert(comes_of(before[j], directory, facts, (n - 1) as nat));
                let i = choose|i: int|
                    0 <= i < n - 1 && matters(facts[i]) && #[trigger] stands_for(
                        before[j],
                        directory,
                        facts[i],
                    );
                assert(stands_for(after[j], directory, facts[i]));
            } else {
                assert(stands_for(after[j], directory, facts[n - 1]));
            }
        }
        assert forall|i: int| 0 <= i < n && matters(#[trigger] facts[i]) implies taken_in(
            after,
            files.len(),
            directory,
            facts[i],
        ) by {
            if i < n - 1 {
                assert(taken_in(before, files.len(), directory, facts[i]));
                let j = choose|j: int|
                    files.len() <= j < before.len() && #[trigger] stands_for(
                        before[j],
                        directory,
                        facts[i],
                    );
                assert(after[j] == before[j]);
                assert(stands_for(after[j], directory, facts[i]));
            } else {
                assert(stands_for(after[before.len() as int], directory, facts[i]));
            }
        }
    }
}

/// A scan of a directory takes in the regular files that are photos or have the extension of a
/// sidecar, in capital or small letters, and nothing else; what was known of other files stays.
/// It takes them in only where every entry is of that directory and within the limits.
pub proof fn law_scans_take_in_what_matters(
    d: DiscoveryModel,
    directory: Seq<u8>,
    facts: Seq<DirectoryFactModel>,
    limits: Option<ScanLimits>,
)
    ensures
        discovery::index_outcome(d, directory, facts, limits) matches Ok(after) ==> {
            &&& d.files.len() <= after.files.len()
            &&& forall|j: int| 0 <= j < d.files.len() ==> #[trigger] after.files[j] == d.files[j]
            &&& forall|j: int|
                d.files.len() <= j < after.files.len() ==> comes_of(
                    #[trigger] after.files[j],
                    directory,
                    facts,
                    facts.len(),
                )
            &&& forall|i: int|
                0 <= i < facts.len() && matters(#[trigger] facts[i]) ==> taken_in(
                    after.files,
                    d.files.len(),
                    directory,
                    facts[i],
                )
            &&& forall|i: int|
                0 <= i < facts.len() ==> within(#[trigger] facts[i], i, directory, limits)
            &&& files_keyed(d.files) ==> files_keyed(after.files)
            &&& !d.directories.contains(directory)
            &&& after.directories.contains(directory)
        },
{
    if discovery::index_outcome(d, directory, facts, limits) is Ok {
        lemma_entries(d.files, directory, facts, limits, facts.len());
        let after = discovery::index_outcome(d, directory, facts, limits)->Ok_0;
        assert(after.directories[d.directories.len() as int] == directory);
    }
}

/// Nothing of a sequence satisfies a condition.
pub open spec fn none_of<T>(s: Seq<T>, p: spec_fn(T) -> bool) -> bool {
    forall|j: int| 0 <= j < s.len() ==> !p(#[trigger] s[j])
}

/// One place of a sequence alone satisfies a condition.
pub open spec fn only_at<T>(s: Seq<T>, p: spec_fn(T) -> bool, i: int) -> bool {
    0 <= i < s.len() && p(s[i]) && forall|j: int|
        0 <= j < s.len() && j != i ==> !p(#[trigger] s[j])
}

proof fn lemma_none_filtered<T>(s: Seq<T>, p: spec_fn(T) -> bool)
    ensures
        s.filter(p).len() == 0 <==> none_of(s, p),
    decreases s.len(),
{
    reveal(Seq::filter);
    if s.len() > 0 {
        let t = s.drop_last();
        lemma_none_filtered(t, p);
        if none_of(t, p) && !p(s.last()) {
            assert forall|j: int| 0 <= j < s.len() implies !p(#[trigger] s[j]) by {
                if j < t.len() {
                    assert(t[j] == s[j]);
                }
            }
        }
        if none_of(s, p) {
            assert(!p(s[s.len() - 1]));
            assert forall|j: int| 0 <= j < t.len() implies !p(#[trigger] t[j]) by {
                assert(!p(s[j]));
            }
        }
    }
}

proof fn lemma_only_filtered<T>(s: Seq<T>, p: spec_fn(T) -> bool, i: int)
    requires
        only_at(s, p, i),
    ensures
        s.filter(p).len() == 1,
    decreases s.len(),
{
    reveal(Seq::filter);
    let t = s.drop_last();
    let last = s.len() - 1;
    assert forall|j: int| 0 <= j < t.len() && j != i implies !p(#[trigger] t[j]) by {
        assert(!p(s[j]));
    }
    if i == last {
        lemma_none_filtered(t, p);
    } else {
        assert(t[i] == s[i]);
        assert(!p(s[last]));
        lemma_only_filtered(t, p, i);
    }
}

proof fn lemma_filtered_only<T>(s: Seq<T>, p: spec_fn(T) -> bool) -> (i: int)
    requires
        s.filter(p).len() == 1,
    ensures
        only_at(s, p, i),
    decreases s.len(),
{
    reveal(Seq::filter);
    assert(s.len() > 0);
    let t = s.drop_last();
    let last = s.len() - 1;
    if p(s[last]) {
        lemma_none_filtered(t, p);
        assert forall|j: int| 0 <= j < s.len() && j != last implies !p(#[trigger] s[j]) by {
            assert(!p(t[j]));
        }
        last
    } else {
        let i = lemma_filtered_only(t, p);
        assert(s[i] == t[i]);
        assert forall|j: int| 0 <= j < s.len() && j != i implies !p(#[trigger] s[j]) by {
            if j < last {
                assert(!p(t[j]));
            }
        }
        i
    }
}

proof fn lemma_photos(files: Seq<ScanFileModel>, directory: Seq<u8>, stem: Seq<u8>)
    ensures
        discovery::matching(files, directory, stem) == 1 <==> one_photo(files, directory, stem),
{
    let p = discovery::matches_key(directory, stem);
    assert(forall|r: ScanFileModel| #[trigger] p(r) == photo_of(r, directory, stem));
    if files.filter(p).len() == 1 {
        let i = lemma_filtered_only(files, p);
        assert(photo_of(files[i], directory, stem));
        assert forall|j: int| 0 <= j < files.len() && j != i implies !photo_of(
            #[trigger] files[j],
            directory,
            stem,
        ) by {
            assert(!p(files[j]));
        }
    }
    if one_photo(files, directory, stem) {
        let i = choose|i: int|
            0 <= i < files.len() && photo_of(#[trigger] files[i], directory, stem) && forall|j: int|
                0 <= j < files.len() && j != i ==> !photo_of(#[trigger] files[j], directory, stem);
        assert(only_at(files, p, i));
        lemma_only_filtered(files, p, i);
    }
}

/// The sidecars of an original are the files of its directory with the extension of a sidecar
/// whose stem is the original's stem or its full name, each of them once. A sidecar is taken
/// as surely the original's exactly where no other sidecar is the original's and exactly one
/// photo of the directory has the sidecar's stem as its stem or its full name.
pub proof fn law_sidecars_belong_by_name(
    files: Seq<ScanFileModel>,
    directory: Seq<u8>,
    stem: FileNameModel,
    name: FileNameModel,
    picks: Seq<usize>,
)
    requires
        files_keyed(files),
        ordering::is_page::<Vec<u8>>(
            files.map_values(
                discovery::sidecar_key(
                    directory,
                    discovery::key_of_name(stem),
                    discovery::key_of_name(name),
                ),
            ),
            None,
            None,
            picks,
        ),
    ensures
        ({
            let s = discovery::key_of_name(stem);
            let n = discovery::key_of_name(name);
            let found = discovery::sidecar_sources(files, directory, picks);
            &&& found.len() == picks.len()
            &&& forall|i: int|
                0 <= i < found.len() ==> picks[i] < files.len() && sidecar_of(
                    files[picks[i] as int],
                    directory,
                    s,
                    n,
                ) && (#[trigger] found[i]).kind == "sidecar"@ && found[i].locator
                    == files[picks[i] as int].path && found[i].display
                    == files[picks[i] as int].display && (found[i].ambiguous <==> found.len() != 1
                    || !one_photo(files, directory, files[picks[i] as int].stem))
            &&& forall|i: int, j: int| 0 <= i < j < picks.len() ==> picks[i] != picks[j]
            &&& forall|k: int|
                0 <= k < files.len() && sidecar_of(#[trigger] files[k], directory, s, n)
                    ==> exists|i: int| 0 <= i < picks.len() && (#[trigger] picks[i]) == k
        }),
{
    let s = discovery::key_of_name(stem);
    let n = discovery::key_of_name(name);
    let key = discovery::sidecar_key(directory, s, n);
    let keys = files.map_values(key);
    let found = discovery::sidecar_sources(files, directory, picks);
    assert forall|i: int| 0 <= i < found.len() implies picks[i] < files.len() && sidecar_of(
        files[picks[i] as int],
        directory,
        s,
        n,
    ) && (#[trigger] found[i]).kind == "sidecar"@ && found[i].locator
        == files[picks[i] as int].path && found[i].display == files[picks[i] as int].display && (
    found[i].ambiguous <==> found.len() != 1 || !one_photo(
        files,
        directory,
        files[picks[i] as int].stem,
    )) by {
        assert(ordering::follows::<Vec<u8>>(None, keys[picks[i] as int]));
        assert(keys[picks[i] as int] == key(files[picks[i] as int]));
        lemma_photos(files, directory, files[picks[i] as int].stem);
    }
    assert forall|i: int, j: int| 0 <= i < j < picks.len() implies picks[i] != picks[j] by {
        let k = keys[picks[i] as int]->0;
        <Vec<u8> as ordering::Ranked>::lemma_order(k, k, k);
        assert(<Vec<u8> as ordering::Ranked>::before(
            keys[picks[i] as int]->0,
            keys[picks[j] as int]->0,
        ));
    }
    assert forall|k: int|
        0 <= k < files.len() && sidecar_of(#[trigger] files[k], directory, s, n) implies exists|
        i: int,
    | 0 <= i < picks.len() && (#[trigger] picks[i]) == k by {
        assert(keys[k] == key(files[k]));
        assert(ordering::follows::<Vec<u8>>(None, keys[k]));
        let i = choose|i: int| 0 <= i < picks.len() && keys[(#[trigger] picks[i]) as int] == keys[k];
        assert(ordering::follows::<Vec<u8>>(None, keys[picks[i] as int]));
        assert(keys[picks[i] as int] == key(files[picks[i] as int]));
        assert(files[picks[i] as int].name == files[k].name);
        assert(files[picks[i] as int].directory == files[k].directory);
        assert(picks[i] == k);
    }
}

} // verus!

//! What the metadata of a source's files is projected as, told by the rows and the bytes.
use crate::catalog::Catalog;
use crate::catalog_metadata::prepared::Inspection;
use crate::catalog_migration::evidence::EvidenceStore;
use crate::catalog_migration::file_history;
use crate::catalog_migration::file_history::{FileScope, Origin, RawInspectionModel};
use crate::catalog_migration::file_metadata;
use crate::catalog_migration::file_metadata::{
    Association, Projection, Roster, Supplement, SupplementInput, SupplementPacket, SupplementPin,
};
use crate::catalog_migration::file_projection;
use crate::catalog_migration::file_projection::{FilePlanModel, PendingModel};
use crate::catalog_migration::images;
use crate::catalog_migration::record_laws;
use crate::catalog_migration::retained;
use crate::catalog_migration::retained::{MigrationError, Observation, PathModel, Status};
use crate::outside;
use crate::support;
use crate::tables::TablesModel;
use vstd::prelude::*;
use vstd::utf8::*;

verus! {

proof fn lemma_occurs(s: Seq<i64>, x: i64, n: nat)
    requires
        n <= s.len(),
    ensures
        file_projection::occurrences(s, x, n) > 0 <==> exists|k: int| 0 <= k < n && s[k] == x,
    decreases n,
{
    if n > 0 {
        lemma_occurs(s, x, (n - 1) as nat);
        if s[n - 1] == x {
            assert(0 <= n - 1 < n && s[n - 1] == x);
        }
        if exists|k: int| 0 <= k < n && s[k] == x {
            let k = choose|k: int| 0 <= k < n && s[k] == x;
            if k < n - 1 {
                assert(0 <= k < n - 1 && s[k] == x);
            }
        }
        if exists|k: int| 0 <= k < n - 1 && s[k] == x {
            let k = choose|k: int| 0 <= k < n - 1 && s[k] == x;
            assert(0 <= k < n && s[k] == x);
        }
    }
}

/// A file's metadata is projected onto the original that its importer mapped the file to, and
/// only for a row of a file. It is a source of its own: an embedded one, or a sidecar's, which
/// is ambiguous unless it was confirmed to be the file's.
pub proof fn law_files_are_projected_onto_their_original(
    c: Catalog,
    roster: Option<Roster>,
    request: Projection,
    given: Option<Supplement>,
    p: PendingModel,
)
    requires
        file_projection::planned(c, roster, request, given) == Ok::<FilePlanModel, MigrationError>(
            FilePlanModel::Ready(p),
        ),
    ensures
        request.file@.source.table == "AgLibraryFile"@,
        exists|k: int|
            0 <= k < c.migration.images@.originals.len() && (
            #[trigger] c.migration.images@.originals[k]).source_identity
                == request.file@.source.identity && c.migration.images@.originals[k].import_source
                == request.import_source@ && c.migration.images@.originals[k].asset_id == p.asset_id,
        p.found matches Some((_, source)) ==> {
            &&& request.origin == Origin::Embedded ==> source.kind == "embedded"@
            &&& request.origin != Origin::Embedded ==> source.kind == "sidecar"@
            &&& source.ambiguous <==> request.origin != Origin::Embedded && !(
            request.association is Confirmed)
        },
{
    reveal(file_projection::planned);
    reveal(file_projection::standing);
    let identity = request.file@.source.identity;
    support::lemma_first_where(c.migration.images@.originals, images::original_of(identity));
    let k = c.migration.images@.original_at(identity)->Some_0;
    assert(c.migration.images@.originals[k].source_identity == identity);
}

/// The row that a packet's record came from.
pub open spec fn came_from(r: retained::RetainedModel, sequence: i64, rowid: i64) -> bool {
    exists|i: int|
        0 <= i < r.records.len() && (#[trigger] r.records[i]).sequence == sequence
            && r.records[i].complete && r.records[i].source_rowid == rowid
}

/// Packets are taken only from the sealed source that they belong to, and as it enumerates
/// them: as many as it has, each of a row that it names.
pub proof fn law_packets_are_those_of_the_sealed_source(
    c: Catalog,
    roster: Roster,
    request: Projection,
    given: Option<Supplement>,
    k: int,
)
    requires
        file_projection::planned(c, Some(roster), request, given) is Ok,
        0 <= k < request.packet_records@.len(),
    ensures
        roster.rowids@.len() == request.packet_records@.len(),
        exists|j: int|
            0 <= j < roster.rowids@.len() && came_from(
                c.migration.retained@,
                request.packet_records@[k],
                #[trigger] roster.rowids@[j],
            ),
{
    reveal(file_projection::planned);
    reveal(file_projection::standing);
    let r = c.migration.retained@;
    let records = request.packet_records@;
    let rows = file_projection::rows_of(r, records);
    assert(file_projection::same_members(rows, roster.rowids@));
    assert(0 <= k < rows.len() && rows[k] == rows[k]);
    lemma_occurs(rows, rows[k], rows.len());
    lemma_occurs(roster.rowids@, rows[k], roster.rowids@.len());
    let j = choose|j: int| 0 <= j < roster.rowids@.len() && roster.rowids@[j] == rows[k];
    let s = file_projection::standing(r, c.migration.files@, request)->Ok_0;
    let (file, path, source_id) = file_projection::file_and_path(r, request)->Ok_0;
    let before = (r.records[file].raw_length + r.records[path].raw_length) as nat;
    lemma_recorded(r, s.scope, records, before, records.len(), k);
    support::lemma_first_where(r.records, retained::record_at(records[k]));
    let i = r.record_of(records[k])->Some_0;
    assert(r.records[i].sequence == records[k]);
    assert(came_from(r, records[k], roster.rowids@[j]));
}

proof fn lemma_recorded(
    r: retained::RetainedModel,
    f: FileScope,
    sequences: Seq<i64>,
    before: nat,
    n: nat,
    k: int,
)
    requires
        0 <= k < n <= sequences.len(),
        file_projection::descriptors(r, f, sequences, before, n) is Ok,
    ensures
        r.record_of(sequences[k]) is Some,
    decreases n,
{
    if k < n - 1 {
        lemma_recorded(r, f, sequences, before, (n - 1) as nat, k);
    }
}

/// A pin is for a supplement of a file's embedded metadata.
pub open spec fn is_pin(
    p: SupplementPin,
    revision: Seq<char>,
    source_id: Seq<char>,
    hash: Seq<char>,
) -> bool {
    p.revision@ == revision && p.source_id@ == source_id && p.origin@ == "embedded"@
        && p.proof_blake3@ == hash
}

proof fn lemma_packets_supplied(
    store: EvidenceStore,
    packets: Seq<SupplementPacket>,
    length: u64,
    n: nat,
)
    requires
        n <= packets.len(),
    ensures
        file_metadata::packets_supplied(store, packets, length, n) matches Ok(xs) ==> xs.len() == n
            && forall|k: int|
            0 <= k < n ==> outside::blake3_hex((#[trigger] xs[k]).bytes) == xs[k].blake3
                && xs[k].blake3 == packets[k].payload.blake3@ && xs[k].bytes.len()
                == packets[k].payload.length,
    decreases n,
{
    if n > 0 {
        lemma_packets_supplied(store, packets, length, (n - 1) as nat);
    }
}

proof fn lemma_inputs_supplied(
    store: EvidenceStore,
    inputs: Seq<SupplementInput>,
    packets: nat,
    n: nat,
)
    requires
        n <= inputs.len(),
    ensures
        file_metadata::inputs_supplied(store, inputs, packets, n) matches Ok(xs) ==> xs.len() == n
            && forall|k: int|
            0 <= k < n ==> outside::blake3_hex((#[trigger] xs[k]).bytes) == xs[k].blake3
                && xs[k].blake3 == inputs[k].payload.blake3@ && xs[k].bytes.len()
                == inputs[k].payload.length,
    decreases n,
{
    if n > 0 {
        lemma_inputs_supplied(store, inputs, packets, (n - 1) as nat);
    }
}

/// A supplement counts only for embedded metadata, and only where exactly one pin of the sealed
/// source names its document for this capture and file. It has to be about what the pin says and
/// what was observed. What it then gives is from a complete inspection, and all its bytes have
/// the digests that it declares.
pub proof fn law_supplements_are_pinned(
    store: EvidenceStore,
    pins: Seq<SupplementPin>,
    f: FileScope,
    id: Seq<char>,
    given: Option<Supplement>,
    observed: Option<Observation>,
    hash: Seq<char>,
    meaning: Seq<char>,
    found: Option<RawInspectionModel>,
)
    requires
        file_metadata::supplied(store, pins, f, id, given, observed) == Ok::<
            (Seq<char>, Seq<char>, Option<RawInspectionModel>),
            MigrationError,
        >((hash, meaning, found)),
    ensures
        f.origin == Origin::Embedded,
        given matches Some(s) && {
            &&& meaning == outside::blake3_hex(s.semantic@)
            &&& exists|k: int|
                {
                    &&& 0 <= k < pins.len()
                    &&& is_pin(#[trigger] pins[k], f.revision, f.source_id, hash)
                    &&& forall|j: int|
                        0 <= j < pins.len() && j != k ==> !is_pin(
                            #[trigger] pins[j],
                            f.revision,
                            f.source_id,
                            hash,
                        )
                    &&& s.proof.revision@ == f.revision
                    &&& s.proof.source_id@ == f.source_id
                    &&& s.proof.source_revision@ == pins[k].source_revision@
                    &&& s.proof.historical_status == pins[k].historical_status
                    &&& observed matches Some(o) && o.status == Some(pins[k].historical_status) && (
                    o.revision matches Some(r) && r@ == pins[k].source_revision@)
                }
            &&& found matches Some(x) ==> {
                &&& s.proof.status == Status::Complete
                &&& x.revision == s.proof.source_revision@
                &&& x.packets.len() == s.proof.packets@.len()
                &&& x.parse_inputs.len() == s.proof.parse_inputs@.len()
                &&& forall|k: int|
                    0 <= k < x.packets.len() ==> outside::blake3_hex((#[trigger] x.packets[k]).bytes)
                        == x.packets[k].blake3 && x.packets[k].blake3
                        == s.proof.packets@[k].payload.blake3@
                &&& forall|k: int|
                    0 <= k < x.parse_inputs.len() ==> outside::blake3_hex(
                        (#[trigger] x.parse_inputs[k]).bytes,
                    ) == x.parse_inputs[k].blake3 && x.parse_inputs[k].blake3
                        == s.proof.parse_inputs@[k].payload.blake3@
            }
        },
{
    let s = given->Some_0;
    let q = file_metadata::pinned(f.revision, f.source_id, f.origin, hash);
    let all = support::positions(pins, q, pins.len());
    record_laws::lemma_positions(pins, q, pins.len());
    let k = all[0];
    assert(q(pins[k]));
    assert(is_pin(pins[k], f.revision, f.source_id, hash));
    assert forall|j: int| 0 <= j < pins.len() && j != k implies !is_pin(
        #[trigger] pins[j],
        f.revision,
        f.source_id,
        hash,
    ) by {
        if is_pin(pins[j], f.revision, f.source_id, hash) {
            assert(q(pins[j]));
            assert(all.contains(j));
        }
    }
    lemma_packets_supplied(
        store,
        s.proof.packets@,
        s.proof.source_revision.length,
        s.proof.packets@.len(),
    );
    lemma_inputs_supplied(
        store,
        s.proof.parse_inputs@,
        s.proof.packets@.len(),
        s.proof.parse_inputs@.len(),
    );
}

/// What was found in a file is retained only as it was interpreted whole: the same file, and
/// every packet and input of it with its own bytes, none left out and none added.
pub proof fn law_only_whole_interpretations_are_retained(
    m: TablesModel,
    p: PendingModel,
    interpreted: Option<Inspection>,
)
    ensures
        p.found is None ==> file_projection::retained_as(m, p, interpreted) == Ok::<
            (TablesModel, Option<i64>),
            MigrationError,
        >((m, None)),
        p.found matches Some((raw, _)) ==> (file_projection::retained_as(m, p, interpreted) is Ok
            ==> {
            &&& interpreted matches Some(i) && {
                &&& i.file_length == raw.revision.length
                &&& i.file_blake3@ == raw.revision.blake3
                &&& i.modified == raw.revision.modified_unix_ns
                &&& i.status@ == "Complete"@
                &&& i.packets@.len() == raw.packets.len()
                &&& i.parse_inputs@.len() == raw.parse_inputs.len()
                &&& forall|k: int|
                    0 <= k < raw.packets.len() ==> (#[trigger] i.packets@[k]).bytes@
                        == raw.packets[k].bytes && i.packets@[k].blake3@ == raw.packets[k].blake3
                        && i.packets@[k].container@ == raw.packets[k].container
                &&& forall|k: int|
                    0 <= k < raw.parse_inputs.len() ==> (#[trigger] i.parse_inputs@[k]).bytes@
                        == raw.parse_inputs[k].bytes && i.parse_inputs@[k].blake3@
                        == raw.parse_inputs[k].blake3
            }
            &&& file_projection::retained_as(m, p, interpreted)->Ok_0.1 is Some
        }),
{
}

proof fn lemma_last(bytes: Seq<u8>, b: u8, n: nat, at: int)
    requires
        n <= bytes.len(),
        -1 <= at < n,
        at >= 0 ==> bytes[at] == b,
        forall|k: int| at < k < n ==> bytes[k] != b,
    ensures
        file_history::last_of(bytes, b, n) == if at >= 0 {
            Some(at)
        } else {
            None
        },
    decreases n,
{
    if n > 0 && bytes[n - 1] != b {
        lemma_last(bytes, b, (n - 1) as nat, at);
    }
}

/// Bytes that hold no slash.
pub open spec fn no_slash(bytes: Seq<u8>) -> bool {
    forall|k: int| 0 <= k < bytes.len() ==> #[trigger] bytes[k] != 0x2f
}

/// Bytes that hold no dot.
pub open spec fn no_dot(bytes: Seq<u8>) -> bool {
    forall|k: int| 0 <= k < bytes.len() ==> #[trigger] bytes[k] != 0x2e
}

proof fn lemma_suffixes()
    ensures
        encode_utf8("xmp"@) == seq![0x78u8, 0x6du8, 0x70u8],
        encode_utf8("XMP"@) == seq![0x58u8, 0x4du8, 0x50u8],
{
    reveal_strlit("xmp");
    reveal_strlit("XMP");
    assert(is_ascii_chars("xmp"@));
    assert(is_ascii_chars("XMP"@));
    is_ascii_chars_encode_utf8("xmp"@);
    is_ascii_chars_encode_utf8("XMP"@);
    assert("xmp"@[0] as u8 == encode_utf8("xmp"@)[0]);
    assert("xmp"@[1] as u8 == encode_utf8("xmp"@)[1]);
    assert("xmp"@[2] as u8 == encode_utf8("xmp"@)[2]);
    assert("XMP"@[0] as u8 == encode_utf8("XMP"@)[0]);
    assert("XMP"@[1] as u8 == encode_utf8("XMP"@)[1]);
    assert("XMP"@[2] as u8 == encode_utf8("XMP"@)[2]);
    assert(encode_utf8("xmp"@) =~= seq![0x78u8, 0x6du8, 0x70u8]);
    assert(encode_utf8("XMP"@) =~= seq![0x58u8, 0x4du8, 0x50u8]);
}

/// What is embedded in a file is found at the file's own path; a sidecar is found where the
/// file's extension is replaced by that of a sidecar, in small or in capital letters, or where
/// it is added to the file's whole name.
pub proof fn law_sidecars_are_found_beside_their_file(
    directory: Seq<u8>,
    stem: Seq<u8>,
    extension: Seq<u8>,
)
    requires
        directory.len() > 0 ==> directory.last() == 0x2f,
        stem.len() > 0,
        no_slash(stem),
        extension.len() > 0,
        no_slash(extension),
        no_dot(extension),
    ensures
        ({
            let path = directory + stem + seq![0x2eu8] + extension;
            let base = PathModel::UnixBytes(path);
            &&& file_history::located(base, Origin::Embedded) == Some(base)
            &&& file_history::located(base, Origin::SidecarXmp) == Some(
                PathModel::UnixBytes(directory + stem + seq![0x2eu8, 0x78u8, 0x6du8, 0x70u8]),
            )
            &&& file_history::located(base, Origin::SidecarUpper) == Some(
                PathModel::UnixBytes(directory + stem + seq![0x2eu8, 0x58u8, 0x4du8, 0x50u8]),
            )
            &&& file_history::located(base, Origin::AppendedXmp) == Some(
                PathModel::UnixBytes(path + seq![0x2eu8, 0x78u8, 0x6du8, 0x70u8]),
            )
            &&& file_history::located(base, Origin::AppendedUpper) == Some(
                PathModel::UnixBytes(path + seq![0x2eu8, 0x58u8, 0x4du8, 0x50u8]),
            )
        }),
{
    lemma_suffixes();
    let path = directory + stem + seq![0x2eu8] + extension;
    let n = directory.len() as int;
    let d = n + stem.len();
    assert(path[d] == 0x2eu8);
    assert forall|k: int| n <= k < path.len() implies path[k] != 0x2f by {
        if k < d {
            assert(path[k] == stem[k - n]);
        } else if k > d {
            assert(path[k] == extension[k - d - 1]);
        }
    }
    assert forall|k: int| d < k < path.len() implies path[k] != 0x2e by {
        assert(path[k] == extension[k - d - 1]);
    }
    if n > 0 {
        assert(path[n - 1] == directory[n - 1]);
    }
    lemma_last(path, 0x2f, path.len(), n - 1);
    lemma_last(path, 0x2e, path.len(), d);
    assert(file_history::name_start(path) == n);
    assert(file_history::extension_start(path) == d);
    assert(path.last() == path[path.len() - 1]);
    assert(file_history::trimmed(path) == path);
    let name = path.skip(n);
    assert(name.len() == stem.len() + 1 + extension.len());
    assert(seq![0x2eu8].len() == 1 && seq![0x2eu8, 0x2eu8].len() == 2);
    assert(!file_history::nameless(path));
    assert(path.take(d) =~= directory + stem);
    assert((directory + stem) + seq![0x2eu8] + seq![0x78u8, 0x6du8, 0x70u8] =~= directory + stem
        + seq![0x2eu8, 0x78u8, 0x6du8, 0x70u8]);
    assert((directory + stem) + seq![0x2eu8] + seq![0x58u8, 0x4du8, 0x50u8] =~= directory + stem
        + seq![0x2eu8, 0x58u8, 0x4du8, 0x50u8]);
    assert(path + seq![0x2eu8] + seq![0x78u8, 0x6du8, 0x70u8] =~= path
        + seq![0x2eu8, 0x78u8, 0x6du8, 0x70u8]);
    assert(path + seq![0x2eu8] + seq![0x58u8, 0x4du8, 0x50u8] =~= path
        + seq![0x2eu8, 0x58u8, 0x4du8, 0x50u8]);
}

} // verus!

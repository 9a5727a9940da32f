//! What is prepared of what was found in a file, told by the packets and inputs: everything is
//! kept with its digest, and only whole interpretations offer values.
use crate::catalog_metadata::prepared;
use crate::catalog_metadata::prepared::{
    Declared, Inspection, Merge, Packet, PreparedObservation, Reading,
};
use crate::catalog_metadata::store;
use crate::error::CatalogError;
use crate::outside;
use crate::support;
use vstd::prelude::*;

verus! {

/// An input holds the main packet of a JPEG file.
pub open spec fn holds_main(x: Inspection, i: int) -> bool {
    exists|k: int|
        0 <= k < x.parse_inputs@[i].packet_indices@.len() && (
        #[trigger] x.parse_inputs@[i].packet_indices@[k]) < x.packets@.len()
            && x.packets@[x.parse_inputs@[i].packet_indices@[k] as int].container@ == "JpegMain"@
}

/// An input was put together from the portions of an extended packet.
pub open spec fn is_portion(x: Inspection, i: int) -> bool {
    x.parse_inputs@[i].transformation@ == "JpegExtendedReassembled"@
}

/// A main packet says that there is more of it in an extended packet.
pub open spec fn says_more(x: Inspection, i: int) -> bool {
    holds_main(x, i) && x.parse_inputs@[i].extended is Extended
}

proof fn lemma_packets(packets: Seq<Packet>, n: nat)
    requires
        n <= packets.len(),
        prepared::packet_blobs(packets, n) is Ok,
    ensures
        forall|i: int|
            0 <= i < n ==> outside::blake3_hex((#[trigger] packets[i]).bytes@) == packets[i].blake3@,
    decreases n,
{
    if n > 0 {
        lemma_packets(packets, (n - 1) as nat);
    }
}

proof fn lemma_inputs(x: Inspection, n: nat)
    requires
        n <= x.parse_inputs@.len(),
        prepared::input_blobs(x, n) is Ok,
    ensures
        prepared::packet_blobs(x.packets@, x.packets@.len()) is Ok,
        forall|i: int|
            0 <= i < n ==> outside::blake3_hex((#[trigger] x.parse_inputs@[i]).bytes@)
                == x.parse_inputs@[i].blake3@ && !(x.parse_inputs@[i].reading is Limited) && !(
            x.parse_inputs@[i].reading is Unclear),
    decreases n,
{
    if n > 0 {
        lemma_inputs(x, (n - 1) as nat);
    }
}

proof fn lemma_merged(x: Inspection, n: nat)
    requires
        n <= x.parse_inputs@.len(),
        prepared::merged_models(x, n) is Ok,
    ensures
        prepared::input_blobs(x, x.parse_inputs@.len()) is Ok,
        forall|i: int|
            0 <= i < n && (x.association(i) is Joined) && (
            #[trigger] x.parse_inputs@[i]).merge is Some && (x.parse_inputs@[i].merge->0 is Merged)
                ==> is_merged_model(prepared::merged_models(x, n)->Ok_0.1, x, i),
    decreases n,
{
    if n > 0 {
        lemma_merged(x, (n - 1) as nat);
        let before = prepared::merged_models(x, (n - 1) as nat)->Ok_0.1;
        let after = prepared::merged_models(x, n)->Ok_0.1;
        assert forall|i: int|
            0 <= i < n && (x.association(i) is Joined) && (
            #[trigger] x.parse_inputs@[i]).merge is Some && (x.parse_inputs@[i].merge->0 is Merged) implies is_merged_model(
            after,
            x,
            i,
        ) by {
            if i < n - 1 {
                assert(is_merged_model(before, x, i));
                let k = choose|k: int| 0 <= k < before.len() && #[trigger] gives_merged(before[k], x, i);
                assert(gives_merged(after[k], x, i));
            } else {
                assert(gives_merged(after[before.len() as int], x, i));
            }
        }
    }
}

/// A model offers what an input was merged into: its bytes' digest and all its values.
pub open spec fn gives_merged(
    m: prepared::PreparedModelModel,
    x: Inspection,
    i: int,
) -> bool {
    x.parse_inputs@[i].merge matches Some(Merge::Merged { bytes, projected }) && m.hash
        == outside::blake3_hex(bytes@) && m.error is None && m.fields == support::models(
        projected.fields@,
    ) && m.flawed == projected.flawed
}

/// What an input was merged into is among the models.
pub open spec fn is_merged_model(
    models: Seq<prepared::PreparedModelModel>,
    x: Inspection,
    i: int,
) -> bool {
    exists|k: int| 0 <= k < models.len() && #[trigger] gives_merged(models[k], x, i)
}

/// What was found in a file is prepared whole: the file as it was found, each packet and each
/// input under the digest of its own bytes, which has to be the one it was found with. What could
/// not be read for want of room is refused rather than kept as unreadable.
pub proof fn law_found_files_are_prepared_whole(
    x: Inspection,
    source: store::SourceRequest,
    p: PreparedObservation,
)
    requires
        prepared::prepare_outcome(x, source) == Ok::<PreparedObservation, CatalogError>(p),
    ensures
        p.status == x.status@,
        p.issues == x.issues@,
        p.file_length == x.file_length,
        p.file_blake3 == x.file_blake3@,
        p.modified == x.modified,
        p.source_provenance == source.provenance,
        p.packets.len() == x.packets@.len(),
        forall|i: int|
            0 <= i < p.packets.len() ==> (#[trigger] p.packets[i]).hash == outside::blake3_hex(
                x.packets@[i].bytes@,
            ) && p.packets[i].hash == x.packets@[i].blake3@,
        p.models.len() >= x.parse_inputs@.len(),
        forall|i: int|
            0 <= i < x.parse_inputs@.len() ==> (#[trigger] p.models[i]).hash == outside::blake3_hex(
                x.parse_inputs@[i].bytes@,
            ) && p.models[i].hash == x.parse_inputs@[i].blake3@ && !(
            x.parse_inputs@[i].reading is Limited) && !(x.parse_inputs@[i].reading is Unclear),
{
    let n = x.parse_inputs@.len();
    lemma_merged(x, n);
    lemma_inputs(x, n);
    lemma_packets(x.packets@, x.packets@.len());
    assert forall|i: int| 0 <= i < p.packets.len() implies (#[trigger] p.packets[i]).hash
        == outside::blake3_hex(x.packets@[i].bytes@) && p.packets[i].hash == x.packets@[i].blake3@ by {
        assert(outside::blake3_hex(x.packets@[i].bytes@) == x.packets@[i].blake3@);
    }
    assert forall|i: int| 0 <= i < n implies (#[trigger] p.models[i]).hash == outside::blake3_hex(
        x.parse_inputs@[i].bytes@,
    ) && p.models[i].hash == x.parse_inputs@[i].blake3@ && !(x.parse_inputs@[i].reading is Limited)
        && !(x.parse_inputs@[i].reading is Unclear) by {
        assert(p.models[i] == prepared::input_model(x, i));
        assert(outside::blake3_hex(x.parse_inputs@[i].bytes@) == x.parse_inputs@[i].blake3@);
    }
}

/// An input that stands for itself offers the values that it was read as, all of them, or none
/// with the reason why it could not be read. A portion of an extended packet, and a main packet
/// that says there is more of it, offer no values of their own and say so.
pub proof fn law_only_whole_inputs_offer_values(
    x: Inspection,
    source: store::SourceRequest,
    p: PreparedObservation,
    i: int,
)
    requires
        prepared::prepare_outcome(x, source) == Ok::<PreparedObservation, CatalogError>(p),
        0 <= i < x.parse_inputs@.len(),
    ensures
        is_portion(x, i) || says_more(x, i) ==> p.models[i].fields.len() == 0 && p.models[i].error
            is Some,
        !is_portion(x, i) && !says_more(x, i) ==> match x.parse_inputs@[i].reading {
            Reading::Projected(projected) => p.models[i].fields == support::models(
                projected.fields@,
            ) && p.models[i].error is None && p.models[i].flawed == projected.flawed,
            Reading::Failed(reason) => p.models[i].fields.len() == 0 && p.models[i].error == Some(
                reason@,
            ),
            _ => false,
        },
{
    law_found_files_are_prepared_whole(x, source, p);
    assert(p.models[i] == prepared::input_model(x, i));
    assert(p.models[i].hash == p.models[i].hash);
    assert(x.is_main(i) <==> holds_main(x, i)) by {
        if x.is_main(i) {
            let k = choose|k: int|
                0 <= k < x.parse_inputs@[i].packet_indices@.len() && (
                #[trigger] x.parse_inputs@[i].packet_indices@[k]) < x.packets@.len()
                    && x.packets@[x.parse_inputs@[i].packet_indices@[k] as int].container@
                    == "JpegMain"@;
            assert(x.parse_inputs@[i].packet_indices@[k] < x.packets@.len());
        }
        if holds_main(x, i) {
            let k = choose|k: int|
                0 <= k < x.parse_inputs@[i].packet_indices@.len() && (
                #[trigger] x.parse_inputs@[i].packet_indices@[k]) < x.packets@.len()
                    && x.packets@[x.parse_inputs@[i].packet_indices@[k] as int].container@
                    == "JpegMain"@;
            assert(x.parse_inputs@[i].packet_indices@[k] < x.packets@.len());
        }
    }
}

/// The group of the extended packet that a main packet of a group names: the same up to the mark
/// of a main packet, and from there on the mark of an extended one and the name in capitals.
pub open spec fn names_group(group: Seq<char>, guid: Seq<char>, other: Seq<char>) -> bool {
    exists|n: int| #[trigger] marks_main(group, n) && other == group.take(n) + ":extended:"@
        + guid.map_values(
        |c: char|
            if 'a' <= c && c <= 'z' {
                ((c as u32) - 32) as char
            } else {
                c
            },
    )
}

/// The first mark of a main packet in a group is at a place, or at its end where there is none.
pub open spec fn marks_main(group: Seq<char>, n: int) -> bool {
    &&& 0 <= n <= group.len()
    &&& n < group.len() ==> n + ":main:"@.len() <= group.len() && group.subrange(
        n,
        n + ":main:"@.len(),
    ) == ":main:"@
    &&& forall|k: int|
        0 <= k < n && k + ":main:"@.len() <= group.len() ==> #[trigger] group.subrange(
            k,
            k + ":main:"@.len(),
        ) != ":main:"@
}

proof fn lemma_before(s: Seq<char>, mark: Seq<char>) -> (n: int)
    ensures
        0 <= n <= s.len(),
        prepared::before_mark(s, mark) == s.take(n),
        n < s.len() ==> n + mark.len() <= s.len() && s.subrange(n, n + mark.len()) == mark,
        forall|k: int|
            0 <= k < n && k + mark.len() <= s.len() ==> #[trigger] s.subrange(k, k + mark.len())
                != mark,
    decreases s.len(),
{
    if s.len() == 0 || prepared::marked(s, mark, 0) {
        assert(s.take(0) =~= Seq::empty());
        0
    } else {
        let t = s.skip(1);
        let n = lemma_before(t, mark);
        assert(prepared::before_mark(s, mark) =~= s.take(n + 1));
        if n < t.len() {
            assert(t.subrange(n, n + mark.len()) =~= s.subrange(n + 1, n + 1 + mark.len()));
        }
        assert forall|k: int| 0 <= k < n + 1 && k + mark.len() <= s.len() implies #[trigger] s.subrange(
            k,
            k + mark.len(),
        ) != mark by {
            if k > 0 {
                assert(t.subrange(k - 1, k - 1 + mark.len()) =~= s.subrange(k, k + mark.len()));
            }
        }
        n + 1
    }
}

/// A main packet is joined with an extended one by the group that it names, which is the main
/// packet's own group with the name of the extended packet in capitals.
pub proof fn law_extended_packets_are_found_by_their_group(
    group: Seq<char>,
    guid: Seq<char>,
)
    ensures
        names_group(group, guid, prepared::extended_group(group, guid)),
{
    let n = lemma_before(group, ":main:"@);
    assert(marks_main(group, n));
    let up = |c: char|
        if 'a' <= c && c <= 'z' {
            ((c as u32) - 32) as char
        } else {
            c
        };
    assert(guid.map_values(|c: char| prepared::uppercase(c)) =~= guid.map_values(up));
}

/// A main packet that says there is more of it, where exactly one extended packet is of the
/// group that it names, offers what the two were merged into.
pub proof fn law_joined_packets_offer_what_they_were_merged_into(
    x: Inspection,
    source: store::SourceRequest,
    p: PreparedObservation,
    i: int,
    j: usize,
    guid: Seq<char>,
)
    requires
        prepared::prepare_outcome(x, source) == Ok::<PreparedObservation, CatalogError>(p),
        0 <= i < x.parse_inputs@.len(),
        j < x.parse_inputs@.len(),
        holds_main(x, i),
        x.parse_inputs@[i].extended matches Declared::Extended(name) && name@ == guid,
        is_portion(x, j as int),
        x.parse_inputs@[j as int].group@ == prepared::extended_group(x.parse_inputs@[i].group@, guid),
        forall|k: int|
            0 <= k < x.parse_inputs@.len() && k != j && is_portion(x, k) ==> (
            #[trigger] x.parse_inputs@[k]).group@ != prepared::extended_group(
                x.parse_inputs@[i].group@,
                guid,
            ),
        x.parse_inputs@[i].merge matches Some(Merge::Merged { .. }),
    ensures
        exists|k: int|
            x.parse_inputs@.len() <= k < p.models.len() && #[trigger] gives_merged(
                p.models[k],
                x,
                i,
            ),
{
    let n = x.parse_inputs@.len();
    lemma_merged(x, n);
    let k0 = choose|k: int|
        0 <= k < x.parse_inputs@[i].packet_indices@.len() && (
        #[trigger] x.parse_inputs@[i].packet_indices@[k]) < x.packets@.len()
            && x.packets@[x.parse_inputs@[i].packet_indices@[k] as int].container@ == "JpegMain"@;
    assert(x.parse_inputs@[i].packet_indices@[k0] < x.packets@.len());
    assert(x.is_main(i));
    assert(x.extends(i, j));
    assert forall|k: usize| #[trigger] x.extends(i, k) implies k == j by {
        if k != j {
            assert(x.parse_inputs@[k as int].group@ != prepared::extended_group(
                x.parse_inputs@[i].group@,
                guid,
            ));
        }
    }
    assert(x.only_extension(i, j));
    assert(x.association(i) is Joined);
    let merged = prepared::merged_models(x, n)->Ok_0.1;
    assert(x.parse_inputs@[i].merge is Some);
    assert(is_merged_model(merged, x, i));
    let k = choose|k: int| 0 <= k < merged.len() && #[trigger] gives_merged(merged[k], x, i);
    assert(p.models[n + k] == merged[k]);
    assert(gives_merged(p.models[n + k], x, i));
}

} // verus!

//! What the storage of a prepared observation is counted from: everything that is kept is counted,
//! and each part once.
use crate::catalog_metadata::documents;
use crate::catalog_metadata::prepared::Inspection;
use crate::catalog_metadata::storage;
use crate::catalog_metadata::store;
use crate::support;
use vstd::prelude::*;

verus! {

/// A compressed stream is counted with the bytes that it may grow by: one for every 4096, one for
/// every 16384 and one for every 33554432 whole bytes, and its wrapper.
pub proof fn law_streams_are_counted_with_their_growth(bytes: nat, small: nat, middle: nat, large: nat)
    requires
        small * 4096 <= bytes < small * 4096 + 4096,
        middle * 16384 <= bytes < middle * 16384 + 16384,
        large * 33554432 <= bytes < large * 33554432 + 33554432,
    ensures
        storage::zlib_most(bytes) == bytes + small + middle + large + 13,
{
}

/// The bytes of the first packets, their wrappers, their descriptors and their two digests.
pub open spec fn packets_kept(x: Inspection, n: nat) -> nat
    decreases n,
{
    if n == 0 {
        0
    } else {
        packets_kept(x, (n - 1) as nat) + x.packets@[n - 1].bytes@.len() + 13 + 128
            + support::byte_length(documents::packet_document(x.packets@[n - 1]))
    }
}

/// The bytes of the first inputs, their wrappers, their descriptors, their two digests, what they
/// may say twice over, and a diagnostic.
pub open spec fn inputs_kept(x: Inspection, n: nat) -> nat
    decreases n,
{
    if n == 0 {
        0
    } else {
        inputs_kept(x, (n - 1) as nat) + x.parse_inputs@[n - 1].bytes@.len() + 13 + 128 + 84
            + support::byte_length(documents::input_document(x.parse_inputs@[n - 1])) + 2
            * x.parse_inputs@[n - 1].text_bound as nat
    }
}

/// Every packet and every input is too short for its stream to grow.
pub open spec fn is_short(x: Inspection) -> bool {
    &&& forall|i: int| 0 <= i < x.packets@.len() ==> (#[trigger] x.packets@[i]).bytes@.len() < 4096
    &&& forall|i: int|
        0 <= i < x.parse_inputs@.len() ==> (#[trigger] x.parse_inputs@[i]).bytes@.len() < 4096
}

proof fn lemma_packets(x: Inspection, n: nat)
    requires
        n <= x.packets@.len(),
    ensures
        storage::streams_most(x, n, 0) + storage::packet_descriptors(x, n) + 128 * n >= packets_kept(
            x,
            n,
        ),
        is_short(x) ==> storage::streams_most(x, n, 0) + storage::packet_descriptors(x, n) + 128 * n
            == packets_kept(x, n),
    decreases n,
{
    if n > 0 {
        lemma_packets(x, (n - 1) as nat);
        let length = x.packets@[n - 1].bytes@.len();
        assert(storage::zlib_most(length) >= length + 13);
        if is_short(x) {
            assert(x.packets@[n - 1].bytes@.len() < 4096);
            assert(storage::zlib_most(length) == length + 13);
        }
    }
}

proof fn lemma_inputs(x: Inspection, n: nat)
    requires
        n <= x.parse_inputs@.len(),
    ensures
        ({
            let packets = x.packets@.len();
            let counted = storage::streams_most(x, packets, n) + storage::input_descriptors(x, n) + 2
                * storage::texts_most(x, n) + 212 * n;
            &&& counted >= storage::streams_most(x, packets, 0) + inputs_kept(x, n)
            &&& is_short(x) ==> counted == storage::streams_most(x, packets, 0) + inputs_kept(x, n)
        }),
    decreases n,
{
    if n > 0 {
        lemma_inputs(x, (n - 1) as nat);
        let length = x.parse_inputs@[n - 1].bytes@.len();
        assert(storage::zlib_most(length) >= length + 13);
        if is_short(x) {
            assert(x.parse_inputs@[n - 1].bytes@.len() < 4096);
            assert(storage::zlib_most(length) == length + 13);
        }
    }
}

/// The storage that is counted covers every packet and every input with its descriptor and its
/// digests, a model of every input, the issues, the provenance, the digests of the observation and
/// what holds it all. Where nothing is extended and no stream grows it is exactly that.
pub proof fn law_storage_covers_what_is_kept(
    x: Inspection,
    source: store::SourceRequest,
    model_bytes: nat,
    container_bytes: nat,
)
    ensures
        ({
            let counted = storage::storage_most(x, source, model_bytes, container_bytes);
            let kept = packets_kept(x, x.packets@.len()) + inputs_kept(x, x.parse_inputs@.len())
                + x.parse_inputs@.len() * model_bytes + container_bytes + 128
                + support::byte_length(x.issues@) + support::byte_length(
                documents::provenance_document(x, source),
            );
            &&& counted >= kept
            &&& is_short(x) && !(exists|j: int|
                0 <= j < x.parse_inputs@.len() && storage::is_extension(x, j)) ==> counted == kept
        }),
{
    let packets = x.packets@.len();
    let inputs = x.parse_inputs@.len();
    lemma_packets(x, packets);
    lemma_inputs(x, inputs);
    let merged = storage::merged_most(x);
    let most = storage::zlib_most(crate::catalog_metadata::prepared::MAX_PACKET_BYTES as nat);
    assert(merged.0 * most >= 0) by (nonlinear_arith);
    assert(storage::models_most(x) * model_bytes == inputs * model_bytes + merged.0 * model_bytes)
        by (nonlinear_arith)
        requires
            storage::models_most(x) == inputs + merged.0,
    ;
    assert(merged.0 * model_bytes >= 0) by (nonlinear_arith);
    if merged.0 == 0 {
        assert(merged.0 * most == 0) by (nonlinear_arith)
            requires
                merged.0 == 0,
        ;
        assert(merged.0 * model_bytes == 0) by (nonlinear_arith)
            requires
                merged.0 == 0,
        ;
    }
}

/// Each model takes up what a model takes up, and what holds them all is counted once: one more
/// byte of a model is counted for every input, and one more byte of what holds them once.
pub proof fn law_storage_grows_with_its_parts(
    x: Inspection,
    source: store::SourceRequest,
    model_bytes: nat,
    container_bytes: nat,
)
    ensures
        storage::storage_most(x, source, model_bytes, container_bytes) == storage::storage_most(
            x,
            source,
            model_bytes,
            0,
        ) + container_bytes,
        storage::storage_most(x, source, model_bytes + 1, container_bytes)
            >= storage::storage_most(x, source, model_bytes, container_bytes)
            + x.parse_inputs@.len(),
        storage::storage_most(x, source, model_bytes + 1, container_bytes)
            <= storage::storage_most(x, source, model_bytes, container_bytes) + 2
            * x.parse_inputs@.len(),
{
    let models = storage::models_most(x);
    assert(models * (model_bytes + 1) == models * model_bytes + models) by (nonlinear_arith);
    lemma_mains(x, x.parse_inputs@.len());
}

proof fn lemma_mains(x: Inspection, n: nat)
    ensures
        storage::mains(x, n) <= n,
    decreases n,
{
    if n > 0 {
        lemma_mains(x, (n - 1) as nat);
    }
}

} // verus!

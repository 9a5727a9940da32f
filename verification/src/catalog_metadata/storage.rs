//! How much storage a prepared observation takes up at most, counted before any
//! of it is made.
use crate::catalog_metadata::documents;
use crate::catalog_metadata::documents::{describe_input, describe_packet, describe_provenance};
use crate::catalog_metadata::prepared;
use crate::catalog_metadata::prepared::{
    Inspection, Prepared, Source, MAX_PACKETS, MAX_PACKET_BYTES,
};
use crate::catalog_metadata::store;
use crate::error::CatalogError;
use crate::support;
use crate::support::byte_len;
use vstd::prelude::*;

verus! {

/// The bytes of a merged model's descriptor without its numbers and its identity:
/// `{"derived_from_inputs":[,],"guid":"","packet_indices":[],"transformation":"JpegMainAndExtendedMerged"}`.
pub const MERGED_DESCRIPTOR_BYTES: u128 = 102;

/// The bytes of the longest diagnostic that a model is given.
pub const DIAGNOSTIC_BYTES: u128 = 84;

/// The bytes of a digest's text.
pub const DIGEST_BYTES: u128 = 64;

/// The most bytes that a character of a text takes up in a document.
pub const ESCAPED_BYTES: u128 = 6;

/// The most bytes that a zlib stream of so many bytes takes up, with its wrapper.
pub open spec fn zlib_most(bytes: nat) -> nat {
    bytes + bytes / 4096 + bytes / 16384 + bytes / 33554432 + 13
}

/// The most bytes that a zlib stream of so many bytes takes up, if that is a
/// size.
pub fn zlib_bound(bytes: usize) -> (r: Option<usize>)
    ensures
        match r {
            Some(n) => n == zlib_most(bytes as nat),
            None => zlib_most(bytes as nat) > usize::MAX,
        },
{
    let total: u128 = zlib_total(bytes);
    if total <= usize::MAX as u128 {
        Some(total as usize)
    } else {
        None
    }
}

fn zlib_total(bytes: usize) -> (n: u128)
    ensures
        n == zlib_most(bytes as nat),
        n <= 2 * bytes + 13,
{
    let b: u128 = bytes as u128;
    b + b / 4096 + b / 16384 + b / 33554432 + 13
}

/// The number of decimal digits of a number.
pub open spec fn decimal_length(n: nat) -> nat
    decreases n,
{
    if n < 10 {
        1
    } else {
        1 + decimal_length(n / 10)
    }
}

spec fn ten_to(k: nat) -> nat
    decreases k,
{
    if k == 0 {
        1
    } else {
        10 * ten_to((k - 1) as nat)
    }
}

proof fn lemma_decimal_length(n: nat, k: nat)
    requires
        0 < k,
        n < ten_to(k),
    ensures
        decimal_length(n) <= k,
    decreases k,
{
    if n >= 10 {
        assert(k > 1) by {
            reveal_with_fuel(ten_to, 2);
        }
        lemma_decimal_length(n / 10, (k - 1) as nat);
    }
}

fn decimal_digits(n: usize) -> (d: u128)
    ensures
        d == decimal_length(n as nat),
        1 <= d <= 20,
{
    proof {
        reveal_with_fuel(ten_to, 21);
        lemma_decimal_length(n as nat, 20);
    }
    let mut rest: usize = n;
    let mut d: u128 = 1;
    while rest >= 10
        invariant
            d + decimal_length(rest as nat) == decimal_length(n as nat) + 1,
            1 <= d,
            decimal_length(n as nat) <= 20,
        decreases rest,
    {
        rest = rest / 10;
        d += 1;
    }
    d
}

/// The digits of numbers taken together.
pub open spec fn digits(indices: Seq<usize>) -> nat
    decreases indices.len(),
{
    if indices.len() == 0 {
        0
    } else {
        digits(indices.drop_last()) + decimal_length(indices.last() as nat)
    }
}

/// The bytes of two lists of numbers written as one, with a comma between any two.
pub open spec fn listed(first: Seq<usize>, second: Seq<usize>) -> nat {
    let n = first.len() + second.len();
    digits(first) + digits(second) + if n == 0 {
        0
    } else {
        (n - 1) as nat
    }
}

/// The bytes of the descriptor of the model merged from two inputs, without its
/// identity.
pub open spec fn descriptor_length(inspection: Inspection, i: int, j: int) -> nat {
    MERGED_DESCRIPTOR_BYTES as nat + decimal_length(i as nat) + decimal_length(j as nat) + listed(
        inspection.parse_inputs@[i].packet_indices@,
        inspection.parse_inputs@[j].packet_indices@,
    )
}

/// An input holds an extended packet.
pub open spec fn is_extension(inspection: Inspection, j: int) -> bool {
    inspection.parse_inputs@[j].is_extension()
}

/// The longest descriptor of a model merged from an input and one of the first `n`
/// inputs.
pub open spec fn longest_descriptor(inspection: Inspection, i: int, n: nat) -> nat
    decreases n,
{
    if n == 0 {
        0
    } else {
        let before = longest_descriptor(inspection, i, (n - 1) as nat);
        if is_extension(inspection, n - 1) && descriptor_length(inspection, i, n - 1) > before {
            descriptor_length(inspection, i, n - 1)
        } else {
            before
        }
    }
}

/// The main packets among the first `n` inputs.
pub open spec fn mains(inspection: Inspection, n: nat) -> nat
    decreases n,
{
    if n == 0 {
        0
    } else if inspection.is_main(n - 1) {
        mains(inspection, (n - 1) as nat) + 1
    } else {
        mains(inspection, (n - 1) as nat)
    }
}

/// The bytes of the descriptors of all models that the first `n` inputs could be
/// merged into.
pub open spec fn descriptors(inspection: Inspection, n: nat) -> nat
    decreases n,
{
    if n == 0 {
        0
    } else if inspection.is_main(n - 1) {
        descriptors(inspection, (n - 1) as nat) + longest_descriptor(
            inspection,
            n - 1,
            inspection.parse_inputs@.len(),
        ) + ESCAPED_BYTES as nat * inspection.parse_inputs@[n - 1].text_bound as nat
    } else {
        descriptors(inspection, (n - 1) as nat)
    }
}

/// Some input holds an extended packet.
pub open spec fn has_extension(inspection: Inspection) -> bool {
    exists|j: int| 0 <= j < inspection.parse_inputs@.len() && #[trigger] is_extension(inspection, j)
}

/// How many models could be merged, and the bytes of their descriptors.
pub open spec fn merged_most(inspection: Inspection) -> (nat, nat) {
    if has_extension(inspection) {
        (
            mains(inspection, inspection.parse_inputs@.len()),
            descriptors(inspection, inspection.parse_inputs@.len()),
        )
    } else {
        (0, 0)
    }
}

fn digits_total(indices: &Vec<usize>) -> (n: u128)
    ensures
        n == digits(indices@),
        n <= 20 * indices@.len(),
{
    let mut n: u128 = 0;
    let mut i: usize = 0;
    while i < indices.len()
        invariant
            i <= indices@.len(),
            n == digits(indices@.take(i as int)),
            n <= 20 * i,
        decreases indices@.len() - i,
    {
        let d: u128 = decimal_digits(indices[i]);
        proof {
            assert(indices@.take(i + 1).drop_last() =~= indices@.take(i as int));
        }
        n += d;
        i += 1;
    }
    assert(indices@.take(i as int) =~= indices@);
    n
}

/// More bytes than any one descriptor takes up.
spec fn descriptor_limit() -> nat {
    200 + 42 * usize::MAX as nat
}

fn find_descriptor_length(inspection: &Inspection, i: usize, j: usize) -> (n: u128)
    requires
        i < inspection.parse_inputs@.len(),
        j < inspection.parse_inputs@.len(),
    ensures
        n == descriptor_length(*inspection, i as int, j as int),
        n <= descriptor_limit(),
{
    let first = &inspection.parse_inputs[i].packet_indices;
    let second = &inspection.parse_inputs[j].packet_indices;
    let count: u128 = first.len() as u128 + second.len() as u128;
    let commas: u128 = if count == 0 {
        0
    } else {
        count - 1
    };
    MERGED_DESCRIPTOR_BYTES + decimal_digits(i) + decimal_digits(j) + digits_total(first)
        + digits_total(second) + commas
}

fn find_longest_descriptor(inspection: &Inspection, i: usize) -> (n: u128)
    requires
        i < inspection.parse_inputs@.len(),
    ensures
        n == longest_descriptor(*inspection, i as int, inspection.parse_inputs@.len()),
        n <= descriptor_limit(),
{
    let mut n: u128 = 0;
    let mut j: usize = 0;
    while j < inspection.parse_inputs.len()
        invariant
            i < inspection.parse_inputs@.len(),
            j <= inspection.parse_inputs@.len(),
            n == longest_descriptor(*inspection, i as int, j as nat),
            n <= descriptor_limit(),
        decreases inspection.parse_inputs@.len() - j,
    {
        if inspection.parse_inputs[j].extends_another() {
            let length: u128 = find_descriptor_length(inspection, i, j);
            if length > n {
                n = length;
            }
        }
        j += 1;
    }
    n
}

fn find_merged_most(inspection: &Inspection) -> (r: (u128, u128))
    requires
        inspection.parse_inputs@.len() <= MAX_PACKETS,
    ensures
        (r.0 as nat, r.1 as nat) == merged_most(*inspection),
        r.0 <= inspection.parse_inputs@.len(),
        r.1 <= inspection.parse_inputs@.len() * (descriptor_limit() + 6 * usize::MAX),
{
    let mut extended: bool = false;
    let mut j: usize = 0;
    while j < inspection.parse_inputs.len() && !extended
        invariant
            j <= inspection.parse_inputs@.len(),
            extended ==> has_extension(*inspection),
            !extended ==> forall|k: int| 0 <= k < j ==> !#[trigger] is_extension(*inspection, k),
        decreases inspection.parse_inputs@.len() - j, !extended as int,
    {
        if inspection.parse_inputs[j].extends_another() {
            assert(is_extension(*inspection, j as int));
            extended = true;
        } else {
            assert(!is_extension(*inspection, j as int));
            j += 1;
        }
    }
    if !extended {
        return (0, 0);
    }
    let mut count: u128 = 0;
    let mut bytes: u128 = 0;
    let mut i: usize = 0;
    while i < inspection.parse_inputs.len()
        invariant
            i <= inspection.parse_inputs@.len() <= MAX_PACKETS,
            count == mains(*inspection, i as nat),
            bytes == descriptors(*inspection, i as nat),
            count <= i,
            bytes <= i * (descriptor_limit() + 6 * usize::MAX),
        decreases inspection.parse_inputs@.len() - i,
    {
        proof {
            let each = descriptor_limit() + 6 * usize::MAX;
            assert((i + 1) * each == i * each + each) by (nonlinear_arith);
            assert(i * each <= 1024 * each) by (nonlinear_arith)
                requires
                    0 <= i <= 1024,
                    0 <= each,
            ;
        }
        if inspection.holds_main(i) {
            count += 1;
            bytes = bytes + find_longest_descriptor(inspection, i) + ESCAPED_BYTES
                * inspection.parse_inputs[i].text_bound as u128;
        }
        i += 1;
    }
    (count, bytes)
}

/// How many models could be merged, and the bytes of their descriptors, if those
/// are sizes.
pub fn merged_descriptor_storage(inspection: &Inspection) -> (r: Result<
    (usize, usize),
    CatalogError,
>)
    ensures
        match r {
            Ok((count, bytes)) => inspection.admissible() is Ok && (count as nat, bytes as nat)
                == merged_most(*inspection),
            Err(e) => if inspection.admissible() is Err {
                inspection.admissible() == Err::<(), CatalogError>(e)
            } else {
                merged_most(*inspection).1 > usize::MAX && e == CatalogError::Exhausted
            },
        },
{
    match inspection.check_sizes() {
        Err(e) => return Err(e),
        Ok(()) => {},
    }
    let (count, bytes) = find_merged_most(inspection);
    if bytes > usize::MAX as u128 {
        return Err(CatalogError::Exhausted);
    }
    Ok((count as usize, bytes as usize))
}

/// The streams of the packets and inputs of an observation, at most.
pub open spec fn streams_most(inspection: Inspection, packets: nat, inputs: nat) -> nat
    decreases packets, inputs,
{
    if inputs > 0 {
        streams_most(inspection, packets, (inputs - 1) as nat) + zlib_most(
            inspection.parse_inputs@[inputs - 1].bytes@.len(),
        )
    } else if packets > 0 {
        streams_most(inspection, (packets - 1) as nat, 0) + zlib_most(
            inspection.packets@[packets - 1].bytes@.len(),
        )
    } else {
        0
    }
}

/// The descriptors of the first packets.
pub open spec fn packet_descriptors(inspection: Inspection, n: nat) -> nat
    decreases n,
{
    if n == 0 {
        0
    } else {
        packet_descriptors(inspection, (n - 1) as nat) + support::byte_length(
            documents::packet_document(inspection.packets@[n - 1]),
        )
    }
}

/// The descriptors of the first inputs.
pub open spec fn input_descriptors(inspection: Inspection, n: nat) -> nat
    decreases n,
{
    if n == 0 {
        0
    } else {
        input_descriptors(inspection, (n - 1) as nat) + support::byte_length(
            documents::input_document(inspection.parse_inputs@[n - 1]),
        )
    }
}

/// The texts of the first inputs, at most.
pub open spec fn texts_most(inspection: Inspection, n: nat) -> nat
    decreases n,
{
    if n == 0 {
        0
    } else {
        texts_most(inspection, (n - 1) as nat) + inspection.parse_inputs@[n - 1].text_bound as nat
    }
}

/// The models that an observation could have.
pub open spec fn models_most(inspection: Inspection) -> nat {
    inspection.parse_inputs@.len() + merged_most(inspection).0
}

/// The blobs that an observation could have.
pub open spec fn blobs_most(inspection: Inspection) -> nat {
    inspection.packets@.len() + inspection.parse_inputs@.len() + merged_most(inspection).0
}

/// The bytes that a prepared observation takes up at most, where one model takes
/// up `model_bytes` and all vectors and trees `container_bytes`.
pub open spec fn storage_most(
    inspection: Inspection,
    source: store::SourceRequest,
    model_bytes: nat,
    container_bytes: nat,
) -> nat {
    let packets = inspection.packets@.len();
    let inputs = inspection.parse_inputs@.len();
    let merged = merged_most(inspection);
    streams_most(inspection, packets, inputs) + merged.0 * zlib_most(MAX_PACKET_BYTES as nat)
        + models_most(inspection) * model_bytes + container_bytes + 64 * (blobs_most(inspection)
        + packets + models_most(inspection) + 2) + packet_descriptors(inspection, packets)
        + input_descriptors(inspection, inputs) + merged.1 + support::byte_length(
        inspection.issues@,
    ) + support::byte_length(
        documents::provenance_document(inspection, source),
    ) + 2 * texts_most(inspection, inputs)
        + models_most(inspection) * DIAGNOSTIC_BYTES as nat
}

fn find_streams_most(inspection: &Inspection) -> (n: u128)
    requires
        inspection.packets@.len() <= MAX_PACKETS,
        inspection.parse_inputs@.len() <= MAX_PACKETS,
    ensures
        n == streams_most(*inspection, inspection.packets@.len(), inspection.parse_inputs@.len()),
        n <= 2048 * (2 * usize::MAX + 13),
{
    let mut n: u128 = 0;
    let mut i: usize = 0;
    while i < inspection.packets.len()
        invariant
            i <= inspection.packets@.len() <= MAX_PACKETS,
            n == streams_most(*inspection, i as nat, 0),
            n <= i * (2 * usize::MAX + 13),
        decreases inspection.packets@.len() - i,
    {
        proof {
            let each = 2 * usize::MAX + 13;
            assert((i + 1) * each == i * each + each) by (nonlinear_arith);
            assert(i * each <= 1024 * each) by (nonlinear_arith)
                requires
                    0 <= i <= 1024,
                    0 <= each,
            ;
        }
        n += zlib_total(inspection.packets[i].bytes.len());
        i += 1;
    }
    let ghost start = n;
    let mut k: usize = 0;
    proof {
        let each = 2 * usize::MAX + 13;
        assert(i * each <= 1024 * each) by (nonlinear_arith)
            requires
                0 <= i <= 1024,
                0 <= each,
        ;
    }
    while k < inspection.parse_inputs.len()
        invariant
            k <= inspection.parse_inputs@.len() <= MAX_PACKETS,
            n == streams_most(*inspection, inspection.packets@.len(), k as nat),
            start <= 1024 * (2 * usize::MAX + 13),
            n <= start + k * (2 * usize::MAX + 13),
        decreases inspection.parse_inputs@.len() - k,
    {
        proof {
            let each = 2 * usize::MAX + 13;
            assert((k + 1) * each == k * each + each) by (nonlinear_arith);
            assert(k * each <= 1024 * each) by (nonlinear_arith)
                requires
                    0 <= k <= 1024,
                    0 <= each,
            ;
        }
        n += zlib_total(inspection.parse_inputs[k].bytes.len());
        k += 1;
    }
    proof {
        let each = 2 * usize::MAX + 13;
        assert(k * each <= 1024 * each) by (nonlinear_arith)
            requires
                0 <= k <= 1024,
                0 <= each,
        ;
    }
    n
}

fn find_descriptors(inspection: &Inspection) -> (r: (u128, u128, u128))
    requires
        inspection.packets@.len() <= MAX_PACKETS,
        inspection.parse_inputs@.len() <= MAX_PACKETS,
    ensures
        r.0 == packet_descriptors(*inspection, inspection.packets@.len()),
        r.1 == input_descriptors(*inspection, inspection.parse_inputs@.len()),
        r.2 == texts_most(*inspection, inspection.parse_inputs@.len()),
        r.0 <= 1024 * usize::MAX,
        r.1 <= 1024 * usize::MAX,
        r.2 <= 1024 * usize::MAX,
{
    let mut packets: u128 = 0;
    let mut i: usize = 0;
    while i < inspection.packets.len()
        invariant
            i <= inspection.packets@.len() <= MAX_PACKETS,
            packets == packet_descriptors(*inspection, i as nat),
            packets <= i * usize::MAX,
        decreases inspection.packets@.len() - i,
    {
        proof {
            lemma_product(i as nat);
        }
        packets += byte_len(describe_packet(&inspection.packets[i]).as_str()) as u128;
        i += 1;
    }
    proof {
        lemma_product(i as nat);
    }
    let mut inputs: u128 = 0;
    let mut texts: u128 = 0;
    let mut k: usize = 0;
    while k < inspection.parse_inputs.len()
        invariant
            k <= inspection.parse_inputs@.len() <= MAX_PACKETS,
            inputs == input_descriptors(*inspection, k as nat),
            inputs <= k * usize::MAX,
            texts == texts_most(*inspection, k as nat),
            texts <= k * usize::MAX,
        decreases inspection.parse_inputs@.len() - k,
    {
        proof {
            lemma_product(k as nat);
        }
        inputs += byte_len(describe_input(&inspection.parse_inputs[k]).as_str()) as u128;
        texts += inspection.parse_inputs[k].text_bound as u128;
        k += 1;
    }
    proof {
        lemma_product(k as nat);
    }
    (packets, inputs, texts)
}

proof fn lemma_product(i: nat)
    requires
        i <= 1024,
    ensures
        (i + 1) * usize::MAX == i * usize::MAX + usize::MAX,
        i * usize::MAX <= 1024 * usize::MAX,
{
    assert((i + 1) * usize::MAX == i * usize::MAX + usize::MAX) by (nonlinear_arith);
    assert(i * usize::MAX <= 1024 * usize::MAX) by (nonlinear_arith)
        requires
            i <= 1024,
    ;
}

/// How many models and blobs an observation could have.
pub fn prepared_counts(inspection: &Inspection) -> (r: Result<(usize, usize), CatalogError>)
    ensures
        match r {
            Ok((models, blobs)) => inspection.admissible() is Ok && models == models_most(
                *inspection,
            ) && blobs == blobs_most(*inspection),
            Err(e) => inspection.admissible() == Err::<(), CatalogError>(e),
        },
{
    match inspection.check_sizes() {
        Err(e) => return Err(e),
        Ok(()) => {},
    }
    let (merged, _) = find_merged_most(inspection);
    let inputs: usize = inspection.parse_inputs.len();
    Ok((inputs + merged as usize, inspection.packets.len() + inputs + merged as usize))
}

/// The bytes that a prepared observation takes up at most, if that is a size. It
/// is known before any of it is kept: each document is measured by itself.
pub fn prepared_storage(inspection: &Inspection, source: &Source, model_bytes: usize, container_bytes: usize) -> (r:
    Result<usize, CatalogError>)
    ensures
        match r {
            Ok(n) => inspection.admissible() is Ok && n == storage_most(
                *inspection,
                source@,
                model_bytes as nat,
                container_bytes as nat,
            ),
            Err(e) => if inspection.admissible() is Err {
                inspection.admissible() == Err::<(), CatalogError>(e)
            } else {
                storage_most(*inspection, source@, model_bytes as nat, container_bytes as nat) > usize::MAX
                    && e == CatalogError::Exhausted
            },
        },
{
    match inspection.check_sizes() {
        Err(e) => return Err(e),
        Ok(()) => {},
    }
    let (merged, merged_bytes) = find_merged_most(inspection);
    let packets: u128 = inspection.packets.len() as u128;
    let models: u128 = inspection.parse_inputs.len() as u128 + merged;
    let blobs: u128 = packets + models;
    let streams: u128 = find_streams_most(inspection);
    let (packet_texts, input_texts, texts) = find_descriptors(inspection);
    let widest: u128 = zlib_total(MAX_PACKET_BYTES);
    proof {
        let each = descriptor_limit() + 6 * usize::MAX;
        let n = inspection.parse_inputs@.len();
        assert(n * each <= 1024 * each) by (nonlinear_arith)
            requires
                n <= 1024,
                0 <= each,
        ;
        assert(merged * widest <= 1024 * widest) by (nonlinear_arith)
            requires
                merged <= 1024,
        ;
        assert(models * model_bytes <= 2048 * model_bytes) by (nonlinear_arith)
            requires
                models <= 2048,
        ;
    }
    let total: u128 = streams + merged * widest + models * (model_bytes as u128) + (
    container_bytes as u128) + DIGEST_BYTES * (blobs + packets + models + 2) + packet_texts
        + input_texts + merged_bytes + (byte_len(inspection.issues.as_str()) as u128) + (byte_len(
        describe_provenance(inspection, source).as_str(),
    ) as u128) + 2 * texts + models * DIAGNOSTIC_BYTES;
    if total > usize::MAX as u128 {
        return Err(CatalogError::Exhausted);
    }
    Ok(total as usize)
}

/// Why an observation is not prepared.
pub enum Refusal {
    Catalog(CatalogError),
    /// It, or interpreting an input of it, could take up more bytes than there are.
    ResourceLimit { required: usize, available: usize },
}

impl Prepared {
    /// Digests and compresses what was found in a file, unless the result could take
    /// up more bytes than there are. Nothing of it is made before that is known.
    pub fn new_admitted(
        inspection: &Inspection,
        source: &Source,
        model_bytes: usize,
        container_bytes: usize,
        available: usize,
    ) -> (r: Result<Prepared, Refusal>)
        ensures
            ({
                let required = storage_most(
                    *inspection,
                    source@,
                    model_bytes as nat,
                    container_bytes as nat,
                );
                if inspection.admissible() is Err {
                    r == Err::<Prepared, Refusal>(
                        Refusal::Catalog(inspection.admissible()->Err_0),
                    )
                } else if required > usize::MAX {
                    r == Err::<Prepared, Refusal>(Refusal::Catalog(CatalogError::Exhausted))
                } else if required > available {
                    r == Err::<Prepared, Refusal>(
                        Refusal::ResourceLimit { required: required as usize, available },
                    )
                } else {
                    match prepared::prepare_outcome(*inspection, source@) {
                        Ok(made) => r matches Ok(p) && p@ == made,
                        Err(CatalogError::ResourceLimit { required, available }) => r == Err::<
                            Prepared,
                            Refusal,
                        >(Refusal::ResourceLimit { required, available }),
                        Err(e) => r == Err::<Prepared, Refusal>(Refusal::Catalog(e)),
                    }
                }
            }),
            r matches Ok(p) ==> prepared::all_give(p@.blobs, inspection.contents()),
    {
        let required: usize = match prepared_storage(inspection, source, model_bytes, container_bytes) {
            Err(e) => return Err(Refusal::Catalog(e)),
            Ok(required) => required,
        };
        if required > available {
            return Err(Refusal::ResourceLimit { required, available });
        }
        match Prepared::new(inspection, source) {
            Err(CatalogError::ResourceLimit { required, available }) => Err(
                Refusal::ResourceLimit { required, available },
            ),
            Err(e) => Err(Refusal::Catalog(e)),
            Ok(p) => Ok(p),
        }
    }
}

} // verus!

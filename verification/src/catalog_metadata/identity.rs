//! The identity of an observation: a document of everything by which it differs from
//! other observations of its source, and the revision that is the document's digest.
use crate::catalog_metadata::edit;
use crate::catalog_metadata::edit::{append_number, append_wide};
use crate::catalog_metadata::prepared;
use crate::catalog_metadata::prepared::{Prepared, PreparedModel, PreparedPacket};
use crate::outside;
use crate::outside::{blake3_digest, json_string};
use crate::support;
use vstd::prelude::*;
use vstd::string::*;
use vstd::utf8::*;

verus! {

/// A text that may be missing, as a document.
pub open spec fn nullable(text: Option<Seq<char>>) -> Option<Seq<char>> {
    match text {
        None => Some("null"@),
        Some(t) => outside::json_text(t),
    }
}

/// What stands between the parts of a list before its part `n`.
pub open spec fn comma(n: int) -> Seq<char> {
    if n == 0 {
        Seq::empty()
    } else {
        ","@
    }
}

/// An interpretation in an identity document.
pub open spec fn model_part(m: prepared::PreparedModelModel) -> Option<Seq<char>> {
    match (outside::json_text(m.hash), outside::json_text(m.descriptor), nullable(m.error)) {
        (Some(hash), Some(descriptor), Some(error)) => Some(
            "["@ + hash + ","@ + descriptor + ","@ + m.projection + ","@ + error + "]"@,
        ),
        _ => None,
    }
}

/// The first `n` interpretations in an identity document.
pub open spec fn model_parts(models: Seq<prepared::PreparedModelModel>, n: nat) -> Option<Seq<char>>
    decreases n,
{
    if n == 0 {
        Some(Seq::empty())
    } else {
        match (model_parts(models, (n - 1) as nat), model_part(models[n - 1])) {
            (Some(before), Some(part)) => Some(before + comma(n - 1) + part),
            _ => None,
        }
    }
}

/// A packet in an identity document.
pub open spec fn packet_part(p: prepared::PreparedPacketModel) -> Option<Seq<char>> {
    match (outside::json_text(p.hash), outside::json_text(p.descriptor)) {
        (Some(hash), Some(descriptor)) => Some("["@ + hash + ","@ + descriptor + "]"@),
        _ => None,
    }
}

/// The first `n` packets in an identity document.
pub open spec fn packet_parts(packets: Seq<prepared::PreparedPacketModel>, n: nat) -> Option<
    Seq<char>,
>
    decreases n,
{
    if n == 0 {
        Some(Seq::empty())
    } else {
        match (packet_parts(packets, (n - 1) as nat), packet_part(packets[n - 1])) {
            (Some(before), Some(part)) => Some(before + comma(n - 1) + part),
            _ => None,
        }
    }
}

/// The file that an observation was made of: its bytes and when it was changed.
#[verifier::ext_equal]
pub struct FileState {
    pub blake3: Seq<char>,
    pub length: u64,
    pub modified: Option<u128>,
}

/// A file in an identity document.
pub open spec fn file_part(file: FileState) -> Option<Seq<char>> {
    match outside::json_text(file.blake3) {
        None => None,
        Some(digest) => Some(
            "{\"blake3\":"@ + digest + ",\"length\":"@ + edit::decimal_text(file.length as nat)
                + ",\"modified_unix_ns\":"@ + match file.modified {
                None => "null"@,
                Some(n) => edit::decimal_text(n as nat),
            } + "}"@,
        ),
    }
}

/// The identity document of an observation, with its provenance and its file given
/// apart from it.
pub open spec fn identity_document(
    p: prepared::PreparedObservation,
    provenance: Seq<char>,
    file: FileState,
) -> Option<Seq<char>> {
    match (
        (outside::json_text(p.issues), outside::json_text(provenance), outside::json_text(p.status)),
        (model_parts(p.models, p.models.len()), packet_parts(p.packets, p.packets.len())),
        file_part(file),
    ) {
        ((Some(issues), Some(provenance), Some(status)), (Some(models), Some(packets)), Some(file))
            => Some(
            "{\"issues\":"@ + issues + ",\"models\":["@ + models + "],\"packets\":["@ + packets
                + "],\"provenance\":"@ + provenance + ",\"source_revision\":"@ + file
                + ",\"status\":"@ + status + ",\"version\":1}"@,
        ),
        _ => None,
    }
}

/// The revision of an observation, with its provenance and its file given apart
/// from it.
pub open spec fn revision_under(
    p: prepared::PreparedObservation,
    provenance: Seq<char>,
    file: FileState,
) -> Option<Seq<char>> {
    match identity_document(p, provenance, file) {
        None => None,
        Some(document) => Some(outside::blake3_hex(encode_utf8(document))),
    }
}

/// The file that a prepared observation was made of.
pub open spec fn file_of(p: prepared::PreparedObservation) -> FileState {
    FileState { blake3: p.file_blake3, length: p.file_length, modified: p.modified }
}

/// The revision of an observation.
pub open spec fn own_revision(p: prepared::PreparedObservation) -> Option<Seq<char>> {
    revision_under(p, p.provenance, file_of(p))
}

fn make_nullable(text: &Option<String>) -> (document: Option<String>)
    ensures
        match document {
            Some(s) => nullable(support::text_of(*text)) == Some(s@),
            None => nullable(support::text_of(*text)) is None,
        },
{
    match text {
        None => Some("null".to_owned()),
        Some(t) => json_string(t.as_str()),
    }
}

fn append_model(d: &mut String, m: &PreparedModel) -> (written: bool)
    ensures
        match model_part(m@) {
            None => !written,
            Some(part) => written && final(d)@ == old(d)@ + part,
        },
{
    match (
        json_string(m.hash.as_str()),
        json_string(m.descriptor.as_str()),
        make_nullable(&m.error),
    ) {
        (Some(hash), Some(descriptor), Some(error)) => {
            d.append("[");
            d.append(hash.as_str());
            d.append(",");
            d.append(descriptor.as_str());
            d.append(",");
            d.append(m.projection.as_str());
            d.append(",");
            d.append(error.as_str());
            d.append("]");
            assert(d@ =~= old(d)@ + model_part(m@)->Some_0);
            true
        },
        _ => false,
    }
}

proof fn lemma_no_models(models: Seq<prepared::PreparedModelModel>, n: nat)
    requires
        n <= models.len(),
        model_parts(models, n) is None,
    ensures
        model_parts(models, models.len()) is None,
    decreases models.len() - n,
{
    if n < models.len() {
        lemma_no_models(models, n + 1);
    }
}

proof fn lemma_no_packets(packets: Seq<prepared::PreparedPacketModel>, n: nat)
    requires
        n <= packets.len(),
        packet_parts(packets, n) is None,
    ensures
        packet_parts(packets, packets.len()) is None,
    decreases packets.len() - n,
{
    if n < packets.len() {
        lemma_no_packets(packets, n + 1);
    }
}

fn append_models(d: &mut String, models: &Vec<PreparedModel>) -> (written: bool)
    ensures
        match model_parts(support::models(models@), models@.len()) {
            None => !written,
            Some(parts) => written && final(d)@ == old(d)@ + parts,
        },
{
    let ghost all = support::models(models@);
    let mut n: usize = 0;
    assert(d@ =~= old(d)@ + Seq::<char>::empty());
    while n < models.len()
        invariant
            n <= models@.len(),
            all == support::models(models@),
            all.len() == models@.len(),
            model_parts(all, n as nat) matches Some(parts) && d@ == old(d)@ + parts,
        decreases models@.len() - n,
    {
        let ghost before = model_parts(all, n as nat)->Some_0;
        assert(all[n as int] == models@[n as int]@);
        if n > 0 {
            d.append(",");
        }
        assert(d@ =~= old(d)@ + (before + comma(n as int)));
        if !append_model(d, &models[n]) {
            proof {
                lemma_no_models(all, (n + 1) as nat);
            }
            return false;
        }
        assert(d@ =~= old(d)@ + model_parts(all, (n + 1) as nat)->Some_0);
        n += 1;
    }
    true
}

fn append_packet(d: &mut String, p: &PreparedPacket) -> (written: bool)
    ensures
        match packet_part(p@) {
            None => !written,
            Some(part) => written && final(d)@ == old(d)@ + part,
        },
{
    match (json_string(p.hash.as_str()), json_string(p.descriptor.as_str())) {
        (Some(hash), Some(descriptor)) => {
            d.append("[");
            d.append(hash.as_str());
            d.append(",");
            d.append(descriptor.as_str());
            d.append("]");
            assert(d@ =~= old(d)@ + packet_part(p@)->Some_0);
            true
        },
        _ => false,
    }
}

fn append_packets(d: &mut String, packets: &Vec<PreparedPacket>) -> (written: bool)
    ensures
        match packet_parts(support::models(packets@), packets@.len()) {
            None => !written,
            Some(parts) => written && final(d)@ == old(d)@ + parts,
        },
{
    let ghost all = support::models(packets@);
    let mut n: usize = 0;
    assert(d@ =~= old(d)@ + Seq::<char>::empty());
    while n < packets.len()
        invariant
            n <= packets@.len(),
            all == support::models(packets@),
            all.len() == packets@.len(),
            packet_parts(all, n as nat) matches Some(parts) && d@ == old(d)@ + parts,
        decreases packets@.len() - n,
    {
        let ghost before = packet_parts(all, n as nat)->Some_0;
        assert(all[n as int] == packets@[n as int]@);
        if n > 0 {
            d.append(",");
        }
        assert(d@ =~= old(d)@ + (before + comma(n as int)));
        if !append_packet(d, &packets[n]) {
            proof {
                lemma_no_packets(all, (n + 1) as nat);
            }
            return false;
        }
        assert(d@ =~= old(d)@ + packet_parts(all, (n + 1) as nat)->Some_0);
        n += 1;
    }
    true
}

fn append_file(d: &mut String, blake3: &str, length: u64, modified: Option<u128>) -> (written: bool)
    ensures
        match file_part(FileState { blake3: blake3@, length, modified }) {
            None => !written,
            Some(part) => written && final(d)@ == old(d)@ + part,
        },
{
    match json_string(blake3) {
        None => false,
        Some(digest) => {
            d.append("{\"blake3\":");
            d.append(digest.as_str());
            d.append(",\"length\":");
            append_number(d, length);
            d.append(",\"modified_unix_ns\":");
            match modified {
                None => d.append("null"),
                Some(n) => append_wide(d, n),
            }
            d.append("}");
            assert(d@ =~= old(d)@ + file_part(
                (FileState { blake3: blake3@, length, modified }),
            )->Some_0);
            true
        },
    }
}

/// The revision of an observation, with its provenance and its file given apart
/// from it.
pub fn revision_with_provenance(
    p: &Prepared,
    provenance: &str,
    blake3: &str,
    length: u64,
    modified: Option<u128>,
) -> (revision: Option<String>)
    ensures
        ({
            let under = revision_under(
                p@,
                provenance@,
                (FileState { blake3: blake3@, length, modified }),
            );
            match revision {
                Some(s) => under == Some(s@),
                None => under is None,
            }
        }),
{
    match (
        json_string(p.issues.as_str()),
        json_string(provenance),
        json_string(p.status.as_str()),
    ) {
        (Some(issues), Some(source), Some(status)) => {
            let mut d: String = "{\"issues\":".to_owned();
            d.append(issues.as_str());
            d.append(",\"models\":[");
            if !append_models(&mut d, &p.models) {
                return None;
            }
            d.append("],\"packets\":[");
            if !append_packets(&mut d, &p.packets) {
                return None;
            }
            d.append("],\"provenance\":");
            d.append(source.as_str());
            d.append(",\"source_revision\":");
            if !append_file(&mut d, blake3, length, modified) {
                return None;
            }
            d.append(",\"status\":");
            d.append(status.as_str());
            d.append(",\"version\":1}");
            assert(d@ =~= identity_document(
                p@,
                provenance@,
                (FileState { blake3: blake3@, length, modified }),
            )->Some_0);
            Some(blake3_digest(d.as_str().as_bytes()))
        },
        _ => None,
    }
}

} // verus!

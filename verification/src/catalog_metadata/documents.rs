//! The documents that describe what an observation holds: where it came from, its
//! packets, its inputs and what was merged of them.
use crate::catalog_metadata::edit;
use crate::catalog_metadata::edit::{append_number, append_wide};
use crate::catalog_metadata::identity;
use crate::catalog_metadata::prepared;
use crate::catalog_metadata::prepared::{Inspection, Packet, ParseInput, PreparedValue, Source};
use crate::catalog_metadata::store;
use crate::catalog_migration::retained::ByteRange;
use crate::outside;
use crate::outside::json_string;
use crate::support;
use vstd::prelude::*;
use vstd::string::*;

verus! {

/// A text as a document.
pub open spec fn quoted(text: Seq<char>) -> Seq<char> {
    outside::json_text(text)->Some_0
}

/// A number that may be missing, as a document.
pub open spec fn numbered(n: Option<u128>) -> Seq<char> {
    match n {
        None => "null"@,
        Some(n) => edit::decimal_text(n as nat),
    }
}

/// The first `n` of these positions, with commas between them.
pub open spec fn positions_text(indices: Seq<usize>, n: nat) -> Seq<char>
    decreases n,
{
    if n == 0 {
        Seq::empty()
    } else {
        positions_text(indices, (n - 1) as nat) + identity::comma(n - 1) + edit::decimal_text(
            indices[n - 1] as nat,
        )
    }
}

/// The first `n` of these bytes as numbers, with commas between them.
pub open spec fn bytes_text(bytes: Seq<u8>, n: nat) -> Seq<char>
    decreases n,
{
    if n == 0 {
        Seq::empty()
    } else {
        bytes_text(bytes, (n - 1) as nat) + identity::comma(n - 1) + edit::decimal_text(
            bytes[n - 1] as nat,
        )
    }
}

/// A range of a file as a document.
pub open spec fn range_text(r: ByteRange) -> Seq<char> {
    "{\"offset\":"@ + edit::decimal_text(r.offset as nat) + ",\"length\":"@ + edit::decimal_text(
        r.length as nat,
    ) + "}"@
}

/// The first `n` of these ranges, with commas between them.
pub open spec fn ranges_text(ranges: Seq<ByteRange>, n: nat) -> Seq<char>
    decreases n,
{
    if n == 0 {
        Seq::empty()
    } else {
        ranges_text(ranges, (n - 1) as nat) + identity::comma(n - 1) + range_text(ranges[n - 1])
    }
}

/// A packet as a document: where it was found, and all that is known of it.
pub open spec fn packet_text(
    attributes: Seq<char>,
    container: Seq<char>,
    group: Seq<char>,
    ranges: Seq<ByteRange>,
) -> Seq<char> {
    "{\"attributes\":"@ + attributes + ",\"container\":"@ + quoted(container) + ",\"group\":"@
        + quoted(group) + ",\"ranges\":["@ + ranges_text(ranges, ranges.len()) + "]}"@
}

/// The descriptor of a packet.
pub open spec fn packet_document(p: Packet) -> Seq<char> {
    packet_text(p.attributes@, p.container@, p.group@, p.ranges@)
}

/// An input as a document: the packets that it came from, and how.
pub open spec fn input_text(group: Seq<char>, indices: Seq<usize>, transformation: Seq<char>) -> Seq<
    char,
> {
    "{\"group\":"@ + quoted(group) + ",\"packet_indices\":["@ + positions_text(
        indices,
        indices.len(),
    ) + "],\"transformation\":"@ + quoted(transformation) + "}"@
}

/// The descriptor of an input.
pub open spec fn input_document(p: ParseInput) -> Seq<char> {
    input_text(p.group@, p.packet_indices@, p.transformation@)
}

/// The descriptor of what was merged of a main input and an extended one, in this
/// order: the two inputs, the identity that joins them and the packets of both.
pub open spec fn merged_document(
    main: nat,
    extension: nat,
    guid: Seq<char>,
    indices: Seq<usize>,
) -> Seq<char> {
    "{\"derived_from_inputs\":["@ + edit::decimal_text(main) + ","@ + edit::decimal_text(extension)
        + "],\"guid\":"@ + quoted(guid) + ",\"packet_indices\":["@ + positions_text(
        indices,
        indices.len(),
    ) + "],\"transformation\":\"JpegMainAndExtendedMerged\"}"@
}

/// A file as a document: its bytes and when it was changed.
pub open spec fn file_text(file: identity::FileState) -> Seq<char> {
    "{\"length\":"@ + edit::decimal_text(file.length as nat) + ",\"blake3\":"@ + quoted(file.blake3)
        + ",\"modified_unix_ns\":"@ + numbered(file.modified) + "}"@
}

/// The file that was inspected.
pub open spec fn inspected_file(i: Inspection) -> identity::FileState {
    identity::FileState { blake3: i.file_blake3@, length: i.file_length, modified: i.modified }
}

/// Where an observation of a file came from, as a document: the file, the source's own
/// provenance and the source's place.
pub open spec fn provenance_text(file: identity::FileState, source: store::SourceRequest) -> Seq<char> {
    "{\"file_revision\":"@ + file_text(file) + ",\"source\":"@ + source.provenance
        + ",\"source_location\":{\"display\":"@ + quoted(source.display) + ",\"kind\":"@ + quoted(
        source.kind,
    ) + ",\"locator\":["@ + bytes_text(source.locator, source.locator.len()) + "]}}"@
}

/// Where an observation came from, as a document.
pub open spec fn provenance_document(i: Inspection, source: store::SourceRequest) -> Seq<char> {
    provenance_text(inspected_file(i), source)
}

/// The first `n` of these values under the names of their fields, with commas between
/// them.
pub open spec fn fields_text(fields: Seq<prepared::PreparedValueModel>, n: nat) -> Seq<char>
    decreases n,
{
    if n == 0 {
        Seq::empty()
    } else {
        fields_text(fields, (n - 1) as nat) + identity::comma(n - 1) + quoted(fields[n - 1].field)
            + ":"@ + fields[n - 1].value
    }
}

/// A projection as a document: its fields, and whatever else it says.
pub open spec fn projection_document(fields: Seq<prepared::PreparedValueModel>, rest: Seq<char>) -> Seq<
    char,
> {
    "{\"fields\":{"@ + fields_text(fields, fields.len()) + "}"@ + rest + "}"@
}

/// A projection as a document.
pub fn describe_projection(fields: &Vec<PreparedValue>, rest: &str) -> (d: String)
    ensures
        d@ == projection_document(support::models(fields@), rest@),
{
    let ghost all = support::models(fields@);
    let mut d: String = "{\"fields\":{".to_owned();
    let ghost start = d@;
    let mut n: usize = 0;
    assert(d@ =~= start + fields_text(all, 0));
    while n < fields.len()
        invariant
            n <= fields@.len(),
            all == support::models(fields@),
            d@ == start + fields_text(all, n as nat),
        decreases fields@.len() - n,
    {
        assert(all[n as int] == fields@[n as int]@);
        if n > 0 {
            d.append(",");
        }
        append_quoted(&mut d, fields[n].field.as_str());
        d.append(":");
        d.append(fields[n].value.as_str());
        assert(d@ =~= start + fields_text(all, (n + 1) as nat));
        n += 1;
    }
    d.append("}");
    d.append(rest);
    d.append("}");
    assert(all.len() == fields@.len());
    assert(d@ =~= projection_document(all, rest@));
    d
}

pub(crate) fn append_quoted(d: &mut String, text: &str)
    ensures
        final(d)@ == old(d)@ + quoted(text@),
{
    let document: String = json_string(text).unwrap();
    d.append(document.as_str());
}

fn append_positions(d: &mut String, indices: &Vec<usize>)
    ensures
        final(d)@ == old(d)@ + positions_text(indices@, indices@.len()),
{
    let mut n: usize = 0;
    assert(d@ =~= old(d)@ + positions_text(indices@, 0));
    while n < indices.len()
        invariant
            n <= indices@.len(),
            d@ == old(d)@ + positions_text(indices@, n as nat),
        decreases indices@.len() - n,
    {
        if n > 0 {
            d.append(",");
        }
        append_number(d, indices[n] as u64);
        assert(d@ =~= old(d)@ + positions_text(indices@, (n + 1) as nat));
        n += 1;
    }
}

fn append_bytes(d: &mut String, bytes: &[u8])
    ensures
        final(d)@ == old(d)@ + bytes_text(bytes@, bytes@.len()),
{
    let mut n: usize = 0;
    assert(d@ =~= old(d)@ + bytes_text(bytes@, 0));
    while n < bytes.len()
        invariant
            n <= bytes@.len(),
            d@ == old(d)@ + bytes_text(bytes@, n as nat),
        decreases bytes@.len() - n,
    {
        if n > 0 {
            d.append(",");
        }
        append_number(d, bytes[n] as u64);
        assert(d@ =~= old(d)@ + bytes_text(bytes@, (n + 1) as nat));
        n += 1;
    }
}

fn append_ranges(d: &mut String, ranges: &Vec<ByteRange>)
    ensures
        final(d)@ == old(d)@ + ranges_text(ranges@, ranges@.len()),
{
    let mut n: usize = 0;
    assert(d@ =~= old(d)@ + ranges_text(ranges@, 0));
    while n < ranges.len()
        invariant
            n <= ranges@.len(),
            d@ == old(d)@ + ranges_text(ranges@, n as nat),
        decreases ranges@.len() - n,
    {
        if n > 0 {
            d.append(",");
        }
        d.append("{\"offset\":");
        append_number(d, ranges[n].offset);
        d.append(",\"length\":");
        append_number(d, ranges[n].length);
        d.append("}");
        assert(d@ =~= old(d)@ + ranges_text(ranges@, (n + 1) as nat));
        n += 1;
    }
}

/// A packet as a document.
pub(crate) fn packet_text_of(attributes: &str, container: &str, group: &str, ranges: &Vec<ByteRange>) -> (d:
    String)
    ensures
        d@ == packet_text(attributes@, container@, group@, ranges@),
{
    let mut d: String = "{\"attributes\":".to_owned();
    d.append(attributes);
    d.append(",\"container\":");
    append_quoted(&mut d, container);
    d.append(",\"group\":");
    append_quoted(&mut d, group);
    d.append(",\"ranges\":[");
    append_ranges(&mut d, ranges);
    d.append("]}");
    assert(d@ =~= packet_text(attributes@, container@, group@, ranges@));
    d
}

/// The descriptor of a packet.
pub fn describe_packet(p: &Packet) -> (d: String)
    ensures
        d@ == packet_document(*p),
{
    packet_text_of(p.attributes.as_str(), p.container.as_str(), p.group.as_str(), &p.ranges)
}

/// An input as a document.
pub(crate) fn input_text_of(group: &str, indices: &Vec<usize>, transformation: &str) -> (d: String)
    ensures
        d@ == input_text(group@, indices@, transformation@),
{
    let mut d: String = "{\"group\":".to_owned();
    append_quoted(&mut d, group);
    d.append(",\"packet_indices\":[");
    append_positions(&mut d, indices);
    d.append("],\"transformation\":");
    append_quoted(&mut d, transformation);
    d.append("}");
    assert(d@ =~= input_text(group@, indices@, transformation@));
    d
}

/// The descriptor of an input.
pub fn describe_input(p: &ParseInput) -> (d: String)
    ensures
        d@ == input_document(*p),
{
    input_text_of(p.group.as_str(), &p.packet_indices, p.transformation.as_str())
}

fn add_positions(all: &mut Vec<usize>, indices: &Vec<usize>)
    ensures
        final(all)@ == old(all)@ + indices@,
{
    let mut n: usize = 0;
    assert(all@ =~= old(all)@ + indices@.take(0));
    while n < indices.len()
        invariant
            n <= indices@.len(),
            all@ == old(all)@ + indices@.take(n as int),
        decreases indices@.len() - n,
    {
        all.push(indices[n]);
        assert(all@ =~= old(all)@ + indices@.take(n + 1));
        n += 1;
    }
    assert(indices@.take(n as int) =~= indices@);
}

/// The descriptor of what was merged of a main input and an extended one.
pub fn describe_merged(
    main: usize,
    extension: usize,
    guid: &str,
    first: &Vec<usize>,
    second: &Vec<usize>,
) -> (d: String)
    ensures
        d@ == merged_document(main as nat, extension as nat, guid@, first@ + second@),
{
    let mut indices: Vec<usize> = Vec::new();
    add_positions(&mut indices, first);
    add_positions(&mut indices, second);
    assert(indices@ =~= first@ + second@);
    let mut d: String = "{\"derived_from_inputs\":[".to_owned();
    append_number(&mut d, main as u64);
    d.append(",");
    append_number(&mut d, extension as u64);
    d.append("],\"guid\":");
    append_quoted(&mut d, guid);
    d.append(",\"packet_indices\":[");
    append_positions(&mut d, &indices);
    d.append("],\"transformation\":\"JpegMainAndExtendedMerged\"}");
    assert(d@ =~= merged_document(main as nat, extension as nat, guid@, first@ + second@));
    d
}

/// Where an observation of a file came from, as a document.
pub(crate) fn provenance_text_of(blake3: &str, length: u64, modified: Option<u128>, source: &Source) -> (d:
    String)
    ensures
        d@ == provenance_text(
            (identity::FileState { blake3: blake3@, length, modified }),
            source@,
        ),
{
    let ghost file = identity::FileState { blake3: blake3@, length, modified };
    let mut d: String = "{\"file_revision\":{\"length\":".to_owned();
    append_number(&mut d, length);
    d.append(",\"blake3\":");
    append_quoted(&mut d, blake3);
    d.append(",\"modified_unix_ns\":");
    match modified {
        None => d.append("null"),
        Some(n) => append_wide(&mut d, n),
    }
    d.append("}");
    proof {
        reveal_strlit("{\"file_revision\":{\"length\":");
        reveal_strlit("{\"file_revision\":");
        reveal_strlit("{\"length\":");
        assert("{\"file_revision\":{\"length\":"@ =~= "{\"file_revision\":"@ + "{\"length\":"@);
        assert(d@ =~= "{\"file_revision\":"@ + file_text(file));
    }
    d.append(",\"source\":");
    d.append(source.provenance.as_str());
    d.append(",\"source_location\":{\"display\":");
    append_quoted(&mut d, source.display.as_str());
    d.append(",\"kind\":");
    append_quoted(&mut d, source.kind.as_str());
    d.append(",\"locator\":[");
    append_bytes(&mut d, source.locator.as_slice());
    d.append("]}}");
    assert(d@ =~= provenance_text(file, source@));
    d
}

/// Where an observation came from, as a document.
pub fn describe_provenance(i: &Inspection, source: &Source) -> (d: String)
    ensures
        d@ == provenance_document(*i, source@),
{
    provenance_text_of(i.file_blake3.as_str(), i.file_length, i.modified, source)
}

} // verus!

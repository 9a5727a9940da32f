//! What an earlier inspection of a file found, put together again from retained
//! records alone.
use crate::catalog_metadata::edit;
use crate::catalog_metadata::edit::append_number;
use crate::catalog_migration::proofs::IDENTITY_BYTES;
use crate::catalog_migration::retained;
use crate::catalog_migration::retained::{
    bytes_of, ByteRange, Cell, Collection, Detail, EvidenceRecord, Field, MigrationError,
    NativePath, Observation, PathDetail, RecordModel, Retained, RetainedModel, SourceRevision,
    Status,
};
use crate::copies::Copied;
use crate::outside;
use crate::outside::blake3_digest;
use crate::support;
use crate::support::{append_bytes, copy_bytes, same, same_bytes};
use vstd::prelude::*;
use vstd::string::*;
use vstd::utf8::*;

verus! {

/// The most bytes of the documents of an inspection.
pub const META: usize = 8388608;

/// The most bytes of all packets, or of all bytes to interpret.
pub const PAYLOAD: usize = 67108864;

/// The most bytes of a packet.
pub const PACKET: usize = 16777216;

/// The most packets, and the most inputs, of an inspection.
pub const COUNT: usize = 1024;

/// The most bytes of a packet's origin.
pub const ORIGIN_BYTES: usize = 128;

/// The most places that a file is inspected at.
pub const ORIGINS: usize = 5;

/// The most ranges of a packet.
pub const RANGES: usize = 100000;

/// Where a file's metadata was found.
#[derive(Clone, Copy, Debug, PartialEq, Eq, Structural)]
pub enum Origin {
    Embedded,
    SidecarXmp,
    SidecarUpper,
    AppendedXmp,
    AppendedUpper,
}

/// The name of an origin.
pub open spec fn origin_name(o: Origin) -> Seq<char> {
    match o {
        Origin::Embedded => "embedded"@,
        Origin::SidecarXmp => "sidecar_xmp"@,
        Origin::SidecarUpper => "sidecar_XMP"@,
        Origin::AppendedXmp => "sidecar_appended_xmp"@,
        Origin::AppendedUpper => "sidecar_appended_XMP"@,
    }
}

impl Origin {
    /// The name of an origin.
    pub fn name(self) -> (r: &'static str)
        ensures
            r@ == origin_name(self),
    {
        match self {
            Origin::Embedded => "embedded",
            Origin::SidecarXmp => "sidecar_xmp",
            Origin::SidecarUpper => "sidecar_XMP",
            Origin::AppendedXmp => "sidecar_appended_xmp",
            Origin::AppendedUpper => "sidecar_appended_XMP",
        }
    }

    /// The kind of source that an origin is.
    pub fn kind(self) -> (r: &'static str)
        ensures
            r@ == if self == Origin::Embedded {
                "embedded"@
            } else {
                "sidecar"@
            },
    {
        if self == Origin::Embedded {
            "embedded"
        } else {
            "sidecar"
        }
    }
}

/// The last place of a byte.
pub open spec fn last_of(bytes: Seq<u8>, b: u8, n: nat) -> Option<int>
    decreases n,
{
    if n == 0 {
        None
    } else if bytes[n - 1] == b {
        Some(n - 1)
    } else {
        last_of(bytes, b, (n - 1) as nat)
    }
}

fn find_last(bytes: &[u8], b: u8) -> (r: Option<usize>)
    ensures
        match r {
            Some(i) => i < bytes@.len() && last_of(bytes@, b, bytes@.len()) == Some(i as int),
            None => last_of(bytes@, b, bytes@.len()) is None,
        },
{
    let mut n: usize = bytes.len();
    while n > 0
        invariant
            n <= bytes@.len(),
            last_of(bytes@, b, bytes@.len()) == last_of(bytes@, b, n as nat),
        decreases n,
    {
        if bytes[n - 1] == b {
            return Some(n - 1);
        }
        n -= 1;
    }
    None
}

/// Where a path's last part starts.
pub open spec fn name_start(path: Seq<u8>) -> int {
    match last_of(path, 0x2f, path.len()) {
        Some(i) => i + 1,
        None => 0,
    }
}

/// Where a path's extension starts, with its dot; at the end where it has none. A
/// dot that a name starts with makes no extension.
pub open spec fn extension_start(path: Seq<u8>) -> int {
    match last_of(path, 0x2e, path.len()) {
        Some(i) if i > name_start(path) => i,
        _ => path.len() as int,
    }
}

/// A path without what names nothing at its end: slashes, and dots between them.
pub open spec fn trimmed(path: Seq<u8>) -> Seq<u8>
    decreases path.len(),
{
    if path.len() > 0 && path.last() == 0x2f {
        trimmed(path.drop_last())
    } else if path.len() > 1 && path.last() == 0x2e && path[path.len() - 2] == 0x2f {
        trimmed(path.drop_last())
    } else {
        path
    }
}

/// A path's last part is no name: there is none, or it stands for the place itself or
/// the one above it.
pub open spec fn nameless(path: Seq<u8>) -> bool {
    let name = path.skip(name_start(path));
    name.len() == 0 || name == seq![0x2eu8] || name == seq![0x2eu8, 0x2eu8]
}

/// A path with another extension of its last name, and nothing after it. A path without
/// a name of its own stays as it is.
pub open spec fn with_extension(path: Seq<u8>, suffix: Seq<u8>) -> Seq<u8> {
    let named = trimmed(path);
    if nameless(named) {
        path
    } else {
        named.take(extension_start(named)) + seq![0x2eu8] + suffix
    }
}

/// The extension of an origin's sidecars.
pub open spec fn origin_suffix(o: Origin) -> Seq<u8> {
    if o == Origin::SidecarUpper || o == Origin::AppendedUpper {
        encode_utf8("XMP"@)
    } else {
        encode_utf8("xmp"@)
    }
}

/// The path of an origin, where it can be told on this platform.
pub open spec fn located(base: retained::PathModel, o: Origin) -> Option<retained::PathModel> {
    if o == Origin::Embedded {
        Some(base)
    } else {
        match base {
            retained::PathModel::WindowsWide(_) => None,
            retained::PathModel::UnixBytes(path) => Some(
                retained::PathModel::UnixBytes(
                    if o == Origin::AppendedXmp || o == Origin::AppendedUpper {
                        path + seq![0x2eu8] + origin_suffix(o)
                    } else {
                        with_extension(path, origin_suffix(o))
                    },
                ),
            ),
        }
    }
}

fn copy_wide(v: &Vec<u16>) -> (c: Vec<u16>)
    ensures
        c@ == v@,
{
    let mut c: Vec<u16> = Vec::new();
    let mut i: usize = 0;
    while i < v.len()
        invariant
            i <= v@.len(),
            c@ == v@.take(i as int),
        decreases v@.len() - i,
    {
        c.push(v[i]);
        assert(c@ =~= v@.take(i + 1));
        i += 1;
    }
    assert(c@ =~= v@);
    c
}

impl Copied for NativePath {
    fn copied(&self) -> (c: Self) {
        match self {
            NativePath::UnixBytes(v) => NativePath::UnixBytes(copy_bytes(v.as_slice())),
            NativePath::WindowsWide(v) => NativePath::WindowsWide(copy_wide(v)),
        }
    }
}

fn trim(path: &Vec<u8>) -> (r: Vec<u8>)
    ensures
        r@ == trimmed(path@),
{
    let mut r: Vec<u8> = copy_bytes(path.as_slice());
    let mut more: bool = true;
    while more
        invariant
            trimmed(r@) == trimmed(path@),
            !more ==> trimmed(r@) == r@,
        decreases r@.len(), more as int,
    {
        let n: usize = r.len();
        if (n > 0 && r[n - 1] == 0x2f) || (n > 1 && r[n - 1] == 0x2e && r[n - 2] == 0x2f) {
            let ghost before = r@;
            r.truncate(n - 1);
            assert(r@ =~= before.drop_last());
        } else {
            more = false;
        }
    }
    r
}

fn change_extension(whole: &Vec<u8>, suffix: &[u8]) -> (r: Vec<u8>)
    ensures
        r@ == with_extension(whole@, suffix@),
{
    let path: Vec<u8> = trim(whole);
    let total: usize = path.len();
    let start: usize = match find_last(path.as_slice(), 0x2f) {
        Some(i) => i + 1,
        None => 0,
    };
    let length: usize = total - start;
    let ghost name = path@.skip(start as int);
    let bare: bool = length == 0 || (length == 1 && path[start] == 0x2e) || (length == 2
        && path[start] == 0x2e && path[start + 1] == 0x2e);
    proof {
        assert(name.len() == length);
        if length == 1 {
            assert(name[0] == path@[start as int]);
            assert((name == seq![0x2eu8]) == (name[0] == 0x2e)) by {
                if name[0] == 0x2e {
                    assert(name =~= seq![0x2eu8]);
                }
            }
        }
        if length == 2 {
            assert(name[0] == path@[start as int]);
            assert(name[1] == path@[start + 1]);
            if name[0] == 0x2e && name[1] == 0x2e {
                assert(name =~= seq![0x2eu8, 0x2eu8]);
            }
        }
        if name == seq![0x2eu8] {
            assert(name.len() == 1);
        }
        if name == seq![0x2eu8, 0x2eu8] {
            assert(name.len() == 2);
            assert(name[0] == 0x2e);
            assert(name[1] == 0x2e);
        }
    }
    assert(bare == nameless(path@));
    if bare {
        return copy_bytes(whole.as_slice());
    }
    let end: usize = match find_last(path.as_slice(), 0x2e) {
        Some(i) => if i > start {
            i
        } else {
            path.len()
        },
        None => path.len(),
    };
    let mut r: Vec<u8> = copy_bytes(path.as_slice());
    r.truncate(end);
    r.push(0x2e);
    append_bytes(&mut r, suffix);
    assert(r@ =~= with_extension(whole@, suffix@));
    r
}

/// The path of an origin, where it can be told on this platform.
pub fn origin_path(base: &NativePath, o: Origin) -> (r: Option<NativePath>)
    ensures
        match r {
            Some(path) => located(base@, o) == Some(path@),
            None => located(base@, o) is None,
        },
{
    if o == Origin::Embedded {
        return Some(base.copied());
    }
    let suffix: &str = if o == Origin::SidecarUpper || o == Origin::AppendedUpper {
        "XMP"
    } else {
        "xmp"
    };
    match base {
        NativePath::WindowsWide(_) => None,
        NativePath::UnixBytes(path) => {
            if o == Origin::AppendedXmp || o == Origin::AppendedUpper {
                let mut r: Vec<u8> = copy_bytes(path.as_slice());
                r.push(0x2e);
                append_bytes(&mut r, suffix.as_bytes());
                assert(r@ =~= path@ + seq![0x2eu8] + origin_suffix(o));
                Some(NativePath::UnixBytes(r))
            } else {
                Some(NativePath::UnixBytes(change_extension(path, suffix.as_bytes())))
            }
        },
    }
}

fn same_wide(x: &Vec<u16>, y: &Vec<u16>) -> (r: bool)
    ensures
        r == (x@ == y@),
{
    if x.len() != y.len() {
        return false;
    }
    let mut i: usize = 0;
    while i < x.len()
        invariant
            i <= x@.len(),
            x@.len() == y@.len(),
            forall|j: int| 0 <= j < i ==> x@[j] == y@[j],
        decreases x@.len() - i,
    {
        if x[i] != y[i] {
            return false;
        }
        i += 1;
    }
    assert(x@ =~= y@);
    true
}

/// Whether two paths are the same.
pub(crate) fn same_path(a: &NativePath, b: &NativePath) -> (r: bool)
    ensures
        r == (a@ == b@),
{
    match (a, b) {
        (NativePath::UnixBytes(x), NativePath::UnixBytes(y)) => same_bytes(
            x.as_slice(),
            y.as_slice(),
        ),
        (NativePath::WindowsWide(x), NativePath::WindowsWide(y)) => same_wide(x, y),
        _ => false,
    }
}

/// The packet references of an input are there and not too many.
pub open spec fn indices_fit(values: Seq<usize>, packets: nat) -> bool {
    0 < values.len() <= COUNT && forall|i: int| 0 <= i < values.len() ==> (#[trigger] values[i]) < packets
}

/// Whether the packet references of an input are there and not too many.
pub fn indices(values: &Vec<usize>, packets: usize) -> (r: bool)
    ensures
        r == indices_fit(values@, packets as nat),
{
    if values.len() == 0 || values.len() > COUNT {
        return false;
    }
    let mut i: usize = 0;
    while i < values.len()
        invariant
            i <= values@.len(),
            forall|j: int| 0 <= j < i ==> (#[trigger] values@[j]) < packets,
        decreases values@.len() - i,
    {
        if values[i] >= packets {
            assert(!(values@[i as int] < packets));
            return false;
        }
        i += 1;
    }
    true
}

/// The ranges of a packet lie within the inspected file.
pub open spec fn ranges_fit(values: Seq<ByteRange>, length: u64) -> bool {
    values.len() <= RANGES && forall|i: int|
        0 <= i < values.len() ==> (#[trigger] values[i]).offset + values[i].length <= length
}

/// Whether the ranges of a packet lie within the inspected file.
pub fn ranges(values: &Vec<ByteRange>, revision: &SourceRevision) -> (r: bool)
    ensures
        r == ranges_fit(values@, revision.length),
{
    if values.len() > RANGES {
        return false;
    }
    let mut i: usize = 0;
    while i < values.len()
        invariant
            i <= values@.len(),
            forall|j: int|
                0 <= j < i ==> (#[trigger] values@[j]).offset + values@[j].length
                    <= revision.length,
        decreases values@.len() - i,
    {
        if values[i].offset > revision.length || values[i].length > revision.length
            - values[i].offset {
            assert(!(values@[i as int].offset + values@[i as int].length <= revision.length));
            return false;
        }
        i += 1;
    }
    true
}

/// The number of bytes of a field, which may have no value but no number.
pub open spec fn length_of(rec: RecordModel, name: Seq<char>) -> Result<nat, MigrationError> {
    match rec.field(name) {
        None => Err(MigrationError::FieldMissing),
        Some(f) => match f.bytes() {
            Some(v) => Ok(v.len()),
            None => if f == retained::FieldModel::Inline(retained::CellModel::Null) {
                Ok(0)
            } else {
                Err(MigrationError::FieldType)
            },
        },
    }
}

/// The number of bytes of a field, which may have no value but no number.
pub fn field_length(rec: &EvidenceRecord, name: &str) -> (r: Result<usize, MigrationError>)
    ensures
        match length_of(rec@, name@) {
            Ok(n) => r matches Ok(k) && k == n,
            Err(e) => r == Err::<usize, MigrationError>(e),
        },
{
    match rec.get(name) {
        None => Err(MigrationError::FieldMissing),
        Some(f) => match bytes_of(f) {
            Some(v) => Ok(v.len()),
            None => match f {
                Field::Inline(Cell::Null) => Ok(0),
                _ => Err(MigrationError::FieldType),
            },
        },
    }
}

/// The value of decimal digits.
pub open spec fn digits_value(s: Seq<char>) -> nat
    decreases s.len(),
{
    if s.len() == 0 {
        0
    } else {
        (digits_value(s.drop_last()) * 10 + (s.last() as u32 as int - 48)) as nat
    }
}

pub(crate) proof fn lemma_decimal_value(n: nat)
    ensures
        digits_value(edit::decimal_text(n)) == n,
        edit::decimal_text(n).len() > 0,
        forall|i: int|
            0 <= i < edit::decimal_text(n).len() ==> '0' <= #[trigger] edit::decimal_text(n)[i]
                && edit::decimal_text(n)[i] <= '9',
        n < 1024 ==> edit::decimal_text(n).len() <= 4,
    decreases n,
{
    let t = edit::decimal_text(n);
    if n < 10 {
        assert(t =~= seq![(48 + n) as char]);
        assert(t.drop_last() =~= Seq::empty());
        assert(digits_value(t.drop_last()) == 0);
    } else {
        lemma_decimal_value(n / 10);
        let head = edit::decimal_text(n / 10);
        assert(t.drop_last() =~= head);
        assert(t.last() == (48 + n % 10) as char);
        assert forall|i: int| 0 <= i < t.len() implies '0' <= #[trigger] t[i] && t[i] <= '9' by {
            if i < head.len() {
                assert(t[i] == head[i]);
            }
        }
        if n < 1024 {
            lemma_short(n / 10);
        }
    }
}

proof fn lemma_short(n: nat)
    requires
        n < 103,
    ensures
        edit::decimal_text(n).len() <= 3,
{
    reveal_with_fuel(edit::decimal_text, 4);
}

/// The number that decimal digits stand for, where they are written without
/// leading zeros and the number is below the count of packets.
pub open spec fn index_of(s: Seq<char>) -> Option<nat> {
    if digits_value(s) < COUNT && s == edit::decimal_text(digits_value(s)) {
        Some(digits_value(s))
    } else {
        None
    }
}

/// The packet, or the input, that an origin text names: its kind and its index.
pub open spec fn slot_named(text: Seq<char>, o: Origin) -> Option<(bool, nat)> {
    let packet = origin_name(o) + ":packet:"@;
    let input = origin_name(o) + ":parse_input:"@;
    if packet.is_prefix_of(text) {
        match index_of(text.skip(packet.len() as int)) {
            Some(i) => Some((true, i)),
            None => None,
        }
    } else if input.is_prefix_of(text) {
        match index_of(text.skip(input.len() as int)) {
            Some(i) => Some((false, i)),
            None => None,
        }
    } else {
        None
    }
}

fn parse_index(s: &str) -> (r: Option<usize>)
    ensures
        match r {
            Some(i) => index_of(s@) == Some(i as nat),
            None => index_of(s@) is None,
        },
{
    let ghost text = s@;
    let length: usize = s.unicode_len();
    if length == 0 || length > 4 {
        proof {
            if digits_value(text) < COUNT {
                lemma_decimal_value(digits_value(text));
            }
        }
        return None;
    }
    let mut value: usize = 0;
    let mut i: usize = 0;
    let mut bound: usize = 1;
    assert(text.take(0) =~= Seq::empty());
    while i < length
        invariant
            i <= length <= 4,
            length == text.len(),
            text == s@,
            bound == (if i == 0 {
                1int
            } else if i == 1 {
                10
            } else if i == 2 {
                100
            } else if i == 3 {
                1000
            } else {
                10000
            }),
            value < bound,
            value == digits_value(text.take(i as int)),
        decreases length - i,
    {
        let c: char = s.get_char(i);
        if !('0' <= c && c <= '9') {
            proof {
                if digits_value(text) < COUNT && text == edit::decimal_text(digits_value(text)) {
                    lemma_decimal_value(digits_value(text));
                    assert('0' <= edit::decimal_text(digits_value(text))[i as int]);
                    assert(edit::decimal_text(digits_value(text))[i as int] <= '9');
                }
            }
            return None;
        }
        proof {
            let next = text.take(i + 1);
            assert(next.drop_last() =~= text.take(i as int));
            assert(next.last() == c);
        }
        value = value * 10 + (c as u32 - 48) as usize;
        bound = bound * 10;
        i += 1;
    }
    assert(text.take(i as int) =~= text);
    if value >= COUNT {
        return None;
    }
    let mut written: String = "".to_owned();
    append_number(&mut written, value as u64);
    proof {
        reveal_strlit("");
        assert(written@ =~= edit::decimal_text(value as nat));
    }
    if same(written.as_str(), s) {
        Some(value)
    } else {
        None
    }
}

fn strip<'a>(text: &'a str, prefix: &str) -> (r: Option<&'a str>)
    ensures
        match r {
            Some(rest) => prefix@.is_prefix_of(text@) && rest@ == text@.skip(prefix@.len() as int),
            None => !prefix@.is_prefix_of(text@),
        },
{
    let a: usize = prefix.unicode_len();
    let b: usize = text.unicode_len();
    if b < a {
        return None;
    }
    if same(text.substring_char(0, a), prefix) {
        proof {
            assert(text@.subrange(0, a as int) =~= text@.take(a as int));
            assert(text@.subrange(a as int, b as int) =~= text@.skip(a as int));
        }
        Some(text.substring_char(a, b))
    } else {
        proof {
            if prefix@.is_prefix_of(text@) {
                assert(text@.subrange(0, a as int) =~= prefix@);
            }
        }
        None
    }
}

fn find_slot(text: &str, o: Origin) -> (r: Option<(bool, usize)>)
    ensures
        match r {
            Some((packet, i)) => slot_named(text@, o) == Some((packet, i as nat)),
            None => slot_named(text@, o) is None,
        },
{
    let mut packet: String = o.name().to_owned();
    packet.append(":packet:");
    let mut input: String = o.name().to_owned();
    input.append(":parse_input:");
    match strip(text, packet.as_str()) {
        Some(rest) => match parse_index(rest) {
            Some(i) => Some((true, i)),
            None => None,
        },
        None => match strip(text, input.as_str()) {
            Some(rest) => match parse_index(rest) {
                Some(i) => Some((false, i)),
                None => None,
            },
            None => None,
        },
    }
}

/// A packet as an earlier inspection found it.
#[derive(Clone, Debug)]
pub struct RawPacket {
    pub container: String,
    pub bytes: Vec<u8>,
    pub blake3: String,
    pub ranges: Vec<ByteRange>,
    pub group: String,
    pub attributes: String,
}

/// What a `RawPacket` stands for.
#[verifier::ext_equal]
pub struct RawPacketModel {
    pub container: Seq<char>,
    pub bytes: Seq<u8>,
    pub blake3: Seq<char>,
    pub ranges: Seq<ByteRange>,
    pub group: Seq<char>,
    pub attributes: Seq<char>,
}

impl View for RawPacket {
    type V = RawPacketModel;

    open spec fn view(&self) -> RawPacketModel {
        RawPacketModel {
            container: self.container@,
            bytes: self.bytes@,
            blake3: self.blake3@,
            ranges: self.ranges@,
            group: self.group@,
            attributes: self.attributes@,
        }
    }
}

/// Bytes to interpret as an earlier inspection found them.
#[derive(Clone, Debug)]
pub struct RawInput {
    pub bytes: Vec<u8>,
    pub blake3: String,
    pub packet_indices: Vec<usize>,
    pub transformation: String,
    pub group: String,
}

/// What a `RawInput` stands for.
#[verifier::ext_equal]
pub struct RawInputModel {
    pub bytes: Seq<u8>,
    pub blake3: Seq<char>,
    pub packet_indices: Seq<usize>,
    pub transformation: Seq<char>,
    pub group: Seq<char>,
}

impl View for RawInput {
    type V = RawInputModel;

    open spec fn view(&self) -> RawInputModel {
        RawInputModel {
            bytes: self.bytes@,
            blake3: self.blake3@,
            packet_indices: self.packet_indices@,
            transformation: self.transformation@,
            group: self.group@,
        }
    }
}

/// Everything that an earlier, complete inspection found.
#[derive(Clone, Debug)]
pub struct RawInspection {
    pub revision: SourceRevision,
    /// The issues as a document.
    pub issues: String,
    pub packets: Vec<RawPacket>,
    pub parse_inputs: Vec<RawInput>,
}

/// What a `RawInspection` stands for.
#[verifier::ext_equal]
pub struct RawInspectionModel {
    pub revision: retained::SourceRevisionModel,
    pub issues: Seq<char>,
    pub packets: Seq<RawPacketModel>,
    pub parse_inputs: Seq<RawInputModel>,
}

impl View for RawInspection {
    type V = RawInspectionModel;

    open spec fn view(&self) -> RawInspectionModel {
        RawInspectionModel {
            revision: self.revision@,
            issues: self.issues@,
            packets: support::models(self.packets@),
            parse_inputs: support::models(self.parse_inputs@),
        }
    }
}

/// A row of an inspection: the place of its record, whether it is a packet, and its
/// index among the packets or among the inputs.
#[derive(Clone, Copy, Debug, PartialEq, Eq, Structural)]
pub struct Entry {
    pub record: usize,
    pub packet: bool,
    pub index: usize,
}

/// Two inspections are of one origin.
pub open spec fn origins_repeat(values: Seq<Observation>) -> bool {
    exists|i: int, j: int| 0 <= i < j < values.len() && values[i].origin@ == values[j].origin@
}

pub open spec fn observes(name: Seq<char>) -> spec_fn(Observation) -> bool {
    |v: Observation| v.origin@ == name
}

/// Which inspection is of an origin; none where the file was not inspected.
pub open spec fn chosen(path: PathDetail, o: Origin) -> Result<Option<int>, MigrationError> {
    match path.inspections {
        None => Ok(None),
        Some(values) => if values@.len() > ORIGINS || origins_repeat(values@) {
            Err(MigrationError::InspectionsDiffer)
        } else {
            match support::first_where(values@, observes(origin_name(o))) {
                None => Err(MigrationError::ObservationAmbiguous),
                Some(i) => Ok(Some(i)),
            }
        },
    }
}

fn has_repeated_origin(values: &Vec<Observation>) -> (r: bool)
    ensures
        r == origins_repeat(values@),
{
    let mut i: usize = 0;
    while i < values.len()
        invariant
            i <= values@.len(),
            forall|a: int, b: int| 0 <= a < b < i ==> values@[a].origin@ != values@[b].origin@,
        decreases values@.len() - i,
    {
        let mut j: usize = 0;
        while j < i
            invariant
                j <= i < values@.len(),
                forall|a: int| 0 <= a < j ==> values@[a].origin@ != values@[i as int].origin@,
            decreases i - j,
        {
            if same(values[i].origin.as_str(), values[j].origin.as_str()) {
                assert(values@[j as int].origin@ == values@[i as int].origin@);
                return true;
            }
            j += 1;
        }
        i += 1;
    }
    false
}

fn choose_observation(path: &PathDetail, o: Origin) -> (r: Result<Option<usize>, MigrationError>)
    ensures
        match chosen(*path, o) {
            Err(e) => r == Err::<Option<usize>, MigrationError>(e),
            Ok(None) => r == Ok::<Option<usize>, MigrationError>(None),
            Ok(Some(i)) => r matches Ok(Some(k)) && k == i && path.inspections is Some && k
                < path.inspections->0@.len(),
        },
{
    match &path.inspections {
        None => Ok(None),
        Some(values) => {
            if values.len() > ORIGINS || has_repeated_origin(values) {
                return Err(MigrationError::InspectionsDiffer);
            }
            let ghost p = observes(origin_name(o));
            let mut i: usize = 0;
            while i < values.len()
                invariant
                    i <= values@.len(),
                    p == observes(origin_name(o)),
                    path.inspections == Some(*values),
                    values@.len() <= ORIGINS,
                    !origins_repeat(values@),
                    forall|j: int| 0 <= j < i ==> !p(#[trigger] values@[j]),
                decreases values@.len() - i,
            {
                if same(values[i].origin.as_str(), o.name()) {
                    proof {
                        support::lemma_first_found(values@, p, i as int);
                    }
                    return Ok(Some(i));
                }
                i += 1;
            }
            proof {
                support::lemma_none_found(values@, p);
            }
            Err(MigrationError::ObservationAmbiguous)
        },
    }
}

/// The file that rows of an inspection have to belong to.
pub struct FileScope {
    pub input: Seq<char>,
    pub revision: Seq<char>,
    pub source_id: Seq<char>,
    pub origin: Origin,
}

/// The row of an inspection that a record is.
pub open spec fn entry_of(r: RetainedModel, f: FileScope, sequence: i64) -> Result<
    (int, bool, nat),
    MigrationError,
> {
    match r.record_of(sequence) {
        None => Err(MigrationError::RecordMissing),
        Some(i) => {
            let rec = r.records[i];
            if rec.input != f.input {
                Err(MigrationError::RecordForeign)
            } else if rec.collection != Collection::Packets || rec.revision != f.revision {
                Err(MigrationError::PacketForeign)
            } else {
                match rec.field_text("source_id"@, IDENTITY_BYTES as nat) {
                    Err(e) => Err(e),
                    Ok(id) => if id != f.source_id {
                        Err(MigrationError::PacketForeign)
                    } else {
                        match rec.field_text("origin"@, ORIGIN_BYTES as nat) {
                            Err(e) => Err(e),
                            Ok(text) => match slot_named(text, f.origin) {
                                None => Err(MigrationError::PacketIndex),
                                Some((packet, index)) => Ok((i, packet, index)),
                            },
                        }
                    },
                }
            }
        },
    }
}

/// What an entry stands for.
pub open spec fn entry_view(e: Entry) -> (int, bool, nat) {
    (e.record as int, e.packet, e.index as nat)
}

/// What entries stand for.
pub open spec fn entries_view(s: Seq<Entry>) -> Seq<(int, bool, nat)> {
    s.map_values(|e: Entry| entry_view(e))
}

pub open spec fn in_slot(packet: bool, index: nat) -> spec_fn((int, bool, nat)) -> bool {
    |e: (int, bool, nat)| e.1 == packet && e.2 == index
}

/// Where the row of a slot is.
pub open spec fn slot(entries: Seq<(int, bool, nat)>, packet: bool, index: nat) -> Option<int> {
    support::first_where(entries, in_slot(packet, index))
}

/// The rows of an inspection that the first `n` records are. No two are of one
/// slot.
pub open spec fn entries_of(r: RetainedModel, f: FileScope, sequences: Seq<i64>, n: nat) -> Result<
    Seq<(int, bool, nat)>,
    MigrationError,
>
    decreases n,
{
    if n == 0 {
        Ok(Seq::empty())
    } else {
        match entries_of(r, f, sequences, (n - 1) as nat) {
            Err(e) => Err(e),
            Ok(before) => match entry_of(r, f, sequences[n - 1]) {
                Err(e) => Err(e),
                Ok(entry) => if slot(before, entry.1, entry.2) is Some {
                    Err(MigrationError::PacketIndex)
                } else {
                    Ok(before.push(entry))
                },
            },
        }
    }
}

proof fn lemma_entries_error(r: RetainedModel, f: FileScope, sequences: Seq<i64>, n: nat)
    requires
        n <= sequences.len(),
        entries_of(r, f, sequences, n) is Err,
    ensures
        entries_of(r, f, sequences, sequences.len()) == entries_of(r, f, sequences, n),
    decreases sequences.len() - n,
{
    if n < sequences.len() {
        lemma_entries_error(r, f, sequences, n + 1);
    }
}

fn find_entry_slot(entries: &Vec<Entry>, packet: bool, index: usize) -> (r: Option<usize>)
    ensures
        match r {
            Some(i) => i < entries@.len() && slot(entries_view(entries@), packet, index as nat)
                == Some(i as int),
            None => slot(entries_view(entries@), packet, index as nat) is None,
        },
{
    let ghost p = in_slot(packet, index as nat);
    let ghost all = entries_view(entries@);
    let mut i: usize = 0;
    while i < entries.len()
        invariant
            i <= entries@.len(),
            p == in_slot(packet, index as nat),
            all == entries_view(entries@),
            forall|j: int| 0 <= j < i ==> !p(#[trigger] all[j]),
        decreases entries@.len() - i,
    {
        assert(all[i as int] == entry_view(entries@[i as int]));
        if entries[i].packet == packet && entries[i].index == index {
            proof {
                support::lemma_first_found(all, p, i as int);
            }
            return Some(i);
        }
        i += 1;
    }
    proof {
        support::lemma_none_found(all, p);
    }
    None
}

fn read_entry(
    r: &Retained,
    input: &str,
    revision: &str,
    source_id: &str,
    o: Origin,
    sequence: i64,
) -> (out: Result<Entry, MigrationError>)
    ensures
        match entry_of(
            r@,
            (FileScope { input: input@, revision: revision@, source_id: source_id@, origin: o }),
            sequence,
        ) {
            Err(e) => out == Err::<Entry, MigrationError>(e),
            Ok(entry) => out matches Ok(found) && entry_view(found) == entry && found.record
                < r.records@.len(),
        },
{
    let i: usize = match r.find_record(sequence) {
        None => return Err(MigrationError::RecordMissing),
        Some(i) => i,
    };
    let rec = &r.records[i];
    if !same(rec.input.as_str(), input) {
        return Err(MigrationError::RecordForeign);
    }
    if rec.collection != Collection::Packets || !same(rec.revision.as_str(), revision) {
        return Err(MigrationError::PacketForeign);
    }
    match rec.read_text("source_id", IDENTITY_BYTES) {
        Err(e) => return Err(e),
        Ok(id) => {
            if !same(id.as_str(), source_id) {
                return Err(MigrationError::PacketForeign);
            }
        },
    }
    match rec.read_text("origin", ORIGIN_BYTES) {
        Err(e) => Err(e),
        Ok(text) => match find_slot(text.as_str(), o) {
            None => Err(MigrationError::PacketIndex),
            Some((packet, index)) => Ok(Entry { record: i, packet, index }),
        },
    }
}

fn read_entries(
    r: &Retained,
    input: &str,
    revision: &str,
    source_id: &str,
    o: Origin,
    sequences: &Vec<i64>,
) -> (out: Result<Vec<Entry>, MigrationError>)
    ensures
        match entries_of(
            r@,
            (FileScope { input: input@, revision: revision@, source_id: source_id@, origin: o }),
            sequences@,
            sequences@.len(),
        ) {
            Err(e) => out == Err::<Vec<Entry>, MigrationError>(e),
            Ok(entries) => out matches Ok(found) && entries_view(found@) == entries && forall|
                k: int,
            |
                0 <= k < found@.len() ==> (#[trigger] found@[k]).record < r.records@.len(),
        },
{
    let ghost f = FileScope {
        input: input@,
        revision: revision@,
        source_id: source_id@,
        origin: o,
    };
    let mut entries: Vec<Entry> = Vec::new();
    let mut n: usize = 0;
    assert(entries_view(entries@) =~= Seq::empty());
    while n < sequences.len()
        invariant
            n <= sequences@.len(),
            f == (FileScope {
                input: input@,
                revision: revision@,
                source_id: source_id@,
                origin: o,
            }),
            entries_of(r@, f, sequences@, n as nat) == Ok::<
                Seq<(int, bool, nat)>,
                MigrationError,
            >(entries_view(entries@)),
            forall|k: int|
                0 <= k < entries@.len() ==> (#[trigger] entries@[k]).record < r.records@.len(),
        decreases sequences@.len() - n,
    {
        let ghost before = entries_view(entries@);
        match read_entry(r, input, revision, source_id, o, sequences[n]) {
            Err(e) => {
                proof {
                    lemma_entries_error(r@, f, sequences@, (n + 1) as nat);
                }
                return Err(e);
            },
            Ok(entry) => {
                if find_entry_slot(&entries, entry.packet, entry.index).is_some() {
                    proof {
                        lemma_entries_error(r@, f, sequences@, (n + 1) as nat);
                    }
                    return Err(MigrationError::PacketIndex);
                }
                entries.push(entry);
                assert(entries_view(entries@) =~= before.push(entry_view(entry)));
            },
        }
        n += 1;
    }
    Ok(entries)
}

/// The number that an inspection counted; none where it did not count.
pub open spec fn counted(n: Option<usize>) -> nat {
    match n {
        Some(k) => k as nat,
        None => 0,
    }
}

fn count_of(n: Option<usize>) -> (k: usize)
    ensures
        k == counted(n),
{
    match n {
        Some(k) => k,
        None => 0,
    }
}

/// Every slot below the counts has its row, and there is no other row.
pub open spec fn contiguous(entries: Seq<(int, bool, nat)>, packets: nat, inputs: nat) -> bool {
    &&& entries.len() == packets + inputs
    &&& forall|i: nat| i < packets ==> #[trigger] slot(entries, true, i) is Some
    &&& forall|i: nat| i < inputs ==> #[trigger] slot(entries, false, i) is Some
}

fn is_contiguous(entries: &Vec<Entry>, packets: usize, inputs: usize) -> (r: bool)
    requires
        packets <= COUNT,
        inputs <= COUNT,
    ensures
        r == contiguous(entries_view(entries@), packets as nat, inputs as nat),
{
    let ghost all = entries_view(entries@);
    assert(all.len() == entries@.len());
    if entries.len() != packets + inputs {
        return false;
    }
    let mut i: usize = 0;
    while i < packets
        invariant
            i <= packets,
            all == entries_view(entries@),
            forall|j: nat| j < i ==> #[trigger] slot(all, true, j) is Some,
        decreases packets - i,
    {
        if find_entry_slot(entries, true, i).is_none() {
            assert(!(slot(all, true, i as nat) is Some));
            return false;
        }
        i += 1;
    }
    let mut k: usize = 0;
    while k < inputs
        invariant
            k <= inputs,
            all == entries_view(entries@),
            forall|j: nat| j < packets ==> #[trigger] slot(all, true, j) is Some,
            forall|j: nat| j < k ==> #[trigger] slot(all, false, j) is Some,
        decreases inputs - k,
    {
        if find_entry_slot(entries, false, k).is_none() {
            assert(!(slot(all, false, k as nat) is Some));
            return false;
        }
        k += 1;
    }
    true
}

/// What an inspection says of its counts and its state is enough, and its rows are
/// those that it counted. Where the rows were not read, only their number is
/// looked at.
pub open spec fn roster_refusal(
    observed: Option<Observation>,
    entries: Seq<(int, bool, nat)>,
    rows: nat,
    fit: bool,
) -> Option<MigrationError> {
    let (packets, inputs) = match observed {
        Some(o) => (counted(o.packets), counted(o.parse_inputs)),
        None => (0, 0),
    };
    if packets > COUNT || inputs > COUNT {
        Some(MigrationError::RosterDiffers)
    } else if !(if fit {
        contiguous(entries, packets, inputs)
    } else {
        rows == packets + inputs
    }) {
        Some(MigrationError::RosterDiffers)
    } else if observed matches Some(o) && o.status is Some && !(o.revision is Some && o.packets is Some
        && o.parse_inputs is Some) {
        Some(MigrationError::InspectionIncomplete)
    } else {
        None
    }
}

fn check_roster(observed: Option<&Observation>, entries: &Vec<Entry>, rows: usize, fit: bool) -> (r:
    Option<MigrationError>)
    ensures
        r == roster_refusal(
            (match observed {
                Some(o) => Some(*o),
                None => None,
            }),
            entries_view(entries@),
            rows as nat,
            fit,
        ),
{
    let (packets, inputs): (usize, usize) = match observed {
        Some(o) => (count_of(o.packets), count_of(o.parse_inputs)),
        None => (0, 0),
    };
    if packets > COUNT || inputs > COUNT {
        return Some(MigrationError::RosterDiffers);
    }
    let whole: bool = if fit {
        is_contiguous(entries, packets, inputs)
    } else {
        rows == packets + inputs
    };
    if !whole {
        return Some(MigrationError::RosterDiffers);
    }
    if let Some(o) = observed {
        if o.status.is_some() && !(o.revision.is_some() && o.packets.is_some()
            && o.parse_inputs.is_some()) {
            return Some(MigrationError::InspectionIncomplete);
        }
    }
    None
}

/// What an earlier inspection of an origin says: which of the path's observations
/// it is, and the rows that it left.
pub open spec fn historical(
    r: RetainedModel,
    f: FileScope,
    path: RecordModel,
    sequences: Seq<i64>,
    fit: bool,
) -> Result<(Option<Observation>, Seq<(int, bool, nat)>), MigrationError> {
    match (path.field_bytes("evidence"@, META as nat), path.detail) {
        (Err(e), _) => Err(e),
        (Ok(_), Detail::Path(detail)) => match chosen(detail, f.origin) {
            Err(e) => Err(e),
            Ok(at) => {
                let observed = match at {
                    Some(i) => Some(detail.inspections->0@[i]),
                    None => None,
                };
                match path.field_text("inspection_path"@, META as nat) {
                    Err(e) => Err(e),
                    Ok(_) => {
                        let read = if fit {
                            entries_of(r, f, sequences, sequences.len())
                        } else {
                            Ok(Seq::empty())
                        };
                        match read {
                            Err(e) => Err(e),
                            Ok(entries) => match roster_refusal(
                                observed,
                                entries,
                                sequences.len(),
                                fit,
                            ) {
                                Some(e) => Err(e),
                                None => Ok((observed, entries)),
                            },
                        }
                    },
                }
            },
        },
        _ => Err(MigrationError::FieldType),
    }
}

/// What an earlier inspection of an origin says.
pub fn read_historical<'a>(
    r: &'a Retained,
    path: usize,
    input: &str,
    revision: &str,
    source_id: &str,
    o: Origin,
    sequences: &Vec<i64>,
    fit: bool,
) -> (out: Result<(Option<&'a Observation>, Vec<Entry>), MigrationError>)
    requires
        path < r.records@.len(),
    ensures
        match historical(
            r@,
            (FileScope { input: input@, revision: revision@, source_id: source_id@, origin: o }),
            r.records@[path as int]@,
            sequences@,
            fit,
        ) {
            Err(e) => out == Err::<(Option<&'a Observation>, Vec<Entry>), MigrationError>(e),
            Ok((observed, entries)) => out matches Ok((found, rows)) && (match found {
                Some(o) => observed == Some(*o),
                None => observed is None,
            }) && entries_view(rows@) == entries && forall|k: int|
                0 <= k < rows@.len() ==> (#[trigger] rows@[k]).record < r.records@.len(),
        },
{
    let rec = &r.records[path];
    match rec.read_bytes("evidence", META) {
        Err(e) => return Err(e),
        Ok(_) => {},
    }
    let detail: &PathDetail = match &rec.detail {
        Detail::Path(detail) => detail,
        _ => return Err(MigrationError::FieldType),
    };
    let at: Option<usize> = match choose_observation(detail, o) {
        Err(e) => return Err(e),
        Ok(at) => at,
    };
    let observed: Option<&'a Observation> = match (at, &detail.inspections) {
        (Some(i), Some(values)) => Some(&values[i]),
        _ => None,
    };
    match rec.read_text("inspection_path", META) {
        Err(e) => return Err(e),
        Ok(_) => {},
    }
    let entries: Vec<Entry> = if fit {
        match read_entries(r, input, revision, source_id, o, sequences) {
            Err(e) => return Err(e),
            Ok(entries) => entries,
        }
    } else {
        Vec::new()
    };
    assert(!fit ==> entries_view(entries@) =~= Seq::empty());
    match check_roster(observed, &entries, sequences.len(), fit) {
        Some(e) => Err(e),
        None => Ok((observed, entries)),
    }
}

/// The bytes of the documents of the first `n` rows.
pub open spec fn documents_total(r: RetainedModel, entries: Seq<(int, bool, nat)>, n: nat) -> Result<
    nat,
    MigrationError,
>
    decreases n,
{
    if n == 0 {
        Ok(0)
    } else {
        match documents_total(r, entries, (n - 1) as nat) {
            Err(e) => Err(e),
            Ok(before) => match length_of(r.records[entries[n - 1].0], "detail"@) {
                Err(e) => Err(e),
                Ok(length) => Ok(before + length),
            },
        }
    }
}

/// The record in a slot.
pub open spec fn record_in(r: RetainedModel, entries: Seq<(int, bool, nat)>, packet: bool, i: nat) -> RecordModel {
    r.records[entries[slot(entries, packet, i)->0].0]
}

/// The field that holds a row's bytes.
pub open spec fn carrier(packet: bool) -> Seq<char> {
    if packet {
        "raw"@
    } else {
        "decoded"@
    }
}

/// The bytes of the first `n` packets, or inputs; nothing once one is too large.
pub open spec fn payload_total(
    r: RetainedModel,
    entries: Seq<(int, bool, nat)>,
    packet: bool,
    n: nat,
) -> Result<Option<nat>, MigrationError>
    decreases n,
{
    if n == 0 {
        Ok(Some(0))
    } else {
        match payload_total(r, entries, packet, (n - 1) as nat) {
            Err(e) => Err(e),
            Ok(None) => Ok(None),
            Ok(Some(before)) => match length_of(
                record_in(r, entries, packet, (n - 1) as nat),
                carrier(packet),
            ) {
                Err(e) => Err(e),
                Ok(length) => if length > PACKET {
                    Ok(None)
                } else {
                    Ok(Some(before + length))
                },
            },
        }
    }
}

/// A row that cannot be understood makes the whole inspection retained only.
pub enum Rebuilt<T> {
    Built(T),
    RetainedOnly,
    Refused(MigrationError),
}

/// The packet in a slot.
pub open spec fn packet_rebuilt(
    rec: RecordModel,
    revision: retained::SourceRevisionModel,
    path: retained::PathModel,
) -> Rebuilt<RawPacketModel> {
    match (rec.field_text("detail"@, META as nat), rec.detail) {
        (Err(e), _) => Rebuilt::Refused(e),
        (Ok(_), Detail::Packet(d)) => match d.container {
            None => Rebuilt::RetainedOnly,
            Some(container) => if d.source_revision@ != revision || d.inspection_status
                != Status::Complete || d.source_path@ != path {
                Rebuilt::Refused(MigrationError::PacketDiffers)
            } else if !ranges_fit(d.ranges@, revision.length) {
                Rebuilt::Refused(MigrationError::RangeBounds)
            } else {
                match (
                    rec.field_bytes("raw"@, PACKET as nat),
                    rec.field_text("raw_digest"@, 64),
                    length_of(rec, "decoded"@),
                ) {
                    (Err(e), _, _) => Rebuilt::Refused(e),
                    (_, Err(e), _) => Rebuilt::Refused(e),
                    (Ok(bytes), Ok(hash), rest) => if outside::blake3_hex(bytes) != hash {
                        Rebuilt::Refused(MigrationError::DigestDiffers)
                    } else {
                        match rest {
                            Err(e) => Rebuilt::Refused(e),
                            Ok(length) => if length != 0 {
                                Rebuilt::Refused(MigrationError::CarrierDiffers)
                            } else {
                                Rebuilt::Built(
                                    RawPacketModel {
                                        container: container@,
                                        bytes,
                                        blake3: hash,
                                        ranges: d.ranges@,
                                        group: d.group@,
                                        attributes: d.attributes@,
                                    },
                                )
                            },
                        }
                    },
                }
            },
        },
        _ => Rebuilt::Refused(MigrationError::FieldType),
    }
}

/// The input in a slot.
pub open spec fn input_rebuilt(
    rec: RecordModel,
    revision: retained::SourceRevisionModel,
    packets: nat,
) -> Rebuilt<RawInputModel> {
    match (rec.field_text("detail"@, META as nat), rec.detail) {
        (Err(e), _) => Rebuilt::Refused(e),
        (Ok(_), Detail::Parse(d)) => match d.transformation {
            None => Rebuilt::RetainedOnly,
            Some(transformation) => if d.source_revision@ != revision || d.inspection_status
                != Status::Complete {
                Rebuilt::Refused(MigrationError::PacketDiffers)
            } else if !indices_fit(d.packet_indices@, packets) {
                Rebuilt::Refused(MigrationError::IndexBounds)
            } else {
                match length_of(rec, "raw"@) {
                    Err(e) => Rebuilt::Refused(e),
                    Ok(length) => if length != 0 {
                        Rebuilt::Refused(MigrationError::CarrierDiffers)
                    } else {
                        match (
                            rec.field_bytes("decoded"@, PACKET as nat),
                            rec.field_text("raw_digest"@, 64),
                        ) {
                            (Err(e), _) => Rebuilt::Refused(e),
                            (_, Err(e)) => Rebuilt::Refused(e),
                            (Ok(bytes), Ok(hash)) => if outside::blake3_hex(bytes) != hash || hash
                                != d.input_blake3@ {
                                Rebuilt::Refused(MigrationError::DigestDiffers)
                            } else {
                                Rebuilt::Built(
                                    RawInputModel {
                                        bytes,
                                        blake3: hash,
                                        packet_indices: d.packet_indices@,
                                        transformation: transformation@,
                                        group: d.group@,
                                    },
                                )
                            },
                        }
                    },
                }
            },
        },
        _ => Rebuilt::Refused(MigrationError::FieldType),
    }
}

/// The first `n` packets.
pub open spec fn packets_rebuilt(
    r: RetainedModel,
    entries: Seq<(int, bool, nat)>,
    revision: retained::SourceRevisionModel,
    path: retained::PathModel,
    n: nat,
) -> Rebuilt<Seq<RawPacketModel>>
    decreases n,
{
    if n == 0 {
        Rebuilt::Built(Seq::empty())
    } else {
        match packets_rebuilt(r, entries, revision, path, (n - 1) as nat) {
            Rebuilt::Built(before) => match packet_rebuilt(
                record_in(r, entries, true, (n - 1) as nat),
                revision,
                path,
            ) {
                Rebuilt::Built(packet) => Rebuilt::Built(before.push(packet)),
                Rebuilt::RetainedOnly => Rebuilt::RetainedOnly,
                Rebuilt::Refused(e) => Rebuilt::Refused(e),
            },
            Rebuilt::RetainedOnly => Rebuilt::RetainedOnly,
            Rebuilt::Refused(e) => Rebuilt::Refused(e),
        }
    }
}

/// The first `n` inputs.
pub open spec fn inputs_rebuilt(
    r: RetainedModel,
    entries: Seq<(int, bool, nat)>,
    revision: retained::SourceRevisionModel,
    packets: nat,
    n: nat,
) -> Rebuilt<Seq<RawInputModel>>
    decreases n,
{
    if n == 0 {
        Rebuilt::Built(Seq::empty())
    } else {
        match inputs_rebuilt(r, entries, revision, packets, (n - 1) as nat) {
            Rebuilt::Built(before) => match input_rebuilt(
                record_in(r, entries, false, (n - 1) as nat),
                revision,
                packets,
            ) {
                Rebuilt::Built(input) => Rebuilt::Built(before.push(input)),
                Rebuilt::RetainedOnly => Rebuilt::RetainedOnly,
                Rebuilt::Refused(e) => Rebuilt::Refused(e),
            },
            Rebuilt::RetainedOnly => Rebuilt::RetainedOnly,
            Rebuilt::Refused(e) => Rebuilt::Refused(e),
        }
    }
}

/// The rows of a complete inspection put together again.
pub open spec fn rows_rebuilt(
    r: RetainedModel,
    entries: Seq<(int, bool, nat)>,
    revision: retained::SourceRevisionModel,
    path: retained::PathModel,
    issues: Seq<char>,
    packets: nat,
    inputs: nat,
) -> Rebuilt<RawInspectionModel> {
    match packets_rebuilt(r, entries, revision, path, packets) {
        Rebuilt::RetainedOnly => Rebuilt::RetainedOnly,
        Rebuilt::Refused(e) => Rebuilt::Refused(e),
        Rebuilt::Built(found) => match inputs_rebuilt(r, entries, revision, packets, inputs) {
            Rebuilt::RetainedOnly => Rebuilt::RetainedOnly,
            Rebuilt::Refused(e) => Rebuilt::Refused(e),
            Rebuilt::Built(parse_inputs) => Rebuilt::Built(
                RawInspectionModel { revision, issues, packets: found, parse_inputs },
            ),
        },
    }
}

/// Whether the rows are small enough to be put together.
pub open spec fn sizes_fit(
    r: RetainedModel,
    entries: Seq<(int, bool, nat)>,
    packets: nat,
    inputs: nat,
) -> Result<bool, MigrationError> {
    match documents_total(r, entries, entries.len()) {
        Err(e) => Err(e),
        Ok(documents) => if documents > META {
            Ok(false)
        } else {
            match payload_total(r, entries, true, packets) {
                Err(e) => Err(e),
                Ok(None) => Ok(false),
                Ok(Some(raw)) => match payload_total(r, entries, false, inputs) {
                    Err(e) => Err(e),
                    Ok(None) => Ok(false),
                    Ok(Some(decoded)) => Ok(raw <= PAYLOAD && decoded <= PAYLOAD),
                },
            }
        },
    }
}

/// An earlier inspection put together again. What was not complete, cannot be
/// located here, is too large or is not understood stays retained only.
pub open spec fn reconstructed(
    r: RetainedModel,
    observed: Option<Observation>,
    base: retained::PathModel,
    entries: Seq<(int, bool, nat)>,
    o: Origin,
) -> Rebuilt<RawInspectionModel> {
    match observed {
        None => Rebuilt::RetainedOnly,
        Some(v) => match (v.revision, v.status, located(base, o)) {
            (Some(revision), Some(Status::Complete), Some(path)) => {
                let packets = counted(v.packets);
                let inputs = counted(v.parse_inputs);
                match sizes_fit(r, entries, packets, inputs) {
                    Err(e) => Rebuilt::Refused(e),
                    Ok(false) => Rebuilt::RetainedOnly,
                    Ok(true) => rows_rebuilt(
                        r,
                        entries,
                        revision@,
                        path,
                        v.issues@,
                        packets,
                        inputs,
                    ),
                }
            },
            _ => Rebuilt::RetainedOnly,
        },
    }
}

proof fn lemma_documents_error(r: RetainedModel, entries: Seq<(int, bool, nat)>, n: nat)
    requires
        n <= entries.len(),
        documents_total(r, entries, n) is Err,
    ensures
        documents_total(r, entries, entries.len()) == documents_total(r, entries, n),
    decreases entries.len() - n,
{
    if n < entries.len() {
        lemma_documents_error(r, entries, n + 1);
    }
}

proof fn lemma_payload_stopped(
    r: RetainedModel,
    entries: Seq<(int, bool, nat)>,
    packet: bool,
    n: nat,
    total: nat,
)
    requires
        n <= total,
        !(payload_total(r, entries, packet, n) matches Ok(Some(_))),
    ensures
        payload_total(r, entries, packet, total) == payload_total(r, entries, packet, n),
    decreases total - n,
{
    if n < total {
        lemma_payload_stopped(r, entries, packet, n + 1, total);
    }
}

fn add_documents(r: &Retained, entries: &Vec<Entry>) -> (out: Result<u128, MigrationError>)
    requires
        entries@.len() <= 2 * COUNT,
        forall|k: int| 0 <= k < entries@.len() ==> (#[trigger] entries@[k]).record < r.records@.len(),
    ensures
        match documents_total(r@, entries_view(entries@), entries@.len()) {
            Ok(total) => out matches Ok(t) && t == total,
            Err(e) => out == Err::<u128, MigrationError>(e),
        },
{
    let ghost all = entries_view(entries@);
    let mut total: u128 = 0;
    let mut n: usize = 0;
    while n < entries.len()
        invariant
            n <= entries@.len() <= 2 * COUNT,
            all == entries_view(entries@),
            forall|k: int|
                0 <= k < entries@.len() ==> (#[trigger] entries@[k]).record < r.records@.len(),
            total <= n * 0x1_0000_0000_0000_0000,
            documents_total(r@, all, n as nat) == Ok::<nat, MigrationError>(total as nat),
        decreases entries@.len() - n,
    {
        let e: Entry = entries[n];
        proof {
            assert(all[n as int] == entry_view(e));
            assert(r@.records[e.record as int] == r.records@[e.record as int]@);
        }
        match field_length(&r.records[e.record], "detail") {
            Err(e) => {
                proof {
                    lemma_documents_error(r@, all, (n + 1) as nat);
                }
                return Err(e);
            },
            Ok(length) => total = total + length as u128,
        }
        n += 1;
    }
    assert(all.len() == entries@.len());
    Ok(total)
}

fn add_payload(r: &Retained, entries: &Vec<Entry>, packet: bool, count: usize) -> (out: Result<
    Option<u64>,
    MigrationError,
>)
    requires
        count <= COUNT,
        forall|k: int| 0 <= k < entries@.len() ==> (#[trigger] entries@[k]).record < r.records@.len(),
        forall|i: nat| i < count ==> #[trigger] slot(entries_view(entries@), packet, i) is Some,
    ensures
        match payload_total(r@, entries_view(entries@), packet, count as nat) {
            Ok(Some(total)) => out matches Ok(Some(t)) && t == total,
            Ok(None) => out == Ok::<Option<u64>, MigrationError>(None),
            Err(e) => out == Err::<Option<u64>, MigrationError>(e),
        },
{
    let ghost all = entries_view(entries@);
    let mut total: u64 = 0;
    let mut n: usize = 0;
    while n < count
        invariant
            n <= count <= COUNT,
            all == entries_view(entries@),
            forall|k: int|
                0 <= k < entries@.len() ==> (#[trigger] entries@[k]).record < r.records@.len(),
            forall|i: nat| i < count ==> #[trigger] slot(all, packet, i) is Some,
            total <= n * PACKET,
            payload_total(r@, all, packet, n as nat) == Ok::<Option<nat>, MigrationError>(
                Some(total as nat),
            ),
        decreases count - n,
    {
        match find_entry_slot(entries, packet, n) {
            None => {
                assert(slot(all, packet, n as nat) is Some);
            },
            Some(k) => {
                let at: usize = entries[k].record;
                proof {
                    assert(all[k as int] == entry_view(entries@[k as int]));
                    assert(r@.records[at as int] == r.records@[at as int]@);
                }
                let name: &str = if packet {
                    "raw"
                } else {
                    "decoded"
                };
                match field_length(&r.records[at], name) {
                    Err(e) => {
                        proof {
                            lemma_payload_stopped(r@, all, packet, (n + 1) as nat, count as nat);
                        }
                        return Err(e);
                    },
                    Ok(length) => {
                        if length > PACKET {
                            proof {
                                lemma_payload_stopped(
                                    r@,
                                    all,
                                    packet,
                                    (n + 1) as nat,
                                    count as nat,
                                );
                            }
                            return Ok(None);
                        }
                        total = total + length as u64;
                    },
                }
            },
        }
        n += 1;
    }
    Ok(Some(total))
}

fn check_sizes(r: &Retained, entries: &Vec<Entry>, packets: usize, inputs: usize) -> (out: Result<
    bool,
    MigrationError,
>)
    requires
        packets <= COUNT,
        inputs <= COUNT,
        contiguous(entries_view(entries@), packets as nat, inputs as nat),
        forall|k: int| 0 <= k < entries@.len() ==> (#[trigger] entries@[k]).record < r.records@.len(),
    ensures
        out == sizes_fit(r@, entries_view(entries@), packets as nat, inputs as nat),
{
    assert(entries_view(entries@).len() == entries@.len());
    match add_documents(r, entries) {
        Err(e) => return Err(e),
        Ok(total) => {
            if total > META as u128 {
                return Ok(false);
            }
        },
    }
    let raw: u64 = match add_payload(r, entries, true, packets) {
        Err(e) => return Err(e),
        Ok(None) => return Ok(false),
        Ok(Some(total)) => total,
    };
    match add_payload(r, entries, false, inputs) {
        Err(e) => Err(e),
        Ok(None) => Ok(false),
        Ok(Some(decoded)) => Ok(raw <= PAYLOAD as u64 && decoded <= PAYLOAD as u64),
    }
}

pub(crate) fn copy_ranges(values: &Vec<ByteRange>) -> (c: Vec<ByteRange>)
    ensures
        c@ == values@,
{
    let mut c: Vec<ByteRange> = Vec::new();
    let mut i: usize = 0;
    while i < values.len()
        invariant
            i <= values@.len(),
            c@ == values@.take(i as int),
        decreases values@.len() - i,
    {
        c.push(values[i]);
        assert(c@ =~= values@.take(i + 1));
        i += 1;
    }
    assert(c@ =~= values@);
    c
}

pub(crate) fn copy_indices(values: &Vec<usize>) -> (c: Vec<usize>)
    ensures
        c@ == values@,
{
    let mut c: Vec<usize> = Vec::new();
    let mut i: usize = 0;
    while i < values.len()
        invariant
            i <= values@.len(),
            c@ == values@.take(i as int),
        decreases values@.len() - i,
    {
        c.push(values[i]);
        assert(c@ =~= values@.take(i + 1));
        i += 1;
    }
    assert(c@ =~= values@);
    c
}

fn rebuild_packet(rec: &EvidenceRecord, revision: &SourceRevision, path: &NativePath) -> (out: Rebuilt<
    RawPacket,
>)
    ensures
        match packet_rebuilt(rec@, revision@, path@) {
            Rebuilt::Built(packet) => out matches Rebuilt::Built(found) && found@ == packet,
            Rebuilt::RetainedOnly => out is RetainedOnly,
            Rebuilt::Refused(e) => out == Rebuilt::<RawPacket>::Refused(e),
        },
{
    match rec.read_text("detail", META) {
        Err(e) => return Rebuilt::Refused(e),
        Ok(_) => {},
    }
    let d = match &rec.detail {
        Detail::Packet(d) => d,
        _ => return Rebuilt::Refused(MigrationError::FieldType),
    };
    let container: String = match &d.container {
        None => return Rebuilt::RetainedOnly,
        Some(container) => container.clone(),
    };
    if !d.source_revision.same_as(revision) || d.inspection_status != Status::Complete
        || !same_path(&d.source_path, path) {
        return Rebuilt::Refused(MigrationError::PacketDiffers);
    }
    if !ranges(&d.ranges, revision) {
        return Rebuilt::Refused(MigrationError::RangeBounds);
    }
    let bytes: Vec<u8> = match rec.read_bytes("raw", PACKET) {
        Err(e) => return Rebuilt::Refused(e),
        Ok(bytes) => bytes,
    };
    let hash: String = match rec.read_text("raw_digest", 64) {
        Err(e) => return Rebuilt::Refused(e),
        Ok(hash) => hash,
    };
    if !same(blake3_digest(bytes.as_slice()).as_str(), hash.as_str()) {
        return Rebuilt::Refused(MigrationError::DigestDiffers);
    }
    match field_length(rec, "decoded") {
        Err(e) => return Rebuilt::Refused(e),
        Ok(length) => {
            if length != 0 {
                return Rebuilt::Refused(MigrationError::CarrierDiffers);
            }
        },
    }
    Rebuilt::Built(
        RawPacket {
            container,
            bytes,
            blake3: hash,
            ranges: copy_ranges(&d.ranges),
            group: d.group.clone(),
            attributes: d.attributes.clone(),
        },
    )
}

fn rebuild_input(rec: &EvidenceRecord, revision: &SourceRevision, packets: usize) -> (out: Rebuilt<
    RawInput,
>)
    ensures
        match input_rebuilt(rec@, revision@, packets as nat) {
            Rebuilt::Built(input) => out matches Rebuilt::Built(found) && found@ == input,
            Rebuilt::RetainedOnly => out is RetainedOnly,
            Rebuilt::Refused(e) => out == Rebuilt::<RawInput>::Refused(e),
        },
{
    match rec.read_text("detail", META) {
        Err(e) => return Rebuilt::Refused(e),
        Ok(_) => {},
    }
    let d = match &rec.detail {
        Detail::Parse(d) => d,
        _ => return Rebuilt::Refused(MigrationError::FieldType),
    };
    let transformation: String = match &d.transformation {
        None => return Rebuilt::RetainedOnly,
        Some(transformation) => transformation.clone(),
    };
    if !d.source_revision.same_as(revision) || d.inspection_status != Status::Complete {
        return Rebuilt::Refused(MigrationError::PacketDiffers);
    }
    if !indices(&d.packet_indices, packets) {
        return Rebuilt::Refused(MigrationError::IndexBounds);
    }
    match field_length(rec, "raw") {
        Err(e) => return Rebuilt::Refused(e),
        Ok(length) => {
            if length != 0 {
                return Rebuilt::Refused(MigrationError::CarrierDiffers);
            }
        },
    }
    let bytes: Vec<u8> = match rec.read_bytes("decoded", PACKET) {
        Err(e) => return Rebuilt::Refused(e),
        Ok(bytes) => bytes,
    };
    let hash: String = match rec.read_text("raw_digest", 64) {
        Err(e) => return Rebuilt::Refused(e),
        Ok(hash) => hash,
    };
    if !same(blake3_digest(bytes.as_slice()).as_str(), hash.as_str()) || !same(
        hash.as_str(),
        d.input_blake3.as_str(),
    ) {
        return Rebuilt::Refused(MigrationError::DigestDiffers);
    }
    Rebuilt::Built(
        RawInput {
            bytes,
            blake3: hash,
            packet_indices: copy_indices(&d.packet_indices),
            transformation,
            group: d.group.clone(),
        },
    )
}

proof fn lemma_packets_stopped(
    r: RetainedModel,
    entries: Seq<(int, bool, nat)>,
    revision: retained::SourceRevisionModel,
    path: retained::PathModel,
    n: nat,
    total: nat,
)
    requires
        n <= total,
        !(packets_rebuilt(r, entries, revision, path, n) is Built),
    ensures
        packets_rebuilt(r, entries, revision, path, total) == packets_rebuilt(
            r,
            entries,
            revision,
            path,
            n,
        ),
    decreases total - n,
{
    if n < total {
        lemma_packets_stopped(r, entries, revision, path, n + 1, total);
    }
}

proof fn lemma_inputs_stopped(
    r: RetainedModel,
    entries: Seq<(int, bool, nat)>,
    revision: retained::SourceRevisionModel,
    packets: nat,
    n: nat,
    total: nat,
)
    requires
        n <= total,
        !(inputs_rebuilt(r, entries, revision, packets, n) is Built),
    ensures
        inputs_rebuilt(r, entries, revision, packets, total) == inputs_rebuilt(
            r,
            entries,
            revision,
            packets,
            n,
        ),
    decreases total - n,
{
    if n < total {
        lemma_inputs_stopped(r, entries, revision, packets, n + 1, total);
    }
}

fn rebuild_packets(
    r: &Retained,
    entries: &Vec<Entry>,
    revision: &SourceRevision,
    path: &NativePath,
    count: usize,
) -> (out: Rebuilt<Vec<RawPacket>>)
    requires
        count <= COUNT,
        forall|k: int| 0 <= k < entries@.len() ==> (#[trigger] entries@[k]).record < r.records@.len(),
        forall|i: nat| i < count ==> #[trigger] slot(entries_view(entries@), true, i) is Some,
    ensures
        match packets_rebuilt(r@, entries_view(entries@), revision@, path@, count as nat) {
            Rebuilt::Built(packets) => out matches Rebuilt::Built(found) && support::models(found@)
                == packets,
            Rebuilt::RetainedOnly => out is RetainedOnly,
            Rebuilt::Refused(e) => out == Rebuilt::<Vec<RawPacket>>::Refused(e),
        },
{
    let ghost all = entries_view(entries@);
    let mut packets: Vec<RawPacket> = Vec::new();
    let mut n: usize = 0;
    assert(support::models(packets@) =~= Seq::<RawPacketModel>::empty());
    while n < count
        invariant
            n <= count <= COUNT,
            all == entries_view(entries@),
            forall|k: int|
                0 <= k < entries@.len() ==> (#[trigger] entries@[k]).record < r.records@.len(),
            forall|i: nat| i < count ==> #[trigger] slot(all, true, i) is Some,
            packets_rebuilt(r@, all, revision@, path@, n as nat) == Rebuilt::Built(
                support::models(packets@),
            ),
        decreases count - n,
    {
        match find_entry_slot(entries, true, n) {
            None => {
                assert(slot(all, true, n as nat) is Some);
            },
            Some(k) => {
                let at: usize = entries[k].record;
                let ghost before = support::models(packets@);
                proof {
                    assert(all[k as int] == entry_view(entries@[k as int]));
                    assert(r@.records[at as int] == r.records@[at as int]@);
                }
                match rebuild_packet(&r.records[at], revision, path) {
                    Rebuilt::Built(packet) => {
                        packets.push(packet);
                        assert(support::models(packets@) =~= before.push(packet@));
                    },
                    Rebuilt::RetainedOnly => {
                        proof {
                            lemma_packets_stopped(
                                r@,
                                all,
                                revision@,
                                path@,
                                (n + 1) as nat,
                                count as nat,
                            );
                        }
                        return Rebuilt::RetainedOnly;
                    },
                    Rebuilt::Refused(e) => {
                        proof {
                            lemma_packets_stopped(
                                r@,
                                all,
                                revision@,
                                path@,
                                (n + 1) as nat,
                                count as nat,
                            );
                        }
                        return Rebuilt::Refused(e);
                    },
                }
            },
        }
        n += 1;
    }
    Rebuilt::Built(packets)
}

fn rebuild_inputs(
    r: &Retained,
    entries: &Vec<Entry>,
    revision: &SourceRevision,
    packets: usize,
    count: usize,
) -> (out: Rebuilt<Vec<RawInput>>)
    requires
        count <= COUNT,
        forall|k: int| 0 <= k < entries@.len() ==> (#[trigger] entries@[k]).record < r.records@.len(),
        forall|i: nat| i < count ==> #[trigger] slot(entries_view(entries@), false, i) is Some,
    ensures
        match inputs_rebuilt(r@, entries_view(entries@), revision@, packets as nat, count as nat) {
            Rebuilt::Built(inputs) => out matches Rebuilt::Built(found) && support::models(found@)
                == inputs,
            Rebuilt::RetainedOnly => out is RetainedOnly,
            Rebuilt::Refused(e) => out == Rebuilt::<Vec<RawInput>>::Refused(e),
        },
{
    let ghost all = entries_view(entries@);
    let mut inputs: Vec<RawInput> = Vec::new();
    let mut n: usize = 0;
    assert(support::models(inputs@) =~= Seq::<RawInputModel>::empty());
    while n < count
        invariant
            n <= count <= COUNT,
            all == entries_view(entries@),
            forall|k: int|
                0 <= k < entries@.len() ==> (#[trigger] entries@[k]).record < r.records@.len(),
            forall|i: nat| i < count ==> #[trigger] slot(all, false, i) is Some,
            inputs_rebuilt(r@, all, revision@, packets as nat, n as nat) == Rebuilt::Built(
                support::models(inputs@),
            ),
        decreases count - n,
    {
        match find_entry_slot(entries, false, n) {
            None => {
                assert(slot(all, false, n as nat) is Some);
            },
            Some(k) => {
                let at: usize = entries[k].record;
                let ghost before = support::models(inputs@);
                proof {
                    assert(all[k as int] == entry_view(entries@[k as int]));
                    assert(r@.records[at as int] == r.records@[at as int]@);
                }
                match rebuild_input(&r.records[at], revision, packets) {
                    Rebuilt::Built(input) => {
                        inputs.push(input);
                        assert(support::models(inputs@) =~= before.push(input@));
                    },
                    Rebuilt::RetainedOnly => {
                        proof {
                            lemma_inputs_stopped(
                                r@,
                                all,
                                revision@,
                                packets as nat,
                                (n + 1) as nat,
                                count as nat,
                            );
                        }
                        return Rebuilt::RetainedOnly;
                    },
                    Rebuilt::Refused(e) => {
                        proof {
                            lemma_inputs_stopped(
                                r@,
                                all,
                                revision@,
                                packets as nat,
                                (n + 1) as nat,
                                count as nat,
                            );
                        }
                        return Rebuilt::Refused(e);
                    },
                }
            },
        }
        n += 1;
    }
    Rebuilt::Built(inputs)
}

/// An earlier inspection put together again.
pub fn reconstruct(
    r: &Retained,
    observed: Option<&Observation>,
    base: &NativePath,
    entries: &Vec<Entry>,
    o: Origin,
) -> (out: Rebuilt<RawInspection>)
    requires
        forall|k: int| 0 <= k < entries@.len() ==> (#[trigger] entries@[k]).record < r.records@.len(),
        observed matches Some(v) ==> counted(v.packets) <= COUNT && counted(v.parse_inputs) <= COUNT
            && contiguous(entries_view(entries@), counted(v.packets), counted(v.parse_inputs)),
    ensures
        match reconstructed(
            r@,
            (match observed {
                Some(v) => Some(*v),
                None => None,
            }),
            base@,
            entries_view(entries@),
            o,
        ) {
            Rebuilt::Built(inspection) => out matches Rebuilt::Built(found) && found@ == inspection,
            Rebuilt::RetainedOnly => out is RetainedOnly,
            Rebuilt::Refused(e) => out == Rebuilt::<RawInspection>::Refused(e),
        },
{
    let v = match observed {
        None => return Rebuilt::RetainedOnly,
        Some(v) => v,
    };
    let revision: &SourceRevision = match &v.revision {
        None => return Rebuilt::RetainedOnly,
        Some(revision) => revision,
    };
    match v.status {
        Some(Status::Complete) => {},
        _ => return Rebuilt::RetainedOnly,
    }
    let path: NativePath = match origin_path(base, o) {
        None => return Rebuilt::RetainedOnly,
        Some(path) => path,
    };
    let packets: usize = count_of(v.packets);
    let inputs: usize = count_of(v.parse_inputs);
    match check_sizes(r, entries, packets, inputs) {
        Err(e) => return Rebuilt::Refused(e),
        Ok(false) => return Rebuilt::RetainedOnly,
        Ok(true) => {},
    }
    let found: Vec<RawPacket> = match rebuild_packets(r, entries, revision, &path, packets) {
        Rebuilt::Built(found) => found,
        Rebuilt::RetainedOnly => return Rebuilt::RetainedOnly,
        Rebuilt::Refused(e) => return Rebuilt::Refused(e),
    };
    match rebuild_inputs(r, entries, revision, packets, inputs) {
        Rebuilt::Built(parse_inputs) => Rebuilt::Built(
            RawInspection {
                revision: revision.copied(),
                issues: v.issues.clone(),
                packets: found,
                parse_inputs,
            },
        ),
        Rebuilt::RetainedOnly => Rebuilt::RetainedOnly,
        Rebuilt::Refused(e) => Rebuilt::Refused(e),
    }
}

} // verus!

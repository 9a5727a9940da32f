//! Projection of a file's metadata: what was retained of one origin of a file
//! becomes an observation of its original, once.
use crate::catalog::Catalog;
use crate::catalog_metadata::prepared;
use crate::catalog_metadata::prepared::{Inspection, Prepared, Source};
use crate::catalog_metadata::store;
use crate::catalog_metadata::store::retain_prepared;
use crate::catalog_migration::file_content;
use crate::catalog_migration::file_content::{bind_content, make_path_document};
use crate::catalog_migration::file_history;
use crate::catalog_migration::file_history::{
    origin_path, read_historical, reconstruct, Entry, FileScope, Origin, RawInspection, Rebuilt, COUNT, META,
};
use crate::catalog_migration::file_metadata;
use crate::catalog_migration::file_metadata::{
    supply, Association, FileMetadata, FileMetadataModel, FileMetadataRow, FileProof, FileProofModel,
    FileResultModel, FilesModel,
    InputSeal, Projection, ProjectionResult, Roster, Supplement,
};
use crate::catalog_migration::images;
use crate::catalog_migration::images::{
    is_owner_bounded, is_reason_bounded, make_source_document, Projections, ProjectionsModel,
};
use crate::catalog_migration::proofs;
use crate::catalog_migration::proofs::{prove_source, IDENTITY_BYTES};
use crate::catalog_migration::retained;
use crate::catalog_migration::retained::{
    ByteRange, Collection, Detail, MigrationError, NativePath, Observation, Retained, RetainedModel, Status,
};
use crate::copies::Copied;
use crate::outside;
use crate::outside::{blake3_digest, json_string};
use crate::support;
use crate::support::{copy_bytes, copy_option, same, same_bytes};
use crate::tables::{Tables, TablesModel};
use vstd::prelude::*;
use vstd::string::*;
use vstd::utf8::*;

verus! {

/// What is kept of the oversized where it is bound by its chunks.
pub open spec fn replay_geometry() -> Seq<char> {
    "Oversized custody replay binds ordered chunk geometry; equal bytes with different chunk boundaries require explicit reconciliation"@
}

/// Every record has a number, and no two are the same.
pub open spec fn numbered_apart(sequences: Seq<i64>) -> bool {
    &&& forall|i: int| 0 <= i < sequences.len() ==> #[trigger] sequences[i] > 0
    &&& forall|i: int, j: int|
        0 <= i < j < sequences.len() ==> #[trigger] sequences[i] != #[trigger] sequences[j]
}

fn is_numbered_apart(sequences: &Vec<i64>) -> (r: bool)
    ensures
        r == numbered_apart(sequences@),
{
    let mut i: usize = 0;
    while i < sequences.len()
        invariant
            i <= sequences@.len(),
            forall|k: int| 0 <= k < i ==> #[trigger] sequences@[k] > 0,
            forall|k: int, j: int|
                0 <= k < j < i ==> #[trigger] sequences@[k] != #[trigger] sequences@[j],
        decreases sequences@.len() - i,
    {
        if sequences[i] <= 0 {
            assert(!(sequences@[i as int] > 0));
            return false;
        }
        let mut k: usize = 0;
        while k < i
            invariant
                k <= i < sequences@.len(),
                forall|j: int| 0 <= j < k ==> #[trigger] sequences@[j] != sequences@[i as int],
            decreases i - k,
        {
            if sequences[k] == sequences[i] {
                assert(sequences@[k as int] == sequences@[i as int]);
                return false;
            }
            k += 1;
        }
        i += 1;
    }
    true
}

/// What speaks against a request before anything retained is read.
pub open spec fn request_refusal(request: Projection) -> Option<MigrationError> {
    if request.file.source.table@ != "AgLibraryFile"@ {
        Some(MigrationError::SourceTable)
    } else if !images::owner_bounded(request.import_source@) {
        Some(MigrationError::OwnerBounds)
    } else if request.packet_records@.len() > 2 * COUNT || !numbered_apart(request.packet_records@) {
        Some(MigrationError::RosterDiffers)
    } else if request.association matches Association::Confirmed { reason }
        && !images::reason_bounded(reason@) {
        Some(MigrationError::ReasonBounds)
    } else {
        None
    }
}

fn check_request(request: &Projection) -> (r: Option<MigrationError>)
    ensures
        r == request_refusal(*request),
{
    if !same(request.file.source.table.as_str(), "AgLibraryFile") {
        return Some(MigrationError::SourceTable);
    }
    if !is_owner_bounded(request.import_source.as_str()) {
        return Some(MigrationError::OwnerBounds);
    }
    if request.packet_records.len() > 2 * COUNT || !is_numbered_apart(&request.packet_records) {
        return Some(MigrationError::RosterDiffers);
    }
    match &request.association {
        Association::Confirmed { reason } => {
            if !is_reason_bounded(reason.as_str()) {
                return Some(MigrationError::ReasonBounds);
            }
        },
        Association::Unresolved => {},
    }
    None
}

/// The file and the path of a request, and the file's name within its capture.
pub open spec fn file_and_path(r: RetainedModel, request: Projection) -> Result<
    (int, int, Seq<char>),
    MigrationError,
> {
    match proofs::source_proof(r, request.file@) {
        Err(e) => Err(e),
        Ok((file, source_id)) => match r.record_of(request.retained_path) {
            None => Err(MigrationError::RecordMissing),
            Some(path) => {
                let rec = r.records[path];
                if rec.input != r.records[file].input {
                    Err(MigrationError::RecordForeign)
                } else if rec.collection != Collection::Paths || rec.revision
                    != request.file.source.capture_revision@ {
                    Err(MigrationError::PathForeign)
                } else {
                    match rec.field_text("source_id"@, IDENTITY_BYTES as nat) {
                        Err(e) => Err(e),
                        Ok(id) => if id != source_id {
                            Err(MigrationError::PathForeign)
                        } else {
                            Ok((file, path, source_id))
                        },
                    }
                }
            },
        },
    }
}

fn find_file_and_path(r: &Retained, request: &Projection) -> (out: Result<
    (usize, usize, String),
    MigrationError,
>)
    ensures
        match file_and_path(r@, *request) {
            Err(e) => out == Err::<(usize, usize, String), MigrationError>(e),
            Ok((file, path, id)) => out matches Ok((f, p, text)) && f == file && p == path && text@
                == id && f < r.records@.len() && p < r.records@.len() && r@.records[file]
                == r.records@[file]@ && r@.records[path] == r.records@[path]@,
        },
{
    let (file, source_id): (usize, String) = match prove_source(r, &request.file) {
        Err(e) => return Err(e),
        Ok(found) => found,
    };
    let path: usize = match r.find_record(request.retained_path) {
        None => return Err(MigrationError::RecordMissing),
        Some(path) => path,
    };
    let rec = &r.records[path];
    if !same(rec.input.as_str(), r.records[file].input.as_str()) {
        return Err(MigrationError::RecordForeign);
    }
    if rec.collection != Collection::Paths || !same(
        rec.revision.as_str(),
        request.file.source.capture_revision.as_str(),
    ) {
        return Err(MigrationError::PathForeign);
    }
    match rec.read_text("source_id", IDENTITY_BYTES) {
        Err(e) => Err(e),
        Ok(id) => {
            if !same(id.as_str(), source_id.as_str()) {
                Err(MigrationError::PathForeign)
            } else {
                Ok((file, path, source_id))
            }
        },
    }
}

/// The bytes that the descriptors of the first `n` packets and those before them
/// take up.
pub open spec fn descriptors(r: RetainedModel, f: FileScope, sequences: Seq<i64>, before: nat, n: nat) -> Result<
    nat,
    MigrationError,
>
    decreases n,
{
    if n == 0 {
        if before > usize::MAX {
            Err(MigrationError::Overflow)
        } else {
            Ok(before)
        }
    } else {
        match descriptors(r, f, sequences, before, (n - 1) as nat) {
            Err(e) => Err(e),
            Ok(total) => match r.record_of(sequences[n - 1]) {
                None => Err(MigrationError::RecordMissing),
                Some(i) => {
                    let rec = r.records[i];
                    if rec.input != f.input || rec.revision != f.revision || rec.collection
                        != Collection::Packets || !rec.complete {
                        Err(MigrationError::PacketForeign)
                    } else if total + rec.raw_length > usize::MAX {
                        Err(MigrationError::Overflow)
                    } else {
                        Ok(total + rec.raw_length as nat)
                    }
                },
            },
        }
    }
}

proof fn lemma_descriptors_error(
    r: RetainedModel,
    f: FileScope,
    sequences: Seq<i64>,
    before: nat,
    n: nat,
)
    requires
        n <= sequences.len(),
        descriptors(r, f, sequences, before, n) is Err,
    ensures
        descriptors(r, f, sequences, before, sequences.len()) == descriptors(
            r,
            f,
            sequences,
            before,
            n,
        ),
    decreases sequences.len() - n,
{
    if n < sequences.len() {
        lemma_descriptors_error(r, f, sequences, before, n + 1);
    }
}

fn check_descriptors(
    r: &Retained,
    input: &str,
    revision: &str,
    sequences: &Vec<i64>,
    file: usize,
    path: usize,
    Ghost(f): Ghost<FileScope>,
) -> (out: Result<usize, MigrationError>)
    requires
        file < r.records@.len(),
        path < r.records@.len(),
        f.input == input@,
        f.revision == revision@,
    ensures
        match descriptors(
            r@,
            f,
            sequences@,
            (r.records@[file as int].raw_length + r.records@[path as int].raw_length) as nat,
            sequences@.len(),
        ) {
            Err(e) => out == Err::<usize, MigrationError>(e),
            Ok(total) => out matches Ok(n) && n == total,
        },
{
    let ghost before = (r.records@[file as int].raw_length + r.records@[path as int].raw_length) as nat;
    let mut total: usize = match r.records[file].raw_length.checked_add(r.records[path].raw_length) {
        None => {
            proof {
                lemma_descriptors_error(r@, f, sequences@, before, 0);
            }
            return Err(MigrationError::Overflow);
        },
        Some(total) => total,
    };
    let mut n: usize = 0;
    while n < sequences.len()
        invariant
            n <= sequences@.len(),
            file < r.records@.len(),
            path < r.records@.len(),
            before == r.records@[file as int].raw_length + r.records@[path as int].raw_length,
            f.input == input@,
            f.revision == revision@,
            descriptors(r@, f, sequences@, before, n as nat) == Ok::<nat, MigrationError>(
                total as nat,
            ),
        decreases sequences@.len() - n,
    {
        let i: usize = match r.find_record(sequences[n]) {
            None => {
                proof {
                    lemma_descriptors_error(r@, f, sequences@, before, (n + 1) as nat);
                }
                return Err(MigrationError::RecordMissing);
            },
            Some(i) => i,
        };
        let rec = &r.records[i];
        assert(r@.records[i as int] == rec@);
        if !same(rec.input.as_str(), input) || !same(rec.revision.as_str(), revision)
            || rec.collection != Collection::Packets || !rec.complete {
            proof {
                lemma_descriptors_error(r@, f, sequences@, before, (n + 1) as nat);
            }
            return Err(MigrationError::PacketForeign);
        }
        total = match total.checked_add(rec.raw_length) {
            None => {
                proof {
                    lemma_descriptors_error(r@, f, sequences@, before, (n + 1) as nat);
                }
                return Err(MigrationError::Overflow);
            },
            Some(sum) => sum,
        };
        n += 1;
    }
    Ok(total)
}

/// Where a request stands: what it is about, what was observed of it and what is
/// retained of that.
#[verifier::ext_equal]
pub struct Standing {
    pub scope: FileScope,
    pub seal: InputSeal,
    /// The descriptors can all be read.
    pub fit: bool,
    pub observed: Option<Observation>,
    pub entries: Seq<(int, bool, nat)>,
    pub base: retained::PathModel,
}

impl Standing {
    /// What was read is all that was observed.
    pub open spec fn complete(self) -> bool {
        match self.observed {
            Some(v) => self.fit ==> {
                &&& file_history::counted(v.packets) <= COUNT
                &&& file_history::counted(v.parse_inputs) <= COUNT
                &&& file_history::contiguous(
                    self.entries,
                    file_history::counted(v.packets),
                    file_history::counted(v.parse_inputs),
                )
            },
            None => true,
        }
    }
}

/// Where a request stands.
#[verifier::opaque]
pub open spec fn standing(r: RetainedModel, files: FilesModel, request: Projection) -> Result<
    Standing,
    MigrationError,
> {
    match (request_refusal(request), file_and_path(r, request)) {
        (Some(e), _) => Err(e),
        (None, Err(e)) => Err(e),
        (None, Ok((file, path, source_id))) => {
            let scope = FileScope {
                input: r.records[file].input,
                revision: request.file.source.capture_revision@,
                source_id,
                origin: request.origin,
            };
            let before = (r.records[file].raw_length + r.records[path].raw_length) as nat;
            match files.seal_at(scope.input) {
                None => Err(MigrationError::SealMissing),
                Some(k) => match descriptors(
                    r,
                    scope,
                    request.packet_records@,
                    before,
                    request.packet_records@.len(),
                ) {
                    Err(e) => Err(e),
                    Ok(total) => {
                        let fit = total <= META;
                        match file_history::historical(
                            r,
                            scope,
                            r.records[path],
                            request.packet_records@,
                            fit,
                        ) {
                            Err(e) => Err(e),
                            Ok((observed, entries)) => Ok(
                                Standing {
                                    scope,
                                    seal: files.seals[k],
                                    fit,
                                    observed,
                                    entries,
                                    base: r.records[path].detail->Path_0.base@,
                                },
                            ),
                        }
                    },
                },
            }
        },
    }
}

/// Where a request stands, in the records themselves.
struct Stand<'a> {
    input: &'a str,
    source_id: String,
    seal: &'a InputSeal,
    fit: bool,
    observed: Option<&'a Observation>,
    entries: Vec<Entry>,
    base: &'a NativePath,
}

impl<'a> Stand<'a> {
    spec fn shows(self, s: Standing, revision: Seq<char>) -> bool {
        &&& s.scope.input == self.input@
        &&& s.scope.revision == revision
        &&& s.scope.source_id == self.source_id@
        &&& s.seal == *self.seal
        &&& s.fit == self.fit
        &&& match self.observed {
            Some(o) => s.observed == Some(*o),
            None => s.observed is None,
        }
        &&& file_history::entries_view(self.entries@) == s.entries
        &&& s.base == self.base@
    }
}

fn find_standing<'a>(r: &'a Retained, files: &'a FileMetadata, request: &Projection) -> (out: Result<
    Stand<'a>,
    MigrationError,
>)
    ensures
        match standing(r@, files@, *request) {
            Err(e) => out matches Err(why) && why == e,
            Ok(s) => out matches Ok(found) && found.shows(
                s,
                request.file.source.capture_revision@,
            ) && s.scope.origin == request.origin && (forall|k: int|
                0 <= k < found.entries@.len() ==> (#[trigger] found.entries@[k]).record
                    < r.records@.len()) && s.complete(),
        },
{
    reveal(standing);
    match check_request(request) {
        Some(e) => return Err(e),
        None => {},
    }
    let (file, path, source_id): (usize, usize, String) = match find_file_and_path(r, request) {
        Err(e) => return Err(e),
        Ok(found) => found,
    };
    let input: &'a str = r.records[file].input.as_str();
    let k: usize = match files.find_seal(input) {
        None => return Err(MigrationError::SealMissing),
        Some(k) => k,
    };
    let ghost f = FileScope {
        input: input@,
        revision: request.file.source.capture_revision@,
        source_id: source_id@,
        origin: request.origin,
    };
    let total: usize = match check_descriptors(
        r,
        input,
        request.file.source.capture_revision.as_str(),
        &request.packet_records,
        file,
        path,
        Ghost(f),
    ) {
        Err(e) => return Err(e),
        Ok(total) => total,
    };
    let fit: bool = total <= META;
    let (observed, entries): (Option<&'a Observation>, Vec<Entry>) = match read_historical(
        r,
        path,
        input,
        request.file.source.capture_revision.as_str(),
        source_id.as_str(),
        request.origin,
        &request.packet_records,
        fit,
    ) {
        Err(e) => return Err(e),
        Ok(found) => found,
    };
    let base: &'a NativePath = match &r.records[path].detail {
        Detail::Path(detail) => &detail.base,
        _ => return Err(MigrationError::FieldType),
    };
    Ok(Stand { input, source_id, seal: &files.seals[k], fit, observed, entries, base })
}

/// How often a number occurs among the first `n`.
pub open spec fn occurrences(s: Seq<i64>, x: i64, n: nat) -> nat
    decreases n,
{
    if n == 0 {
        0
    } else {
        occurrences(s, x, (n - 1) as nat) + if s[n - 1] == x {
            1nat
        } else {
            0
        }
    }
}

/// Two rosters hold the same numbers, in whatever order.
pub open spec fn same_members(a: Seq<i64>, b: Seq<i64>) -> bool {
    a.len() == b.len() && forall|i: int|
        0 <= i < a.len() ==> occurrences(a, #[trigger] a[i], a.len()) == occurrences(
            b,
            a[i],
            b.len(),
        )
}

fn count_occurrences(s: &Vec<i64>, x: i64) -> (n: usize)
    ensures
        n == occurrences(s@, x, s@.len()),
{
    let mut i: usize = 0;
    let mut n: usize = 0;
    while i < s.len()
        invariant
            n <= i <= s@.len(),
            n == occurrences(s@, x, i as nat),
        decreases s@.len() - i,
    {
        if s[i] == x {
            n += 1;
        }
        i += 1;
    }
    n
}

fn has_same_members(a: &Vec<i64>, b: &Vec<i64>) -> (r: bool)
    ensures
        r == same_members(a@, b@),
{
    if a.len() != b.len() {
        return false;
    }
    let mut i: usize = 0;
    while i < a.len()
        invariant
            i <= a@.len(),
            forall|k: int|
                0 <= k < i ==> occurrences(a@, #[trigger] a@[k], a@.len()) == occurrences(
                    b@,
                    a@[k],
                    b@.len(),
                ),
        decreases a@.len() - i,
    {
        if count_occurrences(a, a[i]) != count_occurrences(b, a[i]) {
            assert(a@[i as int] == a@[i as int]);
            return false;
        }
        i += 1;
    }
    true
}

/// The rows that retained records came from.
pub open spec fn rows_of(r: RetainedModel, sequences: Seq<i64>) -> Seq<i64> {
    Seq::new(
        sequences.len(),
        |i: int|
            match r.record_of(sequences[i]) {
                Some(k) => r.records[k].source_rowid,
                None => 0,
            },
    )
}

fn find_rows(r: &Retained, sequences: &Vec<i64>) -> (rows: Vec<i64>)
    ensures
        rows@ == rows_of(r@, sequences@),
{
    let mut rows: Vec<i64> = Vec::new();
    let mut i: usize = 0;
    while i < sequences.len()
        invariant
            i <= sequences@.len(),
            rows@.len() == i,
            forall|k: int| 0 <= k < i ==> #[trigger] rows@[k] == rows_of(r@, sequences@)[k],
        decreases sequences@.len() - i,
    {
        let row: i64 = match r.find_record(sequences[i]) {
            Some(k) => {
                assert(r@.records[k as int] == r.records@[k as int]@);
                r.records[k].source_rowid
            },
            None => 0,
        };
        rows.push(row);
        i += 1;
    }
    assert(rows@ =~= rows_of(r@, sequences@));
    rows
}

/// What speaks against the roster of a request: the sealed source enumerates other
/// rows, or there is no sealed source and nothing was decided from this input.
pub open spec fn roster_refused(
    r: RetainedModel,
    files: FilesModel,
    roster: Option<Roster>,
    request: Projection,
    s: Standing,
    supplement: Seq<char>,
) -> Option<MigrationError> {
    match roster {
        Some(x) => if x.binding@ != s.scope.input {
            Some(MigrationError::SealForeign)
        } else if !same_members(rows_of(r, request.packet_records@), x.rowids@) {
            Some(MigrationError::RosterDiffers)
        } else {
            None
        },
        None => match files.row_at(request.file.source.identity@, request.origin, supplement) {
            None => Some(MigrationError::SealNeeded),
            Some(k) => match r.record_of(files.rows[k].retained_file) {
                None => Some(MigrationError::SealNeeded),
                Some(i) => if r.records[i].input == s.scope.input {
                    None
                } else {
                    Some(MigrationError::SealNeeded)
                },
            },
        },
    }
}

fn check_roster(
    r: &Retained,
    files: &FileMetadata,
    roster: Option<&Roster>,
    request: &Projection,
    input: &str,
    supplement: &str,
    Ghost(s): Ghost<Standing>,
) -> (out: Option<MigrationError>)
    requires
        s.scope.input == input@,
    ensures
        out == roster_refused(
            r@,
            files@,
            (match roster {
                Some(x) => Some(*x),
                None => None,
            }),
            *request,
            s,
            supplement@,
        ),
{
    match roster {
        Some(x) => {
            if !same(x.binding.as_str(), input) {
                Some(MigrationError::SealForeign)
            } else if !has_same_members(&find_rows(r, &request.packet_records), &x.rowids) {
                Some(MigrationError::RosterDiffers)
            } else {
                None
            }
        },
        None => match files.find_row_at(
            request.file.source.identity.as_str(),
            request.origin,
            supplement,
        ) {
            None => Some(MigrationError::SealNeeded),
            Some(k) => match r.find_record(files.rows[k].retained_file) {
                None => Some(MigrationError::SealNeeded),
                Some(i) => {
                    assert(r@.records[i as int] == r.records@[i as int]@);
                    if same(r.records[i].input.as_str(), input) {
                        None
                    } else {
                        Some(MigrationError::SealNeeded)
                    }
                },
            },
        },
    }
}

/// An origin as a document's word.
pub open spec fn origin_word(o: Origin) -> Seq<char> {
    match o {
        Origin::Embedded => "\"Embedded\""@,
        Origin::SidecarXmp => "\"SidecarXmp\""@,
        Origin::SidecarUpper => "\"SidecarUpper\""@,
        Origin::AppendedXmp => "\"AppendedXmp\""@,
        Origin::AppendedUpper => "\"AppendedUpper\""@,
    }
}

pub(crate) fn get_origin_word(o: Origin) -> (r: &'static str)
    ensures
        r@ == origin_word(o),
{
    match o {
        Origin::Embedded => "\"Embedded\"",
        Origin::SidecarXmp => "\"SidecarXmp\"",
        Origin::SidecarUpper => "\"SidecarUpper\"",
        Origin::AppendedXmp => "\"AppendedXmp\"",
        Origin::AppendedUpper => "\"AppendedUpper\"",
    }
}

/// An association as a document.
pub open spec fn association_document(a: Association) -> Option<Seq<char>> {
    match a {
        Association::Unresolved => Some("\"Unresolved\""@),
        Association::Confirmed { reason } => match outside::json_text(reason@) {
            None => None,
            Some(text) => Some("{\"Confirmed\":{\"reason\":"@ + text + "}}"@),
        },
    }
}

fn make_association_document(a: &Association) -> (d: Option<String>)
    ensures
        support::text_of(d) == association_document(*a),
{
    match a {
        Association::Unresolved => Some("\"Unresolved\"".to_owned()),
        Association::Confirmed { reason } => match json_string(reason.as_str()) {
            None => None,
            Some(text) => {
                let mut d: String = "{\"Confirmed\":{\"reason\":".to_owned();
                d.append(text.as_str());
                d.append("}}");
                assert(d@ =~= association_document(*a)->0);
                Some(d)
            },
        },
    }
}

/// What was observed of an origin, as a document; that nothing was, where the path
/// was never inspected.
pub open spec fn observation_document(observed: Option<Observation>, o: Origin) -> Seq<char> {
    match observed {
        Some(v) => v.document@,
        None => "{\"error\":\"No retained inspection for this path\",\"issues\":[],\"origin\":\""@
            + file_history::origin_name(o)
            + "\",\"packets\":null,\"parse_inputs\":null,\"revision\":null,\"state\":null,\"status\":null}"@,
    }
}

fn make_observation_document(observed: Option<&Observation>, o: Origin) -> (d: String)
    ensures
        d@ == observation_document(
            (match observed {
                Some(v) => Some(*v),
                None => None,
            }),
            o,
        ),
{
    match observed {
        Some(v) => v.document.clone(),
        None => {
            let mut d: String =
                "{\"error\":\"No retained inspection for this path\",\"issues\":[],\"origin\":\"".to_owned();
            d.append(o.name());
            d.append(
                "\",\"packets\":null,\"parse_inputs\":null,\"revision\":null,\"state\":null,\"status\":null}",
            );
            assert(d@ =~= observation_document(None, o));
            d
        },
    }
}

/// The document that a request is recognized by. Record numbers and names within
/// one inspection are no part of it.
pub open spec fn request_document(
    request: Projection,
    observed: Option<Observation>,
    supplement: Seq<char>,
    content: Seq<char>,
) -> Option<Seq<char>> {
    match (
        association_document(request.association),
        outside::json_text(request.import_source@),
        images::source_document(request.file@.source),
    ) {
        (Some(association), Some(owner), Some(source)) => Some(
            "{\"adapter\":\"lightroom-file-metadata-v1\",\"association\":"@ + association
                + ",\"historical_content_v1\":\""@ + content + "\",\"observation\":"@
                + observation_document(observed, request.origin) + ",\"origin\":"@ + origin_word(
                request.origin,
            ) + ",\"owner\":"@ + owner + ",\"source\":"@ + source + ",\"supplement\":\""@
                + supplement + "\"}"@,
        ),
        _ => None,
    }
}

/// The digest that a request is recognized by.
pub open spec fn request_digest(
    request: Projection,
    observed: Option<Observation>,
    supplement: Seq<char>,
    content: Seq<char>,
) -> Result<Seq<char>, MigrationError> {
    match request_document(request, observed, supplement, content) {
        None => Err(MigrationError::DocumentBounds),
        Some(document) => if encode_utf8(document).len() > META {
            Err(MigrationError::DocumentBounds)
        } else {
            Ok(outside::blake3_hex(encode_utf8(document)))
        },
    }
}

fn make_digest(
    request: &Projection,
    observed: Option<&Observation>,
    supplement: &str,
    content: &str,
) -> (out: Result<String, MigrationError>)
    ensures
        match request_digest(
            *request,
            (match observed {
                Some(v) => Some(*v),
                None => None,
            }),
            supplement@,
            content@,
        ) {
            Err(e) => out == Err::<String, MigrationError>(e),
            Ok(digest) => out matches Ok(d) && d@ == digest,
        },
{
    let ghost seen = match observed {
        Some(v) => Some(*v),
        None => None,
    };
    match (
        make_association_document(&request.association),
        json_string(request.import_source.as_str()),
        make_source_document(&request.file.source),
    ) {
        (Some(association), Some(owner), Some(source)) => {
            let mut d: String =
                "{\"adapter\":\"lightroom-file-metadata-v1\",\"association\":".to_owned();
            d.append(association.as_str());
            d.append(",\"historical_content_v1\":\"");
            d.append(content);
            d.append("\",\"observation\":");
            d.append(make_observation_document(observed, request.origin).as_str());
            d.append(",\"origin\":");
            d.append(get_origin_word(request.origin));
            d.append(",\"owner\":");
            d.append(owner.as_str());
            d.append(",\"source\":");
            d.append(source.as_str());
            d.append(",\"supplement\":\"");
            d.append(supplement);
            d.append("\"}");
            assert(d@ =~= request_document(*request, seen, supplement@, content@)->0);
            let bytes = d.as_str().as_bytes();
            if bytes.len() > META {
                Err(MigrationError::DocumentBounds)
            } else {
                Ok(blake3_digest(bytes))
            }
        },
        _ => Err(MigrationError::DocumentBounds),
    }
}

/// What was decided on an origin before: nothing, the same, or something that has
/// to be reconciled.
pub open spec fn earlier(
    files: FilesModel,
    request: Projection,
    supplement: Seq<char>,
    digest: Seq<char>,
) -> Result<Option<FileResultModel>, MigrationError> {
    match files.row_at(request.file.source.identity@, request.origin, supplement) {
        None => Ok(None),
        Some(k) => if files.rows[k].owner == request.import_source@ && files.rows[k].input_digest
            == digest {
            Ok(Some(files.rows[k].result))
        } else {
            Err(MigrationError::DecisionChanged)
        },
    }
}

/// The original that a file is mapped to.
pub open spec fn mapped_original(p: ProjectionsModel, request: Projection) -> Result<
    Seq<char>,
    MigrationError,
> {
    match p.original_at(request.file.source.identity@) {
        None => Err(MigrationError::OriginalMissing),
        Some(k) => if p.originals[k].import_source != request.import_source@ {
            Err(MigrationError::OriginalForeign)
        } else {
            Ok(p.originals[k].asset_id)
        },
    }
}

fn find_mapped(p: &Projections, request: &Projection) -> (out: Result<String, MigrationError>)
    ensures
        match mapped_original(p@, *request) {
            Err(e) => out == Err::<String, MigrationError>(e),
            Ok(asset) => out matches Ok(a) && a@ == asset,
        },
{
    match p.find_original_at(request.file.source.identity.as_str()) {
        None => Err(MigrationError::OriginalMissing),
        Some(k) => {
            assert(p@.originals[k as int] == p.originals@[k as int]@);
            if !same(p.originals[k].import_source.as_str(), request.import_source.as_str()) {
                Err(MigrationError::OriginalForeign)
            } else {
                Ok(p.originals[k].asset_id.clone())
            }
        },
    }
}

/// What a supplement adds: the digest of its document, that of its meaning, and what
/// it found.
pub open spec fn supplement_of(c: Catalog, request: Projection, s: Standing, given: Option<Supplement>) -> Result<
    Option<(Seq<char>, Seq<char>, Option<file_history::RawInspectionModel>)>,
    MigrationError,
> {
    match request.supplement {
        None => Ok(None),
        Some(id) => match file_metadata::supplied(
            c.evidence,
            s.seal.supplements@,
            s.scope,
            id@,
            given,
            s.observed,
        ) {
            Err(e) => Err(e),
            Ok(found) => Ok(Some(found)),
        },
    }
}

/// The part of a decision's identity that a supplement makes up.
pub open spec fn supplement_key(
    found: Option<(Seq<char>, Seq<char>, Option<file_history::RawInspectionModel>)>,
) -> Seq<char> {
    match found {
        None => ""@,
        Some(x) => x.1,
    }
}

/// What was found in a file: by the supplement, where there is one, else by the
/// earlier inspection, as far as it can be put together again.
pub open spec fn inspection_found(
    r: RetainedModel,
    s: Standing,
    found: Option<(Seq<char>, Seq<char>, Option<file_history::RawInspectionModel>)>,
) -> Result<Option<file_history::RawInspectionModel>, MigrationError> {
    match found {
        Some(x) => Ok(x.2),
        None => if !s.fit {
            Ok(None)
        } else {
            match file_history::reconstructed(r, s.observed, s.base, s.entries, s.scope.origin) {
                Rebuilt::Built(inspection) => Ok(Some(inspection)),
                Rebuilt::RetainedOnly => Ok(None),
                Rebuilt::Refused(e) => Err(e),
            }
        },
    }
}

/// The association of a sidecar is open.
pub open spec fn is_ambiguous(request: Projection) -> bool {
    request.origin != Origin::Embedded && request.association is Unresolved
}

/// Where an observation comes from, as a document.
pub open spec fn provenance_document(
    request: Projection,
    s: Standing,
    path: retained::PathModel,
    proof_hash: Option<Seq<char>>,
) -> Option<Seq<char>> {
    match (
        association_document(request.association),
        images::source_document(request.file@.source),
    ) {
        (Some(association), Some(source)) => Some(
            "{\"adapter\":\"lightroom-file-metadata-v1\",\"association\":"@ + association
                + ",\"file\":"@ + source + ",\"historical_observation\":"@ + observation_document(
                s.observed,
                request.origin,
            ) + ",\"origin\":"@ + origin_word(request.origin) + ",\"source_path\":"@
                + file_content::path_document(path) + ",\"supplement_proof_blake3\":"@ + (
            match proof_hash {
                None => "null"@,
                Some(hash) => "\""@ + hash + "\""@,
            }) + "}"@,
        ),
        _ => None,
    }
}

/// The source of an observation.
pub open spec fn source_made(
    request: Projection,
    s: Standing,
    supplement: Seq<char>,
    proof_hash: Option<Seq<char>>,
) -> Result<store::SourceRequest, MigrationError> {
    match file_history::located(s.base, request.origin) {
        None => Err(MigrationError::PathForeign),
        Some(path) => match provenance_document(request, s, path, proof_hash) {
            None => Err(MigrationError::DocumentBounds),
            Some(provenance) => Ok(
                store::SourceRequest {
                    kind: if request.origin == Origin::Embedded {
                        "embedded"@
                    } else {
                        "sidecar"@
                    },
                    locator: encode_utf8(
                        "lightroom:"@ + request.file.source.identity@ + ":"@
                            + file_history::origin_name(request.origin) + ":"@ + supplement,
                    ),
                    display: "Lightroom retained "@ + file_history::origin_name(request.origin),
                    ambiguous: is_ambiguous(request),
                    provenance,
                },
            ),
        },
    }
}

fn make_source(
    request: &Projection,
    observed: Option<&Observation>,
    base: &NativePath,
    supplement: &str,
    proof_hash: Option<&str>,
    Ghost(s): Ghost<Standing>,
) -> (out: Result<Source, MigrationError>)
    requires
        s.base == base@,
        match observed {
            Some(v) => s.observed == Some(*v),
            None => s.observed is None,
        },
    ensures
        match source_made(
            *request,
            s,
            supplement@,
            (match proof_hash {
                Some(h) => Some(h@),
                None => None,
            }),
        ) {
            Err(e) => out matches Err(why) && why == e,
            Ok(source) => out matches Ok(made) && made@ == source,
        },
{
    let ghost hash = match proof_hash {
        Some(h) => Some(h@),
        None => None,
    };
    let path: NativePath = match origin_path(base, request.origin) {
        None => return Err(MigrationError::PathForeign),
        Some(path) => path,
    };
    match (
        make_association_document(&request.association),
        make_source_document(&request.file.source),
    ) {
        (Some(association), Some(source)) => {
            let mut d: String =
                "{\"adapter\":\"lightroom-file-metadata-v1\",\"association\":".to_owned();
            d.append(association.as_str());
            d.append(",\"file\":");
            d.append(source.as_str());
            d.append(",\"historical_observation\":");
            d.append(make_observation_document(observed, request.origin).as_str());
            d.append(",\"origin\":");
            d.append(get_origin_word(request.origin));
            d.append(",\"source_path\":");
            d.append(make_path_document(&path).as_str());
            d.append(",\"supplement_proof_blake3\":");
            match proof_hash {
                None => {
                    d.append("null");
                },
                Some(h) => {
                    d.append("\"");
                    d.append(h);
                    d.append("\"");
                },
            }
            d.append("}");
            assert(d@ =~= provenance_document(*request, s, path@, hash)->0);
            let mut locator: String = "lightroom:".to_owned();
            locator.append(request.file.source.identity.as_str());
            locator.append(":");
            locator.append(request.origin.name());
            locator.append(":");
            locator.append(supplement);
            assert(locator@ =~= "lightroom:"@ + request.file.source.identity@ + ":"@
                + file_history::origin_name(request.origin) + ":"@ + supplement@);
            let mut display: String = "Lightroom retained ".to_owned();
            display.append(request.origin.name());
            let unresolved: bool = match request.association {
                Association::Unresolved => true,
                _ => false,
            };
            Ok(
                Source {
                    kind: request.origin.kind().to_owned(),
                    locator: copy_bytes(locator.as_str().as_bytes()),
                    display,
                    ambiguous: request.origin != Origin::Embedded && unresolved,
                    provenance: d,
                },
            )
        },
        _ => Err(MigrationError::DocumentBounds),
    }
}

/// A file's metadata that is yet to be projected.
pub struct Pending {
    pub input_digest: String,
    pub asset_id: String,
    /// What a supplement makes up of the decision's identity.
    pub supplement: String,
    pub historical_status: Option<Status>,
    /// The source that everything found is bound to.
    pub binding: String,
    /// Some content is bound by its chunks.
    pub geometry: bool,
    /// What was found, with the source it is an observation of.
    pub found: Option<(RawInspection, Source)>,
}

/// What a `Pending` stands for.
#[verifier::ext_equal]
pub struct PendingModel {
    pub input_digest: Seq<char>,
    pub asset_id: Seq<char>,
    pub supplement: Seq<char>,
    pub historical_status: Option<Status>,
    pub binding: Seq<char>,
    pub geometry: bool,
    pub found: Option<(file_history::RawInspectionModel, store::SourceRequest)>,
}

impl View for Pending {
    type V = PendingModel;

    open spec fn view(&self) -> PendingModel {
        PendingModel {
            input_digest: self.input_digest@,
            asset_id: self.asset_id@,
            supplement: self.supplement@,
            historical_status: self.historical_status,
            binding: self.binding@,
            geometry: self.geometry,
            found: match self.found {
                None => None,
                Some(x) => Some((x.0@, x.1@)),
            },
        }
    }
}

/// What projecting a file's metadata comes to.
pub enum FilePlan {
    /// It was decided upon before.
    Replayed(ProjectionResult),
    /// What was found is yet to be interpreted.
    Ready(Pending),
}

/// What a `FilePlan` stands for.
pub enum FilePlanModel {
    Replayed(FileResultModel),
    Ready(PendingModel),
}

impl View for FilePlan {
    type V = FilePlanModel;

    open spec fn view(&self) -> FilePlanModel {
        match self {
            FilePlan::Replayed(result) => FilePlanModel::Replayed(result@),
            FilePlan::Ready(pending) => FilePlanModel::Ready(pending@),
        }
    }
}

/// What is found of a request that was not decided upon before.
pub open spec fn pending(
    c: Catalog,
    request: Projection,
    s: Standing,
    found: Option<(Seq<char>, Seq<char>, Option<file_history::RawInspectionModel>)>,
    digest: Seq<char>,
    geometry: bool,
) -> Result<PendingModel, MigrationError> {
    match mapped_original(c.migration.images@, request) {
        Err(e) => Err(e),
        Ok(asset_id) => match inspection_found(c.migration.retained@, s, found) {
            Err(e) => Err(e),
            Ok(inspection) => {
                let made = PendingModel {
                    input_digest: digest,
                    asset_id,
                    supplement: supplement_key(found),
                    historical_status: match s.observed {
                        Some(v) => v.status,
                        None => None,
                    },
                    binding: s.scope.input,
                    geometry,
                    found: None,
                };
                match inspection {
                    None => Ok(made),
                    Some(raw) => match source_made(
                        request,
                        s,
                        supplement_key(found),
                        (match found {
                            Some(x) => Some(x.0),
                            None => None,
                        }),
                    ) {
                        Err(e) => Err(e),
                        Ok(source) => Ok(PendingModel { found: Some((raw, source)), ..made }),
                    },
                }
            },
        },
    }
}

/// What projecting a file's metadata comes to.
#[verifier::opaque]
pub open spec fn planned(
    c: Catalog,
    roster: Option<Roster>,
    request: Projection,
    given: Option<Supplement>,
) -> Result<FilePlanModel, MigrationError> {
    let r = c.migration.retained@;
    let files = c.migration.files@;
    match standing(r, files, request) {
        Err(e) => Err(e),
        Ok(s) => match supplement_of(c, request, s, given) {
            Err(e) => Err(e),
            Ok(found) => match roster_refused(r, files, roster, request, s, supplement_key(found)) {
                Some(e) => Err(e),
                None => match file_content::historical_content(
                    r,
                    s.scope,
                    request.packet_records@,
                    s.base,
                ) {
                    Err(e) => Err(e),
                    Ok((content, geometry)) => match request_digest(
                        request,
                        s.observed,
                        supplement_key(found),
                        content,
                    ) {
                        Err(e) => Err(e),
                        Ok(digest) => match earlier(files, request, supplement_key(found), digest) {
                            Err(e) => Err(e),
                            Ok(Some(result)) => Ok(FilePlanModel::Replayed(result)),
                            Ok(None) => match pending(c, request, s, found, digest, geometry) {
                                Err(e) => Err(e),
                                Ok(p) => Ok(FilePlanModel::Ready(p)),
                            },
                        },
                    },
                },
            },
        },
    }
}

/// What a supplement added.
struct Added {
    hash: String,
    meaning: String,
    inspection: Option<RawInspection>,
}

spec fn added_of(added: Option<Added>) -> Option<
    (Seq<char>, Seq<char>, Option<file_history::RawInspectionModel>),
> {
    match added {
        None => None,
        Some(a) => Some((a.hash@, a.meaning@, file_metadata::inspection_of(a.inspection))),
    }
}

/// What an optional reference refers to.
pub open spec fn referred<T>(o: Option<&T>) -> Option<T> {
    match o {
        Some(x) => Some(*x),
        None => None,
    }
}

impl Catalog {
    fn find_supplement(
        &self,
        request: &Projection,
        stand: &Stand,
        given: Option<&Supplement>,
        Ghost(s): Ghost<Standing>,
    ) -> (out: Result<Option<Added>, MigrationError>)
        requires
            stand.shows(s, request.file.source.capture_revision@),
            s.scope.origin == request.origin,
        ensures
            match supplement_of(*self, *request, s, referred(given)) {
                Err(e) => out matches Err(why) && why == e,
                Ok(found) => out matches Ok(added) && added_of(added) == found,
            },
    {
        match &request.supplement {
            None => Ok(None),
            Some(id) => match supply(
                &self.evidence,
                &stand.seal.supplements,
                request.file.source.capture_revision.as_str(),
                stand.source_id.as_str(),
                request.origin,
                id.as_str(),
                given,
                stand.observed,
                Ghost(s.scope),
            ) {
                Err(e) => Err(e),
                Ok((hash, meaning, inspection)) => Ok(Some(Added { hash, meaning, inspection })),
            },
        }
    }

    fn find_pending(
        &self,
        request: &Projection,
        stand: &Stand,
        added: Option<Added>,
        digest: String,
        geometry: bool,
        Ghost(s): Ghost<Standing>,
    ) -> (out: Result<Pending, MigrationError>)
        requires
            stand.shows(s, request.file.source.capture_revision@),
            s.scope.origin == request.origin,
            s.complete(),
            forall|k: int|
                0 <= k < stand.entries@.len() ==> (#[trigger] stand.entries@[k]).record
                    < self.migration.retained.records@.len(),
        ensures
            match pending(*self, *request, s, added_of(added), digest@, geometry) {
                Err(e) => out matches Err(why) && why == e,
                Ok(p) => out matches Ok(made) && made@ == p,
            },
    {
        let asset_id: String = match find_mapped(&self.migration.images, request) {
            Err(e) => return Err(e),
            Ok(asset_id) => asset_id,
        };
        let (supplement, hash, inspection): (String, Option<String>, Option<RawInspection>) =
            match added {
            Some(a) => (a.meaning, Some(a.hash), a.inspection),
            None => {
                let inspection: Option<RawInspection> = if !stand.fit {
                    None
                } else {
                    match reconstruct(
                        &self.migration.retained,
                        stand.observed,
                        stand.base,
                        &stand.entries,
                        request.origin,
                    ) {
                        Rebuilt::Refused(e) => return Err(e),
                        Rebuilt::RetainedOnly => None,
                        Rebuilt::Built(inspection) => Some(inspection),
                    }
                };
                ("".to_owned(), None, inspection)
            },
        };
        let historical_status: Option<Status> = match stand.observed {
            Some(v) => v.status,
            None => None,
        };
        let found: Option<(RawInspection, Source)> = match inspection {
            None => None,
            Some(raw) => {
                let proof_hash: Option<&str> = match &hash {
                    Some(h) => Some(h.as_str()),
                    None => None,
                };
                match make_source(
                    request,
                    stand.observed,
                    stand.base,
                    supplement.as_str(),
                    proof_hash,
                    Ghost(s),
                ) {
                    Err(e) => return Err(e),
                    Ok(source) => Some((raw, source)),
                }
            },
        };
        Ok(
            Pending {
                input_digest: digest,
                asset_id,
                supplement,
                historical_status,
                binding: stand.input.to_owned(),
                geometry,
                found,
            },
        )
    }

    /// Finds out what projecting a file's metadata comes to, without changing
    /// anything.
    pub fn plan_migration_file_metadata(
        &self,
        roster: Option<&Roster>,
        request: &Projection,
        given: Option<&Supplement>,
    ) -> (out: Result<FilePlan, MigrationError>)
        ensures
            match planned(*self, referred(roster), *request, referred(given)) {
                Err(e) => out matches Err(why) && why == e,
                Ok(plan) => out matches Ok(made) && made@ == plan,
            },
    {
        reveal(planned);
        let r = &self.migration.retained;
        let files = &self.migration.files;
        let ghost shown = standing(r@, files@, *request);
        let stand: Stand = match find_standing(r, files, request) {
            Err(e) => return Err(e),
            Ok(stand) => stand,
        };
        let ghost s = shown->Ok_0;
        let added: Option<Added> = match self.find_supplement(request, &stand, given, Ghost(s)) {
            Err(e) => return Err(e),
            Ok(added) => added,
        };
        let supplement: &str = match &added {
            Some(a) => a.meaning.as_str(),
            None => "",
        };
        match check_roster(r, files, roster, request, stand.input, supplement, Ghost(s)) {
            Some(e) => return Err(e),
            None => {},
        }
        let (content, geometry): (String, bool) = match bind_content(
            r,
            stand.input,
            request.file.source.capture_revision.as_str(),
            stand.source_id.as_str(),
            request.origin,
            &request.packet_records,
            stand.base,
        ) {
            Err(e) => return Err(e),
            Ok(bound) => bound,
        };
        let digest: String = match make_digest(
            request,
            stand.observed,
            supplement,
            content.as_str(),
        ) {
            Err(e) => return Err(e),
            Ok(digest) => digest,
        };
        match files.find_row_at(
            request.file.source.identity.as_str(),
            request.origin,
            supplement,
        ) {
            Some(k) => {
                if !same(files.rows[k].owner.as_str(), request.import_source.as_str()) || !same(
                    files.rows[k].input_digest.as_str(),
                    digest.as_str(),
                ) {
                    return Err(MigrationError::DecisionChanged);
                }
                return Ok(FilePlan::Replayed(files.rows[k].result.copied()));
            },
            None => {},
        }
        match self.find_pending(request, &stand, added, digest, geometry, Ghost(s)) {
            Err(e) => Err(e),
            Ok(p) => Ok(FilePlan::Ready(p)),
        }
    }
}

/// An interpreted packet is a packet that was found.
pub open spec fn is_packet(raw: file_history::RawPacketModel, p: prepared::Packet) -> bool {
    p.container@ == raw.container && p.bytes@ == raw.bytes && p.blake3@ == raw.blake3 && p.ranges@
        == raw.ranges && p.group@ == raw.group && p.attributes@ == raw.attributes
}

/// An interpreted input is an input that was found.
pub open spec fn is_input(raw: file_history::RawInputModel, p: prepared::ParseInput) -> bool {
    p.bytes@ == raw.bytes && p.blake3@ == raw.blake3 && p.packet_indices@ == raw.packet_indices
        && p.transformation@ == raw.transformation && p.group@ == raw.group
}

/// What was interpreted is what was found, whole: the same file, packets and inputs.
pub open spec fn interprets(raw: file_history::RawInspectionModel, i: Inspection) -> bool {
    &&& i.file_length == raw.revision.length
    &&& i.file_blake3@ == raw.revision.blake3
    &&& i.modified == raw.revision.modified_unix_ns
    &&& i.status@ == "Complete"@
    &&& i.issues@ == raw.issues
    &&& i.packets@.len() == raw.packets.len()
    &&& i.parse_inputs@.len() == raw.parse_inputs.len()
    &&& forall|k: int| 0 <= k < raw.packets.len() ==> is_packet(raw.packets[k], #[trigger] i.packets@[k])
    &&& forall|k: int|
        0 <= k < raw.parse_inputs.len() ==> is_input(
            raw.parse_inputs[k],
            #[trigger] i.parse_inputs@[k],
        )
}

fn same_indices(a: &Vec<usize>, b: &Vec<usize>) -> (r: bool)
    ensures
        r == (a@ == b@),
{
    if a.len() != b.len() {
        return false;
    }
    let mut i: usize = 0;
    while i < a.len()
        invariant
            i <= a@.len() == b@.len(),
            forall|k: int| 0 <= k < i ==> a@[k] == b@[k],
        decreases a@.len() - i,
    {
        if a[i] != b[i] {
            return false;
        }
        i += 1;
    }
    assert(a@ =~= b@);
    true
}

fn same_ranges(a: &Vec<ByteRange>, b: &Vec<ByteRange>) -> (r: bool)
    ensures
        r == (a@ == b@),
{
    if a.len() != b.len() {
        return false;
    }
    let mut i: usize = 0;
    while i < a.len()
        invariant
            i <= a@.len() == b@.len(),
            forall|k: int| 0 <= k < i ==> a@[k] == b@[k],
        decreases a@.len() - i,
    {
        if a[i] != b[i] {
            return false;
        }
        i += 1;
    }
    assert(a@ =~= b@);
    true
}

fn is_interpreting(raw: &RawInspection, i: &Inspection) -> (r: bool)
    ensures
        r == interprets(raw@, *i),
{
    if i.file_length != raw.revision.length || !same(
        i.file_blake3.as_str(),
        raw.revision.blake3.as_str(),
    ) || !same(i.issues.as_str(), raw.issues.as_str()) || i.packets.len() != raw.packets.len()
        || i.parse_inputs.len() != raw.parse_inputs.len() {
        return false;
    }
    let unchanged: bool = match (i.modified, raw.revision.modified_unix_ns) {
        (Some(a), Some(b)) => a == b,
        (None, None) => true,
        _ => false,
    };
    if !unchanged || !same(i.status.as_str(), "Complete") {
        return false;
    }
    let mut k: usize = 0;
    while k < raw.packets.len()
        invariant
            k <= raw.packets@.len(),
            i.packets@.len() == raw.packets@.len(),
            forall|j: int|
                0 <= j < k ==> is_packet(raw@.packets[j], #[trigger] i.packets@[j]),
        decreases raw.packets@.len() - k,
    {
        let found = &raw.packets[k];
        assert(raw@.packets[k as int] == found@);
        let p = &i.packets[k];
        if !same(p.container.as_str(), found.container.as_str()) || !same_bytes(
            p.bytes.as_slice(),
            found.bytes.as_slice(),
        ) || !same(p.blake3.as_str(), found.blake3.as_str()) || !same_ranges(
            &p.ranges,
            &found.ranges,
        ) || !same(p.group.as_str(), found.group.as_str()) || !same(
            p.attributes.as_str(),
            found.attributes.as_str(),
        ) {
            assert(!is_packet(raw@.packets[k as int], i.packets@[k as int]));
            return false;
        }
        k += 1;
    }
    let mut n: usize = 0;
    while n < raw.parse_inputs.len()
        invariant
            n <= raw.parse_inputs@.len(),
            i.parse_inputs@.len() == raw.parse_inputs@.len(),
            forall|j: int|
                0 <= j < n ==> is_input(raw@.parse_inputs[j], #[trigger] i.parse_inputs@[j]),
        decreases raw.parse_inputs@.len() - n,
    {
        let found = &raw.parse_inputs[n];
        assert(raw@.parse_inputs[n as int] == found@);
        let p = &i.parse_inputs[n];
        if !same_bytes(p.bytes.as_slice(), found.bytes.as_slice()) || !same(
            p.blake3.as_str(),
            found.blake3.as_str(),
        ) || !same_indices(&p.packet_indices, &found.packet_indices) || !same(
            p.transformation.as_str(),
            found.transformation.as_str(),
        ) || !same(p.group.as_str(), found.group.as_str()) {
            assert(!is_input(raw@.parse_inputs[n as int], i.parse_inputs@[n as int]));
            return false;
        }
        n += 1;
    }
    true
}

/// The result of a projection that was made.
pub open spec fn result_of(p: PendingModel, observation: Option<i64>) -> FileResultModel {
    let ambiguous = p.found matches Some(x) && x.1.ambiguous;
    let reason = if p.found is None {
        Some(
            "Incomplete, unavailable, foreign-path or oversized interpretation; complete original evidence retained without automatic projection"@,
        )
    } else if ambiguous {
        Some(
            "Candidate sidecar ownership remains unresolved; native models retained as ambiguous"@,
        )
    } else {
        None
    };
    FileResultModel {
        input_digest: p.input_digest,
        asset_id: p.asset_id,
        state: if p.found is None {
            "retained_only"@
        } else if ambiguous {
            "ambiguous_metadata_retained"@
        } else {
            "metadata_retained"@
        },
        historical_status: p.historical_status,
        observation,
        reason: if !p.geometry {
            reason
        } else {
            match reason {
                None => Some(replay_geometry()),
                Some(text) => Some(text + "; "@ + replay_geometry()),
            }
        },
    }
}

fn make_result(p: &Pending, observation: Option<i64>) -> (result: ProjectionResult)
    ensures
        result@ == result_of(p@, observation),
{
    let (state, reason): (&str, &str) = match &p.found {
        None => (
            "retained_only",
            "Incomplete, unavailable, foreign-path or oversized interpretation; complete original evidence retained without automatic projection",
        ),
        Some(x) => if x.1.ambiguous {
            (
                "ambiguous_metadata_retained",
                "Candidate sidecar ownership remains unresolved; native models retained as ambiguous",
            )
        } else {
            ("metadata_retained", "")
        },
    };
    let settled: bool = match &p.found {
        None => false,
        Some(x) => !x.1.ambiguous,
    };
    let said: Option<String> = if settled && !p.geometry {
        None
    } else {
        let mut text: String = reason.to_owned();
        if p.geometry {
            if !settled {
                text.append("; ");
            }
            text.append(
                "Oversized custody replay binds ordered chunk geometry; equal bytes with different chunk boundaries require explicit reconciliation",
            );
            proof {
                if settled {
                    reveal_strlit("");
                    assert(text@ =~= replay_geometry());
                }
            }
        }
        Some(text)
    };
    ProjectionResult {
        input_digest: p.input_digest.clone(),
        asset_id: p.asset_id.clone(),
        state: state.to_owned(),
        historical_status: p.historical_status,
        observation,
        reason: said,
    }
}

/// What the decision that a projection makes rests on.
pub open spec fn receipts_of(request: Projection, p: PendingModel) -> FileProofModel {
    FileProofModel {
        file: request.file.retained_record,
        path: request.retained_path,
        packet_records: request.packet_records@,
        supplement_evidence: support::text_of(request.supplement),
        source_binding: p.binding,
    }
}

fn make_receipts(request: &Projection, p: &Pending) -> (receipts: FileProof)
    ensures
        receipts@ == receipts_of(*request, p@),
{
    let packet_records: Vec<i64> = request.packet_records.clone();
    assert(packet_records@ =~= request.packet_records@);
    FileProof {
        file: request.file.retained_record,
        path: request.retained_path,
        packet_records,
        supplement_evidence: copy_option(&request.supplement),
        source_binding: p.binding.clone(),
    }
}

/// The decision that a projection makes.
pub open spec fn decided(request: Projection, p: PendingModel, observation: Option<i64>) -> FileMetadataModel {
    FileMetadataModel {
        file_source: request.file.source.identity@,
        origin: request.origin,
        supplement: p.supplement,
        owner: request.import_source@,
        input_digest: p.input_digest,
        retained_file: request.file.retained_record,
        retained_path: request.retained_path,
        receipts: receipts_of(request, p),
        result: result_of(p, observation),
    }
}

/// What retaining a pending observation changes, and its number.
pub open spec fn retained_as(
    m: TablesModel,
    p: PendingModel,
    interpreted: Option<Inspection>,
) -> Result<(TablesModel, Option<i64>), MigrationError> {
    match p.found {
        None => Ok((m, None)),
        Some((raw, source)) => match interpreted {
            None => Err(MigrationError::PreparationDiffers),
            Some(i) => if !interprets(raw, i) {
                Err(MigrationError::PreparationDiffers)
            } else {
                match prepared::prepare_outcome(i, source) {
                    Err(e) => Err(MigrationError::Catalog(e)),
                    Ok(made) => match store::retain_outcome(
                        m,
                        p.asset_id,
                        source,
                        made,
                        true,
                    ) {
                        Err(e) => Err(MigrationError::Catalog(e)),
                        Ok((after, change)) => Ok((after, Some(change.observation_id))),
                    },
                }
            },
        },
    }
}

/// What projecting a file's metadata changes, and its result.
pub open spec fn file_projected(
    c: Catalog,
    roster: Option<Roster>,
    request: Projection,
    given: Option<Supplement>,
    interpreted: Option<Inspection>,
) -> Result<(TablesModel, FilesModel, FileResultModel), MigrationError> {
    let files = c.migration.files@;
    match planned(c, roster, request, given) {
        Err(e) => Err(e),
        Ok(FilePlanModel::Replayed(result)) => Ok((c.tables@, files, result)),
        Ok(FilePlanModel::Ready(p)) => match retained_as(c.tables@, p, interpreted) {
            Err(e) => Err(e),
            Ok((m, observation)) => Ok(
                (
                    m,
                    FilesModel { rows: files.rows.push(decided(request, p, observation)), ..files },
                    result_of(p, observation),
                ),
            ),
        },
    }
}

fn retain_pending(
    tables: &mut Tables,
    p: &Pending,
    interpreted: Option<&Inspection>,
) -> (out: Result<Option<i64>, MigrationError>)
    ensures
        match retained_as(old(tables)@, p@, referred(interpreted)) {
            Err(e) => out == Err::<Option<i64>, MigrationError>(e),
            Ok((m, observation)) => final(tables)@ == m && out == Ok::<Option<i64>, MigrationError>(
                observation,
            ),
        },
{
    match &p.found {
        None => Ok(None),
        Some(x) => match interpreted {
            None => Err(MigrationError::PreparationDiffers),
            Some(i) => {
                if !is_interpreting(&x.0, i) {
                    return Err(MigrationError::PreparationDiffers);
                }
                let made: Prepared = match Prepared::new(i, &x.1) {
                    Err(e) => return Err(MigrationError::Catalog(e)),
                    Ok(made) => made,
                };
                match retain_prepared(tables, p.asset_id.as_str(), &x.1, &made, true) {
                    Err(e) => Err(MigrationError::Catalog(e)),
                    Ok(change) => Ok(Some(change.observation_id)),
                }
            },
        },
    }
}

impl Catalog {
    /// Projects the metadata of one origin of a file. What was found is given back
    /// interpreted; where nothing can be interpreted the evidence stays retained
    /// only. An origin that was decided upon is found again with its result.
    pub fn project_migration_file_metadata(
        &mut self,
        roster: Option<&Roster>,
        request: &Projection,
        given: Option<&Supplement>,
        interpreted: Option<&Inspection>,
    ) -> (out: Result<ProjectionResult, MigrationError>)
        ensures
            final(self).files_only(*old(self)),
            match file_projected(
                *old(self),
                referred(roster),
                *request,
                referred(given),
                referred(interpreted),
            ) {
                Err(e) => *final(self) == *old(self) && out == Err::<
                    ProjectionResult,
                    MigrationError,
                >(e),
                Ok((m, files, result)) => final(self).tables@ == m && final(self).migration.files@
                    == files && (out matches Ok(found) && found@ == result),
            },
    {
        let p: Pending = match self.plan_migration_file_metadata(roster, request, given) {
            Err(e) => return Err(e),
            Ok(FilePlan::Replayed(result)) => return Ok(result),
            Ok(FilePlan::Ready(p)) => p,
        };
        let mut tables: Tables = self.tables.copied();
        let observation: Option<i64> = match retain_pending(
            &mut tables,
            &p,
            interpreted,
        ) {
            Err(e) => return Err(e),
            Ok(observation) => observation,
        };
        let result: ProjectionResult = make_result(&p, observation);
        let row: FileMetadataRow = FileMetadataRow {
            file_source: request.file.source.identity.clone(),
            origin: request.origin,
            supplement: p.supplement.clone(),
            owner: request.import_source.clone(),
            input_digest: p.input_digest.clone(),
            retained_file: request.file.retained_record,
            retained_path: request.retained_path,
            receipts: make_receipts(request, &p),
            result: result.copied(),
        };
        let ghost before = self.migration.files@;
        self.tables = tables;
        self.migration.files.rows.push(row);
        assert(self.migration.files@ =~= FilesModel {
            rows: before.rows.push(decided(*request, p@, observation)),
            ..before
        });
        Ok(result)
    }
}

/// Once an origin of a file was decided upon, asking the same again gives the same
/// result, and asking anything else of it is refused.
pub proof fn law_file_decisions_stand(
    files: FilesModel,
    request: Projection,
    p: PendingModel,
    observation: Option<i64>,
    again: Projection,
    digest: Seq<char>,
)
    requires
        files.row_at(request.file.source.identity@, request.origin, p.supplement) is None,
        again.file.source.identity@ == request.file.source.identity@,
        again.origin == request.origin,
    ensures
        ({
            let row = decided(request, p, observation);
            let after = FilesModel { rows: files.rows.push(row), ..files };
            earlier(after, again, p.supplement, digest) == if again.import_source@
                == request.import_source@ && digest == p.input_digest {
                Ok::<Option<FileResultModel>, MigrationError>(Some(row.result))
            } else {
                Err(MigrationError::DecisionChanged)
            }
        }),
{
    let row = decided(request, p, observation);
    support::lemma_pushed(
        files.rows,
        files.rows.push(row),
        file_metadata::decided_on(
            request.file.source.identity@,
            request.origin,
            p.supplement,
        ),
    );
}

/// What is found of a request does not hang upon earlier decisions.
proof fn lemma_standing(r: RetainedModel, files: FilesModel, later: FilesModel, request: Projection)
    requires
        files.seals == later.seals,
    ensures
        standing(r, later, request) == standing(r, files, request),
        standing(r, files, request) matches Ok(s) ==> r.record_of(request.file.retained_record)
            matches Some(i) && r.records[i].input == s.scope.input,
{
    reveal(standing);
}

/// The steps of planning up to what was decided before.
proof fn lemma_plan(c: Catalog, roster: Option<Roster>, request: Projection, given: Option<Supplement>)
    requires
        planned(c, roster, request, given) is Ok,
    ensures
        ({
            let r = c.migration.retained@;
            let files = c.migration.files@;
            let s = standing(r, files, request)->Ok_0;
            let found = supplement_of(c, request, s, given)->Ok_0;
            let key = supplement_key(found);
            let content = file_content::historical_content(
                r,
                s.scope,
                request.packet_records@,
                s.base,
            );
            let digest = request_digest(request, s.observed, key, content->Ok_0.0);
            &&& standing(r, files, request) is Ok
            &&& supplement_of(c, request, s, given) is Ok
            &&& roster_refused(r, files, roster, request, s, key) is None
            &&& content is Ok
            &&& digest is Ok
            &&& match planned(c, roster, request, given)->Ok_0 {
                FilePlanModel::Replayed(result) => earlier(files, request, key, digest->Ok_0) == Ok::<
                    Option<FileResultModel>,
                    MigrationError,
                >(Some(result)),
                FilePlanModel::Ready(p) => files.row_at(
                    request.file.source.identity@,
                    request.origin,
                    key,
                ) is None && p.supplement == key && p.input_digest == digest->Ok_0,
            }
        }),
{
    reveal(planned);
}

/// A request that was decided upon is found with its result.
proof fn lemma_replayed(
    c: Catalog,
    roster: Option<Roster>,
    request: Projection,
    given: Option<Supplement>,
    s: Standing,
    found: Option<(Seq<char>, Seq<char>, Option<file_history::RawInspectionModel>)>,
    content: (Seq<char>, bool),
    digest: Seq<char>,
    result: FileResultModel,
)
    requires
        standing(c.migration.retained@, c.migration.files@, request) == Ok::<
            Standing,
            MigrationError,
        >(s),
        supplement_of(c, request, s, given) == Ok::<
            Option<(Seq<char>, Seq<char>, Option<file_history::RawInspectionModel>)>,
            MigrationError,
        >(found),
        roster_refused(
            c.migration.retained@,
            c.migration.files@,
            roster,
            request,
            s,
            supplement_key(found),
        ) is None,
        file_content::historical_content(
            c.migration.retained@,
            s.scope,
            request.packet_records@,
            s.base,
        ) == Ok::<(Seq<char>, bool), MigrationError>(content),
        request_digest(request, s.observed, supplement_key(found), content.0) == Ok::<
            Seq<char>,
            MigrationError,
        >(digest),
        earlier(c.migration.files@, request, supplement_key(found), digest) == Ok::<
            Option<FileResultModel>,
            MigrationError,
        >(Some(result)),
    ensures
        planned(c, roster, request, given) == Ok::<FilePlanModel, MigrationError>(
            FilePlanModel::Replayed(result),
        ),
{
    reveal(planned);
}

proof fn lemma_found_again(
    c: Catalog,
    roster: Option<Roster>,
    request: Projection,
    given: Option<Supplement>,
    interpreted: Option<Inspection>,
    after: Catalog,
    again: Option<Roster>,
)
    requires
        file_projected(c, roster, request, given, interpreted) is Ok,
        after.migration.retained == c.migration.retained,
        after.evidence == c.evidence,
        after.migration.files@ == file_projected(c, roster, request, given, interpreted)->Ok_0.1,
        again == roster || (again is None && planned(c, roster, request, given)->Ok_0 is Ready),
    ensures
        planned(after, again, request, given) == Ok::<FilePlanModel, MigrationError>(
            FilePlanModel::Replayed(file_projected(c, roster, request, given, interpreted)->Ok_0.2),
        ),
{
    let r = c.migration.retained@;
    let files = c.migration.files@;
    let later = after.migration.files@;
    lemma_plan(c, roster, request, given);
    lemma_standing(r, files, later, request);
    let s = standing(r, files, request)->Ok_0;
    let found = supplement_of(c, request, s, given)->Ok_0;
    let key = supplement_key(found);
    let content = file_content::historical_content(r, s.scope, request.packet_records@, s.base)->Ok_0;
    let digest = request_digest(request, s.observed, key, content.0)->Ok_0;
    let result = file_projected(c, roster, request, given, interpreted)->Ok_0.2;
    if let FilePlanModel::Ready(p) = planned(c, roster, request, given)->Ok_0 {
        let observation = retained_as(c.tables@, p, interpreted)->Ok_0.1;
        let row = decided(request, p, observation);
        support::lemma_pushed(
            files.rows,
            later.rows,
            file_metadata::decided_on(request.file.source.identity@, request.origin, key),
        );
        assert(later.rows[files.rows.len() as int] == row);
    }
    assert(roster_refused(r, later, again, request, s, key) is None);
    assert(supplement_of(after, request, s, given) == supplement_of(c, request, s, given));
    lemma_replayed(after, again, request, given, s, found, content, digest, result);
}

/// A file's metadata that was projected is found again with its result, and nothing is
/// changed: whatever has happened to the tables since, and once it was decided upon also
/// without the source.
pub proof fn law_projected_files_are_found_again(
    c: Catalog,
    roster: Option<Roster>,
    request: Projection,
    given: Option<Supplement>,
    interpreted: Option<Inspection>,
    after: Catalog,
    again: Option<Roster>,
    other: Option<Inspection>,
)
    requires
        file_projected(c, roster, request, given, interpreted) is Ok,
        after.migration.retained == c.migration.retained,
        after.evidence == c.evidence,
        after.migration.files@ == file_projected(c, roster, request, given, interpreted)->Ok_0.1,
        again == roster || (again is None && planned(c, roster, request, given)->Ok_0 is Ready),
    ensures
        file_projected(after, again, request, given, other) == Ok::<
            (TablesModel, FilesModel, FileResultModel),
            MigrationError,
        >(
            (
                after.tables@,
                after.migration.files@,
                file_projected(c, roster, request, given, interpreted)->Ok_0.2,
            ),
        ),
{
    lemma_found_again(c, roster, request, given, interpreted, after, again);
}

/// Nothing is taken to be complete that was not: an origin whose inspection was not
/// complete, and that nothing supplements, stays retained only and changes no table.
pub proof fn law_incomplete_stays_retained(
    c: Catalog,
    roster: Option<Roster>,
    request: Projection,
    given: Option<Supplement>,
    interpreted: Option<Inspection>,
)
    requires
        request.supplement is None,
        standing(c.migration.retained@, c.migration.files@, request) matches Ok(s) && (
        s.observed matches Some(v) ==> v.status != Some(Status::Complete)),
        planned(c, roster, request, given) matches Ok(plan) && plan is Ready,
    ensures
        file_projected(c, roster, request, given, interpreted) matches Ok((m, _, result))
            && m == c.tables@ && result.state == "retained_only"@ && result.observation is None
            && result.reason is Some,
{
    reveal(planned);
}

/// A sidecar whose association is open is never taken for the file's own: what it
/// gives is an ambiguous observation.
pub proof fn law_unresolved_sidecars_stay_ambiguous(
    c: Catalog,
    roster: Option<Roster>,
    request: Projection,
    given: Option<Supplement>,
)
    requires
        request.origin != Origin::Embedded,
        request.association is Unresolved,
        planned(c, roster, request, given) matches Ok(plan) && plan is Ready,
    ensures
        ({
            let p = planned(c, roster, request, given)->Ok_0->Ready_0;
            p.found matches Some(x) ==> x.1.ambiguous && forall|observation: Option<i64>|
                (#[trigger] result_of(p, observation)).state == "ambiguous_metadata_retained"@
        }),
{
    reveal(planned);
}

} // verus!

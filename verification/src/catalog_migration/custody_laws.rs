//! What a copy of a captured file has to be before it is taken into custody, and what custody
//! then says of it.
use crate::catalog::Catalog;
use crate::catalog_migration::artifacts;
use crate::catalog_migration::artifacts::{
    ArtifactDescriptorModel, ArtifactError, ArtifactLimits, ArtifactRequestModel, ContentCheck,
    FileIdentityModel, FileKey, ReaderModel,
};
use crate::catalog_migration::evidence;
use crate::catalog_migration::evidence::EvidenceState;
use crate::catalog_migration::file_metadata::FilesModel;
use crate::catalog_migration::retained;
use crate::catalog_migration::retained::{Collection, Detail, RetainedModel};
use crate::outside;
use crate::support;
use vstd::prelude::*;

verus! {

/// A copy is taken for what its descriptor says only where the open file is the one that it names,
/// is none of the protected files, and was read to its end with the digest of the captured file.
pub proof fn law_open_copies_are_what_they_are_described_as(
    d: ArtifactDescriptorModel,
    protected: Seq<FileKey>,
    opened: FileIdentityModel,
    key: FileKey,
    content: ContentCheck,
)
    ensures
        artifacts::opened_refusal(d, protected, opened, key, content) is None <==> {
            &&& opened.object == d.request.mapping.copy_identity.object
            &&& opened.bytes == d.request.mapping.copy_identity.bytes
            &&& opened.modified_ns == d.request.mapping.copy_identity.modified_ns
            &&& opened.changed == d.request.mapping.copy_identity.changed
            &&& forall|i: int| 0 <= i < protected.len() ==> #[trigger] protected[i] != key
            &&& content.left() == 0
            &&& outside::blake3_hex(content.taken()) == d.artifact.blake3
        },
{
    let named = d.request.mapping.copy_identity;
    if opened.object == named.object && opened.bytes == named.bytes && opened.modified_ns
        == named.modified_ns && opened.changed == named.changed {
        assert(opened =~= named);
    }
    if protected.contains(key) {
        let i = choose|i: int| 0 <= i < protected.len() && protected[i] == key;
        assert(protected[i] == key);
    } else {
        assert forall|i: int| 0 <= i < protected.len() implies #[trigger] protected[i] != key by {
            assert(protected.contains(protected[i]));
        }
    }
}

/// A copy is opened exactly where nothing stops it, its descriptor can be kept and names a
/// member of a stored record, the copy is as long as the captured file and within the bounds, all
/// of its digests are digests, and it is below the root that it is looked for in.
pub proof fn law_only_fitting_copies_are_opened(
    d: ArtifactDescriptorModel,
    limits: ArtifactLimits,
    stopped: bool,
    protected: nat,
)
    ensures
        artifacts::opening_refusal(d, limits, stopped, protected) is None <==> {
            &&& !stopped
            &&& 0 < limits.maximum_bytes <= i64::MAX
            &&& 1 <= limits.open_deadline_ms <= 3_600_000
            &&& 1 <= limits.chunk_deadline_ms <= 120_000
            &&& 1 <= limits.chunk_bytes <= 1048576
            &&& protected <= 4096
            &&& artifacts::encoded_descriptor(d) is Ok
            &&& d.protocol == 1
            &&& d.request.retained_capture_record > 0
            &&& d.request.member_index <= i64::MAX
            &&& d.artifact.revision.bytes == d.request.mapping.copy_identity.bytes
            &&& d.artifact.revision.bytes <= limits.maximum_bytes
            &&& outside::digest_text(d.selected_input)
            &&& outside::digest_text(d.capture_revision)
            &&& outside::digest_text(d.manifest_blake3)
            &&& outside::digest_text(d.artifact.blake3)
            &&& artifacts::mapped_path(d.request.mapping.root, d.request.mapping.relative) is Ok
        },
{
}

/// The chunks of a copy lie end to end: each is as long as the limits let it be, or ends where the
/// copy ends, and none begins behind that.
pub proof fn law_chunks_lie_end_to_end(reader: ReaderModel, offset: u64)
    ensures
        ({
            let length = reader.descriptor.artifact.revision.bytes;
            match artifacts::chunk_at(reader, offset) {
                Err(e) => offset > length && e is OffsetBounds,
                Ok(n) => {
                    &&& offset + n <= length
                    &&& n <= reader.limits.chunk_bytes
                    &&& n == reader.limits.chunk_bytes || offset + n == length
                    &&& n == 0 ==> offset == length || reader.limits.chunk_bytes == 0
                },
            }
        }),
{
}

/// What is said of a member is what the manifest of its capture says: the record is of a capture
/// that was captured under its revision, the member is the one at its place in the manifest, the
/// manifest is known by its digest, and the copy is as long as the member.
pub proof fn law_members_are_those_of_their_manifest(
    r: RetainedModel,
    files: FilesModel,
    request: ArtifactRequestModel,
)
    requires
        artifacts::descriptor_of(r, files, request) is Ok,
    ensures
        ({
            let d = artifacts::descriptor_of(r, files, request)->Ok_0;
            &&& d.protocol == 1
            &&& d.request == request
            &&& exists|i: int|
                {
                    &&& 0 <= i < r.records.len()
                    &&& (#[trigger] r.records[i]).sequence == request.retained_capture_record
                    &&& r.records[i].complete
                    &&& r.records[i].collection == Collection::Captures
                    &&& r.records[i].input == d.selected_input
                    &&& r.records[i].revision == d.capture_revision
                    &&& r.records[i].field_bytes("manifest"@, 8388608) matches Ok(
                        bytes,
                    ) && outside::blake3_hex(bytes) == d.manifest_blake3
                    &&& r.records[i].detail matches Detail::Capture(detail) && {
                        &&& detail.manifest.state@ == "captured"@
                        &&& support::text_of(detail.manifest.revision_id) == Some(
                            d.capture_revision,
                        )
                        &&& detail.artifacts_blake3@ == d.capture_revision
                        &&& request.member_index < detail.manifest.artifacts@.len()
                        &&& d.artifact == detail.manifest.artifacts@[request.member_index as int]@
                    }
                }
            &&& d.artifact.revision.bytes == request.mapping.copy_identity.bytes
            &&& outside::digest_text(d.artifact.blake3)
        }),
{
    reveal(artifacts::descriptor_of);
    support::lemma_first_where(
        r.records,
        retained::record_at(request.retained_capture_record),
    );
    let i = r.record_of(request.retained_capture_record)->0;
    assert(r.records[i].sequence == request.retained_capture_record);
}

/// Custody is begun of a copy that is still the one that was opened, and says of it what its
/// reader says. What was in custody before stays, and no more than the one member is added, whose
/// payload is as long as the captured file and none of which is there yet.
pub proof fn law_begun_custody_is_of_its_copy(
    before: Catalog,
    after: Catalog,
    reader: ReaderModel,
    unchanged: bool,
    out: Result<EvidenceState, ArtifactError>,
)
    requires
        artifacts::custody_begun(before, after, reader, unchanged, out),
    ensures
        reader.poisoned || !unchanged ==> out is Err,
        out is Err ==> after == before,
        before.migration.artifacts@.len() <= after.migration.artifacts@.len()
            <= before.migration.artifacts@.len() + 1,
        forall|x: int|
            0 <= x < before.migration.artifacts@.len() ==> #[trigger] after.migration.artifacts@[x]
                == before.migration.artifacts@[x],
        after.migration.artifacts@.len() > before.migration.artifacts@.len() ==> {
            let row = after.migration.artifacts@.last();
            let request = reader.descriptor.request;
            &&& row.retained_capture_record == request.retained_capture_record
            &&& row.member_index == request.member_index
            &&& row.descriptor == reader.descriptor
            &&& row.encoded == reader.encoded
            &&& forall|x: int|
                0 <= x < before.migration.artifacts@.len() ==> {
                    ||| (#[trigger] before.migration.artifacts@[x]).retained_capture_record
                        != request.retained_capture_record
                    ||| before.migration.artifacts@[x].member_index != request.member_index
                }
            &&& exists|e: int|
                0 <= e < after.evidence.rows@.len() && (#[trigger] after.evidence.rows@[e]).id@
                    == row.evidence
        },
        after.evidence.rows@.len() > before.evidence.rows@.len() ==> {
            let row = after.evidence.rows@.last();
            &&& row.descriptor@ == reader.encoded
            &&& row.length == reader.descriptor.artifact.revision.bytes
            &&& row.committed == 0
        },
{
    let request = reader.descriptor.request;
    let rows = before.migration.artifacts@;
    let q = artifacts::custody_of(request.retained_capture_record, request.member_index);
    support::lemma_first_where(rows, q);
    if after.migration.artifacts@.len() > rows.len() {
        let id = after.migration.artifacts@.last().evidence;
        support::lemma_first_where(
            after.evidence.rows@,
            evidence::with_id(id),
        );
        let e = after.evidence.row_of(id)->0;
        assert(after.evidence.rows@[e].id@ == id);
        assert forall|x: int| 0 <= x < rows.len() implies {
            ||| (#[trigger] rows[x]).retained_capture_record != request.retained_capture_record
            ||| rows[x].member_index != request.member_index
        } by {
            assert(!q(rows[x]));
        }
    }
}

/// A copy is mapped to a captured file exactly where the limits are in bounds, nothing stops it,
/// the copy is below the root that it is looked for in, and it was read to its end with the length
/// and the digest of the captured file.
pub proof fn law_copies_are_mapped_to_what_they_hold(
    artifact: artifacts::ArtifactModel,
    root: retained::PathModel,
    relative: retained::PathModel,
    limits: ArtifactLimits,
    stopped: bool,
    opened: FileIdentityModel,
    content: ContentCheck,
)
    ensures
        artifacts::preparation_refusal(artifact, root, relative, limits, stopped, opened, content) is None
            <==> {
            &&& limits.refusal() is None
            &&& !stopped
            &&& artifact.revision.bytes <= limits.maximum_bytes
            &&& artifacts::mapped_path(root, relative) is Ok
            &&& opened.bytes == artifact.revision.bytes
            &&& content.left() == 0
            &&& outside::blake3_hex(content.taken()) == artifact.blake3
        },
{
}

/// The member that a copy is looked for of is the one at its place in the manifest that was
/// reviewed: the manifest is the one of the digest that was asked for, and was captured under
/// the revision that was asked for.
pub proof fn law_reviewed_members_are_those_of_the_manifest(
    manifest_json: Seq<u8>,
    detail: artifacts::CaptureDetail,
    request: artifacts::MappingPreparation,
    limits: ArtifactLimits,
    stopped: bool,
)
    ensures
        artifacts::reviewed_member(manifest_json, detail, request, limits, stopped) matches Ok(member)
            ==> {
            &&& !stopped
            &&& limits.refusal() is None
            &&& manifest_json.len() <= 8388608
            &&& outside::blake3_hex(manifest_json) == request.manifest_blake3@
            &&& detail.manifest.protocol == 1
            &&& detail.manifest.state@ == "captured"@
            &&& support::text_of(detail.manifest.revision_id) == Some(request.capture_revision@)
            &&& detail.artifacts_blake3@ == request.capture_revision@
            &&& request.member_index < detail.manifest.artifacts@.len()
            &&& member == detail.manifest.artifacts@[request.member_index as int]@
            &&& outside::digest_text(member.blake3)
        },
{
}

/// What is said of a member for a reader is what the catalog says of it, and nothing is said
/// where the member is in custody as another copy.
pub proof fn law_members_in_custody_are_not_given_another_copy(
    c: Catalog,
    request: ArtifactRequestModel,
    x: int,
)
    requires
        artifacts::reader_descriptor(c, request) is Ok,
    ensures
        artifacts::reader_descriptor(c, request) == artifacts::descriptor_of(
            c.migration.retained@,
            c.migration.files@,
            request,
        ),
        0 <= x < c.migration.artifacts@.len() && c.migration.artifacts@[x].retained_capture_record
            == request.retained_capture_record && c.migration.artifacts@[x].member_index
            == request.member_index && (forall|j: int|
            0 <= j < x ==> {
                ||| (#[trigger] c.migration.artifacts@[j]).retained_capture_record
                    != request.retained_capture_record
                ||| c.migration.artifacts@[j].member_index != request.member_index
            }) ==> Ok::<Seq<u8>, ArtifactError>(c.migration.artifacts@[x].encoded)
            == artifacts::encoded_descriptor(artifacts::reader_descriptor(c, request)->Ok_0),
{
    let rows = c.migration.artifacts@;
    let q = artifacts::custody_of(request.retained_capture_record, request.member_index);
    if 0 <= x < rows.len() && rows[x].retained_capture_record == request.retained_capture_record
        && rows[x].member_index == request.member_index && (forall|j: int|
        0 <= j < x ==> {
            ||| (#[trigger] rows[j]).retained_capture_record != request.retained_capture_record
            ||| rows[j].member_index != request.member_index
        }) {
        support::lemma_first_found(rows, q, x);
    }
}

/// A step of the custody takes in the bytes that come next and no others, of a copy that is
/// still the one that was opened: a step that is refused leaves no trace, what is complete stays as
/// it is, and what is taken in goes behind what was committed, with its digest.
pub proof fn law_custody_takes_in_what_comes_next(
    before: Catalog,
    after: Catalog,
    reader: ReaderModel,
    unchanged: bool,
    stopped: bool,
    bytes: Seq<u8>,
    out: Result<EvidenceState, ArtifactError>,
)
    requires
        artifacts::custody_stepped(before, after, reader, unchanged, stopped, bytes, out),
    ensures
        reader.poisoned || !unchanged || stopped ==> out is Err,
        out is Err ==> after == before,
        out matches Ok(state) ==> exists|i: int|
            {
                let row = before.evidence.rows@[i];
                &&& 0 <= i < before.evidence.rows@.len()
                &&& (#[trigger] after.evidence.rows@[i]).id@ == row.id@
                &&& state.committed == after.evidence.rows@[i].committed
                &&& state.complete == after.evidence.rows@[i].complete
                &&& row.complete ==> after == before
                &&& !row.complete ==> {
                    &&& bytes.len() > 0
                    &&& after.evidence.rows@[i].committed == row.committed + bytes.len()
                    &&& bytes.len() == reader.limits.chunk_bytes || row.committed + bytes.len()
                        == reader.descriptor.artifact.revision.bytes
                    &&& after.evidence.chunks@.len() == before.evidence.chunks@.len() + 1
                    &&& after.evidence.chunks@.last().evidence@ == row.id@
                    &&& after.evidence.chunks@.last().offset == row.committed
                    &&& after.evidence.chunks@.last().hash@ == outside::blake3_hex(bytes)
                }
            },
{
    let request = reader.descriptor.request;
    let rows = before.migration.artifacts@;
    if out is Ok {
        let found = artifacts::existing_custody(
            rows,
            reader.encoded,
            request.retained_capture_record,
            request.member_index,
        );
        let id = found->Ok_0->0;
        support::lemma_first_where(before.evidence.rows@, evidence::with_id(id));
        let i = before.evidence.row_of(id)->0;
        let row = before.evidence.rows@[i];
        assert(row.id@ == id);
        if !row.complete {
            let chunk = choose|chunk: evidence::PreparedChunk| #[trigger]
                chunk.prepared_from(bytes) && before.evidence.appended(
                    after.evidence,
                    id,
                    row.committed,
                    chunk,
                );
            assert(chunk.prepared_from(bytes));
        }
        assert(after.evidence.rows@[i].id@ == row.id@);
    }
}

} // verus!

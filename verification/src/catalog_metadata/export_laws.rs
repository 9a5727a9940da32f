//! What exports are for: settled metadata is published as it was planned, and only for as long
//! as it has not changed since.
use crate::catalog::Catalog;
use crate::catalog_images;
use crate::catalog_metadata::exports;
use crate::catalog_metadata::exports::Attempt;
use crate::catalog_metadata::prepared;
use crate::catalog_metadata::views;
use crate::catalog_metadata::views::Field;
use crate::catalog_metadata_write;
use crate::catalog_metadata_write::{BindingModel, PlanModel, WritesModel};
use crate::error::CatalogError;
use crate::lookups;
use crate::outside;
use crate::support;
use crate::tables::TablesModel;
use vstd::prelude::*;

verus! {

/// An image's recorded revision: that of its row, or none yet.
pub open spec fn records_revision(m: TablesModel, image: Seq<char>, revision: i64) -> bool {
    ||| exists|i: int|
        0 <= i < m.revisions.len() && (#[trigger] m.revisions[i]).image_id == image
            && m.revisions[i].revision == revision && forall|j: int|
            0 <= j < i ==> (#[trigger] m.revisions[j]).image_id != image
    ||| revision == 0 && forall|j: int|
        0 <= j < m.revisions.len() ==> (#[trigger] m.revisions[j]).image_id != image
}

pub(crate) proof fn lemma_recorded(m: TablesModel, image: Seq<char>, revision: i64)
    ensures
        records_revision(m, image, revision) <==> m.revision_of(image) == revision,
{
    let p = lookups::revision_for(image);
    support::lemma_first_where(m.revisions, p);
    match m.revision_at(image) {
        Some(i) => {
            assert forall|j: int| 0 <= j < i implies (#[trigger] m.revisions[j]).image_id != image by {
                assert(!p(m.revisions[j]));
            }
            assert(m.revisions[i].image_id == image);
            if records_revision(m, image, revision) {
                let k = choose|k: int|
                    0 <= k < m.revisions.len() && (#[trigger] m.revisions[k]).image_id == image
                        && m.revisions[k].revision == revision && forall|j: int|
                        0 <= j < k ==> (#[trigger] m.revisions[j]).image_id != image;
                assert(k == i);
            }
        },
        None => {
            assert forall|j: int| 0 <= j < m.revisions.len() implies (
            #[trigger] m.revisions[j]).image_id != image by {
                assert(!p(m.revisions[j]));
            }
        },
    }
}

/// The plan of an operation, which is the first of its name.
pub open spec fn is_plan(w: WritesModel, operation: Seq<char>, i: int) -> bool {
    &&& 0 <= i < w.plans.len()
    &&& w.plans[i].operation == operation
    &&& forall|j: int| 0 <= j < i ==> (#[trigger] w.plans[j]).operation != operation
}

proof fn lemma_plan(w: WritesModel, operation: Seq<char>, i: int)
    requires
        is_plan(w, operation, i),
    ensures
        w.plan_at(operation) == Some(i),
{
    let p = catalog_metadata_write::plan_for(operation);
    assert forall|j: int| 0 <= j < i implies !p(#[trigger] w.plans[j]) by {}
    support::lemma_first_found(w.plans, p, i);
}

/// What a plan was made for changed since: the recorded revision of its image is another, or
/// the identity that it is bound to is not the image's any more.
pub open spec fn outdated(m: TablesModel, row: PlanModel, now: i64) -> bool {
    match row.image {
        BindingModel::Asset => records_revision(m, row.asset_id, now) && now != row.revision,
        BindingModel::Image(identity) => records_revision(m, identity.image_id, now) && now
            != identity.metadata_revision,
    }
}

/// A plan is not carried out once the metadata that it was made from has another revision:
/// nothing is handed out to publish, and a receipt of it is refused and changes nothing.
pub proof fn law_outdated_plans_are_not_carried_out(
    before: Catalog,
    after: Catalog,
    operation: Seq<char>,
    receipt: Seq<char>,
    attempt: Option<Attempt>,
    kind: Seq<char>,
    r: Result<(), CatalogError>,
    i: int,
    now: i64,
)
    requires
        is_plan(before.writes@, operation, i),
        outdated(before.tables@, before.writes@.plans[i], now),
        exports::applied(before, after, operation, receipt, attempt, kind, r),
    ensures
        exports::action_outcome(before.tables@, before.writes@, operation, attempt) is Err,
        r is Err,
        after == before,
{
    lemma_plan(before.writes@, operation, i);
    let row = before.writes@.plans[i];
    match row.image {
        BindingModel::Asset => lemma_recorded(before.tables@, row.asset_id, now),
        BindingModel::Image(identity) => lemma_recorded(before.tables@, identity.image_id, now),
    }
}

/// What is published of a plan is what was planned: its own document for the destination, and
/// bytes of the digest that it was saved with; and the metadata is at the revision that the plan
/// was made at, in every part of the identity that it is bound to.
pub proof fn law_published_bytes_are_the_planned(
    m: TablesModel,
    w: WritesModel,
    operation: Seq<char>,
    attempt: Option<Attempt>,
    i: int,
)
    requires
        is_plan(w, operation, i),
        exports::action_outcome(m, w, operation, attempt) is Ok,
    ensures
        ({
            let (plan, payload) = exports::action_outcome(m, w, operation, attempt)->Ok_0;
            let row = w.plans[i];
            &&& plan == row.plan
            &&& outside::blake3_hex(payload) == row.payload_hash
            &&& row.image is Asset ==> records_revision(m, row.asset_id, row.revision)
            &&& row.image matches BindingModel::Image(identity) ==> records_revision(
                m,
                identity.image_id,
                identity.metadata_revision,
            ) && is_identity(m, identity)
        }),
{
    lemma_plan(w, operation, i);
    let row = w.plans[i];
    lemma_recorded(m, row.asset_id, row.revision);
    if let BindingModel::Image(identity) = row.image {
        lemma_recorded(m, identity.image_id, identity.metadata_revision);
        lemma_identity(m, identity);
    }
}

/// An identity is that of an image as it stands: of its row and of its physical file.
pub open spec fn is_identity(m: TablesModel, identity: catalog_images::IdentityModel) -> bool {
    exists|i: int, a: int|
        #![trigger m.images[i], m.assets[a]]
        {
            &&& 0 <= i < m.images.len()
            &&& 0 <= a < m.assets.len()
            &&& m.images[i].id == identity.image_id
            &&& m.images[i].asset_id == m.assets[a].id
            &&& m.images[i].asset_id == identity.key.asset_id
            &&& m.images[i].variant_id == identity.key.variant_id
            &&& m.images[i].pixel_generation == identity.pixel_generation
            &&& m.images[i].applied_shared_epoch == m.assets[a].shared_epoch
            &&& m.assets[a].shared_epoch == identity.shared_source_epoch
            &&& m.assets[a].physical_generation == identity.physical_generation
        }
}

pub(crate) proof fn lemma_identity(m: TablesModel, identity: catalog_images::IdentityModel)
    ensures
        m.identity_of(identity.image_id) == Ok::<catalog_images::IdentityModel, CatalogError>(
            identity,
        ) ==> is_identity(m, identity),
{
    if m.identity_of(identity.image_id) == Ok::<catalog_images::IdentityModel, CatalogError>(
        identity,
    ) {
        support::lemma_first_where(m.images, lookups::image_with_id(identity.image_id));
        let i = m.image_at(identity.image_id)->0;
        support::lemma_first_where(m.assets, lookups::asset_with_id(m.images[i].asset_id));
        let a = m.asset_at(m.images[i].asset_id)->0;
        assert(m.images[i].asset_id == m.assets[a].id);
    }
}

/// Receipts of a plan that was carried out: the plan keeps the destination's receipt, every other
/// plan stays as it was, and an attempt is recorded once, with its own request.
pub proof fn law_receipts_are_kept_with_their_plan(
    before: Catalog,
    after: Catalog,
    operation: Seq<char>,
    receipt: Seq<char>,
    attempt: Option<Attempt>,
    kind: Seq<char>,
    i: int,
    j: int,
)
    requires
        is_plan(before.writes@, operation, i),
        exports::applied(before, after, operation, receipt, attempt, kind, Ok(())),
        0 <= j < before.writes@.plans.len(),
    ensures
        ({
            let old_rows = before.writes@;
            let new_rows = after.writes@;
            &&& after.tables == before.tables
            &&& new_rows.plans.len() == old_rows.plans.len()
            &&& new_rows.plans[j] == (if j == i {
                PlanModel { receipt: Some(receipt), ..old_rows.plans[i] }
            } else {
                old_rows.plans[j]
            })
            &&& match attempt {
                None => new_rows.receipts == old_rows.receipts,
                Some(a) => {
                    &&& new_rows.receipts.len() == old_rows.receipts.len() + 1
                    &&& new_rows.receipts.drop_last() == old_rows.receipts
                    &&& new_rows.receipts.last().attempt == a.attempt@
                    &&& new_rows.receipts.last().request_digest == a.request_digest@
                    &&& new_rows.receipts.last().kind == kind
                    &&& forall|k: int|
                        0 <= k < old_rows.receipts.len() ==> (
                        #[trigger] old_rows.receipts[k]).attempt != a.attempt@
                },
            }
        }),
{
    lemma_plan(before.writes@, operation, i);
    if let Some(a) = attempt {
        assert(after.writes@.receipts.drop_last() =~= before.writes@.receipts);
        let p = catalog_metadata_write::receipt_for(a.attempt@);
        support::lemma_first_where(before.writes@.receipts, p);
        assert forall|k: int| 0 <= k < before.writes@.receipts.len() implies (
        #[trigger] before.writes@.receipts[k]).attempt != a.attempt@ by {
            assert(!p(before.writes@.receipts[k]));
        }
    }
}

/// A recovery finishes a plan only where the metadata is as it was planned; otherwise, and
/// wherever it is asked to, it puts back what was there. It is for the plan that the directory's
/// name speaks of, in the directory that the plan names.
pub proof fn law_outdated_plans_are_only_taken_back(
    m: TablesModel,
    w: WritesModel,
    name: Seq<char>,
    directory: Seq<u8>,
    planned_directory: Seq<u8>,
    restore_only: bool,
    attempt: Option<Attempt>,
    i: int,
    restore: bool,
    now: i64,
)
    requires
        exports::recovery_outcome(
            m,
            w,
            name,
            directory,
            planned_directory,
            restore_only,
            attempt,
        ) == Ok::<(int, bool), CatalogError>((i, restore)),
    ensures
        0 <= i < w.plans.len(),
        name == ".photocatalog-xmp-export-"@ + w.plans[i].operation,
        directory == planned_directory,
        restore_only ==> restore,
        outdated(m, w.plans[i], now) ==> restore,
        !restore && w.plans[i].image is Asset ==> records_revision(
            m,
            w.plans[i].asset_id,
            w.plans[i].revision,
        ),
        restore && !restore_only && w.plans[i].image is Asset ==> !records_revision(
            m,
            w.plans[i].asset_id,
            w.plans[i].revision,
        ),
{
    let operation = exports::recovery_operation_of(name)->0;
    support::lemma_first_where(w.plans, catalog_metadata_write::plan_for(operation));
    let row = w.plans[i];
    assert(name =~= ".photocatalog-xmp-export-"@ + row.operation);
    lemma_recorded(m, row.asset_id, row.revision);
    lemma_recorded(m, row.asset_id, now);
    if let BindingModel::Image(identity) = row.image {
        lemma_recorded(m, identity.image_id, now);
    }
}

/// Only settled metadata is planned: the image is at the revision that was asked for, no field
/// in effect has a conflict, and the packet holds every field as it is in effect and none that was
/// removed.
pub proof fn law_only_settled_metadata_is_planned(
    m: TablesModel,
    image: Seq<char>,
    revision: i64,
    base_model: i64,
    fields: Seq<Field>,
    packet: Seq<prepared::PreparedValueModel>,
    name: Seq<char>,
)
    requires
        views::shows_fields(m, image, fields),
        exports::export_check(m, image, revision, base_model, fields, packet) is Ok,
    ensures
        records_revision(m, image, revision),
        m.effective.contains_key((image, name)) ==> {
            let shown = m.effective[(image, name)];
            &&& !shown.conflicted
            &&& shown.value matches Some(value) && if value == "null"@ {
                forall|i: int| 0 <= i < packet.len() ==> (#[trigger] packet[i]).field != name
            } else {
                exists|i: int|
                    0 <= i < packet.len() && (#[trigger] packet[i]).field == name
                        && packet[i].value == value
            }
        },
{
    lemma_recorded(m, image, revision);
    if m.effective.contains_key((image, name)) {
        let i = choose|i: int| 0 <= i < fields.len() && (#[trigger] fields[i])@.name == name;
        let p = exports::value_for(name);
        support::lemma_first_where(packet, p);
        assert(exports::holds_field(packet, fields[i]@));
        match support::first_where(packet, p) {
            None => {
                assert forall|k: int| 0 <= k < packet.len() implies (#[trigger] packet[k]).field
                    != name by {
                    assert(!p(packet[k]));
                }
            },
            Some(k) => {
                assert(packet[k].field == name);
            },
        }
    }
}

/// A plan that was made can be carried out as long as nothing changed: what is handed out to
/// publish then is the plan that was given, with bytes of the digest of those that were given.
pub proof fn law_made_plans_can_be_carried_out(
    m: TablesModel,
    w: WritesModel,
    operation: Seq<char>,
    image: Seq<char>,
    revision: i64,
    base_model: i64,
    plan: Seq<char>,
    payload: Seq<u8>,
)
    requires
        records_revision(m, image, revision),
        m.is_stored(image),
        exports::planned(w, operation, image, revision, base_model, plan, payload) is Ok,
        exports::payload_kept(m.blobs, payload) is Ok,
    ensures
        ({
            let planned = exports::planned(
                w,
                operation,
                image,
                revision,
                base_model,
                plan,
                payload,
            )->Ok_0;
            let blobs = exports::payload_kept(m.blobs, payload)->Ok_0;
            let kept = TablesModel { blobs, ..m };
            match exports::action_outcome(kept, planned, operation, None) {
                Ok((shown, bytes)) => shown == plan && outside::blake3_hex(bytes)
                    == outside::blake3_hex(payload),
                Err(e) => e != CatalogError::RevisionChanged && e != CatalogError::PlanMissing,
            }
        }),
{
    let planned = exports::planned(w, operation, image, revision, base_model, plan, payload)->Ok_0;
    let kept = TablesModel { blobs: exports::payload_kept(m.blobs, payload)->Ok_0, ..m };
    support::lemma_pushed(w.plans, planned.plans, catalog_metadata_write::plan_for(operation));
    lemma_recorded(m, image, revision);
    lemma_recorded(kept, image, revision);
    let hash = outside::blake3_hex(payload);
    support::lemma_first_where(kept.blobs, lookups::blob_with_hash(hash));
}

/// A recovery is one of the directory that a planned export works in, which bears the name of its
/// operation: it is recorded with the plan, and a receipt is kept of it where it was attempted
/// as a request, that says whether it could only be taken back. What is refused changes nothing.
pub proof fn law_recoveries_are_recorded(
    before: Catalog,
    after: Catalog,
    name: Seq<char>,
    directory: Seq<u8>,
    planned_directory: Seq<u8>,
    restore_only: bool,
    receipt: Seq<char>,
    attempt: Option<Attempt>,
    r: Result<(), CatalogError>,
)
    requires
        exports::recovered(
            before,
            after,
            name,
            directory,
            planned_directory,
            restore_only,
            receipt,
            attempt,
            r,
        ),
    ensures
        after.tables == before.tables,
        r is Err ==> after == before,
        r is Ok ==> directory == planned_directory && exists|i: int|
            {
                &&& 0 <= i < before.writes@.plans.len()
                &&& after.writes@.plans.len() == before.writes@.plans.len()
                &&& name == ".photocatalog-xmp-export-"@ + before.writes@.plans[i].operation
                &&& (#[trigger] after.writes@.plans[i]).receipt == Some(receipt)
                &&& after.writes@.plans[i].operation == before.writes@.plans[i].operation
                &&& after.writes@.plans[i].plan == before.writes@.plans[i].plan
                &&& forall|j: int|
                    0 <= j < before.writes@.plans.len() && j != i
                        ==> #[trigger] after.writes@.plans[j] == before.writes@.plans[j]
            },
        r is Ok && attempt is None ==> after.writes@.receipts == before.writes@.receipts,
        r is Ok ==> (attempt matches Some(a) ==> {
            let kept = after.writes@.receipts;
            &&& kept.len() == before.writes@.receipts.len() + 1
            &&& kept.last().attempt == a.attempt@
            &&& kept.last().request_digest == a.request_digest@
            &&& kept.last().owner_document == a.owner_document@
            &&& kept.last().kind == if restore_only {
                "sidecar_restore"@
            } else {
                "sidecar_recover"@
            }
        }),
{
    if r is Ok {
        let operation = exports::recovery_operation_of(name)->0;
        let q = catalog_metadata_write::plan_for(operation);
        support::lemma_first_where(before.writes@.plans, q);
        let i = before.writes@.plan_at(operation)->0;
        assert(before.writes@.plans[i].operation == operation);
        let prefix = exports::recovery_prefix();
        assert(name =~= prefix + operation);
        assert(after.writes@.plans[i].receipt == Some(receipt));
    }
}

} // verus!

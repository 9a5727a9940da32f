//! What receipts and planned exports are found as, told by the rows.
use crate::catalog_images;
use crate::catalog_images::image_laws;
use crate::catalog_metadata::export_laws;
use crate::catalog_metadata::store_laws;
use crate::catalog_metadata::view_laws;
use crate::catalog_metadata::views;
use crate::catalog_metadata_write;
use crate::catalog_metadata_write::{
    BindingModel, OwnerModel, PlanModel, ReceiptModel, SavedPlan, SavedPlanModel, WritesModel,
};
use crate::error::CatalogError;
use crate::outside;
use crate::support;
use crate::tables::TablesModel;
use vstd::prelude::*;
use vstd::utf8::*;

verus! {

/// An attempt has no receipt.
pub open spec fn no_receipt(w: WritesModel, attempt: Seq<char>) -> bool {
    forall|i: int| 0 <= i < w.receipts.len() ==> (#[trigger] w.receipts[i]).attempt != attempt
}

/// The receipt of an attempt, the first where there are several.
pub open spec fn is_receipt(w: WritesModel, i: int, attempt: Seq<char>) -> bool {
    0 <= i < w.receipts.len() && w.receipts[i].attempt == attempt && forall|j: int|
        0 <= j < i ==> (#[trigger] w.receipts[j]).attempt != attempt
}

proof fn lemma_receipt(w: WritesModel, attempt: Seq<char>)
    ensures
        no_receipt(w, attempt) <==> w.receipt_at(attempt) is None,
        w.receipt_at(attempt) matches Some(i) ==> is_receipt(w, i, attempt),
{
    let q = catalog_metadata_write::receipt_for(attempt);
    support::lemma_first_where(w.receipts, q);
    match w.receipt_at(attempt) {
        Some(i) => {
            assert(w.receipts[i].attempt == attempt);
            assert forall|j: int| 0 <= j < i implies (#[trigger] w.receipts[j]).attempt != attempt by {
                assert(!q(w.receipts[j]));
            }
        },
        None => {
            assert forall|i: int| 0 <= i < w.receipts.len() implies (
            #[trigger] w.receipts[i]).attempt != attempt by {
                assert(!q(w.receipts[i]));
            }
        },
    }
}

/// A receipt is kept only of an attempt that has none yet, and only of a request of one of the
/// kinds that there are.
pub proof fn law_receipts_are_kept_once(w: WritesModel, receipt: ReceiptModel)
    ensures
        catalog_metadata_write::receipt_refusal(w, receipt) is None ==> no_receipt(
            w,
            receipt.attempt,
        ) && outside::canonical_uuid(receipt.attempt) && outside::digest_text(
            receipt.request_digest,
        ),
        catalog_metadata_write::receipt_refusal(w, receipt) is None ==> receipt.kind == "edit"@
            || receipt.kind == "resolve"@ || receipt.kind == "sidecar_plan"@ || receipt.kind
            == "sidecar_apply"@ || receipt.kind == "sidecar_recover"@ || receipt.kind
            == "sidecar_restore"@,
        !no_receipt(w, receipt.attempt) ==> catalog_metadata_write::receipt_refusal(w, receipt) is Some,
{
    lemma_receipt(w, receipt.attempt);
}

/// A receipt is found only by the request that it was kept of: by another request's digest the
/// attempt is refused, and without a receipt nothing is found.
pub proof fn law_receipts_are_found_by_their_request(
    w: WritesModel,
    attempt: Seq<char>,
    digest: Seq<char>,
)
    ensures
        catalog_metadata_write::existing_outcome(w, attempt, digest) matches Ok(Some(x)) ==> exists|
            i: int,
        |
            #[trigger] is_receipt(w, i, attempt) && w.receipts[i] == x && x.request_digest == digest,
        catalog_metadata_write::existing_outcome(w, attempt, digest) matches Ok(None) ==> no_receipt(
            w,
            attempt,
        ),
        forall|i: int| #[trigger]
            is_receipt(w, i, attempt) && w.receipts[i].request_digest != digest
                ==> catalog_metadata_write::existing_outcome(w, attempt, digest) is Err,
{
    lemma_receipt(w, attempt);
    assert forall|i: int| #[trigger]
        is_receipt(w, i, attempt) && w.receipts[i].request_digest
            != digest implies catalog_metadata_write::existing_outcome(w, attempt, digest) is Err by {
        support::lemma_first_found(w.receipts, catalog_metadata_write::receipt_for(attempt), i);
    }
}

/// A planned export is shown as it was saved, on behalf of the image or the physical file that
/// it was planned for, with the digest of the plan as its authority.
pub open spec fn shows_plan(row: PlanModel, x: SavedPlanModel) -> bool {
    &&& x.id == row.id
    &&& x.revision == row.revision
    &&& x.base_model == row.base_model
    &&& x.plan == row.plan
    &&& x.receipt == row.receipt
    &&& x.authority == outside::blake3_hex(encode_utf8(row.plan))
    &&& match row.image {
        BindingModel::Image(identity) => x.owner == (OwnerModel::Image { identity }),
        BindingModel::Asset => x.owner == (OwnerModel::LegacyAsset {
            asset_id: row.asset_id,
            revision: row.revision,
        }),
    }
}

/// A planned export is of the variant that was asked for, where one was.
pub open spec fn is_of(row: PlanModel, selected: Option<catalog_images::VariantKeyModel>) -> bool {
    selected matches Some(key) ==> (row.image matches BindingModel::Image(identity) && identity.key
        == key)
}

/// A shown plan is one of the first rows that is of the variant.
pub open spec fn comes_of(
    rows: Seq<PlanModel>,
    selected: Option<catalog_images::VariantKeyModel>,
    n: nat,
    x: SavedPlanModel,
) -> bool {
    exists|j: int| 0 <= j < n && is_of(rows[j], selected) && #[trigger] shows_plan(rows[j], x)
}

/// A row is among the plans that are shown.
pub open spec fn is_shown(xs: Seq<SavedPlanModel>, row: PlanModel) -> bool {
    exists|k: int| 0 <= k < xs.len() && #[trigger] shows_plan(row, xs[k])
}

proof fn lemma_shown(
    rows: Seq<PlanModel>,
    selected: Option<catalog_images::VariantKeyModel>,
    n: nat,
)
    requires
        n <= rows.len(),
    ensures
        catalog_metadata_write::plans_shown(rows, selected, n) matches Ok(xs) ==> {
            &&& forall|k: int| 0 <= k < xs.len() ==> comes_of(rows, selected, n, #[trigger] xs[k])
            &&& forall|j: int|
                0 <= j < n && is_of(#[trigger] rows[j], selected) ==> is_shown(xs, rows[j])
        },
    decreases n,
{
    if n > 0 {
        lemma_shown(rows, selected, (n - 1) as nat);
        if let Ok(xs) = catalog_metadata_write::plans_shown(rows, selected, n) {
            let before = catalog_metadata_write::plans_shown(rows, selected, (n - 1) as nat)->Ok_0;
            let row = rows[n - 1];
            assert(is_of(row, selected) <==> catalog_metadata_write::plan_selected(row, selected));
            assert forall|k: int| 0 <= k < xs.len() implies comes_of(
                rows,
                selected,
                n,
                #[trigger] xs[k],
            ) by {
                if k < before.len() {
                    assert(xs[k] == before[k]);
                    assert(comes_of(rows, selected, (n - 1) as nat, before[k]));
                    let j = choose|j: int|
                        0 <= j < n - 1 && is_of(rows[j], selected) && #[trigger] shows_plan(
                            rows[j],
                            before[k],
                        );
                    assert(shows_plan(rows[j], xs[k]));
                } else {
                    assert(shows_plan(rows[n - 1], xs[k]));
                }
            }
            assert forall|j: int| 0 <= j < n && is_of(#[trigger] rows[j], selected) implies is_shown(
                xs,
                rows[j],
            ) by {
                if j < n - 1 {
                    assert(is_shown(before, rows[j]));
                    let k = choose|k: int|
                        0 <= k < before.len() && #[trigger] shows_plan(rows[j], before[k]);
                    assert(shows_plan(rows[j], xs[k]));
                } else {
                    assert(shows_plan(rows[j], xs[before.len() as int]));
                }
            }
        }
    }
}

/// A page of planned exports shows those of the variant that was asked for, out of the rows that
/// were looked at: each as it was saved, and none of them left out. It says where to go on
/// exactly where rows are left.
pub proof fn law_plans_are_shown_to_their_variant(
    rows: Seq<PlanModel>,
    selected: Option<catalog_images::VariantKeyModel>,
    limit: nat,
    scan_limit: nat,
    shown: Vec<SavedPlan>,
    next: Option<i64>,
    scanned: usize,
)
    requires
        limit > 0,
        scan_limit > 0,
        catalog_metadata_write::is_plan_page(
            rows,
            selected,
            limit,
            scan_limit,
            Ok::<(Vec<SavedPlan>, Option<i64>, usize), CatalogError>((shown, next, scanned)),
        ),
    ensures
        scanned <= rows.len(),
        scanned <= scan_limit,
        forall|k: int|
            0 <= k < shown@.len() ==> comes_of(
                rows,
                selected,
                scanned as nat,
                support::models(shown@)[k],
            ),
        forall|j: int|
            0 <= j < scanned && is_of(#[trigger] rows[j], selected) ==> is_shown(
                support::models(shown@),
                rows[j],
            ),
        scanned == rows.len() <==> next is None,
        next matches Some(id) ==> scanned > 0 && id == rows[scanned - 1].id && (shown@.len()
            >= limit || scanned == scan_limit),
{
    lemma_shown(rows, selected, scanned as nat);
    let xs = support::models(shown@);
    assert(xs.len() == shown@.len());
    assert forall|k: int| 0 <= k < shown@.len() implies comes_of(
        rows,
        selected,
        scanned as nat,
        support::models(shown@)[k],
    ) by {
        assert(comes_of(rows, selected, scanned as nat, xs[k]));
    }
    if scanned == 0 && rows.len() > 0 {
        assert(shown@.len() == 0);
    }
}

/// An observation is given out as a document only for an image that has it in its history, as
/// long as the image is as expected, and within the bytes and packets that are allowed; it says
/// all of the observation's packets, or is refused.
pub proof fn law_evidence_is_given_out_within_limits(
    m: TablesModel,
    i: int,
    expected: catalog_images::IdentityModel,
    observation: i64,
    byte_limit: u64,
    packet_limit: usize,
    document: Seq<u8>,
)
    requires
        image_laws::images_keyed(m),
        0 <= i < m.images.len(),
        m.images[i].id == expected.image_id,
        catalog_metadata_write::evidence_outcome(
            m,
            expected,
            observation,
            byte_limit,
            packet_limit,
        ) == Ok::<Seq<u8>, CatalogError>(document),
    ensures
        store_laws::in_history(m, expected.image_id, observation),
        export_laws::records_revision(m, expected.image_id, expected.metadata_revision),
        expected.pixel_generation == m.images[i].pixel_generation,
        document.len() <= byte_limit,
        m.packets.filter(|x: crate::tables::PacketModel| x.observation_id == observation).len()
            <= packet_limit,
{
    image_laws::lemma_image(m, i);
    view_laws::lemma_history(m, expected.image_id, observation);
    export_laws::lemma_recorded(m, expected.image_id, expected.metadata_revision);
    let p = |x: crate::tables::PacketModel| x.observation_id == observation;
    assert(p =~= views::packet_of(observation));
    crate::ordering::law_ordered_rows_are_the_same_in_order(
        m.packets.filter(views::packet_of(observation)),
        views::packet_ordinal(),
    );
    vstd::seq_lib::to_multiset_len(m.packets.filter(views::packet_of(observation)));
    vstd::seq_lib::to_multiset_len(views::packet_rows(m, observation));
    reveal_strlit("]");
    assert(is_ascii_chars("]"@));
    is_ascii_chars_encode_utf8("]"@);
}

/// A receipt that is asked for by its attempt alone is the one that was kept of the attempt, and
/// none is found exactly where none was kept.
pub proof fn law_receipts_are_found_by_their_attempt(w: WritesModel, attempt: Seq<char>)
    ensures
        catalog_metadata_write::receipt_outcome(w, attempt) matches Ok(Some(x)) ==> exists|i: int|
            #[trigger] is_receipt(w, i, attempt) && w.receipts[i] == x,
        catalog_metadata_write::receipt_outcome(w, attempt) matches Ok(None) ==> no_receipt(w, attempt),
        outside::canonical_uuid(attempt) && no_receipt(w, attempt)
            ==> catalog_metadata_write::receipt_outcome(w, attempt) matches Ok(None),
        !outside::canonical_uuid(attempt) ==> catalog_metadata_write::receipt_outcome(w, attempt) is Err,
{
    lemma_receipt(w, attempt);
}

/// A page of planned exports is asked for within bounds: it begins at no negative number, holds
/// between one and a hundred plans, and looks through no fewer rows than it may hold and no more
/// than a thousand.
pub proof fn law_plans_are_listed_within_bounds(after: i64, limit: usize, scan_limit: usize)
    ensures
        !catalog_metadata_write::plans_refused(after, limit, scan_limit) <==> 0 <= after && 1 <= limit
            <= 100 && limit <= scan_limit <= 1000,
{
}

} // verus!

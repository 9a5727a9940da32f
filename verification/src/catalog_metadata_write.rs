//! Receipts that bind an attempt to its request, and planned exports.
use crate::catalog::Catalog;
use crate::catalog_images;
use crate::catalog_images::{
    identity, require_image_metadata_identity, ImageMetadataIdentity, VariantKey,
};
use crate::catalog_metadata::views;
use crate::catalog_metadata::views::{pick_packets, read_blob};
use crate::copies::Copied;
use crate::error::CatalogError;
use crate::ordering;
use crate::ordering::page_rows;
use crate::outside;
use crate::outside::{blake3_digest, json_valid, uuid_canonical};
use crate::support;
use crate::support::{append_bytes, byte_len, copy_option, find, same};
use crate::tables;
use crate::tables::{Tables, TablesModel};
use vstd::prelude::*;
use vstd::utf8::*;

pub mod laws;

verus! {

/// The most bytes of a receipt's owner document.
pub const OWNER_BYTES: usize = 32768;

/// The most bytes of a receipt's result document, and of a plan.
pub const DOCUMENT_BYTES: usize = 65536;

/// The most bytes of a receipt's kind.
pub const RECEIPT_KIND_BYTES: usize = 32;

/// The most bytes of a plan's physical file.
pub const PLAN_ASSET_BYTES: usize = 256;

/// The most plans on a page.
pub const PLAN_PAGE_LIMIT: usize = 100;

/// The most plans looked at for a page.
pub const PLAN_SCAN_LIMIT: usize = 1000;

/// The most bytes of an evidence document.
pub const EVIDENCE_DOCUMENT_BYTES: u64 = 268435456;

/// The most packets of an evidence document.
pub const EVIDENCE_PACKETS: usize = 1024;

/// The most bytes of a packet's descriptor.
pub const DESCRIPTOR_BYTES: usize = 16384;

/// On whose behalf a request is carried out.
#[derive(Clone, Debug)]
pub enum Owner {
    Image { identity: ImageMetadataIdentity },
    LegacyAsset { asset_id: String, revision: i64 },
}

/// What an `Owner` stands for.
#[verifier::ext_equal]
pub enum OwnerModel {
    Image { identity: catalog_images::IdentityModel },
    LegacyAsset { asset_id: Seq<char>, revision: i64 },
}

impl View for Owner {
    type V = OwnerModel;

    open spec fn view(&self) -> OwnerModel {
        match *self {
            Owner::Image { identity } => OwnerModel::Image { identity: identity@ },
            Owner::LegacyAsset { asset_id, revision } => OwnerModel::LegacyAsset {
                asset_id: asset_id@,
                revision,
            },
        }
    }
}

impl Copied for ImageMetadataIdentity {
    fn copied(&self) -> (c: Self) {
        ImageMetadataIdentity {
            image_id: self.image_id.clone(),
            key: self.key.copy(),
            metadata_revision: self.metadata_revision,
            pixel_generation: self.pixel_generation,
            shared_source_epoch: self.shared_source_epoch,
            physical_generation: self.physical_generation,
        }
    }
}

impl Copied for Owner {
    fn copied(&self) -> (c: Self) {
        match self {
            Owner::Image { identity } => Owner::Image { identity: identity.copied() },
            Owner::LegacyAsset { asset_id, revision } => Owner::LegacyAsset {
                asset_id: asset_id.clone(),
                revision: *revision,
            },
        }
    }
}

/// The image that a planned export was made for, if it was made for one.
pub enum Binding {
    Image(ImageMetadataIdentity),
    Asset,
}

/// What a `Binding` stands for.
#[verifier::ext_equal]
pub enum BindingModel {
    Image(catalog_images::IdentityModel),
    Asset,
}

impl View for Binding {
    type V = BindingModel;

    open spec fn view(&self) -> BindingModel {
        match *self {
            Binding::Image(identity) => BindingModel::Image(identity@),
            Binding::Asset => BindingModel::Asset,
        }
    }
}

impl Copied for Binding {
    fn copied(&self) -> (c: Self) {
        match self {
            Binding::Image(identity) => Binding::Image(identity.copied()),
            Binding::Asset => Binding::Asset,
        }
    }
}

/// What a request that was carried out gave.
pub struct Receipt {
    pub attempt: String,
    pub request_digest: String,
    pub kind: String,
    pub owner: Owner,
    pub owner_document: String,
    pub result: String,
}

/// What a `Receipt` stands for.
#[verifier::ext_equal]
pub struct ReceiptModel {
    pub attempt: Seq<char>,
    pub request_digest: Seq<char>,
    pub kind: Seq<char>,
    pub owner: OwnerModel,
    pub owner_document: Seq<char>,
    pub result: Seq<char>,
}

impl View for Receipt {
    type V = ReceiptModel;

    open spec fn view(&self) -> ReceiptModel {
        ReceiptModel {
            attempt: self.attempt@,
            request_digest: self.request_digest@,
            kind: self.kind@,
            owner: self.owner@,
            owner_document: self.owner_document@,
            result: self.result@,
        }
    }
}

/// A planned export of an image's metadata.
pub struct PlanRow {
    pub id: i64,
    pub operation: String,
    pub asset_id: String,
    pub revision: i64,
    pub base_model: i64,
    pub plan: String,
    pub payload_hash: String,
    pub receipt: Option<String>,
    pub image: Binding,
}

/// What a `PlanRow` stands for.
#[verifier::ext_equal]
pub struct PlanModel {
    pub id: i64,
    pub operation: Seq<char>,
    pub asset_id: Seq<char>,
    pub revision: i64,
    pub base_model: i64,
    pub plan: Seq<char>,
    pub payload_hash: Seq<char>,
    pub receipt: Option<Seq<char>>,
    pub image: BindingModel,
}

impl View for PlanRow {
    type V = PlanModel;

    open spec fn view(&self) -> PlanModel {
        PlanModel {
            id: self.id,
            operation: self.operation@,
            asset_id: self.asset_id@,
            revision: self.revision,
            base_model: self.base_model,
            plan: self.plan@,
            payload_hash: self.payload_hash@,
            receipt: support::text_of(self.receipt),
            image: self.image@,
        }
    }
}

/// A planned export as callers see it.
pub struct SavedPlan {
    pub id: i64,
    pub owner: Owner,
    pub revision: i64,
    pub base_model: i64,
    pub plan: String,
    pub receipt: Option<String>,
    pub authority: String,
}

/// What a `SavedPlan` stands for.
#[verifier::ext_equal]
pub struct SavedPlanModel {
    pub id: i64,
    pub owner: OwnerModel,
    pub revision: i64,
    pub base_model: i64,
    pub plan: Seq<char>,
    pub receipt: Option<Seq<char>>,
    pub authority: Seq<char>,
}

impl View for SavedPlan {
    type V = SavedPlanModel;

    open spec fn view(&self) -> SavedPlanModel {
        SavedPlanModel {
            id: self.id,
            owner: self.owner@,
            revision: self.revision,
            base_model: self.base_model,
            plan: self.plan@,
            receipt: support::text_of(self.receipt),
            authority: self.authority@,
        }
    }
}

impl Copied for Receipt {
    fn copied(&self) -> (c: Self) {
        Receipt {
            attempt: self.attempt.clone(),
            request_digest: self.request_digest.clone(),
            kind: self.kind.clone(),
            owner: self.owner.copied(),
            owner_document: self.owner_document.clone(),
            result: self.result.clone(),
        }
    }
}

impl Copied for PlanRow {
    fn copied(&self) -> (c: Self) {
        PlanRow {
            id: self.id,
            operation: self.operation.clone(),
            asset_id: self.asset_id.clone(),
            revision: self.revision,
            base_model: self.base_model,
            plan: self.plan.clone(),
            payload_hash: self.payload_hash.clone(),
            receipt: copy_option(&self.receipt),
            image: self.image.copied(),
        }
    }
}

/// The receipts and planned exports of a catalog.
pub struct Writes {
    pub receipts: Vec<Receipt>,
    pub plans: Vec<PlanRow>,
    /// The last plan number given out.
    pub plan_high: i64,
}

/// What `Writes` stand for.
#[verifier::ext_equal]
pub struct WritesModel {
    pub receipts: Seq<ReceiptModel>,
    pub plans: Seq<PlanModel>,
    pub plan_high: i64,
}

impl View for Writes {
    type V = WritesModel;

    open spec fn view(&self) -> WritesModel {
        WritesModel {
            receipts: support::models(self.receipts@),
            plans: support::models(self.plans@),
            plan_high: self.plan_high,
        }
    }
}

pub open spec fn receipt_for(attempt: Seq<char>) -> spec_fn(ReceiptModel) -> bool {
    |r: ReceiptModel| r.attempt == attempt
}

pub open spec fn plan_for(operation: Seq<char>) -> spec_fn(PlanModel) -> bool {
    |r: PlanModel| r.operation == operation
}

impl WritesModel {
    /// The receipt of an attempt.
    pub open spec fn receipt_at(self, attempt: Seq<char>) -> Option<int> {
        support::first_where(self.receipts, receipt_for(attempt))
    }

    /// The plan of an operation.
    pub open spec fn plan_at(self, operation: Seq<char>) -> Option<int> {
        support::first_where(self.plans, plan_for(operation))
    }
}

impl Writes {
    pub(crate) fn find_receipt_at(&self, attempt: &str) -> (r: Option<usize>)
        ensures
            match r {
                Some(i) => i < self.receipts@.len() && self@.receipt_at(attempt@) == Some(i as int)
                    && receipt_for(attempt@)(self.receipts@[i as int]@),
                None => self@.receipt_at(attempt@) is None,
            },
    {
        let test = |r: &Receipt| -> (b: bool)
            ensures b == receipt_for(attempt@)(r@)
        {
            same(r.attempt.as_str(), attempt)
        };
        find(&self.receipts, test, Ghost(receipt_for(attempt@)))
    }

    pub(crate) fn find_plan_at(&self, operation: &str) -> (r: Option<usize>)
        ensures
            match r {
                Some(i) => i < self.plans@.len() && self@.plan_at(operation@) == Some(i as int)
                    && plan_for(operation@)(self.plans@[i as int]@),
                None => self@.plan_at(operation@) is None,
            },
    {
        let test = |r: &PlanRow| -> (b: bool)
            ensures b == plan_for(operation@)(r@)
        {
            same(r.operation.as_str(), operation)
        };
        find(&self.plans, test, Ghost(plan_for(operation@)))
    }
}

impl Writes {
    /// No receipts and no plans.
    pub fn new() -> (w: Self)
        ensures
            w@ == (WritesModel {
                receipts: Seq::empty(),
                plans: Seq::empty(),
                plan_high: 0,
            }),
    {
        let w: Writes = Writes { receipts: Vec::new(), plans: Vec::new(), plan_high: 0 };
        assert(w@ =~= WritesModel { receipts: Seq::empty(), plans: Seq::empty(), plan_high: 0 });
        w
    }
}

/// Refuses an attempt that is no canonical UUID.
pub fn validate_attempt(attempt: &str) -> (r: Result<(), CatalogError>)
    ensures
        match r {
            Ok(()) => outside::canonical_uuid(attempt@),
            Err(e) => !outside::canonical_uuid(attempt@) && e == CatalogError::AttemptForm,
        },
{
    match uuid_canonical(attempt) {
        Some(canonical) => if same(canonical.as_str(), attempt) {
            Ok(())
        } else {
            Err(CatalogError::AttemptForm)
        },
        None => Err(CatalogError::AttemptForm),
    }
}

/// Refuses an operation that is no canonical UUID.
pub fn validate_operation(operation: &str) -> (r: Result<(), CatalogError>)
    ensures
        match r {
            Ok(()) => outside::canonical_uuid(operation@),
            Err(e) => !outside::canonical_uuid(operation@) && e == CatalogError::OperationForm,
        },
{
    match uuid_canonical(operation) {
        Some(canonical) => if same(canonical.as_str(), operation) {
            Ok(())
        } else {
            Err(CatalogError::OperationForm)
        },
        None => Err(CatalogError::OperationForm),
    }
}

/// Whether a text is a digest in lowercase hexadecimal.
pub fn is_digest(digest: &str) -> (r: bool)
    ensures
        r == outside::digest_text(digest@),
{
    let mut count: usize = 0;
    for c in it: digest.chars()
        invariant
            it.seq() == digest@,
            count == it.index() <= 64,
            forall|i: int| 0 <= i < it.index() ==> outside::hex_digit(#[trigger] digest@[i]),
    {
        if count == 64 || !(('0' <= c && c <= '9') || ('a' <= c && c <= 'f')) {
            assert(digest@[it.index() as int] == c);
            return false;
        }
        count += 1;
    }
    count == 64
}

/// Refuses a request digest that is not in lowercase hexadecimal.
pub fn validate_digest(digest: &str) -> (r: Result<(), CatalogError>)
    ensures
        match r {
            Ok(()) => outside::digest_text(digest@),
            Err(e) => !outside::digest_text(digest@) && e == CatalogError::DigestForm,
        },
{
    if is_digest(digest) {
        Ok(())
    } else {
        Err(CatalogError::DigestForm)
    }
}

/// The kinds of requests that receipts are kept of.
pub open spec fn receipt_kind(kind: Seq<char>) -> bool {
    kind == "edit"@ || kind == "resolve"@ || kind == "sidecar_plan"@ || kind == "sidecar_apply"@
        || kind == "sidecar_recover"@ || kind == "sidecar_restore"@
}

fn is_receipt_kind(kind: &str) -> (r: bool)
    ensures
        r == receipt_kind(kind@),
{
    same(kind, "edit") || same(kind, "resolve") || same(kind, "sidecar_plan") || same(
        kind,
        "sidecar_apply",
    ) || same(kind, "sidecar_recover") || same(kind, "sidecar_restore")
}

/// Why a receipt cannot be kept.
pub open spec fn receipt_refusal(w: WritesModel, receipt: ReceiptModel) -> Option<CatalogError> {
    if !outside::canonical_uuid(receipt.attempt) {
        Some(CatalogError::AttemptForm)
    } else if !outside::digest_text(receipt.request_digest) {
        Some(CatalogError::DigestForm)
    } else if !receipt_kind(receipt.kind) {
        Some(CatalogError::ReceiptKind)
    } else if support::byte_length(receipt.owner_document) > OWNER_BYTES || support::byte_length(
        receipt.result,
    ) > DOCUMENT_BYTES {
        Some(CatalogError::ReceiptBounds)
    } else if w.receipt_at(receipt.attempt) is Some {
        Some(CatalogError::AttemptTaken)
    } else {
        None
    }
}

/// Keeps the receipt of an attempt.
pub fn insert(w: &mut Writes, receipt: Receipt) -> (r: Result<(), CatalogError>)
    ensures
        match receipt_refusal(old(w)@, receipt@) {
            Some(e) => r == Err::<(), CatalogError>(e) && *final(w) == *old(w),
            None => r is Ok && final(w)@ == (WritesModel {
                receipts: old(w)@.receipts.push(receipt@),
                ..old(w)@
            }),
        },
{
    match validate_attempt(receipt.attempt.as_str()) {
        Err(e) => return Err(e),
        Ok(()) => {},
    }
    match validate_digest(receipt.request_digest.as_str()) {
        Err(e) => return Err(e),
        Ok(()) => {},
    }
    if !is_receipt_kind(receipt.kind.as_str()) {
        return Err(CatalogError::ReceiptKind);
    }
    if byte_len(receipt.owner_document.as_str()) > OWNER_BYTES || byte_len(
        receipt.result.as_str(),
    ) > DOCUMENT_BYTES {
        return Err(CatalogError::ReceiptBounds);
    }
    if w.find_receipt_at(receipt.attempt.as_str()).is_some() {
        return Err(CatalogError::AttemptTaken);
    }
    w.receipts.push(receipt);
    assert(w@ =~= WritesModel { receipts: old(w)@.receipts.push(receipt@), ..old(w)@ });
    Ok(())
}

/// A stored receipt is no larger than receipts are kept.
pub open spec fn receipt_fits(receipt: ReceiptModel) -> bool {
    &&& support::byte_length(receipt.request_digest) == 64
    &&& support::byte_length(receipt.kind) <= RECEIPT_KIND_BYTES
    &&& support::byte_length(receipt.owner_document) <= OWNER_BYTES
    &&& support::byte_length(receipt.result) <= DOCUMENT_BYTES
}

/// The receipt of an attempt, which belongs to one request only.
pub open spec fn existing_outcome(w: WritesModel, attempt: Seq<char>, digest: Seq<char>) -> Result<
    Option<ReceiptModel>,
    CatalogError,
> {
    if !outside::canonical_uuid(attempt) {
        Err(CatalogError::AttemptForm)
    } else if !outside::digest_text(digest) {
        Err(CatalogError::DigestForm)
    } else {
        match w.receipt_at(attempt) {
            None => Ok(None),
            Some(i) => if !receipt_fits(w.receipts[i]) {
                Err(CatalogError::ReceiptBounds)
            } else if w.receipts[i].request_digest != digest {
                Err(CatalogError::AttemptTaken)
            } else {
                Ok(Some(w.receipts[i]))
            },
        }
    }
}

/// The receipt of an attempt for a request.
pub fn existing(w: &Writes, attempt: &str, request_digest: &str) -> (r: Result<
    Option<Receipt>,
    CatalogError,
>)
    ensures
        match existing_outcome(w@, attempt@, request_digest@) {
            Err(e) => r == Err::<Option<Receipt>, CatalogError>(e),
            Ok(None) => r == Ok::<Option<Receipt>, CatalogError>(None),
            Ok(Some(receipt)) => r matches Ok(Some(found)) && found@ == receipt,
        },
{
    match validate_attempt(attempt) {
        Err(e) => return Err(e),
        Ok(()) => {},
    }
    match validate_digest(request_digest) {
        Err(e) => return Err(e),
        Ok(()) => {},
    }
    let i: usize = match w.find_receipt_at(attempt) {
        None => return Ok(None),
        Some(i) => i,
    };
    let row = &w.receipts[i];
    assert(w@.receipts[i as int] == row@);
    if byte_len(row.request_digest.as_str()) != 64 || byte_len(row.kind.as_str())
        > RECEIPT_KIND_BYTES || byte_len(row.owner_document.as_str()) > OWNER_BYTES || byte_len(
        row.result.as_str(),
    ) > DOCUMENT_BYTES {
        return Err(CatalogError::ReceiptBounds);
    }
    if !same(row.request_digest.as_str(), request_digest) {
        return Err(CatalogError::AttemptTaken);
    }
    Ok(Some(row.copied()))
}

/// Once an attempt has a receipt, the same request finds that receipt again, any
/// other request is refused, and no second receipt can be kept of the attempt.
pub proof fn law_attempt_is_bound_to_one_request(
    w: WritesModel,
    receipt: ReceiptModel,
    other: Seq<char>,
    second: ReceiptModel,
)
    requires
        receipt_refusal(w, receipt) is None,
        outside::digest_text(other),
        second.attempt == receipt.attempt,
    ensures
        ({
            let after = WritesModel { receipts: w.receipts.push(receipt), ..w };
            &&& existing_outcome(after, receipt.attempt, receipt.request_digest) == Ok::<
                Option<ReceiptModel>,
                CatalogError,
            >(Some(receipt))
            &&& other != receipt.request_digest ==> existing_outcome(after, receipt.attempt, other)
                == Err::<Option<ReceiptModel>, CatalogError>(CatalogError::AttemptTaken)
            &&& receipt_refusal(after, second) is Some
        }),
{
    let after = WritesModel { receipts: w.receipts.push(receipt), ..w };
    support::lemma_pushed(w.receipts, after.receipts, receipt_for(receipt.attempt));
    lemma_kind_bytes(receipt.kind);
    lemma_ascii_length(receipt.request_digest);
}

/// A text of ASCII characters takes up as many bytes as it has characters.
proof fn lemma_ascii_length(s: Seq<char>)
    requires
        forall|i: int| 0 <= i < s.len() ==> outside::hex_digit(#[trigger] s[i]),
    ensures
        support::byte_length(s) == s.len(),
{
    assert(is_ascii_chars(s)) by {
        assert forall|i: int| 0 <= i < s.len() implies 0 <= (#[trigger] s[i]) as nat <= 127 by {
            assert(outside::hex_digit(s[i]));
        }
    }
    is_ascii_chars_encode_utf8(s);
}

proof fn lemma_kind_bytes(kind: Seq<char>)
    requires
        receipt_kind(kind),
    ensures
        support::byte_length(kind) <= RECEIPT_KIND_BYTES,
{
    reveal_strlit("edit");
    reveal_strlit("resolve");
    reveal_strlit("sidecar_plan");
    reveal_strlit("sidecar_apply");
    reveal_strlit("sidecar_recover");
    reveal_strlit("sidecar_restore");
    assert(kind.len() <= 15);
    assert(is_ascii_chars(kind));
    is_ascii_chars_encode_utf8(kind);
}

impl Catalog {
    /// The receipt of an attempt.
    pub fn metadata_write_receipt(&self, attempt: &str) -> (r: Result<Option<Receipt>, CatalogError>)
        ensures
            match receipt_outcome(self.writes@, attempt@) {
                Err(e) => r == Err::<Option<Receipt>, CatalogError>(e),
                Ok(None) => r == Ok::<Option<Receipt>, CatalogError>(None),
                Ok(Some(receipt)) => r matches Ok(Some(found)) && found@ == receipt,
            },
    {
        match validate_attempt(attempt) {
            Err(e) => return Err(e),
            Ok(()) => {},
        }
        let w = &self.writes;
        match w.find_receipt_at(attempt) {
            None => Ok(None),
            Some(i) => {
                assert(w@.receipts[i as int] == w.receipts@[i as int]@);
                if byte_len(w.receipts[i].request_digest.as_str()) != 64 {
                    return Err(CatalogError::ReceiptBounds);
                }
                existing(w, attempt, w.receipts[i].request_digest.as_str())
            },
        }
    }
}

/// The receipt of an attempt, whatever its request.
pub open spec fn receipt_outcome(w: WritesModel, attempt: Seq<char>) -> Result<
    Option<ReceiptModel>,
    CatalogError,
> {
    if !outside::canonical_uuid(attempt) {
        Err(CatalogError::AttemptForm)
    } else {
        match w.receipt_at(attempt) {
            None => Ok(None),
            Some(i) => if support::byte_length(w.receipts[i].request_digest) != 64 {
                Err(CatalogError::ReceiptBounds)
            } else {
                existing_outcome(w, attempt, w.receipts[i].request_digest)
            },
        }
    }
}

/// On whose behalf an export was planned.
pub open spec fn plan_owner(row: PlanModel) -> OwnerModel {
    match row.image {
        BindingModel::Image(identity) => OwnerModel::Image { identity },
        BindingModel::Asset => OwnerModel::LegacyAsset {
            asset_id: row.asset_id,
            revision: row.revision,
        },
    }
}

pub(crate) fn find_plan_owner(row: &PlanRow) -> (owner: Owner)
    ensures
        owner@ == plan_owner(row@),
{
    match &row.image {
        Binding::Image(identity) => Owner::Image { identity: identity.copied() },
        Binding::Asset => Owner::LegacyAsset {
            asset_id: row.asset_id.clone(),
            revision: row.revision,
        },
    }
}

/// A stored plan is no larger than plans are kept.
pub open spec fn plan_fits(row: PlanModel) -> bool {
    &&& support::byte_length(row.asset_id) <= PLAN_ASSET_BYTES
    &&& support::byte_length(row.plan) <= DOCUMENT_BYTES
    &&& row.receipt matches Some(r) ==> support::byte_length(r) <= DOCUMENT_BYTES
}

fn is_plan_fitting(row: &PlanRow) -> (r: bool)
    ensures
        r == plan_fits(row@),
{
    byte_len(row.asset_id.as_str()) <= PLAN_ASSET_BYTES && byte_len(row.plan.as_str())
        <= DOCUMENT_BYTES && match &row.receipt {
        Some(r) => byte_len(r.as_str()) <= DOCUMENT_BYTES,
        None => true,
    }
}

/// The plan of an operation.
pub open spec fn plan_row(w: WritesModel, operation: Seq<char>) -> Result<int, CatalogError> {
    if !outside::canonical_uuid(operation) {
        Err(CatalogError::OperationForm)
    } else {
        match w.plan_at(operation) {
            None => Err(CatalogError::PlanMissing),
            Some(i) => if !plan_fits(w.plans[i]) || support::byte_length(w.plans[i].payload_hash)
                != 64 {
                Err(CatalogError::PlanBounds)
            } else {
                Ok(i)
            },
        }
    }
}

/// The plan of an operation.
pub fn export_plan_row(w: &Writes, operation: &str) -> (r: Result<usize, CatalogError>)
    ensures
        match plan_row(w@, operation@) {
            Ok(i) => r matches Ok(k) && k == i && k < w.plans@.len(),
            Err(e) => r == Err::<usize, CatalogError>(e),
        },
{
    match validate_operation(operation) {
        Err(e) => return Err(e),
        Ok(()) => {},
    }
    match w.find_plan_at(operation) {
        None => Err(CatalogError::PlanMissing),
        Some(i) => {
            assert(w@.plans[i as int] == w.plans@[i as int]@);
            if !is_plan_fitting(&w.plans[i]) || byte_len(w.plans[i].payload_hash.as_str()) != 64 {
                Err(CatalogError::PlanBounds)
            } else {
                Ok(i)
            }
        },
    }
}

/// What callers see of a planned export. Its authority is the digest of the plan.
pub open spec fn saved_plan(row: PlanModel) -> SavedPlanModel {
    SavedPlanModel {
        id: row.id,
        owner: plan_owner(row),
        revision: row.revision,
        base_model: row.base_model,
        plan: row.plan,
        receipt: row.receipt,
        authority: outside::blake3_hex(encode_utf8(row.plan)),
    }
}

fn show_plan(row: &PlanRow) -> (p: SavedPlan)
    ensures
        p@ == saved_plan(row@),
{
    SavedPlan {
        id: row.id,
        owner: find_plan_owner(row),
        revision: row.revision,
        base_model: row.base_model,
        plan: row.plan.clone(),
        receipt: copy_option(&row.receipt),
        authority: blake3_digest(row.plan.as_str().as_bytes()),
    }
}

/// A planned export belongs to a variant.
pub open spec fn plan_selected(
    row: PlanModel,
    selected: Option<catalog_images::VariantKeyModel>,
) -> bool {
    match selected {
        None => true,
        Some(key) => row.image matches BindingModel::Image(identity) && identity.key == key,
    }
}

/// The plans shown once the first `n` rows were looked at.
pub open spec fn plans_shown(
    rows: Seq<PlanModel>,
    selected: Option<catalog_images::VariantKeyModel>,
    n: nat,
) -> Result<Seq<SavedPlanModel>, CatalogError>
    decreases n,
{
    if n == 0 {
        Ok(Seq::empty())
    } else {
        match plans_shown(rows, selected, (n - 1) as nat) {
            Err(e) => Err(e),
            Ok(before) => {
                let row = rows[n - 1];
                if !outside::canonical_uuid(row.operation) {
                    Err(CatalogError::OperationForm)
                } else if !plan_fits(row) {
                    Err(CatalogError::PlanBounds)
                } else if plan_selected(row, selected) {
                    Ok(before.push(saved_plan(row)))
                } else {
                    Ok(before)
                }
            },
        }
    }
}

/// Looking at rows for a page has not come to an end before `n`.
pub open spec fn scan_goes_on(
    rows: Seq<PlanModel>,
    selected: Option<catalog_images::VariantKeyModel>,
    limit: nat,
    n: nat,
) -> bool {
    forall|k: nat|
        k < n ==> (#[trigger] plans_shown(rows, selected, k) matches Ok(shown) && shown.len()
            < limit)
}

/// A page of plans, made of the rows that come next: looking at them ends with a
/// full page, after as many as were allowed, or with the last of them.
pub open spec fn is_plan_page(
    rows: Seq<PlanModel>,
    selected: Option<catalog_images::VariantKeyModel>,
    limit: nat,
    scan_limit: nat,
    r: Result<(Vec<SavedPlan>, Option<i64>, usize), CatalogError>,
) -> bool {
    match r {
        Ok((shown, next, scanned)) => {
            &&& scanned <= scan_limit && scanned <= rows.len()
            &&& scan_goes_on(rows, selected, limit, scanned as nat)
            &&& plans_shown(rows, selected, scanned as nat) == Ok::<
                Seq<SavedPlanModel>,
                CatalogError,
            >(support::models(shown@))
            &&& scanned == scan_limit || scanned == rows.len() || shown@.len() == limit
            &&& next == if scanned < rows.len() && scanned > 0 {
                Some(rows[scanned - 1].id)
            } else {
                None
            }
        },
        Err(e) => exists|k: nat|
            k < scan_limit && k < rows.len() && #[trigger] scan_goes_on(
                rows,
                selected,
                limit,
                k + 1,
            ) && plans_shown(rows, selected, k + 1) == Err::<Seq<SavedPlanModel>, CatalogError>(e),
    }
}

/// Where plans come on pages.
pub open spec fn plan_key() -> spec_fn(PlanModel) -> Option<(i64, i64)> {
    |r: PlanModel| Some((r.id, 0i64))
}

/// A page of plans that is not given out.
pub open spec fn plans_refused(after: i64, limit: usize, scan_limit: usize) -> bool {
    after < 0 || limit == 0 || limit > PLAN_PAGE_LIMIT || scan_limit < limit || scan_limit
        > PLAN_SCAN_LIMIT
}

/// The selected rows of a table.
pub open spec fn picked(rows: Seq<PlanModel>, picks: Seq<usize>) -> Seq<PlanModel> {
    picks.map_values(|p: usize| rows[p as int])
}

/// The variant in an option.
pub open spec fn key_of(key: Option<&VariantKey>) -> Option<catalog_images::VariantKeyModel> {
    match key {
        Some(k) => Some(k@),
        None => None,
    }
}

fn is_plan_selected(row: &PlanRow, selected: Option<&VariantKey>) -> (r: bool)
    ensures
        r == plan_selected(row@, key_of(selected)),
{
    match selected {
        None => true,
        Some(key) => match &row.image {
            Binding::Image(identity) => identity.key.same_as(key),
            Binding::Asset => false,
        },
    }
}

impl Catalog {
    /// The planned export of an operation, if there is one.
    pub fn metadata_export_plan(&self, operation: &str) -> (r: Result<
        Option<SavedPlan>,
        CatalogError,
    >)
        ensures
            match plan_row(self.writes@, operation@) {
                Ok(i) => r matches Ok(Some(p)) && p@ == saved_plan(self.writes@.plans[i]),
                Err(CatalogError::PlanMissing) => r == Ok::<Option<SavedPlan>, CatalogError>(None),
                Err(e) => r == Err::<Option<SavedPlan>, CatalogError>(e),
            },
    {
        let w = &self.writes;
        match export_plan_row(w, operation) {
            Ok(i) => {
                assert(w@.plans[i as int] == w.plans@[i as int]@);
                Ok(Some(show_plan(&w.plans[i])))
            },
            Err(CatalogError::PlanMissing) => Ok(None),
            Err(e) => Err(e),
        }
    }

    /// A page of planned exports, those of one variant or all of them. At most
    /// `scan_limit` plans are looked at; the page says how many were, and where to
    /// go on.
    pub fn metadata_export_plans(
        &self,
        owner: Option<&VariantKey>,
        after: i64,
        limit: usize,
        scan_limit: usize,
    ) -> (r: Result<(Vec<SavedPlan>, Option<i64>, usize), CatalogError>)
        ensures
            if plans_refused(after, limit, scan_limit) {
                r == Err::<(Vec<SavedPlan>, Option<i64>, usize), CatalogError>(
                    CatalogError::PageBounds,
                )
            } else {
                exists|picks: Seq<usize>|
                    {
                        &&& #[trigger] ordering::is_page::<(i64, i64)>(
                            self.writes@.plans.map_values(plan_key()),
                            Some((after, 0i64)),
                            Some((scan_limit + 1) as nat),
                            picks,
                        )
                        &&& is_plan_page(
                            picked(self.writes@.plans, picks),
                            key_of(owner),
                            limit as nat,
                            scan_limit as nat,
                            r,
                        )
                    }
            },
    {
        if after < 0 || limit == 0 || limit > PLAN_PAGE_LIMIT || scan_limit < limit || scan_limit
            > PLAN_SCAN_LIMIT {
            return Err(CatalogError::PageBounds);
        }
        let w = &self.writes;
        let key = |r: &PlanRow| -> (k: Option<(i64, i64)>)
            ensures ordering::key_of(k) == plan_key()(r@)
        {
            Some((r.id, 0))
        };
        let picks: Vec<usize> = page_rows(
            &w.plans,
            key,
            Ghost(plan_key()),
            &Some((after, 0)),
            Some(scan_limit + 1),
        );
        let ghost rows = picked(w@.plans, picks@);
        let ghost selected = key_of(owner);
        let mut shown: Vec<SavedPlan> = Vec::new();
        let mut scanned: usize = 0;
        assert(support::models(shown@) =~= Seq::<SavedPlanModel>::empty());
        while scanned < scan_limit && scanned < picks.len() && shown.len() < limit
            invariant
                0 < limit <= scan_limit <= PLAN_SCAN_LIMIT,
                scanned <= scan_limit,
                scanned <= picks@.len(),
                shown@.len() <= limit,
                rows == picked(w@.plans, picks@),
                selected == key_of(owner),
                w@ == self.writes@,
                !plans_refused(after, limit, scan_limit),
                ordering::is_page::<(i64, i64)>(
                    w@.plans.map_values(plan_key()),
                    Some((after, 0i64)),
                    Some((scan_limit + 1) as nat),
                    picks@,
                ),
                scan_goes_on(rows, selected, limit as nat, scanned as nat),
                plans_shown(rows, selected, scanned as nat) == Ok::<
                    Seq<SavedPlanModel>,
                    CatalogError,
                >(support::models(shown@)),
            decreases scan_limit - scanned,
        {
            let p: usize = picks[scanned];
            let row = &w.plans[p];
            let ghost before = support::models(shown@);
            proof {
                assert(w@.plans[p as int] == row@);
                assert(rows[scanned as int] == row@);
                assert forall|k: nat| k < scanned + 1 implies (
                #[trigger] plans_shown(rows, selected, k) matches Ok(so_far) && so_far.len()
                    < limit) by {
                    if k == scanned {
                        assert(support::models(shown@).len() == shown@.len());
                    }
                }
                assert(scan_goes_on(rows, selected, limit as nat, (scanned + 1) as nat));
            }
            match validate_operation(row.operation.as_str()) {
                Err(e) => {
                    proof {
                        assert(plans_shown(rows, selected, (scanned + 1) as nat) == Err::<
                            Seq<SavedPlanModel>,
                            CatalogError,
                        >(e));
                        assert(scan_goes_on(rows, selected, limit as nat, scanned as nat + 1));
                    }
                    return Err(e);
                },
                Ok(()) => {},
            }
            if !is_plan_fitting(row) {
                proof {
                    assert(plans_shown(rows, selected, (scanned + 1) as nat) == Err::<
                        Seq<SavedPlanModel>,
                        CatalogError,
                    >(CatalogError::PlanBounds));
                    assert(scan_goes_on(rows, selected, limit as nat, scanned as nat + 1));
                }
                return Err(CatalogError::PlanBounds);
            }
            if is_plan_selected(row, owner) {
                shown.push(show_plan(row));
                assert(support::models(shown@) =~= before.push(saved_plan(row@)));
            }
            scanned += 1;
        }
        let next: Option<i64> = if scanned < picks.len() && scanned > 0 {
            let last: usize = picks[scanned - 1];
            assert(rows[scanned - 1] == w.plans@[last as int]@);
            Some(w.plans[last].id)
        } else {
            None
        };
        Ok((shown, next, scanned))
    }
}

/// A number in decimal digits.
pub open spec fn decimal(n: nat) -> Seq<u8>
    decreases n,
{
    if n < 10 {
        seq![(48 + n) as u8]
    } else {
        decimal(n / 10).push((48 + n % 10) as u8)
    }
}

fn append_decimal(v: &mut Vec<u8>, n: u64)
    ensures
        final(v)@ == old(v)@ + decimal(n as nat),
    decreases n,
{
    if n < 10 {
        v.push(48 + n as u8);
        assert(v@ =~= old(v)@ + decimal(n as nat));
    } else {
        append_decimal(v, n / 10);
        v.push(48 + (n % 10) as u8);
        assert(v@ =~= old(v)@ + decimal(n as nat));
    }
}

/// The first `n` bytes of a byte string as numbers with commas between them.
pub open spec fn numbers(bytes: Seq<u8>, n: nat) -> Seq<u8>
    decreases n,
{
    if n == 0 {
        Seq::empty()
    } else if n == 1 {
        decimal(bytes[0] as nat)
    } else {
        numbers(bytes, (n - 1) as nat) + encode_utf8(","@) + decimal(bytes[n - 1] as nat)
    }
}

/// A packet in an evidence document.
pub open spec fn evidence_entry(row: tables::PacketModel, bytes: Seq<u8>) -> Seq<u8> {
    encode_utf8("{\"ordinal\":"@) + decimal(row.ordinal as nat) + encode_utf8(
        ",\"descriptor\":"@,
    ) + encode_utf8(row.descriptor) + encode_utf8(",\"bytes\":["@) + numbers(
        bytes,
        bytes.len(),
    ) + encode_utf8("],\"blake3\":\""@) + encode_utf8(row.blob_hash) + encode_utf8("\"}"@)
}

/// Why a stored packet is not put into an evidence document.
pub open spec fn evidence_refusal(row: tables::PacketModel) -> Option<CatalogError> {
    if row.ordinal < 0 || !outside::digest_text(row.blob_hash) || support::byte_length(
        row.descriptor,
    ) > DESCRIPTOR_BYTES || !outside::json_accepts(row.descriptor) {
        Some(CatalogError::PacketDamaged)
    } else {
        None
    }
}

/// An evidence document with its first `n` packets, before its closing bracket.
pub open spec fn evidence_body(
    m: TablesModel,
    rows: Seq<tables::PacketModel>,
    limit: nat,
    n: nat,
) -> Result<Seq<u8>, CatalogError>
    decreases n,
{
    if n == 0 {
        Ok(encode_utf8("["@))
    } else {
        match evidence_body(m, rows, limit, (n - 1) as nat) {
            Err(e) => Err(e),
            Ok(before) => match evidence_refusal(rows[n - 1]) {
                Some(e) => Err(e),
                None => match views::blob_bytes(m, rows[n - 1].blob_hash) {
                    Err(e) => Err(e),
                    Ok(bytes) => {
                        let comma = if n == 1 {
                            Seq::empty()
                        } else {
                            encode_utf8(","@)
                        };
                        let after = before + comma + evidence_entry(rows[n - 1], bytes);
                        if after.len() > limit {
                            Err(CatalogError::EvidenceBytes)
                        } else {
                            Ok(after)
                        }
                    },
                },
            },
        }
    }
}

/// The evidence document of an observation in an image's history, for as long as
/// the image's identity is the expected one.
pub open spec fn evidence_outcome(
    m: TablesModel,
    expected: catalog_images::IdentityModel,
    observation: i64,
    byte_limit: u64,
    packet_limit: usize,
) -> Result<Seq<u8>, CatalogError> {
    match m.identity_of(expected.image_id) {
        Err(e) => Err(e),
        Ok(found) => if found != expected {
            Err(CatalogError::IdentityChanged)
        } else if byte_limit == 0 || byte_limit > EVIDENCE_DOCUMENT_BYTES || packet_limit == 0
            || packet_limit > EVIDENCE_PACKETS {
            Err(CatalogError::EvidenceLimits)
        } else if m.image_observation_at(expected.image_id, observation) is None {
            Err(CatalogError::ObservationForeign)
        } else {
            let rows = views::packet_rows(m, observation);
            if rows.len() > packet_limit {
                Err(CatalogError::EvidencePackets)
            } else {
                match evidence_body(m, rows, byte_limit as nat, rows.len()) {
                    Err(e) => Err(e),
                    Ok(body) => if body.len() + 1 > byte_limit {
                        Err(CatalogError::EvidenceBytes)
                    } else {
                        Ok(body + encode_utf8("]"@))
                    },
                }
            }
        },
    }
}

fn append_numbers(v: &mut Vec<u8>, bytes: &Vec<u8>)
    ensures
        final(v)@ == old(v)@ + numbers(bytes@, bytes@.len()),
{
    let ghost start = v@;
    let mut i: usize = 0;
    assert(v@ =~= start + numbers(bytes@, 0));
    while i < bytes.len()
        invariant
            i <= bytes@.len(),
            v@ == start + numbers(bytes@, i as nat),
        decreases bytes@.len() - i,
    {
        if i > 0 {
            append_bytes(v, ",".as_bytes());
        }
        append_decimal(v, bytes[i] as u64);
        assert(v@ =~= start + numbers(bytes@, (i + 1) as nat));
        i += 1;
    }
}

fn append_entry(
    v: &mut Vec<u8>,
    ordinal: u64,
    descriptor: &str,
    bytes: &Vec<u8>,
    digest: &str,
    Ghost(row): Ghost<tables::PacketModel>,
)
    requires
        row.ordinal == ordinal,
        row.descriptor == descriptor@,
        row.blob_hash == digest@,
    ensures
        final(v)@ == old(v)@ + evidence_entry(row, bytes@),
{
    let mut entry: Vec<u8> = Vec::new();
    append_bytes(&mut entry, "{\"ordinal\":".as_bytes());
    assert(entry@ =~= encode_utf8("{\"ordinal\":"@));
    append_decimal(&mut entry, ordinal);
    append_bytes(&mut entry, ",\"descriptor\":".as_bytes());
    append_bytes(&mut entry, descriptor.as_bytes());
    append_bytes(&mut entry, ",\"bytes\":[".as_bytes());
    append_numbers(&mut entry, bytes);
    append_bytes(&mut entry, "],\"blake3\":\"".as_bytes());
    append_bytes(&mut entry, digest.as_bytes());
    append_bytes(&mut entry, "\"}".as_bytes());
    append_bytes(v, entry.as_slice());
}

proof fn lemma_evidence_error(
    m: TablesModel,
    rows: Seq<tables::PacketModel>,
    limit: nat,
    n: nat,
)
    requires
        n <= rows.len(),
        evidence_body(m, rows, limit, n) is Err,
    ensures
        evidence_body(m, rows, limit, rows.len()) == evidence_body(m, rows, limit, n),
    decreases rows.len() - n,
{
    if n < rows.len() {
        lemma_evidence_error(m, rows, limit, n + 1);
    }
}

fn make_evidence(db: &Tables, observation: i64, picks: &Vec<usize>, byte_limit: u64) -> (r: Result<
    Vec<u8>,
    CatalogError,
>)
    requires
        ordering::picked(db.packets@, picks@, views::packet_rows(db@, observation)),
    ensures
        ({
            let rows = views::packet_rows(db@, observation);
            match evidence_body(db@, rows, byte_limit as nat, rows.len()) {
                Ok(body) => r matches Ok(v) && v@ == body,
                Err(e) => r == Err::<Vec<u8>, CatalogError>(e),
            }
        }),
{
    let ghost rows = views::packet_rows(db@, observation);
    let ghost limit = byte_limit as nat;
    let mut v: Vec<u8> = Vec::new();
    append_bytes(&mut v, "[".as_bytes());
    assert(v@ =~= encode_utf8("["@));
    let mut n: usize = 0;
    while n < picks.len()
        invariant
            n <= picks@.len(),
            rows == views::packet_rows(db@, observation),
            limit == byte_limit,
            ordering::picked(db.packets@, picks@, rows),
            evidence_body(db@, rows, limit, n as nat) == Ok::<Seq<u8>, CatalogError>(v@),
        decreases picks@.len() - n,
    {
        let p: usize = picks[n];
        let row = &db.packets[p];
        let ghost before = v@;
        assert(rows[n as int] == row@);
        if row.ordinal < 0 || !is_digest(row.blob_hash.as_str()) || byte_len(
            row.descriptor.as_str(),
        ) > DESCRIPTOR_BYTES || !json_valid(row.descriptor.as_str()) {
            proof {
                lemma_evidence_error(db@, rows, limit, (n + 1) as nat);
            }
            return Err(CatalogError::PacketDamaged);
        }
        let bytes: Vec<u8> = match read_blob(db, row.blob_hash.as_str()) {
            Err(e) => {
                proof {
                    lemma_evidence_error(db@, rows, limit, (n + 1) as nat);
                }
                return Err(e);
            },
            Ok(bytes) => bytes,
        };
        if n > 0 {
            append_bytes(&mut v, ",".as_bytes());
        }
        append_entry(
            &mut v,
            row.ordinal as u64,
            row.descriptor.as_str(),
            &bytes,
            row.blob_hash.as_str(),
            Ghost(row@),
        );
        proof {
            let comma = if n == 0 {
                Seq::empty()
            } else {
                encode_utf8(","@)
            };
            assert(v@ =~= before + comma + evidence_entry(row@, bytes@));
        }
        if v.len() as u64 > byte_limit {
            proof {
                assert(evidence_body(db@, rows, limit, (n + 1) as nat) == Err::<
                    Seq<u8>,
                    CatalogError,
                >(CatalogError::EvidenceBytes));
                lemma_evidence_error(db@, rows, limit, (n + 1) as nat);
            }
            return Err(CatalogError::EvidenceBytes);
        }
        n += 1;
    }
    Ok(v)
}

impl Catalog {
    /// The evidence document of an observation in an image's history and its
    /// digest, for as long as the image's identity is the expected one.
    pub fn export_metadata_evidence(
        &self,
        expected: &ImageMetadataIdentity,
        observation: i64,
        byte_limit: u64,
        packet_limit: usize,
    ) -> (r: Result<(Vec<u8>, String), CatalogError>)
        ensures
            match evidence_outcome(
                self.tables@,
                expected@,
                observation,
                byte_limit,
                packet_limit,
            ) {
                Ok(document) => r matches Ok((v, digest)) && v@ == document && digest@
                    == outside::blake3_hex(document),
                Err(e) => r == Err::<(Vec<u8>, String), CatalogError>(e),
            },
    {
        let db = &self.tables;
        match require_image_metadata_identity(db, expected) {
            Err(e) => return Err(e),
            Ok(()) => {},
        }
        if byte_limit == 0 || byte_limit > EVIDENCE_DOCUMENT_BYTES || packet_limit == 0
            || packet_limit > EVIDENCE_PACKETS {
            return Err(CatalogError::EvidenceLimits);
        }
        if db.find_image_observation_at(expected.image_id.as_str(), observation).is_none() {
            return Err(CatalogError::ObservationForeign);
        }
        let picks: Vec<usize> = pick_packets(db, observation);
        if picks.len() > packet_limit {
            return Err(CatalogError::EvidencePackets);
        }
        let mut v: Vec<u8> = match make_evidence(db, observation, &picks, byte_limit) {
            Err(e) => return Err(e),
            Ok(v) => v,
        };
        if v.len() as u64 >= byte_limit {
            return Err(CatalogError::EvidenceBytes);
        }
        append_bytes(&mut v, "]".as_bytes());
        let digest: String = blake3_digest(v.as_slice());
        Ok((v, digest))
    }
}

} // verus!

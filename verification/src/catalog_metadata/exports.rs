//! Exports of settled metadata into sidecars: planned, carried out, recovered.
use crate::catalog::Catalog;
use crate::catalog_images::{recorded_revision, require_image_metadata_identity};
use crate::catalog_metadata::edit;
use crate::catalog_metadata::edit::FieldSource;
use crate::catalog_metadata::prepared;
use crate::catalog_metadata::prepared::{PreparedValue, Projected, FAST};
use crate::catalog_metadata::views;
use crate::catalog_metadata::views::{is_stored, read_blob, Field};
use crate::catalog_metadata_write;
use crate::catalog_metadata_write::{
    existing, export_plan_row, find_plan_owner, insert, Binding, PlanRow, Receipt, Writes,
};
use crate::copies::{copy_rows, Copied};
use crate::error::CatalogError;
use crate::outside;
use crate::outside::{blake3_digest, zlib_compress};
use crate::support;
use crate::support::{find, same, same_bytes};
use crate::tables;
use crate::tables::{BlobRow, Tables, TablesModel};
use vstd::prelude::*;
use vstd::string::*;

verus! {

/// What a packet to export is put together from: the base model's bytes, the bytes
/// that each field comes from, and the fields with their settled values.
pub struct ExportInput {
    pub base: Vec<u8>,
    pub sources: Vec<FieldSource>,
    pub fields: Vec<Field>,
}

/// Some field still has a conflict.
pub open spec fn conflicted(fields: Seq<Field>) -> bool {
    exists|i: int| 0 <= i < fields.len() && (#[trigger] fields[i])@.conflicted
}

/// What a packet to export is put together from, given all fields of the image.
pub open spec fn export_outcome(
    m: TablesModel,
    image: Seq<char>,
    revision: i64,
    base_model: i64,
    fields: Seq<Field>,
) -> Result<(Seq<u8>, Seq<edit::FieldSourceModel>), CatalogError> {
    match m.current_refusal(image) {
        Some(e) => Err(e),
        None => if m.revision_of(image) != revision {
            Err(CatalogError::RevisionChanged)
        } else if conflicted(fields) {
            Err(CatalogError::FieldConflicted)
        } else {
            match m.editable_bytes(image, base_model) {
                Err(e) => Err(e),
                Ok(base) => match edit::export_sources(m, image, fields, fields.len()) {
                    Err(e) => Err(e),
                    Ok(sources) => Ok((base, sources)),
                },
            }
        },
    }
}

pub open spec fn value_for(field: Seq<char>) -> spec_fn(prepared::PreparedValueModel) -> bool {
    |v: prepared::PreparedValueModel| v.field == field
}

/// A packet holds a settled field: with its value, or not at all where it was
/// removed.
pub open spec fn holds_field(
    packet: Seq<prepared::PreparedValueModel>,
    field: views::FieldModel,
) -> bool {
    match support::first_where(packet, value_for(field.name)) {
        None => field.value == Some(edit::removed_value()),
        Some(i) => field.value != Some(edit::removed_value()) && field.value == Some(
            packet[i].value,
        ),
    }
}

/// A packet holds all settled fields.
pub open spec fn holds_fields(
    packet: Seq<prepared::PreparedValueModel>,
    fields: Seq<Field>,
) -> bool {
    forall|i: int| 0 <= i < fields.len() ==> holds_field(packet, (#[trigger] fields[i])@)
}

fn is_conflicted(fields: &Vec<Field>) -> (r: bool)
    ensures
        r == conflicted(fields@),
{
    let mut i: usize = 0;
    while i < fields.len()
        invariant
            i <= fields@.len(),
            forall|j: int| 0 <= j < i ==> !(#[trigger] fields@[j])@.conflicted,
        decreases fields@.len() - i,
    {
        if fields[i].conflicted {
            assert(fields@[i as int]@.conflicted);
            return true;
        }
        i += 1;
    }
    false
}

fn has_field(packet: &Vec<PreparedValue>, field: &Field) -> (r: bool)
    ensures
        r == holds_field(support::models(packet@), field@),
{
    let removed: bool = match &field.value {
        Some(v) => same(v.as_str(), "null"),
        None => false,
    };
    let test = |v: &PreparedValue| -> (b: bool)
        ensures b == value_for(field.name@)(v@)
    {
        same(v.field.as_str(), field.name.as_str())
    };
    match find(packet, test, Ghost(value_for(field.name@))) {
        None => removed,
        Some(i) => {
            assert(support::models(packet@)[i as int] == packet@[i as int]@);
            !removed && match &field.value {
                Some(v) => same(v.as_str(), packet[i].value.as_str()),
                None => false,
            }
        },
    }
}

fn has_fields(packet: &Vec<PreparedValue>, fields: &Vec<Field>) -> (r: bool)
    ensures
        r == holds_fields(support::models(packet@), fields@),
{
    let mut i: usize = 0;
    while i < fields.len()
        invariant
            i <= fields@.len(),
            forall|j: int|
                0 <= j < i ==> holds_field(support::models(packet@), (#[trigger] fields@[j])@),
        decreases fields@.len() - i,
    {
        if !has_field(packet, &fields[i]) {
            assert(!holds_field(support::models(packet@), fields@[i as int]@));
            return false;
        }
        i += 1;
    }
    true
}

/// A planned export, as it is handed out for review.
pub struct MetadataExportPlan {
    pub asset_id: String,
    pub metadata_revision: i64,
    pub base_model: i64,
    /// The plan for the destination as a document.
    pub destination: String,
    pub projected: Projected,
}

/// The blobs with the bytes of a packet among them.
pub open spec fn payload_kept(blobs: Seq<tables::BlobModel>, payload: Seq<u8>) -> Result<
    Seq<tables::BlobModel>,
    CatalogError,
> {
    let hash = outside::blake3_hex(payload);
    if payload.len() > i64::MAX {
        Err(CatalogError::BlobBounds)
    } else {
        match outside::zlib_stream(FAST, payload) {
            None => Err(CatalogError::CompressionFailed),
            Some(compressed) => if support::first_where(blobs, prepared::prepared_blob(hash)) is Some {
                Ok(blobs)
            } else {
                Ok(
                    blobs.push(
                        tables::BlobModel {
                            hash,
                            raw_length: payload.len() as i64,
                            compressed,
                        },
                    ),
                )
            },
        }
    }
}

/// What a plan's row becomes.
pub open spec fn planned(
    w: catalog_metadata_write::WritesModel,
    operation: Seq<char>,
    image: Seq<char>,
    revision: i64,
    base_model: i64,
    plan: Seq<char>,
    payload: Seq<u8>,
) -> Result<catalog_metadata_write::WritesModel, CatalogError> {
    if w.plan_at(operation) is Some {
        Err(CatalogError::PlanExists)
    } else if w.plan_high == i64::MAX {
        Err(CatalogError::Exhausted)
    } else {
        let id = (w.plan_high + 1) as i64;
        Ok(
            catalog_metadata_write::WritesModel {
                plans: w.plans.push(
                    catalog_metadata_write::PlanModel {
                        id,
                        operation,
                        asset_id: image,
                        revision,
                        base_model,
                        plan,
                        payload_hash: outside::blake3_hex(payload),
                        receipt: None,
                        image: catalog_metadata_write::BindingModel::Asset,
                    },
                ),
                plan_high: id,
                ..w
            },
        )
    }
}

fn keep_payload(db: &mut Tables, payload: &[u8]) -> (r: Result<String, CatalogError>)
    ensures
        match payload_kept(old(db)@.blobs, payload@) {
            Err(e) => r == Err::<String, CatalogError>(e) && *final(db) == *old(db),
            Ok(blobs) => r matches Ok(hash) && hash@ == outside::blake3_hex(payload@) && final(
                db)@ == (TablesModel { blobs, ..old(db)@ }),
        },
{
    let hash: String = blake3_digest(payload);
    let length: u64 = payload.len() as u64;
    if length > i64::MAX as u64 {
        return Err(CatalogError::BlobBounds);
    }
    let stream: Vec<u8> = match zlib_compress(payload, FAST) {
        None => return Err(CatalogError::CompressionFailed),
        Some(stream) => stream,
    };
    let test = |b: &BlobRow| -> (r: bool)
        ensures r == prepared::prepared_blob(hash@)(b@)
    {
        same(b.hash.as_str(), hash.as_str())
    };
    if find(&db.blobs, test, Ghost(prepared::prepared_blob(hash@))).is_none() {
        db.blobs.push(
            BlobRow { hash: hash.clone(), raw_length: length as i64, compressed: stream },
        );
    }
    assert(db@ =~= TablesModel { blobs: payload_kept(old(db)@.blobs, payload@)->Ok_0, ..old(db)@ });
    Ok(hash)
}

fn add_plan(
    w: &mut Writes,
    operation: &str,
    image: &str,
    revision: i64,
    base_model: i64,
    plan: &str,
    payload_hash: String,
    Ghost(payload): Ghost<Seq<u8>>,
) -> (r: Result<(), CatalogError>)
    requires
        payload_hash@ == outside::blake3_hex(payload),
    ensures
        match planned(old(w)@, operation@, image@, revision, base_model, plan@, payload) {
            Err(e) => r == Err::<(), CatalogError>(e) && *final(w) == *old(w),
            Ok(after) => r is Ok && final(w)@ == after,
        },
{
    if w.find_plan_at(operation).is_some() {
        return Err(CatalogError::PlanExists);
    }
    if w.plan_high == i64::MAX {
        return Err(CatalogError::Exhausted);
    }
    w.plan_high = w.plan_high + 1;
    w.plans.push(
        PlanRow {
            id: w.plan_high,
            operation: operation.to_owned(),
            asset_id: image.to_owned(),
            revision,
            base_model,
            plan: plan.to_owned(),
            payload_hash,
            receipt: None,
            image: Binding::Asset,
        },
    );
    assert(w@ =~= planned(
        old(w)@,
        operation@,
        image@,
        revision,
        base_model,
        plan@,
        payload,
    )->Ok_0);
    Ok(())
}

/// Whether what a plan was made for is still as it was then.
pub open spec fn plan_current(m: TablesModel, row: catalog_metadata_write::PlanModel) -> Result<
    bool,
    CatalogError,
> {
    match row.image {
        catalog_metadata_write::BindingModel::Image(identity) => match m.identity_of(
            identity.image_id,
        ) {
            Err(e) => Err(e),
            Ok(found) => Ok(found == identity),
        },
        catalog_metadata_write::BindingModel::Asset => if !m.is_stored(row.asset_id) {
            Err(CatalogError::AssetNotFound)
        } else {
            Ok(m.revision_of(row.asset_id) == row.revision)
        },
    }
}

fn is_plan_current(db: &Tables, row: &PlanRow) -> (r: Result<bool, CatalogError>)
    ensures
        r == plan_current(db@, row@),
{
    match &row.image {
        Binding::Image(identity) => match require_image_metadata_identity(db, identity) {
            Ok(()) => Ok(true),
            Err(CatalogError::IdentityChanged) => Ok(false),
            Err(e) => Err(e),
        },
        Binding::Asset => {
            if !is_stored(db, row.asset_id.as_str()) {
                Err(CatalogError::AssetNotFound)
            } else {
                Ok(recorded_revision(db, row.asset_id.as_str()) == row.revision)
            }
        },
    }
}

/// The attempt that a request is carried out in, with the digest of the request.
pub struct Attempt {
    pub attempt: String,
    pub request_digest: String,
    /// The owner of the receipt as a document.
    pub owner_document: String,
}

/// Why an attempt cannot be made: it was carried out already, or belongs to
/// another request.
pub open spec fn attempt_refusal(
    w: catalog_metadata_write::WritesModel,
    attempt: Option<Attempt>,
) -> Option<CatalogError> {
    match attempt {
        None => None,
        Some(a) => match catalog_metadata_write::existing_outcome(
            w,
            a.attempt@,
            a.request_digest@,
        ) {
            Err(e) => Some(e),
            Ok(Some(_)) => Some(CatalogError::AttemptTaken),
            Ok(None) => None,
        },
    }
}

fn refuse_attempt(w: &Writes, attempt: &Option<Attempt>) -> (r: Option<CatalogError>)
    ensures
        r == attempt_refusal(w@, *attempt),
{
    match attempt {
        None => None,
        Some(a) => match existing(w, a.attempt.as_str(), a.request_digest.as_str()) {
            Err(e) => Some(e),
            Ok(Some(_)) => Some(CatalogError::AttemptTaken),
            Ok(None) => None,
        },
    }
}

/// What is to be published: the plan for the destination and the exact bytes.
pub struct ExportAction {
    pub plan: String,
    pub payload: Vec<u8>,
}

/// What carrying out a planned export publishes.
pub open spec fn action_outcome(
    m: TablesModel,
    w: catalog_metadata_write::WritesModel,
    operation: Seq<char>,
    attempt: Option<Attempt>,
) -> Result<(Seq<char>, Seq<u8>), CatalogError> {
    match attempt_refusal(w, attempt) {
        Some(e) => Err(e),
        None => match catalog_metadata_write::plan_row(w, operation) {
            Err(e) => Err(e),
            Ok(i) => match plan_current(m, w.plans[i]) {
                Err(e) => Err(e),
                Ok(false) => Err(CatalogError::RevisionChanged),
                Ok(true) => match views::blob_bytes(m, w.plans[i].payload_hash) {
                    Err(e) => Err(e),
                    Ok(payload) => Ok((w.plans[i].plan, payload)),
                },
            },
        },
    }
}

/// The result document of an export that was carried out.
pub open spec fn export_document(operation: Seq<char>, receipt: Seq<char>) -> Seq<char> {
    "{\"operation\":\""@ + operation + "\",\"receipt\":"@ + receipt + "}"@
}

/// The receipt of a request about a planned export.
pub open spec fn export_receipt(
    attempt: Attempt,
    kind: Seq<char>,
    row: catalog_metadata_write::PlanModel,
    receipt: Seq<char>,
) -> catalog_metadata_write::ReceiptModel {
    catalog_metadata_write::ReceiptModel {
        attempt: attempt.attempt@,
        request_digest: attempt.request_digest@,
        kind,
        owner: catalog_metadata_write::plan_owner(row),
        owner_document: attempt.owner_document@,
        result: export_document(row.operation, receipt),
    }
}

/// What the plans and receipts become once the destination's receipt is known.
pub open spec fn recorded(
    w: catalog_metadata_write::WritesModel,
    i: int,
    receipt: Seq<char>,
    attempt: Option<Attempt>,
    kind: Seq<char>,
) -> Result<catalog_metadata_write::WritesModel, CatalogError> {
    let after = catalog_metadata_write::WritesModel {
        plans: w.plans.update(
            i,
            catalog_metadata_write::PlanModel { receipt: Some(receipt), ..w.plans[i] },
        ),
        ..w
    };
    match attempt {
        None => Ok(after),
        Some(a) => edit::with_receipt(after, export_receipt(a, kind, w.plans[i], receipt)),
    }
}

fn make_export_document(operation: &str, receipt: &str) -> (s: String)
    ensures
        s@ == export_document(operation@, receipt@),
{
    let mut s: String = "{\"operation\":\"".to_owned();
    s.append(operation);
    s.append("\",\"receipt\":");
    s.append(receipt);
    s.append("}");
    assert(s@ =~= export_document(operation@, receipt@));
    s
}

impl Copied for Writes {
    fn copied(&self) -> (c: Self) {
        Writes {
            receipts: copy_rows(&self.receipts),
            plans: copy_rows(&self.plans),
            plan_high: self.plan_high,
        }
    }
}

fn record(
    w: &mut Writes,
    i: usize,
    receipt: &str,
    attempt: &Option<Attempt>,
    kind: &str,
) -> (r: Result<(), CatalogError>)
    requires
        i < old(w).plans@.len(),
    ensures
        match recorded(old(w)@, i as int, receipt@, *attempt, kind@) {
            Err(e) => r == Err::<(), CatalogError>(e) && *final(w) == *old(w),
            Ok(after) => r is Ok && final(w)@ == after,
        },
{
    let mut next: Writes = w.copied();
    let ghost row = w@.plans[i as int];
    assert(row == w.plans@[i as int]@);
    let ghost plans = next@.plans;
    assert(plans == w@.plans);
    assert(next.plans@.len() == plans.len());
    let mut changed: PlanRow = w.plans[i].copied();
    changed.receipt = Some(receipt.to_owned());
    next.plans.set(i, changed);
    assert(next@.plans =~= plans.update(i as int, changed@));
    if let Some(a) = attempt {
        let kept: Receipt = Receipt {
            attempt: a.attempt.clone(),
            request_digest: a.request_digest.clone(),
            kind: kind.to_owned(),
            owner: find_plan_owner(&w.plans[i]),
            owner_document: a.owner_document.clone(),
            result: make_export_document(w.plans[i].operation.as_str(), receipt),
        };
        assert(kept@ =~= export_receipt(*a, kind@, row, receipt@));
        match insert(&mut next, kept) {
            Err(e) => return Err(e),
            Ok(()) => {},
        }
    }
    *w = next;
    Ok(())
}

/// How a recovery directory's name begins.
pub open spec fn recovery_prefix() -> Seq<char> {
    ".photocatalog-xmp-export-"@
}

/// The operation that a recovery directory's name speaks of.
pub open spec fn recovery_operation_of(name: Seq<char>) -> Option<Seq<char>> {
    let prefix = recovery_prefix();
    if prefix.is_prefix_of(name) {
        Some(name.skip(prefix.len() as int))
    } else {
        None
    }
}

/// The operation that a recovery directory's name speaks of.
pub fn recovery_operation(name: &str) -> (r: Option<String>)
    ensures
        support::text_of(r) == recovery_operation_of(name@),
{
    let prefix: &str = ".photocatalog-xmp-export-";
    proof {
        reveal_strlit(".photocatalog-xmp-export-");
    }
    let length: usize = name.unicode_len();
    let ghost fixed = recovery_prefix();
    assert(fixed.len() == 25);
    if length < 25 || !same(name.substring_char(0, 25), prefix) {
        proof {
            if fixed.is_prefix_of(name@) {
                assert(name@.subrange(0, 25) =~= fixed);
            }
        }
        return None;
    }
    assert(fixed.is_prefix_of(name@));
    assert(name@.subrange(25, length as int) =~= name@.skip(25));
    Some(name.substring_char(25, length).to_owned())
}

/// What a recovery has to do: finish the planned export, or put back what was
/// there before it.
pub struct RecoveryAction {
    pub operation: String,
    pub plan: String,
    pub restore: bool,
}

/// What recovering a planned export has to do. A plan whose metadata has changed
/// since can only be taken back.
pub open spec fn recovery_outcome(
    m: TablesModel,
    w: catalog_metadata_write::WritesModel,
    name: Seq<char>,
    directory: Seq<u8>,
    planned_directory: Seq<u8>,
    restore_only: bool,
    attempt: Option<Attempt>,
) -> Result<(int, bool), CatalogError> {
    match recovery_operation_of(name) {
        None => Err(CatalogError::RecoveryForeign),
        Some(operation) => match attempt_refusal(w, attempt) {
            Some(e) => Err(e),
            None => match catalog_metadata_write::plan_row(w, operation) {
                Err(e) => Err(e),
                Ok(i) => if planned_directory != directory {
                    Err(CatalogError::RecoveryForeign)
                } else {
                    match plan_current(m, w.plans[i]) {
                        Err(e) => Err(e),
                        Ok(current) => Ok((i, restore_only || !current)),
                    }
                },
            },
        },
    }
}

/// The kind of receipt that a recovery leaves.
pub open spec fn recovery_kind(restore_only: bool) -> Seq<char> {
    if restore_only {
        "sidecar_restore"@
    } else {
        "sidecar_recover"@
    }
}

impl Catalog {
    /// What a packet to export is put together from, for as long as the image's
    /// revision is the expected one. All conflicts have to be settled.
    pub fn export_input(&self, image: &str, expected_revision: i64, base_model: i64) -> (r: Result<
        ExportInput,
        CatalogError,
    >)
        ensures
            exists|fields: Seq<Field>|
                #[trigger] views::shows_fields(self.tables@, image@, fields) && match export_outcome(
                    self.tables@,
                    image@,
                    expected_revision,
                    base_model,
                    fields,
                ) {
                    Err(e) => r == Err::<ExportInput, CatalogError>(e),
                    Ok((base, sources)) => r matches Ok(input) && input.base@ == base
                        && support::models(input.sources@) == sources && input.fields@ == fields,
                },
    {
        let view = match self.metadata(image) {
            Err(e) => {
                let ghost none: Seq<Field> = Seq::empty();
                assert(views::shows_fields(self.tables@, image@, none));
                return Err(e);
            },
            Ok(view) => view,
        };
        let ghost fields = view.fields@;
        assert(views::shows_fields(self.tables@, image@, fields));
        if view.revision != expected_revision {
            return Err(CatalogError::RevisionChanged);
        }
        if is_conflicted(&view.fields) {
            return Err(CatalogError::FieldConflicted);
        }
        let base: Vec<u8> = match self.editable_metadata_model(image, base_model) {
            Err(e) => return Err(e),
            Ok(base) => base,
        };
        match self.list_export_sources(image, &view.fields) {
            Err(e) => Err(e),
            Ok(sources) => Ok(ExportInput { base, sources, fields: view.fields }),
        }
    }

    /// Whether a packet is what the image's settled metadata gives: it has to hold
    /// every field as it was settled, and the image's revision has to be the
    /// expected one.
    pub fn resolved_export_xmp(
        &self,
        image: &str,
        expected_revision: i64,
        base_model: i64,
        projected: &Vec<PreparedValue>,
    ) -> (r: Result<(), CatalogError>)
        ensures
            exists|fields: Seq<Field>|
                #[trigger] views::shows_fields(self.tables@, image@, fields) && r == export_check(
                    self.tables@,
                    image@,
                    expected_revision,
                    base_model,
                    fields,
                    support::models(projected@),
                ),
    {
        match self.export_input(image, expected_revision, base_model) {
            Err(e) => Err(e),
            Ok(input) => {
                if has_fields(projected, &input.fields) {
                    Ok(())
                } else {
                    Err(CatalogError::ExportMismatch)
                }
            },
        }
    }

    /// Plans the export of an image's settled metadata: keeps the exact bytes and
    /// the plan for the destination, which is not touched.
    pub fn plan_metadata_export(
        &mut self,
        image: &str,
        expected_revision: i64,
        base_model: i64,
        operation: &str,
        plan: &str,
        payload: &[u8],
        projected: Projected,
    ) -> (r: Result<MetadataExportPlan, CatalogError>)
        ensures
            final(self).writes_only(*old(self)),
            r is Err ==> *final(self) == *old(self),
            exists|fields: Seq<Field>|
                #[trigger] views::shows_fields(old(self).tables@, image@, fields) && match export_check(
                    old(self).tables@,
                    image@,
                    expected_revision,
                    base_model,
                    fields,
                    support::models(projected.fields@),
                ) {
                    Err(e) => r == Err::<MetadataExportPlan, CatalogError>(e),
                    Ok(()) => match payload_kept(old(self).tables@.blobs, payload@) {
                        Err(e) => r == Err::<MetadataExportPlan, CatalogError>(e),
                        Ok(blobs) => match planned(
                            old(self).writes@,
                            operation@,
                            image@,
                            expected_revision,
                            base_model,
                            plan@,
                            payload@,
                        ) {
                            Err(e) => r == Err::<MetadataExportPlan, CatalogError>(e),
                            Ok(w) => r matches Ok(p) && p.asset_id@ == image@
                                && p.metadata_revision == expected_revision && p.base_model
                                == base_model && p.destination@ == plan@ && p.projected
                                == projected && final(self).writes@ == w && final(self).tables@
                                == (TablesModel { blobs, ..old(self).tables@ }),
                        },
                    },
                },
    {
        match self.resolved_export_xmp(image, expected_revision, base_model, &projected.fields) {
            Err(e) => return Err(e),
            Ok(()) => {},
        }
        let mut tables: Tables = self.tables.copied();
        let hash: String = match keep_payload(&mut tables, payload) {
            Err(e) => return Err(e),
            Ok(hash) => hash,
        };
        match add_plan(
            &mut self.writes,
            operation,
            image,
            expected_revision,
            base_model,
            plan,
            hash,
            Ghost(payload@),
        ) {
            Err(e) => return Err(e),
            Ok(()) => {},
        }
        self.tables = tables;
        Ok(
            MetadataExportPlan {
                asset_id: image.to_owned(),
                metadata_revision: expected_revision,
                base_model,
                destination: plan.to_owned(),
                projected,
            },
        )
    }

    /// What carrying out a planned export publishes: exactly the planned bytes,
    /// for as long as the metadata is as it was when the plan was made.
    pub fn metadata_export_action(&self, operation: &str, attempt: &Option<Attempt>) -> (r: Result<
        ExportAction,
        CatalogError,
    >)
        ensures
            match action_outcome(self.tables@, self.writes@, operation@, *attempt) {
                Err(e) => r == Err::<ExportAction, CatalogError>(e),
                Ok((plan, payload)) => r matches Ok(action) && action.plan@ == plan
                    && action.payload@ == payload,
            },
    {
        let w = &self.writes;
        match refuse_attempt(w, attempt) {
            Some(e) => return Err(e),
            None => {},
        }
        let i: usize = match export_plan_row(w, operation) {
            Err(e) => return Err(e),
            Ok(i) => i,
        };
        let row = &w.plans[i];
        assert(w@.plans[i as int] == row@);
        match is_plan_current(&self.tables, row) {
            Err(e) => return Err(e),
            Ok(false) => return Err(CatalogError::RevisionChanged),
            Ok(true) => {},
        }
        match read_blob(&self.tables, row.payload_hash.as_str()) {
            Err(e) => Err(e),
            Ok(payload) => Ok(ExportAction { plan: row.plan.clone(), payload }),
        }
    }

    fn apply_controlled(
        &mut self,
        operation: &str,
        receipt: &str,
        attempt: &Option<Attempt>,
        kind: &str,
    ) -> (r: Result<(), CatalogError>)
        ensures
            applied(*old(self), *final(self), operation@, receipt@, *attempt, kind@, r),
    {
        match self.metadata_export_action(operation, attempt) {
            Err(e) => return Err(e),
            Ok(_) => {},
        }
        match export_plan_row(&self.writes, operation) {
            Err(e) => Err(e),
            Ok(i) => record(&mut self.writes, i, receipt, attempt, kind),
        }
    }

    /// Keeps the destination's receipt of a planned export that was carried out.
    pub fn apply_metadata_export(&mut self, operation: &str, receipt: &str) -> (r: Result<
        (),
        CatalogError,
    >)
        ensures
            applied(*old(self), *final(self), operation@, receipt@, None, "sidecar_apply"@, r),
    {
        self.apply_controlled(operation, receipt, &None, "sidecar_apply")
    }

    /// Keeps the destination's receipt of a planned export that was carried out,
    /// together with the receipt of the attempt.
    pub fn apply_metadata_export_with_receipt(
        &mut self,
        operation: &str,
        receipt: &str,
        attempt: Attempt,
        kind: &str,
    ) -> (r: Result<(), CatalogError>)
        ensures
            applied(*old(self), *final(self), operation@, receipt@, Some(attempt), kind@, r),
    {
        self.apply_controlled(operation, receipt, &Some(attempt), kind)
    }

    fn find_recovery(
        &self,
        name: &str,
        directory: &[u8],
        planned_directory: &[u8],
        restore_only: bool,
        attempt: &Option<Attempt>,
    ) -> (r: Result<(usize, bool), CatalogError>)
        ensures
            match recovery_outcome(
                self.tables@,
                self.writes@,
                name@,
                directory@,
                planned_directory@,
                restore_only,
                *attempt,
            ) {
                Err(e) => r == Err::<(usize, bool), CatalogError>(e),
                Ok((i, restore)) => r matches Ok((k, back)) && k == i && back == restore && k
                    < self.writes.plans@.len(),
            },
    {
        let operation: String = match recovery_operation(name) {
            None => return Err(CatalogError::RecoveryForeign),
            Some(operation) => operation,
        };
        let w = &self.writes;
        match refuse_attempt(w, attempt) {
            Some(e) => return Err(e),
            None => {},
        }
        let i: usize = match export_plan_row(w, operation.as_str()) {
            Err(e) => return Err(e),
            Ok(i) => i,
        };
        if !same_bytes(planned_directory, directory) {
            return Err(CatalogError::RecoveryForeign);
        }
        assert(w@.plans[i as int] == w.plans@[i as int]@);
        match is_plan_current(&self.tables, &w.plans[i]) {
            Err(e) => Err(e),
            Ok(current) => Ok((i, restore_only || !current)),
        }
    }

    /// What recovering a planned export has to do, given the recovery directory and
    /// the one that the plan names.
    pub fn metadata_recovery_action(
        &self,
        name: &str,
        directory: &[u8],
        planned_directory: &[u8],
        restore_only: bool,
        attempt: &Option<Attempt>,
    ) -> (r: Result<RecoveryAction, CatalogError>)
        ensures
            match recovery_outcome(
                self.tables@,
                self.writes@,
                name@,
                directory@,
                planned_directory@,
                restore_only,
                *attempt,
            ) {
                Err(e) => r == Err::<RecoveryAction, CatalogError>(e),
                Ok((i, restore)) => r matches Ok(action) && action.restore == restore
                    && action.operation@ == self.writes@.plans[i].operation && action.plan@
                    == self.writes@.plans[i].plan,
            },
    {
        match self.find_recovery(name, directory, planned_directory, restore_only, attempt) {
            Err(e) => Err(e),
            Ok((i, restore)) => {
                let row = &self.writes.plans[i];
                assert(self.writes@.plans[i as int] == row@);
                Ok(
                    RecoveryAction {
                        operation: row.operation.clone(),
                        plan: row.plan.clone(),
                        restore,
                    },
                )
            },
        }
    }

    fn recover_controlled(
        &mut self,
        name: &str,
        directory: &[u8],
        planned_directory: &[u8],
        restore_only: bool,
        receipt: &str,
        attempt: &Option<Attempt>,
    ) -> (r: Result<(), CatalogError>)
        ensures
            recovered(
                *old(self),
                *final(self),
                name@,
                directory@,
                planned_directory@,
                restore_only,
                receipt@,
                *attempt,
                r,
            ),
    {
        match self.find_recovery(name, directory, planned_directory, restore_only, attempt) {
            Err(e) => Err(e),
            Ok((i, _)) => {
                let kind: &str = if restore_only {
                    "sidecar_restore"
                } else {
                    "sidecar_recover"
                };
                record(&mut self.writes, i, receipt, attempt, kind)
            },
        }
    }

    /// Keeps the destination's receipt of a recovered export.
    pub fn recover_metadata_export(
        &mut self,
        name: &str,
        directory: &[u8],
        planned_directory: &[u8],
        receipt: &str,
    ) -> (r: Result<(), CatalogError>)
        ensures
            recovered(
                *old(self),
                *final(self),
                name@,
                directory@,
                planned_directory@,
                false,
                receipt@,
                None,
                r,
            ),
    {
        self.recover_controlled(name, directory, planned_directory, false, receipt, &None)
    }

    /// Keeps the destination's receipt of a recovered export, together with the
    /// receipt of the attempt.
    pub fn recover_metadata_export_with_receipt(
        &mut self,
        name: &str,
        directory: &[u8],
        planned_directory: &[u8],
        restore_only: bool,
        receipt: &str,
        attempt: Attempt,
    ) -> (r: Result<(), CatalogError>)
        ensures
            recovered(
                *old(self),
                *final(self),
                name@,
                directory@,
                planned_directory@,
                restore_only,
                receipt@,
                Some(attempt),
                r,
            ),
    {
        self.recover_controlled(
            name,
            directory,
            planned_directory,
            restore_only,
            receipt,
            &Some(attempt),
        )
    }
}

/// Whether a packet is what the settled metadata gives.
pub open spec fn export_check(
    m: TablesModel,
    image: Seq<char>,
    revision: i64,
    base_model: i64,
    fields: Seq<Field>,
    projected: Seq<prepared::PreparedValueModel>,
) -> Result<(), CatalogError> {
    match export_outcome(m, image, revision, base_model, fields) {
        Err(e) => Err(e),
        Ok(_) => if holds_fields(projected, fields) {
            Ok(())
        } else {
            Err(CatalogError::ExportMismatch)
        },
    }
}

/// What a catalog becomes once a planned export was carried out.
pub open spec fn applied(
    before: Catalog,
    after: Catalog,
    operation: Seq<char>,
    receipt: Seq<char>,
    attempt: Option<Attempt>,
    kind: Seq<char>,
    r: Result<(), CatalogError>,
) -> bool {
    &&& after.writes_only(before)
    &&& after.tables == before.tables
    &&& match action_outcome(before.tables@, before.writes@, operation, attempt) {
        Err(e) => r == Err::<(), CatalogError>(e) && after == before,
        Ok(_) => match recorded(
            before.writes@,
            before.writes@.plan_at(operation)->0,
            receipt,
            attempt,
            kind,
        ) {
            Err(e) => r == Err::<(), CatalogError>(e) && after == before,
            Ok(w) => r is Ok && after.writes@ == w,
        },
    }
}

/// What a catalog becomes once a planned export was recovered.
pub open spec fn recovered(
    before: Catalog,
    after: Catalog,
    name: Seq<char>,
    directory: Seq<u8>,
    planned_directory: Seq<u8>,
    restore_only: bool,
    receipt: Seq<char>,
    attempt: Option<Attempt>,
    r: Result<(), CatalogError>,
) -> bool {
    &&& after.writes_only(before)
    &&& after.tables == before.tables
    &&& match recovery_outcome(
        before.tables@,
        before.writes@,
        name,
        directory,
        planned_directory,
        restore_only,
        attempt,
    ) {
        Err(e) => r == Err::<(), CatalogError>(e) && after == before,
        Ok((i, _)) => match recorded(
            before.writes@,
            i,
            receipt,
            attempt,
            recovery_kind(restore_only),
        ) {
            Err(e) => r == Err::<(), CatalogError>(e) && after == before,
            Ok(w) => r is Ok && after.writes@ == w,
        },
    }
}

} // verus!

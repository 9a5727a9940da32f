//! Source images become images of the catalog: files and their variants stay
//! apart, and nothing is decided twice.
use crate::catalog::Catalog;
use crate::catalog_images;
use crate::catalog_images::register;
use crate::catalog_images::register::{register_import_image, ImportImageRequest};
use crate::catalog_images::{Image, ImageRole, VariantKey};
use crate::catalog_migration::proofs;
use crate::catalog_migration::proofs::{
    find_columns, get_column, prove_link, prove_table, Link, SourceKey, SourceRecord,
};
use crate::catalog_migration::retained;
use crate::catalog_migration::retained::{zero, MigrationError, Retained, RetainedModel};
use crate::copies::Copied;
use crate::outside;
use crate::outside::{blake3_digest, json_string};
use crate::support;
use crate::support::{byte_len, contains_nul, find, is_blank, same};
use crate::tables::{Tables, TablesModel};
use vstd::prelude::*;
use vstd::string::*;
use vstd::utf8::*;

verus! {

/// The most bytes of an importer's name.
pub const OWNER_LIMIT: usize = 4096;

/// The most bytes of a reason.
pub const REASON_LIMIT: usize = 16384;

/// The most bytes of a label.
pub const LABEL_LIMIT: usize = 4096;

/// The most bytes of a request's document.
pub const REQUEST_LIMIT: usize = 65536;

/// What a source image is in its catalog.
#[derive(Clone, Debug)]
pub enum Role {
    /// The row names no master image.
    Master,
    Virtual { master: Link },
}

/// What is to become of a source image.
#[derive(Clone, Debug)]
pub enum Decision {
    Register { file: Link, role: Role, label: String },
    /// A source whose file or parent is unresolved is retained without inventing
    /// either.
    Retain { reason: String },
}

/// A request to project a source image.
#[derive(Clone, Debug)]
pub struct Projection {
    pub origin: SourceRecord,
    pub retained_table: i64,
    pub import_source: String,
    pub decision: Decision,
}

/// What became of a source image.
#[derive(Clone, Debug)]
pub enum Outcome {
    Image { id: String, key: VariantKey },
    Retained { reason: String },
}

/// What an `Outcome` stands for.
#[verifier::ext_equal]
pub enum OutcomeModel {
    Image { id: Seq<char>, key: catalog_images::VariantKeyModel },
    Retained { reason: Seq<char> },
}

impl View for Outcome {
    type V = OutcomeModel;

    open spec fn view(&self) -> OutcomeModel {
        match *self {
            Outcome::Image { id, key } => OutcomeModel::Image { id: id@, key: key@ },
            Outcome::Retained { reason } => OutcomeModel::Retained { reason: reason@ },
        }
    }
}

impl Copied for Outcome {
    fn copied(&self) -> (c: Self) {
        match self {
            Outcome::Image { id, key } => Outcome::Image { id: id.clone(), key: key.copy() },
            Outcome::Retained { reason } => Outcome::Retained { reason: reason.clone() },
        }
    }
}

/// What projecting a source image gave.
#[derive(Clone, Debug)]
pub struct ProjectionResult {
    pub source_identity: String,
    pub input_digest: String,
    pub outcome: Outcome,
}

/// What a `ProjectionResult` stands for.
#[verifier::ext_equal]
pub struct ResultModel {
    pub source_identity: Seq<char>,
    pub input_digest: Seq<char>,
    pub outcome: OutcomeModel,
}

impl View for ProjectionResult {
    type V = ResultModel;

    open spec fn view(&self) -> ResultModel {
        ResultModel {
            source_identity: self.source_identity@,
            input_digest: self.input_digest@,
            outcome: self.outcome@,
        }
    }
}

impl Copied for ProjectionResult {
    fn copied(&self) -> (c: Self) {
        ProjectionResult {
            source_identity: self.source_identity.clone(),
            input_digest: self.input_digest.clone(),
            outcome: self.outcome.copied(),
        }
    }
}

/// A source image that was decided upon.
pub struct ProjectionRow {
    pub source_identity: String,
    pub owner: String,
    pub input_digest: String,
    pub retained_record: i64,
    pub retained_table: i64,
    pub result: ProjectionResult,
}

/// What a `ProjectionRow` stands for.
#[verifier::ext_equal]
pub struct ProjectionRowModel {
    pub source_identity: Seq<char>,
    pub owner: Seq<char>,
    pub input_digest: Seq<char>,
    pub retained_record: i64,
    pub retained_table: i64,
    pub result: ResultModel,
}

impl View for ProjectionRow {
    type V = ProjectionRowModel;

    open spec fn view(&self) -> ProjectionRowModel {
        ProjectionRowModel {
            source_identity: self.source_identity@,
            owner: self.owner@,
            input_digest: self.input_digest@,
            retained_record: self.retained_record,
            retained_table: self.retained_table,
            result: self.result@,
        }
    }
}

impl Copied for ProjectionRow {
    fn copied(&self) -> (c: Self) {
        ProjectionRow {
            source_identity: self.source_identity.clone(),
            owner: self.owner.clone(),
            input_digest: self.input_digest.clone(),
            retained_record: self.retained_record,
            retained_table: self.retained_table,
            result: self.result.copied(),
        }
    }
}

/// An original that a source file was registered as.
pub struct OriginalRow {
    pub source_identity: String,
    pub asset_id: String,
    pub import_source: String,
    pub decision: String,
}

/// What a `OriginalRow` stands for.
#[verifier::ext_equal]
pub struct OriginalModel {
    pub source_identity: Seq<char>,
    pub asset_id: Seq<char>,
    pub import_source: Seq<char>,
    pub decision: Seq<char>,
}

impl View for OriginalRow {
    type V = OriginalModel;

    open spec fn view(&self) -> OriginalModel {
        OriginalModel {
            source_identity: self.source_identity@,
            asset_id: self.asset_id@,
            import_source: self.import_source@,
            decision: self.decision@,
        }
    }
}

impl Copied for OriginalRow {
    fn copied(&self) -> (c: Self) {
        OriginalRow {
            source_identity: self.source_identity.clone(),
            asset_id: self.asset_id.clone(),
            import_source: self.import_source.clone(),
            decision: self.decision.clone(),
        }
    }
}

/// The originals and images that source rows became.
pub struct Projections {
    pub originals: Vec<OriginalRow>,
    pub rows: Vec<ProjectionRow>,
}

/// What `Projections` stand for.
#[verifier::ext_equal]
pub struct ProjectionsModel {
    pub originals: Seq<OriginalModel>,
    pub rows: Seq<ProjectionRowModel>,
}

impl View for Projections {
    type V = ProjectionsModel;

    open spec fn view(&self) -> ProjectionsModel {
        ProjectionsModel {
            originals: support::models(self.originals@),
            rows: support::models(self.rows@),
        }
    }
}

pub open spec fn original_of(identity: Seq<char>) -> spec_fn(OriginalModel) -> bool {
    |r: OriginalModel| r.source_identity == identity
}

pub open spec fn projection_of(identity: Seq<char>) -> spec_fn(ProjectionRowModel) -> bool {
    |r: ProjectionRowModel| r.source_identity == identity
}

impl ProjectionsModel {
    /// The original of a source file.
    pub open spec fn original_at(self, identity: Seq<char>) -> Option<int> {
        support::first_where(self.originals, original_of(identity))
    }

    /// The decision on a source image.
    pub open spec fn projection_at(self, identity: Seq<char>) -> Option<int> {
        support::first_where(self.rows, projection_of(identity))
    }
}

impl Projections {
    pub(crate) fn find_original_at(&self, identity: &str) -> (r: Option<usize>)
        ensures
            match r {
                Some(i) => i < self.originals@.len() && self@.original_at(identity@) == Some(i as int)
                    && original_of(identity@)(self.originals@[i as int]@),
                None => self@.original_at(identity@) is None,
            },
    {
        let test = |r: &OriginalRow| -> (b: bool)
            ensures b == original_of(identity@)(r@)
        {
            same(r.source_identity.as_str(), identity)
        };
        find(&self.originals, test, Ghost(original_of(identity@)))
    }

    pub(crate) fn find_projection_at(&self, identity: &str) -> (r: Option<usize>)
        ensures
            match r {
                Some(i) => i < self.rows@.len() && self@.projection_at(identity@) == Some(i as int)
                    && projection_of(identity@)(self.rows@[i as int]@),
                None => self@.projection_at(identity@) is None,
            },
    {
        let test = |r: &ProjectionRow| -> (b: bool)
            ensures b == projection_of(identity@)(r@)
        {
            same(r.source_identity.as_str(), identity)
        };
        find(&self.rows, test, Ghost(projection_of(identity@)))
    }

    /// Nothing was decided yet.
    pub fn new() -> (p: Self)
        ensures
            p@ == (ProjectionsModel { originals: Seq::empty(), rows: Seq::empty() }),
    {
        let p: Projections = Projections { originals: Vec::new(), rows: Vec::new() };
        assert(p@ =~= (ProjectionsModel { originals: Seq::empty(), rows: Seq::empty() }));
        p
    }
}

/// An importer's name is in bounds.
pub open spec fn owner_bounded(owner: Seq<char>) -> bool {
    0 < support::byte_length(owner) <= OWNER_LIMIT && !support::has_nul(owner)
}

pub(crate) fn is_owner_bounded(owner: &str) -> (r: bool)
    ensures
        r == owner_bounded(owner@),
{
    byte_len(owner) > 0 && byte_len(owner) <= OWNER_LIMIT && !contains_nul(owner)
}

/// A reason is given and in bounds.
pub open spec fn reason_bounded(reason: Seq<char>) -> bool {
    !support::blank(reason) && support::byte_length(reason) <= REASON_LIMIT
}

pub(crate) fn is_reason_bounded(reason: &str) -> (r: bool)
    ensures
        r == reason_bounded(reason@),
{
    !is_blank(reason) && byte_len(reason) <= REASON_LIMIT
}

/// A source key as a document.
pub open spec fn source_document(s: proofs::SourceKeyModel) -> Option<Seq<char>> {
    match (outside::json_text(s.capture_revision), outside::json_text(s.table)) {
        (Some(revision), Some(table)) => Some(
            "{\"capture_revision\":"@ + revision + ",\"key\":"@ + s.key + ",\"table\":"@ + table + "}"@,
        ),
        _ => None,
    }
}

pub(crate) fn make_source_document(s: &SourceKey) -> (d: Option<String>)
    ensures
        support::text_of(d) == source_document(s@),
{
    match (json_string(s.capture_revision.as_str()), json_string(s.table.as_str())) {
        (Some(revision), Some(table)) => {
            let mut d: String = "{\"capture_revision\":".to_owned();
            d.append(revision.as_str());
            d.append(",\"key\":");
            d.append(s.key.as_str());
            d.append(",\"table\":");
            d.append(table.as_str());
            d.append("}");
            assert(d@ =~= source_document(s@)->0);
            Some(d)
        },
        _ => None,
    }
}

/// A role as a document.
pub open spec fn role_document(role: Role) -> Option<Seq<char>> {
    match role {
        Role::Master => Some("{\"master\":true}"@),
        Role::Virtual { master } => match source_document(master@.target.source) {
            Some(source) => Some("{\"virtual\":"@ + source + "}"@),
            None => None,
        },
    }
}

fn make_role_document(role: &Role) -> (d: Option<String>)
    ensures
        support::text_of(d) == role_document(*role),
{
    match role {
        Role::Master => Some("{\"master\":true}".to_owned()),
        Role::Virtual { master } => match make_source_document(&master.target.source) {
            None => None,
            Some(source) => {
                let mut d: String = "{\"virtual\":".to_owned();
                d.append(source.as_str());
                d.append("}");
                assert(d@ =~= role_document(*role)->0);
                Some(d)
            },
        },
    }
}

/// A decision as a document. Record numbers are no part of it: they can change
/// from one inspection of a source to the next.
pub open spec fn decision_document(decision: Decision) -> Option<Seq<char>> {
    match decision {
        Decision::Retain { reason } => match outside::json_text(reason@) {
            Some(text) => Some("{\"retain\":"@ + text + "}"@),
            None => None,
        },
        Decision::Register { file, role, label } => match (
            source_document(file@.target.source),
            outside::json_text(label@),
            role_document(role),
        ) {
            (Some(source), Some(text), Some(of)) => Some(
                "{\"file\":"@ + source + ",\"label\":"@ + text + ",\"role\":"@ + of + "}"@,
            ),
            _ => None,
        },
    }
}

fn make_decision_document(decision: &Decision) -> (d: Option<String>)
    ensures
        support::text_of(d) == decision_document(*decision),
{
    match decision {
        Decision::Retain { reason } => match json_string(reason.as_str()) {
            None => None,
            Some(text) => {
                let mut d: String = "{\"retain\":".to_owned();
                d.append(text.as_str());
                d.append("}");
                assert(d@ =~= decision_document(*decision)->0);
                Some(d)
            },
        },
        Decision::Register { file, role, label } => match (
            make_source_document(&file.target.source),
            json_string(label.as_str()),
            make_role_document(role),
        ) {
            (Some(source), Some(text), Some(of)) => {
                let mut d: String = "{\"file\":".to_owned();
                d.append(source.as_str());
                d.append(",\"label\":");
                d.append(text.as_str());
                d.append(",\"role\":");
                d.append(of.as_str());
                d.append("}");
                assert(d@ =~= decision_document(*decision)->0);
                Some(d)
            },
            _ => None,
        },
    }
}

/// The document that a request is recognized by.
pub open spec fn request_document(request: Projection) -> Option<Seq<char>> {
    match (
        decision_document(request.decision),
        outside::json_text(request.import_source@),
        source_document(request.origin@.source),
    ) {
        (Some(decision), Some(owner), Some(source)) => Some(
            "{\"adapter\":\"lightroom-selected-images-v1\",\"decision\":"@ + decision
                + ",\"owner\":"@ + owner + ",\"source\":"@ + source + "}"@,
        ),
        _ => None,
    }
}

/// The digest that a request is recognized by.
pub open spec fn request_digest(request: Projection) -> Result<Seq<char>, MigrationError> {
    let bounds = match request.decision {
        Decision::Retain { reason } => if reason_bounded(reason@) {
            None
        } else {
            Some(MigrationError::ReasonBounds)
        },
        Decision::Register { label, .. } => if 0 < support::byte_length(label@) <= LABEL_LIMIT {
            None
        } else {
            Some(MigrationError::LabelBounds)
        },
    };
    match bounds {
        Some(e) => Err(e),
        None => match request_document(request) {
            None => Err(MigrationError::RequestBounds),
            Some(document) => if encode_utf8(document).len() > REQUEST_LIMIT {
                Err(MigrationError::RequestBounds)
            } else {
                Ok(outside::blake3_hex(encode_utf8(document)))
            },
        },
    }
}

fn make_digest(request: &Projection) -> (r: Result<String, MigrationError>)
    ensures
        match request_digest(*request) {
            Ok(digest) => r matches Ok(s) && s@ == digest,
            Err(e) => r == Err::<String, MigrationError>(e),
        },
{
    match &request.decision {
        Decision::Retain { reason } => {
            if !is_reason_bounded(reason.as_str()) {
                return Err(MigrationError::ReasonBounds);
            }
        },
        Decision::Register { label, .. } => {
            if byte_len(label.as_str()) == 0 || byte_len(label.as_str()) > LABEL_LIMIT {
                return Err(MigrationError::LabelBounds);
            }
        },
    }
    match (
        make_decision_document(&request.decision),
        json_string(request.import_source.as_str()),
        make_source_document(&request.origin.source),
    ) {
        (Some(decision), Some(owner), Some(source)) => {
            let mut d: String =
                "{\"adapter\":\"lightroom-selected-images-v1\",\"decision\":".to_owned();
            d.append(decision.as_str());
            d.append(",\"owner\":");
            d.append(owner.as_str());
            d.append(",\"source\":");
            d.append(source.as_str());
            d.append("}");
            assert(d@ =~= request_document(*request)->0);
            let bytes = d.as_str().as_bytes();
            if bytes.len() > REQUEST_LIMIT {
                Err(MigrationError::RequestBounds)
            } else {
                Ok(blake3_digest(bytes))
            }
        },
        _ => Err(MigrationError::RequestBounds),
    }
}

/// What was decided on a source image before: a decision is never changed.
pub open spec fn existing_outcome(
    p: ProjectionsModel,
    identity: Seq<char>,
    owner: Seq<char>,
    digest: Seq<char>,
) -> Result<Option<ResultModel>, MigrationError> {
    match p.projection_at(identity) {
        None => Ok(None),
        Some(i) => if p.rows[i].owner != owner || p.rows[i].input_digest != digest {
            Err(MigrationError::DecisionChanged)
        } else {
            Ok(Some(p.rows[i].result))
        },
    }
}

fn existing(p: &Projections, identity: &str, owner: &str, digest: &str) -> (r: Result<
    Option<ProjectionResult>,
    MigrationError,
>)
    ensures
        match existing_outcome(p@, identity@, owner@, digest@) {
            Err(e) => r == Err::<Option<ProjectionResult>, MigrationError>(e),
            Ok(None) => r == Ok::<Option<ProjectionResult>, MigrationError>(None),
            Ok(Some(result)) => r matches Ok(Some(found)) && found@ == result,
        },
{
    match p.find_projection_at(identity) {
        None => Ok(None),
        Some(i) => {
            let row = &p.rows[i];
            assert(p@.rows[i as int] == row@);
            if !same(row.owner.as_str(), owner) || !same(row.input_digest.as_str(), digest) {
                Err(MigrationError::DecisionChanged)
            } else {
                Ok(Some(row.result.copied()))
            }
        },
    }
}

/// The image that an importer's source row became.
pub open spec fn mapped_image_of(
    m: TablesModel,
    owner: Seq<char>,
    source: proofs::SourceKeyModel,
) -> Option<catalog_images::VariantKeyModel> {
    match m.mapping_at(owner, source.capture_revision, source.table, source.identity) {
        None => None,
        Some(k) => match m.image_at(m.import_map[k].image_id) {
            None => None,
            Some(i) => Some(
                catalog_images::VariantKeyModel {
                    asset_id: m.images[i].asset_id,
                    variant_id: m.images[i].variant_id,
                },
            ),
        },
    }
}

/// The image that an importer's source row became.
pub fn mapped_image(db: &Tables, owner: &str, source: &SourceKey) -> (r: Option<VariantKey>)
    ensures
        match r {
            Some(key) => mapped_image_of(db@, owner@, source@) == Some(key@),
            None => mapped_image_of(db@, owner@, source@) is None,
        },
{
    let k: usize = match db.find_mapping_at(
        owner,
        source.capture_revision.as_str(),
        source.table.as_str(),
        source.identity.as_str(),
    ) {
        None => return None,
        Some(k) => k,
    };
    assert(db@.import_map[k as int] == db.import_map@[k as int]@);
    match db.find_image_at(db.import_map[k].image_id.as_str()) {
        None => None,
        Some(i) => {
            assert(db@.images[i as int] == db.images@[i as int]@);
            Some(
                VariantKey {
                    asset_id: db.images[i].asset_id.clone(),
                    variant_id: db.images[i].variant_id.clone(),
                },
            )
        },
    }
}

/// Whether an importer's source row became an image: the whole key decides.
pub fn has_mapped_image(db: &Tables, owner: &str, source: &SourceKey) -> (r: bool)
    ensures
        r == (db@.mapping_at(
            owner@,
            source@.capture_revision,
            source@.table,
            source@.identity,
        ) is Some),
{
    db.find_mapping_at(
        owner,
        source.capture_revision.as_str(),
        source.table.as_str(),
        source.identity.as_str(),
    ).is_some()
}

/// What registering a source image comes down to: the physical file, the role, the
/// parent and the label.
pub struct Resolved {
    pub asset: String,
    pub role: ImageRole,
    pub parent: Option<VariantKey>,
    pub label: String,
}

/// What a `Resolved` stands for.
#[verifier::ext_equal]
pub struct ResolvedModel {
    pub asset: Seq<char>,
    pub role: ImageRole,
    pub parent: Option<catalog_images::VariantKeyModel>,
    pub label: Seq<char>,
}

/// What an optional key stands for.
pub open spec fn key_of(key: Option<VariantKey>) -> Option<catalog_images::VariantKeyModel> {
    match key {
        Some(k) => Some(k@),
        None => None,
    }
}

impl View for Resolved {
    type V = ResolvedModel;

    open spec fn view(&self) -> ResolvedModel {
        ResolvedModel {
            asset: self.asset@,
            role: self.role,
            parent: key_of(self.parent),
            label: self.label@,
        }
    }
}

/// What registering a source image comes down to. Its file has to be registered by
/// the same importer; a master has to name no master, and a virtual image has to
/// name one that became an image.
pub open spec fn resolve_outcome(
    m: TablesModel,
    r: RetainedModel,
    p: ProjectionsModel,
    request: Projection,
    file: Link,
    role: Role,
    label: Seq<char>,
    sealed: bool,
) -> Result<ResolvedModel, MigrationError> {
    let origin = request.origin@;
    match proofs::columns(r, origin, request.retained_table) {
        Err(e) => Err(e),
        Ok((names, values)) => if file.field@ != "rootFile"@ || file@.target.source.table
            != "AgLibraryFile"@ {
            Err(MigrationError::LinkDiffers)
        } else if !sealed {
            Err(MigrationError::SealNeeded)
        } else {
            match proofs::link_proof(r, origin, file@) {
                Err(e) => Err(e),
                Ok(()) => match p.original_at(file@.target.source.identity) {
                    None => Err(MigrationError::OriginalMissing),
                    Some(o) => if p.originals[o].import_source != request.import_source@ {
                        Err(MigrationError::OriginalForeign)
                    } else {
                        let asset = p.originals[o].asset_id;
                        let master = proofs::column(names, values, "masterImage"@);
                        match role {
                            Role::Master => if master matches Some(c) && c.is_zero() {
                                Ok(
                                    ResolvedModel {
                                        asset,
                                        role: ImageRole::Master,
                                        parent: None,
                                        label,
                                    },
                                )
                            } else {
                                Err(MigrationError::RoleUnproven)
                            },
                            Role::Virtual { master: link } => if link.field@ != "masterImage"@
                                || link@.target.source.table != "Adobe_images"@ {
                                Err(MigrationError::LinkDiffers)
                            } else if !(master matches Some(c) && !c.is_zero()) {
                                Err(MigrationError::RoleUnproven)
                            } else {
                                match proofs::link_proof(r, origin, link@) {
                                    Err(e) => Err(e),
                                    Ok(()) => match mapped_image_of(
                                        m,
                                        request.import_source@,
                                        link@.target.source,
                                    ) {
                                        None => Err(MigrationError::ParentMissing),
                                        Some(key) => Ok(
                                            ResolvedModel {
                                                asset,
                                                role: ImageRole::Virtual,
                                                parent: Some(key),
                                                label,
                                            },
                                        ),
                                    },
                                }
                            },
                        }
                    },
                },
            }
        },
    }
}

fn resolve(
    db: &Tables,
    r: &Retained,
    p: &Projections,
    request: &Projection,
    file: &Link,
    role: &Role,
    label: &str,
    sealed: bool,
) -> (out: Result<Resolved, MigrationError>)
    ensures
        match resolve_outcome(db@, r@, p@, *request, *file, *role, label@, sealed) {
            Ok(resolved) => out matches Ok(found) && found@ == resolved,
            Err(e) => out == Err::<Resolved, MigrationError>(e),
        },
{
    let (row, t): (usize, usize) = match find_columns(r, &request.origin, request.retained_table) {
        Err(e) => return Err(e),
        Ok(found) => found,
    };
    if !same(file.field.as_str(), "rootFile") || !same(
        file.target.source.table.as_str(),
        "AgLibraryFile",
    ) {
        return Err(MigrationError::LinkDiffers);
    }
    if !sealed {
        return Err(MigrationError::SealNeeded);
    }
    match prove_link(r, &request.origin, file) {
        Err(e) => return Err(e),
        Ok(()) => {},
    }
    let o: usize = match p.find_original_at(file.target.source.identity.as_str()) {
        None => return Err(MigrationError::OriginalMissing),
        Some(o) => o,
    };
    assert(p@.originals[o as int] == p.originals@[o as int]@);
    if !same(p.originals[o].import_source.as_str(), request.import_source.as_str()) {
        return Err(MigrationError::OriginalForeign);
    }
    let asset: String = p.originals[o].asset_id.clone();
    let master: Option<bool> = match get_column(r, row, t, "masterImage") {
        Some(c) => Some(zero(c)),
        None => None,
    };
    match role {
        Role::Master => match master {
            Some(true) => Ok(
                Resolved { asset, role: ImageRole::Master, parent: None, label: label.to_owned() },
            ),
            _ => Err(MigrationError::RoleUnproven),
        },
        Role::Virtual { master: link } => {
            if !same(link.field.as_str(), "masterImage") || !same(
                link.target.source.table.as_str(),
                "Adobe_images",
            ) {
                return Err(MigrationError::LinkDiffers);
            }
            match master {
                Some(false) => {},
                _ => return Err(MigrationError::RoleUnproven),
            }
            match prove_link(r, &request.origin, link) {
                Err(e) => return Err(e),
                Ok(()) => {},
            }
            match mapped_image(db, request.import_source.as_str(), &link.target.source) {
                None => Err(MigrationError::ParentMissing),
                Some(key) => Ok(
                    Resolved {
                        asset,
                        role: ImageRole::Virtual,
                        parent: Some(key),
                        label: label.to_owned(),
                    },
                ),
            }
        },
    }
}

/// The image request that a resolved source image makes.
pub open spec fn is_image_request(
    m: TablesModel,
    request: Projection,
    digest: Seq<char>,
    resolved: ResolvedModel,
    made: ImportImageRequest,
) -> bool {
    &&& made.import_source@ == request.import_source@
    &&& made.capture_revision@ == request.origin@.source.capture_revision
    &&& made.source_table@ == request.origin@.source.table
    &&& made.source_id@ == request.origin@.source.identity
    &&& made.input_digest@ == digest
    &&& made.adapter_version@ == "lightroom-selected-images-v1"@
    &&& made.asset_id@ == resolved.asset
    &&& made.claim_reserved_master == (resolved.role == ImageRole::Master && m.reserved_for(
        resolved.asset,
        request.import_source@,
    ))
    &&& made.role == resolved.role
    &&& key_of(made.master) == resolved.parent
    &&& made.label@ == resolved.label
}

impl TablesModel {
    /// A physical file is reserved for an importer.
    pub open spec fn reserved_for(self, asset: Seq<char>, owner: Seq<char>) -> bool {
        self.reservation_at(asset) matches Some(i) && self.reservations[i].owner == owner
    }
}

fn is_reserved_for(db: &Tables, asset: &str, owner: &str) -> (r: bool)
    ensures
        r == db@.reserved_for(asset@, owner@),
{
    match db.find_reservation_at(asset) {
        None => false,
        Some(i) => {
            assert(db@.reservations[i as int] == db.reservations@[i as int]@);
            same(db.reservations[i].owner.as_str(), owner)
        },
    }
}

/// The row that a decision leaves.
pub open spec fn decided(request: Projection, digest: Seq<char>, outcome: OutcomeModel) -> ProjectionRowModel {
    ProjectionRowModel {
        source_identity: request.origin@.source.identity,
        owner: request.import_source@,
        input_digest: digest,
        retained_record: request.origin@.retained_record,
        retained_table: request.retained_table,
        result: ResultModel {
            source_identity: request.origin@.source.identity,
            input_digest: digest,
            outcome,
        },
    }
}

/// Whether a request can be looked at: its bounds, its digest, and what retained
/// records prove of its row. Gives the digest.
pub open spec fn request_outcome(r: RetainedModel, request: Projection) -> Result<
    Seq<char>,
    MigrationError,
> {
    if !owner_bounded(request.import_source@) {
        Err(MigrationError::OwnerBounds)
    } else if request.origin@.source.table != "Adobe_images"@ {
        Err(MigrationError::SourceTable)
    } else {
        match request_digest(request) {
            Err(e) => Err(e),
            Ok(digest) => match proofs::table_proof(r, request.origin@, request.retained_table) {
                Err(e) => Err(e),
                Ok(_) => Ok(digest),
            },
        }
    }
}

/// What projecting a source image for the first time gives, where it is registered
/// with freshly drawn identities.
pub open spec fn registered(
    m: TablesModel,
    p: ProjectionsModel,
    request: Projection,
    digest: Seq<char>,
    made: ImportImageRequest,
    fresh_image: Seq<char>,
    fresh_variant: Seq<char>,
) -> Result<(TablesModel, ProjectionsModel, ResultModel), MigrationError> {
    match register::register_outcome(m, made, fresh_image, fresh_variant) {
        Err(e) => Err(MigrationError::Catalog(e)),
        Ok((after, image)) => {
            let row = decided(
                request,
                digest,
                OutcomeModel::Image { id: image.id, key: image.key },
            );
            Ok((after, ProjectionsModel { rows: p.rows.push(row), ..p }, row.result))
        },
    }
}

/// What projecting a source image does to a catalog.
pub open spec fn image_projected(
    before: Catalog,
    after: Catalog,
    request: Projection,
    sealed: bool,
    out: Result<ProjectionResult, MigrationError>,
) -> bool {
    let m = before.tables@;
    let r = before.migration.retained@;
    let p = before.migration.images@;
    match request_outcome(r, request) {
        Err(e) => out == Err::<ProjectionResult, MigrationError>(e) && after == before,
        Ok(digest) => match existing_outcome(
            p,
            request.origin@.source.identity,
            request.import_source@,
            digest,
        ) {
            Err(e) => out == Err::<ProjectionResult, MigrationError>(e) && after == before,
            Ok(Some(result)) => (out matches Ok(found) && found@ == result) && after == before,
            Ok(None) => match request.decision {
                Decision::Retain { reason } => {
                    let row = decided(request, digest, OutcomeModel::Retained { reason: reason@ });
                    &&& out matches Ok(found) && found@ == row.result
                    &&& after.tables@ == m
                    &&& after.migration.images@ == (ProjectionsModel { rows: p.rows.push(row), ..p })
                },
                Decision::Register { file, role, label } => match resolve_outcome(
                    m,
                    r,
                    p,
                    request,
                    file,
                    role,
                    label@,
                    sealed,
                ) {
                    Err(e) => out == Err::<ProjectionResult, MigrationError>(e) && after == before,
                    Ok(resolved) => exists|
                        made: ImportImageRequest,
                        fresh_image: Seq<char>,
                        fresh_variant: Seq<char>,
                    |
                        is_image_request(m, request, digest, resolved, made)
                            && outside::canonical_uuid(fresh_image) && outside::canonical_uuid(
                            fresh_variant,
                        ) && match #[trigger] registered(
                            m,
                            p,
                            request,
                            digest,
                            made,
                            fresh_image,
                            fresh_variant,
                        ) {
                            Err(e) => out == Err::<ProjectionResult, MigrationError>(e) && after
                                == before,
                            Ok((tables, images, result)) => (out matches Ok(found) && found@
                                == result) && after.tables@ == tables && after.migration.images@
                                == images,
                        },
                },
            },
        },
    }
}

fn make_request(db: &Tables, request: &Projection, digest: &str, resolved: Resolved) -> (made:
    ImportImageRequest)
    ensures
        is_image_request(db@, *request, digest@, resolved@, made),
{
    let reserved: bool = is_reserved_for(
        db,
        resolved.asset.as_str(),
        request.import_source.as_str(),
    );
    ImportImageRequest {
        import_source: request.import_source.clone(),
        capture_revision: request.origin.source.capture_revision.clone(),
        source_table: request.origin.source.table.clone(),
        source_id: request.origin.source.identity.clone(),
        input_digest: digest.to_owned(),
        adapter_version: "lightroom-selected-images-v1".to_owned(),
        asset_id: resolved.asset,
        claim_reserved_master: resolved.role == ImageRole::Master && reserved,
        role: resolved.role,
        master: resolved.parent,
        label: resolved.label,
    }
}

fn add_row(p: &mut Projections, request: &Projection, digest: String, outcome: Outcome) -> (result:
    ProjectionResult)
    ensures
        result@ == decided(*request, digest@, outcome@).result,
        final(p)@ == (ProjectionsModel {
            rows: old(p)@.rows.push(decided(*request, digest@, outcome@)),
            ..old(p)@
        }),
{
    let result: ProjectionResult = ProjectionResult {
        source_identity: request.origin.source.identity.clone(),
        input_digest: digest.clone(),
        outcome,
    };
    let row: ProjectionRow = ProjectionRow {
        source_identity: request.origin.source.identity.clone(),
        owner: request.import_source.clone(),
        input_digest: digest,
        retained_record: request.origin.retained_record,
        retained_table: request.retained_table,
        result: result.copied(),
    };
    p.rows.push(row);
    assert(p@ =~= ProjectionsModel {
        rows: old(p)@.rows.push(decided(*request, digest@, outcome@)),
        ..old(p)@
    });
    result
}

impl Catalog {
    /// Projects a source image: registers it with its file, its role and its label,
    /// or retains it with a reason. A row that was decided upon is found again with
    /// its result.
    pub fn project_migration_image(&mut self, sealed: bool, request: &Projection) -> (out: Result<
        ProjectionResult,
        MigrationError,
    >)
        ensures
            final(self).images_only(*old(self)),
            image_projected(*old(self), *final(self), *request, sealed, out),
    {
        if !is_owner_bounded(request.import_source.as_str()) {
            return Err(MigrationError::OwnerBounds);
        }
        if !same(request.origin.source.table.as_str(), "Adobe_images") {
            return Err(MigrationError::SourceTable);
        }
        let digest: String = match make_digest(request) {
            Err(e) => return Err(e),
            Ok(digest) => digest,
        };
        match prove_table(&self.migration.retained, &request.origin, request.retained_table) {
            Err(e) => return Err(e),
            Ok(_) => {},
        }
        match existing(
            &self.migration.images,
            request.origin.source.identity.as_str(),
            request.import_source.as_str(),
            digest.as_str(),
        ) {
            Err(e) => return Err(e),
            Ok(Some(result)) => return Ok(result),
            Ok(None) => {},
        }
        match &request.decision {
            Decision::Retain { reason } => Ok(
                add_row(
                    &mut self.migration.images,
                    request,
                    digest,
                    Outcome::Retained { reason: reason.clone() },
                ),
            ),
            Decision::Register { file, role, label } => {
                let resolved: Resolved = match resolve(
                    &self.tables,
                    &self.migration.retained,
                    &self.migration.images,
                    request,
                    file,
                    role,
                    label.as_str(),
                    sealed,
                ) {
                    Err(e) => return Err(e),
                    Ok(resolved) => resolved,
                };
                let made: ImportImageRequest = make_request(
                    &self.tables,
                    request,
                    digest.as_str(),
                    resolved,
                );
                let mut tables: Tables = self.tables.copied();
                let ghost m = self.tables@;
                let ghost p = self.migration.images@;
                let registering = register_import_image(&mut tables, &made);
                let ghost drawn: (Seq<char>, Seq<char>) = choose|
                    fresh_image: Seq<char>,
                    fresh_variant: Seq<char>,
                |
                    outside::canonical_uuid(fresh_image) && outside::canonical_uuid(fresh_variant)
                        && match #[trigger] register::register_outcome(
                        m,
                        made,
                        fresh_image,
                        fresh_variant,
                    ) {
                        Ok((after, image)) => registering matches Ok(found) && found@ == image
                            && tables@ == after,
                        Err(e) => registering == Err::<Image, crate::error::CatalogError>(e),
                    };
                let ghost shown = registered(m, p, *request, digest@, made, drawn.0, drawn.1);
                match registering {
                    Err(e) => {
                        assert(shown == Err::<
                            (TablesModel, ProjectionsModel, ResultModel),
                            MigrationError,
                        >(MigrationError::Catalog(e)));
                        Err(MigrationError::Catalog(e))
                    },
                    Ok(image) => {
                        let outcome: Outcome = Outcome::Image { id: image.id, key: image.key };
                        self.tables = tables;
                        let result: ProjectionResult = add_row(
                            &mut self.migration.images,
                            request,
                            digest,
                            outcome,
                        );
                        assert(shown == Ok::<
                            (TablesModel, ProjectionsModel, ResultModel),
                            MigrationError,
                        >((self.tables@, self.migration.images@, result@)));
                        Ok(result)
                    },
                }
            },
        }
    }
}

/// Once a source image was decided upon, asking the same again gives the same
/// result, and asking anything else of it is refused.
pub proof fn law_image_decisions_stand(
    p: ProjectionsModel,
    request: Projection,
    digest: Seq<char>,
    outcome: OutcomeModel,
    owner: Seq<char>,
    other: Seq<char>,
)
    requires
        p.projection_at(request.origin@.source.identity) is None,
    ensures
        ({
            let identity = request.origin@.source.identity;
            let row = decided(request, digest, outcome);
            let after = ProjectionsModel { rows: p.rows.push(row), ..p };
            &&& existing_outcome(after, identity, request.import_source@, digest) == Ok::<
                Option<ResultModel>,
                MigrationError,
            >(Some(row.result))
            &&& owner != request.import_source@ || other != digest ==> existing_outcome(
                after,
                identity,
                owner,
                other,
            ) == Err::<Option<ResultModel>, MigrationError>(MigrationError::DecisionChanged)
        }),
{
    let row = decided(request, digest, outcome);
    support::lemma_pushed(
        p.rows,
        p.rows.push(row),
        projection_of(request.origin@.source.identity),
    );
}

} // verus!

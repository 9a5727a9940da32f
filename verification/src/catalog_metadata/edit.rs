//! Editing an image's metadata: what an edit starts from, its preparation, and
//! its publication in one piece.
use crate::catalog::Catalog;
use crate::catalog_images;
use crate::catalog_images::{
    id, identity, recorded_revision, require_image_metadata_identity, ImageMetadataIdentity,
    VariantKey,
};
use crate::catalog_metadata;
use crate::catalog_metadata::documents;
use crate::catalog_metadata::documents::{
    describe_projection, input_text_of, packet_text_of, provenance_text_of,
};
use crate::catalog_metadata::identity::revision_with_provenance;
use crate::catalog_metadata::prepared;
use crate::catalog_metadata::prepared::{Prepared, PreparedValue, Projected, Source};
use crate::catalog_metadata::store;
use crate::catalog_metadata::store::{list_models, store, Change};
use crate::catalog_metadata::views;
use crate::catalog_metadata::views::{choose_model, resolve, Field};
use crate::catalog_metadata::{advance, rebuild};
use crate::catalog_metadata_write;
use crate::catalog_metadata_write::{existing, insert, Owner, Receipt};
use crate::copies::{copy_rows, Copied};
use crate::error::CatalogError;
use crate::ordering;
use crate::ordering::is_text_before;
use crate::outside;
use crate::outside::{blake3_digest, json_string};
use crate::support;
use crate::support::{copy_bytes, find, same, same_bytes, same_option};
use crate::tables;
use crate::tables::{Detail, Tables, TablesModel, ValueRow};
use vstd::prelude::*;
use vstd::string::*;
use vstd::utf8::*;

verus! {

/// The document that a removed property has in place of a value.
pub open spec fn removed_value() -> Seq<char> {
    "null"@
}

/// The identity of the meaning of a removed property.
pub open spec fn removed_meaning() -> Seq<char> {
    outside::blake3_hex(encode_utf8("catalog-explicit-removal-v1"@))
}

/// The fields that organize images without touching their pixels.
pub open spec fn organization_field(name: Seq<char>) -> bool {
    name == "rating"@ || name == "label"@ || name == "keywords"@ || name
        == "hierarchical_keywords"@
}

fn is_organization_field(name: &str) -> (r: bool)
    ensures
        r == organization_field(name@),
{
    same(name, "rating") || same(name, "label") || same(name, "keywords") || same(
        name,
        "hierarchical_keywords",
    )
}

/// The texts of strings.
pub open spec fn texts(s: Seq<String>) -> Seq<Seq<char>> {
    s.map_values(|t: String| t@)
}

fn has_text(s: &Vec<String>, name: &str) -> (r: bool)
    ensures
        r == texts(s@).contains(name@),
{
    let mut i: usize = 0;
    while i < s.len()
        invariant
            i <= s@.len(),
            forall|j: int| 0 <= j < i ==> #[trigger] texts(s@)[j] != name@,
        decreases s@.len() - i,
    {
        assert(texts(s@)[i as int] == s@[i as int]@);
        if same(s[i].as_str(), name) {
            return true;
        }
        i += 1;
    }
    false
}

/// A field to be carried over, with the bytes it comes from; none where the field
/// was removed.
pub struct FieldSource {
    pub name: String,
    pub bytes: Option<Vec<u8>>,
}

/// What a `FieldSource` stands for.
#[verifier::ext_equal]
pub struct FieldSourceModel {
    pub name: Seq<char>,
    pub bytes: Option<Seq<u8>>,
}

impl View for FieldSource {
    type V = FieldSourceModel;

    open spec fn view(&self) -> FieldSourceModel {
        FieldSourceModel { name: self.name@, bytes: store::document_of(self.bytes) }
    }
}

/// Where a field's value comes from.
pub open spec fn field_source(m: TablesModel, image: Seq<char>, f: views::FieldModel) -> Result<
    FieldSourceModel,
    CatalogError,
> {
    if f.value == Some(removed_value()) {
        Ok(FieldSourceModel { name: f.name, bytes: None })
    } else {
        match f.selected_model {
            None => Err(CatalogError::FieldUnselected),
            Some(model) => match m.editable_bytes(image, model) {
                Err(e) => Err(e),
                Ok(bytes) => Ok(FieldSourceModel { name: f.name, bytes: Some(bytes) }),
            },
        }
    }
}

/// Where the values of the first `n` fields come from, as far as they are among
/// `names`. Conflicts have to be settled beforehand.
pub open spec fn organization_sources(
    m: TablesModel,
    image: Seq<char>,
    fields: Seq<Field>,
    names: Seq<Seq<char>>,
    n: nat,
) -> Result<Seq<FieldSourceModel>, CatalogError>
    decreases n,
{
    if n == 0 {
        Ok(Seq::empty())
    } else {
        match organization_sources(m, image, fields, names, (n - 1) as nat) {
            Err(e) => Err(e),
            Ok(before) => {
                let f = fields[n - 1]@;
                if !names.contains(f.name) {
                    Ok(before)
                } else if f.conflicted {
                    Err(CatalogError::FieldConflicted)
                } else {
                    match field_source(m, image, f) {
                        Err(e) => Err(e),
                        Ok(source) => Ok(before.push(source)),
                    }
                }
            },
        }
    }
}

/// Where the values of the first `n` fields come from, all of which have to have
/// one.
pub open spec fn export_sources(m: TablesModel, image: Seq<char>, fields: Seq<Field>, n: nat) -> Result<
    Seq<FieldSourceModel>,
    CatalogError,
>
    decreases n,
{
    if n == 0 {
        Ok(Seq::empty())
    } else {
        match export_sources(m, image, fields, (n - 1) as nat) {
            Err(e) => Err(e),
            Ok(before) => if fields[n - 1]@.value is None {
                Err(CatalogError::FieldUnselected)
            } else {
                match field_source(m, image, fields[n - 1]@) {
                    Err(e) => Err(e),
                    Ok(source) => Ok(before.push(source)),
                }
            },
        }
    }
}

proof fn lemma_organization_error(
    m: TablesModel,
    image: Seq<char>,
    fields: Seq<Field>,
    names: Seq<Seq<char>>,
    n: nat,
)
    requires
        n <= fields.len(),
        organization_sources(m, image, fields, names, n) is Err,
    ensures
        organization_sources(m, image, fields, names, fields.len()) == organization_sources(
            m,
            image,
            fields,
            names,
            n,
        ),
    decreases fields.len() - n,
{
    if n < fields.len() {
        lemma_organization_error(m, image, fields, names, n + 1);
    }
}

proof fn lemma_export_error(m: TablesModel, image: Seq<char>, fields: Seq<Field>, n: nat)
    requires
        n <= fields.len(),
        export_sources(m, image, fields, n) is Err,
    ensures
        export_sources(m, image, fields, fields.len()) == export_sources(m, image, fields, n),
    decreases fields.len() - n,
{
    if n < fields.len() {
        lemma_export_error(m, image, fields, n + 1);
    }
}

/// What an edit starts from: the base model's bytes, or none for an empty packet,
/// and the fields to be carried over into it.
pub struct EditInput {
    pub base: Option<Vec<u8>>,
    pub fields: Vec<FieldSource>,
}

/// What an edit starts from, given all fields of the image.
pub open spec fn edit_input(
    m: TablesModel,
    image: Seq<char>,
    base: Option<i64>,
    names: Seq<Seq<char>>,
    fields: Seq<Field>,
) -> Result<(Option<Seq<u8>>, Seq<FieldSourceModel>), CatalogError> {
    let bytes = match base {
        None => Ok(None),
        Some(model) => match m.editable_bytes(image, model) {
            Err(e) => Err(e),
            Ok(b) => Ok(Some(b)),
        },
    };
    match bytes {
        Err(e) => Err(e),
        Ok(b) => if names.len() == 0 {
            Ok((b, Seq::empty()))
        } else {
            match m.current_refusal(image) {
                Some(e) => Err(e),
                None => match organization_sources(m, image, fields, names, fields.len()) {
                    Err(e) => Err(e),
                    Ok(sources) => Ok((b, sources)),
                },
            }
        },
    }
}

impl Catalog {
    fn find_field_source(&self, image: &str, f: &Field) -> (r: Result<FieldSource, CatalogError>)
        ensures
            match field_source(self.tables@, image@, f@) {
                Ok(source) => r matches Ok(found) && found@ == source,
                Err(e) => r == Err::<FieldSource, CatalogError>(e),
            },
    {
        let removed: bool = match &f.value {
            Some(v) => same(v.as_str(), "null"),
            None => false,
        };
        if removed {
            return Ok(FieldSource { name: f.name.clone(), bytes: None });
        }
        let model: i64 = match f.selected_model {
            None => return Err(CatalogError::FieldUnselected),
            Some(model) => model,
        };
        match self.editable_metadata_model(image, model) {
            Err(e) => Err(e),
            Ok(bytes) => Ok(FieldSource { name: f.name.clone(), bytes: Some(bytes) }),
        }
    }

    fn list_organization_sources(&self, image: &str, fields: &Vec<Field>, names: &Vec<String>) -> (r:
        Result<Vec<FieldSource>, CatalogError>)
        ensures
            match organization_sources(
                self.tables@,
                image@,
                fields@,
                texts(names@),
                fields@.len(),
            ) {
                Ok(sources) => r matches Ok(found) && support::models(found@) == sources,
                Err(e) => r == Err::<Vec<FieldSource>, CatalogError>(e),
            },
    {
        let ghost m = self.tables@;
        let mut sources: Vec<FieldSource> = Vec::new();
        let mut n: usize = 0;
        assert(support::models(sources@) =~= Seq::<FieldSourceModel>::empty());
        while n < fields.len()
            invariant
                n <= fields@.len(),
                m == self.tables@,
                organization_sources(m, image@, fields@, texts(names@), n as nat) == Ok::<
                    Seq<FieldSourceModel>,
                    CatalogError,
                >(support::models(sources@)),
            decreases fields@.len() - n,
        {
            let ghost before = support::models(sources@);
            let f = &fields[n];
            if has_text(names, f.name.as_str()) {
                if f.conflicted {
                    proof {
                        lemma_organization_error(
                            m,
                            image@,
                            fields@,
                            texts(names@),
                            (n + 1) as nat,
                        );
                    }
                    return Err(CatalogError::FieldConflicted);
                }
                match self.find_field_source(image, f) {
                    Err(e) => {
                        proof {
                            lemma_organization_error(
                                m,
                                image@,
                                fields@,
                                texts(names@),
                                (n + 1) as nat,
                            );
                        }
                        return Err(e);
                    },
                    Ok(source) => {
                        sources.push(source);
                        assert(support::models(sources@) =~= before.push(source@));
                    },
                }
            }
            n += 1;
        }
        Ok(sources)
    }

    pub(crate) fn list_export_sources(&self, image: &str, fields: &Vec<Field>) -> (r: Result<
        Vec<FieldSource>,
        CatalogError,
    >)
        ensures
            match export_sources(self.tables@, image@, fields@, fields@.len()) {
                Ok(sources) => r matches Ok(found) && support::models(found@) == sources,
                Err(e) => r == Err::<Vec<FieldSource>, CatalogError>(e),
            },
    {
        let ghost m = self.tables@;
        let mut sources: Vec<FieldSource> = Vec::new();
        let mut n: usize = 0;
        assert(support::models(sources@) =~= Seq::<FieldSourceModel>::empty());
        while n < fields.len()
            invariant
                n <= fields@.len(),
                m == self.tables@,
                export_sources(m, image@, fields@, n as nat) == Ok::<
                    Seq<FieldSourceModel>,
                    CatalogError,
                >(support::models(sources@)),
            decreases fields@.len() - n,
        {
            let ghost before = support::models(sources@);
            let f = &fields[n];
            if f.value.is_none() {
                proof {
                    lemma_export_error(m, image@, fields@, (n + 1) as nat);
                }
                return Err(CatalogError::FieldUnselected);
            }
            match self.find_field_source(image, f) {
                Err(e) => {
                    proof {
                        lemma_export_error(m, image@, fields@, (n + 1) as nat);
                    }
                    return Err(e);
                },
                Ok(source) => {
                    sources.push(source);
                    assert(support::models(sources@) =~= before.push(source@));
                },
            }
            n += 1;
        }
        Ok(sources)
    }

    /// What an edit starts from: a base model, and the settled values of the
    /// fields it organizes by.
    pub fn organization_edit_input(
        &self,
        image: &str,
        base_model: Option<i64>,
        organization_fields: &Vec<String>,
    ) -> (r: Result<EditInput, CatalogError>)
        ensures
            exists|fields: Seq<Field>|
                #[trigger] views::shows_fields(self.tables@, image@, fields) && match edit_input(
                    self.tables@,
                    image@,
                    base_model,
                    texts(organization_fields@),
                    fields,
                ) {
                    Ok((base, sources)) => r matches Ok(input) && store::document_of(input.base)
                        == base && support::models(input.fields@) == sources,
                    Err(e) => r == Err::<EditInput, CatalogError>(e),
                },
    {
        let ghost names = texts(organization_fields@);
        let view: Result<views::MetadataView, CatalogError> = self.metadata(image);
        let ghost known: Seq<Field> = if view is Ok {
            view->Ok_0.fields@
        } else {
            Seq::empty()
        };
        assert(views::shows_fields(self.tables@, image@, known));
        let ghost outcome = edit_input(self.tables@, image@, base_model, names, known);
        let base: Option<Vec<u8>> = match base_model {
            None => None,
            Some(model) => match self.editable_metadata_model(image, model) {
                Err(e) => {
                    assert(outcome is Err);
                    return Err(e);
                },
                Ok(bytes) => Some(bytes),
            },
        };
        if organization_fields.len() == 0 {
            let fields: Vec<FieldSource> = Vec::new();
            assert(support::models(fields@) =~= Seq::<FieldSourceModel>::empty());
            assert(outcome is Ok);
            return Ok(EditInput { base, fields });
        }
        let seen: views::MetadataView = match view {
            Err(e) => {
                assert(outcome is Err);
                return Err(e);
            },
            Ok(seen) => seen,
        };
        match self.list_organization_sources(image, &seen.fields, organization_fields) {
            Err(e) => {
                assert(outcome is Err);
                Err(e)
            },
            Ok(fields) => {
                assert(outcome is Ok);
                Ok(EditInput { base, fields })
            },
        }
    }
}

/// A request to edit an image's metadata, with the edited packet and what it and
/// the packet before the edit were interpreted as.
pub struct EditRequest {
    pub image: String,
    pub expected_revision: i64,
    pub base_model: Option<i64>,
    /// The fields by which the edit organizes; empty for any other edit.
    pub organization_fields: Vec<String>,
    /// The edits as a document.
    pub edits: String,
    /// The edited packet.
    pub packet: Vec<u8>,
    /// What the packet was interpreted as before the edit.
    pub original: Vec<PreparedValue>,
    /// What the edited packet is interpreted as.
    pub updated: Projected,
}

/// An edit that can be published as long as nothing it rests on changes.
pub struct PreparedEdit {
    pub session: u64,
    pub image_identity: ImageMetadataIdentity,
    pub expected_revision: i64,
    pub base_model: Option<i64>,
    pub edits: String,
    pub organization_fields: Vec<String>,
    pub source: Source,
    pub prepared: Prepared,
    pub original: Vec<PreparedValue>,
    pub updated: Vec<PreparedValue>,
}

pub open spec fn value_named(field: Seq<char>) -> spec_fn(prepared::PreparedValueModel) -> bool {
    |v: prepared::PreparedValueModel| v.field == field
}

/// The value that some values hold for a field.
pub open spec fn value_in(values: Seq<prepared::PreparedValueModel>, field: Seq<char>) -> Option<
    prepared::PreparedValueModel,
> {
    match support::first_where(values, value_named(field)) {
        Some(i) => Some(values[i]),
        None => None,
    }
}

fn find_value(values: &Vec<PreparedValue>, field: &str) -> (r: Option<usize>)
    ensures
        match r {
            Some(i) => i < values@.len() && value_in(support::models(values@), field@) == Some(
                values@[i as int]@,
            ),
            None => value_in(support::models(values@), field@) is None,
        },
{
    let test = |v: &PreparedValue| -> (b: bool)
        ensures b == value_named(field@)(v@)
    {
        same(v.field.as_str(), field)
    };
    let found: Option<usize> = find(values, test, Ghost(value_named(field@)));
    proof {
        if let Some(i) = found {
            assert(support::models(values@)[i as int] == values@[i as int]@);
        }
    }
    found
}

pub open spec fn value_of_model(model: i64) -> spec_fn(tables::ValueModel) -> bool {
    |v: tables::ValueModel| v.model_id == model
}

/// The values that a stored model gives.
pub open spec fn stored_values(m: TablesModel, model: i64) -> Seq<prepared::PreparedValueModel> {
    m.values.filter(value_of_model(model)).map_values(
        |v: tables::ValueModel|
            prepared::PreparedValueModel {
                field: v.field,
                value: v.value,
                semantic_hash: Some(v.semantic_hash),
            },
    )
}

fn list_stored_values(db: &Tables, model: i64) -> (values: Vec<PreparedValue>)
    ensures
        support::models(values@) == stored_values(db@, model),
{
    let ghost p = value_of_model(model);
    let ghost f = |v: tables::ValueModel|
        prepared::PreparedValueModel {
            field: v.field,
            value: v.value,
            semantic_hash: Some(v.semantic_hash),
        };
    let mut values: Vec<PreparedValue> = Vec::new();
    let mut i: usize = 0;
    assert(support::models(values@) =~= db@.values.take(0).filter(p).map_values(f));
    while i < db.values.len()
        invariant
            i <= db.values@.len(),
            p == value_of_model(model),
            f == (|v: tables::ValueModel|
                prepared::PreparedValueModel {
                    field: v.field,
                    value: v.value,
                    semantic_hash: Some(v.semantic_hash),
                }),
            support::models(values@) == db@.values.take(i as int).filter(p).map_values(f),
        decreases db.values@.len() - i,
    {
        let ghost row = db@.values[i as int];
        assert(row == db.values@[i as int]@);
        let ghost before = support::models(values@);
        proof {
            assert(db@.values.take(i + 1) =~= db@.values.take(i as int).push(row));
            support::lemma_filter_push(db@.values.take(i as int), row, p);
        }
        if db.values[i].model_id == model {
            let v: &ValueRow = &db.values[i];
            values.push(
                PreparedValue {
                    field: v.field.clone(),
                    value: v.value.clone(),
                    semantic_hash: Some(v.semantic_hash.clone()),
                },
            );
            assert(support::models(values@) =~= before.push(f(row)));
            assert(support::models(values@) =~= db@.values.take(i + 1).filter(p).map_values(f));
        }
        i += 1;
    }
    assert(db@.values.take(i as int) =~= db@.values);
    values
}

/// What a packet held before an edit: what its stored model gave, or else what
/// interpreting it gave.
pub open spec fn edit_original(m: TablesModel, r: EditRequest) -> Seq<prepared::PreparedValueModel> {
    match r.base_model {
        Some(model) if r.organization_fields@.len() == 0 => stored_values(m, model),
        _ => support::models(r.original@),
    }
}

/// A removed property, as an edit records it.
pub open spec fn removal(field: Seq<char>) -> prepared::PreparedValueModel {
    prepared::PreparedValueModel {
        field,
        value: removed_value(),
        semantic_hash: Some(removed_meaning()),
    }
}

/// The values of an edited packet with removals among them marked as such.
pub open spec fn marked_values(values: Seq<prepared::PreparedValueModel>) -> Seq<
    prepared::PreparedValueModel,
> {
    values.map_values(
        |v: prepared::PreparedValueModel|
            if v.value == removed_value() {
                removal(v.field)
            } else {
                v
            },
    )
}

/// The values of an edited packet with a removal for each of the first `n` original
/// fields that it no longer holds.
pub open spec fn with_removals(
    values: Seq<prepared::PreparedValueModel>,
    original: Seq<prepared::PreparedValueModel>,
    n: nat,
) -> Seq<prepared::PreparedValueModel>
    decreases n,
{
    if n == 0 {
        marked_values(values)
    } else {
        let before = with_removals(values, original, (n - 1) as nat);
        if value_in(before, original[n - 1].field) is Some {
            before
        } else {
            placed(before, removal(original[n - 1].field))
        }
    }
}

pub open spec fn named_after(field: Seq<char>) -> spec_fn(prepared::PreparedValueModel) -> bool {
    |v: prepared::PreparedValueModel| ordering::text_before(field, v.field)
}

/// A value put before the first whose field's name comes after that of its own.
pub open spec fn placed(
    values: Seq<prepared::PreparedValueModel>,
    v: prepared::PreparedValueModel,
) -> Seq<prepared::PreparedValueModel> {
    match support::first_where(values, named_after(v.field)) {
        None => values.push(v),
        Some(i) => values.insert(i, v),
    }
}

fn place(values: &mut Vec<PreparedValue>, v: PreparedValue)
    ensures
        support::models(final(values)@) == placed(support::models(old(values)@), v@),
{
    let ghost before = support::models(values@);
    let ghost new = v@;
    let name: String = v.field.clone();
    let test = |x: &PreparedValue| -> (b: bool)
        ensures b == named_after(name@)(x@)
    {
        is_text_before(name.as_str(), x.field.as_str())
    };
    match find(values, test, Ghost(named_after(name@))) {
        None => {
            values.push(v);
            assert(support::models(values@) =~= before.push(new));
        },
        Some(i) => {
            values.insert(i, v);
            assert(support::models(values@) =~= before.insert(i as int, new));
        },
    }
}

/// The values that an edit leaves an image with.
pub open spec fn edit_updated(m: TablesModel, r: EditRequest) -> Seq<prepared::PreparedValueModel> {
    let original = edit_original(m, r);
    with_removals(support::models(r.updated.fields@), original, original.len())
}

fn mark_values(values: &Vec<PreparedValue>) -> (marked: Vec<PreparedValue>)
    ensures
        support::models(marked@) == marked_values(support::models(values@)),
{
    let mut marked: Vec<PreparedValue> = Vec::new();
    let mut i: usize = 0;
    while i < values.len()
        invariant
            i <= values@.len(),
            marked@.len() == i,
            forall|j: int|
                0 <= j < i ==> (#[trigger] marked@[j])@ == if values@[j]@.value == removed_value() {
                    removal(values@[j]@.field)
                } else {
                    values@[j]@
                },
        decreases values@.len() - i,
    {
        let v = &values[i];
        if same(v.value.as_str(), "null") {
            marked.push(make_removal(v.field.as_str()));
        } else {
            marked.push(v.copied());
        }
        i += 1;
    }
    assert(support::models(marked@) =~= marked_values(support::models(values@)));
    marked
}

fn make_removal(field: &str) -> (v: PreparedValue)
    ensures
        v@ == removal(field@),
{
    PreparedValue {
        field: field.to_owned(),
        value: "null".to_owned(),
        semantic_hash: Some(blake3_digest("catalog-explicit-removal-v1".as_bytes())),
    }
}

fn add_removals(values: &Vec<PreparedValue>, original: &Vec<PreparedValue>) -> (updated: Vec<
    PreparedValue,
>)
    ensures
        support::models(updated@) == with_removals(
            support::models(values@),
            support::models(original@),
            original@.len(),
        ),
{
    let mut updated: Vec<PreparedValue> = mark_values(values);
    let ghost all = support::models(original@);
    let mut n: usize = 0;
    while n < original.len()
        invariant
            n <= original@.len(),
            all == support::models(original@),
            support::models(updated@) == with_removals(support::models(values@), all, n as nat),
        decreases original@.len() - n,
    {
        let ghost before = support::models(updated@);
        assert(all[n as int] == original@[n as int]@);
        if find_value(&updated, original[n].field.as_str()).is_none() {
            place(&mut updated, make_removal(original[n].field.as_str()));
        }
        n += 1;
    }
    updated
}

/// Every name is that of a field that organizes images.
pub open spec fn organizing(names: Seq<Seq<char>>) -> bool {
    forall|i: int| 0 <= i < names.len() ==> organization_field(#[trigger] names[i])
}

fn is_organizing(names: &Vec<String>) -> (r: bool)
    ensures
        r == organizing(texts(names@)),
{
    let mut i: usize = 0;
    while i < names.len()
        invariant
            i <= names@.len(),
            forall|j: int| 0 <= j < i ==> organization_field(#[trigger] texts(names@)[j]),
        decreases names@.len() - i,
    {
        assert(texts(names@)[i as int] == names@[i as int]@);
        if !is_organization_field(names[i].as_str()) {
            return false;
        }
        i += 1;
    }
    true
}

/// The observation that an edit makes.
pub open spec fn edit_observation(m: TablesModel, r: EditRequest) -> Result<
    prepared::PreparedObservation,
    CatalogError,
> {
    match prepared::with_blob(Seq::empty(), r.packet@) {
        Err(e) => Err(e),
        Ok(blobs) => {
            let found = edit_packet(r, blobs);
            let projection = documents::projection_document(edit_updated(m, r), r.updated.rest@);
            let model = prepared::PreparedModelModel {
                projection,
                fields: edit_updated(m, r),
                flawed: r.updated.flawed,
                ..found.models[0]
            };
            match edit_revision(found, projection) {
                None => Err(CatalogError::DocumentFailed),
                Some(revision) => Ok(
                    prepared::PreparedObservation { revision, models: seq![model], ..found },
                ),
            }
        },
    }
}

/// What was edited, as a document: the model and the revision that the edits were made
/// to, and the edits.
pub open spec fn edit_provenance(r: EditRequest) -> Seq<char> {
    "{\"base_model\":"@ + match r.base_model {
        None => "null"@,
        Some(model) => signed_text(model),
    } + ",\"based_on_revision\":"@ + signed_text(r.expected_revision) + ",\"edits\":"@ + r.edits@
        + "}"@
}

fn describe_edit(r: &EditRequest) -> (d: String)
    ensures
        d@ == edit_provenance(*r),
{
    let mut d: String = "{\"base_model\":".to_owned();
    match r.base_model {
        None => d.append("null"),
        Some(model) => append_signed(&mut d, model),
    }
    d.append(",\"based_on_revision\":");
    append_signed(&mut d, r.expected_revision);
    d.append(",\"edits\":");
    d.append(r.edits.as_str());
    d.append("}");
    assert(d@ =~= edit_provenance(*r));
    d
}

/// The observation that the edited packet alone would be.
pub open spec fn edit_packet(
    r: EditRequest,
    blobs: Seq<tables::BlobModel>,
) -> prepared::PreparedObservation {
    let hash = outside::blake3_hex(r.packet@);
    prepared::PreparedObservation {
        revision: Seq::empty(),
        status: "Complete"@,
        issues: "[]"@,
        provenance: documents::provenance_text(
            crate::catalog_metadata::identity::FileState {
                blake3: hash,
                length: r.packet@.len() as u64,
                modified: None,
            },
            local_source(edit_provenance(r)),
        ),
        source_provenance: edit_provenance(r),
        file_length: r.packet@.len() as u64,
        file_blake3: hash,
        modified: None,
        blobs,
        packets: seq![
            prepared::PreparedPacketModel {
                hash,
                descriptor: documents::packet_text(
                    "{}"@,
                    "Sidecar"@,
                    "catalog-authored"@,
                    Seq::empty(),
                ),
            },
        ],
        models: seq![
            prepared::PreparedModelModel {
                hash,
                descriptor: documents::input_text("catalog-authored"@, seq![0usize], "Identity"@),
                projection: r.updated.document(),
                fields: Seq::empty(),
                error: None,
                flawed: r.updated.flawed,
            },
        ],
    }
}

/// The revision of an edit: that of its packet, together with what the edit leaves.
pub open spec fn edit_revision(found: prepared::PreparedObservation, projection: Seq<char>) -> Option<
    Seq<char>,
> {
    match crate::catalog_metadata::identity::own_revision(found) {
        None => None,
        Some(revision) => match outside::json_text(revision) {
            None => None,
            Some(text) => Some(
                outside::blake3_hex(encode_utf8("["@ + text + ","@ + projection + "]"@)),
            ),
        },
    }
}

fn make_edit_revision(found: &Prepared, projection: &str) -> (revision: Option<String>)
    ensures
        match revision {
            Some(s) => edit_revision(found@, projection@) == Some(s@),
            None => edit_revision(found@, projection@) is None,
        },
{
    match revision_with_provenance(
        found,
        found.provenance.as_str(),
        found.file_blake3.as_str(),
        found.file_length,
        found.modified,
    ) {
        None => None,
        Some(revision) => match json_string(revision.as_str()) {
            None => None,
            Some(text) => {
                let mut d: String = "[".to_owned();
                d.append(text.as_str());
                d.append(",");
                d.append(projection);
                d.append("]");
                assert(d@ =~= "["@ + text@ + ","@ + projection@ + "]"@);
                Some(blake3_digest(d.as_str().as_bytes()))
            },
        },
    }
}

/// The source that an image's own edits are kept under.
pub open spec fn local_source(provenance: Seq<char>) -> store::SourceRequest {
    store::SourceRequest {
        kind: "catalog"@,
        locator: encode_utf8("local-metadata"@),
        display: "Catalog metadata"@,
        ambiguous: false,
        provenance,
    }
}

/// What an edit rests on, given all fields of the image: the image's identity, at the
/// expected revision. A field that the edit organizes by has to be settled first.
pub open spec fn edit_start(m: TablesModel, r: EditRequest, fields: Seq<Field>) -> Result<
    catalog_images::IdentityModel,
    CatalogError,
> {
    match m.identity_of(r.image@) {
        Err(e) => Err(e),
        Ok(found) => if found.metadata_revision != r.expected_revision {
            Err(CatalogError::RevisionChanged)
        } else if !organizing(texts(r.organization_fields@)) {
            Err(CatalogError::FieldAffectsPixels)
        } else {
            match edit_input(m, r.image@, r.base_model, texts(r.organization_fields@), fields) {
                Err(e) => Err(e),
                Ok(_) => Ok(found),
            }
        },
    }
}

/// Why an edit cannot be prepared, given all fields of the image.
pub open spec fn edit_refusal(m: TablesModel, r: EditRequest, fields: Seq<Field>) -> Option<
    CatalogError,
> {
    match edit_start(m, r, fields) {
        Err(e) => Some(e),
        Ok(_) => match edit_observation(m, r) {
            Err(e) => Some(e),
            Ok(_) => None,
        },
    }
}

/// An open conflict is never settled by the way: an edit that organizes by a conflicted
/// field is refused.
pub proof fn law_conflicted_fields_are_not_organized_by(
    m: TablesModel,
    r: EditRequest,
    fields: Seq<Field>,
    name: Seq<char>,
)
    requires
        views::shows_fields(m, r.image@, fields),
        m.effective.contains_key((r.image@, name)),
        views::field_view(m, r.image@, name).conflicted,
        texts(r.organization_fields@).contains(name),
    ensures
        edit_refusal(m, r, fields) is Some,
{
    if m.current_refusal(r.image@) is None {
        let names = texts(r.organization_fields@);
        let i = choose|i: int| 0 <= i < fields.len() && (#[trigger] fields[i])@.name == name;
        assert(names.len() > 0);
        assert(organization_sources(m, r.image@, fields, names, (i + 1) as nat) is Err);
        lemma_organization_error(m, r.image@, fields, names, (i + 1) as nat);
    }
}

/// What an edit was found to rest on is what it rests on.
pub open spec fn is_start(
    found: Result<ImageMetadataIdentity, CatalogError>,
    start: Result<catalog_images::IdentityModel, CatalogError>,
) -> bool {
    match start {
        Ok(identity) => found matches Ok(i) && i@ == identity,
        Err(e) => found == Err::<ImageMetadataIdentity, CatalogError>(e),
    }
}

/// An edit is what a request asks for.
pub open spec fn is_prepared(c: Catalog, r: EditRequest, e: PreparedEdit) -> bool {
    let m = c.tables@;
    &&& e.session == c.session
    &&& m.identity_of(r.image@) == Ok::<catalog_images::IdentityModel, CatalogError>(
        e.image_identity@,
    )
    &&& e.expected_revision == r.expected_revision
    &&& e.base_model == r.base_model
    &&& texts(e.organization_fields@) == texts(r.organization_fields@)
    &&& e.source@ == local_source(edit_provenance(r))
    &&& e.edits@ == r.edits@
    &&& edit_observation(m, r) == Ok::<prepared::PreparedObservation, CatalogError>(e.prepared@)
    &&& support::models(e.original@) == edit_original(m, r)
    &&& support::models(e.updated@) == edit_updated(m, r)
}

fn copy_texts(s: &Vec<String>) -> (c: Vec<String>)
    ensures
        texts(c@) == texts(s@),
{
    let mut c: Vec<String> = Vec::new();
    let mut i: usize = 0;
    while i < s.len()
        invariant
            i <= s@.len(),
            c@.len() == i,
            forall|j: int| 0 <= j < i ==> (#[trigger] c@[j])@ == s@[j]@,
        decreases s@.len() - i,
    {
        c.push(s[i].clone());
        i += 1;
    }
    assert(texts(c@) =~= texts(s@));
    c
}

/// Retains the bytes of one packet, and gives their digest.
fn retain_packet(bytes: &[u8]) -> (r: Result<(Vec<tables::BlobRow>, String), CatalogError>)
    ensures
        match prepared::with_blob(Seq::empty(), bytes@) {
            Ok(after) => r matches Ok((blobs, hash)) && support::models(blobs@) == after && hash@
                == outside::blake3_hex(bytes@),
            Err(e) => r == Err::<(Vec<tables::BlobRow>, String), CatalogError>(e),
        },
        r matches Ok((blobs, _)) ==> prepared::all_give(support::models(blobs@), set![bytes@]),
{
    let mut blobs: Vec<tables::BlobRow> = Vec::new();
    assert(support::models(blobs@) =~= Seq::<tables::BlobModel>::empty());
    let hash: String = match prepared::add_blob(&mut blobs, bytes) {
        Err(e) => return Err(e),
        Ok(hash) => hash,
    };
    proof {
        prepared::lemma_gives_more(
            Seq::empty(),
            support::models(blobs@),
            bytes@,
            set![bytes@],
        );
    }
    Ok((blobs, hash))
}

impl Catalog {
    /// What an edit rests on.
    fn start_edit(&self, r: &EditRequest) -> (out: Result<ImageMetadataIdentity, CatalogError>)
        ensures
            exists|fields: Seq<Field>|
                #[trigger] views::shows_fields(self.tables@, r.image@, fields) && is_start(
                    out,
                    edit_start(self.tables@, *r, fields),
                ),
    {
        let input: Result<EditInput, CatalogError> = self.organization_edit_input(
            r.image.as_str(),
            r.base_model,
            &r.organization_fields,
        );
        let image_identity: ImageMetadataIdentity = match identity(&self.tables, r.image.as_str()) {
            Err(e) => return Err(e),
            Ok(found) => found,
        };
        if image_identity.metadata_revision != r.expected_revision {
            return Err(CatalogError::RevisionChanged);
        }
        if !is_organizing(&r.organization_fields) {
            return Err(CatalogError::FieldAffectsPixels);
        }
        match input {
            Err(e) => Err(e),
            Ok(_) => Ok(image_identity),
        }
    }

    /// Prepares an edit without changing anything.
    pub fn prepare_metadata_edit(&self, r: &EditRequest) -> (p: Result<PreparedEdit, CatalogError>)
        ensures
            exists|fields: Seq<Field>|
                #[trigger] views::shows_fields(self.tables@, r.image@, fields)
                    && match edit_refusal(self.tables@, *r, fields) {
                    Some(e) => p == Err::<PreparedEdit, CatalogError>(e),
                    None => p matches Ok(edit) && is_prepared(*self, *r, edit),
                },
            p matches Ok(edit) ==> prepared::all_give(edit.prepared@.blobs, set![r.packet@]),
    {
        let db = &self.tables;
        let start: Result<ImageMetadataIdentity, CatalogError> = self.start_edit(r);
        let ghost fields = choose|fields: Seq<Field>| #[trigger]
            views::shows_fields(self.tables@, r.image@, fields) && is_start(
                start,
                edit_start(self.tables@, *r, fields),
            );
        assert(views::shows_fields(self.tables@, r.image@, fields));
        let image_identity: ImageMetadataIdentity = match start {
            Err(e) => return Err(e),
            Ok(found) => found,
        };
        let original: Vec<PreparedValue> = match r.base_model {
            Some(model) => if r.organization_fields.len() == 0 {
                list_stored_values(db, model)
            } else {
                copy_rows(&r.original)
            },
            None => copy_rows(&r.original),
        };
        let updated: Vec<PreparedValue> = add_removals(&r.updated.fields, &original);
        assert(support::models(original@).len() == original@.len());
        assert(support::models(updated@) == edit_updated(db@, *r));
        let (blobs, hash): (Vec<tables::BlobRow>, String) = match retain_packet(
            r.packet.as_slice(),
        ) {
            Err(e) => return Err(e),
            Ok(retained) => retained,
        };
        let source_provenance: String = describe_edit(r);
        let source: Source = Source {
            kind: "catalog".to_owned(),
            locator: copy_bytes("local-metadata".as_bytes()),
            display: "Catalog metadata".to_owned(),
            ambiguous: false,
            provenance: source_provenance.clone(),
        };
        assert(source@ =~= local_source(edit_provenance(*r)));
        let packet_descriptor: String = packet_text_of(
            "{}",
            "Sidecar",
            "catalog-authored",
            &Vec::new(),
        );
        let mut indices: Vec<usize> = Vec::new();
        indices.push(0);
        assert(indices@ =~= seq![0usize]);
        let input_descriptor: String = input_text_of("catalog-authored", &indices, "Identity");
        let mut packets: Vec<prepared::PreparedPacket> = Vec::new();
        packets.push(prepared::PreparedPacket { hash: hash.clone(), descriptor: packet_descriptor });
        let mut models: Vec<prepared::PreparedModel> = Vec::new();
        models.push(
            prepared::PreparedModel {
                hash: hash.clone(),
                descriptor: input_descriptor.clone(),
                projection: describe_projection(&r.updated.fields, r.updated.rest.as_str()),
                fields: Vec::new(),
                error: None,
                flawed: r.updated.flawed,
            },
        );
        let mut made: Prepared = Prepared {
            revision: String::new(),
            status: "Complete".to_owned(),
            issues: "[]".to_owned(),
            provenance: provenance_text_of(hash.as_str(), r.packet.len() as u64, None, &source),
            source_provenance,
            file_length: r.packet.len() as u64,
            file_blake3: hash.clone(),
            modified: None,
            blobs,
            packets,
            models,
        };
        let ghost blobs_made = made@.blobs;
        assert(made@.models[0].fields =~= Seq::<prepared::PreparedValueModel>::empty());
        assert(made@ =~= edit_packet(*r, blobs_made));
        let projection: String = describe_projection(&updated, r.updated.rest.as_str());
        match make_edit_revision(&made, projection.as_str()) {
            None => return Err(CatalogError::DocumentFailed),
            Some(revision) => {
                made.revision = revision;
            },
        }
        let mut edited: Vec<prepared::PreparedModel> = Vec::new();
        edited.push(
            prepared::PreparedModel {
                hash,
                descriptor: input_descriptor,
                projection,
                fields: copy_rows(&updated),
                error: None,
                flawed: r.updated.flawed,
            },
        );
        made.models = edited;
        assert(made@ =~= edit_observation(db@, *r)->Ok_0);
        Ok(
            PreparedEdit {
                session: self.session,
                image_identity,
                expected_revision: r.expected_revision,
                base_model: r.base_model,
                edits: r.edits.clone(),
                organization_fields: copy_texts(&r.organization_fields),
                source,
                prepared: made,
                original,
                updated,
            },
        )
    }
}

/// The meaning that an image's own earlier edit gave a field, where that edit is
/// still the one chosen for it.
pub open spec fn previous_meaning(
    m: TablesModel,
    image: Seq<char>,
    field: Seq<char>,
    locator: Seq<u8>,
) -> Option<Seq<char>> {
    match m.choice_at(image, field) {
        None => None,
        Some(c) => {
            let model = m.choices[c].model_id;
            match (m.value_at(model, field), m.model_at(model)) {
                (Some(v), Some(k)) => {
                    let oid = m.models[k].observation_id;
                    match m.observation_at(oid) {
                        None => None,
                        Some(o) => {
                            let sid = m.observations[o].source_id;
                            match (m.source_at(sid), m.image_source_at(image, sid)) {
                                (Some(s), Some(a)) => if m.sources[s].kind == "catalog"@
                                    && m.image_sources[a].logical_locator == locator
                                    && m.image_sources[a].current_observation == Some(oid) {
                                    Some(m.values[v].semantic_hash)
                                } else {
                                    None
                                },
                                _ => None,
                            }
                        },
                    }
                },
                _ => None,
            }
        },
    }
}

fn find_previous_meaning(db: &Tables, image: &str, field: &str, locator: &[u8]) -> (r: Option<String>)
    ensures
        support::text_of(r) == previous_meaning(db@, image@, field@, locator@),
{
    let c: usize = match db.find_choice_at(image, field) {
        None => return None,
        Some(c) => c,
    };
    assert(db@.choices[c as int] == db.choices@[c as int]@);
    let model: i64 = db.choices[c].model_id;
    let v: usize = match db.find_value_at(model, field) {
        None => return None,
        Some(v) => v,
    };
    let k: usize = match db.find_model_at(model) {
        None => return None,
        Some(k) => k,
    };
    assert(db@.values[v as int] == db.values@[v as int]@);
    assert(db@.models[k as int] == db.models@[k as int]@);
    let oid: i64 = db.models[k].observation_id;
    let o: usize = match db.find_observation_at(oid) {
        None => return None,
        Some(o) => o,
    };
    assert(db@.observations[o as int] == db.observations@[o as int]@);
    let sid: i64 = db.observations[o].source_id;
    let s: usize = match db.find_source_at(sid) {
        None => return None,
        Some(s) => s,
    };
    let a: usize = match db.find_image_source_at(image, sid) {
        None => return None,
        Some(a) => a,
    };
    assert(db@.sources[s as int] == db.sources@[s as int]@);
    assert(db@.image_sources[a as int] == db.image_sources@[a as int]@);
    let current: bool = match db.image_sources[a].current_observation {
        Some(x) => x == oid,
        None => false,
    };
    if current && same(db.sources[s].kind.as_str(), "catalog") && same_bytes(
        db.image_sources[a].logical_locator.as_slice(),
        locator,
    ) {
        Some(db.values[v].semantic_hash.clone())
    } else {
        None
    }
}

/// An edit's own model is chosen for a field: where the edit organizes by it,
/// where it changed its value or meaning, or where the image's earlier edit was
/// chosen for it with the same meaning.
pub open spec fn edit_chooses(m: TablesModel, e: PreparedEdit, v: prepared::PreparedValueModel) -> bool {
    let before = value_in(support::models(e.original@), v.field);
    ||| texts(e.organization_fields@).contains(v.field)
    ||| !(before matches Some(b) && b.value == v.value)
    ||| match before {
        Some(b) => b.semantic_hash,
        None => None,
    } != v.semantic_hash
    ||| (previous_meaning(m, e.image_identity.image_id@, v.field, e.source.locator@) matches Some(h)
        && v.semantic_hash == Some(h))
}

fn is_choosing(db: &Tables, e: &PreparedEdit, v: &PreparedValue) -> (r: bool)
    ensures
        r == edit_chooses(db@, *e, v@),
{
    if has_text(&e.organization_fields, v.field.as_str()) {
        return true;
    }
    match find_value(&e.original, v.field.as_str()) {
        None => return true,
        Some(i) => {
            let before = &e.original[i];
            if !same(before.value.as_str(), v.value.as_str()) || !same_option(
                &before.semantic_hash,
                &v.semantic_hash,
            ) {
                return true;
            }
        },
    }
    let previous: Option<String> = find_previous_meaning(
        db,
        e.image_identity.image_id.as_str(),
        v.field.as_str(),
        e.source.locator.as_slice(),
    );
    previous.is_some() && same_option(&previous, &v.semantic_hash)
}

/// The tables with an edit's model chosen for those of its first `n` fields that
/// it is chosen for, going by the tables `m` before the edit.
pub open spec fn edit_chosen(
    m: TablesModel,
    after: TablesModel,
    e: PreparedEdit,
    model: i64,
    n: nat,
) -> TablesModel
    decreases n,
{
    if n == 0 {
        after
    } else {
        let before = edit_chosen(m, after, e, model, (n - 1) as nat);
        if edit_chooses(m, e, e.updated@[n - 1]@) {
            before.chosen(e.image_identity.image_id@, e.updated@[n - 1]@.field, model)
        } else {
            before
        }
    }
}

/// What publishing an edit gives.
pub open spec fn commit_outcome(m: TablesModel, e: PreparedEdit) -> Result<
    (TablesModel, store::ChangeModel),
    CatalogError,
> {
    let image = e.image_identity.image_id@;
    match m.identity_of(image) {
        Err(x) => Err(x),
        Ok(found) => if found != e.image_identity@ {
            Err(CatalogError::IdentityChanged)
        } else if m.revision_of(image) != e.expected_revision {
            Err(CatalogError::RevisionChanged)
        } else {
            match store::store_outcome(m, image, e.source@, e.prepared@) {
                Err(x) => Err(x),
                Ok((stored, oid, _)) => {
                    let ids = store::models_of(stored, oid);
                    if ids.len() == 0 {
                        Err(CatalogError::ModelNotFound)
                    } else {
                        match catalog_metadata::advance_outcome(
                            edit_chosen(m, stored, e, ids[0], e.updated@.len()).rebuilt(image),
                            image,
                            "edit"@,
                            tables::DetailModel::Edited {
                                base_model: e.base_model,
                                observation_id: oid,
                                edits: e.edits@,
                            },
                            e.organization_fields@.len() == 0,
                        ) {
                            Err(x) => Err(x),
                            Ok((after, revision)) => Ok(
                                (
                                    after,
                                    store::ChangeModel {
                                        revision,
                                        observation_id: oid,
                                        model_ids: ids,
                                        changed: true,
                                    },
                                ),
                            ),
                        }
                    }
                },
            }
        },
    }
}

fn list_choices(db: &Tables, e: &PreparedEdit) -> (picks: Vec<bool>)
    ensures
        picks@.len() == e.updated@.len(),
        forall|i: int|
            0 <= i < picks@.len() ==> #[trigger] picks@[i] == edit_chooses(
                db@,
                *e,
                e.updated@[i]@,
            ),
{
    let mut picks: Vec<bool> = Vec::new();
    let mut i: usize = 0;
    while i < e.updated.len()
        invariant
            i <= e.updated@.len(),
            picks@.len() == i,
            forall|j: int|
                0 <= j < i ==> #[trigger] picks@[j] == edit_chooses(db@, *e, e.updated@[j]@),
        decreases e.updated@.len() - i,
    {
        picks.push(is_choosing(db, e, &e.updated[i]));
        i += 1;
    }
    picks
}

/// Chooses an edit's model for the fields that were picked.
fn choose_picked(
    db: &mut Tables,
    e: &PreparedEdit,
    picks: &Vec<bool>,
    model: i64,
    Ghost(m): Ghost<TablesModel>,
)
    requires
        picks@.len() == e.updated@.len(),
        forall|i: int|
            0 <= i < picks@.len() ==> #[trigger] picks@[i] == edit_chooses(m, *e, e.updated@[i]@),
    ensures
        final(db)@ == edit_chosen(m, old(db)@, *e, model, e.updated@.len()),
{
    let ghost stored = db@;
    let image: &str = e.image_identity.image_id.as_str();
    let mut n: usize = 0;
    while n < e.updated.len()
        invariant
            n <= e.updated@.len(),
            picks@.len() == e.updated@.len(),
            image@ == e.image_identity.image_id@,
            forall|i: int|
                0 <= i < picks@.len() ==> #[trigger] picks@[i] == edit_chooses(
                    m,
                    *e,
                    e.updated@[i]@,
                ),
            db@ == edit_chosen(m, stored, *e, model, n as nat),
        decreases e.updated@.len() - n,
    {
        if picks[n] {
            choose_model(db, image, e.updated[n].field.as_str(), model);
        }
        n += 1;
    }
}

/// Publishes an edit. Where this fails, what it has changed is to be thrown away.
pub(crate) fn commit(db: &mut Tables, e: &PreparedEdit) -> (r: Result<Change, CatalogError>)
    ensures
        match commit_outcome(old(db)@, *e) {
            Ok((m, change)) => r matches Ok(c) && c@ == change && final(db)@ == m,
            Err(x) => r == Err::<Change, CatalogError>(x),
        },
{
    let ghost m = old(db)@;
    match require_image_metadata_identity(db, &e.image_identity) {
        Err(x) => return Err(x),
        Ok(()) => {},
    }
    let image: &str = e.image_identity.image_id.as_str();
    if recorded_revision(db, image) != e.expected_revision {
        return Err(CatalogError::RevisionChanged);
    }
    let picks: Vec<bool> = list_choices(db, e);
    let (oid, _) = match store(db, image, &e.source, &e.prepared) {
        Err(x) => return Err(x),
        Ok(stored) => stored,
    };
    let model_ids: Vec<i64> = list_models(db, oid);
    if model_ids.len() == 0 {
        return Err(CatalogError::ModelNotFound);
    }
    choose_picked(db, e, &picks, model_ids[0], Ghost(m));
    rebuild(db, image);
    match advance(
        db,
        image,
        "edit",
        Detail::Edited { base_model: e.base_model, observation_id: oid, edits: e.edits.clone() },
        e.organization_fields.len() == 0,
    ) {
        Err(x) => Err(x),
        Ok(revision) => Ok(Change { revision, observation_id: oid, model_ids, changed: true }),
    }
}

/// Editing an image's metadata gave what it should, given all fields of the image.
pub open spec fn edited(
    before: Catalog,
    after: Catalog,
    r: EditRequest,
    fields: Seq<Field>,
    c: Result<Change, CatalogError>,
) -> bool {
    match edit_refusal(before.tables@, r, fields) {
        Some(e) => c == Err::<Change, CatalogError>(e) && after == before,
        None => exists|edit: PreparedEdit| #[trigger]
            is_prepared(before, r, edit) && match commit_outcome(before.tables@, edit) {
                Ok((m, change)) => c matches Ok(found) && found@ == change && after.tables@ == m,
                Err(e) => c == Err::<Change, CatalogError>(e) && after == before,
            },
    }
}

impl Catalog {
    /// Publishes a prepared edit in one piece with whatever else belongs to it.
    /// Nothing is changed where the edit rests on something that changed since, or
    /// where the rest fails.
    pub fn commit_prepared_metadata_edit<F: FnOnce(&Tables, i64) -> Result<(), CatalogError>>(
        &mut self,
        edit: &PreparedEdit,
        after: F,
    ) -> (r: Result<Change, CatalogError>)
        requires
            forall|t: &Tables, n: i64| #[trigger] after.requires((t, n)),
        ensures
            final(self).tables_only(*old(self)),
            r is Err ==> *final(self) == *old(self),
            if edit.session != old(self).session {
                r == Err::<Change, CatalogError>(CatalogError::SessionForeign)
            } else {
                match commit_outcome(old(self).tables@, *edit) {
                    Err(e) => r == Err::<Change, CatalogError>(e),
                    Ok((m, change)) => exists|t: Tables, done: Result<(), CatalogError>|
                        {
                            &&& #[trigger] after.ensures((&t, change.revision), done)
                            &&& t@ == m
                            &&& match done {
                                Ok(()) => r matches Ok(c) && c@ == change && final(self).tables
                                    == t,
                                Err(e) => r == Err::<Change, CatalogError>(e),
                            }
                        },
                }
            },
    {
        if edit.session != self.session {
            return Err(CatalogError::SessionForeign);
        }
        let mut tables: Tables = self.tables.copied();
        let change: Change = match commit(&mut tables, edit) {
            Err(e) => return Err(e),
            Ok(change) => change,
        };
        let revision: i64 = change.revision;
        let done: Result<(), CatalogError> = after(&tables, revision);
        let ghost t = tables;
        assert(after.ensures((&t, change@.revision), done));
        match done {
            Err(e) => Err(e),
            Ok(()) => {
                self.tables = tables;
                Ok(change)
            },
        }
    }

    /// Edits an image's metadata. What was observed before stays as it is.
    pub fn edit_metadata(&mut self, r: &EditRequest) -> (c: Result<Change, CatalogError>)
        ensures
            final(self).tables_only(*old(self)),
            exists|fields: Seq<Field>|
                #[trigger] views::shows_fields(old(self).tables@, r.image@, fields) && edited(
                    *old(self),
                    *final(self),
                    *r,
                    fields,
                    c,
                ),
    {
        let edit: PreparedEdit = match self.prepare_metadata_edit(r) {
            Err(e) => return Err(e),
            Ok(edit) => edit,
        };
        let mut tables: Tables = self.tables.copied();
        match commit(&mut tables, &edit) {
            Err(e) => Err(e),
            Ok(change) => {
                self.tables = tables;
                Ok(change)
            },
        }
    }

    /// Edits the metadata of the image of a variant.
    pub fn edit_metadata_for_image(&mut self, key: &VariantKey, r: EditRequest) -> (c: Result<
        Change,
        CatalogError,
    >)
        ensures
            final(self).tables_only(*old(self)),
            match old(self).tables@.id_of(key@) {
                None => c == Err::<Change, CatalogError>(CatalogError::ImageNotFound) && *final(self)
                    == *old(self),
                Some(image) => exists|request: EditRequest, fields: Seq<Field>|
                    {
                        &&& request == (EditRequest { image: request.image, ..r })
                        &&& request.image@ == image
                        &&& views::shows_fields(old(self).tables@, image, fields)
                        &&& #[trigger] edited(*old(self), *final(self), request, fields, c)
                    },
            },
    {
        let image: String = match id(&self.tables, key) {
            Err(e) => return Err(e),
            Ok(image) => image,
        };
        let mut request: EditRequest = r;
        request.image = image;
        self.edit_metadata(&request)
    }
}

/// A number that is not negative in decimal digits.
pub open spec fn decimal_text(n: nat) -> Seq<char>
    decreases n,
{
    if n < 10 {
        seq![(48 + n) as char]
    } else {
        decimal_text(n / 10).push((48 + n % 10) as char)
    }
}

fn append_digit(s: &mut String, d: u64)
    requires
        d < 10,
    ensures
        final(s)@ == old(s)@.push((48 + d) as char),
{
    proof {
        reveal_strlit("0");
        reveal_strlit("1");
        reveal_strlit("2");
        reveal_strlit("3");
        reveal_strlit("4");
        reveal_strlit("5");
        reveal_strlit("6");
        reveal_strlit("7");
        reveal_strlit("8");
        reveal_strlit("9");
    }
    let digit: &str = if d == 0 {
        "0"
    } else if d == 1 {
        "1"
    } else if d == 2 {
        "2"
    } else if d == 3 {
        "3"
    } else if d == 4 {
        "4"
    } else if d == 5 {
        "5"
    } else if d == 6 {
        "6"
    } else if d == 7 {
        "7"
    } else if d == 8 {
        "8"
    } else {
        "9"
    };
    s.append(digit);
    assert(s@ =~= old(s)@.push((48 + d) as char));
}

/// Adds a number in decimal digits at the end of a text.
pub(crate) fn append_number(s: &mut String, n: u64)
    ensures
        final(s)@ == old(s)@ + decimal_text(n as nat),
    decreases n,
{
    if n < 10 {
        append_digit(s, n);
    } else {
        append_number(s, n / 10);
        append_digit(s, n % 10);
    }
    assert(s@ =~= old(s)@ + decimal_text(n as nat));
}

pub(crate) fn append_wide(s: &mut String, n: u128)
    ensures
        final(s)@ == old(s)@ + decimal_text(n as nat),
    decreases n,
{
    if n < 10 {
        append_digit(s, n as u64);
    } else {
        append_wide(s, n / 10);
        append_digit(s, (n % 10) as u64);
    }
    assert(s@ =~= old(s)@ + decimal_text(n as nat));
}

/// A number in decimal digits, with its sign where it is negative.
pub open spec fn signed_text(n: i64) -> Seq<char> {
    if n < 0 {
        "-"@ + decimal_text((-n) as nat)
    } else {
        decimal_text(n as nat)
    }
}

pub(crate) fn append_signed(s: &mut String, n: i64)
    ensures
        final(s)@ == old(s)@ + signed_text(n),
{
    if n < 0 {
        s.append("-");
        append_number(s, (-(n as i128)) as u64);
    } else {
        append_number(s, n as u64);
    }
    assert(s@ =~= old(s)@ + signed_text(n));
}

/// The result document of a request that gave an image a new revision.
pub open spec fn revision_document(revision: i64) -> Seq<char> {
    "{\"revision\":"@ + signed_text(revision) + "}"@
}

fn make_revision_document(revision: i64) -> (s: String)
    ensures
        s@ == revision_document(revision),
{
    let mut s: String = "{\"revision\":".to_owned();
    append_signed(&mut s, revision);
    s.append("}");
    assert(s@ =~= revision_document(revision));
    s
}

/// The receipt of a request that gave an image a new revision.
pub open spec fn revision_receipt(
    attempt: Seq<char>,
    digest: Seq<char>,
    kind: Seq<char>,
    identity: catalog_images::IdentityModel,
    owner_document: Seq<char>,
    revision: i64,
) -> catalog_metadata_write::ReceiptModel {
    catalog_metadata_write::ReceiptModel {
        attempt,
        request_digest: digest,
        kind,
        owner: catalog_metadata_write::OwnerModel::Image { identity },
        owner_document,
        result: revision_document(revision),
    }
}

fn make_receipt(
    attempt: &str,
    digest: &str,
    kind: &str,
    identity: &ImageMetadataIdentity,
    owner_document: &str,
    revision: i64,
) -> (receipt: Receipt)
    ensures
        receipt@ == revision_receipt(
            attempt@,
            digest@,
            kind@,
            identity@,
            owner_document@,
            revision,
        ),
{
    Receipt {
        attempt: attempt.to_owned(),
        request_digest: digest.to_owned(),
        kind: kind.to_owned(),
        owner: Owner::Image { identity: identity.copied() },
        owner_document: owner_document.to_owned(),
        result: make_revision_document(revision),
    }
}

/// What a catalog's tables and receipts become when a request is carried out with
/// a receipt.
pub open spec fn with_receipt(
    w: catalog_metadata_write::WritesModel,
    receipt: catalog_metadata_write::ReceiptModel,
) -> Result<catalog_metadata_write::WritesModel, CatalogError> {
    match catalog_metadata_write::receipt_refusal(w, receipt) {
        Some(e) => Err(e),
        None => Ok(
            catalog_metadata_write::WritesModel { receipts: w.receipts.push(receipt), ..w },
        ),
    }
}

impl Catalog {
    /// Publishes a prepared edit together with the receipt of its attempt.
    pub fn commit_prepared_metadata_edit_with_receipt(
        &mut self,
        edit: &PreparedEdit,
        attempt: &str,
        request_digest: &str,
        owner_document: &str,
    ) -> (r: Result<Change, CatalogError>)
        ensures
            final(self).writes_only(*old(self)),
            r is Err ==> *final(self) == *old(self),
            if edit.session != old(self).session {
                r == Err::<Change, CatalogError>(CatalogError::SessionForeign)
            } else {
                match commit_outcome(old(self).tables@, *edit) {
                    Err(e) => r == Err::<Change, CatalogError>(e),
                    Ok((m, change)) => match with_receipt(
                        old(self).writes@,
                        revision_receipt(
                            attempt@,
                            request_digest@,
                            "edit"@,
                            edit.image_identity@,
                            owner_document@,
                            change.revision,
                        ),
                    ) {
                        Err(e) => r == Err::<Change, CatalogError>(e),
                        Ok(w) => r matches Ok(c) && c@ == change && final(self).tables@ == m
                            && final(self).writes@ == w,
                    },
                }
            },
    {
        if edit.session != self.session {
            return Err(CatalogError::SessionForeign);
        }
        let mut tables: Tables = self.tables.copied();
        let change: Change = match commit(&mut tables, edit) {
            Err(e) => return Err(e),
            Ok(change) => change,
        };
        let receipt: Receipt = make_receipt(
            attempt,
            request_digest,
            "edit",
            &edit.image_identity,
            owner_document,
            change.revision,
        );
        match insert(&mut self.writes, receipt) {
            Err(e) => Err(e),
            Ok(()) => {
                self.tables = tables;
                Ok(change)
            },
        }
    }

    /// Chooses a model for a field together with the receipt of its attempt, for
    /// as long as the image's identity is the expected one.
    pub fn resolve_metadata_for_image_with_receipt(
        &mut self,
        expected: &ImageMetadataIdentity,
        field: &str,
        model_id: i64,
        attempt: &str,
        request_digest: &str,
        owner_document: &str,
    ) -> (r: Result<i64, CatalogError>)
        ensures
            final(self).writes_only(*old(self)),
            r is Err ==> *final(self) == *old(self),
            match resolve_with_receipt(
                old(self).tables@,
                old(self).writes@,
                expected@,
                field@,
                model_id,
                attempt@,
                request_digest@,
                owner_document@,
            ) {
                Err(e) => r == Err::<i64, CatalogError>(e),
                Ok((m, w, next)) => r == Ok::<i64, CatalogError>(next) && final(self).tables@ == m
                    && final(self).writes@ == w,
            },
    {
        match existing(&self.writes, attempt, request_digest) {
            Err(e) => return Err(e),
            Ok(Some(_)) => return Err(CatalogError::AttemptTaken),
            Ok(None) => {},
        }
        match require_image_metadata_identity(&self.tables, expected) {
            Err(e) => return Err(e),
            Ok(()) => {},
        }
        let mut tables: Tables = self.tables.copied();
        let next: i64 = match resolve(
            &mut tables,
            expected.image_id.as_str(),
            expected.metadata_revision,
            field,
            model_id,
        ) {
            Err(e) => return Err(e),
            Ok(next) => next,
        };
        let receipt: Receipt = make_receipt(
            attempt,
            request_digest,
            "resolve",
            expected,
            owner_document,
            next,
        );
        match insert(&mut self.writes, receipt) {
            Err(e) => Err(e),
            Ok(()) => {
                self.tables = tables;
                Ok(next)
            },
        }
    }
}

/// What choosing a model together with a receipt gives.
pub open spec fn resolve_with_receipt(
    m: TablesModel,
    w: catalog_metadata_write::WritesModel,
    expected: catalog_images::IdentityModel,
    field: Seq<char>,
    model: i64,
    attempt: Seq<char>,
    digest: Seq<char>,
    owner_document: Seq<char>,
) -> Result<(TablesModel, catalog_metadata_write::WritesModel, i64), CatalogError> {
    match catalog_metadata_write::existing_outcome(w, attempt, digest) {
        Err(e) => Err(e),
        Ok(Some(_)) => Err(CatalogError::AttemptTaken),
        Ok(None) => match m.identity_of(expected.image_id) {
            Err(e) => Err(e),
            Ok(found) => if found != expected {
                Err(CatalogError::IdentityChanged)
            } else {
                match views::resolve_outcome(
                    m,
                    expected.image_id,
                    expected.metadata_revision,
                    field,
                    model,
                ) {
                    Err(e) => Err(e),
                    Ok((after, next)) => match with_receipt(
                        w,
                        revision_receipt(
                            attempt,
                            digest,
                            "resolve"@,
                            expected,
                            owner_document,
                            next,
                        ),
                    ) {
                        Err(e) => Err(e),
                        Ok(kept) => Ok((after, kept, next)),
                    },
                }
            },
        },
    }
}

/// What callers review of a prepared edit before it is published.
pub struct PreparedEditSummary {
    pub identity: ImageMetadataIdentity,
    pub base_model: Option<i64>,
    /// The edits as a document.
    pub edits: String,
    pub before: Vec<PreparedValue>,
    pub after: Vec<PreparedValue>,
    pub packet_bytes: u64,
    pub packet_blake3: String,
}

/// The retained packet of a prepared edit.
pub open spec fn edit_blob(p: prepared::PreparedObservation) -> Option<tables::BlobModel> {
    if p.models.len() == 0 {
        None
    } else {
        match support::first_where(p.blobs, prepared::prepared_blob(p.models[0].hash)) {
            None => None,
            Some(b) => Some(p.blobs[b]),
        }
    }
}

impl PreparedEdit {
    fn find_edit_blob(&self) -> (r: Option<usize>)
        ensures
            match r {
                Some(b) => b < self.prepared.blobs@.len() && self.prepared.models@.len() > 0
                    && edit_blob(self.prepared@) == Some(self.prepared.blobs@[b as int]@),
                None => edit_blob(self.prepared@) is None,
            },
    {
        if self.prepared.models.len() == 0 {
            assert(self.prepared@.models.len() == 0);
            return None;
        }
        let hash: &String = &self.prepared.models[0].hash;
        let test = |b: &tables::BlobRow| -> (r: bool)
            ensures r == prepared::prepared_blob(hash@)(b@)
        {
            same(b.hash.as_str(), hash.as_str())
        };
        let found: Option<usize> = find(
            &self.prepared.blobs,
            test,
            Ghost(prepared::prepared_blob(hash@)),
        );
        proof {
            assert(self.prepared@.models[0] == self.prepared.models@[0]@);
            if let Some(b) = found {
                assert(self.prepared@.blobs[b as int] == self.prepared.blobs@[b as int]@);
            }
        }
        found
    }

    /// What callers review of the edit.
    pub fn summary(&self) -> (r: Result<PreparedEditSummary, CatalogError>)
        ensures
            match edit_blob(self.prepared@) {
                None => r == Err::<PreparedEditSummary, CatalogError>(CatalogError::BlobMissing),
                Some(blob) => if blob.raw_length < 0 {
                    r == Err::<PreparedEditSummary, CatalogError>(CatalogError::BlobSize)
                } else {
                    r matches Ok(s) && s.identity@ == self.image_identity@ && s.base_model
                        == self.base_model && s.edits@ == self.edits@ && support::models(s.before@) == support::models(
                        self.original@,
                    ) && support::models(s.after@) == support::models(self.updated@)
                        && s.packet_bytes == blob.raw_length && s.packet_blake3@ == blob.hash
                },
            },
    {
        let b: usize = match self.find_edit_blob() {
            None => return Err(CatalogError::BlobMissing),
            Some(b) => b,
        };
        let blob = &self.prepared.blobs[b];
        if blob.raw_length < 0 {
            return Err(CatalogError::BlobSize);
        }
        Ok(
            PreparedEditSummary {
                identity: self.image_identity.copied(),
                base_model: self.base_model,
                edits: self.edits.clone(),
                before: copy_rows(&self.original),
                after: copy_rows(&self.updated),
                packet_bytes: blob.raw_length as u64,
                packet_blake3: blob.hash.clone(),
            },
        )
    }

    /// The edited packet.
    pub fn packet(&self) -> (r: Result<Vec<u8>, CatalogError>)
        ensures
            match edit_blob(self.prepared@) {
                None => r == Err::<Vec<u8>, CatalogError>(CatalogError::BlobMissing),
                Some(blob) => if blob.raw_length < 0 || blob.raw_length == i64::MAX {
                    r == Err::<Vec<u8>, CatalogError>(CatalogError::BlobSize)
                } else {
                    match outside::zlib_decoded(blob.compressed, (blob.raw_length + 1) as nat) {
                        None => r == Err::<Vec<u8>, CatalogError>(CatalogError::StreamDamaged),
                        Some((bytes, _)) => if bytes.len() == blob.raw_length
                            && outside::blake3_hex(bytes) == blob.hash {
                            r matches Ok(v) && v@ == bytes
                        } else {
                            r == Err::<Vec<u8>, CatalogError>(CatalogError::BlobChecksum)
                        },
                    }
                },
            },
    {
        let b: usize = match self.find_edit_blob() {
            None => return Err(CatalogError::BlobMissing),
            Some(b) => b,
        };
        let blob = &self.prepared.blobs[b];
        if blob.raw_length < 0 || blob.raw_length == i64::MAX {
            return Err(CatalogError::BlobSize);
        }
        match outside::zlib_decompress(blob.compressed.as_slice(), blob.raw_length as u64 + 1) {
            None => Err(CatalogError::StreamDamaged),
            Some((bytes, _)) => {
                if bytes.len() as u64 == blob.raw_length as u64 && same(
                    blake3_digest(bytes.as_slice()).as_str(),
                    blob.hash.as_str(),
                ) {
                    Ok(bytes)
                } else {
                    Err(CatalogError::BlobChecksum)
                }
            },
        }
    }
}

} // verus!

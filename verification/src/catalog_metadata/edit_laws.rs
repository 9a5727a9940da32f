//! What an edit does, told by its values and the rows: it settles the fields that it changes
//! and no others, and it rests on the revision that it was prepared for.
use crate::catalog_metadata::edit;
use crate::catalog_metadata::edit::{EditRequest, PreparedEdit};
use crate::catalog_metadata::effects;
use crate::catalog_metadata::export_laws;
use crate::catalog_metadata::ownership;
use crate::catalog_metadata::prepared::PreparedValueModel;
use crate::catalog_metadata::reconcile_laws;
use crate::catalog_metadata::store;
use crate::catalog_metadata::views::Field;
use crate::lookups;
use crate::support;
use crate::tables;
use crate::tables::TablesModel;
use vstd::prelude::*;

verus! {

/// Some values hold a value for a field, with a meaning; the first of them counts.
pub open spec fn holds(
    values: Seq<PreparedValueModel>,
    field: Seq<char>,
    value: Seq<char>,
    meaning: Option<Seq<char>>,
) -> bool {
    exists|i: int|
        {
            &&& 0 <= i < values.len()
            &&& (#[trigger] values[i]).field == field
            &&& values[i].value == value
            &&& values[i].semantic_hash == meaning
            &&& forall|j: int| 0 <= j < i ==> (#[trigger] values[j]).field != field
        }
}

proof fn lemma_holds(values: Seq<PreparedValueModel>, v: PreparedValueModel)
    ensures
        holds(values, v.field, v.value, v.semantic_hash) <==> (edit::value_in(values, v.field) matches Some(
            b,
        ) && b.value == v.value && b.semantic_hash == v.semantic_hash),
{
    let p = edit::value_named(v.field);
    support::lemma_first_where(values, p);
    match support::first_where(values, p) {
        None => {
            assert forall|i: int| 0 <= i < values.len() implies (#[trigger] values[i]).field
                != v.field by {
                assert(!p(values[i]));
            }
        },
        Some(k) => {
            assert forall|j: int| 0 <= j < k implies (#[trigger] values[j]).field != v.field by {
                assert(!p(values[j]));
            }
            assert(values[k].field == v.field);
            if holds(values, v.field, v.value, v.semantic_hash) {
                let i = choose|i: int|
                    {
                        &&& 0 <= i < values.len()
                        &&& (#[trigger] values[i]).field == v.field
                        &&& values[i].value == v.value
                        &&& values[i].semantic_hash == v.semantic_hash
                        &&& forall|j: int| 0 <= j < i ==> (#[trigger] values[j]).field != v.field
                    };
                assert(i == k);
            }
        },
    }
}

/// A field is among those that an edit organizes by.
pub open spec fn organizes_by(e: PreparedEdit, field: Seq<char>) -> bool {
    exists|i: int|
        0 <= i < e.organization_fields@.len() && (#[trigger] e.organization_fields@[i])@ == field
}

proof fn lemma_organizes(e: PreparedEdit, field: Seq<char>)
    ensures
        organizes_by(e, field) <==> edit::texts(e.organization_fields@).contains(field),
{
    let names = edit::texts(e.organization_fields@);
    if organizes_by(e, field) {
        let i = choose|i: int|
            0 <= i < e.organization_fields@.len() && (#[trigger] e.organization_fields@[i])@ == field;
        assert(names[i] == field);
    }
    if names.contains(field) {
        let i = choose|i: int| 0 <= i < names.len() && names[i] == field;
        assert(e.organization_fields@[i]@ == field);
    }
}

proof fn lemma_put(choices: Seq<tables::ChoiceModel>, image: Seq<char>, field: Seq<char>, model: i64)
    ensures
        ({
            let row = tables::ChoiceModel { image_id: image, field, model_id: model };
            let after = support::put(choices, lookups::choice_for(image, field), row);
            &&& exists|i: int| 0 <= i < after.len() && #[trigger] after[i] == row
            &&& forall|i: int|
                0 <= i < after.len() ==> #[trigger] after[i] == row || exists|j: int|
                    0 <= j < choices.len() && #[trigger] choices[j] == after[i]
            &&& forall|j: int|
                0 <= j < choices.len() && ((#[trigger] choices[j]).image_id != image
                    || choices[j].field != field) ==> exists|i: int|
                    0 <= i < after.len() && #[trigger] after[i] == choices[j]
        }),
{
    let row = tables::ChoiceModel { image_id: image, field, model_id: model };
    let p = lookups::choice_for(image, field);
    let after = support::put(choices, p, row);
    support::lemma_first_where(choices, p);
    match support::first_where(choices, p) {
        Some(k) => {
            assert(after[k] == row);
            assert forall|i: int| 0 <= i < after.len() implies #[trigger] after[i] == row || exists|
                j: int,
            |
                0 <= j < choices.len() && #[trigger] choices[j] == after[i] by {
                if i != k {
                    assert(choices[i] == after[i]);
                }
            }
            assert forall|j: int|
                0 <= j < choices.len() && ((#[trigger] choices[j]).image_id != image
                    || choices[j].field != field) implies exists|i: int|
                0 <= i < after.len() && #[trigger] after[i] == choices[j] by {
                assert(after[j] == choices[j]);
            }
        },
        None => {
            assert(after[choices.len() as int] == row);
            assert forall|i: int| 0 <= i < after.len() implies #[trigger] after[i] == row || exists|
                j: int,
            |
                0 <= j < choices.len() && #[trigger] choices[j] == after[i] by {
                if i < choices.len() {
                    assert(choices[i] == after[i]);
                }
            }
            assert forall|j: int|
                0 <= j < choices.len() && ((#[trigger] choices[j]).image_id != image
                    || choices[j].field != field) implies exists|i: int|
                0 <= i < after.len() && #[trigger] after[i] == choices[j] by {
                assert(after[j] == choices[j]);
            }
        },
    }
}

/// Every choice after the first `n` values of an edit was there before, or is of the edit's model
/// for one of these values that the edit chooses; and those of fields that it does not choose
/// are still there.
proof fn lemma_chosen(m: TablesModel, after: TablesModel, e: PreparedEdit, model: i64, n: nat)
    requires
        n <= e.updated@.len(),
    ensures
        ({
            let chosen = edit::edit_chosen(m, after, e, model, n).choices;
            let image = e.image_identity.image_id@;
            &&& forall|i: int|
                0 <= i < chosen.len() ==> was_there(after.choices, #[trigger] chosen[i]) || (
                chosen[i].image_id == image && chosen[i].model_id == model && exists|k: int|
                    0 <= k < n && chosen[i].field == (#[trigger] e.updated@[k])@.field
                        && edit::edit_chooses(m, e, e.updated@[k]@))
            &&& forall|j: int|
                0 <= j < after.choices.len() && ((#[trigger] after.choices[j]).image_id != image
                    || forall|k: int|
                    0 <= k < n && after.choices[j].field == (#[trigger] e.updated@[k])@.field
                        ==> !edit::edit_chooses(m, e, e.updated@[k]@)) ==> was_there(
                    chosen,
                    after.choices[j],
                )
        }),
    decreases n,
{
    let image = e.image_identity.image_id@;
    let chosen = edit::edit_chosen(m, after, e, model, n).choices;
    if n == 0 {
        assert forall|i: int| 0 <= i < chosen.len() implies was_there(
            after.choices,
            #[trigger] chosen[i],
        ) by {
            assert(after.choices[i] == chosen[i]);
        }
        assert forall|j: int| 0 <= j < after.choices.len() implies was_there(
            chosen,
            #[trigger] after.choices[j],
        ) by {
            assert(chosen[j] == after.choices[j]);
        }
    } else {
        lemma_chosen(m, after, e, model, (n - 1) as nat);
        let before = edit::edit_chosen(m, after, e, model, (n - 1) as nat).choices;
        let v = e.updated@[n - 1]@;
        if edit::edit_chooses(m, e, v) {
            lemma_put(before, image, v.field, model);
            assert forall|i: int| 0 <= i < chosen.len() implies was_there(
                after.choices,
                #[trigger] chosen[i],
            ) || (chosen[i].image_id == image && chosen[i].model_id == model && exists|k: int|
                0 <= k < n && chosen[i].field == (#[trigger] e.updated@[k])@.field
                    && edit::edit_chooses(m, e, e.updated@[k]@)) by {
                let row = tables::ChoiceModel { image_id: image, field: v.field, model_id: model };
                if chosen[i] == row {
                    assert(chosen[i].field == e.updated@[n - 1]@.field);
                } else {
                    let j = choose|j: int| 0 <= j < before.len() && #[trigger] before[j] == chosen[i];
                    assert(was_there(after.choices, before[j]) || exists|k: int|
                        0 <= k < n - 1 && before[j].field == (#[trigger] e.updated@[k])@.field
                            && edit::edit_chooses(m, e, e.updated@[k]@));
                }
            }
            assert forall|j: int|
                0 <= j < after.choices.len() && ((#[trigger] after.choices[j]).image_id != image
                    || forall|k: int|
                    0 <= k < n && after.choices[j].field == (#[trigger] e.updated@[k])@.field
                        ==> !edit::edit_chooses(m, e, e.updated@[k]@)) implies was_there(
                chosen,
                after.choices[j],
            ) by {
                let row = after.choices[j];
                assert(was_there(before, row));
                let b = choose|b: int| 0 <= b < before.len() && #[trigger] before[b] == row;
                if row.image_id == image {
                    assert(row.field != e.updated@[n - 1]@.field);
                }
                assert(before[b].image_id != image || before[b].field != v.field);
            }
        }
    }
}

/// A choice is among some choices.
pub open spec fn was_there(choices: Seq<tables::ChoiceModel>, row: tables::ChoiceModel) -> bool {
    exists|i: int| 0 <= i < choices.len() && #[trigger] choices[i] == row
}

proof fn lemma_stored_choices(m: TablesModel, e: PreparedEdit)
    requires
        edit::commit_outcome(m, e) is Ok,
    ensures
        ({
            let image = e.image_identity.image_id@;
            let (after, change) = edit::commit_outcome(m, e)->Ok_0;
            let (stored, oid, _) = store::store_outcome(m, image, e.source@, e.prepared@)->Ok_0;
            &&& stored.choices == m.choices
            &&& after.choices == edit::edit_chosen(
                m,
                stored,
                e,
                change.model_ids[0],
                e.updated@.len(),
            ).choices
        }),
{
    let image = e.image_identity.image_id@;
    let (stored, oid, _) = store::store_outcome(m, image, e.source@, e.prepared@)->Ok_0;
    ownership::lemma_store_choices(m, image, e.source@, e.prepared@);
}

/// An edit does not settle what it leaves as it was: where the edit does not organize by a field,
/// the packet holds the field after it with the value and the meaning that it had before it, and
/// nothing was chosen for it, nothing is chosen for it by the edit either.
pub proof fn law_untouched_fields_are_not_chosen(m: TablesModel, e: PreparedEdit, field: Seq<char>)
    requires
        edit::commit_outcome(m, e) is Ok,
        !organizes_by(e, field),
        reconcile_laws::unchosen(m, e.image_identity.image_id@, field),
        forall|k: int|
            0 <= k < e.updated@.len() && (#[trigger] e.updated@[k])@.field == field ==> holds(
                support::models(e.original@),
                field,
                e.updated@[k]@.value,
                e.updated@[k]@.semantic_hash,
            ),
    ensures
        reconcile_laws::unchosen(
            edit::commit_outcome(m, e)->Ok_0.0,
            e.image_identity.image_id@,
            field,
        ),
{
    let image = e.image_identity.image_id@;
    let (after, change) = edit::commit_outcome(m, e)->Ok_0;
    let stored = store::store_outcome(m, image, e.source@, e.prepared@)->Ok_0.0;
    lemma_stored_choices(m, e);
    lemma_chosen(m, stored, e, change.model_ids[0], e.updated@.len());
    lemma_organizes(e, field);
    assert(m.choice_at(image, field) is None) by {
        support::lemma_first_where(m.choices, lookups::choice_for(image, field));
    }
    assert forall|k: int| 0 <= k < e.updated@.len() && (#[trigger] e.updated@[k])@.field == field implies !edit::edit_chooses(
    m, e, e.updated@[k]@) by {
        lemma_holds(support::models(e.original@), e.updated@[k]@);
    }
}

/// What an edit changes it settles: where it organizes by a field, or the packet holds the field
/// after it with another value or meaning than before it or did not hold it then, the edit's
/// own model is what is chosen for the field afterwards.
pub proof fn law_changed_fields_are_chosen(m: TablesModel, e: PreparedEdit, i: int)
    requires
        edit::commit_outcome(m, e) is Ok,
        0 <= i < e.updated@.len(),
        organizes_by(e, e.updated@[i]@.field) || !holds(
            support::models(e.original@),
            e.updated@[i]@.field,
            e.updated@[i]@.value,
            e.updated@[i]@.semantic_hash,
        ),
    ensures
        ({
            let (after, change) = edit::commit_outcome(m, e)->Ok_0;
            reconcile_laws::chose(
                after,
                e.image_identity.image_id@,
                e.updated@[i]@.field,
                change.model_ids[0],
            )
        }),
{
    let image = e.image_identity.image_id@;
    let v = e.updated@[i]@;
    let (after, change) = edit::commit_outcome(m, e)->Ok_0;
    let stored = store::store_outcome(m, image, e.source@, e.prepared@)->Ok_0.0;
    lemma_organizes(e, v.field);
    lemma_holds(support::models(e.original@), v);
    lemma_stored_choices(m, e);
    effects::lemma_edit_choice(
        m,
        stored,
        e,
        change.model_ids[0],
        e.updated@.len(),
        i,
    );
    let p = lookups::choice_for(image, v.field);
    support::lemma_first_where(after.choices, p);
    let c = support::first_where(after.choices, p)->0;
    assert(after.choices[c].field == v.field);
}

/// What was chosen before stays chosen wherever an edit does not touch it: for every other image,
/// and for every field of the image that the edit does not hold.
pub proof fn law_other_choices_stand(m: TablesModel, e: PreparedEdit, j: int)
    requires
        edit::commit_outcome(m, e) is Ok,
        0 <= j < m.choices.len(),
        m.choices[j].image_id != e.image_identity.image_id@ || forall|k: int|
            0 <= k < e.updated@.len() ==> (#[trigger] e.updated@[k])@.field != m.choices[j].field,
    ensures
        was_there(edit::commit_outcome(m, e)->Ok_0.0.choices, m.choices[j]),
{
    let (after, change) = edit::commit_outcome(m, e)->Ok_0;
    let stored = store::store_outcome(
        m,
        e.image_identity.image_id@,
        e.source@,
        e.prepared@,
    )->Ok_0.0;
    lemma_stored_choices(m, e);
    lemma_chosen(m, stored, e, change.model_ids[0], e.updated@.len());
    assert(stored.choices[j] == m.choices[j]);
}

/// An edit is published only on what it was prepared for: the image is at the expected revision,
/// and the identity that the edit rests on is the image's in every part. The image's revision goes
/// on by one.
pub proof fn law_edits_rest_on_their_revision(m: TablesModel, e: PreparedEdit)
    requires
        edit::commit_outcome(m, e) is Ok,
    ensures
        ({
            let (after, change) = edit::commit_outcome(m, e)->Ok_0;
            let image = e.image_identity.image_id@;
            &&& export_laws::records_revision(m, image, e.expected_revision)
            &&& export_laws::records_revision(m, image, e.image_identity.metadata_revision)
            &&& export_laws::is_identity(m, e.image_identity@)
            &&& change.revision == e.expected_revision + 1
            &&& export_laws::records_revision(after, image, change.revision)
        }),
{
    let image = e.image_identity.image_id@;
    let (after, change) = edit::commit_outcome(m, e)->Ok_0;
    export_laws::lemma_recorded(m, image, e.expected_revision);
    export_laws::lemma_recorded(m, image, e.image_identity.metadata_revision);
    export_laws::lemma_identity(m, e.image_identity@);
    export_laws::lemma_recorded(after, image, change.revision);
    let (stored, oid, _) = store::store_outcome(m, image, e.source@, e.prepared@)->Ok_0;
    ownership::lemma_store_choices(m, image, e.source@, e.prepared@);
    ownership::lemma_edit_kept(m, stored, e, store::models_of(stored, oid)[0], e.updated@.len());
    let row = tables::RevisionModel { image_id: image, revision: change.revision };
    support::lemma_first_where(m.revisions, lookups::revision_for(image));
    match m.revision_at(image) {
        Some(k) => support::lemma_first_found(
            m.revisions.update(k, row),
            lookups::revision_for(image),
            k,
        ),
        None => support::lemma_pushed(
            m.revisions,
            m.revisions.push(row),
            lookups::revision_for(image),
        ),
    }
}

/// An edit cannot be prepared on another revision than the image's, nor organize by anything but
/// the rating, the label and the keywords.
pub proof fn law_edits_are_prepared_on_what_is_shown(m: TablesModel, r: EditRequest, fields: Seq<Field>)
    requires
        edit::edit_refusal(m, r, fields) is None,
    ensures
        export_laws::records_revision(m, r.image@, r.expected_revision),
        forall|i: int|
            0 <= i < r.organization_fields@.len() ==> {
                let name = (#[trigger] r.organization_fields@[i])@;
                name == "rating"@ || name == "label"@ || name == "keywords"@ || name
                    == "hierarchical_keywords"@
            },
{
    export_laws::lemma_recorded(m, r.image@, r.expected_revision);
    assert forall|i: int| 0 <= i < r.organization_fields@.len() implies {
        let name = (#[trigger] r.organization_fields@[i])@;
        name == "rating"@ || name == "label"@ || name == "keywords"@ || name
            == "hierarchical_keywords"@
    } by {
        assert(edit::organization_field(edit::texts(r.organization_fields@)[i]));
    }
}

/// Some values hold a field.
pub open spec fn names(values: Seq<PreparedValueModel>, field: Seq<char>) -> bool {
    exists|i: int| 0 <= i < values.len() && (#[trigger] values[i]).field == field
}

/// Some values hold a value for a field.
pub open spec fn gives(values: Seq<PreparedValueModel>, field: Seq<char>, value: Seq<char>) -> bool {
    exists|i: int|
        0 <= i < values.len() && (#[trigger] values[i]).field == field && values[i].value == value
}

proof fn lemma_placed(
    values: Seq<PreparedValueModel>,
    v: PreparedValueModel,
    field: Seq<char>,
    value: Seq<char>,
)
    ensures
        gives(edit::placed(values, v), field, value) <==> gives(values, field, value) || (v.field
            == field && v.value == value),
        names(edit::placed(values, v), field) <==> names(values, field) || v.field == field,
{
    let p = edit::named_after(v.field);
    let after = edit::placed(values, v);
    support::lemma_first_where(values, p);
    let at = match support::first_where(values, p) {
        None => values.len() as int,
        Some(i) => i,
    };
    assert(after =~= values.insert(at, v));
    assert(after[at] == v);
    assert forall|i: int| 0 <= i < at implies after[i] == #[trigger] values[i] by {}
    assert forall|i: int| at <= i < values.len() implies after[i + 1] == #[trigger] values[i] by {}
    assert forall|i: int| 0 <= i < after.len() && i != at implies exists|j: int|
        0 <= j < values.len() && #[trigger] values[j] == #[trigger] after[i] by {
        if i < at {
            assert(values[i] == after[i]);
        } else {
            assert(values[i - 1] == after[i]);
        }
    }
}

proof fn lemma_removals(
    given: Seq<PreparedValueModel>,
    original: Seq<PreparedValueModel>,
    n: nat,
    field: Seq<char>,
    value: Seq<char>,
)
    requires
        n <= original.len(),
    ensures
        ({
            let after = edit::with_removals(given, original, n);
            &&& gives(given, field, value) ==> gives(after, field, value)
            &&& names(given, field) ==> names(after, field)
            &&& gives(after, field, value) ==> gives(given, field, value) || (value == "null"@
                && names(original, field) && !names(given, field))
            &&& names(after, field) ==> names(given, field) || names(original, field)
            &&& names(original.take(n as int), field) ==> names(after, field)
        }),
    decreases n,
{
    let after = edit::with_removals(given, original, n);
    if n == 0 {
        assert(after.len() == given.len());
        assert forall|i: int| 0 <= i < given.len() implies (#[trigger] after[i]).field
            == given[i].field && after[i].value == given[i].value by {}
        if gives(given, field, value) {
            let i = choose|i: int|
                0 <= i < given.len() && (#[trigger] given[i]).field == field && given[i].value
                    == value;
            assert(after[i].field == field);
        }
        if names(given, field) {
            let i = choose|i: int| 0 <= i < given.len() && (#[trigger] given[i]).field == field;
            assert(after[i].field == field);
        }
        if gives(after, field, value) {
            let i = choose|i: int|
                0 <= i < after.len() && (#[trigger] after[i]).field == field && after[i].value
                    == value;
            assert(given[i].field == field);
        }
        if names(after, field) {
            let i = choose|i: int| 0 <= i < after.len() && (#[trigger] after[i]).field == field;
            assert(given[i].field == field);
        }
    } else {
        lemma_removals(given, original, (n - 1) as nat, field, value);
        let before = edit::with_removals(given, original, (n - 1) as nat);
        let last = original[n - 1].field;
        let p = edit::value_named(last);
        support::lemma_first_where(before, p);
        let missing = edit::value_in(before, last) is None;
        assert(missing <==> !names(before, last)) by {
            if missing && names(before, last) {
                let i = choose|i: int| 0 <= i < before.len() && (#[trigger] before[i]).field == last;
                assert(!p(before[i]));
            }
            if !missing {
                let i = support::first_where(before, p)->0;
                assert(before[i].field == last);
            }
        }
        if missing {
            lemma_placed(before, edit::removal(last), field, value);
        }
        if names(original.take(n as int), field) {
            let k = choose|k: int|
                0 <= k < n && (#[trigger] original.take(n as int)[k]).field == field;
            if k < n - 1 {
                assert(original.take(n - 1)[k].field == field);
            }
        }
        assert(original[n - 1].field == last);
    }
}

/// What an edit leaves is what it gives, and a removal of every field that was there before and
/// that it does not give any more; nothing else.
pub proof fn law_edits_give_or_remove(
    m: TablesModel,
    r: EditRequest,
    field: Seq<char>,
    value: Seq<char>,
)
    ensures
        ({
            let given = support::models(r.updated.fields@);
            let original = edit::edit_original(m, r);
            let left = edit::edit_updated(m, r);
            &&& names(left, field) <==> names(given, field) || names(original, field)
            &&& names(given, field) ==> (gives(left, field, value) <==> gives(given, field, value))
            &&& !names(given, field) && gives(left, field, value) ==> value == "null"@
        }),
{
    let given = support::models(r.updated.fields@);
    let original = edit::edit_original(m, r);
    lemma_removals(given, original, original.len(), field, value);
    assert(original.take(original.len() as int) =~= original);
    if gives(given, field, value) {
        let i = choose|i: int|
            0 <= i < given.len() && (#[trigger] given[i]).field == field && given[i].value == value;
        assert(names(given, field));
    }
}

/// A model is of the image's own edits: the image uses the observation that it is of, which is of
/// a source that the catalog keeps for the image under a locator, and the model gives the field
/// a meaning.
pub open spec fn is_own_edit(
    m: TablesModel,
    image: Seq<char>,
    field: Seq<char>,
    model: i64,
    locator: Seq<u8>,
    meaning: Seq<char>,
) -> bool {
    exists|v: int, k: int, o: int, s: int, a: int|
        #[trigger] is_edit_at(m, image, field, model, locator, meaning, v, k, o, s, a)
}

/// The rows by which a model is of the image's own edits.
pub open spec fn is_edit_at(
    m: TablesModel,
    image: Seq<char>,
    field: Seq<char>,
    model: i64,
    locator: Seq<u8>,
    meaning: Seq<char>,
    v: int,
    k: int,
    o: int,
    s: int,
    a: int,
) -> bool {
    &&& 0 <= v < m.values.len()
    &&& 0 <= k < m.models.len()
    &&& 0 <= o < m.observations.len()
    &&& 0 <= s < m.sources.len()
    &&& 0 <= a < m.image_sources.len()
    &&& m.values[v].model_id == model
    &&& m.values[v].field == field
    &&& m.values[v].semantic_hash == meaning
    &&& m.models[k].id == model
    &&& m.models[k].observation_id == m.observations[o].id
    &&& m.observations[o].source_id == m.sources[s].id
    &&& m.sources[s].kind == "catalog"@
    &&& m.image_sources[a].image_id == image
    &&& m.image_sources[a].source_id == m.sources[s].id
    &&& m.image_sources[a].logical_locator == locator
    &&& m.image_sources[a].current_observation == Some(m.observations[o].id)
}

proof fn lemma_own_edit(
    m: TablesModel,
    image: Seq<char>,
    field: Seq<char>,
    model: i64,
    locator: Seq<u8>,
    meaning: Seq<char>,
)
    requires
        reconcile_laws::rows_keyed(m),
        m.choice_at(image, field) matches Some(c) && m.choices[c].model_id == model,
    ensures
        edit::previous_meaning(m, image, field, locator) == Some(meaning) <==> is_own_edit(
            m,
            image,
            field,
            model,
            locator,
            meaning,
        ),
{
    let vq = lookups::value_for(model, field);
    let kq = lookups::model_with_id(model);
    support::lemma_first_where(m.values, vq);
    support::lemma_first_where(m.models, kq);
    if edit::previous_meaning(m, image, field, locator) == Some(meaning) {
        let v = m.value_at(model, field)->Some_0;
        let k = m.model_at(model)->Some_0;
        let oid = m.models[k].observation_id;
        support::lemma_first_where(m.observations, lookups::observation_with_id(oid));
        let o = m.observation_at(oid)->Some_0;
        let sid = m.observations[o].source_id;
        support::lemma_first_where(m.sources, lookups::source_with_id(sid));
        support::lemma_first_where(m.image_sources, lookups::image_source_for(image, sid));
        let s = m.source_at(sid)->Some_0;
        let a = m.image_source_at(image, sid)->Some_0;
        assert(is_edit_at(m, image, field, model, locator, meaning, v, k, o, s, a));
    }
    if is_own_edit(m, image, field, model, locator, meaning) {
        let (v, k, o, s, a) = choose|v: int, k: int, o: int, s: int, a: int|
            #[trigger] is_edit_at(m, image, field, model, locator, meaning, v, k, o, s, a);
        assert forall|j: int| 0 <= j < m.values.len() && j != v implies !vq(#[trigger] m.values[j]) by {
            if j < v {
                assert(m.values[j].model_id == m.values[v].model_id ==> m.values[j].field
                    != m.values[v].field);
            } else {
                assert(m.values[v].model_id == m.values[j].model_id ==> m.values[v].field
                    != m.values[j].field);
            }
        }
        reconcile_laws::lemma_only(m.values, vq, v);
        assert forall|j: int| 0 <= j < m.models.len() && j != k implies !kq(#[trigger] m.models[j]) by {
            if j < k {
                assert(m.models[j].id != m.models[k].id);
            } else {
                assert(m.models[k].id != m.models[j].id);
            }
        }
        reconcile_laws::lemma_only(m.models, kq, k);
        let oq = lookups::observation_with_id(m.observations[o].id);
        assert forall|j: int| 0 <= j < m.observations.len() && j != o implies !oq(
            #[trigger] m.observations[j],
        ) by {
            if j < o {
                assert(m.observations[j].id != m.observations[o].id);
            } else {
                assert(m.observations[o].id != m.observations[j].id);
            }
        }
        reconcile_laws::lemma_only(m.observations, oq, o);
        let sq = lookups::source_with_id(m.sources[s].id);
        assert forall|j: int| 0 <= j < m.sources.len() && j != s implies !sq(#[trigger] m.sources[j]) by {
            if j < s {
                assert(m.sources[j].id != m.sources[s].id);
            } else {
                assert(m.sources[s].id != m.sources[j].id);
            }
        }
        reconcile_laws::lemma_only(m.sources, sq, s);
        let aq = lookups::image_source_for(image, m.sources[s].id);
        assert forall|j: int| 0 <= j < m.image_sources.len() && j != a implies !aq(
            #[trigger] m.image_sources[j],
        ) by {
            if j < a {
                assert(m.image_sources[j].image_id == m.image_sources[a].image_id
                    ==> m.image_sources[j].source_id != m.image_sources[a].source_id);
            } else {
                assert(m.image_sources[a].image_id == m.image_sources[j].image_id
                    ==> m.image_sources[a].source_id != m.image_sources[j].source_id);
            }
        }
        reconcile_laws::lemma_only(m.image_sources, aq, a);
    }
}

proof fn lemma_choice(m: TablesModel, j: int)
    requires
        reconcile_laws::rows_keyed(m),
        0 <= j < m.choices.len(),
    ensures
        m.choice_at(m.choices[j].image_id, m.choices[j].field) == Some(j),
{
    let q = lookups::choice_for(m.choices[j].image_id, m.choices[j].field);
    assert forall|i: int| 0 <= i < m.choices.len() && i != j implies !q(#[trigger] m.choices[i]) by {
        if i < j {
            assert(m.choices[i].image_id == m.choices[j].image_id ==> m.choices[i].field
                != m.choices[j].field);
        } else {
            assert(m.choices[j].image_id == m.choices[i].image_id ==> m.choices[j].field
                != m.choices[i].field);
        }
    }
    reconcile_laws::lemma_only(m.choices, q, j);
}

/// What the image's own earlier edit settled stays settled by its edits: where the edit's model
/// gives a field the meaning that the chosen model of the earlier edit gives it, the new
/// edit's model is chosen for it.
pub proof fn law_own_edits_are_carried_on(m: TablesModel, e: PreparedEdit, i: int, j: int, meaning: Seq<char>)
    requires
        reconcile_laws::rows_keyed(m),
        edit::commit_outcome(m, e) is Ok,
        0 <= i < e.updated@.len(),
        e.updated@[i]@.semantic_hash == Some(meaning),
        0 <= j < m.choices.len(),
        m.choices[j].image_id == e.image_identity.image_id@,
        m.choices[j].field == e.updated@[i]@.field,
        is_own_edit(
            m,
            m.choices[j].image_id,
            m.choices[j].field,
            m.choices[j].model_id,
            e.source.locator@,
            meaning,
        ),
    ensures
        ({
            let (after, change) = edit::commit_outcome(m, e)->Ok_0;
            reconcile_laws::chose(
                after,
                e.image_identity.image_id@,
                e.updated@[i]@.field,
                change.model_ids[0],
            )
        }),
{
    let image = e.image_identity.image_id@;
    let v = e.updated@[i]@;
    let (after, change) = edit::commit_outcome(m, e)->Ok_0;
    let stored = store::store_outcome(m, image, e.source@, e.prepared@)->Ok_0.0;
    lemma_choice(m, j);
    lemma_own_edit(m, image, v.field, m.choices[j].model_id, e.source.locator@, meaning);
    assert(edit::edit_chooses(m, e, v));
    lemma_stored_choices(m, e);
    effects::lemma_edit_choice(m, stored, e, change.model_ids[0], e.updated@.len(), i);
    let p = lookups::choice_for(image, v.field);
    support::lemma_first_where(after.choices, p);
    let c = support::first_where(after.choices, p)->0;
    assert(after.choices[c].field == v.field);
}

/// What was chosen otherwise than by the image's own edits stands, where an edit leaves the field
/// as it was and does not organize by it.
pub proof fn law_untouched_choices_stand(m: TablesModel, e: PreparedEdit, j: int)
    requires
        reconcile_laws::rows_keyed(m),
        edit::commit_outcome(m, e) is Ok,
        0 <= j < m.choices.len(),
        m.choices[j].image_id == e.image_identity.image_id@,
        !organizes_by(e, m.choices[j].field),
        forall|k: int|
            0 <= k < e.updated@.len() && (#[trigger] e.updated@[k])@.field == m.choices[j].field
                ==> holds(
                support::models(e.original@),
                m.choices[j].field,
                e.updated@[k]@.value,
                e.updated@[k]@.semantic_hash,
            ) && (e.updated@[k]@.semantic_hash matches Some(h) ==> !is_own_edit(
                m,
                m.choices[j].image_id,
                m.choices[j].field,
                m.choices[j].model_id,
                e.source.locator@,
                h,
            )),
    ensures
        was_there(edit::commit_outcome(m, e)->Ok_0.0.choices, m.choices[j]),
{
    let image = e.image_identity.image_id@;
    let field = m.choices[j].field;
    let (after, change) = edit::commit_outcome(m, e)->Ok_0;
    let stored = store::store_outcome(m, image, e.source@, e.prepared@)->Ok_0.0;
    lemma_stored_choices(m, e);
    lemma_chosen(m, stored, e, change.model_ids[0], e.updated@.len());
    lemma_organizes(e, field);
    lemma_choice(m, j);
    assert forall|k: int| 0 <= k < e.updated@.len() && (#[trigger] e.updated@[k])@.field == field implies !edit::edit_chooses(
    m, e, e.updated@[k]@) by {
        lemma_holds(support::models(e.original@), e.updated@[k]@);
        if let Some(h) = e.updated@[k]@.semantic_hash {
            lemma_own_edit(m, image, field, m.choices[j].model_id, e.source.locator@, h);
        }
    }
    assert(stored.choices[j] == m.choices[j]);
}

/// An edit of what only organizes images leaves the pixels as they are, and any other edit counts
/// as a change of them. The change is recorded with what was edited.
pub proof fn law_edits_that_organize_keep_the_pixels(m: TablesModel, e: PreparedEdit, i: int)
    requires
        edit::commit_outcome(m, e) is Ok,
        0 <= i < m.images.len(),
        m.images[i].id == e.image_identity.image_id@,
        forall|j: int|
            0 <= j < m.images.len() && j != i ==> (#[trigger] m.images[j]).id != m.images[i].id,
    ensures
        ({
            let (after, change) = edit::commit_outcome(m, e)->Ok_0;
            &&& after.images.len() == m.images.len()
            &&& after.images[i].pixel_generation == m.images[i].pixel_generation + (
            if e.organization_fields@.len() == 0 {
                1int
            } else {
                0
            })
            &&& forall|j: int|
                0 <= j < m.images.len() && j != i ==> #[trigger] after.images[j] == m.images[j]
            &&& after.history.last().image_id == e.image_identity.image_id@
            &&& after.history.last().revision == change.revision
            &&& after.history.last().action == "edit"@
            &&& after.history.last().detail == (tables::DetailModel::Edited {
                base_model: e.base_model,
                observation_id: change.observation_id,
                edits: e.edits@,
            })
        }),
{
    let image = e.image_identity.image_id@;
    let (stored, oid, _) = store::store_outcome(m, image, e.source@, e.prepared@)->Ok_0;
    ownership::lemma_store_choices(m, image, e.source@, e.prepared@);
    ownership::lemma_edit_kept(m, stored, e, store::models_of(stored, oid)[0], e.updated@.len());
    let q = lookups::image_with_id(image);
    assert forall|j: int| 0 <= j < m.images.len() && j != i implies !q(#[trigger] m.images[j]) by {}
    reconcile_laws::lemma_only(m.images, q, i);
}

} // verus!

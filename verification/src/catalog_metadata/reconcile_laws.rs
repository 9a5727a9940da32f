//! How the values of an image's sources are reconciled, told by the rows: what the current
//! observations of its sources offer, what was chosen, and what is then in effect.
use crate::catalog_metadata;
use crate::catalog_metadata::CandidateModel;
use crate::lookups;
use crate::support;
use crate::tables;
use crate::tables::TablesModel;
use vstd::prelude::*;

verus! {

/// Rows have keys of their own: no two sources, observations or models have one number, no two
/// values are of one field of a model, no two rows are of one image's use of a source or of one
/// image's choice for a field, and an image has one revision.
pub open spec fn rows_keyed(m: TablesModel) -> bool {
    &&& forall|i: int, j: int|
        0 <= i < j < m.sources.len() ==> (#[trigger] m.sources[i]).id != (#[trigger] m.sources[j]).id
    &&& forall|i: int, j: int|
        0 <= i < j < m.observations.len() ==> (#[trigger] m.observations[i]).id != (
        #[trigger] m.observations[j]).id
    &&& forall|i: int, j: int|
        0 <= i < j < m.models.len() ==> (#[trigger] m.models[i]).id != (#[trigger] m.models[j]).id
    &&& forall|i: int, j: int|
        0 <= i < j < m.values.len() && (#[trigger] m.values[i]).model_id == (
        #[trigger] m.values[j]).model_id ==> m.values[i].field != m.values[j].field
    &&& forall|i: int, j: int|
        0 <= i < j < m.image_sources.len() && (#[trigger] m.image_sources[i]).image_id == (
        #[trigger] m.image_sources[j]).image_id ==> m.image_sources[i].source_id
            != m.image_sources[j].source_id
    &&& forall|i: int, j: int|
        0 <= i < j < m.choices.len() && (#[trigger] m.choices[i]).image_id == (
        #[trigger] m.choices[j]).image_id ==> m.choices[i].field != m.choices[j].field
    &&& forall|i: int, j: int|
        0 <= i < j < m.revisions.len() ==> (#[trigger] m.revisions[i]).image_id != (
        #[trigger] m.revisions[j]).image_id
}

/// A model offers a value for a field of an image: the image uses a source, the observation
/// that it uses is there, the model is of that observation, and the value is the model's for
/// the field.
pub open spec fn offers(
    m: TablesModel,
    image: Seq<char>,
    field: Seq<char>,
    s: int,
    a: int,
    o: int,
    k: int,
    v: int,
) -> bool {
    &&& 0 <= s < m.sources.len()
    &&& 0 <= a < m.image_sources.len()
    &&& 0 <= o < m.observations.len()
    &&& 0 <= k < m.models.len()
    &&& 0 <= v < m.values.len()
    &&& m.image_sources[a].image_id == image
    &&& m.image_sources[a].source_id == m.sources[s].id
    &&& m.image_sources[a].current_observation == Some(m.observations[o].id)
    &&& m.models[k].observation_id == m.observations[o].id
    &&& m.values[v].model_id == m.models[k].id
    &&& m.values[v].field == field
}

/// What is offered cannot be taken up by itself: the source is not surely the image's, or the
/// observation of it was not complete.
pub open spec fn unsure(m: TablesModel, a: int, o: int) -> bool {
    m.image_sources[a].association == "ambiguous"@ || m.observations[o].status != "Complete"@
}

/// Nothing was chosen for a field of an image.
pub open spec fn unchosen(m: TablesModel, image: Seq<char>, field: Seq<char>) -> bool {
    forall|i: int|
        0 <= i < m.choices.len() && (#[trigger] m.choices[i]).image_id == image
            ==> m.choices[i].field != field
}

/// A model was chosen for a field of an image.
pub open spec fn chose(m: TablesModel, image: Seq<char>, field: Seq<char>, model: i64) -> bool {
    exists|i: int|
        0 <= i < m.choices.len() && (#[trigger] m.choices[i]).image_id == image
            && m.choices[i].field == field && m.choices[i].model_id == model
}

/// A field without a value that can be relied upon.
pub open spec fn open_conflict() -> tables::EffectiveValue {
    tables::EffectiveValue { value: None, conflicted: true, model_id: None }
}

pub(crate) proof fn lemma_only<T>(s: Seq<T>, p: spec_fn(T) -> bool, i: int)
    requires
        0 <= i < s.len(),
        p(s[i]),
        forall|j: int| 0 <= j < s.len() && j != i ==> !p(#[trigger] s[j]),
    ensures
        support::first_where(s, p) == Some(i),
{
    support::lemma_first_found(s, p, i);
}

proof fn lemma_unchosen(m: TablesModel, image: Seq<char>, field: Seq<char>)
    ensures
        unchosen(m, image, field) <==> m.choice_of(image, field) is None,
{
    support::lemma_first_where(m.choices, lookups::choice_for(image, field));
    if m.choice_of(image, field) is None {
        assert forall|i: int|
            0 <= i < m.choices.len() && (#[trigger] m.choices[i]).image_id == image implies m.choices[i].field
            != field by {
            assert(!lookups::choice_for(image, field)(m.choices[i]));
        }
    }
}

proof fn lemma_chose(m: TablesModel, image: Seq<char>, field: Seq<char>, model: i64)
    requires
        rows_keyed(m),
    ensures
        chose(m, image, field, model) <==> m.choice_of(image, field) == Some(model),
{
    let p = lookups::choice_for(image, field);
    support::lemma_first_where(m.choices, p);
    if chose(m, image, field, model) {
        let i = choose|i: int|
            0 <= i < m.choices.len() && (#[trigger] m.choices[i]).image_id == image
                && m.choices[i].field == field && m.choices[i].model_id == model;
        assert forall|j: int| 0 <= j < m.choices.len() && j != i implies !p(#[trigger] m.choices[j]) by {}
        lemma_only(m.choices, p, i);
    }
}

/// A candidate is what some model offers.
spec fn is_offered(m: TablesModel, image: Seq<char>, field: Seq<char>, c: CandidateModel) -> bool {
    exists|s: int, a: int, o: int, k: int, v: int| #[trigger]
        offers(m, image, field, s, a, o, k, v) && offered_as(m, a, o, k, v, c)
}

spec fn offered_as(m: TablesModel, a: int, o: int, k: int, v: int, c: CandidateModel) -> bool {
    &&& c.model_id == m.models[k].id
    &&& c.value == m.values[v].value
    &&& c.semantic_hash == m.values[v].semantic_hash
    &&& c.ambiguous == unsure(m, a, o)
}

spec fn has(list: Seq<CandidateModel>, m: TablesModel, a: int, o: int, k: int, v: int) -> bool {
    exists|i: int| 0 <= i < list.len() && offered_as(m, a, o, k, v, #[trigger] list[i])
}

proof fn lemma_of_models(
    m: TablesModel,
    image: Seq<char>,
    field: Seq<char>,
    s: int,
    a: int,
    o: int,
    n: nat,
)
    requires
        rows_keyed(m),
        n <= m.models.len(),
        0 <= s < m.sources.len(),
        0 <= a < m.image_sources.len(),
        0 <= o < m.observations.len(),
        m.image_sources[a].image_id == image,
        m.image_sources[a].source_id == m.sources[s].id,
        m.image_sources[a].current_observation == Some(m.observations[o].id),
    ensures
        ({
            let list = m.model_candidates(
                m.sources[s],
                m.image_sources[a],
                m.observations[o],
                field,
                n,
            );
            &&& forall|i: int| 0 <= i < list.len() ==> is_offered(m, image, field, #[trigger] list[i])
            &&& forall|k: int, v: int|
                k < n && #[trigger] offers(m, image, field, s, a, o, k, v) ==> has(
                    list,
                    m,
                    a,
                    o,
                    k,
                    v,
                )
        }),
    decreases n,
{
    if n > 0 {
        lemma_of_models(m, image, field, s, a, o, (n - 1) as nat);
        let before = m.model_candidates(
            m.sources[s],
            m.image_sources[a],
            m.observations[o],
            field,
            (n - 1) as nat,
        );
        let list = m.model_candidates(m.sources[s], m.image_sources[a], m.observations[o], field, n);
        let row = m.models[n - 1];
        let q = lookups::value_for(row.id, field);
        support::lemma_first_where(m.values, q);
        if let Some(v) = m.value_at(row.id, field) {
            if row.observation_id == m.observations[o].id {
                assert(offers(m, image, field, s, a, o, n - 1, v));
                assert(offered_as(m, a, o, n - 1, v, list.last()));
            }
        }
        assert forall|i: int| 0 <= i < list.len() implies is_offered(
            m,
            image,
            field,
            #[trigger] list[i],
        ) by {
            if i < before.len() {
                assert(list[i] == before[i]);
            } else {
                assert(list[i] == list.last());
            }
        }
        assert forall|k: int, v: int|
            k < n && #[trigger] offers(m, image, field, s, a, o, k, v) implies has(
            list,
            m,
            a,
            o,
            k,
            v,
        ) by {
            if k < n - 1 {
                assert(has(before, m, a, o, k, v));
                let i = choose|i: int|
                    0 <= i < before.len() && offered_as(m, a, o, k, v, #[trigger] before[i]);
                assert(offered_as(m, a, o, k, v, list[i]));
            } else {
                assert forall|j: int| 0 <= j < m.values.len() && j != v implies !q(
                    #[trigger] m.values[j],
                ) by {}
                lemma_only(m.values, q, v);
                assert(offered_as(m, a, o, k, v, list[before.len() as int]));
            }
        }
    }
}

proof fn lemma_usage(m: TablesModel, image: Seq<char>, s: int)
    requires
        rows_keyed(m),
        0 <= s < m.sources.len(),
    ensures
        match m.usage(image, m.sources[s].id) {
            Some((row, seen)) => exists|a: int, o: int|
                0 <= a < m.image_sources.len() && 0 <= o < m.observations.len() && #[trigger] uses(
                    m,
                    image,
                    s,
                    a,
                    o,
                ) && row == m.image_sources[a] && seen == m.observations[o],
            None => forall|a: int, o: int| !(#[trigger] uses(m, image, s, a, o)),
        },
        forall|a: int, o: int| #[trigger]
            uses(m, image, s, a, o) ==> m.usage(image, m.sources[s].id) == Some(
                (m.image_sources[a], m.observations[o]),
            ),
{
    let p = lookups::image_source_for(image, m.sources[s].id);
    support::lemma_first_where(m.image_sources, p);
    assert forall|a: int, o: int| #[trigger] uses(m, image, s, a, o) implies m.usage(
        image,
        m.sources[s].id,
    ) == Some((m.image_sources[a], m.observations[o])) by {
        assert forall|j: int| 0 <= j < m.image_sources.len() && j != a implies !p(
            #[trigger] m.image_sources[j],
        ) by {}
        lemma_only(m.image_sources, p, a);
        let q = lookups::observation_with_id(m.observations[o].id);
        assert forall|j: int| 0 <= j < m.observations.len() && j != o implies !q(
            #[trigger] m.observations[j],
        ) by {}
        lemma_only(m.observations, q, o);
    }
    if let Some((row, seen)) = m.usage(image, m.sources[s].id) {
        let a = m.image_source_at(image, m.sources[s].id)->0;
        let id = m.image_sources[a].current_observation->0;
        support::lemma_first_where(m.observations, lookups::observation_with_id(id));
        let o = m.observation_at(id)->0;
        assert(uses(m, image, s, a, o));
    }
}

/// An image uses an observation of a source.
spec fn uses(m: TablesModel, image: Seq<char>, s: int, a: int, o: int) -> bool {
    &&& 0 <= a < m.image_sources.len()
    &&& 0 <= o < m.observations.len()
    &&& m.image_sources[a].image_id == image
    &&& m.image_sources[a].source_id == m.sources[s].id
    &&& m.image_sources[a].current_observation == Some(m.observations[o].id)
}

proof fn lemma_of_sources(m: TablesModel, image: Seq<char>, field: Seq<char>, n: nat)
    requires
        rows_keyed(m),
        n <= m.sources.len(),
    ensures
        ({
            let list = m.source_candidates(image, field, n);
            &&& forall|i: int| 0 <= i < list.len() ==> is_offered(m, image, field, #[trigger] list[i])
            &&& forall|s: int, a: int, o: int, k: int, v: int|
                s < n && #[trigger] offers(m, image, field, s, a, o, k, v) ==> has(
                    list,
                    m,
                    a,
                    o,
                    k,
                    v,
                )
        }),
    decreases n,
{
    if n > 0 {
        lemma_of_sources(m, image, field, (n - 1) as nat);
        let before = m.source_candidates(image, field, (n - 1) as nat);
        let list = m.source_candidates(image, field, n);
        let at = n - 1;
        lemma_usage(m, image, at);
        let here: Seq<CandidateModel> = match m.usage(image, m.sources[at].id) {
            Some((row, seen)) => m.model_candidates(
                m.sources[at],
                row,
                seen,
                field,
                m.models.len(),
            ),
            None => Seq::empty(),
        };
        assert(list =~= before + here);
        if let Some((row, seen)) = m.usage(image, m.sources[at].id) {
            let (a, o) = choose|a: int, o: int|
                0 <= a < m.image_sources.len() && 0 <= o < m.observations.len() && #[trigger] uses(
                    m,
                    image,
                    at,
                    a,
                    o,
                ) && row == m.image_sources[a] && seen == m.observations[o];
            lemma_of_models(m, image, field, at, a, o, m.models.len());
        }
        assert forall|i: int| 0 <= i < list.len() implies is_offered(
            m,
            image,
            field,
            #[trigger] list[i],
        ) by {
            if i < before.len() {
                assert(list[i] == before[i]);
            } else {
                assert(list[i] == here[i - before.len()]);
            }
        }
        assert forall|s: int, a: int, o: int, k: int, v: int|
            s < n && #[trigger] offers(m, image, field, s, a, o, k, v) implies has(
            list,
            m,
            a,
            o,
            k,
            v,
        ) by {
            if s < at {
                assert(has(before, m, a, o, k, v));
                let i = choose|i: int|
                    0 <= i < before.len() && offered_as(m, a, o, k, v, #[trigger] before[i]);
                assert(offered_as(m, a, o, k, v, list[i]));
            } else {
                assert(uses(m, image, at, a, o));
                lemma_of_models(m, image, field, at, a, o, m.models.len());
                assert(has(here, m, a, o, k, v));
                let i = choose|i: int|
                    0 <= i < here.len() && offered_as(m, a, o, k, v, #[trigger] here[i]);
                assert(list[before.len() + i] == here[i]);
            }
        }
    }
}

/// Evidence that is unsure is never taken up by itself. Where nothing was chosen for a field of
/// an image and a source that is not surely the image's, or whose observation was not complete,
/// offers a value, the field is left open: without a value and in conflict.
pub proof fn law_unsure_sources_leave_a_field_open(
    m: TablesModel,
    image: Seq<char>,
    field: Seq<char>,
    s: int,
    a: int,
    o: int,
    k: int,
    v: int,
)
    requires
        rows_keyed(m),
        unchosen(m, image, field),
        offers(m, image, field, s, a, o, k, v),
        m.image_sources[a].association == "ambiguous"@ || m.observations[o].status != "Complete"@,
    ensures
        m.rebuilt(image).effective.contains_key((image, field)),
        m.rebuilt(image).effective[(image, field)] == open_conflict(),
{
    let list = m.candidates_for(image, field);
    lemma_of_sources(m, image, field, m.sources.len());
    lemma_unchosen(m, image, field);
    assert(has(list, m, a, o, k, v));
    let i = choose|i: int| 0 <= i < list.len() && offered_as(m, a, o, k, v, #[trigger] list[i]);
    assert(list[i].ambiguous);
}

/// Sources that differ leave a field open: where nothing was chosen and two models that are
/// offered give it different values, or the same with different meanings, the field is in
/// conflict and has no value.
pub proof fn law_differing_sources_leave_a_field_open(
    m: TablesModel,
    image: Seq<char>,
    field: Seq<char>,
    s: int,
    a: int,
    o: int,
    k: int,
    v: int,
    s2: int,
    a2: int,
    o2: int,
    k2: int,
    v2: int,
)
    requires
        rows_keyed(m),
        unchosen(m, image, field),
        offers(m, image, field, s, a, o, k, v),
        offers(m, image, field, s2, a2, o2, k2, v2),
        m.values[v].value != m.values[v2].value || m.values[v].semantic_hash
            != m.values[v2].semantic_hash,
    ensures
        m.rebuilt(image).effective.contains_key((image, field)),
        m.rebuilt(image).effective[(image, field)] == open_conflict(),
{
    let list = m.candidates_for(image, field);
    lemma_of_sources(m, image, field, m.sources.len());
    lemma_unchosen(m, image, field);
    assert(has(list, m, a, o, k, v) && has(list, m, a2, o2, k2, v2));
    let i = choose|i: int| 0 <= i < list.len() && offered_as(m, a, o, k, v, #[trigger] list[i]);
    let j = choose|j: int| 0 <= j < list.len() && offered_as(m, a2, o2, k2, v2, #[trigger] list[j]);
    assert(list[i].value != list[j].value || list[i].semantic_hash != list[j].semantic_hash);
}

/// Sources that agree settle a field: where nothing was chosen and every model that is offered
/// is sure and gives the same value with the same meaning, that value is in effect, without a
/// conflict, and it is one of those models'.
pub proof fn law_agreeing_sources_settle_a_field(
    m: TablesModel,
    image: Seq<char>,
    field: Seq<char>,
    s: int,
    a: int,
    o: int,
    k: int,
    v: int,
)
    requires
        rows_keyed(m),
        unchosen(m, image, field),
        offers(m, image, field, s, a, o, k, v),
        forall|s2: int, a2: int, o2: int, k2: int, v2: int| #[trigger]
            offers(m, image, field, s2, a2, o2, k2, v2) ==> m.image_sources[a2].association
                != "ambiguous"@ && m.observations[o2].status == "Complete"@ && m.values[v2].value
                == m.values[v].value && m.values[v2].semantic_hash == m.values[v].semantic_hash,
    ensures
        ({
            let shown = m.rebuilt(image).effective[(image, field)];
            &&& m.rebuilt(image).effective.contains_key((image, field))
            &&& shown.value == Some(m.values[v].value)
            &&& !shown.conflicted
            &&& shown.model_id matches Some(model) && exists|s2: int, a2: int, o2: int, k2: int, v2: int|
                #[trigger] offers(m, image, field, s2, a2, o2, k2, v2) && m.models[k2].id == model
        }),
{
    let list = m.candidates_for(image, field);
    lemma_of_sources(m, image, field, m.sources.len());
    lemma_unchosen(m, image, field);
    assert(has(list, m, a, o, k, v));
    assert forall|i: int| 0 <= i < list.len() implies !(#[trigger] list[i]).ambiguous
        && list[i].value == m.values[v].value && list[i].semantic_hash == m.values[v].semantic_hash by {
        assert(is_offered(m, image, field, list[i]));
    }
    assert(is_offered(m, image, field, list[0]));
}

/// A choice decides: where the chosen model is offered for the field its value is in effect,
/// whatever the others say; where it is not offered any more the field is open and nothing takes
/// its place.
pub proof fn law_choices_decide(
    m: TablesModel,
    image: Seq<char>,
    field: Seq<char>,
    model: i64,
    s: int,
    a: int,
    o: int,
    k: int,
    v: int,
)
    requires
        rows_keyed(m),
        chose(m, image, field, model),
    ensures
        m.rebuilt(image).effective.contains_key((image, field)),
        offers(m, image, field, s, a, o, k, v) && m.models[k].id == model ==> m.rebuilt(
            image,
        ).effective[(image, field)] == (tables::EffectiveValue {
            value: Some(m.values[v].value),
            conflicted: false,
            model_id: Some(model),
        }),
        (forall|s2: int, a2: int, o2: int, k2: int, v2: int| #[trigger]
            offers(m, image, field, s2, a2, o2, k2, v2) ==> m.models[k2].id != model)
            ==> m.rebuilt(image).effective[(image, field)] == open_conflict(),
{
    let list = m.candidates_for(image, field);
    let p = catalog_metadata::candidate_of_model(model);
    lemma_of_sources(m, image, field, m.sources.len());
    lemma_chose(m, image, field, model);
    support::lemma_first_where(list, p);
    if offers(m, image, field, s, a, o, k, v) && m.models[k].id == model {
        assert(has(list, m, a, o, k, v));
        let i = choose|i: int| 0 <= i < list.len() && offered_as(m, a, o, k, v, #[trigger] list[i]);
        assert(p(list[i]));
        let f = support::first_where(list, p)->0;
        assert(is_offered(m, image, field, list[f]));
        let (s2, a2, o2, k2, v2) = choose|s2: int, a2: int, o2: int, k2: int, v2: int| #[trigger]
            offers(m, image, field, s2, a2, o2, k2, v2) && offered_as(m, a2, o2, k2, v2, list[f]);
        assert(v2 == v);
    }
    if forall|s2: int, a2: int, o2: int, k2: int, v2: int| #[trigger]
        offers(m, image, field, s2, a2, o2, k2, v2) ==> m.models[k2].id != model {
        assert forall|i: int| 0 <= i < list.len() implies !p(#[trigger] list[i]) by {
            assert(is_offered(m, image, field, list[i]));
        }
    }
}

/// A field that nothing offers and nothing was chosen for is not shown at all.
pub proof fn law_what_nothing_offers_is_not_shown(m: TablesModel, image: Seq<char>, field: Seq<char>)
    requires
        rows_keyed(m),
        unchosen(m, image, field),
        forall|s: int, a: int, o: int, k: int, v: int| !(#[trigger] offers(
            m,
            image,
            field,
            s,
            a,
            o,
            k,
            v,
        )),
    ensures
        !m.rebuilt(image).effective.contains_key((image, field)),
{
    let list = m.candidates_for(image, field);
    lemma_of_sources(m, image, field, m.sources.len());
    lemma_unchosen(m, image, field);
    if list.len() > 0 {
        assert(is_offered(m, image, field, list[0]));
    }
}

} // verus!

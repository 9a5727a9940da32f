//! What looking up retained records gives: the records that hold what was asked for, all of
//! them, page by page and in turn.
use crate::catalog_migration::retained;
use crate::catalog_migration::retained::{
    CellModel, Collection, Compatibility, FieldModel, Query, RecordModel, RetainedModel,
};
use crate::support;
use vstd::prelude::*;
use vstd::utf8::*;

verus! {

/// A field holds the bytes of a text.
pub open spec fn field_holds(f: FieldModel, text: Seq<char>) -> bool {
    match f {
        FieldModel::Inline(CellModel::Text(v)) => v == encode_utf8(text),
        FieldModel::Inline(CellModel::Blob(v)) => v == encode_utf8(text),
        FieldModel::Inline(_) => false,
        FieldModel::Bytes { content, .. } => content == encode_utf8(text),
    }
}

/// The field of a name, the first where there are several, holds the bytes of a text.
pub open spec fn record_holds(x: RecordModel, name: Seq<char>, text: Seq<char>) -> bool {
    exists|f: int|
        {
            &&& 0 <= f < x.fields.len()
            &&& (#[trigger] x.fields[f]).name == name
            &&& field_holds(x.fields[f].field, text)
            &&& forall|g: int| 0 <= g < f ==> (#[trigger] x.fields[g]).name != name
        }
}

pub(crate) proof fn lemma_says(x: RecordModel, name: Seq<char>, text: Seq<char>)
    ensures
        x.says(name, text) <==> record_holds(x, name, text),
{
    support::lemma_first_where(x.fields, retained::field_named(name));
    match support::first_where(x.fields, retained::field_named(name)) {
        None => {
            assert forall|f: int| 0 <= f < x.fields.len() implies (#[trigger] x.fields[f]).name
                != name by {
                assert(!retained::field_named(name)(x.fields[f]));
            }
        },
        Some(i) => {
            assert forall|g: int| 0 <= g < i implies (#[trigger] x.fields[g]).name != name by {
                assert(!retained::field_named(name)(x.fields[g]));
            }
            assert(x.fields[i].name == name);
            if x.says(name, text) {
                assert(field_holds(x.fields[i].field, text));
            }
            assert forall|f: int|
                {
                    &&& 0 <= f < x.fields.len()
                    &&& (#[trigger] x.fields[f]).name == name
                    &&& field_holds(x.fields[f].field, text)
                    &&& forall|g: int| 0 <= g < f ==> (#[trigger] x.fields[g]).name != name
                } implies x.says(name, text) by {
                if f < i {
                    assert(!retained::field_named(name)(x.fields[f]));
                }
                assert(f == i);
            }
        },
    }
}

pub(crate) proof fn lemma_positions<T>(s: Seq<T>, p: spec_fn(T) -> bool, n: nat)
    requires
        n <= s.len(),
    ensures
        forall|k: int|
            0 <= k < support::positions(s, p, n).len() ==> 0 <= #[trigger] support::positions(
                s,
                p,
                n,
            )[k] < n && p(s[support::positions(s, p, n)[k]]),
        forall|k: int, l: int|
            0 <= k < l < support::positions(s, p, n).len() ==> #[trigger] support::positions(
                s,
                p,
                n,
            )[k] < #[trigger] support::positions(s, p, n)[l],
        forall|i: int|
            0 <= i < n && p(#[trigger] s[i]) ==> support::positions(s, p, n).contains(i),
    decreases n,
{
    if n > 0 {
        lemma_positions(s, p, (n - 1) as nat);
        let before = support::positions(s, p, (n - 1) as nat);
        let now = support::positions(s, p, n);
        assert forall|i: int| 0 <= i < n && p(#[trigger] s[i]) implies now.contains(i) by {
            if i < n - 1 {
                assert(before.contains(i));
                let k = choose|k: int| 0 <= k < before.len() && before[k] == i;
                assert(now[k] == i);
            } else {
                assert(now[now.len() - 1] == i);
            }
        }
        assert forall|k: int| 0 <= k < now.len() implies 0 <= #[trigger] now[k] < n && p(s[now[k]]) by {
            if k < before.len() {
                assert(now[k] == before[k]);
            }
        }
        assert forall|k: int, l: int| 0 <= k < l < now.len() implies #[trigger] now[k]
            < #[trigger] now[l] by {
            assert(now[k] == before[k]);
            if l < before.len() {
                assert(now[l] == before[l]);
            }
        }
    }
}

/// A lookup finds a record of its capture that is whole, is of the kind asked for, holds what
/// was asked for in the fields that say so, and comes behind where the lookup goes on; and it
/// finds no other.
pub proof fn law_lookups_find_what_they_name(
    x: RecordModel,
    input: Seq<char>,
    revision: Seq<char>,
    q: Query,
    after: Option<i64>,
)
    ensures
        retained::hit(input, revision, q, after)(x) <==> {
            &&& x.complete
            &&& x.input == input
            &&& x.revision == revision
            &&& after matches Some(a) ==> x.sequence > a
            &&& match q {
                Query::RowsBySource(id) => x.collection == Collection::Rows && record_holds(
                    x,
                    "source_id"@,
                    id,
                ),
                Query::RowsByTable(table) => x.collection == Collection::Rows && record_holds(
                    x,
                    "table_name"@,
                    table,
                ),
                Query::TableByName(name) => x.collection == Collection::Tables && record_holds(
                    x,
                    "name"@,
                    name,
                ),
                Query::EntitiesBySource(id) => x.collection == Collection::Entities
                    && record_holds(x, "source_id"@, id),
                Query::EntitiesByLocalKey { table_name, local_key } => x.collection
                    == Collection::Entities && record_holds(x, "table_name"@, table_name)
                    && record_holds(x, "local_key"@, local_key),
                Query::References { source_id, field, target_table } => x.collection
                    == Collection::References && record_holds(x, "source_id"@, source_id) && (
                field matches Some(f) ==> record_holds(x, "field"@, f)) && (
                target_table matches Some(t) ==> record_holds(x, "target_table"@, t)),
                Query::ReferencesByTargetKey { target_table, target_key } => x.collection
                    == Collection::References && record_holds(x, "target_table"@, target_table)
                    && record_holds(x, "target_key"@, target_key),
                Query::PathsBySource(id) => x.collection == Collection::Paths && record_holds(
                    x,
                    "source_id"@,
                    id,
                ),
                Query::Packets { source_id, origin } => x.collection == Collection::Packets
                    && record_holds(x, "source_id"@, source_id) && (origin matches Some(o)
                    ==> record_holds(x, "origin"@, o)),
            }
        },
{
    match q {
        Query::RowsBySource(id) => lemma_says(x, "source_id"@, id),
        Query::RowsByTable(table) => lemma_says(x, "table_name"@, table),
        Query::TableByName(name) => lemma_says(x, "name"@, name),
        Query::EntitiesBySource(id) => lemma_says(x, "source_id"@, id),
        Query::EntitiesByLocalKey { table_name, local_key } => {
            lemma_says(x, "table_name"@, table_name);
            lemma_says(x, "local_key"@, local_key);
        },
        Query::References { source_id, field, target_table } => {
            lemma_says(x, "source_id"@, source_id);
            if let Some(f) = field {
                lemma_says(x, "field"@, f);
            }
            if let Some(t) = target_table {
                lemma_says(x, "target_table"@, t);
            }
        },
        Query::ReferencesByTargetKey { target_table, target_key } => {
            lemma_says(x, "target_table"@, target_table);
            lemma_says(x, "target_key"@, target_key);
        },
        Query::PathsBySource(id) => lemma_says(x, "source_id"@, id),
        Query::Packets { source_id, origin } => {
            lemma_says(x, "source_id"@, source_id);
            if let Some(o) = origin {
                lemma_says(x, "origin"@, o);
            }
        },
    }
}

/// A page of a lookup holds no more than asked for, in the order of the records, and nothing
/// but what the lookup finds. Whatever is found and is not on the page comes behind the last
/// record of the page, where the next page begins; a page without a next one leaves nothing
/// out.
pub proof fn law_lookup_pages_leave_nothing_out(
    r: RetainedModel,
    input: Seq<char>,
    revision: Seq<char>,
    q: Query,
    after: Option<i64>,
    limit: nat,
    i: int,
)
    requires
        limit > 0,
        0 <= i < r.records.len(),
    ensures
        ({
            let page = r.page_hits(input, revision, q, after, limit);
            let next = r.page_next(input, revision, q, after, limit);
            let found = retained::hit(input, revision, q, after);
            &&& page.len() <= limit
            &&& forall|k: int|
                0 <= k < page.len() ==> 0 <= #[trigger] page[k] < r.records.len() && found(
                    r.records[page[k]],
                )
            &&& forall|k: int, l: int|
                0 <= k < l < page.len() ==> #[trigger] page[k] < #[trigger] page[l]
            &&& next matches Some(n) ==> page.len() == limit && n == r.records[page.last()].sequence
            &&& found(r.records[i]) && !page.contains(i) ==> next is Some && page.last() < i
        }),
{
    let found = retained::hit(input, revision, q, after);
    let all = r.hits(input, revision, q, after);
    let page = r.page_hits(input, revision, q, after, limit);
    lemma_positions(r.records, found, r.records.len());
    assert forall|k: int| 0 <= k < page.len() implies 0 <= #[trigger] page[k] < r.records.len()
        && found(r.records[page[k]]) by {
        assert(page[k] == all[k]);
    }
    assert forall|k: int, l: int| 0 <= k < l < page.len() implies #[trigger] page[k]
        < #[trigger] page[l] by {
        assert(page[k] == all[k] && page[l] == all[l]);
    }
    if found(r.records[i]) && !page.contains(i) {
        assert(all.contains(i));
        let k = choose|k: int| 0 <= k < all.len() && all[k] == i;
        if k < page.len() {
            assert(page[k] == i);
        }
        assert(all[limit - 1] < all[k]);
        assert(page.last() == all[limit - 1]);
    }
}

/// Something is found alone only in a capture that is wholly looked up and that has no other
/// record like it; otherwise it is unavailable, missing or ambiguous, whichever holds.
pub proof fn law_what_is_alone_is_found_alone(
    r: RetainedModel,
    input: Seq<char>,
    revision: Seq<char>,
    q: Query,
    i: int,
    j: int,
)
    requires
        0 <= i < r.records.len(),
        0 <= j < r.records.len(),
    ensures
        ({
            let found = retained::hit(input, revision, q, None);
            let covered = r.coverage_complete(input, revision) && r.keys_complete(input, revision);
            let out = r.unique(input, revision, q);
            &&& !covered ==> out == Err::<i64, Compatibility>(Compatibility::Unavailable)
            &&& covered && found(r.records[i]) && found(r.records[j]) && i != j ==> out == Err::<
                i64,
                Compatibility,
            >(Compatibility::Ambiguous)
            &&& covered && found(r.records[i]) ==> match out {
                Ok(sequence) => sequence == r.records[i].sequence,
                Err(why) => why == Compatibility::Ambiguous,
            }
            &&& out == Err::<i64, Compatibility>(Compatibility::Missing) ==> !found(r.records[i])
            &&& out matches Ok(sequence) ==> exists|k: int|
                0 <= k < r.records.len() && found(#[trigger] r.records[k]) && r.records[k].sequence
                    == sequence
        }),
{
    let found = retained::hit(input, revision, q, None);
    let all = r.hits(input, revision, q, None);
    lemma_positions(r.records, found, r.records.len());
    if found(r.records[i]) {
        assert(all.contains(i));
    }
    if found(r.records[j]) {
        assert(all.contains(j));
    }
    if all.len() == 1 {
        assert(found(r.records[all[0]]));
    }
}

} // verus!

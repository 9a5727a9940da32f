//! What a link between source rows stands for, told by the retained records: a row's only
//! reference of its field that leads anywhere.
use crate::catalog_migration::proofs;
use crate::catalog_migration::proofs::{LinkModel, SourceRecordModel, Walked};
use crate::catalog_migration::record_laws;
use crate::catalog_migration::retained;
use crate::catalog_migration::retained::{
    Collection, Compatibility, MigrationError, Query, RecordModel, RetainedModel,
};
use crate::support;
use vstd::prelude::*;
use vstd::utf8::*;

verus! {

/// An entity of a table and a key is alone of its kind in a capture.
pub open spec fn is_only_entity(
    r: RetainedModel,
    input: Seq<char>,
    revision: Seq<char>,
    table: Seq<char>,
    key: Seq<char>,
    e: int,
) -> bool {
    is_entity(r, input, revision, table, key, e) && forall|f: int|
        f != e ==> !#[trigger] is_entity(r, input, revision, table, key, f)
}

/// A complete record is of an entity of a table with a key.
pub open spec fn is_entity(
    r: RetainedModel,
    input: Seq<char>,
    revision: Seq<char>,
    table: Seq<char>,
    key: Seq<char>,
    e: int,
) -> bool {
    &&& 0 <= e < r.records.len()
    &&& r.records[e].complete
    &&& r.records[e].input == input
    &&& r.records[e].revision == revision
    &&& r.records[e].collection == Collection::Entities
    &&& record_laws::record_holds(r.records[e], "table_name"@, table)
    &&& record_laws::record_holds(r.records[e], "local_key"@, key)
}

/// A complete record is of a reference of a row in one field into one table.
pub open spec fn is_reference(
    r: RetainedModel,
    input: Seq<char>,
    revision: Seq<char>,
    source_id: Seq<char>,
    field: Seq<char>,
    table: Seq<char>,
    i: int,
) -> bool {
    &&& 0 <= i < r.records.len()
    &&& r.records[i].complete
    &&& r.records[i].input == input
    &&& r.records[i].revision == revision
    &&& r.records[i].collection == Collection::References
    &&& record_laws::record_holds(r.records[i], "source_id"@, source_id)
    &&& record_laws::record_holds(r.records[i], "field"@, field)
    &&& record_laws::record_holds(r.records[i], "target_table"@, table)
}

/// A reference leads to an entity: by its key, which is that of no other entity of the table.
pub open spec fn leads_to(
    r: RetainedModel,
    input: Seq<char>,
    revision: Seq<char>,
    table: Seq<char>,
    i: int,
    e: int,
) -> bool {
    exists|key: Seq<char>|
        #[trigger] record_laws::record_holds(r.records[i], "target_key"@, key) && is_only_entity(
            r,
            input,
            revision,
            table,
            key,
            e,
        )
}

proof fn lemma_unique(
    r: RetainedModel,
    input: Seq<char>,
    revision: Seq<char>,
    table: Seq<char>,
    key: Seq<char>,
    id: i64,
) -> (e: int)
    requires
        r.unique(
            input,
            revision,
            Query::EntitiesByLocalKey { table_name: table, local_key: key },
        ) == Ok::<i64, Compatibility>(id),
    ensures
        is_only_entity(r, input, revision, table, key, e),
        r.records[e].sequence == id,
{
    let q = Query::EntitiesByLocalKey { table_name: table, local_key: key };
    let h = retained::hit(input, revision, q, None);
    let all = r.hits(input, revision, q, None);
    record_laws::lemma_positions(r.records, h, r.records.len());
    let e = all[0];
    assert(h(r.records[e]));
    record_laws::law_lookups_find_what_they_name(r.records[e], input, revision, q, None);
    assert(is_entity(r, input, revision, table, key, e));
    assert forall|f: int| f != e implies !#[trigger] is_entity(
        r,
        input,
        revision,
        table,
        key,
        f,
    ) by {
        if is_entity(r, input, revision, table, key, f) {
            record_laws::law_lookups_find_what_they_name(r.records[f], input, revision, q, None);
            assert(h(r.records[f]));
            assert(all.contains(f));
        }
    }
    e
}

proof fn lemma_missing(
    r: RetainedModel,
    input: Seq<char>,
    revision: Seq<char>,
    table: Seq<char>,
    key: Seq<char>,
    e: int,
)
    requires
        r.unique(
            input,
            revision,
            Query::EntitiesByLocalKey { table_name: table, local_key: key },
        ) == Err::<i64, Compatibility>(Compatibility::Missing),
    ensures
        !is_entity(r, input, revision, table, key, e),
{
    let q = Query::EntitiesByLocalKey { table_name: table, local_key: key };
    let h = retained::hit(input, revision, q, None);
    let all = r.hits(input, revision, q, None);
    record_laws::lemma_positions(r.records, h, r.records.len());
    if is_entity(r, input, revision, table, key, e) {
        record_laws::law_lookups_find_what_they_name(r.records[e], input, revision, q, None);
        assert(h(r.records[e]));
        assert(all.contains(e));
    }
}

proof fn lemma_key(x: RecordModel, key: Seq<char>, other: Seq<char>)
    requires
        exists|cap: nat|
            #[trigger] x.typed_text("target_key"@, cap) == Ok::<Seq<char>, MigrationError>(key),
    ensures
        record_laws::record_holds(x, "target_key"@, key),
        record_laws::record_holds(x, "target_key"@, other) ==> other == key,
{
    let cap = choose|cap: nat|
        #[trigger] x.typed_text("target_key"@, cap) == Ok::<Seq<char>, MigrationError>(key);
    decode_utf8_encode_utf8(x.field_bytes("target_key"@, cap)->Ok_0);
    record_laws::lemma_says(x, "target_key"@, key);
    record_laws::lemma_says(x, "target_key"@, other);
    encode_utf8_decode_utf8(key);
    encode_utf8_decode_utf8(other);
}

proof fn lemma_walked(
    r: RetainedModel,
    input: Seq<char>,
    revision: Seq<char>,
    hits: Seq<int>,
    table: Seq<char>,
    n: nat,
)
    requires
        n <= hits.len(),
    ensures
        match proofs::walked(r, input, revision, hits, table, n) {
            Walked::Closed(_) => true,
            Walked::Open(None) => forall|k: int, e: int|
                0 <= k < n ==> !#[trigger] leads_to(r, input, revision, table, hits[k], e),
            Walked::Open(Some(id)) => exists|k: int, e: int|
                0 <= k < n && #[trigger] leads_to(r, input, revision, table, hits[k], e)
                    && r.records[e].sequence == id && forall|l: int, f: int|
                    0 <= l < n && #[trigger] leads_to(r, input, revision, table, hits[l], f) ==> l
                        == k && f == e,
        },
    decreases n,
{
    if n > 0 {
        lemma_walked(r, input, revision, hits, table, (n - 1) as nat);
        let before = proofs::walked(r, input, revision, hits, table, (n - 1) as nat);
        let x = r.records[hits[n - 1]];
        if let Walked::Open(found) = before {
            if let Ok(key) = x.typed_text("target_key"@, proofs::IDENTITY_BYTES as nat) {
                match r.unique(
                    input,
                    revision,
                    Query::EntitiesByLocalKey { table_name: table, local_key: key },
                ) {
                    Ok(id) => {
                        if found is None {
                            let e = lemma_unique(r, input, revision, table, key, id);
                            lemma_key(x, key, key);
                            assert(leads_to(r, input, revision, table, hits[n - 1], e));
                            assert forall|l: int, f: int|
                                0 <= l < n && #[trigger] leads_to(
                                    r,
                                    input,
                                    revision,
                                    table,
                                    hits[l],
                                    f,
                                ) implies l == n - 1 && f == e by {
                                if l == n - 1 {
                                    let other = choose|other: Seq<char>|
                                        #[trigger] record_laws::record_holds(
                                            r.records[hits[l]],
                                            "target_key"@,
                                            other,
                                        ) && is_only_entity(r, input, revision, table, other, f);
                                    lemma_key(x, key, other);
                                    assert(is_entity(r, input, revision, table, key, e));
                                }
                            }
                        }
                    },
                    Err(Compatibility::Missing) => {
                        assert forall|e: int| !#[trigger] leads_to(
                            r,
                            input,
                            revision,
                            table,
                            hits[n - 1],
                            e,
                        ) by {
                            if leads_to(r, input, revision, table, hits[n - 1], e) {
                                let other = choose|other: Seq<char>|
                                    #[trigger] record_laws::record_holds(
                                        x,
                                        "target_key"@,
                                        other,
                                    ) && is_only_entity(r, input, revision, table, other, e);
                                lemma_key(x, key, other);
                                lemma_missing(r, input, revision, table, key, e);
                            }
                        }
                        if let Some(id) = found {
                            let (k, e) = choose|k: int, e: int|
                                0 <= k < n - 1 && #[trigger] leads_to(
                                    r,
                                    input,
                                    revision,
                                    table,
                                    hits[k],
                                    e,
                                ) && r.records[e].sequence == id && forall|l: int, f: int|
                                    0 <= l < n - 1 && #[trigger] leads_to(
                                        r,
                                        input,
                                        revision,
                                        table,
                                        hits[l],
                                        f,
                                    ) ==> l == k && f == e;
                            assert(leads_to(r, input, revision, table, hits[k], e));
                        }
                    },
                    Err(_) => {},
                }
            }
        }
    }
}

/// A row's references of one field into one table have a target where exactly one of them
/// leads to an entity; no other one leads anywhere.
pub proof fn law_single_targets_are_the_only_ones(
    r: RetainedModel,
    input: Seq<char>,
    revision: Seq<char>,
    source_id: Seq<char>,
    field: Seq<char>,
    table: Seq<char>,
    id: i64,
)
    requires
        proofs::single_target(r, input, revision, source_id, field, table) == Ok::<
            i64,
            Compatibility,
        >(id),
    ensures
        exists|i: int, e: int|
            is_reference(r, input, revision, source_id, field, table, i) && #[trigger] leads_to(
                r,
                input,
                revision,
                table,
                i,
                e,
            ) && r.records[e].sequence == id && forall|j: int, f: int|
                is_reference(r, input, revision, source_id, field, table, j)
                    && #[trigger] leads_to(r, input, revision, table, j, f) ==> j == i && f == e,
{
    let q = Query::References { source_id, field: Some(field), target_table: Some(table) };
    let hits = r.hits(input, revision, q, None);
    let h = retained::hit(input, revision, q, None);
    record_laws::lemma_positions(r.records, h, r.records.len());
    lemma_walked(r, input, revision, hits, table, hits.len());
    let (k, e) = choose|k: int, e: int|
        0 <= k < hits.len() && #[trigger] leads_to(r, input, revision, table, hits[k], e)
            && r.records[e].sequence == id && forall|l: int, f: int|
            0 <= l < hits.len() && #[trigger] leads_to(r, input, revision, table, hits[l], f)
                ==> l == k && f == e;
    let i = hits[k];
    assert(h(r.records[i]));
    record_laws::law_lookups_find_what_they_name(r.records[i], input, revision, q, None);
    assert(is_reference(r, input, revision, source_id, field, table, i));
    assert forall|j: int, f: int|
        is_reference(r, input, revision, source_id, field, table, j) && #[trigger] leads_to(
            r,
            input,
            revision,
            table,
            j,
            f,
        ) implies j == i && f == e by {
        record_laws::law_lookups_find_what_they_name(r.records[j], input, revision, q, None);
        assert(h(r.records[j]));
        assert(hits.contains(j));
        let l = choose|l: int| 0 <= l < hits.len() && hits[l] == j;
        assert(leads_to(r, input, revision, table, hits[l], f));
    }
}

/// A record is complete and has a number.
pub open spec fn is_kept(r: RetainedModel, i: int, sequence: i64) -> bool {
    0 <= i < r.records.len() && r.records[i].sequence == sequence && r.records[i].complete
}

/// A link that is proved is within one capture of one input: its reference is the row's, of the
/// link's field and into the target's table, its entity is the target's, and it is where the
/// row's references of that field lead, and nowhere else.
pub proof fn law_links_are_proved_by_their_records(
    r: RetainedModel,
    origin: SourceRecordModel,
    link: LinkModel,
)
    requires
        proofs::link_proof(r, origin, link) is Ok,
    ensures
        link.target.source.capture_revision == origin.source.capture_revision,
        exists|row: int, target: int, a: int, b: int, from: Seq<char>, to: Seq<char>|
            #![trigger is_kept(r, row, origin.retained_record), is_kept(r, target, link.target.retained_record), is_kept(r, a, link.reference_record), is_kept(r, b, link.target_entity_record), record_laws::record_holds(r.records[row], "source_id"@, from), record_laws::record_holds(r.records[target], "source_id"@, to)]
            {
                &&& is_kept(r, row, origin.retained_record)
                &&& is_kept(r, target, link.target.retained_record)
                &&& is_kept(r, a, link.reference_record)
                &&& is_kept(r, b, link.target_entity_record)
                &&& r.records[row].collection == Collection::Rows
                &&& r.records[target].collection == Collection::Rows
                &&& record_laws::record_holds(r.records[row], "source_id"@, from)
                &&& record_laws::record_holds(r.records[target], "source_id"@, to)
                &&& record_laws::record_holds(r.records[row], "table_name"@, origin.source.table)
                &&& record_laws::record_holds(
                    r.records[target],
                    "table_name"@,
                    link.target.source.table,
                )
                &&& r.records[target].input == r.records[row].input
                &&& is_reference(
                    r,
                    r.records[row].input,
                    origin.source.capture_revision,
                    from,
                    link.field,
                    link.target.source.table,
                    a,
                )
                &&& r.records[b].collection == Collection::Entities
                &&& record_laws::record_holds(r.records[b], "source_id"@, to)
                &&& proofs::single_target(
                    r,
                    r.records[row].input,
                    origin.source.capture_revision,
                    from,
                    link.field,
                    link.target.source.table,
                ) == Ok::<i64, Compatibility>(link.target_entity_record)
            },
{
    let (row, from) = proofs::source_proof(r, origin)->Ok_0;
    let (target, to) = proofs::source_proof(r, link.target)->Ok_0;
    support::lemma_first_where(r.records, retained::record_at(origin.retained_record));
    support::lemma_first_where(r.records, retained::record_at(link.target.retained_record));
    support::lemma_first_where(r.records, retained::record_at(link.reference_record));
    support::lemma_first_where(r.records, retained::record_at(link.target_entity_record));
    let a = r.record_of(link.reference_record)->Some_0;
    let b = r.record_of(link.target_entity_record)->Some_0;
    let cap = proofs::IDENTITY_BYTES as nat;
    decode_utf8_encode_utf8(r.records[row].field_bytes("source_id"@, cap)->Ok_0);
    decode_utf8_encode_utf8(r.records[target].field_bytes("source_id"@, cap)->Ok_0);
    record_laws::lemma_says(r.records[row], "source_id"@, from);
    record_laws::lemma_says(r.records[target], "source_id"@, to);
    record_laws::lemma_says(r.records[row], "table_name"@, origin.source.table);
    record_laws::lemma_says(r.records[target], "table_name"@, link.target.source.table);
    record_laws::lemma_says(r.records[a], "source_id"@, from);
    record_laws::lemma_says(r.records[a], "field"@, link.field);
    record_laws::lemma_says(r.records[a], "target_table"@, link.target.source.table);
    record_laws::lemma_says(r.records[b], "source_id"@, to);
    assert(is_kept(r, row, origin.retained_record) && is_kept(
        r,
        target,
        link.target.retained_record,
    ) && is_kept(r, a, link.reference_record) && is_kept(r, b, link.target_entity_record)
        && record_laws::record_holds(r.records[row], "source_id"@, from)
        && record_laws::record_holds(r.records[target], "source_id"@, to));
}

} // verus!

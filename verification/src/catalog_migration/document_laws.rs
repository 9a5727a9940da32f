//! Documents say what they are made from: where two of them are the same, so is what they were
//! made from.
use crate::catalog_metadata::discovery;
use crate::catalog_metadata::documents;
use crate::catalog_metadata::edit;
use crate::catalog_metadata::edit::EditRequest;
use crate::catalog_metadata::exports;
use crate::catalog_metadata::identity;
use crate::catalog_metadata::identity::FileState;
use crate::catalog_metadata::prepared;
use crate::catalog_migration::current_repair;
use crate::catalog_migration::current_repair::RequestModel;
use crate::catalog_migration::descriptor_laws;
use crate::catalog_migration::file_history::Origin;
use crate::catalog_migration::file_projection;
use crate::catalog_migration::images;
use crate::catalog_migration::images::Decision;
use crate::catalog_migration::importer;
use crate::catalog_migration::importer::{PolicyModel, SupplementInputModel};
use crate::catalog_migration::proofs::SourceKeyModel;
use crate::outside;
use vstd::prelude::*;

verus! {

proof fn lemma_five(
    p1: Seq<char>,
    p2: Seq<char>,
    p3: Seq<char>,
    p4: Seq<char>,
    p5: Seq<char>,
)
    ensures
        p1 + p2 + p3 + p4 + p5 == p1 + (p2 + (p3 + (p4 + (p5)))),
{
    assert(p1 + p2 + p3 + p4 + p5 =~= p1 + (p2 + (p3 + (p4 + (p5)))));
}

proof fn lemma_nine(
    p1: Seq<char>,
    p2: Seq<char>,
    p3: Seq<char>,
    p4: Seq<char>,
    p5: Seq<char>,
    p6: Seq<char>,
    p7: Seq<char>,
    p8: Seq<char>,
    p9: Seq<char>,
)
    ensures
        p1 + p2 + p3 + p4 + p5 + p6 + p7 + p8 + p9 == p1 + (p2 + (p3 + (p4 + (p5 + (p6 + (p7 + (p8
            + (p9)))))))),
{
    let t = p6 + (p7 + (p8 + (p9)));
    lemma_five(p1 + p2 + p3 + p4 + p5, p6, p7, p8, p9);
    lemma_five(p1 + p2, p3, p4, p5, t);
    descriptor_laws::lemma_joined(p1, p2, p3 + (p4 + (p5 + t)));
}

proof fn lemma_eleven(
    p1: Seq<char>,
    p2: Seq<char>,
    p3: Seq<char>,
    p4: Seq<char>,
    p5: Seq<char>,
    p6: Seq<char>,
    p7: Seq<char>,
    p8: Seq<char>,
    p9: Seq<char>,
    p10: Seq<char>,
    p11: Seq<char>,
)
    ensures
        p1 + p2 + p3 + p4 + p5 + p6 + p7 + p8 + p9 + p10 + p11 == p1 + (p2 + (p3 + (p4 + (p5 + (p6
            + (p7 + (p8 + (p9 + (p10 + (p11)))))))))),
{
    let t = p8 + (p9 + (p10 + (p11)));
    lemma_five(p1 + p2 + p3 + p4 + p5 + p6 + p7, p8, p9, p10, p11);
    lemma_five(p1 + p2 + p3 + p4, p5, p6, p7, t);
    lemma_five(p1, p2, p3, p4, p5 + (p6 + (p7 + t)));
}

proof fn lemma_thirteen(
    p1: Seq<char>,
    p2: Seq<char>,
    p3: Seq<char>,
    p4: Seq<char>,
    p5: Seq<char>,
    p6: Seq<char>,
    p7: Seq<char>,
    p8: Seq<char>,
    p9: Seq<char>,
    p10: Seq<char>,
    p11: Seq<char>,
    p12: Seq<char>,
    p13: Seq<char>,
)
    ensures
        p1 + p2 + p3 + p4 + p5 + p6 + p7 + p8 + p9 + p10 + p11 + p12 + p13 == p1 + (p2 + (p3 + (p4
            + (p5 + (p6 + (p7 + (p8 + (p9 + (p10 + (p11 + (p12 + (p13)))))))))))),
{
    let t = p10 + (p11 + (p12 + (p13)));
    lemma_five(p1 + p2 + p3 + p4 + p5 + p6 + p7 + p8 + p9, p10, p11, p12, p13);
    lemma_five(p1 + p2 + p3 + p4 + p5 + p6, p7, p8, p9, t);
    let u = p7 + (p8 + (p9 + t));
    lemma_five(p1 + p2 + p3, p4, p5, p6, u);
    let v = p4 + (p5 + (p6 + u));
    descriptor_laws::lemma_joined(p1 + p2, p3, v);
    descriptor_laws::lemma_joined(p1, p2, p3 + v);
}

proof fn lemma_overlap(
    reuse: Seq<char>,
    a: Option<Seq<char>>,
    x: Seq<char>,
    b: Option<Seq<char>>,
    y: Seq<char>,
)
    requires
        reuse.len() > 2 && reuse[2] != 'q',
        importer::overlap_document(reuse, a) is Some,
        importer::overlap_document(reuse, b) is Some,
        importer::overlap_document(reuse, a)->0 + x == importer::overlap_document(reuse, b)->0 + y,
    ensures
        a == b,
        x == y,
{
    reveal_strlit("{\"kind\":\"RequireDecision\"}");
    reveal_strlit("{\"kind\":\"");
    let s = importer::overlap_document(reuse, a)->0 + x;
    let t = importer::overlap_document(reuse, b)->0 + y;
    match (a, b) {
        (None, None) => {
            descriptor_laws::lemma_same_part("{\"kind\":\"RequireDecision\"}"@, x, y);
        },
        (Some(u), Some(v)) => {
            let rest_a = outside::json_text(u)->0 + ("}"@ + x);
            let rest_b = outside::json_text(v)->0 + ("}"@ + y);
            assert(s =~= "{\"kind\":\""@ + (reuse + ("\",\"reason\":"@ + rest_a)));
            assert(t =~= "{\"kind\":\""@ + (reuse + ("\",\"reason\":"@ + rest_b)));
            descriptor_laws::lemma_same_part(
                "{\"kind\":\""@,
                reuse + ("\",\"reason\":"@ + rest_a),
                reuse + ("\",\"reason\":"@ + rest_b),
            );
            descriptor_laws::lemma_same_part(
                reuse,
                "\",\"reason\":"@ + rest_a,
                "\",\"reason\":"@ + rest_b,
            );
            descriptor_laws::lemma_same_part("\",\"reason\":"@, rest_a, rest_b);
            descriptor_laws::lemma_string(u, "}"@ + x, v, "}"@ + y);
            descriptor_laws::lemma_same_part("}"@, x, y);
        },
        (None, Some(v)) => {
            assert(s[11] == 'q');
            assert(t[11] == reuse[2]);
        },
        (Some(u), None) => {
            assert(t[11] == 'q');
            assert(s[11] == reuse[2]);
        },
    }
}

/// What a policy is known by says on whose behalf it is, and which overlaps it shares and for what
/// reason.
pub proof fn law_policies_are_told_apart(a: PolicyModel, b: PolicyModel)
    requires
        importer::policy_document(a) is Some,
        importer::policy_document(a) == importer::policy_document(b),
    ensures
        a.import_source == b.import_source,
        a.overlap == b.overlap,
        a.keyword_overlap == b.keyword_overlap,
        importer::artifact_input_list(a.artifacts, a.artifacts.len())
            == importer::artifact_input_list(b.artifacts, b.artifacts.len())
            ==> importer::supplement_input_list(a.supplements, a.supplements.len())
            == importer::supplement_input_list(b.supplements, b.supplements.len()),
{
    reveal_strlit("ReuseExactPath");
    reveal_strlit("ReuseExactHierarchy");
    let (oa, ob) = (outside::json_text(a.import_source)->0, outside::json_text(b.import_source)->0);
    let path = "ReuseExactPath"@;
    let words = "ReuseExactHierarchy"@;
    let (va, vb) = (
        importer::overlap_document(path, a.overlap)->0,
        importer::overlap_document(path, b.overlap)->0,
    );
    let (ka, kb) = (
        importer::overlap_document(words, a.keyword_overlap)->0,
        importer::overlap_document(words, b.keyword_overlap)->0,
    );
    let ra = importer::artifact_input_list(a.artifacts, a.artifacts.len())->0;
    let rb = importer::artifact_input_list(b.artifacts, b.artifacts.len())->0;
    let sa = importer::supplement_input_list(a.supplements, a.supplements.len())->0;
    let sb = importer::supplement_input_list(b.supplements, b.supplements.len())->0;
    let ya = "],\"supplements\":["@ + (sa + "]}"@);
    let yb = "],\"supplements\":["@ + (sb + "]}"@);
    let xa = ",\"artifacts\":["@ + (ra + ya);
    let xb = ",\"artifacts\":["@ + (rb + yb);
    let wa = ",\"keyword_overlap\":"@ + (ka + xa);
    let wb = ",\"keyword_overlap\":"@ + (kb + xb);
    let ta = ",\"overlap\":"@ + (va + wa);
    let tb = ",\"overlap\":"@ + (vb + wb);
    let head = "{\"import_source\":"@;
    lemma_eleven(
        head,
        oa,
        ",\"overlap\":"@,
        va,
        ",\"keyword_overlap\":"@,
        ka,
        ",\"artifacts\":["@,
        ra,
        "],\"supplements\":["@,
        sa,
        "]}"@,
    );
    assert(importer::policy_document(a)->0 == head + (oa + ta));
    lemma_eleven(
        head,
        ob,
        ",\"overlap\":"@,
        vb,
        ",\"keyword_overlap\":"@,
        kb,
        ",\"artifacts\":["@,
        rb,
        "],\"supplements\":["@,
        sb,
        "]}"@,
    );
    assert(importer::policy_document(b)->0 == head + (ob + tb));
    descriptor_laws::lemma_same_part(head, oa + ta, ob + tb);
    descriptor_laws::lemma_string(a.import_source, ta, b.import_source, tb);
    descriptor_laws::lemma_same_part(",\"overlap\":"@, va + wa, vb + wb);
    lemma_overlap(path, a.overlap, wa, b.overlap, wb);
    descriptor_laws::lemma_same_part(",\"keyword_overlap\":"@, ka + xa, kb + xb);
    lemma_overlap(words, a.keyword_overlap, xa, b.keyword_overlap, xb);
    descriptor_laws::lemma_same_part(",\"artifacts\":["@, ra + ya, rb + yb);
    if ra == rb {
        descriptor_laws::lemma_same_part(ra, ya, yb);
        descriptor_laws::lemma_same_part("],\"supplements\":["@, sa + "]}"@, sb + "]}"@);
        assert((sa + "]}"@).take(sa.len() as int) =~= sa);
        assert((sb + "]}"@).take(sb.len() as int) =~= sb);
        assert((sa + "]}"@).len() == (sb + "]}"@).len());
    }
}

proof fn lemma_origin(a: Origin, x: Seq<char>, b: Origin, y: Seq<char>)
    requires
        file_projection::origin_word(a) + x == file_projection::origin_word(b) + y,
    ensures
        a == b,
        x == y,
{
    reveal_strlit("\"Embedded\"");
    reveal_strlit("\"SidecarXmp\"");
    reveal_strlit("\"SidecarUpper\"");
    reveal_strlit("\"AppendedXmp\"");
    reveal_strlit("\"AppendedUpper\"");
    let u = file_projection::origin_word(a);
    let v = file_projection::origin_word(b);
    assert((u + x)[1] == u[1] && (v + y)[1] == v[1]);
    assert((u + x)[8] == u[8] && (v + y)[8] == v[8]);
    assert((u + x)[9] == u[9] && (v + y)[9] == v[9]);
    assert(a == b);
    descriptor_laws::lemma_same_part(u, x, y);
}

/// What is known of a supplement that a policy names says all of it.
pub proof fn law_supplements_are_told_apart(a: SupplementInputModel, b: SupplementInputModel)
    requires
        importer::supplement_input_document(a) is Some,
        importer::supplement_input_document(a) == importer::supplement_input_document(b),
    ensures
        a.capture_revision == b.capture_revision,
        a.source_id == b.source_id,
        a.origin == b.origin,
        a.evidence == b.evidence,
{
    let (ca, cb) = (
        outside::json_text(a.capture_revision)->0,
        outside::json_text(b.capture_revision)->0,
    );
    let (sa, sb) = (outside::json_text(a.source_id)->0, outside::json_text(b.source_id)->0);
    let (ea, eb) = (outside::json_text(a.evidence)->0, outside::json_text(b.evidence)->0);
    let (wa, wb) = (file_projection::origin_word(a.origin), file_projection::origin_word(b.origin));
    let ya = ",\"evidence\":"@ + (ea + "}"@);
    let yb = ",\"evidence\":"@ + (eb + "}"@);
    let xa = ",\"origin\":"@ + (wa + ya);
    let xb = ",\"origin\":"@ + (wb + yb);
    let ta = ",\"source_id\":"@ + (sa + xa);
    let tb = ",\"source_id\":"@ + (sb + xb);
    let head = "{\"capture_revision\":"@;
    lemma_nine(
        head,
        ca,
        ",\"source_id\":"@,
        sa,
        ",\"origin\":"@,
        wa,
        ",\"evidence\":"@,
        ea,
        "}"@,
    );
    assert(importer::supplement_input_document(a)->0 == head + (ca + ta));
    lemma_nine(
        head,
        cb,
        ",\"source_id\":"@,
        sb,
        ",\"origin\":"@,
        wb,
        ",\"evidence\":"@,
        eb,
        "}"@,
    );
    assert(importer::supplement_input_document(b)->0 == head + (cb + tb));
    descriptor_laws::lemma_same_part(head, ca + ta, cb + tb);
    descriptor_laws::lemma_string(a.capture_revision, ta, b.capture_revision, tb);
    descriptor_laws::lemma_same_part(",\"source_id\":"@, sa + xa, sb + xb);
    descriptor_laws::lemma_string(a.source_id, xa, b.source_id, xb);
    descriptor_laws::lemma_same_part(",\"origin\":"@, wa + ya, wb + yb);
    lemma_origin(a.origin, ya, b.origin, yb);
    descriptor_laws::lemma_same_part(",\"evidence\":"@, ea + "}"@, eb + "}"@);
    descriptor_laws::lemma_string(a.evidence, "}"@, b.evidence, "}"@);
}

/// What a record of a source is known by says which capture it is of, which row of a table it is
/// and which table that is.
pub proof fn law_sources_are_told_apart(a: SourceKeyModel, b: SourceKeyModel)
    requires
        images::source_document(a) is Some,
        images::source_document(a) == images::source_document(b),
    ensures
        a.capture_revision == b.capture_revision,
        a.key == b.key ==> a.table == b.table,
        a.table == b.table ==> a.key == b.key,
{
    let (ca, cb) = (
        outside::json_text(a.capture_revision)->0,
        outside::json_text(b.capture_revision)->0,
    );
    let (ta, tb) = (outside::json_text(a.table)->0, outside::json_text(b.table)->0);
    let ya = ",\"table\":"@ + (ta + "}"@);
    let yb = ",\"table\":"@ + (tb + "}"@);
    let xa = ",\"key\":"@ + (a.key + ya);
    let xb = ",\"key\":"@ + (b.key + yb);
    let head = "{\"capture_revision\":"@;
    assert(images::source_document(a)->0 =~= head + (ca + xa));
    assert(images::source_document(b)->0 =~= head + (cb + xb));
    descriptor_laws::lemma_same_part(head, ca + xa, cb + xb);
    descriptor_laws::lemma_string(a.capture_revision, xa, b.capture_revision, xb);
    descriptor_laws::lemma_same_part(",\"key\":"@, a.key + ya, b.key + yb);
    if a.key == b.key {
        descriptor_laws::lemma_same_part(a.key, ya, yb);
        descriptor_laws::lemma_same_part(",\"table\":"@, ta + "}"@, tb + "}"@);
        descriptor_laws::lemma_string(a.table, "}"@, b.table, "}"@);
    }
    if a.table == b.table {
        assert((a.key + ya).len() == (b.key + yb).len());
        assert((a.key + ya).take(a.key.len() as int) =~= a.key);
        assert((b.key + yb).take(b.key.len() as int) =~= b.key);
    }
}

/// A decision that retains a source is told by its reason, one that registers an image by its file,
/// its label and its role, and the one never from the other.
pub proof fn law_decisions_are_told_apart(a: Decision, b: Decision)
    requires
        images::decision_document(a) is Some,
        images::decision_document(a) == images::decision_document(b),
    ensures
        a is Retain <==> b is Retain,
        a is Retain ==> a->reason@ == b->reason@,
        a is Register && images::source_document(a->file@.target.source)
            == images::source_document(b->file@.target.source) ==> a->label@ == b->label@
            && images::role_document(a->role) == images::role_document(b->role),
{
    reveal_strlit("{\"retain\":");
    reveal_strlit("{\"file\":");
    let s = images::decision_document(a)->0;
    let t = images::decision_document(b)->0;
    assert(s[2] == t[2]);
    if a is Retain {
        assert(s[2] == 'r');
    } else {
        assert(s[2] == 'f');
    }
    if b is Retain {
        assert(t[2] == 'r');
    } else {
        assert(t[2] == 'f');
    }
    if a is Retain {
        let u = outside::json_text(a->reason@)->0;
        let v = outside::json_text(b->reason@)->0;
        assert(s =~= "{\"retain\":"@ + (u + "}"@));
        assert(t =~= "{\"retain\":"@ + (v + "}"@));
        descriptor_laws::lemma_same_part("{\"retain\":"@, u + "}"@, v + "}"@);
        descriptor_laws::lemma_string(a->reason@, "}"@, b->reason@, "}"@);
    } else if images::source_document(a->file@.target.source) == images::source_document(
        b->file@.target.source,
    ) {
        let f = images::source_document(a->file@.target.source)->0;
        let u = outside::json_text(a->label@)->0;
        let v = outside::json_text(b->label@)->0;
        let p = images::role_document(a->role)->0;
        let q = images::role_document(b->role)->0;
        let x = ",\"role\":"@ + (p + "}"@);
        let y = ",\"role\":"@ + (q + "}"@);
        let m = ",\"label\":"@ + (u + x);
        let n = ",\"label\":"@ + (v + y);
        assert(s =~= "{\"file\":"@ + (f + m));
        assert(t =~= "{\"file\":"@ + (f + n));
        descriptor_laws::lemma_same_part("{\"file\":"@, f + m, f + n);
        descriptor_laws::lemma_same_part(f, m, n);
        descriptor_laws::lemma_same_part(",\"label\":"@, u + x, v + y);
        descriptor_laws::lemma_string(a->label@, x, b->label@, y);
        descriptor_laws::lemma_same_part(",\"role\":"@, p + "}"@, q + "}"@);
        assert((p + "}"@).len() == (q + "}"@).len());
        assert((p + "}"@).take(p.len() as int) =~= p);
        assert((q + "}"@).take(q.len() as int) =~= q);
    }
}

/// The answer to an export tells its operation from others of the same receipt, and its receipt
/// from others of the same operation.
pub proof fn law_exports_are_told_apart(
    operation: Seq<char>,
    receipt: Seq<char>,
    other: Seq<char>,
    another: Seq<char>,
)
    requires
        exports::export_document(operation, receipt) == exports::export_document(other, another),
    ensures
        operation == other <==> receipt == another,
{
    let head = "{\"operation\":\""@;
    let x = "\",\"receipt\":"@ + (receipt + "}"@);
    let y = "\",\"receipt\":"@ + (another + "}"@);
    assert(exports::export_document(operation, receipt) =~= head + (operation + x));
    assert(exports::export_document(other, another) =~= head + (other + y));
    descriptor_laws::lemma_same_part(head, operation + x, other + y);
    assert((operation + x).len() == (other + y).len());
    if operation == other {
        descriptor_laws::lemma_same_part(operation, x, y);
        descriptor_laws::lemma_same_part("\",\"receipt\":"@, receipt + "}"@, another + "}"@);
        assert((receipt + "}"@).len() == (another + "}"@).len());
        assert((receipt + "}"@).take(receipt.len() as int) =~= receipt);
        assert((another + "}"@).take(another.len() as int) =~= another);
    }
    if receipt == another {
        assert((operation + x).take(operation.len() as int) =~= operation);
        assert((other + y).take(other.len() as int) =~= other);
    }
}

proof fn lemma_model(a: Option<i64>, x: Seq<char>, b: Option<i64>, y: Seq<char>)
    requires
        based_on(a) + x == based_on(b) + y,
        x.len() > 0 && !descriptor_laws::digit(x[0]),
        y.len() > 0 && !descriptor_laws::digit(y[0]),
    ensures
        a == b,
        x == y,
{
    reveal_strlit("null");
    reveal_strlit("-");
    assert((based_on(a) + x)[0] == (based_on(b) + y)[0]);
    if let Some(n) = a {
        crate::catalog_migration::file_history::lemma_decimal_value((if n < 0 { -n } else { n as int }) as nat);
        assert((based_on(a) + x)[0] == based_on(a)[0]);
    }
    if let Some(n) = b {
        crate::catalog_migration::file_history::lemma_decimal_value((if n < 0 { -n } else { n as int }) as nat);
        assert((based_on(b) + y)[0] == based_on(b)[0]);
    }
    match (a, b) {
        (None, None) => descriptor_laws::lemma_same_part("null"@, x, y),
        (Some(m), Some(n)) => descriptor_laws::lemma_signed(m, x, n, y),
        _ => {},
    }
}

/// The model that an edit rests on, in words.
pub open spec fn based_on(model: Option<i64>) -> Seq<char> {
    match model {
        None => "null"@,
        Some(n) => edit::signed_text(n),
    }
}

/// Where an edit comes from says which model and which revision it rests on, and what was edited.
pub proof fn law_edits_are_told_apart(a: EditRequest, b: EditRequest)
    requires
        edit::edit_provenance(a) == edit::edit_provenance(b),
    ensures
        a.base_model == b.base_model,
        a.expected_revision == b.expected_revision,
        a.edits@ == b.edits@,
{
    reveal_strlit(",\"based_on_revision\":");
    reveal_strlit(",\"edits\":");
    let ya = ",\"edits\":"@ + (a.edits@ + "}"@);
    let yb = ",\"edits\":"@ + (b.edits@ + "}"@);
    let ta = ",\"based_on_revision\":"@ + (edit::signed_text(a.expected_revision) + ya);
    let tb = ",\"based_on_revision\":"@ + (edit::signed_text(b.expected_revision) + yb);
    let head = "{\"base_model\":"@;
    assert(edit::edit_provenance(a) =~= head + (based_on(a.base_model) + ta));
    assert(edit::edit_provenance(b) =~= head + (based_on(b.base_model) + tb));
    descriptor_laws::lemma_same_part(
        head,
        based_on(a.base_model) + ta,
        based_on(b.base_model) + tb,
    );
    assert(ta[0] == ',' && tb[0] == ',');
    lemma_model(a.base_model, ta, b.base_model, tb);
    descriptor_laws::lemma_same_part(
        ",\"based_on_revision\":"@,
        edit::signed_text(a.expected_revision) + ya,
        edit::signed_text(b.expected_revision) + yb,
    );
    assert(ya[0] == ',' && yb[0] == ',');
    descriptor_laws::lemma_signed(a.expected_revision, ya, b.expected_revision, yb);
    descriptor_laws::lemma_same_part(",\"edits\":"@, a.edits@ + "}"@, b.edits@ + "}"@);
    assert((a.edits@ + "}"@).len() == (b.edits@ + "}"@).len());
    assert((a.edits@ + "}"@).take(a.edits@.len() as int) =~= a.edits@);
    assert((b.edits@ + "}"@).take(b.edits@.len() as int) =~= b.edits@);
}

/// What a file is known by says all of it.
pub proof fn law_files_are_told_apart(a: FileState, x: Seq<char>, b: FileState, y: Seq<char>)
    requires
        identity::file_part(a) is Some,
        identity::file_part(b) is Some,
        identity::file_part(a)->0 + x == identity::file_part(b)->0 + y,
    ensures
        a.blake3 == b.blake3,
        a.length == b.length,
        a.modified == b.modified,
        x == y,
{
    reveal_strlit(",\"modified_unix_ns\":");
    reveal_strlit("}");
    let (ca, cb) = (outside::json_text(a.blake3)->0, outside::json_text(b.blake3)->0);
    let (ma, mb) = (
        descriptor_laws::optional_text(a.modified),
        descriptor_laws::optional_text(b.modified),
    );
    let (na, nb) = (edit::decimal_text(a.length as nat), edit::decimal_text(b.length as nat));
    let ya = ",\"modified_unix_ns\":"@ + (ma + ("}"@ + x));
    let yb = ",\"modified_unix_ns\":"@ + (mb + ("}"@ + y));
    let ta = ",\"length\":"@ + (na + ya);
    let tb = ",\"length\":"@ + (nb + yb);
    let head = "{\"blake3\":"@;
    assert(identity::file_part(a)->0 + x =~= head + (ca + ta));
    assert(identity::file_part(b)->0 + y =~= head + (cb + tb));
    descriptor_laws::lemma_same_part(head, ca + ta, cb + tb);
    descriptor_laws::lemma_string(a.blake3, ta, b.blake3, tb);
    descriptor_laws::lemma_same_part(",\"length\":"@, na + ya, nb + yb);
    assert(ya[0] == ',' && yb[0] == ',');
    descriptor_laws::lemma_number(a.length as nat, ya, b.length as nat, yb);
    descriptor_laws::lemma_same_part(
        ",\"modified_unix_ns\":"@,
        ma + ("}"@ + x),
        mb + ("}"@ + y),
    );
    assert(("}"@ + x)[0] == '}' && ("}"@ + y)[0] == '}');
    descriptor_laws::lemma_optional(a.modified, "}"@ + x, b.modified, "}"@ + y);
    descriptor_laws::lemma_same_part("}"@, x, y);
}

/// What an observation is known by says what its issues are, and, of the same models and
/// packets, where it comes from, of which file it is and how complete it is.
pub proof fn law_observations_are_told_apart(
    a: prepared::PreparedObservation,
    from_a: Seq<char>,
    file_a: FileState,
    b: prepared::PreparedObservation,
    from_b: Seq<char>,
    file_b: FileState,
)
    requires
        identity::identity_document(a, from_a, file_a) is Some,
        identity::identity_document(a, from_a, file_a) == identity::identity_document(
            b,
            from_b,
            file_b,
        ),
    ensures
        a.issues == b.issues,
        a.models == b.models && a.packets == b.packets ==> from_a == from_b && file_a.blake3
            == file_b.blake3 && file_a.length == file_b.length && file_a.modified
            == file_b.modified && a.status == b.status,
{
    let (ia, ib) = (outside::json_text(a.issues)->0, outside::json_text(b.issues)->0);
    let ma = identity::model_parts(a.models, a.models.len())->0;
    let mb = identity::model_parts(b.models, b.models.len())->0;
    let pa = identity::packet_parts(a.packets, a.packets.len())->0;
    let pb = identity::packet_parts(b.packets, b.packets.len())->0;
    let (va, vb) = (outside::json_text(from_a)->0, outside::json_text(from_b)->0);
    let (fa, fb) = (identity::file_part(file_a)->0, identity::file_part(file_b)->0);
    let (sa, sb) = (outside::json_text(a.status)->0, outside::json_text(b.status)->0);
    let ea = ",\"status\":"@ + (sa + ",\"version\":1}"@);
    let eb = ",\"status\":"@ + (sb + ",\"version\":1}"@);
    let ra = ",\"source_revision\":"@ + (fa + ea);
    let rb = ",\"source_revision\":"@ + (fb + eb);
    let qa = "],\"provenance\":"@ + (va + ra);
    let qb = "],\"provenance\":"@ + (vb + rb);
    let ka = "],\"packets\":["@ + (pa + qa);
    let kb = "],\"packets\":["@ + (pb + qb);
    let ta = ",\"models\":["@ + (ma + ka);
    let tb = ",\"models\":["@ + (mb + kb);
    let head = "{\"issues\":"@;
    lemma_thirteen(
        head,
        ia,
        ",\"models\":["@,
        ma,
        "],\"packets\":["@,
        pa,
        "],\"provenance\":"@,
        va,
        ",\"source_revision\":"@,
        fa,
        ",\"status\":"@,
        sa,
        ",\"version\":1}"@,
    );
    assert(identity::identity_document(a, from_a, file_a)->0 == head + (ia + ta));
    lemma_thirteen(
        head,
        ib,
        ",\"models\":["@,
        mb,
        "],\"packets\":["@,
        pb,
        "],\"provenance\":"@,
        vb,
        ",\"source_revision\":"@,
        fb,
        ",\"status\":"@,
        sb,
        ",\"version\":1}"@,
    );
    assert(identity::identity_document(b, from_b, file_b)->0 == head + (ib + tb));
    descriptor_laws::lemma_same_part(head, ia + ta, ib + tb);
    descriptor_laws::lemma_string(a.issues, ta, b.issues, tb);
    if a.models == b.models && a.packets == b.packets {
        descriptor_laws::lemma_same_part(",\"models\":["@, ma + ka, mb + kb);
        descriptor_laws::lemma_same_part(ma, ka, kb);
        descriptor_laws::lemma_same_part("],\"packets\":["@, pa + qa, pb + qb);
        descriptor_laws::lemma_same_part(pa, qa, qb);
        descriptor_laws::lemma_same_part("],\"provenance\":"@, va + ra, vb + rb);
        descriptor_laws::lemma_string(from_a, ra, from_b, rb);
        descriptor_laws::lemma_same_part(",\"source_revision\":"@, fa + ea, fb + eb);
        law_files_are_told_apart(file_a, ea, file_b, eb);
        descriptor_laws::lemma_same_part(
            ",\"status\":"@,
            sa + ",\"version\":1}"@,
            sb + ",\"version\":1}"@,
        );
        descriptor_laws::lemma_string(a.status, ",\"version\":1}"@, b.status, ",\"version\":1}"@);
    }
}

/// What a repair is known by says all of what was asked for, of which source and of which policy.
pub proof fn law_repairs_are_told_apart(
    a: RequestModel,
    input_a: Seq<char>,
    policy_a: Seq<char>,
    b: RequestModel,
    input_b: Seq<char>,
    policy_b: Seq<char>,
)
    requires
        current_repair::binding_document(a, input_a, policy_a) is Some,
        current_repair::binding_document(a, input_a, policy_a) == current_repair::binding_document(
            b,
            input_b,
            policy_b,
        ),
    ensures
        a.run == b.run,
        a.expected_complete_progress_blake3 == b.expected_complete_progress_blake3,
        a.expected_mapping_epoch == b.expected_mapping_epoch,
        a.reason == b.reason,
        input_a == input_b,
        policy_a == policy_b,
{
    reveal_strlit(",\"reason\":");
    let head =
        "{\"adapter\":\"lightroom-current-container-repair-v1\",\"request\":{\"run\":"@;
    let done = ",\"expected_complete_progress_blake3\":"@;
    let epoch = ",\"expected_mapping_epoch\":"@;
    let (ra, rb) = (outside::json_text(a.run)->0, outside::json_text(b.run)->0);
    let pa = outside::json_text(a.expected_complete_progress_blake3)->0;
    let pb = outside::json_text(b.expected_complete_progress_blake3)->0;
    let ea = edit::signed_text(a.expected_mapping_epoch);
    let eb = edit::signed_text(b.expected_mapping_epoch);
    let (wa, wb) = (outside::json_text(a.reason)->0, outside::json_text(b.reason)->0);
    let (ia, ib) = (outside::json_text(input_a)->0, outside::json_text(input_b)->0);
    let (ya, yb) = (outside::json_text(policy_a)->0, outside::json_text(policy_b)->0);
    let (t6a, t6b) = (",\"policy_blake3\":"@ + (ya + "}"@), ",\"policy_blake3\":"@ + (yb + "}"@));
    let (t5a, t5b) = ("},\"input\":"@ + (ia + t6a), "},\"input\":"@ + (ib + t6b));
    let (t4a, t4b) = (",\"reason\":"@ + (wa + t5a), ",\"reason\":"@ + (wb + t5b));
    let (t3a, t3b) = (epoch + (ea + t4a), epoch + (eb + t4b));
    let (t2a, t2b) = (done + (pa + t3a), done + (pb + t3b));
    lemma_thirteen(
        head, ra, done, pa, epoch, ea, ",\"reason\":"@, wa, "},\"input\":"@, ia, ",\"policy_blake3\":"@, ya, "}"@,
    );
    lemma_thirteen(
        head, rb, done, pb, epoch, eb, ",\"reason\":"@, wb, "},\"input\":"@, ib, ",\"policy_blake3\":"@, yb, "}"@,
    );
    assert(current_repair::binding_document(a, input_a, policy_a)->0 == head + (ra + t2a));
    assert(current_repair::binding_document(b, input_b, policy_b)->0 == head + (rb + t2b));
    descriptor_laws::lemma_same_part(head, ra + t2a, rb + t2b);
    descriptor_laws::lemma_string(a.run, t2a, b.run, t2b);
    descriptor_laws::lemma_same_part(done, pa + t3a, pb + t3b);
    descriptor_laws::lemma_string(
        a.expected_complete_progress_blake3,
        t3a,
        b.expected_complete_progress_blake3,
        t3b,
    );
    descriptor_laws::lemma_same_part(epoch, ea + t4a, eb + t4b);
    assert(t4a[0] == ',' && t4b[0] == ',');
    descriptor_laws::lemma_signed(a.expected_mapping_epoch, t4a, b.expected_mapping_epoch, t4b);
    descriptor_laws::lemma_same_part(",\"reason\":"@, wa + t5a, wb + t5b);
    descriptor_laws::lemma_string(a.reason, t5a, b.reason, t5b);
    descriptor_laws::lemma_same_part("},\"input\":"@, ia + t6a, ib + t6b);
    descriptor_laws::lemma_string(input_a, t6a, input_b, t6b);
    descriptor_laws::lemma_same_part(",\"policy_blake3\":"@, ya + "}"@, yb + "}"@);
    descriptor_laws::lemma_string(policy_a, "}"@, policy_b, "}"@);
}

/// What a packet is known by says all of it.
pub proof fn law_packets_are_told_apart(
    a: prepared::PreparedPacketModel,
    b: prepared::PreparedPacketModel,
)
    requires
        identity::packet_part(a) is Some,
        identity::packet_part(a) == identity::packet_part(b),
    ensures
        a.hash == b.hash,
        a.descriptor == b.descriptor,
{
    let (ha, hb) = (outside::json_text(a.hash)->0, outside::json_text(b.hash)->0);
    let (da, db) = (outside::json_text(a.descriptor)->0, outside::json_text(b.descriptor)->0);
    let (xa, xb) = (","@ + (da + "]"@), ","@ + (db + "]"@));
    lemma_five("["@, ha, ","@, da, "]"@);
    lemma_five("["@, hb, ","@, db, "]"@);
    descriptor_laws::lemma_same_part("["@, ha + xa, hb + xb);
    descriptor_laws::lemma_string(a.hash, xa, b.hash, xb);
    descriptor_laws::lemma_same_part(","@, da + "]"@, db + "]"@);
    descriptor_laws::lemma_string(a.descriptor, "]"@, b.descriptor, "]"@);
}

/// What a model is known by says which bytes it was read from and by what descriptor, and, of
/// the same projection, what went wrong.
pub proof fn law_models_are_told_apart(
    a: prepared::PreparedModelModel,
    b: prepared::PreparedModelModel,
)
    requires
        identity::model_part(a) is Some,
        identity::model_part(a) == identity::model_part(b),
    ensures
        a.hash == b.hash,
        a.descriptor == b.descriptor,
        a.projection == b.projection ==> a.error == b.error,
        a.error == b.error ==> a.projection == b.projection,
{
    reveal_strlit("null");
    let (ha, hb) = (outside::json_text(a.hash)->0, outside::json_text(b.hash)->0);
    let (da, db) = (outside::json_text(a.descriptor)->0, outside::json_text(b.descriptor)->0);
    let (ea, eb) = (identity::nullable(a.error)->0, identity::nullable(b.error)->0);
    let (za, zb) = (","@ + (ea + "]"@), ","@ + (eb + "]"@));
    let (ya, yb) = (","@ + (a.projection + za), ","@ + (b.projection + zb));
    let (xa, xb) = (","@ + (da + ya), ","@ + (db + yb));
    lemma_nine("["@, ha, ","@, da, ","@, a.projection, ","@, ea, "]"@);
    lemma_nine("["@, hb, ","@, db, ","@, b.projection, ","@, eb, "]"@);
    descriptor_laws::lemma_same_part("["@, ha + xa, hb + xb);
    descriptor_laws::lemma_string(a.hash, xa, b.hash, xb);
    descriptor_laws::lemma_same_part(","@, da + ya, db + yb);
    descriptor_laws::lemma_string(a.descriptor, ya, b.descriptor, yb);
    descriptor_laws::lemma_same_part(","@, a.projection + za, b.projection + zb);
    assert((a.projection + za).len() == (b.projection + zb).len());
    if a.projection == b.projection {
        descriptor_laws::lemma_same_part(a.projection, za, zb);
        descriptor_laws::lemma_same_part(","@, ea + "]"@, eb + "]"@);
        assert((ea + "]"@)[0] == ea[0] && (eb + "]"@)[0] == eb[0]) by {
            lemma_quoted(a.error);
            lemma_quoted(b.error);
        }
        lemma_quoted(a.error);
        lemma_quoted(b.error);
        match (a.error, b.error) {
            (Some(u), Some(v)) => {
                descriptor_laws::lemma_string(u, "]"@, v, "]"@);
            },
            _ => {},
        }
    }
    if a.error == b.error {
        assert((a.projection + za).take(a.projection.len() as int) =~= a.projection);
        assert((b.projection + zb).take(b.projection.len() as int) =~= b.projection);
    }
}

proof fn lemma_quoted(text: Option<Seq<char>>)
    requires
        identity::nullable(text) is Some,
    ensures
        identity::nullable(text)->0.len() > 0,
        identity::nullable(text)->0[0] == if text is Some {
            '"'
        } else {
            'n'
        },
{
    reveal_strlit("null");
    reveal(outside::json_text);
}

/// What an input is known by says of which group it is and, of the same packets, how it came
/// about.
pub proof fn law_inputs_are_told_apart(
    a: prepared::ParseInput,
    b: prepared::ParseInput,
)
    requires
        documents::input_document(a) == documents::input_document(b),
    ensures
        a.group@ == b.group@,
        a.packet_indices@ == b.packet_indices@ ==> a.transformation@ == b.transformation@,
        a.transformation@ == b.transformation@ ==> documents::positions_text(
            a.packet_indices@,
            a.packet_indices@.len(),
        ) == documents::positions_text(b.packet_indices@, b.packet_indices@.len()),
{
    let head = "{\"group\":"@;
    let (ga, gb) = (documents::quoted(a.group@), documents::quoted(b.group@));
    let pa = documents::positions_text(a.packet_indices@, a.packet_indices@.len());
    let pb = documents::positions_text(b.packet_indices@, b.packet_indices@.len());
    let (ta, tb) = (documents::quoted(a.transformation@), documents::quoted(b.transformation@));
    let (ya, yb) = ("],\"transformation\":"@ + (ta + "}"@), "],\"transformation\":"@ + (tb + "}"@));
    let (xa, xb) = (",\"packet_indices\":["@ + (pa + ya), ",\"packet_indices\":["@ + (pb + yb));
    assert(documents::input_document(a) =~= head + (ga + xa));
    assert(documents::input_document(b) =~= head + (gb + xb));
    descriptor_laws::lemma_same_part(head, ga + xa, gb + xb);
    descriptor_laws::lemma_string(a.group@, xa, b.group@, xb);
    descriptor_laws::lemma_same_part(",\"packet_indices\":["@, pa + ya, pb + yb);
    assert((pa + ya).len() == (pb + yb).len());
    if pa == pb {
        descriptor_laws::lemma_same_part(pa, ya, yb);
        descriptor_laws::lemma_same_part("],\"transformation\":"@, ta + "}"@, tb + "}"@);
        descriptor_laws::lemma_string(a.transformation@, "}"@, b.transformation@, "}"@);
    }
    if ta == tb {
        assert((pa + ya).take(pa.len() as int) =~= pa);
        assert((pb + yb).take(pb.len() as int) =~= pb);
    }
}

/// What a packet's place is known by says, of the same attributes, in which container and in which
/// group it stood, and what stretches it was made of.
pub proof fn law_places_are_told_apart(a: prepared::Packet, b: prepared::Packet)
    requires
        documents::packet_document(a) == documents::packet_document(b),
        a.attributes@ == b.attributes@,
    ensures
        a.container@ == b.container@,
        a.group@ == b.group@,
        documents::ranges_text(a.ranges@, a.ranges@.len()) == documents::ranges_text(
            b.ranges@,
            b.ranges@.len(),
        ),
{
    let head = "{\"attributes\":"@;
    let (ca, cb) = (documents::quoted(a.container@), documents::quoted(b.container@));
    let (ga, gb) = (documents::quoted(a.group@), documents::quoted(b.group@));
    let ra = documents::ranges_text(a.ranges@, a.ranges@.len());
    let rb = documents::ranges_text(b.ranges@, b.ranges@.len());
    let (za, zb) = (",\"ranges\":["@ + (ra + "]}"@), ",\"ranges\":["@ + (rb + "]}"@));
    let (ya, yb) = (",\"group\":"@ + (ga + za), ",\"group\":"@ + (gb + zb));
    let (xa, xb) = (",\"container\":"@ + (ca + ya), ",\"container\":"@ + (cb + yb));
    lemma_nine(head, a.attributes@, ",\"container\":"@, ca, ",\"group\":"@, ga, ",\"ranges\":["@, ra, "]}"@);
    lemma_nine(head, b.attributes@, ",\"container\":"@, cb, ",\"group\":"@, gb, ",\"ranges\":["@, rb, "]}"@);
    descriptor_laws::lemma_same_part(head, a.attributes@ + xa, b.attributes@ + xb);
    descriptor_laws::lemma_same_part(a.attributes@, xa, xb);
    descriptor_laws::lemma_same_part(",\"container\":"@, ca + ya, cb + yb);
    descriptor_laws::lemma_string(a.container@, ya, b.container@, yb);
    descriptor_laws::lemma_same_part(",\"group\":"@, ga + za, gb + zb);
    descriptor_laws::lemma_string(a.group@, za, b.group@, zb);
    descriptor_laws::lemma_same_part(",\"ranges\":["@, ra + "]}"@, rb + "]}"@);
    assert((ra + "]}"@).len() == (rb + "]}"@).len());
    assert((ra + "]}"@).take(ra.len() as int) =~= ra);
    assert((rb + "]}"@).take(rb.len() as int) =~= rb);
}

/// What a merged model is known by says from which inputs it was merged, under which identity, and
/// from which packets.
pub proof fn law_merged_models_are_told_apart(
    main: nat,
    extension: nat,
    guid: Seq<char>,
    indices: Seq<usize>,
    other_main: nat,
    other_extension: nat,
    other_guid: Seq<char>,
    other_indices: Seq<usize>,
)
    requires
        documents::merged_document(main, extension, guid, indices) == documents::merged_document(
            other_main,
            other_extension,
            other_guid,
            other_indices,
        ),
    ensures
        main == other_main,
        extension == other_extension,
        guid == other_guid,
        documents::positions_text(indices, indices.len()) == documents::positions_text(
            other_indices,
            other_indices.len(),
        ),
{
    reveal_strlit(",");
    reveal_strlit("],\"guid\":");
    let head = "{\"derived_from_inputs\":["@;
    let (ma, mb) = (edit::decimal_text(main), edit::decimal_text(other_main));
    let (ea, eb) = (edit::decimal_text(extension), edit::decimal_text(other_extension));
    let (ga, gb) = (documents::quoted(guid), documents::quoted(other_guid));
    let pa = documents::positions_text(indices, indices.len());
    let pb = documents::positions_text(other_indices, other_indices.len());
    let end = "],\"transformation\":\"JpegMainAndExtendedMerged\"}"@;
    let (za, zb) = (",\"packet_indices\":["@ + (pa + end), ",\"packet_indices\":["@ + (pb + end));
    let (ya, yb) = ("],\"guid\":"@ + (ga + za), "],\"guid\":"@ + (gb + zb));
    let (xa, xb) = (","@ + (ea + ya), ","@ + (eb + yb));
    lemma_nine(head, ma, ","@, ea, "],\"guid\":"@, ga, ",\"packet_indices\":["@, pa, end);
    lemma_nine(head, mb, ","@, eb, "],\"guid\":"@, gb, ",\"packet_indices\":["@, pb, end);
    descriptor_laws::lemma_same_part(head, ma + xa, mb + xb);
    assert(xa[0] == ',' && xb[0] == ',');
    descriptor_laws::lemma_number(main, xa, other_main, xb);
    descriptor_laws::lemma_same_part(","@, ea + ya, eb + yb);
    assert(ya[0] == ']' && yb[0] == ']');
    descriptor_laws::lemma_number(extension, ya, other_extension, yb);
    descriptor_laws::lemma_same_part("],\"guid\":"@, ga + za, gb + zb);
    descriptor_laws::lemma_string(guid, za, other_guid, zb);
    descriptor_laws::lemma_same_part(",\"packet_indices\":["@, pa + end, pb + end);
    assert((pa + end).len() == (pb + end).len());
    assert((pa + end).take(pa.len() as int) =~= pa);
    assert((pb + end).take(pb.len() as int) =~= pb);
}

/// Where a sidecar was discovered says how many photos and whether several sidecars matched.
pub proof fn law_discoveries_are_told_apart(photos: nat, multiple: bool, others: nat, more: bool)
    requires
        discovery::discovery_document(photos, multiple) == discovery::discovery_document(others, more),
    ensures
        photos == others,
        multiple == more,
{
    reveal_strlit(",\"matching_sidecars\":\"multiple\"}");
    reveal_strlit(",\"matching_sidecars\":\"one\"}");
    let head =
        "{\"discovery\":\"case-insensitive stem or full filename plus .xmp\",\"matching_photos\":"@;
    let x = if multiple {
        ",\"matching_sidecars\":\"multiple\"}"@
    } else {
        ",\"matching_sidecars\":\"one\"}"@
    };
    let y = if more {
        ",\"matching_sidecars\":\"multiple\"}"@
    } else {
        ",\"matching_sidecars\":\"one\"}"@
    };
    descriptor_laws::lemma_joined(head, edit::decimal_text(photos), x);
    descriptor_laws::lemma_joined(head, edit::decimal_text(others), y);
    descriptor_laws::lemma_same_part(head, edit::decimal_text(photos) + x, edit::decimal_text(others) + y);
    descriptor_laws::lemma_number(photos, x, others, y);
    assert(x.len() == y.len());
}

} // verus!

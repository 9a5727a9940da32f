//! The laws of descriptors: the bytes that one is kept as tell it apart from every other,
//! and are taken back.
use crate::catalog_metadata::edit;
use crate::catalog_migration::artifacts;
use crate::catalog_migration::artifacts::{
    ArtifactDescriptorModel, ArtifactError, ArtifactMappingModel, ArtifactModel,
    ArtifactRequestModel, FileIdentityModel,
};
use crate::catalog_migration::file_content;
use crate::catalog_migration::file_history;
use crate::catalog_migration::retained;
use crate::outside;
use crate::support;
use vstd::prelude::*;
use vstd::utf8::*;

verus! {

/// Two texts that begin with the same part go on alike.
pub(crate) proof fn lemma_same_part(part: Seq<char>, x: Seq<char>, y: Seq<char>)
    requires
        part + x == part + y,
    ensures
        x == y,
{
    assert((part + x).skip(part.len() as int) =~= x);
    assert((part + y).skip(part.len() as int) =~= y);
}

/// Parts can be joined in any order.
pub(crate) proof fn lemma_joined(a: Seq<char>, b: Seq<char>, c: Seq<char>)
    ensures
        (a + b) + c == a + (b + c),
{
    assert((a + b) + c =~= a + (b + c));
}

/// Two parts of the same length that two equal texts begin with are the same.
proof fn lemma_split(a: Seq<char>, x: Seq<char>, b: Seq<char>, y: Seq<char>)
    requires
        a + x == b + y,
        a.len() == b.len(),
    ensures
        a == b,
        x == y,
{
    assert((a + x).take(a.len() as int) =~= a);
    assert((b + y).take(b.len() as int) =~= b);
    lemma_same_part(a, x, y);
}

/// A part that holds nothing of a kind, before something of that kind, is told by
/// where the first such character stands.
proof fn lemma_ends(
    a: Seq<char>,
    x: Seq<char>,
    b: Seq<char>,
    y: Seq<char>,
    p: spec_fn(char) -> bool,
)
    requires
        a + x == b + y,
        x.len() > 0 && !p(x[0]),
        y.len() > 0 && !p(y[0]),
        forall|i: int| 0 <= i < a.len() ==> p(#[trigger] a[i]),
        forall|i: int| 0 <= i < b.len() ==> p(#[trigger] b[i]),
    ensures
        a == b,
        x == y,
{
    if a.len() < b.len() {
        assert((a + x)[a.len() as int] == x[0]);
        assert((b + y)[a.len() as int] == b[a.len() as int]);
    }
    if b.len() < a.len() {
        assert((b + y)[b.len() as int] == y[0]);
        assert((a + x)[b.len() as int] == a[b.len() as int]);
    }
    lemma_split(a, x, b, y);
}

/// A character within a string, without what follows it.
proof fn lemma_escaped(a: char, x: Seq<char>, b: char, y: Seq<char>)
    requires
        outside::json_escaped(a) + x == outside::json_escaped(b) + y,
    ensures
        a == b,
        x == y,
{
    let s = outside::json_escaped(a) + x;
    let t = outside::json_escaped(b) + y;
    assert(s[0] == outside::json_escaped(a)[0]);
    assert(t[0] == outside::json_escaped(b)[0]);
    if s[0] == '\\' {
        assert(s[1] == outside::json_escaped(a)[1]);
        assert(t[1] == outside::json_escaped(b)[1]);
        if s[1] == 'u' {
            assert(s[4] == outside::json_escaped(a)[4]);
            assert(t[4] == outside::json_escaped(b)[4]);
            assert(s[5] == outside::json_escaped(a)[5]);
            assert(t[5] == outside::json_escaped(b)[5]);
        }
    }
    assert(a == b);
    lemma_same_part(outside::json_escaped(a), x, y);
}

/// What a string holds, up to its end.
proof fn lemma_string_body(a: Seq<char>, x: Seq<char>, b: Seq<char>, y: Seq<char>)
    requires
        body(a) + (seq!['"'] + x) == body(b) + (seq!['"'] + y),
    ensures
        a == b,
        x == y,
    decreases a.len() + b.len(),
{
    lemma_body(a);
    lemma_body(b);
    let s = body(a) + (seq!['"'] + x);
    let t = body(b) + (seq!['"'] + y);
    if a.len() == 0 {
        assert(s[0] == '"');
        if b.len() > 0 {
            assert(t[0] == outside::json_escaped(b[0])[0]);
        }
        assert(a =~= b);
        lemma_same_part(seq!['"'], x, y);
    } else if b.len() == 0 {
        assert(t[0] == '"');
        assert(s[0] == outside::json_escaped(a[0])[0]);
    } else {
        let u = body(a.drop_first()) + (seq!['"'] + x);
        let v = body(b.drop_first()) + (seq!['"'] + y);
        assert(s =~= outside::json_escaped(a[0]) + u);
        assert(t =~= outside::json_escaped(b[0]) + v);
        lemma_escaped(a[0], u, b[0], v);
        lemma_string_body(a.drop_first(), x, b.drop_first(), y);
        assert(a =~= seq![a[0]] + a.drop_first());
        assert(b =~= seq![b[0]] + b.drop_first());
    }
}

/// A text as it is written within a string.
pub open spec fn body(text: Seq<char>) -> Seq<char> {
    text.map_values(|c: char| outside::json_escaped(c)).flatten()
}

proof fn lemma_body(text: Seq<char>)
    ensures
        text.len() == 0 ==> body(text) == Seq::<char>::empty(),
        text.len() > 0 ==> body(text) == outside::json_escaped(text[0]) + body(text.drop_first()),
{
    let f = |c: char| outside::json_escaped(c);
    if text.len() > 0 {
        assert(text.map_values(f).drop_first() =~= text.drop_first().map_values(f));
    }
}

/// A string, without what follows it.
pub(crate) proof fn lemma_string(a: Seq<char>, x: Seq<char>, b: Seq<char>, y: Seq<char>)
    requires
        outside::json_text(a)->0 + x == outside::json_text(b)->0 + y,
    ensures
        a == b,
        x == y,
{
    reveal(outside::json_text);
    let u = body(a) + (seq!['"'] + x);
    let v = body(b) + (seq!['"'] + y);
    assert(outside::json_text(a)->0 + x =~= seq!['"'] + u);
    assert(outside::json_text(b)->0 + y =~= seq!['"'] + v);
    lemma_same_part(seq!['"'], u, v);
    lemma_string_body(a, x, b, y);
}

/// A decimal digit.
pub open spec fn digit(c: char) -> bool {
    '0' <= c <= '9'
}

/// A number, without what follows it.
pub(crate) proof fn lemma_number(a: nat, x: Seq<char>, b: nat, y: Seq<char>)
    requires
        edit::decimal_text(a) + x == edit::decimal_text(b) + y,
        x.len() > 0 && !digit(x[0]),
        y.len() > 0 && !digit(y[0]),
    ensures
        a == b,
        x == y,
{
    file_history::lemma_decimal_value(a);
    file_history::lemma_decimal_value(b);
    lemma_ends(edit::decimal_text(a), x, edit::decimal_text(b), y, |c: char| digit(c));
}

/// A number with its sign, without what follows it.
pub(crate) proof fn lemma_signed(a: i64, x: Seq<char>, b: i64, y: Seq<char>)
    requires
        edit::signed_text(a) + x == edit::signed_text(b) + y,
        x.len() > 0 && !digit(x[0]),
        y.len() > 0 && !digit(y[0]),
    ensures
        a == b,
        x == y,
{
    reveal_strlit("-");
    let s = edit::signed_text(a) + x;
    let t = edit::signed_text(b) + y;
    let m = edit::decimal_text((if a < 0 { -a } else { a as int }) as nat);
    let n = edit::decimal_text((if b < 0 { -b } else { b as int }) as nat);
    file_history::lemma_decimal_value((if a < 0 { -a } else { a as int }) as nat);
    file_history::lemma_decimal_value((if b < 0 { -b } else { b as int }) as nat);
    assert(s[0] == edit::signed_text(a)[0]);
    assert(t[0] == edit::signed_text(b)[0]);
    assert(digit(m[0]) && digit(n[0]));
    if a < 0 {
        assert(s =~= "-"@ + (m + x));
        assert(t =~= "-"@ + (n + y));
        lemma_same_part("-"@, m + x, n + y);
    }
    lemma_number(
        (if a < 0 { -a } else { a as int }) as nat,
        x,
        (if b < 0 { -b } else { b as int }) as nat,
        y,
    );
}

/// A number or nothing, without what follows it.
pub open spec fn optional_text(n: Option<u128>) -> Seq<char> {
    match n {
        None => "null"@,
        Some(n) => edit::decimal_text(n as nat),
    }
}

pub(crate) proof fn lemma_optional(a: Option<u128>, x: Seq<char>, b: Option<u128>, y: Seq<char>)
    requires
        optional_text(a) + x == optional_text(b) + y,
        x.len() > 0 && !digit(x[0]),
        y.len() > 0 && !digit(y[0]),
    ensures
        a == b,
        x == y,
{
    reveal_strlit("null");
    assert((optional_text(a) + x)[0] == optional_text(a)[0]) by {
        if let Some(n) = a {
            file_history::lemma_decimal_value(n as nat);
        }
    }
    assert((optional_text(b) + y)[0] == optional_text(b)[0]) by {
        if let Some(n) = b {
            file_history::lemma_decimal_value(n as nat);
        }
    }
    match (a, b) {
        (None, None) => lemma_same_part("null"@, x, y),
        (Some(m), Some(n)) => lemma_number(m as nat, x, n as nat, y),
        (Some(m), None) => {
            file_history::lemma_decimal_value(m as nat);
            assert(digit(optional_text(a)[0]));
        },
        (None, Some(n)) => {
            file_history::lemma_decimal_value(n as nat);
            assert(digit(optional_text(b)[0]));
        },
    }
}

/// A character of a list of numbers.
pub open spec fn listed(c: char) -> bool {
    digit(c) || c == ','
}

proof fn lemma_listed(values: Seq<nat>, n: nat)
    ensures
        forall|i: int|
            0 <= i < file_content::numbers_text(values, n).len() ==> listed(
                #[trigger] file_content::numbers_text(values, n)[i],
            ),
        n > 0 ==> file_content::numbers_text(values, n).len() >= 2 * n - 1,
        n > 0 ==> digit(file_content::numbers_text(values, n).last()),
        n <= 1 ==> forall|i: int|
            0 <= i < file_content::numbers_text(values, n).len() ==> digit(
                #[trigger] file_content::numbers_text(values, n)[i],
            ),
    decreases n,
{
    reveal_strlit("");
    reveal_strlit(",");
    if n > 0 {
        lemma_listed(values, (n - 1) as nat);
        file_history::lemma_decimal_value(values[n - 1]);
        if n == 1 {
            assert(file_content::numbers_text(values, 0).len() == 0);
        }
    }
}

/// Two lists that are written alike are the same.
proof fn lemma_same_list(v: Seq<nat>, n: nat, w: Seq<nat>, k: nat)
    requires
        n <= v.len(),
        k <= w.len(),
        file_content::numbers_text(v, n) == file_content::numbers_text(w, k),
    ensures
        n == k,
        v.take(n as int) == w.take(k as int),
    decreases n,
{
    reveal_strlit("");
    reveal_strlit(",");
    let s = file_content::numbers_text(v, n);
    lemma_listed(v, n);
    lemma_listed(w, k);
    if n > 0 && k > 0 {
        let a = edit::decimal_text(v[n - 1]);
        let b = edit::decimal_text(w[k - 1]);
        file_history::lemma_decimal_value(v[n - 1]);
        file_history::lemma_decimal_value(w[k - 1]);
        let head_a = file_content::numbers_text(v, (n - 1) as nat);
        let head_b = file_content::numbers_text(w, (k - 1) as nat);
        if n > 1 && k > 1 {
            let comma_a = head_a.len() as int;
            let comma_b = head_b.len() as int;
            assert(s =~= head_a + ","@ + a);
            assert(s =~= head_b + ","@ + b);
            assert(s[comma_a] == ',' && s[comma_b] == ',');
            if comma_a < comma_b {
                assert(s[comma_b] == a[comma_b - comma_a - 1]);
            }
            if comma_b < comma_a {
                assert(s[comma_a] == b[comma_a - comma_b - 1]);
            }
            assert(head_a =~= s.take(comma_a));
            assert(head_b =~= s.take(comma_b));
            assert(a =~= s.skip(comma_a + 1));
            assert(b =~= s.skip(comma_b + 1));
            lemma_same_list(v, (n - 1) as nat, w, (k - 1) as nat);
        } else if n > 1 {
            assert(s =~= head_a + ","@ + a);
            assert(s[head_a.len() as int] == ',');
        } else if k > 1 {
            assert(s =~= head_b + ","@ + b);
            assert(s[head_b.len() as int] == ',');
        } else {
            assert(head_a.len() == 0 && head_b.len() == 0);
            assert(s =~= a && s =~= b);
            assert(v.take(0) =~= w.take(0));
        }
        assert(v.take(n as int) =~= v.take(n - 1).push(v[n - 1]));
        assert(w.take(k as int) =~= w.take(k - 1).push(w[k - 1]));
    } else {
        assert(v.take(0) =~= w.take(0));
    }
}

/// A list and its end, without what follows.
proof fn lemma_list(v: Seq<nat>, x: Seq<char>, w: Seq<nat>, y: Seq<char>)
    requires
        file_content::numbers_text(v, v.len()) + ("]}"@ + x) == file_content::numbers_text(
            w,
            w.len(),
        ) + ("]}"@ + y),
    ensures
        v == w,
        x == y,
{
    reveal_strlit("]}");
    lemma_listed(v, v.len());
    lemma_listed(w, w.len());
    lemma_ends(
        file_content::numbers_text(v, v.len()),
        "]}"@ + x,
        file_content::numbers_text(w, w.len()),
        "]}"@ + y,
        |c: char| listed(c),
    );
    lemma_same_part("]}"@, x, y);
    lemma_same_list(v, v.len(), w, w.len());
    assert(v.take(v.len() as int) =~= v);
    assert(w.take(w.len() as int) =~= w);
}

/// A path, without what follows it.
proof fn lemma_path(a: retained::PathModel, x: Seq<char>, b: retained::PathModel, y: Seq<char>)
    requires
        file_content::path_document(a) + x == file_content::path_document(b) + y,
    ensures
        a == b,
        x == y,
{
    let unix = "{\"encoding\":\"UnixBytes\",\"units\":["@;
    let wide = "{\"encoding\":\"WindowsWide\",\"units\":["@;
    reveal_strlit("{\"encoding\":\"UnixBytes\",\"units\":[");
    reveal_strlit("{\"encoding\":\"WindowsWide\",\"units\":[");
    let s = file_content::path_document(a) + x;
    let t = file_content::path_document(b) + y;
    match (a, b) {
        (retained::PathModel::UnixBytes(v), retained::PathModel::UnixBytes(w)) => {
            let m = v.map_values(|b: u8| b as nat);
            let n = w.map_values(|b: u8| b as nat);
            let u = file_content::numbers_text(m, m.len()) + ("]}"@ + x);
            let z = file_content::numbers_text(n, n.len()) + ("]}"@ + y);
            assert(s =~= unix + u);
            assert(t =~= unix + z);
            lemma_same_part(unix, u, z);
            lemma_list(m, x, n, y);
            assert forall|i: int| 0 <= i < v.len() implies v[i] == w[i] by {
                assert(m[i] == n[i]);
            }
            assert(v =~= w);
        },
        (retained::PathModel::WindowsWide(v), retained::PathModel::WindowsWide(w)) => {
            let m = v.map_values(|b: u16| b as nat);
            let n = w.map_values(|b: u16| b as nat);
            let u = file_content::numbers_text(m, m.len()) + ("]}"@ + x);
            let z = file_content::numbers_text(n, n.len()) + ("]}"@ + y);
            assert(s =~= wide + u);
            assert(t =~= wide + z);
            lemma_same_part(wide, u, z);
            lemma_list(m, x, n, y);
            assert forall|i: int| 0 <= i < v.len() implies v[i] == w[i] by {
                assert(m[i] == n[i]);
            }
            assert(v =~= w);
        },
        (retained::PathModel::UnixBytes(_), retained::PathModel::WindowsWide(_)) => {
            assert(s[13] == 'U' && t[13] == 'W');
        },
        (retained::PathModel::WindowsWide(_), retained::PathModel::UnixBytes(_)) => {
            assert(s[13] == 'W' && t[13] == 'U');
        },
    }
}

/// The parts that an identity is written in.
proof fn lemma_identity_parts(i: FileIdentityModel, x: Seq<char>) -> (parts: (
    Seq<char>,
    Seq<char>,
    Seq<char>,
    Seq<char>,
))
    requires
        artifacts::identity_document(i) is Some,
    ensures
        artifacts::identity_document(i)->0 + x == "{\"object\":"@ + (outside::json_text(i.object)->0
            + parts.0),
        parts.0 == ",\"bytes\":"@ + (edit::decimal_text(i.bytes as nat) + parts.1),
        parts.1 == ",\"modified_ns\":"@ + (optional_text(i.modified_ns) + parts.2),
        parts.2 == ",\"changed\":"@ + (outside::json_text(i.changed)->0 + parts.3),
        parts.3 == "}"@ + x,
{
    let d = "}"@ + x;
    let c = ",\"changed\":"@ + (outside::json_text(i.changed)->0 + d);
    let b = ",\"modified_ns\":"@ + (optional_text(i.modified_ns) + c);
    let a = ",\"bytes\":"@ + (edit::decimal_text(i.bytes as nat) + b);
    assert(artifacts::identity_document(i)->0 + x =~= "{\"object\":"@ + (outside::json_text(
        i.object,
    )->0 + a));
    (a, b, c, d)
}

/// An identity, without what follows it.
proof fn lemma_identity(a: FileIdentityModel, x: Seq<char>, b: FileIdentityModel, y: Seq<char>)
    requires
        artifacts::identity_document(a) is Some,
        artifacts::identity_document(b) is Some,
        artifacts::identity_document(a)->0 + x == artifacts::identity_document(b)->0 + y,
    ensures
        a == b,
        x == y,
{
    reveal_strlit(",\"modified_ns\":");
    reveal_strlit(",\"changed\":");
    let p = lemma_identity_parts(a, x);
    let q = lemma_identity_parts(b, y);
    lemma_same_part(
        "{\"object\":"@,
        outside::json_text(a.object)->0 + p.0,
        outside::json_text(b.object)->0 + q.0,
    );
    lemma_string(a.object, p.0, b.object, q.0);
    lemma_same_part(
        ",\"bytes\":"@,
        edit::decimal_text(a.bytes as nat) + p.1,
        edit::decimal_text(b.bytes as nat) + q.1,
    );
    assert(p.1[0] == ',' && q.1[0] == ',' && p.2[0] == ',' && q.2[0] == ',');
    lemma_number(a.bytes as nat, p.1, b.bytes as nat, q.1);
    lemma_same_part(
        ",\"modified_ns\":"@,
        optional_text(a.modified_ns) + p.2,
        optional_text(b.modified_ns) + q.2,
    );
    lemma_optional(a.modified_ns, p.2, b.modified_ns, q.2);
    lemma_same_part(
        ",\"changed\":"@,
        outside::json_text(a.changed)->0 + p.3,
        outside::json_text(b.changed)->0 + q.3,
    );
    lemma_string(a.changed, p.3, b.changed, q.3);
    lemma_same_part("}"@, x, y);
}

/// A captured file, without what follows it.
proof fn lemma_artifact(a: ArtifactModel, x: Seq<char>, b: ArtifactModel, y: Seq<char>)
    requires
        artifacts::artifact_document(a) is Some,
        artifacts::artifact_document(b) is Some,
        artifacts::artifact_document(a)->0 + x == artifacts::artifact_document(b)->0 + y,
    ensures
        a == b,
        x == y,
{
    let p = lemma_artifact_parts(a, x);
    let q = lemma_artifact_parts(b, y);
    lemma_same_part(
        "{\"source\":"@,
        file_content::path_document(a.source) + p.0,
        file_content::path_document(b.source) + q.0,
    );
    lemma_path(a.source, p.0, b.source, q.0);
    lemma_same_part(
        ",\"role\":"@,
        outside::json_text(a.role)->0 + p.1,
        outside::json_text(b.role)->0 + q.1,
    );
    lemma_string(a.role, p.1, b.role, q.1);
    lemma_same_part(
        ",\"relative\":"@,
        file_content::path_document(a.relative) + p.2,
        file_content::path_document(b.relative) + q.2,
    );
    lemma_path(a.relative, p.2, b.relative, q.2);
    lemma_same_part(
        ",\"stored\":"@,
        outside::json_text(a.stored)->0 + p.3,
        outside::json_text(b.stored)->0 + q.3,
    );
    lemma_string(a.stored, p.3, b.stored, q.3);
    lemma_same_part(
        ",\"revision\":"@,
        artifacts::identity_document(a.revision)->0 + p.4,
        artifacts::identity_document(b.revision)->0 + q.4,
    );
    lemma_identity(a.revision, p.4, b.revision, q.4);
    lemma_same_part(
        ",\"blake3\":"@,
        outside::json_text(a.blake3)->0 + ("}"@ + x),
        outside::json_text(b.blake3)->0 + ("}"@ + y),
    );
    lemma_string(a.blake3, "}"@ + x, b.blake3, "}"@ + y);
    lemma_same_part("}"@, x, y);
}

/// The parts that a captured file is written in.
proof fn lemma_artifact_parts(i: ArtifactModel, x: Seq<char>) -> (parts: (
    Seq<char>,
    Seq<char>,
    Seq<char>,
    Seq<char>,
    Seq<char>,
))
    requires
        artifacts::artifact_document(i) is Some,
    ensures
        artifacts::identity_document(i.revision) is Some,
        artifacts::artifact_document(i)->0 + x == "{\"source\":"@ + (file_content::path_document(
            i.source,
        ) + parts.0),
        parts.0 == ",\"role\":"@ + (outside::json_text(i.role)->0 + parts.1),
        parts.1 == ",\"relative\":"@ + (file_content::path_document(i.relative) + parts.2),
        parts.2 == ",\"stored\":"@ + (outside::json_text(i.stored)->0 + parts.3),
        parts.3 == ",\"revision\":"@ + (artifacts::identity_document(i.revision)->0 + parts.4),
        parts.4 == ",\"blake3\":"@ + (outside::json_text(i.blake3)->0 + ("}"@ + x)),
{
    let e = ",\"blake3\":"@ + (outside::json_text(i.blake3)->0 + ("}"@ + x));
    let d = ",\"revision\":"@ + (artifacts::identity_document(i.revision)->0 + e);
    let c = ",\"stored\":"@ + (outside::json_text(i.stored)->0 + d);
    let b = ",\"relative\":"@ + (file_content::path_document(i.relative) + c);
    let a = ",\"role\":"@ + (outside::json_text(i.role)->0 + b);
    let s0 = "{\"source\":"@ + file_content::path_document(i.source);
    let s1 = s0 + ",\"role\":"@;
    let s2 = s1 + outside::json_text(i.role)->0;
    let s3 = s2 + ",\"relative\":"@;
    let s4 = s3 + file_content::path_document(i.relative);
    let s5 = s4 + ",\"stored\":"@;
    let s6 = s5 + outside::json_text(i.stored)->0;
    let s7 = s6 + ",\"revision\":"@;
    let s8 = s7 + artifacts::identity_document(i.revision)->0;
    let s9 = s8 + ",\"blake3\":"@;
    let s10 = s9 + outside::json_text(i.blake3)->0;
    lemma_joined(s10, "}"@, x);
    lemma_joined(s9, outside::json_text(i.blake3)->0, "}"@ + x);
    lemma_joined(s8, ",\"blake3\":"@, outside::json_text(i.blake3)->0 + ("}"@ + x));
    lemma_joined(s7, artifacts::identity_document(i.revision)->0, e);
    lemma_joined(s6, ",\"revision\":"@, artifacts::identity_document(i.revision)->0 + e);
    lemma_joined(s5, outside::json_text(i.stored)->0, d);
    lemma_joined(s4, ",\"stored\":"@, outside::json_text(i.stored)->0 + d);
    lemma_joined(s3, file_content::path_document(i.relative), c);
    lemma_joined(s2, ",\"relative\":"@, file_content::path_document(i.relative) + c);
    lemma_joined(s1, outside::json_text(i.role)->0, b);
    lemma_joined(s0, ",\"role\":"@, outside::json_text(i.role)->0 + b);
    lemma_joined("{\"source\":"@, file_content::path_document(i.source), a);
    (a, b, c, d, e)
}

/// A mapping, without what follows it.
proof fn lemma_mapping(a: ArtifactMappingModel, x: Seq<char>, b: ArtifactMappingModel, y: Seq<char>)
    requires
        artifacts::mapping_document(a) is Some,
        artifacts::mapping_document(b) is Some,
        artifacts::mapping_document(a)->0 + x == artifacts::mapping_document(b)->0 + y,
    ensures
        a == b,
        x == y,
{
    let p = lemma_mapping_parts(a, x);
    let q = lemma_mapping_parts(b, y);
    lemma_same_part(
        "{\"root\":"@,
        file_content::path_document(a.root) + p.0,
        file_content::path_document(b.root) + q.0,
    );
    lemma_path(a.root, p.0, b.root, q.0);
    lemma_same_part(
        ",\"relative\":"@,
        file_content::path_document(a.relative) + p.1,
        file_content::path_document(b.relative) + q.1,
    );
    lemma_path(a.relative, p.1, b.relative, q.1);
    lemma_same_part(
        ",\"copy_identity\":"@,
        artifacts::identity_document(a.copy_identity)->0 + ("}"@ + x),
        artifacts::identity_document(b.copy_identity)->0 + ("}"@ + y),
    );
    lemma_identity(a.copy_identity, "}"@ + x, b.copy_identity, "}"@ + y);
    lemma_same_part("}"@, x, y);
}

/// The parts that a mapping is written in.
proof fn lemma_mapping_parts(m: ArtifactMappingModel, x: Seq<char>) -> (parts: (
    Seq<char>,
    Seq<char>,
))
    requires
        artifacts::mapping_document(m) is Some,
    ensures
        artifacts::identity_document(m.copy_identity) is Some,
        artifacts::mapping_document(m)->0 + x == "{\"root\":"@ + (file_content::path_document(m.root)
            + parts.0),
        parts.0 == ",\"relative\":"@ + (file_content::path_document(m.relative) + parts.1),
        parts.1 == ",\"copy_identity\":"@ + (artifacts::identity_document(m.copy_identity)->0 + (
        "}"@ + x)),
{
    let b = ",\"copy_identity\":"@ + (artifacts::identity_document(m.copy_identity)->0 + ("}"@ + x));
    let a = ",\"relative\":"@ + (file_content::path_document(m.relative) + b);
    assert(artifacts::mapping_document(m)->0 + x =~= "{\"root\":"@ + (file_content::path_document(
        m.root,
    ) + a));
    (a, b)
}

/// A request, without what follows it.
proof fn lemma_request(a: ArtifactRequestModel, x: Seq<char>, b: ArtifactRequestModel, y: Seq<char>)
    requires
        artifacts::request_document(a) is Some,
        artifacts::request_document(b) is Some,
        artifacts::request_document(a)->0 + x == artifacts::request_document(b)->0 + y,
    ensures
        a == b,
        x == y,
{
    reveal_strlit(",\"member_index\":");
    reveal_strlit(",\"mapping\":");
    let p = lemma_request_parts(a, x);
    let q = lemma_request_parts(b, y);
    assert(p.0[0] == ',' && q.0[0] == ',' && p.1[0] == ',' && q.1[0] == ',');
    lemma_same_part(
        "{\"retained_capture_record\":"@,
        edit::signed_text(a.retained_capture_record) + p.0,
        edit::signed_text(b.retained_capture_record) + q.0,
    );
    lemma_signed(a.retained_capture_record, p.0, b.retained_capture_record, q.0);
    lemma_same_part(
        ",\"member_index\":"@,
        edit::decimal_text(a.member_index as nat) + p.1,
        edit::decimal_text(b.member_index as nat) + q.1,
    );
    lemma_number(a.member_index as nat, p.1, b.member_index as nat, q.1);
    lemma_same_part(
        ",\"mapping\":"@,
        artifacts::mapping_document(a.mapping)->0 + ("}"@ + x),
        artifacts::mapping_document(b.mapping)->0 + ("}"@ + y),
    );
    lemma_mapping(a.mapping, "}"@ + x, b.mapping, "}"@ + y);
    lemma_same_part("}"@, x, y);
}

/// The parts that a request is written in.
proof fn lemma_request_parts(r: ArtifactRequestModel, x: Seq<char>) -> (parts: (
    Seq<char>,
    Seq<char>,
))
    requires
        artifacts::request_document(r) is Some,
    ensures
        artifacts::mapping_document(r.mapping) is Some,
        artifacts::request_document(r)->0 + x == "{\"retained_capture_record\":"@ + (
        edit::signed_text(r.retained_capture_record) + parts.0),
        parts.0 == ",\"member_index\":"@ + (edit::decimal_text(r.member_index as nat) + parts.1),
        parts.1 == ",\"mapping\":"@ + (artifacts::mapping_document(r.mapping)->0 + ("}"@ + x)),
{
    let b = ",\"mapping\":"@ + (artifacts::mapping_document(r.mapping)->0 + ("}"@ + x));
    let a = ",\"member_index\":"@ + (edit::decimal_text(r.member_index as nat) + b);
    assert(artifacts::request_document(r)->0 + x =~= "{\"retained_capture_record\":"@ + (
    edit::signed_text(r.retained_capture_record) + a));
    (a, b)
}

/// The parts that a descriptor is written in.
proof fn lemma_descriptor_parts(d: ArtifactDescriptorModel) -> (parts: (
    Seq<char>,
    Seq<char>,
    Seq<char>,
    Seq<char>,
    Seq<char>,
))
    requires
        artifacts::descriptor_document(d) is Some,
    ensures
        artifacts::request_document(d.request) is Some,
        artifacts::artifact_document(d.artifact) is Some,
        artifacts::descriptor_document(d)->0 == "{\"protocol\":"@ + (edit::decimal_text(
            d.protocol as nat,
        ) + parts.0),
        parts.0 == ",\"request\":"@ + (artifacts::request_document(d.request)->0 + parts.1),
        parts.1 == ",\"selected_input\":"@ + (outside::json_text(d.selected_input)->0 + parts.2),
        parts.2 == ",\"capture_revision\":"@ + (outside::json_text(d.capture_revision)->0 + parts.3),
        parts.3 == ",\"manifest_blake3\":"@ + (outside::json_text(d.manifest_blake3)->0 + parts.4),
        parts.4 == ",\"artifact\":"@ + (artifacts::artifact_document(d.artifact)->0 + "}"@),
{
    let e = ",\"artifact\":"@ + (artifacts::artifact_document(d.artifact)->0 + "}"@);
    let m = ",\"manifest_blake3\":"@ + (outside::json_text(d.manifest_blake3)->0 + e);
    let c = ",\"capture_revision\":"@ + (outside::json_text(d.capture_revision)->0 + m);
    let b = ",\"selected_input\":"@ + (outside::json_text(d.selected_input)->0 + c);
    let a = ",\"request\":"@ + (artifacts::request_document(d.request)->0 + b);
    let s0 = "{\"protocol\":"@ + edit::decimal_text(d.protocol as nat);
    let s1 = s0 + ",\"request\":"@;
    let s2 = s1 + artifacts::request_document(d.request)->0;
    let s3 = s2 + ",\"selected_input\":"@;
    let s4 = s3 + outside::json_text(d.selected_input)->0;
    let s5 = s4 + ",\"capture_revision\":"@;
    let s6 = s5 + outside::json_text(d.capture_revision)->0;
    let s7 = s6 + ",\"manifest_blake3\":"@;
    let s8 = s7 + outside::json_text(d.manifest_blake3)->0;
    let s9 = s8 + ",\"artifact\":"@;
    lemma_joined(s9, artifacts::artifact_document(d.artifact)->0, "}"@);
    lemma_joined(s8, ",\"artifact\":"@, artifacts::artifact_document(d.artifact)->0 + "}"@);
    lemma_joined(s7, outside::json_text(d.manifest_blake3)->0, e);
    lemma_joined(s6, ",\"manifest_blake3\":"@, outside::json_text(d.manifest_blake3)->0 + e);
    lemma_joined(s5, outside::json_text(d.capture_revision)->0, m);
    lemma_joined(s4, ",\"capture_revision\":"@, outside::json_text(d.capture_revision)->0 + m);
    lemma_joined(s3, outside::json_text(d.selected_input)->0, c);
    lemma_joined(s2, ",\"selected_input\":"@, outside::json_text(d.selected_input)->0 + c);
    lemma_joined(s1, artifacts::request_document(d.request)->0, b);
    lemma_joined(s0, ",\"request\":"@, artifacts::request_document(d.request)->0 + b);
    lemma_joined("{\"protocol\":"@, edit::decimal_text(d.protocol as nat), a);
    (a, b, c, m, e)
}

/// The bytes that a descriptor is kept as say all of it: two descriptors that are kept as
/// the same bytes are the same.
pub proof fn law_kept_bytes_say_all_of_a_descriptor(
    a: ArtifactDescriptorModel,
    b: ArtifactDescriptorModel,
)
    requires
        artifacts::encoded_descriptor(a) is Ok,
        artifacts::encoded_descriptor(a) == artifacts::encoded_descriptor(b),
    ensures
        a == b,
{
    reveal(artifacts::encoded_descriptor);
    reveal_strlit(",\"request\":");
    encode_utf8_decode_utf8(artifacts::descriptor_document(a)->0);
    encode_utf8_decode_utf8(artifacts::descriptor_document(b)->0);
    let p = lemma_descriptor_parts(a);
    let q = lemma_descriptor_parts(b);
    assert(p.0[0] == ',' && q.0[0] == ',');
    lemma_same_part(
        "{\"protocol\":"@,
        edit::decimal_text(a.protocol as nat) + p.0,
        edit::decimal_text(b.protocol as nat) + q.0,
    );
    lemma_number(a.protocol as nat, p.0, b.protocol as nat, q.0);
    lemma_same_part(
        ",\"request\":"@,
        artifacts::request_document(a.request)->0 + p.1,
        artifacts::request_document(b.request)->0 + q.1,
    );
    lemma_request(a.request, p.1, b.request, q.1);
    lemma_same_part(
        ",\"selected_input\":"@,
        outside::json_text(a.selected_input)->0 + p.2,
        outside::json_text(b.selected_input)->0 + q.2,
    );
    lemma_string(a.selected_input, p.2, b.selected_input, q.2);
    lemma_same_part(
        ",\"capture_revision\":"@,
        outside::json_text(a.capture_revision)->0 + p.3,
        outside::json_text(b.capture_revision)->0 + q.3,
    );
    lemma_string(a.capture_revision, p.3, b.capture_revision, q.3);
    lemma_same_part(
        ",\"manifest_blake3\":"@,
        outside::json_text(a.manifest_blake3)->0 + p.4,
        outside::json_text(b.manifest_blake3)->0 + q.4,
    );
    lemma_string(a.manifest_blake3, p.4, b.manifest_blake3, q.4);
    lemma_same_part(
        ",\"artifact\":"@,
        artifacts::artifact_document(a.artifact)->0 + "}"@,
        artifacts::artifact_document(b.artifact)->0 + "}"@,
    );
    lemma_artifact(a.artifact, "}"@, b.artifact, "}"@);
}

/// The bytes of two texts come together.
proof fn lemma_bytes_joined(a: Seq<char>, b: Seq<char>)
    ensures
        support::byte_length(a + b) == support::byte_length(a) + support::byte_length(b),
    decreases a.len(),
{
    if a.len() > 0 {
        assert((a + b).drop_first() =~= a.drop_first() + b);
        lemma_bytes_joined(a.drop_first(), b);
    } else {
        assert(a + b =~= b);
    }
}

/// A character takes up a byte at least.
proof fn lemma_bytes_of_text(s: Seq<char>)
    ensures
        support::byte_length(s) >= s.len(),
    decreases s.len(),
{
    if s.len() > 0 {
        lemma_bytes_of_text(s.drop_first());
    }
}

/// A text takes up no more bytes than the string that it is written as.
proof fn lemma_bytes_of_body(text: Seq<char>)
    ensures
        support::byte_length(body(text)) >= support::byte_length(text),
    decreases text.len(),
{
    lemma_body(text);
    if text.len() > 0 {
        let first = outside::json_escaped(text[0]);
        lemma_bytes_of_body(text.drop_first());
        lemma_bytes_joined(first, body(text.drop_first()));
        lemma_bytes_joined(seq![text[0]], text.drop_first());
        assert(text =~= seq![text[0]] + text.drop_first());
        if first != seq![text[0]] {
            lemma_bytes_of_text(first);
            let one = seq![text[0]];
            assert(one.drop_first().len() == 0);
            assert(support::byte_length(one) == encode_scalar(text[0] as u32).len());
            assert(first.len() >= 1);
        }
    }
}

proof fn lemma_bytes_of_string(text: Seq<char>)
    ensures
        support::byte_length(outside::json_text(text)->0) >= support::byte_length(text),
{
    reveal(outside::json_text);
    lemma_bytes_of_body(text);
    lemma_bytes_joined(seq!['"'] + body(text), seq!['"']);
    lemma_bytes_joined(seq!['"'], body(text));
}

/// What is written behind a name, and what follows it, all take up their bytes.
proof fn lemma_bytes_behind(name: Seq<char>, item: Seq<char>, rest: Seq<char>)
    ensures
        support::byte_length(name + (item + rest)) >= support::byte_length(item)
            + support::byte_length(rest),
{
    lemma_bytes_joined(name, item + rest);
    lemma_bytes_joined(item, rest);
}

/// The number of units of a path.
pub open spec fn units(path: retained::PathModel) -> nat {
    match path {
        retained::PathModel::UnixBytes(v) => v.len(),
        retained::PathModel::WindowsWide(v) => v.len(),
    }
}

proof fn lemma_bytes_of_path(path: retained::PathModel)
    ensures
        support::byte_length(file_content::path_document(path)) >= 2 * units(path) + 1,
{
    reveal_strlit("]}");
    lemma_bytes_of_text(file_content::path_document(path));
    match path {
        retained::PathModel::UnixBytes(v) => {
            lemma_listed(v.map_values(|b: u8| b as nat), v.len());
        },
        retained::PathModel::WindowsWide(v) => {
            lemma_listed(v.map_values(|b: u16| b as nat), v.len());
        },
    }
}

/// The bytes of an identity's texts.
pub open spec fn identity_bytes(i: FileIdentityModel) -> nat {
    support::byte_length(i.object) + support::byte_length(i.changed)
}

proof fn lemma_bytes_of_identity(i: FileIdentityModel)
    requires
        artifacts::identity_document(i) is Some,
    ensures
        support::byte_length(artifacts::identity_document(i)->0) >= identity_bytes(i),
{
    let document = artifacts::identity_document(i)->0;
    let p = lemma_identity_parts(i, Seq::empty());
    assert(document + Seq::<char>::empty() =~= document);
    lemma_bytes_behind("{\"object\":"@, outside::json_text(i.object)->0, p.0);
    lemma_bytes_behind(",\"bytes\":"@, edit::decimal_text(i.bytes as nat), p.1);
    lemma_bytes_behind(",\"modified_ns\":"@, optional_text(i.modified_ns), p.2);
    lemma_bytes_behind(",\"changed\":"@, outside::json_text(i.changed)->0, p.3);
    lemma_bytes_of_string(i.object);
    lemma_bytes_of_string(i.changed);
}

proof fn lemma_bytes_of_artifact(a: ArtifactModel)
    requires
        artifacts::artifact_document(a) is Some,
    ensures
        support::byte_length(artifacts::artifact_document(a)->0) >= support::byte_length(a.role)
            + support::byte_length(a.stored) + support::byte_length(a.blake3) + identity_bytes(
            a.revision,
        ) + 2 * units(a.source) + 2 * units(a.relative),
{
    let document = artifacts::artifact_document(a)->0;
    let p = lemma_artifact_parts(a, Seq::empty());
    assert(document + Seq::<char>::empty() =~= document);
    lemma_bytes_behind("{\"source\":"@, file_content::path_document(a.source), p.0);
    lemma_bytes_behind(",\"role\":"@, outside::json_text(a.role)->0, p.1);
    lemma_bytes_behind(",\"relative\":"@, file_content::path_document(a.relative), p.2);
    lemma_bytes_behind(",\"stored\":"@, outside::json_text(a.stored)->0, p.3);
    lemma_bytes_behind(",\"revision\":"@, artifacts::identity_document(a.revision)->0, p.4);
    lemma_bytes_behind(
        ",\"blake3\":"@,
        outside::json_text(a.blake3)->0,
        "}"@ + Seq::<char>::empty(),
    );
    lemma_bytes_of_path(a.source);
    lemma_bytes_of_string(a.role);
    lemma_bytes_of_path(a.relative);
    lemma_bytes_of_string(a.stored);
    lemma_bytes_of_identity(a.revision);
    lemma_bytes_of_string(a.blake3);
}

proof fn lemma_bytes_of_request(r: ArtifactRequestModel)
    requires
        artifacts::request_document(r) is Some,
    ensures
        support::byte_length(artifacts::request_document(r)->0) >= identity_bytes(
            r.mapping.copy_identity,
        ) + 2 * units(r.mapping.root) + 2 * units(r.mapping.relative),
{
    let m = r.mapping;
    let document = artifacts::request_document(r)->0;
    let p = lemma_request_parts(r, Seq::empty());
    assert(document + Seq::<char>::empty() =~= document);
    lemma_bytes_behind(
        "{\"retained_capture_record\":"@,
        edit::signed_text(r.retained_capture_record),
        p.0,
    );
    lemma_bytes_behind(",\"member_index\":"@, edit::decimal_text(r.member_index as nat), p.1);
    let mapping = artifacts::mapping_document(m)->0;
    lemma_bytes_behind(",\"mapping\":"@, mapping, "}"@ + Seq::<char>::empty());
    let q = lemma_mapping_parts(m, Seq::empty());
    assert(mapping + Seq::<char>::empty() =~= mapping);
    lemma_bytes_behind("{\"root\":"@, file_content::path_document(m.root), q.0);
    lemma_bytes_behind(",\"relative\":"@, file_content::path_document(m.relative), q.1);
    lemma_bytes_behind(
        ",\"copy_identity\":"@,
        artifacts::identity_document(m.copy_identity)->0,
        "}"@ + Seq::<char>::empty(),
    );
    lemma_bytes_of_path(m.root);
    lemma_bytes_of_path(m.relative);
    lemma_bytes_of_identity(m.copy_identity);
}

/// What a descriptor is kept as is taken back: where its bytes are within what may be
/// read, the descriptor is not refused.
pub proof fn law_kept_descriptors_are_taken_back(
    d: ArtifactDescriptorModel,
    bytes: Seq<u8>,
    input_limit: nat,
)
    requires
        artifacts::encoded_descriptor(d) == Ok::<Seq<u8>, ArtifactError>(bytes),
        bytes.len() <= input_limit,
    ensures
        artifacts::decode_refusal(d, bytes.len(), input_limit, false) is None,
{
    assert(artifacts::descriptor_document(d) matches Some(document) && bytes == encode_utf8(document)
        && bytes.len() <= artifacts::DESCRIPTOR_LIMIT) by {
        reveal(artifacts::encoded_descriptor);
    }
    let p = lemma_descriptor_parts(d);
    lemma_bytes_behind("{\"protocol\":"@, edit::decimal_text(d.protocol as nat), p.0);
    lemma_bytes_behind(",\"request\":"@, artifacts::request_document(d.request)->0, p.1);
    lemma_bytes_behind(",\"selected_input\":"@, outside::json_text(d.selected_input)->0, p.2);
    lemma_bytes_behind(",\"capture_revision\":"@, outside::json_text(d.capture_revision)->0, p.3);
    lemma_bytes_behind(",\"manifest_blake3\":"@, outside::json_text(d.manifest_blake3)->0, p.4);
    lemma_bytes_behind(",\"artifact\":"@, artifacts::artifact_document(d.artifact)->0, "}"@);
    lemma_bytes_of_request(d.request);
    lemma_bytes_of_string(d.selected_input);
    lemma_bytes_of_string(d.capture_revision);
    lemma_bytes_of_string(d.manifest_blake3);
    lemma_bytes_of_artifact(d.artifact);
}

/// A descriptor that was kept comes back as it was: whatever descriptor the kept bytes
/// are read as, if it is written as those bytes it is the one that was kept, and it is
/// accepted exactly when the bytes are within the limit and nothing stops the reader.
pub proof fn law_descriptors_come_back_as_they_were_kept(
    kept: ArtifactDescriptorModel,
    read: ArtifactDescriptorModel,
    bytes: Seq<u8>,
    input_limit: nat,
    stopped: bool,
)
    requires
        artifacts::encoded_descriptor(kept) == Ok::<Seq<u8>, ArtifactError>(bytes),
        artifacts::encoded_descriptor(read) == Ok::<Seq<u8>, ArtifactError>(bytes),
    ensures
        read == kept,
        artifacts::decode_refusal(read, bytes.len(), input_limit, stopped) == (if bytes.len()
            > input_limit {
            Some(ArtifactError::DescriptorBounds)
        } else if stopped {
            Some(ArtifactError::Stopped)
        } else {
            None
        }),
{
    law_kept_bytes_say_all_of_a_descriptor(kept, read);
    if bytes.len() <= input_limit {
        law_kept_descriptors_are_taken_back(read, bytes, input_limit);
    }
}

/// No descriptor is accepted from too many bytes, once the reader is stopped, with too
/// long texts or paths, or where it could not be kept itself.
pub proof fn law_only_fitting_descriptors_are_accepted(
    d: ArtifactDescriptorModel,
    bytes: nat,
    input_limit: nat,
    stopped: bool,
)
    requires
        artifacts::decode_refusal(d, bytes, input_limit, stopped) is None,
    ensures
        bytes <= input_limit,
        !stopped,
        artifacts::text_bytes(d) <= artifacts::DESCRIPTOR_LIMIT,
        artifacts::path_fits(d.request.mapping.root),
        artifacts::path_fits(d.request.mapping.relative),
        artifacts::path_fits(d.artifact.source),
        artifacts::path_fits(d.artifact.relative),
        artifacts::encoded_descriptor(d) is Ok,
{
}

} // verus!

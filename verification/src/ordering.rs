//! The order of stored texts and of the keys made from them, and pages of
//! ordered rows.
use crate::support;
use crate::support::same;
use vstd::prelude::*;
use vstd::utf8::*;

verus! {

/// One byte string comes before another: at the first difference its byte is
/// smaller, or it ends there.
pub open spec fn bytes_before(a: Seq<u8>, b: Seq<u8>) -> bool
    decreases a.len(),
{
    if b.len() == 0 {
        false
    } else if a.len() == 0 {
        true
    } else if a[0] != b[0] {
        a[0] < b[0]
    } else {
        bytes_before(a.skip(1), b.skip(1))
    }
}

/// Stored texts are ordered by their bytes.
pub open spec fn text_before(a: Seq<char>, b: Seq<char>) -> bool {
    bytes_before(encode_utf8(a), encode_utf8(b))
}

/// A collection and an image's sequence number, ordered by the collection first.
pub type Key = (Seq<char>, i64);

/// One key comes before another.
pub open spec fn key_before(a: Key, b: Key) -> bool {
    text_before(a.0, b.0) || (a.0 == b.0 && a.1 < b.1)
}

/// Whether one byte string comes before another.
pub fn is_bytes_before(x: &[u8], y: &[u8]) -> (r: bool)
    ensures
        r == bytes_before(x@, y@),
{
    let mut i: usize = 0;
    proof {
        assert(x@.skip(0) =~= x@);
        assert(y@.skip(0) =~= y@);
    }
    while i < x.len() && i < y.len()
        invariant
            i <= x@.len(),
            i <= y@.len(),
            bytes_before(x@, y@) == bytes_before(x@.skip(i as int), y@.skip(i as int)),
        decreases x@.len() - i,
    {
        proof {
            assert(x@.skip(i as int)[0] == x@[i as int]);
            assert(y@.skip(i as int)[0] == y@[i as int]);
            assert(x@.skip(i as int).skip(1) =~= x@.skip(i + 1));
            assert(y@.skip(i as int).skip(1) =~= y@.skip(i + 1));
        }
        if x[i] != y[i] {
            return x[i] < y[i];
        }
        i += 1;
    }
    i < y.len()
}

/// Whether one text comes before another.
pub fn is_text_before(a: &str, b: &str) -> (r: bool)
    ensures
        r == text_before(a@, b@),
{
    is_bytes_before(a.as_bytes(), b.as_bytes())
}

/// Whether one key comes before another.
pub fn is_key_before(a: &str, m: i64, b: &str, n: i64) -> (r: bool)
    ensures
        r == key_before((a@, m), (b@, n)),
{
    is_text_before(a, b) || (same(a, b) && m < n)
}

proof fn lemma_bytes_irreflexive(a: Seq<u8>)
    ensures
        !bytes_before(a, a),
    decreases a.len(),
{
    if a.len() > 0 {
        lemma_bytes_irreflexive(a.skip(1));
    }
}

proof fn lemma_bytes_transitive(a: Seq<u8>, b: Seq<u8>, c: Seq<u8>)
    requires
        bytes_before(a, b),
        bytes_before(b, c),
    ensures
        bytes_before(a, c),
    decreases a.len(),
{
    if a.len() > 0 && b.len() > 0 && c.len() > 0 && a[0] == b[0] && b[0] == c[0] {
        lemma_bytes_transitive(a.skip(1), b.skip(1), c.skip(1));
    }
}

proof fn lemma_bytes_total(a: Seq<u8>, b: Seq<u8>)
    ensures
        bytes_before(a, b) || bytes_before(b, a) || a == b,
    decreases a.len(),
{
    if a.len() > 0 && b.len() > 0 && a[0] == b[0] {
        lemma_bytes_total(a.skip(1), b.skip(1));
        if a.skip(1) == b.skip(1) {
            assert forall|i: int| 0 <= i < a.len() implies a[i] == b[i] by {
                if i > 0 {
                    assert(a.skip(1)[i - 1] == b.skip(1)[i - 1]);
                }
            }
            assert(a.skip(1).len() == b.skip(1).len());
            assert(a =~= b);
        }
    } else if a.len() == 0 && b.len() == 0 {
        assert(a =~= b);
    }
}

/// Texts are strictly and totally ordered.
pub proof fn lemma_text_order(a: Seq<char>, b: Seq<char>, c: Seq<char>)
    ensures
        !text_before(a, a),
        text_before(a, b) && text_before(b, c) ==> text_before(a, c),
        text_before(a, b) || text_before(b, a) || a == b,
{
    lemma_bytes_irreflexive(encode_utf8(a));
    if text_before(a, b) && text_before(b, c) {
        lemma_bytes_transitive(encode_utf8(a), encode_utf8(b), encode_utf8(c));
    }
    lemma_bytes_total(encode_utf8(a), encode_utf8(b));
    encode_utf8_decode_utf8(a);
    encode_utf8_decode_utf8(b);
}

/// Keys are strictly and totally ordered.
pub proof fn lemma_key_order(a: Key, b: Key, c: Key)
    ensures
        !key_before(a, a),
        key_before(a, b) && key_before(b, c) ==> key_before(a, c),
        key_before(a, b) || key_before(b, a) || a == b,
        key_before(a, b) ==> !key_before(b, a),
{
    lemma_text_order(a.0, b.0, c.0);
    lemma_text_order(a.0, a.0, a.0);
    lemma_text_order(a.0, b.0, a.0);
    lemma_text_order(b.0, a.0, b.0);
}

/// One pair of numbers comes before another.
pub open spec fn pair_before(a: (i64, i64), b: (i64, i64)) -> bool {
    a.0 < b.0 || (a.0 == b.0 && a.1 < b.1)
}

/// A key that rows are paged by.
pub trait Ranked: View + Sized {
    /// One key comes before another.
    spec fn before(a: Self::V, b: Self::V) -> bool;

    /// The order of keys is strict and total.
    proof fn lemma_order(a: Self::V, b: Self::V, c: Self::V)
        ensures
            !Self::before(a, a),
            Self::before(a, b) && Self::before(b, c) ==> Self::before(a, c),
            Self::before(a, b) || a == b || Self::before(b, a),
    ;

    /// Whether a key comes before another.
    fn is_before(&self, other: &Self) -> (r: bool)
        ensures
            r == Self::before(self@, other@),
    ;
}

impl Ranked for (i64, i64) {
    open spec fn before(a: (i64, i64), b: (i64, i64)) -> bool {
        pair_before(a, b)
    }

    proof fn lemma_order(a: (i64, i64), b: (i64, i64), c: (i64, i64)) {
    }

    fn is_before(&self, other: &Self) -> (r: bool) {
        self.0 < other.0 || (self.0 == other.0 && self.1 < other.1)
    }
}

impl Ranked for String {
    open spec fn before(a: Seq<char>, b: Seq<char>) -> bool {
        text_before(a, b)
    }

    proof fn lemma_order(a: Seq<char>, b: Seq<char>, c: Seq<char>) {
        lemma_text_order(a, b, c);
        lemma_text_order(a, a, a);
    }

    fn is_before(&self, other: &Self) -> (r: bool) {
        is_text_before(self.as_str(), other.as_str())
    }
}

impl Ranked for Vec<u8> {
    open spec fn before(a: Seq<u8>, b: Seq<u8>) -> bool {
        bytes_before(a, b)
    }

    proof fn lemma_order(a: Seq<u8>, b: Seq<u8>, c: Seq<u8>) {
        lemma_bytes_irreflexive(a);
        if bytes_before(a, b) && bytes_before(b, c) {
            lemma_bytes_transitive(a, b, c);
        }
        lemma_bytes_total(a, b);
    }

    fn is_before(&self, other: &Self) -> (r: bool) {
        is_bytes_before(self.as_slice(), other.as_slice())
    }
}

/// A row with this key comes after a cursor, or at all where there is none. Rows
/// without a key are no part of any page.
pub open spec fn follows<K: Ranked>(after: Option<K::V>, key: Option<K::V>) -> bool {
    key matches Some(k) && match after {
        Some(a) => K::before(a, k),
        None => true,
    }
}

/// `picks` is the page of rows whose keys come next after a cursor, at most
/// `limit` of them where there is a limit: in ascending order, and without passing
/// over any key.
pub open spec fn is_page<K: Ranked>(
    keys: Seq<Option<K::V>>,
    after: Option<K::V>,
    limit: Option<nat>,
    picks: Seq<usize>,
) -> bool {
    &&& limit matches Some(n) ==> picks.len() <= n
    &&& forall|a: int|
        0 <= a < picks.len() ==> (#[trigger] picks[a]) < keys.len() && follows::<K>(
            after,
            keys[picks[a] as int],
        )
    &&& forall|a: int, b: int|
        0 <= a < b < picks.len() ==> K::before(
            keys[#[trigger] picks[a] as int]->0,
            keys[#[trigger] picks[b] as int]->0,
        )
    &&& forall|i: int|
        0 <= i < keys.len() && follows::<K>(after, #[trigger] keys[i]) ==> (exists|a: int|
            0 <= a < picks.len() && keys[(#[trigger] picks[a]) as int] == keys[i]) || (Some(
            picks.len(),
        ) == limit && (forall|a: int|
            0 <= a < picks.len() ==> K::before(keys[(#[trigger] picks[a]) as int]->0, keys[i]->0)))
}

/// What an optional key stands for.
pub open spec fn key_of<K: Ranked>(key: Option<K>) -> Option<K::V> {
    match key {
        Some(k) => Some(k@),
        None => None,
    }
}

/// What optional keys stand for.
pub open spec fn keys_of<K: Ranked>(keys: Seq<Option<K>>) -> Seq<Option<K::V>> {
    keys.map_values(|k: Option<K>| key_of(k))
}

/// A page's limit.
pub open spec fn limit_of(limit: Option<usize>) -> Option<nat> {
    match limit {
        Some(n) => Some(n as nat),
        None => None,
    }
}

fn is_following<K: Ranked>(after: Option<&K>, k: &K) -> (r: bool)
    ensures
        r == match after {
            Some(a) => K::before(a@, k@),
            None => true,
        },
{
    match after {
        Some(a) => a.is_before(k),
        None => true,
    }
}

spec fn cursor_of<K: Ranked>(after: Option<&K>) -> Option<K::V> {
    match after {
        Some(a) => Some(a@),
        None => None,
    }
}

/// The row whose key comes next after a cursor.
fn next_after<K: Ranked>(keys: &Vec<Option<K>>, after: Option<&K>) -> (best: Option<usize>)
    ensures
        match best {
            None => forall|j: int|
                0 <= j < keys@.len() ==> !follows::<K>(
                    cursor_of(after),
                    #[trigger] keys_of(keys@)[j],
                ),
            Some(b) => b < keys@.len() && follows::<K>(
                cursor_of(after),
                keys_of(keys@)[b as int],
            ) && forall|j: int|
                0 <= j < keys@.len() && follows::<K>(
                    cursor_of(after),
                    #[trigger] keys_of(keys@)[j],
                ) ==> !K::before(keys_of(keys@)[j]->0, keys_of(keys@)[b as int]->0),
        },
{
    let ghost views = keys_of(keys@);
    let ghost cursor = cursor_of(after);
    let mut best: Option<usize> = None;
    let mut i: usize = 0;
    while i < keys.len()
        invariant
            i <= keys@.len(),
            views == keys_of(keys@),
            cursor == cursor_of(after),
            match best {
                None => forall|j: int| 0 <= j < i ==> !follows::<K>(cursor, #[trigger] views[j]),
                Some(b) => b < keys@.len() && follows::<K>(cursor, views[b as int]) && forall|
                    j: int,
                |
                    0 <= j < i && follows::<K>(cursor, #[trigger] views[j]) ==> !K::before(
                        views[j]->0,
                        views[b as int]->0,
                    ),
            },
        decreases keys@.len() - i,
    {
        assert(views[i as int] == key_of(keys@[i as int]));
        if let Some(k) = &keys[i] {
            if is_following(after, k) {
                match best {
                    None => {
                        proof {
                            K::lemma_order(k@, k@, k@);
                        }
                        best = Some(i);
                    },
                    Some(b) => {
                        assert(views[b as int] == key_of(keys@[b as int]));
                        if let Some(least) = &keys[b] {
                            if k.is_before(least) {
                                proof {
                                    K::lemma_order(k@, k@, k@);
                                    assert forall|j: int|
                                        0 <= j < i && follows::<K>(
                                            cursor,
                                            #[trigger] views[j],
                                        ) implies !K::before(views[j]->0, k@) by {
                                        K::lemma_order(views[j]->0, k@, least@);
                                    }
                                }
                                best = Some(i);
                            }
                        }
                    },
                }
            }
        }
        i += 1;
    }
    best
}

/// The number of keys that come after a cursor.
spec fn left<K: Ranked>(keys: Seq<Option<K::V>>, cursor: Option<K::V>, n: nat) -> nat
    decreases n,
{
    if n == 0 {
        0
    } else if follows::<K>(cursor, keys[n - 1]) {
        left::<K>(keys, cursor, (n - 1) as nat) + 1
    } else {
        left::<K>(keys, cursor, (n - 1) as nat)
    }
}

/// Once a key was passed, fewer are left.
proof fn lemma_left<K: Ranked>(
    keys: Seq<Option<K::V>>,
    cursor: Option<K::V>,
    next: Option<K::V>,
    b: int,
    n: nat,
)
    requires
        n <= keys.len(),
        0 <= b < keys.len(),
        follows::<K>(cursor, keys[b]),
        next == keys[b],
    ensures
        left::<K>(keys, next, n) + if b < n {
            1int
        } else {
            0
        } <= left::<K>(keys, cursor, n),
    decreases n,
{
    if n > 0 {
        lemma_left::<K>(keys, cursor, next, b, (n - 1) as nat);
        K::lemma_order(keys[b]->0, keys[b]->0, keys[b]->0);
        if follows::<K>(next, keys[n - 1]) {
            if let Some(c) = cursor {
                K::lemma_order(c, keys[b]->0, keys[n - 1]->0);
            }
        }
    }
}

fn is_below(count: usize, limit: Option<usize>) -> (r: bool)
    ensures
        r == (limit matches Some(n) ==> count < n),
{
    match limit {
        Some(n) => count < n,
        None => true,
    }
}

/// The rows whose keys come next after a cursor, at most `limit` of them.
pub fn page<K: Ranked>(keys: &Vec<Option<K>>, after: &Option<K>, limit: Option<usize>) -> (picks:
    Vec<usize>)
    ensures
        is_page::<K>(keys_of(keys@), key_of(*after), limit_of(limit), picks@),
{
    let ghost views = keys_of(keys@);
    let ghost start = key_of(*after);
    let mut picks: Vec<usize> = Vec::new();
    let mut more: bool = true;
    let ghost mut cursor: Option<K::V> = start;
    while more && is_below(picks.len(), limit)
        invariant
            limit matches Some(n) ==> picks@.len() <= n,
            views == keys_of(keys@),
            start == key_of(*after),
            cursor == if picks@.len() == 0 {
                start
            } else {
                views[picks@.last() as int]
            },
            forall|a: int|
                0 <= a < picks@.len() ==> (#[trigger] picks@[a]) < keys@.len() && follows::<K>(
                    start,
                    views[picks@[a] as int],
                ),
            forall|a: int, b: int|
                0 <= a < b < picks@.len() ==> K::before(
                    views[#[trigger] picks@[a] as int]->0,
                    views[#[trigger] picks@[b] as int]->0,
                ),
            forall|i: int|
                0 <= i < keys@.len() && follows::<K>(start, #[trigger] views[i]) ==> (exists|
                    a: int,
                |
                    0 <= a < picks@.len() && views[(#[trigger] picks@[a]) as int] == views[i])
                    || follows::<K>(cursor, views[i]),
            !more ==> forall|i: int|
                0 <= i < keys@.len() ==> !follows::<K>(cursor, #[trigger] views[i]),
        decreases left::<K>(views, cursor, views.len()), more as int,
    {
        let best: Option<usize> = if picks.len() == 0 {
            match after {
                Some(a) => next_after(keys, Some(a)),
                None => next_after(keys, None),
            }
        } else {
            let last: usize = picks[picks.len() - 1];
            assert(views[last as int] == key_of(keys@[last as int]));
            assert(follows::<K>(start, views[picks@[picks@.len() - 1] as int]));
            match &keys[last] {
                Some(k) => next_after(keys, Some(k)),
                None => None,
            }
        };
        match best {
            None => more = false,
            Some(b) => {
                let ghost before = picks@;
                let ghost earlier = cursor;
                picks.push(b);
                proof {
                    cursor = views[b as int];
                    lemma_left::<K>(views, earlier, cursor, b as int, views.len());
                    let key = views[b as int]->0;
                    assert(picks@[before.len() as int] == b);
                    if before.len() > 0 {
                        assert(follows::<K>(start, views[before[before.len() - 1] as int]));
                        if let Some(s) = start {
                            K::lemma_order(s, earlier->0, key);
                        }
                    }
                    assert forall|a: int|
                        0 <= a < picks@.len() implies (#[trigger] picks@[a]) < keys@.len()
                        && follows::<K>(start, views[picks@[a] as int]) by {
                        if a < before.len() {
                            assert(picks@[a] == before[a]);
                        }
                    }
                    assert forall|a: int, c: int| 0 <= a < c < picks@.len() implies K::before(
                        views[#[trigger] picks@[a] as int]->0,
                        views[#[trigger] picks@[c] as int]->0,
                    ) by {
                        assert(picks@[a] == before[a]);
                        if c < before.len() {
                            assert(picks@[c] == before[c]);
                        } else if a < before.len() - 1 {
                            assert(K::before(
                                views[before[a] as int]->0,
                                views[before[before.len() - 1] as int]->0,
                            ));
                            K::lemma_order(views[before[a] as int]->0, earlier->0, key);
                        }
                    }
                    assert forall|j: int|
                        0 <= j < keys@.len() && follows::<K>(start, #[trigger] views[j]) implies (
                    exists|a: int|
                        0 <= a < picks@.len() && views[(#[trigger] picks@[a]) as int] == views[j])
                        || follows::<K>(cursor, views[j]) by {
                        if exists|a: int|
                            0 <= a < before.len() && views[(#[trigger] before[a]) as int]
                                == views[j] {
                            let a = choose|a: int|
                                0 <= a < before.len() && views[(#[trigger] before[a]) as int]
                                    == views[j];
                            assert(picks@[a] == before[a]);
                        } else {
                            assert(follows::<K>(earlier, views[j]));
                            K::lemma_order(key, views[j]->0, key);
                            if views[j]->0 == key {
                                assert(views[picks@[before.len() as int] as int] == views[j]);
                            }
                        }
                    }
                }
            },
        }
    }
    proof {
        assert forall|i: int| 0 <= i < keys@.len() && follows::<K>(start, #[trigger] views[i]) && !(
        exists|a: int| 0 <= a < picks@.len() && views[(#[trigger] picks@[a]) as int] == views[i])
            implies Some(picks@.len()) == limit_of(limit) && (forall|a: int|
            0 <= a < picks@.len() ==> K::before(views[(#[trigger] picks@[a]) as int]->0, views[i]->0)) by {
            assert(follows::<K>(cursor, views[i]));
            assert forall|a: int| 0 <= a < picks@.len() implies K::before(
                views[(#[trigger] picks@[a]) as int]->0,
                views[i]->0,
            ) by {
                if a < picks@.len() - 1 {
                    assert(K::before(
                        views[picks@[a] as int]->0,
                        views[picks@[picks@.len() - 1] as int]->0,
                    ));
                    K::lemma_order(views[picks@[a] as int]->0, cursor->0, views[i]->0);
                }
            }
        }
    }
    picks
}

/// The rows whose keys, as `key` gives them, come next after a cursor.
pub(crate) fn page_rows<T: View, K: Ranked, F: Fn(&T) -> Option<K>>(
    rows: &Vec<T>,
    key: F,
    Ghost(k): Ghost<spec_fn(T::V) -> Option<K::V>>,
    after: &Option<K>,
    limit: Option<usize>,
) -> (picks: Vec<usize>)
    requires
        forall|t: &T| #[trigger] key.requires((t,)),
        forall|t: &T, o: Option<K>| #[trigger] key.ensures((t,), o) ==> key_of(o) == k(t@),
    ensures
        is_page::<K>(
            support::models(rows@).map_values(k),
            key_of(*after),
            limit_of(limit),
            picks@,
        ),
{
    let mut keys: Vec<Option<K>> = Vec::new();
    let mut i: usize = 0;
    while i < rows.len()
        invariant
            i <= rows@.len(),
            keys@.len() == i,
            forall|j: int| 0 <= j < i ==> key_of(#[trigger] keys@[j]) == k(rows@[j]@),
            forall|t: &T| #[trigger] key.requires((t,)),
            forall|t: &T, o: Option<K>| #[trigger] key.ensures((t,), o) ==> key_of(o) == k(t@),
        decreases rows@.len() - i,
    {
        let o: Option<K> = key(&rows[i]);
        keys.push(o);
        i += 1;
    }
    assert(keys_of(keys@) =~= support::models(rows@).map_values(k));
    page(&keys, after, limit)
}

/// Rows in the order of their numbers with one more among them, behind those that have
/// the same number.
pub open spec fn inserted<T>(s: Seq<T>, x: T, k: spec_fn(T) -> i64) -> Seq<T>
    decreases s.len(),
{
    if s.len() == 0 || k(s.last()) <= k(x) {
        s.push(x)
    } else {
        inserted(s.drop_last(), x, k).push(s.last())
    }
}

/// Rows put in the order of their numbers; those of the same number stay in turn.
pub open spec fn ordered<T>(s: Seq<T>, k: spec_fn(T) -> i64) -> Seq<T>
    decreases s.len(),
{
    if s.len() == 0 {
        s
    } else {
        inserted(ordered(s.drop_last(), k), s.last(), k)
    }
}

/// Rows come in the order of their numbers.
pub open spec fn in_order<T>(s: Seq<T>, k: spec_fn(T) -> i64) -> bool {
    forall|i: int, j: int| 0 <= i < j < s.len() ==> k(#[trigger] s[i]) <= k(#[trigger] s[j])
}

proof fn lemma_inserted_in_order<T>(s: Seq<T>, x: T, k: spec_fn(T) -> i64)
    requires
        in_order(s, k),
    ensures
        in_order(inserted(s, x, k), k),
        inserted(s, x, k).to_multiset() == s.to_multiset().insert(x),
        inserted(s, x, k).len() == s.len() + 1,
        s.len() > 0 && k(s.last()) > k(x) ==> inserted(s, x, k).last() == s.last(),
        !(s.len() > 0 && k(s.last()) > k(x)) ==> inserted(s, x, k).last() == x,
    decreases s.len(),
{
    broadcast use vstd::seq_lib::group_to_multiset_ensures;

    if s.len() > 0 && k(s.last()) > k(x) {
        let front = s.drop_last();
        lemma_inserted_in_order(front, x, k);
        let t = inserted(front, x, k);
        assert(s =~= front.push(s.last()));
        assert(t.push(s.last()).to_multiset() =~= s.to_multiset().insert(x));
        assert forall|i: int| 0 <= i < t.len() implies k(#[trigger] t[i]) <= k(s.last()) by {
            if i < t.len() - 1 {
                assert(k(t[i]) <= k(t[t.len() - 1]));
            }
            if front.len() > 0 {
                assert(k(s[s.len() - 2]) <= k(s[s.len() - 1]));
            }
        }
    } else if s.len() > 0 {
        assert forall|i: int| 0 <= i < s.len() implies k(#[trigger] s[i]) <= k(x) by {
            if i < s.len() - 1 {
                assert(k(s[i]) <= k(s[s.len() - 1]));
            }
        }
    }
}

/// Putting rows in order loses none of them and adds none.
pub proof fn law_ordered_rows_are_the_same_in_order<T>(s: Seq<T>, k: spec_fn(T) -> i64)
    ensures
        in_order(ordered(s, k), k),
        ordered(s, k).to_multiset() == s.to_multiset(),
    decreases s.len(),
{
    broadcast use vstd::seq_lib::group_to_multiset_ensures;

    if s.len() > 0 {
        law_ordered_rows_are_the_same_in_order(s.drop_last(), k);
        lemma_inserted_in_order(ordered(s.drop_last(), k), s.last(), k);
        assert(s =~= s.drop_last().push(s.last()));
    }
}

/// Inserting a row puts it right behind those that do not come after it.
proof fn lemma_inserted_at<T>(s: Seq<T>, x: T, k: spec_fn(T) -> i64, j: int)
    requires
        0 <= j <= s.len(),
        forall|i: int| j <= i < s.len() ==> k(#[trigger] s[i]) > k(x),
        j > 0 ==> k(s[j - 1]) <= k(x),
    ensures
        inserted(s, x, k) == s.insert(j, x),
    decreases s.len(),
{
    if j < s.len() {
        assert(k(s[s.len() - 1]) > k(x));
        lemma_inserted_at(s.drop_last(), x, k, j);
        assert(inserted(s, x, k) =~= s.insert(j, x));
    } else {
        assert(s.push(x) =~= s.insert(j, x));
    }
}

/// The rows at these positions are those of a list, in turn.
pub open spec fn picked<T: View>(rows: Seq<T>, picks: Seq<usize>, list: Seq<T::V>) -> bool {
    &&& picks.len() == list.len()
    &&& forall|i: int|
        0 <= i < picks.len() ==> (#[trigger] picks[i]) < rows.len() && rows[picks[i] as int]@
            == list[i]
}

/// The positions of the rows that pass a test, in the order of their numbers.
pub(crate) fn pick_ordered<T: View, P: Fn(&T) -> bool, N: Fn(&T) -> i64>(
    rows: &Vec<T>,
    test: P,
    number: N,
    Ghost(p): Ghost<spec_fn(T::V) -> bool>,
    Ghost(k): Ghost<spec_fn(T::V) -> i64>,
) -> (picks: Vec<usize>)
    requires
        forall|t: &T| #[trigger] test.requires((t,)),
        forall|t: &T, b: bool| #[trigger] test.ensures((t,), b) ==> b == p(t@),
        forall|t: &T| #[trigger] number.requires((t,)),
        forall|t: &T, n: i64| #[trigger] number.ensures((t,), n) ==> n == k(t@),
    ensures
        picked(rows@, picks@, ordered(support::models(rows@).filter(p), k)),
{
    let ghost all = support::models(rows@);
    let mut picks: Vec<usize> = Vec::new();
    let mut i: usize = 0;
    proof {
        assert(all.take(0).filter(p).len() == 0) by {
            reveal(Seq::filter);
        }
    }
    while i < rows.len()
        invariant
            i <= rows@.len(),
            all == support::models(rows@),
            picked(rows@, picks@, ordered(all.take(i as int).filter(p), k)),
            forall|t: &T| #[trigger] test.requires((t,)),
            forall|t: &T, b: bool| #[trigger] test.ensures((t,), b) ==> b == p(t@),
            forall|t: &T| #[trigger] number.requires((t,)),
            forall|t: &T, n: i64| #[trigger] number.ensures((t,), n) ==> n == k(t@),
        decreases rows@.len() - i,
    {
        let row = &rows[i];
        let ghost list = all.take(i as int).filter(p);
        let ghost before = ordered(list, k);
        proof {
            assert(all[i as int] == row@);
            assert(all.take(i + 1) =~= all.take(i as int).push(row@));
            support::lemma_filter_push(all.take(i as int), row@, p);
        }
        if test(row) {
            let n: i64 = number(row);
            let mut j: usize = picks.len();
            while j > 0 && number(&rows[picks[j - 1]]) > n
                invariant
                    j <= picks@.len(),
                    n == k(row@),
                    picked(rows@, picks@, before),
                    forall|t: &T| #[trigger] number.requires((t,)),
                    forall|t: &T, n: i64| #[trigger] number.ensures((t,), n) ==> n == k(t@),
                    forall|l: int| j <= l < before.len() ==> k(#[trigger] before[l]) > n,
                ensures
                    j <= picks@.len(),
                    forall|l: int| j <= l < before.len() ==> k(#[trigger] before[l]) > n,
                    j > 0 ==> k(before[j - 1]) <= n,
                decreases j,
            {
                assert(rows@[picks@[j - 1] as int]@ == before[j - 1]);
                j -= 1;
            }
            let ghost old_picks = picks@;
            picks.insert(j, i);
            proof {
                lemma_inserted_at(before, row@, k, j as int);
                assert(list.push(row@).drop_last() =~= list);
                let after = before.insert(j as int, row@);
                assert(ordered(list.push(row@), k) == after);
                assert forall|l: int| 0 <= l < picks@.len() implies (#[trigger] picks@[l])
                    < rows.len() && rows@[picks@[l] as int]@ == after[l] by {
                    if l < j {
                        assert(picks@[l] == old_picks[l]);
                    } else if l > j {
                        assert(picks@[l] == old_picks[l - 1]);
                    }
                }
            }
        }
        i += 1;
    }
    assert(all.take(i as int) =~= all);
    picks
}

} // verus!

//! Text, byte and table helpers shared by the whole library.
use vstd::prelude::*;
use vstd::utf8::*;

verus! {

/// The text in an option.
pub open spec fn text_of(o: Option<String>) -> Option<Seq<char>> {
    match o {
        Some(s) => Some(s@),
        None => None,
    }
}

/// A copy of an optional text.
pub fn copy_option(o: &Option<String>) -> (c: Option<String>)
    ensures
        text_of(c) == text_of(*o),
{
    match o {
        Some(s) => Some(s.clone()),
        None => None,
    }
}

/// Whether two optional texts are equal.
pub fn same_option(a: &Option<String>, b: &Option<String>) -> (r: bool)
    ensures
        r == (text_of(*a) == text_of(*b)),
{
    match (a, b) {
        (Some(x), Some(y)) => same(x.as_str(), y.as_str()),
        (None, None) => true,
        _ => false,
    }
}

/// What the elements of a sequence stand for.
pub open spec fn models<T: View>(s: Seq<T>) -> Seq<T::V> {
    s.map_values(|t: T| t@)
}

/// The position of the first row for which a test holds.
pub(crate) fn find<T: View, F: Fn(&T) -> bool>(
    rows: &Vec<T>,
    test: F,
    Ghost(p): Ghost<spec_fn(T::V) -> bool>,
) -> (r: Option<usize>)
    requires
        forall|t: &T| #[trigger] test.requires((t,)),
        forall|t: &T, b: bool| #[trigger] test.ensures((t,), b) ==> b == p(t@),
    ensures
        match r {
            Some(i) => i < rows@.len() && first_where(models(rows@), p) == Some(i as int) && p(
                rows@[i as int]@,
            ),
            None => first_where(models(rows@), p) is None,
        },
{
    let mut i: usize = 0;
    while i < rows.len()
        invariant
            i <= rows@.len(),
            forall|t: &T| #[trigger] test.requires((t,)),
            forall|t: &T, b: bool| #[trigger] test.ensures((t,), b) ==> b == p(t@),
            forall|j: int| 0 <= j < i ==> !p(#[trigger] models(rows@)[j]),
        decreases rows@.len() - i,
    {
        if test(&rows[i]) {
            proof {
                assert(models(rows@)[i as int] == rows@[i as int]@);
                lemma_first_found(models(rows@), p, i as int);
            }
            return Some(i);
        }
        i += 1;
    }
    proof {
        lemma_none_found(models(rows@), p);
    }
    None
}

/// The positions among the first `n` elements at which `p` holds, in their order.
pub open spec fn positions<T>(s: Seq<T>, p: spec_fn(T) -> bool, n: nat) -> Seq<int>
    decreases n,
{
    if n == 0 {
        Seq::empty()
    } else {
        let before = positions(s, p, (n - 1) as nat);
        if p(s[n - 1]) {
            before.push(n - 1)
        } else {
            before
        }
    }
}

/// The positions that a list of indices stands for.
pub open spec fn ints(s: Seq<usize>) -> Seq<int> {
    s.map_values(|i: usize| i as int)
}

/// The positions of all rows for which a test holds.
pub(crate) fn find_all<T: View, F: Fn(&T) -> bool>(
    rows: &Vec<T>,
    test: F,
    Ghost(p): Ghost<spec_fn(T::V) -> bool>,
) -> (picks: Vec<usize>)
    requires
        forall|t: &T| #[trigger] test.requires((t,)),
        forall|t: &T, b: bool| #[trigger] test.ensures((t,), b) ==> b == p(t@),
    ensures
        ints(picks@) == positions(models(rows@), p, rows@.len()),
        forall|k: int| 0 <= k < picks@.len() ==> (#[trigger] picks@[k]) < rows@.len(),
        forall|k: int| 0 <= k < picks@.len() ==> p(rows@[(#[trigger] picks@[k]) as int]@),
{
    let mut picks: Vec<usize> = Vec::new();
    let mut i: usize = 0;
    assert(ints(picks@) =~= Seq::<int>::empty());
    while i < rows.len()
        invariant
            i <= rows@.len(),
            forall|t: &T| #[trigger] test.requires((t,)),
            forall|t: &T, b: bool| #[trigger] test.ensures((t,), b) ==> b == p(t@),
            ints(picks@) == positions(models(rows@), p, i as nat),
            forall|k: int| 0 <= k < picks@.len() ==> (#[trigger] picks@[k]) < rows@.len(),
            forall|k: int| 0 <= k < picks@.len() ==> p(rows@[(#[trigger] picks@[k]) as int]@),
        decreases rows@.len() - i,
    {
        let ghost before = picks@;
        assert(models(rows@)[i as int] == rows@[i as int]@);
        if test(&rows[i]) {
            picks.push(i);
            assert(ints(picks@) =~= ints(before).push(i as int));
        }
        i += 1;
    }
    picks
}

/// The position of the first element for which `p` holds.
pub open spec fn first_where<T>(s: Seq<T>, p: spec_fn(T) -> bool) -> Option<int>
    decreases s.len(),
{
    if s.len() == 0 {
        None
    } else if p(s[0]) {
        Some(0)
    } else {
        match first_where(s.skip(1), p) {
            Some(i) => Some(i + 1),
            None => None,
        }
    }
}

/// An element satisfying `p` with none before it is the first one.
pub proof fn lemma_first_found<T>(s: Seq<T>, p: spec_fn(T) -> bool, i: int)
    requires
        0 <= i < s.len(),
        p(s[i]),
        forall|j: int| 0 <= j < i ==> !p(#[trigger] s[j]),
    ensures
        first_where(s, p) == Some(i),
    decreases i,
{
    if i > 0 {
        assert(!p(s[0]));
        let t = s.skip(1);
        assert(t[i - 1] == s[i]);
        assert forall|j: int| 0 <= j < i - 1 implies !p(#[trigger] t[j]) by {
            assert(t[j] == s[j + 1]);
        }
        lemma_first_found(t, p, i - 1);
    }
}

/// Nothing is found where no element satisfies `p`.
pub proof fn lemma_none_found<T>(s: Seq<T>, p: spec_fn(T) -> bool)
    requires
        forall|j: int| 0 <= j < s.len() ==> !p(#[trigger] s[j]),
    ensures
        first_where(s, p) is None,
    decreases s.len(),
{
    if s.len() > 0 {
        assert(!p(s[0]));
        let t = s.skip(1);
        assert forall|j: int| 0 <= j < t.len() implies !p(#[trigger] t[j]) by {
            assert(t[j] == s[j + 1]);
        }
        lemma_none_found(t, p);
    }
}

/// What `first_where` finds satisfies `p`, and nothing before it does.
pub proof fn lemma_first_where<T>(s: Seq<T>, p: spec_fn(T) -> bool)
    ensures
        match first_where(s, p) {
            Some(i) => 0 <= i < s.len() && p(s[i]) && forall|j: int|
                0 <= j < i ==> !p(#[trigger] s[j]),
            None => forall|j: int| 0 <= j < s.len() ==> !p(#[trigger] s[j]),
        },
    decreases s.len(),
{
    if s.len() > 0 && !p(s[0]) {
        let t = s.skip(1);
        lemma_first_where(t, p);
        match first_where(t, p) {
            Some(i) => {
                assert(t[i] == s[i + 1]);
                assert forall|j: int| 0 <= j < i + 1 implies !p(#[trigger] s[j]) by {
                    if j > 0 {
                        assert(t[j - 1] == s[j]);
                    }
                }
            },
            None => {
                assert forall|j: int| 0 <= j < s.len() implies !p(#[trigger] s[j]) by {
                    if j > 0 {
                        assert(t[j - 1] == s[j]);
                    }
                }
            },
        }
    }
}

/// The sequence with its first element for which `p` holds replaced, or with a
/// new element at its end where there is none.
pub open spec fn put<T>(s: Seq<T>, p: spec_fn(T) -> bool, x: T) -> Seq<T> {
    match first_where(s, p) {
        Some(i) => s.update(i, x),
        None => s.push(x),
    }
}

/// What is found after an element was added at the end.
pub proof fn lemma_pushed<T>(before: Seq<T>, after: Seq<T>, p: spec_fn(T) -> bool)
    requires
        after.len() == before.len() + 1,
        after == before.push(after.last()),
    ensures
        first_where(before, p) is Some ==> first_where(after, p)
            == first_where(before, p),
        first_where(before, p) is None ==> first_where(after, p) == if p(
            after.last(),
        ) {
            Some(before.len() as int)
        } else {
            None
        },
{
    lemma_first_where(before, p);
    match first_where(before, p) {
        Some(i) => {
            assert forall|j: int| 0 <= j < i implies !p(#[trigger] after[j]) by {
                assert(after[j] == before[j]);
            }
            assert(after[i] == before[i]);
            lemma_first_found(after, p, i);
        },
        None => {
            assert forall|j: int| 0 <= j < before.len() implies !p(#[trigger] after[j]) by {
                assert(after[j] == before[j]);
            }
            if p(after.last()) {
                lemma_first_found(after, p, before.len() as int);
            } else {
                lemma_none_found(after, p);
            }
        },
    }
}

/// What is found after an element was replaced by one for which `p` holds just
/// as it did before.
pub proof fn lemma_replaced<T>(before: Seq<T>, after: Seq<T>, i: int, p: spec_fn(T) -> bool)
    requires
        0 <= i < before.len(),
        after == before.update(i, after[i]),
        p(after[i]) == p(before[i]),
    ensures
        first_where(after, p) == first_where(before, p),
{
    lemma_first_where(before, p);
    match first_where(before, p) {
        Some(j) => {
            assert forall|m: int| 0 <= m < j implies !p(#[trigger] after[m]) by {
                assert(!p(before[m]));
            }
            assert(p(after[j])) by {
                assert(p(before[j]));
            }
            lemma_first_found(after, p, j);
        },
        None => {
            assert forall|m: int| 0 <= m < after.len() implies !p(#[trigger] after[m]) by {
                assert(!p(before[m]));
            }
            lemma_none_found(after, p);
        },
    }
}

/// What is found after an element without `p` was taken out.
pub proof fn lemma_removed<T>(before: Seq<T>, after: Seq<T>, i: int, p: spec_fn(T) -> bool)
    requires
        0 <= i < before.len(),
        after == before.remove(i),
        !p(before[i]),
    ensures
        match first_where(before, p) {
            None => first_where(after, p) is None,
            Some(j) => first_where(after, p) matches Some(m) && after[m] == before[j],
        },
{
    lemma_first_where(before, p);
    match first_where(before, p) {
        Some(j) => {
            let m = if j < i {
                j
            } else {
                j - 1
            };
            assert forall|n: int| 0 <= n < m implies !p(#[trigger] after[n]) by {
                if n < i {
                    assert(!p(before[n]));
                } else {
                    assert(!p(before[n + 1]));
                }
            }
            lemma_first_found(after, p, m);
        },
        None => {
            assert forall|n: int| 0 <= n < after.len() implies !p(#[trigger] after[n]) by {
                if n < i {
                    assert(!p(before[n]));
                } else {
                    assert(!p(before[n + 1]));
                }
            }
            lemma_none_found(after, p);
        },
    }
}

/// Filtering after an element was added at the end.
pub proof fn lemma_filter_push<T>(s: Seq<T>, x: T, p: spec_fn(T) -> bool)
    ensures
        s.push(x).filter(p) == if p(x) {
            s.filter(p).push(x)
        } else {
            s.filter(p)
        },
{
    reveal(Seq::filter);
    assert(s.push(x).drop_last() =~= s);
}

/// Adds bytes at the end of a byte string.
pub fn append_bytes(v: &mut Vec<u8>, s: &[u8])
    ensures
        final(v)@ == old(v)@ + s@,
{
    v.extend_from_slice(s);
    assert(v@ =~= old(v)@ + s@);
}

/// A copy of a byte string.
pub fn copy_bytes(s: &[u8]) -> (v: Vec<u8>)
    ensures
        v@ == s@,
{
    let mut v: Vec<u8> = Vec::new();
    append_bytes(&mut v, s);
    assert(v@ =~= s@);
    v
}

/// Whether two byte strings are equal.
pub fn same_bytes(a: &[u8], b: &[u8]) -> (r: bool)
    ensures
        r == (a@ == b@),
{
    if a.len() != b.len() {
        return false;
    }
    let mut i: usize = 0;
    while i < a.len()
        invariant
            i <= a.len(),
            a.len() == b.len(),
            forall|j: int| 0 <= j < i ==> a@[j] == b@[j],
        decreases a.len() - i,
    {
        if a[i] != b[i] {
            return false;
        }
        i += 1;
    }
    assert(a@ =~= b@);
    true
}

/// Whether two texts are equal.
pub fn same(a: &str, b: &str) -> (r: bool)
    ensures
        r == (a@ == b@),
{
    proof {
        encode_utf8_decode_utf8(a@);
        encode_utf8_decode_utf8(b@);
    }
    same_bytes(a.as_bytes(), b.as_bytes())
}

/// The number of bytes a text takes up.
pub open spec fn byte_length(s: Seq<char>) -> nat {
    encode_utf8(s).len()
}

/// The number of bytes a text takes up.
pub fn byte_len(s: &str) -> (n: usize)
    ensures
        n == byte_length(s@),
{
    s.as_bytes().len()
}

/// The characters with the Unicode property White_Space.
pub open spec fn white_space(c: char) -> bool {
    let u = c as u32;
    ||| 0x9 <= u <= 0xd
    ||| u == 0x20
    ||| u == 0x85
    ||| u == 0xa0
    ||| u == 0x1680
    ||| 0x2000 <= u <= 0x200a
    ||| u == 0x2028
    ||| u == 0x2029
    ||| u == 0x202f
    ||| u == 0x205f
    ||| u == 0x3000
}

/// A text without any character but white space.
pub open spec fn blank(s: Seq<char>) -> bool {
    forall|i: int| 0 <= i < s.len() ==> white_space(#[trigger] s[i])
}

/// Whether a text holds nothing but white space.
pub fn is_blank(s: &str) -> (r: bool)
    ensures
        r == blank(s@),
{
    for c in it: s.chars()
        invariant
            it.seq() == s@,
            forall|i: int| 0 <= i < it.index() ==> white_space(#[trigger] s@[i]),
    {
        let u: u32 = c as u32;
        let white: bool = (0x9 <= u && u <= 0xd) || u == 0x20 || u == 0x85 || u == 0xa0
            || u == 0x1680 || (0x2000 <= u && u <= 0x200a) || u == 0x2028 || u == 0x2029
            || u == 0x202f || u == 0x205f || u == 0x3000;
        if !white {
            assert(s@[it.index() as int] == c);
            return false;
        }
    }
    true
}

/// A text that holds the character NUL.
pub open spec fn has_nul(s: Seq<char>) -> bool {
    exists|i: int| 0 <= i < s.len() && #[trigger] s[i] == '\0'
}

/// Whether a text holds the character NUL.
pub fn contains_nul(s: &str) -> (r: bool)
    ensures
        r == has_nul(s@),
{
    for c in it: s.chars()
        invariant
            it.seq() == s@,
            forall|i: int| 0 <= i < it.index() ==> #[trigger] s@[i] != '\0',
    {
        if c == '\0' {
            assert(s@[it.index() as int] == c);
            return true;
        }
    }
    false
}

} // verus!

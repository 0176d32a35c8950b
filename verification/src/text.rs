//! Strings as sequences of characters: reading them, comparing them for
//! equality, and the order in which keys are sorted (by Unicode scalar value,
//! which is also the byte order of UTF-8 and so the order in which
//! `BTreeMap<String, _>` iterates).

use vstd::prelude::*;

verus! {

/// The characters of `s`, in order.
pub fn chars_of(s: &str) -> (v: Vec<char>)
    ensures
        v@ == s@,
{
    let mut v: Vec<char> = Vec::new();
    for c in it: s.chars()
        invariant
            it.seq() == s@,
            v@ == it.seq().take(it.index() as int),
    {
        v.push(c);
    }
    proof {
        assert(s@.take(s@.len() as int) =~= s@);
    }
    v
}

/// Whether `a` and `b` hold the same characters.
pub fn str_equal(a: &str, b: &str) -> (r: bool)
    ensures
        r == (a@ == b@),
{
    let ca = chars_of(a);
    let cb = chars_of(b);
    if ca.len() != cb.len() {
        return false;
    }
    let mut i: usize = 0;
    while i < ca.len()
        invariant
            ca@ == a@,
            cb@ == b@,
            ca@.len() == cb@.len(),
            i <= ca@.len(),
            forall|j: int| 0 <= j < i ==> ca@[j] == cb@[j],
        decreases ca@.len() - i,
    {
        if ca[i] != cb[i] {
            return false;
        }
        i = i + 1;
    }
    assert(a@ =~= b@);
    true
}

/// `a` sorts strictly before `b`: at the first position where they differ
/// `a` holds the smaller character, or `a` is a proper prefix of `b`.
pub open spec fn key_lt(a: Seq<char>, b: Seq<char>) -> bool {
    exists|i: int|
        #![trigger a.take(i), b.take(i)]
        0 <= i <= a.len() && i <= b.len() && a.take(i) == b.take(i) && ((i == a.len() && i
            < b.len()) || (i < a.len() && i < b.len() && a[i] < b[i]))
}

/// The keys of `keys` are strictly increasing, hence pairwise distinct.
pub open spec fn strictly_sorted(keys: Seq<Seq<char>>) -> bool {
    forall|i: int, j: int| 0 <= i < j < keys.len() ==> key_lt(#[trigger] keys[i], #[trigger] keys[j])
}

/// The first position at which `a` and `b` differ, or the shorter length.
spec fn first_diff(a: Seq<char>, b: Seq<char>) -> int
    decreases a.len(),
{
    if a.len() == 0 || b.len() == 0 || a[0] != b[0] {
        0
    } else {
        1 + first_diff(a.drop_first(), b.drop_first())
    }
}

proof fn lemma_first_diff(a: Seq<char>, b: Seq<char>)
    ensures
        0 <= first_diff(a, b) <= a.len(),
        first_diff(a, b) <= b.len(),
        a.take(first_diff(a, b)) == b.take(first_diff(a, b)),
        first_diff(a, b) < a.len() && first_diff(a, b) < b.len() ==> a[first_diff(a, b)] != b[first_diff(a, b)],
    decreases a.len(),
{
    if a.len() == 0 || b.len() == 0 || a[0] != b[0] {
        assert(a.take(0) =~= b.take(0));
    } else {
        let (a1, b1) = (a.drop_first(), b.drop_first());
        lemma_first_diff(a1, b1);
        let d = first_diff(a1, b1);
        assert(a.take(d + 1) =~= seq![a[0]] + a1.take(d));
        assert(b.take(d + 1) =~= seq![b[0]] + b1.take(d));
    }
}

/// Any prefix-equality witness of `key_lt` is the first difference.
proof fn lemma_witness_is_first_diff(a: Seq<char>, b: Seq<char>, i: int)
    requires
        0 <= i <= a.len(),
        i <= b.len(),
        a.take(i) == b.take(i),
        i == a.len() || i == b.len() || a[i] != b[i],
    ensures
        i == first_diff(a, b),
{
    lemma_first_diff(a, b);
    let d = first_diff(a, b);
    if d < i {
        assert(a.take(i)[d] == a[d]);
        assert(b.take(i)[d] == b[d]);
        assert(a.take(i)[d] == b.take(i)[d]);
    } else if i < d {
        assert(a.take(d)[i] == b.take(d)[i]);
    }
}

/// `key_lt` decided by the first difference.
proof fn lemma_key_lt_first_diff(a: Seq<char>, b: Seq<char>)
    ensures
        key_lt(a, b) <==> {
            let d = first_diff(a, b);
            (d == a.len() && d < b.len()) || (d < a.len() && d < b.len() && a[d] < b[d])
        },
{
    lemma_first_diff(a, b);
    let d = first_diff(a, b);
    if key_lt(a, b) {
        let i = choose|i: int|
            #![trigger a.take(i), b.take(i)]
            0 <= i <= a.len() && i <= b.len() && a.take(i) == b.take(i) && ((i == a.len() && i
                < b.len()) || (i < a.len() && i < b.len() && a[i] < b[i]));
        lemma_witness_is_first_diff(a, b, i);
    }
    if (d == a.len() && d < b.len()) || (d < a.len() && d < b.len() && a[d] < b[d]) {
        assert(a.take(d) == b.take(d));
    }
}

/// `key_lt` is irreflexive.
pub proof fn lemma_key_lt_irreflexive(a: Seq<char>)
    ensures
        !key_lt(a, a),
{
    lemma_key_lt_first_diff(a, a);
    lemma_first_diff(a, a);
}

/// Two distinct keys are ordered one way or the other, never both.
pub proof fn lemma_key_lt_total(a: Seq<char>, b: Seq<char>)
    ensures
        a != b ==> key_lt(a, b) || key_lt(b, a),
        !(key_lt(a, b) && key_lt(b, a)),
{
    lemma_key_lt_first_diff(a, b);
    lemma_key_lt_first_diff(b, a);
    lemma_first_diff(a, b);
    lemma_first_diff(b, a);
    let d = first_diff(a, b);
    lemma_witness_is_first_diff(b, a, d);
    if d == a.len() && d == b.len() {
        assert(a =~= a.take(d));
        assert(b =~= b.take(d));
    }
    if d < a.len() && d < b.len() {
        assert(a[d] != b[d]);
    }
}

/// `key_lt` is transitive.
pub proof fn lemma_key_lt_transitive(a: Seq<char>, b: Seq<char>, c: Seq<char>)
    requires
        key_lt(a, b),
        key_lt(b, c),
    ensures
        key_lt(a, c),
{
    lemma_key_lt_first_diff(a, b);
    lemma_key_lt_first_diff(b, c);
    lemma_first_diff(a, b);
    lemma_first_diff(b, c);
    let i = first_diff(a, b);
    let j = first_diff(b, c);
    let m = if i < j {
        i
    } else {
        j
    };
    assert(a.take(m) =~= c.take(m)) by {
        assert forall|k: int| 0 <= k < m implies a[k] == c[k] by {
            assert(a.take(i)[k] == b.take(i)[k]);
            assert(b.take(j)[k] == c.take(j)[k]);
        }
    }
    if i < j {
        assert(b[i] == c[i]) by {
            assert(b.take(j)[i] == c.take(j)[i]);
        }
    } else if j < i {
        assert(a[j] == b[j]) by {
            assert(a.take(i)[j] == b.take(i)[j]);
        }
    }
    assert(0 <= m <= a.len() && m <= c.len() && a.take(m) == c.take(m) && ((m == a.len() && m
        < c.len()) || (m < a.len() && m < c.len() && a[m] < c[m])));
}

/// Whether `a` sorts strictly before `b`.
pub fn key_less(a: &str, b: &str) -> (r: bool)
    ensures
        r == key_lt(a@, b@),
{
    let ca = chars_of(a);
    let cb = chars_of(b);
    let mut i: usize = 0;
    proof {
        lemma_first_diff(a@, b@);
        lemma_key_lt_first_diff(a@, b@);
    }
    while i < ca.len() && i < cb.len() && ca[i] == cb[i]
        invariant
            ca@ == a@,
            cb@ == b@,
            0 <= i <= first_diff(a@, b@),
        decreases ca.len() - i,
    {
        proof {
            lemma_first_diff(a@, b@);
            if i == first_diff(a@, b@) {
                assert(ca@[i as int] != cb@[i as int]);
            }
        }
        i = i + 1;
    }
    proof {
        if i < first_diff(a@, b@) {
            assert(a@.take(first_diff(a@, b@))[i as int] == b@.take(first_diff(a@, b@))[i as int]);
        }
    }
    if i == ca.len() {
        i < cb.len()
    } else if i == cb.len() {
        false
    } else {
        ca[i] < cb[i]
    }
}


/// Two strings that differ at position `i` are different.
pub proof fn lemma_differ_at(a: Seq<char>, b: Seq<char>, i: int)
    requires
        0 <= i < a.len(),
        i < b.len(),
        a[i] != b[i],
    ensures
        a != b,
{
}

/// A proper prefix sorts before the longer key.
pub proof fn lemma_key_lt_prefix(a: Seq<char>, c: Seq<char>)
    requires
        c.len() > 0,
    ensures
        key_lt(a, a + c),
        !key_lt(a + c, a),
{
    let b = a + c;
    let i = a.len() as int;
    assert(a.take(i) =~= b.take(i));
    assert(key_lt(a, b));
    if key_lt(b, a) {
        lemma_key_lt_transitive(a, b, a);
        lemma_key_lt_irreflexive(a);
    }
}

/// After a common prefix, the key with the smaller character (by Unicode
/// scalar value) sorts first, whatever follows.
pub proof fn lemma_key_lt_first_difference(p: Seq<char>, x: char, y: char, s: Seq<char>, t: Seq<char>)
    requires
        x < y,
    ensures
        key_lt(p + seq![x] + s, p + seq![y] + t),
        !key_lt(p + seq![y] + t, p + seq![x] + s),
{
    let a = p + seq![x] + s;
    let b = p + seq![y] + t;
    let i = p.len() as int;
    assert(a.take(i) =~= p);
    assert(b.take(i) =~= p);
    assert(a[i] == x);
    assert(b[i] == y);
    assert(key_lt(a, b));
    if key_lt(b, a) {
        lemma_key_lt_transitive(a, b, a);
        lemma_key_lt_irreflexive(a);
    }
}

} // verus!

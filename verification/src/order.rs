//! The order of `String`s: lexicographic by character (which is the byte order
//! of their UTF-8 encodings), and stable sorting by it.
use vstd::prelude::*;

verus! {

/// `a < b` in the order of `str::cmp`.
pub open spec fn seq_lt(a: Seq<char>, b: Seq<char>) -> bool
    decreases a.len(),
{
    if a.len() == 0 {
        b.len() > 0
    } else if b.len() == 0 {
        false
    } else if a[0] < b[0] {
        true
    } else if a[0] == b[0] {
        seq_lt(a.drop_first(), b.drop_first())
    } else {
        false
    }
}

/// Exactly one of `a < b`, `a == b`, `b < a` holds.
pub proof fn lemma_trichotomy(a: Seq<char>, b: Seq<char>)
    ensures
        seq_lt(a, b) || a == b || seq_lt(b, a),
        !(seq_lt(a, b) && seq_lt(b, a)),
        !(seq_lt(a, b) && a == b),
    decreases a.len(),
{
    if a.len() > 0 && b.len() > 0 {
        if a[0] == b[0] {
            lemma_trichotomy(a.drop_first(), b.drop_first());
            if a.drop_first() == b.drop_first() {
                assert(a =~= seq![a[0]] + a.drop_first());
                assert(b =~= seq![b[0]] + b.drop_first());
            }
        } else {
            assert(a[0] != b[0]);
        }
    } else if a.len() == 0 && b.len() == 0 {
        assert(a =~= b);
    }
}

pub proof fn lemma_transitive(a: Seq<char>, b: Seq<char>, c: Seq<char>)
    requires
        seq_lt(a, b),
        seq_lt(b, c),
    ensures
        seq_lt(a, c),
    decreases a.len(),
{
    if a.len() > 0 && b.len() > 0 && c.len() > 0 {
        if a[0] == b[0] && b[0] == c[0] {
            lemma_transitive(a.drop_first(), b.drop_first(), c.drop_first());
        }
    }
}

/// Whether `a < b`.
pub fn chars_lt(a: &[char], b: &[char]) -> (r: bool)
    ensures
        r == seq_lt(a@, b@),
{
    let mut i: usize = 0;
    assert(a@.skip(0) =~= a@);
    assert(b@.skip(0) =~= b@);
    while i < a.len() && i < b.len()
        invariant
            i <= a@.len(),
            i <= b@.len(),
            a@.take(i as int) == b@.take(i as int),
            seq_lt(a@, b@) == seq_lt(a@.skip(i as int), b@.skip(i as int)),
        decreases a@.len() - i,
    {
        let ghost sa = a@.skip(i as int);
        let ghost sb = b@.skip(i as int);
        assert(sa[0] == a@[i as int]);
        assert(sb[0] == b@[i as int]);
        if a[i] < b[i] {
            return true;
        }
        if a[i] != b[i] {
            return false;
        }
        assert(sa.drop_first() =~= a@.skip(i + 1));
        assert(sb.drop_first() =~= b@.skip(i + 1));
        assert(a@.take(i + 1) =~= a@.take(i as int).push(a@[i as int]));
        assert(b@.take(i + 1) =~= b@.take(i as int).push(b@[i as int]));
        i = i + 1;
    }
    proof {
        let sa = a@.skip(i as int);
        let sb = b@.skip(i as int);
        if i == a@.len() {
            assert(sa.len() == 0);
        } else {
            assert(sb.len() == 0);
        }
    }
    i == a.len() && i < b.len()
}

/// Whether `a < b` for strings.
pub fn str_lt(a: &str, b: &str) -> (r: bool)
    ensures
        r == seq_lt(a@, b@),
{
    let x = crate::text::chars_of(a);
    let y = crate::text::chars_of(b);
    chars_lt(&x, &y)
}

/// Adjacent elements are in strictly increasing order.
pub open spec fn strictly_sorted(s: Seq<Seq<char>>) -> bool {
    forall|k: int| 0 <= k < s.len() - 1 ==> seq_lt(#[trigger] s[k], s[k + 1])
}

pub proof fn lemma_strictly_sorted_all(s: Seq<Seq<char>>, i: int, j: int)
    requires
        strictly_sorted(s),
        0 <= i < j < s.len(),
    ensures
        seq_lt(s[i], s[j]),
    decreases j - i,
{
    if j > i + 1 {
        lemma_strictly_sorted_all(s, i, j - 1);
        assert(seq_lt(s[j - 1], s[j]));
        lemma_transitive(s[i], s[j - 1], s[j]);
    }
}

/// `a < b` for sequences of strings, each compared as by `str::cmp`, in
/// lexicographic order.
pub open spec fn key_lt(a: Seq<Seq<char>>, b: Seq<Seq<char>>) -> bool
    decreases a.len(),
{
    if a.len() == 0 {
        b.len() > 0
    } else if b.len() == 0 {
        false
    } else if seq_lt(a[0], b[0]) {
        true
    } else if a[0] == b[0] {
        key_lt(a.drop_first(), b.drop_first())
    } else {
        false
    }
}

pub proof fn lemma_key_transitive(a: Seq<Seq<char>>, b: Seq<Seq<char>>, c: Seq<Seq<char>>)
    requires
        key_lt(a, b),
        key_lt(b, c),
    ensures
        key_lt(a, c),
    decreases a.len(),
{
    if a.len() > 0 && b.len() > 0 && c.len() > 0 {
        lemma_trichotomy(a[0], b[0]);
        lemma_trichotomy(b[0], c[0]);
        if seq_lt(a[0], b[0]) && seq_lt(b[0], c[0]) {
            lemma_transitive(a[0], b[0], c[0]);
        } else if a[0] == b[0] && b[0] == c[0] {
            lemma_key_transitive(a.drop_first(), b.drop_first(), c.drop_first());
        }
    }
}

pub proof fn lemma_key_irreflexive(a: Seq<Seq<char>>)
    ensures
        !key_lt(a, a),
    decreases a.len(),
{
    if a.len() > 0 {
        lemma_trichotomy(a[0], a[0]);
        lemma_key_irreflexive(a.drop_first());
    }
}

/// Whether `a < b` for sequences of strings.
pub fn keys_lt(a: &Vec<Vec<char>>, b: &Vec<Vec<char>>) -> (r: bool)
    ensures
        r == key_lt(crate::text::views(a@), crate::text::views(b@)),
{
    let ghost va = crate::text::views(a@);
    let ghost vb = crate::text::views(b@);
    let mut i: usize = 0;
    assert(va.skip(0) =~= va);
    assert(vb.skip(0) =~= vb);
    while i < a.len() && i < b.len()
        invariant
            i <= a@.len(),
            i <= b@.len(),
            va == crate::text::views(a@),
            vb == crate::text::views(b@),
            key_lt(va, vb) == key_lt(va.skip(i as int), vb.skip(i as int)),
        decreases a@.len() - i,
    {
        let ghost sa = va.skip(i as int);
        let ghost sb = vb.skip(i as int);
        assert(sa[0] == a@[i as int]@);
        assert(sb[0] == b@[i as int]@);
        if chars_lt(a[i].as_slice(), b[i].as_slice()) {
            return true;
        }
        if !crate::text::chars_eq(a[i].as_slice(), b[i].as_slice()) {
            return false;
        }
        assert(sa.drop_first() =~= va.skip(i + 1));
        assert(sb.drop_first() =~= vb.skip(i + 1));
        i = i + 1;
    }
    proof {
        let sa = va.skip(i as int);
        let sb = vb.skip(i as int);
        if i == a@.len() {
            assert(sa.len() == 0);
        } else {
            assert(sb.len() == 0);
        }
    }
    i == a.len() && i < b.len()
}

pub proof fn lemma_key_trichotomy(a: Seq<Seq<char>>, b: Seq<Seq<char>>)
    ensures
        key_lt(a, b) || a == b || key_lt(b, a),
    decreases a.len(),
{
    if a.len() > 0 && b.len() > 0 {
        lemma_trichotomy(a[0], b[0]);
        if a[0] == b[0] {
            lemma_key_trichotomy(a.drop_first(), b.drop_first());
            if a.drop_first() == b.drop_first() {
                assert(a =~= seq![a[0]] + a.drop_first());
                assert(b =~= seq![b[0]] + b.drop_first());
            }
        }
    } else if a.len() == 0 && b.len() == 0 {
        assert(a =~= b);
    }
}

/// `lt` is a strict total order on `T`.
pub open spec fn is_strict_order<T>(lt: spec_fn(T, T) -> bool) -> bool {
    &&& forall|x: T| !#[trigger] lt(x, x)
    &&& forall|x: T, y: T, z: T| #[trigger] lt(x, y) && #[trigger] lt(y, z) ==> lt(x, z)
    &&& forall|x: T, y: T| x != y ==> #[trigger] lt(x, y) || lt(y, x)
}

/// Each element of `s` is below every later one.
pub open spec fn sorted_by<T>(s: Seq<T>, lt: spec_fn(T, T) -> bool) -> bool {
    forall|i: int, j: int| 0 <= i < j < s.len() ==> lt(#[trigger] s[i], #[trigger] s[j])
}

/// The elements of the finite set `st` in increasing order.
pub open spec fn sorted_set<T>(st: Set<T>, lt: spec_fn(T, T) -> bool) -> Seq<T> {
    choose|s: Seq<T>| s.to_set() == st && sorted_by(s, lt)
}

/// Two sequences sorted by a strict total order with the same elements are
/// equal.
pub proof fn lemma_sorted_unique<T>(a: Seq<T>, b: Seq<T>, lt: spec_fn(T, T) -> bool)
    requires
        is_strict_order(lt),
        sorted_by(a, lt),
        sorted_by(b, lt),
        a.to_set() == b.to_set(),
    ensures
        a == b,
    decreases a.len(),
{
    if a.len() == 0 {
        if b.len() > 0 {
            assert(b.to_set().contains(b[0]));
        }
        assert(a =~= b);
    } else if b.len() == 0 {
        assert(a.to_set().contains(a[0]));
    } else {
        // the first elements are both the least
        assert(b.to_set().contains(a[0]));
        assert(a.to_set().contains(b[0]));
        if a[0] != b[0] {
            let i = choose|i: int| 0 <= i < a.len() && a[i] == b[0];
            let j = choose|j: int| 0 <= j < b.len() && b[j] == a[0];
            assert(i > 0 && j > 0);
            assert(lt(a[0], a[i]));
            assert(lt(b[0], b[j]));
            assert(lt(a[0], a[0]));
        }
        let a1 = a.drop_first();
        let b1 = b.drop_first();
        assert forall|x: T| a1.to_set().contains(x) == b1.to_set().contains(x) by {
            if a1.contains(x) {
                let i = choose|i: int| 0 <= i < a1.len() && a1[i] == x;
                assert(a[i + 1] == x);
                assert(lt(a[0], a[i + 1]));
                assert(b.to_set().contains(x));
                let j = choose|j: int| 0 <= j < b.len() && b[j] == x;
                assert(j != 0);
                assert(b1[j - 1] == x);
            }
            if b1.contains(x) {
                let j = choose|j: int| 0 <= j < b1.len() && b1[j] == x;
                assert(b[j + 1] == x);
                assert(lt(b[0], b[j + 1]));
                assert(a.to_set().contains(x));
                let i = choose|i: int| 0 <= i < a.len() && a[i] == x;
                assert(i != 0);
                assert(a1[i - 1] == x);
            }
        }
        assert(a1.to_set() =~= b1.to_set());
        assert(sorted_by(a1, lt)) by {
            assert forall|i: int, j: int| 0 <= i < j < a1.len() implies lt(#[trigger] a1[i], #[trigger] a1[j]) by {
                assert(a1[i] == a[i + 1] && a1[j] == a[j + 1]);
            }
        }
        assert(sorted_by(b1, lt)) by {
            assert forall|i: int, j: int| 0 <= i < j < b1.len() implies lt(#[trigger] b1[i], #[trigger] b1[j]) by {
                assert(b1[i] == b[i + 1] && b1[j] == b[j + 1]);
            }
        }
        lemma_sorted_unique(a1, b1, lt);
        assert(a =~= seq![a[0]] + a1);
        assert(b =~= seq![b[0]] + b1);
    }
}

/// A sequence sorted by a strict order is the sorted listing of its elements.
pub proof fn lemma_is_sorted_set<T>(s: Seq<T>, lt: spec_fn(T, T) -> bool)
    requires
        is_strict_order(lt),
        sorted_by(s, lt),
    ensures
        sorted_set(s.to_set(), lt) == s,
{
    let c = sorted_set(s.to_set(), lt);
    assert(c.to_set() == s.to_set() && sorted_by(c, lt));
    lemma_sorted_unique(c, s, lt);
}

/// `str::cmp` as a strict order.
pub open spec fn str_order() -> spec_fn(Seq<char>, Seq<char>) -> bool {
    |a: Seq<char>, b: Seq<char>| seq_lt(a, b)
}

pub proof fn lemma_str_order()
    ensures
        is_strict_order(str_order()),
{
    assert forall|x: Seq<char>| !#[trigger] str_order()(x, x) by {
        lemma_trichotomy(x, x);
    }
    assert forall|x: Seq<char>, y: Seq<char>, z: Seq<char>|
        #[trigger] str_order()(x, y) && #[trigger] str_order()(y, z) implies str_order()(x, z) by {
        lemma_transitive(x, y, z);
    }
    assert forall|x: Seq<char>, y: Seq<char>| x != y implies #[trigger] str_order()(x, y) || str_order()(y, x) by {
        lemma_trichotomy(x, y);
    }
}

} // verus!

//! The ordering of strings (`Ord for str`: lexicographic by character,
//! which is the byte order of UTF-8), sorted sequences of strings, and
//! sorted sets of strings kept in a `Vec`. (vstd specifies `BTreeSet` only
//! for keys whose `Ord` it models, integers and tuples of them; for string
//! lines neither membership nor iteration order could be proved through it.)
use vstd::prelude::*;
use crate::text::views;

verus! {

broadcast use vstd::seq_lib::group_seq_properties;

/// `a` sorts strictly before `b`.
pub open spec fn lex_lt(a: Seq<char>, b: Seq<char>) -> bool
    decreases a.len(),
{
    if a.len() == 0 {
        b.len() > 0
    } else if b.len() == 0 {
        false
    } else if a[0] != b[0] {
        a[0] < b[0]
    } else {
        lex_lt(a.drop_first(), b.drop_first())
    }
}

/// Every element sorts strictly before every later one (sorted, no repeats).
pub open spec fn strictly_sorted(s: Seq<Seq<char>>) -> bool {
    forall|i: int, j: int| 0 <= i < j < s.len() ==> lex_lt(#[trigger] s[i], #[trigger] s[j])
}

/// No element sorts strictly before an earlier one.
pub open spec fn sorted(s: Seq<Seq<char>>) -> bool {
    forall|i: int, j: int| 0 <= i < j < s.len() ==> !lex_lt(#[trigger] s[j], #[trigger] s[i])
}

pub proof fn lemma_lex_irreflexive(a: Seq<char>)
    ensures
        !lex_lt(a, a),
    decreases a.len(),
{
    if a.len() > 0 {
        lemma_lex_irreflexive(a.drop_first());
    }
}

pub proof fn lemma_lex_transitive(a: Seq<char>, b: Seq<char>, c: Seq<char>)
    requires
        lex_lt(a, b),
        lex_lt(b, c),
    ensures
        lex_lt(a, c),
    decreases a.len(),
{
    if a.len() > 0 && b.len() > 0 && c.len() > 0 && a[0] == b[0] && b[0] == c[0] {
        lemma_lex_transitive(a.drop_first(), b.drop_first(), c.drop_first());
    }
}

pub proof fn lemma_lex_total(a: Seq<char>, b: Seq<char>)
    ensures
        a == b || lex_lt(a, b) || lex_lt(b, a),
    decreases a.len(),
{
    if a.len() == 0 && b.len() == 0 {
        assert(a =~= b);
    } else if a.len() > 0 && b.len() > 0 && a[0] == b[0] {
        lemma_lex_total(a.drop_first(), b.drop_first());
        if a.drop_first() == b.drop_first() {
            assert(a =~= seq![a[0]] + a.drop_first());
            assert(b =~= seq![b[0]] + b.drop_first());
        }
    }
}

pub proof fn lemma_lex_asymmetric(a: Seq<char>, b: Seq<char>)
    requires
        lex_lt(a, b),
    ensures
        !lex_lt(b, a),
{
    if lex_lt(b, a) {
        lemma_lex_transitive(a, b, a);
        lemma_lex_irreflexive(a);
    }
}

proof fn lemma_lex_step(a: Seq<char>, b: Seq<char>, i: int)
    requires
        0 <= i < a.len(),
        i < b.len(),
        a[i] == b[i],
    ensures
        lex_lt(a.skip(i), b.skip(i)) == lex_lt(a.skip(i + 1), b.skip(i + 1)),
{
    assert(a.skip(i).drop_first() =~= a.skip(i + 1));
    assert(b.skip(i).drop_first() =~= b.skip(i + 1));
}

/// Whether `a` sorts strictly before `b`.
pub fn lex_less(a: &[char], b: &[char]) -> (r: bool)
    ensures
        r == lex_lt(a@, b@),
{
    let mut i: usize = 0;
    assert(a@.skip(0) =~= a@);
    assert(b@.skip(0) =~= b@);
    while i < a.len() && i < b.len() && a[i] == b[i]
        invariant
            i <= a@.len(),
            i <= b@.len(),
            lex_lt(a@, b@) == lex_lt(a@.skip(i as int), b@.skip(i as int)),
        decreases a@.len() - i,
    {
        proof {
            lemma_lex_step(a@, b@, i as int);
        }
        i += 1;
    }
    if i == a.len() {
        i < b.len()
    } else if i == b.len() {
        false
    } else {
        a[i] < b[i]
    }
}

/// Whether two character sequences are equal.
pub fn same_chars(a: &[char], b: &[char]) -> (r: bool)
    ensures
        r == (a@ == b@),
{
    if a.len() != b.len() {
        return false;
    }
    let mut i: usize = 0;
    while i < a.len()
        invariant
            i <= a@.len(),
            a@.len() == b@.len(),
            forall|j: int| 0 <= j < i ==> a@[j] == b@[j],
        decreases a@.len() - i,
    {
        if a[i] != b[i] {
            return false;
        }
        i += 1;
    }
    assert(a@ =~= b@);
    true
}

proof fn lemma_views_insert(v: Seq<Vec<char>>, i: int, x: Vec<char>)
    requires
        0 <= i <= v.len(),
    ensures
        views(v.insert(i, x)) == views(v).insert(i, x@),
{
    assert(views(v.insert(i, x)) =~= views(v).insert(i, x@));
}

/// Adds `x` to a strictly sorted vector of strings, keeping it strictly
/// sorted; nothing changes when `x` is already there.
pub fn insert_unique(v: &mut Vec<Vec<char>>, x: Vec<char>)
    requires
        strictly_sorted(views(old(v)@)),
    ensures
        strictly_sorted(views(final(v)@)),
        views(final(v)@).to_set() == views(old(v)@).to_set().insert(x@),
{
    let ghost s = views(v@);
    let mut i: usize = 0;
    while i < v.len() && lex_less(&v[i], &x)
        invariant
            i <= v@.len(),
            s == views(v@),
            strictly_sorted(s),
            forall|j: int| 0 <= j < i ==> lex_lt(#[trigger] s[j], x@),
        decreases v@.len() - i,
    {
        i += 1;
    }
    if i < v.len() && same_chars(&v[i], &x) {
        assert(s[i as int] == x@);
        assert(s.contains(x@));
        assert(s.to_set().insert(x@) =~= s.to_set());
        return;
    }
    proof {
        if i < s.len() {
            lemma_lex_total(s[i as int], x@);
        }
        assert forall|j: int| i <= j < s.len() implies lex_lt(x@, s[j]) by {
            if j > i {
                lemma_lex_transitive(x@, s[i as int], s[j]);
            }
        }
        lemma_views_insert(v@, i as int, x);
    }
    v.insert(i, x);
    let ghost t = views(v@);
    assert(t == s.insert(i as int, x@));
    proof {
        s.insert_ensures(i as int, x@);
    }
    assert forall|a: int, b: int| 0 <= a < b < t.len() implies lex_lt(#[trigger] t[a], #[trigger] t[b]) by {
        if b < i {
        } else if b == i {
        } else if a < i {
            assert(t[b] == s[b - 1]);
            lemma_lex_transitive(t[a], x@, t[b]);
        } else if a == i {
            assert(t[b] == s[b - 1]);
        } else {
            assert(t[a] == s[a - 1]);
            assert(t[b] == s[b - 1]);
        }
    }
    assert(t.to_set() =~= s.to_set().insert(x@)) by {
        assert forall|e: Seq<char>| t.contains(e) implies s.to_set().insert(x@).contains(e) by {
            let k = choose|k: int| 0 <= k < t.len() && t[k] == e;
            if k < i {
                assert(s[k] == e);
            } else if k > i {
                assert(s[k - 1] == e);
            }
        }
        assert forall|e: Seq<char>| s.to_set().insert(x@).contains(e) implies t.contains(e) by {
            if e == x@ {
                assert(t[i as int] == e);
            } else {
                let k = choose|k: int| 0 <= k < s.len() && s[k] == e;
                if k < i {
                    assert(t[k] == e);
                } else {
                    assert(t[k + 1] == e);
                }
            }
        }
    }
}

/// The strictly sorted vector holding every string of `a` and of `b`: the
/// contents of a `BTreeSet<String>` filled with both.
pub fn sorted_union(a: &Vec<Vec<char>>, b: &Vec<Vec<char>>) -> (r: Vec<Vec<char>>)
    ensures
        strictly_sorted(views(r@)),
        views(r@).to_set() == views(a@).to_set() + views(b@).to_set(),
{
    let mut r: Vec<Vec<char>> = Vec::new();
    let mut i: usize = 0;
    assert(views(r@).to_set() =~= views(a@.take(0)).to_set());
    while i < a.len()
        invariant
            i <= a@.len(),
            strictly_sorted(views(r@)),
            views(r@).to_set() == views(a@.take(i as int)).to_set(),
        decreases a@.len() - i,
    {
        insert_unique(&mut r, a[i].clone());
        assert(views(a@.take(i + 1)) =~= views(a@.take(i as int)).push(a@[i as int]@));
        i += 1;
    }
    assert(a@.take(a@.len() as int) =~= a@);
    let mut j: usize = 0;
    assert(views(b@.take(0)).to_set() =~= Set::empty());
    assert(views(r@).to_set() =~= views(a@).to_set() + views(b@.take(0)).to_set());
    while j < b.len()
        invariant
            j <= b@.len(),
            strictly_sorted(views(r@)),
            views(r@).to_set() == views(a@).to_set() + views(b@.take(j as int)).to_set(),
        decreases b@.len() - j,
    {
        insert_unique(&mut r, b[j].clone());
        assert(views(b@.take(j + 1)) =~= views(b@.take(j as int)).push(b@[j as int]@));
        assert(views(r@).to_set() =~= views(a@).to_set() + views(b@.take(j + 1)).to_set());
        j += 1;
    }
    assert(b@.take(b@.len() as int) =~= b@);
    r
}

/// Two sorted sequences holding the same elements, each as often, are
/// equal.
pub proof fn lemma_sorted_unique(a: Seq<Seq<char>>, b: Seq<Seq<char>>)
    requires
        sorted(a),
        sorted(b),
        a.to_multiset() == b.to_multiset(),
    ensures
        a == b,
    decreases a.len(),
{
    broadcast use vstd::seq_lib::group_to_multiset_ensures;

    a.to_multiset_ensures();
    b.to_multiset_ensures();
    assert(a.len() == b.len());
    if a.len() == 0 {
        assert(a =~= b);
    } else {
        let x = a[0];
        let y = b[0];
        assert(a.contains(x));
        assert(b.to_multiset().count(x) > 0);
        assert(b.contains(x));
        let j = choose|j: int| 0 <= j < b.len() && b[j] == x;
        if j > 0 {
            assert(!lex_lt(b[j], b[0]));
        } else {
            lemma_lex_irreflexive(x);
        }
        assert(!lex_lt(x, y));
        assert(b.contains(y));
        assert(a.to_multiset().count(y) > 0);
        assert(a.contains(y));
        let i = choose|i: int| 0 <= i < a.len() && a[i] == y;
        if i > 0 {
            assert(!lex_lt(a[i], a[0]));
        } else {
            lemma_lex_irreflexive(y);
        }
        assert(!lex_lt(y, x));
        lemma_lex_total(x, y);
        assert(a.remove(0) =~= a.drop_first());
        assert(b.remove(0) =~= b.drop_first());
        vstd::seq_lib::to_multiset_remove(a, 0);
        vstd::seq_lib::to_multiset_remove(b, 0);
        lemma_sorted_unique(a.drop_first(), b.drop_first());
        assert(a =~= seq![x] + a.drop_first());
        assert(b =~= seq![y] + b.drop_first());
    }
}

/// Two strictly sorted sequences with the same elements are equal.
pub proof fn lemma_strictly_sorted_unique(a: Seq<Seq<char>>, b: Seq<Seq<char>>)
    requires
        strictly_sorted(a),
        strictly_sorted(b),
        a.to_set() == b.to_set(),
    ensures
        a == b,
    decreases a.len(),
{
    if a.len() == 0 {
        if b.len() > 0 {
            assert(b.to_set().contains(b[0]));
        }
        assert(a =~= b);
    } else {
        assert(a.to_set().contains(a[0]));
        assert(b.len() > 0);
        assert(b.to_set().contains(b[0]));
        let k = choose|k: int| 0 <= k < b.len() && b[k] == a[0];
        let m = choose|m: int| 0 <= m < a.len() && a[m] == b[0];
        if k > 0 && m > 0 {
            assert(lex_lt(b[0], b[k]));
            assert(lex_lt(a[0], a[m]));
            lemma_lex_asymmetric(a[0], b[0]);
        } else if k > 0 {
            assert(lex_lt(b[0], b[k]));
            lemma_lex_irreflexive(a[0]);
        } else if m > 0 {
            assert(lex_lt(a[0], a[m]));
            lemma_lex_irreflexive(b[0]);
        }
        assert(a[0] == b[0]);
        let a1 = a.drop_first();
        let b1 = b.drop_first();
        assert(a1.to_set() =~= b1.to_set()) by {
            assert forall|e: Seq<char>| a1.contains(e) implies b1.contains(e) by {
                let p = choose|p: int| 0 <= p < a1.len() && a1[p] == e;
                assert(a.contains(e));
                assert(b.to_set().contains(e));
                let q = choose|q: int| 0 <= q < b.len() && b[q] == e;
                assert(lex_lt(a[0], a[p + 1]));
                if q == 0 {
                    lemma_lex_irreflexive(e);
                }
                assert(b1[q - 1] == e);
            }
            assert forall|e: Seq<char>| b1.contains(e) implies a1.contains(e) by {
                let p = choose|p: int| 0 <= p < b1.len() && b1[p] == e;
                assert(b.contains(e));
                assert(a.to_set().contains(e));
                let q = choose|q: int| 0 <= q < a.len() && a[q] == e;
                assert(lex_lt(b[0], b[p + 1]));
                if q == 0 {
                    lemma_lex_irreflexive(e);
                }
                assert(a1[q - 1] == e);
            }
        }
        lemma_strictly_sorted_unique(a1, b1);
        assert(a =~= seq![a[0]] + a1);
        assert(b =~= seq![b[0]] + b1);
    }
}

/// Adds `x` to a sorted vector of strings, after any equal ones.
pub fn insert_sorted(v: &mut Vec<Vec<char>>, x: Vec<char>)
    requires
        sorted(views(old(v)@)),
    ensures
        sorted(views(final(v)@)),
        views(final(v)@).to_multiset() == views(old(v)@).to_multiset().insert(x@),
{
    let ghost s = views(v@);
    let mut i: usize = 0;
    while i < v.len() && !lex_less(&x, &v[i])
        invariant
            i <= v@.len(),
            s == views(v@),
            sorted(s),
            forall|j: int| 0 <= j < i ==> !lex_lt(x@, #[trigger] s[j]),
        decreases v@.len() - i,
    {
        i += 1;
    }
    proof {
        lemma_views_insert(v@, i as int, x);
        vstd::seq_lib::to_multiset_insert(s, i as int, x@);
    }
    v.insert(i, x);
    let ghost t = views(v@);
    assert(t == s.insert(i as int, x@));
    proof {
        s.insert_ensures(i as int, x@);
    }
    assert forall|a: int, b: int| 0 <= a < b < t.len() implies !lex_lt(#[trigger] t[b], #[trigger] t[a]) by {
        if b <= i {
        } else if a < i {
            assert(t[a] == s[a]);
            assert(t[b] == s[b - 1]);
        } else if a == i {
            assert(t[b] == s[b - 1]);
            assert(lex_lt(x@, s[i as int]));
            if lex_lt(s[b - 1], x@) {
                lemma_lex_transitive(s[b - 1], x@, s[i as int]);
                if b - 1 == i {
                    lemma_lex_irreflexive(s[i as int]);
                }
            }
        } else {
            assert(t[a] == s[a - 1]);
            assert(t[b] == s[b - 1]);
        }
    }
}

/// The strings of `v`, sorted.
pub fn sort_strings(v: &Vec<Vec<char>>) -> (r: Vec<Vec<char>>)
    ensures
        sorted(views(r@)),
        views(r@).to_multiset() == views(v@).to_multiset(),
{
    let mut r: Vec<Vec<char>> = Vec::new();
    let mut i: usize = 0;
    assert(views(r@) =~= views(v@.take(0)));
    while i < v.len()
        invariant
            i <= v@.len(),
            sorted(views(r@)),
            views(r@).to_multiset() == views(v@.take(i as int)).to_multiset(),
        decreases v@.len() - i,
    {
        insert_sorted(&mut r, v[i].clone());
        assert(views(v@.take(i + 1)) =~= views(v@.take(i as int)).push(v@[i as int]@));
        proof {
            vstd::seq_lib::to_multiset_build(views(v@.take(i as int)), v@[i as int]@);
        }
        i += 1;
    }
    assert(v@.take(v@.len() as int) =~= v@);
    r
}

} // verus!

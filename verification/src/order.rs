use vstd::prelude::*;

use crate::text::{chars_of, views};

verus! {

/// Strings in dictionary order, character by character (which is also the
/// order of their UTF-8 bytes).
pub open spec fn char_seq_le(a: Seq<char>, b: Seq<char>) -> bool
    decreases a.len(),
{
    if a.len() == 0 {
        true
    } else if b.len() == 0 {
        false
    } else if a[0] != b[0] {
        (a[0] as int) < (b[0] as int)
    } else {
        char_seq_le(a.drop_first(), b.drop_first())
    }
}

pub open spec fn sorted(s: Seq<Seq<char>>) -> bool {
    forall|i: int, j: int| 0 <= i < j < s.len() ==> char_seq_le(#[trigger] s[i], #[trigger] s[j])
}

pub proof fn lemma_le_reflexive(a: Seq<char>)
    ensures
        char_seq_le(a, a),
    decreases a.len(),
{
    if a.len() > 0 {
        lemma_le_reflexive(a.drop_first());
    }
}

pub proof fn lemma_le_total(a: Seq<char>, b: Seq<char>)
    ensures
        char_seq_le(a, b) || char_seq_le(b, a),
    decreases a.len(),
{
    if a.len() > 0 && b.len() > 0 && a[0] == b[0] {
        lemma_le_total(a.drop_first(), b.drop_first());
    }
}

pub proof fn lemma_le_antisymmetric(a: Seq<char>, b: Seq<char>)
    requires
        char_seq_le(a, b),
        char_seq_le(b, a),
    ensures
        a == b,
    decreases a.len(),
{
    if a.len() > 0 {
        lemma_le_antisymmetric(a.drop_first(), b.drop_first());
        assert(a =~= seq![a[0]] + a.drop_first());
        assert(b =~= seq![b[0]] + b.drop_first());
    } else {
        assert(b.len() == 0);
        assert(a =~= b);
    }
}

pub proof fn lemma_le_transitive(a: Seq<char>, b: Seq<char>, c: Seq<char>)
    requires
        char_seq_le(a, b),
        char_seq_le(b, c),
    ensures
        char_seq_le(a, c),
    decreases a.len(),
{
    if a.len() > 0 && b.len() > 0 && c.len() > 0 && a[0] == b[0] && b[0] == c[0] {
        lemma_le_transitive(a.drop_first(), b.drop_first(), c.drop_first());
    }
}

/// A non-empty sequence has an item that comes no later than any other.
pub proof fn lemma_min_exists(s: Seq<Seq<char>>)
    requires
        s.len() > 0,
    ensures
        exists|x: Seq<char>| s.contains(x) && forall|y: Seq<char>| #[trigger] s.contains(y) ==> char_seq_le(x, y),
    decreases s.len(),
{
    if s.len() == 1 {
        assert(s.contains(s[0]));
        assert forall|y: Seq<char>| #[trigger] s.contains(y) implies char_seq_le(s[0], y) by {
            lemma_le_reflexive(y);
        }
    } else {
        let t = s.drop_last();
        lemma_min_exists(t);
        let x = choose|x: Seq<char>| t.contains(x) && forall|y: Seq<char>| #[trigger] t.contains(y) ==> char_seq_le(x, y);
        let l = s.last();
        lemma_le_total(x, l);
        assert(s =~= t.push(l));
        if char_seq_le(x, l) {
            assert(s.contains(x)) by {
                let i = t.index_of(x);
                assert(s[i] == x);
            }
            assert forall|y: Seq<char>| #[trigger] s.contains(y) implies char_seq_le(x, y) by {
                let i = s.index_of(y);
                if i < t.len() {
                    assert(t[i] == y);
                    assert(t.contains(y));
                }
            }
        } else {
            assert(s[s.len() - 1] == l);
            assert(s.contains(l));
            assert forall|y: Seq<char>| #[trigger] s.contains(y) implies char_seq_le(l, y) by {
                let i = s.index_of(y);
                if i < t.len() {
                    assert(t[i] == y);
                    assert(t.contains(y));
                    assert(char_seq_le(x, y));
                    lemma_le_transitive(l, x, y);
                } else {
                    lemma_le_reflexive(l);
                }
            }
        }
    }
}

/// Two sorted sequences holding the same strings are the same sequence.
pub proof fn lemma_sorted_unique(a: Seq<Seq<char>>, b: Seq<Seq<char>>)
    requires
        sorted(a),
        sorted(b),
        a.to_multiset() == b.to_multiset(),
    ensures
        a == b,
    decreases a.len(),
{
    broadcast use vstd::seq_lib::group_to_multiset_ensures;

    assert(a.len() == a.to_multiset().len());
    assert(b.len() == b.to_multiset().len());
    if a.len() > 0 {
        assert(a.to_multiset().count(a[0]) > 0);
        assert(b.contains(a[0]));
        let j = b.index_of(a[0]);
        assert(b.to_multiset().count(b[0]) > 0);
        assert(a.contains(b[0]));
        let k = a.index_of(b[0]);
        if j > 0 {
            assert(char_seq_le(b[0], b[j]));
        } else {
            lemma_le_reflexive(b[0]);
        }
        if k > 0 {
            assert(char_seq_le(a[0], a[k]));
        } else {
            lemma_le_reflexive(a[0]);
        }
        lemma_le_antisymmetric(a[0], b[0]);
        vstd::seq_lib::to_multiset_remove(a, 0);
        vstd::seq_lib::to_multiset_remove(b, 0);
        assert(a.remove(0) =~= a.drop_first());
        assert(b.remove(0) =~= b.drop_first());
        assert(sorted(a.drop_first())) by {
            assert forall|x: int, y: int| 0 <= x < y < a.drop_first().len() implies char_seq_le(
                #[trigger] a.drop_first()[x],
                #[trigger] a.drop_first()[y],
            ) by {
                assert(char_seq_le(a[x + 1], a[y + 1]));
            }
        }
        assert(sorted(b.drop_first())) by {
            assert forall|x: int, y: int| 0 <= x < y < b.drop_first().len() implies char_seq_le(
                #[trigger] b.drop_first()[x],
                #[trigger] b.drop_first()[y],
            ) by {
                assert(char_seq_le(b[x + 1], b[y + 1]));
            }
        }
        lemma_sorted_unique(a.drop_first(), b.drop_first());
        assert(a =~= b) by {
            assert forall|i: int| 0 <= i < a.len() implies a[i] == b[i] by {
                if i > 0 {
                    assert(a[i] == a.drop_first()[i - 1]);
                    assert(b[i] == b.drop_first()[i - 1]);
                }
            }
        }
    } else {
        assert(a =~= b);
    }
}

/// Every sequence of strings has a sorted rearrangement.
pub proof fn lemma_sorted_exists(s: Seq<Seq<char>>)
    ensures
        exists|t: Seq<Seq<char>>| sorted(t) && t.to_multiset() == s.to_multiset(),
    decreases s.len(),
{
    broadcast use vstd::seq_lib::group_to_multiset_ensures;

    if s.len() == 0 {
        assert(sorted(s));
    } else {
        lemma_min_exists(s);
        let x = choose|x: Seq<char>| s.contains(x) && forall|y: Seq<char>| #[trigger] s.contains(y) ==> char_seq_le(x, y);
        let i = s.index_of(x);
        let r = s.remove(i);
        lemma_sorted_exists(r);
        let u = choose|u: Seq<Seq<char>>| sorted(u) && u.to_multiset() == r.to_multiset();
        let t = seq![x] + u;
        vstd::seq_lib::to_multiset_remove(s, i);
        assert(t =~= u.insert(0, x));
        vstd::seq_lib::to_multiset_insert(u, 0, x);
        assert(t.to_multiset() =~= s.to_multiset());
        assert forall|a: int, b: int| 0 <= a < b < t.len() implies char_seq_le(#[trigger] t[a], #[trigger] t[b]) by {
            assert(t[b] == u[b - 1]);
            if a == 0 {
                assert(u.to_multiset().count(u[b - 1]) > 0);
                assert(s.to_multiset().count(u[b - 1]) > 0);
                assert(s.contains(u[b - 1]));
            } else {
                assert(t[a] == u[a - 1]);
            }
        }
    }
}

/// Whether `a` comes no later than `b` in dictionary order.
pub fn str_le(a: &str, b: &str) -> (r: bool)
    ensures
        r == char_seq_le(a@, b@),
{
    let x = chars_of(a);
    let y = chars_of(b);
    let mut i: usize = 0;
    proof {
        assert(a@.skip(0) =~= a@);
        assert(b@.skip(0) =~= b@);
    }
    while i < x.len() && i < y.len() && x[i] == y[i]
        invariant
            x@ == a@,
            y@ == b@,
            i <= x@.len(),
            i <= y@.len(),
            char_seq_le(a@, b@) == char_seq_le(a@.skip(i as int), b@.skip(i as int)),
        decreases x@.len() - i,
    {
        proof {
            assert(a@.skip(i as int).drop_first() =~= a@.skip(i + 1));
            assert(b@.skip(i as int).drop_first() =~= b@.skip(i + 1));
        }
        i += 1;
    }
    if i == x.len() {
        true
    } else if i == y.len() {
        false
    } else {
        x[i] < y[i]
    }
}

/// The strings of `v`, sorted in dictionary order.
pub fn sort_strings(v: Vec<String>) -> (r: Vec<String>)
    ensures
        sorted(views(r@)),
        views(r@).to_multiset() == views(v@).to_multiset(),
{
    broadcast use vstd::seq_lib::group_to_multiset_ensures;

    let mut r: Vec<String> = Vec::new();
    let n = v.len();
    proof {
        assert(views(r@) =~= views(v@).take(0));
    }
    for i in 0..n
        invariant
            n == v@.len(),
            sorted(views(r@)),
            views(r@).to_multiset() == views(v@).take(i as int).to_multiset(),
    {
        let s = v[i].clone();
        let mut p: usize = 0;
        while p < r.len() && str_le(r[p].as_str(), s.as_str())
            invariant
                p <= r@.len(),
                forall|k: int| 0 <= k < p ==> char_seq_le(#[trigger] views(r@)[k], s@),
            decreases r@.len() - p,
        {
            p += 1;
        }
        let ghost old_r = views(r@);
        r.insert(p, s);
        proof {
            let nr = views(r@);
            assert(nr =~= old_r.insert(p as int, s@));
            assert(views(v@).take(i + 1) =~= views(v@).take(i as int).push(s@));
            vstd::seq_lib::to_multiset_insert(old_r, p as int, s@);
            vstd::seq_lib::to_multiset_build(views(v@).take(i as int), s@);
            assert forall|a: int, b: int| 0 <= a < b < nr.len() implies char_seq_le(#[trigger] nr[a], #[trigger] nr[b]) by {
                if p < old_r.len() {
                    lemma_le_total(old_r[p as int], s@);
                }
                if a < p && b == p {
                } else if a < p && b > p {
                    assert(nr[b] == old_r[b - 1]);
                    assert(char_seq_le(old_r[a], old_r[b - 1]));
                } else if a == p && b > p {
                    assert(nr[b] == old_r[b - 1]);
                    if b - 1 > p {
                        assert(char_seq_le(old_r[p as int], old_r[b - 1]));
                        lemma_le_transitive(s@, old_r[p as int], old_r[b - 1]);
                    }
                } else if a > p {
                    assert(nr[a] == old_r[a - 1] && nr[b] == old_r[b - 1]);
                } else {
                    assert(nr[a] == old_r[a] && nr[b] == old_r[b]);
                }
            }
        }
    }
    proof {
        assert(views(v@).take(n as int) =~= views(v@));
    }
    r
}

} // verus!

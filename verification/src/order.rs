//! Stable ordering of records by a strict "comes before" relation.
use crate::search::{first_index, lemma_first_index_at, lemma_first_index_facts, lemma_first_index_none};
use crate::text::{ascii_fold, fold_char};
use vstd::prelude::*;

verus! {

/// Records that can be put in order.
pub trait Ranked: Sized {
    /// `self` comes strictly before `other`.
    spec fn before(&self, other: &Self) -> bool;

    /// Decides `before`.
    fn comes_before(&self, other: &Self) -> (r: bool)
        ensures
            r == self.before(other),
    ;

    /// Nothing comes before itself.
    proof fn before_irreflexive(a: &Self)
        ensures
            !a.before(a),
    ;

    /// `before` is transitive.
    proof fn before_transitive(a: &Self, b: &Self, c: &Self)
        requires
            a.before(b),
            b.before(c),
        ensures
            a.before(c),
    ;
}

/// The elements that `x` comes before.
pub open spec fn goes_before<T: Ranked>(x: T) -> spec_fn(T) -> bool {
    |e: T| x.before(&e)
}

/// Where `x` goes into `s`: in front of the first element that it comes
/// before, at the end when there is none.
pub open spec fn insert_at<T: Ranked>(s: Seq<T>, x: T) -> int {
    match first_index(s, goes_before(x)) {
        Some(i) => i,
        None => s.len() as int,
    }
}

/// `s` sorted by insertion: each element goes behind every earlier one
/// that it does not come before, so elements that neither comes before
/// keep their order.
pub open spec fn sorted_by_rank<T: Ranked>(s: Seq<T>) -> Seq<T>
    decreases s.len(),
{
    if s.len() == 0 {
        s
    } else {
        let rest = sorted_by_rank(s.drop_last());
        rest.insert(insert_at(rest, s.last()), s.last())
    }
}

/// `insert_at` is a position inside `s` or its end.
pub proof fn lemma_insert_at_bounds<T: Ranked>(s: Seq<T>, x: T)
    ensures
        0 <= insert_at(s, x) <= s.len(),
{
    lemma_first_index_facts(s, goes_before(x));
}

/// Sorting keeps the number of elements and the elements themselves.
pub proof fn lemma_sorted_by_rank_items<T: Ranked>(s: Seq<T>)
    ensures
        sorted_by_rank(s).len() == s.len(),
        sorted_by_rank(s).to_multiset() == s.to_multiset(),
    decreases s.len(),
{
    broadcast use vstd::multiset::group_multiset_axioms;
    broadcast use vstd::seq_lib::group_to_multiset_ensures;

    if s.len() > 0 {
        let rest = sorted_by_rank(s.drop_last());
        lemma_sorted_by_rank_items(s.drop_last());
        lemma_insert_at_bounds(rest, s.last());
        let i = insert_at(rest, s.last());
        vstd::seq_lib::to_multiset_insert(rest, i, s.last());
        assert(s =~= s.drop_last().push(s.last()));
    }
}

/// No element of `s` comes before an element in front of it.
pub open spec fn in_rank_order<T: Ranked>(s: Seq<T>) -> bool {
    forall|i: int, j: int| #![trigger s[i], s[j]] 0 <= i < j < s.len() ==> !s[j].before(&s[i])
}

/// Sorting puts the elements in order.
pub proof fn lemma_sorted_by_rank_ordered<T: Ranked>(s: Seq<T>)
    ensures
        in_rank_order(sorted_by_rank(s)),
    decreases s.len(),
{
    if s.len() > 0 {
        let rest = sorted_by_rank(s.drop_last());
        lemma_sorted_by_rank_ordered(s.drop_last());
        let x = s.last();
        let p = insert_at(rest, x);
        lemma_insert_at_bounds(rest, x);
        lemma_first_index_facts(rest, goes_before(x));
        let out = rest.insert(p, x);
        assert forall|i: int, j: int| #![trigger out[i], out[j]] 0 <= i < j < out.len() implies !out[j].before(&out[i]) by {
            if j < p {
                assert(out[i] == rest[i] && out[j] == rest[j]);
            } else if j == p {
                assert(out[i] == rest[i]);
                assert(!goes_before(x)(rest[i]));
            } else if i > p {
                assert(out[i] == rest[i - 1] && out[j] == rest[j - 1]);
            } else if i == p {
                assert(out[j] == rest[j - 1]);
                assert(goes_before(x)(rest[p]));
                if out[j].before(&x) {
                    T::before_transitive(&out[j], &x, &rest[p]);
                    if j - 1 == p {
                        T::before_irreflexive(&rest[p]);
                    }
                }
            } else {
                assert(out[i] == rest[i] && out[j] == rest[j - 1]);
            }
        }
    }
}

/// Sorting keeps exactly the elements.
pub proof fn lemma_sorted_by_rank_contains<T: Ranked>(s: Seq<T>)
    ensures
        sorted_by_rank(s).len() == s.len(),
        forall|e: T| #[trigger] sorted_by_rank(s).contains(e) <==> s.contains(e),
    decreases s.len(),
{
    if s.len() > 0 {
        let t = s.drop_last();
        let x = s.last();
        let rest = sorted_by_rank(t);
        lemma_sorted_by_rank_contains(t);
        lemma_insert_at_bounds(rest, x);
        let p = insert_at(rest, x);
        let out = rest.insert(p, x);
        rest.insert_ensures(p, x);
        assert forall|e: T| #[trigger] out.contains(e) <==> s.contains(e) by {
            if out.contains(e) {
                let i = choose|i: int| 0 <= i < out.len() && out[i] == e;
                if i < p {
                    assert(rest[i] == e && rest.contains(e));
                    let j = choose|j: int| 0 <= j < t.len() && t[j] == e;
                    assert(s[j] == e);
                } else if i == p {
                    assert(s[s.len() - 1] == e);
                } else {
                    assert(rest[i - 1] == e && rest.contains(e));
                    let j = choose|j: int| 0 <= j < t.len() && t[j] == e;
                    assert(s[j] == e);
                }
            }
            if s.contains(e) {
                let j = choose|j: int| 0 <= j < s.len() && s[j] == e;
                if j == s.len() - 1 {
                    assert(out[p] == e);
                } else {
                    assert(t[j] == s[j]);
                    assert(t[j] == e && t.contains(e));
                    assert(rest.contains(e));
                    let i = choose|i: int| 0 <= i < rest.len() && rest[i] == e;
                    if i < p {
                        assert(out[i] == e);
                    } else {
                        assert(out[i + 1] == e);
                    }
                }
            }
        }
    }
}

/// Sorting keeps keys distinct.
pub proof fn lemma_sorted_by_rank_distinct<T: Ranked, K>(s: Seq<T>, key: spec_fn(T) -> K)
    requires
        forall|i: int, j: int|
            #![trigger s[i], s[j]]
            0 <= i < s.len() && 0 <= j < s.len() && i != j ==> key(s[i]) != key(s[j]),
    ensures
        forall|i: int, j: int|
            #![trigger sorted_by_rank(s)[i], sorted_by_rank(s)[j]]
            0 <= i < s.len() && 0 <= j < s.len() && i != j ==> key(sorted_by_rank(s)[i]) != key(
                sorted_by_rank(s)[j],
            ),
    decreases s.len(),
{
    if s.len() > 0 {
        let t = s.drop_last();
        let x = s.last();
        let rest = sorted_by_rank(t);
        assert forall|i: int, j: int|
            #![trigger t[i], t[j]]
            0 <= i < t.len() && 0 <= j < t.len() && i != j implies key(t[i]) != key(t[j]) by {
            assert(s[i] == t[i] && s[j] == t[j]);
        }
        lemma_sorted_by_rank_distinct(t, key);
        lemma_sorted_by_rank_contains(t);
        lemma_insert_at_bounds(rest, x);
        let p = insert_at(rest, x);
        let out = rest.insert(p, x);
        rest.insert_ensures(p, x);
        assert forall|i: int| 0 <= i < rest.len() implies key(#[trigger] rest[i]) != key(x) by {
            assert(rest.contains(rest[i]));
            assert(t.contains(rest[i]));
            let j = choose|j: int| 0 <= j < t.len() && t[j] == rest[i];
            assert(s[j] == rest[i]);
            assert(s[s.len() - 1] == x);
        }
        assert forall|i: int, j: int|
            #![trigger out[i], out[j]]
            0 <= i < out.len() && 0 <= j < out.len() && i != j implies key(out[i]) != key(out[j]) by {
            if i < p && j < p {
                assert(out[i] == rest[i] && out[j] == rest[j]);
            } else if i < p && j == p {
                assert(out[i] == rest[i]);
            } else if i < p {
                assert(out[i] == rest[i] && out[j] == rest[j - 1]);
            } else if i == p && j < p {
                assert(out[j] == rest[j]);
            } else if i == p {
                assert(out[j] == rest[j - 1]);
            } else if j < p {
                assert(out[i] == rest[i - 1] && out[j] == rest[j]);
            } else if j == p {
                assert(out[i] == rest[i - 1]);
            } else {
                assert(out[i] == rest[i - 1] && out[j] == rest[j - 1]);
            }
        }
    }
}

/// Sorts by insertion, as `sorted_by_rank` says.
pub fn sort_by_rank<T: Ranked>(items: Vec<T>) -> (r: Vec<T>)
    ensures
        r@ == sorted_by_rank(items@),
{
    let ghost all = items@;
    let mut items = items;
    let mut out: Vec<T> = Vec::new();
    let n = items.len();
    let mut k: usize = 0;
    while k < n
        invariant
            n == all.len(),
            k <= n,
            items@ == all.skip(k as int),
            out@ == sorted_by_rank(all.take(k as int)),
        decreases n - k,
    {
        let x = items.remove(0);
        let ghost before = out@;
        let ghost p = goes_before(x);
        let mut j: usize = 0;
        while j < out.len() && !x.comes_before(&out[j])
            invariant
                before == out@,
                p == goes_before(x),
                j <= out@.len(),
                forall|i: int| 0 <= i < j ==> !p(#[trigger] before[i]),
            decreases out@.len() - j,
        {
            proof {
                assert(!p(before[j as int]));
            }
            j += 1;
        }
        proof {
            if j < out@.len() {
                assert(p(before[j as int]));
                lemma_first_index_at(before, p, j as int);
            } else {
                lemma_first_index_none(before, p);
            }
            assert(x == all[k as int]);
            assert(all.take(k + 1).drop_last() =~= all.take(k as int));
            assert(all.take(k + 1).last() == all[k as int]);
            assert(all.skip(k + 1) =~= all.skip(k as int).drop_first());
        }
        out.insert(j, x);
        k += 1;
    }
    proof {
        assert(all.take(n as int) =~= all);
    }
    out
}

/// The code points of a text.
pub open spec fn codes(s: Seq<char>) -> Seq<u32> {
    s.map_values(|c: char| c as u32)
}

/// The code points of a text with ASCII letters in lower case.
pub open spec fn folded_codes(s: Seq<char>) -> Seq<u32> {
    s.map_values(|c: char| ascii_fold(c))
}

/// `a` comes before `b` in lexicographic order; a proper prefix comes first.
pub open spec fn lex_less(a: Seq<u32>, b: Seq<u32>) -> bool
    decreases a.len(),
{
    if a.len() == 0 {
        b.len() > 0
    } else if b.len() == 0 {
        false
    } else if a[0] != b[0] {
        a[0] < b[0]
    } else {
        lex_less(a.drop_first(), b.drop_first())
    }
}

/// Lexicographic order is irreflexive.
pub proof fn lemma_lex_irreflexive(a: Seq<u32>)
    ensures
        !lex_less(a, a),
    decreases a.len(),
{
    if a.len() > 0 {
        lemma_lex_irreflexive(a.drop_first());
    }
}

/// Lexicographic order is transitive.
pub proof fn lemma_lex_transitive(a: Seq<u32>, b: Seq<u32>, c: Seq<u32>)
    requires
        lex_less(a, b),
        lex_less(b, c),
    ensures
        lex_less(a, c),
    decreases a.len(),
{
    if a.len() > 0 && b.len() > 0 && c.len() > 0 && a[0] == b[0] && b[0] == c[0] {
        lemma_lex_transitive(a.drop_first(), b.drop_first(), c.drop_first());
    }
}

/// Two different sequences are ordered one way or the other.
pub proof fn lemma_lex_total(a: Seq<u32>, b: Seq<u32>)
    requires
        a != b,
    ensures
        lex_less(a, b) || lex_less(b, a),
    decreases a.len(),
{
    if a.len() > 0 && b.len() > 0 && a[0] == b[0] {
        if a.drop_first() == b.drop_first() {
            assert(a =~= seq![a[0]] + a.drop_first());
            assert(b =~= seq![b[0]] + b.drop_first());
        }
        lemma_lex_total(a.drop_first(), b.drop_first());
    } else if a.len() == 0 && b.len() == 0 {
        assert(a =~= b);
    }
}

proof fn lemma_lex_skip(a: Seq<u32>, b: Seq<u32>, i: int)
    requires
        0 <= i <= a.len(),
        i <= b.len(),
        forall|k: int| 0 <= k < i ==> a[k] == b[k],
    ensures
        lex_less(a, b) == lex_less(a.skip(i), b.skip(i)),
    decreases i,
{
    if i > 0 {
        lemma_lex_skip(a.drop_first(), b.drop_first(), i - 1);
        assert(a.drop_first().skip(i - 1) =~= a.skip(i));
        assert(b.drop_first().skip(i - 1) =~= b.skip(i));
    } else {
        assert(a.skip(0) =~= a);
        assert(b.skip(0) =~= b);
    }
}

/// Compares two texts in lexicographic order of their code points, with
/// ASCII letters folded to lower case when `fold` is set.
pub fn text_less(a: &[char], b: &[char], fold: bool) -> (r: bool)
    ensures
        r == if fold {
            lex_less(folded_codes(a@), folded_codes(b@))
        } else {
            lex_less(codes(a@), codes(b@))
        },
{
    let ghost ka = if fold {
        folded_codes(a@)
    } else {
        codes(a@)
    };
    let ghost kb = if fold {
        folded_codes(b@)
    } else {
        codes(b@)
    };
    let mut i: usize = 0;
    while i < a.len() && i < b.len()
        invariant
            ka == (if fold {
                folded_codes(a@)
            } else {
                codes(a@)
            }),
            kb == (if fold {
                folded_codes(b@)
            } else {
                codes(b@)
            }),
            ka.len() == a@.len(),
            kb.len() == b@.len(),
            i <= a@.len(),
            i <= b@.len(),
            forall|k: int| 0 <= k < i ==> ka[k] == kb[k],
        decreases a@.len() - i,
    {
        let x: u32 = if fold {
            fold_char(a[i])
        } else {
            a[i] as u32
        };
        let y: u32 = if fold {
            fold_char(b[i])
        } else {
            b[i] as u32
        };
        assert(x == ka[i as int] && y == kb[i as int]);
        if x != y {
            proof {
                lemma_lex_skip(ka, kb, i as int);
                assert(ka.skip(i as int)[0] == x);
                assert(kb.skip(i as int)[0] == y);
            }
            return x < y;
        }
        i += 1;
    }
    proof {
        lemma_lex_skip(ka, kb, i as int);
    }
    a.len() - i == 0 && b.len() > i
}

} // verus!

//! Counting the elements of a sequence that satisfy a predicate, and the
//! small facts about such counts that loop proofs lean on.

use vstd::prelude::*;

verus! {

/// How many elements of `s` satisfy `p`.
pub open spec fn count_where<T>(s: Seq<T>, p: spec_fn(T) -> bool) -> nat
    decreases s.len(),
{
    if s.len() == 0 {
        0
    } else {
        count_where(s.drop_last(), p) + if p(s.last()) {
            1nat
        } else {
            0nat
        }
    }
}

/// Extending a prefix by one element grows the count by 0 or 1.
pub proof fn lemma_count_take_step<T>(s: Seq<T>, p: spec_fn(T) -> bool, i: int)
    requires
        0 <= i < s.len(),
    ensures
        count_where(s.take(i + 1), p) == count_where(s.take(i), p) + if p(s[i]) {
            1nat
        } else {
            0nat
        },
{
    assert(s.take(i + 1).drop_last() =~= s.take(i));
    assert(s.take(i + 1).last() == s[i]);
}

/// A count of zero means no element satisfies the predicate, and conversely.
pub proof fn lemma_count_zero<T>(s: Seq<T>, p: spec_fn(T) -> bool)
    ensures
        count_where(s, p) == 0 <==> forall|i: int| 0 <= i < s.len() ==> !p(s[i]),
    decreases s.len(),
{
    if s.len() > 0 {
        lemma_count_zero(s.drop_last(), p);
        if count_where(s, p) == 0 {
            assert(forall|i: int| 0 <= i < s.len() - 1 ==> s.drop_last()[i] == s[i]);
        } else {
            if !p(s.last()) {
                let j = choose|j: int| 0 <= j < s.len() - 1 && p(s.drop_last()[j]);
                assert(p(s[j]));
            }
        }
    }
}

/// Two sequences that agree pointwise under the predicates have equal counts.
pub proof fn lemma_count_congruent<T, U>(
    s: Seq<T>,
    t: Seq<U>,
    p: spec_fn(T) -> bool,
    q: spec_fn(U) -> bool,
)
    requires
        s.len() == t.len(),
        forall|i: int| 0 <= i < s.len() ==> p(s[i]) == q(t[i]),
    ensures
        count_where(s, p) == count_where(t, q),
    decreases s.len(),
{
    if s.len() > 0 {
        assert(forall|i: int| 0 <= i < s.len() - 1 ==> s.drop_last()[i] == s[i]);
        assert(forall|i: int| 0 <= i < t.len() - 1 ==> t.drop_last()[i] == t[i]);
        lemma_count_congruent(s.drop_last(), t.drop_last(), p, q);
    }
}

/// When the elements satisfying `p` are exactly the first `i`, the count
/// is `i`.
pub proof fn lemma_count_split<T>(s: Seq<T>, p: spec_fn(T) -> bool, i: int)
    requires
        0 <= i <= s.len(),
        forall|j: int| 0 <= j < i ==> p(s[j]),
        forall|j: int| i <= j < s.len() ==> !p(s[j]),
    ensures
        count_where(s, p) == i,
    decreases s.len(),
{
    if s.len() > 0 {
        assert(forall|j: int| 0 <= j < s.len() - 1 ==> s.drop_last()[j] == s[j]);
        if i == s.len() {
            lemma_count_split(s.drop_last(), p, i - 1);
        } else {
            lemma_count_split(s.drop_last(), p, i);
        }
    }
}

/// Counts add over concatenation.
pub proof fn lemma_count_concat<T>(a: Seq<T>, b: Seq<T>, p: spec_fn(T) -> bool)
    ensures
        count_where(a + b, p) == count_where(a, p) + count_where(b, p),
    decreases b.len(),
{
    if b.len() == 0 {
        assert(a + b =~= a);
    } else {
        assert((a + b).drop_last() =~= a + b.drop_last());
        assert((a + b).last() == b.last());
        lemma_count_concat(a, b.drop_last(), p);
    }
}

/// Two sequences that agree pointwise under the predicates except at one
/// position, where only the first matches, differ by one in count.
pub proof fn lemma_count_congruent_except<T, U>(
    s: Seq<T>,
    t: Seq<U>,
    p: spec_fn(T) -> bool,
    q: spec_fn(U) -> bool,
    idx: int,
)
    requires
        s.len() == t.len(),
        0 <= idx < s.len(),
        forall|i: int| 0 <= i < s.len() && i != idx ==> p(s[i]) == q(t[i]),
        p(s[idx]),
        !q(t[idx]),
    ensures
        count_where(s, p) == count_where(t, q) + 1,
    decreases s.len(),
{
    assert(forall|i: int| 0 <= i < s.len() - 1 ==> s.drop_last()[i] == s[i]);
    assert(forall|i: int| 0 <= i < t.len() - 1 ==> t.drop_last()[i] == t[i]);
    if idx == s.len() - 1 {
        lemma_count_congruent(s.drop_last(), t.drop_last(), p, q);
    } else {
        lemma_count_congruent_except(s.drop_last(), t.drop_last(), p, q, idx);
    }
}

} // verus!

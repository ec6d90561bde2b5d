//! Counting occurrences in a sequence, with the induction lemmas the
//! world-diff proofs are built on.
use vstd::prelude::*;

verus! {

/// How many elements of `s` equal `x`.
pub open spec fn seq_count<A>(s: Seq<A>, x: A) -> nat
    decreases s.len(),
{
    if s.len() == 0 {
        0
    } else {
        (if s[0] == x {
            1nat
        } else {
            0nat
        }) + seq_count(s.drop_first(), x)
    }
}

/// An element occurs a positive number of times exactly when it occurs at
/// some position.
pub proof fn lemma_seq_count_pos_iff_exists<A>(s: Seq<A>, x: A)
    ensures
        (seq_count(s, x) > 0) <==> (exists|i: int| 0 <= i < s.len() && s[i] == x),
    decreases s.len(),
{
    if s.len() == 0 {
    } else {
        lemma_seq_count_pos_iff_exists(s.drop_first(), x);
        if s[0] == x {
            assert(s[0] == x && 0 < s.len());
        } else {
            if seq_count(s, x) > 0 {
                let j = choose|j: int| 0 <= j < s.drop_first().len() && s.drop_first()[j] == x;
                assert(s[j + 1] == x);
            }
            if exists|i: int| 0 <= i < s.len() && s[i] == x {
                let i = choose|i: int| 0 <= i < s.len() && s[i] == x;
                assert(s.drop_first()[i - 1] == x);
            }
        }
    }
}

/// A sequence in which every value occurs zero times is empty.
pub proof fn lemma_seq_count_all_zero_empty<A>(s: Seq<A>)
    requires
        forall|x: A| seq_count(s, x) == 0,
    ensures
        s.len() == 0,
{
    if s.len() > 0 {
        lemma_seq_count_pos_iff_exists(s, s[0]);
        assert(seq_count(s, s[0]) > 0);
    }
}

/// A sequence in which one value occurs once and every other value occurs
/// zero times is a singleton holding that value.
pub proof fn lemma_seq_count_single<A>(s: Seq<A>, k: A)
    requires
        seq_count(s, k) == 1,
        forall|x: A| x != k ==> seq_count(s, x) == 0,
    ensures
        s.len() == 1,
        s[0] == k,
    decreases s.len(),
{
    lemma_seq_count_pos_iff_exists(s, k);
    assert(s.len() > 0);
    if s[0] != k {
        lemma_seq_count_pos_iff_exists(s, s[0]);
        assert(seq_count(s, s[0]) > 0);
        assert(false);
    }
    assert(seq_count(s.drop_first(), k) == 0);
    assert forall|x: A| seq_count(s.drop_first(), x) == 0 by {
        if x == k {
        } else {
            assert(seq_count(s, x) == 0);
        }
    }
    lemma_seq_count_all_zero_empty(s.drop_first());
}

/// Mapping distributes over appending one element.
pub proof fn lemma_map_values_push<A, B>(s: Seq<A>, x: A, f: spec_fn(A) -> B)
    ensures
        s.push(x).map_values(f) =~= s.map_values(f).push(f(x)),
{
    assert forall|j: int| 0 <= j < s.push(x).map_values(f).len() implies s.push(x).map_values(f)[j]
        == s.map_values(f).push(f(x))[j] by {
        if j < s.len() {
            assert(s.push(x)[j] == s[j]);
        } else {
            assert(s.push(x)[j] == x);
        }
    }
}

/// Dropping the first element relates `skip(i)` to `skip(i + 1)`.
pub proof fn lemma_skip_drop_first<A>(s: Seq<A>, i: int)
    requires
        0 <= i < s.len(),
    ensures
        s.skip(i).drop_first() =~= s.skip(i + 1),
        s.skip(i)[0] == s[i],
        s.skip(i).len() == s.len() - i,
{
}

} // verus!

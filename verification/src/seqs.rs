use vstd::prelude::*;

verus! {

/// Taking one more element of a sequence appends that element.
pub proof fn lemma_take_succ<A>(s: Seq<A>, i: int)
    requires
        0 <= i < s.len(),
    ensures
        s.take(i + 1) == s.take(i).push(s[i]),
{
    assert(s.take(i + 1) =~= s.take(i).push(s[i]));
}

/// Taking the whole sequence gives the sequence back.
pub proof fn lemma_take_full<A>(s: Seq<A>)
    ensures
        s.take(s.len() as int) == s,
{
    assert(s.take(s.len() as int) =~= s);
}

/// One step of a left-to-right filter.
pub proof fn lemma_filter_take_succ<A>(s: Seq<A>, i: int, p: spec_fn(A) -> bool)
    requires
        0 <= i < s.len(),
    ensures
        s.take(i + 1).filter(p) == if p(s[i]) {
            s.take(i).filter(p).push(s[i])
        } else {
            s.take(i).filter(p)
        },
{
    lemma_take_succ(s, i);
    s.take(i).lemma_filter_push(s[i], p);
}

/// Sum of a sequence of natural numbers.
pub open spec fn sum_nat(s: Seq<nat>) -> nat
    decreases s.len(),
{
    if s.len() == 0 {
        0
    } else {
        sum_nat(s.drop_last()) + s.last()
    }
}

/// One step of a left-to-right sum.
pub proof fn lemma_sum_take_succ(s: Seq<nat>, i: int)
    requires
        0 <= i < s.len(),
    ensures
        sum_nat(s.take(i + 1)) == sum_nat(s.take(i)) + s[i],
{
    lemma_take_succ(s, i);
    assert(s.take(i + 1).drop_last() =~= s.take(i));
}

/// Every partial sum is bounded by the total.
pub proof fn lemma_sum_take_le(s: Seq<nat>, i: int)
    requires
        0 <= i <= s.len(),
    ensures
        sum_nat(s.take(i)) <= sum_nat(s),
    decreases s.len() - i,
{
    if i < s.len() {
        lemma_sum_take_succ(s, i);
        lemma_sum_take_le(s, i + 1);
    } else {
        lemma_take_full(s);
    }
}

} // verus!

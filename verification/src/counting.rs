//! Occurrence counts over sequences of handles, with the lemmas the
//! reference-counting invariant of the file table rests on.

use vstd::prelude::*;

verus! {

/// How many entries of `s` equal `h`.
pub open spec fn count_handles(s: Seq<usize>, h: int) -> int
    decreases s.len(),
{
    if s.len() == 0 {
        0
    } else {
        count_handles(s.drop_last(), h) + if s.last() == h { 1int } else { 0int }
    }
}

pub proof fn lemma_count_nonneg(s: Seq<usize>, h: int)
    ensures
        count_handles(s, h) >= 0,
    decreases s.len(),
{
    if s.len() > 0 {
        lemma_count_nonneg(s.drop_last(), h);
    }
}

pub proof fn lemma_count_push(s: Seq<usize>, v: usize, h: int)
    ensures
        count_handles(s.push(v), h) == count_handles(s, h) + if v == h { 1int } else { 0int },
{
    assert(s.push(v).drop_last() =~= s);
    assert(s.push(v).last() == v);
}

/// Splitting off the head of a sequence splits the count.
pub proof fn lemma_count_head(s: Seq<usize>, h: int)
    requires
        s.len() > 0,
    ensures
        count_handles(s, h) == count_handles(s.subrange(1, s.len() as int), h)
            + if s[0] == h { 1int } else { 0int },
    decreases s.len(),
{
    if s.len() == 1 {
        assert(s.subrange(1, 1) =~= Seq::<usize>::empty());
        assert(count_handles(s.subrange(1, 1), h) == 0);
        assert(count_handles(s, h) == count_handles(s.drop_last(), h)
            + if s.last() == h { 1int } else { 0int });
        assert(s.drop_last() =~= Seq::<usize>::empty());
        assert(s.last() == s[0]);
    } else {
        let t = s.subrange(1, s.len() as int);
        lemma_count_head(s.drop_last(), h);
        assert(s.drop_last().subrange(1, s.len() - 1) =~= t.drop_last());
        assert(count_handles(t, h) == count_handles(t.drop_last(), h)
            + if t.last() == h { 1int } else { 0int });
        assert(t.last() == s.last());
        assert(s.drop_last()[0] == s[0]);
        assert(count_handles(s, h) == count_handles(s.drop_last(), h)
            + if s.last() == h { 1int } else { 0int });
    }
}

/// An element present in the sequence contributes at least one to the count.
pub proof fn lemma_count_member(s: Seq<usize>, i: int)
    requires
        0 <= i < s.len(),
    ensures
        count_handles(s, s[i] as int) >= 1,
    decreases s.len(),
{
    lemma_count_nonneg(s.drop_last(), s[i] as int);
    if i < s.len() - 1 {
        lemma_count_member(s.drop_last(), i);
    }
}

/// A positive count exhibits an occurrence.
pub proof fn lemma_count_pos_member(s: Seq<usize>, h: int)
    requires
        count_handles(s, h) > 0,
    ensures
        exists|i: int| 0 <= i < s.len() && s[i] == h,
    decreases s.len(),
{
    if s.len() > 0 {
        if s.last() == h {
            assert(s[s.len() - 1] == h);
        } else {
            lemma_count_pos_member(s.drop_last(), h);
            let i = choose|i: int| 0 <= i < s.drop_last().len() && s.drop_last()[i] == h;
            assert(s[i] == h);
        }
    }
}

} // verus!

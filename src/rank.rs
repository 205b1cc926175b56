use vstd::prelude::*;

verus! {

/// How many entries of `s` satisfy `p`.
pub open spec fn count_matching(s: Seq<u64>, p: spec_fn(u64) -> bool) -> nat
    decreases s.len(),
{
    if s.len() == 0 {
        0
    } else {
        count_matching(s.drop_last(), p) + if p(s.last()) {
            1nat
        } else {
            0nat
        }
    }
}

/// How many entries of `s` are strictly below `v`.
pub open spec fn count_below(s: Seq<u64>, v: u64) -> nat {
    count_matching(s, |x: u64| x < v)
}

/// How many entries of `s` are at most `v`.
pub open spec fn count_at_most(s: Seq<u64>, v: u64) -> nat {
    count_matching(s, |x: u64| x <= v)
}

/// `v` is the entry at position `k` of `s` once sorted ascending: it occurs
/// in `s`, at most `k` entries are smaller, and more than `k` are not larger.
pub open spec fn is_rank_value(s: Seq<u64>, k: int, v: u64) -> bool {
    &&& s.contains(v)
    &&& count_below(s, v) <= k
    &&& k < count_at_most(s, v)
}

/// The entry at position `k` of `s` sorted ascending.
pub open spec fn rank_value(s: Seq<u64>, k: int) -> u64 {
    choose|v: u64| is_rank_value(s, k, v)
}

/// A predicate implied by another, entry by entry, counts at least as many entries.
pub proof fn lemma_count_monotone(s: Seq<u64>, p: spec_fn(u64) -> bool, q: spec_fn(u64) -> bool)
    requires
        forall|i: int| 0 <= i < s.len() && #[trigger] p(s[i]) ==> q(s[i]),
    ensures
        count_matching(s, p) <= count_matching(s, q),
    decreases s.len(),
{
    if s.len() > 0 {
        assert forall|i: int| 0 <= i < s.drop_last().len() && #[trigger] p(s.drop_last()[i]) implies q(
            s.drop_last()[i],
        ) by {
            assert(s.drop_last()[i] == s[i]);
        }
        lemma_count_monotone(s.drop_last(), p, q);
        assert(p(s[s.len() - 1]) ==> q(s[s.len() - 1]));
    }
}

/// No entry satisfies `p`, so none is counted.
pub proof fn lemma_count_none(s: Seq<u64>, p: spec_fn(u64) -> bool)
    requires
        forall|i: int| 0 <= i < s.len() ==> !#[trigger] p(s[i]),
    ensures
        count_matching(s, p) == 0,
    decreases s.len(),
{
    if s.len() > 0 {
        assert forall|i: int| 0 <= i < s.drop_last().len() implies !#[trigger] p(s.drop_last()[i]) by {
            assert(s.drop_last()[i] == s[i]);
        }
        lemma_count_none(s.drop_last(), p);
        assert(!p(s[s.len() - 1]));
    }
}

/// Every entry satisfies `p`, so all are counted.
pub proof fn lemma_count_all(s: Seq<u64>, p: spec_fn(u64) -> bool)
    requires
        forall|i: int| 0 <= i < s.len() ==> #[trigger] p(s[i]),
    ensures
        count_matching(s, p) == s.len(),
    decreases s.len(),
{
    if s.len() > 0 {
        assert forall|i: int| 0 <= i < s.drop_last().len() implies #[trigger] p(s.drop_last()[i]) by {
            assert(s.drop_last()[i] == s[i]);
        }
        lemma_count_all(s.drop_last(), p);
        assert(p(s[s.len() - 1]));
    }
}

/// Only one value sits at a given sorted position.
pub proof fn lemma_rank_value_unique(s: Seq<u64>, k: int, v1: u64, v2: u64)
    requires
        is_rank_value(s, k, v1),
        is_rank_value(s, k, v2),
    ensures
        v1 == v2,
{
    if v1 < v2 {
        lemma_count_monotone(s, |x: u64| x <= v1, |x: u64| x < v2);
    } else if v2 < v1 {
        lemma_count_monotone(s, |x: u64| x <= v2, |x: u64| x < v1);
    }
}

/// Counts the entries of `s` that are at most `v`.
pub fn count_up_to(s: &Vec<u64>, v: u64) -> (r: usize)
    ensures
        r == count_at_most(s@, v),
{
    let mut c: usize = 0;
    let mut i: usize = 0;
    while i < s.len()
        invariant
            i <= s.len(),
            c <= i,
            c == count_at_most(s@.take(i as int), v),
        decreases s.len() - i,
    {
        assert(s@.take(i + 1).drop_last() =~= s@.take(i as int));
        if s[i] <= v {
            c = c + 1;
        }
        i = i + 1;
    }
    assert(s@.take(s.len() as int) =~= s@);
    c
}

/// The entry at position `k` of `s` once sorted ascending.
pub fn kth_smallest(s: &Vec<u64>, k: usize) -> (r: u64)
    requires
        k < s.len(),
    ensures
        is_rank_value(s@, k as int, r),
        r == rank_value(s@, k as int),
{
    // The largest entry, which every entry is at most.
    let mut top: u64 = s[0];
    let mut i: usize = 1;
    assert(s@.take(1)[0] == top);
    while i < s.len()
        invariant
            0 < s.len(),
            1 <= i <= s.len(),
            s@.take(i as int).contains(top),
            forall|j: int| 0 <= j < i ==> #[trigger] s@[j] <= top,
        decreases s.len() - i,
    {
        assert(s@.take(i as int).contains(top));
        let ghost w = choose|w: int| 0 <= w < i && s@.take(i as int)[w] == top;
        if s[i] > top {
            top = s[i];
            assert(s@.take(i + 1)[i as int] == top);
        } else {
            assert(s@.take(i + 1)[w] == top);
        }
        i = i + 1;
    }
    assert(s@.take(s.len() as int) =~= s@);
    proof {
        lemma_count_all(s@, |x: u64| x <= top);
    }
    // The least entry with more than `k` entries at most it.

    let mut found: Option<u64> = None;
    let mut i: usize = 0;
    while i < s.len()
        invariant
            k < s.len(),
            i <= s.len(),
            match found {
                None => forall|j: int| 0 <= j < i ==> count_at_most(s@, #[trigger] s@[j]) <= k,
                Some(m) => {
                    &&& s@.contains(m)
                    &&& count_at_most(s@, m) > k
                    &&& forall|j: int|
                        0 <= j < i && count_at_most(s@, #[trigger] s@[j]) > k ==> m <= s@[j]
                },
            },
        decreases s.len() - i,
    {
        let v = s[i];
        let c = count_up_to(s, v);
        if c > k {
            match found {
                None => {
                    found = Some(v);
                },
                Some(m) => {
                    if v < m {
                        found = Some(v);
                    }
                },
            }
        }
        i = i + 1;
    }
    let r = match found {
        Some(m) => m,
        None => {
            assert(s@.contains(top));
            let ghost w = choose|w: int| 0 <= w < s.len() && s@[w] == top;
            assert(count_at_most(s@, s@[w]) <= k);
            0
        },
    };
    // The largest entry below `r`, if any.
    let mut below: Option<u64> = None;
    let mut i: usize = 0;
    while i < s.len()
        invariant
            i <= s.len(),
            match below {
                None => forall|j: int| 0 <= j < i ==> #[trigger] s@[j] >= r,
                Some(y) => {
                    &&& s@.contains(y)
                    &&& y < r
                    &&& forall|j: int| 0 <= j < i && #[trigger] s@[j] < r ==> s@[j] <= y
                },
            },
        decreases s.len() - i,
    {
        let v = s[i];
        if v < r {
            match below {
                None => {
                    below = Some(v);
                },
                Some(y) => {
                    if v > y {
                        below = Some(v);
                    }
                },
            }
        }
        i = i + 1;
    }
    proof {
        match below {
            None => {
                lemma_count_none(s@, |x: u64| x < r);
            },
            Some(y) => {
                lemma_count_monotone(s@, |x: u64| x < r, |x: u64| x <= y);
                let w = choose|w: int| 0 <= w < s.len() && s@[w] == y;
                assert(count_at_most(s@, s@[w]) <= k);
            },
        }
        let c = rank_value(s@, k as int);
        lemma_rank_value_unique(s@, k as int, r, c);
    }
    r
}

} // verus!

use vstd::prelude::*;
use crate::hai::{Hai, HAI_TYPES};

verus! {

/// How often `h` occurs in `s`.
pub open spec fn count_of(s: Seq<Hai>, h: Hai) -> int
    decreases s.len(),
{
    if s.len() == 0 {
        0
    } else {
        count_of(s.drop_last(), h) + if s.last() == h { 1int } else { 0int }
    }
}

/// The sum of a table of small counts.
pub open spec fn sum_of(s: Seq<u8>) -> int
    decreases s.len(),
{
    if s.len() == 0 {
        0
    } else {
        sum_of(s.drop_last()) + s.last() as int
    }
}

pub open spec fn all_valid_spec(s: Seq<Hai>) -> bool {
    forall|i: int| 0 <= i < s.len() ==> (#[trigger] s[i]).is_valid_spec()
}

/// Ascending in the tile order; equal neighbours allowed.
pub open spec fn sorted(s: Seq<Hai>) -> bool {
    forall|i: int, j: int| 0 <= i < j < s.len() ==> s[i].order_key() <= s[j].order_key()
}

pub proof fn lemma_count_add(a: Seq<Hai>, b: Seq<Hai>, h: Hai)
    ensures
        count_of(a + b, h) == count_of(a, h) + count_of(b, h),
    decreases b.len(),
{
    if b.len() == 0 {
        assert(a + b =~= a);
    } else {
        assert((a + b).drop_last() =~= a + b.drop_last());
        lemma_count_add(a, b.drop_last(), h);
    }
}

pub proof fn lemma_count_range(s: Seq<Hai>, h: Hai)
    ensures
        0 <= count_of(s, h) <= s.len(),
    decreases s.len(),
{
    if s.len() > 0 {
        lemma_count_range(s.drop_last(), h);
    }
}

/// A prefix holds no more of a tile than the whole.
pub proof fn lemma_count_prefix(s: Seq<Hai>, k: int, h: Hai)
    requires
        0 <= k <= s.len(),
    ensures
        count_of(s.take(k), h) <= count_of(s, h),
{
    assert(s =~= s.take(k) + s.skip(k));
    lemma_count_add(s.take(k), s.skip(k), h);
    lemma_count_range(s.skip(k), h);
}

pub proof fn lemma_count_insert(s: Seq<Hai>, p: int, x: Hai, h: Hai)
    requires
        0 <= p <= s.len(),
    ensures
        count_of(s.insert(p, x), h) == count_of(s, h) + if x == h { 1int } else { 0int },
{
    let a = s.take(p);
    let b = s.skip(p);
    assert(s =~= a + b);
    assert(s.insert(p, x) =~= a.push(x) + b);
    lemma_count_add(a, b, h);
    lemma_count_add(a.push(x), b, h);
    assert(a.push(x).drop_last() =~= a);
}

pub proof fn lemma_sum_update(s: Seq<u8>, k: int, v: u8)
    requires
        0 <= k < s.len(),
    ensures
        sum_of(s.update(k, v)) == sum_of(s) - s[k] + v,
    decreases s.len(),
{
    if k == s.len() - 1 {
        assert(s.update(k, v).drop_last() =~= s.drop_last());
    } else {
        assert(s.update(k, v).drop_last() =~= s.drop_last().update(k, v));
        lemma_sum_update(s.drop_last(), k, v);
    }
}

pub proof fn lemma_sum_bounds(s: Seq<u8>, cap: int)
    requires
        forall|i: int| 0 <= i < s.len() ==> s[i] <= cap,
    ensures
        0 <= sum_of(s) <= cap * s.len(),
        sum_of(s) == 0 <==> (forall|i: int| 0 <= i < s.len() ==> s[i] == 0),
    decreases s.len(),
{
    if s.len() > 0 {
        let r = s.drop_last();
        lemma_sum_bounds(r, cap);
        assert(cap * s.len() == cap * r.len() + cap) by (nonlinear_arith)
            requires
                s.len() == r.len() + 1,
        ;
        if sum_of(s) == 0 {
            assert forall|i: int| 0 <= i < s.len() implies s[i] == 0 by {
                if i < r.len() {
                    assert(r[i] == s[i]);
                }
            }
        } else {
            if forall|i: int| 0 <= i < s.len() ==> s[i] == 0 {
                assert forall|i: int| 0 <= i < r.len() implies r[i] == 0 by {
                    assert(r[i] == s[i]);
                }
                assert(s[s.len() - 1] == 0);
            }
        }
    }
}

/// A table with one zero count for each of the 34 tile types.
pub fn zero_table() -> (t: Vec<u8>)
    ensures
        t@.len() == HAI_TYPES,
        forall|i: int| 0 <= i < HAI_TYPES ==> t@[i] == 0,
{
    let mut t: Vec<u8> = Vec::new();
    let mut i: usize = 0;
    while i < HAI_TYPES
        invariant
            i <= HAI_TYPES,
            t@.len() == i,
            forall|j: int| 0 <= j < i ==> t@[j] == 0,
        decreases HAI_TYPES - i,
    {
        t.push(0);
        i += 1;
    }
    t
}

/// The sum of a table of counts that are at most 4.
pub fn table_sum(t: &Vec<u8>) -> (n: usize)
    requires
        t@.len() == HAI_TYPES,
        forall|i: int| 0 <= i < HAI_TYPES ==> t@[i] <= 4,
    ensures
        n as int == sum_of(t@),
        n <= 136,
{
    let mut n: usize = 0;
    let mut i: usize = 0;
    while i < HAI_TYPES
        invariant
            i <= HAI_TYPES,
            t@.len() == HAI_TYPES,
            forall|j: int| 0 <= j < HAI_TYPES ==> t@[j] <= 4,
            n as int == sum_of(t@.take(i as int)),
            n <= 4 * i,
        decreases HAI_TYPES - i,
    {
        proof {
            assert(t@.take(i + 1).drop_last() =~= t@.take(i as int));
        }
        n = n + t[i] as usize;
        i += 1;
    }
    proof {
        assert(t@.take(HAI_TYPES as int) =~= t@);
    }
    n
}

} // verus!

//! Star history: the days on which a repository was starred, bucketed per
//! day and accumulated into a running total.

use vstd::prelude::*;

verus! {

/// How many entries of `s` equal `d`.
pub open spec fn count_of(s: Seq<i64>, d: i64) -> nat
    decreases s.len(),
{
    if s.len() == 0 {
        0
    } else {
        count_of(s.drop_last(), d) + if s.last() == d { 1nat } else { 0nat }
    }
}

/// How many entries of `s` are on or before day `d`.
pub open spec fn count_upto(s: Seq<i64>, d: i64) -> nat
    decreases s.len(),
{
    if s.len() == 0 {
        0
    } else {
        count_upto(s.drop_last(), d) + if s.last() <= d { 1nat } else { 0nat }
    }
}

pub proof fn lemma_count_of_bound(s: Seq<i64>, d: i64)
    ensures
        count_of(s, d) <= s.len(),
        count_upto(s, d) <= s.len(),
    decreases s.len(),
{
    if s.len() > 0 {
        lemma_count_of_bound(s.drop_last(), d);
    }
}

proof fn lemma_count_of_contains(s: Seq<i64>, d: i64)
    ensures
        count_of(s, d) > 0 <==> s.contains(d),
    decreases s.len(),
{
    if s.len() > 0 {
        lemma_count_of_contains(s.drop_last(), d);
        let pre = s.drop_last();
        if pre.contains(d) {
            let i = choose|i: int| 0 <= i < pre.len() && pre[i] == d;
            assert(s[i] == d);
        }
        if s.contains(d) {
            let i = choose|i: int| 0 <= i < s.len() && s[i] == d;
            if i < s.len() - 1 {
                assert(pre[i] == d);
            }
        }
    }
}

/// The history of a list of star days: one entry per distinct day, in
/// increasing order of day, each with the running total up to that day
/// and the stars of that day.
pub open spec fn is_history(days: Seq<i64>, h: Seq<(i64, u32, u32)>) -> bool {
    &&& forall|a: int, b: int| 0 <= a < b < h.len() ==> h[a].0 < h[b].0
    &&& forall|d: i64| days.contains(d) <==> exists|k: int| 0 <= k < h.len() && (#[trigger] h[k]).0 == d
    &&& forall|k: int|
        0 <= k < h.len() ==> (#[trigger] h[k]).2 == count_of(days, h[k].0) && h[k].1 == count_upto(
            days,
            h[k].0,
        )
}

/// The days that appear in `s`, each with its count, sorted by day.
spec fn buckets_ok(s: Seq<i64>, out: Seq<(i64, u32)>) -> bool {
    &&& forall|a: int, b: int| 0 <= a < b < out.len() ==> out[a].0 < out[b].0
    &&& forall|k: int| 0 <= k < out.len() ==> (#[trigger] out[k]).1 == count_of(s, out[k].0)
    &&& forall|d: i64| s.contains(d) ==> exists|k: int| 0 <= k < out.len() && (#[trigger] out[k]).0 == d
    &&& forall|k: int| 0 <= k < out.len() ==> s.contains(#[trigger] out[k].0)
}

fn buckets(days: &Vec<i64>) -> (out: Vec<(i64, u32)>)
    requires
        days@.len() <= u32::MAX,
    ensures
        buckets_ok(days@, out@),
{
    let mut out: Vec<(i64, u32)> = Vec::new();
    let mut i: usize = 0;
    while i < days.len()
        invariant
            i <= days@.len(),
            days@.len() <= u32::MAX,
            buckets_ok(days@.subrange(0, i as int), out@),
        decreases days@.len() - i,
    {
        let t = days[i];
        let ghost s = days@.subrange(0, i as int);
        let ghost s2 = days@.subrange(0, i + 1);
        assert(s2.drop_last() =~= s);
        assert(s2.last() == t);
        assert forall|d: i64| count_of(s2, d) == count_of(s, d) + if d == t { 1nat } else { 0nat } by {}
        assert forall|d: i64| s2.contains(d) <==> (s.contains(d) || d == t) by {
            lemma_count_of_contains(s2, d);
            lemma_count_of_contains(s, d);
        }
        let mut p: usize = 0;
        while p < out.len() && out[p].0 < t
            invariant
                p <= out@.len(),
                forall|k: int| 0 <= k < p ==> (#[trigger] out@[k]).0 < t,
            decreases out@.len() - p,
        {
            p = p + 1;
        }
        let ghost old_out = out@;
        if p < out.len() && out[p].0 == t {
            let c = out[p].1;
            proof {
                lemma_count_of_bound(s, t);
            }
            out.set(p, (t, c + 1));
            assert(buckets_ok(s2, out@)) by {
                assert forall|d: i64| s2.contains(d) implies exists|k: int|
                    0 <= k < out@.len() && (#[trigger] out@[k]).0 == d by {
                    if d == t {
                        assert(out@[p as int].0 == d);
                    } else {
                        assert(s.contains(d));
                        let k = choose|k: int| 0 <= k < old_out.len() && (#[trigger] old_out[k]).0 == d;
                        assert(out@[k].0 == d);
                    }
                }
            }
        } else {
            assert forall|k: int| 0 <= k < old_out.len() implies (#[trigger] old_out[k]).0 != t by {
                if k >= p {
                    assert(old_out[p as int].0 > t);
                }
            }
            assert(!s.contains(t)) by {
                if s.contains(t) {
                    let k = choose|k: int| 0 <= k < old_out.len() && (#[trigger] old_out[k]).0 == t;
                }
            }
            proof {
                lemma_count_of_contains(s, t);
            }
            out.insert(p, (t, 1));
            assert(out@ == old_out.insert(p as int, (t, 1u32)));
            assert(buckets_ok(s2, out@)) by {
                assert forall|a: int, b: int| 0 <= a < b < out@.len() implies out@[a].0 < out@[b].0 by {
                    if b < p {
                    } else if b == p {
                        assert(out@[a] == old_out[a]);
                    } else if a < p {
                        assert(out@[b] == old_out[b - 1]);
                        assert(old_out[p as int].0 > t);
                    } else if a == p {
                        assert(out@[b] == old_out[b - 1]);
                        assert(old_out[p as int].0 > t);
                    } else {
                        assert(out@[a] == old_out[a - 1]);
                        assert(out@[b] == old_out[b - 1]);
                    }
                }
                assert forall|k: int| 0 <= k < out@.len() implies (#[trigger] out@[k]).1 == count_of(
                    s2,
                    out@[k].0,
                ) by {
                    if k < p {
                        assert(out@[k] == old_out[k]);
                    } else if k > p {
                        assert(out@[k] == old_out[k - 1]);
                    }
                }
                assert forall|d: i64| s2.contains(d) implies exists|k: int|
                    0 <= k < out@.len() && (#[trigger] out@[k]).0 == d by {
                    if d == t {
                        assert(out@[p as int].0 == d);
                    } else {
                        assert(s.contains(d));
                        let k = choose|k: int| 0 <= k < old_out.len() && (#[trigger] old_out[k]).0 == d;
                        if k < p {
                            assert(out@[k] == old_out[k]);
                        } else {
                            assert(out@[k + 1] == old_out[k]);
                        }
                    }
                }
                assert forall|k: int| 0 <= k < out@.len() implies s2.contains(#[trigger] out@[k].0) by {
                    if k < p {
                        assert(out@[k] == old_out[k]);
                    } else if k > p {
                        assert(out@[k] == old_out[k - 1]);
                    }
                }
            }
        }
        i = i + 1;
    }
    assert(days@.subrange(0, days@.len() as int) =~= days@);
    out
}

fn count_upto_exec(days: &Vec<i64>, d: i64) -> (r: u32)
    requires
        days@.len() <= u32::MAX,
    ensures
        r == count_upto(days@, d),
{
    let mut n: u32 = 0;
    let mut i: usize = 0;
    while i < days.len()
        invariant
            i <= days@.len(),
            days@.len() <= u32::MAX,
            n == count_upto(days@.subrange(0, i as int), d),
        decreases days@.len() - i,
    {
        assert(days@.subrange(0, i + 1).drop_last() =~= days@.subrange(0, i as int));
        proof {
            lemma_count_of_bound(days@.subrange(0, i as int), d);
        }
        if days[i] <= d {
            n = n + 1;
        }
        i = i + 1;
    }
    assert(days@.subrange(0, days@.len() as int) =~= days@);
    n
}

/// The star history of a repository from the days of its stars: per day,
/// the running total and the stars of that day.
pub fn get_stars_history(days: &Vec<i64>) -> (h: Vec<(i64, u32, u32)>)
    requires
        days@.len() <= u32::MAX,
    ensures
        is_history(days@, h@),
{
    let b = buckets(days);
    let mut h: Vec<(i64, u32, u32)> = Vec::new();
    let mut k: usize = 0;
    while k < b.len()
        invariant
            k <= b@.len(),
            days@.len() <= u32::MAX,
            buckets_ok(days@, b@),
            h@.len() == k,
            forall|j: int| 0 <= j < k ==> (#[trigger] h@[j]).0 == b@[j].0 && h@[j].2 == b@[j].1
                && h@[j].1 == count_upto(days@, b@[j].0),
        decreases b@.len() - k,
    {
        let (d, c) = b[k];
        let acc = count_upto_exec(days, d);
        h.push((d, acc, c));
        k = k + 1;
    }
    assert forall|d: i64| days@.contains(d) implies exists|k: int|
        0 <= k < h@.len() && (#[trigger] h@[k]).0 == d by {
        let k = choose|k: int| 0 <= k < b@.len() && (#[trigger] b@[k]).0 == d;
        assert(h@[k].0 == d);
    }
    assert forall|d: i64| (exists|k: int| 0 <= k < h@.len() && (#[trigger] h@[k]).0 == d) implies days@.contains(d) by {
        let k = choose|k: int| 0 <= k < h@.len() && (#[trigger] h@[k]).0 == d;
        assert(days@.contains(b@[k].0));
    }
    h
}

proof fn lemma_count_upto_gap(s: Seq<i64>, a: i64, b: i64)
    requires
        a < b,
        forall|k: int| 0 <= k < s.len() ==> !(a < #[trigger] s[k] && s[k] < b),
    ensures
        count_upto(s, b) == count_upto(s, a) + count_of(s, b),
    decreases s.len(),
{
    if s.len() > 0 {
        lemma_count_upto_gap(s.drop_last(), a, b);
        assert(!(a < s[s.len() - 1] && s[s.len() - 1] < b));
    }
}

proof fn lemma_count_upto_first(s: Seq<i64>, b: i64)
    requires
        forall|k: int| 0 <= k < s.len() ==> b <= #[trigger] s[k],
    ensures
        count_upto(s, b) == count_of(s, b),
    decreases s.len(),
{
    if s.len() > 0 {
        lemma_count_upto_first(s.drop_last(), b);
        assert(b <= s[s.len() - 1]);
    }
}

/// The running total of a history grows by the stars of each day: the
/// first day holds its own stars, every later day the total before it
/// plus its own.
pub proof fn lemma_history_accumulates(days: Seq<i64>, h: Seq<(i64, u32, u32)>)
    requires
        is_history(days, h),
    ensures
        h.len() > 0 ==> h[0].1 == h[0].2,
        forall|i: int| 0 < i < h.len() ==> #[trigger] h[i].1 == h[i - 1].1 + h[i].2,
{
    if h.len() > 0 {
        assert forall|k: int| 0 <= k < days.len() implies h[0].0 <= #[trigger] days[k] by {
            assert(days.contains(days[k]));
            let j = choose|j: int| 0 <= j < h.len() && (#[trigger] h[j]).0 == days[k];
            if j > 0 {
                assert(h[0].0 < h[j].0);
            }
        }
        lemma_count_upto_first(days, h[0].0);
    }
    assert forall|i: int| 0 < i < h.len() implies #[trigger] h[i].1 == h[i - 1].1 + h[i].2 by {
        assert forall|k: int| 0 <= k < days.len() implies !(h[i - 1].0 < #[trigger] days[k] && days[k] < h[i].0) by {
            assert(days.contains(days[k]));
            let j = choose|j: int| 0 <= j < h.len() && (#[trigger] h[j]).0 == days[k];
            if j < i - 1 {
                assert(h[j].0 < h[i - 1].0);
            } else if j > i {
                assert(h[i].0 < h[j].0);
            }
        }
        assert(h[i - 1].0 < h[i].0);
        lemma_count_upto_gap(days, h[i - 1].0, h[i].0);
    }
}

} // verus!

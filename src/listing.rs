//! The repository list: which repositories are shown, in what order, and
//! the sums over them.

use vstd::prelude::*;
use vstd::multiset::Multiset;
use crate::filter::{GhsFilter, RuleSet};
use crate::popular::{lemma_lex_antisym, lemma_lex_trans, lex_cmp, lex_compare};
use crate::query::{Direction, RepoFilter, RepoSort};
use crate::store::RepoTotals;
use crate::text::{lower_of, trim_of};

verus! {

broadcast use vstd::multiset::group_multiset_axioms;

/// The repositories of `items` that the filter takes, in order.
pub open spec fn kept(f: RuleSet, items: Seq<RepoTotals>) -> Seq<RepoTotals>
    decreases items.len(),
{
    if items.len() == 0 {
        Seq::empty()
    } else {
        let pre = kept(f, items.drop_last());
        let t = items.last();
        if f.decides(lower_of(trim_of(t.name@)), t.fork, t.archived) {
            pre.push(t)
        } else {
            pre
        }
    }
}

/// Keeps the repositories that the filter takes.
pub fn filter_totals(f: &GhsFilter, items: Vec<RepoTotals>) -> (r: Vec<RepoTotals>)
    ensures
        r@ == kept(f@, items@),
{
    let ghost orig = items@;
    let mut items = items;
    let mut out: Vec<RepoTotals> = Vec::new();
    let mut k: usize = 0;
    let n = items.len();
    assert(items@ =~= orig.subrange(0, orig.len() as int));
    while items.len() > 0
        invariant
            n == orig.len(),
            k <= orig.len(),
            items@ == orig.subrange(k as int, orig.len() as int),
            out@ == kept(f@, orig.subrange(0, k as int)),
        decreases items@.len(),
    {
        let t = items.remove(0);
        assert(t == orig[k as int]);
        assert(orig.subrange(0, k + 1).drop_last() =~= orig.subrange(0, k as int));
        if f.is_included(t.name.as_str(), t.fork, t.archived) {
            out.push(t);
        }
        k = k + 1;
        assert(items@ =~= orig.subrange(k as int, orig.len() as int));
    }
    assert(orig.subrange(0, orig.len() as int) =~= orig);
    out
}

/// The order of two repositories by one column, ascending: -1, 0 or 1.
pub open spec fn totals_cmp(a: RepoTotals, b: RepoTotals, sort: RepoSort) -> int {
    match sort {
        RepoSort::Name => lex_cmp(a.name@, b.name@),
        RepoSort::Stars => int_cmp(a.stars as int, b.stars as int),
        RepoSort::Forks => int_cmp(a.forks as int, b.forks as int),
        RepoSort::Watchers => int_cmp(a.watchers as int, b.watchers as int),
        RepoSort::Issues => int_cmp(a.issues as int, b.issues as int),
        RepoSort::Clones => int_cmp(a.clones_count as int, b.clones_count as int),
        RepoSort::Views => int_cmp(a.views_count as int, b.views_count as int),
    }
}

pub open spec fn int_cmp(a: int, b: int) -> int {
    if a < b { -1 } else if a > b { 1 } else { 0 }
}

/// The order of two repositories in the list: -1 when `a` comes first.
pub open spec fn list_cmp(a: RepoTotals, b: RepoTotals, f: RepoFilter) -> int {
    if f.direction == Direction::Asc { totals_cmp(a, b, f.sort) } else { totals_cmp(b, a, f.sort) }
}

/// The repositories in list order.
pub open spec fn in_list_order(s: Seq<RepoTotals>, f: RepoFilter) -> bool {
    forall|x: int, y: int| 0 <= x < y < s.len() ==> list_cmp(s[x], s[y], f) <= 0
}

proof fn lemma_list_props(a: RepoTotals, b: RepoTotals, c: RepoTotals, f: RepoFilter)
    ensures
        list_cmp(a, b, f) == -list_cmp(b, a, f),
        list_cmp(a, b, f) <= 0 && list_cmp(b, c, f) <= 0 ==> list_cmp(a, c, f) <= 0,
{
    lemma_lex_antisym(a.name@, b.name@, 0);
    if f.sort == RepoSort::Name {
        if list_cmp(a, b, f) <= 0 && list_cmp(b, c, f) <= 0 {
            if f.direction == Direction::Asc {
                lemma_lex_trans(a.name@, b.name@, c.name@, 0);
            } else {
                lemma_lex_trans(c.name@, b.name@, a.name@, 0);
            }
        }
    }
}

fn icmp(a: u64, b: u64) -> (r: i8)
    ensures
        r == int_cmp(a as int, b as int),
{
    if a < b {
        -1
    } else if a > b {
        1
    } else {
        0
    }
}

fn list_compare(a: &RepoTotals, b: &RepoTotals, f: RepoFilter) -> (r: i8)
    ensures
        r == list_cmp(*a, *b, f),
{
    let (x, y) = if f.direction == Direction::Asc { (a, b) } else { (b, a) };
    match f.sort {
        RepoSort::Name => lex_compare(x.name.as_str(), y.name.as_str()),
        RepoSort::Stars => icmp(x.stars as u64, y.stars as u64),
        RepoSort::Forks => icmp(x.forks as u64, y.forks as u64),
        RepoSort::Watchers => icmp(x.watchers as u64, y.watchers as u64),
        RepoSort::Issues => icmp(x.issues as u64, y.issues as u64),
        RepoSort::Clones => icmp(x.clones_count, y.clones_count),
        RepoSort::Views => icmp(x.views_count, y.views_count),
    }
}

fn insert_in_order(out: &mut Vec<RepoTotals>, item: RepoTotals, f: RepoFilter)
    requires
        in_list_order(old(out)@, f),
    ensures
        final(out)@.to_multiset() == old(out)@.to_multiset().insert(item),
        in_list_order(final(out)@, f),
{
    let mut p: usize = 0;
    while p < out.len() && list_compare(&item, &out[p], f) >= 0
        invariant
            p <= out@.len(),
            forall|x: int| 0 <= x < p ==> list_cmp(item, #[trigger] out@[x], f) >= 0,
        decreases out@.len() - p,
    {
        p = p + 1;
    }
    let ghost old_out = out@;
    let ghost it = item;
    out.insert(p, item);
    proof {
        vstd::seq_lib::to_multiset_insert(old_out, p as int, it);
    }
    assert forall|x: int, y: int| 0 <= x < y < out@.len() implies list_cmp(out@[x], out@[y], f) <= 0 by {
        if x == p as int {
            assert(out@[y] == old_out[y - 1]);
            assert(list_cmp(it, old_out[p as int], f) < 0);
            lemma_list_props(it, old_out[p as int], old_out[y - 1], f);
        } else if y == p as int {
            assert(out@[x] == old_out[x]);
            lemma_list_props(old_out[x], it, it, f);
        } else {
            let xo = if x < p { x } else { x - 1 };
            let yo = if y < p { y } else { y - 1 };
            assert(out@[x] == old_out[xo]);
            assert(out@[y] == old_out[yo]);
        }
    }
}

/// Orders the repositories by the column and direction of `f`;
/// repositories that rank alike may come in either order.
pub fn sort_totals(items: Vec<RepoTotals>, f: RepoFilter) -> (r: Vec<RepoTotals>)
    ensures
        r@.to_multiset() == items@.to_multiset(),
        in_list_order(r@, f),
{
    let ghost orig = items@;
    let mut items = items;
    let mut out: Vec<RepoTotals> = Vec::new();
    proof {
        vstd::seq_lib::to_multiset_len(out@);
        assert(out@.to_multiset().len() == 0);
        assert(out@.to_multiset() =~= Multiset::empty());
    }
    assert(items@.to_multiset().add(out@.to_multiset()) =~= orig.to_multiset());
    while items.len() > 0
        invariant
            items@.to_multiset().add(out@.to_multiset()) == orig.to_multiset(),
            in_list_order(out@, f),
        decreases items@.len(),
    {
        let ghost before = items@;
        let t = items.pop().unwrap();
        proof {
            assert(before =~= items@.push(t));
            vstd::seq_lib::to_multiset_build(items@, t);
        }
        let ghost out_before = out@;
        insert_in_order(&mut out, t, f);
        assert(items@.to_multiset().add(out@.to_multiset()) =~= before.to_multiset().add(
            out_before.to_multiset(),
        ));
    }
    proof {
        vstd::seq_lib::to_multiset_len(items@);
        assert(items@.to_multiset() =~= Multiset::empty());
    }
    assert(out@.to_multiset() =~= items@.to_multiset().add(out@.to_multiset()));
    out
}

/// A column summed over the repositories.
pub open spec fn sum_by(items: Seq<RepoTotals>, col: spec_fn(RepoTotals) -> int) -> int
    decreases items.len(),
{
    if items.len() == 0 {
        0
    } else {
        sum_by(items.drop_last(), col) + col(items.last())
    }
}

/// The repository list with its sums.
#[derive(Debug)]
pub struct ReposList {
    pub total_count: u64,
    pub total_stars: u64,
    pub total_forks: u64,
    pub total_views: u128,
    pub total_clones: u128,
    pub items: Vec<RepoTotals>,
}

impl ReposList {
    /// The list of `items` with their count and the sums of their stars,
    /// forks, views and clones.
    pub fn new(items: Vec<RepoTotals>) -> (r: ReposList)
        requires
            items@.len() <= u32::MAX,
        ensures
            r.items@ == items@,
            r.total_count == items@.len(),
            r.total_stars == sum_by(items@, |t: RepoTotals| t.stars as int),
            r.total_forks == sum_by(items@, |t: RepoTotals| t.forks as int),
            r.total_views == sum_by(items@, |t: RepoTotals| t.views_count as int),
            r.total_clones == sum_by(items@, |t: RepoTotals| t.clones_count as int),
    {
        let mut stars: u64 = 0;
        let mut forks: u64 = 0;
        let mut views: u128 = 0;
        let mut clones: u128 = 0;
        let mut i: usize = 0;
        while i < items.len()
            invariant
                i <= items@.len(),
                items@.len() <= u32::MAX,
                stars == sum_by(items@.subrange(0, i as int), |t: RepoTotals| t.stars as int),
                forks == sum_by(items@.subrange(0, i as int), |t: RepoTotals| t.forks as int),
                views == sum_by(items@.subrange(0, i as int), |t: RepoTotals| t.views_count as int),
                clones == sum_by(items@.subrange(0, i as int), |t: RepoTotals| t.clones_count as int),
                stars <= i * 0xFFFF_FFFFu64,
                forks <= i * 0xFFFF_FFFFu64,
                views <= i * 0xFFFF_FFFF_FFFF_FFFFu128,
                clones <= i * 0xFFFF_FFFF_FFFF_FFFFu128,
            decreases items@.len() - i,
        {
            assert(items@.subrange(0, i + 1).drop_last() =~= items@.subrange(0, i as int));
            let t = &items[i];
            proof {
                assert((i + 1) * 0xFFFF_FFFFu64 <= 0x1_0000_0000u64 * 0xFFFF_FFFFu64) by (nonlinear_arith)
                    requires i + 1 <= 0x1_0000_0000u64;
                assert((i + 1) * 0xFFFF_FFFFu64 == i * 0xFFFF_FFFFu64 + 0xFFFF_FFFFu64) by (nonlinear_arith);
                assert((i + 1) * 0xFFFF_FFFF_FFFF_FFFFu128 <= 0x1_0000_0000u128 * 0xFFFF_FFFF_FFFF_FFFFu128) by (nonlinear_arith)
                    requires i + 1 <= 0x1_0000_0000u128;
                assert((i + 1) * 0xFFFF_FFFF_FFFF_FFFFu128 == i * 0xFFFF_FFFF_FFFF_FFFFu128 + 0xFFFF_FFFF_FFFF_FFFFu128) by (nonlinear_arith);
            }
            stars = stars + t.stars as u64;
            forks = forks + t.forks as u64;
            views = views + t.views_count as u128;
            clones = clones + t.clones_count as u128;
            i = i + 1;
        }
        assert(items@.subrange(0, items@.len() as int) =~= items@);
        ReposList {
            total_count: items.len() as u64,
            total_stars: stars,
            total_forks: forks,
            total_views: views,
            total_clones: clones,
            items,
        }
    }
}

} // verus!

//! Popularity listings: the deltas of referrers or paths summed per key
//! over a period, ranked by a chosen column.

use vstd::prelude::*;
use crate::query::{Direction, PopularSort};
use crate::store::PopularRow;

verus! {

/// One ranked referrer or path.
#[derive(Debug, Clone)]
pub struct RepoPopularItem {
    pub name: String,
    pub count: u64,
    pub uniques: u64,
}

/// The order of `a` and `b` from position `i` on: -1, 0 or 1.
pub open spec fn lex_cmp_from(a: Seq<char>, b: Seq<char>, i: int) -> int
    decreases a.len() - i,
{
    if i >= a.len() && i >= b.len() {
        0
    } else if i >= a.len() {
        -1
    } else if i >= b.len() {
        1
    } else if (a[i] as u32) != (b[i] as u32) {
        if (a[i] as u32) < (b[i] as u32) { -1 } else { 1 }
    } else {
        lex_cmp_from(a, b, i + 1)
    }
}

/// The lexicographic order of two texts, character by character.
pub open spec fn lex_cmp(a: Seq<char>, b: Seq<char>) -> int {
    lex_cmp_from(a, b, 0)
}

pub proof fn lemma_lex_antisym(a: Seq<char>, b: Seq<char>, i: int)
    requires
        0 <= i,
    ensures
        lex_cmp_from(a, b, i) == -lex_cmp_from(b, a, i),
    decreases a.len() - i,
{
    if i < a.len() && i < b.len() && (a[i] as u32) == (b[i] as u32) {
        lemma_lex_antisym(a, b, i + 1);
    }
}

pub proof fn lemma_lex_trans(a: Seq<char>, b: Seq<char>, c: Seq<char>, i: int)
    requires
        0 <= i,
        lex_cmp_from(a, b, i) <= 0,
        lex_cmp_from(b, c, i) <= 0,
    ensures
        lex_cmp_from(a, c, i) <= 0,
    decreases a.len() - i,
{
    if i < a.len() && i < b.len() && i < c.len() && (a[i] as u32) == (b[i] as u32) && (b[i] as u32) == (c[i] as u32) {
        lemma_lex_trans(a, b, c, i + 1);
    }
}

/// The order of two texts.
pub fn lex_compare(a: &str, b: &str) -> (r: i8)
    ensures
        r == lex_cmp(a@, b@),
{
    let n = a.unicode_len();
    let m = b.unicode_len();
    let mut i: usize = 0;
    while i < n && i < m
        invariant
            n == a@.len(),
            m == b@.len(),
            i <= n,
            i <= m,
            lex_cmp(a@, b@) == lex_cmp_from(a@, b@, i as int),
        decreases n - i,
    {
        let x = a.get_char(i);
        let y = b.get_char(i);
        if (x as u32) != (y as u32) {
            if (x as u32) < (y as u32) {
                return -1;
            } else {
                return 1;
            }
        }
        i = i + 1;
    }
    if i >= n && i >= m {
        0
    } else if i >= n {
        -1
    } else {
        1
    }
}

/// The order of two items by one column, ascending: -1, 0 or 1.
pub open spec fn item_cmp(a: RepoPopularItem, b: RepoPopularItem, sort: PopularSort) -> int {
    match sort {
        PopularSort::Name => lex_cmp(a.name@, b.name@),
        PopularSort::Count => if a.count < b.count { -1 } else if a.count > b.count { 1 } else { 0 },
        PopularSort::Uniques => if a.uniques < b.uniques {
            -1
        } else if a.uniques > b.uniques {
            1
        } else {
            0
        },
    }
}

/// The order of two items in the listing: -1 when `a` comes first.
pub open spec fn ranked_cmp(a: RepoPopularItem, b: RepoPopularItem, sort: PopularSort, dir: Direction) -> int {
    if dir == Direction::Asc { item_cmp(a, b, sort) } else { item_cmp(b, a, sort) }
}

proof fn lemma_ranked_props(a: RepoPopularItem, b: RepoPopularItem, c: RepoPopularItem, sort: PopularSort, dir: Direction)
    ensures
        ranked_cmp(a, b, sort, dir) == -ranked_cmp(b, a, sort, dir),
        ranked_cmp(a, b, sort, dir) <= 0 && ranked_cmp(b, c, sort, dir) <= 0 ==> ranked_cmp(a, c, sort, dir) <= 0,
{
    lemma_lex_antisym(a.name@, b.name@, 0);
    if sort == PopularSort::Name {
        if ranked_cmp(a, b, sort, dir) <= 0 && ranked_cmp(b, c, sort, dir) <= 0 {
            if dir == Direction::Asc {
                lemma_lex_trans(a.name@, b.name@, c.name@, 0);
            } else {
                lemma_lex_trans(c.name@, b.name@, a.name@, 0);
            }
        }
    }
}

fn ranked_compare(a: &RepoPopularItem, b: &RepoPopularItem, sort: PopularSort, dir: Direction) -> (r: i8)
    ensures
        r == ranked_cmp(*a, *b, sort, dir),
{
    let (x, y) = if dir == Direction::Asc { (a, b) } else { (b, a) };
    match sort {
        PopularSort::Name => lex_compare(x.name.as_str(), y.name.as_str()),
        PopularSort::Count => if x.count < y.count { -1 } else if x.count > y.count { 1 } else { 0 },
        PopularSort::Uniques => if x.uniques < y.uniques {
            -1
        } else if x.uniques > y.uniques {
            1
        } else {
            0
        },
    }
}

/// The row falls in the period that starts on day `since`.
pub open spec fn in_window(r: PopularRow, since: Option<i64>) -> bool {
    match since {
        None => true,
        Some(d) => r.date >= d,
    }
}

/// The count deltas of the rows of key `name` in the period, summed.
#[verifier::opaque]
pub open spec fn sum_count(rows: Seq<PopularRow>, name: Seq<char>, since: Option<i64>) -> nat
    decreases rows.len(),
{
    if rows.len() == 0 {
        0
    } else {
        let r = rows.last();
        sum_count(rows.drop_last(), name, since) + if in_window(r, since) && r.name@ == name {
            r.count_delta as nat
        } else {
            0nat
        }
    }
}

/// The unique-visitor deltas of the rows of key `name` in the period,
/// summed.
#[verifier::opaque]
pub open spec fn sum_uniques(rows: Seq<PopularRow>, name: Seq<char>, since: Option<i64>) -> nat
    decreases rows.len(),
{
    if rows.len() == 0 {
        0
    } else {
        let r = rows.last();
        sum_uniques(rows.drop_last(), name, since) + if in_window(r, since) && r.name@ == name {
            r.uniques_delta as nat
        } else {
            0nat
        }
    }
}

/// Some row of key `name` falls in the period.
pub open spec fn has_key(rows: Seq<PopularRow>, name: Seq<char>, since: Option<i64>) -> bool {
    exists|k: int| 0 <= k < rows.len() && in_window(#[trigger] rows[k], since) && rows[k].name@ == name
}

proof fn lemma_sums_absent(rows: Seq<PopularRow>, name: Seq<char>, since: Option<i64>)
    requires
        !has_key(rows, name, since),
    ensures
        sum_count(rows, name, since) == 0,
        sum_uniques(rows, name, since) == 0,
    decreases rows.len(),
{
    reveal(sum_count);
    reveal(sum_uniques);
    if rows.len() > 0 {
        let pre = rows.drop_last();
        assert(!has_key(pre, name, since)) by {
            if has_key(pre, name, since) {
                let k = choose|k: int| 0 <= k < pre.len() && in_window(#[trigger] pre[k], since) && pre[k].name@ == name;
                assert(rows[k] == pre[k]);
            }
        }
        lemma_sums_absent(pre, name, since);
        assert(!(in_window(rows[rows.len() - 1], since) && rows[rows.len() - 1].name@ == name));
    }
}

proof fn lemma_sums_bound(rows: Seq<PopularRow>, name: Seq<char>, since: Option<i64>)
    ensures
        sum_count(rows, name, since) <= rows.len() * 0xFFFF_FFFF,
        sum_uniques(rows, name, since) <= rows.len() * 0xFFFF_FFFF,
    decreases rows.len(),
{
    reveal(sum_count);
    reveal(sum_uniques);
    if rows.len() > 0 {
        lemma_sums_bound(rows.drop_last(), name, since);
    }
}

proof fn lemma_sums_step(rs: Seq<PopularRow>, i: int, name: Seq<char>, since: Option<i64>)
    requires
        0 <= i < rs.len(),
    ensures
        sum_count(rs.subrange(0, i + 1), name, since) == sum_count(rs.subrange(0, i), name, since)
            + if in_window(rs[i], since) && rs[i].name@ == name { rs[i].count_delta as nat } else { 0nat },
        sum_uniques(rs.subrange(0, i + 1), name, since) == sum_uniques(rs.subrange(0, i), name, since)
            + if in_window(rs[i], since) && rs[i].name@ == name { rs[i].uniques_delta as nat } else { 0nat },
{
    reveal(sum_count);
    reveal(sum_uniques);
    assert(rs.subrange(0, i + 1).drop_last() =~= rs.subrange(0, i));
}

/// The listing: one item per key with rows in the period, each with the
/// sums of its deltas there, ranked by `sort` in direction `dir`; items
/// that rank alike may come in either order.
pub open spec fn is_listing(
    rows: Seq<PopularRow>,
    since: Option<i64>,
    sort: PopularSort,
    dir: Direction,
    out: Seq<RepoPopularItem>,
) -> bool {
    &&& forall|a: int, b: int| 0 <= a < b < out.len() ==> out[a].name@ != out[b].name@
    &&& forall|a: int|
        0 <= a < out.len() ==> has_key(rows, (#[trigger] out[a]).name@, since) && out[a].count
            == sum_count(rows, out[a].name@, since) && out[a].uniques == sum_uniques(
            rows,
            out[a].name@,
            since,
        )
    &&& forall|k: int|
        0 <= k < rows.len() && in_window(#[trigger] rows[k], since) ==> exists|a: int|
            0 <= a < out.len() && out[a].name@ == rows[k].name@
    &&& forall|a: int, b: int| 0 <= a < b < out.len() ==> ranked_cmp(out[a], out[b], sort, dir) <= 0
}

/// Some item of `out` has the name `nm`.
pub open spec fn names_item(out: Seq<RepoPopularItem>, nm: Seq<char>) -> bool {
    exists|x: int| 0 <= x < out.len() && (#[trigger] out[x]).name@ == nm
}

spec fn groups_ok(rows: Seq<PopularRow>, i: int, since: Option<i64>, idx: Seq<usize>, cnt: Seq<u64>, unq: Seq<u64>) -> bool {
    &&& idx.len() == cnt.len() && idx.len() == unq.len()
    &&& forall|a: int| 0 <= a < idx.len() ==> #[trigger] idx[a] < i && in_window(rows[idx[a] as int], since)
    &&& forall|a: int, b: int| 0 <= a < b < idx.len() ==> rows[idx[a] as int].name@ != rows[idx[b] as int].name@
    &&& forall|a: int|
        0 <= a < idx.len() ==> #[trigger] cnt[a] == sum_count(rows.subrange(0, i), rows[idx[a] as int].name@, since)
            && unq[a] == sum_uniques(rows.subrange(0, i), rows[idx[a] as int].name@, since)
    &&& forall|k: int|
        0 <= k < i && in_window(#[trigger] rows[k], since) ==> exists|a: int|
            0 <= a < idx.len() && rows[idx[a] as int].name@ == rows[k].name@
}

fn find_group(rows: &Vec<PopularRow>, idx: &Vec<usize>, i: usize) -> (p: usize)
    requires
        i < rows@.len(),
        forall|a: int| 0 <= a < idx@.len() ==> #[trigger] idx@[a] < rows@.len(),
    ensures
        p <= idx@.len(),
        p < idx@.len() ==> rows@[idx@[p as int] as int].name@ == rows@[i as int].name@,
        p == idx@.len() ==> forall|a: int| 0 <= a < idx@.len() ==> rows@[#[trigger] idx@[a] as int].name@ != rows@[i as int].name@,
{
    let mut p: usize = 0;
    while p < idx.len()
        invariant
            i < rows@.len(),
            forall|a: int| 0 <= a < idx@.len() ==> #[trigger] idx@[a] < rows@.len(),
            p <= idx@.len(),
            forall|a: int| 0 <= a < p ==> rows@[#[trigger] idx@[a] as int].name@ != rows@[i as int].name@,
        decreases idx@.len() - p,
    {
        if rows[idx[p]].name == rows[i].name {
            return p;
        }
        p = p + 1;
    }
    p
}

proof fn lemma_group_add(rs: Seq<PopularRow>, i: int, since: Option<i64>, idx: Seq<usize>, cnt: Seq<u64>, unq: Seq<u64>, p: int)
    requires
        0 <= i < rs.len(),
        in_window(rs[i], since),
        groups_ok(rs, i, since, idx, cnt, unq),
        0 <= p < idx.len(),
        rs[idx[p] as int].name@ == rs[i].name@,
        cnt[p] + rs[i].count_delta <= u64::MAX,
        unq[p] + rs[i].uniques_delta <= u64::MAX,
    ensures
        groups_ok(
            rs,
            i + 1,
            since,
            idx,
            cnt.update(p, (cnt[p] + rs[i].count_delta) as u64),
            unq.update(p, (unq[p] + rs[i].uniques_delta) as u64),
        ),
{
    let cur = rs.subrange(0, i + 1);
    let c2 = cnt.update(p, (cnt[p] + rs[i].count_delta) as u64);
    let u2 = unq.update(p, (unq[p] + rs[i].uniques_delta) as u64);
    assert forall|k: int| 0 <= k < i + 1 && in_window(#[trigger] rs[k], since) implies exists|a: int|
        0 <= a < idx.len() && rs[idx[a] as int].name@ == rs[k].name@ by {
        if k == i {
            assert(rs[idx[p] as int].name@ == rs[k].name@);
        }
    }
    assert forall|a: int| 0 <= a < idx.len() implies #[trigger] c2[a] == sum_count(cur, rs[idx[a] as int].name@, since)
        && u2[a] == sum_uniques(cur, rs[idx[a] as int].name@, since) by {
        let nm = rs[idx[a] as int].name@;
        lemma_sums_step(rs, i, nm, since);
        assert(cnt[a] == sum_count(rs.subrange(0, i), nm, since));
        assert(unq[a] == sum_uniques(rs.subrange(0, i), nm, since));
        if a != p {
            if a < p {
                assert(rs[idx[a] as int].name@ != rs[idx[p] as int].name@);
            } else {
                assert(rs[idx[p] as int].name@ != rs[idx[a] as int].name@);
            }
            assert(c2[a] == cnt[a]);
            assert(u2[a] == unq[a]);
        } else {
            assert(c2[a] == cnt[a] + rs[i].count_delta);
            assert(u2[a] == unq[a] + rs[i].uniques_delta);
        }
    }
}

proof fn lemma_group_new(rs: Seq<PopularRow>, i: int, since: Option<i64>, idx: Seq<usize>, cnt: Seq<u64>, unq: Seq<u64>)
    requires
        0 <= i < rs.len(),
        rs.len() <= u32::MAX,
        in_window(rs[i], since),
        groups_ok(rs, i, since, idx, cnt, unq),
        forall|a: int| 0 <= a < idx.len() ==> rs[#[trigger] idx[a] as int].name@ != rs[i].name@,
    ensures
        groups_ok(
            rs,
            i + 1,
            since,
            idx.push(i as usize),
            cnt.push(rs[i].count_delta as u64),
            unq.push(rs[i].uniques_delta as u64),
        ),
{
    let pre = rs.subrange(0, i);
    let cur = rs.subrange(0, i + 1);
    let nm = rs[i].name@;
    assert(!has_key(pre, nm, since)) by {
        if has_key(pre, nm, since) {
            let k = choose|k: int| 0 <= k < pre.len() && in_window(#[trigger] pre[k], since) && pre[k].name@ == nm;
            assert(in_window(rs[k], since));
            let a = choose|a: int| 0 <= a < idx.len() && rs[idx[a] as int].name@ == rs[k].name@;
            assert(rs[idx[a] as int].name@ != nm);
        }
    }
    lemma_sums_absent(pre, nm, since);
    let idx2 = idx.push(i as usize);
    let c2 = cnt.push(rs[i].count_delta as u64);
    let u2 = unq.push(rs[i].uniques_delta as u64);
    assert forall|k: int| 0 <= k < i + 1 && in_window(#[trigger] rs[k], since) implies exists|a: int|
        0 <= a < idx2.len() && rs[idx2[a] as int].name@ == rs[k].name@ by {
        if k == i {
            assert(rs[idx2[idx.len() as int] as int].name@ == rs[k].name@);
        } else {
            let a = choose|a: int| 0 <= a < idx.len() && rs[idx[a] as int].name@ == rs[k].name@;
            assert(idx2[a] == idx[a]);
        }
    }
    assert forall|a: int| 0 <= a < idx2.len() implies #[trigger] c2[a] == sum_count(cur, rs[idx2[a] as int].name@, since)
        && u2[a] == sum_uniques(cur, rs[idx2[a] as int].name@, since) by {
        lemma_sums_step(rs, i, rs[idx2[a] as int].name@, since);
        if a < idx.len() {
            assert(idx2[a] == idx[a]);
            assert(rs[idx[a] as int].name@ != nm);
        }
    }
    assert forall|a: int, b: int| 0 <= a < b < idx2.len() implies rs[idx2[a] as int].name@ != rs[idx2[b] as int].name@ by {
        if b == idx.len() {
            assert(idx2[a] == idx[a]);
        }
    }
    assert forall|a: int| 0 <= a < idx2.len() implies #[trigger] idx2[a] < i + 1 && in_window(rs[idx2[a] as int], since) by {
    }
}

proof fn lemma_group_skip(rs: Seq<PopularRow>, i: int, since: Option<i64>, idx: Seq<usize>, cnt: Seq<u64>, unq: Seq<u64>)
    requires
        0 <= i < rs.len(),
        !in_window(rs[i], since),
        groups_ok(rs, i, since, idx, cnt, unq),
    ensures
        groups_ok(rs, i + 1, since, idx, cnt, unq),
{
    assert forall|k: int| 0 <= k < i + 1 && in_window(#[trigger] rs[k], since) implies exists|a: int|
        0 <= a < idx.len() && rs[idx[a] as int].name@ == rs[k].name@ by {
        assert(k != i);
    }
    assert forall|a: int| 0 <= a < idx.len() implies #[trigger] cnt[a] == sum_count(rs.subrange(0, i + 1), rs[idx[a] as int].name@, since)
        && unq[a] == sum_uniques(rs.subrange(0, i + 1), rs[idx[a] as int].name@, since) by {
        lemma_sums_step(rs, i, rs[idx[a] as int].name@, since);
    }
}

fn group_rows(rows: &Vec<PopularRow>, since: Option<i64>) -> (r: (Vec<usize>, Vec<u64>, Vec<u64>))
    requires
        rows@.len() <= u32::MAX,
    ensures
        groups_ok(rows@, rows@.len() as int, since, r.0@, r.1@, r.2@),
{
    let ghost rs = rows@;
    let mut idx: Vec<usize> = Vec::new();
    let mut cnt: Vec<u64> = Vec::new();
    let mut unq: Vec<u64> = Vec::new();
    let mut i: usize = 0;
    while i < rows.len()
        invariant
            rs == rows@,
            rs.len() <= u32::MAX,
            i <= rs.len(),
            groups_ok(rs, i as int, since, idx@, cnt@, unq@),
        decreases rs.len() - i,
    {
        let inw = match since {
            None => true,
            Some(d) => rows[i].date >= d,
        };
        if inw {
            let p = find_group(rows, &idx, i);
            if p < idx.len() {
                proof {
                    let pre = rs.subrange(0, i as int);
                    lemma_sums_bound(pre, rs[i as int].name@, since);
                    assert(pre.len() * 0xFFFF_FFFF <= 0xFFFF_FFFFu64 * 0xFFFF_FFFFu64) by (nonlinear_arith)
                        requires pre.len() <= 0xFFFF_FFFF;
                    lemma_group_add(rs, i as int, since, idx@, cnt@, unq@, p as int);
                }
                let c = cnt[p] + rows[i].count_delta as u64;
                let u = unq[p] + rows[i].uniques_delta as u64;
                cnt.set(p, c);
                unq.set(p, u);
            } else {
                proof {
                    lemma_group_new(rs, i as int, since, idx@, cnt@, unq@);
                }
                idx.push(i);
                cnt.push(rows[i].count_delta as u64);
                unq.push(rows[i].uniques_delta as u64);
            }
        } else {
            proof {
                lemma_group_skip(rs, i as int, since, idx@, cnt@, unq@);
            }
        }
        i = i + 1;
    }
    (idx, cnt, unq)
}

/// Items in ranked order.
pub open spec fn ranked(out: Seq<RepoPopularItem>, sort: PopularSort, dir: Direction) -> bool {
    forall|x: int, y: int| 0 <= x < y < out.len() ==> ranked_cmp(out[x], out[y], sort, dir) <= 0
}

fn insert_ranked(out: &mut Vec<RepoPopularItem>, item: RepoPopularItem, sort: PopularSort, dir: Direction) -> (p: usize)
    requires
        ranked(old(out)@, sort, dir),
    ensures
        p <= old(out)@.len(),
        final(out)@ == old(out)@.insert(p as int, item),
        ranked(final(out)@, sort, dir),
{
    let mut p: usize = 0;
    while p < out.len() && ranked_compare(&item, &out[p], sort, dir) >= 0
        invariant
            p <= out@.len(),
            forall|x: int| 0 <= x < p ==> ranked_cmp(item, #[trigger] out@[x], sort, dir) >= 0,
        decreases out@.len() - p,
    {
        p = p + 1;
    }
    let ghost old_out = out@;
    out.insert(p, item);
    assert forall|x: int, y: int| 0 <= x < y < out@.len() implies ranked_cmp(out@[x], out@[y], sort, dir) <= 0 by {
        if x == p as int {
            assert(out@[y] == old_out[y - 1]);
            assert(ranked_cmp(item, old_out[p as int], sort, dir) < 0);
            lemma_ranked_props(item, old_out[p as int], old_out[y - 1], sort, dir);
        } else if y == p as int {
            assert(out@[x] == old_out[x]);
            lemma_ranked_props(old_out[x], item, item, sort, dir);
        } else {
            let xo = if x < p { x } else { x - 1 };
            let yo = if y < p { y } else { y - 1 };
            assert(out@[x] == old_out[xo]);
            assert(out@[y] == old_out[yo]);
        }
    }
    p
}

/// The items so far: distinct names, each that of a group among the first
/// `a`, with its sums, and every such group present.
spec fn placed_ok(rs: Seq<PopularRow>, idx: Seq<usize>, cnt: Seq<u64>, unq: Seq<u64>, a: int, out: Seq<RepoPopularItem>) -> bool {
    &&& forall|x: int, y: int| 0 <= x < y < out.len() ==> out[x].name@ != out[y].name@
    &&& forall|x: int|
        0 <= x < out.len() ==> exists|b: int|
            0 <= b < a && (#[trigger] out[x]).name@ == rs[idx[b] as int].name@ && out[x].count == cnt[b]
                && out[x].uniques == unq[b]
    &&& forall|b: int| 0 <= b < a ==> names_item(out, rs[#[trigger] idx[b] as int].name@)
}

proof fn lemma_placed_distinct(
    rs: Seq<PopularRow>,
    since: Option<i64>,
    idx: Seq<usize>,
    cnt: Seq<u64>,
    unq: Seq<u64>,
    a: int,
    out: Seq<RepoPopularItem>,
    p: int,
    item: RepoPopularItem,
)
    requires
        groups_ok(rs, rs.len() as int, since, idx, cnt, unq),
        0 <= a < idx.len(),
        placed_ok(rs, idx, cnt, unq, a, out),
        0 <= p <= out.len(),
        item.name@ == rs[idx[a] as int].name@,
    ensures
        forall|x: int, y: int| 0 <= x < y < out.insert(p, item).len() ==> out.insert(p, item)[x].name@ != out.insert(p, item)[y].name@,
{
    let o2 = out.insert(p, item);
    assert forall|x: int, y: int| 0 <= x < y < o2.len() implies o2[x].name@ != o2[y].name@ by {
        if x == p {
            assert(o2[y] == out[y - 1]);
            let b = choose|b: int| 0 <= b < a && (#[trigger] out[y - 1]).name@ == rs[idx[b] as int].name@ && out[y - 1].count == cnt[b] && out[y - 1].uniques == unq[b];
        } else if y == p {
            assert(o2[x] == out[x]);
            let b = choose|b: int| 0 <= b < a && (#[trigger] out[x]).name@ == rs[idx[b] as int].name@ && out[x].count == cnt[b] && out[x].uniques == unq[b];
        } else {
            let xo = if x < p { x } else { x - 1 };
            let yo = if y < p { y } else { y - 1 };
            assert(o2[x] == out[xo]);
            assert(o2[y] == out[yo]);
        }
    }
}

proof fn lemma_placed_origin(
    rs: Seq<PopularRow>,
    idx: Seq<usize>,
    cnt: Seq<u64>,
    unq: Seq<u64>,
    a: int,
    out: Seq<RepoPopularItem>,
    p: int,
    item: RepoPopularItem,
)
    requires
        0 <= a < idx.len(),
        placed_ok(rs, idx, cnt, unq, a, out),
        0 <= p <= out.len(),
        item.name@ == rs[idx[a] as int].name@,
        item.count == cnt[a],
        item.uniques == unq[a],
    ensures
        forall|x: int|
            0 <= x < out.insert(p, item).len() ==> exists|b: int|
                0 <= b < a + 1 && (#[trigger] out.insert(p, item)[x]).name@ == rs[idx[b] as int].name@
                    && out.insert(p, item)[x].count == cnt[b] && out.insert(p, item)[x].uniques == unq[b],
        forall|b: int| 0 <= b < a + 1 ==> names_item(out.insert(p, item), rs[#[trigger] idx[b] as int].name@),
{
    let o2 = out.insert(p, item);
    assert forall|x: int| 0 <= x < o2.len() implies exists|b: int|
        0 <= b < a + 1 && (#[trigger] o2[x]).name@ == rs[idx[b] as int].name@ && o2[x].count == cnt[b]
            && o2[x].uniques == unq[b] by {
        if x == p {
            assert(o2[x] == item);
        } else {
            let xo = if x < p { x } else { x - 1 };
            assert(o2[x] == out[xo]);
            let b = choose|b: int| 0 <= b < a && (#[trigger] out[xo]).name@ == rs[idx[b] as int].name@ && out[xo].count == cnt[b] && out[xo].uniques == unq[b];
        }
    }
    assert forall|b: int| 0 <= b < a + 1 implies names_item(o2, rs[#[trigger] idx[b] as int].name@) by {
        if b == a {
            assert(o2[p] == item);
        } else {
            assert(names_item(out, rs[idx[b] as int].name@));
            let x = choose|x: int| 0 <= x < out.len() && (#[trigger] out[x]).name@ == rs[idx[b] as int].name@;
            if x < p {
                assert(o2[x] == out[x]);
            } else {
                assert(o2[x + 1] == out[x]);
            }
        }
    }
}

/// Ranks the referrers or paths of one repository: their deltas summed per
/// key over the rows from day `since` on (all rows when `None`).
pub fn get_popular_items(rows: &Vec<PopularRow>, since: Option<i64>, sort: PopularSort, dir: Direction) -> (r: Vec<RepoPopularItem>)
    requires
        rows@.len() <= u32::MAX,
    ensures
        is_listing(rows@, since, sort, dir, r@),
{
    let ghost rs = rows@;
    let (idx, cnt, unq) = group_rows(rows, since);
    let mut out: Vec<RepoPopularItem> = Vec::new();
    let mut a: usize = 0;
    while a < idx.len()
        invariant
            rs == rows@,
            a <= idx@.len(),
            groups_ok(rs, rs.len() as int, since, idx@, cnt@, unq@),
            placed_ok(rs, idx@, cnt@, unq@, a as int, out@),
            ranked(out@, sort, dir),
        decreases idx@.len() - a,
    {
        let item = RepoPopularItem { name: rows[idx[a]].name.clone(), count: cnt[a], uniques: unq[a] };
        let ghost old_out = out@;
        let ghost it = item;
        let p = insert_ranked(&mut out, item, sort, dir);
        proof {
            lemma_placed_distinct(rs, since, idx@, cnt@, unq@, a as int, old_out, p as int, it);
            lemma_placed_origin(rs, idx@, cnt@, unq@, a as int, old_out, p as int, it);
        }
        a = a + 1;
    }
    assert forall|x: int| 0 <= x < out@.len() implies has_key(rs, (#[trigger] out@[x]).name@, since) && out@[x].count == sum_count(rs, out@[x].name@, since) && out@[x].uniques == sum_uniques(rs, out@[x].name@, since) by {
        let b = choose|b: int| 0 <= b < idx@.len() && (#[trigger] out@[x]).name@ == rs[idx@[b] as int].name@ && out@[x].count == cnt@[b] && out@[x].uniques == unq@[b];
        assert(in_window(rs[idx@[b] as int], since));
        assert(rs.subrange(0, rs.len() as int) =~= rs);
    }
    assert forall|k: int| 0 <= k < rs.len() && in_window(#[trigger] rs[k], since) implies exists|x: int| 0 <= x < out@.len() && out@[x].name@ == rs[k].name@ by {
        let b = choose|b: int| 0 <= b < idx@.len() && rs[idx@[b] as int].name@ == rs[k].name@;
        assert(names_item(out@, rs[idx@[b] as int].name@));
        let x = choose|x: int| 0 <= x < out@.len() && (#[trigger] out@[x]).name@ == rs[idx@[b] as int].name@;
    }
    out
}

} // verus!

//! The store's semantics: how daily counters merge, how day-over-day
//! deltas are rebuilt from raw snapshots, and the derived read views.

use vstd::prelude::*;
use crate::model::{Repo, TrafficDaily};

verus! {

/// Which fetch supplies a daily row; each one owns some of its columns.
#[derive(Debug, Clone, Copy, PartialEq, Eq, Structural)]
pub enum StatKind {
    /// Point-in-time counters: stars, forks, watchers, issues, pull requests.
    Stats,
    /// Stars alone, from the star history.
    Stars,
    /// Clone counters.
    Clones,
    /// View counters.
    Views,
}

/// The counters of one repository on one day. An absent row reads as all
/// zeros.
#[derive(Debug, Clone, Copy, PartialEq, Eq, Structural)]
pub struct DailyStat {
    pub stars: u32,
    pub forks: u32,
    pub watchers: u32,
    pub issues: u32,
    pub prs: u32,
    pub clones_count: u32,
    pub clones_uniques: u32,
    pub views_count: u32,
    pub views_uniques: u32,
}

pub open spec fn max_u32(a: u32, b: u32) -> u32 {
    if a >= b { a } else { b }
}

/// One column after a merge: the larger value where the fetch owns the
/// column, the stored value elsewhere.
pub open spec fn merge_col(owned: bool, old: u32, new: u32) -> u32 {
    if owned { max_u32(old, new) } else { old }
}

/// The row after an upsert of `new` by a fetch of kind `kind`.
pub open spec fn merged(old: DailyStat, new: DailyStat, kind: StatKind) -> DailyStat {
    let st = kind == StatKind::Stats;
    DailyStat {
        stars: merge_col(st || kind == StatKind::Stars, old.stars, new.stars),
        forks: merge_col(st, old.forks, new.forks),
        watchers: merge_col(st, old.watchers, new.watchers),
        issues: merge_col(st, old.issues, new.issues),
        prs: merge_col(st, old.prs, new.prs),
        clones_count: merge_col(kind == StatKind::Clones, old.clones_count, new.clones_count),
        clones_uniques: merge_col(kind == StatKind::Clones, old.clones_uniques, new.clones_uniques),
        views_count: merge_col(kind == StatKind::Views, old.views_count, new.views_count),
        views_uniques: merge_col(kind == StatKind::Views, old.views_uniques, new.views_uniques),
    }
}

/// Every column of `a` is at most the same column of `b`.
pub open spec fn stat_le(a: DailyStat, b: DailyStat) -> bool {
    &&& a.stars <= b.stars
    &&& a.forks <= b.forks
    &&& a.watchers <= b.watchers
    &&& a.issues <= b.issues
    &&& a.prs <= b.prs
    &&& a.clones_count <= b.clones_count
    &&& a.clones_uniques <= b.clones_uniques
    &&& a.views_count <= b.views_count
    &&& a.views_uniques <= b.views_uniques
}

/// The merge of two values of one counter: the larger.
pub fn merge_counter(old: u32, new: u32) -> (r: u32)
    ensures
        r == max_u32(old, new),
{
    if old >= new {
        old
    } else {
        new
    }
}

fn merge_column(owned: bool, old: u32, new: u32) -> (r: u32)
    ensures
        r == merge_col(owned, old, new),
{
    if owned {
        merge_counter(old, new)
    } else {
        old
    }
}

impl DailyStat {
    /// The row that a day without data reads as.
    pub fn zero() -> (r: DailyStat)
        ensures
            r == (DailyStat {
                stars: 0,
                forks: 0,
                watchers: 0,
                issues: 0,
                prs: 0,
                clones_count: 0,
                clones_uniques: 0,
                views_count: 0,
                views_uniques: 0,
            }),
    {
        DailyStat {
            stars: 0,
            forks: 0,
            watchers: 0,
            issues: 0,
            prs: 0,
            clones_count: 0,
            clones_uniques: 0,
            views_count: 0,
            views_uniques: 0,
        }
    }

    /// The point-in-time counters of a listed repository with `prs` open
    /// pull requests.
    pub fn from_repo(repo: &Repo, prs: u32) -> (r: DailyStat)
        ensures
            r == (DailyStat {
                stars: repo.stargazers_count,
                forks: repo.forks_count,
                watchers: repo.watchers_count,
                issues: repo.open_issues_count,
                prs,
                ..DailyStat::zero_spec()
            }),
    {
        DailyStat {
            stars: repo.stargazers_count,
            forks: repo.forks_count,
            watchers: repo.watchers_count,
            issues: repo.open_issues_count,
            prs,
            clones_count: 0,
            clones_uniques: 0,
            views_count: 0,
            views_uniques: 0,
        }
    }

    pub open spec fn zero_spec() -> DailyStat {
        DailyStat {
            stars: 0,
            forks: 0,
            watchers: 0,
            issues: 0,
            prs: 0,
            clones_count: 0,
            clones_uniques: 0,
            views_count: 0,
            views_uniques: 0,
        }
    }

    /// The counters of one day of a clone or view breakdown.
    pub fn from_traffic(day: &TrafficDaily, kind: StatKind) -> (r: DailyStat)
        requires
            kind == StatKind::Clones || kind == StatKind::Views,
        ensures
            kind == StatKind::Clones ==> r == (DailyStat {
                clones_count: day.count,
                clones_uniques: day.uniques,
                ..DailyStat::zero_spec()
            }),
            kind == StatKind::Views ==> r == (DailyStat {
                views_count: day.count,
                views_uniques: day.uniques,
                ..DailyStat::zero_spec()
            }),
    {
        let mut r = DailyStat::zero();
        if kind == StatKind::Clones {
            r.clones_count = day.count;
            r.clones_uniques = day.uniques;
        } else {
            r.views_count = day.count;
            r.views_uniques = day.uniques;
        }
        r
    }

    /// A day of the star history: the running total.
    pub fn from_stars(stars: u32) -> (r: DailyStat)
        ensures
            r == (DailyStat { stars, ..DailyStat::zero_spec() }),
    {
        let mut r = DailyStat::zero();
        r.stars = stars;
        r
    }

    /// Upserts `new` into the stored row: each column that the fetch owns
    /// becomes the larger of the two values, the others stay.
    pub fn merge(&self, new: &DailyStat, kind: StatKind) -> (r: DailyStat)
        ensures
            r == merged(*self, *new, kind),
    {
        let st = kind == StatKind::Stats;
        let clones = kind == StatKind::Clones;
        let views = kind == StatKind::Views;
        DailyStat {
            stars: merge_column(st || kind == StatKind::Stars, self.stars, new.stars),
            forks: merge_column(st, self.forks, new.forks),
            watchers: merge_column(st, self.watchers, new.watchers),
            issues: merge_column(st, self.issues, new.issues),
            prs: merge_column(st, self.prs, new.prs),
            clones_count: merge_column(clones, self.clones_count, new.clones_count),
            clones_uniques: merge_column(clones, self.clones_uniques, new.clones_uniques),
            views_count: merge_column(views, self.views_count, new.views_count),
            views_uniques: merge_column(views, self.views_uniques, new.views_uniques),
        }
    }
}

/// Upserting the same values twice gives the same row as upserting them
/// once, and a later upsert of values no larger changes nothing.
pub proof fn lemma_merge_idempotent(old: DailyStat, new: DailyStat, lower: DailyStat, kind: StatKind)
    requires
        stat_le(lower, new),
    ensures
        merged(merged(old, new, kind), new, kind) == merged(old, new, kind),
        merged(merged(old, new, kind), lower, kind) == merged(old, new, kind),
{
}

/// A merge never lowers a column.
pub proof fn lemma_merge_monotonic(old: DailyStat, new: DailyStat, kind: StatKind)
    ensures
        stat_le(old, merged(old, new, kind)),
{
}

/// Upserts of different fetches into one row commute: neither clobbers
/// the columns of the other.
pub proof fn lemma_merge_commutes(old: DailyStat, a: DailyStat, ka: StatKind, b: DailyStat, kb: StatKind)
    ensures
        merged(merged(old, a, ka), b, kb) == merged(merged(old, b, kb), a, ka),
{
}

/// One stored snapshot of a referrer or a popular path: the raw counters
/// the remote API reported on `date`, and the deltas derived from them.
#[derive(Debug, Clone)]
pub struct PopularRow {
    pub repo_id: u64,
    pub date: i64,
    pub name: String,
    pub count: u32,
    pub uniques: u32,
    pub count_delta: u32,
    pub uniques_delta: u32,
}

/// The two rows belong to the series of one key of one repository.
pub open spec fn same_series(a: PopularRow, b: PopularRow) -> bool {
    a.repo_id == b.repo_id && a.name@ == b.name@
}

/// Row `k` is an earlier snapshot of the series of row `i`.
pub open spec fn earlier(rows: Seq<PopularRow>, i: int, k: int) -> bool {
    0 <= k < rows.len() && same_series(rows[k], rows[i]) && rows[k].date < rows[i].date
}

/// Row `j` is the latest snapshot before row `i` in its series.
pub open spec fn is_pred(rows: Seq<PopularRow>, i: int, j: int) -> bool {
    &&& earlier(rows, i, j)
    &&& forall|k: int| #[trigger] earlier(rows, i, k) ==> rows[k].date <= rows[j].date
}

/// `a - b`, floored at zero.
pub open spec fn clamp_sub(a: u32, b: u32) -> u32 {
    if a > b { (a - b) as u32 } else { 0 }
}

/// The deltas of row `i`: the increase over the latest earlier snapshot
/// of its series, floored at zero, or the raw counters when there is none.
pub open spec fn deltas_of(rows: Seq<PopularRow>, i: int, d: (u32, u32)) -> bool {
    &&& (forall|k: int| !#[trigger] earlier(rows, i, k)) ==> d == (rows[i].count, rows[i].uniques)
    &&& (exists|k: int| #[trigger] earlier(rows, i, k)) ==> exists|j: int|
        #[trigger] is_pred(rows, i, j) && d == (
            clamp_sub(rows[i].count, rows[j].count),
            clamp_sub(rows[i].uniques, rows[j].uniques),
        )
}

fn sub_floor(a: u32, b: u32) -> (r: u32)
    ensures
        r == clamp_sub(a, b),
{
    if a > b {
        a - b
    } else {
        0
    }
}

/// Rebuilds the deltas of every row from the raw counters alone: for each
/// row, the pair `(count_delta, uniques_delta)`.
pub fn compute_deltas(rows: &Vec<PopularRow>) -> (r: Vec<(u32, u32)>)
    ensures
        r@.len() == rows@.len(),
        forall|i: int| 0 <= i < rows@.len() ==> deltas_of(rows@, i, #[trigger] r@[i]),
{
    let mut out: Vec<(u32, u32)> = Vec::new();
    let mut i: usize = 0;
    while i < rows.len()
        invariant
            i <= rows@.len(),
            out@.len() == i,
            forall|k: int| 0 <= k < i ==> deltas_of(rows@, k, #[trigger] out@[k]),
        decreases rows@.len() - i,
    {
        let mut best: Option<usize> = None;
        let mut j: usize = 0;
        while j < rows.len()
            invariant
                i < rows@.len(),
                j <= rows@.len(),
                best is None ==> forall|k: int| 0 <= k < j ==> !#[trigger] earlier(rows@, i as int, k),
                best matches Some(b) ==> b < j && earlier(rows@, i as int, b as int) && forall|k: int|
                    0 <= k < j && #[trigger] earlier(rows@, i as int, k) ==> rows@[k].date
                        <= rows@[b as int].date,
            decreases rows@.len() - j,
        {
            let a = &rows[j];
            let c = &rows[i];
            if a.repo_id == c.repo_id && a.date < c.date && a.name == c.name {
                match best {
                    None => {
                        best = Some(j);
                    },
                    Some(b) => {
                        if rows[b].date < a.date {
                            best = Some(j);
                        }
                    },
                }
            }
            j = j + 1;
        }
        let c = &rows[i];
        let d = match best {
            None => (c.count, c.uniques),
            Some(b) => (sub_floor(c.count, rows[b].count), sub_floor(c.uniques, rows[b].uniques)),
        };
        proof {
            match best {
                None => {},
                Some(b) => {
                    assert(is_pred(rows@, i as int, b as int));
                },
            }
        }
        out.push(d);
        i = i + 1;
    }
    out
}

/// The two row lists hold the same raw snapshots; their stored deltas may
/// differ.
pub open spec fn same_raw(a: Seq<PopularRow>, b: Seq<PopularRow>) -> bool {
    &&& a.len() == b.len()
    &&& forall|i: int|
        0 <= i < a.len() ==> same_series(#[trigger] a[i], b[i]) && a[i].date == b[i].date
            && a[i].count == b[i].count && a[i].uniques == b[i].uniques
}

/// The deltas are a function of the raw snapshots alone: whatever deltas
/// were stored before, rebuilding them gives the same values.
pub proof fn lemma_deltas_from_raw_only(a: Seq<PopularRow>, b: Seq<PopularRow>, i: int, d: (u32, u32))
    requires
        same_raw(a, b),
        0 <= i < a.len(),
    ensures
        deltas_of(a, i, d) == deltas_of(b, i, d),
{
    assert forall|k: int| #[trigger] earlier(a, i, k) == earlier(b, i, k) by {
        if 0 <= k < a.len() {
            assert(same_series(a[k], b[k]));
            assert(same_series(a[i], b[i]));
        }
    }
    assert forall|j: int| #[trigger] is_pred(a, i, j) == is_pred(b, i, j) by {
        if 0 <= j < a.len() {
            assert(same_series(a[j], b[j]));
            if is_pred(a, i, j) {
                assert forall|k: int| #[trigger] earlier(b, i, k) implies b[k].date <= b[j].date by {
                    assert(earlier(a, i, k));
                }
            }
            if is_pred(b, i, j) {
                assert forall|k: int| #[trigger] earlier(a, i, k) implies a[k].date <= a[j].date by {
                    assert(earlier(b, i, k));
                }
            }
        }
    }
    if (exists|k: int| #[trigger] earlier(a, i, k)) {
        let k = choose|k: int| #[trigger] earlier(a, i, k);
        assert(earlier(b, i, k));
    }
    if (exists|k: int| #[trigger] earlier(b, i, k)) {
        let k = choose|k: int| #[trigger] earlier(b, i, k);
        assert(earlier(a, i, k));
    }
    if (exists|j: int| #[trigger] is_pred(a, i, j) && d == (
        clamp_sub(a[i].count, a[j].count),
        clamp_sub(a[i].uniques, a[j].uniques),
    )) {
        let j = choose|j: int| #[trigger] is_pred(a, i, j) && d == (
            clamp_sub(a[i].count, a[j].count),
            clamp_sub(a[i].uniques, a[j].uniques),
        );
        assert(is_pred(b, i, j));
    }
    if (exists|j: int| #[trigger] is_pred(b, i, j) && d == (
        clamp_sub(b[i].count, b[j].count),
        clamp_sub(b[i].uniques, b[j].uniques),
    )) {
        let j = choose|j: int| #[trigger] is_pred(b, i, j) && d == (
            clamp_sub(b[i].count, b[j].count),
            clamp_sub(b[i].uniques, b[j].uniques),
        );
        assert(is_pred(a, i, j));
    }
}

/// For a series stored in strictly increasing date order, the delta of
/// each snapshot is its increase over the one before it, and the first
/// snapshot has no predecessor.
pub proof fn lemma_sorted_series_deltas(rows: Seq<PopularRow>)
    requires
        forall|a: int, b: int| 0 <= a < rows.len() && 0 <= b < rows.len() ==> same_series(
            #[trigger] rows[a],
            #[trigger] rows[b],
        ),
        forall|a: int, b: int| 0 <= a < b < rows.len() ==> #[trigger] rows[a].date < #[trigger] rows[b].date,
    ensures
        rows.len() > 0 ==> forall|k: int| !#[trigger] earlier(rows, 0, k),
        forall|i: int| 0 < i < rows.len() ==> #[trigger] is_pred(rows, i, i - 1),
{
    assert forall|i: int| 0 < i < rows.len() implies #[trigger] is_pred(rows, i, i - 1) by {
        assert(same_series(rows[i - 1], rows[i]));
        assert forall|k: int| #[trigger] earlier(rows, i, k) implies rows[k].date <= rows[i - 1].date by {
            if k > i - 1 {
                if k > i {
                    assert(rows[i].date < rows[k].date);
                }
            } else if k < i - 1 {
                assert(rows[k].date < rows[i - 1].date);
            }
        }
    }
    if rows.len() > 0 {
        assert forall|k: int| !#[trigger] earlier(rows, 0, k) by {
            if 0 < k < rows.len() {
                assert(rows[0].date < rows[k].date);
            }
        }
    }
}

/// A stored daily row of one repository.
#[derive(Debug, Clone, Copy, PartialEq, Eq, Structural)]
pub struct StatRow {
    pub date: i64,
    pub stat: DailyStat,
}

/// The sum of one column over the rows.
pub open spec fn sum_col(rows: Seq<StatRow>, col: spec_fn(DailyStat) -> u32) -> nat
    decreases rows.len(),
{
    if rows.len() == 0 {
        0
    } else {
        sum_col(rows.drop_last(), col) + col(rows.last().stat) as nat
    }
}

/// Row `k` carries the latest date of all rows.
pub open spec fn is_latest(rows: Seq<StatRow>, k: int) -> bool {
    0 <= k < rows.len() && forall|m: int| 0 <= m < rows.len() ==> rows[m].date <= rows[k].date
}

/// The totals of a repository: its traffic summed over its whole history
/// and the point-in-time counters of its latest day.
#[derive(Debug, Clone)]
pub struct RepoTotals {
    pub id: u64,
    pub name: String,
    pub description: Option<String>,
    pub fork: bool,
    pub archived: bool,
    pub date: i64,
    pub stars: u32,
    pub forks: u32,
    pub watchers: u32,
    pub issues: u32,
    pub prs: u32,
    pub clones_count: u64,
    pub clones_uniques: u64,
    pub views_count: u64,
    pub views_uniques: u64,
}

pub open spec fn col_clones_count() -> spec_fn(DailyStat) -> u32 {
    |d: DailyStat| d.clones_count
}

pub open spec fn col_clones_uniques() -> spec_fn(DailyStat) -> u32 {
    |d: DailyStat| d.clones_uniques
}

pub open spec fn col_views_count() -> spec_fn(DailyStat) -> u32 {
    |d: DailyStat| d.views_count
}

pub open spec fn col_views_uniques() -> spec_fn(DailyStat) -> u32 {
    |d: DailyStat| d.views_uniques
}

/// The totals that `t` reports agree with the rows of its repository.
pub open spec fn totals_of(rows: Seq<StatRow>, t: RepoTotals) -> bool {
    &&& t.clones_count == sum_col(rows, col_clones_count())
    &&& t.clones_uniques == sum_col(rows, col_clones_uniques())
    &&& t.views_count == sum_col(rows, col_views_count())
    &&& t.views_uniques == sum_col(rows, col_views_uniques())
    &&& exists|k: int|
        #[trigger] is_latest(rows, k) && t.date == rows[k].date && t.stars == rows[k].stat.stars
            && t.forks == rows[k].stat.forks && t.watchers == rows[k].stat.watchers && t.issues
            == rows[k].stat.issues && t.prs == rows[k].stat.prs
}

proof fn lemma_sum_step(rows: Seq<StatRow>, i: int, col: spec_fn(DailyStat) -> u32)
    requires
        0 <= i < rows.len(),
    ensures
        sum_col(rows.subrange(0, i + 1), col) == sum_col(rows.subrange(0, i), col) + col(
            rows[i].stat,
        ) as nat,
{
    assert(rows.subrange(0, i + 1).drop_last() =~= rows.subrange(0, i));
}

impl RepoTotals {
    /// The totals of the repository `id` from its daily rows; `None` when
    /// it has none.
    pub fn from_rows(
        id: u64,
        name: String,
        description: Option<String>,
        fork: bool,
        archived: bool,
        rows: &Vec<StatRow>,
    ) -> (r: Option<RepoTotals>)
        requires
            rows@.len() <= u32::MAX,
        ensures
            rows@.len() == 0 <==> r is None,
            r matches Some(t) ==> t.id == id && t.name == name && t.description == description
                && t.fork == fork && t.archived == archived && totals_of(rows@, t),
    {
        if rows.len() == 0 {
            return None;
        }
        let mut cc: u64 = 0;
        let mut cu: u64 = 0;
        let mut vc: u64 = 0;
        let mut vu: u64 = 0;
        let mut last: usize = 0;
        let mut i: usize = 0;
        while i < rows.len()
            invariant
                0 < rows@.len() <= u32::MAX,
                i <= rows@.len(),
                last < rows@.len(),
                last <= i,
                forall|m: int| 0 <= m < i ==> rows@[m].date <= rows@[last as int].date,
                cc == sum_col(rows@.subrange(0, i as int), col_clones_count()),
                cu == sum_col(rows@.subrange(0, i as int), col_clones_uniques()),
                vc == sum_col(rows@.subrange(0, i as int), col_views_count()),
                vu == sum_col(rows@.subrange(0, i as int), col_views_uniques()),
                cc <= i * 0xFFFF_FFFFu64,
                cu <= i * 0xFFFF_FFFFu64,
                vc <= i * 0xFFFF_FFFFu64,
                vu <= i * 0xFFFF_FFFFu64,
            decreases rows@.len() - i,
        {
            let row = rows[i];
            proof {
                lemma_sum_step(rows@, i as int, col_clones_count());
                lemma_sum_step(rows@, i as int, col_clones_uniques());
                lemma_sum_step(rows@, i as int, col_views_count());
                lemma_sum_step(rows@, i as int, col_views_uniques());
                assert((i + 1) * 0xFFFF_FFFFu64 <= 0x1_0000_0000u64 * 0xFFFF_FFFFu64) by (nonlinear_arith)
                    requires i + 1 <= 0x1_0000_0000u64;
                assert((i + 1) * 0xFFFF_FFFFu64 == i * 0xFFFF_FFFFu64 + 0xFFFF_FFFFu64) by (nonlinear_arith);
            }
            cc = cc + row.stat.clones_count as u64;
            cu = cu + row.stat.clones_uniques as u64;
            vc = vc + row.stat.views_count as u64;
            vu = vu + row.stat.views_uniques as u64;
            if rows[last].date < row.date {
                last = i;
            }
            i = i + 1;
        }
        assert(rows@.subrange(0, rows@.len() as int) =~= rows@);
        let l = rows[last];
        let t = RepoTotals {
            id,
            name,
            description,
            fork,
            archived,
            date: l.date,
            stars: l.stat.stars,
            forks: l.stat.forks,
            watchers: l.stat.watchers,
            issues: l.stat.issues,
            prs: l.stat.prs,
            clones_count: cc,
            clones_uniques: cu,
            views_count: vc,
            views_uniques: vu,
        };
        assert(is_latest(rows@, last as int));
        Some(t)
    }
}

/// The traffic of one day.
#[derive(Debug, Clone, Copy, PartialEq, Eq, Structural)]
pub struct RepoMetrics {
    pub date: i64,
    pub clones_count: u32,
    pub clones_uniques: u32,
    pub views_count: u32,
    pub views_uniques: u32,
}

pub open spec fn metrics_row(r: StatRow) -> RepoMetrics {
    RepoMetrics {
        date: r.date,
        clones_count: r.stat.clones_count,
        clones_uniques: r.stat.clones_uniques,
        views_count: r.stat.views_count,
        views_uniques: r.stat.views_uniques,
    }
}

/// The days with any traffic, in the order of the rows.
pub open spec fn metrics_spec(rows: Seq<StatRow>) -> Seq<RepoMetrics>
    decreases rows.len(),
{
    if rows.len() == 0 {
        Seq::empty()
    } else {
        let pre = metrics_spec(rows.drop_last());
        let r = rows.last();
        if r.stat.clones_count > 0 || r.stat.views_count > 0 {
            pre.push(metrics_row(r))
        } else {
            pre
        }
    }
}

/// The traffic series of a repository: the rows with clones or views.
pub fn metrics_of(rows: &Vec<StatRow>) -> (r: Vec<RepoMetrics>)
    ensures
        r@ == metrics_spec(rows@),
{
    let mut out: Vec<RepoMetrics> = Vec::new();
    let mut i: usize = 0;
    while i < rows.len()
        invariant
            i <= rows@.len(),
            out@ == metrics_spec(rows@.subrange(0, i as int)),
        decreases rows@.len() - i,
    {
        assert(rows@.subrange(0, i + 1).drop_last() =~= rows@.subrange(0, i as int));
        let r = rows[i];
        if r.stat.clones_count > 0 || r.stat.views_count > 0 {
            out.push(
                RepoMetrics {
                    date: r.date,
                    clones_count: r.stat.clones_count,
                    clones_uniques: r.stat.clones_uniques,
                    views_count: r.stat.views_count,
                    views_uniques: r.stat.views_uniques,
                },
            );
        }
        i = i + 1;
    }
    assert(rows@.subrange(0, rows@.len() as int) =~= rows@);
    out
}

/// The star count of one day.
#[derive(Debug, Clone, Copy, PartialEq, Eq, Structural)]
pub struct RepoStars {
    pub date: i64,
    pub stars: u32,
}

/// The series with every zero after the first row replaced by the value
/// before it.
pub open spec fn forward_filled(s: Seq<RepoStars>) -> Seq<RepoStars>
    decreases s.len(),
{
    if s.len() <= 1 {
        s
    } else {
        let pre = forward_filled(s.drop_last());
        let x = s.last();
        if x.stars == 0 {
            pre.push(RepoStars { date: x.date, stars: pre.last().stars })
        } else {
            pre.push(x)
        }
    }
}

/// The rows with a positive star count, in order.
pub open spec fn positive_only(s: Seq<RepoStars>) -> Seq<RepoStars>
    decreases s.len(),
{
    if s.len() == 0 {
        s
    } else {
        let pre = positive_only(s.drop_last());
        if s.last().stars > 0 {
            pre.push(s.last())
        } else {
            pre
        }
    }
}

proof fn lemma_forward_filled_len(s: Seq<RepoStars>)
    ensures
        forward_filled(s).len() == s.len(),
    decreases s.len(),
{
    if s.len() > 1 {
        lemma_forward_filled_len(s.drop_last());
    }
}

/// The star series for display: gaps where no stars were collected are
/// filled with the value before them, and rows still without stars are
/// dropped.
pub fn fill_star_gaps(rows: &Vec<RepoStars>) -> (r: Vec<RepoStars>)
    ensures
        r@ == positive_only(forward_filled(rows@)),
{
    let mut filled: Vec<RepoStars> = Vec::new();
    let mut i: usize = 0;
    while i < rows.len()
        invariant
            i <= rows@.len(),
            filled@ == forward_filled(rows@.subrange(0, i as int)),
        decreases rows@.len() - i,
    {
        let ghost pre = rows@.subrange(0, i as int);
        assert(rows@.subrange(0, i + 1).drop_last() =~= pre);
        proof {
            lemma_forward_filled_len(pre);
        }
        let x = rows[i];
        if i > 0 && x.stars == 0 {
            let prev = filled[i - 1].stars;
            filled.push(RepoStars { date: x.date, stars: prev });
        } else {
            filled.push(x);
        }
        if i == 0 {
            assert(rows@.subrange(0, 1) =~= seq![x]);
            assert(filled@ =~= seq![x]);
        }
        i = i + 1;
    }
    assert(rows@.subrange(0, rows@.len() as int) =~= rows@);
    let mut out: Vec<RepoStars> = Vec::new();
    let mut k: usize = 0;
    while k < filled.len()
        invariant
            k <= filled@.len(),
            out@ == positive_only(filled@.subrange(0, k as int)),
        decreases filled@.len() - k,
    {
        assert(filled@.subrange(0, k + 1).drop_last() =~= filled@.subrange(0, k as int));
        if filled[k].stars > 0 {
            out.push(filled[k]);
        }
        k = k + 1;
    }
    assert(filled@.subrange(0, filled@.len() as int) =~= filled@);
    out
}

} // verus!

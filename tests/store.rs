use ghstats::model::{Repo, TrafficDaily};
use ghstats::store::{
  compute_deltas, fill_star_gaps, merge_counter, metrics_of, DailyStat, PopularRow, RepoStars,
  RepoTotals, StatKind, StatRow,
};

fn row(repo_id: u64, date: i64, name: &str, count: u32, uniques: u32) -> PopularRow {
  PopularRow {
    repo_id,
    date,
    name: name.to_string(),
    count,
    uniques,
    count_delta: 0,
    uniques_delta: 0,
  }
}

fn repo() -> Repo {
  Repo {
    id: 7,
    full_name: "foo/bar".to_string(),
    description: None,
    stargazers_count: 12,
    forks_count: 3,
    watchers_count: 4,
    open_issues_count: 5,
    fork: false,
    archived: false,
  }
}

#[test]
fn merge_keeps_the_larger_value() {
  assert_eq!(merge_counter(10, 7), 10);
  assert_eq!(merge_counter(7, 10), 10);
  assert_eq!(merge_counter(0, 0), 0);
}

#[test]
fn merge_twice_is_merge_once() {
  let new = DailyStat::from_repo(&repo(), 2);
  let once = DailyStat::zero().merge(&new, StatKind::Stats);
  let twice = once.merge(&new, StatKind::Stats);
  assert_eq!(once, twice);
  assert_eq!(once.stars, 12);
  assert_eq!(once.prs, 2);
  let mut lower = new;
  lower.stars = 7;
  lower.forks = 1;
  assert_eq!(twice.merge(&lower, StatKind::Stats), once);
}

#[test]
fn fetches_do_not_clobber_each_other() {
  let stats = DailyStat::from_repo(&repo(), 2);
  let day = TrafficDaily { timestamp: "2024-01-01T00:00:00Z".to_string(), uniques: 3, count: 9 };
  let views = DailyStat::from_traffic(&day, StatKind::Views);
  let clones = DailyStat::from_traffic(&day, StatKind::Clones);
  let a = DailyStat::zero().merge(&stats, StatKind::Stats).merge(&views, StatKind::Views);
  let b = DailyStat::zero().merge(&views, StatKind::Views).merge(&stats, StatKind::Stats);
  assert_eq!(a, b);
  assert_eq!(a.views_count, 9);
  assert_eq!(a.views_uniques, 3);
  assert_eq!(a.clones_count, 0);
  assert_eq!(a.stars, 12);
  let c = a.merge(&clones, StatKind::Clones);
  assert_eq!(c.clones_count, 9);
  assert_eq!(c.views_count, 9);
  let s = c.merge(&DailyStat::from_stars(40), StatKind::Stars);
  assert_eq!(s.stars, 40);
  assert_eq!(s.forks, 3);
}

#[test]
fn deltas_floor_resets_at_zero() {
  let rows = vec![
    row(1, 10, "google.com", 50, 5),
    row(1, 11, "google.com", 80, 8),
    row(1, 12, "google.com", 60, 9),
    row(1, 13, "google.com", 90, 2),
  ];
  let d = compute_deltas(&rows);
  let counts: Vec<u32> = d.iter().map(|x| x.0).collect();
  let uniques: Vec<u32> = d.iter().map(|x| x.1).collect();
  assert_eq!(counts, vec![50, 30, 0, 30]);
  assert_eq!(uniques, vec![5, 3, 1, 0]);
}

#[test]
fn deltas_follow_each_series_in_date_order() {
  let rows = vec![
    row(1, 13, "a", 90, 1),
    row(2, 11, "a", 70, 1),
    row(1, 10, "a", 50, 1),
    row(1, 11, "b", 20, 2),
    row(1, 11, "a", 80, 1),
    row(1, 12, "b", 25, 4),
  ];
  let d = compute_deltas(&rows);
  assert_eq!(d, vec![(10, 0), (70, 1), (50, 1), (20, 2), (30, 0), (5, 2)]);
}

#[test]
fn deltas_of_no_rows() {
  assert!(compute_deltas(&vec![]).is_empty());
}

fn stars(v: &[u32]) -> Vec<RepoStars> {
  v.iter().enumerate().map(|(i, s)| RepoStars { date: i as i64, stars: *s }).collect()
}

#[test]
fn star_gaps_filled_then_dropped() {
  let out = fill_star_gaps(&stars(&[0, 5, 0, 8]));
  let vals: Vec<u32> = out.iter().map(|x| x.stars).collect();
  let dates: Vec<i64> = out.iter().map(|x| x.date).collect();
  assert_eq!(vals, vec![5, 5, 8]);
  assert_eq!(dates, vec![1, 2, 3]);
}

#[test]
fn star_gaps_use_the_value_before() {
  let out = fill_star_gaps(&stars(&[5, 0, 0, 8, 0]));
  let vals: Vec<u32> = out.iter().map(|x| x.stars).collect();
  assert_eq!(vals, vec![5, 5, 5, 8, 8]);
  assert!(fill_star_gaps(&stars(&[0, 0])).is_empty());
  assert!(fill_star_gaps(&vec![]).is_empty());
}

fn stat_row(date: i64, stars: u32, clones: u32, views: u32) -> StatRow {
  let mut stat = DailyStat::zero();
  stat.stars = stars;
  stat.forks = stars / 2;
  stat.clones_count = clones;
  stat.clones_uniques = clones / 2;
  stat.views_count = views;
  stat.views_uniques = views / 3;
  StatRow { date, stat }
}

#[test]
fn totals_sum_traffic_and_take_the_latest_day() {
  let rows = vec![stat_row(3, 10, 4, 9), stat_row(5, 12, 0, 3), stat_row(4, 11, 6, 0)];
  let t = RepoTotals::from_rows(7, "foo/bar".to_string(), None, false, true, &rows).unwrap();
  assert_eq!(t.id, 7);
  assert_eq!(t.name, "foo/bar");
  assert!(t.archived);
  assert_eq!(t.date, 5);
  assert_eq!(t.stars, 12);
  assert_eq!(t.forks, 6);
  assert_eq!(t.clones_count, 10);
  assert_eq!(t.clones_uniques, 5);
  assert_eq!(t.views_count, 12);
  assert_eq!(t.views_uniques, 4);
}

#[test]
fn totals_of_unknown_repository() {
  assert!(RepoTotals::from_rows(1, "a/b".to_string(), None, false, false, &vec![]).is_none());
}

#[test]
fn metrics_keep_days_with_traffic() {
  let rows = vec![stat_row(1, 10, 0, 0), stat_row(2, 10, 1, 0), stat_row(3, 10, 0, 2)];
  let m = metrics_of(&rows);
  let dates: Vec<i64> = m.iter().map(|x| x.date).collect();
  assert_eq!(dates, vec![2, 3]);
  assert_eq!(m[1].views_count, 2);
}

#[test]
fn deltas_ignore_what_was_stored_before() {
  let mut rows = vec![row(1, 10, "a", 50, 5), row(1, 11, "a", 80, 8), row(1, 12, "a", 60, 9)];
  let fresh = compute_deltas(&rows);
  rows[1].count_delta = 999;
  rows[2].uniques_delta = 7;
  assert_eq!(compute_deltas(&rows), fresh);
  assert_eq!(fresh, vec![(50, 5), (30, 3), (0, 1)]);
}

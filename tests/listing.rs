use ghstats::filter::GhsFilter;
use ghstats::listing::{filter_totals, sort_totals, ReposList};
use ghstats::query::{Direction, RepoFilter, RepoSort};
use ghstats::store::RepoTotals;

fn totals(name: &str, stars: u32, views: u64, fork: bool) -> RepoTotals {
  RepoTotals {
    id: stars as u64,
    name: name.to_string(),
    description: None,
    fork,
    archived: false,
    date: 0,
    stars,
    forks: 1,
    watchers: 0,
    issues: 0,
    prs: 0,
    clones_count: 2,
    clones_uniques: 0,
    views_count: views,
    views_uniques: 0,
  }
}

fn names(v: &[RepoTotals]) -> Vec<&str> {
  v.iter().map(|x| x.name.as_str()).collect()
}

#[test]
fn list_sorted_by_column() {
  let items = vec![totals("b/b", 3, 10, false), totals("a/a", 9, 5, false), totals("c/c", 1, 7, false)];
  let v = sort_totals(items.clone(), RepoFilter::default());
  assert_eq!(names(&v), vec!["b/b", "c/c", "a/a"]);
  let v = sort_totals(items.clone(), RepoFilter { sort: RepoSort::Name, direction: Direction::Asc });
  assert_eq!(names(&v), vec!["a/a", "b/b", "c/c"]);
  let v = sort_totals(items, RepoFilter { sort: RepoSort::Stars, direction: Direction::Asc });
  assert_eq!(names(&v), vec!["c/c", "b/b", "a/a"]);
}

#[test]
fn list_filtered_and_summed() {
  let f = GhsFilter::new("!fork");
  let items = vec![totals("b/b", 3, 10, false), totals("a/a", 9, 5, true), totals("c/c", 1, 7, false)];
  let v = filter_totals(&f, items);
  assert_eq!(names(&v), vec!["b/b", "c/c"]);
  let l = ReposList::new(v);
  assert_eq!(l.total_count, 2);
  assert_eq!(l.total_stars, 4);
  assert_eq!(l.total_forks, 2);
  assert_eq!(l.total_views, 17);
  assert_eq!(l.total_clones, 4);
}

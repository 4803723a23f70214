use ghstats::popular::{get_popular_items, lex_compare};
use ghstats::query::{Direction, PopularFilter, PopularSort};
use ghstats::store::PopularRow;

fn row(date: i64, name: &str, count_delta: u32, uniques_delta: u32) -> PopularRow {
  PopularRow {
    repo_id: 1,
    date,
    name: name.to_string(),
    count: 0,
    uniques: 0,
    count_delta,
    uniques_delta,
  }
}

fn rows() -> Vec<PopularRow> {
  vec![
    row(1, "b.com", 5, 1),
    row(2, "a.com", 3, 3),
    row(3, "b.com", 4, 1),
    row(3, "c.com", 1, 7),
    row(9, "a.com", 2, 1),
  ]
}

fn names(v: &[ghstats::popular::RepoPopularItem]) -> Vec<&str> {
  v.iter().map(|x| x.name.as_str()).collect()
}

#[test]
fn items_summed_and_ranked_by_count() {
  let v = get_popular_items(&rows(), None, PopularSort::Count, Direction::Desc);
  assert_eq!(names(&v), vec!["b.com", "a.com", "c.com"]);
  assert_eq!((v[0].count, v[0].uniques), (9, 2));
  assert_eq!((v[1].count, v[1].uniques), (5, 4));
}

#[test]
fn items_ranked_by_name_and_uniques() {
  let v = get_popular_items(&rows(), None, PopularSort::Name, Direction::Asc);
  assert_eq!(names(&v), vec!["a.com", "b.com", "c.com"]);
  let v = get_popular_items(&rows(), None, PopularSort::Uniques, Direction::Desc);
  assert_eq!(names(&v), vec!["c.com", "a.com", "b.com"]);
}

#[test]
fn items_within_period() {
  let f = PopularFilter { sort: PopularSort::Count, direction: Direction::Asc, period: 7 };
  let since = f.since(10);
  assert_eq!(since, Some(3));
  let v = get_popular_items(&rows(), since, f.sort, f.direction);
  assert_eq!(names(&v), vec!["c.com", "a.com", "b.com"]);
  assert_eq!(v[1].count, 2);
  assert_eq!(PopularFilter::default().since(10), None);
}

#[test]
fn text_order() {
  assert_eq!(lex_compare("a", "b"), -1);
  assert_eq!(lex_compare("b", "a"), 1);
  assert_eq!(lex_compare("ab", "a"), 1);
  assert_eq!(lex_compare("", ""), 0);
}

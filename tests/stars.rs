use ghstats::stars::get_stars_history;

#[test]
fn history_buckets_and_accumulates() {
  let days = vec![20, 18, 20, 18, 25, 20];
  let h = get_stars_history(&days);
  assert_eq!(h, vec![(18, 2, 2), (20, 5, 3), (25, 6, 1)]);
}

#[test]
fn history_of_no_stars() {
  assert!(get_stars_history(&vec![]).is_empty());
}

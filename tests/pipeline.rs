use ghstats::filter::GhsFilter;
use ghstats::model::{Repo, RepoItem};
use ghstats::pipeline::{hidden_ids, select_repos, IngestRun, IngestStep, StarSync};

fn repo(id: u64, name: &str, fork: bool) -> Repo {
  Repo {
    id,
    full_name: name.to_string(),
    description: None,
    stargazers_count: 0,
    forks_count: 0,
    watchers_count: 0,
    open_issues_count: 0,
    fork,
    archived: false,
  }
}

#[test]
fn one_failure_does_not_stop_the_run() {
  let mut run = IngestRun::new(3);
  let outcomes = [true, false, true];
  let mut seen = vec![];
  while let IngestStep::FetchRepo(i) = run.step() {
    seen.push(i);
    run.on_repo(outcomes[i]);
  }
  assert_eq!(seen, vec![0, 1, 2]);
  assert_eq!(run.stored, vec![0, 2]);
  assert_eq!(run.failed, vec![1]);
  assert_eq!(run.step(), IngestStep::UpdateDeltas);
  run.on_deltas();
  assert_eq!(run.step(), IngestStep::SyncStars);
  run.on_sync();
  assert_eq!(run.step(), IngestStep::Done);
}

#[test]
fn empty_run_goes_straight_to_deltas() {
  let run = IngestRun::new(0);
  assert_eq!(run.step(), IngestStep::UpdateDeltas);
}

#[test]
fn filter_selects_repositories() {
  let f = GhsFilter::new("!fork,abc/*");
  let repos = vec![repo(1, "abc/x", false), repo(2, "abc/y", true), repo(3, "def/z", false)];
  assert_eq!(select_repos(&f, &repos), vec![0]);
}

#[test]
fn vanished_repositories_are_hidden() {
  let repos = vec![repo(1, "a/a", false), repo(3, "a/c", false)];
  assert_eq!(hidden_ids(&vec![1, 2, 3, 4], &repos), vec![2, 4]);
  assert!(hidden_ids(&vec![], &repos).is_empty());
}

#[test]
fn star_sync_stops_past_the_budget() {
  let mut s = StarSync::new();
  assert!(s.on_synced(99_901));
  assert_eq!(s.pages, 1000);
  assert!(!s.on_synced(1));
  assert_eq!(s.pages, 1001);
  assert!(s.stopped);
}

#[test]
fn star_sync_counts_pages() {
  let mut s = StarSync::new();
  assert!(s.on_synced(0));
  assert_eq!(s.pages, 0);
  assert!(s.on_synced(101));
  assert_eq!(s.pages, 2);
  s.on_failure();
  assert!(s.stopped);
}

#[test]
fn pending_repositories() {
  let items = vec![
    RepoItem { id: 1, name: "a/a".to_string(), archived: false, stars_synced: true },
    RepoItem { id: 2, name: "a/b".to_string(), archived: false, stars_synced: false },
  ];
  assert_eq!(StarSync::pending(&items), vec![2]);
}

use ghstats::query::{Direction, PopularSort, RepoSort};
use ghstats::text::{
  env_bool, parse_custom_links, path_label, path_label_of, release_version, split_on, token_accepted,
  truncate_middle,
};

#[test]
fn truncate_cuts_the_middle() {
  assert_eq!(truncate_middle("hello", 10), "hello");
  assert_eq!(truncate_middle("abcdefghij", 9), "abc...hij");
  assert_eq!(truncate_middle("abcdefghij", 3), "...");
}

#[test]
fn release_version_drops_leading_v() {
  assert_eq!(release_version("v1.2.0"), "1.2.0");
  assert_eq!(release_version("1.2.0"), "1.2.0");
  assert_eq!(release_version("vv2"), "2");
}

#[test]
fn custom_links() {
  let l = parse_custom_links("Blog|https://b.example,bad,|x,a|b|c,Docs|https://d.example");
  assert_eq!(
    l,
    vec![
      ("Blog".to_string(), "https://b.example".to_string()),
      ("Docs".to_string(), "https://d.example".to_string())
    ]
  );
  assert!(parse_custom_links("").is_empty());
}

#[test]
fn flags() {
  assert!(env_bool("true"));
  assert!(env_bool("TRUE"));
  assert!(env_bool("1"));
  assert!(!env_bool("yes"));
  assert!(!env_bool(""));
}

#[test]
fn split_keeps_empty_pieces() {
  assert_eq!(split_on("a,,b", ','), vec!["a".to_string(), "".to_string(), "b".to_string()]);
  assert_eq!(split_on("", ','), vec!["".to_string()]);
}

#[test]
fn query_names() {
  assert_eq!(Direction::Asc.name(), "asc");
  assert_eq!(Direction::default().name(), "desc");
  assert_eq!(RepoSort::default().name(), "views_count");
  assert_eq!(RepoSort::Clones.name(), "clones_count");
  assert_eq!(PopularSort::default().name(), "uniques");
  assert_eq!(Direction::Asc.flipped(), Direction::Desc);
}

#[test]
fn api_token_check() {
  assert!(token_accepted("s3cret-token", "s3cret-token"));
  assert!(!token_accepted("s3cret-token", "other"));
  assert!(!token_accepted("", ""));
}

#[test]
fn popular_path_labels() {
  assert_eq!(path_label("/foo/bar/blob/main/README.md", "foo/bar"), "/blob/main/README.md");
  assert_eq!(path_label("/foo/bar", "foo/bar"), "/");
  assert_eq!(path_label_of(""), "/");
  assert_eq!(path_label_of("/x"), "/x");
}

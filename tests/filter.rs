use ghstats::filter::GhsFilter;

#[test]
fn test_empty_fitler() {
  let r = &GhsFilter::new("");

  assert!(r.is_included("foo/bar", false, false));
  assert!(r.is_included("foo/baz", false, false));
  assert!(r.is_included("abc/123", false, false));
  assert!(r.is_included("abc/xyz-123", false, false));

  // exclude invalid names
  assert!(!r.is_included("foo/", false, false));
  assert!(!r.is_included("/bar", false, false));
  assert!(!r.is_included("foo", false, false));
  assert!(!r.is_included("foo/bar/baz", false, false));

  // include forks / archived
  assert!(r.is_included("foo/bar", true, false));
  assert!(r.is_included("foo/bar", false, true));
  assert!(r.is_included("foo/bar", true, true));
}

#[test]
fn test_filter_names() {
  let r = &GhsFilter::new("foo/*,abc/xyz");

  assert!(r.is_included("foo/bar", false, false));
  assert!(r.is_included("foo/123", false, false));
  assert!(r.is_included("abc/xyz", false, false));

  assert!(!r.is_included("foo/bar/baz", false, false));
  assert!(!r.is_included("abc/123", false, false));

  // include forks / archived
  assert!(r.is_included("foo/bar", true, false));
  assert!(r.is_included("foo/bar", false, true));

  // exact org/user match
  let r = &GhsFilter::new("foo/*");
  assert!(!r.is_included("fooo/bar", false, false));
}

#[test]
fn test_filter_names_case() {
  let r = &GhsFilter::new("foo/*,abc/xyz");
  assert!(r.is_included("FOO/BAR", false, false));
  assert!(r.is_included("Foo/Bar", false, false));

  let r = &GhsFilter::new("FOO/*,Abc/XYZ");
  assert!(r.is_included("foo/bar", false, false));
  assert!(r.is_included("foo/baz", false, false));
  assert!(r.is_included("abc/xyz", false, false));
}

#[test]
fn test_filter_all_expect() {
  let r = &GhsFilter::new("*");
  assert!(r.is_included("foo/bar", false, false));
  assert!(r.is_included("abc/123", false, false));
  assert!(r.is_included("abc/123", true, false));
  assert!(r.is_included("abc/123", true, true));

  let r = &GhsFilter::new("-*"); // single rule invalid, include all
  assert!(r.is_included("foo/bar", false, false));
  assert!(r.is_included("abc/123", false, false));

  let r = &GhsFilter::new("*,!foo/bar,!abc/123");
  assert!(!r.is_included("foo/bar", false, false));
  assert!(!r.is_included("abc/123", false, false));
  assert!(r.is_included("foo/baz", false, false));
  assert!(r.is_included("abc/xyz", false, false));

  let r = &GhsFilter::new("*,!foo/*");
  assert!(!r.is_included("foo/bar", false, false));
  assert!(!r.is_included("foo/baz", false, false));
  assert!(r.is_included("abc/123", false, false));
  assert!(r.is_included("abc/xyz", false, false));
}

#[test]
fn test_filter_names_only() {
  let r = &GhsFilter::new("foo/*,!foo/bar");
  assert!(!r.is_included("abc/xyz", false, false));
  assert!(!r.is_included("foo/bar", false, false));
  assert!(!r.is_included("FOO/Bar", false, false));

  assert!(r.is_included("foo/abc", false, false));
  assert!(r.is_included("foo/abc", true, false));
  assert!(r.is_included("foo/abc", true, true));

  let r = &GhsFilter::new("foo/*,!foo/bar,!foo/baz,abc/xyz");
  assert!(!r.is_included("foo/bar", false, false));
  assert!(!r.is_included("foo/baz", false, false));
  assert!(!r.is_included("abc/123", false, false));

  assert!(r.is_included("foo/123", false, false));
  assert!(r.is_included("foo/123", true, false));
  assert!(r.is_included("foo/123", false, true));

  assert!(r.is_included("abc/xyz", false, false));
  assert!(r.is_included("abc/xyz", true, false));
  assert!(r.is_included("abc/xyz", false, true));
}

#[test]
fn test_filter_meta() {
  let r = &GhsFilter::new("*,!fork,!archived,foo/baz");
  assert!(r.exclude_forks);
  assert!(r.exclude_archs);
  assert!(r.default_all);

  assert!(r.is_included("foo/bar", false, false));
  assert!(!r.is_included("foo/bar", true, false));
  assert!(!r.is_included("foo/bar", false, true));

  assert!(r.is_included("abc/123", false, false));
  assert!(!r.is_included("abc/123", true, false));
  assert!(!r.is_included("abc/123", false, true));

  // explicitly added
  assert!(r.is_included("foo/baz", false, false));
  assert!(r.is_included("foo/baz", true, false));
  assert!(r.is_included("foo/baz", false, true));
}

#[test]
fn test_filter_meta_wildcard() {
  let r = &GhsFilter::new("!fork,abc/*,abc/xyz");
  assert!(!r.is_included("abc/123", true, false)); // no wildcard for forks
  assert!(r.is_included("abc/xyz", true, false)); // explicitly added

  let r = &GhsFilter::new("!archived,abc/*,abc/xyz");
  assert!(!r.is_included("abc/123", false, true)); // no wildcard for archived
  assert!(r.is_included("abc/xyz", false, true)); // explicitly added
}

#[test]
fn test_issue18() {
  // test order of rules not affecting the result
  let rules = vec!["foo/*,!foo/bar", "!foo/bar,foo/*"];
  for r in rules {
    let r = &GhsFilter::new(r);
    assert!(!r.is_included("foo/bar", false, false)); // explicitly excluded
    assert!(!r.is_included("abc/abc", false, false)); // not included by default
    assert!(r.is_included("foo/baz", false, false)); // wildcard included
  }

  let rules = vec!["foo/*,!fork", "!fork,foo/*"];
  for r in rules {
    let r = &GhsFilter::new(r);
    assert!(r.is_included("foo/bar", false, false)); // wildcard included
    assert!(!r.is_included("foo/bar", true, false)); // forks excluded
    assert!(!r.is_included("abc/abc", false, false)); // not included by default
  }
}

#[test]
fn rule_order_does_not_change_decisions() {
  let a = GhsFilter::new("foo/*,!foo/bar");
  let b = GhsFilter::new("!foo/bar,foo/*");
  for name in ["foo/bar", "foo/baz", "abc/abc", "FOO/Bar"] {
    assert_eq!(a.is_included(name, false, false), b.is_included(name, false, false));
  }
  assert!(!a.is_included("foo/bar", false, false));
  assert!(a.is_included("foo/baz", false, false));
}

#[test]
fn wildcard_skipped_for_excluded_forks() {
  let r = GhsFilter::new("!fork,abc/*,abc/xyz");
  assert!(!r.is_included("abc/123", true, false));
  assert!(r.is_included("abc/xyz", true, false));
  assert!(r.is_included("abc/123", false, false));
}

#[test]
fn exclude_wildcard_beats_exact_include() {
  let r = GhsFilter::new("!foo/*,foo/bar");
  assert!(!r.is_included("foo/bar", false, false));
  assert!(!r.is_included("foo/baz", false, false));
}

#[test]
fn rules_are_trimmed_and_lowercased() {
  let r = GhsFilter::new("  Foo/* , !ARCHIVED ,, bad , a/b/c ");
  assert_eq!(r.include_repos, vec!["foo/*".to_string()]);
  assert!(r.exclude_repos.is_empty());
  assert!(r.exclude_archs);
  assert!(!r.exclude_forks);
  assert!(!r.default_all);
  assert!(r.is_included("  FOO/x  ", false, false));
  assert!(!r.is_included("foo/x", false, true));
}

#[test]
fn from_rules_takes_prepared_rules() {
  let rules = vec!["*".to_string(), "!foo/bar".to_string(), "!fork".to_string()];
  let r = GhsFilter::from_rules(&rules);
  assert_eq!(r.exclude_repos, vec!["foo/bar".to_string()]);
  assert!(r.default_all);
  assert!(r.exclude_forks);
  assert!(!r.is_included_normalized("foo/bar", false, false));
  assert!(r.is_included_normalized("foo/baz", false, false));
  assert!(!r.is_included_normalized("foo/baz", true, false));
  // the prepared form is taken as it is
  assert!(r.is_included_normalized("FOO/bar", false, false));
}

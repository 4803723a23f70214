//! Records exchanged with the remote API and with the store. Dates are
//! day numbers: whole days since 1970-01-01, UTC.

use vstd::prelude::*;

verus! {

/// A repository as the remote listing reports it.
#[derive(Debug, Clone)]
pub struct Repo {
    pub id: u64,
    pub full_name: String,
    pub description: Option<String>,
    pub stargazers_count: u32,
    pub forks_count: u32,
    pub watchers_count: u32,
    pub open_issues_count: u32,
    pub fork: bool,
    pub archived: bool,
}

/// An open pull request.
#[derive(Debug, Clone)]
pub struct PullRequest {
    pub id: u64,
    pub title: String,
}

/// One day of a traffic breakdown; `timestamp` is the remote day stamp.
#[derive(Debug, Clone)]
pub struct TrafficDaily {
    pub timestamp: String,
    pub uniques: u32,
    pub count: u32,
}

/// Clone traffic: totals and a daily breakdown.
#[derive(Debug, Clone)]
pub struct RepoClones {
    pub uniques: u32,
    pub count: u32,
    pub clones: Vec<TrafficDaily>,
}

/// View traffic: totals and a daily breakdown.
#[derive(Debug, Clone)]
pub struct RepoViews {
    pub uniques: u32,
    pub count: u32,
    pub views: Vec<TrafficDaily>,
}

/// A popular path with its current counters.
#[derive(Debug, Clone)]
pub struct RepoPopularPath {
    pub path: String,
    pub title: String,
    pub count: u32,
    pub uniques: u32,
}

/// A referring site with its current counters.
#[derive(Debug, Clone)]
pub struct RepoReferrer {
    pub referrer: String,
    pub count: u32,
    pub uniques: u32,
}

/// A repository as the store knows it.
#[derive(Debug, Clone)]
pub struct RepoItem {
    pub id: u64,
    pub name: String,
    pub archived: bool,
    pub stars_synced: bool,
}

} // verus!

//! How listings are asked for: sort columns, directions and periods.

use vstd::prelude::*;

verus! {

/// Which popularity table a listing reads.
#[derive(Debug, Clone, Copy, PartialEq, Eq, Structural)]
pub enum PopularKind {
    Refs,
    Path,
}

#[derive(Debug, Clone, Copy, PartialEq, Eq, Structural)]
pub enum Direction {
    Asc,
    Desc,
}

#[derive(Debug, Clone, Copy, PartialEq, Eq, Structural)]
pub enum RepoSort {
    Name,
    Stars,
    Forks,
    Watchers,
    Issues,
    Clones,
    Views,
}

#[derive(Debug, Clone, Copy, PartialEq, Eq, Structural)]
pub enum PopularSort {
    Name,
    Count,
    Uniques,
}

impl Default for Direction {
    fn default() -> (r: Direction)
        ensures
            r == Direction::Desc,
    {
        Direction::Desc
    }
}

impl Default for RepoSort {
    fn default() -> (r: RepoSort)
        ensures
            r == RepoSort::Views,
    {
        RepoSort::Views
    }
}

impl Default for PopularSort {
    fn default() -> (r: PopularSort)
        ensures
            r == PopularSort::Uniques,
    {
        PopularSort::Uniques
    }
}

impl Direction {
    /// The name of the direction in a query string.
    pub fn name(&self) -> (r: &'static str)
        ensures
            *self == Direction::Asc ==> r@ == "asc"@,
            *self == Direction::Desc ==> r@ == "desc"@,
    {
        match self {
            Direction::Asc => "asc",
            Direction::Desc => "desc",
        }
    }

    /// The other direction: a click on the sorted column flips it.
    pub fn flipped(&self) -> (r: Direction)
        ensures
            r != *self,
    {
        match self {
            Direction::Asc => Direction::Desc,
            Direction::Desc => Direction::Asc,
        }
    }
}

impl RepoSort {
    /// The name of the column in a query string.
    pub fn name(&self) -> (r: &'static str)
        ensures
            *self == RepoSort::Name ==> r@ == "name"@,
            *self == RepoSort::Stars ==> r@ == "stars"@,
            *self == RepoSort::Forks ==> r@ == "forks"@,
            *self == RepoSort::Watchers ==> r@ == "watchers"@,
            *self == RepoSort::Issues ==> r@ == "issues"@,
            *self == RepoSort::Clones ==> r@ == "clones_count"@,
            *self == RepoSort::Views ==> r@ == "views_count"@,
    {
        match self {
            RepoSort::Name => "name",
            RepoSort::Stars => "stars",
            RepoSort::Forks => "forks",
            RepoSort::Watchers => "watchers",
            RepoSort::Issues => "issues",
            RepoSort::Clones => "clones_count",
            RepoSort::Views => "views_count",
        }
    }
}

impl PopularSort {
    /// The name of the column in a query string.
    pub fn name(&self) -> (r: &'static str)
        ensures
            *self == PopularSort::Name ==> r@ == "name"@,
            *self == PopularSort::Count ==> r@ == "count"@,
            *self == PopularSort::Uniques ==> r@ == "uniques"@,
    {
        match self {
            PopularSort::Name => "name",
            PopularSort::Count => "count",
            PopularSort::Uniques => "uniques",
        }
    }
}

/// How the repository list is ordered.
#[derive(Debug, Clone, Copy, PartialEq, Eq, Structural)]
pub struct RepoFilter {
    pub sort: RepoSort,
    pub direction: Direction,
}

impl Default for RepoFilter {
    fn default() -> (r: RepoFilter)
        ensures
            r == (RepoFilter { sort: RepoSort::Views, direction: Direction::Desc }),
    {
        RepoFilter { sort: RepoSort::Views, direction: Direction::Desc }
    }
}

/// How a popularity listing is ordered, and over how many days; a period
/// of zero or less means all time.
#[derive(Debug, Clone, Copy, PartialEq, Eq, Structural)]
pub struct PopularFilter {
    pub sort: PopularSort,
    pub direction: Direction,
    pub period: i32,
}

impl Default for PopularFilter {
    fn default() -> (r: PopularFilter)
        ensures
            r == (PopularFilter { sort: PopularSort::Uniques, direction: Direction::Desc, period: 0 }),
    {
        PopularFilter { sort: PopularSort::Uniques, direction: Direction::Desc, period: 0 }
    }
}

impl PopularFilter {
    /// The first day in the listing when today is `today`: `None` for all
    /// time.
    pub fn since(&self, today: i64) -> (r: Option<i64>)
        requires
            today >= i64::MIN + i32::MAX,
        ensures
            self.period <= 0 ==> r is None,
            self.period > 0 ==> r == Some((today - self.period) as i64),
    {
        if self.period > 0 {
            Some(today - self.period as i64)
        } else {
            None
        }
    }
}

} // verus!

//! Walking a paged listing: fixed-size pages are requested one after
//! another until a response carries no link to a next page.

use vstd::prelude::*;
use crate::text::{contains_spec, contains_text};

verus! {

/// Items asked for in each page.
pub const PER_PAGE: u64 = 100;

/// The marker of a link to the next page in a `Link` response header.
pub open spec fn next_marker() -> Seq<char> {
    seq!['r', 'e', 'l', '=', '"', 'n', 'e', 'x', 't', '"']
}

/// Whether a `Link` header announces a further page.
pub fn has_next_page(link: &str) -> (r: bool)
    ensures
        r == contains_spec(link@, next_marker()),
{
    proof {
        reveal_strlit("rel=\"next\"");
    }
    assert("rel=\"next\""@ =~= next_marker());
    contains_text(link, "rel=\"next\"")
}

/// The state of a paged walk as mathematical values.
pub struct PagerState<T> {
    pub items: Seq<T>,
    pub page: nat,
    pub done: bool,
}

/// The state after one page arrives.
pub open spec fn pager_after<T>(s: PagerState<T>, batch: Seq<T>, next: bool) -> PagerState<T> {
    PagerState {
        items: s.items + batch,
        page: if next { s.page + 1 } else { s.page },
        done: !next,
    }
}

/// The state after the pages `batches` arrived in order, the i-th with a
/// next-page link exactly when `nexts[i]`.
pub open spec fn pager_replay<T>(batches: Seq<Seq<T>>, nexts: Seq<bool>) -> PagerState<T>
    decreases batches.len(),
{
    if batches.len() == 0 {
        PagerState { items: Seq::empty(), page: 1, done: false }
    } else {
        pager_after(
            pager_replay(batches.drop_last(), nexts.drop_last()),
            batches.last(),
            nexts[batches.len() - 1],
        )
    }
}

/// Collects the items of a paged listing.
pub struct Pager<T> {
    pub items: Vec<T>,
    pub page: u64,
    pub done: bool,
}

impl<T> View for Pager<T> {
    type V = PagerState<T>;

    open spec fn view(&self) -> PagerState<T> {
        PagerState { items: self.items@, page: self.page as nat, done: self.done }
    }
}

impl<T> Pager<T> {
    /// A walk that has not asked for anything yet: the first page is 1.
    pub fn new() -> (p: Pager<T>)
        ensures
            p@ == pager_replay(Seq::<Seq<T>>::empty(), Seq::<bool>::empty()),
    {
        let p = Pager { items: Vec::new(), page: 1, done: false };
        assert(p@.items =~= Seq::<T>::empty());
        p
    }

    /// The page size and page number of the next request.
    pub fn query(&self) -> (r: (u64, u64))
        ensures
            r == (PER_PAGE, self.page),
    {
        (PER_PAGE, self.page)
    }

    /// Takes in one page and the `Link` header that came with it. The walk
    /// ends when the header announces no further page.
    pub fn on_page(&mut self, batch: Vec<T>, link: &str)
        requires
            !old(self).done,
            old(self).page < u64::MAX,
        ensures
            final(self)@ == pager_after(old(self)@, batch@, contains_spec(link@, next_marker())),
    {
        let mut batch = batch;
        let ghost b = batch@;
        self.items.append(&mut batch);
        if has_next_page(link) {
            self.page = self.page + 1;
        } else {
            self.done = true;
        }
        assert(self@.items =~= old(self)@.items + b);
    }
}

/// A listing whose pages all announce a successor but the last yields
/// exactly the concatenation of its pages, after one request per page, and
/// is then complete.
pub proof fn lemma_pages_concatenate<T>(batches: Seq<Seq<T>>, nexts: Seq<bool>)
    requires
        batches.len() > 0,
        nexts.len() == batches.len(),
        forall|i: int| 0 <= i < nexts.len() - 1 ==> nexts[i],
        !nexts[nexts.len() - 1],
    ensures
        pager_replay(batches, nexts).items == batches.flatten(),
        pager_replay(batches, nexts).page == batches.len(),
        pager_replay(batches, nexts).done,
    decreases batches.len(),
{
    lemma_prefix_walk(batches.drop_last(), nexts.drop_last());
    assert(batches.flatten() == batches.drop_last().flatten() + batches.last()) by {
        batches.drop_last().lemma_flatten_push(batches.last());
        assert(batches.drop_last().push(batches.last()) =~= batches);
    }
}

/// While every page so far announced a successor, the walk holds the
/// concatenation of the pages and asks next for the page after them.
pub proof fn lemma_prefix_walk<T>(batches: Seq<Seq<T>>, nexts: Seq<bool>)
    requires
        nexts.len() == batches.len(),
        forall|i: int| 0 <= i < nexts.len() ==> nexts[i],
    ensures
        pager_replay(batches, nexts).items == batches.flatten(),
        pager_replay(batches, nexts).page == batches.len() + 1,
        !pager_replay(batches, nexts).done,
    decreases batches.len(),
{
    if batches.len() > 0 {
        lemma_prefix_walk(batches.drop_last(), nexts.drop_last());
        assert(batches.flatten() == batches.drop_last().flatten() + batches.last()) by {
            batches.drop_last().lemma_flatten_push(batches.last());
        assert(batches.drop_last().push(batches.last()) =~= batches);
        }
    } else {
        assert(batches.flatten() =~= Seq::<T>::empty());
    }
}

} // verus!

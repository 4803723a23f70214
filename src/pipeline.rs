//! The decisions of one collection run: which repositories are processed,
//! in what order the steps come, and when the star backfill stops. The
//! caller performs each step and reports its outcome.

use vstd::prelude::*;
use crate::filter::GhsFilter;
use crate::model::{Repo, RepoItem};
use crate::text::{lower_of, trim_of};

verus! {

/// What the caller does next.
#[derive(Debug, PartialEq, Eq, Structural)]
pub enum IngestStep {
    /// Fetch and store the metrics of the repository at this position.
    FetchRepo(usize),
    /// Rebuild the derived deltas, once, over the whole history.
    UpdateDeltas,
    /// Run the star backfill.
    SyncStars,
    Done,
}

/// A collection run as mathematical values.
pub struct RunState {
    pub total: nat,
    pub next: nat,
    pub stored: Seq<nat>,
    pub failed: Seq<nat>,
    pub deltas_done: bool,
    pub sync_done: bool,
}

pub open spec fn run_start(total: nat) -> RunState {
    RunState {
        total,
        next: 0,
        stored: Seq::empty(),
        failed: Seq::empty(),
        deltas_done: false,
        sync_done: false,
    }
}

/// The run after the repository at `s.next` was processed, successfully
/// or not: either way the run goes on with the following one.
pub open spec fn run_after(s: RunState, ok: bool) -> RunState {
    RunState {
        next: s.next + 1,
        stored: if ok { s.stored.push(s.next) } else { s.stored },
        failed: if ok { s.failed } else { s.failed.push(s.next) },
        ..s
    }
}

pub open spec fn step_of(s: RunState) -> IngestStep {
    if s.next < s.total {
        IngestStep::FetchRepo(s.next as usize)
    } else if !s.deltas_done {
        IngestStep::UpdateDeltas
    } else if !s.sync_done {
        IngestStep::SyncStars
    } else {
        IngestStep::Done
    }
}

/// The run after the repositories reported the outcomes `oks`, in order.
pub open spec fn run_replay(total: nat, oks: Seq<bool>) -> RunState
    decreases oks.len(),
{
    if oks.len() == 0 {
        run_start(total)
    } else {
        run_after(run_replay(total, oks.drop_last()), oks.last())
    }
}

/// The positions in `oks` that hold `b`, in order.
pub open spec fn positions_of(oks: Seq<bool>, b: bool) -> Seq<nat>
    decreases oks.len(),
{
    if oks.len() == 0 {
        Seq::empty()
    } else {
        let pre = positions_of(oks.drop_last(), b);
        if oks.last() == b {
            pre.push((oks.len() - 1) as nat)
        } else {
            pre
        }
    }
}

/// One collection run over `total` included repositories.
#[derive(Debug)]
pub struct IngestRun {
    pub total: usize,
    pub next: usize,
    pub stored: Vec<usize>,
    pub failed: Vec<usize>,
    pub deltas_done: bool,
    pub sync_done: bool,
}

impl View for IngestRun {
    type V = RunState;

    open spec fn view(&self) -> RunState {
        RunState {
            total: self.total as nat,
            next: self.next as nat,
            stored: self.stored@.map_values(|i: usize| i as nat),
            failed: self.failed@.map_values(|i: usize| i as nat),
            deltas_done: self.deltas_done,
            sync_done: self.sync_done,
        }
    }
}

impl IngestRun {
    pub open spec fn wf(&self) -> bool {
        self.next <= self.total
    }

    pub fn new(total: usize) -> (r: IngestRun)
        ensures
            r@ == run_start(total as nat),
            r.wf(),
    {
        let r = IngestRun {
            total,
            next: 0,
            stored: Vec::new(),
            failed: Vec::new(),
            deltas_done: false,
            sync_done: false,
        };
        assert(r@.stored =~= Seq::<nat>::empty());
        assert(r@.failed =~= Seq::<nat>::empty());
        r
    }

    /// The step to perform now.
    pub fn step(&self) -> (r: IngestStep)
        ensures
            r == step_of(self@),
    {
        if self.next < self.total {
            IngestStep::FetchRepo(self.next)
        } else if !self.deltas_done {
            IngestStep::UpdateDeltas
        } else if !self.sync_done {
            IngestStep::SyncStars
        } else {
            IngestStep::Done
        }
    }

    /// Records the outcome for the current repository. A failure is noted
    /// and the run moves on.
    pub fn on_repo(&mut self, ok: bool)
        requires
            old(self).wf(),
            old(self).next < old(self).total,
        ensures
            final(self).wf(),
            final(self)@ == run_after(old(self)@, ok),
    {
        let ghost s = self@;
        if ok {
            self.stored.push(self.next);
            assert(self@.stored =~= s.stored.push(s.next));
        } else {
            self.failed.push(self.next);
            assert(self@.failed =~= s.failed.push(s.next));
        }
        self.next = self.next + 1;
    }

    /// Records that the deltas were rebuilt.
    pub fn on_deltas(&mut self)
        requires
            old(self).wf(),
        ensures
            final(self).wf(),
            final(self)@ == (RunState { deltas_done: true, ..old(self)@ }),
    {
        self.deltas_done = true;
    }

    /// Records that the star backfill ran.
    pub fn on_sync(&mut self)
        requires
            old(self).wf(),
        ensures
            final(self).wf(),
            final(self)@ == (RunState { sync_done: true, ..old(self)@ }),
    {
        self.sync_done = true;
    }
}

/// A failure for one repository does not keep the others from being
/// stored: after every repository reported, exactly those that succeeded
/// are stored, exactly those that failed are recorded as failures, and the
/// run goes on to rebuild the deltas.
pub proof fn lemma_failures_isolated(oks: Seq<bool>)
    ensures
        run_replay(oks.len(), oks).stored == positions_of(oks, true),
        run_replay(oks.len(), oks).failed == positions_of(oks, false),
        run_replay(oks.len(), oks).next == oks.len(),
        step_of(run_replay(oks.len(), oks)) == IngestStep::UpdateDeltas,
{
    lemma_replay_positions(oks.len(), oks);
}

proof fn lemma_replay_positions(total: nat, oks: Seq<bool>)
    ensures
        run_replay(total, oks).stored == positions_of(oks, true),
        run_replay(total, oks).failed == positions_of(oks, false),
        run_replay(total, oks).next == oks.len(),
        run_replay(total, oks).total == total,
        !run_replay(total, oks).deltas_done,
    decreases oks.len(),
{
    if oks.len() > 0 {
        lemma_replay_positions(total, oks.drop_last());
    }
}

/// The positions in `repos` of the repositories that `f` takes.
pub open spec fn selected(f: crate::filter::RuleSet, repos: Seq<Repo>) -> Seq<usize>
    decreases repos.len(),
{
    if repos.len() == 0 {
        Seq::empty()
    } else {
        let pre = selected(f, repos.drop_last());
        let r = repos.last();
        if f.decides(lower_of(trim_of(r.full_name@)), r.fork, r.archived) {
            pre.push((repos.len() - 1) as usize)
        } else {
            pre
        }
    }
}

/// The positions, in order, of the repositories that take part.
pub fn select_repos(f: &GhsFilter, repos: &Vec<Repo>) -> (r: Vec<usize>)
    ensures
        r@ == selected(f@, repos@),
{
    let mut out: Vec<usize> = Vec::new();
    let mut i: usize = 0;
    while i < repos.len()
        invariant
            i <= repos@.len(),
            out@ == selected(f@, repos@.subrange(0, i as int)),
        decreases repos@.len() - i,
    {
        let ghost pre = repos@.subrange(0, i as int);
        assert(repos@.subrange(0, i + 1).drop_last() =~= pre);
        let r = &repos[i];
        if f.is_included(r.full_name.as_str(), r.fork, r.archived) {
            out.push(i);
        }
        i = i + 1;
    }
    assert(repos@.subrange(0, repos@.len() as int) =~= repos@);
    out
}

/// Whether some repository of `repos` has the id `id`.
pub open spec fn listed(repos: Seq<Repo>, id: u64) -> bool {
    exists|j: int| 0 <= j < repos.len() && (#[trigger] repos[j]).id == id
}

/// The known ids that the current listing no longer holds, in order.
pub open spec fn hidden_spec(known: Seq<u64>, repos: Seq<Repo>) -> Seq<u64>
    decreases known.len(),
{
    if known.len() == 0 {
        Seq::empty()
    } else {
        let pre = hidden_spec(known.drop_last(), repos);
        if listed(repos, known.last()) {
            pre
        } else {
            pre.push(known.last())
        }
    }
}

fn is_listed(repos: &Vec<Repo>, id: u64) -> (b: bool)
    ensures
        b == listed(repos@, id),
{
    let mut j: usize = 0;
    while j < repos.len()
        invariant
            j <= repos@.len(),
            forall|k: int| 0 <= k < j ==> (#[trigger] repos@[k]).id != id,
        decreases repos@.len() - j,
    {
        if repos[j].id == id {
            return true;
        }
        j = j + 1;
    }
    false
}

/// The repositories known before that the listing no longer holds: they
/// are hidden, never removed.
pub fn hidden_ids(known: &Vec<u64>, repos: &Vec<Repo>) -> (r: Vec<u64>)
    ensures
        r@ == hidden_spec(known@, repos@),
{
    let mut out: Vec<u64> = Vec::new();
    let mut i: usize = 0;
    while i < known.len()
        invariant
            i <= known@.len(),
            out@ == hidden_spec(known@.subrange(0, i as int), repos@),
        decreases known@.len() - i,
    {
        assert(known@.subrange(0, i + 1).drop_last() =~= known@.subrange(0, i as int));
        if !is_listed(repos, known[i]) {
            out.push(known[i]);
        }
        i = i + 1;
    }
    assert(known@.subrange(0, known@.len() as int) =~= known@);
    out
}

/// Pages of history that the backfill may use in one run.
pub const PAGE_BUDGET: u64 = 1000;

/// Pages that a history of `stars` entries took to fetch.
pub open spec fn pages_for(stars: nat) -> nat {
    (stars + 99) / 100
}

/// The star backfill of one run: it counts the pages it used and stops
/// once the budget is exceeded, or at the first failure.
#[derive(Debug)]
pub struct StarSync {
    pub pages: u64,
    pub stopped: bool,
}

impl StarSync {
    pub open spec fn wf(&self) -> bool {
        !self.stopped ==> self.pages <= PAGE_BUDGET
    }

    pub fn new() -> (s: StarSync)
        ensures
            s.pages == 0,
            !s.stopped,
            s.wf(),
    {
        StarSync { pages: 0, stopped: false }
    }

    /// The repositories still to backfill, in order.
    pub fn pending(repos: &Vec<RepoItem>) -> (r: Vec<u64>)
        ensures
            r@ == pending_spec(repos@),
    {
        let mut out: Vec<u64> = Vec::new();
        let mut i: usize = 0;
        while i < repos.len()
            invariant
                i <= repos@.len(),
                out@ == pending_spec(repos@.subrange(0, i as int)),
            decreases repos@.len() - i,
        {
            assert(repos@.subrange(0, i + 1).drop_last() =~= repos@.subrange(0, i as int));
            if !repos[i].stars_synced {
                out.push(repos[i].id);
            }
            i = i + 1;
        }
        assert(repos@.subrange(0, repos@.len() as int) =~= repos@);
        out
    }

    /// Records a repository whose history of `new_stars` entries was stored;
    /// tells whether the run may go on with the next one.
    pub fn on_synced(&mut self, new_stars: u32) -> (go_on: bool)
        requires
            old(self).wf(),
            !old(self).stopped,
        ensures
            final(self).wf(),
            final(self).pages == old(self).pages + pages_for(new_stars as nat),
            go_on == (final(self).pages <= PAGE_BUDGET),
            final(self).stopped == !go_on,
    {
        self.pages = self.pages + (new_stars as u64 + 99) / 100;
        if self.pages > PAGE_BUDGET {
            self.stopped = true;
            false
        } else {
            true
        }
    }

    /// Records a failed history fetch: the run stops here.
    pub fn on_failure(&mut self)
        requires
            old(self).wf(),
        ensures
            final(self).wf(),
            final(self).stopped,
            final(self).pages == old(self).pages,
    {
        self.stopped = true;
    }
}

/// The ids of the repositories whose star history is not synced yet.
pub open spec fn pending_spec(repos: Seq<RepoItem>) -> Seq<u64>
    decreases repos.len(),
{
    if repos.len() == 0 {
        Seq::empty()
    } else {
        let pre = pending_spec(repos.drop_last());
        if repos.last().stars_synced {
            pre
        } else {
            pre.push(repos.last().id)
        }
    }
}

} // verus!

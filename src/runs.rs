//! Workflow runs: paging through the provider's listing, and ordering runs
//! by start time.
use vstd::prelude::*;
use vstd::multiset::Multiset;

verus! {

/// One execution record of a CI pipeline.
pub struct WorkflowRun {
    pub id: u64,
    pub name: String,
    /// The branch the run was made for.
    pub head_branch: String,
    /// Start time, in seconds since the Unix epoch (UTC).
    pub run_started_at: i64,
    pub html_url: String,
}

/// Whether a page holds a run that started after `age_limit`.
pub open spec fn has_recent(page: Seq<WorkflowRun>, age_limit: i64) -> bool {
    exists|i: int| 0 <= i < page.len() && (#[trigger] page[i]).run_started_at > age_limit
}

/// Whether some run of `runs` has the id `id`.
pub open spec fn has_id(runs: Seq<WorkflowRun>, id: u64) -> bool {
    exists|k: int| 0 <= k < runs.len() && (#[trigger] runs[k]).id == id
}

/// Whether no two runs share an id.
pub open spec fn distinct_ids(runs: Seq<WorkflowRun>) -> bool {
    forall|i: int, j: int| 0 <= i < j < runs.len() ==> runs[i].id != runs[j].id
}

/// The runs `kept`, followed, in page order, by the runs of `page` that
/// started after `age_limit`, ran on `branch`, carry the name `workflow`, and
/// whose id is not
/// kept yet.
pub open spec fn merged(kept: Seq<WorkflowRun>, page: Seq<WorkflowRun>, age_limit: i64, branch: Seq<char>, workflow: Seq<char>) -> Seq<WorkflowRun>
    decreases page.len(),
{
    if page.len() == 0 {
        kept
    } else {
        let prev = merged(kept, page.drop_last(), age_limit, branch, workflow);
        let run = page.last();
        if run.run_started_at > age_limit && run.head_branch@ == branch && run.name@ == workflow && !has_id(prev, run.id) {
            prev.push(run)
        } else {
            prev
        }
    }
}

/// The state of a listing: the next page to ask for, whether the listing is
/// over, and the runs kept so far.
pub struct ListingModel {
    pub page: u64,
    pub done: bool,
    pub runs: Seq<WorkflowRun>,
}

/// The page a listing in state `m` asks for next, if any.
pub open spec fn requested(m: ListingModel) -> Option<u64> {
    if m.done {
        None
    } else {
        Some(m.page)
    }
}

/// The state after page `m.page` answered with `page`. A page without any
/// recent run ends the listing; otherwise its recent runs of the wanted
/// workflow whose ids are new are kept and the next page is due. The listing also ends when the
/// page number can go no further.
pub open spec fn advance(m: ListingModel, age_limit: i64, branch: Seq<char>, workflow: Seq<char>, page: Seq<WorkflowRun>) -> ListingModel {
    if !has_recent(page, age_limit) {
        ListingModel { page: m.page, done: true, runs: m.runs }
    } else if m.page == u64::MAX {
        ListingModel { page: m.page, done: true, runs: merged(m.runs, page, age_limit, branch, workflow) }
    } else {
        ListingModel {
            page: (m.page + 1) as u64,
            done: false,
            runs: merged(m.runs, page, age_limit, branch, workflow),
        }
    }
}

/// Pages through the provider's listing of runs. The caller fetches the
/// page that `next_page` names and hands its runs to `accept_page`, until
/// `next_page` returns `None`.
pub struct RunListing {
    age_limit: i64,
    branch: String,
    workflow: String,
    page: u64,
    done: bool,
    runs: Vec<WorkflowRun>,
}

impl RunListing {
    pub closed spec fn view(&self) -> ListingModel {
        ListingModel { page: self.page, done: self.done, runs: self.runs@ }
    }

    /// Runs that started at or before this time are left out.
    pub closed spec fn age_limit(&self) -> i64 {
        self.age_limit
    }

    /// The branch whose runs are kept.
    pub closed spec fn branch(&self) -> Seq<char> {
        self.branch@
    }

    /// The name of the workflow whose runs are kept.
    pub closed spec fn workflow(&self) -> Seq<char> {
        self.workflow@
    }

    /// A listing that starts at page 0 with no runs.
    pub fn new(age_limit: i64, branch: String, workflow: String) -> (r: RunListing)
        ensures
            r@ == (ListingModel { page: 0, done: false, runs: Seq::empty() }),
            distinct_ids(r@.runs),
            r.age_limit() == age_limit,
            r.workflow() == workflow@,
    {
        RunListing { age_limit, branch, workflow, page: 0, done: false, runs: Vec::new() }
    }

    /// The page to fetch next, or `None` once the listing is over.
    pub fn next_page(&self) -> (r: Option<u64>)
        ensures
            r == requested(self@),
    {
        if self.done {
            None
        } else {
            Some(self.page)
        }
    }

    /// Takes in the runs of the page that `next_page` named.
    pub fn accept_page(&mut self, page: Vec<WorkflowRun>)
        requires
            !old(self)@.done,
        ensures
            final(self)@ == advance(old(self)@, old(self).age_limit(), old(self).branch(), old(self).workflow(), page@),
            distinct_ids(old(self)@.runs) ==> distinct_ids(final(self)@.runs),
            final(self).age_limit() == old(self).age_limit(),
            final(self).branch() == old(self).branch(),
            final(self).workflow() == old(self).workflow(),
    {
        let ghost original = page@;
        let ghost start = self.runs@;
        let total = page.len();
        let mut rest = page;
        let mut any_recent = false;
        let mut taken: usize = 0;
        while rest.len() > 0
            invariant
                taken + rest.len() == original.len(),
                original.len() == total,
                rest@ == original.subrange(taken as int, original.len() as int),
                self.runs@ == merged(start, original.take(taken as int), self.age_limit, self.branch@, self.workflow@),
                any_recent == exists|j: int| 0 <= j < taken && (#[trigger] original[j]).run_started_at > self.age_limit,
                self.page == old(self).page,
                self.done == old(self).done,
                self.age_limit == old(self).age_limit,
                self.branch == old(self).branch,
                self.workflow == old(self).workflow,
            decreases rest.len(),
        {
            let run = rest.remove(0);
            proof {
                assert(original.take(taken + 1).drop_last() =~= original.take(taken as int));
                assert(original.take(taken + 1).last() == original[taken as int]);
            }
            if run.run_started_at > self.age_limit {
                any_recent = true;
                if run.head_branch == self.branch && run.name == self.workflow && !keeps_id(&self.runs, run.id) {
                    self.runs.push(run);
                }
            }
            taken += 1;
        }
        proof {
            assert(original.take(original.len() as int) =~= original);
            if distinct_ids(start) {
                lemma_merged_keeps_ids_distinct(start, original, self.age_limit, self.branch@, self.workflow@);
            }
        }
        if !any_recent {
            proof {
                assert forall|k: int| 0 <= k < original.len() implies original[k].run_started_at <= self.age_limit by {
                    assert(original[k] == original[k]);
                }
                lemma_none_recent_keeps_runs(start, original, self.age_limit, self.branch@, self.workflow@);
            }
            self.done = true;
        } else if self.page == u64::MAX {
            self.done = true;
        } else {
            self.page = self.page + 1;
        }
    }

    /// The runs kept so far, handing over the listing.
    pub fn into_runs(self) -> (r: Vec<WorkflowRun>)
        ensures
            r@ == self@.runs,
    {
        self.runs
    }
}

/// Whether `runs` holds a run with id `id`.
fn keeps_id(runs: &Vec<WorkflowRun>, id: u64) -> (r: bool)
    ensures
        r == has_id(runs@, id),
{
    let mut k: usize = 0;
    while k < runs.len()
        invariant
            0 <= k <= runs.len(),
            forall|j: int| 0 <= j < k ==> (#[trigger] runs@[j]).id != id,
        decreases runs.len() - k,
    {
        if runs[k].id == id {
            return true;
        }
        k += 1;
    }
    false
}

proof fn lemma_none_recent_keeps_runs(kept: Seq<WorkflowRun>, page: Seq<WorkflowRun>, age_limit: i64, branch: Seq<char>, workflow: Seq<char>)
    requires
        forall|k: int| 0 <= k < page.len() ==> (#[trigger] page[k]).run_started_at <= age_limit,
    ensures
        merged(kept, page, age_limit, branch, workflow) == kept,
    decreases page.len(),
{
    if page.len() > 0 {
        let d = page.drop_last();
        assert forall|k: int| 0 <= k < d.len() implies (#[trigger] d[k]).run_started_at <= age_limit by {
            assert(d[k] == page[k]);
        }
        lemma_none_recent_keeps_runs(kept, d, age_limit, branch, workflow);
        assert(page.last() == page[page.len() - 1]);
    }
}

/// Taking in a page never makes two kept runs share an id.
pub proof fn lemma_merged_keeps_ids_distinct(
    kept: Seq<WorkflowRun>,
    page: Seq<WorkflowRun>,
    age_limit: i64,
    branch: Seq<char>,
    workflow: Seq<char>,
)
    requires
        distinct_ids(kept),
    ensures
        distinct_ids(merged(kept, page, age_limit, branch, workflow)),
    decreases page.len(),
{
    if page.len() > 0 {
        lemma_merged_keeps_ids_distinct(kept, page.drop_last(), age_limit, branch, workflow);
        let prev = merged(kept, page.drop_last(), age_limit, branch, workflow);
        let run = page.last();
        if !has_id(prev, run.id) {
            let next = prev.push(run);
            assert forall|i: int, j: int| 0 <= i < j < next.len() implies next[i].id != next[j].id by {
                if j == prev.len() {
                    assert(next[i] == prev[i]);
                    assert(!(prev[i].id == run.id));
                }
            }
        }
    }
}

/// A page without any run newer than the age limit ends the listing: no
/// further page is asked for, and no run is added.
pub proof fn lemma_listing_stops_on_old_page(
    m: ListingModel,
    age_limit: i64,
    branch: Seq<char>,
    workflow: Seq<char>,
    page: Seq<WorkflowRun>,
)
    requires
        !has_recent(page, age_limit),
    ensures
        requested(advance(m, age_limit, branch, workflow, page)) is None,
        advance(m, age_limit, branch, workflow, page).runs == m.runs,
{
}

/// Whether runs are in ascending order of start time.
pub open spec fn by_start(runs: Seq<WorkflowRun>) -> bool {
    forall|i: int, j: int| 0 <= i < j < runs.len() ==> runs[i].run_started_at <= runs[j].run_started_at
}

/// Puts runs in ascending order of start time, keeping the order of runs that
/// started at the same time.
pub fn sort_by_start(runs: &mut Vec<WorkflowRun>)
    ensures
        by_start(final(runs)@),
        final(runs)@.to_multiset() == old(runs)@.to_multiset(),
{
    broadcast use {vstd::seq_lib::group_to_multiset_ensures, vstd::multiset::group_multiset_axioms};

    let ghost original = runs@;
    let mut out: Vec<WorkflowRun> = Vec::new();
    proof {
        assert(out@.to_multiset() =~= Multiset::<WorkflowRun>::empty());
        assert(out@.to_multiset().add(runs@.to_multiset()) =~= original.to_multiset());
    }
    while runs.len() > 0
        invariant
            by_start(out@),
            out@.to_multiset().add(runs@.to_multiset()) == original.to_multiset(),
        decreases runs.len(),
    {
        let ghost before = runs@;
        let run = runs.remove(0);
        proof {
            assert(before.remove(0) == runs@);
        }
        let mut pos: usize = out.len();
        while pos > 0 && out[pos - 1].run_started_at > run.run_started_at
            invariant
                0 <= pos <= out.len(),
                by_start(out@),
                forall|k: int| pos <= k < out.len() ==> (#[trigger] out@[k]).run_started_at > run.run_started_at,
            decreases pos,
        {
            pos -= 1;
        }
        let ghost prev = out@;
        out.insert(pos, run);
        proof {
            assert(out@ == prev.insert(pos as int, run));
            assert forall|i: int, j: int| 0 <= i < j < out@.len() implies out@[i].run_started_at
                <= out@[j].run_started_at by {
                if j < pos {
                    assert(out@[i] == prev[i] && out@[j] == prev[j]);
                } else if j == pos {
                    assert(out@[i] == prev[i]);
                } else if i == pos {
                    assert(out@[j] == prev[j - 1]);
                } else if i < pos {
                    assert(out@[i] == prev[i] && out@[j] == prev[j - 1]);
                    assert(prev[j - 1].run_started_at > run.run_started_at);
                } else {
                    assert(out@[i] == prev[i - 1] && out@[j] == prev[j - 1]);
                }
            }
            vstd::seq_lib::to_multiset_insert(prev, pos as int, run);
            vstd::seq_lib::to_multiset_remove(before, 0);
            assert(before[0] == run);
            assert(before.remove(0) == runs@);
            assert(out@.to_multiset() == prev.to_multiset().insert(run));
            assert(before.remove(0).to_multiset() == before.to_multiset().remove(before[0]));
            assert(runs@.to_multiset() == before.remove(0).to_multiset());
            assert(runs@.to_multiset() == before.to_multiset().remove(run));
            assert(before.contains(run));
            vstd::seq_lib::to_multiset_contains(before, run);
            assert(before.to_multiset().count(run) > 0);
            assert(before.to_multiset() =~= runs@.to_multiset().insert(run));
            assert(out@.to_multiset().add(runs@.to_multiset()) =~= prev.to_multiset().add(before.to_multiset()));
        }
    }
    proof {
        assert(runs@.len() == 0);
        assert(runs@.to_multiset().len() == 0);
        assert(runs@.to_multiset() =~= Multiset::<WorkflowRun>::empty());
        assert(out@.to_multiset() =~= original.to_multiset());
    }
    *runs = out;
}

/// Whether no two runs started at the same time.
pub open spec fn distinct_starts(runs: Seq<WorkflowRun>) -> bool {
    forall|i: int, j: int| 0 <= i < j < runs.len() ==> runs[i].run_started_at != runs[j].run_started_at
}

/// With distinct start times the order by start time is unique: any two
/// arrangements of the same runs that are both in ascending start order are
/// equal, whatever order the runs arrived in.
pub proof fn lemma_start_order_unique(a: Seq<WorkflowRun>, b: Seq<WorkflowRun>)
    requires
        by_start(a),
        by_start(b),
        a.to_multiset() == b.to_multiset(),
        distinct_starts(a),
    ensures
        a == b,
    decreases a.len(),
{
    broadcast use {vstd::seq_lib::group_to_multiset_ensures, vstd::multiset::group_multiset_axioms};

    assert(a.len() == a.to_multiset().len());
    assert(b.len() == b.to_multiset().len());
    if a.len() == 0 {
        assert(a =~= b);
    } else {
        assert(b.to_multiset().count(b[0]) > 0) by {
            assert(b.contains(b[0]));
        }
        assert(a.contains(b[0]));
        let k = choose|k: int| 0 <= k < a.len() && a[k] == b[0];
        assert(a.to_multiset().count(a[0]) > 0) by {
            assert(a.contains(a[0]));
        }
        assert(b.contains(a[0]));
        let m = choose|m: int| 0 <= m < b.len() && b[m] == a[0];
        assert(a[0].run_started_at <= a[k].run_started_at);
        assert(b[0].run_started_at <= b[m].run_started_at);
        if k != 0 {
            assert(a[0].run_started_at != a[k].run_started_at);
        }
        assert(a[0] == b[0]);
        let a1 = a.drop_first();
        let b1 = b.drop_first();
        assert(a1 =~= a.remove(0));
        assert(b1 =~= b.remove(0));
        vstd::seq_lib::to_multiset_remove(a, 0);
        vstd::seq_lib::to_multiset_remove(b, 0);
        assert(by_start(a1)) by {
            assert forall|i: int, j: int| 0 <= i < j < a1.len() implies a1[i].run_started_at
                <= a1[j].run_started_at by {
                assert(a1[i] == a[i + 1] && a1[j] == a[j + 1]);
            }
        }
        assert(by_start(b1)) by {
            assert forall|i: int, j: int| 0 <= i < j < b1.len() implies b1[i].run_started_at
                <= b1[j].run_started_at by {
                assert(b1[i] == b[i + 1] && b1[j] == b[j + 1]);
            }
        }
        assert(distinct_starts(a1)) by {
            assert forall|i: int, j: int| 0 <= i < j < a1.len() implies a1[i].run_started_at
                != a1[j].run_started_at by {
                assert(a1[i] == a[i + 1] && a1[j] == a[j + 1]);
            }
        }
        lemma_start_order_unique(a1, b1);
        assert(a =~= b) by {
            assert forall|i: int| 0 <= i < a.len() implies a[i] == b[i] by {
                if i > 0 {
                    assert(a[i] == a1[i - 1] && b[i] == b1[i - 1]);
                }
            }
        }
    }
}

} // verus!

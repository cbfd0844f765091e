//! The crawl engine: the coordinator's state and the steps of a worker.
//!
//! A driver owns one [`Crawl`] and lets its workers call into it, one call
//! at a time. A worker asks for work with [`Crawl::next_task`], fetches
//! outside the engine, and reports with [`Crawl::page_fetched`] or
//! [`Crawl::fetch_failed`]. Every step takes the crawl by exclusive
//! reference, so no step of one worker can fall between the test and the
//! change of another's.

use crate::fetch::{after_failure, recovery, FetchError, Handler, Recovery};
use crate::frontier::Frontier;
use crate::model::{claim_each, lemma_busy_bounds, lemma_busy_update, lemma_claim_each, CrawlModel,
    Job, Misuse};
use crate::registry::VisitedRegistry;
use crate::url::{is_absolute, is_absolute_url, LinkFilter};
use vstd::prelude::*;
use vstd::utf8::encode_utf8;

verus! {

/// Why a crawl could not start.
#[derive(Debug, Clone, Copy, PartialEq, Eq, Structural)]
pub enum ConfigError {
    /// The seed is no absolute URL.
    InvalidSeed,
    /// The crawl was given no worker.
    NoWorkers,
}

/// How the fetch of a URL ended.
#[derive(Debug, Clone, Copy, PartialEq, Eq, Structural)]
pub enum Outcome {
    /// The page came and its links were taken in.
    Fetched,
    /// The fetch failed for good, with the given kind of failure.
    Failed(FetchError),
}

/// What is persisted for a URL that was crawled.
#[derive(Debug, PartialEq, Eq)]
pub struct CrawlRecord {
    /// The URL.
    pub url: String,
    /// The number of the worker that fetched it.
    pub worker: usize,
    /// How the fetch ended.
    pub outcome: Outcome,
}

/// What a worker that asked for work is to do.
#[derive(Debug, PartialEq, Eq)]
pub enum Task {
    /// Fetch `url` through `handler` and report.
    Fetch { url: String, handler: Handler },
    /// Nothing waits, but a busy worker may still find links: ask again.
    Wait,
    /// The crawl is over: leave.
    Stop,
}

/// What a worker that reported a failed fetch is to do.
#[derive(Debug, PartialEq, Eq)]
pub enum Followup {
    /// Fetch `url` once more, through `handler`, and report.
    Retry { url: String, handler: Handler },
    /// Persist the record; the URL is done with.
    Persist(CrawlRecord),
}

/// The totals of a crawl.
#[derive(Debug, Clone, Copy, PartialEq, Eq, Structural)]
pub struct CrawlStats {
    /// How many URLs have their record.
    pub visited: usize,
    /// How many of those records report a failure.
    pub failed: usize,
}

#[derive(Clone, Copy)]
struct Slot {
    index: usize,
    retried: bool,
}

spec fn job_of(slot: Option<Slot>) -> Option<Job> {
    match slot {
        Some(s) => Some(Job { index: s.index as int, retried: s.retried }),
        None => None,
    }
}

spec fn jobs_of(slots: Seq<Option<Slot>>) -> Seq<Option<Job>> {
    Seq::new(slots.len(), |w: int| job_of(slots[w]))
}

/// Offers `links` in turn: each one that `filter` lets pass is claimed in
/// `visited`, and each one whose claim wins is pushed onto `frontier`. A link
/// that was claimed before is passed over. So `frontier` grows by exactly
/// the URLs that `visited` grows by, in the same order.
pub fn enqueue_new_links(
    filter: &LinkFilter,
    visited: &mut VisitedRegistry,
    frontier: &mut Frontier,
    links: &Vec<String>,
)
    requires
        old(visited).wf(),
    ensures
        final(visited).wf(),
        final(visited).order() == claim_each(
            filter.extensions(),
            old(visited).order(),
            links.deep_view(),
        ),
        final(frontier)@ == old(frontier)@ + final(visited).order().skip(
            old(visited).order().len() as int,
        ),
{
    let ghost denied = filter.extensions();
    let ghost order = visited.order();
    let ghost waiting = frontier@;
    let ghost offered = links.deep_view();
    let mut i: usize = 0;
    assert(offered.take(0) =~= Seq::<Seq<char>>::empty());
    assert(waiting + order.skip(order.len() as int) =~= waiting);
    while i < links.len()
        invariant
            i <= links.len(),
            denied == filter.extensions(),
            offered == links.deep_view(),
            order.no_duplicates(),
            visited.wf(),
            visited.order() == claim_each(denied, order, offered.take(i as int)),
            order.len() <= visited.order().len(),
            frontier@ == waiting + visited.order().skip(order.len() as int),
        decreases links.len() - i,
    {
        let link = &links[i];
        proof {
            assert(offered.take(i + 1).drop_last() =~= offered.take(i as int));
            assert(offered.take(i + 1).last() == link@);
            lemma_claim_each(denied, order, offered.take(i + 1));
        }
        if filter.is_crawlable(link.as_str()) {
            if visited.try_claim(link.clone()) {
                frontier.push(link.clone());
                assert(frontier@ =~= waiting + visited.order().skip(order.len() as int));
            }
        }
        i += 1;
    }
    assert(offered.take(links.len() as int) =~= offered);
}

/// Whether a crawl that has ended counts as failed. It does only where
/// that was asked for by `empty_is_fatal` and the crawl was empty: nothing
/// but the seed was ever claimed, because its fetch failed or its page held
/// no link to take. By default an empty crawl is an ordinary end.
pub open spec fn ends_in_failure(claimed: int, empty_is_fatal: bool) -> bool {
    empty_is_fatal && claimed <= 1
}

/// Whether a crawl that has ended with `claimed` claims counts as failed.
pub fn crawl_failed(claimed: usize, empty_is_fatal: bool) -> (failed: bool)
    ensures
        failed == ends_in_failure(claimed as int, empty_is_fatal),
{
    empty_is_fatal && claimed <= 1
}

/// The state of a crawl: what was claimed, what waits, who works on what.
pub struct Crawl {
    filter: LinkFilter,
    visited: VisitedRegistry,
    frontier: Frontier,
    slots: Vec<Option<Slot>>,
    busy: usize,
    dispatched: usize,
    completed: usize,
    failed: usize,
    stopped: bool,
    pages: Ghost<Seq<Option<Seq<Seq<char>>>>>,
}

impl Crawl {
    /// What the state means.
    pub closed spec fn view(&self) -> CrawlModel {
        CrawlModel {
            denied: self.filter.extensions(),
            order: self.visited.order(),
            dispatched: self.dispatched as nat,
            jobs: jobs_of(self.slots@),
            pages: self.pages@,
            completed: self.completed as nat,
            failed: self.failed as nat,
            stopped: self.stopped,
        }
    }

    /// The frontier and the count of busy workers are kept in step with the
    /// rest of the state.
    pub closed spec fn in_step(&self) -> bool {
        &&& self.frontier@ == self@.pending()
        &&& self.busy == self@.busy()
    }

    /// The state is one that a crawl can reach.
    pub open spec fn wf(&self) -> bool {
        self@.inv() && self.in_step()
    }

    /// Starts a crawl: claims `seed` and puts it on the frontier, with
    /// `workers` idle workers, numbered from 0. Fails, before anything is
    /// claimed, if `seed` is no absolute URL or if there is no worker.
    pub fn start(seed: String, workers: usize, filter: LinkFilter) -> (made: Result<
        Crawl,
        ConfigError,
    >)
        ensures
            match made {
                Ok(crawl) => {
                    &&& is_absolute(encode_utf8(seed@))
                    &&& workers >= 1
                    &&& crawl.wf()
                    &&& crawl@ == CrawlModel::initial(filter.extensions(), seed@, workers as nat)
                },
                Err(ConfigError::InvalidSeed) => !is_absolute(encode_utf8(seed@)),
                Err(ConfigError::NoWorkers) => is_absolute(encode_utf8(seed@)) && workers == 0,
            },
    {
        if !is_absolute_url(seed.as_str()) {
            return Err(ConfigError::InvalidSeed);
        }
        if workers == 0 {
            return Err(ConfigError::NoWorkers);
        }
        let ghost denied = filter.extensions();
        let ghost first = seed@;
        let ghost unseen = CrawlModel::initial(denied, first, workers as nat).pages;
        let mut slots: Vec<Option<Slot>> = Vec::new();
        let mut w: usize = 0;
        while w < workers
            invariant
                w <= workers,
                slots@.len() == w,
                forall|k: int| 0 <= k < w ==> slots@[k] is None,
            decreases workers - w,
        {
            slots.push(None);
            w += 1;
        }
        let mut visited = VisitedRegistry::new();
        let mut frontier = Frontier::new();
        let won = visited.try_claim(seed.clone());
        assert(won);
        frontier.push(seed);
        let crawl = Crawl {
            filter,
            visited,
            frontier,
            slots,
            busy: 0,
            dispatched: 0,
            completed: 0,
            failed: 0,
            stopped: false,
            pages: Ghost(unseen),
        };
        proof {
            let m = CrawlModel::initial(denied, first, workers as nat);
            CrawlModel::lemma_initial_inv(denied, first, workers as nat);
            assert(crawl@.jobs =~= m.jobs);
            assert(crawl@.order =~= m.order);
            assert(crawl.frontier@ =~= m.pending());
        }
        Ok(crawl)
    }

    /// `worker` asks for work. It is handed the URL that has waited longest,
    /// through the primary handler; or told to wait, if nothing waits while
    /// another worker is busy; or told to stop, if the end was declared or
    /// nothing waits and nobody is busy, which declares the end. A worker
    /// that the crawl does not have, or that still holds a URL, is refused
    /// and nothing changes.
    pub fn next_task(&mut self, worker: usize) -> (task: Result<Task, Misuse>)
        requires
            old(self).wf(),
        ensures
            final(self).wf(),
            final(self)@ == old(self)@.after_ask(worker as int),
            match task {
                Ok(Task::Fetch { url, handler }) => {
                    &&& old(self)@.gives_work(worker as int)
                    &&& url@ == old(self)@.order[old(self)@.dispatched as int]
                    &&& handler == Handler::Primary
                },
                Ok(Task::Wait) => old(self)@.must_wait(worker as int),
                Ok(Task::Stop) => old(self)@.tells_stop(worker as int),
                Err(misuse) => old(self)@.ask_misuse(worker as int) == Some(misuse),
            },
    {
        let ghost before = self@;
        proof {
            before.lemma_ask_inv(worker as int);
            lemma_busy_bounds(before.jobs);
            self.visited.lemma_len_fits();
        }
        if worker >= self.slots.len() {
            return Err(Misuse::UnknownWorker);
        }
        assert(before.jobs[worker as int] == job_of(self.slots@[worker as int]));
        if self.slots[worker].is_some() {
            return Err(Misuse::WorkerBusy);
        }
        if self.stopped {
            return Ok(Task::Stop);
        }
        match self.frontier.pop() {
            Some(url) => {
                let slot = Slot { index: self.dispatched, retried: false };
                self.slots.set(worker, Some(slot));
                self.busy = self.busy + 1;
                self.dispatched = self.dispatched + 1;
                proof {
                    let job = Some(Job { index: before.dispatched as int, retried: false });
                    lemma_busy_update(before.jobs, worker as int, job);
                    assert(self@.jobs =~= before.jobs.update(worker as int, job));
                    assert(self.frontier@ =~= self@.pending());
                }
                Ok(Task::Fetch { url, handler: Handler::Primary })
            },
            None => {
                if self.busy == 0 {
                    self.stopped = true;
                    Ok(Task::Stop)
                } else {
                    Ok(Task::Wait)
                }
            },
        }
    }

    /// `worker` reports that its fetch brought a page whose links are
    /// `links`. Each link that the filter lets pass and that was never
    /// claimed is claimed and put on the frontier, once, in the order in
    /// which the links come; every other link is passed over. The worker
    /// becomes idle, and the record to persist for its URL is returned. A
    /// worker that the crawl does not have, or that holds no URL, is refused
    /// and nothing changes.
    pub fn page_fetched(&mut self, worker: usize, links: &Vec<String>) -> (done: Result<
        CrawlRecord,
        Misuse,
    >)
        requires
            old(self).wf(),
        ensures
            final(self).wf(),
            final(self)@ == old(self)@.after_page(worker as int, links.deep_view()),
            match done {
                Ok(record) => {
                    &&& old(self)@.report_misuse(worker as int) is None
                    &&& record.url@ == old(self)@.url_of(worker as int)
                    &&& record.worker == worker
                    &&& record.outcome == Outcome::Fetched
                },
                Err(misuse) => old(self)@.report_misuse(worker as int) == Some(misuse),
            },
    {
        let ghost before = self@;
        proof {
            before.lemma_page_inv(worker as int, links.deep_view());
            lemma_busy_bounds(before.jobs);
        }
        if worker >= self.slots.len() {
            return Err(Misuse::UnknownWorker);
        }
        assert(before.jobs[worker as int] == job_of(self.slots@[worker as int]));
        let slot = match self.slots[worker] {
            Some(slot) => slot,
            None => {
                return Err(Misuse::WorkerIdle);
            },
        };
        let url = self.visited.get(slot.index).clone();
        enqueue_new_links(&self.filter, &mut self.visited, &mut self.frontier, links);
        self.slots.set(worker, None);
        self.busy = self.busy - 1;
        self.completed = self.completed + 1;
        self.pages = Ghost(before.after_page(worker as int, links.deep_view()).pages);
        proof {
            lemma_busy_update(before.jobs, worker as int, None);
            lemma_claim_each(before.denied, before.order, links.deep_view());
            assert(self@.jobs =~= before.jobs.update(worker as int, None));
            assert(self.frontier@ =~= self@.pending()) by {
                assert(before.order =~= self@.order.take(before.order.len() as int));
            }
        }
        Ok(CrawlRecord { url, worker, outcome: Outcome::Fetched })
    }

    /// `worker` reports that its fetch failed with `error`. If that was a
    /// first attempt and the failure is `UnsupportedScheme`, the worker keeps
    /// its URL and is told to fetch it once more through the alternate
    /// handler. Otherwise the failure is final: the worker becomes idle and
    /// the record to persist is returned, with the failure kind that the
    /// retry policy gives. No link is claimed either way. A worker that the
    /// crawl does not have, or that holds no URL, is refused and nothing
    /// changes.
    pub fn fetch_failed(&mut self, worker: usize, error: FetchError) -> (next: Result<
        Followup,
        Misuse,
    >)
        requires
            old(self).wf(),
        ensures
            final(self).wf(),
            final(self)@ == old(self)@.after_failure(worker as int, error),
            match next {
                Ok(Followup::Retry { url, handler }) => {
                    &&& old(self)@.retries(worker as int, error)
                    &&& url@ == old(self)@.url_of(worker as int)
                    &&& handler == Handler::Alternate
                },
                Ok(Followup::Persist(record)) => {
                    &&& old(self)@.report_misuse(worker as int) is None
                    &&& !old(self)@.retries(worker as int, error)
                    &&& record.url@ == old(self)@.url_of(worker as int)
                    &&& record.worker == worker
                    &&& recovery(old(self)@.jobs[worker as int].unwrap().retried, error)
                        == Recovery::GiveUp(record.outcome->Failed_0)
                    &&& record.outcome is Failed
                },
                Err(misuse) => old(self)@.report_misuse(worker as int) == Some(misuse),
            },
    {
        let ghost before = self@;
        proof {
            before.lemma_failure_inv(worker as int, error);
            lemma_busy_bounds(before.jobs);
        }
        if worker >= self.slots.len() {
            return Err(Misuse::UnknownWorker);
        }
        assert(before.jobs[worker as int] == job_of(self.slots@[worker as int]));
        let slot = match self.slots[worker] {
            Some(slot) => slot,
            None => {
                return Err(Misuse::WorkerIdle);
            },
        };
        let url = self.visited.get(slot.index).clone();
        match after_failure(slot.retried, error) {
            Recovery::Retry => {
                self.slots.set(worker, Some(Slot { index: slot.index, retried: true }));
                proof {
                    let job = Some(Job { index: slot.index as int, retried: true });
                    lemma_busy_update(before.jobs, worker as int, job);
                    assert(self@.jobs =~= before.jobs.update(worker as int, job));
                }
                Ok(Followup::Retry { url, handler: Handler::Alternate })
            },
            Recovery::GiveUp(kind) => {
                self.slots.set(worker, None);
                self.busy = self.busy - 1;
                self.completed = self.completed + 1;
                self.failed = self.failed + 1;
                self.pages = Ghost(before.after_failure(worker as int, error).pages);
                proof {
                    lemma_busy_update(before.jobs, worker as int, None);
                    assert(self@.jobs =~= before.jobs.update(worker as int, None));
                }
                Ok(Followup::Persist(CrawlRecord { url, worker, outcome: Outcome::Failed(kind) }))
            },
        }
    }

    /// The filter that decides which links this crawl takes.
    pub fn filter(&self) -> (filter: &LinkFilter)
        ensures
            filter.extensions() == self@.denied,
    {
        &self.filter
    }

    /// Whether the crawl is complete: nothing waits and nobody works.
    pub fn is_complete(&self) -> (complete: bool)
        requires
            self.wf(),
        ensures
            complete == self@.is_complete(),
    {
        self.frontier.is_empty() && self.busy == 0
    }

    /// Whether the end of the crawl was declared.
    pub fn is_stopped(&self) -> (stopped: bool)
        ensures
            stopped == self@.stopped,
    {
        self.stopped
    }

    /// How many workers the crawl has.
    pub fn workers(&self) -> (n: usize)
        ensures
            n == self@.jobs.len(),
    {
        self.slots.len()
    }

    /// How many workers hold a URL.
    pub fn busy_workers(&self) -> (n: usize)
        requires
            self.wf(),
        ensures
            n == self@.busy(),
    {
        self.busy
    }

    /// How many URLs wait on the frontier.
    pub fn pending(&self) -> (n: usize)
        requires
            self.wf(),
        ensures
            n == self@.pending().len(),
    {
        self.frontier.len()
    }

    /// How many URLs were claimed, the seed included.
    pub fn claimed(&self) -> (n: usize)
        ensures
            n == self@.order.len(),
    {
        self.visited.len()
    }

    /// The crawl counter: how many URLs were handed to a worker.
    pub fn dispatched(&self) -> (n: usize)
        ensures
            n == self@.dispatched,
    {
        self.dispatched
    }

    /// Whether `url` was claimed.
    pub fn has_claimed(&self, url: &String) -> (found: bool)
        ensures
            found == self@.order.contains(url@),
    {
        self.visited.contains(url)
    }

    /// The totals so far: how many URLs have their record, and how many of
    /// the records report a failure.
    pub fn stats(&self) -> (stats: CrawlStats)
        ensures
            stats.visited == self@.completed,
            stats.failed == self@.failed,
    {
        CrawlStats { visited: self.completed, failed: self.failed }
    }
}

} // verus!

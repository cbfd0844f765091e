//! The crawl as a state machine over plain mathematical values.
//!
//! [`CrawlModel`] is what the engine's state means; the transition functions
//! say what each operation of the engine does to it. The engine's contracts
//! are stated in these terms, and what holds of every crawl is proved here
//! once, of the model.

use crate::fetch::{recovery, FetchError, Recovery};
use crate::url::{crawlable, is_absolute};
use vstd::prelude::*;
use vstd::set_lib::lemma_len_subset;
use vstd::utf8::encode_utf8;

verus! {

/// What a busy worker is working on.
pub struct Job {
    /// The position of the URL in the order of claims.
    pub index: int,
    /// Whether the fetch under way is the retry.
    pub retried: bool,
}

/// A call that does not fit the state of the worker it names.
#[derive(Debug, Clone, Copy, PartialEq, Eq, Structural)]
pub enum Misuse {
    /// The crawl has no worker of that number.
    UnknownWorker,
    /// The worker asked for work while it still holds a URL.
    WorkerBusy,
    /// The worker reported on a fetch while it holds no URL.
    WorkerIdle,
}

/// How many workers hold a URL.
pub open spec fn busy_count(jobs: Seq<Option<Job>>) -> nat
    decreases jobs.len(),
{
    if jobs.len() == 0 {
        0
    } else {
        busy_count(jobs.drop_last()) + if jobs.last() is Some {
            1nat
        } else {
            0nat
        }
    }
}

/// Giving one worker another job changes the count by that worker alone.
pub proof fn lemma_busy_update(jobs: Seq<Option<Job>>, worker: int, job: Option<Job>)
    requires
        0 <= worker < jobs.len(),
    ensures
        busy_count(jobs.update(worker, job)) + (if jobs[worker] is Some {
            1nat
        } else {
            0nat
        }) == busy_count(jobs) + (if job is Some {
            1nat
        } else {
            0nat
        }),
    decreases jobs.len(),
{
    let changed = jobs.update(worker, job);
    if worker == jobs.len() - 1 {
        assert(changed.drop_last() =~= jobs.drop_last());
    } else {
        assert(changed.drop_last() =~= jobs.drop_last().update(worker, job));
        lemma_busy_update(jobs.drop_last(), worker, job);
    }
}

/// The count is at most the number of workers, it counts every busy worker,
/// and it is zero exactly when every worker is idle.
pub proof fn lemma_busy_bounds(jobs: Seq<Option<Job>>)
    ensures
        busy_count(jobs) <= jobs.len(),
        busy_count(jobs) == 0 <==> (forall|w: int| 0 <= w < jobs.len() ==> jobs[w] is None),
        (exists|w: int| 0 <= w < jobs.len() && jobs[w] is None) ==> busy_count(jobs) < jobs.len(),
    decreases jobs.len(),
{
    if jobs.len() > 0 {
        let front = jobs.drop_last();
        lemma_busy_bounds(front);
        if busy_count(jobs) == 0 {
            assert forall|w: int| 0 <= w < jobs.len() implies jobs[w] is None by {
                if w < jobs.len() - 1 {
                    assert(front[w] is None);
                }
            }
        }
        if forall|w: int| 0 <= w < jobs.len() ==> jobs[w] is None {
            assert forall|w: int| 0 <= w < front.len() implies front[w] is None by {
                assert(jobs[w] is None);
            }
        }
        if exists|w: int| 0 <= w < jobs.len() && jobs[w] is None {
            let w = choose|w: int| 0 <= w < jobs.len() && jobs[w] is None;
            if w < jobs.len() - 1 {
                assert(front[w] is None);
            }
        }
    }
}

/// How many workers are at their retry.
pub open spec fn retry_count(jobs: Seq<Option<Job>>) -> nat
    decreases jobs.len(),
{
    if jobs.len() == 0 {
        0
    } else {
        retry_count(jobs.drop_last()) + if at_retry(jobs.last()) {
            1nat
        } else {
            0nat
        }
    }
}

/// The job is there and its fetch is the retry.
pub open spec fn at_retry(job: Option<Job>) -> bool {
    job is Some && job.unwrap().retried
}

/// Giving one worker another job changes the count of retries by that
/// worker alone.
pub proof fn lemma_retry_update(jobs: Seq<Option<Job>>, worker: int, job: Option<Job>)
    requires
        0 <= worker < jobs.len(),
    ensures
        retry_count(jobs.update(worker, job)) + (if at_retry(jobs[worker]) {
            1nat
        } else {
            0nat
        }) == retry_count(jobs) + (if at_retry(job) {
            1nat
        } else {
            0nat
        }),
    decreases jobs.len(),
{
    let changed = jobs.update(worker, job);
    if worker == jobs.len() - 1 {
        assert(changed.drop_last() =~= jobs.drop_last());
    } else {
        assert(changed.drop_last() =~= jobs.drop_last().update(worker, job));
        lemma_retry_update(jobs.drop_last(), worker, job);
    }
}

/// No more workers are at their retry than are busy.
pub proof fn lemma_retry_bound(jobs: Seq<Option<Job>>)
    ensures
        retry_count(jobs) <= busy_count(jobs),
    decreases jobs.len(),
{
    if jobs.len() > 0 {
        lemma_retry_bound(jobs.drop_last());
    }
}

/// Some worker holds the URL at position `index`.
pub open spec fn held(jobs: Seq<Option<Job>>, index: int) -> bool {
    exists|w: int|
        0 <= w < jobs.len() && (#[trigger] jobs[w]) is Some && jobs[w].unwrap().index == index
}

/// Giving one worker another job changes who holds what for the URLs of
/// its old and its new job alone.
pub proof fn lemma_held_update(jobs: Seq<Option<Job>>, worker: int, job: Option<Job>, index: int)
    requires
        0 <= worker < jobs.len(),
        jobs[worker] is Some ==> jobs[worker].unwrap().index != index,
        job is Some ==> job.unwrap().index != index,
    ensures
        held(jobs.update(worker, job), index) == held(jobs, index),
{
    let changed = jobs.update(worker, job);
    if held(jobs, index) {
        let w = choose|w: int|
            0 <= w < jobs.len() && (#[trigger] jobs[w]) is Some && jobs[w].unwrap().index == index;
        assert(changed[w] is Some && changed[w].unwrap().index == index);
    }
    if held(changed, index) {
        let w = choose|w: int|
            0 <= w < changed.len() && (#[trigger] changed[w]) is Some && changed[w].unwrap().index
                == index;
        assert(jobs[w] is Some && jobs[w].unwrap().index == index);
    }
}

/// The order of claims after the links of one page were offered in turn:
/// each link that may be crawled and was not claimed before is claimed, and
/// every other link changes nothing.
pub open spec fn claim_each(
    denied: Seq<Seq<char>>,
    order: Seq<Seq<char>>,
    links: Seq<Seq<char>>,
) -> Seq<Seq<char>>
    decreases links.len(),
{
    if links.len() == 0 {
        order
    } else {
        let before = claim_each(denied, order, links.drop_last());
        let link = links.last();
        if crawlable(denied, link) && !before.contains(link) {
            before.push(link)
        } else {
            before
        }
    }
}

/// What the engine's state means.
pub struct CrawlModel {
    /// The denied extensions.
    pub denied: Seq<Seq<char>>,
    /// Every URL claimed so far, the seed first, in the order of the claims.
    pub order: Seq<Seq<char>>,
    /// How many URLs were handed to a worker: the crawl counter. The URLs
    /// behind this position wait in the frontier.
    pub dispatched: nat,
    /// For each worker, the job it holds.
    pub jobs: Seq<Option<Job>>,
    /// For each claimed URL, by its position in `order`: the links that its
    /// page gave, once it has its record. A failed fetch gives no links.
    pub pages: Seq<Option<Seq<Seq<char>>>>,
    /// How many URLs have their record.
    pub completed: nat,
    /// How many of those records report a failure.
    pub failed: nat,
    /// Whether the end of the crawl was declared.
    pub stopped: bool,
}

impl CrawlModel {
    /// The frontier: the URLs that were claimed and not yet handed out.
    pub open spec fn pending(self) -> Seq<Seq<char>> {
        self.order.skip(self.dispatched as int)
    }

    /// How many workers hold a URL.
    pub open spec fn busy(self) -> nat {
        busy_count(self.jobs)
    }

    /// The crawl is complete: nothing waits and nobody works.
    pub open spec fn is_complete(self) -> bool {
        self.pending().len() == 0 && self.busy() == 0
    }

    /// The URL that `worker` holds, if it holds one.
    pub open spec fn url_of(self, worker: int) -> Seq<char> {
        self.order[self.jobs[worker].unwrap().index]
    }

    /// An upper bound on the steps that a crawl over at most `size` URLs
    /// still has to make: three for a URL that waits or is yet to be found
    /// (hand out, retry, record), fewer for one that is under way, none for
    /// one that has its record.
    pub open spec fn work_left(self, size: nat) -> int {
        3 * size - self.dispatched - 2 * self.completed - retry_count(self.jobs)
    }

    /// Some worker holds the URL at position `index`.
    pub open spec fn in_flight(self, index: int) -> bool {
        held(self.jobs, index)
    }

    /// The URL at position `index` has its record.
    pub open spec fn recorded(self, index: int) -> bool {
        0 <= index < self.dispatched && !self.in_flight(index)
    }

    /// Every link of the page at position `k` that may be crawled was
    /// claimed.
    pub open spec fn links_claimed(self, k: int) -> bool {
        self.pages[k] matches Some(links) ==> forall|i: int|
            0 <= i < links.len() && crawlable(self.denied, #[trigger] links[i])
                ==> self.order.contains(links[i])
    }

    /// The URL at position `k` is a link of the page at the earlier position
    /// `p`.
    pub open spec fn found_on(self, k: int, p: int) -> bool {
        0 <= p < k && self.pages[p] is Some && self.pages[p].unwrap().contains(self.order[k])
    }

    /// The URL at position `k` is a link of a page claimed before it.
    pub open spec fn was_found(self, k: int) -> bool {
        exists|p: int| self.found_on(k, p)
    }

    /// What holds of every state that a crawl can reach.
    pub open spec fn inv(self) -> bool {
        &&& self.order.len() >= 1
        &&& self.order.no_duplicates()
        &&& is_absolute(encode_utf8(self.order[0]))
        &&& forall|k: int|
            1 <= k < self.order.len() ==> crawlable(self.denied, #[trigger] self.order[k])
        &&& self.dispatched <= self.order.len()
        &&& self.jobs.len() >= 1
        &&& forall|w: int|
            0 <= w < self.jobs.len() && (#[trigger] self.jobs[w]) is Some ==> 0
                <= self.jobs[w].unwrap().index < self.dispatched
        &&& forall|v: int, w: int|
            0 <= v < w < self.jobs.len() && (#[trigger] self.jobs[v]) is Some && (
            #[trigger] self.jobs[w]) is Some ==> self.jobs[v].unwrap().index
                != self.jobs[w].unwrap().index
        &&& self.completed + self.busy() == self.dispatched
        &&& self.failed <= self.completed
        &&& self.stopped ==> self.is_complete()
        &&& self.pages.len() == self.order.len()
        &&& forall|k: int|
            0 <= k < self.order.len() ==> (self.pages[k] is Some <==> #[trigger] self.recorded(k))
        &&& forall|k: int| 0 <= k < self.order.len() ==> #[trigger] self.links_claimed(k)
        &&& forall|k: int| 1 <= k < self.order.len() ==> #[trigger] self.was_found(k)
    }

    /// The state in which a crawl starts: the seed is claimed and waits,
    /// every worker is idle.
    pub open spec fn initial(denied: Seq<Seq<char>>, seed: Seq<char>, workers: nat) -> CrawlModel {
        CrawlModel {
            denied,
            order: seq![seed],
            dispatched: 0,
            jobs: Seq::new(workers, |w: int| None::<Job>),
            pages: seq![None],
            completed: 0,
            failed: 0,
            stopped: false,
        }
    }

    /// Why `worker` may not ask for work, if it may not.
    pub open spec fn ask_misuse(self, worker: int) -> Option<Misuse> {
        if worker < 0 || worker >= self.jobs.len() {
            Some(Misuse::UnknownWorker)
        } else if self.jobs[worker] is Some {
            Some(Misuse::WorkerBusy)
        } else {
            None
        }
    }

    /// Why `worker` may not report on a fetch, if it may not.
    pub open spec fn report_misuse(self, worker: int) -> Option<Misuse> {
        if worker < 0 || worker >= self.jobs.len() {
            Some(Misuse::UnknownWorker)
        } else if self.jobs[worker] is None {
            Some(Misuse::WorkerIdle)
        } else {
            None
        }
    }

    /// `worker` asks and gets a URL: the crawl goes on and something waits.
    pub open spec fn gives_work(self, worker: int) -> bool {
        self.ask_misuse(worker) is None && !self.stopped && self.dispatched < self.order.len()
    }

    /// `worker` asks and is told to wait: nothing waits, but a busy worker
    /// may still find links.
    pub open spec fn must_wait(self, worker: int) -> bool {
        self.ask_misuse(worker) is None && !self.stopped && self.dispatched >= self.order.len()
            && self.busy() > 0
    }

    /// `worker` asks and is told to stop: the end was declared before, or it
    /// is declared now because nothing waits and nobody works.
    pub open spec fn tells_stop(self, worker: int) -> bool {
        self.ask_misuse(worker) is None && (self.stopped || (self.dispatched >= self.order.len()
            && self.busy() == 0))
    }

    /// The state after `worker` asked for work.
    pub open spec fn after_ask(self, worker: int) -> CrawlModel {
        if self.gives_work(worker) {
            CrawlModel {
                dispatched: self.dispatched + 1,
                jobs: self.jobs.update(
                    worker,
                    Some(Job { index: self.dispatched as int, retried: false }),
                ),
                ..self
            }
        } else if self.tells_stop(worker) {
            CrawlModel { stopped: true, ..self }
        } else {
            self
        }
    }

    /// The state after `worker` reported a page whose links are `links`.
    pub open spec fn after_page(self, worker: int, links: Seq<Seq<char>>) -> CrawlModel {
        if self.report_misuse(worker) is Some {
            self
        } else {
            let order = claim_each(self.denied, self.order, links);
            CrawlModel {
                order,
                jobs: self.jobs.update(worker, None),
                pages: self.pages.update(self.jobs[worker].unwrap().index, Some(links)) + Seq::new(
                    (order.len() - self.order.len()) as nat,
                    |i: int| None,
                ),
                completed: self.completed + 1,
                ..self
            }
        }
    }

    /// Whether the failure that `worker` reports leads to a retry.
    pub open spec fn retries(self, worker: int, error: FetchError) -> bool {
        self.report_misuse(worker) is None && recovery(
            self.jobs[worker].unwrap().retried,
            error,
        ) == Recovery::Retry
    }

    /// The state after `worker` reported that its fetch failed with `error`.
    pub open spec fn after_failure(self, worker: int, error: FetchError) -> CrawlModel {
        if self.report_misuse(worker) is Some {
            self
        } else if self.retries(worker, error) {
            CrawlModel {
                jobs: self.jobs.update(
                    worker,
                    Some(Job { index: self.jobs[worker].unwrap().index, retried: true }),
                ),
                ..self
            }
        } else {
            CrawlModel {
                jobs: self.jobs.update(worker, None),
                pages: self.pages.update(self.jobs[worker].unwrap().index, Some(Seq::empty())),
                completed: self.completed + 1,
                failed: self.failed + 1,
                ..self
            }
        }
    }
}

/// What claiming the links of a page does: the earlier claims stay where
/// they were, nothing is claimed twice, every new claim is a crawlable link
/// of the page that was not claimed before, and no crawlable link of the
/// page is left unclaimed.
pub proof fn lemma_claim_each(denied: Seq<Seq<char>>, order: Seq<Seq<char>>, links: Seq<Seq<char>>)
    requires
        order.no_duplicates(),
    ensures
        order.len() <= claim_each(denied, order, links).len() <= order.len() + links.len(),
        claim_each(denied, order, links).take(order.len() as int) == order,
        claim_each(denied, order, links).no_duplicates(),
        forall|k: int|
            order.len() <= k < claim_each(denied, order, links).len() ==> {
                let url = #[trigger] claim_each(denied, order, links)[k];
                crawlable(denied, url) && links.contains(url) && !order.contains(url)
            },
        forall|i: int|
            0 <= i < links.len() && crawlable(denied, #[trigger] links[i]) ==> claim_each(
                denied,
                order,
                links,
            ).contains(links[i]),
    decreases links.len(),
{
    let after = claim_each(denied, order, links);
    if links.len() == 0 {
        assert(after.take(order.len() as int) =~= order);
    } else {
        let front = links.drop_last();
        let before = claim_each(denied, order, front);
        let link = links.last();
        lemma_claim_each(denied, order, front);
        assert(after.take(order.len() as int) =~= before.take(order.len() as int));
        assert forall|k: int| order.len() <= k < after.len() implies {
            let url = #[trigger] after[k];
            crawlable(denied, url) && links.contains(url) && !order.contains(url)
        } by {
            let url = after[k];
            if k < before.len() {
                assert(url == before[k]);
                let i = choose|i: int| 0 <= i < front.len() && front[i] == url;
                assert(links[i] == url);
            } else {
                assert(url == link);
                assert(links[links.len() - 1] == url);
                if order.contains(url) {
                    let j = choose|j: int| 0 <= j < order.len() && order[j] == url;
                    assert(before.take(order.len() as int)[j] == before[j]);
                }
            }
        }
        assert forall|i: int|
            0 <= i < links.len() && crawlable(denied, #[trigger] links[i]) implies after.contains(
            links[i],
        ) by {
            if i < front.len() {
                assert(front[i] == links[i]);
                let j = choose|j: int| 0 <= j < before.len() && before[j] == links[i];
                assert(after[j] == links[i]);
            } else if before.contains(link) {
                let j = choose|j: int| 0 <= j < before.len() && before[j] == link;
                assert(after[j] == link);
            } else {
                assert(after[after.len() - 1] == link);
            }
        }
    }
}

/// No link is lost and none is enqueued twice. Of the links of a page, each
/// one that may be crawled either was claimed before the page came, or is
/// among the URLs that the page adds, and never both; and the URLs that the
/// page adds are all different.
pub proof fn lemma_no_lost_links(
    denied: Seq<Seq<char>>,
    order: Seq<Seq<char>>,
    links: Seq<Seq<char>>,
)
    requires
        order.no_duplicates(),
    ensures
        claim_each(denied, order, links).skip(order.len() as int).no_duplicates(),
        forall|i: int|
            0 <= i < links.len() && crawlable(denied, #[trigger] links[i]) ==> (order.contains(
                links[i],
            ) != claim_each(denied, order, links).skip(order.len() as int).contains(links[i])),
{
    let after = claim_each(denied, order, links);
    let added = after.skip(order.len() as int);
    lemma_claim_each(denied, order, links);
    assert forall|i: int|
        0 <= i < links.len() && crawlable(denied, #[trigger] links[i]) implies (order.contains(
        links[i],
    ) != added.contains(links[i])) by {
        let link = links[i];
        let k = choose|k: int| 0 <= k < after.len() && after[k] == link;
        if k < order.len() {
            assert(after.take(order.len() as int)[k] == link);
            if added.contains(link) {
                let j = choose|j: int| 0 <= j < added.len() && added[j] == link;
                assert(after[order.len() + j] == link);
            }
        } else {
            assert(added[k - order.len()] == link);
        }
    }
}

impl CrawlModel {
    /// A crawl that starts from an absolute seed with at least one worker
    /// starts in a state that meets the invariant, with every worker idle.
    pub proof fn lemma_initial_inv(denied: Seq<Seq<char>>, seed: Seq<char>, workers: nat)
        requires
            is_absolute(encode_utf8(seed)),
            workers >= 1,
        ensures
            CrawlModel::initial(denied, seed, workers).inv(),
            CrawlModel::initial(denied, seed, workers).busy() == 0,
            CrawlModel::initial(denied, seed, workers).pending() == seq![seed],
    {
        let m = CrawlModel::initial(denied, seed, workers);
        lemma_busy_bounds(m.jobs);
        assert(m.pending() =~= seq![seed]);
    }

    /// A step that leaves the claims and the pages as they are leaves what
    /// the invariant says of them as it is.
    proof fn lemma_pages_carry_over(self, after: CrawlModel)
        requires
            self.inv(),
            after.denied == self.denied,
            after.order == self.order,
            after.pages == self.pages,
        ensures
            forall|k: int| 0 <= k < after.order.len() ==> #[trigger] after.links_claimed(k),
            forall|k: int| 1 <= k < after.order.len() ==> #[trigger] after.was_found(k),
    {
        assert forall|k: int| 0 <= k < after.order.len() implies #[trigger] after.links_claimed(
            k,
        ) by {
            assert(self.links_claimed(k));
        }
        assert forall|k: int| 1 <= k < after.order.len() implies #[trigger] after.was_found(k) by {
            assert(self.was_found(k));
            let p = choose|p: int| self.found_on(k, p);
            assert(after.found_on(k, p));
        }
    }

    /// Asking for work keeps the invariant.
    pub proof fn lemma_ask_inv(self, worker: int)
        requires
            self.inv(),
        ensures
            self.after_ask(worker).inv(),
    {
        let after = self.after_ask(worker);
        self.lemma_pages_carry_over(after);
        if self.gives_work(worker) {
            let job = Some(Job { index: self.dispatched as int, retried: false });
            lemma_busy_update(self.jobs, worker, job);
            assert forall|k: int| 0 <= k < after.order.len() implies (after.pages[k] is Some
                <==> #[trigger] after.recorded(k)) by {
                assert(self.pages[k] is Some <==> self.recorded(k));
                if k == self.dispatched {
                    assert(after.jobs[worker] == job);
                } else {
                    lemma_held_update(self.jobs, worker, job, k);
                }
            }
        } else if self.tells_stop(worker) {
            assert(after.pending() =~= self.pending());
            assert forall|k: int| 0 <= k < after.order.len() implies (after.pages[k] is Some
                <==> #[trigger] after.recorded(k)) by {
                assert(self.pages[k] is Some <==> self.recorded(k));
            }
        }
    }

    /// Reporting a page keeps the invariant.
    pub proof fn lemma_page_inv(self, worker: int, links: Seq<Seq<char>>)
        requires
            self.inv(),
        ensures
            self.after_page(worker, links).inv(),
    {
        let after = self.after_page(worker, links);
        lemma_busy_bounds(self.jobs);
        if self.report_misuse(worker) is None {
            let index = self.jobs[worker].unwrap().index;
            let old_len = self.order.len() as int;
            lemma_busy_update(self.jobs, worker, None);
            lemma_claim_each(self.denied, self.order, links);
            self.lemma_holder_is_unrecorded(worker);
            assert forall|k: int| 0 <= k < old_len implies after.order[k] == self.order[k] by {
                assert(after.order[k] == after.order.take(old_len)[k]);
            }
            assert forall|k: int| 1 <= k < after.order.len() implies crawlable(
                self.denied,
                #[trigger] after.order[k],
            ) by {}
            assert forall|k: int| 0 <= k < after.order.len() implies (after.pages[k] is Some
                <==> #[trigger] after.recorded(k)) by {
                if k == index {
                    self.lemma_recorded_once(worker, links, FetchError::Network);
                } else if k < old_len {
                    lemma_held_update(self.jobs, worker, None, k);
                    assert(self.pages[k] is Some <==> self.recorded(k));
                }
            }
            assert forall|k: int| 0 <= k < after.order.len() implies #[trigger] after.links_claimed(
                k,
            ) by {
                if k == index {
                    assert(after.pages[k] == Some(links));
                } else if k < old_len {
                    assert(self.links_claimed(k));
                    if self.pages[k] is Some {
                        let seen = self.pages[k].unwrap();
                        assert forall|i: int|
                            0 <= i < seen.len() && crawlable(
                                self.denied,
                                #[trigger] seen[i],
                            ) implies after.order.contains(seen[i]) by {
                            let j = choose|j: int| 0 <= j < old_len && self.order[j] == seen[i];
                            assert(after.order[j] == seen[i]);
                        }
                    }
                }
            }
            assert forall|k: int| 1 <= k < after.order.len() implies #[trigger] after.was_found(
                k,
            ) by {
                if k < old_len {
                    assert(self.was_found(k));
                    let p = choose|p: int| self.found_on(k, p);
                    assert(after.found_on(k, p));
                } else {
                    assert(links.contains(after.order[k]));
                    assert(after.found_on(k, index));
                }
            }
        }
    }

    /// Reporting a failure keeps the invariant.
    pub proof fn lemma_failure_inv(self, worker: int, error: FetchError)
        requires
            self.inv(),
        ensures
            self.after_failure(worker, error).inv(),
    {
        let after = self.after_failure(worker, error);
        lemma_busy_bounds(self.jobs);
        if self.report_misuse(worker) is None {
            let index = self.jobs[worker].unwrap().index;
            self.lemma_holder_is_unrecorded(worker);
            if self.retries(worker, error) {
                let job = Some(Job { index, retried: true });
                lemma_busy_update(self.jobs, worker, job);
                self.lemma_pages_carry_over(after);
                assert forall|k: int| 0 <= k < after.order.len() implies (after.pages[k] is Some
                    <==> #[trigger] after.recorded(k)) by {
                    assert(self.pages[k] is Some <==> self.recorded(k));
                    if k == index {
                        assert(after.jobs[worker] == job);
                    } else {
                        lemma_held_update(self.jobs, worker, job, k);
                    }
                }
            } else {
                lemma_busy_update(self.jobs, worker, None);
                assert forall|k: int| 0 <= k < after.order.len() implies (after.pages[k] is Some
                    <==> #[trigger] after.recorded(k)) by {
                    if k == index {
                        self.lemma_recorded_once(worker, Seq::empty(), error);
                    } else {
                        lemma_held_update(self.jobs, worker, None, k);
                        assert(self.pages[k] is Some <==> self.recorded(k));
                    }
                }
                assert forall|k: int|
                    0 <= k < after.order.len() implies #[trigger] after.links_claimed(k) by {
                    assert(self.links_claimed(k));
                }
                assert forall|k: int| 1 <= k < after.order.len() implies #[trigger] after.was_found(
                    k,
                ) by {
                    assert(self.was_found(k));
                    let p = choose|p: int| self.found_on(k, p);
                    assert(after.found_on(k, p));
                }
            }
        }
    }

    /// The URL that a worker holds has no record, and no page stands for it.
    pub proof fn lemma_holder_is_unrecorded(self, worker: int)
        requires
            self.inv(),
            self.report_misuse(worker) is None,
        ensures
            self.in_flight(self.jobs[worker].unwrap().index),
            !self.recorded(self.jobs[worker].unwrap().index),
            self.pages[self.jobs[worker].unwrap().index] is None,
    {
        let index = self.jobs[worker].unwrap().index;
        assert(self.jobs[worker] is Some && self.jobs[worker].unwrap().index == index);
        assert(self.pages[index] is Some <==> self.recorded(index));
    }

    /// Every call falls under exactly one of the cases that the steps of a
    /// worker distinguish.
    pub proof fn lemma_cases(self, worker: int)
        ensures
            self.ask_misuse(worker) is Some || self.gives_work(worker) || self.must_wait(worker)
                || self.tells_stop(worker),
            !(self.gives_work(worker) && self.must_wait(worker)),
            !(self.gives_work(worker) && self.tells_stop(worker)),
            !(self.must_wait(worker) && self.tells_stop(worker)),
    {
    }

    /// A busy worker keeps the crawl open. While some worker holds a URL the
    /// crawl is not complete, and a worker that asks is never told to stop,
    /// however empty the frontier is.
    pub proof fn lemma_busy_keeps_open(self, busy_worker: int, asking: int)
        requires
            self.inv(),
            0 <= busy_worker < self.jobs.len(),
            self.jobs[busy_worker] is Some,
        ensures
            !self.is_complete(),
            !self.stopped,
            !self.tells_stop(asking),
    {
        lemma_busy_bounds(self.jobs);
    }

    /// Once complete, always complete. In a complete crawl no worker holds a
    /// URL, so no report is accepted and nothing more is claimed: the
    /// frontier stays empty. The only change left is that the end is
    /// declared to the first worker that asks.
    pub proof fn lemma_complete_is_final(
        self,
        worker: int,
        links: Seq<Seq<char>>,
        error: FetchError,
    )
        requires
            self.inv(),
            self.is_complete(),
        ensures
            self.after_page(worker, links) == self,
            self.after_failure(worker, error) == self,
            self.after_ask(worker) == self || self.after_ask(worker) == (CrawlModel {
                stopped: true,
                ..self
            }),
            self.after_ask(worker).is_complete(),
            !self.gives_work(worker),
            !self.must_wait(worker),
    {
        lemma_busy_bounds(self.jobs);
        assert((CrawlModel { stopped: true, ..self }).pending() =~= self.pending());
    }

    /// At the end every claimed URL has its record, and only claimed URLs
    /// have one: in a complete crawl the number of records is the number of
    /// URLs that were claimed, which are all different.
    pub proof fn lemma_complete_counts(self)
        requires
            self.inv(),
            self.is_complete(),
        ensures
            self.completed == self.order.len(),
            self.completed == self.order.to_set().len(),
            self.dispatched == self.order.len(),
            forall|k: int| 0 <= k < self.order.len() ==> self.recorded(k),
    {
        lemma_busy_bounds(self.jobs);
        self.order.unique_seq_to_set();
    }

    /// The work of a crawl is bounded by the part of the web it runs on. If
    /// every URL that was claimed lies in a finite set `component`, then no
    /// more URLs were claimed, handed out or recorded than `component` has
    /// members.
    pub proof fn lemma_work_is_bounded(self, component: Set<Seq<char>>)
        requires
            self.inv(),
            component.finite(),
            forall|k: int|
                0 <= k < self.order.len() ==> component.contains(#[trigger] self.order[k]),
        ensures
            self.completed <= self.dispatched <= self.order.len() <= component.len(),
    {
        self.order.unique_seq_to_set();
        assert(self.order.to_set().subset_of(component)) by {
            assert forall|u: Seq<char>| self.order.to_set().contains(u) implies component.contains(
                u,
            ) by {
                let k = choose|k: int| 0 <= k < self.order.len() && self.order[k] == u;
                assert(component.contains(self.order[k]));
            }
        }
        lemma_len_subset(self.order.to_set(), component);
    }

    /// The crawl ends after finitely many steps. On a part of the web with
    /// `component.len()` URLs, the work that is left is never negative, and
    /// every step that hands out a URL, starts a retry or records a URL
    /// lowers it by at least one. So there are at most three such steps for
    /// each URL of the component, whatever the order in which the workers
    /// take their turns.
    pub proof fn lemma_work_left_falls(
        self,
        component: Set<Seq<char>>,
        worker: int,
        links: Seq<Seq<char>>,
        error: FetchError,
    )
        requires
            self.inv(),
            component.finite(),
            forall|k: int|
                0 <= k < self.order.len() ==> component.contains(#[trigger] self.order[k]),
        ensures
            self.work_left(component.len()) >= 0,
            self.gives_work(worker) ==> self.after_ask(worker).work_left(component.len())
                == self.work_left(component.len()) - 1,
            !self.gives_work(worker) ==> self.after_ask(worker).work_left(component.len())
                == self.work_left(component.len()),
            self.report_misuse(worker) is None ==> self.after_page(worker, links).work_left(
                component.len(),
            ) < self.work_left(component.len()),
            self.report_misuse(worker) is None ==> self.after_failure(worker, error).work_left(
                component.len(),
            ) < self.work_left(component.len()),
    {
        self.lemma_work_is_bounded(component);
        lemma_busy_bounds(self.jobs);
        lemma_retry_bound(self.jobs);
        if self.gives_work(worker) {
            lemma_retry_update(
                self.jobs,
                worker,
                Some(Job { index: self.dispatched as int, retried: false }),
            );
        }
        if self.report_misuse(worker) is None {
            let index = self.jobs[worker].unwrap().index;
            lemma_retry_update(self.jobs, worker, None);
            lemma_retry_update(self.jobs, worker, Some(Job { index, retried: true }));
        }
    }

    /// Every step that does something brings the end nearer. Handing out a
    /// URL raises the crawl counter by one, a final report raises the number
    /// of records by one, and neither number ever falls; a retry changes
    /// neither, and is never followed by a second retry of the same fetch.
    pub proof fn lemma_steps_advance(
        self,
        worker: int,
        links: Seq<Seq<char>>,
        error: FetchError,
    )
        requires
            self.inv(),
        ensures
            self.after_ask(worker).dispatched == self.dispatched + (if self.gives_work(worker) {
                1nat
            } else {
                0nat
            }),
            self.after_ask(worker).completed == self.completed,
            self.after_page(worker, links).dispatched == self.dispatched,
            self.after_page(worker, links).completed == self.completed + (if self.report_misuse(
                worker,
            ) is None {
                1nat
            } else {
                0nat
            }),
            self.after_failure(worker, error).dispatched == self.dispatched,
            self.after_failure(worker, error).completed == self.completed + (if self.report_misuse(
                worker,
            ) is None && !self.retries(worker, error) {
                1nat
            } else {
                0nat
            }),
            self.retries(worker, error) ==> !self.after_failure(worker, error).retries(
                worker,
                error,
            ),
    {
    }

    /// A URL is handed out at most once. No step removes or moves a claim,
    /// so the URL at a position stays there; the positions are handed out in
    /// turn, each once; and no URL stands at two positions. The URL handed
    /// out by a step was therefore never handed out before, and will never
    /// be again.
    pub proof fn lemma_handed_out_once(
        self,
        worker: int,
        links: Seq<Seq<char>>,
        error: FetchError,
        earlier: int,
    )
        requires
            self.inv(),
            0 <= earlier < self.dispatched,
        ensures
            self.after_ask(worker).order == self.order,
            self.after_failure(worker, error).order == self.order,
            self.after_page(worker, links).order.take(self.order.len() as int) == self.order,
            self.gives_work(worker) ==> self.order[earlier] != self.order[self.dispatched as int],
    {
        lemma_claim_each(self.denied, self.order, links);
    }

    /// A URL gets its record once. The URL that a worker reports on had no
    /// record before the report, has one after a final report, and keeps it
    /// through whatever follows, because no worker is handed that URL again.
    pub proof fn lemma_recorded_once(self, worker: int, links: Seq<Seq<char>>, error: FetchError)
        requires
            self.inv(),
            self.report_misuse(worker) is None,
        ensures
            !self.recorded(self.jobs[worker].unwrap().index),
            self.after_page(worker, links).recorded(self.jobs[worker].unwrap().index),
            !self.retries(worker, error) ==> self.after_failure(worker, error).recorded(
                self.jobs[worker].unwrap().index,
            ),
            forall|k: int, w: int|
                self.recorded(k) ==> (#[trigger] self.after_ask(w).recorded(k))
                    && self.after_page(w, links).recorded(k) && self.after_failure(
                    w,
                    error,
                ).recorded(k),
    {
        let index = self.jobs[worker].unwrap().index;
        let cleared = self.jobs.update(worker, None);
        assert(self.jobs[worker] is Some && self.jobs[worker].unwrap().index == index);
        if held(cleared, index) {
            let v = choose|v: int|
                0 <= v < cleared.len() && (#[trigger] cleared[v]) is Some
                    && cleared[v].unwrap().index == index;
            assert(self.jobs[v] is Some);
            if v < worker {
                assert(self.jobs[v].unwrap().index != self.jobs[worker].unwrap().index);
            } else {
                assert(self.jobs[worker].unwrap().index != self.jobs[v].unwrap().index);
            }
        }
        assert forall|k: int, w: int| self.recorded(k) implies (#[trigger] self.after_ask(
            w,
        ).recorded(k)) && self.after_page(w, links).recorded(k) && self.after_failure(
            w,
            error,
        ).recorded(k) by {
            self.lemma_keeps_record(k, w, links, error);
        }
    }

    proof fn lemma_keeps_record(self, k: int, w: int, links: Seq<Seq<char>>, error: FetchError)
        requires
            self.inv(),
            self.recorded(k),
        ensures
            self.after_ask(w).recorded(k),
            self.after_page(w, links).recorded(k),
            self.after_failure(w, error).recorded(k),
    {
        if self.gives_work(w) {
            lemma_held_update(
                self.jobs,
                w,
                Some(Job { index: self.dispatched as int, retried: false }),
                k,
            );
        }
        if self.report_misuse(w) is None {
            let index = self.jobs[w].unwrap().index;
            assert(self.jobs[w] is Some && self.jobs[w].unwrap().index == index);
            lemma_held_update(self.jobs, w, None, k);
            lemma_held_update(self.jobs, w, Some(Job { index, retried: true }), k);
        }
    }
}

} // verus!

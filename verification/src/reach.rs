//! What a finished crawl has covered.
//!
//! A web is taken here as a function from a URL to the links of its page,
//! with no links for a URL that cannot be fetched. A crawl that saw of each
//! page what the web holds ends with one record for each URL that can be
//! reached from the seed, and with no other.

use crate::model::CrawlModel;
use crate::url::crawlable;
use vstd::prelude::*;

verus! {

/// From `trail[i]` a link leads to `trail[i + 1]`, and that link may be
/// crawled.
pub open spec fn leads_on(
    denied: Seq<Seq<char>>,
    web: spec_fn(Seq<char>) -> Seq<Seq<char>>,
    trail: Seq<Seq<char>>,
    i: int,
) -> bool {
    crawlable(denied, trail[i + 1]) && web(trail[i]).contains(trail[i + 1])
}

/// `trail` starts at `seed` and follows crawlable links of `web` from each
/// of its URLs to the next.
pub open spec fn is_trail(
    denied: Seq<Seq<char>>,
    web: spec_fn(Seq<char>) -> Seq<Seq<char>>,
    seed: Seq<char>,
    trail: Seq<Seq<char>>,
) -> bool {
    &&& trail.len() >= 1
    &&& trail[0] == seed
    &&& forall|i: int| 0 <= i < trail.len() - 1 ==> #[trigger] leads_on(denied, web, trail, i)
}

/// `url` can be reached from `seed`: it is the seed, or crawlable links of
/// `web` lead to it from the seed.
pub open spec fn reaches(
    denied: Seq<Seq<char>>,
    web: spec_fn(Seq<char>) -> Seq<Seq<char>>,
    seed: Seq<char>,
    url: Seq<char>,
) -> bool {
    exists|trail: Seq<Seq<char>>|
        #[trigger] is_trail(denied, web, seed, trail) && trail.last() == url
}

impl CrawlModel {
    /// The crawl saw what `web` holds: each page that was reported had the
    /// links that `web` gives for its URL.
    pub open spec fn saw(self, web: spec_fn(Seq<char>) -> Seq<Seq<char>>) -> bool {
        forall|k: int|
            0 <= k < self.pages.len() && (#[trigger] self.pages[k]) is Some
                ==> self.pages[k].unwrap() == web(self.order[k])
    }

    /// Nothing is claimed that cannot be reached. At every moment of a
    /// crawl, each claimed URL is the seed or was found by following
    /// crawlable links from the seed.
    pub proof fn lemma_claimed_is_reachable(
        self,
        web: spec_fn(Seq<char>) -> Seq<Seq<char>>,
        k: int,
    )
        requires
            self.inv(),
            self.saw(web),
            0 <= k < self.order.len(),
        ensures
            reaches(self.denied, web, self.order[0], self.order[k]),
        decreases k,
    {
        if k == 0 {
            let trail = seq![self.order[0]];
            assert(is_trail(self.denied, web, self.order[0], trail));
            assert(trail.last() == self.order[0]);
        } else {
            assert(self.was_found(k));
            let p = choose|p: int| self.found_on(k, p);
            self.lemma_claimed_is_reachable(web, p);
            let before = choose|trail: Seq<Seq<char>>|
                #[trigger] is_trail(self.denied, web, self.order[0], trail) && trail.last()
                    == self.order[p];
            let trail = before.push(self.order[k]);
            assert forall|i: int| 0 <= i < trail.len() - 1 implies #[trigger] leads_on(
                self.denied,
                web,
                trail,
                i,
            ) by {
                if i < before.len() - 1 {
                    assert(leads_on(self.denied, web, before, i));
                } else {
                    assert(trail[i] == self.order[p]);
                    assert(self.pages[p].unwrap() == web(self.order[p]));
                }
            }
            assert(is_trail(self.denied, web, self.order[0], trail));
            assert(trail.last() == self.order[k]);
        }
    }

    /// In a complete crawl, where a trail ends was claimed.
    pub proof fn lemma_trail_is_claimed(
        self,
        web: spec_fn(Seq<char>) -> Seq<Seq<char>>,
        trail: Seq<Seq<char>>,
    )
        requires
            self.inv(),
            self.is_complete(),
            self.saw(web),
            is_trail(self.denied, web, self.order[0], trail),
        ensures
            self.order.contains(trail.last()),
        decreases trail.len(),
    {
        if trail.len() == 1 {
            assert(self.order[0] == trail.last());
        } else {
            let front = trail.drop_last();
            assert forall|i: int| 0 <= i < front.len() - 1 implies #[trigger] leads_on(
                self.denied,
                web,
                front,
                i,
            ) by {
                assert(leads_on(self.denied, web, trail, i));
            }
            self.lemma_trail_is_claimed(web, front);
            let p = choose|p: int| 0 <= p < self.order.len() && self.order[p] == front.last();
            self.lemma_complete_counts();
            assert(self.recorded(p));
            assert(self.pages[p] is Some);
            assert(leads_on(self.denied, web, trail, trail.len() - 2));
            let links = web(self.order[p]);
            let i = choose|i: int| 0 <= i < links.len() && links[i] == trail.last();
            assert(self.links_claimed(p));
            assert(self.order.contains(links[i]));
        }
    }

    /// A complete crawl covered the web. If the crawl saw what `web` holds,
    /// then at its end the claimed URLs are exactly the URLs that can be
    /// reached from the seed, and there is one record for each of them.
    pub proof fn lemma_crawl_covers_the_web(self, web: spec_fn(Seq<char>) -> Seq<Seq<char>>)
        requires
            self.inv(),
            self.is_complete(),
            self.saw(web),
        ensures
            forall|url: Seq<char>|
                self.order.contains(url) <==> #[trigger] reaches(
                    self.denied,
                    web,
                    self.order[0],
                    url,
                ),
            self.order.to_set() == Set::new(
                |url: Seq<char>| reaches(self.denied, web, self.order[0], url),
            ),
            self.completed == self.order.to_set().len(),
    {
        assert forall|url: Seq<char>|
            self.order.contains(url) <==> #[trigger] reaches(
                self.denied,
                web,
                self.order[0],
                url,
            ) by {
            if self.order.contains(url) {
                let k = choose|k: int| 0 <= k < self.order.len() && self.order[k] == url;
                self.lemma_claimed_is_reachable(web, k);
            }
            if reaches(self.denied, web, self.order[0], url) {
                let trail = choose|trail: Seq<Seq<char>>|
                    #[trigger] is_trail(self.denied, web, self.order[0], trail) && trail.last()
                        == url;
                self.lemma_trail_is_claimed(web, trail);
            }
        }
        assert(self.order.to_set() =~= Set::new(
            |url: Seq<char>| reaches(self.denied, web, self.order[0], url),
        ));
        self.lemma_complete_counts();
    }
}

} // verus!

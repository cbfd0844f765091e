//! The visited registry: every URL that was ever admitted into the crawl.

use vstd::prelude::*;

verus! {

/// The claims after `url` was offered once more: `url` joins them at the
/// end if it is new, and nothing changes if it is not.
pub open spec fn after_claim(order: Seq<Seq<char>>, url: Seq<char>) -> Seq<Seq<char>> {
    if order.contains(url) {
        order
    } else {
        order.push(url)
    }
}

/// The claims after the URLs of `calls` were offered one after the other.
pub open spec fn after_claims(order: Seq<Seq<char>>, calls: Seq<Seq<char>>) -> Seq<Seq<char>>
    decreases calls.len(),
{
    if calls.len() == 0 {
        order
    } else {
        after_claim(after_claims(order, calls.drop_last()), calls.last())
    }
}

/// Of the claims in `calls`, made one after the other on a registry that
/// holds `order`, how many are for `url` and win.
pub open spec fn wins(order: Seq<Seq<char>>, calls: Seq<Seq<char>>, url: Seq<char>) -> nat
    decreases calls.len(),
{
    if calls.len() == 0 {
        0
    } else {
        let before = after_claims(order, calls.drop_last());
        wins(order, calls.drop_last(), url) + if calls.last() == url && !before.contains(url) {
            1nat
        } else {
            0nat
        }
    }
}

/// A URL is won at most once. However many callers claim `url`, and
/// whatever else is claimed in between, in any order: if `url` was absent
/// and somebody claims it, exactly one of those claims wins; otherwise none
/// does. Whatever was claimed stays claimed.
pub proof fn lemma_claim_won_once(order: Seq<Seq<char>>, calls: Seq<Seq<char>>, url: Seq<char>)
    ensures
        wins(order, calls, url) == (if !order.contains(url) && calls.contains(url) {
            1nat
        } else {
            0nat
        }),
        after_claims(order, calls).contains(url) <==> order.contains(url) || calls.contains(url),
    decreases calls.len(),
{
    if calls.len() > 0 {
        let front = calls.drop_last();
        let before = after_claims(order, front);
        lemma_claim_won_once(order, front, url);
        if front.contains(url) {
            let i = choose|i: int| 0 <= i < front.len() && front[i] == url;
            assert(calls[i] == url);
        }
        if calls.contains(url) && calls.last() != url {
            let i = choose|i: int| 0 <= i < calls.len() && calls[i] == url;
            assert(front[i] == url);
        }
        if calls.last() == url {
            assert(calls[calls.len() - 1] == url);
        }
        let after = after_claim(before, calls.last());
        if before.contains(url) {
            let j = choose|j: int| 0 <= j < before.len() && before[j] == url;
            assert(after[j] == url);
        }
        if !before.contains(calls.last()) {
            assert(after[after.len() - 1] == calls.last());
        }
    }
}

/// The URLs claimed so far, in the order in which they were claimed.
///
/// A URL enters the crawl by winning [`VisitedRegistry::try_claim`] and in no
/// other way. The claim takes the registry by exclusive reference, so the
/// test for presence and the insertion cannot be separated by another caller.
pub struct VisitedRegistry {
    urls: Vec<String>,
}

impl VisitedRegistry {
    /// The claimed URLs, oldest first.
    pub closed spec fn order(&self) -> Seq<Seq<char>> {
        self.urls.deep_view()
    }

    /// The claimed URLs as a set.
    pub open spec fn view(&self) -> Set<Seq<char>> {
        self.order().to_set()
    }

    /// No URL is recorded twice.
    pub open spec fn wf(&self) -> bool {
        self.order().no_duplicates()
    }

    /// The registry is held in memory, so its size is a machine number.
    pub proof fn lemma_len_fits(&self)
        ensures
            self.order().len() <= usize::MAX,
    {
        assert(self.order().len() == self.urls.len());
    }

    /// A registry in which nothing is claimed.
    pub fn new() -> (reg: VisitedRegistry)
        ensures
            reg.wf(),
            reg.order() == Seq::<Seq<char>>::empty(),
    {
        let reg = VisitedRegistry { urls: Vec::new() };
        assert(reg.order() =~= Seq::<Seq<char>>::empty());
        reg
    }

    /// How many URLs have been claimed.
    pub fn len(&self) -> (n: usize)
        ensures
            n == self.order().len(),
    {
        self.urls.len()
    }

    /// Whether `url` has been claimed.
    pub fn contains(&self, url: &String) -> (found: bool)
        ensures
            found == self.order().contains(url@),
    {
        let mut i: usize = 0;
        while i < self.urls.len()
            invariant
                i <= self.urls.len(),
                forall|k: int| 0 <= k < i ==> self.order()[k] != url@,
            decreases self.urls.len() - i,
        {
            if self.urls[i] == *url {
                assert(self.order()[i as int] == url@);
                return true;
            }
            i += 1;
        }
        false
    }

    /// The URL claimed at position `index`.
    pub fn get(&self, index: usize) -> (url: &String)
        requires
            index < self.order().len(),
        ensures
            url@ == self.order()[index as int],
    {
        &self.urls[index]
    }

    /// Gives up the registry for the list of its claims, oldest first.
    pub fn into_urls(self) -> (urls: Vec<String>)
        ensures
            urls.deep_view() == self.order(),
    {
        self.urls
    }

    /// Claims `url`: records it and returns `true` if it was absent, leaves
    /// the registry as it was and returns `false` if it was present.
    pub fn try_claim(&mut self, url: String) -> (won: bool)
        requires
            old(self).wf(),
        ensures
            final(self).wf(),
            won == !old(self).order().contains(url@),
            final(self).order() == after_claim(old(self).order(), url@),
    {
        if self.contains(&url) {
            return false;
        }
        let ghost before = self.order();
        let ghost claimed = url@;
        self.urls.push(url);
        assert(self.order() =~= before.push(claimed));
        true
    }
}

} // verus!

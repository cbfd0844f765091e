//! The frontier: URLs that were admitted and wait to be fetched.

use std::collections::VecDeque;
use vstd::prelude::*;

verus! {

/// A first-in, first-out queue of URLs. It has no capacity limit, so a
/// producer is never made to wait for a consumer.
pub struct Frontier {
    queue: VecDeque<String>,
}

impl Frontier {
    /// The waiting URLs, the next one to be handed out first.
    pub closed spec fn view(&self) -> Seq<Seq<char>> {
        self.queue.deep_view()
    }

    /// An empty frontier.
    pub fn new() -> (frontier: Frontier)
        ensures
            frontier@ == Seq::<Seq<char>>::empty(),
    {
        let frontier = Frontier { queue: VecDeque::new() };
        assert(frontier@ =~= Seq::<Seq<char>>::empty());
        frontier
    }

    /// How many URLs wait.
    pub fn len(&self) -> (n: usize)
        ensures
            n == self@.len(),
    {
        self.queue.len()
    }

    /// Whether no URL waits.
    pub fn is_empty(&self) -> (empty: bool)
        ensures
            empty == (self@.len() == 0),
    {
        self.queue.len() == 0
    }

    /// Appends `url` behind everything that already waits.
    pub fn push(&mut self, url: String)
        ensures
            final(self)@ == old(self)@.push(url@),
    {
        let ghost before = self@;
        let ghost pushed = url@;
        self.queue.push_back(url);
        assert(self@ =~= before.push(pushed));
    }

    /// Removes and returns the URL that has waited longest, or returns `None`
    /// and changes nothing if the frontier is empty. `None` says only that
    /// nothing waits now; whether more may arrive is for the owner to decide.
    pub fn pop(&mut self) -> (next: Option<String>)
        ensures
            match next {
                Some(url) => {
                    &&& old(self)@.len() > 0
                    &&& url@ == old(self)@[0]
                    &&& final(self)@ == old(self)@.skip(1)
                },
                None => {
                    &&& old(self)@.len() == 0
                    &&& final(self)@ == old(self)@
                },
            },
    {
        let ghost before = self@;
        let next = self.queue.pop_front();
        proof {
            if next is Some {
                assert(self@ =~= before.skip(1));
            }
        }
        next
    }
}

} // verus!

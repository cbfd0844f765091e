//! The link extractor: from the text of a page to the links in it that may
//! be crawled, each once.
//!
//! A page is read in three steps. A first pattern finds the hyperlink
//! attributes and their targets. A second pattern sorts out the targets that
//! do not even look like links. Of what is left, the filter keeps the
//! absolute URLs that are no resources, and a URL that occurs again is
//! passed over.

use crate::model::{claim_each, lemma_claim_each};
use crate::pattern::{compile, group_matches, is_match, regex_compiles, regex_group_matches,
    regex_is_match, regex_source, source_of};
use crate::registry::VisitedRegistry;
use crate::url::{crawlable, LinkFilter};
use regex::Regex;
use vstd::prelude::*;

verus! {

/// Why an extractor could not be made.
#[derive(Debug, Clone, Copy, PartialEq, Eq, Structural)]
pub enum PatternError {
    /// The pattern that finds `href` attributes did not compile.
    Href,
    /// The pattern that recognises links did not compile.
    Link,
}

/// The text of [`href_pattern`].
pub open spec fn href_pattern_text() -> Seq<char> {
    "href=['\"]([^'\"]+?)['\"]"@
}

/// The text of [`link_pattern`].
pub open spec fn link_pattern_text() -> Seq<char> {
    "http[s]??://.+?"@
}

/// Finds `href="..."` and `href='...'` attributes; group 1 is the target.
pub fn href_pattern() -> (pattern: &'static str)
    ensures
        pattern@ == href_pattern_text(),
{
    "href=['\"]([^'\"]+?)['\"]"
}

/// Recognises a target that holds `http://` or `https://` and something
/// behind it.
pub fn link_pattern() -> (pattern: &'static str)
    ensures
        pattern@ == link_pattern_text(),
{
    "http[s]??://.+?"
}

/// The targets among the first `n` of `targets` that are present and whose
/// flag in `keep` is set, in their order. A target without a flag is left
/// out.
pub open spec fn selected_upto(targets: Seq<Option<Seq<char>>>, keep: Seq<bool>, n: nat) -> Seq<
    Seq<char>,
>
    decreases n,
{
    if n == 0 || n > targets.len() {
        Seq::empty()
    } else {
        let before = selected_upto(targets, keep, (n - 1) as nat);
        match targets[n - 1] {
            Some(target) if n <= keep.len() && keep[n - 1] => before.push(target),
            _ => before,
        }
    }
}

/// The targets that are present and whose flag in `keep` is set.
pub open spec fn selected(targets: Seq<Option<Seq<char>>>, keep: Seq<bool>) -> Seq<Seq<char>> {
    selected_upto(targets, keep, targets.len())
}

/// For each target, whether it is present and `link` matches in it.
pub open spec fn link_flags(link: Regex, targets: Seq<Option<Seq<char>>>) -> Seq<bool> {
    Seq::new(
        targets.len(),
        |i: int|
            match targets[i] {
                Some(target) => regex_is_match(link, target),
                None => false,
            },
    )
}

/// The links that a page delivers, given the `candidates` found in it: the
/// candidates that may be crawled, each once, in the order in which they
/// first occur.
pub open spec fn delivered(denied: Seq<Seq<char>>, candidates: Seq<Seq<char>>) -> Seq<Seq<char>> {
    claim_each(denied, Seq::empty(), candidates)
}

/// What is delivered is exactly what may be crawled. Every delivered link is
/// a candidate and may be crawled, no link is delivered twice, and every
/// candidate that may be crawled is delivered.
pub proof fn lemma_delivered(denied: Seq<Seq<char>>, candidates: Seq<Seq<char>>)
    ensures
        delivered(denied, candidates).no_duplicates(),
        forall|k: int|
            0 <= k < delivered(denied, candidates).len() ==> {
                let link = #[trigger] delivered(denied, candidates)[k];
                crawlable(denied, link) && candidates.contains(link)
            },
        forall|i: int|
            0 <= i < candidates.len() && crawlable(denied, #[trigger] candidates[i])
                ==> delivered(denied, candidates).contains(candidates[i]),
{
    lemma_claim_each(denied, Seq::empty(), candidates);
}

/// Delivery loses no link. Claiming the delivered links of a page gives the
/// same claims, in the same order, as claiming all its candidates would.
pub proof fn lemma_delivery_loses_nothing(
    denied: Seq<Seq<char>>,
    order: Seq<Seq<char>>,
    candidates: Seq<Seq<char>>,
)
    requires
        order.no_duplicates(),
    ensures
        claim_each(denied, order, delivered(denied, candidates)) == claim_each(
            denied,
            order,
            candidates,
        ),
    decreases candidates.len(),
{
    if candidates.len() > 0 {
        let front = candidates.drop_last();
        let link = candidates.last();
        let sent = delivered(denied, front);
        lemma_delivery_loses_nothing(denied, order, front);
        if crawlable(denied, link) {
            if sent.contains(link) {
                lemma_delivered(denied, front);
                lemma_claim_each(denied, order, front);
                let k = choose|k: int| 0 <= k < sent.len() && sent[k] == link;
                assert(front.contains(sent[k]));
                let i = choose|i: int| 0 <= i < front.len() && front[i] == link;
                assert(claim_each(denied, order, front).contains(front[i]));
            } else {
                assert(sent.push(link).drop_last() =~= sent);
            }
        }
    }
}

/// Of `targets`, takes those that are present and flagged in `keep`, and
/// delivers of them the links that `filter` lets pass, each once, in the
/// order in which they first occur. Flags beyond the targets are ignored,
/// and a target without a flag is left out.
pub fn select_links(filter: &LinkFilter, targets: &Vec<Option<String>>, keep: &Vec<bool>) -> (links:
    Vec<String>)
    ensures
        links.deep_view() == delivered(
            filter.extensions(),
            selected(targets.deep_view(), keep@),
        ),
{
    let ghost denied = filter.extensions();
    let mut seen = VisitedRegistry::new();
    let mut i: usize = 0;
    while i < targets.len()
        invariant
            i <= targets.len(),
            denied == filter.extensions(),
            seen.wf(),
            seen.order() == delivered(
                denied,
                selected_upto(targets.deep_view(), keep@, i as nat),
            ),
        decreases targets.len() - i,
    {
        let ghost before = selected_upto(targets.deep_view(), keep@, i as nat);
        assert(targets.deep_view()[i as int] == targets@[i as int].deep_view());
        if i < keep.len() && keep[i] {
            match &targets[i] {
                Some(target) => {
                    assert(before.push(target@).drop_last() =~= before);
                    if filter.is_crawlable(target.as_str()) {
                        seen.try_claim(target.clone());
                    }
                },
                None => {},
            }
        }
        i += 1;
    }
    seen.into_urls()
}

/// Two compiled patterns: one finds hyperlink attributes, the other says
/// which of their targets count as links.
pub struct LinkExtractor {
    href: Regex,
    link: Regex,
}

impl LinkExtractor {
    /// The compiled pattern that finds hyperlink attributes.
    pub closed spec fn href_regex(&self) -> Regex {
        self.href
    }

    /// The compiled pattern that recognises links.
    pub closed spec fn link_regex(&self) -> Regex {
        self.link
    }

    /// The text of the pattern that finds hyperlink attributes.
    pub open spec fn href_source(&self) -> Seq<char> {
        regex_source(self.href_regex())
    }

    /// The text of the pattern that recognises links.
    pub open spec fn link_source(&self) -> Seq<char> {
        regex_source(self.link_regex())
    }

    /// The hyperlink targets in `body`, in the order in which they occur:
    /// group 1 of each match of the first pattern.
    pub open spec fn targets_of(&self, body: Seq<char>) -> Seq<Option<Seq<char>>> {
        regex_group_matches(self.href_regex(), body, 1)
    }

    /// The candidates in `body`: its hyperlink targets in which the second
    /// pattern matches, in the order in which they occur, repeats included.
    pub open spec fn candidates_of(&self, body: Seq<char>) -> Seq<Seq<char>> {
        selected(self.targets_of(body), link_flags(self.link_regex(), self.targets_of(body)))
    }

    /// The links of `body`: its candidates that may be crawled, with the
    /// extensions `denied` left out, each once, in the order in which they
    /// first occur.
    pub open spec fn links_of(&self, denied: Seq<Seq<char>>, body: Seq<char>) -> Seq<Seq<char>> {
        delivered(denied, self.candidates_of(body))
    }

    /// An extractor from the outcome of compiling its two patterns: the
    /// first failure is reported, the hyperlink pattern's before the link
    /// pattern's.
    pub fn from_compiled(
        href: Result<Regex, regex::Error>,
        link: Result<Regex, regex::Error>,
    ) -> (made: Result<LinkExtractor, PatternError>)
        ensures
            match made {
                Ok(extractor) => {
                    &&& href == Ok::<Regex, regex::Error>(extractor.href_regex())
                    &&& link == Ok::<Regex, regex::Error>(extractor.link_regex())
                },
                Err(PatternError::Href) => href is Err,
                Err(PatternError::Link) => href is Ok && link is Err,
            },
    {
        match href {
            Ok(h) => match link {
                Ok(l) => Ok(LinkExtractor { href: h, link: l }),
                Err(_) => Err(PatternError::Link),
            },
            Err(_) => Err(PatternError::Href),
        }
    }

    /// An extractor with the two given patterns. It is made exactly when
    /// both patterns compile; otherwise the first pattern that does not is
    /// reported, the hyperlink pattern before the link pattern.
    pub fn with_patterns(href: &str, link: &str) -> (made: Result<LinkExtractor, PatternError>)
        ensures
            match made {
                Ok(extractor) => {
                    &&& regex_compiles(href@)
                    &&& regex_compiles(link@)
                    &&& extractor.href_source() == href@
                    &&& extractor.link_source() == link@
                },
                Err(PatternError::Href) => !regex_compiles(href@),
                Err(PatternError::Link) => regex_compiles(href@) && !regex_compiles(link@),
            },
    {
        LinkExtractor::from_compiled(compile(href), compile(link))
    }

    /// An extractor with [`href_pattern`] and [`link_pattern`]. It is made
    /// exactly when both compile.
    pub fn new() -> (made: Result<LinkExtractor, PatternError>)
        ensures
            match made {
                Ok(extractor) => {
                    &&& regex_compiles(href_pattern_text())
                    &&& regex_compiles(link_pattern_text())
                    &&& extractor.href_source() == href_pattern_text()
                    &&& extractor.link_source() == link_pattern_text()
                },
                Err(PatternError::Href) => !regex_compiles(href_pattern_text()),
                Err(PatternError::Link) => regex_compiles(href_pattern_text()) && !regex_compiles(
                    link_pattern_text(),
                ),
            },
    {
        LinkExtractor::with_patterns(href_pattern(), link_pattern())
    }

    /// The text of the pattern that finds hyperlink attributes.
    pub fn href_text(&self) -> (text: &str)
        ensures
            text@ == self.href_source(),
    {
        source_of(&self.href)
    }

    /// The text of the pattern that recognises links.
    pub fn link_text(&self) -> (text: &str)
        ensures
            text@ == self.link_source(),
    {
        source_of(&self.link)
    }

    /// The links of `body` that `filter` lets pass, each once.
    pub fn extract(&self, filter: &LinkFilter, body: &str) -> (found: Vec<String>)
        ensures
            found.deep_view() == self.links_of(filter.extensions(), body@),
    {
        let targets = group_matches(&self.href, body, 1);
        let mut keep: Vec<bool> = Vec::new();
        let mut i: usize = 0;
        while i < targets.len()
            invariant
                i <= targets.len(),
                keep@.len() == i,
                forall|k: int|
                    0 <= k < i ==> keep@[k] == link_flags(
                        self.link_regex(),
                        targets.deep_view(),
                    )[k],
            decreases targets.len() - i,
        {
            assert(targets.deep_view()[i as int] == targets@[i as int].deep_view());
            let flag = match &targets[i] {
                Some(target) => is_match(&self.link, target.as_str()),
                None => false,
            };
            keep.push(flag);
            i += 1;
        }
        assert(keep@ =~= link_flags(self.link_regex(), targets.deep_view()));
        select_links(filter, &targets, &keep)
    }
}

/// Extraction is repeatable. What an extractor delivers depends on its two
/// patterns, on the denied extensions and on the text of the page, and on
/// nothing else: the same page, read twice, gives the same links in the same
/// order, and so the same set of links.
pub proof fn lemma_extraction_repeats(
    extractor: LinkExtractor,
    denied: Seq<Seq<char>>,
    page: Seq<char>,
    again: Seq<char>,
)
    requires
        page == again,
    ensures
        extractor.links_of(denied, page) == extractor.links_of(denied, again),
        extractor.links_of(denied, page).to_set() == extractor.links_of(denied, again).to_set(),
{
}

} // verus!

//! What a worker does with the outcome of a fetch.
//!
//! The driver fetches; these functions take what came back and do the rest
//! of the worker's turn. [`read_links`] decodes the body and extracts the
//! links that may be crawled, and needs no access to the crawl.
//! [`report_links`] hands the result to the crawl, which claims and enqueues
//! the new links and names the record to persist or the retry to make.
//! [`report_fetch`] does both.

use crate::crawl::{Crawl, Followup, Outcome};
use crate::extract::LinkExtractor;
use crate::fetch::{recovery, FetchError, Handler, Recovery};
use crate::model::{CrawlModel, Misuse};
use crate::url::LinkFilter;
use vstd::prelude::*;
use vstd::utf8::{decode_utf8, valid_utf8};

verus! {

/// Calls `String::from_utf8` and drops the error's detail. Trusted: the call
/// succeeds exactly on valid UTF-8, and the string it gives is the decoding
/// of the bytes.
#[verifier::external_body]
fn text_from_utf8(bytes: Vec<u8>) -> (text: Option<String>)
    ensures
        match text {
            Some(s) => valid_utf8(bytes@) && s@ == decode_utf8(bytes@),
            None => !valid_utf8(bytes@),
        },
{
    String::from_utf8(bytes).ok()
}

/// The text of a response body, or `Decode` if the body is no valid UTF-8.
pub fn decode_body(body: Vec<u8>) -> (text: Result<String, FetchError>)
    ensures
        match text {
            Ok(s) => valid_utf8(body@) && s@ == decode_utf8(body@),
            Err(error) => !valid_utf8(body@) && error == FetchError::Decode,
        },
{
    match text_from_utf8(body) {
        Some(s) => Ok(s),
        None => Err(FetchError::Decode),
    }
}

/// The bytes of a fetched body, the failure of a failed fetch.
pub open spec fn bytes_of(fetched: Result<Vec<u8>, FetchError>) -> Result<Seq<u8>, FetchError> {
    match fetched {
        Ok(body) => Ok(body@),
        Err(error) => Err(error),
    }
}

/// The links of a page that was read, the failure of a fetch that was not.
pub open spec fn links_view(found: Result<Vec<String>, FetchError>) -> Result<
    Seq<Seq<char>>,
    FetchError,
> {
    match found {
        Ok(links) => Ok(links.deep_view()),
        Err(error) => Err(error),
    }
}

/// What the outcome of a fetch amounts to. A body that is valid text is a
/// page with the links that `extractor` delivers for it: those that may be
/// crawled, with the extensions `denied` left out, each once. A body that is
/// no valid text is a `Decode` failure; a failed fetch is the failure it
/// reports.
pub open spec fn links_of(
    extractor: LinkExtractor,
    denied: Seq<Seq<char>>,
    fetched: Result<Seq<u8>, FetchError>,
) -> Result<Seq<Seq<char>>, FetchError> {
    match fetched {
        Ok(body) => if valid_utf8(body) {
            Ok(extractor.links_of(denied, decode_utf8(body)))
        } else {
            Err(FetchError::Decode)
        },
        Err(error) => Err(error),
    }
}

/// The state after `worker` reported `found`.
pub open spec fn after_links(
    before: CrawlModel,
    worker: int,
    found: Result<Seq<Seq<char>>, FetchError>,
) -> CrawlModel {
    match found {
        Ok(links) => before.after_page(worker, links),
        Err(error) => before.after_failure(worker, error),
    }
}

/// Reads the outcome of a fetch: decodes the body and extracts the links
/// that `filter` lets pass, each once.
pub fn read_links(
    extractor: &LinkExtractor,
    filter: &LinkFilter,
    fetched: Result<Vec<u8>, FetchError>,
) -> (found: Result<Vec<String>, FetchError>)
    ensures
        links_view(found) == links_of(*extractor, filter.extensions(), bytes_of(fetched)),
{
    let text = match fetched {
        Ok(body) => decode_body(body),
        Err(error) => Err(error),
    };
    match text {
        Ok(page) => Ok(extractor.extract(filter, page.as_str())),
        Err(error) => Err(error),
    }
}

/// `worker` reports what [`read_links`] made of its fetch. On a page, the
/// new links are claimed and enqueued and the record of the URL is named.
/// On a failure, the retry policy decides between one more fetch and the
/// record of the failure. A worker that the crawl does not have, or that
/// holds no URL, is refused and nothing changes.
pub fn report_links(
    crawl: &mut Crawl,
    worker: usize,
    found: Result<Vec<String>, FetchError>,
) -> (next: Result<Followup, Misuse>)
    requires
        old(crawl).wf(),
    ensures
        final(crawl).wf(),
        final(crawl)@ == after_links(old(crawl)@, worker as int, links_view(found)),
        match next {
            Ok(Followup::Retry { url, handler }) => {
                &&& found matches Err(error)
                &&& old(crawl)@.retries(worker as int, error)
                &&& url@ == old(crawl)@.url_of(worker as int)
                &&& handler == Handler::Alternate
            },
            Ok(Followup::Persist(record)) => {
                &&& old(crawl)@.report_misuse(worker as int) is None
                &&& record.url@ == old(crawl)@.url_of(worker as int)
                &&& record.worker == worker
                &&& match found {
                    Ok(_) => record.outcome == Outcome::Fetched,
                    Err(error) => {
                        &&& !old(crawl)@.retries(worker as int, error)
                        &&& record.outcome is Failed
                        &&& recovery(
                            old(crawl)@.jobs[worker as int].unwrap().retried,
                            error,
                        ) == Recovery::GiveUp(record.outcome->Failed_0)
                    },
                }
            },
            Err(misuse) => old(crawl)@.report_misuse(worker as int) == Some(misuse),
        },
{
    match found {
        Ok(links) => match crawl.page_fetched(worker, &links) {
            Ok(record) => Ok(Followup::Persist(record)),
            Err(misuse) => Err(misuse),
        },
        Err(error) => crawl.fetch_failed(worker, error),
    }
}

/// The rest of a worker's turn, given the outcome of its fetch:
/// [`read_links`] with the crawl's own filter, then [`report_links`].
pub fn report_fetch(
    crawl: &mut Crawl,
    extractor: &LinkExtractor,
    worker: usize,
    fetched: Result<Vec<u8>, FetchError>,
) -> (next: Result<Followup, Misuse>)
    requires
        old(crawl).wf(),
    ensures
        final(crawl).wf(),
        final(crawl)@ == after_links(
            old(crawl)@,
            worker as int,
            links_of(*extractor, old(crawl)@.denied, bytes_of(fetched)),
        ),
        match next {
            Ok(Followup::Retry { url, handler }) => {
                &&& links_of(*extractor, old(crawl)@.denied, bytes_of(fetched)) matches Err(error)
                &&& old(crawl)@.retries(worker as int, error)
                &&& url@ == old(crawl)@.url_of(worker as int)
                &&& handler == Handler::Alternate
            },
            Ok(Followup::Persist(record)) => {
                &&& old(crawl)@.report_misuse(worker as int) is None
                &&& record.url@ == old(crawl)@.url_of(worker as int)
                &&& record.worker == worker
                &&& match links_of(*extractor, old(crawl)@.denied, bytes_of(fetched)) {
                    Ok(_) => record.outcome == Outcome::Fetched,
                    Err(error) => {
                        &&& !old(crawl)@.retries(worker as int, error)
                        &&& record.outcome is Failed
                        &&& recovery(
                            old(crawl)@.jobs[worker as int].unwrap().retried,
                            error,
                        ) == Recovery::GiveUp(record.outcome->Failed_0)
                    },
                }
            },
            Err(misuse) => old(crawl)@.report_misuse(worker as int) == Some(misuse),
        },
{
    let found = read_links(extractor, crawl.filter(), fetched);
    report_links(crawl, worker, found)
}

} // verus!

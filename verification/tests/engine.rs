use rust_crawler::crawl::{Crawl, CrawlRecord, CrawlStats, Followup, Outcome, Task};
use rust_crawler::extract::LinkExtractor;
use rust_crawler::fetch::{FetchError, Handler};
use rust_crawler::model::Misuse;
use rust_crawler::url::LinkFilter;
use rust_crawler::worker::{decode_body, read_links, report_fetch, report_links};

const SEED: &str = "http://seed.example/";

fn strings(items: &[&str]) -> Vec<String> {
    items.iter().map(|s| String::from(*s)).collect()
}

fn started(workers: usize) -> Crawl {
    Crawl::start(String::from(SEED), workers, LinkFilter::standard()).unwrap()
}

fn fetch(url: &str) -> Task {
    Task::Fetch { url: String::from(url), handler: Handler::Primary }
}

fn page(links: &[&str]) -> Vec<u8> {
    let mut html = String::from("<html>");
    for link in links {
        html.push_str(&format!("<a href=\"{}\">link</a>", link));
    }
    html.push_str("</html>");
    html.into_bytes()
}

/// The links of each page of a small web with a cycle, a resource, a page
/// that fails and a page out of reach.
fn web(url: &str) -> Result<Vec<u8>, FetchError> {
    match url {
        "http://seed.example/" => Ok(page(&["http://a.example/", "http://b.example/", "/about"])),
        "http://a.example/" => Ok(page(&["http://seed.example/", "http://c.example/", "http://a.example/a.css"])),
        "http://b.example/" => Ok(page(&["http://c.example/", "http://down.example/"])),
        "http://c.example/" => Ok(page(&["http://a.example/", "http://b.example/", "http://c.example/"])),
        "http://island.example/" => Ok(page(&["http://seed.example/"])),
        _ => Err(FetchError::Network),
    }
}

/// Runs a crawl to its end with `workers` workers that take turns, and
/// returns the records in the order in which they were made.
fn run(workers: usize) -> (Crawl, Vec<CrawlRecord>) {
    let extractor = LinkExtractor::new().unwrap();
    let mut crawl = started(workers);
    let mut holding: Vec<Option<String>> = vec![None; workers];
    let mut stopped = vec![false; workers];
    let mut records = Vec::new();
    let mut turns = 0;
    while stopped.iter().any(|s| !s) {
        turns += 1;
        assert!(turns < 10_000, "the crawl does not end");
        for w in 0..workers {
            if stopped[w] {
                continue;
            }
            match holding[w].take() {
                None => match crawl.next_task(w).unwrap() {
                    Task::Fetch { url, handler } => {
                        assert_eq!(handler, Handler::Primary);
                        holding[w] = Some(url);
                    }
                    Task::Wait => {}
                    Task::Stop => stopped[w] = true,
                },
                Some(url) => match report_fetch(&mut crawl, &extractor, w, web(&url)).unwrap() {
                    Followup::Persist(record) => {
                        assert_eq!(record.url, url);
                        assert_eq!(record.worker, w);
                        records.push(record);
                    }
                    Followup::Retry { url: again, .. } => holding[w] = Some(again),
                },
            }
        }
    }
    (crawl, records)
}

#[test]
fn repeated_link_is_admitted_once_and_resource_is_left_out() {
    let a = "http://a.example/";
    let b = "http://a.example/b.png";
    let mut crawl = started(1);
    assert_eq!(crawl.next_task(0), Ok(fetch(SEED)));
    assert!(crawl.page_fetched(0, &strings(&[a, b, a])).is_ok());
    assert_eq!(crawl.pending(), 1);
    assert_eq!(crawl.claimed(), 2);
    assert!(crawl.has_claimed(&String::from(a)));
    assert!(!crawl.has_claimed(&String::from(b)));
    assert_eq!(crawl.next_task(0), Ok(fetch(a)));
    assert_eq!(crawl.pending(), 0);
    assert!(crawl.page_fetched(0, &Vec::new()).is_ok());
    assert_eq!(crawl.next_task(0), Ok(Task::Stop));
    assert_eq!(crawl.claimed(), 2);
    assert!(crawl.has_claimed(&String::from(SEED)));
    assert!(crawl.has_claimed(&String::from(a)));
    assert_eq!(crawl.stats(), CrawlStats { visited: 2, failed: 0 });
}

#[test]
fn repeated_link_and_resource_on_a_real_page() {
    let extractor = LinkExtractor::new().unwrap();
    let a = "http://a.example/";
    let b = "http://a.example/b.png";
    let mut crawl = started(1);
    assert_eq!(crawl.next_task(0), Ok(fetch(SEED)));
    let done = report_fetch(&mut crawl, &extractor, 0, Ok(page(&[a, b, a])));
    assert_eq!(
        done,
        Ok(Followup::Persist(CrawlRecord {
            url: String::from(SEED),
            worker: 0,
            outcome: Outcome::Fetched
        }))
    );
    assert_eq!(crawl.claimed(), 2);
    assert_eq!(crawl.pending(), 1);
    assert_eq!(crawl.next_task(0), Ok(fetch(a)));
    assert!(report_fetch(&mut crawl, &extractor, 0, Ok(page(&[]))).is_ok());
    assert!(crawl.is_complete());
    assert!(!crawl.has_claimed(&String::from(b)));
}

#[test]
fn unsupported_scheme_gets_one_retry_then_fails_for_good() {
    let mut crawl = started(1);
    assert_eq!(crawl.next_task(0), Ok(fetch(SEED)));
    assert_eq!(
        crawl.fetch_failed(0, FetchError::UnsupportedScheme),
        Ok(Followup::Retry { url: String::from(SEED), handler: Handler::Alternate })
    );
    assert_eq!(crawl.busy_workers(), 1);
    assert_eq!(crawl.stats(), CrawlStats { visited: 0, failed: 0 });
    assert!(!crawl.is_complete());
    assert_eq!(
        crawl.fetch_failed(0, FetchError::UnsupportedScheme),
        Ok(Followup::Persist(CrawlRecord {
            url: String::from(SEED),
            worker: 0,
            outcome: Outcome::Failed(FetchError::Network)
        }))
    );
    assert_eq!(crawl.busy_workers(), 0);
    assert_eq!(crawl.stats(), CrawlStats { visited: 1, failed: 1 });
    assert_eq!(crawl.fetch_failed(0, FetchError::UnsupportedScheme), Err(Misuse::WorkerIdle));
    assert_eq!(crawl.next_task(0), Ok(Task::Stop));
}

#[test]
fn retry_that_brings_the_page_is_a_success() {
    let mut crawl = started(1);
    assert_eq!(crawl.next_task(0), Ok(fetch(SEED)));
    assert_eq!(
        crawl.fetch_failed(0, FetchError::UnsupportedScheme),
        Ok(Followup::Retry { url: String::from(SEED), handler: Handler::Alternate })
    );
    let done = crawl.page_fetched(0, &strings(&["http://a.example/"]));
    assert_eq!(
        done,
        Ok(CrawlRecord { url: String::from(SEED), worker: 0, outcome: Outcome::Fetched })
    );
    assert_eq!(crawl.stats(), CrawlStats { visited: 1, failed: 0 });
    assert_eq!(crawl.pending(), 1);
}

#[test]
fn retry_that_fails_otherwise_counts_as_network() {
    for second in [FetchError::Network, FetchError::Decode] {
        let mut crawl = started(1);
        assert_eq!(crawl.next_task(0), Ok(fetch(SEED)));
        assert!(matches!(
            crawl.fetch_failed(0, FetchError::UnsupportedScheme),
            Ok(Followup::Retry { .. })
        ));
        assert_eq!(
            crawl.fetch_failed(0, second),
            Ok(Followup::Persist(CrawlRecord {
                url: String::from(SEED),
                worker: 0,
                outcome: Outcome::Failed(FetchError::Network)
            }))
        );
    }
}

#[test]
fn link_found_by_two_workers_is_fetched_once() {
    let x = "http://x.example/";
    let mut crawl = started(2);
    assert_eq!(crawl.next_task(0), Ok(fetch(SEED)));
    assert!(crawl
        .page_fetched(0, &strings(&["http://p.example/", "http://q.example/"]))
        .is_ok());
    assert_eq!(crawl.next_task(0), Ok(fetch("http://p.example/")));
    assert_eq!(crawl.next_task(1), Ok(fetch("http://q.example/")));
    assert!(crawl.page_fetched(0, &strings(&[x])).is_ok());
    assert_eq!(crawl.claimed(), 4);
    assert_eq!(crawl.pending(), 1);
    assert!(crawl.page_fetched(1, &strings(&[x])).is_ok());
    assert_eq!(crawl.claimed(), 4);
    assert_eq!(crawl.pending(), 1);
    assert_eq!(crawl.next_task(1), Ok(fetch(x)));
    assert_eq!(crawl.next_task(0), Ok(Task::Wait));
    assert!(crawl.page_fetched(1, &strings(&[x, "http://p.example/"])).is_ok());
    assert_eq!(crawl.next_task(0), Ok(Task::Stop));
    assert_eq!(crawl.dispatched(), 4);
    assert_eq!(crawl.stats(), CrawlStats { visited: 4, failed: 0 });
}

#[test]
fn empty_frontier_with_a_busy_worker_is_no_end() {
    let mut crawl = started(2);
    assert_eq!(crawl.next_task(0), Ok(fetch(SEED)));
    assert_eq!(crawl.pending(), 0);
    assert_eq!(crawl.busy_workers(), 1);
    assert!(!crawl.is_complete());
    assert_eq!(crawl.next_task(1), Ok(Task::Wait));
    assert_eq!(crawl.next_task(1), Ok(Task::Wait));
    assert!(!crawl.is_stopped());
    assert!(crawl.page_fetched(0, &Vec::new()).is_ok());
    assert_eq!(crawl.pending(), 0);
    assert_eq!(crawl.busy_workers(), 0);
    assert!(crawl.is_complete());
    assert_eq!(crawl.next_task(1), Ok(Task::Stop));
    assert!(crawl.is_stopped());
    assert_eq!(crawl.next_task(0), Ok(Task::Stop));
}

#[test]
fn waiting_worker_gets_what_the_busy_one_finds() {
    let mut crawl = started(2);
    assert_eq!(crawl.next_task(0), Ok(fetch(SEED)));
    assert_eq!(crawl.next_task(1), Ok(Task::Wait));
    assert!(crawl.page_fetched(0, &strings(&["http://a.example/"])).is_ok());
    assert!(!crawl.is_complete());
    assert_eq!(crawl.next_task(1), Ok(fetch("http://a.example/")));
    assert_eq!(crawl.next_task(0), Ok(Task::Wait));
    assert!(crawl.fetch_failed(1, FetchError::Network).is_ok());
    assert_eq!(crawl.next_task(0), Ok(Task::Stop));
}

#[test]
fn retrying_worker_keeps_the_crawl_open() {
    let mut crawl = started(2);
    assert_eq!(crawl.next_task(0), Ok(fetch(SEED)));
    assert!(matches!(
        crawl.fetch_failed(0, FetchError::UnsupportedScheme),
        Ok(Followup::Retry { .. })
    ));
    assert_eq!(crawl.next_task(1), Ok(Task::Wait));
    assert!(!crawl.is_complete());
}

#[test]
fn crawl_of_a_cyclic_web_ends_with_one_record_per_reachable_url() {
    for workers in [1, 2, 3, 8] {
        let (crawl, records) = run(workers);
        let mut urls: Vec<String> = records.iter().map(|r| r.url.clone()).collect();
        urls.sort();
        assert_eq!(
            urls,
            strings(&[
                "http://a.example/",
                "http://b.example/",
                "http://c.example/",
                "http://down.example/",
                "http://seed.example/",
            ]),
            "{} workers",
            workers
        );
        assert!(crawl.is_complete());
        assert!(crawl.is_stopped());
        assert_eq!(crawl.pending(), 0);
        assert_eq!(crawl.claimed(), 5);
        assert_eq!(crawl.dispatched(), 5);
        assert_eq!(crawl.stats(), CrawlStats { visited: 5, failed: 1 });
        assert!(!crawl.has_claimed(&String::from("http://island.example/")));
        assert!(!crawl.has_claimed(&String::from("http://a.example/a.css")));
        assert!(!crawl.has_claimed(&String::from("/about")));
    }
}

#[test]
fn failed_page_is_recorded_as_failed() {
    let (_, records) = run(2);
    for record in records {
        if record.url == "http://down.example/" {
            assert_eq!(record.outcome, Outcome::Failed(FetchError::Network));
        } else {
            assert_eq!(record.outcome, Outcome::Fetched);
        }
    }
}

#[test]
fn single_worker_crawls_breadth_first() {
    let (_, records) = run(1);
    let urls: Vec<&str> = records.iter().map(|r| r.url.as_str()).collect();
    assert_eq!(
        urls,
        vec![
            "http://seed.example/",
            "http://a.example/",
            "http://b.example/",
            "http://c.example/",
            "http://down.example/",
        ]
    );
}

#[test]
fn body_that_is_no_text_is_a_decode_failure() {
    let extractor = LinkExtractor::new().unwrap();
    let mut crawl = started(1);
    assert_eq!(crawl.next_task(0), Ok(fetch(SEED)));
    let body = vec![0x3c, 0x61, 0xff, 0xfe, 0x3e];
    assert_eq!(
        report_fetch(&mut crawl, &extractor, 0, Ok(body)),
        Ok(Followup::Persist(CrawlRecord {
            url: String::from(SEED),
            worker: 0,
            outcome: Outcome::Failed(FetchError::Decode)
        }))
    );
    assert_eq!(crawl.claimed(), 1);
    assert_eq!(crawl.stats(), CrawlStats { visited: 1, failed: 1 });
}

#[test]
fn report_of_a_failed_fetch_follows_the_retry_policy() {
    let extractor = LinkExtractor::new().unwrap();
    let mut crawl = started(1);
    assert_eq!(crawl.next_task(0), Ok(fetch(SEED)));
    assert_eq!(
        report_fetch(&mut crawl, &extractor, 0, Err(FetchError::UnsupportedScheme)),
        Ok(Followup::Retry { url: String::from(SEED), handler: Handler::Alternate })
    );
    assert_eq!(
        report_fetch(&mut crawl, &extractor, 0, Ok(page(&["http://a.example/"]))),
        Ok(Followup::Persist(CrawlRecord {
            url: String::from(SEED),
            worker: 0,
            outcome: Outcome::Fetched
        }))
    );
    assert_eq!(crawl.pending(), 1);
}

#[test]
fn report_from_a_worker_without_url_is_refused() {
    let extractor = LinkExtractor::new().unwrap();
    let mut crawl = started(2);
    assert_eq!(
        report_fetch(&mut crawl, &extractor, 0, Ok(page(&["http://a.example/"]))),
        Err(Misuse::WorkerIdle)
    );
    assert_eq!(
        report_fetch(&mut crawl, &extractor, 5, Err(FetchError::Network)),
        Err(Misuse::UnknownWorker)
    );
    assert_eq!(crawl.claimed(), 1);
}

#[test]
fn decode_body_accepts_text() {
    assert_eq!(decode_body(Vec::new()), Ok(String::new()));
    assert_eq!(decode_body(b"<a href='x'>".to_vec()), Ok(String::from("<a href='x'>")));
    assert_eq!(
        decode_body(vec![0x63, 0x61, 0x66, 0xc3, 0xa9]),
        Ok(String::from("caf\u{e9}"))
    );
}

#[test]
fn decode_body_rejects_what_is_no_utf8() {
    assert_eq!(decode_body(vec![0xff]), Err(FetchError::Decode));
    assert_eq!(decode_body(vec![0x61, 0xc3]), Err(FetchError::Decode));
    assert_eq!(decode_body(vec![0xc0, 0x80]), Err(FetchError::Decode));
    assert_eq!(decode_body(vec![0xed, 0xa0, 0x80]), Err(FetchError::Decode));
}

/// A small generator of repeatable pseudo-random numbers.
struct Dice(u64);

impl Dice {
    fn roll(&mut self, sides: usize) -> usize {
        self.0 = self.0.wrapping_mul(6364136223846793005).wrapping_add(1442695040888963407);
        ((self.0 >> 33) as usize) % sides
    }
}

fn page_name(n: usize) -> String {
    if n == 0 {
        String::from(SEED)
    } else if n % 7 == 3 {
        format!("http://site{}.example/file.png", n)
    } else {
        format!("http://site{}.example/", n)
    }
}

#[test]
fn random_webs_are_covered_exactly() {
    let filter = LinkFilter::standard();
    let mut dice = Dice(42);
    for round in 0..60 {
        let pages = 1 + dice.roll(25);
        let workers = 1 + dice.roll(5);
        let mut links: Vec<Vec<usize>> = Vec::new();
        let mut fails: Vec<bool> = Vec::new();
        for _ in 0..pages {
            let mut out = Vec::new();
            for _ in 0..dice.roll(6) {
                out.push(dice.roll(pages));
            }
            links.push(out);
            fails.push(dice.roll(5) == 0);
        }

        let mut expected = vec![false; pages];
        let mut queue = vec![0];
        expected[0] = true;
        while let Some(p) = queue.pop() {
            if fails[p] {
                continue;
            }
            for &q in &links[p] {
                if !expected[q] && filter.is_crawlable(&page_name(q)) {
                    expected[q] = true;
                    queue.push(q);
                }
            }
        }
        let reachable = expected.iter().filter(|e| **e).count();
        let failing = (0..pages).filter(|p| expected[*p] && fails[*p]).count();

        let mut crawl = started(workers);
        let mut holding: Vec<Option<String>> = (0..workers).map(|_| None).collect();
        let mut stopped = vec![false; workers];
        let mut recorded: Vec<String> = Vec::new();
        let mut steps = 0;
        while stopped.iter().any(|s| !s) {
            steps += 1;
            assert!(steps < 100_000, "round {} does not end", round);
            let w = dice.roll(workers);
            if stopped[w] {
                continue;
            }
            match holding[w].take() {
                None => match crawl.next_task(w).unwrap() {
                    Task::Fetch { url, .. } => holding[w] = Some(url),
                    Task::Wait => assert!(crawl.busy_workers() > 0),
                    Task::Stop => {
                        assert!(crawl.is_complete());
                        stopped[w] = true;
                    }
                },
                Some(url) => {
                    let p = (0..pages).find(|p| page_name(*p) == url).unwrap();
                    let record = if fails[p] {
                        match crawl.fetch_failed(w, FetchError::Network).unwrap() {
                            Followup::Persist(record) => record,
                            Followup::Retry { .. } => unreachable!(),
                        }
                    } else {
                        let found: Vec<String> = links[p].iter().map(|q| page_name(*q)).collect();
                        crawl.page_fetched(w, &found).unwrap()
                    };
                    assert_eq!(record.url, url);
                    assert!(!recorded.contains(&record.url), "{} recorded twice", url);
                    recorded.push(record.url);
                }
            }
            assert_eq!(crawl.claimed(), crawl.dispatched() + crawl.pending());
            assert_eq!(crawl.dispatched(), crawl.stats().visited + crawl.busy_workers());
        }
        assert_eq!(recorded.len(), reachable, "round {}", round);
        for p in 0..pages {
            assert_eq!(crawl.has_claimed(&page_name(p)), expected[p], "round {} page {}", round, p);
            assert_eq!(recorded.contains(&page_name(p)), expected[p]);
        }
        assert_eq!(crawl.stats(), CrawlStats { visited: reachable, failed: failing });
        assert_eq!(crawl.pending(), 0);
    }
}

#[test]
fn read_links_decodes_and_extracts() {
    let extractor = LinkExtractor::new().unwrap();
    let filter = LinkFilter::standard();
    assert_eq!(
        read_links(
            &extractor,
            &filter,
            Ok(page(&["http://a.example/", "/x", "http://b.example/b.png", "http://a.example/"]))
        ),
        Ok(strings(&["http://a.example/"]))
    );
    assert_eq!(read_links(&extractor, &filter, Ok(Vec::new())), Ok(Vec::new()));
    assert_eq!(read_links(&extractor, &filter, Ok(vec![0xff, 0xfe])), Err(FetchError::Decode));
    assert_eq!(
        read_links(&extractor, &filter, Err(FetchError::Network)),
        Err(FetchError::Network)
    );
    assert_eq!(
        read_links(&extractor, &filter, Err(FetchError::UnsupportedScheme)),
        Err(FetchError::UnsupportedScheme)
    );
}

#[test]
fn page_read_with_a_repeat_and_a_resource_delivers_one_link() {
    let extractor = LinkExtractor::new().unwrap();
    let filter = LinkFilter::standard();
    let body = "<a href='http://h.io/a'>1</a><a href='http://h.io/b.png'>2</a><a href='http://h.io/a'>3</a>";
    let found = read_links(&extractor, &filter, Ok(body.as_bytes().to_vec()));
    assert_eq!(found, Ok(strings(&["http://h.io/a"])));
    let mut crawl = Crawl::start(String::from("http://h.io/"), 1, LinkFilter::standard()).unwrap();
    assert_eq!(crawl.next_task(0), Ok(fetch("http://h.io/")));
    assert!(report_links(&mut crawl, 0, found).is_ok());
    assert_eq!(crawl.claimed(), 2);
    assert_eq!(crawl.pending(), 1);
    assert_eq!(crawl.next_task(0), Ok(fetch("http://h.io/a")));
    assert!(!crawl.has_claimed(&String::from("http://h.io/b.png")));
}

#[test]
fn crawl_hands_out_its_own_filter() {
    let crawl = Crawl::start(
        String::from(SEED),
        1,
        LinkFilter::new(vec![String::from("pdf")]),
    )
    .unwrap();
    assert!(!crawl.filter().is_crawlable("http://a.example/paper.pdf"));
    assert!(crawl.filter().is_crawlable("http://a.example/logo.png"));
}

#[test]
fn report_links_takes_pages_and_failures() {
    let mut crawl = started(1);
    assert_eq!(crawl.next_task(0), Ok(fetch(SEED)));
    assert_eq!(
        report_links(&mut crawl, 0, Err(FetchError::UnsupportedScheme)),
        Ok(Followup::Retry { url: String::from(SEED), handler: Handler::Alternate })
    );
    assert_eq!(
        report_links(&mut crawl, 0, Ok(strings(&["http://a.example/", "http://a.example/"]))),
        Ok(Followup::Persist(CrawlRecord {
            url: String::from(SEED),
            worker: 0,
            outcome: Outcome::Fetched
        }))
    );
    assert_eq!(crawl.pending(), 1);
    assert_eq!(crawl.next_task(0), Ok(fetch("http://a.example/")));
    assert_eq!(
        report_links(&mut crawl, 0, Err(FetchError::Decode)),
        Ok(Followup::Persist(CrawlRecord {
            url: String::from("http://a.example/"),
            worker: 0,
            outcome: Outcome::Failed(FetchError::Decode)
        }))
    );
    assert_eq!(report_links(&mut crawl, 0, Ok(Vec::new())), Err(Misuse::WorkerIdle));
    assert_eq!(report_links(&mut crawl, 3, Ok(Vec::new())), Err(Misuse::UnknownWorker));
    assert!(crawl.is_complete());
}

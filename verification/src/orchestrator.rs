//! The per-link crawl state machine.  A discovered link is either skipped
//! (its stored outcome already says success), or fetched; a fetched page
//! either yields decklists, which are persisted before the link is
//! recorded successful, or fails, in which case the failure and its text
//! are recorded and the run continues with the next link.
//!
//! Fetching itself is outside work: the caller performs it and hands the
//! outcome in as an event.  Pacing and the request timeout are the two
//! independent knobs of [`CrawlConfig`].

use vstd::prelude::*;
use crate::deck::{Decklist, DecklistV, ScrapeError, ScrapeErrorV};
use crate::formats::Format;
use crate::mtgo::{decklists_v, spec_scrape};
use crate::store::{
    spec_insert_decklist, spec_record, spec_should_skip, store_wf, Store, StoreV,
};

verus! {

/// The two pacing knobs: how long one request may take, and how long to
/// wait between consecutive requests to the same source.
#[derive(Eq, PartialEq, Structural, Copy, Clone, Debug)]
pub struct CrawlConfig {
    pub timeout_secs: u64,
    pub delay_ms: u64,
}

impl Default for CrawlConfig {
    /// The default pacing: a one-minute request timeout and a one-second
    /// politeness delay.
    fn default() -> (r: CrawlConfig)
        ensures
            r.timeout_secs == 60,
            r.delay_ms == 1000,
    {
        CrawlConfig { timeout_secs: 60, delay_ms: 1000 }
    }
}

/// What the fetch edge hands back for one link: the page text, or the
/// fetcher's message for a connection/timeout failure or a non-success
/// HTTP status.
#[derive(Debug, Clone)]
pub enum FetchOutcome {
    Fetched(String),
    Network(String),
    Http(String),
}

/// The mathematical content of a fetch outcome.
pub ghost enum FetchOutcomeV {
    Fetched(Seq<char>),
    Network(Seq<char>),
    Http(Seq<char>),
}

impl View for FetchOutcome {
    type V = FetchOutcomeV;

    open spec fn view(&self) -> FetchOutcomeV {
        match self {
            FetchOutcome::Fetched(s) => FetchOutcomeV::Fetched(s@),
            FetchOutcome::Network(m) => FetchOutcomeV::Network(m@),
            FetchOutcome::Http(m) => FetchOutcomeV::Http(m@),
        }
    }
}

/// The resumability gate: true exactly when the link's stored outcome
/// already says success, in which case it must not be fetched again.
pub fn should_skip(store: &Store, link: &str) -> (r: bool)
    ensures
        r == spec_should_skip(store@.links, link@),
{
    match store.find_scraped_link(link) {
        Some(row) => row.is_success,
        None => false,
    }
}

/// Every decklist of one link persisted, in order.
pub open spec fn spec_ingest_all(s: StoreV, ds: Seq<DecklistV>) -> StoreV
    decreases ds.len(),
{
    if ds.len() == 0 {
        s
    } else {
        spec_ingest_all(spec_insert_decklist(s, ds[0]).0, ds.skip(1))
    }
}

/// The store after one link succeeds: its decklists persisted, then the
/// link recorded successful.
pub open spec fn spec_success(s: StoreV, ds: Seq<DecklistV>, link: Seq<char>, at: Seq<char>) -> StoreV {
    let s1 = spec_ingest_all(s, ds);
    StoreV { links: spec_record(s1.links, link, true, None, at), ..s1 }
}

/// The store after one link fails: only the failure and its text recorded.
pub open spec fn spec_failure(s: StoreV, link: Seq<char>, msg: Seq<char>, at: Seq<char>) -> StoreV {
    StoreV { links: spec_record(s.links, link, false, Some(msg), at), ..s }
}

proof fn lemma_ingest_keeps_links(s: StoreV, ds: Seq<DecklistV>)
    ensures
        spec_ingest_all(s, ds).links == s.links,
    decreases ds.len(),
{
    if ds.len() > 0 {
        lemma_ingest_keeps_links(spec_insert_decklist(s, ds[0]).0, ds.skip(1));
    }
}

/// Law (resumability at the run level): once a link not yet in the crawl
/// state goes through the success path — all its decklists persisted and
/// the success recorded — the skip gate holds for it, so no later run
/// fetches it again.
pub proof fn lemma_success_then_skip(s: StoreV, ds: Seq<DecklistV>, link: Seq<char>, at: Seq<char>)
    requires
        crate::store::spec_link_index(s.links, link) is None,
    ensures
        spec_should_skip(spec_success(s, ds, link, at).links, link),
{
    lemma_ingest_keeps_links(s, ds);
    crate::store::lemma_record_success_then_skip(s.links, link, None, at);
}

/// Persist every decklist extracted from one link, then record the link
/// as successfully scraped.  Success is recorded only after every
/// decklist is persisted.
pub fn ingest_decklists(
    store: &mut Store,
    link: &str,
    decklists: &Vec<Decklist>,
    created_at: &str,
)
    requires
        store_wf(old(store)@),
        forall|i: int| 0 <= i < decklists@.len() ==> (#[trigger] decklists@[i]).wf(),
    ensures
        store_wf(final(store)@),
        final(store)@ == spec_success(old(store)@, decklists_v(decklists@), link@, created_at@),
{
    let ghost dsv = decklists_v(decklists@);
    let n = decklists.len();
    proof {
        assert(dsv.skip(0) =~= dsv);
    }
    let mut i: usize = 0;
    while i < n
        invariant
            0 <= i <= n,
            n == decklists@.len(),
            dsv == decklists_v(decklists@),
            store_wf(store@),
            forall|k: int| 0 <= k < decklists@.len() ==> (#[trigger] decklists@[k]).wf(),
            spec_ingest_all(old(store)@, dsv) == spec_ingest_all(store@, dsv.skip(i as int)),
        decreases n - i,
    {
        proof {
            assert(dsv.skip(i as int)[0] == dsv[i as int]);
            assert(dsv.skip(i as int).skip(1) =~= dsv.skip(i as int + 1));
            assert(decklists@[i as int].wf());
        }
        let ghost pre = store@;
        store.insert_decklist(&decklists[i]);
        proof {
            assert(store@ == spec_insert_decklist(pre, dsv[i as int]).0);
        }
        i += 1;
    }
    proof {
        assert(dsv.skip(n as int) =~= Seq::<DecklistV>::empty());
    }
    store.insert_scraped_link(link, true, None, created_at);
}

/// Record one link's failure and its diagnostic text; the run goes on.
pub fn record_failure(store: &mut Store, link: &str, err: &ScrapeError, created_at: &str)
    requires
        store_wf(old(store)@),
    ensures
        store_wf(final(store)@),
        final(store)@ == spec_failure(old(store)@, link@, err@.message(), created_at@),
{
    let msg = err.message();
    store.insert_scraped_link(link, false, Some(msg.as_str()), created_at);
}

/// What processing one article link does to the store, given the fetch
/// outcome.
pub open spec fn spec_process_article(
    s: StoreV,
    link: Seq<char>,
    fmt: Format,
    o: FetchOutcomeV,
    at: Seq<char>,
) -> StoreV {
    match o {
        FetchOutcomeV::Fetched(html) => match spec_scrape(html, fmt) {
            Ok(ds) => spec_success(s, ds, link, at),
            Err(e) => spec_failure(s, link, e.message(), at),
        },
        FetchOutcomeV::Network(m) => spec_failure(s, link, ScrapeErrorV::Network(m).message(), at),
        FetchOutcomeV::Http(m) => spec_failure(s, link, ScrapeErrorV::Http(m).message(), at),
    }
}

/// Drive one article link through its terminal state: extract and persist
/// on a fetched page, record the failure otherwise.  Returns how many
/// decklists were persisted, or the error that was recorded.
pub fn process_article_page(
    store: &mut Store,
    link: &str,
    format: Format,
    outcome: FetchOutcome,
    created_at: &str,
) -> (r: Result<usize, ScrapeError>)
    requires
        store_wf(old(store)@),
    ensures
        store_wf(final(store)@),
        final(store)@ == spec_process_article(old(store)@, link@, format, outcome@, created_at@),
        match r {
            Ok(n) => outcome@ is Fetched && (spec_scrape(outcome@->Fetched_0, format) matches Ok(
                ds) && n == ds.len()),
            Err(e) => match outcome@ {
                FetchOutcomeV::Fetched(html) => spec_scrape(html, format) == Err::<
                    Seq<DecklistV>,
                    ScrapeErrorV,
                >(e@),
                FetchOutcomeV::Network(m) => e@ == ScrapeErrorV::Network(m),
                FetchOutcomeV::Http(m) => e@ == ScrapeErrorV::Http(m),
            },
        },
{
    match outcome {
        FetchOutcome::Fetched(html) => {
            match crate::mtgo::scrape_decklists(html.as_str(), format) {
                Ok(ds) => {
                    let n = ds.len();
                    ingest_decklists(store, link, &ds, created_at);
                    Ok(n)
                },
                Err(e) => {
                    record_failure(store, link, &e, created_at);
                    Err(e)
                },
            }
        },
        FetchOutcome::Network(m) => {
            let e = ScrapeError::Network(m);
            record_failure(store, link, &e, created_at);
            Err(e)
        },
        FetchOutcome::Http(m) => {
            let e = ScrapeError::Http(m);
            record_failure(store, link, &e, created_at);
            Err(e)
        },
    }
}

/// Paginated discovery goes on exactly while the last page yielded links
/// and the hard page cap is not reached (empty-page termination with a
/// guard against malformed pagination).
pub fn should_continue_pagination(page: usize, new_links: usize, cap: usize) -> (r: bool)
    ensures
        r == (new_links > 0 && page < cap),
{
    new_links > 0 && page < cap
}

} // verus!

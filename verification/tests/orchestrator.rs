use deck_list_scraper::formats::Format;
use deck_list_scraper::orchestrator::{
    ingest_decklists, process_article_page, record_failure, should_continue_pagination,
    should_skip, CrawlConfig, FetchOutcome,
};
use deck_list_scraper::deck::ScrapeError;
use deck_list_scraper::store::Store;

#[test]
fn successful_link_is_skipped_on_the_next_run() {
    let mut store = Store::setup();
    let link = "https://site.invalid/event/1";
    assert!(!should_skip(&store, link));
    ingest_decklists(&mut store, link, &vec![], "t0");
    assert!(should_skip(&store, link));
}

#[test]
fn failed_link_is_retried_on_the_next_run() {
    let mut store = Store::setup();
    let link = "https://site.invalid/event/2";
    record_failure(&mut store, link, &ScrapeError::NotFound, "t0");
    assert!(!should_skip(&store, link));
    let row = store.find_scraped_link(link).expect("row");
    assert_eq!(row.error_msg, Some(String::from("no results found for the article")));
}

#[test]
fn network_failure_is_recorded_with_its_text() {
    let mut store = Store::setup();
    let link = "https://site.invalid/event/3";
    let r = process_article_page(
        &mut store,
        link,
        Format::Modern,
        FetchOutcome::Network(String::from("connection timed out")),
        "t0",
    );
    assert!(matches!(r, Err(ScrapeError::Network(_))));
    let row = store.find_scraped_link(link).expect("row");
    assert!(!row.is_success);
    assert_eq!(row.error_msg, Some(String::from("connection timed out")));
}

#[test]
fn http_failure_is_recorded_with_its_text() {
    let mut store = Store::setup();
    let link = "https://site.invalid/event/4";
    let r = process_article_page(
        &mut store,
        link,
        Format::Modern,
        FetchOutcome::Http(String::from("HTTP status 503")),
        "t0",
    );
    assert!(matches!(r, Err(ScrapeError::Http(_))));
    let row = store.find_scraped_link(link).expect("row");
    assert_eq!(row.error_msg, Some(String::from("HTTP status 503")));
}

#[test]
fn pagination_stops_on_empty_page_or_cap() {
    assert!(should_continue_pagination(1, 20, 50));
    assert!(!should_continue_pagination(1, 0, 50));
    assert!(!should_continue_pagination(50, 20, 50));
}

#[test]
fn default_config_has_documented_knobs() {
    let c = CrawlConfig::default();
    assert_eq!(c.timeout_secs, 60);
    assert_eq!(c.delay_ms, 1000);
}

fn two_deck_page() -> String {
    let mut page = String::from("<html><body>");
    page.push_str("<div class=\"posted-in\">Posted <span>in</span> on March 2, 2024</div>");
    // Deck A: mainboard 4 Lightning Bolt, 2 Mountain; empty sideboard.
    page.push_str("<div class=\"deck-group\">");
    page.push_str("<div class=\"deck-meta\"><h4>Alice</h4><h5>League</h5></div>");
    page.push_str("<div class=\"sorted-by-overview-container\">");
    page.push_str("<div class=\"row\"><span class=\"card-count\">4</span><span class=\"card-name\"><a>Lightning Bolt</a></span></div>");
    page.push_str("<div class=\"row\"><span class=\"card-count\">2</span><span class=\"card-name\"><a>Mountain</a></span></div>");
    page.push_str("</div></div>");
    // Deck B: mainboard 1 Mountain; sideboard 1 Lightning Bolt.
    page.push_str("<div class=\"deck-group\">");
    page.push_str("<div class=\"deck-meta\"><h4>Bob</h4><h5>League</h5></div>");
    page.push_str("<div class=\"sorted-by-overview-container\">");
    page.push_str("<div class=\"row\"><span class=\"card-count\">1</span><span class=\"card-name\"><a>Mountain</a></span></div>");
    page.push_str("</div>");
    page.push_str("<div class=\"sorted-by-sideboard-container\">");
    page.push_str("<div class=\"row\"><span class=\"card-count\">1</span><span class=\"card-name\"><a>Lightning Bolt</a></span></div>");
    page.push_str("</div></div>");
    page.push_str("</body></html>");
    page
}

#[test]
fn end_to_end_two_decks_share_two_cards() {
    let mut store = Store::setup();
    let link = "https://site.invalid/decklists/2024-03-02";
    let r = process_article_page(
        &mut store,
        link,
        Format::Modern,
        FetchOutcome::Fetched(two_deck_page()),
        "t0",
    );
    assert_eq!(r.expect("persisted"), 2);

    // Exactly two card rows, one per unique name.
    assert_eq!(store.cards.len(), 2);
    let mut names: Vec<String> = store.cards.iter().map(|c| c.name.clone()).collect();
    names.sort();
    assert_eq!(names, vec![String::from("Lightning Bolt"), String::from("Mountain")]);

    // Two deck rows.
    assert_eq!(store.decks.len(), 2);
    assert_eq!(store.decks[0].player, Some(String::from("Alice")));
    assert_eq!(store.decks[1].player, Some(String::from("Bob")));

    // Four junction rows with counts 4, 2, 1, 1.
    assert_eq!(store.deck_cards.len(), 4);
    let counts: Vec<usize> = store.deck_cards.iter().map(|dc| dc.count).collect();
    assert_eq!(counts, vec![4, 2, 1, 1]);
    assert!(!store.deck_cards[0].is_sideboard);
    assert!(!store.deck_cards[1].is_sideboard);
    assert!(!store.deck_cards[2].is_sideboard);
    assert!(store.deck_cards[3].is_sideboard);

    // Deck B's sideboard row references the same card row as Deck A's bolt.
    assert_eq!(store.deck_cards[3].card_id, store.deck_cards[0].card_id);

    // The link is recorded successful and skipped next time.
    assert!(should_skip(&store, link));
}

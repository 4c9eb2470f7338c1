use deck_list_scraper::deck::{Date, DecklistLinks, ScrapeError};
use deck_list_scraper::formats::Format;
use deck_list_scraper::mtgo::{find_latest_decklists, scrape_decklists};
use deck_list_scraper::tcdecks::{extract_deck, parse_tourney_links};

fn article_page() -> String {
    let mut page = String::from("<html><body>");
    page.push_str("<div class=\"posted-in\">Posted in <span>Decklists</span> on January 5, 2024</div>");
    page.push_str("<div class=\"deck-group\">");
    page.push_str("<div class=\"deck-meta\"><h4> Alice </h4><h5>League 1</h5></div>");
    page.push_str("<div class=\"sorted-by-overview-container\">");
    page.push_str("<div class=\"row\"><span class=\"card-count\">4</span><span class=\"card-name\"><a>Lightning Bolt</a></span></div>");
    page.push_str("<div class=\"row\"><span class=\"card-count\">2</span><span class=\"card-name\"><a>Mountain</a></span></div>");
    page.push_str("</div></div></body></html>");
    page
}

#[test]
fn article_page_yields_decklist_with_date() {
    let decks = scrape_decklists(&article_page(), Format::Modern).expect("decklists");
    assert_eq!(decks.len(), 1);
    let d = &decks[0];
    assert_eq!(d.format, Format::Modern);
    assert_eq!(d.player, Some(String::from("Alice")));
    assert_eq!(d.event, Some(String::from("League 1")));
    assert_eq!(d.date, Some(Date { year: 2024, month: 1, day: 5 }));
    assert_eq!(
        d.mainboard,
        vec![(4, String::from("Lightning Bolt")), (2, String::from("Mountain"))]
    );
    assert_eq!(d.sideboard, vec![]);
    assert_eq!(d.result, Some(String::from("5-0")));
}

#[test]
fn malformed_rows_are_skipped_not_fatal() {
    let mut page = String::from("<html><body>");
    page.push_str("<div class=\"posted-in\">x<span>y</span>z</div>");
    page.push_str("<div class=\"deck-group\">");
    page.push_str("<div class=\"deck-meta\"><h4>Bob</h4></div>");
    page.push_str("<div class=\"sorted-by-overview-container\">");
    for i in 0..9 {
        page.push_str(&format!(
            "<div class=\"row\"><span class=\"card-count\">{}</span><span class=\"card-name\"><a>Card {}</a></span></div>",
            i + 1,
            i
        ));
    }
    // one malformed row: its count is not a number
    page.push_str("<div class=\"row\"><span class=\"card-count\">x</span><span class=\"card-name\"><a>Broken</a></span></div>");
    page.push_str("</div></div></body></html>");
    let decks = scrape_decklists(&page, Format::Legacy).expect("decklists");
    assert_eq!(decks.len(), 1);
    assert_eq!(decks[0].mainboard.len(), 9);
    assert_eq!(decks[0].mainboard[0], (1, String::from("Card 0")));
    assert_eq!(decks[0].mainboard[8], (9, String::from("Card 8")));
}

#[test]
fn no_result_page_is_not_found() {
    let r = scrape_decklists("<html><body>no result found</body></html>", Format::Modern);
    assert!(matches!(r, Err(ScrapeError::NotFound)));
}

#[test]
fn page_without_posting_date_is_parse_error() {
    let r = scrape_decklists("<html><body><p>hi</p></body></html>", Format::Modern);
    match r {
        Err(e) => assert_eq!(e.message(), "no posting date section"),
        Ok(_) => panic!("expected a parse error"),
    }
}

#[test]
fn deck_group_without_mainboard_is_parse_error() {
    let page = "<html><body><div class=\"posted-in\">x<b>y</b>z</div>\
                <div class=\"deck-group\"><div class=\"deck-meta\"></div></div></body></html>";
    match scrape_decklists(page, Format::Modern) {
        Err(e) => assert_eq!(e.message(), "no mainboard container"),
        Ok(_) => panic!("expected a parse error"),
    }
}

#[test]
fn discovery_reads_link_and_format_from_fragment() {
    let fragment = String::from(
        "<div class=\"article-item-extended\"><a href=\"/en/articles/one\"></a></div>\
         <div class=\"title\"><h3>Standard Decklists: stuff</h3></div>",
    );
    let links = DecklistLinks { data: vec![fragment], status: 1, offset: 0, display_see_more: 0 };
    let found = find_latest_decklists(&links).expect("links");
    assert_eq!(found, vec![(Format::Standard, String::from("/en/articles/one"))]);
}

#[test]
fn discovery_without_container_is_parse_error() {
    let links = DecklistLinks {
        data: vec![String::from("<p>nothing here</p>")],
        status: 1,
        offset: 0,
        display_see_more: 0,
    };
    match find_latest_decklists(&links) {
        Err(e) => assert_eq!(e.message(), "no article container"),
        Ok(_) => panic!("expected a parse error"),
    }
}

#[test]
fn tourney_links_keep_only_deck_pages() {
    let page = "<html><body><table class=\"tourney_list\">\
        <tr class=\"principal\"><td><a href=\"deck.php?id=1\">one</a></td></tr>\
        <tr class=\"principal\"><td><a href=\"event.php?id=2\">two</a></td></tr>\
        <tr class=\"principal\"><td>no anchor</td></tr>\
        <tr class=\"principal\"><td><a href=\"deck.php?id=3\">three</a></td></tr>\
        </table></body></html>";
    let links = parse_tourney_links(page, Format::Premodern).expect("links");
    assert_eq!(
        links,
        vec![
            (Format::Premodern, String::from("deck.php?id=1")),
            (Format::Premodern, String::from("deck.php?id=3")),
        ]
    );
}

#[test]
fn tourney_page_without_list_is_parse_error() {
    match parse_tourney_links("<html><body></body></html>", Format::Pauper) {
        Err(e) => assert_eq!(e.message(), "no tournament list"),
        Ok(_) => panic!("expected a parse error"),
    }
}

fn deck_page() -> String {
    let mut page = String::from("<html><body><fieldset><legend>");
    page.push_str("<i>icon</i><b>Winter League</b><i>x</i><span>Season 2 | Players: 8 | Date: 05/01/2024</span>");
    page.push_str("</legend></fieldset><table>");
    page.push_str("<tr><th>Alice playing Burn</th><th> Position: 1 </th></tr>");
    page.push_str("<tr><th>Deck Name: Sligh</th></tr>");
    page.push_str("<tr>");
    page.push_str("<td><h6>Creatures</h6>4<a>Lightning Bolt</a></td>");
    page.push_str("<td>2<a>Mountain</a>1<a>Fireblast</a></td>");
    page.push_str("<td>3<a>Pyroblast</a></td>");
    page.push_str("</tr></table></body></html>");
    page
}

#[test]
fn deck_page_yields_full_decklist() {
    let d = extract_deck(&deck_page(), Format::Premodern).expect("decklist");
    assert_eq!(d.format, Format::Premodern);
    assert_eq!(d.player, Some(String::from("Alice")));
    assert_eq!(d.archetype, Some(String::from("Burn")));
    assert_eq!(d.event, Some(String::from("Winter League")));
    assert_eq!(d.date, Some(Date { year: 2024, month: 1, day: 5 }));
    assert_eq!(d.result, Some(String::from("1")));
    assert_eq!(d.name, Some(String::from("Sligh")));
    assert_eq!(
        d.mainboard,
        vec![
            (4, String::from("Lightning Bolt")),
            (2, String::from("Mountain")),
            (1, String::from("Fireblast")),
        ]
    );
    assert_eq!(d.sideboard, vec![(3, String::from("Pyroblast"))]);
}

#[test]
fn deck_page_without_legend_is_parse_error() {
    match extract_deck("<html><body><table></table></body></html>", Format::Legacy) {
        Err(e) => assert_eq!(e.message(), "no legend"),
        Ok(_) => panic!("expected a parse error"),
    }
}

#[test]
fn deck_page_without_archetype_is_parse_error() {
    let page = "<html><body><fieldset><legend><b>e</b></legend></fieldset>\
                <table><tr><th>Alice alone</th></tr></table></body></html>";
    match extract_deck(page, Format::Legacy) {
        Err(e) => assert_eq!(e.message(), "no archetype"),
        Ok(_) => panic!("expected a parse error"),
    }
}

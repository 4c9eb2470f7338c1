use deck_list_scraper::deck::{CardCatalogEntry, Decklist};
use deck_list_scraper::formats::Format;
use deck_list_scraper::store::Store;

fn entry(name: &str) -> CardCatalogEntry {
    CardCatalogEntry {
        name: String::from(name),
        scryfall_id: Some(String::from("abc-123")),
        scryfall_url: Some(String::from("https://example.invalid/card")),
        cmc: Some(String::from("1")),
        power: None,
        toughness: None,
        type_line: Some(String::from("Instant")),
        set_code: Some(String::from("lea")),
        set_name: Some(String::from("Alpha")),
        colors: Some(String::from("R")),
        is_premodern_legal: true,
    }
}

#[test]
fn card_identity_is_idempotent() {
    let mut store = Store::setup();
    let id1 = store.get_or_create_card("Lightning Bolt");
    let id2 = store.get_or_create_card("Lightning Bolt");
    assert_eq!(id1, id2);
    assert_eq!(store.cards.len(), 1);
    assert_eq!(store.cards[0].name, "Lightning Bolt");
}

#[test]
fn different_names_get_different_cards() {
    let mut store = Store::setup();
    let a = store.get_or_create_card("Mountain");
    let b = store.get_or_create_card("Island");
    assert_ne!(a, b);
    assert_eq!(store.cards.len(), 2);
}

#[test]
fn catalog_upsert_converges() {
    let mut store = Store::setup();
    store.upsert_card(&entry("Lightning Bolt"));
    assert_eq!(store.cards.len(), 1);
    let after_first: Vec<(u64, String, Option<String>)> = store
        .cards
        .iter()
        .map(|c| (c.id, c.name.clone(), c.cmc.clone()))
        .collect();
    store.upsert_card(&entry("Lightning Bolt"));
    assert_eq!(store.cards.len(), 1);
    let after_second: Vec<(u64, String, Option<String>)> = store
        .cards
        .iter()
        .map(|c| (c.id, c.name.clone(), c.cmc.clone()))
        .collect();
    assert_eq!(after_first, after_second);
    assert_eq!(store.cards[0].is_premodern_legal, Some(true));
}

#[test]
fn catalog_upsert_enriches_existing_row_in_place() {
    let mut store = Store::setup();
    let id = store.get_or_create_card("Lightning Bolt");
    store.upsert_card(&entry("Lightning Bolt"));
    assert_eq!(store.cards.len(), 1);
    assert_eq!(store.cards[0].id, id);
    assert_eq!(store.cards[0].set_code, Some(String::from("lea")));
}

#[test]
fn scraped_link_insert_if_absent() {
    let mut store = Store::setup();
    let inserted = store.insert_scraped_link("https://a.invalid/1", false, Some("boom"), "t0");
    assert_eq!(inserted, 1);
    let again = store.insert_scraped_link("https://a.invalid/1", true, None, "t1");
    assert_eq!(again, 0);
    assert_eq!(store.scraped_links.len(), 1);
    assert_eq!(store.scraped_links[0].is_success, false);
    assert_eq!(store.scraped_links[0].error_msg, Some(String::from("boom")));
    assert_eq!(store.scraped_links[0].created_at, "t0");
}

#[test]
fn find_scraped_link_looks_up_by_link() {
    let mut store = Store::setup();
    assert!(store.find_scraped_link("https://a.invalid/1").is_none());
    store.insert_scraped_link("https://a.invalid/1", true, None, "t0");
    let row = store.find_scraped_link("https://a.invalid/1").expect("row");
    assert!(row.is_success);
    assert_eq!(row.link, "https://a.invalid/1");
    assert!(store.find_scraped_link("https://a.invalid/2").is_none());
}

#[test]
fn insert_decklist_links_all_cards() {
    let mut store = Store::setup();
    let deck = Decklist {
        format: Format::Premodern,
        player: Some(String::from("Alice")),
        event: Some(String::from("League")),
        date: None,
        mainboard: vec![(4, String::from("Lightning Bolt")), (2, String::from("Mountain"))],
        sideboard: vec![(3, String::from("Pyroblast"))],
        archetype: None,
        result: Some(String::from("5-0")),
        name: None,
    };
    let deck_id = store.insert_decklist(&deck);
    assert_eq!(store.decks.len(), 1);
    assert_eq!(store.decks[0].id, deck_id);
    assert_eq!(store.decks[0].format, Format::Premodern);
    assert_eq!(store.cards.len(), 3);
    assert_eq!(store.deck_cards.len(), 3);
    assert_eq!(store.deck_cards[0].count, 4);
    assert!(!store.deck_cards[0].is_sideboard);
    assert_eq!(store.deck_cards[2].count, 3);
    assert!(store.deck_cards[2].is_sideboard);
}

#[test]
fn repeated_deck_insert_reuses_cards_but_not_decks() {
    let mut store = Store::setup();
    let deck = Decklist {
        format: Format::Modern,
        player: None,
        event: None,
        date: None,
        mainboard: vec![(4, String::from("Mountain"))],
        sideboard: vec![],
        archetype: None,
        result: None,
        name: None,
    };
    store.insert_decklist(&deck);
    store.insert_decklist(&deck);
    assert_eq!(store.decks.len(), 2);
    assert_eq!(store.cards.len(), 1);
    assert_eq!(store.deck_cards.len(), 2);
}

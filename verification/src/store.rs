//! The relational store as a verified in-memory model: four tables, each a
//! vector of rows, with the dedup and upsert semantics of the persistence
//! layer stated as total functions over table views.
//!
//! All state lives here between calls; every component above is
//! restartable from cold.  Row identities are indices into their table.

use vstd::prelude::*;
use crate::deck::{
    opt_v, CardCatalogEntry, CardCatalogEntryV, Date, Decklist, DecklistV, ScrapedLink,
    ScrapedLinkV,
};
use crate::formats::Format;
use crate::text::str_eq;

verus! {

/// One row of the `cards` table: a unique name plus optional catalog
/// metadata.
#[derive(Debug, Clone)]
pub struct CardRow {
    pub id: u64,
    pub name: String,
    pub scryfall_id: Option<String>,
    pub scryfall_url: Option<String>,
    pub cmc: Option<String>,
    pub power: Option<String>,
    pub toughness: Option<String>,
    pub type_line: Option<String>,
    pub set_code: Option<String>,
    pub set_name: Option<String>,
    pub colors: Option<String>,
    pub is_premodern_legal: Option<bool>,
}

/// The mathematical content of a card row.
pub ghost struct CardRowV {
    pub id: u64,
    pub name: Seq<char>,
    pub scryfall_id: Option<Seq<char>>,
    pub scryfall_url: Option<Seq<char>>,
    pub cmc: Option<Seq<char>>,
    pub power: Option<Seq<char>>,
    pub toughness: Option<Seq<char>>,
    pub type_line: Option<Seq<char>>,
    pub set_code: Option<Seq<char>>,
    pub set_name: Option<Seq<char>>,
    pub colors: Option<Seq<char>>,
    pub is_premodern_legal: Option<bool>,
}

impl View for CardRow {
    type V = CardRowV;

    open spec fn view(&self) -> CardRowV {
        CardRowV {
            id: self.id,
            name: self.name@,
            scryfall_id: opt_v(self.scryfall_id),
            scryfall_url: opt_v(self.scryfall_url),
            cmc: opt_v(self.cmc),
            power: opt_v(self.power),
            toughness: opt_v(self.toughness),
            type_line: opt_v(self.type_line),
            set_code: opt_v(self.set_code),
            set_name: opt_v(self.set_name),
            colors: opt_v(self.colors),
            is_premodern_legal: self.is_premodern_legal,
        }
    }
}

/// One row of the `decks` table.
#[derive(Debug, Clone)]
pub struct DeckRow {
    pub id: u64,
    pub name: Option<String>,
    pub format: Format,
    pub event: Option<String>,
    pub date: Option<Date>,
    pub player: Option<String>,
    pub archetype: Option<String>,
    pub result: Option<String>,
}

/// The mathematical content of a deck row.
pub ghost struct DeckRowV {
    pub id: u64,
    pub name: Option<Seq<char>>,
    pub format: Format,
    pub event: Option<Seq<char>>,
    pub date: Option<Date>,
    pub player: Option<Seq<char>>,
    pub archetype: Option<Seq<char>>,
    pub result: Option<Seq<char>>,
}

impl View for DeckRow {
    type V = DeckRowV;

    open spec fn view(&self) -> DeckRowV {
        DeckRowV {
            id: self.id,
            name: opt_v(self.name),
            format: self.format,
            event: opt_v(self.event),
            date: self.date,
            player: opt_v(self.player),
            archetype: opt_v(self.archetype),
            result: opt_v(self.result),
        }
    }
}

/// One row of the `deck_cards` junction table.  No uniqueness constraint:
/// a deck may list a card more than once as separate rows.
#[derive(Eq, PartialEq, Structural, Copy, Clone, Debug)]
pub struct DeckCardRow {
    pub deck_id: u64,
    pub card_id: u64,
    pub count: usize,
    pub is_sideboard: bool,
}

/// The store's four tables as sequences of row views.
pub ghost struct StoreV {
    pub decks: Seq<DeckRowV>,
    pub cards: Seq<CardRowV>,
    pub deck_cards: Seq<DeckCardRow>,
    pub links: Seq<ScrapedLinkV>,
}

/// The relational store.
#[derive(Debug)]
pub struct Store {
    pub decks: Vec<DeckRow>,
    pub cards: Vec<CardRow>,
    pub deck_cards: Vec<DeckCardRow>,
    pub scraped_links: Vec<ScrapedLink>,
}

impl View for Store {
    type V = StoreV;

    open spec fn view(&self) -> StoreV {
        StoreV {
            decks: Seq::new(self.decks@.len(), |i: int| self.decks@[i]@),
            cards: Seq::new(self.cards@.len(), |i: int| self.cards@[i]@),
            deck_cards: self.deck_cards@,
            links: Seq::new(self.scraped_links@.len(), |i: int| self.scraped_links@[i]@),
        }
    }
}

/// Index of the first card row named `n`, scanning from `k`.
pub open spec fn card_index_from(cards: Seq<CardRowV>, n: Seq<char>, k: int) -> Option<int>
    decreases cards.len() - k,
{
    if k < 0 || k >= cards.len() {
        None
    } else if cards[k].name == n {
        Some(k)
    } else {
        card_index_from(cards, n, k + 1)
    }
}

/// Index of the card row named `n`, if any.
pub open spec fn spec_card_index(cards: Seq<CardRowV>, n: Seq<char>) -> Option<int> {
    card_index_from(cards, n, 0)
}

/// Index of the first crawl-state row for `l`, scanning from `k`.
pub open spec fn link_index_from(links: Seq<ScrapedLinkV>, l: Seq<char>, k: int) -> Option<int>
    decreases links.len() - k,
{
    if k < 0 || k >= links.len() {
        None
    } else if links[k].link == l {
        Some(k)
    } else {
        link_index_from(links, l, k + 1)
    }
}

/// Index of the crawl-state row for `l`, if any.
pub open spec fn spec_link_index(links: Seq<ScrapedLinkV>, l: Seq<char>) -> Option<int> {
    link_index_from(links, l, 0)
}

/// Card-table validity: identities are the row positions and names are
/// pairwise distinct.
pub open spec fn cards_wf(cards: Seq<CardRowV>) -> bool {
    &&& forall|i: int| 0 <= i < cards.len() ==> (#[trigger] cards[i]).id == i
    &&& forall|i: int, j: int|
        #![trigger cards[i], cards[j]]
        0 <= i < j < cards.len() ==> cards[i].name != cards[j].name
}

/// Crawl-state validity: identities are the row positions and links are
/// pairwise distinct.
pub open spec fn links_wf(links: Seq<ScrapedLinkV>) -> bool {
    &&& forall|i: int| 0 <= i < links.len() ==> (#[trigger] links[i]).id == i
    &&& forall|i: int, j: int|
        #![trigger links[i], links[j]]
        0 <= i < j < links.len() ==> links[i].link != links[j].link
}

/// One junction row references existing rows and a positive count.
pub open spec fn dc_wf(dc: DeckCardRow, ndecks: int, ncards: int) -> bool {
    dc.deck_id < ndecks && dc.card_id < ncards && dc.count >= 1
}

/// Deck-table validity: identities are the row positions.
pub open spec fn decks_wf(decks: Seq<DeckRowV>) -> bool {
    forall|i: int| 0 <= i < decks.len() ==> (#[trigger] decks[i]).id == i
}

/// Junction-table validity against the current table sizes.
pub open spec fn dcs_wf(dcs: Seq<DeckCardRow>, ndecks: int, ncards: int) -> bool {
    forall|i: int| 0 <= i < dcs.len() ==> dc_wf(#[trigger] dcs[i], ndecks, ncards)
}

/// Whole-store validity.
pub open spec fn store_wf(s: StoreV) -> bool {
    &&& cards_wf(s.cards)
    &&& links_wf(s.links)
    &&& decks_wf(s.decks)
    &&& dcs_wf(s.deck_cards, s.decks.len() as int, s.cards.len() as int)
}

/// A crawl-state row as recorded for one outcome.
pub open spec fn new_link_row(
    id: u64,
    l: Seq<char>,
    success: bool,
    err: Option<Seq<char>>,
    at: Seq<char>,
) -> ScrapedLinkV {
    ScrapedLinkV { id, link: l, is_success: success, error_msg: err, created_at: at }
}

/// Insert-if-absent semantics of `insert_scraped_link`: a link that is
/// already recorded is left exactly as it was.
pub open spec fn spec_record(
    links: Seq<ScrapedLinkV>,
    l: Seq<char>,
    success: bool,
    err: Option<Seq<char>>,
    at: Seq<char>,
) -> Seq<ScrapedLinkV> {
    if spec_link_index(links, l) is None {
        links.push(new_link_row(links.len() as u64, l, success, err, at))
    } else {
        links
    }
}

/// A bare card row holding nothing but its name.
pub open spec fn bare_card(id: u64, n: Seq<char>) -> CardRowV {
    CardRowV {
        id,
        name: n,
        scryfall_id: None,
        scryfall_url: None,
        cmc: None,
        power: None,
        toughness: None,
        type_line: None,
        set_code: None,
        set_name: None,
        colors: None,
        is_premodern_legal: None,
    }
}

/// What `get_or_create_card` does: the table afterwards and the identity
/// returned.  An existing name leaves the table untouched.
pub open spec fn spec_get_or_create(cards: Seq<CardRowV>, n: Seq<char>) -> (Seq<CardRowV>, u64) {
    match spec_card_index(cards, n) {
        Some(i) => (cards, cards[i].id),
        None => (cards.push(bare_card(cards.len() as u64, n)), cards.len() as u64),
    }
}

/// A fresh card row populated from a catalog entry.
pub open spec fn catalog_card(id: u64, e: CardCatalogEntryV) -> CardRowV {
    CardRowV {
        id,
        name: e.name,
        scryfall_id: e.scryfall_id,
        scryfall_url: e.scryfall_url,
        cmc: e.cmc,
        power: e.power,
        toughness: e.toughness,
        type_line: e.type_line,
        set_code: e.set_code,
        set_name: e.set_name,
        colors: e.colors,
        is_premodern_legal: Some(e.is_premodern_legal),
    }
}

/// Overwrite only the catalog-derived fields of an existing row; identity
/// and name are preserved.
pub open spec fn merge_catalog(row: CardRowV, e: CardCatalogEntryV) -> CardRowV {
    CardRowV {
        id: row.id,
        name: row.name,
        scryfall_id: e.scryfall_id,
        scryfall_url: e.scryfall_url,
        cmc: e.cmc,
        power: e.power,
        toughness: e.toughness,
        type_line: e.type_line,
        set_code: e.set_code,
        set_name: e.set_name,
        colors: e.colors,
        is_premodern_legal: Some(e.is_premodern_legal),
    }
}

/// What `upsert_card` does to the card table.
pub open spec fn spec_upsert_card(cards: Seq<CardRowV>, e: CardCatalogEntryV) -> Seq<CardRowV> {
    match spec_card_index(cards, e.name) {
        Some(i) => cards.update(i, merge_catalog(cards[i], e)),
        None => cards.push(catalog_card(cards.len() as u64, e)),
    }
}

/// A deck row populated from a decklist.
pub open spec fn deck_row_v(id: u64, d: DecklistV) -> DeckRowV {
    DeckRowV {
        id,
        name: d.name,
        format: d.format,
        event: d.event,
        date: d.date,
        player: d.player,
        archetype: d.archetype,
        result: d.result,
    }
}

/// One board entry persisted: resolve or create the card, then append the
/// junction row.
pub open spec fn apply_entry(
    cards: Seq<CardRowV>,
    dcs: Seq<DeckCardRow>,
    deck_id: u64,
    e: (usize, Seq<char>),
    sb: bool,
) -> (Seq<CardRowV>, Seq<DeckCardRow>) {
    let (cards1, cid) = spec_get_or_create(cards, e.1);
    (cards1, dcs.push(DeckCardRow { deck_id, card_id: cid, count: e.0, is_sideboard: sb }))
}

/// A whole board persisted, first entry first.
pub open spec fn apply_board(
    cards: Seq<CardRowV>,
    dcs: Seq<DeckCardRow>,
    deck_id: u64,
    board: Seq<(usize, Seq<char>)>,
    sb: bool,
) -> (Seq<CardRowV>, Seq<DeckCardRow>)
    decreases board.len(),
{
    if board.len() == 0 {
        (cards, dcs)
    } else {
        let (c1, d1) = apply_entry(cards, dcs, deck_id, board[0], sb);
        apply_board(c1, d1, deck_id, board.skip(1), sb)
    }
}

/// What `insert_decklist` does: one new deck row, then every mainboard and
/// sideboard entry resolved and linked, in order.
pub open spec fn spec_insert_decklist(s: StoreV, d: DecklistV) -> (StoreV, u64) {
    let id = s.decks.len() as u64;
    let decks1 = s.decks.push(deck_row_v(id, d));
    let (c1, dc1) = apply_board(s.cards, s.deck_cards, id, d.mainboard, false);
    let (c2, dc2) = apply_board(c1, dc1, id, d.sideboard, true);
    (StoreV { decks: decks1, cards: c2, deck_cards: dc2, links: s.links }, id)
}

proof fn lemma_card_index_bounds(cards: Seq<CardRowV>, n: Seq<char>, k: int)
    requires
        card_index_from(cards, n, k) is Some,
    ensures
        k <= card_index_from(cards, n, k)->0 < cards.len(),
        cards[card_index_from(cards, n, k)->0].name == n,
    decreases cards.len() - k,
{
    if !(k < 0 || k >= cards.len()) && cards[k].name != n {
        lemma_card_index_bounds(cards, n, k + 1);
    }
}

proof fn lemma_card_index_none(cards: Seq<CardRowV>, n: Seq<char>, k: int)
    requires
        0 <= k,
        card_index_from(cards, n, k) is None,
    ensures
        forall|i: int| k <= i < cards.len() ==> (#[trigger] cards[i]).name != n,
    decreases cards.len() - k,
{
    if !(k < 0 || k >= cards.len()) {
        lemma_card_index_none(cards, n, k + 1);
    }
}

proof fn lemma_link_index_bounds(links: Seq<ScrapedLinkV>, l: Seq<char>, k: int)
    requires
        link_index_from(links, l, k) is Some,
    ensures
        k <= link_index_from(links, l, k)->0 < links.len(),
        links[link_index_from(links, l, k)->0].link == l,
    decreases links.len() - k,
{
    if !(k < 0 || k >= links.len()) && links[k].link != l {
        lemma_link_index_bounds(links, l, k + 1);
    }
}

proof fn lemma_link_index_none(links: Seq<ScrapedLinkV>, l: Seq<char>, k: int)
    requires
        0 <= k,
        link_index_from(links, l, k) is None,
    ensures
        forall|i: int| k <= i < links.len() ==> (#[trigger] links[i]).link != l,
    decreases links.len() - k,
{
    if !(k < 0 || k >= links.len()) {
        lemma_link_index_none(links, l, k + 1);
    }
}

proof fn lemma_links_wf_record(
    links: Seq<ScrapedLinkV>,
    l: Seq<char>,
    success: bool,
    err: Option<Seq<char>>,
    at: Seq<char>,
)
    requires
        links_wf(links),
        links.len() <= usize::MAX,
    ensures
        links_wf(spec_record(links, l, success, err, at)),
{
    if spec_link_index(links, l) is None {
        lemma_link_index_none(links, l, 0);
        let b = links.push(new_link_row(links.len() as u64, l, success, err, at));
        assert forall|i: int| 0 <= i < b.len() implies (#[trigger] b[i]).id == i by {
            if i < links.len() {
                assert(b[i] == links[i]);
            }
        }
        assert forall|i: int, j: int|
            #![trigger b[i], b[j]]
            0 <= i < j < b.len() implies b[i].link != b[j].link by {
            if j < links.len() {
                assert(b[i] == links[i] && b[j] == links[j]);
            } else {
                assert(b[i] == links[i] && b[j].link == l);
            }
        }
    }
}

proof fn lemma_cards_wf_get_or_create(cards: Seq<CardRowV>, n: Seq<char>)
    requires
        cards_wf(cards),
        cards.len() <= usize::MAX,
    ensures
        cards_wf(spec_get_or_create(cards, n).0),
        cards.len() <= spec_get_or_create(cards, n).0.len() <= cards.len() + 1,
        spec_get_or_create(cards, n).1 < spec_get_or_create(cards, n).0.len(),
    decreases 0int,
{
    match spec_card_index(cards, n) {
        Some(i) => {
            lemma_card_index_bounds(cards, n, 0);
        },
        None => {
            lemma_card_index_none(cards, n, 0);
            let b = cards.push(bare_card(cards.len() as u64, n));
            assert forall|i: int| 0 <= i < b.len() implies (#[trigger] b[i]).id == i by {
                if i < cards.len() {
                    assert(b[i] == cards[i]);
                }
            }
            assert forall|i: int, j: int|
                #![trigger b[i], b[j]]
                0 <= i < j < b.len() implies b[i].name != b[j].name by {
                if j < cards.len() {
                    assert(b[i] == cards[i] && b[j] == cards[j]);
                } else {
                    assert(b[i] == cards[i] && b[j].name == n);
                }
            }
        },
    }
}

proof fn lemma_cards_wf_upsert(cards: Seq<CardRowV>, e: CardCatalogEntryV)
    requires
        cards_wf(cards),
        cards.len() <= usize::MAX,
    ensures
        cards_wf(spec_upsert_card(cards, e)),
        cards.len() <= spec_upsert_card(cards, e).len() <= cards.len() + 1,
{
    match spec_card_index(cards, e.name) {
        Some(i) => {
            lemma_card_index_bounds(cards, e.name, 0);
            let b = cards.update(i, merge_catalog(cards[i], e));
            assert forall|k: int| 0 <= k < b.len() implies (#[trigger] b[k]).id == k by {
                if k != i {
                    assert(b[k] == cards[k]);
                }
            }
            assert forall|k: int, j: int|
                #![trigger b[k], b[j]]
                0 <= k < j < b.len() implies b[k].name != b[j].name by {
                assert(b[k].name == cards[k].name && b[j].name == cards[j].name);
            }
        },
        None => {
            lemma_card_index_none(cards, e.name, 0);
            let b = cards.push(catalog_card(cards.len() as u64, e));
            assert forall|i: int| 0 <= i < b.len() implies (#[trigger] b[i]).id == i by {
                if i < cards.len() {
                    assert(b[i] == cards[i]);
                }
            }
            assert forall|i: int, j: int|
                #![trigger b[i], b[j]]
                0 <= i < j < b.len() implies b[i].name != b[j].name by {
                if j < cards.len() {
                    assert(b[i] == cards[i] && b[j] == cards[j]);
                } else {
                    assert(b[i] == cards[i] && b[j].name == e.name);
                }
            }
        },
    }
}

proof fn lemma_decks_wf_push(decks: Seq<DeckRowV>, d: DecklistV)
    requires
        decks_wf(decks),
        decks.len() <= usize::MAX,
    ensures
        decks_wf(decks.push(deck_row_v(decks.len() as u64, d))),
{
    let b = decks.push(deck_row_v(decks.len() as u64, d));
    assert forall|i: int| 0 <= i < b.len() implies (#[trigger] b[i]).id == i by {
        if i < decks.len() {
            assert(b[i] == decks[i]);
        }
    }
}

proof fn lemma_dcs_wf_grow(dcs: Seq<DeckCardRow>, nd: int, nc: int, nd2: int, nc2: int)
    requires
        dcs_wf(dcs, nd, nc),
        nd <= nd2,
        nc <= nc2,
    ensures
        dcs_wf(dcs, nd2, nc2),
{
    assert forall|i: int| 0 <= i < dcs.len() implies dc_wf(#[trigger] dcs[i], nd2, nc2) by {
        assert(dc_wf(dcs[i], nd, nc));
    }
}

proof fn lemma_dcs_wf_push(dcs: Seq<DeckCardRow>, nd: int, nc: int, dc: DeckCardRow)
    requires
        dcs_wf(dcs, nd, nc),
        dc_wf(dc, nd, nc),
    ensures
        dcs_wf(dcs.push(dc), nd, nc),
{
    let b = dcs.push(dc);
    assert forall|i: int| 0 <= i < b.len() implies dc_wf(#[trigger] b[i], nd, nc) by {
        if i < dcs.len() {
            assert(b[i] == dcs[i]);
        }
    }
}

/// Clone an optional text field; the copy is the same value.
fn clone_opt(o: &Option<String>) -> (r: Option<String>)
    ensures
        r == *o,
{
    match o {
        Some(s) => Some(s.clone()),
        None => None,
    }
}

impl Store {
    /// Create the four empty tables.
    pub fn setup() -> (r: Store)
        ensures
            r@.decks == Seq::<DeckRowV>::empty(),
            r@.cards == Seq::<CardRowV>::empty(),
            r@.deck_cards == Seq::<DeckCardRow>::empty(),
            r@.links == Seq::<ScrapedLinkV>::empty(),
            store_wf(r@),
    {
        let r = Store {
            decks: Vec::new(),
            cards: Vec::new(),
            deck_cards: Vec::new(),
            scraped_links: Vec::new(),
        };
        proof {
            assert(r@.decks =~= Seq::<DeckRowV>::empty());
            assert(r@.cards =~= Seq::<CardRowV>::empty());
            assert(r@.links =~= Seq::<ScrapedLinkV>::empty());
        }
        r
    }

    /// The stored outcome for a link, or nothing if it was never attempted.
    pub fn find_scraped_link(&self, link: &str) -> (r: Option<&ScrapedLink>)
        ensures
            match spec_link_index(self@.links, link@) {
                Some(i) => r is Some && r->0@ == self@.links[i],
                None => r is None,
            },
    {
        let n = self.scraped_links.len();
        let mut k: usize = 0;
        while k < n
            invariant
                0 <= k <= n,
                n == self.scraped_links@.len(),
                spec_link_index(self@.links, link@) == link_index_from(
                    self@.links, link@, k as int),
            decreases n - k,
        {
            if str_eq(self.scraped_links[k].link.as_str(), link) {
                return Some(&self.scraped_links[k]);
            }
            k += 1;
        }
        None
    }

    /// Record the outcome of one link attempt.  Insert-if-absent: a link
    /// that already has a row is treated as already recorded and left
    /// unchanged (the documented duplicate policy).  Returns the number of
    /// rows inserted.
    pub fn insert_scraped_link(
        &mut self,
        link: &str,
        is_success: bool,
        error_msg: Option<&str>,
        created_at: &str,
    ) -> (r: usize)
        requires
            store_wf(old(self)@),
        ensures
            store_wf(final(self)@),
            final(self)@.links == spec_record(
                old(self)@.links, link@, is_success, match error_msg {
                    Some(m) => Some(m@),
                    None => None,
                }, created_at@),
            final(self)@.decks == old(self)@.decks,
            final(self)@.cards == old(self)@.cards,
            final(self)@.deck_cards == old(self)@.deck_cards,
            r == 1 <==> spec_link_index(old(self)@.links, link@) is None,
            r == 0 || r == 1,
    {
        let n = self.scraped_links.len();
        let mut k: usize = 0;
        while k < n
            invariant
                0 <= k <= n,
                n == self.scraped_links@.len(),
                store_wf(old(self)@),
                self@ == old(self)@,
                spec_link_index(self@.links, link@) == link_index_from(
                    self@.links, link@, k as int),
            decreases n - k,
        {
            if str_eq(self.scraped_links[k].link.as_str(), link) {
                return 0;
            }
            k += 1;
        }
        let ghost links0 = self@.links;
        let row = ScrapedLink {
            id: self.scraped_links.len() as u64,
            link: link.to_owned(),
            is_success,
            error_msg: match error_msg {
                Some(m) => Some(m.to_owned()),
                None => None,
            },
            created_at: created_at.to_owned(),
        };
        proof {
            lemma_link_index_none(links0, link@, 0);
        }
        self.scraped_links.push(row);
        proof {
            assert(self@.links =~= links0.push(
                new_link_row(links0.len() as u64, link@, is_success, match error_msg {
                    Some(m) => Some(m@),
                    None => None,
                }, created_at@)));
            assert(self@.decks =~= old(self)@.decks);
            assert(self@.cards =~= old(self)@.cards);
            lemma_links_wf_record(links0, link@, is_success, match error_msg {
                Some(m) => Some(m@),
                None => None,
            }, created_at@);
            assert(links_wf(self@.links));
            assert(store_wf(self@));
        }
        1
    }

    /// Look a card up by its unique name; if absent, insert a bare row.
    /// Returns the card's identity either way.
    pub fn get_or_create_card(&mut self, name: &str) -> (r: u64)
        requires
            store_wf(old(self)@),
        ensures
            store_wf(final(self)@),
            (final(self)@.cards, r) == spec_get_or_create(old(self)@.cards, name@),
            final(self)@.decks == old(self)@.decks,
            final(self)@.deck_cards == old(self)@.deck_cards,
            final(self)@.links == old(self)@.links,
            old(self)@.cards.len() <= final(self)@.cards.len() <= old(self)@.cards.len() + 1,
            r < final(self)@.cards.len(),
    {
        let n = self.cards.len();
        let mut k: usize = 0;
        while k < n
            invariant
                0 <= k <= n,
                n == self.cards@.len(),
                store_wf(old(self)@),
                self@ == old(self)@,
                spec_card_index(self@.cards, name@) == card_index_from(
                    self@.cards, name@, k as int),
            decreases n - k,
        {
            if str_eq(self.cards[k].name.as_str(), name) {
                proof {
                    lemma_card_index_bounds(self@.cards, name@, 0);
                    assert(self@.cards[k as int].id == k);
                }
                return self.cards[k].id;
            }
            k += 1;
        }
        let ghost cards0 = self@.cards;
        let id = self.cards.len() as u64;
        let row = CardRow {
            id,
            name: name.to_owned(),
            scryfall_id: None,
            scryfall_url: None,
            cmc: None,
            power: None,
            toughness: None,
            type_line: None,
            set_code: None,
            set_name: None,
            colors: None,
            is_premodern_legal: None,
        };
        proof {
            lemma_card_index_none(cards0, name@, 0);
        }
        self.cards.push(row);
        proof {
            assert(self@.cards =~= cards0.push(bare_card(cards0.len() as u64, name@)));
            assert(self@.decks =~= old(self)@.decks);
            assert(self@.links =~= old(self)@.links);
            lemma_cards_wf_get_or_create(cards0, name@);
            assert(cards_wf(self@.cards));
            lemma_dcs_wf_grow(
                self@.deck_cards, self@.decks.len() as int, cards0.len() as int,
                self@.decks.len() as int, self@.cards.len() as int);
            assert(store_wf(self@));
        }
        id
    }

    /// Idempotent reconciliation of one external catalog entry, keyed by
    /// card name: insert a fully populated row, or overwrite only the
    /// catalog-derived fields of the existing one.
    pub fn upsert_card(&mut self, entry: &CardCatalogEntry)
        requires
            store_wf(old(self)@),
        ensures
            store_wf(final(self)@),
            final(self)@.cards == spec_upsert_card(old(self)@.cards, entry@),
            final(self)@.decks == old(self)@.decks,
            final(self)@.deck_cards == old(self)@.deck_cards,
            final(self)@.links == old(self)@.links,
    {
        let n = self.cards.len();
        let mut k: usize = 0;
        while k < n
            invariant
                0 <= k <= n,
                n == self.cards@.len(),
                store_wf(old(self)@),
                self@ == old(self)@,
                spec_card_index(self@.cards, entry.name@) == card_index_from(
                    self@.cards, entry.name@, k as int),
            decreases n - k,
        {
            if str_eq(self.cards[k].name.as_str(), entry.name.as_str()) {
                let merged = CardRow {
                    id: self.cards[k].id,
                    name: self.cards[k].name.clone(),
                    scryfall_id: clone_opt(&entry.scryfall_id),
                    scryfall_url: clone_opt(&entry.scryfall_url),
                    cmc: clone_opt(&entry.cmc),
                    power: clone_opt(&entry.power),
                    toughness: clone_opt(&entry.toughness),
                    type_line: clone_opt(&entry.type_line),
                    set_code: clone_opt(&entry.set_code),
                    set_name: clone_opt(&entry.set_name),
                    colors: clone_opt(&entry.colors),
                    is_premodern_legal: Some(entry.is_premodern_legal),
                };
                self.cards[k] = merged;
                proof {
                    assert(self@.cards =~= old(self)@.cards.update(
                        k as int, merge_catalog(old(self)@.cards[k as int], entry@)));
                    assert(self@.decks =~= old(self)@.decks);
                    assert(self@.links =~= old(self)@.links);
                    lemma_cards_wf_upsert(old(self)@.cards, entry@);
                    assert(cards_wf(self@.cards));
                    lemma_dcs_wf_grow(
                        self@.deck_cards, self@.decks.len() as int, old(self)@.cards.len() as int,
                        self@.decks.len() as int, self@.cards.len() as int);
                    assert(store_wf(self@));
                }
                return;
            }
            k += 1;
        }
        let ghost cards0 = self@.cards;
        let id = self.cards.len() as u64;
        let row = CardRow {
            id,
            name: entry.name.clone(),
            scryfall_id: clone_opt(&entry.scryfall_id),
            scryfall_url: clone_opt(&entry.scryfall_url),
            cmc: clone_opt(&entry.cmc),
            power: clone_opt(&entry.power),
            toughness: clone_opt(&entry.toughness),
            type_line: clone_opt(&entry.type_line),
            set_code: clone_opt(&entry.set_code),
            set_name: clone_opt(&entry.set_name),
            colors: clone_opt(&entry.colors),
            is_premodern_legal: Some(entry.is_premodern_legal),
        };
        proof {
            lemma_card_index_none(cards0, entry.name@, 0);
        }
        self.cards.push(row);
        proof {
            assert(self@.cards =~= cards0.push(catalog_card(cards0.len() as u64, entry@)));
            assert(self@.decks =~= old(self)@.decks);
            assert(self@.links =~= old(self)@.links);
            lemma_cards_wf_upsert(cards0, entry@);
            assert(cards_wf(self@.cards));
            lemma_dcs_wf_grow(
                self@.deck_cards, self@.decks.len() as int, cards0.len() as int,
                self@.decks.len() as int, self@.cards.len() as int);
            assert(store_wf(self@));
        }
    }

    /// Insert a new deck row (decks are never deduplicated) and return its
    /// identity.
    pub fn upsert_deck(&mut self, d: &Decklist) -> (r: u64)
        requires
            store_wf(old(self)@),
        ensures
            store_wf(final(self)@),
            final(self)@.decks == old(self)@.decks.push(deck_row_v(old(self)@.decks.len() as u64, d@)),
            r == old(self)@.decks.len() as u64,
            final(self)@.cards == old(self)@.cards,
            final(self)@.deck_cards == old(self)@.deck_cards,
            final(self)@.links == old(self)@.links,
    {
        let id = self.decks.len() as u64;
        let row = DeckRow {
            id,
            name: clone_opt(&d.name),
            format: d.format,
            event: clone_opt(&d.event),
            date: d.date,
            player: clone_opt(&d.player),
            archetype: clone_opt(&d.archetype),
            result: clone_opt(&d.result),
        };
        self.decks.push(row);
        proof {
            assert(self@.decks =~= old(self)@.decks.push(
                deck_row_v(old(self)@.decks.len() as u64, d@)));
            assert(self@.cards =~= old(self)@.cards);
            assert(self@.links =~= old(self)@.links);
            lemma_decks_wf_push(old(self)@.decks, d@);
            assert(decks_wf(self@.decks));
            lemma_dcs_wf_grow(
                self@.deck_cards, old(self)@.decks.len() as int, self@.cards.len() as int,
                self@.decks.len() as int, self@.cards.len() as int);
            assert(store_wf(self@));
        }
        id
    }

    /// Append one deck-to-card association row.
    pub fn link_card_to_deck(
        &mut self,
        deck_id: u64,
        card_id: u64,
        count: usize,
        is_sideboard: bool,
    )
        requires
            store_wf(old(self)@),
            deck_id < old(self)@.decks.len(),
            card_id < old(self)@.cards.len(),
            count >= 1,
        ensures
            store_wf(final(self)@),
            final(self)@.deck_cards == old(self)@.deck_cards.push(
                DeckCardRow { deck_id, card_id, count, is_sideboard }),
            final(self)@.decks == old(self)@.decks,
            final(self)@.cards == old(self)@.cards,
            final(self)@.links == old(self)@.links,
    {
        self.deck_cards.push(DeckCardRow { deck_id, card_id, count, is_sideboard });
        proof {
            assert(self@.decks =~= old(self)@.decks);
            assert(self@.cards =~= old(self)@.cards);
            assert(self@.links =~= old(self)@.links);
            lemma_dcs_wf_push(
                old(self)@.deck_cards, self@.decks.len() as int, self@.cards.len() as int,
                DeckCardRow { deck_id, card_id, count, is_sideboard });
            assert(store_wf(self@));
        }
    }

    /// Persist a whole decklist: create the deck row, then resolve or
    /// create every card of both boards in order and link each one.
    pub fn insert_decklist(&mut self, d: &Decklist) -> (r: u64)
        requires
            store_wf(old(self)@),
            d.wf(),
        ensures
            store_wf(final(self)@),
            final(self)@ == spec_insert_decklist(old(self)@, d@).0,
            r == spec_insert_decklist(old(self)@, d@).1,
    {
        let ghost s0 = old(self)@;
        let deck_id = self.upsert_deck(d);
        let ghost cards0 = self@.cards;
        let ghost dcs0 = self@.deck_cards;
        let ghost decks1 = self@.decks;
        proof {
            assert(d@.mainboard.skip(0) =~= d@.mainboard);
        }
        let nm = d.mainboard.len();
        let mut i: usize = 0;
        while i < nm
            invariant
                0 <= i <= nm,
                nm == d.mainboard@.len(),
                store_wf(self@),
                d.wf(),
                deck_id < self@.decks.len(),
                self@.decks == decks1,
                self@.links == s0.links,
                apply_board(cards0, dcs0, deck_id, d@.mainboard, false) == apply_board(
                    self@.cards, self@.deck_cards, deck_id, d@.mainboard.skip(i as int), false),
                self@.cards.len() >= cards0.len(),
            decreases nm - i,
        {
            let ghost cpre = self@.cards;
            let ghost dpre = self@.deck_cards;
            assert(entry_ok(d@.mainboard, i as int)) by {
                assert(crate::deck::entry_wf(d@.mainboard[i as int]));
            }
            let cid = self.get_or_create_card(d.mainboard[i].1.as_str());
            self.link_card_to_deck(deck_id, cid, d.mainboard[i].0, false);
            proof {
                assert(d@.mainboard[i as int] == (d.mainboard@[i as int].0,
                    d.mainboard@[i as int].1@));
                assert(d@.mainboard.skip(i as int)[0] == d@.mainboard[i as int]);
                assert(d@.mainboard.skip(i as int).skip(1) =~= d@.mainboard.skip(i as int + 1));
                assert(apply_board(cpre, dpre, deck_id, d@.mainboard.skip(i as int), false)
                    == apply_board(self@.cards, self@.deck_cards, deck_id,
                        d@.mainboard.skip(i as int + 1), false));
            }
            i += 1;
        }
        proof {
            assert(d@.mainboard.skip(nm as int) =~= Seq::<(usize, Seq<char>)>::empty());
        }
        let ghost cards1 = self@.cards;
        let ghost dcs1 = self@.deck_cards;
        proof {
            assert(d@.sideboard.skip(0) =~= d@.sideboard);
        }
        let ns = d.sideboard.len();
        let mut j: usize = 0;
        while j < ns
            invariant
                0 <= j <= ns,
                ns == d.sideboard@.len(),
                store_wf(self@),
                d.wf(),
                deck_id < self@.decks.len(),
                self@.decks == decks1,
                self@.links == s0.links,
                apply_board(cards1, dcs1, deck_id, d@.sideboard, true) == apply_board(
                    self@.cards, self@.deck_cards, deck_id, d@.sideboard.skip(j as int), true),
            decreases ns - j,
        {
            let ghost cpre = self@.cards;
            let ghost dpre = self@.deck_cards;
            assert(entry_ok(d@.sideboard, j as int)) by {
                assert(crate::deck::entry_wf(d@.sideboard[j as int]));
            }
            let cid = self.get_or_create_card(d.sideboard[j].1.as_str());
            self.link_card_to_deck(deck_id, cid, d.sideboard[j].0, true);
            proof {
                assert(d@.sideboard[j as int] == (d.sideboard@[j as int].0,
                    d.sideboard@[j as int].1@));
                assert(d@.sideboard.skip(j as int)[0] == d@.sideboard[j as int]);
                assert(d@.sideboard.skip(j as int).skip(1) =~= d@.sideboard.skip(j as int + 1));
                assert(apply_board(cpre, dpre, deck_id, d@.sideboard.skip(j as int), true)
                    == apply_board(self@.cards, self@.deck_cards, deck_id,
                        d@.sideboard.skip(j as int + 1), true));
            }
            j += 1;
        }
        proof {
            assert(d@.sideboard.skip(ns as int) =~= Seq::<(usize, Seq<char>)>::empty());
            assert(self@ == spec_insert_decklist(s0, d@).0);
        }
        deck_id
    }
}

/// Helper for reading one board entry's validity at an index.
pub open spec fn entry_ok(b: Seq<(usize, Seq<char>)>, i: int) -> bool {
    0 <= i < b.len() && crate::deck::entry_wf(b[i])
}

/// The resumability gate: a link is skipped exactly when its stored
/// outcome says it already succeeded.
pub open spec fn spec_should_skip(links: Seq<ScrapedLinkV>, l: Seq<char>) -> bool {
    match spec_link_index(links, l) {
        Some(i) => links[i].is_success,
        None => false,
    }
}

/// How many card rows carry the name `n`, scanning from `k`.
pub open spec fn count_name_from(cards: Seq<CardRowV>, n: Seq<char>, k: int) -> int
    decreases cards.len() - k,
{
    if k < 0 || k >= cards.len() {
        0
    } else {
        (if cards[k].name == n {
            1int
        } else {
            0int
        }) + count_name_from(cards, n, k + 1)
    }
}

/// How many card rows carry the name `n`.
pub open spec fn count_name(cards: Seq<CardRowV>, n: Seq<char>) -> int {
    count_name_from(cards, n, 0)
}

proof fn lemma_count_from_zero(cards: Seq<CardRowV>, n: Seq<char>, k: int)
    requires
        forall|i: int| k <= i < cards.len() ==> (#[trigger] cards[i]).name != n,
    ensures
        count_name_from(cards, n, k) == 0,
    decreases cards.len() - k,
{
    if !(k < 0 || k >= cards.len()) {
        lemma_count_from_zero(cards, n, k + 1);
    }
}

proof fn lemma_count_from_one(cards: Seq<CardRowV>, n: Seq<char>, k: int)
    requires
        forall|i: int, j: int|
            #![trigger cards[i], cards[j]]
            0 <= i < j < cards.len() ==> cards[i].name != cards[j].name,
        0 <= k,
        card_index_from(cards, n, k) is Some,
    ensures
        count_name_from(cards, n, k) == 1,
    decreases cards.len() - k,
{
    lemma_card_index_bounds(cards, n, k);
    if cards[k].name == n {
        assert forall|i: int| k + 1 <= i < cards.len() implies (#[trigger] cards[i]).name != n by {
            assert(cards[k].name != cards[i].name);
        }
        lemma_count_from_zero(cards, n, k + 1);
    } else {
        lemma_count_from_one(cards, n, k + 1);
    }
}

proof fn lemma_card_index_push(cards: Seq<CardRowV>, row: CardRowV, k: int)
    requires
        0 <= k,
        card_index_from(cards, row.name, k) is None,
        k <= cards.len(),
    ensures
        card_index_from(cards.push(row), row.name, k) == Some(cards.len() as int),
    decreases cards.len() - k,
{
    let b = cards.push(row);
    if k < cards.len() {
        assert(b[k] == cards[k]);
        lemma_card_index_push(cards, row, k + 1);
    } else {
        assert(b[k] == row);
    }
}

proof fn lemma_link_index_push(links: Seq<ScrapedLinkV>, row: ScrapedLinkV, k: int)
    requires
        0 <= k <= links.len(),
        link_index_from(links, row.link, k) is None,
    ensures
        link_index_from(links.push(row), row.link, k) == Some(links.len() as int),
    decreases links.len() - k,
{
    let b = links.push(row);
    if k < links.len() {
        assert(b[k] == links[k]);
        lemma_link_index_push(links, row, k + 1);
    } else {
        assert(b[k] == row);
    }
}

proof fn lemma_link_index_push_keeps(links: Seq<ScrapedLinkV>, row: ScrapedLinkV, l: Seq<char>, k: int)
    requires
        0 <= k,
        link_index_from(links, l, k) is Some,
    ensures
        link_index_from(links.push(row), l, k) == link_index_from(links, l, k),
    decreases links.len() - k,
{
    lemma_link_index_bounds(links, l, k);
    let b = links.push(row);
    assert(b[k] == links[k]);
    if links[k].link != l {
        lemma_link_index_push_keeps(links, row, l, k + 1);
    }
}

proof fn lemma_card_index_names_eq(a: Seq<CardRowV>, b: Seq<CardRowV>, n: Seq<char>, k: int)
    requires
        a.len() == b.len(),
        forall|i: int| 0 <= i < a.len() ==> (#[trigger] a[i]).name == b[i].name,
    ensures
        card_index_from(a, n, k) == card_index_from(b, n, k),
    decreases a.len() - k,
{
    if !(k < 0 || k >= a.len()) {
        lemma_card_index_names_eq(a, b, n, k + 1);
    }
}

/// Law: card identity is idempotent.  Resolving the same name twice
/// returns the same identity both times, the second resolution changes
/// nothing, and afterwards the card table holds exactly one row under
/// that name.
pub proof fn lemma_card_identity_idempotent(cards: Seq<CardRowV>, n: Seq<char>)
    requires
        cards_wf(cards),
        cards.len() <= usize::MAX,
    ensures
        ({
            let (cards1, id1) = spec_get_or_create(cards, n);
            let (cards2, id2) = spec_get_or_create(cards1, n);
            &&& id2 == id1
            &&& cards2 == cards1
            &&& count_name(cards1, n) == 1
        }),
{
    let (cards1, id1) = spec_get_or_create(cards, n);
    lemma_cards_wf_get_or_create(cards, n);
    match spec_card_index(cards, n) {
        Some(i) => {
            lemma_count_from_one(cards, n, 0);
        },
        None => {
            let row = bare_card(cards.len() as u64, n);
            lemma_card_index_push(cards, row, 0);
            assert(spec_card_index(cards1, n) == Some(cards.len() as int));
            assert(cards1[cards.len() as int].id == cards.len() as u64);
            lemma_count_from_one(cards1, n, 0);
        },
    }
}

/// Law: catalog reconciliation converges.  Applying the same catalog
/// entry twice leaves the card table exactly as after the first
/// application: no duplicate row and no field drift.
pub proof fn lemma_upsert_card_idempotent(cards: Seq<CardRowV>, e: CardCatalogEntryV)
    requires
        cards_wf(cards),
        cards.len() <= usize::MAX,
    ensures
        spec_upsert_card(spec_upsert_card(cards, e), e) == spec_upsert_card(cards, e),
{
    let b = spec_upsert_card(cards, e);
    match spec_card_index(cards, e.name) {
        Some(i) => {
            lemma_card_index_bounds(cards, e.name, 0);
            assert(forall|k: int| 0 <= k < cards.len() ==> (#[trigger] b[k]).name
                == cards[k].name);
            lemma_card_index_names_eq(b, cards, e.name, 0);
            assert(spec_card_index(b, e.name) == Some(i));
            assert(merge_catalog(b[i], e) == b[i]);
            assert(b.update(i, merge_catalog(b[i], e)) =~= b);
        },
        None => {
            let row = catalog_card(cards.len() as u64, e);
            lemma_card_index_push(cards, row, 0);
            assert(spec_card_index(b, e.name) == Some(cards.len() as int));
            assert(merge_catalog(b[cards.len() as int], e) == b[cards.len() as int]);
            assert(b.update(cards.len() as int, merge_catalog(b[cards.len() as int], e)) =~= b);
        },
    }
}

/// Law (resumability, first half): recording a successful outcome for a
/// link not yet in the table makes the skip gate hold for that link.
pub proof fn lemma_record_success_then_skip(
    links: Seq<ScrapedLinkV>,
    l: Seq<char>,
    err: Option<Seq<char>>,
    at: Seq<char>,
)
    requires
        spec_link_index(links, l) is None,
    ensures
        spec_should_skip(spec_record(links, l, true, err, at), l),
{
    lemma_link_index_push(links, new_link_row(links.len() as u64, l, true, err, at), 0);
}

/// Law (resumability, second half): once the skip gate holds for a link,
/// no later recording — of any link, with any outcome — can clear it.
/// Across runs a successfully scraped link is therefore never re-fetched.
pub proof fn lemma_skip_is_stable(
    links: Seq<ScrapedLinkV>,
    l: Seq<char>,
    l2: Seq<char>,
    success2: bool,
    err2: Option<Seq<char>>,
    at2: Seq<char>,
)
    requires
        spec_should_skip(links, l),
    ensures
        spec_should_skip(spec_record(links, l2, success2, err2, at2), l),
{
    if spec_link_index(links, l2) is None {
        let row = new_link_row(links.len() as u64, l2, success2, err2, at2);
        lemma_link_index_push_keeps(links, row, l, 0);
        let i = spec_link_index(links, l)->0;
        lemma_link_index_bounds(links, l, 0);
        assert(links.push(row)[i] == links[i]);
    }
}

} // verus!

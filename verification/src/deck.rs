//! The canonical data model: decklists, crawl-state records, catalog
//! entries, and the error taxonomy shared by the whole pipeline.

use vstd::prelude::*;
use crate::formats::Format;
use crate::text::spec_trim;

verus! {

/// A calendar date as plain values.  Month and day are kept in the ranges
/// a calendar admits; finer validity (days per month) is not modeled.
#[derive(Eq, PartialEq, Structural, Copy, Clone, Debug)]
pub struct Date {
    pub year: i32,
    pub month: u8,
    pub day: u8,
}

impl Date {
    /// Range validity of a date.
    pub open spec fn wf(self) -> bool {
        1 <= self.month <= 12 && 1 <= self.day <= 31
    }
}

/// The view of an optional text field.
pub open spec fn opt_v(o: Option<String>) -> Option<Seq<char>> {
    match o {
        Some(s) => Some(s@),
        None => None,
    }
}

/// The view of a board: each entry a positive count and a card name.
pub open spec fn board_v(b: Seq<(usize, String)>) -> Seq<(usize, Seq<char>)> {
    Seq::new(b.len(), |i: int| (b[i].0, b[i].1@))
}

/// One mainboard or sideboard entry is a positive count and a card name.
/// Entry validity: the count is at least one and the name is non-empty
/// trimmed text.
pub open spec fn entry_wf(e: (usize, Seq<char>)) -> bool {
    e.0 >= 1 && e.1.len() > 0 && e.1 == spec_trim(e.1)
}

/// Validity of a whole board (every entry is valid).
pub open spec fn board_wf(b: Seq<(usize, Seq<char>)>) -> bool {
    forall|i: int| 0 <= i < b.len() ==> #[trigger] entry_wf(b[i])
}

/// The normalized record produced by every extractor: one real-world deck
/// entry from one event.
#[derive(Debug, Clone)]
pub struct Decklist {
    pub format: Format,
    pub player: Option<String>,
    pub event: Option<String>,
    pub date: Option<Date>,
    pub mainboard: Vec<(usize, String)>,
    pub sideboard: Vec<(usize, String)>,
    pub archetype: Option<String>,
    pub result: Option<String>,
    pub name: Option<String>,
}

/// The mathematical content of a decklist: all text as character
/// sequences.
pub ghost struct DecklistV {
    pub format: Format,
    pub player: Option<Seq<char>>,
    pub event: Option<Seq<char>>,
    pub date: Option<Date>,
    pub mainboard: Seq<(usize, Seq<char>)>,
    pub sideboard: Seq<(usize, Seq<char>)>,
    pub archetype: Option<Seq<char>>,
    pub result: Option<Seq<char>>,
    pub name: Option<Seq<char>>,
}

impl View for Decklist {
    type V = DecklistV;

    open spec fn view(&self) -> DecklistV {
        DecklistV {
            format: self.format,
            player: opt_v(self.player),
            event: opt_v(self.event),
            date: self.date,
            mainboard: board_v(self.mainboard@),
            sideboard: board_v(self.sideboard@),
            archetype: opt_v(self.archetype),
            result: opt_v(self.result),
            name: opt_v(self.name),
        }
    }
}

impl DecklistV {
    /// Invariant: every count is positive, every card name is non-empty
    /// trimmed text, and the date (when present) is range-valid.
    pub open spec fn wf(self) -> bool {
        &&& board_wf(self.mainboard)
        &&& board_wf(self.sideboard)
        &&& (self.date is Some ==> self.date->0.wf())
    }
}

impl Decklist {
    /// Invariant of the executable record, stated on its view.
    pub open spec fn wf(self) -> bool {
        self@.wf()
    }
}

/// The JSON envelope shape of the article-list discovery endpoint:
/// a list of embedded HTML fragments plus paging metadata.
#[derive(Debug, Clone)]
pub struct DecklistLinks {
    pub data: Vec<String>,
    pub status: i32,
    pub offset: i32,
    pub display_see_more: i32,
}

/// Crawl-state record for one discovered link.
#[derive(Debug, Clone)]
pub struct ScrapedLink {
    pub id: u64,
    pub link: String,
    pub is_success: bool,
    pub error_msg: Option<String>,
    pub created_at: String,
}

/// The mathematical content of a crawl-state record.
pub ghost struct ScrapedLinkV {
    pub id: u64,
    pub link: Seq<char>,
    pub is_success: bool,
    pub error_msg: Option<Seq<char>>,
    pub created_at: Seq<char>,
}

impl View for ScrapedLink {
    type V = ScrapedLinkV;

    open spec fn view(&self) -> ScrapedLinkV {
        ScrapedLinkV {
            id: self.id,
            link: self.link@,
            is_success: self.is_success,
            error_msg: opt_v(self.error_msg),
            created_at: self.created_at@,
        }
    }
}

/// Reference metadata for one card name, sourced from the external bulk
/// catalog.  The mana value is carried as its decimal text (the storage
/// schema keeps it as a numeric column; the caller formats it).
#[derive(Debug, Clone)]
pub struct CardCatalogEntry {
    pub name: String,
    pub scryfall_id: Option<String>,
    pub scryfall_url: Option<String>,
    pub cmc: Option<String>,
    pub power: Option<String>,
    pub toughness: Option<String>,
    pub type_line: Option<String>,
    pub set_code: Option<String>,
    pub set_name: Option<String>,
    pub colors: Option<String>,
    pub is_premodern_legal: bool,
}

/// The mathematical content of a catalog entry.
pub ghost struct CardCatalogEntryV {
    pub name: Seq<char>,
    pub scryfall_id: Option<Seq<char>>,
    pub scryfall_url: Option<Seq<char>>,
    pub cmc: Option<Seq<char>>,
    pub power: Option<Seq<char>>,
    pub toughness: Option<Seq<char>>,
    pub type_line: Option<Seq<char>>,
    pub set_code: Option<Seq<char>>,
    pub set_name: Option<Seq<char>>,
    pub colors: Option<Seq<char>>,
    pub is_premodern_legal: bool,
}

impl View for CardCatalogEntry {
    type V = CardCatalogEntryV;

    open spec fn view(&self) -> CardCatalogEntryV {
        CardCatalogEntryV {
            name: self.name@,
            scryfall_id: opt_v(self.scryfall_id),
            scryfall_url: opt_v(self.scryfall_url),
            cmc: opt_v(self.cmc),
            power: opt_v(self.power),
            toughness: opt_v(self.toughness),
            type_line: opt_v(self.type_line),
            set_code: opt_v(self.set_code),
            set_name: opt_v(self.set_name),
            colors: opt_v(self.colors),
            is_premodern_legal: self.is_premodern_legal,
        }
    }
}

/// The tail of a comma-joined list, starting at element `k`.
pub open spec fn comma_rest(cs: Seq<Seq<char>>, k: int) -> Seq<char>
    decreases cs.len() - k,
{
    if k < 0 || k >= cs.len() {
        Seq::empty()
    } else {
        ","@ + cs[k] + comma_rest(cs, k + 1)
    }
}

/// What joining a color list yields: nothing for an empty list, else the
/// symbols separated by commas.
pub open spec fn spec_join_colors(cs: Seq<Seq<char>>) -> Option<Seq<char>> {
    if cs.len() == 0 {
        None
    } else {
        Some(cs[0] + comma_rest(cs, 1))
    }
}

/// The views of a list of color symbols.
pub open spec fn colors_v(cs: Seq<String>) -> Seq<Seq<char>> {
    Seq::new(cs.len(), |i: int| cs[i]@)
}

/// Join a card's color symbols into the stored comma-separated form; an
/// empty list stores nothing.
pub fn join_colors(colors: &Vec<String>) -> (r: Option<String>)
    ensures
        match r {
            Some(s) => spec_join_colors(colors_v(colors@)) == Some(s@),
            None => spec_join_colors(colors_v(colors@)) is None,
        },
{
    let n = colors.len();
    if n == 0 {
        return None;
    }
    let ghost cs = colors_v(colors@);
    let mut r: String = colors[0].clone();
    let mut i: usize = 1;
    while i < n
        invariant
            1 <= i <= n,
            n == colors@.len(),
            cs == colors_v(colors@),
            cs[0] + comma_rest(cs, 1) == r@ + comma_rest(cs, i as int),
        decreases n - i,
    {
        proof {
            assert((r@ + ","@) + (colors@[i as int]@ + comma_rest(cs, i as int + 1)) =~= r@ + (","@
                + cs[i as int] + comma_rest(cs, i as int + 1)));
            assert(((r@ + ","@) + colors@[i as int]@) + comma_rest(cs, i as int + 1) =~= (r@
                + ","@) + (colors@[i as int]@ + comma_rest(cs, i as int + 1)));
        }
        r.append(",");
        r.append(colors[i].as_str());
        i += 1;
    }
    proof {
        assert(comma_rest(cs, n as int) == Seq::<char>::empty());
        assert(r@ + Seq::<char>::empty() =~= r@);
    }
    Some(r)
}

/// Why one link failed: the recoverable error taxonomy.  Network and HTTP
/// failures are produced at the fetch edge and carry the fetcher's message;
/// the other variants are produced by the extractors.
#[derive(Debug, Clone)]
pub enum ScrapeError {
    /// Connection failure or timeout.
    Network(String),
    /// Non-success HTTP status.
    Http(String),
    /// The source explicitly reported no content.
    NotFound,
    /// An expected structural element was absent.
    Parse(String),
}

/// The mathematical content of a scrape error.
pub ghost enum ScrapeErrorV {
    Network(Seq<char>),
    Http(Seq<char>),
    NotFound,
    Parse(Seq<char>),
}

impl View for ScrapeError {
    type V = ScrapeErrorV;

    open spec fn view(&self) -> ScrapeErrorV {
        match self {
            ScrapeError::Network(m) => ScrapeErrorV::Network(m@),
            ScrapeError::Http(m) => ScrapeErrorV::Http(m@),
            ScrapeError::NotFound => ScrapeErrorV::NotFound,
            ScrapeError::Parse(m) => ScrapeErrorV::Parse(m@),
        }
    }
}

impl ScrapeErrorV {
    /// The diagnostic text recorded against the link.
    pub open spec fn message(self) -> Seq<char> {
        match self {
            ScrapeErrorV::Network(m) => m,
            ScrapeErrorV::Http(m) => m,
            ScrapeErrorV::NotFound => "no results found for the article"@,
            ScrapeErrorV::Parse(m) => m,
        }
    }
}

impl ScrapeError {
    /// The diagnostic text recorded against the link.
    pub open spec fn spec_message(self) -> Seq<char> {
        match self {
            ScrapeError::Network(m) => m@,
            ScrapeError::Http(m) => m@,
            ScrapeError::NotFound => "no results found for the article"@,
            ScrapeError::Parse(m) => m@,
        }
    }

    /// The diagnostic text recorded against the link.
    pub fn message(&self) -> (r: String)
        ensures
            r@ == self.spec_message(),
    {
        match self {
            ScrapeError::Network(m) => m.clone(),
            ScrapeError::Http(m) => m.clone(),
            ScrapeError::NotFound => String::from_str("no results found for the article"),
            ScrapeError::Parse(m) => m.clone(),
        }
    }
}

} // verus!

//! Extraction for the tournament-archive source: a paginated format index
//! yields event links, and each deck page holds one decklist laid out as
//! a table.

use vstd::prelude::*;
use crate::dates::{parse_date, spec_parse_date};
use crate::deck::{
    board_wf, board_v, Date, Decklist, DecklistV, ScrapeError, ScrapeErrorV,
};
use crate::formats::Format;
use crate::html::{
    dom_of, find_all, find_first, finds, node_attr, node_is_named, node_text, parse_document,
    spec_attr, spec_find_first, spec_text, HtmlNode, Pick, PickV, Scope,
};
use crate::text::{
    parse_count, spec_parse_usize, spec_split, spec_starts_with, spec_strip_prefix, spec_trim,
    split_nth, starts_with_str, strip_prefix_str, trim_str, lemma_trim_idempotent,
};

verus! {

/// What one event row yields: the `href` of its first anchor, kept only
/// when it points at a deck page.
pub open spec fn spec_principal(nodes: Seq<HtmlNode>, p: usize, fmt: Format) -> Option<
    (Format, Seq<char>),
> {
    match spec_find_first(nodes, Scope::Under(p), PickV::ByName("a"@)) {
        None => None,
        Some(a) => match spec_attr(nodes[a as int], "href"@) {
            None => None,
            Some(href) => if spec_starts_with(href, "deck.php"@) {
                Some((fmt, href))
            } else {
                None
            },
        },
    }
}

/// The kept event links among the given rows, in order.
pub open spec fn spec_principals(nodes: Seq<HtmlNode>, ps: Seq<usize>, fmt: Format) -> Seq<
    (Format, Seq<char>),
>
    decreases ps.len(),
{
    if ps.len() == 0 {
        Seq::empty()
    } else {
        let head = match spec_principal(nodes, ps[0], fmt) {
            Some(e) => seq![e],
            None => Seq::empty(),
        };
        head + spec_principals(nodes, ps.skip(1), fmt)
    }
}

/// What link discovery reads from one index page: every event row's deck
/// link, or a parse failure where the page has no tournament list.
pub open spec fn spec_tourney_links(html: Seq<char>, fmt: Format) -> Result<
    Seq<(Format, Seq<char>)>,
    ScrapeErrorV,
> {
    let nodes = dom_of(html);
    match spec_find_first(nodes, Scope::Doc, PickV::ByClass("tourney_list"@)) {
        None => Err(ScrapeErrorV::Parse("no tournament list"@)),
        Some(tl) => Ok(
            spec_principals(
                nodes,
                finds(nodes, Scope::Under(tl), PickV::ByClass("principal"@)),
                fmt,
            ),
        ),
    }
}

/// Enumerate the deck links of one format-index page.
pub fn parse_tourney_links(html: &str, format: Format) -> (r: Result<
    Vec<(Format, String)>,
    ScrapeError,
>)
    ensures
        match r {
            Ok(ls) => spec_tourney_links(html@, format) == Ok::<
                Seq<(Format, Seq<char>)>,
                ScrapeErrorV,
            >(crate::mtgo::links_v(ls@)),
            Err(e) => spec_tourney_links(html@, format) == Err::<
                Seq<(Format, Seq<char>)>,
                ScrapeErrorV,
            >(e@),
        },
{
    let doc = parse_document(html);
    let tl = match find_first(&doc, Scope::Doc, &Pick::ByClass(String::from_str("tourney_list"))) {
        Some(t) => t,
        None => {
            return Err(ScrapeError::Parse(String::from_str("no tournament list")));
        },
    };
    let ps = find_all(&doc, Scope::Under(tl), &Pick::ByClass(String::from_str("principal")));
    let n = ps.len();
    let mut out: Vec<(Format, String)> = Vec::new();
    proof {
        assert(ps@.skip(0) =~= ps@);
        assert(crate::mtgo::links_v(out@) =~= Seq::<(Format, Seq<char>)>::empty());
    }
    let mut i: usize = 0;
    while i < n
        invariant
            0 <= i <= n,
            n == ps@.len(),
            spec_principals(doc@, ps@, format) == crate::mtgo::links_v(out@) + spec_principals(
                doc@, ps@.skip(i as int), format),
        decreases n - i,
    {
        proof {
            assert(ps@.skip(i as int)[0] == ps@[i as int]);
            assert(ps@.skip(i as int).skip(1) =~= ps@.skip(i as int + 1));
        }
        let ghost pre = crate::mtgo::links_v(out@);
        let e = match find_first(&doc, Scope::Under(ps[i]), &Pick::ByName(String::from_str("a"))) {
            None => None,
            Some(a) => match node_attr(&doc[a], "href") {
                None => None,
                Some(href) => {
                    if starts_with_str(href.as_str(), "deck.php") {
                        Some((format, href))
                    } else {
                        None
                    }
                },
            },
        };
        match e {
            Some(p) => {
                let ghost pv = (p.0, p.1@);
                out.push(p);
                proof {
                    assert(crate::mtgo::links_v(out@) =~= pre.push(pv));
                    assert(pre + spec_principals(doc@, ps@.skip(i as int), format) =~= pre.push(pv)
                        + spec_principals(doc@, ps@.skip(i as int + 1), format));
                }
            },
            None => {
                proof {
                    assert(Seq::<(Format, Seq<char>)>::empty() + spec_principals(
                        doc@, ps@.skip(i as int + 1), format) =~= spec_principals(
                        doc@, ps@.skip(i as int + 1), format));
                }
            },
        }
        i += 1;
    }
    proof {
        assert(ps@.skip(n as int) =~= Seq::<usize>::empty());
        assert(crate::mtgo::links_v(out@) + Seq::<(Format, Seq<char>)>::empty()
            =~= crate::mtgo::links_v(out@));
    }
    Ok(out)
}

/// The running-count fold over the children of one table cell: a heading
/// is skipped, an anchor emits the current count with its trimmed text
/// (skipped when empty), and any other child sets the count from its
/// text, falling back to one.
pub open spec fn spec_cards_fold(
    nodes: Seq<HtmlNode>,
    kids: Seq<usize>,
    amount: usize,
) -> Seq<(usize, Seq<char>)>
    decreases kids.len(),
{
    if kids.len() == 0 {
        Seq::empty()
    } else {
        let k = kids[0];
        if k >= nodes.len() {
            spec_cards_fold(nodes, kids.skip(1), amount)
        } else if node_is_named(nodes[k as int], "h6"@) {
            spec_cards_fold(nodes, kids.skip(1), amount)
        } else if node_is_named(nodes[k as int], "a"@) {
            let name = spec_trim(spec_text(nodes, k));
            let head: Seq<(usize, Seq<char>)> = if name.len() == 0 {
                Seq::empty()
            } else {
                seq![(amount, name)]
            };
            head + spec_cards_fold(nodes, kids.skip(1), amount)
        } else {
            let next = match spec_parse_usize(spec_trim(spec_text(nodes, k))) {
                Some(v) => if v >= 1 {
                    v
                } else {
                    1
                },
                None => 1,
            };
            spec_cards_fold(nodes, kids.skip(1), next)
        }
    }
}

/// What one table cell of a deck page yields.
pub open spec fn spec_parse_cards(nodes: Seq<HtmlNode>, td: usize) -> Seq<(usize, Seq<char>)> {
    spec_cards_fold(nodes, finds(nodes, Scope::Doc, PickV::ChildOf(td)), 1)
}

/// Collect the card entries of one table cell.
pub fn parse_cards(doc: &Vec<HtmlNode>, td: usize) -> (r: Vec<(usize, String)>)
    ensures
        board_v(r@) == spec_parse_cards(doc@, td),
        board_wf(board_v(r@)),
{
    let kids = find_all(doc, Scope::Doc, &Pick::ChildOf(td));
    let n = kids.len();
    let mut out: Vec<(usize, String)> = Vec::new();
    let mut amount: usize = 1;
    proof {
        assert(kids@.skip(0) =~= kids@);
        assert(board_v(out@) =~= Seq::<(usize, Seq<char>)>::empty());
    }
    let mut i: usize = 0;
    while i < n
        invariant
            0 <= i <= n,
            n == kids@.len(),
            amount >= 1,
            spec_cards_fold(doc@, kids@, 1) == board_v(out@) + spec_cards_fold(
                doc@, kids@.skip(i as int), amount),
            board_wf(board_v(out@)),
        decreases n - i,
    {
        proof {
            assert(kids@.skip(i as int)[0] == kids@[i as int]);
            assert(kids@.skip(i as int).skip(1) =~= kids@.skip(i as int + 1));
        }
        let k = kids[i];
        if k >= doc.len() {
            // out of range: nothing to read
        } else if is_named_exec(doc, k, "h6") {
            // section heading: skipped
        } else if is_named_exec(doc, k, "a") {
            let text = node_text(doc, k);
            let name = trim_str(text.as_str());
            if name.unicode_len() > 0 {
                proof {
                    lemma_trim_idempotent(spec_text(doc@, k));
                }
                let ghost pre = board_v(out@);
                let ghost ev = (amount, name@);
                out.push((amount, name.to_owned()));
                proof {
                    assert(board_v(out@) =~= pre.push(ev));
                    assert(pre + spec_cards_fold(doc@, kids@.skip(i as int), amount)
                        =~= pre.push(ev) + spec_cards_fold(doc@, kids@.skip(i as int + 1), amount));
                    assert(board_wf(board_v(out@)));
                }
            } else {
                proof {
                    assert(Seq::<(usize, Seq<char>)>::empty() + spec_cards_fold(
                        doc@, kids@.skip(i as int + 1), amount) =~= spec_cards_fold(
                        doc@, kids@.skip(i as int + 1), amount));
                }
            }
        } else {
            let text = node_text(doc, k);
            amount = match parse_count(trim_str(text.as_str())) {
                Some(v) => if v >= 1 {
                    v
                } else {
                    1
                },
                None => 1,
            };
        }
        i += 1;
    }
    proof {
        assert(kids@.skip(n as int) =~= Seq::<usize>::empty());
        assert(board_v(out@) + Seq::<(usize, Seq<char>)>::empty() =~= board_v(out@));
    }
    out
}

/// Executable tag-name test for one node.
fn is_named_exec(doc: &Vec<HtmlNode>, k: usize, name: &str) -> (r: bool)
    requires
        k < doc@.len(),
    ensures
        r == node_is_named(doc@[k as int], name@),
{
    matches!(doc[k].kind, crate::html::NodeKind::Element) && crate::text::str_eq(
        doc[k].name.as_str(), name)
}

/// The date held by the fourth child of the legend: its text trimmed,
/// the third " | "-separated piece, the "Date: " prefix removed (an
/// absent prefix leaves nothing to parse), read as a day/month/year date.
pub open spec fn spec_legend_date(nodes: Seq<HtmlNode>, k: usize) -> Option<Date> {
    let dt = spec_trim(spec_text(nodes, k));
    let parts = spec_split(dt, " | "@);
    if parts.len() < 3 {
        None
    } else {
        let stripped = match spec_strip_prefix(parts[2], "Date: "@) {
            Some(s) => s,
            None => Seq::empty(),
        };
        spec_parse_date(stripped, "%d/%m/%Y"@)
    }
}

/// What extraction reads from one deck page, in the order the page lays
/// it out: event and date from the legend, player and archetype from the
/// first header row ("player playing archetype"), the finishing position,
/// the deck name, and the three card cells (two mainboard, one
/// sideboard).
pub open spec fn spec_extract_deck(html: Seq<char>, fmt: Format) -> Result<
    DecklistV,
    ScrapeErrorV,
> {
    let nodes = dom_of(html);
    match spec_find_first(nodes, Scope::Doc, PickV::ByName("legend"@)) {
        None => Err(ScrapeErrorV::Parse("no legend"@)),
        Some(lg) => {
            let kids = finds(nodes, Scope::Doc, PickV::ChildOf(lg));
            let event = if kids.len() < 2 {
                None
            } else {
                Some(spec_text(nodes, kids[1]))
            };
            let date = if kids.len() < 4 {
                None
            } else {
                spec_legend_date(nodes, kids[3])
            };
            match spec_find_first(nodes, Scope::Doc, PickV::ByName("table"@)) {
                None => Err(ScrapeErrorV::Parse("no table"@)),
                Some(tbl) => {
                    let rows = finds(nodes, Scope::Under(tbl), PickV::ByName("tr"@));
                    if rows.len() < 1 {
                        Err(ScrapeErrorV::Parse("no table rows"@))
                    } else {
                        let ths = finds(nodes, Scope::Under(rows[0]), PickV::ByName("th"@));
                        if ths.len() < 1 {
                            Err(ScrapeErrorV::Parse("no name header"@))
                        } else {
                            let name_header = spec_text(nodes, ths[0]);
                            let split = spec_split(name_header, " playing "@);
                            if split.len() < 2 {
                                Err(ScrapeErrorV::Parse("no archetype"@))
                            } else {
                                let player = spec_trim(split[0]);
                                let archetype = spec_trim(split[1]);
                                if ths.len() < 2 {
                                    Err(ScrapeErrorV::Parse("no position header"@))
                                } else {
                                    match spec_strip_prefix(
                                        spec_trim(spec_text(nodes, ths[1])), "Position: "@) {
                                        None => Err(ScrapeErrorV::Parse("no position"@)),
                                        Some(position) => spec_extract_deck_rest(
                                            nodes, fmt, event, date, player, archetype, position,
                                            rows),
                                    }
                                }
                            }
                        }
                    }
                },
            }
        },
    }
}

/// The remainder of a deck page: deck name row and the card cells.
pub open spec fn spec_extract_deck_rest(
    nodes: Seq<HtmlNode>,
    fmt: Format,
    event: Option<Seq<char>>,
    date: Option<Date>,
    player: Seq<char>,
    archetype: Seq<char>,
    position: Seq<char>,
    rows: Seq<usize>,
) -> Result<DecklistV, ScrapeErrorV> {
    if rows.len() < 2 {
        Err(ScrapeErrorV::Parse("no table rows"@))
    } else {
        let nths = finds(nodes, Scope::Under(rows[1]), PickV::ByName("th"@));
        if nths.len() < 1 {
            Err(ScrapeErrorV::Parse("no deck name header"@))
        } else {
            match spec_strip_prefix(spec_trim(spec_text(nodes, nths[0])), "Deck Name: "@) {
                None => Err(ScrapeErrorV::Parse("no deck name"@)),
                Some(deck_name) => {
                    if rows.len() < 3 {
                        Err(ScrapeErrorV::Parse("no table rows"@))
                    } else {
                        let tds = finds(nodes, Scope::Under(rows[2]), PickV::ByName("td"@));
                        if tds.len() < 3 {
                            Err(ScrapeErrorV::Parse("no cards"@))
                        } else {
                            Ok(DecklistV {
                                format: fmt,
                                player: Some(player),
                                event,
                                date,
                                mainboard: spec_parse_cards(nodes, tds[0]) + spec_parse_cards(
                                    nodes, tds[1]),
                                sideboard: spec_parse_cards(nodes, tds[2]),
                                archetype: Some(archetype),
                                result: Some(position),
                                name: Some(deck_name),
                            })
                        }
                    }
                },
            }
        }
    }
}

/// Turn one fetched deck page into its decklist.
pub fn extract_deck(html: &str, format: Format) -> (r: Result<Decklist, ScrapeError>)
    ensures
        match r {
            Ok(d) => spec_extract_deck(html@, format) == Ok::<DecklistV, ScrapeErrorV>(d@)
                && d.wf(),
            Err(e) => spec_extract_deck(html@, format) == Err::<DecklistV, ScrapeErrorV>(e@),
        },
{
    let doc = parse_document(html);
    let lg = match find_first(&doc, Scope::Doc, &Pick::ByName(String::from_str("legend"))) {
        Some(l) => l,
        None => {
            return Err(ScrapeError::Parse(String::from_str("no legend")));
        },
    };
    let kids = find_all(&doc, Scope::Doc, &Pick::ChildOf(lg));
    let event = if kids.len() < 2 {
        None
    } else {
        Some(node_text(&doc, kids[1]))
    };
    let date = if kids.len() < 4 {
        None
    } else {
        let dtext = node_text(&doc, kids[3]);
        let dtrim = trim_str(dtext.as_str());
        match split_nth(dtrim, " | ", 2) {
            None => None,
            Some(piece) => {
                let stripped = match strip_prefix_str(piece.as_str(), "Date: ") {
                    Some(s) => s,
                    None => "",
                };
                proof {
                    reveal_strlit("");
                    assert(""@ =~= Seq::<char>::empty());
                }
                parse_date(stripped, "%d/%m/%Y")
            },
        }
    };
    let tbl = match find_first(&doc, Scope::Doc, &Pick::ByName(String::from_str("table"))) {
        Some(t) => t,
        None => {
            return Err(ScrapeError::Parse(String::from_str("no table")));
        },
    };
    let rows = find_all(&doc, Scope::Under(tbl), &Pick::ByName(String::from_str("tr")));
    if rows.len() < 1 {
        return Err(ScrapeError::Parse(String::from_str("no table rows")));
    }
    let ths = find_all(&doc, Scope::Under(rows[0]), &Pick::ByName(String::from_str("th")));
    if ths.len() < 1 {
        return Err(ScrapeError::Parse(String::from_str("no name header")));
    }
    let name_header = node_text(&doc, ths[0]);
    let player = match split_nth(name_header.as_str(), " playing ", 0) {
        Some(p) => p,
        None => {
            proof {
                crate::text::lemma_split_nonempty(name_header@, " playing "@);
            }
            return Err(ScrapeError::Parse(String::from_str("no name")));
        },
    };
    let archetype = match split_nth(name_header.as_str(), " playing ", 1) {
        Some(a) => a,
        None => {
            return Err(ScrapeError::Parse(String::from_str("no archetype")));
        },
    };
    if ths.len() < 2 {
        return Err(ScrapeError::Parse(String::from_str("no position header")));
    }
    let pos_text = node_text(&doc, ths[1]);
    let position = match strip_prefix_str(trim_str(pos_text.as_str()), "Position: ") {
        Some(p) => p,
        None => {
            return Err(ScrapeError::Parse(String::from_str("no position")));
        },
    };
    if rows.len() < 2 {
        return Err(ScrapeError::Parse(String::from_str("no table rows")));
    }
    let nths = find_all(&doc, Scope::Under(rows[1]), &Pick::ByName(String::from_str("th")));
    if nths.len() < 1 {
        return Err(ScrapeError::Parse(String::from_str("no deck name header")));
    }
    let nm_text = node_text(&doc, nths[0]);
    let deck_name = match strip_prefix_str(trim_str(nm_text.as_str()), "Deck Name: ") {
        Some(d) => d,
        None => {
            return Err(ScrapeError::Parse(String::from_str("no deck name")));
        },
    };
    if rows.len() < 3 {
        return Err(ScrapeError::Parse(String::from_str("no table rows")));
    }
    let tds = find_all(&doc, Scope::Under(rows[2]), &Pick::ByName(String::from_str("td")));
    if tds.len() < 3 {
        return Err(ScrapeError::Parse(String::from_str("no cards")));
    }
    let mut mainboard = parse_cards(&doc, tds[0]);
    let mut mainboard_2 = parse_cards(&doc, tds[1]);
    let ghost mb1 = board_v(mainboard@);
    let ghost mb2 = board_v(mainboard_2@);
    mainboard.append(&mut mainboard_2);
    proof {
        assert(board_v(mainboard@) =~= mb1 + mb2);
    }
    let sideboard = parse_cards(&doc, tds[2]);
    let d = Decklist {
        format,
        player: Some(trim_str(player.as_str()).to_owned()),
        event,
        date,
        mainboard,
        sideboard,
        archetype: Some(trim_str(archetype.as_str()).to_owned()),
        result: Some(position.to_owned()),
        name: Some(deck_name.to_owned()),
    };
    proof {
        assert(board_wf(board_v(d.mainboard@))) by {
            assert(forall|i: int|
                0 <= i < mb1.len() ==> #[trigger] board_v(d.mainboard@)[i] == mb1[i]);
            assert(forall|i: int|
                mb1.len() <= i < board_v(d.mainboard@).len() ==> #[trigger] board_v(
                    d.mainboard@)[i] == mb2[i - mb1.len()]);
        }
    }
    Ok(d)
}

} // verus!

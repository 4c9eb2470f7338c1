//! Extraction for the official decklist articles: a JSON envelope of HTML
//! fragments yields the candidate links, and each article page holds one
//! or more deck groups.

use vstd::prelude::*;
use crate::dates::{parse_date, spec_parse_date};
use crate::deck::{
    board_wf, entry_wf, Date, Decklist, DecklistLinks, DecklistV, ScrapeError, ScrapeErrorV,
};
use crate::formats::{spec_classify, Format};
use crate::html::{
    dom_of, find_all, find_first, finds, node_attr, node_text, parse_document, spec_attr,
    spec_find_first, spec_text, HtmlNode, Pick, PickV, Scope,
};
use crate::text::{
    contains_str, first_word, parse_count, spec_contains, spec_first_word, spec_parse_usize,
    spec_strip_prefix, spec_trim, strip_prefix_str, trim_str, lemma_trim_idempotent,
};

verus! {

/// What one card row yields: the text of its count cell parsed as a
/// positive integer, and the trimmed non-empty text of its name cell
/// (an anchor when present, else the cell's first child).  A row missing
/// either piece, or yielding a zero count or an empty name, is malformed
/// and yields nothing.
pub open spec fn spec_card_row(nodes: Seq<HtmlNode>, row: usize) -> Option<(usize, Seq<char>)> {
    match spec_find_first(nodes, Scope::Under(row), PickV::ByClass("card-count"@)) {
        None => None,
        Some(cnode) => match spec_parse_usize(spec_text(nodes, cnode)) {
            None => None,
            Some(count) => if count == 0 {
                None
            } else {
                match spec_find_first(nodes, Scope::Under(row), PickV::ByClass("card-name"@)) {
                    None => None,
                    Some(nm) => {
                        let chosen = match spec_find_first(
                            nodes, Scope::Under(nm), PickV::ByName("a"@)) {
                            Some(a) => Some(a),
                            None => spec_find_first(nodes, Scope::Doc, PickV::ChildOf(nm)),
                        };
                        match chosen {
                            None => None,
                            Some(t) => {
                                let name = spec_trim(spec_text(nodes, t));
                                if name.len() == 0 {
                                    None
                                } else {
                                    Some((count, name))
                                }
                            },
                        }
                    },
                }
            },
        },
    }
}

/// Parse one card row of an article page.
pub fn parse_card_row(doc: &Vec<HtmlNode>, row: usize) -> (r: Option<(usize, String)>)
    ensures
        match r {
            Some(e) => spec_card_row(doc@, row) == Some((e.0, e.1@)) && entry_wf((e.0, e.1@)),
            None => spec_card_row(doc@, row) is None,
        },
{
    let cnode = match find_first(doc, Scope::Under(row), &Pick::ByClass(
        String::from_str("card-count"))) {
        Some(c) => c,
        None => {
            return None;
        },
    };
    let count = match parse_count(node_text(doc, cnode).as_str()) {
        Some(c) => c,
        None => {
            return None;
        },
    };
    if count == 0 {
        return None;
    }
    let nm = match find_first(doc, Scope::Under(row), &Pick::ByClass(
        String::from_str("card-name"))) {
        Some(n) => n,
        None => {
            return None;
        },
    };
    let chosen = match find_first(doc, Scope::Under(nm), &Pick::ByName(String::from_str("a"))) {
        Some(a) => Some(a),
        None => find_first(doc, Scope::Doc, &Pick::ChildOf(nm)),
    };
    let t = match chosen {
        Some(t) => t,
        None => {
            return None;
        },
    };
    let text = node_text(doc, t);
    let name = trim_str(text.as_str());
    if name.unicode_len() == 0 {
        return None;
    }
    proof {
        lemma_trim_idempotent(spec_text(doc@, t));
    }
    Some((count, name.to_owned()))
}

/// All well-formed card rows among `rows`, in order; malformed rows are
/// skipped (partial-page tolerance).
pub open spec fn spec_rows(nodes: Seq<HtmlNode>, rows: Seq<usize>) -> Seq<(usize, Seq<char>)>
    decreases rows.len(),
{
    if rows.len() == 0 {
        Seq::empty()
    } else {
        let head = match spec_card_row(nodes, rows[0]) {
            Some(e) => seq![e],
            None => Seq::empty(),
        };
        head + spec_rows(nodes, rows.skip(1))
    }
}

/// How many of the given rows are well formed.
pub open spec fn well_formed_rows(nodes: Seq<HtmlNode>, rows: Seq<usize>) -> int
    decreases rows.len(),
{
    if rows.len() == 0 {
        0
    } else {
        (if spec_card_row(nodes, rows[0]) is Some {
            1int
        } else {
            0int
        }) + well_formed_rows(nodes, rows.skip(1))
    }
}

/// Law (partial-page tolerance): extracting a list of card rows never
/// fails and yields exactly one entry per well-formed row, whatever the
/// malformed rows among them look like.
pub proof fn lemma_partial_page_tolerance(nodes: Seq<HtmlNode>, rows: Seq<usize>)
    ensures
        spec_rows(nodes, rows).len() == well_formed_rows(nodes, rows),
    decreases rows.len(),
{
    if rows.len() > 0 {
        lemma_partial_page_tolerance(nodes, rows.skip(1));
    }
}

/// Parse every card row in a list of row nodes, skipping malformed ones.
pub fn parse_rows(doc: &Vec<HtmlNode>, rows: &Vec<usize>) -> (r: Vec<(usize, String)>)
    ensures
        crate::deck::board_v(r@) == spec_rows(doc@, rows@),
        board_wf(crate::deck::board_v(r@)),
{
    let n = rows.len();
    let mut out: Vec<(usize, String)> = Vec::new();
    proof {
        assert(rows@.skip(0) =~= rows@);
        assert(crate::deck::board_v(out@) =~= Seq::<(usize, Seq<char>)>::empty());
    }
    let mut i: usize = 0;
    while i < n
        invariant
            0 <= i <= n,
            n == rows@.len(),
            spec_rows(doc@, rows@) == crate::deck::board_v(out@) + spec_rows(
                doc@, rows@.skip(i as int)),
            board_wf(crate::deck::board_v(out@)),
        decreases n - i,
    {
        let ghost pre = crate::deck::board_v(out@);
        match parse_card_row(doc, rows[i]) {
            Some(e) => {
                proof {
                    assert(rows@.skip(i as int)[0] == rows@[i as int]);
                    assert(rows@.skip(i as int).skip(1) =~= rows@.skip(i as int + 1));
                }
                let ghost ev = (e.0, e.1@);
                out.push(e);
                proof {
                    assert(crate::deck::board_v(out@) =~= pre.push(ev));
                    assert(pre + spec_rows(doc@, rows@.skip(i as int)) =~= pre.push(ev)
                        + spec_rows(doc@, rows@.skip(i as int + 1)));
                    assert(board_wf(crate::deck::board_v(out@)));
                }
            },
            None => {
                proof {
                    assert(rows@.skip(i as int)[0] == rows@[i as int]);
                    assert(rows@.skip(i as int).skip(1) =~= rows@.skip(i as int + 1));
                    assert(Seq::<(usize, Seq<char>)>::empty() + spec_rows(
                        doc@, rows@.skip(i as int + 1)) =~= spec_rows(
                        doc@, rows@.skip(i as int + 1)));
                }
            },
        }
        i += 1;
    }
    proof {
        assert(rows@.skip(n as int) =~= Seq::<usize>::empty());
        assert(crate::deck::board_v(out@) + Seq::<(usize, Seq<char>)>::empty()
            =~= crate::deck::board_v(out@));
    }
    out
}

/// The date an article page carries: the third child of its posting line,
/// its text trimmed, the "on " prefix removed, and the rest read as a
/// "month day, year" date.
pub open spec fn spec_node_date(nodes: Seq<HtmlNode>, n: usize) -> Option<Date> {
    match spec_strip_prefix(spec_trim(spec_text(nodes, n)), "on "@) {
        None => None,
        Some(ds) => spec_parse_date(ds, "%B %d, %Y"@),
    }
}

/// One deck group of an article page as a decklist: mainboard rows from
/// the overview section (required), sideboard rows from the sideboard
/// section (optional), player and event from the metadata headings.
pub open spec fn spec_deck_group(
    nodes: Seq<HtmlNode>,
    c: usize,
    fmt: Format,
    date: Option<Date>,
) -> Result<DecklistV, ScrapeErrorV> {
    match spec_find_first(nodes, Scope::Under(c), PickV::ByClass("sorted-by-overview-container"@)) {
        None => Err(ScrapeErrorV::Parse("no mainboard container"@)),
        Some(mb) => match spec_find_first(nodes, Scope::Under(c), PickV::ByClass("deck-meta"@)) {
            None => Err(ScrapeErrorV::Parse("no deck metadata"@)),
            Some(meta) => {
                let mainboard = spec_rows(
                    nodes, finds(nodes, Scope::Under(mb), PickV::ByClass("row"@)));
                let sideboard = match spec_find_first(
                    nodes, Scope::Under(c), PickV::ByClass("sorted-by-sideboard-container"@)) {
                    None => Seq::empty(),
                    Some(sb) => spec_rows(
                        nodes, finds(nodes, Scope::Under(sb), PickV::ByClass("row"@))),
                };
                let player = match spec_find_first(
                    nodes, Scope::Under(meta), PickV::ByName("h4"@)) {
                    None => None,
                    Some(h) => Some(spec_trim(spec_text(nodes, h))),
                };
                let event = match spec_find_first(
                    nodes, Scope::Under(meta), PickV::ByName("h5"@)) {
                    None => None,
                    Some(h) => Some(spec_trim(spec_text(nodes, h))),
                };
                Ok(DecklistV {
                    format: fmt,
                    player,
                    event,
                    date,
                    mainboard,
                    sideboard,
                    archetype: None,
                    result: Some("5-0"@),
                    name: None,
                })
            },
        },
    }
}

/// Extract one deck group.
fn parse_deck_group(doc: &Vec<HtmlNode>, c: usize, fmt: Format, date: Option<Date>) -> (r: Result<
    Decklist,
    ScrapeError,
>)
    requires
        date is Some ==> date->0.wf(),
    ensures
        match r {
            Ok(d) => spec_deck_group(doc@, c, fmt, date) == Ok::<DecklistV, ScrapeErrorV>(d@)
                && d.wf(),
            Err(e) => spec_deck_group(doc@, c, fmt, date) == Err::<DecklistV, ScrapeErrorV>(e@),
        },
{
    let mb = match find_first(doc, Scope::Under(c), &Pick::ByClass(
        String::from_str("sorted-by-overview-container"))) {
        Some(m) => m,
        None => {
            return Err(ScrapeError::Parse(String::from_str("no mainboard container")));
        },
    };
    let meta = match find_first(doc, Scope::Under(c), &Pick::ByClass(
        String::from_str("deck-meta"))) {
        Some(m) => m,
        None => {
            return Err(ScrapeError::Parse(String::from_str("no deck metadata")));
        },
    };
    let mb_rows = find_all(doc, Scope::Under(mb), &Pick::ByClass(String::from_str("row")));
    let mainboard = parse_rows(doc, &mb_rows);
    let sideboard = match find_first(doc, Scope::Under(c), &Pick::ByClass(
        String::from_str("sorted-by-sideboard-container"))) {
        None => Vec::new(),
        Some(sb) => {
            let sb_rows = find_all(doc, Scope::Under(sb), &Pick::ByClass(String::from_str("row")));
            parse_rows(doc, &sb_rows)
        },
    };
    let player = match find_first(doc, Scope::Under(meta), &Pick::ByName(String::from_str("h4"))) {
        None => None,
        Some(h) => Some(trim_str(node_text(doc, h).as_str()).to_owned()),
    };
    let event = match find_first(doc, Scope::Under(meta), &Pick::ByName(String::from_str("h5"))) {
        None => None,
        Some(h) => Some(trim_str(node_text(doc, h).as_str()).to_owned()),
    };
    let d = Decklist {
        format: fmt,
        player,
        event,
        date,
        mainboard,
        sideboard,
        archetype: None,
        result: Some(String::from_str("5-0")),
        name: None,
    };
    proof {
        assert(crate::deck::board_v(Seq::<(usize, String)>::empty())
            =~= Seq::<(usize, Seq<char>)>::empty());
    }
    Ok(d)
}

/// Every deck group of a page, or the first structural failure.
pub open spec fn spec_groups(
    nodes: Seq<HtmlNode>,
    cs: Seq<usize>,
    fmt: Format,
    date: Option<Date>,
) -> Result<Seq<DecklistV>, ScrapeErrorV>
    decreases cs.len(),
{
    if cs.len() == 0 {
        Ok(Seq::empty())
    } else {
        match spec_deck_group(nodes, cs[0], fmt, date) {
            Err(e) => Err(e),
            Ok(d) => match spec_groups(nodes, cs.skip(1), fmt, date) {
                Err(e) => Err(e),
                Ok(ds) => Ok(seq![d] + ds),
            },
        }
    }
}

/// The views of a vector of decklists.
pub open spec fn decklists_v(ds: Seq<Decklist>) -> Seq<DecklistV> {
    Seq::new(ds.len(), |i: int| ds[i]@)
}

/// What extraction returns for a whole article page: the page's deck
/// groups in order, a distinct signal where the page reports no results,
/// and a parse failure where an expected element is absent.
pub open spec fn spec_scrape(html: Seq<char>, fmt: Format) -> Result<Seq<DecklistV>, ScrapeErrorV> {
    if spec_contains(html, "no result found"@) {
        Err(ScrapeErrorV::NotFound)
    } else {
        let nodes = dom_of(html);
        match spec_find_first(nodes, Scope::Doc, PickV::ByClass("posted-in"@)) {
            None => Err(ScrapeErrorV::Parse("no posting date section"@)),
            Some(p) => {
                let kids = finds(nodes, Scope::Doc, PickV::ChildOf(p));
                let date = if kids.len() < 3 {
                    None
                } else {
                    spec_node_date(nodes, kids[2])
                };
                spec_groups(nodes, finds(nodes, Scope::Doc, PickV::ByClass("deck-group"@)), fmt,
                    date)
            },
        }
    }
}

/// Turn one fetched article page into its decklists.
pub fn scrape_decklists(html: &str, format: Format) -> (r: Result<Vec<Decklist>, ScrapeError>)
    ensures
        match r {
            Ok(ds) => spec_scrape(html@, format) == Ok::<Seq<DecklistV>, ScrapeErrorV>(
                decklists_v(ds@)) && forall|i: int| 0 <= i < ds@.len() ==> (#[trigger] ds@[i]).wf(),
            Err(e) => spec_scrape(html@, format) == Err::<Seq<DecklistV>, ScrapeErrorV>(e@),
        },
{
    if contains_str(html, "no result found") {
        return Err(ScrapeError::NotFound);
    }
    let doc = parse_document(html);
    let p = match find_first(&doc, Scope::Doc, &Pick::ByClass(String::from_str("posted-in"))) {
        Some(p) => p,
        None => {
            return Err(ScrapeError::Parse(String::from_str("no posting date section")));
        },
    };
    let kids = find_all(&doc, Scope::Doc, &Pick::ChildOf(p));
    let date = if kids.len() < 3 {
        None
    } else {
        let dtext = node_text(&doc, kids[2]);
        let dtrim = trim_str(dtext.as_str());
        match strip_prefix_str(dtrim, "on ") {
            None => None,
            Some(ds) => parse_date(ds, "%B %d, %Y"),
        }
    };
    let groups = find_all(&doc, Scope::Doc, &Pick::ByClass(String::from_str("deck-group")));
    let n = groups.len();
    let mut out: Vec<Decklist> = Vec::new();
    proof {
        assert(groups@.skip(0) =~= groups@);
        assert(decklists_v(out@) =~= Seq::<DecklistV>::empty());
    }
    let mut i: usize = 0;
    while i < n
        invariant
            0 <= i <= n,
            n == groups@.len(),
            date is Some ==> date->0.wf(),
            spec_scrape(html@, format) == spec_groups(doc@, groups@, format, date),
            spec_groups(doc@, groups@, format, date) matches Ok(all) ==> all =~= decklists_v(out@)
                + (match spec_groups(doc@, groups@.skip(i as int), format, date) {
                Ok(rest) => rest,
                Err(_) => Seq::empty(),
            }),
            spec_groups(doc@, groups@, format, date) is Ok ==> spec_groups(
                doc@, groups@.skip(i as int), format, date) is Ok,
            spec_groups(doc@, groups@, format, date) is Err ==> spec_groups(
                doc@, groups@.skip(i as int), format, date) == spec_groups(
                doc@, groups@, format, date),
            forall|k: int| 0 <= k < out@.len() ==> (#[trigger] out@[k]).wf(),
        decreases n - i,
    {
        proof {
            assert(groups@.skip(i as int)[0] == groups@[i as int]);
            assert(groups@.skip(i as int).skip(1) =~= groups@.skip(i as int + 1));
        }
        match parse_deck_group(&doc, groups[i], format, date) {
            Ok(d) => {
                let ghost dv = d@;
                let ghost pre = decklists_v(out@);
                out.push(d);
                proof {
                    assert(decklists_v(out@) =~= pre.push(dv));
                    if spec_groups(doc@, groups@, format, date) is Ok {
                        assert(pre.push(dv) + (match spec_groups(
                            doc@, groups@.skip(i as int + 1), format, date) {
                            Ok(rest) => rest,
                            Err(_) => Seq::empty(),
                        }) =~= pre + (seq![dv] + (match spec_groups(
                            doc@, groups@.skip(i as int + 1), format, date) {
                            Ok(rest) => rest,
                            Err(_) => Seq::empty(),
                        })));
                    }
                }
            },
            Err(e) => {
                proof {
                    assert(spec_groups(doc@, groups@.skip(i as int), format, date)
                        == Err::<Seq<DecklistV>, ScrapeErrorV>(e@));
                }
                return Err(e);
            },
        }
        i += 1;
    }
    proof {
        assert(groups@.skip(n as int) =~= Seq::<usize>::empty());
        assert(spec_groups(doc@, groups@.skip(n as int), format, date)
            == Ok::<Seq<DecklistV>, ScrapeErrorV>(Seq::empty()));
        if spec_groups(doc@, groups@, format, date) is Ok {
            assert((spec_groups(doc@, groups@, format, date))->Ok_0 =~= decklists_v(out@));
        }
    }
    Ok(out)
}

/// The concatenated `href` targets of the given anchor nodes, in order
/// (the article link is spread over its anchors).
pub open spec fn spec_hrefs(nodes: Seq<HtmlNode>, anchors: Seq<usize>) -> Seq<char>
    decreases anchors.len(),
{
    if anchors.len() == 0 {
        Seq::empty()
    } else {
        let head = if anchors[0] < nodes.len() {
            match spec_attr(nodes[anchors[0] as int], "href"@) {
                Some(v) => v,
                None => Seq::empty(),
            }
        } else {
            Seq::empty()
        };
        head + spec_hrefs(nodes, anchors.skip(1))
    }
}

/// What discovery reads from one HTML fragment of the envelope: the link
/// assembled from the article container's anchors, and the format
/// classified from the first word of the title heading.
pub open spec fn spec_fragment(nodes: Seq<HtmlNode>) -> Result<(Format, Seq<char>), ScrapeErrorV> {
    match spec_find_first(nodes, Scope::Doc, PickV::ByClass("article-item-extended"@)) {
        None => Err(ScrapeErrorV::Parse("no article container"@)),
        Some(ac) => {
            let link = spec_hrefs(nodes, finds(nodes, Scope::Under(ac), PickV::ByName("a"@)));
            match spec_find_first(nodes, Scope::Doc, PickV::ByClass("title"@)) {
                None => Err(ScrapeErrorV::Parse("no title"@)),
                Some(t) => match spec_find_first(nodes, Scope::Under(t), PickV::ByName("h3"@)) {
                    None => Err(ScrapeErrorV::Parse("no title heading"@)),
                    Some(h) => Ok(
                        (spec_classify(spec_first_word(spec_text(nodes, h))), link)),
                },
            }
        },
    }
}

/// Discovery over a whole envelope, fragment by fragment.
pub open spec fn spec_discover(fragments: Seq<Seq<char>>) -> Result<
    Seq<(Format, Seq<char>)>,
    ScrapeErrorV,
>
    decreases fragments.len(),
{
    if fragments.len() == 0 {
        Ok(Seq::empty())
    } else {
        match spec_fragment(dom_of(fragments[0])) {
            Err(e) => Err(e),
            Ok(p) => match spec_discover(fragments.skip(1)) {
                Err(e) => Err(e),
                Ok(ps) => Ok(seq![p] + ps),
            },
        }
    }
}

/// The views of the candidate links.
pub open spec fn links_v(ls: Seq<(Format, String)>) -> Seq<(Format, Seq<char>)> {
    Seq::new(ls.len(), |i: int| (ls[i].0, ls[i].1@))
}

/// The views of the envelope fragments.
pub open spec fn fragments_v(fs: Seq<String>) -> Seq<Seq<char>> {
    Seq::new(fs.len(), |i: int| fs[i]@)
}

/// Enumerate the candidate article links of one discovery envelope, each
/// with the format classified from its title.
pub fn find_latest_decklists(links: &DecklistLinks) -> (r: Result<
    Vec<(Format, String)>,
    ScrapeError,
>)
    ensures
        match r {
            Ok(ls) => spec_discover(fragments_v(links.data@)) == Ok::<
                Seq<(Format, Seq<char>)>,
                ScrapeErrorV,
            >(links_v(ls@)),
            Err(e) => spec_discover(fragments_v(links.data@)) == Err::<
                Seq<(Format, Seq<char>)>,
                ScrapeErrorV,
            >(e@),
        },
{
    let n = links.data.len();
    let mut out: Vec<(Format, String)> = Vec::new();
    proof {
        assert(fragments_v(links.data@).skip(0) =~= fragments_v(links.data@));
        assert(links_v(out@) =~= Seq::<(Format, Seq<char>)>::empty());
    }
    let ghost frs = fragments_v(links.data@);
    let mut i: usize = 0;
    while i < n
        invariant
            0 <= i <= n,
            n == links.data@.len(),
            frs == fragments_v(links.data@),
            spec_discover(frs) matches Ok(all) ==> all =~= links_v(out@) + (match spec_discover(
                frs.skip(i as int)) {
                Ok(rest) => rest,
                Err(_) => Seq::empty(),
            }),
            spec_discover(frs) is Ok ==> spec_discover(frs.skip(i as int)) is Ok,
            spec_discover(frs) is Err ==> spec_discover(frs.skip(i as int)) == spec_discover(frs),
        decreases n - i,
    {
        proof {
            assert(frs.skip(i as int)[0] == frs[i as int]);
            assert(frs.skip(i as int).skip(1) =~= frs.skip(i as int + 1));
            assert(frs[i as int] == links.data@[i as int]@);
        }
        let doc = parse_document(links.data[i].as_str());
        let ac = match find_first(&doc, Scope::Doc, &Pick::ByClass(
            String::from_str("article-item-extended"))) {
            Some(a) => a,
            None => {
                return Err(ScrapeError::Parse(String::from_str("no article container")));
            },
        };
        let anchors = find_all(&doc, Scope::Under(ac), &Pick::ByName(String::from_str("a")));
        let link = collect_hrefs(&doc, &anchors);
        let t = match find_first(&doc, Scope::Doc, &Pick::ByClass(String::from_str("title"))) {
            Some(t) => t,
            None => {
                return Err(ScrapeError::Parse(String::from_str("no title")));
            },
        };
        let h = match find_first(&doc, Scope::Under(t), &Pick::ByName(String::from_str("h3"))) {
            Some(h) => h,
            None => {
                return Err(ScrapeError::Parse(String::from_str("no title heading")));
            },
        };
        let title = node_text(&doc, h);
        let fmt = Format::classify(first_word(title.as_str()));
        let ghost pv = (fmt, link@);
        let ghost pre = links_v(out@);
        out.push((fmt, link));
        proof {
            assert(links_v(out@) =~= pre.push(pv));
            if spec_discover(frs) is Ok {
                assert(pre.push(pv) + (match spec_discover(frs.skip(i as int + 1)) {
                    Ok(rest) => rest,
                    Err(_) => Seq::empty(),
                }) =~= pre + (seq![pv] + (match spec_discover(frs.skip(i as int + 1)) {
                    Ok(rest) => rest,
                    Err(_) => Seq::empty(),
                })));
            }
        }
        i += 1;
    }
    proof {
        assert(frs.skip(n as int) =~= Seq::<Seq<char>>::empty());
        if spec_discover(frs) is Ok {
            assert((spec_discover(frs))->Ok_0 =~= links_v(out@));
        }
    }
    Ok(out)
}

/// Concatenate the `href` attributes of the given anchors.
fn collect_hrefs(doc: &Vec<HtmlNode>, anchors: &Vec<usize>) -> (r: String)
    ensures
        r@ == spec_hrefs(doc@, anchors@),
{
    let n = anchors.len();
    let mut r = String::new();
    proof {
        assert(anchors@.skip(0) =~= anchors@);
    }
    let mut i: usize = 0;
    while i < n
        invariant
            0 <= i <= n,
            n == anchors@.len(),
            spec_hrefs(doc@, anchors@) == r@ + spec_hrefs(doc@, anchors@.skip(i as int)),
        decreases n - i,
    {
        proof {
            assert(anchors@.skip(i as int)[0] == anchors@[i as int]);
            assert(anchors@.skip(i as int).skip(1) =~= anchors@.skip(i as int + 1));
        }
        let a = anchors[i];
        if a < doc.len() {
            match node_attr(&doc[a], "href") {
                Some(v) => {
                    proof {
                        assert(r@ + (v@ + spec_hrefs(doc@, anchors@.skip(i as int + 1))) =~= (r@
                            + v@) + spec_hrefs(doc@, anchors@.skip(i as int + 1)));
                    }
                    r.append(v.as_str());
                },
                None => {
                    proof {
                        assert(Seq::<char>::empty() + spec_hrefs(doc@, anchors@.skip(i as int + 1))
                            =~= spec_hrefs(doc@, anchors@.skip(i as int + 1)));
                    }
                },
            }
        } else {
            proof {
                assert(Seq::<char>::empty() + spec_hrefs(doc@, anchors@.skip(i as int + 1))
                    =~= spec_hrefs(doc@, anchors@.skip(i as int + 1)));
            }
        }
        i += 1;
    }
    proof {
        assert(spec_hrefs(doc@, anchors@.skip(n as int)) == Seq::<char>::empty());
        assert(r@ + Seq::<char>::empty() =~= r@);
    }
    r
}

} // verus!

use deck_list_scraper::html::{
    find_all, find_first, has_class, node_attr, node_text, under, HtmlNode, NodeKind, Pick, Scope,
};

fn elem(name: &str, attrs: Vec<(&str, &str)>, parent: Option<usize>) -> HtmlNode {
    HtmlNode {
        kind: NodeKind::Element,
        name: String::from(name),
        attrs: attrs
            .into_iter()
            .map(|(k, v)| (String::from(k), String::from(v)))
            .collect(),
        text: String::new(),
        parent,
    }
}

fn text(content: &str, parent: Option<usize>) -> HtmlNode {
    HtmlNode {
        kind: NodeKind::Text,
        name: String::new(),
        attrs: Vec::new(),
        text: String::from(content),
        parent,
    }
}

/// <div class="outer"><p>Hello <a href="x">world</a></p></div><p>tail</p>
fn arena() -> Vec<HtmlNode> {
    vec![
        elem("div", vec![("class", "outer wide")], None),
        elem("p", vec![], Some(0)),
        text("Hello ", Some(1)),
        elem("a", vec![("href", "x")], Some(1)),
        text("world", Some(3)),
        elem("p", vec![], None),
        text("tail", Some(5)),
    ]
}

#[test]
fn subtree_membership_follows_parents() {
    let doc = arena();
    assert!(under(&doc, 0, 4));
    assert!(under(&doc, 1, 4));
    assert!(under(&doc, 0, 0));
    assert!(!under(&doc, 0, 5));
    assert!(!under(&doc, 3, 2));
}

#[test]
fn searches_run_in_document_order() {
    let doc = arena();
    let ps = find_all(&doc, Scope::Doc, &Pick::ByName(String::from("p")));
    assert_eq!(ps, vec![1, 5]);
    let under_div = find_all(&doc, Scope::Under(0), &Pick::ByName(String::from("p")));
    assert_eq!(under_div, vec![1]);
    assert_eq!(find_first(&doc, Scope::Doc, &Pick::ByName(String::from("a"))), Some(3));
    assert_eq!(find_first(&doc, Scope::Doc, &Pick::ByName(String::from("table"))), None);
    let kids = find_all(&doc, Scope::Doc, &Pick::ChildOf(1));
    assert_eq!(kids, vec![2, 3]);
}

#[test]
fn class_matching_uses_whole_tokens() {
    let doc = arena();
    assert!(has_class(&doc[0], "outer"));
    assert!(has_class(&doc[0], "wide"));
    assert!(!has_class(&doc[0], "out"));
    assert!(!has_class(&doc[1], "outer"));
    assert_eq!(
        find_all(&doc, Scope::Doc, &Pick::ByClass(String::from("outer"))),
        vec![0]
    );
}

#[test]
fn text_concatenates_the_subtree() {
    let doc = arena();
    assert_eq!(node_text(&doc, 0), "Hello world");
    assert_eq!(node_text(&doc, 3), "world");
    assert_eq!(node_text(&doc, 5), "tail");
}

#[test]
fn attributes_are_looked_up_by_name() {
    let doc = arena();
    assert_eq!(node_attr(&doc[3], "href"), Some(String::from("x")));
    assert_eq!(node_attr(&doc[3], "class"), None);
    assert_eq!(node_attr(&doc[2], "href"), None);
}

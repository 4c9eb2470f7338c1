//! A parsed HTML document as a flat arena of plain nodes, with verified
//! navigation: subtree membership, class/name/child searches in document
//! order, attribute lookup, and subtree text.
//!
//! The one trusted step is `parse_document`, which lets the select crate
//! parse the markup and copies its node arena one for one.

use vstd::prelude::*;
use crate::text::{has_token, has_token_exec, str_eq};

verus! {

/// The kind of one DOM node.
#[derive(Eq, PartialEq, Structural, Copy, Clone, Debug)]
pub enum NodeKind {
    Element,
    Text,
    Comment,
}

/// One node of a parsed document.  Elements carry a lowercase tag name and
/// attribute pairs; text nodes carry their content; every node but a root
/// points at its parent.
#[derive(Debug, Clone)]
pub struct HtmlNode {
    pub kind: NodeKind,
    pub name: String,
    pub attrs: Vec<(String, String)>,
    pub text: String,
    pub parent: Option<usize>,
}

impl HtmlNode {
    /// A text node.
    pub fn text_node(text: String, parent: Option<usize>) -> (r: HtmlNode)
        ensures
            r == (HtmlNode {
                kind: NodeKind::Text,
                name: r.name,
                attrs: r.attrs,
                text,
                parent,
            }),
            r.name@.len() == 0,
            r.attrs@.len() == 0,
    {
        HtmlNode { kind: NodeKind::Text, name: String::new(), attrs: Vec::new(), text, parent }
    }

    /// A comment node.
    pub fn comment_node(parent: Option<usize>) -> (r: HtmlNode)
        ensures
            r.kind == NodeKind::Comment,
            r.parent == parent,
            r.name@.len() == 0,
            r.attrs@.len() == 0,
            r.text@.len() == 0,
    {
        HtmlNode {
            kind: NodeKind::Comment,
            name: String::new(),
            attrs: Vec::new(),
            text: String::new(),
            parent,
        }
    }

    /// An element node.
    pub fn element_node(name: String, attrs: Vec<(String, String)>, parent: Option<usize>) -> (r:
        HtmlNode)
        ensures
            r == (HtmlNode { kind: NodeKind::Element, name, attrs, text: r.text, parent }),
            r.text@.len() == 0,
    {
        HtmlNode { kind: NodeKind::Element, name, attrs, text: String::new(), parent }
    }
}

/// Nodes stand in document (pre-order) order, so a parent's index precedes
/// its children's.
pub open spec fn arena_wf(nodes: Seq<HtmlNode>) -> bool {
    forall|j: int|
        0 <= j < nodes.len() ==> match (#[trigger] nodes[j]).parent {
            Some(p) => p < j,
            None => true,
        }
}

/// The node arena that the select crate's HTML parser produces for the
/// markup `s`: one entry per parsed node, in document order.  The parse
/// depends on the markup alone.
pub uninterp spec fn dom_of(s: Seq<char>) -> Seq<HtmlNode>;

/// Relies on select's `Document::from(&str)` (backed by html5ever): it
/// builds its node arena by a pre-order walk of the parsed tree, appending
/// every parent before its children, with tag names lowercased.  The body
/// copies that arena entry by entry.
#[verifier::external_body]
pub(crate) fn parse_document(html: &str) -> (r: Vec<HtmlNode>)
    ensures
        r@ == dom_of(html@),
        arena_wf(r@),
{
    select::document::Document::from(html).nodes.into_iter().map(|raw| match raw.data {
        select::node::Data::Text(t) => HtmlNode::text_node(t.to_string(), raw.parent),
        select::node::Data::Comment(_) => HtmlNode::comment_node(raw.parent),
        select::node::Data::Element(n, a) => HtmlNode::element_node(n.local.to_string(),
            a.into_iter().map(|(k, v)| (k.local.to_string(), v.to_string())).collect(),
            raw.parent),
    }).collect()
}

/// Node `j` lies in the subtree rooted at `i` (including `j == i`),
/// following parent links.
pub open spec fn is_under(nodes: Seq<HtmlNode>, i: usize, j: usize) -> bool
    decreases j,
{
    if j == i {
        true
    } else if j < nodes.len() {
        match nodes[j as int].parent {
            Some(p) => p < j && is_under(nodes, i, p),
            None => false,
        }
    } else {
        false
    }
}

/// Executable subtree-membership test.
pub fn under(doc: &Vec<HtmlNode>, i: usize, j: usize) -> (r: bool)
    requires
        j < doc@.len(),
    ensures
        r == is_under(doc@, i, j),
    decreases j,
{
    let mut cur = j;
    loop
        invariant
            cur < doc@.len() || cur == i,
            is_under(doc@, i, j) == is_under(doc@, i, cur),
        decreases cur,
    {
        if cur == i {
            return true;
        }
        match doc[cur].parent {
            Some(p) => {
                if p < cur {
                    cur = p;
                } else {
                    return false;
                }
            },
            None => {
                return false;
            },
        }
    }
}

/// The first attribute value stored under `name`, scanning from pair `n`.
pub open spec fn attr_from(attrs: Seq<(String, String)>, name: Seq<char>, n: int) -> Option<
    Seq<char>,
>
    decreases attrs.len() - n,
{
    if n < 0 || n >= attrs.len() {
        None
    } else if attrs[n].0@ == name {
        Some(attrs[n].1@)
    } else {
        attr_from(attrs, name, n + 1)
    }
}

/// The value of attribute `name` on a node, if any (first match wins).
pub open spec fn spec_attr(node: HtmlNode, name: Seq<char>) -> Option<Seq<char>> {
    attr_from(node.attrs@, name, 0)
}

/// Attribute lookup on a node.
pub fn node_attr(node: &HtmlNode, name: &str) -> (r: Option<String>)
    ensures
        match r {
            Some(v) => spec_attr(*node, name@) == Some(v@),
            None => spec_attr(*node, name@) is None,
        },
{
    let n = node.attrs.len();
    let mut k: usize = 0;
    while k < n
        invariant
            0 <= k <= n,
            n == node.attrs@.len(),
            attr_from(node.attrs@, name@, 0) == attr_from(node.attrs@, name@, k as int),
        decreases n - k,
    {
        if str_eq(node.attrs[k].0.as_str(), name) {
            return Some(node.attrs[k].1.clone());
        }
        k += 1;
    }
    None
}

/// The class-attribute matching rule: an element whose `class` attribute,
/// split on whitespace, contains the token `cls`.
pub open spec fn node_has_class(node: HtmlNode, cls: Seq<char>) -> bool {
    &&& node.kind == NodeKind::Element
    &&& match spec_attr(node, "class"@) {
        Some(v) => has_token(v, cls),
        None => false,
    }
}

/// Executable class test.
pub fn has_class(node: &HtmlNode, cls: &str) -> (r: bool)
    ensures
        r == node_has_class(*node, cls@),
{
    if !matches!(node.kind, NodeKind::Element) {
        return false;
    }
    match node_attr(node, "class") {
        Some(v) => has_token_exec(v.as_str(), cls),
        None => false,
    }
}

/// An element node with the given (lowercase) tag name.
pub open spec fn node_is_named(node: HtmlNode, name: Seq<char>) -> bool {
    node.kind == NodeKind::Element && node.name@ == name
}

/// What a search selects: elements by class token, elements by tag name,
/// or direct children of a node.
#[derive(Debug, Clone)]
pub enum Pick {
    ByClass(String),
    ByName(String),
    ChildOf(usize),
}

/// The mathematical content of a search query.
pub ghost enum PickV {
    ByClass(Seq<char>),
    ByName(Seq<char>),
    ChildOf(usize),
}

impl View for Pick {
    type V = PickV;

    open spec fn view(&self) -> PickV {
        match self {
            Pick::ByClass(c) => PickV::ByClass(c@),
            Pick::ByName(n) => PickV::ByName(n@),
            Pick::ChildOf(p) => PickV::ChildOf(*p),
        }
    }
}

/// Where a search looks: the whole document, or the strict descendants of
/// one node.
#[derive(Eq, PartialEq, Structural, Copy, Clone, Debug)]
pub enum Scope {
    Doc,
    Under(usize),
}

/// Scope membership.
pub open spec fn in_scope(nodes: Seq<HtmlNode>, scope: Scope, j: usize) -> bool {
    match scope {
        Scope::Doc => true,
        Scope::Under(i) => j != i && is_under(nodes, i, j),
    }
}

/// Does node `j` answer the search?
pub open spec fn pick_matches(nodes: Seq<HtmlNode>, scope: Scope, pick: PickV, j: usize) -> bool {
    &&& j < nodes.len()
    &&& in_scope(nodes, scope, j)
    &&& match pick {
        PickV::ByClass(c) => node_has_class(nodes[j as int], c),
        PickV::ByName(n) => node_is_named(nodes[j as int], n),
        PickV::ChildOf(p) => nodes[j as int].parent == Some(p),
    }
}

/// All matches at index `n` or later, in document order.
pub open spec fn finds_from(nodes: Seq<HtmlNode>, scope: Scope, pick: PickV, n: int) -> Seq<usize>
    decreases nodes.len() - n,
{
    if n < 0 || n >= nodes.len() {
        Seq::empty()
    } else {
        let rest = finds_from(nodes, scope, pick, n + 1);
        if pick_matches(nodes, scope, pick, n as usize) {
            seq![n as usize] + rest
        } else {
            rest
        }
    }
}

/// All matches of a search, in document order.
pub open spec fn finds(nodes: Seq<HtmlNode>, scope: Scope, pick: PickV) -> Seq<usize> {
    finds_from(nodes, scope, pick, 0)
}

/// Executable mirror of `pick_matches`.
fn pick_matches_exec(doc: &Vec<HtmlNode>, scope: Scope, pick: &Pick, j: usize) -> (r: bool)
    requires
        j < doc@.len(),
    ensures
        r == pick_matches(doc@, scope, pick@, j),
{
    let scope_ok = match scope {
        Scope::Doc => true,
        Scope::Under(i) => j != i && under(doc, i, j),
    };
    if !scope_ok {
        return false;
    }
    match pick {
        Pick::ByClass(c) => has_class(&doc[j], c.as_str()),
        Pick::ByName(n) => {
            matches!(doc[j].kind, NodeKind::Element) && str_eq(doc[j].name.as_str(), n.as_str())
        },
        Pick::ChildOf(p) => {
            match doc[j].parent {
                Some(q) => q == *p,
                None => false,
            }
        },
    }
}

/// Search the document: every matching node index, in document order.
pub fn find_all(doc: &Vec<HtmlNode>, scope: Scope, pick: &Pick) -> (r: Vec<usize>)
    ensures
        r@ == finds(doc@, scope, pick@),
        forall|k: int| 0 <= k < r@.len() ==> #[trigger] r@[k] < doc@.len(),
{
    let n = doc.len();
    let mut r: Vec<usize> = Vec::new();
    let mut k: usize = 0;
    while k < n
        invariant
            0 <= k <= n,
            n == doc@.len(),
            finds(doc@, scope, pick@) == r@ + finds_from(doc@, scope, pick@, k as int),
            forall|m: int| 0 <= m < r@.len() ==> #[trigger] r@[m] < doc@.len(),
        decreases n - k,
    {
        if pick_matches_exec(doc, scope, pick, k) {
            proof {
                assert(finds_from(doc@, scope, pick@, k as int) == seq![k as usize]
                    + finds_from(doc@, scope, pick@, k as int + 1));
                assert(r@ + finds_from(doc@, scope, pick@, k as int) =~= (r@.push(k as usize))
                    + finds_from(doc@, scope, pick@, k as int + 1));
            }
            r.push(k);
        } else {
            proof {
                assert(finds_from(doc@, scope, pick@, k as int) == finds_from(
                    doc@, scope, pick@, k as int + 1));
            }
        }
        k += 1;
    }
    proof {
        assert(finds(doc@, scope, pick@) =~= r@ + Seq::<usize>::empty());
        assert(r@ + Seq::<usize>::empty() =~= r@);
    }
    r
}

/// The first match of a search, if any.
pub open spec fn spec_find_first(nodes: Seq<HtmlNode>, scope: Scope, pick: PickV) -> Option<usize> {
    let all = finds(nodes, scope, pick);
    if all.len() > 0 {
        Some(all[0])
    } else {
        None
    }
}

/// The first matching node index, if any.
pub fn find_first(doc: &Vec<HtmlNode>, scope: Scope, pick: &Pick) -> (r: Option<usize>)
    ensures
        r == spec_find_first(doc@, scope, pick@),
        r is Some ==> r->0 < doc@.len(),
{
    let all = find_all(doc, scope, pick);
    if all.len() > 0 {
        Some(all[0])
    } else {
        None
    }
}

/// Concatenated text-node content of the subtree rooted at `root`,
/// scanning from node `n`, in document order.
pub open spec fn subtree_text_from(nodes: Seq<HtmlNode>, root: usize, n: int) -> Seq<char>
    decreases nodes.len() - n,
{
    if n < 0 || n >= nodes.len() {
        Seq::empty()
    } else {
        let rest = subtree_text_from(nodes, root, n + 1);
        if nodes[n].kind == NodeKind::Text && is_under(nodes, root, n as usize) {
            nodes[n].text@ + rest
        } else {
            rest
        }
    }
}

/// The combined text of a node and all of its descendants.
pub open spec fn spec_text(nodes: Seq<HtmlNode>, root: usize) -> Seq<char> {
    subtree_text_from(nodes, root, 0)
}

/// Collect the combined text of a subtree.
pub fn node_text(doc: &Vec<HtmlNode>, root: usize) -> (r: String)
    ensures
        r@ == spec_text(doc@, root),
{
    let n = doc.len();
    let mut r = String::new();
    let mut k: usize = 0;
    while k < n
        invariant
            0 <= k <= n,
            n == doc@.len(),
            spec_text(doc@, root) == r@ + subtree_text_from(doc@, root, k as int),
        decreases n - k,
    {
        if matches!(doc[k].kind, NodeKind::Text) && under(doc, root, k) {
            proof {
                assert(subtree_text_from(doc@, root, k as int) == doc@[k as int].text@
                    + subtree_text_from(doc@, root, k as int + 1));
                assert(r@ + (doc@[k as int].text@ + subtree_text_from(doc@, root, k as int + 1))
                    =~= (r@ + doc@[k as int].text@) + subtree_text_from(
                    doc@, root, k as int + 1));
            }
            r.append(doc[k].text.as_str());
        } else {
            proof {
                assert(subtree_text_from(doc@, root, k as int) == subtree_text_from(
                    doc@, root, k as int + 1));
            }
        }
        k += 1;
    }
    proof {
        assert(spec_text(doc@, root) =~= r@ + Seq::<char>::empty());
        assert(r@ + Seq::<char>::empty() =~= r@);
    }
    r
}

} // verus!

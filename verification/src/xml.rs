//! Hierarchy dumps: from XML to a tree of UI nodes.

use crate::geometry::{bounds_of, parse_bounds, reads_all, reads_as, Coord};
use crate::numerals::{in_order, in_order_sorts, parse_small, small_numeral, sort_dedup,
    sorted_once};
use crate::platform::{same_text, xml_document, xml_nodes};
use crate::text::{chars_of, copy_of};
use crate::tree::{attr_value, build_label, children_are_forest, copy_pairs, find_attr, forest,
    label_of, merge_nodes, merged, node_on, tree_in, NodeView, UiNode};
use vstd::prelude::*;

verus! {

/// A node of an XML document. The nodes of a document are listed in document order, the
/// document itself first.
#[derive(Debug)]
pub struct XmlNode {
    /// The number of the node that this one stands in.
    pub parent: Option<usize>,
    pub is_element: bool,
    /// The local name of an element, empty for any other node.
    pub name: String,
    /// Local names and normalized values in the order of the document.
    pub attributes: Vec<(String, String)>,
}

/// An XML node with its texts as sequences of characters.
#[verifier::ext_equal]
pub struct XmlNodeView {
    pub parent: Option<int>,
    pub is_element: bool,
    pub name: Seq<char>,
    pub attributes: Seq<(Seq<char>, Seq<char>)>,
}

impl View for XmlNode {
    type V = XmlNodeView;

    open spec fn view(&self) -> XmlNodeView {
        XmlNodeView {
            parent: match self.parent {
                Some(p) => Some(p as int),
                None => None,
            },
            is_element: self.is_element,
            name: self.name@,
            attributes: self.attributes.deep_view(),
        }
    }
}

/// The nodes of a document as views.
pub open spec fn document(nodes: Seq<XmlNode>) -> Seq<XmlNodeView> {
    Seq::new(nodes.len(), |i: int| nodes[i]@)
}

/// The document in a result, if there is one.
pub open spec fn document_in(r: Option<Vec<XmlNode>>) -> Option<Seq<XmlNodeView>> {
    match r {
        Some(v) => Some(document(v@)),
        None => None,
    }
}

// ── Elements ──

/// Node `j` is an element that stands directly in node `i`.
pub open spec fn element_in(doc: Seq<XmlNodeView>, i: int, j: int) -> bool {
    doc[j].parent == Some(i) && doc[j].is_element
}

/// Node `j` is an element called `name` that stands directly in node `i`.
pub open spec fn named_in(doc: Seq<XmlNodeView>, i: int, j: int, name: Seq<char>) -> bool {
    element_in(doc, i, j) && doc[j].name == name
}

fn is_element_in(doc: &Vec<XmlNode>, i: usize, j: usize) -> (r: bool)
    requires
        j < doc@.len(),
    ensures
        r == element_in(document(doc@), i as int, j as int),
{
    match doc[j].parent {
        Some(p) => p == i && doc[j].is_element,
        None => false,
    }
}

fn is_named_in(doc: &Vec<XmlNode>, i: usize, j: usize, name: &str) -> (r: bool)
    requires
        j < doc@.len(),
    ensures
        r == named_in(document(doc@), i as int, j as int, name@),
{
    is_element_in(doc, i, j) && same_text(doc[j].name.as_str(), name)
}

/// The first element called `name` in node `i`, from node `j` on.
pub open spec fn first_named(doc: Seq<XmlNodeView>, i: int, j: int, name: Seq<char>) -> Option<int>
    decreases doc.len() - j,
{
    if j >= doc.len() {
        None
    } else if named_in(doc, i, j, name) {
        Some(j)
    } else {
        first_named(doc, i, j + 1, name)
    }
}

/// Where an optional number points.
pub open spec fn place(r: Option<usize>) -> Option<int> {
    match r {
        Some(i) => Some(i as int),
        None => None,
    }
}

fn find_named(doc: &Vec<XmlNode>, i: usize, name: &str) -> (r: Option<usize>)
    requires
        i < doc@.len(),
    ensures
        place(r) == first_named(document(doc@), i as int, i + 1, name@),
        r matches Some(j) ==> i < j < doc@.len(),
{
    let n: usize = doc.len();
    let mut j: usize = i + 1;
    while j < n
        invariant
            n == doc@.len(),
            i < j <= n,
            first_named(document(doc@), i as int, i + 1, name@) == first_named(
                document(doc@),
                i as int,
                j as int,
                name@,
            ),
        decreases n - j,
    {
        if is_named_in(doc, i, j, name) {
            return Some(j);
        }
        j += 1;
    }
    None
}

/// The first element of the document itself, from node `j` on.
pub open spec fn first_element(doc: Seq<XmlNodeView>, j: int) -> Option<int>
    decreases doc.len() - j,
{
    if j >= doc.len() {
        None
    } else if element_in(doc, 0, j) {
        Some(j)
    } else {
        first_element(doc, j + 1)
    }
}

/// The root element.
pub open spec fn root_element(doc: Seq<XmlNodeView>) -> Option<int> {
    first_element(doc, 1)
}

fn find_root(doc: &Vec<XmlNode>) -> (r: Option<usize>)
    ensures
        place(r) == root_element(document(doc@)),
        r matches Some(j) ==> j < doc@.len(),
{
    let n: usize = doc.len();
    if n == 0 {
        return None;
    }
    let mut j: usize = 1;
    while j < n
        invariant
            n == doc@.len(),
            j <= n,
            root_element(document(doc@)) == first_element(document(doc@), j as int),
        decreases n - j,
    {
        if is_element_in(doc, 0, j) {
            return Some(j);
        }
        j += 1;
    }
    None
}

// ── Nodes ──

/// The tree of the element `i`. An element without readable bounds has none, whatever
/// stands in it.
pub open spec fn node_tree(
    doc: Seq<XmlNodeView>,
    i: int,
    g: spec_fn(Seq<char>) -> Option<Coord>,
) -> Option<NodeView>
    decreases doc.len() - i, 0int,
{
    if 0 <= i < doc.len() {
        match attr_value(doc[i].attributes, "bounds"@) {
            None => None,
            Some(text) => match bounds_of(text, g) {
                None => None,
                Some(bounds) => Some(
                    NodeView {
                        bounds,
                        attrs: doc[i].attributes,
                        children: node_trees(doc, i, i + 1, g),
                        label: label_of(doc[i].attributes),
                    },
                ),
            },
        }
    } else {
        None
    }
}

/// The trees of the elements that stand directly in node `i`, from node `j` on.
pub open spec fn node_trees(
    doc: Seq<XmlNodeView>,
    i: int,
    j: int,
    g: spec_fn(Seq<char>) -> Option<Coord>,
) -> Seq<NodeView>
    decreases doc.len() - j, 1int,
{
    if j < 0 || j >= doc.len() {
        Seq::empty()
    } else {
        one_if(element_in(doc, i, j), node_tree(doc, j, g)) + node_trees(doc, i, j + 1, g)
    }
}

/// A list of the tree, if there is one and it is wanted.
pub open spec fn one_if(wanted: bool, tree: Option<NodeView>) -> Seq<NodeView> {
    match tree {
        Some(t) => if wanted {
            seq![t]
        } else {
            Seq::empty()
        },
        None => Seq::empty(),
    }
}

/// Makes a tree of an element of the document.
pub fn parse_node<F: Fn(&str) -> Option<Coord>>(doc: &Vec<XmlNode>, i: usize, read: &F) -> (r:
    Option<UiNode>)
    requires
        i < doc@.len(),
        reads_all(*read),
    ensures
        forall|g: spec_fn(Seq<char>) -> Option<Coord>| #[trigger]
            reads_as(*read, g) ==> tree_in(r) == node_tree(document(doc@), i as int, g),
    decreases doc@.len() - i, 1int,
{
    let node = &doc[i];
    assert(document(doc@)[i as int] == node@);
    let ghost attributes = node.attributes.deep_view();
    let listed = node.attributes.as_slice();
    assert(listed.deep_view() =~= attributes);
    let text = match find_attr(listed, "bounds") {
        Some(text) => text,
        None => {
            return None;
        },
    };
    let bounds = match parse_bounds(text, read) {
        Some(bounds) => bounds,
        None => {
            return None;
        },
    };
    let children = parse_nodes(doc, i, read);
    let attrs = copy_pairs(&node.attributes);
    let label = build_label(listed);
    let tree = UiNode { bounds, attrs, children, label };
    proof {
        children_are_forest(tree);
        assert forall|g: spec_fn(Seq<char>) -> Option<Coord>| #[trigger]
            reads_as(*read, g) implies Some(tree@) == node_tree(document(doc@), i as int, g) by {
            assert(tree@ =~= node_tree(document(doc@), i as int, g)->0);
        }
    }
    Some(tree)
}

/// Makes trees of the elements that stand directly in node `i`.
pub fn parse_nodes<F: Fn(&str) -> Option<Coord>>(doc: &Vec<XmlNode>, i: usize, read: &F) -> (r: Vec<
    UiNode,
>)
    requires
        i < doc@.len(),
        reads_all(*read),
    ensures
        forall|g: spec_fn(Seq<char>) -> Option<Coord>| #[trigger]
            reads_as(*read, g) ==> forest(r@) == node_trees(document(doc@), i as int, i + 1, g),
    decreases doc@.len() - i, 0int,
{
    let mut out: Vec<UiNode> = Vec::new();
    let n: usize = doc.len();
    let mut j: usize = i + 1;
    let ghost d = document(doc@);
    while j < n
        invariant
            n == doc@.len(),
            d == document(doc@),
            i < j <= n,
            reads_all(*read),
            forall|g: spec_fn(Seq<char>) -> Option<Coord>| #[trigger]
                reads_as(*read, g) ==> forest(out@) + node_trees(d, i as int, j as int, g)
                    == node_trees(d, i as int, i + 1, g),
        decreases n - j,
    {
        let ghost before = forest(out@);
        if is_element_in(doc, i, j) {
            if let Some(tree) = parse_node(doc, j, read) {
                let ghost t = tree@;
                out.push(tree);
                assert(forest(out@) =~= before + seq![t]);
            }
        }
        proof {
            assert forall|g: spec_fn(Seq<char>) -> Option<Coord>| #[trigger]
                reads_as(*read, g) implies forest(out@) + node_trees(d, i as int, j + 1, g)
                == node_trees(d, i as int, i + 1, g) by {
                let one = one_if(element_in(d, i as int, j as int), node_tree(d, j as int, g));
                let rest = node_trees(d, i as int, j + 1, g);
                assert(forest(out@) =~= before + one);
                assert((before + one) + rest =~= before + (one + rest));
            }
        }
        j += 1;
    }
    proof {
        assert forall|g: spec_fn(Seq<char>) -> Option<Coord>| #[trigger]
            reads_as(*read, g) implies forest(out@) == node_trees(d, i as int, i + 1, g) by {
            assert(forest(out@) + node_trees(d, i as int, j as int, g) =~= forest(out@));
        }
    }
    out
}

// ── Plain hierarchies ──

/// The tree of a document whose root element is a `hierarchy`.
pub open spec fn hierarchy_tree(
    doc: Seq<XmlNodeView>,
    g: spec_fn(Seq<char>) -> Option<Coord>,
) -> Option<NodeView> {
    match root_element(doc) {
        None => None,
        Some(root) => if doc[root].name == "hierarchy"@ {
            merged(node_trees(doc, root, root + 1, g))
        } else {
            None
        },
    }
}

/// What a text becomes that is read as an XML document first.
pub open spec fn text_tree(
    doc: Option<Seq<XmlNodeView>>,
    tree: spec_fn(Seq<XmlNodeView>) -> Option<NodeView>,
) -> Option<NodeView> {
    match doc {
        Some(d) => tree(d),
        None => None,
    }
}

/// Makes the tree of a document whose root element is a `hierarchy`.
pub fn parse_hierarchy<F: Fn(&str) -> Option<Coord>>(doc: &Vec<XmlNode>, read: &F) -> (r: Option<
    UiNode,
>)
    requires
        reads_all(*read),
    ensures
        forall|g: spec_fn(Seq<char>) -> Option<Coord>| #[trigger]
            reads_as(*read, g) ==> tree_in(r) == hierarchy_tree(document(doc@), g),
{
    match find_root(doc) {
        None => None,
        Some(root) => {
            if !same_text(doc[root].name.as_str(), "hierarchy") {
                return None;
            }
            let nodes = parse_nodes(doc, root, read);
            merge_nodes(nodes)
        },
    }
}

/// Reads a dump without displays.
pub fn parse_xml<F: Fn(&str) -> Option<Coord>>(text: &str, read: &F) -> (r: Option<UiNode>)
    requires
        reads_all(*read),
    ensures
        forall|g: spec_fn(Seq<char>) -> Option<Coord>| #[trigger]
            reads_as(*read, g) ==> tree_in(r) == text_tree(
                xml_document(text@),
                |d: Seq<XmlNodeView>| hierarchy_tree(d, g),
            ),
{
    match xml_nodes(text) {
        Some(doc) => parse_hierarchy(&doc, read),
        None => None,
    }
}

// ── Displays ──

/// The number of a display in an attribute, if it holds one.
pub open spec fn display_number(node: XmlNodeView, key: Seq<char>) -> Option<u32> {
    match attr_value(node.attributes, key) {
        Some(text) => small_numeral(text),
        None => None,
    }
}

fn read_display_number(node: &XmlNode, key: &str) -> (r: Option<u32>)
    ensures
        r == display_number(node@, key@),
{
    let listed = node.attributes.as_slice();
    assert(listed.deep_view() =~= node@.attributes);
    match find_attr(listed, key) {
        Some(text) => {
            let all = chars_of(text);
            parse_small(all.as_slice())
        },
        None => None,
    }
}

/// The display that a top-level node belongs to: the primary one, unless it says otherwise.
pub open spec fn node_display(node: XmlNodeView) -> u32 {
    match display_number(node, "display-id"@) {
        Some(id) => id,
        None => 0,
    }
}

fn read_node_display(node: &XmlNode) -> (r: u32)
    ensures
        r == node_display(node@),
{
    match read_display_number(node, "display-id") {
        Some(id) => id,
        None => 0,
    }
}

/// The trees of the `node` elements in node `i` that belong to a display, from `j` on.
pub open spec fn trees_on_display(
    doc: Seq<XmlNodeView>,
    i: int,
    j: int,
    id: u32,
    g: spec_fn(Seq<char>) -> Option<Coord>,
) -> Seq<NodeView>
    decreases doc.len() - j,
{
    if j < 0 || j >= doc.len() {
        Seq::empty()
    } else {
        one_if(
            named_in(doc, i, j, "node"@) && node_display(doc[j]) == id,
            node_tree(doc, j, g),
        ) + trees_on_display(doc, i, j + 1, id, g)
    }
}

/// Merges the top-level `node` elements of a plain hierarchy that belong to a display. One
/// without a `display-id` belongs to display 0.
pub fn parse_plain_hierarchy_display<F: Fn(&str) -> Option<Coord>>(
    doc: &Vec<XmlNode>,
    root: usize,
    display_id: u32,
    read: &F,
) -> (r: Option<UiNode>)
    requires
        root < doc@.len(),
        reads_all(*read),
    ensures
        forall|g: spec_fn(Seq<char>) -> Option<Coord>| #[trigger]
            reads_as(*read, g) ==> tree_in(r) == merged(
                trees_on_display(document(doc@), root as int, root + 1, display_id, g),
            ),
{
    let mut out: Vec<UiNode> = Vec::new();
    let n: usize = doc.len();
    let mut j: usize = root + 1;
    let ghost d = document(doc@);
    let ghost i = root as int;
    while j < n
        invariant
            n == doc@.len(),
            d == document(doc@),
            i == root,
            root < j <= n,
            reads_all(*read),
            forall|g: spec_fn(Seq<char>) -> Option<Coord>| #[trigger]
                reads_as(*read, g) ==> forest(out@) + trees_on_display(
                    d,
                    i,
                    j as int,
                    display_id,
                    g,
                ) == trees_on_display(d, i, i + 1, display_id, g),
        decreases n - j,
    {
        let ghost before = forest(out@);
        assert(d[j as int] == doc@[j as int]@);
        if is_named_in(doc, root, j, "node") && read_node_display(&doc[j]) == display_id {
            if let Some(tree) = parse_node(doc, j, read) {
                let ghost t = tree@;
                out.push(tree);
                assert(forest(out@) =~= before + seq![t]);
            }
        }
        proof {
            assert forall|g: spec_fn(Seq<char>) -> Option<Coord>| #[trigger]
                reads_as(*read, g) implies forest(out@) + trees_on_display(
                d,
                i,
                j + 1,
                display_id,
                g,
            ) == trees_on_display(d, i, i + 1, display_id, g) by {
                let one = one_if(
                    named_in(d, i, j as int, "node"@) && node_display(d[j as int]) == display_id,
                    node_tree(d, j as int, g),
                );
                let rest = trees_on_display(d, i, j + 1, display_id, g);
                assert(forest(out@) =~= before + one);
                assert((before + one) + rest =~= before + (one + rest));
            }
        }
        j += 1;
    }
    proof {
        assert forall|g: spec_fn(Seq<char>) -> Option<Coord>| #[trigger]
            reads_as(*read, g) implies forest(out@) == trees_on_display(
            d,
            i,
            i + 1,
            display_id,
            g,
        ) by {
            assert(forest(out@) + trees_on_display(d, i, j as int, display_id, g) =~= forest(out@));
        }
    }
    merge_nodes(out)
}

/// The first `display` element in node `i` with the given id, from node `j` on.
pub open spec fn display_with_id(doc: Seq<XmlNodeView>, i: int, j: int, id: u32) -> Option<int>
    decreases doc.len() - j,
{
    if j >= doc.len() {
        None
    } else if named_in(doc, i, j, "display"@) && display_number(doc[j], "id"@) == Some(id) {
        Some(j)
    } else {
        display_with_id(doc, i, j + 1, id)
    }
}

fn find_display(doc: &Vec<XmlNode>, i: usize, id: u32) -> (r: Option<usize>)
    requires
        i < doc@.len(),
    ensures
        place(r) == display_with_id(document(doc@), i as int, i + 1, id),
        r matches Some(j) ==> i < j < doc@.len(),
{
    let n: usize = doc.len();
    let mut j: usize = i + 1;
    while j < n
        invariant
            n == doc@.len(),
            i < j <= n,
            display_with_id(document(doc@), i as int, i + 1, id) == display_with_id(
                document(doc@),
                i as int,
                j as int,
                id,
            ),
        decreases n - j,
    {
        assert(document(doc@)[j as int] == doc@[j as int]@);
        if is_named_in(doc, i, j, "display") {
            if let Some(own) = read_display_number(&doc[j], "id") {
                if own == id {
                    return Some(j);
                }
            }
        }
        j += 1;
    }
    None
}

/// The trees in the windows of node `i`, from node `j` on: those in the first `hierarchy` of
/// each `window`.
pub open spec fn window_trees(
    doc: Seq<XmlNodeView>,
    i: int,
    j: int,
    g: spec_fn(Seq<char>) -> Option<Coord>,
) -> Seq<NodeView>
    decreases doc.len() - j,
{
    if j >= doc.len() {
        Seq::empty()
    } else {
        one_window(doc, i, j, g) + window_trees(doc, i, j + 1, g)
    }
}

/// The trees in node `j` if it is a window of node `i`.
pub open spec fn one_window(
    doc: Seq<XmlNodeView>,
    i: int,
    j: int,
    g: spec_fn(Seq<char>) -> Option<Coord>,
) -> Seq<NodeView> {
    if named_in(doc, i, j, "window"@) {
        match first_named(doc, j, j + 1, "hierarchy"@) {
            Some(h) => node_trees(doc, h, h + 1, g),
            None => Seq::empty(),
        }
    } else {
        Seq::empty()
    }
}

/// The tree of a `display` element: of its windows, or, where it has none, of the elements
/// that stand directly in it.
pub open spec fn display_tree(
    doc: Seq<XmlNodeView>,
    i: int,
    g: spec_fn(Seq<char>) -> Option<Coord>,
) -> Option<NodeView> {
    merged(
        if first_named(doc, i, i + 1, "window"@) is Some {
            window_trees(doc, i, i + 1, g)
        } else {
            node_trees(doc, i, i + 1, g)
        },
    )
}

fn parse_windows<F: Fn(&str) -> Option<Coord>>(doc: &Vec<XmlNode>, i: usize, read: &F) -> (r: Vec<
    UiNode,
>)
    requires
        i < doc@.len(),
        reads_all(*read),
    ensures
        forall|g: spec_fn(Seq<char>) -> Option<Coord>| #[trigger]
            reads_as(*read, g) ==> forest(r@) == window_trees(document(doc@), i as int, i + 1, g),
{
    let mut out: Vec<UiNode> = Vec::new();
    let n: usize = doc.len();
    let mut j: usize = i + 1;
    let ghost d = document(doc@);
    while j < n
        invariant
            n == doc@.len(),
            d == document(doc@),
            i < j <= n,
            reads_all(*read),
            forall|g: spec_fn(Seq<char>) -> Option<Coord>| #[trigger]
                reads_as(*read, g) ==> forest(out@) + window_trees(d, i as int, j as int, g)
                    == window_trees(d, i as int, i + 1, g),
        decreases n - j,
    {
        let ghost before = forest(out@);
        if is_named_in(doc, i, j, "window") {
            if let Some(h) = find_named(doc, j, "hierarchy") {
                let mut nodes = parse_nodes(doc, h, read);
                let ghost trees = nodes@;
                let ghost sofar = out@;
                out.append(&mut nodes);
                assert(out@ =~= sofar + trees);
                assert(forest(out@) =~= before + forest(trees));
            }
        }
        proof {
            assert forall|g: spec_fn(Seq<char>) -> Option<Coord>| #[trigger]
                reads_as(*read, g) implies forest(out@) + window_trees(d, i as int, j + 1, g)
                == window_trees(d, i as int, i + 1, g) by {
                let one = one_window(d, i as int, j as int, g);
                let rest = window_trees(d, i as int, j + 1, g);
                assert(forest(out@) =~= before + one);
                assert((before + one) + rest =~= before + (one + rest));
            }
        }
        j += 1;
    }
    proof {
        assert forall|g: spec_fn(Seq<char>) -> Option<Coord>| #[trigger]
            reads_as(*read, g) implies forest(out@) == window_trees(d, i as int, i + 1, g) by {
            assert(forest(out@) + window_trees(d, i as int, j as int, g) =~= forest(out@));
        }
    }
    out
}

fn parse_display<F: Fn(&str) -> Option<Coord>>(doc: &Vec<XmlNode>, i: usize, read: &F) -> (r: Option<
    UiNode,
>)
    requires
        i < doc@.len(),
        reads_all(*read),
    ensures
        forall|g: spec_fn(Seq<char>) -> Option<Coord>| #[trigger]
            reads_as(*read, g) ==> tree_in(r) == display_tree(document(doc@), i as int, g),
{
    match find_named(doc, i, "window") {
        Some(_) => {
            let nodes = parse_windows(doc, i, read);
            merge_nodes(nodes)
        },
        None => {
            let nodes = parse_nodes(doc, i, read);
            merge_nodes(nodes)
        },
    }
}

/// The `display` element with the given id in the first `displays` element of node `i`.
pub open spec fn wrapped_display(doc: Seq<XmlNodeView>, i: int, id: u32) -> Option<int> {
    match first_named(doc, i, i + 1, "displays"@) {
        Some(d) => display_with_id(doc, d, d + 1, id),
        None => None,
    }
}

/// The tree of one display of a document: of `displays`, of a `hierarchy` that holds
/// `displays` or `display` elements, or of the nodes of a plain `hierarchy`.
pub open spec fn windows_tree(
    doc: Seq<XmlNodeView>,
    id: u32,
    g: spec_fn(Seq<char>) -> Option<Coord>,
) -> Option<NodeView> {
    match root_element(doc) {
        None => None,
        Some(root) => if doc[root].name == "displays"@ {
            match display_with_id(doc, root, root + 1, id) {
                Some(d) => display_tree(doc, d, g),
                None => None,
            }
        } else if doc[root].name == "hierarchy"@ {
            match wrapped_display(doc, root, id) {
                Some(d) => display_tree(doc, d, g),
                None => match display_with_id(doc, root, root + 1, id) {
                    Some(d) => display_tree(doc, d, g),
                    None => merged(trees_on_display(doc, root, root + 1, id, g)),
                },
            }
        } else {
            None
        },
    }
}

/// Makes the tree of one display of a document.
pub fn parse_windows_document<F: Fn(&str) -> Option<Coord>>(
    doc: &Vec<XmlNode>,
    display_id: u32,
    read: &F,
) -> (r: Option<UiNode>)
    requires
        reads_all(*read),
    ensures
        forall|g: spec_fn(Seq<char>) -> Option<Coord>| #[trigger]
            reads_as(*read, g) ==> tree_in(r) == windows_tree(document(doc@), display_id, g),
{
    let root = match find_root(doc) {
        Some(root) => root,
        None => {
            return None;
        },
    };
    if same_text(doc[root].name.as_str(), "displays") {
        match find_display(doc, root, display_id) {
            Some(d) => parse_display(doc, d, read),
            None => None,
        }
    } else if same_text(doc[root].name.as_str(), "hierarchy") {
        let wrapped = match find_named(doc, root, "displays") {
            Some(d) => find_display(doc, d, display_id),
            None => None,
        };
        match wrapped {
            Some(d) => parse_display(doc, d, read),
            None => match find_display(doc, root, display_id) {
                Some(d) => parse_display(doc, d, read),
                None => parse_plain_hierarchy_display(doc, root, display_id, read),
            },
        }
    } else {
        None
    }
}

/// Reads one display of a dump.
pub fn parse_windows_xml<F: Fn(&str) -> Option<Coord>>(text: &str, display_id: u32, read: &F) -> (r:
    Option<UiNode>)
    requires
        reads_all(*read),
    ensures
        forall|g: spec_fn(Seq<char>) -> Option<Coord>| #[trigger]
            reads_as(*read, g) ==> tree_in(r) == text_tree(
                xml_document(text@),
                |d: Seq<XmlNodeView>| windows_tree(d, display_id, g),
            ),
{
    match xml_nodes(text) {
        Some(doc) => parse_windows_document(&doc, display_id, read),
        None => None,
    }
}

// ── Display ids ──

/// A list of the number, if there is one.
pub open spec fn one_id(id: Option<u32>) -> Seq<u32> {
    match id {
        Some(id) => seq![id],
        None => Seq::empty(),
    }
}

/// The readable ids of the `display` elements in node `i`, from node `j` on.
pub open spec fn display_ids(doc: Seq<XmlNodeView>, i: int, j: int) -> Seq<u32>
    decreases doc.len() - j,
{
    if j >= doc.len() {
        Seq::empty()
    } else if named_in(doc, i, j, "display"@) {
        one_id(display_number(doc[j], "id"@)) + display_ids(doc, i, j + 1)
    } else {
        display_ids(doc, i, j + 1)
    }
}

fn read_display_ids(doc: &Vec<XmlNode>, i: usize) -> (r: Vec<u32>)
    requires
        i < doc@.len(),
    ensures
        r@ == display_ids(document(doc@), i as int, i + 1),
{
    let mut out: Vec<u32> = Vec::new();
    let n: usize = doc.len();
    let mut j: usize = i + 1;
    let ghost d = document(doc@);
    while j < n
        invariant
            n == doc@.len(),
            d == document(doc@),
            i < j <= n,
            out@ + display_ids(d, i as int, j as int) == display_ids(d, i as int, i + 1),
        decreases n - j,
    {
        assert(d[j as int] == doc@[j as int]@);
        let ghost before = out@;
        let ghost rest = display_ids(d, i as int, j + 1);
        if is_named_in(doc, i, j, "display") {
            let number = read_display_number(&doc[j], "id");
            if let Some(id) = number {
                out.push(id);
            }
            assert(out@ =~= before + one_id(number));
            assert(out@ + rest =~= before + (one_id(number) + rest));
        }
        j += 1;
    }
    assert(out@ + display_ids(d, i as int, j as int) =~= out@);
    out
}

/// The displays of the `node` elements in node `i`, from node `j` on.
pub open spec fn node_displays(doc: Seq<XmlNodeView>, i: int, j: int) -> Seq<u32>
    decreases doc.len() - j,
{
    if j >= doc.len() {
        Seq::empty()
    } else if named_in(doc, i, j, "node"@) {
        seq![node_display(doc[j])] + node_displays(doc, i, j + 1)
    } else {
        node_displays(doc, i, j + 1)
    }
}

fn read_node_displays(doc: &Vec<XmlNode>, i: usize) -> (r: Vec<u32>)
    requires
        i < doc@.len(),
    ensures
        r@ == node_displays(document(doc@), i as int, i + 1),
{
    let mut out: Vec<u32> = Vec::new();
    let n: usize = doc.len();
    let mut j: usize = i + 1;
    let ghost d = document(doc@);
    while j < n
        invariant
            n == doc@.len(),
            d == document(doc@),
            i < j <= n,
            out@ + node_displays(d, i as int, j as int) == node_displays(d, i as int, i + 1),
        decreases n - j,
    {
        assert(d[j as int] == doc@[j as int]@);
        let ghost before = out@;
        let ghost rest = node_displays(d, i as int, j + 1);
        if is_named_in(doc, i, j, "node") {
            let id = read_node_display(&doc[j]);
            out.push(id);
            assert(out@ + rest =~= before + (seq![id] + rest));
        }
        j += 1;
    }
    assert(out@ + node_displays(d, i as int, j as int) =~= out@);
    out
}

/// The ids of the `display` elements in the first `displays` element of node `i`.
pub open spec fn wrapped_ids(doc: Seq<XmlNodeView>, i: int) -> Seq<u32> {
    match first_named(doc, i, i + 1, "displays"@) {
        Some(d) => display_ids(doc, d, d + 1),
        None => Seq::empty(),
    }
}

/// The displays of a document. Where its `display` elements name none, they are the displays
/// of its top-level nodes, each once and in increasing order.
pub open spec fn displays_of(doc: Seq<XmlNodeView>) -> Seq<u32> {
    match root_element(doc) {
        None => Seq::empty(),
        Some(root) => if doc[root].name == "displays"@ {
            display_ids(doc, root, root + 1)
        } else if doc[root].name == "hierarchy"@ {
            if wrapped_ids(doc, root).len() > 0 {
                wrapped_ids(doc, root)
            } else if display_ids(doc, root, root + 1).len() > 0 {
                display_ids(doc, root, root + 1)
            } else {
                in_order(node_displays(doc, root, root + 1))
            }
        } else {
            Seq::empty()
        },
    }
}

/// The displays of a text that is read as an XML document.
pub open spec fn text_displays(doc: Option<Seq<XmlNodeView>>) -> Seq<u32> {
    match doc {
        Some(d) => displays_of(d),
        None => Seq::empty(),
    }
}

/// Lists the displays of a document.
pub fn document_display_ids(doc: &Vec<XmlNode>) -> (r: Vec<u32>)
    ensures
        r@ == displays_of(document(doc@)),
{
    let root = match find_root(doc) {
        Some(root) => root,
        None => {
            return Vec::new();
        },
    };
    if same_text(doc[root].name.as_str(), "displays") {
        return read_display_ids(doc, root);
    }
    if same_text(doc[root].name.as_str(), "hierarchy") {
        let wrapped = match find_named(doc, root, "displays") {
            Some(d) => read_display_ids(doc, d),
            None => Vec::new(),
        };
        if wrapped.len() > 0 {
            return wrapped;
        }
        let direct = read_display_ids(doc, root);
        if direct.len() > 0 {
            return direct;
        }
        let nodes = read_node_displays(doc, root);
        return sort_dedup(&nodes);
    }
    Vec::new()
}

/// Lists the displays of a dump. A text that is no XML has none.
pub fn get_display_ids_from_xml(text: &str) -> (r: Vec<u32>)
    ensures
        r@ == text_displays(xml_document(text@)),
{
    match xml_nodes(text) {
        Some(doc) => document_display_ids(&doc),
        None => Vec::new(),
    }
}

// ── Contents ──

/// What a text comes to: the displays it has, the text itself if it has any, the display to
/// show, the display that is shown, and its tree. The current display stays if it is there;
/// otherwise the first one is shown.
#[verifier::ext_equal]
pub struct ContentView {
    pub displays: Seq<u32>,
    pub content: Option<Seq<char>>,
    pub tree_display_id: u32,
    pub parsed_tree_display_id: u32,
    pub root: Option<NodeView>,
}

/// The display to show out of some.
pub open spec fn shown_display(displays: Seq<u32>, current: u32) -> u32 {
    if displays.contains(current) {
        current
    } else {
        displays[0]
    }
}

/// What a text comes to that is read as the given document, where `root` is its tree.
pub open spec fn content_with(
    doc: Option<Seq<XmlNodeView>>,
    text: Seq<char>,
    current: u32,
    root: Option<NodeView>,
) -> ContentView {
    let displays = text_displays(doc);
    if displays.len() > 0 {
        let id = shown_display(displays, current);
        ContentView {
            displays,
            content: Some(text),
            tree_display_id: id,
            parsed_tree_display_id: id,
            root,
        }
    } else {
        ContentView {
            displays: Seq::empty(),
            content: None,
            tree_display_id: current,
            parsed_tree_display_id: current,
            root,
        }
    }
}

/// What a text comes to that is read as the given document.
pub open spec fn content_of(
    doc: Option<Seq<XmlNodeView>>,
    text: Seq<char>,
    current: u32,
    g: spec_fn(Seq<char>) -> Option<Coord>,
) -> ContentView {
    let displays = text_displays(doc);
    let root = if displays.len() > 0 {
        let id = shown_display(displays, current);
        text_tree(doc, |d: Seq<XmlNodeView>| windows_tree(d, id, g))
    } else {
        text_tree(doc, |d: Seq<XmlNodeView>| hierarchy_tree(d, g))
    };
    content_with(doc, text, current, root)
}

/// What a text came to.
#[derive(Debug)]
pub struct Content {
    pub displays: Vec<u32>,
    pub content: Option<String>,
    pub tree_display_id: u32,
    pub parsed_tree_display_id: u32,
    pub root: Option<UiNode>,
}

impl View for Content {
    type V = ContentView;

    open spec fn view(&self) -> ContentView {
        ContentView {
            displays: self.displays@,
            content: match self.content {
                Some(s) => Some(s@),
                None => None,
            },
            tree_display_id: self.tree_display_id,
            parsed_tree_display_id: self.parsed_tree_display_id,
            root: tree_in(self.root),
        }
    }
}

/// Picks the display to show.
pub fn pick_display(displays: &Vec<u32>, current: u32) -> (r: u32)
    requires
        displays@.len() > 0,
    ensures
        r == shown_display(displays@, current),
        displays@.contains(r),
{
    let n: usize = displays.len();
    for i in 0..n
        invariant
            n == displays@.len(),
            forall|j: int| 0 <= j < i ==> displays@[j] != current,
    {
        if displays[i] == current {
            assert(displays@[i as int] == current);
            return current;
        }
    }
    assert(displays@.contains(displays@[0]));
    displays[0]
}

/// Makes the content of a text that was read as a document, if it is one.
pub fn document_content<F: Fn(&str) -> Option<Coord>>(
    doc: &Option<Vec<XmlNode>>,
    text: &str,
    current: u32,
    read: &F,
) -> (r: Content)
    requires
        reads_all(*read),
    ensures
        r@ == content_with(document_in(*doc), text@, current, r@.root),
        *doc is None ==> r@.root is None,
        forall|g: spec_fn(Seq<char>) -> Option<Coord>| #[trigger]
            reads_as(*read, g) ==> r@ == content_of(document_in(*doc), text@, current, g),
{
    let displays = match doc {
        Some(d) => document_display_ids(d),
        None => Vec::new(),
    };
    assert(displays@ =~= text_displays(document_in(*doc)));
    if displays.len() > 0 {
        let id = pick_display(&displays, current);
        let root = match doc {
            Some(d) => parse_windows_document(d, id, read),
            None => None,
        };
        Content {
            displays,
            content: Some(copy_of(text)),
            tree_display_id: id,
            parsed_tree_display_id: id,
            root,
        }
    } else {
        let root = match doc {
            Some(d) => parse_hierarchy(d, read),
            None => None,
        };
        Content {
            displays,
            content: None,
            tree_display_id: current,
            parsed_tree_display_id: current,
            root,
        }
    }
}

/// Reads a dump for the display that is to be shown.
pub fn parse_content<F: Fn(&str) -> Option<Coord>>(text: &str, current: u32, read: &F) -> (r: Content)
    requires
        reads_all(*read),
    ensures
        r@ == content_with(xml_document(text@), text@, current, r@.root),
        xml_document(text@) is None ==> r@.root is None,
        forall|g: spec_fn(Seq<char>) -> Option<Coord>| #[trigger]
            reads_as(*read, g) ==> r@ == content_of(xml_document(text@), text@, current, g),
{
    let doc = xml_nodes(text);
    document_content(&doc, text, current, read)
}

// ── Laws ──

/// Where a text has displays, the one that is shown is one of them.
pub proof fn shown_display_is_listed(
    doc: Option<Seq<XmlNodeView>>,
    text: Seq<char>,
    current: u32,
    g: spec_fn(Seq<char>) -> Option<Coord>,
)
    ensures
        ({
            let c = content_of(doc, text, current, g);
            c.displays.len() > 0 ==> c.displays.contains(c.tree_display_id)
                && c.parsed_tree_display_id == c.tree_display_id
        }),
{
    let c = content_of(doc, text, current, g);
    if c.displays.len() > 0 {
        assert(c.displays.contains(c.displays[0]));
    }
}

/// Every node of a tree comes from an element of the document: it has that element's
/// attributes, the bounds that they give and the label that they make.
pub proof fn nodes_come_from_document(
    doc: Seq<XmlNodeView>,
    i: int,
    g: spec_fn(Seq<char>) -> Option<Coord>,
    path: Seq<usize>,
)
    requires
        0 <= i < doc.len(),
        node_tree(doc, i, g) matches Some(tree) && node_on(tree, path) is Some,
    ensures
        node_on(node_tree(doc, i, g)->0, path) matches Some(hit) && (exists|j: int|
            {
                &&& i <= j < doc.len()
                &&& (#[trigger] doc[j]).attributes == hit.attrs
                &&& attr_value(doc[j].attributes, "bounds"@) matches Some(text) && bounds_of(
                    text,
                    g,
                ) == Some(hit.bounds)
                &&& hit.label == label_of(hit.attrs)
            }),
    decreases path.len(),
{
    let tree = node_tree(doc, i, g)->0;
    if path.len() == 0 {
        assert(doc[i].attributes == tree.attrs);
    } else {
        let k = path[0] as int;
        let j = child_place(doc, i, i + 1, g, k);
        nodes_come_from_document(doc, j, g, path.drop_first());
    }
}

/// Finds the element that a child comes from.
proof fn child_place(
    doc: Seq<XmlNodeView>,
    i: int,
    j: int,
    g: spec_fn(Seq<char>) -> Option<Coord>,
    k: int,
) -> (p: int)
    requires
        0 <= j,
        0 <= k < node_trees(doc, i, j, g).len(),
    ensures
        j <= p < doc.len(),
        element_in(doc, i, p),
        node_tree(doc, p, g) == Some(node_trees(doc, i, j, g)[k]),
    decreases doc.len() - j,
{
    let one = one_if(element_in(doc, i, j), node_tree(doc, j, g));
    let rest = node_trees(doc, i, j + 1, g);
    if k < one.len() {
        j
    } else {
        assert(node_trees(doc, i, j, g)[k] == rest[k - one.len()]);
        child_place(doc, i, j + 1, g, k - one.len())
    }
}

/// A display that a `displays` document lists is found by its id.
pub proof fn listed_displays_are_found(doc: Seq<XmlNodeView>, i: int, j: int, id: u32)
    requires
        0 <= j,
    ensures
        display_ids(doc, i, j).contains(id) <==> display_with_id(doc, i, j, id) is Some,
    decreases doc.len() - j,
{
    if j < doc.len() {
        listed_displays_are_found(doc, i, j + 1, id);
        let rest = display_ids(doc, i, j + 1);
        let all = display_ids(doc, i, j);
        if named_in(doc, i, j, "display"@) {
            let one = one_id(display_number(doc[j], "id"@));
            if display_number(doc[j], "id"@) == Some(id) {
                assert(all[0] == id);
            } else {
                if rest.contains(id) {
                    let k = choose|k: int| 0 <= k < rest.len() && rest[k] == id;
                    assert(all[k + one.len()] == id);
                }
                if all.contains(id) {
                    let k = choose|k: int| 0 <= k < all.len() && all[k] == id;
                    assert(rest[k - one.len()] == id);
                }
            }
        }
    }
}

// ── Laws of completeness ──

/// Each number is larger than those before it.
pub open spec fn ascending(places: Seq<int>) -> bool {
    forall|a: int, b: int| 0 <= a < b < places.len() ==> places[a] < places[b]
}

/// The numbers are those of the chosen nodes of a document from node `j` on, all of them and in
/// document order.
pub open spec fn lists_chosen(
    doc: Seq<XmlNodeView>,
    places: Seq<int>,
    chosen: spec_fn(int) -> bool,
    j: int,
) -> bool {
    &&& ascending(places)
    &&& forall|k: int|
        0 <= k < places.len() ==> j <= #[trigger] places[k] < doc.len() && chosen(places[k])
    &&& forall|n: int| j <= n < doc.len() && #[trigger] chosen(n) ==> places.contains(n)
}

/// A chosen element that has a tree.
pub open spec fn having_tree(
    doc: Seq<XmlNodeView>,
    chosen: spec_fn(int) -> bool,
    g: spec_fn(Seq<char>) -> Option<Coord>,
) -> spec_fn(int) -> bool {
    |n: int| chosen(n) && node_tree(doc, n, g) is Some
}

/// The trees are those of the chosen elements that have one, all of them and in document order.
pub open spec fn lists_trees(
    doc: Seq<XmlNodeView>,
    list: Seq<NodeView>,
    chosen: spec_fn(int) -> bool,
    j: int,
    g: spec_fn(Seq<char>) -> Option<Coord>,
) -> bool {
    exists|places: Seq<int>|
        {
            &&& #[trigger] lists_chosen(
                doc,
                places,
                having_tree(doc, chosen, g),
                j,
            )
            &&& places.len() == list.len()
            &&& forall|k: int|
                0 <= k < list.len() ==> node_tree(doc, places[k], g) == Some(#[trigger] list[k])
        }
}

/// A node further down the document that is an element and stands directly in node `i`.
pub open spec fn child_of(doc: Seq<XmlNodeView>, i: int) -> spec_fn(int) -> bool {
    |n: int| doc[n].is_element && doc[n].parent == Some(i)
}

/// An element called `name` that stands directly in node `i`.
pub open spec fn child_called(doc: Seq<XmlNodeView>, i: int, name: Seq<char>) -> spec_fn(
    int,
) -> bool {
    |n: int| doc[n].is_element && doc[n].parent == Some(i) && doc[n].name == name
}

/// The number that an attribute holds, if it is there and is one.
pub open spec fn number_in(node: XmlNodeView, key: Seq<char>) -> Option<u32> {
    match attr_value(node.attributes, key) {
        Some(text) => small_numeral(text),
        None => None,
    }
}

proof fn chosen_first(
    doc: Seq<XmlNodeView>,
    rest: Seq<int>,
    chosen: spec_fn(int) -> bool,
    j: int,
)
    requires
        0 <= j < doc.len(),
        lists_chosen(doc, rest, chosen, j + 1),
    ensures
        chosen(j) ==> lists_chosen(doc, seq![j] + rest, chosen, j),
        !chosen(j) ==> lists_chosen(doc, rest, chosen, j),
{
    if chosen(j) {
        let places = seq![j] + rest;
        assert forall|k: int| 0 <= k < places.len() implies j <= #[trigger] places[k] < doc.len()
            && chosen(places[k]) by {
            if k > 0 {
                assert(places[k] == rest[k - 1]);
            }
        }
        assert forall|a: int, b: int| 0 <= a < b < places.len() implies places[a] < places[b] by {
            assert(places[b] == rest[b - 1]);
            if a > 0 {
                assert(places[a] == rest[a - 1]);
            }
        }
        assert forall|n: int| j <= n < doc.len() && #[trigger] chosen(n) implies places.contains(
            n,
        ) by {
            if n == j {
                assert(places[0] == n);
            } else {
                assert(rest.contains(n));
                let k = choose|k: int| 0 <= k < rest.len() && rest[k] == n;
                assert(places[k + 1] == n);
            }
        }
    } else {
        assert forall|n: int| j <= n < doc.len() && #[trigger] chosen(n) implies rest.contains(
            n,
        ) by {
            assert(n != j);
        }
    }
}

proof fn tree_first(
    doc: Seq<XmlNodeView>,
    rest: Seq<NodeView>,
    chosen: spec_fn(int) -> bool,
    j: int,
    g: spec_fn(Seq<char>) -> Option<Coord>,
)
    requires
        0 <= j < doc.len(),
        lists_trees(doc, rest, chosen, j + 1, g),
    ensures
        lists_trees(doc, one_if(chosen(j), node_tree(doc, j, g)) + rest, chosen, j, g),
{
    let own = having_tree(doc, chosen, g);
    let places = choose|places: Seq<int>|
        {
            &&& #[trigger] lists_chosen(doc, places, own, j + 1)
            &&& places.len() == rest.len()
            &&& forall|k: int|
                0 <= k < rest.len() ==> node_tree(doc, places[k], g) == Some(#[trigger] rest[k])
        };
    chosen_first(doc, places, own, j);
    let one = one_if(chosen(j), node_tree(doc, j, g));
    let list = one + rest;
    if own(j) {
        let more = seq![j] + places;
        assert(lists_chosen(doc, more, own, j));
        assert forall|k: int| 0 <= k < list.len() implies node_tree(doc, more[k], g) == Some(
            #[trigger] list[k],
        ) by {
            if k > 0 {
                assert(more[k] == places[k - 1] && list[k] == rest[k - 1]);
            }
        }
    } else {
        assert(list =~= rest);
        assert(lists_chosen(doc, places, own, j));
    }
}

proof fn no_trees(
    doc: Seq<XmlNodeView>,
    chosen: spec_fn(int) -> bool,
    j: int,
    g: spec_fn(Seq<char>) -> Option<Coord>,
)
    requires
        j >= doc.len(),
    ensures
        lists_trees(doc, Seq::empty(), chosen, j, g),
{
    let own = having_tree(doc, chosen, g);
    assert(lists_chosen(doc, Seq::<int>::empty(), own, j));
}

/// The trees in a node are those of the elements that stand directly in it, of every one that
/// has a tree, in document order.
pub proof fn children_are_complete(
    doc: Seq<XmlNodeView>,
    i: int,
    j: int,
    g: spec_fn(Seq<char>) -> Option<Coord>,
)
    requires
        0 <= j,
    ensures
        lists_trees(doc, node_trees(doc, i, j, g), child_of(doc, i), j, g),
    decreases doc.len() - j,
{
    if j >= doc.len() {
        no_trees(doc, child_of(doc, i), j, g);
    } else {
        children_are_complete(doc, i, j + 1, g);
        tree_first(doc, node_trees(doc, i, j + 1, g), child_of(doc, i), j, g);
    }
}

/// An element has a tree exactly where it has readable bounds. The tree has those bounds, the
/// element's attributes and the label that they make. Its children are the trees of the
/// elements that stand directly in it, of every one that has readable bounds, and no others, in
/// document order.
pub proof fn elements_become_nodes(
    doc: Seq<XmlNodeView>,
    i: int,
    g: spec_fn(Seq<char>) -> Option<Coord>,
)
    requires
        0 <= i < doc.len(),
    ensures
        match attr_value(doc[i].attributes, "bounds"@) {
            None => node_tree(doc, i, g) is None,
            Some(text) => match bounds_of(text, g) {
                None => node_tree(doc, i, g) is None,
                Some(bounds) => {
                    &&& node_tree(doc, i, g) is Some
                    &&& node_tree(doc, i, g)->0.bounds == bounds
                    &&& node_tree(doc, i, g)->0.attrs == doc[i].attributes
                    &&& node_tree(doc, i, g)->0.label == label_of(doc[i].attributes)
                    &&& lists_trees(
                        doc,
                        node_tree(doc, i, g)->0.children,
                        child_of(doc, i),
                        i + 1,
                        g,
                    )
                },
            },
        },
{
    children_are_complete(doc, i, i + 1, g);
}

/// An element with readable bounds that stands directly in another with readable bounds is
/// among the children of that one's tree.
pub proof fn no_child_is_lost(
    doc: Seq<XmlNodeView>,
    i: int,
    j: int,
    g: spec_fn(Seq<char>) -> Option<Coord>,
)
    requires
        0 <= i < j < doc.len(),
        doc[j].is_element && doc[j].parent == Some(i),
        attr_value(doc[i].attributes, "bounds"@) matches Some(t) && bounds_of(t, g) is Some,
        attr_value(doc[j].attributes, "bounds"@) matches Some(t) && bounds_of(t, g) is Some,
    ensures
        node_tree(doc, j, g) is Some,
        node_tree(doc, i, g) matches Some(tree) && tree.children.contains(
            node_tree(doc, j, g)->0,
        ),
{
    elements_become_nodes(doc, i, g);
    elements_become_nodes(doc, j, g);
    let chosen = child_of(doc, i);
    let own = having_tree(doc, chosen, g);
    let list = node_tree(doc, i, g)->0.children;
    let places = choose|places: Seq<int>|
        {
            &&& #[trigger] lists_chosen(doc, places, own, i + 1)
            &&& places.len() == list.len()
            &&& forall|k: int|
                0 <= k < list.len() ==> node_tree(doc, places[k], g) == Some(#[trigger] list[k])
        };
    assert(own(j));
    let k = choose|k: int| 0 <= k < places.len() && places[k] == j;
    assert(node_tree(doc, places[k], g) == Some(list[k]));
    assert(list[k] == node_tree(doc, j, g)->0);
}

/// The root element is the first element that stands in the document itself.
pub proof fn root_is_the_first_element(doc: Seq<XmlNodeView>, j: int)
    requires
        0 <= j,
    ensures
        match first_element(doc, j) {
            Some(r) => {
                &&& j <= r < doc.len() && doc[r].is_element && doc[r].parent == Some(0int)
                &&& forall|n: int|
                    j <= n < r ==> !((#[trigger] doc[n]).is_element && doc[n].parent == Some(0int))
            },
            None => forall|n: int|
                j <= n < doc.len() ==> !((#[trigger] doc[n]).is_element && doc[n].parent == Some(
                    0int,
                )),
        },
        root_element(doc) == first_element(doc, 1),
    decreases doc.len() - j,
{
    if j < doc.len() && !element_in(doc, 0, j) {
        root_is_the_first_element(doc, j + 1);
    }
}

/// The first element of a name in a node is found.
pub proof fn first_named_is_first(doc: Seq<XmlNodeView>, i: int, j: int, name: Seq<char>)
    requires
        0 <= j,
    ensures
        match first_named(doc, i, j, name) {
            Some(r) => {
                &&& j <= r < doc.len() && child_called(doc, i, name)(r)
                &&& forall|n: int| j <= n < r ==> !#[trigger] child_called(doc, i, name)(n)
            },
            None => forall|n: int|
                j <= n < doc.len() ==> !#[trigger] child_called(doc, i, name)(n),
        },
    decreases doc.len() - j,
{
    if j < doc.len() && !named_in(doc, i, j, name) {
        first_named_is_first(doc, i, j + 1, name);
    }
}

/// The display of an id is the first `display` element whose `id` is that number.
pub proof fn display_goes_by_its_id(doc: Seq<XmlNodeView>, i: int, j: int, id: u32)
    requires
        0 <= j,
    ensures
        match display_with_id(doc, i, j, id) {
            Some(r) => {
                &&& j <= r < doc.len() && child_called(doc, i, "display"@)(r) && number_in(
                    doc[r],
                    "id"@,
                ) == Some(id)
                &&& forall|n: int|
                    j <= n < r ==> !(#[trigger] child_called(doc, i, "display"@)(n) && number_in(
                        doc[n],
                        "id"@,
                    ) == Some(id))
            },
            None => forall|n: int|
                j <= n < doc.len() ==> !(#[trigger] child_called(doc, i, "display"@)(n)
                    && number_in(doc[n], "id"@) == Some(id)),
        },
    decreases doc.len() - j,
{
    if j < doc.len() && !(named_in(doc, i, j, "display"@) && display_number(doc[j], "id"@) == Some(
        id,
    )) {
        display_goes_by_its_id(doc, i, j + 1, id);
    }
}

/// A plain hierarchy is the trees of all the elements that stand directly in it. A document
/// whose root element is called otherwise is none.
pub proof fn hierarchies_are_complete(
    doc: Seq<XmlNodeView>,
    g: spec_fn(Seq<char>) -> Option<Coord>,
)
    ensures
        match root_element(doc) {
            None => hierarchy_tree(doc, g) is None,
            Some(root) => {
                &&& doc[root].name != "hierarchy"@ ==> hierarchy_tree(doc, g) is None
                &&& doc[root].name == "hierarchy"@ ==> exists|list: Seq<NodeView>|
                    {
                        &&& #[trigger] merged(list) == hierarchy_tree(doc, g)
                        &&& lists_trees(doc, list, child_of(doc, root), root + 1, g)
                    }
            },
        },
{
    root_is_the_first_element(doc, 1);
    if let Some(root) = root_element(doc) {
        children_are_complete(doc, root, root + 1, g);
        assert(merged(node_trees(doc, root, root + 1, g)) == merged(
            node_trees(doc, root, root + 1, g),
        ));
    }
}

/// A `node` element in node `i` whose `display-id` is the given number, or that has no readable
/// one where the number is 0.
pub open spec fn node_of_display(doc: Seq<XmlNodeView>, i: int, id: u32) -> spec_fn(int) -> bool {
    |n: int|
        child_called(doc, i, "node"@)(n) && match number_in(doc[n], "display-id"@) {
            Some(own) => own == id,
            None => id == 0,
        }
}

/// The trees of a display in a plain hierarchy are those of the nodes that name it, and those of
/// the primary one also of the nodes that name none.
pub proof fn displays_of_nodes_are_complete(
    doc: Seq<XmlNodeView>,
    i: int,
    j: int,
    id: u32,
    g: spec_fn(Seq<char>) -> Option<Coord>,
)
    requires
        0 <= j,
    ensures
        lists_trees(doc, trees_on_display(doc, i, j, id, g), node_of_display(doc, i, id), j, g),
    decreases doc.len() - j,
{
    if j >= doc.len() {
        no_trees(doc, node_of_display(doc, i, id), j, g);
    } else {
        displays_of_nodes_are_complete(doc, i, j + 1, id, g);
        tree_first(
            doc,
            trees_on_display(doc, i, j + 1, id, g),
            node_of_display(doc, i, id),
            j,
            g,
        );
    }
}

/// A `window` element in node `i` that holds a `hierarchy`.
pub open spec fn window_of(doc: Seq<XmlNodeView>, i: int) -> spec_fn(int) -> bool {
    |n: int|
        child_called(doc, i, "window"@)(n) && exists|h: int|
            n < h < doc.len() && #[trigger] child_called(doc, n, "hierarchy"@)(h)
}

/// The trees in some nodes, one node after the other.
pub open spec fn trees_in_all(
    doc: Seq<XmlNodeView>,
    nodes: Seq<int>,
    g: spec_fn(Seq<char>) -> Option<Coord>,
) -> Seq<NodeView>
    decreases nodes.len(),
{
    if nodes.len() == 0 {
        Seq::empty()
    } else {
        node_trees(doc, nodes[0], nodes[0] + 1, g) + trees_in_all(doc, nodes.drop_first(), g)
    }
}

/// The windows, and the hierarchy in each of them, that hold the trees of a display.
pub open spec fn hold_trees(
    doc: Seq<XmlNodeView>,
    i: int,
    j: int,
    windows: Seq<int>,
    hierarchies: Seq<int>,
) -> bool {
    &&& lists_chosen(doc, windows, window_of(doc, i), j)
    &&& hierarchies.len() == windows.len()
    &&& forall|k: int|
        0 <= k < windows.len() ==> first_named(
            doc,
            windows[k],
            windows[k] + 1,
            "hierarchy"@,
        ) == Some(#[trigger] hierarchies[k])
}

/// The trees in the windows of a display are those in the first hierarchy of each window, of
/// every window that has one, window by window.
pub proof fn windows_are_complete(
    doc: Seq<XmlNodeView>,
    i: int,
    j: int,
    g: spec_fn(Seq<char>) -> Option<Coord>,
)
    requires
        0 <= j,
    ensures
        exists|windows: Seq<int>, hierarchies: Seq<int>|
            {
                &&& #[trigger] hold_trees(doc, i, j, windows, hierarchies)
                &&& window_trees(doc, i, j, g) == trees_in_all(doc, hierarchies, g)
            },
    decreases doc.len() - j,
{
    if j >= doc.len() {
        let none = Seq::<int>::empty();
        assert(hold_trees(doc, i, j, none, none));
        assert(window_trees(doc, i, j, g) =~= trees_in_all(doc, none, g));
    } else {
        windows_are_complete(doc, i, j + 1, g);
        let (windows, hierarchies) = choose|windows: Seq<int>, hierarchies: Seq<int>|
            {
                &&& #[trigger] hold_trees(doc, i, j + 1, windows, hierarchies)
                &&& window_trees(doc, i, j + 1, g) == trees_in_all(doc, hierarchies, g)
            };
        chosen_first(doc, windows, window_of(doc, i), j);
        first_named_is_first(doc, j, j + 1, "hierarchy"@);
        if window_of(doc, i)(j) {
            let h = first_named(doc, j, j + 1, "hierarchy"@)->0;
            let more = seq![j] + windows;
            let all = seq![h] + hierarchies;
            assert forall|k: int| 0 <= k < more.len() implies first_named(
                doc,
                more[k],
                more[k] + 1,
                "hierarchy"@,
            ) == Some(#[trigger] all[k]) by {
                if k > 0 {
                    assert(more[k] == windows[k - 1] && all[k] == hierarchies[k - 1]);
                }
            }
            assert(hold_trees(doc, i, j, more, all));
            assert(all.drop_first() =~= hierarchies);
            assert(window_trees(doc, i, j, g) =~= trees_in_all(doc, all, g));
        } else {
            if named_in(doc, i, j, "window"@) {
                if let Some(h) = first_named(doc, j, j + 1, "hierarchy"@) {
                    assert(child_called(doc, j, "hierarchy"@)(h));
                }
            }
            assert(one_window(doc, i, j, g) =~= Seq::<NodeView>::empty());
            assert(hold_trees(doc, i, j, windows, hierarchies));
            assert(window_trees(doc, i, j, g) =~= trees_in_all(doc, hierarchies, g));
        }
    }
}

/// The tree of a display joins the trees in its windows, and where it has no window those of
/// the elements that stand directly in it.
pub proof fn displays_prefer_windows(
    doc: Seq<XmlNodeView>,
    i: int,
    g: spec_fn(Seq<char>) -> Option<Coord>,
)
    requires
        0 <= i < doc.len(),
    ensures
        if exists|w: int| i < w < doc.len() && #[trigger] child_called(doc, i, "window"@)(w) {
            display_tree(doc, i, g) == merged(window_trees(doc, i, i + 1, g))
        } else {
            exists|list: Seq<NodeView>|
                {
                    &&& #[trigger] merged(list) == display_tree(doc, i, g)
                    &&& lists_trees(doc, list, child_of(doc, i), i + 1, g)
                }
        },
{
    first_named_is_first(doc, i, i + 1, "window"@);
    children_are_complete(doc, i, i + 1, g);
    let list = node_trees(doc, i, i + 1, g);
    if first_named(doc, i, i + 1, "window"@) is None {
        assert(merged(list) == display_tree(doc, i, g));
    }
}

/// Where to look for the tree of a display: in the `display` element with its id, which stands
/// in the root element `displays`, or in the first `displays` of a `hierarchy`, or else directly
/// in the `hierarchy`. A `hierarchy` without such an element is searched for the nodes that name
/// the display.
pub proof fn displays_are_looked_up(
    doc: Seq<XmlNodeView>,
    id: u32,
    g: spec_fn(Seq<char>) -> Option<Coord>,
    root: int,
)
    requires
        root_element(doc) == Some(root),
    ensures
        doc[root].name == "displays"@ ==> windows_tree(doc, id, g) == (match display_with_id(
            doc,
            root,
            root + 1,
            id,
        ) {
            Some(d) => display_tree(doc, d, g),
            None => None,
        }),
        doc[root].name == "hierarchy"@ ==> {
            let inner = first_named(doc, root, root + 1, "displays"@);
            let wrapped = match inner {
                Some(w) => display_with_id(doc, w, w + 1, id),
                None => None,
            };
            let direct = display_with_id(doc, root, root + 1, id);
            &&& wrapped matches Some(d) ==> windows_tree(doc, id, g) == display_tree(doc, d, g)
            &&& wrapped is None && direct is Some ==> windows_tree(doc, id, g) == display_tree(
                doc,
                direct->0,
                g,
            )
            &&& wrapped is None && direct is None ==> windows_tree(doc, id, g) == merged(
                trees_on_display(doc, root, root + 1, id, g),
            )
        },
        doc[root].name != "displays"@ && doc[root].name != "hierarchy"@ ==> windows_tree(doc, id, g)
            is None,
{
    reveal_strlit("displays");
    reveal_strlit("hierarchy");
    assert("displays"@.len() != "hierarchy"@.len());
}

/// A `display` element in node `i` with a readable id.
pub open spec fn display_in(doc: Seq<XmlNodeView>, i: int) -> spec_fn(int) -> bool {
    |n: int| child_called(doc, i, "display"@)(n) && number_in(doc[n], "id"@) is Some
}

/// The ids that the `display` elements of a node name are listed in document order, every
/// readable one.
pub proof fn display_ids_are_complete(doc: Seq<XmlNodeView>, i: int, j: int)
    requires
        0 <= j,
    ensures
        exists|places: Seq<int>|
            {
                &&& #[trigger] lists_chosen(doc, places, display_in(doc, i), j)
                &&& places.len() == display_ids(doc, i, j).len()
                &&& forall|k: int|
                    0 <= k < places.len() ==> number_in(doc[places[k]], "id"@) == Some(
                        #[trigger] display_ids(doc, i, j)[k],
                    )
            },
    decreases doc.len() - j,
{
    let own = display_in(doc, i);
    if j >= doc.len() {
        assert(lists_chosen(doc, Seq::<int>::empty(), own, j));
    } else {
        display_ids_are_complete(doc, i, j + 1);
        let rest = display_ids(doc, i, j + 1);
        let places = choose|places: Seq<int>|
            {
                &&& #[trigger] lists_chosen(doc, places, own, j + 1)
                &&& places.len() == rest.len()
                &&& forall|k: int|
                    0 <= k < places.len() ==> number_in(doc[places[k]], "id"@) == Some(
                        #[trigger] rest[k],
                    )
            };
        chosen_first(doc, places, own, j);
        let list = display_ids(doc, i, j);
        if own(j) {
            let more = seq![j] + places;
            assert(lists_chosen(doc, more, own, j));
            assert forall|k: int| 0 <= k < more.len() implies number_in(doc[more[k]], "id"@) == Some(
                #[trigger] list[k],
            ) by {
                if k > 0 {
                    assert(more[k] == places[k - 1] && list[k] == rest[k - 1]);
                }
            }
        } else {
            assert(list =~= rest);
            assert(lists_chosen(doc, places, own, j));
        }
    }
}

/// The displays that the `node` elements of a node name are listed: each node's own, or the
/// primary one.
pub proof fn node_displays_are_complete(doc: Seq<XmlNodeView>, i: int, j: int, id: u32)
    requires
        0 <= j,
    ensures
        node_displays(doc, i, j).contains(id) <==> exists|n: int|
            j <= n < doc.len() && #[trigger] node_of_display(doc, i, id)(n),
    decreases doc.len() - j,
{
    if j < doc.len() {
        node_displays_are_complete(doc, i, j + 1, id);
        let rest = node_displays(doc, i, j + 1);
        let list = node_displays(doc, i, j);
        if named_in(doc, i, j, "node"@) {
            if rest.contains(id) {
                let k = choose|k: int| 0 <= k < rest.len() && rest[k] == id;
                assert(list[k + 1] == id);
            }
            if list.contains(id) {
                let k = choose|k: int| 0 <= k < list.len() && list[k] == id;
                if k > 0 {
                    assert(rest[k - 1] == id);
                } else {
                    assert(node_of_display(doc, i, id)(j));
                }
            }
            if node_of_display(doc, i, id)(j) {
                assert(list[0] == id);
            }
        } else {
            assert(!node_of_display(doc, i, id)(j));
        }
    }
}

/// The displays of a document are those that the `display` elements of the root `displays` name,
/// or those of the first `displays` in a `hierarchy`, or else those directly in the `hierarchy`.
/// Where there are none the nodes of the `hierarchy` tell, each display once and in order.
pub proof fn displays_are_found_where_they_are_named(doc: Seq<XmlNodeView>, root: int)
    requires
        root_element(doc) == Some(root),
    ensures
        doc[root].name == "displays"@ ==> displays_of(doc) == display_ids(doc, root, root + 1),
        doc[root].name == "hierarchy"@ ==> {
            let inner = first_named(doc, root, root + 1, "displays"@);
            let wrapped = match inner {
                Some(w) => display_ids(doc, w, w + 1),
                None => Seq::empty(),
            };
            let direct = display_ids(doc, root, root + 1);
            &&& wrapped.len() > 0 ==> displays_of(doc) == wrapped
            &&& wrapped.len() == 0 && direct.len() > 0 ==> displays_of(doc) == direct
            &&& wrapped.len() == 0 && direct.len() == 0 ==> sorted_once(
                node_displays(doc, root, root + 1),
                displays_of(doc),
            )
        },
        doc[root].name != "displays"@ && doc[root].name != "hierarchy"@ ==> displays_of(doc).len()
            == 0,
{
    reveal_strlit("displays");
    reveal_strlit("hierarchy");
    assert("displays"@.len() != "hierarchy"@.len());
    in_order_sorts(node_displays(doc, root, root + 1));
}

/// The display that was shown stays if the new text has it, and else its first one is shown. The
/// text is kept for other displays only where it has displays.
pub proof fn shown_display_is_kept(
    doc: Option<Seq<XmlNodeView>>,
    text: Seq<char>,
    current: u32,
    g: spec_fn(Seq<char>) -> Option<Coord>,
)
    ensures
        ({
            let c = content_of(doc, text, current, g);
            let listed = match doc {
                Some(d) => displays_of(d),
                None => Seq::empty(),
            };
            &&& c.displays == listed
            &&& c.parsed_tree_display_id == c.tree_display_id
            &&& listed.contains(current) || listed.len() == 0 ==> c.tree_display_id == current
            &&& listed.len() > 0 && !listed.contains(current) ==> c.tree_display_id == listed[0]
            &&& listed.len() > 0 ==> c.content == Some(text)
            &&& listed.len() == 0 ==> c.content is None
            &&& doc is None ==> c.root is None
            &&& doc matches Some(d) ==> c.root == (if listed.len() > 0 {
                windows_tree(d, c.tree_display_id, g)
            } else {
                hierarchy_tree(d, g)
            })
        }),
{
    if text_displays(doc).contains(current) {
        assert(text_displays(doc).len() > 0);
    }
}

} // verus!

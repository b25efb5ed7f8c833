use uiviewer::geometry::{Coord, Pos, Rect};
use uiviewer::tree::UiNode;
use uiviewer::viewer::App;
use uiviewer::xml::{
    document_display_ids, get_display_ids_from_xml, parse_content, parse_hierarchy, parse_node,
    parse_windows_document, parse_windows_xml, parse_xml, pick_display, XmlNode,
};

fn at(f: f32) -> Coord {
    Coord::from_bits(f.to_bits())
}

fn rect(x1: f32, y1: f32, x2: f32, y2: f32) -> Rect {
    Rect { min: Pos { x: at(x1), y: at(y1) }, max: Pos { x: at(x2), y: at(y2) } }
}

fn read(s: &str) -> Option<Coord> {
    s.parse::<f32>().ok().map(at)
}

fn texts(node: &UiNode) -> Vec<String> {
    node.children
        .iter()
        .map(|c| c.attrs.iter().find(|(k, _)| k == "text").unwrap().1.clone())
        .collect()
}

const PLAIN: &str = "<?xml version='1.0'?><hierarchy rotation=\"0\">\n  \
    <node text=\"a\" class=\"x.y.Text\" bounds=\"[0,0][100,200]\">\n    \
    <node text=\"b\" bounds=\"[1,2][3,4]\"/>\n    <node text=\"no bounds\">\
    <node text=\"lost\" bounds=\"[0,0][1,1]\"/></node>\n  </node>\n</hierarchy>";

#[test]
fn plain_hierarchy_becomes_a_tree() {
    let tree = parse_xml(PLAIN, &read).unwrap();
    assert_eq!(tree.bounds, rect(0.0, 0.0, 100.0, 200.0));
    assert_eq!(tree.label, "Text \"a\"");
    assert_eq!(
        tree.attrs,
        vec![
            ("text".to_string(), "a".to_string()),
            ("class".to_string(), "x.y.Text".to_string()),
            ("bounds".to_string(), "[0,0][100,200]".to_string()),
        ]
    );
    assert_eq!(tree.children.len(), 1);
    assert_eq!(tree.children[0].bounds, rect(1.0, 2.0, 3.0, 4.0));
    assert_eq!(tree.children[0].label, "? \"b\"");
}

#[test]
fn attributes_go_by_their_local_names() {
    let text = "<hierarchy xmlns:x='urn:x'><node x:bounds='[0,0][1,2]' bounds='[0,0][3,4]' \
        x:text='a'/></hierarchy>";
    let doc = roxmltree::Document::parse(text).unwrap();
    let node = doc.root_element().first_element_child().unwrap();
    assert_eq!(node.attribute("bounds"), Some("[0,0][1,2]"));
    assert_eq!(node.attribute("text"), Some("a"));
    let tree = parse_xml(text, &read).unwrap();
    assert_eq!(tree.bounds, rect(0.0, 0.0, 1.0, 2.0));
    assert_eq!(tree.label, "? \"a\"");
}

#[test]
fn several_roots_are_merged() {
    let tree = parse_xml(
        "<hierarchy><node text='a' bounds='[0,5][10,20]'/><node text='b' bounds='[-4,7][8,30]'/></hierarchy>",
        &read,
    )
    .unwrap();
    assert_eq!(tree.bounds, rect(-4.0, 5.0, 10.0, 30.0));
    assert_eq!(tree.label, "FrameLayout");
    assert_eq!(texts(&tree), vec!["a", "b"]);
}

#[test]
fn no_tree_without_a_hierarchy() {
    assert!(parse_xml("<node bounds='[0,0][1,1]'/>", &read).is_none());
    assert!(parse_xml("<hierarchy/>", &read).is_none());
    assert!(parse_xml("not xml", &read).is_none());
    assert!(parse_xml("<hierarchy><node bounds='[0,0]'/></hierarchy>", &read).is_none());
}

const DISPLAYS: &str = "<displays>\
    <display id='0'><window><hierarchy><node text='a' bounds='[0,0][1,1]'/></hierarchy></window>\
    <window><title/><hierarchy><node text='b' bounds='[0,0][2,2]'/><node text='c' bounds='[0,0][3,3]'/></hierarchy>\
    <hierarchy><node text='second' bounds='[0,0][9,9]'/></hierarchy></window></display>\
    <display id='x'/><display><node bounds='[0,0][1,1]'/></display>\
    <display id='2'><node text='d' bounds='[0,0][4,4]'/><node text='e' bounds='[0,0][5,5]'/></display>\
    </displays>";

#[test]
fn displays_are_told_apart_by_id() {
    assert_eq!(get_display_ids_from_xml(DISPLAYS), vec![0, 2]);
    let first = parse_windows_xml(DISPLAYS, 0, &read).unwrap();
    assert_eq!(texts(&first), vec!["a", "b", "c"]);
    let second = parse_windows_xml(DISPLAYS, 2, &read).unwrap();
    assert_eq!(texts(&second), vec!["d", "e"]);
    assert!(parse_windows_xml(DISPLAYS, 1, &read).is_none());
}

#[test]
fn displays_may_stand_in_a_hierarchy() {
    let wrapped = "<hierarchy><displays><display id='3'><node text='w' bounds='[0,0][1,1]'/>\
        <node text='v' bounds='[0,0][1,1]'/></display></displays></hierarchy>";
    assert_eq!(get_display_ids_from_xml(wrapped), vec![3]);
    assert_eq!(texts(&parse_windows_xml(wrapped, 3, &read).unwrap()), vec!["w", "v"]);
    let direct = "<hierarchy><display id='5'><node text='n' bounds='[0,0][1,1]'/>\
        <node text='m' bounds='[0,0][1,1]'/></display><display id='4'/></hierarchy>";
    assert_eq!(get_display_ids_from_xml(direct), vec![5, 4]);
    assert_eq!(texts(&parse_windows_xml(direct, 5, &read).unwrap()), vec!["n", "m"]);
    assert!(parse_windows_xml(direct, 4, &read).is_none());
}

const TAGGED: &str = "<hierarchy><node text='p' display-id='2' bounds='[0,0][1,1]'/>\
    <node text='q' bounds='[0,0][1,1]'/><node text='r' display-id='2' bounds='[0,0][1,1]'/>\
    <node text='s' display-id='x' bounds='[0,0][1,1]'/><other text='t' display-id='2' bounds='[0,0][1,1]'/></hierarchy>";

#[test]
fn top_nodes_may_name_their_display() {
    assert_eq!(get_display_ids_from_xml(TAGGED), vec![0, 2]);
    assert_eq!(texts(&parse_windows_xml(TAGGED, 2, &read).unwrap()), vec!["p", "r"]);
    assert_eq!(texts(&parse_windows_xml(TAGGED, 0, &read).unwrap()), vec!["q", "s"]);
    assert!(parse_windows_xml(TAGGED, 1, &read).is_none());
}

#[test]
fn no_displays_in_other_documents() {
    assert_eq!(get_display_ids_from_xml("<x><display id='1'/></x>"), Vec::<u32>::new());
    assert_eq!(get_display_ids_from_xml("<hierarchy/>"), Vec::<u32>::new());
    assert_eq!(get_display_ids_from_xml("no xml"), Vec::<u32>::new());
    assert!(parse_windows_xml("<x/>", 0, &read).is_none());
    assert!(parse_windows_xml("<", 0, &read).is_none());
}

#[test]
fn content_keeps_the_display_if_it_is_there() {
    let c = App::parse_xml_content(TAGGED, 2, &read);
    assert_eq!(c.displays, vec![0, 2]);
    assert_eq!(c.content.as_deref(), Some(TAGGED));
    assert_eq!((c.tree_display_id, c.parsed_tree_display_id), (2, 2));
    assert_eq!(texts(&c.root.unwrap()), vec!["p", "r"]);
    let c = App::parse_xml_content(TAGGED, 7, &read);
    assert_eq!((c.tree_display_id, c.parsed_tree_display_id), (0, 0));
    assert_eq!(texts(&c.root.unwrap()), vec!["q", "s"]);
}

#[test]
fn content_without_displays_keeps_the_number() {
    let c = parse_content("<hierarchy/>", 4, &read);
    assert!(c.displays.is_empty());
    assert_eq!(c.content, None);
    assert_eq!((c.tree_display_id, c.parsed_tree_display_id), (4, 4));
    assert!(c.root.is_none());
}

fn element(parent: usize, name: &str, attributes: &[(&str, &str)]) -> XmlNode {
    XmlNode {
        parent: Some(parent),
        is_element: true,
        name: name.to_string(),
        attributes: attributes.iter().map(|(k, v)| (k.to_string(), v.to_string())).collect(),
    }
}

fn document() -> XmlNode {
    XmlNode { parent: None, is_element: false, name: String::new(), attributes: Vec::new() }
}

#[test]
fn a_listed_document_becomes_a_tree() {
    let text = XmlNode {
        parent: Some(1),
        is_element: false,
        name: String::new(),
        attributes: vec![("bounds".into(), "[0,0][1,1]".into())],
    };
    let doc = vec![
        document(),
        element(0, "hierarchy", &[]),
        text,
        element(1, "node", &[("bounds", "[0,0][9,9]"), ("text", "top")]),
        element(3, "node", &[("text", "inner"), ("bounds", "[1,1][2,2]")]),
        element(3, "node", &[("bounds", "oops")]),
    ];
    let tree = parse_hierarchy(&doc, &read).unwrap();
    assert_eq!(tree.label, "? \"top\"");
    assert_eq!(texts(&tree), vec!["inner"]);
    assert!(parse_node(&doc, 5, &read).is_none());
    assert_eq!(parse_node(&doc, 4, &read).unwrap().bounds, rect(1.0, 1.0, 2.0, 2.0));
    assert_eq!(document_display_ids(&doc), vec![0]);
    assert_eq!(parse_windows_document(&doc, 0, &read).unwrap().label, "? \"top\"");
    assert!(parse_hierarchy(&vec![document()], &read).is_none());
    assert!(parse_hierarchy(&vec![], &read).is_none());
}

#[test]
fn the_first_display_is_shown_if_the_current_is_gone() {
    assert_eq!(pick_display(&vec![3, 1], 1), 1);
    assert_eq!(pick_display(&vec![3, 1], 2), 3);
}

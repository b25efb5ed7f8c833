use uiviewer::geometry::{Coord, Pos, Rect};
use uiviewer::icon::{export_icon_name, name_char};
use uiviewer::tree::UiNode;
use uiviewer::xml::parse_xml;
use uiviewer::xpath::{
    build_xpath_str, count_matches, generate_xpath, join_texts, node_attr, node_matches_attrs,
    xpath_escaped_for_code, xpath_literal,
};

fn at(f: f32) -> Coord {
    Coord::from_bits(f.to_bits())
}

fn rect(x1: f32, y1: f32, x2: f32, y2: f32) -> Rect {
    Rect { min: Pos { x: at(x1), y: at(y1) }, max: Pos { x: at(x2), y: at(y2) } }
}

fn read(s: &str) -> Option<Coord> {
    s.parse::<f32>().ok().map(at)
}

fn node(attrs: &[(&str, &str)]) -> UiNode {
    UiNode {
        bounds: rect(0.0, 0.0, 10.0, 10.0),
        attrs: attrs.iter().map(|(k, v)| (k.to_string(), v.to_string())).collect(),
        children: Vec::new(),
        label: String::new(),
    }
}

fn root_with(children: Vec<UiNode>) -> UiNode {
    UiNode {
        bounds: rect(0.0, 0.0, 100.0, 100.0),
        attrs: vec![("class".into(), "android.widget.FrameLayout".into())],
        children,
        label: String::new(),
    }
}

#[test]
fn unique_text_yields_text_xpath() {
    let n = node(&[("class", "android.widget.TextView"), ("text", "设置")]);
    let xp = generate_xpath(&n, &n).unwrap();
    assert_eq!(xp, "//*[@text='设置']");
}

#[test]
fn duplicated_text_falls_back_to_unique_rid() {
    let target = node(&[
        ("class", "android.widget.TextView"),
        ("text", "设置"),
        ("resource-id", "com.x:id/title1"),
    ]);
    let other = node(&[
        ("class", "android.widget.TextView"),
        ("text", "设置"),
        ("resource-id", "com.x:id/title2"),
    ]);
    let root = root_with(vec![target.clone(), other]);
    assert_eq!(
        generate_xpath(&target, &root).unwrap(),
        "//*[@resource-id='com.x:id/title1']"
    );
}

#[test]
fn state_predicates_disambiguate_identical_rows() {
    let on = node(&[
        ("class", "android.widget.CheckBox"),
        ("text", "允许"),
        ("checked", "true"),
    ]);
    let off = node(&[
        ("class", "android.widget.CheckBox"),
        ("text", "允许"),
        ("checked", "false"),
    ]);
    let root = root_with(vec![on, off.clone()]);
    assert_eq!(
        generate_xpath(&off, &root).unwrap(),
        "//*[@text='允许'][@checked='false']"
    );
}

#[test]
fn not_unique_yields_none() {
    let dup = node(&[("class", "android.widget.TextView"), ("text", "设置")]);
    let root = root_with(vec![dup.clone(), dup]);
    assert_eq!(generate_xpath(&root.children[0], &root), None);
}

#[test]
fn xpath_escaped_for_code_escapes_control_chars_and_quotes() {
    assert_eq!(
        xpath_escaped_for_code("//*[@text='a\nb\tc\rd']"),
        "//*[@text='a\\nb\\tc\\rd']"
    );
    assert_eq!(
        xpath_escaped_for_code("//*[@text=\"it's\"]"),
        "//*[@text=\\\"it's\\\"]"
    );
    assert_eq!(
        xpath_escaped_for_code("//*[@text='a\"b\\c']"),
        "//*[@text='a\\\"b\\\\c']"
    );
}

#[test]
fn attribute_values_follow_xml_normalization() {
    let tree = parse_xml(
        "<hierarchy><node bounds=\"[0,0][1,1]\" text=\"line1\nline2\" a=\"x&#10;y\" b=\"a&#9;b\" c=\"x\n\ty\"/></hierarchy>",
        &read,
    )
    .unwrap();
    assert_eq!(node_attr(&tree, "text"), Some("line1 line2"));
    assert_eq!(node_attr(&tree, "a"), Some("x\ny"));
    assert_eq!(node_attr(&tree, "b"), Some("a\tb"));
    assert_eq!(node_attr(&tree, "c"), Some("x  y"));
}

#[test]
fn newline_in_text_is_faithfully_included() {
    let n = node(&[("class", "android.widget.TextView"), ("text", "line1\nline2")]);
    let xp = generate_xpath(&n, &n).unwrap();
    assert_eq!(xp, "//*[@text='line1\nline2']");
}

#[test]
fn quote_in_text_uses_double_quote_delimiter() {
    let n = node(&[("class", "android.widget.TextView"), ("text", "it's")]);
    assert_eq!(generate_xpath(&n, &n).unwrap(), "//*[@text=\"it's\"]");
}

#[test]
fn mixed_quotes_use_concat() {
    let n = node(&[("class", "android.widget.TextView"), ("text", "a'b\"c")]);
    assert_eq!(
        generate_xpath(&n, &n).unwrap(),
        "//*[@text=concat('a', \"'\", 'b\"c')]"
    );
}

#[test]
fn literal_puts_quotes_at_both_ends_together() {
    assert_eq!(xpath_literal(""), "''");
    assert_eq!(xpath_literal("plain"), "'plain'");
    assert_eq!(xpath_literal("say \"hi\""), "'say \"hi\"'");
    assert_eq!(xpath_literal("'\""), "concat(\"'\", '\"')");
    assert_eq!(xpath_literal("''\"'"), "concat(\"'\", \"'\", '\"', \"'\")");
}

#[test]
fn xpath_lists_predicates_in_order() {
    assert_eq!(build_xpath_str(&[]), "//*");
    assert_eq!(
        build_xpath_str(&[("class", "a.B"), ("text", "it's")]),
        "//*[@class='a.B'][@text=\"it's\"]"
    );
}

#[test]
fn matches_are_counted_up_to_two() {
    let a = node(&[("text", "x")]);
    let root = root_with(vec![a.clone(), root_with(vec![a.clone(), a.clone()])]);
    assert_eq!(count_matches(&root, &[("text", "x")]), 2);
    assert_eq!(count_matches(&a, &[("text", "x")]), 1);
    assert_eq!(count_matches(&root, &[("text", "y")]), 0);
    assert_eq!(count_matches(&a, &[]), 1);
}

#[test]
fn every_pair_has_to_match() {
    let n = node(&[("text", "x"), ("class", "c")]);
    assert!(node_matches_attrs(&n, &[("text", "x"), ("class", "c")]));
    assert!(!node_matches_attrs(&n, &[("text", "x"), ("class", "d")]));
    assert!(!node_matches_attrs(&n, &[("x", "text")]));
}

#[test]
fn placeholders_are_no_values() {
    let n = node(&[("text", ""), ("resource-id", "null"), ("class", "c")]);
    assert_eq!(node_attr(&n, "text"), None);
    assert_eq!(node_attr(&n, "resource-id"), None);
    assert_eq!(node_attr(&n, "class"), Some("c"));
    assert_eq!(node_attr(&n, "missing"), None);
}

#[test]
fn class_alone_is_used_only_with_state() {
    let plain = node(&[("class", "c")]);
    assert_eq!(generate_xpath(&plain, &plain), None);
    let checked = node(&[("class", "c"), ("checked", "true"), ("selected", "false")]);
    assert_eq!(
        generate_xpath(&checked, &checked).unwrap(),
        "//*[@class='c'][@checked='true'][@selected='false']"
    );
}

#[test]
fn pairs_are_tried_before_triples() {
    let target = node(&[("class", "c"), ("text", "t"), ("resource-id", "r"), ("content-desc", "d")]);
    let text = node(&[("text", "t"), ("class", "c")]);
    let id = node(&[("resource-id", "r"), ("content-desc", "d")]);
    let root = root_with(vec![target.clone(), text, id]);
    assert_eq!(
        generate_xpath(&target, &root).unwrap(),
        "//*[@resource-id='r'][@text='t']"
    );
}

#[test]
fn all_three_are_tried_last() {
    let target = node(&[("class", "c"), ("resource-id", "r"), ("content-desc", "d")]);
    let a = node(&[("class", "c"), ("resource-id", "r")]);
    let b = node(&[("resource-id", "r"), ("content-desc", "d")]);
    let root = root_with(vec![target.clone(), a, b]);
    assert_eq!(
        generate_xpath(&target, &root).unwrap(),
        "//*[@class='c'][@resource-id='r'][@content-desc='d']"
    );
}

#[test]
fn generated_xpath_matches_only_the_node() {
    let target = node(&[("text", "one")]);
    let other = node(&[("text", "two")]);
    let root = root_with(vec![other, target.clone()]);
    assert_eq!(generate_xpath(&target, &root).unwrap(), "//*[@text='one']");
    assert_eq!(count_matches(&root, &[("text", "one")]), 1);
    assert!(node_matches_attrs(&target, &[("text", "one")]));
}

#[test]
fn texts_are_joined() {
    assert_eq!(join_texts(&vec![], ", "), "");
    assert_eq!(join_texts(&vec!["a".into()], ", "), "a");
    assert_eq!(join_texts(&vec!["a".into(), "".into(), "b".into()], ", "), "a, , b");
}

#[test]
fn icon_is_named_after_the_resource_id() {
    let n = node(&[("resource-id", "com.x:id/my icon"), ("class", "a.B")]);
    assert_eq!(export_icon_name(&n), "my_icon.png");
    let n = node(&[("resource-id", "null"), ("class", "android.widget.Image-View_1")]);
    assert_eq!(export_icon_name(&n), "Image_View_1.png");
    let n = node(&[("resource-id", "com.x:id/"), ("class", "android.widget.按钮$A")]);
    assert_eq!(export_icon_name(&n), "按钮_A.png");
    let n = node(&[("class", "a.")]);
    assert_eq!(export_icon_name(&n), "icon.png");
    let n = node(&[]);
    assert_eq!(export_icon_name(&n), "icon.png");
    let n = node(&[("resource-id", "com.x:id/btn-ok")]);
    assert_eq!(export_icon_name(&n), "btn_ok.png");
    let n = node(&[("resource-id", "com.x:id/-")]);
    assert_eq!(export_icon_name(&n), "_.png");
}

#[test]
fn only_plain_characters_stay_in_names() {
    assert_eq!(name_char('a', true), 'a');
    assert_eq!(name_char('-', false), '_');
    assert_eq!(name_char('_', false), '_');
    assert_eq!(name_char('/', false), '_');
}

#[test]
fn escaped_quotes_end_no_literal() {
    for raw in ["\"", "\\\"", "a\\\\\"b", "\\", "\\\\", "x\\n\""] {
        let escaped: Vec<char> = xpath_escaped_for_code(raw).chars().collect();
        let run = |end: usize| escaped[..end].iter().rev().take_while(|c| **c == '\\').count();
        for (i, c) in escaped.iter().enumerate() {
            assert!(*c != '"' || run(i) % 2 == 1);
        }
        assert_eq!(run(escaped.len()) % 2, 0);
    }
}

#[test]
fn escaping_is_undone_by_the_host_language() {
    let raw = "//*[@text='a\nb\\n\"\t\r']";
    let escaped = xpath_escaped_for_code(raw);
    assert!(!escaped.contains('\n') && !escaped.contains('\t') && !escaped.contains('\r'));
    let mut back = String::new();
    let mut chars = escaped.chars();
    while let Some(c) = chars.next() {
        if c == '\\' {
            match chars.next() {
                Some('n') => back.push('\n'),
                Some('r') => back.push('\r'),
                Some('t') => back.push('\t'),
                Some(other) => back.push(other),
                None => {}
            }
        } else {
            back.push(c);
        }
    }
    assert_eq!(back, raw);
}

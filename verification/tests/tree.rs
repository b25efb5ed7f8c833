use uiviewer::bytes::{find_subslice, fnv1a_hash};
use uiviewer::geometry::{crop_region, parse_bounds, pixel_rgb, Coord, Pos, Rect, Region};
use uiviewer::numerals::{decimal_of, parse_small, parse_unsigned, sort_dedup, Fault};
use uiviewer::text::{chars_of, find_text, split_lines, split_text, split_words, string_of, trim};
use uiviewer::tree::{build_label, merge_nodes, UiNode};

fn at(f: f32) -> Coord {
    Coord::from_bits(f.to_bits())
}

fn pos(x: f32, y: f32) -> Pos {
    Pos { x: at(x), y: at(y) }
}

fn rect(x1: f32, y1: f32, x2: f32, y2: f32) -> Rect {
    Rect { min: pos(x1, y1), max: pos(x2, y2) }
}

fn read(s: &str) -> Option<Coord> {
    s.parse::<f32>().ok().map(at)
}

fn float(c: Coord) -> f32 {
    f32::from_bits(c.to_bits())
}

fn area(r: &Rect) -> Coord {
    let w = (float(r.max.x) - float(r.min.x)).max(0.0);
    let h = (float(r.max.y) - float(r.min.y)).max(0.0);
    at(w * h)
}

fn leaf(r: Rect) -> UiNode {
    UiNode { bounds: r, attrs: Vec::new(), children: Vec::new(), label: String::new() }
}

fn inner(r: Rect, children: Vec<UiNode>) -> UiNode {
    UiNode { bounds: r, attrs: Vec::new(), children, label: String::new() }
}

fn pairs(attrs: &[(&str, &str)]) -> Vec<(String, String)> {
    attrs.iter().map(|(k, v)| (k.to_string(), v.to_string())).collect()
}

#[test]
fn coordinates_keep_their_value_and_order() {
    for f in [0.0f32, 1.0, -1.5, 1e30, f32::MAX, f32::INFINITY, f32::NEG_INFINITY, 1e-40] {
        assert_eq!(float(at(f)), f);
    }
    for f in [0.0f32, -0.0, -1e-45, 1e-45, f32::MIN, f32::NEG_INFINITY] {
        assert_eq!(float(at(f)).to_bits(), f.to_bits());
    }
    assert_eq!(format!("{:.0}", float(at(-0.0))), "-0");
    assert!(float(at(f32::NAN)).is_nan());
    assert!(at(-2.0).below(at(-1.0)));
    assert!(at(0.0).equals(at(-0.0)) && at(-0.0).equals(at(0.0)));
    assert!(at(0.0).at_most(at(-0.0)) && !at(-0.0).below(at(0.0)));
    assert!(at(-1e-45).below(at(-0.0)) && at(-0.0).below(at(1e-45)));
    assert!(rect(0.0, 0.0, 1.0, 1.0).contains(pos(-0.0, -0.0)));
    assert!(!at(f32::NAN).equals(at(f32::NAN)));
    assert!(!at(f32::NAN).at_most(at(1.0)));
    assert_eq!(at(3.0).lower(at(f32::NAN)), at(3.0));
    assert_eq!(at(f32::NAN).upper(at(3.0)), at(3.0));
    assert_eq!(at(3.0).upper(at(4.0)), at(4.0));
}

#[test]
fn bounds_are_read() {
    assert_eq!(parse_bounds("[0,1][20,30]", &read), Some(rect(0.0, 1.0, 20.0, 30.0)));
    assert_eq!(parse_bounds("  [ -1.5 , 2 ][ 3 ,4]\n", &read), Some(rect(-1.5, 2.0, 3.0, 4.0)));
    assert_eq!(parse_bounds("[1,x,2][3,4]", &read), Some(rect(1.0, 2.0, 3.0, 4.0)));
    assert_eq!(parse_bounds("[1,2,3][4,5]", &read), None);
    assert_eq!(parse_bounds("[1][4,5]", &read), None);
    assert_eq!(parse_bounds("1,2][4,5", &read), None);
    assert_eq!(parse_bounds("[1,2],[4,5]", &read), None);
    assert_eq!(parse_bounds("", &read), None);
    assert_eq!(parse_bounds("[", &read), None);
}

#[test]
fn rectangles_hold_their_border() {
    let r = rect(0.0, 0.0, 10.0, 5.0);
    assert!(r.contains(pos(0.0, 0.0)));
    assert!(r.contains(pos(10.0, 5.0)));
    assert!(!r.contains(pos(10.5, 5.0)));
    assert!(!r.contains(pos(f32::NAN, 1.0)));
    assert_eq!(r.union(rect(-1.0, 2.0, 3.0, 9.0)), rect(-1.0, 0.0, 10.0, 9.0));
}

#[test]
fn the_innermost_node_is_found() {
    let tree = inner(
        rect(0.0, 0.0, 100.0, 100.0),
        vec![
            leaf(rect(0.0, 0.0, 50.0, 50.0)),
            inner(
                rect(0.0, 0.0, 60.0, 60.0),
                vec![leaf(rect(10.0, 10.0, 20.0, 20.0)), leaf(rect(5.0, 5.0, 90.0, 90.0))],
            ),
        ],
    );
    let find = |x: f32, y: f32| tree.find_branch(pos(x, y), &mut Vec::new(), &area);
    assert_eq!(find(15.0, 15.0), Some(vec![1, 0]));
    assert_eq!(find(40.0, 40.0), Some(vec![0]));
    assert_eq!(find(55.0, 55.0), Some(vec![1, 1]));
    assert_eq!(find(85.0, 85.0), Some(vec![1, 1]));
    assert_eq!(find(95.0, 95.0), Some(vec![]));
    assert_eq!(find(101.0, 1.0), None);
    let mut base = vec![7, 8];
    assert_eq!(tree.find_branch(pos(40.0, 40.0), &mut base, &area), Some(vec![7, 8, 0]));
    assert_eq!(base, vec![7, 8]);
}

#[test]
fn of_the_same_area_the_deeper_node_is_found() {
    let r = rect(0.0, 0.0, 10.0, 10.0);
    let tree = inner(r, vec![leaf(r), inner(r, vec![leaf(r)]), leaf(r)]);
    assert_eq!(
        tree.find_branch(pos(1.0, 1.0), &mut Vec::new(), &area),
        Some(vec![1, 0])
    );
    let flat = inner(r, vec![leaf(r), leaf(r)]);
    assert_eq!(flat.find_branch(pos(1.0, 1.0), &mut Vec::new(), &area), Some(vec![0]));
}

#[test]
fn a_smaller_node_is_found_however_deep_the_others_are() {
    let big = rect(0.0, 0.0, 10.0, 10.0);
    let small = rect(0.0, 0.0, 5.0, 5.0);
    let deep = inner(big, vec![inner(big, vec![leaf(big)])]);
    let tree = inner(big, vec![deep, leaf(small), leaf(small)]);
    assert_eq!(tree.find_branch(pos(1.0, 1.0), &mut Vec::new(), &area), Some(vec![1]));
    assert_eq!(tree.find_branch(pos(7.0, 7.0), &mut Vec::new(), &area), Some(vec![0, 0, 0]));
}

#[test]
fn an_endless_root_is_found_by_its_children() {
    let huge = rect(f32::NEG_INFINITY, f32::NEG_INFINITY, f32::INFINITY, f32::INFINITY);
    let tree = inner(huge, vec![leaf(rect(0.0, 0.0, 1.0, 1.0))]);
    assert_eq!(tree.find_branch(pos(1.0, 1.0), &mut Vec::new(), &area), Some(vec![0]));
    assert_eq!(tree.find_branch(pos(2.0, 1.0), &mut Vec::new(), &area), Some(vec![]));
}

#[test]
fn an_endless_child_is_not_preferred() {
    let huge = rect(f32::NEG_INFINITY, f32::NEG_INFINITY, f32::INFINITY, f32::INFINITY);
    let tree = inner(rect(0.0, 0.0, 10.0, 10.0), vec![leaf(huge)]);
    assert_eq!(tree.find_branch(pos(1.0, 1.0), &mut Vec::new(), &area), Some(vec![]));
    assert_eq!(tree.find_branch(pos(50.0, 1.0), &mut Vec::new(), &area), None);
}

#[test]
fn paths_lead_to_nodes() {
    let r = rect(0.0, 0.0, 1.0, 1.0);
    let mut deep = leaf(r);
    deep.label = "deep".into();
    let tree = inner(r, vec![leaf(r), inner(r, vec![deep])]);
    assert_eq!(tree.node_at(&[1, 0]).unwrap().label, "deep");
    assert!(tree.node_at(&[]).is_some());
    assert!(tree.node_at(&[2]).is_none());
    assert!(tree.node_at(&[0, 0]).is_none());
}

#[test]
fn labels_show_class_text_and_id() {
    assert_eq!(build_label(&pairs(&[])), "?");
    assert_eq!(
        build_label(&pairs(&[
            ("class", "android.widget.Button"),
            ("text", "OK"),
            ("resource-id", "com.x:id/ok"),
        ])),
        "Button \"OK\" [ok]"
    );
    assert_eq!(
        build_label(&pairs(&[("text", "null"), ("resource-id", ""), ("class", "Plain")])),
        "Plain"
    );
}

#[test]
fn long_labels_are_cut_at_a_character() {
    let long = build_label(&pairs(&[("class", &"c".repeat(101))]));
    assert_eq!(long, format!("{}…", "c".repeat(97)));
    let exact = build_label(&pairs(&[("class", &"c".repeat(100))]));
    assert_eq!(exact, "c".repeat(100));
    let wide = build_label(&pairs(&[("class", &"字".repeat(40))]));
    assert_eq!(wide, format!("{}…", "字".repeat(32)));
    assert_eq!(wide.len(), 99);
}

#[test]
fn merging_joins_the_bounds() {
    assert!(merge_nodes(Vec::new()).is_none());
    let one = merge_nodes(vec![leaf(rect(1.0, 2.0, 3.0, 4.0))]).unwrap();
    assert!(one.children.is_empty());
    let three = merge_nodes(vec![
        leaf(rect(1.0, 2.0, 3.0, 4.0)),
        leaf(rect(0.0, 3.0, 2.0, 9.0)),
        leaf(rect(5.0, -1.0, 6.0, 0.0)),
    ])
    .unwrap();
    assert_eq!(three.bounds, rect(0.0, -1.0, 6.0, 9.0));
    assert_eq!(three.attrs, pairs(&[("class", "android.widget.FrameLayout")]));
    assert_eq!(three.label, "FrameLayout");
    assert_eq!(three.children.len(), 3);
}

#[test]
fn crops_are_clamped_to_the_image() {
    assert_eq!(
        crop_region(-5, 2, 30, 40, 20, 30),
        Ok(Region { x: 0, y: 2, width: 20, height: 28 })
    );
    assert_eq!(
        crop_region(25, 2, 30, 40, 20, 30),
        Err("element bounds [20,2][20,30] fall outside the image 20x30".to_string())
    );
    assert_eq!(
        crop_region(5, 7, 5, 9, 20, 30),
        Err("element bounds [5,7][5,9] fall outside the image 20x30".to_string())
    );
}

#[test]
fn pixels_are_read_inside_the_image() {
    let raw: Vec<u8> = (0u8..24).collect();
    assert_eq!(pixel_rgb(&raw, 3, 2, 0, 0), Some((0, 1, 2)));
    assert_eq!(pixel_rgb(&raw, 3, 2, 2, 1), Some((20, 21, 22)));
    assert_eq!(pixel_rgb(&raw, 3, 2, 3, 0), None);
    assert_eq!(pixel_rgb(&raw, 3, 2, 0, 2), None);
    assert_eq!(pixel_rgb(&raw, 3, 2, -1, 0), None);
}

#[test]
fn fingerprints_are_fnv1a() {
    assert_eq!(fnv1a_hash(b""), 0xcbf2_9ce4_8422_2325);
    assert_eq!(fnv1a_hash(b"a"), 0xaf63_dc4c_8601_ec8c);
    assert_eq!(fnv1a_hash(b"foobar"), 0x8594_4171_f739_67e8);
}

#[test]
fn one_byte_changes_a_fingerprint() {
    let text = b"<node text='a'/>".to_vec();
    for i in 0..text.len() {
        for bit in 0..8 {
            let mut other = text.clone();
            other[i] ^= 1 << bit;
            assert_ne!(fnv1a_hash(&other), fnv1a_hash(&text));
        }
    }
}

#[test]
fn bytes_are_found_first() {
    assert_eq!(find_subslice(b"xx<?xml<?xml", b"<?xml"), Some(2));
    assert_eq!(find_subslice(b"<?xm", b"<?xml"), None);
    assert_eq!(find_subslice(b"", b"<?xml"), None);
    assert_eq!(find_subslice(b"<?xm<?xmx", b"<?xml"), None);
}

#[test]
fn numerals_are_read_with_their_faults() {
    let number = |s: &str| parse_unsigned(&chars_of(s), 10, 255);
    assert_eq!(number("255"), Ok(255));
    assert_eq!(number("+7"), Ok(7));
    assert_eq!(number("007"), Ok(7));
    assert_eq!(number("256"), Err(Fault::TooLarge));
    assert_eq!(number(""), Err(Fault::Empty));
    assert_eq!(number("-1"), Err(Fault::InvalidDigit));
    assert_eq!(number("+"), Err(Fault::InvalidDigit));
    assert_eq!(number("1 "), Err(Fault::InvalidDigit));
    assert_eq!(parse_unsigned(&chars_of("fF"), 16, 255), Ok(255));
    assert_eq!(Fault::Empty.message(), "".parse::<u8>().unwrap_err().to_string());
    assert_eq!(Fault::InvalidDigit.message(), "x".parse::<u8>().unwrap_err().to_string());
    assert_eq!(Fault::TooLarge.message(), "999".parse::<u8>().unwrap_err().to_string());
    assert_eq!(parse_small(&chars_of("4294967295")), Some(u32::MAX));
    assert_eq!(parse_small(&chars_of("4294967296")), None);
}

#[test]
fn decimals_read_back() {
    for n in [0u64, 9, 10, 12345, u64::MAX] {
        assert_eq!(decimal_of(n), n.to_string());
        assert_eq!(parse_unsigned(&chars_of(&decimal_of(n)), 10, u64::MAX), Ok(n));
    }
}

#[test]
fn ids_are_sorted_once() {
    assert_eq!(sort_dedup(&vec![3, 1, 3, 0, 1]), vec![0, 1, 3]);
    assert_eq!(sort_dedup(&vec![]), Vec::<u32>::new());
}

fn strings(parts: Vec<Vec<char>>) -> Vec<String> {
    parts.iter().map(|p| string_of(p)).collect()
}

#[test]
fn texts_are_cut_as_in_the_standard_library() {
    for s in ["", "a", "a\n", "a\r\nb\rc\n\nd\r", " \u{3000}x \t y\u{a0}", "::a::::b::"] {
        let all = chars_of(s);
        let lines: Vec<String> = s.lines().map(str::to_string).collect();
        assert_eq!(strings(split_lines(&all)), lines);
        let words: Vec<String> = s.split_whitespace().map(str::to_string).collect();
        assert_eq!(strings(split_words(&all)), words);
        let parts: Vec<String> = s.split("::").map(str::to_string).collect();
        assert_eq!(strings(split_text(&all, &chars_of("::"))), parts);
        assert_eq!(string_of(trim(&all)), s.trim());
    }
    assert_eq!(find_text(&chars_of("abcabc"), &chars_of("ca")), Some(2));
    assert_eq!(find_text(&chars_of("abc"), &chars_of("")), Some(0));
    assert_eq!(find_text(&chars_of("ab"), &chars_of("abc")), None);
}

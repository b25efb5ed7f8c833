use std::path::PathBuf;
use uiviewer::adb::DeviceRefresh;
use uiviewer::bytes::fnv1a_hash;
use uiviewer::capture::{CaptureMethod, ShotSource};
use uiviewer::captures::{CaptureOutcome, Settle};
use uiviewer::devices::Poll;
use uiviewer::files::{
    hierarchy_extensions, image_extensions, log_is_full, pick_existing,
};
use uiviewer::geometry::{Coord, Pos, Rect};
use uiviewer::monitor::Monitor;
use uiviewer::rows::{row_at, row_of_path, Marker, PathSet, Tone};
use uiviewer::viewer::App;

fn at(f: f32) -> Coord {
    Coord::from_bits(f.to_bits())
}

fn float(c: Coord) -> f32 {
    f32::from_bits(c.to_bits())
}

fn pos(x: f32, y: f32) -> Pos {
    Pos { x: at(x), y: at(y) }
}

fn rect(x1: f32, y1: f32, x2: f32, y2: f32) -> Rect {
    Rect { min: pos(x1, y1), max: pos(x2, y2) }
}

fn read(s: &str) -> Option<Coord> {
    s.parse::<f32>().ok().map(at)
}

fn distance(a: &Pos, b: &Pos) -> Coord {
    at((float(a.x) - float(b.x)).hypot(float(a.y) - float(b.y)))
}

fn area(r: &Rect) -> Coord {
    let w = (float(r.max.x) - float(r.min.x)).max(0.0);
    let h = (float(r.max.y) - float(r.min.y)).max(0.0);
    at(w * h)
}

fn path(s: &str) -> PathBuf {
    PathBuf::from(s)
}

const SECOND: u64 = 1_000_000_000;

const TREE: &str = "<hierarchy><node text='root' bounds='[0,0][100,100]'>\
    <node text='left' bounds='[0,0][50,100]'><node text='inner' bounds='[0,0][20,20]'/></node>\
    <node text='right' bounds='[50,0][100,100]'/></node></hierarchy>";

const DISPLAYS: &str = "<displays><display id='0'><node text='zero' bounds='[0,0][1,1]'/></display>\
    <display id='1'><node text='one' bounds='[0,0][2,2]'/></display></displays>";

fn loaded() -> App {
    let mut app = App::default();
    let (ok, removed) = app.load_captured_pair(
        true,
        Some(TREE),
        path("d/a.png"),
        path("d/a.xml"),
        Some(path("d")),
        &read,
    );
    assert!(ok && removed.is_empty());
    app
}

fn with_device() -> App {
    let mut app = loaded();
    app.adb_devices = vec!["A".into(), "B".into()];
    app.selected_device = Some("A".into());
    app
}

#[test]
fn crop_coord_rect_parses_all_four_fields() {
    let mut app = App::default();
    app.crop_x1 = "10".into();
    app.crop_y1 = "20".into();
    app.crop_x2 = "100".into();
    app.crop_y2 = "80".into();
    assert_eq!(app.crop_coord_rect(&read), Some(rect(10.0, 20.0, 100.0, 80.0)));
}

#[test]
fn crop_coord_rect_normalizes_reversed_corners() {
    let mut app = App::default();
    app.crop_x1 = "100".into();
    app.crop_y1 = "80".into();
    app.crop_x2 = "10".into();
    app.crop_y2 = "20".into();
    assert_eq!(app.crop_coord_rect(&read), Some(rect(10.0, 20.0, 100.0, 80.0)));
}

#[test]
fn crop_coord_rect_none_when_partial_or_invalid() {
    let mut app = App::default();
    app.crop_x1 = "10".into();
    app.crop_y1 = "20".into();
    app.crop_x2 = "abc".into();
    app.crop_y2 = "80".into();
    assert_eq!(app.crop_coord_rect(&read), None);
    app.clear_crop_coords();
    assert_eq!(app.crop_coord_rect(&read), None);
}

#[test]
fn the_viewer_starts_empty() {
    let app = App::default();
    assert!(app.root_node.is_none());
    assert_eq!(app.available_displays, vec![(0, 0)]);
    assert_eq!(app.monitor.interval(), 6);
    assert!(!app.monitor.keep());
    assert_eq!(app.tree_revision, 0);
    assert_eq!(app.status_message, None);
}

#[test]
fn closing_removes_all_temporary_files() {
    let mut app = App::default();
    app.temp_screenshot = Some(path("t.png"));
    app.in_flight_screenshot = Some(path("f.png"));
    app.pending_old_xml = Some(path("p.xml"));
    app.temp_xml = Some(path("t.xml"));
    assert_eq!(
        app.leftovers(),
        vec![path("t.png"), path("f.png"), path("t.xml"), path("p.xml")]
    );
    assert!(app.leftovers().is_empty());
}

#[test]
fn a_pair_is_loaded_whole_or_not_at_all() {
    let mut app = loaded();
    assert_eq!(app.screenshot_path, Some(path("d/a.png")));
    assert_eq!(app.xml_path, Some(path("d/a.xml")));
    assert_eq!(app.screenshot_dir, Some(path("d")));
    assert_eq!(app.tree_revision, 1);
    app.temp_screenshot = Some(path("t.png"));
    app.temp_xml = Some(path("t.xml"));
    let tries: Vec<(bool, Option<&str>)> =
        vec![(false, Some(TREE)), (true, None), (true, Some("junk"))];
    for (image_ok, text) in tries {
        let r = app.load_captured_pair(image_ok, text, path("n.png"), path("n.xml"), None, &read);
        assert_eq!(r, (false, vec![]));
        assert_eq!(app.screenshot_path, Some(path("d/a.png")));
        assert_eq!(app.temp_xml, Some(path("t.xml")));
        assert_eq!(app.tree_revision, 1);
    }
    let r = app.load_captured_pair(true, Some(TREE), path("n.png"), path("n.xml"), None, &read);
    assert_eq!(r, (true, vec![path("t.png"), path("t.xml")]));
    assert_eq!((app.temp_screenshot, app.temp_xml), (None, None));
    assert_eq!(app.tree_revision, 2);
}

#[test]
fn a_screenshot_is_loaded_alone_or_with_its_hierarchy() {
    let mut app = App::default();
    app.temp_screenshot = Some(path("t.png"));
    let r = app.load_screenshot(path("d/a.png"), Some(path("d")), true, None, &read);
    assert_eq!(r, (true, vec![path("t.png")]));
    assert!(app.root_node.is_none());
    assert_eq!(app.xml_dir, Some(path("d")));
    let r = app.load_screenshot(path("e/b.png"), Some(path("e")), false, None, &read);
    assert_eq!(r, (false, vec![]));
    assert_eq!(app.screenshot_path, Some(path("d/a.png")));
    assert_eq!(app.screenshot_dir, Some(path("e")));
    let companion = Some((path("e/b.xml"), Some(TREE)));
    let (ok, _) = app.load_screenshot(path("e/b.png"), Some(path("e")), true, companion, &read);
    assert!(ok && app.root_node.is_some());
    let companion = Some((path("e/c.xml"), Some("<broken")));
    let (ok, _) = app.load_screenshot(path("e/c.png"), Some(path("e")), true, companion, &read);
    assert!(!ok);
    assert_eq!(app.screenshot_path, Some(path("e/b.png")));
}

#[test]
fn the_user_is_told_what_could_not_be_loaded() {
    let mut app = App::default();
    app.report_screenshot(true);
    app.report_xml(true);
    assert_eq!(app.status_message, None);
    app.report_screenshot(false);
    assert_eq!(
        app.status_message.as_deref(),
        Some("Failed to load screenshot (or its paired XML)")
    );
    assert!(app.status_is_error);
    app.report_xml(false);
    assert_eq!(
        app.status_message.as_deref(),
        Some("Failed to load XML (or its paired screenshot)")
    );
    assert!(app.status_is_error);
}

#[test]
fn a_hierarchy_is_loaded_alone_or_with_its_screenshot() {
    let mut app = App::default();
    app.temp_xml = Some(path("t.xml"));
    let r = app.load_xml(path("a.xml"), None, Some("junk"), None, &read);
    assert_eq!(r, (false, vec![]));
    assert_eq!(app.temp_xml, Some(path("t.xml")));
    let r = app.load_xml(path("a.xml"), Some(path("d")), Some(TREE), None, &read);
    assert_eq!(r, (true, vec![path("t.xml")]));
    assert_eq!(app.screenshot_path, None);
    assert_eq!(app.screenshot_dir, Some(path("d")));
    let (ok, _) = app.load_xml(path("b.xml"), None, Some(TREE), Some((path("b.png"), false)), &read);
    assert!(!ok);
    assert_eq!(app.xml_path, Some(path("a.xml")));
    let (ok, _) = app.load_xml(path("b.xml"), None, Some(TREE), Some((path("b.png"), true)), &read);
    assert!(ok);
    assert_eq!(app.screenshot_path, Some(path("b.png")));
    let (ok, _) = app.load_xml(path("c.xml"), None, None, None, &read);
    assert!(!ok);
}

#[test]
fn companions_are_tried_in_order() {
    assert_eq!(hierarchy_extensions(), vec!["xml", "uix"]);
    assert_eq!(image_extensions(), vec!["png", "jpg", "jpeg"]);
    assert_eq!(pick_existing(&vec![false, true, true]), Some(1));
    assert_eq!(pick_existing(&vec![false, false]), None);
}

#[test]
fn another_display_is_shown_when_it_is_chosen() {
    let mut app = App::default();
    app.load_xml(path("a.xml"), None, Some(DISPLAYS), None, &read);
    assert_eq!(app.file_displays, vec![0, 1]);
    app.selected_path = Some(vec![]);
    app.sync_selection();
    app.select_tree_display(1);
    app.sync_display(&read);
    assert_eq!(app.root_node.as_ref().unwrap().label, "? \"one\"");
    assert_eq!(app.selected_path, None);
    assert!(!app.expanded.contains(&[]));
    assert_eq!(app.tree_revision, 2);
    app.sync_display(&read);
    assert_eq!(app.tree_revision, 2);
    app.select_tree_display(5);
    app.sync_display(&read);
    assert!(app.root_node.is_none());
}

#[test]
fn saving_needs_both_files() {
    let mut app = App::default();
    assert_eq!(app.save_files(), None);
    assert_eq!(app.status_message.as_deref(), Some("No screenshot loaded"));
    app.screenshot_path = Some(path("a.png"));
    assert_eq!(app.save_files(), None);
    assert_eq!(app.status_message.as_deref(), Some("No XML loaded"));
    assert!(app.status_is_error);
    app.xml_path = Some(path("a.xml"));
    assert_eq!(app.save_files(), Some((path("a.png"), path("a.xml"))));
    app.files_saved(true, true, "n");
    assert_eq!(app.status_message.as_deref(), Some("Saved as n.png / n.xml"));
    assert!(!app.status_is_error);
    app.files_saved(true, false, "n");
    assert_eq!(app.status_message.as_deref(), Some("Failed to save files"));
}

#[test]
fn an_entered_rectangle_is_exported_first() {
    let mut app = App::default();
    assert!(app.export_icon(&read).is_none());
    assert_eq!(app.status_message.as_deref(), Some("No screenshot loaded"));
    let mut app = loaded();
    assert!(app.export_icon(&read).is_none());
    assert_eq!(
        app.status_message.as_deref(),
        Some("No element selected — enter TL/BR coordinates or select an element")
    );
    app.selected_path = Some(vec![1]);
    let e = app.export_icon(&read).unwrap();
    assert_eq!(e.bounds, rect(50.0, 0.0, 100.0, 100.0));
    assert_eq!((e.name.as_str(), e.via_coords), ("icon.png", false));
    app.crop_x1 = " 9".into();
    app.crop_y1 = "8 ".into();
    app.crop_x2 = "7".into();
    app.crop_y2 = "6".into();
    let e = app.export_icon(&read).unwrap();
    assert_eq!(e.bounds, rect(7.0, 6.0, 9.0, 8.0));
    assert!(e.via_coords);
    app.icon_exported(Err("disk".into()), true);
    assert_eq!(app.status_message.as_deref(), Some("Export failed: disk"));
    assert_eq!(app.crop_x1, " 9");
    app.icon_exported(Ok("i.png".into()), true);
    assert_eq!(app.status_message.as_deref(), Some("Icon saved as i.png"));
    assert_eq!(app.crop_coord_rect(&read), None);
    assert_eq!(app.crop_x1, "");
}

#[test]
fn scans_keep_their_distance() {
    let mut app = App::default();
    assert!(app.refresh_devices(5 * SECOND, false).is_some());
    assert!(app.refresh_devices(19 * SECOND, false).is_none());
    assert!(app.refresh_devices(20 * SECOND, false).is_none());
    app.poll_device_refresh(Poll::Gone, 20 * SECOND);
    assert!(app.refresh_devices(19 * SECOND, false).is_none());
    assert!(app.refresh_devices(20 * SECOND, false).is_some());
    assert!(app.refresh_devices(20 * SECOND, true).is_some());
    app.force_refresh(21 * SECOND);
    assert!(app.manual_refreshing && app.refresh_awaited);
}

#[test]
fn no_scan_starts_by_itself_during_a_capture() {
    let mut app = with_device();
    app.capturing = true;
    assert!(app.auto_refresh(5 * SECOND).is_none());
    assert!(!app.refresh_awaited && app.last_adb_check.is_none());
    app.capturing = false;
    let (current, devices) = app.auto_refresh(5 * SECOND).unwrap();
    assert_eq!((current.as_deref(), devices), (Some("A"), app.adb_devices.clone()));
    assert!(app.refresh_awaited);
    assert!(app.auto_refresh(90 * SECOND).is_none());
}

fn scan(devices: &[&str], selected: Option<&str>, displays: Option<Vec<(u32, u64)>>) -> DeviceRefresh {
    DeviceRefresh {
        devices: devices.iter().map(|s| s.to_string()).collect(),
        selected: selected.map(str::to_string),
        displays,
        diag: Some("ok".into()),
    }
}

#[test]
fn a_scan_replaces_a_device_that_is_gone() {
    let mut app = with_device();
    app.display_id = 3;
    let found = scan(&["B"], Some("B"), Some(vec![(1, 9), (2, 8)]));
    let out = app.poll_device_refresh(Poll::Ready(found), 0);
    assert_eq!(out.release.as_deref(), Some("A"));
    assert_eq!(app.selected_device.as_deref(), Some("B"));
    assert_eq!(app.available_displays, vec![(1, 9), (2, 8)]);
    assert_eq!(app.display_id, 1);
    assert_eq!(app.status_message.as_deref(), Some("[refresh] ok"));
    assert!(app.status_is_error);
    let out = app.poll_device_refresh(Poll::Ready(scan(&["B"], Some("X"), Some(vec![(7, 7)]))), 0);
    assert_eq!(out.release, None);
    assert_eq!(app.available_displays, vec![(1, 9), (2, 8)]);
    let out = app.poll_device_refresh(Poll::Ready(scan(&[], None, None)), 0);
    assert_eq!(out.release.as_deref(), Some("B"));
    assert_eq!(app.selected_device, None);
}

#[test]
fn a_scan_that_hangs_is_given_up() {
    let mut app = App::default();
    app.refresh_devices(0, false);
    let out = app.poll_device_refresh(Poll::Empty, 4 * SECOND);
    assert_eq!(out.wake, Some(11 * SECOND));
    assert!(app.refresh_awaited);
    let out = app.poll_device_refresh(Poll::Empty, 15 * SECOND);
    assert_eq!(out.wake, None);
    assert!(!app.refresh_awaited);
    assert_eq!(
        app.status_message.as_deref(),
        Some("device refresh timed out — adb not responding")
    );
    let out = app.poll_device_refresh(Poll::Idle, 0);
    assert_eq!((out.release, out.wake), (None, None));
}

#[test]
fn choosing_a_device_releases_the_one_before() {
    let mut app = with_device();
    assert_eq!(app.select_device("A"), None);
    assert_eq!(app.select_device("B").as_deref(), Some("A"));
    assert_eq!(app.selected_device.as_deref(), Some("B"));
    app.tree_display_id = 9;
    app.select_display(0);
    assert_eq!(app.tree_display_id, 9);
    app.select_display(4);
    assert_eq!((app.display_id, app.tree_display_id), (4, 4));
    assert_eq!(app.tree_displays(), vec![0]);
    app.file_displays.clear();
    app.available_displays = vec![(0, 1), (4, 2)];
    assert_eq!(app.tree_displays(), vec![0, 4]);
    app.file_displays = vec![8];
    assert_eq!(app.tree_displays(), vec![8]);
}

#[test]
fn a_capture_needs_a_device() {
    let mut app = loaded();
    app.set_keep_monitor(true, 0);
    assert!(app.start_capture(CaptureMethod::Adb, 0).is_none());
    assert_eq!(
        app.status_message.as_deref(),
        Some("No device selected — connect a device and ensure it appears in the dropdown")
    );
    assert!(!app.monitor.keep());
    assert!(!app.capturing);
}

#[test]
fn a_capture_sets_the_old_files_aside() {
    let mut app = with_device();
    app.available_displays = vec![(0, 11), (2, 22)];
    app.display_id = 2;
    app.temp_screenshot = Some(path("o.png"));
    app.temp_xml = Some(path("o.xml"));
    let order = app.capture_now(CaptureMethod::U2V3, 7).unwrap();
    assert_eq!(order.method, CaptureMethod::U2V3);
    assert_eq!((order.serial.as_str(), order.display_id, order.physical), ("A", 2, 22));
    assert_eq!(app.last_capture, Some(CaptureMethod::U2V3));
    assert_eq!(app.pending_old_screenshot, Some(path("o.png")));
    assert_eq!(app.temp_screenshot, None);
    assert_eq!(app.status_message.as_deref(), Some("Capturing..."));
    assert!(app.start_capture(CaptureMethod::Adb, 8).is_none());
    app.track_capture(path("n.png"), path("n.xml"));
    assert_eq!(app.in_flight_xml, Some(path("n.xml")));
}

fn capturing() -> App {
    let mut app = with_device();
    app.temp_screenshot = Some(path("o.png"));
    app.temp_xml = Some(path("o.xml"));
    app.set_keep_monitor(true, 0);
    app.start_capture(CaptureMethod::Adb, SECOND);
    app.track_capture(path("n.png"), path("n.xml"));
    app
}

fn assert_failed(app: &App, message: &str) {
    assert!(!app.capturing && !app.capture_awaited);
    assert_eq!(app.temp_screenshot, Some(path("o.png")));
    assert_eq!(app.temp_xml, Some(path("o.xml")));
    assert_eq!(app.screenshot_path, Some(path("d/a.png")));
    assert_eq!(app.status_message.as_deref(), Some(message));
    assert!(app.status_is_error);
    assert!(!app.monitor.keep());
    assert_eq!(app.monitor.next(), None);
}

#[test]
fn a_failed_capture_keeps_what_is_shown() {
    let mut app = capturing();
    assert!(matches!(app.poll_capture(Poll::Idle, 0), CaptureOutcome::Nothing));
    assert!(matches!(
        app.poll_capture(Poll::Empty, 3 * SECOND),
        CaptureOutcome::Wake(w) if w == 8 * SECOND
    ));
    assert!(matches!(app.poll_capture(Poll::Empty, 11 * SECOND), CaptureOutcome::Kill));
    assert_failed(&app, "capture timed out — device not responding");
    assert_eq!(app.in_flight_screenshot, Some(path("n.png")));

    let mut app = capturing();
    assert!(matches!(app.poll_capture(Poll::Gone, 0), CaptureOutcome::Kill));
    assert_failed(&app, "capture failed: background thread ended unexpectedly");
    assert_eq!(app.in_flight_screenshot, None);

    let mut app = capturing();
    let result = Poll::Ready((CaptureMethod::U2V3, Err("no jar".into())));
    assert!(matches!(app.poll_capture(result, 0), CaptureOutcome::Nothing));
    assert_failed(&app, "u2 v3 capture failed: no jar");

    let mut app = capturing();
    let result = Poll::Ready((CaptureMethod::Adb, Err("x".into())));
    app.poll_capture(result, 0);
    assert_failed(&app, "ADB capture failed: x");

    let mut app = capturing();
    let files = (path("n.png"), path("n.xml"), ShotSource::Adb);
    app.poll_capture(Poll::Ready((CaptureMethod::Adb, Ok(files))), 0);
    let removed = app.finish_capture(
        CaptureMethod::Adb,
        path("n.png"),
        path("n.xml"),
        ShotSource::Adb,
        true,
        Some("junk"),
        None,
        None,
        0,
        &read,
    );
    assert_eq!(removed, vec![path("n.png"), path("n.xml")]);
    assert_failed(&app, "capture failed: screenshot or layout could not be loaded");
}

#[test]
fn a_capture_that_succeeds_replaces_the_files() {
    let mut app = capturing();
    let files = (path("n.png"), path("n.xml"), ShotSource::Adb);
    let out = app.poll_capture(Poll::Ready((CaptureMethod::U2V3, Ok(files))), 2 * SECOND);
    assert!(matches!(out, CaptureOutcome::Load(CaptureMethod::U2V3, _, _, ShotSource::Adb)));
    let removed = app.finish_capture(
        CaptureMethod::U2V3,
        path("n.png"),
        path("n.xml"),
        ShotSource::Adb,
        true,
        Some(TREE),
        Some(path("tmp")),
        Some(TREE.as_bytes().to_vec()),
        2 * SECOND,
        &read,
    );
    assert_eq!(removed, vec![path("o.png"), path("o.xml")]);
    assert_eq!(app.temp_screenshot, Some(path("n.png")));
    assert_eq!(app.screenshot_path, Some(path("n.png")));
    assert_eq!(app.in_flight_xml, None);
    assert_eq!(
        app.status_message.as_deref(),
        Some("uiautomator2 v3 capture successful (screenshot via ADB)")
    );
    assert_eq!(app.monitor.next(), Some(5 * SECOND));
    assert_eq!(app.tree_revision, 2);
}

#[test]
fn a_capture_tells_how_it_was_made() {
    let message = |method, source| {
        let mut app = with_device();
        app.finish_capture(
            method,
            path("n.png"),
            path("n.xml"),
            source,
            true,
            Some(TREE),
            None,
            None,
            0,
            &read,
        );
        assert_eq!(app.monitor.next(), None);
        app.status_message.unwrap()
    };
    assert_eq!(message(CaptureMethod::Adb, ShotSource::Adb), "ADB capture successful");
    assert_eq!(
        message(CaptureMethod::U2V3, ShotSource::JsonRpc),
        "uiautomator2 v3 capture successful"
    );
}

#[test]
fn a_tap_is_followed_by_a_capture() {
    let mut app = with_device();
    assert!(app.take_tap(0).is_none());
    assert!(matches!(app.settle(0), Settle::Nothing));
    app.double_click(pos(3.0, 4.0));
    let tap = app.take_tap(SECOND).unwrap();
    assert_eq!((tap.serial.as_deref(), tap.display_id, tap.pos), (Some("A"), 0, pos(3.0, 4.0)));
    assert_eq!(app.status_message.as_deref(), Some("Refreshing..."));
    assert!(matches!(app.settle(2 * SECOND - 1), Settle::Wait));
    match app.settle(2 * SECOND) {
        Settle::Over(Some(order)) => assert_eq!(order.method, CaptureMethod::Adb),
        _ => panic!("no capture"),
    }
    assert!(app.capturing);
    assert_eq!(app.tap_settle_start, None);
    let mut app = loaded();
    app.double_click(pos(1.0, 1.0));
    assert_eq!(app.pending_tap, None);
}

#[test]
fn the_device_settles_after_the_gesture_was_sent() {
    let mut app = with_device();
    app.gesture_sent(SECOND);
    assert_eq!(app.tap_settle_start, None);
    app.double_click(pos(3.0, 4.0));
    app.take_tap(SECOND).unwrap();
    app.gesture_sent(4 * SECOND);
    assert!(matches!(app.settle(5 * SECOND - 1), Settle::Wait));
    assert!(matches!(app.settle(5 * SECOND), Settle::Over(Some(_))));
    let mut app = with_device();
    app.start_drag(pos(0.0, 0.0));
    app.drag(pos(6.0, 8.0));
    app.stop_drag(SECOND, &distance).unwrap();
    app.gesture_sent(3 * SECOND);
    assert_eq!(app.tap_settle_start, Some(3 * SECOND));
    assert!(matches!(app.settle(4 * SECOND - 1), Settle::Wait));
    assert!(matches!(app.settle(4 * SECOND), Settle::Over(Some(_))));
}

#[test]
fn a_swipe_is_a_long_drag() {
    let mut app = with_device();
    app.start_drag(pos(0.0, 0.0));
    app.drag(pos(6.0, 7.9));
    assert!(app.stop_drag(0, &distance).is_none());
    assert_eq!(app.drag_start_img, None);
    app.start_drag(pos(0.0, 0.0));
    app.drag(pos(6.0, 8.0));
    let swipe = app.stop_drag(9, &distance).unwrap();
    assert_eq!((swipe.serial.as_str(), swipe.start, swipe.end), ("A", pos(0.0, 0.0), pos(6.0, 8.0)));
    assert_eq!(app.tap_settle_start, Some(9));
    assert!(app.stop_drag(9, &distance).is_none());
    let mut app = loaded();
    app.start_drag(pos(0.0, 0.0));
    app.drag(pos(60.0, 80.0));
    assert!(app.stop_drag(0, &distance).is_none());
    assert_eq!(app.tap_settle_start, None);
    let mut app = with_device();
    app.start_drag(pos(0.0, 0.0));
    assert!(app.stop_drag(0, &distance).is_none());
}

#[test]
fn the_monitor_probes_before_it_captures() {
    let mut app = with_device();
    app.last_capture = Some(CaptureMethod::U2V3);
    app.set_keep_monitor(true, SECOND);
    let tick = app.monitor_tick(Poll::Idle, SECOND);
    assert!(tick.probe && tick.order.is_none());
    assert!(app.monitor.probing());
    let tick = app.monitor_tick(Poll::Empty, 2 * SECOND);
    assert_eq!(tick.wake, Some(2 * SECOND));
    let tick = app.monitor_tick(Poll::Ready(Some(1)), 2 * SECOND);
    assert!(tick.order.is_some());
    assert!(!app.monitor.probing());
    assert_eq!(app.monitor.next(), Some(5 * SECOND));
}

#[test]
fn the_tenth_probe_forces_a_capture() {
    let mut monitor = Monitor::new();
    assert!(monitor.absorb(7));
    for _ in 0..8 {
        assert!(!monitor.absorb(7));
    }
    assert!(monitor.absorb(7));
    assert!(!monitor.absorb(7));
    assert!(monitor.absorb(8));
    monitor.rebase(Some(9));
    for _ in 0..9 {
        assert!(!monitor.absorb(9));
    }
    assert!(monitor.absorb(9));
}

#[test]
fn an_unchanged_probe_waits_for_the_next() {
    let mut app = with_device();
    app.last_capture = Some(CaptureMethod::U2V3);
    app.set_keep_monitor(true, 0);
    app.finish_capture(
        CaptureMethod::U2V3,
        path("n.png"),
        path("n.xml"),
        ShotSource::JsonRpc,
        true,
        Some(TREE),
        None,
        Some(TREE.as_bytes().to_vec()),
        0,
        &read,
    );
    let tick = app.monitor_tick(Poll::Idle, SECOND);
    assert_eq!(tick.wake, Some(2 * SECOND));
    assert!(app.monitor_tick(Poll::Idle, 3 * SECOND).probe);
    let hash = fnv1a_hash(TREE.as_bytes());
    let tick = app.monitor_tick(Poll::Ready(Some(hash)), 3 * SECOND);
    assert!(tick.order.is_none());
    assert_eq!(tick.wake, Some(3 * SECOND));
    assert_eq!(app.monitor.next(), Some(6 * SECOND));
    assert!(app.monitor_tick(Poll::Idle, 6 * SECOND).probe);
    assert!(app.monitor_tick(Poll::Gone, 6 * SECOND).order.is_some());
}

#[test]
fn the_monitor_yields_to_gestures() {
    let mut app = with_device();
    app.set_keep_monitor(true, 0);
    app.double_click(pos(1.0, 1.0));
    let tick = app.monitor_tick(Poll::Idle, SECOND);
    assert!(tick.order.is_none() && !tick.probe && tick.wake.is_none());
    assert_eq!(app.monitor.next(), Some(0));
    app.take_tap(SECOND);
    app.tap_settle_start = None;
    assert!(app.monitor_tick(Poll::Idle, SECOND).order.is_some());
    assert_eq!(app.monitor.next(), None);
    app.set_keep_monitor(false, SECOND);
    assert!(app.monitor_tick(Poll::Idle, SECOND).order.is_none());
}

#[test]
fn the_interval_has_its_ends() {
    let mut app = with_device();
    app.step_interval(false, SECOND);
    assert_eq!(app.monitor.interval(), 5);
    assert_eq!(app.monitor.next(), Some(3 * SECOND + SECOND / 2));
    for _ in 0..10 {
        app.step_interval(false, 0);
    }
    assert_eq!(app.monitor.interval(), 1);
    assert_eq!(app.monitor.pause(), SECOND / 2);
    for _ in 0..200 {
        app.step_interval(true, 0);
    }
    assert_eq!(app.monitor.interval(), 120);
    assert_eq!(app.monitor.next(), Some(60 * SECOND));
    app.capturing = true;
    app.step_interval(false, 7 * SECOND);
    assert_eq!(app.monitor.next(), Some(60 * SECOND));
    assert_eq!(app.monitor.interval(), 119);
}

#[test]
fn hovering_looks_again_after_a_move() {
    let mut app = loaded();
    app.hover(pos(10.0, 10.0), false, &distance, &area);
    assert_eq!(app.hovered_path, Some(vec![0, 0]));
    app.hovered_path = Some(vec![1]);
    app.hover(pos(13.0, 13.9), false, &distance, &area);
    assert_eq!(app.hovered_path, Some(vec![1]));
    assert_eq!(app.last_hover_img_pos, Some(pos(13.0, 13.9)));
    app.hover(pos(60.0, 50.0), true, &distance, &area);
    assert_eq!(app.last_hover_img_pos, Some(pos(13.0, 13.9)));
    app.hover(pos(30.0, 50.0), false, &distance, &area);
    assert_eq!(app.hovered_path, Some(vec![0]));
    app.leave(true);
    assert!(app.hovered_path.is_some());
    app.leave(false);
    assert_eq!((app.hovered_path, app.last_hover_img_pos), (None, None));
}

#[test]
fn clicks_at_one_spot_climb() {
    let mut app = loaded();
    app.hover(pos(10.0, 10.0), false, &distance, &area);
    app.click(pos(10.0, 10.0), Some((1, 2, 3)), &distance);
    assert_eq!(app.selected_path, Some(vec![0, 0]));
    assert_eq!(app.scroll_to_target, Some(vec![0, 0]));
    assert_eq!(app.click_rgb, Some((1, 2, 3)));
    app.click(pos(11.0, 10.0), None, &distance);
    assert_eq!(app.selected_path, Some(vec![0]));
    assert_eq!(app.hovered_path, Some(vec![0]));
    app.click(pos(11.0, 10.0), None, &distance);
    assert_eq!(app.selected_path, Some(vec![0]));
    app.hover(pos(80.0, 80.0), false, &distance, &area);
    app.click(pos(80.0, 80.0), None, &distance);
    assert_eq!(app.selected_path, Some(vec![1]));
    assert_eq!(app.take_scroll_target(), Some(vec![1]));
    assert_eq!(app.take_scroll_target(), None);
}

#[test]
fn selecting_unfolds_the_tree() {
    let mut app = loaded();
    assert_eq!(app.visible_rows().len(), 1);
    app.selected_path = Some(vec![0, 0]);
    app.hovered_path = Some(vec![1]);
    app.sync_selection();
    assert_eq!(app.last_selected, Some(vec![0, 0]));
    let rows = app.visible_rows();
    let paths: Vec<Vec<usize>> = rows.iter().map(|r| r.path.clone()).collect();
    assert_eq!(paths, vec![vec![], vec![0], vec![0, 0], vec![1]]);
    let markers: Vec<Marker> = rows.iter().map(|r| r.marker).collect();
    assert_eq!(markers, vec![Marker::Unfolded, Marker::Unfolded, Marker::Leaf, Marker::Leaf]);
    let tones: Vec<Tone> = rows.iter().map(|r| r.tone).collect();
    assert_eq!(tones, vec![Tone::Plain, Tone::Plain, Tone::Selected, Tone::Hovered]);
    assert_eq!(rows[2].label, "? \"inner\"");
    app.toggle_row(&[0]);
    let rows = app.visible_rows();
    assert_eq!(rows.len(), 3);
    assert_eq!(rows[1].marker, Marker::Folded);
    app.sync_selection();
    assert_eq!(app.visible_rows().len(), 3);
    app.toggle_row(&[0]);
    assert_eq!(app.visible_rows().len(), 4);
    app.select_row(vec![1]);
    app.toggle_row(&[]);
    app.sync_selection();
    assert_eq!(app.visible_rows().len(), 1);
    assert!(App::default().visible_rows().is_empty());
}

#[test]
fn outlines_do_not_repeat() {
    let mut app = loaded();
    assert!(!app.selection_outlined() && !app.invites_click());
    app.selected_path = Some(vec![0]);
    assert!(app.selection_outlined() && !app.invites_click());
    app.hovered_path = Some(vec![0]);
    assert!(!app.selection_outlined() && !app.invites_click());
    app.hovered_path = Some(vec![1]);
    assert!(app.selection_outlined() && app.invites_click());
}

#[test]
fn rows_are_hit_only_where_they_are_visible() {
    let list = vec![
        (vec![], rect(0.0, 0.0, 10.0, 10.0)),
        (vec![0], rect(0.0, 10.0, 10.0, 20.0)),
        (vec![1], rect(0.0, 20.0, 10.0, 30.0)),
    ];
    let visible = rect(0.0, 0.0, 10.0, 25.0);
    assert_eq!(row_at(&list, visible, pos(5.0, 15.0)), Some(vec![0]));
    assert_eq!(row_at(&list, visible, pos(5.0, 10.0)), Some(vec![]));
    assert_eq!(row_at(&list, visible, pos(5.0, 28.0)), None);
    assert_eq!(row_at(&list, visible, pos(11.0, 5.0)), None);
    assert_eq!(row_of_path(&list, &[1]), Some(2));
    assert_eq!(row_of_path(&list, &[2]), None);
}

#[test]
fn sets_of_paths_hold_each_once() {
    let mut set = PathSet::new();
    set.insert(&[1, 2]);
    set.insert(&[1, 2]);
    assert!(set.contains(&[1, 2]) && !set.contains(&[1]));
    set.remove(&[1, 2]);
    assert!(!set.contains(&[1, 2]));
    set.remove(&[1, 2]);
    set.insert_prefixes(&[3, 4]);
    assert!(set.contains(&[]) && set.contains(&[3]) && set.contains(&[3, 4]));
    set.toggle(&[3]);
    set.toggle(&[5]);
    assert!(!set.contains(&[3]) && set.contains(&[5]));
    set.clear();
    assert!(!set.contains(&[]));
}

#[test]
fn the_xpath_follows_the_tree() {
    let mut app = loaded();
    assert_eq!(app.displayed_xpath(), None);
    assert!(app.xpath_cache.is_none());
    app.selected_path = Some(vec![0]);
    assert_eq!(app.displayed_xpath().as_deref(), Some("//*[@text='left']"));
    app.hovered_path = Some(vec![1]);
    assert_eq!(app.displayed().unwrap(), vec![1]);
    assert_eq!(app.displayed_node().unwrap().label, "? \"right\"");
    assert_eq!(app.displayed_xpath().as_deref(), Some("//*[@text='right']"));
    assert_eq!(app.xpath_cache.as_ref().unwrap().0, 1);
    let other = "<hierarchy><node text='top' bounds='[0,0][9,9]'><node text='x' bounds='[0,0][1,1]'/>\
        <node text='y' bounds='[0,0][1,1]'/></node></hierarchy>";
    app.load_xml(path("b.xml"), None, Some(other), None, &read);
    assert_eq!(app.displayed_xpath().as_deref(), Some("//*[@text='y']"));
    app.hovered_path = Some(vec![4]);
    assert_eq!(app.displayed_xpath(), None);
    assert!(app.displayed_node().is_none());
}

#[test]
fn the_cached_xpath_is_not_looked_for_again() {
    let mut app = loaded();
    app.selected_path = Some(vec![0]);
    app.xpath_cache = Some((app.tree_revision, vec![0], Some("cached".into())));
    assert_eq!(app.displayed_xpath().as_deref(), Some("cached"));
    app.selected_path = Some(vec![1]);
    assert_eq!(app.displayed_xpath().as_deref(), Some("//*[@text='right']"));
}

#[test]
fn the_log_starts_over_when_it_is_full() {
    assert!(!log_is_full(10 * 1024 * 1024 - 1));
    assert!(log_is_full(10 * 1024 * 1024));
}

#[test]
fn messages_are_shown() {
    let mut app = App::default();
    app.say("Copied escaped XPath", false);
    assert_eq!(app.status_message.as_deref(), Some("Copied escaped XPath"));
    assert!(!app.status_is_error);
}

#[test]
fn buttons_wait_for_captures() {
    let mut app = App::default();
    assert!(!app.can_choose());
    assert!(app.can_capture());
    let mut busy = with_device();
    assert!(busy.can_choose());
    busy.start_capture(CaptureMethod::Adb, 0);
    assert!(!busy.can_choose() && !busy.can_capture());
    app.set_keep_monitor(true, 0);
    assert!(!app.can_capture());
}

#[test]
fn showing_a_display_forgets_the_selection() {
    let mut app = App::default();
    app.load_xml(path("a.xml"), None, Some(DISPLAYS), None, &read);
    assert!(!app.display_is_stale());
    app.select_tree_display(1);
    assert!(app.display_is_stale());
    app.selected_path = Some(vec![]);
    app.show_display(None);
    assert!(!app.display_is_stale());
    assert!(app.root_node.is_none());
    assert_eq!(app.selected_path, None);
    assert_eq!(app.tree_revision, 2);
}

#[test]
fn a_parsed_capture_is_shown() {
    let mut app = capturing();
    let content = App::parse_xml_content(TREE, app.tree_display_id, &read);
    let removed = app.show_capture(
        CaptureMethod::Adb,
        path("n.png"),
        path("n.xml"),
        ShotSource::Adb,
        true,
        Some(content),
        None,
        None,
        SECOND,
    );
    assert_eq!(removed, vec![path("o.png"), path("o.xml")]);
    assert_eq!(app.status_message.as_deref(), Some("ADB capture successful"));
    assert_eq!(app.monitor.next(), Some(4 * SECOND));
    let (ok, removed) = app.commit_pair(false, None, path("x"), path("y"), None);
    assert!(!ok && removed.is_empty());
}

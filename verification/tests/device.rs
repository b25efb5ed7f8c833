use std::path::PathBuf;
use uiviewer::adb::{
    adb_output_bounded, displays_from_texts, dump_args, dump_bytes, fetch_device_refresh,
    get_displays, logical_displays_args, output_file_name, physical_displays_args, read_listing,
    screencap_args, screencap_bytes, swipe_args, tap_args, Ended, Listing, Look, Wait,
};
use uiviewer::capture::{
    adb_capture, capture_file_names, next_temp_id, uiautomator2_v3_capture, CaptureMethod,
    ShotSource, Stage, Store, StoreAction, TempGuard,
};

fn ended(success: bool, stdout: &[u8]) -> Ended {
    Ended { success, stdout: stdout.to_vec() }
}

fn path(s: &str) -> PathBuf {
    PathBuf::from(s)
}

#[test]
fn commands_have_their_arguments() {
    assert_eq!(
        screencap_args("S", 0, 99),
        vec!["-s", "S", "exec-out", "screencap", "-p"]
    );
    assert_eq!(
        screencap_args("S", 2, 4619827259835644672),
        vec!["-s", "S", "exec-out", "screencap", "-p", "-d", "4619827259835644672"]
    );
    assert_eq!(
        dump_args("S"),
        vec![
            "-s",
            "S",
            "exec-out",
            "rm -f /sdcard/uiviewer_dump.xml; uiautomator dump --windows /sdcard/uiviewer_dump.xml >/dev/null 2>&1 || uiautomator dump /sdcard/uiviewer_dump.xml >/dev/null 2>&1; cat /sdcard/uiviewer_dump.xml; rm -f /sdcard/uiviewer_dump.xml",
        ]
    );
    assert_eq!(tap_args("S", 0, "1", "2"), vec!["-s", "S", "shell", "input", "tap", "1", "2"]);
    assert_eq!(
        swipe_args("S", 3, "1", "2", "30", "40"),
        vec!["-s", "S", "shell", "input", "--display", "3", "swipe", "1", "2", "30", "40"]
    );
    assert_eq!(
        physical_displays_args("S"),
        vec!["-s", "S", "shell", "dumpsys", "SurfaceFlinger", "--display-id"]
    );
    assert_eq!(logical_displays_args("S"), vec!["-s", "S", "shell", "dumpsys", "display"]);
}

#[test]
fn screenshots_need_a_good_end() {
    assert_eq!(screencap_bytes(Ok(ended(true, b"png"))), Ok(b"png".to_vec()));
    assert_eq!(
        screencap_bytes(Ok(ended(false, b"png"))),
        Err("screencap returned error".to_string())
    );
    assert_eq!(
        screencap_bytes(Err("gone".into())),
        Err("screencap failed: gone".to_string())
    );
}

#[test]
fn dumps_start_at_the_xml() {
    assert_eq!(
        dump_bytes(Ok(ended(false, b"UI dumped\n<?xml version='1.0'?><a/>"))),
        Ok(b"<?xml version='1.0'?><a/>".to_vec())
    );
    assert_eq!(
        dump_bytes(Ok(ended(true, b"error"))),
        Err("uiautomator dump returned no XML (both --windows and fallback)".to_string())
    );
    assert_eq!(
        dump_bytes(Err("gone".into())),
        Err("uiautomator dump failed: gone".to_string())
    );
}

#[test]
fn commands_are_waited_for_until_the_deadline() {
    assert_eq!(adb_output_bounded(Look::Running, 9, 10), Wait::Sleep(50));
    assert_eq!(adb_output_bounded(Look::Running, 10, 10), Wait::Detach);
    assert_eq!(adb_output_bounded(Look::Exited, 20, 10), Wait::Collect);
    assert_eq!(adb_output_bounded(Look::Failed, 0, 10), Wait::Detach);
    assert_eq!(output_file_name(17), "uiviewer_adb_17.out");
}

#[test]
fn displays_join_both_reports() {
    let physical = b"Display 4619827259835644672 (HWC display 0): port=0\r\n  Display 77 (HWC display  2 ): x\nDisplay x (HWC display 1): y\nDisplay 5 no hwc\nDisplay 78 (HWC display 2): later\n";
    let logical = b"  Display Id=2\nDisplay Id=0\n Display Id= 9 \nDisplay Id=2\nDisplay Id=x\nOther Id=5\n";
    assert_eq!(
        get_displays(Some(ended(true, physical)), Some(ended(true, logical))),
        vec![(0, 4619827259835644672), (2, 78), (9, 0)]
    );
    assert_eq!(
        get_displays(Some(ended(false, physical)), Some(ended(true, logical))),
        vec![(0, 0), (2, 0), (9, 0)]
    );
    assert_eq!(
        get_displays(Some(ended(true, physical)), None),
        vec![(0, 4619827259835644672)]
    );
    assert_eq!(get_displays(None, Some(ended(false, logical))), vec![(0, 0)]);
    assert_eq!(get_displays(None, Some(ended(true, b"nothing"))), vec![(0, 0)]);
    assert_eq!(
        displays_from_texts(&None, &Some("Display Id=Display Id=4".to_string())),
        vec![(4, 0)]
    );
}

#[test]
fn bytes_that_are_no_text_are_replaced() {
    assert_eq!(
        get_displays(None, Some(ended(true, b"\xff\nDisplay Id=3\n"))),
        vec![(3, 0)]
    );
}

#[test]
fn ready_devices_are_listed() {
    let (devices, diag) = read_listing("List of devices attached\nA\tdevice\nB\toffline\n\tdevice\nC\tdevice product:x\n\n");
    assert_eq!(devices, vec!["A", "C"]);
    assert_eq!(diag, "adb devices OK, 6 lines");
    let (devices, diag) = read_listing("");
    assert!(devices.is_empty());
    assert_eq!(diag, "adb devices OK, 0 lines");
}

#[test]
fn a_scan_keeps_the_current_device() {
    let listing = || Listing::Printed(b"List\nA\tdevice\nB\tdevice\n".to_vec());
    let (r, wanted) = fetch_device_refresh(listing(), Some("B".into()), vec![]);
    assert_eq!(r.devices, vec!["A", "B"]);
    assert_eq!(r.selected.as_deref(), Some("B"));
    assert_eq!(wanted.as_deref(), Some("B"));
    assert!(r.displays.is_none());
    assert_eq!(r.diag.as_deref(), Some("adb devices OK, 3 lines"));
    let (r, wanted) = fetch_device_refresh(listing(), Some("gone".into()), vec![]);
    assert_eq!(r.selected.as_deref(), Some("A"));
    assert_eq!(wanted.as_deref(), Some("A"));
    let (r, wanted) = fetch_device_refresh(Listing::Printed(b"List\n".to_vec()), None, vec!["X".into()]);
    assert!(r.devices.is_empty());
    assert_eq!((r.selected, wanted), (None, None));
}

#[test]
fn a_failed_scan_keeps_the_known_devices() {
    let (r, wanted) = fetch_device_refresh(
        Listing::Refused("status=1 stdout=\"\"".into()),
        Some("A".into()),
        vec!["A".into()],
    );
    assert_eq!(r.devices, vec!["A"]);
    assert_eq!((r.selected, wanted), (None, None));
    assert_eq!(r.diag.as_deref(), Some("adb devices status=1 stdout=\"\""));
    let (r, _) = fetch_device_refresh(Listing::Missing, None, vec!["A".into()]);
    assert_eq!(r.devices, vec!["A"]);
    assert_eq!(r.diag.as_deref(), Some("adb devices timed out (3s) or spawn failed"));
}

#[test]
fn numbers_for_files_count_up_and_wrap() {
    let mut counter = 5;
    assert_eq!(next_temp_id(&mut counter), 5);
    assert_eq!(next_temp_id(&mut counter), 6);
    counter = u64::MAX;
    assert_eq!(next_temp_id(&mut counter), u64::MAX);
    assert_eq!(next_temp_id(&mut counter), 0);
}

#[test]
fn captures_have_files_of_their_own() {
    assert_eq!(
        capture_file_names(CaptureMethod::Adb, 12),
        ("uiviewer_adb_screenshot_12.png".to_string(), "uiviewer_adb_dump_12.xml".to_string())
    );
    assert_eq!(
        capture_file_names(CaptureMethod::U2V3, 0),
        ("uiviewer_u2v3_screenshot_0.png".to_string(), "uiviewer_u2v3_dump_0.xml".to_string())
    );
}

#[test]
fn guarded_files_are_handed_over() {
    let mut guard = TempGuard::new();
    assert!(guard.files.is_empty());
    guard.track(path("a"));
    guard.track(path("b"));
    assert_eq!(guard.drain(), vec![path("a"), path("b")]);
    assert!(guard.files.is_empty());
    guard.track(path("c"));
    guard.disarm();
    assert!(guard.drain().is_empty());
}

#[test]
fn a_complete_pair_stays_on_disk() {
    let (store, action) = Store::begin(Ok(vec![1]), Ok(vec![2]), path("p"), path("x"));
    assert!(matches!(action, StoreAction::WriteScreenshot(b) if b == vec![1]));
    assert_eq!(store.guard.files, vec![path("p")]);
    let (store, action) = store.written(Ok(()));
    assert!(matches!(action, StoreAction::WriteHierarchy(b) if b == vec![2]));
    assert_eq!(store.guard.files, vec![path("p"), path("x")]);
    let (store, action) = store.written(Ok(()));
    assert!(matches!(action, StoreAction::Finish(Ok(()))));
    assert_eq!(store.stage, Stage::Closed);
    assert!(store.guard.files.is_empty());
}

#[test]
fn an_incomplete_pair_is_left_guarded() {
    let begin = |dump| Store::begin(Ok(vec![1]), dump, path("p"), path("x")).0;
    let (store, action) = begin(Ok(vec![2])).written(Err("full".into()));
    assert!(matches!(action, StoreAction::Finish(Err(e)) if e == "write png: full"));
    assert_eq!(store.guard.files, vec![path("p")]);
    let (store, action) = begin(Err("no dump".into())).written(Ok(()));
    assert!(matches!(action, StoreAction::Finish(Err(e)) if e == "no dump"));
    assert_eq!(store.guard.files, vec![path("p")]);
    let (store, action) = begin(Ok(vec![2])).written(Ok(())).0.written(Err("full".into()));
    assert!(matches!(action, StoreAction::Finish(Err(e)) if e == "write xml: full"));
    assert_eq!(store.guard.files, vec![path("p"), path("x")]);
}

#[test]
fn a_capture_without_a_screenshot_writes_nothing() {
    let (store, action) = adb_capture(
        Some(Ok(ended(false, b""))),
        Some(Ok(ended(true, b"<?xml?>"))),
        path("p"),
        path("x"),
    );
    assert!(matches!(action, StoreAction::Finish(Err(e)) if e == "screencap returned error"));
    assert!(store.guard.files.is_empty());
    let (_, action) = adb_capture(None, None, path("p"), path("x"));
    assert!(matches!(action, StoreAction::Finish(Err(e)) if e == "screencap thread panicked"));
    let (store, _) = adb_capture(Some(Ok(ended(true, b"i"))), None, path("p"), path("x"));
    let (_, action) = store.written(Ok(()));
    assert!(matches!(action, StoreAction::Finish(Err(e)) if e == "dump thread panicked"));
}

#[test]
fn a_server_capture_tells_its_source() {
    let (store, action, source) = uiautomator2_v3_capture(
        Some(Ok((vec![1], ShotSource::JsonRpc))),
        Some(Ok(vec![2])),
        path("p"),
        path("x"),
    );
    assert!(matches!(action, StoreAction::WriteScreenshot(_)));
    assert_eq!(source, ShotSource::JsonRpc);
    assert_eq!(store.dump, Ok(vec![2]));
    let (_, action, _) = uiautomator2_v3_capture(None, None, path("p"), path("x"));
    assert!(matches!(action, StoreAction::Finish(Err(e)) if e == "screenshot thread panicked"));
    let (store, _, _) = uiautomator2_v3_capture(
        Some(Ok((vec![1], ShotSource::Adb))),
        None,
        path("p"),
        path("x"),
    );
    assert_eq!(store.dump, Err("hierarchy thread panicked".to_string()));
    let (_, action, _) =
        uiautomator2_v3_capture(Some(Err("no shot".into())), None, path("p"), path("x"));
    assert!(matches!(action, StoreAction::Finish(Err(e)) if e == "no shot"));
}

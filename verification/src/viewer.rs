//! The state of the viewer, and how it changes with what the user does and what comes back
//! from the device. Times are in nanoseconds.

use crate::capture::CaptureMethod;
use crate::geometry::Pos;
use crate::monitor::{Monitor, MonitorView};
use crate::rows::PathSet;
use crate::text::{chars_in, copy_of};
use crate::tree::{path_in, tree_in, NodeView, UiNode};
use std::path::PathBuf;
use vstd::prelude::*;

verus! {

/// How long a capture may take.
pub const CAPTURE_TIMEOUT: u64 = 10_000_000_000;

/// How long a device scan may take, and how far apart scans are.
pub const REFRESH_TIMEOUT: u64 = 15_000_000_000;

/// How long the device gets to settle after a tap or a swipe.
pub const SETTLE_DELAY: u64 = 1_000_000_000;

/// How long a probe may take.
pub const PROBE_TIMEOUT: u64 = 2_000_000_000;

/// The sort key of 5, the distance at which the pointer counts as moved.
pub const MOVED: i64 = 0x40a0_0000;

/// The sort key of 10, the distance at which a click is elsewhere and a drag is a swipe.
pub const APART: i64 = 0x4120_0000;

// ── State ──

/// The viewer.
#[derive(Debug)]
pub struct App {
    pub root_node: Option<UiNode>,
    pub selected_path: Option<Vec<usize>>,
    pub scroll_to_target: Option<Vec<usize>>,
    pub hovered_path: Option<Vec<usize>>,
    pub screenshot_path: Option<PathBuf>,
    pub xml_path: Option<PathBuf>,
    /// The unfolded nodes of the tree view.
    pub expanded: PathSet,
    pub last_selected: Option<Vec<usize>>,
    pub screenshot_dir: Option<PathBuf>,
    pub xml_dir: Option<PathBuf>,
    /// The files of the capture that is shown.
    pub temp_screenshot: Option<PathBuf>,
    pub temp_xml: Option<PathBuf>,
    pub status_message: Option<String>,
    pub status_is_error: bool,
    pub adb_devices: Vec<String>,
    pub selected_device: Option<String>,
    /// Logical and physical ids.
    pub available_displays: Vec<(u32, u64)>,
    pub display_id: u32,
    pub tree_display_id: u32,
    pub parsed_tree_display_id: u32,
    pub pending_tap: Option<Pos>,
    pub tap_settle_start: Option<u64>,
    pub last_capture: Option<CaptureMethod>,
    pub monitor: Monitor,
    pub click_pos: Option<Pos>,
    pub last_hover_img_pos: Option<Pos>,
    pub file_displays: Vec<u32>,
    pub file_xml_content: Option<String>,
    pub drag_start_img: Option<Pos>,
    pub last_adb_check: Option<u64>,
    pub capturing: bool,
    pub capture_start: Option<u64>,
    /// Whether the result of a capture is awaited.
    pub capture_awaited: bool,
    /// The files of the capture before the one that is on its way.
    pub pending_old_screenshot: Option<PathBuf>,
    pub pending_old_xml: Option<PathBuf>,
    /// The files of the capture that is on its way.
    pub in_flight_screenshot: Option<PathBuf>,
    pub in_flight_xml: Option<PathBuf>,
    /// Whether the result of a scan is awaited.
    pub refresh_awaited: bool,
    pub refresh_start: Option<u64>,
    pub manual_refreshing: bool,
    /// Counts the trees that were shown.
    pub tree_revision: u64,
    /// The revision, the path and the XPath that was found for it.
    pub xpath_cache: Option<(u64, Vec<usize>, Option<String>)>,
    pub crop_x1: String,
    pub crop_y1: String,
    pub crop_x2: String,
    pub crop_y2: String,
    pub click_rgb: Option<(u8, u8, u8)>,
}

/// The viewer with texts, lists and trees as mathematical values.
#[verifier::ext_equal]
pub struct AppView {
    pub root: Option<NodeView>,
    pub selected_path: Option<Seq<usize>>,
    pub scroll_to_target: Option<Seq<usize>>,
    pub hovered_path: Option<Seq<usize>>,
    pub screenshot_path: Option<PathBuf>,
    pub xml_path: Option<PathBuf>,
    pub expanded: Set<Seq<usize>>,
    pub last_selected: Option<Seq<usize>>,
    pub screenshot_dir: Option<PathBuf>,
    pub xml_dir: Option<PathBuf>,
    pub temp_screenshot: Option<PathBuf>,
    pub temp_xml: Option<PathBuf>,
    pub status_message: Option<Seq<char>>,
    pub status_is_error: bool,
    pub adb_devices: Seq<Seq<char>>,
    pub selected_device: Option<Seq<char>>,
    pub available_displays: Seq<(u32, u64)>,
    pub display_id: u32,
    pub tree_display_id: u32,
    pub parsed_tree_display_id: u32,
    pub pending_tap: Option<Pos>,
    pub tap_settle_start: Option<u64>,
    pub last_capture: Option<CaptureMethod>,
    pub monitor: MonitorView,
    pub click_pos: Option<Pos>,
    pub last_hover_img_pos: Option<Pos>,
    pub file_displays: Seq<u32>,
    pub file_xml_content: Option<Seq<char>>,
    pub drag_start_img: Option<Pos>,
    pub last_adb_check: Option<u64>,
    pub capturing: bool,
    pub capture_start: Option<u64>,
    pub capture_awaited: bool,
    pub pending_old_screenshot: Option<PathBuf>,
    pub pending_old_xml: Option<PathBuf>,
    pub in_flight_screenshot: Option<PathBuf>,
    pub in_flight_xml: Option<PathBuf>,
    pub refresh_awaited: bool,
    pub refresh_start: Option<u64>,
    pub manual_refreshing: bool,
    pub tree_revision: u64,
    pub xpath_cache: Option<(u64, Seq<usize>, Option<Seq<char>>)>,
    pub crop_x1: Seq<char>,
    pub crop_y1: Seq<char>,
    pub crop_x2: Seq<char>,
    pub crop_y2: Seq<char>,
    pub click_rgb: Option<(u8, u8, u8)>,
}

/// The cache of the XPath as a mathematical value.
pub open spec fn cache_in(c: Option<(u64, Vec<usize>, Option<String>)>) -> Option<
    (u64, Seq<usize>, Option<Seq<char>>),
> {
    match c {
        Some((revision, path, xpath)) => Some((revision, path@, chars_in(xpath))),
        None => None,
    }
}

impl View for App {
    type V = AppView;

    open spec fn view(&self) -> AppView {
        AppView {
            root: tree_in(self.root_node),
            selected_path: path_in(self.selected_path),
            scroll_to_target: path_in(self.scroll_to_target),
            hovered_path: path_in(self.hovered_path),
            screenshot_path: self.screenshot_path,
            xml_path: self.xml_path,
            expanded: self.expanded@,
            last_selected: path_in(self.last_selected),
            screenshot_dir: self.screenshot_dir,
            xml_dir: self.xml_dir,
            temp_screenshot: self.temp_screenshot,
            temp_xml: self.temp_xml,
            status_message: chars_in(self.status_message),
            status_is_error: self.status_is_error,
            adb_devices: self.adb_devices.deep_view(),
            selected_device: chars_in(self.selected_device),
            available_displays: self.available_displays@,
            display_id: self.display_id,
            tree_display_id: self.tree_display_id,
            parsed_tree_display_id: self.parsed_tree_display_id,
            pending_tap: self.pending_tap,
            tap_settle_start: self.tap_settle_start,
            last_capture: self.last_capture,
            monitor: self.monitor@,
            click_pos: self.click_pos,
            last_hover_img_pos: self.last_hover_img_pos,
            file_displays: self.file_displays@,
            file_xml_content: chars_in(self.file_xml_content),
            drag_start_img: self.drag_start_img,
            last_adb_check: self.last_adb_check,
            capturing: self.capturing,
            capture_start: self.capture_start,
            capture_awaited: self.capture_awaited,
            pending_old_screenshot: self.pending_old_screenshot,
            pending_old_xml: self.pending_old_xml,
            in_flight_screenshot: self.in_flight_screenshot,
            in_flight_xml: self.in_flight_xml,
            refresh_awaited: self.refresh_awaited,
            refresh_start: self.refresh_start,
            manual_refreshing: self.manual_refreshing,
            tree_revision: self.tree_revision,
            xpath_cache: cache_in(self.xpath_cache),
            crop_x1: self.crop_x1@,
            crop_y1: self.crop_y1@,
            crop_x2: self.crop_x2@,
            crop_y2: self.crop_y2@,
            click_rgb: self.click_rgb,
        }
    }
}

impl AppView {
    /// The viewer when the program starts.
    pub open spec fn initial() -> AppView {
        AppView {
            root: None,
            selected_path: None,
            scroll_to_target: None,
            hovered_path: None,
            screenshot_path: None,
            xml_path: None,
            expanded: Set::empty(),
            last_selected: None,
            screenshot_dir: None,
            xml_dir: None,
            temp_screenshot: None,
            temp_xml: None,
            status_message: None,
            status_is_error: false,
            adb_devices: Seq::empty(),
            selected_device: None,
            available_displays: seq![(0u32, 0u64)],
            display_id: 0,
            tree_display_id: 0,
            parsed_tree_display_id: 0,
            pending_tap: None,
            tap_settle_start: None,
            last_capture: None,
            monitor: MonitorView::initial(),
            click_pos: None,
            last_hover_img_pos: None,
            file_displays: Seq::empty(),
            file_xml_content: None,
            drag_start_img: None,
            last_adb_check: None,
            capturing: false,
            capture_start: None,
            capture_awaited: false,
            pending_old_screenshot: None,
            pending_old_xml: None,
            in_flight_screenshot: None,
            in_flight_xml: None,
            refresh_awaited: false,
            refresh_start: None,
            manual_refreshing: false,
            tree_revision: 0,
            xpath_cache: None,
            crop_x1: Seq::empty(),
            crop_y1: Seq::empty(),
            crop_x2: Seq::empty(),
            crop_y2: Seq::empty(),
            click_rgb: None,
        }
    }

    /// With a message in the status bar.
    pub open spec fn says(self, message: Seq<char>, is_error: bool) -> AppView {
        AppView { status_message: Some(message), status_is_error: is_error, ..self }
    }
}

impl Default for App {
    /// The viewer when the program starts.
    fn default() -> (r: App)
        ensures
            r@ == AppView::initial(),
    {
        let displays: Vec<(u32, u64)> = vec![(0u32, 0u64)];
        let r = App {
            root_node: None,
            selected_path: None,
            scroll_to_target: None,
            hovered_path: None,
            screenshot_path: None,
            xml_path: None,
            expanded: PathSet::new(),
            last_selected: None,
            screenshot_dir: None,
            xml_dir: None,
            temp_screenshot: None,
            temp_xml: None,
            status_message: None,
            status_is_error: false,
            adb_devices: Vec::new(),
            selected_device: None,
            available_displays: displays,
            display_id: 0,
            tree_display_id: 0,
            parsed_tree_display_id: 0,
            pending_tap: None,
            tap_settle_start: None,
            last_capture: None,
            monitor: Monitor::new(),
            click_pos: None,
            last_hover_img_pos: None,
            file_displays: Vec::new(),
            file_xml_content: None,
            drag_start_img: None,
            last_adb_check: None,
            capturing: false,
            capture_start: None,
            capture_awaited: false,
            pending_old_screenshot: None,
            pending_old_xml: None,
            in_flight_screenshot: None,
            in_flight_xml: None,
            refresh_awaited: false,
            refresh_start: None,
            manual_refreshing: false,
            tree_revision: 0,
            xpath_cache: None,
            crop_x1: String::new(),
            crop_y1: String::new(),
            crop_x2: String::new(),
            crop_y2: String::new(),
            click_rgb: None,
        };
        assert(r@ =~= AppView::initial());
        r
    }
}

/// A list of the file, if there is one.
pub open spec fn one_file(p: Option<PathBuf>) -> Seq<PathBuf> {
    match p {
        Some(f) => seq![f],
        None => Seq::empty(),
    }
}

/// Adds a file to a list, if there is one.
pub fn add_file(list: &mut Vec<PathBuf>, p: Option<PathBuf>)
    ensures
        final(list)@ == old(list)@ + one_file(p),
{
    match p {
        Some(f) => {
            list.push(f);
            assert(list@ =~= old(list)@ + seq![f]);
        },
        None => {
            assert(list@ =~= old(list)@ + Seq::<PathBuf>::empty());
        },
    }
}

impl App {
    /// Shows a message in the status bar.
    pub fn say(&mut self, message: &str, is_error: bool)
        ensures
            final(self)@ == old(self)@.says(message@, is_error),
    {
        self.status_message = Some(copy_of(message));
        self.status_is_error = is_error;
    }

    /// Hands over the files that are to be removed when the viewer is closed: those of the
    /// capture that is shown, of the one before and of the one on its way.
    pub fn leftovers(&mut self) -> (r: Vec<PathBuf>)
        ensures
            r@ == one_file(old(self)@.temp_screenshot) + one_file(
                old(self)@.pending_old_screenshot,
            ) + one_file(old(self)@.in_flight_screenshot) + one_file(old(self)@.temp_xml)
                + one_file(old(self)@.pending_old_xml) + one_file(old(self)@.in_flight_xml),
            final(self)@ == (AppView {
                temp_screenshot: None,
                pending_old_screenshot: None,
                in_flight_screenshot: None,
                temp_xml: None,
                pending_old_xml: None,
                in_flight_xml: None,
                ..old(self)@
            }),
    {
        let mut list: Vec<PathBuf> = Vec::new();
        add_file(&mut list, self.temp_screenshot.take());
        assert(list@ =~= one_file(old(self)@.temp_screenshot));
        add_file(&mut list, self.pending_old_screenshot.take());
        add_file(&mut list, self.in_flight_screenshot.take());
        add_file(&mut list, self.temp_xml.take());
        add_file(&mut list, self.pending_old_xml.take());
        add_file(&mut list, self.in_flight_xml.take());
        list
    }
}

// ── Laws ──

/// The viewer starts with nothing shown, selected, known of devices or under way, and on the
/// primary display.
pub proof fn viewer_starts_empty(p: Seq<usize>)
    ensures
        ({
            let v = AppView::initial();
            &&& v.root is None && v.screenshot_path is None && v.xml_path is None && v.tree_revision
                == 0
            &&& v.selected_path is None && v.hovered_path is None && v.scroll_to_target is None
                && v.last_selected is None && !v.expanded.contains(p) && v.xpath_cache is None
            &&& v.status_message is None && !v.status_is_error
            &&& v.adb_devices.len() == 0 && v.selected_device is None && v.last_adb_check is None
                && v.available_displays == seq![(0u32, 0u64)]
            &&& v.display_id == 0 && v.tree_display_id == 0 && v.parsed_tree_display_id == 0
                && v.file_displays.len() == 0 && v.file_xml_content is None
            &&& !v.capturing && !v.capture_awaited && !v.refresh_awaited && !v.manual_refreshing
                && v.capture_start is None && v.refresh_start is None && v.last_capture is None
            &&& v.pending_tap is None && v.tap_settle_start is None && v.click_pos is None
                && v.click_rgb is None && v.drag_start_img is None && v.last_hover_img_pos is None
            &&& v.temp_screenshot is None && v.temp_xml is None && v.pending_old_screenshot is None
                && v.pending_old_xml is None && v.in_flight_screenshot is None && v.in_flight_xml
                is None && v.screenshot_dir is None && v.xml_dir is None
            &&& v.crop_x1.len() == 0 && v.crop_y1.len() == 0 && v.crop_x2.len() == 0
                && v.crop_y2.len() == 0
            &&& !v.monitor.keep && v.monitor.next is None && !v.monitor.probing && v.monitor.hash
                is None && v.monitor.count == 0 && v.monitor.pause() == 3_000_000_000
        }),
{
}

/// A message replaces the one before, with its kind, and changes nothing else.
pub proof fn messages_change_the_status_only(v: AppView, message: Seq<char>, is_error: bool)
    ensures
        v.says(message, is_error).status_message == Some(message),
        v.says(message, is_error).status_is_error == is_error,
        v.says(message, is_error) == (AppView {
            status_message: v.says(message, is_error).status_message,
            status_is_error: v.says(message, is_error).status_is_error,
            ..v
        }),
{
}

/// A file that is there is listed, and nothing is where there is none.
pub proof fn only_a_file_is_listed(p: PathBuf)
    ensures
        one_file(Some(p)) == seq![p],
        one_file(None).len() == 0,
{
}

} // verus!

//! Captures in the viewer: starting one, taking in its result, and repeating it under the
//! monitor.

use crate::bytes::{fnv1a, fnv1a_hash};
use crate::capture::{CaptureMethod, CaptureResult, ShotSource};
use crate::devices::Poll;
use crate::files::{content_in, content_shown, is_document, loaded_root, pair_loaded, view_of,
    LoadView};
use crate::geometry::{reads_all, reads_as, Coord, Pos};
use crate::monitor::MonitorView;
use crate::text::{chars_in, copy_of, text_in};
use crate::viewer::{add_file, one_file, App, AppView, CAPTURE_TIMEOUT, PROBE_TIMEOUT,
    SETTLE_DELAY};
use crate::xml::{Content, ContentView};
use std::path::PathBuf;
use vstd::prelude::*;

verus! {

// ── Starting ──

/// A capture that is to be made.
#[derive(Debug)]
pub struct Order {
    pub method: CaptureMethod,
    pub serial: String,
    pub display_id: u32,
    pub physical: u64,
}

/// A capture that is to be made, with its text as characters.
pub struct OrderView {
    pub method: CaptureMethod,
    pub serial: Seq<char>,
    pub display_id: u32,
    pub physical: u64,
}

impl View for Order {
    type V = OrderView;

    open spec fn view(&self) -> OrderView {
        OrderView {
            method: self.method,
            serial: self.serial@,
            display_id: self.display_id,
            physical: self.physical,
        }
    }
}

/// The order in an option.
pub open spec fn order_in(r: Option<Order>) -> Option<OrderView> {
    match r {
        Some(o) => Some(o@),
        None => None,
    }
}

/// The physical id of the first display with this logical id, or 0.
pub open spec fn physical_id(displays: Seq<(u32, u64)>, id: u32, i: int) -> u64
    decreases displays.len() - i,
{
    if i >= displays.len() {
        0
    } else if displays[i].0 == id {
        displays[i].1
    } else {
        physical_id(displays, id, i + 1)
    }
}

fn find_physical(displays: &Vec<(u32, u64)>, id: u32) -> (r: u64)
    ensures
        r == physical_id(displays@, id, 0),
{
    let n: usize = displays.len();
    for i in 0..n
        invariant
            n == displays@.len(),
            physical_id(displays@, id, 0) == physical_id(displays@, id, i as int),
    {
        if displays[i].0 == id {
            return displays[i].1;
        }
    }
    0
}

/// No device is selected.
pub open spec fn no_device() -> Seq<char> {
    "No device selected — connect a device and ensure it appears in the dropdown"@
}

impl AppView {
    /// With the monitor turned off.
    pub open spec fn unmonitored(self) -> AppView {
        AppView { monitor: self.monitor.stopped(), ..self }
    }

    /// With a capture on its way. The files of the one that is shown are set aside.
    pub open spec fn capture_begun(self, now: u64) -> AppView {
        AppView {
            capturing: true,
            capture_start: Some(now),
            capture_awaited: true,
            temp_screenshot: None,
            temp_xml: None,
            pending_old_screenshot: self.temp_screenshot,
            pending_old_xml: self.temp_xml,
            ..self
        }.says("Capturing..."@, false)
    }

    /// With no capture on its way any more.
    pub open spec fn capture_over(self) -> AppView {
        AppView { capturing: false, capture_start: None, capture_awaited: false, ..self }
    }

    /// With the files that were set aside back in their place.
    pub open spec fn restored(self) -> AppView {
        AppView {
            temp_screenshot: self.pending_old_screenshot,
            temp_xml: self.pending_old_xml,
            pending_old_screenshot: None,
            pending_old_xml: None,
            ..self
        }
    }

    /// With the files of the capture on its way no longer tracked.
    pub open spec fn landed(self) -> AppView {
        AppView { in_flight_screenshot: None, in_flight_xml: None, ..self }
    }
}

/// What starting a capture leads to, and the order that it gives. A second capture is not
/// started; without a device there is none, and the monitor is turned off.
pub open spec fn capture_started(v: AppView, method: CaptureMethod, now: u64) -> (
    AppView,
    Option<OrderView>,
) {
    if v.capturing {
        (v, None)
    } else {
        match v.selected_device {
            None => (v.says(no_device(), true).unmonitored(), None),
            Some(serial) => (
                v.capture_begun(now),
                Some(
                    OrderView {
                        method,
                        serial,
                        display_id: v.display_id,
                        physical: physical_id(v.available_displays, v.display_id, 0),
                    },
                ),
            ),
        }
    }
}

impl App {
    /// Turns the monitor off and forgets what it had scheduled.
    pub fn stop_keep_monitor(&mut self)
        ensures
            final(self)@ == old(self)@.unmonitored(),
    {
        self.monitor.stop();
    }

    /// Starts a capture. The answer is the order to carry out, if there is one; where its
    /// files go is then told to `track_capture`.
    pub fn start_capture(&mut self, method: CaptureMethod, now: u64) -> (r: Option<Order>)
        ensures
            (final(self)@, order_in(r)) == capture_started(old(self)@, method, now),
    {
        if self.capturing {
            return None;
        }
        let serial = match &self.selected_device {
            Some(s) => s.clone(),
            None => {
                self.say(
                    "No device selected — connect a device and ensure it appears in the dropdown",
                    true,
                );
                self.stop_keep_monitor();
                return None;
            },
        };
        self.capturing = true;
        self.capture_start = Some(now);
        self.say("Capturing...", false);
        let old_png = self.temp_screenshot.take();
        let old_xml = self.temp_xml.take();
        let display_id: u32 = self.display_id;
        let physical: u64 = find_physical(&self.available_displays, display_id);
        self.capture_awaited = true;
        self.pending_old_screenshot = old_png;
        self.pending_old_xml = old_xml;
        Some(Order { method, serial, display_id, physical })
    }

    /// Keeps track of the files of the capture that is on its way.
    pub fn track_capture(&mut self, png: PathBuf, xml: PathBuf)
        ensures
            final(self)@ == (AppView {
                in_flight_screenshot: Some(png),
                in_flight_xml: Some(xml),
                ..old(self)@
            }),
    {
        self.in_flight_screenshot = Some(png);
        self.in_flight_xml = Some(xml);
    }

    /// Whether the user can start a capture: not while one is under way or the monitor is on.
    pub fn can_capture(&self) -> (r: bool)
        ensures
            r == (!self@.capturing && !self@.monitor.keep),
    {
        !self.capturing && !self.monitor.keep()
    }

    /// Starts a capture that the user asked for. It is the kind that is repeated from now on.
    pub fn capture_now(&mut self, method: CaptureMethod, now: u64) -> (r: Option<Order>)
        ensures
            (final(self)@, order_in(r)) == capture_started(
                AppView { last_capture: Some(method), ..old(self)@ },
                method,
                now,
            ),
    {
        self.last_capture = Some(method);
        self.start_capture(method, now)
    }
}

// ── Results ──

/// What a look for the result of a capture asks for.
#[derive(Debug)]
pub enum CaptureOutcome {
    Nothing,
    /// Look again after so many nanoseconds.
    Wake(u64),
    /// Kill the automation server.
    Kill,
    /// Load these files and tell `finish_capture` how it went.
    Load(CaptureMethod, PathBuf, PathBuf, ShotSource),
}

/// The name of a method in messages.
pub open spec fn method_label(method: CaptureMethod) -> Seq<char> {
    match method {
        CaptureMethod::Adb => "ADB"@,
        CaptureMethod::U2V3 => "u2 v3"@,
    }
}

/// The state once a capture has failed: what was shown stays, and the monitor is turned off.
pub open spec fn capture_failed(v: AppView, message: Seq<char>) -> AppView {
    v.capture_over().restored().says(message, true).unmonitored()
}

/// What a look for the result of a capture leads to.
pub open spec fn capture_polled(
    v: AppView,
    found: Poll<(CaptureMethod, CaptureResult)>,
    now: u64,
) -> (AppView, CaptureOutcome) {
    match found {
        Poll::Idle => (v, CaptureOutcome::Nothing),
        Poll::Empty => match v.capture_start {
            Some(start) => if now.saturating_sub(start) >= CAPTURE_TIMEOUT {
                (
                    capture_failed(v, "capture timed out — device not responding"@),
                    CaptureOutcome::Kill,
                )
            } else {
                (
                    v,
                    CaptureOutcome::Wake((CAPTURE_TIMEOUT - now.saturating_sub(start)) as u64),
                )
            },
            None => (v, CaptureOutcome::Nothing),
        },
        Poll::Gone => (
            capture_failed(
                v,
                "capture failed: background thread ended unexpectedly"@,
            ).landed(),
            CaptureOutcome::Kill,
        ),
        Poll::Ready((method, Err(e))) => (
            capture_failed(v, method_label(method) + " capture failed: "@ + e@).landed(),
            CaptureOutcome::Nothing,
        ),
        Poll::Ready((method, Ok((png, xml, source)))) => (
            v.capture_over(),
            CaptureOutcome::Load(method, png, xml, source),
        ),
    }
}

/// What is said of a capture that succeeded.
pub open spec fn success_message(method: CaptureMethod, source: ShotSource) -> Seq<char> {
    match method {
        CaptureMethod::U2V3 => "uiautomator2 v3 capture successful"@ + (if source
            == ShotSource::Adb {
            " (screenshot via ADB)"@
        } else {
            ""@
        }),
        CaptureMethod::Adb => "ADB capture successful"@,
    }
}

/// What loading the files of a capture leads to. Its own files are removed if they are no
/// good, and those of the capture before if they are.
pub open spec fn capture_finished(
    v: AppView,
    load: LoadView,
    method: CaptureMethod,
    png: PathBuf,
    xml: PathBuf,
    source: ShotSource,
    dump: Option<Seq<u8>>,
    now: u64,
) -> (AppView, Seq<PathBuf>) {
    if !load.ok {
        (
            v.restored().landed().says(
                "capture failed: screenshot or layout could not be loaded"@,
                true,
            ).unmonitored(),
            seq![png, xml],
        )
    } else {
        let shown = AppView {
            temp_screenshot: Some(png),
            temp_xml: Some(xml),
            pending_old_screenshot: None,
            pending_old_xml: None,
            monitor: if v.monitor.keep {
                v.monitor.rebased(
                    match dump {
                        Some(b) => Some(fnv1a(b)),
                        None => None,
                    },
                ).scheduled(now)
            } else {
                v.monitor
            },
            ..load.state
        }.landed().says(success_message(method, source), false);
        (
            shown,
            load.removed + one_file(v.pending_old_screenshot) + one_file(v.pending_old_xml),
        )
    }
}

fn method_name(method: CaptureMethod) -> (r: String)
    ensures
        r@ == method_label(method),
{
    match method {
        CaptureMethod::Adb => copy_of("ADB"),
        CaptureMethod::U2V3 => copy_of("u2 v3"),
    }
}

fn success_text(method: CaptureMethod, source: ShotSource) -> (r: String)
    ensures
        r@ == success_message(method, source),
{
    match method {
        CaptureMethod::U2V3 => {
            let mut m = copy_of("uiautomator2 v3 capture successful");
            if source == ShotSource::Adb {
                m.append(" (screenshot via ADB)");
            } else {
                m.append("");
            }
            m
        },
        CaptureMethod::Adb => copy_of("ADB capture successful"),
    }
}

impl App {
    fn fail_capture(&mut self, message: &str)
        ensures
            final(self)@ == capture_failed(old(self)@, message@),
    {
        self.capture_awaited = false;
        self.capturing = false;
        self.capture_start = None;
        self.temp_screenshot = self.pending_old_screenshot.take();
        self.temp_xml = self.pending_old_xml.take();
        self.say(message, true);
        self.stop_keep_monitor();
    }

    /// Takes in what a look for the result of a capture found. A capture that takes too long
    /// is given up.
    pub fn poll_capture(&mut self, found: Poll<(CaptureMethod, CaptureResult)>, now: u64) -> (r:
        CaptureOutcome)
        ensures
            (final(self)@, r) == capture_polled(old(self)@, found, now),
    {
        match found {
            Poll::Idle => CaptureOutcome::Nothing,
            Poll::Empty => {
                if let Some(start) = self.capture_start {
                    let elapsed: u64 = now.saturating_sub(start);
                    if elapsed >= CAPTURE_TIMEOUT {
                        self.fail_capture("capture timed out — device not responding");
                        return CaptureOutcome::Kill;
                    }
                    return CaptureOutcome::Wake(CAPTURE_TIMEOUT - elapsed);
                }
                CaptureOutcome::Nothing
            },
            Poll::Gone => {
                self.fail_capture("capture failed: background thread ended unexpectedly");
                self.in_flight_screenshot = None;
                self.in_flight_xml = None;
                CaptureOutcome::Kill
            },
            Poll::Ready((method, Err(e))) => {
                let mut m = method_name(method);
                m.append(" capture failed: ");
                m.append(e.as_str());
                self.fail_capture(m.as_str());
                self.in_flight_screenshot = None;
                self.in_flight_xml = None;
                CaptureOutcome::Nothing
            },
            Poll::Ready((method, Ok((png, xml, source)))) => {
                self.capture_awaited = false;
                self.capturing = false;
                self.capture_start = None;
                CaptureOutcome::Load(method, png, xml, source)
            },
        }
    }

    /// Shows the files of a capture: whether the image could be decoded, what was made of the
    /// hierarchy if it could be read, and the bytes of its file if they could be read. The
    /// answer lists files to remove.
    pub fn show_capture(
        &mut self,
        method: CaptureMethod,
        png: PathBuf,
        xml: PathBuf,
        source: ShotSource,
        image_ok: bool,
        content: Option<Content>,
        dir: Option<PathBuf>,
        dump: Option<Vec<u8>>,
        now: u64,
    ) -> (r: Vec<PathBuf>)
        requires
            old(self).tree_revision < u64::MAX,
        ensures
            (final(self)@, r@) == capture_finished(
                old(self)@,
                pair_loaded(old(self)@, image_ok, view_of(content), png, xml, dir),
                method,
                png,
                xml,
                source,
                match dump {
                    Some(b) => Some(b@),
                    None => None,
                },
                now,
            ),
    {
        let (ok, mut removed) = self.commit_pair(image_ok, content, png.clone(), xml.clone(), dir);
        if !ok {
            self.temp_screenshot = self.pending_old_screenshot.take();
            self.temp_xml = self.pending_old_xml.take();
            self.in_flight_screenshot = None;
            self.in_flight_xml = None;
            self.say("capture failed: screenshot or layout could not be loaded", true);
            self.stop_keep_monitor();
            let mut list: Vec<PathBuf> = Vec::new();
            list.push(png);
            list.push(xml);
            assert(list@ =~= seq![png, xml]);
            return list;
        }
        add_file(&mut removed, self.pending_old_screenshot.take());
        add_file(&mut removed, self.pending_old_xml.take());
        let keep = self.monitor.keep();
        if keep {
            let hash = match &dump {
                Some(b) => Some(fnv1a_hash(b.as_slice())),
                None => None,
            };
            self.monitor.rebase(hash);
            self.monitor.schedule(now);
        }
        self.temp_screenshot = Some(png);
        self.temp_xml = Some(xml);
        self.in_flight_screenshot = None;
        self.in_flight_xml = None;
        let m = success_text(method, source);
        self.say(m.as_str(), false);
        removed
    }
}

impl App {
    /// Shows the files of a capture: whether the image could be decoded, the text of the
    /// hierarchy if it could be read, and the bytes of its file if they could be read. The
    /// answer lists files to remove.
    pub fn finish_capture<F: Fn(&str) -> Option<Coord>>(
        &mut self,
        method: CaptureMethod,
        png: PathBuf,
        xml: PathBuf,
        source: ShotSource,
        image_ok: bool,
        text: Option<&str>,
        dir: Option<PathBuf>,
        dump: Option<Vec<u8>>,
        now: u64,
        read: &F,
    ) -> (r: Vec<PathBuf>)
        requires
            reads_all(*read),
            old(self).tree_revision < u64::MAX,
        ensures
            (final(self)@, r@) == capture_finished(
                old(self)@,
                pair_loaded(
                    old(self)@,
                    image_ok,
                    content_shown(
                        text_in(text),
                        old(self)@.tree_display_id,
                        loaded_root(!final(self)@.status_is_error, final(self)@),
                    ),
                    png,
                    xml,
                    dir,
                ),
                method,
                png,
                xml,
                source,
                match dump {
                    Some(b) => Some(b@),
                    None => None,
                },
                now,
            ),
            !final(self)@.status_is_error ==> is_document(text_in(text)),
            forall|g: spec_fn(Seq<char>) -> Option<Coord>| #[trigger]
                reads_as(*read, g) ==> (final(self)@, r@) == capture_finished(
                    old(self)@,
                    pair_loaded(
                        old(self)@,
                        image_ok,
                        content_in(text_in(text), old(self)@.tree_display_id, g),
                        png,
                        xml,
                        dir,
                    ),
                    method,
                    png,
                    xml,
                    source,
                    match dump {
                        Some(b) => Some(b@),
                        None => None,
                    },
                    now,
                ),
    {
        let content = match text {
            Some(t) => Some(App::parse_xml_content(t, self.tree_display_id, read)),
            None => None,
        };
        self.show_capture(method, png, xml, source, image_ok, content, dir, dump, now)
    }
}

/// A capture that fails, in whatever way, leaves the screenshot, the tree and their files as
/// they were before it began, and turns the monitor off.
pub proof fn failed_capture_changes_nothing(
    v: AppView,
    method: CaptureMethod,
    start: u64,
    message: Seq<char>,
)
    requires
        !v.capturing,
        v.selected_device is Some,
    ensures
        ({
            let w = capture_failed(capture_started(v, method, start).0, message);
            &&& w.root == v.root
            &&& w.screenshot_path == v.screenshot_path
            &&& w.xml_path == v.xml_path
            &&& w.temp_screenshot == v.temp_screenshot
            &&& w.temp_xml == v.temp_xml
            &&& !w.capturing && !w.capture_awaited
            &&& !w.monitor.keep && w.monitor.next is None && !w.monitor.probing
            &&& w.status_is_error
        }),
{
}

/// A capture whose files cannot be shown leaves the screenshot, the tree and their files as
/// they were, turns the monitor off, and has its own files removed.
pub proof fn unreadable_capture_changes_nothing(
    v: AppView,
    load: LoadView,
    method: CaptureMethod,
    png: PathBuf,
    xml: PathBuf,
    source: ShotSource,
    dump: Option<Seq<u8>>,
    start: u64,
    now: u64,
)
    requires
        !v.capturing,
        v.selected_device is Some,
        !load.ok,
    ensures
        ({
            let begun = capture_started(v, method, start).0.capture_over();
            let (w, removed) = capture_finished(
                begun,
                load,
                method,
                png,
                xml,
                source,
                dump,
                now,
            );
            &&& w.root == v.root
            &&& w.screenshot_path == v.screenshot_path
            &&& w.xml_path == v.xml_path
            &&& w.temp_screenshot == v.temp_screenshot
            &&& w.temp_xml == v.temp_xml
            &&& !w.monitor.keep
            &&& removed == seq![png, xml]
        }),
{
}

/// After a capture that succeeded its files are the ones that are kept, and those of the
/// capture before are removed.
pub proof fn shown_capture_replaces_files(
    v: AppView,
    image_ok: bool,
    c: Option<ContentView>,
    method: CaptureMethod,
    png: PathBuf,
    xml: PathBuf,
    dir: Option<PathBuf>,
    source: ShotSource,
    dump: Option<Seq<u8>>,
    start: u64,
    now: u64,
)
    requires
        !v.capturing,
        v.selected_device is Some,
        image_ok,
        c matches Some(content) && content.root is Some,
    ensures
        ({
            let begun = capture_started(v, method, start).0.capture_over();
            let load = pair_loaded(begun, image_ok, c, png, xml, dir);
            let (w, removed) = capture_finished(begun, load, method, png, xml, source, dump, now);
            &&& w.screenshot_path == Some(png) && w.temp_screenshot == Some(png)
            &&& w.xml_path == Some(xml) && w.temp_xml == Some(xml)
            &&& removed == one_file(v.temp_screenshot) + one_file(v.temp_xml)
            &&& w.pending_old_screenshot is None && w.pending_old_xml is None
            &&& w.in_flight_screenshot is None && w.in_flight_xml is None
        }),
{
    let begun = capture_started(v, method, start).0.capture_over();
    let load = pair_loaded(begun, image_ok, c, png, xml, dir);
    let (w, removed) = capture_finished(begun, load, method, png, xml, source, dump, now);
    assert(load.removed =~= Seq::<PathBuf>::empty());
    assert(removed =~= one_file(v.temp_screenshot) + one_file(v.temp_xml));
}

/// The viewer keeps track of a file: it is one of those that are removed when it is closed.
pub open spec fn tracks(v: AppView, f: PathBuf) -> bool {
    ||| v.temp_screenshot == Some(f)
    ||| v.temp_xml == Some(f)
    ||| v.pending_old_screenshot == Some(f)
    ||| v.pending_old_xml == Some(f)
    ||| v.in_flight_screenshot == Some(f)
    ||| v.in_flight_xml == Some(f)
}

/// No file is lost when a capture starts, or when its files are shown or found to be no good:
/// each that was tracked still is, or is to be removed.
pub proof fn captures_lose_no_file(
    v: AppView,
    image_ok: bool,
    c: Option<ContentView>,
    method: CaptureMethod,
    png: PathBuf,
    xml: PathBuf,
    dir: Option<PathBuf>,
    source: ShotSource,
    dump: Option<Seq<u8>>,
    now: u64,
    f: PathBuf,
)
    requires
        tracks(v, f),
    ensures
        v.pending_old_screenshot is None && v.pending_old_xml is None ==> tracks(
            capture_started(v, method, now).0,
            f,
        ),
        v.in_flight_screenshot == Some(png) && v.in_flight_xml == Some(xml) && v.temp_screenshot
            is None && v.temp_xml is None ==> ({
            let load = pair_loaded(v, image_ok, c, png, xml, dir);
            let (w, removed) = capture_finished(v, load, method, png, xml, source, dump, now);
            tracks(w, f) || removed.contains(f)
        }),
{
    let load = pair_loaded(v, image_ok, c, png, xml, dir);
    let (w, removed) = capture_finished(v, load, method, png, xml, source, dump, now);
    if load.ok {
        let old_png = one_file(v.pending_old_screenshot);
        let old_xml = one_file(v.pending_old_xml);
        let start = load.removed.len() as int;
        if v.pending_old_screenshot == Some(f) {
            assert(removed[start] == f);
        }
        if v.pending_old_xml == Some(f) {
            assert(removed[start + old_png.len()] == f);
        }
    } else {
        assert(removed[0] == png && removed[1] == xml);
    }
}

// ── Gestures ──

/// A tap that is to be sent: the device, if one is selected, its display, and where.
#[derive(Debug)]
pub struct Tap {
    pub serial: Option<String>,
    pub display_id: u32,
    pub pos: Pos,
}

/// What the wait for the device to settle asks for.
#[derive(Debug)]
pub enum Settle {
    Nothing,
    /// Look again soon.
    Wait,
    /// The wait is over; carry out the order, if there is one.
    Over(Option<Order>),
}

/// What the wait asks for, with texts as characters.
pub enum SettleView {
    Nothing,
    Wait,
    Over(Option<OrderView>),
}

impl View for Settle {
    type V = SettleView;

    open spec fn view(&self) -> SettleView {
        match *self {
            Settle::Nothing => SettleView::Nothing,
            Settle::Wait => SettleView::Wait,
            Settle::Over(order) => SettleView::Over(order_in(order)),
        }
    }
}

/// The wait for the device to settle starts anew, if there is one.
pub open spec fn wait_restarted(v: AppView, now: u64) -> AppView {
    AppView {
        tap_settle_start: if v.tap_settle_start is Some {
            Some(now)
        } else {
            None
        },
        ..v
    }
}

/// What the wait for the device to settle leads to: a capture, once it took long enough.
pub open spec fn settled(v: AppView, now: u64) -> (AppView, SettleView) {
    match v.tap_settle_start {
        None => (v, SettleView::Nothing),
        Some(start) => if now.saturating_sub(start) >= SETTLE_DELAY {
            let (w, order) = capture_started(
                AppView { tap_settle_start: None, ..v },
                repeated(v),
                now,
            );
            (w, SettleView::Over(order))
        } else {
            (v, SettleView::Wait)
        },
    }
}

/// The method that is repeated.
pub open spec fn repeated(v: AppView) -> CaptureMethod {
    match v.last_capture {
        Some(m) => m,
        None => CaptureMethod::Adb,
    }
}

impl App {
    fn repeated_method(&self) -> (r: CaptureMethod)
        ensures
            r == repeated(self@),
    {
        match self.last_capture {
            Some(m) => m,
            None => CaptureMethod::Adb,
        }
    }

    /// Takes the tap that is waiting to be sent. A capture follows once the device settled. The
    /// wait for that starts here, which keeps the monitor off, and starts anew when the tap was
    /// sent: that is told to `gesture_sent`.
    pub fn take_tap(&mut self, now: u64) -> (r: Option<Tap>)
        ensures
            match old(self)@.pending_tap {
                Some(pos) => {
                    &&& r matches Some(tap) && tap.pos == pos && tap.display_id == old(
                        self,
                    )@.display_id && chars_in(tap.serial) == old(self)@.selected_device
                    &&& final(self)@ == (AppView {
                        pending_tap: None,
                        tap_settle_start: Some(now),
                        ..old(self)@
                    }).says("Refreshing..."@, false)
                },
                None => r is None && final(self)@ == old(self)@,
            },
    {
        match self.pending_tap.take() {
            Some(pos) => {
                let serial = self.selected_device.clone();
                self.say("Refreshing...", false);
                self.tap_settle_start = Some(now);
                Some(Tap { serial, display_id: self.display_id, pos })
            },
            None => None,
        }
    }

    /// Takes in that the tap or swipe was sent, once the command has returned: the device has
    /// its time to settle from now on.
    pub fn gesture_sent(&mut self, now: u64)
        ensures
            final(self)@ == wait_restarted(old(self)@, now),
    {
        if self.tap_settle_start.is_some() {
            self.tap_settle_start = Some(now);
        }
    }

    /// Starts the capture that follows a gesture, once the device had time to settle.
    pub fn settle(&mut self, now: u64) -> (r: Settle)
        ensures
            (final(self)@, r@) == settled(old(self)@, now),
    {
        match self.tap_settle_start {
            Some(start) => {
                if now.saturating_sub(start) >= SETTLE_DELAY {
                    self.tap_settle_start = None;
                    let method = self.repeated_method();
                    Settle::Over(self.start_capture(method, now))
                } else {
                    Settle::Wait
                }
            },
            None => Settle::Nothing,
        }
    }
}

/// After a gesture was sent no capture starts, by the wait or by the monitor, before the device
/// had its time to settle, and one starts at the first look after it, where there is a device
/// and none is under way.
pub proof fn gesture_is_awaited(v: AppView, sent: u64, now: u64)
    requires
        v.tap_settle_start is Some,
    ensures
        ({
            let w = wait_restarted(v, sent);
            &&& !unhindered(w)
            &&& now < sent + SETTLE_DELAY ==> settled(w, now) == (w, SettleView::Wait)
            &&& now >= sent + SETTLE_DELAY && !v.capturing && v.selected_device is Some ==> (
            settled(w, now).1 matches SettleView::Over(order) && order is Some)
        }),
{
}

// ── Monitoring ──

/// What a tick of the monitor asks for.
#[derive(Debug)]
pub struct Tick {
    /// A capture to carry out.
    pub order: Option<Order>,
    /// Whether a probe is to be sent.
    pub probe: bool,
    /// How long to wait before the next tick.
    pub wake: Option<u64>,
}

/// What a tick asks for, with texts as characters.
pub struct TickView {
    pub order: Option<OrderView>,
    pub probe: bool,
    pub wake: Option<u64>,
}

impl View for Tick {
    type V = TickView;

    open spec fn view(&self) -> TickView {
        TickView { order: order_in(self.order), probe: self.probe, wake: self.wake }
    }
}

impl TickView {
    /// Nothing is to be done.
    pub open spec fn nothing() -> TickView {
        TickView { order: None, probe: false, wake: None }
    }
}

/// Nothing of the user's is under way that a capture would get into the way of.
pub open spec fn unhindered(v: AppView) -> bool {
    !v.capturing && v.pending_tap is None && v.tap_settle_start is None
}

/// What a capture by the monitor leads to: nothing else is scheduled until it is under way.
pub open spec fn monitor_fired(v: AppView, now: u64) -> (AppView, Option<OrderView>) {
    capture_started(
        AppView { monitor: MonitorView { next: None, ..v.monitor }, ..v },
        repeated(v),
        now,
    )
}

/// What the fingerprint of a probe, or its failure, leads to. A failure counts as a change.
pub open spec fn probe_taken(v: AppView, hash: Option<u64>, now: u64) -> (AppView, TickView) {
    let seen = AppView { monitor: MonitorView { probing: false, ..v.monitor }, ..v };
    if !unhindered(v) {
        (AppView { monitor: seen.monitor.scheduled(now), ..seen }, TickView::nothing())
    } else {
        let probed = match hash {
            Some(h) => AppView { monitor: seen.monitor.probed(h), ..seen },
            None => seen,
        };
        let fire = match hash {
            Some(h) => seen.monitor.calls(h),
            None => true,
        };
        if fire {
            let (w, order) = monitor_fired(probed, now);
            (
                AppView { monitor: w.monitor.scheduled(now), ..w },
                TickView { order, probe: false, wake: None },
            )
        } else {
            (
                AppView { monitor: probed.monitor.scheduled(now), ..probed },
                TickView { order: None, probe: false, wake: Some(v.monitor.pause()) },
            )
        }
    }
}

/// What it leads to when the time of the next act may have come. With the automation server a
/// probe is sent first; otherwise a capture is as cheap.
pub open spec fn due(v: AppView, now: u64) -> (AppView, TickView) {
    match v.monitor.next {
        None => (v, TickView::nothing()),
        Some(next) => if now < next {
            (v, TickView { order: None, probe: false, wake: Some((next - now) as u64) })
        } else if !unhindered(v) {
            (v, TickView::nothing())
        } else if repeated(v) == CaptureMethod::U2V3 {
            (
                AppView { monitor: MonitorView { probing: true, ..v.monitor }, ..v },
                TickView { order: None, probe: true, wake: None },
            )
        } else {
            let (w, order) = monitor_fired(v, now);
            (w, TickView { order, probe: false, wake: None })
        },
    }
}

/// What a tick of the monitor leads to, given what a look for the result of a probe found.
pub open spec fn ticked(v: AppView, found: Poll<Option<u64>>, now: u64) -> (AppView, TickView) {
    if !v.monitor.keep {
        (v, TickView::nothing())
    } else if v.monitor.probing {
        match found {
            Poll::Empty => (v, TickView { order: None, probe: false, wake: Some(PROBE_TIMEOUT) }),
            Poll::Ready(hash) => probe_taken(v, hash, now),
            _ => probe_taken(v, None, now),
        }
    } else {
        due(v, now)
    }
}

impl App {
    fn is_unhindered(&self) -> (r: bool)
        ensures
            r == unhindered(self@),
    {
        !self.capturing && self.pending_tap.is_none() && self.tap_settle_start.is_none()
    }

    fn fire_monitor(&mut self, now: u64) -> (r: Option<Order>)
        ensures
            (final(self)@, order_in(r)) == monitor_fired(old(self)@, now),
    {
        self.monitor.unschedule();
        let method = self.repeated_method();
        self.start_capture(method, now)
    }

    #[verifier::spinoff_prover]
    fn take_probe(&mut self, hash: Option<u64>, now: u64) -> (r: Tick)
        ensures
            (final(self)@, r@) == probe_taken(old(self)@, hash, now),
    {
        self.monitor.set_probing(false);
        if !self.is_unhindered() {
            self.monitor.schedule(now);
            return Tick { order: None, probe: false, wake: None };
        }
        let fire = match hash {
            Some(h) => self.monitor.absorb(h),
            None => true,
        };
        if fire {
            let order = self.fire_monitor(now);
            self.monitor.schedule(now);
            Tick { order, probe: false, wake: None }
        } else {
            self.monitor.schedule(now);
            Tick { order: None, probe: false, wake: Some(self.monitor.pause()) }
        }
    }

    /// Runs the monitor: takes in what a look for the result of a probe found, or acts when
    /// it is time. It waits for the user's gestures and for captures under way.
    pub fn monitor_tick(&mut self, found: Poll<Option<u64>>, now: u64) -> (r: Tick)
        ensures
            (final(self)@, r@) == ticked(old(self)@, found, now),
    {
        if !self.monitor.keep() {
            return Tick { order: None, probe: false, wake: None };
        }
        if self.monitor.probing() {
            return match found {
                Poll::Empty => Tick { order: None, probe: false, wake: Some(PROBE_TIMEOUT) },
                Poll::Ready(hash) => self.take_probe(hash, now),
                _ => self.take_probe(None, now),
            };
        }
        match self.monitor.next() {
            None => Tick { order: None, probe: false, wake: None },
            Some(next) => {
                if now < next {
                    return Tick { order: None, probe: false, wake: Some(next - now) };
                }
                if !self.is_unhindered() {
                    return Tick { order: None, probe: false, wake: None };
                }
                let method = self.repeated_method();
                if method == CaptureMethod::U2V3 {
                    self.monitor.set_probing(true);
                    Tick { order: None, probe: true, wake: None }
                } else {
                    let order = self.fire_monitor(now);
                    Tick { order, probe: false, wake: None }
                }
            },
        }
    }

    /// Turns the monitor on, to capture at once, or off.
    pub fn set_keep_monitor(&mut self, on: bool, now: u64)
        ensures
            final(self)@ == (AppView {
                monitor: if on {
                    MonitorView { keep: true, next: Some(now), ..old(self)@.monitor }
                } else {
                    old(self)@.monitor.stopped()
                },
                ..old(self)@
            }),
    {
        if on {
            self.monitor.start(now);
        } else {
            self.stop_keep_monitor();
        }
    }

    /// Makes the interval half a second longer or shorter. The next act follows the new
    /// interval, unless a capture or a probe is under way.
    pub fn step_interval(&mut self, longer: bool, now: u64)
        ensures
            final(self)@ == (AppView {
                monitor: if !old(self)@.capturing && !old(self)@.monitor.probing {
                    old(self)@.monitor.stepped(longer).scheduled(now)
                } else {
                    old(self)@.monitor.stepped(longer)
                },
                ..old(self)@
            }),
    {
        self.monitor.step(longer);
        if !self.capturing && !self.monitor.probing() {
            self.monitor.schedule(now);
        }
    }
}

/// The monitor neither captures nor probes while a gesture or a capture is under way.
pub proof fn monitor_yields(v: AppView, found: Poll<Option<u64>>, now: u64)
    requires
        !unhindered(v),
    ensures
        ticked(v, found, now).1.order is None,
        !ticked(v, found, now).1.probe,
        ticked(v, found, now).0 == (AppView { monitor: ticked(v, found, now).0.monitor, ..v }),
{
}

/// As long as the monitor is on, an act is scheduled, a probe is under way or a capture is: it
/// does not come to a standstill.
pub proof fn monitor_stays_alive(v: AppView, found: Poll<Option<u64>>, now: u64)
    requires
        v.monitor.keep ==> v.monitor.next is Some || v.monitor.probing || v.capturing,
    ensures
        ({
            let w = ticked(v, found, now).0;
            w.monitor.keep ==> w.monitor.next is Some || w.monitor.probing || w.capturing
        }),
{
}

/// A capture that succeeds under the monitor schedules the next act.
pub proof fn capture_keeps_monitor_alive(
    v: AppView,
    load: LoadView,
    method: CaptureMethod,
    png: PathBuf,
    xml: PathBuf,
    source: ShotSource,
    dump: Option<Seq<u8>>,
    now: u64,
)
    requires
        load.ok,
        load.state.monitor == v.monitor,
    ensures
        ({
            let w = capture_finished(v, load, method, png, xml, source, dump, now).0;
            w.monitor.keep ==> w.monitor.next is Some
        }),
{
}

// ── Laws of capturing ──

/// The physical id of a display is that of the first one with the logical id, and 0 where there
/// is none.
pub proof fn first_display_gives_the_physical_id(displays: Seq<(u32, u64)>, id: u32, i: int)
    requires
        0 <= i,
    ensures
        (exists|k: int|
            {
                &&& i <= k < displays.len()
                &&& #[trigger] displays[k] == (id, physical_id(displays, id, i))
                &&& forall|j: int| i <= j < k ==> (#[trigger] displays[j]).0 != id
            }) || (physical_id(displays, id, i) == 0 && forall|j: int|
            i <= j < displays.len() ==> (#[trigger] displays[j]).0 != id),
    decreases displays.len() - i,
{
    if i < displays.len() {
        if displays[i].0 == id {
            assert(displays[i] == (id, physical_id(displays, id, i)));
        } else {
            first_display_gives_the_physical_id(displays, id, i + 1);
            if exists|k: int|
                {
                    &&& i + 1 <= k < displays.len()
                    &&& #[trigger] displays[k] == (id, physical_id(displays, id, i + 1))
                    &&& forall|j: int| i + 1 <= j < k ==> (#[trigger] displays[j]).0 != id
                } {
                let k = choose|k: int|
                    {
                        &&& i + 1 <= k < displays.len()
                        &&& #[trigger] displays[k] == (id, physical_id(displays, id, i + 1))
                        &&& forall|j: int| i + 1 <= j < k ==> (#[trigger] displays[j]).0 != id
                    };
                assert(displays[k] == (id, physical_id(displays, id, i)));
            }
        }
    }
}

/// A capture is ordered exactly where a device is selected and no other capture is under way:
/// from that device, of the display that is chosen, by the method that is asked for. The files
/// of the capture before are set aside. Without a device the monitor is turned off and the user
/// is told; while a capture is under way nothing happens.
pub proof fn captures_are_ordered_one_at_a_time(v: AppView, method: CaptureMethod, now: u64)
    ensures
        ({
            let (w, order) = capture_started(v, method, now);
            &&& order is Some <==> !v.capturing && v.selected_device is Some
            &&& order matches Some(o) ==> o.method == method && Some(o.serial) == v.selected_device
                && o.display_id == v.display_id && o.physical == physical_id(
                v.available_displays,
                v.display_id,
                0,
            )
            &&& v.capturing ==> w == v
            &&& order is Some ==> {
                &&& w.capturing && w.capture_awaited && w.capture_start == Some(now)
                &&& w.pending_old_screenshot == v.temp_screenshot && w.pending_old_xml
                    == v.temp_xml
                &&& w.temp_screenshot is None && w.temp_xml is None
                &&& w.status_message == Some("Capturing..."@) && !w.status_is_error
                &&& w == (AppView {
                    capturing: true,
                    capture_awaited: true,
                    capture_start: Some(now),
                    pending_old_screenshot: w.pending_old_screenshot,
                    pending_old_xml: w.pending_old_xml,
                    temp_screenshot: None,
                    temp_xml: None,
                    status_message: w.status_message,
                    status_is_error: false,
                    ..v
                })
            }
            &&& !v.capturing && v.selected_device is None ==> {
                &&& !w.monitor.keep && w.monitor.next is None && !w.monitor.probing
                &&& w.status_is_error && w.status_message is Some
                &&& w == (AppView {
                    monitor: w.monitor,
                    status_message: w.status_message,
                    status_is_error: true,
                    ..v
                })
            }
        }),
{
}

/// What a failed capture leaves: no capture is under way, the files that were set aside are back,
/// the monitor is off, and the user is told why. All else is as it was.
pub proof fn failed_capture_restores(v: AppView, message: Seq<char>)
    ensures
        ({
            let w = capture_failed(v, message);
            &&& !w.capturing && !w.capture_awaited && w.capture_start is None
            &&& w.temp_screenshot == v.pending_old_screenshot && w.temp_xml == v.pending_old_xml
            &&& w.pending_old_screenshot is None && w.pending_old_xml is None
            &&& !w.monitor.keep && w.monitor.next is None && !w.monitor.probing
            &&& w.status_message == Some(message) && w.status_is_error
            &&& w == (AppView {
                capturing: false,
                capture_awaited: false,
                capture_start: None,
                temp_screenshot: w.temp_screenshot,
                temp_xml: w.temp_xml,
                pending_old_screenshot: None,
                pending_old_xml: None,
                monitor: w.monitor,
                status_message: w.status_message,
                status_is_error: true,
                ..v
            })
        }),
{
}

/// A capture is waited for, for ten seconds. What comes in time is loaded if it is good; a
/// failure, a thread that is gone, or the end of the time makes the capture fail. A server is
/// killed only in the last two cases.
pub proof fn captures_are_awaited_ten_seconds(
    v: AppView,
    start: u64,
    now: u64,
    method: CaptureMethod,
    png: PathBuf,
    xml: PathBuf,
    source: ShotSource,
    e: String,
)
    requires
        v.capture_start == Some(start),
        start <= now,
    ensures
        capture_polled(v, Poll::Idle, now) == (v, CaptureOutcome::Nothing),
        now < start + 10_000_000_000 ==> capture_polled(v, Poll::Empty, now) == (
            v,
            CaptureOutcome::Wake((start + 10_000_000_000 - now) as u64),
        ),
        now >= start + 10_000_000_000 ==> capture_polled(v, Poll::Empty, now) == (
            capture_failed(v, "capture timed out — device not responding"@),
            CaptureOutcome::Kill,
        ),
        capture_polled(v, Poll::Gone, now).1 == CaptureOutcome::Kill,
        capture_polled(v, Poll::Gone, now).0 == (AppView {
            in_flight_screenshot: None,
            in_flight_xml: None,
            ..capture_failed(v, "capture failed: background thread ended unexpectedly"@)
        }),
        capture_polled(v, Poll::Ready((method, Err(e))), now).1 == CaptureOutcome::Nothing,
        capture_polled(v, Poll::Ready((method, Err(e))), now).0 == (AppView {
            in_flight_screenshot: None,
            in_flight_xml: None,
            ..capture_failed(
                v,
                (match method {
                    CaptureMethod::Adb => "ADB"@,
                    CaptureMethod::U2V3 => "u2 v3"@,
                }) + " capture failed: "@ + e@,
            )
        }),
        capture_polled(v, Poll::Ready((method, Ok((png, xml, source)))), now) == (
            AppView { capturing: false, capture_awaited: false, capture_start: None, ..v },
            CaptureOutcome::Load(method, png, xml, source),
        ),
{
}

/// Showing a capture that was loaded keeps what was loaded, notes its files, and has the files
/// of the one before removed. A monitor that is on takes over the fingerprint of the dump and
/// goes on one interval later; one that is off stays off.
pub proof fn shown_capture_is_noted(
    v: AppView,
    load: LoadView,
    method: CaptureMethod,
    png: PathBuf,
    xml: PathBuf,
    source: ShotSource,
    dump: Option<Seq<u8>>,
    now: u64,
)
    requires
        load.ok,
    ensures
        ({
            let (w, removed) = capture_finished(v, load, method, png, xml, source, dump, now);
            &&& w.root == load.state.root && w.screenshot_path == load.state.screenshot_path
                && w.xml_path == load.state.xml_path
            &&& w.temp_screenshot == Some(png) && w.temp_xml == Some(xml)
            &&& !w.status_is_error
            &&& w.in_flight_screenshot is None && w.in_flight_xml is None
            &&& v.pending_old_screenshot matches Some(p) ==> removed.contains(p)
            &&& v.pending_old_xml matches Some(p) ==> removed.contains(p)
            &&& forall|p: PathBuf| load.removed.contains(p) ==> #[trigger] removed.contains(p)
            &&& !v.monitor.keep ==> w.monitor == v.monitor
            &&& v.monitor.keep ==> {
                &&& w.monitor.keep && w.monitor.count == 0
                &&& w.monitor.next == Some(now.saturating_add(v.monitor.pause()))
                &&& dump matches Some(b) ==> w.monitor.hash == Some(fnv1a(b))
                &&& dump is None ==> w.monitor.hash == v.monitor.hash
                &&& w.monitor.interval == v.monitor.interval
            }
            &&& method == CaptureMethod::Adb ==> w.status_message == Some(
                "ADB capture successful"@,
            )
            &&& method == CaptureMethod::U2V3 && source == ShotSource::Adb ==> w.status_message
                == Some("uiautomator2 v3 capture successful"@ + " (screenshot via ADB)"@)
            &&& w == (AppView {
                temp_screenshot: w.temp_screenshot,
                temp_xml: w.temp_xml,
                pending_old_screenshot: None,
                pending_old_xml: None,
                in_flight_screenshot: None,
                in_flight_xml: None,
                monitor: w.monitor,
                status_message: w.status_message,
                status_is_error: w.status_is_error,
                ..load.state
            })
        }),
{
    let (w, removed) = capture_finished(v, load, method, png, xml, source, dump, now);
    let a = load.removed;
    let b = one_file(v.pending_old_screenshot);
    let c = one_file(v.pending_old_xml);
    assert forall|p: PathBuf| a.contains(p) implies #[trigger] removed.contains(p) by {
        let k = choose|k: int| 0 <= k < a.len() && a[k] == p;
        assert(removed[k] == p);
    }
    if let Some(p) = v.pending_old_screenshot {
        assert(removed[a.len() as int] == p);
    }
    if let Some(p) = v.pending_old_xml {
        assert(removed[a.len() as int + b.len()] == p);
    }
}

/// The capture after a gesture is by the method that was used last, or through `adb` alone where
/// there was none; the wait is over by it.
pub proof fn settled_device_is_captured(v: AppView, start: u64, now: u64)
    requires
        v.tap_settle_start == Some(start),
    ensures
        ({
            let (w, r) = settled(v, now);
            &&& now < start + 1_000_000_000 ==> w == v && r is Wait
            &&& now >= start + 1_000_000_000 ==> w.tap_settle_start is None && (
            r matches SettleView::Over(order) && (order matches Some(o) ==> o.method == (
            match v.last_capture {
                Some(m) => m,
                None => CaptureMethod::Adb,
            }) && Some(o.serial) == v.selected_device))
        }),
        settled(AppView { tap_settle_start: None, ..v }, now).1 is Nothing,
{
}

/// The monitor acts only when it is on. With a probe under way it waits for its result. When it
/// is time it sends a probe where captures go through the server, and captures otherwise; before
/// that it waits for the rest of the time.
pub proof fn monitor_acts_when_it_is_time(v: AppView, found: Poll<Option<u64>>, now: u64)
    ensures
        ({
            let (w, t) = ticked(v, found, now);
            let by_server = v.last_capture == Some(CaptureMethod::U2V3);
            let free = !v.capturing && v.pending_tap is None && v.tap_settle_start is None;
            let waiting = v.monitor.keep && !v.monitor.probing;
            &&& !v.monitor.keep ==> w == v && t.order is None && !t.probe && t.wake is None
            &&& v.monitor.keep && v.monitor.probing && found is Empty ==> w == v && t.order is None
                && !t.probe && t.wake == Some(2_000_000_000u64)
            &&& waiting && v.monitor.next is None ==> w == v && t.order is None && !t.probe
            &&& waiting && (v.monitor.next matches Some(next) && now < next) ==> w == v && t.order
                is None && !t.probe && t.wake == Some((v.monitor.next->0 - now) as u64)
            &&& waiting && (v.monitor.next matches Some(next) && now >= next) && free && by_server
                ==> t.probe && t.order is None && w == (AppView {
                monitor: MonitorView { probing: true, ..v.monitor },
                ..v
            })
            &&& waiting && (v.monitor.next matches Some(next) && now >= next) && free && !by_server
                ==> !t.probe && (t.order is Some <==> v.selected_device is Some) && (
            t.order matches Some(o) ==> o.method == CaptureMethod::Adb)
        }),
{
}

/// A probe whose fingerprint has not changed, and that is not the tenth in a row, leads to no
/// capture; any other, and one that failed, leads to one where nothing hinders it and there is a
/// device. Either way the next act is scheduled.
pub proof fn probes_lead_to_captures(v: AppView, hash: Option<u64>, now: u64)
    requires
        v.monitor.keep && v.monitor.probing,
        !v.capturing && v.pending_tap is None && v.tap_settle_start is None,
        v.selected_device is Some,
    ensures
        ({
            let (w, t) = ticked(v, Poll::Ready(hash), now);
            let same = hash is Some && hash == v.monitor.hash && v.monitor.count < 9;
            &&& t.order is Some <==> !same
            &&& !w.monitor.probing && w.monitor.keep && w.monitor.next is Some
            &&& !t.probe
            &&& same ==> w.monitor.count == v.monitor.count + 1 && t.wake == Some(
                v.monitor.pause(),
            )
            &&& t.order matches Some(o) ==> Some(o.serial) == v.selected_device && w.capturing
        }),
{
}

} // verus!

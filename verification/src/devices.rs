//! Devices in the viewer: scanning for them, choosing one, and choosing its display.

use crate::adb::{first_of, lists, DeviceRefresh};
use crate::platform::same_text;
use crate::text::{chars_in, copy_of};
use crate::viewer::{App, AppView, REFRESH_TIMEOUT};
use vstd::prelude::*;

verus! {

/// What a look for an awaited result found.
#[derive(Debug)]
pub enum Poll<T> {
    /// Nothing is awaited.
    Idle,
    /// It is not there yet.
    Empty,
    /// It will not come any more.
    Gone,
    Ready(T),
}

/// Whether two optional texts are the same.
pub fn same_option(a: &Option<String>, b: &Option<String>) -> (r: bool)
    ensures
        r == (chars_in(*a) == chars_in(*b)),
{
    match (a, b) {
        (Some(x), Some(y)) => same_text(x.as_str(), y.as_str()),
        (None, None) => true,
        _ => false,
    }
}

/// Whether two lists of displays are the same.
fn same_displays(a: &Vec<(u32, u64)>, b: &Vec<(u32, u64)>) -> (r: bool)
    ensures
        r == (a@ == b@),
{
    let n: usize = a.len();
    if n != b.len() {
        return false;
    }
    for i in 0..n
        invariant
            n == a@.len(),
            n == b@.len(),
            forall|j: int| 0 <= j < i ==> a@[j] == b@[j],
    {
        if a[i].0 != b[i].0 || a[i].1 != b[i].1 {
            return false;
        }
    }
    assert(a@ =~= b@);
    true
}

/// A display with this logical id is in the list.
pub open spec fn has_display(displays: Seq<(u32, u64)>, id: u32) -> bool {
    exists|i: int| 0 <= i < displays.len() && (#[trigger] displays[i]).0 == id
}

fn knows_display(displays: &Vec<(u32, u64)>, id: u32) -> (r: bool)
    ensures
        r == has_display(displays@, id),
{
    let n: usize = displays.len();
    for i in 0..n
        invariant
            n == displays@.len(),
            forall|j: int| 0 <= j < i ==> (#[trigger] displays@[j]).0 != id,
    {
        if displays[i].0 == id {
            return true;
        }
    }
    false
}

// ── Scanning ──

/// Whether a scan starts. An automatic one keeps its distance from the last and does not
/// overlap another; one that the user asked for always starts.
pub open spec fn scan_starts(v: AppView, now: u64, force: bool) -> bool {
    force || !((v.last_adb_check matches Some(t) && now.saturating_sub(t) < REFRESH_TIMEOUT)
        || v.refresh_awaited)
}

/// The state once a scan is on its way.
pub open spec fn scan_started(v: AppView, now: u64) -> AppView {
    AppView {
        last_adb_check: Some(now),
        refresh_awaited: true,
        refresh_start: Some(now),
        ..v
    }
}

/// The state once no scan is awaited any more.
pub open spec fn scan_over(v: AppView) -> AppView {
    AppView { refresh_awaited: false, refresh_start: None, manual_refreshing: false, ..v }
}

fn copy_list(list: &Vec<String>) -> (r: Vec<String>)
    ensures
        r.deep_view() == list.deep_view(),
{
    let mut out: Vec<String> = Vec::new();
    let n: usize = list.len();
    for i in 0..n
        invariant
            n == list@.len(),
            out.deep_view() == list.deep_view().take(i as int),
    {
        let ghost before = out.deep_view();
        out.push(list[i].clone());
        assert(out.deep_view() =~= before.push(list.deep_view()[i as int]));
        assert(out.deep_view() =~= list.deep_view().take(i + 1));
    }
    assert(list.deep_view().take(n as int) =~= list.deep_view());
    out
}

/// The device to show after a scan: the one before if it is still there, or else the first.
pub open spec fn device_after(selected: Option<Seq<char>>, devices: Seq<Seq<char>>) -> Option<
    Seq<char>,
> {
    match selected {
        Some(s) => if devices.contains(s) {
            selected
        } else {
            first_of(devices)
        },
        None => if devices.contains(""@) {
            None
        } else {
            first_of(devices)
        },
    }
}

/// The device whose session is to be released after a scan: the one before, if another takes
/// its place.
pub open spec fn released(selected: Option<Seq<char>>, devices: Seq<Seq<char>>) -> Option<
    Seq<char>,
> {
    if selected is Some && device_after(selected, devices) != selected {
        selected
    } else {
        None
    }
}

/// The result of a scan with its parts as mathematical values.
pub struct RefreshView {
    pub devices: Seq<Seq<char>>,
    pub selected: Option<Seq<char>>,
    pub displays: Option<Seq<(u32, u64)>>,
    pub diag: Option<Seq<char>>,
}

impl View for DeviceRefresh {
    type V = RefreshView;

    open spec fn view(&self) -> RefreshView {
        RefreshView {
            devices: self.devices.deep_view(),
            selected: chars_in(self.selected),
            displays: match self.displays {
                Some(d) => Some(d@),
                None => None,
            },
            diag: chars_in(self.diag),
        }
    }
}

/// The state once the result of a scan is taken in. The displays count only if they are those
/// of the device that is shown.
pub open spec fn scan_taken(v: AppView, r: RefreshView) -> AppView {
    let device = device_after(v.selected_device, r.devices);
    let noted = match r.diag {
        Some(d) => scan_over(v).says("[refresh] "@ + d, true),
        None => scan_over(v),
    };
    let found = AppView { adb_devices: r.devices, selected_device: device, ..noted };
    if device == r.selected {
        match r.displays {
            Some(ids) => AppView {
                available_displays: ids,
                display_id: if ids == v.available_displays || has_display(ids, v.display_id) {
                    v.display_id
                } else {
                    ids[0].0
                },
                ..found
            },
            None => found,
        }
    } else {
        found
    }
}

/// What a look for the result of a scan asks for.
#[derive(Debug)]
pub struct ScanOutcome {
    /// A device whose session is to be released.
    pub release: Option<String>,
    /// How long to wait before the next look.
    pub wake: Option<u64>,
}

impl App {
    /// Starts a scan for devices, if it is time for one. The answer holds the device that is
    /// shown and the devices that are known.
    pub fn refresh_devices(&mut self, now: u64, force: bool) -> (r: Option<
        (Option<String>, Vec<String>),
    >)
        ensures
            match r {
                Some((current, devices)) => {
                    &&& scan_starts(old(self)@, now, force)
                    &&& chars_in(current) == old(self)@.selected_device
                    &&& devices.deep_view() == old(self)@.adb_devices
                    &&& final(self)@ == scan_started(old(self)@, now)
                },
                None => !scan_starts(old(self)@, now, force) && final(self)@ == old(self)@,
            },
    {
        if !force {
            if let Some(t) = self.last_adb_check {
                if now.saturating_sub(t) < REFRESH_TIMEOUT {
                    return None;
                }
            }
            if self.refresh_awaited {
                return None;
            }
        }
        self.last_adb_check = Some(now);
        self.refresh_awaited = true;
        self.refresh_start = Some(now);
        Some((self.selected_device.clone(), copy_list(&self.adb_devices)))
    }

    /// Starts a scan that nobody asked for, if it is time for one and no capture is under way.
    pub fn auto_refresh(&mut self, now: u64) -> (r: Option<(Option<String>, Vec<String>)>)
        ensures
            match r {
                Some((current, devices)) => {
                    &&& !old(self)@.capturing && scan_starts(old(self)@, now, false)
                    &&& chars_in(current) == old(self)@.selected_device
                    &&& devices.deep_view() == old(self)@.adb_devices
                    &&& final(self)@ == scan_started(old(self)@, now)
                },
                None => {
                    &&& old(self)@.capturing || !scan_starts(old(self)@, now, false)
                    &&& final(self)@ == old(self)@
                },
            },
    {
        if self.capturing {
            return None;
        }
        self.refresh_devices(now, false)
    }

    /// Starts a scan that the user asked for. One that is on its way is given up.
    pub fn force_refresh(&mut self, now: u64) -> (r: (Option<String>, Vec<String>))
        ensures
            chars_in(r.0) == old(self)@.selected_device,
            r.1.deep_view() == old(self)@.adb_devices,
            final(self)@ == (AppView {
                manual_refreshing: true,
                ..scan_started(old(self)@, now)
            }),
    {
        self.manual_refreshing = true;
        self.last_adb_check = Some(now);
        self.refresh_awaited = true;
        self.refresh_start = Some(now);
        (self.selected_device.clone(), copy_list(&self.adb_devices))
    }

    fn take_scan(&mut self, result: DeviceRefresh) -> (r: Option<String>)
        requires
            device_after(old(self)@.selected_device, result@.devices) == result@.selected
                && result@.displays is Some ==> result@.displays->0.len() > 0
                || result@.displays->0 == old(self)@.available_displays,
        ensures
            chars_in(r) == released(old(self)@.selected_device, result@.devices),
            final(self)@ == scan_taken(old(self)@, result@),
    {
        let DeviceRefresh { devices, selected, displays, diag } = result;
        self.refresh_awaited = false;
        self.refresh_start = None;
        self.manual_refreshing = false;
        if let Some(d) = &diag {
            let mut m = copy_of("[refresh] ");
            m.append(d.as_str());
            self.say(m.as_str(), true);
        }
        self.adb_devices = devices;
        let known = match &self.selected_device {
            Some(s) => lists(&self.adb_devices, s.as_str()),
            None => lists(&self.adb_devices, ""),
        };
        let mut release: Option<String> = None;
        if !known {
            let before = self.selected_device.take();
            self.selected_device = if self.adb_devices.len() > 0 {
                assert(self.adb_devices.deep_view()[0] == self.adb_devices@[0]@);
                Some(self.adb_devices[0].clone())
            } else {
                None
            };
            if before.is_some() && !same_option(&before, &self.selected_device) {
                release = before;
            }
        }
        if same_option(&self.selected_device, &selected) {
            if let Some(ids) = displays {
                if !same_displays(&ids, &self.available_displays) {
                    if !knows_display(&ids, self.display_id) {
                        self.display_id = ids[0].0;
                    }
                    self.available_displays = ids;
                }
            }
        }
        release
    }

    /// Takes in what a look for the result of a scan found. A scan that takes too long is
    /// given up.
    pub fn poll_device_refresh(&mut self, found: Poll<DeviceRefresh>, now: u64) -> (r: ScanOutcome)
        requires
            found matches Poll::Ready(result) ==> (device_after(
                old(self)@.selected_device,
                result@.devices,
            ) == result@.selected && result@.displays is Some ==> result@.displays->0.len() > 0
                || result@.displays->0 == old(self)@.available_displays),
        ensures
            match found {
                Poll::Ready(result) => {
                    &&& chars_in(r.release) == released(
                        old(self)@.selected_device,
                        result@.devices,
                    )
                    &&& r.wake is None
                    &&& final(self)@ == scan_taken(old(self)@, result@)
                },
                Poll::Empty => {
                    &&& r.release is None
                    &&& match old(self)@.refresh_start {
                        Some(start) => if now.saturating_sub(start) >= REFRESH_TIMEOUT {
                            r.wake is None && final(self)@ == scan_over(old(self)@).says(
                                "device refresh timed out — adb not responding"@,
                                true,
                            )
                        } else {
                            r.wake == Some(
                                (REFRESH_TIMEOUT - now.saturating_sub(start)) as u64,
                            ) && final(self)@ == old(self)@
                        },
                        None => r.wake is None && final(self)@ == old(self)@,
                    }
                },
                Poll::Gone => {
                    &&& r.release is None
                    &&& r.wake is None
                    &&& final(self)@ == scan_over(old(self)@)
                },
                Poll::Idle => {
                    &&& r.release is None
                    &&& r.wake is None
                    &&& final(self)@ == old(self)@
                },
            },
    {
        match found {
            Poll::Ready(result) => {
                let release = self.take_scan(result);
                ScanOutcome { release, wake: None }
            },
            Poll::Empty => {
                if let Some(start) = self.refresh_start {
                    let elapsed: u64 = now.saturating_sub(start);
                    if elapsed >= REFRESH_TIMEOUT {
                        self.refresh_awaited = false;
                        self.refresh_start = None;
                        self.manual_refreshing = false;
                        self.say("device refresh timed out — adb not responding", true);
                        return ScanOutcome { release: None, wake: None };
                    }
                    return ScanOutcome { release: None, wake: Some(REFRESH_TIMEOUT - elapsed) };
                }
                ScanOutcome { release: None, wake: None }
            },
            Poll::Gone => {
                self.refresh_awaited = false;
                self.refresh_start = None;
                self.manual_refreshing = false;
                ScanOutcome { release: None, wake: None }
            },
            Poll::Idle => ScanOutcome { release: None, wake: None },
        }
    }

    // ── Choosing ──

    /// Whether the user can choose a device or a display: not while a capture is under way,
    /// and not if there is no device.
    pub fn can_choose(&self) -> (r: bool)
        ensures
            r == (self@.adb_devices.len() > 0 && !self@.capturing),
    {
        self.adb_devices.len() > 0 && !self.capturing
    }

    /// Chooses a device. The answer names the device before, if it was another one: its
    /// session is to be released.
    pub fn select_device(&mut self, serial: &str) -> (r: Option<String>)
        ensures
            final(self)@ == (AppView { selected_device: Some(serial@), ..old(self)@ }),
            chars_in(r) == (if old(self)@.selected_device == Some(serial@) {
                None
            } else {
                old(self)@.selected_device
            }),
    {
        let before = self.selected_device.take();
        self.selected_device = Some(copy_of(serial));
        if same_option(&before, &self.selected_device) {
            None
        } else {
            before
        }
    }

    /// Chooses the display to capture. The tree follows a change.
    pub fn select_display(&mut self, id: u32)
        ensures
            final(self)@ == (if id == old(self)@.display_id {
                old(self)@
            } else {
                AppView { display_id: id, tree_display_id: id, ..old(self)@ }
            }),
    {
        if id != self.display_id {
            self.display_id = id;
            self.tree_display_id = id;
        }
    }

    /// Chooses the display whose tree is shown.
    pub fn select_tree_display(&mut self, id: u32)
        ensures
            final(self)@ == (AppView { tree_display_id: id, ..old(self)@ }),
    {
        self.tree_display_id = id;
    }

    /// The displays that a tree can be chosen for: those of the dump, or else those of the
    /// device.
    pub fn tree_displays(&self) -> (r: Vec<u32>)
        ensures
            r@ == (if self@.file_displays.len() > 0 {
                self@.file_displays
            } else {
                self@.available_displays.map_values(|d: (u32, u64)| d.0)
            }),
    {
        if self.file_displays.len() > 0 {
            return vstd::slice::slice_to_vec(self.file_displays.as_slice());
        }
        let mut out: Vec<u32> = Vec::new();
        let n: usize = self.available_displays.len();
        let ghost logical = |d: (u32, u64)| d.0;
        for i in 0..n
            invariant
                n == self.available_displays@.len(),
                logical == |d: (u32, u64)| d.0,
                out@ == self.available_displays@.take(i as int).map_values(logical),
        {
            out.push(self.available_displays[i].0);
            assert(out@ =~= self.available_displays@.take(i + 1).map_values(logical));
        }
        assert(self.available_displays@.take(n as int) =~= self.available_displays@);
        out
    }
}

/// The device that is shown after a scan is one that the scan found, and a device that is
/// still there stays.
pub proof fn shown_device_is_found(selected: Option<Seq<char>>, devices: Seq<Seq<char>>)
    ensures
        device_after(selected, devices) matches Some(d) ==> devices.contains(d),
        selected matches Some(s) && devices.contains(s) ==> device_after(selected, devices)
            == selected && released(selected, devices) is None,
        released(selected, devices) matches Some(d) ==> !devices.contains(d),
{
    if devices.len() > 0 {
        assert(devices.contains(devices[0]));
    }
}

/// After a scan that brought the displays of the shown device, the display to capture is one
/// of them, if it was before or the displays have changed.
pub proof fn shown_display_exists(v: AppView, r: RefreshView)
    requires
        device_after(v.selected_device, r.devices) == r.selected,
        r.displays matches Some(ids) && ids.len() > 0,
        has_display(v.available_displays, v.display_id),
    ensures
        has_display(scan_taken(v, r).available_displays, scan_taken(v, r).display_id),
{
    let ids = r.displays->0;
    assert(ids[0].0 == ids[0].0);
}

// ── Laws ──

/// A scan that nobody asked for starts only where none is awaited and the last one began at
/// least fifteen seconds ago, or never. One that was asked for always starts.
pub proof fn scans_keep_apart(v: AppView, now: u64)
    ensures
        scan_starts(v, now, true),
        v.refresh_awaited ==> !scan_starts(v, now, false),
        v.last_adb_check matches Some(t) && now < t + 15_000_000_000 ==> !scan_starts(
            v,
            now,
            false,
        ),
        !v.refresh_awaited && (v.last_adb_check matches Some(t) ==> now >= t + 15_000_000_000)
            ==> scan_starts(v, now, false),
        scan_started(v, now) == (AppView {
            last_adb_check: Some(now),
            refresh_awaited: true,
            refresh_start: Some(now),
            ..v
        }),
        !scan_starts(scan_started(v, now), now, false),
{
}

/// The device that is shown stays as long as it is listed. Where it is not, or none was shown,
/// it is the first that is listed, if any is; the one before is released then.
pub proof fn lost_device_is_released(selected: Option<Seq<char>>, devices: Seq<Seq<char>>)
    requires
        !devices.contains(Seq::<char>::empty()),
    ensures
        ({
            let kept = selected matches Some(s) && devices.contains(s);
            &&& kept ==> device_after(selected, devices) == selected && released(selected, devices)
                is None
            &&& !kept && devices.len() > 0 ==> device_after(selected, devices) == Some(devices[0])
            &&& !kept && devices.len() == 0 ==> device_after(selected, devices) is None
            &&& !kept ==> released(selected, devices) == selected
        }),
{
    reveal_strlit("");
    assert(""@ =~= Seq::<char>::empty());
    if devices.len() > 0 {
        assert(devices.contains(devices[0]));
    }
}

/// The result of a scan ends the wait for it and replaces the list of devices. The displays are
/// replaced only by those of the device that is shown. The display to capture stays if it is
/// still among them, and else is the first of them.
pub proof fn scan_brings_devices_and_displays(v: AppView, r: RefreshView)
    ensures
        ({
            let w = scan_taken(v, r);
            &&& !w.refresh_awaited && w.refresh_start is None && !w.manual_refreshing
            &&& w.adb_devices == r.devices
            &&& w.selected_device == device_after(v.selected_device, r.devices)
            &&& r.displays is None || w.selected_device != r.selected ==> w.available_displays
                == v.available_displays && w.display_id == v.display_id
            &&& w.selected_device == r.selected && (r.displays matches Some(ids) && ids.len() > 0)
                ==> {
                let ids = r.displays->0;
                &&& w.available_displays == ids
                &&& (exists|i: int| 0 <= i < ids.len() && (#[trigger] ids[i]).0 == v.display_id)
                    ==> w.display_id == v.display_id
                &&& ids != v.available_displays && !(exists|i: int|
                    0 <= i < ids.len() && (#[trigger] ids[i]).0 == v.display_id) ==> w.display_id
                    == ids[0].0
            }
            &&& r.diag is None ==> w.status_message == v.status_message && w.status_is_error
                == v.status_is_error
            &&& r.diag matches Some(d) ==> w.status_message == Some("[refresh] "@ + d)
            &&& w == (AppView {
                refresh_awaited: w.refresh_awaited,
                refresh_start: w.refresh_start,
                manual_refreshing: w.manual_refreshing,
                adb_devices: w.adb_devices,
                selected_device: w.selected_device,
                available_displays: w.available_displays,
                display_id: w.display_id,
                status_message: w.status_message,
                status_is_error: w.status_is_error,
                ..v
            })
        }),
{
}

} // verus!

//! Talking to devices through `adb`: the arguments of its commands and the meaning of what
//! they print.

use crate::bytes::find_subslice;
use crate::numerals::{decimal, decimal_of, decimal_reads_back, decimals_are_plain, in_order,
    in_order_sorts, numeral, parse_small, parse_unsigned, small_numeral, sort_dedup};
use crate::platform::{same_text, text_lossy, utf8_lossy};
use crate::text::{character_found, chars_in, chars_of, copy_of, find, find_is_first, find_text,
    has_prefix, is_white, lines, occurs_at, past_all, pattern_found, pieces, prefix_is_the_start,
    split, split_lines, split_text, split_words, string_of, strip_all, strip_start, trim, trim_end,
    trim_start, trimmed, words, words_end_at_white_space};
use crate::xml::ascending;
use std::collections::HashMap;
use vstd::prelude::*;

verus! {

/// The port that the automation server listens on, at both ends of the forward.
pub const FORWARD: &'static str = "tcp:9008";

/// Where a hierarchy dump is kept on the device while it is fetched.
pub const DEVICE_DUMP: &'static str = "/sdcard/uiviewer_dump.xml";

/// How long a command of the device scan may take, in nanoseconds.
pub const SCAN_TIMEOUT: u64 = 3_000_000_000;

/// What a command that ran to its end left behind.
#[derive(Debug)]
pub struct Ended {
    pub success: bool,
    pub stdout: Vec<u8>,
}

// ── Arguments ──

/// Owned copies of the words.
pub fn owned(parts: &Vec<&str>) -> (r: Vec<String>)
    ensures
        r.deep_view() == parts.deep_view(),
{
    let mut out: Vec<String> = Vec::new();
    let n: usize = parts.len();
    for i in 0..n
        invariant
            n == parts@.len(),
            out.deep_view() == parts.deep_view().take(i as int),
    {
        let ghost before = out.deep_view();
        let word = copy_of(parts[i]);
        out.push(word);
        assert(out.deep_view() =~= before.push(parts.deep_view()[i as int]));
        assert(out.deep_view() =~= parts.deep_view().take(i + 1));
    }
    assert(parts.deep_view().take(n as int) =~= parts.deep_view());
    out
}

/// The arguments that print the screen of a display. The primary display needs no token.
pub open spec fn screencap_words(serial: Seq<char>, display_id: u32, physical: u64) -> Seq<
    Seq<char>,
> {
    seq!["-s"@, serial, "exec-out"@, "screencap"@, "-p"@] + (if display_id > 0 {
        seq!["-d"@, decimal(physical as nat)]
    } else {
        Seq::empty()
    })
}

/// Writes the arguments that print the screen of a display.
pub fn screencap_args(serial: &str, display_id: u32, physical: u64) -> (r: Vec<String>)
    ensures
        r.deep_view() == screencap_words(serial@, display_id, physical),
{
    let base: Vec<&str> = vec!["-s", serial, "exec-out", "screencap", "-p"];
    let mut args = owned(&base);
    let ghost start = args.deep_view();
    assert(start =~= seq!["-s"@, serial@, "exec-out"@, "screencap"@, "-p"@]);
    if display_id > 0 {
        args.push(copy_of("-d"));
        args.push(decimal_of(physical));
    }
    assert(args.deep_view() =~= screencap_words(serial@, display_id, physical));
    args
}

/// The script that dumps the hierarchy, with all windows if the device can, and prints it.
/// A dump left by an earlier run is removed first, so that it is never printed.
pub open spec fn dump_script() -> Seq<char> {
    "rm -f "@ + DEVICE_DUMP@ + "; uiautomator dump --windows "@ + DEVICE_DUMP@
        + " >/dev/null 2>&1 || uiautomator dump "@ + DEVICE_DUMP@ + " >/dev/null 2>&1; cat "@
        + DEVICE_DUMP@ + "; rm -f "@ + DEVICE_DUMP@
}

/// Writes the arguments that dump and print the hierarchy.
pub fn dump_args(serial: &str) -> (r: Vec<String>)
    ensures
        r.deep_view() == seq!["-s"@, serial@, "exec-out"@, dump_script()],
{
    let mut script = copy_of("rm -f ");
    script.append(DEVICE_DUMP);
    script.append("; uiautomator dump --windows ");
    script.append(DEVICE_DUMP);
    script.append(" >/dev/null 2>&1 || uiautomator dump ");
    script.append(DEVICE_DUMP);
    script.append(" >/dev/null 2>&1; cat ");
    script.append(DEVICE_DUMP);
    script.append("; rm -f ");
    script.append(DEVICE_DUMP);
    assert(script@ == dump_script());
    let parts: Vec<&str> = vec!["-s", serial, "exec-out", script.as_str()];
    let args = owned(&parts);
    assert(args.deep_view() =~= seq!["-s"@, serial@, "exec-out"@, dump_script()]);
    args
}

/// The arguments of a gesture on a display.
pub open spec fn input_words(serial: Seq<char>, display_id: u32, gesture: Seq<Seq<char>>) -> Seq<
    Seq<char>,
> {
    seq!["-s"@, serial, "shell"@, "input"@] + (if display_id > 0 {
        seq!["--display"@, decimal(display_id as nat)]
    } else {
        Seq::empty()
    }) + gesture
}

fn input_args(serial: &str, display_id: u32, gesture: &Vec<&str>) -> (r: Vec<String>)
    ensures
        r.deep_view() == input_words(serial@, display_id, gesture.deep_view()),
{
    let base: Vec<&str> = vec!["-s", serial, "shell", "input"];
    let mut args = owned(&base);
    assert(args.deep_view() =~= seq!["-s"@, serial@, "shell"@, "input"@]);
    if display_id > 0 {
        args.push(copy_of("--display"));
        args.push(decimal_of(display_id as u64));
    }
    let ghost start = args.deep_view();
    let mut rest = owned(gesture);
    let ghost end = rest.deep_view();
    let ghost before = args@;
    let ghost tail = rest@;
    args.append(&mut rest);
    assert(args@ =~= before + tail);
    assert(args.deep_view() =~= start + end);
    assert(start =~= seq!["-s"@, serial@, "shell"@, "input"@] + (if display_id > 0 {
        seq!["--display"@, decimal(display_id as nat)]
    } else {
        Seq::empty()
    }));
    args
}

/// Writes the arguments of a tap.
pub fn tap_args(serial: &str, display_id: u32, x: &str, y: &str) -> (r: Vec<String>)
    ensures
        r.deep_view() == input_words(serial@, display_id, seq!["tap"@, x@, y@]),
{
    let gesture: Vec<&str> = vec!["tap", x, y];
    assert(gesture.deep_view() =~= seq!["tap"@, x@, y@]);
    input_args(serial, display_id, &gesture)
}

/// Writes the arguments of a swipe.
pub fn swipe_args(serial: &str, display_id: u32, x1: &str, y1: &str, x2: &str, y2: &str) -> (r: Vec<
    String,
>)
    ensures
        r.deep_view() == input_words(serial@, display_id, seq!["swipe"@, x1@, y1@, x2@, y2@]),
{
    let gesture: Vec<&str> = vec!["swipe", x1, y1, x2, y2];
    assert(gesture.deep_view() =~= seq!["swipe"@, x1@, y1@, x2@, y2@]);
    input_args(serial, display_id, &gesture)
}

// ── Waiting ──

/// How a look at a running command went.
#[derive(Clone, Copy, Debug, PartialEq, Eq, Structural)]
pub enum Look {
    /// The command has ended.
    Exited,
    /// It is still running.
    Running,
    /// The look itself failed.
    Failed,
}

/// What to do with a running command.
#[derive(Clone, Copy, Debug, PartialEq, Eq, Structural)]
pub enum Wait {
    /// Read what it printed.
    Collect,
    /// Leave it to end on its own and go on without it. It is never killed: that could
    /// leave the `adb` server half started.
    Detach,
    /// Look again after this many milliseconds.
    Sleep(u64),
}

/// The pause between two looks at a running command, in milliseconds.
pub const LOOK_INTERVAL: u64 = 50;

/// Decides how to go on with a command that has a deadline.
pub fn adb_output_bounded(look: Look, now: u64, deadline: u64) -> (r: Wait)
    ensures
        r == (match look {
            Look::Exited => Wait::Collect,
            Look::Failed => Wait::Detach,
            Look::Running => if now >= deadline {
                Wait::Detach
            } else {
                Wait::Sleep(LOOK_INTERVAL)
            },
        }),
{
    match look {
        Look::Exited => Wait::Collect,
        Look::Failed => Wait::Detach,
        Look::Running => if now >= deadline {
            Wait::Detach
        } else {
            Wait::Sleep(LOOK_INTERVAL)
        },
    }
}

/// The name of the file that takes what a command prints.
pub open spec fn output_file(id: u64) -> Seq<char> {
    "uiviewer_adb_"@ + decimal(id as nat) + ".out"@
}

/// Names the file that takes what a command prints.
pub fn output_file_name(id: u64) -> (r: String)
    ensures
        r@ == output_file(id),
{
    let mut s = copy_of("uiviewer_adb_");
    let number = decimal_of(id);
    s.append(number.as_str());
    s.append(".out");
    s
}

// ── Capturing ──

/// What came of running a command: an error of the system, or an end.
pub type Outcome = Result<Ended, String>;

/// The screenshot that a command printed.
pub open spec fn screencap_of(out: Outcome) -> Result<Seq<u8>, Seq<char>> {
    match out {
        Err(e) => Err("screencap failed: "@ + e@),
        Ok(o) => if o.success {
            Ok(o.stdout@)
        } else {
            Err("screencap returned error"@)
        },
    }
}

/// The bytes or the text of an error in a result.
pub open spec fn bytes_in(r: Result<Vec<u8>, String>) -> Result<Seq<u8>, Seq<char>> {
    match r {
        Ok(b) => Ok(b@),
        Err(e) => Err(e@),
    }
}

/// Takes the screenshot out of what a command printed.
pub fn screencap_bytes(out: Outcome) -> (r: Result<Vec<u8>, String>)
    ensures
        bytes_in(r) == screencap_of(out),
{
    match out {
        Err(e) => {
            let mut s = copy_of("screencap failed: ");
            s.append(e.as_str());
            Err(s)
        },
        Ok(o) => if o.success {
            Ok(o.stdout)
        } else {
            Err(copy_of("screencap returned error"))
        },
    }
}

/// The characters that an XML document starts with, as bytes.
pub open spec fn prologue() -> Seq<u8> {
    seq![0x3c, 0x3f, 0x78, 0x6d, 0x6c]
}

/// The hierarchy that a command printed: what stands from the start of the XML on. What the
/// device prints before it is dropped, and how the command ended does not matter.
pub open spec fn dump_of(out: Outcome) -> Result<Seq<u8>, Seq<char>> {
    match out {
        Err(e) => Err("uiautomator dump failed: "@ + e@),
        Ok(o) => match find(o.stdout@, prologue()) {
            Some(i) => Ok(o.stdout@.skip(i)),
            None => Err("uiautomator dump returned no XML (both --windows and fallback)"@),
        },
    }
}

/// Takes the hierarchy out of what a command printed.
pub fn dump_bytes(out: Outcome) -> (r: Result<Vec<u8>, String>)
    ensures
        bytes_in(r) == dump_of(out),
{
    match out {
        Err(e) => {
            let mut s = copy_of("uiautomator dump failed: ");
            s.append(e.as_str());
            Err(s)
        },
        Ok(o) => {
            let mark: Vec<u8> = vec![0x3c, 0x3f, 0x78, 0x6d, 0x6c];
            assert(mark@ =~= prologue());
            match find_subslice(o.stdout.as_slice(), mark.as_slice()) {
                Some(i) => {
                    let n: usize = o.stdout.len();
                    let found = vstd::slice::slice_subrange(o.stdout.as_slice(), i, n);
                    assert(found@ =~= o.stdout@.skip(i as int));
                    Ok(vstd::slice::slice_to_vec(found))
                },
                None => Err(
                    copy_of("uiautomator dump returned no XML (both --windows and fallback)"),
                ),
            }
        },
    }
}

/// A hierarchy that was found starts as XML does, and is the end of what was printed.
pub proof fn dump_starts_as_xml(out: Outcome)
    ensures
        dump_of(out) matches Ok(bytes) ==> {
            &&& bytes.len() >= 5
            &&& bytes.take(5) == prologue()
            &&& out matches Ok(o) && bytes == o.stdout@.skip(o.stdout@.len() - bytes.len())
        },
{
    if let Ok(o) = out {
        find_is_first(o.stdout@, prologue(), 0);
        if let Some(i) = find(o.stdout@, prologue()) {
            let bytes = o.stdout@.skip(i);
            assert(bytes.take(5) =~= o.stdout@.subrange(i, i + 5));
        }
    }
}

// ── Displays ──

/// The logical and the physical display that a line of SurfaceFlinger's list names, as in
/// `Display 4619827259835644672 (HWC display 0): port=0`.
pub open spec fn physical_entry(line: Seq<char>) -> Option<(u32, u64)> {
    let l = trimmed(line);
    if !has_prefix(l, "Display "@) {
        None
    } else {
        let rest = l.skip("Display "@.len() as int);
        let ids = words(rest);
        if ids.len() == 0 {
            None
        } else {
            match numeral(ids[0], 10, u64::MAX as nat) {
                Err(_) => None,
                Ok(physical) => {
                    let parts = split(rest, "(HWC display "@);
                    if parts.len() < 2 {
                        None
                    } else {
                        match small_numeral(trimmed(split(parts[1], seq![')'])[0])) {
                            Some(logical) => Some((logical, physical as u64)),
                            None => None,
                        }
                    }
                },
            }
        }
    }
}

fn read_physical_entry(line: &[char]) -> (r: Option<(u32, u64)>)
    ensures
        r == physical_entry(line@),
{
    let l = trim(line);
    let rest = match strip_start(l, "Display ") {
        Some(rest) => rest,
        None => {
            return None;
        },
    };
    let ids = split_words(rest);
    if ids.len() == 0 {
        return None;
    }
    assert(pieces(ids@)[0] == ids@[0]@);
    match parse_unsigned(ids[0].as_slice(), 10, u64::MAX) {
        Err(_) => None,
        Ok(physical) => {
            proof {
                reveal_strlit("(HWC display ");
            }
            let mark = chars_of("(HWC display ");
            let parts = split_text(rest, mark.as_slice());
            if parts.len() < 2 {
                return None;
            }
            assert(pieces(parts@)[1] == parts@[1]@);
            let close: Vec<char> = vec![')'];
            assert(close@ =~= seq![')']);
            let inside = split_text(parts[1].as_slice(), close.as_slice());
            assert(pieces(inside@)[0] == inside@[0]@);
            match parse_small(trim(inside[0].as_slice())) {
                Some(logical) => Some((logical, physical)),
                None => None,
            }
        },
    }
}

/// The physical displays of the first `n` lines by logical id. A later line wins.
pub open spec fn physical_ids(text: Seq<Seq<char>>, n: int) -> Map<u32, u64>
    decreases n,
{
    if n <= 0 {
        Map::empty()
    } else {
        match physical_entry(text[n - 1]) {
            Some((logical, physical)) => physical_ids(text, n - 1).insert(logical, physical),
            None => physical_ids(text, n - 1),
        }
    }
}

fn read_physical_ids(text: &str) -> (r: HashMap<u32, u64>)
    ensures
        r@ == physical_ids(lines(text@), lines(text@).len() as int),
{
    broadcast use vstd::std_specs::hash::group_hash_axioms;

    let all = chars_of(text);
    let rows = split_lines(all.as_slice());
    let mut map: HashMap<u32, u64> = HashMap::new();
    let n: usize = rows.len();
    let ghost list = lines(text@);
    assert(map@ =~= physical_ids(list, 0));
    for i in 0..n
        invariant
            n == rows@.len(),
            list == pieces(rows@),
            map@ == physical_ids(list, i as int),
    {
        assert(list[i as int] == rows@[i as int]@);
        if let Some((logical, physical)) = read_physical_entry(rows[i].as_slice()) {
            map.insert(logical, physical);
        }
    }
    map
}

/// The logical display that a line of the display manager's report names.
pub open spec fn logical_entry(line: Seq<char>) -> Option<u32> {
    let l = trimmed(line);
    if has_prefix(l, "Display Id="@) {
        small_numeral(trimmed(past_all(l, "Display Id="@)))
    } else {
        None
    }
}

fn read_logical_entry(line: &[char]) -> (r: Option<u32>)
    ensures
        r == logical_entry(line@),
{
    let l = trim(line);
    match strip_start(l, "Display Id=") {
        Some(_) => {
            proof {
                reveal_strlit("Display Id=");
            }
            parse_small(trim(strip_all(l, "Display Id=")))
        },
        None => None,
    }
}

/// The logical displays that the first `n` lines name.
pub open spec fn logical_ids(text: Seq<Seq<char>>, n: int) -> Seq<u32>
    decreases n,
{
    if n <= 0 {
        Seq::empty()
    } else {
        match logical_entry(text[n - 1]) {
            Some(id) => logical_ids(text, n - 1).push(id),
            None => logical_ids(text, n - 1),
        }
    }
}

fn read_logical_ids(text: &str) -> (r: Vec<u32>)
    ensures
        r@ == logical_ids(lines(text@), lines(text@).len() as int),
{
    let all = chars_of(text);
    let rows = split_lines(all.as_slice());
    let mut out: Vec<u32> = Vec::new();
    let n: usize = rows.len();
    let ghost list = lines(text@);
    for i in 0..n
        invariant
            n == rows@.len(),
            list == pieces(rows@),
            out@ == logical_ids(list, i as int),
    {
        assert(list[i as int] == rows@[i as int]@);
        if let Some(id) = read_logical_entry(rows[i].as_slice()) {
            out.push(id);
        }
    }
    out
}

/// The logical displays that the report names, or the primary one without a report.
pub open spec fn reported_ids(logical: Option<Seq<char>>) -> Seq<u32> {
    match logical {
        Some(text) => logical_ids(lines(text), lines(text).len() as int),
        None => seq![0],
    }
}

/// The physical displays that the list names, by logical id.
pub open spec fn listed_ids(physical: Option<Seq<char>>) -> Map<u32, u64> {
    match physical {
        Some(text) => physical_ids(lines(text), lines(text).len() as int),
        None => Map::empty(),
    }
}

/// The physical display of a logical one, or 0 if it is not listed.
pub open spec fn physical_of(map: Map<u32, u64>, id: u32) -> u64 {
    if map.contains_key(id) {
        map[id]
    } else {
        0
    }
}

/// The displays of a device: each logical id once, in increasing order, with its physical id
/// or 0. Where none is reported there is the primary one.
pub open spec fn device_displays(physical: Option<Seq<char>>, logical: Option<Seq<char>>) -> Seq<
    (u32, u64),
> {
    if reported_ids(logical).len() == 0 {
        seq![(0u32, 0u64)]
    } else {
        in_order(reported_ids(logical)).map_values(
            |id: u32| (id, physical_of(listed_ids(physical), id)),
        )
    }
}

/// Reads the displays of a device out of the two reports.
pub fn displays_from_texts(physical: &Option<String>, logical: &Option<String>) -> (r: Vec<
    (u32, u64),
>)
    ensures
        r@ == device_displays(chars_in(*physical), chars_in(*logical)),
        r@.len() > 0,
{
    broadcast use vstd::std_specs::hash::group_hash_axioms;

    let map: HashMap<u32, u64> = match physical {
        Some(text) => read_physical_ids(text.as_str()),
        None => HashMap::new(),
    };
    assert(map@ =~= listed_ids(chars_in(*physical)));
    let ids: Vec<u32> = match logical {
        Some(text) => read_logical_ids(text.as_str()),
        None => {
            let primary: Vec<u32> = vec![0];
            primary
        },
    };
    assert(ids@ =~= reported_ids(chars_in(*logical)));
    let sorted = sort_dedup(&ids);
    let n: usize = sorted.len();
    if n == 0 {
        let only: Vec<(u32, u64)> = vec![(0u32, 0u64)];
        assert(only@ =~= seq![(0u32, 0u64)]);
        return only;
    }
    let mut out: Vec<(u32, u64)> = Vec::new();
    let ghost pair = |id: u32| (id, physical_of(map@, id));
    for i in 0..n
        invariant
            n == sorted@.len(),
            pair == |id: u32| (id, physical_of(map@, id)),
            out@ == sorted@.take(i as int).map_values(pair),
    {
        broadcast use vstd::std_specs::hash::group_hash_axioms;

        let id: u32 = sorted[i];
        let phys: u64 = match map.get(&id) {
            Some(p) => *p,
            None => 0,
        };
        out.push((id, phys));
        assert(out@ =~= sorted@.take(i + 1).map_values(pair));
    }
    assert(sorted@.take(n as int) =~= sorted@);
    out
}

/// What a command printed if it ended well.
pub open spec fn printed(out: Option<Ended>) -> Option<Seq<char>> {
    match out {
        Some(o) => if o.success {
            Some(utf8_lossy(o.stdout@))
        } else {
            None
        },
        None => None,
    }
}

fn printed_text(out: &Option<Ended>) -> (r: Option<String>)
    ensures
        chars_in(r) == printed(*out),
{
    match out {
        Some(o) => if o.success {
            Some(text_lossy(o.stdout.as_slice()))
        } else {
            None
        },
        None => None,
    }
}

/// The arguments that list the physical displays of a device.
pub fn physical_displays_args(serial: &str) -> (r: Vec<String>)
    ensures
        r.deep_view() == seq![
            "-s"@,
            serial@,
            "shell"@,
            "dumpsys"@,
            "SurfaceFlinger"@,
            "--display-id"@,
        ],
{
    let parts: Vec<&str> = vec!["-s", serial, "shell", "dumpsys", "SurfaceFlinger", "--display-id"];
    let args = owned(&parts);
    assert(args.deep_view() =~= seq![
        "-s"@,
        serial@,
        "shell"@,
        "dumpsys"@,
        "SurfaceFlinger"@,
        "--display-id"@,
    ]);
    args
}

/// The arguments that report the logical displays of a device.
pub fn logical_displays_args(serial: &str) -> (r: Vec<String>)
    ensures
        r.deep_view() == seq!["-s"@, serial@, "shell"@, "dumpsys"@, "display"@],
{
    let parts: Vec<&str> = vec!["-s", serial, "shell", "dumpsys", "display"];
    let args = owned(&parts);
    assert(args.deep_view() =~= seq!["-s"@, serial@, "shell"@, "dumpsys"@, "display"@]);
    args
}

/// Reads the displays of a device out of what the two commands printed. A command that
/// failed or did not end in time counts as having printed nothing at all.
pub fn get_displays(physical: Option<Ended>, logical: Option<Ended>) -> (r: Vec<(u32, u64)>)
    ensures
        r@ == device_displays(printed(physical), printed(logical)),
        r@.len() > 0,
{
    let a = printed_text(&physical);
    let b = printed_text(&logical);
    displays_from_texts(&a, &b)
}

// ── Devices ──

/// How the listing of devices went.
#[derive(Debug)]
pub enum Listing {
    /// It ended well and printed this.
    Printed(Vec<u8>),
    /// It ended in failure. The text tells how.
    Refused(String),
    /// It could not be started or did not end in time.
    Missing,
}

/// What a scan for devices found.
#[derive(Debug)]
pub struct DeviceRefresh {
    pub devices: Vec<String>,
    pub selected: Option<String>,
    pub displays: Option<Vec<(u32, u64)>>,
    pub diag: Option<String>,
}

/// The serial of a ready device that a line of the listing names.
pub open spec fn device_entry(line: Seq<char>) -> Option<Seq<char>> {
    let serial = split(line, seq!['\t'])[0];
    if serial.len() > 0 && find(line, "\tdevice"@) is Some {
        Some(serial)
    } else {
        None
    }
}

/// The serials of the ready devices that the lines before line `n` name. The first line is
/// a heading.
pub open spec fn device_serials(text: Seq<Seq<char>>, n: int) -> Seq<Seq<char>>
    decreases n,
{
    if n <= 1 {
        Seq::empty()
    } else {
        match device_entry(text[n - 1]) {
            Some(serial) => device_serials(text, n - 1).push(serial),
            None => device_serials(text, n - 1),
        }
    }
}

fn read_devices(rows: &Vec<Vec<char>>) -> (r: Vec<String>)
    ensures
        r.deep_view() == device_serials(pieces(rows@), rows@.len() as int),
{
    let mut out: Vec<String> = Vec::new();
    let n: usize = rows.len();
    let ghost list = pieces(rows@);
    let tab: Vec<char> = vec!['\t'];
    assert(tab@ =~= seq!['\t']);
    let ready = chars_of("\tdevice");
    assert(out.deep_view() =~= Seq::<Seq<char>>::empty());
    if n == 0 {
        return out;
    }
    assert(device_serials(list, 1) == Seq::<Seq<char>>::empty());
    for i in 1..n
        invariant
            n == rows@.len(),
            list == pieces(rows@),
            tab@ == seq!['\t'],
            ready@ == "\tdevice"@,
            out.deep_view() == device_serials(list, i as int),
    {
        assert(list[i as int] == rows@[i as int]@);
        let row = rows[i].as_slice();
        let cells = split_text(row, tab.as_slice());
        assert(pieces(cells@)[0] == cells@[0]@);
        let ghost before = out.deep_view();
        if cells[0].len() > 0 {
            if let Some(_) = find_text(row, ready.as_slice()) {
                let serial = string_of(cells[0].as_slice());
                out.push(serial);
                assert(out.deep_view() =~= before.push(serial@));
            }
        }
    }
    out
}

/// The device to show: the current one if it is still there, or else the first.
pub open spec fn target_of(current: Option<Seq<char>>, devices: Seq<Seq<char>>) -> Option<
    Seq<char>,
> {
    match current {
        Some(c) => if devices.contains(c) {
            Some(c)
        } else {
            first_of(devices)
        },
        None => first_of(devices),
    }
}

/// The first of some texts.
pub open spec fn first_of(devices: Seq<Seq<char>>) -> Option<Seq<char>> {
    if devices.len() > 0 {
        Some(devices[0])
    } else {
        None
    }
}

/// Whether a text is among some others.
pub fn lists(devices: &Vec<String>, serial: &str) -> (r: bool)
    ensures
        r == devices.deep_view().contains(serial@),
{
    let n: usize = devices.len();
    let ghost all = devices.deep_view();
    for i in 0..n
        invariant
            n == devices@.len(),
            all == devices.deep_view(),
            forall|j: int| 0 <= j < i ==> all[j] != serial@,
    {
        assert(all[i as int] == devices@[i as int]@);
        if same_text(devices[i].as_str(), serial) {
            assert(all.contains(serial@));
            return true;
        }
    }
    false
}

fn pick_target(current: &Option<String>, devices: &Vec<String>) -> (r: Option<String>)
    ensures
        chars_in(r) == target_of(chars_in(*current), devices.deep_view()),
{
    if let Some(c) = current {
        if lists(devices, c.as_str()) {
            return Some(c.clone());
        }
    }
    if devices.len() > 0 {
        assert(devices.deep_view()[0] == devices@[0]@);
        Some(devices[0].clone())
    } else {
        None
    }
}

/// What a listing says of the scan: the ready devices, if it is there, and a remark.
pub open spec fn listing_of(listing: Listing) -> (Option<Seq<Seq<char>>>, Seq<char>) {
    match listing {
        Listing::Printed(stdout) => listing_text(utf8_lossy(stdout@)),
        Listing::Refused(how) => (None, "adb devices "@ + how@),
        Listing::Missing => (None, "adb devices timed out (3s) or spawn failed"@),
    }
}

/// What a listing that was printed says of the scan.
pub open spec fn listing_text(text: Seq<char>) -> (Option<Seq<Seq<char>>>, Seq<char>) {
    (
        Some(device_serials(lines(text), lines(text).len() as int)),
        "adb devices OK, "@ + decimal(lines(text).len()) + " lines"@,
    )
}

/// The devices and the remark of a listing that was printed.
pub fn read_listing(text: &str) -> (r: (Vec<String>, String))
    ensures
        (Some(r.0.deep_view()), r.1@) == listing_text(text@),
{
    let all = chars_of(text);
    let rows = split_lines(all.as_slice());
    let devices = read_devices(&rows);
    let mut diag = copy_of("adb devices OK, ");
    let count = decimal_of(rows.len() as u64);
    diag.append(count.as_str());
    diag.append(" lines");
    assert(pieces(rows@).len() == rows@.len());
    (devices, diag)
}

/// Makes the result of a scan out of the listing. Without one the current devices stay, so
/// that a hiccup does not clear them. Where the second part names a device, its displays are
/// to be fetched and put into the result.
pub fn fetch_device_refresh(
    listing: Listing,
    current_serial: Option<String>,
    current_devices: Vec<String>,
) -> (r: (DeviceRefresh, Option<String>))
    ensures
        r.0.diag matches Some(d) && d@ == listing_of(listing).1,
        r.0.displays is None,
        match listing_of(listing).0 {
            Some(devices) => {
                &&& r.0.devices.deep_view() == devices
                &&& chars_in(r.0.selected) == target_of(chars_in(current_serial), devices)
                &&& chars_in(r.1) == chars_in(r.0.selected)
            },
            None => {
                &&& r.0.devices.deep_view() == current_devices.deep_view()
                &&& r.0.selected is None
                &&& r.1 is None
            },
        },
{
    match listing {
        Listing::Printed(stdout) => {
            let text = text_lossy(stdout.as_slice());
            let (devices, diag) = read_listing(text.as_str());
            let target = pick_target(&current_serial, &devices);
            let wanted = target.clone();
            (
                DeviceRefresh { devices, selected: target, displays: None, diag: Some(diag) },
                wanted,
            )
        },
        Listing::Refused(how) => {
            let mut diag = copy_of("adb devices ");
            diag.append(how.as_str());
            (
                DeviceRefresh {
                    devices: current_devices,
                    selected: None,
                    displays: None,
                    diag: Some(diag),
                },
                None,
            )
        },
        Listing::Missing => {
            let diag = copy_of("adb devices timed out (3s) or spawn failed");
            (
                DeviceRefresh {
                    devices: current_devices,
                    selected: None,
                    displays: None,
                    diag: Some(diag),
                },
                None,
            )
        },
    }
}

/// The displays of a device are increasing, so none is listed twice, and there is at least
/// one.
pub proof fn displays_increase(physical: Option<Seq<char>>, logical: Option<Seq<char>>)
    ensures
        device_displays(physical, logical).len() > 0,
        forall|i: int, j: int|
            0 <= i < j < device_displays(physical, logical).len() ==> (#[trigger] device_displays(
                physical,
                logical,
            )[i]).0 < (#[trigger] device_displays(physical, logical)[j]).0,
{
    let ids = reported_ids(logical);
    in_order_sorts(ids);
    if ids.len() > 0 {
        assert(ids.contains(ids[0]));
        assert(in_order(ids).contains(ids[0]));
    }
}

/// The device that a scan selects is one of those it found, and there is one whenever any was
/// found. The current device stays selected as long as it is there.
pub proof fn target_is_found(current: Option<Seq<char>>, devices: Seq<Seq<char>>)
    ensures
        target_of(current, devices) is Some <==> devices.len() > 0,
        target_of(current, devices) matches Some(t) ==> devices.contains(t),
        current matches Some(c) && devices.contains(c) ==> target_of(current, devices) == current,
{
    if devices.len() > 0 {
        assert(devices.contains(devices[0]));
    }
}

// ── Laws ──

/// What is listed is read off some lines, of every line that holds an entry, in the order of the
/// lines.
pub open spec fn read_off<T>(
    list: Seq<T>,
    text: Seq<Seq<char>>,
    from: int,
    to: int,
    entry: spec_fn(Seq<char>) -> Option<T>,
) -> bool {
    exists|places: Seq<int>|
        {
            &&& #[trigger] ascending(places)
            &&& places.len() == list.len()
            &&& forall|k: int|
                0 <= k < list.len() ==> from <= #[trigger] places[k] < to && entry(text[places[k]])
                    == Some(list[k])
            &&& forall|n: int|
                from <= n < to && entry(#[trigger] text[n]) is Some ==> places.contains(n)
        }
}

proof fn read_off_more<T>(
    list: Seq<T>,
    text: Seq<Seq<char>>,
    from: int,
    to: int,
    entry: spec_fn(Seq<char>) -> Option<T>,
)
    requires
        from <= to,
        read_off(list, text, from, to, entry),
    ensures
        read_off(
            match entry(text[to]) {
                Some(x) => list.push(x),
                None => list,
            },
            text,
            from,
            to + 1,
            entry,
        ),
{
    let places = choose|places: Seq<int>|
        {
            &&& #[trigger] ascending(places)
            &&& places.len() == list.len()
            &&& forall|k: int|
                0 <= k < list.len() ==> from <= #[trigger] places[k] < to && entry(text[places[k]])
                    == Some(list[k])
            &&& forall|n: int|
                from <= n < to && entry(#[trigger] text[n]) is Some ==> places.contains(n)
        };
    if let Some(x) = entry(text[to]) {
        let more = places.push(to);
        let all = list.push(x);
        assert forall|k: int| 0 <= k < all.len() implies from <= #[trigger] more[k] < to + 1
            && entry(text[more[k]]) == Some(all[k]) by {
            if k < list.len() {
                assert(more[k] == places[k]);
            }
        }
        assert(ascending(more)) by {
            assert forall|a: int, b: int| 0 <= a < b < more.len() implies more[a] < more[b] by {
                assert(more[a] == places[a]);
                if b < places.len() {
                    assert(more[b] == places[b]);
                }
            }
        }
        assert forall|n: int|
            from <= n < to + 1 && entry(#[trigger] text[n]) is Some implies more.contains(n) by {
            if n < to {
                let k = choose|k: int| 0 <= k < places.len() && places[k] == n;
                assert(more[k] == n);
            } else {
                assert(more[places.len() as int] == n);
            }
        }
    } else {
        assert forall|n: int|
            from <= n < to + 1 && entry(#[trigger] text[n]) is Some implies places.contains(n) by {
            assert(n != to);
        }
    }
}

/// A line of the listing that gives a serial, a tab and the word `device` names that serial,
/// character for character.
pub proof fn ready_line_names_its_serial(serial: Seq<char>, rest: Seq<char>)
    requires
        serial.len() > 0,
        !serial.contains('\t'),
    ensures
        device_entry(serial + seq!['\t', 'd', 'e', 'v', 'i', 'c', 'e'] + rest) == Some(serial),
{
    let word = seq!['\t', 'd', 'e', 'v', 'i', 'c', 'e'];
    reveal_strlit("\tdevice");
    assert("\tdevice"@ =~= word);
    let line = serial + word + rest;
    let tail = seq!['d', 'e', 'v', 'i', 'c', 'e'] + rest;
    assert(line =~= serial + seq!['\t'] + tail);
    first_cell(serial, tail);
    find_is_first(line, word, 0);
    assert(line.subrange(serial.len() as int, serial.len() as int + 7) =~= word);
    assert(occurs_at(line, word, serial.len() as int));
}

proof fn first_cell(a: Seq<char>, b: Seq<char>)
    requires
        !a.contains('\t'),
    ensures
        split(a + seq!['\t'] + b, seq!['\t'])[0] == a,
{
    let s = a + seq!['\t'] + b;
    assert forall|j: int| 0 <= j < a.len() implies #[trigger] s[j] != '\t' by {
        assert(a.contains(a[j]));
    }
    character_found(s, '\t', 0, a.len() as int);
    assert(s.take(a.len() as int) =~= a);
}

/// A serial that is listed is not empty, holds no tab, and stands at the start of its line right
/// before a tab; somewhere in the line a tab and the word `device` follow.
pub proof fn serial_starts_its_line(line: Seq<char>)
    requires
        device_entry(line) is Some,
    ensures
        ({
            let s = device_entry(line)->0;
            &&& s.len() > 0
            &&& !s.contains('\t')
            &&& s.len() < line.len() && line.take(s.len() as int) == s && line[s.len() as int]
                == '\t'
            &&& exists|i: int|
                0 <= i && i + 7 <= line.len() && #[trigger] line.subrange(i, i + 7) == seq![
                    '\t',
                    'd',
                    'e',
                    'v',
                    'i',
                    'c',
                    'e',
                ]
        }),
{
    let word = seq!['\t', 'd', 'e', 'v', 'i', 'c', 'e'];
    reveal_strlit("\tdevice");
    assert("\tdevice"@ =~= word);
    let tab = seq!['\t'];
    find_is_first(line, word, 0);
    let w = find(line, word)->0;
    assert(line.subrange(w, w + 7) == word);
    assert(line.subrange(w, w + 7)[0] == line[w]);
    find_is_first(line, tab, 0);
    assert(line.subrange(w, w + 1) =~= tab);
    assert(occurs_at(line, tab, w));
    let k = find(line, tab)->0;
    assert(line.subrange(k, k + 1)[0] == line[k]);
    let s = line.take(k);
    assert(device_entry(line) == Some(s));
    assert forall|j: int| 0 <= j < k implies #[trigger] s[j] != '\t' by {
        if s[j] == '\t' {
            assert(line.subrange(j, j + 1) =~= tab);
            assert(occurs_at(line, tab, j));
        }
    }
}

/// The devices are read off the lines after the heading, of every line that names one, in their
/// order.
pub proof fn devices_are_listed_in_order(text: Seq<Seq<char>>, n: int)
    requires
        0 <= n <= text.len(),
    ensures
        n >= 1 ==> read_off(
            device_serials(text, n),
            text,
            1,
            n,
            |line: Seq<char>| device_entry(line),
        ),
        n == 0 ==> device_serials(text, n).len() == 0,
    decreases n,
{
    let entry = |line: Seq<char>| device_entry(line);
    if n <= 1 {
        assert(ascending(Seq::<int>::empty()));
    } else {
        devices_are_listed_in_order(text, n - 1);
        read_off_more(device_serials(text, n - 1), text, 1, n - 1, entry);
    }
}

/// A ready device is found wherever it stands after the heading, under exactly its serial.
pub proof fn no_device_is_missed(
    text: Seq<Seq<char>>,
    i: int,
    serial: Seq<char>,
    rest: Seq<char>,
)
    requires
        1 <= i < text.len(),
        serial.len() > 0,
        !serial.contains('\t'),
        text[i] == serial + seq!['\t', 'd', 'e', 'v', 'i', 'c', 'e'] + rest,
    ensures
        device_serials(text, text.len() as int).contains(serial),
{
    ready_line_names_its_serial(serial, rest);
    let n = text.len() as int;
    devices_are_listed_in_order(text, n);
    let entry = |line: Seq<char>| device_entry(line);
    let list = device_serials(text, n);
    let places = choose|places: Seq<int>|
        {
            &&& #[trigger] ascending(places)
            &&& places.len() == list.len()
            &&& forall|k: int|
                0 <= k < list.len() ==> 1 <= #[trigger] places[k] < n && entry(text[places[k]])
                    == Some(list[k])
            &&& forall|m: int|
                1 <= m < n && entry(#[trigger] text[m]) is Some ==> places.contains(m)
        };
    assert(entry(text[i]) is Some);
    let k = choose|k: int| 0 <= k < places.len() && places[k] == i;
    assert(places[k] == i);
    assert(list[k] == serial);
}

/// A line of the report that gives `Display Id=` and a number names that display, white space
/// around it aside. A line that starts otherwise names none.
pub proof fn reported_line_names_its_display(line: Seq<char>, id: u32)
    ensures
        trimmed(line) == "Display Id="@ + decimal(id as nat) ==> logical_entry(line) == Some(id),
        !has_prefix(trimmed(line), "Display Id="@) ==> logical_entry(line) is None,
{
    reveal_strlit("Display Id=");
    let mark = "Display Id="@;
    let number = decimal(id as nat);
    prefix_is_the_start(number, mark);
    decimals_are_plain(id as nat);
    assert(mark[0] == 'D');
    assert('0' <= number[0] <= '9');
    assert(!has_prefix(number, mark));
    trimmed_number(id as nat);
    decimal_reads_back(id as nat, u32::MAX as nat);
}

proof fn trimmed_number(n: nat)
    ensures
        trimmed(decimal(n)) == decimal(n),
{
    let s = decimal(n);
    decimals_are_plain(n);
    digits_are_not_white(s[0]);
    digits_are_not_white(s.last());
    assert(trim_start(s) == s);
    assert(trim_end(s) == s);
}

proof fn digits_are_not_white(c: char)
    requires
        '0' <= c <= '9',
    ensures
        !is_white(c),
{
}

/// A line of the list such as `Display 46 (HWC display 0): port=0` gives the physical id of a
/// logical display, whatever follows. A line that starts otherwise gives none.
pub proof fn listed_line_names_its_display(
    line: Seq<char>,
    physical: u64,
    logical: u32,
    rest: Seq<char>,
)
    ensures
        trimmed(line) == "Display "@ + decimal(physical as nat) + seq![' '] + "(HWC display "@
            + decimal(logical as nat) + seq![')'] + rest ==> physical_entry(line) == Some(
            (logical, physical),
        ),
        !has_prefix(trimmed(line), "Display "@) ==> physical_entry(line) is None,
{
    reveal_strlit("Display ");
    reveal_strlit("(HWC display ");
    let head = "Display "@;
    let mark = "(HWC display "@;
    let p = decimal(physical as nat);
    let l = decimal(logical as nat);
    let b = l + seq![')'] + rest;
    if trimmed(line) == head + p + seq![' '] + mark + l + seq![')'] + rest {
        let t = trimmed(line);
        assert(t =~= head + (p + seq![' '] + mark + b));
        prefix_is_the_start(p + seq![' '] + mark + b, head);
        let body = t.skip(head.len() as int);
        assert(body =~= p + seq![' '] + mark + b);
        decimals_are_plain(physical as nat);
        decimals_are_plain(logical as nat);
        assert forall|k: int| 0 <= k < p.len() implies !is_white(#[trigger] p[k]) by {
            digits_are_not_white(p[k]);
        }
        words_end_at_white_space(p, ' ', mark + b);
        assert(body =~= p + seq![' '] + (mark + b));
        decimal_reads_back(physical as nat, u64::MAX as nat);
        marked_part(p + seq![' '], b);
        assert(split(body, mark)[1] == split(b, mark)[0]) by {
            assert(body =~= (p + seq![' ']) + mark + b);
        }
        number_in_parentheses(l, rest);
        trimmed_number(logical as nat);
        decimal_reads_back(logical as nat, u32::MAX as nat);
    }
}

proof fn marked_part(a: Seq<char>, b: Seq<char>)
    requires
        forall|k: int| 0 <= k < a.len() ==> #[trigger] a[k] != '(',
    ensures
        split(a + "(HWC display "@ + b, "(HWC display "@).len() >= 2,
        split(a + "(HWC display "@ + b, "(HWC display "@)[1] == split(b, "(HWC display "@)[0],
{
    reveal_strlit("(HWC display ");
    let mark = "(HWC display "@;
    let s = a + mark + b;
    let k = a.len() as int;
    assert(s.subrange(k, k + mark.len()) =~= mark);
    assert forall|j: int| 0 <= j < k implies #[trigger] s[j] != mark[0] by {
        assert(s[j] == a[j]);
    }
    pattern_found(s, mark, 0, k);
    assert(s.skip(k + mark.len()) =~= b);
    assert(split(b, mark).len() >= 1);
}

proof fn number_in_parentheses(l: Seq<char>, rest: Seq<char>)
    requires
        forall|k: int| 0 <= k < l.len() ==> '0' <= #[trigger] l[k] <= '9',
    ensures
        split(split(l + seq![')'] + rest, "(HWC display "@)[0], seq![')'])[0] == l,
{
    reveal_strlit("(HWC display ");
    let mark = "(HWC display "@;
    let s = l + seq![')'] + rest;
    let first = split(s, mark)[0];
    find_is_first(s, mark, 0);
    if let Some(k) = find(s, mark) {
        assert(s.subrange(k, k + mark.len())[0] == s[k]);
        if k <= l.len() {
            if k < l.len() {
                assert(s[k] == l[k]);
            }
        }
        assert(first == s.take(k));
    } else {
        assert(first == s);
    }
    let n = l.len() as int;
    assert(first.len() > n && first[n] == ')');
    assert forall|j: int| 0 <= j < n implies #[trigger] first[j] != ')' by {
        assert(first[j] == l[j]);
    }
    character_found(first, ')', 0, n);
    assert(first.take(n) =~= l);
}

/// The logical displays are read off all lines of the report in their order.
pub proof fn reported_displays_are_complete(text: Seq<Seq<char>>, n: int)
    requires
        0 <= n <= text.len(),
    ensures
        read_off(logical_ids(text, n), text, 0, n, |line: Seq<char>| logical_entry(line)),
    decreases n,
{
    let entry = |line: Seq<char>| logical_entry(line);
    if n <= 0 {
        assert(ascending(Seq::<int>::empty()));
    } else {
        reported_displays_are_complete(text, n - 1);
        read_off_more(logical_ids(text, n - 1), text, 0, n - 1, entry);
    }
}

/// The line gives a physical id of the logical display.
pub open spec fn gives(line: Seq<char>, id: u32) -> bool {
    physical_entry(line) matches Some((logical, _)) && logical == id
}

/// The physical id of a logical display is the one in the last line that gives one.
pub proof fn last_listed_line_counts(text: Seq<Seq<char>>, n: int, id: u32)
    requires
        0 <= n <= text.len(),
    ensures
        !physical_ids(text, n).contains_key(id) ==> forall|i: int|
            0 <= i < n ==> !gives(#[trigger] text[i], id),
        physical_ids(text, n).contains_key(id) ==> exists|i: int|
            {
                &&& 0 <= i < n
                &&& physical_entry(#[trigger] text[i]) == Some((id, physical_ids(text, n)[id]))
                &&& forall|j: int| i < j < n ==> !gives(#[trigger] text[j], id)
            },
    decreases n,
{
    if n > 0 {
        let before = physical_ids(text, n - 1);
        let now = physical_ids(text, n);
        let entry = physical_entry(text[n - 1]);
        last_listed_line_counts(text, n - 1, id);
        if gives(text[n - 1], id) {
            assert(entry == Some((id, now[id])));
        } else {
            assert(now.contains_key(id) == before.contains_key(id));
            if before.contains_key(id) {
                assert(now[id] == before[id]);
                let i = choose|i: int|
                    {
                        &&& 0 <= i < n - 1
                        &&& physical_entry(#[trigger] text[i]) == Some((id, before[id]))
                        &&& forall|j: int| i < j < n - 1 ==> !gives(#[trigger] text[j], id)
                    };
                assert(physical_entry(text[i]) == Some((id, now[id])));
                assert forall|j: int| i < j < n implies !gives(#[trigger] text[j], id) by {}
            }
        }
    }
}

/// The displays of a device are those that are reported, each with the physical id that is
/// listed for it, or 0. Without a report, or with an empty one, there is the primary display
/// alone.
pub proof fn displays_are_those_reported(
    physical: Option<Seq<char>>,
    logical: Option<Seq<char>>,
    id: u32,
)
    ensures
        ({
            let all = device_displays(physical, logical);
            let reported = match logical {
                Some(text) => logical_ids(lines(text), lines(text).len() as int),
                None => seq![0u32],
            };
            let known = match physical {
                Some(text) => physical_ids(lines(text), lines(text).len() as int),
                None => Map::empty(),
            };
            &&& reported.len() == 0 ==> all == seq![(0u32, 0u64)]
            &&& reported.len() > 0 ==> forall|p: u64|
                #![trigger all.contains((id, p))]
                all.contains((id, p)) <==> reported.contains(id) && p == (if known.contains_key(
                    id,
                ) {
                    known[id]
                } else {
                    0
                })
        }),
{
    let all = device_displays(physical, logical);
    let reported = reported_ids(logical);
    let known = listed_ids(physical);
    in_order_sorts(reported);
    let order = in_order(reported);
    if reported.len() > 0 {
        assert forall|p: u64|
            #![trigger all.contains((id, p))]
            all.contains((id, p)) <==> reported.contains(id) && p == physical_of(known, id) by {
            if all.contains((id, p)) {
                let k = choose|k: int| 0 <= k < all.len() && all[k] == (id, p);
                assert(order[k] == id);
                assert(order.contains(id));
            }
            if reported.contains(id) && p == physical_of(known, id) {
                assert(order.contains(id));
                let k = choose|k: int| 0 <= k < order.len() && order[k] == id;
                assert(all[k] == (id, p));
            }
        }
    }
}

/// A hierarchy is found whenever the start of an XML document is printed, however the command
/// ended: it is all from the first such start on.
pub proof fn printed_xml_is_found(o: Ended, junk: Seq<u8>, rest: Seq<u8>)
    requires
        o.stdout@ == junk + seq![0x3cu8, 0x3f, 0x78, 0x6d, 0x6c] + rest,
        forall|k: int| 0 <= k < junk.len() ==> #[trigger] junk[k] != 0x3c,
    ensures
        dump_of(Ok(o)) == Ok::<Seq<u8>, Seq<char>>(
            seq![0x3cu8, 0x3f, 0x78, 0x6d, 0x6c] + rest,
        ),
{
    let mark = seq![0x3cu8, 0x3f, 0x78, 0x6d, 0x6c];
    assert(mark =~= prologue());
    let s = o.stdout@;
    let n = junk.len() as int;
    assert(s.subrange(n, n + 5) =~= mark);
    assert forall|j: int| 0 <= j < n implies #[trigger] s[j] != mark[0] by {
        assert(s[j] == junk[j]);
    }
    pattern_found(s, mark, 0, n);
    assert(s.skip(n) =~= mark + rest);
}

/// A screenshot is all that the command printed, as it stands, if it ended well.
pub proof fn screenshot_is_what_was_printed(o: Ended)
    ensures
        o.success ==> screencap_of(Ok(o)) == Ok::<Seq<u8>, Seq<char>>(o.stdout@),
        !o.success ==> screencap_of(Ok(o)) is Err,
        forall|e: String| (#[trigger] screencap_of(Err(e))) is Err,
{
}

/// Commands go to the device with the given serial. Only a display other than the primary one is
/// named: to the screenshot by its physical id, to a gesture by its logical one.
pub proof fn commands_name_secondary_displays(
    serial: Seq<char>,
    display: u32,
    physical: u64,
    gesture: Seq<Seq<char>>,
)
    ensures
        screencap_words(serial, 0, physical) == seq![
            "-s"@,
            serial,
            "exec-out"@,
            "screencap"@,
            "-p"@,
        ],
        display != 0 ==> screencap_words(serial, display, physical) == seq![
            "-s"@,
            serial,
            "exec-out"@,
            "screencap"@,
            "-p"@,
            "-d"@,
            decimal(physical as nat),
        ],
        input_words(serial, 0, gesture) == seq!["-s"@, serial, "shell"@, "input"@] + gesture,
        display != 0 ==> input_words(serial, display, gesture) == seq![
            "-s"@,
            serial,
            "shell"@,
            "input"@,
            "--display"@,
            decimal(display as nat),
        ] + gesture,
{
    assert(screencap_words(serial, 0, physical) =~= seq![
        "-s"@,
        serial,
        "exec-out"@,
        "screencap"@,
        "-p"@,
    ]);
    assert(input_words(serial, 0, gesture) =~= seq!["-s"@, serial, "shell"@, "input"@] + gesture);
    if display != 0 {
        assert(screencap_words(serial, display, physical) =~= seq![
            "-s"@,
            serial,
            "exec-out"@,
            "screencap"@,
            "-p"@,
            "-d"@,
            decimal(physical as nat),
        ]);
        assert(input_words(serial, display, gesture) =~= seq![
            "-s"@,
            serial,
            "shell"@,
            "input"@,
            "--display"@,
            decimal(display as nat),
        ] + gesture);
    }
}

/// The device to show is the current one as long as it is listed; else it is the first.
pub proof fn gone_device_is_replaced_by_the_first(
    current: Option<Seq<char>>,
    devices: Seq<Seq<char>>,
)
    requires
        devices.len() > 0,
        current matches Some(c) ==> !devices.contains(c),
    ensures
        target_of(current, devices) == Some(devices[0]),
{
}

/// Only a listing that was printed tells devices: those of its lines.
pub proof fn printed_listing_tells_the_devices(stdout: Vec<u8>, how: String)
    ensures
        listing_of(Listing::Printed(stdout)).0 == Some(
            device_serials(
                lines(utf8_lossy(stdout@)),
                lines(utf8_lossy(stdout@)).len() as int,
            ),
        ),
        listing_of(Listing::Refused(how)).0 is None,
        listing_of(Listing::Missing).0 is None,
{
}

/// A command has printed what it printed only if it ended well.
pub proof fn failed_commands_print_nothing(o: Ended)
    ensures
        o.success ==> printed(Some(o)) == Some(utf8_lossy(o.stdout@)),
        !o.success ==> printed(Some(o)) is None,
        printed(None) is None,
{
}

} // verus!

//! Captures: where their files go, and how a screenshot and a hierarchy are stored as a
//! pair.

use crate::adb::{bytes_in, dump_bytes, dump_of, screencap_bytes, screencap_of, Outcome};
use crate::numerals::{decimal, decimal_of, decimal_reads_back};
use crate::text::copy_of;
use std::path::PathBuf;
use vstd::prelude::*;

verus! {

/// How a capture is made.
#[derive(Clone, Copy, Debug, PartialEq, Eq, Structural)]
pub enum CaptureMethod {
    Adb,
    U2V3,
}

/// Where the screenshot of a capture came from.
#[derive(Clone, Copy, Debug, PartialEq, Eq, Structural)]
pub enum ShotSource {
    JsonRpc,
    Adb,
}

/// The files of a capture, or what went wrong.
pub type CaptureResult = Result<(PathBuf, PathBuf, ShotSource), String>;

// ── Names ──

/// Hands out the next number for temporary files.
pub fn next_temp_id(counter: &mut u64) -> (r: u64)
    ensures
        r == *old(counter),
        *final(counter) == old(counter).wrapping_add(1),
{
    let id: u64 = *counter;
    *counter = id.wrapping_add(1);
    id
}

/// The counter after `n` numbers.
pub open spec fn counter_after(start: u64, n: nat) -> u64
    decreases n,
{
    if n == 0 {
        start
    } else {
        counter_after(start, (n - 1) as nat).wrapping_add(1)
    }
}

/// The counter steps through all numbers before it comes back to one.
pub proof fn temp_ids_distinct(start: u64, i: nat, j: nat)
    requires
        i < j,
        j - i <= u64::MAX,
    ensures
        counter_after(start, i) != counter_after(start, j),
{
    counter_value(start, i);
    counter_value(start, j);
    let m: int = 0x1_0000_0000_0000_0000;
    if counter_after(start, i) == counter_after(start, j) {
        assert((start + j) - (start + i) == j - i);
        vstd::arithmetic::div_mod::lemma_mod_equivalence(start + j, start + i, m);
        assert((j - i) % m == 0);
        vstd::arithmetic::div_mod::lemma_small_mod((j - i) as nat, m as nat);
    }
}

proof fn counter_value(start: u64, n: nat)
    ensures
        counter_after(start, n) == (start + n) % 0x1_0000_0000_0000_0000,
    decreases n,
{
    if n > 0 {
        counter_value(start, (n - 1) as nat);
    }
}

/// The names of the screenshot and of the hierarchy of a capture.
pub open spec fn capture_files(method: CaptureMethod, id: u64) -> (Seq<char>, Seq<char>) {
    match method {
        CaptureMethod::Adb => (
            "uiviewer_adb_screenshot_"@ + decimal(id as nat) + ".png"@,
            "uiviewer_adb_dump_"@ + decimal(id as nat) + ".xml"@,
        ),
        CaptureMethod::U2V3 => (
            "uiviewer_u2v3_screenshot_"@ + decimal(id as nat) + ".png"@,
            "uiviewer_u2v3_dump_"@ + decimal(id as nat) + ".xml"@,
        ),
    }
}

fn numbered(start: &str, id: u64, end: &str) -> (r: String)
    ensures
        r@ == start@ + decimal(id as nat) + end@,
{
    let mut s = copy_of(start);
    let number = decimal_of(id);
    s.append(number.as_str());
    s.append(end);
    s
}

/// Names the files of a capture.
pub fn capture_file_names(method: CaptureMethod, id: u64) -> (r: (String, String))
    ensures
        (r.0@, r.1@) == capture_files(method, id),
{
    match method {
        CaptureMethod::Adb => (
            numbered("uiviewer_adb_screenshot_", id, ".png"),
            numbered("uiviewer_adb_dump_", id, ".xml"),
        ),
        CaptureMethod::U2V3 => (
            numbered("uiviewer_u2v3_screenshot_", id, ".png"),
            numbered("uiviewer_u2v3_dump_", id, ".xml"),
        ),
    }
}

/// Captures with different numbers do not share a file.
pub proof fn capture_files_distinct(method: CaptureMethod, a: u64, b: u64)
    requires
        a != b,
    ensures
        capture_files(method, a).0 != capture_files(method, b).0,
        capture_files(method, a).1 != capture_files(method, b).1,
{
    let starts = match method {
        CaptureMethod::Adb => ("uiviewer_adb_screenshot_"@, "uiviewer_adb_dump_"@),
        CaptureMethod::U2V3 => ("uiviewer_u2v3_screenshot_"@, "uiviewer_u2v3_dump_"@),
    };
    numbers_tell_apart(starts.0, a, b, ".png"@);
    numbers_tell_apart(starts.1, a, b, ".xml"@);
}

proof fn numbers_tell_apart(start: Seq<char>, a: u64, b: u64, end: Seq<char>)
    requires
        a != b,
    ensures
        start + decimal(a as nat) + end != start + decimal(b as nat) + end,
{
    let x = start + decimal(a as nat) + end;
    let y = start + decimal(b as nat) + end;
    if x == y {
        let k = start.len() as int;
        let m = x.len() - end.len();
        assert(x.subrange(k, m) =~= decimal(a as nat));
        assert(y.subrange(k, m) =~= decimal(b as nat));
        decimal_reads_back(a as nat, u64::MAX as nat);
        decimal_reads_back(b as nat, u64::MAX as nat);
    }
}

// ── Temporary files ──

/// Files to remove again unless the work that wrote them comes to a good end.
#[derive(Debug)]
pub struct TempGuard {
    pub files: Vec<PathBuf>,
}

impl TempGuard {
    /// Guards no file.
    pub fn new() -> (r: TempGuard)
        ensures
            r.files@ == Seq::<PathBuf>::empty(),
    {
        TempGuard { files: Vec::new() }
    }

    /// Guards one more file.
    pub fn track(&mut self, p: PathBuf)
        ensures
            final(self).files@ == old(self).files@.push(p),
    {
        self.files.push(p);
    }

    /// Lets all files stay.
    pub fn disarm(&mut self)
        ensures
            final(self).files@ == Seq::<PathBuf>::empty(),
    {
        self.files.clear();
    }

    /// Hands over the files that are to be removed.
    pub fn drain(&mut self) -> (r: Vec<PathBuf>)
        ensures
            r@ == old(self).files@,
            final(self).files@ == Seq::<PathBuf>::empty(),
    {
        let mut out: Vec<PathBuf> = Vec::new();
        out.append(&mut self.files);
        assert(out@ =~= old(self).files@);
        out
    }
}

// ── Storing a pair ──

/// Which file of a pair is being written.
#[derive(Clone, Copy, Debug, PartialEq, Eq, Structural)]
pub enum Stage {
    Screenshot,
    Hierarchy,
    Closed,
}

/// A pair of files on its way to disk.
#[derive(Debug)]
pub struct Store {
    pub stage: Stage,
    /// The files to remove when the store is given up.
    pub guard: TempGuard,
    pub xml: PathBuf,
    /// The hierarchy, or why there is none. The screenshot is written first either way.
    pub dump: Result<Vec<u8>, String>,
}

/// What the store needs next.
#[derive(Debug)]
pub enum StoreAction {
    WriteScreenshot(Vec<u8>),
    WriteHierarchy(Vec<u8>),
    Finish(Result<(), String>),
}

impl Store {
    /// Starts to store a pair. Without a screenshot nothing is written.
    pub fn begin(
        shot: Result<Vec<u8>, String>,
        dump: Result<Vec<u8>, String>,
        png: PathBuf,
        xml: PathBuf,
    ) -> (r: (Store, StoreAction))
        ensures
            r.0.xml == xml,
            r.0.dump == dump,
            match shot {
                Ok(image) => {
                    &&& r.0.stage == Stage::Screenshot
                    &&& r.0.guard.files@ == seq![png]
                    &&& r.1 == StoreAction::WriteScreenshot(image)
                },
                Err(e) => {
                    &&& r.0.stage == Stage::Closed
                    &&& r.0.guard.files@ == Seq::<PathBuf>::empty()
                    &&& r.1 == StoreAction::Finish(Err(e))
                },
            },
    {
        let mut guard = TempGuard::new();
        match shot {
            Ok(image) => {
                guard.track(png);
                assert(guard.files@ =~= seq![png]);
                (
                    Store { stage: Stage::Screenshot, guard, xml, dump },
                    StoreAction::WriteScreenshot(image),
                )
            },
            Err(e) => (
                Store { stage: Stage::Closed, guard, xml, dump },
                StoreAction::Finish(Err(e)),
            ),
        }
    }

    /// Goes on after a file was written, or failed to be. A pair that is complete stays on
    /// disk; otherwise every file whose writing was begun is left guarded.
    pub fn written(self, result: Result<(), String>) -> (r: (Store, StoreAction))
        requires
            !(self.stage is Closed),
        ensures
            match (self.stage, result) {
                (Stage::Screenshot, Err(e)) => {
                    &&& r.0.stage == Stage::Closed
                    &&& r.0.guard.files@ == self.guard.files@
                    &&& r.1 matches StoreAction::Finish(Err(m)) && m@ == "write png: "@ + e@
                },
                (Stage::Screenshot, Ok(_)) => match self.dump {
                    Err(e) => {
                        &&& r.0.stage == Stage::Closed
                        &&& r.0.guard.files@ == self.guard.files@
                        &&& r.1 matches StoreAction::Finish(Err(m)) && m@ == e@
                    },
                    Ok(bytes) => {
                        &&& r.0.stage == Stage::Hierarchy
                        &&& r.0.guard.files@ == self.guard.files@.push(self.xml)
                        &&& r.1 matches StoreAction::WriteHierarchy(b) && b@ == bytes@
                    },
                },
                (_, Err(e)) => {
                    &&& r.0.stage == Stage::Closed
                    &&& r.0.guard.files@ == self.guard.files@
                    &&& r.1 matches StoreAction::Finish(Err(m)) && m@ == "write xml: "@ + e@
                },
                (_, Ok(_)) => {
                    &&& r.0.stage == Stage::Closed
                    &&& r.0.guard.files@ == Seq::<PathBuf>::empty()
                    &&& r.1 == StoreAction::Finish(Ok(()))
                },
            },
            r.0.xml == self.xml,
    {
        let Store { stage, mut guard, xml, dump } = self;
        match (stage, result) {
            (Stage::Screenshot, Err(e)) => {
                let mut m = copy_of("write png: ");
                m.append(e.as_str());
                (
                    Store { stage: Stage::Closed, guard, xml, dump },
                    StoreAction::Finish(Err(m)),
                )
            },
            (Stage::Screenshot, Ok(_)) => match dump {
                Err(e) => {
                    let m = e.clone();
                    (
                        Store { stage: Stage::Closed, guard, xml, dump: Err(e) },
                        StoreAction::Finish(Err(m)),
                    )
                },
                Ok(bytes) => {
                    guard.track(xml.clone());
                    (
                        Store { stage: Stage::Hierarchy, guard, xml, dump: Ok(Vec::new()) },
                        StoreAction::WriteHierarchy(bytes),
                    )
                },
            },
            (_, Err(e)) => {
                let mut m = copy_of("write xml: ");
                m.append(e.as_str());
                (
                    Store { stage: Stage::Closed, guard, xml, dump },
                    StoreAction::Finish(Err(m)),
                )
            },
            (_, Ok(_)) => {
                guard.disarm();
                (
                    Store { stage: Stage::Closed, guard, xml, dump },
                    StoreAction::Finish(Ok(())),
                )
            },
        }
    }
}

/// What a thread brought back, or that it panicked.
fn or_panicked(r: Option<Result<Vec<u8>, String>>, remark: &str) -> (out: Result<Vec<u8>, String>)
    ensures
        match r {
            Some(x) => out == x,
            None => bytes_in(out) == Err::<Seq<u8>, Seq<char>>(remark@),
        },
{
    match r {
        Some(x) => x,
        None => Err(copy_of(remark)),
    }
}

/// Starts to store what the two commands of a capture printed. `None` stands for a thread
/// that panicked.
pub fn adb_capture(
    shot: Option<Outcome>,
    dump: Option<Outcome>,
    png: PathBuf,
    xml: PathBuf,
) -> (r: (Store, StoreAction))
    ensures
        r.0.xml == xml,
        bytes_in(r.0.dump) == (match dump {
            Some(out) => dump_of(out),
            None => Err("dump thread panicked"@),
        }),
        match (match shot {
            Some(out) => screencap_of(out),
            None => Err("screencap thread panicked"@),
        }) {
            Ok(image) => {
                &&& r.0.stage == Stage::Screenshot
                &&& r.0.guard.files@ == seq![png]
                &&& r.1 matches StoreAction::WriteScreenshot(b) && b@ == image
            },
            Err(e) => {
                &&& r.0.stage == Stage::Closed
                &&& r.0.guard.files@ == Seq::<PathBuf>::empty()
                &&& r.1 matches StoreAction::Finish(Err(m)) && m@ == e
            },
        },
{
    let image = or_panicked(
        match shot {
            Some(out) => Some(screencap_bytes(out)),
            None => None,
        },
        "screencap thread panicked",
    );
    let tree = or_panicked(
        match dump {
            Some(out) => Some(dump_bytes(out)),
            None => None,
        },
        "dump thread panicked",
    );
    Store::begin(image, tree, png, xml)
}

/// Starts to store what the automation server gave. `None` stands for a thread that
/// panicked.
pub fn uiautomator2_v3_capture(
    shot: Option<Result<(Vec<u8>, ShotSource), String>>,
    dump: Option<Result<Vec<u8>, String>>,
    png: PathBuf,
    xml: PathBuf,
) -> (r: (Store, StoreAction, ShotSource))
    ensures
        r.0.xml == xml,
        match dump {
            Some(d) => r.0.dump == d,
            None => bytes_in(r.0.dump) == Err::<Seq<u8>, Seq<char>>("hierarchy thread panicked"@),
        },
        match shot {
            Some(Ok((image, source))) => {
                &&& r.0.stage == Stage::Screenshot
                &&& r.0.guard.files@ == seq![png]
                &&& r.1 == StoreAction::WriteScreenshot(image)
                &&& r.2 == source
            },
            Some(Err(e)) => {
                &&& r.0.stage == Stage::Closed
                &&& r.0.guard.files@ == Seq::<PathBuf>::empty()
                &&& r.1 == StoreAction::Finish(Err(e))
            },
            None => {
                &&& r.0.stage == Stage::Closed
                &&& r.0.guard.files@ == Seq::<PathBuf>::empty()
                &&& r.1 matches StoreAction::Finish(Err(m)) && m@ == "screenshot thread panicked"@
            },
        },
{
    let tree = or_panicked(dump, "hierarchy thread panicked");
    match shot {
        Some(Ok((image, source))) => {
            let (store, action) = Store::begin(Ok(image), tree, png, xml);
            (store, action, source)
        },
        Some(Err(e)) => {
            let (store, action) = Store::begin(Err(e), tree, png, xml);
            (store, action, ShotSource::Adb)
        },
        None => {
            let m = copy_of("screenshot thread panicked");
            let (store, action) = Store::begin(Err(m), tree, png, xml);
            (store, action, ShotSource::Adb)
        },
    }
}

/// The files of a capture bear its number and the ending of their kind, and the two methods do
/// not share names.
pub proof fn capture_files_bear_their_number(method: CaptureMethod, id: u64)
    ensures
        ({
            let (png, xml) = capture_files(method, id);
            let number = decimal(id as nat);
            let tag = match method {
                CaptureMethod::Adb => "adb"@,
                CaptureMethod::U2V3 => "u2v3"@,
            };
            &&& png == "uiviewer_"@ + tag + "_screenshot_"@ + number + ".png"@
            &&& xml == "uiviewer_"@ + tag + "_dump_"@ + number + ".xml"@
        }),
{
    reveal_strlit("uiviewer_");
    reveal_strlit("adb");
    reveal_strlit("u2v3");
    reveal_strlit("_screenshot_");
    reveal_strlit("_dump_");
    reveal_strlit("uiviewer_adb_screenshot_");
    reveal_strlit("uiviewer_adb_dump_");
    reveal_strlit("uiviewer_u2v3_screenshot_");
    reveal_strlit("uiviewer_u2v3_dump_");
    assert("uiviewer_adb_screenshot_"@ =~= "uiviewer_"@ + "adb"@ + "_screenshot_"@);
    assert("uiviewer_adb_dump_"@ =~= "uiviewer_"@ + "adb"@ + "_dump_"@);
    assert("uiviewer_u2v3_screenshot_"@ =~= "uiviewer_"@ + "u2v3"@ + "_screenshot_"@);
    assert("uiviewer_u2v3_dump_"@ =~= "uiviewer_"@ + "u2v3"@ + "_dump_"@);
}

} // verus!

//! The automation server on the device: starting it, asking it, and leaving alone what other
//! tools have set up.

use crate::adb::{bytes_in, lists, owned, screencap_bytes, screencap_of, Outcome, FORWARD};
use crate::bytes::{fnv1a, fnv1a_hash};
use crate::capture::ShotSource;
use crate::http::{member_in, scalars, Member, MemberView, Scalar, ScalarView};
use crate::platform::{base64_decode, base64_decoded, same_text, text_lossy, text_strict,
    utf8_lossy};
use crate::text::{chars_in, chars_of, copy_of, is_white, lines, pieces, split_lines, split_words,
    string_of, trim, trimmed, white, white_space_is_listed, words, words_end_at_white_space};
use vstd::prelude::*;
use vstd::utf8::*;

verus! {

/// Where the server's program lies on the device.
pub const JAR: &'static str = "/data/local/tmp/u2.jar";

/// The class that the server runs. Its name is what a running server is found by.
pub const MAIN_CLASS: &'static str = "com.wetest.uia2.Main";

/// The port that the server listens on.
pub const PORT: &'static str = "9008";

/// How long a server may take to answer after its start, in nanoseconds.
pub const BOOT_TIMEOUT: u64 = 10_000_000_000;

/// The pause between two questions to a starting server, in milliseconds.
pub const PING_INTERVAL: u64 = 100;

/// The pause between the end of an old server and the start of a new one, in milliseconds.
pub const RESTART_PAUSE: u64 = 300;

// ── Sessions ──

/// What the program has set up on devices.
#[derive(Debug)]
pub struct Session {
    /// The number of the running server, if there is one.
    pub process: Option<u64>,
    /// The devices on which this program set up a forward. Only these may be cleaned up.
    pub managed: Vec<String>,
    /// The device of the last capture through a server.
    pub serial: Option<String>,
    /// The number of the next server.
    pub next_id: u64,
}

/// What the program has set up, with texts as characters.
#[verifier::ext_equal]
pub struct SessionView {
    pub process: Option<u64>,
    pub managed: Seq<Seq<char>>,
    pub serial: Option<Seq<char>>,
    pub next_id: u64,
}

impl View for Session {
    type V = SessionView;

    open spec fn view(&self) -> SessionView {
        SessionView {
            process: self.process,
            managed: self.managed.deep_view(),
            serial: chars_in(self.serial),
            next_id: self.next_id,
        }
    }
}

impl Session {
    /// Nothing is set up.
    pub fn new() -> (r: Session)
        ensures
            r@ == (SessionView { process: None, managed: Seq::empty(), serial: None, next_id: 0 }),
    {
        let r = Session { process: None, managed: Vec::new(), serial: None, next_id: 0 };
        assert(r@.managed =~= Seq::empty());
        r
    }

    /// Remembers the device of a capture.
    pub fn remember(&mut self, serial: &str)
        ensures
            final(self)@ == (SessionView { serial: Some(serial@), ..old(self)@ }),
    {
        self.serial = Some(copy_of(serial));
    }
}

/// Forgets the running server. True if there was one: it is then to be killed.
pub fn stop_u2v3(session: &mut Session) -> (r: bool)
    ensures
        r == (old(session)@.process is Some),
        final(session)@ == (SessionView { process: None, ..old(session)@ }),
{
    let running = session.process.is_some();
    session.process = None;
    running
}

/// Forgets the running server if it is the one with this number. True if it was: it is then
/// to be killed. A server started since is left alone.
pub fn stop_u2v3_if_current(session: &mut Session, id: u64) -> (r: bool)
    ensures
        r == (old(session)@.process == Some(id)),
        final(session)@ == (if old(session)@.process == Some(id) {
            SessionView { process: None, ..old(session)@ }
        } else {
            old(session)@
        }),
{
    match session.process {
        Some(current) => if current == id {
            session.process = None;
            true
        } else {
            false
        },
        None => false,
    }
}

/// The arguments that remove the forward of a device.
pub open spec fn remove_words(serial: Seq<char>) -> Seq<Seq<char>> {
    seq!["-s"@, serial, "forward"@, "--remove"@, FORWARD@]
}

fn remove_args(serial: &str) -> (r: Vec<String>)
    ensures
        r.deep_view() == remove_words(serial@),
{
    let parts: Vec<&str> = vec!["-s", serial, "forward", "--remove", FORWARD];
    let args = owned(&parts);
    assert(args.deep_view() =~= remove_words(serial@));
    args
}

/// The arguments that end every server on a device.
pub open spec fn kill_words(serial: Seq<char>) -> Seq<Seq<char>> {
    seq!["-s"@, serial, "shell"@, "pkill -f "@ + MAIN_CLASS@ + " 2>/dev/null; true"@]
}

fn kill_args(serial: &str) -> (r: Vec<String>)
    ensures
        r.deep_view() == kill_words(serial@),
{
    let mut script = copy_of("pkill -f ");
    script.append(MAIN_CLASS);
    script.append(" 2>/dev/null; true");
    let parts: Vec<&str> = vec!["-s", serial, "shell", script.as_str()];
    let args = owned(&parts);
    assert(args.deep_view() =~= kill_words(serial@));
    args
}

/// The arguments in an option.
pub open spec fn args_in(r: Option<Vec<String>>) -> Option<Seq<Seq<char>>> {
    match r {
        Some(v) => Some(v.deep_view()),
        None => None,
    }
}

/// Lets go of a device that is no longer shown: its server is to be killed if the first part
/// says so, and the command of the second is to be run. The forward of a device that another
/// tool set up stays.
pub fn release_u2v3_resources(session: &mut Session, serial: &str) -> (r: (
    bool,
    Option<Vec<String>>,
))
    ensures
        r.0 == (old(session)@.process is Some),
        args_in(r.1) == (if old(session)@.managed.contains(serial@) {
            Some(remove_words(serial@))
        } else {
            None
        }),
        final(session)@ == (SessionView { process: None, ..old(session)@ }),
{
    let managed = lists(&session.managed, serial);
    let kill = stop_u2v3(session);
    if managed {
        (kill, Some(remove_args(serial)))
    } else {
        (kill, None)
    }
}

/// The commands in a list.
pub open spec fn commands(list: Seq<Vec<String>>) -> Seq<Seq<Seq<char>>> {
    Seq::new(list.len(), |i: int| list[i].deep_view())
}

/// The commands that clean up at the end of the program: none, unless the last device was
/// set up by this program.
pub open spec fn exit_commands(session: SessionView) -> Seq<Seq<Seq<char>>> {
    match session.serial {
        Some(serial) => if session.managed.contains(serial) {
            seq![kill_words(serial), remove_words(serial)]
        } else {
            Seq::empty()
        },
        None => Seq::empty(),
    }
}

/// Ends the session: the server is to be killed if the first part says so, and the commands
/// of the second are to be run.
pub fn shut_down(session: &mut Session) -> (r: (bool, Vec<Vec<String>>))
    ensures
        r.0 == (old(session)@.process is Some),
        commands(r.1@) == exit_commands(old(session)@),
        final(session)@ == (SessionView { process: None, ..old(session)@ }),
{
    let kill = stop_u2v3(session);
    let mut list: Vec<Vec<String>> = Vec::new();
    match &session.serial {
        Some(serial) => {
            if lists(&session.managed, serial.as_str()) {
                list.push(kill_args(serial.as_str()));
                list.push(remove_args(serial.as_str()));
            }
        },
        None => {},
    }
    assert(commands(list@) =~= exit_commands(old(session)@));
    (kill, list)
}

/// What the program leaves behind at its end is cleaned up only on a device that it set up
/// itself.
pub proof fn exit_spares_foreign_devices(session: SessionView, i: int)
    requires
        0 <= i < exit_commands(session).len(),
    ensures
        session.serial matches Some(serial) && session.managed.contains(serial) && exit_commands(
            session,
        )[i][1] == serial,
{
}

// ── Checks ──

/// A line of the list of forwards names our forward on this device, at both ends.
pub open spec fn forward_line(line: Seq<char>, serial: Seq<char>) -> bool {
    let w = words(line);
    w.len() >= 3 && w[0] == serial && w[1] == FORWARD@ && w[2] == FORWARD@
}

/// The list of forwards names our forward on this device.
pub open spec fn forward_listed(text: Seq<char>, serial: Seq<char>) -> bool {
    exists|i: int| 0 <= i < lines(text).len() && forward_line(#[trigger] lines(text)[i], serial)
}

fn is_forward_line(line: &[char], serial: &str) -> (r: bool)
    ensures
        r == forward_line(line@, serial@),
{
    let w = split_words(line);
    if w.len() < 3 {
        return false;
    }
    assert(pieces(w@)[0] == w@[0]@ && pieces(w@)[1] == w@[1]@ && pieces(w@)[2] == w@[2]@);
    let a = string_of(w[0].as_slice());
    let b = string_of(w[1].as_slice());
    let c = string_of(w[2].as_slice());
    same_text(a.as_str(), serial) && same_text(b.as_str(), FORWARD) && same_text(
        c.as_str(),
        FORWARD,
    )
}

/// Looks for our forward on a device in the list of forwards.
pub fn lists_forward(text: &str, serial: &str) -> (r: bool)
    ensures
        r == forward_listed(text@, serial@),
{
    let all = chars_of(text);
    let rows = split_lines(all.as_slice());
    let n: usize = rows.len();
    let ghost list = lines(text@);
    for i in 0..n
        invariant
            n == rows@.len(),
            list == pieces(rows@),
            list == lines(text@),
            forall|j: int| 0 <= j < i ==> !forward_line(#[trigger] list[j], serial@),
    {
        assert(list[i as int] == rows@[i as int]@);
        if is_forward_line(rows[i].as_slice(), serial) {
            return true;
        }
    }
    false
}

/// Whether the host's forward still leads to this device. `None` stands for a list that could
/// not be had.
pub fn u2v3_forward_matches(stdout: Option<Vec<u8>>, serial: &str) -> (r: bool)
    ensures
        r == (match stdout {
            Some(bytes) => forward_listed(utf8_lossy(bytes@), serial@),
            None => false,
        }),
{
    match stdout {
        Some(bytes) => {
            let text = text_lossy(bytes.as_slice());
            lists_forward(text.as_str(), serial)
        },
        None => false,
    }
}

/// The answer of a server that is alive.
pub open spec fn is_pong(reply: Result<Seq<u8>, Seq<char>>) -> bool {
    match reply {
        Ok(bytes) => valid_utf8(bytes) && trimmed(decode_utf8(bytes)) == "pong"@,
        Err(_) => false,
    }
}

/// Whether a server gave the right answer.
pub fn u2v3_alive(reply: Result<Vec<u8>, String>) -> (r: bool)
    ensures
        r == is_pong(bytes_in(reply)),
{
    match reply {
        Ok(bytes) => match text_strict(bytes.as_slice()) {
            Some(s) => {
                proof {
                    encode_utf8_decode_utf8(s@);
                }
                let all = chars_of(s);
                let inner = string_of(trim(all.as_slice()));
                same_text(inner.as_str(), "pong")
            },
            None => false,
        },
        Err(_) => false,
    }
}

/// The fingerprint of a hierarchy that a server sent, if it is one and not empty.
pub open spec fn probe_hash(reply: Result<MemberView, Seq<char>>) -> Option<u64> {
    match reply {
        Ok(MemberView::Text(s)) => if s.len() == 0 {
            None
        } else {
            Some(fnv1a(encode_utf8(s)))
        },
        _ => None,
    }
}

/// Takes the fingerprint of a hierarchy. Any failure gives none.
pub fn probe_u2_hierarchy_hash(reply: Result<Member, String>) -> (r: Option<u64>)
    ensures
        r == probe_hash(member_in(reply)),
{
    match reply {
        Ok(Member::Text(s)) => {
            if s.as_str().is_empty() {
                None
            } else {
                Some(fnv1a_hash(s.as_str().as_bytes()))
            }
        },
        _ => None,
    }
}

/// What a capture needs of the server.
#[derive(Clone, Copy, Debug, PartialEq, Eq, Structural)]
pub enum Readiness {
    /// Ask whether it is alive.
    Ask,
    /// It is ready.
    Ready,
    /// It has to be started.
    Launch,
}

/// Decides whether a server can be used as it is. Only behind our own forward is it asked.
pub fn ensure_u2v3_running(forward: bool, alive: Option<bool>) -> (r: Readiness)
    ensures
        r == (if !forward {
            Readiness::Launch
        } else {
            match alive {
                None => Readiness::Ask,
                Some(true) => Readiness::Ready,
                Some(false) => Readiness::Launch,
            }
        }),
{
    if !forward {
        return Readiness::Launch;
    }
    match alive {
        None => Readiness::Ask,
        Some(true) => Readiness::Ready,
        Some(false) => Readiness::Launch,
    }
}

// ── Launching ──

/// How far the start of a server has come.
#[derive(Clone, Copy, Debug, PartialEq, Eq, Structural)]
pub enum LaunchStage {
    /// It is being looked whether the program is on the device.
    Probing,
    /// The forward is being set up.
    Forwarding,
    /// The server is being started.
    Starting,
    /// The server with this number is up, and has until the deadline to answer.
    Waiting(u64, u64),
    Closed,
}

/// What happened to a server that is being started.
#[derive(Debug)]
pub enum LaunchEvent {
    /// Whether the program is on the device.
    Probed(bool),
    /// Whether the command succeeded, or why it could not be run.
    Forwarded(Result<bool, String>),
    /// The time at which the server was started, or why it could not be.
    Started(Result<u64, String>),
    /// The time.
    Clock(u64),
    /// Whether the server is alive.
    Asked(bool),
}

/// What happened, with texts as characters.
pub enum LaunchEventView {
    Probed(bool),
    Forwarded(Result<bool, Seq<char>>),
    Started(Result<u64, Seq<char>>),
    Clock(u64),
    Asked(bool),
}

impl View for LaunchEvent {
    type V = LaunchEventView;

    open spec fn view(&self) -> LaunchEventView {
        match *self {
            LaunchEvent::Probed(b) => LaunchEventView::Probed(b),
            LaunchEvent::Forwarded(Ok(b)) => LaunchEventView::Forwarded(Ok(b)),
            LaunchEvent::Forwarded(Err(e)) => LaunchEventView::Forwarded(Err(e@)),
            LaunchEvent::Started(Ok(t)) => LaunchEventView::Started(Ok(t)),
            LaunchEvent::Started(Err(e)) => LaunchEventView::Started(Err(e@)),
            LaunchEvent::Clock(t) => LaunchEventView::Clock(t),
            LaunchEvent::Asked(b) => LaunchEventView::Asked(b),
        }
    }
}

/// What to do next.
#[derive(Debug)]
pub enum LaunchAction {
    /// Run the command and tell whether it succeeded.
    Probe(Vec<String>),
    /// Run the commands of the list, whatever comes of them, then the last one, and tell
    /// whether that succeeded.
    Forward(Vec<Vec<String>>, Vec<String>),
    /// Kill the running server if the flag is set, run the first command, pause for so many
    /// milliseconds, and start the second command without waiting for its end.
    Start(bool, Vec<String>, u64, Vec<String>),
    /// Tell the time.
    Clock,
    /// Ask the server whether it is alive.
    Ask,
    /// Pause for so many milliseconds and tell the time.
    Sleep(u64),
    /// Kill the running server if the flag is set. The start is over.
    Finish(bool, Result<(), String>),
}

/// What to do next, with texts as characters.
pub enum LaunchActionView {
    Probe(Seq<Seq<char>>),
    Forward(Seq<Seq<Seq<char>>>, Seq<Seq<char>>),
    Start(bool, Seq<Seq<char>>, u64, Seq<Seq<char>>),
    Clock,
    Ask,
    Sleep(u64),
    Finish(bool, Result<(), Seq<char>>),
}

impl View for LaunchAction {
    type V = LaunchActionView;

    open spec fn view(&self) -> LaunchActionView {
        match *self {
            LaunchAction::Probe(a) => LaunchActionView::Probe(a.deep_view()),
            LaunchAction::Forward(l, a) => LaunchActionView::Forward(
                commands(l@),
                a.deep_view(),
            ),
            LaunchAction::Start(kill, a, pause, b) => LaunchActionView::Start(
                kill,
                a.deep_view(),
                pause,
                b.deep_view(),
            ),
            LaunchAction::Clock => LaunchActionView::Clock,
            LaunchAction::Ask => LaunchActionView::Ask,
            LaunchAction::Sleep(ms) => LaunchActionView::Sleep(ms),
            LaunchAction::Finish(kill, Ok(())) => LaunchActionView::Finish(kill, Ok(())),
            LaunchAction::Finish(kill, Err(e)) => LaunchActionView::Finish(kill, Err(e@)),
        }
    }
}

/// The arguments that look for the program on a device.
pub open spec fn probe_words(serial: Seq<char>) -> Seq<Seq<char>> {
    seq!["-s"@, serial, "shell"@, "ls"@, JAR@]
}

/// The arguments that set up the forward.
pub open spec fn forward_words(serial: Seq<char>) -> Seq<Seq<char>> {
    seq!["-s"@, serial, "forward"@, FORWARD@, FORWARD@]
}

/// The arguments that run the server.
pub open spec fn server_words(serial: Seq<char>) -> Seq<Seq<char>> {
    seq![
        "-s"@,
        serial,
        "shell"@,
        "CLASSPATH="@ + JAR@ + " app_process / "@ + MAIN_CLASS@ + " -p "@ + PORT@,
    ]
}

/// The commands that remove the forwards of the first `n` devices.
pub open spec fn removals(managed: Seq<Seq<char>>, n: nat) -> Seq<Seq<Seq<char>>> {
    Seq::new(n, |i: int| remove_words(managed[i]))
}

/// The program is missing.
pub open spec fn missing_jar() -> Seq<char> {
    JAR@ + " not found on device — run 'python -m uiautomator2 init' to install"@
}

/// The forward was refused.
pub open spec fn forward_refused() -> Seq<char> {
    "adb forward ("@ + FORWARD@ + ") failed — port may be in use"@
}

/// The server did not answer in time.
pub open spec fn boot_failed() -> Seq<char> {
    JAR@ + " failed to start — server did not answer /ping in 10s"@
}

/// The devices with one more, unless it is among them.
pub open spec fn enlisted(managed: Seq<Seq<char>>, serial: Seq<char>) -> Seq<Seq<char>> {
    if managed.contains(serial) {
        managed
    } else {
        managed.push(serial)
    }
}

/// The event is one that the stage waits for.
pub open spec fn expected(stage: LaunchStage, event: LaunchEventView) -> bool {
    match stage {
        LaunchStage::Probing => event is Probed,
        LaunchStage::Forwarding => event is Forwarded,
        LaunchStage::Starting => event is Started,
        LaunchStage::Waiting(_, _) => event is Clock || event is Asked,
        LaunchStage::Closed => false,
    }
}

/// How the start of a server goes on.
pub open spec fn launch_step(
    stage: LaunchStage,
    event: LaunchEventView,
    serial: Seq<char>,
    session: SessionView,
) -> (LaunchStage, SessionView, LaunchActionView) {
    match (stage, event) {
        (LaunchStage::Probing, LaunchEventView::Probed(found)) => if found {
            (
                LaunchStage::Forwarding,
                session,
                LaunchActionView::Forward(
                    removals(session.managed, session.managed.len()).push(remove_words(serial)),
                    forward_words(serial),
                ),
            )
        } else {
            (LaunchStage::Closed, session, LaunchActionView::Finish(false, Err(missing_jar())))
        },
        (LaunchStage::Forwarding, LaunchEventView::Forwarded(Err(e))) => (
            LaunchStage::Closed,
            session,
            LaunchActionView::Finish(false, Err("adb not found: "@ + e)),
        ),
        (LaunchStage::Forwarding, LaunchEventView::Forwarded(Ok(done))) => if done {
            (
                LaunchStage::Starting,
                SessionView {
                    managed: enlisted(session.managed, serial),
                    process: None,
                    ..session
                },
                LaunchActionView::Start(
                    session.process is Some,
                    kill_words(serial),
                    RESTART_PAUSE,
                    server_words(serial),
                ),
            )
        } else {
            (LaunchStage::Closed, session, LaunchActionView::Finish(false, Err(forward_refused())))
        },
        (LaunchStage::Starting, LaunchEventView::Started(Err(e))) => (
            LaunchStage::Closed,
            session,
            LaunchActionView::Finish(false, Err("spawn uiautomator: "@ + e)),
        ),
        (LaunchStage::Starting, LaunchEventView::Started(Ok(now))) => (
            LaunchStage::Waiting(session.next_id, now.saturating_add(BOOT_TIMEOUT)),
            SessionView {
                process: Some(session.next_id),
                next_id: session.next_id.wrapping_add(1),
                ..session
            },
            LaunchActionView::Clock,
        ),
        (LaunchStage::Waiting(id, deadline), LaunchEventView::Clock(now)) => if now < deadline {
            (stage, session, LaunchActionView::Ask)
        } else if session.process == Some(id) {
            (
                LaunchStage::Closed,
                SessionView { process: None, ..session },
                LaunchActionView::Finish(true, Err(boot_failed())),
            )
        } else {
            (LaunchStage::Closed, session, LaunchActionView::Finish(false, Err(boot_failed())))
        },
        (LaunchStage::Waiting(_, _), LaunchEventView::Asked(alive)) => if alive {
            (LaunchStage::Closed, session, LaunchActionView::Finish(false, Ok(())))
        } else {
            (stage, session, LaunchActionView::Sleep(PING_INTERVAL))
        },
        _ => (stage, session, LaunchActionView::Clock),
    }
}

/// Starts to start a server.
pub fn begin_launch(serial: &str) -> (r: (LaunchStage, LaunchAction))
    ensures
        r.0 == LaunchStage::Probing,
        r.1@ == LaunchActionView::Probe(probe_words(serial@)),
{
    let parts: Vec<&str> = vec!["-s", serial, "shell", "ls", JAR];
    let args = owned(&parts);
    assert(args.deep_view() =~= probe_words(serial@));
    (LaunchStage::Probing, LaunchAction::Probe(args))
}

fn forward_action(session: &Session, serial: &str) -> (r: LaunchAction)
    ensures
        r@ == LaunchActionView::Forward(
            removals(session@.managed, session@.managed.len()).push(remove_words(serial@)),
            forward_words(serial@),
        ),
{
    let mut list: Vec<Vec<String>> = Vec::new();
    let n: usize = session.managed.len();
    let ghost managed = session@.managed;
    for i in 0..n
        invariant
            n == session.managed@.len(),
            managed == session.managed.deep_view(),
            commands(list@) == removals(managed, i as nat),
    {
        let ghost before = commands(list@);
        let args = remove_args(session.managed[i].as_str());
        list.push(args);
        assert(commands(list@) =~= before.push(remove_words(managed[i as int])));
        assert(commands(list@) =~= removals(managed, (i + 1) as nat));
    }
    let ghost before = commands(list@);
    list.push(remove_args(serial));
    assert(commands(list@) =~= before.push(remove_words(serial@)));
    let parts: Vec<&str> = vec!["-s", serial, "forward", FORWARD, FORWARD];
    let args = owned(&parts);
    assert(args.deep_view() =~= forward_words(serial@));
    LaunchAction::Forward(list, args)
}

fn server_args(serial: &str) -> (r: Vec<String>)
    ensures
        r.deep_view() == server_words(serial@),
{
    let mut script = copy_of("CLASSPATH=");
    script.append(JAR);
    script.append(" app_process / ");
    script.append(MAIN_CLASS);
    script.append(" -p ");
    script.append(PORT);
    let parts: Vec<&str> = vec!["-s", serial, "shell", script.as_str()];
    let args = owned(&parts);
    assert(args.deep_view() =~= server_words(serial@));
    args
}

/// Goes on with the start of a server after something has happened.
pub fn launch_u2v3(stage: LaunchStage, event: LaunchEvent, serial: &str, session: &mut Session) -> (r:
    (LaunchStage, LaunchAction))
    requires
        expected(stage, event@),
    ensures
        (r.0, final(session)@, r.1@) == launch_step(stage, event@, serial@, old(session)@),
{
    match (stage, event) {
        (LaunchStage::Probing, LaunchEvent::Probed(found)) => {
            if found {
                (LaunchStage::Forwarding, forward_action(session, serial))
            } else {
                let mut m = copy_of(JAR);
                m.append(" not found on device — run 'python -m uiautomator2 init' to install");
                (LaunchStage::Closed, LaunchAction::Finish(false, Err(m)))
            }
        },
        (LaunchStage::Forwarding, LaunchEvent::Forwarded(Err(e))) => {
            let mut m = copy_of("adb not found: ");
            m.append(e.as_str());
            (LaunchStage::Closed, LaunchAction::Finish(false, Err(m)))
        },
        (LaunchStage::Forwarding, LaunchEvent::Forwarded(Ok(done))) => {
            if done {
                let ghost before = session@.managed;
                if !lists(&session.managed, serial) {
                    session.managed.push(copy_of(serial));
                    assert(session.managed.deep_view() =~= before.push(serial@));
                }
                let kill = stop_u2v3(session);
                (
                    LaunchStage::Starting,
                    LaunchAction::Start(
                        kill,
                        kill_args(serial),
                        RESTART_PAUSE,
                        server_args(serial),
                    ),
                )
            } else {
                let mut m = copy_of("adb forward (");
                m.append(FORWARD);
                m.append(") failed — port may be in use");
                (LaunchStage::Closed, LaunchAction::Finish(false, Err(m)))
            }
        },
        (LaunchStage::Starting, LaunchEvent::Started(Err(e))) => {
            let mut m = copy_of("spawn uiautomator: ");
            m.append(e.as_str());
            (LaunchStage::Closed, LaunchAction::Finish(false, Err(m)))
        },
        (LaunchStage::Starting, LaunchEvent::Started(Ok(now))) => {
            let id: u64 = session.next_id;
            session.next_id = id.wrapping_add(1);
            session.process = Some(id);
            (
                LaunchStage::Waiting(id, now.saturating_add(BOOT_TIMEOUT)),
                LaunchAction::Clock,
            )
        },
        (LaunchStage::Waiting(id, deadline), LaunchEvent::Clock(now)) => {
            if now < deadline {
                (stage, LaunchAction::Ask)
            } else {
                let kill = stop_u2v3_if_current(session, id);
                let mut m = copy_of(JAR);
                m.append(" failed to start — server did not answer /ping in 10s");
                (LaunchStage::Closed, LaunchAction::Finish(kill, Err(m)))
            }
        },
        (LaunchStage::Waiting(_, _), LaunchEvent::Asked(alive)) => {
            if alive {
                (LaunchStage::Closed, LaunchAction::Finish(false, Ok(())))
            } else {
                (stage, LaunchAction::Sleep(PING_INTERVAL))
            }
        },
        (_, _) => (stage, LaunchAction::Clock),
    }
}

/// Starting a server touches only forwards that this program set up and the one of the device
/// itself.
pub proof fn launch_spares_foreign_forwards(
    stage: LaunchStage,
    event: LaunchEventView,
    serial: Seq<char>,
    session: SessionView,
)
    ensures
        launch_step(stage, event, serial, session).2 matches LaunchActionView::Forward(list, _)
            ==> forall|i: int|
            0 <= i < list.len() ==> exists|s: Seq<char>|
                #[trigger] list[i] == #[trigger] remove_words(s) && (s == serial
                    || session.managed.contains(s)),
{
    if let LaunchActionView::Forward(list, _) = launch_step(stage, event, serial, session).2 {
        assert forall|i: int| 0 <= i < list.len() implies exists|s: Seq<char>|
            #[trigger] list[i] == #[trigger] remove_words(s) && (s == serial
                || session.managed.contains(s)) by {
            if i < session.managed.len() {
                assert(list[i] == remove_words(session.managed[i]));
                assert(session.managed.contains(session.managed[i]));
            } else {
                assert(list[i] == remove_words(serial));
            }
        }
    }
}

/// A device is listed as set up by this program exactly from the moment its forward is set
/// up, and stays listed. None is listed twice.
pub proof fn launch_enlists_device(
    stage: LaunchStage,
    event: LaunchEventView,
    serial: Seq<char>,
    session: SessionView,
)
    requires
        session.managed.no_duplicates(),
    ensures
        ({
            let next = launch_step(stage, event, serial, session).1;
            &&& next.managed.no_duplicates()
            &&& forall|s: Seq<char>|
                next.managed.contains(s) <==> session.managed.contains(s) || (s == serial && stage
                    is Forwarding && event == LaunchEventView::Forwarded(Ok(true)))
        }),
{
    let next = launch_step(stage, event, serial, session).1;
    if next.managed != session.managed {
        assert forall|s: Seq<char>|
            next.managed.contains(s) <==> session.managed.contains(s) || s == serial by {
            if session.managed.contains(s) {
                let k = choose|k: int| 0 <= k < session.managed.len() && session.managed[k] == s;
                assert(next.managed[k] == s);
            }
            if s == serial {
                assert(next.managed[session.managed.len() as int] == s);
            }
        }
    }
}

/// A server that was started since is not killed when an older start fails.
pub proof fn failed_launch_spares_newer_server(
    id: u64,
    deadline: u64,
    now: u64,
    serial: Seq<char>,
    session: SessionView,
)
    requires
        now >= deadline,
        session.process != Some(id),
    ensures
        launch_step(
            LaunchStage::Waiting(id, deadline),
            LaunchEventView::Clock(now),
            serial,
            session,
        ) == (
            LaunchStage::Closed,
            session,
            LaunchActionView::Finish(false, Err(boot_failed())),
        ),
{
}

// ── Asking ──

/// The parameters that ask for a screenshot: the primary display, and the quality.
pub fn screenshot_params() -> (r: Vec<Scalar>)
    ensures
        scalars(r@) == seq![ScalarView::Number(0), ScalarView::Number(80)],
{
    let params: Vec<Scalar> = vec![Scalar::Number(0), Scalar::Number(80)];
    assert(scalars(params@) =~= seq![ScalarView::Number(0), ScalarView::Number(80)]);
    params
}

/// The parameters that ask for a hierarchy: uncompressed, and how deep.
pub fn hierarchy_params() -> (r: Vec<Scalar>)
    ensures
        scalars(r@) == seq![ScalarView::Flag(false), ScalarView::Number(50)],
{
    let params: Vec<Scalar> = vec![Scalar::Flag(false), Scalar::Number(50)];
    assert(scalars(params@) =~= seq![ScalarView::Flag(false), ScalarView::Number(50)]);
    params
}

/// `s` without its white space.
pub open spec fn dense(s: Seq<char>) -> Seq<char>
    decreases s.len(),
{
    if s.len() == 0 {
        Seq::empty()
    } else if is_white(s.last()) {
        dense(s.drop_last())
    } else {
        dense(s.drop_last()).push(s.last())
    }
}

/// Drops all white space.
pub fn without_white(s: &str) -> (r: String)
    ensures
        r@ == dense(s@),
{
    let all = chars_of(s);
    let mut out = String::new();
    let n: usize = all.len();
    for i in 0..n
        invariant
            n == all@.len(),
            out@ == dense(all@.take(i as int)),
    {
        assert(all@.take(i + 1).drop_last() == all@.take(i as int));
        if !white(all[i]) {
            out.push(all[i]);
        }
    }
    assert(all@.take(n as int) == all@);
    out
}

/// The image in a reply, if it is one: a text in Base64, with line breaks in it.
pub open spec fn reply_image(reply: Result<MemberView, Seq<char>>) -> Option<Seq<u8>> {
    match reply {
        Ok(MemberView::Text(s)) => if dense(s).len() == 0 {
            None
        } else {
            base64_decoded(dense(s))
        },
        _ => None,
    }
}

/// Optional bytes as a sequence.
pub open spec fn image_in(r: Option<Vec<u8>>) -> Option<Seq<u8>> {
    match r {
        Some(b) => Some(b@),
        None => None,
    }
}

/// Takes the image out of a reply.
pub fn decode_screenshot(reply: Result<Member, String>) -> (r: Option<Vec<u8>>)
    ensures
        image_in(r) == reply_image(member_in(reply)),
{
    match reply {
        Ok(Member::Text(s)) => {
            let text = without_white(s.as_str());
            if text.as_str().is_empty() {
                None
            } else {
                base64_decode(text.as_str())
            }
        },
        _ => None,
    }
}

/// What to do next for a screenshot.
#[derive(Debug)]
pub enum ShotStep {
    /// Ask the server.
    Ask,
    /// Run the command that prints the screen.
    Print,
    Done(Result<(Vec<u8>, ShotSource), String>),
}

/// A screenshot and where it came from, or an error, with bytes and texts as sequences.
pub open spec fn shot_in(r: Result<(Vec<u8>, ShotSource), String>) -> Result<
    (Seq<u8>, ShotSource),
    Seq<char>,
> {
    match r {
        Ok((b, source)) => Ok((b@, source)),
        Err(e) => Err(e@),
    }
}

/// What to do next for a screenshot, with bytes and texts as sequences.
pub enum ShotStepView {
    Ask,
    Print,
    Done(Result<(Seq<u8>, ShotSource), Seq<char>>),
}

impl View for ShotStep {
    type V = ShotStepView;

    open spec fn view(&self) -> ShotStepView {
        match *self {
            ShotStep::Ask => ShotStepView::Ask,
            ShotStep::Print => ShotStepView::Print,
            ShotStep::Done(r) => ShotStepView::Done(shot_in(r)),
        }
    }
}

/// What to do for a screenshot of a display, given what was tried: the image of the server's
/// reply, if it was asked, and the command, if it was run. Only the primary display is asked
/// for; any other is printed, and so is the primary one when the reply holds no image.
pub open spec fn shot_step(
    display_id: u32,
    asked: Option<Option<Seq<u8>>>,
    run: Option<Outcome>,
) -> ShotStepView {
    match asked {
        Some(Some(image)) if display_id == 0 => ShotStepView::Done(Ok((image, ShotSource::JsonRpc))),
        None if display_id == 0 => ShotStepView::Ask,
        _ => match run {
            None => ShotStepView::Print,
            Some(out) => ShotStepView::Done(
                match screencap_of(out) {
                    Ok(image) => Ok((image, ShotSource::Adb)),
                    Err(e) => Err(e),
                },
            ),
        },
    }
}

/// Decides what to do for a screenshot of a display.
pub fn fetch_u2_screenshot(
    display_id: u32,
    asked: Option<Option<Vec<u8>>>,
    run: Option<Outcome>,
) -> (r: ShotStep)
    ensures
        r@ == shot_step(
            display_id,
            match asked {
                Some(image) => Some(image_in(image)),
                None => None,
            },
            run,
        ),
{
    if display_id == 0 {
        match asked {
            None => {
                return ShotStep::Ask;
            },
            Some(Some(image)) => {
                return ShotStep::Done(Ok((image, ShotSource::JsonRpc)));
            },
            Some(None) => {},
        }
    }
    match run {
        None => ShotStep::Print,
        Some(out) => match screencap_bytes(out) {
            Ok(image) => ShotStep::Done(Ok((image, ShotSource::Adb))),
            Err(e) => ShotStep::Done(Err(e)),
        },
    }
}

/// How often a hierarchy is asked for.
pub const HIERARCHY_ATTEMPTS: usize = 3;

/// The pause before a hierarchy is asked for again, in milliseconds.
pub const HIERARCHY_PAUSE: u64 = 800;

/// What to do next for a hierarchy.
#[derive(Debug)]
pub enum HierarchyStep {
    /// Pause for so many milliseconds and ask again.
    Again(u64),
    Done(Result<Vec<u8>, String>),
}

/// What to do next for a hierarchy, with bytes and texts as sequences.
pub enum HierarchyStepView {
    Again(u64),
    Done(Result<Seq<u8>, Seq<char>>),
}

impl View for HierarchyStep {
    type V = HierarchyStepView;

    open spec fn view(&self) -> HierarchyStepView {
        match *self {
            HierarchyStep::Again(ms) => HierarchyStepView::Again(ms),
            HierarchyStep::Done(r) => HierarchyStepView::Done(bytes_in(r)),
        }
    }
}

/// What to make of the reply to the attempt with this number, the first being 0. An empty
/// hierarchy is asked for again, but not after the last attempt.
pub open spec fn hierarchy_step(
    attempt: usize,
    reply: Result<MemberView, Seq<char>>,
) -> HierarchyStepView {
    match reply {
        Err(e) => HierarchyStepView::Done(Err(e)),
        Ok(MemberView::Text(s)) => if s.len() > 0 {
            HierarchyStepView::Done(Ok(encode_utf8(s)))
        } else if attempt + 1 < HIERARCHY_ATTEMPTS {
            HierarchyStepView::Again(HIERARCHY_PAUSE)
        } else {
            HierarchyStepView::Done(Err("dumpWindowHierarchy returned empty hierarchy"@))
        },
        Ok(_) => HierarchyStepView::Done(Err("dumpWindowHierarchy: not a string"@)),
    }
}

/// Decides what to make of the reply to an attempt.
pub fn fetch_u2_hierarchy(attempt: usize, reply: Result<Member, String>) -> (r: HierarchyStep)
    ensures
        r@ == hierarchy_step(attempt, member_in(reply)),
{
    match reply {
        Err(e) => HierarchyStep::Done(Err(e)),
        Ok(Member::Text(s)) => {
            if !s.as_str().is_empty() {
                HierarchyStep::Done(Ok(vstd::slice::slice_to_vec(s.as_str().as_bytes())))
            } else if attempt < HIERARCHY_ATTEMPTS - 1 {
                HierarchyStep::Again(HIERARCHY_PAUSE)
            } else {
                HierarchyStep::Done(Err(copy_of("dumpWindowHierarchy returned empty hierarchy")))
            }
        },
        Ok(_) => HierarchyStep::Done(Err(copy_of("dumpWindowHierarchy: not a string"))),
    }
}

/// A pause comes between two attempts only, never after the last, and only where the hierarchy
/// was empty.
pub proof fn pauses_lie_between_attempts(attempt: usize, reply: Result<MemberView, Seq<char>>)
    ensures
        hierarchy_step(attempt, reply) is Again <==> attempt + 1 < HIERARCHY_ATTEMPTS && (
        reply matches Ok(MemberView::Text(s)) && s.len() == 0),
{
}

// ── Laws ──

/// A line of the list of forwards names ours on a device where its first three words are the
/// serial and the two ends of the forward, whatever follows; a list does where one of its lines
/// does.
pub proof fn forward_lines_name_both_ends(
    serial: Seq<char>,
    other: Seq<char>,
    a: Seq<char>,
    b: Seq<char>,
)
    requires
        is_word(serial) && is_word(other) && is_word(a) && is_word(b),
    ensures
        forward_line(serial + seq![' '] + a + seq![' '] + b, other) <==> serial == other && a
            == "tcp:9008"@ && b == "tcp:9008"@,
        !forward_line(serial + seq![' '] + a, other),
        forall|text: Seq<char>| #[trigger]
            forward_listed(text, serial) <==> exists|i: int|
                0 <= i < lines(text).len() && forward_line(#[trigger] lines(text)[i], serial),
{
    white_space_is_listed(' ');
    let tail = a + seq![' '] + b;
    words_end_at_white_space(serial, ' ', tail);
    words_end_at_white_space(a, ' ', b);
    words_end_at_white_space(b, ' ', b);
    words_end_at_white_space(serial, ' ', a);
    assert(serial + seq![' '] + a + seq![' '] + b =~= serial + seq![' '] + tail);
    let w = words(serial + seq![' '] + tail);
    assert(w =~= seq![serial, a, b]);
    assert(words(serial + seq![' '] + a) =~= seq![serial, a]);
}

/// A text that is one word.
pub open spec fn is_word(s: Seq<char>) -> bool {
    s.len() > 0 && forall|k: int| 0 <= k < s.len() ==> !is_white(#[trigger] s[k])
}

/// A server is alive exactly where its answer is the word `pong`, white space around it aside.
pub proof fn only_pong_is_alive(s: Seq<char>, e: Seq<char>)
    ensures
        is_pong(Ok(encode_utf8(s))) <==> trimmed(s) == seq!['p', 'o', 'n', 'g'],
        !is_pong(Err(e)),
        forall|bytes: Seq<u8>| !valid_utf8(bytes) ==> !#[trigger] is_pong(Ok(bytes)),
{
    reveal_strlit("pong");
    assert("pong"@ =~= seq!['p', 'o', 'n', 'g']);
    encode_utf8_valid_utf8(s);
    encode_utf8_decode_utf8(s);
}

/// The fingerprint of a hierarchy is that of its bytes. Nothing, or what is no text, has none.
pub proof fn probes_hash_the_hierarchy(s: Seq<char>, e: Seq<char>)
    ensures
        s.len() > 0 ==> probe_hash(Ok(MemberView::Text(s))) == Some(fnv1a(encode_utf8(s))),
        s.len() == 0 ==> probe_hash(Ok(MemberView::Text(s))) is None,
        probe_hash(Ok(MemberView::Missing)) is None,
        probe_hash(Ok(MemberView::Other)) is None,
        probe_hash(Err(e)) is None,
{
}

/// All white space is dropped from a text, and nothing else, in whatever place.
pub proof fn white_space_is_dropped_everywhere(a: Seq<char>, c: char, b: Seq<char>)
    ensures
        dense(Seq::empty()) == Seq::<char>::empty(),
        dense(seq![c]) == (if is_white(c) {
            Seq::empty()
        } else {
            seq![c]
        }),
        dense(a + b) == dense(a) + dense(b),
    decreases b.len(),
{
    assert(seq![c].drop_last() =~= Seq::<char>::empty());
    assert(dense(Seq::<char>::empty()) =~= Seq::<char>::empty());
    assert(Seq::<char>::empty().push(c) =~= seq![c]);
    if b.len() == 0 {
        assert(a + b =~= a);
        assert(dense(a) + dense(b) =~= dense(a));
    } else {
        assert((a + b).drop_last() =~= a + b.drop_last());
        white_space_is_dropped_everywhere(a, c, b.drop_last());
        assert(dense(a + b) =~= dense(a) + dense(b));
    }
}

/// The image in a reply is what its text stands for in Base64 without its white space. A reply
/// without a text, or whose text is all white space, has none.
pub proof fn images_come_from_texts(s: Seq<char>, e: Seq<char>)
    ensures
        dense(s).len() > 0 ==> reply_image(Ok(MemberView::Text(s))) == base64_decoded(dense(s)),
        dense(s).len() == 0 ==> reply_image(Ok(MemberView::Text(s))) is None,
        reply_image(Ok(MemberView::Missing)) is None,
        reply_image(Ok(MemberView::Other)) is None,
        reply_image(Err(e)) is None,
{
}

/// The primary display is asked for from the server, and its image is taken if there is one. Any
/// other display, and the primary one where the server has no image, is printed by `adb`.
pub proof fn only_the_primary_display_is_asked_for(
    display: u32,
    image: Seq<u8>,
    run: Option<Outcome>,
    out: Outcome,
)
    requires
        display > 0,
    ensures
        shot_step(0, None, run) == ShotStepView::Ask,
        shot_step(0, Some(Some(image)), run) == ShotStepView::Done(
            Ok((image, ShotSource::JsonRpc)),
        ),
        shot_step(0, Some(None), None) == ShotStepView::Print,
        forall|asked: Option<Option<Seq<u8>>>| #[trigger]
            shot_step(display, asked, None) == ShotStepView::Print,
        forall|asked: Option<Option<Seq<u8>>>| #[trigger]
            shot_step(display, asked, Some(out)) == shot_step(0, Some(None), Some(out)),
        screencap_of(out) matches Ok(b) ==> shot_step(0, Some(None), Some(out))
            == ShotStepView::Done(Ok((b, ShotSource::Adb))),
        screencap_of(out) matches Err(e) ==> shot_step(0, Some(None), Some(out))
            == ShotStepView::Done(Err(e)),
{
}

/// A hierarchy that is not empty is taken at once, as bytes. What is no text, or does not come,
/// is an error at once; an empty one is an error after the third attempt.
pub proof fn hierarchies_are_taken_at_once(attempt: usize, s: Seq<char>, e: Seq<char>)
    ensures
        s.len() > 0 ==> hierarchy_step(attempt, Ok(MemberView::Text(s))) == HierarchyStepView::Done(
            Ok(encode_utf8(s)),
        ),
        attempt < 2 ==> hierarchy_step(attempt, Ok(MemberView::Text(Seq::empty())))
            == HierarchyStepView::Again(800),
        attempt >= 2 ==> (hierarchy_step(attempt, Ok(MemberView::Text(Seq::empty())))
            matches HierarchyStepView::Done(r) && r is Err),
        hierarchy_step(attempt, Ok(MemberView::Missing)) matches HierarchyStepView::Done(r) && r
            is Err,
        hierarchy_step(attempt, Ok(MemberView::Other)) matches HierarchyStepView::Done(r) && r
            is Err,
        hierarchy_step(attempt, Err(e)) == HierarchyStepView::Done(Err(e)),
{
}

/// A start goes step by step. The program has to be on the device. Old forwards are removed and
/// a new one is set up; only then the device counts as set up, old servers are ended and a new
/// one is started, which has ten seconds to answer. Each failure ends it with an error.
pub proof fn launches_go_step_by_step(
    serial: Seq<char>,
    session: SessionView,
    now: u64,
    id: u64,
    deadline: u64,
    e: Seq<char>,
)
    requires
        now <= u64::MAX - 10_000_000_000,
    ensures
        ({
            let (stage, next, action) = launch_step(
                LaunchStage::Probing,
                LaunchEventView::Probed(true),
                serial,
                session,
            );
            &&& stage is Forwarding && next == session
            &&& action matches LaunchActionView::Forward(list, last) && last == seq![
                "-s"@,
                serial,
                "forward"@,
                "tcp:9008"@,
                "tcp:9008"@,
            ] && list.last() == seq!["-s"@, serial, "forward"@, "--remove"@, "tcp:9008"@]
                && list.len() == session.managed.len() + 1 && forall|i: int|
                0 <= i < session.managed.len() ==> #[trigger] list[i] == seq![
                    "-s"@,
                    session.managed[i],
                    "forward"@,
                    "--remove"@,
                    "tcp:9008"@,
                ]
        }),
        ({
            let (stage, next, action) = launch_step(
                LaunchStage::Forwarding,
                LaunchEventView::Forwarded(Ok(true)),
                serial,
                session,
            );
            &&& stage is Starting
            &&& next.managed.contains(serial) && next.process is None && next.serial
                == session.serial && next.next_id == session.next_id
            &&& action matches LaunchActionView::Start(kill, _, _, _) && kill == (session.process
                is Some)
        }),
        ({
            let (stage, next, action) = launch_step(
                LaunchStage::Starting,
                LaunchEventView::Started(Ok(now)),
                serial,
                session,
            );
            &&& stage == LaunchStage::Waiting(session.next_id, (now + 10_000_000_000) as u64)
            &&& next.process == Some(session.next_id) && next.managed == session.managed
            &&& action is Clock
        }),
        ({
            let (stage, next, action) = launch_step(
                LaunchStage::Waiting(id, deadline),
                LaunchEventView::Asked(true),
                serial,
                session,
            );
            stage is Closed && next == session && action == LaunchActionView::Finish(false, Ok(()))
        }),
        ({
            let (stage, next, action) = launch_step(
                LaunchStage::Waiting(id, deadline),
                LaunchEventView::Asked(false),
                serial,
                session,
            );
            stage == LaunchStage::Waiting(id, deadline) && next == session && action
                == LaunchActionView::Sleep(100)
        }),
        now < deadline ==> launch_step(
            LaunchStage::Waiting(id, deadline),
            LaunchEventView::Clock(now),
            serial,
            session,
        ) == (LaunchStage::Waiting(id, deadline), session, LaunchActionView::Ask),
        now >= deadline && session.process == Some(id) ==> ({
            let (stage, next, action) = launch_step(
                LaunchStage::Waiting(id, deadline),
                LaunchEventView::Clock(now),
                serial,
                session,
            );
            stage is Closed && next.process is None && next.managed == session.managed && (
            action matches LaunchActionView::Finish(kill, r) && kill && r is Err)
        }),
        launch_ends_in_error(LaunchStage::Probing, LaunchEventView::Probed(false), serial, session),
        launch_ends_in_error(
            LaunchStage::Forwarding,
            LaunchEventView::Forwarded(Ok(false)),
            serial,
            session,
        ),
        launch_ends_in_error(
            LaunchStage::Forwarding,
            LaunchEventView::Forwarded(Err(e)),
            serial,
            session,
        ),
        launch_ends_in_error(
            LaunchStage::Starting,
            LaunchEventView::Started(Err(e)),
            serial,
            session,
        ),
{
    if session.managed.contains(serial) {
    } else {
        assert(session.managed.push(serial)[session.managed.len() as int] == serial);
    }
}

/// The event ends the start with an error. The session stays as it was, and nothing is killed.
pub open spec fn launch_ends_in_error(
    stage: LaunchStage,
    event: LaunchEventView,
    serial: Seq<char>,
    session: SessionView,
) -> bool {
    let (next, after, action) = launch_step(stage, event, serial, session);
    next is Closed && after == session && (action matches LaunchActionView::Finish(kill, r) && !kill
        && r is Err)
}

/// At the end of the program the server on the last device is ended and its forward removed, if
/// this program set it up; else nothing is done.
pub proof fn exit_cleans_up_the_last_device(session: SessionView)
    ensures
        ({
            let own = session.serial matches Some(s) && session.managed.contains(s);
            &&& !own ==> exit_commands(session).len() == 0
            &&& own ==> exit_commands(session).len() == 2 && exit_commands(session)[1] == seq![
                "-s"@,
                session.serial->0,
                "forward"@,
                "--remove"@,
                "tcp:9008"@,
            ] && exit_commands(session)[0][0] == "-s"@ && exit_commands(session)[0][1]
                == session.serial->0 && exit_commands(session)[0][2] == "shell"@
        }),
{
}

/// Each stage of a start takes every outcome of what it waits for.
pub proof fn every_outcome_is_taken(event: LaunchEventView, id: u64, deadline: u64)
    ensures
        event is Probed ==> expected(LaunchStage::Probing, event),
        event is Forwarded ==> expected(LaunchStage::Forwarding, event),
        event is Started ==> expected(LaunchStage::Starting, event),
        event is Clock ==> expected(LaunchStage::Waiting(id, deadline), event),
        event is Asked ==> expected(LaunchStage::Waiting(id, deadline), event),
{
}

} // verus!

//! The monitor that captures again and again: its interval, its schedule, and what it makes
//! of the fingerprints that it probes.

use vstd::prelude::*;

verus! {

/// After so many probes in a row a capture is made even if nothing seems to have changed: the
/// hierarchy does not show what happens inside a picture.
pub const FORCE_EVERY: u32 = 10;

/// The shortest interval, in half seconds.
pub const SHORTEST: u32 = 1;

/// The longest interval, in half seconds.
pub const LONGEST: u32 = 120;

/// Half a second in nanoseconds.
pub const HALF_SECOND: u64 = 500_000_000;

/// The state of the monitor. Times are in nanoseconds.
#[verifier::ext_equal]
pub struct MonitorView {
    /// Whether it is on.
    pub keep: bool,
    /// The interval in half seconds.
    pub interval: u32,
    /// When it acts next.
    pub next: Option<u64>,
    /// The fingerprint of what is shown.
    pub hash: Option<u64>,
    /// The probes since the last capture.
    pub count: u32,
    /// Whether a probe is on its way.
    pub probing: bool,
}

impl MonitorView {
    /// The monitor when the program starts: off, with an interval of three seconds.
    pub open spec fn initial() -> MonitorView {
        MonitorView { keep: false, interval: 6, next: None, hash: None, count: 0, probing: false }
    }

    /// The interval is between half a second and a minute, and a forced capture is never
    /// overdue.
    pub open spec fn in_bounds(self) -> bool {
        SHORTEST <= self.interval <= LONGEST && self.count < FORCE_EVERY
    }

    /// Turned off, with nothing scheduled.
    pub open spec fn stopped(self) -> MonitorView {
        MonitorView { keep: false, next: None, probing: false, ..self }
    }

    /// The interval in nanoseconds.
    pub open spec fn pause(self) -> u64 {
        (self.interval * HALF_SECOND) as u64
    }

    /// Scheduled one interval from now.
    pub open spec fn scheduled(self, now: u64) -> MonitorView {
        MonitorView { next: Some(now.saturating_add(self.pause())), ..self }
    }

    /// With the interval half a second longer or shorter, as far as it goes.
    pub open spec fn stepped(self, longer: bool) -> MonitorView {
        MonitorView {
            interval: if longer {
                if self.interval < LONGEST {
                    (self.interval + 1) as u32
                } else {
                    LONGEST
                }
            } else {
                if self.interval > SHORTEST {
                    (self.interval - 1) as u32
                } else {
                    SHORTEST
                }
            },
            ..self
        }
    }

    /// A probe with this fingerprint calls for a capture: it differs from what is shown, or
    /// it is time for a forced one.
    pub open spec fn calls(self, hash: u64) -> bool {
        self.count + 1 >= FORCE_EVERY || self.hash != Some(hash)
    }

    /// After a probe with this fingerprint.
    pub open spec fn probed(self, hash: u64) -> MonitorView {
        MonitorView {
            hash: Some(hash),
            count: if self.count + 1 >= FORCE_EVERY {
                0
            } else {
                (self.count + 1) as u32
            },
            ..self
        }
    }

    /// After a capture whose hierarchy has this fingerprint, if it could be read.
    pub open spec fn rebased(self, hash: Option<u64>) -> MonitorView {
        MonitorView {
            hash: match hash {
                Some(h) => Some(h),
                None => self.hash,
            },
            count: 0,
            ..self
        }
    }
}

/// The monitor.
#[derive(Debug)]
pub struct Monitor {
    keep: bool,
    interval: u32,
    next: Option<u64>,
    hash: Option<u64>,
    count: u32,
    probing: bool,
}

impl View for Monitor {
    type V = MonitorView;

    closed spec fn view(&self) -> MonitorView {
        MonitorView {
            keep: self.keep,
            interval: self.interval,
            next: self.next,
            hash: self.hash,
            count: self.count,
            probing: self.probing,
        }
    }
}

impl Monitor {
    #[verifier::type_invariant]
    spec fn bounded(self) -> bool {
        self@.in_bounds()
    }

    /// A monitor that is off.
    pub fn new() -> (r: Monitor)
        ensures
            r@ == MonitorView::initial(),
    {
        Monitor { keep: false, interval: 6, next: None, hash: None, count: 0, probing: false }
    }

    /// Whether it is on.
    pub fn keep(&self) -> (r: bool)
        ensures
            r == self@.keep,
    {
        self.keep
    }

    /// The interval in half seconds.
    pub fn interval(&self) -> (r: u32)
        ensures
            r == self@.interval,
            self@.in_bounds(),
    {
        proof {
            use_type_invariant(&*self);
        }
        self.interval
    }

    /// When it acts next.
    pub fn next(&self) -> (r: Option<u64>)
        ensures
            r == self@.next,
    {
        self.next
    }

    /// Whether a probe is on its way.
    pub fn probing(&self) -> (r: bool)
        ensures
            r == self@.probing,
    {
        self.probing
    }

    /// The interval in nanoseconds.
    pub fn pause(&self) -> (r: u64)
        ensures
            r == self@.pause(),
            HALF_SECOND <= r <= LONGEST * HALF_SECOND,
    {
        proof {
            use_type_invariant(&*self);
        }
        self.interval as u64 * HALF_SECOND
    }

    /// Turns it off and forgets what is scheduled.
    pub fn stop(&mut self)
        ensures
            final(self)@ == old(self)@.stopped(),
    {
        proof {
            use_type_invariant(&*self);
        }
        self.keep = false;
        self.next = None;
        self.probing = false;
    }

    /// Turns it on, to act at once.
    pub fn start(&mut self, now: u64)
        ensures
            final(self)@ == (MonitorView { keep: true, next: Some(now), ..old(self)@ }),
    {
        proof {
            use_type_invariant(&*self);
        }
        self.keep = true;
        self.next = Some(now);
    }

    /// Makes the interval half a second longer or shorter, as far as it goes.
    pub fn step(&mut self, longer: bool)
        ensures
            final(self)@ == old(self)@.stepped(longer),
            final(self)@.in_bounds(),
    {
        proof {
            use_type_invariant(&*self);
        }
        if longer {
            if self.interval < LONGEST {
                self.interval = self.interval + 1;
            }
        } else {
            if self.interval > SHORTEST {
                self.interval = self.interval - 1;
            }
        }
    }

    /// Schedules the next act one interval from now.
    pub fn schedule(&mut self, now: u64)
        ensures
            final(self)@ == old(self)@.scheduled(now),
    {
        proof {
            use_type_invariant(&*self);
        }
        let pause: u64 = self.pause();
        self.next = Some(now.saturating_add(pause));
    }

    /// Takes the next act off the schedule.
    pub fn unschedule(&mut self)
        ensures
            final(self)@ == (MonitorView { next: None, ..old(self)@ }),
    {
        proof {
            use_type_invariant(&*self);
        }
        self.next = None;
    }

    /// Notes that a probe is on its way, or no longer.
    pub fn set_probing(&mut self, probing: bool)
        ensures
            final(self)@ == (MonitorView { probing, ..old(self)@ }),
    {
        proof {
            use_type_invariant(&*self);
        }
        self.probing = probing;
    }

    /// Takes in a fingerprint. True if it calls for a capture.
    pub fn absorb(&mut self, hash: u64) -> (r: bool)
        ensures
            r == old(self)@.calls(hash),
            final(self)@ == old(self)@.probed(hash),
    {
        proof {
            use_type_invariant(&*self);
        }
        let forced = self.count + 1 >= FORCE_EVERY;
        let changed = match self.hash {
            Some(h) => h != hash,
            None => true,
        };
        if forced {
            self.count = 0;
        } else {
            self.count = self.count + 1;
        }
        self.hash = Some(hash);
        forced || changed
    }

    /// Starts counting anew after a capture.
    pub fn rebase(&mut self, hash: Option<u64>)
        ensures
            final(self)@ == old(self)@.rebased(hash),
    {
        proof {
            use_type_invariant(&*self);
        }
        if let Some(h) = hash {
            self.hash = Some(h);
        }
        self.count = 0;
    }
}

/// The monitor after a run of probes.
pub open spec fn after_probes(m: MonitorView, hashes: Seq<u64>) -> MonitorView
    decreases hashes.len(),
{
    if hashes.len() == 0 {
        m
    } else {
        after_probes(m, hashes.drop_last()).probed(hashes.last())
    }
}

/// Among any ten probes in a row at least one calls for a capture, whatever their
/// fingerprints.
pub proof fn capture_is_forced(m: MonitorView, hashes: Seq<u64>)
    requires
        m.in_bounds(),
        hashes.len() == FORCE_EVERY,
    ensures
        exists|i: int|
            0 <= i < hashes.len() && after_probes(m, #[trigger] hashes.take(i)).calls(hashes[i]),
{
    if forall|i: int|
        0 <= i < hashes.len() ==> !after_probes(m, #[trigger] hashes.take(i)).calls(hashes[i]) {
        count_grows(m, hashes, hashes.len());
        assert(after_probes(m, hashes.take(9)).count == m.count + 9) by {
            count_grows(m, hashes, 9);
        }
        assert(!after_probes(m, hashes.take(9)).calls(hashes[9]));
    }
}

proof fn count_grows(m: MonitorView, hashes: Seq<u64>, n: nat)
    requires
        n <= hashes.len(),
        m.in_bounds(),
        forall|i: int|
            0 <= i < hashes.len() ==> !after_probes(m, #[trigger] hashes.take(i)).calls(hashes[i]),
    ensures
        after_probes(m, hashes.take(n as int)).count == m.count + n,
    decreases n,
{
    if n > 0 {
        count_grows(m, hashes, (n - 1) as nat);
        assert(hashes.take(n as int).drop_last() =~= hashes.take(n - 1));
        assert(!after_probes(m, hashes.take(n - 1)).calls(hashes[n - 1]));
    }
}

/// Every operation keeps the interval and the count in their bounds.
pub proof fn bounds_are_kept(m: MonitorView, longer: bool, now: u64, h: u64, hash: Option<u64>)
    requires
        m.in_bounds(),
    ensures
        m.stopped().in_bounds(),
        m.stepped(longer).in_bounds(),
        m.scheduled(now).in_bounds(),
        m.probed(h).in_bounds(),
        m.rebased(hash).in_bounds(),
        MonitorView::initial().in_bounds(),
{
}

/// A step in one direction undoes a step in the other, unless the interval was at its end.
pub proof fn steps_undo_each_other(m: MonitorView, longer: bool)
    requires
        m.in_bounds(),
        longer ==> m.interval < LONGEST,
        !longer ==> m.interval > SHORTEST,
    ensures
        m.stepped(longer).stepped(!longer) == m,
{
}

/// A step changes the interval by half a second, and not beyond half a second or a minute; it
/// changes nothing else.
pub proof fn steps_are_half_seconds(m: MonitorView)
    requires
        1 <= m.interval <= 120,
    ensures
        m.stepped(true) == (MonitorView { interval: m.stepped(true).interval, ..m }),
        m.stepped(false) == (MonitorView { interval: m.stepped(false).interval, ..m }),
        m.interval < 120 ==> m.stepped(true).interval == m.interval + 1,
        m.interval == 120 ==> m.stepped(true).interval == 120,
        m.interval > 1 ==> m.stepped(false).interval == m.interval - 1,
        m.interval == 1 ==> m.stepped(false).interval == 1,
        m.pause() == m.interval * 500_000_000,
{
}

/// A probe calls for a capture where its fingerprint is another than the one of what is shown,
/// or where none is known, and also where nine probes before it did not lead to one.
pub proof fn changes_call_for_a_capture(m: MonitorView, h: u64)
    ensures
        m.hash is None ==> m.calls(h),
        m.hash matches Some(shown) && shown != h ==> m.calls(h),
        m.hash == Some(h) && m.count < 9 ==> !m.calls(h),
        m.count >= 9 ==> m.calls(h),
        m.probed(h).hash == Some(h),
        m.count < 9 ==> m.probed(h).count == m.count + 1,
        m.count >= 9 ==> m.probed(h).count == 0,
        m.probed(h) == (MonitorView { hash: m.probed(h).hash, count: m.probed(h).count, ..m }),
{
}

/// The next act comes one interval from now. A capture starts the count anew and takes over its
/// fingerprint if it has one. Turning the monitor off forgets what was scheduled or under way,
/// but not the interval.
pub proof fn schedule_and_end(m: MonitorView, now: u64, hash: Option<u64>)
    requires
        m.interval <= 120,
        now <= u64::MAX - 60_000_000_000,
    ensures
        m.scheduled(now) == (MonitorView {
            next: Some((now + m.interval * 500_000_000) as u64),
            ..m
        }),
        m.rebased(hash).count == 0,
        hash is Some ==> m.rebased(hash).hash == hash,
        hash is None ==> m.rebased(hash).hash == m.hash,
        m.rebased(hash) == (MonitorView { hash: m.rebased(hash).hash, count: 0, ..m }),
        !m.stopped().keep && m.stopped().next is None && !m.stopped().probing,
        m.stopped().interval == m.interval && m.stopped().hash == m.hash && m.stopped().count
            == m.count,
        !MonitorView::initial().keep && MonitorView::initial().interval == 6
            && MonitorView::initial().next is None && MonitorView::initial().hash is None,
{
}

} // verus!

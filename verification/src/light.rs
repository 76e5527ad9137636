//! Time-of-day light scheduler.
//!
//! A [`Light`] owns a schedule of active hours and decides, from one wall
//! clock reading, what the background loop must do next: which level to drive
//! the output line to (if any) and how long to sleep before re-evaluating.
//! While the wall clock still reports the epoch year 1970 — the sentinel for
//! "not yet synchronized" — the loop retries after one second, optionally
//! forcing the line to its safe off state; once synchronized it drives the
//! line to match the schedule and sleeps an hour, since the schedule only
//! changes at hour boundaries. Driving the pin and sleeping are the loop's
//! business, outside this library.

use vstd::prelude::*;

use crate::button::Level;

verus! {

/// The schedule: the set of hours of day (0–23) during which the light is on,
/// held as an explicit list of hours. Semantically a membership predicate
/// over hours; hours outside 0–23 may be stored but never match a real clock
/// reading.
#[derive(Clone, Debug)]
pub struct LightHours(pub Vec<u8>);

impl View for LightHours {
    type V = Seq<u8>;

    open spec fn view(&self) -> Seq<u8> {
        self.0@
    }
}

impl Default for LightHours {
    /// The empty schedule: never active.
    fn default() -> (r: Self)
        ensures
            r@ == Seq::<u8>::empty(),
    {
        LightHours(Vec::new())
    }
}

impl LightHours {
    /// Whether the light should be on during hour `hour`: plain membership.
    pub open spec fn spec_active(self, hour: u8) -> bool {
        self@.contains(hour)
    }

    /// Evaluates the schedule at `hour`: true iff `hour` is one of the
    /// scheduled hours.
    pub fn active(&self, hour: u8) -> (b: bool)
        ensures
            b == self.spec_active(hour),
    {
        let mut i: usize = 0;
        while i < self.0.len()
            invariant
                i <= self.0.len(),
                forall|j: int| 0 <= j < i ==> self@[j] != hour,
            decreases self.0.len() - i,
        {
            if self.0[i] == hour {
                return true;
            }
            i += 1;
        }
        false
    }

    /// Builds a schedule from a list of inclusive hour ranges: an hour is
    /// active iff some range `(lo, hi)` has `lo <= hour <= hi`. A range with
    /// `lo > hi` is empty.
    pub fn from_ranges(ranges: &Vec<(u8, u8)>) -> (r: LightHours)
        ensures
            forall|h: u8| #[trigger] r.spec_active(h) <==> spec_ranges_active(ranges@, h),
    {
        let mut hours: Vec<u8> = Vec::new();
        let mut k: usize = 0;
        while k < ranges.len()
            invariant
                k <= ranges.len(),
                forall|h: u8| #[trigger] hours@.contains(h)
                    <==> spec_ranges_active_upto(ranges@, k as int, h),
            decreases ranges.len() - k,
        {
            let (lo, hi) = ranges[k];
            if lo <= hi {
                let mut h = lo;
                loop
                    invariant_except_break
                        lo <= h <= hi,
                        forall|x: u8| #[trigger] hours@.contains(x)
                            <==> spec_ranges_active_upto(ranges@, k as int, x) || (lo <= x < h),
                    invariant
                        k < ranges.len(),
                        (lo, hi) == ranges@[k as int],
                    ensures
                        forall|x: u8| #[trigger] hours@.contains(x)
                            <==> spec_ranges_active_upto(ranges@, k as int, x) || (lo <= x <= hi),
                    decreases hi - h,
                {
                    let ghost prev = hours@;
                    hours.push(h);
                    proof {
                        assert forall|x: u8| #[trigger] hours@.contains(x)
                            <==> prev.contains(x) || x == h by {
                            lemma_push_contains(prev, h, x);
                        }
                    }
                    if h == hi {
                        break;
                    }
                    h += 1;
                }
                proof {
                    assert forall|x: u8| #[trigger] hours@.contains(x)
                        <==> spec_ranges_active_upto(ranges@, k + 1, x) by {
                        if in_range(ranges@[k as int], x) {
                            assert(spec_ranges_active_upto(ranges@, k + 1, x));
                        }
                        if spec_ranges_active_upto(ranges@, k + 1, x) {
                            let i = choose|i: int|
                                0 <= i < k + 1 && in_range(#[trigger] ranges@[i], x);
                            if i < k {
                                assert(spec_ranges_active_upto(ranges@, k as int, x));
                            }
                        }
                    }
                }
            } else {
                proof {
                    assert forall|x: u8| spec_ranges_active_upto(ranges@, k as int, x)
                        <==> spec_ranges_active_upto(ranges@, k + 1, x) by {
                        if spec_ranges_active_upto(ranges@, k + 1, x) {
                            let i = choose|i: int|
                                0 <= i < k + 1 && in_range(#[trigger] ranges@[i], x);
                            assert(i < k || !in_range(ranges@[i], x) || i == k);
                            if i == k {
                                assert(false);
                            }
                            assert(spec_ranges_active_upto(ranges@, k as int, x));
                        }
                    }
                }
            }
            k += 1;
        }
        LightHours(hours)
    }
}

proof fn lemma_push_contains(s: Seq<u8>, v: u8, x: u8)
    ensures
        s.push(v).contains(x) <==> s.contains(x) || x == v,
{
    if s.contains(x) {
        let i = choose|i: int| 0 <= i < s.len() && s[i] == x;
        assert(s.push(v)[i] == x);
    }
    if x == v {
        assert(s.push(v)[s.len() as int] == x);
    }
    if s.push(v).contains(x) {
        let i = choose|i: int| 0 <= i < s.push(v).len() && s.push(v)[i] == x;
        if i < s.len() {
            assert(s[i] == x);
        }
    }
}

/// Law: the empty schedule — in particular the fallback for a malformed
/// configuration string — is active at no hour.
pub proof fn lemma_empty_never_active(hours: LightHours, h: u8)
    requires
        hours@ == Seq::<u8>::empty(),
    ensures
        !hours.spec_active(h),
{
}

/// Law: schedule evaluation is pure, deterministic membership — for every
/// schedule and every hour, the schedule is active at `h` exactly when some
/// stored hour equals `h`.
pub proof fn lemma_active_is_membership(hours: LightHours, h: u8)
    ensures
        hours.spec_active(h) <==> exists|i: int| 0 <= i < hours@.len() && hours@[i] == h,
{
}

/// Whether hour `h` falls inside the inclusive range `r`.
pub open spec fn in_range(r: (u8, u8), h: u8) -> bool {
    r.0 <= h && h <= r.1
}

/// Whether some range among the first `n` of `ranges` contains hour `h`.
pub open spec fn spec_ranges_active_upto(ranges: Seq<(u8, u8)>, n: int, h: u8) -> bool {
    exists|i: int| 0 <= i < n && in_range(#[trigger] ranges[i], h)
}

/// Whether some range of `ranges` contains hour `h`: the membership meaning
/// of a range-form schedule.
pub open spec fn spec_ranges_active(ranges: Seq<(u8, u8)>, h: u8) -> bool {
    spec_ranges_active_upto(ranges, ranges.len() as int, h)
}

/// One reading of the wall clock: the two components the scheduler looks at.
#[derive(Clone, Copy, PartialEq, Eq, Structural, Debug)]
pub struct WallClock {
    /// Calendar year; 1970 is the sentinel for an unsynchronized clock.
    pub year: i32,
    /// Hour of day, 0–23.
    pub hour: u8,
}

impl WallClock {
    /// The clock is synchronized iff it no longer reports the epoch year.
    pub open spec fn spec_synchronized(self) -> bool {
        self.year != 1970
    }

    /// Whether this reading comes from a synchronized clock.
    pub fn is_synchronized(&self) -> (b: bool)
        ensures
            b == self.spec_synchronized(),
    {
        self.year != 1970
    }
}

/// Relies on `time::OffsetDateTime`: `now_utc` reads the system clock in UTC,
/// `year` and `hour` expose its components, and `hour` is documented to lie
/// in `0..24`. Before external time synchronization the clock reports the
/// epoch year 1970.
#[verifier::external_body]
fn read_wall_clock() -> (r: WallClock)
    ensures
        r.hour < 24,
{
    let now = time::OffsetDateTime::now_utc();
    WallClock { year: now.year(), hour: now.hour() }
}

/// What to do while the wall clock is still unsynchronized: force the line to
/// its safe off state each retry, or leave it untouched.
#[derive(Clone, Copy, PartialEq, Eq, Structural, Debug)]
pub enum UnsyncPolicy {
    ForceOff,
    LeaveUnchanged,
}

/// One decision of the scheduler: the level to drive the output line to (or
/// none, leaving it in its last commanded state), then the number of seconds
/// to sleep before the next evaluation.
#[derive(Clone, Copy, PartialEq, Eq, Structural, Debug)]
pub struct LightStep {
    /// Level to drive the line to; `None` leaves the line untouched.
    pub drive: Option<Level>,
    /// Seconds to sleep before the next evaluation.
    pub sleep_secs: u64,
}

/// The scheduled actuator's decision state: the schedule plus the policy for
/// the unsynchronized phase. The output line itself stays with the loop that
/// owns the hardware; it is driven to whatever each step decides.
#[derive(Clone, Debug)]
pub struct Light {
    /// The hours during which the light is on.
    pub hours: LightHours,
    /// Safe-state policy while the clock is unsynchronized.
    pub unsync_policy: UnsyncPolicy,
}

impl Light {
    /// The decision for one clock reading. Unsynchronized clock (year 1970):
    /// retry after 1 second, driving the line low first under `ForceOff`.
    /// Synchronized: drive the line high iff the schedule is active at the
    /// current hour, and sleep an hour.
    pub open spec fn spec_evaluate(self, clock: WallClock) -> LightStep {
        if clock.year == 1970 {
            LightStep {
                drive: match self.unsync_policy {
                    UnsyncPolicy::ForceOff => Some(Level::Low),
                    UnsyncPolicy::LeaveUnchanged => None,
                },
                sleep_secs: 1,
            }
        } else {
            LightStep {
                drive: Some(
                    if self.hours.spec_active(clock.hour) {
                        Level::High
                    } else {
                        Level::Low
                    },
                ),
                sleep_secs: 3600,
            }
        }
    }

    /// A scheduler over `hours` that forces the line off while the clock is
    /// unsynchronized.
    pub fn new(hours: LightHours) -> (r: Light)
        ensures
            r.hours == hours,
            r.unsync_policy == UnsyncPolicy::ForceOff,
    {
        Light { hours, unsync_policy: UnsyncPolicy::ForceOff }
    }

    /// Overrides the unsynchronized-clock policy.
    pub fn set_unsync_policy(self, policy: UnsyncPolicy) -> (r: Light)
        ensures
            r.hours == self.hours,
            r.unsync_policy == policy,
    {
        Light { unsync_policy: policy, ..self }
    }

    /// Replaces the schedule wholesale; the policy is kept. The next
    /// evaluation sees the new schedule.
    pub fn set_hours(&mut self, hours: LightHours)
        ensures
            final(self).hours == hours,
            final(self).unsync_policy == old(self).unsync_policy,
    {
        self.hours = hours;
    }

    /// Decides one step from a given clock reading.
    pub fn evaluate(&self, clock: WallClock) -> (step: LightStep)
        ensures
            step == self.spec_evaluate(clock),
    {
        if clock.year == 1970 {
            let drive = match self.unsync_policy {
                UnsyncPolicy::ForceOff => Some(Level::Low),
                UnsyncPolicy::LeaveUnchanged => None,
            };
            LightStep { drive, sleep_secs: 1 }
        } else {
            let on = self.hours.active(clock.hour);
            LightStep {
                drive: Some(if on { Level::High } else { Level::Low }),
                sleep_secs: 3600,
            }
        }
    }

    /// Reads the wall clock and decides one step. Whatever the clock reports,
    /// the step is the one this scheduler decides for some reading with a
    /// valid hour.
    pub fn tick(&self) -> (step: LightStep)
        ensures
            exists|c: WallClock| c.hour < 24 && step == self.spec_evaluate(c),
    {
        let clock = read_wall_clock();
        let step = self.evaluate(clock);
        proof {
            assert(clock.hour < 24 && step == self.spec_evaluate(clock));
        }
        step
    }
}

} // verus!

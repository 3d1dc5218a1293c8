//! Satellite pass prediction: the decisions of the time scan and of the
//! bisection that refines horizon crossings.
//!
//! Instants are nanoseconds since the Unix epoch. The caller performs the
//! orbital propagation and look-angle computation that each decision asks
//! for, and reports back whether the satellite stood above the minimum
//! elevation.

use vstd::prelude::*;

verus! {

/// Type of satellite visibility event.
#[derive(Debug, Clone, Copy, PartialEq, Eq, Structural)]
pub enum EventType {
    /// Satellite rises above the horizon (or minimum elevation).
    Rise,
    /// Satellite reaches its maximum elevation during the pass.
    MaxElevation,
    /// Satellite sets below the horizon (or minimum elevation).
    Setting,
}

/// Pass prediction errors.
#[derive(Debug, Clone)]
pub enum PassError {
    /// Error in SGP4 propagation.
    PropagationError(String),
    /// Error in observer calculations.
    ObserverError(String),
    /// Invalid configuration parameters.
    InvalidConfig(String),
    /// Time range or calculation error.
    TimeError(String),
}

/// Event detection error types.
#[derive(Debug, Clone)]
pub enum HorizonEventError {
    /// Invalid time window parameters.
    InvalidTimeWindow(String),
    /// Satellite propagation failed.
    PropagationError(String),
    /// Observer coordinate transformation failed.
    CoordinateError(String),
    /// Event detection algorithm failed.
    DetectionError(String),
    /// Numerical convergence failure.
    ConvergenceError(String),
}

/// A time window for pass analysis, from `start` to `end`, in nanoseconds
/// since the Unix epoch.
#[derive(Debug, Clone, Copy, PartialEq, Eq, Structural)]
pub struct PassWindow {
    /// Start of the window.
    pub start: i128,
    /// End of the window.
    pub end: i128,
}

impl PassWindow {
    /// The window from `start` to `end`; an invalid-window error unless
    /// `end` comes after `start`.
    pub fn new(start: i128, end: i128) -> (r: Result<PassWindow, HorizonEventError>)
        ensures
            start < end <==> r is Ok,
            r matches Ok(w) ==> w == (PassWindow { start, end }),
            r matches Err(e) ==> (e matches HorizonEventError::InvalidTimeWindow(m) && m@
                == "End time must be after start time"@),
    {
        if end <= start {
            return Err(
                HorizonEventError::InvalidTimeWindow(
                    String::from_str("End time must be after start time"),
                ),
            );
        }
        Ok(PassWindow { start, end })
    }
}

/// Nanoseconds in a second.
pub const NANOS_PER_SECOND: i128 = 1_000_000_000;

/// The largest magnitude of an instant handled here, in nanoseconds; every
/// instant of `chrono::DateTime<Utc>` lies well within it.
pub const INSTANT_BOUND: i128 = 0x10_0000_0000_0000_0000_0000_0000;

/// The number of probes after which a bisection gives up.
pub const MAX_SEARCH_ITERATIONS: u32 = 50;

/// The whole seconds in a span of `d` nanoseconds, rounded toward zero.
pub open spec fn whole_seconds(d: int) -> int {
    if d >= 0 {
        d / (NANOS_PER_SECOND as int)
    } else {
        -((-d) / (NANOS_PER_SECOND as int))
    }
}

/// The instant halfway from `low` to `high`, rounded toward negative
/// infinity.
pub open spec fn midpoint(low: int, high: int) -> int {
    low + (high - low) / 2
}

/// An instant within the handled range.
pub open spec fn in_range(t: int) -> bool {
    -(INSTANT_BOUND as int) <= t <= INSTANT_BOUND as int
}

/// The smaller of two instants.
pub open spec fn min_instant(a: int, b: int) -> int {
    if a <= b {
        a
    } else {
        b
    }
}

/// The larger of two instants.
pub open spec fn max_instant(a: int, b: int) -> int {
    if a <= b {
        b
    } else {
        a
    }
}

fn whole_seconds_of(d: i128) -> (r: i128)
    requires
        -2 * INSTANT_BOUND <= d <= 2 * INSTANT_BOUND,
    ensures
        r == whole_seconds(d as int),
{
    if d >= 0 {
        d / NANOS_PER_SECOND
    } else {
        -((-d) / NANOS_PER_SECOND)
    }
}

fn midpoint_of(low: i128, high: i128) -> (r: i128)
    requires
        in_range(low as int),
        in_range(high as int),
    ensures
        r == midpoint(low as int, high as int),
        min_instant(low as int, high as int) <= r <= max_instant(low as int, high as int),
{
    let d = high - low;
    let half = if d >= 0 {
        d / 2
    } else {
        -((-d + 1) / 2)
    };
    low + half
}

/// What a bisection asks for next.
#[derive(Debug, Clone, Copy, PartialEq, Eq, Structural)]
pub enum SearchStep {
    /// Evaluate the elevation at this instant and report it.
    Probe(i128),
    /// The crossing lies at this instant.
    Found(i128),
    /// The bisection used up its probes without narrowing to the tolerance.
    NotConverged,
}

/// Bisection for the instant at which a satellite crosses the minimum
/// elevation, between an instant on one side of it and one on the other.
pub struct HorizonSearch {
    start: i128,
    end: i128,
    low: i128,
    high: i128,
    iterations: u32,
    finding_rise: bool,
    tolerance_seconds: i64,
}

impl HorizonSearch {
    /// The first instant of the search.
    pub closed spec fn spec_start(&self) -> int {
        self.start as int
    }

    /// The last instant of the search.
    pub closed spec fn spec_end(&self) -> int {
        self.end as int
    }

    /// The current lower end of the interval.
    pub closed spec fn spec_low(&self) -> int {
        self.low as int
    }

    /// The current upper end of the interval.
    pub closed spec fn spec_high(&self) -> int {
        self.high as int
    }

    /// The probes made so far.
    pub closed spec fn spec_iterations(&self) -> nat {
        self.iterations as nat
    }

    /// Whether the crossing sought is a rise (else a set).
    pub closed spec fn spec_finding_rise(&self) -> bool {
        self.finding_rise
    }

    /// The tolerance, in whole seconds.
    pub closed spec fn spec_tolerance(&self) -> int {
        self.tolerance_seconds as int
    }

    /// The interval stays within the first bracket, in its orientation, and
    /// the probes are bounded.
    pub open spec fn wf(&self) -> bool {
        &&& in_range(self.spec_start())
        &&& in_range(self.spec_end())
        &&& self.spec_iterations() <= MAX_SEARCH_ITERATIONS
        &&& min_instant(self.spec_start(), self.spec_end()) <= self.spec_low() <= max_instant(
            self.spec_start(),
            self.spec_end(),
        )
        &&& min_instant(self.spec_start(), self.spec_end()) <= self.spec_high() <= max_instant(
            self.spec_start(),
            self.spec_end(),
        )
        &&& self.spec_start() <= self.spec_end() ==> self.spec_low() <= self.spec_high()
    }

    /// The interval is still wider than the tolerance and probes are left.
    pub open spec fn wants_probe(&self) -> bool {
        whole_seconds(self.spec_high() - self.spec_low()) > self.spec_tolerance()
            && self.spec_iterations() < MAX_SEARCH_ITERATIONS
    }

    /// What the search asks for in a given state.
    pub open spec fn spec_step(&self) -> SearchStep {
        let mid = midpoint(self.spec_low(), self.spec_high()) as i128;
        if self.wants_probe() {
            SearchStep::Probe(mid)
        } else if self.spec_iterations() >= MAX_SEARCH_ITERATIONS {
            SearchStep::NotConverged
        } else {
            SearchStep::Found(mid)
        }
    }

    /// A search for a rise (the satellite below the minimum elevation at
    /// `start`, above it at `end`) or a set (the other way round).
    pub fn new(start: i128, end: i128, finding_rise: bool, tolerance_seconds: i64) -> (r: Self)
        requires
            in_range(start as int),
            in_range(end as int),
        ensures
            r.wf(),
            r.spec_start() == start,
            r.spec_end() == end,
            r.spec_low() == start,
            r.spec_high() == end,
            r.spec_iterations() == 0,
            r.spec_finding_rise() == finding_rise,
            r.spec_tolerance() == tolerance_seconds,
    {
        HorizonSearch {
            start,
            end,
            low: start,
            high: end,
            iterations: 0,
            finding_rise,
            tolerance_seconds,
        }
    }

    /// The next thing the search asks for: an elevation at the midpoint
    /// while the interval is wider than the tolerance (in whole seconds) and
    /// fewer than fifty probes were made; else failure after fifty probes,
    /// else the midpoint as the crossing.
    pub fn step(&self) -> (r: SearchStep)
        requires
            self.wf(),
        ensures
            r == self.spec_step(),
    {
        let d = self.high - self.low;
        let mid = midpoint_of(self.low, self.high);
        if whole_seconds_of(d) > self.tolerance_seconds as i128 && self.iterations
            < MAX_SEARCH_ITERATIONS {
            SearchStep::Probe(mid)
        } else if self.iterations >= MAX_SEARCH_ITERATIONS {
            SearchStep::NotConverged
        } else {
            SearchStep::Found(mid)
        }
    }

    /// Takes the report for the probe at the midpoint: whether the
    /// satellite stood at or above the minimum elevation there. The half of
    /// the interval that still holds the crossing is kept.
    pub fn observe(&mut self, above: bool)
        requires
            old(self).wf(),
            old(self).wants_probe(),
        ensures
            final(self).wf(),
            final(self).spec_start() == old(self).spec_start(),
            final(self).spec_end() == old(self).spec_end(),
            final(self).spec_finding_rise() == old(self).spec_finding_rise(),
            final(self).spec_tolerance() == old(self).spec_tolerance(),
            final(self).spec_iterations() == old(self).spec_iterations() + 1,
            above == old(self).spec_finding_rise() ==> final(self).spec_low() == old(
                self,
            ).spec_low() && final(self).spec_high() == midpoint(
                old(self).spec_low(),
                old(self).spec_high(),
            ),
            above != old(self).spec_finding_rise() ==> final(self).spec_high() == old(
                self,
            ).spec_high() && final(self).spec_low() == midpoint(
                old(self).spec_low(),
                old(self).spec_high(),
            ),
    {
        let mid = midpoint_of(self.low, self.high);
        self.iterations = self.iterations + 1;
        if above == self.finding_rise {
            self.high = mid;
        } else {
            self.low = mid;
        }
    }
}

/// The instants of a predicted pass.
#[derive(Debug, Clone, Copy, PartialEq, Eq, Structural)]
pub struct PassTimes {
    /// When the satellite rose to the minimum elevation.
    pub rise: i128,
    /// The sampled instant of greatest elevation.
    pub max_elevation: i128,
    /// When the satellite set below the minimum elevation, or the end of
    /// the scan if it was still up.
    pub set: i128,
}

/// Where the scan stands.
#[derive(Debug, Clone, Copy, PartialEq, Eq, Structural)]
pub enum ScanPhase {
    /// Sampling the elevation at successive instants.
    Sampling,
    /// Waiting for the refined rise instant of a pass that began.
    AwaitingRise,
    /// Waiting for the refined set instant of a pass that ended.
    AwaitingSet,
}

/// What the caller does after reporting a sample.
#[derive(Debug, Clone, Copy, PartialEq, Eq, Structural)]
pub enum ScanReaction {
    /// Nothing: go on sampling.
    Continue,
    /// The sample is the highest of the pass so far; keep its data.
    NewMaximum,
    /// A pass began: find the rise instant between these two instants and
    /// report it with [`PassScan::rise_found`].
    FindRise { from: i128, to: i128 },
    /// The pass ended: find the set instant between these two instants and
    /// report it with [`PassScan::set_found`].
    FindSet { from: i128, to: i128 },
}

/// The scan of a time range for passes: samples at a fixed step, a pass
/// beginning at the first sample at or above the minimum elevation and
/// ending at the first one below it.
pub struct PassScan {
    start: i128,
    end: i128,
    step: i128,
    current: i128,
    phase: ScanPhase,
    in_pass: bool,
    rise: i128,
    max_time: i128,
    passes: Vec<PassTimes>,
    reported: Ghost<Set<int>>,
}

/// A pass's instants are in order.
pub open spec fn pass_ordered(p: PassTimes) -> bool {
    p.rise <= p.max_elevation <= p.set
}

/// Some pass of `ps` spans the instant `t`, from its rise to its set.
#[verifier::opaque]
pub open spec fn covered_by(ps: Seq<PassTimes>, t: int) -> bool {
    exists|i: int| 0 <= i < ps.len() && (#[trigger] ps[i]).rise <= t <= ps[i].set
}

proof fn lemma_covered_push(ps: Seq<PassTimes>, p: PassTimes, t: int)
    requires
        covered_by(ps, t) || p.rise <= t <= p.set,
    ensures
        covered_by(ps.push(p), t),
{
    reveal(covered_by);
    if covered_by(ps, t) {
        let i = choose|i: int| 0 <= i < ps.len() && (#[trigger] ps[i]).rise <= t <= ps[i].set;
        assert(ps.push(p)[i] == ps[i]);
    } else {
        assert(ps.push(p)[ps.len() as int] == p);
    }
}

/// Completing a pass `p` after the passes `ps`: every reported instant
/// covered before or spanned by `p` is covered, and every maximum is a
/// reported instant.
proof fn lemma_close_pass(ps: Seq<PassTimes>, reported: Set<int>, p: PassTimes)
    requires
        forall|t: int| #[trigger]
            reported.contains(t) ==> covered_by(ps, t) || p.rise <= t <= p.set,
        forall|i: int| 0 <= i < ps.len() ==> reported.contains((#[trigger] ps[i]).max_elevation as int),
        reported.contains(p.max_elevation as int),
    ensures
        forall|t: int| #[trigger] reported.contains(t) ==> covered_by(ps.push(p), t),
        forall|i: int|
            0 <= i < ps.len() + 1 ==> reported.contains((#[trigger] ps.push(p)[i]).max_elevation as int),
{
    assert forall|t: int| #[trigger] reported.contains(t) implies covered_by(ps.push(p), t) by {
        lemma_covered_push(ps, p, t);
    }
    assert forall|i: int| 0 <= i < ps.len() + 1 implies reported.contains(
        (#[trigger] ps.push(p)[i]).max_elevation as int,
    ) by {
        if i < ps.len() {
            assert(ps.push(p)[i] == ps[i]);
        }
    }
}

/// Passes are each in order and follow one another without overlapping.
pub open spec fn passes_ordered(ps: Seq<PassTimes>) -> bool {
    &&& forall|i: int| 0 <= i < ps.len() ==> pass_ordered(#[trigger] ps[i])
    &&& forall|i: int, j: int| 0 <= i < j < ps.len() ==> (#[trigger] ps[i]).set <= (#[trigger] ps[j]).rise
}

impl PassScan {
    /// The first instant of the range.
    pub closed spec fn spec_start(&self) -> int {
        self.start as int
    }

    /// The end of the range.
    pub closed spec fn spec_end(&self) -> int {
        self.end as int
    }

    /// The sampling step.
    pub closed spec fn spec_step(&self) -> int {
        self.step as int
    }

    /// The instant sampled next, or being sampled.
    pub closed spec fn spec_current(&self) -> int {
        self.current as int
    }

    /// Where the scan stands.
    pub closed spec fn spec_phase(&self) -> ScanPhase {
        self.phase
    }

    /// Whether a pass is under way.
    pub closed spec fn spec_in_pass(&self) -> bool {
        self.in_pass
    }

    /// The rise instant of the pass under way.
    pub closed spec fn spec_rise(&self) -> int {
        self.rise as int
    }

    /// The instant of greatest elevation so far in the pass under way.
    pub closed spec fn spec_max_time(&self) -> int {
        self.max_time as int
    }

    /// The passes completed so far.
    pub closed spec fn spec_passes(&self) -> Seq<PassTimes> {
        self.passes@
    }

    /// The sampled instants reported at or above the minimum elevation so
    /// far.
    pub closed spec fn spec_reported(&self) -> Set<int> {
        self.reported@
    }

    /// The scan's invariant: instants in range, a pass under way begun
    /// within one step before its first sample, its maximum no later than
    /// the last sample, and the completed passes in order, each ending no
    /// later than a pass under way began and one step before the current
    /// sample; every maximum is a sample reported at or above the minimum
    /// elevation, and every such sample lies within a pass.
    pub open spec fn wf(&self) -> bool {
        &&& in_range(self.spec_start())
        &&& in_range(self.spec_end())
        &&& self.spec_start() < self.spec_end()
        &&& 0 < self.spec_step() <= INSTANT_BOUND
        &&& self.spec_start() <= self.spec_current() < self.spec_end() + self.spec_step()
        &&& self.spec_phase() != ScanPhase::Sampling ==> self.spec_current() < self.spec_end()
        &&& self.spec_phase() == ScanPhase::AwaitingRise ==> !self.spec_in_pass()
        &&& self.spec_phase() == ScanPhase::AwaitingSet ==> self.spec_in_pass()
        &&& self.spec_in_pass() ==> {
            &&& self.spec_start() - self.spec_step() <= self.spec_rise() <= self.spec_max_time()
            &&& self.spec_max_time() <= self.spec_current() - self.spec_step()
        }
        &&& passes_ordered(self.spec_passes())
        &&& forall|i: int|
            0 <= i < self.spec_passes().len() ==> {
                &&& self.spec_start() - self.spec_step() <= (#[trigger] self.spec_passes()[i]).rise
                &&& self.spec_passes()[i].set <= self.spec_current() - self.spec_step()
                &&& self.spec_in_pass() ==> self.spec_passes()[i].set <= self.spec_rise()
                &&& self.spec_reported().contains(self.spec_passes()[i].max_elevation as int)
            }
        &&& self.spec_in_pass() ==> self.spec_reported().contains(self.spec_max_time())
        &&& self.spec_phase() == ScanPhase::AwaitingRise ==> self.spec_reported().contains(
            self.spec_current(),
        )
        &&& forall|t: int| #[trigger] self.spec_reported().contains(t) ==> self.reported_ok(t)
    }

    /// A reported instant `t` was sampled before the current instant, or is
    /// the current one awaiting its rise; it lies within a completed pass,
    /// or after the rise of the pass under way, or is that current one.
    pub open spec fn reported_ok(&self, t: int) -> bool {
        &&& t <= self.spec_current() - self.spec_step() || (self.spec_phase()
            == ScanPhase::AwaitingRise && t == self.spec_current())
        &&& covered_by(self.spec_passes(), t) || (self.spec_in_pass() && self.spec_rise() <= t)
            || (self.spec_phase() == ScanPhase::AwaitingRise && t == self.spec_current())
    }

    /// A scan of `start..end` at `step` nanoseconds; a time error unless
    /// `start` comes before `end` (the step matters only then).
    pub fn new(start: i128, end: i128, step: i128) -> (r: Result<Self, PassError>)
        requires
            in_range(start as int),
            in_range(end as int),
            start < end ==> 0 < step <= INSTANT_BOUND,
        ensures
            start < end <==> r is Ok,
            r matches Ok(s) ==> {
                &&& s.wf()
                &&& s.spec_start() == start && s.spec_end() == end && s.spec_step() == step
                &&& s.spec_current() == start
                &&& s.spec_phase() == ScanPhase::Sampling
                &&& !s.spec_in_pass()
                &&& s.spec_passes().len() == 0
                &&& s.spec_reported() == Set::<int>::empty()
                &&& s.spec_rise() == start && s.spec_max_time() == start
            },
            r matches Err(e) ==> (e matches PassError::TimeError(m) && m@
                == "Start time must be before end time"@),
    {
        if start >= end {
            return Err(
                PassError::TimeError(String::from_str("Start time must be before end time")),
            );
        }
        Ok(
            PassScan {
                start,
                end,
                step,
                current: start,
                phase: ScanPhase::Sampling,
                in_pass: false,
                rise: start,
                max_time: start,
                passes: Vec::new(),
                reported: Ghost(Set::empty()),
            },
        )
    }

    /// The instant to sample next, while the scan has not reached the end.
    pub fn next_sample(&self) -> (r: Option<i128>)
        requires
            self.wf(),
            self.spec_phase() == ScanPhase::Sampling,
        ensures
            self.spec_current() < self.spec_end() ==> r == Some(self.spec_current() as i128),
            self.spec_current() >= self.spec_end() ==> r is None,
    {
        if self.current < self.end {
            Some(self.current)
        } else {
            None
        }
    }

    /// Takes the report for the current sample: whether the satellite stood
    /// at or above the minimum elevation, and whether higher than the
    /// greatest elevation of the pass under way.
    pub fn observe(&mut self, above: bool, higher: bool) -> (r: ScanReaction)
        requires
            old(self).wf(),
            old(self).spec_phase() == ScanPhase::Sampling,
            old(self).spec_current() < old(self).spec_end(),
        ensures
            final(self).wf(),
            final(self).spec_start() == old(self).spec_start(),
            final(self).spec_end() == old(self).spec_end(),
            final(self).spec_step() == old(self).spec_step(),
            final(self).spec_passes() == old(self).spec_passes(),
            final(self).spec_reported() == if above {
                old(self).spec_reported().insert(old(self).spec_current())
            } else {
                old(self).spec_reported()
            },
            final(self).spec_in_pass() == old(self).spec_in_pass(),
            final(self).spec_rise() == old(self).spec_rise(),
            final(self).spec_max_time() == if old(self).spec_in_pass() && above && higher {
                old(self).spec_current()
            } else {
                old(self).spec_max_time()
            },
            !old(self).spec_in_pass() && above ==> {
                &&& r == ScanReaction::FindRise {
                    from: (old(self).spec_current() - old(self).spec_step()) as i128,
                    to: old(self).spec_current() as i128,
                }
                &&& final(self).spec_phase() == ScanPhase::AwaitingRise
                &&& final(self).spec_current() == old(self).spec_current()
            },
            old(self).spec_in_pass() && !above ==> {
                &&& r == ScanReaction::FindSet {
                    from: (old(self).spec_current() - old(self).spec_step()) as i128,
                    to: old(self).spec_current() as i128,
                }
                &&& final(self).spec_phase() == ScanPhase::AwaitingSet
                &&& final(self).spec_current() == old(self).spec_current()
            },
            old(self).spec_in_pass() && above ==> {
                &&& r == (if higher {
                    ScanReaction::NewMaximum
                } else {
                    ScanReaction::Continue
                })
                &&& final(self).spec_max_time() == (if higher {
                    old(self).spec_current()
                } else {
                    old(self).spec_max_time()
                })
                &&& final(self).spec_phase() == ScanPhase::Sampling
                &&& final(self).spec_in_pass()
                &&& final(self).spec_rise() == old(self).spec_rise()
                &&& final(self).spec_current() == old(self).spec_current() + old(self).spec_step()
            },
            !old(self).spec_in_pass() && !above ==> {
                &&& r == ScanReaction::Continue
                &&& final(self).spec_phase() == ScanPhase::Sampling
                &&& !final(self).spec_in_pass()
                &&& final(self).spec_current() == old(self).spec_current() + old(self).spec_step()
            },
    {
        if above {
            self.reported = Ghost(self.reported@.insert(self.current as int));
        }
        let reaction = if !self.in_pass && above {
            self.phase = ScanPhase::AwaitingRise;
            ScanReaction::FindRise { from: self.current - self.step, to: self.current }
        } else if self.in_pass && !above {
            self.phase = ScanPhase::AwaitingSet;
            ScanReaction::FindSet { from: self.current - self.step, to: self.current }
        } else if self.in_pass {
            let outcome = if higher {
                self.max_time = self.current;
                ScanReaction::NewMaximum
            } else {
                ScanReaction::Continue
            };
            self.current = self.current + self.step;
            outcome
        } else {
            self.current = self.current + self.step;
            ScanReaction::Continue
        };
        proof {
            assert forall|t: int| #[trigger] self.spec_reported().contains(t) implies self.reported_ok(
                t,
            ) by {
                if old(self).spec_reported().contains(t) {
                    assert(old(self).reported_ok(t));
                }
            }
        }
        reaction
    }

    /// Takes the refined rise instant, which lies within the bracket of
    /// [`ScanReaction::FindRise`]; the pass begins there, its maximum so far
    /// at the sample that found the rise.
    pub fn rise_found(&mut self, rise: i128)
        requires
            old(self).wf(),
            old(self).spec_phase() == ScanPhase::AwaitingRise,
            old(self).spec_current() - old(self).spec_step() <= rise <= old(self).spec_current(),
        ensures
            final(self).wf(),
            final(self).spec_start() == old(self).spec_start(),
            final(self).spec_end() == old(self).spec_end(),
            final(self).spec_step() == old(self).spec_step(),
            final(self).spec_passes() == old(self).spec_passes(),
            final(self).spec_phase() == ScanPhase::Sampling,
            final(self).spec_in_pass(),
            final(self).spec_rise() == rise,
            final(self).spec_max_time() == old(self).spec_current(),
            final(self).spec_reported() == old(self).spec_reported(),
            final(self).spec_current() == old(self).spec_current() + old(self).spec_step(),
    {
        self.in_pass = true;
        self.rise = rise;
        self.max_time = self.current;
        self.phase = ScanPhase::Sampling;
        self.current = self.current + self.step;
    }

    /// Takes the refined set instant, which lies within the bracket of
    /// [`ScanReaction::FindSet`]; the pass is complete and is returned.
    pub fn set_found(&mut self, set: i128) -> (r: PassTimes)
        requires
            old(self).wf(),
            old(self).spec_phase() == ScanPhase::AwaitingSet,
            old(self).spec_current() - old(self).spec_step() <= set <= old(self).spec_current(),
        ensures
            final(self).wf(),
            final(self).spec_start() == old(self).spec_start(),
            final(self).spec_end() == old(self).spec_end(),
            final(self).spec_step() == old(self).spec_step(),
            r == (PassTimes {
                rise: old(self).spec_rise() as i128,
                max_elevation: old(self).spec_max_time() as i128,
                set,
            }),
            final(self).spec_passes() == old(self).spec_passes().push(r),
            final(self).spec_reported() == old(self).spec_reported(),
            final(self).spec_rise() == old(self).spec_rise(),
            final(self).spec_max_time() == old(self).spec_max_time(),
            final(self).spec_phase() == ScanPhase::Sampling,
            !final(self).spec_in_pass(),
            final(self).spec_current() == old(self).spec_current() + old(self).spec_step(),
    {
        let p = PassTimes { rise: self.rise, max_elevation: self.max_time, set };
        proof {
            assert forall|t: int| #[trigger] self.spec_reported().contains(t) implies covered_by(
                self.spec_passes(),
                t,
            ) || p.rise <= t <= p.set by {
                assert(self.reported_ok(t));
            }
            lemma_close_pass(self.spec_passes(), self.spec_reported(), p);
        }
        self.passes.push(p);
        self.in_pass = false;
        self.phase = ScanPhase::Sampling;
        self.current = self.current + self.step;
        p
    }

    /// Ends the scan once no sample is left: a pass still under way ends at
    /// the end of the range. Returns all passes found, in order.
    pub fn finish(self) -> (r: (Vec<PassTimes>, Option<PassTimes>))
        requires
            self.wf(),
            self.spec_phase() == ScanPhase::Sampling,
            self.spec_current() >= self.spec_end(),
        ensures
            self.spec_in_pass() ==> r.1 == Some(
                PassTimes {
                    rise: self.spec_rise() as i128,
                    max_elevation: self.spec_max_time() as i128,
                    set: self.spec_end() as i128,
                },
            ),
            !self.spec_in_pass() ==> r.1 is None,
            r.0@ == (match r.1 {
                Some(p) => self.spec_passes().push(p),
                None => self.spec_passes(),
            }),
            passes_ordered(r.0@),
            forall|t: int| #[trigger] self.spec_reported().contains(t) ==> covered_by(r.0@, t),
            forall|i: int|
                0 <= i < r.0@.len() ==> self.spec_reported().contains(
                    (#[trigger] r.0@[i]).max_elevation as int,
                ),
    {
        let mut passes = self.passes;
        if self.in_pass {
            let p = PassTimes { rise: self.rise, max_elevation: self.max_time, set: self.end };
            proof {
                assert forall|t: int| #[trigger] self.spec_reported().contains(t) implies covered_by(
                    self.spec_passes(),
                    t,
                ) || p.rise <= t <= p.set by {
                    assert(self.reported_ok(t));
                }
                lemma_close_pass(self.spec_passes(), self.spec_reported(), p);
            }
            passes.push(p);
            (passes, Some(p))
        } else {
            proof {
                assert forall|t: int| #[trigger] self.spec_reported().contains(t) implies covered_by(
                    self.spec_passes(),
                    t,
                ) by {
                    assert(self.reported_ok(t));
                }
            }
            (passes, None)
        }
    }
}

proof fn lemma_midpoint_between(low: int, high: int)
    ensures
        min_instant(low, high) <= midpoint(low, high) <= max_instant(low, high),
{
}

/// Law: a bisection over a forward bracket `start <= end` only ever probes
/// or answers instants within the bracket; so a rise or set it finds lies
/// between the two samples that enclosed the crossing.
pub proof fn law_search_stays_in_bracket(s: HorizonSearch)
    requires
        s.wf(),
        s.spec_start() <= s.spec_end(),
    ensures
        s.spec_step() matches SearchStep::Probe(t) ==> s.spec_start() <= t <= s.spec_end(),
        s.spec_step() matches SearchStep::Found(t) ==> s.spec_start() <= t <= s.spec_end(),
{
    lemma_midpoint_between(s.spec_low(), s.spec_high());
}

/// Law: a bisection asks for a probe only while fewer than fifty were
/// made, and answers an instant only once its interval is, in whole
/// seconds, no wider than the tolerance; after fifty probes it reports
/// failure.
pub proof fn law_search_bounded(s: HorizonSearch)
    requires
        s.wf(),
    ensures
        s.spec_step() is Probe ==> s.spec_iterations() < MAX_SEARCH_ITERATIONS,
        s.spec_step() is Found ==> whole_seconds(s.spec_high() - s.spec_low())
            <= s.spec_tolerance() && s.spec_iterations() < MAX_SEARCH_ITERATIONS,
        s.spec_step() is NotConverged <==> s.spec_iterations() == MAX_SEARCH_ITERATIONS,
{
}

/// Law: in every state of a scan, each completed pass rises no later than
/// its maximum and reaches its maximum no later than it sets, the passes
/// follow one another without overlapping, and each lies within the range
/// (its rise at most one step before the start).
pub proof fn law_scan_passes_ordered(s: PassScan)
    requires
        s.wf(),
    ensures
        passes_ordered(s.spec_passes()),
        forall|i: int|
            0 <= i < s.spec_passes().len() ==> s.spec_start() - s.spec_step() <= (
            #[trigger] s.spec_passes()[i]).rise && s.spec_passes()[i].set <= s.spec_end(),
{
}

/// Law: in every state of a scan, each sample reported at or above the
/// minimum elevation lies between the rise and set of a completed pass or
/// after the rise of the pass under way, and the maximum of every pass,
/// completed or under way, is such a sample. With [`PassScan::finish`],
/// which closes the pass under way, no sample above the minimum elevation
/// falls outside the passes found.
pub proof fn law_scan_covers_reported(s: PassScan)
    requires
        s.wf(),
        s.spec_phase() == ScanPhase::Sampling,
    ensures
        forall|t: int| #[trigger]
            s.spec_reported().contains(t) ==> covered_by(s.spec_passes(), t) || (s.spec_in_pass()
                && s.spec_rise() <= t <= s.spec_current() - s.spec_step()),
        forall|i: int|
            0 <= i < s.spec_passes().len() ==> s.spec_reported().contains(
                (#[trigger] s.spec_passes()[i]).max_elevation as int,
            ),
        s.spec_in_pass() ==> s.spec_reported().contains(s.spec_max_time()),
{
    assert forall|t: int| #[trigger] s.spec_reported().contains(t) implies covered_by(
        s.spec_passes(),
        t,
    ) || (s.spec_in_pass() && s.spec_rise() <= t <= s.spec_current() - s.spec_step()) by {
        assert(s.reported_ok(t));
    }
}

/// Law: a bisection probes, and answers with, the instant halfway between
/// the ends of its current interval (rounded down), so every instant it
/// names lies within that interval; it probes only while the interval spans
/// more whole seconds than the tolerance; the instant it answers lies within its
/// tolerance, plus the second that whole-second rounding may drop, of every
/// instant of the final interval, and so of a crossing kept inside it
/// (for a bracket given in time order).
pub proof fn law_search_answers_midpoint(s: HorizonSearch, crossing: int)
    requires
        s.wf(),
        s.spec_start() <= s.spec_end(),
    ensures
        s.spec_step() matches SearchStep::Probe(t) ==> t == s.spec_low() + (s.spec_high()
            - s.spec_low()) / 2,
        s.spec_step() is Probe ==> s.spec_high() - s.spec_low() >= (s.spec_tolerance() + 1)
            * NANOS_PER_SECOND,
        s.spec_step() matches SearchStep::Found(t) ==> t == s.spec_low() + (s.spec_high()
            - s.spec_low()) / 2,
        s.spec_step() matches SearchStep::Found(t) ==> min_instant(s.spec_low(), s.spec_high())
            <= t <= max_instant(s.spec_low(), s.spec_high()),
        s.spec_step() matches SearchStep::Found(t) ==> (min_instant(s.spec_low(), s.spec_high())
            <= crossing <= max_instant(s.spec_low(), s.spec_high()) ==> -(s.spec_tolerance() + 1)
            * NANOS_PER_SECOND < t - crossing < (s.spec_tolerance() + 1) * NANOS_PER_SECOND),
{
    lemma_midpoint_between(s.spec_low(), s.spec_high());
}

} // verus!

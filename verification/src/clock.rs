//! The deterministic stepper: a simulation clock that accumulates real
//! frame time ("overstep") and drains it as a whole number of
//! fixed-length ticks, so that simulation behaviour is independent of
//! rendering frame rate. All durations are integer microseconds.

use vstd::prelude::*;
use vstd::arithmetic::div_mod::{
    lemma_fundamental_div_mod, lemma_fundamental_div_mod_converse,
};

verus! {

/// Fixed tick length used by `Default`: 15625 us, one sixty-fourth of a
/// second.
pub const DEFAULT_TICK_MICROS: u64 = 15625;

/// Whether the clock drains owed ticks by itself each frame, or only
/// advances on an explicit single-tick request.
#[derive(Clone, Copy, PartialEq, Eq, Structural, Debug)]
pub enum SteppingMode {
    FreeRunning,
    SinglePulse,
}

/// Mathematical state of a simulation clock, in microseconds.
pub struct ClockModel {
    /// Fixed tick length.
    pub tick: int,
    /// Accumulated real time not yet converted into ticks.
    pub overstep: int,
    /// Simulation time: the total length of all ticks run so far.
    pub elapsed: int,
    /// Number of ticks run so far (also the next tick index).
    pub ticks: int,
}

/// The other mode.
pub open spec fn toggled(mode: SteppingMode) -> SteppingMode {
    match mode {
        SteppingMode::FreeRunning => SteppingMode::SinglePulse,
        SteppingMode::SinglePulse => SteppingMode::FreeRunning,
    }
}

/// Adding one real frame's elapsed time to the budget.
pub open spec fn accumulated(m: ClockModel, delta: int) -> ClockModel {
    ClockModel { tick: m.tick, overstep: m.overstep + delta, elapsed: m.elapsed, ticks: m.ticks }
}

/// Running every whole owed tick: the overstep keeps only the sub-tick
/// remainder, and each tick advances simulation time by exactly one
/// tick length.
pub open spec fn drained(m: ClockModel) -> ClockModel {
    ClockModel {
        tick: m.tick,
        overstep: m.overstep % m.tick,
        elapsed: m.elapsed + (m.overstep / m.tick) * m.tick,
        ticks: m.ticks + m.overstep / m.tick,
    }
}

/// One real frame: the frame's time is always accumulated; it is
/// drained into ticks only while free-running.
pub open spec fn frame(m: ClockModel, delta: int, mode: SteppingMode) -> ClockModel {
    match mode {
        SteppingMode::FreeRunning => drained(accumulated(m, delta)),
        SteppingMode::SinglePulse => accumulated(m, delta),
    }
}

/// One explicit single-tick advance: exactly one tick runs, the
/// overstep is untouched.
pub open spec fn pulsed(m: ClockModel) -> ClockModel {
    ClockModel {
        tick: m.tick,
        overstep: m.overstep,
        elapsed: m.elapsed + m.tick,
        ticks: m.ticks + 1,
    }
}

/// A sequence of real frames, oldest first.
pub open spec fn frames(m: ClockModel, deltas: Seq<int>, mode: SteppingMode) -> ClockModel
    decreases deltas.len(),
{
    if deltas.len() == 0 {
        m
    } else {
        frames(frame(m, deltas[0], mode), deltas.drop_first(), mode)
    }
}

/// What can reach the clock: a real frame's elapsed time, or an
/// explicit single-tick advance request.
pub enum ClockEvent {
    Frame { delta: int },
    Pulse,
}

/// Any interleaving of frames and single-tick requests, oldest first.
pub open spec fn run_events(m: ClockModel, evs: Seq<ClockEvent>, mode: SteppingMode) -> ClockModel
    decreases evs.len(),
{
    if evs.len() == 0 {
        m
    } else {
        let m1 = match evs[0] {
            ClockEvent::Frame { delta } => frame(m, delta, mode),
            ClockEvent::Pulse => pulsed(m),
        };
        run_events(m1, evs.drop_first(), mode)
    }
}

pub open spec fn count_pulses(evs: Seq<ClockEvent>) -> int
    decreases evs.len(),
{
    if evs.len() == 0 {
        0
    } else {
        (if evs[0] is Pulse {
            1int
        } else {
            0int
        }) + count_pulses(evs.drop_first())
    }
}

pub open spec fn frames_total(evs: Seq<ClockEvent>) -> int
    decreases evs.len(),
{
    if evs.len() == 0 {
        0
    } else {
        (match evs[0] {
            ClockEvent::Frame { delta } => delta,
            ClockEvent::Pulse => 0,
        }) + frames_total(evs.drop_first())
    }
}

pub open spec fn sum_of(deltas: Seq<int>) -> int
    decreases deltas.len(),
{
    if deltas.len() == 0 {
        0
    } else {
        deltas[0] + sum_of(deltas.drop_first())
    }
}

/// The deterministic stepper's clock. Owned by the caller and passed by
/// reference, so several simulations can run in isolation.
pub struct SimulationClock {
    pub tick_micros: u64,
    pub overstep_micros: u64,
    pub elapsed_micros: u64,
    pub ticks_run: u64,
}

impl View for SimulationClock {
    type V = ClockModel;

    open spec fn view(&self) -> ClockModel {
        ClockModel {
            tick: self.tick_micros as int,
            overstep: self.overstep_micros as int,
            elapsed: self.elapsed_micros as int,
            ticks: self.ticks_run as int,
        }
    }
}

impl SimulationClock {
    /// The clock never overflows while this holds: the elapsed time and
    /// the overstep together equal the total real time ever accumulated,
    /// and draining only moves time between the two.
    pub open spec fn wf(self) -> bool {
        &&& 1 <= self.tick_micros
        &&& self.elapsed_micros as int + self.overstep_micros as int <= u64::MAX as int
        &&& self.ticks_run <= self.elapsed_micros
    }

    pub fn new(tick_micros: u64) -> (clock: SimulationClock)
        requires
            tick_micros >= 1,
        ensures
            clock.wf(),
            clock@ == (ClockModel { tick: tick_micros as int, overstep: 0, elapsed: 0, ticks: 0 }),
    {
        SimulationClock { tick_micros, overstep_micros: 0, elapsed_micros: 0, ticks_run: 0 }
    }

    /// Add one real frame's elapsed wall time to the budget.
    pub fn accumulate(&mut self, delta: u64)
        requires
            old(self).wf(),
            old(self)@.elapsed + old(self)@.overstep + delta <= u64::MAX,
        ensures
            final(self).wf(),
            final(self)@ == accumulated(old(self)@, delta as int),
    {
        self.overstep_micros = self.overstep_micros + delta;
    }

    /// Run one owed tick if a whole tick's worth of overstep is
    /// available: move one tick length from the overstep to the elapsed
    /// simulation time.
    pub fn try_expend(&mut self) -> (ran: bool)
        requires
            old(self).wf(),
        ensures
            final(self).wf(),
            ran == (old(self)@.overstep >= old(self)@.tick),
            ran ==> final(self)@ == (ClockModel {
                tick: old(self)@.tick,
                overstep: old(self)@.overstep - old(self)@.tick,
                elapsed: old(self)@.elapsed + old(self)@.tick,
                ticks: old(self)@.ticks + 1,
            }),
            !ran ==> final(self)@ == old(self)@,
    {
        if self.overstep_micros >= self.tick_micros {
            self.overstep_micros = self.overstep_micros - self.tick_micros;
            self.elapsed_micros = self.elapsed_micros + self.tick_micros;
            self.ticks_run = self.ticks_run + 1;
            true
        } else {
            false
        }
    }

    /// One real frame: accumulate `delta`, then, while free-running,
    /// drain every whole owed tick. Returns how many ticks the caller
    /// must now run. Several ticks may run after a slow frame and none
    /// after a fast one; in `SinglePulse` mode the budget only grows.
    pub fn advance_frame(&mut self, mode: SteppingMode, delta: u64) -> (count: u64)
        requires
            old(self).wf(),
            old(self)@.elapsed + old(self)@.overstep + delta <= u64::MAX,
        ensures
            final(self).wf(),
            final(self)@ == frame(old(self)@, delta as int, mode),
            count == final(self)@.ticks - old(self)@.ticks,
            mode == SteppingMode::FreeRunning ==> final(self)@.overstep < final(self)@.tick,
    {
        self.accumulate(delta);
        let mut count: u64 = 0;
        if mode == SteppingMode::FreeRunning {
            let ghost acc = self@;
            while self.overstep_micros >= self.tick_micros
                invariant
                    self.wf(),
                    self@.tick == acc.tick,
                    self@.overstep + count * acc.tick == acc.overstep,
                    self@.elapsed == acc.elapsed + count * acc.tick,
                    self@.ticks == acc.ticks + count,
                    count * acc.tick <= acc.overstep,
                    acc.tick >= 1,
                    acc.overstep <= u64::MAX,
                decreases self.overstep_micros,
            {
                let _ = self.try_expend();
                proof {
                    vstd::arithmetic::mul::lemma_mul_is_distributive_add_other_way(
                        acc.tick, count as int, 1);
                    assert((count as int + 1) * acc.tick <= acc.overstep);
                    assert(count as int + 1 <= (count as int + 1) * acc.tick)
                        by (nonlinear_arith)
                        requires
                            acc.tick >= 1,
                            count as int + 1 >= 1,
                    ;
                }
                count = count + 1;
            }
            proof {
                lemma_fundamental_div_mod_converse(
                    acc.overstep, acc.tick, count as int, self@.overstep);
            }
        }
        count
    }

    /// One explicit single-tick advance, honoured regardless of the
    /// accumulated overstep and without touching it. Simulation time
    /// advances by exactly one tick, as for any other tick.
    pub fn single_step(&mut self)
        requires
            old(self).wf(),
            old(self)@.elapsed + old(self)@.overstep + old(self)@.tick <= u64::MAX,
        ensures
            final(self).wf(),
            final(self)@ == pulsed(old(self)@),
    {
        self.elapsed_micros = self.elapsed_micros + self.tick_micros;
        self.ticks_run = self.ticks_run + 1;
    }
}

impl Default for SimulationClock {
    /// A clock at time zero with the default 1/64 s tick.
    fn default() -> (clock: SimulationClock)
        ensures
            clock.wf(),
            clock@ == (ClockModel {
                tick: DEFAULT_TICK_MICROS as int,
                overstep: 0,
                elapsed: 0,
                ticks: 0,
            }),
    {
        SimulationClock {
            tick_micros: DEFAULT_TICK_MICROS,
            overstep_micros: 0,
            elapsed_micros: 0,
            ticks_run: 0,
        }
    }
}

/// Flip between free-running and single-pulse stepping. The overstep is
/// not part of the mode, so accumulated time survives the flip and is
/// caught up as owed ticks once the clock free-runs again.
pub fn toggle_mode(mode: SteppingMode) -> (flipped: SteppingMode)
    ensures
        flipped == toggled(mode),
{
    match mode {
        SteppingMode::FreeRunning => SteppingMode::SinglePulse,
        SteppingMode::SinglePulse => SteppingMode::FreeRunning,
    }
}

/// However a total of real time is split into free-running frames, the
/// ticks run and the final overstep depend only on the total: the count
/// of ticks is `(overstep_0 + total) / tick` and the remainder stays as
/// overstep. Accumulation is associative.
pub proof fn lemma_free_running_frames(m: ClockModel, deltas: Seq<int>)
    requires
        m.tick >= 1,
        m.overstep >= 0,
        deltas.len() >= 1,
        forall|i: int| 0 <= i < deltas.len() ==> deltas[i] >= 0,
    ensures
        frames(m, deltas, SteppingMode::FreeRunning) == (ClockModel {
            tick: m.tick,
            overstep: (m.overstep + sum_of(deltas)) % m.tick,
            elapsed: m.elapsed + ((m.overstep + sum_of(deltas)) / m.tick) * m.tick,
            ticks: m.ticks + (m.overstep + sum_of(deltas)) / m.tick,
        }),
    decreases deltas.len(),
{
    let t = m.tick;
    let mode = SteppingMode::FreeRunning;
    let rest = deltas.drop_first();
    let a = m.overstep + deltas[0];
    let m1 = frame(m, deltas[0], mode);
    assert(frames(m, deltas, mode) == frames(m1, rest, mode));
    lemma_fundamental_div_mod(a, t);
    vstd::arithmetic::div_mod::lemma_mod_bound(a, t);
    if deltas.len() == 1 {
        assert(rest.len() == 0);
        assert(frames(m1, rest, mode) == m1);
        assert(sum_of(rest) == 0);
        assert(sum_of(deltas) == deltas[0] + sum_of(rest));
        assert(t * (a / t) == (a / t) * t) by {
            vstd::arithmetic::mul::lemma_mul_is_commutative(t, a / t);
        }
    } else {
        lemma_free_running_frames(m1, rest);
        lemma_sum_of_nonneg(rest);
        let s = sum_of(rest);
        let r = a % t;
        lemma_fundamental_div_mod(r + s, t);
        vstd::arithmetic::div_mod::lemma_mod_bound(r + s, t);
        let q = a / t + (r + s) / t;
        assert(q * t == (a / t) * t + ((r + s) / t) * t) by {
            vstd::arithmetic::mul::lemma_mul_is_distributive_add_other_way(
                t, a / t, (r + s) / t);
        }
        assert(t * (a / t) == (a / t) * t) by {
            vstd::arithmetic::mul::lemma_mul_is_commutative(t, a / t);
        }
        assert(t * ((r + s) / t) == ((r + s) / t) * t) by {
            vstd::arithmetic::mul::lemma_mul_is_commutative(t, (r + s) / t);
        }
        assert(a == t * (a / t) + r);
        assert(r + s == t * ((r + s) / t) + (r + s) % t);
        assert(a + s == q * t + (r + s) % t);
        lemma_fundamental_div_mod_converse(a + s, t, q, (r + s) % t);
        assert(sum_of(deltas) == deltas[0] + s);
    }
}

pub proof fn lemma_sum_of_nonneg(deltas: Seq<int>)
    requires
        forall|i: int| 0 <= i < deltas.len() ==> deltas[i] >= 0,
    ensures
        sum_of(deltas) >= 0,
    decreases deltas.len(),
{
    if deltas.len() > 0 {
        lemma_sum_of_nonneg(deltas.drop_first());
    }
}

/// In single-pulse mode, however frames and explicit advance requests
/// interleave, exactly one tick runs per request — no more, no fewer —
/// and all real time the frames accumulated meanwhile is preserved in
/// the overstep, not drained, until the clock free-runs again.
pub proof fn lemma_single_pulse_exact(m: ClockModel, evs: Seq<ClockEvent>)
    ensures
        run_events(m, evs, SteppingMode::SinglePulse).ticks == m.ticks + count_pulses(evs),
        run_events(m, evs, SteppingMode::SinglePulse).overstep == m.overstep + frames_total(evs),
        run_events(m, evs, SteppingMode::SinglePulse).tick == m.tick,
    decreases evs.len(),
{
    if evs.len() > 0 {
        let m1 = match evs[0] {
            ClockEvent::Frame { delta } => frame(m, delta, SteppingMode::SinglePulse),
            ClockEvent::Pulse => pulsed(m),
        };
        lemma_single_pulse_exact(m1, evs.drop_first());
    }
}

} // verus!


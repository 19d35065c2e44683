//! ADSR (Attack, Decay, Sustain, Release) amplitude envelope generator.
//!
//! The envelope is a temporal state machine driven by note-on / note-off
//! events and polled once per output sample. Its stage is derived on every
//! call from elapsed-time arithmetic; levels are fixed-point fractions of
//! `SCALE` and durations are microseconds, so each output is pinned down by
//! an exact integer formula. A stage whose duration is zero completes
//! instantly: the integer comparisons make that case fall out naturally,
//! with no division by zero anywhere.

use vstd::prelude::*;
use vstd::arithmetic::div_mod::{
    lemma_div_is_ordered, lemma_div_multiples_vanish, lemma_div_of0, lemma_div_pos_is_pos,
    lemma_multiply_divide_lt,
};
use vstd::arithmetic::mul::{
    lemma_mul_by_zero_is_zero, lemma_mul_inequality, lemma_mul_is_commutative, lemma_mul_is_distributive_add_other_way,
    lemma_mul_nonnegative, lemma_mul_strict_inequality, lemma_mul_upper_bound,
};
use crate::SCALE;

verus! {

/// An ADSR envelope generator for one voice.
#[derive(Clone, Copy, Debug)]
pub struct ADSR {
    /// Duration of the attack stage, in microseconds.
    pub attack: u64,
    /// Duration of the decay stage, in microseconds.
    pub decay: u64,
    /// Level of the sustain stage, in millionths (at most `SCALE`).
    pub sustain: u64,
    /// Duration of the release stage, in microseconds.
    pub release: u64,
    /// Samples per second; positive.
    pub sample_rate: u32,
    /// The generator's internal clock: how many samples have been produced.
    pub current_sample: u64,
    /// Clock value recorded at the most recent note-on.
    pub trigger_sample: u64,
    /// Clock value recorded at the most recent note-off since the last
    /// note-on; `None` while the note is still held.
    pub note_off_sample: Option<u64>,
    /// The last computed output, in millionths (at most `SCALE`).
    pub current_amplitude: u64,
    /// Velocity captured at note-on, in millionths (at most `SCALE`); applied
    /// multiplicatively to the whole contour.
    pub velocity: u64,
}

/// A partial parameter update: each present field replaces the corresponding
/// envelope parameter, absent fields leave it untouched.
#[derive(Clone, Copy, Debug)]
pub struct ADSRUpdate {
    /// New attack duration in microseconds, if provided.
    pub attack: Option<u64>,
    /// New decay duration in microseconds, if provided.
    pub decay: Option<u64>,
    /// New sustain level in millionths, if provided (clamped to `SCALE`).
    pub sustain: Option<u64>,
    /// New release duration in microseconds, if provided.
    pub release: Option<u64>,
}

/// The envelope level while the note is held (no release pending), in
/// millionths. With `ns` the elapsed time since note-on and `ar`/`dr` the
/// attack/decay durations (all in microsample units, so the comparisons are
/// exact): a linear ramp 0 -> `SCALE` over the attack, a linear ramp
/// `SCALE` -> `sustain` over the decay, then `sustain` held.
pub open spec fn held_level(e: ADSR) -> int
    recommends
        e.wf(),
{
    let ns = (e.current_sample - e.trigger_sample) * SCALE;
    let ar = e.attack * e.sample_rate;
    let dr = e.decay * e.sample_rate;
    if ns < ar {
        ns * SCALE / (ar as int)
    } else if ns < ar + dr {
        SCALE - (SCALE - e.sustain) * ((ns - ar) * SCALE / (dr as int)) / (SCALE as int)
    } else {
        e.sustain as int
    }
}

/// The envelope level once the release has begun, in millionths: a linear
/// decay from `sustain` to 0 over the release duration, and 0 from then on.
/// A zero release duration reaches 0 immediately.
pub open spec fn release_level(e: ADSR) -> int
    recommends
        e.wf(),
        e.note_off_sample is Some,
        e.current_sample >= e.note_off_sample.unwrap(),
{
    let ms = (e.current_sample - e.note_off_sample.unwrap()) * SCALE;
    let rr = e.release * e.sample_rate;
    if ms >= rr {
        0
    } else {
        e.sustain * (rr - ms) / (rr as int)
    }
}

/// The envelope level the next call will produce, in millionths: the release
/// contour once a recorded note-off has been reached, the held contour
/// otherwise.
pub open spec fn level_at(e: ADSR) -> int
    recommends
        e.wf(),
{
    if e.note_off_sample is Some && e.current_sample >= e.note_off_sample.unwrap() {
        release_level(e)
    } else {
        held_level(e)
    }
}

/// The amplitude the next call will produce: the level scaled by the note's
/// velocity, in millionths.
pub open spec fn amplitude_at(e: ADSR) -> int
    recommends
        e.wf(),
{
    level_at(e) * e.velocity / (SCALE as int)
}

/// The envelope level always stays within `[0, SCALE]`.
pub proof fn lemma_level_bounds(e: ADSR)
    requires
        e.wf(),
    ensures
        0 <= level_at(e) <= SCALE,
{
    let ns = (e.current_sample - e.trigger_sample) * SCALE;
    let ar = e.attack * e.sample_rate;
    let dr = e.decay * e.sample_rate;
    if e.note_off_sample is Some && e.current_sample >= e.note_off_sample.unwrap() {
        let ms = (e.current_sample - e.note_off_sample.unwrap()) * SCALE;
        let rr = e.release * e.sample_rate;
        if ms < rr {
            lemma_div_pos_is_pos(e.sustain * (rr - ms), rr as int);
            lemma_mul_inequality(rr - ms, rr as int, e.sustain as int);
            lemma_mul_is_commutative(e.sustain as int, rr - ms);
            lemma_mul_is_commutative(e.sustain as int, rr as int);
            lemma_div_is_ordered(e.sustain * (rr - ms), rr * e.sustain, rr as int);
            lemma_div_multiples_vanish(e.sustain as int, rr as int);
        }
    } else {
        if ns < ar {
            lemma_div_pos_is_pos(ns * SCALE, ar as int);
            lemma_mul_strict_inequality(ns, ar as int, SCALE as int);
            lemma_multiply_divide_lt(ns * SCALE, ar as int, SCALE as int);
        } else if ns < ar + dr {
            let dp = (ns - ar) * SCALE / (dr as int);
            lemma_div_pos_is_pos((ns - ar) * SCALE, dr as int);
            lemma_mul_strict_inequality(ns - ar, dr as int, SCALE as int);
            lemma_multiply_divide_lt((ns - ar) * SCALE, dr as int, SCALE as int);
            let q = (SCALE - e.sustain) * dp / (SCALE as int);
            lemma_div_pos_is_pos((SCALE - e.sustain) * dp, SCALE as int);
            lemma_mul_inequality(dp, SCALE as int, SCALE - e.sustain);
            lemma_mul_is_commutative(SCALE - e.sustain, dp);
            lemma_mul_is_commutative(SCALE - e.sustain, SCALE as int);
            lemma_div_is_ordered(
                (SCALE - e.sustain) * dp,
                (SCALE as int) * (SCALE - e.sustain),
                SCALE as int,
            );
            lemma_div_multiples_vanish(SCALE - e.sustain, SCALE as int);
        }
    }
}

/// The amplitude never exceeds the note's velocity (and so stays within
/// `[0, SCALE]`).
pub proof fn lemma_amplitude_bounds(e: ADSR)
    requires
        e.wf(),
    ensures
        0 <= amplitude_at(e) <= e.velocity,
{
    lemma_level_bounds(e);
    lemma_div_pos_is_pos(level_at(e) * e.velocity, SCALE as int);
    lemma_mul_inequality(level_at(e), SCALE as int, e.velocity as int);
    lemma_div_is_ordered(level_at(e) * e.velocity, (SCALE as int) * e.velocity, SCALE as int);
    lemma_div_multiples_vanish(e.velocity as int, SCALE as int);
}

/// During the attack stage the envelope only rises: of two held states that
/// differ only in how far the clock has advanced, with the later one still
/// inside the attack window, the later one's level and amplitude are at
/// least the earlier one's.
pub proof fn lemma_attack_monotone(e1: ADSR, e2: ADSR)
    requires
        e1.wf(),
        e2.wf(),
        e2 == (ADSR { current_sample: e2.current_sample, ..e1 }),
        e1.note_off_sample is None,
        e1.current_sample <= e2.current_sample,
        (e2.current_sample - e2.trigger_sample) * SCALE < e2.attack * e2.sample_rate,
    ensures
        level_at(e1) <= level_at(e2),
        amplitude_at(e1) <= amplitude_at(e2),
{
    let ns1 = (e1.current_sample - e1.trigger_sample) * SCALE;
    let ns2 = (e2.current_sample - e2.trigger_sample) * SCALE;
    let ar = e1.attack * e1.sample_rate;
    lemma_mul_inequality(
        e1.current_sample - e1.trigger_sample,
        e2.current_sample - e2.trigger_sample,
        SCALE as int,
    );
    lemma_mul_inequality(ns1, ns2, SCALE as int);
    lemma_div_is_ordered(ns1 * SCALE, ns2 * SCALE, ar);
    lemma_mul_inequality(level_at(e1), level_at(e2), e1.velocity as int);
    lemma_div_is_ordered(level_at(e1) * e1.velocity, level_at(e2) * e2.velocity, SCALE as int);
}

/// While the note is held and both attack and decay have elapsed, the level
/// holds exactly at the sustain setting.
pub proof fn lemma_sustain_hold(e: ADSR)
    requires
        e.wf(),
        e.note_off_sample is None,
        (e.current_sample - e.trigger_sample) * SCALE >= (e.attack + e.decay) * e.sample_rate,
    ensures
        level_at(e) == e.sustain,
        amplitude_at(e) == e.sustain * e.velocity / (SCALE as int),
{
    lemma_mul_is_distributive_add_other_way(
        e.sample_rate as int,
        e.attack as int,
        e.decay as int,
    );
}

/// Once the release has begun the envelope only falls: of two releasing
/// states that differ only in how far the clock has advanced, the later
/// one's level and amplitude are at most the earlier one's; and once the
/// release duration has fully elapsed, both are exactly zero.
pub proof fn lemma_release_monotone(e1: ADSR, e2: ADSR)
    requires
        e1.wf(),
        e2.wf(),
        e2 == (ADSR { current_sample: e2.current_sample, ..e1 }),
        e1.note_off_sample is Some,
        e1.current_sample >= e1.note_off_sample.unwrap(),
        e1.current_sample <= e2.current_sample,
    ensures
        level_at(e2) <= level_at(e1),
        amplitude_at(e2) <= amplitude_at(e1),
        (e2.current_sample - e2.note_off_sample.unwrap()) * SCALE >= e2.release * e2.sample_rate
            ==> level_at(e2) == 0 && amplitude_at(e2) == 0,
{
    let noff = e1.note_off_sample.unwrap();
    let ms1 = (e1.current_sample - noff) * SCALE;
    let ms2 = (e2.current_sample - noff) * SCALE;
    let rr = e1.release * e1.sample_rate;
    lemma_level_bounds(e1);
    lemma_level_bounds(e2);
    lemma_mul_inequality(e1.current_sample - noff, e2.current_sample - noff, SCALE as int);
    if ms2 < rr {
        lemma_mul_inequality(rr - ms2, rr - ms1, e1.sustain as int);
        lemma_mul_is_commutative(e1.sustain as int, rr - ms2);
        lemma_mul_is_commutative(e1.sustain as int, rr - ms1);
        lemma_div_is_ordered(e1.sustain * (rr - ms2), e1.sustain * (rr - ms1), rr);
    }
    lemma_mul_inequality(level_at(e2), level_at(e1), e1.velocity as int);
    lemma_div_is_ordered(level_at(e2) * e2.velocity, level_at(e1) * e1.velocity, SCALE as int);
}

/// A note-on restarts the contour from the beginning of the attack: in a
/// fresh-trigger state (clock equal to the trigger, no note-off pending) the
/// level is the attack ramp's starting value -- 0 when the attack has any
/// duration, else full level when the decay has any duration, else straight
/// to sustain. Together with the contract of `on`, which resets the trigger
/// to the current clock and clears the note-off even mid-release, this is
/// the retrigger behavior.
pub proof fn lemma_retrigger_restarts_attack(e: ADSR)
    requires
        e.wf(),
        e.note_off_sample is None,
        e.current_sample == e.trigger_sample,
    ensures
        level_at(e) == (if e.attack * e.sample_rate > 0 {
            0int
        } else if e.decay * e.sample_rate > 0 {
            SCALE as int
        } else {
            e.sustain as int
        }),
{
    let ar = e.attack * e.sample_rate;
    let dr = e.decay * e.sample_rate;
    let ns = (e.current_sample - e.trigger_sample) * SCALE;
    lemma_mul_nonnegative(e.attack as int, e.sample_rate as int);
    lemma_mul_nonnegative(e.decay as int, e.sample_rate as int);
    assert(ns == 0) by (nonlinear_arith)
        requires
            e.current_sample == e.trigger_sample,
            ns == (e.current_sample - e.trigger_sample) * SCALE,
    ;
    if ar > 0 {
        assert(ns * SCALE == 0) by (nonlinear_arith)
            requires
                ns == 0,
        ;
        lemma_div_of0(ar);
    } else if dr > 0 {
        assert((ns - ar) * SCALE == 0) by (nonlinear_arith)
            requires
                ns == 0,
                ar == 0,
        ;
        lemma_div_of0(dr);
        let dp = (ns - ar) * SCALE / (dr as int);
        assert(dp == 0);
        lemma_mul_by_zero_is_zero(SCALE - e.sustain);
        lemma_div_of0(SCALE as int);
    }
}

impl ADSR {
    /// The state is well formed: positive sample rate, levels within
    /// `[0, SCALE]`, the clock at or past the last trigger, and any recorded
    /// note-off at or past that trigger.
    pub open spec fn wf(self) -> bool {
        &&& self.sample_rate >= 1
        &&& self.sustain <= SCALE
        &&& self.velocity <= SCALE
        &&& self.current_amplitude <= SCALE
        &&& self.trigger_sample <= self.current_sample
        &&& (self.note_off_sample is Some ==> self.note_off_sample.unwrap()
            >= self.trigger_sample)
    }

    /// Creates an envelope with the given stage durations (microseconds),
    /// sustain level (millionths, clamped to `SCALE`) and sample rate, at
    /// rest: clock at zero, no note pending, zero amplitude, full velocity.
    pub fn new(attack: u64, decay: u64, sustain: u64, release: u64, sample_rate: u32) -> (e: ADSR)
        requires
            sample_rate >= 1,
        ensures
            e.wf(),
            e.attack == attack,
            e.decay == decay,
            e.sustain == (if sustain > SCALE { SCALE as int } else { sustain as int }),
            e.release == release,
            e.sample_rate == sample_rate,
            e.current_sample == 0,
            e.trigger_sample == 0,
            e.note_off_sample is None,
            e.current_amplitude == 0,
            e.velocity == SCALE,
    {
        ADSR {
            attack,
            decay,
            sustain: if sustain > SCALE {
                SCALE
            } else {
                sustain
            },
            release,
            sample_rate,
            current_sample: 0,
            trigger_sample: 0,
            note_off_sample: None,
            current_amplitude: 0,
            velocity: SCALE,
        }
    }

    /// Replaces each supplied parameter (sustain clamped to `SCALE`) and
    /// leaves absent ones untouched; with every field absent the state is
    /// identical to what it was.
    pub fn update_params(&mut self, params: ADSRUpdate)
        requires
            old(self).wf(),
        ensures
            final(self).wf(),
            final(self).attack == (match params.attack {
                Some(a) => a as int,
                None => old(self).attack as int,
            }),
            final(self).decay == (match params.decay {
                Some(d) => d as int,
                None => old(self).decay as int,
            }),
            final(self).sustain == (match params.sustain {
                Some(s) => if s > SCALE {
                    SCALE as int
                } else {
                    s as int
                },
                None => old(self).sustain as int,
            }),
            final(self).release == (match params.release {
                Some(r) => r as int,
                None => old(self).release as int,
            }),
            final(self).sample_rate == old(self).sample_rate,
            final(self).current_sample == old(self).current_sample,
            final(self).trigger_sample == old(self).trigger_sample,
            final(self).note_off_sample == old(self).note_off_sample,
            final(self).current_amplitude == old(self).current_amplitude,
            final(self).velocity == old(self).velocity,
            (params.attack is None && params.decay is None && params.sustain is None
                && params.release is None) ==> *final(self) == *old(self),
    {
        if let Some(attack) = params.attack {
            self.attack = attack;
        }
        if let Some(decay) = params.decay {
            self.decay = decay;
        }
        if let Some(sustain) = params.sustain {
            self.sustain = if sustain > SCALE {
                SCALE
            } else {
                sustain
            };
        }
        if let Some(release) = params.release {
            self.release = release;
        }
    }

    /// Triggers the envelope: records the current clock as the trigger,
    /// clears any pending note-off and captures the velocity (clamped to
    /// `SCALE`). This restarts the contour from the attack unconditionally,
    /// even mid-release.
    pub fn on(&mut self, velocity: u64)
        requires
            old(self).wf(),
        ensures
            final(self).wf(),
            final(self).trigger_sample == old(self).current_sample,
            final(self).note_off_sample is None,
            final(self).velocity == (if velocity > SCALE { SCALE as int } else { velocity as int }),
            final(self).attack == old(self).attack,
            final(self).decay == old(self).decay,
            final(self).sustain == old(self).sustain,
            final(self).release == old(self).release,
            final(self).sample_rate == old(self).sample_rate,
            final(self).current_sample == old(self).current_sample,
            final(self).current_amplitude == old(self).current_amplitude,
    {
        self.trigger_sample = self.current_sample;
        self.note_off_sample = None;
        self.velocity = if velocity > SCALE {
            SCALE
        } else {
            velocity
        };
    }

    /// Releases the envelope: records the current clock as the note-off if
    /// none is pending. A second call while already releasing has no effect.
    pub fn off(&mut self)
        requires
            old(self).wf(),
        ensures
            final(self).wf(),
            old(self).note_off_sample is None ==> final(self).note_off_sample == Some(
                old(self).current_sample,
            ),
            old(self).note_off_sample is Some ==> final(self).note_off_sample == old(
                self,
            ).note_off_sample,
            final(self).attack == old(self).attack,
            final(self).decay == old(self).decay,
            final(self).sustain == old(self).sustain,
            final(self).release == old(self).release,
            final(self).sample_rate == old(self).sample_rate,
            final(self).current_sample == old(self).current_sample,
            final(self).trigger_sample == old(self).trigger_sample,
            final(self).current_amplitude == old(self).current_amplitude,
            final(self).velocity == old(self).velocity,
    {
        if self.note_off_sample.is_none() {
            self.note_off_sample = Some(self.current_sample);
        }
    }

    /// The held-contour level, computed exactly as `held_level` states it.
    fn held(&self) -> (l: u64)
        requires
            self.wf(),
        ensures
            l as int == held_level(*self),
            l <= SCALE,
    {
        let n: u64 = self.current_sample - self.trigger_sample;
        proof {
            lemma_mul_upper_bound(n as int, u64::MAX as int, SCALE as int, SCALE as int);
            lemma_mul_upper_bound(
                self.attack as int,
                u64::MAX as int,
                self.sample_rate as int,
                u32::MAX as int,
            );
            lemma_mul_upper_bound(
                self.decay as int,
                u64::MAX as int,
                self.sample_rate as int,
                u32::MAX as int,
            );
        }
        let ns: u128 = (n as u128) * (SCALE as u128);
        let ar: u128 = (self.attack as u128) * (self.sample_rate as u128);
        if ns < ar {
            proof {
                lemma_mul_upper_bound(
                    ns as int,
                    u64::MAX as int * SCALE as int,
                    SCALE as int,
                    SCALE as int,
                );
                lemma_div_pos_is_pos(ns as int * SCALE as int, ar as int);
                lemma_mul_strict_inequality(ns as int, ar as int, SCALE as int);
                lemma_multiply_divide_lt(ns as int * SCALE as int, ar as int, SCALE as int);
            }
            ((ns * (SCALE as u128)) / ar) as u64
        } else {
            let dr: u128 = (self.decay as u128) * (self.sample_rate as u128);
            if ns < ar + dr {
                proof {
                    lemma_mul_upper_bound(
                        (ns - ar) as int,
                        u64::MAX as int * SCALE as int,
                        SCALE as int,
                        SCALE as int,
                    );
                    lemma_div_pos_is_pos((ns - ar) as int * SCALE as int, dr as int);
                    lemma_mul_strict_inequality((ns - ar) as int, dr as int, SCALE as int);
                    lemma_multiply_divide_lt((ns - ar) as int * SCALE as int, dr as int,
                        SCALE as int);
                }
                let dp: u64 = (((ns - ar) * (SCALE as u128)) / dr) as u64;
                proof {
                    lemma_mul_upper_bound(
                        (SCALE - self.sustain) as int,
                        SCALE as int,
                        dp as int,
                        SCALE as int,
                    );
                    lemma_div_pos_is_pos((SCALE - self.sustain) as int * dp as int, SCALE as int);
                    lemma_mul_inequality(dp as int, SCALE as int, (SCALE - self.sustain) as int);
                    lemma_mul_is_commutative((SCALE - self.sustain) as int, dp as int);
                    lemma_mul_is_commutative((SCALE - self.sustain) as int, SCALE as int);
                    lemma_div_is_ordered(
                        (SCALE - self.sustain) as int * dp as int,
                        (SCALE as int) * (SCALE - self.sustain) as int,
                        SCALE as int,
                    );
                    lemma_div_multiples_vanish((SCALE - self.sustain) as int, SCALE as int);
                }
                let q: u64 = ((((SCALE - self.sustain) as u128) * (dp as u128)) / (
                SCALE as u128)) as u64;
                SCALE - q
            } else {
                self.sustain
            }
        }
    }

    /// The level the next call will produce, computed exactly as `level_at`
    /// states it.
    fn level(&self) -> (l: u64)
        requires
            self.wf(),
        ensures
            l as int == level_at(*self),
            l <= SCALE,
    {
        if let Some(noff) = self.note_off_sample {
            if self.current_sample >= noff {
                proof {
                    lemma_mul_upper_bound(
                        (self.current_sample - noff) as int,
                        u64::MAX as int,
                        SCALE as int,
                        SCALE as int,
                    );
                    lemma_mul_upper_bound(
                        self.release as int,
                        u64::MAX as int,
                        self.sample_rate as int,
                        u32::MAX as int,
                    );
                }
                let ms: u128 = ((self.current_sample - noff) as u128) * (SCALE as u128);
                let rr: u128 = (self.release as u128) * (self.sample_rate as u128);
                if ms >= rr {
                    0
                } else {
                    proof {
                        lemma_mul_upper_bound(
                            self.sustain as int,
                            SCALE as int,
                            (rr - ms) as int,
                            u64::MAX as int * u32::MAX as int,
                        );
                        lemma_div_pos_is_pos(self.sustain as int * (rr - ms) as int, rr as int);
                        lemma_mul_inequality((rr - ms) as int, rr as int, self.sustain as int);
                        lemma_mul_is_commutative(self.sustain as int, (rr - ms) as int);
                        lemma_mul_is_commutative(self.sustain as int, rr as int);
                        lemma_div_is_ordered(
                            self.sustain as int * (rr - ms) as int,
                            rr as int * self.sustain as int,
                            rr as int,
                        );
                        lemma_div_multiples_vanish(self.sustain as int, rr as int);
                    }
                    (((self.sustain as u128) * (rr - ms)) / rr) as u64
                }
            } else {
                self.held()
            }
        } else {
            self.held()
        }
    }

    /// Produces one amplitude sample: exactly the stage level for the current
    /// clock, scaled by the velocity, with the clock then advanced by one.
    /// The result never exceeds the velocity.
    pub fn next_sample(&mut self) -> (amp: u64)
        requires
            old(self).wf(),
            old(self).current_sample < u64::MAX,
        ensures
            final(self).wf(),
            final(self).current_sample == old(self).current_sample + 1,
            final(self).current_amplitude == amplitude_at(*old(self)),
            amp == final(self).current_amplitude,
            amp <= old(self).velocity,
            final(self).attack == old(self).attack,
            final(self).decay == old(self).decay,
            final(self).sustain == old(self).sustain,
            final(self).release == old(self).release,
            final(self).sample_rate == old(self).sample_rate,
            final(self).trigger_sample == old(self).trigger_sample,
            final(self).note_off_sample == old(self).note_off_sample,
            final(self).velocity == old(self).velocity,
    {
        let level: u64 = self.level();
        proof {
            lemma_mul_upper_bound(level as int, SCALE as int, self.velocity as int, SCALE as int);
            lemma_div_pos_is_pos(level as int * self.velocity as int, SCALE as int);
            lemma_mul_inequality(level as int, SCALE as int, self.velocity as int);
            lemma_div_is_ordered(
                level as int * self.velocity as int,
                (SCALE as int) * self.velocity as int,
                SCALE as int,
            );
            lemma_div_multiples_vanish(self.velocity as int, SCALE as int);
        }
        let amp: u64 = (((level as u128) * (self.velocity as u128)) / (SCALE as u128)) as u64;
        self.current_amplitude = amp;
        self.current_sample = self.current_sample + 1;
        amp
    }

    /// Whether the last produced amplitude was nonzero: the voice is still
    /// audible.
    pub fn is_active(&self) -> (active: bool)
        ensures
            active == (self.current_amplitude > 0),
    {
        self.current_amplitude > 0
    }
}

impl Default for ADSR {
    /// An envelope with instant attack to full sustain and no decay or
    /// release, at a 44100 Hz sample rate.
    fn default() -> (e: ADSR)
        ensures
            e.wf(),
            e.attack == 0,
            e.decay == 0,
            e.sustain == SCALE,
            e.release == 0,
            e.sample_rate == 44100,
            e.current_sample == 0,
            e.trigger_sample == 0,
            e.note_off_sample is None,
            e.current_amplitude == 0,
            e.velocity == SCALE,
    {
        ADSR {
            attack: 0,
            decay: 0,
            sustain: SCALE,
            release: 0,
            sample_rate: 44100,
            current_sample: 0,
            trigger_sample: 0,
            note_off_sample: None,
            current_amplitude: 0,
            velocity: SCALE,
        }
    }
}

} // verus!

//! Band-limited periodic oscillator.
//!
//! Waveforms are synthesized in the phase domain (`phase` in `[0, SCALE)`
//! millionths of a cycle) and corrected with a polynomial band-limited step
//! (PolyBLEP) at their discontinuities to suppress aliasing. Samples are
//! fixed-point fractions of `SCALE`, so each waveform value is pinned down
//! exactly by an integer spec function.

use vstd::prelude::*;
use vstd::arithmetic::div_mod::{
    lemma_add_mod_noop, lemma_add_mod_noop_right, lemma_div_by_self, lemma_div_is_ordered,
    lemma_div_multiples_vanish, lemma_div_pos_is_pos, lemma_fundamental_div_mod,
    lemma_fundamental_div_mod_converse, lemma_mod_bound, lemma_multiply_divide_le,
    lemma_multiply_divide_lt, lemma_small_mod, lemma_sub_mod_noop,
};
use vstd::arithmetic::mul::{lemma_mul_inequality, lemma_mul_strict_inequality};
use crate::{HALF_SCALE, SCALE};

verus! {

/// The four waveform shapes the oscillator can produce.
#[derive(Clone, Copy, Debug, PartialEq, Eq, Structural)]
pub enum OscillatorType {
    Sine,
    Square,
    Saw,
    Triangle,
}

/// One voice's oscillator state. `phase` walks through `[0, SCALE)` by
/// `phase_increment` millionths of a cycle per sample; the increment is always
/// the one derived from the last-set frequency and sample rate.
pub struct PolyBlepOscillator {
    /// Samples per second; positive.
    pub sample_rate: u32,
    /// Pitch in microhertz (millionths of a hertz).
    pub frequency: u64,
    /// Position within one waveform cycle, in `[0, SCALE)` millionths.
    pub phase: u64,
    /// Phase advance per sample, in millionths of a cycle: `frequency / sample_rate`.
    pub phase_increment: u64,
}

/// Clamps a fixed-point sample into `[-SCALE, SCALE]`, the representation of
/// the audio range `[-1, 1]`.
pub open spec fn clamp_unit(x: int) -> int {
    if x < -(SCALE as int) {
        -(SCALE as int)
    } else if x > SCALE as int {
        SCALE as int
    } else {
        x
    }
}

/// The PolyBLEP correction at phase-distance `t` from a discontinuity, with
/// the phase increment as the correction window half-width. Within one
/// increment after the edge it is `2t' - t'^2 - 1` and within one increment
/// before the wrapped edge it is `t'^2 + 2t' + 1` (both for the normalized
/// distance `t'`), elsewhere zero; everything scaled by `SCALE`.
pub open spec fn poly_blep_spec(t: int, inc: int) -> int
    recommends
        0 <= t < SCALE,
        0 <= inc,
{
    if t < inc {
        let tn = t * SCALE / inc;
        2 * tn - tn * tn / (SCALE as int) - SCALE
    } else if SCALE - t < inc {
        let e = (SCALE - t) * SCALE / inc;
        SCALE + e * e / (SCALE as int) - 2 * e
    } else {
        0
    }
}

/// Rational approximation of `sin(2*pi*q/SCALE)` on the first half-cycle
/// (`0 <= q < HALF_SCALE`), scaled by `SCALE`: with `u = q*(SCALE - 2*q)` it
/// is `32*u*SCALE / (5*SCALE^2 - 8*u)`, which is 0 at both ends and exactly
/// `SCALE` at the quarter cycle.
pub open spec fn sine_half_spec(q: int) -> int
    recommends
        0 <= q < HALF_SCALE,
{
    let num = q * (SCALE - 2 * q);
    32 * num * SCALE / (5 * (SCALE as int) * (SCALE as int) - 8 * num)
}

/// The sine waveform over a whole cycle: the half-cycle approximation,
/// negated on the second half.
pub open spec fn sine_spec(phase: int) -> int
    recommends
        0 <= phase < SCALE,
{
    if phase < HALF_SCALE {
        sine_half_spec(phase)
    } else {
        -sine_half_spec(phase - HALF_SCALE)
    }
}

/// The square waveform before clamping: +1 on the first half-cycle, -1 on the
/// second, with PolyBLEP corrections added at the rising edge (phase 0) and
/// subtracted at the falling edge (phase 1/2).
pub open spec fn square_spec(phase: int, inc: int) -> int
    recommends
        0 <= phase < SCALE,
        0 <= inc,
{
    let naive: int = if phase < HALF_SCALE {
        SCALE as int
    } else {
        -(SCALE as int)
    };
    naive + poly_blep_spec(phase, inc) - poly_blep_spec(
        (phase + HALF_SCALE) % (SCALE as int),
        inc,
    )
}

/// The sawtooth waveform before clamping: the ramp `2*phase - 1` with the
/// PolyBLEP correction subtracted at the wrap discontinuity.
pub open spec fn saw_spec(phase: int, inc: int) -> int
    recommends
        0 <= phase < SCALE,
        0 <= inc,
{
    2 * phase - SCALE - poly_blep_spec(phase, inc)
}

/// A PolyBLEP value scaled by `4 * inc / SCALE`, the derivative-scaled factor
/// the triangle's slope discontinuities need. Division rounds toward zero, so
/// the scaling treats the two signs symmetrically.
pub open spec fn slope_corr_spec(pb: int, inc: int) -> int
    recommends
        0 <= inc,
{
    if pb >= 0 {
        pb * 4 * inc / (SCALE as int)
    } else {
        -((-pb) * 4 * inc / (SCALE as int))
    }
}

/// The triangle waveform before clamping: a ramp up on the first half-cycle
/// and down on the second, with derivative-scaled PolyBLEP corrections at
/// both breakpoints.
pub open spec fn triangle_spec(phase: int, inc: int) -> int
    recommends
        0 <= phase < SCALE,
        0 <= inc,
{
    let naive: int = if phase < HALF_SCALE {
        4 * phase - SCALE
    } else {
        3 * (SCALE as int) - 4 * phase
    };
    naive + slope_corr_spec(poly_blep_spec(phase, inc), inc) - slope_corr_spec(
        poly_blep_spec((phase + HALF_SCALE) % (SCALE as int), inc),
        inc,
    )
}

/// The sample the oscillator returns for a waveform at a given phase and
/// phase increment: the waveform's raw value, clamped into `[-SCALE, SCALE]`.
pub open spec fn osc_sample_spec(ty: OscillatorType, phase: int, inc: int) -> int
    recommends
        0 <= phase < SCALE,
        0 <= inc,
{
    clamp_unit(
        match ty {
            OscillatorType::Sine => sine_spec(phase),
            OscillatorType::Square => square_spec(phase, inc),
            OscillatorType::Saw => saw_spec(phase, inc),
            OscillatorType::Triangle => triangle_spec(phase, inc),
        },
    )
}

/// Clamps a raw fixed-point sample into `[-SCALE, SCALE]`.
fn clamp_i64(x: i64) -> (r: i64)
    ensures
        r == clamp_unit(x as int),
        -(SCALE as int) <= r as int <= SCALE as int,
{
    if x < -(SCALE as i64) {
        -(SCALE as i64)
    } else if x > SCALE as i64 {
        SCALE as i64
    } else {
        x
    }
}

/// The PolyBLEP correction, computed exactly as `poly_blep_spec` states it.
fn poly_blep(t: u64, inc: u64) -> (r: i64)
    requires
        t < SCALE,
    ensures
        r as int == poly_blep_spec(t as int, inc as int),
        -(SCALE as int) <= r as int <= SCALE as int,
{
    if t < inc {
        proof {
            lemma_mul_strict_inequality(t as int, inc as int, SCALE as int);
            lemma_multiply_divide_lt(t as int * SCALE as int, inc as int, SCALE as int);
            lemma_div_pos_is_pos(t as int * SCALE as int, inc as int);
        }
        let tn: u64 = ((t as u128 * SCALE as u128) / inc as u128) as u64;
        proof {
            lemma_mul_inequality(tn as int, SCALE as int, tn as int);
            lemma_div_is_ordered(tn as int * tn as int, SCALE as int * tn as int, SCALE as int);
            lemma_div_multiples_vanish(tn as int, SCALE as int);
            lemma_div_pos_is_pos(tn as int * tn as int, SCALE as int);
        }
        let q: u64 = tn * tn / SCALE;
        2 * (tn as i64) - (q as i64) - (SCALE as i64)
    } else if SCALE - t < inc {
        let d: u64 = SCALE - t;
        proof {
            lemma_mul_strict_inequality(d as int, inc as int, SCALE as int);
            lemma_multiply_divide_lt(d as int * SCALE as int, inc as int, SCALE as int);
            lemma_div_pos_is_pos(d as int * SCALE as int, inc as int);
        }
        let e: u64 = ((d as u128 * SCALE as u128) / inc as u128) as u64;
        proof {
            lemma_mul_inequality(e as int, SCALE as int, e as int);
            lemma_div_is_ordered(e as int * e as int, SCALE as int * e as int, SCALE as int);
            lemma_div_multiples_vanish(e as int, SCALE as int);
            lemma_div_pos_is_pos(e as int * e as int, SCALE as int);
        }
        let q: u64 = e * e / SCALE;
        (SCALE as i64) + (q as i64) - 2 * (e as i64)
    } else {
        0
    }
}

/// The sine approximation on the first half-cycle, as `sine_half_spec`
/// states it; always within `[0, SCALE]`.
fn sine_half(q: u64) -> (r: i64)
    requires
        q < HALF_SCALE,
    ensures
        r as int == sine_half_spec(q as int),
        0 <= r as int <= SCALE as int,
{
    proof {
        assert(0 <= q as int * (SCALE - 2 * q as int) <= 125_000_000_000int) by (nonlinear_arith)
            requires
                0 <= q < 500_000,
                SCALE == 1_000_000,
        ;
        lemma_sine_half_bounds(q as int);
    }
    let num: u64 = q * (SCALE - 2 * q);
    let numer: u128 = 32 * (num as u128) * (SCALE as u128);
    let den: u128 = 5 * (SCALE as u128) * (SCALE as u128) - 8 * (num as u128);
    let v: u64 = (numer / den) as u64;
    v as i64
}

/// The sine waveform sample: no discontinuity, so no PolyBLEP correction.
fn sine_sample(phase: u64) -> (r: i64)
    requires
        phase < SCALE,
    ensures
        r as int == sine_spec(phase as int),
        -(SCALE as int) <= r as int <= SCALE as int,
{
    if phase < HALF_SCALE {
        sine_half(phase)
    } else {
        let v = sine_half(phase - HALF_SCALE);
        -v
    }
}

/// The square waveform sample, PolyBLEP-corrected at both edges and clamped.
fn square_sample(phase: u64, inc: u64) -> (r: i64)
    requires
        phase < SCALE,
    ensures
        r as int == clamp_unit(square_spec(phase as int, inc as int)),
        -(SCALE as int) <= r as int <= SCALE as int,
{
    let naive: i64 = if phase < HALF_SCALE {
        SCALE as i64
    } else {
        -(SCALE as i64)
    };
    let pb1 = poly_blep(phase, inc);
    let t2: u64 = (phase + HALF_SCALE) % SCALE;
    let pb2 = poly_blep(t2, inc);
    clamp_i64(naive + pb1 - pb2)
}

/// The sawtooth waveform sample, PolyBLEP-corrected at the wrap and clamped.
fn saw_sample(phase: u64, inc: u64) -> (r: i64)
    requires
        phase < SCALE,
    ensures
        r as int == clamp_unit(saw_spec(phase as int, inc as int)),
        -(SCALE as int) <= r as int <= SCALE as int,
{
    let naive: i64 = 2 * (phase as i64) - (SCALE as i64);
    let pb = poly_blep(phase, inc);
    clamp_i64(naive - pb)
}

/// A PolyBLEP value scaled by `4 * inc / SCALE`, as `slope_corr_spec` states
/// it; bounded by `4 * inc` in magnitude.
fn slope_corr(pb: i64, inc: u64) -> (r: i128)
    requires
        -(SCALE as int) <= pb as int <= SCALE as int,
    ensures
        r as int == slope_corr_spec(pb as int, inc as int),
        -4 * (inc as int) <= r as int <= 4 * (inc as int),
{
    if pb >= 0 {
        proof {
            assert(pb as int * 4 * (inc as int) <= (SCALE as int) * (4 * (inc as int)))
                by (nonlinear_arith)
                requires
                    0 <= pb <= SCALE as int,
                    0 <= inc,
            ;
            lemma_multiply_divide_le(pb as int * 4 * (inc as int), SCALE as int, 4 * (inc as int));
            lemma_div_pos_is_pos(pb as int * 4 * (inc as int), SCALE as int);
        }
        let m: u128 = (pb as u128) * 4 * (inc as u128) / (SCALE as u128);
        m as i128
    } else {
        let np: u64 = (-pb) as u64;
        proof {
            assert(np as int * 4 * (inc as int) <= (SCALE as int) * (4 * (inc as int)))
                by (nonlinear_arith)
                requires
                    0 <= np <= SCALE as int,
                    0 <= inc,
            ;
            lemma_multiply_divide_le(np as int * 4 * (inc as int), SCALE as int, 4 * (inc as int));
            lemma_div_pos_is_pos(np as int * 4 * (inc as int), SCALE as int);
        }
        let m: u128 = (np as u128) * 4 * (inc as u128) / (SCALE as u128);
        -(m as i128)
    }
}

/// The triangle waveform sample, with derivative-scaled PolyBLEP corrections
/// at both slope breakpoints, clamped.
fn triangle_sample(phase: u64, inc: u64) -> (r: i64)
    requires
        phase < SCALE,
    ensures
        r as int == clamp_unit(triangle_spec(phase as int, inc as int)),
        -(SCALE as int) <= r as int <= SCALE as int,
{
    let naive: i64 = if phase < HALF_SCALE {
        4 * (phase as i64) - (SCALE as i64)
    } else {
        3 * (SCALE as i64) - 4 * (phase as i64)
    };
    let pb1 = poly_blep(phase, inc);
    let t2: u64 = (phase + HALF_SCALE) % SCALE;
    let pb2 = poly_blep(t2, inc);
    let c1: i128 = slope_corr(pb1, inc);
    let c2: i128 = slope_corr(pb2, inc);
    let sum: i128 = (naive as i128) + c1 - c2;
    if sum < -(SCALE as i128) {
        -(SCALE as i64)
    } else if sum > SCALE as i128 {
        SCALE as i64
    } else {
        sum as i64
    }
}

/// The half-cycle sine approximation stays within `[0, SCALE]`.
pub proof fn lemma_sine_half_bounds(q: int)
    requires
        0 <= q < HALF_SCALE,
    ensures
        0 <= sine_half_spec(q) <= SCALE,
{
    let num = q * (SCALE - 2 * q);
    let den = 5 * (SCALE as int) * (SCALE as int) - 8 * num;
    assert(0 <= num <= 125_000_000_000int) by (nonlinear_arith)
        requires
            0 <= q < 500_000,
            SCALE == 1_000_000,
            num == q * (SCALE - 2 * q),
    ;
    assert(32 * num * (SCALE as int) <= den * (SCALE as int)) by (nonlinear_arith)
        requires
            0 <= num <= 125_000_000_000int,
            den == 5 * (SCALE as int) * (SCALE as int) - 8 * num,
            SCALE == 1_000_000,
    ;
    lemma_multiply_divide_le(32 * num * (SCALE as int), den, SCALE as int);
    lemma_div_pos_is_pos(32 * num * (SCALE as int), den);
}

/// The sine waveform needs no band-limiting: its sample is exactly the sine
/// value at the phase, unaffected by clamping, and the same for every phase
/// increment.
pub proof fn lemma_sine_uncorrected(phase: int, inc1: int, inc2: int)
    requires
        0 <= phase < SCALE,
    ensures
        osc_sample_spec(OscillatorType::Sine, phase, inc1) == sine_spec(phase),
        osc_sample_spec(OscillatorType::Sine, phase, inc1) == osc_sample_spec(
            OscillatorType::Sine,
            phase,
            inc2,
        ),
{
    if phase < HALF_SCALE {
        lemma_sine_half_bounds(phase);
    } else {
        lemma_sine_half_bounds(phase - HALF_SCALE);
    }
}

/// The phase reached after `n` samples from a given start: each step adds
/// the increment and wraps back into `[0, SCALE)`, exactly as `next_sample`
/// advances it.
pub open spec fn phase_after(start: int, inc: int, n: nat) -> int
    decreases n,
{
    if n == 0 {
        start
    } else {
        (phase_after(start, inc, (n - 1) as nat) + inc) % (SCALE as int)
    }
}

/// Closed form for the walked phase: after `n` steps it is the start plus
/// `n` increments, wrapped once.
pub proof fn lemma_phase_after_closed_form(start: int, inc: int, n: nat)
    requires
        0 <= start < SCALE,
        0 <= inc,
    ensures
        phase_after(start, inc, n) == (start + n * inc) % (SCALE as int),
    decreases n,
{
    let s = SCALE as int;
    if n == 0 {
        assert(n * inc == 0) by (nonlinear_arith)
            requires
                n == 0,
        ;
        lemma_small_mod(start as nat, SCALE as nat);
    } else {
        let m = (n - 1) as nat;
        lemma_phase_after_closed_form(start, inc, m);
        let a = start + m * inc;
        lemma_add_mod_noop_right(a % s, inc, s);
        lemma_add_mod_noop(a, inc, s);
        assert(m * inc + inc == n * inc) by (nonlinear_arith)
            requires
                m == n - 1,
        ;
    }
}

/// Periodicity of the phase walk: after one nominal period -- the number of
/// steps nearest to a whole cycle over the increment -- the phase comes back
/// to within half an increment (rounded up) of its starting value, measured
/// around the cycle. The smaller the increment, the closer the return.
pub proof fn lemma_phase_periodicity(start: int, inc: int)
    requires
        0 <= start < SCALE,
        0 < inc <= SCALE,
    ensures
        ({
            let s = SCALE as int;
            let k = (2 * s + inc) / (2 * inc);
            let drift = (phase_after(start, inc, k as nat) - start) % s;
            let h = (inc + 1) / 2;
            k >= 1 && (drift <= h || drift >= s - h)
        }),
{
    let s = SCALE as int;
    let k = (2 * s + inc) / (2 * inc);
    let h = (inc + 1) / 2;
    lemma_div_is_ordered(2 * inc, 2 * s + inc, 2 * inc);
    lemma_div_by_self(2 * inc);
    lemma_fundamental_div_mod(2 * s + inc, 2 * inc);
    lemma_mod_bound(2 * s + inc, 2 * inc);
    let rem = (2 * s + inc) % (2 * inc);
    let kinc = k * inc;
    assert((2 * inc) * k == 2 * (k * inc)) by (nonlinear_arith);
    assert(2 * (kinc - s) == inc - rem);
    lemma_fundamental_div_mod(inc + 1, 2);
    lemma_mod_bound(inc + 1, 2);
    lemma_phase_after_closed_form(start, inc, k as nat);
    let p = phase_after(start, inc, k as nat);
    lemma_sub_mod_noop(start + kinc, start, s);
    lemma_small_mod(start as nat, SCALE as nat);
    let drift = (p - start) % s;
    assert(drift == kinc % s);
    if kinc >= s {
        lemma_fundamental_div_mod_converse(kinc, s, 1, kinc - s);
        assert(drift <= h);
    } else {
        assert(kinc > 0) by (nonlinear_arith)
            requires
                k >= 1,
                inc > 0,
                kinc == k * inc,
        ;
        lemma_fundamental_div_mod_converse(kinc, s, 0, kinc);
        assert(drift >= s - h);
    }
}

impl PolyBlepOscillator {
    /// The state is well formed: a positive sample rate, a normalized phase,
    /// and a phase increment consistent with frequency and sample rate.
    pub open spec fn wf(self) -> bool {
        &&& self.sample_rate >= 1
        &&& self.phase < SCALE
        &&& self.phase_increment == self.frequency as int / self.sample_rate as int
    }

    /// Creates an oscillator at phase 0 with the increment derived from the
    /// given frequency (microhertz) and sample rate (samples per second).
    pub fn new(sample_rate: u32, frequency: u64) -> (osc: Self)
        requires
            sample_rate >= 1,
        ensures
            osc.wf(),
            osc.sample_rate == sample_rate,
            osc.frequency == frequency,
            osc.phase == 0,
            osc.phase_increment == frequency as int / sample_rate as int,
    {
        let mut osc = PolyBlepOscillator { sample_rate, frequency, phase: 0, phase_increment: 0 };
        osc.set_frequency(frequency);
        osc
    }

    /// Updates the frequency and immediately recomputes the phase increment
    /// from it; nothing else changes.
    pub fn set_frequency(&mut self, frequency: u64)
        requires
            old(self).sample_rate >= 1,
            old(self).phase < SCALE,
        ensures
            final(self).wf(),
            final(self).frequency == frequency,
            final(self).phase_increment == frequency as int / old(self).sample_rate as int,
            final(self).sample_rate == old(self).sample_rate,
            final(self).phase == old(self).phase,
    {
        self.frequency = frequency;
        self.phase_increment = frequency / (self.sample_rate as u64);
    }

    /// Returns the waveform value at the current phase (exactly
    /// `osc_sample_spec`, always within `[-SCALE, SCALE]`) and advances the
    /// phase by one increment, wrapped back into `[0, SCALE)`.
    pub fn next_sample(&mut self, osc_type: OscillatorType) -> (sample: i64)
        requires
            old(self).wf(),
        ensures
            final(self).wf(),
            sample as int == osc_sample_spec(
                osc_type,
                old(self).phase as int,
                old(self).phase_increment as int,
            ),
            -(SCALE as int) <= sample as int <= SCALE as int,
            final(self).phase == (old(self).phase + old(self).phase_increment) % (SCALE as int),
            final(self).sample_rate == old(self).sample_rate,
            final(self).frequency == old(self).frequency,
            final(self).phase_increment == old(self).phase_increment,
    {
        let sample: i64 = match osc_type {
            OscillatorType::Sine => sine_sample(self.phase),
            OscillatorType::Square => square_sample(self.phase, self.phase_increment),
            OscillatorType::Saw => saw_sample(self.phase, self.phase_increment),
            OscillatorType::Triangle => triangle_sample(self.phase, self.phase_increment),
        };
        let next: u64 = (((self.phase as u128) + (self.phase_increment as u128)) % (
        SCALE as u128)) as u64;
        self.phase = next;
        sample
    }
}

} // verus!

//! Tests for the band-limited oscillator: output range, sine fidelity
//! against a floating-point reference, phase periodicity, and exact
//! fixed-point values at notable phases.

use paw_wave::oscillator::{OscillatorType, PolyBlepOscillator};

const SCALE_I: i64 = 1_000_000;

#[test]
fn output_stays_in_range_for_all_waveforms() {
    let waveforms = [
        OscillatorType::Sine,
        OscillatorType::Square,
        OscillatorType::Saw,
        OscillatorType::Triangle,
    ];
    // 440 Hz well below Nyquist, 22049 Hz just below it, and a frequency far
    // above the sample rate: correction quality degrades, range never does.
    let frequencies = [440_000_000u64, 22_049_000_000, 441_000_000_000];
    for &wf in waveforms.iter() {
        for &freq in frequencies.iter() {
            let mut osc = PolyBlepOscillator::new(44100, freq);
            for _ in 0..10_000 {
                let s = osc.next_sample(wf);
                assert!(-SCALE_I <= s && s <= SCALE_I);
            }
        }
    }
}

#[test]
fn sine_tracks_reference_sine() {
    // 100 Hz at 44100 samples/s: phase increment 2267 millionths of a cycle.
    let mut osc = PolyBlepOscillator::new(44100, 100_000_000);
    assert_eq!(osc.phase_increment, 2267);
    for n in 0..1000u64 {
        let s = osc.next_sample(OscillatorType::Sine);
        let phase = ((n * 2267) % 1_000_000) as f64 / 1_000_000.0;
        let reference = (2.0 * std::f64::consts::PI * phase).sin();
        let got = s as f64 / 1_000_000.0;
        assert!((got - reference).abs() < 0.002);
    }
}

#[test]
fn phase_returns_after_one_period() {
    // 3 Hz at 100 samples/s: increment 30000, period rounds to 33 samples.
    let mut osc = PolyBlepOscillator::new(100, 3_000_000);
    assert_eq!(osc.phase_increment, 30_000);
    assert_eq!(osc.phase, 0);
    for _ in 0..33 {
        osc.next_sample(OscillatorType::Sine);
    }
    // 33 * 30000 = 990000: within half an increment of a whole cycle.
    assert_eq!(osc.phase, 990_000);
    assert!(1_000_000 - osc.phase <= 15_000);
}

#[test]
fn sine_quarter_cycle_values_exact() {
    // 1 Hz at 4 samples/s: the phase steps through the four quarter points,
    // where the sine approximation is exact.
    let mut osc = PolyBlepOscillator::new(4, 1_000_000);
    let expected = [0, SCALE_I, 0, -SCALE_I, 0, SCALE_I, 0, -SCALE_I];
    for &e in expected.iter() {
        assert_eq!(osc.next_sample(OscillatorType::Sine), e);
    }
}

#[test]
fn square_edge_and_plateau_values_exact() {
    // 1 Hz at 100 samples/s: increment 10000.
    let mut osc = PolyBlepOscillator::new(100, 1_000_000);
    // At phase 0 the rising-edge correction is -1, cancelling the naive +1.
    assert_eq!(osc.next_sample(OscillatorType::Square), 0);
    // One increment in, no correction window applies: the plateau is +1.
    assert_eq!(osc.next_sample(OscillatorType::Square), SCALE_I);
    // Step to the falling edge at the half cycle: the correction cancels -1.
    for _ in 0..48 {
        osc.next_sample(OscillatorType::Square);
    }
    assert_eq!(osc.phase, 500_000);
    assert_eq!(osc.next_sample(OscillatorType::Square), 0);
    // And the plateau after it is -1.
    assert_eq!(osc.next_sample(OscillatorType::Square), -SCALE_I);
}

#[test]
fn saw_values_exact() {
    let mut osc = PolyBlepOscillator::new(100, 1_000_000);
    // At phase 0 the wrap correction -(-1) cancels the naive -1.
    assert_eq!(osc.next_sample(OscillatorType::Saw), 0);
    // One increment in: the plain ramp 2*phase - 1.
    assert_eq!(osc.next_sample(OscillatorType::Saw), -980_000);
    assert_eq!(osc.next_sample(OscillatorType::Saw), -960_000);
}

#[test]
fn triangle_values_exact() {
    let mut osc = PolyBlepOscillator::new(100, 1_000_000);
    // At phase 0 the derivative-scaled correction overshoots below -1 and is
    // clamped.
    assert_eq!(osc.next_sample(OscillatorType::Triangle), -SCALE_I);
    // One increment in: the plain rising ramp 4*phase - 1.
    assert_eq!(osc.next_sample(OscillatorType::Triangle), -960_000);
    // Just past the peak: the falling ramp 3 - 4*phase.
    for _ in 0..48 {
        osc.next_sample(OscillatorType::Triangle);
    }
    assert_eq!(osc.phase, 500_000);
    assert_eq!(osc.next_sample(OscillatorType::Triangle), SCALE_I);
}

#[test]
fn set_frequency_recomputes_increment() {
    let mut osc = PolyBlepOscillator::new(44100, 0);
    assert_eq!(osc.phase_increment, 0);
    osc.set_frequency(440_000_000);
    assert_eq!(osc.frequency, 440_000_000);
    assert_eq!(osc.phase_increment, 9977);
    assert_eq!(osc.phase, 0);
}

#[test]
fn zero_frequency_holds_phase() {
    let mut osc = PolyBlepOscillator::new(44100, 0);
    for _ in 0..10 {
        assert_eq!(osc.next_sample(OscillatorType::Sine), 0);
    }
    assert_eq!(osc.phase, 0);
}

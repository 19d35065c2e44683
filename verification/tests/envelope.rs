//! Tests for the ADSR envelope: exact stage formulas, monotone attack and
//! release contours, retrigger semantics, parameter updates and clamping.

use paw_wave::envelope::{ADSR, ADSRUpdate};

const SCALE_U: u64 = 1_000_000;

#[test]
fn attack_ramp_rises_monotonically() {
    // attack 1.0 s, no decay, full sustain, no release, 100 samples/s.
    let mut env = ADSR::new(1_000_000, 0, 1_000_000, 0, 100);
    env.on(1_000_000);
    let mut last: u64 = 0;
    for n in 0..100u64 {
        let amp = env.next_sample();
        assert_eq!(amp, n * 10_000);
        assert!(amp >= last);
        last = amp;
    }
    // After the attack duration the ramp has reached full level.
    assert_eq!(env.next_sample(), SCALE_U);
}

#[test]
fn sustain_holds_exactly() {
    // Instant attack and decay, sustain 0.7.
    let mut env = ADSR::new(0, 0, 700_000, 0, 100);
    env.on(1_000_000);
    for _ in 0..50 {
        assert_eq!(env.next_sample(), 700_000);
    }
    assert!(env.is_active());
    env.off();
    // Zero release duration completes instantly.
    assert_eq!(env.next_sample(), 0);
    assert!(!env.is_active());
}

#[test]
fn release_decays_linearly_to_zero() {
    // sustain 0.8, release 2.0 s, 10 samples/s.
    let mut env = ADSR::new(0, 0, 800_000, 2_000_000, 10);
    env.on(1_000_000);
    for _ in 0..3 {
        assert_eq!(env.next_sample(), 800_000);
    }
    env.off();
    // 20 release samples: 0.8 * (1 - i/20) for i = 0..19.
    for i in 0..20u64 {
        let amp = env.next_sample();
        assert_eq!(amp, 800_000 - i * 40_000);
        assert!(env.is_active());
    }
    // From the 21st call on the release has fully elapsed.
    for _ in 0..3 {
        assert_eq!(env.next_sample(), 0);
        assert!(!env.is_active());
    }
}

#[test]
fn decay_ramp_values_exact() {
    // Instant attack, decay 1.0 s down to sustain 0.5, 10 samples/s.
    let mut env = ADSR::new(0, 1_000_000, 500_000, 0, 10);
    env.on(1_000_000);
    for n in 0..10u64 {
        assert_eq!(env.next_sample(), 1_000_000 - n * 50_000);
    }
    assert_eq!(env.next_sample(), 500_000);
    assert_eq!(env.next_sample(), 500_000);
}

#[test]
fn retrigger_restarts_attack_from_zero() {
    // attack 1.0 s at 100 samples/s, release 2.0 s.
    let mut env = ADSR::new(1_000_000, 0, 1_000_000, 2_000_000, 100);
    env.on(1_000_000);
    for _ in 0..50 {
        env.next_sample();
    }
    env.off();
    for _ in 0..5 {
        env.next_sample();
    }
    // Retrigger mid-release: the contour restarts from a fresh attack ramp.
    env.on(1_000_000);
    assert_eq!(env.trigger_sample, env.current_sample);
    assert_eq!(env.note_off_sample, None);
    assert_eq!(env.next_sample(), 0);
    assert_eq!(env.next_sample(), 10_000);
    assert_eq!(env.next_sample(), 20_000);
}

#[test]
fn update_params_all_absent_is_noop() {
    let mut env = ADSR::new(30_000, 20_000, 600_000, 400_000, 44100);
    env.on(900_000);
    for _ in 0..7 {
        env.next_sample();
    }
    let before = env;
    env.update_params(
        ADSRUpdate { attack: None, decay: None, sustain: None, release: None },
    );
    assert_eq!(env.attack, before.attack);
    assert_eq!(env.decay, before.decay);
    assert_eq!(env.sustain, before.sustain);
    assert_eq!(env.release, before.release);
    assert_eq!(env.sample_rate, before.sample_rate);
    assert_eq!(env.current_sample, before.current_sample);
    assert_eq!(env.trigger_sample, before.trigger_sample);
    assert_eq!(env.note_off_sample, before.note_off_sample);
    assert_eq!(env.current_amplitude, before.current_amplitude);
    assert_eq!(env.velocity, before.velocity);
}

#[test]
fn update_params_replaces_supplied_fields_only() {
    let mut env = ADSR::new(30_000, 20_000, 600_000, 400_000, 44100);
    env.update_params(
        ADSRUpdate { attack: Some(50_000), decay: None, sustain: Some(2_000_000), release: None },
    );
    assert_eq!(env.attack, 50_000);
    assert_eq!(env.decay, 20_000);
    // Sustain is clamped to the full level.
    assert_eq!(env.sustain, SCALE_U);
    assert_eq!(env.release, 400_000);
}

#[test]
fn new_clamps_sustain() {
    let env = ADSR::new(0, 0, 5_000_000, 0, 44100);
    assert_eq!(env.sustain, SCALE_U);
    let env2 = ADSR::new(0, 0, 250_000, 0, 44100);
    assert_eq!(env2.sustain, 250_000);
}

#[test]
fn velocity_is_clamped_and_scales_output() {
    let mut env = ADSR::new(0, 0, 1_000_000, 0, 100);
    env.on(2_000_000);
    assert_eq!(env.velocity, SCALE_U);
    assert_eq!(env.next_sample(), SCALE_U);
    env.on(500_000);
    assert_eq!(env.next_sample(), 500_000);
    // Velocity scales the sustain level multiplicatively.
    let mut env2 = ADSR::new(0, 0, 700_000, 0, 100);
    env2.on(500_000);
    assert_eq!(env2.next_sample(), 350_000);
}

#[test]
fn off_is_idempotent() {
    let mut env = ADSR::new(0, 0, 800_000, 3_000_000, 10);
    env.on(1_000_000);
    for _ in 0..5 {
        env.next_sample();
    }
    env.off();
    assert_eq!(env.note_off_sample, Some(5));
    for _ in 0..3 {
        env.next_sample();
    }
    env.off();
    assert_eq!(env.note_off_sample, Some(5));
}

#[test]
fn default_envelope_matches_construction() {
    let env = ADSR::default();
    assert_eq!(env.attack, 0);
    assert_eq!(env.decay, 0);
    assert_eq!(env.sustain, SCALE_U);
    assert_eq!(env.release, 0);
    assert_eq!(env.sample_rate, 44100);
    assert_eq!(env.current_sample, 0);
    assert_eq!(env.trigger_sample, 0);
    assert_eq!(env.note_off_sample, None);
    assert_eq!(env.current_amplitude, 0);
    assert_eq!(env.velocity, SCALE_U);
    assert!(!env.is_active());
}

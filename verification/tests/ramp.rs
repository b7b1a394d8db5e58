//! Gain ramps.

use audioware::{ms_to_samples, Ramp, SampleMath};

/// Single-precision arithmetic of the machine.
struct F32Math;

impl SampleMath for F32Math {
    fn plus(&self, a: u32, b: u32) -> u32 {
        w(f(a) + f(b))
    }

    fn minus(&self, a: u32, b: u32) -> u32 {
        w(f(a) - f(b))
    }

    fn times(&self, a: u32, b: u32) -> u32 {
        w(f(a) * f(b))
    }

    fn over(&self, a: u32, b: u32) -> u32 {
        w(f(a) / f(b))
    }

    fn magnitude(&self, a: u32) -> u32 {
        w(f(a).abs())
    }

    fn sign(&self, a: u32) -> u32 {
        w(f(a).signum())
    }

    fn at_most(&self, a: u32, b: u32) -> bool {
        f(a) <= f(b)
    }

    fn of_count(&self, n: u32) -> u32 {
        w(n as f32)
    }

    fn of_pcm16(&self, n: i16) -> u32 {
        w(n as f32)
    }

    fn to_count(&self, a: u32) -> u32 {
        f(a).round() as u32
    }
}

/// The word of a number.
fn w(x: f32) -> u32 {
    x.to_bits()
}

/// The number of a word.
fn f(x: u32) -> f32 {
    f32::from_bits(x)
}

#[test]
fn new_has_no_pending_ramp() {
    let ramp = Ramp::new(w(0.5));
    assert_eq!(f(ramp.value()), 0.5);
    assert!(ramp.is_settled());
}

#[test]
fn linear_ramp_reaches_target_exactly_after_n_samples() {
    let mut ramp = Ramp::new(w(0.0));
    ramp.set_target(&F32Math, w(1.0), 4);
    let values: Vec<f32> = (0..4).map(|_| f(ramp.advance(&F32Math))).collect();
    assert_eq!(values, vec![0.25, 0.5, 0.75, 1.0]);
    assert!(ramp.is_settled());

    assert_eq!(f(ramp.advance(&F32Math)), 1.0);
}

#[test]
fn zero_duration_ramp_is_immediate() {
    let mut ramp = Ramp::new(w(0.2));
    ramp.set_target(&F32Math, w(0.9), 0);
    assert!(ramp.is_settled());
    assert_eq!(f(ramp.advance(&F32Math)), 0.9);
}

#[test]
fn ramp_to_zero_never_jumps_discontinuously() {
    let mut ramp = Ramp::new(w(1.0));
    ramp.set_target(&F32Math, w(0.0), 8);
    let mut prev = 1.0f32;
    for _ in 0..8 {
        let v = f(ramp.advance(&F32Math));
        assert!(
            v <= prev,
            "ramp toward 0 must be monotonically non-increasing"
        );
        assert!(
            (prev - v).abs() <= 0.125 + f32::EPSILON,
            "step must not exceed 1/8"
        );
        prev = v;
    }
    assert_eq!(prev, 0.0);
}

#[test]
fn ms_to_samples_default_five_ms_at_48k() {
    assert_eq!(ms_to_samples(&F32Math, w(5.0), 48_000), 240);
}

#[test]
fn ms_to_samples_zero_is_immediate() {
    assert_eq!(ms_to_samples(&F32Math, w(0.0), 48_000), 0);
    assert_eq!(ms_to_samples(&F32Math, w(-1.0), 48_000), 0);
}

#[test]
fn ms_to_samples_rounds_up_tiny_positive_durations() {
    assert_eq!(ms_to_samples(&F32Math, w(0.001), 8_000), 1);
}

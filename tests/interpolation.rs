use rustland::element::{Property, FIXED_ONE};
use rustland::transition::{SigmoidInterpolator, Transition};

fn sigmoid_samples(n: usize) -> Vec<u32> {
    let s = |z: f32| 1.0 / (1.0 + (-z).exp());
    let (lo, hi) = (s(-6.0), s(6.0));
    (0..n)
        .map(|i| {
            let z = -6.0 + 12.0 * i as f32 / (n - 1) as f32;
            (((s(z) - lo) / (hi - lo)) * FIXED_ONE as f32).round() as u32
        })
        .collect()
}

#[test]
fn numeric_interpolation_test() {
    let iterations = 100;
    let (start_pole, end_pole) = (0i64, 100i64);
    let easing = SigmoidInterpolator { samples: sigmoid_samples(101) }.easing();
    let mut interpolator = Transition::new(0, Property::GapSize, start_pole, end_pole, iterations, 0);

    let mut current_iter = 0;
    loop {
        let pos = interpolator.next(&easing, 1).unwrap();
        if !interpolator.is_ongoing() {
            break;
        }
        if current_iter == iterations / 2 {
            // Sigmoid at x=0
            assert!(pos == end_pole / 2);
        }
        current_iter += 1;
    }
}

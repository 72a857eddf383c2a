use ledband::colour::Rgb;
use ledband::dither::{dither_row, GammaDither};

/// The (floor, up_count) target of one intensity, as the firmware derives it
/// from the gamma curve: gamma-corrected value plus the 0.3 rounding bias.
fn target(intensity: u8, gamma: f64, steps: usize) -> (u8, usize) {
    let gc = 255.0 * (intensity as f64 / 255.0).powf(gamma) + 0.3;
    let floor = gc.trunc() as u8;
    let up = (gc.fract() * steps as f64) as usize;
    (floor, up)
}

fn build_table(gamma: f64, steps: usize) -> GammaDither {
    let mut targets = Vec::new();
    targets.push((0u8, 0usize));
    for i in 1..256usize {
        targets.push(target(i as u8, gamma, steps));
    }
    GammaDither::build(&targets, steps)
}

#[test]
fn row_sum_matches_target_exactly() {
    // The levels of a row sum to floor * steps + up_count exactly.
    for steps in [1usize, 3, 4, 8, 16] {
        for (floor, up) in [(0u8, 0usize), (10, 0), (10, 1), (99, 2), (254, 3)] {
            let up = up.min(steps);
            let row = dither_row(floor, up, steps);
            assert_eq!(row.len(), steps);
            let sum: u32 = row.iter().map(|&v| v as u32).sum();
            assert_eq!(sum, floor as u32 * steps as u32 + up as u32);
        }
    }
}

#[test]
fn mean_tracks_gamma_curve() {
    // For every intensity the mean emitted level is within 1/steps of the
    // biased gamma target, and within 0.3 + 1/steps of the pure gamma curve.
    for (gamma, steps) in [(2.2f64, 4usize), (1.0, 8), (2.8, 16)] {
        for i in 1..256usize {
            let (floor, up) = target(i as u8, gamma, steps);
            let row = dither_row(floor, up, steps);
            let sum: f64 = row.iter().map(|&v| v as f64).sum();
            let mean = sum / steps as f64;
            let biased = 255.0 * (i as f64 / 255.0).powf(gamma) + 0.3;
            let ideal = 255.0 * (i as f64 / 255.0).powf(gamma);
            if biased >= 255.0 {
                // The output level saturates at 255: the mean clamps to the
                // pure curve's own top value.
                assert_eq!(mean, 255.0, "i={i} gamma={gamma} steps={steps}");
            } else {
                assert!(
                    (mean - biased).abs() <= 1.0 / steps as f64 + 1e-9,
                    "i={i} gamma={gamma} steps={steps} mean={mean} biased={biased}"
                );
                assert!((mean - ideal).abs() <= 0.3 + 1.0 / steps as f64 + 1e-9);
            }
        }
    }
}

#[test]
fn exact_row_pattern() {
    // floor 10, one raised slot among four: the accumulator raises the last
    // slot and no other.
    assert_eq!(dither_row(10, 1, 4), vec![10, 10, 10, 11]);
    // Two raised among four spread evenly.
    assert_eq!(dither_row(10, 2, 4), vec![10, 11, 10, 11]);
    // Three raised among four.
    assert_eq!(dither_row(10, 3, 4), vec![11, 11, 10, 11]);
    // All raised.
    assert_eq!(dither_row(10, 4, 4), vec![11, 11, 11, 11]);
    // None raised.
    assert_eq!(dither_row(10, 0, 4), vec![10, 10, 10, 10]);
}

#[test]
fn raised_slots_not_clustered() {
    // 4 raised slots among 12 never sit next to each other.
    let row = dither_row(100, 4, 12);
    let raised: Vec<usize> = row
        .iter()
        .enumerate()
        .filter(|(_, &v)| v == 101)
        .map(|(i, _)| i)
        .collect();
    assert_eq!(raised.len(), 4);
    for w in raised.windows(2) {
        assert!(w[1] - w[0] >= 2, "raised slots clustered: {row:?}");
    }
}

#[test]
fn saturation_at_full_brightness() {
    let row = dither_row(255, 2, 4);
    assert_eq!(row, vec![255, 255, 255, 255]);
}

#[test]
fn build_is_deterministic() {
    let a = build_table(2.2, 4);
    let b = build_table(2.2, 4);
    for i in 0..=255u8 {
        for step in 0..4usize {
            assert_eq!(a.level(i, step), b.level(i, step));
        }
    }
}

#[test]
fn intensity_zero_is_dark() {
    let t = build_table(2.2, 8);
    for step in 0..8 {
        assert_eq!(t.level(0, step), 0);
    }
    // A black pixel stays black in every sub-frame.
    let out = t.dither(3, &vec![Rgb::black()]);
    assert_eq!(out[0], Rgb::new(0, 0, 0));
}

#[test]
fn dither_maps_channels_independently() {
    let t = build_table(2.2, 4);
    let frame = vec![Rgb::new(255, 0, 128), Rgb::new(1, 2, 3)];
    for step in 0..4usize {
        let out = t.dither(step, &frame);
        assert_eq!(out.len(), 2);
        assert_eq!(out[0].r, t.level(255, step));
        assert_eq!(out[0].g, t.level(0, step));
        assert_eq!(out[0].b, t.level(128, step));
        assert_eq!(out[1].r, t.level(1, step));
        assert_eq!(out[1].g, t.level(2, step));
        assert_eq!(out[1].b, t.level(3, step));
    }
}

#[test]
fn dither_is_restartable() {
    // Asking for the same step twice gives the same frame: no hidden state.
    let t = build_table(2.2, 4);
    let frame = vec![Rgb::new(200, 100, 50); 25];
    let first = t.dither(2, &frame);
    let again = t.dither(2, &frame);
    assert_eq!(first, again);
}

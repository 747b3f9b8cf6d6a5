use raytracing::color::{gamma, mean, pixel_bytes, quantize, sky, to_bytes, Rgb, ONE};

#[test]
fn sky_straight_down_is_blue() {
    assert_eq!(sky(-1_000_000), Rgb { r: 500_000, g: 700_000, b: 1_000_000 });
}

#[test]
fn sky_straight_up_is_white() {
    assert_eq!(sky(1_000_000), Rgb { r: ONE, g: ONE, b: ONE });
}

#[test]
fn sky_at_horizon_is_midpoint() {
    assert_eq!(sky(0), Rgb { r: 750_000, g: 850_000, b: 1_000_000 });
}

#[test]
fn sky_blends_linearly() {
    assert_eq!(sky(500_000), Rgb { r: 875_000, g: 925_000, b: 1_000_000 });
    assert_eq!(sky(-500_000), Rgb { r: 625_000, g: 775_000, b: 1_000_000 });
}

#[test]
fn gamma_is_square_root() {
    assert_eq!(gamma(0), 0);
    assert_eq!(gamma(ONE), ONE);
    assert_eq!(gamma(250_000), 500_000);
    assert_eq!(gamma(500_000), 707_106);
    assert_eq!(gamma(1), 1_000);
}

#[test]
fn gamma_saturates_above_one() {
    assert_eq!(gamma(4 * ONE), ONE);
    assert_eq!(gamma(u64::MAX), ONE);
}

#[test]
fn quantize_scales_by_255_999() {
    assert_eq!(quantize(0), 0);
    assert_eq!(quantize(ONE), 255);
    assert_eq!(quantize(500_000), 127);
    assert_eq!(quantize(707_106), 181);
    assert_eq!(quantize(3 * ONE), 255);
}

#[test]
fn sky_colours_as_bytes() {
    assert_eq!(to_bytes(sky(1_000_000)), (255, 255, 255));
    assert_eq!(to_bytes(sky(-1_000_000)), (181, 214, 255));
    assert_eq!(to_bytes(Rgb { r: 0, g: 0, b: 0 }), (0, 0, 0));
}

#[test]
fn bytes_match_float_pipeline_on_sky() {
    for y in [-1_000_000i64, -700_000, -123_456, 0, 333_333, 999_999, 1_000_000] {
        let c = sky(y);
        let (r, g, b) = to_bytes(c);
        for (ch, byte) in [(c.r, r), (c.g, g), (c.b, b)] {
            let x = ch as f64 / 1e6;
            let expected = (x.sqrt().clamp(0.0, 1.0) * 255.999) as u8;
            assert!((byte as i32 - expected as i32).abs() <= 1, "{} {} {}", y, byte, expected);
        }
    }
}

#[test]
fn mean_of_samples_rounds_down() {
    let s = vec![
        Rgb { r: 0, g: 1_000_000, b: 3 },
        Rgb { r: 1_000_000, g: 1_000_000, b: 0 },
        Rgb { r: 500_000, g: 0, b: 0 },
    ];
    assert_eq!(mean(&s), Rgb { r: 500_000, g: 666_666, b: 1 });
    assert_eq!(mean(&vec![Rgb { r: 7, g: 8, b: 9 }]), Rgb { r: 7, g: 8, b: 9 });
}

#[test]
fn pixel_bytes_of_samples() {
    let sky_down = sky(-1_000_000);
    assert_eq!(pixel_bytes(&vec![sky_down; 100]), (181, 214, 255));
    let half = vec![Rgb { r: 0, g: 0, b: 0 }, Rgb { r: ONE, g: ONE, b: ONE }];
    assert_eq!(pixel_bytes(&half), (181, 181, 181));
    let big = vec![Rgb { r: u64::MAX, g: u64::MAX, b: 0 }; 3];
    assert_eq!(pixel_bytes(&big), (255, 255, 0));
}

#[test]
fn same_samples_same_bytes() {
    let s: Vec<Rgb> = (0..100u64).map(|k| Rgb { r: k * 9_999, g: (k * 7_919) % ONE, b: ONE - k }).collect();
    assert_eq!(pixel_bytes(&s), pixel_bytes(&s.clone()));
}

use image::{DynamicImage, GrayImage, Luma, Rgb, RgbImage, Rgba, RgbaImage};
use timelapse::binary32::Binary32;
use timelapse::brightness::{
    brightness_to_color, sum_luminance, BrightnessStep, Measurement, MeanLuminance, Reading, Region,
    StepOutcome, BRIGHT_RED, BRIGHT_YELLOW, DARK_RED, DARK_YELLOW,
};
use timelapse::context::{ComputedValue, ComputedValues, PipelineContext};

fn create_solid_image(r: u8, g: u8, b: u8) -> DynamicImage {
    let img = RgbImage::from_fn(10, 10, |_, _| Rgb([r, g, b]));
    DynamicImage::ImageRgb8(img)
}

fn as_float(mean: Option<MeanLuminance>) -> f32 {
    match mean {
        None => 0.0,
        Some(mean) => (mean.total as f32 / mean.pixels as f32) / 255.0,
    }
}

fn number(value: f32) -> Binary32 {
    Binary32 { bits: value.to_bits() }
}

fn reading(value: f32) -> Reading {
    Reading { value: number(value), text: format!("{value:.2}") }
}

fn context(carried: u32) -> PipelineContext<u32> {
    PipelineContext { carried, computed: ComputedValues::new() }
}

fn stored(values: &ComputedValues, key: &str) -> Option<f32> {
    values.get(key).map(|ComputedValue::Float(value)| f32::from_bits(value.bits))
}

fn execute(img: &DynamicImage, min: f32, max: f32) -> StepOutcome<u32, String> {
    let brightness = as_float(BrightnessStep::calculate_brightness_in_region(img, 0, 0, 10, 10));
    BrightnessStep.execute(context(7), Ok(reading(brightness)), &reading(min), &reading(max))
}

#[test]
fn test_calculate_brightness_black() {
    let img = create_solid_image(0, 0, 0);
    let brightness = as_float(BrightnessStep::calculate_brightness_in_region(&img, 0, 0, 10, 10));
    assert!((brightness - 0.0).abs() < 0.01);
}

#[test]
fn test_calculate_brightness_white() {
    let img = create_solid_image(255, 255, 255);
    let brightness = as_float(BrightnessStep::calculate_brightness_in_region(&img, 0, 0, 10, 10));
    assert!((brightness - 1.0).abs() < 0.01);
}

#[test]
fn test_calculate_brightness_gray() {
    let img = create_solid_image(128, 128, 128);
    let brightness = as_float(BrightnessStep::calculate_brightness_in_region(&img, 0, 0, 10, 10));
    // Should be approximately 0.5
    assert!(brightness > 0.45 && brightness < 0.55);
}

#[test]
fn test_brightness_too_dark() {
    let img = create_solid_image(10, 10, 10); // Very dark
    match execute(&img, 0.2, 0.9) {
        StepOutcome::Skip { reason, .. } => {
            assert_eq!(reason, "too_dark");
        }
        _ => panic!("Expected Skip"),
    }
}

#[test]
fn test_brightness_too_bright() {
    let img = create_solid_image(250, 250, 250); // Very bright
    match execute(&img, 0.1, 0.9) {
        StepOutcome::Skip { reason, .. } => {
            assert_eq!(reason, "too_bright");
        }
        _ => panic!("Expected Skip"),
    }
}

#[test]
fn test_brightness_within_range() {
    let img = create_solid_image(128, 128, 128); // Mid-gray
    match execute(&img, 0.1, 0.9) {
        StepOutcome::Continue(_) => {} // Should pass
        _ => panic!("Expected Continue for mid-range brightness"),
    }
}

#[test]
fn skip_detail_names_brightness_and_limit() {
    match execute(&create_solid_image(10, 10, 10), 0.2, 0.9) {
        StepOutcome::Skip { ctx, detail, .. } => {
            assert_eq!(ctx.carried, 7);
            assert_eq!(detail, Some("0.04 (min: 0.20)".to_string()));
        }
        _ => panic!("expected a skip"),
    }
    match execute(&create_solid_image(250, 250, 250), 0.2, 0.9) {
        StepOutcome::Skip { ctx, detail, .. } => {
            assert_eq!(ctx.carried, 7);
            assert_eq!(detail, Some("0.98 (max: 0.90)".to_string()));
        }
        _ => panic!("expected a skip"),
    }
}

#[test]
fn brightness_at_a_limit_passes() {
    for limits in [(0.5, 0.9), (0.1, 0.5)] {
        let outcome: StepOutcome<u32, String> =
            BrightnessStep.execute(context(1), Ok(reading(0.5)), &reading(limits.0), &reading(limits.1));
        assert!(matches!(outcome, StepOutcome::Continue(ctx) if ctx.carried == 1));
    }
}

#[test]
fn dark_is_decided_before_bright() {
    let outcome: StepOutcome<u32, String> =
        BrightnessStep.execute(context(1), Ok(reading(0.5)), &reading(0.9), &reading(0.1));
    assert!(matches!(outcome, StepOutcome::Skip { reason, .. } if reason == "too_dark"));
}

#[test]
fn brightness_that_is_not_a_number_passes() {
    let outcome: StepOutcome<u32, String> =
        BrightnessStep.execute(context(1), Ok(reading(f32::NAN)), &reading(0.1), &reading(0.9));
    assert!(matches!(outcome, StepOutcome::Continue(ctx) if ctx.carried == 1));
}

#[test]
fn missing_image_is_an_error() {
    let outcome: StepOutcome<u32, String> =
        BrightnessStep.execute(context(1), Err("no image".to_string()), &reading(0.1), &reading(0.9));
    match outcome {
        StepOutcome::Error { ctx, error } => {
            assert_eq!(ctx.carried, 1);
            assert_eq!(stored(&ctx.computed, "brightness"), None);
            assert_eq!(error, "no image");
        }
        _ => panic!("expected an error"),
    }
}

#[test]
fn the_brightness_is_stored() {
    for (value, skipped) in [(0.05f32, true), (0.5, false), (0.95, true)] {
        let mut ctx = context(3);
        ctx.computed.set("blur", ComputedValue::Float(number(7.5)));
        ctx.computed.set("brightness", ComputedValue::Float(number(0.0)));
        let outcome: StepOutcome<u32, String> =
            BrightnessStep.execute(ctx, Ok(reading(value)), &reading(0.1), &reading(0.9));
        let (ctx, was_skipped) = match outcome {
            StepOutcome::Continue(ctx) => (ctx, false),
            StepOutcome::Skip { ctx, .. } => (ctx, true),
            StepOutcome::Error { .. } => panic!("expected no error"),
        };
        assert_eq!(was_skipped, skipped);
        assert_eq!(ctx.carried, 3);
        for key in BrightnessStep.provides() {
            assert_eq!(stored(&ctx.computed, key), Some(value));
        }
        assert_eq!(stored(&ctx.computed, "blur"), Some(7.5));
        assert_eq!(ctx.computed.entries.len(), 2);
    }
}

#[test]
fn computed_values_by_key() {
    let mut values = ComputedValues::new();
    assert_eq!(stored(&values, "a"), None);
    values.set("a", ComputedValue::Float(number(1.0)));
    values.set("b", ComputedValue::Float(number(2.0)));
    values.set("a", ComputedValue::Float(number(3.0)));
    assert_eq!(stored(&values, "a"), Some(3.0));
    assert_eq!(stored(&values, "b"), Some(2.0));
    assert_eq!(stored(&values, "c"), None);
}

#[test]
fn luminance_weighs_the_channels() {
    let red = create_solid_image(255, 0, 0);
    let green = create_solid_image(0, 255, 0);
    let blue = create_solid_image(0, 0, 255);
    let mean = |total: u64| Some(MeanLuminance { total, pixels: 100 });
    let measure = |img: &DynamicImage| {
        BrightnessStep::calculate_brightness_in_region(img, 0, 0, 10, 10)
    };
    assert_eq!(measure(&red), mean(7600));
    assert_eq!(measure(&green), mean(14900));
    assert_eq!(measure(&blue), mean(2900));
}

#[test]
fn only_the_region_counts() {
    let img = RgbImage::from_fn(8, 6, |x, y| {
        let v = (10 * y + x) as u8;
        Rgb([v, v, v])
    });
    let img = DynamicImage::ImageRgb8(img);
    // Columns 2..5 of rows 1..3.
    let mean = BrightnessStep::calculate_brightness_in_region(&img, 2, 1, 5, 3);
    assert_eq!(mean, Some(MeanLuminance { total: 12 + 13 + 14 + 22 + 23 + 24, pixels: 6 }));
}

#[test]
fn coordinates_are_clamped() {
    let img = DynamicImage::ImageRgb8(RgbImage::from_fn(4, 3, |x, y| {
        let v = (10 * y + x) as u8;
        Rgb([v, v, v])
    }));
    let whole = BrightnessStep::calculate_brightness_in_region(&img, 0, 0, 4, 3);
    assert_eq!(BrightnessStep::calculate_brightness_in_region(&img, 0, 0, 99, u32::MAX), whole);
    // A first corner beyond the image falls on its last pixel.
    assert_eq!(
        BrightnessStep::calculate_brightness_in_region(&img, 50, 60, 70, 80),
        Some(MeanLuminance { total: 23, pixels: 1 })
    );
}

#[test]
fn empty_regions_have_no_mean() {
    let img = create_solid_image(9, 9, 9);
    assert_eq!(BrightnessStep::calculate_brightness_in_region(&img, 5, 5, 5, 8), None);
    assert_eq!(BrightnessStep::calculate_brightness_in_region(&img, 8, 2, 3, 9), None);
    let none = DynamicImage::ImageRgb8(RgbImage::new(0, 0));
    assert_eq!(BrightnessStep::calculate_brightness_in_region(&none, 0, 0, 10, 10), None);
    let region = Region { x1: 5, y1: 5, x2: 5, y2: 8 };
    assert_eq!(BrightnessStep::measure(&img, region), Measurement::Empty);
}

#[test]
fn measuring_agrees_with_calculating() {
    let img = create_solid_image(1, 2, 3);
    let region = Region { x1: 1, y1: 2, x2: 7, y2: 30 };
    let mean = BrightnessStep::calculate_brightness_in_region(&img, 1, 2, 7, 30);
    assert_eq!(BrightnessStep::measure(&img, region), Measurement::Mean(mean.unwrap()));
}

#[test]
fn other_pixel_formats_are_converted() {
    let grey = DynamicImage::ImageLuma8(GrayImage::from_fn(5, 4, |x, y| Luma([(x + 7 * y) as u8])));
    let expected: u64 = (1..4u64).flat_map(|y| (2..5u64).map(move |x| x + 7 * y)).sum();
    assert_eq!(
        BrightnessStep::calculate_brightness_in_region(&grey, 2, 1, 5, 4),
        Some(MeanLuminance { total: expected, pixels: 9 })
    );
    let clear = DynamicImage::ImageRgba8(RgbaImage::from_pixel(3, 3, Rgba([50, 50, 50, 0])));
    assert_eq!(
        BrightnessStep::calculate_brightness_in_region(&clear, 0, 0, 3, 3),
        Some(MeanLuminance { total: 450, pixels: 9 })
    );
}

#[test]
fn spare_bytes_of_a_buffer_do_not_count() {
    let img = RgbImage::from_raw(1, 2, vec![10, 10, 10, 20, 20, 20, 255, 255, 255, 255]).unwrap();
    assert_eq!(
        BrightnessStep::calculate_brightness_in_region(&DynamicImage::ImageRgb8(img), 0, 0, 1, 2),
        Some(MeanLuminance { total: 30, pixels: 2 })
    );
}

#[test]
fn sums_whole_pixels_only() {
    assert_eq!(sum_luminance(&[]), 0);
    assert_eq!(sum_luminance(&[100, 150, 200]), (29900 + 88050 + 22800) / 1000);
    assert_eq!(sum_luminance(&[5, 5, 5, 6, 6, 6, 9, 9]), 11);
}

#[test]
fn grey_levels_are_kept() {
    for level in 0..=255u8 {
        assert_eq!(sum_luminance(&[level, level, level, level, level, level]), 2 * level as u64);
    }
}

#[test]
fn brighter_pixels_are_not_darker() {
    let darker = sum_luminance(&[1, 2, 3, 100, 100, 99]);
    let brighter = sum_luminance(&[1, 3, 3, 101, 100, 250]);
    assert!(darker <= brighter);
}

#[test]
fn threshold_bits_are_the_decimal_numbers() {
    assert_eq!(DARK_RED, 0.15f32.to_bits());
    assert_eq!(BRIGHT_RED, 0.85f32.to_bits());
    assert_eq!(DARK_YELLOW, 0.25f32.to_bits());
    assert_eq!(BRIGHT_YELLOW, 0.75f32.to_bits());
}

#[test]
fn colors_of_brightness() {
    let (red, yellow, green) = ((255, 80, 80), (255, 200, 80), (80, 255, 80));
    for (brightness, color) in [
        (-1.0, red),
        (0.0, red),
        (0.1499, red),
        (0.15, yellow),
        (0.2499, yellow),
        (0.25, green),
        (0.5, green),
        (0.75, green),
        (0.7501, yellow),
        (0.85, yellow),
        (0.8501, red),
        (1.0, red),
        (f32::INFINITY, red),
        (f32::NAN, red),
    ] {
        assert_eq!(brightness_to_color(number(brightness)), color);
    }
}

#[test]
fn comparisons_agree_with_floating_point() {
    let numbers = [
        0.0f32,
        -0.0,
        f32::from_bits(1),
        -f32::from_bits(1),
        f32::MIN_POSITIVE,
        1.0e-40,
        0.1,
        0.25,
        1.0,
        -1.0,
        1.0000001,
        -0.3,
        1.0e30,
        -1.0e30,
        f32::MAX,
        f32::MIN,
        f32::INFINITY,
        f32::NEG_INFINITY,
        f32::NAN,
        -f32::NAN,
    ];
    for a in numbers {
        for b in numbers {
            assert_eq!(number(a).less_than(number(b)), a < b);
            for c in numbers {
                assert_eq!(number(a).lies_between(number(b), number(c)), (b..=c).contains(&a));
            }
        }
    }
}

#[test]
fn names_of_the_step() {
    assert_eq!(BrightnessStep.id(), "brightness");
    assert_eq!(BrightnessStep.name(), "Brightness Check");
    assert_eq!(BrightnessStep.provides(), vec!["brightness"]);
}

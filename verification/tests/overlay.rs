use image::{DynamicImage, GenericImageView, Rgb, RgbImage};
use timelapse::binary32::Binary32;
use timelapse::brightness::{BrightnessStep, Reading, Region};
use timelapse::overlay::OverlayLayout;

fn photo(width: u32, height: u32) -> RgbImage {
    RgbImage::from_fn(width, height, |x, y| Rgb([(x * 3) as u8, (y * 5) as u8, (x + y) as u8]))
}

fn reading(value: f32) -> Reading {
    Reading { value: Binary32 { bits: value.to_bits() }, text: format!("{value:.2}") }
}

/// The overlay, drawn pixel by pixel.
fn draw(photo: &RgbImage, layout: OverlayLayout, fill_color: Rgb<u8>) -> RgbImage {
    let mut img = photo.clone();
    let (width, height) = img.dimensions();
    let Region { x1, y1, x2, y2 } = layout.face;
    let cyan = Rgb([0, 255, 255]);
    for t in 0..2 {
        for x in x1..x2 {
            if y1 + t < height {
                img.put_pixel(x, y1 + t, cyan);
            }
            if y2 > t && y2 - t - 1 < height {
                img.put_pixel(x, y2 - t - 1, cyan);
            }
        }
        for y in y1..y2 {
            if x1 + t < width {
                img.put_pixel(x1 + t, y, cyan);
            }
            if x2 > t && x2 - t - 1 < width {
                img.put_pixel(x2 - t - 1, y, cyan);
            }
        }
    }
    let bar_y = height.saturating_sub(20);
    let bar_x = (width - layout.bar_width) / 2;
    for y in bar_y..height {
        for x in 0..width {
            img.put_pixel(x, y, Rgb([40, 40, 40]));
        }
    }
    let (top, right) = (bar_y + 4, bar_x + layout.bar_width);
    for x in bar_x..right {
        img.put_pixel(x, top, Rgb([200, 200, 200]));
        img.put_pixel(x, top + 11, Rgb([200, 200, 200]));
    }
    for y in top..top + 12 {
        img.put_pixel(bar_x, y, Rgb([200, 200, 200]));
        img.put_pixel(right - 1, y, Rgb([200, 200, 200]));
    }
    for y in top + 2..top + 10 {
        for x in bar_x + 2..bar_x + 2 + layout.fill_width {
            if x < width {
                img.put_pixel(x, y, fill_color);
            }
        }
    }
    img
}

fn check(width: u32, height: u32, layout: OverlayLayout, brightness: f32, fill: [u8; 3]) {
    let base = photo(width, height);
    let view = BrightnessStep
        .debug_visualize(
            Some(&DynamicImage::ImageRgb8(base.clone())),
            Some(&reading(brightness)),
            layout,
        )
        .unwrap();
    let shown = RgbImage::from_raw(view.width, view.height, view.bytes).unwrap();
    assert_eq!(shown, draw(&base, layout, Rgb(fill)));
    assert_eq!(view.label, format!("B:{brightness:.2}"));
    assert_eq!((view.label_x, view.label_y), (5, height.saturating_sub(20) + 6));
    assert_eq!(view.label_color, (255, 255, 255));
}

#[test]
fn overlay_of_a_photo() {
    let face = Region { x1: 6, y1: 5, x2: 21, y2: 17 };
    check(40, 50, OverlayLayout { face, bar_width: 32, fill_width: 14 }, 0.5, [80, 255, 80]);
    check(40, 50, OverlayLayout { face, bar_width: 32, fill_width: 0 }, 0.01, [255, 80, 80]);
    check(40, 50, OverlayLayout { face, bar_width: 31, fill_width: 22 }, 0.8, [255, 200, 80]);
}

#[test]
fn overlay_of_a_whole_image() {
    let face = Region { x1: 0, y1: 0, x2: 30, y2: 40 };
    check(30, 40, OverlayLayout { face, bar_width: 24, fill_width: 20 }, 0.7, [80, 255, 80]);
}

#[test]
fn overlay_of_the_smallest_image() {
    let face = Region { x1: 1, y1: 1, x2: 2, y2: 2 };
    check(5, 16, OverlayLayout { face, bar_width: 4, fill_width: 0 }, 0.3, [80, 255, 80]);
}

#[test]
fn overlay_of_a_region_off_the_image() {
    let gone = Region { x1: 100, y1: 100, x2: 120, y2: 130 };
    check(40, 50, OverlayLayout { face: gone, bar_width: 32, fill_width: 3 }, 0.5, [80, 255, 80]);
    let nothing = Region { x1: 9, y1: 9, x2: 9, y2: 9 };
    check(40, 50, OverlayLayout { face: nothing, bar_width: 32, fill_width: 3 }, 0.5, [80, 255, 80]);
}

#[test]
fn a_wide_fill_is_cut_at_the_image() {
    let face = Region { x1: 2, y1: 2, x2: 8, y2: 8 };
    check(30, 30, OverlayLayout { face, bar_width: 20, fill_width: 99 }, 0.5, [80, 255, 80]);
}

#[test]
fn the_image_shows_through() {
    let base = photo(40, 50);
    let face = Region { x1: 6, y1: 5, x2: 21, y2: 17 };
    let layout = OverlayLayout { face, bar_width: 32, fill_width: 14 };
    let view = BrightnessStep
        .debug_visualize(
            Some(&DynamicImage::ImageRgb8(base.clone())),
            Some(&reading(0.5)),
            layout,
        )
        .unwrap();
    let shown = RgbImage::from_raw(view.width, view.height, view.bytes).unwrap();
    for (x, y) in [(0, 0), (10, 10), (39, 29), (21, 5), (6, 17)] {
        assert_eq!(shown.get_pixel(x, y), base.get_pixel(x, y));
    }
}

#[test]
fn drawing_twice_changes_nothing() {
    let face = Region { x1: 6, y1: 5, x2: 21, y2: 17 };
    let layout = OverlayLayout { face, bar_width: 32, fill_width: 14 };
    let once = BrightnessStep
        .debug_visualize(
            Some(&DynamicImage::ImageRgb8(photo(40, 50))),
            Some(&reading(0.5)),
            layout,
        )
        .unwrap();
    let again = DynamicImage::ImageRgb8(RgbImage::from_raw(40, 50, once.bytes.clone()).unwrap());
    assert_eq!(again.dimensions(), (40, 50));
    let twice = BrightnessStep.debug_visualize(Some(&again), Some(&reading(0.5)), layout).unwrap();
    assert_eq!(once.bytes, twice.bytes);
}

#[test]
fn nothing_to_show_without_image_or_brightness() {
    let face = Region { x1: 0, y1: 0, x2: 1, y2: 1 };
    let layout = OverlayLayout { face, bar_width: 32, fill_width: 14 };
    let image = DynamicImage::ImageRgb8(photo(40, 50));
    assert!(BrightnessStep.debug_visualize(None, Some(&reading(0.5)), layout).is_none());
    assert!(BrightnessStep.debug_visualize(Some(&image), None, layout).is_none());
    assert!(BrightnessStep.debug_visualize(None, None, layout).is_none());
    assert!(BrightnessStep.try_debug_visualize(None, None, layout).unwrap().is_none());
}

#[test]
fn what_fits_on_an_image() {
    let face = Region { x1: 6, y1: 5, x2: 21, y2: 17 };
    let layout = OverlayLayout { face, bar_width: 32, fill_width: 14 };
    assert!(layout.fits_on(40, 50));
    assert!(!layout.fits_on(31, 50));
    assert!(!layout.fits_on(20, 50));
    assert!(!layout.fits_on(40, 15));
    assert!(!OverlayLayout { bar_width: 3, ..layout }.fits_on(40, 50));
    assert!(!OverlayLayout { fill_width: u32::MAX, ..layout }.fits_on(40, 50));
    let wide = Region { x1: 6, y1: 5, x2: 41, y2: 17 };
    assert!(!OverlayLayout { face: wide, ..layout }.fits_on(40, 50));
    let tall = Region { x1: 6, y1: 5, x2: 21, y2: 51 };
    assert!(!OverlayLayout { face: tall, ..layout }.fits_on(40, 50));
}

#[test]
fn a_misfit_is_told() {
    let face = Region { x1: 6, y1: 5, x2: 41, y2: 17 };
    let layout = OverlayLayout { face, bar_width: 32, fill_width: 14 };
    let image = DynamicImage::ImageRgb8(photo(40, 50));
    let refused = BrightnessStep.try_debug_visualize(Some(&image), Some(&reading(0.5)), layout);
    assert_eq!(refused.err(), Some(layout));
    assert!(BrightnessStep.try_debug_visualize(Some(&image), None, layout).unwrap().is_none());
}

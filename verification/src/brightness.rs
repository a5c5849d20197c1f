//! Brightness validation: how bright a face region is, and whether that is acceptable.

use crate::binary32::Binary32;
use crate::context::{ComputedValue, PipelineContext};
use crate::imaging::{crop_imm, dimensions, to_rgb8};
use image::DynamicImage;
use vstd::prelude::*;
use vstd::slice::slice_subrange;

verus! {

/// Validates image brightness and skips images outside the acceptable range.
pub struct BrightnessStep;

/// The luminance of a region, summed over its pixels. Its brightness is the mean luminance as a
/// share of 255, the luminance of white.
#[derive(Clone, Copy, Debug, PartialEq, Eq, Structural)]
pub struct MeanLuminance {
    pub total: u64,
    pub pixels: u64,
}

/// What measuring a region gives.
#[derive(Clone, Copy, Debug, PartialEq, Eq, Structural)]
pub enum Measurement {
    /// The region holds no pixel of the image; its brightness is zero.
    Empty,
    Mean(MeanLuminance),
    /// The region has more pixels than can be converted and summed.
    TooLarge,
}

/// The luminance of a pixel, 0.299 R + 0.587 G + 0.114 B, rounded down.
pub open spec fn luminance(pixel: (u8, u8, u8)) -> nat {
    ((299 * pixel.0 + 587 * pixel.1 + 114 * pixel.2) / 1000) as nat
}

pub open spec fn total_luminance(pixels: Seq<(u8, u8, u8)>) -> nat
    decreases pixels.len(),
{
    if pixels.len() == 0 {
        0
    } else {
        total_luminance(pixels.drop_last()) + luminance(pixels.last())
    }
}

/// A rectangle in pixels. The right and lower edges do not belong to it.
#[derive(Clone, Copy, Debug, PartialEq, Eq, Structural)]
pub struct Region {
    pub x1: u32,
    pub y1: u32,
    pub x2: u32,
    pub y2: u32,
}

pub open spec fn min(a: int, b: int) -> int {
    if a <= b {
        a
    } else {
        b
    }
}

impl Region {
    /// The region clamped to an image of the given size. The first corner stays on a pixel of the
    /// image where there is one.
    pub open spec fn clamped(self, width: u32, height: u32) -> Region {
        Region {
            x1: min(self.x1 as int, if width == 0 { 0 } else { width - 1 }) as u32,
            y1: min(self.y1 as int, if height == 0 { 0 } else { height - 1 }) as u32,
            x2: min(self.x2 as int, width as int) as u32,
            y2: min(self.y2 as int, height as int) as u32,
        }
    }

    pub open spec fn is_empty(self) -> bool {
        self.x2 <= self.x1 || self.y2 <= self.y1
    }

    /// The number of pixels of a region that is not empty.
    pub open spec fn area(self) -> int {
        (self.x2 - self.x1) * (self.y2 - self.y1)
    }

    /// Whether the region's pixels fit in a vector of bytes and their luminance in 64 bits.
    pub open spec fn measurable(self) -> bool {
        !self.is_empty() ==> 3 * self.area() <= isize::MAX && 255 * self.area() <= u64::MAX
    }

    fn clamp(self, width: u32, height: u32) -> (clamped: Region)
        ensures
            clamped == self.clamped(width, height),
    {
        let last_x: u32 = if width == 0 { 0 } else { width - 1 };
        let last_y: u32 = if height == 0 { 0 } else { height - 1 };
        Region {
            x1: if self.x1 <= last_x { self.x1 } else { last_x },
            y1: if self.y1 <= last_y { self.y1 } else { last_y },
            x2: if self.x2 <= width { self.x2 } else { width },
            y2: if self.y2 <= height { self.y2 } else { height },
        }
    }
}

/// The pixels that the brightness of a region of an image is measured on.
pub open spec fn measured_pixels(image: DynamicImage, region: Region) -> Seq<(u8, u8, u8)> {
    let (width, height) = crate::imaging::image_size(image);
    let inside = region.clamped(width, height);
    crate::imaging::rectangle(
        crate::imaging::image_pixels(image),
        width as int,
        inside.x1 as int,
        inside.y1 as int,
        inside.x2 - inside.x1,
        inside.y2 - inside.y1,
    )
}

/// The sum of the luminances of the pixels that `bytes` holds, three bytes each.
pub fn sum_luminance(bytes: &[u8]) -> (total: u64)
    requires
        255 * (bytes@.len() / 3) <= u64::MAX,
    ensures
        total == total_luminance(crate::imaging::rgb_triples(bytes@)),
{
    let ghost pixels = crate::imaging::rgb_triples(bytes@);
    let length: usize = bytes.len();
    let count: usize = length / 3;
    let mut total: u64 = 0;
    let mut i: usize = 0;
    while i < count
        invariant
            i <= count,
            length == bytes@.len(),
            count == length / 3,
            pixels == crate::imaging::rgb_triples(bytes@),
            255 * count <= u64::MAX,
            total == total_luminance(pixels.take(i as int)),
            total <= 255 * i,
        decreases count - i,
    {
        let red: u64 = bytes[3 * i] as u64;
        let green: u64 = bytes[3 * i + 1] as u64;
        let blue: u64 = bytes[3 * i + 2] as u64;
        proof {
            assert(pixels.take(i + 1).drop_last() =~= pixels.take(i as int));
            assert(pixels.take(i + 1).last() == pixels[i as int]);
        }
        total = total + (299 * red + 587 * green + 114 * blue) / 1000;
        i = i + 1;
    }
    proof {
        assert(pixels.take(count as int) =~= pixels);
    }
    total
}

impl BrightnessStep {
    /// Calculates the average brightness of a region of an image, as the summed luminance and
    /// the number of pixels; `None` where the region, clamped to the image, is empty, and its
    /// brightness zero.
    pub fn calculate_brightness_in_region(
        image: &DynamicImage,
        x1: u32,
        y1: u32,
        x2: u32,
        y2: u32,
    ) -> (mean: Option<MeanLuminance>)
        requires
            (Region { x1, y1, x2, y2 }).clamped(
                crate::imaging::image_size(*image).0,
                crate::imaging::image_size(*image).1,
            ).measurable(),
        ensures
            ({
                let region = Region { x1, y1, x2, y2 };
                let (width, height) = crate::imaging::image_size(*image);
                let inside = region.clamped(width, height);
                match mean {
                    None => inside.is_empty(),
                    Some(mean) => {
                        &&& !inside.is_empty()
                        &&& mean.pixels == inside.area()
                        &&& mean.total == total_luminance(measured_pixels(*image, region))
                        &&& mean.total <= 255 * mean.pixels
                    },
                }
            }),
    {
        let (img_width, img_height) = dimensions(image);
        let inside = (Region { x1, y1, x2, y2 }).clamp(img_width, img_height);
        if inside.x2 <= inside.x1 || inside.y2 <= inside.y1 {
            return None;
        }
        let width: u32 = inside.x2 - inside.x1;
        let height: u32 = inside.y2 - inside.y1;
        assert(width <= width * height && 0 < width * height) by (nonlinear_arith)
            requires
                0 < width,
                0 < height,
        ;
        let pixel_count: u64 = width as u64 * height as u64;
        let bytes = to_rgb8(&crop_imm(image, inside.x1, inside.y1, width, height)).into_raw();
        let rgb = slice_subrange(bytes.as_slice(), 0, 3 * pixel_count as usize);
        proof {
            assert(rgb@ =~= bytes@.take(3 * pixel_count as int));
            luminance_within_white(crate::imaging::rgb_triples(rgb@));
        }
        Some(MeanLuminance { total: sum_luminance(rgb), pixels: pixel_count })
    }

    /// Measures a region of any size: the same as `calculate_brightness_in_region` where the
    /// region can be measured.
    pub fn measure(image: &DynamicImage, region: Region) -> (measurement: Measurement)
        ensures
            ({
                let (width, height) = crate::imaging::image_size(*image);
                let inside = region.clamped(width, height);
                match measurement {
                    Measurement::Empty => inside.is_empty(),
                    Measurement::TooLarge => !inside.measurable(),
                    Measurement::Mean(mean) => {
                        &&& inside.measurable() && !inside.is_empty()
                        &&& mean.pixels == inside.area()
                        &&& mean.total == total_luminance(measured_pixels(*image, region))
                        &&& mean.total <= 255 * mean.pixels
                    },
                }
            }),
    {
        let (img_width, img_height) = dimensions(image);
        let inside = region.clamp(img_width, img_height);
        if inside.x2 <= inside.x1 || inside.y2 <= inside.y1 {
            return Measurement::Empty;
        }
        let (width, height): (u32, u32) = (inside.x2 - inside.x1, inside.y2 - inside.y1);
        assert(0 < width * height <= u32::MAX * u32::MAX) by (nonlinear_arith)
            requires
                0 < width,
                0 < height,
        ;
        let pixel_count: u128 = width as u128 * height as u128;
        if 3 * pixel_count > isize::MAX as u128 || 255 * pixel_count > u64::MAX as u128 {
            return Measurement::TooLarge;
        }
        match Self::calculate_brightness_in_region(image, region.x1, region.y1, region.x2, region.y2) {
            Some(mean) => Measurement::Mean(mean),
            None => Measurement::Empty,
        }
    }

    /// The identifier of the step.
    pub fn id(&self) -> (id: &'static str)
        ensures
            id@ == "brightness"@,
    {
        "brightness"
    }

    /// The name of the step, for people.
    pub fn name(&self) -> (name: &'static str)
        ensures
            name@ == "Brightness Check"@,
    {
        "Brightness Check"
    }

    /// The keys of the values that the step computes.
    pub fn provides(&self) -> (keys: Vec<&'static str>)
        ensures
            keys@.map_values(|key: &'static str| key@) == provided_keys(),
    {
        let keys = vec!["brightness"];
        proof {
            assert(keys@.map_values(|key: &'static str| key@) =~= provided_keys());
        }
        keys
    }

    /// Decides what becomes of an image, given its brightness or the reason why there is none:
    /// an image that is too dark or too bright is skipped. The brightness is stored in the
    /// context, whether the image goes on or is skipped; nothing else of the context changes.
    pub fn execute<C, E>(
        &self,
        ctx: PipelineContext<C>,
        brightness: Result<Reading, E>,
        min_brightness: &Reading,
        max_brightness: &Reading,
    ) -> (outcome: StepOutcome<C, E>)
        ensures
            match brightness {
                Err(error) => outcome == (StepOutcome::Error { ctx, error }),
                Ok(reading) => if reading.value.less(min_brightness.value) {
                    &&& outcome.skips(
                        "too_dark"@,
                        reading.text@ + " (min: "@ + min_brightness.text@ + ")"@,
                    )
                    &&& stores(ctx, outcome.context(), reading.value)
                } else if max_brightness.value.less(reading.value) {
                    &&& outcome.skips(
                        "too_bright"@,
                        reading.text@ + " (max: "@ + max_brightness.text@ + ")"@,
                    )
                    &&& stores(ctx, outcome.context(), reading.value)
                } else {
                    &&& outcome is Continue
                    &&& stores(ctx, outcome.context(), reading.value)
                },
            },
    {
        let mut ctx = ctx;
        let reading = match brightness {
            Ok(reading) => reading,
            Err(error) => return StepOutcome::Error { ctx, error },
        };
        ctx.computed.set("brightness", ComputedValue::Float(reading.value));
        if reading.value.less_than(min_brightness.value) {
            let detail = limit_detail(&reading.text, " (min: ", &min_brightness.text);
            return StepOutcome::Skip { ctx, reason: "too_dark".to_owned(), detail: Some(detail) };
        }
        if max_brightness.value.less_than(reading.value) {
            let detail = limit_detail(&reading.text, " (max: ", &max_brightness.text);
            return StepOutcome::Skip { ctx, reason: "too_bright".to_owned(), detail: Some(detail) };
        }
        StepOutcome::Continue(ctx)
    }
}

/// The keys of the values that the step computes.
pub open spec fn provided_keys() -> Seq<Seq<char>> {
    seq!["brightness"@]
}

/// Whether `after` is the context `before` with a brightness stored in it.
pub open spec fn stores<C>(
    before: PipelineContext<C>,
    after: PipelineContext<C>,
    brightness: Binary32,
) -> bool {
    &&& after.carried == before.carried
    &&& after.computed@ == before.computed@.insert(
        "brightness"@,
        ComputedValue::Float(brightness),
    )
}

/// A number together with its text, rounded to two decimals.
#[derive(Debug)]
pub struct Reading {
    pub value: Binary32,
    pub text: String,
}

/// What a step makes of an image.
#[derive(Debug)]
pub enum StepOutcome<C, E> {
    Continue(PipelineContext<C>),
    Skip { ctx: PipelineContext<C>, reason: String, detail: Option<String> },
    Error { ctx: PipelineContext<C>, error: E },
}

impl<C, E> StepOutcome<C, E> {
    /// The context that travels on.
    pub open spec fn context(self) -> PipelineContext<C> {
        match self {
            StepOutcome::Continue(ctx) => ctx,
            StepOutcome::Skip { ctx, .. } => ctx,
            StepOutcome::Error { ctx, .. } => ctx,
        }
    }

    /// Whether the image is skipped for the given reason and detail.
    pub open spec fn skips(self, why: Seq<char>, more: Seq<char>) -> bool {
        match self {
            StepOutcome::Skip { reason, detail: Some(detail), .. } => {
                reason@ == why && detail@ == more
            },
            _ => false,
        }
    }
}

fn limit_detail(brightness: &String, label: &str, limit: &String) -> (detail: String)
    ensures
        detail@ == brightness@ + label@ + limit@ + ")"@,
{
    let mut detail = brightness.clone();
    detail.append(label);
    detail.append(limit.as_str());
    detail.append(")");
    detail
}

/// The bits of 0.15 in binary32.
pub const DARK_RED: u32 = 0x3e19_999a;

/// The bits of 0.85 in binary32.
pub const BRIGHT_RED: u32 = 0x3f59_999a;

/// The bits of 0.25 in binary32.
pub const DARK_YELLOW: u32 = 0x3e80_0000;

/// The bits of 0.75 in binary32.
pub const BRIGHT_YELLOW: u32 = 0x3f40_0000;

/// Whether a brightness lies in the range from 0.15 to 0.85.
pub open spec fn in_outer_range(brightness: Binary32) -> bool {
    brightness.between(Binary32 { bits: DARK_RED }, Binary32 { bits: BRIGHT_RED })
}

/// Whether a brightness lies in the range from 0.25 to 0.75.
pub open spec fn in_inner_range(brightness: Binary32) -> bool {
    brightness.between(Binary32 { bits: DARK_YELLOW }, Binary32 { bits: BRIGHT_YELLOW })
}

/// The colour that stands for a brightness: red for very dark or very bright and for what is not
/// a number, green for the middle range, yellow between the two.
pub open spec fn color_of(brightness: Binary32) -> (u8, u8, u8) {
    if !in_outer_range(brightness) {
        (255, 80, 80)
    } else if !in_inner_range(brightness) {
        (255, 200, 80)
    } else {
        (80, 255, 80)
    }
}

/// Converts a brightness to a colour.
pub fn brightness_to_color(brightness: Binary32) -> (color: (u8, u8, u8))
    ensures
        color == color_of(brightness),
{
    if !brightness.lies_between(Binary32 { bits: DARK_RED }, Binary32 { bits: BRIGHT_RED }) {
        (255, 80, 80)
    } else if !brightness.lies_between(
        Binary32 { bits: DARK_YELLOW },
        Binary32 { bits: BRIGHT_YELLOW },
    ) {
        (255, 200, 80)
    } else {
        (80, 255, 80)
    }
}

/// The luminance of a grey pixel is its grey level.
pub proof fn grey_luminance(level: u8)
    ensures
        luminance((level, level, level)) == level,
{
}

/// No luminance exceeds that of white, so the brightness of a region lies between zero, for
/// black, and one, for white.
pub proof fn luminance_within_white(pixels: Seq<(u8, u8, u8)>)
    ensures
        0 <= total_luminance(pixels) <= 255 * pixels.len(),
    decreases pixels.len(),
{
    if pixels.len() > 0 {
        luminance_within_white(pixels.drop_last());
    }
}

/// The mean luminance of a region of one grey level is that level: zero where the region is
/// black, 255 where it is white.
pub proof fn uniform_grey_luminance(pixels: Seq<(u8, u8, u8)>, level: u8)
    requires
        forall|i: int| 0 <= i < pixels.len() ==> pixels[i] == (level, level, level),
    ensures
        total_luminance(pixels) == level * pixels.len(),
    decreases pixels.len(),
{
    if pixels.len() > 0 {
        uniform_grey_luminance(pixels.drop_last(), level);
        assert(level * pixels.len() == level * (pixels.len() - 1) + level) by (nonlinear_arith);
    }
}

/// Making pixels brighter in every channel never lowers the luminance.
pub proof fn luminance_is_monotone(darker: Seq<(u8, u8, u8)>, brighter: Seq<(u8, u8, u8)>)
    requires
        darker.len() == brighter.len(),
        forall|i: int|
            0 <= i < darker.len() ==> (#[trigger] darker[i]).0 <= brighter[i].0 && darker[i].1
                <= brighter[i].1 && darker[i].2 <= brighter[i].2,
    ensures
        total_luminance(darker) <= total_luminance(brighter),
    decreases darker.len(),
{
    if darker.len() > 0 {
        let last = darker.len() - 1;
        luminance_is_monotone(darker.drop_last(), brighter.drop_last());
        assert(darker[last].0 <= brighter[last].0);
    }
}

/// Coordinates outside the image count as if they had been clamped to it.
pub proof fn clamping_is_idempotent(region: Region, width: u32, height: u32)
    ensures
        region.clamped(width, height).clamped(width, height) == region.clamped(width, height),
{
}

/// A region clamped to an image lies in it.
pub proof fn clamped_region_is_inside(region: Region, width: u32, height: u32)
    ensures
        region.clamped(width, height).x1 <= width,
        region.clamped(width, height).y1 <= height,
        region.clamped(width, height).x2 <= width,
        region.clamped(width, height).y2 <= height,
{
}

/// With limits in order, no brightness is both too dark and too bright.
pub proof fn limits_exclude_each_other(brightness: Binary32, min: Binary32, max: Binary32)
    requires
        !max.less(min),
    ensures
        !(brightness.less(min) && max.less(brightness)),
{
}

/// The colour is green exactly in the inner range, and red exactly outside the outer range.
pub proof fn colors_tell_the_ranges_apart(brightness: Binary32)
    ensures
        color_of(brightness) == (80u8, 255u8, 80u8) <==> in_inner_range(brightness),
        color_of(brightness) == (255u8, 80u8, 80u8) <==> !in_outer_range(
            brightness,
        ),
{
    crate::binary32::lemma_magnitude_orders(Binary32 { bits: DARK_RED }, Binary32 { bits: DARK_YELLOW });
    crate::binary32::lemma_magnitude_orders(Binary32 { bits: BRIGHT_YELLOW }, Binary32 { bits: BRIGHT_RED });
}

/// The keys that the step provides are exactly those that it stores a value under: after it ran,
/// each of them holds the brightness, and every other key is as it was before.
pub proof fn step_stores_what_it_provides<C>(
    before: PipelineContext<C>,
    after: PipelineContext<C>,
    brightness: Binary32,
    key: Seq<char>,
)
    requires
        stores(before, after, brightness),
    ensures
        provided_keys().contains(key) ==> {
            &&& after.computed@.contains_key(key)
            &&& after.computed@[key] == ComputedValue::Float(brightness)
        },
        !provided_keys().contains(key) ==> {
            &&& after.computed@.contains_key(key) <==> before.computed@.contains_key(key)
            &&& after.computed@[key] == before.computed@[key]
        },
{
    assert(provided_keys()[0] == "brightness"@);
}

/// A thousand times the luminance of a pixel is the weighted sum of its channels, rounded down to
/// a thousand.
pub proof fn luminance_weighs_the_channels(red: u8, green: u8, blue: u8)
    ensures
        1000 * luminance((red, green, blue)) <= 299 * red + 587 * green + 114 * blue < 1000
            * luminance((red, green, blue)) + 1000,
{
}

/// The luminance of no pixel is zero, and that of one pixel is its own.
pub proof fn luminance_of_one_pixel(pixel: (u8, u8, u8))
    ensures
        total_luminance(Seq::empty()) == 0,
        total_luminance(seq![pixel]) == (299 * pixel.0 + 587 * pixel.1 + 114 * pixel.2) / 1000,
{
    assert(seq![pixel].drop_last() =~= Seq::empty());
}

/// The luminance of pixels taken together is the sum of the luminances of their parts.
pub proof fn luminance_adds_up(a: Seq<(u8, u8, u8)>, b: Seq<(u8, u8, u8)>)
    ensures
        total_luminance(a + b) == total_luminance(a) + total_luminance(b),
    decreases b.len(),
{
    if b.len() == 0 {
        assert(a + b =~= a);
    } else {
        assert((a + b).drop_last() =~= a + b.drop_last());
        assert((a + b).last() == b.last());
        luminance_adds_up(a, b.drop_last());
    }
}

/// Every pixel counts, wherever it stands: another pixel in its place changes the sum by the
/// difference of the two.
pub proof fn every_pixel_counts(pixels: Seq<(u8, u8, u8)>, i: int, other: (u8, u8, u8))
    requires
        0 <= i < pixels.len(),
    ensures
        total_luminance(pixels.update(i, other)) - total_luminance(pixels) == (299 * other.0 + 587
            * other.1 + 114 * other.2) / 1000 - (299 * pixels[i].0 + 587 * pixels[i].1 + 114
            * pixels[i].2) / 1000,
{
    let (before, after) = (pixels.take(i), pixels.skip(i + 1));
    assert(pixels =~= before + seq![pixels[i]] + after);
    assert(pixels.update(i, other) =~= before + seq![other] + after);
    luminance_adds_up(before + seq![pixels[i]], after);
    luminance_adds_up(before + seq![other], after);
    luminance_adds_up(before, seq![pixels[i]]);
    luminance_adds_up(before, seq![other]);
    luminance_of_one_pixel(pixels[i]);
    luminance_of_one_pixel(other);
}

/// How each corner is clamped: the first to the last pixel at most, the second to the image's
/// edge at most.
pub proof fn corners_are_clamped(region: Region, width: u32, height: u32)
    ensures
        ({
            let inside = region.clamped(width, height);
            &&& region.x1 < width ==> inside.x1 == region.x1
            &&& region.y1 < height ==> inside.y1 == region.y1
            &&& 0 < width <= region.x1 ==> inside.x1 == width - 1
            &&& 0 < height <= region.y1 ==> inside.y1 == height - 1
            &&& width == 0 ==> inside.x1 == 0
            &&& height == 0 ==> inside.y1 == 0
            &&& region.x2 <= width ==> inside.x2 == region.x2
            &&& region.y2 <= height ==> inside.y2 == region.y2
            &&& width <= region.x2 ==> inside.x2 == width
            &&& height <= region.y2 ==> inside.y2 == height
        }),
{
}

/// A region that starts on the image is measured exactly where it lies on the image.
pub proof fn clamping_keeps_the_common_part(region: Region, width: u32, height: u32, x: int, y: int)
    requires
        region.x1 < width,
        region.y1 < height,
    ensures
        ({
            let inside = region.clamped(width, height);
            inside.x1 <= x < inside.x2 && inside.y1 <= y < inside.y2 <==> region.x1 <= x < region.x2
                && region.y1 <= y < region.y2 && x < width && y < height
        }),
{
}

/// A region is empty exactly when one of its sides is, and otherwise has width times height
/// pixels; it can be measured as long as three bytes to a pixel fit in a vector and 255 to a
/// pixel in 64 bits.
pub proof fn regions_have_sides(region: Region)
    ensures
        !region.is_empty() <==> region.x1 < region.x2 && region.y1 < region.y2,
        region.area() == (region.x2 - region.x1) * (region.y2 - region.y1),
        region.is_empty() ==> region.measurable(),
        !region.is_empty() ==> (region.measurable() <==> 3 * ((region.x2 - region.x1) * (region.y2
            - region.y1)) <= isize::MAX && 255 * ((region.x2 - region.x1) * (region.y2
            - region.y1)) <= u64::MAX),
{
}

/// Each place of the clamped region is measured: the pixel of the image there is one of the
/// measured pixels, which stand row after row, and there are no others.
pub proof fn measured_pixels_are_the_region(image: DynamicImage, region: Region, x: int, y: int)
    requires
        ({
            let inside = region.clamped(
                crate::imaging::image_size(image).0,
                crate::imaging::image_size(image).1,
            );
            inside.x1 <= x < inside.x2 && inside.y1 <= y < inside.y2
        }),
    ensures
        ({
            let width = crate::imaging::image_size(image).0;
            let inside = region.clamped(width, crate::imaging::image_size(image).1);
            let columns = inside.x2 - inside.x1;
            let pixels = measured_pixels(image, region);
            &&& pixels.len() == columns * (inside.y2 - inside.y1)
            &&& 0 <= (y - inside.y1) * columns + (x - inside.x1) < pixels.len()
            &&& pixels[(y - inside.y1) * columns + (x - inside.x1)]
                == crate::imaging::image_pixels(image)[y * width + x]
        }),
{
    let (width, height) = crate::imaging::image_size(image);
    let inside = region.clamped(width, height);
    crate::imaging::rectangle_is_a_window(
        crate::imaging::image_pixels(image),
        width as int,
        inside.x1 as int,
        inside.y1 as int,
        inside.x2 - inside.x1,
        inside.y2 - inside.y1,
        x - inside.x1,
        y - inside.y1,
    );
}

/// The colour by the bit pattern of the brightness: green from 0.25 to 0.75, yellow from 0.15 and
/// up to 0.85, red for the rest and for what is negative or no number.
pub proof fn colors_by_bits(brightness: Binary32)
    ensures
        ({
            let bits = brightness.bits;
            let color = color_of(brightness);
            &&& 0x3e80_0000 <= bits <= 0x3f40_0000 <==> color == (80u8, 255u8, 80u8)
            &&& 0x3e19_999a <= bits < 0x3e80_0000 || 0x3f40_0000 < bits <= 0x3f59_999a <==> color
                == (255u8, 200u8, 80u8)
            &&& bits < 0x3e19_999a || 0x3f59_999a < bits <==> color == (255u8, 80u8, 80u8)
        }),
{
    let (dark_red, bright_red) = (Binary32 { bits: 0x3e19_999a }, Binary32 { bits: 0x3f59_999a });
    let (dark, bright) = (Binary32 { bits: 0x3e80_0000 }, Binary32 { bits: 0x3f40_0000 });
    crate::binary32::ranges_are_closed(brightness, dark_red, bright_red);
    crate::binary32::ranges_are_closed(brightness, dark, bright);
    crate::binary32::bits_order_the_numbers(brightness, dark_red);
    crate::binary32::bits_order_the_numbers(bright_red, brightness);
    crate::binary32::bits_order_the_numbers(brightness, dark);
    crate::binary32::bits_order_the_numbers(bright, brightness);
    crate::binary32::bits_order_the_numbers(dark_red, brightness);
    crate::binary32::bits_order_the_numbers(dark, brightness);
}

/// What storing a brightness does: the key `brightness` holds it, every other key and whatever
/// else travels along is as before.
pub proof fn brightness_is_stored_under_its_key<C>(
    before: PipelineContext<C>,
    after: PipelineContext<C>,
    brightness: Binary32,
    key: Seq<char>,
)
    requires
        stores(before, after, brightness),
    ensures
        after.carried == before.carried,
        after.computed@.contains_key("brightness"@),
        after.computed@["brightness"@] == ComputedValue::Float(brightness),
        key != "brightness"@ ==> (after.computed@.contains_key(key) <==> before.computed@.contains_key(
            key,
        )),
        key != "brightness"@ ==> after.computed@[key] == before.computed@[key],
        provided_keys() == seq!["brightness"@],
{
}

/// Every outcome hands the context on, and only a skip with these very texts is the skip for a
/// reason.
pub proof fn outcomes_carry_their_context<C, E>(
    ctx: PipelineContext<C>,
    reason: String,
    detail: String,
    error: E,
    why: Seq<char>,
    more: Seq<char>,
)
    ensures
        StepOutcome::<C, E>::Continue(ctx).context() == ctx,
        (StepOutcome::<C, E>::Skip { ctx, reason, detail: Some(detail) }).context() == ctx,
        (StepOutcome::<C, E>::Error { ctx, error }).context() == ctx,
        (StepOutcome::<C, E>::Skip { ctx, reason, detail: Some(detail) }).skips(why, more) <==> reason@
            == why && detail@ == more,
        !(StepOutcome::<C, E>::Skip { ctx, reason, detail: None }).skips(why, more),
        !StepOutcome::<C, E>::Continue(ctx).skips(why, more),
        !(StepOutcome::<C, E>::Error { ctx, error }).skips(why, more),
{
}

} // verus!

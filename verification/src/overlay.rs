//! The debug picture of the brightness step: the measured region framed, and a bar that shows the
//! brightness.

use crate::brightness::{brightness_to_color, BrightnessStep, Reading, Region};
use crate::imaging::{dimensions, to_rgb8, Canvas};
use image::DynamicImage;
use vstd::prelude::*;

verus! {

/// The colour of a pixel of a canvas.
pub open spec fn pixel_at(canvas: Canvas, x: int, y: int) -> (u8, u8, u8) {
    crate::imaging::canvas_pixels(canvas)[y * crate::imaging::canvas_size(canvas).0 + x]
}

/// A canvas has one pixel for every place.
pub open spec fn well_formed(canvas: Canvas) -> bool {
    let (width, height) = crate::imaging::canvas_size(canvas);
    crate::imaging::canvas_pixels(canvas).len() == width * height
}

/// Whether a place lies on a canvas.
pub open spec fn on_canvas(canvas: Canvas, x: int, y: int) -> bool {
    let (width, height) = crate::imaging::canvas_size(canvas);
    0 <= x < width && 0 <= y < height
}

pub open spec fn in_region(region: Region, x: int, y: int) -> bool {
    region.x1 <= x < region.x2 && region.y1 <= y < region.y2
}

/// Places on a canvas have indices of their own.
proof fn lemma_index(width: int, height: int, x: int, y: int, u: int, v: int)
    requires
        0 <= x < width,
        0 <= y < height,
        0 <= u < width,
        0 <= v < height,
    ensures
        0 <= y * width + x < width * height,
        y * width + x == v * width + u <==> x == u && y == v,
{
    assert(y * width + x < width * height) by (nonlinear_arith)
        requires
            0 <= x < width,
            0 <= y < height,
    ;
    assert(0 <= y * width) by (nonlinear_arith)
        requires
            0 <= x < width,
            0 <= y,
    ;
    if y < v {
        assert(y * width + x < v * width + u) by (nonlinear_arith)
            requires
                0 <= x < width,
                0 <= u,
                y < v,
        ;
    } else if v < y {
        assert(v * width + u < y * width + x) by (nonlinear_arith)
            requires
                0 <= u < width,
                0 <= x,
                v < y,
        ;
    }
}

fn set_pixel(canvas: &mut Canvas, x: u32, y: u32, color: (u8, u8, u8))
    requires
        well_formed(*old(canvas)),
        on_canvas(*old(canvas), x as int, y as int),
    ensures
        well_formed(*final(canvas)),
        crate::imaging::canvas_size(*final(canvas)) == crate::imaging::canvas_size(*old(canvas)),
        forall|u: int, v: int|
            on_canvas(*final(canvas), u, v) ==> #[trigger] pixel_at(*final(canvas), u, v) == if u == x && v
                == y {
                color
            } else {
                pixel_at(*old(canvas), u, v)
            },
{
    canvas.put_pixel(x, y, color);
    proof {
        let (width, height) = crate::imaging::canvas_size(*canvas);
        lemma_index(width as int, height as int, x as int, y as int, x as int, y as int);
        assert forall|u: int, v: int| on_canvas(*canvas, u, v) implies #[trigger] pixel_at(
            *canvas,
            u,
            v,
        ) == if u == x && v == y {
            color
        } else {
            pixel_at(*old(canvas), u, v)
        } by {
            lemma_index(width as int, height as int, x as int, y as int, u, v);
            lemma_index(width as int, height as int, u, v, x as int, y as int);
        }
    }
}

/// Fills a region of a canvas with one colour.
fn paint(canvas: &mut Canvas, region: Region, color: (u8, u8, u8))
    requires
        well_formed(*old(canvas)),
        !region.is_empty() ==> {
            &&& region.x2 <= crate::imaging::canvas_size(*old(canvas)).0
            &&& region.y2 <= crate::imaging::canvas_size(*old(canvas)).1
        },
    ensures
        well_formed(*final(canvas)),
        crate::imaging::canvas_size(*final(canvas)) == crate::imaging::canvas_size(*old(canvas)),
        forall|u: int, v: int|
            on_canvas(*final(canvas), u, v) ==> #[trigger] pixel_at(*final(canvas), u, v) == if in_region(
                region,
                u,
                v,
            ) {
                color
            } else {
                pixel_at(*old(canvas), u, v)
            },
{
    let mut y: u32 = region.y1;
    while y < region.y2
        invariant
            well_formed(*canvas),
            crate::imaging::canvas_size(*canvas) == crate::imaging::canvas_size(*old(canvas)),
            !region.is_empty() ==> {
                &&& region.x2 <= crate::imaging::canvas_size(*old(canvas)).0
                &&& region.y2 <= crate::imaging::canvas_size(*old(canvas)).1
            },
            region.y1 <= y,
            region.y1 < region.y2 ==> y <= region.y2,
            forall|u: int, v: int|
                on_canvas(*canvas, u, v) ==> #[trigger] pixel_at(*canvas, u, v) == if in_region(region, u, v)
                    && v < y {
                    color
                } else {
                    pixel_at(*old(canvas), u, v)
                },
        decreases region.y2 - y,
    {
        let mut x: u32 = region.x1;
        while x < region.x2
            invariant
                well_formed(*canvas),
                crate::imaging::canvas_size(*canvas) == crate::imaging::canvas_size(*old(canvas)),
                !region.is_empty() ==> {
                    &&& region.x2 <= crate::imaging::canvas_size(*old(canvas)).0
                    &&& region.y2 <= crate::imaging::canvas_size(*old(canvas)).1
                },
                region.y1 <= y < region.y2,
                region.x1 <= x,
                region.x1 < region.x2 ==> x <= region.x2,
                forall|u: int, v: int|
                    on_canvas(*canvas, u, v) ==> #[trigger] pixel_at(*canvas, u, v) == if in_region(
                        region,
                        u,
                        v,
                    ) && (v < y || v == y && u < x) {
                        color
                    } else {
                        pixel_at(*old(canvas), u, v)
                    },
            decreases region.x2 - x,
        {
            set_pixel(canvas, x, y, color);
            x = x + 1;
        }
        y = y + 1;
    }
}

/// The frame around a region, two pixels wide on each side, as far as it lies on a canvas of the
/// given size.
pub open spec fn in_frame(face: Region, width: u32, height: u32, x: int, y: int) -> bool {
    ||| {
        &&& face.x1 <= x < face.x2 && y < height
        &&& y == face.y1 || y == face.y1 + 1 || y == face.y2 - 1 || y == face.y2 - 2
    }
    ||| {
        &&& face.y1 <= y < face.y2 && x < width
        &&& x == face.x1 || x == face.x1 + 1 || x == face.x2 - 1 || x == face.x2 - 2
    }
}

/// Whether drawing the frame stays on a canvas of the given size.
pub open spec fn frame_fits(face: Region, width: u32, height: u32) -> bool {
    &&& face.x1 < face.x2 ==> face.y1 < u32::MAX
    &&& face.y1 < face.y2 ==> face.x1 < u32::MAX
    &&& face.x1 < face.x2 && (face.y1 < height || 1 <= face.y2 <= height + 1) ==> face.x2 <= width
    &&& face.y1 < face.y2 && (face.x1 < width || 1 <= face.x2 <= width + 1) ==> face.y2 <= height
}

pub const CYAN: (u8, u8, u8) = (0, 255, 255);

/// Draws one round of the frame: the lines that lie `t` pixels inside the edges.
fn draw_frame_round(canvas: &mut Canvas, face: Region, t: u32)
    requires
        t < 2,
        well_formed(*old(canvas)),
        crate::imaging::canvas_size(*old(canvas)).0 > 0,
        crate::imaging::canvas_size(*old(canvas)).1 > 0,
        frame_fits(
            face,
            crate::imaging::canvas_size(*old(canvas)).0,
            crate::imaging::canvas_size(*old(canvas)).1,
        ),
    ensures
        well_formed(*final(canvas)),
        crate::imaging::canvas_size(*final(canvas)) == crate::imaging::canvas_size(*old(canvas)),
        forall|u: int, v: int|
            on_canvas(*final(canvas), u, v) ==> #[trigger] pixel_at(*final(canvas), u, v) == if (face.x1 <= u
                < face.x2 && (v == face.y1 + t || v == face.y2 - t - 1)) || (face.y1 <= v < face.y2
                && (u == face.x1 + t || u == face.x2 - t - 1)) {
                CYAN
            } else {
                pixel_at(*old(canvas), u, v)
            },
{
    let (width, height) = canvas.dimensions();
    if face.x1 < face.x2 {
        if face.y1 + t < height {
            let line = Region { x1: face.x1, y1: face.y1 + t, x2: face.x2, y2: face.y1 + t + 1 };
            paint(canvas, line, CYAN);
        }
        if face.y2 > t && face.y2 - t - 1 < height {
            let line = Region { x1: face.x1, y1: face.y2 - t - 1, x2: face.x2, y2: face.y2 - t };
            paint(canvas, line, CYAN);
        }
    }
    if face.y1 < face.y2 {
        if face.x1 + t < width {
            let line = Region { x1: face.x1 + t, y1: face.y1, x2: face.x1 + t + 1, y2: face.y2 };
            paint(canvas, line, CYAN);
        }
        if face.x2 > t && face.x2 - t - 1 < width {
            let line = Region { x1: face.x2 - t - 1, y1: face.y1, x2: face.x2 - t, y2: face.y2 };
            paint(canvas, line, CYAN);
        }
    }
}

/// Where the overlay goes: the region to frame, the width of the bar, and how much of the bar's
/// inside is filled.
#[derive(Clone, Copy, Debug, PartialEq, Eq, Structural)]
pub struct OverlayLayout {
    pub face: Region,
    pub bar_width: u32,
    pub fill_width: u32,
}

pub const DARK_GREY: (u8, u8, u8) = (40, 40, 40);

pub const LIGHT_GREY: (u8, u8, u8) = (200, 200, 200);

pub const WHITE: (u8, u8, u8) = (255, 255, 255);

/// The first row of the band that the bar stands on: the lowest 20 rows, or all of fewer.
pub open spec fn band_top(height: u32) -> int {
    if height < 20 {
        0
    } else {
        height - 20
    }
}

impl OverlayLayout {
    /// The first column of the bar, which is centred.
    pub open spec fn bar_left(self, width: u32) -> int {
        (width - self.bar_width) / 2
    }

    /// The outline of the bar: 12 rows high, one pixel wide, four rows below the band's top.
    pub open spec fn in_outline(self, width: u32, height: u32, x: int, y: int) -> bool {
        let (left, top) = (self.bar_left(width), band_top(height) + 4);
        let (right, bottom) = (left + self.bar_width - 1, top + 11);
        &&& left <= x <= right && top <= y <= bottom
        &&& x == left || x == right || y == top || y == bottom
    }

    /// The filled part of the bar, two pixels inside its bounds.
    pub open spec fn in_fill(self, width: u32, height: u32, x: int, y: int) -> bool {
        let (left, top) = (self.bar_left(width), band_top(height) + 4);
        left + 2 <= x < left + 2 + self.fill_width && top + 2 <= y < top + 10
    }

    /// The colour of a pixel of the finished overlay, over a pixel that had the colour `base`.
    pub open spec fn color_at(
        self,
        fill: (u8, u8, u8),
        width: u32,
        height: u32,
        x: int,
        y: int,
        base: (u8, u8, u8),
    ) -> (u8, u8, u8) {
        if self.in_fill(width, height, x, y) {
            fill
        } else if self.in_outline(width, height, x, y) {
            LIGHT_GREY
        } else if y >= band_top(height) {
            DARK_GREY
        } else if in_frame(self.face, width, height, x, y) {
            CYAN
        } else {
            base
        }
    }

    /// Whether the overlay can be drawn on an image of the given size: the frame and the bar
    /// stay on it, the bar has an inside, and the image's bytes fit in a vector.
    pub open spec fn fits(self, width: u32, height: u32) -> bool {
        &&& 3 * (width * height) <= isize::MAX
        &&& frame_fits(self.face, width, height)
        &&& 16 <= height
        &&& 4 <= self.bar_width <= width
        &&& self.bar_left(width) + 2 + self.fill_width <= u32::MAX
    }

    /// Whether the overlay can be drawn on an image of the given size.
    pub fn fits_on(self, width: u32, height: u32) -> (fits: bool)
        ensures
            fits == self.fits(width, height),
    {
        let face = self.face;
        let (wide, tall): (u64, u64) = (width as u64, height as u64);
        assert(0 <= width * height <= u32::MAX * u32::MAX) by (nonlinear_arith);
        let crosses_rows = face.y1 < height || 1 <= face.y2 && face.y2 as u64 <= tall + 1;
        let crosses_columns = face.x1 < width || 1 <= face.x2 && face.x2 as u64 <= wide + 1;
        let frame_fits = (face.x1 >= face.x2 || face.y1 < u32::MAX) && (face.y1 >= face.y2
            || face.x1 < u32::MAX) && (face.x1 >= face.x2 || !crosses_rows || face.x2 <= width) && (
        face.y1 >= face.y2 || !crosses_columns || face.y2 <= height);
        3 * (width as u128 * height as u128) <= isize::MAX as u128 && frame_fits && 16 <= height
            && 4 <= self.bar_width && self.bar_width <= width && (width - self.bar_width) as u64 / 2
            + 2 + self.fill_width as u64 <= u32::MAX as u64
    }
}

/// Draws the overlay on a canvas.
fn draw_overlay(canvas: &mut Canvas, layout: OverlayLayout, fill: (u8, u8, u8))
    requires
        well_formed(*old(canvas)),
        layout.fits(
            crate::imaging::canvas_size(*old(canvas)).0,
            crate::imaging::canvas_size(*old(canvas)).1,
        ),
    ensures
        well_formed(*final(canvas)),
        crate::imaging::canvas_size(*final(canvas)) == crate::imaging::canvas_size(*old(canvas)),
        forall|u: int, v: int|
            on_canvas(*final(canvas), u, v) ==> #[trigger] pixel_at(*final(canvas), u, v)
                == layout.color_at(
                fill,
                crate::imaging::canvas_size(*old(canvas)).0,
                crate::imaging::canvas_size(*old(canvas)).1,
                u,
                v,
                pixel_at(*old(canvas), u, v),
            ),
{
    let (width, height) = canvas.dimensions();
    draw_frame_round(canvas, layout.face, 0);
    draw_frame_round(canvas, layout.face, 1);

    let bar_height: u32 = 20;
    let bar_y: u32 = if height < bar_height { 0 } else { height - bar_height };
    let bar_x: u32 = (width - layout.bar_width) / 2;
    paint(canvas, Region { x1: 0, y1: bar_y, x2: width, y2: height }, DARK_GREY);

    let right: u32 = bar_x + layout.bar_width;
    let outline_y: u32 = bar_y + 4;
    let outline_height: u32 = bar_height - 8;
    let bottom: u32 = outline_y + outline_height;
    paint(canvas, Region { x1: bar_x, y1: outline_y, x2: right, y2: outline_y + 1 }, LIGHT_GREY);
    paint(canvas, Region { x1: bar_x, y1: bottom - 1, x2: right, y2: bottom }, LIGHT_GREY);
    paint(canvas, Region { x1: bar_x, y1: outline_y, x2: bar_x + 1, y2: bottom }, LIGHT_GREY);
    paint(canvas, Region { x1: right - 1, y1: outline_y, x2: right, y2: bottom }, LIGHT_GREY);

    let fill_end: u32 = bar_x + 2 + layout.fill_width;
    let fill_end: u32 = if fill_end <= width { fill_end } else { width };
    paint(
        canvas,
        Region { x1: bar_x + 2, y1: outline_y + 2, x2: fill_end, y2: bottom - 2 },
        fill,
    );
}

/// A debug picture: its size and bytes, three to a pixel and row after row, and the text that is
/// to be drawn on it.
#[derive(Debug)]
pub struct DebugView {
    pub width: u32,
    pub height: u32,
    pub bytes: Vec<u8>,
    pub label: String,
    pub label_x: u32,
    pub label_y: u32,
    pub label_color: (u8, u8, u8),
}

impl DebugView {
    pub open spec fn pixel(self, x: int, y: int) -> (u8, u8, u8) {
        let i = y * self.width + x;
        (self.bytes@[3 * i], self.bytes@[3 * i + 1], self.bytes@[3 * i + 2])
    }

    /// Whether this is the debug picture of an image with the given brightness.
    pub open spec fn shows(
        self,
        image: DynamicImage,
        brightness: Reading,
        layout: OverlayLayout,
    ) -> bool {
        &&& (self.width, self.height) == crate::imaging::image_size(image)
        &&& self.bytes@.len() >= 3 * (self.width * self.height)
        &&& forall|x: int, y: int|
            0 <= x < self.width && 0 <= y < self.height ==> #[trigger] self.pixel(x, y)
                == layout.color_at(
                crate::brightness::color_of(brightness.value),
                self.width,
                self.height,
                x,
                y,
                crate::imaging::image_pixels(image)[y * self.width + x],
            )
        &&& self.label@ == "B:"@ + brightness.text@
        &&& self.label_x == 5
        &&& self.label_y == band_top(self.height) + 6
        &&& self.label_color == WHITE
    }
}

impl BrightnessStep {
    /// The debug picture of an image: nothing where the image or its brightness is missing.
    pub fn debug_visualize(
        &self,
        image: Option<&DynamicImage>,
        brightness: Option<&Reading>,
        layout: OverlayLayout,
    ) -> (view: Option<DebugView>)
        requires
            image is Some && brightness is Some ==> layout.fits(
                crate::imaging::image_size(*image->0).0,
                crate::imaging::image_size(*image->0).1,
            ),
        ensures
            view is Some <==> image is Some && brightness is Some,
            view is Some ==> view->0.shows(*image->0, *brightness->0, layout),
    {
        let brightness = match brightness {
            Some(brightness) => brightness,
            None => return None,
        };
        let image = match image {
            Some(image) => image,
            None => return None,
        };
        proof {
            let (width, height) = crate::imaging::image_size(*image);
            assert(width <= width * height) by (nonlinear_arith)
                requires
                    16 <= height,
            ;
        }
        let mut canvas = to_rgb8(image);
        let ghost base = canvas;
        let (width, height) = canvas.dimensions();
        draw_overlay(&mut canvas, layout, brightness_to_color(brightness.value));
        let ghost drawn = canvas;
        let bytes = canvas.into_raw();
        let mut label = "B:".to_owned();
        label.append(brightness.text.as_str());
        let label_y: u32 = if height < 20 { 6 } else { height - 20 + 6 };
        let view = DebugView {
            width,
            height,
            bytes,
            label,
            label_x: 5,
            label_y,
            label_color: WHITE,
        };
        proof {
            assert forall|x: int, y: int| 0 <= x < width && 0 <= y < height implies
                #[trigger] view.pixel(x, y) == layout.color_at(
                crate::brightness::color_of(brightness.value),
                width,
                height,
                x,
                y,
                crate::imaging::image_pixels(*image)[y * width + x],
            ) by {
                lemma_index(width as int, height as int, x, y, x, y);
                let i = y * width + x;
                let pixels = crate::imaging::canvas_pixels(drawn);
                let start = bytes@.take(3 * pixels.len() as int);
                assert(crate::imaging::rgb_triples(start)[i] == (
                    start[3 * i],
                    start[3 * i + 1],
                    start[3 * i + 2],
                ));
                assert(pixel_at(drawn, x, y) == view.pixel(x, y));
                assert(on_canvas(drawn, x, y));
            }
        }
        Some(view)
    }

    /// `debug_visualize` for a layout that may not fit: `Err` where an image and a brightness
    /// are there and the overlay does not fit on the image.
    pub fn try_debug_visualize(
        &self,
        image: Option<&DynamicImage>,
        brightness: Option<&Reading>,
        layout: OverlayLayout,
    ) -> (view: Result<Option<DebugView>, OverlayLayout>)
        ensures
            match view {
                Ok(Some(view)) => {
                    &&& image is Some && brightness is Some
                    &&& layout.fits(view.width, view.height)
                    &&& view.shows(*image->0, *brightness->0, layout)
                },
                Ok(None) => image is None || brightness is None,
                Err(misfit) => {
                    &&& misfit == layout
                    &&& image is Some && brightness is Some
                    &&& !layout.fits(
                        crate::imaging::image_size(*image->0).0,
                        crate::imaging::image_size(*image->0).1,
                    )
                },
            },
    {
        if let Some(image) = image {
            let (width, height) = dimensions(image);
            if brightness.is_some() && !layout.fits_on(width, height) {
                return Err(layout);
            }
        }
        Ok(self.debug_visualize(image, brightness, layout))
    }
}

/// The frame of a region that was clamped to an image can be drawn on that image.
pub proof fn clamped_frame_fits(region: Region, width: u32, height: u32)
    requires
        0 < width,
        0 < height,
    ensures
        frame_fits(region.clamped(width, height), width, height),
{
}

/// The frame lies in the region that it frames, where the region is at least two pixels wide and
/// high.
pub proof fn frame_lies_in_region(face: Region, width: u32, height: u32, x: int, y: int)
    requires
        face.x1 + 2 <= face.x2,
        face.y1 + 2 <= face.y2,
        in_frame(face, width, height, x, y),
    ensures
        in_region(face, x, y),
{
}

/// A fill that is no wider than the inside of the bar leaves the outline visible.
pub proof fn fill_leaves_outline(layout: OverlayLayout, width: u32, height: u32, x: int, y: int)
    requires
        layout.fits(width, height),
        layout.fill_width <= layout.bar_width - 4,
        layout.in_outline(width, height, x, y),
    ensures
        !layout.in_fill(width, height, x, y),
{
}

/// Outside the frame and the band at the bottom the image shows through.
pub proof fn overlay_keeps_the_rest(
    layout: OverlayLayout,
    fill: (u8, u8, u8),
    width: u32,
    height: u32,
    x: int,
    y: int,
    base: (u8, u8, u8),
)
    requires
        y < band_top(height),
        !in_frame(layout.face, width, height, x, y),
    ensures
        layout.color_at(fill, width, height, x, y, base) == base,
{
}

/// Drawing the overlay a second time changes nothing.
pub proof fn overlay_is_idempotent(
    layout: OverlayLayout,
    fill: (u8, u8, u8),
    width: u32,
    height: u32,
    x: int,
    y: int,
    base: (u8, u8, u8),
)
    ensures
        layout.color_at(
            fill,
            width,
            height,
            x,
            y,
            layout.color_at(fill, width, height, x, y, base),
        ) == layout.color_at(fill, width, height, x, y, base),
{
}

/// The frame consists of lines along the edges of the region, those that are less than two pixels
/// away from the first or the last row or column, as far as they lie on the canvas.
pub proof fn frame_follows_the_edges(face: Region, width: u32, height: u32, x: int, y: int)
    requires
        0 <= x < width,
        0 <= y < height,
    ensures
        in_frame(face, width, height, x, y) <==> (face.x1 <= x < face.x2 && (0 <= y - face.y1 < 2
            || 0 <= face.y2 - 1 - y < 2)) || (face.y1 <= y < face.y2 && (0 <= x - face.x1 < 2 || 0
            <= face.x2 - 1 - x < 2)),
{
}

/// The frame of a region that is at least two pixels wide and high is the region without what is
/// left of it two pixels further in.
pub proof fn frame_is_two_pixels_wide(face: Region, width: u32, height: u32, x: int, y: int)
    requires
        face.x1 + 2 <= face.x2,
        face.y1 + 2 <= face.y2,
        0 <= x < width,
        0 <= y < height,
    ensures
        in_frame(face, width, height, x, y) <==> {
            &&& face.x1 <= x < face.x2 && face.y1 <= y < face.y2
            &&& !(face.x1 + 2 <= x < face.x2 - 2 && face.y1 + 2 <= y < face.y2 - 2)
        },
{
}

/// The frame fits exactly when every place of it that is not above or left of the image lies on
/// the image; the rows and columns next to its edges must be numbers of 32 bits.
pub proof fn fitting_frames_stay_on_the_image(face: Region, width: u32, height: u32)
    requires
        0 < width,
        0 < height,
    ensures
        frame_fits(face, width, height) <==> {
            &&& face.x1 < face.x2 ==> face.y1 < u32::MAX
            &&& face.y1 < face.y2 ==> face.x1 < u32::MAX
            &&& forall|x: int, y: int|
                0 <= x && 0 <= y && #[trigger] in_frame(face, width, height, x, y) ==> x < width && y
                    < height
        },
{
    if forall|x: int, y: int|
        0 <= x && 0 <= y && #[trigger] in_frame(face, width, height, x, y) ==> x < width && y
            < height {
        if face.x1 < face.x2 && (face.y1 < height || 1 <= face.y2 <= height + 1) {
            let row = if face.y1 < height {
                face.y1 as int
            } else if face.y2 <= height {
                face.y2 - 1
            } else {
                face.y2 - 2
            };
            assert(in_frame(face, width, height, face.x2 - 1, row));
        }
        if face.y1 < face.y2 && (face.x1 < width || 1 <= face.x2 <= width + 1) {
            let column = if face.x1 < width {
                face.x1 as int
            } else if face.x2 <= width {
                face.x2 - 1
            } else {
                face.x2 - 2
            };
            assert(in_frame(face, width, height, column, face.y2 - 1));
        }
    }
}

/// The band is the lowest 20 rows of the image, or the whole of a lower one; the bar stands in
/// the middle, at most one pixel further to the left.
pub proof fn bar_is_centred(layout: OverlayLayout, width: u32, height: u32)
    requires
        layout.bar_width <= width,
    ensures
        20 <= height ==> height - band_top(height) == 20,
        height < 20 ==> band_top(height) == 0,
        0 <= layout.bar_left(width),
        0 <= (width - layout.bar_left(width) - layout.bar_width) - layout.bar_left(width) <= 1,
{
}

/// The outline is the box of the bar, 12 rows high and four below the top of the band, without
/// the box one pixel further in.
pub proof fn outline_surrounds_the_bar(
    layout: OverlayLayout,
    width: u32,
    height: u32,
    x: int,
    y: int,
)
    ensures
        ({
            let column = x - layout.bar_left(width);
            let row = y - band_top(height) - 4;
            layout.in_outline(width, height, x, y) <==> {
                &&& 0 <= column < layout.bar_width && 0 <= row < 12
                &&& !(1 <= column < layout.bar_width - 1 && 1 <= row < 11)
            }
        }),
{
}

/// The fill is as wide as the layout says and eight rows high, two pixels inside the box.
pub proof fn fill_shows_the_brightness(
    layout: OverlayLayout,
    width: u32,
    height: u32,
    x: int,
    y: int,
)
    ensures
        ({
            let column = x - layout.bar_left(width) - 2;
            let row = y - band_top(height) - 6;
            layout.in_fill(width, height, x, y) <==> 0 <= column < layout.fill_width && 0 <= row < 8
        }),
{
}

/// Of what is drawn over each other the fill is on top, then the outline, the band, the frame and
/// the image; the outline is light grey, the band dark grey, the frame cyan.
pub proof fn overlay_is_layered(
    layout: OverlayLayout,
    fill: (u8, u8, u8),
    width: u32,
    height: u32,
    x: int,
    y: int,
    base: (u8, u8, u8),
)
    ensures
        ({
            let color = layout.color_at(fill, width, height, x, y, base);
            let filled = layout.in_fill(width, height, x, y);
            let outlined = !filled && layout.in_outline(width, height, x, y);
            let banded = !filled && !outlined && y >= band_top(height);
            let framed = !filled && !outlined && !banded && in_frame(
                layout.face,
                width,
                height,
                x,
                y,
            );
            &&& filled ==> color == fill
            &&& outlined ==> color == (200u8, 200u8, 200u8)
            &&& banded ==> color == (40u8, 40u8, 40u8)
            &&& framed ==> color == (0u8, 255u8, 255u8)
            &&& !filled && !outlined && !banded && !framed ==> color == base
        }),
{
}

/// The overlay for a clamped region fits on every image of at least 16 rows whose bytes fit in
/// a vector, as long as the bar has an inside, is no wider than the image, and is filled no
/// further than its inside.
pub proof fn usual_overlays_fit(layout: OverlayLayout, region: Region, width: u32, height: u32)
    requires
        3 * (width * height) <= isize::MAX,
        16 <= height,
        4 <= layout.bar_width <= width,
        layout.fill_width <= layout.bar_width - 4,
        layout.face == region.clamped(width, height),
    ensures
        layout.fits(width, height),
{
    clamped_frame_fits(region, width, height);
}

/// An overlay that fits keeps its outline on the image and its frame too, and its bar has room
/// for an inside.
pub proof fn fitting_overlays_stay_on_the_image(
    layout: OverlayLayout,
    width: u32,
    height: u32,
    x: int,
    y: int,
)
    requires
        layout.fits(width, height),
    ensures
        3 * (width * height) <= isize::MAX,
        4 <= layout.bar_width <= width,
        layout.in_outline(width, height, x, y) ==> 0 <= x < width && 0 <= y < height,
        0 <= x && 0 <= y && in_frame(layout.face, width, height, x, y) ==> x < width && y < height,
{
}

/// A debug picture has the image's size, three bytes for every place in turn, and a label in
/// white near the left edge, six rows below the top of the band.
pub proof fn debug_pictures_show_the_overlay(
    view: DebugView,
    image: DynamicImage,
    brightness: Reading,
    layout: OverlayLayout,
    x: int,
    y: int,
)
    requires
        view.shows(image, brightness, layout),
        0 <= x < view.width,
        0 <= y < view.height,
    ensures
        crate::imaging::image_size(image) == (view.width, view.height),
        ({
            let place = y * view.width + x;
            let color = layout.color_at(
                crate::brightness::color_of(brightness.value),
                view.width,
                view.height,
                x,
                y,
                crate::imaging::image_pixels(image)[place],
            );
            &&& 0 <= 3 * place && 3 * place + 2 < view.bytes@.len()
            &&& view.bytes@[3 * place] == color.0
            &&& view.bytes@[3 * place + 1] == color.1
            &&& view.bytes@[3 * place + 2] == color.2
        }),
        view.label@ == "B:"@ + brightness.text@,
        view.label_x == 5,
        view.height >= 20 ==> view.label_y == view.height - 14,
        view.height < 20 ==> view.label_y == 6,
        view.label_color == (255u8, 255u8, 255u8),
{
    lemma_index(view.width as int, view.height as int, x, y, x, y);
    let color = view.pixel(x, y);
    assert(color.0 == view.bytes@[3 * (y * view.width + x)]);
}

/// What an overlay needs in order to fit: bytes that fit in a vector, a frame that fits, 16 rows,
/// a bar of four columns that is no wider than the image, and a fill that ends at a number of 32
/// bits.
pub proof fn fitting_overlays_have_room(layout: OverlayLayout, width: u32, height: u32)
    ensures
        layout.fits(width, height) <==> {
            &&& 3 * (width * height) <= isize::MAX
            &&& frame_fits(layout.face, width, height)
            &&& 16 <= height
            &&& 4 <= layout.bar_width <= width
            &&& (width - layout.bar_width) + 2 * layout.fill_width + 4 <= 2 * u32::MAX + 1
        },
{
}

} // verus!

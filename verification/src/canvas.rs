//! The surface that flags are painted on.
//!
//! [`MsPaint`] is what the painter asks of a canvas: its size, and filling
//! a rectangle with a color. [`RgbCanvas`] is the canvas that comes with
//! the library, an 8-bit RGB buffer of the `image` crate.

use crate::color::Color;
use vstd::prelude::*;

verus! {

/// A rectangle of pixels: those at `(x, y)` with
/// `left <= x < left + width` and `top <= y < top + height`.
pub struct Area {
    pub left: int,
    pub top: int,
    pub width: int,
    pub height: int,
}

impl Area {
    /// Whether the pixel at `(x, y)` lies in the rectangle.
    pub open spec fn contains(self, x: int, y: int) -> bool {
        self.left <= x < self.left + self.width && self.top <= y < self.top + self.height
    }

    /// Whether the rectangle, of a size that is not negative, lies in
    /// `other`.
    pub open spec fn within(self, other: Area) -> bool {
        &&& 0 <= self.width
        &&& 0 <= self.height
        &&& other.left <= self.left
        &&& other.top <= self.top
        &&& self.left + self.width <= other.left + other.width
        &&& self.top + self.height <= other.top + other.height
    }
}

/// The rectangle with the given corner and size.
pub open spec fn area(left: int, top: int, width: int, height: int) -> Area {
    Area { left, top, width, height }
}

/// What a canvas looks like: its size, and the red, green and blue
/// channels of each pixel. A canvas reports its size in 32 bits.
#[verifier::ext_equal]
pub struct Surface {
    pub width: u32,
    pub height: u32,
    pub pixels: Map<(int, int), (u8, u8, u8)>,
}

impl Surface {
    /// The whole surface as a rectangle.
    pub open spec fn whole(self) -> Area {
        area(0, 0, self.width as int, self.height as int)
    }

    /// The surface after every pixel of the rectangle has been given the
    /// channels `rgb`. The other pixels keep theirs.
    pub open spec fn fill(self, area: Area, rgb: (u8, u8, u8)) -> Surface {
        Surface {
            width: self.width,
            height: self.height,
            pixels: Map::new(
                |p: (int, int)| self.pixels.dom().contains(p) || area.contains(p.0, p.1),
                |p: (int, int)|
                    if area.contains(p.0, p.1) {
                        rgb
                    } else {
                        self.pixels[p]
                    },
            ),
        }
    }
}

/// A canvas: a grid of pixels that rectangles can be painted on.
pub trait MsPaint {
    /// What the canvas looks like.
    spec fn surface(&self) -> Surface;

    /// Gives every pixel of a rectangle that lies on the canvas the given
    /// color, and changes nothing else. A rectangle without pixels changes
    /// nothing.
    fn rectangle(&mut self, left: u32, top: u32, width: u32, height: u32, color: &Color)
        requires
            left + width <= old(self).surface().width,
            top + height <= old(self).surface().height,
        ensures
            final(self).surface() == old(self).surface().fill(
                area(left as int, top as int, width as int, height as int),
                color.rgb(),
            ),
    ;

    /// The number of pixels in a row.
    fn width(&self) -> (width: u32)
        ensures
            width == self.surface().width,
    ;

    /// The number of rows.
    fn height(&self) -> (height: u32)
        ensures
            height == self.surface().height,
    ;
}

/// An RGB image of the `image` crate with 8 bits for each channel
/// (`image::RgbImage`), held as a canvas. Nothing is known of it but what
/// the functions below state.
#[verifier::external_body]
pub struct RgbCanvas {
    image: image::RgbImage,
}

/// The width and the height of the image.
pub uninterp spec fn canvas_size(canvas: RgbCanvas) -> (u32, u32);

/// The channels of the pixels of the image, by column and row.
pub uninterp spec fn canvas_pixels(canvas: RgbCanvas) -> Map<(int, int), (u8, u8, u8)>;

/// The pixels of an image of the given size whose channels are all zero.
pub open spec fn blank_pixels(width: u32, height: u32) -> Map<(int, int), (u8, u8, u8)> {
    Map::new(
        |p: (int, int)| 0 <= p.0 < width && 0 <= p.1 < height,
        |p: (int, int)| (0u8, 0u8, 0u8),
    )
}

/// `image::ImageBuffer::new`: an image of the given size, every channel of
/// every pixel zero. The call panics when the number of channels does not
/// fit in `usize`, which the precondition excludes.
#[verifier::external_body]
fn image_new(width: u32, height: u32) -> (canvas: RgbCanvas)
    requires
        3 * width <= usize::MAX,
        3 * width * height <= usize::MAX,
    ensures
        canvas_size(canvas) == (width, height),
        canvas_pixels(canvas) == blank_pixels(width, height),
{
    RgbCanvas { image: image::RgbImage::new(width, height) }
}

/// `image::ImageBuffer::dimensions`: the width and the height.
#[verifier::external_body]
fn image_dimensions(canvas: &RgbCanvas) -> (size: (u32, u32))
    ensures
        size == canvas_size(*canvas),
{
    canvas.image.dimensions()
}

/// `image::ImageBuffer::get_pixel`: the channels of the pixel in column
/// `x` of row `y`. The call panics outside the image, which the
/// precondition excludes.
#[verifier::external_body]
fn image_get_pixel(canvas: &RgbCanvas, x: u32, y: u32) -> (rgb: (u8, u8, u8))
    requires
        x < canvas_size(*canvas).0,
        y < canvas_size(*canvas).1,
    ensures
        rgb == canvas_pixels(*canvas)[(x as int, y as int)],
{
    let pixel = canvas.image.get_pixel(x, y);
    (pixel.0[0], pixel.0[1], pixel.0[2])
}

/// `image::ImageBuffer::put_pixel`: sets the channels of the pixel in
/// column `x` of row `y` and leaves the size and the other pixels as they
/// are. The call panics outside the image, which the precondition excludes.
#[verifier::external_body]
fn image_put_pixel(canvas: &mut RgbCanvas, x: u32, y: u32, rgb: (u8, u8, u8))
    requires
        x < canvas_size(*old(canvas)).0,
        y < canvas_size(*old(canvas)).1,
    ensures
        canvas_size(*final(canvas)) == canvas_size(*old(canvas)),
        canvas_pixels(*final(canvas)) == canvas_pixels(*old(canvas)).insert(
            (x as int, y as int),
            rgb,
        ),
{
    canvas.image.put_pixel(x, y, image::Rgb([rgb.0, rgb.1, rgb.2]));
}

impl RgbCanvas {
    /// A canvas of the given size, black all over.
    pub fn new(width: u32, height: u32) -> (canvas: RgbCanvas)
        requires
            3 * width <= usize::MAX,
            3 * width * height <= usize::MAX,
        ensures
            canvas.surface() == (Surface { width, height, pixels: blank_pixels(width, height) }),
    {
        image_new(width, height)
    }

    /// The channels of the pixel in column `x` of row `y`, or `None` where
    /// the canvas has no such pixel.
    pub fn pixel(&self, x: u32, y: u32) -> (rgb: Option<(u8, u8, u8)>)
        ensures
            rgb == if x < self.surface().width && y < self.surface().height {
                Some(self.surface().pixels[(x as int, y as int)])
            } else {
                None
            },
    {
        let (width, height) = image_dimensions(self);
        if x < width && y < height {
            Some(image_get_pixel(self, x, y))
        } else {
            None
        }
    }
}

impl MsPaint for RgbCanvas {
    open spec fn surface(&self) -> Surface {
        Surface {
            width: canvas_size(*self).0,
            height: canvas_size(*self).1,
            pixels: canvas_pixels(*self),
        }
    }

    fn rectangle(&mut self, left: u32, top: u32, width: u32, height: u32, color: &Color) {
        let rgb = color.to_rgb();
        let ghost start = self.surface();
        let mut y = top;
        while y < top + height
            invariant
                top <= y <= top + height,
                left + width <= start.width,
                top + height <= start.height,
                rgb == color.rgb(),
                self.surface() == start.fill(
                    area(left as int, top as int, width as int, y - top),
                    rgb,
                ),
            decreases top + height - y,
        {
            let ghost rows = self.surface();
            let mut x = left;
            while x < left + width
                invariant
                    left <= x <= left + width,
                    top <= y < top + height,
                    left + width <= start.width,
                    top + height <= start.height,
                    rows.width == start.width,
                    rows.height == start.height,
                    self.surface() == rows.fill(area(left as int, y as int, x - left, 1), rgb),
                decreases left + width - x,
            {
                image_put_pixel(self, x, y, rgb);
                assert(self.surface() =~= rows.fill(
                    area(left as int, y as int, x + 1 - left, 1),
                    rgb,
                ));
                x = x + 1;
            }
            assert(self.surface() =~= start.fill(
                area(left as int, top as int, width as int, y + 1 - top),
                rgb,
            ));
            y = y + 1;
        }
        assert(self.surface() =~= start.fill(
            area(left as int, top as int, width as int, height as int),
            rgb,
        ));
    }

    fn width(&self) -> (width: u32) {
        image_dimensions(self).0
    }

    fn height(&self) -> (height: u32) {
        image_dimensions(self).1
    }
}

} // verus!

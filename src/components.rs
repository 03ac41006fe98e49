use vstd::prelude::*;

verus! {

/// Integer placement of a sprite's anchor in render-target space.
#[derive(Clone, Copy, Debug, PartialEq, Eq, Structural)]
pub struct Position {
    pub x: i32,
    pub y: i32,
}

/// A row-major buffer of packed ARGB pixels (`alpha << 24 | red << 16 | green << 8 | blue`),
/// with the anchor offset that is subtracted from a position to find the top-left corner.
#[derive(Debug)]
pub struct Sprite {
    pub data: Vec<u32>,
    pub width: u32,
    pub height: u32,
    pub anchor_x: u32,
    pub anchor_y: u32,
}

/// Marks the entity whose sprite is the presented frame.
#[derive(Clone, Copy, Debug, PartialEq, Eq, Structural)]
pub struct RenderTarget;

/// Horizontal oscillation around the middle of the render target, `amplitude` pixels wide.
#[derive(Clone, Copy, Debug, PartialEq, Eq, Structural)]
pub struct WobbleMove {
    pub amplitude: i32,
}

/// Frame timing, all in nanoseconds on one monotonic clock.
#[derive(Clone, Copy, Debug, PartialEq, Eq, Structural)]
pub struct TimeResources {
    pub start_time_instant: u64,
    pub last_frame_instant: u64,
    pub this_frame_instant: u64,
    pub delta_time: u64,
    pub total_time: u64,
}

impl Position {
    pub fn new(x: i32, y: i32) -> (r: Position)
        ensures
            r.x == x,
            r.y == y,
    {
        Position { x, y }
    }
}

/// The number of pixels of a `width` by `height` buffer.
pub fn area(width: u32, height: u32) -> (r: u64)
    ensures
        r == width * height,
{
    proof {
        assert((width as int) * (height as int) <= 0xFFFF_FFFF * 0xFFFF_FFFF) by (nonlinear_arith)
            requires
                width <= 0xFFFF_FFFF,
                height <= 0xFFFF_FFFF,
        ;
    }
    (width as u64) * (height as u64)
}

/// An opaque packed pixel from red, green and blue samples.
pub open spec fn opaque_argb(r: u8, g: u8, b: u8) -> u32 {
    (0xFF00_0000 + r * 0x1_0000 + g * 0x100 + b) as u32
}

/// Packs row-major RGB samples, three bytes a pixel, into opaque ARGB pixels; a trailing
/// incomplete pixel is dropped.
pub fn pack_rgb(rgb: &Vec<u8>) -> (r: Vec<u32>)
    ensures
        r@.len() == rgb@.len() / 3,
        forall|i: int|
            0 <= i < r@.len() ==> #[trigger] r@[i] == opaque_argb(
                rgb@[3 * i],
                rgb@[3 * i + 1],
                rgb@[3 * i + 2],
            ),
{
    let len: usize = rgb.len();
    let n: usize = len / 3;
    let mut out: Vec<u32> = Vec::with_capacity(n);
    let mut i: usize = 0;
    while i < n
        invariant
            n == rgb@.len() / 3,
            len == rgb@.len(),
            3 * n <= len,
            i <= n,
            out@.len() == i,
            forall|j: int|
                0 <= j < i ==> #[trigger] out@[j] == opaque_argb(
                    rgb@[3 * j],
                    rgb@[3 * j + 1],
                    rgb@[3 * j + 2],
                ),
        decreases n - i,
    {
        let r = rgb[3 * i] as u32;
        let g = rgb[3 * i + 1] as u32;
        let b = rgb[3 * i + 2] as u32;
        out.push(0xFF00_0000u32 + r * 0x1_0000 + g * 0x100 + b);
        i = i + 1;
    }
    out
}

/// Relies on `image::imageops::flip_vertical` (over an `image::RgbImage` built by
/// `ImageBuffer::from_raw`, which accepts a buffer of at least `3 * width * height` bytes):
/// the result has the input's size, and its row `y` is row `height - 1 - y` of the input.
#[verifier::external_body]
fn flip_rows(rgb: Vec<u8>, width: u32, height: u32) -> (r: Vec<u8>)
    requires
        rgb@.len() == 3 * (width * height),
    ensures
        r@.len() == rgb@.len(),
        forall|y: int, c: int|
            0 <= y < height && 0 <= c < 3 * width ==> #[trigger] r@[y * (3 * width) + c] == rgb@[(
            height - 1 - y) * (3 * width) + c],
{
    let img = image::RgbImage::from_raw(width, height, rgb).unwrap();
    image::imageops::flip_vertical(&img).into_raw()
}

proof fn lemma_rgb_offset(w: int, y: int, x: int, k: int)
    ensures
        3 * (y * w + x) + k == y * (3 * w) + (3 * x + k),
{
    assert(3 * (y * w + x) + k == y * (3 * w) + (3 * x + k)) by (nonlinear_arith);
}

impl Sprite {
    /// The buffer holds exactly `width * height` pixels.
    pub open spec fn wf(&self) -> bool {
        self.data@.len() == self.width * self.height
    }

    /// The pixel at column `x`, row `y`.
    pub open spec fn pixel(&self, x: int, y: int) -> u32 {
        self.data@[y * self.width + x]
    }

    /// A sprite of the given size with every pixel set to `value`.
    pub fn filled(width: u32, height: u32, anchor_x: u32, anchor_y: u32, value: u32) -> (r:
        Option<Sprite>)
        ensures
            r.is_some() == (width * height <= usize::MAX),
            r.is_some() ==> ({
                let s = r.unwrap();
                &&& s.wf()
                &&& s.width == width && s.height == height
                &&& s.anchor_x == anchor_x && s.anchor_y == anchor_y
                &&& forall|i: int| 0 <= i < s.data@.len() ==> #[trigger] s.data@[i] == value
            }),
    {
        let n = area(width, height);
        if n > usize::MAX as u64 {
            return None;
        }
        let n = n as usize;
        let mut data: Vec<u32> = Vec::with_capacity(n);
        let mut i: usize = 0;
        while i < n
            invariant
                i <= n,
                data@.len() == i,
                forall|j: int| 0 <= j < i ==> #[trigger] data@[j] == value,
            decreases n - i,
        {
            data.push(value);
            i = i + 1;
        }
        Some(Sprite { data, width, height, anchor_x, anchor_y })
    }

    /// A sprite over `data`, or `None` when `data` does not hold `width * height` pixels.
    pub fn from_pixels(data: Vec<u32>, width: u32, height: u32, anchor_x: u32, anchor_y: u32) -> (r:
        Option<Sprite>)
        ensures
            r.is_some() == (data@.len() == width * height),
            r.is_some() ==> ({
                let s = r.unwrap();
                &&& s.wf()
                &&& s.data@ == data@
                &&& s.width == width && s.height == height
                &&& s.anchor_x == anchor_x && s.anchor_y == anchor_y
            }),
    {
        if (data.len() as u64) != area(width, height) {
            return None;
        }
        Some(Sprite { data, width, height, anchor_x, anchor_y })
    }

    /// A sprite from row-major RGB samples, each pixel made opaque, or `None` when `rgb` does
    /// not hold three bytes for each of the `width * height` pixels.
    pub fn from_rgb(rgb: &Vec<u8>, width: u32, height: u32, anchor_x: u32, anchor_y: u32) -> (r:
        Option<Sprite>)
        ensures
            r.is_some() == (rgb@.len() == 3 * (width * height)),
            r.is_some() ==> ({
                let s = r.unwrap();
                &&& s.wf()
                &&& s.width == width && s.height == height
                &&& s.anchor_x == anchor_x && s.anchor_y == anchor_y
                &&& forall|i: int|
                    0 <= i < s.data@.len() ==> #[trigger] s.data@[i] == opaque_argb(
                        rgb@[3 * i],
                        rgb@[3 * i + 1],
                        rgb@[3 * i + 2],
                    )
            }),
    {
        let n = area(width, height);
        if (rgb.len() as u128) != 3 * (n as u128) {
            return None;
        }
        let data = pack_rgb(rgb);
        assert(data@.len() == width * height);
        Some(Sprite { data, width, height, anchor_x, anchor_y })
    }

    /// A sprite from row-major RGB samples stored top row first, turned upside down and made
    /// opaque, anchored at its centre; `None` when `rgb` does not hold three bytes for each of
    /// the `width * height` pixels.
    pub fn from_rgb_flipped(rgb: Vec<u8>, width: u32, height: u32) -> (r: Option<Sprite>)
        ensures
            r.is_some() == (rgb@.len() == 3 * (width * height)),
            r.is_some() ==> ({
                let s = r.unwrap();
                &&& s.wf()
                &&& s.width == width && s.height == height
                &&& s.anchor_x == width / 2 && s.anchor_y == height / 2
                &&& forall|x: int, y: int|
                    0 <= x < width && 0 <= y < height ==> #[trigger] s.pixel(x, y) == opaque_argb(
                        rgb@[3 * ((height - 1 - y) * width + x)],
                        rgb@[3 * ((height - 1 - y) * width + x) + 1],
                        rgb@[3 * ((height - 1 - y) * width + x) + 2],
                    )
            }),
    {
        let n = area(width, height);
        if (rgb.len() as u128) != 3 * (n as u128) {
            return None;
        }
        let ghost src = rgb@;
        let flipped = flip_rows(rgb, width, height);
        let r = Sprite::from_rgb(&flipped, width, height, width / 2, height / 2);
        proof {
            let s = r.unwrap();
            let w = width as int;
            let h = height as int;
            assert forall|x: int, y: int| 0 <= x < w && 0 <= y < h implies #[trigger] s.pixel(
                x,
                y,
            ) == opaque_argb(
                src[3 * ((h - 1 - y) * w + x)],
                src[3 * ((h - 1 - y) * w + x) + 1],
                src[3 * ((h - 1 - y) * w + x) + 2],
            ) by {
                assert(0 <= y * w + x < w * h) by (nonlinear_arith)
                    requires
                        0 <= x < w,
                        0 <= y < h,
                ;
                lemma_rgb_offset(w, y, x, 0);
                lemma_rgb_offset(w, y, x, 1);
                lemma_rgb_offset(w, y, x, 2);
                lemma_rgb_offset(w, h - 1 - y, x, 0);
                lemma_rgb_offset(w, h - 1 - y, x, 1);
                lemma_rgb_offset(w, h - 1 - y, x, 2);
                assert(flipped@[y * (3 * w) + (3 * x)] == src[(h - 1 - y) * (3 * w) + (3 * x)]);
                assert(flipped@[y * (3 * w) + (3 * x + 1)] == src[(h - 1 - y) * (3 * w) + (3 * x
                    + 1)]);
                assert(flipped@[y * (3 * w) + (3 * x + 2)] == src[(h - 1 - y) * (3 * w) + (3 * x
                    + 2)]);
            }
        }
        r
    }

    /// Whether the buffer holds exactly `width * height` pixels.
    pub fn is_well_formed(&self) -> (r: bool)
        ensures
            r == self.wf(),
    {
        (self.data.len() as u64) == area(self.width, self.height)
    }
}

} // verus!

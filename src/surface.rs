//! A rectangular view over a buffer of packed pixels.

use vstd::prelude::*;
use crate::error::SurfaceError;
use crate::pixel::{ColorChannel, Rgba, is_premultiplied, spec_unpack, unpack_pixel};

verus! {

/// What a surface is: a window of `width` by `height` pixels, rows `stride`
/// pixels apart, starting at `offset` in `buffer`.
pub struct SurfaceView {
    pub buffer: Seq<u32>,
    pub offset: nat,
    pub width: nat,
    pub height: nat,
    pub stride: nat,
    pub channel: ColorChannel,
}

impl SurfaceView {
    /// Every row of the window lies inside the buffer.
    pub open spec fn wf(self) -> bool {
        &&& self.buffer.len() <= usize::MAX
        &&& self.width <= self.stride
        &&& self.height > 0 ==> self.offset + (self.height - 1) * self.stride + self.width
            <= self.buffer.len()
    }

    /// `(x, y)` is a pixel of the window.
    pub open spec fn in_bounds(self, x: int, y: int) -> bool {
        0 <= x < self.width && 0 <= y < self.height
    }

    /// Where pixel `(x, y)` of the window sits in the buffer.
    pub open spec fn index(self, x: int, y: int) -> int {
        self.offset + y * self.stride + x
    }

    /// The packed pixel at `(x, y)`.
    pub open spec fn at(self, x: int, y: int) -> u32 {
        self.buffer[self.index(x, y)]
    }

    /// The channels of the pixel at `(x, y)`.
    pub open spec fn rgba(self, x: int, y: int) -> Rgba {
        spec_unpack(self.at(x, y), self.channel)
    }

    /// The same surface with the pixel at `(x, y)` replaced by `p`.
    pub open spec fn with_pixel(self, x: int, y: int, p: u32) -> SurfaceView {
        SurfaceView { buffer: self.buffer.update(self.index(x, y), p), ..self }
    }

    /// The same window over a buffer of the same length.
    pub open spec fn same_shape(self, other: SurfaceView) -> bool {
        &&& self.buffer.len() == other.buffer.len()
        &&& self.offset == other.offset
        &&& self.width == other.width
        &&& self.height == other.height
        &&& self.stride == other.stride
        &&& self.channel == other.channel
    }

    /// Buffer position `i` is a pixel of the top-left `w` by `h` corner of the window.
    pub open spec fn covers(self, w: int, h: int, i: int) -> bool {
        exists|x: int, y: int| 0 <= x < w && 0 <= y < h && #[trigger] self.index(x, y) == i
    }

    /// Buffer position `i` is one of the first `w` pixels of row `y` of the window.
    pub open spec fn covers_row(self, w: int, y: int, i: int) -> bool {
        exists|x: int| 0 <= x < w && #[trigger] self.index(x, y) == i
    }

    /// Every pixel of the top-left `w` by `h` corner is premultiplied.
    pub open spec fn premultiplied_within(self, w: int, h: int) -> bool {
        forall|x: int, y: int| 0 <= x < w && 0 <= y < h ==> is_premultiplied(#[trigger] self.rgba(x, y))
    }

    /// `new` differs from `self` at most inside the top-left `w` by `h` corner.
    pub open spec fn changed_within(self, new: SurfaceView, w: int, h: int) -> bool {
        &&& self.same_shape(new)
        &&& forall|i: int|
            0 <= i < self.buffer.len() && !self.covers(w, h, i) ==> #[trigger] new.buffer[i]
                == self.buffer[i]
    }
}

/// A pixel inside the window lies inside the buffer.
pub proof fn lemma_index_in_buffer(v: SurfaceView, x: int, y: int)
    requires
        v.wf(),
        v.in_bounds(x, y),
    ensures
        0 <= v.index(x, y) < v.buffer.len(),
{
    assert(y * v.stride <= (v.height - 1) * v.stride) by (nonlinear_arith)
        requires
            0 <= y <= v.height - 1,
    ;
    assert(0 <= y * v.stride) by (nonlinear_arith)
        requires
            0 <= y,
    ;
}

/// Distinct pixels of the window sit at distinct buffer positions.
pub proof fn lemma_index_injective(v: SurfaceView, x1: int, y1: int, x2: int, y2: int)
    requires
        v.wf(),
        v.in_bounds(x1, y1),
        v.in_bounds(x2, y2),
        v.index(x1, y1) == v.index(x2, y2),
    ensures
        x1 == x2 && y1 == y2,
{
    let s = v.stride as int;
    if y1 < y2 {
        assert(y1 * s + s <= y2 * s) by (nonlinear_arith)
            requires
                y1 + 1 <= y2,
                s >= 0,
        ;
    } else if y2 < y1 {
        assert(y2 * s + s <= y1 * s) by (nonlinear_arith)
            requires
                y2 + 1 <= y1,
                s >= 0,
        ;
    }
}

/// A rectangular view over a buffer of packed 32-bit pixels.
pub struct Surface {
    pixels: Vec<u32>,
    offset: usize,
    width: u32,
    height: u32,
    stride: u32,
    channel: ColorChannel,
}

impl View for Surface {
    type V = SurfaceView;

    closed spec fn view(&self) -> SurfaceView {
        SurfaceView {
            buffer: self.pixels@,
            offset: self.offset as nat,
            width: self.width as nat,
            height: self.height as nat,
            stride: self.stride as nat,
            channel: self.channel,
        }
    }
}

/// The layout that a surface takes when none is named.
pub open spec fn spec_channel_or_default(channel: Option<ColorChannel>) -> ColorChannel {
    match channel {
        Some(c) => c,
        None => ColorChannel::RGBA32,
    }
}

impl Surface {
    /// A surface over the whole of `pixels`. Fails when the buffer is shorter
    /// than `stride * height`, or else when `stride` is less than `width`.
    pub fn make(
        pixels: Vec<u32>,
        width: u32,
        height: u32,
        stride: u32,
        channel: Option<ColorChannel>,
    ) -> (r: Result<Surface, SurfaceError>)
        ensures
            r is Ok <==> stride >= width && pixels@.len() >= stride * height,
            pixels@.len() < stride * height ==> r == Err::<Surface, SurfaceError>(
                SurfaceError::InvalidPixelLength,
            ),
            pixels@.len() >= stride * height && stride < width ==> r == Err::<
                Surface,
                SurfaceError,
            >(SurfaceError::StrideLessThanWidth),
            r matches Ok(s) ==> s@ == (SurfaceView {
                buffer: pixels@,
                offset: 0,
                width: width as nat,
                height: height as nat,
                stride: stride as nat,
                channel: spec_channel_or_default(channel),
            }),
            r matches Ok(s) ==> s@.wf(),
    {
        assert(stride * height <= u64::MAX) by (nonlinear_arith)
            requires
                stride <= u32::MAX,
                height <= u32::MAX,
        ;
        let needed: u64 = stride as u64 * height as u64;
        if (pixels.len() as u64) < needed {
            return Err(SurfaceError::InvalidPixelLength);
        }
        if stride < width {
            return Err(SurfaceError::StrideLessThanWidth);
        }
        let channel = match channel {
            Some(c) => c,
            None => ColorChannel::RGBA32,
        };
        if height >= 1 {
            assert((height - 1) * stride + width <= stride * height) by (nonlinear_arith)
                requires
                    height >= 1,
                    width <= stride,
            ;
        }
        Ok(Surface { pixels, offset: 0, width, height, stride, channel })
    }

    /// The window's width in pixels.
    pub fn width(&self) -> (r: u32)
        ensures
            r == self@.width,
    {
        self.width
    }

    /// The window's height in pixels.
    pub fn height(&self) -> (r: u32)
        ensures
            r == self@.height,
    {
        self.height
    }

    /// The distance between rows, in pixels.
    pub fn stride(&self) -> (r: u32)
        ensures
            r == self@.stride,
    {
        self.stride
    }

    /// Where the window starts in the buffer.
    pub fn offset(&self) -> (r: usize)
        ensures
            r == self@.offset,
    {
        self.offset
    }

    /// The byte layout of the pixels.
    pub fn channel(&self) -> (r: ColorChannel)
        ensures
            r == self@.channel,
    {
        self.channel
    }

    /// The whole buffer the surface views.
    pub fn pixels(&self) -> (r: &Vec<u32>)
        ensures
            r@ == self@.buffer,
    {
        &self.pixels
    }

    /// Gives the buffer back.
    pub fn into_pixels(self) -> (r: Vec<u32>)
        ensures
            r@ == self@.buffer,
    {
        self.pixels
    }

    /// The view of the region at `(x, y)` of size `w` by `h`, clipped to this
    /// surface, over the same buffer. An empty region keeps the offset.
    pub fn make_sub(self, x: u32, y: u32, w: u32, h: u32) -> (r: Surface)
        requires
            self@.wf(),
        ensures
            r@.wf(),
            r@.buffer == self@.buffer,
            r@.stride == self@.stride,
            r@.channel == self@.channel,
            r@.width == spec_min(w as int, self@.width - spec_min(x as int, self@.width as int)),
            r@.height == spec_min(h as int, self@.height - spec_min(y as int, self@.height as int)),
            r@.width > 0 && r@.height > 0 ==> r@.offset == self@.offset + spec_min(
                y as int,
                self@.height as int,
            ) * self@.stride + spec_min(x as int, self@.width as int),
            r@.width == 0 || r@.height == 0 ==> r@.offset == self@.offset,
    {
        let x = if x < self.width {
            x
        } else {
            self.width
        };
        let y = if y < self.height {
            y
        } else {
            self.height
        };
        let w = if w < self.width - x {
            w
        } else {
            self.width - x
        };
        let h = if h < self.height - y {
            h
        } else {
            self.height - y
        };
        let offset = if w > 0 && h > 0 {
            proof {
                let v = self@;
                assert(v.offset + y * v.stride + x + (h - 1) * v.stride + w <= v.offset + (
                v.height - 1) * v.stride + v.width) by (nonlinear_arith)
                    requires
                        y + h <= v.height,
                        x + w <= v.width,
                        h >= 1,
                ;
                assert(0 <= y * v.stride <= y * v.stride + (h - 1) * v.stride) by (nonlinear_arith)
                    requires
                        h >= 1,
                        y >= 0,
                ;
                assert(0 <= (h - 1) * v.stride) by (nonlinear_arith)
                    requires
                        h >= 1,
                ;
            }
            self.offset + y as usize * self.stride as usize + x as usize
        } else {
            proof {
                let v = self@;
                if h > 0 {
                    assert((h - 1) * v.stride <= (v.height - 1) * v.stride) by (nonlinear_arith)
                        requires
                            1 <= h <= v.height,
                    ;
                }
            }
            self.offset
        };
        Surface { pixels: self.pixels, offset, width: w, height: h, stride: self.stride, channel: self.channel }
    }

    /// Whether every pixel of the window is premultiplied: no colour channel
    /// above alpha.
    pub fn is_premultiplied(&self) -> (r: bool)
        requires
            self@.wf(),
        ensures
            r == self@.premultiplied_within(self@.width as int, self@.height as int),
    {
        let mut y: u32 = 0;
        while y < self.height
            invariant
                self@.wf(),
                y <= self@.height,
                self@.premultiplied_within(self@.width as int, y as int),
            decreases self@.height - y,
        {
            let mut x: u32 = 0;
            while x < self.width
                invariant
                    self@.wf(),
                    y < self@.height,
                    x <= self@.width,
                    self@.premultiplied_within(self@.width as int, y as int),
                    forall|i: int| 0 <= i < x ==> is_premultiplied(#[trigger] self@.rgba(i, y as int)),
                decreases self@.width - x,
            {
                let c = unpack_pixel(self.get_pixel(x, y), self.channel);
                if c.r > c.a || c.g > c.a || c.b > c.a {
                    assert(!is_premultiplied(self@.rgba(x as int, y as int)));
                    return false;
                }
                x = x + 1;
            }
            y = y + 1;
        }
        true
    }

    /// The packed pixel at `(x, y)` of the window.
    pub fn get_pixel(&self, x: u32, y: u32) -> (r: u32)
        requires
            self@.wf(),
            self@.in_bounds(x as int, y as int),
        ensures
            r == self@.at(x as int, y as int),
    {
        proof {
            lemma_index_in_buffer(self@, x as int, y as int);
            assert(0 <= y * self.stride <= self@.index(x as int, y as int)) by (nonlinear_arith)
                requires
                    y >= 0,
                    self.stride >= 0,
                    self@.index(x as int, y as int) == self.offset + y * self.stride + x,
                    x >= 0,
            ;
        }
        self.pixels[self.offset + y as usize * self.stride as usize + x as usize]
    }

    /// Replaces the packed pixel at `(x, y)` of the window.
    pub fn set_pixel(&mut self, x: u32, y: u32, p: u32)
        requires
            old(self)@.wf(),
            old(self)@.in_bounds(x as int, y as int),
        ensures
            final(self)@ == old(self)@.with_pixel(x as int, y as int, p),
            final(self)@.wf(),
    {
        proof {
            lemma_index_in_buffer(self@, x as int, y as int);
            assert(0 <= y * self.stride <= self@.index(x as int, y as int)) by (nonlinear_arith)
                requires
                    y >= 0,
                    self.stride >= 0,
                    self@.index(x as int, y as int) == self.offset + y * self.stride + x,
                    x >= 0,
            ;
        }
        let i = self.offset + y as usize * self.stride as usize + x as usize;
        self.pixels.set(i, p);
    }
}

/// The smaller of `a` and `b`.
pub open spec fn spec_min(a: int, b: int) -> int {
    if a < b {
        a
    } else {
        b
    }
}

} // verus!

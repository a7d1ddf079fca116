use vstd::prelude::*;

verus! {

/// A condition under which a frame's buffer cannot be read as the frame claims.
#[derive(Clone, Copy, Debug, PartialEq, Eq, Structural)]
pub enum FrameError {
    /// Width or height is negative.
    NegativeDimensions,
    /// The buffer does not hold `width * height * channels` bytes.
    BufferMismatch,
    /// The channel count is neither 1 nor 3.
    UnsupportedChannels,
    /// The operation needs a single-channel frame.
    NotGrayscale,
}

/// A rectangular pixel buffer, row-major, with one (grayscale) or three
/// (interleaved RGB) bytes per pixel.
#[derive(Debug)]
pub struct Frame {
    pub data: Vec<u8>,
    pub width: i32,
    pub height: i32,
    pub channels: i32,
}

/// Luma of an RGB triple, `0.299 R + 0.587 G + 0.114 B`, truncated.
pub open spec fn luma(r: int, g: int, b: int) -> int {
    (299 * r + 587 * g + 114 * b) / 1000
}

/// Position in a row-major buffer of the pixel at column `x`, row `y`,
/// for rows of `width` pixels.
pub open spec fn pixel_index(width: int, x: int, y: int) -> int {
    y * width + x
}

/// Distinct pixels of a `width` by `height` frame have distinct positions,
/// all below `width * height`.
pub proof fn lemma_pixel_index(width: int, height: int, x1: int, y1: int, x2: int, y2: int)
    requires
        0 <= x1 < width,
        0 <= y1 < height,
        0 <= x2 < width,
        0 <= y2 < height,
    ensures
        0 <= pixel_index(width, x1, y1) < width * height,
        pixel_index(width, x1, y1) == pixel_index(width, x2, y2) ==> x1 == x2 && y1 == y2,
{
    assert(0 <= y1 * width + x1 < width * height) by (nonlinear_arith)
        requires
            0 <= x1 < width,
            0 <= y1 < height,
    ;
    if y1 < y2 {
        assert(y1 * width + x1 < y2 * width + x2) by (nonlinear_arith)
            requires
                0 <= x1 < width,
                0 <= x2,
                y1 < y2,
        ;
    } else if y2 < y1 {
        assert(y2 * width + x2 < y1 * width + x1) by (nonlinear_arith)
            requires
                0 <= x2 < width,
                0 <= x1,
                y2 < y1,
        ;
    }
}

/// Every pixel other than `(x, y)` has a position other than that of `(x, y)`.
pub proof fn lemma_pixel_index_distinct(width: int, height: int, x: int, y: int)
    requires
        0 <= x < width,
        0 <= y < height,
    ensures
        0 <= pixel_index(width, x, y) < width * height,
        forall|x2: int, y2: int|
            0 <= x2 < width && 0 <= y2 < height && (x2 != x || y2 != y)
                ==> #[trigger] pixel_index(width, x2, y2) != pixel_index(width, x, y),
{
    lemma_pixel_index(width, height, x, y, x, y);
    assert forall|x2: int, y2: int|
        0 <= x2 < width && 0 <= y2 < height && (x2 != x || y2 != y) implies
        #[trigger] pixel_index(width, x2, y2) != pixel_index(width, x, y) by {
        lemma_pixel_index(width, height, x2, y2, x, y);
    }
}

/// `pixels` RGB pixels, each the grey byte of `data` at its position
/// replicated three times, or black past the end of `data`.
pub open spec fn expanded_gray(data: Seq<u8>, pixels: int) -> Seq<u8> {
    Seq::new((3 * pixels) as nat, |j: int| if j / 3 < data.len() { data[j / 3] } else { 0u8 })
}

fn expand_gray(data: &Vec<u8>, pixels: usize) -> (r: Vec<u8>)
    requires
        3 * pixels <= usize::MAX,
    ensures
        r@ == expanded_gray(data@, pixels as int),
{
    let ghost target = expanded_gray(data@, pixels as int);
    let mut out: Vec<u8> = Vec::with_capacity(3 * pixels);
    let mut p: usize = 0;
    while p < pixels
        invariant
            p <= pixels,
            3 * pixels <= usize::MAX,
            target == expanded_gray(data@, pixels as int),
            out@ == target.take(3 * p),
        decreases pixels - p,
    {
        let v: u8 = if p < data.len() {
            data[p]
        } else {
            0
        };
        out.push(v);
        out.push(v);
        out.push(v);
        p = p + 1;
        assert(out@ =~= target.take(3 * p));
    }
    assert(out@ =~= target);
    out
}

impl Frame {
    /// Number of pixels; zero when a dimension is not positive.
    pub open spec fn area(&self) -> int {
        if self.width > 0 && self.height > 0 {
            self.width * self.height
        } else {
            0
        }
    }

    /// The buffer holds exactly `width * height * channels` bytes, for a
    /// supported channel count and non-negative dimensions.
    pub open spec fn is_well_formed(&self) -> bool {
        &&& self.width >= 0
        &&& self.height >= 0
        &&& (self.channels == 1 || self.channels == 3)
        &&& self.data@.len() == self.width * self.height * self.channels
    }

    /// A single-channel frame of the given size whose buffer is `data`.
    pub open spec fn is_gray_of_size(&self, width: int, height: int) -> bool {
        &&& self.width == width
        &&& self.height == height
        &&& self.channels == 1
        &&& self.data@.len() == width * height
    }

    /// The pixel at column `x`, row `y`, as an RGB triple: `None` outside the
    /// frame, past the end of the buffer, or for an unsupported channel count.
    pub open spec fn pixel_at(&self, x: int, y: int) -> Option<(i32, i32, i32)> {
        if x < 0 || x >= self.width || y < 0 || y >= self.height {
            None
        } else if self.channels == 1 {
            let i = y * self.width + x;
            if i < self.data@.len() {
                let v = self.data@[i] as i32;
                Some((v, v, v))
            } else {
                None
            }
        } else if self.channels == 3 {
            let i = 3 * (y * self.width + x);
            if i + 2 < self.data@.len() {
                Some((self.data@[i] as i32, self.data@[i + 1] as i32, self.data@[i + 2] as i32))
            } else {
                None
            }
        } else {
            None
        }
    }

    /// The first component of the pixel at `(x, y)`, or 0 where there is none.
    pub open spec fn value_at(&self, x: int, y: int) -> int {
        match self.pixel_at(x, y) {
            Some((v, _, _)) => v as int,
            None => 0,
        }
    }

    /// The luma of the pixel at `(x, y)`, or 0 where there is none.
    pub open spec fn luma_at(&self, x: int, y: int) -> int {
        match self.pixel_at(x, y) {
            Some((r, g, b)) => luma(r as int, g as int, b as int),
            None => 0,
        }
    }

    /// One luma byte per pixel, row-major: pixel `i` sits at column `i % width`
    /// and row `i / width`.
    pub open spec fn luma_buffer(&self) -> Seq<u8> {
        Seq::new((self.width * self.height) as nat, |i: int| self.luma_at(i % self.width as int, i / self.width as int) as u8)
    }

    /// `self` is `src` reduced to one channel: `src` itself when it has one
    /// channel already, else the luma of each of its pixels.
    pub open spec fn is_grayscale_of(&self, src: &Frame) -> bool {
        &&& self.width == src.width
        &&& self.height == src.height
        &&& self.channels == 1
        &&& self.data@ == if src.channels == 1 {
            src.data@
        } else {
            src.luma_buffer()
        }
    }

    /// In a single-channel frame whose buffer fits its size, the value at
    /// `(x, y)` is the byte at that pixel's position.
    pub proof fn lemma_gray_value_at(&self, x: int, y: int)
        requires
            self.is_gray_of_size(self.width as int, self.height as int),
            0 <= x < self.width,
            0 <= y < self.height,
        ensures
            self.value_at(x, y) == self.data@[pixel_index(self.width as int, x, y)] as int,
    {
        lemma_pixel_index(self.width as int, self.height as int, x, y, x, y);
    }

    /// A copy of the frame, with its own buffer.
    pub fn duplicate(&self) -> (r: Frame)
        ensures
            r.data@ == self.data@,
            r.width == self.width,
            r.height == self.height,
            r.channels == self.channels,
    {
        let mut data: Vec<u8> = Vec::with_capacity(self.data.len());
        let mut i: usize = 0;
        while i < self.data.len()
            invariant
                i <= self.data@.len(),
                data@ == self.data@.take(i as int),
            decreases self.data@.len() - i,
        {
            data.push(self.data[i]);
            i = i + 1;
            assert(data@ =~= self.data@.take(i as int));
        }
        assert(data@ =~= self.data@);
        Frame { data, width: self.width, height: self.height, channels: self.channels }
    }

    /// The frame as interleaved RGB: unchanged when it has three channels,
    /// else each grey byte replicated into the three components, for
    /// `width * height` pixels (black past the end of the buffer).
    pub fn to_rgb(self) -> (r: Frame)
        requires
            self.channels != 3 ==> 0 <= self.width * self.height,
            self.channels != 3 ==> self.data@.len() <= self.width * self.height,
            self.channels != 3 ==> 3 * (self.width * self.height) <= usize::MAX,
        ensures
            self.channels == 3 ==> r == self,
            self.channels != 3 ==> {
                &&& r.width == self.width
                &&& r.height == self.height
                &&& r.channels == 3
                &&& r.data@ == expanded_gray(self.data@, self.width * self.height)
            },
    {
        if self.channels == 3 {
            return self;
        }
        let w = self.width as i64;
        let h = self.height as i64;
        assert(-0x8000_0000 * 0x8000_0000 <= w * h <= 0x8000_0000 * 0x8000_0000) by (nonlinear_arith)
            requires
                -0x8000_0000 <= w < 0x8000_0000,
                -0x8000_0000 <= h < 0x8000_0000,
        ;
        let pixels = (w * h) as usize;
        let data = expand_gray(&self.data, pixels);
        Frame { data, width: self.width, height: self.height, channels: 3 }
    }

    /// The bytes of the frame as an RGB image, grey expanded to three
    /// channels. Fails on a negative dimension, an unsupported channel
    /// count, or a buffer that does not hold `width * height * channels` bytes.
    pub fn rgb_bytes(&self) -> (r: Result<Vec<u8>, FrameError>)
        requires
            self.channels == 1 ==> 3 * self.area() <= usize::MAX,
        ensures
            self.width < 0 || self.height < 0 <==> r == Err::<Vec<u8>, FrameError>(
                FrameError::NegativeDimensions,
            ),
            self.width >= 0 && self.height >= 0 && self.channels != 1 && self.channels != 3 <==> r
                == Err::<Vec<u8>, FrameError>(FrameError::UnsupportedChannels),
            self.width >= 0 && self.height >= 0 && (self.channels == 1 || self.channels == 3)
                && !self.is_well_formed() <==> r == Err::<Vec<u8>, FrameError>(
                FrameError::BufferMismatch,
            ),
            r is Ok <==> self.is_well_formed(),
            r is Ok && self.channels == 3 ==> r->Ok_0@ == self.data@,
            r is Ok && self.channels == 1 ==> r->Ok_0@ == expanded_gray(self.data@, self.area()),
    {
        if self.width < 0 || self.height < 0 {
            return Err(FrameError::NegativeDimensions);
        }
        if self.channels != 1 && self.channels != 3 {
            return Err(FrameError::UnsupportedChannels);
        }
        let wu = self.width as u64;
        let hu = self.height as u64;
        let cu = self.channels as u64;
        assert(wu * hu * cu <= 0x8000_0000 * 0x8000_0000 * 3) by (nonlinear_arith)
            requires
                wu < 0x8000_0000,
                hu < 0x8000_0000,
                cu <= 3,
        ;
        if wu * hu * cu != self.data.len() as u64 {
            return Err(FrameError::BufferMismatch);
        }
        if self.channels == 3 {
            let copy = self.duplicate();
            Ok(copy.data)
        } else {
            assert(self.area() == wu * hu) by (nonlinear_arith)
                requires
                    wu == self.width,
                    hu == self.height,
                    wu >= 0,
                    hu >= 0,
                    self.area() == if self.width > 0 && self.height > 0 {
                        self.width * self.height
                    } else {
                        0
                    },
            ;
            Ok(expand_gray(&self.data, (wu * hu) as usize))
        }
    }

    pub fn get_pixel(&self, x: i32, y: i32) -> (r: Option<(i32, i32, i32)>)
        ensures
            r == self.pixel_at(x as int, y as int),
    {
        if x < 0 || x >= self.width || y < 0 || y >= self.height {
            return None;
        }
        let xu = x as u64;
        let yu = y as u64;
        let wu = self.width as u64;
        assert(yu * wu <= 0x7fff_ffff * 0x7fff_ffff) by (nonlinear_arith)
            requires
                yu < 0x8000_0000,
                wu < 0x8000_0000,
        ;
        let base = yu * wu + xu;
        if self.channels == 1 {
            if base >= self.data.len() as u64 {
                return None;
            }
            let v = self.data[base as usize] as i32;
            Some((v, v, v))
        } else if self.channels == 3 {
            let index = 3 * base;
            if index + 2 >= self.data.len() as u64 {
                return None;
            }
            let i = index as usize;
            Some((self.data[i] as i32, self.data[i + 1] as i32, self.data[i + 2] as i32))
        } else {
            None
        }
    }

    /// Reduces the frame to one channel in place (see `is_grayscale_of`):
    /// `width * height` luma bytes, 0 for a pixel that cannot be read.
    pub fn to_grayscale(&mut self)
        requires
            old(self).channels != 1 ==> 0 <= old(self).width * old(self).height <= usize::MAX,
        ensures
            final(self).is_grayscale_of(old(self)),
    {
        if self.channels == 1 {
            return;
        }
        let wi = self.width as i64;
        let hi = self.height as i64;
        assert(-0x8000_0000 * 0x8000_0000 <= wi * hi <= 0x8000_0000 * 0x8000_0000) by (nonlinear_arith)
            requires
                -0x8000_0000 <= wi < 0x8000_0000,
                -0x8000_0000 <= hi < 0x8000_0000,
        ;
        let size = (wi * hi) as usize;
        let mut gray: Vec<u8> = Vec::with_capacity(size);
        let mut i: usize = 0;
        while i < size
            invariant
                size == self.width * self.height,
                self.channels != 1,
                i <= size,
                gray@ == self.luma_buffer().take(i as int),
            decreases size - i,
        {
            let v: u8 = if self.width > 0 {
                let w = self.width as usize;
                let xu = i % w;
                let yu = i / w;
                assert(0 <= yu < self.height) by (nonlinear_arith)
                    requires
                        yu == i / w,
                        i < size,
                        size == w * self.height,
                        w > 0,
                ;
                let x = xu as i32;
                let y = yu as i32;
                match self.get_pixel(x, y) {
                    Some((r, g, b)) => ((299 * r + 587 * g + 114 * b) / 1000) as u8,
                    None => 0,
                }
            } else {
                assert(self.luma_at(i as int % self.width as int, i as int / self.width as int) == 0);
                0
            };
            assert(v == self.luma_buffer()[i as int]);
            gray.push(v);
            i = i + 1;
            assert(gray@ =~= self.luma_buffer().take(i as int));
        }
        assert(gray@ =~= self.luma_buffer());
        self.data = gray;
        self.channels = 1;
    }
}

/// Reducing a frame to one channel a second time changes nothing.
pub proof fn grayscale_is_idempotent(src: &Frame, once: &Frame, twice: &Frame)
    requires
        once.is_grayscale_of(src),
        twice.is_grayscale_of(once),
    ensures
        twice.data@ == once.data@,
        twice.width == once.width,
        twice.height == once.height,
        twice.channels == once.channels,
{
}

} // verus!

use vstd::prelude::*;

use crate::frame::{Frame, FrameError};
use crate::threshold::is_grid_of_size;

verus! {

/// The intensity gradient at one pixel, held exactly as its horizontal and
/// vertical Sobel responses. Its magnitude is `sqrt(gx^2 + gy^2)` and its
/// direction `atan2(gy, gx)`; both are functions of the two components.
#[derive(Clone, Copy, Debug, PartialEq, Eq, Structural)]
pub struct PixelGradient {
    pub gx: i32,
    pub gy: i32,
}

impl PixelGradient {
    pub fn new(gx: i32, gy: i32) -> (r: PixelGradient)
        ensures
            r.gx == gx && r.gy == gy,
    {
        PixelGradient { gx, gy }
    }

    /// The square of the magnitude.
    pub open spec fn magnitude_sq(&self) -> int {
        self.gx * self.gx + self.gy * self.gy
    }

    pub fn magnitude_squared(&self) -> (r: u64)
        ensures
            r == self.magnitude_sq(),
    {
        let ax: u64 = if self.gx < 0 {
            (-(self.gx as i64)) as u64
        } else {
            self.gx as u64
        };
        let ay: u64 = if self.gy < 0 {
            (-(self.gy as i64)) as u64
        } else {
            self.gy as u64
        };
        assert(ax * ax <= 0x4000_0000_0000_0000 && ay * ay <= 0x4000_0000_0000_0000) by (nonlinear_arith)
            requires
                ax <= 0x8000_0000,
                ay <= 0x8000_0000,
        ;
        assert(ax * ax == self.gx * self.gx && ay * ay == self.gy * self.gy) by (nonlinear_arith)
            requires
                ax == self.gx || ax == -self.gx,
                ay == self.gy || ay == -self.gy,
        ;
        ax * ax + ay * ay
    }
}

/// Weight of the horizontal Sobel kernel `[-1 0 1; -2 0 2; -1 0 1]` at
/// column `kx`, row `ky`.
pub open spec fn sobel_x(kx: int, ky: int) -> int {
    let sign: int = if kx == 0 {
        -1
    } else if kx == 1 {
        0
    } else {
        1
    };
    if ky == 1 {
        2 * sign
    } else {
        sign
    }
}

/// Weight of the vertical Sobel kernel `[-1 -2 -1; 0 0 0; 1 2 1]` at
/// column `kx`, row `ky`.
pub open spec fn sobel_y(kx: int, ky: int) -> int {
    let sign: int = if ky == 0 {
        -1
    } else if ky == 1 {
        0
    } else {
        1
    };
    if kx == 1 {
        2 * sign
    } else {
        sign
    }
}

/// The first `k` taps, in row-major order, of the dot product of the 3x3
/// neighbourhood of `(x, y)` with the kernel `horizontal ? Kx : Ky`; a
/// neighbour outside the frame contributes 0.
pub open spec fn sobel_partial(f: Frame, x: int, y: int, horizontal: bool, k: nat) -> int
    decreases k,
{
    if k == 0 {
        0
    } else {
        let t = k - 1;
        let kx = t % 3;
        let ky = t / 3;
        let w = if horizontal {
            sobel_x(kx, ky)
        } else {
            sobel_y(kx, ky)
        };
        sobel_partial(f, x, y, horizontal, (k - 1) as nat) + f.value_at(x + kx - 1, y + ky - 1) * w
    }
}

/// The horizontal Sobel response at `(x, y)`.
pub open spec fn gradient_x(f: Frame, x: int, y: int) -> int {
    sobel_partial(f, x, y, true, 9)
}

/// The vertical Sobel response at `(x, y)`.
pub open spec fn gradient_y(f: Frame, x: int, y: int) -> int {
    sobel_partial(f, x, y, false, 9)
}

/// `(x, y)` is neither in the first or last row nor in the first or last column.
pub open spec fn is_interior(x: int, y: int, width: int, height: int) -> bool {
    1 <= x < width - 1 && 1 <= y < height - 1
}

/// The gradient grid entry at `(x, y)`: the Sobel responses at interior
/// pixels, zero on the border.
pub open spec fn gradient_at(f: Frame, x: int, y: int) -> PixelGradient {
    if is_interior(x, y, f.width as int, f.height as int) {
        PixelGradient { gx: gradient_x(f, x, y) as i32, gy: gradient_y(f, x, y) as i32 }
    } else {
        PixelGradient { gx: 0, gy: 0 }
    }
}

/// Sum of the first `k` weights of the kernel, in row-major order.
spec fn weight_sum(horizontal: bool, k: nat) -> int
    decreases k,
{
    if k == 0 {
        0
    } else {
        let t = k - 1;
        weight_sum(horizontal, (k - 1) as nat) + if horizontal {
            sobel_x(t % 3, t / 3)
        } else {
            sobel_y(t % 3, t / 3)
        }
    }
}

proof fn lemma_uniform_partial(f: Frame, x: int, y: int, horizontal: bool, k: nat, v: int)
    requires
        k <= 9,
        forall|a: int, b: int|
            x - 1 <= a <= x + 1 && y - 1 <= b <= y + 1 ==> #[trigger] f.value_at(a, b) == v,
    ensures
        sobel_partial(f, x, y, horizontal, k) == v * weight_sum(horizontal, k),
    decreases k,
{
    if k > 0 {
        let t = k - 1;
        lemma_uniform_partial(f, x, y, horizontal, (k - 1) as nat, v);
        let w = if horizontal {
            sobel_x(t % 3, t / 3)
        } else {
            sobel_y(t % 3, t / 3)
        };
        let p = sobel_partial(f, x, y, horizontal, (k - 1) as nat);
        let ws = weight_sum(horizontal, (k - 1) as nat);
        assert(f.value_at(x + t % 3 - 1, y + t / 3 - 1) == v);
        assert(p + v * w == v * (ws + w)) by (nonlinear_arith)
            requires
                p == v * ws,
        ;
    }
}

/// On a frame whose pixels all hold one value, every gradient is zero: its
/// magnitude is 0 and, both components being 0, so is its direction.
pub proof fn uniform_frame_has_zero_gradient(f: Frame, v: u8, x: int, y: int)
    requires
        f.is_gray_of_size(f.width as int, f.height as int),
        forall|i: int| 0 <= i < f.data@.len() ==> #[trigger] f.data@[i] == v,
        0 <= x < f.width,
        0 <= y < f.height,
    ensures
        gradient_at(f, x, y) == (PixelGradient { gx: 0, gy: 0 }),
        gradient_at(f, x, y).magnitude_sq() == 0,
{
    if is_interior(x, y, f.width as int, f.height as int) {
        assert forall|a: int, b: int| 0 <= a < f.width && 0 <= b < f.height implies #[trigger] f.value_at(
            a,
            b,
        ) == v by {
            f.lemma_gray_value_at(a, b);
            crate::frame::lemma_pixel_index(f.width as int, f.height as int, a, b, a, b);
        }
        lemma_uniform_partial(f, x, y, true, 9, v as int);
        lemma_uniform_partial(f, x, y, false, 9, v as int);
        reveal_with_fuel(weight_sum, 10);
        assert(weight_sum(true, 9) == 0);
        assert(weight_sum(false, 9) == 0);
        assert(gradient_x(f, x, y) == 0);
        assert(gradient_y(f, x, y) == 0);
    }
    let g = gradient_at(f, x, y);
    assert(g.magnitude_sq() == 0) by (nonlinear_arith)
        requires
            g.gx == 0,
            g.gy == 0,
            g.magnitude_sq() == g.gx * g.gx + g.gy * g.gy,
    ;
}

/// The Sobel kernels.
pub struct SobelOperator {
    kernel_x: [[i32; 3]; 3],
    kernel_y: [[i32; 3]; 3],
}

proof fn lemma_sobel_partial_bound(f: Frame, x: int, y: int, horizontal: bool, k: nat)
    requires
        k <= 9,
    ensures
        -510 * k <= sobel_partial(f, x, y, horizontal, k) <= 510 * k,
    decreases k,
{
    if k > 0 {
        lemma_sobel_partial_bound(f, x, y, horizontal, (k - 1) as nat);
        let t = k - 1;
        let kx = t % 3;
        let ky = t / 3;
        let v = f.value_at(x + kx - 1, y + ky - 1);
        let w = if horizontal {
            sobel_x(kx, ky)
        } else {
            sobel_y(kx, ky)
        };
        assert(0 <= v <= 255);
        assert(0 <= kx < 3 && 0 <= ky < 3);
        assert(-2 <= w <= 2);
        assert(-510 <= v * w <= 510) by (nonlinear_arith)
            requires
                0 <= v <= 255,
                -2 <= w <= 2,
        ;
    }
}

impl SobelOperator {
    /// Weight of the stored horizontal kernel at column `kx`, row `ky`.
    pub closed spec fn weight_x(&self, kx: int, ky: int) -> int {
        self.kernel_x@[ky]@[kx] as int
    }

    /// Weight of the stored vertical kernel at column `kx`, row `ky`.
    pub closed spec fn weight_y(&self, kx: int, ky: int) -> int {
        self.kernel_y@[ky]@[kx] as int
    }

    /// The stored kernels are the Sobel kernels.
    pub open spec fn has_sobel_kernels(&self) -> bool {
        forall|kx: int, ky: int|
            0 <= kx < 3 && 0 <= ky < 3 ==> #[trigger] self.weight_x(kx, ky) == sobel_x(kx, ky)
                && self.weight_y(kx, ky) == sobel_y(kx, ky)
    }

    pub fn new() -> (r: SobelOperator)
        ensures
            r.has_sobel_kernels(),
    {
        let r = SobelOperator {
            kernel_x: [[-1, 0, 1], [-2, 0, 2], [-1, 0, 1]],
            kernel_y: [[-1, -2, -1], [0, 0, 0], [1, 2, 1]],
        };
        assert(r.has_sobel_kernels()) by {
            assert forall|kx: int, ky: int| 0 <= kx < 3 && 0 <= ky < 3 implies #[trigger] r.weight_x(
                kx,
                ky,
            ) == sobel_x(kx, ky) && r.weight_y(kx, ky) == sobel_y(kx, ky) by {
                if ky == 0 {
                    assert(r.kernel_x@[ky]@ == seq![-1i32, 0i32, 1i32]);
                    assert(r.kernel_y@[ky]@ == seq![-1i32, -2i32, -1i32]);
                } else if ky == 1 {
                    assert(r.kernel_x@[ky]@ == seq![-2i32, 0i32, 2i32]);
                    assert(r.kernel_y@[ky]@ == seq![0i32, 0i32, 0i32]);
                } else {
                    assert(r.kernel_x@[ky]@ == seq![-1i32, 0i32, 1i32]);
                    assert(r.kernel_y@[ky]@ == seq![1i32, 2i32, 1i32]);
                }
            }
        }
        r
    }

    fn apply_kernels(&self, frame: &Frame, x: i32, y: i32) -> (r: (i32, i32))
        requires
            self.has_sobel_kernels(),
            i32::MIN < x < i32::MAX,
            i32::MIN < y < i32::MAX,
        ensures
            r.0 == gradient_x(*frame, x as int, y as int),
            r.1 == gradient_y(*frame, x as int, y as int),
    {
        let mut gx: i32 = 0;
        let mut gy: i32 = 0;
        let mut k: usize = 0;
        while k < 9
            invariant
                self.has_sobel_kernels(),
                i32::MIN < x < i32::MAX,
                i32::MIN < y < i32::MAX,
                k <= 9,
                gx == sobel_partial(*frame, x as int, y as int, true, k as nat),
                gy == sobel_partial(*frame, x as int, y as int, false, k as nat),
            decreases 9 - k,
        {
            let kx = k % 3;
            let ky = k / 3;
            proof {
                lemma_sobel_partial_bound(*frame, x as int, y as int, true, (k + 1) as nat);
                lemma_sobel_partial_bound(*frame, x as int, y as int, false, (k + 1) as nat);
            }
            assert(sobel_partial(*frame, x as int, y as int, true, (k + 1) as nat) == sobel_partial(
                *frame,
                x as int,
                y as int,
                true,
                k as nat,
            ) + frame.value_at(x + kx - 1, y + ky - 1) * sobel_x(kx as int, ky as int));
            assert(sobel_partial(*frame, x as int, y as int, false, (k + 1) as nat) == sobel_partial(
                *frame,
                x as int,
                y as int,
                false,
                k as nat,
            ) + frame.value_at(x + kx - 1, y + ky - 1) * sobel_y(kx as int, ky as int));
            assert(self.weight_x(kx as int, ky as int) == sobel_x(kx as int, ky as int));
            assert(self.weight_y(kx as int, ky as int) == sobel_y(kx as int, ky as int));
            if let Some((value, _, _)) = frame.get_pixel(x + (kx as i32 - 1), y + (ky as i32 - 1)) {
                assert(frame.value_at(x + kx - 1, y + ky - 1) == value);
                let wx = self.kernel_x[ky][kx];
                let wy = self.kernel_y[ky][kx];
                assert(-2 <= wx <= 2 && -2 <= wy <= 2);
                assert(-510 <= value * wx <= 510 && -510 <= value * wy <= 510) by (nonlinear_arith)
                    requires
                        0 <= value <= 255,
                        -2 <= wx <= 2,
                        -2 <= wy <= 2,
                ;
                gx = gx + value * wx;
                gy = gy + value * wy;
            } else {
                assert(frame.value_at(x + kx - 1, y + ky - 1) == 0);
            }
            assert(gx == sobel_partial(*frame, x as int, y as int, true, (k + 1) as nat));
            k = k + 1;
        }
        (gx, gy)
    }

    /// The gradient grid of a single-channel frame: Sobel responses at
    /// interior pixels, zero on the border. Fails on a frame with another
    /// channel count, or with a negative dimension.
    pub fn calculate_gradient(frame: &Frame) -> (r: Result<Vec<Vec<PixelGradient>>, FrameError>)
        ensures
            frame.channels != 1 <==> r == Err::<Vec<Vec<PixelGradient>>, FrameError>(
                FrameError::NotGrayscale,
            ),
            frame.channels == 1 && (frame.width < 0 || frame.height < 0) <==> r == Err::<
                Vec<Vec<PixelGradient>>,
                FrameError,
            >(FrameError::NegativeDimensions),
            frame.channels == 1 && frame.width >= 0 && frame.height >= 0 ==> r is Ok,
            r is Ok ==> is_grid_of_size(r->Ok_0@, frame.width as int, frame.height as int),
            r is Ok ==> forall|x: int, y: int|
                0 <= x < frame.width && 0 <= y < frame.height ==> #[trigger] r->Ok_0@[y]@[x]
                    == gradient_at(*frame, x, y),
    {
        if frame.channels != 1 {
            return Err(FrameError::NotGrayscale);
        }
        if frame.width < 0 || frame.height < 0 {
            return Err(FrameError::NegativeDimensions);
        }
        let height = frame.height;
        let width = frame.width;
        let sobel = SobelOperator::new();
        let mut gradients: Vec<Vec<PixelGradient>> = Vec::new();
        let mut y: i32 = 0;
        while y < height
            invariant
                sobel.has_sobel_kernels(),
                height == frame.height,
                width == frame.width,
                0 <= width,
                0 <= y <= height,
                is_grid_of_size(gradients@, width as int, y as int),
                forall|x1: int, y1: int|
                    0 <= x1 < width && 0 <= y1 < y ==> #[trigger] gradients@[y1]@[x1]
                        == gradient_at(*frame, x1, y1),
            decreases height - y,
        {
            let mut row: Vec<PixelGradient> = Vec::new();
            let mut x: i32 = 0;
            while x < width
                invariant
                    sobel.has_sobel_kernels(),
                    height == frame.height,
                    width == frame.width,
                    0 <= width,
                    0 <= y < height,
                    0 <= x <= width,
                    row@.len() == x,
                    forall|x1: int| 0 <= x1 < x ==> #[trigger] row@[x1] == gradient_at(*frame, x1, y as int),
                decreases width - x,
            {
                if 1 <= x && x < width - 1 && 1 <= y && y < height - 1 {
                    let (gx, gy) = sobel.apply_kernels(frame, x, y);
                    row.push(PixelGradient::new(gx, gy));
                } else {
                    row.push(PixelGradient::new(0, 0));
                }
                x = x + 1;
            }
            gradients.push(row);
            y = y + 1;
        }
        Ok(gradients)
    }
}

} // verus!

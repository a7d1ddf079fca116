use vstd::prelude::*;
use vstd::string::StringExecFns;

use crate::frame::{lemma_pixel_index, pixel_index, Frame};

verus! {

/// Kernel weights are fixed-point fractions of this unit: a kernel whose
/// weights add up to `KERNEL_UNIT` sums to exactly 1.
pub const KERNEL_UNIT: u64 = 65536;

/// Why a blur stage could not be built or could not process a frame.
#[derive(Debug)]
pub enum BlurError {
    /// The kernel cannot come from a Gaussian: its length is not odd.
    InvalidSigma(String),
    /// A dimension of the frame is not positive.
    InvalidDimensions(String),
    /// The kernel's weights add up to zero.
    ProcessingError(String),
    /// The frame's buffer is empty.
    EmptyInput(String),
    /// The channel count is neither 1 nor 3.
    UnsupportedChannels(String),
    /// The buffer does not hold `width * height * channels` bytes.
    BufferMismatch(String),
}

/// Sum of the first `n` raw weights.
pub open spec fn raw_total(raw: Seq<u32>, n: nat) -> int
    decreases n,
{
    if n == 0 {
        0
    } else {
        raw_total(raw, (n - 1) as nat) + raw[n - 1] as int
    }
}

/// Sum of the first `n` kernel weights.
pub open spec fn weight_total(k: Seq<u64>, n: nat) -> int
    decreases n,
{
    if n == 0 {
        0
    } else {
        weight_total(k, (n - 1) as nat) + k[n - 1] as int
    }
}

/// Raw weight `i` scaled to the unit and truncated.
pub open spec fn scaled(raw: Seq<u32>, i: int) -> int {
    (raw[i] as int * KERNEL_UNIT as int) / raw_total(raw, raw.len())
}

/// Sum of the first `n` scaled weights.
pub open spec fn scaled_total(raw: Seq<u32>, n: nat) -> int
    decreases n,
{
    if n == 0 {
        0
    } else {
        scaled_total(raw, (n - 1) as nat) + scaled(raw, n - 1)
    }
}

/// The raw weights normalised to the unit: each scaled and truncated, with
/// what truncation lost given to the centre weight, so that the weights add
/// up to exactly `KERNEL_UNIT`.
pub open spec fn normalized(raw: Seq<u32>) -> Seq<u64> {
    Seq::new(
        raw.len(),
        |i: int|
            if i == raw.len() / 2 {
                (scaled(raw, i) + KERNEL_UNIT - scaled_total(raw, raw.len())) as u64
            } else {
                scaled(raw, i) as u64
            },
    )
}

/// Weighted sum of the first `n` taps of `k` centred on `(x, y)` along its
/// row; taps that fall outside the row are dropped.
pub open spec fn row_taps(src: Seq<u8>, width: int, x: int, y: int, k: Seq<u64>, radius: int, n: nat) -> int
    decreases n,
{
    if n == 0 {
        0
    } else {
        let i = n - 1;
        let sx = x + i - radius;
        row_taps(src, width, x, y, k, radius, (n - 1) as nat) + if 0 <= sx < width {
            src[pixel_index(width, sx, y)] as int * k[i] as int
        } else {
            0
        }
    }
}

/// Weighted sum of the first `n` taps of `k` centred on `(x, y)` along its
/// column; taps that fall outside the column are dropped.
pub open spec fn column_taps(
    src: Seq<u8>,
    width: int,
    height: int,
    x: int,
    y: int,
    k: Seq<u64>,
    radius: int,
    n: nat,
) -> int
    decreases n,
{
    if n == 0 {
        0
    } else {
        let i = n - 1;
        let sy = y + i - radius;
        column_taps(src, width, height, x, y, k, radius, (n - 1) as nat) + if 0 <= sy < height {
            src[pixel_index(width, x, sy)] as int * k[i] as int
        } else {
            0
        }
    }
}

/// A weighted sum brought back to a byte: divided by the unit, truncated,
/// clamped to 255.
pub open spec fn to_sample(sum: int) -> u8 {
    let v = sum / KERNEL_UNIT as int;
    if v > 255 {
        255
    } else {
        v as u8
    }
}

/// The horizontal pass over a `width` by `height` single-channel buffer.
pub open spec fn horizontal_blur(src: Seq<u8>, width: int, height: int, k: Seq<u64>, radius: int) -> Seq<u8> {
    Seq::new(
        (width * height) as nat,
        |p: int| to_sample(row_taps(src, width, p % width, p / width, k, radius, k.len())),
    )
}

/// The vertical pass over a `width` by `height` single-channel buffer.
pub open spec fn vertical_blur(src: Seq<u8>, width: int, height: int, k: Seq<u64>, radius: int) -> Seq<u8> {
    Seq::new(
        (width * height) as nat,
        |p: int| to_sample(column_taps(src, width, height, p % width, p / width, k, radius, k.len())),
    )
}

/// `e` is the error `GaussianBlur::process` gives on a frame it cannot
/// process: its kind names the first check that `f` fails, its message
/// says which.
pub open spec fn is_blur_rejection(f: Frame, e: BlurError) -> bool {
    let sized = f.width > 0 && f.height > 0;
    let filled = sized && f.data@.len() > 0;
    match e {
        BlurError::InvalidDimensions(m) => !sized && m@ == "frame dimensions must be positive"@,
        BlurError::EmptyInput(m) => sized && f.data@.len() == 0 && m@ == "frame data is empty"@,
        BlurError::UnsupportedChannels(m) => filled && f.channels != 1 && f.channels != 3 && m@
            == "frame must have 1 or 3 channels"@,
        BlurError::BufferMismatch(m) => filled && (f.channels == 1 || f.channels == 3)
            && !f.is_well_formed() && m@ == "buffer length does not match dimensions"@,
        _ => false,
    }
}

/// The single-channel buffer a frame is blurred from: its own buffer when it
/// has one channel, else the luma of each pixel.
pub open spec fn gray_data(f: Frame) -> Seq<u8> {
    if f.channels == 1 {
        f.data@
    } else {
        f.luma_buffer()
    }
}

/// The frame blurred with kernel `k` of the given radius: a horizontal pass
/// over its single-channel buffer, then a vertical pass over the result.
pub open spec fn blurred(f: Frame, k: Seq<u64>, radius: int) -> Seq<u8> {
    let w = f.width as int;
    let h = f.height as int;
    vertical_blur(horizontal_blur(gray_data(f), w, h, k, radius), w, h, k, radius)
}

/// The separable Gaussian blur stage.
pub struct GaussianBlur {
    output_dir: String,
    kernel: Vec<u64>,
    radius: usize,
}

proof fn lemma_scaled_total_bound(raw: Seq<u32>, n: nat)
    requires
        n <= raw.len(),
        raw_total(raw, raw.len()) > 0,
    ensures
        scaled_total(raw, n) * raw_total(raw, raw.len()) <= KERNEL_UNIT * raw_total(raw, n),
        0 <= scaled_total(raw, n),
    decreases n,
{
    if n > 0 {
        lemma_scaled_total_bound(raw, (n - 1) as nat);
        let s = raw_total(raw, raw.len());
        let a = raw[n - 1] as int * KERNEL_UNIT as int;
        let q = a / s;
        assert(q * s <= a && q >= 0) by (nonlinear_arith)
            requires
                s > 0,
                a >= 0,
                q == a / s,
        ;
        let t = scaled_total(raw, (n - 1) as nat);
        assert((t + q) * s == t * s + q * s) by (nonlinear_arith);
        assert(KERNEL_UNIT * raw_total(raw, n) == KERNEL_UNIT * raw_total(raw, (n - 1) as nat) + a)
            by (nonlinear_arith)
            requires
                raw_total(raw, n) == raw_total(raw, (n - 1) as nat) + raw[n - 1] as int,
                a == raw[n - 1] as int * KERNEL_UNIT as int,
        ;
    }
}

proof fn lemma_raw_total_nonneg(raw: Seq<u32>, n: nat)
    requires
        n <= raw.len(),
    ensures
        0 <= raw_total(raw, n) <= n * 0xffff_ffff,
    decreases n,
{
    if n > 0 {
        lemma_raw_total_nonneg(raw, (n - 1) as nat);
    }
}

proof fn lemma_normalized_total(raw: Seq<u32>, n: nat)
    requires
        n <= raw.len(),
        raw.len() % 2 == 1,
        raw_total(raw, raw.len()) > 0,
        0 <= KERNEL_UNIT - scaled_total(raw, raw.len()),
        0 <= scaled_total(raw, raw.len()),
        forall|i: int| 0 <= i < raw.len() ==> 0 <= #[trigger] scaled(raw, i) <= KERNEL_UNIT,
    ensures
        weight_total(normalized(raw), n) == scaled_total(raw, n) + if n > raw.len() / 2 {
            KERNEL_UNIT - scaled_total(raw, raw.len())
        } else {
            0
        },
    decreases n,
{
    if n > 0 {
        lemma_normalized_total(raw, (n - 1) as nat);
        assert(0 <= scaled(raw, n - 1) <= KERNEL_UNIT);
        let k = normalized(raw);
        let c = raw.len() / 2;
        if n - 1 == c {
            let v = scaled(raw, n - 1) + KERNEL_UNIT - scaled_total(raw, raw.len());
            assert(0 <= v <= 2 * KERNEL_UNIT);
            assert(k[n - 1] == v as u64);
            assert(k[n - 1] as int == v);
        } else {
            assert(k[n - 1] as int == scaled(raw, n - 1));
        }
    }
}

proof fn lemma_weight_total_prefix(k: Seq<u64>, n: nat, m: nat)
    requires
        n <= m <= k.len(),
    ensures
        0 <= weight_total(k, n) <= weight_total(k, m),
    decreases m,
{
    if m > n {
        lemma_weight_total_prefix(k, n, (m - 1) as nat);
    } else if n > 0 {
        lemma_weight_total_prefix(k, (n - 1) as nat, (n - 1) as nat);
    }
}

/// Normalisation gives weights that add up to exactly one unit, for any raw
/// weights of odd count and positive sum.
pub proof fn normalized_weights_sum_to_unit(raw: Seq<u32>)
    requires
        raw.len() % 2 == 1,
        raw_total(raw, raw.len()) > 0,
    ensures
        weight_total(normalized(raw), raw.len()) == KERNEL_UNIT,
{
    let s = raw_total(raw, raw.len());
    lemma_scaled_total_bound(raw, raw.len());
    let st = scaled_total(raw, raw.len());
    assert(st <= KERNEL_UNIT) by (nonlinear_arith)
        requires
            st * s <= KERNEL_UNIT * s,
            s > 0,
    ;
    assert forall|i: int| 0 <= i < raw.len() implies 0 <= #[trigger] scaled(raw, i) <= KERNEL_UNIT by {
        lemma_raw_prefix(raw, (i + 1) as nat, raw.len());
        lemma_raw_total_nonneg(raw, i as nat);
        let a = raw[i] as int;
        assert(a <= s);
        assert(0 <= a * KERNEL_UNIT / s <= KERNEL_UNIT) by (nonlinear_arith)
            requires
                0 <= a <= s,
                s > 0,
        ;
    }
    lemma_normalized_total(raw, raw.len());
}

/// The kernel of a built stage sums to exactly one unit.
pub proof fn kernel_weights_sum_to_unit(b: &GaussianBlur)
    requires
        b.wf(),
    ensures
        weight_total(b.weights(), b.weights().len()) == KERNEL_UNIT,
        b.weights().len() == 2 * b.radius() + 1,
{
}

proof fn lemma_index_coords(width: int, height: int, x: int, y: int)
    requires
        0 <= x < width,
        0 <= y < height,
    ensures
        pixel_index(width, x, y) % width == x,
        pixel_index(width, x, y) / width == y,
        0 <= pixel_index(width, x, y) < width * height,
{
    vstd::arithmetic::div_mod::lemma_fundamental_div_mod_converse(pixel_index(width, x, y), width, y, x);
    lemma_pixel_index(width, height, x, y, x, y);
}

proof fn lemma_coords_of_index(width: int, height: int, p: int)
    requires
        0 <= p < width * height,
        width > 0,
    ensures
        0 <= p % width < width,
        0 <= p / width < height,
        pixel_index(width, p % width, p / width) == p,
{
    vstd::arithmetic::div_mod::lemma_fundamental_div_mod(p, width);
    assert(p == (p / width) * width + p % width) by (nonlinear_arith)
        requires
            p == width * (p / width) + p % width,
    ;
    assert(0 <= p / width < height) by (nonlinear_arith)
        requires
            0 <= p < width * height,
            width > 0,
            p == width * (p / width) + p % width,
            0 <= p % width < width,
    ;
}

/// With every sample at most `v`, a row's weighted sum is at most `v` times
/// the weights' total; with every tap inside the row and every sample `v`,
/// it is exactly that.
proof fn lemma_row_taps_uniform(src: Seq<u8>, width: int, height: int, x: int, y: int, k: Seq<u64>, radius: int, n: nat, v: int)
    requires
        n <= k.len(),
        src.len() == width * height,
        0 <= x < width,
        0 <= y < height,
        forall|i: int| 0 <= i < src.len() ==> #[trigger] src[i] <= v,
        0 <= v,
    ensures
        0 <= row_taps(src, width, x, y, k, radius, n) <= v * weight_total(k, n),
        (forall|i: int| 0 <= i < src.len() ==> #[trigger] src[i] == v) && radius <= x < width - (n
            - 1 - radius) ==> row_taps(src, width, x, y, k, radius, n) == v * weight_total(k, n),
    decreases n,
{
    if n > 0 {
        lemma_row_taps_uniform(src, width, height, x, y, k, radius, (n - 1) as nat, v);
        let i = n - 1;
        let sx = x + i - radius;
        let prev = row_taps(src, width, x, y, k, radius, (n - 1) as nat);
        let wt = weight_total(k, (n - 1) as nat);
        let w = k[i] as int;
        lemma_weight_total_prefix(k, (n - 1) as nat, (n - 1) as nat);
        if 0 <= sx < width {
            lemma_pixel_index(width, height, sx, y, sx, y);
            let s = src[pixel_index(width, sx, y)] as int;
            assert(0 <= s * w <= v * w) by (nonlinear_arith)
                requires
                    0 <= s <= v,
                    0 <= w,
            ;
        }
        assert(v * wt + v * w == v * (wt + w)) by (nonlinear_arith);
        assert(0 <= v * w) by (nonlinear_arith)
            requires
                0 <= v,
                0 <= w,
                0 <= prev <= v * wt,
                0 <= wt,
        ;
        lemma_weight_total_prefix(k, (n - 1) as nat, (n - 1) as nat);
    }
}

/// The same for a column.
proof fn lemma_column_taps_uniform(src: Seq<u8>, width: int, height: int, x: int, y: int, k: Seq<u64>, radius: int, n: nat, v: int)
    requires
        n <= k.len(),
        src.len() == width * height,
        0 <= x < width,
        0 <= y < height,
        forall|i: int| 0 <= i < src.len() ==> #[trigger] src[i] <= v,
        0 <= v,
    ensures
        0 <= column_taps(src, width, height, x, y, k, radius, n) <= v * weight_total(k, n),
        (forall|sy: int| 0 <= sy < height ==> #[trigger] src[pixel_index(width, x, sy)] == v) && radius
            <= y < height - (n - 1 - radius) ==> column_taps(src, width, height, x, y, k, radius, n)
            == v * weight_total(k, n),
    decreases n,
{
    if n > 0 {
        lemma_column_taps_uniform(src, width, height, x, y, k, radius, (n - 1) as nat, v);
        let i = n - 1;
        let sy = y + i - radius;
        let prev = column_taps(src, width, height, x, y, k, radius, (n - 1) as nat);
        let wt = weight_total(k, (n - 1) as nat);
        let w = k[i] as int;
        lemma_weight_total_prefix(k, (n - 1) as nat, (n - 1) as nat);
        if 0 <= sy < height {
            lemma_pixel_index(width, height, x, sy, x, sy);
            let s = src[pixel_index(width, x, sy)] as int;
            assert(0 <= s * w <= v * w) by (nonlinear_arith)
                requires
                    0 <= s <= v,
                    0 <= w,
            ;
        }
        assert(v * wt + v * w == v * (wt + w)) by (nonlinear_arith);
        assert(0 <= v * w) by (nonlinear_arith)
            requires
                0 <= v,
                0 <= w,
                0 <= prev <= v * wt,
                0 <= wt,
        ;
        lemma_weight_total_prefix(k, (n - 1) as nat, (n - 1) as nat);
    }
}

proof fn lemma_to_sample(s: int, v: int)
    requires
        0 <= v <= 255,
        0 <= s <= v * KERNEL_UNIT,
    ensures
        to_sample(s) <= v,
        s == v * KERNEL_UNIT ==> to_sample(s) == v,
{
    assert(s / (KERNEL_UNIT as int) <= v) by (nonlinear_arith)
        requires
            0 <= s <= v * KERNEL_UNIT,
    ;
    if s == v * KERNEL_UNIT {
        assert(s / (KERNEL_UNIT as int) == v) by (nonlinear_arith)
            requires
                s == v * KERNEL_UNIT,
        ;
    }
}

/// Blurring a frame whose pixels all hold `v` never overshoots `v`, and gives
/// exactly `v` wherever every tap falls inside the frame (at least `radius`
/// pixels from each edge); near the edges dropped taps can only darken.
pub proof fn uniform_frame_blur(f: Frame, b: &GaussianBlur, v: u8)
    requires
        b.wf(),
        f.width > 0,
        f.height > 0,
        f.is_gray_of_size(f.width as int, f.height as int),
        forall|i: int| 0 <= i < f.data@.len() ==> #[trigger] f.data@[i] == v,
    ensures
        forall|p: int| 0 <= p < f.data@.len() ==> #[trigger] blurred(f, b.weights(), b.radius())[p] <= v,
        forall|x: int, y: int|
            b.radius() <= x < f.width - b.radius() && b.radius() <= y < f.height - b.radius() ==> #[trigger] blurred(
                f,
                b.weights(),
                b.radius(),
            )[pixel_index(f.width as int, x, y)] == v,
{
    let w = f.width as int;
    let h = f.height as int;
    let k = b.weights();
    let r = b.radius();
    let n = k.len();
    let src = f.data@;
    let hz = horizontal_blur(src, w, h, k, r);
    let out = vertical_blur(hz, w, h, k, r);
    assert(gray_data(f) == src);
    assert forall|p: int| 0 <= p < w * h implies #[trigger] hz[p] <= v && (r <= p % w < w - r ==> hz[p]
        == v) by {
        lemma_coords_of_index(w, h, p);
        lemma_row_taps_uniform(src, w, h, p % w, p / w, k, r, n, v as int);
        lemma_to_sample(row_taps(src, w, p % w, p / w, k, r, n), v as int);
    }
    assert forall|p: int| 0 <= p < w * h implies #[trigger] out[p] <= v && (r <= p % w < w - r && r <= p
        / w < h - r ==> out[p] == v) by {
        lemma_coords_of_index(w, h, p);
        let x = p % w;
        if r <= x < w - r {
            assert forall|sy: int| 0 <= sy < h implies #[trigger] hz[pixel_index(w, x, sy)] == v by {
                lemma_index_coords(w, h, x, sy);
            }
        }
        lemma_column_taps_uniform(hz, w, h, x, p / w, k, r, n, v as int);
        lemma_to_sample(column_taps(hz, w, h, x, p / w, k, r, n), v as int);
    }
    assert forall|x: int, y: int| r <= x < w - r && r <= y < h - r implies #[trigger] out[pixel_index(
        w,
        x,
        y,
    )] == v by {
        lemma_index_coords(w, h, x, y);
    }
}

impl GaussianBlur {
    /// The kernel is odd in length, `2 * radius + 1`, and its weights add up
    /// to exactly `KERNEL_UNIT`.
    pub closed spec fn wf(&self) -> bool {
        &&& self.kernel@.len() == 2 * self.radius + 1
        &&& weight_total(self.kernel@, self.kernel@.len()) == KERNEL_UNIT
    }

    pub closed spec fn weights(&self) -> Seq<u64> {
        self.kernel@
    }

    pub closed spec fn radius(&self) -> int {
        self.radius as int
    }

    /// Builds the stage from raw (unnormalised, fixed-point) Gaussian
    /// weights `exp(-(i - radius)^2 / (2 sigma^2))`, `i` in `0..2 radius + 1`.
    /// Fails when their count is not odd, or when they add up to zero.
    pub fn new(output_dir: &str, raw_weights: Vec<u32>) -> (r: Result<GaussianBlur, BlurError>)
        ensures
            raw_weights@.len() % 2 == 0 ==> (r matches Err(BlurError::InvalidSigma(m)) && m@
                == "kernel length must be odd"@),
            raw_weights@.len() % 2 == 1 && raw_total(raw_weights@, raw_weights@.len()) == 0
                ==> (r matches Err(BlurError::ProcessingError(m)) && m@ == "kernel sum too close to zero"@),
            raw_weights@.len() % 2 == 1 && raw_total(raw_weights@, raw_weights@.len()) != 0
                ==> r is Ok,
            r is Ok ==> {
                &&& r->Ok_0.wf()
                &&& r->Ok_0.weights() == normalized(raw_weights@)
                &&& r->Ok_0.radius() == raw_weights@.len() / 2
            },
    {
        let n = raw_weights.len();
        if n % 2 == 0 {
            return Err(BlurError::InvalidSigma(String::from_str("kernel length must be odd")));
        }
        let ghost raw = raw_weights@;
        let mut total: u128 = 0;
        let mut i: usize = 0;
        while i < n
            invariant
                n == raw.len(),
                raw == raw_weights@,
                i <= n,
                total == raw_total(raw, i as nat),
            decreases n - i,
        {
            proof {
                lemma_raw_total_nonneg(raw, (i + 1) as nat);
                assert((i + 1) * 0xffff_ffff <= 0x1_0000_0000_0000_0000 * 0x1_0000_0000) by (nonlinear_arith)
                    requires
                        i < 0x1_0000_0000_0000_0000,
                ;
            }
            total = total + raw_weights[i] as u128;
            i = i + 1;
        }
        if total == 0 {
            return Err(BlurError::ProcessingError(String::from_str("kernel sum too close to zero")));
        }
        let mut kernel: Vec<u64> = Vec::with_capacity(n);
        let mut acc: u64 = 0;
        let mut j: usize = 0;
        while j < n
            invariant
                n == raw.len(),
                raw == raw_weights@,
                total == raw_total(raw, raw.len()),
                total > 0,
                j <= n,
                kernel@.len() == j,
                forall|t: int| 0 <= t < j ==> #[trigger] kernel@[t] == scaled(raw, t) as u64,
                forall|t: int| 0 <= t < j ==> 0 <= #[trigger] scaled(raw, t) <= KERNEL_UNIT,
                acc == scaled_total(raw, j as nat),
                acc <= KERNEL_UNIT,
            decreases n - j,
        {
            proof {
                lemma_raw_total_nonneg(raw, n as nat);
                lemma_raw_total_nonneg(raw, (j + 1) as nat);
                lemma_scaled_total_bound(raw, (j + 1) as nat);
                lemma_raw_total_nonneg(raw, j as nat);
                let a = raw_total(raw, (j + 1) as nat);
                let b = raw_total(raw, raw.len());
                assert(a <= b) by {
                    lemma_raw_prefix(raw, (j + 1) as nat, raw.len());
                }
                let st = scaled_total(raw, (j + 1) as nat);
                assert(st <= KERNEL_UNIT) by (nonlinear_arith)
                    requires
                        st * b <= KERNEL_UNIT * a,
                        a <= b,
                        b > 0,
                ;
                let w = raw[j as int] as int;
                assert(w * KERNEL_UNIT / b <= KERNEL_UNIT) by (nonlinear_arith)
                    requires
                        0 <= w,
                        w <= a,
                        a <= b,
                        b > 0,
                ;
                assert(w <= a);
            }
            let s = ((raw_weights[j] as u128) * (KERNEL_UNIT as u128)) / total;
            kernel.push(s as u64);
            acc = acc + s as u64;
            j = j + 1;
        }
        let c = n / 2;
        let centre = kernel[c] + (KERNEL_UNIT - acc);
        kernel.set(c, centre);
        proof {
            assert(kernel@ =~= normalized(raw));
            normalized_weights_sum_to_unit(raw);
        }
        Ok(GaussianBlur { output_dir: output_dir.to_owned(), kernel, radius: c })
    }
}

impl GaussianBlur {
    fn horizontal_pass(&self, input: &Vec<u8>, width: usize, height: usize) -> (r: Result<Vec<u8>, BlurError>)
        requires
            self.wf(),
        ensures
            r is Err <==> input@.len() != width * height,
            r is Err ==> r matches Err(BlurError::InvalidDimensions(_)),
            r is Ok ==> r->Ok_0@ == horizontal_blur(input@, width as int, height as int, self.kernel@, self.radius as int),
    {
        let wide_w = width as u128;
        let wide_h = height as u128;
        assert(wide_w * wide_h <= 0xffff_ffff_ffff_ffff * 0xffff_ffff_ffff_ffff) by (nonlinear_arith)
            requires
                wide_w <= 0xffff_ffff_ffff_ffff,
                wide_h <= 0xffff_ffff_ffff_ffff,
        ;
        if wide_w * wide_h != input.len() as u128 {
            return Err(BlurError::InvalidDimensions(String::from_str("input length does not match dimensions")));
        }
        let total = input.len();
        let klen = self.kernel.len();
        let ghost k = self.kernel@;
        let ghost spec_out = horizontal_blur(input@, width as int, height as int, k, self.radius as int);
        let mut out: Vec<u8> = Vec::with_capacity(total);
        let mut p: usize = 0;
        while p < total
            invariant
                self.wf(),
                k == self.kernel@,
                klen == k.len(),
                total == input@.len(),
                total == width * height,
                spec_out == horizontal_blur(input@, width as int, height as int, k, self.radius as int),
                p <= total,
                out@ == spec_out.take(p as int),
            decreases total - p,
        {
            assert(width > 0) by (nonlinear_arith)
                requires
                    p < total,
                    total == width * height,
            ;
            let x = p % width;
            let y = p / width;
            assert(y < height) by (nonlinear_arith)
                requires
                    y == p / width,
                    p < total,
                    total == width * height,
                    width > 0,
            ;
            let mut sum: u64 = 0;
            let mut i: usize = 0;
            while i < klen
                invariant
                    self.wf(),
                    k == self.kernel@,
                    klen == k.len(),
                    total == input@.len(),
                    total == width * height,
                    x < width,
                    y < height,
                    i <= klen,
                    sum == row_taps(input@, width as int, x as int, y as int, k, self.radius as int, i as nat),
                    sum <= 255 * weight_total(k, i as nat),
                decreases klen - i,
            {
                proof {
                    lemma_weight_total_prefix(k, (i + 1) as nat, k.len());
                }
                let pos = x as u128 + i as u128;
                let r = self.radius as u128;
                if pos >= r && pos - r < width as u128 {
                    let sx = (pos - r) as usize;
                    proof {
                        lemma_pixel_index(width as int, height as int, sx as int, y as int, sx as int, y as int);
                    }
                    let v = input[y * width + sx] as u64;
                    let w = self.kernel[i];
                    assert(v * w <= 255 * w) by (nonlinear_arith)
                        requires
                            v <= 255,
                    ;
                    sum = sum + v * w;
                }
                i = i + 1;
            }
            let q = sum / KERNEL_UNIT;
            let b: u8 = if q > 255 {
                255
            } else {
                q as u8
            };
            out.push(b);
            p = p + 1;
            assert(out@ =~= spec_out.take(p as int));
        }
        assert(out@ =~= spec_out);
        Ok(out)
    }

    fn vertical_pass(&self, input: &Vec<u8>, width: usize, height: usize) -> (r: Result<Vec<u8>, BlurError>)
        requires
            self.wf(),
        ensures
            r is Err <==> input@.len() != width * height,
            r is Err ==> r matches Err(BlurError::InvalidDimensions(_)),
            r is Ok ==> r->Ok_0@ == vertical_blur(input@, width as int, height as int, self.kernel@, self.radius as int),
    {
        let wide_w = width as u128;
        let wide_h = height as u128;
        assert(wide_w * wide_h <= 0xffff_ffff_ffff_ffff * 0xffff_ffff_ffff_ffff) by (nonlinear_arith)
            requires
                wide_w <= 0xffff_ffff_ffff_ffff,
                wide_h <= 0xffff_ffff_ffff_ffff,
        ;
        if wide_w * wide_h != input.len() as u128 {
            return Err(BlurError::InvalidDimensions(String::from_str("input length does not match dimensions")));
        }
        let total = input.len();
        let klen = self.kernel.len();
        let ghost k = self.kernel@;
        let ghost spec_out = vertical_blur(input@, width as int, height as int, k, self.radius as int);
        let mut out: Vec<u8> = Vec::with_capacity(total);
        let mut p: usize = 0;
        while p < total
            invariant
                self.wf(),
                k == self.kernel@,
                klen == k.len(),
                total == input@.len(),
                total == width * height,
                spec_out == vertical_blur(input@, width as int, height as int, k, self.radius as int),
                p <= total,
                out@ == spec_out.take(p as int),
            decreases total - p,
        {
            assert(width > 0) by (nonlinear_arith)
                requires
                    p < total,
                    total == width * height,
            ;
            let x = p % width;
            let y = p / width;
            let mut sum: u64 = 0;
            let mut i: usize = 0;
            while i < klen
                invariant
                    self.wf(),
                    k == self.kernel@,
                    klen == k.len(),
                    total == input@.len(),
                    total == width * height,
                    x < width,
                    i <= klen,
                    sum == column_taps(
                        input@,
                        width as int,
                        height as int,
                        x as int,
                        y as int,
                        k,
                        self.radius as int,
                        i as nat,
                    ),
                    sum <= 255 * weight_total(k, i as nat),
                decreases klen - i,
            {
                proof {
                    lemma_weight_total_prefix(k, (i + 1) as nat, k.len());
                }
                let pos = y as u128 + i as u128;
                let r = self.radius as u128;
                if pos >= r && pos - r < height as u128 {
                    let sy = (pos - r) as usize;
                    proof {
                        lemma_pixel_index(width as int, height as int, x as int, sy as int, x as int, sy as int);
                    }
                    let v = input[sy * width + x] as u64;
                    let w = self.kernel[i];
                    assert(v * w <= 255 * w) by (nonlinear_arith)
                        requires
                            v <= 255,
                    ;
                    sum = sum + v * w;
                }
                i = i + 1;
            }
            let q = sum / KERNEL_UNIT;
            let b: u8 = if q > 255 {
                255
            } else {
                q as u8
            };
            out.push(b);
            p = p + 1;
            assert(out@ =~= spec_out.take(p as int));
        }
        assert(out@ =~= spec_out);
        Ok(out)
    }

    /// Blurs a frame: validates it, reduces it to one channel, then applies
    /// the kernel along each row and then along each column. Taps that fall
    /// outside the frame are dropped, without renormalising.
    pub fn process(&self, frame: &Frame) -> (r: Result<Frame, BlurError>)
        requires
            self.wf(),
        ensures
            frame.width <= 0 || frame.height <= 0 ==> r matches Err(BlurError::InvalidDimensions(_)),
            frame.width > 0 && frame.height > 0 && frame.data@.len() == 0 ==> r matches Err(
                BlurError::EmptyInput(_),
            ),
            frame.width > 0 && frame.height > 0 && frame.data@.len() > 0 && frame.channels != 1
                && frame.channels != 3 ==> r matches Err(BlurError::UnsupportedChannels(_)),
            frame.width > 0 && frame.height > 0 && frame.data@.len() > 0 && (frame.channels == 1
                || frame.channels == 3) && !frame.is_well_formed() ==> r matches Err(
                BlurError::BufferMismatch(_),
            ),
            r is Ok <==> frame.width > 0 && frame.height > 0 && frame.data@.len() > 0
                && frame.is_well_formed(),
            r is Err ==> is_blur_rejection(*frame, r->Err_0),
            r is Ok ==> r->Ok_0.is_gray_of_size(frame.width as int, frame.height as int)
                && r->Ok_0.data@ == blurred(*frame, self.weights(), self.radius()),
    {
        if frame.width <= 0 || frame.height <= 0 {
            return Err(BlurError::InvalidDimensions(String::from_str("frame dimensions must be positive")));
        }
        if frame.data.len() == 0 {
            return Err(BlurError::EmptyInput(String::from_str("frame data is empty")));
        }
        if frame.channels != 1 && frame.channels != 3 {
            return Err(BlurError::UnsupportedChannels(String::from_str("frame must have 1 or 3 channels")));
        }
        let wu = frame.width as u64;
        let hu = frame.height as u64;
        let cu = frame.channels as u64;
        assert(wu * hu * cu <= 0x8000_0000 * 0x8000_0000 * 3) by (nonlinear_arith)
            requires
                wu < 0x8000_0000,
                hu < 0x8000_0000,
                cu <= 3,
        ;
        if wu * hu * cu != frame.data.len() as u64 {
            return Err(BlurError::BufferMismatch(String::from_str("buffer length does not match dimensions")));
        }
        let ghost input = *frame;
        let width = frame.width as usize;
        let height = frame.height as usize;
        assert(frame.area() <= frame.data@.len()) by (nonlinear_arith)
            requires
                frame.area() == wu * hu,
                frame.data@.len() == wu * hu * cu,
                cu >= 1,
                wu * hu >= 0,
        ;
        let mut gray = frame.duplicate();
        assert(gray.luma_buffer() =~= frame.luma_buffer());
        gray.to_grayscale();
        assert(gray.data@ == gray_data(input));
        let temp = match self.horizontal_pass(&gray.data, width, height) {
            Ok(t) => t,
            Err(e) => {
                return Err(e);
            },
        };
        let data = match self.vertical_pass(&temp, width, height) {
            Ok(d) => d,
            Err(e) => {
                return Err(e);
            },
        };
        Ok(Frame { data, width: gray.width, height: gray.height, channels: 1 })
    }
}

proof fn lemma_raw_prefix(raw: Seq<u32>, n: nat, m: nat)
    requires
        n <= m <= raw.len(),
    ensures
        raw_total(raw, n) <= raw_total(raw, m),
    decreases m,
{
    if m > n {
        lemma_raw_prefix(raw, n, (m - 1) as nat);
    }
}

} // verus!

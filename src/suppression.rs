use vstd::prelude::*;

use crate::frame::{lemma_pixel_index, lemma_pixel_index_distinct, pixel_index, Frame};
use crate::gradient::{is_interior, PixelGradient};
use crate::threshold::is_grid_of_size;

verus! {

/// The gradient folded onto the half-plane of directions in `[0, 180)`
/// degrees: `(gx, gy)` and `(-gx, -gy)` give the same line.
pub open spec fn folded(g: PixelGradient) -> (int, int) {
    if g.gy < 0 || (g.gy == 0 && g.gx < 0) {
        (-g.gx, -g.gy)
    } else {
        (g.gx as int, g.gy as int)
    }
}

pub open spec fn abs(a: int) -> int {
    if a < 0 {
        -a
    } else {
        a
    }
}

/// Offset of the first neighbour compared against along the gradient; the
/// second is at the opposite offset. The direction, in degrees modulo 180,
/// falls in `[0, 22.5) or [157.5, 180)`: left and right; in `[22.5, 67.5)`:
/// upper right and lower left; in `[67.5, 112.5)`: above and below; in
/// `[112.5, 157.5)`: upper left and lower right. A zero gradient has
/// direction 0. With `(a, b)` the folded gradient, `b >= 0`, the direction
/// lies within 22.5 degrees of the horizontal exactly when
/// `b < tan(22.5) |a| = (sqrt(2) - 1) |a|`, that is `(b + |a|)^2 < 2 a^2`,
/// and within 22.5 degrees of the vertical exactly when `(|a| + b)^2 < 2 b^2`.
pub open spec fn suppression_offset(g: PixelGradient) -> (int, int) {
    let (a, b) = folded(g);
    if (a == 0 && b == 0) || (b + abs(a)) * (b + abs(a)) < 2 * (a * a) {
        (-1, 0)
    } else if (abs(a) + b) * (abs(a) + b) < 2 * (b * b) {
        (0, -1)
    } else if a > 0 {
        (1, -1)
    } else {
        (-1, -1)
    }
}

/// `out` is the magnitude whose square is `m`, truncated and clamped to 255.
pub open spec fn is_clamped_root(out: int, m: int) -> bool {
    if m >= 255 * 255 {
        out == 255
    } else {
        0 <= out && out * out <= m < (out + 1) * (out + 1)
    }
}

/// Squared magnitude of the gradient at `(x, y)` of a grid.
pub open spec fn magnitude_sq_at(g: Seq<Vec<PixelGradient>>, x: int, y: int) -> int {
    g[y]@[x].magnitude_sq()
}

/// The pixel at `(x, y)` is strictly weaker than one of the two neighbours
/// selected by its direction.
pub open spec fn is_suppressed(g: Seq<Vec<PixelGradient>>, x: int, y: int) -> bool {
    let (dx, dy) = suppression_offset(g[y]@[x]);
    let m = magnitude_sq_at(g, x, y);
    m < magnitude_sq_at(g, x + dx, y + dy) || m < magnitude_sq_at(g, x - dx, y - dy)
}

/// The output of suppression at `(x, y)` is `out`: 0 on the border and at
/// suppressed pixels, else the pixel's magnitude truncated and clamped to 255.
pub open spec fn is_suppression_output(g: Seq<Vec<PixelGradient>>, width: int, x: int, y: int, out: int) -> bool {
    if is_interior(x, y, width, g.len() as int) && !is_suppressed(g, x, y) {
        is_clamped_root(out, magnitude_sq_at(g, x, y))
    } else {
        out == 0
    }
}

/// Suppression never raises a pixel's magnitude, and it zeroes an interior
/// pixel exactly when the pixel is strictly weaker than one of the two
/// neighbours selected by its direction (a kept pixel of positive magnitude
/// stays positive).
pub proof fn suppression_never_increases(g: Seq<Vec<PixelGradient>>, width: int, x: int, y: int, out: int)
    requires
        0 <= y < g.len(),
        0 <= x < g[y]@.len(),
        is_suppression_output(g, width, x, y, out),
    ensures
        0 <= out,
        out * out <= magnitude_sq_at(g, x, y),
        is_interior(x, y, width, g.len() as int) ==> (is_suppressed(g, x, y) ==> out == 0),
        is_interior(x, y, width, g.len() as int) ==> (!is_suppressed(g, x, y) && magnitude_sq_at(g, x, y)
            > 0 ==> out > 0),
{
    let m = magnitude_sq_at(g, x, y);
    let p = g[y]@[x];
    assert(m >= 0) by (nonlinear_arith)
        requires
            m == p.gx * p.gx + p.gy * p.gy,
    ;
    if m >= 255 * 255 && out == 255 {
        assert(out * out <= m);
    }
}

/// The square root of `m`, truncated, clamped to 255.
fn clamped_root(m: u64) -> (r: u8)
    ensures
        is_clamped_root(r as int, m as int),
{
    if m >= 255 * 255 {
        return 255;
    }
    let mut r: u64 = 0;
    let mut next_sq: u64 = 1;
    while next_sq <= m
        invariant
            r * r <= m,
            next_sq == (r + 1) * (r + 1),
            m < 255 * 255,
            r < 255,
        decreases 255 - r,
    {
        assert(r + 1 < 255) by (nonlinear_arith)
            requires
                next_sq == (r + 1) * (r + 1),
                next_sq <= m,
                m < 255 * 255,
        ;
        let old_sq = next_sq;
        r = r + 1;
        next_sq = next_sq + 2 * r + 1;
        assert(next_sq == (r + 1) * (r + 1)) by (nonlinear_arith)
            requires
                old_sq == r * r,
                next_sq == old_sq + 2 * r + 1,
        ;
    }
    r as u8
}

/// Folds a gradient onto directions in `[0, 180)` degrees and picks the
/// offset of the first neighbour (see `suppression_offset`).
fn pick_offset(g: PixelGradient) -> (r: (i64, i64))
    ensures
        r.0 == suppression_offset(g).0,
        r.1 == suppression_offset(g).1,
{
    let (a, b): (i64, i64) = if g.gy < 0 || (g.gy == 0 && g.gx < 0) {
        (-(g.gx as i64), -(g.gy as i64))
    } else {
        (g.gx as i64, g.gy as i64)
    };
    let abs_a: u128 = if a < 0 {
        (-a) as u128
    } else {
        a as u128
    };
    let bu: u128 = b as u128;
    assert(abs_a <= 0x8000_0000 && bu <= 0x8000_0000);
    assert((bu + abs_a) * (bu + abs_a) <= 0x1_0000_0000 * 0x1_0000_0000 && 2 * (abs_a * abs_a) <= 2
        * (0x8000_0000 * 0x8000_0000) && 2 * (bu * bu) <= 2 * (0x8000_0000 * 0x8000_0000))
        by (nonlinear_arith)
        requires
            abs_a <= 0x8000_0000,
            bu <= 0x8000_0000,
    ;
    assert(abs_a * abs_a == a * a) by (nonlinear_arith)
        requires
            abs_a == a || abs_a == -a,
    ;
    if (a == 0 && b == 0) || (bu + abs_a) * (bu + abs_a) < 2 * (abs_a * abs_a) {
        (-1, 0)
    } else if (abs_a + bu) * (abs_a + bu) < 2 * (bu * bu) {
        (0, -1)
    } else if a > 0 {
        (1, -1)
    } else {
        (-1, -1)
    }
}

/// Non-maximum suppression: thins the gradient grid to a single-channel
/// frame of the same size that keeps, at each interior pixel, the magnitude
/// of a pixel at least as strong as both neighbours along its direction
/// (ties survive), and 0 elsewhere.
pub struct GradNonMaxSuppression {}

impl GradNonMaxSuppression {
    pub fn suppress(gradients: Vec<Vec<PixelGradient>>) -> (r: Frame)
        requires
            gradients@.len() > 0,
            is_grid_of_size(gradients@, gradients@[0]@.len() as int, gradients@.len() as int),
            gradients@.len() <= i32::MAX,
            gradients@[0]@.len() <= i32::MAX,
            gradients@.len() * gradients@[0]@.len() <= usize::MAX,
        ensures
            r.is_gray_of_size(gradients@[0]@.len() as int, gradients@.len() as int),
            forall|x: int, y: int|
                0 <= x < r.width && 0 <= y < r.height ==> is_suppression_output(
                    gradients@,
                    r.width as int,
                    x,
                    y,
                    #[trigger] r.value_at(x, y),
                ),
    {
        let ghost g = gradients@;
        let height = gradients.len();
        let width = gradients[0].len();
        let total = height * width;
        let mut output: Vec<u8> = Vec::with_capacity(total);
        let mut i: usize = 0;
        while i < total
            invariant
                i <= total,
                output@ == Seq::new(i as nat, |k: int| 0u8),
            decreases total - i,
        {
            output.push(0);
            i = i + 1;
            assert(output@ =~= Seq::new(i as nat, |k: int| 0u8));
        }
        let last_row: usize = if height > 1 { height - 1 } else { 1 };
        let last_col: usize = if width > 1 { width - 1 } else { 1 };
        let mut y: usize = 1;
        assert(width * height == total) by (nonlinear_arith)
            requires
                total == height * width,
        ;
        proof {
            assert forall|x1: int, y1: int| 0 <= x1 < width && 0 <= y1 < height implies if y1 < y {
                is_suppression_output(
                    g,
                    width as int,
                    x1,
                    y1,
                    #[trigger] output@[pixel_index(width as int, x1, y1)] as int,
                )
            } else {
                output@[pixel_index(width as int, x1, y1)] == 0
            } by {
                lemma_pixel_index(width as int, height as int, x1, y1, x1, y1);
            }
        }
        while y < last_row
            invariant
                g == gradients@,
                height == g.len(),
                width == g[0]@.len(),
                is_grid_of_size(g, width as int, height as int),
                total == height * width,
                total == width * height,
                height <= i32::MAX,
                width <= i32::MAX,
                last_row == (if height > 1 { height - 1 } else { 1 }),
                last_col == (if width > 1 { width - 1 } else { 1 }),
                1 <= y <= last_row,
                output@.len() == total,
                forall|x1: int, y1: int|
                    0 <= x1 < width && 0 <= y1 < height ==> if y1 < y {
                        is_suppression_output(
                            g,
                            width as int,
                            x1,
                            y1,
                            #[trigger] output@[pixel_index(width as int, x1, y1)] as int,
                        )
                    } else {
                        output@[pixel_index(width as int, x1, y1)] == 0
                    },
            decreases last_row - y,
        {
            let mut x: usize = 1;
            proof {
                assert forall|x1: int, y1: int|
                    0 <= x1 < width && 0 <= y1 < height && y1 == y && x1 < 1 implies is_suppression_output(
                    g,
                    width as int,
                    x1,
                    y1,
                    #[trigger] output@[pixel_index(width as int, x1, y1)] as int,
                ) by {}
            }
            while x < last_col
                invariant
                    g == gradients@,
                    height == g.len(),
                    width == g[0]@.len(),
                    is_grid_of_size(g, width as int, height as int),
                    total == height * width,
                    total == width * height,
                    height <= i32::MAX,
                    width <= i32::MAX,
                    last_row == (if height > 1 { height - 1 } else { 1 }),
                    last_col == (if width > 1 { width - 1 } else { 1 }),
                    1 <= y < last_row,
                    1 <= x <= last_col,
                    output@.len() == total,
                    forall|x1: int, y1: int|
                        0 <= x1 < width && 0 <= y1 < height ==> if y1 < y || (y1 == y && x1 < x) {
                            is_suppression_output(
                                g,
                                width as int,
                                x1,
                                y1,
                                #[trigger] output@[pixel_index(width as int, x1, y1)] as int,
                            )
                        } else {
                            output@[pixel_index(width as int, x1, y1)] == 0
                        },
                decreases last_col - x,
            {
                let current = gradients[y][x];
                let (dx, dy) = pick_offset(current);
                let x1 = (x as i64 + dx) as usize;
                let y1 = (y as i64 + dy) as usize;
                let x2 = (x as i64 - dx) as usize;
                let y2 = (y as i64 - dy) as usize;
                let m = current.magnitude_squared();
                let m1 = gradients[y1][x1].magnitude_squared();
                let m2 = gradients[y2][x2].magnitude_squared();
                proof {
                    lemma_pixel_index_distinct(width as int, height as int, x as int, y as int);
                }
                let idx = y * width + x;
                assert(idx == pixel_index(width as int, x as int, y as int));
                let ghost before = output@;
                if m >= m1 && m >= m2 {
                    let v = clamped_root(m);
                    output.set(idx, v);
                }
                proof {
                    assert(is_interior(x as int, y as int, width as int, height as int));
                    assert(m1 == magnitude_sq_at(g, x + dx, y + dy));
                    assert(m2 == magnitude_sq_at(g, x - dx, y - dy));
                    assert(m == magnitude_sq_at(g, x as int, y as int));
                    assert forall|xa: int, ya: int|
                        0 <= xa < width && 0 <= ya < height implies if ya < y || (ya == y && xa < x + 1) {
                        is_suppression_output(
                            g,
                            width as int,
                            xa,
                            ya,
                            #[trigger] output@[pixel_index(width as int, xa, ya)] as int,
                        )
                    } else {
                        output@[pixel_index(width as int, xa, ya)] == 0
                    } by {
                        lemma_pixel_index(width as int, height as int, xa, ya, x as int, y as int);
                        if xa != x || ya != y {
                            assert(output@[pixel_index(width as int, xa, ya)] == before[pixel_index(
                                width as int,
                                xa,
                                ya,
                            )]);
                        }
                    }
                }
                x = x + 1;
            }
            proof {
                assert forall|x1: int, y1: int|
                    0 <= x1 < width && 0 <= y1 < height && y1 == y && x1 >= x implies is_suppression_output(
                    g,
                    width as int,
                    x1,
                    y1,
                    #[trigger] output@[pixel_index(width as int, x1, y1)] as int,
                ) by {}
            }
            y = y + 1;
        }
        proof {
            assert forall|x1: int, y1: int|
                0 <= x1 < width && 0 <= y1 < height && y1 >= y implies is_suppression_output(
                g,
                width as int,
                x1,
                y1,
                #[trigger] output@[pixel_index(width as int, x1, y1)] as int,
            ) by {}
        }
        let r = Frame { data: output, width: width as i32, height: height as i32, channels: 1 };
        proof {
            assert(r.data@.len() == r.width * r.height) by (nonlinear_arith)
                requires
                    r.data@.len() == total,
                    total == height * width,
                    r.width == width,
                    r.height == height,
            ;
            assert forall|xa: int, ya: int| 0 <= xa < r.width && 0 <= ya < r.height implies is_suppression_output(
                g,
                r.width as int,
                xa,
                ya,
                #[trigger] r.value_at(xa, ya),
            ) by {
                r.lemma_gray_value_at(xa, ya);
                lemma_pixel_index(width as int, height as int, xa, ya, xa, ya);
                assert(output@[pixel_index(width as int, xa, ya)] == r.data@[pixel_index(width as int, xa, ya)]);
            }
        }
        r
    }
}

} // verus!

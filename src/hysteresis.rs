use vstd::prelude::*;

use std::collections::VecDeque;

use crate::frame::{lemma_pixel_index, lemma_pixel_index_distinct, pixel_index, Frame};
use crate::threshold::{is_grid_of_size, MeasuredPixel, Strength};

verus! {

/// Column and row offset of the `j`-th of the eight neighbours, `j` in `0..8`.
pub open spec fn neighbour_offset(j: int) -> (int, int) {
    if j == 0 {
        (-1, -1)
    } else if j == 1 {
        (0, -1)
    } else if j == 2 {
        (1, -1)
    } else if j == 3 {
        (-1, 0)
    } else if j == 4 {
        (1, 0)
    } else if j == 5 {
        (-1, 1)
    } else if j == 6 {
        (0, 1)
    } else {
        (1, 1)
    }
}

/// Column of the `j`-th neighbour of a pixel in column `x`.
pub open spec fn neighbour_x(x: int, j: int) -> int {
    x + neighbour_offset(j).0
}

/// Row of the `j`-th neighbour of a pixel in row `y`.
pub open spec fn neighbour_y(y: int, j: int) -> int {
    y + neighbour_offset(j).1
}

/// Width of a grid: the length of its first row.
pub open spec fn grid_width(g: Seq<Vec<MeasuredPixel>>) -> int {
    if g.len() > 0 {
        g[0]@.len() as int
    } else {
        0
    }
}

pub open spec fn in_grid(g: Seq<Vec<MeasuredPixel>>, x: int, y: int) -> bool {
    0 <= y < g.len() && 0 <= x < grid_width(g)
}

/// `(x1, y1)` and `(x2, y2)` are distinct and touch at a side or a corner.
pub open spec fn adjacent(x1: int, y1: int, x2: int, y2: int) -> bool {
    &&& (x1 != x2 || y1 != y2)
    &&& -1 <= x2 - x1 <= 1
    &&& -1 <= y2 - y1 <= 1
}

/// `p` is a chain of grid cells that starts at a strong pixel, goes on through
/// weak pixels only, and steps each time to an 8-neighbour.
pub open spec fn is_chain(g: Seq<Vec<MeasuredPixel>>, p: Seq<(int, int)>) -> bool {
    &&& p.len() > 0
    &&& forall|i: int| 0 <= i < p.len() ==> in_grid(g, (#[trigger] p[i]).0, p[i].1)
    &&& g[p[0].1]@[p[0].0].weight == Strength::Strong
    &&& forall|i: int| 0 < i < p.len() ==> g[(#[trigger] p[i]).1]@[p[i].0].weight == Strength::Weak
    &&& forall|i: int| 0 < i < p.len() ==> adjacent(p[i - 1].0, p[i - 1].1, (#[trigger] p[i]).0, p[i].1)
}

/// Some chain of 8-neighbours leads from a strong pixel to `(x, y)` through
/// weak pixels only.
pub open spec fn is_linked(g: Seq<Vec<MeasuredPixel>>, x: int, y: int) -> bool {
    exists|p: Seq<(int, int)>| #[trigger] is_chain(g, p) && p.last() == (x, y)
}

/// The output of hysteresis linking at `(x, y)`: the pixel's own value where
/// it is linked to a strong pixel, else 0.
pub open spec fn linked_value(g: Seq<Vec<MeasuredPixel>>, x: int, y: int) -> int {
    if is_linked(g, x, y) {
        (g[y]@[x].value as u8) as int
    } else {
        0
    }
}

/// A weak pixel with a strong 8-neighbour is kept with its own value.
pub proof fn weak_beside_strong_is_kept(g: Seq<Vec<MeasuredPixel>>, x: int, y: int, sx: int, sy: int)
    requires
        in_grid(g, x, y),
        in_grid(g, sx, sy),
        adjacent(sx, sy, x, y),
        g[y]@[x].weight == Strength::Weak,
        g[sy]@[sx].weight == Strength::Strong,
    ensures
        linked_value(g, x, y) == (g[y]@[x].value as u8) as int,
{
    let p = seq![(sx, sy), (x, y)];
    assert(is_chain(g, p) && p.last() == (x, y));
}

/// A weak pixel whose 8-neighbours in the grid are all suppressed is dropped.
pub proof fn isolated_weak_is_dropped(g: Seq<Vec<MeasuredPixel>>, x: int, y: int)
    requires
        in_grid(g, x, y),
        g[y]@[x].weight == Strength::Weak,
        forall|x2: int, y2: int|
            in_grid(g, x2, y2) && adjacent(x, y, x2, y2) ==> (#[trigger] g[y2]@[x2]).weight
                == Strength::Suppressed,
    ensures
        linked_value(g, x, y) == 0,
{
    assert forall|p: Seq<(int, int)>| #[trigger] is_chain(g, p) implies p.last() != (x, y) by {
        if p.last() == (x, y) {
            if p.len() > 1 {
                let i = p.len() - 1;
                let d = p[i - 1];
                assert(in_grid(g, d.0, d.1));
                assert(adjacent(d.0, d.1, x, y));
                assert(adjacent(x, y, d.0, d.1));
                if i - 1 > 0 {
                    assert(g[d.1]@[d.0].weight == Strength::Weak);
                }
            }
        }
    }
}

/// A suppressed pixel is never kept.
pub proof fn suppressed_is_dropped(g: Seq<Vec<MeasuredPixel>>, x: int, y: int)
    requires
        in_grid(g, x, y),
        g[y]@[x].weight == Strength::Suppressed,
    ensures
        linked_value(g, x, y) == 0,
{
    assert forall|p: Seq<(int, int)>| #[trigger] is_chain(g, p) implies p.last() != (x, y) by {
        if p.len() > 1 {
            assert(g[p[p.len() - 1].1]@[p[p.len() - 1].0].weight == Strength::Weak);
        }
    }
}

spec fn count_true(s: Seq<bool>) -> nat
    decreases s.len(),
{
    if s.len() == 0 {
        0
    } else {
        count_true(s.drop_last()) + if s.last() {
            1nat
        } else {
            0nat
        }
    }
}

proof fn lemma_count_true_bound(s: Seq<bool>)
    ensures
        count_true(s) <= s.len(),
    decreases s.len(),
{
    if s.len() > 0 {
        lemma_count_true_bound(s.drop_last());
    }
}

proof fn lemma_count_true_set(s: Seq<bool>, i: int)
    requires
        0 <= i < s.len(),
        !s[i],
    ensures
        count_true(s.update(i, true)) == count_true(s) + 1,
    decreases s.len(),
{
    let t = s.update(i, true);
    if i == s.len() - 1 {
        assert(t.drop_last() =~= s.drop_last());
    } else {
        assert(t.drop_last() =~= s.drop_last().update(i, true));
        lemma_count_true_set(s.drop_last(), i);
    }
}

/// `(x, y)` sits in the queue.
spec fn queued(q: Seq<(usize, usize)>, x: int, y: int) -> bool {
    exists|k: int| 0 <= k < q.len() && #[trigger] q[k] == (x as usize, y as usize)
}

/// Every weak 8-neighbour of `(x, y)` has been visited.
spec fn closed_at(g: Seq<Vec<MeasuredPixel>>, visited: Seq<bool>, x: int, y: int) -> bool {
    forall|j: int|
        0 <= j < 8 && in_grid(g, neighbour_x(x, j), neighbour_y(y, j)) && g[neighbour_y(
            y,
            j,
        )]@[neighbour_x(x, j)].weight == Strength::Weak ==> visited[pixel_index(
            grid_width(g),
            #[trigger] neighbour_x(x, j),
            #[trigger] neighbour_y(y, j),
        )]
}

/// What the traversal keeps true of its marks: a visited pixel is linked and
/// carries its value in the output, an unvisited one carries 0.
spec fn marks_sound(g: Seq<Vec<MeasuredPixel>>, visited: Seq<bool>, output: Seq<u8>) -> bool {
    &&& visited.len() == grid_width(g) * g.len()
    &&& output.len() == grid_width(g) * g.len()
    &&& forall|x: int, y: int|
        in_grid(g, x, y) ==> if #[trigger] visited[pixel_index(grid_width(g), x, y)] {
            is_linked(g, x, y) && output[pixel_index(grid_width(g), x, y)] == g[y]@[x].value as u8
        } else {
            output[pixel_index(grid_width(g), x, y)] == 0
        }
}

/// Every queued pixel lies in the grid and has been visited.
spec fn queue_visited(g: Seq<Vec<MeasuredPixel>>, visited: Seq<bool>, q: Seq<(usize, usize)>) -> bool {
    forall|k: int|
        0 <= k < q.len() ==> in_grid(g, (#[trigger] q[k]).0 as int, q[k].1 as int)
            && visited[pixel_index(grid_width(g), q[k].0 as int, q[k].1 as int)]
}

fn neighbour(j: usize) -> (r: (i64, i64))
    requires
        j < 8,
    ensures
        r.0 == neighbour_offset(j as int).0,
        r.1 == neighbour_offset(j as int).1,
{
    if j == 0 {
        (-1, -1)
    } else if j == 1 {
        (0, -1)
    } else if j == 2 {
        (1, -1)
    } else if j == 3 {
        (-1, 0)
    } else if j == 4 {
        (1, 0)
    } else if j == 5 {
        (-1, 1)
    } else if j == 6 {
        (0, 1)
    } else {
        (1, 1)
    }
}

fn zeroed(n: usize) -> (r: Vec<u8>)
    ensures
        r@ == Seq::new(n as nat, |i: int| 0u8),
{
    let mut r: Vec<u8> = Vec::with_capacity(n);
    let mut i: usize = 0;
    while i < n
        invariant
            i <= n,
            r@ == Seq::new(i as nat, |k: int| 0u8),
        decreases n - i,
    {
        r.push(0);
        i = i + 1;
        assert(r@ =~= Seq::new(i as nat, |k: int| 0u8));
    }
    r
}

fn unmarked(n: usize) -> (r: Vec<bool>)
    ensures
        r@ == Seq::new(n as nat, |i: int| false),
{
    let mut r: Vec<bool> = Vec::with_capacity(n);
    let mut i: usize = 0;
    while i < n
        invariant
            i <= n,
            r@ == Seq::new(i as nat, |k: int| false),
        decreases n - i,
    {
        r.push(false);
        i = i + 1;
        assert(r@ =~= Seq::new(i as nat, |k: int| false));
    }
    r
}

/// Marking a linked pixel, and writing its value to the output, keeps the
/// marks sound.
proof fn lemma_mark_linked(g: Seq<Vec<MeasuredPixel>>, visited: Seq<bool>, output: Seq<u8>, x: int, y: int)
    requires
        marks_sound(g, visited, output),
        in_grid(g, x, y),
        is_linked(g, x, y),
    ensures
        marks_sound(
            g,
            visited.update(pixel_index(grid_width(g), x, y), true),
            output.update(pixel_index(grid_width(g), x, y), g[y]@[x].value as u8),
        ),
        forall|x1: int, y1: int|
            in_grid(g, x1, y1) && (x1 != x || y1 != y) ==> visited.update(
                pixel_index(grid_width(g), x, y),
                true,
            )[#[trigger] pixel_index(grid_width(g), x1, y1)] == visited[pixel_index(
                grid_width(g),
                x1,
                y1,
            )],
{
    let w = grid_width(g);
    let i = pixel_index(w, x, y);
    let v2 = visited.update(i, true);
    let o2 = output.update(i, g[y]@[x].value as u8);
    lemma_pixel_index(w, g.len() as int, x, y, x, y);
    assert forall|x1: int, y1: int| in_grid(g, x1, y1) && (x1 != x || y1 != y) implies v2[
        #[trigger] pixel_index(w, x1, y1)] == visited[pixel_index(w, x1, y1)] && o2[pixel_index(
        w,
        x1,
        y1,
    )] == output[pixel_index(w, x1, y1)] by {
        lemma_pixel_index(w, g.len() as int, x1, y1, x, y);
    }
    assert forall|x1: int, y1: int|
        in_grid(g, x1, y1) implies if #[trigger] v2[pixel_index(w, x1, y1)] {
        is_linked(g, x1, y1) && o2[pixel_index(w, x1, y1)] == g[y1]@[x1].value as u8
    } else {
        o2[pixel_index(w, x1, y1)] == 0
    } by {
        lemma_pixel_index(w, g.len() as int, x1, y1, x, y);
        if x1 != x || y1 != y {
            assert(v2[pixel_index(w, x1, y1)] == visited[pixel_index(w, x1, y1)]);
        }
    }
}

/// Index of the neighbour at offset `(dx, dy)`.
spec fn offset_index(dx: int, dy: int) -> int {
    if dy == -1 {
        dx + 1
    } else if dy == 0 {
        if dx == -1 {
            3
        } else {
            4
        }
    } else {
        dx + 6
    }
}

/// Once the marks are closed (every visited pixel has all its weak
/// neighbours visited) and every strong pixel is visited, every pixel of a
/// chain is visited.
proof fn lemma_closed_marks_complete(g: Seq<Vec<MeasuredPixel>>, visited: Seq<bool>, p: Seq<(int, int)>, i: int)
    requires
        forall|x1: int, y1: int|
            in_grid(g, x1, y1) && g[y1]@[x1].weight == Strength::Strong ==> #[trigger] visited[pixel_index(
                grid_width(g),
                x1,
                y1,
            )],
        forall|x1: int, y1: int|
            in_grid(g, x1, y1) && #[trigger] visited[pixel_index(grid_width(g), x1, y1)] ==> closed_at(
                g,
                visited,
                x1,
                y1,
            ),
        is_chain(g, p),
        0 <= i < p.len(),
    ensures
        visited[pixel_index(grid_width(g), p[i].0, p[i].1)],
    decreases i,
{
    let c = p[i];
    assert(in_grid(g, c.0, c.1));
    if i > 0 {
        let d = p[i - 1];
        assert(in_grid(g, d.0, d.1));
        lemma_closed_marks_complete(g, visited, p, i - 1);
        assert(closed_at(g, visited, d.0, d.1));
        assert(adjacent(d.0, d.1, c.0, c.1));
        let j = offset_index(c.0 - d.0, c.1 - d.1);
        assert(neighbour_x(d.0, j) == c.0 && neighbour_y(d.1, j) == c.1);
        assert(g[c.1]@[c.0].weight == Strength::Weak);
    }
}

/// Hysteresis linking: keeps, with its own value, every pixel that a chain of
/// 8-neighbours joins to a strong pixel through weak pixels; every other pixel
/// of the single-channel result is 0.
pub fn eight_conn_edge_tracker_hysteris(pixels: Vec<Vec<MeasuredPixel>>) -> (r: Frame)
    requires
        pixels@.len() > 0,
        is_grid_of_size(pixels@, pixels@[0]@.len() as int, pixels@.len() as int),
        pixels@.len() <= i32::MAX,
        pixels@[0]@.len() <= i32::MAX,
        pixels@.len() * pixels@[0]@.len() <= usize::MAX,
    ensures
        r.is_gray_of_size(pixels@[0]@.len() as int, pixels@.len() as int),
        forall|x: int, y: int|
            in_grid(pixels@, x, y) ==> #[trigger] r.value_at(x, y) == linked_value(pixels@, x, y),
{
    let ghost g = pixels@;
    let height = pixels.len();
    let width = pixels[0].len();
    let total = height * width;
    assert(grid_width(g) == width);
    assert(total == grid_width(g) * g.len()) by (nonlinear_arith)
        requires
            total == height * width,
            grid_width(g) == width,
            g.len() == height,
    ;
    let mut output: Vec<u8> = zeroed(total);
    let mut visited: Vec<bool> = unmarked(total);
    proof {
        assert forall|x1: int, y1: int| in_grid(g, x1, y1) implies !#[trigger] visited@[pixel_index(
            width as int,
            x1,
            y1,
        )] && output@[pixel_index(width as int, x1, y1)] == 0 by {
            lemma_pixel_index(width as int, height as int, x1, y1, x1, y1);
        }
    }
    let mut queue: VecDeque<(usize, usize)> = VecDeque::new();

    let mut y: usize = 0;
    while y < height
        invariant
            g == pixels@,
            height == g.len(),
            width == grid_width(g),
            is_grid_of_size(g, width as int, height as int),
            total == width * height,
            width <= i32::MAX,
            height <= i32::MAX,
            0 <= y <= height,
            marks_sound(g, visited@, output@),
            queue_visited(g, visited@, queue@),
            forall|x1: int, y1: int|
                in_grid(g, x1, y1) ==> (#[trigger] visited@[pixel_index(width as int, x1, y1)]
                    <==> (y1 < y && g[y1]@[x1].weight == Strength::Strong)),
            forall|x1: int, y1: int|
                in_grid(g, x1, y1) && #[trigger] visited@[pixel_index(width as int, x1, y1)]
                    ==> queued(queue@, x1, y1),
        decreases height - y,
    {
        let mut x: usize = 0;
        while x < width
            invariant
                g == pixels@,
                height == g.len(),
                width == grid_width(g),
                is_grid_of_size(g, width as int, height as int),
                total == width * height,
                width <= i32::MAX,
                height <= i32::MAX,
                0 <= y < height,
                0 <= x <= width,
                marks_sound(g, visited@, output@),
                queue_visited(g, visited@, queue@),
                forall|x1: int, y1: int|
                    in_grid(g, x1, y1) ==> (#[trigger] visited@[pixel_index(width as int, x1, y1)]
                        <==> ((y1 < y || (y1 == y && x1 < x)) && g[y1]@[x1].weight
                        == Strength::Strong)),
                forall|x1: int, y1: int|
                    in_grid(g, x1, y1) && #[trigger] visited@[pixel_index(width as int, x1, y1)]
                        ==> queued(queue@, x1, y1),
            decreases width - x,
        {
            proof {
                lemma_pixel_index_distinct(width as int, height as int, x as int, y as int);
            }
            let idx = y * width + x;
            assert(idx == pixel_index(width as int, x as int, y as int));
            if pixels[y][x].weight == Strength::Strong {
                let ghost q0 = queue@;
                let ghost v0 = visited@;
                proof {
                    let p = seq![(x as int, y as int)];
                    assert(is_chain(g, p) && p.last() == (x as int, y as int));
                    lemma_mark_linked(g, visited@, output@, x as int, y as int);
                }
                queue.push_back((x, y));
                visited.set(idx, true);
                output.set(idx, pixels[y][x].value as u8);
                proof {
                    let p = seq![(x as int, y as int)];
                    assert(is_chain(g, p) && p.last() == (x as int, y as int));
                    assert(queue@[q0.len() as int] == (x, y));
                    assert forall|k: int| 0 <= k < q0.len() implies queue@[k] == q0[k] by {}
                    assert forall|x1: int, y1: int|
                        in_grid(g, x1, y1) && #[trigger] visited@[pixel_index(width as int, x1, y1)]
                            implies queued(queue@, x1, y1) by {
                        if x1 == x && y1 == y {
                            assert(queue@[q0.len() as int] == (x1 as usize, y1 as usize));
                        } else {
                            assert(v0[pixel_index(width as int, x1, y1)]);
                            let k = choose|k: int| 0 <= k < q0.len() && #[trigger] q0[k] == (x1 as usize, y1 as usize);
                            assert(queue@[k] == (x1 as usize, y1 as usize));
                        }
                    }
                }
            }
            x = x + 1;
        }
        y = y + 1;
    }

    proof {
        lemma_count_true_bound(visited@);
    }
    while queue.len() > 0
        invariant
            g == pixels@,
            height == g.len(),
            width == grid_width(g),
            is_grid_of_size(g, width as int, height as int),
            total == width * height,
            width <= i32::MAX,
            height <= i32::MAX,
            marks_sound(g, visited@, output@),
            queue_visited(g, visited@, queue@),
            forall|x1: int, y1: int|
                in_grid(g, x1, y1) && g[y1]@[x1].weight == Strength::Strong ==> #[trigger] visited@[pixel_index(
                    width as int,
                    x1,
                    y1,
                )],
            forall|x1: int, y1: int|
                in_grid(g, x1, y1) && #[trigger] visited@[pixel_index(width as int, x1, y1)]
                    ==> queued(queue@, x1, y1) || closed_at(g, visited@, x1, y1),
        decreases 2 * (total - count_true(visited@)) + queue@.len(),
    {
        let ghost measure = 2 * (total - count_true(visited@)) + queue@.len();
        let ghost q0 = queue@;
        let (x, y) = queue.pop_front().unwrap();
        proof {
            assert(q0[0] == (x, y));
            lemma_count_true_bound(visited@);
            assert forall|x1: int, y1: int|
                in_grid(g, x1, y1) && #[trigger] visited@[pixel_index(width as int, x1, y1)]
                    implies queued(queue@, x1, y1) || (x1 == x && y1 == y) || closed_at(
                    g,
                    visited@,
                    x1,
                    y1,
                ) by {
                if queued(q0, x1, y1) && !(x1 == x && y1 == y) {
                    let k = choose|k: int| 0 <= k < q0.len() && #[trigger] q0[k] == (x1 as usize, y1 as usize);
                    assert(k != 0);
                    assert(queue@[k - 1] == q0[k]);
                }
            }
        }
        let mut j: usize = 0;
        while j < 8
            invariant
                g == pixels@,
                height == g.len(),
                width == grid_width(g),
                is_grid_of_size(g, width as int, height as int),
                total == width * height,
                width <= i32::MAX,
                height <= i32::MAX,
                in_grid(g, x as int, y as int),
                visited@[pixel_index(width as int, x as int, y as int)],
                marks_sound(g, visited@, output@),
                queue_visited(g, visited@, queue@),
                count_true(visited@) <= total,
                2 * (total - count_true(visited@)) + queue@.len() < measure,
                forall|x1: int, y1: int|
                    in_grid(g, x1, y1) && g[y1]@[x1].weight == Strength::Strong
                        ==> #[trigger] visited@[pixel_index(width as int, x1, y1)],
                forall|x1: int, y1: int|
                    in_grid(g, x1, y1) && #[trigger] visited@[pixel_index(width as int, x1, y1)]
                        ==> queued(queue@, x1, y1) || (x1 == x && y1 == y) || closed_at(
                        g,
                        visited@,
                        x1,
                        y1,
                    ),
                j <= 8,
                forall|jj: int|
                    0 <= jj < j && in_grid(g, neighbour_x(x as int, jj), neighbour_y(y as int, jj))
                        && g[neighbour_y(y as int, jj)]@[neighbour_x(x as int, jj)].weight
                        == Strength::Weak ==> visited@[pixel_index(
                        width as int,
                        #[trigger] neighbour_x(x as int, jj),
                        #[trigger] neighbour_y(y as int, jj),
                    )],
            decreases 8 - j,
        {
            let (dx, dy) = neighbour(j);
            let nx: i64 = x as i64 + dx;
            let ny: i64 = y as i64 + dy;
            assert(nx == neighbour_x(x as int, j as int) && ny == neighbour_y(y as int, j as int));
            if nx >= 0 && nx < width as i64 && ny >= 0 && ny < height as i64 {
                let nxu = nx as usize;
                let nyu = ny as usize;
                proof {
                    lemma_pixel_index_distinct(width as int, height as int, nx as int, ny as int);
                }
                let idx = nyu * width + nxu;
                assert(idx == pixel_index(width as int, nx as int, ny as int));
                if !visited[idx] && pixels[nyu][nxu].weight == Strength::Weak {
                    let ghost v0 = visited@;
                    let ghost qa = queue@;
                    proof {
                        let p = choose|p: Seq<(int, int)>| #[trigger] is_chain(g, p) && p.last() == (x as int, y as int);
                        let p2 = p.push((nx as int, ny as int));
                        assert(p2[p2.len() - 2] == p.last());
                        assert(is_chain(g, p2) && p2.last() == (nx as int, ny as int));
                        lemma_count_true_set(v0, idx as int);
                        lemma_mark_linked(g, visited@, output@, nx as int, ny as int);
                    }
                    visited.set(idx, true);
                    queue.push_back((nxu, nyu));
                    output.set(idx, pixels[nyu][nxu].value as u8);
                    proof {
                        lemma_count_true_bound(visited@);
                        assert(queue@[qa.len() as int] == (nxu, nyu));
                        assert forall|k: int| 0 <= k < qa.len() implies queue@[k] == qa[k] by {}
                        assert forall|x1: int, y1: int|
                            in_grid(g, x1, y1) && #[trigger] visited@[pixel_index(
                                width as int,
                                x1,
                                y1,
                            )] implies queued(queue@, x1, y1) || (x1 == x && y1 == y)
                            || closed_at(g, visited@, x1, y1) by {
                            if x1 == nx && y1 == ny {
                                assert(queue@[qa.len() as int] == (x1 as usize, y1 as usize));
                            } else {
                                assert(v0[pixel_index(width as int, x1, y1)]);
                                if queued(qa, x1, y1) {
                                    let k = choose|k: int|
                                        0 <= k < qa.len() && #[trigger] qa[k] == (
                                            x1 as usize,
                                            y1 as usize,
                                        );
                                    assert(queue@[k] == (x1 as usize, y1 as usize));
                                } else if !(x1 == x && y1 == y) {
                                    assert(closed_at(g, v0, x1, y1));
                                    assert forall|j1: int|
                                        0 <= j1 < 8 && in_grid(
                                            g,
                                            neighbour_x(x1, j1),
                                            neighbour_y(y1, j1),
                                        ) && g[neighbour_y(y1, j1)]@[neighbour_x(
                                            x1,
                                            j1,
                                        )].weight == Strength::Weak implies visited@[pixel_index(
                                        grid_width(g),
                                        #[trigger] neighbour_x(x1, j1),
                                        #[trigger] neighbour_y(y1, j1),
                                    )] by {
                                        assert(v0[pixel_index(
                                            grid_width(g),
                                            neighbour_x(x1, j1),
                                            neighbour_y(y1, j1),
                                        )]);
                                    }
                                }
                            }
                        }
                    }
                }
            }
            j = j + 1;
        }
        proof {
            assert(closed_at(g, visited@, x as int, y as int));
        }
    }

    proof {
        assert forall|x1: int, y1: int| in_grid(g, x1, y1) implies (#[trigger] visited@[pixel_index(
            width as int,
            x1,
            y1,
        )] <==> is_linked(g, x1, y1)) by {
            if is_linked(g, x1, y1) {
                let p = choose|p: Seq<(int, int)>| #[trigger] is_chain(g, p) && p.last() == (x1, y1);
                lemma_closed_marks_complete(g, visited@, p, p.len() - 1);
            }
        }
    }
    let r = Frame { data: output, width: width as i32, height: height as i32, channels: 1 };
    proof {
        assert forall|x1: int, y1: int| in_grid(g, x1, y1) implies #[trigger] r.value_at(x1, y1)
            == linked_value(g, x1, y1) by {
            r.lemma_gray_value_at(x1, y1);
            lemma_pixel_index(width as int, height as int, x1, y1, x1, y1);
            assert(visited@[pixel_index(width as int, x1, y1)] <==> is_linked(g, x1, y1));
        }
    }
    r
}

} // verus!

use vstd::arithmetic::div_mod::{
    lemma_div_is_ordered, lemma_fundamental_div_mod, lemma_fundamental_div_mod_converse,
};
use vstd::prelude::*;

verus! {

/// Distance between two positions on one axis.
pub open spec fn abs_diff(a: int, b: int) -> int {
    if a <= b {
        b - a
    } else {
        a - b
    }
}

/// Number of steps of the segment from `(sx, sy)` to `(ex, ey)`: the larger of
/// its two axis distances.
pub open spec fn line_steps(sx: int, sy: int, ex: int, ey: int) -> int {
    if abs_diff(sx, ex) >= abs_diff(sy, ey) {
        abs_diff(sx, ex)
    } else {
        abs_diff(sy, ey)
    }
}

/// Position on one axis at step `i` of `n` on the way from `s` to `e`: the exact
/// point `s + i * (e - s) / n` rounded to the nearest cell, halves rounded up.
pub open spec fn axis_at(s: int, e: int, n: int, i: int) -> int {
    if n == 0 {
        s
    } else {
        s + (2 * i * (e - s) + n) / (2 * n)
    }
}

/// Column of the cell visited at step `i` of the segment.
pub open spec fn line_x(sx: int, sy: int, ex: int, ey: int, i: int) -> int {
    axis_at(sx, ex, line_steps(sx, sy, ex, ey), i)
}

/// Row of the cell visited at step `i` of the segment.
pub open spec fn line_y(sx: int, sy: int, ex: int, ey: int, i: int) -> int {
    axis_at(sy, ey, line_steps(sx, sy, ex, ey), i)
}

/// Whether the cell `(x, y)` is visited by the segment from `(sx, sy)` to `(ex, ey)`.
pub open spec fn on_line(sx: int, sy: int, ex: int, ey: int, x: int, y: int) -> bool {
    exists|i: int|
        0 <= i <= line_steps(sx, sy, ex, ey) && #[trigger] line_x(sx, sy, ex, ey, i) == x
            && line_y(sx, sy, ex, ey, i) == y
}

/// Whether the cell `(x, y)` is one of the first `k` cells visited by the segment.
pub open spec fn visited_within(sx: int, sy: int, ex: int, ey: int, k: int, x: int, y: int) -> bool {
    exists|i: int| 0 <= i < k && #[trigger] line_x(sx, sy, ex, ey, i) == x && line_y(sx, sy, ex, ey, i) == y
}

/// Whether `i` and `j` differ by at most one.
pub open spec fn adjacent(i: int, j: int) -> bool {
    -1 <= i - j <= 1
}

proof fn lemma_axis_forward(s: int, e: int, n: int, i: int, q: int, rem: int)
    requires
        0 < n,
        0 <= i <= n,
        s <= e,
        e - s <= n,
        i * (e - s) == n * q + rem,
        0 <= rem < n,
    ensures
        axis_at(s, e, n, i) == s + q + (if 2 * rem >= n { 1int } else { 0 }),
        s <= axis_at(s, e, n, i) <= e,
{
    let d = e - s;
    let x = 2 * i * d + n;
    if 2 * rem >= n {
        assert(x == (q + 1) * (2 * n) + (2 * rem - n)) by (nonlinear_arith)
            requires
                x == 2 * i * d + n,
                i * d == n * q + rem,
        ;
        lemma_fundamental_div_mod_converse(x, 2 * n, q + 1, 2 * rem - n);
    } else {
        assert(x == q * (2 * n) + (2 * rem + n)) by (nonlinear_arith)
            requires
                x == 2 * i * d + n,
                i * d == n * q + rem,
        ;
        lemma_fundamental_div_mod_converse(x, 2 * n, q, 2 * rem + n);
    }
    assert(0 <= x <= 2 * n * d + n) by (nonlinear_arith)
        requires
            x == 2 * i * d + n,
            0 <= i <= n,
            0 <= d,
            0 < n,
    ;
    lemma_div_is_ordered(0, x, 2 * n);
    lemma_div_is_ordered(x, 2 * n * d + n, 2 * n);
    assert(2 * n * d + n == d * (2 * n) + n) by (nonlinear_arith);
    lemma_fundamental_div_mod_converse(2 * n * d + n, 2 * n, d, n);
}

proof fn lemma_axis_backward(s: int, e: int, n: int, i: int, q: int, rem: int)
    requires
        0 < n,
        0 <= i <= n,
        e < s,
        s - e <= n,
        i * (s - e) == n * q + rem,
        0 <= rem < n,
    ensures
        axis_at(s, e, n, i) == s - q - (if 2 * rem > n { 1int } else { 0 }),
        e <= axis_at(s, e, n, i) <= s,
{
    let d = s - e;
    let x = 2 * i * (e - s) + n;
    if 2 * rem > n {
        assert(x == (-q - 1) * (2 * n) + (3 * n - 2 * rem)) by (nonlinear_arith)
            requires
                x == 2 * i * (e - s) + n,
                d == s - e,
                i * d == n * q + rem,
        ;
        lemma_fundamental_div_mod_converse(x, 2 * n, -q - 1, 3 * n - 2 * rem);
    } else {
        assert(x == (-q) * (2 * n) + (n - 2 * rem)) by (nonlinear_arith)
            requires
                x == 2 * i * (e - s) + n,
                d == s - e,
                i * d == n * q + rem,
        ;
        lemma_fundamental_div_mod_converse(x, 2 * n, -q, n - 2 * rem);
    }
    assert(n - 2 * n * d <= x <= n) by (nonlinear_arith)
        requires
            x == 2 * i * (e - s) + n,
            d == s - e,
            0 <= i <= n,
            0 < d,
            0 < n,
    ;
    lemma_div_is_ordered(n - 2 * n * d, x, 2 * n);
    lemma_div_is_ordered(x, n, 2 * n);
    assert(n - 2 * n * d == (-d) * (2 * n) + n) by (nonlinear_arith);
    lemma_fundamental_div_mod_converse(n - 2 * n * d, 2 * n, -d, n);
    lemma_fundamental_div_mod_converse(n, 2 * n, 0, n);
}

proof fn lemma_div_step(x: int, y: int, m: int)
    requires
        0 < m,
        x <= y <= x + m,
    ensures
        x / m <= y / m <= x / m + 1,
{
    lemma_div_is_ordered(x, y, m);
    lemma_div_is_ordered(y, x + m, m);
    lemma_fundamental_div_mod(x, m);
    let q = x / m;
    let r = x % m;
    assert(x + m == (q + 1) * m + r) by (nonlinear_arith)
        requires
            x == m * q + r,
    ;
    lemma_fundamental_div_mod_converse(x + m, m, q + 1, r);
}

proof fn lemma_axis_ends(s: int, e: int, n: int)
    requires
        0 < n,
    ensures
        axis_at(s, e, n, 0) == s,
        axis_at(s, e, n, n) == e,
{
    assert(2 * 0 * (e - s) + n == n) by (nonlinear_arith);
    lemma_fundamental_div_mod_converse(n, 2 * n, 0, n);
    assert(2 * n * (e - s) + n == (e - s) * (2 * n) + n) by (nonlinear_arith);
    lemma_fundamental_div_mod_converse(2 * n * (e - s) + n, 2 * n, e - s, n);
}

proof fn lemma_axis_step(s: int, e: int, n: int, i: int)
    requires
        0 < n,
        abs_diff(s, e) <= n,
    ensures
        adjacent(axis_at(s, e, n, i + 1), axis_at(s, e, n, i)),
{
    let x1 = 2 * i * (e - s) + n;
    let x2 = 2 * (i + 1) * (e - s) + n;
    assert(x2 == x1 + 2 * (e - s)) by (nonlinear_arith)
        requires
            x1 == 2 * i * (e - s) + n,
            x2 == 2 * (i + 1) * (e - s) + n,
    ;
    if s <= e {
        lemma_div_step(x1, x2, 2 * n);
    } else {
        lemma_div_step(x2, x1, 2 * n);
    }
}

/// A segment from a cell to itself visits that cell and no other.
pub proof fn lemma_point_segment(x0: int, y0: int, x: int, y: int)
    ensures
        on_line(x0, y0, x0, y0, x, y) <==> (x == x0 && y == y0),
{
    assert(line_steps(x0, y0, x0, y0) == 0);
    if x == x0 && y == y0 {
        assert(line_x(x0, y0, x0, y0, 0) == x0);
    }
}

/// A segment starts at its first endpoint and ends at its second, and visits both.
pub proof fn lemma_line_endpoints(sx: int, sy: int, ex: int, ey: int)
    ensures
        line_x(sx, sy, ex, ey, 0) == sx,
        line_y(sx, sy, ex, ey, 0) == sy,
        line_x(sx, sy, ex, ey, line_steps(sx, sy, ex, ey)) == ex,
        line_y(sx, sy, ex, ey, line_steps(sx, sy, ex, ey)) == ey,
        on_line(sx, sy, ex, ey, sx, sy),
        on_line(sx, sy, ex, ey, ex, ey),
{
    let n = line_steps(sx, sy, ex, ey);
    if n > 0 {
        lemma_axis_ends(sx, ex, n);
        lemma_axis_ends(sy, ey, n);
    }
    assert(line_x(sx, sy, ex, ey, 0) == sx);
    assert(line_x(sx, sy, ex, ey, n) == ex);
}

/// Consecutive cells of a segment differ by at most one on each axis, so the
/// visited cells form a connected path.
pub proof fn lemma_line_continuous(sx: int, sy: int, ex: int, ey: int, i: int)
    requires
        0 <= i < line_steps(sx, sy, ex, ey),
    ensures
        adjacent(line_x(sx, sy, ex, ey, i + 1), line_x(sx, sy, ex, ey, i)),
        adjacent(line_y(sx, sy, ex, ey, i + 1), line_y(sx, sy, ex, ey, i)),
{
    let n = line_steps(sx, sy, ex, ey);
    lemma_axis_step(sx, ex, n, i);
    lemma_axis_step(sy, ey, n, i);
}

/// Every cell of a segment lies in the box spanned by its endpoints.
pub proof fn lemma_line_within_box(sx: int, sy: int, ex: int, ey: int, i: int)
    requires
        0 <= i <= line_steps(sx, sy, ex, ey),
    ensures
        sx <= ex ==> sx <= line_x(sx, sy, ex, ey, i) <= ex,
        ex < sx ==> ex <= line_x(sx, sy, ex, ey, i) <= sx,
        sy <= ey ==> sy <= line_y(sx, sy, ex, ey, i) <= ey,
        ey < sy ==> ey <= line_y(sx, sy, ex, ey, i) <= sy,
{
    let n = line_steps(sx, sy, ex, ey);
    if n > 0 {
        lemma_axis_box(sx, ex, n, i);
        lemma_axis_box(sy, ey, n, i);
    }
}

proof fn lemma_axis_box(s: int, e: int, n: int, i: int)
    requires
        0 < n,
        0 <= i <= n,
        abs_diff(s, e) <= n,
    ensures
        s <= e ==> s <= axis_at(s, e, n, i) <= e,
        e < s ==> e <= axis_at(s, e, n, i) <= s,
{
    if s <= e {
        lemma_fundamental_div_mod(i * (e - s), n);
        lemma_axis_forward(s, e, n, i, (i * (e - s)) / n, (i * (e - s)) % n);
    } else {
        lemma_fundamental_div_mod(i * (s - e), n);
        lemma_axis_backward(s, e, n, i, (i * (s - e)) / n, (i * (s - e)) % n);
    }
}

/// The cell on one axis at step `i` of `n` on the way from `s` to `e`.
fn axis_cell(s: usize, e: usize, n: usize, i: usize) -> (r: usize)
    requires
        0 < n,
        i <= n,
        abs_diff(s as int, e as int) <= n,
    ensures
        r == axis_at(s as int, e as int, n as int, i as int),
{
    let nn = n as u128;
    if s <= e {
        let d = (e - s) as u128;
        assert((i as u128) * d <= u128::MAX) by (nonlinear_arith)
            requires
                i <= n,
                d <= n,
                n <= usize::MAX,
        ;
        let a = (i as u128) * d;
        let q = a / nn;
        let rem = a % nn;
        proof {
            lemma_fundamental_div_mod(a as int, nn as int);
            lemma_axis_forward(s as int, e as int, n as int, i as int, q as int, rem as int);
        }
        let off: u128 = if 2 * rem >= nn {
            q + 1
        } else {
            q
        };
        s + off as usize
    } else {
        let d = (s - e) as u128;
        assert((i as u128) * d <= u128::MAX) by (nonlinear_arith)
            requires
                i <= n,
                d <= n,
                n <= usize::MAX,
        ;
        let a = (i as u128) * d;
        let q = a / nn;
        let rem = a % nn;
        proof {
            lemma_fundamental_div_mod(a as int, nn as int);
            lemma_axis_backward(s as int, e as int, n as int, i as int, q as int, rem as int);
        }
        let off: u128 = if 2 * rem > nn {
            q + 1
        } else {
            q
        };
        s - off as usize
    }
}

/// Number of steps of the segment from `(start_x, start_y)` to `(end_x, end_y)`.
pub fn steps_between(start_x: usize, start_y: usize, end_x: usize, end_y: usize) -> (r: usize)
    ensures
        r == line_steps(start_x as int, start_y as int, end_x as int, end_y as int),
{
    let dx = if start_x <= end_x {
        end_x - start_x
    } else {
        start_x - end_x
    };
    let dy = if start_y <= end_y {
        end_y - start_y
    } else {
        start_y - end_y
    };
    if dx >= dy {
        dx
    } else {
        dy
    }
}

/// The cell visited at step `i` of the segment from `(start_x, start_y)` to
/// `(end_x, end_y)`, as `(column, row)`.
pub fn line_cell(start_x: usize, start_y: usize, end_x: usize, end_y: usize, i: usize) -> (r: (
    usize,
    usize,
))
    requires
        i <= line_steps(start_x as int, start_y as int, end_x as int, end_y as int),
    ensures
        r.0 == line_x(start_x as int, start_y as int, end_x as int, end_y as int, i as int),
        r.1 == line_y(start_x as int, start_y as int, end_x as int, end_y as int, i as int),
{
    let n = steps_between(start_x, start_y, end_x, end_y);
    if n == 0 {
        (start_x, start_y)
    } else {
        (axis_cell(start_x, end_x, n, i), axis_cell(start_y, end_y, n, i))
    }
}

/// Paints `brush` onto every cell of `canvas` (indexed by row, then column)
/// that the segment from `(start_x, start_y)` to `(end_x, end_y)` visits.
pub fn draw_line<T: Copy>(
    canvas: &mut Vec<Vec<T>>,
    start_x: usize,
    start_y: usize,
    end_x: usize,
    end_y: usize,
    brush: T,
)
    requires
        start_y < old(canvas)@.len(),
        end_y < old(canvas)@.len(),
        forall|r: int|
            #![trigger old(canvas)@[r]]
            (start_y <= r <= end_y || end_y <= r <= start_y) ==> start_x < old(canvas)@[r]@.len()
                && end_x < old(canvas)@[r]@.len(),
    ensures
        final(canvas)@.len() == old(canvas)@.len(),
        forall|r: int|
            #![trigger final(canvas)@[r]]
            0 <= r < old(canvas)@.len() ==> final(canvas)@[r]@.len() == old(canvas)@[r]@.len(),
        forall|r: int, c: int|
            0 <= r < old(canvas)@.len() && 0 <= c < old(canvas)@[r]@.len() ==> #[trigger] final(canvas)@[r]@[c] == if on_line(start_x as int, start_y as int, end_x as int, end_y as int, c, r) {
                brush
            } else {
                old(canvas)@[r]@[c]
            },
{
    let ghost sx = start_x as int;
    let ghost sy = start_y as int;
    let ghost ex = end_x as int;
    let ghost ey = end_y as int;
    let n = steps_between(start_x, start_y, end_x, end_y);
    let row_len = canvas[start_y].len();
    let rows = canvas.len();
    assert(start_x < row_len && end_x < row_len);
    let mut i: usize = 0;
    while i <= n
        invariant
            sx == start_x,
            sy == start_y,
            ex == end_x,
            ey == end_y,
            sy < old(canvas)@.len(),
            ey < old(canvas)@.len(),
            n == line_steps(sx, sy, ex, ey),
            n < usize::MAX,
            i <= n + 1,
            canvas@.len() == old(canvas)@.len(),
            forall|r: int|
                #![trigger canvas@[r]]
                0 <= r < old(canvas)@.len() ==> canvas@[r]@.len() == old(canvas)@[r]@.len(),
            forall|r: int|
                #![trigger old(canvas)@[r]]
                (sy <= r <= ey || ey <= r <= sy) ==> sx < old(canvas)@[r]@.len() && ex < old(canvas)@[r]@.len(),
            forall|r: int, c: int|
                0 <= r < old(canvas)@.len() && 0 <= c < old(canvas)@[r]@.len() ==> #[trigger] canvas@[r]@[c]
                    == if visited_within(sx, sy, ex, ey, i as int, c, r) {
                    brush
                } else {
                    old(canvas)@[r]@[c]
                },
        decreases n + 1 - i,
    {
        let (x, y) = line_cell(start_x, start_y, end_x, end_y, i);
        proof {
            lemma_line_within_box(sx, sy, ex, ey, i as int);
            assert(x < old(canvas)@[y as int]@.len());
            assert(x < canvas@[y as int]@.len());
        }
        canvas[y][x] = brush;
        proof {
            assert forall|r: int, c: int|
                0 <= r < old(canvas)@.len() && 0 <= c < old(canvas)@[r]@.len() implies #[trigger] canvas@[r]@[c]
                    == if visited_within(sx, sy, ex, ey, i + 1, c, r) {
                    brush
                } else {
                    old(canvas)@[r]@[c]
                } by {
                if r == y && c == x {
                    assert(line_x(sx, sy, ex, ey, i as int) == c);
                } else if visited_within(sx, sy, ex, ey, i + 1, c, r) {
                    let j = choose|j: int|
                        0 <= j < i + 1 && #[trigger] line_x(sx, sy, ex, ey, j) == c && line_y(sx, sy, ex, ey, j) == r;
                    assert(j != i);
                    assert(visited_within(sx, sy, ex, ey, i as int, c, r));
                } else {
                    assert(!visited_within(sx, sy, ex, ey, i as int, c, r));
                }
            }
        }
        i = i + 1;
    }
    proof {
        assert forall|r: int, c: int|
            visited_within(sx, sy, ex, ey, n + 1, c, r) == on_line(sx, sy, ex, ey, c, r) by {
            if on_line(sx, sy, ex, ey, c, r) {
                let j = choose|j: int|
                    0 <= j <= n && #[trigger] line_x(sx, sy, ex, ey, j) == c && line_y(sx, sy, ex, ey, j)
                        == r;
                assert(visited_within(sx, sy, ex, ey, n + 1, c, r));
            }
            if visited_within(sx, sy, ex, ey, n + 1, c, r) {
                let j = choose|j: int|
                    0 <= j < n + 1 && #[trigger] line_x(sx, sy, ex, ey, j) == c && line_y(sx, sy, ex, ey, j) == r;
                assert(on_line(sx, sy, ex, ey, c, r));
            }
        }
    }
}

} // verus!

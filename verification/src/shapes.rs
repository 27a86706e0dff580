//! The shape generators: rectangle, ellipse and flood fill. Each gives the
//! positions of its shape that lie inside the grid, row by row, and changes
//! nothing.

use crate::map::{
    all_cells, at, cells, covers, inside, lemma_cell_at, lemma_row_view, MAX_CELLS, sized,
};
use crate::select::{
    blanks, flagged, lemma_blanks_set, lemma_flags_view, listed, listing, mark, shaped, uniform,
};
use vstd::prelude::*;

verus! {

/// The widest and the highest box an ellipse can be asked for. Within it the
/// decision variables of the midpoint walk fit in 128 bits.
pub const MAX_EXTENT: usize = 0x4000_0000;

/// The corners and the decision variables of the midpoint walk along an
/// ellipse: the columns `x0 <= x1` and the rows `y1 <= y0` of the four points,
/// the error `e` and its increments `dx` and `dy`.
pub struct Walk {
    pub x0: int,
    pub x1: int,
    pub y0: int,
    pub y1: int,
    pub dx: int,
    pub dy: int,
    pub e: int,
}

/// The distance between two coordinates.
pub open spec fn span(p: int, q: int) -> int {
    if p <= q {
        q - p
    } else {
        p - q
    }
}

/// The smaller of two coordinates.
pub open spec fn least(p: int, q: int) -> int {
    if p <= q {
        p
    } else {
        q
    }
}

/// The walk before its first step, for the box with the corners `(xa, ya)`
/// and `(xb, yb)`: the two points on the middle row, or the four on the two
/// middle rows where the height is odd.
pub open spec fn walk_start(xa: int, ya: int, xb: int, yb: int) -> Walk {
    let a = span(xa, xb);
    let b = span(ya, yb);
    let odd = b % 2;
    let dx = 4 * (1 - a) * b * b;
    let dy = 4 * (odd + 1) * a * a;
    let y0 = least(ya, yb) + (b + 1) / 2;
    Walk {
        x0: least(xa, xb),
        x1: least(xa, xb) + a,
        y0,
        y1: y0 - odd,
        dx,
        dy,
        e: dx + dy + odd * a * a,
    }
}

/// One step of the walk for a box `a` wide and `b` high: a step along the
/// rows where twice the error is at most `dy`, then a step along the columns
/// where twice the old error is at least `dx` or twice the new one exceeds the
/// new `dy`.
pub open spec fn walk_step(w: Walk, a: int, b: int) -> Walk {
    let e2 = 2 * w.e;
    let v = if e2 <= w.dy {
        Walk { y0: w.y0 + 1, y1: w.y1 - 1, dy: w.dy + 8 * a * a, e: w.e + w.dy + 8 * a * a, ..w }
    } else {
        w
    };
    if e2 >= w.dx || 2 * v.e > v.dy {
        Walk { x0: v.x0 + 1, x1: v.x1 - 1, dx: v.dx + 8 * b * b, e: v.e + v.dx + 8 * b * b, ..v }
    } else {
        v
    }
}

/// The walk after `n` steps.
pub open spec fn walk_at(xa: int, ya: int, xb: int, yb: int, n: nat) -> Walk
    decreases n,
{
    if n == 0 {
        walk_start(xa, ya, xb, yb)
    } else {
        walk_step(walk_at(xa, ya, xb, yb, (n - 1) as nat), span(xa, xb), span(ya, yb))
    }
}

/// Whether the walk, where it stands, draws row `r`, column `c`: one of its
/// four points, or with `fill` a cell between them on one of its two rows.
pub open spec fn draws(w: Walk, fill: bool, r: int, c: int) -> bool {
    &&& r == w.y0 || r == w.y1
    &&& if fill {
        w.x0 <= c <= w.x1
    } else {
        c == w.x0 || c == w.x1
    }
}

/// Whether the ellipse in the box with the corners `(xa, ya)` and `(xb, yb)`
/// holds row `r`, column `c`: the walk draws it at some step before its two
/// columns have crossed.
pub open spec fn on_ellipse(xa: int, ya: int, xb: int, yb: int, fill: bool, r: int, c: int) -> bool {
    exists|n: nat|
        {
            let w = #[trigger] walk_at(xa, ya, xb, yb, n);
            w.x0 <= w.x1 && draws(w, fill, r, c)
        }
}

/// Whether a row of the walk between the columns `xl` and `xr` holds column
/// `c`.
pub open spec fn in_row(xl: int, xr: int, fill: bool, c: int) -> bool {
    if fill {
        xl <= c <= xr
    } else {
        c == xl || c == xr
    }
}

/// Sets the flags of row `y` that the walk draws between the columns `xl`
/// and `xr`, as far as they lie inside the grid.
fn stamp(
    select: &mut Vec<Vec<bool>>,
    width: usize,
    height: usize,
    xl: i128,
    xr: i128,
    y: i128,
    fill: bool,
)
    requires
        shaped(old(select).deep_view(), width as nat, height as nat),
    ensures
        shaped(final(select).deep_view(), width as nat, height as nat),
        forall|r: int, c: int|
            0 <= r < height && 0 <= c < width ==> #[trigger] final(select).deep_view()[r][c] == (old(
                select,
            ).deep_view()[r][c] || (r == y && in_row(xl as int, xr as int, fill, c))),
{
    broadcast use lemma_flags_view;

    if y < 0 || y >= height as i128 || width == 0 {
        return ;
    }
    let row: usize = y as usize;
    if fill {
        if xr < 0 || xl >= width as i128 || xl > xr {
            return ;
        }
        let lo: usize = if xl < 0 {
            0
        } else {
            xl as usize
        };
        let hi: usize = if xr >= width as i128 {
            width - 1
        } else {
            xr as usize
        };
        let mut c: usize = lo;
        while c <= hi
            invariant
                lo <= c <= hi + 1,
                hi < width,
                row < height,
                row == y,
                lo == (if xl < 0 { 0 } else { xl as int }),
                hi == (if xr >= width { width - 1 } else { xr as int }),
                shaped(old(select).deep_view(), width as nat, height as nat),
                shaped(select.deep_view(), width as nat, height as nat),
                forall|r: int, j: int|
                    0 <= r < height && 0 <= j < width ==> #[trigger] select.deep_view()[r][j] == (old(
                        select,
                    ).deep_view()[r][j] || (r == row && lo <= j < c)),
            decreases hi + 1 - c,
        {
            mark(select, row, c, true);
            c += 1;
        }
    } else {
        if 0 <= xl && xl < width as i128 {
            mark(select, row, xl as usize, true);
        }
        if 0 <= xr && xr < width as i128 {
            mark(select, row, xr as usize, true);
        }
    }
}

/// The walk after `k` steps along the rows and `m` steps along the columns,
/// in closed form.
pub open spec fn tracks(w: Walk, xa: int, ya: int, xb: int, yb: int, k: int, m: int) -> bool {
    let a = span(xa, xb);
    let b = span(ya, yb);
    let odd = b % 2;
    let s = walk_start(xa, ya, xb, yb);
    &&& w.x0 == s.x0 + m
    &&& w.x1 == s.x1 - m
    &&& w.y0 == s.y0 + k
    &&& w.y1 == s.y1 - k
    &&& w.dx == s.dx + 8 * b * b * m
    &&& w.dy == s.dy + 8 * a * a * k
    &&& w.e == s.e + 4 * a * a * (k * (k + odd + 2)) + 4 * b * b * (m * (m + 2 - a))
}

/// Whether a step of the walk goes along the rows.
pub open spec fn steps_row(w: Walk) -> bool {
    2 * w.e <= w.dy
}

/// Whether a step of the walk goes along the columns.
pub open spec fn steps_column(w: Walk, a: int) -> bool {
    2 * w.e >= w.dx || if steps_row(w) {
        2 * (w.e + w.dy + 8 * a * a) > w.dy + 8 * a * a
    } else {
        2 * w.e > w.dy
    }
}

/// A step keeps the closed form, with one more step counted on each axis
/// along which it went; and it goes along at least one axis.
proof fn lemma_step_tracks(w: Walk, xa: int, ya: int, xb: int, yb: int, k: int, m: int)
    requires
        tracks(w, xa, ya, xb, yb, k, m),
    ensures
        tracks(
            walk_step(w, span(xa, xb), span(ya, yb)),
            xa,
            ya,
            xb,
            yb,
            if steps_row(w) {
                k + 1
            } else {
                k
            },
            if steps_column(w, span(xa, xb)) {
                m + 1
            } else {
                m
            },
        ),
        steps_row(w) || steps_column(w, span(xa, xb)),
{
    let a = span(xa, xb);
    let b = span(ya, yb);
    let odd = b % 2;
    let aa = a * a;
    let bb = b * b;
    assert(8 * a * a == 8 * aa) by (nonlinear_arith)
        requires
            aa == a * a,
    ;
    assert(8 * b * b == 8 * bb) by (nonlinear_arith)
        requires
            bb == b * b,
    ;
    assert(4 * a * a == 4 * aa) by (nonlinear_arith)
        requires
            aa == a * a,
    ;
    assert(4 * b * b == 4 * bb) by (nonlinear_arith)
        requires
            bb == b * b,
    ;
    assert(4 * (odd + 1) * a * a == 4 * (odd + 1) * aa) by (nonlinear_arith)
        requires
            aa == a * a,
    ;
    assert(8 * aa * (k + 1) == 8 * aa * k + 8 * aa) by (nonlinear_arith);
    assert(8 * bb * (m + 1) == 8 * bb * m + 8 * bb) by (nonlinear_arith);
    assert(4 * aa * ((k + 1) * (k + 1 + odd + 2)) == 4 * aa * (k * (k + odd + 2)) + 4 * (odd + 1)
        * aa + 8 * aa * k + 8 * aa) by (nonlinear_arith);
    assert(4 * bb * ((m + 1) * (m + 1 + 2 - a)) == 4 * bb * (m * (m + 2 - a)) + 4 * (1 - a) * bb
        + 8 * bb * m + 8 * bb) by (nonlinear_arith);
    assert(4 * (1 - a) * b * b == 4 * (1 - a) * bb) by (nonlinear_arith)
        requires
            bb == b * b,
    ;
}

/// While the walk still steps along the rows it is at least two rows short
/// of the height of its box.
proof fn lemma_row_bound(a: int, b: int, odd: int, k: int, m: int, e: int, dy: int)
    requires
        a >= 1,
        b >= 0,
        odd == b % 2,
        k >= 0,
        e == 4 * (1 - a) * b * b + 4 * (odd + 1) * a * a + odd * a * a + 4 * a * a * (k * (k + odd
            + 2)) + 4 * b * b * (m * (m + 2 - a)),
        dy == 4 * (odd + 1) * a * a + 8 * a * a * k,
        2 * e <= dy,
    ensures
        2 * k + 2 + odd <= b,
{
    let aa = a * a;
    let bb = b * b;
    let p = k * (k + odd + 2);
    let t = m * (m + 2 - a);
    let ab = a * bb;
    let ap = aa * p;
    let bt = bb * t;
    let ak = aa * k;
    let aabb = aa * bb;
    assert(4 * (1 - a) * b * b == 4 * bb - 4 * ab) by (nonlinear_arith)
        requires
            bb == b * b,
            ab == a * bb,
    ;
    assert(4 * a * a * (k * (k + odd + 2)) == 4 * ap) by (nonlinear_arith)
        requires
            aa == a * a,
            p == k * (k + odd + 2),
            ap == aa * p,
    ;
    assert(4 * b * b * (m * (m + 2 - a)) == 4 * bt) by (nonlinear_arith)
        requires
            bb == b * b,
            t == m * (m + 2 - a),
            bt == bb * t,
    ;
    assert(8 * a * a * k == 8 * ak) by (nonlinear_arith)
        requires
            aa == a * a,
            ak == aa * k,
    ;
    let q = 2 * m + 2 - a;
    assert(4 * t + (a - 2) * (a - 2) == q * q) by (nonlinear_arith)
        requires
            t == m * (m + 2 - a),
            q == 2 * m + 2 - a,
    ;
    assert(q * q >= 0) by (nonlinear_arith);
    let x = 4 * t + (a - 2) * (a - 2);
    assert(bb >= 0) by (nonlinear_arith)
        requires
            bb == b * b,
    ;
    assert(bb * x >= 0) by (nonlinear_arith)
        requires
            bb >= 0,
            x >= 0,
    ;
    assert(bb * x == 4 * bt + aabb - 4 * ab + 4 * bb) by (nonlinear_arith)
        requires
            x == 4 * t + (a - 2) * (a - 2),
            aa == a * a,
            bt == bb * t,
            ab == a * bb,
            aabb == aa * bb,
    ;
    assert(aa >= 1) by (nonlinear_arith)
        requires
            a >= 1,
            aa == a * a,
    ;
    if odd == 0 {
        assert(4 * (odd + 1) * a * a == 4 * aa) by (nonlinear_arith)
            requires
                odd == 0,
                aa == a * a,
        ;
        assert(odd * a * a == 0) by (nonlinear_arith)
            requires
                odd == 0,
        ;
        let z = 4 + 8 * p - 8 * k - 2 * bb;
        assert(aa * z == 4 * aa + 8 * ap - 8 * ak - 2 * aabb) by (nonlinear_arith)
            requires
                z == 4 + 8 * p - 8 * k - 2 * bb,
                ap == aa * p,
                ak == aa * k,
                aabb == aa * bb,
        ;
        assert(z <= 0) by (nonlinear_arith)
            requires
                aa >= 1,
                aa * z <= 0,
        ;
        let r = 2 * k + 1;
        assert(r * r == 4 * (p - k) + 1) by (nonlinear_arith)
            requires
                p == k * (k + odd + 2),
                odd == 0,
                r == 2 * k + 1,
        ;
        assert(r < b) by (nonlinear_arith)
            requires
                r * r < bb,
                bb == b * b,
                r >= 0,
                b >= 0,
        ;
    } else {
        assert(4 * (odd + 1) * a * a == 8 * aa) by (nonlinear_arith)
            requires
                odd == 1,
                aa == a * a,
        ;
        assert(odd * a * a == aa) by (nonlinear_arith)
            requires
                odd == 1,
                aa == a * a,
        ;
        let z = 10 + 8 * p - 8 * k - 2 * bb;
        assert(aa * z == 10 * aa + 8 * ap - 8 * ak - 2 * aabb) by (nonlinear_arith)
            requires
                z == 10 + 8 * p - 8 * k - 2 * bb,
                ap == aa * p,
                ak == aa * k,
                aabb == aa * bb,
        ;
        assert(z <= 0) by (nonlinear_arith)
            requires
                aa >= 1,
                aa * z <= 0,
        ;
        let r = 2 * k + 2;
        assert(r * r == 4 * (p - k) + 4) by (nonlinear_arith)
            requires
                p == k * (k + odd + 2),
                odd == 1,
                r == 2 * k + 2,
        ;
        assert(r < b) by (nonlinear_arith)
            requires
                r * r < bb,
                bb == b * b,
                r >= 0,
                b >= 0,
        ;
    }
}

/// A product is bounded by the product of the bounds of its factors.
proof fn lemma_product_bound(x: int, y: int, bx: int, by: int)
    requires
        -bx <= x <= bx,
        -by <= y <= by,
    ensures
        -(bx * by) <= x * y <= bx * by,
{
    assert(-(bx * by) <= x * y <= bx * by) by (nonlinear_arith)
        requires
            -bx <= x <= bx,
            -by <= y <= by,
    ;
}

/// Within the greatest box the decision variables stay far inside 128 bits.
proof fn lemma_walk_bounds(w: Walk, xa: int, ya: int, xb: int, yb: int, k: int, m: int)
    requires
        tracks(w, xa, ya, xb, yb, k, m),
        span(xa, xb) <= MAX_EXTENT,
        span(ya, yb) <= MAX_EXTENT,
        0 <= k <= MAX_EXTENT,
        0 <= m <= MAX_EXTENT,
    ensures
        -0x2000_0000_0000_0000_0000_0000_0000_0000 <= w.dx <= 0x2000_0000_0000_0000_0000_0000_0000_0000,
        -0x2000_0000_0000_0000_0000_0000_0000_0000 <= w.dy <= 0x2000_0000_0000_0000_0000_0000_0000_0000,
        -0x2000_0000_0000_0000_0000_0000_0000_0000 <= w.e <= 0x2000_0000_0000_0000_0000_0000_0000_0000,
        0 <= 8 * span(xa, xb) * span(xa, xb) <= 0x8000_0000_0000_0000,
        0 <= 8 * span(ya, yb) * span(ya, yb) <= 0x8000_0000_0000_0000,
{
    let a = span(xa, xb);
    let b = span(ya, yb);
    let odd = b % 2;
    let aa = a * a;
    let bb = b * b;
    let big: int = 0x4000_0000;
    lemma_product_bound(a, a, big, big);
    lemma_product_bound(b, b, big, big);
    assert(aa >= 0 && bb >= 0) by (nonlinear_arith)
        requires
            aa == a * a,
            bb == b * b,
    ;
    assert(big * big == 0x1000_0000_0000_0000) by (nonlinear_arith)
        requires
            big == 0x4000_0000,
    ;
    let p = k * (k + odd + 2);
    let t = m * (m + 2 - a);
    lemma_product_bound(k, k + odd + 2, big, big + 3);
    lemma_product_bound(m, m + 2 - a, big, big + 2);
    assert(big * (big + 3) <= 0x2000_0000_0000_0000) by (nonlinear_arith)
        requires
            big == 0x4000_0000,
    ;
    assert(big * (big + 2) <= 0x2000_0000_0000_0000) by (nonlinear_arith)
        requires
            big == 0x4000_0000,
    ;
    let huge: int = 0x2000_0000_0000_0000;
    let square: int = 0x1000_0000_0000_0000;
    lemma_product_bound(aa, p, square, huge);
    lemma_product_bound(bb, t, square, huge);
    lemma_product_bound(aa, k, square, big);
    lemma_product_bound(bb, m, square, big);
    lemma_product_bound(1 - a, bb, big, square);
    lemma_product_bound(odd + 1, aa, 2, square);
    lemma_product_bound(odd, aa, 1, square);
    assert(square * huge == 0x200_0000_0000_0000_0000_0000_0000_0000) by (nonlinear_arith)
        requires
            square == 0x1000_0000_0000_0000,
            huge == 0x2000_0000_0000_0000,
    ;
    assert(square * big == 0x400_0000_0000_0000_0000_0000) by (nonlinear_arith)
        requires
            square == 0x1000_0000_0000_0000,
            big == 0x4000_0000,
    ;
    assert(big * square == 0x400_0000_0000_0000_0000_0000) by (nonlinear_arith)
        requires
            square == 0x1000_0000_0000_0000,
            big == 0x4000_0000,
    ;
    assert(4 * (1 - a) * b * b == 4 * ((1 - a) * bb)) by (nonlinear_arith)
        requires
            bb == b * b,
    ;
    assert(4 * (odd + 1) * a * a == 4 * ((odd + 1) * aa)) by (nonlinear_arith)
        requires
            aa == a * a,
    ;
    assert(odd * a * a == odd * aa) by (nonlinear_arith)
        requires
            aa == a * a,
    ;
    assert(8 * b * b * m == 8 * (bb * m)) by (nonlinear_arith)
        requires
            bb == b * b,
    ;
    assert(8 * a * a * k == 8 * (aa * k)) by (nonlinear_arith)
        requires
            aa == a * a,
    ;
    assert(4 * a * a * (k * (k + odd + 2)) == 4 * (aa * p)) by (nonlinear_arith)
        requires
            aa == a * a,
            p == k * (k + odd + 2),
    ;
    assert(4 * b * b * (m * (m + 2 - a)) == 4 * (bb * t)) by (nonlinear_arith)
        requires
            bb == b * b,
            t == m * (m + 2 - a),
    ;
    assert(8 * a * a == 8 * aa) by (nonlinear_arith)
        requires
            aa == a * a,
    ;
    assert(8 * b * b == 8 * bb) by (nonlinear_arith)
        requires
            bb == b * b,
    ;
}

/// Once the two columns of the walk have crossed they stay crossed.
proof fn lemma_crossed(xa: int, ya: int, xb: int, yb: int, i: nat, j: nat)
    requires
        i <= j,
        walk_at(xa, ya, xb, yb, i).x0 > walk_at(xa, ya, xb, yb, i).x1,
    ensures
        walk_at(xa, ya, xb, yb, j).x0 > walk_at(xa, ya, xb, yb, j).x1,
    decreases j,
{
    if i < j {
        lemma_crossed(xa, ya, xb, yb, i, (j - 1) as nat);
    }
}

/// Whether the walk has drawn row `r`, column `c` in one of its first `n`
/// steps.
pub open spec fn drawn(xa: int, ya: int, xb: int, yb: int, fill: bool, n: nat, r: int, c: int) -> bool {
    exists|j: nat| j < n && draws(#[trigger] walk_at(xa, ya, xb, yb, j), fill, r, c)
}

/// The cells of a grid `width` wide and `height` high that lie on the
/// ellipse.
pub open spec fn ellipse_cells(
    width: nat,
    height: nat,
    xa: int,
    ya: int,
    xb: int,
    yb: int,
    fill: bool,
) -> Seq<Seq<bool>> {
    Seq::new(height, |r: int| Seq::new(width, |c: int| on_ellipse(xa, ya, xb, yb, fill, r, c)))
}

/// The positions inside the grid of the ellipse that fills the box with the
/// corners `(x0, y0)` and `(x1, y1)`, row by row: its outline, or with `fill`
/// the outline and what it encloses.
pub fn ellipse(
    width: usize,
    height: usize,
    x0: usize,
    y0: usize,
    x1: usize,
    y1: usize,
    fill: bool,
) -> (out: Vec<(usize, usize)>)
    requires
        width * height <= MAX_CELLS,
        span(x0 as int, x1 as int) <= MAX_EXTENT,
        span(y0 as int, y1 as int) <= MAX_EXTENT,
    ensures
        out@ == listing(
            ellipse_cells(
                width as nat,
                height as nat,
                x0 as int,
                y0 as int,
                x1 as int,
                y1 as int,
                fill,
            ),
            width as nat,
            height as nat,
        ),
        forall|k: int| 0 <= k < out.len() ==> (#[trigger] out[k]).0 < height && out[k].1 < width,
{
    broadcast use lemma_flags_view;

    let ghost xa = x0 as int;
    let ghost ya = y0 as int;
    let ghost xb = x1 as int;
    let ghost yb = y1 as int;
    let mut select = uniform(width, height, false);
    let au: usize = if x0 <= x1 {
        x1 - x0
    } else {
        x0 - x1
    };
    let bu: usize = if y0 <= y1 {
        y1 - y0
    } else {
        y0 - y1
    };
    let a: i128 = au as i128;
    let b: i128 = bu as i128;
    let odd: i128 = (bu % 2) as i128;
    let half: i128 = ((bu + 1) / 2) as i128;
    let ghost start = walk_start(xa, ya, xb, yb);
    proof {
        assert(tracks(start, xa, ya, xb, yb, 0, 0)) by {
            assert(4 * a * a * (0 * (0 + odd + 2)) == 0) by (nonlinear_arith);
            assert(4 * b * b * (0 * (0 + 2 - a)) == 0) by (nonlinear_arith);
        }
        lemma_walk_bounds(start, xa, ya, xb, yb, 0, 0);
        lemma_product_bound(a as int, a as int, 0x4000_0000, 0x4000_0000);
        lemma_product_bound(b as int, b as int, 0x4000_0000, 0x4000_0000);
    }
    let aa: i128 = a * a;
    let bb: i128 = b * b;
    proof {
        assert(aa >= 0 && bb >= 0) by (nonlinear_arith)
            requires
                aa == a * a,
                bb == b * b,
        ;
        assert(4 * (1 - a) * b * b == 4 * ((1 - a) * bb)) by (nonlinear_arith)
            requires
                bb == b * b,
        ;
        assert(4 * (odd + 1) * a * a == 4 * ((odd + 1) * aa)) by (nonlinear_arith)
            requires
                aa == a * a,
        ;
        assert(odd * a * a == odd * aa) by (nonlinear_arith)
            requires
                aa == a * a,
        ;
        assert(8 * a * a == 8 * aa) by (nonlinear_arith)
            requires
                aa == a * a,
        ;
        assert(8 * b * b == 8 * bb) by (nonlinear_arith)
            requires
                bb == b * b,
        ;
    }
    let a8: i128 = 8 * aa;
    let b8: i128 = 8 * bb;
    let mut dx: i128 = 4 * ((1 - a) * bb);
    let mut dy: i128 = 4 * ((odd + 1) * aa);
    let mut e: i128 = dx + dy + odd * aa;
    let mut px0: i128 = if x0 <= x1 {
        x0 as i128
    } else {
        x1 as i128
    };
    let mut px1: i128 = px0 + a;
    let mut py0: i128 = (if y0 <= y1 {
        y0 as i128
    } else {
        y1 as i128
    }) + half;
    let mut py1: i128 = py0 - odd;
    let ghost mut w = start;
    let ghost mut n: nat = 0;
    let ghost mut k: int = 0;
    let ghost mut m: int = 0;
    while px0 <= px1
        invariant
            xa == x0 && ya == y0 && xb == x1 && yb == y1,
            span(xa, xb) <= MAX_EXTENT,
            span(ya, yb) <= MAX_EXTENT,
            a == span(xa, xb),
            b == span(ya, yb),
            odd == b % 2,
            a8 == 8 * a * a,
            b8 == 8 * b * b,
            w == walk_at(xa, ya, xb, yb, n),
            tracks(w, xa, ya, xb, yb, k, m),
            px0 == w.x0 && px1 == w.x1 && py0 == w.y0 && py1 == w.y1,
            dx == w.dx && dy == w.dy && e == w.e,
            0 <= k && 2 * k <= b + 2,
            0 <= m && 2 * m <= a + 2,
            a == 0 && m == 0 ==> k == 0,
            shaped(select.deep_view(), width as nat, height as nat),
            forall|r: int, c: int|
                0 <= r < height && 0 <= c < width ==> (#[trigger] select.deep_view()[r][c] <==> drawn(
                    xa,
                    ya,
                    xb,
                    yb,
                    fill,
                    n,
                    r,
                    c,
                )),
            forall|j: nat|
                j < n ==> (#[trigger] walk_at(xa, ya, xb, yb, j)).x0 <= walk_at(xa, ya, xb, yb, j).x1,
        decreases (a + 2 - 2 * m) + (b + 2 - 2 * k),
    {
        stamp(&mut select, width, height, px0, px1, py0, fill);
        stamp(&mut select, width, height, px0, px1, py1, fill);
        proof {
            lemma_walk_bounds(w, xa, ya, xb, yb, k, m);
            lemma_step_tracks(w, xa, ya, xb, yb, k, m);
            if steps_row(w) {
                if a >= 1 {
                    lemma_row_bound(a as int, b as int, odd as int, k, m, w.e, w.dy);
                }
            }
            if a == 0 {
                assert(w.dx == 4 * (b * b)) by (nonlinear_arith)
                    requires
                        w.dx == 4 * (1 - a) * b * b + 8 * b * b * m,
                        a == 0,
                        m == 0,
                ;
                assert(w.e == 4 * (b * b)) by (nonlinear_arith)
                    requires
                        w.e == 4 * (1 - a) * b * b + 4 * (odd + 1) * a * a + odd * a * a + 4 * a * a
                            * (k * (k + odd + 2)) + 4 * b * b * (m * (m + 2 - a)),
                        a == 0,
                        m == 0,
                ;
            }
        }
        let e2: i128 = 2 * e;
        let ghost old_w = w;
        if e2 <= dy {
            py0 = py0 + 1;
            py1 = py1 - 1;
            dy = dy + a8;
            e = e + dy;
            proof {
                k = k + 1;
            }
        }
        if e2 >= dx || 2 * e > dy {
            px0 = px0 + 1;
            px1 = px1 - 1;
            dx = dx + b8;
            e = e + dx;
            proof {
                m = m + 1;
            }
        }
        proof {
            w = walk_step(old_w, a as int, b as int);
            n = n + 1;
        }
    }
    proof {
        let cells = ellipse_cells(width as nat, height as nat, xa, ya, xb, yb, fill);
        assert forall|r: int| 0 <= r < height implies (#[trigger] select.deep_view()[r]) == cells[r] by {
            assert forall|c: int| 0 <= c < width implies #[trigger] select.deep_view()[r][c]
                == cells[r][c] by {
                if on_ellipse(xa, ya, xb, yb, fill, r, c) {
                    let j = choose|j: nat|
                        {
                            let v = #[trigger] walk_at(xa, ya, xb, yb, j);
                            v.x0 <= v.x1 && draws(v, fill, r, c)
                        };
                    if j >= n {
                        lemma_crossed(xa, ya, xb, yb, n, j);
                    }
                }
                if drawn(xa, ya, xb, yb, fill, n, r, c) {
                    let j = choose|j: nat|
                        j < n && draws(#[trigger] walk_at(xa, ya, xb, yb, j), fill, r, c);
                }
            }
        }
        assert(select.deep_view() =~= cells);
    }
    listed(&select, width, height)
}

/// Whether the box with the corners `(xa, ya)` and `(xb, yb)` holds row `r`,
/// column `c`: a cell of its outline, or with `fill` any cell of it.
pub open spec fn in_box(xa: int, ya: int, xb: int, yb: int, fill: bool, r: int, c: int) -> bool {
    let left = least(xa, xb);
    let right = left + span(xa, xb);
    let top = least(ya, yb);
    let bottom = top + span(ya, yb);
    &&& left <= c <= right
    &&& top <= r <= bottom
    &&& fill || c == left || c == right || r == top || r == bottom
}

/// The cells of a grid `width` wide and `height` high that lie in the box.
pub open spec fn box_cells(
    width: nat,
    height: nat,
    xa: int,
    ya: int,
    xb: int,
    yb: int,
    fill: bool,
) -> Seq<Seq<bool>> {
    Seq::new(height, |r: int| Seq::new(width, |c: int| in_box(xa, ya, xb, yb, fill, r, c)))
}

/// The positions inside the grid of the box with the corners `(x0, y0)` and
/// `(x1, y1)`, row by row: its outline, or with `fill` every cell of it.
pub fn rectangle(
    width: usize,
    height: usize,
    x0: usize,
    y0: usize,
    x1: usize,
    y1: usize,
    fill: bool,
) -> (out: Vec<(usize, usize)>)
    requires
        width * height <= MAX_CELLS,
    ensures
        out@ == listing(
            box_cells(width as nat, height as nat, x0 as int, y0 as int, x1 as int, y1 as int, fill),
            width as nat,
            height as nat,
        ),
        forall|k: int| 0 <= k < out.len() ==> (#[trigger] out[k]).0 < height && out[k].1 < width,
{
    let left = if x0 <= x1 {
        x0
    } else {
        x1
    };
    let right = if x0 <= x1 {
        x1
    } else {
        x0
    };
    let top = if y0 <= y1 {
        y0
    } else {
        y1
    };
    let bottom = if y0 <= y1 {
        y1
    } else {
        y0
    };
    let all = cells(width, height);
    let ghost shape = box_cells(
        width as nat,
        height as nat,
        x0 as int,
        y0 as int,
        x1 as int,
        y1 as int,
        fill,
    );
    let ghost test = flagged(shape);
    let mut out: Vec<(usize, usize)> = Vec::new();
    let mut k: usize = 0;
    while k < all.len()
        invariant
            k <= all.len(),
            all@ == all_cells(width as nat, height as nat),
            width * height <= MAX_CELLS,
            left == least(x0 as int, x1 as int),
            right == left + span(x0 as int, x1 as int),
            top == least(y0 as int, y1 as int),
            bottom == top + span(y0 as int, y1 as int),
            shape == box_cells(
                width as nat,
                height as nat,
                x0 as int,
                y0 as int,
                x1 as int,
                y1 as int,
                fill,
            ),
            test == flagged(shape),
            out@ == all@.take(k as int).filter(test),
        decreases all.len() - k,
    {
        let (row, col) = all[k];
        proof {
            lemma_cell_at(width as nat, height as nat, k as int);
            reveal(Seq::filter);
            assert(all@.take(k + 1).drop_last() =~= all@.take(k as int));
        }
        if left <= col && col <= right && top <= row && row <= bottom && (fill || col == left || col
            == right || row == top || row == bottom) {
            out.push((row, col));
        }
        k += 1;
    }
    assert(all@.take(k as int) =~= all@);
    out
}

/// Whether row `r`, column `c` is a cell of the grid that holds the same tile
/// as the cell in row `sr`, column `sc`.
pub open spec fn alike(grid: Seq<Seq<i32>>, sr: int, sc: int, r: int, c: int) -> bool {
    &&& 0 <= sr < grid.len() && 0 <= sc < grid[sr].len()
    &&& 0 <= r < grid.len() && 0 <= c < grid[r].len()
    &&& grid[r][c] == grid[sr][sc]
}

/// Whether row `r`, column `c` can be reached from row `sr`, column `sc` in
/// at most `hops` moves, each to one of the four neighbours of a cell, over
/// cells that all hold the tile of the first one.
pub open spec fn reaches(grid: Seq<Seq<i32>>, sr: int, sc: int, r: int, c: int, hops: nat) -> bool
    decreases hops,
{
    if hops == 0 {
        r == sr && c == sc && alike(grid, sr, sc, r, c)
    } else {
        let fewer = (hops - 1) as nat;
        ||| reaches(grid, sr, sc, r, c, fewer)
        ||| alike(grid, sr, sc, r, c) && (reaches(grid, sr, sc, r - 1, c, fewer) || reaches(
            grid,
            sr,
            sc,
            r + 1,
            c,
            fewer,
        ) || reaches(grid, sr, sc, r, c - 1, fewer) || reaches(grid, sr, sc, r, c + 1, fewer))
    }
}

/// Whether row `r`, column `c` lies in the region of row `sr`, column `sc`:
/// the cells that can be reached from there in any number of moves.
pub open spec fn connected(grid: Seq<Seq<i32>>, sr: int, sc: int, r: int, c: int) -> bool {
    exists|hops: nat| reaches(grid, sr, sc, r, c, hops)
}

/// Whether two cells are neighbours: next to each other in a row or in a
/// column.
pub open spec fn adjacent(pr: int, pc: int, r: int, c: int) -> bool {
    (pr == r && (pc == c + 1 || pc + 1 == c)) || (pc == c && (pr == r + 1 || pr + 1 == r))
}

/// Whether the position `p` is a neighbour of row `r`, column `c`.
pub open spec fn next_to(p: (usize, usize), r: int, c: int) -> bool {
    adjacent(p.0 as int, p.1 as int, r, c)
}

/// Whether some position of the list is a neighbour of row `r`, column `c`.
pub open spec fn near(list: Seq<(usize, usize)>, r: int, c: int) -> bool {
    exists|j: int| 0 <= j < list.len() && #[trigger] next_to(list[j], r, c)
}

/// A cell that is reached holds the tile of the first cell.
pub proof fn lemma_reaches_alike(grid: Seq<Seq<i32>>, sr: int, sc: int, r: int, c: int, hops: nat)
    requires
        reaches(grid, sr, sc, r, c, hops),
    ensures
        alike(grid, sr, sc, r, c),
    decreases hops,
{
    if hops > 0 {
        if reaches(grid, sr, sc, r, c, (hops - 1) as nat) {
            lemma_reaches_alike(grid, sr, sc, r, c, (hops - 1) as nat);
        }
    }
}

/// What is reached in some number of moves is reached in any greater number.
pub proof fn lemma_reaches_more(
    grid: Seq<Seq<i32>>,
    sr: int,
    sc: int,
    r: int,
    c: int,
    hops: nat,
    more: nat,
)
    requires
        reaches(grid, sr, sc, r, c, hops),
        hops <= more,
    ensures
        reaches(grid, sr, sc, r, c, more),
    decreases more,
{
    if hops < more {
        lemma_reaches_more(grid, sr, sc, r, c, hops, (more - 1) as nat);
    }
}

/// One more move leads from a reached cell to any neighbour that holds the
/// same tile.
pub proof fn lemma_reaches_step(
    grid: Seq<Seq<i32>>,
    sr: int,
    sc: int,
    pr: int,
    pc: int,
    r: int,
    c: int,
    hops: nat,
)
    requires
        reaches(grid, sr, sc, pr, pc, hops),
        adjacent(pr, pc, r, c),
        alike(grid, sr, sc, r, c),
    ensures
        reaches(grid, sr, sc, r, c, hops + 1),
{
}

/// Where nothing new is reached in `level` moves, nothing new is reached in
/// any number of moves.
pub proof fn lemma_reaches_closed(
    grid: Seq<Seq<i32>>,
    sr: int,
    sc: int,
    level: nat,
    r: int,
    c: int,
    hops: nat,
)
    requires
        forall|i: int, j: int| #[trigger]
            reaches(grid, sr, sc, i, j, level) ==> level >= 1 && reaches(
                grid,
                sr,
                sc,
                i,
                j,
                (level - 1) as nat,
            ),
        reaches(grid, sr, sc, r, c, hops),
    ensures
        reaches(grid, sr, sc, r, c, level),
    decreases hops,
{
    if hops <= level {
        lemma_reaches_more(grid, sr, sc, r, c, hops, level);
    } else {
        let fewer = (hops - 1) as nat;
        if reaches(grid, sr, sc, r, c, fewer) {
            lemma_reaches_closed(grid, sr, sc, level, r, c, fewer);
        } else {
            let (pr, pc) = if reaches(grid, sr, sc, r - 1, c, fewer) {
                (r - 1, c)
            } else if reaches(grid, sr, sc, r + 1, c, fewer) {
                (r + 1, c)
            } else if reaches(grid, sr, sc, r, c - 1, fewer) {
                (r, c - 1)
            } else {
                (r, c + 1)
            };
            lemma_reaches_closed(grid, sr, sc, level, pr, pc, fewer);
        }
    }
}

/// What holds while a level of the flood fill grows: `seen` is `start` and
/// the cells of `tried` that hold `tile`, `next` lists what was added, and
/// each cell added took one blank away.
spec fn grown(
    width: nat,
    height: nat,
    grid: Seq<Seq<i32>>,
    tile: i32,
    start: Seq<Seq<bool>>,
    seen: Seq<Seq<bool>>,
    next: Seq<(usize, usize)>,
    tried: Set<(int, int)>,
) -> bool {
    &&& shaped(seen, width, height)
    &&& forall|r: int, c: int|
        0 <= r < height && 0 <= c < width ==> (#[trigger] seen[r][c] <==> start[r][c] || (grid[r][c]
            == tile && tried.contains((r, c))))
    &&& forall|r: int, c: int|
        0 <= r < height && 0 <= c < width ==> (#[trigger] covers(next, r, c) <==> seen[r][c]
            && !start[r][c])
    &&& forall|i: int| 0 <= i < next.len() ==> (#[trigger] next[i]).0 < height && next[i].1 < width
    &&& blanks(seen) + next.len() == blanks(start)
}

/// Looking at one more cell keeps what holds while a level grows.
proof fn lemma_visit(
    width: nat,
    height: nat,
    grid: Seq<Seq<i32>>,
    tile: i32,
    start: Seq<Seq<bool>>,
    seen: Seq<Seq<bool>>,
    next: Seq<(usize, usize)>,
    tried: Set<(int, int)>,
    row: usize,
    col: usize,
)
    requires
        grown(width, height, grid, tile, start, seen, next, tried),
        sized(grid, width, height),
        shaped(start, width, height),
        row < height,
        col < width,
    ensures
        ({
            let hit = !seen[row as int][col as int] && grid[row as int][col as int] == tile;
            grown(
                width,
                height,
                grid,
                tile,
                start,
                if hit {
                    seen.update(row as int, seen[row as int].update(col as int, true))
                } else {
                    seen
                },
                if hit {
                    next.push((row, col))
                } else {
                    next
                },
                tried.insert((row as int, col as int)),
            )
        }),
{
    let hit = !seen[row as int][col as int] && grid[row as int][col as int] == tile;
    let after = if hit {
        seen.update(row as int, seen[row as int].update(col as int, true))
    } else {
        seen
    };
    let list = if hit {
        next.push((row, col))
    } else {
        next
    };
    assert forall|r: int, c: int| 0 <= r < height && 0 <= c < width implies (#[trigger] covers(
        list,
        r,
        c,
    ) <==> after[r][c] && !start[r][c]) by {
        if covers(list, r, c) {
            let k = choose|k: int| 0 <= k < list.len() && #[trigger] at(list[k], r, c);
        }
        if covers(next, r, c) {
            let k = choose|k: int| 0 <= k < next.len() && #[trigger] at(next[k], r, c);
            assert(at(list[k], r, c));
        }
        if hit && r == row && c == col {
            assert(at(list[next.len() as int], r, c));
        }
    }
    if hit {
        lemma_blanks_set(seen, row as int, col as int);
    }
}

/// Looks at one cell next to the frontier: a cell that holds the tile and
/// was not seen yet is marked as seen and listed.
fn visit(
    map: &Vec<Vec<i32>>,
    seen: &mut Vec<Vec<bool>>,
    next: &mut Vec<(usize, usize)>,
    width: usize,
    height: usize,
    row: usize,
    col: usize,
    tile: i32,
)
    requires
        sized(map.deep_view(), width as nat, height as nat),
        shaped(old(seen).deep_view(), width as nat, height as nat),
        row < height,
        col < width,
    ensures
        ({
            let before = old(seen).deep_view();
            let hit = !before[row as int][col as int] && map.deep_view()[row as int][col as int]
                == tile;
            &&& final(seen).deep_view() == if hit {
                before.update(row as int, before[row as int].update(col as int, true))
            } else {
                before
            }
            &&& final(next)@ == if hit {
                old(next)@.push((row, col))
            } else {
                old(next)@
            }
        }),
{
    broadcast use lemma_flags_view, lemma_row_view;

    assert(seen.deep_view()[row as int].len() == width);
    assert(map.deep_view()[row as int].len() == width);
    if !seen[row][col] && map[row][col] == tile {
        mark(seen, row, col, true);
        next.push((row, col));
    }
}

/// Whether what holds while a level grows holds once all neighbours of the
/// first `done` cells of the frontier have been looked at.
spec fn grown_to(
    width: nat,
    height: nat,
    grid: Seq<Seq<i32>>,
    tile: i32,
    start: Seq<Seq<bool>>,
    seen: Seq<Seq<bool>>,
    next: Seq<(usize, usize)>,
    frontier: Seq<(usize, usize)>,
) -> bool {
    &&& shaped(seen, width, height)
    &&& forall|r: int, c: int|
        0 <= r < height && 0 <= c < width ==> (#[trigger] seen[r][c] <==> start[r][c] || (grid[r][c]
            == tile && near(frontier, r, c)))
    &&& forall|r: int, c: int|
        0 <= r < height && 0 <= c < width ==> (#[trigger] covers(next, r, c) <==> seen[r][c]
            && !start[r][c])
    &&& forall|i: int| 0 <= i < next.len() ==> (#[trigger] next[i]).0 < height && next[i].1 < width
    &&& blanks(seen) + next.len() == blanks(start)
}

/// Grows the flood fill by one level: every cell next to the frontier that
/// holds the tile and was not seen is marked as seen and listed.
fn grow(
    map: &Vec<Vec<i32>>,
    seen: &mut Vec<Vec<bool>>,
    frontier: &Vec<(usize, usize)>,
    width: usize,
    height: usize,
    tile: i32,
) -> (next: Vec<(usize, usize)>)
    requires
        sized(map.deep_view(), width as nat, height as nat),
        shaped(old(seen).deep_view(), width as nat, height as nat),
        forall|i: int|
            0 <= i < frontier.len() ==> (#[trigger] frontier[i]).0 < height && frontier[i].1 < width,
    ensures
        grown_to(
            width as nat,
            height as nat,
            map.deep_view(),
            tile,
            old(seen).deep_view(),
            final(seen).deep_view(),
            next@,
            frontier@,
        ),
{
    let ghost grid = map.deep_view();
    let ghost start = seen.deep_view();
    let ghost w = width as nat;
    let ghost h = height as nat;
    let mut next: Vec<(usize, usize)> = Vec::new();
    let ghost mut tried: Set<(int, int)> = Set::empty();
    let mut i: usize = 0;
    while i < frontier.len()
        invariant
            i <= frontier.len(),
            w == width,
            h == height,
            grid == map.deep_view(),
            start == old(seen).deep_view(),
            sized(grid, w, h),
            shaped(start, w, h),
            forall|j: int|
                0 <= j < frontier.len() ==> (#[trigger] frontier[j]).0 < height && frontier[j].1
                    < width,
            grown(w, h, grid, tile, start, seen.deep_view(), next@, tried),
            forall|r: int, c: int|
                0 <= r < h && 0 <= c < w ==> (tried.contains((r, c)) <==> near(
                    frontier@.take(i as int),
                    r,
                    c,
                )),
        decreases frontier.len() - i,
    {
        let (row, col) = frontier[i];
        if row > 0 {
            proof {
                lemma_visit(w, h, grid, tile, start, seen.deep_view(), next@, tried, (row - 1) as usize, col);
                tried = tried.insert((row - 1, col as int));
            }
            visit(map, seen, &mut next, width, height, row - 1, col, tile);
        }
        if row + 1 < height {
            proof {
                lemma_visit(w, h, grid, tile, start, seen.deep_view(), next@, tried, (row + 1) as usize, col);
                tried = tried.insert((row + 1, col as int));
            }
            visit(map, seen, &mut next, width, height, row + 1, col, tile);
        }
        if col > 0 {
            proof {
                lemma_visit(w, h, grid, tile, start, seen.deep_view(), next@, tried, row, (col - 1) as usize);
                tried = tried.insert((row as int, col - 1));
            }
            visit(map, seen, &mut next, width, height, row, col - 1, tile);
        }
        if col + 1 < width {
            proof {
                lemma_visit(w, h, grid, tile, start, seen.deep_view(), next@, tried, row, (col + 1) as usize);
                tried = tried.insert((row as int, col + 1));
            }
            visit(map, seen, &mut next, width, height, row, col + 1, tile);
        }
        proof {
            let shorter = frontier@.take(i as int);
            let longer = frontier@.take(i + 1);
            assert forall|r: int, c: int| 0 <= r < h && 0 <= c < w implies (tried.contains((r, c))
                <==> near(longer, r, c)) by {
                if near(longer, r, c) {
                    let j = choose|j: int| 0 <= j < longer.len() && #[trigger] next_to(longer[j], r, c);
                }
                if near(shorter, r, c) {
                    let j = choose|j: int|
                        0 <= j < shorter.len() && #[trigger] next_to(shorter[j], r, c);
                }
                if next_to((row, col), r, c) {
                    assert(next_to(longer[i as int], r, c));
                }
            }
        }
        i += 1;
    }
    assert(frontier@.take(i as int) =~= frontier@);
    next
}

/// The cells of the grid that a flood fill from column `x` of row `y`
/// reaches: with a limit, those within that many moves; without one, the
/// whole region of the first cell.
pub open spec fn flood_cells(
    grid: Seq<Seq<i32>>,
    width: nat,
    height: nat,
    x: int,
    y: int,
    limit: Option<nat>,
) -> Seq<Seq<bool>> {
    Seq::new(
        height,
        |r: int|
            Seq::new(
                width,
                |c: int|
                    match limit {
                        Some(hops) => reaches(grid, y, x, r, c, hops),
                        None => connected(grid, y, x, r, c),
                    },
            ),
    )
}

/// What holds between two levels of the flood fill: `seen` is what `hops`
/// moves reach, and the frontier holds every cell that the last move added.
spec fn level(
    width: nat,
    height: nat,
    grid: Seq<Seq<i32>>,
    x: int,
    y: int,
    seen: Seq<Seq<bool>>,
    frontier: Seq<(usize, usize)>,
    hops: nat,
) -> bool {
    &&& shaped(seen, width, height)
    &&& forall|r: int, c: int|
        0 <= r < height && 0 <= c < width ==> (#[trigger] seen[r][c] <==> reaches(
            grid,
            y,
            x,
            r,
            c,
            hops,
        ))
    &&& forall|i: int|
        0 <= i < frontier.len() ==> (#[trigger] frontier[i]).0 < height && frontier[i].1 < width
            && seen[frontier[i].0 as int][frontier[i].1 as int]
    &&& forall|r: int, c: int|
        0 <= r < height && 0 <= c < width && #[trigger] reaches(grid, y, x, r, c, hops) && !covers(
            frontier,
            r,
            c,
        ) ==> hops >= 1 && reaches(grid, y, x, r, c, (hops - 1) as nat)
}

/// Growing a level by the neighbours of its frontier gives the next level.
proof fn lemma_level(
    width: nat,
    height: nat,
    grid: Seq<Seq<i32>>,
    x: int,
    y: int,
    seen: Seq<Seq<bool>>,
    frontier: Seq<(usize, usize)>,
    hops: nat,
    after: Seq<Seq<bool>>,
    next: Seq<(usize, usize)>,
)
    requires
        sized(grid, width, height),
        0 <= x < width,
        0 <= y < height,
        level(width, height, grid, x, y, seen, frontier, hops),
        grown_to(width, height, grid, grid[y][x], seen, after, next, frontier),
    ensures
        level(width, height, grid, x, y, after, next, hops + 1),
{
    let tile = grid[y][x];
    assert forall|r: int, c: int| 0 <= r < height && 0 <= c < width implies (#[trigger] after[r][c]
        <==> reaches(grid, y, x, r, c, hops + 1)) by {
        if grid[r][c] == tile && near(frontier, r, c) {
            let j = choose|j: int| 0 <= j < frontier.len() && #[trigger] next_to(frontier[j], r, c);
            let p = frontier[j];
            lemma_reaches_step(grid, y, x, p.0 as int, p.1 as int, r, c, hops);
        }
        if reaches(grid, y, x, r, c, hops + 1) && !reaches(grid, y, x, r, c, hops) {
            let (pr, pc) = if reaches(grid, y, x, r - 1, c, hops) {
                (r - 1, c)
            } else if reaches(grid, y, x, r + 1, c, hops) {
                (r + 1, c)
            } else if reaches(grid, y, x, r, c - 1, hops) {
                (r, c - 1)
            } else {
                (r, c + 1)
            };
            assert(reaches(grid, y, x, pr, pc, hops));
            lemma_reaches_alike(grid, y, x, pr, pc, hops);
            if covers(frontier, pr, pc) {
                let j = choose|j: int| 0 <= j < frontier.len() && #[trigger] at(frontier[j], pr, pc);
                assert(next_to(frontier[j], r, c));
            } else {
                lemma_reaches_step(grid, y, x, pr, pc, r, c, (hops - 1) as nat);
            }
        }
    }
    assert forall|i: int| 0 <= i < next.len() implies (#[trigger] next[i]).0 < height && next[i].1
        < width && after[next[i].0 as int][next[i].1 as int] by {
        assert(at(next[i], next[i].0 as int, next[i].1 as int));
        assert(covers(next, next[i].0 as int, next[i].1 as int));
    }
    assert forall|r: int, c: int|
        0 <= r < height && 0 <= c < width && #[trigger] reaches(grid, y, x, r, c, hops + 1)
            && !covers(next, r, c) implies reaches(grid, y, x, r, c, hops) by {
    }
}

/// The positions that a flood fill from column `x` of row `y` reaches, row by
/// row: the cells that hold the tile of the first cell and are joined to it
/// through neighbours that hold it too. With a limit only the cells within
/// that many moves are given. A first cell outside the grid reaches nothing.
pub fn flood(
    map: &Vec<Vec<i32>>,
    width: usize,
    height: usize,
    x: usize,
    y: usize,
    limit: Option<usize>,
) -> (out: Vec<(usize, usize)>)
    requires
        sized(map.deep_view(), width as nat, height as nat),
        width * height <= MAX_CELLS,
    ensures
        out@ == listing(
            flood_cells(
                map.deep_view(),
                width as nat,
                height as nat,
                x as int,
                y as int,
                match limit {
                    Some(hops) => Some(hops as nat),
                    None => None,
                },
            ),
            width as nat,
            height as nat,
        ),
        forall|k: int| 0 <= k < out.len() ==> (#[trigger] out[k]).0 < height && out[k].1 < width,
{
    broadcast use lemma_flags_view, lemma_row_view;

    let ghost grid = map.deep_view();
    let ghost w = width as nat;
    let ghost h = height as nat;
    let ghost bound: Option<nat> = match limit {
        Some(hops) => Some(hops as nat),
        None => None,
    };
    let ghost target = flood_cells(grid, w, h, x as int, y as int, bound);
    let mut seen = uniform(width, height, false);
    if !(x < width && y < height) {
        proof {
            assert forall|r: int| 0 <= r < h implies (#[trigger] seen.deep_view()[r]) == target[r] by {
                assert forall|c: int| 0 <= c < w implies #[trigger] seen.deep_view()[r][c]
                    == target[r][c] by {
                    if target[r][c] {
                        let hops = match bound {
                            Some(n) => n,
                            None => choose|n: nat| reaches(grid, y as int, x as int, r, c, n),
                        };
                        lemma_reaches_alike(grid, y as int, x as int, r, c, hops);
                    }
                }
            }
            assert(seen.deep_view() =~= target);
        }
        return listed(&seen, width, height);
    }
    assert(grid[y as int].len() == w);
    let tile = map[y][x];
    mark(&mut seen, y, x, true);
    let mut frontier: Vec<(usize, usize)> = Vec::new();
    frontier.push((y, x));
    let capped = limit.is_some();
    let mut left: usize = match limit {
        Some(hops) => hops,
        None => 0,
    };
    let ghost mut hops: nat = 0;
    proof {
        assert(shaped(seen.deep_view(), w, h)) by {
            assert forall|r: int| 0 <= r < h implies (#[trigger] seen.deep_view()[r]).len() == w by {
            }
        }
        assert(at(frontier@[0], y as int, x as int));
    }
    while frontier.len() > 0 && (!capped || left > 0)
        invariant
            w == width,
            h == height,
            grid == map.deep_view(),
            sized(grid, w, h),
            x < width,
            y < height,
            width * height <= MAX_CELLS,
            tile == grid[y as int][x as int],
            capped == (bound is Some),
            capped ==> hops + left == bound->0,
            level(w, h, grid, x as int, y as int, seen.deep_view(), frontier@, hops),
        decreases blanks(seen.deep_view()), frontier.len(),
    {
        let ghost before = seen.deep_view();
        let next = grow(map, &mut seen, &frontier, width, height, tile);
        proof {
            lemma_level(w, h, grid, x as int, y as int, before, frontier@, hops, seen.deep_view(), next@);
            hops = hops + 1;
        }
        frontier = next;
        if capped {
            left = left - 1;
        }
    }
    proof {
        let sr = y as int;
        let sc = x as int;
        if frontier.len() == 0 {
            assert forall|i: int, j: int| #[trigger]
                reaches(grid, sr, sc, i, j, hops) implies hops >= 1 && reaches(
                grid,
                sr,
                sc,
                i,
                j,
                (hops - 1) as nat,
            ) by {
            }
        }
        assert forall|r: int| 0 <= r < h implies (#[trigger] seen.deep_view()[r]) == target[r] by {
            assert forall|c: int| 0 <= c < w implies #[trigger] seen.deep_view()[r][c]
                == target[r][c] by {
                match bound {
                    Some(n) => {
                        if reaches(grid, sr, sc, r, c, hops) {
                            lemma_reaches_more(grid, sr, sc, r, c, hops, n);
                        }
                        if reaches(grid, sr, sc, r, c, n) && hops != n {
                            lemma_reaches_closed(grid, sr, sc, hops, r, c, n);
                        }
                    },
                    None => {
                        if connected(grid, sr, sc, r, c) {
                            let n = choose|n: nat| reaches(grid, sr, sc, r, c, n);
                            lemma_reaches_closed(grid, sr, sc, hops, r, c, n);
                        }
                    },
                }
            }
        }
        assert(seen.deep_view() =~= target);
    }
    listed(&seen, width, height)
}

/// The region of a cell holds the cell itself.
pub proof fn lemma_region_start(grid: Seq<Seq<i32>>, sr: int, sc: int)
    requires
        0 <= sr < grid.len(),
        0 <= sc < grid[sr].len(),
    ensures
        connected(grid, sr, sc, sr, sc),
{
    assert(reaches(grid, sr, sc, sr, sc, 0));
}

/// The region of a cell holds no cell with another tile, and no cell outside
/// the grid.
pub proof fn lemma_region_tile(grid: Seq<Seq<i32>>, sr: int, sc: int, r: int, c: int)
    requires
        connected(grid, sr, sc, r, c),
    ensures
        alike(grid, sr, sc, r, c),
{
    let hops = choose|hops: nat| reaches(grid, sr, sc, r, c, hops);
    lemma_reaches_alike(grid, sr, sc, r, c, hops);
}

/// The region of a cell cannot be made larger: a neighbour of one of its
/// cells that holds the same tile belongs to it already.
pub proof fn lemma_region_maximal(
    grid: Seq<Seq<i32>>,
    sr: int,
    sc: int,
    pr: int,
    pc: int,
    r: int,
    c: int,
)
    requires
        connected(grid, sr, sc, pr, pc),
        adjacent(pr, pc, r, c),
        alike(grid, sr, sc, r, c),
    ensures
        connected(grid, sr, sc, r, c),
{
    let hops = choose|hops: nat| reaches(grid, sr, sc, pr, pc, hops);
    lemma_reaches_step(grid, sr, sc, pr, pc, r, c, hops);
}

/// Whether the list is a way from row `sr`, column `sc` through the grid:
/// it starts there, goes from each cell to a neighbour, and passes over no
/// cell that holds another tile than the first.
pub open spec fn is_way(grid: Seq<Seq<i32>>, sr: int, sc: int, way: Seq<(int, int)>) -> bool {
    &&& way.len() > 0
    &&& way[0] == (sr, sc)
    &&& forall|i: int| 0 <= i < way.len() ==> alike(grid, sr, sc, (#[trigger] way[i]).0, way[i].1)
    &&& forall|i: int|
        0 < i < way.len() ==> adjacent(way[i - 1].0, way[i - 1].1, (#[trigger] way[i]).0, way[i].1)
}

/// A way leads to a cell that is reached in as many moves as it has steps.
pub proof fn lemma_way_reaches(grid: Seq<Seq<i32>>, sr: int, sc: int, way: Seq<(int, int)>)
    requires
        is_way(grid, sr, sc, way),
    ensures
        reaches(grid, sr, sc, way.last().0, way.last().1, (way.len() - 1) as nat),
    decreases way.len(),
{
    if way.len() > 1 {
        let init = way.drop_last();
        assert(is_way(grid, sr, sc, init)) by {
            assert forall|i: int| 0 <= i < init.len() implies alike(
                grid,
                sr,
                sc,
                (#[trigger] init[i]).0,
                init[i].1,
            ) by {
                assert(init[i] == way[i]);
            }
            assert forall|i: int| 0 < i < init.len() implies adjacent(
                init[i - 1].0,
                init[i - 1].1,
                (#[trigger] init[i]).0,
                init[i].1,
            ) by {
                assert(init[i] == way[i]);
                assert(init[i - 1] == way[i - 1]);
            }
        }
        lemma_way_reaches(grid, sr, sc, init);
        let k = way.len() - 1;
        assert(init.last() == way[k - 1]);
        assert(alike(grid, sr, sc, way[k].0, way[k].1));
        assert(adjacent(way[k - 1].0, way[k - 1].1, way[k].0, way[k].1));
        lemma_reaches_step(
            grid,
            sr,
            sc,
            way[k - 1].0,
            way[k - 1].1,
            way[k].0,
            way[k].1,
            (k - 1) as nat,
        );
    } else {
        assert(alike(grid, sr, sc, way[0].0, way[0].1));
    }
}

/// A cell that is reached in some number of moves lies at the end of a way
/// of no more steps.
pub proof fn lemma_reaches_way(
    grid: Seq<Seq<i32>>,
    sr: int,
    sc: int,
    r: int,
    c: int,
    hops: nat,
) -> (way: Seq<(int, int)>)
    requires
        reaches(grid, sr, sc, r, c, hops),
    ensures
        is_way(grid, sr, sc, way),
        way.last() == (r, c),
        way.len() <= hops + 1,
    decreases hops,
{
    if hops == 0 {
        seq![(sr, sc)]
    } else {
        let fewer = (hops - 1) as nat;
        if reaches(grid, sr, sc, r, c, fewer) {
            lemma_reaches_way(grid, sr, sc, r, c, fewer)
        } else {
            let (pr, pc) = if reaches(grid, sr, sc, r - 1, c, fewer) {
                (r - 1, c)
            } else if reaches(grid, sr, sc, r + 1, c, fewer) {
                (r + 1, c)
            } else if reaches(grid, sr, sc, r, c - 1, fewer) {
                (r, c - 1)
            } else {
                (r, c + 1)
            };
            let before = lemma_reaches_way(grid, sr, sc, pr, pc, fewer);
            let way = before.push((r, c));
            way
        }
    }
}

/// The region of a cell is what can be walked to from it: a cell belongs to
/// it exactly when a way through the grid leads from the first cell to it.
pub proof fn lemma_region_ways(grid: Seq<Seq<i32>>, sr: int, sc: int, r: int, c: int)
    ensures
        connected(grid, sr, sc, r, c) <==> exists|way: Seq<(int, int)>|
            is_way(grid, sr, sc, way) && #[trigger] way.last() == (r, c),
{
    if connected(grid, sr, sc, r, c) {
        let hops = choose|hops: nat| reaches(grid, sr, sc, r, c, hops);
        let way = lemma_reaches_way(grid, sr, sc, r, c, hops);
    }
    if exists|way: Seq<(int, int)>| is_way(grid, sr, sc, way) && #[trigger] way.last() == (r, c) {
        let way = choose|way: Seq<(int, int)>|
            is_way(grid, sr, sc, way) && #[trigger] way.last() == (r, c);
        lemma_way_reaches(grid, sr, sc, way);
    }
}

} // verus!

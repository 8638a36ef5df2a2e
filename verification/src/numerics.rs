//! Integer 2-D vector and layout arithmetic.
//!
//! All geometry in the library is expressed over `i64` coordinates. The
//! helpers here are pure; the bound [`COORD_LIMIT`] keeps every intermediate
//! product comfortably inside `i64`.

use vstd::prelude::*;

verus! {

/// Largest magnitude a coordinate handed to the layout helpers may have.
pub const COORD_LIMIT: i64 = 0x4000_0000;

/// A 2-D integer vector, used both for points and for sizes.
#[derive(Clone, Copy, PartialEq, Eq, Structural, Debug)]
pub struct Vector2 {
    pub x: i64,
    pub y: i64,
}

/// True when both components lie within `COORD_LIMIT` in magnitude.
pub open spec fn vec_in_range(v: Vector2) -> bool {
    &&& -COORD_LIMIT <= v.x <= COORD_LIMIT
    &&& -COORD_LIMIT <= v.y <= COORD_LIMIT
}

/// Component-wise vector addition.
pub fn vec_add(a: Vector2, b: Vector2) -> (r: Vector2)
    requires
        vec_in_range(a),
        vec_in_range(b),
    ensures
        r.x == a.x + b.x,
        r.y == a.y + b.y,
{
    Vector2 { x: a.x + b.x, y: a.y + b.y }
}

/// Scales both components by `k`.
pub fn vec_scale(a: Vector2, k: i64) -> (r: Vector2)
    requires
        vec_in_range(a),
        -COORD_LIMIT <= k <= COORD_LIMIT,
    ensures
        r.x == a.x * k,
        r.y == a.y * k,
{
    proof {
        assert(-0x1000_0000_0000_0000 <= a.x * k <= 0x1000_0000_0000_0000) by (nonlinear_arith)
            requires -COORD_LIMIT <= a.x <= COORD_LIMIT, -COORD_LIMIT <= k <= COORD_LIMIT;
        assert(-0x1000_0000_0000_0000 <= a.y * k <= 0x1000_0000_0000_0000) by (nonlinear_arith)
            requires -COORD_LIMIT <= a.y <= COORD_LIMIT, -COORD_LIMIT <= k <= COORD_LIMIT;
    }
    Vector2 { x: a.x * k, y: a.y * k }
}

/// Clamps `v` into the closed interval `[lo, hi]`.
pub fn clamp(v: i64, lo: i64, hi: i64) -> (r: i64)
    requires
        lo <= hi,
    ensures
        r == if v < lo {
            lo
        } else if v > hi {
            hi
        } else {
            v
        },
{
    if v < lo {
        lo
    } else if v > hi {
        hi
    } else {
        v
    }
}

/// Linear interpolation from `a` up to `b` by the ratio `num / den`.
pub fn lerp(a: i64, b: i64, num: i64, den: i64) -> (r: i64)
    requires
        1 <= den <= COORD_LIMIT,
        0 <= num <= den,
        -COORD_LIMIT <= a <= COORD_LIMIT,
        -COORD_LIMIT <= b <= COORD_LIMIT,
        a <= b,
    ensures
        r == a + (b - a) * num / (den as int),
        a <= r <= b,
{
    let d = (b - a) as u64;
    proof {
        let di = (b - a) as int;
        assert(di * num <= 0x4000_0000_0000_0000) by (nonlinear_arith)
            requires 0 <= di <= 0x8000_0000int, 0 <= num <= 0x4000_0000int;
        assert(0 <= di * num / (den as int) <= di) by (nonlinear_arith)
            requires 1 <= den, 0 <= num <= den, 0 <= di;
    }
    let q = d * (num as u64) / (den as u64);
    a + (q as i64)
}

/// The side of a square cell that fits `cols x rows` cells into a parent of
/// size `parent`: the smaller of the two per-axis ratios.
pub fn cell_side(parent: Vector2, cols: i64, rows: i64) -> (r: i64)
    requires
        0 <= parent.x <= COORD_LIMIT,
        0 <= parent.y <= COORD_LIMIT,
        1 <= cols,
        1 <= rows,
    ensures
        r == cell_side_spec(parent.x as int, parent.y as int, cols as int, rows as int),
        0 <= r <= COORD_LIMIT,
{
    let wx = ((parent.x as u64) / (cols as u64)) as i64;
    let wy = ((parent.y as u64) / (rows as u64)) as i64;
    proof {
        assert(0 <= parent.x as int / cols as int <= parent.x as int) by (nonlinear_arith)
            requires 0 <= parent.x, 1 <= cols;
        assert(0 <= parent.y as int / rows as int <= parent.y as int) by (nonlinear_arith)
            requires 0 <= parent.y, 1 <= rows;
    }
    if wx <= wy {
        wx
    } else {
        wy
    }
}

/// Specification of [`cell_side`].
pub open spec fn cell_side_spec(pw: int, ph: int, cols: int, rows: int) -> int {
    let wx = pw / cols;
    let wy = ph / rows;
    if wx <= wy {
        wx
    } else {
        wy
    }
}

/// Offset that centers an extent of `count * side` inside `parent_extent`.
pub open spec fn centered_origin_spec(parent_extent: int, count: int, side: int) -> int {
    (parent_extent - count * side) / 2
}

/// Computes the top-left origin that centers the grid in the parent.
pub fn grid_origin(parent: Vector2, cols: i64, rows: i64, side: i64) -> (r: Vector2)
    requires
        0 <= parent.x <= COORD_LIMIT,
        0 <= parent.y <= COORD_LIMIT,
        1 <= cols <= COORD_LIMIT,
        1 <= rows <= COORD_LIMIT,
        0 <= side,
        cols * side <= parent.x,
        rows * side <= parent.y,
    ensures
        r.x == centered_origin_spec(parent.x as int, cols as int, side as int),
        r.y == centered_origin_spec(parent.y as int, rows as int, side as int),
        0 <= r.x <= parent.x,
        0 <= r.y <= parent.y,
{
    proof {
        assert(0 <= cols * side) by (nonlinear_arith)
            requires 1 <= cols, 0 <= side;
        assert(0 <= rows * side) by (nonlinear_arith)
            requires 1 <= rows, 0 <= side;
    }
    let x = (((parent.x - cols * side) as u64) / 2) as i64;
    let y = (((parent.y - rows * side) as u64) / 2) as i64;
    Vector2 { x, y }
}

} // verus!

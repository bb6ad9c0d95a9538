//! Points and axis-aligned boxes on the fixed-point canvas.

use vstd::prelude::*;

verus! {

/// Coordinate steps per canvas unit. The rounding grid of [`aabb_ceil`] is
/// made of the multiples of this value.
pub const UNIT: i32 = 1000;

/// Whether `v` can be stored in a coordinate.
pub open spec fn fits_i32(v: int) -> bool {
    i32::MIN <= v <= i32::MAX
}

/// The greatest grid line that is not above `c`.
pub open spec fn grid_floor(c: int) -> int {
    (c / 1000) * 1000
}

/// The least grid line that is not below `c`.
pub open spec fn grid_ceil(c: int) -> int {
    -grid_floor(-c)
}

/// Where the affine map that sends the interval `[src_min, src_max]` onto
/// `[dst_min, dst_max]` sends `c`, rounded down to a coordinate step. A
/// source interval without positive extent has no scale factor of its own:
/// along it the map is the plain shift by `dst_min - src_min`.
pub open spec fn rescale(c: int, src_min: int, src_max: int, dst_min: int, dst_max: int) -> int {
    if src_max - src_min <= 0 {
        dst_min + (c - src_min)
    } else {
        dst_min + ((c - src_min) * (dst_max - dst_min)) / (src_max - src_min)
    }
}

/// A point or an offset in coordinate steps.
#[derive(Clone, Copy, Debug, PartialEq, Eq, Structural)]
pub struct Vec2 {
    pub x: i32,
    pub y: i32,
}

/// An axis-aligned box given by its least and its greatest corner.
#[derive(Clone, Copy, Debug, PartialEq, Eq, Structural)]
pub struct Aabb {
    pub mins: Vec2,
    pub maxs: Vec2,
}

pub open spec fn min_int(a: int, b: int) -> int {
    if a <= b { a } else { b }
}

pub open spec fn max_int(a: int, b: int) -> int {
    if a >= b { a } else { b }
}

impl Vec2 {
    pub open spec fn zero_spec() -> Vec2 {
        Vec2 { x: 0, y: 0 }
    }

    /// Whether the point shifted by `offset` is still a point of the canvas.
    pub open spec fn translate_fits(self, offset: Vec2) -> bool {
        fits_i32(self.x + offset.x) && fits_i32(self.y + offset.y)
    }

    /// The point shifted by `offset`.
    pub open spec fn translated(self, offset: Vec2) -> Vec2 {
        Vec2 { x: (self.x + offset.x) as i32, y: (self.y + offset.y) as i32 }
    }

    /// Whether the image of the point under the map from `src` onto `dst`
    /// is still a point of the canvas.
    pub open spec fn rescale_fits(self, src: Aabb, dst: Aabb) -> bool {
        &&& fits_i32(rescale(self.x as int, src.mins.x as int, src.maxs.x as int, dst.mins.x as int, dst.maxs.x as int))
        &&& fits_i32(rescale(self.y as int, src.mins.y as int, src.maxs.y as int, dst.mins.y as int, dst.maxs.y as int))
    }

    /// The image of the point under the map that sends the box `src` onto
    /// the box `dst`, axis by axis.
    pub open spec fn rescaled(self, src: Aabb, dst: Aabb) -> Vec2 {
        Vec2 {
            x: rescale(self.x as int, src.mins.x as int, src.maxs.x as int, dst.mins.x as int, dst.maxs.x as int) as i32,
            y: rescale(self.y as int, src.mins.y as int, src.maxs.y as int, dst.mins.y as int, dst.maxs.y as int) as i32,
        }
    }

    pub fn new(x: i32, y: i32) -> (p: Vec2)
        ensures
            p.x == x,
            p.y == y,
    {
        Vec2 { x, y }
    }

    /// The origin, which is also the offset that moves nothing.
    #[verifier::when_used_as_spec(zero_spec)]
    pub fn zero() -> (p: Vec2)
        ensures
            p == Vec2::zero_spec(),
    {
        Vec2 { x: 0, y: 0 }
    }

    pub fn can_translate(&self, offset: Vec2) -> (b: bool)
        ensures
            b == self.translate_fits(offset),
    {
        let x: i64 = self.x as i64 + offset.x as i64;
        let y: i64 = self.y as i64 + offset.y as i64;
        -2147483648 <= x && x <= 2147483647 && -2147483648 <= y && y <= 2147483647
    }

    pub fn translate(self, offset: Vec2) -> (p: Vec2)
        requires
            self.translate_fits(offset),
        ensures
            p == self.translated(offset),
    {
        Vec2 { x: self.x + offset.x, y: self.y + offset.y }
    }

    pub fn can_rescale(&self, src: &Aabb, dst: &Aabb) -> (b: bool)
        ensures
            b == self.rescale_fits(*src, *dst),
    {
        let x: Option<i32> = checked_rescale(self.x, src.mins.x, src.maxs.x, dst.mins.x, dst.maxs.x);
        let y: Option<i32> = checked_rescale(self.y, src.mins.y, src.maxs.y, dst.mins.y, dst.maxs.y);
        x.is_some() && y.is_some()
    }

    pub fn rescale(self, src: &Aabb, dst: &Aabb) -> (p: Vec2)
        requires
            self.rescale_fits(*src, *dst),
        ensures
            p == self.rescaled(*src, *dst),
    {
        let x: Option<i32> = checked_rescale(self.x, src.mins.x, src.maxs.x, dst.mins.x, dst.maxs.x);
        let y: Option<i32> = checked_rescale(self.y, src.mins.y, src.maxs.y, dst.mins.y, dst.maxs.y);
        match (x, y) {
            (Some(x), Some(y)) => Vec2 { x, y },
            _ => self,
        }
    }
}

/// Computes [`rescale`] on coordinates, or `None` where the image is no
/// coordinate.
pub fn checked_rescale(c: i32, src_min: i32, src_max: i32, dst_min: i32, dst_max: i32) -> (r: Option<i32>)
    ensures
        r is Some <==> fits_i32(rescale(c as int, src_min as int, src_max as int, dst_min as int, dst_max as int)),
        r is Some ==> r->Some_0 == rescale(c as int, src_min as int, src_max as int, dst_min as int, dst_max as int),
{
    let src_extent: i128 = src_max as i128 - src_min as i128;
    let dst_extent: i128 = dst_max as i128 - dst_min as i128;
    let rel: i128 = c as i128 - src_min as i128;
    let image: i128 = if src_extent <= 0 {
        dst_min as i128 + rel
    } else {
        assert(-0x1_0000_0000 < rel < 0x1_0000_0000);
        assert(-0x1_0000_0000 < dst_extent < 0x1_0000_0000);
        assert(-0x1_0000_0000_0000_0000 <= rel * dst_extent <= 0x1_0000_0000_0000_0000) by (nonlinear_arith)
            requires
                -0x1_0000_0000 < rel < 0x1_0000_0000,
                -0x1_0000_0000 < dst_extent < 0x1_0000_0000,
        ;
        let scaled: i128 = rel * dst_extent;
        let quotient: Option<i128> = scaled.checked_div_euclid(src_extent);
        assert(-0x1_0000_0000_0000_0000 <= scaled / src_extent <= 0x1_0000_0000_0000_0000) by (nonlinear_arith)
            requires
                -0x1_0000_0000_0000_0000 <= scaled <= 0x1_0000_0000_0000_0000,
                src_extent >= 1,
        ;
        match quotient {
            Some(q) => dst_min as i128 + q,
            None => 0,
        }
    };
    if -2147483648 <= image && image <= 2147483647 {
        Some(image as i32)
    } else {
        None
    }
}


impl Aabb {
    /// A box is valid when its least corner is not beyond its greatest one.
    /// A single point is a valid box of no extent.
    pub open spec fn is_valid_spec(&self) -> bool {
        self.mins.x <= self.maxs.x && self.mins.y <= self.maxs.y
    }

    pub open spec fn width_spec(&self) -> int {
        self.maxs.x - self.mins.x
    }

    pub open spec fn height_spec(&self) -> int {
        self.maxs.y - self.mins.y
    }

    /// The least box that contains both `self` and `other`.
    pub open spec fn merged_spec(&self, other: &Aabb) -> Aabb {
        Aabb {
            mins: Vec2 {
                x: min_int(self.mins.x as int, other.mins.x as int) as i32,
                y: min_int(self.mins.y as int, other.mins.y as int) as i32,
            },
            maxs: Vec2 {
                x: max_int(self.maxs.x as int, other.maxs.x as int) as i32,
                y: max_int(self.maxs.y as int, other.maxs.y as int) as i32,
            },
        }
    }

    /// Whether `other` lies inside `self`, borders included.
    pub open spec fn contains_spec(&self, other: &Aabb) -> bool {
        &&& self.mins.x <= other.mins.x
        &&& self.mins.y <= other.mins.y
        &&& other.maxs.x <= self.maxs.x
        &&& other.maxs.y <= self.maxs.y
    }

    /// Whether `point` lies inside `self`, borders included.
    pub open spec fn contains_point_spec(&self, point: &Vec2) -> bool {
        &&& self.mins.x <= point.x <= self.maxs.x
        &&& self.mins.y <= point.y <= self.maxs.y
    }

    /// Whether the two boxes share a point, borders included.
    pub open spec fn intersects_spec(&self, other: &Aabb) -> bool {
        &&& self.mins.x <= other.maxs.x
        &&& other.mins.x <= self.maxs.x
        &&& self.mins.y <= other.maxs.y
        &&& other.mins.y <= self.maxs.y
    }

    pub open spec fn translate_fits(&self, offset: Vec2) -> bool {
        self.mins.translate_fits(offset) && self.maxs.translate_fits(offset)
    }

    /// The box shifted by `offset`.
    pub open spec fn translated(&self, offset: Vec2) -> Aabb {
        Aabb { mins: self.mins.translated(offset), maxs: self.maxs.translated(offset) }
    }

    /// Whether the grid lines around the box are coordinates. This fails
    /// only within one canvas unit of the ends of the coordinate range.
    pub open spec fn ceil_fits(&self) -> bool {
        &&& fits_i32(grid_floor(self.mins.x as int))
        &&& fits_i32(grid_floor(self.mins.y as int))
        &&& fits_i32(grid_ceil(self.maxs.x as int))
        &&& fits_i32(grid_ceil(self.maxs.y as int))
    }

    /// The box grown outward to the nearest grid lines.
    pub open spec fn ceiled(&self) -> Aabb {
        Aabb {
            mins: Vec2 {
                x: grid_floor(self.mins.x as int) as i32,
                y: grid_floor(self.mins.y as int) as i32,
            },
            maxs: Vec2 {
                x: grid_ceil(self.maxs.x as int) as i32,
                y: grid_ceil(self.maxs.y as int) as i32,
            },
        }
    }

    /// Whether all four sides lie on grid lines.
    pub open spec fn on_grid(&self) -> bool {
        &&& self.mins.x % 1000 == 0
        &&& self.mins.y % 1000 == 0
        &&& self.maxs.x % 1000 == 0
        &&& self.maxs.y % 1000 == 0
    }

    pub fn new(mins: Vec2, maxs: Vec2) -> (b: Aabb)
        ensures
            b.mins == mins,
            b.maxs == maxs,
    {
        Aabb { mins, maxs }
    }

    #[verifier::when_used_as_spec(is_valid_spec)]
    pub fn is_valid(&self) -> (v: bool)
        ensures
            v == self.is_valid_spec(),
    {
        self.mins.x <= self.maxs.x && self.mins.y <= self.maxs.y
    }

    pub fn width(&self) -> (w: i64)
        ensures
            w == self.width_spec(),
    {
        self.maxs.x as i64 - self.mins.x as i64
    }

    pub fn height(&self) -> (h: i64)
        ensures
            h == self.height_spec(),
    {
        self.maxs.y as i64 - self.mins.y as i64
    }

    #[verifier::when_used_as_spec(merged_spec)]
    pub fn merged(&self, other: &Aabb) -> (m: Aabb)
        ensures
            m == self.merged_spec(other),
    {
        Aabb {
            mins: Vec2 {
                x: if self.mins.x <= other.mins.x { self.mins.x } else { other.mins.x },
                y: if self.mins.y <= other.mins.y { self.mins.y } else { other.mins.y },
            },
            maxs: Vec2 {
                x: if self.maxs.x >= other.maxs.x { self.maxs.x } else { other.maxs.x },
                y: if self.maxs.y >= other.maxs.y { self.maxs.y } else { other.maxs.y },
            },
        }
    }

    /// Grows `self` in place until it contains `other` too.
    pub fn merge(&mut self, other: &Aabb)
        ensures
            *final(self) == old(self).merged_spec(other),
    {
        let m: Aabb = self.merged(other);
        *self = m;
    }

    #[verifier::when_used_as_spec(contains_spec)]
    pub fn contains(&self, other: &Aabb) -> (c: bool)
        ensures
            c == self.contains_spec(other),
    {
        self.mins.x <= other.mins.x && self.mins.y <= other.mins.y && other.maxs.x <= self.maxs.x
            && other.maxs.y <= self.maxs.y
    }

    #[verifier::when_used_as_spec(contains_point_spec)]
    pub fn contains_point(&self, point: &Vec2) -> (c: bool)
        ensures
            c == self.contains_point_spec(point),
    {
        self.mins.x <= point.x && point.x <= self.maxs.x && self.mins.y <= point.y && point.y
            <= self.maxs.y
    }

    #[verifier::when_used_as_spec(intersects_spec)]
    pub fn intersects(&self, other: &Aabb) -> (c: bool)
        ensures
            c == self.intersects_spec(other),
    {
        self.mins.x <= other.maxs.x && other.mins.x <= self.maxs.x && self.mins.y <= other.maxs.y
            && other.mins.y <= self.maxs.y
    }

    pub fn can_translate(&self, offset: Vec2) -> (b: bool)
        ensures
            b == self.translate_fits(offset),
    {
        self.mins.can_translate(offset) && self.maxs.can_translate(offset)
    }

    /// Whether the box can grow by `amount` on every side.
    pub open spec fn loosen_fits(&self, amount: u32) -> bool {
        &&& fits_i32(self.mins.x - amount)
        &&& fits_i32(self.mins.y - amount)
        &&& fits_i32(self.maxs.x + amount)
        &&& fits_i32(self.maxs.y + amount)
    }

    /// The box grown by `amount` on every side.
    pub open spec fn loosened_spec(&self, amount: u32) -> Aabb {
        Aabb {
            mins: Vec2 { x: (self.mins.x - amount) as i32, y: (self.mins.y - amount) as i32 },
            maxs: Vec2 { x: (self.maxs.x + amount) as i32, y: (self.maxs.y + amount) as i32 },
        }
    }

    /// The box of the single point `p`.
    pub open spec fn point_spec(p: Vec2) -> Aabb {
        Aabb { mins: p, maxs: p }
    }

    #[verifier::when_used_as_spec(point_spec)]
    pub fn point(p: Vec2) -> (b: Aabb)
        ensures
            b == Aabb::point_spec(p),
    {
        Aabb { mins: p, maxs: p }
    }

    /// Grows the box by `amount` on every side, or gives `None` where it
    /// would leave the canvas.
    pub fn loosened(&self, amount: u32) -> (r: Option<Aabb>)
        ensures
            r is Some <==> self.loosen_fits(amount),
            r is Some ==> r->Some_0 == self.loosened_spec(amount),
    {
        let x0: i64 = self.mins.x as i64 - amount as i64;
        let y0: i64 = self.mins.y as i64 - amount as i64;
        let x1: i64 = self.maxs.x as i64 + amount as i64;
        let y1: i64 = self.maxs.y as i64 + amount as i64;
        if -2147483648 <= x0 && -2147483648 <= y0 && x1 <= 2147483647 && y1 <= 2147483647 {
            Some(
                Aabb {
                    mins: Vec2 { x: x0 as i32, y: y0 as i32 },
                    maxs: Vec2 { x: x1 as i32, y: y1 as i32 },
                },
            )
        } else {
            None
        }
    }

    pub fn can_ceil(&self) -> (b: bool)
        ensures
            b == self.ceil_fits(),
    {
        let x0: i64 = floor_to_grid(self.mins.x as i64);
        let y0: i64 = floor_to_grid(self.mins.y as i64);
        let x1: i64 = ceil_to_grid(self.maxs.x as i64);
        let y1: i64 = ceil_to_grid(self.maxs.y as i64);
        -2147483648 <= x0 && -2147483648 <= y0 && x1 <= 2147483647 && y1 <= 2147483647
    }
}

/// [`grid_floor`] on machine integers.
pub fn floor_to_grid(c: i64) -> (r: i64)
    requires
        i64::MIN <= grid_floor(c as int),
    ensures
        r == grid_floor(c as int),
        r <= c < r + 1000,
{
    match c.checked_rem_euclid(1000) {
        Some(rest) => c - rest,
        None => c,
    }
}

/// [`grid_ceil`] on machine integers.
pub fn ceil_to_grid(c: i64) -> (r: i64)
    requires
        grid_ceil(c as int) <= i64::MAX,
    ensures
        r == grid_ceil(c as int),
        r - 1000 < c <= r,
{
    proof {
        lemma_grid_shift(c as int, 0);
        vstd::arithmetic::div_mod::lemma_fundamental_div_mod(c as int, 1000);
        vstd::arithmetic::div_mod::lemma_fundamental_div_mod(-(c as int), 1000);
    }
    match c.checked_rem_euclid(1000) {
        Some(rest) => if rest == 0 {
            c
        } else {
            c + (1000 - rest)
        },
        None => c,
    }
}

/// Shifts a box by `offset`.
pub fn aabb_translate(aabb: Aabb, offset: Vec2) -> (r: Aabb)
    requires
        aabb.translate_fits(offset),
    ensures
        r == aabb.translated(offset),
{
    Aabb { mins: aabb.mins.translate(offset), maxs: aabb.maxs.translate(offset) }
}

/// Grows a box outward to the nearest grid lines, so that what is drawn
/// into it is never clipped inside a canvas unit.
pub fn aabb_ceil(aabb: Aabb) -> (r: Aabb)
    requires
        aabb.ceil_fits(),
    ensures
        r == aabb.ceiled(),
        r.contains_spec(&aabb),
        r.on_grid(),
{
    let x0: i64 = floor_to_grid(aabb.mins.x as i64);
    let y0: i64 = floor_to_grid(aabb.mins.y as i64);
    let x1: i64 = ceil_to_grid(aabb.maxs.x as i64);
    let y1: i64 = ceil_to_grid(aabb.maxs.y as i64);
    Aabb { mins: Vec2 { x: x0 as i32, y: y0 as i32 }, maxs: Vec2 { x: x1 as i32, y: y1 as i32 } }
}

/// Merging does not depend on the order of the two boxes.
pub proof fn lemma_merge_commutative(a: Aabb, b: Aabb)
    ensures
        a.merged_spec(&b) == b.merged_spec(&a),
{
}

/// Merging a box with itself changes nothing.
pub proof fn lemma_merge_idempotent(a: Aabb)
    ensures
        a.merged_spec(&a) == a,
{
}

/// Merging three boxes does not depend on which two are merged first.
pub proof fn lemma_merge_associative(a: Aabb, b: Aabb, c: Aabb)
    ensures
        a.merged_spec(&b).merged_spec(&c) == a.merged_spec(&b.merged_spec(&c)),
{
}

/// The merged box contains both boxes, and every box that contains both
/// contains the merged box: it is the least such box.
pub proof fn lemma_merge_least(a: Aabb, b: Aabb, c: Aabb)
    ensures
        a.merged_spec(&b).contains_spec(&a),
        a.merged_spec(&b).contains_spec(&b),
        c.contains_spec(&a) && c.contains_spec(&b) ==> c.contains_spec(&a.merged_spec(&b)),
        a.is_valid_spec() || b.is_valid_spec() ==> a.merged_spec(&b).is_valid_spec(),
{
}

/// A box that was grown to the grid is not changed by growing it again.
pub proof fn lemma_ceil_idempotent(b: Aabb)
    requires
        b.ceil_fits(),
    ensures
        b.ceiled().ceil_fits(),
        b.ceiled().ceiled() == b.ceiled(),
{
}

/// Growing a box to the grid never loses a point of it, and grows it by
/// less than one canvas unit on each side.
pub proof fn lemma_ceil_contains(b: Aabb)
    requires
        b.ceil_fits(),
    ensures
        b.ceiled().contains_spec(&b),
        b.ceiled().on_grid(),
        b.mins.x - b.ceiled().mins.x < 1000,
        b.mins.y - b.ceiled().mins.y < 1000,
        b.ceiled().maxs.x - b.maxs.x < 1000,
        b.ceiled().maxs.y - b.maxs.y < 1000,
        b.is_valid_spec() ==> b.ceiled().is_valid_spec(),
{
}

/// Growing to the grid leaves exactly the boxes alone whose sides are on it.
pub proof fn lemma_ceil_fixed_points(b: Aabb)
    ensures
        b.on_grid() <==> (b.ceil_fits() && b.ceiled() == b),
{
}

/// Growing a valid box to the grid and shifting it by whole canvas units
/// can be done in either order.
pub proof fn lemma_ceil_translate(b: Aabb, offset: Vec2)
    requires
        b.is_valid_spec(),
        b.ceil_fits(),
        b.ceiled().translate_fits(offset),
        offset.x % 1000 == 0,
        offset.y % 1000 == 0,
    ensures
        b.translate_fits(offset),
        b.translated(offset).ceil_fits(),
        b.translated(offset).ceiled() == b.ceiled().translated(offset),
{
    lemma_grid_shift(b.mins.x as int, offset.x as int);
    lemma_grid_shift(b.mins.y as int, offset.y as int);
    lemma_grid_shift(b.maxs.x as int, offset.x as int);
    lemma_grid_shift(b.maxs.y as int, offset.y as int);
}

/// Shifting by whole canvas units shifts the grid lines around a
/// coordinate by as much.
pub proof fn lemma_grid_shift(c: int, k: int)
    requires
        k % 1000 == 0,
    ensures
        grid_floor(c + k) == grid_floor(c) + k,
        grid_ceil(c + k) == grid_ceil(c) + k,
        grid_floor(c) <= c <= grid_ceil(c),
{
    let q = k / 1000;
    assert(k == q * 1000);
    vstd::arithmetic::div_mod::lemma_hoist_over_denominator(c, q, 1000);
    vstd::arithmetic::div_mod::lemma_hoist_over_denominator(-c, -q, 1000);
}

/// Shifting by the zero offset changes nothing, and two shifts in a row
/// are the shift by the sum of the offsets.
pub proof fn lemma_translate_compose(b: Aabb, first: Vec2, second: Vec2)
    requires
        b.translate_fits(first),
        b.translated(first).translate_fits(second),
        first.translate_fits(second),
    ensures
        b.translate_fits(Vec2::zero_spec()),
        b.translated(Vec2::zero_spec()) == b,
        b.translate_fits(first.translated(second)),
        b.translated(first).translated(second) == b.translated(first.translated(second)),
{
}

/// The map from `src` onto `dst` sends the corners of `src` to the
/// corners of `dst` along every axis of positive extent, and keeps points
/// between the corners of `src` between the corners of `dst`, whichever of
/// the two is the greater.
pub proof fn lemma_rescale_corners(c: int, src_min: int, src_max: int, dst_min: int, dst_max: int)
    requires
        src_min < src_max,
    ensures
        rescale(src_min, src_min, src_max, dst_min, dst_max) == dst_min,
        rescale(src_max, src_min, src_max, dst_min, dst_max) == dst_max,
        src_min <= c <= src_max ==> min_int(dst_min, dst_max) <= rescale(
            c,
            src_min,
            src_max,
            dst_min,
            dst_max,
        ) <= max_int(dst_min, dst_max),
{
    let e = src_max - src_min;
    let d = dst_max - dst_min;
    assert((0 * d) / e == 0) by (nonlinear_arith)
        requires
            e > 0,
    ;
    assert((e * d) / e == d) by (nonlinear_arith)
        requires
            e > 0,
    ;
    if src_min <= c <= src_max {
        let r = c - src_min;
        if d >= 0 {
            assert(0 <= (r * d) / e <= d) by (nonlinear_arith)
                requires
                    e > 0,
                    0 <= r <= e,
                    0 <= d,
            {
                assert(0 <= r * d <= e * d);
                assert((e * d) / e == d);
            }
        } else {
            assert(d <= (r * d) / e <= 0) by (nonlinear_arith)
                requires
                    e > 0,
                    0 <= r <= e,
                    d < 0,
            {
                assert(e * d <= r * d <= 0);
                assert((e * d) / e == d);
            }
        }
    }
}

/// The image of a point of the box `src` under the map from `src` onto
/// `dst` is a point of the canvas, whatever `dst` is, and a point of `dst`
/// where `dst` is valid.
pub proof fn lemma_rescaled_inside(p: Vec2, src: Aabb, dst: Aabb)
    requires
        src.contains_point_spec(&p),
    ensures
        p.rescale_fits(src, dst),
        dst.is_valid_spec() ==> dst.contains_point_spec(&p.rescaled(src, dst)),
{
    if src.mins.x < src.maxs.x {
        lemma_rescale_corners(
            p.x as int,
            src.mins.x as int,
            src.maxs.x as int,
            dst.mins.x as int,
            dst.maxs.x as int,
        );
    }
    if src.mins.y < src.maxs.y {
        lemma_rescale_corners(
            p.y as int,
            src.mins.y as int,
            src.maxs.y as int,
            dst.mins.y as int,
            dst.maxs.y as int,
        );
    }
}

} // verus!

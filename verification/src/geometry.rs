//! Integer positions in the well and the quarter-turn rotations that move them.
use vstd::prelude::*;

verus! {

/// One of the three coordinate axes a figure can be turned around.
#[derive(Debug, Clone, Copy, PartialEq, Eq, Structural)]
pub enum Axis {
    X,
    Y,
    Z,
}

/// Whether a quarter turn goes the positive or the negative way round an axis.
#[derive(Debug, Clone, Copy, PartialEq, Eq, Structural)]
pub enum RotationDirection {
    Positive,
    Negative,
}

/// A cell position (or offset) in the well: `x` and `y` across the entrance, `z` downwards.
#[derive(Debug, Clone, Copy, PartialEq, Eq, Hash, Structural)]
pub struct Vec3i {
    pub x: i32,
    pub y: i32,
    pub z: i32,
}

/// Whether an integer fits into `i32`.
pub open spec fn fits_i32(v: int) -> bool {
    i32::MIN <= v <= i32::MAX
}

/// `a + b` can be computed coordinate by coordinate without leaving `i32`.
pub open spec fn add_fits(a: Vec3i, b: Vec3i) -> bool {
    &&& fits_i32(a.x + b.x)
    &&& fits_i32(a.y + b.y)
    &&& fits_i32(a.z + b.z)
}

/// `a - b` can be computed coordinate by coordinate without leaving `i32`.
pub open spec fn sub_fits(a: Vec3i, b: Vec3i) -> bool {
    &&& fits_i32(a.x - b.x)
    &&& fits_i32(a.y - b.y)
    &&& fits_i32(a.z - b.z)
}

/// The coordinatewise sum.
pub open spec fn vadd(a: Vec3i, b: Vec3i) -> Vec3i {
    Vec3i { x: (a.x + b.x) as i32, y: (a.y + b.y) as i32, z: (a.z + b.z) as i32 }
}

/// The coordinatewise difference.
pub open spec fn vsub(a: Vec3i, b: Vec3i) -> Vec3i {
    Vec3i { x: (a.x - b.x) as i32, y: (a.y - b.y) as i32, z: (a.z - b.z) as i32 }
}

/// A quarter turn around `axis` can be computed without leaving `i32`: the coordinate
/// that is negated must not be `i32::MIN`.
pub open spec fn rotation_fits(v: Vec3i, axis: Axis) -> bool {
    match axis {
        Axis::X => v.z != i32::MIN,
        Axis::Y => v.x != i32::MIN,
        Axis::Z => v.y != i32::MIN,
    }
}

/// The positive quarter turn of an offset around an axis through the origin.
pub open spec fn rotate(v: Vec3i, axis: Axis) -> Vec3i {
    match axis {
        Axis::X => Vec3i { x: v.x, y: (-v.z) as i32, z: v.y },
        Axis::Y => Vec3i { x: v.z, y: v.y, z: (-v.x) as i32 },
        Axis::Z => Vec3i { x: (-v.y) as i32, y: v.x, z: v.z },
    }
}

/// `n` positive quarter turns around `axis`.
pub open spec fn rotate_n(v: Vec3i, axis: Axis, n: nat) -> Vec3i
    decreases n,
{
    if n == 0 {
        v
    } else {
        rotate(rotate_n(v, axis, (n - 1) as nat), axis)
    }
}

/// No coordinate of `v` is `i32::MIN`, so any number of quarter turns stays in `i32`.
pub open spec fn turnable(v: Vec3i) -> bool {
    v.x != i32::MIN && v.y != i32::MIN && v.z != i32::MIN
}

/// The number of positive quarter turns that a turn in `direction` stands for.
pub open spec fn quarter_turns(direction: RotationDirection) -> nat {
    match direction {
        RotationDirection::Positive => 1,
        RotationDirection::Negative => 3,
    }
}

/// The other way round.
pub open spec fn opposite(direction: RotationDirection) -> RotationDirection {
    match direction {
        RotationDirection::Positive => RotationDirection::Negative,
        RotationDirection::Negative => RotationDirection::Positive,
    }
}

impl Vec3i {
    /// The position moved by `delta`.
    pub fn translated(self, delta: Vec3i) -> (r: Vec3i)
        requires
            add_fits(self, delta),
        ensures
            r == vadd(self, delta),
            r.x == self.x + delta.x,
            r.y == self.y + delta.y,
            r.z == self.z + delta.z,
    {
        Vec3i { x: self.x + delta.x, y: self.y + delta.y, z: self.z + delta.z }
    }

    /// The offset of this position from `origin`.
    pub fn relative_to(self, origin: Vec3i) -> (r: Vec3i)
        requires
            sub_fits(self, origin),
        ensures
            r == vsub(self, origin),
            r.x == self.x - origin.x,
            r.y == self.y - origin.y,
            r.z == self.z - origin.z,
    {
        Vec3i { x: self.x - origin.x, y: self.y - origin.y, z: self.z - origin.z }
    }

    /// The offset turned a quarter turn the positive way around `axis`.
    pub fn rotated_90(self, axis: Axis) -> (r: Vec3i)
        requires
            rotation_fits(self, axis),
        ensures
            r == rotate(self, axis),
    {
        match axis {
            Axis::X => Vec3i { x: self.x, y: -self.z, z: self.y },
            Axis::Y => Vec3i { x: self.z, y: self.y, z: -self.x },
            Axis::Z => Vec3i { x: -self.y, y: self.x, z: self.z },
        }
    }
}

/// Any number of quarter turns keeps every coordinate away from `i32::MIN`.
pub proof fn lemma_rotate_n_turnable(v: Vec3i, axis: Axis, n: nat)
    requires
        turnable(v),
    ensures
        turnable(rotate_n(v, axis, n)),
    decreases n,
{
    if n > 0 {
        lemma_rotate_n_turnable(v, axis, (n - 1) as nat);
    }
}

/// Four quarter turns around the same axis bring every offset back to where it was.
pub proof fn lemma_four_quarter_turns_restore(v: Vec3i, axis: Axis)
    requires
        turnable(v),
    ensures
        rotate_n(v, axis, 4) == v,
{
    reveal_with_fuel(rotate_n, 5);
}

/// A positive quarter turn followed by a negative one (three positive ones) restores
/// every offset, and so does the opposite order.
pub proof fn lemma_opposite_turns_restore(v: Vec3i, axis: Axis)
    requires
        turnable(v),
    ensures
        rotate_n(rotate_n(v, axis, quarter_turns(RotationDirection::Positive)), axis,
            quarter_turns(RotationDirection::Negative)) == v,
        rotate_n(rotate_n(v, axis, quarter_turns(RotationDirection::Negative)), axis,
            quarter_turns(RotationDirection::Positive)) == v,
{
    reveal_with_fuel(rotate_n, 5);
    let a = rotate(v, axis);
    assert(rotate_n(a, axis, 3) == rotate(rotate(rotate(a, axis), axis), axis));
    let b = rotate(rotate(rotate(v, axis), axis), axis);
    assert(rotate_n(v, axis, 3) == b);
    assert(rotate_n(b, axis, 1) == rotate(b, axis));
}

/// Moving by `delta` and then taking the offset from the moved origin gives back the
/// offset it had.
pub proof fn lemma_translate_then_relative(p: Vec3i, origin: Vec3i, delta: Vec3i)
    requires
        add_fits(p, delta),
        add_fits(origin, delta),
        sub_fits(p, origin),
    ensures
        vsub(vadd(p, delta), vadd(origin, delta)) == vsub(p, origin),
{
}

} // verus!

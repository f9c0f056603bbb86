//! Axis maps: the maps of space that send each axis to an axis, possibly reversed. Every
//! sequence of quarter turns is one of them, and there are only finitely many, which
//! bounds how many different orientations a figure can have.
use vstd::prelude::*;

use crate::geometry::{rotate, Axis, Vec3i};

verus! {

/// Sends coordinate `source.0` (0 for `x`, 1 for `y`, 2 for `z`) to `x`, negated when
/// `flip.0` holds, and likewise for `y` and `z`.
pub struct AxisMap {
    pub source: (int, int, int),
    pub flip: (bool, bool, bool),
}

/// The coordinate of `v` with index `i`.
pub open spec fn component(v: Vec3i, i: int) -> int {
    if i == 0 {
        v.x as int
    } else if i == 1 {
        v.y as int
    } else {
        v.z as int
    }
}

/// `c`, negated when `flip` holds.
pub open spec fn signed(c: int, flip: bool) -> int {
    if flip { -c } else { c }
}

/// The map sends the three axes to three different axes.
pub open spec fn map_wf(m: AxisMap) -> bool {
    &&& 0 <= m.source.0 < 3
    &&& 0 <= m.source.1 < 3
    &&& 0 <= m.source.2 < 3
    &&& m.source.0 != m.source.1
    &&& m.source.0 != m.source.2
    &&& m.source.1 != m.source.2
}

/// The identity map.
pub open spec fn identity_map() -> AxisMap {
    AxisMap { source: (0, 1, 2), flip: (false, false, false) }
}

/// The image of `v` under the map.
pub open spec fn apply_map(m: AxisMap, v: Vec3i) -> Vec3i {
    Vec3i {
        x: signed(component(v, m.source.0), m.flip.0) as i32,
        y: signed(component(v, m.source.1), m.flip.1) as i32,
        z: signed(component(v, m.source.2), m.flip.2) as i32,
    }
}

/// The map followed by a positive quarter turn around `axis`.
pub open spec fn then_turn(m: AxisMap, axis: Axis) -> AxisMap {
    match axis {
        Axis::X => AxisMap {
            source: (m.source.0, m.source.2, m.source.1),
            flip: (m.flip.0, !m.flip.2, m.flip.1),
        },
        Axis::Y => AxisMap {
            source: (m.source.2, m.source.1, m.source.0),
            flip: (m.flip.2, m.flip.1, !m.flip.0),
        },
        Axis::Z => AxisMap {
            source: (m.source.1, m.source.0, m.source.2),
            flip: (!m.flip.1, m.flip.0, m.flip.2),
        },
    }
}

/// A number below 72 that tells axis maps apart.
pub open spec fn map_code(m: AxisMap) -> int {
    (m.source.0 * 3 + m.source.1) * 8 + (if m.flip.0 { 4int } else { 0int }) + (if m.flip.1 {
        2int
    } else {
        0int
    }) + (if m.flip.2 { 1int } else { 0int })
}

/// Every coordinate lies in `-2..=2`.
pub open spec fn small(v: Vec3i) -> bool {
    -2 <= v.x <= 2 && -2 <= v.y <= 2 && -2 <= v.z <= 2
}

/// The identity map leaves positions where they are.
pub proof fn lemma_identity_map(v: Vec3i)
    ensures
        map_wf(identity_map()),
        apply_map(identity_map(), v) == v,
{
}

/// An axis map keeps small positions small, and turning the image is applying the map
/// followed by the turn.
pub proof fn lemma_then_turn(m: AxisMap, axis: Axis, v: Vec3i)
    requires
        map_wf(m),
        small(v),
    ensures
        map_wf(then_turn(m, axis)),
        small(apply_map(m, v)),
        rotate(apply_map(m, v), axis) == apply_map(then_turn(m, axis), v),
{
}

/// An axis map keeps small positions small.
pub proof fn lemma_apply_small(m: AxisMap, v: Vec3i)
    requires
        map_wf(m),
        small(v),
    ensures
        small(apply_map(m, v)),
{
}

/// An axis map does not send two different small positions to the same place.
pub proof fn lemma_apply_injective(m: AxisMap, u: Vec3i, v: Vec3i)
    requires
        map_wf(m),
        small(u),
        small(v),
        apply_map(m, u) == apply_map(m, v),
    ensures
        u == v,
{
    assert(component(u, m.source.0) == component(v, m.source.0));
    assert(component(u, m.source.1) == component(v, m.source.1));
    assert(component(u, m.source.2) == component(v, m.source.2));
    assert(component(u, 0) == component(v, 0));
    assert(component(u, 1) == component(v, 1));
    assert(component(u, 2) == component(v, 2));
}

/// Axis maps with the same code are the same map.
pub proof fn lemma_map_code_injective(a: AxisMap, b: AxisMap)
    requires
        map_wf(a),
        map_wf(b),
        map_code(a) == map_code(b),
    ensures
        a == b,
        0 <= map_code(a) < 72,
{
    assert(a.source.2 == 3 - a.source.0 - a.source.1);
    assert(b.source.2 == 3 - b.source.0 - b.source.1);
}

/// Every code lies below 72.
pub proof fn lemma_map_code_range(a: AxisMap)
    requires
        map_wf(a),
    ensures
        0 <= map_code(a) < 72,
{
}

} // verus!

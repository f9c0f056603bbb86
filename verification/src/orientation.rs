//! Orientations of figures: the block offsets from the pivot, put in a canonical order,
//! and the shape they make once moved against the origin.
use vstd::prelude::*;
use vstd::relations::{sorted_by, total_ordering};

use crate::figure::{shape_offsets, Block, Color, Figure, FigureKind, FigureModel, Material};
use crate::geometry::{rotate, sub_fits, vsub, Axis, Vec3i};
use crate::symmetry::{apply_map, identity_map, lemma_apply_small, lemma_identity_map, lemma_map_code_injective, lemma_map_code_range, lemma_then_turn, map_code, map_wf, small, then_turn, AxisMap, lemma_apply_injective};

verus! {

broadcast use vstd::seq_lib::group_to_multiset_ensures;

/// Positions ordered by `x`, then `y`, then `z`.
pub open spec fn lex_le(a: Vec3i, b: Vec3i) -> bool {
    a.x < b.x || (a.x == b.x && (a.y < b.y || (a.y == b.y && a.z <= b.z)))
}

/// The order positions are sorted in.
pub open spec fn position_order() -> spec_fn(Vec3i, Vec3i) -> bool {
    |a: Vec3i, b: Vec3i| lex_le(a, b)
}

/// The positions in ascending order.
pub open spec fn sort_positions(s: Seq<Vec3i>) -> Seq<Vec3i> {
    s.sort_by(position_order())
}

/// The offsets of the figure's blocks from its pivot, in block order.
pub open spec fn offsets(f: FigureModel) -> Seq<Vec3i> {
    f.blocks.map_values(|b: Block| vsub(b.position, f.pivot))
}

/// Every block's offset from the pivot fits `i32`.
pub open spec fn offsets_fit(f: FigureModel) -> bool {
    forall|i: int| 0 <= i < f.blocks.len() ==> sub_fits(#[trigger] f.blocks[i].position, f.pivot)
}

/// The coordinate of `v` along `axis`.
pub open spec fn coord(v: Vec3i, axis: Axis) -> int {
    match axis {
        Axis::X => v.x as int,
        Axis::Y => v.y as int,
        Axis::Z => v.z as int,
    }
}

/// The smallest coordinate along `axis` among the positions; 0 when there are none.
pub open spec fn min_coord(s: Seq<Vec3i>, axis: Axis) -> int
    decreases s.len(),
{
    if s.len() == 0 {
        0
    } else if s.len() == 1 {
        coord(s[0], axis)
    } else {
        let m = min_coord(s.drop_last(), axis);
        if coord(s.last(), axis) < m { coord(s.last(), axis) } else { m }
    }
}

/// The largest coordinate along `axis` among the positions; 0 when there are none.
pub open spec fn max_coord(s: Seq<Vec3i>, axis: Axis) -> int
    decreases s.len(),
{
    if s.len() == 0 {
        0
    } else if s.len() == 1 {
        coord(s[0], axis)
    } else {
        let m = max_coord(s.drop_last(), axis);
        if coord(s.last(), axis) > m { coord(s.last(), axis) } else { m }
    }
}

/// The positions moved so that the smallest coordinate along each axis is 0.
pub open spec fn shifted_to_origin(s: Seq<Vec3i>) -> Seq<Vec3i> {
    s.map_values(|p: Vec3i| Vec3i {
        x: (p.x - min_coord(s, Axis::X)) as i32,
        y: (p.y - min_coord(s, Axis::Y)) as i32,
        z: (p.z - min_coord(s, Axis::Z)) as i32,
    })
}

/// The shape the positions make, wherever they are: moved against the origin and sorted.
pub open spec fn normalize(s: Seq<Vec3i>) -> Seq<Vec3i> {
    sort_positions(shifted_to_origin(s))
}

/// The smallest coordinates along the three axes.
pub open spec fn corner(s: Seq<Vec3i>) -> Vec3i {
    Vec3i {
        x: min_coord(s, Axis::X) as i32,
        y: min_coord(s, Axis::Y) as i32,
        z: min_coord(s, Axis::Z) as i32,
    }
}

/// Every position minus the smallest coordinates fits `i32`.
pub open spec fn shift_fits(s: Seq<Vec3i>) -> bool {
    forall|i: int| 0 <= i < s.len() ==> sub_fits(#[trigger] s[i], corner(s))
}

/// The positions are ordered by `x`, then `y`, then `z`.
pub open spec fn is_sorted(s: Seq<Vec3i>) -> bool {
    sorted_by(s, position_order())
}

/// The position order is a total order.
pub proof fn lemma_position_order_total()
    ensures
        total_ordering(position_order()),
{
}

/// Sorting keeps the positions and puts them in order.
pub proof fn lemma_sort_positions(s: Seq<Vec3i>)
    ensures
        is_sorted(sort_positions(s)),
        sort_positions(s).to_multiset() == s.to_multiset(),
        sort_positions(s).len() == s.len(),
        forall|x: Vec3i| #[trigger] sort_positions(s).contains(x) ==> s.contains(x),
{
    lemma_position_order_total();
    s.lemma_sort_by_ensures(position_order());
    assert(sort_positions(s).to_multiset().len() == s.to_multiset().len());
}

/// A sorted arrangement of the positions is the sorted one.
pub proof fn lemma_sorted_is_sort(r: Seq<Vec3i>, s: Seq<Vec3i>)
    requires
        is_sorted(r),
        r.to_multiset() == s.to_multiset(),
    ensures
        r == sort_positions(s),
{
    lemma_sort_positions(s);
    lemma_position_order_total();
    vstd::seq_lib::lemma_sorted_unique(r, sort_positions(s), position_order());
}

/// Sorting depends only on which positions there are, not on their order.
pub proof fn lemma_sort_depends_on_multiset(a: Seq<Vec3i>, b: Seq<Vec3i>)
    requires
        a.to_multiset() == b.to_multiset(),
    ensures
        sort_positions(a) == sort_positions(b),
{
    lemma_sort_positions(a);
    lemma_sorted_is_sort(sort_positions(a), b);
}

/// Whether `a` comes no later than `b` in the position order.
pub fn lex_le_exec(a: Vec3i, b: Vec3i) -> (r: bool)
    ensures
        r == lex_le(a, b),
{
    a.x < b.x || (a.x == b.x && (a.y < b.y || (a.y == b.y && a.z <= b.z)))
}

/// The positions sorted by `x`, then `y`, then `z`.
pub fn sorted_orientation(positions: Vec<Vec3i>) -> (r: Vec<Vec3i>)
    ensures
        r@ == sort_positions(positions@),
{
    let mut result: Vec<Vec3i> = Vec::new();
    let mut i: usize = 0;
    proof {
        lemma_position_order_total();
    }
    while i < positions.len()
        invariant
            i <= positions.len(),
            is_sorted(result@),
            result@.to_multiset() == positions@.take(i as int).to_multiset(),
            total_ordering(position_order()),
        decreases positions.len() - i,
    {
        let x = positions[i];
        let mut k: usize = 0;
        while k < result.len() && lex_le_exec(result[k], x)
            invariant
                k <= result.len(),
                forall|j: int| 0 <= j < k ==> lex_le(#[trigger] result@[j], x),
            decreases result.len() - k,
        {
            k = k + 1;
        }
        let ghost before = result@;
        result.insert(k, x);
        proof {
            assert(result@ == before.insert(k as int, x));
            assert forall|a: int, b: int| 0 <= a < b < result@.len() implies #[trigger] position_order()(result@[a], result@[b]) by {
                if b < k {
                    assert(position_order()(before[a], before[b]));
                } else if b == k {
                    assert(lex_le(before[a], x));
                } else if a < k {
                    assert(position_order()(before[a], before[b - 1]));
                } else if a == k {
                    assert(!lex_le(before[k as int], x));
                    assert(position_order()(before[k as int], before[b - 1]) || k as int == b - 1);
                } else {
                    assert(position_order()(before[a - 1], before[b - 1]));
                }
            }
            assert(positions@.take(i + 1) =~= positions@.take(i as int).push(x));
            vstd::seq_lib::to_multiset_insert(before, k as int, x);
        }
        i = i + 1;
    }
    proof {
        assert(positions@.take(i as int) =~= positions@);
        lemma_sorted_is_sort(result@, positions@);
    }
    result
}

/// The smallest coordinate is one of the coordinates, and no coordinate is smaller.
pub proof fn lemma_min_coord(s: Seq<Vec3i>, axis: Axis)
    requires
        s.len() > 0,
    ensures
        exists|k: int| 0 <= k < s.len() && coord(#[trigger] s[k], axis) == min_coord(s, axis),
        forall|k: int| 0 <= k < s.len() ==> min_coord(s, axis) <= coord(#[trigger] s[k], axis),
    decreases s.len(),
{
    if s.len() == 1 {
        assert(coord(s[0], axis) == min_coord(s, axis));
    } else {
        let t = s.drop_last();
        lemma_min_coord(t, axis);
        let k0 = choose|k: int| 0 <= k < t.len() && coord(#[trigger] t[k], axis) == min_coord(t, axis);
        if coord(s.last(), axis) < min_coord(t, axis) {
            assert(coord(s[s.len() - 1], axis) == min_coord(s, axis));
        } else {
            assert(coord(s[k0], axis) == min_coord(s, axis));
        }
        assert forall|k: int| 0 <= k < s.len() implies min_coord(s, axis) <= coord(#[trigger] s[k], axis) by {
            if k < s.len() - 1 {
                assert(s[k] == t[k]);
            }
        }
    }
}

/// The smallest and the largest offset of the figure's blocks from its pivot along each
/// axis, all 0 for a figure without blocks: the box the figure is previewed in.
pub fn offset_bounds(figure: &Figure) -> (r: (Vec3i, Vec3i))
    requires
        offsets_fit(figure@),
    ensures
        r.0 == (Vec3i {
            x: min_coord(offsets(figure@), Axis::X) as i32,
            y: min_coord(offsets(figure@), Axis::Y) as i32,
            z: min_coord(offsets(figure@), Axis::Z) as i32,
        }),
        r.1 == (Vec3i {
            x: max_coord(offsets(figure@), Axis::X) as i32,
            y: max_coord(offsets(figure@), Axis::Y) as i32,
            z: max_coord(offsets(figure@), Axis::Z) as i32,
        }),
{
    let local = orientation_offsets(figure);
    if local.len() == 0 {
        return (Vec3i { x: 0, y: 0, z: 0 }, Vec3i { x: 0, y: 0, z: 0 });
    }
    let mut min = local[0];
    let mut max = local[0];
    let mut i: usize = 1;
    while i < local.len()
        invariant
            local@ == offsets(figure@),
            1 <= i <= local@.len(),
            min.x == min_coord(local@.take(i as int), Axis::X),
            min.y == min_coord(local@.take(i as int), Axis::Y),
            min.z == min_coord(local@.take(i as int), Axis::Z),
            max.x == max_coord(local@.take(i as int), Axis::X),
            max.y == max_coord(local@.take(i as int), Axis::Y),
            max.z == max_coord(local@.take(i as int), Axis::Z),
        decreases local.len() - i,
    {
        let p = local[i];
        assert(local@.take(i + 1).drop_last() =~= local@.take(i as int));
        assert(local@.take(i + 1).last() == p);
        if p.x < min.x {
            min.x = p.x;
        }
        if p.y < min.y {
            min.y = p.y;
        }
        if p.z < min.z {
            min.z = p.z;
        }
        if p.x > max.x {
            max.x = p.x;
        }
        if p.y > max.y {
            max.y = p.y;
        }
        if p.z > max.z {
            max.z = p.z;
        }
        i = i + 1;
    }
    assert(local@.take(i as int) =~= local@);
    (min, max)
}

/// The smallest coordinate along `axis` among the first `i` positions, computed by a scan.
fn min_coordinate(positions: &[Vec3i], axis: Axis) -> (m: i32)
    ensures
        m == min_coord(positions@, axis),
{
    if positions.len() == 0 {
        return 0;
    }
    let mut m = pick(positions[0], axis);
    let mut i: usize = 1;
    while i < positions.len()
        invariant
            1 <= i <= positions@.len(),
            m == min_coord(positions@.take(i as int), axis),
        decreases positions.len() - i,
    {
        let c = pick(positions[i], axis);
        assert(positions@.take(i + 1).drop_last() =~= positions@.take(i as int));
        assert(positions@.take(i + 1).last() == positions@[i as int]);
        if c < m {
            m = c;
        }
        i = i + 1;
    }
    assert(positions@.take(i as int) =~= positions@);
    m
}

/// The coordinate of `v` along `axis`.
fn pick(v: Vec3i, axis: Axis) -> (c: i32)
    ensures
        c == coord(v, axis),
{
    match axis {
        Axis::X => v.x,
        Axis::Y => v.y,
        Axis::Z => v.z,
    }
}

/// The shape of the positions: moved so that the smallest coordinate along each axis is
/// 0, then sorted.
pub fn normalized_orientation(positions: &[Vec3i]) -> (r: Vec<Vec3i>)
    requires
        shift_fits(positions@),
    ensures
        r@ == normalize(positions@),
{
    let min_x = min_coordinate(positions, Axis::X);
    let min_y = min_coordinate(positions, Axis::Y);
    let min_z = min_coordinate(positions, Axis::Z);
    let mut shifted: Vec<Vec3i> = Vec::new();
    let mut i: usize = 0;
    while i < positions.len()
        invariant
            i <= positions@.len(),
            shift_fits(positions@),
            min_x == min_coord(positions@, Axis::X),
            min_y == min_coord(positions@, Axis::Y),
            min_z == min_coord(positions@, Axis::Z),
            shifted@ == shifted_to_origin(positions@).take(i as int),
        decreases positions.len() - i,
    {
        let p = positions[i];
        assert(sub_fits(positions@[i as int], corner(positions@)));
        shifted.push(Vec3i { x: p.x - min_x, y: p.y - min_y, z: p.z - min_z });
        assert(shifted@ =~= shifted_to_origin(positions@).take(i + 1));
        i = i + 1;
    }
    assert(shifted@ =~= shifted_to_origin(positions@));
    sorted_orientation(shifted)
}

/// The figure's block offsets from its pivot, sorted.
pub fn orientation_signature(figure: &Figure) -> (r: Vec<Vec3i>)
    requires
        offsets_fit(figure@),
    ensures
        r@ == sort_positions(offsets(figure@)),
{
    sorted_orientation(orientation_offsets(figure))
}

/// The figure's block offsets from its pivot, in block order.
fn orientation_offsets(figure: &Figure) -> (r: Vec<Vec3i>)
    requires
        offsets_fit(figure@),
    ensures
        r@ == offsets(figure@),
{
    let mut local: Vec<Vec3i> = Vec::new();
    let mut i: usize = 0;
    while i < figure.blocks.len()
        invariant
            i <= figure.blocks@.len(),
            offsets_fit(figure@),
            local@ == offsets(figure@).take(i as int),
        decreases figure.blocks.len() - i,
    {
        let b = figure.blocks[i];
        assert(sub_fits(figure@.blocks[i as int].position, figure.pivot));
        local.push(b.position.relative_to(figure.pivot));
        assert(local@ =~= offsets(figure@).take(i + 1));
        i = i + 1;
    }
    assert(local@ =~= offsets(figure@));
    local
}

/// An upper bound on the number of steps the orientation search takes.
pub const ORIENTATION_SEARCH_STEPS: usize = 80;

/// The contents of a list of orientations.
pub open spec fn orientation_views(list: Seq<Vec<Vec3i>>) -> Seq<Seq<Vec3i>> {
    list.map_values(|o: Vec<Vec3i>| o@)
}

/// Every coordinate of every position lies in `-2..=2`.
pub open spec fn all_small(s: Seq<Vec3i>) -> bool {
    forall|i: int| 0 <= i < s.len() ==> small(#[trigger] s[i])
}

/// The orientation turned a quarter turn around `axis`, sorted again.
pub open spec fn rotated_orientation(o: Seq<Vec3i>, axis: Axis) -> Seq<Vec3i> {
    sort_positions(o.map_values(|p: Vec3i| rotate(p, axis)))
}

/// Some orientation in the list has the given shape.
pub open spec fn shape_known(list: Seq<Seq<Vec3i>>, shape: Seq<Vec3i>) -> bool {
    exists|i: int| 0 <= i < list.len() && normalize(#[trigger] list[i]) == shape
}

/// The list, with `o` turned around `axis` added at the end unless its shape is already
/// in the list.
pub open spec fn explore_axis(list: Seq<Seq<Vec3i>>, o: Seq<Vec3i>, axis: Axis) -> Seq<Seq<Vec3i>> {
    let r = rotated_orientation(o, axis);
    if shape_known(list, normalize(r)) {
        list
    } else {
        list.push(r)
    }
}

/// The list after exploring the turns of its entry `next` around `x`, `y` and `z`.
pub open spec fn explore(list: Seq<Seq<Vec3i>>, next: int) -> Seq<Seq<Vec3i>> {
    let o = list[next];
    explore_axis(explore_axis(explore_axis(list, o, Axis::X), o, Axis::Y), o, Axis::Z)
}

/// A breadth-first search over quarter turns: explores the entries from `next` on, for at
/// most `steps` entries.
pub open spec fn orientation_search(list: Seq<Seq<Vec3i>>, next: nat, steps: nat) -> Seq<Seq<Vec3i>>
    decreases steps,
{
    if steps == 0 || next >= list.len() {
        list
    } else {
        orientation_search(explore(list, next as int), next + 1, (steps - 1) as nat)
    }
}

/// The sorted offsets of a figure of `kind` as it spawns.
pub open spec fn spawn_orientation(kind: FigureKind) -> Seq<Vec3i> {
    sort_positions(shape_offsets(kind))
}

/// The orientations of a figure of `kind`, one per shape, in the order the search from the
/// spawn orientation finds them.
pub open spec fn figure_orientations(kind: FigureKind) -> Seq<Seq<Vec3i>> {
    orientation_search(seq![spawn_orientation(kind)], 0, ORIENTATION_SEARCH_STEPS as nat)
}

/// The list holds no two orientations of the same shape.
pub open spec fn distinct_shapes(list: Seq<Seq<Vec3i>>) -> bool {
    forall|i: int, j: int|
        0 <= i < list.len() && 0 <= j < list.len() && i != j ==> normalize(#[trigger] list[i])
            != normalize(#[trigger] list[j])
}

/// The positions the map sends the base positions to.
pub open spec fn map_image(m: AxisMap, base: Seq<Vec3i>) -> Seq<Vec3i> {
    base.map_values(|v: Vec3i| apply_map(m, v))
}

/// Small positions can be moved against the origin without leaving `i32`.
pub proof fn lemma_small_shift_fits(s: Seq<Vec3i>)
    requires
        all_small(s),
    ensures
        shift_fits(s),
{
    if s.len() > 0 {
        lemma_min_coord(s, Axis::X);
        lemma_min_coord(s, Axis::Y);
        lemma_min_coord(s, Axis::Z);
        let kx = choose|k: int| 0 <= k < s.len() && coord(#[trigger] s[k], Axis::X) == min_coord(s, Axis::X);
        let ky = choose|k: int| 0 <= k < s.len() && coord(#[trigger] s[k], Axis::Y) == min_coord(s, Axis::Y);
        let kz = choose|k: int| 0 <= k < s.len() && coord(#[trigger] s[k], Axis::Z) == min_coord(s, Axis::Z);
        assert(small(s[kx]) && small(s[ky]) && small(s[kz]));
        assert forall|i: int| 0 <= i < s.len() implies sub_fits(#[trigger] s[i], corner(s)) by {
            assert(small(s[i]));
        }
    }
}

/// Applying a function to every element of two arrangements of the same positions gives
/// two arrangements of the same images.
pub proof fn lemma_map_multiset(a: Seq<Vec3i>, b: Seq<Vec3i>, f: spec_fn(Vec3i) -> Vec3i)
    requires
        a.to_multiset() == b.to_multiset(),
    ensures
        a.map_values(f).to_multiset() == b.map_values(f).to_multiset(),
    decreases a.len(),
{
    if a.len() == 0 {
        assert(a.to_multiset().len() == a.len());
        assert(b.to_multiset().len() == b.len());
        assert(b.len() == 0);
        assert(a.map_values(f) =~= b.map_values(f));
    } else {
        let x = a.last();
        let a1 = a.drop_last();
        assert(a =~= a1.push(x));
        assert(a.to_multiset().contains(x));
        assert(b.to_multiset().contains(x));
        assert(b.contains(x));
        let j = choose|j: int| 0 <= j < b.len() && b[j] == x;
        let b1 = b.remove(j);
        vstd::seq_lib::to_multiset_remove(b, j);
        vstd::seq_lib::to_multiset_build(a1, x);
        assert(a1.to_multiset() =~= b1.to_multiset());
        lemma_map_multiset(a1, b1, f);
        assert(a.map_values(f) =~= a1.map_values(f).push(f(x)));
        assert(b.map_values(f) =~= b1.map_values(f).insert(j, f(x)));
        vstd::seq_lib::to_multiset_build(a1.map_values(f), f(x));
        vstd::seq_lib::to_multiset_insert(b1.map_values(f), j, f(x));
    }
}

/// Turning the sorted image of a map is sorting the image of the map followed by the turn.
pub proof fn lemma_image_rotation(m: AxisMap, base: Seq<Vec3i>, axis: Axis)
    requires
        map_wf(m),
        all_small(base),
    ensures
        rotated_orientation(sort_positions(map_image(m, base)), axis) == sort_positions(
            map_image(then_turn(m, axis), base),
        ),
        map_wf(then_turn(m, axis)),
{
    let img = map_image(m, base);
    let f = |p: Vec3i| rotate(p, axis);
    lemma_sort_positions(img);
    lemma_map_multiset(sort_positions(img), img, f);
    assert(img.map_values(f) =~= map_image(then_turn(m, axis), base)) by {
        assert forall|i: int| 0 <= i < base.len() implies #[trigger] img.map_values(f)[i] == map_image(then_turn(m, axis), base)[i] by {
            lemma_then_turn(m, axis, base[i]);
        }
    }
    lemma_sort_depends_on_multiset(sort_positions(img).map_values(f), img.map_values(f));
    lemma_then_turn(m, axis, Vec3i { x: 0, y: 0, z: 0 });
}

/// The sorted image of a map of small positions is small.
pub proof fn lemma_image_small(m: AxisMap, base: Seq<Vec3i>)
    requires
        map_wf(m),
        all_small(base),
    ensures
        all_small(sort_positions(map_image(m, base))),
        sort_positions(map_image(m, base)).len() == base.len(),
{
    let img = map_image(m, base);
    lemma_sort_positions(img);
    assert forall|i: int| 0 <= i < sort_positions(img).len() implies small(#[trigger] sort_positions(img)[i]) by {
        assert(sort_positions(img).contains(sort_positions(img)[i]));
        let k = choose|k: int| 0 <= k < img.len() && img[k] == sort_positions(img)[i];
        lemma_apply_small(m, base[k]);
    }
}

/// The spawn offsets of every kind are pairwise different.
pub proof fn lemma_shape_offsets_distinct(kind: FigureKind)
    ensures
        shape_offsets(kind).no_duplicates(),
        all_small(shape_offsets(kind)),
        shape_offsets(kind).len() == 4,
{
    let s = shape_offsets(kind);
    assert forall|i: int, j: int| 0 <= i < s.len() && 0 <= j < s.len() && i != j implies s[i] != s[j] by {
        assert(s.len() == 4);
    }
}

/// The sorted image of pairwise different small positions under an axis map has no
/// position twice.
pub proof fn lemma_image_no_duplicates(m: AxisMap, base: Seq<Vec3i>)
    requires
        map_wf(m),
        all_small(base),
        base.no_duplicates(),
    ensures
        sort_positions(map_image(m, base)).no_duplicates(),
{
    let img = map_image(m, base);
    assert(img.no_duplicates()) by {
        assert forall|i: int, j: int| 0 <= i < img.len() && 0 <= j < img.len() && i != j implies img[i] != img[j] by {
            if img[i] == img[j] {
                lemma_apply_injective(m, base[i], base[j]);
            }
        }
    }
    img.lemma_multiset_has_no_duplicates();
    lemma_sort_positions(img);
    sort_positions(img).lemma_multiset_has_no_duplicates_conv();
}

/// A list of orientations, each the sorted image of base positions under an axis map, with
/// no two of the same shape, holds at most 72 orientations.
pub proof fn lemma_orientation_count(list: Seq<Seq<Vec3i>>, maps: Seq<AxisMap>, base: Seq<Vec3i>)
    requires
        maps.len() == list.len(),
        forall|k: int| 0 <= k < list.len() ==> map_wf(#[trigger] maps[k]),
        forall|k: int| 0 <= k < list.len() ==> #[trigger] list[k] == sort_positions(map_image(maps[k], base)),
        distinct_shapes(list),
    ensures
        list.len() <= 72,
{
    let codes = maps.map_values(|m: AxisMap| map_code(m));
    assert(codes.no_duplicates()) by {
        assert forall|i: int, j: int| 0 <= i < codes.len() && 0 <= j < codes.len() && i != j implies codes[i] != codes[j] by {
            if codes[i] == codes[j] {
                lemma_map_code_injective(maps[i], maps[j]);
                assert(list[i] == list[j]);
            }
        }
    }
    codes.unique_seq_to_set();
    let range = vstd::set_lib::set_int_range(0, 72);
    vstd::set_lib::lemma_int_range(0, 72);
    assert(codes.to_set().subset_of(range)) by {
        assert forall|c: int| codes.to_set().contains(c) implies range.contains(c) by {
            let k = choose|k: int| 0 <= k < codes.len() && codes[k] == c;
            lemma_map_code_range(maps[k]);
        }
    }
    vstd::set_lib::lemma_len_subset(codes.to_set(), range);
}

/// A copy of the positions.
fn copy_positions(v: &Vec<Vec3i>) -> (r: Vec<Vec3i>)
    ensures
        r@ == v@,
{
    let mut r: Vec<Vec3i> = Vec::new();
    let mut i: usize = 0;
    while i < v.len()
        invariant
            i <= v@.len(),
            r@ == v@.take(i as int),
        decreases v.len() - i,
    {
        r.push(v[i]);
        assert(r@ =~= v@.take(i + 1));
        i = i + 1;
    }
    assert(r@ =~= v@);
    r
}

/// Whether the two lists hold the same positions in the same order.
pub fn same_positions(a: &Vec<Vec3i>, b: &Vec<Vec3i>) -> (r: bool)
    ensures
        r == (a@ == b@),
{
    if a.len() != b.len() {
        return false;
    }
    let mut i: usize = 0;
    while i < a.len()
        invariant
            i <= a@.len(),
            a@.len() == b@.len(),
            forall|j: int| 0 <= j < i ==> a@[j] == b@[j],
        decreases a.len() - i,
    {
        if a[i] != b[i] {
            return false;
        }
        i = i + 1;
    }
    assert(a@ =~= b@);
    true
}

/// Every position turned a quarter turn around `axis`.
fn rotated_positions(v: &Vec<Vec3i>, axis: Axis) -> (r: Vec<Vec3i>)
    requires
        all_small(v@),
    ensures
        r@ == v@.map_values(|p: Vec3i| rotate(p, axis)),
{
    let mut r: Vec<Vec3i> = Vec::new();
    let mut i: usize = 0;
    while i < v.len()
        invariant
            i <= v@.len(),
            all_small(v@),
            r@ == v@.map_values(|p: Vec3i| rotate(p, axis)).take(i as int),
        decreases v.len() - i,
    {
        assert(small(v@[i as int]));
        r.push(v[i].rotated_90(axis));
        assert(r@ =~= v@.map_values(|p: Vec3i| rotate(p, axis)).take(i + 1));
        i = i + 1;
    }
    assert(r@ =~= v@.map_values(|p: Vec3i| rotate(p, axis)));
    r
}

/// Whether some orientation in the list has the given shape.
fn shape_is_known(list: &Vec<Vec<Vec3i>>, shape: &Vec<Vec3i>) -> (r: bool)
    requires
        forall|k: int| 0 <= k < list@.len() ==> all_small(#[trigger] list@[k]@),
    ensures
        r == shape_known(orientation_views(list@), shape@),
{
    let ghost views = orientation_views(list@);
    let mut i: usize = 0;
    while i < list.len()
        invariant
            views == orientation_views(list@),
            forall|k: int| 0 <= k < list@.len() ==> all_small(#[trigger] list@[k]@),
            i <= list@.len(),
            forall|k: int| 0 <= k < i ==> normalize(#[trigger] views[k]) != shape@,
        decreases list.len() - i,
    {
        proof {
            lemma_small_shift_fits(list@[i as int]@);
        }
        let candidate = normalized_orientation(list[i].as_slice());
        if same_positions(&candidate, shape) {
            assert(normalize(views[i as int]) == shape@);
            return true;
        }
        i = i + 1;
    }
    false
}

/// Adds `current` turned around `axis` to the list unless its shape is already there.
fn explore_axis_exec(list: &mut Vec<Vec<Vec3i>>, current: &Vec<Vec3i>, axis: Axis)
    requires
        forall|k: int| 0 <= k < old(list)@.len() ==> all_small(#[trigger] old(list)@[k]@),
        all_small(current@),
        all_small(rotated_orientation(current@, axis)),
    ensures
        orientation_views(final(list)@) == explore_axis(orientation_views(old(list)@), current@, axis),
        forall|k: int| 0 <= k < final(list)@.len() ==> all_small(#[trigger] final(list)@[k]@),
{
    let turned = rotated_positions(current, axis);
    let rotated = sorted_orientation(turned);
    proof {
        lemma_small_shift_fits(rotated@);
    }
    let rotated_shape = normalized_orientation(rotated.as_slice());
    let already_known = shape_is_known(list, &rotated_shape);
    if !already_known {
        let ghost before = list@;
        list.push(rotated);
        assert(orientation_views(list@) =~= orientation_views(before).push(rotated_orientation(current@, axis)));
    }
}

/// The orientations of a figure of `kind`: starting from its spawn orientation, every
/// orientation reached by quarter turns around `x`, `y` and `z`, one per shape, in the
/// order a breadth-first search finds them.
pub fn unique_figure_orientations(kind: FigureKind) -> (r: Vec<Vec<Vec3i>>)
    ensures
        orientation_views(r@) == figure_orientations(kind),
        1 <= r@.len() <= 72,
        r@[0]@ == spawn_orientation(kind),
        distinct_shapes(orientation_views(r@)),
        forall|k: int, axis: Axis| 0 <= k < r@.len() ==> shape_known(
            orientation_views(r@),
            normalize(#[trigger] rotated_orientation(r@[k]@, axis)),
        ),
        forall|k: int| 0 <= k < r@.len() ==> all_small(#[trigger] r@[k]@) && r@[k]@.len() == shape_offsets(kind).len(),
        forall|k: int| 0 <= k < r@.len() ==> (#[trigger] r@[k]@).no_duplicates(),
{
    let ghost base = shape_offsets(kind);
    let initial_figure = Figure::new(kind, Color::Cyan, Material::Metal);
    proof {
        lemma_shape_offsets_distinct(kind);
        assert(all_small(base));
        assert(offsets(initial_figure@) =~= base);
        assert(offsets_fit(initial_figure@));
        lemma_identity_map(Vec3i { x: 0, y: 0, z: 0 });
        assert(map_image(identity_map(), base) =~= base) by {
            assert forall|i: int| 0 <= i < base.len() implies #[trigger] map_image(identity_map(), base)[i] == base[i] by {
                lemma_identity_map(base[i]);
            }
        }
        lemma_image_small(identity_map(), base);
        lemma_image_no_duplicates(identity_map(), base);
    }
    let first = orientation_signature(&initial_figure);
    let mut orientations: Vec<Vec<Vec3i>> = Vec::new();
    orientations.push(first);
    let ghost mut maps: Seq<AxisMap> = seq![identity_map()];
    let mut next: usize = 0;
    proof {
        assert(orientation_views(orientations@) =~= seq![spawn_orientation(kind)]);
    }
    while next < orientations.len()
        invariant
            base == shape_offsets(kind),
            all_small(base),
            maps.len() == orientations@.len(),
            1 <= orientations@.len() <= 72,
            next <= orientations@.len(),
            orientations@[0]@ == spawn_orientation(kind),
            forall|k: int| 0 <= k < maps.len() ==> map_wf(#[trigger] maps[k]),
            forall|k: int| 0 <= k < maps.len() ==> #[trigger] orientation_views(orientations@)[k] == sort_positions(map_image(maps[k], base)),
            forall|k: int| 0 <= k < orientations@.len() ==> all_small(#[trigger] orientations@[k]@) && orientations@[k]@.len() == base.len(),
            forall|k: int| 0 <= k < orientations@.len() ==> (#[trigger] orientations@[k]@).no_duplicates(),
            base.no_duplicates(),
            distinct_shapes(orientation_views(orientations@)),
            orientation_search(orientation_views(orientations@), next as nat, (ORIENTATION_SEARCH_STEPS - next) as nat) == figure_orientations(kind),
            forall|k: int, axis: Axis| 0 <= k < next ==> shape_known(
                orientation_views(orientations@),
                normalize(#[trigger] rotated_orientation(orientations@[k]@, axis)),
            ),
        decreases 144 - orientations@.len() - next,
    {
        let current = copy_positions(&orientations[next]);
        let ghost views0 = orientation_views(orientations@);
        let ghost m = maps[next as int];
        assert(views0[next as int] == current@);
        proof {
            lemma_image_rotation(m, base, Axis::X);
            lemma_image_rotation(m, base, Axis::Y);
            lemma_image_rotation(m, base, Axis::Z);
            lemma_image_small(then_turn(m, Axis::X), base);
            lemma_image_small(then_turn(m, Axis::Y), base);
            lemma_image_small(then_turn(m, Axis::Z), base);
        }
        explore_axis_exec(&mut orientations, &current, Axis::X);
        proof {
            grow_invariants(views0, orientation_views(orientations@), maps, base, current@, Axis::X, m);
            if orientations@.len() > maps.len() {
                maps = maps.push(then_turn(m, Axis::X));
            }
        }
        let ghost views1 = orientation_views(orientations@);
        explore_axis_exec(&mut orientations, &current, Axis::Y);
        proof {
            grow_invariants(views1, orientation_views(orientations@), maps, base, current@, Axis::Y, m);
            if orientations@.len() > maps.len() {
                maps = maps.push(then_turn(m, Axis::Y));
            }
        }
        let ghost views2 = orientation_views(orientations@);
        explore_axis_exec(&mut orientations, &current, Axis::Z);
        proof {
            grow_invariants(views2, orientation_views(orientations@), maps, base, current@, Axis::Z, m);
            if orientations@.len() > maps.len() {
                maps = maps.push(then_turn(m, Axis::Z));
            }
            let views3 = orientation_views(orientations@);
            assert(views3 == explore(views0, next as int));
            assert(ORIENTATION_SEARCH_STEPS - next > 0);
            lemma_orientation_count(views3, maps, base);
            lemma_explore_axis_knows(views0, current@, Axis::X);
            lemma_explore_axis_knows(views1, current@, Axis::Y);
            lemma_explore_axis_knows(views2, current@, Axis::Z);
            assert(views3[0] == views0[0]);
            assert(orientations@[0]@ == views3[0]);
            assert forall|k: int| 0 <= k < orientations@.len() implies all_small(#[trigger] orientations@[k]@) && orientations@[k]@.len() == base.len() by {
                assert(orientations@[k]@ == views3[k]);
                lemma_image_small(maps[k], base);
            }
            assert forall|k: int| 0 <= k < orientations@.len() implies (#[trigger] orientations@[k]@).no_duplicates() by {
                assert(orientations@[k]@ == views3[k]);
                lemma_image_no_duplicates(maps[k], base);
            }
            assert forall|k: int, axis: Axis| 0 <= k < next + 1 implies shape_known(
                views3,
                normalize(#[trigger] rotated_orientation(orientations@[k]@, axis)),
            ) by {
                assert(orientations@[k]@ == views3[k]);
                if k < next {
                    assert(shape_known(views0, normalize(rotated_orientation(orientations@[k]@, axis))));
                    lemma_known_grows(views0, views3, normalize(rotated_orientation(orientations@[k]@, axis)));
                } else {
                    lemma_explored_known(views0, views1, views2, views3, current@, axis);
                }
            }
        }
        next = next + 1;
    }
    proof {
        assert(orientation_views(orientations@)[0] == orientations@[0]@);
    }
    orientations
}

/// Every orientation of a kind is small, has as many offsets as the spawn shape, and no
/// offset twice.
pub proof fn lemma_figure_orientations(kind: FigureKind)
    ensures
        figure_orientations(kind).len() >= 1,
        forall|k: int| 0 <= k < figure_orientations(kind).len() ==> {
            &&& all_small(#[trigger] figure_orientations(kind)[k])
            &&& figure_orientations(kind)[k].len() == shape_offsets(kind).len()
            &&& figure_orientations(kind)[k].no_duplicates()
            &&& is_sorted(figure_orientations(kind)[k])
        },
        distinct_shapes(figure_orientations(kind)),
        figure_orientations(kind)[0] == spawn_orientation(kind),
{
    let base = shape_offsets(kind);
    lemma_shape_offsets_distinct(kind);
    lemma_identity_map(Vec3i { x: 0, y: 0, z: 0 });
    assert(map_image(identity_map(), base) =~= base) by {
        assert forall|i: int| 0 <= i < base.len() implies #[trigger] map_image(identity_map(), base)[i] == base[i] by {
            lemma_identity_map(base[i]);
        }
    }
    let list = seq![spawn_orientation(kind)];
    let maps = seq![identity_map()];
    assert(list[0] == sort_positions(map_image(maps[0], base)));
    lemma_search_props(list, maps, 0, ORIENTATION_SEARCH_STEPS as nat, base);
}

/// The search keeps every entry a sorted image of the base under an axis map.
proof fn lemma_search_props(list: Seq<Seq<Vec3i>>, maps: Seq<AxisMap>, next: nat, steps: nat, base: Seq<Vec3i>)
    requires
        maps.len() == list.len(),
        list.len() >= 1,
        forall|k: int| 0 <= k < maps.len() ==> map_wf(#[trigger] maps[k]),
        forall|k: int| 0 <= k < maps.len() ==> #[trigger] list[k] == sort_positions(map_image(maps[k], base)),
        distinct_shapes(list),
        all_small(base),
        base.no_duplicates(),
    ensures
        orientation_search(list, next, steps).len() >= 1,
        forall|k: int| 0 <= k < orientation_search(list, next, steps).len() ==> {
            &&& all_small(#[trigger] orientation_search(list, next, steps)[k])
            &&& orientation_search(list, next, steps)[k].len() == base.len()
            &&& orientation_search(list, next, steps)[k].no_duplicates()
            &&& is_sorted(orientation_search(list, next, steps)[k])
        },
        distinct_shapes(orientation_search(list, next, steps)),
        orientation_search(list, next, steps)[0] == list[0],
    decreases steps,
{
    if steps == 0 || next >= list.len() {
        assert forall|k: int| 0 <= k < list.len() implies {
            &&& all_small(#[trigger] list[k])
            &&& list[k].len() == base.len()
            &&& list[k].no_duplicates()
            &&& is_sorted(list[k])
        } by {
            lemma_image_small(maps[k], base);
            lemma_image_no_duplicates(maps[k], base);
            lemma_sort_positions(map_image(maps[k], base));
        }
    } else {
        let m = maps[next as int];
        let o = list[next as int];
        let v1 = explore_axis(list, o, Axis::X);
        grow_invariants(list, v1, maps, base, o, Axis::X, m);
        let maps1 = if v1.len() > list.len() { maps.push(then_turn(m, Axis::X)) } else { maps };
        let v2 = explore_axis(v1, o, Axis::Y);
        grow_invariants(v1, v2, maps1, base, o, Axis::Y, m);
        let maps2 = if v2.len() > v1.len() { maps1.push(then_turn(m, Axis::Y)) } else { maps1 };
        let v3 = explore_axis(v2, o, Axis::Z);
        grow_invariants(v2, v3, maps2, base, o, Axis::Z, m);
        let maps3 = if v3.len() > v2.len() { maps2.push(then_turn(m, Axis::Z)) } else { maps2 };
        assert(v3 == explore(list, next as int));
        lemma_explore_axis_knows(list, o, Axis::X);
        lemma_explore_axis_knows(v1, o, Axis::Y);
        lemma_explore_axis_knows(v2, o, Axis::Z);
        lemma_search_props(v3, maps3, next + 1, (steps - 1) as nat, base);
    }
}

/// Exploring one axis keeps the list's invariants: every entry is a sorted image of the
/// base under an axis map, all small, with no two of the same shape.
proof fn grow_invariants(
    before: Seq<Seq<Vec3i>>,
    after: Seq<Seq<Vec3i>>,
    maps: Seq<AxisMap>,
    base: Seq<Vec3i>,
    current: Seq<Vec3i>,
    axis: Axis,
    m: AxisMap,
)
    requires
        after == explore_axis(before, current, axis),
        maps.len() == before.len(),
        map_wf(m),
        all_small(base),
        current == sort_positions(map_image(m, base)),
        forall|k: int| 0 <= k < maps.len() ==> map_wf(#[trigger] maps[k]),
        forall|k: int| 0 <= k < maps.len() ==> #[trigger] before[k] == sort_positions(map_image(maps[k], base)),
        distinct_shapes(before),
    ensures
        after.len() == before.len() || after.len() == before.len() + 1,
        after.len() == before.len() ==> after == before,
        after.len() == before.len() + 1 ==> after == before.push(sort_positions(map_image(then_turn(m, axis), base))),
        ({
            let maps2 = if after.len() > before.len() { maps.push(then_turn(m, axis)) } else { maps };
            &&& forall|k: int| 0 <= k < maps2.len() ==> map_wf(#[trigger] maps2[k])
            &&& forall|k: int| 0 <= k < maps2.len() ==> #[trigger] after[k] == sort_positions(map_image(maps2[k], base))
        }),
        distinct_shapes(after),
{
    lemma_image_rotation(m, base, axis);
    let r = rotated_orientation(current, axis);
    if !shape_known(before, normalize(r)) {
        let maps2 = maps.push(then_turn(m, axis));
        assert forall|k: int| 0 <= k < maps2.len() implies #[trigger] after[k] == sort_positions(map_image(maps2[k], base)) by {
            if k < maps.len() {
                assert(after[k] == before[k]);
            }
        }
        assert forall|i: int, j: int|
            0 <= i < after.len() && 0 <= j < after.len() && i != j implies normalize(#[trigger] after[i])
                != normalize(#[trigger] after[j]) by {
            if i < before.len() && j < before.len() {
                assert(after[i] == before[i] && after[j] == before[j]);
            } else if i < before.len() {
                assert(after[i] == before[i]);
                assert(after[j] == r);
            } else {
                assert(after[j] == before[j]);
                assert(after[i] == r);
            }
        }
    }
}

/// A known shape stays known when the list grows at the end.
proof fn lemma_known_grows(before: Seq<Seq<Vec3i>>, after: Seq<Seq<Vec3i>>, shape: Seq<Vec3i>)
    requires
        shape_known(before, shape),
        before.len() <= after.len(),
        forall|k: int| 0 <= k < before.len() ==> #[trigger] after[k] == before[k],
    ensures
        shape_known(after, shape),
{
    let i = choose|i: int| 0 <= i < before.len() && normalize(#[trigger] before[i]) == shape;
    assert(after[i] == before[i]);
}

/// After exploring all three axes for `current`, the shape of each of its turns is known.
proof fn lemma_explored_known(
    v0: Seq<Seq<Vec3i>>,
    v1: Seq<Seq<Vec3i>>,
    v2: Seq<Seq<Vec3i>>,
    v3: Seq<Seq<Vec3i>>,
    current: Seq<Vec3i>,
    axis: Axis,
)
    requires
        v1 == explore_axis(v0, current, Axis::X),
        v2 == explore_axis(v1, current, Axis::Y),
        v3 == explore_axis(v2, current, Axis::Z),
    ensures
        shape_known(v3, normalize(rotated_orientation(current, axis))),
{
    lemma_explore_axis_knows(v0, current, Axis::X);
    lemma_explore_axis_knows(v1, current, Axis::Y);
    lemma_explore_axis_knows(v2, current, Axis::Z);
    let s = normalize(rotated_orientation(current, axis));
    match axis {
        Axis::X => {
            lemma_known_grows(v1, v2, s);
            lemma_known_grows(v2, v3, s);
        },
        Axis::Y => {
            lemma_known_grows(v2, v3, s);
        },
        Axis::Z => {},
    }
}

/// Exploring an axis makes the shape of that turn known and keeps earlier entries.
proof fn lemma_explore_axis_knows(list: Seq<Seq<Vec3i>>, o: Seq<Vec3i>, axis: Axis)
    ensures
        shape_known(explore_axis(list, o, axis), normalize(rotated_orientation(o, axis))),
        list.len() <= explore_axis(list, o, axis).len(),
        forall|k: int| 0 <= k < list.len() ==> #[trigger] explore_axis(list, o, axis)[k] == list[k],
{
    let r = rotated_orientation(o, axis);
    if !shape_known(list, normalize(r)) {
        let after = list.push(r);
        assert(after[list.len() as int] == r);
        assert(normalize(after[list.len() as int]) == normalize(r));
    }
}

} // verus!

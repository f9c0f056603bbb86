//! Properties of the game that span several operations.
use vstd::prelude::*;

use crate::bag::{deal};
use crate::figure::{blocks_at, can_turn_n, default_pivot, rotated_block, shape_offsets, turned_figure_n, Color, FigureKind, FigureModel, Material};
use crate::geometry::{fits_i32, opposite, quarter_turns, RotationDirection, lemma_four_quarter_turns_restore, rotate, rotate_n, turnable, vadd, vsub, Axis, Vec3i};
use crate::settings::{block_set_kinds, flat_kinds, gravity_millis, next_block_set, next_pit_size, previous_block_set, previous_pit_size, three_dimensional_kinds, BlockSet, PitSize, MAX_LEVEL, MIN_LEVEL};
use crate::figure::Block;
use crate::well::{count_occupied, count_occupied_planes, all_occupied, block_in_plane, clear_scan, empty_planes, empty_slots, renumber, renumber_all, Well, WellView};
use crate::game::{figure_ok, move_step, GameView};
use crate::moves::{next_orientation_from, lowest_z, positions_of, current_orientation_index, entrance_kick, first_shape_index, kicked_figure, next_orientation, orientation_candidate, with_orientation};
use crate::orientation::{coord, min_coord, distinct_shapes, figure_orientations, lemma_figure_orientations, lemma_sorted_is_sort, normalize, offsets, sort_positions};

verus! {

broadcast use vstd::seq_lib::group_to_multiset_ensures;

/// The offset of every block from the pivot never comes near `i32::MIN`, and the pivot plus
/// any turn of such an offset stays in `i32`: the figure can be turned any number of times.
pub open spec fn freely_turnable(f: FigureModel) -> bool {
    forall|i: int| 0 <= i < f.blocks.len() ==> {
        let d = vsub(#[trigger] f.blocks[i].position, f.pivot);
        &&& crate::geometry::sub_fits(f.blocks[i].position, f.pivot)
        &&& -1_000_000 <= d.x <= 1_000_000
        &&& -1_000_000 <= d.y <= 1_000_000
        &&& -1_000_000 <= d.z <= 1_000_000
        &&& -1_000_000 <= f.pivot.x <= 1_000_000
        &&& -1_000_000 <= f.pivot.y <= 1_000_000
        &&& -1_000_000 <= f.pivot.z <= 1_000_000
    }
}

/// Turning a freely turnable figure `n` times places every block at the pivot plus the
/// offset turned `n` times, and keeps it freely turnable.
proof fn lemma_turned_figure_n_blocks(f: FigureModel, axis: Axis, n: nat)
    requires
        freely_turnable(f),
        n <= 4,
    ensures
        can_turn_n(f, axis, n),
        turned_figure_n(f, axis, n).kind == f.kind,
        turned_figure_n(f, axis, n).pivot == f.pivot,
        turned_figure_n(f, axis, n).blocks.len() == f.blocks.len(),
        forall|i: int| 0 <= i < f.blocks.len() ==> (#[trigger] turned_figure_n(f, axis, n).blocks[i]) == (crate::figure::Block {
            position: vadd(f.pivot, rotate_n(vsub(f.blocks[i].position, f.pivot), axis, n)),
            ..f.blocks[i]
        }),
    decreases n,
{
    if n == 0 {
        assert forall|i: int| 0 <= i < f.blocks.len() implies (#[trigger] turned_figure_n(f, axis, n).blocks[i]) == (crate::figure::Block {
            position: vadd(f.pivot, rotate_n(vsub(f.blocks[i].position, f.pivot), axis, n)),
            ..f.blocks[i]
        }) by {
            assert(crate::geometry::sub_fits(f.blocks[i].position, f.pivot));
        }
    } else {
        lemma_turned_figure_n_blocks(f, axis, (n - 1) as nat);
        let g = turned_figure_n(f, axis, (n - 1) as nat);
        assert forall|i: int| 0 <= i < g.blocks.len() implies {
            let p = #[trigger] g.blocks[i].position;
            &&& crate::geometry::sub_fits(p, g.pivot)
            &&& crate::geometry::rotation_fits(vsub(p, g.pivot), axis)
            &&& crate::geometry::add_fits(g.pivot, rotate(vsub(p, g.pivot), axis))
        } by {
            let d = vsub(f.blocks[i].position, f.pivot);
            assert(crate::geometry::sub_fits(f.blocks[i].position, f.pivot));
            lemma_rotate_n_bounded(d, axis, (n - 1) as nat);
            lemma_rotate_n_bounded(d, axis, n);
        }
        assert forall|i: int| 0 <= i < f.blocks.len() implies (#[trigger] turned_figure_n(f, axis, n).blocks[i]) == (crate::figure::Block {
            position: vadd(f.pivot, rotate_n(vsub(f.blocks[i].position, f.pivot), axis, n)),
            ..f.blocks[i]
        }) by {
            let d = vsub(f.blocks[i].position, f.pivot);
            assert(crate::geometry::sub_fits(f.blocks[i].position, f.pivot));
            lemma_rotate_n_bounded(d, axis, (n - 1) as nat);
            assert(turned_figure_n(f, axis, n).blocks[i] == rotated_block(g.blocks[i], g.pivot, axis));
        }
    }
}

/// Quarter turns keep every coordinate of an offset within the same bound.
proof fn lemma_rotate_n_bounded(d: Vec3i, axis: Axis, n: nat)
    requires
        -1_000_000 <= d.x <= 1_000_000,
        -1_000_000 <= d.y <= 1_000_000,
        -1_000_000 <= d.z <= 1_000_000,
    ensures
        -1_000_000 <= rotate_n(d, axis, n).x <= 1_000_000,
        -1_000_000 <= rotate_n(d, axis, n).y <= 1_000_000,
        -1_000_000 <= rotate_n(d, axis, n).z <= 1_000_000,
    decreases n,
{
    if n > 0 {
        lemma_rotate_n_bounded(d, axis, (n - 1) as nat);
    }
}

/// Four quarter turns around the same axis bring a figure back to where it was.
pub proof fn lemma_four_turns_restore_figure(f: FigureModel, axis: Axis)
    requires
        freely_turnable(f),
    ensures
        can_turn_n(f, axis, 4),
        turned_figure_n(f, axis, 4) == f,
{
    lemma_turned_figure_n_blocks(f, axis, 4);
    let g = turned_figure_n(f, axis, 4);
    assert forall|i: int| 0 <= i < f.blocks.len() implies #[trigger] g.blocks[i] == f.blocks[i] by {
        let d = vsub(f.blocks[i].position, f.pivot);
        assert(crate::geometry::sub_fits(f.blocks[i].position, f.pivot));
        lemma_four_quarter_turns_restore(d, axis);
    }
    assert(g.blocks =~= f.blocks);
}

/// A positive quarter turn followed by a negative one, or the other way round, brings a
/// figure back to where it was.
pub proof fn lemma_opposite_turns_restore_figure(f: FigureModel, axis: Axis)
    requires
        freely_turnable(f),
    ensures
        turned_figure_n(turned_figure_n(f, axis, 1), axis, 3) == f,
        turned_figure_n(turned_figure_n(f, axis, 3), axis, 1) == f,
{
    lemma_turned_figure_n_blocks(f, axis, 1);
    lemma_turned_figure_n_blocks(f, axis, 3);
    lemma_turned_figure_n_blocks(f, axis, 4);
    lemma_turn_composition(f, axis, 1, 3);
    lemma_turn_composition(f, axis, 3, 1);
    lemma_four_turns_restore_figure(f, axis);
}

/// Turning a figure that lies inside the well with the entrance kick, when the turn needs
/// no kick, and then turning the result the other way round with the entrance kick gives
/// back the figure.
pub proof fn lemma_opposite_kicked_turns_restore(
    well: WellView,
    f: FigureModel,
    axis: Axis,
    direction: RotationDirection,
)
    requires
        freely_turnable(f),
        f.blocks.len() > 0,
        well.fits(f.blocks),
        lowest_z(turned_figure_n(f, axis, quarter_turns(direction)).blocks) >= 0,
        entrance_kick(well, turned_figure_n(f, axis, quarter_turns(direction))) is Some,
    ensures
        entrance_kick(
            well,
            turned_figure_n(
                entrance_kick(well, turned_figure_n(f, axis, quarter_turns(direction)))->0,
                axis,
                quarter_turns(opposite(direction)),
            ),
        ) == Some(f),
{
    let t = turned_figure_n(f, axis, quarter_turns(direction));
    assert(kicked_figure(t) == t);
    lemma_opposite_turns_restore_figure(f, axis);
    assert(turned_figure_n(t, axis, quarter_turns(opposite(direction))) == f);
    let ps = positions_of(f.blocks);
    crate::orientation::lemma_min_coord(ps, Axis::Z);
    let k = choose|k: int| 0 <= k < ps.len() && coord(#[trigger] ps[k], Axis::Z) == min_coord(ps, Axis::Z);
    assert(well.in_bounds(f.blocks[k].position));
    assert(lowest_z(f.blocks) >= 0);
    assert(kicked_figure(f) == f);
}

/// Turning `a` times and then `b` times is turning `a + b` times.
proof fn lemma_turn_composition(f: FigureModel, axis: Axis, a: nat, b: nat)
    ensures
        turned_figure_n(turned_figure_n(f, axis, a), axis, b) == turned_figure_n(f, axis, a + b),
    decreases b,
{
    if b > 0 {
        lemma_turn_composition(f, axis, a, (b - 1) as nat);
    }
}

/// Gravity gets faster with every level from the lowest to the highest, and levels outside
/// that range fall as fast as the nearest level inside it.
pub proof fn lemma_gravity_faster_with_level(level: int)
    ensures
        MIN_LEVEL <= level < MAX_LEVEL ==> gravity_millis(level) > gravity_millis(level + 1),
        level < MIN_LEVEL ==> gravity_millis(level) == gravity_millis(MIN_LEVEL as int),
        level > MAX_LEVEL ==> gravity_millis(level) == gravity_millis(MAX_LEVEL as int),
        gravity_millis(level) > 0,
{
}

/// Stepping to the next choice undoes stepping to the previous one and the other way
/// round, and three steps the same way come back to the start.
pub proof fn lemma_selection_cycles(p: PitSize, b: BlockSet)
    ensures
        next_pit_size(previous_pit_size(p)) == p,
        previous_pit_size(next_pit_size(p)) == p,
        next_pit_size(next_pit_size(next_pit_size(p))) == p,
        next_block_set(previous_block_set(b)) == b,
        previous_block_set(next_block_set(b)) == b,
        next_block_set(next_block_set(next_block_set(b))) == b,
{
}

/// The flat and the three-dimensional figures are different kinds, each set lists every
/// kind once, and the extended set is exactly the flat figures and the three-dimensional
/// ones.
pub proof fn lemma_block_set_groups()
    ensures
        block_set_kinds(BlockSet::Flat).len() == 7,
        block_set_kinds(BlockSet::Basic3d).len() == 3,
        block_set_kinds(BlockSet::Extended).len() == 10,
        forall|k: FigureKind| block_set_kinds(BlockSet::Flat).contains(k) ==> !block_set_kinds(BlockSet::Basic3d).contains(k),
        forall|k: FigureKind| block_set_kinds(BlockSet::Extended).contains(k) <==> (block_set_kinds(BlockSet::Flat).contains(k)
            || block_set_kinds(BlockSet::Basic3d).contains(k)),
        block_set_kinds(BlockSet::Flat).no_duplicates(),
        block_set_kinds(BlockSet::Basic3d).no_duplicates(),
        block_set_kinds(BlockSet::Extended).no_duplicates(),
{
    let f = flat_kinds();
    let t = three_dimensional_kinds();
    let e = f + t;
    assert forall|k: FigureKind| f.contains(k) implies !t.contains(k) by {
        let i = choose|i: int| 0 <= i < f.len() && f[i] == k;
    }
    assert forall|k: FigureKind| e.contains(k) <==> (f.contains(k) || t.contains(k)) by {
        if e.contains(k) {
            let i = choose|i: int| 0 <= i < e.len() && e[i] == k;
            if i < 7 {
                assert(f[i] == k);
            } else {
                assert(t[i - 7] == k);
            }
        }
        if f.contains(k) {
            let i = choose|i: int| 0 <= i < f.len() && f[i] == k;
            assert(e[i] == k);
        }
        if t.contains(k) {
            let i = choose|i: int| 0 <= i < t.len() && t[i] == k;
            assert(e[i + 7] == k);
        }
    }
    assert forall|i: int, j: int| 0 <= i < e.len() && 0 <= j < e.len() && i != j implies e[i] != e[j] by {
    }
    assert forall|i: int, j: int| 0 <= i < f.len() && 0 <= j < f.len() && i != j implies f[i] != f[j] by {
    }
    assert forall|i: int, j: int| 0 <= i < t.len() && 0 <= j < t.len() && i != j implies t[i] != t[j] by {
    }
}

/// Every figure, spawned by `Figure::new`, fits into an empty well whose entrance is at
/// least 4 by 4 and which is at least 2 planes deep.
pub proof fn lemma_every_figure_spawns_inside(well: WellView, kind: FigureKind, color: Color, material: Material)
    requires
        well.width >= 4,
        well.height >= 4,
        well.depth >= 2,
        forall|p: Vec3i| #[trigger] well.cell(p) is None,
    ensures
        well.fits(blocks_at(shape_offsets(kind), default_pivot(), color, material)),
{
    let b = blocks_at(shape_offsets(kind), default_pivot(), color, material);
    crate::orientation::lemma_shape_offsets_distinct(kind);
    assert forall|i: int| 0 <= i < b.len() implies well.in_bounds(#[trigger] b[i].position) && well.cell(b[i].position) is None by {
        assert(crate::symmetry::small(shape_offsets(kind)[i]));
        assert(b[i].position == vadd(default_pivot(), shape_offsets(kind)[i]));
    }
}

/// From a full bag, dealing as many figures as the bag holds deals exactly the figures of
/// the bag, each as often as it is in it: every figure once before the bag is refilled.
pub proof fn lemma_bag_deals_each_figure_once(states: Seq<Seq<FigureModel>>, dealt: Seq<FigureModel>, full: Seq<FigureModel>)
    requires
        states.len() == dealt.len() + 1,
        dealt.len() == full.len(),
        states[0].to_multiset() == full.to_multiset(),
        forall|k: int| 0 <= k < dealt.len() ==> deal(#[trigger] states[k], states[k + 1], dealt[k], full),
    ensures
        dealt.to_multiset() == full.to_multiset(),
{
    lemma_deal_prefix(states, dealt, full, dealt.len() as int);
    assert(dealt.take(dealt.len() as int) =~= dealt);
    assert(states[dealt.len() as int].to_multiset().len() == 0);
    assert(states[dealt.len() as int].to_multiset() =~= vstd::multiset::Multiset::empty());
}

/// After `k` deals from a full bag (without running empty), the figures left and the
/// figures dealt together make up the full bag.
proof fn lemma_deal_prefix(states: Seq<Seq<FigureModel>>, dealt: Seq<FigureModel>, full: Seq<FigureModel>, k: int)
    requires
        states.len() == dealt.len() + 1,
        dealt.len() == full.len(),
        states[0].to_multiset() == full.to_multiset(),
        forall|j: int| 0 <= j < dealt.len() ==> deal(#[trigger] states[j], states[j + 1], dealt[j], full),
        0 <= k <= dealt.len(),
    ensures
        states[k].to_multiset().add(dealt.take(k).to_multiset()) == full.to_multiset(),
        states[k].len() == full.len() - k,
    decreases k,
{
    if k == 0 {
        assert(dealt.take(0) =~= Seq::<FigureModel>::empty());
        assert(states[0].to_multiset().add(vstd::multiset::Multiset::empty()) =~= states[0].to_multiset());
        assert(states[0].to_multiset().len() == states[0].len());
        assert(full.to_multiset().len() == full.len());
    } else {
        lemma_deal_prefix(states, dealt, full, k - 1);
        let s = states[k - 1];
        assert(deal(states[k - 1], states[k], dealt[k - 1], full));
        assert(s.len() > 0);
        assert(states[k] == s.drop_last());
        assert(dealt[k - 1] == s.last());
        assert(s =~= states[k].push(dealt[k - 1]));
        assert(dealt.take(k) =~= dealt.take(k - 1).push(dealt[k - 1]));
        vstd::seq_lib::to_multiset_build(states[k], dealt[k - 1]);
        vstd::seq_lib::to_multiset_build(dealt.take(k - 1), dealt[k - 1]);
        assert(states[k].to_multiset().add(dealt.take(k).to_multiset()) =~= s.to_multiset().add(
            dealt.take(k - 1).to_multiset(),
        ));
    }
}

/// Clearing full planes leaves no full plane behind.
pub proof fn lemma_no_full_plane_after_clearing(grid: Seq<Seq<Option<Block>>>, slots: int, base: int)
    requires
        slots > 0,
    ensures
        forall|z: int| 0 <= z < grid.len() ==> !all_occupied(
            #[trigger] renumber_all(empty_planes(clear_scan(grid, base).1.len() as int, slots) + clear_scan(grid, base).0)[z],
        ) || z >= (empty_planes(clear_scan(grid, base).1.len() as int, slots) + clear_scan(grid, base).0).len(),
{
    let scan = clear_scan(grid, base);
    let layout = empty_planes(scan.1.len() as int, slots) + scan.0;
    lemma_kept_not_full(grid, base);
    crate::well::lemma_clear_scan_lengths(grid, base);
    assert forall|z: int| 0 <= z < grid.len() implies !all_occupied(#[trigger] renumber_all(layout)[z]) || z >= layout.len() by {
        if z < layout.len() {
            crate::well::lemma_renumber_keeps_occupancy(layout[z], z);
            if z < scan.1.len() {
                assert(empty_slots(slots)[0] is None);
            } else {
                assert(layout[z] == scan.0[z - scan.1.len()]);
            }
        }
    }
}

/// The planes the scan keeps are not full.
proof fn lemma_kept_not_full(grid: Seq<Seq<Option<Block>>>, base: int)
    ensures
        forall|i: int| 0 <= i < clear_scan(grid, base).0.len() ==> !all_occupied(#[trigger] clear_scan(grid, base).0[i]),
    decreases grid.len(),
{
    if grid.len() > 0 {
        lemma_kept_not_full(grid.drop_first(), base + 1);
        let rest = clear_scan(grid.drop_first(), base + 1);
        if !all_occupied(grid[0]) {
            assert forall|i: int| 0 <= i < clear_scan(grid, base).0.len() implies !all_occupied(#[trigger] clear_scan(grid, base).0[i]) by {
                if i > 0 {
                    assert(clear_scan(grid, base).0[i] == rest.0[i - 1]);
                }
            }
        }
    }
}

/// A block moved to plane `z`, if there is one.
pub open spec fn in_plane(c: Option<Block>, z: int) -> Option<Block> {
    match c {
        Some(b) => Some(block_in_plane(b, z)),
        None => None,
    }
}

/// Clearing plane `z` takes its blocks out, moves every block above it one plane down, and
/// leaves the entrance plane empty; the planes below it keep their blocks.
pub proof fn lemma_clear_plane_moves_blocks_down(before: Well, after: WellView, z: int)
    requires
        before.wf(),
        0 <= z < before.depth,
        after.width == before.width,
        after.height == before.height,
        after.depth == before.depth,
        after.grid == renumber_all(seq![empty_slots(before.slot_count())] + before.grid().remove(z)),
    ensures
        forall|q: Vec3i| before.in_bounds(q) && q.z > z ==> #[trigger] after.cell(q) == before.cell(q),
        forall|q: Vec3i| before.in_bounds(q) && 1 <= q.z <= z ==> #[trigger] after.cell(q) == in_plane(
            before.cell(Vec3i { z: (q.z - 1) as i32, ..q }),
            q.z as int,
        ),
        forall|q: Vec3i| before.in_bounds(q) && q.z == 0 ==> (#[trigger] after.cell(q)) is None,
{
    let w = before.width as int;
    let h = before.height as int;
    let shifted = seq![empty_slots(before.slot_count())] + before.grid().remove(z);
    assert forall|q: Vec3i| before.in_bounds(q) implies {
        &&& q.z > z ==> #[trigger] after.cell(q) == before.cell(q)
        &&& 1 <= q.z <= z ==> after.cell(q) == in_plane(before.cell(Vec3i { z: (q.z - 1) as i32, ..q }), q.z as int)
        &&& q.z == 0 ==> after.cell(q) is None
    } by {
        crate::well::lemma_slot_in_range(w, h, q.x as int, q.y as int);
        let k = q.z as int;
        let idx = q.y * w + q.x;
        assert(after.grid[k] == renumber(shifted[k], k));
        if k > z {
            assert(shifted[k] == before.grid()[k]);
            assert(renumber_all(before.grid())[k] == before.grid()[k]);
        } else if k >= 1 {
            assert(shifted[k] == before.grid()[k - 1]);
        } else {
            assert(shifted[k] == empty_slots(before.slot_count()));
        }
    }
}

/// The index of the first entry with a shape is the index of the one entry with that
/// shape, in a list with no two entries of the same shape.
proof fn lemma_first_shape_index_of_entry(list: Seq<Seq<Vec3i>>, j: int, i: int)
    requires
        distinct_shapes(list),
        0 <= i <= j < list.len(),
    ensures
        first_shape_index(list, normalize(list[j]), i) == j,
    decreases j - i,
{
    if i < j {
        assert(normalize(list[i]) != normalize(list[j]));
        lemma_first_shape_index_of_entry(list, j, i + 1);
    }
}

/// Moving a figure keeps the offsets of its blocks from its pivot.
proof fn lemma_kick_keeps_offsets(f: FigureModel)
    requires
        crate::moves::can_kick(f),
        crate::orientation::offsets_fit(f),
    ensures
        offsets(kicked_figure(f)) == offsets(f),
{
    let g = kicked_figure(f);
    assert forall|i: int| 0 <= i < f.blocks.len() implies #[trigger] offsets(g)[i] == offsets(f)[i] by {
        assert(crate::geometry::sub_fits(f.blocks[i].position, f.pivot));
    }
    assert(offsets(g) =~= offsets(f));
}

/// Cycling a kept figure whose sorted offsets are orientation `j` of its kind, when the
/// orientation after it fits, gives the figure in orientation `j + 1` (cyclically).
pub proof fn lemma_cycle_advances_orientation(well: WellView, f: FigureModel, j: int)
    requires
        figure_ok(f),
        figure_orientations(f.kind).len() > 1,
        0 <= j < figure_orientations(f.kind).len(),
        sort_positions(offsets(f)) == figure_orientations(f.kind)[j],
        entrance_kick(well, orientation_candidate(f, 1)) is Some,
    ensures
        current_orientation_index(f) == j,
        next_orientation(well, f) == entrance_kick(well, orientation_candidate(f, 1)),
        next_orientation(well, f) matches Some(g) && sort_positions(offsets(g)) == figure_orientations(f.kind)[(j + 1)
            % (figure_orientations(f.kind).len() as int)],
{
    let list = figure_orientations(f.kind);
    let n = list.len() as int;
    lemma_figure_orientations(f.kind);
    lemma_first_shape_index_of_entry(list, j, 0);
    let o = list[(j + 1) % n];
    let c = orientation_candidate(f, 1);
    assert(c == with_orientation(f, o));
    assert(o.len() == f.blocks.len());
    assert forall|i: int| 0 <= i < c.blocks.len() implies crate::geometry::sub_fits(#[trigger] c.blocks[i].position, c.pivot)
        && offsets(c)[i] == o[i] by {
        assert(crate::symmetry::small(o[i]));
    }
    assert(offsets(c) =~= o);
    crate::game::lemma_candidate_ok(f, 1);
    lemma_kick_keeps_offsets(c);
    lemma_sorted_is_sort(o, o);
}

/// The orientation tried at step `s` of a cycle, for a kept figure whose sorted offsets
/// are orientation `j` of its kind: the figure keeps its kind, pivot and the look of every
/// block, and block `i` is placed at the pivot plus offset `i` of orientation `j + s`
/// (cyclically).
pub proof fn lemma_candidate_is_orientation_ahead(f: FigureModel, j: int, s: int)
    requires
        figure_ok(f),
        0 <= j < figure_orientations(f.kind).len(),
        sort_positions(offsets(f)) == figure_orientations(f.kind)[j],
        1 <= s < figure_orientations(f.kind).len(),
    ensures
        orientation_candidate(f, s).kind == f.kind,
        orientation_candidate(f, s).pivot == f.pivot,
        orientation_candidate(f, s).blocks.len() == f.blocks.len(),
        forall|i: int| 0 <= i < f.blocks.len() ==> #[trigger] orientation_candidate(f, s).blocks[i] == (Block {
            position: vadd(
                f.pivot,
                figure_orientations(f.kind)[(j + s) % (figure_orientations(f.kind).len() as int)][i],
            ),
            ..f.blocks[i]
        }),
{
    let list = figure_orientations(f.kind);
    let n = list.len() as int;
    lemma_figure_orientations(f.kind);
    lemma_first_shape_index_of_entry(list, j, 0);
    let o = list[(j + s) % n];
    let c = orientation_candidate(f, s);
    assert(c == with_orientation(f, o));
    assert(o.len() == f.blocks.len());
}

/// Cycling a kept figure again and again, each time into the orientation after the
/// current one, walks through the orientations of its kind in order: after `k` cycles
/// the figure is in orientation `j + k` (cyclically), so the first `n` figures, `n` the
/// number of orientations, are all of different shapes and the `n`-th cycle returns to
/// the first orientation.
pub proof fn lemma_cycling_walks_orientations(well: WellView, figures: Seq<FigureModel>, j: int)
    requires
        figures.len() >= 1,
        figure_ok(figures[0]),
        crate::game::is_pit_view(well),
        figure_orientations(figures[0].kind).len() > 1,
        0 <= j < figure_orientations(figures[0].kind).len(),
        sort_positions(offsets(figures[0])) == figure_orientations(figures[0].kind)[j],
        forall|k: int| 0 <= k < figures.len() - 1 ==> entrance_kick(well, orientation_candidate(#[trigger] figures[k], 1)) is Some
            && next_orientation(well, figures[k]) == Some(figures[k + 1]),
    ensures
        forall|k: int| 0 <= k < figures.len() ==> figure_ok(#[trigger] figures[k]) && figures[k].kind == figures[0].kind
            && sort_positions(offsets(figures[k])) == figure_orientations(figures[0].kind)[(j + k) % (figure_orientations(
            figures[0].kind).len() as int)],
{
    let list = figure_orientations(figures[0].kind);
    let n = list.len() as int;
    assert forall|k: int| 0 <= k < figures.len() implies figure_ok(#[trigger] figures[k]) && figures[k].kind == figures[0].kind
        && sort_positions(offsets(figures[k])) == list[(j + k) % n] by {
        lemma_walk_prefix(well, figures, j, k);
    }
}

/// The walk, up to figure `k`.
#[verifier::spinoff_prover]
#[verifier::rlimit(30)]
proof fn lemma_walk_prefix(well: WellView, figures: Seq<FigureModel>, j: int, k: int)
    requires
        figures.len() >= 1,
        figure_ok(figures[0]),
        crate::game::is_pit_view(well),
        figure_orientations(figures[0].kind).len() > 1,
        0 <= j < figure_orientations(figures[0].kind).len(),
        sort_positions(offsets(figures[0])) == figure_orientations(figures[0].kind)[j],
        forall|i: int| 0 <= i < figures.len() - 1 ==> entrance_kick(well, orientation_candidate(#[trigger] figures[i], 1)) is Some
            && next_orientation(well, figures[i]) == Some(figures[i + 1]),
        0 <= k < figures.len(),
    ensures
        figure_ok(figures[k]),
        figures[k].kind == figures[0].kind,
        sort_positions(offsets(figures[k])) == figure_orientations(figures[0].kind)[(j + k) % (figure_orientations(
            figures[0].kind).len() as int)],
    decreases k,
{
    let n = figure_orientations(figures[0].kind).len() as int;
    if k > 0 {
        lemma_walk_prefix(well, figures, j, k - 1);
        let f = figures[k - 1];
        let jj = (j + k - 1) % n;
        assert(entrance_kick(well, orientation_candidate(f, 1)) is Some);
        lemma_cycle_advances_orientation(well, f, jj);
        crate::game::lemma_next_orientation_ok(well, f, 1);
        crate::game::lemma_fitting_in_play_view(well, figures[k]);
        lemma_next_index(j + k - 1, n);
    } else {
        vstd::arithmetic::div_mod::lemma_small_mod(j as nat, n as nat);
    }
}

/// One step further round a cycle of `n` indices.
proof fn lemma_next_index(a: int, n: int)
    requires
        n > 1,
    ensures
        ((a % n) + 1) % n == (a + 1) % n,
{
    vstd::arithmetic::div_mod::lemma_add_mod_noop(a, 1, n);
    vstd::arithmetic::div_mod::lemma_small_mod(1, n as nat);
}

/// Giving a plane a depth does not change how many blocks it holds.
proof fn lemma_count_renumber(slots: Seq<Option<Block>>, z: int)
    ensures
        count_occupied(renumber(slots, z)) == count_occupied(slots),
    decreases slots.len(),
{
    if slots.len() > 0 {
        assert(renumber(slots, z).drop_last() =~= renumber(slots.drop_last(), z));
        lemma_count_renumber(slots.drop_last(), z);
    }
}

/// Giving every plane its depth does not change how many blocks the planes hold.
proof fn lemma_count_renumber_all(grid: Seq<Seq<Option<Block>>>)
    ensures
        count_occupied_planes(renumber_all(grid)) == count_occupied_planes(grid),
    decreases grid.len(),
{
    if grid.len() > 0 {
        assert(renumber_all(grid).drop_last() =~= renumber_all(grid.drop_last()));
        lemma_count_renumber_all(grid.drop_last());
        lemma_count_renumber(grid.last(), grid.len() - 1);
    }
}

/// The blocks of two stacks of planes put together are the blocks of each.
proof fn lemma_count_concat(a: Seq<Seq<Option<Block>>>, b: Seq<Seq<Option<Block>>>)
    ensures
        count_occupied_planes(a + b) == count_occupied_planes(a) + count_occupied_planes(b),
    decreases b.len(),
{
    if b.len() == 0 {
        assert(a + b =~= a);
    } else {
        assert((a + b).drop_last() =~= a + b.drop_last());
        lemma_count_concat(a, b.drop_last());
    }
}

/// Empty planes hold no block.
proof fn lemma_count_empty_planes(n: int, slots: int)
    requires
        n >= 0,
    ensures
        count_occupied_planes(empty_planes(n, slots)) == 0,
    decreases n,
{
    if n > 0 {
        assert(empty_planes(n, slots).drop_last() =~= empty_planes(n - 1, slots));
        lemma_count_empty_planes(n - 1, slots);
        crate::well::lemma_count_none(empty_slots(slots));
    }
}

/// A full plane holds as many blocks as it has slots.
proof fn lemma_count_full(slots: Seq<Option<Block>>)
    requires
        all_occupied(slots),
    ensures
        count_occupied(slots) == slots.len(),
    decreases slots.len(),
{
    if slots.len() > 0 {
        assert(all_occupied(slots.drop_last())) by {
            assert forall|i: int| 0 <= i < slots.drop_last().len() implies #[trigger] slots.drop_last()[i] is Some by {
                assert(slots[i] is Some);
            }
        }
        lemma_count_full(slots.drop_last());
        assert(slots[slots.len() - 1] is Some);
    }
}

/// The scan keeps all blocks of the planes it keeps and takes out full planes.
#[verifier::spinoff_prover]
proof fn lemma_count_scan(grid: Seq<Seq<Option<Block>>>, base: int, slots: int)
    requires
        forall|z: int| 0 <= z < grid.len() ==> (#[trigger] grid[z]).len() == slots,
    ensures
        count_occupied_planes(grid) == count_occupied_planes(clear_scan(grid, base).0) + clear_scan(grid, base).1.len()
            * slots,
    decreases grid.len(),
{
    if grid.len() > 0 {
        let rest = grid.drop_first();
        lemma_count_scan(rest, base + 1, slots);
        assert(grid =~= seq![grid[0]] + rest);
        lemma_count_concat(seq![grid[0]], rest);
        let one = seq![grid[0]];
        assert(one.drop_last() =~= Seq::<Seq<Option<Block>>>::empty());
        assert(one.last() == grid[0]);
        assert(count_occupied_planes(Seq::<Seq<Option<Block>>>::empty()) == 0);
        assert(count_occupied_planes(one) == count_occupied_planes(one.drop_last()) + count_occupied(one.last()));
        assert(count_occupied_planes(one) == count_occupied(grid[0]));
        let scan = clear_scan(rest, base + 1);
        assert(count_occupied_planes(grid) == count_occupied(grid[0]) + count_occupied_planes(rest));
        if all_occupied(grid[0]) {
            lemma_count_full(grid[0]);
            assert(clear_scan(grid, base).0 == scan.0);
            assert(clear_scan(grid, base).1.len() == scan.1.len() + 1);
            assert((scan.1.len() + 1) * slots == scan.1.len() * slots + slots) by (nonlinear_arith);
            assert(count_occupied_planes(grid) == count_occupied_planes(clear_scan(grid, base).0)
                + clear_scan(grid, base).1.len() * slots);
        } else {
            lemma_count_concat(seq![grid[0]], scan.0);
            assert(clear_scan(grid, base).0 == seq![grid[0]] + scan.0);
            assert(clear_scan(grid, base).1 == scan.1);
            assert(count_occupied_planes(grid) == count_occupied_planes(clear_scan(grid, base).0)
                + clear_scan(grid, base).1.len() * slots);
        }
    } else {
        assert(clear_scan(grid, base).0 =~= Seq::<Seq<Option<Block>>>::empty());
        assert(clear_scan(grid, base).1 =~= Seq::<Seq<Option<Block>>>::empty());
    }
}

/// Clearing the full planes takes out exactly the blocks of the planes taken out, as many
/// per plane as a plane has slots, and keeps every other block.
pub proof fn lemma_clearing_counts(grid: Seq<Seq<Option<Block>>>, slots: int)
    requires
        forall|z: int| 0 <= z < grid.len() ==> (#[trigger] grid[z]).len() == slots,
    ensures
        count_occupied_planes(
            renumber_all(empty_planes(clear_scan(grid, 0).1.len() as int, slots) + clear_scan(grid, 0).0),
        ) + clear_scan(grid, 0).1.len() * slots == count_occupied_planes(grid),
{
    let scan = clear_scan(grid, 0);
    let layout = empty_planes(scan.1.len() as int, slots) + scan.0;
    lemma_count_renumber_all(layout);
    lemma_count_concat(empty_planes(scan.1.len() as int, slots), scan.0);
    lemma_count_empty_planes(scan.1.len() as int, slots);
    lemma_count_scan(grid, 0, slots);
}

/// While every candidate from `t` up to `s` (exclusive) is refused, the search from `t`
/// ends as the search from `s`.
proof fn lemma_search_skips_refused(well: WellView, f: FigureModel, t: int, s: int)
    requires
        1 <= t <= s,
        forall|u: int| t <= u < s ==> #[trigger] entrance_kick(well, orientation_candidate(f, u)) is None,
    ensures
        next_orientation_from(well, f, t) == next_orientation_from(well, f, s),
    decreases s - t,
{
    if t < s {
        assert(entrance_kick(well, orientation_candidate(f, t)) is None);
        lemma_search_skips_refused(well, f, t + 1, s);
    }
}

/// Cycling the orientation gives the first of all the following orientations that fits
/// after the entrance kick: if orientation step `s` fits and no step before it does, the
/// figure in step `s` (kicked) is the result, whatever blocked the steps before.
pub proof fn lemma_cycle_takes_first_fitting(well: WellView, f: FigureModel, s: int)
    requires
        1 <= s < figure_orientations(f.kind).len(),
        entrance_kick(well, orientation_candidate(f, s)) is Some,
        forall|t: int| 1 <= t < s ==> #[trigger] entrance_kick(well, orientation_candidate(f, t)) is None,
    ensures
        next_orientation(well, f) == entrance_kick(well, orientation_candidate(f, s)),
{
    lemma_search_skips_refused(well, f, 1, s);
}

/// The search from step `t` finds nothing exactly when no step from `t` on fits.
proof fn lemma_search_none_from(well: WellView, f: FigureModel, t: int)
    requires
        1 <= t,
    ensures
        next_orientation_from(well, f, t) is None <==> forall|s: int|
            t <= s < figure_orientations(f.kind).len() ==> #[trigger] entrance_kick(well, orientation_candidate(f, s)) is None,
    decreases figure_orientations(f.kind).len() - t,
{
    if t < figure_orientations(f.kind).len() {
        lemma_search_none_from(well, f, t + 1);
    }
}

/// Cycling the orientation is refused exactly when none of the other orientations fits
/// after the entrance kick; when it succeeds, the result is one of those orientations,
/// kicked, and every orientation before it in the cycle is blocked.
pub proof fn lemma_cycle_refused_only_when_all_blocked(well: WellView, f: FigureModel)
    ensures
        next_orientation(well, f) is None <==> forall|s: int|
            1 <= s < figure_orientations(f.kind).len() ==> #[trigger] entrance_kick(well, orientation_candidate(f, s)) is None,
        next_orientation(well, f) is Some ==> exists|s: int|
            1 <= s < figure_orientations(f.kind).len() && next_orientation(well, f) == #[trigger] entrance_kick(
                well,
                orientation_candidate(f, s),
            ) && forall|t: int| 1 <= t < s ==> #[trigger] entrance_kick(well, orientation_candidate(f, t)) is None,
{
    lemma_search_none_from(well, f, 1);
    if next_orientation(well, f) is Some {
        let n = figure_orientations(f.kind).len() as int;
        assert(exists|s: int| 1 <= s < n && #[trigger] entrance_kick(well, orientation_candidate(f, s)) is Some);
        let s0 = choose|s: int| 1 <= s < n && #[trigger] entrance_kick(well, orientation_candidate(f, s)) is Some;
        lemma_first_fitting_exists(well, f, 1, s0);
        let s = choose|s: int| 1 <= s <= s0 && #[trigger] entrance_kick(well, orientation_candidate(f, s)) is Some
            && forall|t: int| 1 <= t < s ==> #[trigger] entrance_kick(well, orientation_candidate(f, t)) is None;
        lemma_cycle_takes_first_fitting(well, f, s);
    }
}

/// Below a fitting step there is a first fitting step.
proof fn lemma_first_fitting_exists(well: WellView, f: FigureModel, lo: int, s0: int)
    requires
        1 <= lo <= s0,
        entrance_kick(well, orientation_candidate(f, s0)) is Some,
        forall|t: int| 1 <= t < lo ==> #[trigger] entrance_kick(well, orientation_candidate(f, t)) is None,
    ensures
        exists|s: int| 1 <= s <= s0 && #[trigger] entrance_kick(well, orientation_candidate(f, s)) is Some
            && forall|t: int| 1 <= t < s ==> #[trigger] entrance_kick(well, orientation_candidate(f, t)) is None,
    decreases s0 - lo,
{
    if entrance_kick(well, orientation_candidate(f, lo)) is Some {
        assert(1 <= lo <= s0 && entrance_kick(well, orientation_candidate(f, lo)) is Some
            && forall|t: int| 1 <= t < lo ==> #[trigger] entrance_kick(well, orientation_candidate(f, t)) is None);
    } else {
        assert(lo < s0);
        lemma_first_fitting_exists(well, f, lo + 1, s0);
    }
}

/// The entrance kick, in terms of the blocks' depths: with `m` the smallest depth of the
/// figure's blocks, a figure reaching above the entrance (`m < 0`) is moved down by exactly
/// `-m` planes, so that its highest block lands at depth 0, and any other figure is left
/// where it is; the result is given exactly when every block, so moved, lies inside the
/// well on a free slot.
pub proof fn lemma_entrance_kick_lowers_to_entrance(well: WellView, f: FigureModel, m: int)
    requires
        exists|i: int| 0 <= i < f.blocks.len() && #[trigger] f.blocks[i].position.z == m,
        forall|i: int| 0 <= i < f.blocks.len() ==> m <= #[trigger] f.blocks[i].position.z,
        fits_i32(-m),
        fits_i32(f.pivot.z + (if m < 0 { -m } else { 0 })),
        forall|i: int| 0 <= i < f.blocks.len() ==> fits_i32(#[trigger] f.blocks[i].position.z + (if m < 0 { -m } else { 0 })),
    ensures
        entrance_kick(well, f) is Some <==> forall|i: int| 0 <= i < f.blocks.len() ==> {
            let p = #[trigger] f.blocks[i].position;
            let q = Vec3i { x: p.x, y: p.y, z: (p.z + (if m < 0 { -m } else { 0 })) as i32 };
            well.in_bounds(q) && well.cell(q) is None
        },
        entrance_kick(well, f) matches Some(g) ==> {
            &&& g.kind == f.kind
            &&& g.pivot == (Vec3i { x: f.pivot.x, y: f.pivot.y, z: (f.pivot.z + (if m < 0 { -m } else { 0 })) as i32 })
            &&& g.blocks.len() == f.blocks.len()
            &&& forall|i: int| 0 <= i < f.blocks.len() ==> #[trigger] g.blocks[i] == (Block {
                position: Vec3i {
                    x: f.blocks[i].position.x,
                    y: f.blocks[i].position.y,
                    z: (f.blocks[i].position.z + (if m < 0 { -m } else { 0 })) as i32,
                },
                ..f.blocks[i]
            })
        },
{
    let d: int = if m < 0 { -m } else { 0 };
    let ps = positions_of(f.blocks);
    let i0 = choose|i: int| 0 <= i < f.blocks.len() && #[trigger] f.blocks[i].position.z == m;
    crate::orientation::lemma_min_coord(ps, Axis::Z);
    let k = choose|k: int| 0 <= k < ps.len() && coord(#[trigger] ps[k], Axis::Z) == min_coord(ps, Axis::Z);
    assert(coord(ps[i0], Axis::Z) == m);
    assert(m <= f.blocks[k].position.z);
    assert(lowest_z(f.blocks) == m);
    let g = kicked_figure(f);
    assert(g.blocks.len() == f.blocks.len());
    assert forall|i: int| 0 <= i < f.blocks.len() implies #[trigger] g.blocks[i] == (Block {
        position: Vec3i {
            x: f.blocks[i].position.x,
            y: f.blocks[i].position.y,
            z: (f.blocks[i].position.z + d) as i32,
        },
        ..f.blocks[i]
    }) by {
        assert(fits_i32(f.blocks[i].position.z + d));
    }
    assert(g.pivot == (Vec3i { x: f.pivot.x, y: f.pivot.y, z: (f.pivot.z + d) as i32 }));
    assert(g.kind == f.kind);
    if well.fits(g.blocks) {
        assert forall|i: int| 0 <= i < f.blocks.len() implies {
            let p = #[trigger] f.blocks[i].position;
            let q = Vec3i { x: p.x, y: p.y, z: (p.z + d) as i32 };
            well.in_bounds(q) && well.cell(q) is None
        } by {
            assert(g.blocks[i].position == (Vec3i {
                x: f.blocks[i].position.x,
                y: f.blocks[i].position.y,
                z: (f.blocks[i].position.z + d) as i32,
            }));
        }
    } else {
        let j = choose|j: int| 0 <= j < g.blocks.len() && !(well.in_bounds(#[trigger] g.blocks[j].position) && well.cell(
            g.blocks[j].position,
        ) is None);
        assert(g.blocks[j].position == (Vec3i {
            x: f.blocks[j].position.x,
            y: f.blocks[j].position.y,
            z: (f.blocks[j].position.z + d) as i32,
        }));
        let p = f.blocks[j].position;
        assert(!({
            let q = Vec3i { x: p.x, y: p.y, z: (p.z + d) as i32 };
            well.in_bounds(q) && well.cell(q) is None
        }));
    }
}

/// An arrow-key move, in terms of the blocks: a move with any step across the entrance
/// (`delta.x` or `delta.y` not 0) after which every block lies inside the well on a free
/// slot is made, each block and the pivot moving by `delta` and nothing else changing;
/// any other move leaves the game as it was.
pub proof fn lemma_move_made_exactly_when_it_fits(g: GameView, delta: Vec3i)
    requires
        fits_i32(g.active.pivot.x + delta.x),
        fits_i32(g.active.pivot.y + delta.y),
        fits_i32(g.active.pivot.z + delta.z),
        forall|i: int| 0 <= i < g.active.blocks.len() ==> {
            &&& fits_i32(#[trigger] g.active.blocks[i].position.x + delta.x)
            &&& fits_i32(g.active.blocks[i].position.y + delta.y)
            &&& fits_i32(g.active.blocks[i].position.z + delta.z)
        },
    ensures
        ({
            &&& delta.x != 0 || delta.y != 0
            &&& forall|i: int| 0 <= i < g.active.blocks.len() ==> {
                let p = #[trigger] g.active.blocks[i].position;
                let q = Vec3i { x: (p.x + delta.x) as i32, y: (p.y + delta.y) as i32, z: (p.z + delta.z) as i32 };
                g.well.in_bounds(q) && g.well.cell(q) is None
            }
        }) ==> move_step(g, delta) == (GameView {
            active: FigureModel {
                kind: g.active.kind,
                pivot: Vec3i {
                    x: (g.active.pivot.x + delta.x) as i32,
                    y: (g.active.pivot.y + delta.y) as i32,
                    z: (g.active.pivot.z + delta.z) as i32,
                },
                blocks: Seq::new(
                    g.active.blocks.len(),
                    |i: int|
                        Block {
                            position: Vec3i {
                                x: (g.active.blocks[i].position.x + delta.x) as i32,
                                y: (g.active.blocks[i].position.y + delta.y) as i32,
                                z: (g.active.blocks[i].position.z + delta.z) as i32,
                            },
                            ..g.active.blocks[i]
                        },
                ),
            },
            ..g
        }),
        !({
            &&& delta.x != 0 || delta.y != 0
            &&& forall|i: int| 0 <= i < g.active.blocks.len() ==> {
                let p = #[trigger] g.active.blocks[i].position;
                let q = Vec3i { x: (p.x + delta.x) as i32, y: (p.y + delta.y) as i32, z: (p.z + delta.z) as i32 };
                g.well.in_bounds(q) && g.well.cell(q) is None
            }
        }) ==> move_step(g, delta) == g,
{
    let c = crate::figure::moved_figure(g.active, delta);
    let expected = Seq::new(
        g.active.blocks.len(),
        |i: int|
            Block {
                position: Vec3i {
                    x: (g.active.blocks[i].position.x + delta.x) as i32,
                    y: (g.active.blocks[i].position.y + delta.y) as i32,
                    z: (g.active.blocks[i].position.z + delta.z) as i32,
                },
                ..g.active.blocks[i]
            },
    );
    assert(c.blocks =~= expected);
    let all_fit = forall|i: int| 0 <= i < g.active.blocks.len() ==> {
        let p = #[trigger] g.active.blocks[i].position;
        let q = Vec3i { x: (p.x + delta.x) as i32, y: (p.y + delta.y) as i32, z: (p.z + delta.z) as i32 };
        g.well.in_bounds(q) && g.well.cell(q) is None
    };
    if g.well.fits(c.blocks) {
        assert forall|i: int| 0 <= i < g.active.blocks.len() implies {
            let p = #[trigger] g.active.blocks[i].position;
            let q = Vec3i { x: (p.x + delta.x) as i32, y: (p.y + delta.y) as i32, z: (p.z + delta.z) as i32 };
            g.well.in_bounds(q) && g.well.cell(q) is None
        } by {
            assert(c.blocks[i] == expected[i]);
            assert(g.well.in_bounds(c.blocks[i].position) && g.well.cell(c.blocks[i].position) is None);
        }
    }
    if all_fit {
        assert forall|i: int| 0 <= i < c.blocks.len() implies g.well.in_bounds(#[trigger] c.blocks[i].position)
            && g.well.cell(c.blocks[i].position) is None by {
            assert(c.blocks[i] == expected[i]);
            let p = g.active.blocks[i].position;
            assert({
                let q = Vec3i { x: (p.x + delta.x) as i32, y: (p.y + delta.y) as i32, z: (p.z + delta.z) as i32 };
                g.well.in_bounds(q) && g.well.cell(q) is None
            });
        }
    }
}

} // verus!

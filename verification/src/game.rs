//! The game: the well, the active and next figures, the bag, the score, and the steps the
//! game takes on each input and each gravity tick.
use vstd::prelude::*;

use crate::bag::{deal, figure_views, full_bag, spawn_pivot_for, FigureBag};
use crate::figure::{can_move, can_rotate, can_turn_n, moved_figure, near_pivot, rotated_block, shape_offsets, turned_figure, turned_figure_n, Block, Color, Figure, FigureModel};
use crate::geometry::{rotate, vadd, vsub, Axis, Vec3i};
use crate::moves::{can_kick, candidate_fits, current_orientation_index, kick_delta, kicked_figure, lowest_z, orientation_candidate, positions_of, with_orientation};
use crate::orientation::{all_small, figure_orientations, lemma_figure_orientations, lemma_min_coord, offsets, offsets_fit};
use crate::settings::{block_set_kinds, pit_dimensions, BlockSet, PitSize};
use crate::symmetry::small;
use crate::well::{clear_scan, distinct_positions, empty_planes, grid_with_blocks, renumber_all, Plane, Well, WellView};
use crate::geometry::{quarter_turns, RotationDirection};
use crate::moves::{entrance_kick, figure_with_next_orientation, next_orientation, next_orientation_from, rotated_figure_with_entrance_kick};

verus! {

/// The pivot lies within 64 cells of the origin along each axis.
pub open spec fn pivot_in_play(p: Vec3i) -> bool {
    &&& -64 <= p.x <= 64
    &&& -64 <= p.y <= 64
    &&& -64 <= p.z <= 64
}

/// A figure as the game keeps it: the block count of its kind's shape, every block within
/// two cells of the pivot, the pivot near the well, and no two blocks in the same place.
pub open spec fn figure_ok(f: FigureModel) -> bool {
    &&& f.blocks.len() == shape_offsets(f.kind).len()
    &&& near_pivot(f.pivot, f.blocks)
    &&& pivot_in_play(f.pivot)
    &&& distinct_positions(f.blocks)
}

/// The well has the size of one of the pits.
pub open spec fn is_pit_well(w: Well) -> bool {
    let dims = (w.width, w.height, w.depth);
    ||| dims == pit_dimensions(PitSize::Shallow)
    ||| dims == pit_dimensions(PitSize::Classic)
    ||| dims == pit_dimensions(PitSize::Wide)
}

/// The well value has the size of one of the pits.
pub open spec fn is_pit_view(w: WellView) -> bool {
    let dims = (w.width, w.height, w.depth);
    ||| dims == pit_dimensions(PitSize::Shallow)
    ||| dims == pit_dimensions(PitSize::Classic)
    ||| dims == pit_dimensions(PitSize::Wide)
}

/// A figure inside a pit-sized well has its pivot near the well.
pub proof fn lemma_fitting_in_play_view(well: WellView, f: FigureModel)
    requires
        is_pit_view(well),
        near_pivot(f.pivot, f.blocks),
        f.blocks.len() > 0,
        well.fits(f.blocks),
    ensures
        pivot_in_play(f.pivot),
{
    assert(well.in_bounds(f.blocks[0].position));
    assert(-2 <= f.blocks[0].position.x - f.pivot.x <= 2);
}

/// A figure inside a pit-sized well has its pivot near the well.
proof fn lemma_fitting_in_play(well: Well, f: FigureModel)
    requires
        is_pit_well(well),
        near_pivot(f.pivot, f.blocks),
        f.blocks.len() > 0,
        well.fits(f.blocks),
    ensures
        pivot_in_play(f.pivot),
{
    assert(well.in_bounds(f.blocks[0].position));
    assert(-2 <= f.blocks[0].position.x - f.pivot.x <= 2);
}

/// A figure from a fresh bag spawning at `(1, 1, 0)` is kept as the game keeps figures.
proof fn lemma_fresh_ok(f: FigureModel, block_set: crate::settings::BlockSet)
    requires
        full_bag(block_set, Vec3i { x: 1, y: 1, z: 0 }).contains(f),
    ensures
        figure_ok(f),
{
    let full = full_bag(block_set, Vec3i { x: 1, y: 1, z: 0 });
    let i = choose|i: int| 0 <= i < full.len() && full[i] == f;
    crate::orientation::lemma_shape_offsets_distinct(f.kind);
    let o = shape_offsets(f.kind);
    assert forall|a: int, b: int| 0 <= a < f.blocks.len() && 0 <= b < f.blocks.len() && a != b implies #[trigger] f.blocks[a].position
        != #[trigger] f.blocks[b].position by {
        assert(o[a] != o[b]);
        assert(small(o[a]) && small(o[b]));
    }
    assert forall|k: int| 0 <= k < f.blocks.len() implies {
        &&& -2 <= (#[trigger] f.blocks[k]).position.x - f.pivot.x <= 2
        &&& -2 <= f.blocks[k].position.y - f.pivot.y <= 2
        &&& -2 <= f.blocks[k].position.z - f.pivot.z <= 2
    } by {
        assert(small(o[k]));
    }
}

/// A figure from a fresh bag spawning at `(1, 1, 0)` fits into an empty pit-sized well.
proof fn lemma_fresh_fits_empty(well: WellView, f: FigureModel, block_set: BlockSet)
    requires
        full_bag(block_set, Vec3i { x: 1, y: 1, z: 0 }).contains(f),
        is_pit_view(well),
        forall|p: Vec3i| #[trigger] well.cell(p) is None,
    ensures
        well.fits(f.blocks),
{
    let full = full_bag(block_set, Vec3i { x: 1, y: 1, z: 0 });
    let i = choose|i: int| 0 <= i < full.len() && full[i] == f;
    crate::orientation::lemma_shape_offsets_distinct(f.kind);
    assert forall|k: int| 0 <= k < f.blocks.len() implies well.in_bounds(#[trigger] f.blocks[k].position)
        && well.cell(f.blocks[k].position) is None by {
        assert(small(shape_offsets(f.kind)[k]));
        assert(f.blocks[k].position == vadd(f.pivot, shape_offsets(f.kind)[k]));
    }
}

/// Moving a kept figure keeps its blocks near its pivot and apart from each other.
proof fn lemma_moved_ok(f: FigureModel, delta: Vec3i)
    requires
        figure_ok(f),
        can_move(f.pivot, f.blocks, delta),
    ensures
        near_pivot(moved_figure(f, delta).pivot, moved_figure(f, delta).blocks),
        distinct_positions(moved_figure(f, delta).blocks),
        moved_figure(f, delta).blocks.len() == f.blocks.len(),
        moved_figure(f, delta).kind == f.kind,
{
    let g = moved_figure(f, delta);
    assert forall|a: int, b: int| 0 <= a < g.blocks.len() && 0 <= b < g.blocks.len() && a != b implies #[trigger] g.blocks[a].position
        != #[trigger] g.blocks[b].position by {
        assert(f.blocks[a].position != f.blocks[b].position);
        assert(crate::geometry::add_fits(f.blocks[a].position, delta));
        assert(crate::geometry::add_fits(f.blocks[b].position, delta));
    }
    assert forall|k: int| 0 <= k < g.blocks.len() implies {
        &&& -2 <= (#[trigger] g.blocks[k]).position.x - g.pivot.x <= 2
        &&& -2 <= g.blocks[k].position.y - g.pivot.y <= 2
        &&& -2 <= g.blocks[k].position.z - g.pivot.z <= 2
    } by {
        assert(crate::geometry::add_fits(f.blocks[k].position, delta));
        assert(-2 <= f.blocks[k].position.x - f.pivot.x <= 2);
    }
}

/// A quarter turn of a kept figure stays in `i32` and keeps its blocks near its pivot and
/// apart from each other.
proof fn lemma_turned_ok(f: FigureModel, axis: Axis)
    requires
        figure_ok(f),
    ensures
        can_rotate(f.pivot, f.blocks, axis),
        figure_ok(turned_figure(f, axis)),
        turned_figure(f, axis).kind == f.kind,
        turned_figure(f, axis).pivot == f.pivot,
{
    let g = turned_figure(f, axis);
    assert forall|k: int| 0 <= k < f.blocks.len() implies {
        let p = #[trigger] f.blocks[k].position;
        &&& crate::geometry::sub_fits(p, f.pivot)
        &&& crate::geometry::rotation_fits(vsub(p, f.pivot), axis)
        &&& crate::geometry::add_fits(f.pivot, rotate(vsub(p, f.pivot), axis))
    } by {
        assert(-2 <= f.blocks[k].position.x - f.pivot.x <= 2);
    }
    assert forall|k: int| 0 <= k < g.blocks.len() implies {
        &&& -2 <= (#[trigger] g.blocks[k]).position.x - g.pivot.x <= 2
        &&& -2 <= g.blocks[k].position.y - g.pivot.y <= 2
        &&& -2 <= g.blocks[k].position.z - g.pivot.z <= 2
    } by {
        assert(-2 <= f.blocks[k].position.x - f.pivot.x <= 2);
        assert(g.blocks[k] == rotated_block(f.blocks[k], f.pivot, axis));
    }
    assert forall|a: int, b: int| 0 <= a < g.blocks.len() && 0 <= b < g.blocks.len() && a != b implies #[trigger] g.blocks[a].position
        != #[trigger] g.blocks[b].position by {
        assert(f.blocks[a].position != f.blocks[b].position);
        assert(-2 <= f.blocks[a].position.x - f.pivot.x <= 2);
        assert(-2 <= f.blocks[b].position.x - f.pivot.x <= 2);
        assert(g.blocks[a] == rotated_block(f.blocks[a], f.pivot, axis));
        assert(g.blocks[b] == rotated_block(f.blocks[b], f.pivot, axis));
    }
}

/// Any number of quarter turns of a kept figure stays in `i32` and keeps the figure kept.
proof fn lemma_turned_n_ok(f: FigureModel, axis: Axis, n: nat)
    requires
        figure_ok(f),
    ensures
        can_turn_n(f, axis, n),
        figure_ok(turned_figure_n(f, axis, n)),
        turned_figure_n(f, axis, n).kind == f.kind,
        turned_figure_n(f, axis, n).pivot == f.pivot,
    decreases n,
{
    if n > 0 {
        lemma_turned_n_ok(f, axis, (n - 1) as nat);
        lemma_turned_ok(turned_figure_n(f, axis, (n - 1) as nat), axis);
    }
}

/// The entrance kick of a kept figure stays in `i32` and keeps its blocks near its pivot
/// and apart from each other.
proof fn lemma_kicked_ok(f: FigureModel)
    requires
        f.blocks.len() > 0,
        near_pivot(f.pivot, f.blocks),
        pivot_in_play(f.pivot),
        distinct_positions(f.blocks),
    ensures
        can_kick(f),
        near_pivot(kicked_figure(f).pivot, kicked_figure(f).blocks),
        distinct_positions(kicked_figure(f).blocks),
        kicked_figure(f).blocks.len() == f.blocks.len(),
        kicked_figure(f).kind == f.kind,
{
    let ps = positions_of(f.blocks);
    lemma_min_coord(ps, Axis::Z);
    let k0 = choose|k: int| 0 <= k < ps.len() && crate::orientation::coord(#[trigger] ps[k], Axis::Z) == lowest_z(f.blocks);
    assert(ps[k0] == f.blocks[k0].position);
    assert(-2 <= f.blocks[k0].position.z - f.pivot.z <= 2);
    if lowest_z(f.blocks) < 0 {
        let d = kick_delta(f);
        assert forall|k: int| 0 <= k < f.blocks.len() implies crate::geometry::add_fits(#[trigger] f.blocks[k].position, d) by {
            assert(-2 <= f.blocks[k].position.x - f.pivot.x <= 2);
            assert(ps[k] == f.blocks[k].position);
        }
        let g = moved_figure(f, d);
        assert forall|a: int, b: int| 0 <= a < g.blocks.len() && 0 <= b < g.blocks.len() && a != b implies #[trigger] g.blocks[a].position
            != #[trigger] g.blocks[b].position by {
            assert(f.blocks[a].position != f.blocks[b].position);
            assert(crate::geometry::add_fits(f.blocks[a].position, d));
            assert(crate::geometry::add_fits(f.blocks[b].position, d));
        }
        assert forall|k: int| 0 <= k < g.blocks.len() implies {
            &&& -2 <= (#[trigger] g.blocks[k]).position.x - g.pivot.x <= 2
            &&& -2 <= g.blocks[k].position.y - g.pivot.y <= 2
            &&& -2 <= g.blocks[k].position.z - g.pivot.z <= 2
        } by {
            assert(crate::geometry::add_fits(f.blocks[k].position, d));
            assert(-2 <= f.blocks[k].position.x - f.pivot.x <= 2);
        }
    }
}

/// The first matching index lies in the list.
proof fn lemma_first_shape_index_range(list: Seq<Seq<Vec3i>>, shape: Seq<Vec3i>, i: int)
    requires
        list.len() > 0,
    ensures
        0 <= crate::moves::first_shape_index(list, shape, i) < list.len(),
    decreases list.len() - i,
{
    if 0 <= i < list.len() && crate::orientation::normalize(list[i]) != shape {
        lemma_first_shape_index_range(list, shape, i + 1);
    }
}

/// For a kept figure, cycling its orientation stays in `i32`, and every candidate
/// orientation keeps the figure kept.
proof fn lemma_orientation_candidates_ok(f: FigureModel)
    requires
        figure_ok(f),
    ensures
        offsets_fit(f),
        crate::orientation::shift_fits(crate::orientation::sort_positions(offsets(f))),
        forall|step: int| 1 <= step < figure_orientations(f.kind).len() ==> #[trigger] candidate_fits(f, step),
        forall|step: int| 1 <= step < figure_orientations(f.kind).len() ==> figure_ok(#[trigger] orientation_candidate(f, step))
            && orientation_candidate(f, step).kind == f.kind,
{
    assert forall|i: int| 0 <= i < f.blocks.len() implies crate::geometry::sub_fits(#[trigger] f.blocks[i].position, f.pivot) by {
        assert(-2 <= f.blocks[i].position.x - f.pivot.x <= 2);
    }
    let offs = offsets(f);
    assert(all_small(offs)) by {
        assert forall|i: int| 0 <= i < offs.len() implies small(#[trigger] offs[i]) by {
            assert(-2 <= f.blocks[i].position.x - f.pivot.x <= 2);
        }
    }
    crate::orientation::lemma_sort_positions(offs);
    assert(all_small(crate::orientation::sort_positions(offs))) by {
        let t = crate::orientation::sort_positions(offs);
        assert forall|i: int| 0 <= i < t.len() implies small(#[trigger] t[i]) by {
            assert(t.contains(t[i]));
            let k = choose|k: int| 0 <= k < offs.len() && offs[k] == t[i];
        }
    }
    crate::orientation::lemma_small_shift_fits(crate::orientation::sort_positions(offs));
    let list = figure_orientations(f.kind);
    lemma_figure_orientations(f.kind);
    lemma_first_shape_index_range(list, crate::orientation::normalize(crate::orientation::sort_positions(offs)), 0);
    assert forall|step: int| 1 <= step < list.len() implies #[trigger] candidate_fits(f, step) && figure_ok(orientation_candidate(f, step))
        && orientation_candidate(f, step).kind == f.kind by {
        let idx = (current_orientation_index(f) + step) % (list.len() as int);
        let o = list[idx];
        assert(all_small(o) && o.len() == f.blocks.len() && o.no_duplicates());
        let c = orientation_candidate(f, step);
        assert(c == with_orientation(f, o));
        assert forall|j: int| 0 <= j < f.blocks.len() && 0 <= j < o.len() implies crate::geometry::add_fits(f.pivot, #[trigger] o[j]) by {
            assert(small(o[j]));
        }
        assert forall|k: int| 0 <= k < c.blocks.len() implies {
            &&& -2 <= (#[trigger] c.blocks[k]).position.x - c.pivot.x <= 2
            &&& -2 <= c.blocks[k].position.y - c.pivot.y <= 2
            &&& -2 <= c.blocks[k].position.z - c.pivot.z <= 2
        } by {
            assert(small(o[k]));
        }
        assert forall|a: int, b: int| 0 <= a < c.blocks.len() && 0 <= b < c.blocks.len() && a != b implies #[trigger] c.blocks[a].position
            != #[trigger] c.blocks[b].position by {
            assert(o[a] != o[b]);
            assert(small(o[a]) && small(o[b]));
        }
        lemma_kicked_ok(c);
    }
}

/// The orientation chosen by cycling a kept figure is kept again.
pub proof fn lemma_next_orientation_ok(well: WellView, f: FigureModel, step: int)
    requires
        figure_ok(f),
    ensures
        next_orientation_from(well, f, step) matches Some(g) ==> {
            &&& near_pivot(g.pivot, g.blocks)
            &&& distinct_positions(g.blocks)
            &&& g.blocks.len() == f.blocks.len()
            &&& g.kind == f.kind
            &&& well.fits(g.blocks)
        },
    decreases figure_orientations(f.kind).len() - step,
{
    if 1 <= step < figure_orientations(f.kind).len() {
        lemma_orientation_candidates_ok(f);
        let c = orientation_candidate(f, step);
        assert(figure_ok(c));
        lemma_kicked_ok(c);
        lemma_next_orientation_ok(well, f, step + 1);
    }
}

/// Every candidate orientation of a kept figure is kept again, and can be kicked.
pub proof fn lemma_candidate_ok(f: FigureModel, step: int)
    requires
        figure_ok(f),
        1 <= step < figure_orientations(f.kind).len(),
    ensures
        figure_ok(orientation_candidate(f, step)),
        orientation_candidate(f, step).kind == f.kind,
        can_kick(orientation_candidate(f, step)),
        crate::orientation::offsets_fit(orientation_candidate(f, step)),
{
    lemma_orientation_candidates_ok(f);
    lemma_kicked_ok(orientation_candidate(f, step));
    let c = orientation_candidate(f, step);
    assert forall|i: int| 0 <= i < c.blocks.len() implies crate::geometry::sub_fits(#[trigger] c.blocks[i].position, c.pivot) by {
        assert(-2 <= c.blocks[i].position.x - c.pivot.x <= 2);
    }
}

/// The planes' worth of points for the cleared planes.
pub open spec fn score_for(cleared: int) -> int {
    cleared * SCORE_PER_CLEARED_PLANE
}

/// The points for each cleared plane.
pub const SCORE_PER_CLEARED_PLANE: u64 = 100;

/// The points for clearing `cleared_planes_count` planes at once.
pub fn score_for_cleared_planes(cleared_planes_count: usize) -> (r: u64)
    requires
        score_for(cleared_planes_count as int) <= u64::MAX,
    ensures
        r == score_for(cleared_planes_count as int),
{
    cleared_planes_count as u64 * SCORE_PER_CLEARED_PLANE
}

/// What a game is, as a mathematical value.
pub struct GameView {
    pub well: WellView,
    pub active: FigureModel,
    pub next: FigureModel,
    pub score: int,
    pub figures_placed: int,
    pub show_line: bool,
    pub game_over: bool,
    pub bag: Seq<FigureModel>,
    pub block_set: BlockSet,
    pub spawn_pivot: Vec3i,
}

/// The keys pressed since the last frame.
#[derive(Debug, Clone, Copy, PartialEq, Eq, Structural)]
pub struct PressedKeys {
    pub left: bool,
    pub right: bool,
    pub down: bool,
    pub up: bool,
    pub next_orientation: bool,
    pub turn_x_positive: bool,
    pub turn_x_negative: bool,
    pub turn_y_positive: bool,
    pub turn_y_negative: bool,
    pub turn_z_positive: bool,
    pub turn_z_negative: bool,
    pub toggle_line: bool,
    pub drop: bool,
}

/// One cell down, away from the entrance.
pub open spec fn down() -> Vec3i {
    Vec3i { x: 0, y: 0, z: 1 }
}

/// The move the arrow keys ask for: left is `+x`, right `-x`, down `-y`, up `+y`.
pub open spec fn key_delta(k: PressedKeys) -> Vec3i {
    Vec3i {
        x: ((if k.left { 1int } else { 0int }) - (if k.right { 1int } else { 0int })) as i32,
        y: ((if k.up { 1int } else { 0int }) - (if k.down { 1int } else { 0int })) as i32,
        z: 0,
    }
}

/// The turn the turning keys ask for; of several, the first in the order `x+`, `x-`,
/// `y+`, `y-`, `z+`, `z-`.
pub open spec fn key_rotation(k: PressedKeys) -> Option<(Axis, RotationDirection)> {
    if k.turn_x_positive {
        Some((Axis::X, RotationDirection::Positive))
    } else if k.turn_x_negative {
        Some((Axis::X, RotationDirection::Negative))
    } else if k.turn_y_positive {
        Some((Axis::Y, RotationDirection::Positive))
    } else if k.turn_y_negative {
        Some((Axis::Y, RotationDirection::Negative))
    } else if k.turn_z_positive {
        Some((Axis::Z, RotationDirection::Positive))
    } else if k.turn_z_negative {
        Some((Axis::Z, RotationDirection::Negative))
    } else {
        None
    }
}

/// The game with another active figure.
pub open spec fn with_active(g: GameView, f: FigureModel) -> GameView {
    GameView { active: f, ..g }
}

/// Moving the active figure sideways by `delta`: it moves if `delta` moves it at all
/// across the entrance and it then fits.
pub open spec fn move_step(g: GameView, delta: Vec3i) -> GameView {
    if delta.x != 0 || delta.y != 0 {
        let c = moved_figure(g.active, delta);
        if g.well.fits(c.blocks) {
            with_active(g, c)
        } else {
            g
        }
    } else {
        g
    }
}

/// Cycling the active figure to its next orientation that fits, if any.
pub open spec fn cycle_step(g: GameView) -> GameView {
    match next_orientation(g.well, g.active) {
        Some(c) => with_active(g, c),
        None => g,
    }
}

/// Turning the active figure, if it then fits after the entrance kick.
pub open spec fn rotate_step(g: GameView, axis: Axis, direction: RotationDirection) -> GameView {
    match entrance_kick(g.well, turned_figure_n(g.active, axis, quarter_turns(direction))) {
        Some(c) => with_active(g, c),
        None => g,
    }
}

/// Showing or hiding the guide line.
pub open spec fn toggle_step(g: GameView) -> GameView {
    GameView { show_line: !g.show_line, ..g }
}

/// The grid with the figure's blocks locked in.
pub open spec fn locked_grid(g: GameView, f: FigureModel) -> Seq<Seq<Option<Block>>> {
    grid_with_blocks(g.well.grid, g.well.width as int, f.blocks)
}

/// Locking the figure `f` into the well of `b`: its blocks are locked, the full planes are
/// cleared (and handed out as `cleared`), one more figure is counted, the cleared planes
/// are scored, the next figure becomes active, a new next figure is dealt from the bag,
/// and the game is over if the new active figure does not fit.
pub open spec fn lock_step(b: GameView, a: GameView, f: FigureModel, cleared: Seq<Seq<Option<Block>>>) -> bool {
    let scan = clear_scan(locked_grid(b, f), 0);
    &&& a.well == (WellView {
        grid: renumber_all(empty_planes(scan.1.len() as int, b.well.slot_count()) + scan.0),
        ..b.well
    })
    &&& cleared == scan.1
    &&& a.figures_placed == b.figures_placed + 1
    &&& a.score == b.score + score_for(scan.1.len() as int)
    &&& a.active == b.next
    &&& deal(b.bag, a.bag, a.next, full_bag(b.block_set, b.spawn_pivot))
    &&& a.block_set == b.block_set
    &&& a.spawn_pivot == b.spawn_pivot
    &&& a.show_line == b.show_line
    &&& a.game_over == !a.well.fits(a.active.blocks)
}

/// Locking `f` into the game neither overflows the figure count nor the score.
pub open spec fn lock_room(g: GameView, f: FigureModel) -> bool {
    &&& g.figures_placed < u64::MAX
    &&& g.score + score_for(clear_scan(locked_grid(g, f), 0).1.len() as int) <= u64::MAX
}

/// The figure moved down, plane by plane, as long as it still fits.
pub open spec fn hard_dropped(well: WellView, f: FigureModel) -> FigureModel
    decreases well.depth - f.blocks[0].position.z,
{
    if f.blocks.len() == 0 || f.blocks[0].position.z + 1 >= well.depth || !well.fits(
        moved_figure(f, down()).blocks,
    ) {
        f
    } else {
        hard_dropped(well, moved_figure(f, down()))
    }
}

/// The game after the keys' moves, orientation change, turn and guide-line toggle, before
/// any drop.
pub open spec fn before_drop(g: GameView, k: PressedKeys) -> GameView {
    let g1 = move_step(g, key_delta(k));
    let g2 = if k.next_orientation { cycle_step(g1) } else { g1 };
    let g3 = match key_rotation(k) {
        Some((axis, direction)) => rotate_step(g2, axis, direction),
        None => g2,
    };
    if k.toggle_line { toggle_step(g3) } else { g3 }
}

/// The cleared planes' slots.
pub open spec fn plane_views(planes: Seq<Plane>) -> Seq<Seq<Option<Block>>> {
    planes.map_values(|p: Plane| p.blocks@)
}

/// The colour of the first block, in block order, at depth `z`.
pub open spec fn first_color_at_depth(blocks: Seq<Block>, z: int) -> Option<Color>
    decreases blocks.len(),
{
    if blocks.len() == 0 {
        None
    } else if blocks[0].position.z == z {
        Some(blocks[0].color)
    } else {
        first_color_at_depth(blocks.drop_first(), z)
    }
}

/// The colour of the first locked block, in slot order.
pub open spec fn first_locked_color(slots: Seq<Option<Block>>) -> Option<Color>
    decreases slots.len(),
{
    if slots.len() == 0 {
        None
    } else {
        match slots[0] {
            Some(b) => Some(b.color),
            None => first_locked_color(slots.drop_first()),
        }
    }
}

/// The colour the depth meter shows for plane `z`: the active figure's if one of its
/// blocks is at that depth, otherwise that of a block locked in the plane, if any.
pub open spec fn depth_meter_color(g: GameView, z: int) -> Option<Color> {
    match first_color_at_depth(g.active.blocks, z) {
        Some(c) => Some(c),
        None => first_locked_color(g.well.grid[z]),
    }
}

/// A game as it starts with the settings: an empty well of the pit's size, no score, no
/// figure placed, the guide line shown, a fresh bag of the block set spawning in the middle
/// of the pit's entrance, and the active and the next figure the first two dealt from it.
pub open spec fn fresh_game(g: GameView, settings: crate::settings::GameSettings) -> bool {
    let full = full_bag(settings.block_set, spawn_pivot_for(settings.pit_size));
    &&& g.well.width == pit_dimensions(settings.pit_size).0
    &&& g.well.height == pit_dimensions(settings.pit_size).1
    &&& g.well.depth == pit_dimensions(settings.pit_size).2
    &&& forall|p: Vec3i| #[trigger] g.well.cell(p) is None
    &&& g.score == 0
    &&& g.figures_placed == 0
    &&& g.show_line
    &&& !g.game_over
    &&& g.block_set == settings.block_set
    &&& g.spawn_pivot == spawn_pivot_for(settings.pit_size)
    &&& full.contains(g.active)
    &&& full.contains(g.next)
    &&& g.bag.to_multiset().insert(g.next).insert(g.active) == full.to_multiset()
}

/// The move the arrow keys ask for.
pub fn movement_delta(keys: &PressedKeys) -> (r: Vec3i)
    ensures
        r == key_delta(*keys),
{
    let mut delta = Vec3i { x: 0, y: 0, z: 0 };
    if keys.left {
        delta.x = delta.x + 1;
    }
    if keys.right {
        delta.x = delta.x - 1;
    }
    if keys.down {
        delta.y = delta.y - 1;
    }
    if keys.up {
        delta.y = delta.y + 1;
    }
    delta
}

/// The turn the turning keys ask for.
pub fn rotation_for_keys(keys: &PressedKeys) -> (r: Option<(Axis, RotationDirection)>)
    ensures
        r == key_rotation(*keys),
{
    if keys.turn_x_positive {
        Some((Axis::X, RotationDirection::Positive))
    } else if keys.turn_x_negative {
        Some((Axis::X, RotationDirection::Negative))
    } else if keys.turn_y_positive {
        Some((Axis::Y, RotationDirection::Positive))
    } else if keys.turn_y_negative {
        Some((Axis::Y, RotationDirection::Negative))
    } else if keys.turn_z_positive {
        Some((Axis::Z, RotationDirection::Positive))
    } else if keys.turn_z_negative {
        Some((Axis::Z, RotationDirection::Negative))
    } else {
        None
    }
}

/// The state of a game.
pub struct GameModel {
    pub well: Well,
    pub active_figure: Figure,
    pub next_figure: Figure,
    pub score: u64,
    pub figures_placed: u64,
    pub show_line: bool,
    pub game_over: bool,
    pub figure_bag: FigureBag,
}

impl View for GameModel {
    type V = GameView;

    open spec fn view(&self) -> GameView {
        GameView {
            well: self.well@,
            active: self.active_figure@,
            next: self.next_figure@,
            score: self.score as int,
            figures_placed: self.figures_placed as int,
            show_line: self.show_line,
            game_over: self.game_over,
            bag: figure_views(self.figure_bag.figures@),
            block_set: self.figure_bag.block_set,
            spawn_pivot: self.figure_bag.spawn_pivot,
        }
    }
}

impl GameModel {
    /// The game's shape: a pit-sized well, a bag spawning at `(1, 1, 0)`, kept active and
    /// next figures, and, unless the game is over, the active figure inside the well on
    /// free slots.
    pub open spec fn wf(self) -> bool {
        &&& self.well.wf()
        &&& is_pit_well(self.well)
        &&& self.figure_bag.wf()
        &&& self.figure_bag.spawn_pivot == (Vec3i { x: 1, y: 1, z: 0 })
        &&& figure_ok(self.active_figure@)
        &&& figure_ok(self.next_figure@)
        &&& !self.game_over ==> self.well.fits(self.active_figure@.blocks)
    }

    /// A new game with the settings: an empty well of the pit's size, a fresh bag of the
    /// block set, the first two figures dealt from it, no score.
    pub fn new(settings: crate::settings::GameSettings) -> (game: GameModel)
        ensures
            game.wf(),
            fresh_game(game@, settings),
    {
        let mut figure_bag = FigureBag::new(settings.block_set, settings.pit_size);
        let ghost full = full_bag(settings.block_set, spawn_pivot_for(settings.pit_size));
        proof {
            assert(full.len() >= 3) by {
                assert(block_set_kinds(settings.block_set).len() >= 3);
            }
            assert(figure_views(figure_bag.figures@).len() >= 3) by {
                broadcast use vstd::seq_lib::group_to_multiset_ensures;
                assert(figure_views(figure_bag.figures@).to_multiset().len() == figure_views(figure_bag.figures@).len());
                assert(full.to_multiset().len() == full.len());
            }
        }
        let ghost bag0 = figure_views(figure_bag.figures@);
        let active_figure = figure_bag.next_figure();
        let ghost bag1 = figure_views(figure_bag.figures@);
        let next_figure = figure_bag.next_figure();
        let ghost bag2 = figure_views(figure_bag.figures@);
        proof {
            vstd::seq_lib::to_multiset_build(bag1, active_figure@);
            assert(bag0 =~= bag1.push(active_figure@));
            vstd::seq_lib::to_multiset_build(bag2, next_figure@);
            assert(bag1 =~= bag2.push(next_figure@));
        }
        let (well_width, well_height, well_depth) = settings.pit_size.dimensions();
        let well = Well::new(well_width, well_height, well_depth);
        proof {
            lemma_fresh_ok(active_figure@, settings.block_set);
            lemma_fresh_ok(next_figure@, settings.block_set);
            assert forall|p: Vec3i| #[trigger] well@.cell(p) is None by {
                assert(well.cell(p) is None);
            }
            lemma_fresh_fits_empty(well@, active_figure@, settings.block_set);
        }
        GameModel {
            well,
            active_figure,
            next_figure,
            show_line: true,
            game_over: false,
            figure_bag,
            score: 0,
            figures_placed: 0,
        }
    }

    /// Moves the active figure by `delta` if `delta` moves it across the entrance and it
    /// then fits. Returns whether it moved.
    pub fn try_move(&mut self, delta: Vec3i) -> (moved: bool)
        requires
            old(self).wf(),
            !old(self).game_over,
            can_move(old(self).active_figure.pivot, old(self).active_figure@.blocks, delta),
        ensures
            final(self).wf(),
            final(self)@ == move_step(old(self)@, delta),
            moved == (final(self).active_figure@ != old(self).active_figure@),
    {
        if delta.x != 0 || delta.y != 0 {
            let mut candidate = self.active_figure.duplicate();
            candidate.move_by(delta);
            if self.well.can_place_figure(&candidate) {
                proof {
                    lemma_moved_ok(old(self).active_figure@, delta);
                    lemma_fitting_in_play(self.well, candidate@);
                    assert(candidate@.blocks != old(self).active_figure@.blocks) by {
                        assert(candidate@.blocks[0].position != old(self).active_figure@.blocks[0].position);
                    }
                }
                self.active_figure = candidate;
                return true;
            }
        }
        false
    }

    /// Changes the active figure to the next of its orientations that fits, if any.
    /// Returns whether it changed.
    pub fn cycle_orientation(&mut self) -> (changed: bool)
        requires
            old(self).wf(),
            !old(self).game_over,
        ensures
            final(self).wf(),
            final(self)@ == cycle_step(old(self)@),
            changed == next_orientation(old(self).well@, old(self).active_figure@) is Some,
    {
        proof {
            lemma_orientation_candidates_ok(self.active_figure@);
        }
        match figure_with_next_orientation(&self.well, &self.active_figure) {
            Some(candidate) => {
                proof {
                    lemma_next_orientation_ok(self.well@, self.active_figure@, 1);
                    lemma_fitting_in_play(self.well, candidate@);
                }
                self.active_figure = candidate;
                true
            },
            None => false,
        }
    }

    /// Turns the active figure a quarter turn around `axis` in `direction`, with the
    /// entrance kick, if it then fits. Returns whether it turned.
    pub fn rotate_active(&mut self, axis: Axis, direction: RotationDirection) -> (turned: bool)
        requires
            old(self).wf(),
            !old(self).game_over,
        ensures
            final(self).wf(),
            final(self)@ == rotate_step(old(self)@, axis, direction),
            turned == entrance_kick(old(self).well@, turned_figure_n(old(self).active_figure@, axis, quarter_turns(direction))) is Some,
    {
        proof {
            lemma_turned_n_ok(self.active_figure@, axis, quarter_turns(direction));
            lemma_kicked_ok(turned_figure_n(self.active_figure@, axis, quarter_turns(direction)));
        }
        match rotated_figure_with_entrance_kick(&self.well, &self.active_figure, axis, direction) {
            Some(candidate) => {
                proof {
                    lemma_fitting_in_play(self.well, candidate@);
                }
                self.active_figure = candidate;
                true
            },
            None => false,
        }
    }

    /// Shows or hides the guide line.
    pub fn toggle_line(&mut self)
        requires
            old(self).wf(),
        ensures
            final(self).wf(),
            final(self)@ == toggle_step(old(self)@),
    {
        self.show_line = !self.show_line;
    }

    /// Locks the active figure where it is, clears the full planes, counts and scores,
    /// and brings in the next figure. Returns the cleared planes.
    pub fn lock_active_figure(&mut self) -> (cleared: Vec<Plane>)
        requires
            old(self).wf(),
            !old(self).game_over,
            lock_room(old(self)@, old(self).active_figure@),
        ensures
            final(self).wf(),
            lock_step(old(self)@, final(self)@, old(self).active_figure@, plane_views(cleared@)),
    {
        let locked_figure = self.active_figure.duplicate();
        self.well.lock_figure(&locked_figure);
        self.figures_placed = self.figures_placed + 1;
        let cleared_planes = self.well.clear_full_planes();
        let earned_score = score_for_cleared_planes(cleared_planes.len());
        self.score = self.score + earned_score;
        self.active_figure = self.next_figure.duplicate();
        self.next_figure = self.figure_bag.next_figure();
        let can_spawn = self.well.can_place_figure(&self.active_figure);
        if !can_spawn {
            self.game_over = true;
        }
        proof {
            lemma_fresh_ok(self.next_figure@, self.figure_bag.block_set);
            assert(plane_views(cleared_planes@) == cleared_planes@.map_values(|p: Plane| p.blocks@));
            assert(self.well@ =~= (WellView {
                grid: self.well.grid(),
                ..old(self).well@
            }));
        }
        cleared_planes
    }

    /// Drops the active figure as far as it goes, locks it there, clears the full planes,
    /// counts and scores, and brings in the next figure. Returns the cleared planes.
    pub fn hard_drop(&mut self) -> (cleared: Vec<Plane>)
        requires
            old(self).wf(),
            !old(self).game_over,
            lock_room(old(self)@, hard_dropped(old(self).well@, old(self).active_figure@)),
        ensures
            final(self).wf(),
            lock_step(old(self)@, final(self)@, hard_dropped(old(self).well@, old(self).active_figure@), plane_views(cleared@)),
    {
        let ghost target = hard_dropped(self.well@, self.active_figure@);
        loop
            invariant
                self.wf(),
                !self.game_over,
                self@ == with_active(old(self)@, self.active_figure@),
                hard_dropped(self.well@, self.active_figure@) == target,
            ensures
                self.wf(),
                !self.game_over,
                self@ == with_active(old(self)@, self.active_figure@),
                hard_dropped(self.well@, self.active_figure@) == target,
                !self.well@.fits(moved_figure(self.active_figure@, down()).blocks),
            decreases self.well.depth - self.active_figure@.blocks[0].position.z,
        {
            let mut candidate = self.active_figure.duplicate();
            proof {
                assert forall|k: int| 0 <= k < candidate@.blocks.len() implies crate::geometry::add_fits(#[trigger] candidate@.blocks[k].position, down()) by {
                    assert(-2 <= candidate@.blocks[k].position.x - candidate@.pivot.x <= 2);
                }
            }
            candidate.move_by(Vec3i { x: 0, y: 0, z: 1 });
            if self.well.can_place_figure(&candidate) {
                proof {
                    lemma_moved_ok(self.active_figure@, down());
                    lemma_fitting_in_play(self.well, candidate@);
                    assert(self.well@.in_bounds(candidate@.blocks[0].position));
                }
                self.active_figure = candidate;
            } else {
                break;
            }
        }
        assert(target == self.active_figure@);
        self.lock_active_figure()
    }

    /// One gravity tick: the active figure moves down a plane if it fits there; otherwise
    /// it is locked where it is, the full planes are cleared and the next figure comes in,
    /// and the cleared planes are returned. Nothing happens once the game is over.
    pub fn gravity_step(&mut self) -> (cleared: Option<Vec<Plane>>)
        requires
            old(self).wf(),
            !old(self).game_over && !old(self).well@.fits(moved_figure(old(self).active_figure@, down()).blocks)
                ==> lock_room(old(self)@, old(self).active_figure@),
        ensures
            final(self).wf(),
            old(self).game_over ==> final(self)@ == old(self)@ && cleared is None,
            !old(self).game_over && old(self).well@.fits(moved_figure(old(self).active_figure@, down()).blocks) ==> {
                &&& final(self)@ == with_active(old(self)@, moved_figure(old(self).active_figure@, down()))
                &&& cleared is None
            },
            !old(self).game_over && !old(self).well@.fits(moved_figure(old(self).active_figure@, down()).blocks) ==> {
                &&& cleared is Some
                &&& lock_step(old(self)@, final(self)@, old(self).active_figure@, plane_views(cleared->0@))
            },
    {
        if self.game_over {
            return None;
        }
        let mut candidate = self.active_figure.duplicate();
        proof {
            assert forall|k: int| 0 <= k < candidate@.blocks.len() implies crate::geometry::add_fits(#[trigger] candidate@.blocks[k].position, down()) by {
                assert(-2 <= candidate@.blocks[k].position.x - candidate@.pivot.x <= 2);
            }
        }
        candidate.move_by(Vec3i { x: 0, y: 0, z: 1 });
        if self.well.can_place_figure(&candidate) {
            proof {
                lemma_moved_ok(self.active_figure@, down());
                lemma_fitting_in_play(self.well, candidate@);
            }
            self.active_figure = candidate;
            None
        } else {
            Some(self.lock_active_figure())
        }
    }

    /// Handles the keys pressed since the last frame, as the game screen does: nothing once
    /// the game is over; otherwise the move, the orientation change, the turn and the
    /// guide-line toggle the keys ask for, in that order, and then the drop if asked for.
    /// Returns the planes the drop cleared.
    pub fn handle_input(&mut self, keys: PressedKeys) -> (cleared: Vec<Plane>)
        requires
            old(self).wf(),
            !old(self).game_over && keys.drop ==> lock_room(
                before_drop(old(self)@, keys),
                hard_dropped(before_drop(old(self)@, keys).well, before_drop(old(self)@, keys).active),
            ),
        ensures
            final(self).wf(),
            old(self).game_over ==> final(self)@ == old(self)@ && cleared@.len() == 0,
            !old(self).game_over && !keys.drop ==> final(self)@ == before_drop(old(self)@, keys) && cleared@.len() == 0,
            !old(self).game_over && keys.drop ==> lock_step(
                before_drop(old(self)@, keys),
                final(self)@,
                hard_dropped(before_drop(old(self)@, keys).well, before_drop(old(self)@, keys).active),
                plane_views(cleared@),
            ),
    {
        if self.game_over {
            return Vec::new();
        }
        let delta = movement_delta(&keys);
        proof {
            assert forall|k: int| 0 <= k < self.active_figure@.blocks.len() implies crate::geometry::add_fits(#[trigger] self.active_figure@.blocks[k].position, delta) by {
                assert(-2 <= self.active_figure@.blocks[k].position.x - self.active_figure@.pivot.x <= 2);
            }
        }
        self.try_move(delta);
        if keys.next_orientation {
            self.cycle_orientation();
        }
        if let Some((axis, direction)) = rotation_for_keys(&keys) {
            self.rotate_active(axis, direction);
        }
        if keys.toggle_line {
            self.toggle_line();
        }
        if keys.drop {
            self.hard_drop()
        } else {
            Vec::new()
        }
    }

    /// The colour the depth meter shows for plane `z_index`.
    pub fn depth_meter_color(&self, z_index: usize) -> (r: Option<Color>)
        requires
            self.wf(),
            z_index < self.well.depth,
        ensures
            r == depth_meter_color(self@, z_index as int),
    {
        let z = z_index as i32;
        let blocks = &self.active_figure.blocks;
        let mut i: usize = 0;
        assert(blocks@.skip(0) =~= blocks@);
        while i < blocks.len()
            invariant
                i <= blocks@.len(),
                z == z_index,
                blocks@ == self.active_figure@.blocks,
                first_color_at_depth(blocks@, z as int) == first_color_at_depth(blocks@.skip(i as int), z as int),
            decreases blocks.len() - i,
        {
            assert(blocks@.skip(i as int).drop_first() =~= blocks@.skip(i + 1));
            assert(blocks@.skip(i as int)[0] == blocks@[i as int]);
            if blocks[i].position.z == z {
                return Some(blocks[i].color);
            }
            i = i + 1;
        }
        assert(blocks@.skip(i as int).len() == 0);
        assert(self.well@.grid[z_index as int] == self.well.planes@[z_index as int].blocks@);
        let slots = &self.well.planes[z_index].blocks;
        let mut j: usize = 0;
        assert(slots@.skip(0) =~= slots@);
        while j < slots.len()
            invariant
                j <= slots@.len(),
                slots@ == self.well@.grid[z_index as int],
                depth_meter_color(self@, z_index as int) == first_locked_color(slots@),
                first_locked_color(slots@) == first_locked_color(slots@.skip(j as int)),
            decreases slots.len() - j,
        {
            assert(slots@.skip(j as int).drop_first() =~= slots@.skip(j + 1));
            assert(slots@.skip(j as int)[0] == slots@[j as int]);
            if let Some(b) = slots[j] {
                return Some(b.color);
            }
            j = j + 1;
        }
        None
    }

    /// Starts a new game with the settings if the game is over. Returns whether it did.
    pub fn restart_if_over(&mut self, settings: crate::settings::GameSettings) -> (restarted: bool)
        requires
            old(self).wf(),
        ensures
            final(self).wf(),
            restarted == old(self).game_over,
            old(self).game_over ==> fresh_game(final(self)@, settings),
            !old(self).game_over ==> final(self)@ == old(self)@,
    {
        if !self.game_over {
            return false;
        }
        *self = GameModel::new(settings);
        true
    }
}

} // verus!

//! Turning the active figure: quarter turns, cycling through its orientations, and the
//! entrance kick that pushes a figure sticking out of the entrance back into the well.
use vstd::prelude::*;

use crate::figure::{can_move, moved_figure, turned_figure_n, can_turn_n, Block, Figure, FigureModel};
use crate::geometry::{add_fits, quarter_turns, vadd, Axis, RotationDirection, Vec3i};
use crate::orientation::{figure_orientations, min_coord, normalize, normalized_orientation, offsets, offsets_fit, orientation_signature, orientation_views, same_positions, shift_fits, sort_positions, unique_figure_orientations, all_small};
use crate::well::{Well, WellView};

verus! {

/// The block positions, in block order.
pub open spec fn positions_of(blocks: Seq<Block>) -> Seq<Vec3i> {
    blocks.map_values(|b: Block| b.position)
}

/// The smallest depth of any block: how close the figure comes to the entrance.
pub open spec fn lowest_z(blocks: Seq<Block>) -> int {
    min_coord(positions_of(blocks), Axis::Z)
}

/// The move that brings a figure sticking out of the entrance back to depth 0.
pub open spec fn kick_delta(f: FigureModel) -> Vec3i {
    Vec3i { x: 0, y: 0, z: (-lowest_z(f.blocks)) as i32 }
}

/// The figure, pushed down so that no block lies above the entrance.
pub open spec fn kicked_figure(f: FigureModel) -> FigureModel {
    if lowest_z(f.blocks) < 0 {
        moved_figure(f, kick_delta(f))
    } else {
        f
    }
}

/// The push that `kicked_figure` makes stays in `i32`.
pub open spec fn can_kick(f: FigureModel) -> bool {
    lowest_z(f.blocks) < 0 ==> lowest_z(f.blocks) > i32::MIN && can_move(f.pivot, f.blocks, kick_delta(f))
}

/// The figure after the entrance kick if it then fits into the well; nothing for a figure
/// without blocks or one that does not fit.
pub open spec fn entrance_kick(well: WellView, f: FigureModel) -> Option<FigureModel> {
    if f.blocks.len() == 0 {
        None
    } else if well.fits(kicked_figure(f).blocks) {
        Some(kicked_figure(f))
    } else {
        None
    }
}

/// The mathematical value of an optional figure.
pub open spec fn figure_option_view(r: Option<Figure>) -> Option<FigureModel> {
    match r {
        Some(f) => Some(f@),
        None => None,
    }
}

/// The index of the first orientation in the list, from `i` on, with the given shape; 0
/// when there is none.
pub open spec fn first_shape_index(list: Seq<Seq<Vec3i>>, shape: Seq<Vec3i>, i: int) -> int
    decreases list.len() - i,
{
    if i < 0 || i >= list.len() {
        0
    } else if normalize(list[i]) == shape {
        i
    } else {
        first_shape_index(list, shape, i + 1)
    }
}

/// The index of the figure's current orientation among the orientations of its kind: the
/// first one of the same shape, or 0.
pub open spec fn current_orientation_index(f: FigureModel) -> int {
    first_shape_index(figure_orientations(f.kind), normalize(sort_positions(offsets(f))), 0)
}

/// The figure with its blocks placed at `pivot + o[i]`, block by block, as far as both
/// sequences reach.
pub open spec fn with_orientation(f: FigureModel, o: Seq<Vec3i>) -> FigureModel {
    FigureModel {
        kind: f.kind,
        pivot: f.pivot,
        blocks: Seq::new(
            f.blocks.len(),
            |i: int|
                if i < o.len() {
                    Block { position: vadd(f.pivot, o[i]), ..f.blocks[i] }
                } else {
                    f.blocks[i]
                },
        ),
    }
}

/// The figure in the orientation `step` places after its current one, cyclically.
pub open spec fn orientation_candidate(f: FigureModel, step: int) -> FigureModel {
    let list = figure_orientations(f.kind);
    with_orientation(f, list[(current_orientation_index(f) + step) % (list.len() as int)])
}

/// The first of the orientations `step`, `step + 1`, ... places after the current one
/// (short of a full cycle) that fits into the well after the entrance kick.
pub open spec fn next_orientation_from(well: WellView, f: FigureModel, step: int) -> Option<FigureModel>
    decreases figure_orientations(f.kind).len() - step,
{
    if step < 1 || step >= figure_orientations(f.kind).len() {
        None
    } else {
        match entrance_kick(well, orientation_candidate(f, step)) {
            Some(g) => Some(g),
            None => next_orientation_from(well, f, step + 1),
        }
    }
}

/// The next orientation of the figure that fits, cycling from the current one.
pub open spec fn next_orientation(well: WellView, f: FigureModel) -> Option<FigureModel> {
    next_orientation_from(well, f, 1)
}

/// Placing the blocks at `pivot + offset` for the orientation `step` places after the
/// current one, and then kicking the result, stays in `i32`.
pub open spec fn candidate_fits(f: FigureModel, step: int) -> bool {
    let list = figure_orientations(f.kind);
    let o = list[(current_orientation_index(f) + step) % (list.len() as int)];
    &&& forall|j: int| 0 <= j < f.blocks.len() && 0 <= j < o.len() ==> add_fits(f.pivot, #[trigger] o[j])
    &&& can_kick(orientation_candidate(f, step))
}

/// The figure pushed down so that no block lies above the entrance, if it then fits into
/// the well.
pub fn figure_with_entrance_kick(well: &Well, candidate: Figure) -> (r: Option<Figure>)
    requires
        well.wf(),
        can_kick(candidate@),
    ensures
        figure_option_view(r) == entrance_kick(well@, candidate@),
{
    if candidate.blocks.len() == 0 {
        return None;
    }
    let ghost positions = positions_of(candidate@.blocks);
    let mut min_z = candidate.blocks[0].position.z;
    let mut i: usize = 1;
    while i < candidate.blocks.len()
        invariant
            positions == positions_of(candidate@.blocks),
            1 <= i <= candidate.blocks@.len(),
            min_z == min_coord(positions.take(i as int), Axis::Z),
        decreases candidate.blocks.len() - i,
    {
        assert(positions.take(i + 1).drop_last() =~= positions.take(i as int));
        assert(positions.take(i + 1).last() == candidate.blocks@[i as int].position);
        if candidate.blocks[i].position.z < min_z {
            min_z = candidate.blocks[i].position.z;
        }
        i = i + 1;
    }
    assert(positions.take(i as int) =~= positions);
    let mut candidate = candidate;
    if min_z < 0 {
        candidate.move_by(Vec3i { x: 0, y: 0, z: -min_z });
    }
    if well.can_place_figure(&candidate) {
        Some(candidate)
    } else {
        None
    }
}

/// The figure turned a quarter turn around `axis` in `direction` (a negative turn is three
/// positive ones), then pushed back below the entrance, if it then fits into the well.
pub fn rotated_figure_with_entrance_kick(
    well: &Well,
    figure: &Figure,
    axis: Axis,
    direction: RotationDirection,
) -> (r: Option<Figure>)
    requires
        well.wf(),
        can_turn_n(figure@, axis, quarter_turns(direction)),
        can_kick(turned_figure_n(figure@, axis, quarter_turns(direction))),
    ensures
        figure_option_view(r) == entrance_kick(well@, turned_figure_n(figure@, axis, quarter_turns(direction))),
{
    let mut candidate = figure.duplicate();
    let quarter_turns: u8 = match direction {
        RotationDirection::Positive => 1,
        RotationDirection::Negative => 3,
    };
    let mut t: u8 = 0;
    while t < quarter_turns
        invariant
            t <= quarter_turns,
            quarter_turns == crate::geometry::quarter_turns(direction),
            can_turn_n(figure@, axis, quarter_turns as nat),
            candidate@ == turned_figure_n(figure@, axis, t as nat),
        decreases quarter_turns - t,
    {
        proof {
            lemma_can_turn_prefix(figure@, axis, quarter_turns as nat, (t + 1) as nat);
        }
        candidate.rotate_90(axis);
        t = t + 1;
    }
    figure_with_entrance_kick(well, candidate)
}

/// Being able to make `n` quarter turns means being able to make fewer.
pub proof fn lemma_can_turn_prefix(f: FigureModel, axis: Axis, n: nat, k: nat)
    requires
        can_turn_n(f, axis, n),
        k <= n,
    ensures
        can_turn_n(f, axis, k),
    decreases n - k,
{
    if k < n {
        lemma_can_turn_prefix(f, axis, (n - 1) as nat, k);
    }
}

/// The figure in the next of its kind's orientations (cycling from its current one) that
/// fits into the well after the entrance kick; nothing if none of the others fits.
pub fn figure_with_next_orientation(well: &Well, figure: &Figure) -> (r: Option<Figure>)
    requires
        well.wf(),
        offsets_fit(figure@),
        shift_fits(sort_positions(offsets(figure@))),
        forall|step: int| 1 <= step < figure_orientations(figure.kind).len() ==> #[trigger] candidate_fits(figure@, step),
    ensures
        figure_option_view(r) == next_orientation(well@, figure@),
{
    let orientations = unique_figure_orientations(figure.kind);
    let ghost list = figure_orientations(figure.kind);
    let current = orientation_signature(figure);
    let current_shape = normalized_orientation(current.as_slice());
    let ghost shape = normalize(sort_positions(offsets(figure@)));
    let count = orientations.len();
    let mut current_index: usize = 0;
    let mut i: usize = 0;
    let mut found = false;
    while i < count && !found
        invariant
            count == orientations@.len(),
            orientation_views(orientations@) == list,
            forall|k: int| 0 <= k < orientations@.len() ==> all_small(#[trigger] orientations@[k]@),
            current_shape@ == shape,
            i <= count,
            !found ==> current_index == 0,
            !found ==> first_shape_index(list, shape, 0) == first_shape_index(list, shape, i as int),
            found ==> current_index as int == first_shape_index(list, shape, 0) && current_index < count,
        decreases count - i + if found { 0int } else { 1int },
    {
        proof {
            crate::orientation::lemma_small_shift_fits(orientations@[i as int]@);
        }
        let candidate_shape = normalized_orientation(orientations[i].as_slice());
        assert(list[i as int] == orientations@[i as int]@);
        if same_positions(&candidate_shape, &current_shape) {
            current_index = i;
            found = true;
        } else {
            i = i + 1;
        }
    }
    assert(current_index as int == current_orientation_index(figure@));
    let mut step: usize = 1;
    while step < count
        invariant
            count == orientations@.len(),
            orientation_views(orientations@) == list,
            list == figure_orientations(figure.kind),
            forall|k: int| 0 <= k < orientations@.len() ==> all_small(#[trigger] orientations@[k]@),
            current_index as int == current_orientation_index(figure@),
            current_index < count,
            count <= 72,
            1 <= step,
            well.wf(),
            forall|s: int| 1 <= s < list.len() ==> #[trigger] candidate_fits(figure@, s),
            next_orientation(well@, figure@) == next_orientation_from(well@, figure@, step as int),
        decreases count - step,
    {
        let index = (current_index + step) % count;
        let orientation = &orientations[index];
        assert(orientation@ == list[index as int]);
        assert(candidate_fits(figure@, step as int));
        let mut candidate = figure.duplicate();
        let reach = if candidate.blocks.len() < orientation.len() { candidate.blocks.len() } else { orientation.len() };
        let mut j: usize = 0;
        while j < reach
            invariant
                reach <= candidate.blocks@.len(),
                reach <= orientation@.len(),
                forall|k: int| 0 <= k < figure@.blocks.len() && 0 <= k < orientation@.len() ==> add_fits(figure.pivot, #[trigger] orientation@[k]),
                candidate.kind == figure.kind,
                candidate.pivot == figure.pivot,
                candidate.blocks@.len() == figure.blocks@.len(),
                j <= reach,
                forall|k: int| 0 <= k < j ==> #[trigger] candidate.blocks@[k] == (Block {
                    position: vadd(figure.pivot, orientation@[k]),
                    ..figure.blocks@[k]
                }),
                forall|k: int| j <= k < candidate.blocks@.len() ==> #[trigger] candidate.blocks@[k] == figure.blocks@[k],
            decreases reach - j,
        {
            let local_position = orientation[j];
            assert(add_fits(figure.pivot, orientation@[j as int]));
            let block = candidate.blocks[j];
            candidate.blocks[j] = Block { position: candidate.pivot.translated(local_position), ..block };
            j = j + 1;
        }
        assert(candidate@ == orientation_candidate(figure@, step as int)) by {
            assert(candidate@.blocks =~= with_orientation(figure@, orientation@).blocks);
        }
        if let Some(kicked) = figure_with_entrance_kick(well, candidate) {
            return Some(kicked);
        }
        step = step + 1;
    }
    None
}

} // verus!

//! Blocks and the figures made of them.
use vstd::prelude::*;

use crate::geometry::{
    add_fits, rotate, rotation_fits, sub_fits, vadd, vsub, Axis,
    Vec3i,
};

verus! {

/// The colour a block is drawn in.
#[derive(Debug, Clone, Copy, PartialEq, Eq, Hash, Structural)]
pub enum Color {
    Cyan,
    Orange,
    Green,
    Purple,
    Yellow,
}

/// The surface a block is drawn with.
#[derive(Debug, Clone, Copy, PartialEq, Eq, Hash, Structural)]
pub enum Material {
    Metal,
    Rubber,
    Crystal,
    Neon,
}

/// The shape of a figure.
#[derive(Debug, Clone, Copy, PartialEq, Eq, Structural)]
pub enum FigureKind {
    I,
    O,
    T,
    L,
    J,
    S,
    Z,
    Tripod,
    ScrewLeft,
    ScrewRight,
}

/// One cube: where it is and how it looks.
#[derive(Debug, Clone, Copy, PartialEq, Eq, Structural)]
pub struct Block {
    pub position: Vec3i,
    pub color: Color,
    pub material: Material,
}

/// A figure: its kind, the pivot it turns around (a world position) and its blocks, whose
/// positions are world positions too.
#[derive(Debug, Clone, PartialEq, Eq)]
pub struct Figure {
    pub kind: FigureKind,
    pub pivot: Vec3i,
    pub blocks: Vec<Block>,
}

/// What a figure is, as a mathematical value: its kind, pivot and block sequence.
pub struct FigureModel {
    pub kind: FigureKind,
    pub pivot: Vec3i,
    pub blocks: Seq<Block>,
}

impl View for Figure {
    type V = FigureModel;

    open spec fn view(&self) -> FigureModel {
        FigureModel { kind: self.kind, pivot: self.pivot, blocks: self.blocks@ }
    }
}

/// The figure moved by `delta`.
pub open spec fn moved_figure(f: FigureModel, delta: Vec3i) -> FigureModel {
    FigureModel { kind: f.kind, pivot: vadd(f.pivot, delta), blocks: moved_blocks(f.blocks, delta) }
}

/// The figure turned a quarter turn around `axis` through its pivot.
pub open spec fn turned_figure(f: FigureModel, axis: Axis) -> FigureModel {
    FigureModel { kind: f.kind, pivot: f.pivot, blocks: rotated_blocks(f.blocks, f.pivot, axis) }
}

/// The figure turned `n` quarter turns around `axis` through its pivot.
pub open spec fn turned_figure_n(f: FigureModel, axis: Axis, n: nat) -> FigureModel
    decreases n,
{
    if n == 0 {
        f
    } else {
        turned_figure(turned_figure_n(f, axis, (n - 1) as nat), axis)
    }
}

/// Each of `n` successive quarter turns around `axis` stays in `i32`.
pub open spec fn can_turn_n(f: FigureModel, axis: Axis, n: nat) -> bool
    decreases n,
{
    if n == 0 {
        true
    } else {
        can_turn_n(f, axis, (n - 1) as nat) && can_rotate(
            turned_figure_n(f, axis, (n - 1) as nat).pivot,
            turned_figure_n(f, axis, (n - 1) as nat).blocks,
            axis,
        )
    }
}

/// Width of the well a figure made by `Figure::new` is centred in.
pub const WELL_WIDTH: i32 = 4;

/// Height of the well a figure made by `Figure::new` is centred in.
pub const WELL_HEIGHT: i32 = 4;

/// The block offsets, relative to the pivot, of a figure of each kind as it spawns.
pub open spec fn shape_offsets(kind: FigureKind) -> Seq<Vec3i> {
    match kind {
        FigureKind::I => seq![
            Vec3i { x: -1i32, y: 0, z: 0 },
            Vec3i { x: 0, y: 0, z: 0 },
            Vec3i { x: 1, y: 0, z: 0 },
            Vec3i { x: 2, y: 0, z: 0 },
        ],
        FigureKind::O => seq![
            Vec3i { x: 0, y: 0, z: 0 },
            Vec3i { x: 1, y: 0, z: 0 },
            Vec3i { x: 0, y: 1, z: 0 },
            Vec3i { x: 1, y: 1, z: 0 },
        ],
        FigureKind::T => seq![
            Vec3i { x: -1i32, y: 0, z: 0 },
            Vec3i { x: 0, y: 0, z: 0 },
            Vec3i { x: 1, y: 0, z: 0 },
            Vec3i { x: 0, y: 1, z: 0 },
        ],
        FigureKind::L => seq![
            Vec3i { x: -1i32, y: 0, z: 0 },
            Vec3i { x: 0, y: 0, z: 0 },
            Vec3i { x: 1, y: 0, z: 0 },
            Vec3i { x: 1, y: 1, z: 0 },
        ],
        FigureKind::J => seq![
            Vec3i { x: -1i32, y: 1, z: 0 },
            Vec3i { x: -1i32, y: 0, z: 0 },
            Vec3i { x: 0, y: 0, z: 0 },
            Vec3i { x: 1, y: 0, z: 0 },
        ],
        FigureKind::S => seq![
            Vec3i { x: 0, y: 0, z: 0 },
            Vec3i { x: 1, y: 0, z: 0 },
            Vec3i { x: -1i32, y: 1, z: 0 },
            Vec3i { x: 0, y: 1, z: 0 },
        ],
        FigureKind::Z => seq![
            Vec3i { x: -1i32, y: 0, z: 0 },
            Vec3i { x: 0, y: 0, z: 0 },
            Vec3i { x: 0, y: 1, z: 0 },
            Vec3i { x: 1, y: 1, z: 0 },
        ],
        FigureKind::Tripod => seq![
            Vec3i { x: 0, y: 0, z: 0 },
            Vec3i { x: 1, y: 0, z: 0 },
            Vec3i { x: 0, y: 1, z: 0 },
            Vec3i { x: 0, y: 0, z: 1 },
        ],
        FigureKind::ScrewLeft => seq![
            Vec3i { x: -1i32, y: 0, z: 0 },
            Vec3i { x: 0, y: 0, z: 0 },
            Vec3i { x: 0, y: 1, z: 0 },
            Vec3i { x: 0, y: 1, z: 1 },
        ],
        FigureKind::ScrewRight => seq![
            Vec3i { x: 1, y: 0, z: 0 },
            Vec3i { x: 0, y: 0, z: 0 },
            Vec3i { x: 0, y: 1, z: 0 },
            Vec3i { x: 0, y: 1, z: 1 },
        ],
    }
}

/// Blocks of one colour and material at `pivot + offset` for each offset.
pub open spec fn blocks_at(offsets: Seq<Vec3i>, pivot: Vec3i, color: Color, material: Material) -> Seq<Block> {
    offsets.map_values(|o: Vec3i| Block { position: vadd(pivot, o), color, material })
}

/// Every block of a figure of `kind` spawned at `pivot` has a position in `i32`.
pub open spec fn spawn_fits(kind: FigureKind, pivot: Vec3i) -> bool {
    forall|i: int| 0 <= i < shape_offsets(kind).len() ==> add_fits(pivot, #[trigger] shape_offsets(kind)[i])
}

/// The pivot that `Figure::new` uses: the middle of a `WELL_WIDTH` by `WELL_HEIGHT` entrance.
pub open spec fn default_pivot() -> Vec3i {
    Vec3i { x: (WELL_WIDTH / 2 - 1) as i32, y: (WELL_HEIGHT / 2 - 1) as i32, z: 0 }
}

/// A block moved by `delta`, keeping its look.
pub open spec fn moved_block(b: Block, delta: Vec3i) -> Block {
    Block { position: vadd(b.position, delta), ..b }
}

/// Every block moved by `delta`.
pub open spec fn moved_blocks(blocks: Seq<Block>, delta: Vec3i) -> Seq<Block> {
    blocks.map_values(|b: Block| moved_block(b, delta))
}

/// A block turned a quarter turn around `axis` through `pivot`, keeping its look.
pub open spec fn rotated_block(b: Block, pivot: Vec3i, axis: Axis) -> Block {
    Block { position: vadd(pivot, rotate(vsub(b.position, pivot), axis)), ..b }
}

/// Every block turned a quarter turn around `axis` through `pivot`.
pub open spec fn rotated_blocks(blocks: Seq<Block>, pivot: Vec3i, axis: Axis) -> Seq<Block> {
    blocks.map_values(|b: Block| rotated_block(b, pivot, axis))
}

/// Every block can be moved by `delta`, and so can the pivot, without leaving `i32`.
pub open spec fn can_move(pivot: Vec3i, blocks: Seq<Block>, delta: Vec3i) -> bool {
    &&& add_fits(pivot, delta)
    &&& forall|i: int| 0 <= i < blocks.len() ==> add_fits(#[trigger] blocks[i].position, delta)
}

/// Every block can be turned around `axis` through `pivot` without leaving `i32`.
pub open spec fn can_rotate(pivot: Vec3i, blocks: Seq<Block>, axis: Axis) -> bool {
    forall|i: int| 0 <= i < blocks.len() ==> {
        let p = #[trigger] blocks[i].position;
        &&& sub_fits(p, pivot)
        &&& rotation_fits(vsub(p, pivot), axis)
        &&& add_fits(pivot, rotate(vsub(p, pivot), axis))
    }
}

/// Every block lies within two cells of the pivot along each axis.
pub open spec fn near_pivot(pivot: Vec3i, blocks: Seq<Block>) -> bool {
    forall|i: int| 0 <= i < blocks.len() ==> {
        &&& -2 <= (#[trigger] blocks[i]).position.x - pivot.x <= 2
        &&& -2 <= blocks[i].position.y - pivot.y <= 2
        &&& -2 <= blocks[i].position.z - pivot.z <= 2
    }
}

impl Figure {
    /// A figure of `kind` spawned around the middle of a `WELL_WIDTH` by `WELL_HEIGHT`
    /// entrance.
    pub fn new(kind: FigureKind, color: Color, material: Material) -> (f: Figure)
        ensures
            f.kind == kind,
            f.pivot == default_pivot(),
            f.blocks@ == blocks_at(shape_offsets(kind), default_pivot(), color, material),
    {
        Self::new_at(kind, color, material, Vec3i { x: WELL_WIDTH / 2 - 1, y: WELL_HEIGHT / 2 - 1, z: 0 })
    }

    /// A figure of `kind` whose pivot is `pivot`, every block in the given colour and
    /// material.
    pub fn new_at(kind: FigureKind, color: Color, material: Material, pivot: Vec3i) -> (f: Figure)
        requires
            spawn_fits(kind, pivot),
        ensures
            f.kind == kind,
            f.pivot == pivot,
            f.blocks@ == blocks_at(shape_offsets(kind), pivot, color, material),
    {
        let local_positions: Vec<Vec3i> = match kind {
            FigureKind::I => vec![
                Vec3i { x: -1i32, y: 0, z: 0 },
                Vec3i { x: 0, y: 0, z: 0 },
                Vec3i { x: 1, y: 0, z: 0 },
                Vec3i { x: 2, y: 0, z: 0 },
            ],
            FigureKind::O => vec![
                Vec3i { x: 0, y: 0, z: 0 },
                Vec3i { x: 1, y: 0, z: 0 },
                Vec3i { x: 0, y: 1, z: 0 },
                Vec3i { x: 1, y: 1, z: 0 },
            ],
            FigureKind::T => vec![
                Vec3i { x: -1i32, y: 0, z: 0 },
                Vec3i { x: 0, y: 0, z: 0 },
                Vec3i { x: 1, y: 0, z: 0 },
                Vec3i { x: 0, y: 1, z: 0 },
            ],
            FigureKind::L => vec![
                Vec3i { x: -1i32, y: 0, z: 0 },
                Vec3i { x: 0, y: 0, z: 0 },
                Vec3i { x: 1, y: 0, z: 0 },
                Vec3i { x: 1, y: 1, z: 0 },
            ],
            FigureKind::J => vec![
                Vec3i { x: -1i32, y: 1, z: 0 },
                Vec3i { x: -1i32, y: 0, z: 0 },
                Vec3i { x: 0, y: 0, z: 0 },
                Vec3i { x: 1, y: 0, z: 0 },
            ],
            FigureKind::S => vec![
                Vec3i { x: 0, y: 0, z: 0 },
                Vec3i { x: 1, y: 0, z: 0 },
                Vec3i { x: -1i32, y: 1, z: 0 },
                Vec3i { x: 0, y: 1, z: 0 },
            ],
            FigureKind::Z => vec![
                Vec3i { x: -1i32, y: 0, z: 0 },
                Vec3i { x: 0, y: 0, z: 0 },
                Vec3i { x: 0, y: 1, z: 0 },
                Vec3i { x: 1, y: 1, z: 0 },
            ],
            FigureKind::Tripod => vec![
                Vec3i { x: 0, y: 0, z: 0 },
                Vec3i { x: 1, y: 0, z: 0 },
                Vec3i { x: 0, y: 1, z: 0 },
                Vec3i { x: 0, y: 0, z: 1 },
            ],
            FigureKind::ScrewLeft => vec![
                Vec3i { x: -1i32, y: 0, z: 0 },
                Vec3i { x: 0, y: 0, z: 0 },
                Vec3i { x: 0, y: 1, z: 0 },
                Vec3i { x: 0, y: 1, z: 1 },
            ],
            FigureKind::ScrewRight => vec![
                Vec3i { x: 1, y: 0, z: 0 },
                Vec3i { x: 0, y: 0, z: 0 },
                Vec3i { x: 0, y: 1, z: 0 },
                Vec3i { x: 0, y: 1, z: 1 },
            ],
        };
        assert(local_positions@ == shape_offsets(kind));

        let mut blocks: Vec<Block> = Vec::new();
        let mut i: usize = 0;
        while i < local_positions.len()
            invariant
                local_positions@ == shape_offsets(kind),
                spawn_fits(kind, pivot),
                i <= local_positions.len(),
                blocks@ == blocks_at(local_positions@.take(i as int), pivot, color, material),
            decreases local_positions.len() - i,
        {
            let offset = local_positions[i];
            assert(add_fits(pivot, shape_offsets(kind)[i as int]));
            blocks.push(Block { position: pivot.translated(offset), color, material });
            assert(local_positions@.take(i + 1) == local_positions@.take(i as int).push(offset));
            i = i + 1;
        }
        assert(local_positions@.take(i as int) == local_positions@);

        Figure { kind, pivot, blocks }
    }

    /// A copy of the figure.
    pub fn duplicate(&self) -> (r: Figure)
        ensures
            r@ == self@,
    {
        let mut blocks: Vec<Block> = Vec::new();
        let mut i: usize = 0;
        while i < self.blocks.len()
            invariant
                i <= self.blocks@.len(),
                blocks@ == self.blocks@.take(i as int),
            decreases self.blocks.len() - i,
        {
            blocks.push(self.blocks[i]);
            assert(blocks@ =~= self.blocks@.take(i + 1));
            i = i + 1;
        }
        assert(blocks@ =~= self.blocks@);
        Figure { kind: self.kind, pivot: self.pivot, blocks }
    }

    /// Moves the pivot and every block by `delta`.
    pub fn move_by(&mut self, delta: Vec3i)
        requires
            can_move(old(self).pivot, old(self).blocks@, delta),
        ensures
            final(self).kind == old(self).kind,
            final(self).pivot == vadd(old(self).pivot, delta),
            final(self).blocks@ == moved_blocks(old(self).blocks@, delta),
            final(self)@ == moved_figure(old(self)@, delta),
    {
        self.pivot = self.pivot.translated(delta);
        let ghost start_blocks = self.blocks@;
        let mut i: usize = 0;
        while i < self.blocks.len()
            invariant
                self.kind == old(self).kind,
                self.pivot == vadd(old(self).pivot, delta),
                start_blocks == old(self).blocks@,
                i <= self.blocks.len(),
                self.blocks@.len() == start_blocks.len(),
                forall|j: int| 0 <= j < start_blocks.len() ==> add_fits(#[trigger] start_blocks[j].position, delta),
                forall|j: int| 0 <= j < i ==> self.blocks@[j] == moved_block(#[trigger] start_blocks[j], delta),
                forall|j: int| i <= j < start_blocks.len() ==> self.blocks@[j] == #[trigger] start_blocks[j],
            decreases self.blocks.len() - i,
        {
            let block = self.blocks[i];
            assert(start_blocks[i as int] == block);
            self.blocks[i] = Block { position: block.position.translated(delta), ..block };
            i = i + 1;
        }
        assert(self.blocks@ =~= moved_blocks(start_blocks, delta));
    }

    /// Turns every block a quarter turn the positive way around `axis` through the pivot.
    pub fn rotate_90(&mut self, axis: Axis)
        requires
            can_rotate(old(self).pivot, old(self).blocks@, axis),
        ensures
            final(self).kind == old(self).kind,
            final(self).pivot == old(self).pivot,
            final(self).blocks@ == rotated_blocks(old(self).blocks@, old(self).pivot, axis),
            final(self)@ == turned_figure(old(self)@, axis),
    {
        let ghost start_blocks = self.blocks@;
        let pivot = self.pivot;
        let mut i: usize = 0;
        while i < self.blocks.len()
            invariant
                pivot == self.pivot,
                self.kind == old(self).kind,
                pivot == old(self).pivot,
                start_blocks == old(self).blocks@,
                i <= self.blocks.len(),
                self.blocks@.len() == start_blocks.len(),
                can_rotate(pivot, start_blocks, axis),
                forall|j: int| 0 <= j < i ==> self.blocks@[j] == rotated_block(#[trigger] start_blocks[j], pivot, axis),
                forall|j: int| i <= j < start_blocks.len() ==> self.blocks@[j] == #[trigger] start_blocks[j],
            decreases self.blocks.len() - i,
        {
            let block = self.blocks[i];
            assert(start_blocks[i as int] == block);
            let local_position = block.position.relative_to(pivot);
            let rotated_position = local_position.rotated_90(axis);
            self.blocks[i] = Block { position: pivot.translated(rotated_position), ..block };
            i = i + 1;
        }
        assert(self.blocks@ =~= rotated_blocks(start_blocks, pivot, axis));
    }
}

} // verus!

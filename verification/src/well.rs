//! The well: a stack of planes, each a `width` by `height` grid of slots that may hold a
//! locked block. Plane 0 is the entrance, plane `depth - 1` the bottom.
use vstd::prelude::*;

use crate::figure::{Block, Figure};
use crate::geometry::Vec3i;

verus! {

/// One layer of the well, its slots numbered row by row (`y * width + x`).
#[derive(Debug, Clone, PartialEq, Eq)]
pub struct Plane {
    pub blocks: Vec<Option<Block>>,
}

/// The well the figures fall into.
#[derive(Debug, Clone, PartialEq, Eq)]
pub struct Well {
    pub width: i32,
    pub height: i32,
    pub depth: i32,
    pub planes: Vec<Plane>,
}

/// What a well is, as a mathematical value: its size and the slots of every plane.
pub struct WellView {
    pub width: i32,
    pub height: i32,
    pub depth: i32,
    pub grid: Seq<Seq<Option<Block>>>,
}

impl WellView {
    /// The number of slots in one plane.
    pub open spec fn slot_count(self) -> int {
        self.width * self.height
    }

    /// The position lies inside the well.
    pub open spec fn in_bounds(self, p: Vec3i) -> bool {
        &&& 0 <= p.x < self.width
        &&& 0 <= p.y < self.height
        &&& 0 <= p.z < self.depth
    }

    /// What the slot at a position holds; nothing outside the well.
    pub open spec fn cell(self, p: Vec3i) -> Option<Block> {
        if self.in_bounds(p) {
            slot_of(self.grid[p.z as int], self.width as int, p.x as int, p.y as int)
        } else {
            None
        }
    }

    /// The blocks all lie inside the well, on free slots.
    pub open spec fn fits(self, blocks: Seq<Block>) -> bool {
        forall|i: int|
            0 <= i < blocks.len() ==> self.in_bounds(#[trigger] blocks[i].position) && self.cell(
                blocks[i].position,
            ) is None
    }
}

impl View for Well {
    type V = WellView;

    open spec fn view(&self) -> WellView {
        WellView { width: self.width, height: self.height, depth: self.depth, grid: self.grid() }
    }
}

/// The contents of a plane with `n` slots and no block.
pub open spec fn empty_slots(n: int) -> Seq<Option<Block>> {
    Seq::new(n as nat, |i: int| None::<Block>)
}

/// Every slot holds a block.
pub open spec fn all_occupied(slots: Seq<Option<Block>>) -> bool {
    forall|i: int| 0 <= i < slots.len() ==> #[trigger] slots[i] is Some
}

/// The slot of column `x`, row `y` in a plane of the given width.
pub open spec fn slot_of(slots: Seq<Option<Block>>, width: int, x: int, y: int) -> Option<Block> {
    slots[y * width + x]
}

/// Every block in the plane sits at the column and row of its slot.
pub open spec fn xy_consistent(slots: Seq<Option<Block>>, width: int, height: int) -> bool {
    forall|x: int, y: int|
        0 <= x < width && 0 <= y < height ==> match #[trigger] slot_of(slots, width, x, y) {
            Some(b) => b.position.x == x && b.position.y == y,
            None => true,
        }
}

/// A block moved to plane `z`, keeping its column, row and look.
pub open spec fn block_in_plane(b: Block, z: int) -> Block {
    Block { position: Vec3i { x: b.position.x, y: b.position.y, z: z as i32 }, ..b }
}

/// The plane's blocks, each given the depth `z`.
pub open spec fn renumber(slots: Seq<Option<Block>>, z: int) -> Seq<Option<Block>> {
    slots.map_values(
        |c: Option<Block>|
            match c {
                Some(b) => Some(block_in_plane(b, z)),
                None => None,
            },
    )
}

/// Each plane's blocks given the depth of that plane.
pub open spec fn renumber_all(grid: Seq<Seq<Option<Block>>>) -> Seq<Seq<Option<Block>>> {
    Seq::new(grid.len(), |z: int| renumber(grid[z], z))
}

/// `n` planes of `slots` empty slots each.
pub open spec fn empty_planes(n: int, slots: int) -> Seq<Seq<Option<Block>>> {
    Seq::new(n as nat, |i: int| empty_slots(slots))
}

/// The number of slots that hold a block.
pub open spec fn count_occupied(slots: Seq<Option<Block>>) -> nat
    decreases slots.len(),
{
    if slots.len() == 0 {
        0
    } else {
        count_occupied(slots.drop_last()) + if slots.last() is Some {
            1nat
        } else {
            0nat
        }
    }
}

/// The number of slots over all planes that hold a block.
pub open spec fn count_occupied_planes(grid: Seq<Seq<Option<Block>>>) -> nat
    decreases grid.len(),
{
    if grid.len() == 0 {
        0
    } else {
        count_occupied_planes(grid.drop_last()) + count_occupied(grid.last())
    }
}

/// What clearing the full planes of `grid` does, scanning from the bottom up: the planes
/// that stay, in order, and the planes that are taken out, in the order they are taken
/// out, each with the depth it had when it was taken out. `base` is the index of `grid[0]`
/// in the whole well.
pub open spec fn clear_scan(grid: Seq<Seq<Option<Block>>>, base: int) -> (Seq<Seq<Option<Block>>>, Seq<Seq<Option<Block>>>)
    decreases grid.len(),
{
    if grid.len() == 0 {
        (Seq::empty(), Seq::empty())
    } else {
        let (kept, cleared) = clear_scan(grid.drop_first(), base + 1);
        if all_occupied(grid[0]) {
            (kept, cleared.push(renumber(grid[0], base + cleared.len())))
        } else {
            (seq![grid[0]] + kept, cleared)
        }
    }
}

/// A block locked into the grid at its own position.
pub open spec fn grid_with_block(grid: Seq<Seq<Option<Block>>>, width: int, b: Block) -> Seq<Seq<Option<Block>>> {
    let z = b.position.z as int;
    grid.update(z, grid[z].update(b.position.y * width + b.position.x, Some(b)))
}

/// The blocks locked into the grid one after the other.
pub open spec fn grid_with_blocks(grid: Seq<Seq<Option<Block>>>, width: int, blocks: Seq<Block>) -> Seq<Seq<Option<Block>>>
    decreases blocks.len(),
{
    if blocks.len() == 0 {
        grid
    } else {
        grid_with_block(grid_with_blocks(grid, width, blocks.drop_last()), width, blocks.last())
    }
}

/// The block positions are pairwise different.
pub open spec fn distinct_positions(blocks: Seq<Block>) -> bool {
    forall|i: int, j: int|
        0 <= i < blocks.len() && 0 <= j < blocks.len() && i != j ==> #[trigger] blocks[i].position
            != #[trigger] blocks[j].position
}

/// Slot index arithmetic: a column and row inside the plane give a slot inside it.
pub proof fn lemma_slot_in_range(width: int, height: int, x: int, y: int)
    requires
        0 <= x < width,
        0 <= y < height,
    ensures
        0 <= y * width + x < width * height,
{
    assert(0 <= y * width) by (nonlinear_arith)
        requires
            0 <= y,
            0 <= width,
    ;
    assert(y * width + width <= width * height) by (nonlinear_arith)
        requires
            0 <= y < height,
            0 <= width,
    ;
}

/// Slot index arithmetic: different columns or rows give different slots.
pub proof fn lemma_slot_injective(width: int, x1: int, y1: int, x2: int, y2: int)
    requires
        0 <= x1 < width,
        0 <= x2 < width,
        0 <= y1,
        0 <= y2,
        y1 * width + x1 == y2 * width + x2,
    ensures
        x1 == x2,
        y1 == y2,
{
    if y1 < y2 {
        assert(y1 * width + width <= y2 * width) by (nonlinear_arith)
            requires
                y1 < y2,
                0 <= width,
        ;
    } else if y2 < y1 {
        assert(y2 * width + width <= y1 * width) by (nonlinear_arith)
            requires
                y2 < y1,
                0 <= width,
        ;
    }
}

/// Giving a plane a depth twice is giving it the second depth.
pub proof fn lemma_renumber_twice(slots: Seq<Option<Block>>, a: int, b: int)
    ensures
        renumber(renumber(slots, a), b) == renumber(slots, b),
{
    assert(renumber(renumber(slots, a), b) =~= renumber(slots, b));
}

/// Giving a plane a depth does not change which slots hold blocks.
pub proof fn lemma_renumber_keeps_occupancy(slots: Seq<Option<Block>>, z: int)
    ensures
        all_occupied(renumber(slots, z)) == all_occupied(slots),
        renumber(slots, z).len() == slots.len(),
        forall|i: int| 0 <= i < slots.len() ==> (#[trigger] renumber(slots, z)[i] is Some) == (slots[i] is Some),
{
    if all_occupied(slots) {
        assert forall|i: int| 0 <= i < renumber(slots, z).len() implies #[trigger] renumber(slots, z)[i] is Some by {
            assert(slots[i] is Some);
        }
    }
    if all_occupied(renumber(slots, z)) {
        assert forall|i: int| 0 <= i < slots.len() implies #[trigger] slots[i] is Some by {
            assert(renumber(slots, z)[i] is Some);
        }
    }
}

/// Giving a plane a depth keeps every block at the column and row of its slot.
pub proof fn lemma_renumber_xy_consistent(slots: Seq<Option<Block>>, width: int, height: int, z: int)
    requires
        xy_consistent(slots, width, height),
        slots.len() == width * height,
        width > 0,
        height > 0,
    ensures
        xy_consistent(renumber(slots, z), width, height),
{
    assert forall|x: int, y: int| 0 <= x < width && 0 <= y < height implies match #[trigger] slot_of(renumber(slots, z), width, x, y) {
        Some(b) => b.position.x == x && b.position.y == y,
        None => true,
    } by {
        lemma_slot_in_range(width, height, x, y);
        assert(match slot_of(slots, width, x, y) {
            Some(b) => b.position.x == x && b.position.y == y,
            None => true,
        });
    }
}

/// An empty plane is not full, and its blocks sit where they belong.
pub proof fn lemma_empty_plane(n: int, width: int, height: int, z: int)
    requires
        n == width * height,
        width > 0,
        height > 0,
    ensures
        !all_occupied(empty_slots(n)),
        xy_consistent(empty_slots(n), width, height),
        renumber(empty_slots(n), z) == empty_slots(n),
        count_occupied(empty_slots(n)) == 0,
{
    assert(width * height > 0) by (nonlinear_arith)
        requires
            width > 0,
            height > 0,
    ;
    assert(empty_slots(n)[0] is None);
    assert forall|x: int, y: int| 0 <= x < width && 0 <= y < height implies match #[trigger] slot_of(empty_slots(n), width, x, y) {
        Some(b) => b.position.x == x && b.position.y == y,
        None => true,
    } by {
        lemma_slot_in_range(width, height, x, y);
    }
    assert(renumber(empty_slots(n), z) =~= empty_slots(n));
    lemma_count_none(empty_slots(n));
}

/// A plane of empty slots counts no block.
pub proof fn lemma_count_none(slots: Seq<Option<Block>>)
    requires
        forall|i: int| 0 <= i < slots.len() ==> #[trigger] slots[i] is None,
    ensures
        count_occupied(slots) == 0,
    decreases slots.len(),
{
    if slots.len() > 0 {
        lemma_count_none(slots.drop_last());
    }
}

/// Putting a block into a free slot counts one block more.
pub proof fn lemma_count_fill_slot(slots: Seq<Option<Block>>, i: int, b: Block)
    requires
        0 <= i < slots.len(),
        slots[i] is None,
    ensures
        count_occupied(slots.update(i, Some(b))) == count_occupied(slots) + 1,
    decreases slots.len(),
{
    let t = slots.update(i, Some(b));
    if i == slots.len() - 1 {
        assert(t.drop_last() =~= slots.drop_last());
    } else {
        assert(t.drop_last() =~= slots.drop_last().update(i, Some(b)));
        lemma_count_fill_slot(slots.drop_last(), i, b);
    }
}

/// Replacing one plane changes the count by the difference of the two planes' counts.
pub proof fn lemma_count_replace_plane(grid: Seq<Seq<Option<Block>>>, z: int, slots: Seq<Option<Block>>)
    requires
        0 <= z < grid.len(),
    ensures
        count_occupied_planes(grid.update(z, slots)) + count_occupied(grid[z]) == count_occupied_planes(grid)
            + count_occupied(slots),
    decreases grid.len(),
{
    let t = grid.update(z, slots);
    if z == grid.len() - 1 {
        assert(t.drop_last() =~= grid.drop_last());
    } else {
        assert(t.drop_last() =~= grid.drop_last().update(z, slots));
        lemma_count_replace_plane(grid.drop_last(), z, slots);
    }
}

/// A plane never counts more blocks than it has slots.
pub proof fn lemma_count_bounded(slots: Seq<Option<Block>>)
    ensures
        count_occupied(slots) <= slots.len(),
    decreases slots.len(),
{
    if slots.len() > 0 {
        lemma_count_bounded(slots.drop_last());
    }
}

/// The planes of a grid never count more blocks than they have slots.
pub proof fn lemma_count_planes_bounded(grid: Seq<Seq<Option<Block>>>, slots: int)
    requires
        forall|z: int| 0 <= z < grid.len() ==> (#[trigger] grid[z]).len() == slots,
    ensures
        count_occupied_planes(grid) <= grid.len() * slots,
    decreases grid.len(),
{
    if grid.len() > 0 {
        lemma_count_planes_bounded(grid.drop_last(), slots);
        lemma_count_bounded(grid.last());
        assert((grid.len() - 1) * slots + slots == grid.len() * slots) by (nonlinear_arith);
    }
}

impl Plane {
    /// A plane of `blocks_count` empty slots.
    pub fn empty(blocks_count: usize) -> (p: Plane)
        ensures
            p.blocks@ == empty_slots(blocks_count as int),
    {
        let mut blocks: Vec<Option<Block>> = Vec::new();
        let mut i: usize = 0;
        while i < blocks_count
            invariant
                i <= blocks_count,
                blocks@ == empty_slots(i as int),
            decreases blocks_count - i,
        {
            blocks.push(None);
            i = i + 1;
            assert(blocks@ =~= empty_slots(i as int));
        }
        Plane { blocks }
    }

    /// Whether every slot holds a block.
    pub fn is_full(&self) -> (r: bool)
        ensures
            r == all_occupied(self.blocks@),
    {
        let mut i: usize = 0;
        while i < self.blocks.len()
            invariant
                i <= self.blocks.len(),
                forall|j: int| 0 <= j < i ==> #[trigger] self.blocks@[j] is Some,
            decreases self.blocks.len() - i,
        {
            if self.blocks[i].is_none() {
                return false;
            }
            i = i + 1;
        }
        true
    }
}

impl Well {
    /// The slots of every plane, from the entrance down.
    pub open spec fn grid(self) -> Seq<Seq<Option<Block>>> {
        self.planes@.map_values(|p: Plane| p.blocks@)
    }

    /// The number of slots in one plane.
    pub open spec fn slot_count(self) -> int {
        self@.slot_count()
    }

    /// The position lies inside the well.
    pub open spec fn in_bounds(self, p: Vec3i) -> bool {
        self@.in_bounds(p)
    }

    /// What the slot at a position holds; nothing outside the well.
    pub open spec fn cell(self, p: Vec3i) -> Option<Block> {
        self@.cell(p)
    }

    /// The figure's blocks all lie inside the well, on free slots.
    pub open spec fn fits(self, blocks: Seq<Block>) -> bool {
        self@.fits(blocks)
    }

    /// The shape of the well: positive dimensions, the slot index fits `i32`, the slots of
    /// all planes can be counted in a `usize`, one plane per depth with one slot per
    /// column and row, and every locked block sits at the position of its slot.
    pub open spec fn wf(self) -> bool {
        &&& self.width > 0
        &&& self.height > 0
        &&& self.depth > 0
        &&& self.width * self.height <= i32::MAX
        &&& self.width * self.height * self.depth <= usize::MAX
        &&& self.planes@.len() == self.depth
        &&& forall|z: int| 0 <= z < self.depth ==> (#[trigger] self.grid()[z]).len() == self.slot_count()
        &&& forall|z: int| 0 <= z < self.depth ==> xy_consistent(#[trigger] self.grid()[z], self.width as int, self.height as int)
        &&& renumber_all(self.grid()) == self.grid()
    }

    /// An empty well of the given size.
    pub fn new(width: i32, height: i32, depth: i32) -> (w: Well)
        requires
            width > 0,
            height > 0,
            depth > 0,
            width * height <= i32::MAX,
            width * height * depth <= usize::MAX,
        ensures
            w.wf(),
            w.width == width,
            w.height == height,
            w.depth == depth,
            w.grid() == empty_planes(depth as int, width * height),
            forall|p: Vec3i| #[trigger] w.cell(p) is None,
    {
        let plane_block_count = (width * height) as usize;
        let mut planes: Vec<Plane> = Vec::new();
        let mut i: i32 = 0;
        while i < depth
            invariant
                0 <= i <= depth,
                plane_block_count == width * height,
                planes@.len() == i,
                forall|j: int| 0 <= j < i ==> (#[trigger] planes@[j]).blocks@ == empty_slots(width * height),
            decreases depth - i,
        {
            let plane = Plane::empty(plane_block_count);
            planes.push(plane);
            i = i + 1;
        }
        let w = Well { width, height, depth, planes };
        proof {
            assert(w.grid() =~= empty_planes(depth as int, width * height));
            assert(w.grid() == empty_planes(depth as int, width * height));
            assert forall|z: int| 0 <= z < depth implies xy_consistent(#[trigger] w.grid()[z], width as int, height as int) by {
                lemma_empty_plane(width * height, width as int, height as int, z);
            }
            assert forall|z: int| 0 <= z < depth implies renumber(w.grid()[z], z) == w.grid()[z] by {
                lemma_empty_plane(width * height, width as int, height as int, z);
            }
            assert(renumber_all(w.grid()) =~= w.grid());
            assert forall|p: Vec3i| #[trigger] w.cell(p) is None by {
                if w.in_bounds(p) {
                    lemma_slot_in_range(width as int, height as int, p.x as int, p.y as int);
                }
            }
        }
        w
    }

    /// The larger side of the entrance.
    pub fn entrance_size(&self) -> (r: i32)
        ensures
            r == if self.width >= self.height { self.width } else { self.height },
    {
        if self.width >= self.height { self.width } else { self.height }
    }

    /// Whether the position lies inside the well.
    pub fn contains(&self, position: Vec3i) -> (r: bool)
        ensures
            r == self.in_bounds(position),
    {
        position.x >= 0 && position.x < self.width && position.y >= 0 && position.y < self.height
            && position.z >= 0 && position.z < self.depth
    }

    /// The index of the position's slot within its plane.
    pub fn plane_slot_index(&self, position: Vec3i) -> (r: usize)
        requires
            self.wf(),
            self.in_bounds(position),
        ensures
            r == position.y * self.width + position.x,
            r < self.slot_count(),
    {
        proof {
            lemma_slot_in_range(self.width as int, self.height as int, position.x as int, position.y as int);
        }
        (position.y * self.width + position.x) as usize
    }

    /// The block locked at a position, if any; nothing outside the well.
    pub fn block_at(&self, position: Vec3i) -> (r: Option<Block>)
        requires
            self.wf(),
        ensures
            r == self.cell(position),
    {
        if !self.contains(position) {
            return None;
        }
        let plane_index = position.z as usize;
        let slot_index = self.plane_slot_index(position);
        assert(self.grid()[plane_index as int] == self.planes@[plane_index as int].blocks@);
        self.planes[plane_index].blocks[slot_index]
    }

    /// Whether a block is locked at the position.
    pub fn is_occupied(&self, position: Vec3i) -> (r: bool)
        requires
            self.wf(),
        ensures
            r == self.cell(position) is Some,
    {
        self.block_at(position).is_some()
    }

    /// Locks a block into the free slot at its own position.
    pub fn place_block(&mut self, block: Block)
        requires
            old(self).wf(),
            old(self).in_bounds(block.position),
            old(self).cell(block.position) is None,
        ensures
            final(self).wf(),
            final(self).width == old(self).width,
            final(self).height == old(self).height,
            final(self).depth == old(self).depth,
            final(self).grid() == grid_with_block(old(self).grid(), old(self).width as int, block),
            final(self).cell(block.position) == Some(block),
            forall|q: Vec3i| q != block.position ==> #[trigger] final(self).cell(q) == old(self).cell(q),
            count_occupied_planes(final(self).grid()) == count_occupied_planes(old(self).grid()) + 1,
    {
        let plane_index = block.position.z as usize;
        let slot_index = self.plane_slot_index(block.position);
        let ghost old_grid = self.grid();
        let ghost w = self.width as int;
        let ghost h = self.height as int;
        let mut plane = Plane { blocks: Vec::new() };
        std::mem::swap(&mut plane, &mut self.planes[plane_index]);
        assert(plane.blocks@ == old_grid[plane_index as int]);
        plane.blocks.set(slot_index, Some(block));
        std::mem::swap(&mut plane, &mut self.planes[plane_index]);
        proof {
            let z = plane_index as int;
            assert(self.grid() =~= grid_with_block(old_grid, w, block));
            let new_slots = self.grid()[z];
            assert forall|x: int, y: int| 0 <= x < w && 0 <= y < h implies match #[trigger] slot_of(new_slots, w, x, y) {
                Some(b) => b.position.x == x && b.position.y == y,
                None => true,
            } by {
                lemma_slot_in_range(w, h, x, y);
                if y * w + x == slot_index {
                    lemma_slot_injective(w, x, y, block.position.x as int, block.position.y as int);
                } else {
                    assert(slot_of(new_slots, w, x, y) == slot_of(old_grid[z], w, x, y));
                }
            }
            assert forall|zz: int| 0 <= zz < self.depth implies renumber(self.grid()[zz], zz) == self.grid()[zz] by {
                assert(renumber(old_grid[zz], zz) == old_grid[zz]) by {
                    assert(renumber_all(old_grid)[zz] == old_grid[zz]);
                }
                if zz == z {
                    assert(renumber(new_slots, zz) =~= new_slots) by {
                        assert forall|i: int| 0 <= i < new_slots.len() implies #[trigger] renumber(new_slots, zz)[i] == new_slots[i] by {
                            if i != slot_index {
                                assert(renumber(old_grid[zz], zz)[i] == old_grid[zz][i]);
                            }
                        }
                    }
                }
            }
            assert(renumber_all(self.grid()) =~= self.grid());
            lemma_count_fill_slot(old_grid[z], slot_index as int, block);
            lemma_count_replace_plane(old_grid, z, new_slots);
            assert forall|q: Vec3i| q != block.position implies #[trigger] self.cell(q) == old(self).cell(q) by {
                if self.in_bounds(q) {
                    lemma_slot_in_range(w, h, q.x as int, q.y as int);
                    if q.z as int == z && q.y * w + q.x == slot_index {
                        lemma_slot_injective(w, q.x as int, q.y as int, block.position.x as int, block.position.y as int);
                    }
                }
            }
        }
    }
    /// The number of locked blocks.
    pub fn occupied_count(&self) -> (r: usize)
        requires
            self.wf(),
        ensures
            r == count_occupied_planes(self.grid()),
    {
        let ghost grid = self.grid();
        let ghost slots = self.slot_count();
        proof {
            lemma_count_planes_bounded(grid, slots);
            assert(grid.len() * slots <= usize::MAX) by (nonlinear_arith)
                requires
                    grid.len() == self.depth,
                    slots == self.width * self.height,
                    self.width * self.height * self.depth <= usize::MAX,
            ;
        }
        let mut total: usize = 0;
        let mut z: usize = 0;
        while z < self.planes.len()
            invariant
                self.wf(),
                grid == self.grid(),
                slots == self.slot_count(),
                count_occupied_planes(grid) <= usize::MAX,
                grid.len() * slots <= usize::MAX,
                z <= grid.len(),
                total == count_occupied_planes(grid.take(z as int)),
            decreases self.planes.len() - z,
        {
            let plane = &self.planes[z];
            let ghost row = grid[z as int];
            assert(plane.blocks@ == row);
            let mut in_plane: usize = 0;
            let mut i: usize = 0;
            proof {
                lemma_count_bounded(row);
            }
            while i < plane.blocks.len()
                invariant
                    plane.blocks@ == row,
                    i <= row.len(),
                    in_plane == count_occupied(row.take(i as int)),
                    row.len() <= usize::MAX,
                decreases plane.blocks.len() - i,
            {
                assert(row.take(i + 1).drop_last() =~= row.take(i as int));
                proof {
                    lemma_count_bounded(row.take(i as int));
                }
                if plane.blocks[i].is_some() {
                    in_plane = in_plane + 1;
                }
                i = i + 1;
            }
            assert(row.take(i as int) =~= row);
            assert(grid.take(z + 1).drop_last() =~= grid.take(z as int));
            assert(grid.take(z + 1).last() == row);
            proof {
                lemma_count_planes_prefix(grid, z as int + 1);
                lemma_count_planes_bounded(grid.take(z as int + 1), slots);
                assert((z + 1) * slots <= grid.len() * slots) by (nonlinear_arith)
                    requires
                        z + 1 <= grid.len(),
                        slots >= 0,
                ;
            }
            total = total + in_plane;
            z = z + 1;
        }
        assert(grid.take(z as int) =~= grid);
        total
    }

    /// Whether every block of the figure lies inside the well on a free slot.
    pub fn can_place_figure(&self, figure: &Figure) -> (r: bool)
        requires
            self.wf(),
        ensures
            r == self.fits(figure.blocks@),
    {
        let mut i: usize = 0;
        while i < figure.blocks.len()
            invariant
                self.wf(),
                i <= figure.blocks.len(),
                forall|j: int| 0 <= j < i ==> self.in_bounds(#[trigger] figure.blocks@[j].position) && self.cell(figure.blocks@[j].position) is None,
            decreases figure.blocks.len() - i,
        {
            let block = figure.blocks[i];
            if !self.contains(block.position) || self.is_occupied(block.position) {
                return false;
            }
            i = i + 1;
        }
        true
    }

    /// Locks every block of the figure into the well at its position.
    pub fn lock_figure(&mut self, figure: &Figure)
        requires
            old(self).wf(),
            old(self).fits(figure.blocks@),
            distinct_positions(figure.blocks@),
        ensures
            final(self).wf(),
            final(self).width == old(self).width,
            final(self).height == old(self).height,
            final(self).depth == old(self).depth,
            final(self).grid() == grid_with_blocks(old(self).grid(), old(self).width as int, figure.blocks@),
            forall|i: int| 0 <= i < figure.blocks@.len() ==> final(self).cell(#[trigger] figure.blocks@[i].position) == Some(figure.blocks@[i]),
            forall|q: Vec3i| (forall|i: int| 0 <= i < figure.blocks@.len() ==> #[trigger] figure.blocks@[i].position != q)
                ==> #[trigger] final(self).cell(q) == old(self).cell(q),
            count_occupied_planes(final(self).grid()) == count_occupied_planes(old(self).grid()) + figure.blocks@.len(),
    {
        let ghost blocks = figure.blocks@;
        let ghost w = self.width as int;
        let mut i: usize = 0;
        while i < figure.blocks.len()
            invariant
                self.wf(),
                blocks == figure.blocks@,
                w == self.width,
                self.width == old(self).width,
                self.height == old(self).height,
                self.depth == old(self).depth,
                old(self).fits(blocks),
                distinct_positions(blocks),
                i <= blocks.len(),
                self.grid() == grid_with_blocks(old(self).grid(), w, blocks.take(i as int)),
                count_occupied_planes(self.grid()) == count_occupied_planes(old(self).grid()) + i,
                forall|j: int| 0 <= j < i ==> self.cell(#[trigger] blocks[j].position) == Some(blocks[j]),
                forall|j: int| i <= j < blocks.len() ==> self.cell(#[trigger] blocks[j].position) is None,
                forall|q: Vec3i| (forall|j: int| 0 <= j < i ==> #[trigger] blocks[j].position != q)
                    ==> #[trigger] self.cell(q) == old(self).cell(q),
            decreases blocks.len() - i,
        {
            let block = figure.blocks[i];
            assert(old(self).in_bounds(blocks[i as int].position));
            self.place_block(block);
            assert(blocks.take(i + 1).drop_last() =~= blocks.take(i as int));
            assert(blocks.take(i + 1).last() == block);
            proof {
                assert forall|j: int| 0 <= j < i + 1 implies self.cell(#[trigger] blocks[j].position) == Some(blocks[j]) by {
                    if j < i {
                        assert(blocks[j].position != blocks[i as int].position);
                    }
                }
                assert forall|j: int| i + 1 <= j < blocks.len() implies self.cell(#[trigger] blocks[j].position) is None by {
                    assert(blocks[j].position != blocks[i as int].position);
                }
                assert forall|q: Vec3i| (forall|j: int| 0 <= j < i + 1 ==> #[trigger] blocks[j].position != q)
                    implies #[trigger] self.cell(q) == old(self).cell(q) by {
                    assert(blocks[i as int].position != q);
                }
            }
            i = i + 1;
        }
        assert(blocks.take(i as int) =~= blocks);
    }

    /// Whether plane `z` exists and every one of its slots holds a block.
    pub fn is_plane_full(&self, z: i32) -> (r: bool)
        requires
            self.wf(),
        ensures
            r == (0 <= z < self.depth && all_occupied(self.grid()[z as int])),
    {
        if z < 0 || z >= self.depth {
            return false;
        }
        self.planes[z as usize].is_full()
    }

    /// Gives every block the depth of the plane it is in.
    fn update_block_z_coordinates(&mut self)
        requires
            old(self).planes@.len() <= i32::MAX,
        ensures
            final(self).width == old(self).width,
            final(self).height == old(self).height,
            final(self).depth == old(self).depth,
            final(self).grid() == renumber_all(old(self).grid()),
    {
        let ghost before = self.grid();
        let mut z: usize = 0;
        while z < self.planes.len()
            invariant
                self.width == old(self).width,
                self.height == old(self).height,
                self.depth == old(self).depth,
                before == old(self).grid(),
                self.planes@.len() == before.len(),
                self.planes@.len() <= i32::MAX,
                z <= before.len(),
                forall|j: int| 0 <= j < z ==> (#[trigger] self.grid()[j]) == renumber(before[j], j),
                forall|j: int| z <= j < before.len() ==> (#[trigger] self.grid()[j]) == before[j],
            decreases self.planes.len() - z,
        {
            let renumbered = renumbered_plane(&self.planes[z], z as i32);
            let ghost prev = self.planes@;
            assert(prev[z as int].blocks@ == before[z as int]) by {
                assert(self.grid()[z as int] == before[z as int]);
            }
            self.planes.set(z, renumbered);
            proof {
                assert(self.planes@ == prev.update(z as int, renumbered));
                assert forall|j: int| 0 <= j < z + 1 implies (#[trigger] self.grid()[j]) == renumber(before[j], j) by {
                    if j < z {
                        assert(self.grid()[j] == prev[j].blocks@);
                        assert(prev.map_values(|p: Plane| p.blocks@)[j] == prev[j].blocks@);
                    }
                }
                assert forall|j: int| z + 1 <= j < before.len() implies (#[trigger] self.grid()[j]) == before[j] by {
                    assert(self.grid()[j] == prev[j].blocks@);
                    assert(prev.map_values(|p: Plane| p.blocks@)[j] == prev[j].blocks@);
                }
            }
            z = z + 1;
        }
        assert(self.grid() =~= renumber_all(before));
    }

    /// Takes out plane `z` if it is full: the planes above it move one down, an empty plane
    /// appears at the entrance, and the removed plane is returned. Otherwise nothing changes.
    pub fn clear_plane(&mut self, z: i32) -> (r: Option<Plane>)
        requires
            old(self).wf(),
        ensures
            final(self).wf(),
            final(self).width == old(self).width,
            final(self).height == old(self).height,
            final(self).depth == old(self).depth,
            (0 <= z < old(self).depth && all_occupied(old(self).grid()[z as int])) ==> {
                &&& r is Some
                &&& r->0.blocks@ == old(self).grid()[z as int]
                &&& final(self).grid() == renumber_all(
                    seq![empty_slots(old(self).slot_count())] + old(self).grid().remove(z as int),
                )
            },
            !(0 <= z < old(self).depth && all_occupied(old(self).grid()[z as int])) ==> {
                &&& r is None
                &&& final(self).grid() == old(self).grid()
            },
    {
        if !self.is_plane_full(z) {
            return None;
        }
        let ghost before = self.grid();
        let removed_plane = self.planes.remove(z as usize);
        let plane_block_count = (self.width * self.height) as usize;
        self.planes.insert(0, Plane::empty(plane_block_count));
        let ghost shifted = seq![empty_slots(self.slot_count())] + before.remove(z as int);
        assert(self.grid() =~= shifted);
        self.update_block_z_coordinates();
        proof {
            let w = self.width as int;
            let h = self.height as int;
            lemma_empty_plane(self.slot_count(), w, h, 0);
            assert forall|k: int| 0 <= k < self.depth implies (#[trigger] self.grid()[k]).len() == self.slot_count()
                && xy_consistent(self.grid()[k], w, h) by {
                assert(self.grid()[k] == renumber(shifted[k], k));
                if k > 0 {
                    assert(shifted[k] == before.remove(z as int)[k - 1]);
                    if k - 1 < z {
                        assert(shifted[k] == before[k - 1]);
                    } else {
                        assert(shifted[k] == before[k]);
                    }
                }
                lemma_renumber_xy_consistent(shifted[k], w, h, k);
            }
            assert forall|k: int| 0 <= k < self.depth implies renumber(self.grid()[k], k) == self.grid()[k] by {
                lemma_renumber_twice(shifted[k], k, k);
            }
            assert(renumber_all(self.grid()) =~= self.grid());
        }
        Some(removed_plane)
    }

    /// Takes out every full plane, scanning from the bottom up, and returns the planes
    /// taken out in the order they were taken out.
    pub fn clear_full_planes(&mut self) -> (r: Vec<Plane>)
        requires
            old(self).wf(),
        ensures
            final(self).wf(),
            final(self).width == old(self).width,
            final(self).height == old(self).height,
            final(self).depth == old(self).depth,
            r@.map_values(|p: Plane| p.blocks@) == clear_scan(old(self).grid(), 0).1,
            final(self).grid() == renumber_all(
                empty_planes(clear_scan(old(self).grid(), 0).1.len() as int, old(self).slot_count())
                    + clear_scan(old(self).grid(), 0).0,
            ),
    {
        let ghost g = self.grid();
        let ghost n = self.slot_count();
        let ghost d = self.depth as int;
        let mut cleared_planes: Vec<Plane> = Vec::new();
        let mut z: i32 = self.depth - 1;
        let ghost mut u: int = d;
        proof {
            assert(g.subrange(d, d) =~= Seq::<Seq<Option<Block>>>::empty());
            assert(empty_planes(0, n) + g.subrange(0, d) + Seq::<Seq<Option<Block>>>::empty() =~= g);
        }
        while z >= 0
            invariant
                self.wf(),
                g == old(self).grid(),
                g.len() == d,
                n == self.slot_count(),
                d == self.depth,
                self.width == old(self).width,
                self.height == old(self).height,
                self.depth == old(self).depth,
                0 <= u <= d,
                -1 <= z < d,
                u > 0 ==> z == cleared_planes@.len() + u - 1,
                u == 0 ==> z < cleared_planes@.len(),
                cleared_planes@.map_values(|p: Plane| p.blocks@) == clear_scan(g.subrange(u, d), u).1,
                self.grid() == renumber_all(
                    empty_planes(cleared_planes@.len() as int, n) + g.subrange(0, u) + clear_scan(g.subrange(u, d), u).0,
                ),
            decreases z + 1 + u,
        {
            let ghost c = cleared_planes@.len() as int;
            let ghost before = self.grid();
            let ghost scan = clear_scan(g.subrange(u, d), u);
            let ghost layout = empty_planes(c, n) + g.subrange(0, u) + scan.0;
            proof {
                lemma_clear_scan_lengths(g.subrange(u, d), u);
                lemma_empty_plane(n, self.width as int, self.height as int, z as int);
                assert(layout.len() == d);
                assert(before[z as int] == renumber(layout[z as int], z as int));
                if u > 0 {
                    assert(empty_planes(c, n).len() == c);
                    assert((empty_planes(c, n) + g.subrange(0, u))[z as int] == g.subrange(0, u)[u - 1]);
                    assert(layout[z as int] == g[u - 1]);
                } else {
                    assert(layout[z as int] == empty_slots(n));
                }
                lemma_renumber_keeps_occupancy(layout[z as int], z as int);
            }
            if let Some(plane) = self.clear_plane(z) {
                proof {
                    assert(u > 0);
                    let p = g[u - 1];
                    assert(g.subrange(u - 1, d).drop_first() =~= g.subrange(u, d));
                    assert(g.subrange(u - 1, d)[0] == p);
                    assert(clear_scan(g.subrange(u - 1, d), u - 1).0 == scan.0);
                    assert(clear_scan(g.subrange(u - 1, d), u - 1).1 == scan.1.push(renumber(p, u - 1 + c)));
                    let new_layout = empty_planes(c + 1, n) + g.subrange(0, u - 1) + scan.0;
                    let shifted = seq![empty_slots(n)] + before.remove(z as int);
                    assert(shifted.len() == new_layout.len());
                    assert forall|k: int| 0 <= k < shifted.len() implies renumber(#[trigger] shifted[k], k) == renumber(new_layout[k], k) by {
                        if k == 0 {
                        } else if k - 1 < z {
                            assert(shifted[k] == before[k - 1]);
                            assert(before[k - 1] == renumber(layout[k - 1], k - 1));
                            lemma_renumber_twice(layout[k - 1], k - 1, k);
                            if k - 1 < c {
                                assert(layout[k - 1] == empty_slots(n));
                                assert(new_layout[k] == empty_slots(n));
                            } else {
                                assert(layout[k - 1] == g[k - 1 - c]);
                                assert(new_layout[k] == g[k - 1 - c]);
                            }
                        } else {
                            assert(shifted[k] == before[k]);
                            assert(before[k] == renumber(layout[k], k));
                            lemma_renumber_twice(layout[k], k, k);
                            assert(layout[k] == new_layout[k]);
                        }
                    }
                    assert(renumber_all(shifted) =~= renumber_all(new_layout));
                    assert(plane.blocks@ == renumber(p, u - 1 + c));
                }
                cleared_planes.push(plane);
                proof {
                    u = u - 1;
                    assert(cleared_planes@.map_values(|p: Plane| p.blocks@) =~= clear_scan(g.subrange(u, d), u).1);
                }
            } else {
                proof {
                    if u > 0 {
                        let p = g[u - 1];
                        assert(g.subrange(u - 1, d).drop_first() =~= g.subrange(u, d));
                        assert(g.subrange(u - 1, d)[0] == p);
                        assert(!all_occupied(p));
                        assert(clear_scan(g.subrange(u - 1, d), u - 1).0 == seq![p] + scan.0);
                        assert(empty_planes(c, n) + g.subrange(0, u - 1) + (seq![p] + scan.0) =~= layout);
                        u = u - 1;
                    }
                }
                z = z - 1;
            }
        }
        proof {
            assert(u == 0);
            assert(g.subrange(0, d) =~= g);
            assert(g.subrange(0, 0) =~= Seq::<Seq<Option<Block>>>::empty());
            assert(empty_planes(cleared_planes@.len() as int, n) + g.subrange(0, 0) + clear_scan(g, 0).0
                =~= empty_planes(cleared_planes@.len() as int, n) + clear_scan(g, 0).0);
        }
        cleared_planes
    }
}

/// The plane's blocks, each given the depth `z`.
fn renumbered_plane(plane: &Plane, z: i32) -> (p: Plane)
    ensures
        p.blocks@ == renumber(plane.blocks@, z as int),
{
    let mut blocks: Vec<Option<Block>> = Vec::new();
    let mut i: usize = 0;
    while i < plane.blocks.len()
        invariant
            i <= plane.blocks.len(),
            blocks@ == renumber(plane.blocks@.take(i as int), z as int),
        decreases plane.blocks.len() - i,
    {
        let slot = match plane.blocks[i] {
            Some(b) => Some(Block { position: Vec3i { x: b.position.x, y: b.position.y, z }, ..b }),
            None => None,
        };
        blocks.push(slot);
        assert(plane.blocks@.take(i + 1) =~= plane.blocks@.take(i as int).push(plane.blocks@[i as int]));
        assert(blocks@ =~= renumber(plane.blocks@.take(i + 1), z as int));
        i = i + 1;
    }
    assert(plane.blocks@.take(i as int) =~= plane.blocks@);
    Plane { blocks }
}

/// Counting the planes of a prefix one more plane at a time.
proof fn lemma_count_planes_prefix(grid: Seq<Seq<Option<Block>>>, k: int)
    requires
        0 < k <= grid.len(),
    ensures
        count_occupied_planes(grid.take(k)) == count_occupied_planes(grid.take(k - 1)) + count_occupied(grid[k - 1]),
{
    assert(grid.take(k).drop_last() =~= grid.take(k - 1));
}

/// The scan keeps or takes out each plane exactly once.
pub proof fn lemma_clear_scan_lengths(grid: Seq<Seq<Option<Block>>>, base: int)
    ensures
        clear_scan(grid, base).0.len() + clear_scan(grid, base).1.len() == grid.len(),
    decreases grid.len(),
{
    if grid.len() > 0 {
        lemma_clear_scan_lengths(grid.drop_first(), base + 1);
    }
}

} // verus!

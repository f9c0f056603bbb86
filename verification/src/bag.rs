//! The figure bag: it deals every figure of the block set once, in random order, before it
//! is refilled.
use vstd::prelude::*;
use rand::seq::SliceRandom;

use crate::figure::{blocks_at, shape_offsets, spawn_fits, Color, Figure, FigureModel, FigureKind, Material};
use crate::geometry::Vec3i;
use crate::settings::{block_set_kinds, pit_dimensions, BlockSet, PitSize};

verus! {

broadcast use vstd::seq_lib::group_to_multiset_ensures;

#[verifier::external_type_specification]
#[verifier::external_body]
pub struct ExThreadRng(rand::rngs::ThreadRng);

/// Calls `rand::rng()`, which hands out the thread-local random generator (seeding it from
/// the operating system on first use, and panicking if the operating system has no
/// randomness to give). Nothing is promised of the generator.
#[verifier::external_body]
fn thread_rng() -> rand::rngs::ThreadRng {
    rand::rng()
}

/// Calls `SliceRandom::shuffle` on the figures with the given generator. Claimed: the
/// figures afterwards are a rearrangement of the figures before (the shuffle only swaps
/// elements). Which rearrangement comes out depends on the generator and is left open.
#[verifier::external_body]
fn shuffle_figures(figures: &mut Vec<Figure>, rng: &mut rand::rngs::ThreadRng)
    ensures
        final(figures)@.to_multiset() == old(figures)@.to_multiset(),
{
    figures.shuffle(rng);
}

/// A bag of figures for one block set, all spawning at the same pivot.
#[derive(Debug)]
pub struct FigureBag {
    pub figures: Vec<Figure>,
    pub block_set: BlockSet,
    pub spawn_pivot: Vec3i,
}

/// The colours handed to the figures of a fresh bag, in turn.
pub open spec fn bag_colors() -> Seq<Color> {
    seq![Color::Orange, Color::Cyan, Color::Green, Color::Purple, Color::Yellow]
}

/// The materials handed to the figures of a fresh bag, in turn.
pub open spec fn bag_materials() -> Seq<Material> {
    seq![Material::Metal, Material::Rubber, Material::Crystal, Material::Neon]
}

/// Figure number `i` of a fresh bag: of kind `kind`, spawned at `pivot`, with the `i`-th
/// colour and material, both cycling.
pub open spec fn fresh_figure(kind: FigureKind, i: int, pivot: Vec3i) -> FigureModel {
    FigureModel {
        kind,
        pivot,
        blocks: blocks_at(shape_offsets(kind), pivot, bag_colors()[i % 5], bag_materials()[i % 4]),
    }
}

/// All figures of a freshly filled bag, before shuffling.
pub open spec fn full_bag(block_set: BlockSet, pivot: Vec3i) -> Seq<FigureModel> {
    Seq::new(
        block_set_kinds(block_set).len(),
        |i: int| fresh_figure(block_set_kinds(block_set)[i], i, pivot),
    )
}

/// The figures, as values.
pub open spec fn figure_views(figures: Seq<Figure>) -> Seq<FigureModel> {
    figures.map_values(|f: Figure| f@)
}

/// Dealing one figure: from a non-empty bag the last figure, leaving the rest; from an
/// empty bag one figure of a refilled and shuffled bag, leaving the others.
pub open spec fn deal(before: Seq<FigureModel>, after: Seq<FigureModel>, dealt: FigureModel, full: Seq<FigureModel>) -> bool {
    if before.len() == 0 {
        after.to_multiset().insert(dealt) == full.to_multiset()
    } else {
        dealt == before.last() && after == before.drop_last()
    }
}

/// The spawn pivot of a pit: the middle of its entrance, rounded towards the origin, at
/// depth 0.
pub open spec fn spawn_pivot_for(pit: PitSize) -> Vec3i {
    Vec3i { x: (pit_dimensions(pit).0 / 2 - 1) as i32, y: (pit_dimensions(pit).1 / 2 - 1) as i32, z: 0 }
}

/// Every figure of the block set spawned at `pivot` has block positions in `i32`.
pub open spec fn spawns_fit(block_set: BlockSet, pivot: Vec3i) -> bool {
    forall|i: int| 0 <= i < block_set_kinds(block_set).len() ==> spawn_fits(#[trigger] block_set_kinds(block_set)[i], pivot)
}

/// Applying a function to every element of two arrangements of the same values gives two
/// arrangements of the same images.
pub proof fn lemma_map_multiset<A, B>(a: Seq<A>, b: Seq<A>, f: spec_fn(A) -> B)
    requires
        a.to_multiset() == b.to_multiset(),
    ensures
        a.map_values(f).to_multiset() == b.map_values(f).to_multiset(),
    decreases a.len(),
{
    if a.len() == 0 {
        assert(a.to_multiset().len() == a.len());
        assert(b.to_multiset().len() == b.len());
        assert(a.map_values(f) =~= b.map_values(f));
    } else {
        let x = a.last();
        let a1 = a.drop_last();
        assert(a =~= a1.push(x));
        assert(a.to_multiset().contains(x));
        assert(b.contains(x));
        let j = choose|j: int| 0 <= j < b.len() && b[j] == x;
        let b1 = b.remove(j);
        vstd::seq_lib::to_multiset_remove(b, j);
        vstd::seq_lib::to_multiset_build(a1, x);
        assert(a1.to_multiset() =~= b1.to_multiset());
        lemma_map_multiset(a1, b1, f);
        assert(a.map_values(f) =~= a1.map_values(f).push(f(x)));
        assert(b.map_values(f) =~= b1.map_values(f).insert(j, f(x)));
        vstd::seq_lib::to_multiset_build(a1.map_values(f), f(x));
        vstd::seq_lib::to_multiset_insert(b1.map_values(f), j, f(x));
    }
}

impl FigureBag {
    /// The bag holds only figures of a fresh bag, no more often than a fresh bag does, and
    /// its spawn pivot leaves room for every spawn offset.
    pub open spec fn wf(self) -> bool {
        &&& spawns_fit(self.block_set, self.spawn_pivot)
        &&& figure_views(self.figures@).to_multiset().subset_of(full_bag(self.block_set, self.spawn_pivot).to_multiset())
    }

    /// A filled and shuffled bag for the block set, spawning figures in the middle of the
    /// pit's entrance.
    pub fn new(block_set: BlockSet, pit_size: PitSize) -> (bag: FigureBag)
        ensures
            bag.wf(),
            bag.block_set == block_set,
            bag.spawn_pivot == spawn_pivot_for(pit_size),
            figure_views(bag.figures@).to_multiset() == full_bag(block_set, spawn_pivot_for(pit_size)).to_multiset(),
    {
        let (width, height, _) = pit_size.dimensions();
        let mut bag = FigureBag {
            figures: Vec::new(),
            block_set,
            spawn_pivot: Vec3i { x: width / 2 - 1, y: height / 2 - 1, z: 0 },
        };
        bag.refill();
        bag
    }

    /// Fills the bag with one figure of each kind of the block set, colours and materials
    /// handed out in turn, and shuffles it.
    pub fn refill(&mut self)
        requires
            spawns_fit(old(self).block_set, old(self).spawn_pivot),
        ensures
            final(self).block_set == old(self).block_set,
            final(self).spawn_pivot == old(self).spawn_pivot,
            final(self).wf(),
            figure_views(final(self).figures@).to_multiset() == full_bag(old(self).block_set, old(self).spawn_pivot).to_multiset(),
    {
        let kinds = self.block_set.figure_kinds();
        let colors = vec![Color::Orange, Color::Cyan, Color::Green, Color::Purple, Color::Yellow];
        let materials = vec![Material::Metal, Material::Rubber, Material::Crystal, Material::Neon];
        let ghost full = full_bag(self.block_set, self.spawn_pivot);
        assert(colors@ == bag_colors());
        assert(materials@ == bag_materials());
        let mut figures: Vec<Figure> = Vec::new();
        let mut i: usize = 0;
        while i < kinds.len()
            invariant
                kinds@ == block_set_kinds(self.block_set),
                colors@ == bag_colors(),
                materials@ == bag_materials(),
                full == full_bag(self.block_set, self.spawn_pivot),
                spawns_fit(self.block_set, self.spawn_pivot),
                i <= kinds@.len(),
                figure_views(figures@) == full.take(i as int),
            decreases kinds.len() - i,
        {
            assert(spawn_fits(kinds@[i as int], self.spawn_pivot));
            let figure = Figure::new_at(kinds[i], colors[i % 5], materials[i % 4], self.spawn_pivot);
            assert(figure@ == fresh_figure(kinds@[i as int], i as int, self.spawn_pivot));
            assert(full[i as int] == figure@);
            let ghost prev = figures@;
            figures.push(figure);
            assert(figures@ == prev.push(figure));
            assert(figure_views(figures@) =~= figure_views(prev).push(figure@));
            assert(full.take(i + 1) =~= full.take(i as int).push(full[i as int]));
            i = i + 1;
        }
        assert(figure_views(figures@) =~= full);
        let mut rng = thread_rng();
        let ghost laid_out = figures@;
        shuffle_figures(&mut figures, &mut rng);
        proof {
            lemma_map_multiset(figures@, laid_out, |f: Figure| f@);
        }
        self.figures = figures;
    }

    /// Deals the next figure, refilling the bag first if it is empty.
    pub fn next_figure(&mut self) -> (r: Figure)
        requires
            old(self).figures@.len() == 0 ==> spawns_fit(old(self).block_set, old(self).spawn_pivot),
        ensures
            final(self).block_set == old(self).block_set,
            final(self).spawn_pivot == old(self).spawn_pivot,
            deal(figure_views(old(self).figures@), figure_views(final(self).figures@), r@, full_bag(old(self).block_set, old(self).spawn_pivot)),
            old(self).wf() ==> final(self).wf() && full_bag(old(self).block_set, old(self).spawn_pivot).contains(r@),
    {
        let ghost full = full_bag(self.block_set, self.spawn_pivot);
        if self.figures.len() == 0 {
            self.refill();
        }
        proof {
            let v = figure_views(self.figures@);
            assert(full.len() > 0) by {
                assert(block_set_kinds(self.block_set).len() > 0);
            }
            if old(self).figures@.len() == 0 {
                assert(v.to_multiset().len() == full.to_multiset().len());
                assert(v.len() > 0) by {
                    assert(v.to_multiset().len() == v.len());
                    assert(full.to_multiset().len() == full.len());
                }
            }
        }
        let ghost before = figure_views(self.figures@);
        let ghost figures_before = self.figures@;
        let r = self.figures.pop().unwrap();
        proof {
            let after = figure_views(self.figures@);
            assert(self.figures@ == figures_before.drop_last());
            assert(after =~= before.drop_last());
            assert(before =~= after.push(r@));
            vstd::seq_lib::to_multiset_build(after, r@);
            assert(after.to_multiset().insert(r@) == before.to_multiset());
            assert(after.to_multiset().subset_of(before.to_multiset())) by {
                assert forall|x: FigureModel| #[trigger] after.to_multiset().count(x) <= before.to_multiset().count(x) by {
                }
            }
            assert(before.to_multiset().count(r@) > 0);
            if old(self).wf() {
                assert(full.to_multiset().count(r@) > 0);
                assert(full.to_multiset().contains(r@));
            }
        }
        r
    }
}

} // verus!

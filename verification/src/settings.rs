//! Game settings: the level, the size of the pit and the set of figures, and how the
//! settings screen steps through them.
use vstd::prelude::*;

use crate::figure::FigureKind;

verus! {

/// The lowest level.
pub const MIN_LEVEL: u8 = 1;

/// The highest level.
pub const MAX_LEVEL: u8 = 10;

/// The time a figure takes to fall one plane at level 1, in milliseconds.
pub const LEVEL_ONE_GRAVITY_MILLIS: u32 = 900;

/// How much faster a figure falls with each level, in milliseconds per plane.
pub const GRAVITY_MILLIS_PER_LEVEL: u32 = 80;

/// The size of the pit: its entrance and its depth.
#[derive(Debug, Clone, Copy, PartialEq, Eq, Structural)]
pub enum PitSize {
    Shallow,
    Classic,
    Wide,
}

/// Which figures the bag deals.
#[derive(Debug, Clone, Copy, PartialEq, Eq, Structural)]
pub enum BlockSet {
    Flat,
    Basic3d,
    Extended,
}

/// Lowering or raising the level on the settings screen.
#[derive(Debug, Clone, Copy, PartialEq, Eq, Structural)]
pub enum LevelAdjustment {
    Decrease,
    Increase,
}

/// Stepping to the previous or next choice on the settings screen.
#[derive(Debug, Clone, Copy, PartialEq, Eq, Structural)]
pub enum SelectionDirection {
    Previous,
    Next,
}

/// The settings a new game starts with.
#[derive(Debug, Clone, Copy, PartialEq, Eq, Structural)]
pub struct GameSettings {
    pub level: u8,
    pub pit_size: PitSize,
    pub block_set: BlockSet,
}

/// Width, height and depth of each pit size.
pub open spec fn pit_dimensions(p: PitSize) -> (i32, i32, i32) {
    match p {
        PitSize::Shallow => (4, 4, 8),
        PitSize::Classic => (4, 4, 12),
        PitSize::Wide => (5, 5, 14),
    }
}

/// The seven flat figures.
pub open spec fn flat_kinds() -> Seq<FigureKind> {
    seq![
        FigureKind::I,
        FigureKind::O,
        FigureKind::T,
        FigureKind::L,
        FigureKind::J,
        FigureKind::S,
        FigureKind::Z,
    ]
}

/// The three figures that are not flat.
pub open spec fn three_dimensional_kinds() -> Seq<FigureKind> {
    seq![FigureKind::Tripod, FigureKind::ScrewLeft, FigureKind::ScrewRight]
}

/// The figures of each block set, in the order the bag lays them out.
pub open spec fn block_set_kinds(b: BlockSet) -> Seq<FigureKind> {
    match b {
        BlockSet::Flat => flat_kinds(),
        BlockSet::Basic3d => three_dimensional_kinds(),
        BlockSet::Extended => flat_kinds() + three_dimensional_kinds(),
    }
}

/// The pit size before `p` in the cycle Shallow, Classic, Wide.
pub open spec fn previous_pit_size(p: PitSize) -> PitSize {
    match p {
        PitSize::Shallow => PitSize::Wide,
        PitSize::Classic => PitSize::Shallow,
        PitSize::Wide => PitSize::Classic,
    }
}

/// The pit size after `p` in the cycle Shallow, Classic, Wide.
pub open spec fn next_pit_size(p: PitSize) -> PitSize {
    match p {
        PitSize::Shallow => PitSize::Classic,
        PitSize::Classic => PitSize::Wide,
        PitSize::Wide => PitSize::Shallow,
    }
}

/// The block set before `b` in the cycle Flat, Basic3d, Extended.
pub open spec fn previous_block_set(b: BlockSet) -> BlockSet {
    match b {
        BlockSet::Flat => BlockSet::Extended,
        BlockSet::Basic3d => BlockSet::Flat,
        BlockSet::Extended => BlockSet::Basic3d,
    }
}

/// The block set after `b` in the cycle Flat, Basic3d, Extended.
pub open spec fn next_block_set(b: BlockSet) -> BlockSet {
    match b {
        BlockSet::Flat => BlockSet::Basic3d,
        BlockSet::Basic3d => BlockSet::Extended,
        BlockSet::Extended => BlockSet::Flat,
    }
}

/// The level clamped to `MIN_LEVEL..=MAX_LEVEL`.
pub open spec fn clamp_level(level: int) -> int {
    if level < MIN_LEVEL {
        MIN_LEVEL as int
    } else if level > MAX_LEVEL {
        MAX_LEVEL as int
    } else {
        level
    }
}

/// The time a figure takes to fall one plane at a level, in milliseconds.
pub open spec fn gravity_millis(level: int) -> int {
    LEVEL_ONE_GRAVITY_MILLIS - (clamp_level(level) - MIN_LEVEL) * GRAVITY_MILLIS_PER_LEVEL
}

impl PitSize {
    /// Width, height and depth of the pit.
    pub fn dimensions(self) -> (r: (i32, i32, i32))
        ensures
            r == pit_dimensions(self),
    {
        match self {
            Self::Shallow => (4, 4, 8),
            Self::Classic => (4, 4, 12),
            Self::Wide => (5, 5, 14),
        }
    }

    /// The name shown on the settings screen.
    pub fn label(self) -> (r: &'static str)
        ensures
            self == PitSize::Shallow ==> r@ == "4x4x8"@,
            self == PitSize::Classic ==> r@ == "4x4x12"@,
            self == PitSize::Wide ==> r@ == "5x5x14"@,
    {
        match self {
            Self::Shallow => "4x4x8",
            Self::Classic => "4x4x12",
            Self::Wide => "5x5x14",
        }
    }

    /// The previous size, cycling.
    pub fn previous(self) -> (r: PitSize)
        ensures
            r == previous_pit_size(self),
    {
        match self {
            Self::Shallow => Self::Wide,
            Self::Classic => Self::Shallow,
            Self::Wide => Self::Classic,
        }
    }

    /// The next size, cycling.
    pub fn next(self) -> (r: PitSize)
        ensures
            r == next_pit_size(self),
    {
        match self {
            Self::Shallow => Self::Classic,
            Self::Classic => Self::Wide,
            Self::Wide => Self::Shallow,
        }
    }
}

impl BlockSet {
    /// The name shown on the settings screen.
    pub fn label(self) -> (r: &'static str)
        ensures
            self == BlockSet::Flat ==> r@ == "FLAT"@,
            self == BlockSet::Basic3d ==> r@ == "BASIC 3D"@,
            self == BlockSet::Extended ==> r@ == "EXTENDED"@,
    {
        match self {
            Self::Flat => "FLAT",
            Self::Basic3d => "BASIC 3D",
            Self::Extended => "EXTENDED",
        }
    }

    /// The figures of the set.
    pub fn figure_kinds(self) -> (r: Vec<FigureKind>)
        ensures
            r@ == block_set_kinds(self),
    {
        let flat = vec![
            FigureKind::I,
            FigureKind::O,
            FigureKind::T,
            FigureKind::L,
            FigureKind::J,
            FigureKind::S,
            FigureKind::Z,
        ];
        let three_dimensional = vec![FigureKind::Tripod, FigureKind::ScrewLeft, FigureKind::ScrewRight];
        assert(flat@ == flat_kinds());
        assert(three_dimensional@ == three_dimensional_kinds());
        match self {
            Self::Flat => flat,
            Self::Basic3d => three_dimensional,
            Self::Extended => {
                let mut all = flat;
                let mut extra = three_dimensional;
                all.append(&mut extra);
                all
            },
        }
    }

    /// The previous set, cycling.
    pub fn previous(self) -> (r: BlockSet)
        ensures
            r == previous_block_set(self),
    {
        match self {
            Self::Flat => Self::Extended,
            Self::Basic3d => Self::Flat,
            Self::Extended => Self::Basic3d,
        }
    }

    /// The next set, cycling.
    pub fn next(self) -> (r: BlockSet)
        ensures
            r == next_block_set(self),
    {
        match self {
            Self::Flat => Self::Basic3d,
            Self::Basic3d => Self::Extended,
            Self::Extended => Self::Flat,
        }
    }
}

impl Default for GameSettings {
    /// Level 1, the classic pit and the flat figures.
    fn default() -> (r: GameSettings)
        ensures
            r == (GameSettings { level: MIN_LEVEL, pit_size: PitSize::Classic, block_set: BlockSet::Flat }),
    {
        GameSettings { level: MIN_LEVEL, pit_size: PitSize::Classic, block_set: BlockSet::Flat }
    }
}

impl GameSettings {
    /// Lowers or raises the level by one, staying within `MIN_LEVEL..=MAX_LEVEL`.
    pub fn adjust_level(&mut self, adjustment: LevelAdjustment)
        ensures
            final(self).pit_size == old(self).pit_size,
            final(self).block_set == old(self).block_set,
            final(self).level == match adjustment {
                LevelAdjustment::Decrease => if old(self).level <= MIN_LEVEL + 1 {
                    MIN_LEVEL as int
                } else {
                    old(self).level - 1
                },
                LevelAdjustment::Increase => if old(self).level + 1 >= MAX_LEVEL {
                    MAX_LEVEL as int
                } else {
                    old(self).level + 1
                },
            },
    {
        self.level = match adjustment {
            LevelAdjustment::Decrease => {
                let lowered = self.level.saturating_sub(1);
                if lowered < MIN_LEVEL { MIN_LEVEL } else { lowered }
            },
            LevelAdjustment::Increase => {
                let raised = self.level.saturating_add(1);
                if raised > MAX_LEVEL { MAX_LEVEL } else { raised }
            },
        };
    }

    /// Steps to the previous or next pit size.
    pub fn select_pit_size(&mut self, direction: SelectionDirection)
        ensures
            final(self).level == old(self).level,
            final(self).block_set == old(self).block_set,
            final(self).pit_size == match direction {
                SelectionDirection::Previous => previous_pit_size(old(self).pit_size),
                SelectionDirection::Next => next_pit_size(old(self).pit_size),
            },
    {
        self.pit_size = match direction {
            SelectionDirection::Previous => self.pit_size.previous(),
            SelectionDirection::Next => self.pit_size.next(),
        };
    }

    /// Steps to the previous or next block set.
    pub fn select_block_set(&mut self, direction: SelectionDirection)
        ensures
            final(self).level == old(self).level,
            final(self).pit_size == old(self).pit_size,
            final(self).block_set == match direction {
                SelectionDirection::Previous => previous_block_set(old(self).block_set),
                SelectionDirection::Next => next_block_set(old(self).block_set),
            },
    {
        self.block_set = match direction {
            SelectionDirection::Previous => self.block_set.previous(),
            SelectionDirection::Next => self.block_set.next(),
        };
    }
}

/// The level clamped to `MIN_LEVEL..=MAX_LEVEL`.
pub fn clamped_level(level: u8) -> (r: u8)
    ensures
        r == clamp_level(level as int),
{
    if level < MIN_LEVEL {
        MIN_LEVEL
    } else if level > MAX_LEVEL {
        MAX_LEVEL
    } else {
        level
    }
}

/// The time a figure takes to fall one plane at a level, in milliseconds: 900 at level 1,
/// 80 less for each level above, levels outside `MIN_LEVEL..=MAX_LEVEL` counting as the
/// nearest one inside.
pub fn gravity_millis_for_level(level: u8) -> (r: u32)
    ensures
        r == gravity_millis(level as int),
{
    let level = clamped_level(level);
    LEVEL_ONE_GRAVITY_MILLIS - (level - MIN_LEVEL) as u32 * GRAVITY_MILLIS_PER_LEVEL
}

} // verus!

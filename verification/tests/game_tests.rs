use blockout::bag::FigureBag;
use blockout::figure::{Block, Color, Figure, FigureKind, Material};
use blockout::game::{movement_delta, rotation_for_keys, GameModel, PressedKeys};
use blockout::geometry::{Axis, RotationDirection, Vec3i};
use blockout::moves::{figure_with_entrance_kick, figure_with_next_orientation};
use blockout::orientation::{normalized_orientation, offset_bounds, orientation_signature, sorted_orientation, unique_figure_orientations};
use blockout::settings::{
    clamped_level, gravity_millis_for_level, BlockSet, GameSettings, LevelAdjustment, PitSize, SelectionDirection,
};
use blockout::well::{Plane, Well};

fn no_keys() -> PressedKeys {
    PressedKeys {
        left: false,
        right: false,
        down: false,
        up: false,
        next_orientation: false,
        turn_x_positive: false,
        turn_x_negative: false,
        turn_y_positive: false,
        turn_y_negative: false,
        turn_z_positive: false,
        turn_z_negative: false,
        toggle_line: false,
        drop: false,
    }
}

fn classic_game() -> GameModel {
    GameModel::new(GameSettings {
        level: 1,
        pit_size: PitSize::Classic,
        block_set: BlockSet::Flat,
    })
}

#[test]
fn gravity_millis_follow_the_level_formula() {
    assert_eq!(gravity_millis_for_level(1), 900);
    assert_eq!(gravity_millis_for_level(2), 820);
    assert_eq!(gravity_millis_for_level(10), 180);
    assert_eq!(gravity_millis_for_level(0), 900);
    assert_eq!(gravity_millis_for_level(255), 180);
    assert_eq!(clamped_level(0), 1);
    assert_eq!(clamped_level(7), 7);
    assert_eq!(clamped_level(200), 10);
}

#[test]
fn level_adjustment_stays_within_the_levels() {
    let mut settings = GameSettings::default();
    assert_eq!(settings.level, 1);
    assert_eq!(settings.pit_size, PitSize::Classic);
    assert_eq!(settings.block_set, BlockSet::Flat);

    settings.adjust_level(LevelAdjustment::Decrease);
    assert_eq!(settings.level, 1);
    settings.adjust_level(LevelAdjustment::Increase);
    assert_eq!(settings.level, 2);
    settings.level = 10;
    settings.adjust_level(LevelAdjustment::Increase);
    assert_eq!(settings.level, 10);
    settings.level = 0;
    settings.adjust_level(LevelAdjustment::Decrease);
    assert_eq!(settings.level, 1);
    settings.level = 255;
    settings.adjust_level(LevelAdjustment::Increase);
    assert_eq!(settings.level, 10);
}

#[test]
fn selections_cycle_through_the_choices() {
    let mut settings = GameSettings::default();
    settings.select_pit_size(SelectionDirection::Next);
    assert_eq!(settings.pit_size, PitSize::Wide);
    settings.select_pit_size(SelectionDirection::Next);
    assert_eq!(settings.pit_size, PitSize::Shallow);
    settings.select_pit_size(SelectionDirection::Previous);
    assert_eq!(settings.pit_size, PitSize::Wide);
    settings.select_block_set(SelectionDirection::Previous);
    assert_eq!(settings.block_set, BlockSet::Extended);
    settings.select_block_set(SelectionDirection::Next);
    assert_eq!(settings.block_set, BlockSet::Flat);
    for pit in [PitSize::Shallow, PitSize::Classic, PitSize::Wide] {
        assert_eq!(pit.previous().next(), pit);
        assert_eq!(pit.next().next().next(), pit);
    }
    for set in [BlockSet::Flat, BlockSet::Basic3d, BlockSet::Extended] {
        assert_eq!(set.next().previous(), set);
        assert_eq!(set.next().next().next(), set);
    }
}

#[test]
fn labels_and_dimensions_of_the_settings() {
    assert_eq!(PitSize::Shallow.label(), "4x4x8");
    assert_eq!(PitSize::Classic.label(), "4x4x12");
    assert_eq!(PitSize::Wide.label(), "5x5x14");
    assert_eq!(PitSize::Shallow.dimensions(), (4, 4, 8));
    assert_eq!(PitSize::Wide.dimensions(), (5, 5, 14));
    assert_eq!(BlockSet::Flat.label(), "FLAT");
    assert_eq!(BlockSet::Basic3d.label(), "BASIC 3D");
    assert_eq!(BlockSet::Extended.label(), "EXTENDED");
    assert_eq!(
        BlockSet::Extended.figure_kinds(),
        vec![
            FigureKind::I,
            FigureKind::O,
            FigureKind::T,
            FigureKind::L,
            FigureKind::J,
            FigureKind::S,
            FigureKind::Z,
            FigureKind::Tripod,
            FigureKind::ScrewLeft,
            FigureKind::ScrewRight
        ]
    );
}

#[test]
fn extended_bag_deals_each_kind_once_then_refills() {
    let mut bag = FigureBag::new(BlockSet::Extended, PitSize::Wide);
    assert_eq!(bag.spawn_pivot, Vec3i { x: 1, y: 1, z: 0 });
    let kinds = BlockSet::Extended.figure_kinds();
    let dealt = (0..10).map(|_| bag.next_figure()).collect::<Vec<_>>();
    for kind in &kinds {
        assert_eq!(dealt.iter().filter(|f| f.kind == *kind).count(), 1);
    }
    assert!(bag.figures.is_empty());
    let refilled = bag.next_figure();
    assert!(kinds.contains(&refilled.kind));
    assert_eq!(bag.figures.len(), 9);
}

#[test]
fn bag_figures_get_colours_and_materials_in_turn() {
    let bag = FigureBag::new(BlockSet::Basic3d, PitSize::Classic);
    let tripod = bag.figures.iter().find(|f| f.kind == FigureKind::Tripod).unwrap();
    let screw_left = bag.figures.iter().find(|f| f.kind == FigureKind::ScrewLeft).unwrap();
    let screw_right = bag.figures.iter().find(|f| f.kind == FigureKind::ScrewRight).unwrap();
    assert_eq!((tripod.blocks[0].color, tripod.blocks[0].material), (Color::Orange, Material::Metal));
    assert_eq!((screw_left.blocks[0].color, screw_left.blocks[0].material), (Color::Cyan, Material::Rubber));
    assert_eq!((screw_right.blocks[0].color, screw_right.blocks[0].material), (Color::Green, Material::Crystal));
}

#[test]
fn refilled_bags_are_shuffled() {
    let kinds = BlockSet::Extended.figure_kinds();
    let mut some_order_differs = false;
    for _ in 0..30 {
        let bag = FigureBag::new(BlockSet::Extended, PitSize::Classic);
        let order = bag.figures.iter().map(|f| f.kind).collect::<Vec<_>>();
        if order != kinds {
            some_order_differs = true;
        }
    }
    assert!(some_order_differs);
}

#[test]
fn keys_map_to_moves_and_turns() {
    let mut keys = no_keys();
    keys.left = true;
    keys.up = true;
    assert_eq!(movement_delta(&keys), Vec3i { x: 1, y: 1, z: 0 });
    keys.right = true;
    keys.down = true;
    assert_eq!(movement_delta(&keys), Vec3i { x: 0, y: 0, z: 0 });
    assert_eq!(rotation_for_keys(&keys), None);
    keys.turn_z_negative = true;
    keys.turn_y_positive = true;
    assert_eq!(rotation_for_keys(&keys), Some((Axis::Y, RotationDirection::Positive)));
    keys.turn_x_negative = true;
    assert_eq!(rotation_for_keys(&keys), Some((Axis::X, RotationDirection::Negative)));
}

#[test]
fn arrow_keys_move_the_active_figure_inside_the_well() {
    let mut game = classic_game();
    game.active_figure = Figure::new(FigureKind::O, Color::Cyan, Material::Metal);
    let mut keys = no_keys();
    keys.left = true;
    let cleared = game.handle_input(keys);
    assert!(cleared.is_empty());
    assert_eq!(game.active_figure.pivot, Vec3i { x: 2, y: 1, z: 0 });
    let cleared = game.handle_input(keys);
    assert!(cleared.is_empty());
    assert_eq!(game.active_figure.pivot, Vec3i { x: 2, y: 1, z: 0 });
    keys.toggle_line = true;
    game.handle_input(keys);
    assert!(!game.show_line);
}

#[test]
fn hard_drop_locks_the_figure_at_the_bottom() {
    let mut game = classic_game();
    game.active_figure = Figure::new(FigureKind::O, Color::Cyan, Material::Metal);
    let next = game.next_figure.clone();
    let mut keys = no_keys();
    keys.drop = true;
    let cleared = game.handle_input(keys);
    assert!(cleared.is_empty());
    assert_eq!(game.figures_placed, 1);
    assert_eq!(game.score, 0);
    assert_eq!(game.well.occupied_count(), 4);
    assert!(game.well.is_occupied(Vec3i { x: 1, y: 1, z: 11 }));
    assert!(game.well.is_occupied(Vec3i { x: 2, y: 2, z: 11 }));
    assert_eq!(game.active_figure, next);
    assert!(!game.game_over);
}

#[test]
fn completing_a_plane_scores_and_clears_it() {
    let mut game = GameModel::new(GameSettings {
        level: 1,
        pit_size: PitSize::Shallow,
        block_set: BlockSet::Flat,
    });
    for x in 0..4 {
        for y in 0..4 {
            if y != 1 {
                game.well.place_block(Block {
                    position: Vec3i { x, y, z: 7 },
                    color: Color::Green,
                    material: Material::Neon,
                });
            }
        }
    }
    game.well.place_block(Block {
        position: Vec3i { x: 0, y: 0, z: 6 },
        color: Color::Purple,
        material: Material::Rubber,
    });
    game.active_figure = Figure::new(FigureKind::I, Color::Cyan, Material::Metal);
    let cleared: Vec<Plane> = game.hard_drop();
    assert_eq!(cleared.len(), 1);
    assert_eq!(cleared[0].blocks.iter().filter(|b| b.is_some()).count(), 16);
    assert_eq!(game.score, 100);
    assert_eq!(game.well.occupied_count(), 1);
    assert_eq!(
        game.well.block_at(Vec3i { x: 0, y: 0, z: 7 }),
        Some(Block {
            position: Vec3i { x: 0, y: 0, z: 7 },
            color: Color::Purple,
            material: Material::Rubber,
        })
    );
    for z in 0..8 {
        assert!(!game.well.is_plane_full(z));
    }
}

#[test]
fn gravity_moves_down_then_locks() {
    let mut game = GameModel::new(GameSettings {
        level: 1,
        pit_size: PitSize::Shallow,
        block_set: BlockSet::Flat,
    });
    game.active_figure = Figure::new(FigureKind::O, Color::Cyan, Material::Metal);
    for step in 1..8 {
        assert!(game.gravity_step().is_none());
        assert_eq!(game.active_figure.pivot.z, step);
    }
    let cleared = game.gravity_step().expect("the figure locks at the bottom");
    assert!(cleared.is_empty());
    assert_eq!(game.figures_placed, 1);
    assert!(game.well.is_occupied(Vec3i { x: 1, y: 1, z: 7 }));
}

#[test]
fn game_over_stops_input_and_allows_restart() {
    let mut game = classic_game();
    game.game_over = true;
    let before = game.active_figure.clone();
    let mut keys = no_keys();
    keys.left = true;
    keys.drop = true;
    assert!(game.handle_input(keys).is_empty());
    assert_eq!(game.active_figure, before);
    assert!(game.gravity_step().is_none());
    assert!(game.restart_if_over(GameSettings::default()));
    assert!(!game.game_over);
    assert_eq!(game.figures_placed, 0);
    assert!(!game.restart_if_over(GameSettings::default()));
}

#[test]
fn spawning_into_a_blocked_entrance_ends_the_game() {
    let mut game = GameModel::new(GameSettings {
        level: 1,
        pit_size: PitSize::Shallow,
        block_set: BlockSet::Flat,
    });
    for (x, y) in [(1, 1), (2, 1), (1, 2), (2, 2)] {
        game.well.place_block(Block {
            position: Vec3i { x, y, z: 1 },
            color: Color::Yellow,
            material: Material::Metal,
        });
    }
    game.active_figure = Figure::new(FigureKind::O, Color::Cyan, Material::Metal);
    let cleared = game.hard_drop();
    assert!(cleared.is_empty());
    assert!(game.well.is_occupied(Vec3i { x: 1, y: 1, z: 0 }));
    assert!(game.game_over);
}

#[test]
fn depth_meter_shows_active_then_locked_colours() {
    let mut game = classic_game();
    game.active_figure = Figure::new(FigureKind::Tripod, Color::Purple, Material::Metal);
    game.well.place_block(Block {
        position: Vec3i { x: 2, y: 2, z: 5 },
        color: Color::Orange,
        material: Material::Crystal,
    });
    assert_eq!(game.depth_meter_color(0), Some(Color::Purple));
    assert_eq!(game.depth_meter_color(1), Some(Color::Purple));
    assert_eq!(game.depth_meter_color(5), Some(Color::Orange));
    assert_eq!(game.depth_meter_color(6), None);
}

#[test]
fn entrance_kick_needs_blocks_and_room() {
    let well = Well::new(4, 4, 12);
    let empty = Figure {
        kind: FigureKind::I,
        pivot: Vec3i { x: 1, y: 1, z: 0 },
        blocks: Vec::new(),
    };
    assert!(figure_with_entrance_kick(&well, empty).is_none());
    let mut raised = Figure::new(FigureKind::O, Color::Cyan, Material::Metal);
    raised.move_by(Vec3i { x: 0, y: 0, z: -3 });
    let kicked = figure_with_entrance_kick(&well, raised).expect("kicked back into the well");
    assert_eq!(kicked.pivot, Vec3i { x: 1, y: 1, z: 0 });
    let mut outside = Figure::new(FigureKind::O, Color::Cyan, Material::Metal);
    outside.move_by(Vec3i { x: 5, y: 0, z: -1 });
    assert!(figure_with_entrance_kick(&well, outside).is_none());
}

#[test]
fn orientation_cycle_returns_after_a_full_round() {
    let well = Well::new(5, 5, 14);
    for kind in [FigureKind::T, FigureKind::L, FigureKind::Tripod] {
        let mut figure = Figure::new(kind, Color::Cyan, Material::Metal);
        figure.move_by(Vec3i { x: 1, y: 1, z: 6 });
        let count = unique_figure_orientations(kind).len();
        let start = orientation_signature(&figure);
        for _ in 0..count {
            figure = figure_with_next_orientation(&well, &figure).expect("room to turn");
        }
        assert_eq!(orientation_signature(&figure), start);
    }
}

#[test]
fn orientation_lists_hold_one_entry_per_shape() {
    for kind in [FigureKind::I, FigureKind::O, FigureKind::T, FigureKind::Tripod, FigureKind::ScrewLeft] {
        let orientations = unique_figure_orientations(kind);
        let shapes = orientations.iter().map(|o| normalized_orientation(o)).collect::<Vec<_>>();
        for i in 0..shapes.len() {
            for j in 0..shapes.len() {
                if i != j {
                    assert_ne!(shapes[i], shapes[j]);
                }
            }
        }
    }
    assert_eq!(unique_figure_orientations(FigureKind::O).len(), 3);
}

#[test]
fn sorting_and_normalizing_positions() {
    let sorted = sorted_orientation(vec![
        Vec3i { x: 1, y: 0, z: 0 },
        Vec3i { x: -1, y: 2, z: 0 },
        Vec3i { x: 1, y: -1, z: 5 },
        Vec3i { x: -1, y: 2, z: -3 },
    ]);
    assert_eq!(
        sorted,
        vec![
            Vec3i { x: -1, y: 2, z: -3 },
            Vec3i { x: -1, y: 2, z: 0 },
            Vec3i { x: 1, y: -1, z: 5 },
            Vec3i { x: 1, y: 0, z: 0 },
        ]
    );
    let normalized = normalized_orientation(&[Vec3i { x: 3, y: 5, z: -2 }, Vec3i { x: 2, y: 7, z: -2 }]);
    assert_eq!(normalized, vec![Vec3i { x: 0, y: 2, z: 0 }, Vec3i { x: 1, y: 0, z: 0 }]);
    assert!(normalized_orientation(&[]).is_empty());
}

#[test]
fn preview_bounds_and_entrance_size() {
    let figure = Figure::new(FigureKind::L, Color::Cyan, Material::Metal);
    assert_eq!(
        offset_bounds(&figure),
        (Vec3i { x: -1, y: 0, z: 0 }, Vec3i { x: 1, y: 1, z: 0 })
    );
    assert_eq!(Well::new(4, 6, 3).entrance_size(), 6);
    assert_eq!(Well::new(5, 5, 14).entrance_size(), 5);
}

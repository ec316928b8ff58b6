use dungeon_sweeper::combat::CombatOutcome;
use dungeon_sweeper::floor::DungeonFloor;
use dungeon_sweeper::game::{
    AttackResult, FloorState, GameStatus, GameWorld, MoveResult, Player, ProgressResult,
    INITIAL_HP, INITIAL_STRENGTH,
};
use dungeon_sweeper::grid::Coordinate;
use dungeon_sweeper::placement::LAST_FLOOR;
use rand::rngs::StdRng;
use rand::SeedableRng;

fn world_with_enemy(enemy_at: Coordinate, enemy_strength: u32, player: Player) -> GameWorld {
    let mut floor = DungeonFloor::new(16, 16);
    assert!(floor.place_enemy(enemy_at, enemy_strength));
    GameWorld::new(floor, player)
}

fn player_at(x: usize, y: usize, strength: u32, hp: u32) -> Player {
    Player { pos: Coordinate::new(x, y), strength, hp }
}

#[test]
fn won_fight_clears_floor_and_next_tick_descends() {
    let mut victories = 0;
    for seed in 0..64u64 {
        let mut rng = StdRng::seed_from_u64(seed);
        let mut w = world_with_enemy(Coordinate::new(5, 5), 1, player_at(5, 5, 2, 3));
        match w.process_attack(&mut rng) {
            AttackResult::Victory(gain) => {
                victories += 1;
                assert_eq!(gain, 1);
                assert_eq!(w.player.strength, 3);
                assert_eq!(w.floor_state(), FloorState::Cleared);
                assert_eq!(w.advance_if_cleared(&mut rng), ProgressResult::Advanced);
                assert_eq!(w.dungeon.floor_progress, 1);
                assert_eq!(w.player.hp, 4);
                assert_eq!(w.floor_state(), FloorState::Active);
                let floor = w.dungeon.current_floor();
                assert!(!floor.enemies.is_empty() && floor.enemies.len() <= 2);
                assert!(!floor.is_unrevealed(w.player.pos.x, w.player.pos.y));
                assert_eq!(w.dungeon.floors.len(), 2);
            }
            AttackResult::Defeat(hp) => {
                assert_eq!(hp, 2);
                assert_eq!(w.floor_state(), FloorState::Active);
            }
            other => panic!("unexpected {:?}", other),
        }
    }
    assert!(victories > 0);
}

#[test]
fn move_outside_floor_is_rejected() {
    let mut w = world_with_enemy(Coordinate::new(5, 5), 1, player_at(2, 3, 2, 3));
    assert_eq!(w.process_move(Coordinate::new(20, 20)), MoveResult::OutOfBounds);
    assert_eq!(w.player.pos, Coordinate::new(2, 3));
    assert_eq!(w.process_move(Coordinate::new(16, 0)), MoveResult::OutOfBounds);
    assert_eq!(w.player.pos, Coordinate::new(2, 3));
}

#[test]
fn move_reveals_path_and_reports_enemy() {
    let mut w = world_with_enemy(Coordinate::new(5, 5), 3, player_at(1, 1, 2, 3));
    assert_eq!(
        w.process_move(Coordinate::new(5, 5)),
        MoveResult::EnemyEncountered { enemy_strength: 3, win_numerator: 2, win_denominator: 5 }
    );
    assert_eq!(w.player.pos, Coordinate::new(5, 5));
    let floor = w.dungeon.current_floor();
    for i in 1..=5 {
        assert!(!floor.is_unrevealed(i, i));
    }
    assert!(floor.is_unrevealed(6, 6));
    assert_eq!(w.process_move(Coordinate::new(5, 9)), MoveResult::Moved);
}

#[test]
fn attack_without_enemy_has_no_target() {
    let mut rng = StdRng::seed_from_u64(1);
    let mut w = world_with_enemy(Coordinate::new(5, 5), 1, player_at(0, 0, 2, 3));
    assert_eq!(w.process_attack(&mut rng), AttackResult::NoTarget);
    assert_eq!(w.player, player_at(0, 0, 2, 3));
    assert_eq!(w.dungeon.current_floor().enemies.len(), 1);
}

#[test]
fn loss_costs_one_hit_point() {
    let mut w = world_with_enemy(Coordinate::new(5, 5), 4, player_at(5, 5, 2, 3));
    assert_eq!(w.apply_outcome(0, CombatOutcome::PlayerLoses), AttackResult::Defeat(2));
    assert_eq!(w.player.hp, 2);
    assert_eq!(w.dungeon.current_floor().enemies.len(), 1);
}

#[test]
fn win_adds_gain_and_removes_enemy() {
    let mut w = world_with_enemy(Coordinate::new(5, 5), 4, player_at(5, 5, 2, 3));
    assert_eq!(w.apply_outcome(0, CombatOutcome::PlayerWins(3)), AttackResult::Victory(3));
    assert_eq!(w.player.strength, 5);
    assert!(w.dungeon.current_floor().enemies.is_empty());
}

#[test]
fn strength_gain_saturates_at_the_type_limit() {
    let mut w = world_with_enemy(Coordinate::new(5, 5), 4, player_at(5, 5, u32::MAX - 1, 3));
    assert_eq!(w.apply_outcome(0, CombatOutcome::PlayerWins(3)), AttackResult::Victory(3));
    assert_eq!(w.player.strength, u32::MAX);
}

#[test]
fn last_hit_point_ends_the_game() {
    let mut rng = StdRng::seed_from_u64(3);
    let mut w = world_with_enemy(Coordinate::new(5, 5), 4, player_at(5, 5, 2, 1));
    assert_eq!(w.apply_outcome(0, CombatOutcome::PlayerLoses), AttackResult::GameOver);
    assert_eq!(w.player.hp, 0);
    assert_eq!(w.status, GameStatus::Lost);
    assert_eq!(w.process_attack(&mut rng), AttackResult::Finished);
    assert_eq!(w.process_move(Coordinate::new(1, 1)), MoveResult::Finished);
    assert_eq!(w.player.pos, Coordinate::new(5, 5));
    assert_eq!(w.advance_if_cleared(&mut rng), ProgressResult::Stayed);
}

#[test]
fn uncleared_floor_does_not_advance() {
    let mut rng = StdRng::seed_from_u64(4);
    let mut w = world_with_enemy(Coordinate::new(5, 5), 1, player_at(0, 0, 2, 3));
    assert_eq!(w.advance_if_cleared(&mut rng), ProgressResult::Stayed);
    assert_eq!(w.dungeon.floor_progress, 0);
    assert_eq!(w.player.hp, 3);
}

#[test]
fn clearing_the_deepest_floor_wins() {
    let mut rng = StdRng::seed_from_u64(5);
    let mut w = world_with_enemy(Coordinate::new(0, 0), 1, player_at(0, 0, 2, 3));
    w.apply_outcome(0, CombatOutcome::PlayerWins(1));
    for depth in 1..=LAST_FLOOR {
        assert_eq!(w.advance_if_cleared(&mut rng), ProgressResult::Advanced);
        assert_eq!(w.dungeon.floor_progress, depth);
        assert!(!w.dungeon.floors[depth].enemies.is_empty());
        w.dungeon.floors[depth].enemies.clear();
    }
    assert_eq!(w.advance_if_cleared(&mut rng), ProgressResult::FinalFloorCleared);
    assert_eq!(w.status, GameStatus::Won);
    assert_eq!(w.process_move(Coordinate::new(1, 1)), MoveResult::Finished);
}

#[test]
fn new_game_starts_at_origin_with_initial_stats() {
    let mut rng = StdRng::seed_from_u64(9);
    let w = GameWorld::start(16, 16, &mut rng);
    assert_eq!(w.player, player_at(0, 0, INITIAL_STRENGTH, INITIAL_HP));
    assert_eq!(w.status, GameStatus::Playing);
    let floor = w.dungeon.current_floor();
    assert_eq!(floor.enemies.len(), 1);
    assert!(!floor.is_unrevealed(0, 0));
    assert!(floor.is_unrevealed(1, 0));
}

#[test]
fn view_reflects_floor_and_player() {
    let mut w = world_with_enemy(Coordinate::new(5, 5), 3, player_at(1, 1, 2, 3));
    w.process_move(Coordinate::new(3, 1));
    let view = w.current_view();
    assert_eq!(view.floor_index, 0);
    assert_eq!((view.width, view.height), (16, 16));
    assert_eq!(view.player, player_at(3, 1, 2, 3));
    assert_eq!(view.enemies.len(), 1);
    assert_eq!(view.enemies[0].strength, 3);
    assert!(!view.fog[1][1] && !view.fog[1][2] && !view.fog[1][3]);
    assert!(view.fog[1][4] && view.fog[0][0]);
}

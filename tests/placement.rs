use dungeon_sweeper::floor::Enemy;
use dungeon_sweeper::grid::Coordinate;
use dungeon_sweeper::dungeon::Dungeon;
use dungeon_sweeper::floor::DungeonFloor;
use dungeon_sweeper::placement::{
    draw_placement, enemy_count_cap, find_free_cell, nudge, place_enemies, populate,
    settle_position, strength_limit, PlacementDraws, LAST_FLOOR, NUDGE_LIMIT,
};
use rand::rngs::StdRng;
use rand::SeedableRng;

fn assert_valid_population(enemies: &[Enemy], depth: usize, width: usize, height: usize) {
    let cap = std::cmp::min(width * height, depth + 1);
    assert!(!enemies.is_empty() && enemies.len() <= cap);
    let top = ((depth + 1) * (depth + 1)) as u32;
    for (i, e) in enemies.iter().enumerate() {
        assert!(e.pos.x < width && e.pos.y < height);
        assert!(e.strength >= 1 && e.strength <= top);
        for other in &enemies[i + 1..] {
            assert_ne!(e.pos, other.pos);
        }
    }
}

#[test]
fn populations_respect_depth_bounds() {
    for seed in 0..40u64 {
        let mut rng = StdRng::seed_from_u64(seed);
        for depth in [0usize, 1, 5, 30, LAST_FLOOR] {
            let enemies = place_enemies(depth, 16, 16, &mut rng);
            assert_valid_population(&enemies, depth, 16, 16);
        }
    }
}

#[test]
fn floor_zero_has_one_enemy_of_strength_one() {
    let mut rng = StdRng::seed_from_u64(11);
    let enemies = place_enemies(0, 16, 16, &mut rng);
    assert_eq!(enemies.len(), 1);
    assert_eq!(enemies[0].strength, 1);
}

#[test]
fn crowded_thin_floors_still_terminate_with_distinct_cells() {
    for seed in 0..20u64 {
        let mut rng = StdRng::seed_from_u64(seed);
        let enemies = place_enemies(LAST_FLOOR, 1, 7, &mut rng);
        assert_valid_population(&enemies, LAST_FLOOR, 1, 7);
        let enemies = place_enemies(LAST_FLOOR, 1, 1, &mut rng);
        assert_eq!(enemies.len(), 1);
    }
}

#[test]
fn full_floor_gets_every_cell_when_the_draw_is_high() {
    let mut seen_full = false;
    for seed in 0..60u64 {
        let mut rng = StdRng::seed_from_u64(seed);
        let enemies = place_enemies(LAST_FLOOR, 2, 2, &mut rng);
        assert_valid_population(&enemies, LAST_FLOOR, 2, 2);
        if enemies.len() == 4 {
            seen_full = true;
        }
    }
    assert!(seen_full);
}

#[test]
fn caps_follow_the_formulas() {
    assert_eq!(enemy_count_cap(0, 16, 16), 1);
    assert_eq!(enemy_count_cap(9, 16, 16), 10);
    assert_eq!(enemy_count_cap(9, 2, 3), 6);
    assert_eq!(strength_limit(0), 1);
    assert_eq!(strength_limit(3), 16);
    assert_eq!(strength_limit(LAST_FLOOR), 10000);
}

#[test]
fn nudge_moves_one_step_and_stops_at_edges() {
    let c = Coordinate::new(5, 5);
    assert_eq!(nudge(c, 16, 16, true, true), Coordinate::new(6, 4));
    assert_eq!(nudge(c, 16, 16, false, false), Coordinate::new(4, 6));
    assert_eq!(nudge(Coordinate::new(15, 0), 16, 16, true, true), Coordinate::new(15, 0));
    assert_eq!(nudge(Coordinate::new(0, 15), 16, 16, false, false), Coordinate::new(0, 15));
}

#[test]
fn free_cell_search_scans_rows_in_order() {
    let taken = vec![
        Enemy { pos: Coordinate::new(0, 0), strength: 1 },
        Enemy { pos: Coordinate::new(1, 0), strength: 1 },
    ];
    assert_eq!(find_free_cell(&taken, 2, 2), Some(Coordinate::new(0, 1)));
    assert_eq!(find_free_cell(&taken, 2, 1), None);
}

fn enemy(x: usize, y: usize, strength: u32) -> Enemy {
    Enemy { pos: Coordinate::new(x, y), strength }
}

#[test]
fn settling_keeps_a_free_start() {
    let taken = vec![enemy(0, 0, 1)];
    assert_eq!(settle_position(&taken, Coordinate::new(3, 3), &vec![(true, true)], 4, 4), Coordinate::new(3, 3));
}

#[test]
fn settling_nudges_off_a_taken_start() {
    let taken = vec![enemy(1, 1, 1), enemy(2, 0, 1)];
    // (2, 0) and then (1, 1) again are taken; the third pair reaches (2, 2)
    let flips = vec![(true, true), (false, false), (true, false), (false, false)];
    assert_eq!(settle_position(&taken, Coordinate::new(1, 1), &flips, 4, 4), Coordinate::new(2, 2));
}

#[test]
fn settling_falls_back_to_first_free_cell() {
    let taken = vec![enemy(0, 0, 1), enemy(1, 0, 1)];
    let flips = vec![(true, true), (false, true)];
    assert_eq!(settle_position(&taken, Coordinate::new(0, 0), &flips, 2, 2), Coordinate::new(0, 1));
}

#[test]
fn populate_places_each_draw_in_order() {
    let starts = vec![Coordinate::new(1, 1), Coordinate::new(1, 1), Coordinate::new(0, 0)];
    let flips = vec![vec![], vec![(true, false)], vec![]];
    let strengths = vec![3, 4, 5];
    let placed = populate(&starts, &flips, &strengths, 3, 3);
    assert_eq!(placed, vec![enemy(1, 1, 3), enemy(2, 2, 4), enemy(0, 0, 5)]);
}

#[test]
fn populate_without_flips_takes_first_free_cell() {
    let starts = vec![Coordinate::new(0, 0), Coordinate::new(0, 0), Coordinate::new(0, 0)];
    let flips = vec![vec![], vec![], vec![]];
    let placed = populate(&starts, &flips, &vec![1, 1, 1], 2, 2);
    assert_eq!(placed, vec![enemy(0, 0, 1), enemy(1, 0, 1), enemy(0, 1, 1)]);
}

#[test]
fn draws_fit_the_floor_and_depth() {
    for seed in 0..20u64 {
        let mut rng = StdRng::seed_from_u64(seed);
        let d = draw_placement(7, 5, 3, &mut rng);
        assert!(!d.starts.is_empty() && d.starts.len() <= 8);
        assert_eq!(d.flips.len(), d.starts.len());
        assert_eq!(d.strengths.len(), d.starts.len());
        for k in 0..d.starts.len() {
            assert!(d.starts[k].x < 5 && d.starts[k].y < 3);
            assert_eq!(d.flips[k].len(), NUDGE_LIMIT as usize);
            assert!(d.strengths[k] >= 1 && d.strengths[k] <= 64);
        }
    }
}

#[test]
fn populating_the_current_floor_uses_the_draws() {
    let mut dungeon = Dungeon::new(DungeonFloor::new(4, 4));
    dungeon.add_floor(DungeonFloor::new(4, 4));
    dungeon.advance_floor_progress();
    let draws = PlacementDraws {
        starts: vec![Coordinate::new(2, 2), Coordinate::new(2, 2)],
        flips: vec![vec![(false, true); 64], vec![(false, true); 64]],
        strengths: vec![4, 2],
    };
    dungeon.populate_current_floor(&draws);
    assert_eq!(dungeon.current_floor().enemies, vec![enemy(2, 2, 4), enemy(1, 1, 2)]);
    assert!(dungeon.floors[0].enemies.is_empty());
}

#[test]
fn prepared_floor_matches_its_depth() {
    let mut rng = StdRng::seed_from_u64(31);
    let mut dungeon = Dungeon::new(DungeonFloor::new(16, 16));
    dungeon.add_floor(DungeonFloor::new(16, 16));
    dungeon.advance_floor_progress();
    dungeon.prepare_enemies_in_current_floor(&mut rng);
    assert_valid_population(&dungeon.current_floor().enemies, 1, 16, 16);
}

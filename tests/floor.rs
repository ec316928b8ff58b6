use dungeon_sweeper::floor::{DungeonFloor, Enemy};
use dungeon_sweeper::grid::Coordinate;

fn unrevealed_count(f: &DungeonFloor) -> usize {
    let mut n = 0;
    for y in 0..f.height {
        for x in 0..f.width {
            if f.is_unrevealed(x, y) {
                n += 1;
            }
        }
    }
    n
}

#[test]
fn fresh_floor_is_fully_unrevealed_and_empty() {
    let f = DungeonFloor::new(16, 16);
    assert_eq!(unrevealed_count(&f), 256);
    assert!(f.is_cleared());
}

#[test]
fn revealing_a_point_reveals_exactly_that_cell() {
    let mut f = DungeonFloor::new(16, 16);
    f.reveal_path(Coordinate::new(3, 7), Coordinate::new(3, 7));
    assert_eq!(unrevealed_count(&f), 255);
    assert!(!f.is_unrevealed(3, 7));
}

#[test]
fn revealing_a_segment_lifts_fog_along_it() {
    let mut f = DungeonFloor::new(5, 3);
    f.reveal_path(Coordinate::new(0, 0), Coordinate::new(4, 2));
    let mask = f.fog_of_war_maskmap(5, 3);
    assert_eq!(
        mask,
        vec![
            vec![false, true, true, true, true],
            vec![true, false, false, true, true],
            vec![true, true, true, false, false],
        ]
    );
}

#[test]
fn revealing_twice_equals_revealing_once() {
    let mut once = DungeonFloor::new(16, 16);
    once.reveal_path(Coordinate::new(2, 14), Coordinate::new(11, 3));
    let mut twice = DungeonFloor::new(16, 16);
    twice.reveal_path(Coordinate::new(2, 14), Coordinate::new(11, 3));
    twice.reveal_path(Coordinate::new(2, 14), Coordinate::new(11, 3));
    assert_eq!(once.fog_of_war_maskmap(16, 16), twice.fog_of_war_maskmap(16, 16));
}

#[test]
fn fog_maskmap_outside_the_floor_is_clear() {
    let f = DungeonFloor::new(2, 2);
    let mask = f.fog_of_war_maskmap(3, 3);
    assert_eq!(mask, vec![vec![true, true, false], vec![true, true, false], vec![false, false, false]]);
}

#[test]
fn placing_enemies_rejects_taken_and_outside_cells() {
    let mut f = DungeonFloor::new(4, 4);
    assert!(f.place_enemy(Coordinate::new(1, 2), 3));
    assert!(!f.place_enemy(Coordinate::new(1, 2), 5));
    assert!(!f.place_enemy(Coordinate::new(4, 0), 1));
    assert!(!f.place_enemy(Coordinate::new(0, 0), 0));
    assert!(f.place_enemy(Coordinate::new(0, 0), 1));
    assert_eq!(f.enemies.len(), 2);
    assert_eq!(f.enemy_index_at(Coordinate::new(1, 2)), Some(0));
    assert_eq!(f.enemy_index_at(Coordinate::new(3, 3)), None);
}

#[test]
fn enemy_maskmap_marks_enemy_cells() {
    let mut f = DungeonFloor::new(3, 2);
    f.place_enemy(Coordinate::new(2, 0), 1);
    f.place_enemy(Coordinate::new(0, 1), 4);
    assert_eq!(f.enemy_maskmap(3, 2), vec![vec![false, false, true], vec![true, false, false]]);
}

#[test]
fn removing_an_enemy_returns_it() {
    let mut f = DungeonFloor::new(4, 4);
    f.place_enemy(Coordinate::new(1, 1), 2);
    f.place_enemy(Coordinate::new(2, 2), 9);
    let e = f.remove_enemy(0);
    assert_eq!(e, Enemy { pos: Coordinate::new(1, 1), strength: 2 });
    assert_eq!(f.enemies, vec![Enemy { pos: Coordinate::new(2, 2), strength: 9 }]);
}

use dungeon_sweeper::combat::{outcome_of, player_wins_roll, resolve, win_roll_bound, CombatOutcome};
use rand::rngs::StdRng;
use rand::SeedableRng;

#[test]
fn even_fight_is_won_about_half_the_time() {
    let mut rng = StdRng::seed_from_u64(2024);
    let trials = 10_000;
    let mut wins = 0;
    for _ in 0..trials {
        if let CombatOutcome::PlayerWins(g) = resolve(2, 2, &mut rng) {
            assert!((1..=2).contains(&g));
            wins += 1;
        }
    }
    let rate = wins as f64 / trials as f64;
    assert!((rate - 0.5).abs() <= 0.02, "win rate {}", rate);
}

#[test]
fn win_rate_follows_strength_ratio() {
    let mut rng = StdRng::seed_from_u64(7);
    let trials = 10_000;
    let mut wins = 0;
    for _ in 0..trials {
        if let CombatOutcome::PlayerWins(g) = resolve(3, 1, &mut rng) {
            assert_eq!(g, 1);
            wins += 1;
        }
    }
    let rate = wins as f64 / trials as f64;
    assert!((rate - 0.75).abs() <= 0.02, "win rate {}", rate);
}

#[test]
fn roll_below_player_strength_wins() {
    assert!(player_wins_roll(2, 3, 0));
    assert!(player_wins_roll(2, 3, 1));
    assert!(!player_wins_roll(2, 3, 2));
    assert!(!player_wins_roll(2, 3, 4));
    assert!(!player_wins_roll(0, 3, 0));
}

#[test]
fn outcome_carries_the_gain_only_on_a_win() {
    assert_eq!(outcome_of(4, 6, 3, 5), CombatOutcome::PlayerWins(5));
    assert_eq!(outcome_of(4, 6, 4, 5), CombatOutcome::PlayerLoses);
}

#[test]
fn roll_bound_is_the_strength_sum() {
    assert_eq!(win_roll_bound(2, 3), 5);
    assert_eq!(win_roll_bound(u32::MAX, u32::MAX), 2 * u32::MAX as u64);
}

#[test]
fn powerless_player_always_loses() {
    let mut rng = StdRng::seed_from_u64(8);
    for _ in 0..100 {
        assert_eq!(resolve(0, 5, &mut rng), CombatOutcome::PlayerLoses);
    }
}

use crate::random::draw_below;
use rand::rngs::StdRng;
use vstd::prelude::*;
use vstd::set_lib::{lemma_int_range, set_int_range};

verus! {

/// How an encounter between the player and an enemy ended.
#[derive(Clone, Copy, PartialEq, Eq, Structural, Debug)]
pub enum CombatOutcome {
    /// The player won and gains this much strength.
    PlayerWins(u32),
    PlayerLoses,
}

/// Whether a roll wins for a player of strength `player_strength`.
pub open spec fn roll_wins(player_strength: int, roll: int) -> bool {
    roll < player_strength
}

/// Of the `player_strength + enemy_strength` rolls, each drawn with equal
/// chance, exactly `player_strength` win: the player wins with chance
/// `player_strength / (player_strength + enemy_strength)`.
pub proof fn lemma_winning_rolls(player_strength: u32, enemy_strength: u32)
    ensures
        ({
            let wins = Set::new(
                |roll: int| 0 <= roll < player_strength + enemy_strength && roll_wins(player_strength as int, roll),
            );
            wins.finite() && wins.len() == player_strength
        }),
{
    let wins = Set::new(
        |roll: int| 0 <= roll < player_strength + enemy_strength && roll_wins(player_strength as int, roll),
    );
    assert(wins =~= set_int_range(0, player_strength as int));
    lemma_int_range(0, player_strength as int);
}

/// Whether the player wins, given a roll drawn uniformly from
/// `[0, player_strength + enemy_strength)`: the player wins on the first
/// `player_strength` values, so with chance `player_strength / (player_strength + enemy_strength)`.
pub fn player_wins_roll(player_strength: u32, enemy_strength: u32, roll: u64) -> (r: bool)
    requires
        roll < player_strength + enemy_strength,
    ensures
        r == roll_wins(player_strength as int, roll as int),
{
    roll < player_strength as u64
}

/// The outcome of an encounter from its two draws: the win roll, drawn from
/// `[0, player_strength + enemy_strength)`, and the strength gained on a win.
pub fn outcome_of(player_strength: u32, enemy_strength: u32, roll: u64, gain: u32) -> (r:
    CombatOutcome)
    requires
        roll < player_strength + enemy_strength,
    ensures
        r == if roll < player_strength {
            CombatOutcome::PlayerWins(gain)
        } else {
            CombatOutcome::PlayerLoses
        },
{
    if player_wins_roll(player_strength, enemy_strength, roll) {
        CombatOutcome::PlayerWins(gain)
    } else {
        CombatOutcome::PlayerLoses
    }
}

/// Number of equally likely win rolls of an encounter: the roll is drawn
/// from `[0, player_strength + enemy_strength)`.
pub fn win_roll_bound(player_strength: u32, enemy_strength: u32) -> (r: u64)
    ensures
        r == player_strength + enemy_strength,
{
    player_strength as u64 + enemy_strength as u64
}

/// Resolves one encounter: a roll is drawn uniformly below `win_roll_bound`
/// and decided by `player_wins_roll`, so the player wins with chance
/// `player_strength / (player_strength + enemy_strength)`; a win gains a
/// strength drawn from `[1, enemy_strength]`. `outcome_of` builds the result.
pub fn resolve(player_strength: u32, enemy_strength: u32, rng: &mut StdRng) -> (r: CombatOutcome)
    requires
        1 <= enemy_strength,
    ensures
        r matches CombatOutcome::PlayerWins(g) ==> 1 <= g <= enemy_strength,
        player_strength == 0 ==> r == CombatOutcome::PlayerLoses,
{
    let total = win_roll_bound(player_strength, enemy_strength);
    let roll = draw_below(rng, 0, total);
    if player_wins_roll(player_strength, enemy_strength, roll) {
        let gain = draw_below(rng, 1, enemy_strength as u64 + 1) as u32;
        outcome_of(player_strength, enemy_strength, roll, gain)
    } else {
        outcome_of(player_strength, enemy_strength, roll, 0)
    }
}

} // verus!

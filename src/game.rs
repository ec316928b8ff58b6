use crate::combat::{resolve, CombatOutcome};
use crate::dungeon::Dungeon;
use crate::floor::{
    enemy_index, index_of_enemy, lemma_index_of_enemy, lemma_reveal_single_cell, occupied,
    revealed_along, DungeonFloor, Enemy,
};
use crate::grid::{in_grid, Coordinate};
use crate::placement::{place_enemies, valid_population, LAST_FLOOR};
use crate::random::draw_below;
use rand::rngs::StdRng;
use vstd::prelude::*;

verus! {

/// Strength of the player at the start of a game.
pub const INITIAL_STRENGTH: u32 = 2;

/// Hit points of the player at the start of a game.
pub const INITIAL_HP: u32 = 3;

/// The player: where they stand, how strong they are, and their hit points.
#[derive(Clone, Copy, PartialEq, Eq, Structural, Debug)]
pub struct Player {
    pub pos: Coordinate,
    pub strength: u32,
    pub hp: u32,
}

/// Whether the game goes on, or how it ended.
#[derive(Clone, Copy, PartialEq, Eq, Structural, Debug)]
pub enum GameStatus {
    Playing,
    /// The player's hit points ran out.
    Lost,
    /// The deepest floor was cleared.
    Won,
}

/// Where the current floor stands in its lifecycle.
#[derive(Clone, Copy, PartialEq, Eq, Structural, Debug)]
pub enum FloorState {
    /// Enemies remain.
    Active,
    /// No enemy remains; the next tick moves on.
    Cleared,
}

/// What a move command did.
#[derive(Clone, Copy, PartialEq, Eq, Structural, Debug)]
pub enum MoveResult {
    Moved,
    /// The target lies off the floor; nothing changed.
    OutOfBounds,
    /// The player moved onto an enemy. The chance to beat it is
    /// `win_numerator / win_denominator`.
    EnemyEncountered { enemy_strength: u32, win_numerator: u64, win_denominator: u64 },
    /// The game has ended; nothing changed.
    Finished,
}

/// What an attack command did.
#[derive(Clone, Copy, PartialEq, Eq, Structural, Debug)]
pub enum AttackResult {
    /// No enemy stands on the player's cell; nothing changed.
    NoTarget,
    /// The enemy was beaten and removed; the player gained this much strength.
    Victory(u32),
    /// The player lost one hit point and has this many left.
    Defeat(u32),
    /// The player lost their last hit point.
    GameOver,
    /// The game has ended; nothing changed.
    Finished,
}

/// What a tick of the floor progression did.
#[derive(Clone, Copy, PartialEq, Eq, Structural, Debug)]
pub enum ProgressResult {
    /// The floor is not cleared, or the game has ended; nothing changed.
    Stayed,
    /// The player went down to a fresh floor.
    Advanced,
    /// The deepest floor was cleared and the game is won.
    FinalFloorCleared,
}

/// A read-only snapshot of what the presentation layer shows.
pub struct GameView {
    pub floor_index: usize,
    pub width: usize,
    pub height: usize,
    pub player: Player,
    pub enemies: Vec<Enemy>,
    /// `fog[y][x]` holds whether the cell `(x, y)` is still unrevealed.
    pub fog: Vec<Vec<bool>>,
}

/// `a + b`, or the largest `u32` where the sum does not fit.
pub open spec fn add_capped(a: u32, b: u32) -> u32 {
    if a + b <= u32::MAX {
        (a + b) as u32
    } else {
        u32::MAX
    }
}

/// The whole game: the dungeon, the player and whether play goes on.
pub struct GameWorld {
    pub dungeon: Dungeon,
    pub player: Player,
    pub status: GameStatus,
}

/// What an attack on the enemy at `index` of the current floor did, read off
/// its result `r`.
pub open spec fn attack_effect(before: GameWorld, after: GameWorld, index: int, r: AttackResult) -> bool {
    let p = before.player;
    let fp = before.dungeon.floor_progress;
    &&& after.player.pos == p.pos
    &&& after.dungeon.floor_progress == fp
    &&& after.dungeon.floors@ == before.dungeon.floors@.update(fp as int, after.floor())
    &&& after.floor().width == before.floor().width
    &&& after.floor().height == before.floor().height
    &&& after.floor().fog_of_wars@ == before.floor().fog_of_wars@
    &&& match r {
        AttackResult::Victory(g) => {
            &&& after.player.strength == add_capped(p.strength, g)
            &&& after.player.hp == p.hp
            &&& after.floor().enemies@ == before.floor().enemies@.remove(index)
            &&& after.status == before.status
        },
        AttackResult::Defeat(h) => {
            &&& h == p.hp - 1
            &&& h > 0
            &&& after.player.hp == h
            &&& after.player.strength == p.strength
            &&& after.floor().enemies@ == before.floor().enemies@
            &&& after.status == before.status
        },
        AttackResult::GameOver => {
            &&& p.hp == 1
            &&& after.player.hp == 0
            &&& after.player.strength == p.strength
            &&& after.floor().enemies@ == before.floor().enemies@
            &&& after.status == GameStatus::Lost
        },
        _ => false,
    }
}

/// A won attack raises the player's strength by exactly the gain, which lies
/// between 1 and the beaten enemy's strength, so strength strictly grows where
/// the sum fits in a `u32`; the beaten enemy leaves the floor.
pub proof fn lemma_win_effect(before: GameWorld, after: GameWorld, index: int, g: u32)
    requires
        0 <= index < before.floor().enemies@.len(),
        attack_effect(before, after, index, AttackResult::Victory(g)),
        1 <= g <= before.floor().enemies@[index].strength,
        before.player.strength + before.floor().enemies@[index].strength <= u32::MAX,
    ensures
        after.player.strength == before.player.strength + g,
        after.player.strength > before.player.strength,
        after.player.strength <= before.player.strength + before.floor().enemies@[index].strength,
        after.floor().enemies@.len() == before.floor().enemies@.len() - 1,
        after.floor().enemies@ == before.floor().enemies@.remove(index),
        after.player.hp == before.player.hp,
{
}

/// A won attack frees exactly the player's cell: afterwards an enemy stands on
/// a cell just when one stood there before and it is not the player's cell.
pub proof fn lemma_win_clears_cell(before: GameWorld, after: GameWorld, index: int, g: u32, c: Coordinate)
    requires
        before.wf(),
        0 <= index < before.floor().enemies@.len(),
        before.floor().enemies@[index].pos == before.player.pos,
        attack_effect(before, after, index, AttackResult::Victory(g)),
    ensures
        occupied(after.floor().enemies@, c) == (occupied(before.floor().enemies@, c) && c
            != before.player.pos),
{
    let es = before.floor().enemies@;
    let rs = after.floor().enemies@;
    assert(before.dungeon.floors@[before.dungeon.floor_progress as int].wf());
    if occupied(rs, c) {
        let j = choose|j: int| 0 <= j < rs.len() && #[trigger] rs[j].pos == c;
        let oj = if j < index { j } else { j + 1 };
        assert(rs[j] == es[oj]);
        assert(es[oj].pos == c);
        assert(oj != index);
    }
    if occupied(es, c) && c != before.player.pos {
        let j = choose|j: int| 0 <= j < es.len() && #[trigger] es[j].pos == c;
        assert(j != index);
        let rj = if j < index { j } else { j - 1 };
        assert(rs[rj] == es[j]);
        assert(rs[rj].pos == c);
    }
}

/// A lost attack costs exactly one hit point; losing the last one ends the
/// game, after which every command reports `Finished` and changes nothing.
pub proof fn lemma_loss_effect(before: GameWorld, after: GameWorld, index: int, r: AttackResult)
    requires
        attack_effect(before, after, index, r),
        r is Defeat || r is GameOver,
    ensures
        after.player.hp == before.player.hp - 1,
        after.player.strength == before.player.strength,
        after.floor().enemies@ == before.floor().enemies@,
        (after.player.hp == 0) == (r == AttackResult::GameOver),
        r == AttackResult::GameOver ==> after.status == GameStatus::Lost,
{
}

impl GameWorld {
    /// The floor the player is on.
    pub open spec fn floor(&self) -> DungeonFloor {
        self.dungeon.current()
    }

    /// The current floor is the last one, no deeper than the deepest floor, and
    /// holds the player; a player still playing has hit points left.
    pub open spec fn wf(&self) -> bool {
        &&& self.dungeon.wf()
        &&& self.dungeon.floor_progress + 1 == self.dungeon.floors@.len()
        &&& self.dungeon.floor_progress <= LAST_FLOOR
        &&& self.player.pos.within(self.floor().width as int, self.floor().height as int)
        &&& self.status == GameStatus::Playing ==> self.player.hp > 0
    }

    /// A game at depth zero on `floor`, with the fog lifted from the player's cell.
    pub fn new(floor: DungeonFloor, player: Player) -> (r: GameWorld)
        requires
            floor.wf(),
            player.pos.within(floor.width as int, floor.height as int),
            player.hp > 0,
        ensures
            r.wf(),
            r.status == GameStatus::Playing,
            r.player == player,
            r.dungeon.floor_progress == 0,
            r.dungeon.floors@.len() == 1,
            revealed_along(floor, r.floor(), player.pos, player.pos),
            r.floor().enemies@ == floor.enemies@,
    {
        let mut floor = floor;
        floor.reveal_path(player.pos, player.pos);
        GameWorld { dungeon: Dungeon::new(floor), player, status: GameStatus::Playing }
    }

    /// A fresh game on a `width` by `height` floor at depth zero: enemies drawn
    /// for that depth, the player at `(0, 0)` with the initial strength and hit
    /// points, every cell but the player's unrevealed.
    pub fn start(width: usize, height: usize, rng: &mut StdRng) -> (r: GameWorld)
        requires
            0 < width,
            0 < height,
        ensures
            r.wf(),
            r.status == GameStatus::Playing,
            r.player == (Player { pos: Coordinate { x: 0, y: 0 }, strength: INITIAL_STRENGTH, hp: INITIAL_HP }),
            r.dungeon.floor_progress == 0,
            r.floor().width == width,
            r.floor().height == height,
            valid_population(r.floor().enemies@, 0, width as int, height as int),
            forall|x: int, y: int|
                in_grid(width as int, height as int, x, y) ==> #[trigger] r.floor().unrevealed(x, y)
                    == !(x == 0 && y == 0),
    {
        let mut floor = DungeonFloor::new(width, height);
        let ghost fresh = floor;
        floor.enemies = place_enemies(0, width, height, rng);
        assert(floor.fog_of_wars@ == fresh.fog_of_wars@);
        let player = Player { pos: Coordinate { x: 0, y: 0 }, strength: INITIAL_STRENGTH, hp: INITIAL_HP };
        let ghost f0 = floor;
        let r = GameWorld::new(floor, player);
        proof {
            lemma_reveal_single_cell(f0, r.floor(), player.pos);
            assert forall|x: int, y: int| in_grid(width as int, height as int, x, y) implies #[trigger] r.floor().unrevealed(x, y)
                == !(x == 0 && y == 0) by {
                assert(fresh.unrevealed(x, y));
                assert(f0.unrevealed(x, y));
            }
        }
        r
    }

    /// A snapshot of the current floor and the player.
    pub fn current_view(&self) -> (r: GameView)
        requires
            self.wf(),
        ensures
            r.floor_index == self.dungeon.floor_progress,
            r.width == self.floor().width,
            r.height == self.floor().height,
            r.player == self.player,
            r.enemies@ == self.floor().enemies@,
            r.fog@.len() == r.height,
            forall|y: int| #![trigger r.fog@[y]] 0 <= y < r.height ==> r.fog@[y]@.len() == r.width,
            forall|x: int, y: int|
                in_grid(r.width as int, r.height as int, x, y) ==> #[trigger] r.fog@[y]@[x]
                    == self.floor().unrevealed(x, y),
    {
        let floor = self.dungeon.current_floor();
        let fog = floor.fog_of_war_maskmap(floor.width, floor.height);
        let mut enemies: Vec<Enemy> = Vec::new();
        let mut i: usize = 0;
        while i < floor.enemies.len()
            invariant
                i <= floor.enemies@.len(),
                enemies@ == floor.enemies@.subrange(0, i as int),
            decreases floor.enemies@.len() - i,
        {
            enemies.push(floor.enemies[i]);
            i = i + 1;
            assert(enemies@ =~= floor.enemies@.subrange(0, i as int));
        }
        assert(enemies@ =~= floor.enemies@);
        GameView {
            floor_index: self.dungeon.floor_progress,
            width: floor.width,
            height: floor.height,
            player: self.player,
            enemies,
            fog,
        }
    }

    /// Whether the current floor still has enemies.
    pub fn floor_state(&self) -> (r: FloorState)
        requires
            self.wf(),
        ensures
            r == if self.floor().enemies@.len() == 0 {
                FloorState::Cleared
            } else {
                FloorState::Active
            },
    {
        if self.dungeon.current_floor().is_cleared() {
            FloorState::Cleared
        } else {
            FloorState::Active
        }
    }
    /// Moves the player to `target`, lifting the fog along the straight path
    /// there, and reports any enemy standing on `target`.
    pub fn process_move(&mut self, target: Coordinate) -> (r: MoveResult)
        requires
            old(self).wf(),
        ensures
            final(self).wf(),
            old(self).status != GameStatus::Playing ==> r == MoveResult::Finished && *final(self)
                == *old(self),
            old(self).status == GameStatus::Playing && !target.within(
                old(self).floor().width as int,
                old(self).floor().height as int,
            ) ==> r == MoveResult::OutOfBounds && *final(self) == *old(self),
            old(self).status == GameStatus::Playing && target.within(
                old(self).floor().width as int,
                old(self).floor().height as int,
            ) ==> {
                &&& final(self).player == (Player { pos: target, ..old(self).player })
                &&& final(self).status == old(self).status
                &&& final(self).dungeon.floor_progress == old(self).dungeon.floor_progress
                &&& final(self).dungeon.floors@ == old(self).dungeon.floors@.update(
                    old(self).dungeon.floor_progress as int,
                    final(self).floor(),
                )
                &&& revealed_along(old(self).floor(), final(self).floor(), old(self).player.pos, target)
                &&& final(self).floor().enemies@ == old(self).floor().enemies@
                &&& !occupied(old(self).floor().enemies@, target) ==> r == MoveResult::Moved
                &&& occupied(old(self).floor().enemies@, target) ==> {
                    let e = old(self).floor().enemies@[index_of_enemy(old(self).floor().enemies@, target)];
                    r == (MoveResult::EnemyEncountered {
                        enemy_strength: e.strength,
                        win_numerator: old(self).player.strength as u64,
                        win_denominator: (old(self).player.strength + e.strength) as u64,
                    })
                }
            },
    {
        if self.status != GameStatus::Playing {
            return MoveResult::Finished;
        }
        let fp = self.dungeon.floor_progress;
        if !target.is_within(self.dungeon.floors[fp].width, self.dungeon.floors[fp].height) {
            return MoveResult::OutOfBounds;
        }
        let from = self.player.pos;
        self.dungeon.floors[fp].reveal_path(from, target);
        self.player.pos = target;
        match enemy_index(&self.dungeon.floors[fp].enemies, target) {
            None => MoveResult::Moved,
            Some(i) => {
                proof {
                    lemma_index_of_enemy(self.floor().enemies@, i as int);
                }
                let e = self.dungeon.floors[fp].enemies[i].strength;
                let p = self.player.strength;
                MoveResult::EnemyEncountered {
                    enemy_strength: e,
                    win_numerator: p as u64,
                    win_denominator: p as u64 + e as u64,
                }
            },
        }
    }

    /// Applies the outcome of the encounter with the enemy at `index` of the
    /// current floor, who stands on the player's cell: a win adds the gain to
    /// the player's strength and removes the enemy, a loss costs one hit point
    /// and ends the game when none is left.
    pub fn apply_outcome(&mut self, index: usize, outcome: CombatOutcome) -> (r: AttackResult)
        requires
            old(self).wf(),
            old(self).status == GameStatus::Playing,
            index < old(self).floor().enemies@.len(),
            old(self).floor().enemies@[index as int].pos == old(self).player.pos,
        ensures
            final(self).wf(),
            attack_effect(*old(self), *final(self), index as int, r),
            outcome matches CombatOutcome::PlayerWins(g) ==> r == AttackResult::Victory(g),
            outcome == CombatOutcome::PlayerLoses ==> (r is Defeat || r is GameOver),
    {
        let fp = self.dungeon.floor_progress;
        match outcome {
            CombatOutcome::PlayerWins(g) => {
                let _beaten = self.dungeon.current_floor_mut().remove_enemy(index);
                self.player.strength = self.player.strength.saturating_add(g);
                AttackResult::Victory(g)
            },
            CombatOutcome::PlayerLoses => {
                self.player.hp = self.player.hp - 1;
                assert(self.dungeon.floors@ == old(self).dungeon.floors@.update(fp as int, self.floor()));
                if self.player.hp == 0 {
                    self.status = GameStatus::Lost;
                    AttackResult::GameOver
                } else {
                    AttackResult::Defeat(self.player.hp)
                }
            },
        }
    }

    /// Fights the enemy on the player's cell, if there is one: see `resolve`
    /// for the chances and `apply_outcome` for the effects.
    pub fn process_attack(&mut self, rng: &mut StdRng) -> (r: AttackResult)
        requires
            old(self).wf(),
        ensures
            final(self).wf(),
            old(self).status != GameStatus::Playing ==> r == AttackResult::Finished && *final(self)
                == *old(self),
            old(self).status == GameStatus::Playing && !occupied(
                old(self).floor().enemies@,
                old(self).player.pos,
            ) ==> r == AttackResult::NoTarget && *final(self) == *old(self),
            old(self).status == GameStatus::Playing && occupied(
                old(self).floor().enemies@,
                old(self).player.pos,
            ) ==> {
                let i = index_of_enemy(old(self).floor().enemies@, old(self).player.pos);
                &&& attack_effect(*old(self), *final(self), i, r)
                &&& r matches AttackResult::Victory(g) ==> 1 <= g <= old(self).floor().enemies@[i].strength
            },
    {
        if self.status != GameStatus::Playing {
            return AttackResult::Finished;
        }
        let fp = self.dungeon.floor_progress;
        match enemy_index(&self.dungeon.floors[fp].enemies, self.player.pos) {
            None => AttackResult::NoTarget,
            Some(i) => {
                proof {
                    lemma_index_of_enemy(self.floor().enemies@, i as int);
                }
                let e = self.dungeon.floors[fp].enemies[i].strength;
                let outcome = resolve(self.player.strength, e, rng);
                self.apply_outcome(i, outcome)
            },
        }
    }
    /// Takes the player down to `floor`, which becomes the current floor: the
    /// player stands on `spawn`, whose fog is lifted, and gains one hit point.
    pub fn enter_floor(&mut self, floor: DungeonFloor, spawn: Coordinate)
        requires
            old(self).wf(),
            old(self).dungeon.floor_progress < LAST_FLOOR,
            floor.wf(),
            spawn.within(floor.width as int, floor.height as int),
        ensures
            final(self).wf(),
            final(self).dungeon.floor_progress == old(self).dungeon.floor_progress + 1,
            final(self).dungeon.floors@.drop_last() == old(self).dungeon.floors@,
            final(self).dungeon.floors@.len() == old(self).dungeon.floors@.len() + 1,
            revealed_along(floor, final(self).floor(), spawn, spawn),
            final(self).floor().enemies@ == floor.enemies@,
            final(self).player == (Player {
                pos: spawn,
                strength: old(self).player.strength,
                hp: add_capped(old(self).player.hp, 1),
            }),
            final(self).status == old(self).status,
    {
        let mut floor = floor;
        floor.reveal_path(spawn, spawn);
        self.dungeon.add_floor(floor);
        self.dungeon.advance_floor_progress();
        self.player.pos = spawn;
        self.player.hp = self.player.hp.saturating_add(1);
        assert(self.dungeon.floors@.drop_last() == old(self).dungeon.floors@);
    }

    /// One tick of the floor progression. A cleared floor leads to a fresh
    /// floor of the same size one level deeper, with enemies drawn for that
    /// depth, the player on a random cell whose fog alone is lifted, and one
    /// more hit point; a cleared deepest floor wins the game.
    pub fn advance_if_cleared(&mut self, rng: &mut StdRng) -> (r: ProgressResult)
        requires
            old(self).wf(),
        ensures
            final(self).wf(),
            old(self).status != GameStatus::Playing || old(self).floor().enemies@.len() > 0 ==> r
                == ProgressResult::Stayed && *final(self) == *old(self),
            old(self).status == GameStatus::Playing && old(self).floor().enemies@.len() == 0
                && old(self).dungeon.floor_progress == LAST_FLOOR ==> r
                == ProgressResult::FinalFloorCleared && final(self).status == GameStatus::Won
                && final(self).player == old(self).player && final(self).dungeon == old(self).dungeon,
            old(self).status == GameStatus::Playing && old(self).floor().enemies@.len() == 0
                && old(self).dungeon.floor_progress < LAST_FLOOR ==> {
                let fl = final(self).floor();
                let pos = final(self).player.pos;
                &&& r == ProgressResult::Advanced
                &&& final(self).status == GameStatus::Playing
                &&& final(self).dungeon.floor_progress == old(self).dungeon.floor_progress + 1
                &&& final(self).dungeon.floors@.drop_last() == old(self).dungeon.floors@
                &&& fl.width == old(self).floor().width
                &&& fl.height == old(self).floor().height
                &&& valid_population(
                    fl.enemies@,
                    final(self).dungeon.floor_progress as int,
                    fl.width as int,
                    fl.height as int,
                )
                &&& forall|x: int, y: int|
                    in_grid(fl.width as int, fl.height as int, x, y) ==> #[trigger] fl.unrevealed(x, y)
                        == !(x == pos.x && y == pos.y)
                &&& final(self).player.strength == old(self).player.strength
                &&& final(self).player.hp == add_capped(old(self).player.hp, 1)
            },
    {
        if self.status != GameStatus::Playing || !self.dungeon.current_floor().is_cleared() {
            return ProgressResult::Stayed;
        }
        let fp = self.dungeon.floor_progress;
        if fp == LAST_FLOOR {
            self.status = GameStatus::Won;
            return ProgressResult::FinalFloorCleared;
        }
        let width = self.dungeon.current_floor().width;
        let height = self.dungeon.current_floor().height;
        let mut floor = DungeonFloor::new(width, height);
        let ghost fresh = floor;
        floor.enemies = place_enemies(fp + 1, width, height, rng);
        assert(floor.fog_of_wars@ == fresh.fog_of_wars@);
        let x = draw_below(rng, 0, width as u64) as usize;
        let y = draw_below(rng, 0, height as u64) as usize;
        let spawn = Coordinate { x, y };
        let ghost f0 = floor;
        self.enter_floor(floor, spawn);
        proof {
            lemma_reveal_single_cell(f0, self.floor(), spawn);
            assert forall|cx: int, cy: int| in_grid(width as int, height as int, cx, cy) implies #[trigger] self.floor().unrevealed(cx, cy)
                == !(cx == spawn.x && cy == spawn.y) by {
                assert(fresh.unrevealed(cx, cy));
                assert(f0.unrevealed(cx, cy));
            }
        }
        ProgressResult::Advanced
    }
}

} // verus!

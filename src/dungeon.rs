use crate::floor::DungeonFloor;
use crate::placement::{
    draw_placement, draws_fit, lemma_populated_valid, placed_from, populate, valid_population,
    PlacementDraws, LAST_FLOOR,
};
use rand::rngs::StdRng;
use vstd::prelude::*;

verus! {

/// The floors visited so far, in order, and the depth of the current one.
pub struct Dungeon {
    pub floors: Vec<DungeonFloor>,
    pub floor_progress: usize,
}

impl Dungeon {
    /// The current floor exists, and every floor is well formed.
    pub open spec fn wf(&self) -> bool {
        &&& self.floor_progress < self.floors@.len()
        &&& forall|i: int| #![trigger self.floors@[i]] 0 <= i < self.floors@.len() ==> self.floors@[i].wf()
    }

    pub open spec fn current(&self) -> DungeonFloor {
        self.floors@[self.floor_progress as int]
    }

    /// A dungeon whose only floor is `floor`, at depth zero.
    pub fn new(floor: DungeonFloor) -> (r: Dungeon)
        requires
            floor.wf(),
        ensures
            r.wf(),
            r.floors@ == seq![floor],
            r.floor_progress == 0,
    {
        let mut floors: Vec<DungeonFloor> = Vec::new();
        floors.push(floor);
        Dungeon { floors, floor_progress: 0 }
    }

    /// Moves the current depth one floor down.
    pub fn advance_floor_progress(&mut self)
        requires
            old(self).floor_progress < usize::MAX,
        ensures
            final(self).floor_progress == old(self).floor_progress + 1,
            final(self).floors@ == old(self).floors@,
    {
        self.floor_progress = self.floor_progress + 1;
    }

    /// Appends `floor` after the last floor.
    pub fn add_floor(&mut self, floor: DungeonFloor)
        ensures
            final(self).floors@ == old(self).floors@.push(floor),
            final(self).floor_progress == old(self).floor_progress,
    {
        self.floors.push(floor);
    }

    /// The floor at the current depth.
    pub fn current_floor(&self) -> (r: &DungeonFloor)
        requires
            self.floor_progress < self.floors@.len(),
        ensures
            *r == self.current(),
    {
        &self.floors[self.floor_progress]
    }

    /// The floor at the current depth, for change.
    pub fn current_floor_mut(&mut self) -> (r: &mut DungeonFloor)
        requires
            old(self).floor_progress < old(self).floors@.len(),
        ensures
            *r == old(self).current(),
            final(self).floors@ == old(self).floors@.update(
                old(self).floor_progress as int,
                *final(r),
            ),
            final(self).floor_progress == old(self).floor_progress,
    {
        &mut self.floors[self.floor_progress]
    }

    /// Populates the current floor from `draws` by `populate`, replacing any
    /// enemies it had.
    pub fn populate_current_floor(&mut self, draws: &PlacementDraws)
        requires
            old(self).wf(),
            draws_fit(
                *draws,
                old(self).floor_progress as int,
                old(self).current().width as int,
                old(self).current().height as int,
            ),
        ensures
            final(self).wf(),
            final(self).floor_progress == old(self).floor_progress,
            final(self).floors@ == old(self).floors@.update(
                old(self).floor_progress as int,
                final(self).current(),
            ),
            final(self).current().width == old(self).current().width,
            final(self).current().height == old(self).current().height,
            final(self).current().fog_of_wars@ == old(self).current().fog_of_wars@,
            placed_from(
                final(self).current().enemies@,
                draws.starts@,
                draws.flips@,
                draws.strengths@,
                old(self).current().width as int,
                old(self).current().height as int,
            ),
            valid_population(
                final(self).current().enemies@,
                old(self).floor_progress as int,
                old(self).current().width as int,
                old(self).current().height as int,
            ),
    {
        let p = self.floor_progress;
        let width = self.floors[p].width;
        let height = self.floors[p].height;
        proof {
            assert forall|k: int|
                #![trigger draws.starts@[k]]
                0 <= k < draws.starts@.len() implies draws.starts@[k].within(
                width as int,
                height as int,
            ) by {}
            assert(draws.starts@.len() <= width * height);
        }
        let enemies = populate(&draws.starts, &draws.flips, &draws.strengths, width, height);
        proof {
            lemma_populated_valid(
                enemies@,
                *draws,
                p as int,
                width as int,
                height as int,
            );
        }
        self.floors[p].enemies = enemies;
        assert(self.floors@ =~= old(self).floors@.update(p as int, self.current()));
    }

    /// Populates the current floor with freshly drawn enemies, replacing any it
    /// had: the draws come from `draw_placement`, the placing is
    /// `populate_current_floor`.
    pub fn prepare_enemies_in_current_floor(&mut self, rng: &mut StdRng)
        requires
            old(self).wf(),
            old(self).floor_progress <= LAST_FLOOR,
        ensures
            final(self).wf(),
            final(self).floor_progress == old(self).floor_progress,
            final(self).floors@ == old(self).floors@.update(
                old(self).floor_progress as int,
                final(self).current(),
            ),
            final(self).current().width == old(self).current().width,
            final(self).current().height == old(self).current().height,
            final(self).current().fog_of_wars@ == old(self).current().fog_of_wars@,
            valid_population(
                final(self).current().enemies@,
                old(self).floor_progress as int,
                old(self).current().width as int,
                old(self).current().height as int,
            ),
    {
        let p = self.floor_progress;
        let draws = draw_placement(p, self.floors[p].width, self.floors[p].height, rng);
        self.populate_current_floor(&draws);
    }
}

} // verus!

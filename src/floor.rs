use crate::grid::{cell, in_grid, Coordinate};
use crate::raster::{draw_line, lemma_point_segment, on_line};
use vstd::prelude::*;

verus! {

/// An enemy standing on a floor.
#[derive(Clone, Copy, PartialEq, Eq, Structural, Debug)]
pub struct Enemy {
    pub pos: Coordinate,
    pub strength: u32,
}

/// Whether no two enemies of `enemies` stand on the same cell.
pub open spec fn positions_distinct(enemies: Seq<Enemy>) -> bool {
    forall|i: int, j: int|
        0 <= i < enemies.len() && 0 <= j < enemies.len() && i != j ==> #[trigger] enemies[i].pos
            != #[trigger] enemies[j].pos
}

/// Whether some enemy of `enemies` stands on `pos`.
pub open spec fn occupied(enemies: Seq<Enemy>, pos: Coordinate) -> bool {
    exists|i: int| 0 <= i < enemies.len() && #[trigger] enemies[i].pos == pos
}

/// The index of the enemy of `enemies` standing on `pos`; meaningful where one does.
pub open spec fn index_of_enemy(enemies: Seq<Enemy>, pos: Coordinate) -> int {
    choose|i: int| 0 <= i < enemies.len() && #[trigger] enemies[i].pos == pos
}

/// Where positions are distinct, the enemy on a cell is the one at `index_of_enemy`.
pub proof fn lemma_index_of_enemy(enemies: Seq<Enemy>, i: int)
    requires
        positions_distinct(enemies),
        0 <= i < enemies.len(),
    ensures
        index_of_enemy(enemies, enemies[i].pos) == i,
{
    let j = index_of_enemy(enemies, enemies[i].pos);
    assert(0 <= j < enemies.len() && enemies[j].pos == enemies[i].pos);
}

/// Adding an enemy on a free cell keeps the positions distinct.
pub proof fn lemma_push_distinct(enemies: Seq<Enemy>, e: Enemy)
    requires
        positions_distinct(enemies),
        !occupied(enemies, e.pos),
    ensures
        positions_distinct(enemies.push(e)),
{
    let es = enemies.push(e);
    assert forall|i: int, j: int|
        0 <= i < es.len() && 0 <= j < es.len() && i != j implies #[trigger] es[i].pos
        != #[trigger] es[j].pos by {
        if i == es.len() - 1 {
            assert(enemies[j] == es[j]);
        } else if j == es.len() - 1 {
            assert(enemies[i] == es[i]);
        } else {
            assert(enemies[i] == es[i]);
            assert(enemies[j] == es[j]);
        }
    }
}

/// The index of the enemy of `enemies` standing on `pos`, if any.
pub fn enemy_index(enemies: &Vec<Enemy>, pos: Coordinate) -> (r: Option<usize>)
    ensures
        match r {
            Some(i) => i < enemies@.len() && enemies@[i as int].pos == pos,
            None => !occupied(enemies@, pos),
        },
{
    let mut i: usize = 0;
    while i < enemies.len()
        invariant
            i <= enemies@.len(),
            forall|j: int| 0 <= j < i ==> #[trigger] enemies@[j].pos != pos,
        decreases enemies@.len() - i,
    {
        if enemies[i].pos == pos {
            return Some(i);
        }
        i = i + 1;
    }
    None
}

/// Whether `after` is `before` with the fog lifted from exactly the cells that
/// the straight path from `from` to `to` passes through.
pub open spec fn revealed_along(
    before: DungeonFloor,
    after: DungeonFloor,
    from: Coordinate,
    to: Coordinate,
) -> bool {
    &&& after.width == before.width
    &&& after.height == before.height
    &&& forall|x: int, y: int|
        in_grid(before.width as int, before.height as int, x, y) ==> #[trigger] after.unrevealed(x, y)
            == (before.unrevealed(x, y) && !on_line(
            from.x as int,
            from.y as int,
            to.x as int,
            to.y as int,
            x,
            y,
        ))
}

/// Revealing along the same path a second time changes nothing: the fog after
/// two reveals is the fog after one.
pub proof fn lemma_reveal_idempotent(
    f0: DungeonFloor,
    f1: DungeonFloor,
    f2: DungeonFloor,
    from: Coordinate,
    to: Coordinate,
)
    requires
        revealed_along(f0, f1, from, to),
        revealed_along(f1, f2, from, to),
    ensures
        f2.width == f1.width,
        f2.height == f1.height,
        forall|x: int, y: int|
            in_grid(f1.width as int, f1.height as int, x, y) ==> #[trigger] f2.unrevealed(x, y)
                == f1.unrevealed(x, y),
{
    assert forall|x: int, y: int| in_grid(f1.width as int, f1.height as int, x, y) implies #[trigger] f2.unrevealed(x, y)
        == f1.unrevealed(x, y) by {
        assert(f1.unrevealed(x, y) == (f0.unrevealed(x, y) && !on_line(
            from.x as int,
            from.y as int,
            to.x as int,
            to.y as int,
            x,
            y,
        )));
    }
}

/// Revealing along the path from a cell to itself lifts the fog from that cell alone.
pub proof fn lemma_reveal_single_cell(f0: DungeonFloor, f1: DungeonFloor, a: Coordinate)
    requires
        revealed_along(f0, f1, a, a),
    ensures
        forall|x: int, y: int|
            in_grid(f0.width as int, f0.height as int, x, y) ==> #[trigger] f1.unrevealed(x, y)
                == (f0.unrevealed(x, y) && !(x == a.x && y == a.y)),
{
    assert forall|x: int, y: int| in_grid(f0.width as int, f0.height as int, x, y) implies #[trigger] f1.unrevealed(x, y)
        == (f0.unrevealed(x, y) && !(x == a.x && y == a.y)) by {
        lemma_point_segment(a.x as int, a.y as int, x, y);
    }
}

/// One level of the dungeon: its size, its enemies and its fog of war.
/// `fog_of_wars[y][x]` holds whether the cell `(x, y)` is still unrevealed.
pub struct DungeonFloor {
    pub width: usize,
    pub height: usize,
    pub fog_of_wars: Vec<Vec<bool>>,
    pub enemies: Vec<Enemy>,
}

impl DungeonFloor {
    /// The fog grid has the floor's shape.
    pub open spec fn fog_shaped(&self) -> bool {
        &&& self.fog_of_wars@.len() == self.height
        &&& forall|y: int|
            #![trigger self.fog_of_wars@[y]]
            0 <= y < self.height ==> self.fog_of_wars@[y]@.len() == self.width
    }

    /// Every enemy stands on the floor with a positive strength, and no two share a cell.
    pub open spec fn enemies_valid(&self) -> bool {
        &&& forall|i: int|
            #![trigger self.enemies@[i]]
            0 <= i < self.enemies@.len() ==> self.enemies@[i].pos.within(
                self.width as int,
                self.height as int,
            ) && self.enemies@[i].strength >= 1
        &&& positions_distinct(self.enemies@)
    }

    pub open spec fn wf(&self) -> bool {
        &&& 0 < self.width
        &&& 0 < self.height
        &&& self.fog_shaped()
        &&& self.enemies_valid()
    }

    /// Whether the cell `(x, y)` is still hidden by the fog of war.
    pub open spec fn unrevealed(&self, x: int, y: int) -> bool {
        self.fog_of_wars@[y]@[x]
    }

    /// A `width` by `height` floor with no enemies, every cell unrevealed.
    pub fn new(width: usize, height: usize) -> (r: DungeonFloor)
        requires
            0 < width,
            0 < height,
        ensures
            r.wf(),
            r.width == width,
            r.height == height,
            r.enemies@.len() == 0,
            forall|x: int, y: int| in_grid(width as int, height as int, x, y) ==> r.unrevealed(x, y),
    {
        let mut fog: Vec<Vec<bool>> = Vec::new();
        let mut y: usize = 0;
        while y < height
            invariant
                y <= height,
                fog@.len() == y,
                forall|r: int|
                    #![trigger fog@[r]]
                    0 <= r < y ==> fog@[r]@.len() == width && forall|c: int|
                        0 <= c < width ==> #[trigger] fog@[r]@[c],
            decreases height - y,
        {
            let mut row: Vec<bool> = Vec::new();
            let mut x: usize = 0;
            while x < width
                invariant
                    x <= width,
                    row@.len() == x,
                    forall|c: int| 0 <= c < x ==> #[trigger] row@[c],
                decreases width - x,
            {
                row.push(true);
                x = x + 1;
            }
            fog.push(row);
            y = y + 1;
        }
        DungeonFloor { width, height, fog_of_wars: fog, enemies: Vec::new() }
    }

    /// A `height` by `width` grid, indexed by row then column, that marks the
    /// cells of this floor still under the fog of war.
    pub fn fog_of_war_maskmap(&self, width: usize, height: usize) -> (r: Vec<Vec<bool>>)
        requires
            self.wf(),
        ensures
            r@.len() == height,
            forall|y: int| #![trigger r@[y]] 0 <= y < height ==> r@[y]@.len() == width,
            forall|x: int, y: int|
                in_grid(width as int, height as int, x, y) ==> #[trigger] r@[y]@[x] == (in_grid(
                    self.width as int,
                    self.height as int,
                    x,
                    y,
                ) && self.unrevealed(x, y)),
    {
        let mut map: Vec<Vec<bool>> = Vec::new();
        let mut y: usize = 0;
        while y < height
            invariant
                self.wf(),
                y <= height,
                map@.len() == y,
                forall|r: int| #![trigger map@[r]] 0 <= r < y ==> map@[r]@.len() == width,
                forall|c: int, r: int|
                    0 <= r < y && 0 <= c < width ==> #[trigger] map@[r]@[c] == (in_grid(
                        self.width as int,
                        self.height as int,
                        c,
                        r,
                    ) && self.unrevealed(c, r)),
            decreases height - y,
        {
            let mut row: Vec<bool> = Vec::new();
            let mut x: usize = 0;
            while x < width
                invariant
                    self.wf(),
                    y < height,
                    x <= width,
                    row@.len() == x,
                    forall|c: int|
                        0 <= c < x ==> #[trigger] row@[c] == (in_grid(
                            self.width as int,
                            self.height as int,
                            c,
                            y as int,
                        ) && self.unrevealed(c, y as int)),
                decreases width - x,
            {
                let hidden = x < self.width && y < self.height && self.fog_of_wars[y][x];
                row.push(hidden);
                x = x + 1;
            }
            map.push(row);
            y = y + 1;
        }
        map
    }

    /// A `height` by `width` grid, indexed by row then column, that marks the
    /// cells holding an enemy.
    pub fn enemy_maskmap(&self, width: usize, height: usize) -> (r: Vec<Vec<bool>>)
        ensures
            r@.len() == height,
            forall|y: int| #![trigger r@[y]] 0 <= y < height ==> r@[y]@.len() == width,
            forall|x: int, y: int|
                in_grid(width as int, height as int, x, y) ==> #[trigger] r@[y]@[x] == occupied(
                    self.enemies@,
                    cell(x, y),
                ),
    {
        let mut map: Vec<Vec<bool>> = Vec::new();
        let mut y: usize = 0;
        while y < height
            invariant
                y <= height,
                map@.len() == y,
                forall|r: int| #![trigger map@[r]] 0 <= r < y ==> map@[r]@.len() == width,
                forall|c: int, r: int| 0 <= r < y && 0 <= c < width ==> !#[trigger] map@[r]@[c],
            decreases height - y,
        {
            let mut row: Vec<bool> = Vec::new();
            let mut x: usize = 0;
            while x < width
                invariant
                    x <= width,
                    row@.len() == x,
                    forall|c: int| 0 <= c < x ==> !#[trigger] row@[c],
                decreases width - x,
            {
                row.push(false);
                x = x + 1;
            }
            map.push(row);
            y = y + 1;
        }
        let mut i: usize = 0;
        while i < self.enemies.len()
            invariant
                i <= self.enemies@.len(),
                map@.len() == height,
                forall|r: int| #![trigger map@[r]] 0 <= r < height ==> map@[r]@.len() == width,
                forall|c: int, r: int|
                    0 <= r < height && 0 <= c < width ==> #[trigger] map@[r]@[c] == exists|j: int|
                        0 <= j < i && #[trigger] self.enemies@[j].pos == cell(c, r),
            decreases self.enemies@.len() - i,
        {
            let pos = self.enemies[i].pos;
            if pos.x < width && pos.y < height {
                map[pos.y][pos.x] = true;
            }
            proof {
                assert forall|c: int, r: int|
                    0 <= r < height && 0 <= c < width implies #[trigger] map@[r]@[c] == exists|j: int|
                        0 <= j < i + 1 && #[trigger] self.enemies@[j].pos == cell(c, r) by {
                    if c == pos.x && r == pos.y {
                        assert(self.enemies@[i as int].pos == cell(c, r));
                    } else {
                        assert(self.enemies@[i as int].pos != cell(c, r));
                    }
                }
            }
            i = i + 1;
        }
        map
    }

    /// Whether the floor has been cleared of enemies.
    pub fn is_cleared(&self) -> (r: bool)
        ensures
            r == (self.enemies@.len() == 0),
    {
        self.enemies.len() == 0
    }

    /// Whether the cell `(x, y)` of the floor is still unrevealed.
    pub fn is_unrevealed(&self, x: usize, y: usize) -> (r: bool)
        requires
            self.wf(),
            in_grid(self.width as int, self.height as int, x as int, y as int),
        ensures
            r == self.unrevealed(x as int, y as int),
    {
        self.fog_of_wars[y][x]
    }

    /// The index of the enemy standing on `pos`, if any.
    pub fn enemy_index_at(&self, pos: Coordinate) -> (r: Option<usize>)
        ensures
            match r {
                Some(i) => i < self.enemies@.len() && self.enemies@[i as int].pos == pos,
                None => !occupied(self.enemies@, pos),
            },
    {
        enemy_index(&self.enemies, pos)
    }

    /// Puts an enemy of the given strength on `pos`, unless the cell lies off the
    /// floor or already holds an enemy, or the strength is zero; returns whether it did.
    pub fn place_enemy(&mut self, pos: Coordinate, strength: u32) -> (r: bool)
        requires
            old(self).wf(),
        ensures
            final(self).wf(),
            r == (pos.within(old(self).width as int, old(self).height as int) && strength >= 1
                && !occupied(old(self).enemies@, pos)),
            r ==> final(self).enemies@ == old(self).enemies@.push(Enemy { pos, strength }),
            !r ==> *final(self) == *old(self),
            final(self).width == old(self).width,
            final(self).height == old(self).height,
            final(self).fog_of_wars@ == old(self).fog_of_wars@,
    {
        if !pos.is_within(self.width, self.height) || strength == 0 {
            return false;
        }
        match self.enemy_index_at(pos) {
            Some(_) => false,
            None => {
                proof {
                    lemma_push_distinct(old(self).enemies@, Enemy { pos, strength });
                }
                self.enemies.push(Enemy { pos, strength });
                proof {
                    assert(self.enemies_valid());
                }
                true
            },
        }
    }

    /// Takes the enemy at `index` off the floor and returns it.
    pub fn remove_enemy(&mut self, index: usize) -> (r: Enemy)
        requires
            old(self).wf(),
            index < old(self).enemies@.len(),
        ensures
            final(self).wf(),
            r == old(self).enemies@[index as int],
            final(self).enemies@ == old(self).enemies@.remove(index as int),
            final(self).width == old(self).width,
            final(self).height == old(self).height,
            final(self).fog_of_wars@ == old(self).fog_of_wars@,
    {
        let r = self.enemies.remove(index);
        proof {
            let es = self.enemies@;
            let os = old(self).enemies@;
            assert forall|i: int| 0 <= i < es.len() implies #[trigger] es[i] == os[if i < index {
                i
            } else {
                i + 1
            }] by {}
            assert forall|i: int, j: int|
                0 <= i < es.len() && 0 <= j < es.len() && i != j implies #[trigger] es[i].pos
                != #[trigger] es[j].pos by {
                let oi = if i < index { i } else { i + 1 };
                let oj = if j < index { j } else { j + 1 };
                assert(es[i] == os[oi]);
                assert(es[j] == os[oj]);
            }
            assert forall|i: int| 0 <= i < es.len() implies #[trigger] es[i].pos.within(
                self.width as int,
                self.height as int,
            ) && es[i].strength >= 1 by {
                let oi = if i < index { i } else { i + 1 };
                assert(es[i] == os[oi]);
            }
        }
        r
    }

    /// Lifts the fog from every cell that the straight path from `from` to `to`
    /// passes through.
    pub fn reveal_path(&mut self, from: Coordinate, to: Coordinate)
        requires
            old(self).wf(),
            from.within(old(self).width as int, old(self).height as int),
            to.within(old(self).width as int, old(self).height as int),
        ensures
            final(self).wf(),
            final(self).width == old(self).width,
            final(self).height == old(self).height,
            final(self).enemies@ == old(self).enemies@,
            revealed_along(*old(self), *final(self), from, to),
    {
        draw_line(&mut self.fog_of_wars, from.x, from.y, to.x, to.y, false);
    }
}

} // verus!

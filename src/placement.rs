use crate::floor::{enemy_index, lemma_push_distinct, occupied, positions_distinct, Enemy};
use crate::grid::{cell, in_grid, Coordinate};
use crate::random::{draw_below, flip_coin};
use rand::rngs::StdRng;
use vstd::arithmetic::div_mod::lemma_fundamental_div_mod;
use vstd::prelude::*;
use vstd::set_lib::{lemma_int_range, lemma_len_subset, set_int_range};

verus! {

/// Depth of the deepest floor; clearing it wins the game.
pub const LAST_FLOOR: usize = 99;

/// How many times a colliding enemy is nudged before the free cells are searched.
pub const NUDGE_LIMIT: u32 = 64;

/// Most enemies that a `width` by `height` floor at depth `floor_index` holds.
pub open spec fn enemy_cap(floor_index: int, width: int, height: int) -> int {
    if width * height < 1 + floor_index {
        width * height
    } else {
        1 + floor_index
    }
}

/// Largest strength of an enemy on the floor at depth `floor_index`.
pub open spec fn strength_cap(floor_index: int) -> int {
    (1 + floor_index) * (1 + floor_index)
}

/// Whether `enemies` is a valid population for a `width` by `height` floor at
/// depth `floor_index`: at least one enemy and at most the cap, each on the
/// floor with a strength in `[1, strength_cap]`, no two on one cell.
pub open spec fn valid_population(
    enemies: Seq<Enemy>,
    floor_index: int,
    width: int,
    height: int,
) -> bool {
    &&& 1 <= enemies.len() <= enemy_cap(floor_index, width, height)
    &&& forall|i: int|
        #![trigger enemies[i]]
        0 <= i < enemies.len() ==> enemies[i].pos.within(width, height) && 1 <= enemies[i].strength
            <= strength_cap(floor_index)
    &&& positions_distinct(enemies)
}

/// Most enemies that a `width` by `height` floor at depth `floor_index` holds.
pub fn enemy_count_cap(floor_index: usize, width: usize, height: usize) -> (r: usize)
    requires
        floor_index < usize::MAX,
    ensures
        r == enemy_cap(floor_index as int, width as int, height as int),
{
    assert((width as u128) * (height as u128) <= u128::MAX) by (nonlinear_arith)
        requires
            width <= usize::MAX,
            height <= usize::MAX,
    ;
    let cells = (width as u128) * (height as u128);
    let depth = floor_index as u128 + 1;
    if cells < depth {
        cells as usize
    } else {
        depth as usize
    }
}

/// Largest strength of an enemy on the floor at depth `floor_index`.
pub fn strength_limit(floor_index: usize) -> (r: u32)
    requires
        floor_index <= LAST_FLOOR,
    ensures
        r == strength_cap(floor_index as int),
        1 <= r <= 10000,
{
    let d = (floor_index + 1) as u32;
    assert(1 <= d * d <= 10000) by (nonlinear_arith)
        requires
            1 <= d <= 100,
    ;
    d * d
}

/// `pos` moved one cell right (or left) and one cell up (or down) on a
/// `width` by `height` floor, each move dropped where it would leave the floor.
pub open spec fn nudged(pos: Coordinate, width: int, height: int, right: bool, up: bool) -> Coordinate {
    let x = if right {
        if pos.x + 1 < width {
            pos.x + 1
        } else {
            pos.x as int
        }
    } else {
        if pos.x > 0 {
            pos.x - 1
        } else {
            pos.x as int
        }
    };
    let y = if up {
        if pos.y > 0 {
            pos.y - 1
        } else {
            pos.y as int
        }
    } else {
        if pos.y + 1 < height {
            pos.y + 1
        } else {
            pos.y as int
        }
    };
    cell(x, y)
}

/// The first column, from `x` on, of row `y` whose cell no enemy stands on.
pub open spec fn free_in_row(enemies: Seq<Enemy>, width: int, y: int, x: int) -> Option<int>
    decreases width - x,
{
    if x >= width {
        None
    } else if !occupied(enemies, cell(x, y)) {
        Some(x)
    } else {
        free_in_row(enemies, width, y, x + 1)
    }
}

/// The first cell, row by row from row `y` on, that no enemy stands on.
pub open spec fn free_from_row(enemies: Seq<Enemy>, width: int, height: int, y: int) -> Option<
    Coordinate,
>
    decreases height - y,
{
    if y >= height {
        None
    } else {
        match free_in_row(enemies, width, y, 0) {
            Some(x) => Some(cell(x, y)),
            None => free_from_row(enemies, width, height, y + 1),
        }
    }
}

/// The cells that a colliding enemy tries in turn: `pos` while it is free,
/// else the walk from `pos` nudged by the first flip pair, and so on; `None`
/// when every cell of the walk is taken.
pub open spec fn nudge_walk(
    enemies: Seq<Enemy>,
    pos: Coordinate,
    flips: Seq<(bool, bool)>,
    width: int,
    height: int,
) -> Option<Coordinate>
    decreases flips.len(),
{
    if !occupied(enemies, pos) {
        Some(pos)
    } else if flips.len() == 0 {
        None
    } else {
        nudge_walk(
            enemies,
            nudged(pos, width, height, flips[0].0, flips[0].1),
            flips.drop_first(),
            width,
            height,
        )
    }
}

/// Where an enemy drawn on `start` settles among `enemies`: the first free
/// cell of its nudge walk, else the first free cell row by row.
pub open spec fn settled(
    enemies: Seq<Enemy>,
    start: Coordinate,
    flips: Seq<(bool, bool)>,
    width: int,
    height: int,
) -> Coordinate {
    match nudge_walk(enemies, start, flips, width, height) {
        Some(c) => c,
        None => match free_from_row(enemies, width, height, 0) {
            Some(c) => c,
            None => start,
        },
    }
}

/// `pos` moved one cell right (or left) and one cell up (or down), each move
/// dropped where it would leave the floor.
pub fn nudge(pos: Coordinate, width: usize, height: usize, right: bool, up: bool) -> (r: Coordinate)
    requires
        pos.within(width as int, height as int),
    ensures
        r.within(width as int, height as int),
        r == nudged(pos, width as int, height as int, right, up),
{
    let x = if right {
        if pos.x < width - 1 {
            pos.x + 1
        } else {
            pos.x
        }
    } else {
        if pos.x > 0 {
            pos.x - 1
        } else {
            pos.x
        }
    };
    let y = if up {
        if pos.y > 0 {
            pos.y - 1
        } else {
            pos.y
        }
    } else {
        if pos.y < height - 1 {
            pos.y + 1
        } else {
            pos.y
        }
    };
    Coordinate { x, y }
}

/// The first cell, row by row, of a `width` by `height` floor that no enemy of
/// `enemies` stands on; `None` when every cell is taken.
pub fn find_free_cell(enemies: &Vec<Enemy>, width: usize, height: usize) -> (r: Option<Coordinate>)
    ensures
        r == free_from_row(enemies@, width as int, height as int, 0),
        match r {
            Some(c) => c.within(width as int, height as int) && !occupied(enemies@, c),
            None => forall|x: int, y: int|
                in_grid(width as int, height as int, x, y) ==> #[trigger] occupied(
                    enemies@,
                    cell(x, y),
                ),
        },
{
    let mut y: usize = 0;
    while y < height
        invariant
            y <= height,
            free_from_row(enemies@, width as int, height as int, 0) == free_from_row(
                enemies@,
                width as int,
                height as int,
                y as int,
            ),
            forall|cx: int, cy: int|
                0 <= cx < width && 0 <= cy < y ==> #[trigger] occupied(enemies@, cell(cx, cy)),
        decreases height - y,
    {
        let mut x: usize = 0;
        while x < width
            invariant
                y < height,
                x <= width,
                free_from_row(enemies@, width as int, height as int, 0) == free_from_row(
                    enemies@,
                    width as int,
                    height as int,
                    y as int,
                ),
                free_in_row(enemies@, width as int, y as int, 0) == free_in_row(
                    enemies@,
                    width as int,
                    y as int,
                    x as int,
                ),
                forall|cx: int, cy: int|
                    0 <= cx < width && 0 <= cy < y ==> #[trigger] occupied(enemies@, cell(cx, cy)),
                forall|cx: int| 0 <= cx < x ==> #[trigger] occupied(enemies@, cell(cx, y as int)),
            decreases width - x,
        {
            let c = Coordinate { x, y };
            assert(c == cell(x as int, y as int));
            match enemy_index(enemies, c) {
                None => {
                    return Some(c);
                },
                Some(_) => {
                    assert(c == cell(x as int, y as int));
                },
            }
            x = x + 1;
        }
        assert(free_in_row(enemies@, width as int, y as int, width as int) == None::<int>);
        y = y + 1;
    }
    None
}

/// Fewer enemies than cells cannot cover every cell of the floor.
proof fn lemma_grid_not_covered(enemies: Seq<Enemy>, width: int, height: int)
    requires
        0 < width <= usize::MAX,
        0 < height <= usize::MAX,
        enemies.len() < width * height,
    ensures
        exists|x: int, y: int| in_grid(width, height, x, y) && !#[trigger] occupied(enemies, cell(x, y)),
{
    if forall|x: int, y: int| in_grid(width, height, x, y) ==> #[trigger] occupied(enemies, cell(x, y)) {
        lemma_grid_covered_count(enemies, width, height);
    }
}

proof fn lemma_grid_covered_count(enemies: Seq<Enemy>, width: int, height: int)
    requires
        0 < width <= usize::MAX,
        0 < height <= usize::MAX,
        forall|x: int, y: int| in_grid(width, height, x, y) ==> #[trigger] occupied(enemies, cell(x, y)),
    ensures
        enemies.len() >= width * height,
{
    let codes = enemies.map(|i: int, e: Enemy| e.pos.y * width + e.pos.x);
    codes.lemma_cardinality_of_set();
    lemma_int_range(0, width * height);
    assert forall|v: int| #[trigger] set_int_range(0, width * height).contains(v) implies codes.to_set().contains(v) by {
        let x = v % width;
        let y = v / width;
        lemma_fundamental_div_mod(v, width);
        assert(0 <= y < height) by (nonlinear_arith)
            requires
                v == width * y + x,
                0 <= x < width,
                0 <= v < width * height,
        ;
        assert(occupied(enemies, cell(x, y)));
        let i = choose|i: int| 0 <= i < enemies.len() && #[trigger] enemies[i].pos == cell(x, y);
        assert(enemies[i].pos.x == x && enemies[i].pos.y == y);
        assert(y * width + x == v) by (nonlinear_arith)
            requires
                v == width * y + x,
        ;
        assert(codes[i] == v);
    }
    vstd::seq_lib::seq_to_set_is_finite(codes);
    lemma_len_subset(set_int_range(0, width * height), codes.to_set());
}

/// Where an enemy drawn on `start` settles among `enemies`: nudged once per
/// flip pair of `flips` while its cell is taken, then the first free cell row
/// by row.
pub fn settle_position(
    enemies: &Vec<Enemy>,
    start: Coordinate,
    flips: &Vec<(bool, bool)>,
    width: usize,
    height: usize,
) -> (r: Coordinate)
    requires
        start.within(width as int, height as int),
        enemies@.len() < width * height,
    ensures
        r == settled(enemies@, start, flips@, width as int, height as int),
        r.within(width as int, height as int),
        !occupied(enemies@, r),
{
    let ghost w = width as int;
    let ghost h = height as int;
    let mut pos = start;
    let mut free = match enemy_index(enemies, pos) {
        Some(_) => false,
        None => true,
    };
    let mut i: usize = 0;
    assert(flips@.subrange(0, flips@.len() as int) =~= flips@);
    while !free && i < flips.len()
        invariant
            w == width,
            h == height,
            i <= flips@.len(),
            pos.within(w, h),
            free == !occupied(enemies@, pos),
            nudge_walk(enemies@, start, flips@, w, h) == nudge_walk(
                enemies@,
                pos,
                flips@.subrange(i as int, flips@.len() as int),
                w,
                h,
            ),
        decreases flips@.len() - i,
    {
        let (right, up) = flips[i];
        let ghost rest = flips@.subrange(i as int, flips@.len() as int);
        assert(rest.drop_first() =~= flips@.subrange(i + 1, flips@.len() as int));
        pos = nudge(pos, width, height, right, up);
        free = match enemy_index(enemies, pos) {
            Some(_) => false,
            None => true,
        };
        i = i + 1;
    }
    if free {
        return pos;
    }
    assert(flips@.subrange(i as int, flips@.len() as int).len() == 0);
    proof {
        lemma_grid_not_covered(enemies@, w, h);
    }
    match find_free_cell(enemies, width, height) {
        Some(c) => c,
        None => start,
    }
}

/// Whether `enemies` is what placing one enemy per draw gives: the `k`-th
/// enemy settles from `starts[k]` with the flips `flips[k]` among the enemies
/// before it, with strength `strengths[k]`.
pub open spec fn placed_from(
    enemies: Seq<Enemy>,
    starts: Seq<Coordinate>,
    flips: Seq<Vec<(bool, bool)>>,
    strengths: Seq<u32>,
    width: int,
    height: int,
) -> bool {
    &&& enemies.len() == starts.len()
    &&& forall|k: int|
        #![trigger enemies[k]]
        0 <= k < enemies.len() ==> enemies[k].strength == strengths[k] && enemies[k].pos == settled(
            enemies.subrange(0, k),
            starts[k],
            flips[k]@,
            width,
            height,
        )
}

/// Places one enemy per start cell, in order: each settles by
/// `settle_position` among those placed before it, with the matching flips
/// and strength.
pub fn populate(
    starts: &Vec<Coordinate>,
    flips: &Vec<Vec<(bool, bool)>>,
    strengths: &Vec<u32>,
    width: usize,
    height: usize,
) -> (r: Vec<Enemy>)
    requires
        starts@.len() == flips@.len(),
        starts@.len() == strengths@.len(),
        starts@.len() <= width * height,
        forall|k: int|
            #![trigger starts@[k]]
            0 <= k < starts@.len() ==> starts@[k].within(width as int, height as int),
    ensures
        placed_from(r@, starts@, flips@, strengths@, width as int, height as int),
        forall|k: int|
            #![trigger r@[k]]
            0 <= k < r@.len() ==> r@[k].pos.within(width as int, height as int),
        positions_distinct(r@),
{
    let mut enemies: Vec<Enemy> = Vec::new();
    let mut k: usize = 0;
    while k < starts.len()
        invariant
            k <= starts@.len(),
            starts@.len() == flips@.len(),
            starts@.len() == strengths@.len(),
            starts@.len() <= width * height,
            forall|j: int|
                #![trigger starts@[j]]
                0 <= j < starts@.len() ==> starts@[j].within(width as int, height as int),
            placed_from(
                enemies@,
                starts@.subrange(0, k as int),
                flips@,
                strengths@,
                width as int,
                height as int,
            ),
            forall|j: int|
                #![trigger enemies@[j]]
                0 <= j < enemies@.len() ==> enemies@[j].pos.within(width as int, height as int),
            positions_distinct(enemies@),
        decreases starts@.len() - k,
    {
        let pos = settle_position(&enemies, starts[k], &flips[k], width, height);
        let e = Enemy { pos, strength: strengths[k] };
        let ghost before = enemies@;
        proof {
            lemma_push_distinct(enemies@, e);
        }
        enemies.push(e);
        k = k + 1;
        proof {
            assert forall|j: int| 0 <= j < enemies@.len() implies #[trigger] enemies@[j].strength
                == strengths@[j] && enemies@[j].pos == settled(
                enemies@.subrange(0, j),
                starts@.subrange(0, k as int)[j],
                flips@[j]@,
                width as int,
                height as int,
            ) by {
                if j < enemies@.len() - 1 {
                    assert(enemies@.subrange(0, j) =~= before.subrange(0, j));
                    assert(before[j] == enemies@[j]);
                } else {
                    assert(enemies@.subrange(0, j) =~= before);
                }
            }
        }
    }
    assert(starts@.subrange(0, starts@.len() as int) =~= starts@);
    enemies
}

/// The random draws that populate a floor: one start cell, one run of
/// `NUDGE_LIMIT` flip pairs and one strength per enemy.
pub struct PlacementDraws {
    pub starts: Vec<Coordinate>,
    pub flips: Vec<Vec<(bool, bool)>>,
    pub strengths: Vec<u32>,
}

/// Whether `d` holds draws for a `width` by `height` floor at depth
/// `floor_index`: between 1 and `enemy_cap` enemies, each start on the floor,
/// `NUDGE_LIMIT` flip pairs each, strengths in `[1, strength_cap]`.
pub open spec fn draws_fit(d: PlacementDraws, floor_index: int, width: int, height: int) -> bool {
    &&& 1 <= d.starts@.len() <= enemy_cap(floor_index, width, height)
    &&& d.flips@.len() == d.starts@.len()
    &&& d.strengths@.len() == d.starts@.len()
    &&& forall|k: int|
        #![trigger d.starts@[k]]
        0 <= k < d.starts@.len() ==> d.starts@[k].within(width, height) && d.flips@[k]@.len()
            == NUDGE_LIMIT && 1 <= d.strengths@[k] <= strength_cap(floor_index)
}

/// Draws what populates a fresh `width` by `height` floor at depth
/// `floor_index`: the number of enemies from `[1, enemy_cap]`, then for each a
/// start cell uniformly on the floor, `NUDGE_LIMIT` fair flip pairs and a
/// strength from `[1, strength_cap]`.
pub fn draw_placement(floor_index: usize, width: usize, height: usize, rng: &mut StdRng) -> (r:
    PlacementDraws)
    requires
        0 < width,
        0 < height,
        floor_index <= LAST_FLOOR,
    ensures
        draws_fit(r, floor_index as int, width as int, height as int),
{
    let cap = enemy_count_cap(floor_index, width, height);
    let limit = strength_limit(floor_index);
    assert(1 <= cap) by (nonlinear_arith)
        requires
            cap == enemy_cap(floor_index as int, width as int, height as int),
            0 < width,
            0 < height,
    ;
    let count = draw_below(rng, 1, cap as u64 + 1) as usize;
    let mut d = PlacementDraws { starts: Vec::new(), flips: Vec::new(), strengths: Vec::new() };
    let mut k: usize = 0;
    while k < count
        invariant
            0 < width,
            0 < height,
            1 <= count <= cap,
            cap == enemy_cap(floor_index as int, width as int, height as int),
            limit == strength_cap(floor_index as int),
            1 <= limit <= 10000,
            k <= count,
            d.starts@.len() == k,
            d.flips@.len() == k,
            d.strengths@.len() == k,
            forall|j: int|
                #![trigger d.starts@[j]]
                0 <= j < k ==> d.starts@[j].within(width as int, height as int) && d.flips@[j]@.len()
                    == NUDGE_LIMIT && 1 <= d.strengths@[j] <= limit,
        decreases count - k,
    {
        let x = draw_below(rng, 0, width as u64) as usize;
        let y = draw_below(rng, 0, height as u64) as usize;
        let mut run: Vec<(bool, bool)> = Vec::new();
        let mut n: u32 = 0;
        while n < NUDGE_LIMIT
            invariant
                n <= NUDGE_LIMIT,
                run@.len() == n,
            decreases NUDGE_LIMIT - n,
        {
            let right = flip_coin(rng);
            let up = flip_coin(rng);
            run.push((right, up));
            n = n + 1;
        }
        let strength = draw_below(rng, 1, limit as u64 + 1) as u32;
        d.starts.push(Coordinate { x, y });
        d.flips.push(run);
        d.strengths.push(strength);
        k = k + 1;
    }
    assert(draws_fit(d, floor_index as int, width as int, height as int));
    d
}

/// Draws the enemies of a fresh `width` by `height` floor at depth
/// `floor_index` by `draw_placement`, and places them by `populate`.
pub fn place_enemies(floor_index: usize, width: usize, height: usize, rng: &mut StdRng) -> (r: Vec<
    Enemy,
>)
    requires
        0 < width,
        0 < height,
        floor_index <= LAST_FLOOR,
    ensures
        valid_population(r@, floor_index as int, width as int, height as int),
{
    let d = draw_placement(floor_index, width, height, rng);
    let r = populate(&d.starts, &d.flips, &d.strengths, width, height);
    proof {
        lemma_populated_valid(r@, d, floor_index as int, width as int, height as int);
    }
    r
}

/// Placing fitting draws gives a valid population.
pub proof fn lemma_populated_valid(
    r: Seq<Enemy>,
    d: PlacementDraws,
    floor_index: int,
    width: int,
    height: int,
)
    requires
        draws_fit(d, floor_index, width, height),
        placed_from(r, d.starts@, d.flips@, d.strengths@, width, height),
        forall|k: int| #![trigger r[k]] 0 <= k < r.len() ==> r[k].pos.within(width, height),
        positions_distinct(r),
    ensures
        valid_population(r, floor_index, width, height),
{
    assert forall|k: int| 0 <= k < r.len() implies #[trigger] r[k].pos.within(width, height) && 1
        <= r[k].strength <= strength_cap(floor_index) by {
        assert(d.starts@[k].within(width, height));
    }
}

} // verus!

use crate::arena::{
    cell_index, drawn, empty_cells, in_bounds, lemma_counts_update, lemma_draw_drawn,
    lemma_draw_keeps, lemma_tile_count_none, lemma_tile_count_positive, put, shows, tile_at,
    tile_count, Arena, Tile, CELLS, HEIGHT, WIDTH,
};
use crate::num::range;
use crate::rand::{byte_of, lcg_iter, lemma_lcg_iter_add, Rand};
use vstd::prelude::*;
use vstd::wrapping::usize_specs;

verus! {

/// Capacity of the body buffer; the snake's target length stays below it.
pub const MAX_LENGTH: usize = 100;

/// Target length after a reset.
pub const START_LENGTH: usize = 5;

/// How much eating one food adds to the target length.
pub const GROWTH: usize = 5;

/// Most food items on the grid at once.
pub const MAX_FOOD: usize = 4;

/// Mask that brings a random byte into a food coordinate.
pub const FOOD_MASK: u8 = 31;

/// Seed of the generator of a new game.
pub const SEED: u32 = 1234;

/// Rows of the tile map that a reset clears; those past the grid are ignored.
pub const CLEAR_ROWS: usize = 24;

/// A cell coordinate. Unsigned, so a step off the top or left edge wraps to
/// a coordinate far outside the grid.
#[derive(Clone, Copy, Debug, PartialEq, Eq, Structural)]
pub struct Pos {
    pub x: usize,
    pub y: usize,
}

/// Heading of the snake.
#[derive(Clone, Copy, Debug, PartialEq, Eq, Structural)]
pub enum Dir {
    Up,
    Down,
    Left,
    Right,
}

/// Which direction keys were freshly pressed during a tick.
#[derive(Clone, Copy, Debug, PartialEq, Eq, Structural)]
pub struct Keys {
    pub up: bool,
    pub down: bool,
    pub left: bool,
    pub right: bool,
}

/// The mathematical state of a game: the cells, the head, the body from
/// tail (first) to neck (last), the target length, the heading, the
/// generator's state and the number of food items.
pub struct Model {
    pub cells: Seq<Tile>,
    pub pos: Pos,
    pub body: Seq<Pos>,
    pub target: int,
    pub dir: Dir,
    pub rng: u32,
    pub food: int,
}

/// The heading after the keys of a tick: each pressed key, taken in the
/// order up, down, left, right, replaces the heading.
pub open spec fn steer(d: Dir, k: Keys) -> Dir {
    if k.right {
        Dir::Right
    } else if k.left {
        Dir::Left
    } else if k.down {
        Dir::Down
    } else if k.up {
        Dir::Up
    } else {
        d
    }
}

/// One step from `p` towards `d`, in wrapping unsigned arithmetic.
pub open spec fn advance(p: Pos, d: Dir) -> Pos {
    match d {
        Dir::Up => Pos { x: p.x, y: usize_specs::wrapping_sub(p.y, 1) },
        Dir::Down => Pos { x: p.x, y: usize_specs::wrapping_add(p.y, 1) },
        Dir::Left => Pos { x: usize_specs::wrapping_sub(p.x, 1), y: p.y },
        Dir::Right => Pos { x: usize_specs::wrapping_add(p.x, 1), y: p.y },
    }
}

/// The head's cell after a reset: the middle of the grid.
pub open spec fn center() -> Pos {
    Pos { x: (WIDTH / 2) as usize, y: (HEIGHT / 2) as usize }
}

/// The cells after a reset: all empty but the head's.
pub open spec fn initial_cells() -> Seq<Tile> {
    empty_cells().update(cell_index(center().x as int, center().y as int), Tile::Snake)
}

/// The state after a reset; the generator keeps its state `rng`.
pub open spec fn initial_model(rng: u32) -> Model {
    Model {
        cells: initial_cells(),
        pos: center(),
        body: Seq::empty(),
        target: START_LENGTH as int,
        dir: Dir::Up,
        rng,
        food: 0,
    }
}

/// Whether the in-grid cell of `p` holds snake.
pub open spec fn occupied(cells: Seq<Tile>, p: Pos) -> bool {
    in_bounds(p.x as int, p.y as int) && tile_at(cells, p.x as int, p.y as int) == Tile::Snake
}

/// The body followed by the head, tail first.
pub open spec fn trail(m: Model) -> Seq<Pos> {
    m.body.push(m.pos)
}

/// What holds of every state that a reset or a tick leaves: lengths and the
/// food count in range, the food count equal to the food cells, and the
/// snake's cells distinct, inside the grid, marked as snake, and the only
/// cells so marked.
pub open spec fn valid(m: Model) -> bool {
    &&& m.cells.len() == CELLS
    &&& m.body.len() <= m.target <= MAX_LENGTH - 1
    &&& 0 <= m.food <= MAX_FOOD
    &&& m.food == tile_count(m.cells, Tile::Food)
    &&& tile_count(m.cells, Tile::Snake) == trail(m).len()
    &&& forall|k: int| 0 <= k < trail(m).len() ==> #[trigger] occupied(m.cells, trail(m)[k])
    &&& forall|j: int, k: int|
        0 <= j < k < trail(m).len() ==> #[trigger] trail(m)[j] != #[trigger] trail(m)[k]
}

/// The body step of a tick: the head joins the body; a snake at its target
/// length then loses its tail, whose cell is emptied.
pub open spec fn with_body(m: Model) -> Model {
    let t = trail(m);
    if m.body.len() < m.target {
        Model { body: t, ..m }
    } else {
        Model { body: t.skip(1), cells: put(m.cells, t[0].x as int, t[0].y as int, Tile::Empty), ..m }
    }
}

/// The food step of a tick at the drawn cell `(x, y)`: food is placed there
/// when fewer than the most food items lie on the grid and the cell is an
/// empty one of the grid; otherwise the draw is dropped.
pub open spec fn with_food(m: Model, x: int, y: int) -> Model {
    if m.food < MAX_FOOD && in_bounds(x, y) && tile_at(m.cells, x, y) == Tile::Empty {
        Model { cells: put(m.cells, x, y, Tile::Food), food: m.food + 1, ..m }
    } else {
        m
    }
}

/// The column drawn for food by a generator in state `rng`: the low five
/// bits of its next byte.
pub open spec fn food_x(rng: u32) -> int {
    (byte_of(rng) % 32) as int
}

/// The row drawn for food by a generator in state `rng`: the low five bits
/// of the byte after.
pub open spec fn food_y(rng: u32) -> int {
    (byte_of(lcg_iter(rng, 8)) % 32) as int
}

/// The target length after eating once.
pub open spec fn grown_target(target: int) -> int {
    if target + GROWTH > MAX_LENGTH - 1 {
        MAX_LENGTH - 1
    } else {
        target + GROWTH
    }
}

/// The move step of a tick: the head steps on; onto snake or off the grid
/// the game resets, onto food it eats, and the new cell becomes snake.
pub open spec fn arrive(m: Model) -> Model {
    let p = advance(m.pos, m.dir);
    let hit = tile_at(m.cells, p.x as int, p.y as int);
    if hit == Tile::Snake {
        initial_model(m.rng)
    } else {
        let eaten = hit == Tile::Food;
        Model {
            cells: put(m.cells, p.x as int, p.y as int, Tile::Snake),
            pos: p,
            food: if eaten {
                m.food - 1
            } else {
                m.food
            },
            target: if eaten {
                grown_target(m.target)
            } else {
                m.target
            },
            ..m
        }
    }
}

/// A tick up to the move: steer, move the body, then draw two bytes and
/// maybe place food.
pub open spec fn before_move(m: Model, k: Keys) -> Model {
    let m1 = with_body(Model { dir: steer(m.dir, k), ..m });
    let m2 = with_food(m1, food_x(m.rng), food_y(m.rng));
    Model { rng: lcg_iter(m.rng, 16), ..m2 }
}

/// One tick: steer, move the body, draw and maybe place food, then move.
pub open spec fn tick(m: Model, k: Keys) -> Model {
    arrive(before_move(m, k))
}

/// Whether a game is in the state that a reset leaves, whatever its
/// generator holds.
pub open spec fn is_initial(m: Model) -> bool {
    m == initial_model(m.rng)
}

/// Two cells of the grid with the same index are the same cell.
proof fn lemma_same_cell(p: Pos, q: Pos)
    requires
        in_bounds(p.x as int, p.y as int),
        in_bounds(q.x as int, q.y as int),
        cell_index(p.x as int, p.y as int) == cell_index(q.x as int, q.y as int),
    ensures
        p == q,
{
}

/// Storing into a cell other than `q`'s leaves whether `q` is snake.
proof fn lemma_put_elsewhere(cells: Seq<Tile>, x: int, y: int, t: Tile, q: Pos)
    requires
        cells.len() == CELLS,
        occupied(cells, q),
        !(q.x as int == x && q.y as int == y),
    ensures
        occupied(put(cells, x, y, t), q),
{
    if in_bounds(x, y) && cell_index(x, y) == cell_index(q.x as int, q.y as int) {
        lemma_same_cell(q, Pos { x: x as usize, y: y as usize });
    }
}

/// The state after a reset is valid.
pub proof fn lemma_initial_valid(rng: u32)
    ensures
        valid(initial_model(rng)),
{
    reveal(valid);
    let m = initial_model(rng);
    let i = cell_index(center().x as int, center().y as int);
    lemma_tile_count_none(empty_cells(), Tile::Food);
    lemma_tile_count_none(empty_cells(), Tile::Snake);
    lemma_counts_update(empty_cells(), i, Tile::Snake);
    assert(trail(m) =~= seq![center()]);
}

/// Placing food keeps a state valid: it lands only on an empty cell and is
/// counted.
pub proof fn lemma_food_valid(m: Model, x: int, y: int)
    requires
        valid(m),
    ensures
        valid(with_food(m, x, y)),
{
    reveal(valid);
    let mf = with_food(m, x, y);
    if mf != m {
        lemma_counts_update(m.cells, cell_index(x, y), Tile::Food);
        assert forall|k: int| 0 <= k < trail(mf).len() implies #[trigger] occupied(
            mf.cells,
            trail(mf)[k],
        ) by {
            assert(trail(mf)[k] == trail(m)[k]);
            lemma_put_elsewhere(m.cells, x, y, Tile::Food, trail(m)[k]);
        }
    }
}

/// What holds after the body and food steps of a tick from a valid state,
/// before the head moves.
#[verifier::opaque]
pub open spec fn staged(mb: Model) -> bool {
    &&& mb.cells.len() == CELLS
    &&& mb.body.len() <= mb.target <= MAX_LENGTH - 1
    &&& 0 <= mb.food <= MAX_FOOD
    &&& mb.food == tile_count(mb.cells, Tile::Food)
    &&& tile_count(mb.cells, Tile::Snake) == mb.body.len()
    &&& forall|k: int| 0 <= k < mb.body.len() ==> #[trigger] occupied(mb.cells, mb.body[k])
    &&& forall|j: int, k: int|
        0 <= j < k < mb.body.len() ==> #[trigger] mb.body[j] != #[trigger] mb.body[k]
}

/// The body and food steps keep the snake's cells marked and distinct and
/// the food count equal to the food on the grid.
proof fn lemma_before_move(m: Model, k: Keys)
    requires
        valid(m),
    ensures
        staged(before_move(m, k)),
{
    reveal(valid);
    reveal(staged);
    let m0 = Model { dir: steer(m.dir, k), ..m };
    let m1 = with_body(m0);
    let m2 = with_food(m1, food_x(m.rng), food_y(m.rng));
    let t = trail(m);
    if m.body.len() >= m.target {
        let tail = t[0];
        assert(occupied(m.cells, tail));
        lemma_counts_update(m.cells, cell_index(tail.x as int, tail.y as int), Tile::Empty);
        assert forall|j: int| 0 <= j < m1.body.len() implies occupied(
            m1.cells,
            #[trigger] m1.body[j],
        ) by {
            assert(m1.body[j] == t[j + 1]);
            assert(occupied(m.cells, t[j + 1]));
            lemma_put_elsewhere(m.cells, tail.x as int, tail.y as int, Tile::Empty, t[j + 1]);
        }
        assert forall|i: int, j: int| 0 <= i < j < m1.body.len() implies #[trigger] m1.body[i]
            != #[trigger] m1.body[j] by {
            assert(m1.body[i] == t[i + 1]);
            assert(m1.body[j] == t[j + 1]);
        }
    } else {
        assert forall|j: int| 0 <= j < m1.body.len() implies occupied(
            m1.cells,
            #[trigger] m1.body[j],
        ) by {
            assert(m1.body[j] == t[j]);
        }
    }
    if m2 != m1 {
        let fx = food_x(m.rng);
        let fy = food_y(m.rng);
        lemma_counts_update(m1.cells, cell_index(fx, fy), Tile::Food);
        assert forall|j: int| 0 <= j < m1.body.len() implies occupied(
            m2.cells,
            #[trigger] m1.body[j],
        ) by {
            let q = m1.body[j];
            assert(occupied(m1.cells, q));
            lemma_put_elsewhere(m1.cells, fx, fy, Tile::Food, q);
        }
    }
}

/// A tick keeps a valid state valid: the food count stays within its bound
/// and equal to the food on the grid, the length stays within the target
/// and the target within the buffer, and the snake's cells stay distinct,
/// inside the grid and marked.
pub proof fn lemma_tick_valid(m: Model, k: Keys)
    requires
        valid(m),
    ensures
        valid(tick(m, k)),
{
    reveal(valid);
    reveal(staged);
    let mb = before_move(m, k);
    lemma_before_move(m, k);
    let p = advance(mb.pos, mb.dir);
    let hit = tile_at(mb.cells, p.x as int, p.y as int);
    if hit == Tile::Snake {
        lemma_initial_valid(mb.rng);
    } else {
        assert(in_bounds(p.x as int, p.y as int));
        let ip = cell_index(p.x as int, p.y as int);
        if hit == Tile::Food {
            lemma_tile_count_positive(mb.cells, ip);
        }
        lemma_counts_update(mb.cells, ip, Tile::Snake);
        let mf = tick(m, k);
        assert(mf.body == mb.body);
        assert(mf.pos == p);
        assert forall|j: int| 0 <= j < mb.body.len() implies #[trigger] mb.body[j] != p by {
            assert(occupied(mb.cells, mb.body[j]));
        }
        assert forall|j: int| 0 <= j < trail(mf).len() implies #[trigger] occupied(
            mf.cells,
            trail(mf)[j],
        ) by {
            if j < mb.body.len() {
                assert(trail(mf)[j] == mb.body[j]);
                lemma_put_elsewhere(mb.cells, p.x as int, p.y as int, Tile::Snake, mb.body[j]);
            }
        }
        assert forall|i: int, j: int| 0 <= i < j < trail(mf).len() implies #[trigger] trail(mf)[i]
            != #[trigger] trail(mf)[j] by {
            assert(trail(mf)[i] == mb.body[i]);
            if j < mb.body.len() {
                assert(trail(mf)[j] == mb.body[j]);
            }
        }
    }
}

/// Whether the move of a tick runs into snake or off the grid, and so
/// resets the game.
pub open spec fn collides(m: Model, k: Keys) -> bool {
    let mb = before_move(m, k);
    let p = advance(mb.pos, mb.dir);
    tile_at(mb.cells, p.x as int, p.y as int) == Tile::Snake
}

/// A step off the grid, including one that wraps below zero, resets the
/// game just as a step onto the snake does; only the generator keeps the
/// draws of the tick.
pub proof fn lemma_off_grid_resets(m: Model, k: Keys)
    requires
        !in_bounds(
            advance(m.pos, steer(m.dir, k)).x as int,
            advance(m.pos, steer(m.dir, k)).y as int,
        ),
    ensures
        collides(m, k),
        tick(m, k) == initial_model(lcg_iter(m.rng, 16)),
{
}

/// Once the snake is as long as its target, a tick that does not reset
/// drops the tail from the body, shifts every other part down by one and
/// appends the old head; the tail's cell stops being snake unless the head
/// steps onto it; and the number of snake cells stays the same.
pub proof fn lemma_mature_slides(m: Model, k: Keys)
    requires
        valid(m),
        m.body.len() == m.target,
        !collides(m, k),
    ensures
        tick(m, k).body == trail(m).skip(1),
        occupied(tick(m, k).cells, trail(m)[0]) ==> tick(m, k).pos == trail(m)[0],
        tile_count(tick(m, k).cells, Tile::Snake) == tile_count(m.cells, Tile::Snake),
{
    reveal(valid);
    lemma_tick_valid(m, k);
    let tail = trail(m)[0];
    assert(occupied(m.cells, tail));
    let mb = before_move(m, k);
    let mf = tick(m, k);
    let p = mf.pos;
    if occupied(mf.cells, tail) && p != tail {
        let wb = with_body(Model { dir: steer(m.dir, k), ..m });
        assert(tile_at(wb.cells, tail.x as int, tail.y as int) == Tile::Empty);
        assert(tile_at(mb.cells, tail.x as int, tail.y as int) != Tile::Snake) by {
            if mb.cells != wb.cells {
                let fx = food_x(m.rng);
                let fy = food_y(m.rng);
                if fx == tail.x as int && fy == tail.y as int {
                } else {
                    if cell_index(fx, fy) == cell_index(tail.x as int, tail.y as int) {
                        lemma_same_cell(tail, Pos { x: fx as usize, y: fy as usize });
                    }
                }
            }
        }
        if cell_index(p.x as int, p.y as int) == cell_index(tail.x as int, tail.y as int) {
            lemma_same_cell(tail, p);
        }
        assert(false);
    }
}

/// A reset from any state leaves the same grid and game as a reset of a
/// new game: two reset games differ in their generators alone.
pub proof fn lemma_reset_canonical(a: Model, b: Model)
    requires
        is_initial(a),
        is_initial(b),
    ensures
        a.cells == b.cells,
        a.pos == b.pos,
        a.body == b.body,
        a.target == b.target,
        a.dir == b.dir,
        a.food == b.food,
        a == (Model { rng: a.rng, ..b }),
{
}

/// The whole game: grid, head, body buffer, lengths, heading, generator and
/// food count.
pub struct Game {
    pub arena: Arena,
    pub pos: Pos,
    pub snake: [Pos; MAX_LENGTH],
    pub length: usize,
    pub target_length: usize,
    pub dir: Dir,
    pub rand: Rand,
    pub food_count: usize,
}

impl Game {
    /// The game as a mathematical value; the body is the first `length`
    /// entries of the body buffer.
    pub open spec fn model(&self) -> Model {
        Model {
            cells: self.arena@,
            pos: self.pos,
            body: self.snake@.take(self.length as int),
            target: self.target_length as int,
            dir: self.dir,
            rng: self.rand@,
            food: self.food_count as int,
        }
    }

    /// What `update` needs and keeps: the state is valid and the tile map
    /// draws every cell as the grid holds it.
    pub open spec fn inv(&self) -> bool {
        &&& self.length <= MAX_LENGTH - 1
        &&& valid(self.model())
        &&& drawn(self.arena@, self.arena.screen())
    }

    /// A new game: every cell empty, the head at column 15 of row 12, an
    /// empty body aiming at the start length, heading up, no food, and the
    /// generator seeded with `SEED`. A reset makes it ready to play.
    pub fn new() -> (r: Game)
        ensures
            r.model() == (Model {
                cells: empty_cells(),
                pos: Pos { x: 15, y: 12 },
                body: Seq::empty(),
                target: START_LENGTH as int,
                dir: Dir::Up,
                rng: SEED,
                food: 0,
            }),
            r.length == 0,
            r.arena.pending() == Seq::<crate::arena::TileWrite>::empty(),
    {
        let r = Game {
            arena: Arena::new(),
            pos: Pos { x: 15, y: 12 },
            snake: [Pos { x: 0, y: 0 }; MAX_LENGTH],
            length: 0,
            target_length: START_LENGTH,
            dir: Dir::Up,
            rand: Rand::new(SEED),
            food_count: 0,
        };
        assert(r.snake@.take(0) =~= Seq::<Pos>::empty());
        r
    }

    /// Puts the game back in its starting state: every cell empty but the
    /// head's, in the middle of the grid; no body; the start target length;
    /// heading up; no food. The generator and the body buffer's contents are
    /// kept.
    pub fn reset(&mut self)
        ensures
            final(self).model() == initial_model(old(self).rand@),
            is_initial(final(self).model()),
            final(self).inv(),
            final(self).rand == old(self).rand,
            final(self).snake == old(self).snake,
    {
        proof {
            self.arena.lemma_len();
        }
        let mut rows = range(0usize, CLEAR_ROWS);
        loop
            invariant
                rows.end() == CLEAR_ROWS,
                0 <= rows.current() <= CLEAR_ROWS,
                self.arena@.len() == CELLS,
                forall|i: int|
                    0 <= i < CELLS && i < rows.current() * WIDTH ==> self.arena@[i] == Tile::Empty,
                forall|cx: int, cy: int|
                    in_bounds(cx, cy) && cy < rows.current() ==> #[trigger] shows(
                        self.arena@,
                        self.arena.screen(),
                        cx,
                        cy,
                    ),
                self.rand == old(self).rand,
                self.snake == old(self).snake,
            ensures
                rows.current() == CLEAR_ROWS,
                self.arena@.len() == CELLS,
                forall|i: int| 0 <= i < CELLS ==> self.arena@[i] == Tile::Empty,
                drawn(self.arena@, self.arena.screen()),
                self.rand == old(self).rand,
                self.snake == old(self).snake,
            decreases CLEAR_ROWS - rows.current(),
        {
            let y = match rows.next() {
                Some(y) => y,
                None => break,
            };
            let mut cols = range(0usize, WIDTH);
            loop
                invariant
                    cols.end() == WIDTH,
                    0 <= cols.current() <= WIDTH,
                    y < CLEAR_ROWS,
                    self.arena@.len() == CELLS,
                    forall|i: int|
                        0 <= i < CELLS && i < y * WIDTH + cols.current() ==> self.arena@[i]
                            == Tile::Empty,
                    forall|cx: int, cy: int|
                        in_bounds(cx, cy) && (cy < y || cy == y && cx < cols.current())
                            ==> #[trigger] shows(self.arena@, self.arena.screen(), cx, cy),
                    self.rand == old(self).rand,
                    self.snake == old(self).snake,
                ensures
                    cols.current() == WIDTH,
                    self.arena@.len() == CELLS,
                    forall|i: int|
                        0 <= i < CELLS && i < y * WIDTH + WIDTH ==> self.arena@[i] == Tile::Empty,
                    forall|cx: int, cy: int|
                        in_bounds(cx, cy) && cy <= y ==> #[trigger] shows(
                            self.arena@,
                            self.arena.screen(),
                            cx,
                            cy,
                        ),
                    self.rand == old(self).rand,
                    self.snake == old(self).snake,
                decreases WIDTH - cols.current(),
            {
                let x = match cols.next() {
                    Some(x) => x,
                    None => break,
                };
                let ghost before = self.arena;
                self.arena.set(x, y, Tile::Empty);
                proof {
                    assert forall|cx: int, cy: int|
                        in_bounds(cx, cy) && (cy < y || cy == y && cx <= x) implies #[trigger] shows(
                        self.arena@,
                        self.arena.screen(),
                        cx,
                        cy,
                    ) by {
                        lemma_draw_keeps(
                            before@,
                            before.screen(),
                            x as int,
                            y as int,
                            Tile::Empty,
                            cx,
                            cy,
                        );
                    }
                }
            }
        }
        assert(self.arena@ =~= empty_cells());
        self.pos.x = WIDTH / 2;
        self.pos.y = HEIGHT / 2;
        self.length = 0;
        self.target_length = START_LENGTH;
        self.dir = Dir::Up;
        self.food_count = 0;
        let ghost before = self.arena;
        self.arena.set(self.pos.x, self.pos.y, Tile::Snake);
        proof {
            lemma_draw_drawn(
                before@,
                before.screen(),
                self.pos.x as int,
                self.pos.y as int,
                Tile::Snake,
            );
            assert(self.arena@ =~= initial_cells());
            assert(self.snake@.take(0) =~= Seq::<Pos>::empty());
            lemma_initial_valid(self.rand@);
        }
    }

    /// The food step of a tick at the drawn cell `(x, y)`: places food there
    /// when fewer than `MAX_FOOD` items lie on the grid and the cell is an
    /// empty one of the grid, and counts it; otherwise changes nothing.
    pub fn place_food(&mut self, x: usize, y: usize)
        ensures
            final(self).model() == with_food(old(self).model(), x as int, y as int),
            final(self).length == old(self).length,
            final(self).snake == old(self).snake,
            old(self).inv() ==> final(self).inv(),
            drawn(old(self).arena@, old(self).arena.screen()) ==> drawn(
                final(self).arena@,
                final(self).arena.screen(),
            ),
    {
        proof {
            if self.inv() {
                lemma_food_valid(self.model(), x as int, y as int);
            }
        }
        if self.food_count < MAX_FOOD && x < WIDTH && y < HEIGHT {
            match self.arena.get(x, y) {
                Tile::Empty => {
                    let ghost before = self.arena;
                    self.arena.set(x, y, Tile::Food);
                    proof {
                        before.lemma_len();
                        if drawn(before@, before.screen()) {
                            lemma_draw_drawn(before@, before.screen(), x as int, y as int, Tile::Food);
                        }
                    }
                    self.food_count = self.food_count + 1;
                },
                _ => {},
            }
        }
    }

    /// The body step of a tick.
    fn advance_body(&mut self)
        requires
            old(self).length <= old(self).target_length <= MAX_LENGTH - 1,
        ensures
            final(self).model() == with_body(old(self).model()),
            final(self).length <= MAX_LENGTH - 1,
            drawn(old(self).arena@, old(self).arena.screen()) ==> drawn(
                final(self).arena@,
                final(self).arena.screen(),
            ),
    {
        let ghost ma = self.model();
        self.snake[self.length] = self.pos;
        let ghost s1 = self.snake@;
        assert(s1.take(self.length + 1) =~= trail(ma));
        if self.length < self.target_length {
            self.length = self.length + 1;
        } else {
            let tail = self.snake[0];
            let ghost before = self.arena;
            self.arena.set(tail.x, tail.y, Tile::Empty);
            proof {
                before.lemma_len();
                if drawn(before@, before.screen()) {
                    lemma_draw_drawn(
                        before@,
                        before.screen(),
                        tail.x as int,
                        tail.y as int,
                        Tile::Empty,
                    );
                }
            }
            let ghost g1 = *self;
            let mut slots = range(0usize, self.length);
            loop
                invariant
                    slots.end() == g1.length,
                    0 <= slots.current() <= g1.length,
                    self.length == g1.length,
                    g1.length <= MAX_LENGTH - 1,
                    forall|j: int| 0 <= j < slots.current() ==> self.snake@[j] == s1[j + 1],
                    forall|j: int| slots.current() <= j < MAX_LENGTH ==> self.snake@[j] == s1[j],
                    self.arena == g1.arena,
                    self.pos == g1.pos,
                    self.target_length == g1.target_length,
                    self.dir == g1.dir,
                    self.rand == g1.rand,
                    self.food_count == g1.food_count,
                ensures
                    self.length == g1.length,
                    forall|j: int| 0 <= j < g1.length ==> self.snake@[j] == s1[j + 1],
                    forall|j: int| g1.length <= j < MAX_LENGTH ==> self.snake@[j] == s1[j],
                    self.arena == g1.arena,
                    self.pos == g1.pos,
                    self.target_length == g1.target_length,
                    self.dir == g1.dir,
                    self.rand == g1.rand,
                    self.food_count == g1.food_count,
                decreases g1.length - slots.current(),
            {
                let i = match slots.next() {
                    Some(i) => i,
                    None => break,
                };
                self.snake[i] = self.snake[i + 1];
            }
            assert(self.snake@.take(self.length as int) =~= trail(ma).skip(1));
        }
    }

    /// The food step of a tick: draws a column and a row and tries them.
    fn spawn_food(&mut self)
        ensures
            final(self).model() == (Model {
                rng: lcg_iter(old(self).rand@, 16),
                ..with_food(old(self).model(), food_x(old(self).rand@), food_y(old(self).rand@))
            }),
            final(self).length == old(self).length,
            drawn(old(self).arena@, old(self).arena.screen()) ==> drawn(
                final(self).arena@,
                final(self).arena.screen(),
            ),
    {
        let ghost r0 = self.rand@;
        let bx = self.rand.next_u8();
        let food_x = (bx & FOOD_MASK) as usize;
        let by = self.rand.next_u8();
        let food_y = (by & FOOD_MASK) as usize;
        proof {
            assert(bx & 31u8 == bx % 32) by (bit_vector);
            assert(by & 31u8 == by % 32) by (bit_vector);
            lemma_lcg_iter_add(r0, 8, 8);
        }
        self.place_food(food_x, food_y);
    }

    /// The move step of a tick.
    fn move_head(&mut self)
        requires
            staged(old(self).model()),
            old(self).length <= MAX_LENGTH - 1,
        ensures
            final(self).model() == arrive(old(self).model()),
            final(self).length <= MAX_LENGTH - 1,
            drawn(old(self).arena@, old(self).arena.screen()) ==> drawn(
                final(self).arena@,
                final(self).arena.screen(),
            ),
    {
        let ghost mb = self.model();
        proof {
            reveal(staged);
        }
        match self.dir {
            Dir::Up => {
                self.pos.y = self.pos.y.wrapping_sub(1);
            },
            Dir::Down => {
                self.pos.y = self.pos.y.wrapping_add(1);
            },
            Dir::Left => {
                self.pos.x = self.pos.x.wrapping_sub(1);
            },
            Dir::Right => {
                self.pos.x = self.pos.x.wrapping_add(1);
            },
        }
        assert(self.pos == advance(mb.pos, mb.dir));
        match self.arena.get(self.pos.x, self.pos.y) {
            Tile::Snake => {
                self.reset();
            },
            Tile::Food => {
                proof {
                    lemma_tile_count_positive(
                        mb.cells,
                        cell_index(self.pos.x as int, self.pos.y as int),
                    );
                }
                self.food_count = self.food_count - 1;
                self.target_length = self.target_length + GROWTH;
                if self.target_length > MAX_LENGTH - 1 {
                    self.target_length = MAX_LENGTH - 1;
                }
            },
            Tile::Empty => {},
        }
        let ghost before = self.arena;
        self.arena.set(self.pos.x, self.pos.y, Tile::Snake);
        proof {
            before.lemma_len();
            if drawn(before@, before.screen()) {
                lemma_draw_drawn(
                    before@,
                    before.screen(),
                    self.pos.x as int,
                    self.pos.y as int,
                    Tile::Snake,
                );
            }
            let p = advance(mb.pos, mb.dir);
            let hit = tile_at(mb.cells, p.x as int, p.y as int);
            if hit == Tile::Snake {
                assert(self.arena@ =~= initial_cells());
                assert(self.model() == initial_model(mb.rng));
            } else if hit == Tile::Food {
                assert(self.target_length == grown_target(mb.target));
                assert(self.model().cells == arrive(mb).cells);
                assert(self.model().body == arrive(mb).body);
                assert(self.model().food == arrive(mb).food);
                assert(self.model() == arrive(mb));
            } else {
                assert(self.model() == arrive(mb));
            }
        }
    }

    /// One tick of play with the keys pressed during it: steer; the head
    /// joins the body, and a snake at its target length loses its tail; two
    /// random bytes pick a cell for food; the head steps on, and a step onto
    /// snake or off the grid resets the game while a step onto food eats it.
    pub fn update(&mut self, keys: Keys)
        requires
            old(self).inv(),
        ensures
            final(self).model() == tick(old(self).model(), keys),
            final(self).inv(),
    {
        let ghost m0 = self.model();
        assert(self.length <= self.target_length <= MAX_LENGTH - 1) by {
            reveal(valid);
        }
        if keys.up {
            self.dir = Dir::Up;
        }
        if keys.down {
            self.dir = Dir::Down;
        }
        if keys.left {
            self.dir = Dir::Left;
        }
        if keys.right {
            self.dir = Dir::Right;
        }
        assert(self.model() == (Model { dir: steer(m0.dir, keys), ..m0 }));
        self.advance_body();
        self.spawn_food();
        proof {
            lemma_before_move(m0, keys);
            lemma_tick_valid(m0, keys);
        }
        self.move_head();
    }
}

} // verus!

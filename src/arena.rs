use vstd::prelude::*;

verus! {

/// Columns of the grid.
pub const WIDTH: usize = 30;

/// Rows of the grid.
pub const HEIGHT: usize = 20;

/// Cells of the grid.
pub const CELLS: usize = WIDTH * HEIGHT;

/// Tile-map slot of the grid's top-left cell.
pub const MAP_BASE: usize = 0x400;

/// Slots per row of the hardware tile map.
pub const MAP_STRIDE: usize = 32;

/// Tile-map code of an empty cell.
pub const CODE_EMPTY: u16 = 1;

/// Tile-map code of a snake cell.
pub const CODE_SNAKE: u16 = 0;

/// Tile-map code of a food cell: tile 0 drawn with the second palette bank.
pub const CODE_FOOD: u16 = 0x1000;

/// What one cell of the grid holds.
#[derive(Clone, Copy, Debug, PartialEq, Eq, Structural)]
pub enum Tile {
    Empty,
    Snake,
    Food,
}

/// One store into the hardware tile map.
#[derive(Clone, Copy, Debug, PartialEq, Eq, Structural)]
pub struct TileWrite {
    pub slot: u32,
    pub code: u16,
}

/// Whether `(x, y)` names a cell of the grid.
pub open spec fn in_bounds(x: int, y: int) -> bool {
    0 <= x < WIDTH && 0 <= y < HEIGHT
}

/// Position of cell `(x, y)` in the row-major cell sequence.
pub open spec fn cell_index(x: int, y: int) -> int {
    x + y * WIDTH
}

/// What a grid with cells `cells` reads at `(x, y)`: outside the grid every
/// coordinate reads as snake, so that leaving the grid is a collision.
pub open spec fn tile_at(cells: Seq<Tile>, x: int, y: int) -> Tile {
    if in_bounds(x, y) {
        cells[cell_index(x, y)]
    } else {
        Tile::Snake
    }
}

/// The cells after storing `t` at `(x, y)`; a coordinate outside is ignored.
pub open spec fn put(cells: Seq<Tile>, x: int, y: int, t: Tile) -> Seq<Tile> {
    if in_bounds(x, y) {
        cells.update(cell_index(x, y), t)
    } else {
        cells
    }
}

/// The tile-map code that draws `t`.
pub open spec fn code_of(t: Tile) -> u16 {
    match t {
        Tile::Empty => CODE_EMPTY,
        Tile::Snake => CODE_SNAKE,
        Tile::Food => CODE_FOOD,
    }
}

/// The tile-map store that draws `t` at the in-grid cell `(x, y)`.
pub open spec fn write_of(x: int, y: int, t: Tile) -> TileWrite {
    TileWrite { slot: slot_of(x, y), code: code_of(t) }
}

/// The tile-map slot of the in-grid cell `(x, y)`.
pub open spec fn slot_of(x: int, y: int) -> u32 {
    (MAP_BASE + x + y * MAP_STRIDE) as u32
}

/// Whether the tile map `screen` draws cell `(x, y)` as `cells` holds it.
pub open spec fn shows(cells: Seq<Tile>, screen: Map<u32, u16>, x: int, y: int) -> bool {
    screen.contains_key(slot_of(x, y)) && screen[slot_of(x, y)] == code_of(
        cells[cell_index(x, y)],
    )
}

/// Whether the tile map `screen` draws every cell of the grid as `cells`
/// holds it.
pub open spec fn drawn(cells: Seq<Tile>, screen: Map<u32, u16>) -> bool {
    forall|x: int, y: int| in_bounds(x, y) ==> #[trigger] shows(cells, screen, x, y)
}

/// The tile map after the store that draws `t` at `(x, y)`; a coordinate
/// outside the grid stores nothing.
pub open spec fn draw(screen: Map<u32, u16>, x: int, y: int, t: Tile) -> Map<u32, u16> {
    if in_bounds(x, y) {
        screen.insert(slot_of(x, y), code_of(t))
    } else {
        screen
    }
}

/// Storing a tile and drawing it keeps every other cell drawn as it was,
/// and draws the stored cell as it now is.
pub proof fn lemma_draw_keeps(
    cells: Seq<Tile>,
    screen: Map<u32, u16>,
    x: int,
    y: int,
    t: Tile,
    cx: int,
    cy: int,
)
    requires
        cells.len() == CELLS,
        in_bounds(cx, cy),
        in_bounds(x, y) && cx == x && cy == y || shows(cells, screen, cx, cy),
    ensures
        shows(put(cells, x, y, t), draw(screen, x, y, t), cx, cy),
{
}

/// A store that is drawn keeps a drawn grid drawn.
pub proof fn lemma_draw_drawn(cells: Seq<Tile>, screen: Map<u32, u16>, x: int, y: int, t: Tile)
    requires
        cells.len() == CELLS,
        drawn(cells, screen),
    ensures
        drawn(put(cells, x, y, t), draw(screen, x, y, t)),
{
    assert forall|cx: int, cy: int| in_bounds(cx, cy) implies #[trigger] shows(
        put(cells, x, y, t),
        draw(screen, x, y, t),
        cx,
        cy,
    ) by {
        assert(shows(cells, screen, cx, cy));
        lemma_draw_keeps(cells, screen, x, y, t, cx, cy);
    }
}

/// A grid with every cell empty.
pub open spec fn empty_cells() -> Seq<Tile> {
    Seq::new(CELLS as nat, |i: int| Tile::Empty)
}

/// How many cells of `cells` hold `u`.
pub open spec fn tile_count(cells: Seq<Tile>, u: Tile) -> nat
    decreases cells.len(),
{
    if cells.len() == 0 {
        0
    } else {
        tile_count(cells.drop_last(), u) + if cells.last() == u {
            1nat
        } else {
            0nat
        }
    }
}

/// Whether `t` is `u`, as a number.
pub open spec fn one_if(t: Tile, u: Tile) -> int {
    if t == u {
        1
    } else {
        0
    }
}

/// Overwriting one cell changes each count by what left and what came.
pub proof fn lemma_tile_count_update(cells: Seq<Tile>, i: int, t: Tile, u: Tile)
    requires
        0 <= i < cells.len(),
    ensures
        tile_count(cells.update(i, t), u) + one_if(cells[i], u) == tile_count(cells, u) + one_if(
            t,
            u,
        ),
    decreases cells.len(),
{
    let w = cells.update(i, t);
    if i == cells.len() - 1 {
        assert(w.drop_last() =~= cells.drop_last());
    } else {
        assert(w.drop_last() =~= cells.drop_last().update(i, t));
        lemma_tile_count_update(cells.drop_last(), i, t, u);
    }
}

/// Overwriting one cell, for the counts of food and of snake.
pub proof fn lemma_counts_update(cells: Seq<Tile>, i: int, t: Tile)
    requires
        0 <= i < cells.len(),
    ensures
        tile_count(cells.update(i, t), Tile::Food) + one_if(cells[i], Tile::Food) == tile_count(
            cells,
            Tile::Food,
        ) + one_if(t, Tile::Food),
        tile_count(cells.update(i, t), Tile::Snake) + one_if(cells[i], Tile::Snake) == tile_count(
            cells,
            Tile::Snake,
        ) + one_if(t, Tile::Snake),
{
    lemma_tile_count_update(cells, i, t, Tile::Food);
    lemma_tile_count_update(cells, i, t, Tile::Snake);
}

/// A grid where no cell holds `u` counts none.
pub proof fn lemma_tile_count_none(cells: Seq<Tile>, u: Tile)
    requires
        forall|i: int| 0 <= i < cells.len() ==> cells[i] != u,
    ensures
        tile_count(cells, u) == 0,
    decreases cells.len(),
{
    if cells.len() > 0 {
        lemma_tile_count_none(cells.drop_last(), u);
    }
}

/// A grid with a cell that holds `cells[i]` counts at least one of it.
pub proof fn lemma_tile_count_positive(cells: Seq<Tile>, i: int)
    requires
        0 <= i < cells.len(),
    ensures
        tile_count(cells, cells[i]) >= 1,
{
    let u = cells[i];
    let other = if u == Tile::Empty {
        Tile::Snake
    } else {
        Tile::Empty
    };
    lemma_tile_count_update(cells, i, other, u);
}

/// The logical tile grid. Every store into an in-grid cell is also issued
/// as a store into the hardware tile map, kept in order until taken.
pub struct Arena {
    data: [Tile; CELLS],
    writes: Vec<TileWrite>,
    screen: Ghost<Map<u32, u16>>,
}

impl View for Arena {
    type V = Seq<Tile>;

    /// The cells in row-major order.
    closed spec fn view(&self) -> Seq<Tile> {
        self.data@
    }
}

impl Arena {
    /// The tile-map stores issued and not yet taken, oldest first.
    pub closed spec fn pending(&self) -> Seq<TileWrite> {
        self.writes@
    }

    /// What the hardware tile map holds once the pending stores are made,
    /// for the slots that this grid has stored into.
    pub closed spec fn screen(&self) -> Map<u32, u16> {
        self.screen@
    }

    /// The grid holds exactly `CELLS` cells.
    pub proof fn lemma_len(&self)
        ensures
            self@.len() == CELLS,
    {
    }

    /// An all-empty grid with no stores pending.
    pub fn new() -> (r: Arena)
        ensures
            r@ == empty_cells(),
            r.pending() == Seq::<TileWrite>::empty(),
            r.screen() == Map::<u32, u16>::empty(),
    {
        let r = Arena {
            data: [Tile::Empty; CELLS],
            writes: Vec::new(),
            screen: Ghost(Map::empty()),
        };
        assert(r@ =~= empty_cells());
        r
    }

    /// Stores `tile` at `(x, y)` and issues the matching tile-map store;
    /// outside the grid nothing happens.
    pub fn set(&mut self, x: usize, y: usize, tile: Tile)
        ensures
            final(self)@ == put(old(self)@, x as int, y as int, tile),
            final(self).pending() == if in_bounds(x as int, y as int) {
                old(self).pending().push(write_of(x as int, y as int, tile))
            } else {
                old(self).pending()
            },
            final(self).screen() == draw(old(self).screen(), x as int, y as int, tile),
    {
        if x < WIDTH && y < HEIGHT {
            self.data[x + y * WIDTH] = tile;
            let code: u16 = match tile {
                Tile::Empty => CODE_EMPTY,
                Tile::Snake => CODE_SNAKE,
                Tile::Food => CODE_FOOD,
            };
            self.writes.push(TileWrite { slot: (MAP_BASE + x + y * MAP_STRIDE) as u32, code });
            self.screen = Ghost(self.screen@.insert(slot_of(x as int, y as int), code));
        }
    }

    /// The tile at `(x, y)`; snake for any coordinate outside the grid.
    pub fn get(&self, x: usize, y: usize) -> (r: Tile)
        ensures
            r == tile_at(self@, x as int, y as int),
    {
        if x < WIDTH && y < HEIGHT {
            self.data[x + y * WIDTH]
        } else {
            Tile::Snake
        }
    }

    /// Hands out the pending tile-map stores, oldest first, and forgets them.
    pub fn take_writes(&mut self) -> (r: Vec<TileWrite>)
        ensures
            r@ == old(self).pending(),
            final(self)@ == old(self)@,
            final(self).pending() == Seq::<TileWrite>::empty(),
            final(self).screen() == old(self).screen(),
    {
        let mut taken: Vec<TileWrite> = Vec::new();
        core::mem::swap(&mut taken, &mut self.writes);
        taken
    }
}

/// Every coordinate outside the grid reads as snake, whatever the cells hold
/// and however large the coordinate is.
pub proof fn lemma_outside_is_snake(cells: Seq<Tile>, x: usize, y: usize)
    requires
        x >= WIDTH || y >= HEIGHT,
    ensures
        tile_at(cells, x as int, y as int) == Tile::Snake,
{
}

} // verus!

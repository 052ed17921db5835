//! The square grid of cells and what can be done to it.
//!
//! A grid of side `n` holds `n` columns of `n` cells. `grid@[x][y]` is the
//! cell in column `x` and row `y`. The outer ring is [`Cell::Edge`] for good;
//! the cells inside it are the forest.

use vstd::prelude::*;
use vstd::arithmetic::div_mod::lemma_fundamental_div_mod_converse;
use crate::cell::{Cell, Color, MAX_FIRE_AGE};
use crate::editor::{flooded, ignited};
use crate::error::ConfigError;
use crate::neighborhood::{offset_in_ring, Neighborhood, Offset};
use crate::params::{ParameterSet, MILLION};
use crate::random::{agree, fresh, grown, RandomSource};
use crate::rules::transition;
use crate::seed::{inner_cells, lemma_rank_steps, rank, seed_cell, seed_draws, seeded};
use crate::sweep::{
    inert,
    lemma_run_carries_on,
    lemma_run_is_deterministic,
    lemma_sweep_row_carries_on,
    lemma_sweep_row_counts_up,
    lemma_sweep_row_reads_what_it_uses,
    lemma_sweep_rows_carries_on,
    lemma_sweep_rows_reads_what_it_uses,
    run_spec,
    sweep_row,
    sweep_rows,
    tick_spec,
    Sweep,
};

verus! {

/// The smallest side: a ring with one cell inside.
pub const MIN_SIDE: usize = 3;

/// The largest side that a grid can be built with. It keeps a grid within
/// what memory holds and every place on it within what one draw can name.
pub const MAX_SIDE: usize = 4096;

/// `n` columns of `n` cells each.
pub open spec fn square(cells: Seq<Seq<Cell>>, n: int) -> bool {
    &&& cells.len() == n
    &&& forall|x: int| 0 <= x < n ==> (#[trigger] cells[x]).len() == n
}

/// The place `(x, y)` lies inside the ring of a grid of side `n`.
pub open spec fn inner(n: int, x: int, y: int) -> bool {
    0 < x < n - 1 && 0 < y < n - 1
}

/// A square of a side the library handles, whose outer ring is edge.
pub open spec fn framed(cells: Seq<Seq<Cell>>) -> bool {
    &&& MIN_SIDE <= cells.len() <= MAX_SIDE
    &&& square(cells, cells.len() as int)
    &&& forall|x: int, y: int|
        0 <= x < cells.len() && 0 <= y < cells.len() && !inner(cells.len() as int, x, y)
            ==> #[trigger] cells[x][y] == Cell::Edge
}

/// The cells with the one at `(x, y)` replaced by `cell`.
pub open spec fn put(cells: Seq<Seq<Cell>>, x: int, y: int, cell: Cell) -> Seq<Seq<Cell>> {
    cells.update(x, cells[x].update(y, cell))
}

/// The cell at `(x, y)`, and edge for every place that is not on the grid.
pub open spec fn cell_at(cells: Seq<Seq<Cell>>, x: int, y: int) -> Cell {
    if 0 <= x < cells.len() && 0 <= y < cells[x].len() {
        cells[x][y]
    } else {
        Cell::Edge
    }
}

/// A grid on which nothing grows yet: edge around empty ground.
pub open spec fn bare(n: int) -> Seq<Seq<Cell>> {
    Seq::new(
        n as nat,
        |x: int|
            Seq::new(
                n as nat,
                |y: int|
                    if inner(n, x, y) {
                        Cell::Empty
                    } else {
                        Cell::Edge
                    },
            ),
    )
}

/// The cells around `(x, y)` that the table `nb` names, in its order.
pub open spec fn around(cells: Seq<Seq<Cell>>, x: int, y: int, nb: Seq<Offset>) -> Seq<Cell> {
    Seq::new(nb.len(), |k: int| cells[x + nb[k].0][y + nb[k].1])
}

/// One square to draw: the place of a cell on the grid and its colour.
#[derive(Clone, Copy, Debug, PartialEq, Eq, Structural)]
pub struct Tile {
    /// The column of the cell.
    pub x: usize,
    /// The row of the cell.
    pub y: usize,
    /// The colour of the cell.
    pub color: Color,
}

/// The `k`-th tile of a grid drawn row by row.
pub open spec fn tile_at(cells: Seq<Seq<Cell>>, k: int) -> Tile {
    let n = cells.len() as int;
    Tile { x: (k % n) as usize, y: (k / n) as usize, color: cells[k % n][k / n].color_spec() }
}

/// The tiles of a grid, ring included: the rows from the top down, and each
/// row from the left to the right.
pub open spec fn tiles_of(cells: Seq<Seq<Cell>>) -> Seq<Tile> {
    Seq::new(cells.len() * cells.len(), |k: int| tile_at(cells, k))
}

/// The columns of a grid as sequences.
spec fn rows(cells: Seq<Vec<Cell>>) -> Seq<Seq<Cell>> {
    Seq::new(cells.len(), |x: int| cells[x]@)
}

/// Replaces one cell in columns of cells.
fn write(cells: &mut Vec<Vec<Cell>>, x: usize, y: usize, cell: Cell)
    requires
        x < rows(old(cells)@).len(),
        y < rows(old(cells)@)[x as int].len(),
    ensures
        rows(final(cells)@) == put(rows(old(cells)@), x as int, y as int, cell),
    no_unwind
{
    cells[x][y] = cell;
    assert(rows(cells@) =~= put(rows(old(cells)@), x as int, y as int, cell));
}

/// Replacing a cell inside the ring leaves the frame as it is.
pub proof fn lemma_put_keeps_frame(cells: Seq<Seq<Cell>>, x: int, y: int, cell: Cell)
    requires
        framed(cells),
        inner(cells.len() as int, x, y),
    ensures
        framed(put(cells, x, y, cell)),
        put(cells, x, y, cell).len() == cells.len(),
{
    let after = put(cells, x, y, cell);
    assert forall|i: int| 0 <= i < after.len() implies (#[trigger] after[i]).len() == after.len() by {
        if i == x {
        } else {
            assert(after[i] == cells[i]);
        }
    }
    assert forall|i: int, j: int|
        0 <= i < after.len() && 0 <= j < after.len() && !inner(
            after.len() as int,
            i,
            j,
        ) implies #[trigger] after[i][j] == Cell::Edge by {
        assert(after[i][j] == cells[i][j]);
    }
}

/// The grid of the simulation.
#[derive(Debug)]
pub struct Grid {
    cells: Vec<Vec<Cell>>,
}

impl View for Grid {
    type V = Seq<Seq<Cell>>;

    closed spec fn view(&self) -> Seq<Seq<Cell>> {
        rows(self.cells@)
    }
}

impl Clone for Grid {
    /// A grid of its own with the same cells.
    fn clone(&self) -> (copy: Grid)
        ensures
            copy@ == self@,
    {
        proof {
            use_type_invariant(self);
        }
        let n = self.cells.len();
        let mut cells: Vec<Vec<Cell>> = Vec::new();
        let mut x: usize = 0;
        while x < n
            invariant
                n == self@.len(),
                framed(self@),
                x <= n,
                cells.len() == x,
                forall|i: int| 0 <= i < x ==> (#[trigger] cells[i])@ == self@[i],
            decreases n - x,
        {
            let mut column: Vec<Cell> = Vec::new();
            let mut y: usize = 0;
            while y < n
                invariant
                    n == self@.len(),
                    framed(self@),
                    x < n,
                    y <= n,
                    column.len() == y,
                    forall|j: int| 0 <= j < y ==> #[trigger] column[j] == self@[x as int][j],
                decreases n - y,
            {
                column.push(self.get(x, y));
                y += 1;
            }
            assert(column@ =~= self@[x as int]);
            cells.push(column);
            x += 1;
        }
        assert(rows(cells@) =~= self@);
        Grid { cells }
    }
}

impl Grid {
    /// Every grid is a framed square.
    #[verifier::type_invariant]
    pub open spec fn well_formed(&self) -> bool {
        framed(self@)
    }

    /// A bare grid of the given side, or the reason why that side will not
    /// do: it must be at least [`MIN_SIDE`] and at most [`MAX_SIDE`].
    pub fn new(side: usize) -> (made: Result<Grid, ConfigError>)
        ensures
            match made {
                Ok(grid) => MIN_SIDE <= side <= MAX_SIDE && grid@ == bare(side as int),
                Err(e) => if side < MIN_SIDE {
                    e == ConfigError::GridTooSmall
                } else {
                    e == ConfigError::GridTooLarge && side > MAX_SIDE
                },
            },
    {
        if side < MIN_SIDE {
            return Err(ConfigError::GridTooSmall);
        }
        if side > MAX_SIDE {
            return Err(ConfigError::GridTooLarge);
        }
        let mut cells: Vec<Vec<Cell>> = Vec::new();
        let mut x: usize = 0;
        while x < side
            invariant
                x <= side,
                cells.len() == x,
                forall|i: int| 0 <= i < x ==> (#[trigger] cells[i])@ == bare(side as int)[i],
            decreases side - x,
        {
            let mut column: Vec<Cell> = Vec::new();
            let mut y: usize = 0;
            while y < side
                invariant
                    x < side,
                    y <= side,
                    column.len() == y,
                    forall|j: int| 0 <= j < y ==> #[trigger] column[j] == bare(side as int)[x as int][j],
                decreases side - y,
            {
                let is_inner = 0 < x && x < side - 1 && 0 < y && y < side - 1;
                column.push(if is_inner { Cell::Empty } else { Cell::Edge });
                y += 1;
            }
            assert(column@ =~= bare(side as int)[x as int]);
            cells.push(column);
            x += 1;
        }
        let grid = Grid { cells };
        assert(grid@ =~= bare(side as int));
        Ok(grid)
    }

    /// How many cells the grid has on a side.
    pub fn side(&self) -> (n: usize)
        ensures
            n == self@.len(),
            MIN_SIDE <= n <= MAX_SIDE,
    {
        proof {
            use_type_invariant(self);
        }
        self.cells.len()
    }

    /// The cell at `(x, y)`. Every place on the ring and every place off the
    /// grid reads as edge.
    pub fn get(&self, x: usize, y: usize) -> (cell: Cell)
        ensures
            cell == cell_at(self@, x as int, y as int),
            !inner(self@.len() as int, x as int, y as int) ==> cell == Cell::Edge,
    {
        proof {
            use_type_invariant(self);
        }
        let n = self.cells.len();
        if x < n && y < n {
            self.cells[x][y]
        } else {
            Cell::Edge
        }
    }

    /// Whether `(x, y)` lies inside the ring, where cells can change.
    pub fn is_inner(&self, x: usize, y: usize) -> (b: bool)
        ensures
            b == inner(self@.len() as int, x as int, y as int),
    {
        proof {
            use_type_invariant(self);
        }
        let n = self.cells.len();
        0 < x && x < n - 1 && 0 < y && y < n - 1
    }

    /// Replaces the cell at `(x, y)`, which must lie inside the ring.
    pub fn set(&mut self, x: usize, y: usize, cell: Cell)
        requires
            inner(old(self)@.len() as int, x as int, y as int),
        ensures
            final(self)@ == put(old(self)@, x as int, y as int, cell),
    {
        proof {
            use_type_invariant(&*self);
        }
        proof {
            lemma_put_keeps_frame(self@, x as int, y as int, cell);
        }
        write(&mut self.cells, x, y, cell);
    }

    /// Sets the cell at `(x, y)` on fire at full age, whatever it held.
    /// A place on the ring or off the grid is left alone.
    pub fn ignite(&mut self, x: usize, y: usize)
        ensures
            final(self)@ == ignited(old(self)@, x as int, y as int),
    {
        if self.is_inner(x, y) {
            self.set(x, y, Cell::Fire(MAX_FIRE_AGE));
        }
    }

    /// Floods the cell at `(x, y)`, whatever it held. A place on the ring or
    /// off the grid is left alone.
    pub fn place_obstacle(&mut self, x: usize, y: usize)
        ensures
            final(self)@ == flooded(old(self)@, x as int, y as int),
    {
        if self.is_inner(x, y) {
            self.set(x, y, Cell::Water);
        }
    }

    /// Plants the forest anew: every cell inside the ring is drawn as empty
    /// ground or tree, whatever it held, and then one cell inside the ring,
    /// drawn as well, is set on fire at full age. The ring stays edge. A
    /// forest is never planted without a fire, the first time or later.
    ///
    /// The grid afterwards is [`seeded`] of the numbers that `rng` handed out
    /// during the call, one for each inner cell and two for the fire.
    pub fn reset<R: RandomSource>(&mut self, rng: &mut R)
        ensures
            grown(old(rng), final(rng)),
            seed_draws(old(self)@.len() as int, fresh(old(rng), final(rng))),
            final(self)@ == seeded(old(self)@.len() as int, fresh(old(rng), final(rng))),
            final(self)@.len() == old(self)@.len(),
    {
        proof {
            use_type_invariant(&*self);
        }
        let n = self.side();
        let ghost base = rng.drawn();
        assert(rng.drawn().skip(base.len() as int) =~= Seq::<u32>::empty());
        proof {
            lemma_rank_steps(n as int, 1);
        }
        let mut x: usize = 1;
        while x < n - 1
            invariant
                MIN_SIDE <= n <= MAX_SIDE,
                self@.len() == n,
                1 <= x <= n - 1,
                base.is_prefix_of(rng.drawn()),
                rng.drawn().len() - base.len() == rank(n as int, x as int, 1),
                forall|i: int|
                    base.len() <= i < rng.drawn().len() ==> #[trigger] rng.drawn()[i] < MILLION,
                forall|i: int, j: int|
                    inner(n as int, i, j) && i < x ==> 0 <= rank(n as int, i, j) < rng.drawn().len()
                        - base.len() && #[trigger] self@[i][j] == seed_cell(
                        rng.drawn()[base.len() + rank(n as int, i, j)],
                    ),
            decreases n - x,
        {
            let mut y: usize = 1;
            while y < n - 1
                invariant
                    MIN_SIDE <= n <= MAX_SIDE,
                    self@.len() == n,
                    1 <= x < n - 1,
                    1 <= y <= n - 1,
                    base.is_prefix_of(rng.drawn()),
                    rng.drawn().len() - base.len() == rank(n as int, x as int, y as int),
                    forall|i: int|
                        base.len() <= i < rng.drawn().len() ==> #[trigger] rng.drawn()[i]
                            < MILLION,
                    forall|i: int, j: int|
                        inner(n as int, i, j) && (i < x || (i == x && j < y)) ==> 0 <= rank(
                            n as int,
                            i,
                            j,
                        ) < rng.drawn().len() - base.len() && #[trigger] self@[i][j] == seed_cell(
                            rng.drawn()[base.len() + rank(n as int, i, j)],
                        ),
                decreases n - y,
            {
                let ghost before = self@;
                let ghost log = rng.drawn();
                let cell = Cell::random(rng);
                proof {
                    use_type_invariant(&*self);
                    lemma_put_keeps_frame(self@, x as int, y as int, cell);
                }
                write(&mut self.cells, x, y, cell);
                proof {
                    assert forall|i: int, j: int|
                        inner(n as int, i, j) && (i < x || (i == x && j < y + 1)) implies 0
                        <= rank(n as int, i, j) < rng.drawn().len() - base.len()
                        && #[trigger] self@[i][j] == seed_cell(
                        rng.drawn()[base.len() + rank(n as int, i, j)],
                    ) by {
                        if i == x && j == y {
                        } else {
                            assert(self@[i][j] == before[i][j]);
                            assert(rng.drawn()[base.len() + rank(n as int, i, j)] == log[base.len()
                                + rank(n as int, i, j)]);
                        }
                    }
                }
                y += 1;
            }
            proof {
                lemma_rank_steps(n as int, x as int);
            }
            x += 1;
        }
        proof {
            lemma_rank_steps(n as int, 1);
        }
        let ghost planted = self@;
        let ghost log = rng.drawn();
        let column = rng.uniform_int(1, (n - 1) as u32) as usize;
        let row = rng.uniform_int(1, (n - 1) as u32) as usize;
        proof {
            use_type_invariant(&*self);
            lemma_put_keeps_frame(self@, column as int, row as int, Cell::Fire(MAX_FIRE_AGE));
        }
        write(&mut self.cells, column, row, Cell::Fire(MAX_FIRE_AGE));
        proof {
            use_type_invariant(&*self);
            let draws = rng.drawn().skip(base.len() as int);
            assert(rng.drawn() =~= log.push(column as u32).push(row as u32));
            assert(draws.len() == inner_cells(n as int) + 2);
            assert(draws[inner_cells(n as int)] == column);
            assert(draws[inner_cells(n as int) + 1] == row);
            assert forall|i: int| 0 <= i < n implies #[trigger] self@[i] =~= seeded(
                n as int,
                draws,
            )[i] by {
                assert forall|j: int| 0 <= j < n implies self@[i][j] == seeded(
                    n as int,
                    draws,
                )[i][j] by {
                    if !inner(n as int, i, j) {
                    } else if i == column && j == row {
                    } else {
                        assert(self@[i][j] == planted[i][j]);
                        assert(draws[rank(n as int, i, j)] == log[base.len() + rank(
                            n as int,
                            i,
                            j,
                        )]);
                    }
                }
            }
            assert(self@ =~= seeded(n as int, draws));
        }
    }

    /// Moves the grid on by one tick.
    ///
    /// Every cell inside the ring is visited once, row by row and within a
    /// row column by column, and replaced on the spot by what
    /// [`transition`] makes of it and of the cells around it as they stand
    /// at that moment. The grid afterwards is [`tick_spec`] of the grid
    /// before and of the numbers that `rng` handed out during the call, and
    /// the call draws exactly as many numbers as that tick uses. Edge and
    /// water are where they were.
    pub fn tick<R: RandomSource>(&mut self, nb: &Neighborhood, params: &ParameterSet, rng: &mut R)
        ensures
            grown(old(rng), final(rng)),
            final(self)@ == tick_spec(
                old(self)@,
                nb@,
                params@,
                fresh(old(rng), final(rng)),
            ).cells,
            fresh(old(rng), final(rng)).len() == tick_spec(
                old(self)@,
                nb@,
                params@,
                fresh(old(rng), final(rng)),
            ).used,
            final(self)@.len() == old(self)@.len(),
            forall|x: int, y: int|
                0 <= x < old(self)@.len() && 0 <= y < old(self)@.len() && inert(
                    #[trigger] old(self)@[x][y],
                ) ==> final(self)@[x][y] == old(self)@[x][y],
    {
        proof {
            use_type_invariant(&*self);
        }
        let n = self.side();
        let ghost start = Sweep { cells: self@, used: 0 };
        let ghost base = rng.drawn();
        assert(rng.drawn().skip(base.len() as int) =~= Seq::<u32>::empty());
        let mut y: usize = 1;
        while y < n - 1
            invariant
                n == start.cells.len(),
                framed(start.cells),
                1 <= y <= n - 1,
                base.is_prefix_of(rng.drawn()),
                sweep_rows(
                    start,
                    y as int,
                    nb@,
                    params@,
                    rng.drawn().skip(base.len() as int),
                ) == (Sweep { cells: self@, used: (rng.drawn().len() - base.len()) as nat }),
            decreases n - y,
        {
            let mut x: usize = 1;
            while x < n - 1
                invariant
                    n == start.cells.len(),
                    framed(start.cells),
                    1 <= y < n - 1,
                    1 <= x <= n - 1,
                    base.is_prefix_of(rng.drawn()),
                    sweep_row(
                        sweep_rows(
                            start,
                            y as int,
                            nb@,
                            params@,
                            rng.drawn().skip(base.len() as int),
                        ),
                        y as int,
                        x as int,
                        nb@,
                        params@,
                        rng.drawn().skip(base.len() as int),
                    ) == (Sweep { cells: self@, used: (rng.drawn().len() - base.len()) as nat }),
                decreases n - x,
            {
                let ghost log = rng.drawn().skip(base.len() as int);
                let ghost done = sweep_rows(start, y as int, nb@, params@, log);
                proof {
                    lemma_sweep_rows_carries_on(start, y as int, nb@, params@, log);
                    lemma_sweep_row_carries_on(done, y as int, x as int, nb@, params@, log);
                    lemma_sweep_row_counts_up(done, y as int, x as int, nb@, params@, log);
                }
                let cell = self.get(x, y);
                let nearby = self.sample(x, y, nb);
                let ghost mid = rng.drawn();
                let next = transition(cell, &nearby, params, rng);
                proof {
                    let drawn = rng.drawn().skip(mid.len() as int);
                    let longer = rng.drawn().skip(base.len() as int);
                    assert(longer =~= log + drawn);
                    assert(log.is_prefix_of(longer));
                    assert(longer.skip(log.len() as int) =~= drawn);
                    lemma_sweep_rows_reads_what_it_uses(start, y as int, nb@, params@, log, longer);
                    lemma_sweep_row_reads_what_it_uses(done, y as int, x as int, nb@, params@, log, longer);
                    lemma_put_keeps_frame(self@, x as int, y as int, next);
                }
                write(&mut self.cells, x, y, next);
                x += 1;
            }
            y += 1;
        }
        proof {
            lemma_sweep_rows_carries_on(
                start,
                n - 1,
                nb@,
                params@,
                rng.drawn().skip(base.len() as int),
            );
        }
    }

    /// Moves the grid on by `ticks` ticks, one after the other. The grid
    /// afterwards is [`run_spec`] of the grid before and of the numbers that
    /// `rng` handed out during the call. Edge and water are where they were.
    pub fn run<R: RandomSource>(
        &mut self,
        nb: &Neighborhood,
        params: &ParameterSet,
        rng: &mut R,
        ticks: usize,
    )
        ensures
            grown(old(rng), final(rng)),
            final(self)@ == run_spec(
                old(self)@,
                nb@,
                params@,
                fresh(old(rng), final(rng)),
                ticks as nat,
            ).cells,
            fresh(old(rng), final(rng)).len() == run_spec(
                old(self)@,
                nb@,
                params@,
                fresh(old(rng), final(rng)),
                ticks as nat,
            ).used,
            final(self)@.len() == old(self)@.len(),
            forall|x: int, y: int|
                0 <= x < old(self)@.len() && 0 <= y < old(self)@.len() && inert(
                    #[trigger] old(self)@[x][y],
                ) ==> final(self)@[x][y] == old(self)@[x][y],
    {
        proof {
            use_type_invariant(&*self);
        }
        let ghost start = self@;
        let ghost base = rng.drawn();
        assert(rng.drawn().skip(base.len() as int) =~= Seq::<u32>::empty());
        let mut t: usize = 0;
        while t < ticks
            invariant
                t <= ticks,
                framed(start),
                base.is_prefix_of(rng.drawn()),
                run_spec(
                    start,
                    nb@,
                    params@,
                    rng.drawn().skip(base.len() as int),
                    t as nat,
                ) == (Sweep { cells: self@, used: (rng.drawn().len() - base.len()) as nat }),
            decreases ticks - t,
        {
            let ghost log = rng.drawn().skip(base.len() as int);
            let ghost mid = rng.drawn();
            self.tick(nb, params, rng);
            proof {
                let drawn = rng.drawn().skip(mid.len() as int);
                let longer = rng.drawn().skip(base.len() as int);
                assert(longer =~= log + drawn);
                assert(longer.skip(log.len() as int) =~= drawn);
                assert(agree(log, longer, log.len()));
                lemma_run_is_deterministic(start, nb@, params@, log, longer, t as nat);
                assert(run_spec(start, nb@, params@, longer, t as nat) == run_spec(
                    start,
                    nb@,
                    params@,
                    log,
                    t as nat,
                ));
            }
            t += 1;
        }
        proof {
            lemma_run_carries_on(
                start,
                nb@,
                params@,
                rng.drawn().skip(base.len() as int),
                ticks as nat,
            );
        }
    }

    /// What is to be drawn: one tile for every cell, ring included, row by
    /// row, each with the colour of its cell as [`Cell::color`] gives it.
    pub fn draw(&self) -> (tiles: Vec<Tile>)
        ensures
            tiles@ == tiles_of(self@),
    {
        proof {
            use_type_invariant(self);
        }
        let n = self.side();
        let mut tiles: Vec<Tile> = Vec::new();
        let mut y: usize = 0;
        while y < n
            invariant
                n == self@.len(),
                framed(self@),
                y <= n,
                tiles.len() == y * n,
                forall|k: int| 0 <= k < tiles.len() ==> #[trigger] tiles[k] == tile_at(self@, k),
            decreases n - y,
        {
            let mut x: usize = 0;
            while x < n
                invariant
                    n == self@.len(),
                    framed(self@),
                    y < n,
                    x <= n,
                    tiles.len() == y * n + x,
                    forall|k: int|
                        0 <= k < tiles.len() ==> #[trigger] tiles[k] == tile_at(self@, k),
                decreases n - x,
            {
                proof {
                    lemma_fundamental_div_mod_converse(y * n + x, n as int, y as int, x as int);
                }
                tiles.push(Tile { x, y, color: self.get(x, y).color() });
                x += 1;
            }
            assert(y * n + n == (y + 1) * n) by (nonlinear_arith);
            y += 1;
        }
        assert(tiles@ =~= tiles_of(self@));
        tiles
    }

    /// The cell one offset away from the inner place `(x, y)`.
    fn neighbour(&self, x: usize, y: usize, off: Offset) -> (cell: Cell)
        requires
            inner(self@.len() as int, x as int, y as int),
            offset_in_ring(off),
        ensures
            cell == self@[x + off.0][y + off.1],
    {
        proof {
            use_type_invariant(self);
        }
        let nx = if off.0 < 0 {
            x - 1
        } else if off.0 > 0 {
            x + 1
        } else {
            x
        };
        let ny = if off.1 < 0 {
            y - 1
        } else if off.1 > 0 {
            y + 1
        } else {
            y
        };
        self.cells[nx][ny]
    }

    /// The cells around the inner place `(x, y)` that the table names, in
    /// the order of the table.
    pub fn sample(&self, x: usize, y: usize, nb: &Neighborhood) -> (cells: [Cell; 8])
        requires
            inner(self@.len() as int, x as int, y as int),
        ensures
            cells@ == around(self@, x as int, y as int, nb@),
    {
        let cells: [Cell; 8] = [
            self.neighbour(x, y, nb.offset(0)),
            self.neighbour(x, y, nb.offset(1)),
            self.neighbour(x, y, nb.offset(2)),
            self.neighbour(x, y, nb.offset(3)),
            self.neighbour(x, y, nb.offset(4)),
            self.neighbour(x, y, nb.offset(5)),
            self.neighbour(x, y, nb.offset(6)),
            self.neighbour(x, y, nb.offset(7)),
        ];
        proof {
            use_type_invariant(nb);
            assert(cells@ =~= around(self@, x as int, y as int, nb@));
        }
        cells
    }
}

} // verus!

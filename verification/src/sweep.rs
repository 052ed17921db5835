//! One tick of the whole grid, as mathematics.
//!
//! A tick visits every cell inside the ring once, row by row and within a
//! row column by column, and replaces each cell on the spot. A cell visited
//! later therefore sees around it the cells that this same tick has already
//! replaced: fire can run ahead of the sweep, down a row and on into the rows
//! below, within a single tick. That is how the simulation is meant to
//! behave; there is no second buffer.

use vstd::prelude::*;
use crate::cell::Cell;
use crate::grid::{around, framed, inner, put};
use crate::neighborhood::{offset_in_ring, valid_offsets, Offset};
use crate::params::Parameters;
use crate::random::agree;
use crate::rules::{lemma_transition_reads_what_it_uses, lemma_tree_needs_fire, transition_spec};

verus! {

/// A sweep under way: the cells as they stand, and how many draws the sweep
/// has used so far.
pub struct Sweep {
    pub cells: Seq<Seq<Cell>>,
    pub used: nat,
}

/// Visits the cell at `(x, y)`: it moves on as [`transition_spec`] says, on
/// the draws that come after those already used.
pub open spec fn visit(
    st: Sweep,
    x: int,
    y: int,
    nb: Seq<Offset>,
    p: Parameters,
    draws: Seq<u32>,
) -> Sweep {
    let step = transition_spec(
        st.cells[x][y],
        around(st.cells, x, y, nb),
        p,
        draws.skip(st.used as int),
    );
    Sweep { cells: put(st.cells, x, y, step.cell), used: st.used + step.used }
}

/// Visits the cells of row `y` in the columns from 1 up to, but not
/// including, `upto`, in that order.
pub open spec fn sweep_row(
    st: Sweep,
    y: int,
    upto: int,
    nb: Seq<Offset>,
    p: Parameters,
    draws: Seq<u32>,
) -> Sweep
    decreases upto,
{
    if upto <= 1 {
        st
    } else {
        visit(sweep_row(st, y, upto - 1, nb, p, draws), upto - 1, y, nb, p, draws)
    }
}

/// Sweeps the rows from 1 up to, but not including, `upto`, in that order,
/// each from its first inner column to its last.
pub open spec fn sweep_rows(
    st: Sweep,
    upto: int,
    nb: Seq<Offset>,
    p: Parameters,
    draws: Seq<u32>,
) -> Sweep
    decreases upto,
{
    if upto <= 1 {
        st
    } else {
        sweep_row(
            sweep_rows(st, upto - 1, nb, p, draws),
            upto - 1,
            st.cells.len() - 1,
            nb,
            p,
            draws,
        )
    }
}

/// One tick of the grid `cells` on the draws `draws`: a sweep over every row
/// inside the ring.
pub open spec fn tick_spec(
    cells: Seq<Seq<Cell>>,
    nb: Seq<Offset>,
    p: Parameters,
    draws: Seq<u32>,
) -> Sweep {
    sweep_rows(Sweep { cells, used: 0 }, cells.len() - 1, nb, p, draws)
}

/// So many ticks, one after the other, each on the draws that the ticks
/// before it have left.
pub open spec fn run_spec(
    cells: Seq<Seq<Cell>>,
    nb: Seq<Offset>,
    p: Parameters,
    draws: Seq<u32>,
    ticks: nat,
) -> Sweep
    decreases ticks,
{
    if ticks == 0 {
        Sweep { cells, used: 0 }
    } else {
        let before = run_spec(cells, nb, p, draws, (ticks - 1) as nat);
        let tick = tick_spec(before.cells, nb, p, draws.skip(before.used as int));
        Sweep { cells: tick.cells, used: before.used + tick.used }
    }
}

/// A cell that no tick changes: edge and water.
pub open spec fn inert(cell: Cell) -> bool {
    cell is Edge || cell is Water
}

/// What a sweep keeps: the grid stays a framed square of its side, no draw
/// is given back, and edge and water stay where they are.
pub open spec fn carries_on(before: Sweep, after: Sweep) -> bool {
    &&& framed(after.cells)
    &&& after.cells.len() == before.cells.len()
    &&& before.used <= after.used
    &&& forall|x: int, y: int|
        0 <= x < before.cells.len() && 0 <= y < before.cells.len() && inert(
            #[trigger] before.cells[x][y],
        ) ==> after.cells[x][y] == before.cells[x][y]
}

/// Visiting a cell inside the ring carries the sweep on.
pub proof fn lemma_visit_carries_on(
    st: Sweep,
    x: int,
    y: int,
    nb: Seq<Offset>,
    p: Parameters,
    draws: Seq<u32>,
)
    requires
        framed(st.cells),
        inner(st.cells.len() as int, x, y),
    ensures
        carries_on(st, visit(st, x, y, nb, p, draws)),
{
    let after = visit(st, x, y, nb, p, draws);
    let step = transition_spec(
        st.cells[x][y],
        around(st.cells, x, y, nb),
        p,
        draws.skip(st.used as int),
    );
    crate::grid::lemma_put_keeps_frame(st.cells, x, y, step.cell);
    assert forall|i: int, j: int|
        0 <= i < st.cells.len() && 0 <= j < st.cells.len() && inert(
            #[trigger] st.cells[i][j],
        ) implies after.cells[i][j] == st.cells[i][j] by {
        if i == x && j == y {
        } else if i == x {
        } else {
            assert(after.cells[i] == st.cells[i]);
        }
    }
}

/// Sweeping part of an inner row carries the sweep on.
pub proof fn lemma_sweep_row_carries_on(
    st: Sweep,
    y: int,
    upto: int,
    nb: Seq<Offset>,
    p: Parameters,
    draws: Seq<u32>,
)
    requires
        framed(st.cells),
        0 < y < st.cells.len() - 1,
        upto <= st.cells.len() - 1,
    ensures
        carries_on(st, sweep_row(st, y, upto, nb, p, draws)),
    decreases upto,
{
    if upto > 1 {
        let mid = sweep_row(st, y, upto - 1, nb, p, draws);
        lemma_sweep_row_carries_on(st, y, upto - 1, nb, p, draws);
        lemma_visit_carries_on(mid, upto - 1, y, nb, p, draws);
        let after = visit(mid, upto - 1, y, nb, p, draws);
        assert forall|i: int, j: int|
            0 <= i < st.cells.len() && 0 <= j < st.cells.len() && inert(
                #[trigger] st.cells[i][j],
            ) implies after.cells[i][j] == st.cells[i][j] by {
            assert(mid.cells[i][j] == st.cells[i][j]);
            assert(inert(mid.cells[i][j]));
        }
    }
}

/// Sweeping some of the inner rows carries the sweep on.
pub proof fn lemma_sweep_rows_carries_on(
    st: Sweep,
    upto: int,
    nb: Seq<Offset>,
    p: Parameters,
    draws: Seq<u32>,
)
    requires
        framed(st.cells),
        upto <= st.cells.len() - 1,
    ensures
        carries_on(st, sweep_rows(st, upto, nb, p, draws)),
    decreases upto,
{
    if upto > 1 {
        let mid = sweep_rows(st, upto - 1, nb, p, draws);
        lemma_sweep_rows_carries_on(st, upto - 1, nb, p, draws);
        lemma_sweep_row_carries_on(mid, upto - 1, st.cells.len() - 1, nb, p, draws);
        let after = sweep_row(mid, upto - 1, st.cells.len() - 1, nb, p, draws);
        assert forall|i: int, j: int|
            0 <= i < st.cells.len() && 0 <= j < st.cells.len() && inert(
                #[trigger] st.cells[i][j],
            ) implies after.cells[i][j] == st.cells[i][j] by {
            assert(mid.cells[i][j] == st.cells[i][j]);
            assert(inert(mid.cells[i][j]));
        }
    }
}

/// A visit looks only at the draws it uses.
pub proof fn lemma_visit_reads_what_it_uses(
    st: Sweep,
    x: int,
    y: int,
    nb: Seq<Offset>,
    p: Parameters,
    d1: Seq<u32>,
    d2: Seq<u32>,
)
    requires
        agree(d1, d2, visit(st, x, y, nb, p, d1).used),
    ensures
        visit(st, x, y, nb, p, d2) == visit(st, x, y, nb, p, d1),
{
    let u = st.used as int;
    let step = transition_spec(st.cells[x][y], around(st.cells, x, y, nb), p, d1.skip(u));
    assert(agree(d1.skip(u), d2.skip(u), step.used)) by {
        assert forall|i: int| 0 <= i < step.used implies #[trigger] d1.skip(u)[i] == d2.skip(
            u,
        )[i] by {
            assert(d1[u + i] == d2[u + i]);
        }
    }
    lemma_transition_reads_what_it_uses(
        st.cells[x][y],
        around(st.cells, x, y, nb),
        p,
        d1.skip(u),
        d2.skip(u),
    );
}

/// The sweep of a row gives no draw back.
pub proof fn lemma_sweep_row_counts_up(
    st: Sweep,
    y: int,
    upto: int,
    nb: Seq<Offset>,
    p: Parameters,
    draws: Seq<u32>,
)
    ensures
        st.used <= sweep_row(st, y, upto, nb, p, draws).used,
    decreases upto,
{
    if upto > 1 {
        lemma_sweep_row_counts_up(st, y, upto - 1, nb, p, draws);
    }
}

/// The sweep of a row looks only at the draws it uses.
pub proof fn lemma_sweep_row_reads_what_it_uses(
    st: Sweep,
    y: int,
    upto: int,
    nb: Seq<Offset>,
    p: Parameters,
    d1: Seq<u32>,
    d2: Seq<u32>,
)
    requires
        agree(d1, d2, sweep_row(st, y, upto, nb, p, d1).used),
    ensures
        sweep_row(st, y, upto, nb, p, d2) == sweep_row(st, y, upto, nb, p, d1),
    decreases upto,
{
    if upto > 1 {
        lemma_sweep_row_reads_what_it_uses(st, y, upto - 1, nb, p, d1, d2);
        lemma_visit_reads_what_it_uses(
            sweep_row(st, y, upto - 1, nb, p, d1),
            upto - 1,
            y,
            nb,
            p,
            d1,
            d2,
        );
    }
}

/// The sweep of some rows looks only at the draws it uses.
pub proof fn lemma_sweep_rows_reads_what_it_uses(
    st: Sweep,
    upto: int,
    nb: Seq<Offset>,
    p: Parameters,
    d1: Seq<u32>,
    d2: Seq<u32>,
)
    requires
        agree(d1, d2, sweep_rows(st, upto, nb, p, d1).used),
    ensures
        sweep_rows(st, upto, nb, p, d2) == sweep_rows(st, upto, nb, p, d1),
    decreases upto,
{
    if upto > 1 {
        let mid = sweep_rows(st, upto - 1, nb, p, d1);
        lemma_sweep_row_counts_up(mid, upto - 1, st.cells.len() - 1, nb, p, d1);
        lemma_sweep_rows_reads_what_it_uses(st, upto - 1, nb, p, d1, d2);
        lemma_sweep_row_reads_what_it_uses(mid, upto - 1, st.cells.len() - 1, nb, p, d1, d2);
    }
}

/// A tick is decided by the grid it starts from and by the draws it uses:
/// on two lists of draws that agree that far, it leaves the same grid and
/// has used the same number of draws.
pub proof fn lemma_tick_is_deterministic(
    cells: Seq<Seq<Cell>>,
    nb: Seq<Offset>,
    p: Parameters,
    d1: Seq<u32>,
    d2: Seq<u32>,
)
    requires
        agree(d1, d2, tick_spec(cells, nb, p, d1).used),
    ensures
        tick_spec(cells, nb, p, d2) == tick_spec(cells, nb, p, d1),
{
    lemma_sweep_rows_reads_what_it_uses(
        Sweep { cells, used: 0 },
        cells.len() - 1,
        nb,
        p,
        d1,
        d2,
    );
}

/// Two runs that start from the same grid and are given draws that agree as
/// far as the first run uses them pass through the same grids, tick for tick.
pub proof fn lemma_run_is_deterministic(
    cells: Seq<Seq<Cell>>,
    nb: Seq<Offset>,
    p: Parameters,
    d1: Seq<u32>,
    d2: Seq<u32>,
    ticks: nat,
)
    requires
        agree(d1, d2, run_spec(cells, nb, p, d1, ticks).used),
    ensures
        forall|t: nat|
            t <= ticks ==> #[trigger] run_spec(cells, nb, p, d2, t) == run_spec(
                cells,
                nb,
                p,
                d1,
                t,
            ),
    decreases ticks,
{
    if ticks > 0 {
        let before = run_spec(cells, nb, p, d1, (ticks - 1) as nat);
        let u = before.used as int;
        let tick = tick_spec(before.cells, nb, p, d1.skip(u));
        lemma_run_is_deterministic(cells, nb, p, d1, d2, (ticks - 1) as nat);
        assert(run_spec(cells, nb, p, d2, (ticks - 1) as nat) == before);
        assert(agree(d1.skip(u), d2.skip(u), tick.used)) by {
            assert forall|i: int| 0 <= i < tick.used implies #[trigger] d1.skip(u)[i] == d2.skip(
                u,
            )[i] by {
                assert(d1[u + i] == d2[u + i]);
            }
        }
        lemma_tick_is_deterministic(before.cells, nb, p, d1.skip(u), d2.skip(u));
        assert(run_spec(cells, nb, p, d2, ticks) == run_spec(cells, nb, p, d1, ticks));
    }
}

/// A tick of a framed grid leaves a framed grid of the same side, with edge
/// and water where they were.
pub proof fn lemma_tick_carries_on(
    cells: Seq<Seq<Cell>>,
    nb: Seq<Offset>,
    p: Parameters,
    draws: Seq<u32>,
)
    requires
        framed(cells),
    ensures
        carries_on(Sweep { cells, used: 0 }, tick_spec(cells, nb, p, draws)),
{
    lemma_sweep_rows_carries_on(Sweep { cells, used: 0 }, cells.len() - 1, nb, p, draws);
}

/// However many ticks a framed grid goes through, it stays a framed grid of
/// the same side, with edge and water where they were.
pub proof fn lemma_run_carries_on(
    cells: Seq<Seq<Cell>>,
    nb: Seq<Offset>,
    p: Parameters,
    draws: Seq<u32>,
    ticks: nat,
)
    requires
        framed(cells),
    ensures
        carries_on(Sweep { cells, used: 0 }, run_spec(cells, nb, p, draws, ticks)),
    decreases ticks,
{
    if ticks > 0 {
        let before = run_spec(cells, nb, p, draws, (ticks - 1) as nat);
        let after = run_spec(cells, nb, p, draws, ticks);
        lemma_run_carries_on(cells, nb, p, draws, (ticks - 1) as nat);
        lemma_tick_carries_on(before.cells, nb, p, draws.skip(before.used as int));
        assert forall|i: int, j: int|
            0 <= i < cells.len() && 0 <= j < cells.len() && inert(
                #[trigger] cells[i][j],
            ) implies after.cells[i][j] == cells[i][j] by {
            assert(before.cells[i][j] == cells[i][j]);
            assert(inert(before.cells[i][j]));
        }
    }
}

/// An edge cell is an edge cell after any number of ticks, whatever is
/// drawn.
pub proof fn lemma_edge_never_changes(
    cells: Seq<Seq<Cell>>,
    nb: Seq<Offset>,
    p: Parameters,
    draws: Seq<u32>,
    ticks: nat,
    x: int,
    y: int,
)
    requires
        framed(cells),
        0 <= x < cells.len(),
        0 <= y < cells.len(),
        cells[x][y] is Edge,
    ensures
        run_spec(cells, nb, p, draws, ticks).cells[x][y] is Edge,
{
    lemma_run_carries_on(cells, nb, p, draws, ticks);
    assert(inert(cells[x][y]));
}

/// A cell that is water is water after any number of ticks, whatever is
/// around it and whatever is drawn.
pub proof fn lemma_water_stays_water(
    cells: Seq<Seq<Cell>>,
    nb: Seq<Offset>,
    p: Parameters,
    draws: Seq<u32>,
    ticks: nat,
    x: int,
    y: int,
)
    requires
        framed(cells),
        0 <= x < cells.len(),
        0 <= y < cells.len(),
        cells[x][y] is Water,
    ensures
        run_spec(cells, nb, p, draws, ticks).cells[x][y] is Water,
{
    lemma_run_carries_on(cells, nb, p, draws, ticks);
    assert(inert(cells[x][y]));
}

/// A grid is at rest when nothing on it burns or lies burnt.
pub open spec fn at_rest(cells: Seq<Seq<Cell>>) -> bool {
    forall|x: int, y: int|
        0 <= x < cells.len() && 0 <= y < cells.len() ==> !(#[trigger] cells[x][y] is Fire)
            && !(cells[x][y] is Burnt)
}

/// The cells around an inner place of a grid at rest hold no fire.
proof fn lemma_nothing_burns_around(cells: Seq<Seq<Cell>>, x: int, y: int, nb: Seq<Offset>)
    requires
        framed(cells),
        at_rest(cells),
        inner(cells.len() as int, x, y),
        valid_offsets(nb),
    ensures
        forall|k: int| 0 <= k < nb.len() ==> !(#[trigger] around(cells, x, y, nb)[k] is Fire),
{
    assert forall|k: int| 0 <= k < nb.len() implies !(#[trigger] around(cells, x, y, nb)[k] is Fire) by {
        assert(offset_in_ring(nb[k]));
        assert(!(cells[x + nb[k].0][y + nb[k].1] is Fire));
    }
}

proof fn lemma_row_at_rest(
    st: Sweep,
    y: int,
    upto: int,
    nb: Seq<Offset>,
    p: Parameters,
    draws: Seq<u32>,
)
    requires
        framed(st.cells),
        at_rest(st.cells),
        valid_offsets(nb),
        p.tree_spawn_prob == 0,
        0 < y < st.cells.len() - 1,
        upto <= st.cells.len() - 1,
    ensures
        sweep_row(st, y, upto, nb, p, draws).cells == st.cells,
    decreases upto,
{
    if upto > 1 {
        let mid = sweep_row(st, y, upto - 1, nb, p, draws);
        lemma_row_at_rest(st, y, upto - 1, nb, p, draws);
        lemma_nothing_burns_around(st.cells, upto - 1, y, nb);
        lemma_tree_needs_fire(
            around(st.cells, upto - 1, y, nb),
            p,
            draws.skip(mid.used as int),
        );
        let after = visit(mid, upto - 1, y, nb, p, draws);
        assert(!(st.cells[upto - 1][y] is Fire) && !(st.cells[upto - 1][y] is Burnt));
        assert(after.cells =~= st.cells) by {
            assert(after.cells[upto - 1] =~= st.cells[upto - 1]);
        }
    }
}

proof fn lemma_rows_at_rest(
    st: Sweep,
    upto: int,
    nb: Seq<Offset>,
    p: Parameters,
    draws: Seq<u32>,
)
    requires
        framed(st.cells),
        at_rest(st.cells),
        valid_offsets(nb),
        p.tree_spawn_prob == 0,
        upto <= st.cells.len() - 1,
    ensures
        sweep_rows(st, upto, nb, p, draws).cells == st.cells,
    decreases upto,
{
    if upto > 1 {
        let mid = sweep_rows(st, upto - 1, nb, p, draws);
        lemma_rows_at_rest(st, upto - 1, nb, p, draws);
        lemma_row_at_rest(mid, upto - 1, st.cells.len() - 1, nb, p, draws);
    }
}

/// A grid on which nothing burns or lies burnt is a steady state while no
/// tree can grow: however many ticks it goes through and whatever is drawn,
/// it stays as it is. The chance that fire spreads does not matter.
pub proof fn lemma_steady_state(
    cells: Seq<Seq<Cell>>,
    nb: Seq<Offset>,
    p: Parameters,
    draws: Seq<u32>,
    ticks: nat,
)
    requires
        framed(cells),
        at_rest(cells),
        valid_offsets(nb),
        p.tree_spawn_prob == 0,
    ensures
        run_spec(cells, nb, p, draws, ticks).cells == cells,
    decreases ticks,
{
    if ticks > 0 {
        let before = run_spec(cells, nb, p, draws, (ticks - 1) as nat);
        lemma_steady_state(cells, nb, p, draws, (ticks - 1) as nat);
        lemma_rows_at_rest(
            Sweep { cells, used: 0 },
            cells.len() - 1,
            nb,
            p,
            draws.skip(before.used as int),
        );
    }
}

} // verus!

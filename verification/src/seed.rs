//! How a forest is planted.
//!
//! Every cell inside the ring gets one draw, column by column and within a
//! column row by row, and becomes empty ground or a tree. Two more draws
//! pick the one cell that is set on fire.

use vstd::prelude::*;
use crate::cell::{Cell, MAX_FIRE_AGE};
use crate::grid::inner;
use crate::params::{MILLION, SEED_EMPTY_PROB};
use crate::random::{agree, chance, hits, RandomSource};

verus! {

/// What a cell is planted as: empty ground if the draw hits
/// [`SEED_EMPTY_PROB`], a tree if not.
pub open spec fn seed_cell(draw: u32) -> Cell {
    if hits(draw, SEED_EMPTY_PROB) {
        Cell::Empty
    } else {
        Cell::Tree
    }
}

/// How many cells lie inside the ring of a grid of side `n`.
pub open spec fn inner_cells(n: int) -> int {
    (n - 2) * (n - 2)
}

/// Which draw plants the inner cell `(x, y)` of a grid of side `n`.
pub open spec fn rank(n: int, x: int, y: int) -> int {
    (x - 1) * (n - 2) + (y - 1)
}

/// The forest that the draws `draws` plant on a grid of side `n`: the draw
/// of rank [`rank`] decides each inner cell, and the two draws after those
/// name the column and the row of the cell that burns at full age.
pub open spec fn seeded(n: int, draws: Seq<u32>) -> Seq<Seq<Cell>> {
    Seq::new(
        n as nat,
        |x: int|
            Seq::new(
                n as nat,
                |y: int|
                    if !inner(n, x, y) {
                        Cell::Edge
                    } else if x == draws[inner_cells(n)] && y == draws[inner_cells(n) + 1] {
                        Cell::Fire(MAX_FIRE_AGE)
                    } else {
                        seed_cell(draws[rank(n, x, y)])
                    },
            ),
    )
}

/// The draws that plant a grid of side `n`: one below a million for each
/// inner cell, then two that name an inner column and an inner row.
pub open spec fn seed_draws(n: int, draws: Seq<u32>) -> bool {
    &&& draws.len() == inner_cells(n) + 2
    &&& forall|i: int| 0 <= i < inner_cells(n) ==> #[trigger] draws[i] < MILLION
    &&& 0 < draws[inner_cells(n)] < n - 1
    &&& 0 < draws[inner_cells(n) + 1] < n - 1
}

/// The ranks of the inner cells of a column follow on those of the column
/// before it, and the last rank is one less than the number of inner cells.
pub proof fn lemma_rank_steps(n: int, x: int)
    ensures
        rank(n, x, n - 1) == rank(n, x + 1, 1),
        rank(n, n - 1, 1) == inner_cells(n),
        rank(n, 1, 1) == 0,
{
    assert((x - 1) * (n - 2) + (n - 2) == x * (n - 2)) by (nonlinear_arith);
}

/// There are not fewer than no inner cells.
pub proof fn lemma_inner_cells_counts(n: int)
    ensures
        inner_cells(n) >= 0,
{
    assert((n - 2) * (n - 2) >= 0) by (nonlinear_arith);
}

/// The rank of an inner cell lies below the number of inner cells.
pub proof fn lemma_rank_in_range(n: int, x: int, y: int)
    requires
        inner(n, x, y),
    ensures
        0 <= rank(n, x, y) < inner_cells(n),
{
    assert(0 <= (x - 1) * (n - 2) && (x - 1) * (n - 2) + (n - 2) <= (n - 2) * (n - 2))
        by (nonlinear_arith)
        requires
            1 <= x <= n - 2,
    ;
}

/// Planting looks at the draws it uses and at no others.
pub proof fn lemma_seeded_reads_what_it_uses(n: int, d1: Seq<u32>, d2: Seq<u32>)
    requires
        0 <= n,
        agree(d1, d2, (inner_cells(n) + 2) as nat),
    ensures
        seeded(n, d2) == seeded(n, d1),
{
    lemma_inner_cells_counts(n);
    assert(d1[inner_cells(n)] == d2[inner_cells(n)]);
    assert(d1[inner_cells(n) + 1] == d2[inner_cells(n) + 1]);
    assert forall|x: int| 0 <= x < n implies #[trigger] seeded(n, d2)[x] =~= seeded(n, d1)[x] by {
        assert forall|y: int| 0 <= y < n implies seeded(n, d2)[x][y] == seeded(n, d1)[x][y] by {
            if inner(n, x, y) {
                lemma_rank_in_range(n, x, y);
                assert(d1[rank(n, x, y)] == d2[rank(n, x, y)]);
            }
        }
    }
    assert(seeded(n, d2) =~= seeded(n, d1));
}

/// Planting leaves exactly one cell on fire, the one that the last two
/// draws name.
pub proof fn lemma_seeded_has_one_fire(n: int, draws: Seq<u32>, x: int, y: int)
    requires
        seed_draws(n, draws),
        0 <= x < n,
        0 <= y < n,
    ensures
        seeded(n, draws)[x][y] is Fire <==> x == draws[inner_cells(n)] && y == draws[inner_cells(n)
            + 1],
{
}

impl Cell {
    /// Plants one cell: one draw decides between empty ground and a tree.
    pub fn random<R: RandomSource>(rng: &mut R) -> (cell: Cell)
        ensures
            final(rng).drawn() == old(rng).drawn().push(final(rng).drawn().last()),
            final(rng).drawn().last() < MILLION,
            cell == seed_cell(final(rng).drawn().last()),
    {
        if chance(rng, SEED_EMPTY_PROB) {
            Cell::Empty
        } else {
            Cell::Tree
        }
    }
}

} // verus!

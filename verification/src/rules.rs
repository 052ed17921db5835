//! How one cell moves on in one tick.
//!
//! The next state of a cell depends on the cell, on the cells around it, on
//! the parameters and on the numbers drawn for it. [`transition_spec`] says
//! how, and how many draws it takes; [`transition`] computes it.

use vstd::prelude::*;
use crate::cell::{Cell, MAX_BURNT_AGE, MAX_FIRE_AGE, RETRY_BURNT_AGE};
use crate::neighborhood::NEIGHBOURS;
use crate::params::{ParameterSet, Parameters, MILLION};
use crate::random::{agree, chance, fresh, grown, hits, RandomSource};

verus! {

/// The outcome for one cell: what it becomes and how many draws that took.
pub struct Step {
    pub cell: Cell,
    pub used: nat,
}

/// How far a tree has come with asking its neighbours: whether one of them
/// has set it on fire, and how many draws were spent on asking.
pub struct Scan {
    pub lit: bool,
    pub used: nat,
}

/// A tree asks the first `k` cells around it, in order. A neighbour that is
/// not on fire costs nothing. A burning one costs one draw, and sets the tree
/// on fire if that draw hits the chance `prob`. Once the tree is lit nobody
/// else is asked.
pub open spec fn scan(around: Seq<Cell>, k: int, prob: u32, draws: Seq<u32>) -> Scan
    decreases k,
{
    if k <= 0 {
        Scan { lit: false, used: 0 }
    } else {
        let so_far = scan(around, k - 1, prob, draws);
        if so_far.lit || !(around[k - 1] is Fire) {
            so_far
        } else {
            Scan { lit: hits(draws[so_far.used as int], prob), used: so_far.used + 1 }
        }
    }
}

/// The next state of a cell with the cells `around` it, under the parameters
/// `p`, when the numbers drawn for it are `draws`, oldest first.
///
/// * A tree asks its neighbours, see [`scan`], and is on fire with full age
///   if one of them lit it.
/// * A fire whose age is at least the decay multiplier less one loses the
///   amount drawn, which is below the multiplier. A younger fire goes out and
///   leaves burnt ground of full age.
/// * Empty ground takes one draw and grows a tree if it hits.
/// * Burnt ground at or above the threshold ages by one. Below it, it takes
///   one draw: a hit makes it empty ground, a miss sets its age back to
///   [`RETRY_BURNT_AGE`].
/// * Water and the edge stay what they are.
pub open spec fn transition_spec(cell: Cell, around: Seq<Cell>, p: Parameters, draws: Seq<u32>) -> Step {
    match cell {
        Cell::Tree => {
            let asked = scan(around, around.len() as int, p.fire_spread_prob, draws);
            Step { cell: if asked.lit { Cell::Fire(MAX_FIRE_AGE) } else { Cell::Tree }, used: asked.used }
        },
        Cell::Fire(age) => if age >= p.fire_decay_multiplier - 1 {
            Step { cell: Cell::Fire((age - draws[0]) as u32), used: 1 }
        } else {
            Step { cell: Cell::Burnt(MAX_BURNT_AGE), used: 0 }
        },
        Cell::Empty => Step {
            cell: if hits(draws[0], p.tree_spawn_prob) { Cell::Tree } else { Cell::Empty },
            used: 1,
        },
        Cell::Burnt(age) => if age >= p.burnt_fastforward_threshold {
            Step { cell: Cell::Burnt((age - 1) as u32), used: 0 }
        } else {
            Step {
                cell: if hits(draws[0], p.empty_reclaim_prob) {
                    Cell::Empty
                } else {
                    Cell::Burnt(RETRY_BURNT_AGE)
                },
                used: 1,
            }
        },
        Cell::Water => Step { cell: Cell::Water, used: 0 },
        Cell::Edge => Step { cell: Cell::Edge, used: 0 },
    }
}

/// The draws that a step may be given: as many as it takes, each below a
/// million, but for the loss of a fire, which is below the decay multiplier.
pub open spec fn draws_fit(cell: Cell, p: Parameters, draws: Seq<u32>) -> bool {
    forall|i: int|
        0 <= i < draws.len() ==> #[trigger] draws[i] < (if cell is Fire {
            p.fire_decay_multiplier
        } else {
            MILLION
        })
}

/// A scan looks only at the draws it uses: on two lists of draws that
/// agree that far it comes out the same.
pub proof fn lemma_scan_reads_what_it_uses(
    around: Seq<Cell>,
    k: int,
    prob: u32,
    d1: Seq<u32>,
    d2: Seq<u32>,
)
    requires
        agree(d1, d2, scan(around, k, prob, d1).used),
    ensures
        scan(around, k, prob, d2) == scan(around, k, prob, d1),
    decreases k,
{
    if k > 0 {
        lemma_scan_reads_what_it_uses(around, k - 1, prob, d1, d2);
    }
}

/// A step looks only at the draws it uses: on two lists of draws that agree
/// that far it comes out the same.
pub proof fn lemma_transition_reads_what_it_uses(
    cell: Cell,
    around: Seq<Cell>,
    p: Parameters,
    d1: Seq<u32>,
    d2: Seq<u32>,
)
    requires
        agree(d1, d2, transition_spec(cell, around, p, d1).used),
    ensures
        transition_spec(cell, around, p, d2) == transition_spec(cell, around, p, d1),
{
    if cell is Tree {
        lemma_scan_reads_what_it_uses(around, around.len() as int, p.fire_spread_prob, d1, d2);
    }
}

/// The edge never changes and takes no draw.
pub proof fn lemma_edge_is_fixed(around: Seq<Cell>, p: Parameters, draws: Seq<u32>)
    ensures
        transition_spec(Cell::Edge, around, p, draws) == (Step { cell: Cell::Edge, used: 0 }),
{
}

/// Water stays water, whatever is around it, and takes no draw.
pub proof fn lemma_water_is_absorbing(around: Seq<Cell>, p: Parameters, draws: Seq<u32>)
    ensures
        transition_spec(Cell::Water, around, p, draws) == (Step { cell: Cell::Water, used: 0 }),
{
}

/// A fire never gains age: it goes out and leaves burnt ground of full age,
/// or it keeps burning with the age it had less the loss drawn.
pub proof fn lemma_fire_never_grows(age: u32, around: Seq<Cell>, p: Parameters, draws: Seq<u32>)
    requires
        p.valid(),
        age >= p.fire_decay_multiplier - 1 ==> draws.len() >= 1 && draws[0]
            < p.fire_decay_multiplier,
    ensures
        ({
            let next = transition_spec(Cell::Fire(age), around, p, draws).cell;
            ||| next == Cell::Burnt(MAX_BURNT_AGE)
            ||| next matches Cell::Fire(left) && left <= age && left == age - draws[0]
        }),
{
}

/// A fire loses age or goes out in every tick, but for the ticks in which
/// it is old enough to burn on and the loss drawn for it is zero.
pub proof fn lemma_fire_burns_down(age: u32, around: Seq<Cell>, p: Parameters, draws: Seq<u32>)
    requires
        p.valid(),
        age >= p.fire_decay_multiplier - 1 ==> draws.len() >= 1 && 0 < draws[0]
            < p.fire_decay_multiplier,
    ensures
        ({
            let next = transition_spec(Cell::Fire(age), around, p, draws).cell;
            ||| next == Cell::Burnt(MAX_BURNT_AGE)
            ||| next matches Cell::Fire(left) && left < age
        }),
{
}

/// A tree with no burning cell around it stays a tree, whatever the chance
/// that fire spreads and whatever is drawn, and takes no draw.
pub proof fn lemma_tree_needs_fire(around: Seq<Cell>, p: Parameters, draws: Seq<u32>)
    requires
        forall|k: int| 0 <= k < around.len() ==> !(#[trigger] around[k] is Fire),
    ensures
        transition_spec(Cell::Tree, around, p, draws) == (Step { cell: Cell::Tree, used: 0 }),
{
    lemma_scan_without_fire(around, around.len() as int, p.fire_spread_prob, draws);
}

/// Where fire spreads for certain, a tree with a burning cell around it is
/// on fire at full age after its step, and the step takes exactly one draw.
pub proof fn lemma_sure_fire_spreads(around: Seq<Cell>, p: Parameters, draws: Seq<u32>)
    requires
        p.fire_spread_prob == MILLION,
        exists|k: int| 0 <= k < around.len() && #[trigger] around[k] is Fire,
        draws.len() >= 1,
        draws[0] < MILLION,
    ensures
        transition_spec(Cell::Tree, around, p, draws) == (Step {
            cell: Cell::Fire(MAX_FIRE_AGE),
            used: 1,
        }),
{
    lemma_scan_with_sure_fire(around, around.len() as int, draws);
}

proof fn lemma_scan_with_sure_fire(around: Seq<Cell>, k: int, draws: Seq<u32>)
    requires
        k <= around.len(),
        draws.len() >= 1,
        draws[0] < MILLION,
    ensures
        scan(around, k, MILLION, draws) == if exists|j: int|
            0 <= j < k && #[trigger] around[j] is Fire {
            Scan { lit: true, used: 1 }
        } else {
            Scan { lit: false, used: 0 }
        },
    decreases k,
{
    if k > 0 {
        lemma_scan_with_sure_fire(around, k - 1, draws);
        if exists|j: int| 0 <= j < k - 1 && #[trigger] around[j] is Fire {
            let j = choose|j: int| 0 <= j < k - 1 && #[trigger] around[j] is Fire;
            assert(0 <= j < k && around[j] is Fire);
        } else if around[k - 1] is Fire {
        } else {
            assert forall|j: int| 0 <= j < k implies !(#[trigger] around[j] is Fire) by {
                if j < k - 1 {
                }
            }
        }
    }
}

proof fn lemma_scan_without_fire(around: Seq<Cell>, k: int, prob: u32, draws: Seq<u32>)
    requires
        k <= around.len(),
        forall|j: int| 0 <= j < around.len() ==> !(#[trigger] around[j] is Fire),
    ensures
        scan(around, k, prob, draws) == (Scan { lit: false, used: 0 }),
    decreases k,
{
    if k > 0 {
        lemma_scan_without_fire(around, k - 1, prob, draws);
    }
}

/// Burnt ground below the threshold is never reclaimed while the chance of
/// that is zero: it starts over at [`RETRY_BURNT_AGE`].
pub proof fn lemma_burnt_waits_without_chance(
    age: u32,
    around: Seq<Cell>,
    p: Parameters,
    draws: Seq<u32>,
)
    requires
        p.empty_reclaim_prob == 0,
        age < p.burnt_fastforward_threshold,
    ensures
        transition_spec(Cell::Burnt(age), around, p, draws).cell == Cell::Burnt(RETRY_BURNT_AGE),
{
}

/// Burnt ground stays burnt ground in every tick while the chance that it is
/// reclaimed is zero.
pub proof fn lemma_burnt_stays_without_chance(
    age: u32,
    around: Seq<Cell>,
    p: Parameters,
    draws: Seq<u32>,
)
    requires
        p.empty_reclaim_prob == 0,
    ensures
        transition_spec(Cell::Burnt(age), around, p, draws).cell is Burnt,
{
}

/// Moves one cell on by one tick, drawing from `rng` what the rules ask for.
///
/// `around` holds the cells around `cell` in the order in which a tree asks
/// them. The result is [`transition_spec`] of the numbers that `rng` handed
/// out during the call, and the call draws exactly as many as that step uses.
pub fn transition<R: RandomSource>(
    cell: Cell,
    around: &[Cell; 8],
    params: &ParameterSet,
    rng: &mut R,
) -> (next: Cell)
    ensures
        grown(old(rng), final(rng)),
        next == transition_spec(cell, around@, params@, fresh(old(rng), final(rng))).cell,
        fresh(old(rng), final(rng)).len() == transition_spec(
            cell,
            around@,
            params@,
            fresh(old(rng), final(rng)),
        ).used,
        draws_fit(cell, params@, fresh(old(rng), final(rng))),
{
    let ghost base = rng.drawn();
    assert(rng.drawn().skip(base.len() as int) =~= Seq::<u32>::empty());
    match cell {
        Cell::Tree => {
            let prob = params.fire_spread_prob();
            let mut lit = false;
            let mut k: usize = 0;
            while k < NEIGHBOURS
                invariant
                    k <= NEIGHBOURS,
                    around@.len() == NEIGHBOURS,
                    base.is_prefix_of(rng.drawn()),
                    scan(around@, k as int, prob, rng.drawn().skip(base.len() as int)) == (Scan {
                        lit,
                        used: (rng.drawn().len() - base.len()) as nat,
                    }),
                    forall|i: int|
                        base.len() <= i < rng.drawn().len() ==> #[trigger] rng.drawn()[i] < MILLION,
                decreases NEIGHBOURS - k,
            {
                if !lit && around[k].is_burning() {
                    let ghost before = rng.drawn();
                    lit = chance(rng, prob);
                    proof {
                        let d1 = before.skip(base.len() as int);
                        let d2 = rng.drawn().skip(base.len() as int);
                        assert(d2 =~= d1.push(rng.drawn().last()));
                        lemma_scan_reads_what_it_uses(around@, k as int, prob, d1, d2);
                    }
                }
                k += 1;
            }
            if lit {
                Cell::Fire(MAX_FIRE_AGE)
            } else {
                Cell::Tree
            }
        },
        Cell::Fire(age) => {
            let bound = params.fire_decay_multiplier();
            if age >= bound - 1 {
                let loss = rng.uniform_int(0, bound);
                assert(rng.drawn().skip(base.len() as int) =~= seq![loss]);
                Cell::Fire(age - loss)
            } else {
                Cell::Burnt(MAX_BURNT_AGE)
            }
        },
        Cell::Empty => {
            let grows = chance(rng, params.tree_spawn_prob());
            assert(rng.drawn().skip(base.len() as int) =~= seq![rng.drawn().last()]);
            if grows {
                Cell::Tree
            } else {
                Cell::Empty
            }
        },
        Cell::Burnt(age) => {
            if age >= params.burnt_fastforward_threshold() {
                Cell::Burnt(age - 1)
            } else {
                let reclaimed = chance(rng, params.empty_reclaim_prob());
                assert(rng.drawn().skip(base.len() as int) =~= seq![rng.drawn().last()]);
                if reclaimed {
                    Cell::Empty
                } else {
                    Cell::Burnt(RETRY_BURNT_AGE)
                }
            }
        },
        Cell::Water => Cell::Water,
        Cell::Edge => Cell::Edge,
    }
}

} // verus!

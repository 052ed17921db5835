//! Which cells around a cell can set it on fire.

use vstd::prelude::*;
use crate::error::ConfigError;

verus! {

/// How many neighbours a cell looks at.
pub const NEIGHBOURS: usize = 8;

/// One step from a cell to a neighbour: so many columns and so many rows.
pub type Offset = (i8, i8);

/// An offset stays within the ring of cells around its cell.
pub open spec fn offset_in_ring(off: Offset) -> bool {
    -1 <= off.0 <= 1 && -1 <= off.1 <= 1
}

/// The eight cells around a cell, each once, column by column.
pub open spec fn moore_offsets() -> Seq<Offset> {
    seq![
        (-1i8, -1i8),
        (-1i8, 0i8),
        (-1i8, 1i8),
        (0i8, -1i8),
        (0i8, 1i8),
        (1i8, -1i8),
        (1i8, 0i8),
        (1i8, 1i8),
    ]
}

/// The lopsided table: it names `(-1, -1)` twice and `(-1, 1)` never, so it
/// reaches seven cells, one of them with two chances.
pub open spec fn skewed_offsets() -> Seq<Offset> {
    seq![
        (-1i8, -1i8),
        (-1i8, 0i8),
        (-1i8, -1i8),
        (0i8, -1i8),
        (0i8, 1i8),
        (1i8, -1i8),
        (1i8, 0i8),
        (1i8, 1i8),
    ]
}

/// An ordered table of eight offsets. A tree asks its neighbours in this
/// order whether they set it on fire, and stops at the first that does.
///
/// Two tables are built in. [`Neighborhood::moore`] is the one the simulation
/// is meant to run with. [`Neighborhood::skewed`] spreads fire unevenly and is
/// kept for runs that need exactly that.
#[derive(Clone, Copy, Debug)]
pub struct Neighborhood {
    offsets: [Offset; 8],
}

impl View for Neighborhood {
    type V = Seq<Offset>;

    closed spec fn view(&self) -> Seq<Offset> {
        self.offsets@
    }
}

impl Neighborhood {
    /// A table has eight offsets and each stays in the ring around the cell.
    #[verifier::type_invariant]
    pub open spec fn well_formed(&self) -> bool {
        valid_offsets(self@)
    }

    /// Builds a table from eight offsets, or turns it down if one of them
    /// has a component other than -1, 0 or 1.
    pub fn new(offsets: [Offset; 8]) -> (made: Result<Neighborhood, ConfigError>)
        ensures
            match made {
                Ok(table) => valid_offsets(offsets@) && table@ == offsets@,
                Err(e) => e == ConfigError::Offset && !valid_offsets(offsets@),
            },
    {
        let mut k: usize = 0;
        while k < NEIGHBOURS
            invariant
                k <= NEIGHBOURS,
                forall|j: int| 0 <= j < k ==> offset_in_ring(#[trigger] offsets@[j]),
            decreases NEIGHBOURS - k,
        {
            let off = offsets[k];
            if off.0 < -1 || off.0 > 1 || off.1 < -1 || off.1 > 1 {
                return Err(ConfigError::Offset);
            }
            k += 1;
        }
        Ok(Neighborhood { offsets })
    }

    /// The eight cells around a cell, each once.
    pub fn moore() -> (table: Neighborhood)
        ensures
            table@ == moore_offsets(),
    {
        let offsets: [Offset; 8] = [
            (-1, -1),
            (-1, 0),
            (-1, 1),
            (0, -1),
            (0, 1),
            (1, -1),
            (1, 0),
            (1, 1),
        ];
        assert(offsets@ =~= moore_offsets());
        Neighborhood { offsets }
    }

    /// The lopsided table, see [`skewed_offsets`].
    pub fn skewed() -> (table: Neighborhood)
        ensures
            table@ == skewed_offsets(),
    {
        let offsets: [Offset; 8] = [
            (-1, -1),
            (-1, 0),
            (-1, -1),
            (0, -1),
            (0, 1),
            (1, -1),
            (1, 0),
            (1, 1),
        ];
        assert(offsets@ =~= skewed_offsets());
        Neighborhood { offsets }
    }

    /// The offsets of this table, in the order in which they are asked.
    pub fn offsets(&self) -> (list: [Offset; 8])
        ensures
            list@ == self@,
            valid_offsets(list@),
    {
        proof {
            use_type_invariant(self);
        }
        self.offsets
    }

    /// The `k`-th offset of this table.
    pub fn offset(&self, k: usize) -> (off: Offset)
        requires
            k < NEIGHBOURS,
        ensures
            off == self@[k as int],
            offset_in_ring(off),
    {
        proof {
            use_type_invariant(self);
        }
        self.offsets[k]
    }
}

/// Eight offsets, each within the ring around the cell.
pub open spec fn valid_offsets(offsets: Seq<Offset>) -> bool {
    &&& offsets.len() == NEIGHBOURS
    &&& forall|k: int| 0 <= k < offsets.len() ==> offset_in_ring(#[trigger] offsets[k])
}

/// The full table reaches each of the eight cells around a cell, and no
/// cell twice.
pub proof fn lemma_moore_is_complete()
    ensures
        valid_offsets(moore_offsets()),
        forall|dx: i8, dy: i8|
            offset_in_ring((dx, dy)) && (dx, dy) != (0i8, 0i8) ==> moore_offsets().contains(
                (dx, dy),
            ),
        moore_offsets().no_duplicates(),
{
    let m = moore_offsets();
    assert(m[0] == (-1i8, -1i8));
    assert(m[1] == (-1i8, 0i8));
    assert(m[2] == (-1i8, 1i8));
    assert(m[3] == (0i8, -1i8));
    assert(m[4] == (0i8, 1i8));
    assert(m[5] == (1i8, -1i8));
    assert(m[6] == (1i8, 0i8));
    assert(m[7] == (1i8, 1i8));
}

/// The lopsided table is a valid table, but it asks `(-1, -1)` twice and
/// never asks `(-1, 1)`.
pub proof fn lemma_skewed_is_lopsided()
    ensures
        valid_offsets(skewed_offsets()),
        skewed_offsets()[0] == skewed_offsets()[2],
        !skewed_offsets().contains((-1i8, 1i8)),
{
}

} // verus!

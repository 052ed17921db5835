//! Where the random numbers come from.
//!
//! The simulation never reaches for a generator of its own: whoever runs it
//! hands one in. A source keeps, as ghost state, the list of the numbers it
//! has handed out, and the contracts of the simulation say what happens to
//! the grid in terms of that list.

use vstd::prelude::*;
use crate::params::MILLION;

verus! {

/// A source of whole random numbers.
pub trait RandomSource {
    /// Every number this source has handed out, oldest first.
    spec fn drawn(&self) -> Seq<u32>;

    /// Hands out a number from `lo` up to, but not including, `hi`.
    fn uniform_int(&mut self, lo: u32, hi: u32) -> (r: u32)
        requires
            lo < hi,
        ensures
            lo <= r < hi,
            final(self).drawn() == old(self).drawn().push(r),
    ;
}

/// The numbers that a source handed out between two moments.
pub open spec fn fresh<R: RandomSource>(before: &R, after: &R) -> Seq<u32> {
    after.drawn().skip(before.drawn().len() as int)
}

/// Between two moments a source only adds to what it has handed out.
pub open spec fn grown<R: RandomSource>(before: &R, after: &R) -> bool {
    before.drawn().is_prefix_of(after.drawn())
}

/// Two lists of draws are the same as far as their first `n` numbers go.
pub open spec fn agree(d1: Seq<u32>, d2: Seq<u32>, n: nat) -> bool {
    &&& n <= d1.len()
    &&& n <= d2.len()
    &&& forall|i: int| 0 <= i < n ==> #[trigger] d1[i] == d2[i]
}

/// A draw below a million counts as a hit for a chance of `prob` millionths
/// when it is below `prob`.
pub open spec fn hits(draw: u32, prob: u32) -> bool {
    draw < prob
}

/// Tries a chance of `prob` millionths: draws one number below a million and
/// reports whether it is a hit.
pub fn chance<R: RandomSource>(rng: &mut R, prob: u32) -> (hit: bool)
    ensures
        final(rng).drawn() == old(rng).drawn().push(final(rng).drawn().last()),
        final(rng).drawn().last() < MILLION,
        hit == hits(final(rng).drawn().last(), prob),
{
    let draw = rng.uniform_int(0, MILLION);
    draw < prob
}

/// What a script hands out next for the range from `lo` to `hi`: its first
/// number, pulled into the range if it lies outside, and `lo` once the script
/// has run out.
pub open spec fn replay(script: Seq<u32>, lo: u32, hi: u32) -> u32 {
    if script.len() == 0 || script[0] < lo {
        lo
    } else if script[0] >= hi {
        (hi - 1) as u32
    } else {
        script[0]
    }
}

/// A script without its first number.
pub open spec fn rest(script: Seq<u32>) -> Seq<u32> {
    if script.len() == 0 {
        script
    } else {
        script.drop_first()
    }
}

/// A source that replays a script: the same script gives the same numbers,
/// every time.
pub struct ScriptedSource {
    script: Vec<u32>,
    pos: usize,
    log: Ghost<Seq<u32>>,
}

impl ScriptedSource {
    #[verifier::type_invariant]
    spec fn well_formed(&self) -> bool {
        self.pos <= self.script.len()
    }

    /// The part of the script that has not been replayed yet.
    pub closed spec fn remaining(&self) -> Seq<u32> {
        self.script@.skip(self.pos as int)
    }

    /// A source that will replay `script` from its start.
    pub fn new(script: Vec<u32>) -> (source: ScriptedSource)
        ensures
            source.remaining() == script@,
            source.drawn() == Seq::<u32>::empty(),
    {
        ScriptedSource { script, pos: 0, log: Ghost(Seq::empty()) }
    }

    /// How many numbers of the script are left.
    pub fn left(&self) -> (n: usize)
        ensures
            n == self.remaining().len(),
    {
        proof {
            use_type_invariant(self);
        }
        self.script.len() - self.pos
    }
}

impl RandomSource for ScriptedSource {
    closed spec fn drawn(&self) -> Seq<u32> {
        self.log@
    }

    fn uniform_int(&mut self, lo: u32, hi: u32) -> (r: u32)
        ensures
            r == replay(old(self).remaining(), lo, hi),
            final(self).remaining() == rest(old(self).remaining()),
    {
        proof {
            use_type_invariant(&*self);
        }
        let mut r = lo;
        if self.pos < self.script.len() {
            let v = self.script[self.pos];
            if v >= hi {
                r = hi - 1;
            } else if v > lo {
                r = v;
            }
            assert(self.script@.skip(self.pos as int).drop_first() =~= self.script@.skip(
                self.pos + 1,
            ));
            self.pos = self.pos + 1;
        }
        proof {
            self.log@ = self.log@.push(r);
        }
        r
    }
}

/// `rand::ThreadRng`, the handle to the random number generator of a thread.
/// It is carried along as it is; nothing is known of what it holds.
#[verifier::external_type_specification]
#[verifier::external_body]
pub struct ExThreadRng(rand::ThreadRng);

/// `rand::thread_rng` hands back a handle to the generator of the calling
/// thread, which it seeds from the operating system when the thread first
/// asks. Nothing is claimed of the handle. Where the operating system has no
/// randomness to give, seeding panics.
pub assume_specification[ rand::thread_rng ]() -> (rng: rand::ThreadRng);

/// `rand::Rng::gen_range` on the generator of the thread, for `u32`: the
/// number it returns is at least `lo` and less than `hi`. It panics unless
/// `lo < hi`, which the caller has to see to. Which number comes is left
/// open, and two calls with the same range need not give the same.
#[verifier::external_body]
fn sample_range(rng: &mut rand::ThreadRng, lo: u32, hi: u32) -> (r: u32)
    requires
        lo < hi,
    ensures
        lo <= r < hi,
{
    rand::Rng::gen_range(rng, lo, hi)
}

/// A source that draws from the random number generator of the thread it
/// runs on.
pub struct ThreadSource {
    rng: rand::ThreadRng,
    log: Ghost<Seq<u32>>,
}

impl ThreadSource {
    /// A source on the generator of the calling thread.
    pub fn new() -> (source: ThreadSource)
        ensures
            source.drawn() == Seq::<u32>::empty(),
    {
        ThreadSource { rng: rand::thread_rng(), log: Ghost(Seq::empty()) }
    }
}

impl RandomSource for ThreadSource {
    closed spec fn drawn(&self) -> Seq<u32> {
        self.log@
    }

    fn uniform_int(&mut self, lo: u32, hi: u32) -> (r: u32) {
        let r = sample_range(&mut self.rng, lo, hi);
        proof {
            self.log@ = self.log@.push(r);
        }
        r
    }
}

} // verus!

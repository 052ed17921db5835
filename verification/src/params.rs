//! The numbers that tune the fire: three chances and two speeds.

use vstd::prelude::*;
use crate::error::ConfigError;

verus! {

/// The denominator of every chance: a chance of `p` holds in `p` out of a
/// million draws.
pub const MILLION: u32 = 1_000_000;

/// The chance that a freshly seeded cell is bare ground, not a tree.
pub const SEED_EMPTY_PROB: u32 = 100_000;

/// The tuning values as plain numbers.
pub struct Parameters {
    /// Chance, in millionths, that one burning neighbour sets a tree on fire.
    pub fire_spread_prob: u32,
    /// Chance, in millionths, that a tree grows on empty ground.
    pub tree_spawn_prob: u32,
    /// Chance, in millionths, that burnt ground becomes empty ground.
    pub empty_reclaim_prob: u32,
    /// A fire loses less than this much age in one tick.
    pub fire_decay_multiplier: u32,
    /// Burnt ground ages by one down to this age, and waits to be reclaimed
    /// below it.
    pub burnt_fastforward_threshold: u32,
}

impl Parameters {
    /// No chance is above one and no speed is zero.
    pub open spec fn valid(self) -> bool {
        &&& self.fire_spread_prob <= MILLION
        &&& self.tree_spawn_prob <= MILLION
        &&& self.empty_reclaim_prob <= MILLION
        &&& self.fire_decay_multiplier >= 1
        &&& self.burnt_fastforward_threshold >= 1
    }

    /// The error that building a parameter set from these numbers gives, the
    /// first field that is out of range deciding.
    pub open spec fn fault(self) -> Option<ConfigError> {
        if self.fire_spread_prob > MILLION {
            Some(ConfigError::FireSpreadProbability)
        } else if self.tree_spawn_prob > MILLION {
            Some(ConfigError::TreeSpawnProbability)
        } else if self.empty_reclaim_prob > MILLION {
            Some(ConfigError::EmptyReclaimProbability)
        } else if self.fire_decay_multiplier == 0 {
            Some(ConfigError::DecayMultiplier)
        } else if self.burnt_fastforward_threshold == 0 {
            Some(ConfigError::FastForwardThreshold)
        } else {
            None
        }
    }

    /// The everyday profile.
    pub open spec fn normal() -> Parameters {
        Parameters {
            fire_spread_prob: 2_500,
            tree_spawn_prob: 5,
            empty_reclaim_prob: 200,
            fire_decay_multiplier: 2,
            burnt_fastforward_threshold: 1,
        }
    }

    /// The fast profile: every chance is higher, fire burns down faster and
    /// burnt ground waits to be reclaimed from a higher age on.
    pub open spec fn accelerated() -> Parameters {
        Parameters {
            fire_spread_prob: 50_000,
            tree_spawn_prob: 500,
            empty_reclaim_prob: 1_000,
            fire_decay_multiplier: 20,
            burnt_fastforward_threshold: 551,
        }
    }
}

/// A set of tuning values that has been checked: each chance is at most
/// [`MILLION`] and each speed is at least one.
#[derive(Clone, Copy, Debug)]
pub struct ParameterSet {
    fire_spread_prob: u32,
    tree_spawn_prob: u32,
    empty_reclaim_prob: u32,
    fire_decay_multiplier: u32,
    burnt_fastforward_threshold: u32,
}

impl View for ParameterSet {
    type V = Parameters;

    closed spec fn view(&self) -> Parameters {
        Parameters {
            fire_spread_prob: self.fire_spread_prob,
            tree_spawn_prob: self.tree_spawn_prob,
            empty_reclaim_prob: self.empty_reclaim_prob,
            fire_decay_multiplier: self.fire_decay_multiplier,
            burnt_fastforward_threshold: self.burnt_fastforward_threshold,
        }
    }
}

impl ParameterSet {
    /// Every parameter set is valid.
    #[verifier::type_invariant]
    pub open spec fn well_formed(&self) -> bool {
        self@.valid()
    }

    /// Checks the five numbers and builds the set, or says which number is
    /// the first that is out of range. Nothing is clamped.
    pub fn new(
        fire_spread_prob: u32,
        tree_spawn_prob: u32,
        empty_reclaim_prob: u32,
        fire_decay_multiplier: u32,
        burnt_fastforward_threshold: u32,
    ) -> (made: Result<ParameterSet, ConfigError>)
        ensures
            ({
                let asked = Parameters {
                    fire_spread_prob,
                    tree_spawn_prob,
                    empty_reclaim_prob,
                    fire_decay_multiplier,
                    burnt_fastforward_threshold,
                };
                match made {
                    Ok(set) => asked.valid() && set@ == asked,
                    Err(e) => asked.fault() == Some(e),
                }
            }),
    {
        if fire_spread_prob > MILLION {
            Err(ConfigError::FireSpreadProbability)
        } else if tree_spawn_prob > MILLION {
            Err(ConfigError::TreeSpawnProbability)
        } else if empty_reclaim_prob > MILLION {
            Err(ConfigError::EmptyReclaimProbability)
        } else if fire_decay_multiplier == 0 {
            Err(ConfigError::DecayMultiplier)
        } else if burnt_fastforward_threshold == 0 {
            Err(ConfigError::FastForwardThreshold)
        } else {
            Ok(
                ParameterSet {
                    fire_spread_prob,
                    tree_spawn_prob,
                    empty_reclaim_prob,
                    fire_decay_multiplier,
                    burnt_fastforward_threshold,
                },
            )
        }
    }

    /// The everyday profile.
    pub fn normal() -> (set: ParameterSet)
        ensures
            set@ == Parameters::normal(),
    {
        ParameterSet {
            fire_spread_prob: 2_500,
            tree_spawn_prob: 5,
            empty_reclaim_prob: 200,
            fire_decay_multiplier: 2,
            burnt_fastforward_threshold: 1,
        }
    }

    /// The fast profile.
    pub fn accelerated() -> (set: ParameterSet)
        ensures
            set@ == Parameters::accelerated(),
    {
        ParameterSet {
            fire_spread_prob: 50_000,
            tree_spawn_prob: 500,
            empty_reclaim_prob: 1_000,
            fire_decay_multiplier: 20,
            burnt_fastforward_threshold: 551,
        }
    }

    /// Chance, in millionths, that one burning neighbour sets a tree on fire.
    pub fn fire_spread_prob(&self) -> (v: u32)
        ensures
            v == self@.fire_spread_prob,
            v <= MILLION,
    {
        proof {
            use_type_invariant(self);
        }
        self.fire_spread_prob
    }

    /// Chance, in millionths, that a tree grows on empty ground.
    pub fn tree_spawn_prob(&self) -> (v: u32)
        ensures
            v == self@.tree_spawn_prob,
            v <= MILLION,
    {
        proof {
            use_type_invariant(self);
        }
        self.tree_spawn_prob
    }

    /// Chance, in millionths, that burnt ground becomes empty ground.
    pub fn empty_reclaim_prob(&self) -> (v: u32)
        ensures
            v == self@.empty_reclaim_prob,
            v <= MILLION,
    {
        proof {
            use_type_invariant(self);
        }
        self.empty_reclaim_prob
    }

    /// The bound below which a fire's loss of age is drawn.
    pub fn fire_decay_multiplier(&self) -> (v: u32)
        ensures
            v == self@.fire_decay_multiplier,
            v >= 1,
    {
        proof {
            use_type_invariant(self);
        }
        self.fire_decay_multiplier
    }

    /// The age below which burnt ground waits to be reclaimed.
    pub fn burnt_fastforward_threshold(&self) -> (v: u32)
        ensures
            v == self@.burnt_fastforward_threshold,
            v >= 1,
    {
        proof {
            use_type_invariant(self);
        }
        self.burnt_fastforward_threshold
    }
}

/// A fault is reported exactly for the numbers that are not valid.
pub proof fn lemma_fault_iff_invalid(p: Parameters)
    ensures
        p.fault() is None <==> p.valid(),
{
}

} // verus!

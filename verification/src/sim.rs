//! The simulation as a whole: a grid, a clock, an editor and the profile in
//! use, moved on frame by frame.
//!
//! Whoever runs the simulation calls [`Simulation::update`] once per frame
//! with the time that has passed and with what the user asked for. The frame
//! does nothing until the clock grants a tick. Then the events are applied in
//! the order given, and after them, unless the simulation is paused, the
//! grid is moved on by one tick.

use vstd::prelude::*;
use crate::cell::Cell;
use crate::clock::{ClockState, SimulationClock};
use crate::editor::{flooded, ignited, InputEvent, InteractiveEditor};
use crate::error::ConfigError;
use crate::grid::{Grid, MAX_SIDE, MIN_SIDE};
use crate::neighborhood::{Neighborhood, Offset};
use crate::params::{ParameterSet, Parameters};
use crate::random::{agree, fresh, grown, RandomSource};
use crate::seed::{
    inner_cells,
    lemma_inner_cells_counts,
    lemma_seeded_reads_what_it_uses,
    seed_draws,
    seeded,
};
use crate::sweep::{lemma_tick_is_deterministic, tick_spec};

verus! {

/// What a frame came to.
#[derive(Clone, Copy, Debug, PartialEq, Eq, Structural)]
pub enum Frame {
    /// No tick was due: nothing was done.
    Idle,
    /// A tick was due and the events were applied, but the simulation is
    /// paused, so the grid was not moved on.
    Edited,
    /// A tick was due: the events were applied and the grid moved on.
    Swept,
}

/// What the events and the tick of a frame work on: the cells, the two
/// switches, and how many draws have been used.
pub struct World {
    pub cells: Seq<Seq<Cell>>,
    pub paused: bool,
    pub sped_up: bool,
    pub used: nat,
}

/// The parameters in use: the fast profile while sped up, the everyday
/// profile otherwise.
pub open spec fn profile(sped_up: bool) -> Parameters {
    if sped_up {
        Parameters::accelerated()
    } else {
        Parameters::normal()
    }
}

/// What one event does. The pointer is turned into a place on the grid by
/// dividing by `width`, the width of a cell in pixels.
///
/// * `TogglePause` switches the pause over and stays that way.
/// * `AccelerateOn` and `AccelerateOff` set the profile; neither is a toggle.
/// * `Ignite` and `PlaceObstacle` replace the cell under the pointer, unless
///   the pointer is over the ring or off the grid.
/// * `Reset` plants the forest anew, fire included, on the draws that come
///   after those already used.
pub open spec fn react(w: World, width: u32, event: InputEvent, draws: Seq<u32>) -> World {
    match event {
        InputEvent::TogglePause => World { paused: !w.paused, ..w },
        InputEvent::AccelerateOn => World { sped_up: true, ..w },
        InputEvent::AccelerateOff => World { sped_up: false, ..w },
        InputEvent::Ignite { px, py } => World {
            cells: ignited(w.cells, (px / width) as int, (py / width) as int),
            ..w
        },
        InputEvent::PlaceObstacle { px, py } => World {
            cells: flooded(w.cells, (px / width) as int, (py / width) as int),
            ..w
        },
        InputEvent::Reset => World {
            cells: seeded(w.cells.len() as int, draws.skip(w.used as int)),
            used: w.used + seed_size(w.cells.len()),
            ..w
        },
    }
}

/// How many draws planting a grid of side `n` takes.
pub open spec fn seed_size(n: nat) -> nat {
    (inner_cells(n as int) + 2) as nat
}

/// What the first `upto` of the events do, one after the other.
pub open spec fn react_all(
    w: World,
    width: u32,
    events: Seq<InputEvent>,
    upto: int,
    draws: Seq<u32>,
) -> World
    decreases upto,
{
    if upto <= 0 {
        w
    } else {
        react(react_all(w, width, events, upto - 1, draws), width, events[upto - 1], draws)
    }
}

/// A frame in which a tick is due: the events are applied in order, and
/// then, unless the simulation is paused by then, the grid is moved on by
/// one tick under the profile in use by then.
pub open spec fn frame(
    w: World,
    width: u32,
    nb: Seq<Offset>,
    events: Seq<InputEvent>,
    draws: Seq<u32>,
) -> World {
    let edited = react_all(w, width, events, events.len() as int, draws);
    if edited.paused {
        edited
    } else {
        let swept = tick_spec(
            edited.cells,
            nb,
            profile(edited.sped_up),
            draws.skip(edited.used as int),
        );
        World { cells: swept.cells, used: edited.used + swept.used, ..edited }
    }
}

/// What is wrong with the numbers a simulation is to be built from, the
/// side deciding before the width of a cell and that before the rate.
pub open spec fn setup_fault(side: usize, cell_width: u32, rate: u32) -> Option<ConfigError> {
    if side < MIN_SIDE {
        Some(ConfigError::GridTooSmall)
    } else if side > MAX_SIDE {
        Some(ConfigError::GridTooLarge)
    } else if cell_width == 0 {
        Some(ConfigError::CellWidth)
    } else if rate == 0 {
        Some(ConfigError::TickRate)
    } else {
        None
    }
}

/// An event uses no draw but for planting, and gives none back.
pub proof fn lemma_react_counts_up(w: World, width: u32, event: InputEvent, draws: Seq<u32>)
    ensures
        w.used <= react(w, width, event, draws).used,
        react(w, width, event, draws).cells.len() == w.cells.len(),
{
}

/// An event looks only at the draws it uses.
pub proof fn lemma_react_reads_what_it_uses(
    w: World,
    width: u32,
    event: InputEvent,
    d1: Seq<u32>,
    d2: Seq<u32>,
)
    requires
        agree(d1, d2, react(w, width, event, d1).used),
    ensures
        react(w, width, event, d2) == react(w, width, event, d1),
{
    if event is Reset {
        let u = w.used as int;
        let n = w.cells.len() as int;
        lemma_inner_cells_counts(n);
        assert(agree(d1.skip(u), d2.skip(u), seed_size(w.cells.len()))) by {
            assert forall|i: int| 0 <= i < seed_size(w.cells.len()) implies #[trigger] d1.skip(
                u,
            )[i] == d2.skip(u)[i] by {
                assert(d1[u + i] == d2[u + i]);
            }
        }
        lemma_seeded_reads_what_it_uses(n, d1.skip(u), d2.skip(u));
    }
}

/// Events look only at the draws they use.
pub proof fn lemma_react_all_reads_what_it_uses(
    w: World,
    width: u32,
    events: Seq<InputEvent>,
    upto: int,
    d1: Seq<u32>,
    d2: Seq<u32>,
)
    requires
        agree(d1, d2, react_all(w, width, events, upto, d1).used),
    ensures
        react_all(w, width, events, upto, d2) == react_all(w, width, events, upto, d1),
    decreases upto,
{
    if upto > 0 {
        let before = react_all(w, width, events, upto - 1, d1);
        lemma_react_counts_up(before, width, events[upto - 1], d1);
        lemma_react_all_reads_what_it_uses(w, width, events, upto - 1, d1, d2);
        lemma_react_reads_what_it_uses(before, width, events[upto - 1], d1, d2);
    }
}

/// A frame is decided by the world it starts from, by the events and by the
/// draws it uses: on two lists of draws that agree that far it comes out the
/// same.
pub proof fn lemma_frame_is_deterministic(
    w: World,
    width: u32,
    nb: Seq<Offset>,
    events: Seq<InputEvent>,
    d1: Seq<u32>,
    d2: Seq<u32>,
)
    requires
        agree(d1, d2, frame(w, width, nb, events, d1).used),
    ensures
        frame(w, width, nb, events, d2) == frame(w, width, nb, events, d1),
{
    let edited = react_all(w, width, events, events.len() as int, d1);
    let u = edited.used as int;
    lemma_react_all_reads_what_it_uses(w, width, events, events.len() as int, d1, d2);
    if !edited.paused {
        let swept = tick_spec(edited.cells, nb, profile(edited.sped_up), d1.skip(u));
        assert(agree(d1.skip(u), d2.skip(u), swept.used)) by {
            assert forall|i: int| 0 <= i < swept.used implies #[trigger] d1.skip(u)[i] == d2.skip(
                u,
            )[i] by {
                assert(d1[u + i] == d2[u + i]);
            }
        }
        lemma_tick_is_deterministic(
            edited.cells,
            nb,
            profile(edited.sped_up),
            d1.skip(u),
            d2.skip(u),
        );
    }
}

/// While the simulation is paused and is not asked to go on, a frame leaves
/// on the grid what the events put there and nothing else; with no events it
/// leaves the grid as it was and uses no draw.
pub proof fn lemma_paused_frame_only_edits(
    w: World,
    width: u32,
    nb: Seq<Offset>,
    events: Seq<InputEvent>,
    draws: Seq<u32>,
)
    requires
        w.paused,
        forall|i: int| 0 <= i < events.len() ==> !(#[trigger] events[i] is TogglePause),
    ensures
        frame(w, width, nb, events, draws) == react_all(
            w,
            width,
            events,
            events.len() as int,
            draws,
        ),
        events.len() == 0 ==> frame(w, width, nb, events, draws) == w,
{
    lemma_pause_holds(w, width, events, events.len() as int, draws);
}

proof fn lemma_pause_holds(
    w: World,
    width: u32,
    events: Seq<InputEvent>,
    upto: int,
    draws: Seq<u32>,
)
    requires
        upto <= events.len(),
        forall|i: int| 0 <= i < events.len() ==> !(#[trigger] events[i] is TogglePause),
    ensures
        react_all(w, width, events, upto, draws).paused == w.paused,
    decreases upto,
{
    if upto > 0 {
        lemma_pause_holds(w, width, events, upto - 1, draws);
        assert(!(events[upto - 1] is TogglePause));
    }
}

/// A simulation: the grid and what moves it.
#[derive(Debug)]
pub struct Simulation {
    /// The forest.
    pub grid: Grid,
    /// Grants the ticks and holds the pause.
    pub clock: SimulationClock,
    /// Turns the pointer into places on the grid.
    pub editor: InteractiveEditor,
    /// The cells around a tree that can set it on fire.
    pub neighbours: Neighborhood,
    /// Whether the fast profile is in use.
    pub sped_up: bool,
}

impl Simulation {
    /// The part of the simulation that events and ticks work on, with a
    /// count of draws beside it.
    pub open spec fn world(&self, used: nat) -> World {
        World { cells: self.grid@, paused: self.clock@.paused, sped_up: self.sped_up, used }
    }

    /// A simulation on a freshly planted grid of the given side, running
    /// under the everyday profile and not paused. Cells are `cell_width`
    /// pixels wide and `rate` ticks are granted per second.
    ///
    /// A side, width or rate that will not do is turned down before any
    /// number is drawn.
    pub fn new<R: RandomSource>(
        side: usize,
        cell_width: u32,
        rate: u32,
        neighbours: Neighborhood,
        rng: &mut R,
    ) -> (made: Result<Simulation, ConfigError>)
        ensures
            grown(old(rng), final(rng)),
            match made {
                Ok(sim) => {
                    &&& setup_fault(side, cell_width, rate) is None
                    &&& seed_draws(side as int, fresh(old(rng), final(rng)))
                    &&& sim.grid@ == seeded(side as int, fresh(old(rng), final(rng)))
                    &&& sim.clock@ == (ClockState {
                        period: crate::clock::NANOS_PER_SECOND / (rate as u64),
                        residual: 0,
                        paused: false,
                    })
                    &&& sim.editor.cell_width() == cell_width
                    &&& sim.neighbours == neighbours
                    &&& !sim.sped_up
                },
                Err(e) => setup_fault(side, cell_width, rate) == Some(e) && fresh(
                    old(rng),
                    final(rng),
                ).len() == 0,
            },
    {
        assert(rng.drawn().skip(rng.drawn().len() as int) =~= Seq::<u32>::empty());
        let mut grid = match Grid::new(side) {
            Ok(grid) => grid,
            Err(e) => {
                return Err(e);
            },
        };
        let editor = match InteractiveEditor::new(cell_width) {
            Ok(editor) => editor,
            Err(e) => {
                return Err(e);
            },
        };
        let clock = match SimulationClock::new(rate) {
            Ok(clock) => clock,
            Err(e) => {
                return Err(e);
            },
        };
        grid.reset(rng);
        Ok(Simulation { grid, clock, editor, neighbours, sped_up: false })
    }

    /// The parameters in use.
    pub fn params(&self) -> (set: ParameterSet)
        ensures
            set@ == profile(self.sped_up),
    {
        if self.sped_up {
            ParameterSet::accelerated()
        } else {
            ParameterSet::normal()
        }
    }

    /// Applies one event, see [`react`]. Only planting draws numbers.
    pub fn apply<R: RandomSource>(&mut self, event: InputEvent, rng: &mut R)
        ensures
            grown(old(rng), final(rng)),
            final(self).world(fresh(old(rng), final(rng)).len()) == react(
                old(self).world(0),
                old(self).editor.cell_width(),
                event,
                fresh(old(rng), final(rng)),
            ),
            final(self).clock@ == (ClockState {
                paused: final(self).clock@.paused,
                ..old(self).clock@
            }),
            final(self).editor == old(self).editor,
            final(self).neighbours == old(self).neighbours,
    {
        let ghost base = rng.drawn();
        assert(base.skip(base.len() as int) =~= Seq::<u32>::empty());
        match event {
            InputEvent::TogglePause => {
                self.clock.toggle_pause();
            },
            InputEvent::AccelerateOn => {
                self.sped_up = true;
            },
            InputEvent::AccelerateOff => {
                self.sped_up = false;
            },
            InputEvent::Ignite { px, py } => {
                self.editor.ignite_at(&mut self.grid, px, py);
            },
            InputEvent::PlaceObstacle { px, py } => {
                self.editor.place_obstacle_at(&mut self.grid, px, py);
            },
            InputEvent::Reset => {
                self.grid.reset(rng);
                proof {
                    let draws = rng.drawn().skip(base.len() as int);
                    assert(draws.skip(0) =~= draws);
                }
            },
        }
    }

    /// One frame. `elapsed` is the time since the frame before, in
    /// nanoseconds, and `events` is what the user asked for since then.
    ///
    /// The clock is advanced and asked for a tick. If none is due the frame
    /// is idle: the events are not looked at and nothing but the clock
    /// changes. If one is due, the world afterwards is [`frame`] of the world
    /// before and of the numbers that `rng` handed out during the call.
    pub fn update<R: RandomSource>(
        &mut self,
        elapsed: u64,
        events: &Vec<InputEvent>,
        rng: &mut R,
    ) -> (done: Frame)
        ensures
            grown(old(rng), final(rng)),
            final(self).editor == old(self).editor,
            final(self).neighbours == old(self).neighbours,
            ({
                let clock = old(self).clock@.advance(elapsed);
                let draws = fresh(old(rng), final(rng));
                if clock.due() {
                    let w = frame(
                        old(self).world(0),
                        old(self).editor.cell_width(),
                        old(self).neighbours@,
                        events@,
                        draws,
                    );
                    &&& final(self).world(draws.len()) == w
                    &&& final(self).clock@ == (ClockState { paused: w.paused, ..clock.asked() })
                    &&& done == if w.paused {
                        Frame::Edited
                    } else {
                        Frame::Swept
                    }
                } else {
                    &&& final(self).world(0) == old(self).world(0)
                    &&& final(self).clock@ == clock
                    &&& draws.len() == 0
                    &&& done == Frame::Idle
                }
            }),
    {
        let ghost base = rng.drawn();
        let ghost start = self.world(0);
        let ghost width = self.editor.cell_width();
        assert(base.skip(base.len() as int) =~= Seq::<u32>::empty());
        self.clock.advance(elapsed);
        if !self.clock.check_update_time() {
            return Frame::Idle;
        }
        let ghost asked = self.clock@;
        let mut i: usize = 0;
        while i < events.len()
            invariant
                i <= events.len(),
                base.is_prefix_of(rng.drawn()),
                self.editor == old(self).editor,
                self.neighbours == old(self).neighbours,
                width == self.editor.cell_width(),
                self.clock@ == (ClockState { paused: self.clock@.paused, ..asked }),
                react_all(
                    start,
                    width,
                    events@,
                    i as int,
                    rng.drawn().skip(base.len() as int),
                ) == self.world((rng.drawn().len() - base.len()) as nat),
            decreases events.len() - i,
        {
            let ghost log = rng.drawn().skip(base.len() as int);
            let ghost mid = rng.drawn();
            let ghost before = self.world(log.len());
            self.apply(events[i], rng);
            proof {
                let drawn = rng.drawn().skip(mid.len() as int);
                let longer = rng.drawn().skip(base.len() as int);
                assert(longer =~= log + drawn);
                assert(longer.skip(log.len() as int) =~= drawn);
                assert(drawn.skip(0) =~= drawn);
                assert(agree(log, longer, log.len()));
                lemma_react_all_reads_what_it_uses(start, width, events@, i as int, log, longer);
                assert(react(before, width, events@[i as int], longer) == self.world(
                    longer.len(),
                ));
            }
            i += 1;
        }
        if self.clock.is_paused() {
            return Frame::Edited;
        }
        let ghost log = rng.drawn().skip(base.len() as int);
        let ghost mid = rng.drawn();
        let params = self.params();
        self.grid.tick(&self.neighbours, &params, rng);
        proof {
            let drawn = rng.drawn().skip(mid.len() as int);
            let longer = rng.drawn().skip(base.len() as int);
            assert(longer =~= log + drawn);
            assert(longer.skip(log.len() as int) =~= drawn);
            assert(agree(log, longer, log.len()));
            lemma_react_all_reads_what_it_uses(
                start,
                width,
                events@,
                events@.len() as int,
                log,
                longer,
            );
        }
        Frame::Swept
    }
}

} // verus!

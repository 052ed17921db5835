use firesim::cell::Cell;
use firesim::clock::{SimulationClock, NANOS_PER_SECOND};
use firesim::editor::{InputEvent, InteractiveEditor};
use firesim::grid::Grid;
use firesim::neighborhood::Neighborhood;
use firesim::random::ScriptedSource;
use firesim::sim::{Frame, Simulation};

const FRAME: u64 = 20_000_000;

fn cells_of(grid: &Grid) -> Vec<Vec<Cell>> {
    let n = grid.side();
    (0..n).map(|x| (0..n).map(|y| grid.get(x, y)).collect()).collect()
}

fn simulation(rng: &mut ScriptedSource) -> Simulation {
    Simulation::new(12, 10, 60, Neighborhood::moore(), rng).unwrap()
}

#[test]
fn the_clock_counts_in_nanoseconds() {
    assert_eq!(NANOS_PER_SECOND, 1_000_000_000);
    let clock = SimulationClock::new(60).unwrap();
    assert_eq!(clock.period(), 16_666_666);
    assert_eq!(clock.residual(), 0);
    assert!(!clock.is_paused());
    assert_eq!(SimulationClock::new(1).unwrap().period(), 1_000_000_000);
    assert_eq!(SimulationClock::new(30).unwrap().period(), 33_333_333);
    assert_eq!(SimulationClock::new(u32::MAX).unwrap().period(), 0);
}

#[test]
fn a_tick_is_due_once_more_than_a_period_has_passed() {
    let mut clock = SimulationClock::new(60).unwrap();
    assert!(!clock.check_update_time());
    clock.advance(16_666_666);
    assert!(!clock.check_update_time());
    assert_eq!(clock.residual(), 16_666_666);
    clock.advance(1);
    assert!(clock.check_update_time());
    assert_eq!(clock.residual(), 1);
    assert!(!clock.check_update_time());
}

#[test]
fn time_saved_up_is_paid_out_tick_by_tick() {
    let mut clock = SimulationClock::new(60).unwrap();
    clock.advance(40_000_000);
    assert!(clock.check_update_time());
    assert!(clock.check_update_time());
    assert!(!clock.check_update_time());
    assert_eq!(clock.residual(), 40_000_000 - 2 * 16_666_666);
}

#[test]
fn a_fast_frame_loop_gets_no_more_ticks_than_time_has_passed() {
    let mut clock = SimulationClock::new(60).unwrap();
    let mut ticks = 0;
    // A thousand frames of one millisecond: one second in all.
    for _ in 0..1_000 {
        clock.advance(1_000_000);
        if clock.check_update_time() {
            ticks += 1;
        }
    }
    assert_eq!(ticks, 60);
    assert_eq!(clock.residual(), 1_000_000_000 - 60 * 16_666_666);
}

#[test]
fn the_savings_of_the_clock_stop_at_the_largest_number() {
    let mut clock = SimulationClock::new(1).unwrap();
    clock.advance(u64::MAX - 5);
    clock.advance(10);
    assert_eq!(clock.residual(), u64::MAX);
    assert!(clock.check_update_time());
    assert_eq!(clock.residual(), u64::MAX - 1_000_000_000);
}

#[test]
fn pause_is_a_switch() {
    let mut clock = SimulationClock::new(60).unwrap();
    clock.advance(5);
    clock.toggle_pause();
    assert!(clock.is_paused());
    assert_eq!(clock.residual(), 5);
    clock.toggle_pause();
    assert!(!clock.is_paused());
    assert_eq!(clock.period(), 16_666_666);
}

#[test]
fn the_pointer_finds_its_cell() {
    let editor = InteractiveEditor::new(10).unwrap();
    assert_eq!(editor.cell_of(0), 0);
    assert_eq!(editor.cell_of(9), 0);
    assert_eq!(editor.cell_of(10), 1);
    assert_eq!(editor.cell_of(999), 99);
    assert_eq!(editor.cell_of(u32::MAX), 429_496_729);
    assert_eq!(InteractiveEditor::new(1).unwrap().cell_of(77), 77);
    assert_eq!(InteractiveEditor::new(7).unwrap().cell_of(48), 6);
}

#[test]
fn the_editor_edits_the_cell_under_the_pointer() {
    let editor = InteractiveEditor::new(10).unwrap();
    let mut grid = Grid::new(6).unwrap();
    editor.ignite_at(&mut grid, 25, 39);
    editor.place_obstacle_at(&mut grid, 40, 10);
    assert_eq!(grid.get(2, 3), Cell::Fire(300));
    assert_eq!(grid.get(4, 1), Cell::Water);
    let before = cells_of(&grid);
    editor.ignite_at(&mut grid, 5, 25);
    editor.ignite_at(&mut grid, 25, 50);
    editor.place_obstacle_at(&mut grid, 59, 59);
    editor.place_obstacle_at(&mut grid, 60, 20);
    editor.place_obstacle_at(&mut grid, u32::MAX, u32::MAX);
    assert_eq!(cells_of(&grid), before);
}

#[test]
fn a_new_simulation_is_planted_and_runs() {
    let mut rng = ScriptedSource::new(vec![500_000; 102]);
    let sim = simulation(&mut rng);
    assert_eq!(rng.left(), 0);
    assert_eq!(sim.grid.side(), 12);
    assert!(!sim.clock.is_paused());
    assert!(!sim.sped_up);
    assert_eq!(sim.clock.period(), 16_666_666);
    assert_eq!(sim.editor.cell_width(), 10);
    assert_eq!(sim.params().fire_spread_prob(), 2_500);
    assert_eq!(sim.grid.get(10, 10), Cell::Fire(300));
    assert_eq!(sim.grid.get(1, 1), Cell::Tree);
}

#[test]
fn a_frame_before_its_time_is_idle() {
    let mut rng = ScriptedSource::new(vec![500_000; 200]);
    let mut sim = simulation(&mut rng);
    let before = cells_of(&sim.grid);
    let events = vec![
        InputEvent::TogglePause,
        InputEvent::AccelerateOn,
        InputEvent::Ignite { px: 35, py: 35 },
        InputEvent::Reset,
    ];
    assert_eq!(sim.update(16_666_666, &events, &mut rng), Frame::Idle);
    assert_eq!(cells_of(&sim.grid), before);
    assert!(!sim.clock.is_paused());
    assert!(!sim.sped_up);
    assert_eq!(sim.clock.residual(), 16_666_666);
    assert_eq!(rng.left(), 98);
}

#[test]
fn a_paused_simulation_changes_only_by_edits() {
    let mut rng = ScriptedSource::new(vec![500_000; 102]);
    let mut sim = simulation(&mut rng);
    let planted = cells_of(&sim.grid);
    assert_eq!(sim.update(FRAME, &vec![InputEvent::TogglePause], &mut rng), Frame::Edited);
    assert!(sim.clock.is_paused());
    assert_eq!(cells_of(&sim.grid), planted);
    for _ in 0..100 {
        assert_eq!(sim.update(FRAME, &vec![], &mut rng), Frame::Edited);
    }
    assert_eq!(cells_of(&sim.grid), planted);
    let edits = vec![
        InputEvent::Ignite { px: 35, py: 47 },
        InputEvent::PlaceObstacle { px: 70, py: 19 },
        InputEvent::Ignite { px: 5, py: 47 },
        InputEvent::PlaceObstacle { px: 115, py: 50 },
    ];
    assert_eq!(sim.update(FRAME, &edits, &mut rng), Frame::Edited);
    let edited = cells_of(&sim.grid);
    for x in 0..12 {
        for y in 0..12 {
            let expected = match (x, y) {
                (3, 4) => Cell::Fire(300),
                (7, 1) => Cell::Water,
                _ => planted[x][y],
            };
            assert_eq!(edited[x][y], expected, "at ({}, {})", x, y);
        }
    }
}

#[test]
fn a_running_simulation_sweeps_after_the_edits() {
    let mut rng = ScriptedSource::new(vec![500_000; 102]);
    let mut sim = simulation(&mut rng);
    // All trees, fire at (10, 10). Every draw from here on is the low end of
    // its range, so every chance above zero is hit and no fire loses age.
    let events = vec![InputEvent::PlaceObstacle { px: 95, py: 95 }];
    assert_eq!(sim.update(FRAME, &events, &mut rng), Frame::Swept);
    assert_eq!(sim.grid.get(9, 9), Cell::Water);
    assert_eq!(sim.grid.get(10, 10), Cell::Fire(300));
    // (10, 9) is visited before (10, 10) and sees it burning.
    assert_eq!(sim.grid.get(10, 9), Cell::Fire(300));
    assert_eq!(sim.grid.get(9, 10), Cell::Fire(300));
    assert_eq!(sim.grid.get(8, 10), Cell::Tree);
    assert_eq!(sim.grid.get(8, 8), Cell::Tree);
}

#[test]
fn pause_holds_until_it_is_switched_back() {
    let mut rng = ScriptedSource::new(vec![500_000; 102]);
    let mut sim = simulation(&mut rng);
    assert_eq!(sim.update(FRAME, &vec![InputEvent::TogglePause], &mut rng), Frame::Edited);
    assert_eq!(sim.update(FRAME, &vec![], &mut rng), Frame::Edited);
    assert_eq!(sim.update(FRAME, &vec![InputEvent::TogglePause], &mut rng), Frame::Swept);
    assert_eq!(sim.update(FRAME, &vec![], &mut rng), Frame::Swept);
    let twice = vec![InputEvent::TogglePause, InputEvent::TogglePause];
    assert_eq!(sim.update(FRAME, &twice, &mut rng), Frame::Swept);
    assert!(!sim.clock.is_paused());
}

#[test]
fn the_fast_profile_lasts_while_it_is_asked_for() {
    let mut rng = ScriptedSource::new(vec![500_000; 102]);
    let mut sim = simulation(&mut rng);
    sim.update(FRAME, &vec![InputEvent::AccelerateOn], &mut rng);
    assert!(sim.sped_up);
    assert_eq!(sim.params().fire_spread_prob(), 50_000);
    assert_eq!(sim.params().fire_decay_multiplier(), 20);
    sim.update(FRAME, &vec![InputEvent::AccelerateOn], &mut rng);
    assert!(sim.sped_up);
    sim.update(FRAME, &vec![], &mut rng);
    assert!(sim.sped_up);
    sim.update(FRAME, &vec![InputEvent::AccelerateOff], &mut rng);
    assert!(!sim.sped_up);
    assert_eq!(sim.params().fire_spread_prob(), 2_500);
    sim.update(FRAME, &vec![InputEvent::AccelerateOff], &mut rng);
    assert!(!sim.sped_up);
}

#[test]
fn reset_plants_anew_and_sets_a_fire() {
    let mut script = vec![500_000; 102];
    script.extend(vec![0; 100]);
    script.push(4);
    script.push(7);
    let mut rng = ScriptedSource::new(script);
    let mut sim = simulation(&mut rng);
    sim.apply(InputEvent::TogglePause, &mut rng);
    sim.apply(InputEvent::PlaceObstacle { px: 20, py: 20 }, &mut rng);
    sim.apply(InputEvent::Reset, &mut rng);
    assert_eq!(rng.left(), 0);
    assert!(sim.clock.is_paused());
    for x in 0..12 {
        for y in 0..12 {
            let expected = if !sim.grid.is_inner(x, y) {
                Cell::Edge
            } else if (x, y) == (4, 7) {
                Cell::Fire(300)
            } else {
                Cell::Empty
            };
            assert_eq!(sim.grid.get(x, y), expected, "at ({}, {})", x, y);
        }
    }
}

#[test]
fn events_are_applied_in_the_order_given() {
    let mut rng = ScriptedSource::new(vec![500_000; 102]);
    let mut sim = simulation(&mut rng);
    let events = vec![
        InputEvent::TogglePause,
        InputEvent::Ignite { px: 30, py: 30 },
        InputEvent::PlaceObstacle { px: 30, py: 30 },
        InputEvent::PlaceObstacle { px: 50, py: 50 },
        InputEvent::Ignite { px: 50, py: 50 },
    ];
    assert_eq!(sim.update(FRAME, &events, &mut rng), Frame::Edited);
    assert_eq!(sim.grid.get(3, 3), Cell::Water);
    assert_eq!(sim.grid.get(5, 5), Cell::Fire(300));
}

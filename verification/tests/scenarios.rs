use firesim::cell::Cell;
use firesim::grid::Grid;
use firesim::neighborhood::Neighborhood;
use firesim::params::ParameterSet;
use firesim::random::{ScriptedSource, ThreadSource};

fn cells_of(grid: &Grid) -> Vec<Vec<Cell>> {
    let n = grid.side();
    (0..n).map(|x| (0..n).map(|y| grid.get(x, y)).collect()).collect()
}

fn forest(side: usize) -> Grid {
    let mut grid = Grid::new(side).unwrap();
    for x in 1..side - 1 {
        for y in 1..side - 1 {
            grid.set(x, y, Cell::Tree);
        }
    }
    grid
}

#[test]
fn fire_in_a_forest_reaches_all_its_neighbours_in_one_tick() {
    let mut grid = forest(12);
    grid.set(5, 5, Cell::Fire(3));
    let sure = ParameterSet::new(1_000_000, 0, 0, 2, 1).unwrap();
    let mut rng = ScriptedSource::new(vec![1; 1_000]);
    grid.tick(&Neighborhood::moore(), &sure, &mut rng);
    for (dx, dy) in [(-1, -1), (-1, 0), (-1, 1), (0, -1), (0, 1), (1, -1), (1, 0), (1, 1)] {
        let x = (5 + dx) as usize;
        let y = (5 + dy) as usize;
        assert_eq!(grid.get(x, y), Cell::Fire(300), "at ({}, {})", x, y);
    }
    // The fire itself burns down by what was drawn for it.
    assert_eq!(grid.get(5, 5), Cell::Fire(2));
}

#[test]
fn fire_in_a_forest_runs_ahead_of_the_sweep() {
    let mut grid = forest(12);
    grid.set(5, 5, Cell::Fire(3));
    let sure = ParameterSet::new(1_000_000, 0, 0, 2, 1).unwrap();
    let mut rng = ScriptedSource::new(vec![1; 1_000]);
    grid.tick(&Neighborhood::moore(), &sure, &mut rng);
    for y in 1..=10usize {
        for x in 1..=10usize {
            let lit = match y {
                1..=3 => false,
                4 => x >= 4,
                5 => x >= 3,
                6 => x >= 2,
                _ => true,
            };
            let expected = if (x, y) == (5, 5) {
                Cell::Fire(2)
            } else if lit {
                Cell::Fire(300)
            } else {
                Cell::Tree
            };
            assert_eq!(grid.get(x, y), expected, "at ({}, {})", x, y);
        }
    }
    // One draw for each tree that was lit by the first burning neighbour it
    // asked, and one for the fire.
    assert_eq!(rng.left(), 1_000 - (7 + 7 + 9 + 40) - 1);
}

#[test]
fn a_lone_tree_without_chances_is_a_steady_state() {
    let mut grid = Grid::new(3).unwrap();
    grid.set(1, 1, Cell::Tree);
    let still = ParameterSet::new(0, 0, 0, 2, 1).unwrap();
    let mut rng = ThreadSource::new();
    for _ in 0..1_000 {
        grid.tick(&Neighborhood::moore(), &still, &mut rng);
        assert_eq!(grid.get(1, 1), Cell::Tree);
    }
    assert_eq!(cells_of(&grid), cells_of(&{
        let mut same = Grid::new(3).unwrap();
        same.set(1, 1, Cell::Tree);
        same
    }));
}

#[test]
fn a_forest_without_fire_and_without_chances_is_a_steady_state() {
    let mut grid = forest(20);
    grid.set(3, 3, Cell::Empty);
    grid.set(4, 3, Cell::Water);
    grid.set(10, 17, Cell::Empty);
    let before = cells_of(&grid);
    let still = ParameterSet::new(0, 0, 0, 2, 1).unwrap();
    let mut rng = ThreadSource::new();
    for _ in 0..50 {
        grid.tick(&Neighborhood::moore(), &still, &mut rng);
    }
    assert_eq!(cells_of(&grid), before);
}

#[test]
fn burnt_ground_waits_at_the_retry_age_while_it_cannot_be_reclaimed() {
    let mut grid = Grid::new(3).unwrap();
    grid.set(1, 1, Cell::Burnt(100));
    let stuck = ParameterSet::new(0, 0, 0, 2, 551).unwrap();
    let mut rng = ThreadSource::new();
    for _ in 0..500 {
        grid.tick(&Neighborhood::moore(), &stuck, &mut rng);
        assert_eq!(grid.get(1, 1), Cell::Burnt(20));
    }
    // Once the chance is there, the ground is reclaimed.
    let freed = ParameterSet::new(0, 0, 1_000_000, 2, 551).unwrap();
    grid.tick(&Neighborhood::moore(), &freed, &mut rng);
    assert_eq!(grid.get(1, 1), Cell::Empty);
}

#[test]
fn edge_cells_never_change() {
    let mut grid = forest(9);
    grid.set(4, 4, Cell::Fire(300));
    grid.set(1, 1, Cell::Fire(300));
    let wild = ParameterSet::new(900_000, 500_000, 500_000, 50, 600).unwrap();
    let mut rng = ThreadSource::new();
    for _ in 0..200 {
        grid.tick(&Neighborhood::moore(), &wild, &mut rng);
        for k in 0..9 {
            assert_eq!(grid.get(0, k), Cell::Edge);
            assert_eq!(grid.get(8, k), Cell::Edge);
            assert_eq!(grid.get(k, 0), Cell::Edge);
            assert_eq!(grid.get(k, 8), Cell::Edge);
        }
    }
}

#[test]
fn water_stays_water_next_to_fire() {
    let mut grid = forest(7);
    grid.set(3, 3, Cell::Water);
    grid.set(2, 3, Cell::Fire(300));
    grid.set(4, 3, Cell::Fire(300));
    grid.set(3, 2, Cell::Fire(300));
    grid.set(5, 5, Cell::Water);
    let wild = ParameterSet::new(1_000_000, 1_000_000, 1_000_000, 3, 2).unwrap();
    let mut rng = ThreadSource::new();
    for _ in 0..300 {
        grid.tick(&Neighborhood::moore(), &wild, &mut rng);
        assert_eq!(grid.get(3, 3), Cell::Water);
        assert_eq!(grid.get(5, 5), Cell::Water);
    }
}

#[test]
fn fire_burns_down_or_goes_out_in_every_tick() {
    let mut grid = Grid::new(3).unwrap();
    grid.set(1, 1, Cell::Fire(300));
    let normal = ParameterSet::normal();
    let mut rng = ThreadSource::new();
    let mut age = 300;
    let mut out = false;
    for _ in 0..10_000 {
        grid.tick(&Neighborhood::moore(), &normal, &mut rng);
        match grid.get(1, 1) {
            Cell::Fire(left) => {
                assert!(left == age || left + 1 == age);
                age = left;
            }
            Cell::Burnt(left) => {
                assert_eq!(age, 0);
                assert_eq!(left, 650);
                out = true;
                break;
            }
            other => panic!("fire became {:?}", other),
        }
    }
    assert!(out);
}

#[test]
fn no_fire_starts_where_nothing_burns() {
    let mut grid = forest(15);
    let eager = ParameterSet::new(1_000_000, 1_000_000, 0, 2, 1).unwrap();
    let mut rng = ThreadSource::new();
    for _ in 0..20 {
        grid.tick(&Neighborhood::moore(), &eager, &mut rng);
    }
    for x in 0..15 {
        for y in 0..15 {
            assert!(!grid.get(x, y).is_burning());
        }
    }
}

#[test]
fn the_same_draws_give_the_same_run() {
    let script: Vec<u32> = (0..200_000u32).map(|k| k.wrapping_mul(2_654_435_761) % 1_000_000).collect();
    let wild = ParameterSet::new(300_000, 50_000, 200_000, 20, 551).unwrap();
    let mut first_rng = ScriptedSource::new(script.clone());
    let mut second_rng = ScriptedSource::new(script);
    let mut first = Grid::new(14).unwrap();
    let mut second = Grid::new(14).unwrap();
    first.reset(&mut first_rng);
    second.reset(&mut second_rng);
    assert_eq!(cells_of(&first), cells_of(&second));
    let mut changed = false;
    for _ in 0..60 {
        let before = cells_of(&first);
        first.tick(&Neighborhood::moore(), &wild, &mut first_rng);
        second.tick(&Neighborhood::moore(), &wild, &mut second_rng);
        assert_eq!(cells_of(&first), cells_of(&second));
        assert_eq!(first_rng.left(), second_rng.left());
        changed = changed || cells_of(&first) != before;
    }
    assert!(changed);
}

#[test]
fn draws_that_are_not_used_do_not_matter() {
    // Both runs use three draws; what comes after those differs.
    let params = ParameterSet::new(0, 10, 10, 4, 1).unwrap();
    let mut first = Grid::new(4).unwrap();
    first.set(2, 1, Cell::Fire(5));
    first.set(1, 2, Cell::Burnt(0));
    first.set(2, 2, Cell::Water);
    let mut second = first.clone();
    first.tick(&Neighborhood::moore(), &params, &mut ScriptedSource::new(vec![9, 3, 10, 1, 2]));
    second.tick(&Neighborhood::moore(), &params, &mut ScriptedSource::new(vec![9, 3, 10, 8]));
    assert_eq!(cells_of(&first), cells_of(&second));
}

#[test]
fn a_run_is_so_many_ticks() {
    let script: Vec<u32> = (0..50_000u32).map(|k| k.wrapping_mul(40_503) % 1_000_000).collect();
    let wild = ParameterSet::new(400_000, 100_000, 300_000, 5, 30).unwrap();
    let mut by_ticks = forest(10);
    by_ticks.set(4, 4, Cell::Fire(40));
    let mut by_run = by_ticks.clone();
    let mut first_rng = ScriptedSource::new(script.clone());
    let mut second_rng = ScriptedSource::new(script);
    for _ in 0..25 {
        by_ticks.tick(&Neighborhood::moore(), &wild, &mut first_rng);
    }
    by_run.run(&Neighborhood::moore(), &wild, &mut second_rng, 25);
    assert_eq!(cells_of(&by_run), cells_of(&by_ticks));
    assert_eq!(first_rng.left(), second_rng.left());
    assert!(first_rng.left() > 0);
}

#[test]
fn a_run_of_no_ticks_changes_nothing() {
    let mut grid = forest(6);
    grid.set(2, 2, Cell::Fire(300));
    let before = cells_of(&grid);
    let mut rng = ScriptedSource::new(vec![1, 2, 3]);
    grid.run(&Neighborhood::moore(), &ParameterSet::normal(), &mut rng, 0);
    assert_eq!(cells_of(&grid), before);
    assert_eq!(rng.left(), 3);
}

use firesim::cell::{Cell, Color, MAX_BURNT_AGE, MAX_FIRE_AGE, RETRY_BURNT_AGE};
use firesim::params::ParameterSet;
use firesim::random::ScriptedSource;
use firesim::rules::transition;

fn trees() -> [Cell; 8] {
    [Cell::Tree; 8]
}

#[test]
fn tree_without_burning_neighbour_stays_tree() {
    let sure = ParameterSet::new(1_000_000, 0, 0, 2, 1).unwrap();
    let around = [
        Cell::Tree,
        Cell::Empty,
        Cell::Water,
        Cell::Edge,
        Cell::Burnt(3),
        Cell::Tree,
        Cell::Burnt(650),
        Cell::Empty,
    ];
    let mut rng = ScriptedSource::new(vec![0, 0, 0]);
    assert_eq!(transition(Cell::Tree, &around, &sure, &mut rng), Cell::Tree);
    assert_eq!(rng.left(), 3);
}

#[test]
fn tree_catches_fire_at_first_hit() {
    let half = ParameterSet::new(500_000, 0, 0, 2, 1).unwrap();
    let mut around = trees();
    around[1] = Cell::Fire(5);
    around[3] = Cell::Fire(1);
    around[6] = Cell::Fire(300);
    let mut rng = ScriptedSource::new(vec![700_000, 100_000, 5, 6]);
    assert_eq!(transition(Cell::Tree, &around, &half, &mut rng), Cell::Fire(MAX_FIRE_AGE));
    assert_eq!(rng.left(), 2);
}

#[test]
fn tree_spends_one_draw_on_each_burning_neighbour() {
    let half = ParameterSet::new(500_000, 0, 0, 2, 1).unwrap();
    let mut around = trees();
    around[0] = Cell::Fire(5);
    around[4] = Cell::Fire(1);
    around[7] = Cell::Fire(300);
    let mut rng = ScriptedSource::new(vec![500_000, 999_999, 500_001, 1, 2]);
    assert_eq!(transition(Cell::Tree, &around, &half, &mut rng), Cell::Tree);
    assert_eq!(rng.left(), 2);
}

#[test]
fn tree_is_lit_by_the_last_neighbour() {
    let half = ParameterSet::new(500_000, 0, 0, 2, 1).unwrap();
    let mut around = trees();
    around[7] = Cell::Fire(9);
    let mut rng = ScriptedSource::new(vec![499_999]);
    assert_eq!(transition(Cell::Tree, &around, &half, &mut rng), Cell::Fire(300));
    assert_eq!(rng.left(), 0);
}

#[test]
fn a_chance_of_zero_never_lights_a_tree() {
    let never = ParameterSet::new(0, 0, 0, 2, 1).unwrap();
    let around = [Cell::Fire(300); 8];
    let mut rng = ScriptedSource::new(vec![0; 8]);
    assert_eq!(transition(Cell::Tree, &around, &never, &mut rng), Cell::Tree);
    assert_eq!(rng.left(), 0);
}

#[test]
fn fire_loses_the_age_drawn() {
    let fast = ParameterSet::accelerated();
    let mut rng = ScriptedSource::new(vec![7, 19, 0]);
    assert_eq!(transition(Cell::Fire(25), &trees(), &fast, &mut rng), Cell::Fire(18));
    assert_eq!(transition(Cell::Fire(19), &trees(), &fast, &mut rng), Cell::Fire(0));
    assert_eq!(transition(Cell::Fire(300), &trees(), &fast, &mut rng), Cell::Fire(300));
    assert_eq!(rng.left(), 0);
}

#[test]
fn fire_below_the_decay_threshold_goes_out() {
    let fast = ParameterSet::accelerated();
    let mut rng = ScriptedSource::new(vec![1, 1]);
    assert_eq!(transition(Cell::Fire(18), &trees(), &fast, &mut rng), Cell::Burnt(MAX_BURNT_AGE));
    assert_eq!(transition(Cell::Fire(0), &trees(), &fast, &mut rng), Cell::Burnt(650));
    assert_eq!(rng.left(), 2);
}

#[test]
fn fire_under_the_everyday_profile() {
    let normal = ParameterSet::normal();
    let mut rng = ScriptedSource::new(vec![1, 0, 1]);
    assert_eq!(transition(Cell::Fire(1), &trees(), &normal, &mut rng), Cell::Fire(0));
    assert_eq!(transition(Cell::Fire(1), &trees(), &normal, &mut rng), Cell::Fire(1));
    assert_eq!(transition(Cell::Fire(0), &trees(), &normal, &mut rng), Cell::Burnt(650));
    assert_eq!(rng.left(), 1);
}

#[test]
fn fire_never_gains_age() {
    let fast = ParameterSet::accelerated();
    for age in 0..=400u32 {
        for loss in 0..20u32 {
            let mut rng = ScriptedSource::new(vec![loss]);
            match transition(Cell::Fire(age), &trees(), &fast, &mut rng) {
                Cell::Fire(left) => {
                    assert!(age >= 19);
                    assert_eq!(left, age - loss);
                    assert!(left <= age);
                }
                Cell::Burnt(left) => {
                    assert!(age < 19);
                    assert_eq!(left, MAX_BURNT_AGE);
                }
                other => panic!("fire became {:?}", other),
            }
        }
    }
}

#[test]
fn a_decay_multiplier_of_one_keeps_the_fire_as_it_is() {
    let slow = ParameterSet::new(0, 0, 0, 1, 1).unwrap();
    let mut rng = ScriptedSource::new(vec![5, 5]);
    assert_eq!(transition(Cell::Fire(0), &trees(), &slow, &mut rng), Cell::Fire(0));
    assert_eq!(transition(Cell::Fire(7), &trees(), &slow, &mut rng), Cell::Fire(7));
}

#[test]
fn empty_ground_grows_a_tree_on_a_hit() {
    let normal = ParameterSet::normal();
    let mut rng = ScriptedSource::new(vec![4, 5, 0]);
    assert_eq!(transition(Cell::Empty, &trees(), &normal, &mut rng), Cell::Tree);
    assert_eq!(transition(Cell::Empty, &trees(), &normal, &mut rng), Cell::Empty);
    assert_eq!(transition(Cell::Empty, &trees(), &normal, &mut rng), Cell::Tree);
    assert_eq!(rng.left(), 0);
}

#[test]
fn burnt_ground_ages_down_to_the_threshold() {
    let fast = ParameterSet::accelerated();
    let mut rng = ScriptedSource::new(vec![0]);
    assert_eq!(transition(Cell::Burnt(650), &trees(), &fast, &mut rng), Cell::Burnt(649));
    assert_eq!(transition(Cell::Burnt(551), &trees(), &fast, &mut rng), Cell::Burnt(550));
    assert_eq!(rng.left(), 1);
    let normal = ParameterSet::normal();
    assert_eq!(transition(Cell::Burnt(1), &trees(), &normal, &mut rng), Cell::Burnt(0));
    assert_eq!(rng.left(), 1);
}

#[test]
fn burnt_ground_below_the_threshold_is_reclaimed_or_starts_over() {
    let normal = ParameterSet::normal();
    let mut rng = ScriptedSource::new(vec![199, 200]);
    assert_eq!(transition(Cell::Burnt(0), &trees(), &normal, &mut rng), Cell::Empty);
    assert_eq!(transition(Cell::Burnt(0), &trees(), &normal, &mut rng), Cell::Burnt(RETRY_BURNT_AGE));
    let fast = ParameterSet::accelerated();
    let mut rng = ScriptedSource::new(vec![999, 1_000]);
    assert_eq!(transition(Cell::Burnt(550), &trees(), &fast, &mut rng), Cell::Empty);
    assert_eq!(transition(Cell::Burnt(550), &trees(), &fast, &mut rng), Cell::Burnt(20));
}

#[test]
fn burnt_ground_is_never_reclaimed_at_a_chance_of_zero() {
    let stuck = ParameterSet::new(0, 0, 0, 2, 551).unwrap();
    let mut rng = ScriptedSource::new(vec![0; 64]);
    let mut cell = Cell::Burnt(7);
    for _ in 0..50 {
        cell = transition(cell, &trees(), &stuck, &mut rng);
        assert_eq!(cell, Cell::Burnt(20));
    }
    assert_eq!(rng.left(), 14);
}

#[test]
fn burnt_ground_cycles_through_the_retry_age() {
    let stuck = ParameterSet::new(0, 0, 0, 2, 18).unwrap();
    let mut rng = ScriptedSource::new(vec![]);
    let mut cell = Cell::Burnt(17);
    let mut seen = Vec::new();
    for _ in 0..8 {
        cell = transition(cell, &trees(), &stuck, &mut rng);
        seen.push(cell);
    }
    assert_eq!(
        seen,
        vec![
            Cell::Burnt(20),
            Cell::Burnt(19),
            Cell::Burnt(18),
            Cell::Burnt(17),
            Cell::Burnt(20),
            Cell::Burnt(19),
            Cell::Burnt(18),
            Cell::Burnt(17),
        ]
    );
}

#[test]
fn water_and_edge_never_change() {
    let sure = ParameterSet::new(1_000_000, 1_000_000, 1_000_000, 2, 1).unwrap();
    let around = [Cell::Fire(300); 8];
    let mut rng = ScriptedSource::new(vec![0, 0]);
    assert_eq!(transition(Cell::Water, &around, &sure, &mut rng), Cell::Water);
    assert_eq!(transition(Cell::Edge, &around, &sure, &mut rng), Cell::Edge);
    assert_eq!(rng.left(), 2);
}

#[test]
fn colours_of_the_cells() {
    assert_eq!(Cell::Edge.color(), Color::White);
    assert_eq!(Cell::Empty.color(), Color::Brown);
    assert_eq!(Cell::Tree.color(), Color::Green);
    assert_eq!(Cell::Water.color(), Color::Blue);
    assert_eq!(Cell::Burnt(0).color(), Color::Grey);
    assert_eq!(Cell::Burnt(650).color(), Color::Grey);
}

#[test]
fn colours_of_a_fire_by_age() {
    assert_eq!(Cell::Fire(300).color(), Color::Yellow);
    assert_eq!(Cell::Fire(201).color(), Color::Yellow);
    assert_eq!(Cell::Fire(200).color(), Color::Orange);
    assert_eq!(Cell::Fire(151).color(), Color::Orange);
    assert_eq!(Cell::Fire(150).color(), Color::Red);
    assert_eq!(Cell::Fire(0).color(), Color::Red);
    assert_eq!(Cell::Fire(4_000).color(), Color::Yellow);
}

#[test]
fn is_burning_tells_fire_from_the_rest() {
    assert!(Cell::Fire(0).is_burning());
    assert!(Cell::Fire(300).is_burning());
    assert!(!Cell::Burnt(300).is_burning());
    assert!(!Cell::Tree.is_burning());
    assert!(!Cell::Empty.is_burning());
    assert!(!Cell::Water.is_burning());
    assert!(!Cell::Edge.is_burning());
}

use particle_life::config::{NUM_TYPES, PARTICLES_PER_TYPE};
use particle_life::particles::spawn_types;
use particle_life::physics::apply_interactions;
use particle_life::resources::SimState;
use particle_life::spatial_grid::SpatialGrid;

#[test]
fn empty_grid_finds_nothing() {
    let g = SpatialGrid::new();
    assert!(g.query_neighbors((0, 0)).is_empty());
    let d = SpatialGrid::default();
    assert!(d.query_neighbors((5, -7)).is_empty());
}

#[test]
fn insert_then_query_finds_item_from_every_touching_cell() {
    let mut g = SpatialGrid::new();
    g.insert((3, -2), 7);
    for dx in -1..=1 {
        for dy in -1..=1 {
            assert_eq!(g.query_neighbors((3 + dx, -2 + dy)), vec![7]);
        }
    }
    assert!(g.query_neighbors((5, -2)).is_empty());
    assert!(g.query_neighbors((3, 0)).is_empty());
    assert!(g.query_neighbors((1, -4)).is_empty());
}

#[test]
fn query_order_is_column_then_row_then_insertion() {
    let mut g = SpatialGrid::new();
    g.insert((1, 1), 10);
    g.insert((0, 0), 20);
    g.insert((-1, 1), 30);
    g.insert((0, 0), 21);
    g.insert((-1, -1), 40);
    g.insert((1, -1), 50);
    g.insert((0, 1), 60);
    // cells visited: (-1,-1) (-1,0) (-1,1) (0,-1) (0,0) (0,1) (1,-1) (1,0) (1,1)
    assert_eq!(g.query_neighbors((0, 0)), vec![40, 30, 20, 21, 60, 50, 10]);
}

#[test]
fn negative_and_positive_cells_are_distinct() {
    let mut g = SpatialGrid::new();
    g.insert((-1, 0), 1);
    g.insert((0, -1), 2);
    assert_eq!(g.query_neighbors((-2, 0)), vec![1]);
    assert_eq!(g.query_neighbors((0, -2)), vec![2]);
    assert!(g.query_neighbors((-3, 0)).is_empty());
}

#[test]
fn grid_wraps_around_the_world() {
    let mut g = SpatialGrid::new();
    // opposite edges touch
    g.insert((-10, 0), 1);
    assert_eq!(g.query_neighbors((9, 0)), vec![1]);
    assert_eq!(g.query_neighbors((9, 1)), vec![1]);
    assert!(g.query_neighbors((8, 0)).is_empty());
    // a column beyond the edge names the same cell as its wrapped column
    g.insert((13, 4), 2);
    assert_eq!(g.query_neighbors((-7, 4)), vec![2]);
    assert_eq!(g.query_neighbors((-7, 24)), vec![2]);
    // column 10 is column -10
    g.insert((10, 0), 3);
    assert_eq!(g.query_neighbors((-10, 0)), vec![1, 3]);
    // extreme keys wrap too
    g.insert((i32::MAX, i32::MIN), 4);
    assert_eq!(g.query_neighbors((7, -8)), vec![4]);
    assert_eq!(g.query_neighbors((i32::MAX, i32::MIN)), vec![4]);
    // corners touch diagonally
    let mut h = SpatialGrid::new();
    h.insert((9, 9), 5);
    assert_eq!(h.query_neighbors((-10, -10)), vec![5]);
}

#[test]
fn clear_empties_every_cell() {
    let mut g = SpatialGrid::new();
    g.insert((0, 0), 1);
    g.insert((4, 4), 2);
    g.clear();
    assert!(g.query_neighbors((0, 0)).is_empty());
    assert!(g.query_neighbors((4, 4)).is_empty());
}

#[test]
fn paused_step_does_nothing() {
    let mut g = SpatialGrid::new();
    g.insert((9, 9), 5);
    let state = SimState { paused: true, show_matrix_editor: false };
    let res = apply_interactions(&mut g, &state, &vec![(0, 0), (0, 1)]);
    assert!(res.is_none());
    assert_eq!(g.query_neighbors((9, 9)), vec![5]);
    assert!(g.query_neighbors((0, 0)).is_empty());
}

#[test]
fn step_lists_touching_particles_without_self() {
    let mut g = SpatialGrid::new();
    g.insert((5, 5), 99);
    let state = SimState::default();
    let cells = vec![(0, 0), (1, 1), (0, 0), (3, 0), (-1, 0), (2, 1)];
    let res = apply_interactions(&mut g, &state, &cells).unwrap();
    // the grid was rebuilt from the cells
    assert!(g.query_neighbors((5, 5)).is_empty());
    assert_eq!(g.query_neighbors((0, 0)), vec![4, 0, 2, 1]);
    assert_eq!(res.len(), 6);
    assert_eq!(res[0], vec![4, 2, 1]);
    assert_eq!(res[1], vec![0, 2, 5]);
    assert_eq!(res[2], vec![4, 0, 1]);
    assert_eq!(res[3], vec![5]);
    assert_eq!(res[4], vec![0, 2]);
    assert_eq!(res[5], vec![1, 3]);
}

fn wrap(c: i32) -> i32 {
    (c + 10).rem_euclid(20) - 10
}

fn touching(a: (i32, i32), b: (i32, i32)) -> bool {
    wrap(a.0 - b.0).abs() <= 1 && wrap(a.1 - b.1).abs() <= 1
}

fn check_step(cells: &Vec<(i32, i32)>) {
    let mut g = SpatialGrid::new();
    let res = apply_interactions(&mut g, &SimState::default(), cells).unwrap();
    assert_eq!(res.len(), cells.len());
    for i in 0..cells.len() {
        let mut seen = res[i].clone();
        seen.sort();
        seen.dedup();
        assert_eq!(seen.len(), res[i].len());
        for j in 0..cells.len() {
            let expected = i != j && touching(cells[i], cells[j]);
            assert_eq!(res[i].contains(&j), expected);
            assert_eq!(res[i].contains(&j), res[j].contains(&i));
        }
    }
}

#[test]
fn step_neighbours_are_mutual_and_unique() {
    let cells: Vec<(i32, i32)> = (0..40).map(|i: i32| ((i * 7) % 5 - 2, (i * 3) % 4 - 1)).collect();
    check_step(&cells);
}

#[test]
fn step_neighbours_across_the_edges() {
    let cells: Vec<(i32, i32)> =
        (0..60).map(|i: i32| ((i * 7) % 20 - 10, (i * 11) % 20 - 10)).collect();
    check_step(&cells);
    let edges = vec![(-10, 0), (9, 0), (0, -10), (0, 9), (-10, -10), (9, 9), (10, 5)];
    check_step(&edges);
    let mut g = SpatialGrid::new();
    let res = apply_interactions(&mut g, &SimState::default(), &edges).unwrap();
    assert_eq!(res[0], vec![1]);
    assert_eq!(res[1], vec![0]);
    assert_eq!(res[4], vec![5]);
    assert_eq!(res[5], vec![4]);
    assert!(res[6].is_empty());
}

#[test]
fn empty_world_step() {
    let mut g = SpatialGrid::new();
    let res = apply_interactions(&mut g, &SimState::default(), &Vec::new()).unwrap();
    assert!(res.is_empty());
}

#[test]
fn spawn_layout() {
    let types = spawn_types();
    assert_eq!(types.len(), NUM_TYPES * PARTICLES_PER_TYPE);
    assert_eq!(types.len(), 600);
    for (i, t) in types.iter().enumerate() {
        assert_eq!(t.0, i / PARTICLES_PER_TYPE);
    }
    for t in 0..NUM_TYPES {
        assert_eq!(types.iter().filter(|p| p.0 == t).count(), PARTICLES_PER_TYPE);
    }
    assert_eq!(types[0].0, 0);
    assert_eq!(types[99].0, 0);
    assert_eq!(types[100].0, 1);
    assert_eq!(types[599].0, 5);
}

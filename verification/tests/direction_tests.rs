use fluid_sim::cell::Cell;
use fluid_sim::direction::{
    cell_corners, defined_corners, is_position_defined, DefinedPositionsRetrivable, PosDirection,
    X, Y,
};
use fluid_sim::particle_grid::ParticleGrid;

#[test]
fn axis_indices() {
    assert_eq!(X::INDEX, 0);
    assert_eq!(Y::INDEX, 1);
}

#[test]
fn defined_positions_look_back_along_the_axis() {
    assert_eq!(X::defined_positions(&[0, 4]), None);
    assert_eq!(X::defined_positions(&[3, 4]), Some([[3, 4], [2, 4]]));
    assert_eq!(Y::defined_positions(&[3, 0]), None);
    assert_eq!(Y::defined_positions(&[3, 4]), Some([[3, 4], [3, 3]]));
}

#[test]
fn only_stored_empty_cells_count_as_air() {
    let mut g = ParticleGrid::new([4, 4]);
    assert!(is_position_defined::<X>(&[2, 1], &g));
    assert!(is_position_defined::<X>(&[0, 1], &g));
    g.add_particle([1, 1], 0);
    assert!(is_position_defined::<X>(&[2, 1], &g));
    g.0.insert([2, 1], Cell(vec![]));
    assert!(is_position_defined::<X>(&[2, 1], &g));
    g.0.insert([1, 1], Cell(vec![]));
    assert!(!is_position_defined::<X>(&[2, 1], &g));
    assert!(!is_position_defined::<Y>(&[2, 0], &{
        let mut h = ParticleGrid::new([4, 4]);
        h.0.insert([2, 0], Cell(vec![]));
        h
    }));
}

#[test]
fn corners_of_a_cell() {
    assert_eq!(cell_corners([2, 5]), [[2, 5], [3, 5], [2, 6], [3, 6]]);
}

#[test]
fn all_corners_defined_without_empty_cells() {
    let mut g = ParticleGrid::new([4, 4]);
    g.add_particle([1, 1], 0);
    assert_eq!(
        defined_corners::<Y>([1, 1], &g),
        vec![[1, 1], [2, 1], [1, 2], [2, 2]]
    );
}

#[test]
fn empty_cells_drop_corners() {
    let mut g = ParticleGrid::new([4, 4]);
    g.0.insert([1, 1], Cell(vec![]));
    g.0.insert([2, 1], Cell(vec![]));
    // For x samples: [1,1] borders [1,1],[0,1]; [2,1] borders [2,1],[1,1] (both air).
    assert_eq!(defined_corners::<X>([1, 1], &g), vec![[1, 1], [1, 2], [2, 2]]);
}

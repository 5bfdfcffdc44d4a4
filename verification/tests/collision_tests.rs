use fluid_sim::collisions::NEIGHBOUR_KERNEL;
use fluid_sim::particle_grid::ParticleGrid;

#[test]
fn kernel_is_the_eight_surrounding_offsets() {
    assert_eq!(NEIGHBOUR_KERNEL.len(), 8);
    assert!(!NEIGHBOUR_KERNEL.contains(&[0, 0]));
    for dx in -1..=1 {
        for dy in -1..=1 {
            if dx != 0 || dy != 0 {
                assert!(NEIGHBOUR_KERNEL.contains(&[dx, dy]));
            }
        }
    }
}

#[test]
fn neighbouring_particles_are_candidates_from_both_sides() {
    let mut g = ParticleGrid::new([4, 4]);
    g.add_particle([1, 1], 0);
    g.add_particle([2, 1], 1);
    assert_eq!(g.collision_candidates(), vec![[1, 0], [1, 0]]);
}

#[test]
fn particles_of_one_cell_are_not_candidates() {
    let mut g = ParticleGrid::new([4, 4]);
    g.add_particle([1, 1], 0);
    g.add_particle([1, 1], 1);
    assert!(g.collision_candidates().is_empty());
}

#[test]
fn distant_particles_are_not_candidates() {
    let mut g = ParticleGrid::new([5, 5]);
    g.add_particle([0, 0], 0);
    g.add_particle([2, 0], 1);
    g.add_particle([4, 4], 2);
    assert!(g.collision_candidates().is_empty());
}

#[test]
fn candidate_order_follows_slots_and_kernel() {
    let mut g = ParticleGrid::new([3, 3]);
    g.add_particle([0, 0], 5);
    g.add_particle([1, 1], 2);
    g.add_particle([0, 1], 7);
    let c = g.collision_candidates();
    // slot 0 [0,0]: 5 with [0,1] -> 7 and [1,1] -> 2
    // slot 3 [0,1]: 7 with [0,0] -> 5 and [1,1] -> 2
    // slot 4 [1,1]: 2 with [0,0] -> 5 and [0,1] -> 7
    assert_eq!(c, vec![[7, 5], [5, 2], [7, 5], [7, 2], [5, 2], [7, 2]]);
    for key in &c {
        assert!(key[0] > key[1]);
    }
}

#[test]
fn empty_grid_has_no_candidates() {
    let g = ParticleGrid::new([3, 3]);
    assert!(g.collision_candidates().is_empty());
}

use fluid_sim::cell::Cell;
use fluid_sim::particle_grid::ParticleGrid;

fn tracks(grid: &ParticleGrid, positions: &[[u32; 2]]) -> bool {
    for (k, cell) in grid.0 .0.iter().enumerate() {
        if let Some(cell) = cell {
            if cell.0.is_empty() {
                return false;
            }
            for &j in &cell.0 {
                if j >= positions.len() || grid.0.index(positions[j]) != Some(k) {
                    return false;
                }
            }
        }
    }
    for (j, pos) in positions.iter().enumerate() {
        let count: usize = grid
            .0
             .0
            .iter()
            .flatten()
            .map(|c| c.0.iter().filter(|&&x| x == j).count())
            .sum();
        let expected = if grid.0.index(*pos).is_some() { 1 } else { 0 };
        if count != expected {
            return false;
        }
    }
    true
}

#[test]
fn new_particle_grid_is_empty() {
    let g = ParticleGrid::new([4, 3]);
    assert_eq!(g.0 .0.len(), 12);
    assert!(g.0 .0.iter().all(|c| c.is_none()));
    assert!(tracks(&g, &[]));
}

#[test]
fn add_particle_creates_then_extends_a_cell() {
    let mut g = ParticleGrid::new([4, 4]);
    g.add_particle([1, 2], 0);
    assert_eq!(g.0.get([1, 2]).unwrap().0, vec![0]);
    g.add_particle([1, 2], 1);
    assert_eq!(g.0.get([1, 2]).unwrap().0, vec![0, 1]);
    assert!(tracks(&g, &[[1, 2], [1, 2]]));
}

#[test]
fn add_particle_outside_is_ignored() {
    let mut g = ParticleGrid::new([4, 4]);
    g.add_particle([9, 1], 0);
    assert!(g.0 .0.iter().all(|c| c.is_none()));
    assert!(tracks(&g, &[[9, 1]]));
}

#[test]
fn move_reports_removed_old_cell() {
    let mut g = ParticleGrid::new([4, 4]);
    g.add_particle([1, 1], 0);
    g.add_particle([1, 1], 1);
    assert!(!g.move_particle_grid_pos([1, 1], [2, 1], 0));
    assert_eq!(g.0.get([1, 1]).unwrap().0, vec![1]);
    assert_eq!(g.0.get([2, 1]).unwrap().0, vec![0]);
    assert!(g.move_particle_grid_pos([1, 1], [2, 1], 1));
    assert!(g.0.get([1, 1]).is_none());
    assert_eq!(g.0.get([2, 1]).unwrap().0, vec![0, 1]);
}

#[test]
fn move_to_same_cell_keeps_the_particle() {
    let mut g = ParticleGrid::new([3, 3]);
    g.add_particle([0, 0], 0);
    assert!(g.move_particle_grid_pos([0, 0], [0, 0], 0));
    assert_eq!(g.0.get([0, 0]).unwrap().0, vec![0]);
}

#[test]
fn move_in_and_out_of_the_grid() {
    let mut g = ParticleGrid::new([3, 3]);
    g.add_particle([5, 5], 0);
    assert!(!g.move_particle_grid_pos([5, 5], [2, 2], 0));
    assert_eq!(g.0.get([2, 2]).unwrap().0, vec![0]);
    assert!(g.move_particle_grid_pos([2, 2], [3, 0], 0));
    assert!(g.0 .0.iter().all(|c| c.is_none()));
}

#[test]
fn moves_keep_the_index_exact() {
    let mut g = ParticleGrid::new([5, 4]);
    let mut positions: Vec<[u32; 2]> = Vec::new();
    for i in 0..12u32 {
        let p = [(i * 7) % 6, (i * 3) % 5];
        g.add_particle(p, positions.len());
        positions.push(p);
        assert!(tracks(&g, &positions));
    }
    for step in 0..60u32 {
        let i = ((step * 5) % 12) as usize;
        let p = [(step * 11 + 1) % 6, (step * 13 + 2) % 5];
        let was_alone = g.0.get(positions[i]).map(|c| c.0 == vec![i]).unwrap_or(false);
        let removed = g.move_particle_grid_pos(positions[i], p, i);
        assert_eq!(removed, was_alone);
        positions[i] = p;
        assert!(tracks(&g, &positions));
    }
}

#[test]
fn is_wall_marks_border_cells() {
    let size = [4, 3];
    assert!(ParticleGrid::is_wall(size, [0, 1]));
    assert!(ParticleGrid::is_wall(size, [3, 1]));
    assert!(ParticleGrid::is_wall(size, [1, 0]));
    assert!(ParticleGrid::is_wall(size, [1, 2]));
    assert!(!ParticleGrid::is_wall(size, [1, 1]));
    assert!(!ParticleGrid::is_wall(size, [2, 1]));
    assert!(!ParticleGrid::is_wall(size, [5, 1]));
    assert!(ParticleGrid::is_wall([1, 1], [0, 0]));
}

#[test]
fn divergence_faces_are_own_then_next() {
    assert_eq!(
        ParticleGrid::divergence_faces([3, 4]),
        [[3, 4], [3, 4], [4, 4], [3, 5]]
    );
}

#[test]
fn default_particle_grid_has_no_cells() {
    let g = ParticleGrid::default();
    assert!(g.0 .0.is_empty());
    let c = Cell::default();
    assert!(c.is_empty());
}

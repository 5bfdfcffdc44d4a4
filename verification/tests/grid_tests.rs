use fluid_sim::grid::Grid;

#[test]
fn new_grid_is_empty_with_one_slot_per_cell() {
    let g: Grid<u8> = Grid::new([3, 2]);
    assert_eq!(g.0.len(), 6);
    assert_eq!(g.1, [3, 2]);
    assert!(g.0.iter().all(|c| c.is_none()));
}

#[test]
fn zero_sized_grid_has_no_slots() {
    let g: Grid<u8> = Grid::new([0, 5]);
    assert_eq!(g.0.len(), 0);
    assert_eq!(g.index([0, 0]), None);
    assert_eq!(g.get([0, 0]), None);
}

#[test]
fn index_is_row_major() {
    let g: Grid<u8> = Grid::new([3, 2]);
    assert_eq!(g.index([0, 0]), Some(0));
    assert_eq!(g.index([2, 0]), Some(2));
    assert_eq!(g.index([0, 1]), Some(3));
    assert_eq!(g.index([2, 1]), Some(5));
    assert_eq!(g.index([3, 0]), None);
    assert_eq!(g.index([0, 2]), None);
    assert_eq!(g.index([u32::MAX, u32::MAX]), None);
}

#[test]
fn pos_and_index_are_inverse() {
    let g: Grid<u8> = Grid::new([4, 3]);
    for i in 0..12usize {
        assert_eq!(g.index(g.pos(i)), Some(i));
    }
    for x in 0..4u32 {
        for y in 0..3u32 {
            assert_eq!(g.pos(g.index([x, y]).unwrap()), [x, y]);
        }
    }
}

#[test]
fn pos_divides_by_width() {
    let g: Grid<u8> = Grid::new([5, 5]);
    assert_eq!(g.pos(7), [2, 1]);
    assert_eq!(g.pos(0), [0, 0]);
    assert_eq!(g.pos(24), [4, 4]);
}

#[test]
fn get_reads_back_insert_and_nothing_else_changes() {
    let mut g: Grid<u32> = Grid::new([3, 3]);
    g.insert([1, 2], 42);
    assert_eq!(g.get([1, 2]), Some(&42));
    assert_eq!(g.get([2, 1]), None);
    assert_eq!(g.0.iter().filter(|c| c.is_some()).count(), 1);
    g.insert([1, 2], 7);
    assert_eq!(g.get([1, 2]), Some(&7));
}

#[test]
fn insert_outside_does_nothing() {
    let mut g: Grid<u32> = Grid::new([2, 2]);
    g.insert([2, 0], 1);
    g.insert([0, 9], 1);
    assert!(g.0.iter().all(|c| c.is_none()));
}

#[test]
fn remove_empties_the_cell() {
    let mut g: Grid<u32> = Grid::new([2, 2]);
    g.insert([1, 1], 3);
    g.insert([0, 1], 4);
    g.remove([1, 1]);
    assert_eq!(g.get([1, 1]), None);
    assert_eq!(g.get([0, 1]), Some(&4));
    g.remove([5, 5]);
    assert_eq!(g.get([0, 1]), Some(&4));
}

#[test]
fn get_mut_reaches_empty_cells_inside_only() {
    let mut g: Grid<u32> = Grid::new([2, 2]);
    match g.get_mut([1, 0]) {
        Some(cell) => {
            assert!(cell.is_none());
            *cell = Some(8);
        }
        None => panic!("slot expected"),
    }
    assert_eq!(g.get([1, 0]), Some(&8));
    assert!(g.get_mut([2, 0]).is_none());
}

#[test]
fn get_mut_filled_skips_empty_cells() {
    let mut g: Grid<u32> = Grid::new([2, 2]);
    assert!(g.get_mut_filled([0, 0]).is_none());
    g.insert([0, 0], 1);
    *g.get_mut_filled([0, 0]).unwrap() += 10;
    assert_eq!(g.get([0, 0]), Some(&11));
}

#[test]
fn modify_or_insert_fills_then_keeps() {
    let mut g: Grid<f64> = Grid::new([2, 2]);
    *g.modify_or_insert([1, 1], 0.0).unwrap() += 0.5;
    *g.modify_or_insert([1, 1], 100.0).unwrap() += 0.25;
    assert_eq!(g.get([1, 1]), Some(&0.75));
    assert!(g.modify_or_insert([2, 2], 1.0).is_none());
    assert_eq!(g.0.iter().filter(|c| c.is_some()).count(), 1);
}

#[test]
fn clear_empties_every_cell_and_keeps_size() {
    let mut g: Grid<u32> = Grid::new([3, 1]);
    g.insert([0, 0], 1);
    g.insert([2, 0], 2);
    g.clear();
    assert_eq!(g.0.len(), 3);
    assert_eq!(g.1, [3, 1]);
    assert!(g.0.iter().all(|c| c.is_none()));
}

#[test]
fn default_grid_is_empty() {
    let g: Grid<u32> = Grid::default();
    assert_eq!(g.0.len(), 0);
    assert_eq!(g.1, [0, 0]);
}

#[test]
fn pos_takes_the_index_modulo_two_to_the_32() {
    let g: Grid<u8> = Grid::new([5, 5]);
    let big: u64 = (1u64 << 32) + 7;
    if usize::BITS == 64 {
        assert_eq!(g.pos(big as usize), [2, 1]);
    }
}

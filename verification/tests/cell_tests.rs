use fluid_sim::cell::Cell;

#[test]
fn insert_appends() {
    let mut c = Cell::default();
    assert!(c.is_empty());
    c.insert(5);
    c.insert(2);
    assert_eq!(c.0, vec![5, 2]);
    assert!(!c.is_empty());
}

#[test]
fn remove_takes_the_last_occurrence() {
    let mut c = Cell(vec![1, 2, 1, 3]);
    c.remove(1);
    assert_eq!(c.0, vec![1, 2, 3]);
    c.remove(1);
    assert_eq!(c.0, vec![2, 3]);
}

#[test]
fn remove_of_absent_key_does_nothing() {
    let mut c = Cell(vec![4, 5]);
    c.remove(6);
    assert_eq!(c.0, vec![4, 5]);
    let mut e = Cell(vec![]);
    e.remove(0);
    assert!(e.is_empty());
}

#[test]
fn remove_undoes_insert() {
    let mut c = Cell(vec![7, 3, 7]);
    c.insert(3);
    c.remove(3);
    assert_eq!(c.0, vec![7, 3, 7]);
}

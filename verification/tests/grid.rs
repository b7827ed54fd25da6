use mazegame::a2::A2;

#[test]
fn grid_new_is_filled() {
    let g: A2<u8> = A2::new((2, 3), 7);
    assert_eq!(g.dims(), (2, 3));
    assert_eq!(g.as_slice(), &[7, 7, 7, 7, 7, 7]);
    assert_eq!(g.sentinel(), 7);
    assert!(g.check());
}

#[test]
fn grid_set_then_get() {
    let mut g: A2<u32> = A2::new((3, 4), 0);
    for i in 0..3 {
        for j in 0..4 {
            g.set(i, j, (10 * i + j) as u32);
        }
    }
    for i in 0..3 {
        for j in 0..4 {
            assert_eq!(g.get(i, j), (10 * i + j) as u32);
        }
    }
    assert_eq!(g.as_slice(), &[0, 1, 2, 3, 10, 11, 12, 13, 20, 21, 22, 23]);
}

#[test]
fn grid_write_touches_one_cell() {
    let mut g: A2<u8> = A2::new((2, 2), 0);
    g.set(1, 0, 9);
    assert_eq!(g.get(0, 0), 0);
    assert_eq!(g.get(0, 1), 0);
    assert_eq!(g.get(1, 0), 9);
    assert_eq!(g.get(1, 1), 0);
}

#[test]
fn grid_reads_outside_give_sentinel() {
    let mut g: A2<u8> = A2::new((2, 2), 42);
    g.set(0, 0, 1);
    g.set(0, 1, 2);
    g.set(1, 0, 3);
    g.set(1, 1, 4);
    assert_eq!(g.get(2, 0), 42);
    assert_eq!(g.get(0, 2), 42);
    assert_eq!(g.get(usize::MAX, usize::MAX), 42);
    assert_eq!(g.get_signed(-1, 0), 42);
    assert_eq!(g.get_signed(0, -1), 42);
    assert_eq!(g.get_signed(isize::MIN, isize::MAX), 42);
    assert_eq!(g.get_signed(1, 1), 4);
}

#[test]
fn grid_signed_write() {
    let mut g: A2<u8> = A2::new((2, 2), 0);
    g.set_signed(1, 1, 5);
    assert_eq!(g.get(1, 1), 5);
    assert_eq!(g.get_signed(1, 1), 5);
}

#[test]
fn grid_write_in_place() {
    let mut g: A2<u8> = A2::new((2, 3), 0);
    *g.get_mut(1, 2) = 8;
    assert_eq!(g.as_slice(), &[0, 0, 0, 0, 0, 8]);
}

#[test]
fn grid_without_cells() {
    let g: A2<u8> = A2::new((0, 5), 3);
    assert_eq!(g.as_slice().len(), 0);
    assert_eq!(g.get(0, 0), 3);
}

#[test]
fn grid_from_store() {
    let g = A2::from_vec((2, 2), vec![1u8, 2, 3, 4], 0).unwrap();
    assert_eq!(g.get(0, 1), 2);
    assert_eq!(g.get(1, 0), 3);
    assert_eq!(g.get(5, 5), 0);
    assert!(A2::from_vec((2, 2), vec![1u8, 2, 3], 0).is_none());
    assert!(A2::from_vec((-1, 2), vec![1u8, 2], 0).is_none());
    assert!(A2::from_vec((isize::MAX, isize::MAX), vec![1u8], 0).is_none());
    assert!(A2::from_vec((0, isize::MAX), Vec::<u8>::new(), 0).is_some());
    assert!(A2::from_vec((isize::MAX, 2), Vec::<u8>::new(), 0).is_none());
}

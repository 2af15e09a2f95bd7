use graphics_year2::Const2D;
use graphics_year2::Dynamic2D;
use graphics_year2::ParallelGrid;

#[test]
fn const_fill_from_and_at() {
    let g: Const2D<i64, 3, 2> = Const2D::fill(7);
    assert_eq!(g.get_width(), 3);
    assert_eq!(g.get_height(), 2);
    assert_eq!(*g.at(1, 2), 7);

    let h: Const2D<i64, 2, 2> = Const2D::from([[1, 2], [3, 4]]);
    assert_eq!(*h.at(0, 0), 1);
    assert_eq!(*h.at(0, 1), 2);
    assert_eq!(*h.at(1, 0), 3);
    assert_eq!(*h.at(1, 1), 4);
}

#[test]
fn const_ident_diagonal() {
    let id: Const2D<i64, 4, 4> = Const2D::ident();
    for r in 0..4 {
        for c in 0..4 {
            assert_eq!(*id.at(r, c), if r == c { 1 } else { 0 });
        }
    }
}

#[test]
fn const_matmul_exact() {
    let a: Const2D<i64, 2, 2> = Const2D::from([[1, 2], [3, 4]]);
    let b: Const2D<i64, 2, 2> = Const2D::from([[5, 6], [7, 8]]);
    let c = a.matmul(&b);
    assert_eq!(*c.at(0, 0), 19);
    assert_eq!(*c.at(0, 1), 22);
    assert_eq!(*c.at(1, 0), 43);
    assert_eq!(*c.at(1, 1), 50);
}

#[test]
fn ident_matmul_is_neutral() {
    let a: Const2D<i64, 4, 4> = Const2D::from([
        [1, 2, 3, 4],
        [5, 6, 7, 8],
        [9, 10, 11, 12],
        [13, 14, 15, 16],
    ]);
    let id: Const2D<i64, 4, 4> = Const2D::ident();
    let c = id.matmul(&a);
    for r in 0..4 {
        for col in 0..4 {
            assert_eq!(*c.at(r, col), *a.at(r, col));
        }
    }
}

#[test]
fn dynamic_fill_new_and_sets() {
    let mut g = Dynamic2D::<i64>::new(3, 2);
    assert_eq!(g.get_width(), 3);
    assert_eq!(g.get_height(), 2);
    assert_eq!(*g.at(0, 0), 0);
    g.set(1, 2, 9);
    assert_eq!(*g.at(1, 2), 9);

    let f = Dynamic2D::fill(4i64, 2, 2);
    assert_eq!(*f.at(1, 1), 4);
}

#[test]
fn dynamic_add_row_and_col() {
    let mut g = Dynamic2D::<i64>::new(2, 1);
    g.add_row(vec![5, 6]);
    assert_eq!(g.get_height(), 2);
    assert_eq!(*g.at(1, 0), 5);
    assert_eq!(*g.at(1, 1), 6);
    g.add_col(&vec![7, 8]);
    assert_eq!(g.get_width(), 3);
    assert_eq!(*g.at(0, 2), 7);
    assert_eq!(*g.at(1, 2), 8);
}

#[test]
fn dynamic_from_copies() {
    let a: Const2D<i64, 2, 2> = Const2D::from([[1, 2], [3, 4]]);
    let d = Dynamic2D::from(&a);
    assert_eq!(d.get_width(), 2);
    assert_eq!(d.get_height(), 2);
    assert_eq!(*d.at(1, 0), 3);
}

#[test]
fn dynamic_ident_and_matmul() {
    let id = Dynamic2D::<i64>::ident(4);
    let mut m = Dynamic2D::<i64>::new(2, 4);
    m.set(0, 0, 1);
    m.set(1, 0, 2);
    m.set(2, 0, 3);
    m.set(3, 0, 1);
    m.set(0, 1, 4);
    m.set(1, 1, 5);
    m.set(2, 1, 6);
    m.set(3, 1, 1);
    let p = id.matmul(&m);
    for r in 0..4 {
        for c in 0..2 {
            assert_eq!(*p.at(r, c), *m.at(r, c));
        }
    }
}

use thriller_core::{Dim, Dimension, Layout, Shape};

#[test]
fn test_strides() {
    let layout_0 = Layout::RowMajor;
    let shape_0 = Shape::new(&[2, 3, 4], layout_0);
    let strides_0 = shape_0.get_strides();

    assert_eq!(strides_0.slice(), &[12, 4, 1]);

    let layout_1 = Layout::ColumnMajor;
    let shape_1 = Shape::new(&[2, 3, 4], layout_1);
    let strides_1 = shape_1.get_strides();

    assert_eq!(strides_1.slice(), &[1, 2, 6]);
}

#[test]
fn dim_keeps_its_axes() {
    let dim = Dim::new(&[7, 0, 9, 11, 13, 17]);
    assert_eq!(dim.ndim(), 6);
    assert_eq!(dim.slice(), &[7, 0, 9, 11, 13, 17]);
    let copy = dim.clone();
    assert_eq!(copy.slice(), dim.slice());
    assert_eq!(copy.ndim(), 6);
}

#[test]
fn zeros_are_zero() {
    let dim = Dim::zeros(5);
    assert_eq!(dim.ndim(), 5);
    assert_eq!(dim.slice(), &[0, 0, 0, 0, 0]);
    assert_eq!(Dim::zeros(0).slice(), &[] as &[usize]);
}

#[test]
fn strides_of_an_empty_array_are_zero() {
    let dim = Dim::new(&[2, 0, 4]);
    assert_eq!(dim.default_strides().slice(), &[0, 0, 0]);
    assert_eq!(dim.fortran_strides().slice(), &[0, 0, 0]);
}

#[test]
fn strides_of_one_axis_and_of_none() {
    let dim = Dim::new(&[5]);
    assert_eq!(dim.default_strides().slice(), &[1]);
    assert_eq!(dim.fortran_strides().slice(), &[1]);
    let none = Dim::new(&[]);
    assert_eq!(none.default_strides().slice(), &[] as &[usize]);
    assert_eq!(none.fortran_strides().slice(), &[] as &[usize]);
}

#[test]
fn strides_of_five_axes_leave_the_inline_store() {
    let dim = Dim::new(&[2, 3, 4, 5, 6]);
    assert_eq!(dim.default_strides().slice(), &[360, 120, 30, 6, 1]);
    assert_eq!(dim.fortran_strides().slice(), &[1, 2, 6, 24, 120]);
}

#[test]
fn checked_strides_refuse_what_does_not_fit() {
    let big = usize::MAX / 2;
    let shape = Shape::new(&[2, big, 3], Layout::RowMajor);
    assert!(shape.checked_strides().is_none());
    // column-major: the strides are 1, 2 and 2 * big, which fit
    let shape = Shape::new(&[2, big, 3], Layout::ColumnMajor);
    let strides = shape.checked_strides().unwrap();
    assert_eq!(strides.slice(), &[1, 2, 2 * big]);
    let shape = Shape::new(&[2, 3, big, 3], Layout::ColumnMajor);
    assert!(shape.checked_strides().is_none());
    // the first axis does not enter the row-major strides
    let shape = Shape::new(&[usize::MAX, 3, 4], Layout::RowMajor);
    assert_eq!(shape.checked_strides().unwrap().slice(), &[12, 4, 1]);
}

#[test]
fn custom_layout_has_no_computed_strides() {
    let shape = Shape::new(&[2, 3], Layout::Custom(Dim::new(&[1, 2])));
    assert!(shape.checked_strides().is_none());
}

#[test]
fn shapes_are_compared_by_axes_and_layout() {
    let a = Shape::new(&[2, 3], Layout::RowMajor);
    let b = Shape::new(&[2, 3], Layout::RowMajor);
    let c = Shape::new(&[2, 3], Layout::ColumnMajor);
    let d = Shape::new(&[3, 2], Layout::RowMajor);
    let e = Shape::new(&[2, 3], Layout::Custom(Dim::new(&[3, 1])));
    let f = Shape::new(&[2, 3], Layout::Custom(Dim::new(&[3, 1])));
    let g = Shape::new(&[2, 3], Layout::Custom(Dim::new(&[1, 2])));
    assert!(a.same_as(&b));
    assert!(!a.same_as(&c));
    assert!(!a.same_as(&d));
    assert!(!a.same_as(&e));
    assert!(e.same_as(&f));
    assert!(!e.same_as(&g));
}

use color_life::matrix::{OutOfBoundsError, SmallMatrix, UnachieveableSize};

#[test]
fn new_rejects_zero_rows() {
    let r: Result<SmallMatrix<u32>, UnachieveableSize> = SmallMatrix::new(0, 7);
    assert!(r.is_err());
}

#[test]
fn new_rejects_zero_columns() {
    let r: Result<SmallMatrix<u32>, UnachieveableSize> = SmallMatrix::new(5, 0);
    assert!(r.is_err());
}

#[test]
fn new_rejects_overflowing_product() {
    let r: Result<SmallMatrix<u32>, UnachieveableSize> = SmallMatrix::new(usize::MAX, 2);
    assert!(r.is_err());
}

#[test]
fn new_fills_with_default() {
    let m: SmallMatrix<u32> = SmallMatrix::new(2, 3).unwrap();
    assert_eq!(m.get_size(), (2, 3));
    for x in 0..2 {
        for y in 0..3 {
            assert_eq!(*m.get_val_at(x, y).unwrap(), 0u32);
        }
    }
}

#[test]
fn get_uses_half_open_bounds() {
    let m: SmallMatrix<u32> = SmallMatrix::new(2, 3).unwrap();
    assert!(m.get_val_at(1, 2).is_ok());
    assert!(m.get_val_at(2, 0).is_err());
    assert!(m.get_val_at(0, 3).is_err());
    assert!(m.get_val_at(2, 3).is_err());
    assert!(m.get_val_at(usize::MAX, 0).is_err());
}

#[test]
fn set_then_get_round_trip() {
    let mut m: SmallMatrix<u32> = SmallMatrix::new(3, 3).unwrap();
    assert!(m.set_val_at(1, 2, 9).is_ok());
    assert_eq!(*m.get_val_at(1, 2).unwrap(), 9);
    assert_eq!(*m.get_val_at(2, 1).unwrap(), 0);
    assert!(m.set_val_at(3, 0, 5).is_err());
    assert!(m.set_val_at(0, 3, 5).is_err());
}

#[test]
fn get_mut_updates_one_cell() {
    let mut m: SmallMatrix<u32> = SmallMatrix::new(2, 2).unwrap();
    *m.get_mut_val_at(1, 1).unwrap() = 5;
    assert_eq!(*m.get_val_at(1, 1).unwrap(), 5);
    assert_eq!(*m.get_val_at(0, 0).unwrap(), 0);
    assert_eq!(*m.get_val_at(0, 1).unwrap(), 0);
    assert_eq!(*m.get_val_at(1, 0).unwrap(), 0);
    assert!(m.get_mut_val_at(2, 0).is_err());
    assert!(m.get_mut_val_at(0, 2).is_err());
}

#[test]
fn linear_view_is_row_major() {
    let mut m: SmallMatrix<u32> = SmallMatrix::new(2, 2).unwrap();
    m.set_val_at(0, 0, 1).unwrap();
    m.set_val_at(0, 1, 2).unwrap();
    m.set_val_at(1, 0, 3).unwrap();
    m.set_val_at(1, 1, 4).unwrap();
    assert_eq!(m.linear_view().as_slice(), &[1, 2, 3, 4]);
}

#[test]
fn error_messages() {
    assert_eq!(
        OutOfBoundsError.message(),
        "Program tried to access memory outside of bounds"
    );
    assert_eq!(
        UnachieveableSize.message(),
        "Program tried to create a matrix with an unachievable size"
    );
}

use peak_vista::{field_index, FIELD_LEN, FIELD_SIDE};

#[test]
fn field_is_256_by_256() {
    assert_eq!(FIELD_SIDE, 256);
    assert_eq!(FIELD_LEN, 65536);
    assert_eq!(FIELD_SIDE * FIELD_SIDE, FIELD_LEN);
}

#[test]
fn field_index_is_row_major() {
    assert_eq!(field_index(0, 0), Some(0));
    assert_eq!(field_index(0, 1), Some(1));
    assert_eq!(field_index(1, 0), Some(256));
    assert_eq!(field_index(3, 7), Some(775));
    assert_eq!(field_index(255, 255), Some(65535));
}

#[test]
fn field_index_refuses_cells_outside_the_grid() {
    assert_eq!(field_index(256, 0), None);
    assert_eq!(field_index(0, 256), None);
    assert_eq!(field_index(usize::MAX, usize::MAX), None);
}

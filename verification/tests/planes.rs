use dct_image_compression::coeff_block::CoeffBlock;
use dct_image_compression::error::EncodeError;
use dct_image_compression::plane::Plane;
use dct_image_compression::shifted_plane::ShiftedPlane;

#[test]
fn a_plane_is_laid_out_row_by_row() {
    let p = Plane::from_vec(2, 3, vec![1, 2, 3, 4, 5, 6]).unwrap();
    assert_eq!(p.extent(), (2, 3));
    assert_eq!((p.rows(), p.cols()), (2, 3));
    assert_eq!(p.get(0, 0), 1);
    assert_eq!(p.get(0, 2), 3);
    assert_eq!(p.get(1, 0), 4);
    assert_eq!(p.get(1, 2), 6);
    assert_eq!(p.to_vec(), vec![1, 2, 3, 4, 5, 6]);
}

#[test]
fn a_shifted_plane_is_laid_out_row_by_row() {
    let p = ShiftedPlane::from_vec(3, 2, vec![-1, 2, -3, 4, -5, 6]).unwrap();
    assert_eq!(p.extent(), (3, 2));
    assert_eq!((p.rows(), p.cols()), (3, 2));
    assert_eq!(p.get(0, 1), 2);
    assert_eq!(p.get(1, 0), -3);
    assert_eq!(p.get(2, 1), 6);
    assert_eq!(p.to_vec(), vec![-1, 2, -3, 4, -5, 6]);
}

#[test]
fn a_block_is_laid_out_row_by_row() {
    let b = CoeffBlock::from_vec(2, 2, vec![1000, -2000, 3000, -4000]).unwrap();
    assert_eq!(b.extent(), (2, 2));
    assert_eq!((b.rows(), b.cols()), (2, 2));
    assert_eq!(b.get(0, 1), -2000);
    assert_eq!(b.get(1, 0), 3000);
}

#[test]
fn a_count_that_does_not_match_the_extent_is_an_invalid_shape() {
    assert_eq!(Plane::from_vec(2, 2, vec![1, 2, 3]), Err(EncodeError::InvalidShape));
    assert_eq!(Plane::from_vec(0, 2, vec![1]), Err(EncodeError::InvalidShape));
    assert_eq!(ShiftedPlane::from_vec(2, 2, vec![1, 2, 3, 4, 5]), Err(EncodeError::InvalidShape));
    assert_eq!(CoeffBlock::from_vec(3, 3, vec![]), Err(EncodeError::InvalidShape));
    assert_eq!(CoeffBlock::from_vec(1, 0, vec![7]), Err(EncodeError::InvalidShape));
}

#[test]
fn an_extent_that_cannot_be_addressed_is_an_invalid_shape() {
    assert_eq!(Plane::from_vec(usize::MAX, 0, vec![]), Err(EncodeError::InvalidShape));
    assert_eq!(Plane::from_vec(usize::MAX, 2, vec![0, 0]), Err(EncodeError::InvalidShape));
    assert_eq!(ShiftedPlane::from_vec(0, usize::MAX, vec![]), Err(EncodeError::InvalidShape));
    assert_eq!(CoeffBlock::from_vec(usize::MAX, usize::MAX, vec![1]), Err(EncodeError::InvalidShape));
}

#[test]
fn a_plane_without_rows_keeps_its_width() {
    let p = Plane::from_vec(0, 4, vec![]).unwrap();
    assert_eq!(p.extent(), (0, 4));
    assert!(p.to_vec().is_empty());
    let q = ShiftedPlane::from_vec(4, 0, vec![]).unwrap();
    assert_eq!(q.extent(), (4, 0));
    assert!(q.to_vec().is_empty());
}

#[test]
fn a_zeroed_plane_holds_zeros() {
    let p = Plane::zeroed(2, 3);
    assert_eq!(p.extent(), (2, 3));
    assert_eq!(p.to_vec(), vec![0; 6]);
    let q = ShiftedPlane::zeroed(3, 1);
    assert_eq!(q.extent(), (3, 1));
    assert_eq!(q.to_vec(), vec![0; 3]);
}

#[test]
fn put_changes_one_sample() {
    let mut p = Plane::zeroed(2, 3);
    p.put(1, 2, 9);
    p.put(0, 1, 5);
    assert_eq!(p.extent(), (2, 3));
    assert_eq!(p.to_vec(), vec![0, 5, 0, 0, 0, 9]);
    assert_eq!(p.get(1, 2), 9);
    let mut q = ShiftedPlane::zeroed(2, 2);
    q.put(1, 0, -9);
    assert_eq!(q.to_vec(), vec![0, 0, -9, 0]);
    assert_eq!(q.get(1, 0), -9);
}

use aligners::alignment::{Alignment, Eight, Four, One, Two, TwoTo};
use aligners::{Aligned, AlignedBytes, AlignedSlice};

fn assert_aligned(address: usize, alignment: usize) {
    assert_ne!(address, 0);
    assert_eq!(0, address % alignment);
}

#[test]
fn empty_slice_is_aligned() {
    let empty: AlignedSlice<Eight> = AlignedSlice::default(Eight::new());
    assert_aligned(empty.as_ptr(), 8);
}

#[test]
fn slice_alignment_size_equal_to_alignment_type() {
    let bytes: AlignedBytes<TwoTo<7>> = AlignedBytes::new_zeroed(TwoTo::<7>::new(), 1024);
    let slice: AlignedSlice<TwoTo<7>> = bytes.as_slice();

    assert_eq!(128, slice.alignment_size());
}

#[test]
fn empty_slice_has_no_bytes() {
    let empty = AlignedSlice::default(TwoTo::<4>::new());

    assert_eq!(empty.len(), 0);
    assert!(empty.is_empty());
    assert_eq!(empty.as_ptr(), 16);
    assert_eq!(empty.as_bytes(), &[] as &[u8]);
}

#[test]
fn view_of_a_buffer_is_the_buffer() {
    let bytes = AlignedBytes::from(TwoTo::<6>::new(), &[1u8, 2, 3, 4, 5]);
    let view = bytes.as_slice();

    assert_eq!(view.len(), 5);
    assert!(!view.is_empty());
    assert_eq!(view.as_bytes(), &[1, 2, 3, 4, 5]);
    assert_eq!(view.as_ptr(), bytes.as_ptr());
    assert_eq!(view.as_ptr(), view.as_bytes().as_ptr() as usize);
    assert_eq!(view.as_bytes().as_ptr(), bytes.as_bytes().as_ptr());
    assert_eq!(&view[1..3], &[2, 3]);
}

#[test]
fn offset_drops_whole_units() {
    let source: Vec<u8> = (0..21).collect();
    let bytes = AlignedBytes::from(Four::new(), &source);
    let view = bytes.as_slice();

    for count in 0..=5usize {
        let rest = view.offset(count as isize);
        assert_eq!(rest.as_bytes(), &source[count * 4..]);
        assert_eq!(rest.as_ptr(), view.as_ptr() + count * 4);
        assert_eq!(rest.as_ptr(), rest.as_bytes().as_ptr() as usize);
        assert_aligned(rest.as_ptr(), 4);
        assert_eq!(rest.alignment_size(), 4);
    }
}

#[test]
fn offset_to_the_very_end() {
    let bytes = AlignedBytes::from(Four::new(), &[1u8, 2, 3, 4, 5, 6, 7, 8]);
    let rest = bytes.as_slice().offset(2);

    assert!(rest.is_empty());
    assert_eq!(rest.as_ptr(), bytes.as_ptr() + 8);
}

#[test]
fn offsets_add_up() {
    let source: Vec<u8> = (0..40).collect();
    let bytes = AlignedBytes::from(Eight::new(), &source);
    let view = bytes.as_slice();

    assert_eq!(view.offset(1).offset(2).as_bytes(), view.offset(3).as_bytes());
    assert_eq!(view.offset(1).offset(2).as_ptr(), view.offset(3).as_ptr());
}

#[test]
fn relaxing_keeps_length_bytes_and_address() {
    let source: Vec<u8> = (0..33).collect();
    let bytes = AlignedBytes::from(TwoTo::<6>::new(), &source);
    let view = bytes.as_slice();

    let by_eight = view.relax_alignment(Eight::new());
    assert_eq!(by_eight.len(), view.len());
    assert_eq!(by_eight.as_bytes(), view.as_bytes());
    assert_eq!(by_eight.as_ptr(), view.as_ptr());
    assert_eq!(by_eight.alignment_size(), 8);

    let by_two = by_eight.relax_alignment(Two::new());
    assert_eq!(by_two.as_bytes(), &source[..]);
    assert_eq!(by_two.as_ptr(), view.as_ptr());
    assert_eq!(by_two.alignment_size(), 2);

    let by_one = by_two.relax_alignment(One::new());
    assert_eq!(by_one.as_bytes(), &source[..]);
    assert_eq!(by_one.alignment_size(), 1);

    let same = view.relax_alignment(TwoTo::<6>::new());
    assert_eq!(same.as_bytes(), &source[..]);
    assert_eq!(same.as_ptr(), view.as_ptr());
    assert_eq!(same.alignment_size(), 64);
}

#[test]
fn relaxing_changes_the_blocks() {
    let source: Vec<u8> = (0..10).collect();
    let bytes = AlignedBytes::from(Eight::new(), &source);

    let wide = bytes.as_slice().iter_blocks().collect();
    let narrow = bytes.as_slice().relax_alignment(Four::new()).iter_blocks().collect();

    assert_eq!(wide.len(), 2);
    assert_eq!(narrow.len(), 3);
    assert_eq!(narrow[0].as_bytes(), &[0, 1, 2, 3]);
    assert_eq!(narrow[1].as_bytes(), &[4, 5, 6, 7]);
    assert_eq!(narrow[2].as_bytes(), &[8, 9]);
}

#[test]
fn views_are_equal_by_their_bytes() {
    let left = AlignedBytes::from(Eight::new(), &[1u8, 2, 3]);
    let right = AlignedBytes::from(Eight::new(), &[1u8, 2, 3]);
    let other = AlignedBytes::from(Eight::new(), &[1u8, 2, 4]);

    assert_ne!(left.as_ptr(), right.as_ptr());
    assert!(left.as_slice() == right.as_slice());
    assert!(left.as_slice() != other.as_slice());
    assert!(left.as_slice() == vec![1u8, 2, 3]);
    assert!(vec![1u8, 2, 3] == left.as_slice());
    assert!(left.as_slice() == [1u8, 2, 3]);
    assert!([1u8, 2, 3] == left.as_slice());
    assert!(left.as_slice() == [1u8, 2, 3][..]);
    assert!([1u8, 2, 3][..] == left.as_slice());
    assert!(left.as_slice() != vec![1u8, 2]);
}

#[test]
fn views_are_copies_of_one_another() {
    let bytes = AlignedBytes::from(Eight::new(), &[1u8, 2, 3]);
    let view = bytes.as_slice();
    let copy = view;
    let clone = view.clone();

    assert_eq!(view, copy);
    assert_eq!(view.as_ptr(), clone.as_ptr());
}

fn skip_one<T: Aligned>(range: &T) -> (usize, T) {
    (range.alignment_size(), range.offset(1))
}

#[test]
fn common_trait_of_aligned_ranges() {
    let bytes = AlignedBytes::from(Four::new(), &[1u8, 2, 3, 4, 5, 6]);
    let (unit, rest) = skip_one(&bytes.as_slice());

    assert_eq!(unit, 4);
    assert_eq!(rest.as_bytes(), &[5, 6]);
    assert_eq!(rest.as_ptr(), bytes.as_ptr() + 4);
}

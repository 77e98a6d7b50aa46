use aligners::alignment::{Alignment, Page, Twice};
use aligners::AlignedBytes;

#[test]
fn is_page_aligned_when_created_from_unaligned_slice() {
    let alignment_size = page_size::get();
    let slice: &[u8] = &std::iter::repeat(42)
        .take(alignment_size)
        .collect::<Vec<_>>();
    let misalignment = slice.as_ptr() as usize % alignment_size;
    let source = if misalignment > 0 { slice } else { &slice[1..] };
    let bytes = AlignedBytes::<Page>::from(Page::detect().unwrap(), source);

    assert_eq!(bytes.as_ptr() % alignment_size, 0);
    assert_eq!(bytes.as_bytes().as_ptr() as usize % alignment_size, 0);
}

#[test]
fn contains_same_bytes_when_page_aligned_from_slice() {
    let slice = (0..=47).collect::<Vec<u8>>();
    let bytes = AlignedBytes::<Page>::from(Page::detect().unwrap(), &slice);

    assert_eq!(bytes, slice);
}

#[test]
fn creates_empty_bytes_when_given_zero_length_for_page() {
    let bytes = AlignedBytes::<Page>::new_zeroed(Page::detect().unwrap(), 0);

    assert_eq!(bytes.len(), 0);
}

#[test]
fn page_size_is_what_the_system_reports() {
    assert_eq!(page_size::get(), Page::detect().unwrap().size());
    assert_eq!(Page::detect().unwrap().size(), Page::detect().unwrap().size());
    assert!(Page::detect().unwrap().size().is_power_of_two());
}

#[test]
fn reported_page_size_must_be_a_power_of_two() {
    assert_eq!(Page::from_reported(4096).unwrap().size(), 4096);
    assert_eq!(Page::from_reported(16384).unwrap().size(), 16384);
    assert_eq!(Page::from_reported(1).unwrap().size(), 1);
    assert!(Page::from_reported(0).is_none());
    assert!(Page::from_reported(3).is_none());
    assert!(Page::from_reported(4095).is_none());
    assert!(Page::from_reported(12288).is_none());
    assert!(Page::from_reported(usize::MAX).is_none());
}

#[test]
fn zeroed_page_aligned_buffer() {
    let aligned = AlignedBytes::<Page>::new_zeroed(Page::detect().unwrap(), 1024);

    assert_eq!(aligned.as_ptr() % page_size::get(), 0);
    assert!(aligned.iter().all(|&x| x == 0));
}

#[test]
fn two_pages() {
    let two = Twice::new(Page::from_reported(4096).unwrap());
    let bytes = AlignedBytes::from(two, &[1u8, 2, 3]);

    assert_eq!(two.size(), 8192);
    assert_eq!(bytes.as_ptr() % 8192, 0);
    assert_eq!(bytes, [1, 2, 3]);
}

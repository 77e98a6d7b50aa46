use aligners::alignment::{Alignment, Eight, Four, One, TwoTo};
use aligners::{AlignedBlock, AlignedBytes};

fn collect_by_next<'a, A: Alignment>(
    mut iter: aligners::AlignedBlockIterator<'a, A>,
) -> Vec<AlignedBlock<'a, A>> {
    let mut blocks = Vec::new();
    while let Some(block) = iter.next() {
        blocks.push(block);
    }
    assert!(iter.next().is_none());
    assert!(iter.next().is_none());
    blocks
}

#[test]
fn iterators_alignment_size_equal_to_alignment_type() {
    let bytes: AlignedBytes<TwoTo<7>> = AlignedBytes::new_zeroed(TwoTo::<7>::new(), 1024);
    let mut iter = bytes.as_slice().iter_blocks();
    let block = iter.next().unwrap();

    assert_eq!(128, block.alignment_size());
}

#[test]
fn blocks_of_a_whole_number_of_units() {
    let source: Vec<u8> = (0..24).collect();
    let bytes = AlignedBytes::from(Eight::new(), &source);
    let blocks = collect_by_next(bytes.as_slice().iter_blocks());

    assert_eq!(blocks.len(), 3);
    assert_eq!(blocks[0].as_bytes(), &source[0..8]);
    assert_eq!(blocks[1].as_bytes(), &source[8..16]);
    assert_eq!(blocks[2].as_bytes(), &source[16..24]);
    for (i, block) in blocks.iter().enumerate() {
        assert_eq!(block.len(), 8);
        assert!(!block.is_empty());
        assert_eq!(block.as_ptr(), bytes.as_ptr() + 8 * i);
        assert_eq!(block.as_ptr() % 8, 0);
        assert_eq!(block.as_ptr(), block.as_bytes().as_ptr() as usize);
    }
}

#[test]
fn last_block_holds_what_is_left_over() {
    let source: Vec<u8> = (0..27).collect();
    let bytes = AlignedBytes::from(Eight::new(), &source);
    let blocks = collect_by_next(bytes.as_slice().iter_blocks());

    assert_eq!(blocks.len(), 4);
    assert_eq!(blocks[0].len(), 8);
    assert_eq!(blocks[1].len(), 8);
    assert_eq!(blocks[2].len(), 8);
    assert_eq!(blocks[3].len(), 3);
    assert_eq!(blocks[3].as_bytes(), &source[24..]);
    assert_eq!(blocks[3].as_ptr(), bytes.as_ptr() + 24);

    let joined: Vec<u8> = blocks.iter().flat_map(|b| b.as_bytes().iter().copied()).collect();
    assert_eq!(joined, source);
}

#[test]
fn block_count_is_the_length_by_the_unit_rounded_up() {
    for len in 0..70usize {
        let source: Vec<u8> = (0..len as u8).collect();
        for (unit, bytes) in [
            (1, AlignedBytes::from(One::new(), &source).as_slice().iter_blocks().size_hint()),
            (4, AlignedBytes::from(Four::new(), &source).as_slice().iter_blocks().size_hint()),
            (8, AlignedBytes::from(Eight::new(), &source).as_slice().iter_blocks().size_hint()),
        ] {
            let expected = (len + unit - 1) / unit;
            assert_eq!(bytes, (expected, Some(expected)));
        }
        let owner = AlignedBytes::from(Four::new(), &source);
        let blocks = collect_by_next(owner.as_slice().iter_blocks());
        assert_eq!(blocks.len(), (len + 3) / 4);
        for (i, block) in blocks.iter().enumerate() {
            if i + 1 < blocks.len() {
                assert_eq!(block.len(), 4);
            } else if len % 4 == 0 {
                assert_eq!(block.len(), 4);
            } else {
                assert_eq!(block.len(), len % 4);
            }
        }
        let joined: Vec<u8> = blocks.iter().flat_map(|b| b.to_vec()).collect();
        assert_eq!(joined, source);
    }
}

#[test]
fn size_hint_by_example() {
    let bytes = AlignedBytes::new_zeroed(Eight::new(), 17);
    let mut iter = bytes.as_slice().iter_blocks();

    assert_eq!(iter.size_hint(), (3, Some(3)));
    iter.next();
    assert_eq!(iter.size_hint(), (2, Some(2)));
    iter.next();
    assert_eq!(iter.size_hint(), (1, Some(1)));
    iter.next();
    assert_eq!(iter.size_hint(), (0, Some(0)));
    assert!(iter.next().is_none());
    assert_eq!(iter.size_hint(), (0, Some(0)));
}

#[test]
fn no_blocks_in_an_empty_range() {
    let bytes = AlignedBytes::default(Eight::new());
    let mut iter = bytes.as_slice().iter_blocks();

    assert_eq!(iter.size_hint(), (0, Some(0)));
    assert!(iter.next().is_none());
    assert!(iter.next().is_none());
    assert!(bytes.as_slice().iter_blocks().collect().is_empty());
}

#[test]
fn iteration_can_start_over_from_the_view() {
    let bytes = AlignedBytes::from(Four::new(), &[1u8, 2, 3, 4, 5]);
    let view = bytes.as_slice();

    let first = collect_by_next(view.iter_blocks());
    let second = collect_by_next(view.iter_blocks());

    assert_eq!(first.len(), 2);
    assert_eq!(second.len(), 2);
    assert_eq!(first[1].as_bytes(), second[1].as_bytes());
}

#[test]
fn collect_gives_the_blocks_that_next_gives() {
    let source: Vec<u8> = (0..50).collect();
    let bytes = AlignedBytes::from(TwoTo::<4>::new(), &source);
    let by_next = collect_by_next(bytes.as_slice().iter_blocks());
    let all = bytes.as_slice().iter_blocks().collect();

    assert_eq!(all.len(), 4);
    assert_eq!(all.len(), by_next.len());
    for (i, (a, b)) in all.iter().zip(by_next.iter()).enumerate() {
        assert_eq!(a.as_bytes(), b.as_bytes());
        assert_eq!(a.as_ptr(), b.as_ptr());
        assert_eq!(a.as_ptr(), bytes.as_ptr() + 16 * i);
    }
    assert_eq!(all[3].as_bytes(), &[48, 49]);
}

#[test]
fn skipping_blocks_on_the_iterator_is_skipping_them_on_the_view() {
    let source: Vec<u8> = (0..30).collect();
    let bytes = AlignedBytes::from(Eight::new(), &source);

    let mut skipped = bytes.as_slice().iter_blocks();
    skipped.offset(2);
    let rederived = bytes.as_slice().offset(2).iter_blocks();

    let left = collect_by_next(skipped);
    let right = collect_by_next(rederived);
    assert_eq!(left.len(), 2);
    assert_eq!(right.len(), 2);
    assert_eq!(left[0].as_bytes(), &source[16..24]);
    assert_eq!(left[1].as_bytes(), &source[24..]);
    for (a, b) in left.iter().zip(right.iter()) {
        assert_eq!(a.as_bytes(), b.as_bytes());
        assert_eq!(a.as_ptr(), b.as_ptr());
    }
}

#[test]
fn skipping_after_a_block_was_taken() {
    let source: Vec<u8> = (0..32).collect();
    let bytes = AlignedBytes::from(Eight::new(), &source);
    let mut iter = bytes.as_slice().iter_blocks();

    assert_eq!(iter.next().unwrap().as_bytes(), &source[..8]);
    iter.offset(1);
    assert_eq!(iter.next().unwrap().as_bytes(), &source[16..24]);
    iter.offset(0);
    assert_eq!(iter.next().unwrap().as_bytes(), &source[24..]);
    assert!(iter.next().is_none());
}

#[test]
fn a_block_is_a_range() {
    let bytes = AlignedBytes::from(Four::new(), &[1u8, 2, 3, 4, 5, 6]);
    let mut iter = bytes.as_slice().iter_blocks();
    iter.next();
    let block = iter.next().unwrap();
    let range = block.as_slice();

    assert_eq!(range.len(), 2);
    assert_eq!(range.as_bytes(), &[5, 6]);
    assert_eq!(range.as_ptr(), bytes.as_ptr() + 4);
    assert_eq!(range.alignment_size(), 4);
    assert_eq!(&block[..], &[5, 6]);
}

use rarena_allocator::backed::{shrink_target, AlignedVec};
use rarena_allocator::header::Header;
use rarena_allocator::node::{align_up, decode_segment_node, encode_segment_node};
use rarena_allocator::options::ArenaOptions;
use rarena_allocator::refs::RefCounter;

#[test]
fn segment_node_codec_round_trip() {
    assert_eq!(encode_segment_node(1, 2), (1u64 << 32) | 2);
    assert_eq!(decode_segment_node((1u64 << 32) | 2), (1, 2));
    for (next, size) in [(0u32, 0u32), (7, 13), (u32::MAX, u32::MAX), (u32::MAX, 0)] {
        assert_eq!(decode_segment_node(encode_segment_node(next, size)), (next, size));
    }
}

#[test]
fn align_up_rounds_to_multiples() {
    assert_eq!(align_up(0, 8), 0);
    assert_eq!(align_up(1, 8), 8);
    assert_eq!(align_up(8, 8), 8);
    assert_eq!(align_up(13, 8), 16);
    assert_eq!(align_up(13, 1), 13);
    assert_eq!(align_up(100, 64), 128);
}

#[test]
fn header_starts_fresh() {
    let h = Header::new(24, 8);
    assert_eq!(h.allocated, 24);
    assert_eq!(h.min_segment_size, 8);
    assert_eq!(h.discarded, 0);
    assert_eq!(h.sentinel, encode_segment_node(u32::MAX, u32::MAX));
}

#[test]
fn options_builders() {
    let o = ArenaOptions::new();
    assert_eq!(o.capacity(), 1024);
    assert_eq!(o.maximum_alignment(), 8);
    assert_eq!(o.minimum_segment_size(), 20);
    assert_eq!(o.maximum_retries(), 5);
    assert!(!o.unify());
    let o = o
        .with_capacity(64)
        .with_maximum_alignment(16)
        .with_minimum_segment_size(4)
        .with_maximum_retries(3)
        .with_unify(true);
    assert_eq!(o.capacity(), 64);
    assert_eq!(o.maximum_alignment(), 16);
    assert_eq!(o.minimum_segment_size(), 4);
    assert_eq!(o.maximum_retries(), 3);
    assert!(o.unify());
}

#[test]
fn aligned_vec_is_zeroed() {
    let mut v = AlignedVec::new(32, 1);
    assert_eq!(v.align, 8);
    assert_eq!(v.as_ptr().len(), 32);
    assert!(v.as_ptr().iter().all(|b| *b == 0));
    v.as_mut_ptr()[3] = 9;
    assert_eq!(v.as_ptr()[3], 9);
    assert_eq!(
        AlignedVec::max_capacity(8),
        isize::MAX as usize - 7
    );
}

#[test]
fn p6_teardown_runs_exactly_once() {
    // clone a handle three times, then drop all four copies
    let mut c = RefCounter::new();
    assert_eq!(c.refs(), 1);
    c.acquire();
    c.acquire();
    c.acquire();
    assert_eq!(c.refs(), 4);
    let mut teardowns = 0;
    for _ in 0..4 {
        if c.release() {
            teardowns += 1;
        }
    }
    assert_eq!(teardowns, 1);
    assert_eq!(c.refs(), 0);
}

#[test]
fn teardown_only_on_last_release() {
    let mut c = RefCounter::new();
    c.acquire();
    assert!(!c.release());
    assert!(c.release());
}

#[test]
fn shrink_target_decides_truncation() {
    assert_eq!(shrink_target(true, 100, 200), Some(100));
    assert_eq!(shrink_target(true, 200, 200), None);
    assert_eq!(shrink_target(false, 100, 200), None);
}

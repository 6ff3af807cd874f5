use rarena_allocator::arena::{Allocated, Arena};
use rarena_allocator::error::{Error, OpenError};
use rarena_allocator::options::ArenaOptions;

fn small_opts() -> ArenaOptions {
    // a 64-byte region whose data area starts at offset 16
    ArenaOptions::new()
        .with_capacity(48)
        .with_maximum_alignment(16)
        .with_minimum_segment_size(8)
        .with_unify(false)
}

#[test]
fn s1_bump_then_exhaustion() {
    let mut a = Arena::new(small_opts());
    assert_eq!(a.capacity(), 64);
    assert_eq!(a.data_offset(), 16);
    assert_eq!(a.size(), 16);
    assert_eq!(a.remaining(), 48);
    let r1 = a.alloc_bytes(20).unwrap().unwrap();
    assert_eq!(r1, Allocated { offset: 16, cap: 20 });
    let r2 = a.alloc_bytes(20).unwrap().unwrap();
    assert_eq!(r2, Allocated { offset: 36, cap: 20 });
    let err = a.alloc_bytes(20).unwrap_err();
    assert_eq!(
        err,
        Error::InsufficientSpace {
            requested: 20,
            available: 8
        }
    );
}

#[test]
fn s2_reuse_from_free_list() {
    let mut a = Arena::new(small_opts());
    let r1 = a.alloc_bytes(20).unwrap().unwrap();
    let _r2 = a.alloc_bytes(20).unwrap().unwrap();
    a.dealloc(r1.offset, r1.cap);
    assert_eq!(a.free_segments(), vec![(16, 20)]);
    let r3 = a.alloc_bytes(12).unwrap().unwrap();
    assert_eq!(r3, Allocated { offset: 16, cap: 12 });
    // the tail (28, 8) cannot host a node word within 8 bytes: discarded
    assert_eq!(a.discarded(), 8);
    assert_eq!(a.free_segments(), vec![]);
}

#[test]
fn s2_head_too_small() {
    let mut a = Arena::new(small_opts());
    let r1 = a.alloc_bytes(20).unwrap().unwrap();
    let _r2 = a.alloc_bytes(20).unwrap().unwrap();
    a.dealloc(r1.offset, r1.cap);
    // the largest free segment holds 20 bytes; 24 cannot be served
    let err = a.alloc_bytes(24).unwrap_err();
    assert_eq!(
        err,
        Error::InsufficientSpace {
            requested: 24,
            available: 20
        }
    );
}

fn sorted_opts() -> ArenaOptions {
    ArenaOptions::new()
        .with_capacity(72)
        .with_maximum_alignment(16)
        .with_minimum_segment_size(8)
        .with_unify(false)
}

#[test]
fn s3_free_list_sort_order() {
    let mut a = Arena::new(sorted_opts());
    let ra = a.alloc_bytes(16).unwrap().unwrap();
    let rb = a.alloc_bytes(32).unwrap().unwrap();
    let rc = a.alloc_bytes(24).unwrap().unwrap();
    a.dealloc(ra.offset, 16);
    a.dealloc(rb.offset, 32);
    a.dealloc(rc.offset, 24);
    let sizes: Vec<u32> = a.free_segments().iter().map(|s| s.1).collect();
    assert_eq!(sizes, vec![32, 24, 16]);
}

#[test]
fn s3_sort_order_other_interleaving() {
    let mut a = Arena::new(sorted_opts());
    let ra = a.alloc_bytes(16).unwrap().unwrap();
    let rb = a.alloc_bytes(32).unwrap().unwrap();
    let rc = a.alloc_bytes(24).unwrap().unwrap();
    a.dealloc(rc.offset, 24);
    a.dealloc(ra.offset, 16);
    a.dealloc(rb.offset, 32);
    let sizes: Vec<u32> = a.free_segments().iter().map(|s| s.1).collect();
    assert_eq!(sizes, vec![32, 24, 16]);
    // no live node has size zero
    assert!(a.free_segments().iter().all(|s| s.1 > 0));
}

#[test]
fn s4_read_only_rejects_mutation() {
    let mut a = Arena::new(ArenaOptions::new().with_capacity(100).with_unify(true));
    let r = a.alloc_bytes(10).unwrap().unwrap();
    a.write_bytes(r.offset as usize, &[7u8; 10]);
    let image = a.to_bytes();
    let b = Arena::map(image).unwrap();
    let mut b = b;
    assert_eq!(b.alloc_bytes(4).unwrap_err(), Error::ReadOnly);
    assert_eq!(b.alloc_aligned(8, 8).unwrap_err(), Error::ReadOnly);
    assert_eq!(b.clear().unwrap_err(), Error::ReadOnly);
    // the read paths still work
    assert_eq!(b.get_pointer(0), 0);
    assert_eq!(b.size(), a.size());
    assert_eq!(b.capacity(), a.capacity());
    assert_eq!(b.get_bytes(r.offset as usize, 10).to_vec(), vec![7u8; 10]);
}

#[test]
fn s5_persistence_round_trip() {
    let opts = ArenaOptions::new().with_minimum_segment_size(20);
    let mut a = Arena::map_mut(vec![0u8; 1024], opts).unwrap();
    assert_eq!(a.capacity(), 1024);
    assert_eq!(a.data_offset(), 24);
    let r = a.alloc_bytes(3).unwrap().unwrap();
    assert_eq!(r.offset, 24);
    a.write_bytes(r.offset as usize, &[1u8, 2, 3]);
    let size_before = a.size();
    let image = a.to_bytes();
    drop(a);
    let b = Arena::map(image).unwrap();
    assert_eq!(b.size(), size_before);
    assert_eq!(b.get_bytes(24, 3).to_vec(), vec![1u8, 2, 3]);
}

#[test]
fn s6_typed_alignment() {
    let mut a = Arena::new(ArenaOptions::new().with_capacity(256));
    let before = a.size();
    // room for a u64: size 8, alignment 8
    let r = a.alloc_aligned(8, 8).unwrap().unwrap();
    assert_eq!(r.cap, 15);
    assert!(a.size() - before <= 15);
    let p = a.get_aligned_pointer(r.offset as usize, 8);
    assert_eq!(p & 7, 0);
    assert!(p >= r.offset as usize);
    assert!(p + 8 <= (r.offset + r.cap) as usize);
}

#[test]
fn p2_byte_conservation_concrete() {
    let mut a = Arena::new(small_opts());
    let r1 = a.alloc_bytes(20).unwrap().unwrap();
    let r2 = a.alloc_bytes(20).unwrap().unwrap();
    a.dealloc(r1.offset, r1.cap);
    let r3 = a.alloc_bytes(12).unwrap().unwrap();
    // live allocations
    let live = (r2.cap + r3.cap) as usize;
    let free: usize = a.free_segments().iter().map(|s| s.1 as usize).sum();
    assert_eq!(
        live + free + a.discarded(),
        a.size() - a.data_offset()
    );
}

#[test]
fn p5_clear_then_alloc_restarts() {
    let mut a = Arena::new(small_opts());
    let _ = a.alloc_bytes(20).unwrap();
    let _ = a.alloc_bytes(20).unwrap();
    a.clear().unwrap();
    assert_eq!(a.size(), a.data_offset());
    assert_eq!(a.discarded(), 0);
    assert_eq!(a.free_segments(), vec![]);
    let r = a.alloc_bytes(5).unwrap().unwrap();
    assert_eq!(r.offset as usize, a.data_offset());
}

#[test]
fn p4_aligned_pointer_is_aligned() {
    let a = Arena::new(ArenaOptions::new());
    for align in [1usize, 2, 4, 8, 16, 64] {
        for offset in [1usize, 9, 13, 24, 100, 255] {
            let p = a.get_aligned_pointer(offset, align);
            assert_eq!(p % align, 0);
            assert!(p >= offset && p < offset + align);
        }
    }
    // offset zero is the null descriptor
    assert_eq!(a.get_aligned_pointer(0, 8), 0);
    assert_eq!(a.offset(42), 42);
    assert_eq!(a.get_pointer(42), 42);
}

#[test]
fn zero_size_requests_yield_null() {
    let mut a = Arena::new(ArenaOptions::new());
    assert!(a.alloc_bytes(0).unwrap().is_none());
    assert!(a.alloc_aligned(0, 8).unwrap().is_none());
}

#[test]
fn increase_discarded_adds() {
    let mut a = Arena::new(ArenaOptions::new());
    assert_eq!(a.discarded(), 0);
    a.increase_discarded(5);
    a.increase_discarded(7);
    assert_eq!(a.discarded(), 12);
}

#[test]
fn minimum_segment_size_is_settable() {
    let mut a = Arena::new(ArenaOptions::new());
    assert_eq!(a.minimum_segment_size(), 20);
    a.set_minimum_segment_size(64);
    assert_eq!(a.minimum_segment_size(), 64);
    // a freed 32-byte range under the threshold is discarded
    let r = a.alloc_bytes(32).unwrap().unwrap();
    a.dealloc(r.offset, r.cap);
    assert_eq!(a.discarded(), 32);
    assert_eq!(a.free_segments(), vec![]);
}

#[test]
fn data_reflects_writes() {
    let mut a = Arena::new(ArenaOptions::new().with_capacity(100).with_unify(true));
    let r = a.alloc_bytes(4).unwrap().unwrap();
    a.write_bytes(r.offset as usize, &[9u8, 8, 7, 6]);
    assert_eq!(a.data()[..4].to_vec(), vec![9u8, 8, 7, 6]);
    // offset zero reads as the empty slice
    assert_eq!(a.get_bytes(0, 10).len(), 0);
}

#[test]
fn data_with_header_is_the_allocated_prefix() {
    let mut a = Arena::new(ArenaOptions::new().with_capacity(100).with_unify(true));
    let r = a.alloc_bytes(4).unwrap().unwrap();
    a.write_bytes(r.offset as usize, &[5u8, 6, 7, 8]);
    let prefix = a.data_with_header();
    assert_eq!(prefix.len(), a.size());
    // the image prefix reopens to the same counters once padded back out
    let mut image = prefix.clone();
    image.resize(a.capacity(), 0);
    let b = Arena::map(image).unwrap();
    assert_eq!(b.size(), a.size());
    assert_eq!(b.get_bytes(r.offset as usize, 4).to_vec(), vec![5u8, 6, 7, 8]);
}

#[test]
fn image_layout_is_little_endian() {
    let mut a = Arena::new(ArenaOptions::new().with_capacity(40).with_unify(true));
    let _ = a.alloc_bytes(5).unwrap();
    let image = a.to_bytes();
    assert_eq!(&image[0..4], &(a.size() as u32).to_le_bytes());
    assert_eq!(&image[4..8], &(a.minimum_segment_size() as u32).to_le_bytes());
    // the empty free-list sentinel packs (u32::MAX, u32::MAX)
    assert_eq!(&image[8..16], &u64::MAX.to_le_bytes());
    assert_eq!(&image[16..20], &(a.discarded() as u32).to_le_bytes());
}

#[test]
fn free_list_node_lives_inside_the_freed_bytes() {
    let opts = ArenaOptions::new()
        .with_capacity(100)
        .with_unify(true)
        .with_minimum_segment_size(8);
    let mut a = Arena::new(opts);
    let r1 = a.alloc_bytes(20).unwrap().unwrap();
    let _r2 = a.alloc_bytes(20).unwrap().unwrap();
    a.dealloc(r1.offset, r1.cap);
    let image = a.to_bytes();
    // the sentinel names the freed segment: (offset 24, size 20)
    let sentinel = ((r1.offset as u64) << 32) | 20;
    assert_eq!(&image[8..16], &sentinel.to_le_bytes());
    // the node word sits at the segment's first 8-aligned offset and,
    // with no successor, holds the terminal word
    let node = u64::from_le_bytes(image[24..32].try_into().unwrap());
    assert_eq!(node, u64::MAX);
}

#[test]
fn mutable_pointers_translate_like_shared_ones() {
    let a = Arena::new(ArenaOptions::new());
    assert_eq!(a.get_pointer_mut(40), 40);
    let p = a.get_aligned_pointer_mut(41, 16);
    assert_eq!(p, 48);
}

#[test]
fn map_anon_checks_its_size() {
    // a unified anonymous region must at least hold the header
    let err = match Arena::map_anon(10, ArenaOptions::new().with_unify(true)) {
        Err(e) => e,
        Ok(_) => panic!("a 10-byte region must be rejected"),
    };
    assert_eq!(
        err,
        OpenError::InvalidData(rarena_allocator::error::TooSmall::new(10, 24))
    );
    let mut a = Arena::map_anon(64, ArenaOptions::new().with_unify(true)).unwrap();
    assert_eq!(a.capacity(), 64);
    assert_eq!(a.data_offset(), 24);
    let r = a.alloc_bytes(8).unwrap().unwrap();
    assert_eq!(r.offset, 24);
}

#[test]
fn map_rejects_bad_header() {
    // an image whose recorded high-water mark (zero) is below the header
    let err = match Arena::map(vec![0u8; 64]) {
        Err(e) => e,
        Ok(_) => panic!("a zeroed header must be rejected"),
    };
    assert_eq!(err, OpenError::BadHeader);
}

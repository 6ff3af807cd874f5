use rarena_allocator::arena::Arena;
use rarena_allocator::error::{decimal_string, invalid_data, Error, OpenError, TooSmall};
use rarena_allocator::options::ArenaOptions;

#[test]
fn test_too_small() {
    let too_small = TooSmall::new(10, 20);
    assert_eq!(
        too_small.message(),
        "memmap size is less than the minimum capacity: 10 < 20"
    );
}

#[test]
fn decimal_rendering() {
    assert_eq!(decimal_string(0), "0");
    assert_eq!(decimal_string(7), "7");
    assert_eq!(decimal_string(10), "10");
    assert_eq!(decimal_string(1234567890), "1234567890");
    assert_eq!(decimal_string(u64::MAX), "18446744073709551615");
}

#[test]
fn invalid_data_wraps_too_small() {
    let e = TooSmall::new(3, 24);
    assert_eq!(invalid_data(e), OpenError::InvalidData(TooSmall::new(3, 24)));
}

#[test]
fn open_errors_on_short_images() {
    let err = match Arena::map(vec![0u8; 10]) {
        Err(e) => e,
        Ok(_) => panic!("a 10-byte image must be rejected"),
    };
    assert_eq!(err, OpenError::InvalidData(TooSmall::new(10, 24)));
    let err = match Arena::map_mut(vec![0u8; 10], ArenaOptions::new()) {
        Err(e) => e,
        Ok(_) => panic!("a 10-byte image must be rejected"),
    };
    assert_eq!(err, OpenError::InvalidData(TooSmall::new(10, 24)));
}

#[test]
fn error_variants_compare() {
    assert_eq!(Error::ReadOnly, Error::ReadOnly);
    assert_ne!(
        Error::ReadOnly,
        Error::InsufficientSpace {
            requested: 1,
            available: 0
        }
    );
    let e = Error::InsufficientSpace {
        requested: 9,
        available: 3,
    };
    assert!(matches!(
        e,
        Error::InsufficientSpace {
            requested: 9,
            available: 3
        }
    ));
}

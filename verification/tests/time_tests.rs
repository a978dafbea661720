use git_heat::{Error, git2_time_to_offset};

#[test]
fn timestamp_bounds_accepted() {
    let t = git2_time_to_offset(253_402_300_799, 0).unwrap();
    assert_eq!(t.seconds, 253_402_300_799);
    assert_eq!(t.offset_seconds, 0);

    let t = git2_time_to_offset(-377_705_116_800, 0).unwrap();
    assert_eq!(t.seconds, -377_705_116_800);
}

#[test]
fn timestamp_out_of_range_rejected() {
    let r = git2_time_to_offset(253_402_300_800, 0);
    assert!(matches!(r, Err(Error::TimeOutOfRange { .. })));

    let r = git2_time_to_offset(-377_705_116_801, 0);
    assert!(matches!(r, Err(Error::TimeOutOfRange { .. })));
}

#[test]
fn offset_bounds_accepted() {
    let t = git2_time_to_offset(0, 1559).unwrap();
    assert_eq!(t.offset_seconds, 93_540);
    assert_eq!(t.seconds, 0);

    let t = git2_time_to_offset(0, -1559).unwrap();
    assert_eq!(t.offset_seconds, -93_540);
}

#[test]
fn offset_out_of_range_rejected() {
    assert!(matches!(git2_time_to_offset(0, 1560), Err(Error::TimeOutOfRange { .. })));
    assert!(matches!(git2_time_to_offset(0, -1560), Err(Error::TimeOutOfRange { .. })));
}

#[test]
fn offset_overflow_rejected() {
    assert!(matches!(git2_time_to_offset(0, i32::MAX), Err(Error::TimeOutOfRange { .. })));
    assert!(matches!(git2_time_to_offset(0, i32::MIN), Err(Error::TimeOutOfRange { .. })));
}

#[test]
fn offset_does_not_move_instant() {
    let east = git2_time_to_offset(1_000_000, 120).unwrap();
    let west = git2_time_to_offset(1_000_000, -120).unwrap();
    assert_eq!(east.seconds, west.seconds);
    assert_eq!(east.offset_seconds, 7200);
    assert_eq!(west.offset_seconds, -7200);
}

use wirehole::checker::{check_flags, FlagsError};

#[test]
fn flags_need_one_transport() {
    assert_eq!(check_flags(false, false), Err(FlagsError::NoTransport));
    assert_eq!(check_flags(true, false), Ok(()));
    assert_eq!(check_flags(false, true), Ok(()));
    assert_eq!(check_flags(true, true), Ok(()));
}

#[test]
fn flags_error_reads_as_a_sentence() {
    assert_eq!(
        FlagsError::NoTransport.message(),
        "at least one of TCP or UDP must be enabled"
    );
}

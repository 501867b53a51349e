use p9::Error;

fn all_errors() -> Vec<Error> {
    vec![
        Error::MalformedMessage,
        Error::DuplicateFid,
        Error::UnknownFid,
        Error::NotAttached,
        Error::NotFound,
        Error::PermissionDenied,
        Error::NotADirectory,
        Error::NameTooLong,
        Error::IoError,
        Error::Unimplemented,
    ]
}

#[test]
fn error_codes_are_fixed() {
    assert_eq!(Error::NotFound.code(), 2);
    assert_eq!(Error::IoError.code(), 5);
    assert_eq!(Error::UnknownFid.code(), 9);
    assert_eq!(Error::PermissionDenied.code(), 13);
    assert_eq!(Error::DuplicateFid.code(), 17);
    assert_eq!(Error::NotADirectory.code(), 20);
    assert_eq!(Error::NameTooLong.code(), 36);
    assert_eq!(Error::MalformedMessage.code(), 71);
    assert_eq!(Error::Unimplemented.code(), 95);
    assert_eq!(Error::NotAttached.code(), 107);
}

#[test]
fn error_codes_read_back() {
    for e in all_errors() {
        assert_eq!(Error::from_code(e.code()), Some(e));
    }
}

#[test]
fn unknown_code_stands_for_no_error() {
    assert_eq!(Error::from_code(0), None);
    assert_eq!(Error::from_code(1), None);
    assert_eq!(Error::from_code(108), None);
    assert_eq!(Error::from_code(u32::MAX), None);
}

#[test]
fn only_malformed_message_is_fatal() {
    for e in all_errors() {
        assert_eq!(e.is_fatal(), e == Error::MalformedMessage);
    }
}

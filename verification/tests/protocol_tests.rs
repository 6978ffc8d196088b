use arch_reflector::protocol::{Error, Protocol};

#[test]
fn from_str_parses_known_protocols() {
    assert_eq!(Protocol::from_str("http").unwrap(), Protocol::Http);
    assert_eq!(Protocol::from_str("https").unwrap(), Protocol::Https);
    assert_eq!(Protocol::from_str("rsync").unwrap(), Protocol::Rsync);
}

#[test]
fn from_str_rejects_unknown_protocol() {
    let err = Protocol::from_str("ftp").unwrap_err();
    match &err {
        Error::InvalidProtocol(text) => assert_eq!(text, "ftp"),
    }
    assert_eq!(err.message(), "can't parse 'ftp' to a valid protocol");
}

#[test]
fn from_str_rejects_case_variants() {
    assert!(Protocol::from_str("HTTP").is_err());
    assert!(Protocol::from_str("").is_err());
    assert!(Protocol::from_str("https ").is_err());
}

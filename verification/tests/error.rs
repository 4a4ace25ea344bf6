use telfhash_rs::error::TelfhashError;

#[test]
fn errors_are_reported_with_their_messages() {
    assert_eq!(TelfhashError::Message("plain".to_string()).message(), "plain");
    assert_eq!(TelfhashError::InvalidElf.message(), "Could not parse file as ELF");
    assert_eq!(
        TelfhashError::UnsupportedArchitecture.message(),
        "Unsupported ELF architecture"
    );
    assert_eq!(
        TelfhashError::InvalidGlobPattern("[".to_string()).message(),
        "Invalid glob pattern: ["
    );
    assert_eq!(
        TelfhashError::TlshGeneration("short".to_string()).message(),
        "TLSH generation failed: short"
    );
    assert_eq!(
        TelfhashError::TlshComparison("bad".to_string()).message(),
        "TLSH comparison failed: bad"
    );
    assert_eq!(
        TelfhashError::Serialization("eof".to_string()).message(),
        "Serialization failed: eof"
    );
    let io = std::io::Error::new(std::io::ErrorKind::PermissionDenied, "denied");
    assert_eq!(TelfhashError::Io(io).message(), "I/O error: denied");
}

use loki_file_access::{AccessError, PickerError, TokenParseError};

#[test]
fn picker_error_platform_displays_message() {
    let err = PickerError::Platform {
        message: "dialog failed".into(),
    };
    let msg = err.to_string();
    assert!(!msg.is_empty(), "display string must not be empty");
    assert!(msg.contains("dialog failed"));
}

#[test]
fn picker_error_unsupported_displays_message() {
    let err = PickerError::Unsupported {
        operation: "save".into(),
    };
    let msg = err.to_string();
    assert!(!msg.is_empty());
    assert!(msg.contains("save"));
}

#[test]
fn picker_error_internal_displays_message() {
    let err = PickerError::Internal {
        message: "mutex poisoned".into(),
    };
    let msg = err.to_string();
    assert!(!msg.is_empty());
    assert!(msg.contains("mutex poisoned"));
}

#[test]
fn access_error_permission_revoked_displays_message() {
    let err = AccessError::PermissionRevoked;
    assert!(!err.to_string().is_empty());
}

#[test]
fn access_error_io_displays_message() {
    let err = AccessError::Io {
        source: std::io::Error::new(std::io::ErrorKind::NotFound, "gone"),
    };
    assert!(!err.to_string().is_empty());
}

#[test]
fn access_error_invalid_descriptor_displays_message() {
    let err = AccessError::InvalidDescriptor;
    assert!(!err.to_string().is_empty());
}

#[test]
fn access_error_platform_displays_message() {
    let err = AccessError::Platform {
        message: "fd error".into(),
    };
    let msg = err.to_string();
    assert!(!msg.is_empty());
    assert!(msg.contains("fd error"));
}

#[test]
fn token_parse_error_base64_displays_message() {
    let err = TokenParseError::InvalidBase64 {
        message: "bad padding".into(),
    };
    let msg = err.to_string();
    assert!(!msg.is_empty());
    assert!(msg.contains("bad padding"));
}

#[test]
fn token_parse_error_json_displays_message() {
    let err = TokenParseError::InvalidJson {
        message: "unexpected EOF".into(),
    };
    let msg = err.to_string();
    assert!(!msg.is_empty());
    assert!(msg.contains("unexpected EOF"));
}

#[test]
fn token_parse_error_unknown_variant_displays_message() {
    let err = TokenParseError::UnknownVariant {
        variant: "FuturePlatform".into(),
    };
    let msg = err.to_string();
    assert!(!msg.is_empty());
    assert!(msg.contains("FuturePlatform"));
}

#[test]
fn error_messages_are_exact() {
    assert_eq!(
        PickerError::Platform { message: "x".into() }.to_string(),
        "platform file-picker error: x"
    );
    assert_eq!(
        PickerError::Unsupported { operation: "save".into() }.to_string(),
        "operation not supported on this platform: save"
    );
    assert_eq!(
        PickerError::Internal { message: "m".into() }.to_string(),
        "internal synchronisation error: m"
    );
    assert_eq!(
        AccessError::PermissionRevoked.to_string(),
        "file access permission has been revoked"
    );
    assert_eq!(
        AccessError::InvalidDescriptor.to_string(),
        "invalid file descriptor returned by platform"
    );
    assert_eq!(
        AccessError::Platform { message: "fd".into() }.to_string(),
        "platform access error: fd"
    );
    assert_eq!(
        AccessError::Io { source: std::io::Error::new(std::io::ErrorKind::NotFound, "gone") }
            .to_string(),
        "I/O error: gone"
    );
    assert_eq!(
        TokenParseError::InvalidBase64 { message: "p".into() }.to_string(),
        "invalid base64 encoding: p"
    );
    assert_eq!(
        TokenParseError::InvalidJson { message: "e".into() }.to_string(),
        "invalid JSON in token: e"
    );
    assert_eq!(
        TokenParseError::UnknownVariant { variant: "V".into() }.to_string(),
        "unknown token variant: V"
    );
}

#[test]
fn io_error_converts_into_access_error() {
    let err: AccessError = std::io::Error::new(std::io::ErrorKind::Other, "boom").into();
    assert!(matches!(err, AccessError::Io { .. }));
}

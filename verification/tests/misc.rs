use rhema::bible::cross_reference_key;
use rhema::errors::{AudioError, DetectionError, SttError};

#[test]
fn cross_reference_keys() {
    assert_eq!(cross_reference_key(43, 3, 16), "43:3:16");
    assert_eq!(cross_reference_key(0, -1, 2147483647), "0:-1:2147483647");
    assert_eq!(cross_reference_key(-2147483648, 10, 100), "-2147483648:10:100");
}

#[test]
fn error_messages() {
    assert_eq!(AudioError::DeviceNotFound("mic".to_string()).message(), "Device not found: mic");
    assert_eq!(AudioError::NoInputDevices.message(), "No input devices available");
    assert_eq!(DetectionError::InvalidNumber("x".to_string()).message(), "Invalid chapter or verse number: x");
    assert_eq!(SttError::ApiKeyMissing.message(), "API key is missing");
    assert_eq!(SttError::ParseError("bad".to_string()).message(), "Parse error: bad");
}

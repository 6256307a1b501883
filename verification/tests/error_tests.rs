use gun::error::GunError;
use gun::sea::SeaError;

#[test]
fn test_gun_error_serialization() {
    let json_err = serde_json::from_str::<serde_json::Value>("invalid json").unwrap_err();
    let err = GunError::Serialization(json_err.to_string());
    assert!(err.to_string().contains("Serialization"));
}

#[test]
fn test_gun_error_invalid_data() {
    let err = GunError::InvalidData("invalid".to_string());
    assert!(err.to_string().contains("Invalid"));
}

#[test]
fn test_gun_error_network() {
    let err = GunError::Network("network error".to_string());
    assert!(err.to_string().contains("network"));
}

#[test]
fn test_gun_error_storage() {
    let io_err = std::io::Error::other("storage error");
    let err = GunError::Io(io_err.to_string());
    assert!(err.to_string().contains("storage error"));
}

#[test]
fn test_gun_error_io() {
    let io_err = std::io::Error::new(std::io::ErrorKind::NotFound, "file not found");
    let err = GunError::Io(io_err.to_string());
    assert!(err.to_string().contains("file not found"));
}

#[test]
fn test_gun_error_crypto() {
    let err = GunError::Crypto("crypto error".to_string());
    assert!(err.to_string().contains("crypto"));
}

#[test]
fn test_gun_error_display() {
    let errors: Vec<GunError> = vec![
        GunError::Serialization(serde_json::from_str::<serde_json::Value>("invalid").unwrap_err().to_string()),
        GunError::InvalidData("data".to_string()),
        GunError::Network("net".to_string()),
        GunError::Crypto("crypto".to_string()),
    ];
    for err in errors {
        let _ = err.to_string();
    }
    let io_err = std::io::Error::other("storage");
    let _ = GunError::Io(io_err.to_string()).to_string();
}

#[test]
fn test_gun_error_send_sync() {
    fn assert_send_sync<T: Send + Sync>() {}
    assert_send_sync::<GunError>();
}

#[test]
fn gun_error_messages_exactly() {
    assert_eq!(GunError::InvalidData("x".to_string()).to_string(), "Invalid data: x");
    assert_eq!(GunError::Storage("disk".to_string()).to_string(), "Storage error: disk");
    assert_eq!(GunError::InvalidSoul("s".to_string()).to_string(), "Invalid soul: s");
    assert_eq!(GunError::NodeNotFound.to_string(), "Node not found");
    assert_eq!(GunError::UrlParseError("bad".to_string()).to_string(), "URL parse error: bad");
    assert_eq!(GunError::WebRTC("ice".to_string()).to_string(), "WebRTC error: ice");
    assert_eq!(GunError::Network("down".to_string()).to_string(), "Network error: down");
}

#[test]
fn sea_error_messages_exactly() {
    assert_eq!(SeaError::InvalidKey.to_string(), "Invalid key format");
    assert_eq!(SeaError::VerificationFailed.to_string(), "Signature verification failed");
    assert_eq!(SeaError::Crypto("c".to_string()).to_string(), "Crypto error: c");
    assert_eq!(SeaError::Encryption("e".to_string()).to_string(), "Encryption error: e");
    assert_eq!(SeaError::Decryption("d".to_string()).to_string(), "Decryption error: d");
}

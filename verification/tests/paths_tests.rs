//! Project paths and error labels.

use mic::paths::{default_transcripts_dir, get_config_path, get_logs_path};
use mic::MicError;

#[test]
fn config_path_ends_with_the_config_file() {
    if let Some(p) = get_config_path() {
        assert!(p.ends_with("/config.json"), "unexpected path {}", p);
    }
}

#[test]
fn logs_path_ends_with_the_log_file() {
    if let Some(p) = get_logs_path() {
        assert!(p.ends_with("/mic.log"), "unexpected path {}", p);
    }
}

#[test]
fn transcripts_dir_ends_with_the_directory_name() {
    if let Some(p) = default_transcripts_dir() {
        assert!(p.ends_with("/transcripts"), "unexpected path {}", p);
    }
}

#[test]
fn error_labels_name_each_kind() {
    assert_eq!(MicError::DeviceUnavailable.label(), "DeviceUnavailable");
    assert_eq!(MicError::UnsupportedFormat.label(), "UnsupportedFormat");
    assert_eq!(MicError::CallbackError.label(), "CallbackError");
    assert_eq!(MicError::InvalidFormat.label(), "InvalidFormat");
    assert_eq!(MicError::NetworkError.label(), "NetworkError");
    assert_eq!(MicError::RemoteRejected(503).label(), "RemoteRejected");
    assert_eq!(MicError::ProtocolError.label(), "ProtocolError");
    assert_eq!(MicError::ConsumerError.label(), "ConsumerError");
}

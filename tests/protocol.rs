use marecchia::protocol::{topic_for, ClientError, Namespace, IDENTIFY_PROTOCOL, MAX_NAMESPACE_BYTES};

#[test]
fn empty_namespace_is_rejected() {
    assert_eq!(Namespace::new(String::new()).err(), Some(ClientError::BadNamespace));
}

#[test]
fn namespace_of_256_bytes_is_rejected() {
    assert_eq!(Namespace::new("a".repeat(256)).err(), Some(ClientError::BadNamespace));
}

#[test]
fn namespace_of_255_bytes_is_accepted() {
    let ns = Namespace::new("a".repeat(255)).unwrap();
    assert_eq!(ns.as_str().len(), MAX_NAMESPACE_BYTES);
}

#[test]
fn namespace_length_counts_bytes() {
    // 128 two-byte characters make 256 bytes.
    assert_eq!(Namespace::new("é".repeat(128)).err(), Some(ClientError::BadNamespace));
    assert!(Namespace::new("é".repeat(127)).is_ok());
}

#[test]
fn short_namespace_is_kept() {
    let ns = Namespace::new("S1".to_string()).unwrap();
    assert_eq!(ns.as_str(), "S1");
}

#[test]
fn topic_is_segment_id() {
    assert_eq!(topic_for(&"seg-1".to_string()), "seg-1");
    assert_eq!(topic_for(&String::new()), "");
}

#[test]
fn identify_protocol_name() {
    assert_eq!(IDENTIFY_PROTOCOL, "/marecchia-identify/0.0.1");
}

use pcbmotorgen::transport::{random_client_name, MockTransport};

#[test]
fn test_mock_transport_records_request_and_returns_response() {
    let mut mock = MockTransport::new(vec![1, 2, 3]);
    let out = mock.send_and_recv(&[9, 8]).expect("send_and_recv");
    assert_eq!(out, vec![1, 2, 3]);
    assert_eq!(mock.sent_requests.len(), 1);
    assert_eq!(mock.sent_requests[0], vec![9, 8]);
}

#[test]
fn test_mock_transport_default_connect_is_noop() {
    let mut mock = MockTransport::new(Vec::new());
    mock.connect().expect("connect must be a no-op");
}

#[test]
fn test_random_client_name_format() {
    let name = random_client_name();
    assert!(name.starts_with("pcbmotorgen-"));
    assert_eq!(name.len(), "pcbmotorgen-".len() + 8);
}

#[test]
fn random_client_name_suffix_is_alphanumeric() {
    let name = random_client_name();
    assert!(name["pcbmotorgen-".len()..].chars().all(|c| c.is_ascii_alphanumeric()));
}

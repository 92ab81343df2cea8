use ipa_dp::messaging::MessageBuffer;

#[test]
fn message_after_request_is_delivered() {
    let mut buffer: MessageBuffer<&str> = MessageBuffer::new();
    assert_eq!(buffer.receive_request(3, "waiter"), None);
    assert!(buffer.has_request(3));
    assert_eq!(buffer.receive_message(3, vec![1, 2]), Some(("waiter", vec![1, 2])));
    assert!(!buffer.has_request(3));
    assert!(!buffer.has_message(3));
}

#[test]
fn request_after_message_is_delivered() {
    let mut buffer: MessageBuffer<u8> = MessageBuffer::new();
    assert_eq!(buffer.receive_message(7, vec![9]), None);
    assert!(buffer.has_message(7));
    assert_eq!(buffer.receive_request(7, 1), Some((1, vec![9])));
    assert!(!buffer.has_message(7));
}

#[test]
fn records_are_kept_apart() {
    let mut buffer: MessageBuffer<u8> = MessageBuffer::new();
    assert_eq!(buffer.receive_message(1, vec![1]), None);
    assert_eq!(buffer.receive_request(2, 20), None);
    assert_eq!(buffer.receive_message(2, vec![2]), Some((20, vec![2])));
    assert_eq!(buffer.receive_request(1, 10), Some((10, vec![1])));
}

use seqex::Packet;

#[test]
fn new_accepts_exactly_the_valid_parts() {
    assert_eq!(Packet::new(Some(1), None, false, Some(5)), Some(Packet::Payload(1, 5)));
    assert_eq!(Packet::new(Some(1), None, true, Some(5)), Some(Packet::SeqCstPayload(1, 5)));
    assert_eq!(Packet::new(Some(1), Some(2), false, Some(5)), Some(Packet::Reply(1, 2, 5)));
    assert_eq!(Packet::new(Some(1), Some(2), true, Some(5)), Some(Packet::SeqCstReply(1, 2, 5)));
    assert_eq!(Packet::<u8>::new(None, Some(2), false, None), Some(Packet::Ack(2)));
    assert_eq!(Packet::<u8>::new(None, Some(2), true, None), None);
    assert_eq!(Packet::<u8>::new(None, None, false, None), None);
    assert_eq!(Packet::<u8>::new(Some(1), None, false, None), None);
    assert_eq!(Packet::<u8>::new(Some(1), Some(2), false, None), None);
    assert_eq!(Packet::new(None, Some(2), false, Some(5)), None);
    assert_eq!(Packet::new(None, None, true, Some(5)), None);
}

#[test]
fn new_with_data_makes_payloads_and_replies() {
    assert_eq!(Packet::new_with_data(7, None, false, 'a'), Packet::Payload(7, 'a'));
    assert_eq!(Packet::new_with_data(7, None, true, 'a'), Packet::SeqCstPayload(7, 'a'));
    assert_eq!(Packet::new_with_data(7, Some(3), false, 'a'), Packet::Reply(7, 3, 'a'));
    assert_eq!(Packet::new_with_data(7, Some(3), true, 'a'), Packet::SeqCstReply(7, 3, 'a'));
}

#[test]
fn as_ref_and_cloned_are_inverse() {
    let packets = [
        Packet::Payload(1, "x".to_string()),
        Packet::SeqCstPayload(2, "y".to_string()),
        Packet::Reply(3, 1, "z".to_string()),
        Packet::SeqCstReply(4, 2, "w".to_string()),
        Packet::Ack(9),
    ];
    for packet in packets {
        assert_eq!(packet.as_ref().cloned(), packet);
    }
}

#[test]
fn map_changes_data_only() {
    assert_eq!(Packet::Payload(1, 5).map(|d| d * 2), Packet::Payload(1, 10));
    assert_eq!(Packet::SeqCstPayload(1, 5).map(|d| d * 2), Packet::SeqCstPayload(1, 10));
    assert_eq!(Packet::Reply(1, 2, 5).map(|d| d * 2), Packet::Reply(1, 2, 10));
    assert_eq!(Packet::SeqCstReply(1, 2, 5).map(|d| d * 2), Packet::SeqCstReply(1, 2, 10));
    assert_eq!(Packet::<i32>::Ack(2).map(|d| d * 2), Packet::Ack(2));
}

#[test]
fn payload_and_consume_take_the_data() {
    assert_eq!(Packet::Payload(1, 5).payload(), Some(5));
    assert_eq!(Packet::SeqCstReply(1, 2, 6).payload(), Some(6));
    assert_eq!(Packet::<i32>::Ack(2).payload(), None);
    assert_eq!(Packet::SeqCstPayload(1, 5).consume(), Ok(5));
    assert_eq!(Packet::Reply(1, 2, 6).consume(), Ok(6));
    assert_eq!(Packet::<i32>::Ack(2).consume(), Err(2));
}

#[test]
fn seq_cst_can_be_read_and_set() {
    let mut packet = Packet::Payload(1, 5);
    assert!(!packet.is_seq_cst());
    packet.set_seq_cst(true);
    assert_eq!(packet, Packet::SeqCstPayload(1, 5));
    assert!(packet.is_seq_cst());
    packet.set_seq_cst(true);
    assert_eq!(packet, Packet::SeqCstPayload(1, 5));
    packet.set_seq_cst(false);
    assert_eq!(packet, Packet::Payload(1, 5));
    let mut reply = Packet::Reply(1, 2, 5);
    reply.set_seq_cst(true);
    assert_eq!(reply, Packet::SeqCstReply(1, 2, 5));
    reply.set_seq_cst(false);
    assert_eq!(reply, Packet::Reply(1, 2, 5));
    let mut ack = Packet::<i32>::Ack(2);
    ack.set_seq_cst(true);
    assert_eq!(ack, Packet::Ack(2));
    assert!(!ack.is_seq_cst());
}

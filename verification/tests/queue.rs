use seqex::error::{TryError, TryRawRecvError};
use seqex::seq_queue::{RecvOkRaw, SeqEx};
use seqex::Packet;

type Seq4 = SeqEx<u32, u32, 4>;
type Seq8 = SeqEx<u32, u32, 8>;

fn payload(raw: RecvOkRaw<u32, u32>) -> (u32, bool, u32) {
    match raw {
        RecvOkRaw::Payload { reply_no, seq_cst, recv_data } => (reply_no, seq_cst, recv_data),
        other => panic!("not a payload: {:?}", other),
    }
}

#[test]
fn send_schedules_a_resend() {
    let mut seq = Seq4::new(100, 7);
    assert_eq!(seq.seq_no(), 7);
    assert_eq!(seq.service_timestamp(), i64::MAX);
    assert_eq!(seq.resend_interval(), 100);
    assert_eq!(seq.try_send_direct(1000, false, 5), Ok(Packet::Payload(7, &5)));
    assert_eq!(seq.seq_no(), 8);
    assert_eq!(seq.service_timestamp(), 1100);
    assert_eq!(seq.try_send_direct(2000, true, 6), Ok(Packet::SeqCstPayload(8, &6)));
    assert_eq!(seq.service_timestamp(), 1100);
    assert_eq!(seq.try_send_direct(500, false, 7), Ok(Packet::Payload(9, &7)));
    assert_eq!(seq.service_timestamp(), 600);
}

#[test]
fn default_queue_has_its_own_interval() {
    let seq = Seq4::default();
    assert_eq!(seq.resend_interval(), 200);
    assert_eq!(seq.seq_no(), 0);
    assert_eq!(seqex::DEFAULT_RESEND_INTERVAL_MS, 250);
    assert_eq!(seqex::DEFAULT_WINDOW_CAP, 64);
    assert_eq!(seqex::DEFAULT_INITIAL_SEQ_NO, 0);
}

#[test]
fn full_send_window_waits_for_recv() {
    let mut seq = Seq4::new(100, 0);
    for i in 0..4 {
        assert_eq!(seq.try_send_direct(0, false, i), Ok(Packet::Payload(i, &i)));
    }
    assert_eq!(seq.try_send_direct(0, false, 9), Err((TryError::WaitingForRecv, 9)));
    let mut called = false;
    match seq.try_send_direct_with(0, false, |_| {
        called = true;
        9
    }) {
        Err((e, _)) => assert_eq!(e, TryError::WaitingForRecv),
        Ok(_) => panic!("there is no room"),
    }
    assert!(!called);
    match seq.receive_raw_and_direct(Packet::<u32>::Ack(0)) {
        Ok((RecvOkRaw::Ack { send_data }, do_pump)) => {
            assert_eq!(send_data, 0);
            assert!(!do_pump);
        }
        other => panic!("{:?}", other),
    }
    match seq.try_send_direct_with(0, true, |seq_no| seq_no * 10) {
        Ok(p) => assert_eq!(p, Packet::SeqCstPayload(4, &40)),
        Err(_) => panic!("there is room"),
    };
}

#[test]
fn smallest_window_has_no_room() {
    let mut seq = SeqEx::<u32, u32, 2>::new(100, 0);
    assert_eq!(seq.try_send_direct(0, false, 1), Err((TryError::WaitingForReply, 1)));
    assert_eq!(
        seq.receive_raw_and_direct(Packet::Payload(0, 1u32)).unwrap_err(),
        TryRawRecvError::WaitingForReply
    );
}

#[test]
fn open_replies_keep_room_for_themselves() {
    let mut seq = Seq4::new(100, 0);
    assert!(seq.receive_raw_and_direct(Packet::Payload(0, 10u32)).is_ok());
    // One reply is open, and two slots are kept: one for the reply and one to spare.
    assert!(seq.try_send_direct(0, false, 1).is_ok());
    assert!(seq.receive_raw_and_direct(Packet::Payload(1, 11u32)).is_ok());
    assert_eq!(seq.try_send_direct(0, false, 2), Err((TryError::WaitingForReply, 2)));
    assert_eq!(seq.ack_raw_and_direct(0, false), Some(Packet::Ack(0)));
    assert!(seq.try_send_direct(0, false, 2).is_ok());
}

#[test]
fn payloads_are_handed_out_in_any_order_and_once() {
    let mut seq = Seq8::new(100, 0);
    let (raw, do_pump) = seq.receive_raw_and_direct(Packet::Payload(1, 11u32)).unwrap();
    assert_eq!(payload(raw), (1, false, 11));
    assert!(!do_pump);
    // The duplicate of a packet that was handed out ahead of its turn is dropped.
    assert_eq!(
        seq.receive_raw_and_direct(Packet::Payload(1, 11u32)).unwrap_err(),
        TryRawRecvError::DroppedDuplicate
    );
    assert_eq!(seq.ack_raw_and_direct(1, false), Some(Packet::Ack(1)));
    assert_eq!(
        seq.receive_raw_and_direct(Packet::Payload(1, 11u32)).unwrap_err(),
        TryRawRecvError::DroppedDuplicateResendAck(1)
    );
    let (raw, do_pump) = seq.receive_raw_and_direct(Packet::Payload(0, 10u32)).unwrap();
    assert_eq!(payload(raw), (0, false, 10));
    assert!(!do_pump);
    assert_eq!(
        seq.receive_raw_and_direct(Packet::Payload(0, 10u32)).unwrap_err(),
        TryRawRecvError::DroppedDuplicate
    );
    // Both numbers have been passed, so that 9 is the last one in the window.
    assert_eq!(
        seq.receive_raw_and_direct(Packet::Payload(10, 1u32)).unwrap_err(),
        TryRawRecvError::DroppedTooEarly
    );
    assert!(seq.receive_raw_and_direct(Packet::Payload(9, 1u32)).is_ok());
}

#[test]
fn seq_cst_packets_wait_for_their_turn() {
    let mut seq = Seq8::new(100, 0);
    assert_eq!(
        seq.receive_raw_and_direct(Packet::SeqCstPayload(1, 11u32)).unwrap_err(),
        TryRawRecvError::WaitingForRecv
    );
    assert_eq!(
        seq.receive_raw_and_direct(Packet::SeqCstPayload(2, 12u32)).unwrap_err(),
        TryRawRecvError::WaitingForRecv
    );
    assert_eq!(seq.try_pump_raw().unwrap_err(), TryError::WaitingForRecv);
    let (raw, do_pump) = seq.receive_raw_and_direct(Packet::Payload(0, 10u32)).unwrap();
    assert_eq!(payload(raw), (0, false, 10));
    assert!(do_pump);
    let (raw, do_pump) = seq.try_pump_raw().unwrap();
    assert_eq!(payload(raw), (1, true, 11));
    assert!(do_pump);
    // Packet 1 holds the lock.
    assert_eq!(seq.try_pump_raw().unwrap_err(), TryError::WaitingForReply);
    assert_eq!(
        seq.receive_raw_and_direct(Packet::SeqCstPayload(2, 12u32)).unwrap_err(),
        TryRawRecvError::WaitingForReply
    );
    assert_eq!(seq.ack_raw_and_direct(1, true), Some(Packet::Ack(1)));
    let (raw, do_pump) = seq.try_pump_raw().unwrap();
    assert_eq!(payload(raw), (2, true, 12));
    assert!(!do_pump);
    seq.unlock_raw();
    let (raw, _) = seq.receive_raw_and_direct(Packet::SeqCstPayload(3, 13u32)).unwrap();
    assert_eq!(payload(raw), (3, true, 13));
}

#[test]
fn replies_are_matched_to_what_they_answer() {
    let mut alice = Seq8::new(100, 1);
    let mut bob = Seq8::new(100, 1);
    assert_eq!(alice.try_send_direct(0, false, 50), Ok(Packet::Payload(1, &50)));
    assert_eq!(alice.try_send_direct(0, false, 51), Ok(Packet::Payload(2, &51)));
    assert!(bob.receive_raw_and_direct(Packet::Payload(2, 51u32)).is_ok());
    assert!(bob.receive_raw_and_direct(Packet::Payload(1, 50u32)).is_ok());
    assert_eq!(bob.reply_raw_and_direct(0, 2, false, false, 61), Some(Packet::Reply(1, 2, &61)));
    // A reply number works once.
    assert_eq!(bob.reply_raw_and_direct(0, 2, false, false, 62), None);
    assert_eq!(bob.ack_raw_and_direct(2, false), None);
    match alice.receive_raw_and_direct(Packet::Reply(1, 2, 61u32)) {
        Ok((RecvOkRaw::Reply { reply_no, seq_cst, recv_data, send_data }, false)) => {
            assert_eq!((reply_no, seq_cst, recv_data, send_data), (1, false, 61, 51));
        }
        other => panic!("{:?}", other),
    }
    // The reply to a packet that is being resent keeps it from being acknowledged.
    assert_eq!(
        bob.receive_raw_and_direct(Packet::Payload(2, 51u32)).unwrap_err(),
        TryRawRecvError::DroppedDuplicate
    );
    // An ack of something that was answered is a duplicate.
    assert_eq!(
        alice.receive_raw_and_direct(Packet::<u32>::Ack(2)).unwrap_err(),
        TryRawRecvError::DroppedDuplicate
    );
}

#[test]
fn service_resends_what_is_due() {
    let mut seq = Seq8::new(100, 0);
    assert!(seq.try_send_direct(0, false, 10).is_ok());
    assert!(seq.try_send_direct(50, true, 11).is_ok());
    let mut iter = None;
    assert_eq!(seq.service_direct(99, &mut iter), None);
    assert!(iter.is_none());
    assert_eq!(seq.service_direct(100, &mut iter), Some(Packet::Payload(0, &10)));
    assert_eq!(seq.service_direct(100, &mut iter), None);
    assert_eq!(seq.service_timestamp(), 150);
    let mut iter = None;
    assert_eq!(seq.service_direct(200, &mut iter), Some(Packet::Payload(0, &10)));
    assert_eq!(seq.service_direct(200, &mut iter), Some(Packet::SeqCstPayload(1, &11)));
    assert_eq!(seq.service_direct(200, &mut iter), None);
    assert_eq!(seq.service_timestamp(), 300);
    assert!(seq.receive_raw_and_direct(Packet::<u32>::Ack(0)).is_ok());
    assert!(!seq.is_idle());
    assert!(seq.receive_raw_and_direct(Packet::<u32>::Ack(1)).is_ok());
    assert!(seq.is_idle());
    let mut iter = None;
    assert_eq!(seq.service_direct(300, &mut iter), None);
    assert_eq!(seq.service_timestamp(), i64::MAX);
}

#[test]
fn settle_puts_an_idle_session_off() {
    let mut seq = Seq8::new(100, 0);
    assert!(seq.try_send_direct(0, false, 10).is_ok());
    seq.settle();
    assert_eq!(seq.service_timestamp(), 100);
    assert!(seq.receive_raw_and_direct(Packet::<u32>::Ack(0)).is_ok());
    assert_eq!(seq.service_timestamp(), 100);
    seq.settle();
    assert_eq!(seq.service_timestamp(), i64::MAX);
}

#[test]
fn full_receive_window_drops() {
    let mut seq = Seq4::new(100, 0);
    assert!(seq.can_hold(1));
    for i in 0..4 {
        assert!(seq.try_send_direct(0, false, i).is_ok());
    }
    for i in 0..4u32 {
        assert_eq!(
            seq.receive_raw_and_direct(Packet::Payload(i, i)).unwrap_err(),
            TryRawRecvError::WaitingForRecv
        );
    }
    assert!(!seq.can_hold(1));
    // A slot is never overwritten.
    assert_eq!(
        seq.receive_raw_and_direct(Packet::Payload(2, 99u32)).unwrap_err(),
        TryRawRecvError::WaitingForRecv
    );
    for i in 0..4 {
        assert!(seq.receive_raw_and_direct(Packet::<u32>::Ack(i)).is_ok());
    }
    for i in 0..2u32 {
        assert_eq!(payload(seq.try_pump_raw().unwrap().0), (i, false, i));
    }
    assert_eq!(seq.try_pump_raw().unwrap_err(), TryError::WaitingForReply);
    assert_eq!(seq.ack_raw_and_direct(0, false), Some(Packet::Ack(0)));
    assert_eq!(payload(seq.try_pump_raw().unwrap().0), (2, false, 2));
}

#[test]
fn numbers_wrap_around() {
    let mut alice = Seq8::new(100, u32::MAX);
    let mut bob = Seq8::new(100, u32::MAX);
    for (n, number) in [u32::MAX, 0, 1, 2].into_iter().enumerate() {
        let n = n as u32;
        assert_eq!(alice.try_send_direct(0, true, n), Ok(Packet::SeqCstPayload(number, &n)));
        let (raw, _) = bob.receive_raw_and_direct(Packet::SeqCstPayload(number, n)).unwrap();
        assert_eq!(payload(raw), (number, true, n));
        assert_eq!(bob.ack_raw_and_direct(number, true), Some(Packet::Ack(number)));
        assert!(alice.receive_raw_and_direct(Packet::<u32>::Ack(number)).is_ok());
    }
    assert_eq!(
        bob.receive_raw_and_direct(Packet::SeqCstPayload(u32::MAX, 0u32)).unwrap_err(),
        TryRawRecvError::DroppedDuplicateResendAck(u32::MAX)
    );
}

#[test]
fn iterators_go_over_the_send_window() {
    let mut seq = Seq8::new(100, 6);
    for i in 0..4 {
        assert!(seq.try_send_direct(0, false, i).is_ok());
    }
    // Packets 6 to 9 lie in slots 6, 7, 0 and 1.
    let mut iter = seq.iter();
    assert_eq!(iter.next(), Some(&2));
    assert_eq!(iter.next_back(), Some(&1));
    assert_eq!(iter.next(), Some(&3));
    assert_eq!(iter.next_back(), Some(&0));
    assert_eq!(iter.next(), None);
    assert_eq!(iter.next_back(), None);
    let mut iter = seq.iter_mut();
    *iter.next().unwrap() += 100;
    *iter.next_back().unwrap() += 200;
    let mut data = Vec::new();
    let mut iter = seq.iter();
    while let Some(d) = iter.next() {
        data.push(*d);
    }
    assert_eq!(data, vec![102, 3, 0, 201]);
}

#[test]
fn no_room_for_a_reply_drops() {
    let mut seq = SeqEx::<u8, u8, 4>::new(200, 0);
    assert!(seq.receive_raw_and_direct(Packet::Payload(0, 1u8)).is_ok());
    assert!(seq.receive_raw_and_direct(Packet::Payload(1, 2u8)).is_ok());
    for packet in [Packet::Payload(2, 3u8), Packet::SeqCstPayload(2, 3)] {
        assert_eq!(
            seq.receive_raw_and_direct(packet).unwrap_err(),
            TryRawRecvError::WaitingForReply
        );
        assert!(seq.can_hold(2));
    }
    assert!(seq.ack_raw_and_direct(0, false).is_some());
    assert!(seq.ack_raw_and_direct(1, false).is_some());
    // It was not saved, and is handed out when it comes again.
    assert_eq!(seq.try_pump_raw().unwrap_err(), TryError::WaitingForRecv);
    match seq.receive_raw_and_direct(Packet::Payload(2, 3u8)) {
        Ok((RecvOkRaw::Payload { reply_no: 2, seq_cst: false, recv_data: 3 }, false)) => {}
        other => panic!("{:?}", other),
    }
}

#[test]
fn locked_out_seq_cst_packets_are_saved() {
    let mut seq = Seq8::new(100, 0);
    assert!(seq.receive_raw_and_direct(Packet::SeqCstPayload(0, 10u32)).is_ok());
    assert_eq!(
        seq.receive_raw_and_direct(Packet::SeqCstPayload(1, 11u32)).unwrap_err(),
        TryRawRecvError::WaitingForReply
    );
    assert!(!seq.can_hold(1));
    assert_eq!(seq.try_pump_raw().unwrap_err(), TryError::WaitingForReply);
    assert!(seq.ack_raw_and_direct(0, true).is_some());
    assert_eq!(payload(seq.try_pump_raw().unwrap().0), (1, true, 11));
}

#[test]
fn resend_interval_can_be_set() {
    let mut seq = Seq4::new(100, 0);
    assert!(seq.try_send_direct(1000, false, 1).is_ok());
    assert_eq!(seq.service_timestamp(), 1100);
    seq.set_resend_interval(30);
    assert_eq!(seq.resend_interval(), 30);
    // What was sent before keeps its time.
    assert_eq!(seq.service_timestamp(), 1100);
    assert!(seq.try_send_direct(1000, false, 2).is_ok());
    assert_eq!(seq.service_timestamp(), 1030);
}

#[test]
fn any_peer_is_served_in_order_and_overwrites_nothing() {
    let mut state: u64 = 5;
    let mut roll = |sides: u64| {
        state = state.wrapping_mul(6364136223846793005).wrapping_add(1442695040888963407);
        (state >> 33) % sides
    };
    let base: u32 = u32::MAX - 20;
    let mut seq = Seq8::new(100, base);
    let mut sent: Vec<u32> = Vec::new();
    // Which packet of ours each packet of the remote peer is a reply to.
    let mut replies: Vec<Option<u32>> = Vec::new();
    let mut handed: Vec<u32> = Vec::new();
    let mut open: Vec<(u32, bool)> = Vec::new();
    let mut data: u32 = 0;
    for now in 0..20000i64 {
        match roll(6) {
            0 => {
                data += 1;
                let number = seq.seq_no();
                if window(&seq).len() < 3 && seq.try_send_direct(now, roll(2) == 0, data).is_ok() {
                    sent.push(number);
                }
            }
            1 => {
                if open.len() > 0 {
                    let i = roll(open.len() as u64) as usize;
                    let (reply_no, lock) = open.swap_remove(i);
                    if roll(2) == 0 || window(&seq).len() > 4 {
                        assert!(seq.ack_raw_and_direct(reply_no, lock).is_some());
                    } else {
                        let mut before = window(&seq);
                        data += 1;
                        let number = seq.seq_no();
                        assert!(seq.reply_raw_and_direct(now, reply_no, lock, false, data).is_some());
                        sent.push(number);
                        let mut after = window(&seq);
                        before.push(data);
                        before.sort();
                        after.sort();
                        assert_eq!(before, after);
                    }
                }
            }
            2 => {
                if sent.len() > 0 {
                    let i = roll(sent.len() as u64) as usize;
                    let number = sent.swap_remove(i);
                    assert!(seq.receive_raw_and_direct(Packet::<u32>::Ack(number)).is_ok());
                }
            }
            _ => {
                let result = if roll(4) == 0 {
                    let locked = open.iter().any(|(_, lock)| *lock);
                    let result = seq.try_pump_raw().ok();
                    if let Some((RecvOkRaw::Payload { seq_cst: true, .. }, _)) = &result {
                        assert!(!locked);
                    }
                    result
                } else {
                    // Anything in the window, ahead of it or behind it.
                    let next = (0..).find(|u| !handed.contains(u)).unwrap();
                    let v = (next as u64 + roll(14)).saturating_sub(4) as usize;
                    while replies.len() <= v {
                        let u = replies.len();
                        let claims = u % 3 != 0 && u < next as usize + 8;
                        let reply = if claims && roll(4) == 0 && sent.len() > 0 {
                            let i = roll(sent.len() as u64) as usize;
                            Some(sent.swap_remove(i))
                        } else {
                            None
                        };
                        replies.push(reply);
                    }
                    let s = base.wrapping_add(v as u32);
                    let packet = match (replies[v], v % 3 == 0) {
                        (None, false) => Packet::Payload(s, v as u32),
                        (None, true) => Packet::SeqCstPayload(s, v as u32),
                        (Some(r), false) => Packet::Reply(s, r, v as u32),
                        (Some(r), true) => Packet::SeqCstReply(s, r, v as u32),
                    };
                    seq.receive_raw_and_direct(packet).ok()
                };
                let (reply_no, seq_cst, v) = match result {
                    Some((RecvOkRaw::Payload { reply_no, seq_cst, recv_data }, _)) => {
                        (reply_no, seq_cst, recv_data)
                    }
                    Some((RecvOkRaw::Reply { reply_no, seq_cst, recv_data, .. }, _)) => {
                        (reply_no, seq_cst, recv_data)
                    }
                    _ => continue,
                };
                assert_eq!(reply_no, base.wrapping_add(v));
                assert_eq!(seq_cst, v % 3 == 0);
                assert!(!handed.contains(&v));
                if seq_cst {
                    assert!(open.iter().all(|(_, lock)| !lock));
                    assert!((0..v).all(|u| handed.contains(&u)));
                }
                handed.push(v);
                open.push((reply_no, seq_cst));
            }
        }
    }
    // The numbers have wrapped around.
    assert!(handed.len() > 30);
}

fn window(seq: &Seq8) -> Vec<u32> {
    let mut data = Vec::new();
    let mut iter = seq.iter();
    while let Some(d) = iter.next() {
        data.push(*d);
    }
    data
}

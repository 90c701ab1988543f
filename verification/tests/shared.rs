use seqex::error::TryError;
use seqex::sync::{
    received_by_pump, ClosedError, IterStep, PumpStep, ReceiveStep, RecvError, RecvIter, RecvOk,
    ReplyGuard, SendStep, SeqEx, TimedSendStep, TryRecvError, TrySendError, WaitOn, Wake,
};
use seqex::{Packet, TransportLayer};
use std::cell::{Cell, RefCell};
use std::collections::VecDeque;

struct Recorder {
    sent: RefCell<VecDeque<Packet<u32>>>,
    time: Cell<i64>,
}

impl Recorder {
    fn new() -> Self {
        Recorder { sent: RefCell::new(VecDeque::new()), time: Cell::new(0) }
    }

    fn take(&self) -> Option<Packet<u32>> {
        self.sent.borrow_mut().pop_front()
    }
}

impl<'a> TransportLayer<u32> for &'a Recorder {
    fn time(&mut self) -> i64 {
        self.time.get()
    }

    fn send(&mut self, packet: Packet<&u32>) {
        self.sent.borrow_mut().push_back(packet.cloned());
    }
}

type Session = SeqEx<u32, u32, 4>;

fn guard(ok: RecvOk<u32, u32>) -> ReplyGuard {
    ok.consume().0.unwrap().0
}

fn full_session(tl: &mut &Recorder) -> Session {
    let mut seq = Session::new(100, 0);
    for i in 0..4 {
        assert!(seq.try_send(tl, false, i).is_ok());
    }
    seq
}

#[test]
fn send_tells_when_the_next_service_is_earlier() {
    let wire = Recorder::new();
    let mut tl = &wire;
    let mut seq = Session::new(100, 0);
    wire.time.set(1000);
    assert_eq!(seq.try_send(&mut tl, false, 1), Ok(Some(1100)));
    assert_eq!(seq.try_send(&mut tl, false, 2), Ok(None));
    wire.time.set(900);
    match seq.send(&mut tl, true, 3) {
        SendStep::Done(result) => assert_eq!(result, Ok(Some(1000))),
        SendStep::Wait(..) => panic!("there is room"),
    }
    match seq.send_with(&mut tl, true, |seq_no| seq_no + 10) {
        SendStep::Done(result) => assert_eq!(result, Ok(None)),
        SendStep::Wait(..) => panic!("there is room"),
    }
    assert_eq!(wire.take(), Some(Packet::Payload(0, 1)));
    assert_eq!(wire.take(), Some(Packet::Payload(1, 2)));
    assert_eq!(wire.take(), Some(Packet::SeqCstPayload(2, 3)));
    assert_eq!(wire.take(), Some(Packet::SeqCstPayload(3, 13)));
    assert_eq!(seq.try_send(&mut tl, false, 9), Err((TrySendError::WaitingForRecv, 9)));
    match seq.try_send_with(&mut tl, false, |seq_no| seq_no) {
        Err((e, f)) => {
            assert_eq!(e, TrySendError::WaitingForRecv);
            assert_eq!(f(5), 5);
        }
        Ok(_) => panic!("there is no room"),
    }
}

#[test]
fn senders_wait_and_are_woken() {
    let wire = Recorder::new();
    let mut tl = &wire;
    let mut seq = full_session(&mut tl);
    let data = match seq.send(&mut tl, false, 9) {
        SendStep::Wait(WaitOn::Recv, data) => data,
        other => panic!("{:?}", other),
    };
    match seq.try_receive(&mut tl, Packet::Ack(0)) {
        (Ok((RecvOk::Ack { send_data }, false)), wake) => {
            assert_eq!(send_data, 0);
            assert_eq!(wake, Wake::OneOnRecv);
        }
        other => panic!("{:?}", other),
    }
    match seq.send_again(WaitOn::Recv, &mut tl, false, data) {
        SendStep::Done(result) => assert_eq!(result, Ok(None)),
        other => panic!("{:?}", other),
    }
    // Nobody waits any more.
    match seq.try_receive(&mut tl, Packet::Ack(1)) {
        (Ok(_), wake) => assert_eq!(wake, Wake::Nobody),
        other => panic!("{:?}", other),
    }
    assert_eq!(seq.try_receive(&mut tl, Packet::Ack(1)).0.unwrap_err(), TryRecvError::OutOfSequence);
}

#[test]
fn senders_wait_for_replies() {
    let wire = Recorder::new();
    let mut tl = &wire;
    let mut seq = Session::new(100, 0);
    let first = guard(seq.try_receive(&mut tl, Packet::Payload(0, 5)).0.unwrap().0);
    let second = guard(seq.try_receive(&mut tl, Packet::Payload(1, 6)).0.unwrap().0);
    let f = match seq.send_with(&mut tl, false, |seq_no| seq_no + 50) {
        SendStep::Wait(WaitOn::Reply, f) => f,
        _ => panic!("two replies are open"),
    };
    assert_eq!(first.release(&mut seq, &mut tl), Wake::AllOnReply);
    assert_eq!(wire.take(), Some(Packet::Ack(0)));
    match seq.send_with_again(WaitOn::Reply, &mut tl, false, f) {
        SendStep::Done(result) => assert_eq!(result, Ok(Some(100))),
        _ => panic!("there is room"),
    }
    assert_eq!(wire.take(), Some(Packet::Payload(0, 50)));
    assert_eq!(second.release(&mut seq, &mut tl), Wake::Nobody);
}

#[test]
fn only_one_thread_waits_to_pump() {
    let wire = Recorder::new();
    let mut tl = &wire;
    let mut seq = Session::new(100, 0);
    let (ok, _) = seq.try_receive(&mut tl, Packet::SeqCstPayload(0, 5)).0.unwrap();
    let first = guard(ok);
    assert!(first.is_seq_cst());
    match seq.receive(&mut tl, Packet::SeqCstPayload(1, 6)) {
        (ReceiveStep::Pump, wake) => assert_eq!(wake, Wake::Nobody),
        other => panic!("{:?}", other),
    }
    match seq.pump() {
        (PumpStep::Wait, Wake::Nobody) => {}
        other => panic!("{:?}", other),
    }
    match seq.pump() {
        (PumpStep::Done(None), Wake::Nobody) => {}
        other => panic!("{:?}", other),
    }
    assert_eq!(seq.try_pump().0.unwrap_err(), TryError::WaitingForReply);
    // A spurious wakeup.
    match seq.pump_again() {
        (PumpStep::Wait, Wake::Nobody) => {}
        other => panic!("{:?}", other),
    }
    assert_eq!(first.release(&mut seq, &mut tl), Wake::AllOnReply);
    let pumped = match seq.pump_again() {
        (PumpStep::Done(pumped), Wake::Nobody) => pumped,
        other => panic!("{:?}", other),
    };
    let (ok, do_pump) = received_by_pump(pumped).unwrap();
    assert!(!do_pump);
    let (brought, answered) = ok.consume();
    assert_eq!(answered, None);
    assert_eq!(brought.unwrap().1, 6);
    assert_eq!(received_by_pump::<u32, u32>(None).unwrap_err(), RecvError::OutOfSequence);
}

#[test]
fn receive_reports_errors() {
    let wire = Recorder::new();
    let mut tl = &wire;
    let mut seq = Session::new(100, 0);
    match seq.receive(&mut tl, Packet::SeqCstPayload(1, 6)) {
        (ReceiveStep::Done(Err(e)), _) => assert_eq!(e, RecvError::OutOfSequence),
        other => panic!("{:?}", other),
    }
    match seq.receive(&mut tl, Packet::Payload(0, 6)) {
        (ReceiveStep::Done(Ok((_, do_pump))), _) => assert!(do_pump),
        other => panic!("{:?}", other),
    }
    assert_eq!(
        seq.try_receive(&mut tl, Packet::Payload(50, 6)).0.unwrap_err(),
        TryRecvError::OutOfSequence
    );
    seq.close();
    match seq.receive(&mut tl, Packet::Payload(2, 6)) {
        (ReceiveStep::Done(Err(e)), Wake::Nobody) => assert_eq!(e, RecvError::Closed),
        other => panic!("{:?}", other),
    }
}

#[test]
fn timed_sends_give_up_late() {
    let wire = Recorder::new();
    let mut tl = &wire;
    let mut seq = full_session(&mut tl);
    wire.time.set(1000);
    let (data, end_time) = match seq.send_timeout(&mut tl, false, 30, 9) {
        TimedSendStep::Wait { on: WaitOn::Recv, data, millis, end_time } => {
            assert_eq!((millis, end_time), (30, 1030));
            (data, end_time)
        }
        other => panic!("{:?}", other),
    };
    wire.time.set(1029);
    let data = match seq.send_timeout_again(WaitOn::Recv, &mut tl, end_time, false, data) {
        TimedSendStep::Wait { on: WaitOn::Recv, data, millis, end_time } => {
            assert_eq!((millis, end_time), (1, 1030));
            data
        }
        other => panic!("{:?}", other),
    };
    wire.time.set(1030);
    match seq.send_timeout_again(WaitOn::Recv, &mut tl, end_time, false, data) {
        TimedSendStep::Done(result) => {
            assert_eq!(result, Err((TrySendError::WaitingForRecv, 9)));
        }
        other => panic!("{:?}", other),
    }
    // A timeout that has passed does not make the thread wait.
    match seq.send_timeout(&mut tl, false, -5, 9) {
        TimedSendStep::Wait { millis, end_time, .. } => {
            assert_eq!((millis, end_time), (0, 1025));
        }
        other => panic!("{:?}", other),
    }
    match seq.send_timeout(&mut tl, false, i64::MAX, 9) {
        TimedSendStep::Wait { millis, end_time, .. } => {
            assert_eq!((millis, end_time), ((i64::MAX - 1030) as u64, i64::MAX));
        }
        other => panic!("{:?}", other),
    }
    assert!(seq.try_receive(&mut tl, Packet::Ack(0)).0.is_ok());
    match seq.send_timeout(&mut tl, false, 30, 9) {
        TimedSendStep::Done(result) => assert_eq!(result, Ok(None)),
        other => panic!("{:?}", other),
    }
}

#[test]
fn timed_sends_with_a_function() {
    let wire = Recorder::new();
    let mut tl = &wire;
    let mut seq = Session::new(100, 0);
    let first = guard(seq.try_receive(&mut tl, Packet::Payload(0, 5)).0.unwrap().0);
    let second = guard(seq.try_receive(&mut tl, Packet::Payload(1, 6)).0.unwrap().0);
    let (f, end_time) = match seq.send_with_timeout(&mut tl, false, 30, |seq_no| seq_no + 50) {
        TimedSendStep::Wait { on: WaitOn::Reply, data, millis: 30, end_time } => (data, end_time),
        _ => panic!("two replies are open"),
    };
    wire.time.set(10);
    let f = match seq.send_with_timeout_again(WaitOn::Reply, &mut tl, end_time, false, f) {
        TimedSendStep::Wait { on: WaitOn::Reply, data, millis: 20, end_time: 30 } => data,
        _ => panic!("two replies are open"),
    };
    assert_eq!(first.release(&mut seq, &mut tl), Wake::AllOnReply);
    wire.time.set(40);
    let f = match seq.send_with_timeout_again(WaitOn::Reply, &mut tl, end_time, false, f) {
        TimedSendStep::Done(Err((e, f))) => {
            assert_eq!(e, TrySendError::WaitingForReply);
            f
        }
        _ => panic!("the time is up"),
    };
    match seq.send_with_timeout(&mut tl, false, 30, f) {
        TimedSendStep::Done(result) => assert!(matches!(result, Ok(Some(140)))),
        _ => panic!("there is room"),
    }
    second.release(&mut seq, &mut tl);
}

#[test]
fn guards_reply_and_unlock() {
    let wire = Recorder::new();
    let mut tl = &wire;
    let mut seq = SeqEx::<u32, u32, 8>::new(100, 0);
    let first = guard(seq.try_receive(&mut tl, Packet::SeqCstPayload(0, 5)).0.unwrap().0);
    assert_eq!(first.reply(&mut seq, &mut tl, false, 70), (Some(100), Wake::Nobody));
    assert_eq!(wire.take(), Some(Packet::Reply(0, 0, 70)));
    let mut second = guard(seq.try_receive(&mut tl, Packet::SeqCstPayload(1, 6)).0.unwrap().0);
    assert_eq!(second.unlock(&mut seq), (true, Wake::Nobody));
    assert_eq!(second.unlock(&mut seq), (false, Wake::Nobody));
    let third = guard(seq.try_receive(&mut tl, Packet::SeqCstPayload(2, 7)).0.unwrap().0);
    let (lock, wake) = second.ack(&mut seq, &mut tl);
    assert!(lock.is_none());
    assert_eq!(wake, Wake::Nobody);
    assert_eq!(wire.take(), Some(Packet::Ack(1)));
    let (lock, update, wake) = third.reply_stay_locked(&mut seq, &mut tl, true, 80);
    assert_eq!((update, wake), (None, Wake::Nobody));
    assert_eq!(wire.take(), Some(Packet::SeqCstReply(1, 2, 80)));
    assert_eq!(
        seq.try_receive(&mut tl, Packet::SeqCstPayload(3, 8)).0.unwrap_err(),
        TryRecvError::WaitingForReply
    );
    match seq.pump() {
        (PumpStep::Wait, _) => {}
        other => panic!("{:?}", other),
    }
    assert_eq!(lock.unwrap().release(&mut seq), Wake::AllOnReply);
    let fourth = match seq.pump_again() {
        (PumpStep::Done(Some((ok, _))), _) => guard(ok),
        other => panic!("{:?}", other),
    };
    let (reply_no, locked) = fourth.to_components();
    assert_eq!((reply_no, locked), (3, true));
    let fourth = ReplyGuard::from_components(reply_no, locked);
    let (lock, update, _) =
        fourth.reply_with_stay_locked(&mut seq, &mut tl, false, |seq_no, reply_no| seq_no * 10 + reply_no);
    assert!(lock.is_some());
    assert_eq!(update, None);
    assert_eq!(wire.take(), Some(Packet::Reply(2, 3, 23)));
    assert_eq!(lock.unwrap().release(&mut seq), Wake::Nobody);
    let fifth = guard(seq.try_receive(&mut tl, Packet::Payload(4, 9)).0.unwrap().0);
    let (update, wake) = fifth.reply_with(&mut seq, &mut tl, false, |seq_no, reply_no| seq_no + reply_no);
    assert_eq!((update, wake), (None, Wake::Nobody));
    assert_eq!(wire.take(), Some(Packet::Reply(3, 4, 7)));
}

#[test]
fn closing_disables_sending_and_receiving_only() {
    let wire = Recorder::new();
    let mut tl = &wire;
    let mut seq = SeqEx::<u32, u32, 8>::new(100, 0);
    let mut open = Vec::new();
    for i in 0..4u32 {
        open.push(guard(seq.try_receive(&mut tl, Packet::Payload(i, i)).0.unwrap().0));
    }
    let locked = guard(seq.try_receive(&mut tl, Packet::SeqCstPayload(4, 4)).0.unwrap().0);
    assert_eq!(
        seq.try_receive(&mut tl, Packet::SeqCstPayload(5, 5)).0.unwrap_err(),
        TryRecvError::WaitingForReply
    );
    assert!(!seq.is_closed());
    assert_eq!(seq.close(), Wake::Nobody);
    assert!(seq.is_closed());
    assert_eq!(seq.try_send(&mut tl, false, 1), Err((TrySendError::Closed, 1)));
    assert!(matches!(seq.try_send_with(&mut tl, false, |_| 1), Err((TrySendError::Closed, _))));
    assert!(matches!(seq.send(&mut tl, false, 1), SendStep::Done(Err(ClosedError))));
    assert!(matches!(seq.send_with(&mut tl, false, |_| 1), SendStep::Done(Err(ClosedError))));
    assert!(matches!(
        seq.send_timeout(&mut tl, false, 5, 1),
        TimedSendStep::Done(Err((TrySendError::Closed, 1)))
    ));
    assert!(matches!(
        seq.send_with_timeout(&mut tl, false, 5, |_| 1),
        TimedSendStep::Done(Err((TrySendError::Closed, _)))
    ));
    assert_eq!(
        seq.try_receive(&mut tl, Packet::Payload(6, 6)).0.unwrap_err(),
        TryRecvError::Closed
    );
    assert_eq!(seq.service(&mut tl), 100);
    assert_eq!(seq.service_scheduled(&mut tl), Err(ClosedError));
    // What is in the receive window can still be processed, once the guards are gone.
    match seq.pump() {
        (PumpStep::Wait, _) => {}
        other => panic!("{:?}", other),
    }
    assert_eq!(locked.release(&mut seq, &mut tl), Wake::AllOnReply);
    let last = match seq.pump_again() {
        (PumpStep::Done(Some((ok, false))), Wake::Nobody) => guard(ok),
        other => panic!("{:?}", other),
    };
    assert_eq!(last.reply(&mut seq, &mut tl, false, 9), (None, Wake::Nobody));
    let one = open.pop().unwrap();
    assert_eq!(one.reply_with(&mut seq, &mut tl, false, |_, _| panic!("not called")), (None, Wake::Nobody));
    let (lock, wake) = open.pop().unwrap().ack(&mut seq, &mut tl);
    assert!(lock.is_none());
    assert_eq!(wake, Wake::Nobody);
    let (lock, update, wake) = open.pop().unwrap().reply_stay_locked(&mut seq, &mut tl, false, 3);
    assert!(lock.is_none());
    assert_eq!((update, wake), (None, Wake::Nobody));
    let (lock, update, _) =
        open.pop().unwrap().reply_with_stay_locked(&mut seq, &mut tl, false, |_, _| 3);
    assert!(lock.is_none());
    assert_eq!(update, None);
    assert_eq!(wire.take(), None);
}

#[test]
fn closing_wakes_all_senders() {
    let wire = Recorder::new();
    let mut tl = &wire;
    let mut seq = full_session(&mut tl);
    for _ in 0..3 {
        assert!(matches!(seq.send(&mut tl, false, 9), SendStep::Wait(WaitOn::Recv, 9)));
    }
    assert_eq!(seq.close(), Wake::AllOnRecv);
    for _ in 0..3 {
        assert!(matches!(
            seq.send_again(WaitOn::Recv, &mut tl, false, 9),
            SendStep::Done(Err(ClosedError))
        ));
    }
    assert_eq!(seq.close(), Wake::Nobody);
}

#[test]
fn service_is_scheduled() {
    let wire = Recorder::new();
    let mut tl = &wire;
    let mut seq = Session::default();
    assert_eq!(seq.service_scheduled(&mut tl), Ok(i64::MAX));
    assert_eq!(seq.try_send(&mut tl, false, 1), Ok(Some(250)));
    assert_eq!(wire.take(), Some(Packet::Payload(0, 1)));
    wire.time.set(100);
    assert_eq!(seq.service_scheduled(&mut tl), Ok(250));
    assert_eq!(seq.service(&mut tl), 150);
    assert_eq!(wire.take(), None);
    wire.time.set(260);
    assert_eq!(seq.service_scheduled(&mut tl), Ok(510));
    assert_eq!(wire.take(), Some(Packet::Payload(0, 1)));
    assert!(seq.try_receive(&mut tl, Packet::Ack(0)).0.is_ok());
    // The send window is empty, so nothing has to be resent.
    assert_eq!(seq.service_scheduled(&mut tl), Ok(i64::MAX));
    wire.time.set(300);
    assert_eq!(seq.try_send(&mut tl, false, 2), Ok(Some(550)));
}

#[test]
fn iterators_empty_the_receive_window() {
    let wire = Recorder::new();
    let mut tl = &wire;
    let mut seq = SeqEx::<u32, u32, 8>::new(100, 0);
    let (mut iter, wake) = seq.try_receive_all(&mut tl, Packet::SeqCstPayload(1, 11));
    assert_eq!(wake, Wake::Nobody);
    assert!(matches!(iter.next(), IterStep::Done(None)));
    let (mut iter, _) = seq.try_receive_all(&mut tl, Packet::Payload(0, 10));
    match iter.next() {
        IterStep::Done(Some(RecvOk::Payload { recv_data: 10, .. })) => {}
        other => panic!("{:?}", other),
    }
    assert!(matches!(iter.next(), IterStep::TryPump));
    match iter.pumped(seq.try_pump().0.ok()) {
        Some(RecvOk::Payload { recv_data: 11, .. }) => {}
        other => panic!("{:?}", other),
    }
    assert!(matches!(iter.next(), IterStep::Done(None)));
    // Packet 1 holds the lock, so packet 2 has to be pumped.
    let (iter, _) = seq.receive_all(&mut tl, Packet::SeqCstPayload(2, 12));
    assert!(iter.is_none());
    let (iter, _) = seq.receive_all(&mut tl, Packet::Payload(0, 10));
    assert!(matches!(iter.unwrap().next(), IterStep::Done(None)));
    let (iter, _) = seq.receive_all(&mut tl, Packet::Payload(3, 13));
    let mut iter = iter.unwrap();
    assert!(matches!(iter.next(), IterStep::Done(Some(_))));
    assert!(matches!(iter.next(), IterStep::Done(None)));
    let mut blocking = RecvIter::<u32, u32>::new(None, true);
    assert!(matches!(blocking.next(), IterStep::Done(None)));
    let ok = RecvOk::new(None, Some(1)).unwrap();
    let mut blocking = RecvIter::<u32, u32>::new(Some((ok, true)), true);
    assert!(matches!(blocking.next(), IterStep::Done(Some(RecvOk::Ack { send_data: 1 }))));
    assert!(matches!(blocking.next(), IterStep::Pump));
    assert!(blocking.pumped(None).is_none());
    assert!(matches!(blocking.next(), IterStep::Pump));
    assert!(RecvOk::<u32, u32>::new(None, None).is_none());
}

#[test]
fn shared_sessions_lose_nothing() {
    let mut state: u64 = 11;
    let mut roll = |sides: u64| {
        state = state.wrapping_mul(6364136223846793005).wrapping_add(1442695040888963407);
        (state >> 33) % sides
    };
    let wires = [Recorder::new(), Recorder::new()];
    let mut in_flight: [Vec<Packet<u32>>; 2] = [Vec::new(), Vec::new()];
    let mut peers = [SeqEx::<u32, u32, 16>::new(50, 9), SeqEx::<u32, u32, 16>::new(50, 9)];
    let mut next = [0u32, 0];
    let mut open: [Vec<ReplyGuard>; 2] = [Vec::new(), Vec::new()];
    let mut received: [Vec<u32>; 2] = [Vec::new(), Vec::new()];
    let mut answered = [0u32, 0];
    let count = 80;
    for now in 0..100000 {
        let me = roll(2) as usize;
        wires[me].time.set(now);
        let mut tl = &wires[me];
        match roll(5) {
            0 => {
                // Every packet whose data is divisible by three is SeqCst.
                if next[me] < count && next[me] - answered[me] < 4 {
                    if peers[me].try_send(&mut tl, next[me] % 3 == 0, next[me]).is_ok() {
                        next[me] += 1;
                    }
                }
            }
            1 => {
                if open[me].len() > 0 {
                    let i = roll(open[me].len() as u64) as usize;
                    let guard = open[me].swap_remove(i);
                    if roll(2) == 0 && next[me] < count {
                        guard.reply(&mut peers[me], &mut tl, next[me] % 3 == 0, next[me]);
                        next[me] += 1;
                    } else {
                        guard.release(&mut peers[me], &mut tl);
                    }
                }
            }
            2 => {
                assert!(peers[me].service_scheduled(&mut tl).unwrap() > now);
            }
            _ => {
                let other = 1 - me;
                let ok = if roll(4) == 0 {
                    peers[me].try_pump().0.ok()
                } else if in_flight[other].len() > 0 {
                    let i = roll(in_flight[other].len() as u64) as usize;
                    let packet =
                        if roll(4) == 0 { in_flight[other][i] } else { in_flight[other].swap_remove(i) };
                    peers[me].try_receive(&mut tl, packet).0.ok()
                } else {
                    None
                };
                if let Some((ok, _)) = ok {
                    let (brought, sent) = ok.consume();
                    if let Some((guard, data)) = brought {
                        received[me].push(data);
                        open[me].push(guard);
                    }
                    if sent.is_some() {
                        answered[me] += 1;
                    }
                }
            }
        }
        while let Some(packet) = wires[me].take() {
            if roll(3) != 0 {
                in_flight[me].push(packet);
            }
        }
        if answered == [count, count] {
            break;
        }
    }
    assert_eq!(answered, [count, count]);
    for me in 0..2 {
        for (p, data) in received[me].iter().enumerate() {
            if data % 3 == 0 {
                for before in 0..*data {
                    assert!(received[me][..p].contains(&before));
                }
            }
        }
        received[me].sort();
        let all: Vec<u32> = (0..count).collect();
        assert_eq!(received[me], all);
    }
}

#[test]
fn seq_cst_sends_arrive_as_a_stream() {
    let mut state: u64 = 23;
    let mut roll = |sides: u64| {
        state = state.wrapping_mul(6364136223846793005).wrapping_add(1442695040888963407);
        (state >> 33) % sides
    };
    let wires = [Recorder::new(), Recorder::new()];
    let mut in_flight: [Vec<Packet<u32>>; 2] = [Vec::new(), Vec::new()];
    let mut sender = SeqEx::<u32, u32, 8>::new(5, 1);
    let mut receiver = SeqEx::<u32, u32, 8>::new(5, 1);
    let count = 60;
    let mut sent: Vec<u32> = Vec::new();
    let mut received: Vec<u32> = Vec::new();
    let mut answered = 0;
    for now in 0..50000 {
        wires[0].time.set(now);
        let mut tl = &wires[0];
        match roll(3) {
            0 => {
                let data = 7 * sent.len() as u32;
                if sent.len() < count && sender.try_send(&mut tl, true, data).is_ok() {
                    sent.push(data);
                }
            }
            1 => {
                assert!(sender.service_scheduled(&mut tl).unwrap() > now);
            }
            _ => {
                if let Some(packet) = in_flight[1].pop() {
                    if let Ok((RecvOk::Ack { send_data }, _)) = sender.try_receive(&mut tl, packet).0 {
                        assert!(sent.contains(&send_data));
                        answered += 1;
                    }
                }
            }
        }
        wires[1].time.set(now);
        let mut tl = &wires[1];
        if in_flight[0].len() > 0 {
            let i = roll(in_flight[0].len() as u64) as usize;
            let packet = if roll(3) == 0 { in_flight[0][i] } else { in_flight[0].swap_remove(i) };
            let (iter, _) = receiver.receive_all(&mut tl, packet);
            let mut iter = match iter {
                Some(iter) => iter,
                None => match receiver.pump().0 {
                    PumpStep::Done(ok) => RecvIter::new(ok, true),
                    PumpStep::Wait => panic!("every packet is answered at once"),
                },
            };
            loop {
                let item = match iter.next() {
                    IterStep::Done(item) => item,
                    IterStep::Pump => match receiver.pump().0 {
                        PumpStep::Done(ok) => iter.pumped(ok),
                        PumpStep::Wait => panic!("every packet is answered at once"),
                    },
                    IterStep::TryPump => panic!("the iterator blocks"),
                };
                match item {
                    Some(ok) => {
                        let (brought, _) = ok.consume();
                        let (guard, data) = brought.unwrap();
                        received.push(data);
                        guard.release(&mut receiver, &mut tl);
                    }
                    None => break,
                }
            }
        }
        assert_eq!(received[..], sent[..received.len()]);
        for me in 0..2 {
            while let Some(packet) = wires[me].take() {
                if roll(3) != 0 {
                    in_flight[me].push(packet);
                }
            }
        }
        if answered == count {
            break;
        }
    }
    assert_eq!(answered, count);
    assert_eq!(received, sent);
}

#[test]
fn replies_are_resent_with_the_same_numbers() {
    let wire = Recorder::new();
    let mut tl = &wire;
    let mut seq = SeqEx::<u32, u32, 8>::new(100, 40);
    wire.time.set(1000);
    let first = guard(seq.try_receive(&mut tl, Packet::Payload(40, 5)).0.unwrap().0);
    let second = guard(seq.try_receive(&mut tl, Packet::Payload(41, 6)).0.unwrap().0);
    let (update, _) = first.reply_with(&mut seq, &mut tl, true, |seq_no, reply_no| seq_no * 100 + reply_no);
    assert_eq!(update, Some(1100));
    let (update, _) = second.reply_with(&mut seq, &mut tl, false, |seq_no, reply_no| seq_no * 100 + reply_no);
    assert_eq!(update, None);
    for time in [1100, 1200] {
        assert_eq!(wire.take(), Some(Packet::SeqCstReply(40, 40, 4040)));
        assert_eq!(wire.take(), Some(Packet::Reply(41, 41, 4141)));
        assert_eq!(wire.take(), None);
        wire.time.set(time);
        assert_eq!(seq.service_scheduled(&mut tl).unwrap(), time + 100);
    }
}

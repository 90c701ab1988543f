use seqex::error::TryError;
use seqex::task::{
    answer_arrived, held_arrived, AsyncError, AsyncRecvError, Held, ReceiveStep, ReplyGuard, SeqEx,
    ServiceWait, TokioLayer,
};
use seqex::Packet;
use std::cell::{Cell, RefCell};
use std::collections::VecDeque;
use tokio::sync::oneshot;

struct Recorder {
    sent: RefCell<VecDeque<Packet<u32>>>,
    time: Cell<i64>,
}

impl Recorder {
    fn new() -> Self {
        Recorder { sent: RefCell::new(VecDeque::new()), time: Cell::new(0) }
    }

    fn take(&self) -> Option<Packet<u32>> {
        self.sent.borrow_mut().pop_front()
    }
}

impl<'a> TokioLayer for &'a Recorder {
    type SendData = u32;

    fn time(&mut self) -> i64 {
        self.time.get()
    }

    fn send(&mut self, packet: Packet<&u32>) {
        self.sent.borrow_mut().push_back(packet.cloned());
    }
}

type Session = SeqEx<u32, u32, 8>;
type Answer = oneshot::Receiver<Option<(u32, bool, u32)>>;

fn send(seq: &mut Session, tl: &mut &Recorder, seq_cst: bool, data: u32) -> Answer {
    let (tx, rx) = oneshot::channel();
    match seq.send_with_inner(tl, seq_cst, |_| (tx, data)) {
        Ok(_) => rx,
        Err((e, _)) => panic!("{:?}", e),
    }
}

/// Receives a packet, and returns where it arrives if it has to wait.
fn receive(
    seq: &mut Session,
    tl: &mut &Recorder,
    packet: Packet<u32>,
) -> (ReceiveStep<u32>, usize, oneshot::Receiver<(u32, bool, u32)>) {
    let (tx, rx) = oneshot::channel();
    let packet: Packet<Held<u32>> = match packet {
        Packet::Payload(s, d) => Packet::Payload(s, (tx, d)),
        Packet::SeqCstPayload(s, d) => Packet::SeqCstPayload(s, (tx, d)),
        Packet::Reply(s, r, d) => Packet::Reply(s, r, (tx, d)),
        Packet::SeqCstReply(s, r, d) => Packet::SeqCstReply(s, r, (tx, d)),
        Packet::Ack(r) => Packet::Ack(r),
    };
    let (step, woken) = seq.receive(tl, packet);
    (step, woken, rx)
}

fn payload(step: ReceiveStep<u32>) -> (ReplyGuard, u32) {
    match step {
        ReceiveStep::Done(Ok(ok)) => ok,
        other => panic!("{:?}", other),
    }
}

#[test]
fn answers_reach_their_awaiters() {
    let wire = Recorder::new();
    let mut tl = &wire;
    let (mut seq, _) = Session::new(100, 0);
    let mut first = send(&mut seq, &mut tl, false, 10);
    let mut second = send(&mut seq, &mut tl, true, 11);
    let mut third = send(&mut seq, &mut tl, false, 12);
    assert_eq!(wire.take(), Some(Packet::Payload(0, 10)));
    assert_eq!(wire.take(), Some(Packet::SeqCstPayload(1, 11)));
    assert_eq!(wire.take(), Some(Packet::Payload(2, 12)));
    let (step, woken, _) = receive(&mut seq, &mut tl, Packet::Reply(1, 1, 21));
    assert!(matches!(step, ReceiveStep::Done(Err(AsyncRecvError::AsyncReply))));
    assert_eq!(woken, 0);
    assert_eq!(second.try_recv(), Ok(Some((1, false, 21))));
    let (step, _, _) = receive(&mut seq, &mut tl, Packet::SeqCstReply(0, 2, 20));
    assert!(matches!(step, ReceiveStep::Done(Err(AsyncRecvError::AsyncReply))));
    assert_eq!(third.try_recv(), Ok(Some((0, true, 20))));
    assert_eq!(first.try_recv(), Err(oneshot::error::TryRecvError::Empty));
    let (step, _, _) = receive(&mut seq, &mut tl, Packet::Ack(0));
    assert!(matches!(step, ReceiveStep::Done(Err(AsyncRecvError::AsyncReply))));
    assert_eq!(first.try_recv(), Ok(None));
    let (step, _, _) = receive(&mut seq, &mut tl, Packet::Ack(0));
    assert!(matches!(step, ReceiveStep::Done(Err(AsyncRecvError::DroppedDuplicate))));
    assert_eq!(wire.take(), None);
}

#[test]
fn unclaimed_answers_are_acknowledged() {
    let wire = Recorder::new();
    let mut tl = &wire;
    let (mut seq, _) = Session::new(100, 0);
    drop(send(&mut seq, &mut tl, false, 10));
    assert!(wire.take().is_some());
    let (step, _, _) = receive(&mut seq, &mut tl, Packet::SeqCstReply(0, 0, 20));
    assert!(matches!(step, ReceiveStep::Done(Err(AsyncRecvError::AsyncReply))));
    assert_eq!(wire.take(), Some(Packet::Ack(0)));
    // The lock has been given back with it.
    let (step, _, _) = receive(&mut seq, &mut tl, Packet::SeqCstPayload(1, 21));
    assert_eq!(payload(step).1, 21);
}

#[test]
fn held_packets_reach_who_received_them() {
    let wire = Recorder::new();
    let mut tl = &wire;
    let (mut seq, _) = Session::new(100, 0);
    let mut answer = send(&mut seq, &mut tl, false, 10);
    assert!(wire.take().is_some());
    let (step, _, mut held) = receive(&mut seq, &mut tl, Packet::SeqCstPayload(1, 31));
    assert!(matches!(step, ReceiveStep::Await));
    let (step, _, gone) = receive(&mut seq, &mut tl, Packet::SeqCstPayload(2, 32));
    assert!(matches!(step, ReceiveStep::Await));
    drop(gone);
    let (step, _, _) = receive(&mut seq, &mut tl, Packet::SeqCstReply(3, 0, 33));
    assert!(matches!(step, ReceiveStep::Await));
    // A second copy of a packet that waits is a duplicate.
    let (step, _, _) = receive(&mut seq, &mut tl, Packet::SeqCstPayload(1, 31));
    assert!(matches!(step, ReceiveStep::Done(Err(AsyncRecvError::DroppedDuplicate))));
    let (step, _, _) = receive(&mut seq, &mut tl, Packet::Payload(50, 1));
    assert!(matches!(step, ReceiveStep::Done(Err(AsyncRecvError::DroppedTooEarly))));
    // Packet 0 lets packet 1 through, which holds the lock.
    let (step, _, _) = receive(&mut seq, &mut tl, Packet::Payload(0, 30));
    let (zero, data) = payload(step);
    assert_eq!(data, 30);
    assert_eq!(wire.take(), None);
    let (one, data) = held_arrived(held.try_recv().ok()).unwrap();
    assert_eq!(data, 31);
    assert!(one.is_seq_cst());
    assert!(!one.has_replied());
    assert!(!one.release(&mut seq, &mut tl));
    assert_eq!(wire.take(), Some(Packet::Ack(1)));
    // Packet 2, whose task is gone, and packet 3 are let through by packet 4.
    let (step, _, _) = receive(&mut seq, &mut tl, Packet::Payload(4, 34));
    let (four, data) = payload(step);
    assert_eq!(data, 34);
    assert_eq!(wire.take(), None);
    let (step, _, _) = receive(&mut seq, &mut tl, Packet::SeqCstPayload(2, 32));
    let (two, _) = payload(step);
    assert!(!two.release(&mut seq, &mut tl));
    assert_eq!(wire.take(), Some(Packet::Ack(2)));
    assert_eq!(answer.try_recv(), Err(oneshot::error::TryRecvError::Empty));
    let (step, _, _) = receive(&mut seq, &mut tl, Packet::SeqCstReply(3, 0, 33));
    assert!(matches!(step, ReceiveStep::Done(Err(AsyncRecvError::AsyncReply))));
    assert_eq!(answer.try_recv(), Ok(Some((3, true, 33))));
    assert!(!zero.release(&mut seq, &mut tl));
    assert!(!four.release(&mut seq, &mut tl));
    assert_eq!(held_arrived::<u32>(None).unwrap_err(), AsyncRecvError::SeqExClosed);
}

#[test]
fn pumping_acknowledges_for_tasks_that_are_gone() {
    let wire = Recorder::new();
    let mut tl = &wire;
    let (mut seq, _) = Session::new(100, 0);
    for (s, d) in [(1, 31), (2, 32)] {
        let (step, _, gone) = receive(&mut seq, &mut tl, Packet::SeqCstPayload(s, d));
        assert!(matches!(step, ReceiveStep::Await));
        drop(gone);
    }
    let (step, _, _) = receive(&mut seq, &mut tl, Packet::Payload(0, 30));
    assert_eq!(payload(step).1, 30);
    assert_eq!(wire.take(), Some(Packet::Ack(1)));
    assert_eq!(wire.take(), Some(Packet::Ack(2)));
    assert_eq!(wire.take(), None);
}

#[test]
fn guards_answer_once() {
    let wire = Recorder::new();
    let mut tl = &wire;
    let (mut seq, _) = Session::new(100, 0);
    let (step, _, _) = receive(&mut seq, &mut tl, Packet::SeqCstPayload(0, 30));
    let (mut guard, _) = payload(step);
    guard.ack(&mut seq, &mut tl);
    assert!(guard.has_replied());
    guard.ack(&mut seq, &mut tl);
    assert_eq!(wire.take(), Some(Packet::Ack(0)));
    // An acknowledged packet cannot be replied to, and nothing is produced for the reply.
    let (guard, _) = match guard.try_reply_with(&mut seq, &mut tl, false, |_, _| panic!("called")) {
        Err(back) => back,
        Ok(_) => panic!("replied"),
    };
    assert_eq!(wire.take(), None);
    assert!(!guard.release(&mut seq, &mut tl));
    assert_eq!(wire.take(), None);
    let (step, _, _) = receive(&mut seq, &mut tl, Packet::SeqCstPayload(1, 31));
    let (guard, _) = payload(step);
    let (reply_no, locked) = guard.to_components();
    assert_eq!((reply_no, locked), (1, true));
    let guard = ReplyGuard::from_components(reply_no, locked);
    let (tx, mut rx) = oneshot::channel();
    wire.time.set(40);
    let reply = |seq_no: u32, reply_no: u32| (tx, seq_no * 10 + reply_no);
    match guard.try_reply_with(&mut seq, &mut tl, true, reply) {
        Ok(out) => assert_eq!(out, (Some(140), false)),
        Err(_) => panic!("not replied"),
    }
    assert_eq!(wire.take(), Some(Packet::SeqCstReply(0, 1, 1)));
    // A duplicate of what is being replied to is dropped, and one of what was acknowledged is
    // acknowledged again.
    let (step, _, _) = receive(&mut seq, &mut tl, Packet::SeqCstPayload(1, 31));
    assert!(matches!(step, ReceiveStep::Done(Err(AsyncRecvError::DroppedDuplicate))));
    assert_eq!(wire.take(), None);
    let (step, _, _) = receive(&mut seq, &mut tl, Packet::SeqCstPayload(0, 30));
    assert!(matches!(step, ReceiveStep::Done(Err(AsyncRecvError::DroppedDuplicate))));
    assert_eq!(wire.take(), Some(Packet::Ack(0)));
    let (_, _, _) = receive(&mut seq, &mut tl, Packet::Ack(0));
    assert_eq!(answer_arrived(rx.try_recv().ok()).unwrap_err(), AsyncError::EndOfExchange);
    assert_eq!(answer_arrived::<u32>(None).unwrap_err(), AsyncError::SeqExClosed);
    let (guard, data) = answer_arrived(Some(Some((7, true, 5)))).unwrap();
    assert_eq!(data, 5);
    assert_eq!(guard.to_components(), (7, true));
}

#[test]
fn senders_are_counted_and_woken() {
    let wire = Recorder::new();
    let mut tl = &wire;
    let (mut seq, _) = Session::new_default();
    let mut answers = Vec::new();
    for i in 0..8 {
        answers.push(send(&mut seq, &mut tl, false, i));
    }
    for _ in 0..3 {
        let (tx, _rx) = oneshot::channel();
        match seq.send_with_inner(&mut tl, false, |_| (tx, 9)) {
            Err((e, _)) => assert_eq!(e, TryError::WaitingForRecv),
            Ok(_) => panic!("there is no room"),
        }
    }
    assert_eq!(receive(&mut seq, &mut tl, Packet::Ack(0)).1, 1);
    let (step, woken, _) = receive(&mut seq, &mut tl, Packet::Ack(1));
    assert!(matches!(step, ReceiveStep::Done(Err(AsyncRecvError::AsyncReply))));
    assert_eq!(woken, 1);
    assert_eq!(receive(&mut seq, &mut tl, Packet::Ack(2)).1, 1);
    assert_eq!(receive(&mut seq, &mut tl, Packet::Ack(3)).1, 0);
}

#[test]
fn several_received_packets_wake_several_senders() {
    let wire = Recorder::new();
    let mut tl = &wire;
    let (mut seq, _) = Session::new(100, 0);
    let mut answers = Vec::new();
    for i in 0..8 {
        answers.push(send(&mut seq, &mut tl, false, i));
    }
    for _ in 0..5 {
        let (tx, _rx) = oneshot::channel();
        assert!(seq.send_with_inner(&mut tl, false, |_| (tx, 9)).is_err());
    }
    // Replies to the other packets wait, because there is no room to answer them yet.
    for r in 1..4 {
        let (step, _, _) = receive(&mut seq, &mut tl, Packet::Reply(r, r, 50 + r));
        assert!(matches!(step, ReceiveStep::Await));
    }
    let (step, woken, _) = receive(&mut seq, &mut tl, Packet::Reply(0, 0, 50));
    assert!(matches!(step, ReceiveStep::Done(Err(AsyncRecvError::AsyncReply))));
    assert_eq!(woken, 4);
    for r in 0..4 {
        assert_eq!(answers[r as usize].try_recv(), Ok(Some((r, false, 50 + r))));
    }
    assert_eq!(receive(&mut seq, &mut tl, Packet::Ack(4)).1, 1);
    assert_eq!(receive(&mut seq, &mut tl, Packet::Ack(5)).1, 0);
}

#[test]
fn waiting_for_replies_is_marked() {
    let wire = Recorder::new();
    let mut tl = &wire;
    let (mut seq, _) = SeqEx::<u32, u32, 4>::new(100, 0);
    let mut guards = Vec::new();
    for i in 0..2 {
        let (tx, _rx) = oneshot::channel();
        match seq.receive(&mut tl, Packet::Payload(i, (tx, i))).0 {
            ReceiveStep::Done(Ok((guard, _))) => guards.push(guard),
            other => panic!("{:?}", other),
        }
    }
    let (tx, _rx) = oneshot::channel();
    match seq.send_with_inner(&mut tl, false, |_| (tx, 9)) {
        Err((e, _)) => assert_eq!(e, TryError::WaitingForReply),
        Ok(_) => panic!("two replies are open"),
    }
    assert!(guards.pop().unwrap().release(&mut seq, &mut tl));
    assert!(!guards.pop().unwrap().release(&mut seq, &mut tl));
}

#[test]
fn service_task_resends_or_is_brought_forward() {
    let wire = Recorder::new();
    let mut tl = &wire;
    let (mut seq, mut state) = Session::new(100, 0);
    assert_eq!(state.wait(&mut tl), ServiceWait::UpdateForever);
    let (tx, _rx) = oneshot::channel();
    match seq.send_with_inner(&mut tl, false, |_| (tx, 9)) {
        Ok(update) => assert_eq!(update, Some(100)),
        Err((e, _)) => panic!("{:?}", e),
    }
    assert!(wire.take().is_some());
    seq.service_task(&mut tl, &mut state, Some(100));
    assert_eq!(state.wait(&mut tl), ServiceWait::Update(100));
    seq.service_task(&mut tl, &mut state, Some(150));
    wire.time.set(30);
    assert_eq!(state.wait(&mut tl), ServiceWait::Update(70));
    assert_eq!(wire.take(), None);
    wire.time.set(100);
    assert_eq!(state.wait(&mut tl), ServiceWait::Nothing);
    seq.service_task(&mut tl, &mut state, None);
    assert_eq!(wire.take(), Some(Packet::Payload(0, 9)));
    assert_eq!(wire.take(), None);
    assert_eq!(state.wait(&mut tl), ServiceWait::Update(100));
    receive(&mut seq, &mut tl, Packet::Ack(0));
    wire.time.set(200);
    seq.service_task(&mut tl, &mut state, None);
    assert_eq!(wire.take(), None);
    assert_eq!(state.wait(&mut tl), ServiceWait::UpdateForever);
}

#[test]
fn dropped_packets_are_not_awaited() {
    let wire = Recorder::new();
    let mut tl = &wire;
    let (mut seq, _) = Session::new(100, 0);
    let mut guards = Vec::new();
    for i in 0..6 {
        let (step, _, _) = receive(&mut seq, &mut tl, Packet::Payload(i, i));
        guards.push(payload(step).0);
    }
    // There is no room for a reply to another packet, so it is lost.
    let (step, woken, mut lost) = receive(&mut seq, &mut tl, Packet::Payload(6, 6));
    assert!(matches!(step, ReceiveStep::Done(Err(AsyncRecvError::DroppedDuplicate))));
    assert_eq!(woken, 0);
    assert!(!guards.remove(0).release(&mut seq, &mut tl));
    assert_eq!(wire.take(), Some(Packet::Ack(0)));
    assert!(lost.try_recv().is_err());
    let (step, _, _) = receive(&mut seq, &mut tl, Packet::Payload(6, 6));
    assert_eq!(payload(step).1, 6);
    // A packet that waits for another one is saved, and awaited.
    let (mut seq, _) = Session::new(100, 0);
    let (step, _, _) = receive(&mut seq, &mut tl, Packet::SeqCstPayload(1, 1));
    assert!(matches!(step, ReceiveStep::Await));
}

#[test]
fn tasks_receive_a_stream() {
    let mut state: u64 = 3;
    let mut roll = |sides: u64| {
        state = state.wrapping_mul(6364136223846793005).wrapping_add(1442695040888963407);
        (state >> 33) % sides
    };
    let wire = Recorder::new();
    let mut tl = &wire;
    let (mut seq, _) = Session::new(100, 4);
    // The remote peer sends text, and numbers are made of it on the way.
    let mut remote = seqex::seq_queue::SeqEx::<String, u32, 8>::new(100, 4);
    let count = 40;
    let mut sent: u32 = 0;
    let mut unanswered: Vec<Packet<u32>> = Vec::new();
    let mut given: Vec<u32> = Vec::new();
    let mut awaited = Vec::new();
    for now in 0..20000 {
        if sent < count && roll(3) == 0 {
            if let Ok(packet) = remote.try_send_direct(now, true, (sent * 3).to_string()) {
                unanswered.push(packet.map(|text| text.parse::<u32>().unwrap()));
                sent += 1;
            }
        }
        if unanswered.len() > 0 {
            // Any packet may arrive at any time, and again.
            let packet = unanswered[roll(unanswered.len() as u64) as usize];
            match receive(&mut seq, &mut tl, packet) {
                (ReceiveStep::Done(Ok((guard, data))), _, _) => {
                    given.push(data);
                    assert!(!guard.release(&mut seq, &mut tl));
                }
                (ReceiveStep::Done(Err(e)), _, _) => assert_eq!(e, AsyncRecvError::DroppedDuplicate),
                (ReceiveStep::Await, _, held) => awaited.push(held),
            }
        }
        while let Some(packet) = wire.take() {
            if let Packet::Ack(reply_no) = packet {
                // Some acks are lost.
                if roll(3) != 0 {
                    let _ = remote.receive_raw_and_direct(Packet::<u32>::Ack(reply_no));
                    unanswered.retain(|p| !matches!(p, Packet::SeqCstPayload(s, _) if *s == reply_no));
                }
            }
        }
        let expected: Vec<u32> = (0..given.len() as u32).map(|i| i * 3).collect();
        assert_eq!(given, expected);
        if sent == count && remote.is_idle() {
            break;
        }
    }
    assert!(remote.is_idle());
    assert_eq!(given.len(), count as usize);
    // Another copy of each packet that was awaited has been handed out.
    assert!(awaited.len() > 0);
    for mut held in awaited {
        assert_eq!(held_arrived(held.try_recv().ok()).unwrap_err(), AsyncRecvError::SeqExClosed);
    }
}

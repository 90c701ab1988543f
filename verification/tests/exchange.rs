use seqex::error::{RecvError, TryError};
use seqex::file_share::exchange::{listed, opened};
use seqex::file_share::{
    create_ack, create_payload, create_reply, file_chunks, frame_body, incoming, Action, DirEntry,
    Downloads, Incoming, Message, SendData,
};
use seqex::guard::RecvOk;
use seqex::hello::{is_last, process, spell, Response, Word};
use seqex::seq_queue::{RecvOkRaw, SeqEx};
use seqex::{Packet, TransportLayer};
use std::cell::{Cell, RefCell};
use std::collections::{BTreeMap, VecDeque};

struct Recorder<D> {
    sent: RefCell<VecDeque<Packet<D>>>,
    time: Cell<i64>,
}

impl<D> Recorder<D> {
    fn new() -> Self {
        Recorder { sent: RefCell::new(VecDeque::new()), time: Cell::new(0) }
    }

    fn take(&self) -> Option<Packet<D>> {
        self.sent.borrow_mut().pop_front()
    }
}

impl<'a, D: Clone> TransportLayer<D> for &'a Recorder<D> {
    fn time(&mut self) -> i64 {
        self.time.get()
    }

    fn send(&mut self, packet: Packet<&D>) {
        self.sent.borrow_mut().push_back(packet.cloned());
    }
}

/// Small pseudorandom numbers, the same ones in every run.
struct Dice(u64);

impl Dice {
    fn roll(&mut self, sides: u64) -> u64 {
        self.0 = self.0.wrapping_mul(6364136223846793005).wrapping_add(1442695040888963407);
        (self.0 >> 33) % sides
    }
}

// ---- guards ----

#[test]
fn guard_replies_once_and_takes_the_lock_with_it() {
    let wire = Recorder::new();
    let mut tl = &wire;
    let mut seq = SeqEx::<u32, u32, 8>::new(100, 0);
    wire.time.set(1000);
    match seq.receive(&mut tl, Packet::SeqCstPayload(0, 5)) {
        Ok((RecvOk::Payload { mut reply_guard, recv_data }, false)) => {
            assert_eq!(recv_data, 5);
            assert!(reply_guard.is_seq_cst());
            assert_eq!(reply_guard.get_tl().time.get(), 1000);
            assert_eq!(reply_guard.get_seqex().seq_no(), 0);
            reply_guard.reply_with(true, |seq_no, reply_no| seq_no * 100 + reply_no + 7);
        }
        _ => panic!("the packet is next"),
    }
    assert_eq!(wire.take(), Some(Packet::SeqCstReply(0, 0, 7)));
    assert_eq!(wire.take(), None);
    assert_eq!(seq.service_timestamp(), 1100);
    // The lock is free again.
    match seq.receive(&mut tl, Packet::SeqCstPayload(1, 6)) {
        Ok((ok, _)) => {
            let (brought, answered) = ok.consume();
            assert!(answered.is_none());
            let (reply_guard, data) = brought.unwrap();
            assert_eq!(data, 6);
            reply_guard.release();
        }
        Err(e) => panic!("{:?}", e),
    }
    assert_eq!(wire.take(), Some(Packet::Ack(1)));
}

#[test]
fn guard_can_keep_the_lock() {
    let wire = Recorder::new();
    let mut tl = &wire;
    let mut seq = SeqEx::<u32, u32, 8>::new(100, 0);
    let lock = match seq.receive(&mut tl, Packet::SeqCstPayload(0, 5)) {
        Ok((RecvOk::Payload { reply_guard, .. }, _)) => reply_guard.ack(),
        _ => panic!("the packet is next"),
    };
    lock.unwrap();
    assert_eq!(wire.take(), Some(Packet::Ack(0)));
    match seq.receive(&mut tl, Packet::SeqCstPayload(1, 6)) {
        Err(e) => assert_eq!(e, RecvError::WaitingForReply),
        Ok(_) => panic!("the lock is held"),
    }
    seq.unlock_raw();
    let (components, locked) = match seq.try_pump(&mut tl) {
        Ok((RecvOk::Payload { reply_guard, recv_data }, false)) => {
            assert_eq!(recv_data, 6);
            (reply_guard.to_components(), true)
        }
        _ => panic!("the lock is free"),
    };
    assert_eq!((components, locked), ((1, true), true));
    let mut guard = seqex::guard::ReplyGuard::from_components(&mut seq, &mut tl, 1, true);
    assert!(guard.unlock());
    assert!(!guard.unlock());
    assert!(!guard.is_seq_cst());
    assert!(guard.reply_stay_locked(false, 9).is_none());
    assert_eq!(wire.take(), Some(Packet::Reply(0, 1, 9)));
}

#[test]
fn guard_releases_the_lock_it_left() {
    let wire = Recorder::new();
    let mut tl = &wire;
    let mut seq = SeqEx::<u32, u32, 8>::new(100, 0);
    match seq.receive(&mut tl, Packet::SeqCstPayload(0, 5)) {
        Ok((RecvOk::Payload { reply_guard, .. }, _)) => {
            let lock = reply_guard.reply_with_stay_locked(false, |s, r| s + r);
            lock.unwrap().release();
        }
        _ => panic!("the packet is next"),
    }
    assert_eq!(wire.take(), Some(Packet::Reply(0, 0, 0)));
    assert!(seq.receive(&mut tl, Packet::SeqCstPayload(1, 6)).is_ok());
}

#[test]
fn recv_ok_is_rebuilt_from_its_parts() {
    let wire = Recorder::new();
    let mut tl = &wire;
    let mut seq = SeqEx::<u32, u32, 8>::new(100, 0);
    assert!(seq.try_send(&mut tl, false, 77).is_ok());
    match seq.receive(&mut tl, Packet::Reply(0, 0, 5)) {
        Ok((ok, _)) => {
            let (brought, answered) = ok.consume();
            assert_eq!(answered, Some(77));
            match RecvOk::new(brought, answered) {
                Some(RecvOk::Reply { reply_guard, recv_data, send_data }) => {
                    assert_eq!((recv_data, send_data), (5, 77));
                    reply_guard.release();
                }
                _ => panic!("it is a reply"),
            }
        }
        Err(e) => panic!("{:?}", e),
    }
    assert!(RecvOk::<&Recorder<u32>, u32, u32, 8>::new(None, None).is_none());
    match RecvOk::<&Recorder<u32>, u32, u32, 8>::new(None, Some(3)) {
        Some(RecvOk::Ack { send_data }) => assert_eq!(send_data, 3),
        _ => panic!("it is an ack"),
    }
}

// ---- one thread ----

#[test]
fn duplicates_are_acknowledged_again() {
    let wire = Recorder::new();
    let mut tl = &wire;
    let mut seq = SeqEx::<u32, u32, 8>::new(100, 0);
    assert!(seq.receive_raw(&mut tl, Packet::Payload(0, 5u32)).is_ok());
    assert_eq!(
        seq.receive_raw(&mut tl, Packet::Payload(0, 5u32)).unwrap_err(),
        RecvError::DroppedDuplicate
    );
    assert_eq!(wire.take(), None);
    assert!(seq.ack_raw(&mut tl, 0, false));
    assert!(!seq.ack_raw(&mut tl, 0, false));
    assert_eq!(wire.take(), Some(Packet::Ack(0)));
    assert_eq!(
        seq.receive_raw(&mut tl, Packet::Payload(0, 5u32)).unwrap_err(),
        RecvError::DroppedDuplicate
    );
    assert_eq!(wire.take(), Some(Packet::Ack(0)));
    assert_eq!(
        seq.receive_raw(&mut tl, Packet::Payload(100, 5u32)).unwrap_err(),
        RecvError::DroppedTooEarly
    );
    assert_eq!(
        seq.receive_raw(&mut tl, Packet::SeqCstPayload(2, 5u32)).unwrap_err(),
        RecvError::WaitingForRecv
    );
}

#[test]
fn service_tells_how_long_to_wait() {
    let wire = Recorder::new();
    let mut tl = &wire;
    let mut seq = SeqEx::<u32, u32, 8>::new(100, 0);
    wire.time.set(1000);
    assert_eq!(seq.service(&mut tl), 100);
    assert!(seq.try_send(&mut tl, false, 1).is_ok());
    assert!(seq.try_send_with(&mut tl, true, |seq_no| seq_no + 20).is_ok());
    assert_eq!(wire.take(), Some(Packet::Payload(0, 1)));
    assert_eq!(wire.take(), Some(Packet::SeqCstPayload(1, 21)));
    wire.time.set(1060);
    assert_eq!(seq.service(&mut tl), 40);
    assert_eq!(wire.take(), None);
    wire.time.set(1130);
    assert_eq!(seq.service(&mut tl), 100);
    assert_eq!(wire.take(), Some(Packet::Payload(0, 1)));
    assert_eq!(wire.take(), Some(Packet::SeqCstPayload(1, 21)));
    assert_eq!(wire.take(), None);
    assert_eq!(seq.service_timestamp(), 1230);
    for i in 2..8 {
        assert!(seq.try_send(&mut tl, false, i).is_ok());
    }
    assert_eq!(seq.try_send(&mut tl, false, 8), Err((TryError::WaitingForRecv, 8)));
    assert!(seq.try_send_with(&mut tl, false, |seq_no| seq_no).is_err());
}

// ---- two peers ----

/// Two peers over wires that lose, duplicate and reorder packets. Each sends `count` payloads, every
/// third of which is SeqCst, and replies to every second packet that it receives. Neither fills its
/// send window with packets that no one has asked for.
fn lossy_run<const CAP: usize>(seed: u64, base: u32, count: u32) {
    let mut dice = Dice(seed);
    let wires = [Recorder::new(), Recorder::new()];
    let mut in_flight: [Vec<Packet<(u32, bool)>>; 2] = [Vec::new(), Vec::new()];
    let mut peers = [
        SeqEx::<(u32, bool), (u32, bool), CAP>::new(50, base),
        SeqEx::<(u32, bool), (u32, bool), CAP>::new(50, base),
    ];
    let mut next = [0u32, 0];
    let mut open: [Vec<(u32, bool)>; 2] = [Vec::new(), Vec::new()];
    let mut received: [Vec<(u32, bool)>; 2] = [Vec::new(), Vec::new()];
    let mut acknowledged = [0u32, 0];
    let mut now: i64 = 0;
    for _ in 0..200000 {
        now += 1;
        let me = dice.roll(2) as usize;
        wires[me].time.set(now);
        let mut tl = &wires[me];
        match dice.roll(6) {
            0 => {
                if next[me] < count && (next[me] - acknowledged[me]) as usize <= CAP / 4 {
                    let seq_cst = next[me] % 3 == 0;
                    if peers[me].try_send(&mut tl, seq_cst, (next[me], seq_cst)).is_ok() {
                        next[me] += 1;
                    }
                }
            }
            1 => {
                if open[me].len() > 0 {
                    let i = dice.roll(open[me].len() as u64) as usize;
                    let (reply_no, locked) = open[me].swap_remove(i);
                    if reply_no % 2 == 0 && next[me] < count {
                        let data = (next[me], false);
                        assert!(peers[me].reply_raw(&mut tl, reply_no, locked, false, data));
                        next[me] += 1;
                    } else {
                        assert!(peers[me].ack_raw(&mut tl, reply_no, locked));
                    }
                }
            }
            2 => {
                peers[me].service(&mut tl);
            }
            _ => {
                let other = 1 - me;
                let raw = if dice.roll(4) == 0 {
                    peers[me].try_pump_raw().ok()
                } else if in_flight[other].len() > 0 {
                    let i = dice.roll(in_flight[other].len() as u64) as usize;
                    let packet = if dice.roll(4) == 0 {
                        in_flight[other][i]
                    } else {
                        in_flight[other].swap_remove(i)
                    };
                    peers[me].receive_raw(&mut tl, packet).ok()
                } else {
                    None
                };
                match raw {
                    Some((RecvOkRaw::Payload { reply_no, seq_cst, recv_data }, _)) => {
                        received[me].push(recv_data);
                        open[me].push((reply_no, seq_cst));
                    }
                    Some((RecvOkRaw::Reply { reply_no, seq_cst, recv_data, .. }, _)) => {
                        received[me].push(recv_data);
                        open[me].push((reply_no, seq_cst));
                        acknowledged[me] += 1;
                    }
                    Some((RecvOkRaw::Ack { .. }, _)) => {
                        acknowledged[me] += 1;
                    }
                    None => {}
                }
            }
        }
        while let Some(packet) = wires[me].take() {
            if dice.roll(3) != 0 {
                in_flight[me].push(packet);
            }
        }
        if acknowledged == [count, count] {
            break;
        }
    }
    assert_eq!(next, [count, count]);
    assert_eq!(acknowledged, [count, count]);
    for me in 0..2 {
        // Exactly once.
        let mut numbers: Vec<u32> = received[me].iter().map(|d| d.0).collect();
        numbers.sort();
        let all: Vec<u32> = (0..count).collect();
        assert_eq!(numbers, all);
        // In order: everything that was sent before a SeqCst packet was received before it.
        for p in 0..received[me].len() {
            if received[me][p].1 {
                let before: Vec<u32> = received[me][..p].iter().map(|d| d.0).collect();
                for u in 0..received[me][p].0 {
                    assert!(before.contains(&u));
                }
            }
        }
        assert!(peers[me].is_idle());
    }
}

#[test]
fn lossy_wires_lose_nothing() {
    lossy_run::<8>(1, 0, 100);
    lossy_run::<8>(2, u32::MAX - 20, 100);
    lossy_run::<16>(3, 5, 100);
    lossy_run::<64>(4, 1 << 31, 100);
}

#[test]
fn odd_windows_work_until_the_numbers_wrap() {
    lossy_run::<5>(5, 0, 60);
    lossy_run::<7>(6, 1000, 60);
}

// ---- applications ----

#[test]
fn hello_world() {
    let mut printed = String::new();
    let wires = [Recorder::new(), Recorder::new()];
    let mut peers = [SeqEx::<Word, Word, 64>::default(), SeqEx::<Word, Word, 64>::default()];
    assert!(peers[0].try_send(&mut &wires[0], false, Word::Hello).is_ok());
    let mut me = 1;
    while let Some(packet) = wires[1 - me].take() {
        match peers[me].receive(&mut &wires[me], packet) {
            Ok((ok, _)) => match ok.consume() {
                (Some((reply_guard, word)), sent) => match process(word, sent) {
                    Response::Say { reply } => {
                        printed.push_str(spell(word));
                        match reply {
                            Some(reply) => reply_guard.reply(false, reply),
                            None => reply_guard.release(),
                        }
                    }
                    other => panic!("{:?}", other),
                },
                (None, Some(sent)) => {
                    if is_last(sent) {
                        printed.push_str("\n");
                    }
                }
                (None, None) => panic!("an ack answers something"),
            },
            Err(e) => panic!("{:?}", e),
        }
        me = 1 - me;
    }
    assert_eq!(printed, "Hello World!\n");
    assert_eq!(process(Word::World, None), Response::Unsolicited);
    assert_eq!(process(Word::World, Some(Word::Hello)), Response::Incorrect);
    assert_eq!(process(Word::Hello, Some(Word::Exclamation)), Response::Incorrect);
}

/// Bytes for a message. Two peers that agree on how to do so can use any format.
fn encode(message: &Message) -> Vec<u8> {
    match message {
        Message::RequestFile { filename } => [&[0u8], filename.as_bytes()].concat(),
        Message::ConfirmFileSize { filesize } => [&[1u8][..], &filesize.to_be_bytes()].concat(),
        Message::ConfirmDownload { fileid } => [&[2u8][..], &fileid.to_be_bytes()].concat(),
        Message::FileDownload { fileid, file_chunk } => {
            [&[3u8][..], &fileid.to_be_bytes(), file_chunk].concat()
        }
        Message::FileDownloadComplete { fileid } => [&[4u8][..], &fileid.to_be_bytes()].concat(),
        Message::ReadDir => vec![5],
        Message::DirContents { filenames } => [&[6u8], filenames.join("/").as_bytes()].concat(),
    }
}

fn number(bytes: &[u8]) -> u64 {
    u64::from_be_bytes(bytes[..8].try_into().unwrap())
}

fn decode(body: &[u8]) -> Message {
    let rest = &body[1..];
    match body[0] {
        0 => Message::RequestFile { filename: String::from_utf8(rest.to_vec()).unwrap() },
        1 => Message::ConfirmFileSize { filesize: number(rest) },
        2 => Message::ConfirmDownload { fileid: number(rest) },
        3 => Message::FileDownload { fileid: number(rest), file_chunk: rest[8..].to_vec() },
        4 => Message::FileDownloadComplete { fileid: number(rest) },
        5 => Message::ReadDir,
        _ => Message::DirContents {
            filenames: String::from_utf8(rest.to_vec()).unwrap().split('/').map(|s| s.to_string()).collect(),
        },
    }
}

type Remembered = (SendData<String>, Vec<u8>);

struct ByteWire {
    sent: RefCell<VecDeque<Vec<u8>>>,
    time: Cell<i64>,
}

impl<'a> TransportLayer<Remembered> for &'a ByteWire {
    fn time(&mut self) -> i64 {
        self.time.get()
    }

    fn send(&mut self, packet: Packet<&Remembered>) {
        let frame = match packet.consume() {
            Ok(data) => data.1.clone(),
            Err(reply_no) => create_ack(reply_no),
        };
        self.sent.borrow_mut().push_back(frame);
    }
}

struct Sharer {
    home: BTreeMap<String, Vec<u8>>,
    downloads: Downloads<String>,
    seqex: SeqEx<Remembered, Vec<u8>, 64>,
    wire: ByteWire,
    to_send: VecDeque<Message>,
    listing: Option<Vec<String>>,
    refused: u32,
}

impl Sharer {
    fn new() -> Self {
        Sharer {
            home: BTreeMap::new(),
            downloads: Downloads::new(),
            seqex: SeqEx::new(5, 1),
            wire: ByteWire { sent: RefCell::new(VecDeque::new()), time: Cell::new(0) },
            to_send: VecDeque::new(),
            listing: None,
            refused: 0,
        }
    }

    fn send(&mut self, data: SendData<String>, message: &Message) -> bool {
        let mut tl = &self.wire;
        let body = encode(message);
        self.seqex
            .try_send_with(&mut tl, true, |seq_no| (data, create_payload(seq_no, &body)))
            .is_ok()
    }

    fn flush(&mut self) {
        while let Some(message) = self.to_send.pop_front() {
            if !self.send(SendData::FileDownload, &message) {
                self.to_send.push_front(message);
                return;
            }
        }
    }

    /// Does what the message asks for, and returns what to reply.
    fn react(&mut self, message: Message, data: Option<SendData<String>>) -> Option<(SendData<String>, Message)> {
        if let Message::DirContents { filenames } = &message {
            self.listing = Some(filenames.clone());
        }
        match self.downloads.process(message, data) {
            Action::OpenFile { filename } => {
                let size = self.home.get(&filename).map(|f| f.len() as u64);
                opened(size.map(|s| (filename, s)))
            }
            Action::CreateFile { filename } => {
                self.home.insert(filename.clone(), Vec::new());
                self.downloads.created_at_random(Some(filename))
            }
            Action::Upload { fileid, file } => {
                let bytes = self.home[&file].clone();
                self.to_send.extend(file_chunks(fileid, &bytes, bytes.len()));
                self.to_send.push_back(Message::FileDownloadComplete { fileid });
                None
            }
            Action::Write { fileid, file_chunk } => {
                let filename = self.downloads.file(fileid).unwrap().clone();
                self.home.get_mut(&filename).unwrap().extend(file_chunk);
                None
            }
            Action::ListDir => {
                let mut entries: Vec<DirEntry> = self
                    .home
                    .keys()
                    .map(|k| DirEntry::Readable { is_file: true, filename: Some(k.clone()) })
                    .collect();
                entries.push(DirEntry::Readable { is_file: false, filename: Some("dir".to_string()) });
                listed(Some(entries))
            }
            Action::Acknowledge => None,
            Action::Refuse => {
                self.refused += 1;
                None
            }
        }
    }

    fn handle(&mut self, raw: RecvOkRaw<Remembered, Vec<u8>>) {
        let (reply_no, seq_cst, frame, data) = match raw {
            RecvOkRaw::Payload { reply_no, seq_cst, recv_data } => (reply_no, seq_cst, recv_data, None),
            RecvOkRaw::Reply { reply_no, seq_cst, recv_data, send_data } => {
                (reply_no, seq_cst, recv_data, Some(send_data.0))
            }
            RecvOkRaw::Ack { .. } => return,
        };
        let message = decode(frame_body(&frame).unwrap());
        let reply = self.react(message, data);
        let mut tl = &self.wire;
        match reply {
            Some((data, message)) => {
                let frame = create_reply(self.seqex.seq_no(), reply_no, &encode(&message));
                assert!(self.seqex.reply_raw(&mut tl, reply_no, seq_cst, true, (data, frame)));
            }
            None => assert!(self.seqex.ack_raw(&mut tl, reply_no, seq_cst)),
        }
    }

    fn receive(&mut self, frame: Vec<u8>, random: u32) {
        let packet = match incoming(frame, random) {
            Incoming::Lost => return,
            Incoming::Malformed => panic!("the other peer sends packets only"),
            Incoming::Ack(reply_no) => Packet::Ack(reply_no),
            Incoming::Exchange(packet) => packet,
        };
        let mut tl = &self.wire;
        if let Ok((raw, do_pump)) = self.seqex.receive_raw(&mut tl, packet) {
            self.handle(raw);
            if do_pump {
                while let Ok((raw, do_pump)) = self.seqex.try_pump_raw() {
                    self.handle(raw);
                    if !do_pump {
                        break;
                    }
                }
            }
        }
    }
}

#[test]
fn test() {
    let mut dice = Dice(7);
    let mut alice = Sharer::new();
    let mut bob = Sharer::new();
    for (name, len) in [("File1", 65536), ("File2", 999), ("File3", 2000), ("File4", 0), ("Large", 1000001)] {
        let bytes: Vec<u8> = (0..len).map(|_| dice.roll(256) as u8).collect();
        bob.home.insert(name.to_string(), bytes);
    }
    assert!(alice.send(SendData::ReadDir { download_missing: true }, &Message::ReadDir));
    for name in ["File1", "File3", "Missing", "Large", "File2", "File4"] {
        let filename = name.to_string();
        let message = Message::RequestFile { filename: filename.clone() };
        assert!(alice.send(SendData::RequestFile { filename }, &message));
    }
    for now in 0..20000 {
        for (me, other) in [(0, 1), (1, 0)] {
            let (me, other) = if me < other { (&mut alice, &mut bob) } else { (&mut bob, &mut alice) };
            me.wire.time.set(now);
            let arrived = other.wire.sent.borrow_mut().pop_front();
            if let Some(frame) = arrived {
                me.receive(frame, dice.roll(1 << 32) as u32);
            }
            me.flush();
            let mut tl = &me.wire;
            me.seqex.service(&mut tl);
        }
        if alice.seqex.is_idle() && bob.seqex.is_idle() && bob.to_send.len() == 0 && alice.home.len() == 4 {
            break;
        }
    }
    assert_eq!(alice.home.len(), 4);
    for (name, bytes) in &alice.home {
        assert_eq!(Some(bytes), bob.home.get(name));
    }
    assert_eq!(alice.refused, 1);
    assert_eq!(bob.refused, 0);
    let listing: Vec<String> = bob.home.keys().cloned().collect();
    assert_eq!(alice.listing, Some(listing));
}

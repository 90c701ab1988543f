use seqex::file_share::exchange::{listed, opened};
use seqex::file_share::{
    create_ack, create_payload, create_reply, drop_packet, file_chunks, frame_body, incoming,
    incoming_with_loss, is_dropped, list_files, new_file_id, parse_frame, upload_step, Action,
    DirEntry, Downloads, Incoming, Message, SendData,
};
use seqex::Packet;

#[test]
fn frames_are_laid_out_in_big_endian() {
    assert_eq!(create_payload(0x01020304, &[9, 8]), vec![0, 1, 2, 3, 4, 9, 8]);
    assert_eq!(
        create_reply(0x01020304, 0xfffefdfc, &[7]),
        vec![1, 1, 2, 3, 4, 0xff, 0xfe, 0xfd, 0xfc, 7]
    );
    assert_eq!(create_ack(0x80000001), vec![2, 0x80, 0, 0, 1]);
}

#[test]
fn frames_are_read_as_they_were_laid_out() {
    let frame = create_payload(u32::MAX, &[]);
    assert_eq!(frame_body(&frame), Some(&[][..]));
    assert_eq!(parse_frame(frame.clone()), Some(Packet::Payload(u32::MAX, frame)));
    let frame = create_reply(5, 0x12345678, &[1, 2, 3]);
    assert_eq!(frame_body(&frame), Some(&[1, 2, 3][..]));
    assert_eq!(parse_frame(frame.clone()), Some(Packet::Reply(5, 0x12345678, frame)));
    let frame = create_ack(77);
    assert_eq!(frame_body(&frame), None);
    assert_eq!(parse_frame(frame), Some(Packet::Ack(77)));
}

#[test]
fn other_bytes_are_no_frames() {
    assert_eq!(parse_frame(vec![]), None);
    assert_eq!(parse_frame(vec![0, 1, 2, 3]), None);
    assert_eq!(parse_frame(vec![1, 1, 2, 3, 4, 5, 6, 7]), None);
    assert_eq!(parse_frame(vec![2, 1, 2, 3]), None);
    assert_eq!(parse_frame(vec![3, 1, 2, 3, 4, 5, 6, 7, 8, 9]), None);
    assert_eq!(parse_frame(vec![2, 0, 0, 0, 9, 5]), Some(Packet::Ack(9)));
    assert_eq!(frame_body(&[]), None);
    assert_eq!(frame_body(&[1, 2, 3, 4, 5]), None);
}

#[test]
fn a_quarter_of_all_packets_is_lost() {
    assert!(!is_dropped(0));
    assert!(!is_dropped(3221225468));
    assert!(is_dropped(3221225469));
    assert!(is_dropped(u32::MAX));
    let mut dropped = 0;
    for _ in 0..4000 {
        if drop_packet() {
            dropped += 1;
        }
    }
    assert!(500 < dropped && dropped < 1500);
}

#[test]
fn incoming_frames_are_sorted() {
    assert!(matches!(incoming(create_ack(1), u32::MAX), Incoming::Lost));
    assert!(matches!(incoming(vec![9], 0), Incoming::Malformed));
    assert!(matches!(incoming(create_ack(1), 0), Incoming::Ack(1)));
    match incoming(create_payload(4, &[1]), 0) {
        Incoming::Exchange(p) => assert_eq!(p, Packet::Payload(4, create_payload(4, &[1]))),
        other => panic!("{:?}", other),
    }
    let mut lost = 0;
    let mut arrived = 0;
    for _ in 0..400 {
        match incoming_with_loss(create_reply(4, 5, &[1])) {
            Incoming::Lost => lost += 1,
            Incoming::Exchange(Packet::Reply(4, 5, _)) => arrived += 1,
            other => panic!("{:?}", other),
        }
    }
    assert!(lost > 0 && arrived > 0);
}

#[test]
fn files_are_cut_into_chunks() {
    let bytes: Vec<u8> = (0..2500u32).map(|i| i as u8).collect();
    let mut joined = Vec::new();
    let mut sizes = Vec::new();
    for message in file_chunks(3, &bytes, 2345) {
        match message {
            Message::FileDownload { fileid, file_chunk } => {
                assert_eq!(fileid, 3);
                sizes.push(file_chunk.len());
                joined.extend(file_chunk);
            }
            other => panic!("{:?}", other),
        }
    }
    assert_eq!(sizes, vec![1000, 1000, 345]);
    assert_eq!(joined, bytes[..2345].to_vec());
    assert_eq!(file_chunks(3, &bytes, 0).len(), 0);
    assert_eq!(file_chunks(3, &bytes, 2000).len(), 2);
}

#[test]
fn messages_are_acted_upon() {
    let mut downloads = Downloads::<u8>::new();
    let name = || "f".to_string();
    assert!(matches!(
        downloads.process(Message::RequestFile { filename: name() }, None),
        Action::OpenFile { filename } if filename == "f"
    ));
    let asked = || Some(SendData::RequestFile { filename: name() });
    assert!(matches!(
        downloads.process(Message::ConfirmFileSize { filesize: 1000000 }, asked()),
        Action::CreateFile { filename } if filename == "f"
    ));
    assert!(matches!(
        downloads.process(Message::ConfirmFileSize { filesize: 1000001 }, asked()),
        Action::Refuse
    ));
    assert!(matches!(
        downloads.process(Message::ConfirmFileSize { filesize: 1 }, None),
        Action::Acknowledge
    ));
    let offered = Some(SendData::ConfirmFileSize { file: 42 });
    assert!(matches!(
        downloads.process(Message::ConfirmDownload { fileid: 6 }, offered),
        Action::Upload { fileid: 6, file: 42 }
    ));
    let chunk = || Message::FileDownload { fileid: 6, file_chunk: vec![1] };
    assert!(matches!(downloads.process(chunk(), None), Action::Refuse));
    assert!(downloads.created(None, 6).is_none());
    assert!(matches!(
        downloads.created(Some(42), 6),
        Some((SendData::ConfirmDownload, Message::ConfirmDownload { fileid: 6 }))
    ));
    assert_eq!(downloads.file(6), Some(&42));
    assert_eq!(downloads.file(7), None);
    assert!(matches!(
        downloads.process(chunk(), None),
        Action::Write { fileid: 6, file_chunk } if file_chunk == vec![1]
    ));
    assert!(matches!(
        downloads.process(Message::FileDownloadComplete { fileid: 6 }, None),
        Action::Acknowledge
    ));
    assert!(matches!(downloads.process(Message::ReadDir, None), Action::ListDir));
    assert!(matches!(
        downloads.process(Message::DirContents { filenames: vec![] }, Some(SendData::ReadDir { download_missing: true })),
        Action::Acknowledge
    ));
    match downloads.created_at_random(Some(43)) {
        Some((SendData::ConfirmDownload, Message::ConfirmDownload { fileid })) => {
            assert_eq!(downloads.file(fileid), Some(&43));
        }
        other => panic!("{:?}", other),
    }
    assert!(downloads.created_at_random(None).is_none());
    assert_ne!(new_file_id(), new_file_id());
}

#[test]
fn replies_tell_what_was_found() {
    assert!(matches!(
        opened(Some((5u8, 77))),
        Some((SendData::ConfirmFileSize { file: 5 }, Message::ConfirmFileSize { filesize: 77 }))
    ));
    assert!(opened::<u8>(None).is_none());
    let entry = |is_file, name: Option<&str>| DirEntry::Readable {
        is_file,
        filename: name.map(|n| n.to_string()),
    };
    let entries = || vec![entry(true, Some("a")), entry(false, Some("d")), entry(true, None), entry(true, Some("b"))];
    assert_eq!(list_files(entries()), Some(vec!["a".to_string(), "b".to_string()]));
    match listed::<u8>(Some(entries())) {
        Some((SendData::DirContents, Message::DirContents { filenames })) => {
            assert_eq!(filenames, vec!["a".to_string(), "b".to_string()]);
        }
        other => panic!("{:?}", other),
    }
    let mut unreadable = entries();
    unreadable.push(DirEntry::Unreadable);
    assert!(listed::<u8>(Some(unreadable)).is_none());
    assert!(listed::<u8>(None).is_none());
    assert_eq!(list_files(vec![DirEntry::Unreadable]), None);
}

#[test]
fn uploads_end_once_nothing_is_read() {
    let bytes: Vec<u8> = (0..2500u32).map(|i| i as u8).collect();
    let (messages, more) = upload_step(3, &bytes, Some(1500));
    assert!(more);
    assert_eq!(messages.len(), 2);
    match &messages[1] {
        Message::FileDownload { fileid: 3, file_chunk } => assert_eq!(file_chunk[..], bytes[1000..1500]),
        other => panic!("{:?}", other),
    }
    for read in [Some(0), None] {
        let (messages, more) = upload_step(3, &bytes, read);
        assert!(!more);
        assert_eq!(messages.len(), 1);
        assert!(matches!(messages[0], Message::FileDownloadComplete { fileid: 3 }));
    }
}

#[test]
fn uploads_bring_all_that_was_read() {
    let file: Vec<u8> = (0..12345u32).map(|i| (i * 7) as u8).collect();
    let mut at = 0;
    let mut joined = Vec::new();
    let mut ended = 0;
    for size in [5000, 1, 999, 1000, 1001, 4344, 0] {
        let mut buffer = vec![0u8; 5000];
        buffer[..size].copy_from_slice(&file[at..at + size]);
        at += size;
        let (messages, more) = upload_step(8, &buffer, Some(size));
        assert_eq!(more, size > 0);
        for message in messages {
            match message {
                Message::FileDownload { fileid: 8, file_chunk } => {
                    assert_eq!(ended, 0);
                    joined.extend(file_chunk);
                }
                Message::FileDownloadComplete { fileid: 8 } => ended += 1,
                other => panic!("{:?}", other),
            }
        }
    }
    assert_eq!(at, file.len());
    assert_eq!(joined, file);
    assert_eq!(ended, 1);
}

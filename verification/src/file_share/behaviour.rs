//! What the file share does, told by nothing but bytes and messages.
use super::chunks::{chunks_from, chunks_of};
use super::exchange::{files_among, Action, DirEntry, Downloads, Message, SendData};
use super::frame::{be_bytes, be_round_trip, be_value};
use super::random::Incoming;
use crate::transport_layer::{Packet, SeqNo};
use vstd::prelude::*;

verus! {

// ---- frames ----

/// The number that four bytes stand for, the first of them weighing the most.
pub open spec fn number_at(bytes: Seq<u8>, at: int) -> int {
    ((bytes[at] * 256 + bytes[at + 1]) * 256 + bytes[at + 2]) * 256 + bytes[at + 3]
}

proof fn lemma_number_at(bytes: Seq<u8>, at: int)
    ensures
        number_at(bytes, at) == be_value(bytes, at),
{
}

/// A payload frame is the byte 0, the number of the payload and the body.
pub proof fn payload_frame_is_laid_out(seq_no: SeqNo, body: &[u8], frame: Vec<u8>)
    requires
        call_ensures(super::frame::create_payload, (seq_no, body), frame),
    ensures
        frame@.len() == 5 + body@.len(),
        frame@[0] == 0,
        number_at(frame@, 1) == seq_no,
        frame@.skip(5) == body@,
{
    assert(frame@.subrange(1, 5) =~= be_bytes(seq_no));
    be_round_trip(seq_no, frame@, 1);
    lemma_number_at(frame@, 1);
    assert(frame@.skip(5) =~= body@);
}

/// A reply frame is the byte 1, the number of the reply, the number of what it answers and the
/// body.
pub proof fn reply_frame_is_laid_out(
    seq_no: SeqNo,
    reply_no: SeqNo,
    body: &[u8],
    frame: Vec<u8>,
)
    requires
        call_ensures(super::frame::create_reply, (seq_no, reply_no, body), frame),
    ensures
        frame@.len() == 9 + body@.len(),
        frame@[0] == 1,
        number_at(frame@, 1) == seq_no,
        number_at(frame@, 5) == reply_no,
        frame@.skip(9) == body@,
{
    assert(frame@.subrange(1, 5) =~= be_bytes(seq_no));
    be_round_trip(seq_no, frame@, 1);
    lemma_number_at(frame@, 1);
    assert(frame@.subrange(5, 9) =~= be_bytes(reply_no));
    be_round_trip(reply_no, frame@, 5);
    lemma_number_at(frame@, 5);
    assert(frame@.skip(9) =~= body@);
}

/// An ack frame is the byte 2 and the number of what it acknowledges.
pub proof fn ack_frame_is_laid_out(reply_no: SeqNo, frame: Vec<u8>)
    requires
        call_ensures(super::frame::create_ack, (reply_no,), frame),
    ensures
        frame@.len() == 5,
        frame@[0] == 2,
        number_at(frame@, 1) == reply_no,
{
    assert(frame@.subrange(1, 5) =~= be_bytes(reply_no));
    be_round_trip(reply_no, frame@, 1);
    lemma_number_at(frame@, 1);
}

/// A frame is a packet if and only if it starts with the byte of a kind of packets and is long
/// enough for its numbers. It is never SeqCst, and carries the whole frame.
pub proof fn frame_is_parsed_by_its_kind(frame: Vec<u8>, packet: Option<Packet<Vec<u8>>>)
    requires
        call_ensures(super::frame::parse_frame, (frame,), packet),
    ensures
        packet is None <==> {
            ||| frame@.len() < 5
            ||| frame@[0] > 2
            ||| frame@[0] == 1 && frame@.len() < 9
        },
        match packet {
            None => true,
            Some(Packet::Payload(s, d)) => frame@[0] == 0 && s == number_at(frame@, 1) && d == frame,
            Some(Packet::Reply(s, r, d)) => {
                &&& frame@[0] == 1
                &&& s == number_at(frame@, 1)
                &&& r == number_at(frame@, 5)
                &&& d == frame
            },
            Some(Packet::Ack(r)) => frame@[0] == 2 && r == number_at(frame@, 1),
            Some(_) => false,
        },
{
    lemma_number_at(frame@, 1);
    lemma_number_at(frame@, 5);
}

/// The body of a frame is what follows its numbers. An ack has none.
pub proof fn body_follows_the_numbers(frame: &[u8], body: Option<&[u8]>)
    requires
        call_ensures(super::frame::frame_body, (frame,), body),
    ensures
        body is Some <==> {
            ||| frame@.len() >= 5 && frame@[0] == 0
            ||| frame@.len() >= 9 && frame@[0] == 1
        },
        body is Some && frame@[0] == 0 ==> (body->0)@ == frame@.skip(5),
        body is Some && frame@[0] == 1 ==> (body->0)@ == frame@.skip(9),
{
    if body is Some {
        assert(frame@.subrange(5, frame@.len() as int) =~= frame@.skip(5));
        if frame@[0] == 1 {
            assert(frame@.subrange(9, frame@.len() as int) =~= frame@.skip(9));
        }
    }
}

/// A frame that was made of a payload is parsed as that payload, and its body is the same.
pub proof fn made_payload_is_parsed(
    seq_no: SeqNo,
    body: &[u8],
    frame: Vec<u8>,
    packet: Option<Packet<Vec<u8>>>,
)
    requires
        call_ensures(super::frame::create_payload, (seq_no, body), frame),
        call_ensures(super::frame::parse_frame, (frame,), packet),
    ensures
        packet == Some(Packet::Payload(seq_no, frame)),
{
    payload_frame_is_laid_out(seq_no, body, frame);
    frame_is_parsed_by_its_kind(frame, packet);
}

/// A frame that was made of a reply is parsed as that reply.
pub proof fn made_reply_is_parsed(
    seq_no: SeqNo,
    reply_no: SeqNo,
    body: &[u8],
    frame: Vec<u8>,
    packet: Option<Packet<Vec<u8>>>,
)
    requires
        call_ensures(super::frame::create_reply, (seq_no, reply_no, body), frame),
        call_ensures(super::frame::parse_frame, (frame,), packet),
    ensures
        packet == Some(Packet::Reply(seq_no, reply_no, frame)),
{
    reply_frame_is_laid_out(seq_no, reply_no, body, frame);
    frame_is_parsed_by_its_kind(frame, packet);
}

/// A frame that was made of an ack is parsed as that ack.
pub proof fn made_ack_is_parsed(
    reply_no: SeqNo,
    frame: Vec<u8>,
    packet: Option<Packet<Vec<u8>>>,
)
    requires
        call_ensures(super::frame::create_ack, (reply_no,), frame),
        call_ensures(super::frame::parse_frame, (frame,), packet),
    ensures
        packet == Some(Packet::<Vec<u8>>::Ack(reply_no)),
{
    ack_frame_is_laid_out(reply_no, frame);
    frame_is_parsed_by_its_kind(frame, packet);
}

// ---- loss ----

/// A random number drops a packet if and only if it is in the last quarter.
pub proof fn last_quarter_is_dropped(random: u32, dropped: bool)
    requires
        call_ensures(super::random::is_dropped, (random,), dropped),
    ensures
        dropped <==> random >= 3_221_225_469,
{
}

/// A frame that is not dropped is an ack, a packet that takes part in an exchange, or malformed,
/// as it is laid out.
pub proof fn kept_frame_comes_in(frame: Vec<u8>, random: u32, out: Incoming)
    requires
        call_ensures(super::random::incoming, (frame, random), out),
    ensures
        out is Lost <==> random >= 3_221_225_469,
        random < 3_221_225_469 ==> {
            &&& out is Malformed <==> {
                ||| frame@.len() < 5
                ||| frame@[0] > 2
                ||| frame@[0] == 1 && frame@.len() < 9
            }
            &&& match out {
                Incoming::Lost => false,
                Incoming::Malformed => true,
                Incoming::Ack(r) => frame@[0] == 2 && r == number_at(frame@, 1),
                Incoming::Exchange(Packet::Payload(s, d)) => frame@[0] == 0 && s == number_at(
                    frame@,
                    1,
                ) && d == frame,
                Incoming::Exchange(Packet::Reply(s, r, d)) => {
                    &&& frame@[0] == 1
                    &&& s == number_at(frame@, 1)
                    &&& r == number_at(frame@, 5)
                    &&& d == frame
                },
                Incoming::Exchange(_) => false,
            }
        },
{
    lemma_number_at(frame@, 1);
    lemma_number_at(frame@, 5);
}

/// A frame that comes in with loss is lost, or what it is laid out as.
pub proof fn frame_with_loss_is_lost_or_comes_in(frame: Vec<u8>, out: Incoming)
    requires
        call_ensures(super::random::incoming_with_loss, (frame,), out),
    ensures
        out is Malformed ==> {
            ||| frame@.len() < 5
            ||| frame@[0] > 2
            ||| frame@[0] == 1 && frame@.len() < 9
        },
        match out {
            Incoming::Lost | Incoming::Malformed => true,
            Incoming::Ack(r) => frame@.len() >= 5 && frame@[0] == 2 && r == number_at(frame@, 1),
            Incoming::Exchange(Packet::Payload(s, d)) => {
                &&& frame@.len() >= 5
                &&& frame@[0] == 0
                &&& s == number_at(frame@, 1)
                &&& d == frame
            },
            Incoming::Exchange(Packet::Reply(s, r, d)) => {
                &&& frame@.len() >= 9
                &&& frame@[0] == 1
                &&& s == number_at(frame@, 1)
                &&& r == number_at(frame@, 5)
                &&& d == frame
            },
            Incoming::Exchange(_) => false,
        },
{
    lemma_number_at(frame@, 1);
    lemma_number_at(frame@, 5);
}

// ---- chunks ----

proof fn lemma_chunk_at(bytes: Seq<u8>, i: int, k: int)
    requires
        0 <= i <= bytes.len(),
    ensures
        chunks_from(bytes, i).len() == (bytes.len() - i + 999) / 1000,
        0 <= k < chunks_from(bytes, i).len() ==> {
            let from = i + 1000 * k;
            let to = if from + 1000 < bytes.len() {
                from + 1000
            } else {
                bytes.len() as int
            };
            &&& from < to
            &&& chunks_from(bytes, i)[k] == bytes.subrange(from, to)
        },
    decreases bytes.len() - i,
{
    if i < bytes.len() {
        let j = if i + 1000 < bytes.len() {
            i + 1000
        } else {
            bytes.len() as int
        };
        lemma_chunk_at(bytes, j, k - 1);
        assert(chunks_from(bytes, i).drop_first() =~= chunks_from(bytes, j));
        if 0 < k < chunks_from(bytes, i).len() {
            assert(chunks_from(bytes, i)[k] == chunks_from(bytes, j)[k - 1]);
        }
    }
}

/// Whether the messages bring the bytes, a thousand in each but the last, in their order.
pub open spec fn brings(messages: Seq<Message>, fileid: u64, bytes: Seq<u8>) -> bool {
    &&& messages.len() == (bytes.len() + 999) / 1000
    &&& forall|k: int|
        0 <= k < messages.len() ==> {
            let to = if 1000 * k + 1000 < bytes.len() {
                1000 * k + 1000
            } else {
                bytes.len() as int
            };
            &&& #[trigger] messages[k] matches Message::FileDownload { fileid: id, file_chunk }
            &&& id == fileid
            &&& file_chunk@ == bytes.subrange(1000 * k, to)
        }
}

proof fn lemma_brings(messages: Seq<Message>, fileid: u64, bytes: Seq<u8>)
    requires
        chunks_of(messages) == chunks_from(bytes, 0),
        forall|k: int|
            0 <= k < messages.len() ==> (#[trigger] messages[k] matches Message::FileDownload {
                fileid: id,
                file_chunk,
            } && id == fileid),
    ensures
        brings(messages, fileid, bytes),
{
    lemma_chunk_at(bytes, 0, 0);
    assert(messages.len() == chunks_of(messages).len());
    assert forall|k: int| 0 <= k < messages.len() implies {
        let to = if 1000 * k + 1000 < bytes.len() {
            1000 * k + 1000
        } else {
            bytes.len() as int
        };
        &&& #[trigger] messages[k] matches Message::FileDownload { fileid: id, file_chunk }
        &&& id == fileid
        &&& file_chunk@ == bytes.subrange(1000 * k, to)
    } by {
        lemma_chunk_at(bytes, 0, k);
        assert(chunks_of(messages)[k] == super::chunks::chunk_of(messages[k]));
    }
}

/// What was read of a file is cut into chunks of a thousand bytes, but for the last.
pub proof fn chunks_hold_a_thousand_bytes(
    fileid: u64,
    buffer: &[u8],
    n: usize,
    messages: Vec<Message>,
)
    requires
        n <= buffer@.len(),
        call_ensures(super::chunks::file_chunks, (fileid, buffer, n), messages),
    ensures
        brings(messages@, fileid, buffer@.subrange(0, n as int)),
{
    lemma_brings(messages@, fileid, buffer@.subrange(0, n as int));
}

/// An upload goes on if and only if something was read, and brings that. Otherwise it says that it
/// is complete.
pub proof fn upload_goes_on_while_there_is_more(
    fileid: u64,
    buffer: &[u8],
    read: Option<usize>,
    out: (Vec<Message>, bool),
)
    requires
        read matches Some(n) ==> n <= buffer@.len(),
        call_ensures(super::chunks::upload_step, (fileid, buffer, read), out),
    ensures
        out.1 <==> (read matches Some(n) && n > 0),
        out.1 ==> brings(out.0@, fileid, buffer@.subrange(0, read->0 as int)),
        !out.1 ==> {
            &&& out.0@.len() == 1
            &&& out.0@[0] matches Message::FileDownloadComplete { fileid: id }
            &&& id == fileid
        },
{
    if out.1 {
        lemma_brings(out.0@, fileid, buffer@.subrange(0, read->0 as int));
    }
}

// ---- exchanges ----

/// Each message has its action: a request opens a file, a size that is not over a million creates
/// one, a confirmed download uploads, a chunk of a file that is being downloaded is written, and a
/// directory that is asked for is listed. A greater size and a chunk of another file are refused,
/// and everything else is acknowledged.
pub proof fn message_has_its_action<F>(
    downloads: Downloads<F>,
    message: Message,
    data: Option<SendData<F>>,
    action: Action<F>,
)
    requires
        call_ensures(Downloads::<F>::process, (&downloads, message, data), action),
    ensures
        action is OpenFile <==> message is RequestFile && data is None,
        action is CreateFile <==> {
            &&& message matches Message::ConfirmFileSize { filesize }
            &&& filesize <= 1_000_000
            &&& data matches Some(SendData::RequestFile { .. })
        },
        action is Upload <==> {
            &&& message is ConfirmDownload
            &&& data matches Some(SendData::ConfirmFileSize { .. })
        },
        action is Write <==> {
            &&& message matches Message::FileDownload { fileid, .. }
            &&& data is None
            &&& downloads@.dom().contains(fileid)
        },
        action is ListDir <==> message is ReadDir && data is None,
        action is Refuse <==> {
            ||| {
                &&& message matches Message::ConfirmFileSize { filesize }
                &&& filesize > 1_000_000
                &&& data matches Some(SendData::RequestFile { .. })
            }
            ||| {
                &&& message matches Message::FileDownload { fileid, .. }
                &&& data is None
                &&& !downloads@.dom().contains(fileid)
            }
        },
        match action {
            Action::OpenFile { filename } => message matches Message::RequestFile { filename: f }
                && f == filename,
            Action::CreateFile { filename } => data matches Some(
                SendData::RequestFile { filename: f },
            ) && f == filename,
            Action::Upload { fileid, file } => {
                &&& message matches Message::ConfirmDownload { fileid: id }
                &&& id == fileid
                &&& data matches Some(SendData::ConfirmFileSize { file: f })
                &&& f == file
            },
            Action::Write { fileid, file_chunk } => {
                &&& message matches Message::FileDownload { fileid: id, file_chunk: c }
                &&& id == fileid
                &&& c == file_chunk
            },
            _ => true,
        },
{
}

/// No file is being downloaded at first.
pub proof fn nothing_is_downloaded_at_first<F>(downloads: Downloads<F>)
    requires
        call_ensures(Downloads::<F>::new, (), downloads),
    ensures
        forall|fileid: u64| !(#[trigger] downloads@.dom().contains(fileid)),
{
}

/// A file that was created is being downloaded under its number, and the download is confirmed.
/// Where none was created, nothing changes and there is no reply.
pub proof fn created_file_is_downloaded<F>(
    downloads: &mut Downloads<F>,
    file: Option<F>,
    fileid: u64,
    reply: Option<(SendData<F>, Message)>,
)
    requires
        call_ensures(Downloads::<F>::created, (downloads, file, fileid), reply),
    ensures
        reply is Some <==> file is Some,
        file is None ==> final(downloads)@ == old(downloads)@,
        file is Some ==> {
            &&& final(downloads)@ == old(downloads)@.insert(fileid, file->0)
            &&& (reply->0).0 is ConfirmDownload
            &&& (reply->0).1 matches Message::ConfirmDownload { fileid: id }
            &&& id == fileid
        },
{
}

/// The same holds where the number is random, for the number that is confirmed.
pub proof fn created_file_is_downloaded_at_random<F>(
    downloads: &mut Downloads<F>,
    file: Option<F>,
    reply: Option<(SendData<F>, Message)>,
)
    requires
        call_ensures(Downloads::<F>::created_at_random, (downloads, file), reply),
    ensures
        reply is Some <==> file is Some,
        file is None ==> final(downloads)@ == old(downloads)@,
        file is Some ==> {
            &&& (reply->0).0 is ConfirmDownload
            &&& (reply->0).1 matches Message::ConfirmDownload { fileid }
            &&& final(downloads)@ == old(downloads)@.insert(fileid, file->0)
        },
{
}

/// A file is found by its number if and only if it is being downloaded under it.
pub proof fn downloaded_file_is_found<F>(downloads: Downloads<F>, fileid: u64, file: Option<&F>)
    requires
        call_ensures(Downloads::<F>::file, (&downloads, fileid), file),
    ensures
        file is Some <==> downloads@.dom().contains(fileid),
        file is Some ==> *file->0 == downloads@[fileid],
{
}

/// A file that was opened is offered with its size, and kept until the offer is answered.
pub proof fn opened_file_is_offered<F>(
    file: Option<(F, u64)>,
    reply: Option<(SendData<F>, Message)>,
)
    requires
        call_ensures(super::exchange::opened::<F>, (file,), reply),
    ensures
        reply is Some <==> file is Some,
        file matches Some((f, size)) ==> {
            &&& (reply->0).0 matches SendData::ConfirmFileSize { file: kept }
            &&& kept == f
            &&& (reply->0).1 matches Message::ConfirmFileSize { filesize }
            &&& filesize == size
        },
{
}

/// Whether `names` are the names of the files among the entries, in their order. An entry is
/// listed if it is a file and its name can be read.
pub open spec fn lists_names(
    entries: Seq<DirEntry>,
    n: int,
    picked: Seq<int>,
    names: Seq<String>,
) -> bool {
    &&& picked.len() == names.len()
    &&& forall|a: int, b: int|
        0 <= a < b < picked.len() ==> #[trigger] picked[a] < #[trigger] picked[b]
    &&& forall|a: int|
        0 <= a < picked.len() ==> {
            &&& 0 <= #[trigger] picked[a] < n
            &&& entries[picked[a]] matches DirEntry::Readable { is_file, filename }
            &&& is_file
            &&& filename == Some(names[a])
        }
    &&& forall|i: int|
        0 <= i < n && (#[trigger] entries[i] matches DirEntry::Readable { is_file, filename }
            && is_file && filename is Some) ==> picked.contains(i)
}

proof fn lemma_lists_names(entries: Seq<DirEntry>, n: int) -> (picked: Seq<int>)
    requires
        0 <= n <= entries.len(),
    ensures
        lists_names(entries, n, picked, files_among(entries, n)),
    decreases n,
{
    if n == 0 {
        Seq::empty()
    } else {
        let rest = lemma_lists_names(entries, n - 1);
        match entries[n - 1] {
            DirEntry::Readable { is_file: true, filename: Some(name) } => {
                let picked = rest.push(n - 1);
                assert forall|i: int|
                    0 <= i < n && (#[trigger] entries[i] matches DirEntry::Readable {
                        is_file,
                        filename,
                    } && is_file && filename is Some) implies picked.contains(i) by {
                    if i == n - 1 {
                        assert(picked[rest.len() as int] == i);
                    } else {
                        let a = choose|a: int| 0 <= a < rest.len() && rest[a] == i;
                        assert(picked[a] == i);
                    }
                }
                picked
            },
            _ => rest,
        }
    }
}

/// The files of a directory are listed if and only if every entry can be read.
pub proof fn readable_directory_is_listed(
    entries: Vec<DirEntry>,
    filenames: Option<Vec<String>>,
) -> (picked: Seq<int>)
    requires
        call_ensures(super::exchange::list_files, (entries,), filenames),
    ensures
        filenames is Some <==> forall|i: int|
            0 <= i < entries@.len() ==> #[trigger] entries@[i] !is Unreadable,
        filenames is Some ==> lists_names(
            entries@,
            entries@.len() as int,
            picked,
            (filenames->0)@,
        ),
{
    lemma_lists_names(entries@, entries@.len() as int)
}

/// A directory that was listed is sent. One that cannot be read is not.
pub proof fn listed_directory_is_sent<F>(
    entries: Option<Vec<DirEntry>>,
    reply: Option<(SendData<F>, Message)>,
) -> (picked: Seq<int>)
    requires
        call_ensures(super::exchange::listed::<F>, (entries,), reply),
    ensures
        reply is Some <==> (entries matches Some(e) && forall|i: int|
            0 <= i < e@.len() ==> #[trigger] e@[i] !is Unreadable),
        reply is Some ==> {
            &&& (reply->0).0 is DirContents
            &&& (reply->0).1 matches Message::DirContents { filenames }
            &&& lists_names(
                (entries->0)@,
                (entries->0)@.len() as int,
                picked,
                filenames@,
            )
        },
{
    match entries {
        Some(e) => lemma_lists_names(e@, e@.len() as int),
        None => Seq::empty(),
    }
}

} // verus!

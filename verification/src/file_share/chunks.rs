//! Cutting a file into pieces that fit into a packet.
use super::exchange::Message;
use super::frame::push_all;
use vstd::prelude::*;
use vstd::slice::slice_subrange;

verus! {

/// How many bytes of a file go into one packet.
pub const FILE_CHUNK_SIZE: usize = 1000;

/// Where the chunk ends that begins at `i`, in a file of `n` bytes.
pub open spec fn chunk_end(i: int, n: int) -> int {
    if i + FILE_CHUNK_SIZE < n {
        i + FILE_CHUNK_SIZE
    } else {
        n
    }
}

/// The chunks of the bytes from `i` on.
pub open spec fn chunks_from(bytes: Seq<u8>, i: int) -> Seq<Seq<u8>>
    decreases bytes.len() - i,
{
    if 0 <= i < bytes.len() {
        let j = chunk_end(i, bytes.len() as int);
        seq![bytes.subrange(i, j)] + chunks_from(bytes, j)
    } else {
        Seq::empty()
    }
}

/// The bytes of some chunks, one after the other.
pub open spec fn joined(chunks: Seq<Seq<u8>>) -> Seq<u8>
    decreases chunks.len(),
{
    if chunks.len() == 0 {
        Seq::empty()
    } else {
        chunks[0] + joined(chunks.drop_first())
    }
}

/// The chunk that a message brings.
pub open spec fn chunk_of(message: Message) -> Seq<u8> {
    match message {
        Message::FileDownload { fileid, file_chunk } => file_chunk@,
        _ => Seq::empty(),
    }
}

/// The chunks that messages bring.
pub open spec fn chunks_of(messages: Seq<Message>) -> Seq<Seq<u8>> {
    messages.map_values(|m: Message| chunk_of(m))
}

/// The messages that bring the first `n` bytes of `buffer`, as a part of the file `fileid`.
pub fn file_chunks(fileid: u64, buffer: &[u8], n: usize) -> (messages: Vec<Message>)
    requires
        n <= buffer@.len(),
    ensures
        chunks_of(messages@) == chunks_from(buffer@.subrange(0, n as int), 0),
        forall|k: int|
            0 <= k < messages@.len() ==> (#[trigger] messages@[k] matches Message::FileDownload {
                fileid: id,
                file_chunk,
            } && id == fileid),
{
    let ghost bytes = buffer@.subrange(0, n as int);
    let mut messages: Vec<Message> = Vec::new();
    let mut i: usize = 0;
    assert(chunks_of(messages@) + chunks_from(bytes, 0) =~= chunks_from(bytes, 0));
    while i < n
        invariant
            i <= n <= buffer@.len(),
            bytes == buffer@.subrange(0, n as int),
            chunks_of(messages@) + chunks_from(bytes, i as int) == chunks_from(bytes, 0),
            forall|k: int|
                0 <= k < messages@.len() ==> (#[trigger] messages@[k] matches Message::FileDownload {
                    fileid: id,
                    file_chunk,
                } && id == fileid),
        decreases n - i,
    {
        let j: usize = if n - i > FILE_CHUNK_SIZE {
            i + FILE_CHUNK_SIZE
        } else {
            n
        };
        let mut file_chunk: Vec<u8> = Vec::new();
        push_all(&mut file_chunk, slice_subrange(buffer, i, j));
        let ghost before = messages@;
        messages.push(Message::FileDownload { fileid, file_chunk });
        proof {
            assert(file_chunk@ =~= bytes.subrange(i as int, j as int));
            assert(chunks_of(messages@) =~= chunks_of(before).push(file_chunk@));
            assert(chunks_of(before) + chunks_from(bytes, i as int) =~= chunks_of(messages@)
                + chunks_from(bytes, j as int));
        }
        i = j;
    }
    assert(chunks_of(messages@) + chunks_from(bytes, i as int) =~= chunks_of(messages@));
    messages
}

/// Whether `out` is how the upload of the file `fileid` goes on after a read: the messages to send
/// now, and whether there is more to read. Nothing is read where reading failed.
pub open spec fn uploads(
    fileid: u64,
    buffer: Seq<u8>,
    read: Option<usize>,
    out: (Seq<Message>, bool),
) -> bool {
    match read {
        Some(n) if n > 0 => {
            &&& out.1
            &&& chunks_of(out.0) == chunks_from(buffer.subrange(0, n as int), 0)
            &&& forall|k: int|
                0 <= k < out.0.len() ==> (#[trigger] out.0[k] matches Message::FileDownload {
                    fileid: id,
                    file_chunk,
                } && id == fileid)
        },
        _ => {
            &&& !out.1
            &&& out.0 == seq![Message::FileDownloadComplete { fileid }]
        },
    }
}

/// How an upload goes on after `read` bytes have been read into `buffer`, or nothing if reading
/// failed: what was read is sent in chunks, and the end of the file is announced once, when nothing
/// more can be read. Also tells whether there is more to read.
pub fn upload_step(fileid: u64, buffer: &[u8], read: Option<usize>) -> (out: (Vec<Message>, bool))
    requires
        read matches Some(n) ==> n <= buffer@.len(),
    ensures
        uploads(fileid, buffer@, read, (out.0@, out.1)),
{
    match read {
        Some(n) if n > 0 => (file_chunks(fileid, buffer, n), true),
        _ => {
            let messages = vec![Message::FileDownloadComplete { fileid }];
            assert(messages@ =~= seq![Message::FileDownloadComplete { fileid }]);
            (messages, false)
        },
    }
}

/// The chunks of a file put together in order are the file, and each of them fits into a packet and
/// brings something.
pub proof fn chunks_make_the_file(bytes: Seq<u8>, i: int)
    requires
        0 <= i <= bytes.len(),
    ensures
        joined(chunks_from(bytes, i)) == bytes.subrange(i, bytes.len() as int),
        forall|k: int|
            0 <= k < chunks_from(bytes, i).len() ==> 0 < (#[trigger] chunks_from(
                bytes,
                i,
            )[k]).len() <= FILE_CHUNK_SIZE,
    decreases bytes.len() - i,
{
    if i < bytes.len() {
        let j = chunk_end(i, bytes.len() as int);
        let rest = chunks_from(bytes, j);
        let all = chunks_from(bytes, i);
        chunks_make_the_file(bytes, j);
        assert(all.drop_first() =~= rest);
        assert(bytes.subrange(i, j) + bytes.subrange(j, bytes.len() as int) =~= bytes.subrange(
            i,
            bytes.len() as int,
        ));
        assert forall|k: int| 0 <= k < all.len() implies 0 < (#[trigger] all[k]).len()
            <= FILE_CHUNK_SIZE by {
            if k > 0 {
                assert(all[k] == rest[k - 1]);
            }
        }
    } else {
        assert(bytes.subrange(i, bytes.len() as int) =~= Seq::empty());
    }
}

/// Chunks put together are the ones before put together, and the ones after put together.
pub proof fn joined_in_parts(a: Seq<Seq<u8>>, b: Seq<Seq<u8>>)
    ensures
        joined(a + b) == joined(a) + joined(b),
    decreases a.len(),
{
    if a.len() == 0 {
        assert(a + b =~= b);
        assert(joined(a) + joined(b) =~= joined(b));
    } else {
        joined_in_parts(a.drop_first(), b);
        assert((a + b).drop_first() =~= a.drop_first() + b);
        assert(joined(a + b) =~= joined(a) + joined(b));
    }
}

/// What a read has brought: a buffer, and how many bytes of it were read, or nothing if reading
/// failed.
pub struct Reading {
    pub buffer: Seq<u8>,
    pub read: Option<usize>,
}

impl Reading {
    /// The bytes that were read.
    pub open spec fn bytes(self) -> Seq<u8> {
        match self.read {
            Some(n) => self.buffer.subrange(0, n as int),
            None => Seq::empty(),
        }
    }
}

/// All bytes that were read.
pub open spec fn bytes_read(readings: Seq<Reading>) -> Seq<u8>
    decreases readings.len(),
{
    if readings.len() == 0 {
        Seq::empty()
    } else {
        bytes_read(readings.drop_last()) + readings.last().bytes()
    }
}

/// All messages that are sent.
pub open spec fn all_messages(outs: Seq<(Seq<Message>, bool)>) -> Seq<Message>
    decreases outs.len(),
{
    if outs.len() == 0 {
        Seq::empty()
    } else {
        all_messages(outs.drop_last()) + outs.last().0
    }
}

/// Whether `outs` is what `upload_step` makes of each of `readings`.
pub open spec fn uploads_all(
    fileid: u64,
    readings: Seq<Reading>,
    outs: Seq<(Seq<Message>, bool)>,
) -> bool {
    &&& outs.len() == readings.len()
    &&& forall|k: int|
        #![trigger readings[k]]
        0 <= k < readings.len() ==> {
            &&& readings[k].read matches Some(n) ==> n <= readings[k].buffer.len()
            &&& uploads(fileid, readings[k].buffer, readings[k].read, outs[k])
        }
}

/// An upload brings the file: the chunks of all steps put together in order are all that was read,
/// and the end of the file is announced once, after all of them.
pub proof fn upload_brings_the_file(
    fileid: u64,
    readings: Seq<Reading>,
    outs: Seq<(Seq<Message>, bool)>,
)
    requires
        uploads_all(fileid, readings, outs),
        readings.len() > 0,
        forall|k: int| 0 <= k < outs.len() - 1 ==> (#[trigger] outs[k]).1,
        !outs.last().1,
    ensures
        ({
            let messages = all_messages(outs);
            &&& joined(chunks_of(messages)) == bytes_read(readings)
            &&& messages.len() > 0
            &&& messages.last() == (Message::FileDownloadComplete { fileid })
            &&& forall|k: int|
                0 <= k < messages.len() - 1 ==> (#[trigger] messages[k] matches Message::FileDownload {
                    fileid: id,
                    file_chunk,
                } && id == fileid)
        }),
{
    let before = all_messages(outs.drop_last());
    let last = outs.last().0;
    let n = readings.len() - 1;
    assert(uploads(fileid, readings[n].buffer, readings[n].read, outs[n]));
    assert forall|k: int|
        #![trigger readings.drop_last()[k]]
        0 <= k < readings.len() - 1 implies readings.drop_last()[k] == readings[k] by {}
    lemma_parts_uploaded(fileid, readings.drop_last(), outs.drop_last());
    assert(last =~= seq![Message::FileDownloadComplete { fileid }]);
    let end = seq![Seq::<u8>::empty()];
    assert(chunks_of(all_messages(outs)) =~= chunks_of(before) + end);
    joined_in_parts(chunks_of(before), end);
    assert(end.drop_first() =~= Seq::empty());
    assert(joined(end.drop_first()) =~= Seq::<u8>::empty());
    assert(joined(end) =~= Seq::<u8>::empty());
    assert(readings.last().bytes() =~= Seq::<u8>::empty());
    assert(joined(chunks_of(before)) + Seq::<u8>::empty() =~= bytes_read(readings));
}

/// The chunks of steps that have read something are what was read.
proof fn lemma_parts_uploaded(
    fileid: u64,
    readings: Seq<Reading>,
    outs: Seq<(Seq<Message>, bool)>,
)
    requires
        uploads_all(fileid, readings, outs),
        forall|k: int| 0 <= k < outs.len() ==> (#[trigger] outs[k]).1,
    ensures
        joined(chunks_of(all_messages(outs))) == bytes_read(readings),
        forall|k: int|
            0 <= k < all_messages(outs).len() ==> (#[trigger] all_messages(
                outs,
            )[k] matches Message::FileDownload { fileid: id, file_chunk } && id == fileid),
    decreases outs.len(),
{
    if outs.len() == 0 {
        assert(chunks_of(all_messages(outs)) =~= Seq::empty());
    } else {
        let n = readings.len() - 1;
        let before = all_messages(outs.drop_last());
        let last = outs.last().0;
        assert(uploads(fileid, readings[n].buffer, readings[n].read, outs[n]));
        assert(outs[n].1);
        assert forall|k: int|
            #![trigger readings.drop_last()[k]]
            0 <= k < readings.len() - 1 implies readings.drop_last()[k] == readings[k] by {}
        assert forall|k: int| 0 <= k < outs.len() - 1 implies (#[trigger] outs.drop_last()[k]).1 by {
            assert(outs[k].1);
        }
        lemma_parts_uploaded(fileid, readings.drop_last(), outs.drop_last());
        let bytes = readings.last().bytes();
        chunks_make_the_file(bytes, 0);
        assert(bytes.subrange(0, bytes.len() as int) =~= bytes);
        assert(chunks_of(all_messages(outs)) =~= chunks_of(before) + chunks_of(last));
        joined_in_parts(chunks_of(before), chunks_of(last));
    }
}

} // verus!

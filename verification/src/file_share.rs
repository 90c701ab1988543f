//! An application of SEQEX: two peers that download files from each other.
pub mod behaviour;
pub mod chunks;
pub mod exchange;
pub mod frame;
pub mod random;

pub use chunks::{file_chunks, upload_step, FILE_CHUNK_SIZE};
pub use exchange::{
    list_files, Action, DirEntry, Downloads, Message, SendData, DOWNLOAD_LIMIT,
};
pub use frame::{
    create_ack, create_payload, create_reply, frame_body, parse_frame, PACKET_TYPE_ACK,
    PACKET_TYPE_PAYLOAD, PACKET_TYPE_REPLY,
};
pub use random::{drop_packet, incoming, incoming_with_loss, is_dropped, new_file_id, Incoming};

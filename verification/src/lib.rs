//! # Sequential Exchange Protocol
//!
//! The **Sequential Exchange Protocol**, or SEQEX, is a lightweight, peer-to-peer transport protocol
//! that guarantees packets of data will be losslessly received by the remote peer, and can
//! optionally guarantee that specified packets arrive in the order that they were sent. In addition,
//! SEQEX facilitates stateful exchanges between two peers, giving each peer the opportunity to
//! "reply" to any packet sent by the remote peer.
//!
//! A "stateful exchange" is defined here as a sequence of packets, where the first packet initiates
//! the exchange, and all subsequent packets are replies to the previous packet in the exchange. The
//! final node is always a simple acknowledgement packet, or Ack, that signals a given exchange is
//! over. Both peers agree upon the links between packets: links never get crossed, and replies are
//! always received and understood.
//!
//! SEQEX is transport agnostic and serialization agnostic: packets have no pre-defined encoding, and
//! whatever carries them is a `TransportLayer`.
//!
//! - `seq_queue` is the protocol itself: the send window, the receive window and the reply numbers
//!   of one peer. `single_thread` and `guard` put a transport layer and guards around it.
//! - `sync` is a session that several threads share, and `task` one whose packets are awaited by
//!   asynchronous tasks.
//! - `model` says what a session is and what every operation does to it. `session` puts two of them
//!   together, of whatever types, over a network that loses, duplicates and reorders packets, and
//!   `laws` states what SEQEX guarantees of them: every packet is received exactly once, SeqCst
//!   packets are received in order, and both peers agree upon what answers what. `one_peer` states
//!   what holds of one session whatever the remote peer does. `sync::laws` and `task::laws` show that
//!   sessions which threads or tasks share are such sessions, and `sync::talk` and `task::talk` what
//!   applications get out of them.
//! - `behaviour` states what each operation returns and changes, told by nothing but numbers, windows
//!   and times, and so do `sync::behaviour`, `task::behaviour` and `file_share::behaviour`.
//! - `file_share` and `hello` are two small applications.
pub mod behaviour;
pub mod error;
pub mod file_share;
pub mod guard;
pub mod hello;
mod iter;
pub mod laws;
pub mod model;
pub mod one_peer;
pub mod seq_queue;
pub mod session;
mod session_proof;
pub mod single_thread;
pub mod sync;
pub mod task;
mod transport_layer;

pub use transport_layer::{
    Packet, SeqNo, TransportLayer, DEFAULT_INITIAL_SEQ_NO, DEFAULT_RESEND_INTERVAL_MS,
    DEFAULT_WINDOW_CAP,
};

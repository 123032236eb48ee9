//! An AMQP 0-9-1 message broker core and client driver logic.
//!
//! The crate models the three subsystems of the broker: the framing codec
//! (`value`, `frame`, `codec`), the per-connection protocol state machine
//! (`state`), the broker resource plane (`exchange`, `queue`, `broker`),
//! and the client-side mirror of the handshake and request correlation
//! (`client`). All I/O lives outside the library: callers feed received
//! bytes or frames in and send the returned frames out.

use vstd::prelude::*;

pub mod value;
pub mod frame;
pub mod props;
pub mod codec;
pub mod exchange;
pub mod queue;
pub mod state;
pub mod client;

pub use codec::DecodeOutcome;
pub use codec::decode_frame;
pub use codec::encode_frame;
pub use value::FieldValue;
pub use value::TableEntry;
pub use value::TableValue;
pub use frame::Frame;
pub use frame::ContentHeader;
pub use frame::Properties;
pub use exchange::Exchange;
pub use exchange::ExchangeType;
pub use exchange::Exchanges;
pub use exchange::Binding;
pub use exchange::bytes_eq;
pub use queue::Queue;
pub use queue::Queues;
pub use queue::Consumer;
pub use queue::QueuedMessage;
pub use state::ConnectionState;
pub use state::Broker;
pub use state::Phase;
pub use state::ChannelState;
pub use state::PublishedContent;
pub use state::channel_error;
pub use state::connection_error;
pub use state::error_frame;
pub use state::parse_exchange_type;
pub use client::Message;
pub use client::ClientError;
pub use client::ClientState;
pub use client::ClientPhase;
pub use client::PendingCall;
pub use client::handle_frame;
pub use client::correlate;
pub use client::publish_frames;
pub use client::message_from_body;

verus! {

/// Error raised by the framing codec when a byte stream violates the
/// AMQP 0-9-1 frame grammar.
pub struct FrameError {
    pub code: u16,
    pub message: String,
}

/// Which scope a broker error closes: the whole connection, or one
/// channel.
#[derive(Clone, Copy, PartialEq, Eq, Structural, Debug)]
pub enum ErrorScope {
    Connection,
    Channel,
}

/// An error a broker operation raises; the connection state machine
/// turns it into the matching `close` frame on the wire.
pub struct RuntimeError {
    pub scope: ErrorScope,
    pub code: u16,
    pub text: String,
    pub class_method: u32,
}

} // verus!

//! The per-connection protocol state machine.
//!
//! One `ConnectionState` serves one TCP connection. Decoded frames go
//! in one at a time; what comes back is the exact list of frames to
//! write to the peer. Broker-wide resources live in a `Broker` that
//! all connections share; the caller owns both and the I/O around them.

use vstd::prelude::*;
use crate::frame::Frame;
use crate::frame::ContentHeader;
use vstd::string::StringSliceAdditionalSpecFns;
use crate::frame::is_connection_open_ok;
use crate::frame::is_connection_close_ok;
use crate::frame::is_connection_close;
use crate::frame::is_channel_close;
use crate::frame::is_connection_close_code;
use crate::frame::is_channel_close_code;
use crate::frame::is_channel_open_ok;
use crate::frame::is_channel_close_ok;
use crate::frame::is_exchange_declare_ok;
use crate::frame::is_queue_bind_ok;
use crate::frame::is_basic_consume_ok;
use crate::value::FieldValue;
use crate::value::TableEntry;
use crate::exchange::Exchanges;
use crate::exchange::Exchange;
use crate::exchange::ExchangeType;
use crate::exchange::Binding;
use crate::exchange::exchange_idx;
use crate::exchange::has_exchange;
use crate::exchange::bytes_eq;
use crate::exchange::route_queues;
use crate::queue::Queues;
use crate::queue::QueuedMessage;
use crate::queue::queue_idx;
use crate::queue::has_queue;
use crate::queue::wf_queues;
use crate::ErrorScope;
use crate::RuntimeError;

verus! {

/// The handshake and lifecycle phase of a connection, named after what
/// the broker last did or now awaits.
#[derive(Clone, Copy, PartialEq, Eq, Structural, Debug)]
pub enum Phase {
    /// Nothing received yet; the protocol header must come first.
    AwaitHeader,
    /// `connection.start` was sent; `start-ok` must come back.
    SendStart,
    /// `connection.tune` was sent; `tune-ok` must come back.
    SendTune,
    /// Tuning done; `connection.open` must come next.
    AwaitOpen,
    /// The connection is open for channel traffic.
    Open,
    /// A `connection.close` was sent; only `close-ok` is awaited.
    Closing,
    /// The connection is finished; the socket can be dropped.
    Closed,
}

/// Per-channel record: the channel number and the delivery-tag counter
/// (delivery tags count per channel, not per queue).
pub struct ChannelState {
    pub number: u16,
    pub next_tag: u64,
}

/// A publish whose content frames are still arriving. At most one per
/// channel exists at a time.
pub struct PublishedContent {
    pub channel: u16,
    pub exchange: Vec<u8>,
    pub routing_key: Vec<u8>,
    pub expected: Option<u64>,
    pub received: Vec<u8>,
    pub headers: Vec<TableEntry>,
}

/// The broker resource plane every connection shares.
pub struct Broker {
    pub exchanges: Exchanges,
    pub queues: Queues,
}

impl Broker {
    /// A broker with no exchanges and no queues.
    pub fn new() -> (r: Broker)
        ensures
            r.exchanges.list@.len() == 0,
            r.queues.list@.len() == 0,
            wf_queues(r.queues.list@),
    {
        Broker { exchanges: Exchanges::new(), queues: Queues::new() }
    }
}

/// All the transient data of one connection.
pub struct ConnectionState {
    pub phase: Phase,
    pub channels: Vec<ChannelState>,
    pub in_flight: Vec<PublishedContent>,
    pub frame_max: u32,
}

/// The index of the channel with this number, or -1.
pub open spec fn channel_idx(s: Seq<ChannelState>, n: u16) -> int
    decreases s.len(),
{
    if s.len() == 0 {
        -1
    } else if s[0].number == n {
        0
    } else {
        let r = channel_idx(s.skip(1), n);
        if r == -1 {
            -1
        } else {
            1 + r
        }
    }
}

pub open spec fn has_channel(s: Seq<ChannelState>, n: u16) -> bool {
    channel_idx(s, n) >= 0
}

pub proof fn lemma_channel_idx(s: Seq<ChannelState>, n: u16)
    ensures
        channel_idx(s, n) >= 0 ==> channel_idx(s, n) < s.len() && s[channel_idx(s, n)].number == n,
    decreases s.len(),
{
    if s.len() > 0 && s[0].number != n {
        lemma_channel_idx(s.skip(1), n);
    }
}

/// The index of the in-flight publish on this channel, or -1.
pub open spec fn flight_idx(s: Seq<PublishedContent>, n: u16) -> int
    decreases s.len(),
{
    if s.len() == 0 {
        -1
    } else if s[0].channel == n {
        0
    } else {
        let r = flight_idx(s.skip(1), n);
        if r == -1 {
            -1
        } else {
            1 + r
        }
    }
}

pub open spec fn has_flight(s: Seq<PublishedContent>, n: u16) -> bool {
    flight_idx(s, n) >= 0
}

pub proof fn lemma_flight_idx(s: Seq<PublishedContent>, n: u16)
    ensures
        flight_idx(s, n) >= 0 ==> flight_idx(s, n) < s.len() && s[flight_idx(s, n)].channel == n,
    decreases s.len(),
{
    if s.len() > 0 && s[0].channel != n {
        lemma_flight_idx(s.skip(1), n);
    }
}

/// The frame a channel-scoped error puts on the wire:
/// `channel.close` with the code, the text, and the class and method
/// of the method that failed.
pub fn channel_error(channel: u16, code: u16, text: Vec<u8>, cm: u32) -> (f: Frame)
    ensures
        is_channel_close(f, channel, code, text@, cm),
{
    crate::frame::channel_close(channel, code, text, cm)
}

/// The frame a connection-scoped error puts on the wire:
/// `connection.close` on channel 0 with the code, the text, and the
/// class and method of the method that failed.
pub fn connection_error(code: u16, text: Vec<u8>, cm: u32) -> (f: Frame)
    ensures
        is_connection_close(f, 0, code, text@, cm),
{
    crate::frame::connection_close(0, code, text, cm)
}

/// Turn a broker error into the matching close frame.
pub fn error_frame(channel: u16, e: RuntimeError) -> (f: Frame)
    ensures
        e.scope == ErrorScope::Channel ==> is_channel_close_code(f, channel, e.code, e.class_method),
        e.scope == ErrorScope::Connection ==> is_connection_close_code(f, e.code, e.class_method),
{
    let text = text_bytes(e.text.as_str());
    match e.scope {
        ErrorScope::Channel => channel_error(channel, e.code, text, e.class_method),
        ErrorScope::Connection => connection_error(e.code, text, e.class_method),
    }
}

/// The reply text of an error as protocol bytes.
fn text_bytes(s: &str) -> (r: Vec<u8>)
    ensures
        r@ == s.spec_bytes(),
{
    vstd::string::StrSliceExecFns::as_bytes_vec(s)
}

impl ConnectionState {
    /// A fresh connection, before its protocol header.
    pub fn new(frame_max: u32) -> (r: ConnectionState)
        ensures
            r.phase == Phase::AwaitHeader,
            r.channels@.len() == 0,
            r.in_flight@.len() == 0,
            r.frame_max == frame_max,
    {
        ConnectionState {
            phase: Phase::AwaitHeader,
            channels: Vec::new(),
            in_flight: Vec::new(),
            frame_max,
        }
    }

    fn find_channel(&self, n: u16, i: usize) -> (r: Option<usize>)
        requires
            i <= self.channels@.len(),
        ensures
            match r {
                Some(j) => i <= j < self.channels@.len() && channel_idx(
                    self.channels@.skip(i as int),
                    n,
                ) == j - i,
                None => channel_idx(self.channels@.skip(i as int), n) == -1,
            },
        decreases self.channels@.len() - i,
    {
        if i == self.channels.len() {
            assert(self.channels@.skip(i as int) =~= Seq::<ChannelState>::empty());
            return None;
        }
        assert(self.channels@.skip(i as int)[0] == self.channels@[i as int]);
        assert(self.channels@.skip(i as int).skip(1) =~= self.channels@.skip(i + 1));
        if self.channels[i].number == n {
            Some(i)
        } else {
            self.find_channel(n, i + 1)
        }
    }

    /// Find an open channel by number.
    pub fn lookup_channel(&self, n: u16) -> (r: Option<usize>)
        ensures
            match r {
                Some(j) => j == channel_idx(self.channels@, n) && j < self.channels@.len()
                    && self.channels@[j as int].number == n,
                None => !has_channel(self.channels@, n),
            },
    {
        let r = self.find_channel(n, 0);
        proof {
            assert(self.channels@.skip(0) =~= self.channels@);
            lemma_channel_idx(self.channels@, n);
        }
        r
    }

    fn find_flight(&self, n: u16, i: usize) -> (r: Option<usize>)
        requires
            i <= self.in_flight@.len(),
        ensures
            match r {
                Some(j) => i <= j < self.in_flight@.len() && flight_idx(
                    self.in_flight@.skip(i as int),
                    n,
                ) == j - i,
                None => flight_idx(self.in_flight@.skip(i as int), n) == -1,
            },
        decreases self.in_flight@.len() - i,
    {
        if i == self.in_flight.len() {
            assert(self.in_flight@.skip(i as int) =~= Seq::<PublishedContent>::empty());
            return None;
        }
        assert(self.in_flight@.skip(i as int)[0] == self.in_flight@[i as int]);
        assert(self.in_flight@.skip(i as int).skip(1) =~= self.in_flight@.skip(i + 1));
        if self.in_flight[i].channel == n {
            Some(i)
        } else {
            self.find_flight(n, i + 1)
        }
    }

    /// Find the in-flight publish on a channel.
    pub fn lookup_flight(&self, n: u16) -> (r: Option<usize>)
        ensures
            match r {
                Some(j) => j == flight_idx(self.in_flight@, n) && j < self.in_flight@.len()
                    && self.in_flight@[j as int].channel == n,
                None => !has_flight(self.in_flight@, n),
            },
    {
        let r = self.find_flight(n, 0);
        proof {
            assert(self.in_flight@.skip(0) =~= self.in_flight@);
            lemma_flight_idx(self.in_flight@, n);
        }
        r
    }

    /// `connection.open`: only the virtual host `/` exists; any other
    /// vhost is refused with the connection error 530.
    pub fn connection_open(&self, channel: u16, virtual_host: &Vec<u8>) -> (f: Frame)
        ensures
            virtual_host@ == seq![47u8] ==> is_connection_open_ok(f, channel),
            virtual_host@ != seq![47u8] ==> is_connection_close_code(
                f,
                530,
                crate::frame::CONNECTION_OPEN,
            ),
    {
        let mut root: Vec<u8> = Vec::new();
        root.push(47);
        assert(root@ =~= seq![47u8]);
        if bytes_eq(virtual_host.as_slice(), root.as_slice()) {
            crate::frame::connection_open_ok(channel)
        } else {
            connection_error(
                530,
                text_bytes("Cannot connect to virtualhost"),
                crate::frame::CONNECTION_OPEN,
            )
        }
    }

    /// `connection.close`: acknowledge and finish.
    pub fn connection_close(&self) -> (f: Frame)
        ensures
            is_connection_close_ok(f, 0),
    {
        crate::frame::connection_close_ok(0)
    }

    /// `channel.open`: a second open of the same number is the channel
    /// error 504; otherwise the channel joins the open set.
    pub fn channel_open(&mut self, channel: u16) -> (f: Frame)
        ensures
            ({
                if has_channel(old(self).channels@, channel) {
                    &&& is_channel_close_code(f, channel, 504, crate::frame::CHANNEL_OPEN)
                    &&& final(self).channels@ == old(self).channels@
                } else {
                    &&& is_channel_open_ok(f, channel)
                    &&& final(self).channels@.len() == old(self).channels@.len() + 1
                    &&& final(self).channels@[old(self).channels@.len() as int].number == channel
                    &&& final(self).channels@[old(self).channels@.len() as int].next_tag == 1
                    &&& (forall|k: int|
                        0 <= k < old(self).channels@.len() ==> final(self).channels@[k] == old(self).channels@[k])
                }
            }),
            final(self).phase == old(self).phase,
            final(self).in_flight@ == old(self).in_flight@,
    {
        match self.lookup_channel(channel) {
            Some(_) => channel_error(
                channel,
                504,
                text_bytes("Channel already opened"),
                crate::frame::CHANNEL_OPEN,
            ),
            None => {
                self.channels.push(ChannelState { number: channel, next_tag: 1 });
                crate::frame::channel_open_ok(channel)
            },
        }
    }

    /// `channel.close`: drop the channel and its in-flight content.
    pub fn channel_close(&mut self, channel: u16) -> (f: Frame)
        ensures
            is_channel_close_ok(f, channel),
            final(self).phase == old(self).phase,
            ({
                let idx = channel_idx(old(self).channels@, channel);
                if idx < 0 {
                    final(self).channels@ == old(self).channels@
                } else {
                    final(self).channels@ == old(self).channels@.remove(idx)
                }
            }),
            ({
                let fidx = flight_idx(old(self).in_flight@, channel);
                if fidx < 0 {
                    final(self).in_flight@ == old(self).in_flight@
                } else {
                    final(self).in_flight@ == old(self).in_flight@.remove(fidx)
                }
            }),
    {
        match self.lookup_channel(channel) {
            Some(i) => {
                self.channels.remove(i);
            },
            None => {},
        }
        match self.lookup_flight(channel) {
            Some(i) => {
                self.in_flight.remove(i);
            },
            None => {},
        }
        crate::frame::channel_close_ok(channel)
    }
}


/// The bytes of each exchange type name.
pub open spec fn direct_name() -> Seq<u8> {
    seq![100u8, 105u8, 114u8, 101u8, 99u8, 116u8]
}

pub open spec fn fanout_name() -> Seq<u8> {
    seq![102u8, 97u8, 110u8, 111u8, 117u8, 116u8]
}

pub open spec fn topic_name() -> Seq<u8> {
    seq![116u8, 111u8, 112u8, 105u8, 99u8]
}

pub open spec fn headers_name() -> Seq<u8> {
    seq![104u8, 101u8, 97u8, 100u8, 101u8, 114u8, 115u8]
}

/// The exchange type a protocol string names, if any.
pub open spec fn spec_exchange_type(name: Seq<u8>) -> Option<ExchangeType> {
    if name == direct_name() {
        Some(ExchangeType::Direct)
    } else if name == fanout_name() {
        Some(ExchangeType::Fanout)
    } else if name == topic_name() {
        Some(ExchangeType::Topic)
    } else if name == headers_name() {
        Some(ExchangeType::Headers)
    } else {
        None
    }
}

/// The exchange type named by a protocol string.
pub fn parse_exchange_type(name: &[u8]) -> (r: Option<ExchangeType>)
    ensures
        r == spec_exchange_type(name@),
{
    let mut w: Vec<u8> = Vec::new();
    w.push(100);
    w.push(105);
    w.push(114);
    w.push(101);
    w.push(99);
    w.push(116);
    assert(w@ =~= direct_name());
    if bytes_eq(name, w.as_slice()) {
        return Some(ExchangeType::Direct);
    }
    let mut w: Vec<u8> = Vec::new();
    w.push(102);
    w.push(97);
    w.push(110);
    w.push(111);
    w.push(117);
    w.push(116);
    assert(w@ =~= fanout_name());
    if bytes_eq(name, w.as_slice()) {
        return Some(ExchangeType::Fanout);
    }
    let mut w: Vec<u8> = Vec::new();
    w.push(116);
    w.push(111);
    w.push(112);
    w.push(105);
    w.push(99);
    assert(w@ =~= topic_name());
    if bytes_eq(name, w.as_slice()) {
        return Some(ExchangeType::Topic);
    }
    let mut w: Vec<u8> = Vec::new();
    w.push(104);
    w.push(101);
    w.push(97);
    w.push(100);
    w.push(101);
    w.push(114);
    w.push(115);
    assert(w@ =~= headers_name());
    if bytes_eq(name, w.as_slice()) {
        return Some(ExchangeType::Headers);
    }
    None
}

impl ConnectionState {
    /// `exchange.declare`: delegate to the registry; reply with
    /// `declare-ok` unless `no-wait` asked for silence, and with the
    /// registry's `channel.close` on an error.
    pub fn exchange_declare(
        &mut self,
        broker: &mut Broker,
        channel: u16,
        name: Vec<u8>,
        etype: ExchangeType,
        passive: bool,
        durable: bool,
        auto_delete: bool,
        internal: bool,
        no_wait: bool,
    ) -> (out: Option<Frame>)
        ensures
            *final(self) == *old(self),
            final(broker).queues == old(broker).queues,
            ({
                let idx = exchange_idx(old(broker).exchanges.list@, name@);
                if idx < 0 {
                    if passive {
                        &&& out is Some
                        &&& is_channel_close_code(out->0, channel, 404, crate::frame::EXCHANGE_DECLARE)
                        &&& final(broker).exchanges.list@ == old(broker).exchanges.list@
                    } else {
                        &&& (no_wait ==> out is None)
                        &&& (!no_wait ==> out is Some && is_exchange_declare_ok(out->0, channel))
                        &&& final(broker).exchanges.list@.len() == old(broker).exchanges.list@.len() + 1
                        &&& final(broker).exchanges.list@[old(broker).exchanges.list@.len() as int].name@
                            == name@
                        &&& final(broker).exchanges.list@[old(broker).exchanges.list@.len() as int].etype
                            == etype
                        &&& final(broker).exchanges.list@[old(broker).exchanges.list@.len() as int].durable
                            == durable
                        &&& final(broker).exchanges.list@[old(broker).exchanges.list@.len() as int].auto_delete
                            == auto_delete
                        &&& final(broker).exchanges.list@[old(broker).exchanges.list@.len() as int].internal
                            == internal
                        &&& final(broker).exchanges.list@[old(broker).exchanges.list@.len() as int].bindings@.len()
                            == 0
                        &&& (forall|k: int|
                            0 <= k < old(broker).exchanges.list@.len() ==> final(broker).exchanges.list@[k]
                                == old(broker).exchanges.list@[k])
                    }
                } else {
                    let cur = old(broker).exchanges.list@[idx];
                    if cur.etype == etype && cur.durable == durable && cur.auto_delete
                        == auto_delete && cur.internal == internal {
                        &&& (no_wait ==> out is None)
                        &&& (!no_wait ==> out is Some && is_exchange_declare_ok(out->0, channel))
                        &&& final(broker).exchanges.list@ == old(broker).exchanges.list@
                    } else {
                        &&& out is Some
                        &&& is_channel_close_code(out->0, channel, 406, crate::frame::EXCHANGE_DECLARE)
                        &&& final(broker).exchanges.list@ == old(broker).exchanges.list@
                    }
                }
            }),
    {
        let ex = Exchange {
            name,
            etype,
            durable,
            auto_delete,
            internal,
            bindings: Vec::new(),
        };
        match broker.exchanges.declare(ex, passive) {
            Ok(_) => {
                if no_wait {
                    None
                } else {
                    Some(crate::frame::exchange_declare_ok(channel))
                }
            },
            Err(e) => Some(error_frame(channel, e)),
        }
    }

    /// `queue.declare`: idempotent creation; the reply carries the
    /// queue's name and its message and consumer counts.
    pub fn queue_declare(
        &mut self,
        broker: &mut Broker,
        channel: u16,
        name: Vec<u8>,
        durable: bool,
        exclusive: bool,
        auto_delete: bool,
        no_wait: bool,
    ) -> (out: Option<Frame>)
        requires
            wf_queues(old(broker).queues.list@),
        ensures
            *final(self) == *old(self),
            final(broker).exchanges == old(broker).exchanges,
            wf_queues(final(broker).queues.list@),
            ({
                let idx = queue_idx(old(broker).queues.list@, name@);
                if idx < 0 {
                    &&& (no_wait ==> out is None)
                    &&& (!no_wait ==> out is Some && crate::frame::is_method(
                        out->0,
                        channel,
                        crate::frame::QUEUE_DECLARE_OK,
                    ) && out->0->Method_2@.len() == 3 && out->0->Method_2@[0] is SimpleString
                        && out->0->Method_2@[0]->SimpleString_0@ == name@)
                    &&& has_queue(final(broker).queues.list@, name@)
                } else {
                    if old(broker).queues.list@[idx].durable == durable && old(broker).queues.list@[idx].exclusive == exclusive && old(broker).queues.list@[idx].auto_delete == auto_delete {
                        &&& (no_wait ==> out is None)
                        &&& (!no_wait ==> out is Some && crate::frame::is_method(
                            out->0,
                            channel,
                            crate::frame::QUEUE_DECLARE_OK,
                        ) && out->0->Method_2@.len() == 3 && out->0->Method_2@[0] is SimpleString
                            && out->0->Method_2@[0]->SimpleString_0@ == name@)
                        &&& final(broker).queues.list@ == old(broker).queues.list@
                    } else {
                        &&& out is Some
                        &&& is_channel_close_code(out->0, channel, 406, crate::frame::QUEUE_DECLARE)
                        &&& final(broker).queues.list@ == old(broker).queues.list@
                    }
                }
            }),
    {
        let reply_name = crate::codec::clone_bytes(&name);
        let ghost n0 = name@;
        match broker.queues.declare(name, durable, exclusive, auto_delete) {
            Ok(i) => {
                proof {
                    crate::queue::lemma_queue_idx(old(broker).queues.list@, n0);
                    if queue_idx(old(broker).queues.list@, n0) < 0 {
                        crate::queue::lemma_queue_idx(broker.queues.list@, n0);
                        assert(broker.queues.list@[old(broker).queues.list@.len() as int].name@
                            == n0);
                        assert(has_queue(broker.queues.list@, n0)) by {
                            lemma_queue_at_implies_has(broker.queues.list@, n0, old(broker).queues.list@.len() as int);
                        };
                    }
                }
                let q = &broker.queues.list[i];
                let mc = if q.messages.len() > 0xffffffff {
                    0xffffffffu32
                } else {
                    q.messages.len() as u32
                };
                let cc = if q.consumers.len() > 0xffffffff {
                    0xffffffffu32
                } else {
                    q.consumers.len() as u32
                };
                if no_wait {
                    None
                } else {
                    Some(crate::frame::queue_declare_ok(channel, reply_name, mc, cc))
                }
            },
            Err(e) => Some(error_frame(channel, e)),
        }
    }

    /// `queue.bind`: both ends must exist; the binding lands on the
    /// exchange.
    pub fn queue_bind(
        &mut self,
        broker: &mut Broker,
        channel: u16,
        queue_name: Vec<u8>,
        exchange_name: Vec<u8>,
        routing_key: Vec<u8>,
        arguments: Vec<TableEntry>,
    ) -> (out: Frame)
        ensures
            *final(self) == *old(self),
            final(broker).queues == old(broker).queues,
            ({
                let qok = has_queue(old(broker).queues.list@, queue_name@);
                let eidx = exchange_idx(old(broker).exchanges.list@, exchange_name@);
                if !qok || eidx < 0 {
                    &&& is_channel_close_code(out, channel, 404, crate::frame::QUEUE_BIND)
                    &&& final(broker).exchanges.list@ == old(broker).exchanges.list@
                } else if crate::exchange::binding_present(
                    old(broker).exchanges.list@[eidx].bindings@,
                    queue_name@,
                    routing_key@,
                    arguments@,
                ) {
                    &&& is_queue_bind_ok(out, channel)
                    &&& final(broker).exchanges.list@ == old(broker).exchanges.list@
                } else {
                    let bs = final(broker).exchanges.list@[eidx].bindings@;
                    let old_bs = old(broker).exchanges.list@[eidx].bindings@;
                    &&& is_queue_bind_ok(out, channel)
                    &&& bs.len() == old_bs.len() + 1
                    &&& bs[old_bs.len() as int].queue@ == queue_name@
                    &&& bs[old_bs.len() as int].routing_key@ == routing_key@
                    &&& bs[old_bs.len() as int].arguments@ == arguments@
                }
            }),
    {
        if broker.queues.lookup(queue_name.as_slice()).is_none() {
            return channel_error(
                channel,
                404,
                text_bytes("Queue not found"),
                crate::frame::QUEUE_BIND,
            );
        }
        let ghost en = exchange_name@;
        let binding = Binding { queue: queue_name, routing_key, arguments };
        match broker.exchanges.bind_queue(exchange_name.as_slice(), binding) {
            Ok(_) => {
                proof {
                    crate::exchange::lemma_exchange_idx(old(broker).exchanges.list@, en);
                }
                crate::frame::queue_bind_ok(channel)
            },
            Err(e) => error_frame(channel, e),
        }
    }

    /// `basic.publish`: the exchange must exist, and only one content
    /// may be in flight per channel; success opens the in-flight slot
    /// and sends nothing.
    pub fn basic_publish(
        &mut self,
        broker: &Broker,
        channel: u16,
        exchange_name: Vec<u8>,
        routing_key: Vec<u8>,
    ) -> (out: Option<Frame>)
        ensures
            ({
                if !has_exchange(broker.exchanges.list@, exchange_name@) {
                    &&& out is Some
                    &&& is_channel_close_code(out->0, channel, 404, crate::frame::BASIC_PUBLISH)
                    &&& final(self).in_flight@ == old(self).in_flight@
                } else if has_flight(old(self).in_flight@, channel) {
                    &&& out is Some
                    &&& is_channel_close_code(out->0, channel, 505, crate::frame::BASIC_PUBLISH)
                    &&& final(self).in_flight@ == old(self).in_flight@
                } else {
                    let fl = final(self).in_flight@[old(self).in_flight@.len() as int];
                    &&& out is None
                    &&& final(self).in_flight@.len() == old(self).in_flight@.len() + 1
                    &&& fl.channel == channel
                    &&& fl.exchange@ == exchange_name@
                    &&& fl.routing_key@ == routing_key@
                    &&& fl.expected is None
                    &&& fl.received@.len() == 0
                    &&& (forall|k: int|
                        0 <= k < old(self).in_flight@.len() ==> final(self).in_flight@[k] == old(self).in_flight@[k])
                }
            }),
            final(self).channels@ == old(self).channels@,
            final(self).phase == old(self).phase,
    {
        if broker.exchanges.lookup(exchange_name.as_slice()).is_none() {
            return Some(
                channel_error(
                    channel,
                    404,
                    text_bytes("Exchange not found"),
                    crate::frame::BASIC_PUBLISH,
                ),
            );
        }
        if self.lookup_flight(channel).is_some() {
            return Some(
                channel_error(
                    channel,
                    505,
                    text_bytes("Content already in flight"),
                    crate::frame::BASIC_PUBLISH,
                ),
            );
        }
        self.in_flight.push(
            PublishedContent {
                channel,
                exchange: exchange_name,
                routing_key,
                expected: None,
                received: Vec::new(),
                headers: Vec::new(),
            },
        );
        None
    }

    /// A content header: legal only right after `basic.publish` on the
    /// same channel, and only once; it fixes the expected body size.
    pub fn receive_content_header(&mut self, header: ContentHeader) -> (out: Option<Frame>)
        ensures
            ({
                let idx = flight_idx(old(self).in_flight@, header.channel);
                if idx < 0 {
                    &&& out is Some
                    &&& is_channel_close_code(out->0, header.channel, 505, crate::frame::BASIC_PUBLISH)
                    &&& final(self).in_flight@ == old(self).in_flight@
                } else if old(self).in_flight@[idx].expected is Some {
                    &&& out is Some
                    &&& is_channel_close_code(out->0, header.channel, 505, crate::frame::BASIC_PUBLISH)
                    &&& final(self).in_flight@ == old(self).in_flight@
                } else {
                    &&& out is None
                    &&& final(self).in_flight@.len() == old(self).in_flight@.len()
                    &&& final(self).in_flight@[idx].expected == Some(header.body_size)
                    &&& final(self).in_flight@[idx].channel == header.channel
                    &&& final(self).in_flight@[idx].exchange@ == old(self).in_flight@[idx].exchange@
                    &&& final(self).in_flight@[idx].routing_key@ == old(self).in_flight@[idx].routing_key@
                    &&& final(self).in_flight@[idx].received@ == old(self).in_flight@[idx].received@
                    &&& (forall|k: int|
                        0 <= k < old(self).in_flight@.len() && k != idx ==> final(self).in_flight@[k] == old(self).in_flight@[k])
                }
            }),
            final(self).channels@ == old(self).channels@,
            final(self).phase == old(self).phase,
    {
        let i = match self.lookup_flight(header.channel) {
            Some(i) => i,
            None => {
                return Some(
                    channel_error(
                        header.channel,
                        505,
                        text_bytes("Unexpected content header"),
                        crate::frame::BASIC_PUBLISH,
                    ),
                );
            },
        };
        if self.in_flight[i].expected.is_some() {
            return Some(
                channel_error(
                    header.channel,
                    505,
                    text_bytes("Unexpected content header"),
                    crate::frame::BASIC_PUBLISH,
                ),
            );
        }
        let mut fl = self.in_flight.remove(i);
        fl.expected = Some(header.body_size);
        let ContentHeader { properties, .. } = header;
        match properties.headers {
            Some(t) => {
                fl.headers = t;
            },
            None => {},
        }
        self.in_flight.insert(i, fl);
        None
    }
}

/// An element with the right name makes `has_queue` true.
proof fn lemma_queue_at_implies_has(s: Seq<crate::queue::Queue>, name: Seq<u8>, i: int)
    requires
        0 <= i < s.len(),
        s[i].name@ == name,
    ensures
        has_queue(s, name),
    decreases i,
{
    if s[0].name@ != name {
        assert(s.skip(1)[i - 1] == s[i]);
        lemma_queue_at_implies_has(s.skip(1), name, i - 1);
    }
}


/// The number of frames the deliveries of these messages take: each
/// message costs a deliver frame, a header, and one frame per chunk.
pub open spec fn deliveries_len(msgs: Seq<QueuedMessage>, cap: nat) -> nat
    decreases msgs.len(),
{
    if msgs.len() == 0 {
        0
    } else {
        2 + crate::codec::chunks_of(msgs[0].body@, cap).len() + deliveries_len(msgs.skip(1), cap)
    }
}

/// One delivery stands at `at` in the output: `basic.deliver` with the
/// tag, a plain header with the body size, then the body chunks.
pub open spec fn delivery_block_at(
    out: Seq<Frame>,
    at: int,
    m: QueuedMessage,
    tag: Seq<u8>,
    channel: u16,
    cap: nat,
) -> bool {
    let cs = crate::codec::chunks_of(m.body@, cap);
    &&& 0 <= at
    &&& at + 2 + cs.len() <= out.len()
    &&& crate::frame::is_method(out[at], channel, crate::frame::BASIC_DELIVER)
    &&& out[at]->Method_2@.len() == 5
    &&& out[at]->Method_2@[0] is SimpleString
    &&& out[at]->Method_2@[0]->SimpleString_0@ == tag
    &&& out[at + 1] is ContentHeader
    &&& crate::frame::is_plain_header(
        out[at + 1]->ContentHeader_0,
        channel,
        60,
        m.body@.len() as u64,
    )
    &&& (forall|j: int|
        0 <= j < cs.len() ==> {
            let b = #[trigger] out[at + 2 + j];
            &&& b is ContentBody
            &&& b->ContentBody_0 == channel
            &&& b->ContentBody_1@ == cs[j]
        })
}

/// The deliveries of these messages stand back to back from `at` on.
pub open spec fn deliveries_match(
    out: Seq<Frame>,
    at: int,
    msgs: Seq<QueuedMessage>,
    tag: Seq<u8>,
    channel: u16,
    cap: nat,
) -> bool
    decreases msgs.len(),
{
    msgs.len() == 0 || (delivery_block_at(out, at, msgs[0], tag, channel, cap)
        && deliveries_match(
        out,
        at + 2 + crate::codec::chunks_of(msgs[0].body@, cap).len(),
        msgs.skip(1),
        tag,
        channel,
        cap,
    ))
}

/// Appending a message adds its block's length.
proof fn lemma_deliveries_len_snoc(msgs: Seq<QueuedMessage>, m: QueuedMessage, cap: nat)
    ensures
        deliveries_len(msgs.push(m), cap) == deliveries_len(msgs, cap) + 2
            + crate::codec::chunks_of(m.body@, cap).len(),
    decreases msgs.len(),
{
    let p = msgs.push(m);
    if msgs.len() == 0 {
        assert(p.skip(1) =~= Seq::<QueuedMessage>::empty());
        assert(p[0] == m);
        assert(deliveries_len(p, cap) == 2 + crate::codec::chunks_of(p[0].body@, cap).len()
            + deliveries_len(p.skip(1), cap));
        assert(deliveries_len(p.skip(1), cap) == 0);
    } else {
        assert(p.skip(1) =~= msgs.skip(1).push(m));
        lemma_deliveries_len_snoc(msgs.skip(1), m, cap);
        assert(p[0] == msgs[0]);
        assert(deliveries_len(p, cap) == 2 + crate::codec::chunks_of(p[0].body@, cap).len()
            + deliveries_len(p.skip(1), cap));
        assert(deliveries_len(p.skip(1), cap) == deliveries_len(msgs.skip(1).push(m), cap));
    }
}

/// A block keeps standing when frames are appended after it.
proof fn lemma_block_stable(
    out1: Seq<Frame>,
    out2: Seq<Frame>,
    at: int,
    m: QueuedMessage,
    tag: Seq<u8>,
    channel: u16,
    cap: nat,
)
    requires
        delivery_block_at(out1, at, m, tag, channel, cap),
        out2.len() >= out1.len(),
        forall|k: int| 0 <= k < out1.len() ==> out2[k] == out1[k],
    ensures
        delivery_block_at(out2, at, m, tag, channel, cap),
{
    let cs = crate::codec::chunks_of(m.body@, cap);
    assert(out2[at] == out1[at]);
    assert(out2[at + 1] == out1[at + 1]);
    assert forall|j: int| 0 <= j < cs.len() implies ({
        let b = #[trigger] out2[at + 2 + j];
        &&& b is ContentBody
        &&& b->ContentBody_0 == channel
        &&& b->ContentBody_1@ == cs[j]
    }) by {
        assert(out2[at + 2 + j] == out1[at + 2 + j]);
        assert(out1[at + 2 + j] is ContentBody);
    };
}

/// A run of blocks keeps standing when frames are appended after it.
proof fn lemma_match_stable(
    out1: Seq<Frame>,
    out2: Seq<Frame>,
    at: int,
    msgs: Seq<QueuedMessage>,
    tag: Seq<u8>,
    channel: u16,
    cap: nat,
)
    requires
        deliveries_match(out1, at, msgs, tag, channel, cap),
        out2.len() >= out1.len(),
        forall|k: int| 0 <= k < out1.len() ==> out2[k] == out1[k],
    ensures
        deliveries_match(out2, at, msgs, tag, channel, cap),
    decreases msgs.len(),
{
    if msgs.len() > 0 {
        lemma_block_stable(out1, out2, at, msgs[0], tag, channel, cap);
        lemma_match_stable(
            out1,
            out2,
            at + 2 + crate::codec::chunks_of(msgs[0].body@, cap).len(),
            msgs.skip(1),
            tag,
            channel,
            cap,
        );
    }
}

/// A run of blocks grows by one block at its end.
proof fn lemma_deliveries_match_snoc(
    out: Seq<Frame>,
    at: int,
    msgs: Seq<QueuedMessage>,
    m: QueuedMessage,
    tag: Seq<u8>,
    channel: u16,
    cap: nat,
)
    requires
        deliveries_match(out, at, msgs, tag, channel, cap),
        delivery_block_at(out, at + deliveries_len(msgs, cap), m, tag, channel, cap),
    ensures
        deliveries_match(out, at, msgs.push(m), tag, channel, cap),
    decreases msgs.len(),
{
    let p = msgs.push(m);
    if msgs.len() == 0 {
        assert(p[0] == m);
        assert(p.skip(1) =~= Seq::<QueuedMessage>::empty());
        assert(deliveries_len(msgs, cap) == 0);
        assert(delivery_block_at(out, at, p[0], tag, channel, cap));
        assert(deliveries_match(out, at + 2 + crate::codec::chunks_of(p[0].body@, cap).len(), p.skip(1), tag, channel, cap));
    } else {
        assert(p[0] == msgs[0]);
        assert(p.skip(1) =~= msgs.skip(1).push(m));
        assert(deliveries_len(msgs, cap) == 2 + crate::codec::chunks_of(msgs[0].body@, cap).len()
            + deliveries_len(msgs.skip(1), cap));
        lemma_deliveries_match_snoc(
            out,
            at + 2 + crate::codec::chunks_of(msgs[0].body@, cap).len(),
            msgs.skip(1),
            m,
            tag,
            channel,
            cap,
        );
        assert(deliveries_match(out, at + 2 + crate::codec::chunks_of(p[0].body@, cap).len(), p.skip(1), tag, channel, cap));
    }
}

/// The delivery tag the next delivery on this channel carries.
pub open spec fn delivery_tag_of(chs: Seq<ChannelState>, channel: u16) -> u64 {
    let idx = channel_idx(chs, channel);
    if idx < 0 {
        1
    } else {
        chs[idx].next_tag
    }
}

impl ConnectionState {
    /// The next delivery tag of a channel: tags count up from 1,
    /// per channel.
    pub fn next_delivery_tag(&mut self, channel: u16) -> (r: u64)
        ensures
            r == delivery_tag_of(old(self).channels@, channel),
            final(self).phase == old(self).phase,
            final(self).in_flight@ == old(self).in_flight@,
            final(self).channels@.len() == old(self).channels@.len(),
            final(self).frame_max == old(self).frame_max,
            ({
                let idx = channel_idx(old(self).channels@, channel);
                if idx < 0 {
                    &&& r == 1
                    &&& final(self).channels@ == old(self).channels@
                } else {
                    &&& r == old(self).channels@[idx].next_tag
                    &&& final(self).channels@[idx].number == channel
                    &&& (old(self).channels@[idx].next_tag < 0xffffffffffffffff ==> final(self).channels@[idx].next_tag == old(self).channels@[idx].next_tag + 1)
                    &&& (forall|k: int|
                        0 <= k < old(self).channels@.len() && k != idx ==> final(self).channels@[k]
                            == old(self).channels@[k])
                }
            }),
    {
        let i = match self.lookup_channel(channel) {
            Some(i) => i,
            None => { return 1 },
        };
        let mut c = self.channels.remove(i);
        let r = c.next_tag;
        if c.next_tag < 0xffffffffffffffff {
            c.next_tag = c.next_tag + 1;
        }
        self.channels.insert(i, c);
        r
    }

    /// The three frames of one delivery: `basic.deliver`, a plain
    /// content header carrying the body size, and the body itself.
    pub fn deliver_frames(
        &mut self,
        out: &mut Vec<Frame>,
        consumer_tag: Vec<u8>,
        channel: u16,
        exchange: Vec<u8>,
        routing_key: Vec<u8>,
        body: Vec<u8>,
    )
        ensures
            final(self).phase == old(self).phase,
            final(self).in_flight@ == old(self).in_flight@,
            final(self).channels@.len() == old(self).channels@.len(),
            final(self).frame_max == old(self).frame_max,
            final(out)@.len() == old(out)@.len() + 2 + crate::codec::chunks_of(
                body@,
                crate::codec::body_cap(old(self).frame_max),
            ).len(),
            (forall|k: int| 0 <= k < old(out)@.len() ==> final(out)@[k] == old(out)@[k]),
            ({
                let cap = crate::codec::body_cap(old(self).frame_max);
                let cs = crate::codec::chunks_of(body@, cap);
                let d = final(out)@[old(out)@.len() as int];
                let h = final(out)@[old(out)@.len() as int + 1];
                &&& crate::frame::is_basic_deliver(
                    d,
                    channel,
                    consumer_tag@,
                    delivery_tag_of(old(self).channels@, channel),
                    false,
                    exchange@,
                    routing_key@,
                )
                &&& h is ContentHeader
                &&& crate::frame::is_plain_header(
                    h->ContentHeader_0,
                    channel,
                    60,
                    body@.len() as u64,
                )
                &&& (forall|j: int|
                    0 <= j < cs.len() ==> {
                        let b = #[trigger] final(out)@[old(out)@.len() as int + 2 + j];
                        &&& b is ContentBody
                        &&& b->ContentBody_0 == channel
                        &&& b->ContentBody_1@ == cs[j]
                    })
            }),
    {
        let tag = self.next_delivery_tag(channel);
        let body_size = body.len() as u64;
        out.push(
            crate::frame::basic_deliver(channel, consumer_tag, tag, false, exchange, routing_key),
        );
        out.push(Frame::ContentHeader(crate::frame::plain_header(channel, 60, body_size)));
        let ghost cap = crate::codec::body_cap(self.frame_max);
        let ghost cs = crate::codec::chunks_of(body@, cap);
        let ghost base = out@.len() as int;
        let ghost pre = out@;
        let chunks = crate::codec::split_body(&body, self.frame_max);
        let mut rest = chunks;
        let mut j: usize = 0;
        let ghost n = cs.len();
        let rn = rest.len();
        proof {
            assert(crate::exchange::byte_seqs_view(rest@) == cs);
            assert(n == rn as int);
        }
        #[verifier::loop_isolation(false)]
        while rest.len() > 0
            invariant
                j + rest@.len() == n,
                out@.len() == base + j,
                crate::exchange::byte_seqs_view(rest@) =~= cs.skip(j as int),
                forall|k: int| 0 <= k < base ==> out@[k] == pre[k],
                forall|m: int|
                    0 <= m < j ==> {
                        let b = #[trigger] out@[base + m];
                        &&& b is ContentBody
                        &&& b->ContentBody_0 == channel
                        &&& b->ContentBody_1@ == cs[m]
                    },
            decreases rest@.len(),
        {
            let ghost prerest = rest@;
            let c = rest.remove(0);
            proof {
                assert(crate::exchange::byte_seqs_view(prerest)[0] == prerest[0]@);
                assert(c@ == cs.skip(j as int)[0]);
                assert(cs.skip(j as int)[0] == cs[j as int + 0]);
                assert(rest@ =~= prerest.skip(1));
                assert(crate::exchange::byte_seqs_view(rest@) =~= crate::exchange::byte_seqs_view(
                    prerest,
                ).skip(1));
                assert(cs.skip(j as int).skip(1) =~= cs.skip(j as int + 1));
                assert(crate::exchange::byte_seqs_view(rest@) =~= cs.skip(j as int + 1));
            }
            out.push(Frame::ContentBody(channel, c));
            j = j + 1;
        }
        proof {
            assert(out@[base - 2] == pre[base - 2]);
            assert(out@[base - 1] == pre[base - 1]);
            assert forall|m2: int| 0 <= m2 < n implies ({
                let b = #[trigger] out@[old(out)@.len() as int + 2 + m2];
                &&& b is ContentBody
                &&& b->ContentBody_0 == channel
                &&& b->ContentBody_1@ == cs[m2]
            }) by {
                assert(out@[base + m2] is ContentBody);
                assert(out@[base + m2]->ContentBody_0 == channel);
                assert(out@[base + m2]->ContentBody_1@ == cs[m2]);
                assert(old(out)@.len() as int + 2 + m2 == base + m2);
            };
            assert forall|k: int| 0 <= k < old(out)@.len() implies #[trigger] out@[k] == old(
                out,
            )@[k] by {
                assert(out@[k] == pre[k]);
                assert(pre[k] == old(out)@[k]);
            };
        }
    }

    /// `basic.consume`: the queue must exist; the consumer is
    /// registered and the queue's backlog is delivered to it at once,
    /// in order, after the `consume-ok` unless `no-wait` asked for
    /// silence.
    pub fn basic_consume(
        &mut self,
        broker: &mut Broker,
        channel: u16,
        queue_name: Vec<u8>,
        consumer_tag: Vec<u8>,
        no_wait: bool,
    ) -> (out: Vec<Frame>)
        requires
            wf_queues(old(broker).queues.list@),
        ensures
            final(broker).exchanges == old(broker).exchanges,
            wf_queues(final(broker).queues.list@),
            final(self).phase == old(self).phase,
            final(self).frame_max == old(self).frame_max,
            ({
                let idx = queue_idx(old(broker).queues.list@, queue_name@);
                let cap = crate::codec::body_cap(old(self).frame_max);
                if idx < 0 {
                    &&& out@.len() == 1
                    &&& is_channel_close_code(out@[0], channel, 404, crate::frame::BASIC_CONSUME)
                    &&& final(broker).queues.list@ == old(broker).queues.list@
                } else {
                    let q = final(broker).queues.list@[idx];
                    let oq = old(broker).queues.list@[idx];
                    &&& q.consumers@.len() == oq.consumers@.len() + 1
                    &&& q.consumers@[oq.consumers@.len() as int].tag@ == consumer_tag@
                    &&& q.consumers@[oq.consumers@.len() as int].channel == channel
                    &&& q.messages@.len() == 0
                    &&& (!no_wait ==> out@.len() == 1 + deliveries_len(oq.messages@, cap)
                        && is_basic_consume_ok(out@[0], channel, consumer_tag@)
                        && deliveries_match(out@, 1, oq.messages@, consumer_tag@, channel, cap))
                    &&& (no_wait ==> out@.len() == deliveries_len(oq.messages@, cap)
                        && deliveries_match(out@, 0, oq.messages@, consumer_tag@, channel, cap))
                }
            }),
    {
        let i = match broker.queues.lookup(queue_name.as_slice()) {
            Some(i) => i,
            None => {
                let mut out: Vec<Frame> = Vec::new();
                out.push(
                    channel_error(
                        channel,
                        404,
                        text_bytes("Queue not found"),
                        crate::frame::BASIC_CONSUME,
                    ),
                );
                return out;
            },
        };
        let ghost pre = broker.queues.list@;
        let ghost cap = crate::codec::body_cap(self.frame_max);
        let reply_tag = crate::codec::clone_bytes(&consumer_tag);
        let deliver_tag = crate::codec::clone_bytes(&consumer_tag);
        let mut q = broker.queues.list.remove(i);
        let drained = q.consume(consumer_tag, channel);
        let ghost drained_v = drained@;
        let mut out: Vec<Frame> = Vec::new();
        if !no_wait {
            out.push(crate::frame::basic_consume_ok(channel, reply_tag));
        }
        let ghost base_len = out@.len() as int;
        let ghost tag_view = deliver_tag@;
        let n = drained.len();
        let mut j: usize = 0;
        let mut rest = drained;
        proof {
            assert(drained_v.take(0) =~= Seq::<QueuedMessage>::empty());
            assert(rest@ =~= drained_v.skip(0));
        }
        #[verifier::loop_isolation(false)]
        while j < n
            invariant
                j <= n,
                rest@ =~= drained_v.skip(j as int),
                out@.len() == base_len + deliveries_len(drained_v.take(j as int), cap),
                deliveries_match(out@, base_len, drained_v.take(j as int), tag_view, channel, cap),
                base_len == 1 ==> is_basic_consume_ok(out@[0], channel, tag_view),
                self.phase == old(self).phase,
                self.frame_max == old(self).frame_max,
            decreases n - j,
        {
            let ghost prerest = rest@;
            let ghost preout = out@;
            let m = rest.remove(0);
            proof {
                assert(m == drained_v.skip(j as int)[0]);
                assert(m == drained_v[j as int]);
                assert(rest@ =~= prerest.skip(1));
                assert(rest@ =~= drained_v.skip(j as int + 1));
            }
            let ghost mv = m;
            let tag_copy = crate::codec::clone_bytes(&deliver_tag);
            self.deliver_frames(&mut out, tag_copy, channel, m.exchange, m.routing_key, m.body);
            proof {
                let at = preout.len() as int;
                assert(delivery_block_at(out@, at, mv, tag_view, channel, cap));
                lemma_match_stable(
                    preout,
                    out@,
                    base_len,
                    drained_v.take(j as int),
                    tag_view,
                    channel,
                    cap,
                );
                lemma_deliveries_match_snoc(
                    out@,
                    base_len,
                    drained_v.take(j as int),
                    mv,
                    tag_view,
                    channel,
                    cap,
                );
                lemma_deliveries_len_snoc(drained_v.take(j as int), mv, cap);
                assert(drained_v.take(j as int + 1) =~= drained_v.take(j as int).push(mv));
                if base_len == 1 {
                    assert(out@[0] == preout[0]);
                }
            }
            j = j + 1;
        }
        proof {
            assert(drained_v.take(n as int) =~= drained_v);
        }
        broker.queues.list.insert(i, q);
        proof {
            assert(broker.queues.list@ =~= pre.update(i as int, broker.queues.list@[i as int]));
            assert forall|k: int|
                0 <= k < broker.queues.list@.len() implies crate::queue::wf_queue(
                #[trigger] broker.queues.list@[k]) by {
                if k != i {
                    assert(broker.queues.list@[k] == pre[k]);
                }
            };
        }
        out
    }

    /// `basic.cancel`: remove the consumer with this tag from every
    /// queue; the reply is `cancel-ok`.
    pub fn basic_cancel(&mut self, broker: &mut Broker, channel: u16, consumer_tag: Vec<u8>) -> (out:
        Frame)
        requires
            wf_queues(old(broker).queues.list@),
        ensures
            wf_queues(final(broker).queues.list@),
            final(broker).exchanges == old(broker).exchanges,
            *final(self) == *old(self),
            crate::frame::is_basic_cancel_ok(out, channel, consumer_tag@),
    {
        let n = broker.queues.list.len();
        let mut i: usize = 0;
        while i < n
            invariant
                i <= n,
                n == broker.queues.list@.len(),
                wf_queues(broker.queues.list@),
                broker.exchanges == old(broker).exchanges,
                *self == *old(self),
            decreases n - i,
        {
            let ghost pre = broker.queues.list@;
            let mut q = broker.queues.list.remove(i);
            q.cancel(consumer_tag.as_slice());
            broker.queues.list.insert(i, q);
            proof {
                assert(broker.queues.list@ =~= pre.update(
                    i as int,
                    broker.queues.list@[i as int],
                ));
                assert forall|k: int|
                    0 <= k < broker.queues.list@.len() implies crate::queue::wf_queue(
                    #[trigger] broker.queues.list@[k]) by {
                    if k != i {
                        assert(broker.queues.list@[k] == pre[k]);
                    }
                };
            }
            i = i + 1;
        }
        crate::frame::basic_cancel_ok(channel, consumer_tag)
    }

    /// A content body frame: only while a publish with a known size is
    /// in flight, and never beyond the announced size. When the last
    /// byte arrives the assembled message goes to its exchange, which
    /// fans it out to the matching queues; the returned frames are the
    /// deliveries this produces.
    pub fn receive_content_body(&mut self, broker: &mut Broker, channel: u16, payload: Vec<u8>)
        -> (out: Vec<Frame>)
        requires
            wf_queues(old(broker).queues.list@),
        ensures
            wf_queues(final(broker).queues.list@),
            final(self).phase == old(self).phase,
            final(broker).exchanges == old(broker).exchanges,
            ({
                let idx = flight_idx(old(self).in_flight@, channel);
                if idx < 0 {
                    &&& out@.len() == 1
                    &&& is_channel_close_code(out@[0], channel, 505, crate::frame::BASIC_PUBLISH)
                    &&& final(self).in_flight@ == old(self).in_flight@
                    &&& final(broker).queues.list@ == old(broker).queues.list@
                } else if old(self).in_flight@[idx].expected is None {
                    &&& out@.len() == 1
                    &&& is_channel_close_code(out@[0], channel, 505, crate::frame::BASIC_PUBLISH)
                    &&& final(self).in_flight@ == old(self).in_flight@.remove(idx)
                    &&& final(broker).queues.list@ == old(broker).queues.list@
                } else if old(self).in_flight@[idx].received@.len() + payload@.len() > old(self).in_flight@[idx].expected->0 {
                    &&& out@.len() == 1
                    &&& is_channel_close_code(out@[0], channel, 505, crate::frame::BASIC_PUBLISH)
                    &&& final(self).in_flight@ == old(self).in_flight@.remove(idx)
                    &&& final(broker).queues.list@ == old(broker).queues.list@
                } else if old(self).in_flight@[idx].received@.len() + payload@.len() < old(self).in_flight@[idx].expected->0 {
                    &&& out@.len() == 0
                    &&& final(self).in_flight@.len() == old(self).in_flight@.len()
                    &&& final(self).in_flight@[idx].received@ == old(self).in_flight@[idx].received@ + payload@
                    &&& final(self).in_flight@[idx].expected == old(self).in_flight@[idx].expected
                    &&& final(self).in_flight@[idx].channel == channel
                    &&& final(broker).queues.list@ == old(broker).queues.list@
                } else {
                    final(self).in_flight@ == old(self).in_flight@.remove(idx)
                }
            }),
    {
        let i = match self.lookup_flight(channel) {
            Some(i) => i,
            None => {
                let mut out: Vec<Frame> = Vec::new();
                out.push(
                    channel_error(
                        channel,
                        505,
                        text_bytes("Unexpected content body"),
                        crate::frame::BASIC_PUBLISH,
                    ),
                );
                return out;
            },
        };
        let expected = match &self.in_flight[i].expected {
            Some(e) => *e,
            None => {
                self.in_flight.remove(i);
                let mut out: Vec<Frame> = Vec::new();
                out.push(
                    channel_error(
                        channel,
                        505,
                        text_bytes("Content body before its header"),
                        crate::frame::BASIC_PUBLISH,
                    ),
                );
                return out;
            },
        };
        let mut fl = self.in_flight.remove(i);
        if fl.received.len() as u64 > expected || payload.len() as u64 > expected - (
        fl.received.len() as u64) {
            let mut out: Vec<Frame> = Vec::new();
            out.push(
                channel_error(
                    channel,
                    505,
                    text_bytes("Content body longer than announced"),
                    crate::frame::BASIC_PUBLISH,
                ),
            );
            return out;
        }
        let ghost oldrecv = fl.received@;
        let ghost pv = payload@;
        let mut received = fl.received;
        let mut chunk = payload;
        received.append(&mut chunk);
        fl.received = received;
        if (fl.received.len() as u64) < expected {
            let ghost flv = fl;
            self.in_flight.insert(i, fl);
            proof {
                assert(self.in_flight@[i as int] == flv);
                assert(self.in_flight@[i as int].received@ == oldrecv + pv);
            }
            return Vec::new();
        }
        // The whole body is here: hand the message to the exchange.
        let PublishedContent { exchange, routing_key, received, headers, .. } = fl;
        let mut out: Vec<Frame> = Vec::new();
        let ei = match broker.exchanges.lookup(exchange.as_slice()) {
            Some(ei) => ei,
            None => { return out },
        };
        let targets = route_queues(&broker.exchanges.list[ei], &routing_key, &headers);
        let tn = targets.len();
        let mut t: usize = 0;
        while t < tn
            invariant
                t <= tn,
                tn == targets@.len(),
                wf_queues(broker.queues.list@),
                broker.exchanges == old(broker).exchanges,
                self.phase == old(self).phase,
                self.in_flight@ == old(self).in_flight@.remove(i as int),
                i == flight_idx(old(self).in_flight@, channel),
            decreases tn - t,
        {
            let qname = &targets[t];
            match broker.queues.lookup(qname.as_slice()) {
                Some(qi) => {
                    let ghost pre = broker.queues.list@;
                    let mut q = broker.queues.list.remove(qi);
                    let msg = crate::queue::QueuedMessage {
                        exchange: crate::codec::clone_bytes(&exchange),
                        routing_key: crate::codec::clone_bytes(&routing_key),
                        body: crate::codec::clone_bytes(&received),
                    };
                    let handed = q.enqueue(msg);
                    broker.queues.list.insert(qi, q);
                    proof {
                        assert(broker.queues.list@ =~= pre.update(
                            qi as int,
                            broker.queues.list@[qi as int],
                        ));
                        assert forall|k: int|
                            0 <= k < broker.queues.list@.len() implies crate::queue::wf_queue(
                            #[trigger] broker.queues.list@[k]) by {
                            if k != qi {
                                assert(broker.queues.list@[k] == pre[k]);
                            }
                        };
                    }
                    match handed {
                        Some((tag, ch)) => {
                            self.deliver_frames(
                                &mut out,
                                tag,
                                ch,
                                crate::codec::clone_bytes(&exchange),
                                crate::codec::clone_bytes(&routing_key),
                                crate::codec::clone_bytes(&received),
                            );
                        },
                        None => {},
                    }
                },
                None => {},
            }
            t = t + 1;
        }
        out
    }
}

// ---------------------------------------------------------------------
// Argument readers for decoded method frames.
// ---------------------------------------------------------------------

/// Take the leading short string off an argument list.
fn take_ss(args: &mut Vec<FieldValue>) -> (r: Option<Vec<u8>>)
    ensures
        match r {
            Some(v) => old(args)@.len() > 0 && old(args)@[0] is SimpleString && v@ == old(
                args,
            )@[0]->SimpleString_0@ && final(args)@ == old(args)@.skip(1),
            None => old(args)@.len() == 0 || !(old(args)@[0] is SimpleString),
        },
{
    if args.len() == 0 {
        return None;
    }
    match args.remove(0) {
        FieldValue::SimpleString(v) => Some(v),
        _ => None,
    }
}

/// Take the leading boolean off an argument list.
fn take_bool(args: &mut Vec<FieldValue>) -> (r: Option<bool>)
    ensures
        match r {
            Some(b) => old(args)@.len() > 0 && old(args)@[0] == FieldValue::Bool(b) && final(args)@ == old(args)@.skip(1),
            None => true,
        },
{
    if args.len() == 0 {
        return None;
    }
    match args.remove(0) {
        FieldValue::Bool(b) => Some(b),
        _ => None,
    }
}

/// Take the leading 16-bit integer off an argument list.
fn take_u16(args: &mut Vec<FieldValue>) -> (r: Option<u16>)
    ensures
        match r {
            Some(x) => old(args)@.len() > 0 && old(args)@[0] == FieldValue::U16(x) && final(args)@ == old(args)@.skip(1),
            None => true,
        },
{
    if args.len() == 0 {
        return None;
    }
    match args.remove(0) {
        FieldValue::U16(x) => Some(x),
        _ => None,
    }
}

/// Take the leading field table off an argument list.
fn take_table(args: &mut Vec<FieldValue>) -> (r: Option<Vec<TableEntry>>)
    ensures
        match r {
            Some(_) => old(args)@.len() > 0 && old(args)@[0] is Table && final(args)@ == old(
                args,
            )@.skip(1),
            None => true,
        },
{
    if args.len() == 0 {
        return None;
    }
    match args.remove(0) {
        FieldValue::Table(t) => Some(t),
        _ => None,
    }
}

impl ConnectionState {
    /// Feed one decoded frame through the connection state machine;
    /// the returned frames go back to the peer in order. The handshake
    /// follows the phase diagram; in the open phase, methods dispatch
    /// to the broker operations, whose own contracts pin each reply.
    pub fn dispatch_frame(&mut self, broker: &mut Broker, f: Frame) -> (out: Vec<Frame>)
        requires
            wf_queues(old(broker).queues.list@),
        ensures
            wf_queues(final(broker).queues.list@),
            old(self).phase == Phase::AwaitHeader ==> ({
                if f is Header {
                    &&& final(self).phase == Phase::SendStart
                    &&& out@.len() == 1
                    &&& crate::frame::is_method(out@[0], 0, crate::frame::CONNECTION_START)
                } else {
                    &&& final(self).phase == Phase::Closed
                    &&& out@.len() == 0
                }
            }),
            old(self).phase == Phase::SendStart && crate::frame::is_method(
                f,
                0,
                crate::frame::CONNECTION_START_OK,
            ) ==> final(self).phase == Phase::SendTune && out@.len() == 1
                && crate::frame::is_method(out@[0], 0, crate::frame::CONNECTION_TUNE),
            old(self).phase == Phase::SendTune && crate::frame::is_method(
                f,
                0,
                crate::frame::CONNECTION_TUNE_OK,
            ) ==> final(self).phase == Phase::AwaitOpen && out@.len() == 0,
            old(self).phase == Phase::AwaitOpen && crate::frame::is_method(
                f,
                0,
                crate::frame::CONNECTION_OPEN,
            ) && f->Method_2@.len() > 0 && f->Method_2@[0] is SimpleString ==> ({
                if f->Method_2@[0]->SimpleString_0@ == seq![47u8] {
                    &&& final(self).phase == Phase::Open
                    &&& out@.len() == 1
                    &&& is_connection_open_ok(out@[0], 0)
                } else {
                    &&& final(self).phase == Phase::Closing
                    &&& out@.len() == 1
                    &&& is_connection_close_code(out@[0], 530, crate::frame::CONNECTION_OPEN)
                }
            }),
            old(self).phase == Phase::Open && crate::frame::is_method(
                f,
                0,
                crate::frame::CONNECTION_CLOSE,
            ) ==> final(self).phase == Phase::Closed && out@.len() == 1 && is_connection_close_ok(
                out@[0],
                0,
            ),
            old(self).phase == Phase::Closing && crate::frame::is_method(
                f,
                0,
                crate::frame::CONNECTION_CLOSE_OK,
            ) ==> final(self).phase == Phase::Closed && out@.len() == 0,
    {
        let mut out: Vec<Frame> = Vec::new();
        if self.phase == Phase::AwaitHeader {
            match f {
                Frame::Header => {
                    self.phase = Phase::SendStart;
                    out.push(crate::frame::connection_start(0));
                },
                _ => {
                    self.phase = Phase::Closed;
                },
            }
            return out;
        }
        if self.phase == Phase::SendStart {
            let ok = match &f {
                Frame::Method(ch, cm, _) => *ch == 0 && *cm == crate::frame::CONNECTION_START_OK,
                _ => false,
            };
            if ok {
                self.phase = Phase::SendTune;
                out.push(crate::frame::connection_tune(0, 2047, self.frame_max, 60));
            } else {
                self.phase = Phase::Closing;
                out.push(
                    connection_error(530, text_bytes("Expected connection.start-ok"), 0),
                );
            }
            return out;
        }
        if self.phase == Phase::SendTune {
            let ok = match &f {
                Frame::Method(ch, cm, _) => *ch == 0 && *cm == crate::frame::CONNECTION_TUNE_OK,
                _ => false,
            };
            if ok {
                match &f {
                    Frame::Method(_, _, args) => {
                        if args.len() == 3 {
                            match &args[1] {
                                FieldValue::U32(fm) => {
                                    if *fm > 0 {
                                        self.frame_max = *fm;
                                    }
                                },
                                _ => {},
                            }
                        }
                    },
                    _ => {},
                }
                self.phase = Phase::AwaitOpen;
            } else {
                self.phase = Phase::Closing;
                out.push(connection_error(530, text_bytes("Expected connection.tune-ok"), 0));
            }
            return out;
        }
        if self.phase == Phase::AwaitOpen {
            match f {
                Frame::Method(ch, cm, mut args) => {
                    if ch == 0 && cm == crate::frame::CONNECTION_OPEN {
                        match take_ss(&mut args) {
                            Some(vh) => {
                                let reply = self.connection_open(0, &vh);
                                let mut root: Vec<u8> = Vec::new();
                                root.push(47);
                                assert(root@ =~= seq![47u8]);
                                if bytes_eq(vh.as_slice(), root.as_slice()) {
                                    self.phase = Phase::Open;
                                } else {
                                    self.phase = Phase::Closing;
                                }
                                out.push(reply);
                            },
                            None => {
                                self.phase = Phase::Closing;
                                out.push(
                                    connection_error(
                                        530,
                                        text_bytes("Malformed connection.open"),
                                        cm,
                                    ),
                                );
                            },
                        }
                    } else {
                        self.phase = Phase::Closing;
                        out.push(
                            connection_error(530, text_bytes("Expected connection.open"), cm),
                        );
                    }
                },
                _ => {
                    self.phase = Phase::Closing;
                    out.push(connection_error(530, text_bytes("Expected connection.open"), 0));
                },
            }
            return out;
        }
        if self.phase == Phase::Open {
            return self.dispatch_open(broker, f);
        }
        if self.phase == Phase::Closing {
            let ok = match &f {
                Frame::Method(ch, cm, _) => *ch == 0 && *cm == crate::frame::CONNECTION_CLOSE_OK,
                _ => false,
            };
            if ok {
                self.phase = Phase::Closed;
            }
            return out;
        }
        out
    }

    /// Dispatch one frame while the connection is open.
    fn dispatch_open(&mut self, broker: &mut Broker, f: Frame) -> (out: Vec<Frame>)
        requires
            old(self).phase == Phase::Open,
            wf_queues(old(broker).queues.list@),
        ensures
            wf_queues(final(broker).queues.list@),
            crate::frame::is_method(f, 0, crate::frame::CONNECTION_CLOSE) ==> final(self).phase
                == Phase::Closed && out@.len() == 1 && is_connection_close_ok(out@[0], 0),
    {
        let mut out: Vec<Frame> = Vec::new();
        match f {
            Frame::Heartbeat(_) => out,
            Frame::Header => {
                self.phase = Phase::Closing;
                out.push(connection_error(501, text_bytes("Unexpected protocol header"), 0));
                out
            },
            Frame::ContentHeader(h) => {
                match self.receive_content_header(h) {
                    Some(e) => {
                        out.push(e);
                    },
                    None => {},
                }
                out
            },
            Frame::ContentBody(ch, b) => self.receive_content_body(broker, ch, b),
            Frame::Method(ch, cm, args) => self.dispatch_method(broker, ch, cm, args),
        }
    }

    /// Dispatch one method frame while the connection is open.
    fn dispatch_method(
        &mut self,
        broker: &mut Broker,
        ch: u16,
        cm: u32,
        args: Vec<FieldValue>,
    ) -> (out: Vec<Frame>)
        requires
            old(self).phase == Phase::Open,
            wf_queues(old(broker).queues.list@),
        ensures
            wf_queues(final(broker).queues.list@),
            ch == 0 && cm == crate::frame::CONNECTION_CLOSE ==> final(self).phase == Phase::Closed
                && out@.len() == 1 && is_connection_close_ok(out@[0], 0),
    {
        let mut out: Vec<Frame> = Vec::new();
        let mut args = args;
        if ch == 0 {
            if cm == crate::frame::CONNECTION_CLOSE {
                self.phase = Phase::Closed;
                out.push(self.connection_close());
                return out;
            }
            let (cid, _) = crate::frame::split_class_method(cm);
            if cid != 10 {
                out.push(
                    connection_error(504, text_bytes("Channel 0 is for connection methods"), cm),
                );
                return out;
            }
            return out;
        }
        // A data channel. While a publish is assembling its content,
        // only content frames may arrive on this channel.
        if self.lookup_flight(ch).is_some() {
            match self.lookup_flight(ch) {
                Some(i) => {
                    self.in_flight.remove(i);
                },
                None => {},
            }
            out.push(channel_error(ch, 505, text_bytes("Expected content frames"), cm));
            return out;
        }
        if cm == crate::frame::CHANNEL_OPEN {
            out.push(self.channel_open(ch));
            return out;
        }
        if self.lookup_channel(ch).is_none() {
            out.push(connection_error(504, text_bytes("Channel is not open"), cm));
            return out;
        }
        if cm == crate::frame::CHANNEL_CLOSE {
            out.push(self.channel_close(ch));
            return out;
        }
        if cm == crate::frame::CHANNEL_CLOSE_OK {
            return out;
        }
        if cm == crate::frame::EXCHANGE_DECLARE {
            let _ = take_u16(&mut args);
            let name = take_ss(&mut args);
            let tname = take_ss(&mut args);
            let passive = take_bool(&mut args);
            let durable = take_bool(&mut args);
            let auto_delete = take_bool(&mut args);
            let internal = take_bool(&mut args);
            let no_wait = take_bool(&mut args);
            match (name, tname, passive, durable, auto_delete, internal, no_wait) {
                (
                    Some(name),
                    Some(tname),
                    Some(passive),
                    Some(durable),
                    Some(auto_delete),
                    Some(internal),
                    Some(no_wait),
                ) => {
                    match parse_exchange_type(tname.as_slice()) {
                        Some(etype) => {
                            match self.exchange_declare(
                                broker,
                                ch,
                                name,
                                etype,
                                passive,
                                durable,
                                auto_delete,
                                internal,
                                no_wait,
                            ) {
                                Some(reply) => {
                                    out.push(reply);
                                },
                                None => {},
                            }
                        },
                        None => {
                            out.push(
                                channel_error(
                                    ch,
                                    406,
                                    text_bytes("Unknown exchange type"),
                                    cm,
                                ),
                            );
                        },
                    }
                },
                _ => {
                    out.push(
                        connection_error(502, text_bytes("Malformed exchange.declare"), cm),
                    );
                },
            }
            return out;
        }
        if cm == crate::frame::QUEUE_DECLARE {
            let _ = take_u16(&mut args);
            let name = take_ss(&mut args);
            let _passive = take_bool(&mut args);
            let durable = take_bool(&mut args);
            let exclusive = take_bool(&mut args);
            let auto_delete = take_bool(&mut args);
            let no_wait = take_bool(&mut args);
            match (name, durable, exclusive, auto_delete, no_wait) {
                (Some(name), Some(durable), Some(exclusive), Some(auto_delete), Some(no_wait)) => {
                    match self.queue_declare(
                        broker,
                        ch,
                        name,
                        durable,
                        exclusive,
                        auto_delete,
                        no_wait,
                    ) {
                        Some(reply) => {
                            out.push(reply);
                        },
                        None => {},
                    }
                },
                _ => {
                    out.push(connection_error(502, text_bytes("Malformed queue.declare"), cm));
                },
            }
            return out;
        }
        if cm == crate::frame::QUEUE_BIND {
            let _ = take_u16(&mut args);
            let qname = take_ss(&mut args);
            let ename = take_ss(&mut args);
            let key = take_ss(&mut args);
            let _no_wait = take_bool(&mut args);
            let table = take_table(&mut args);
            match (qname, ename, key) {
                (Some(qname), Some(ename), Some(key)) => {
                    let arguments = match table {
                        Some(t) => t,
                        None => Vec::new(),
                    };
                    out.push(self.queue_bind(broker, ch, qname, ename, key, arguments));
                },
                _ => {
                    out.push(connection_error(502, text_bytes("Malformed queue.bind"), cm));
                },
            }
            return out;
        }
        if cm == crate::frame::BASIC_PUBLISH {
            let _ = take_u16(&mut args);
            let ename = take_ss(&mut args);
            let key = take_ss(&mut args);
            match (ename, key) {
                (Some(ename), Some(key)) => {
                    match self.basic_publish(broker, ch, ename, key) {
                        Some(reply) => {
                            out.push(reply);
                        },
                        None => {},
                    }
                },
                _ => {
                    out.push(connection_error(502, text_bytes("Malformed basic.publish"), cm));
                },
            }
            return out;
        }
        if cm == crate::frame::BASIC_CONSUME {
            let _ = take_u16(&mut args);
            let qname = take_ss(&mut args);
            let tag = take_ss(&mut args);
            let _no_local = take_bool(&mut args);
            let _no_ack = take_bool(&mut args);
            let _exclusive = take_bool(&mut args);
            let no_wait = take_bool(&mut args);
            match (qname, tag, no_wait) {
                (Some(qname), Some(tag), Some(no_wait)) => {
                    let frames = self.basic_consume(broker, ch, qname, tag, no_wait);
                    return frames;
                },
                _ => {
                    out.push(connection_error(502, text_bytes("Malformed basic.consume"), cm));
                },
            }
            return out;
        }
        if cm == crate::frame::BASIC_CANCEL {
            let tag = take_ss(&mut args);
            let _no_wait = take_bool(&mut args);
            match tag {
                Some(tag) => {
                    out.push(self.basic_cancel(broker, ch, tag));
                },
                _ => {
                    out.push(connection_error(502, text_bytes("Malformed basic.cancel"), cm));
                },
            }
            return out;
        }
        out.push(channel_error(ch, 540, text_bytes("Not implemented"), cm));
        out
    }
}

} // verus!

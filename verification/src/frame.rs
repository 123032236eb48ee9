//! AMQP frame values and the method catalogue.
//!
//! A frame is the unit of transmission: the protocol header, a method
//! frame (channel, class-method id, argument list), a content header, a
//! content body, or a heartbeat. The spec functions here name the frame
//! each protocol operation produces, so that contracts elsewhere can pin
//! replies down to the exact frame value.

use vstd::prelude::*;
use crate::value::FieldValue;
use crate::value::TableEntry;
use crate::value::wf_field_value;

verus! {

/// Class-method identifiers: `class << 16 | method`.
pub const CONNECTION_START: u32 = 0x000A000A;

pub const CONNECTION_START_OK: u32 = 0x000A000B;

pub const CONNECTION_TUNE: u32 = 0x000A001E;

pub const CONNECTION_TUNE_OK: u32 = 0x000A001F;

pub const CONNECTION_OPEN: u32 = 0x000A0028;

pub const CONNECTION_OPEN_OK: u32 = 0x000A0029;

pub const CONNECTION_CLOSE: u32 = 0x000A0032;

pub const CONNECTION_CLOSE_OK: u32 = 0x000A0033;

pub const CHANNEL_OPEN: u32 = 0x0014000A;

pub const CHANNEL_OPEN_OK: u32 = 0x0014000B;

pub const CHANNEL_CLOSE: u32 = 0x00140028;

pub const CHANNEL_CLOSE_OK: u32 = 0x00140029;

pub const EXCHANGE_DECLARE: u32 = 0x0028000A;

pub const EXCHANGE_DECLARE_OK: u32 = 0x0028000B;

pub const QUEUE_DECLARE: u32 = 0x0032000A;

pub const QUEUE_DECLARE_OK: u32 = 0x0032000B;

pub const QUEUE_BIND: u32 = 0x00320014;

pub const QUEUE_BIND_OK: u32 = 0x00320015;

pub const BASIC_CONSUME: u32 = 0x003C0014;

pub const BASIC_CONSUME_OK: u32 = 0x003C0015;

pub const BASIC_CANCEL: u32 = 0x003C001E;

pub const BASIC_CANCEL_OK: u32 = 0x003C001F;

pub const BASIC_PUBLISH: u32 = 0x003C0028;

pub const BASIC_DELIVER: u32 = 0x003C003C;

/// Wire error codes of the profile.
pub const REPLY_SUCCESS: u16 = 200;

pub const NOT_FOUND: u16 = 404;

pub const PRECONDITION_FAILED: u16 = 406;

pub const CHANNEL_ERROR: u16 = 504;

pub const UNEXPECTED_FRAME: u16 = 505;

pub const NOT_ALLOWED: u16 = 530;

pub const NOT_IMPLEMENTED: u16 = 540;

/// The properties a content header may carry; a property is on the wire
/// exactly when it is present here, and the flag bitmap says which.
pub struct Properties {
    pub content_type: Option<Vec<u8>>,
    pub content_encoding: Option<Vec<u8>>,
    pub headers: Option<Vec<TableEntry>>,
    pub delivery_mode: Option<u8>,
    pub priority: Option<u8>,
    pub correlation_id: Option<Vec<u8>>,
    pub reply_to: Option<Vec<u8>>,
    pub expiration: Option<Vec<u8>>,
    pub message_id: Option<Vec<u8>>,
    pub timestamp: Option<u64>,
    pub message_type: Option<Vec<u8>>,
    pub user_id: Option<Vec<u8>>,
    pub app_id: Option<Vec<u8>>,
    pub cluster_id: Option<Vec<u8>>,
}

/// A content header frame: channel, class id, weight (always zero on
/// the wire), the size of the whole message body, and the properties.
pub struct ContentHeader {
    pub channel: u16,
    pub class_id: u16,
    pub weight: u16,
    pub body_size: u64,
    pub prop_flags: u16,
    pub properties: Properties,
}

/// One AMQP frame.
pub enum Frame {
    /// The 8-byte protocol header `AMQP\x00\x00\x09\x01`.
    Header,
    /// A method frame: channel, class-method id, argument list.
    Method(u16, u32, Vec<FieldValue>),
    /// A content header frame.
    ContentHeader(ContentHeader),
    /// A content body frame: channel and raw payload.
    ContentBody(u16, Vec<u8>),
    /// A heartbeat frame.
    Heartbeat(u16),
}

/// The class id half of a class-method identifier.
pub open spec fn spec_class_of(cm: u32) -> u16 {
    (cm / 0x10000) as u16
}

/// The method id half of a class-method identifier.
pub open spec fn spec_method_of(cm: u32) -> u16 {
    (cm % 0x10000) as u16
}

/// Split a class-method identifier into its class and method halves.
pub fn split_class_method(cm: u32) -> (r: (u16, u16))
    ensures
        r.0 == spec_class_of(cm),
        r.1 == spec_method_of(cm),
{
    ((cm / 0x10000) as u16, (cm % 0x10000) as u16)
}

/// Compose a class-method identifier from its halves.
pub fn join_class_method(class_id: u16, method_id: u16) -> (r: u32)
    ensures
        spec_class_of(r) == class_id,
        spec_method_of(r) == method_id,
{
    let r: u32 = (class_id as u32) * 0x10000 + (method_id as u32);
    assert(r / 0x10000 == class_id && r % 0x10000 == method_id) by (nonlinear_arith)
        requires
            r == (class_id as u32) * 0x10000 + (method_id as u32),
            class_id <= 0xffff,
            method_id <= 0xffff,
    ;
    r
}

// ---------------------------------------------------------------------
// The frames the broker and the client emit, stated as predicates so
// that contracts can pin a reply down to the exact frame value.
// ---------------------------------------------------------------------

/// A method frame with the given channel and class-method id.
pub open spec fn is_method(f: Frame, channel: u16, cm: u32) -> bool {
    &&& f is Method
    &&& f->Method_0 == channel
    &&& f->Method_1 == cm
}

/// A method frame whose argument list is empty.
pub open spec fn is_plain_method(f: Frame, channel: u16, cm: u32) -> bool {
    &&& is_method(f, channel, cm)
    &&& f->Method_2@.len() == 0
}

/// The argument list of a `connection.close` or `channel.close` method:
/// reply code, reply text, and the class and method of the method that
/// caused the close.
pub open spec fn is_close_args(args: Seq<FieldValue>, code: u16, text: Seq<u8>, cm: u32) -> bool {
    &&& args.len() == 4
    &&& args[0] == FieldValue::U16(code)
    &&& args[1] is SimpleString
    &&& args[1]->SimpleString_0@ == text
    &&& args[2] == FieldValue::U16(spec_class_of(cm))
    &&& args[3] == FieldValue::U16(spec_method_of(cm))
}

pub open spec fn is_connection_close(
    f: Frame,
    channel: u16,
    code: u16,
    text: Seq<u8>,
    cm: u32,
) -> bool {
    &&& is_method(f, channel, CONNECTION_CLOSE)
    &&& is_close_args(f->Method_2@, code, text, cm)
}

pub open spec fn is_channel_close(
    f: Frame,
    channel: u16,
    code: u16,
    text: Seq<u8>,
    cm: u32,
) -> bool {
    &&& is_method(f, channel, CHANNEL_CLOSE)
    &&& is_close_args(f->Method_2@, code, text, cm)
}

/// A close frame checked by code and failing method alone; the reply
/// text is free.
pub open spec fn is_close_args_code(args: Seq<FieldValue>, code: u16, cm: u32) -> bool {
    &&& args.len() == 4
    &&& args[0] == FieldValue::U16(code)
    &&& args[1] is SimpleString
    &&& args[2] == FieldValue::U16(spec_class_of(cm))
    &&& args[3] == FieldValue::U16(spec_method_of(cm))
}

pub open spec fn is_connection_close_code(f: Frame, code: u16, cm: u32) -> bool {
    &&& is_method(f, 0, CONNECTION_CLOSE)
    &&& is_close_args_code(f->Method_2@, code, cm)
}

pub open spec fn is_channel_close_code(f: Frame, channel: u16, code: u16, cm: u32) -> bool {
    &&& is_method(f, channel, CHANNEL_CLOSE)
    &&& is_close_args_code(f->Method_2@, code, cm)
}

pub open spec fn is_connection_open_ok(f: Frame, channel: u16) -> bool {
    &&& is_method(f, channel, CONNECTION_OPEN_OK)
    &&& f->Method_2@.len() == 1
    &&& f->Method_2@[0] is SimpleString
    &&& f->Method_2@[0]->SimpleString_0@.len() == 0
}

pub open spec fn is_connection_close_ok(f: Frame, channel: u16) -> bool {
    is_plain_method(f, channel, CONNECTION_CLOSE_OK)
}

pub open spec fn is_channel_open_ok(f: Frame, channel: u16) -> bool {
    &&& is_method(f, channel, CHANNEL_OPEN_OK)
    &&& f->Method_2@.len() == 1
    &&& f->Method_2@[0] is LongString
    &&& f->Method_2@[0]->LongString_0@.len() == 0
}

pub open spec fn is_channel_close_ok(f: Frame, channel: u16) -> bool {
    is_plain_method(f, channel, CHANNEL_CLOSE_OK)
}

pub open spec fn is_exchange_declare_ok(f: Frame, channel: u16) -> bool {
    is_plain_method(f, channel, EXCHANGE_DECLARE_OK)
}

pub open spec fn is_queue_declare_ok(
    f: Frame,
    channel: u16,
    name: Seq<u8>,
    message_count: u32,
    consumer_count: u32,
) -> bool {
    &&& is_method(f, channel, QUEUE_DECLARE_OK)
    &&& f->Method_2@.len() == 3
    &&& f->Method_2@[0] is SimpleString
    &&& f->Method_2@[0]->SimpleString_0@ == name
    &&& f->Method_2@[1] == FieldValue::U32(message_count)
    &&& f->Method_2@[2] == FieldValue::U32(consumer_count)
}

pub open spec fn is_queue_bind_ok(f: Frame, channel: u16) -> bool {
    is_plain_method(f, channel, QUEUE_BIND_OK)
}

pub open spec fn is_basic_consume_ok(f: Frame, channel: u16, consumer_tag: Seq<u8>) -> bool {
    &&& is_method(f, channel, BASIC_CONSUME_OK)
    &&& f->Method_2@.len() == 1
    &&& f->Method_2@[0] is SimpleString
    &&& f->Method_2@[0]->SimpleString_0@ == consumer_tag
}

pub open spec fn is_basic_cancel_ok(f: Frame, channel: u16, consumer_tag: Seq<u8>) -> bool {
    &&& is_method(f, channel, BASIC_CANCEL_OK)
    &&& f->Method_2@.len() == 1
    &&& f->Method_2@[0] is SimpleString
    &&& f->Method_2@[0]->SimpleString_0@ == consumer_tag
}

pub open spec fn is_basic_deliver(
    f: Frame,
    channel: u16,
    consumer_tag: Seq<u8>,
    delivery_tag: u64,
    redelivered: bool,
    exchange: Seq<u8>,
    routing_key: Seq<u8>,
) -> bool {
    &&& is_method(f, channel, BASIC_DELIVER)
    &&& f->Method_2@.len() == 5
    &&& f->Method_2@[0] is SimpleString
    &&& f->Method_2@[0]->SimpleString_0@ == consumer_tag
    &&& f->Method_2@[1] == FieldValue::U64(delivery_tag)
    &&& f->Method_2@[2] == FieldValue::Bool(redelivered)
    &&& f->Method_2@[3] is SimpleString
    &&& f->Method_2@[3]->SimpleString_0@ == exchange
    &&& f->Method_2@[4] is SimpleString
    &&& f->Method_2@[4]->SimpleString_0@ == routing_key
}

// ---------------------------------------------------------------------
// Exec builders for the same frames.
// ---------------------------------------------------------------------

pub fn connection_close(channel: u16, code: u16, text: Vec<u8>, cm: u32) -> (f: Frame)
    ensures
        is_connection_close(f, channel, code, text@, cm),
{
    let (cid, mid) = split_class_method(cm);
    let mut args: Vec<FieldValue> = Vec::new();
    args.push(FieldValue::U16(code));
    args.push(FieldValue::SimpleString(text));
    args.push(FieldValue::U16(cid));
    args.push(FieldValue::U16(mid));
    Frame::Method(channel, CONNECTION_CLOSE, args)
}

pub fn channel_close(channel: u16, code: u16, text: Vec<u8>, cm: u32) -> (f: Frame)
    ensures
        is_channel_close(f, channel, code, text@, cm),
{
    let (cid, mid) = split_class_method(cm);
    let mut args: Vec<FieldValue> = Vec::new();
    args.push(FieldValue::U16(code));
    args.push(FieldValue::SimpleString(text));
    args.push(FieldValue::U16(cid));
    args.push(FieldValue::U16(mid));
    Frame::Method(channel, CHANNEL_CLOSE, args)
}

pub fn connection_open_ok(channel: u16) -> (f: Frame)
    ensures
        is_connection_open_ok(f, channel),
{
    let mut args: Vec<FieldValue> = Vec::new();
    args.push(FieldValue::SimpleString(Vec::new()));
    Frame::Method(channel, CONNECTION_OPEN_OK, args)
}

pub fn connection_close_ok(channel: u16) -> (f: Frame)
    ensures
        is_connection_close_ok(f, channel),
{
    let args: Vec<FieldValue> = Vec::new();
    Frame::Method(channel, CONNECTION_CLOSE_OK, args)
}

pub fn channel_open_ok(channel: u16) -> (f: Frame)
    ensures
        is_channel_open_ok(f, channel),
{
    let mut args: Vec<FieldValue> = Vec::new();
    args.push(FieldValue::LongString(Vec::new()));
    Frame::Method(channel, CHANNEL_OPEN_OK, args)
}

pub fn channel_close_ok(channel: u16) -> (f: Frame)
    ensures
        is_channel_close_ok(f, channel),
{
    let args: Vec<FieldValue> = Vec::new();
    Frame::Method(channel, CHANNEL_CLOSE_OK, args)
}

pub fn exchange_declare_ok(channel: u16) -> (f: Frame)
    ensures
        is_exchange_declare_ok(f, channel),
{
    let args: Vec<FieldValue> = Vec::new();
    Frame::Method(channel, EXCHANGE_DECLARE_OK, args)
}

pub fn queue_declare_ok(channel: u16, name: Vec<u8>, message_count: u32, consumer_count: u32) -> (f:
    Frame)
    ensures
        is_queue_declare_ok(f, channel, name@, message_count, consumer_count),
{
    let mut args: Vec<FieldValue> = Vec::new();
    args.push(FieldValue::SimpleString(name));
    args.push(FieldValue::U32(message_count));
    args.push(FieldValue::U32(consumer_count));
    Frame::Method(channel, QUEUE_DECLARE_OK, args)
}

pub fn queue_bind_ok(channel: u16) -> (f: Frame)
    ensures
        is_queue_bind_ok(f, channel),
{
    let args: Vec<FieldValue> = Vec::new();
    Frame::Method(channel, QUEUE_BIND_OK, args)
}

pub fn basic_consume_ok(channel: u16, consumer_tag: Vec<u8>) -> (f: Frame)
    ensures
        is_basic_consume_ok(f, channel, consumer_tag@),
{
    let mut args: Vec<FieldValue> = Vec::new();
    args.push(FieldValue::SimpleString(consumer_tag));
    Frame::Method(channel, BASIC_CONSUME_OK, args)
}

pub fn basic_cancel_ok(channel: u16, consumer_tag: Vec<u8>) -> (f: Frame)
    ensures
        is_basic_cancel_ok(f, channel, consumer_tag@),
{
    let mut args: Vec<FieldValue> = Vec::new();
    args.push(FieldValue::SimpleString(consumer_tag));
    Frame::Method(channel, BASIC_CANCEL_OK, args)
}

pub fn basic_deliver(
    channel: u16,
    consumer_tag: Vec<u8>,
    delivery_tag: u64,
    redelivered: bool,
    exchange: Vec<u8>,
    routing_key: Vec<u8>,
) -> (f: Frame)
    ensures
        is_basic_deliver(
            f,
            channel,
            consumer_tag@,
            delivery_tag,
            redelivered,
            exchange@,
            routing_key@,
        ),
{
    let mut args: Vec<FieldValue> = Vec::new();
    args.push(FieldValue::SimpleString(consumer_tag));
    args.push(FieldValue::U64(delivery_tag));
    args.push(FieldValue::Bool(redelivered));
    args.push(FieldValue::SimpleString(exchange));
    args.push(FieldValue::SimpleString(routing_key));
    Frame::Method(channel, BASIC_DELIVER, args)
}

/// A content header with no properties set, as the broker emits on
/// delivery.
pub open spec fn is_plain_header(h: ContentHeader, channel: u16, class_id: u16, body_size: u64) -> bool {
    &&& h.channel == channel
    &&& h.class_id == class_id
    &&& h.weight == 0
    &&& h.body_size == body_size
    &&& h.prop_flags == 0
    &&& h.properties.content_type is None
    &&& h.properties.content_encoding is None
    &&& h.properties.headers is None
    &&& h.properties.delivery_mode is None
    &&& h.properties.priority is None
    &&& h.properties.correlation_id is None
    &&& h.properties.reply_to is None
    &&& h.properties.expiration is None
    &&& h.properties.message_id is None
    &&& h.properties.timestamp is None
    &&& h.properties.message_type is None
    &&& h.properties.user_id is None
    &&& h.properties.app_id is None
    &&& h.properties.cluster_id is None
}

/// A content header frame with no properties, as deliveries carry.
pub fn plain_header(channel: u16, class_id: u16, body_size: u64) -> (h: ContentHeader)
    ensures
        is_plain_header(h, channel, class_id, body_size),
{
    ContentHeader {
        channel,
        class_id,
        weight: 0,
        body_size,
        prop_flags: 0,
        properties: Properties {
            content_type: None,
            content_encoding: None,
            headers: None,
            delivery_mode: None,
            priority: None,
            correlation_id: None,
            reply_to: None,
            expiration: None,
            message_id: None,
            timestamp: None,
            message_type: None,
            user_id: None,
            app_id: None,
            cluster_id: None,
        },
    }
}

// ---------------------------------------------------------------------
// Frame well-formedness: every string fits its length field.
// ---------------------------------------------------------------------

pub open spec fn wf_properties(p: Properties) -> bool {
    &&& (p.content_type is Some ==> p.content_type->0.len() <= 255)
    &&& (p.content_encoding is Some ==> p.content_encoding->0.len() <= 255)
    &&& (p.headers is Some ==> crate::value::wf_table(p.headers->0@))
    &&& (p.correlation_id is Some ==> p.correlation_id->0.len() <= 255)
    &&& (p.reply_to is Some ==> p.reply_to->0.len() <= 255)
    &&& (p.expiration is Some ==> p.expiration->0.len() <= 255)
    &&& (p.message_id is Some ==> p.message_id->0.len() <= 255)
    &&& (p.message_type is Some ==> p.message_type->0.len() <= 255)
    &&& (p.user_id is Some ==> p.user_id->0.len() <= 255)
    &&& (p.app_id is Some ==> p.app_id->0.len() <= 255)
    &&& (p.cluster_id is Some ==> p.cluster_id->0.len() <= 255)
}

pub open spec fn wf_frame(f: Frame) -> bool {
    match f {
        Frame::Header => true,
        Frame::Method(_, _, args) => forall|i: int|
            0 <= i < args@.len() ==> wf_field_value(args@[i]),
        Frame::ContentHeader(h) => wf_properties(h.properties) && crate::props::flags_match(
            h.prop_flags,
            h.properties,
        ),
        Frame::ContentBody(_, _) => true,
        Frame::Heartbeat(_) => true,
    }
}


// ---------------------------------------------------------------------
// Request builders: the frames a peer sends to drive the protocol.
// ---------------------------------------------------------------------

/// `connection.start`: protocol 0-9, no server properties, `PLAIN`
/// mechanism, `en_US` locale.
pub fn connection_start(channel: u16) -> (f: Frame)
    ensures
        is_method(f, channel, CONNECTION_START),
        f->Method_2@.len() == 5,
{
    let mut args: Vec<FieldValue> = Vec::new();
    args.push(FieldValue::U8(0));
    args.push(FieldValue::U8(9));
    args.push(FieldValue::Table(Vec::new()));
    args.push(FieldValue::LongString(plain_bytes()));
    args.push(FieldValue::LongString(locale_bytes()));
    Frame::Method(channel, CONNECTION_START, args)
}

/// `connection.start-ok`: no client properties, `PLAIN` mechanism with
/// the given response, `en_US` locale.
pub fn connection_start_ok(channel: u16, response: Vec<u8>) -> (f: Frame)
    ensures
        is_method(f, channel, CONNECTION_START_OK),
        f->Method_2@.len() == 4,
{
    let mut args: Vec<FieldValue> = Vec::new();
    args.push(FieldValue::Table(Vec::new()));
    args.push(FieldValue::SimpleString(plain_bytes()));
    args.push(FieldValue::LongString(response));
    args.push(FieldValue::SimpleString(locale_bytes()));
    Frame::Method(channel, CONNECTION_START_OK, args)
}

/// `connection.tune` / `tune-ok`: channel-max, frame-max, heartbeat.
pub fn connection_tune(channel: u16, channel_max: u16, frame_max: u32, heartbeat: u16) -> (f: Frame)
    ensures
        is_method(f, channel, CONNECTION_TUNE),
        f->Method_2@.len() == 3,
        f->Method_2@[1] == FieldValue::U32(frame_max),
{
    let mut args: Vec<FieldValue> = Vec::new();
    args.push(FieldValue::U16(channel_max));
    args.push(FieldValue::U32(frame_max));
    args.push(FieldValue::U16(heartbeat));
    Frame::Method(channel, CONNECTION_TUNE, args)
}

pub fn connection_tune_ok(channel: u16, channel_max: u16, frame_max: u32, heartbeat: u16) -> (f:
    Frame)
    ensures
        is_method(f, channel, CONNECTION_TUNE_OK),
        f->Method_2@.len() == 3,
        f->Method_2@[1] == FieldValue::U32(frame_max),
{
    let mut args: Vec<FieldValue> = Vec::new();
    args.push(FieldValue::U16(channel_max));
    args.push(FieldValue::U32(frame_max));
    args.push(FieldValue::U16(heartbeat));
    Frame::Method(channel, CONNECTION_TUNE_OK, args)
}

/// `connection.open` for a virtual host.
pub fn connection_open(channel: u16, virtual_host: Vec<u8>) -> (f: Frame)
    ensures
        is_method(f, channel, CONNECTION_OPEN),
        f->Method_2@.len() == 3,
        f->Method_2@[0] is SimpleString,
        f->Method_2@[0]->SimpleString_0@ == virtual_host@,
{
    let mut args: Vec<FieldValue> = Vec::new();
    args.push(FieldValue::SimpleString(virtual_host));
    args.push(FieldValue::SimpleString(Vec::new()));
    args.push(FieldValue::Bool(false));
    Frame::Method(channel, CONNECTION_OPEN, args)
}

/// `channel.open` on a channel number.
pub fn channel_open(channel: u16) -> (f: Frame)
    ensures
        is_method(f, channel, CHANNEL_OPEN),
        f->Method_2@.len() == 1,
{
    let mut args: Vec<FieldValue> = Vec::new();
    args.push(FieldValue::SimpleString(Vec::new()));
    Frame::Method(channel, CHANNEL_OPEN, args)
}

/// `exchange.declare` with the given name, type and flags.
pub fn exchange_declare(
    channel: u16,
    exchange_name: Vec<u8>,
    exchange_type: Vec<u8>,
    passive: bool,
    durable: bool,
    auto_delete: bool,
    internal: bool,
    no_wait: bool,
) -> (f: Frame)
    ensures
        is_method(f, channel, EXCHANGE_DECLARE),
        f->Method_2@.len() == 9,
        f->Method_2@[1] is SimpleString,
        f->Method_2@[1]->SimpleString_0@ == exchange_name@,
        f->Method_2@[2] is SimpleString,
        f->Method_2@[2]->SimpleString_0@ == exchange_type@,
        f->Method_2@[3] == FieldValue::Bool(passive),
        f->Method_2@[4] == FieldValue::Bool(durable),
        f->Method_2@[5] == FieldValue::Bool(auto_delete),
        f->Method_2@[6] == FieldValue::Bool(internal),
        f->Method_2@[7] == FieldValue::Bool(no_wait),
{
    let mut args: Vec<FieldValue> = Vec::new();
    args.push(FieldValue::U16(0));
    args.push(FieldValue::SimpleString(exchange_name));
    args.push(FieldValue::SimpleString(exchange_type));
    args.push(FieldValue::Bool(passive));
    args.push(FieldValue::Bool(durable));
    args.push(FieldValue::Bool(auto_delete));
    args.push(FieldValue::Bool(internal));
    args.push(FieldValue::Bool(no_wait));
    args.push(FieldValue::Table(Vec::new()));
    Frame::Method(channel, EXCHANGE_DECLARE, args)
}

/// `queue.declare` with the given name and flags.
pub fn queue_declare(
    channel: u16,
    queue_name: Vec<u8>,
    passive: bool,
    durable: bool,
    exclusive: bool,
    auto_delete: bool,
    no_wait: bool,
) -> (f: Frame)
    ensures
        is_method(f, channel, QUEUE_DECLARE),
        f->Method_2@.len() == 8,
        f->Method_2@[1] is SimpleString,
        f->Method_2@[1]->SimpleString_0@ == queue_name@,
{
    let mut args: Vec<FieldValue> = Vec::new();
    args.push(FieldValue::U16(0));
    args.push(FieldValue::SimpleString(queue_name));
    args.push(FieldValue::Bool(passive));
    args.push(FieldValue::Bool(durable));
    args.push(FieldValue::Bool(exclusive));
    args.push(FieldValue::Bool(auto_delete));
    args.push(FieldValue::Bool(no_wait));
    args.push(FieldValue::Table(Vec::new()));
    Frame::Method(channel, QUEUE_DECLARE, args)
}

/// `queue.bind` with an empty argument table.
pub fn queue_bind(channel: u16, queue_name: Vec<u8>, exchange_name: Vec<u8>, routing_key: Vec<u8>)
    -> (f: Frame)
    ensures
        is_method(f, channel, QUEUE_BIND),
        f->Method_2@.len() == 6,
        f->Method_2@[1] is SimpleString,
        f->Method_2@[1]->SimpleString_0@ == queue_name@,
        f->Method_2@[2] is SimpleString,
        f->Method_2@[2]->SimpleString_0@ == exchange_name@,
        f->Method_2@[3] is SimpleString,
        f->Method_2@[3]->SimpleString_0@ == routing_key@,
{
    let mut args: Vec<FieldValue> = Vec::new();
    args.push(FieldValue::U16(0));
    args.push(FieldValue::SimpleString(queue_name));
    args.push(FieldValue::SimpleString(exchange_name));
    args.push(FieldValue::SimpleString(routing_key));
    args.push(FieldValue::Bool(false));
    args.push(FieldValue::Table(Vec::new()));
    Frame::Method(channel, QUEUE_BIND, args)
}

/// `basic.publish` to an exchange with a routing key.
pub fn basic_publish(channel: u16, exchange_name: Vec<u8>, routing_key: Vec<u8>) -> (f: Frame)
    ensures
        is_method(f, channel, BASIC_PUBLISH),
        f->Method_2@.len() == 5,
        f->Method_2@[1] is SimpleString,
        f->Method_2@[1]->SimpleString_0@ == exchange_name@,
        f->Method_2@[2] is SimpleString,
        f->Method_2@[2]->SimpleString_0@ == routing_key@,
{
    let mut args: Vec<FieldValue> = Vec::new();
    args.push(FieldValue::U16(0));
    args.push(FieldValue::SimpleString(exchange_name));
    args.push(FieldValue::SimpleString(routing_key));
    args.push(FieldValue::Bool(false));
    args.push(FieldValue::Bool(false));
    Frame::Method(channel, BASIC_PUBLISH, args)
}

/// `basic.consume` on a queue with a consumer tag.
pub fn basic_consume(channel: u16, queue_name: Vec<u8>, consumer_tag: Vec<u8>) -> (f: Frame)
    ensures
        is_method(f, channel, BASIC_CONSUME),
        f->Method_2@.len() == 8,
        f->Method_2@[1] is SimpleString,
        f->Method_2@[1]->SimpleString_0@ == queue_name@,
        f->Method_2@[2] is SimpleString,
        f->Method_2@[2]->SimpleString_0@ == consumer_tag@,
{
    let mut args: Vec<FieldValue> = Vec::new();
    args.push(FieldValue::U16(0));
    args.push(FieldValue::SimpleString(queue_name));
    args.push(FieldValue::SimpleString(consumer_tag));
    args.push(FieldValue::Bool(false));
    args.push(FieldValue::Bool(false));
    args.push(FieldValue::Bool(false));
    args.push(FieldValue::Bool(false));
    args.push(FieldValue::Table(Vec::new()));
    Frame::Method(channel, BASIC_CONSUME, args)
}

/// `basic.cancel` of a consumer tag.
pub fn basic_cancel(channel: u16, consumer_tag: Vec<u8>) -> (f: Frame)
    ensures
        is_method(f, channel, BASIC_CANCEL),
        f->Method_2@.len() == 2,
        f->Method_2@[0] is SimpleString,
        f->Method_2@[0]->SimpleString_0@ == consumer_tag@,
{
    let mut args: Vec<FieldValue> = Vec::new();
    args.push(FieldValue::SimpleString(consumer_tag));
    args.push(FieldValue::Bool(false));
    Frame::Method(channel, BASIC_CANCEL, args)
}

/// The bytes of the `PLAIN` mechanism name.
fn plain_bytes() -> (r: Vec<u8>)
    ensures
        r@.len() == 5,
{
    let mut v: Vec<u8> = Vec::new();
    v.push(80);
    v.push(76);
    v.push(65);
    v.push(73);
    v.push(78);
    v
}

/// The bytes of the `en_US` locale name.
fn locale_bytes() -> (r: Vec<u8>)
    ensures
        r@.len() == 5,
{
    let mut v: Vec<u8> = Vec::new();
    v.push(101);
    v.push(110);
    v.push(95);
    v.push(85);
    v.push(83);
    v
}

} // verus!

use ironmq::frame::{self, Frame};
use ironmq::state::{Broker, ConnectionState, Phase};
use ironmq::value::FieldValue;
use ironmq::client::{handle_frame, ClientPhase, ClientState};
use ironmq::client::{correlate, PendingCall};
use ironmq::client::publish_frames;

fn open_connection(broker: &mut Broker) -> ConnectionState {
    let mut cs = ConnectionState::new(4096);
    let out = cs.dispatch_frame(broker, Frame::Header);
    assert!(matches!(out[0], Frame::Method(0, frame::CONNECTION_START, _)));
    let out = cs.dispatch_frame(broker, frame::connection_start_ok(0, Vec::new()));
    assert!(matches!(out[0], Frame::Method(0, frame::CONNECTION_TUNE, _)));
    let out = cs.dispatch_frame(broker, frame::connection_tune_ok(0, 2047, 4096, 60));
    assert!(out.is_empty());
    let out = cs.dispatch_frame(broker, frame::connection_open(0, b"/".to_vec()));
    assert!(matches!(out[0], Frame::Method(0, frame::CONNECTION_OPEN_OK, _)));
    assert_eq!(cs.phase, Phase::Open);
    cs
}

fn expect_single(out: Vec<Frame>) -> Frame {
    assert_eq!(out.len(), 1);
    out.into_iter().next().unwrap()
}

fn close_code(f: &Frame) -> (u16, u16, u32) {
    // (channel, reply code, class-method id) of a close method frame.
    match f {
        Frame::Method(ch, cm, args) => {
            assert!(*cm == frame::CHANNEL_CLOSE || *cm == frame::CONNECTION_CLOSE);
            match &args[0] {
                FieldValue::U16(code) => (*ch, *code, *cm),
                _ => panic!("close frame without a reply code"),
            }
        },
        _ => panic!("not a method frame"),
    }
}

fn declare_exchange(
    cs: &mut ConnectionState,
    broker: &mut Broker,
    ch: u16,
    name: &[u8],
    etype: &[u8],
) -> Vec<Frame> {
    cs.dispatch_frame(
        broker,
        frame::exchange_declare(ch, name.to_vec(), etype.to_vec(), false, false, false, false, false),
    )
}

fn declare_queue(cs: &mut ConnectionState, broker: &mut Broker, ch: u16, name: &[u8]) {
    let out = cs.dispatch_frame(
        broker,
        frame::queue_declare(ch, name.to_vec(), false, false, false, false, false),
    );
    assert!(matches!(out[0], Frame::Method(_, frame::QUEUE_DECLARE_OK, _)));
}

fn bind_queue(
    cs: &mut ConnectionState,
    broker: &mut Broker,
    ch: u16,
    queue: &[u8],
    exchange: &[u8],
    key: &[u8],
) {
    let out = cs.dispatch_frame(
        broker,
        frame::queue_bind(ch, queue.to_vec(), exchange.to_vec(), key.to_vec()),
    );
    assert!(matches!(out[0], Frame::Method(_, frame::QUEUE_BIND_OK, _)));
}

fn consume(cs: &mut ConnectionState, broker: &mut Broker, ch: u16, queue: &[u8], tag: &[u8]) {
    let out = cs.dispatch_frame(broker, frame::basic_consume(ch, queue.to_vec(), tag.to_vec()));
    assert!(matches!(out[0], Frame::Method(_, frame::BASIC_CONSUME_OK, _)));
}

fn publish(
    cs: &mut ConnectionState,
    broker: &mut Broker,
    ch: u16,
    exchange: &[u8],
    key: &[u8],
    body: &[u8],
) -> Vec<Frame> {
    let out = cs.dispatch_frame(broker, frame::basic_publish(ch, exchange.to_vec(), key.to_vec()));
    assert!(out.is_empty());
    let header = frame::plain_header(ch, 60, body.len() as u64);
    let out = cs.dispatch_frame(broker, Frame::ContentHeader(header));
    assert!(out.is_empty());
    cs.dispatch_frame(broker, Frame::ContentBody(ch, body.to_vec()))
}

fn check_delivery(frames: &[Frame], at: usize, tag: &[u8], body: &[u8]) {
    match &frames[at] {
        Frame::Method(_, cm, args) => {
            assert_eq!(*cm, frame::BASIC_DELIVER);
            assert!(matches!(&args[0], FieldValue::SimpleString(t) if t == tag));
        },
        _ => panic!("expected basic.deliver"),
    }
    match &frames[at + 1] {
        Frame::ContentHeader(h) => assert_eq!(h.body_size, body.len() as u64),
        _ => panic!("expected a content header"),
    }
    match &frames[at + 2] {
        Frame::ContentBody(_, b) => assert_eq!(&b[..], body),
        _ => panic!("expected a content body"),
    }
}

#[test]
fn fanout_delivery() {
    let mut broker = Broker::new();
    let mut cs = open_connection(&mut broker);
    let out = cs.dispatch_frame(&mut broker, frame::channel_open(1));
    assert!(matches!(out[0], Frame::Method(1, frame::CHANNEL_OPEN_OK, _)));

    let out = declare_exchange(&mut cs, &mut broker, 1, b"logs", b"fanout");
    assert!(matches!(out[0], Frame::Method(1, frame::EXCHANGE_DECLARE_OK, _)));
    declare_queue(&mut cs, &mut broker, 1, b"q1");
    declare_queue(&mut cs, &mut broker, 1, b"q2");
    bind_queue(&mut cs, &mut broker, 1, b"q1", b"logs", b"");
    bind_queue(&mut cs, &mut broker, 1, b"q2", b"logs", b"");
    consume(&mut cs, &mut broker, 1, b"q1", b"c1");
    consume(&mut cs, &mut broker, 1, b"q2", b"c2");

    let deliveries = publish(&mut cs, &mut broker, 1, b"logs", b"", b"hi");
    assert_eq!(deliveries.len(), 6);
    check_delivery(&deliveries, 0, b"c1", b"hi");
    check_delivery(&deliveries, 3, b"c2", b"hi");
}

#[test]
fn direct_routing() {
    let mut broker = Broker::new();
    let mut cs = open_connection(&mut broker);
    cs.dispatch_frame(&mut broker, frame::channel_open(1));

    declare_exchange(&mut cs, &mut broker, 1, b"ex", b"direct");
    declare_queue(&mut cs, &mut broker, 1, b"qa");
    declare_queue(&mut cs, &mut broker, 1, b"qb");
    bind_queue(&mut cs, &mut broker, 1, b"qa", b"ex", b"a");
    bind_queue(&mut cs, &mut broker, 1, b"qb", b"ex", b"b");
    consume(&mut cs, &mut broker, 1, b"qa", b"ca");
    consume(&mut cs, &mut broker, 1, b"qb", b"cb");

    let deliveries = publish(&mut cs, &mut broker, 1, b"ex", b"a", b"A");
    assert_eq!(deliveries.len(), 3);
    check_delivery(&deliveries, 0, b"ca", b"A");

    let deliveries = publish(&mut cs, &mut broker, 1, b"ex", b"c", b"B");
    assert!(deliveries.is_empty());
}

#[test]
fn channel_error_isolation() {
    let mut broker = Broker::new();
    let mut cs = open_connection(&mut broker);
    cs.dispatch_frame(&mut broker, frame::channel_open(1));
    cs.dispatch_frame(&mut broker, frame::channel_open(2));

    let out = cs.dispatch_frame(
        &mut broker,
        frame::basic_publish(1, b"nope".to_vec(), b"".to_vec()),
    );
    let close = expect_single(out);
    let (ch, code, cm) = close_code(&close);
    assert_eq!(ch, 1);
    assert_eq!(code, 404);
    assert_eq!(cm, frame::CHANNEL_CLOSE);

    // Channel 2 stays usable.
    let out = declare_exchange(&mut cs, &mut broker, 2, b"still", b"fanout");
    assert!(matches!(out[0], Frame::Method(2, frame::EXCHANGE_DECLARE_OK, _)));
}

#[test]
fn connection_error_on_bad_vhost() {
    let mut broker = Broker::new();
    let mut cs = ConnectionState::new(4096);
    cs.dispatch_frame(&mut broker, Frame::Header);
    cs.dispatch_frame(&mut broker, frame::connection_start_ok(0, Vec::new()));
    cs.dispatch_frame(&mut broker, frame::connection_tune_ok(0, 2047, 4096, 60));

    let out = cs.dispatch_frame(&mut broker, frame::connection_open(0, b"/x".to_vec()));
    let close = expect_single(out);
    let (ch, code, cm) = close_code(&close);
    assert_eq!(ch, 0);
    assert_eq!(code, 530);
    assert_eq!(cm, frame::CONNECTION_CLOSE);
    assert_eq!(cs.phase, Phase::Closing);

    // After close-ok the connection is finished and the socket can go.
    let out = cs.dispatch_frame(&mut broker, frame::connection_close_ok(0));
    assert!(out.is_empty());
    assert_eq!(cs.phase, Phase::Closed);
}

#[test]
fn large_body_streaming() {
    let mut broker = Broker::new();
    let mut cs = open_connection(&mut broker);
    cs.dispatch_frame(&mut broker, frame::channel_open(1));

    declare_exchange(&mut cs, &mut broker, 1, b"bulk", b"fanout");
    declare_queue(&mut cs, &mut broker, 1, b"big");
    bind_queue(&mut cs, &mut broker, 1, b"big", b"bulk", b"");
    consume(&mut cs, &mut broker, 1, b"big", b"cb");

    let body: Vec<u8> = (0..70000u32).map(|i| (i % 251) as u8).collect();
    let out = cs.dispatch_frame(
        &mut broker,
        frame::basic_publish(1, b"bulk".to_vec(), b"".to_vec()),
    );
    assert!(out.is_empty());
    let out = cs.dispatch_frame(
        &mut broker,
        Frame::ContentHeader(frame::plain_header(1, 60, body.len() as u64)),
    );
    assert!(out.is_empty());

    // With a negotiated frame-max of 4096, each body frame may carry
    // at most 4088 payload bytes: 70 000 bytes need 18 frames.
    let chunk = 4096 - 8;
    let chunks: Vec<&[u8]> = body.chunks(chunk).collect();
    assert!(chunks.len() >= 18);
    let mut deliveries = Vec::new();
    for (i, c) in chunks.iter().enumerate() {
        let out = cs.dispatch_frame(&mut broker, Frame::ContentBody(1, c.to_vec()));
        if i + 1 < chunks.len() {
            assert!(out.is_empty());
        } else {
            deliveries = out;
        }
    }
    // The delivery is split under the same frame-max: a deliver frame,
    // one header announcing all 70 000 bytes, and 18 body frames whose
    // payloads concatenate back to the published body.
    assert_eq!(deliveries.len(), 2 + 18);
    match &deliveries[0] {
        Frame::Method(1, cm, _) => assert_eq!(*cm, frame::BASIC_DELIVER),
        _ => panic!("expected basic.deliver"),
    }
    match &deliveries[1] {
        Frame::ContentHeader(h) => assert_eq!(h.body_size, 70000),
        _ => panic!("expected a content header"),
    }
    let mut rebuilt: Vec<u8> = Vec::new();
    for f in &deliveries[2..] {
        match f {
            Frame::ContentBody(1, b) => {
                assert!(b.len() <= chunk);
                rebuilt.extend_from_slice(b);
            },
            _ => panic!("expected a content body"),
        }
    }
    assert_eq!(rebuilt, body);
}

#[test]
fn redeclare_conflict() {
    let mut broker = Broker::new();
    let mut cs = open_connection(&mut broker);
    cs.dispatch_frame(&mut broker, frame::channel_open(1));

    let out = declare_exchange(&mut cs, &mut broker, 1, b"orders", b"fanout");
    assert!(matches!(out[0], Frame::Method(1, frame::EXCHANGE_DECLARE_OK, _)));

    let out = declare_exchange(&mut cs, &mut broker, 1, b"orders", b"topic");
    let close = expect_single(out);
    let (ch, code, cm) = close_code(&close);
    assert_eq!(ch, 1);
    assert_eq!(code, 406);
    assert_eq!(cm, frame::CHANNEL_CLOSE);
}

#[test]
fn channel_close_on_not_existing_exchange() {
    // A passive declare of a missing exchange closes the channel with
    // the not-found code.
    let mut broker = Broker::new();
    let mut cs = open_connection(&mut broker);
    cs.dispatch_frame(&mut broker, frame::channel_open(1));

    let out = cs.dispatch_frame(
        &mut broker,
        frame::exchange_declare(
            1,
            b"sure do not exist".to_vec(),
            b"fanout".to_vec(),
            true,
            false,
            false,
            false,
            false,
        ),
    );
    let close = expect_single(out);
    let (ch, code, _) = close_code(&close);
    assert_eq!(ch, 1);
    assert_eq!(code, 404);
}

#[test]
fn unknown_channel_is_connection_error() {
    let mut broker = Broker::new();
    let mut cs = open_connection(&mut broker);

    let out = cs.dispatch_frame(
        &mut broker,
        frame::queue_declare(9, b"q".to_vec(), false, false, false, false, false),
    );
    let close = expect_single(out);
    let (ch, code, _) = close_code(&close);
    assert_eq!(ch, 0);
    assert_eq!(code, 504);
}

#[test]
fn duplicate_channel_open_is_channel_error() {
    let mut broker = Broker::new();
    let mut cs = open_connection(&mut broker);
    cs.dispatch_frame(&mut broker, frame::channel_open(1));

    let out = cs.dispatch_frame(&mut broker, frame::channel_open(1));
    let close = expect_single(out);
    let (ch, code, _) = close_code(&close);
    assert_eq!(ch, 1);
    assert_eq!(code, 504);
}

#[test]
fn unknown_method_is_not_implemented() {
    let mut broker = Broker::new();
    let mut cs = open_connection(&mut broker);
    cs.dispatch_frame(&mut broker, frame::channel_open(1));

    let out = cs.dispatch_frame(&mut broker, Frame::Method(1, frame::BASIC_CANCEL_OK, Vec::new()));
    let close = expect_single(out);
    let (ch, code, _) = close_code(&close);
    assert_eq!(ch, 1);
    assert_eq!(code, 540);
}

#[test]
fn round_robin_and_backlog() {
    let mut broker = Broker::new();
    let mut cs = open_connection(&mut broker);
    cs.dispatch_frame(&mut broker, frame::channel_open(1));

    declare_exchange(&mut cs, &mut broker, 1, b"work", b"direct");
    declare_queue(&mut cs, &mut broker, 1, b"jobs");
    bind_queue(&mut cs, &mut broker, 1, b"jobs", b"work", b"k");

    // No consumer yet: messages wait in the queue.
    let out = publish(&mut cs, &mut broker, 1, b"work", b"k", b"one");
    assert!(out.is_empty());
    let out = publish(&mut cs, &mut broker, 1, b"work", b"k", b"two");
    assert!(out.is_empty());

    // The first consumer drains the backlog in order.
    let out = cs.dispatch_frame(
        &mut broker,
        frame::basic_consume(1, b"jobs".to_vec(), b"w1".to_vec()),
    );
    assert_eq!(out.len(), 7);
    assert!(matches!(out[0], Frame::Method(1, frame::BASIC_CONSUME_OK, _)));
    check_delivery(&out, 1, b"w1", b"one");
    check_delivery(&out, 4, b"w1", b"two");

    // A second consumer makes delivery alternate round-robin.
    consume(&mut cs, &mut broker, 1, b"jobs", b"w2");
    let d1 = publish(&mut cs, &mut broker, 1, b"work", b"k", b"m1");
    let d2 = publish(&mut cs, &mut broker, 1, b"work", b"k", b"m2");
    let d3 = publish(&mut cs, &mut broker, 1, b"work", b"k", b"m3");
    check_delivery(&d1, 0, b"w1", b"m1");
    check_delivery(&d2, 0, b"w2", b"m2");
    check_delivery(&d3, 0, b"w1", b"m3");
}

#[test]
fn client_handshake_mirror() {

    let mut st = ClientState::new();
    let reply = handle_frame(&mut st, &frame::connection_start(0));
    assert!(matches!(reply, Some(Frame::Method(0, frame::CONNECTION_START_OK, _))));
    assert_eq!(st.phase, ClientPhase::AwaitTune);

    let reply = handle_frame(&mut st, &frame::connection_tune(0, 2047, 131072, 60));
    assert!(matches!(reply, Some(Frame::Method(0, frame::CONNECTION_TUNE_OK, _))));
    assert_eq!(st.phase, ClientPhase::AwaitOpenOk);

    let reply = handle_frame(&mut st, &frame::connection_open_ok(0));
    assert!(reply.is_none());
    assert_eq!(st.phase, ClientPhase::Open);
}

#[test]
fn client_correlation() {

    let pending = PendingCall { channel: 1, expect_cm: frame::EXCHANGE_DECLARE_OK };

    let ok = correlate(&pending, &frame::exchange_declare_ok(1));
    assert!(matches!(ok, Some(Ok(()))));

    let close = frame::channel_close(1, 404, b"Exchange not found".to_vec(), frame::BASIC_PUBLISH);
    let err = correlate(&pending, &close).unwrap().unwrap_err();
    assert_eq!(err.channel, Some(1));
    assert_eq!(err.code, 404);
    assert_eq!(err.message, "Exchange not found".to_string());
    assert_eq!(err.class_method, frame::BASIC_PUBLISH);

    let other = correlate(&pending, &frame::queue_bind_ok(2));
    assert!(other.is_none());
}

#[test]
fn client_publish_frames() {

    let frames = publish_frames(1, b"ex".to_vec(), b"k".to_vec(), b"Hello".to_vec(), 4096);
    assert_eq!(frames.len(), 3);
    assert!(matches!(frames[0], Frame::Method(1, frame::BASIC_PUBLISH, _)));
    match &frames[1] {
        Frame::ContentHeader(h) => assert_eq!(h.body_size, 5),
        _ => panic!("expected a content header"),
    }
    assert!(matches!(&frames[2], Frame::ContentBody(1, b) if b == b"Hello"));

    // A large publish splits its body under the negotiated frame-max.
    let body: Vec<u8> = (0..70000u32).map(|i| (i % 251) as u8).collect();
    let frames = publish_frames(1, b"ex".to_vec(), b"k".to_vec(), body.clone(), 4096);
    assert_eq!(frames.len(), 2 + 18);
    let mut rebuilt: Vec<u8> = Vec::new();
    for f in &frames[2..] {
        match f {
            Frame::ContentBody(1, b) => {
                assert!(b.len() <= 4096 - 8);
                rebuilt.extend_from_slice(b);
            },
            _ => panic!("expected a content body"),
        }
    }
    assert_eq!(rebuilt, body);
}

#[test]
fn repeated_bind_is_idempotent() {
    let mut broker = Broker::new();
    let mut cs = open_connection(&mut broker);
    cs.dispatch_frame(&mut broker, frame::channel_open(1));

    declare_exchange(&mut cs, &mut broker, 1, b"logs", b"fanout");
    declare_queue(&mut cs, &mut broker, 1, b"q1");
    bind_queue(&mut cs, &mut broker, 1, b"q1", b"logs", b"");
    bind_queue(&mut cs, &mut broker, 1, b"q1", b"logs", b"");
    consume(&mut cs, &mut broker, 1, b"q1", b"c1");

    // The duplicate bind installed nothing: one delivery, not two.
    let deliveries = publish(&mut cs, &mut broker, 1, b"logs", b"", b"hi");
    assert_eq!(deliveries.len(), 3);
    check_delivery(&deliveries, 0, b"c1", b"hi");
}

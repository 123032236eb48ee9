//! The client-side mirror of the protocol: the handshake driven from
//! the connecting end, the frames a user call turns into, and the
//! correlation of replies with pending synchronous requests.
//!
//! The caller owns the socket: it feeds received frames to
//! `handle_frame` and `correlate`, and writes the returned frames out.

use vstd::prelude::*;
use crate::frame::Frame;
use crate::frame::is_method;
use crate::frame::spec_class_of;
use crate::frame::spec_method_of;
use crate::value::FieldValue;

verus! {

/// A message delivered to a consumer, as the client library hands it
/// to the application.
pub struct Message {
    pub channel: u16,
    pub body: Vec<u8>,
    pub length: usize,
}

/// A connection or channel error reported by the broker. If `channel`
/// is `None` it is a connection error.
#[derive(Clone, Debug)]
pub struct ClientError {
    pub channel: Option<u16>,
    pub code: u16,
    pub message: String,
    pub class_method: u32,
}

/// What the characters of a lossy UTF-8 decode of these bytes are.
pub uninterp spec fn lossy_of(b: Seq<u8>) -> Seq<char>;

/// Relies on `String::from_utf8_lossy`: the decoded text depends on
/// the bytes alone.
#[verifier::external_body]
fn bytes_to_string(b: &Vec<u8>) -> (r: String)
    ensures
        r@ == lossy_of(b@),
{
    String::from_utf8_lossy(b.as_slice()).into_owned()
}

/// The client's view of the handshake, mirroring the broker's phases.
#[derive(Clone, Copy, PartialEq, Eq, Structural, Debug)]
pub enum ClientPhase {
    /// The protocol header went out; `connection.start` must come.
    AwaitStart,
    /// `start-ok` went out; `connection.tune` must come.
    AwaitTune,
    /// `tune-ok` and `connection.open` went out; `open-ok` must come.
    AwaitOpenOk,
    /// The connection is open for channel traffic.
    Open,
    /// The connection is finished.
    Closed,
}

/// The client half of one connection's state.
pub struct ClientState {
    pub phase: ClientPhase,
}

impl ClientState {
    /// A fresh client, right after it sent the protocol header.
    pub fn new() -> (r: ClientState)
        ensures
            r.phase == ClientPhase::AwaitStart,
    {
        ClientState { phase: ClientPhase::AwaitStart }
    }
}

/// Drive the client handshake with one received frame: the reply to
/// send back, if the frame asks for one. `connection.start` is
/// answered with `start-ok`, `connection.tune` with `tune-ok`;
/// `open-ok` completes the handshake and `close-ok` ends it.
pub fn handle_frame(state: &mut ClientState, f: &Frame) -> (out: Option<Frame>)
    ensures
        old(state).phase == ClientPhase::AwaitStart && is_method(
            *f,
            0,
            crate::frame::CONNECTION_START,
        ) ==> final(state).phase == ClientPhase::AwaitTune && out is Some && is_method(
            out->0,
            0,
            crate::frame::CONNECTION_START_OK,
        ),
        old(state).phase == ClientPhase::AwaitTune && is_method(
            *f,
            0,
            crate::frame::CONNECTION_TUNE,
        ) ==> final(state).phase == ClientPhase::AwaitOpenOk && out is Some && is_method(
            out->0,
            0,
            crate::frame::CONNECTION_TUNE_OK,
        ),
        old(state).phase == ClientPhase::AwaitOpenOk && is_method(
            *f,
            0,
            crate::frame::CONNECTION_OPEN_OK,
        ) ==> final(state).phase == ClientPhase::Open && out is None,
        is_method(*f, 0, crate::frame::CONNECTION_CLOSE_OK) ==> final(state).phase
            == ClientPhase::Closed && out is None,
        !(f is Method && f->Method_0 == 0) ==> out is None && *final(state) == *old(state),
{
    let (ch, cm) = match f {
        Frame::Method(ch, cm, _) => (*ch, *cm),
        _ => { return None },
    };
    if cm == crate::frame::CONNECTION_CLOSE_OK && ch == 0 {
        state.phase = ClientPhase::Closed;
        return None;
    }
    if state.phase == ClientPhase::AwaitStart && ch == 0 && cm == crate::frame::CONNECTION_START {
        state.phase = ClientPhase::AwaitTune;
        return Some(crate::frame::connection_start_ok(0, Vec::new()));
    }
    if state.phase == ClientPhase::AwaitTune && ch == 0 && cm == crate::frame::CONNECTION_TUNE {
        state.phase = ClientPhase::AwaitOpenOk;
        return Some(crate::frame::connection_tune_ok(0, 2047, 131072, 60));
    }
    if state.phase == ClientPhase::AwaitOpenOk && ch == 0 && cm
        == crate::frame::CONNECTION_OPEN_OK {
        state.phase = ClientPhase::Open;
        return None;
    }
    None
}

/// A synchronous request the client still waits on: the channel it
/// went out on and the class-method id of the expected reply.
pub struct PendingCall {
    pub channel: u16,
    pub expect_cm: u32,
}

/// Match one received method frame against a pending request: the
/// expected reply fulfils it, a `channel.close` on its channel or a
/// `connection.close` fails it with the carried error, and anything
/// else leaves it pending.
pub fn correlate(pending: &PendingCall, f: &Frame) -> (r: Option<Result<(), ClientError>>)
    ensures
        is_method(*f, pending.channel, pending.expect_cm) ==> r == Some(
            Result::<(), ClientError>::Ok(()),
        ),
        ({
            &&& is_method(*f, pending.channel, crate::frame::CHANNEL_CLOSE)
            &&& pending.expect_cm != crate::frame::CHANNEL_CLOSE
            &&& f->Method_2@.len() == 4
            &&& f->Method_2@[0] is U16
        }) ==> ({
            &&& r is Some
            &&& r->0 is Err
            &&& r->0->Err_0.channel == Some(pending.channel)
            &&& r->0->Err_0.code == f->Method_2@[0]->U16_0
        }),
        ({
            &&& is_method(*f, 0, crate::frame::CONNECTION_CLOSE)
            &&& pending.expect_cm != crate::frame::CONNECTION_CLOSE
            &&& f->Method_2@.len() == 4
            &&& f->Method_2@[0] is U16
        }) ==> ({
            &&& r is Some
            &&& r->0 is Err
            &&& r->0->Err_0.channel is None
            &&& r->0->Err_0.code == f->Method_2@[0]->U16_0
        }),
{
    let (ch, cm) = match f {
        Frame::Method(ch, cm, _) => (*ch, *cm),
        _ => { return None },
    };
    if ch == pending.channel && cm == pending.expect_cm {
        return Some(Ok(()));
    }
    let is_chan_close = ch == pending.channel && cm == crate::frame::CHANNEL_CLOSE;
    let is_conn_close = ch == 0 && cm == crate::frame::CONNECTION_CLOSE;
    if !is_chan_close && !is_conn_close {
        return None;
    }
    let args = match f {
        Frame::Method(_, _, args) => args,
        _ => { return None },
    };
    if args.len() != 4 {
        return None;
    }
    let code = match &args[0] {
        FieldValue::U16(c) => *c,
        _ => { return None },
    };
    let text = match &args[1] {
        FieldValue::SimpleString(t) => bytes_to_string(t),
        _ => String::new(),
    };
    let cid = match &args[2] {
        FieldValue::U16(c) => *c,
        _ => 0,
    };
    let mid = match &args[3] {
        FieldValue::U16(m) => *m,
        _ => 0,
    };
    let failing = crate::frame::join_class_method(cid, mid);
    Some(
        Err(
            ClientError {
                channel: if is_chan_close {
                    Some(ch)
                } else {
                    None
                },
                code,
                message: text,
                class_method: failing,
            },
        ),
    )
}

/// The frames one `basic.publish` call sends: the method frame, a
/// plain content header announcing the whole body size, and the body
/// split into frames that each fit the negotiated frame-max.
pub fn publish_frames(
    channel: u16,
    exchange: Vec<u8>,
    routing_key: Vec<u8>,
    payload: Vec<u8>,
    frame_max: u32,
) -> (out: Vec<Frame>)
    ensures
        ({
            let cap = crate::codec::body_cap(frame_max);
            let cs = crate::codec::chunks_of(payload@, cap);
            &&& out@.len() == 2 + cs.len()
            &&& is_method(out@[0], channel, crate::frame::BASIC_PUBLISH)
            &&& out@[0]->Method_2@.len() == 5
            &&& out@[0]->Method_2@[1] is SimpleString
            &&& out@[0]->Method_2@[1]->SimpleString_0@ == exchange@
            &&& out@[0]->Method_2@[2] is SimpleString
            &&& out@[0]->Method_2@[2]->SimpleString_0@ == routing_key@
            &&& out@[1] is ContentHeader
            &&& crate::frame::is_plain_header(
                out@[1]->ContentHeader_0,
                channel,
                60,
                payload@.len() as u64,
            )
            &&& (forall|j: int|
                0 <= j < cs.len() ==> {
                    let b = #[trigger] out@[2 + j];
                    &&& b is ContentBody
                    &&& b->ContentBody_0 == channel
                    &&& b->ContentBody_1@ == cs[j]
                })
        }),
{
    let mut out: Vec<Frame> = Vec::new();
    let body_size = payload.len() as u64;
    out.push(crate::frame::basic_publish(channel, exchange, routing_key));
    out.push(Frame::ContentHeader(crate::frame::plain_header(channel, 60, body_size)));
    let ghost cap = crate::codec::body_cap(frame_max);
    let ghost cs = crate::codec::chunks_of(payload@, cap);
    let chunks = crate::codec::split_body(&payload, frame_max);
    let mut rest = chunks;
    let mut j: usize = 0;
    let ghost n = cs.len();
    let rn = rest.len();
    proof {
        assert(crate::exchange::byte_seqs_view(rest@) == cs);
        assert(n == rn as int);
    }
    let ghost pre = out@;
    #[verifier::loop_isolation(false)]
    while rest.len() > 0
        invariant
            j + rest@.len() == n,
            out@.len() == 2 + j,
            crate::exchange::byte_seqs_view(rest@) =~= cs.skip(j as int),
            out@[0] == pre[0],
            out@[1] == pre[1],
            forall|m: int|
                0 <= m < j ==> {
                    let b = #[trigger] out@[2 + m];
                    &&& b is ContentBody
                    &&& b->ContentBody_0 == channel
                    &&& b->ContentBody_1@ == cs[m]
                },
        decreases rest@.len(),
    {
        let ghost prerest = rest@;
        let c = rest.remove(0);
        proof {
            assert(crate::exchange::byte_seqs_view(prerest)[0] == prerest[0]@);
            assert(c@ == cs.skip(j as int)[0]);
            assert(cs.skip(j as int)[0] == cs[j as int + 0]);
            assert(rest@ =~= prerest.skip(1));
            assert(crate::exchange::byte_seqs_view(rest@) =~= crate::exchange::byte_seqs_view(
                prerest,
            ).skip(1));
            assert(cs.skip(j as int).skip(1) =~= cs.skip(j as int + 1));
            assert(crate::exchange::byte_seqs_view(rest@) =~= cs.skip(j as int + 1));
        }
        out.push(Frame::ContentBody(channel, c));
        j = j + 1;
    }
    out
}

/// The message a finished delivery hands to the application.
pub fn message_from_body(channel: u16, body: Vec<u8>) -> (m: Message)
    ensures
        m.channel == channel,
        m.body@ == body@,
        m.length == body@.len(),
{
    let length = body.len();
    Message { channel, body, length }
}

} // verus!

//! Content-header properties: the flag bitmap and the property list.
//!
//! A property stands on the wire exactly when it is present in the
//! record. The bitmap carried by a content header names the present
//! ones, from bit 15 (content-type) down to bit 2 (cluster-id);
//! `flags_match` ties the two together.

use vstd::prelude::*;
use crate::value::put_u8;
use crate::value::put_u64;
use crate::value::put_short_str;
use crate::value::put_table;
use crate::value::short_str_bytes;
use crate::value::table_bytes;
use crate::value::be8;
use crate::frame::Properties;
use crate::frame::wf_properties;

verus! {

/// Whether the bit worth `v` (a power of two) is set in `flags`.
/// Opaque: callers reason through `flag_bit_of` and the lemmas below.
#[verifier::opaque]
pub open spec fn flag_bit(flags: u16, v: u16) -> bool {
    flags / v % 2 == 1
}

/// The bitmap names exactly the present properties.
pub open spec fn flags_match(flags: u16, p: Properties) -> bool {
    &&& (flag_bit(flags, 0x8000) <==> p.content_type is Some)
    &&& (flag_bit(flags, 0x4000) <==> p.content_encoding is Some)
    &&& (flag_bit(flags, 0x2000) <==> p.headers is Some)
    &&& (flag_bit(flags, 0x1000) <==> p.delivery_mode is Some)
    &&& (flag_bit(flags, 0x800) <==> p.priority is Some)
    &&& (flag_bit(flags, 0x400) <==> p.correlation_id is Some)
    &&& (flag_bit(flags, 0x200) <==> p.reply_to is Some)
    &&& (flag_bit(flags, 0x100) <==> p.expiration is Some)
    &&& (flag_bit(flags, 0x80) <==> p.message_id is Some)
    &&& (flag_bit(flags, 0x40) <==> p.timestamp is Some)
    &&& (flag_bit(flags, 0x20) <==> p.message_type is Some)
    &&& (flag_bit(flags, 0x10) <==> p.user_id is Some)
    &&& (flag_bit(flags, 0x8) <==> p.app_id is Some)
    &&& (flag_bit(flags, 0x4) <==> p.cluster_id is Some)
}

/// Whether the bit worth `v` is set, as the decoder reads it.
pub fn flag_bit_of(flags: u16, v: u16) -> (r: bool)
    requires
        v >= 1,
    ensures
        r == flag_bit(flags, v),
{
    proof {
        reveal(flag_bit);
    }
    flags / v % 2 == 1
}

/// A zero bitmap names no property at all.
pub proof fn lemma_flags_match_zero(p: Properties)
    requires
        p.content_type is None,
        p.content_encoding is None,
        p.headers is None,
        p.delivery_mode is None,
        p.priority is None,
        p.correlation_id is None,
        p.reply_to is None,
        p.expiration is None,
        p.message_id is None,
        p.timestamp is None,
        p.message_type is None,
        p.user_id is None,
        p.app_id is None,
        p.cluster_id is None,
    ensures
        flags_match(0, p),
{
    reveal(flag_bit);
}

pub open spec fn opt_ss_bytes(o: Option<Vec<u8>>) -> Seq<u8> {
    match o {
        Some(v) => short_str_bytes(v@),
        None => Seq::empty(),
    }
}

pub open spec fn opt_u8_bytes(o: Option<u8>) -> Seq<u8> {
    match o {
        Some(x) => seq![x],
        None => Seq::empty(),
    }
}

pub open spec fn opt_u64_bytes(o: Option<u64>) -> Seq<u8> {
    match o {
        Some(x) => be8(x),
        None => Seq::empty(),
    }
}

pub open spec fn opt_table_bytes(o: Option<Vec<crate::value::TableEntry>>) -> Seq<u8> {
    match o {
        Some(t) => table_bytes(t@),
        None => Seq::empty(),
    }
}

/// The property list bytes: each present property in catalogue order.
pub open spec fn props_bytes(p: Properties) -> Seq<u8> {
    opt_ss_bytes(p.content_type) + opt_ss_bytes(p.content_encoding) + opt_table_bytes(p.headers)
        + opt_u8_bytes(p.delivery_mode) + opt_u8_bytes(p.priority)
        + opt_ss_bytes(p.correlation_id) + opt_ss_bytes(p.reply_to) + opt_ss_bytes(p.expiration)
        + opt_ss_bytes(p.message_id) + opt_u64_bytes(p.timestamp) + opt_ss_bytes(p.message_type)
        + opt_ss_bytes(p.user_id) + opt_ss_bytes(p.app_id) + opt_ss_bytes(p.cluster_id)
}

/// Concatenation of byte sequences associates.
proof fn lemma_concat_assoc(a: Seq<u8>, b: Seq<u8>, c: Seq<u8>)
    ensures
        (a + b) + c == a + (b + c),
{
    assert((a + b) + c =~= a + (b + c));
}

/// Append a present short-string property, or nothing.
fn put_opt_ss(out: &mut Vec<u8>, o: &Option<Vec<u8>>)
    requires
        o is Some ==> o->0@.len() <= 255,
    ensures
        final(out)@ == old(out)@ + opt_ss_bytes(*o),
{
    match o {
        Some(v) => put_short_str(out, v),
        None => {
            assert(final(out)@ =~= old(out)@ + opt_ss_bytes(*o));
        },
    }
}

/// Append a present byte property, or nothing.
fn put_opt_u8(out: &mut Vec<u8>, o: &Option<u8>)
    ensures
        final(out)@ == old(out)@ + opt_u8_bytes(*o),
{
    match o {
        Some(x) => {
            put_u8(out, *x);
            assert(final(out)@ =~= old(out)@ + opt_u8_bytes(*o));
        },
        None => {
            assert(final(out)@ =~= old(out)@ + opt_u8_bytes(*o));
        },
    }
}

/// Append the property list bytes.
pub fn put_properties(out: &mut Vec<u8>, p: &Properties)
    requires
        wf_properties(*p),
    ensures
        final(out)@ == old(out)@ + props_bytes(*p),
{
    let ghost base = out@;
    let ghost t1 = opt_ss_bytes(p.content_type);
    let ghost t2 = opt_ss_bytes(p.content_encoding);
    let ghost t3 = opt_table_bytes(p.headers);
    let ghost t4 = opt_u8_bytes(p.delivery_mode);
    let ghost t5 = opt_u8_bytes(p.priority);
    let ghost t6 = opt_ss_bytes(p.correlation_id);
    let ghost t7 = opt_ss_bytes(p.reply_to);
    let ghost t8 = opt_ss_bytes(p.expiration);
    let ghost t9 = opt_ss_bytes(p.message_id);
    let ghost t10 = opt_u64_bytes(p.timestamp);
    let ghost t11 = opt_ss_bytes(p.message_type);
    let ghost t12 = opt_ss_bytes(p.user_id);
    let ghost t13 = opt_ss_bytes(p.app_id);
    let ghost t14 = opt_ss_bytes(p.cluster_id);
    put_opt_ss(out, &p.content_type);
    put_opt_ss(out, &p.content_encoding);
    proof {
        lemma_concat_assoc(base, t1, t2);
        assert(out@ == base + (t1 + t2));
    }
    match &p.headers {
        Some(t) => put_table(out, t),
        None => {
            assert(out@ + t3 =~= out@);
        },
    }
    proof {
        lemma_concat_assoc(base, t1 + t2, t3);
        assert(out@ == base + (t1 + t2 + t3));
    }
    put_opt_u8(out, &p.delivery_mode);
    proof {
        lemma_concat_assoc(base, t1 + t2 + t3, t4);
        assert(out@ == base + (t1 + t2 + t3 + t4));
    }
    put_opt_u8(out, &p.priority);
    proof {
        lemma_concat_assoc(base, t1 + t2 + t3 + t4, t5);
        assert(out@ == base + (t1 + t2 + t3 + t4 + t5));
    }
    put_opt_ss(out, &p.correlation_id);
    proof {
        lemma_concat_assoc(base, t1 + t2 + t3 + t4 + t5, t6);
        assert(out@ == base + (t1 + t2 + t3 + t4 + t5 + t6));
    }
    put_opt_ss(out, &p.reply_to);
    proof {
        lemma_concat_assoc(base, t1 + t2 + t3 + t4 + t5 + t6, t7);
        assert(out@ == base + (t1 + t2 + t3 + t4 + t5 + t6 + t7));
    }
    put_opt_ss(out, &p.expiration);
    proof {
        lemma_concat_assoc(base, t1 + t2 + t3 + t4 + t5 + t6 + t7, t8);
        assert(out@ == base + (t1 + t2 + t3 + t4 + t5 + t6 + t7 + t8));
    }
    put_opt_ss(out, &p.message_id);
    proof {
        lemma_concat_assoc(base, t1 + t2 + t3 + t4 + t5 + t6 + t7 + t8, t9);
        assert(out@ == base + (t1 + t2 + t3 + t4 + t5 + t6 + t7 + t8 + t9));
    }
    match &p.timestamp {
        Some(x) => put_u64(out, *x),
        None => {
            assert(out@ + t10 =~= out@);
        },
    }
    proof {
        lemma_concat_assoc(base, t1 + t2 + t3 + t4 + t5 + t6 + t7 + t8 + t9, t10);
        assert(out@ == base + (t1 + t2 + t3 + t4 + t5 + t6 + t7 + t8 + t9 + t10));
    }
    put_opt_ss(out, &p.message_type);
    proof {
        lemma_concat_assoc(base, t1 + t2 + t3 + t4 + t5 + t6 + t7 + t8 + t9 + t10, t11);
        assert(out@ == base + (t1 + t2 + t3 + t4 + t5 + t6 + t7 + t8 + t9 + t10 + t11));
    }
    put_opt_ss(out, &p.user_id);
    proof {
        lemma_concat_assoc(base, t1 + t2 + t3 + t4 + t5 + t6 + t7 + t8 + t9 + t10 + t11, t12);
        assert(out@ == base + (t1 + t2 + t3 + t4 + t5 + t6 + t7 + t8 + t9 + t10 + t11 + t12));
    }
    put_opt_ss(out, &p.app_id);
    proof {
        lemma_concat_assoc(
            base,
            t1 + t2 + t3 + t4 + t5 + t6 + t7 + t8 + t9 + t10 + t11 + t12,
            t13,
        );
        assert(out@ == base + (t1 + t2 + t3 + t4 + t5 + t6 + t7 + t8 + t9 + t10 + t11 + t12
            + t13));
    }
    put_opt_ss(out, &p.cluster_id);
    proof {
        lemma_concat_assoc(
            base,
            t1 + t2 + t3 + t4 + t5 + t6 + t7 + t8 + t9 + t10 + t11 + t12 + t13,
            t14,
        );
        assert(out@ == base + (t1 + t2 + t3 + t4 + t5 + t6 + t7 + t8 + t9 + t10 + t11 + t12 + t13
            + t14));
    }
}


/// Read a short-string property if its flag is set.
fn get_opt_ss(buf: &[u8], pos: usize, present: bool) -> (r: Option<(Option<Vec<u8>>, usize)>)
    requires
        pos <= buf@.len(),
    ensures
        match r {
            Some(t) => {
                &&& (t.0 is Some <==> present)
                &&& pos <= t.1 <= buf@.len()
                &&& (t.0 is Some ==> t.0->0@.len() <= 255)
                &&& buf@.subrange(pos as int, t.1 as int) == opt_ss_bytes(t.0)
            },
            None => true,
        },
{
    if !present {
        let o: Option<Vec<u8>> = None;
        assert(buf@.subrange(pos as int, pos as int) =~= opt_ss_bytes(o));
        return Some((o, pos));
    }
    match crate::value::get_short_str(buf, pos) {
        Some((v, q)) => Some((Some(v), q)),
        None => None,
    }
}

/// Read a one-byte property if its flag is set.
fn get_opt_u8(buf: &[u8], pos: usize, present: bool) -> (r: Option<(Option<u8>, usize)>)
    requires
        pos <= buf@.len(),
    ensures
        match r {
            Some(t) => {
                &&& (t.0 is Some <==> present)
                &&& pos <= t.1 <= buf@.len()
                &&& buf@.subrange(pos as int, t.1 as int) == opt_u8_bytes(t.0)
            },
            None => true,
        },
{
    if !present {
        let o: Option<u8> = None;
        assert(buf@.subrange(pos as int, pos as int) =~= opt_u8_bytes(o));
        return Some((o, pos));
    }
    match crate::value::get_u8(buf, pos) {
        Some((x, q)) => {
            assert(buf@.subrange(pos as int, q as int) =~= opt_u8_bytes(Some(x)));
            Some((Some(x), q))
        },
        None => None,
    }
}

/// Read an eight-byte property if its flag is set.
fn get_opt_u64(buf: &[u8], pos: usize, present: bool) -> (r: Option<(Option<u64>, usize)>)
    requires
        pos <= buf@.len(),
    ensures
        match r {
            Some(t) => {
                &&& (t.0 is Some <==> present)
                &&& pos <= t.1 <= buf@.len()
                &&& buf@.subrange(pos as int, t.1 as int) == opt_u64_bytes(t.0)
            },
            None => true,
        },
{
    if !present {
        let o: Option<u64> = None;
        assert(buf@.subrange(pos as int, pos as int) =~= opt_u64_bytes(o));
        return Some((o, pos));
    }
    match crate::value::get_u64(buf, pos) {
        Some((x, q)) => Some((Some(x), q)),
        None => None,
    }
}

/// Read a table property if its flag is set.
fn get_opt_table(buf: &[u8], pos: usize, present: bool) -> (r: Option<
    (Option<Vec<crate::value::TableEntry>>, usize),
>)
    requires
        pos <= buf@.len(),
    ensures
        match r {
            Some(t) => {
                &&& (t.0 is Some <==> present)
                &&& pos <= t.1 <= buf@.len()
                &&& (t.0 is Some ==> crate::value::wf_table(t.0->0@))
                &&& buf@.subrange(pos as int, t.1 as int) == opt_table_bytes(t.0)
            },
            None => true,
        },
{
    if !present {
        let o: Option<Vec<crate::value::TableEntry>> = None;
        assert(buf@.subrange(pos as int, pos as int) =~= opt_table_bytes(o));
        return Some((o, pos));
    }
    match crate::value::get_table(buf, pos) {
        Some((t, q)) => Some((Some(t), q)),
        None => None,
    }
}

/// Decode the property list named by the flag bitmap: each flagged
/// property is read in catalogue order. A successful read hands back
/// well-formed properties whose presence matches the bitmap.
pub fn decode_props(buf: &[u8], pos: usize, flags: u16) -> (r: Option<(Properties, usize)>)
    requires
        pos <= buf@.len(),
    ensures
        match r {
            Some(t) => {
                &&& pos <= t.1 <= buf@.len()
                &&& wf_properties(t.0)
                &&& flags_match(flags, t.0)
            },
            None => true,
        },
{
    let (content_type, q1) = match get_opt_ss(buf, pos, flag_bit_of(flags, 0x8000)) {
        Some(t) => t,
        None => { return None },
    };
    let (content_encoding, q2) = match get_opt_ss(buf, q1, flag_bit_of(flags, 0x4000)) {
        Some(t) => t,
        None => { return None },
    };
    let (headers, q3) = match get_opt_table(buf, q2, flag_bit_of(flags, 0x2000)) {
        Some(t) => t,
        None => { return None },
    };
    let (delivery_mode, q4) = match get_opt_u8(buf, q3, flag_bit_of(flags, 0x1000)) {
        Some(t) => t,
        None => { return None },
    };
    let (priority, q5) = match get_opt_u8(buf, q4, flag_bit_of(flags, 0x800)) {
        Some(t) => t,
        None => { return None },
    };
    let (correlation_id, q6) = match get_opt_ss(buf, q5, flag_bit_of(flags, 0x400)) {
        Some(t) => t,
        None => { return None },
    };
    let (reply_to, q7) = match get_opt_ss(buf, q6, flag_bit_of(flags, 0x200)) {
        Some(t) => t,
        None => { return None },
    };
    let (expiration, q8) = match get_opt_ss(buf, q7, flag_bit_of(flags, 0x100)) {
        Some(t) => t,
        None => { return None },
    };
    let (message_id, q9) = match get_opt_ss(buf, q8, flag_bit_of(flags, 0x80)) {
        Some(t) => t,
        None => { return None },
    };
    let (timestamp, q10) = match get_opt_u64(buf, q9, flag_bit_of(flags, 0x40)) {
        Some(t) => t,
        None => { return None },
    };
    let (message_type, q11) = match get_opt_ss(buf, q10, flag_bit_of(flags, 0x20)) {
        Some(t) => t,
        None => { return None },
    };
    let (user_id, q12) = match get_opt_ss(buf, q11, flag_bit_of(flags, 0x10)) {
        Some(t) => t,
        None => { return None },
    };
    let (app_id, q13) = match get_opt_ss(buf, q12, flag_bit_of(flags, 0x8)) {
        Some(t) => t,
        None => { return None },
    };
    let (cluster_id, q14) = match get_opt_ss(buf, q13, flag_bit_of(flags, 0x4)) {
        Some(t) => t,
        None => { return None },
    };
    let p = Properties {
        content_type,
        content_encoding,
        headers,
        delivery_mode,
        priority,
        correlation_id,
        reply_to,
        expiration,
        message_id,
        timestamp,
        message_type,
        user_id,
        app_id,
        cluster_id,
    };
    Some((p, q14))
}

} // verus!

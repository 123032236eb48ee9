//! The framing codec: frames to bytes and bytes to frames.
//!
//! The wire grammar is fixed by `frame_bytes`: every frame is its type
//! byte, a channel, a four-byte payload length, the payload, and the
//! terminator byte `0xCE`; the protocol header is its own eight bytes.
//! Method arguments are positionally typed, and consecutive boolean
//! arguments are bit-packed, low-order bit first, eight to a byte.
//!
//! `encode_frame` produces exactly `frame_bytes`; a successful
//! `decode_frame` returns a frame whose `frame_bytes` is exactly the
//! consumed prefix of the input, so decoding inverts encoding.

use vstd::prelude::*;
use crate::value::FieldValue;
use crate::value::wf_field_value;
use crate::value::wf_table;
use crate::value::be2;
use crate::value::be4;
use crate::value::be8;
use crate::value::short_str_bytes;
use crate::value::long_str_bytes;
use crate::value::table_bytes;
use crate::value::put_u8;
use crate::value::get_u8;
use crate::value::get_u16;
use crate::value::get_u32;
use crate::value::get_u64;
use crate::value::get_short_str;
use crate::value::get_long_str;
use crate::value::get_table;
use crate::value::put_u16;
use crate::value::put_u32;
use crate::value::put_u64;
use crate::value::put_short_str;
use crate::value::put_long_str;
use crate::value::put_table;
use crate::value::i8_bits;
use crate::value::i16_bits;
use crate::value::i32_bits;
use crate::value::i64_bits;
use crate::value::bits_of_i8;
use crate::value::bits_of_i16;
use crate::value::bits_of_i32;
use crate::value::bits_of_i64;
use crate::frame::Frame;
use crate::frame::ContentHeader;
use crate::frame::Properties;
use crate::frame::wf_frame;
use crate::props::props_bytes;
use crate::props::put_properties;
use crate::frame::CONNECTION_START;
use crate::frame::CONNECTION_START_OK;
use crate::frame::CONNECTION_TUNE;
use crate::frame::CONNECTION_TUNE_OK;
use crate::frame::CONNECTION_OPEN;
use crate::frame::CONNECTION_OPEN_OK;
use crate::frame::CONNECTION_CLOSE;
use crate::frame::CONNECTION_CLOSE_OK;
use crate::frame::CHANNEL_OPEN;
use crate::frame::CHANNEL_OPEN_OK;
use crate::frame::CHANNEL_CLOSE;
use crate::frame::CHANNEL_CLOSE_OK;
use crate::frame::EXCHANGE_DECLARE;
use crate::frame::EXCHANGE_DECLARE_OK;
use crate::frame::QUEUE_DECLARE;
use crate::frame::QUEUE_DECLARE_OK;
use crate::frame::QUEUE_BIND;
use crate::frame::QUEUE_BIND_OK;
use crate::frame::BASIC_CONSUME;
use crate::frame::BASIC_CONSUME_OK;
use crate::frame::BASIC_CANCEL;
use crate::frame::BASIC_CANCEL_OK;
use crate::frame::BASIC_PUBLISH;
use crate::frame::BASIC_DELIVER;
use crate::frame::wf_properties;

verus! {

// ---------------------------------------------------------------------
// Bit packing.
// ---------------------------------------------------------------------

/// The value of a bit sequence read low-order bit first.
pub open spec fn bits_val(bs: Seq<bool>) -> nat
    decreases bs.len(),
{
    if bs.len() == 0 {
        0
    } else {
        (if bs[0] {
            1nat
        } else {
            0nat
        }) + 2 * bits_val(bs.skip(1))
    }
}

/// Two to the given power.
pub open spec fn exp2(n: nat) -> nat
    decreases n,
{
    if n == 0 {
        1
    } else {
        2 * exp2((n - 1) as nat)
    }
}

/// A bit sequence's value is below two to its length.
pub proof fn lemma_bits_val_bound(bs: Seq<bool>)
    ensures
        bits_val(bs) < exp2(bs.len()),
    decreases bs.len(),
{
    if bs.len() > 0 {
        lemma_bits_val_bound(bs.skip(1));
    }
}

/// How many leading values of the list are booleans.
pub open spec fn leading_bools(s: Seq<FieldValue>) -> nat
    decreases s.len(),
{
    if s.len() == 0 || !(s[0] is Bool) {
        0
    } else {
        1 + leading_bools(s.skip(1))
    }
}

/// The length of the bit run packed into the next byte: at most eight
/// consecutive booleans.
pub open spec fn bit_run(s: Seq<FieldValue>) -> nat {
    if leading_bools(s) < 8 {
        leading_bools(s)
    } else {
        8
    }
}

/// The booleans carried by the first `n` values of the list.
pub open spec fn bools_prefix(s: Seq<FieldValue>, n: nat) -> Seq<bool> {
    Seq::new(n, |m: int| s[m]->Bool_0)
}

/// The leading-boolean count equals the longest all-boolean prefix.
pub proof fn lemma_leading_bools(s: Seq<FieldValue>, n: nat)
    requires
        n <= s.len(),
        forall|m: int| 0 <= m < n ==> s[m] is Bool,
        n == s.len() || !(s[n as int] is Bool),
    ensures
        leading_bools(s) == n,
    decreases n,
{
    if n == 0 {
    } else {
        assert(s[0] is Bool);
        lemma_leading_bools(s.skip(1), (n - 1) as nat);
    }
}

/// A prefix of leading booleans bounds the count from below.
pub proof fn lemma_leading_bools_at_least(s: Seq<FieldValue>, n: nat)
    requires
        n <= s.len(),
        forall|m: int| 0 <= m < n ==> s[m] is Bool,
    ensures
        leading_bools(s) >= n,
    decreases n,
{
    if n > 0 {
        assert(s[0] is Bool);
        lemma_leading_bools_at_least(s.skip(1), (n - 1) as nat);
    }
}

// ---------------------------------------------------------------------
// The byte image of a method argument list.
// ---------------------------------------------------------------------

/// The positional byte image of one non-boolean value (no type letter).
/// A lone boolean byte never appears on the wire: booleans go through
/// the bit-packing rule of `args_bytes`.
pub open spec fn plain_value_bytes(v: FieldValue) -> Seq<u8> {
    match v {
        FieldValue::Bool(b) => seq![
            if b {
                1u8
            } else {
                0u8
            },
        ],
        FieldValue::U8(x) => seq![x],
        FieldValue::U16(x) => be2(x),
        FieldValue::U32(x) => be4(x),
        FieldValue::U64(x) => be8(x),
        FieldValue::I8(x) => seq![bits_of_i8(x)],
        FieldValue::I16(x) => be2(bits_of_i16(x)),
        FieldValue::I32(x) => be4(bits_of_i32(x)),
        FieldValue::I64(x) => be8(bits_of_i64(x)),
        FieldValue::SimpleString(s) => short_str_bytes(s@),
        FieldValue::LongString(s) => long_str_bytes(s@),
        FieldValue::Timestamp(x) => be8(x),
        FieldValue::Table(t) => table_bytes(t@),
    }
}

/// The byte image of a whole argument list, with consecutive booleans
/// bit-packed eight to a byte, low-order bit first.
pub open spec fn args_bytes(s: Seq<FieldValue>) -> Seq<u8>
    decreases s.len(),
    via args_bytes_decreases
{
    if s.len() == 0 {
        Seq::empty()
    } else if s[0] is Bool {
        seq![bits_val(bools_prefix(s, bit_run(s))) as u8] + args_bytes(s.skip(bit_run(s) as int))
    } else {
        plain_value_bytes(s[0]) + args_bytes(s.skip(1))
    }
}

#[via_fn]
proof fn args_bytes_decreases(s: Seq<FieldValue>) {
    if s.len() > 0 && s[0] is Bool {
        lemma_leading_bools_le(s);
        assert(leading_bools(s) >= 1);
    }
}

/// There are no more leading booleans than values.
pub proof fn lemma_leading_bools_le(s: Seq<FieldValue>)
    ensures
        leading_bools(s) <= s.len(),
    decreases s.len(),
{
    if s.len() > 0 && s[0] is Bool {
        lemma_leading_bools_le(s.skip(1));
    }
}

/// Append the positional image of one non-boolean value.
fn put_plain_value(out: &mut Vec<u8>, v: &FieldValue)
    requires
        wf_field_value(*v),
    ensures
        final(out)@ == old(out)@ + plain_value_bytes(*v),
{
    match v {
        FieldValue::Bool(b) => {
            put_u8(
                out,
                if *b {
                    1
                } else {
                    0
                },
            );
        },
        FieldValue::U8(x) => {
            put_u8(out, *x);
        },
        FieldValue::U16(x) => {
            put_u16(out, *x);
        },
        FieldValue::U32(x) => {
            put_u32(out, *x);
        },
        FieldValue::U64(x) => {
            put_u64(out, *x);
        },
        FieldValue::I8(x) => {
            put_u8(out, i8_bits(*x));
        },
        FieldValue::I16(x) => {
            put_u16(out, i16_bits(*x));
        },
        FieldValue::I32(x) => {
            put_u32(out, i32_bits(*x));
        },
        FieldValue::I64(x) => {
            put_u64(out, i64_bits(*x));
        },
        FieldValue::SimpleString(s) => {
            put_short_str(out, s);
        },
        FieldValue::LongString(s) => {
            put_long_str(out, s);
        },
        FieldValue::Timestamp(x) => {
            put_u64(out, *x);
        },
        FieldValue::Table(t) => {
            put_table(out, t);
        },
    }
    assert(final(out)@ =~= old(out)@ + plain_value_bytes(*v));
}

/// Whether the bit run reaching from `i` to just before `i + n` goes on.
fn bool_run_continues(args: &Vec<FieldValue>, i: usize, n: usize) -> (r: bool)
    requires
        i + n <= args@.len(),
    ensures
        r == (i + n < args@.len() && n < 8 && args@[i + n] is Bool),
{
    if n >= 8 || args.len() - i == n {
        false
    } else {
        match &args[i + n] {
            FieldValue::Bool(_) => true,
            _ => false,
        }
    }
}

/// Append the image of the argument list from index `i` on.
fn put_args_from(out: &mut Vec<u8>, args: &Vec<FieldValue>, i: usize)
    requires
        i <= args@.len(),
        forall|k: int| 0 <= k < args@.len() ==> wf_field_value(args@[k]),
    ensures
        final(out)@ == old(out)@ + args_bytes(args@.skip(i as int)),
    decreases args@.len() - i,
{
    if i == args.len() {
        assert(args@.skip(i as int) =~= Seq::<FieldValue>::empty());
        return ;
    }
    let is_bool = match &args[i] {
        FieldValue::Bool(_) => true,
        _ => false,
    };
    if is_bool {
        // Count the run of consecutive booleans, at most eight.
        let mut n: usize = 0;
        while bool_run_continues(args, i, n)
            invariant
                i < args@.len(),
                i + n <= args@.len(),
                n <= 8,
                args@[i as int] is Bool,
                forall|m: int| 0 <= m < n ==> args@[#[trigger] (i + m)] is Bool,
            decreases 8 - n,
        {
            n = n + 1;
        }
        proof {
            let tail = args@.skip(i as int);
            assert forall|m: int| 0 <= m < n implies tail[m] is Bool by {
                assert(args@[i as int + m] is Bool);
            };
            if n < 8 {
                assert(n == tail.len() || !(tail[n as int] is Bool));
                lemma_leading_bools(tail, n as nat);
            } else {
                lemma_leading_bools_at_least(tail, 8);
            }
            assert(bit_run(tail) == n);
            assert(bools_prefix(tail, n as nat).skip(n as int) =~= Seq::<bool>::empty());
        }
        // Pack the run into one byte, low-order bit first.
        let mut byte: u8 = 0;
        let mut k: usize = n;
        while k > 0
            invariant
                k <= n,
                n <= 8,
                i + n <= args@.len(),
                args@.len() <= usize::MAX as int,
                forall|m: int| 0 <= m < n ==> args@[#[trigger] (i + m)] is Bool,
                byte == bits_val(bools_prefix(args@.skip(i as int), n as nat).skip(k as int)),
                byte < exp2((n - k) as nat),
            decreases k,
        {
            k = k - 1;
            proof {
                assert(args@[i as int + k] is Bool);
                assert(i + k < args@.len());
            }
            let b = match &args[i + k] {
                FieldValue::Bool(b) => *b,
                _ => false,
            };
            proof {
                let bools = bools_prefix(args@.skip(i as int), n as nat);
                lemma_exp2_le((n - k - 1) as nat, 7);
                reveal_with_fuel(exp2, 9);
                assert(byte <= 127);
                assert(bools.skip(k as int)[0] == args@.skip(i as int)[k as int]->Bool_0);
                assert(bools.skip(k as int)[0] == b);
                assert(bools.skip(k as int).skip(1) =~= bools.skip(k as int + 1));
            }
            byte = (if b {
                1
            } else {
                0
            }) + 2 * byte;
            proof {
                let bools = bools_prefix(args@.skip(i as int), n as nat);
                assert(bits_val(bools.skip(k as int)) == (if b {
                    1nat
                } else {
                    0nat
                }) + 2 * bits_val(bools.skip(k as int + 1)));
                assert(exp2((n - k) as nat) == 2 * exp2((n - k - 1) as nat));
            }
        }
        put_u8(out, byte);
        put_args_from(out, args, i + n);
        proof {
            let tail = args@.skip(i as int);
            assert(bools_prefix(tail, n as nat).skip(0) =~= bools_prefix(tail, n as nat));
            assert(tail.skip(n as int) =~= args@.skip(i + n));
            assert(args_bytes(tail) == seq![bits_val(bools_prefix(tail, bit_run(tail))) as u8]
                + args_bytes(tail.skip(bit_run(tail) as int)));
            assert(final(out)@ =~= old(out)@ + args_bytes(args@.skip(i as int)));
        }
    } else {
        put_plain_value(out, &args[i]);
        put_args_from(out, args, i + 1);
        proof {
            let tail = args@.skip(i as int);
            assert(tail[0] == args@[i as int]);
            assert(tail.skip(1) =~= args@.skip(i + 1));
            assert(final(out)@ =~= old(out)@ + args_bytes(args@.skip(i as int)));
        }
    }
}

/// `exp2` is monotone, stated through fixed bounds.
proof fn lemma_exp2_le(a: nat, b: nat)
    requires
        a <= b,
    ensures
        exp2(a) <= exp2(b),
    decreases b,
{
    if a < b && b > 0 {
        lemma_exp2_le(a, (b - 1) as nat);
    }
}

/// Append the image of a whole argument list.
pub fn put_args(out: &mut Vec<u8>, args: &Vec<FieldValue>)
    requires
        forall|k: int| 0 <= k < args@.len() ==> wf_field_value(args@[k]),
    ensures
        final(out)@ == old(out)@ + args_bytes(args@),
{
    put_args_from(out, args, 0);
    assert(args@.skip(0) =~= args@);
}

// ---------------------------------------------------------------------
// The method catalogue: the argument shape list of each known method.
// ---------------------------------------------------------------------

/// The positional type of one method argument on the wire.
pub enum ArgShape {
    /// An unsigned byte.
    Octet,
    /// A 16-bit unsigned integer.
    Short,
    /// A 32-bit unsigned integer.
    Long,
    /// A 64-bit unsigned integer.
    LongLong,
    /// A short string.
    ShortStr,
    /// A long string.
    LongStr,
    /// One packed bit.
    Bit,
    /// A field table.
    Table,
}

/// The argument shapes of each method in the catalogue, or `None` for a
/// class-method id outside it.
pub open spec fn spec_method_shapes(cm: u32) -> Option<Seq<ArgShape>> {
    if cm == CONNECTION_START {
        Some(seq![ArgShape::Octet, ArgShape::Octet, ArgShape::Table, ArgShape::LongStr, ArgShape::LongStr])
    } else if cm == CONNECTION_START_OK {
        Some(seq![ArgShape::Table, ArgShape::ShortStr, ArgShape::LongStr, ArgShape::ShortStr])
    } else if cm == CONNECTION_TUNE {
        Some(seq![ArgShape::Short, ArgShape::Long, ArgShape::Short])
    } else if cm == CONNECTION_TUNE_OK {
        Some(seq![ArgShape::Short, ArgShape::Long, ArgShape::Short])
    } else if cm == CONNECTION_OPEN {
        Some(seq![ArgShape::ShortStr, ArgShape::ShortStr, ArgShape::Bit])
    } else if cm == CONNECTION_OPEN_OK {
        Some(seq![ArgShape::ShortStr])
    } else if cm == CONNECTION_CLOSE {
        Some(seq![ArgShape::Short, ArgShape::ShortStr, ArgShape::Short, ArgShape::Short])
    } else if cm == CONNECTION_CLOSE_OK {
        Some(Seq::empty())
    } else if cm == CHANNEL_OPEN {
        Some(seq![ArgShape::ShortStr])
    } else if cm == CHANNEL_OPEN_OK {
        Some(seq![ArgShape::LongStr])
    } else if cm == CHANNEL_CLOSE {
        Some(seq![ArgShape::Short, ArgShape::ShortStr, ArgShape::Short, ArgShape::Short])
    } else if cm == CHANNEL_CLOSE_OK {
        Some(Seq::empty())
    } else if cm == EXCHANGE_DECLARE {
        Some(seq![ArgShape::Short, ArgShape::ShortStr, ArgShape::ShortStr, ArgShape::Bit, ArgShape::Bit, ArgShape::Bit, ArgShape::Bit, ArgShape::Bit, ArgShape::Table])
    } else if cm == EXCHANGE_DECLARE_OK {
        Some(Seq::empty())
    } else if cm == QUEUE_DECLARE {
        Some(seq![ArgShape::Short, ArgShape::ShortStr, ArgShape::Bit, ArgShape::Bit, ArgShape::Bit, ArgShape::Bit, ArgShape::Bit, ArgShape::Table])
    } else if cm == QUEUE_DECLARE_OK {
        Some(seq![ArgShape::ShortStr, ArgShape::Long, ArgShape::Long])
    } else if cm == QUEUE_BIND {
        Some(seq![ArgShape::Short, ArgShape::ShortStr, ArgShape::ShortStr, ArgShape::ShortStr, ArgShape::Bit, ArgShape::Table])
    } else if cm == QUEUE_BIND_OK {
        Some(Seq::empty())
    } else if cm == BASIC_CONSUME {
        Some(seq![ArgShape::Short, ArgShape::ShortStr, ArgShape::ShortStr, ArgShape::Bit, ArgShape::Bit, ArgShape::Bit, ArgShape::Bit, ArgShape::Table])
    } else if cm == BASIC_CONSUME_OK {
        Some(seq![ArgShape::ShortStr])
    } else if cm == BASIC_CANCEL {
        Some(seq![ArgShape::ShortStr, ArgShape::Bit])
    } else if cm == BASIC_CANCEL_OK {
        Some(seq![ArgShape::ShortStr])
    } else if cm == BASIC_PUBLISH {
        Some(seq![ArgShape::Short, ArgShape::ShortStr, ArgShape::ShortStr, ArgShape::Bit, ArgShape::Bit])
    } else if cm == BASIC_DELIVER {
        Some(seq![ArgShape::ShortStr, ArgShape::LongLong, ArgShape::Bit, ArgShape::ShortStr, ArgShape::ShortStr])
    } else {
        None
    }
}

/// The argument shapes of a method, as the decoder uses them.
pub fn method_shapes(cm: u32) -> (r: Option<Vec<ArgShape>>)
    ensures
        match r {
            Some(v) => spec_method_shapes(cm) == Some(v@),
            None => spec_method_shapes(cm) is None,
        },
{
    let mut v: Vec<ArgShape> = Vec::new();
    if cm == CONNECTION_START {
        v.push(ArgShape::Octet);
        v.push(ArgShape::Octet);
        v.push(ArgShape::Table);
        v.push(ArgShape::LongStr);
        v.push(ArgShape::LongStr);
        assert(v@ =~= seq![ArgShape::Octet, ArgShape::Octet, ArgShape::Table, ArgShape::LongStr, ArgShape::LongStr]);
        Some(v)
    } else if cm == CONNECTION_START_OK {
        v.push(ArgShape::Table);
        v.push(ArgShape::ShortStr);
        v.push(ArgShape::LongStr);
        v.push(ArgShape::ShortStr);
        assert(v@ =~= seq![ArgShape::Table, ArgShape::ShortStr, ArgShape::LongStr, ArgShape::ShortStr]);
        Some(v)
    } else if cm == CONNECTION_TUNE {
        v.push(ArgShape::Short);
        v.push(ArgShape::Long);
        v.push(ArgShape::Short);
        assert(v@ =~= seq![ArgShape::Short, ArgShape::Long, ArgShape::Short]);
        Some(v)
    } else if cm == CONNECTION_TUNE_OK {
        v.push(ArgShape::Short);
        v.push(ArgShape::Long);
        v.push(ArgShape::Short);
        assert(v@ =~= seq![ArgShape::Short, ArgShape::Long, ArgShape::Short]);
        Some(v)
    } else if cm == CONNECTION_OPEN {
        v.push(ArgShape::ShortStr);
        v.push(ArgShape::ShortStr);
        v.push(ArgShape::Bit);
        assert(v@ =~= seq![ArgShape::ShortStr, ArgShape::ShortStr, ArgShape::Bit]);
        Some(v)
    } else if cm == CONNECTION_OPEN_OK {
        v.push(ArgShape::ShortStr);
        assert(v@ =~= seq![ArgShape::ShortStr]);
        Some(v)
    } else if cm == CONNECTION_CLOSE {
        v.push(ArgShape::Short);
        v.push(ArgShape::ShortStr);
        v.push(ArgShape::Short);
        v.push(ArgShape::Short);
        assert(v@ =~= seq![ArgShape::Short, ArgShape::ShortStr, ArgShape::Short, ArgShape::Short]);
        Some(v)
    } else if cm == CONNECTION_CLOSE_OK {
        assert(v@ =~= Seq::<ArgShape>::empty());
        Some(v)
    } else if cm == CHANNEL_OPEN {
        v.push(ArgShape::ShortStr);
        assert(v@ =~= seq![ArgShape::ShortStr]);
        Some(v)
    } else if cm == CHANNEL_OPEN_OK {
        v.push(ArgShape::LongStr);
        assert(v@ =~= seq![ArgShape::LongStr]);
        Some(v)
    } else if cm == CHANNEL_CLOSE {
        v.push(ArgShape::Short);
        v.push(ArgShape::ShortStr);
        v.push(ArgShape::Short);
        v.push(ArgShape::Short);
        assert(v@ =~= seq![ArgShape::Short, ArgShape::ShortStr, ArgShape::Short, ArgShape::Short]);
        Some(v)
    } else if cm == CHANNEL_CLOSE_OK {
        assert(v@ =~= Seq::<ArgShape>::empty());
        Some(v)
    } else if cm == EXCHANGE_DECLARE {
        v.push(ArgShape::Short);
        v.push(ArgShape::ShortStr);
        v.push(ArgShape::ShortStr);
        v.push(ArgShape::Bit);
        v.push(ArgShape::Bit);
        v.push(ArgShape::Bit);
        v.push(ArgShape::Bit);
        v.push(ArgShape::Bit);
        v.push(ArgShape::Table);
        assert(v@ =~= seq![ArgShape::Short, ArgShape::ShortStr, ArgShape::ShortStr, ArgShape::Bit, ArgShape::Bit, ArgShape::Bit, ArgShape::Bit, ArgShape::Bit, ArgShape::Table]);
        Some(v)
    } else if cm == EXCHANGE_DECLARE_OK {
        assert(v@ =~= Seq::<ArgShape>::empty());
        Some(v)
    } else if cm == QUEUE_DECLARE {
        v.push(ArgShape::Short);
        v.push(ArgShape::ShortStr);
        v.push(ArgShape::Bit);
        v.push(ArgShape::Bit);
        v.push(ArgShape::Bit);
        v.push(ArgShape::Bit);
        v.push(ArgShape::Bit);
        v.push(ArgShape::Table);
        assert(v@ =~= seq![ArgShape::Short, ArgShape::ShortStr, ArgShape::Bit, ArgShape::Bit, ArgShape::Bit, ArgShape::Bit, ArgShape::Bit, ArgShape::Table]);
        Some(v)
    } else if cm == QUEUE_DECLARE_OK {
        v.push(ArgShape::ShortStr);
        v.push(ArgShape::Long);
        v.push(ArgShape::Long);
        assert(v@ =~= seq![ArgShape::ShortStr, ArgShape::Long, ArgShape::Long]);
        Some(v)
    } else if cm == QUEUE_BIND {
        v.push(ArgShape::Short);
        v.push(ArgShape::ShortStr);
        v.push(ArgShape::ShortStr);
        v.push(ArgShape::ShortStr);
        v.push(ArgShape::Bit);
        v.push(ArgShape::Table);
        assert(v@ =~= seq![ArgShape::Short, ArgShape::ShortStr, ArgShape::ShortStr, ArgShape::ShortStr, ArgShape::Bit, ArgShape::Table]);
        Some(v)
    } else if cm == QUEUE_BIND_OK {
        assert(v@ =~= Seq::<ArgShape>::empty());
        Some(v)
    } else if cm == BASIC_CONSUME {
        v.push(ArgShape::Short);
        v.push(ArgShape::ShortStr);
        v.push(ArgShape::ShortStr);
        v.push(ArgShape::Bit);
        v.push(ArgShape::Bit);
        v.push(ArgShape::Bit);
        v.push(ArgShape::Bit);
        v.push(ArgShape::Table);
        assert(v@ =~= seq![ArgShape::Short, ArgShape::ShortStr, ArgShape::ShortStr, ArgShape::Bit, ArgShape::Bit, ArgShape::Bit, ArgShape::Bit, ArgShape::Table]);
        Some(v)
    } else if cm == BASIC_CONSUME_OK {
        v.push(ArgShape::ShortStr);
        assert(v@ =~= seq![ArgShape::ShortStr]);
        Some(v)
    } else if cm == BASIC_CANCEL {
        v.push(ArgShape::ShortStr);
        v.push(ArgShape::Bit);
        assert(v@ =~= seq![ArgShape::ShortStr, ArgShape::Bit]);
        Some(v)
    } else if cm == BASIC_CANCEL_OK {
        v.push(ArgShape::ShortStr);
        assert(v@ =~= seq![ArgShape::ShortStr]);
        Some(v)
    } else if cm == BASIC_PUBLISH {
        v.push(ArgShape::Short);
        v.push(ArgShape::ShortStr);
        v.push(ArgShape::ShortStr);
        v.push(ArgShape::Bit);
        v.push(ArgShape::Bit);
        assert(v@ =~= seq![ArgShape::Short, ArgShape::ShortStr, ArgShape::ShortStr, ArgShape::Bit, ArgShape::Bit]);
        Some(v)
    } else if cm == BASIC_DELIVER {
        v.push(ArgShape::ShortStr);
        v.push(ArgShape::LongLong);
        v.push(ArgShape::Bit);
        v.push(ArgShape::ShortStr);
        v.push(ArgShape::ShortStr);
        assert(v@ =~= seq![ArgShape::ShortStr, ArgShape::LongLong, ArgShape::Bit, ArgShape::ShortStr, ArgShape::ShortStr]);
        Some(v)
    } else {
        None
    }
}

// ---------------------------------------------------------------------
// Whole frames.
// ---------------------------------------------------------------------

/// The eight bytes of the protocol header: `AMQP` then 0 0 9 1.
pub open spec fn protocol_header_bytes() -> Seq<u8> {
    seq![0x41u8, 0x4du8, 0x51u8, 0x50u8, 0u8, 0u8, 9u8, 1u8]
}

/// The wire type byte of a frame.
pub open spec fn frame_type_byte(f: Frame) -> u8 {
    match f {
        Frame::Header => 0,
        Frame::Method(_, _, _) => 1,
        Frame::ContentHeader(_) => 2,
        Frame::ContentBody(_, _) => 3,
        Frame::Heartbeat(_) => 8,
    }
}

/// The channel a frame addresses; the protocol header has none.
pub open spec fn frame_channel(f: Frame) -> u16 {
    match f {
        Frame::Header => 0,
        Frame::Method(ch, _, _) => ch,
        Frame::ContentHeader(h) => h.channel,
        Frame::ContentBody(ch, _) => ch,
        Frame::Heartbeat(ch) => ch,
    }
}

/// The payload bytes of a content header frame.
pub open spec fn header_payload_bytes(h: ContentHeader) -> Seq<u8> {
    be2(h.class_id) + be2(h.weight) + be8(h.body_size) + be2(h.prop_flags)
        + props_bytes(h.properties)
}

/// The payload bytes of a frame, between the length field and the
/// terminator.
pub open spec fn frame_payload_bytes(f: Frame) -> Seq<u8> {
    match f {
        Frame::Header => Seq::empty(),
        Frame::Method(_, cm, args) => be4(cm) + args_bytes(args@),
        Frame::ContentHeader(h) => header_payload_bytes(h),
        Frame::ContentBody(_, b) => b@,
        Frame::Heartbeat(_) => Seq::empty(),
    }
}

/// The payload fits its four-byte length field.
pub open spec fn frame_fits(f: Frame) -> bool {
    frame_payload_bytes(f).len() <= 0xffffffff
}

/// The full wire image of a frame.
pub open spec fn frame_bytes(f: Frame) -> Seq<u8> {
    if f is Header {
        protocol_header_bytes()
    } else {
        seq![frame_type_byte(f)] + be2(frame_channel(f)) + be4(
            frame_payload_bytes(f).len() as u32,
        ) + frame_payload_bytes(f) + seq![0xceu8]
    }
}

/// Encode a frame: the output is exactly `frame_bytes`.
pub fn encode_frame(f: &Frame) -> (out: Vec<u8>)
    requires
        wf_frame(*f),
        frame_fits(*f),
    ensures
        out@ == frame_bytes(*f),
{
    match f {
        Frame::Header => {
            let mut out: Vec<u8> = Vec::new();
            out.push(0x41);
            out.push(0x4d);
            out.push(0x51);
            out.push(0x50);
            out.push(0);
            out.push(0);
            out.push(9);
            out.push(1);
            assert(out@ =~= protocol_header_bytes());
            out
        },
        _ => {
            let mut payload: Vec<u8> = Vec::new();
            let type_byte: u8;
            let channel: u16;
            match f {
                Frame::Header => {
                    type_byte = 0;
                    channel = 0;
                },
                Frame::Method(ch, cm, args) => {
                    type_byte = 1;
                    channel = *ch;
                    put_u32(&mut payload, *cm);
                    put_args(&mut payload, args);
                },
                Frame::ContentHeader(h) => {
                    type_byte = 2;
                    channel = h.channel;
                    put_u16(&mut payload, h.class_id);
                    put_u16(&mut payload, h.weight);
                    put_u64(&mut payload, h.body_size);
                    put_u16(&mut payload, h.prop_flags);
                    put_properties(&mut payload, &h.properties);
                },
                Frame::ContentBody(ch, b) => {
                    type_byte = 3;
                    channel = *ch;
                    payload.extend_from_slice(b.as_slice());
                },
                Frame::Heartbeat(ch) => {
                    type_byte = 8;
                    channel = *ch;
                },
            }
            assert(payload@ == frame_payload_bytes(*f));
            let mut out: Vec<u8> = Vec::new();
            out.push(type_byte);
            put_u16(&mut out, channel);
            put_u32(&mut out, payload.len() as u32);
            out.extend_from_slice(payload.as_slice());
            out.push(0xce);
            assert(out@ =~= frame_bytes(*f));
            out
        },
    }
}


// ---------------------------------------------------------------------
// Decoding.
// ---------------------------------------------------------------------

/// What the decoder found at the head of the buffer.
pub enum DecodeOutcome {
    /// The buffer does not yet hold a whole frame; nothing consumed.
    NeedMore,
    /// One whole frame, and how many bytes it took.
    Decoded(Frame, usize),
    /// The bytes violate the frame grammar; the code is the
    /// connection-level error to raise (501 framing, 502 syntax).
    Failed(u16),
}

/// Appending one bit raises the value by the bit times its weight.
proof fn lemma_bits_val_snoc(bs: Seq<bool>, b: bool)
    ensures
        bits_val(bs.push(b)) == bits_val(bs) + (if b {
            1nat
        } else {
            0nat
        }) * exp2(bs.len()),
    decreases bs.len(),
{
    let w = if b {
        1nat
    } else {
        0nat
    };
    if bs.len() == 0 {
        assert(bs.push(b).skip(1) =~= Seq::<bool>::empty());
        assert(bits_val(bs.push(b)) == w + 2 * bits_val(Seq::<bool>::empty()));
        assert(w * exp2(0) == w) by (nonlinear_arith);
    } else {
        assert(bs.push(b).skip(1) =~= bs.skip(1).push(b));
        lemma_bits_val_snoc(bs.skip(1), b);
        assert(bs.push(b)[0] == bs[0]);
        assert(2 * (bits_val(bs.skip(1)) + w * exp2((bs.len() - 1) as nat)) == 2 * bits_val(bs.skip(1)) + w
            * (2 * exp2((bs.len() - 1) as nat))) by (nonlinear_arith);
        assert(exp2(bs.len()) == 2 * exp2((bs.len() - 1) as nat));
    }
}

/// Read one packed-bit byte and hand back its lowest `n` bits as
/// booleans; the unused high bits must be zero.
fn get_bits(buf: &[u8], pos: usize, n: usize) -> (r: Option<(Vec<FieldValue>, usize)>)
    requires
        pos <= buf@.len(),
        1 <= n <= 8,
    ensures
        match r {
            Some(t) => {
                &&& t.1 == pos + 1
                &&& pos + 1 <= buf@.len()
                &&& t.0@.len() == n
                &&& forall|j: int| 0 <= j < n ==> t.0@[j] is Bool
                &&& buf@.subrange(pos as int, t.1 as int) == seq![
                    bits_val(bools_prefix(t.0@, n as nat)) as u8,
                ]
            },
            None => true,
        },
{
    let (byte, p1) = match get_u8(buf, pos) {
        Some(t) => t,
        None => { return None },
    };
    let mut vs: Vec<FieldValue> = Vec::new();
    let mut acc: u8 = byte;
    let mut m: usize = 0;
    proof {
        assert(bools_prefix(vs@, 0) =~= Seq::<bool>::empty());
        assert(bits_val(Seq::<bool>::empty()) + acc * exp2(0) == byte) by (nonlinear_arith)
            requires
                acc == byte,
        ;
    }
    while m < n
        invariant
            m <= n,
            n <= 8,
            vs@.len() == m,
            forall|j: int| 0 <= j < m ==> vs@[j] is Bool,
            bits_val(bools_prefix(vs@, m as nat)) + acc * exp2(m as nat) == byte,
        decreases n - m,
    {
        let b = acc % 2 == 1;
        proof {
            let bools = bools_prefix(vs@, m as nat);
            lemma_bits_val_snoc(bools, b);
            assert(bools_prefix(vs@.push(FieldValue::Bool(b)), (m + 1) as nat) =~= bools.push(b));
            let w = if b {
                1nat
            } else {
                0nat
            };
            assert(acc == w + 2 * (acc / 2));
            assert((w + 2 * (acc / 2)) * exp2(m as nat) == w * exp2(m as nat) + (acc / 2) * (2
                * exp2(m as nat))) by (nonlinear_arith);
            assert(exp2((m + 1) as nat) == 2 * exp2(m as nat));
            assert((acc / 2) * exp2((m + 1) as nat) == (acc / 2) * (2 * exp2(m as nat)));
        }
        vs.push(FieldValue::Bool(b));
        acc = acc / 2;
        m = m + 1;
    }
    if acc != 0 {
        return None;
    }
    proof {
        assert(acc * exp2(n as nat) == 0) by (nonlinear_arith)
            requires
                acc == 0,
        ;
        assert(bits_val(bools_prefix(vs@, n as nat)) == byte);
        assert(buf@.subrange(pos as int, p1 as int) =~= seq![
            bits_val(bools_prefix(vs@, n as nat)) as u8,
        ]);
    }
    Some((vs, p1))
}

/// Whether the run of `Bit` shapes from `si` to just before `si + n`
/// goes on.
fn bit_shape_run_continues(shapes: &Vec<ArgShape>, si: usize, n: usize) -> (r: bool)
    requires
        si + n <= shapes@.len(),
    ensures
        r == (si + n < shapes@.len() && n < 8 && shapes@[si + n] is Bit),
{
    if n >= 8 || shapes.len() - si == n {
        false
    } else {
        match &shapes[si + n] {
            ArgShape::Bit => true,
            _ => false,
        }
    }
}

/// Decode the arguments for the shapes from `si` on. A successful read
/// hands back values whose byte image is exactly the consumed slice.
#[verifier::rlimit(100)]
fn get_args_from(buf: &[u8], pos: usize, shapes: &Vec<ArgShape>, si: usize) -> (r: Option<
    (Vec<FieldValue>, usize),
>)
    requires
        pos <= buf@.len(),
        si <= shapes@.len(),
    ensures
        match r {
            Some(t) => {
                &&& pos <= t.1 <= buf@.len()
                &&& t.0@.len() == shapes@.len() - si
                &&& (forall|j: int|
                    0 <= j < t.0@.len() ==> wf_field_value(#[trigger] t.0@[j]) && (t.0@[j] is Bool
                        <==> shapes@[si + j] is Bit))
                &&& buf@.subrange(pos as int, t.1 as int) == args_bytes(t.0@)
            },
            None => true,
        },
    decreases shapes@.len() - si,
{
    if si == shapes.len() {
        let vs: Vec<FieldValue> = Vec::new();
        assert(buf@.subrange(pos as int, pos as int) =~= args_bytes(vs@));
        return Some((vs, pos));
    }
    let is_bit = match &shapes[si] {
        ArgShape::Bit => true,
        _ => false,
    };
    if is_bit {
        let mut n: usize = 0;
        while bit_shape_run_continues(shapes, si, n)
            invariant
                si < shapes@.len(),
                si + n <= shapes@.len(),
                n <= 8,
                shapes@[si as int] is Bit,
                forall|m: int| 0 <= m < n ==> shapes@[#[trigger] (si + m)] is Bit,
            decreases 8 - n,
        {
            n = n + 1;
        }
        let (mut vs, p1) = match get_bits(buf, pos, n) {
            Some(t) => t,
            None => { return None },
        };
        let ghost bools = vs@;
        let (mut rest, end) = match get_args_from(buf, p1, shapes, si + n) {
            Some(t) => t,
            None => { return None },
        };
        let ghost restv = rest@;
        vs.append(&mut rest);
        proof {
            assert(vs@ == bools + restv);
            assert forall|j: int| 0 <= j < vs@.len() implies wf_field_value(#[trigger] vs@[j]) && (
            vs@[j] is Bool <==> shapes@[si + j] is Bit) by {
                if j < n {
                    assert(vs@[j] == bools[j]);
                    assert(shapes@[si + (j as int)] is Bit);
                } else {
                    assert(vs@[j] == restv[j - n]);
                    assert(restv[j - n] is Bool <==> shapes@[si + n + (j - n)] is Bit);
                }
            };
            // The packed run is maximal, so `args_bytes` splits here.
            assert forall|m: int| 0 <= m < n implies vs@[m] is Bool by {
                assert(vs@[m] == bools[m]);
            };
            if n < 8 {
                if vs@.len() == n {
                    lemma_leading_bools(vs@, n as nat);
                } else {
                    assert(!(shapes@[si + n] is Bit));
                    assert(vs@[n as int] == restv[0]);
                    assert(!(vs@[n as int] is Bool));
                    lemma_leading_bools(vs@, n as nat);
                }
                assert(leading_bools(vs@) == n);
            } else {
                lemma_leading_bools_at_least(vs@, 8);
            }
            assert(bit_run(vs@) == n);
            assert(bools_prefix(vs@, n as nat) =~= bools_prefix(bools, n as nat));
            assert(vs@.skip(n as int) =~= restv);
            assert(args_bytes(vs@) == seq![bits_val(bools_prefix(vs@, n as nat)) as u8]
                + args_bytes(restv));
            assert(buf@.subrange(pos as int, end as int) =~= buf@.subrange(pos as int, p1 as int)
                + buf@.subrange(p1 as int, end as int));
            assert(buf@.subrange(pos as int, end as int) =~= args_bytes(vs@));
        }
        Some((vs, end))
    } else {
        let shape = &shapes[si];
        let decoded: Option<(FieldValue, usize)> = match shape {
            ArgShape::Octet => match get_u8(buf, pos) {
                Some((x, q)) => Some((FieldValue::U8(x), q)),
                None => None,
            },
            ArgShape::Short => match get_u16(buf, pos) {
                Some((x, q)) => Some((FieldValue::U16(x), q)),
                None => None,
            },
            ArgShape::Long => match get_u32(buf, pos) {
                Some((x, q)) => Some((FieldValue::U32(x), q)),
                None => None,
            },
            ArgShape::LongLong => match get_u64(buf, pos) {
                Some((x, q)) => Some((FieldValue::U64(x), q)),
                None => None,
            },
            ArgShape::ShortStr => match get_short_str(buf, pos) {
                Some((v, q)) => Some((FieldValue::SimpleString(v), q)),
                None => None,
            },
            ArgShape::LongStr => match get_long_str(buf, pos) {
                Some((v, q)) => Some((FieldValue::LongString(v), q)),
                None => None,
            },
            ArgShape::Table => match get_table(buf, pos) {
                Some((t, q)) => Some((FieldValue::Table(t), q)),
                None => None,
            },
            ArgShape::Bit => None,
        };
        let (v, p1) = match decoded {
            Some(t) => t,
            None => { return None },
        };
        assert(plain_value_bytes(v) == buf@.subrange(pos as int, p1 as int));
        assert(!(v is Bool));
        assert(wf_field_value(v));
        let (rest, end) = match get_args_from(buf, p1, shapes, si + 1) {
            Some(t) => t,
            None => { return None },
        };
        let ghost restv = rest@;
        let mut vs = rest;
        vs.insert(0, v);
        proof {
            assert(vs@ =~= seq![v] + restv);
            assert forall|j: int| 0 <= j < vs@.len() implies wf_field_value(#[trigger] vs@[j]) && (
            vs@[j] is Bool <==> shapes@[si + j] is Bit) by {
                if j == 0 {
                    assert(vs@[0] == v);
                } else {
                    assert(vs@[j] == restv[j - 1]);
                    assert(restv[j - 1] is Bool <==> shapes@[si + 1 + (j - 1)] is Bit);
                }
            };
            assert(vs@.skip(1) =~= restv);
            assert(args_bytes(vs@) == plain_value_bytes(v) + args_bytes(restv));
            assert(buf@.subrange(pos as int, end as int) =~= buf@.subrange(pos as int, p1 as int)
                + buf@.subrange(p1 as int, end as int));
            assert(buf@.subrange(pos as int, end as int) =~= args_bytes(vs@));
        }
        Some((vs, end))
    }
}



/// Stitch the five segments of a non-header frame image together.
proof fn lemma_frame_stitch(buf: Seq<u8>, f: Frame, used: int)
    requires
        !(f is Header),
        8 <= used <= buf.len(),
        buf.subrange(0, 1) == seq![frame_type_byte(f)],
        buf.subrange(1, 3) == be2(frame_channel(f)),
        buf.subrange(3, 7) == be4(frame_payload_bytes(f).len() as u32),
        buf.subrange(7, used - 1) == frame_payload_bytes(f),
        buf.subrange(used - 1, used) == seq![0xceu8],
        frame_payload_bytes(f).len() == used - 8,
    ensures
        buf.subrange(0, used) == frame_bytes(f),
{
    assert(buf.subrange(0, used) =~= buf.subrange(0, 1) + buf.subrange(1, 3) + buf.subrange(3, 7)
        + buf.subrange(7, used - 1) + buf.subrange(used - 1, used));
    assert(buf.subrange(0, used) =~= frame_bytes(f));
}

/// What a decoded frame promises about the bytes it was read from.
pub open spec fn decoded_ok(buf: Seq<u8>, r: DecodeOutcome) -> bool {
    match r {
        DecodeOutcome::Decoded(f, used) => {
            &&& 0 < used <= buf.len()
            &&& wf_frame(f)
            &&& (!(f is ContentHeader) ==> frame_fits(f) && buf.subrange(0, used as int)
                == frame_bytes(f))
            &&& (f is ContentHeader ==> {
                let h = f->ContentHeader_0;
                &&& used >= 22
                &&& buf[0] == 2
                &&& buf.subrange(1, 3) == be2(h.channel)
                &&& buf.subrange(7, 9) == be2(h.class_id)
                &&& buf.subrange(9, 11) == be2(h.weight)
                &&& buf.subrange(11, 19) == be8(h.body_size)
                &&& buf.subrange(19, 21) == be2(h.prop_flags)
                &&& buf[used - 1] == 0xce
            })
        },
        _ => true,
    }
}

/// Decode the payload of a method frame and finish the frame.
#[verifier::rlimit(100)]
fn decode_method_tail(buf: &[u8], ch: u16, len: usize, used: usize) -> (r: DecodeOutcome)
    requires
        used == 8 + len,
        used <= buf@.len(),
        buf@.subrange(0, 1) == seq![1u8],
        buf@.subrange(1, 3) == be2(ch),
        buf@.subrange(3, 7) == be4(len as u32),
        buf@.subrange(used - 1, used as int) == seq![0xceu8],
        len <= 0xffffffff,
    ensures
        decoded_ok(buf@, r),
{
    let end = 7 + len;
    if len < 4 {
        return DecodeOutcome::Failed(502);
    }
    let (cm, _p3) = match get_u32(buf, 7) {
        Some(t) => t,
        None => { return DecodeOutcome::Failed(502) },
    };
    let shapes = match method_shapes(cm) {
        Some(v) => v,
        None => { return DecodeOutcome::Failed(502) },
    };
    let (vals, argend) = match get_args_from(buf, 11, &shapes, 0) {
        Some(t) => t,
        None => { return DecodeOutcome::Failed(502) },
    };
    if argend != end {
        return DecodeOutcome::Failed(502);
    }
    let f = Frame::Method(ch, cm, vals);
    proof {
        assert(frame_payload_bytes(f) == be4(cm) + args_bytes(f->Method_2@));
        assert(buf@.subrange(7, end as int) =~= buf@.subrange(7, 11) + buf@.subrange(
            11,
            end as int,
        ));
        assert(buf@.subrange(7, end as int) == frame_payload_bytes(f));
        assert(frame_payload_bytes(f).len() == len);
        lemma_frame_stitch(buf@, f, used as int);
    }
    DecodeOutcome::Decoded(f, used)
}

/// Decode the payload of a content header frame and finish the frame.
#[verifier::rlimit(100)]
fn decode_header_tail(buf: &[u8], ch: u16, len: usize, used: usize) -> (r: DecodeOutcome)
    requires
        used == 8 + len,
        used <= buf@.len(),
        buf@.subrange(0, 1) == seq![2u8],
        buf@.subrange(1, 3) == be2(ch),
        buf@.subrange(used - 1, used as int) == seq![0xceu8],
        len <= 0xffffffff,
    ensures
        decoded_ok(buf@, r),
{
    let end = 7 + len;
    if len < 14 {
        return DecodeOutcome::Failed(502);
    }
    let (class_id, _q1) = match get_u16(buf, 7) {
        Some(t) => t,
        None => { return DecodeOutcome::Failed(502) },
    };
    let (weight, _q2) = match get_u16(buf, 9) {
        Some(t) => t,
        None => { return DecodeOutcome::Failed(502) },
    };
    let (body_size, _q3) = match get_u64(buf, 11) {
        Some(t) => t,
        None => { return DecodeOutcome::Failed(502) },
    };
    let (flags, _q4) = match get_u16(buf, 19) {
        Some(t) => t,
        None => { return DecodeOutcome::Failed(502) },
    };
    let (properties, pend) = match crate::props::decode_props(buf, 21, flags) {
        Some(t) => t,
        None => { return DecodeOutcome::Failed(502) },
    };
    if pend != end {
        return DecodeOutcome::Failed(502);
    }
    let h = ContentHeader {
        channel: ch,
        class_id,
        weight,
        body_size,
        prop_flags: flags,
        properties,
    };
    let f = Frame::ContentHeader(h);
    proof {
        assert(buf@[0] == buf@.subrange(0, 1)[0]);
        assert(buf@[used - 1] == buf@.subrange(used - 1, used as int)[0]);
    }
    DecodeOutcome::Decoded(f, used)
}

/// Decode one frame from the head of the buffer.
///
/// When a whole frame is decoded, the consumed prefix is exactly the
/// frame's own wire image (for a content header, stated field by field
/// over the fixed part of its payload). `NeedMore` consumes nothing; a
/// grammar violation fails with the connection error to raise.
#[verifier::rlimit(100)]
pub fn decode_frame(buf: &[u8], frame_max: u32) -> (r: DecodeOutcome)
    ensures
        decoded_ok(buf@, r),
{
    if buf.len() == 0 {
        return DecodeOutcome::NeedMore;
    }
    let b0 = buf[0];
    if b0 == 0x41 {
        if buf.len() < 8 {
            return DecodeOutcome::NeedMore;
        }
        if buf[1] == 0x4d && buf[2] == 0x51 && buf[3] == 0x50 && buf[4] == 0 && buf[5] == 0
            && buf[6] == 9 && buf[7] == 1 {
            let f = Frame::Header;
            assert(buf@.subrange(0, 8) =~= frame_bytes(f));
            return DecodeOutcome::Decoded(f, 8);
        }
        return DecodeOutcome::Failed(501);
    }
    if b0 != 1 && b0 != 2 && b0 != 3 && b0 != 8 {
        return DecodeOutcome::Failed(501);
    }
    if buf.len() < 7 {
        return DecodeOutcome::NeedMore;
    }
    let (ch, _p1) = match get_u16(buf, 1) {
        Some(t) => t,
        None => { return DecodeOutcome::NeedMore },
    };
    let (len32, _p2) = match get_u32(buf, 3) {
        Some(t) => t,
        None => { return DecodeOutcome::NeedMore },
    };
    if frame_max != 0 && (len32 as u64) + 8 > (frame_max as u64) {
        return DecodeOutcome::Failed(501);
    }
    if (buf.len() as u64) < 8 + (len32 as u64) {
        return DecodeOutcome::NeedMore;
    }
    let len = len32 as usize;
    let end = 7 + len;
    let used = 8 + len;
    if buf[end] != 0xce {
        return DecodeOutcome::Failed(501);
    }
    proof {
        assert(buf@.subrange(end as int, used as int) =~= seq![0xceu8]);
        assert(buf@.subrange(0, 1) =~= seq![b0]);
    }
    if b0 == 1 {
        return decode_method_tail(buf, ch, len, used);
    }
    if b0 == 2 {
        return decode_header_tail(buf, ch, len, used);
    }
    if b0 == 3 {
        let body = vstd::slice::slice_to_vec(vstd::slice::slice_subrange(buf, 7, end));
        let f = Frame::ContentBody(ch, body);
        proof {
            assert(buf@.subrange(7, end as int) == frame_payload_bytes(f));
            lemma_frame_stitch(buf@, f, used as int);
        }
        return DecodeOutcome::Decoded(f, used);
    }
    if len != 0 {
        return DecodeOutcome::Failed(501);
    }
    let f = Frame::Heartbeat(ch);
    proof {
        assert(buf@.subrange(7, end as int) =~= frame_payload_bytes(f));
        lemma_frame_stitch(buf@, f, used as int);
    }
    DecodeOutcome::Decoded(f, used)
}


/// A copy of a byte string.
pub fn clone_bytes(v: &Vec<u8>) -> (r: Vec<u8>)
    ensures
        r@ == v@,
{
    vstd::slice::slice_to_vec(v.as_slice())
}


// ---------------------------------------------------------------------
// Body chunking under the negotiated frame-max.
// ---------------------------------------------------------------------

/// The largest body payload one frame may carry under this frame-max:
/// the frame head and terminator take eight bytes. A frame-max of zero
/// means unlimited, capped by the length field itself.
pub open spec fn body_cap(frame_max: u32) -> nat {
    if frame_max >= 9 {
        (frame_max - 8) as nat
    } else {
        0xffffffff
    }
}

/// The same cap, computed.
pub fn body_cap_of(frame_max: u32) -> (r: usize)
    ensures
        r == body_cap(frame_max),
        r >= 1,
{
    if frame_max >= 9 {
        (frame_max - 8) as usize
    } else {
        0xffffffff
    }
}

/// A body split into payloads of at most `cap` bytes, in order; an
/// empty body takes no body frame at all.
pub open spec fn chunks_of(b: Seq<u8>, cap: nat) -> Seq<Seq<u8>>
    decreases b.len() when cap >= 1
{
    if b.len() == 0 {
        Seq::empty()
    } else if b.len() <= cap {
        seq![b]
    } else {
        seq![b.take(cap as int)] + chunks_of(b.skip(cap as int), cap)
    }
}

/// The concatenation of a list of byte strings.
pub open spec fn concat_chunks(cs: Seq<Seq<u8>>) -> Seq<u8>
    decreases cs.len(),
{
    if cs.len() == 0 {
        Seq::empty()
    } else {
        cs[0] + concat_chunks(cs.skip(1))
    }
}

/// Splitting then concatenating gives the body back, every piece fits
/// the cap, and no piece is empty.
pub proof fn lemma_chunks_of_concat(b: Seq<u8>, cap: nat)
    requires
        cap >= 1,
    ensures
        concat_chunks(chunks_of(b, cap)) == b,
        forall|j: int|
            0 <= j < chunks_of(b, cap).len() ==> 1 <= (#[trigger] chunks_of(b, cap)[j]).len()
                <= cap,
    decreases b.len(),
{
    if b.len() == 0 {
        assert(concat_chunks(chunks_of(b, cap)) =~= b);
    } else if b.len() <= cap {
        let cs = chunks_of(b, cap);
        assert(cs =~= seq![b]);
        assert(cs.skip(1) =~= Seq::<Seq<u8>>::empty());
        assert(concat_chunks(cs) == cs[0] + concat_chunks(cs.skip(1)));
        assert(cs[0] == b);
        assert(concat_chunks(cs) =~= b);
    } else {
        lemma_chunks_of_concat(b.skip(cap as int), cap);
        let cs = chunks_of(b, cap);
        assert(cs =~= seq![b.take(cap as int)] + chunks_of(b.skip(cap as int), cap));
        assert(cs[0] == b.take(cap as int));
        assert(cs.skip(1) =~= chunks_of(b.skip(cap as int), cap));
        assert(concat_chunks(cs) == b.take(cap as int) + concat_chunks(
            chunks_of(b.skip(cap as int), cap),
        ));
        assert(concat_chunks(cs) =~= b);
        assert forall|j: int| 0 <= j < cs.len() implies 1 <= (#[trigger] cs[j]).len() <= cap by {
            if j > 0 {
                assert(cs[j] == chunks_of(b.skip(cap as int), cap)[j - 1]);
            }
        };
    }
}

fn split_body_from(body: &Vec<u8>, i: usize, cap: usize) -> (r: Vec<Vec<u8>>)
    requires
        i <= body@.len(),
        cap >= 1,
    ensures
        crate::exchange::byte_seqs_view(r@) == chunks_of(body@.skip(i as int), cap as nat),
    decreases body@.len() - i,
{
    if i == body.len() {
        let r: Vec<Vec<u8>> = Vec::new();
        assert(body@.skip(i as int) =~= Seq::<u8>::empty());
        assert(crate::exchange::byte_seqs_view(r@) =~= chunks_of(body@.skip(i as int), cap as nat));
        return r;
    }
    let left = body.len() - i;
    if left <= cap {
        let piece = vstd::slice::slice_to_vec(
            vstd::slice::slice_subrange(body.as_slice(), i, body.len()),
        );
        assert(piece@ =~= body@.skip(i as int));
        let mut r: Vec<Vec<u8>> = Vec::new();
        r.push(piece);
        assert(crate::exchange::byte_seqs_view(r@) =~= chunks_of(body@.skip(i as int), cap as nat));
        r
    } else {
        let piece = vstd::slice::slice_to_vec(
            vstd::slice::slice_subrange(body.as_slice(), i, i + cap),
        );
        assert(piece@ =~= body@.skip(i as int).take(cap as int));
        let mut r = split_body_from(body, i + cap, cap);
        let ghost restv = r@;
        r.insert(0, piece);
        proof {
            assert(body@.skip(i as int).skip(cap as int) =~= body@.skip(i + cap));
            assert(r@ =~= seq![piece].add(restv));
            assert(crate::exchange::byte_seqs_view(r@) =~= chunks_of(
                body@.skip(i as int),
                cap as nat,
            ));
        }
        r
    }
}

/// Split a message body for the wire: each piece fits one frame under
/// the frame-max.
pub fn split_body(body: &Vec<u8>, frame_max: u32) -> (r: Vec<Vec<u8>>)
    ensures
        crate::exchange::byte_seqs_view(r@) == chunks_of(body@, body_cap(frame_max)),
{
    let cap = body_cap_of(frame_max);
    let r = split_body_from(body, 0, cap);
    assert(body@.skip(0) =~= body@);
    r
}

} // verus!

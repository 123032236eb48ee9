//! Typed AMQP field values and their byte-level encoding.
//!
//! Every value the protocol carries inside a method argument list or a
//! field table is a `FieldValue`. Protocol strings are byte strings: a
//! short string carries a one-byte length (so at most 255 bytes), a long
//! string a four-byte length. All integers are big-endian on the wire.
//!
//! The spec functions here define the wire bytes of each value; the exec
//! functions produce or consume exactly those bytes, which is what their
//! contracts state.

use vstd::prelude::*;

verus! {

/// A value stored in a field table: every field value except a nested
/// table. Keeping tables one level deep covers every table the broker
/// reads (header matching and declare arguments) and keeps the grammar
/// non-recursive.
pub enum TableValue {
    Bool(bool),
    U8(u8),
    U16(u16),
    U32(u32),
    U64(u64),
    I8(i8),
    I16(i16),
    I32(i32),
    I64(i64),
    SimpleString(Vec<u8>),
    LongString(Vec<u8>),
    Timestamp(u64),
}

/// One key-value pair of a field table. The key is a short string.
pub struct TableEntry {
    pub key: Vec<u8>,
    pub value: TableValue,
}

/// A positionally typed value of a method argument list.
pub enum FieldValue {
    Bool(bool),
    U8(u8),
    U16(u16),
    U32(u32),
    U64(u64),
    I8(i8),
    I16(i16),
    I32(i32),
    I64(i64),
    SimpleString(Vec<u8>),
    LongString(Vec<u8>),
    Timestamp(u64),
    Table(Vec<TableEntry>),
}

// ---------------------------------------------------------------------
// Big-endian byte images of the integer widths.
// ---------------------------------------------------------------------

pub open spec fn be2(x: u16) -> Seq<u8> {
    seq![(x / 0x100) as u8, (x % 0x100) as u8]
}

pub open spec fn be4(x: u32) -> Seq<u8> {
    seq![
        (x / 0x1000000) as u8,
        (x / 0x10000 % 0x100) as u8,
        (x / 0x100 % 0x100) as u8,
        (x % 0x100) as u8,
    ]
}

pub open spec fn be8(x: u64) -> Seq<u8> {
    seq![
        (x / 0x100000000000000) as u8,
        (x / 0x1000000000000 % 0x100) as u8,
        (x / 0x10000000000 % 0x100) as u8,
        (x / 0x100000000 % 0x100) as u8,
        (x / 0x1000000 % 0x100) as u8,
        (x / 0x10000 % 0x100) as u8,
        (x / 0x100 % 0x100) as u8,
        (x % 0x100) as u8,
    ]
}

/// The two's-complement image of a signed 16-bit value.
pub open spec fn bits_of_i16(x: i16) -> u16 {
    if x >= 0 {
        x as u16
    } else {
        (x + 0x10000) as u16
    }
}

/// The two's-complement image of a signed 32-bit value.
pub open spec fn bits_of_i32(x: i32) -> u32 {
    if x >= 0 {
        x as u32
    } else {
        (x + 0x100000000) as u32
    }
}

/// The two's-complement image of a signed 64-bit value.
pub open spec fn bits_of_i64(x: i64) -> u64 {
    if x >= 0 {
        x as u64
    } else {
        (x + 0x10000000000000000) as u64
    }
}

/// The two's-complement image of a signed 8-bit value.
pub open spec fn bits_of_i8(x: i8) -> u8 {
    if x >= 0 {
        x as u8
    } else {
        (x + 0x100) as u8
    }
}

// ---------------------------------------------------------------------
// Byte images of strings and tables.
// ---------------------------------------------------------------------

/// A short string: one length byte, then the bytes themselves.
pub open spec fn short_str_bytes(s: Seq<u8>) -> Seq<u8> {
    seq![s.len() as u8] + s
}

/// A long string: a four-byte length, then the bytes themselves.
pub open spec fn long_str_bytes(s: Seq<u8>) -> Seq<u8> {
    be4(s.len() as u32) + s
}

/// The one-byte type letter a table value carries in front of its bytes.
pub open spec fn table_value_tag(v: TableValue) -> u8 {
    match v {
        TableValue::Bool(_) => 116,  // 't'
        TableValue::U8(_) => 66,  // 'B'
        TableValue::U16(_) => 117,  // 'u'
        TableValue::U32(_) => 105,  // 'i'
        TableValue::U64(_) => 108,  // 'l'
        TableValue::I8(_) => 98,  // 'b'
        TableValue::I16(_) => 85,  // 'U'
        TableValue::I32(_) => 73,  // 'I'
        TableValue::I64(_) => 76,  // 'L'
        TableValue::SimpleString(_) => 115,  // 's'
        TableValue::LongString(_) => 83,  // 'S'
        TableValue::Timestamp(_) => 84,  // 'T'
    }
}

/// The payload bytes of a table value, without its type letter.
pub open spec fn table_value_bytes(v: TableValue) -> Seq<u8> {
    match v {
        TableValue::Bool(b) => seq![if b { 1u8 } else { 0u8 }],
        TableValue::U8(x) => seq![x],
        TableValue::U16(x) => be2(x),
        TableValue::U32(x) => be4(x),
        TableValue::U64(x) => be8(x),
        TableValue::I8(x) => seq![bits_of_i8(x)],
        TableValue::I16(x) => be2(bits_of_i16(x)),
        TableValue::I32(x) => be4(bits_of_i32(x)),
        TableValue::I64(x) => be8(bits_of_i64(x)),
        TableValue::SimpleString(s) => short_str_bytes(s@),
        TableValue::LongString(s) => long_str_bytes(s@),
        TableValue::Timestamp(x) => be8(x),
    }
}

/// One table entry: short-string key, type letter, payload.
pub open spec fn table_entry_bytes(e: TableEntry) -> Seq<u8> {
    short_str_bytes(e.key@) + seq![table_value_tag(e.value)] + table_value_bytes(e.value)
}

/// The concatenated entries of a table, in order.
pub open spec fn entries_bytes(s: Seq<TableEntry>) -> Seq<u8>
    decreases s.len(),
{
    if s.len() == 0 {
        Seq::empty()
    } else {
        table_entry_bytes(s[0]) + entries_bytes(s.skip(1))
    }
}

/// A whole field table: four-byte byte-length prefix, then the entries.
pub open spec fn table_bytes(s: Seq<TableEntry>) -> Seq<u8> {
    be4(entries_bytes(s).len() as u32) + entries_bytes(s)
}

// ---------------------------------------------------------------------
// Well-formedness: every length fits its length field.
// ---------------------------------------------------------------------

pub open spec fn wf_table_value(v: TableValue) -> bool {
    match v {
        TableValue::SimpleString(s) => s@.len() <= 255,
        TableValue::LongString(s) => s@.len() <= 0xffffffff,
        _ => true,
    }
}

pub open spec fn wf_table_entry(e: TableEntry) -> bool {
    &&& e.key@.len() <= 255
    &&& wf_table_value(e.value)
}

pub open spec fn wf_table(s: Seq<TableEntry>) -> bool {
    &&& forall|i: int| 0 <= i < s.len() ==> wf_table_entry(s[i])
    &&& entries_bytes(s).len() <= 0xffffffff
}

pub open spec fn wf_field_value(v: FieldValue) -> bool {
    match v {
        FieldValue::SimpleString(s) => s@.len() <= 255,
        FieldValue::LongString(s) => s@.len() <= 0xffffffff,
        FieldValue::Table(t) => wf_table(t@),
        _ => true,
    }
}

// ---------------------------------------------------------------------
// Encoders. Each appends exactly the byte image its spec function gives.
// ---------------------------------------------------------------------

pub fn put_u8(out: &mut Vec<u8>, x: u8)
    ensures
        final(out)@ == old(out)@ + seq![x],
{
    out.push(x);
}

pub fn put_u16(out: &mut Vec<u8>, x: u16)
    ensures
        final(out)@ == old(out)@ + be2(x),
{
    out.push((x / 0x100) as u8);
    out.push((x % 0x100) as u8);
    assert(final(out)@ =~= old(out)@ + be2(x));
}

pub fn put_u32(out: &mut Vec<u8>, x: u32)
    ensures
        final(out)@ == old(out)@ + be4(x),
{
    out.push((x / 0x1000000) as u8);
    out.push((x / 0x10000 % 0x100) as u8);
    out.push((x / 0x100 % 0x100) as u8);
    out.push((x % 0x100) as u8);
    assert(final(out)@ =~= old(out)@ + be4(x));
}

pub fn put_u64(out: &mut Vec<u8>, x: u64)
    ensures
        final(out)@ == old(out)@ + be8(x),
{
    out.push((x / 0x100000000000000) as u8);
    out.push((x / 0x1000000000000 % 0x100) as u8);
    out.push((x / 0x10000000000 % 0x100) as u8);
    out.push((x / 0x100000000 % 0x100) as u8);
    out.push((x / 0x1000000 % 0x100) as u8);
    out.push((x / 0x10000 % 0x100) as u8);
    out.push((x / 0x100 % 0x100) as u8);
    out.push((x % 0x100) as u8);
    assert(final(out)@ =~= old(out)@ + be8(x));
}

/// The unsigned two's-complement image of a signed 8-bit value.
pub fn i8_bits(x: i8) -> (r: u8)
    ensures
        r == bits_of_i8(x),
{
    if x >= 0 {
        x as u8
    } else {
        let y: u8 = (-(x + 1)) as u8;
        255 - y
    }
}

/// The unsigned two's-complement image of a signed 16-bit value.
pub fn i16_bits(x: i16) -> (r: u16)
    ensures
        r == bits_of_i16(x),
{
    if x >= 0 {
        x as u16
    } else {
        let y: u16 = (-(x + 1)) as u16;
        0xffff - y
    }
}

/// The unsigned two's-complement image of a signed 32-bit value.
pub fn i32_bits(x: i32) -> (r: u32)
    ensures
        r == bits_of_i32(x),
{
    if x >= 0 {
        x as u32
    } else {
        let y: u32 = (-(x + 1)) as u32;
        0xffffffff - y
    }
}

/// The unsigned two's-complement image of a signed 64-bit value.
pub fn i64_bits(x: i64) -> (r: u64)
    ensures
        r == bits_of_i64(x),
{
    if x >= 0 {
        x as u64
    } else {
        let y: u64 = (-(x + 1)) as u64;
        0xffffffffffffffff - y
    }
}

/// The signed value whose two's-complement image the argument is.
pub fn i8_of_bits(x: u8) -> (r: i8)
    ensures
        bits_of_i8(r) == x,
{
    if x < 0x80 {
        x as i8
    } else {
        let y: i8 = (255 - x) as i8;
        -y - 1
    }
}

/// The signed value whose two's-complement image the argument is.
pub fn i16_of_bits(x: u16) -> (r: i16)
    ensures
        bits_of_i16(r) == x,
{
    if x < 0x8000 {
        x as i16
    } else {
        let y: i16 = (0xffff - x) as i16;
        -y - 1
    }
}

/// The signed value whose two's-complement image the argument is.
pub fn i32_of_bits(x: u32) -> (r: i32)
    ensures
        bits_of_i32(r) == x,
{
    if x < 0x80000000 {
        x as i32
    } else {
        let y: i32 = (0xffffffff - x) as i32;
        -y - 1
    }
}

/// The signed value whose two's-complement image the argument is.
pub fn i64_of_bits(x: u64) -> (r: i64)
    ensures
        bits_of_i64(r) == x,
{
    if x < 0x8000000000000000 {
        x as i64
    } else {
        let y: i64 = (0xffffffffffffffff - x) as i64;
        -y - 1
    }
}

pub fn put_short_str(out: &mut Vec<u8>, s: &Vec<u8>)
    requires
        s@.len() <= 255,
    ensures
        final(out)@ == old(out)@ + short_str_bytes(s@),
{
    out.push(s.len() as u8);
    out.extend_from_slice(s.as_slice());
    assert(final(out)@ =~= old(out)@ + short_str_bytes(s@));
}

pub fn put_long_str(out: &mut Vec<u8>, s: &Vec<u8>)
    requires
        s@.len() <= 0xffffffff,
    ensures
        final(out)@ == old(out)@ + long_str_bytes(s@),
{
    put_u32(out, s.len() as u32);
    out.extend_from_slice(s.as_slice());
    assert(final(out)@ =~= old(out)@ + long_str_bytes(s@));
}

pub fn put_table_value(out: &mut Vec<u8>, v: &TableValue)
    requires
        wf_table_value(*v),
    ensures
        final(out)@ == old(out)@ + seq![table_value_tag(*v)] + table_value_bytes(*v),
{
    match v {
        TableValue::Bool(b) => {
            out.push(116);
            out.push(if *b { 1 } else { 0 });
        },
        TableValue::U8(x) => {
            out.push(66);
            out.push(*x);
        },
        TableValue::U16(x) => {
            out.push(117);
            put_u16(out, *x);
        },
        TableValue::U32(x) => {
            out.push(105);
            put_u32(out, *x);
        },
        TableValue::U64(x) => {
            out.push(108);
            put_u64(out, *x);
        },
        TableValue::I8(x) => {
            out.push(98);
            out.push(i8_bits(*x));
        },
        TableValue::I16(x) => {
            out.push(85);
            put_u16(out, i16_bits(*x));
        },
        TableValue::I32(x) => {
            out.push(73);
            put_u32(out, i32_bits(*x));
        },
        TableValue::I64(x) => {
            out.push(76);
            put_u64(out, i64_bits(*x));
        },
        TableValue::SimpleString(s) => {
            out.push(115);
            put_short_str(out, s);
        },
        TableValue::LongString(s) => {
            out.push(83);
            put_long_str(out, s);
        },
        TableValue::Timestamp(x) => {
            out.push(84);
            put_u64(out, *x);
        },
    }
    assert(final(out)@ =~= old(out)@ + seq![table_value_tag(*v)] + table_value_bytes(*v));
}

/// Appending the image of each entry in order yields `entries_bytes`.
proof fn lemma_entries_bytes_snoc(s: Seq<TableEntry>, e: TableEntry)
    ensures
        entries_bytes(s.push(e)) == entries_bytes(s) + table_entry_bytes(e),
    decreases s.len(),
{
    if s.len() == 0 {
        assert(s.push(e).skip(1) =~= Seq::<TableEntry>::empty());
        assert(s.push(e)[0] == e);
        assert(entries_bytes(s.push(e)) == table_entry_bytes(e) + entries_bytes(Seq::empty()));
        assert(entries_bytes(s.push(e)) =~= entries_bytes(s) + table_entry_bytes(e));
    } else {
        assert(s.push(e).skip(1) =~= s.skip(1).push(e));
        lemma_entries_bytes_snoc(s.skip(1), e);
        assert(s.push(e)[0] == s[0]);
        let a = table_entry_bytes(s[0]);
        let b = entries_bytes(s.skip(1));
        let c = table_entry_bytes(e);
        assert(entries_bytes(s.push(e)) == a + (b + c));
        assert(entries_bytes(s) == a + b);
        assert(a + (b + c) =~= (a + b) + c);
    }
}

/// Encode the entries of a table, without the length prefix.
fn put_entries(out: &mut Vec<u8>, entries: &Vec<TableEntry>)
    requires
        forall|i: int| 0 <= i < entries@.len() ==> wf_table_entry(entries@[i]),
    ensures
        final(out)@ == old(out)@ + entries_bytes(entries@),
{
    let n = entries.len();
    let mut i: usize = 0;
    while i < n
        invariant
            i <= n,
            n == entries@.len(),
            forall|k: int| 0 <= k < entries@.len() ==> wf_table_entry(entries@[k]),
            out@ == old(out)@ + entries_bytes(entries@.take(i as int)),
        decreases n - i,
    {
        let e = &entries[i];
        put_short_str(out, &e.key);
        put_table_value(out, &e.value);
        proof {
            lemma_entries_bytes_snoc(entries@.take(i as int), entries@[i as int]);
            assert(entries@.take(i + 1 as int) =~= entries@.take(i as int).push(entries@[i as int]));
            assert(out@ =~= old(out)@ + entries_bytes(entries@.take(i + 1 as int)));
        }
        i = i + 1;
    }
    assert(entries@.take(n as int) =~= entries@);
}

pub fn put_table(out: &mut Vec<u8>, entries: &Vec<TableEntry>)
    requires
        wf_table(entries@),
    ensures
        final(out)@ == old(out)@ + table_bytes(entries@),
{
    let mut body: Vec<u8> = Vec::new();
    put_entries(&mut body, entries);
    put_u32(out, body.len() as u32);
    out.extend_from_slice(body.as_slice());
    assert(final(out)@ =~= old(out)@ + table_bytes(entries@));
}

// ---------------------------------------------------------------------
// Decoders. A successful read hands back the value whose byte image is
// exactly the consumed slice, so any decoded value re-encodes to the
// bytes it came from.
// ---------------------------------------------------------------------

pub fn get_u8(buf: &[u8], pos: usize) -> (r: Option<(u8, usize)>)
    requires
        pos <= buf@.len(),
    ensures
        match r {
            Some(t) => {
                &&& t.1 == pos + 1
                &&& pos + 1 <= buf@.len()
                &&& buf@.subrange(pos as int, t.1 as int) == seq![t.0]
            },
            None => buf@.len() < pos + 1,
        },
{
    if buf.len() - pos < 1 {
        return None;
    }
    let b = buf[pos];
    assert(buf@.subrange(pos as int, pos + 1 as int) =~= seq![b]);
    Some((b, pos + 1))
}

pub fn get_u16(buf: &[u8], pos: usize) -> (r: Option<(u16, usize)>)
    requires
        pos <= buf@.len(),
    ensures
        match r {
            Some(t) => {
                &&& t.1 == pos + 2
                &&& pos + 2 <= buf@.len()
                &&& buf@.subrange(pos as int, t.1 as int) == be2(t.0)
            },
            None => buf@.len() < pos + 2,
        },
{
    if buf.len() - pos < 2 {
        return None;
    }
    let b0 = buf[pos];
    let b1 = buf[pos + 1];
    let x: u16 = (b0 as u16) * 0x100 + (b1 as u16);
    assert(buf@.subrange(pos as int, pos + 2 as int) =~= be2(x));
    Some((x, pos + 2))
}

pub fn get_u32(buf: &[u8], pos: usize) -> (r: Option<(u32, usize)>)
    requires
        pos <= buf@.len(),
    ensures
        match r {
            Some(t) => {
                &&& t.1 == pos + 4
                &&& pos + 4 <= buf@.len()
                &&& buf@.subrange(pos as int, t.1 as int) == be4(t.0)
            },
            None => buf@.len() < pos + 4,
        },
{
    if buf.len() - pos < 4 {
        return None;
    }
    let b0 = buf[pos];
    let b1 = buf[pos + 1];
    let b2 = buf[pos + 2];
    let b3 = buf[pos + 3];
    let x: u32 = (b0 as u32) * 0x1000000 + (b1 as u32) * 0x10000 + (b2 as u32) * 0x100 + (
    b3 as u32);
    proof {
        lemma_be4_parts(b0, b1, b2, b3, x);
        assert(buf@.subrange(pos as int, pos + 4 as int) =~= be4(x));
    }
    Some((x, pos + 4))
}

/// The four bytes of `be4` recover the 32-bit value assembled from them.
proof fn lemma_be4_parts(b0: u8, b1: u8, b2: u8, b3: u8, x: u32)
    requires
        x == (b0 as u32) * 0x1000000 + (b1 as u32) * 0x10000 + (b2 as u32) * 0x100 + (b3 as u32),
    ensures
        be4(x) == seq![b0, b1, b2, b3],
{
    assert(x / 0x1000000 == b0 && x / 0x10000 % 0x100 == b1 && x / 0x100 % 0x100 == b2 && x % 0x100
        == b3) by (nonlinear_arith)
        requires
            x == (b0 as u32) * 0x1000000 + (b1 as u32) * 0x10000 + (b2 as u32) * 0x100 + (
            b3 as u32),
    ;
    assert(be4(x) =~= seq![b0, b1, b2, b3]);
}

pub fn get_u64(buf: &[u8], pos: usize) -> (r: Option<(u64, usize)>)
    requires
        pos <= buf@.len(),
    ensures
        match r {
            Some(t) => {
                &&& t.1 == pos + 8
                &&& pos + 8 <= buf@.len()
                &&& buf@.subrange(pos as int, t.1 as int) == be8(t.0)
            },
            None => buf@.len() < pos + 8,
        },
{
    if buf.len() - pos < 8 {
        return None;
    }
    let b0 = buf[pos];
    let b1 = buf[pos + 1];
    let b2 = buf[pos + 2];
    let b3 = buf[pos + 3];
    let b4 = buf[pos + 4];
    let b5 = buf[pos + 5];
    let b6 = buf[pos + 6];
    let b7 = buf[pos + 7];
    let hi: u32 = (b0 as u32) * 0x1000000 + (b1 as u32) * 0x10000 + (b2 as u32) * 0x100 + (
    b3 as u32);
    let lo: u32 = (b4 as u32) * 0x1000000 + (b5 as u32) * 0x10000 + (b6 as u32) * 0x100 + (
    b7 as u32);
    let x: u64 = (hi as u64) * 0x100000000 + (lo as u64);
    proof {
        lemma_be8_parts(b0, b1, b2, b3, b4, b5, b6, b7, x);
        assert(buf@.subrange(pos as int, pos + 8 as int) =~= be8(x));
    }
    Some((x, pos + 8))
}

/// The eight bytes of `be8` recover the 64-bit value assembled from them.
proof fn lemma_be8_parts(b0: u8, b1: u8, b2: u8, b3: u8, b4: u8, b5: u8, b6: u8, b7: u8, x: u64)
    requires
        x == ((b0 as u64) * 0x1000000 + (b1 as u64) * 0x10000 + (b2 as u64) * 0x100 + (b3 as u64))
            * 0x100000000 + ((b4 as u64) * 0x1000000 + (b5 as u64) * 0x10000 + (b6 as u64) * 0x100
            + (b7 as u64)),
    ensures
        be8(x) == seq![b0, b1, b2, b3, b4, b5, b6, b7],
{
    assert(x / 0x100000000000000 == b0 && x / 0x1000000000000 % 0x100 == b1 && x / 0x10000000000
        % 0x100 == b2 && x / 0x100000000 % 0x100 == b3 && x / 0x1000000 % 0x100 == b4 && x
        / 0x10000 % 0x100 == b5 && x / 0x100 % 0x100 == b6 && x % 0x100 == b7) by (nonlinear_arith)
        requires
            x == ((b0 as u64) * 0x1000000 + (b1 as u64) * 0x10000 + (b2 as u64) * 0x100 + (
            b3 as u64)) * 0x100000000 + ((b4 as u64) * 0x1000000 + (b5 as u64) * 0x10000 + (
            b6 as u64) * 0x100 + (b7 as u64)),
    ;
    assert(be8(x) =~= seq![b0, b1, b2, b3, b4, b5, b6, b7]);
}

pub fn get_short_str(buf: &[u8], pos: usize) -> (r: Option<(Vec<u8>, usize)>)
    requires
        pos <= buf@.len(),
    ensures
        match r {
            Some(t) => {
                &&& pos < t.1 <= buf@.len()
                &&& t.0@.len() <= 255
                &&& buf@.subrange(pos as int, t.1 as int) == short_str_bytes(t.0@)
            },
            None => true,
        },
{
    if buf.len() - pos < 1 {
        return None;
    }
    let n = buf[pos] as usize;
    if buf.len() - pos - 1 < n {
        return None;
    }
    let s = vstd::slice::slice_to_vec(vstd::slice::slice_subrange(buf, pos + 1, pos + 1 + n));
    assert(buf@.subrange(pos as int, pos + 1 + n as int) =~= short_str_bytes(s@));
    Some((s, pos + 1 + n))
}

pub fn get_long_str(buf: &[u8], pos: usize) -> (r: Option<(Vec<u8>, usize)>)
    requires
        pos <= buf@.len(),
    ensures
        match r {
            Some(t) => {
                &&& pos < t.1 <= buf@.len()
                &&& t.0@.len() <= 0xffffffff
                &&& buf@.subrange(pos as int, t.1 as int) == long_str_bytes(t.0@)
            },
            None => true,
        },
{
    let (n32, p) = match get_u32(buf, pos) {
        Some(t) => t,
        None => { return None },
    };
    let n = n32 as usize;
    if buf.len() - p < n {
        return None;
    }
    let s = vstd::slice::slice_to_vec(vstd::slice::slice_subrange(buf, p, p + n));
    assert(buf@.subrange(pos as int, p + n as int) =~= long_str_bytes(s@));
    Some((s, p + n))
}

pub fn get_table_value(buf: &[u8], pos: usize) -> (r: Option<(TableValue, usize)>)
    requires
        pos <= buf@.len(),
    ensures
        match r {
            Some(t) => {
                &&& pos < t.1 <= buf@.len()
                &&& wf_table_value(t.0)
                &&& buf@.subrange(pos as int, t.1 as int) == seq![table_value_tag(t.0)]
                    + table_value_bytes(t.0)
            },
            None => true,
        },
{
    if buf.len() - pos < 1 {
        return None;
    }
    let tag = buf[pos];
    let p = pos + 1;
    let r: Option<(TableValue, usize)> = if tag == 116 {
        match get_u8(buf, p) {
            Some((b, q)) => {
                if b == 1 {
                    Some((TableValue::Bool(true), q))
                } else if b == 0 {
                    Some((TableValue::Bool(false), q))
                } else {
                    None
                }
            },
            None => None,
        }
    } else if tag == 66 {
        match get_u8(buf, p) {
            Some((x, q)) => Some((TableValue::U8(x), q)),
            None => None,
        }
    } else if tag == 117 {
        match get_u16(buf, p) {
            Some((x, q)) => Some((TableValue::U16(x), q)),
            None => None,
        }
    } else if tag == 105 {
        match get_u32(buf, p) {
            Some((x, q)) => Some((TableValue::U32(x), q)),
            None => None,
        }
    } else if tag == 108 {
        match get_u64(buf, p) {
            Some((x, q)) => Some((TableValue::U64(x), q)),
            None => None,
        }
    } else if tag == 98 {
        match get_u8(buf, p) {
            Some((x, q)) => Some((TableValue::I8(i8_of_bits(x)), q)),
            None => None,
        }
    } else if tag == 85 {
        match get_u16(buf, p) {
            Some((x, q)) => Some((TableValue::I16(i16_of_bits(x)), q)),
            None => None,
        }
    } else if tag == 73 {
        match get_u32(buf, p) {
            Some((x, q)) => Some((TableValue::I32(i32_of_bits(x)), q)),
            None => None,
        }
    } else if tag == 76 {
        match get_u64(buf, p) {
            Some((x, q)) => Some((TableValue::I64(i64_of_bits(x)), q)),
            None => None,
        }
    } else if tag == 115 {
        match get_short_str(buf, p) {
            Some((s, q)) => Some((TableValue::SimpleString(s), q)),
            None => None,
        }
    } else if tag == 83 {
        match get_long_str(buf, p) {
            Some((s, q)) => Some((TableValue::LongString(s), q)),
            None => None,
        }
    } else if tag == 84 {
        match get_u64(buf, p) {
            Some((x, q)) => Some((TableValue::Timestamp(x), q)),
            None => None,
        }
    } else {
        None
    };
    proof {
        if r is Some {
            let t = r->Some_0;
            assert(buf@.subrange(pos as int, t.1 as int) =~= seq![table_value_tag(t.0)]
                + table_value_bytes(t.0));
        }
    }
    r
}

pub fn get_table(buf: &[u8], pos: usize) -> (r: Option<(Vec<TableEntry>, usize)>)
    requires
        pos <= buf@.len(),
    ensures
        match r {
            Some(t) => {
                &&& pos < t.1 <= buf@.len()
                &&& wf_table(t.0@)
                &&& buf@.subrange(pos as int, t.1 as int) == table_bytes(t.0@)
            },
            None => true,
        },
{
    let (n32, body_start) = match get_u32(buf, pos) {
        Some(t) => t,
        None => { return None },
    };
    let n = n32 as usize;
    if buf.len() - body_start < n {
        return None;
    }
    let end = body_start + n;
    let mut entries: Vec<TableEntry> = Vec::new();
    let mut q: usize = body_start;
    while q < end
        invariant
            body_start <= q <= end,
            end <= buf@.len(),
            forall|i: int| 0 <= i < entries@.len() ==> wf_table_entry(entries@[i]),
            buf@.subrange(body_start as int, q as int) == entries_bytes(entries@),
        decreases end - q,
    {
        let (key, p1) = match get_short_str(buf, q) {
            Some(t) => t,
            None => { return None },
        };
        if p1 >= end {
            return None;
        }
        let (val, p2) = match get_table_value(buf, p1) {
            Some(t) => t,
            None => { return None },
        };
        if p2 > end {
            return None;
        }
        let e = TableEntry { key, value: val };
        proof {
            lemma_entries_bytes_snoc(entries@, e);
            assert(buf@.subrange(body_start as int, p2 as int) =~= buf@.subrange(
                body_start as int, q as int) + buf@.subrange(q as int, p1 as int) + buf@.subrange(
                p1 as int, p2 as int));
            assert(table_entry_bytes(e) == short_str_bytes(e.key@) + seq![table_value_tag(e.value)]
                + table_value_bytes(e.value));
            assert(buf@.subrange(body_start as int, p2 as int) =~= entries_bytes(
                entries@.push(e)));
        }
        entries.push(e);
        q = p2;
    }
    proof {
        assert(entries_bytes(entries@).len() == n);
        assert(buf@.subrange(pos as int, end as int) =~= table_bytes(entries@));
    }
    Some((entries, end))
}

} // verus!

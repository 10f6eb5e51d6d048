//! The framing of one log record: a one-byte opcode, the key's length and the
//! value's length as little-endian `u32`, the key, then the value.

use vstd::prelude::*;

verus! {

/// One mutation, as it is staged, logged and replayed.
#[derive(Debug)]
pub enum Op {
    Put(Vec<u8>, Vec<u8>),
    Delete(Vec<u8>),
}

/// The mathematical value of an `Op`.
pub enum Record {
    Put(Seq<u8>, Seq<u8>),
    Delete(Seq<u8>),
}

impl View for Op {
    type V = Record;

    open spec fn view(&self) -> Record {
        match self {
            Op::Put(k, v) => Record::Put(k@, v@),
            Op::Delete(k) => Record::Delete(k@),
        }
    }
}

/// Opcode of a put frame.
pub const OP_PUT: u8 = 1;

/// Opcode of a delete frame.
pub const OP_DELETE: u8 = 2;

/// Bytes before the key: the opcode and the two lengths.
pub const HEADER_LEN: usize = 9;

/// The four bytes of `v`, least significant first.
pub open spec fn le_bytes(v: u32) -> Seq<u8> {
    seq![
        (v & 0xff) as u8,
        ((v >> 8) & 0xff) as u8,
        ((v >> 16) & 0xff) as u8,
        ((v >> 24) & 0xff) as u8,
    ]
}

/// The number whose least significant byte is `b[0]`.
pub open spec fn le_value(b: Seq<u8>) -> u32
    recommends
        b.len() == 4,
{
    (b[0] as u32) | ((b[1] as u32) << 8) | ((b[2] as u32) << 16) | ((b[3] as u32) << 24)
}

/// Reading back the four bytes of a number gives the number.
pub proof fn lemma_le_roundtrip(v: u32)
    ensures
        le_bytes(v).len() == 4,
        le_value(le_bytes(v)) == v,
{
    let b0 = (v & 0xff) as u8;
    let b1 = ((v >> 8) & 0xff) as u8;
    let b2 = ((v >> 16) & 0xff) as u8;
    let b3 = ((v >> 24) & 0xff) as u8;
    assert((b0 as u32) | ((b1 as u32) << 8) | ((b2 as u32) << 16) | ((b3 as u32) << 24) == v)
        by (bit_vector)
        requires
            b0 == (v & 0xff) as u8,
            b1 == ((v >> 8) & 0xff) as u8,
            b2 == ((v >> 16) & 0xff) as u8,
            b3 == ((v >> 24) & 0xff) as u8,
    ;
}

/// Whether both lengths of `r` fit the frame's header.
pub open spec fn encodable(r: Record) -> bool {
    match r {
        Record::Put(k, v) => k.len() <= u32::MAX && v.len() <= u32::MAX,
        Record::Delete(k) => k.len() <= u32::MAX,
    }
}

/// The frame of `r`.
pub open spec fn encode_record(r: Record) -> Seq<u8> {
    match r {
        Record::Put(k, v) => seq![OP_PUT] + le_bytes(k.len() as u32) + le_bytes(v.len() as u32)
            + k + v,
        Record::Delete(k) => seq![OP_DELETE] + le_bytes(k.len() as u32) + le_bytes(0u32) + k,
    }
}

/// What stands at the head of a byte stream.
pub enum Frame {
    /// A whole record, and the number of bytes it took.
    Record(Record, int),
    /// No byte is left.
    EndOfStream,
    /// Bytes are left that are no whole record: the header or the body is
    /// short, or the opcode is unknown.
    Truncated,
}

/// Decodes the frame at the head of `s`. A delete frame ends with its key,
/// whatever its header gives as the value's length.
pub open spec fn decode_frame(s: Seq<u8>) -> Frame {
    if s.len() == 0 {
        Frame::EndOfStream
    } else if s.len() < HEADER_LEN {
        Frame::Truncated
    } else {
        let kl = le_value(s.subrange(1, 5)) as int;
        let vl = le_value(s.subrange(5, 9)) as int;
        if s.len() < HEADER_LEN + kl {
            Frame::Truncated
        } else if s[0] == OP_PUT {
            if s.len() < HEADER_LEN + kl + vl {
                Frame::Truncated
            } else {
                Frame::Record(
                    Record::Put(
                        s.subrange(HEADER_LEN as int, HEADER_LEN + kl),
                        s.subrange(HEADER_LEN + kl, HEADER_LEN + kl + vl),
                    ),
                    HEADER_LEN + kl + vl,
                )
            }
        } else if s[0] == OP_DELETE {
            Frame::Record(
                Record::Delete(s.subrange(HEADER_LEN as int, HEADER_LEN + kl)),
                HEADER_LEN + kl,
            )
        } else {
            Frame::Truncated
        }
    }
}

/// Decodes the frame that starts at `pos` of `s`.
pub open spec fn decode_at(s: Seq<u8>, pos: int) -> Frame {
    if 0 <= pos < s.len() {
        decode_frame(s.skip(pos))
    } else {
        Frame::EndOfStream
    }
}

/// The frame of a record, followed by anything, decodes to that record.
pub proof fn lemma_decode_encoded(r: Record, rest: Seq<u8>)
    requires
        encodable(r),
    ensures
        decode_frame(encode_record(r) + rest) == Frame::Record(r, encode_record(r).len() as int),
        encode_record(r).len() >= HEADER_LEN,
{
    let s = encode_record(r) + rest;
    match r {
        Record::Put(k, v) => {
            let kl = k.len() as u32;
            let vl = v.len() as u32;
            lemma_le_roundtrip(kl);
            lemma_le_roundtrip(vl);
            assert(s.subrange(1, 5) =~= le_bytes(kl));
            assert(s.subrange(5, 9) =~= le_bytes(vl));
            assert(s.subrange(9, 9 + k.len() as int) =~= k);
            assert(s.subrange(9 + k.len() as int, 9 + k.len() + v.len() as int) =~= v);
            assert(s[0] == OP_PUT);
        },
        Record::Delete(k) => {
            let kl = k.len() as u32;
            lemma_le_roundtrip(kl);
            lemma_le_roundtrip(0u32);
            assert(s.subrange(1, 5) =~= le_bytes(kl));
            assert(s.subrange(5, 9) =~= le_bytes(0u32));
            assert(s.subrange(9, 9 + k.len() as int) =~= k);
            assert(s[0] == OP_DELETE);
        },
    }
}

/// A record that decodes from `s` decodes from `s` followed by anything.
pub proof fn lemma_decode_prefix(s: Seq<u8>, rest: Seq<u8>)
    requires
        decode_frame(s) is Record,
    ensures
        decode_frame(s + rest) == decode_frame(s),
        decode_frame(s)->Record_1 >= HEADER_LEN,
        decode_frame(s)->Record_1 <= s.len(),
        (s + rest).skip(decode_frame(s)->Record_1) == s.skip(decode_frame(s)->Record_1) + rest,
{
    let t = s + rest;
    let n = decode_frame(s)->Record_1;
    let kl = le_value(s.subrange(1, 5)) as int;
    let vl = le_value(s.subrange(5, 9)) as int;
    assert(t.subrange(1, 5) =~= s.subrange(1, 5));
    assert(t.subrange(5, 9) =~= s.subrange(5, 9));
    assert(t[0] == s[0]);
    assert(t.subrange(9, 9 + kl) =~= s.subrange(9, 9 + kl));
    if s[0] == OP_PUT {
        assert(t.subrange(9 + kl, 9 + kl + vl) =~= s.subrange(9 + kl, 9 + kl + vl));
    }
    assert(t.skip(n) =~= s.skip(n) + rest);
}

/// Appends the four bytes of `v`, least significant first.
pub fn write_u32(out: &mut Vec<u8>, v: u32)
    ensures
        final(out)@ == old(out)@ + le_bytes(v),
{
    let b0: u32 = v & 0xff;
    let b1: u32 = (v >> 8) & 0xff;
    let b2: u32 = (v >> 16) & 0xff;
    let b3: u32 = (v >> 24) & 0xff;
    assert(b0 < 256 && b1 < 256 && b2 < 256 && b3 < 256) by (bit_vector)
        requires
            b0 == v & 0xff,
            b1 == (v >> 8) & 0xff,
            b2 == (v >> 16) & 0xff,
            b3 == (v >> 24) & 0xff,
    ;
    out.push(b0 as u8);
    out.push(b1 as u8);
    out.push(b2 as u8);
    out.push(b3 as u8);
    assert(out@ =~= old(out)@ + le_bytes(v));
}

/// Reads the `u32` whose four bytes start at `pos`, if four bytes are there.
pub fn read_u32(bytes: &[u8], pos: usize) -> (r: Option<u32>)
    ensures
        r is Some <==> pos + 4 <= bytes@.len(),
        r is Some ==> r->0 == le_value(bytes@.subrange(pos as int, pos + 4)),
{
    if bytes.len() < 4 || pos > bytes.len() - 4 {
        return None;
    }
    let b0: u32 = bytes[pos] as u32;
    let b1: u32 = bytes[pos + 1] as u32;
    let b2: u32 = bytes[pos + 2] as u32;
    let b3: u32 = bytes[pos + 3] as u32;
    Some(b0 | (b1 << 8) | (b2 << 16) | (b3 << 24))
}

/// Appends `src` to `out`.
pub fn append_bytes(out: &mut Vec<u8>, src: &[u8])
    ensures
        final(out)@ == old(out)@ + src@,
{
    let mut i: usize = 0;
    while i < src.len()
        invariant
            i <= src@.len(),
            out@ == old(out)@ + src@.take(i as int),
        decreases src@.len() - i,
    {
        out.push(src[i]);
        i += 1;
        assert(out@ =~= old(out)@ + src@.take(i as int));
    }
    assert(src@.take(i as int) =~= src@);
}

/// The frame of a put of `value` under `key`.
pub fn encode_put(key: &[u8], value: &[u8]) -> (frame: Vec<u8>)
    requires
        key@.len() <= u32::MAX,
        value@.len() <= u32::MAX,
    ensures
        frame@ == encode_record(Record::Put(key@, value@)),
{
    let mut frame: Vec<u8> = Vec::new();
    frame.push(OP_PUT);
    write_u32(&mut frame, key.len() as u32);
    write_u32(&mut frame, value.len() as u32);
    append_bytes(&mut frame, key);
    append_bytes(&mut frame, value);
    assert(frame@ =~= encode_record(Record::Put(key@, value@)));
    frame
}

/// The frame of a delete of `key`.
pub fn encode_delete(key: &[u8]) -> (frame: Vec<u8>)
    requires
        key@.len() <= u32::MAX,
    ensures
        frame@ == encode_record(Record::Delete(key@)),
{
    let mut frame: Vec<u8> = Vec::new();
    frame.push(OP_DELETE);
    write_u32(&mut frame, key.len() as u32);
    write_u32(&mut frame, 0u32);
    append_bytes(&mut frame, key);
    assert(frame@ =~= encode_record(Record::Delete(key@)));
    frame
}

/// The frame of `op`.
pub fn encode(op: &Op) -> (frame: Vec<u8>)
    requires
        encodable(op@),
    ensures
        frame@ == encode_record(op@),
{
    match op {
        Op::Put(k, v) => encode_put(k.as_slice(), v.as_slice()),
        Op::Delete(k) => encode_delete(k.as_slice()),
    }
}

/// What `decode` found at a position of a byte stream.
#[derive(Debug)]
pub enum Decoded {
    /// A whole record, and the position after it.
    Record(Op, usize),
    /// No byte is left.
    EndOfStream,
    /// Bytes are left that are no whole record.
    Truncated,
}

/// A copy of `bytes[from..to]`.
pub fn copy_range(bytes: &[u8], from: usize, to: usize) -> (out: Vec<u8>)
    requires
        from <= to <= bytes@.len(),
    ensures
        out@ == bytes@.subrange(from as int, to as int),
{
    let mut out: Vec<u8> = Vec::new();
    let mut i: usize = from;
    while i < to
        invariant
            from <= i <= to <= bytes@.len(),
            out@ == bytes@.subrange(from as int, i as int),
        decreases to - i,
    {
        out.push(bytes[i]);
        i += 1;
        assert(out@ =~= bytes@.subrange(from as int, i as int));
    }
    out
}

/// Decodes the frame that starts at `pos` of `bytes`.
pub fn decode(bytes: &[u8], pos: usize) -> (r: Decoded)
    ensures
        match decode_at(bytes@, pos as int) {
            Frame::Record(rec, n) => r matches Decoded::Record(op, next) && op@ == rec && next
                == pos + n && next <= bytes@.len(),
            Frame::EndOfStream => r is EndOfStream,
            Frame::Truncated => r is Truncated,
        },
{
    let len = bytes.len();
    if pos >= len {
        return Decoded::EndOfStream;
    }
    let rest = len - pos;
    if rest < HEADER_LEN {
        return Decoded::Truncated;
    }
    let ghost s = bytes@.skip(pos as int);
    let opcode = bytes[pos];
    let kl = match read_u32(bytes, pos + 1) {
        Some(n) => n as usize,
        None => { return Decoded::Truncated; },
    };
    let vl = match read_u32(bytes, pos + 5) {
        Some(n) => n as usize,
        None => { return Decoded::Truncated; },
    };
    proof {
        assert(s.subrange(1, 5) =~= bytes@.subrange(pos + 1, pos + 5));
        assert(s.subrange(5, 9) =~= bytes@.subrange(pos + 5, pos + 9));
        assert(s[0] == bytes@[pos as int]);
    }
    let body = rest - HEADER_LEN;
    if body < kl {
        return Decoded::Truncated;
    }
    let key_at = pos + HEADER_LEN;
    if opcode == OP_PUT {
        if body - kl < vl {
            return Decoded::Truncated;
        }
        let key = copy_range(bytes, key_at, key_at + kl);
        let value = copy_range(bytes, key_at + kl, key_at + kl + vl);
        proof {
            assert(s.subrange(9, 9 + kl) =~= key@);
            assert(s.subrange(9 + kl, 9 + kl + vl) =~= value@);
        }
        Decoded::Record(Op::Put(key, value), key_at + kl + vl)
    } else if opcode == OP_DELETE {
        let key = copy_range(bytes, key_at, key_at + kl);
        proof {
            assert(s.subrange(9, 9 + kl) =~= key@);
        }
        Decoded::Record(Op::Delete(key), key_at + kl)
    } else {
        Decoded::Truncated
    }
}

} // verus!

//! A growable byte buffer with a read cursor, for building and taking apart
//! messages field by field. Integers are big-endian; a string is its byte
//! length as a 32-bit integer followed by its UTF-8 bytes.

use vstd::prelude::*;
use vstd::utf8::{encode_utf8, valid_utf8, decode_utf8, encode_utf8_decode_utf8, encode_utf8_valid_utf8};
use crate::bytes_be::{lemma_be16_round_trip, lemma_be32_round_trip, lemma_be64_round_trip, be16, be32, be64, from_be16, from_be32, from_be64, push_u16, push_u32, push_u64, get_u16, get_u32, get_u64};

verus! {

/// The one way a read from a packet fails: too few unread bytes, or bytes
/// that are not the value asked for.
#[derive(Debug, Clone, Copy, PartialEq, Eq, Structural)]
pub enum PacketError {
    ReadError,
}

impl PacketError {
    /// The message that describes the error.
    pub fn message(&self) -> (r: String)
        ensures
            r@ == "Failed to read packet."@,
    {
        proof { reveal_strlit("Failed to read packet."); }
        match self {
            PacketError::ReadError => String::from_str("Failed to read packet."),
        }
    }
}

/// Whether a read with this option moves the cursor: it does unless told not
/// to.
pub open spec fn moves(move_read_pos: Option<bool>) -> bool {
    match move_read_pos {
        Some(b) => b,
        None => true,
    }
}

/// The bytes that a read of `len` bytes at `pos` yields, or the error.
pub open spec fn spec_read_bytes(buf: Seq<u8>, pos: int, len: int) -> Result<Seq<u8>, PacketError> {
    if 0 <= len && pos + len <= buf.len() {
        Ok(buf.subrange(pos, pos + len))
    } else {
        Err(PacketError::ReadError)
    }
}

pub open spec fn spec_read_u16(buf: Seq<u8>, pos: int) -> Result<u16, PacketError> {
    match spec_read_bytes(buf, pos, 2) {
        Ok(s) => Ok(from_be16(s)),
        Err(e) => Err(e),
    }
}

pub open spec fn spec_read_u32(buf: Seq<u8>, pos: int) -> Result<u32, PacketError> {
    match spec_read_bytes(buf, pos, 4) {
        Ok(s) => Ok(from_be32(s)),
        Err(e) => Err(e),
    }
}

pub open spec fn spec_read_u64(buf: Seq<u8>, pos: int) -> Result<u64, PacketError> {
    match spec_read_bytes(buf, pos, 8) {
        Ok(s) => Ok(from_be64(s)),
        Err(e) => Err(e),
    }
}

/// The bytes of a string as a packet holds it: one length byte, then its
/// UTF-8 bytes.
pub open spec fn string_bytes(s: Seq<char>) -> Seq<u8> {
    seq![encode_utf8(s).len() as u8] + encode_utf8(s)
}

/// What reading a string at `pos` yields: the length byte, then that many
/// bytes right after it, which must be UTF-8.
pub open spec fn spec_read_string(buf: Seq<u8>, pos: int) -> Result<Seq<char>, PacketError> {
    match spec_read_bytes(buf, pos, 1) {
        Err(e) => Err(e),
        Ok(n) => match spec_read_bytes(buf, pos + 1, n[0] as int) {
            Err(e) => Err(e),
            Ok(b) => if valid_utf8(b) { Ok(decode_utf8(b)) } else { Err(PacketError::ReadError) },
        },
    }
}

/// Relies on `String::from_utf8`: it gives the string whose UTF-8 bytes are
/// exactly the vector, and fails where the bytes are not valid UTF-8.
#[verifier::external_body]
pub(crate) fn string_from_utf8(v: Vec<u8>) -> (r: Option<String>)
    ensures
        r.is_some() <==> valid_utf8(v@),
        r.is_some() ==> encode_utf8(r.unwrap()@) == v@,
{
    String::from_utf8(v).ok()
}

/// Copies a slice into a new vector.
pub fn copy_bytes(s: &[u8]) -> (r: Vec<u8>)
    ensures
        r@ == s@,
{
    let mut r: Vec<u8> = Vec::with_capacity(s.len());
    let mut i: usize = 0;
    while i < s.len()
        invariant
            i <= s@.len(),
            r@ == s@.subrange(0, i as int),
        decreases s@.len() - i,
    {
        r.push(s[i]);
        i += 1;
        assert(r@ =~= s@.subrange(0, i as int));
    }
    assert(s@.subrange(0, s@.len() as int) =~= s@);
    r
}

/// A buffer of bytes to write into and read from.
pub struct Packet {
    buffer: Vec<u8>,
    readable_buffer: Option<Vec<u8>>,
    read_pos: usize,
}

impl Packet {
    /// The bytes in the packet.
    pub closed spec fn buffer(&self) -> Seq<u8> {
        self.buffer@
    }

    /// The read cursor.
    pub closed spec fn pos(&self) -> int {
        self.read_pos as int
    }

    /// The copy of the bytes kept for reading, set by `set_bytes`.
    pub closed spec fn readable(&self) -> Option<Seq<u8>> {
        match self.readable_buffer {
            Some(v) => Some(v@),
            None => None,
        }
    }

    /// Well-formed: the cursor is within the bytes.
    pub open spec fn wf(&self) -> bool {
        self.pos() <= self.buffer().len()
    }

    /// Creates an empty packet without an ID.
    pub fn new() -> (r: Packet)
        ensures
            r.wf(),
            r.buffer() == Seq::<u8>::empty(),
            r.pos() == 0,
            r.readable() is None,
    {
        Packet { buffer: Vec::new(), readable_buffer: None, read_pos: 0 }
    }

    /// Creates a packet that starts with an ID. Used for sending data.
    pub fn new_with_id(id: i32) -> (r: Packet)
        ensures
            r.wf(),
            r.buffer() == be32(id as u32),
            r.pos() == 0,
            r.readable() is None,
    {
        let mut packet = Packet::new();
        packet.write_int(id);
        packet
    }

    /// Creates a packet that holds `data`, ready to be read. Used for
    /// receiving data.
    pub fn new_with_data(data: Vec<u8>) -> (r: Packet)
        ensures
            r.wf(),
            r.buffer() == data@,
            r.pos() == 0,
            r.readable() == Some(data@),
    {
        let mut packet = Packet::new();
        packet.set_bytes(data);
        packet
    }

    /// Replaces the packet's content with `data` and prepares it to be read.
    pub fn set_bytes(&mut self, data: Vec<u8>)
        requires
            old(self).wf(),
        ensures
            final(self).wf(),
            final(self).buffer() == data@,
            final(self).pos() == 0,
            final(self).readable() == Some(data@),
    {
        self.buffer.clear();
        self.read_pos = 0;
        self.write_bytes(data);
        let copy = copy_bytes(self.buffer.as_slice());
        self.readable_buffer = Some(copy);
    }

    /// Puts the length of the content, as a 32-bit integer, in front of it.
    pub fn write_length(&mut self)
        requires
            old(self).wf(),
        ensures
            final(self).wf(),
            final(self).buffer() == be32(old(self).buffer().len() as u32) + old(self).buffer(),
            final(self).pos() == old(self).pos(),
            final(self).readable() == old(self).readable(),
    {
        let length = self.buffer.len() as u32;
        self.insert_u32_front(length);
    }

    /// Puts an integer in front of the content.
    pub fn insert_int(&mut self, data: i32)
        requires
            old(self).wf(),
        ensures
            final(self).wf(),
            final(self).buffer() == be32(data as u32) + old(self).buffer(),
            final(self).pos() == old(self).pos(),
            final(self).readable() == old(self).readable(),
    {
        self.insert_u32_front(data as u32);
    }

    fn insert_u32_front(&mut self, x: u32)
        requires
            old(self).wf(),
        ensures
            final(self).wf(),
            final(self).buffer() == be32(x) + old(self).buffer(),
            final(self).pos() == old(self).pos(),
            final(self).readable() == old(self).readable(),
    {
        let mut front: Vec<u8> = Vec::new();
        push_u32(&mut front, x);
        front.append(&mut self.buffer);
        self.buffer = front;
    }

    /// How many bytes are left to read.
    pub fn unread_length(&self) -> (r: usize)
        requires
            self.wf(),
        ensures
            r == self.buffer().len() - self.pos(),
    {
        if self.read_pos <= self.buffer.len() {
            self.buffer.len() - self.read_pos
        } else {
            0
        }
    }

    /// With `full_reset`, empties the packet; otherwise moves the cursor back
    /// over the last 32-bit integer read (not before the start).
    pub fn reset(&mut self, full_reset: bool)
        requires
            old(self).wf(),
        ensures
            final(self).wf(),
            full_reset ==> final(self).buffer() == Seq::<u8>::empty() && final(self).pos() == 0
                && final(self).readable() is None,
            !full_reset ==> final(self).buffer() == old(self).buffer() && final(self).readable()
                == old(self).readable() && final(self).pos() == if old(self).pos() >= 4 {
                old(self).pos() - 4
            } else {
                0
            },
    {
        if full_reset {
            self.buffer.clear();
            self.readable_buffer = None;
            self.read_pos = 0;
        } else {
            self.read_pos = if self.read_pos >= 4 { self.read_pos - 4 } else { 0 };
        }
    }

    pub fn write_byte(&mut self, data: u8)
        requires
            old(self).wf(),
        ensures
            final(self).wf(),
            final(self).buffer() == old(self).buffer().push(data),
            final(self).pos() == old(self).pos(),
            final(self).readable() == old(self).readable(),
    {
        self.buffer.push(data)
    }

    pub fn write_bytes(&mut self, data: Vec<u8>)
        requires
            old(self).wf(),
        ensures
            final(self).wf(),
            final(self).buffer() == old(self).buffer() + data@,
            final(self).pos() == old(self).pos(),
            final(self).readable() == old(self).readable(),
    {
        let mut data = data;
        self.buffer.append(&mut data);
    }

    pub fn write_short(&mut self, data: i16)
        requires
            old(self).wf(),
        ensures
            final(self).wf(),
            final(self).buffer() == old(self).buffer() + be16(data as u16),
            final(self).pos() == old(self).pos(),
            final(self).readable() == old(self).readable(),
    {
        push_u16(&mut self.buffer, data as u16);
    }

    pub fn write_ushort(&mut self, data: u16)
        requires
            old(self).wf(),
        ensures
            final(self).wf(),
            final(self).buffer() == old(self).buffer() + be16(data),
            final(self).pos() == old(self).pos(),
            final(self).readable() == old(self).readable(),
    {
        push_u16(&mut self.buffer, data);
    }

    pub fn write_int(&mut self, data: i32)
        requires
            old(self).wf(),
        ensures
            final(self).wf(),
            final(self).buffer() == old(self).buffer() + be32(data as u32),
            final(self).pos() == old(self).pos(),
            final(self).readable() == old(self).readable(),
    {
        push_u32(&mut self.buffer, data as u32);
    }

    pub fn write_uint(&mut self, data: u32)
        requires
            old(self).wf(),
        ensures
            final(self).wf(),
            final(self).buffer() == old(self).buffer() + be32(data),
            final(self).pos() == old(self).pos(),
            final(self).readable() == old(self).readable(),
    {
        push_u32(&mut self.buffer, data);
    }

    pub fn write_long(&mut self, data: i64)
        requires
            old(self).wf(),
        ensures
            final(self).wf(),
            final(self).buffer() == old(self).buffer() + be64(data as u64),
            final(self).pos() == old(self).pos(),
            final(self).readable() == old(self).readable(),
    {
        push_u64(&mut self.buffer, data as u64);
    }

    pub fn write_bool(&mut self, data: bool)
        requires
            old(self).wf(),
        ensures
            final(self).wf(),
            final(self).buffer() == old(self).buffer().push(if data { 1u8 } else { 0u8 }),
            final(self).pos() == old(self).pos(),
            final(self).readable() == old(self).readable(),
    {
        self.buffer.push(if data { 1u8 } else { 0u8 });
    }

    /// Writes the string's byte length as one byte, then its bytes.
    pub fn write_string(&mut self, data: String)
        requires
            old(self).wf(),
            encode_utf8(data@).len() <= 255,
        ensures
            final(self).wf(),
            final(self).buffer() == old(self).buffer() + string_bytes(data@),
            final(self).pos() == old(self).pos(),
            final(self).readable() == old(self).readable(),
    {
        let bytes = copy_bytes(data.as_str().as_bytes());
        self.write_byte(bytes.len() as u8);
        self.write_bytes(bytes);
        assert(final(self).buffer() =~= old(self).buffer() + string_bytes(data@));
    }

    /// Writes an unsigned 64-bit integer.
    pub fn write_ulong(&mut self, data: u64)
        requires
            old(self).wf(),
        ensures
            final(self).wf(),
            final(self).buffer() == old(self).buffer() + be64(data),
            final(self).pos() == old(self).pos(),
            final(self).readable() == old(self).readable(),
    {
        push_u64(&mut self.buffer, data);
    }

    /// Reads one byte; the cursor moves past it unless `move_read_pos` is
    /// `Some(false)`.
    pub fn read_byte(&mut self, move_read_pos: Option<bool>) -> (r: Result<u8, PacketError>)
        requires
            old(self).wf(),
        ensures
            final(self).wf(),
            r == (if old(self).pos() + 1 <= old(self).buffer().len() {
                Ok(old(self).buffer()[old(self).pos()])
            } else {
                Err(PacketError::ReadError)
            }),
            final(self).buffer() == old(self).buffer(),
            final(self).readable() == old(self).readable(),
            final(self).pos() == if r is Ok && moves(move_read_pos) {
                old(self).pos() + 1
            } else {
                old(self).pos()
            },
    {
        if self.read_pos >= self.buffer.len() {
            return Err(PacketError::ReadError);
        }
        let data = self.buffer[self.read_pos];
        let mv = match move_read_pos {
            Some(b) => b,
            None => true,
        };
        if mv {
            self.read_pos = self.read_pos + 1;
        }
        Ok(data)
    }

    /// Reads `length` bytes; the cursor moves past them unless
    /// `move_read_pos` is `Some(false)`.
    pub fn read_bytes(&mut self, length: usize, move_read_pos: Option<bool>) -> (r: Result<
        Vec<u8>,
        PacketError,
    >)
        requires
            old(self).wf(),
        ensures
            final(self).wf(),
            match r {
                Ok(v) => spec_read_bytes(old(self).buffer(), old(self).pos(), length as int) == Ok::<
                    Seq<u8>,
                    PacketError,
                >(v@),
                Err(e) => spec_read_bytes(old(self).buffer(), old(self).pos(), length as int) == Err::<
                    Seq<u8>,
                    PacketError,
                >(e),
            },
            final(self).buffer() == old(self).buffer(),
            final(self).readable() == old(self).readable(),
            final(self).pos() == if r is Ok && moves(move_read_pos) {
                old(self).pos() + length
            } else {
                old(self).pos()
            },
    {
        if self.read_pos > self.buffer.len() || length > self.buffer.len() - self.read_pos {
            return Err(PacketError::ReadError);
        }
        let pos = self.read_pos;
        let buf = &self.buffer;
        let n = buf.len();
        let mut data: Vec<u8> = Vec::with_capacity(length);
        let mut i: usize = 0;
        while i < length
            invariant
                n == buf@.len(),
                pos + length <= n,
                i <= length,
                data@ == buf@.subrange(pos as int, pos + i),
            decreases length - i,
        {
            data.push(buf[pos + i]);
            i += 1;
            assert(data@ =~= buf@.subrange(pos as int, pos + i));
        }
        let mv = match move_read_pos {
            Some(b) => b,
            None => true,
        };
        if mv {
            self.read_pos = self.read_pos + length;
        }
        Ok(data)
    }

    pub fn read_short(&mut self, move_read_pos: Option<bool>) -> (r: Result<i16, PacketError>)
        requires
            old(self).wf(),
        ensures
            final(self).wf(),
            r == (match spec_read_u16(old(self).buffer(), old(self).pos()) {
                Ok(x) => Ok(x as i16),
                Err(e) => Err(e),
            }),
            final(self).buffer() == old(self).buffer(),
            final(self).readable() == old(self).readable(),
            final(self).pos() == if r is Ok && moves(move_read_pos) {
                old(self).pos() + 2
            } else {
                old(self).pos()
            },
    {
        match self.read_ushort(move_read_pos) {
            Ok(x) => Ok(x as i16),
            Err(e) => Err(e),
        }
    }

    pub fn read_ushort(&mut self, move_read_pos: Option<bool>) -> (r: Result<u16, PacketError>)
        requires
            old(self).wf(),
        ensures
            final(self).wf(),
            r == spec_read_u16(old(self).buffer(), old(self).pos()),
            final(self).buffer() == old(self).buffer(),
            final(self).readable() == old(self).readable(),
            final(self).pos() == if r is Ok && moves(move_read_pos) {
                old(self).pos() + 2
            } else {
                old(self).pos()
            },
    {
        let data = self.read_bytes(2, move_read_pos)?;
        Ok(get_u16(data.as_slice(), 0))
    }

    pub fn read_int(&mut self, move_read_pos: Option<bool>) -> (r: Result<i32, PacketError>)
        requires
            old(self).wf(),
        ensures
            final(self).wf(),
            r == (match spec_read_u32(old(self).buffer(), old(self).pos()) {
                Ok(x) => Ok(x as i32),
                Err(e) => Err(e),
            }),
            final(self).buffer() == old(self).buffer(),
            final(self).readable() == old(self).readable(),
            final(self).pos() == if r is Ok && moves(move_read_pos) {
                old(self).pos() + 4
            } else {
                old(self).pos()
            },
    {
        match self.read_uint(move_read_pos) {
            Ok(x) => Ok(x as i32),
            Err(e) => Err(e),
        }
    }

    pub fn read_uint(&mut self, move_read_pos: Option<bool>) -> (r: Result<u32, PacketError>)
        requires
            old(self).wf(),
        ensures
            final(self).wf(),
            r == spec_read_u32(old(self).buffer(), old(self).pos()),
            final(self).buffer() == old(self).buffer(),
            final(self).readable() == old(self).readable(),
            final(self).pos() == if r is Ok && moves(move_read_pos) {
                old(self).pos() + 4
            } else {
                old(self).pos()
            },
    {
        let data = self.read_bytes(4, move_read_pos)?;
        Ok(get_u32(data.as_slice(), 0))
    }

    pub fn read_long(&mut self, move_read_pos: Option<bool>) -> (r: Result<i64, PacketError>)
        requires
            old(self).wf(),
        ensures
            final(self).wf(),
            r == (match spec_read_u64(old(self).buffer(), old(self).pos()) {
                Ok(x) => Ok(x as i64),
                Err(e) => Err(e),
            }),
            final(self).buffer() == old(self).buffer(),
            final(self).readable() == old(self).readable(),
            final(self).pos() == if r is Ok && moves(move_read_pos) {
                old(self).pos() + 8
            } else {
                old(self).pos()
            },
    {
        let data = self.read_bytes(8, move_read_pos)?;
        Ok(get_u64(data.as_slice(), 0) as i64)
    }

    /// Reads an unsigned 64-bit integer.
    pub fn read_ulong(&mut self, move_read_pos: Option<bool>) -> (r: Result<u64, PacketError>)
        requires
            old(self).wf(),
        ensures
            final(self).wf(),
            r == spec_read_u64(old(self).buffer(), old(self).pos()),
            final(self).buffer() == old(self).buffer(),
            final(self).readable() == old(self).readable(),
            final(self).pos() == if r is Ok && moves(move_read_pos) {
                old(self).pos() + 8
            } else {
                old(self).pos()
            },
    {
        let data = self.read_bytes(8, move_read_pos)?;
        Ok(get_u64(data.as_slice(), 0))
    }

    /// Reads one byte as a boolean: any byte but 0 is `true`.
    pub fn read_bool(&mut self, move_read_pos: Option<bool>) -> (r: Result<bool, PacketError>)
        requires
            old(self).wf(),
        ensures
            final(self).wf(),
            r == (if old(self).pos() + 1 <= old(self).buffer().len() {
                Ok(old(self).buffer()[old(self).pos()] != 0)
            } else {
                Err(PacketError::ReadError)
            }),
            final(self).buffer() == old(self).buffer(),
            final(self).readable() == old(self).readable(),
            final(self).pos() == if r is Ok && moves(move_read_pos) {
                old(self).pos() + 1
            } else {
                old(self).pos()
            },
    {
        let data = self.read_byte(move_read_pos)?;
        Ok(data != 0)
    }

    /// Reads a string: a length byte, then that many bytes of UTF-8. Too
    /// few bytes, or bytes that are not UTF-8, give an error and leave the
    /// cursor where it was; otherwise the cursor moves past the whole string
    /// unless `move_read_pos` is `Some(false)`.
    pub fn read_string(&mut self, move_read_pos: Option<bool>) -> (r: Result<String, PacketError>)
        requires
            old(self).wf(),
        ensures
            final(self).wf(),
            match r {
                Ok(s) => spec_read_string(old(self).buffer(), old(self).pos()) == Ok::<Seq<char>, PacketError>(s@),
                Err(e) => spec_read_string(old(self).buffer(), old(self).pos()) is Err,
            },
            final(self).buffer() == old(self).buffer(),
            final(self).readable() == old(self).readable(),
            final(self).pos() == match r {
                Ok(s) => if moves(move_read_pos) {
                    old(self).pos() + string_bytes(s@).len()
                } else {
                    old(self).pos()
                },
                Err(_) => old(self).pos(),
            },
    {
        let pos = self.read_pos;
        let buf = &self.buffer;
        let n = buf.len();
        if pos >= n {
            return Err(PacketError::ReadError);
        }
        let length = buf[pos] as usize;
        if length > n - pos - 1 {
            return Err(PacketError::ReadError);
        }
        let start = pos + 1;
        let mut data: Vec<u8> = Vec::with_capacity(length);
        let mut i: usize = 0;
        while i < length
            invariant
                n == buf@.len(),
                start + length <= n,
                i <= length,
                data@ == buf@.subrange(start as int, start + i),
            decreases length - i,
        {
            data.push(buf[start + i]);
            i += 1;
            assert(data@ =~= buf@.subrange(start as int, start + i));
        }
        assert(buf@.subrange(pos as int, pos + 1)[0] == buf@[pos as int]);
        let ghost b = data@;
        proof {
            if valid_utf8(b) {
                vstd::utf8::decode_utf8_encode_utf8(b);
            }
        }
        match string_from_utf8(data) {
            Some(s) => {
                proof { encode_utf8_decode_utf8(s@); }
                let mv = match move_read_pos {
                    Some(m) => m,
                    None => true,
                };
                if mv {
                    self.read_pos = start + length;
                }
                Ok(s)
            },
            None => Err(PacketError::ReadError),
        }
    }

    /// Empties the packet.
    pub fn deinit(&mut self)
        requires
            old(self).wf(),
        ensures
            final(self).wf(),
            final(self).buffer() == Seq::<u8>::empty(),
            final(self).pos() == 0,
            final(self).readable() is None,
    {
        self.buffer.clear();
        self.readable_buffer = None;
        self.read_pos = 0;
    }
}

/// A byte written after everything already read is the next byte read.
pub proof fn lemma_round_trip_u8(buf: Seq<u8>, x: u8)
    ensures
        buf.len() + 1 <= buf.push(x).len() && buf.push(x)[buf.len() as int] == x,
{
}

/// A boolean written after everything already read is the next boolean read.
pub proof fn lemma_round_trip_bool(buf: Seq<u8>, b: bool)
    ensures
        (buf.push(if b { 1u8 } else { 0u8 })[buf.len() as int] != 0) == b,
{
}

/// An unsigned 16-bit value written after everything already read is the
/// next one read.
pub proof fn lemma_round_trip_u16(buf: Seq<u8>, x: u16)
    ensures
        spec_read_u16(buf + be16(x), buf.len() as int) == Ok::<u16, PacketError>(x),
{
    lemma_be16_round_trip(x);
    assert((buf + be16(x)).subrange(buf.len() as int, buf.len() + 2int) =~= be16(x));
}

/// A signed 16-bit value written after everything already read is the next
/// one read.
pub proof fn lemma_round_trip_i16(buf: Seq<u8>, x: i16)
    ensures
        spec_read_u16(buf + be16(x as u16), buf.len() as int) == Ok::<u16, PacketError>(x as u16),
        ((x as u16) as i16) == x,
{
    lemma_round_trip_u16(buf, x as u16);
    assert(((x as u16) as i16) == x) by (bit_vector);
}

/// An unsigned 32-bit value written after everything already read is the
/// next one read.
pub proof fn lemma_round_trip_u32(buf: Seq<u8>, x: u32)
    ensures
        spec_read_u32(buf + be32(x), buf.len() as int) == Ok::<u32, PacketError>(x),
{
    lemma_be32_round_trip(x);
    assert((buf + be32(x)).subrange(buf.len() as int, buf.len() + 4int) =~= be32(x));
}

/// A signed 32-bit value written after everything already read is the next
/// one read.
pub proof fn lemma_round_trip_i32(buf: Seq<u8>, x: i32)
    ensures
        spec_read_u32(buf + be32(x as u32), buf.len() as int) == Ok::<u32, PacketError>(x as u32),
        ((x as u32) as i32) == x,
{
    lemma_round_trip_u32(buf, x as u32);
    assert(((x as u32) as i32) == x) by (bit_vector);
}

/// An unsigned 64-bit value written after everything already read is the
/// next one read.
pub proof fn lemma_round_trip_u64(buf: Seq<u8>, x: u64)
    ensures
        spec_read_u64(buf + be64(x), buf.len() as int) == Ok::<u64, PacketError>(x),
{
    lemma_be64_round_trip(x);
    assert((buf + be64(x)).subrange(buf.len() as int, buf.len() + 8int) =~= be64(x));
}

/// A signed 64-bit value written after everything already read is the next
/// one read.
pub proof fn lemma_round_trip_i64(buf: Seq<u8>, x: i64)
    ensures
        spec_read_u64(buf + be64(x as u64), buf.len() as int) == Ok::<u64, PacketError>(x as u64),
        ((x as u64) as i64) == x,
{
    lemma_round_trip_u64(buf, x as u64);
    assert(((x as u64) as i64) == x) by (bit_vector);
}

/// A string of at most 255 bytes written after everything already read is
/// the next string read, and it takes its length byte and its bytes.
pub proof fn lemma_round_trip_string(buf: Seq<u8>, s: Seq<char>)
    requires
        encode_utf8(s).len() <= 255,
    ensures
        spec_read_string(buf + string_bytes(s), buf.len() as int) == Ok::<Seq<char>, PacketError>(s),
        string_bytes(s).len() == 1 + encode_utf8(s).len(),
{
    let b = encode_utf8(s);
    let all = buf + string_bytes(s);
    assert(all.subrange(buf.len() as int, buf.len() + 1int)[0] == b.len() as u8);
    assert(all.subrange(buf.len() + 1int, buf.len() + 1int + b.len()) =~= b);
    encode_utf8_valid_utf8(s);
    encode_utf8_decode_utf8(s);
}

/// A packet with nothing left to read has its cursor at the end of its
/// bytes, so the laws above apply to it with `buf` its bytes.
pub proof fn lemma_nothing_left_is_end(p: Packet)
    requires
        p.wf(),
        p.buffer().len() - p.pos() == 0,
    ensures
        p.pos() == p.buffer().len(),
{
}

} // verus!

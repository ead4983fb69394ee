//! Reading values from their PackStream wire form.

use crate::bytes::{
    be16_value, be32_value, be64_value, be_to_i16, be_to_i32, be_to_i64, be_to_u16, be_to_u32,
    be_to_u64, signed16, signed32, signed64,
};
use crate::value::{bind, entries_of, insert, lemma_view, terms_of, CodecError, Term, Value};
use vstd::prelude::*;
use vstd::slice::{slice_subrange, slice_to_vec};
use vstd::utf8::{decode_utf8, encode_utf8, encode_utf8_decode_utf8, valid_utf8};

verus! {

/// What follows a size on the wire.
#[derive(Clone, Copy, Debug, PartialEq, Eq, Structural)]
pub enum Shape {
    /// That many bytes of UTF-8.
    Text,
    /// That many values.
    List,
    /// That many pairs of a key and a value.
    Dictionary,
    /// A signature byte, then that many values.
    Structure,
}

/// What the decoder gives: a value and the position behind it, or an error.
pub type Decoded = Result<(Term, int), CodecError>;

/// `n` bytes are there from `pos` on.
pub open spec fn avail(bytes: Seq<u8>, pos: int, n: int) -> bool {
    0 <= pos && 0 <= n && pos + n <= bytes.len()
}

/// The `n` bytes from `pos` on.
pub open spec fn window(bytes: Seq<u8>, pos: int, n: int) -> Seq<u8> {
    bytes.subrange(pos, pos + n)
}

/// The number that one byte stands for in two's complement.
pub open spec fn signed8(b: u8) -> i64 {
    if b >= 0x80 {
        (b - 0x100) as i64
    } else {
        b as i64
    }
}

/// The value that starts at `pos`, with the position behind it.
///
/// The first byte is the marker. It is a small integer itself, or it gives the
/// kind of the value; what follows is fixed by it.
pub open spec fn decode(bytes: Seq<u8>, pos: int) -> Decoded
    decreases bytes.len() - pos, 0int, 0int,
{
    if !avail(bytes, pos, 1) {
        Err(CodecError::DecodeTruncated)
    } else {
        let marker = bytes[pos];
        let at = pos + 1;
        if marker < 0x80 {
            Ok((Term::Integer(marker as i64), at))
        } else if marker < 0x90 {
            decode_body(bytes, at, Shape::Text, (marker - 0x80) as nat)
        } else if marker < 0xA0 {
            decode_body(bytes, at, Shape::List, (marker - 0x90) as nat)
        } else if marker < 0xB0 {
            decode_body(bytes, at, Shape::Dictionary, (marker - 0xA0) as nat)
        } else if marker < 0xC0 {
            decode_body(bytes, at, Shape::Structure, (marker - 0xB0) as nat)
        } else if marker == 0xC0 {
            Ok((Term::Null, at))
        } else if marker == 0xC1 {
            if avail(bytes, at, 8) {
                Ok((Term::Float(be64_value(window(bytes, at, 8))), at + 8))
            } else {
                Err(CodecError::DecodeTruncated)
            }
        } else if marker == 0xC2 {
            Ok((Term::Boolean(false), at))
        } else if marker == 0xC3 {
            Ok((Term::Boolean(true), at))
        } else if marker == 0xC8 {
            if avail(bytes, at, 1) {
                Ok((Term::Integer(signed8(bytes[at])), at + 1))
            } else {
                Err(CodecError::DecodeTruncated)
            }
        } else if marker == 0xC9 {
            if avail(bytes, at, 2) {
                Ok((Term::Integer(signed16(be16_value(window(bytes, at, 2))) as i64), at + 2))
            } else {
                Err(CodecError::DecodeTruncated)
            }
        } else if marker == 0xCA {
            if avail(bytes, at, 4) {
                Ok((Term::Integer(signed32(be32_value(window(bytes, at, 4))) as i64), at + 4))
            } else {
                Err(CodecError::DecodeTruncated)
            }
        } else if marker == 0xCB {
            if avail(bytes, at, 8) {
                Ok((Term::Integer(signed64(be64_value(window(bytes, at, 8)))), at + 8))
            } else {
                Err(CodecError::DecodeTruncated)
            }
        } else if marker == 0xD0 {
            decode_sized(bytes, at, 1, Shape::Text)
        } else if marker == 0xD1 {
            decode_sized(bytes, at, 2, Shape::Text)
        } else if marker == 0xD2 {
            decode_sized(bytes, at, 4, Shape::Text)
        } else if marker == 0xD4 {
            decode_sized(bytes, at, 1, Shape::List)
        } else if marker == 0xD5 {
            decode_sized(bytes, at, 2, Shape::List)
        } else if marker == 0xD6 {
            decode_sized(bytes, at, 4, Shape::List)
        } else if marker == 0xD8 {
            decode_sized(bytes, at, 1, Shape::Dictionary)
        } else if marker == 0xD9 {
            decode_sized(bytes, at, 2, Shape::Dictionary)
        } else if marker == 0xDA {
            decode_sized(bytes, at, 4, Shape::Dictionary)
        } else if marker == 0xDC {
            decode_sized(bytes, at, 1, Shape::Structure)
        } else if marker == 0xDD {
            decode_sized(bytes, at, 2, Shape::Structure)
        } else if marker >= 0xF0 {
            Ok((Term::Integer((marker - 0x100) as i64), at))
        } else {
            Err(CodecError::DecodeMarker)
        }
    }
}

/// A size of `width` bytes (one, two or four) at `pos`, then a body of that
/// size and of the given shape.
pub open spec fn decode_sized(bytes: Seq<u8>, pos: int, width: int, shape: Shape) -> Decoded
    decreases bytes.len() - pos, 3int, 0int,
{
    if !avail(bytes, pos, width) {
        Err(CodecError::DecodeTruncated)
    } else {
        let size = if width == 1 {
            bytes[pos] as nat
        } else if width == 2 {
            be16_value(window(bytes, pos, 2)) as nat
        } else {
            be32_value(window(bytes, pos, 4)) as nat
        };
        decode_body(bytes, pos + width, shape, size)
    }
}

/// The body of a string or container at `pos`, whose header gave `size`.
pub open spec fn decode_body(bytes: Seq<u8>, pos: int, shape: Shape, size: nat) -> Decoded
    decreases bytes.len() - pos, 2int, 0int,
{
    match shape {
        Shape::Text => if !avail(bytes, pos, size as int) {
            Err(CodecError::DecodeTruncated)
        } else if !valid_utf8(window(bytes, pos, size as int)) {
            Err(CodecError::DecodeText)
        } else {
            Ok((Term::String(decode_utf8(window(bytes, pos, size as int))), pos + size))
        },
        Shape::List => if !avail(bytes, pos, 0) {
            Err(CodecError::DecodeTruncated)
        } else {
            match decode_items(bytes, pos, size, Seq::empty()) {
                Ok((items, next)) => Ok((Term::List(items), next)),
                Err(e) => Err(e),
            }
        },
        Shape::Dictionary => if !avail(bytes, pos, 0) {
            Err(CodecError::DecodeTruncated)
        } else {
            match decode_entries(bytes, pos, size, Seq::empty()) {
                Ok((entries, next)) => Ok((Term::Dictionary(entries), next)),
                Err(e) => Err(e),
            }
        },
        Shape::Structure => if !avail(bytes, pos, 1) {
            Err(CodecError::DecodeTruncated)
        } else {
            match decode_items(bytes, pos + 1, size, Seq::empty()) {
                Ok((fields, next)) => Ok((Term::Structure { signature: bytes[pos], fields }, next)),
                Err(e) => Err(e),
            }
        },
    }
}

/// `n` values one after the other from `pos` on, added to `acc` in order.
pub open spec fn decode_items(bytes: Seq<u8>, pos: int, n: nat, acc: Seq<Term>) -> Result<
    (Seq<Term>, int),
    CodecError,
>
    decreases bytes.len() - pos, 1int, n,
{
    if n == 0 {
        Ok((acc, pos))
    } else {
        match decode(bytes, pos) {
            Err(e) => Err(e),
            Ok((item, next)) => if pos < next <= bytes.len() {
                decode_items(bytes, next, (n - 1) as nat, acc.push(item))
            } else {
                Err(CodecError::DecodeTruncated)
            },
        }
    }
}

/// `n` pairs of a key and a value from `pos` on, bound in `acc` in order: of
/// two entries under one key the later one stays. A key must be a string.
pub open spec fn decode_entries(
    bytes: Seq<u8>,
    pos: int,
    n: nat,
    acc: Seq<(Seq<char>, Term)>,
) -> Result<(Seq<(Seq<char>, Term)>, int), CodecError>
    decreases bytes.len() - pos, 1int, n,
{
    if n == 0 {
        Ok((acc, pos))
    } else {
        match decode(bytes, pos) {
            Err(e) => Err(e),
            Ok((Term::String(key), at)) => if pos < at <= bytes.len() {
                match decode(bytes, at) {
                    Err(e) => Err(e),
                    Ok((value, next)) => if at < next <= bytes.len() {
                        decode_entries(bytes, next, (n - 1) as nat, bind(acc, key, value))
                    } else {
                        Err(CodecError::DecodeTruncated)
                    },
                }
            } else {
                Err(CodecError::DecodeTruncated)
            },
            Ok(_) => Err(CodecError::DecodeMapKey),
        }
    }
}

/// Calls `String::from_utf8`, of std. Trusted: it accepts exactly the
/// well-formed UTF-8, and the string then holds the bytes it was given.
#[verifier::external_body]
fn string_from_utf8(bytes: Vec<u8>) -> (r: Option<String>)
    ensures
        r is Some <==> valid_utf8(bytes@),
        r matches Some(s) ==> encode_utf8(s@) == bytes@,
{
    String::from_utf8(bytes).ok()
}

/// What a decoding step gave, with the value taken by its content.
pub open spec fn decoded(r: Result<(Value, usize), CodecError>) -> Decoded {
    match r {
        Ok((v, next)) => Ok((v@, next as int)),
        Err(e) => Err(e),
    }
}

/// Reads the `size` bytes of a string at `pos`.
fn unpack_text(buf: &[u8], pos: usize, size: usize) -> (r: Result<(Value, usize), CodecError>)
    requires
        pos <= buf.len(),
    ensures
        decoded(r) == decode_body(buf@, pos as int, Shape::Text, size as nat),
        r matches Ok((_, next)) ==> pos <= next <= buf.len(),
{
    if size > buf.len() - pos {
        return Err(CodecError::DecodeTruncated);
    }
    let raw = slice_to_vec(slice_subrange(buf, pos, pos + size));
    match string_from_utf8(raw) {
        Some(s) => {
            proof {
                encode_utf8_decode_utf8(s@);
            }
            Ok((Value::String(s), pos + size))
        },
        None => Err(CodecError::DecodeText),
    }
}

/// Reads `n` values one after the other.
fn unpack_items(buf: &[u8], pos: usize, n: usize) -> (r: Result<(Vec<Value>, usize), CodecError>)
    requires
        pos <= buf.len(),
    ensures
        match r {
            Ok((items, next)) => decode_items(buf@, pos as int, n as nat, Seq::empty()) == Ok::<
                _,
                CodecError,
            >((terms_of(items@), next as int)) && pos <= next <= buf.len(),
            Err(e) => decode_items(buf@, pos as int, n as nat, Seq::empty()) == Err::<
                (Seq<Term>, int),
                _,
            >(e),
        },
    decreases buf.len() - pos, 1int, n,
{
    let mut items: Vec<Value> = Vec::new();
    let mut cur: usize = pos;
    let mut i: usize = 0;
    assert(terms_of(items@) =~= Seq::empty());
    while i < n
        invariant
            pos <= cur <= buf.len(),
            i <= n,
            decode_items(buf@, pos as int, n as nat, Seq::empty()) == decode_items(
                buf@,
                cur as int,
                (n - i) as nat,
                terms_of(items@),
            ),
        decreases n - i,
    {
        let ghost acc = terms_of(items@);
        match unpack_at(buf, cur) {
            Err(e) => {
                return Err(e);
            },
            Ok((item, next)) => {
                items.push(item);
                assert(terms_of(items@) =~= acc.push(item@));
                cur = next;
                i += 1;
            },
        }
    }
    Ok((items, cur))
}

/// Reads `n` pairs of a key and a value.
fn unpack_entries(buf: &[u8], pos: usize, n: usize) -> (r: Result<
    (Vec<(String, Value)>, usize),
    CodecError,
>)
    requires
        pos <= buf.len(),
    ensures
        match r {
            Ok((entries, next)) => decode_entries(buf@, pos as int, n as nat, Seq::empty()) == Ok::<
                _,
                CodecError,
            >((entries_of(entries@), next as int)) && pos <= next <= buf.len(),
            Err(e) => decode_entries(buf@, pos as int, n as nat, Seq::empty()) == Err::<
                (Seq<(Seq<char>, Term)>, int),
                _,
            >(e),
        },
    decreases buf.len() - pos, 1int, n,
{
    let mut entries: Vec<(String, Value)> = Vec::new();
    let mut cur: usize = pos;
    let mut i: usize = 0;
    assert(entries_of(entries@) =~= Seq::empty());
    while i < n
        invariant
            pos <= cur <= buf.len(),
            i <= n,
            decode_entries(buf@, pos as int, n as nat, Seq::empty()) == decode_entries(
                buf@,
                cur as int,
                (n - i) as nat,
                entries_of(entries@),
            ),
        decreases n - i,
    {
        match unpack_at(buf, cur) {
            Err(e) => {
                return Err(e);
            },
            Ok((key, at)) => match key {
                Value::String(k) => match unpack_at(buf, at) {
                    Err(e) => {
                        return Err(e);
                    },
                    Ok((value, next)) => {
                        insert(&mut entries, k, value);
                        cur = next;
                        i += 1;
                    },
                },
                _ => {
                    return Err(CodecError::DecodeMapKey);
                },
            },
        }
    }
    Ok((entries, cur))
}

/// Reads the body of a string or container whose header gave `size`.
fn unpack_body(buf: &[u8], pos: usize, shape: Shape, size: usize) -> (r: Result<
    (Value, usize),
    CodecError,
>)
    requires
        pos <= buf.len(),
    ensures
        decoded(r) == decode_body(buf@, pos as int, shape, size as nat),
        r matches Ok((_, next)) ==> pos <= next <= buf.len(),
    decreases buf.len() - pos, 2int, 0int,
{
    match shape {
        Shape::Text => unpack_text(buf, pos, size),
        Shape::List => match unpack_items(buf, pos, size) {
            Ok((items, next)) => {
                let list = Value::List(items);
                proof {
                    lemma_view(list);
                }
                Ok((list, next))
            },
            Err(e) => Err(e),
        },
        Shape::Dictionary => match unpack_entries(buf, pos, size) {
            Ok((entries, next)) => {
                let map = Value::Dictionary(entries);
                proof {
                    lemma_view(map);
                }
                Ok((map, next))
            },
            Err(e) => Err(e),
        },
        Shape::Structure => {
            if pos >= buf.len() {
                return Err(CodecError::DecodeTruncated);
            }
            let signature = buf[pos];
            match unpack_items(buf, pos + 1, size) {
                Ok((fields, next)) => {
                    let structure = Value::Structure { signature, fields };
                    proof {
                        lemma_view(structure);
                    }
                    Ok((structure, next))
                },
                Err(e) => Err(e),
            }
        },
    }
}

/// Reads a size of `width` bytes, then the body that it announces.
fn unpack_sized(buf: &[u8], pos: usize, width: usize, shape: Shape) -> (r: Result<
    (Value, usize),
    CodecError,
>)
    requires
        pos <= buf.len(),
        width == 1 || width == 2 || width == 4,
    ensures
        decoded(r) == decode_sized(buf@, pos as int, width as int, shape),
        r matches Ok((_, next)) ==> pos < next <= buf.len(),
    decreases buf.len() - pos, 3int, 0int,
{
    if buf.len() - pos < width {
        return Err(CodecError::DecodeTruncated);
    }
    let size: usize = if width == 1 {
        buf[pos] as usize
    } else if width == 2 {
        be_to_u16(slice_subrange(buf, pos, pos + 2)) as usize
    } else {
        be_to_u32(slice_subrange(buf, pos, pos + 4)) as usize
    };
    unpack_body(buf, pos + width, shape, size)
}

/// Reads the value that starts at `pos`, and says where the next one starts.
pub fn unpack_at(buf: &[u8], pos: usize) -> (r: Result<(Value, usize), CodecError>)
    ensures
        decoded(r) == decode(buf@, pos as int),
        r matches Ok((_, next)) ==> pos < next <= buf.len(),
    decreases buf.len() - pos, 0int, 0int,
{
    if pos >= buf.len() {
        return Err(CodecError::DecodeTruncated);
    }
    let marker = buf[pos];
    let at = pos + 1;
    let left = buf.len() - at;
    if marker < 0x80 {
        Ok((Value::Integer(marker as i64), at))
    } else if marker < 0x90 {
        unpack_body(buf, at, Shape::Text, (marker - 0x80) as usize)
    } else if marker < 0xA0 {
        unpack_body(buf, at, Shape::List, (marker - 0x90) as usize)
    } else if marker < 0xB0 {
        unpack_body(buf, at, Shape::Dictionary, (marker - 0xA0) as usize)
    } else if marker < 0xC0 {
        unpack_body(buf, at, Shape::Structure, (marker - 0xB0) as usize)
    } else if marker == 0xC0 {
        Ok((Value::Null, at))
    } else if marker == 0xC1 {
        if left < 8 {
            Err(CodecError::DecodeTruncated)
        } else {
            Ok((Value::Float(be_to_u64(slice_subrange(buf, at, at + 8))), at + 8))
        }
    } else if marker == 0xC2 {
        Ok((Value::Boolean(false), at))
    } else if marker == 0xC3 {
        Ok((Value::Boolean(true), at))
    } else if marker == 0xC8 {
        if left < 1 {
            Err(CodecError::DecodeTruncated)
        } else {
            let b = buf[at];
            let n: i64 = if b >= 0x80 {
                b as i64 - 0x100
            } else {
                b as i64
            };
            Ok((Value::Integer(n), at + 1))
        }
    } else if marker == 0xC9 {
        if left < 2 {
            Err(CodecError::DecodeTruncated)
        } else {
            Ok((Value::Integer(be_to_i16(slice_subrange(buf, at, at + 2)) as i64), at + 2))
        }
    } else if marker == 0xCA {
        if left < 4 {
            Err(CodecError::DecodeTruncated)
        } else {
            Ok((Value::Integer(be_to_i32(slice_subrange(buf, at, at + 4)) as i64), at + 4))
        }
    } else if marker == 0xCB {
        if left < 8 {
            Err(CodecError::DecodeTruncated)
        } else {
            Ok((Value::Integer(be_to_i64(slice_subrange(buf, at, at + 8))), at + 8))
        }
    } else if marker == 0xD0 {
        unpack_sized(buf, at, 1, Shape::Text)
    } else if marker == 0xD1 {
        unpack_sized(buf, at, 2, Shape::Text)
    } else if marker == 0xD2 {
        unpack_sized(buf, at, 4, Shape::Text)
    } else if marker == 0xD4 {
        unpack_sized(buf, at, 1, Shape::List)
    } else if marker == 0xD5 {
        unpack_sized(buf, at, 2, Shape::List)
    } else if marker == 0xD6 {
        unpack_sized(buf, at, 4, Shape::List)
    } else if marker == 0xD8 {
        unpack_sized(buf, at, 1, Shape::Dictionary)
    } else if marker == 0xD9 {
        unpack_sized(buf, at, 2, Shape::Dictionary)
    } else if marker == 0xDA {
        unpack_sized(buf, at, 4, Shape::Dictionary)
    } else if marker == 0xDC {
        unpack_sized(buf, at, 1, Shape::Structure)
    } else if marker == 0xDD {
        unpack_sized(buf, at, 2, Shape::Structure)
    } else if marker >= 0xF0 {
        Ok((Value::Integer(marker as i64 - 0x100), at))
    } else {
        Err(CodecError::DecodeMarker)
    }
}

/// Reads the value at the start of `stream`; what follows it is not looked at.
pub fn unpack(stream: &[u8]) -> (r: Result<Value, CodecError>)
    ensures
        match r {
            Ok(v) => decode(stream@, 0) matches Ok((t, _)) && t == v@,
            Err(e) => decode(stream@, 0) == Err::<(Term, int), _>(e),
        },
{
    match unpack_at(stream, 0) {
        Ok((v, _)) => Ok(v),
        Err(e) => Err(e),
    }
}

impl Value {
    /// Reads the value at the start of `stream`; what follows it is not looked at.
    pub fn unpack(stream: &[u8]) -> (r: Result<Value, CodecError>)
        ensures
            match r {
                Ok(v) => decode(stream@, 0) matches Ok((t, _)) && t == v@,
                Err(e) => decode(stream@, 0) == Err::<(Term, int), _>(e),
            },
    {
        unpack(stream)
    }
}

/// A buffer of wire bytes and a position in it, from which values are read
/// one after the other.
pub struct Unpacker {
    buffer: Vec<u8>,
    unpack_ptr: usize,
}

impl Unpacker {
    /// The bytes in the buffer.
    pub closed spec fn bytes(&self) -> Seq<u8> {
        self.buffer@
    }

    /// The position of the next byte to read.
    pub closed spec fn position(&self) -> int {
        self.unpack_ptr as int
    }

    /// An empty buffer.
    pub fn new() -> (unpacker: Unpacker)
        ensures
            unpacker.bytes() == Seq::<u8>::empty(),
            unpacker.position() == 0,
    {
        Unpacker { buffer: Vec::new(), unpack_ptr: 0 }
    }

    /// A buffer that holds a copy of `src`, read from its start.
    pub fn from_slice(src: &[u8]) -> (unpacker: Unpacker)
        ensures
            unpacker.bytes() == src@,
            unpacker.position() == 0,
    {
        Unpacker { buffer: slice_to_vec(src), unpack_ptr: 0 }
    }

    /// Empties the buffer and goes back to its start.
    pub fn clear(&mut self)
        ensures
            final(self).bytes() == Seq::<u8>::empty(),
            final(self).position() == 0,
    {
        self.buffer.clear();
        self.unpack_ptr = 0;
    }

    /// Makes room for `size` more bytes at the end of the buffer and hands
    /// that room out to be filled. The room holds zeros until it is written.
    pub fn buffer(&mut self, size: usize) -> (room: &mut [u8])
        requires
            old(self).bytes().len() + size <= usize::MAX,
        ensures
            room@ == Seq::new(size as nat, |i: int| 0u8),
            final(self).bytes() == old(self).bytes() + final(room)@,
            final(self).position() == old(self).position(),
    {
        let start: usize = self.buffer.len();
        let mut i: usize = 0;
        while i < size
            invariant
                i <= size,
                start + size <= usize::MAX,
                self.unpack_ptr == old(self).unpack_ptr,
                self.buffer@ == old(self).buffer@ + Seq::new(i as nat, |j: int| 0u8),
            decreases size - i,
        {
            self.buffer.push(0);
            i += 1;
        }
        let (_, room) = self.buffer.as_mut_slice().split_at_mut(start);
        room
    }

    /// Reads the value at the position and moves behind it. On an error the
    /// position stays.
    pub fn unpack(&mut self) -> (r: Result<Value, CodecError>)
        ensures
            final(self).bytes() == old(self).bytes(),
            match r {
                Ok(v) => decode(old(self).bytes(), old(self).position()) == Ok::<_, CodecError>(
                    (v@, final(self).position()),
                ),
                Err(e) => decode(old(self).bytes(), old(self).position()) == Err::<(Term, int), _>(
                    e,
                ) && final(self).position() == old(self).position(),
            },
    {
        match unpack_at(self.buffer.as_slice(), self.unpack_ptr) {
            Ok((v, next)) => {
                self.unpack_ptr = next;
                Ok(v)
            },
            Err(e) => Err(e),
        }
    }

    /// Whether `n` bytes are left from the position on.
    fn left(&self, n: usize) -> (ok: bool)
        ensures
            ok == avail(self.bytes(), self.position(), n as int),
            self.bytes().len() <= usize::MAX,
    {
        self.unpack_ptr <= self.buffer.len() && self.buffer.len() - self.unpack_ptr >= n
    }

    /// Reads one byte.
    pub fn unpack_u8(&mut self) -> (r: Result<u8, CodecError>)
        ensures
            final(self).bytes() == old(self).bytes(),
            match r {
                Ok(n) => avail(old(self).bytes(), old(self).position(), 1) && n == old(
                    self,
                ).bytes()[old(self).position()] && final(self).position() == old(self).position()
                    + 1,
                Err(e) => e == CodecError::DecodeTruncated && !avail(
                    old(self).bytes(),
                    old(self).position(),
                    1,
                ) && final(self).position() == old(self).position(),
            },
    {
        if !self.left(1) {
            return Err(CodecError::DecodeTruncated);
        }
        let value: u8 = self.buffer[self.unpack_ptr];
        self.unpack_ptr += 1;
        Ok(value)
    }

    /// Reads one byte as a two's complement number.
    pub fn unpack_i8(&mut self) -> (r: Result<i8, CodecError>)
        ensures
            final(self).bytes() == old(self).bytes(),
            match r {
                Ok(n) => avail(old(self).bytes(), old(self).position(), 1) && n == signed8(
                    old(self).bytes()[old(self).position()],
                ) && final(self).position() == old(self).position() + 1,
                Err(e) => e == CodecError::DecodeTruncated && !avail(
                    old(self).bytes(),
                    old(self).position(),
                    1,
                ) && final(self).position() == old(self).position(),
            },
    {
        if !self.left(1) {
            return Err(CodecError::DecodeTruncated);
        }
        let byte: u8 = self.buffer[self.unpack_ptr];
        self.unpack_ptr += 1;
        if byte >= 0x80 {
            Ok((byte as i16 - 0x100) as i8)
        } else {
            Ok(byte as i8)
        }
    }

    /// Reads two bytes as a big-endian two's complement number.
    pub fn unpack_i16(&mut self) -> (r: Result<i16, CodecError>)
        ensures
            final(self).bytes() == old(self).bytes(),
            match r {
                Ok(n) => avail(old(self).bytes(), old(self).position(), 2) && n == signed16(
                    be16_value(window(old(self).bytes(), old(self).position(), 2)),
                ) && final(self).position() == old(self).position() + 2,
                Err(e) => e == CodecError::DecodeTruncated && !avail(
                    old(self).bytes(),
                    old(self).position(),
                    2,
                ) && final(self).position() == old(self).position(),
            },
    {
        if !self.left(2) {
            return Err(CodecError::DecodeTruncated);
        }
        let at: usize = self.unpack_ptr;
        let value = be_to_i16(slice_subrange(self.buffer.as_slice(), at, at + 2));
        self.unpack_ptr = at + 2;
        Ok(value)
    }

    /// Reads four bytes as a big-endian two's complement number.
    pub fn unpack_i32(&mut self) -> (r: Result<i32, CodecError>)
        ensures
            final(self).bytes() == old(self).bytes(),
            match r {
                Ok(n) => avail(old(self).bytes(), old(self).position(), 4) && n == signed32(
                    be32_value(window(old(self).bytes(), old(self).position(), 4)),
                ) && final(self).position() == old(self).position() + 4,
                Err(e) => e == CodecError::DecodeTruncated && !avail(
                    old(self).bytes(),
                    old(self).position(),
                    4,
                ) && final(self).position() == old(self).position(),
            },
    {
        if !self.left(4) {
            return Err(CodecError::DecodeTruncated);
        }
        let at: usize = self.unpack_ptr;
        let value = be_to_i32(slice_subrange(self.buffer.as_slice(), at, at + 4));
        self.unpack_ptr = at + 4;
        Ok(value)
    }

    /// Reads eight bytes as a big-endian two's complement number.
    pub fn unpack_i64(&mut self) -> (r: Result<i64, CodecError>)
        ensures
            final(self).bytes() == old(self).bytes(),
            match r {
                Ok(n) => avail(old(self).bytes(), old(self).position(), 8) && n == signed64(
                    be64_value(window(old(self).bytes(), old(self).position(), 8)),
                ) && final(self).position() == old(self).position() + 8,
                Err(e) => e == CodecError::DecodeTruncated && !avail(
                    old(self).bytes(),
                    old(self).position(),
                    8,
                ) && final(self).position() == old(self).position(),
            },
    {
        if !self.left(8) {
            return Err(CodecError::DecodeTruncated);
        }
        let at: usize = self.unpack_ptr;
        let value = be_to_i64(slice_subrange(self.buffer.as_slice(), at, at + 8));
        self.unpack_ptr = at + 8;
        Ok(value)
    }
}

} // verus!

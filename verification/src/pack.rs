//! Writing values in their PackStream wire form.

use crate::bytes::{
    be16, be32, be64, i16_to_be, i32_to_be, i64_to_be, u16_to_be, u32_to_be, u64_to_be,
    unsigned16, unsigned32, unsigned64,
};
use crate::value::{entries_of, lemma_view, terms_of, CodecError, Term, Value};
use vstd::prelude::*;
use vstd::utf8::encode_utf8;

verus! {

/// The marker byte of a null.
pub const NULL: u8 = 0xC0;

/// The marker byte of a float; the eight bytes of its bit pattern follow.
pub const FLOAT_64: u8 = 0xC1;

/// The marker byte of `false`.
pub const FALSE: u8 = 0xC2;

/// The marker byte of `true`.
pub const TRUE: u8 = 0xC3;

/// The marker byte of an integer of one byte.
pub const INT_8: u8 = 0xC8;

/// The marker byte of an integer of two bytes.
pub const INT_16: u8 = 0xC9;

/// The marker byte of an integer of four bytes.
pub const INT_32: u8 = 0xCA;

/// The marker byte of an integer of eight bytes.
pub const INT_64: u8 = 0xCB;

/// The low byte of the two's complement of `n`, for `-128 <= n < 128`.
pub open spec fn low_byte(n: i64) -> u8 {
    if n < 0 {
        (n + 0x100) as u8
    } else {
        n as u8
    }
}

/// The wire form of an integer: the narrowest of the five that holds it.
pub open spec fn encode_integer(n: i64) -> Seq<u8> {
    if -0x10 <= n < 0x80 {
        seq![low_byte(n)]
    } else if -0x80 <= n < 0x80 {
        seq![INT_8, low_byte(n)]
    } else if -0x8000 <= n < 0x8000 {
        seq![INT_16] + be16(unsigned16(n as i16))
    } else if -0x8000_0000 <= n < 0x8000_0000 {
        seq![INT_32] + be32(unsigned32(n as i32))
    } else {
        seq![INT_64] + be64(unsigned64(n))
    }
}

/// The header of a string, list or dictionary of `size` items: the size in
/// the low nibble of `tiny` where it fits, else behind the marker for the
/// narrowest of one, two or four bytes.
pub open spec fn size_header(tiny: u8, m8: u8, m16: u8, m32: u8, size: nat) -> Seq<u8>
    recommends
        size < 0x1_0000_0000,
{
    if size < 0x10 {
        seq![(tiny + size) as u8]
    } else if size < 0x100 {
        seq![m8, size as u8]
    } else if size < 0x1_0000 {
        seq![m16] + be16(size as u16)
    } else {
        seq![m32] + be32(size as u32)
    }
}

/// The header of a string of `size` bytes.
pub open spec fn string_header(size: nat) -> Seq<u8> {
    size_header(0x80, 0xD0, 0xD1, 0xD2, size)
}

/// The header of a list of `size` items.
pub open spec fn list_header(size: nat) -> Seq<u8> {
    size_header(0x90, 0xD4, 0xD5, 0xD6, size)
}

/// The header of a dictionary of `size` entries.
pub open spec fn map_header(size: nat) -> Seq<u8> {
    size_header(0xA0, 0xD8, 0xD9, 0xDA, size)
}

/// The header of a structure of `size` fields: the size, then the signature.
pub open spec fn structure_header(size: nat, signature: u8) -> Seq<u8>
    recommends
        size < 0x1_0000,
{
    if size < 0x10 {
        seq![(0xB0 + size) as u8, signature]
    } else if size < 0x100 {
        seq![0xDC, size as u8, signature]
    } else {
        seq![0xDD] + be16(size as u16) + seq![signature]
    }
}

/// The wire form of a string: its header, then its UTF-8 bytes.
pub open spec fn encode_text(s: Seq<char>) -> Seq<u8> {
    string_header(encode_utf8(s).len()) + encode_utf8(s)
}

/// The wire form of a value.
pub open spec fn encode(t: Term) -> Seq<u8>
    decreases t, 0int,
{
    match t {
        Term::Null => seq![NULL],
        Term::Boolean(b) => seq![if b { TRUE } else { FALSE }],
        Term::Integer(n) => encode_integer(n),
        Term::Float(bits) => seq![FLOAT_64] + be64(bits),
        Term::String(s) => encode_text(s),
        Term::List(items) => list_header(items.len()) + encode_items(items, 0),
        Term::Dictionary(entries) => map_header(entries.len()) + encode_entries(entries, 0),
        Term::Structure { signature, fields } => structure_header(fields.len(), signature)
            + encode_items(fields, 0),
    }
}

/// The wire forms of the items from index `from` on, one after the other.
pub open spec fn encode_items(items: Seq<Term>, from: int) -> Seq<u8>
    decreases items, items.len() - from,
{
    if 0 <= from < items.len() {
        encode(items[from]) + encode_items(items, from + 1)
    } else {
        Seq::empty()
    }
}

/// The wire forms of the entries from index `from` on: each key as a string,
/// then its value.
pub open spec fn encode_entries(entries: Seq<(Seq<char>, Term)>, from: int) -> Seq<u8>
    decreases entries, entries.len() - from,
{
    if 0 <= from < entries.len() {
        encode_text(entries[from].0) + encode(entries[from].1) + encode_entries(entries, from + 1)
    } else {
        Seq::empty()
    }
}

/// Whether every string and container inside `t` has a header for its size:
/// under 2^32 bytes or items, and under 2^16 fields for a structure.
pub open spec fn encodable(t: Term) -> bool
    decreases t,
{
    match t {
        Term::String(s) => encode_utf8(s).len() < 0x1_0000_0000,
        Term::List(items) => items.len() < 0x1_0000_0000 && forall|i: int|
            0 <= i < items.len() ==> encodable(#[trigger] items[i]),
        Term::Dictionary(entries) => entries.len() < 0x1_0000_0000 && forall|i: int|
            0 <= i < entries.len() ==> encode_utf8((#[trigger] entries[i]).0).len()
                < 0x1_0000_0000 && encodable(entries[i].1),
        Term::Structure { signature, fields } => fields.len() < 0x1_0000 && forall|i: int|
            0 <= i < fields.len() ==> encodable(#[trigger] fields[i]),
        _ => true,
    }
}

/// Whether `size` can stand in a four-byte header.
fn fits_u32(size: usize) -> (ok: bool)
    ensures
        ok == (size < 0x1_0000_0000),
{
    size as u64 <= 0xFFFF_FFFFu64
}

/// The low byte of a small integer.
fn low_byte_of(n: i64) -> (b: u8)
    requires
        -0x80 <= n < 0x80,
    ensures
        b == low_byte(n),
{
    if n < 0 {
        (n + 0x100) as u8
    } else {
        n as u8
    }
}

/// Appends a null.
pub fn pack_null(out: &mut Vec<u8>)
    ensures
        final(out)@ == old(out)@ + encode(Term::Null),
{
    out.push(NULL);
    assert(out@ =~= old(out)@ + encode(Term::Null));
}

/// Appends a boolean.
pub fn pack_boolean(value: bool, out: &mut Vec<u8>)
    ensures
        final(out)@ == old(out)@ + encode(Term::Boolean(value)),
{
    out.push(
        if value {
            TRUE
        } else {
            FALSE
        },
    );
    assert(out@ =~= old(out)@ + encode(Term::Boolean(value)));
}

/// Appends an integer in the narrowest form that holds it.
pub fn pack_integer(value: i64, out: &mut Vec<u8>)
    ensures
        final(out)@ == old(out)@ + encode_integer(value),
        encode_integer(value) == encode(Term::Integer(value)),
{
    if -0x10 <= value && value < 0x80 {
        out.push(low_byte_of(value));
    } else if -0x80 <= value && value < 0x80 {
        out.push(INT_8);
        out.push(low_byte_of(value));
    } else if -0x8000 <= value && value < 0x8000 {
        out.push(INT_16);
        let b = i16_to_be(value as i16);
        out.extend_from_slice(b.as_slice());
    } else if -0x8000_0000 <= value && value < 0x8000_0000 {
        out.push(INT_32);
        let b = i32_to_be(value as i32);
        out.extend_from_slice(b.as_slice());
    } else {
        out.push(INT_64);
        let b = i64_to_be(value);
        out.extend_from_slice(b.as_slice());
    }
    assert(out@ =~= old(out)@ + encode_integer(value));
}

/// Appends a float, given by its bit pattern.
pub fn pack_float(bits: u64, out: &mut Vec<u8>)
    ensures
        final(out)@ == old(out)@ + encode(Term::Float(bits)),
{
    out.push(FLOAT_64);
    let b = u64_to_be(bits);
    out.extend_from_slice(b.as_slice());
    assert(out@ =~= old(out)@ + encode(Term::Float(bits)));
}

/// Appends the header of a string, list or dictionary.
fn emit_size_header(out: &mut Vec<u8>, tiny: u8, m8: u8, m16: u8, m32: u8, size: usize)
    requires
        size < 0x1_0000_0000,
        tiny <= 0xF0,
    ensures
        final(out)@ == old(out)@ + size_header(tiny, m8, m16, m32, size as nat),
{
    if size < 0x10 {
        out.push(tiny + size as u8);
    } else if size < 0x100 {
        out.push(m8);
        out.push(size as u8);
    } else if size < 0x1_0000 {
        out.push(m16);
        let b = u16_to_be(size as u16);
        out.extend_from_slice(b.as_slice());
    } else {
        out.push(m32);
        let b = u32_to_be(size as u32);
        out.extend_from_slice(b.as_slice());
    }
    assert(out@ =~= old(out)@ + size_header(tiny, m8, m16, m32, size as nat));
}

/// Appends the header of a structure.
fn emit_structure_header(out: &mut Vec<u8>, size: usize, signature: u8)
    requires
        size < 0x1_0000,
    ensures
        final(out)@ == old(out)@ + structure_header(size as nat, signature),
{
    if size < 0x10 {
        out.push(0xB0 + size as u8);
    } else if size < 0x100 {
        out.push(0xDC);
        out.push(size as u8);
    } else {
        out.push(0xDD);
        let b = u16_to_be(size as u16);
        out.extend_from_slice(b.as_slice());
    }
    out.push(signature);
    assert(out@ =~= old(out)@ + structure_header(size as nat, signature));
}

/// Appends a string whose size is known to fit.
fn emit_text(value: &str, out: &mut Vec<u8>)
    requires
        encode_utf8(value@).len() < 0x1_0000_0000,
    ensures
        final(out)@ == old(out)@ + encode_text(value@),
{
    let bytes = value.as_bytes();
    emit_size_header(out, 0x80, 0xD0, 0xD1, 0xD2, bytes.len());
    out.extend_from_slice(bytes);
    assert(out@ =~= old(out)@ + encode_text(value@));
}

/// Appends a string, unless it is too long for any header.
pub fn pack_string(value: &str, out: &mut Vec<u8>) -> (r: Result<(), CodecError>)
    ensures
        match r {
            Ok(()) => encodable(Term::String(value@)) && final(out)@ == old(out)@ + encode(
                Term::String(value@),
            ),
            Err(e) => e == CodecError::EncodeTooLarge && !encodable(Term::String(value@))
                && final(out)@ == old(out)@,
        },
{
    if !fits_u32(value.as_bytes().len()) {
        return Err(CodecError::EncodeTooLarge);
    }
    emit_text(value, out);
    Ok(())
}

/// Whether all of `items` can be written.
fn can_pack_all(items: &Vec<Value>) -> (ok: bool)
    ensures
        ok == forall|i: int| 0 <= i < items.len() ==> encodable(#[trigger] terms_of(items@)[i]),
    decreases items,
{
    let mut i: usize = 0;
    while i < items.len()
        invariant
            i <= items.len(),
            forall|j: int| 0 <= j < i ==> encodable(#[trigger] terms_of(items@)[j]),
        decreases items.len() - i,
    {
        if !can_pack(&items[i]) {
            assert(!encodable(terms_of(items@)[i as int]));
            return false;
        }
        i += 1;
    }
    true
}

/// Whether all of `entries` can be written, keys and values.
fn can_pack_entries(entries: &Vec<(String, Value)>) -> (ok: bool)
    ensures
        ok == forall|i: int|
            0 <= i < entries.len() ==> encode_utf8((#[trigger] entries_of(entries@)[i]).0).len()
                < 0x1_0000_0000 && encodable(entries_of(entries@)[i].1),
    decreases entries,
{
    let mut i: usize = 0;
    while i < entries.len()
        invariant
            i <= entries.len(),
            forall|j: int|
                0 <= j < i ==> encode_utf8((#[trigger] entries_of(entries@)[j]).0).len()
                    < 0x1_0000_0000 && encodable(entries_of(entries@)[j].1),
        decreases entries.len() - i,
    {
        let ok = fits_u32(entries[i].0.as_str().as_bytes().len()) && can_pack(&entries[i].1);
        if !ok {
            assert(entries_of(entries@)[i as int] == (entries[i as int].0@, entries[i as int].1@));
            return false;
        }
        i += 1;
    }
    true
}

/// Whether `value` has a wire form: no string or container in it is too long.
pub fn can_pack(value: &Value) -> (ok: bool)
    ensures
        ok == encodable(value@),
    decreases value,
{
    proof {
        lemma_view(*value);
    }
    match value {
        Value::String(s) => fits_u32(s.as_str().as_bytes().len()),
        Value::List(items) => fits_u32(items.len()) && can_pack_all(items),
        Value::Dictionary(entries) => fits_u32(entries.len()) && can_pack_entries(entries),
        Value::Structure { signature, fields } => fields.len() < 0x1_0000 && can_pack_all(fields),
        _ => true,
    }
}

/// Appends the items one after the other.
fn emit_all(items: &Vec<Value>, out: &mut Vec<u8>)
    requires
        forall|i: int| 0 <= i < items.len() ==> encodable(#[trigger] terms_of(items@)[i]),
    ensures
        final(out)@ == old(out)@ + encode_items(terms_of(items@), 0),
    decreases items,
{
    let ghost terms = terms_of(items@);
    let ghost before = out@;
    let mut i: usize = 0;
    assert(out@ + encode_items(terms, 0) =~= before + encode_items(terms, 0));
    while i < items.len()
        invariant
            i <= items.len(),
            terms == terms_of(items@),
            forall|j: int| 0 <= j < items.len() ==> encodable(#[trigger] terms_of(items@)[j]),
            out@ + encode_items(terms, i as int) == before + encode_items(terms, 0),
        decreases items.len() - i,
    {
        let ghost pre = out@;
        assert(encodable(terms_of(items@)[i as int]));
        emit(&items[i], out);
        assert(out@ + encode_items(terms, i + 1) =~= pre + encode_items(terms, i as int));
        i += 1;
    }
    assert(out@ =~= out@ + encode_items(terms, i as int));
}

/// Appends the entries one after the other, each key before its value.
fn emit_entries(entries: &Vec<(String, Value)>, out: &mut Vec<u8>)
    requires
        forall|i: int|
            0 <= i < entries.len() ==> encode_utf8((#[trigger] entries_of(entries@)[i]).0).len()
                < 0x1_0000_0000 && encodable(entries_of(entries@)[i].1),
    ensures
        final(out)@ == old(out)@ + encode_entries(entries_of(entries@), 0),
    decreases entries,
{
    let ghost terms = entries_of(entries@);
    let ghost before = out@;
    let mut i: usize = 0;
    assert(out@ + encode_entries(terms, 0) =~= before + encode_entries(terms, 0));
    while i < entries.len()
        invariant
            i <= entries.len(),
            terms == entries_of(entries@),
            forall|j: int|
                0 <= j < entries.len() ==> encode_utf8(
                    (#[trigger] entries_of(entries@)[j]).0,
                ).len() < 0x1_0000_0000 && encodable(entries_of(entries@)[j].1),
            out@ + encode_entries(terms, i as int) == before + encode_entries(terms, 0),
        decreases entries.len() - i,
    {
        let ghost pre = out@;
        assert(entries_of(entries@)[i as int] == (entries[i as int].0@, entries[i as int].1@));
        emit_text(entries[i].0.as_str(), out);
        emit(&entries[i].1, out);
        assert(out@ + encode_entries(terms, i + 1) =~= pre + encode_entries(terms, i as int));
        i += 1;
    }
    assert(out@ =~= out@ + encode_entries(terms, i as int));
}

/// Appends a value that is known to have a wire form.
fn emit(value: &Value, out: &mut Vec<u8>)
    requires
        encodable(value@),
    ensures
        final(out)@ == old(out)@ + encode(value@),
    decreases value,
{
    proof {
        lemma_view(*value);
    }
    match value {
        Value::Null => pack_null(out),
        Value::Boolean(x) => pack_boolean(*x, out),
        Value::Integer(x) => pack_integer(*x, out),
        Value::Float(x) => pack_float(*x, out),
        Value::String(x) => emit_text(x.as_str(), out),
        Value::List(items) => {
            emit_size_header(out, 0x90, 0xD4, 0xD5, 0xD6, items.len());
            emit_all(items, out);
            assert(out@ =~= old(out)@ + encode(value@));
        },
        Value::Dictionary(entries) => {
            emit_size_header(out, 0xA0, 0xD8, 0xD9, 0xDA, entries.len());
            emit_entries(entries, out);
            assert(out@ =~= old(out)@ + encode(value@));
        },
        Value::Structure { signature, fields } => {
            emit_structure_header(out, fields.len(), *signature);
            emit_all(fields, out);
            assert(out@ =~= old(out)@ + encode(value@));
        },
    }
}

/// Appends the wire form of `value` to `out`, or leaves `out` as it is where
/// the value has none.
pub fn pack(value: Value, out: &mut Vec<u8>) -> (r: Result<(), CodecError>)
    ensures
        match r {
            Ok(()) => encodable(value@) && final(out)@ == old(out)@ + encode(value@),
            Err(e) => e == CodecError::EncodeTooLarge && !encodable(value@) && final(out)@ == old(
                out,
            )@,
        },
{
    pack_ref(&value, out)
}

/// As [`pack`], on a borrowed value.
pub fn pack_ref(value: &Value, out: &mut Vec<u8>) -> (r: Result<(), CodecError>)
    ensures
        match r {
            Ok(()) => encodable(value@) && final(out)@ == old(out)@ + encode(value@),
            Err(e) => e == CodecError::EncodeTooLarge && !encodable(value@) && final(out)@ == old(
                out,
            )@,
        },
{
    if !can_pack(value) {
        return Err(CodecError::EncodeTooLarge);
    }
    emit(value, out);
    Ok(())
}

/// Appends a list: its header, then its items.
pub fn pack_list(value: Vec<Value>, out: &mut Vec<u8>) -> (r: Result<(), CodecError>)
    ensures
        match r {
            Ok(()) => encodable(Term::List(terms_of(value@))) && final(out)@ == old(out)@ + encode(
                Term::List(terms_of(value@)),
            ),
            Err(e) => e == CodecError::EncodeTooLarge && !encodable(Term::List(terms_of(value@)))
                && final(out)@ == old(out)@,
        },
{
    let list = Value::List(value);
    proof {
        lemma_view(list);
    }
    pack_ref(&list, out)
}

/// Appends a dictionary: its header, then each key and its value.
pub fn pack_map(value: Vec<(String, Value)>, out: &mut Vec<u8>) -> (r: Result<(), CodecError>)
    ensures
        match r {
            Ok(()) => encodable(Term::Dictionary(entries_of(value@))) && final(out)@ == old(out)@
                + encode(Term::Dictionary(entries_of(value@))),
            Err(e) => e == CodecError::EncodeTooLarge && !encodable(
                Term::Dictionary(entries_of(value@)),
            ) && final(out)@ == old(out)@,
        },
{
    let map = Value::Dictionary(value);
    proof {
        lemma_view(map);
    }
    pack_ref(&map, out)
}

/// Appends a structure: its header with the signature, then its fields.
pub fn pack_structure(signature: u8, fields: Vec<Value>, out: &mut Vec<u8>) -> (r: Result<
    (),
    CodecError,
>)
    ensures
        match r {
            Ok(()) => encodable(Term::Structure { signature, fields: terms_of(fields@) })
                && final(out)@ == old(out)@ + encode(
                Term::Structure { signature, fields: terms_of(fields@) },
            ),
            Err(e) => e == CodecError::EncodeTooLarge && !encodable(
                Term::Structure { signature, fields: terms_of(fields@) },
            ) && final(out)@ == old(out)@,
        },
{
    let structure = Value::Structure { signature, fields };
    proof {
        lemma_view(structure);
    }
    pack_ref(&structure, out)
}

impl Value {
    /// Appends the wire form of this value to `out`.
    pub fn pack(self, out: &mut Vec<u8>) -> (r: Result<(), CodecError>)
        ensures
            match r {
                Ok(()) => encodable(self@) && final(out)@ == old(out)@ + encode(self@),
                Err(e) => e == CodecError::EncodeTooLarge && !encodable(self@) && final(out)@
                    == old(out)@,
            },
    {
        pack_ref(&self, out)
    }

    /// The wire form of this value.
    pub fn pack_into(self) -> (r: Result<Vec<u8>, CodecError>)
        ensures
            match r {
                Ok(bytes) => encodable(self@) && bytes@ == encode(self@),
                Err(e) => e == CodecError::EncodeTooLarge && !encodable(self@),
            },
    {
        let mut buf: Vec<u8> = Vec::new();
        match pack_ref(&self, &mut buf) {
            Ok(()) => {
                assert(buf@ =~= encode(self@));
                Ok(buf)
            },
            Err(e) => Err(e),
        }
    }
}

/// A growing buffer of wire bytes.
pub struct Packer {
    buffer: Vec<u8>,
}

impl View for Packer {
    type V = Seq<u8>;

    closed spec fn view(&self) -> Seq<u8> {
        self.buffer@
    }
}

impl Packer {
    /// An empty buffer.
    pub fn new() -> (packer: Packer)
        ensures
            packer@ == Seq::<u8>::empty(),
    {
        Packer { buffer: Vec::new() }
    }

    /// Forgets what was written.
    pub fn clear(&mut self)
        ensures
            final(self)@ == Seq::<u8>::empty(),
    {
        self.buffer.clear()
    }

    /// The number of bytes written.
    pub fn len(&self) -> (n: usize)
        ensures
            n == self@.len(),
    {
        self.buffer.len()
    }

    /// The bytes written.
    pub fn as_slice(&self) -> (bytes: &[u8])
        ensures
            bytes@ == self@,
    {
        self.buffer.as_slice()
    }

    /// Writes a value, or nothing where the value has no wire form.
    pub fn pack(&mut self, value: &Value) -> (r: Result<(), CodecError>)
        ensures
            match r {
                Ok(()) => encodable(value@) && final(self)@ == old(self)@ + encode(value@),
                Err(e) => e == CodecError::EncodeTooLarge && !encodable(value@) && final(self)@
                    == old(self)@,
            },
    {
        pack_ref(value, &mut self.buffer)
    }

    /// Writes a null.
    pub fn pack_null(&mut self)
        ensures
            final(self)@ == old(self)@ + encode(Term::Null),
    {
        pack_null(&mut self.buffer)
    }

    /// Writes a boolean.
    pub fn pack_boolean(&mut self, value: bool)
        ensures
            final(self)@ == old(self)@ + encode(Term::Boolean(value)),
    {
        pack_boolean(value, &mut self.buffer)
    }

    /// Writes an integer in the narrowest form that holds it.
    pub fn pack_integer(&mut self, value: i64)
        ensures
            final(self)@ == old(self)@ + encode(Term::Integer(value)),
    {
        pack_integer(value, &mut self.buffer)
    }

    /// Writes a float, given by its bit pattern.
    pub fn pack_float(&mut self, bits: u64)
        ensures
            final(self)@ == old(self)@ + encode(Term::Float(bits)),
    {
        pack_float(bits, &mut self.buffer)
    }

    /// Writes a string, or nothing where it is too long.
    pub fn pack_string(&mut self, value: &str) -> (r: Result<(), CodecError>)
        ensures
            match r {
                Ok(()) => encodable(Term::String(value@)) && final(self)@ == old(self)@ + encode(
                    Term::String(value@),
                ),
                Err(e) => e == CodecError::EncodeTooLarge && !encodable(Term::String(value@))
                    && final(self)@ == old(self)@,
            },
    {
        pack_string(value, &mut self.buffer)
    }

    /// Writes the header of a list of `size` items; the items follow.
    pub fn pack_list_header(&mut self, size: usize) -> (r: Result<(), CodecError>)
        ensures
            match r {
                Ok(()) => size < 0x1_0000_0000 && final(self)@ == old(self)@ + list_header(
                    size as nat,
                ),
                Err(e) => e == CodecError::EncodeTooLarge && size >= 0x1_0000_0000 && final(self)@
                    == old(self)@,
            },
    {
        if !fits_u32(size) {
            return Err(CodecError::EncodeTooLarge);
        }
        emit_size_header(&mut self.buffer, 0x90, 0xD4, 0xD5, 0xD6, size);
        Ok(())
    }

    /// Writes the header of a dictionary of `size` entries; the entries follow.
    pub fn pack_map_header(&mut self, size: usize) -> (r: Result<(), CodecError>)
        ensures
            match r {
                Ok(()) => size < 0x1_0000_0000 && final(self)@ == old(self)@ + map_header(
                    size as nat,
                ),
                Err(e) => e == CodecError::EncodeTooLarge && size >= 0x1_0000_0000 && final(self)@
                    == old(self)@,
            },
    {
        if !fits_u32(size) {
            return Err(CodecError::EncodeTooLarge);
        }
        emit_size_header(&mut self.buffer, 0xA0, 0xD8, 0xD9, 0xDA, size);
        Ok(())
    }

    /// Writes the header of a structure of `size` fields; the fields follow.
    pub fn pack_structure_header(&mut self, size: usize, signature: u8) -> (r: Result<
        (),
        CodecError,
    >)
        ensures
            match r {
                Ok(()) => size < 0x1_0000 && final(self)@ == old(self)@ + structure_header(
                    size as nat,
                    signature,
                ),
                Err(e) => e == CodecError::EncodeTooLarge && size >= 0x1_0000 && final(self)@
                    == old(self)@,
            },
    {
        if size >= 0x1_0000 {
            return Err(CodecError::EncodeTooLarge);
        }
        emit_structure_header(&mut self.buffer, size, signature);
        Ok(())
    }

    /// Writes raw bytes.
    pub fn write_slice(&mut self, buf: &[u8])
        ensures
            final(self)@ == old(self)@ + buf@,
    {
        self.buffer.extend_from_slice(buf);
    }
}

/// The type of `..`, so that a packer can be indexed by it.
#[verifier::external_type_specification]
#[verifier::external_body]
pub struct ExRangeFull(core::ops::RangeFull);

impl core::ops::Index<core::ops::RangeFull> for Packer {
    type Output = [u8];

    fn index(&self, index: core::ops::RangeFull) -> (bytes: &[u8])
        ensures
            bytes@ == self@,
    {
        self.buffer.as_slice()
    }
}

} // verus!

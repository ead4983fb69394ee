//! What holds of writing and reading together.

use crate::bytes::{
    be16, be16_value, be32, be32_value, be64, lemma_be16_round_trip, lemma_be32_round_trip,
    lemma_be64_round_trip, lemma_signed_unsigned, unsigned16, unsigned32, unsigned64,
};
use crate::pack::{
    encodable, encode, encode_entries, encode_integer, encode_items, encode_text, list_header,
    low_byte, map_header, string_header, structure_header,
};
use crate::unpack::{
    avail, decode, decode_body, decode_entries, decode_items, decode_sized, window, Shape,
};
use crate::value::{
    bind, distinct_keys, lemma_bind, lemma_position_of, position_of, well_formed, CodecError,
    Term,
};
use vstd::prelude::*;
use vstd::utf8::{
    decode_utf8_encode_utf8, encode_utf8, encode_utf8_decode_utf8, encode_utf8_valid_utf8,
    valid_utf8,
};

verus! {

/// The marker and size that announce a body of the given shape.
pub open spec fn header(shape: Shape, size: nat) -> Seq<u8> {
    match shape {
        Shape::Text => string_header(size),
        Shape::List => list_header(size),
        Shape::Dictionary => map_header(size),
        Shape::Structure => if size < 0x10 {
            seq![(0xB0 + size) as u8]
        } else if size < 0x100 {
            seq![0xDCu8, size as u8]
        } else {
            seq![0xDDu8] + be16(size as u16)
        },
    }
}

/// The largest size that a header of the given shape can announce, plus one.
pub open spec fn size_limit(shape: Shape) -> nat {
    if shape == Shape::Structure {
        0x1_0000
    } else {
        0x1_0000_0000
    }
}

/// A window inside a window is a window of the whole.
proof fn lemma_window(bytes: Seq<u8>, pos: int, n: int, a: int, b: int)
    requires
        avail(bytes, pos, n),
        0 <= a,
        0 <= b,
        a + b <= n,
    ensures
        window(bytes, pos + a, b) == window(bytes, pos, n).subrange(a, a + b),
        avail(bytes, pos + a, b),
{
    assert(window(bytes, pos + a, b) =~= window(bytes, pos, n).subrange(a, a + b));
}

/// The marker that holds a size under sixteen in its low nibble.
pub open spec fn tiny_marker(shape: Shape) -> u8 {
    match shape {
        Shape::Text => 0x80,
        Shape::List => 0x90,
        Shape::Dictionary => 0xA0,
        Shape::Structure => 0xB0,
    }
}

/// The marker that is followed by a size of `width` bytes.
pub open spec fn wide_marker(shape: Shape, width: int) -> u8 {
    let first: u8 = match shape {
        Shape::Text => 0xD0,
        Shape::List => 0xD4,
        Shape::Dictionary => 0xD8,
        Shape::Structure => 0xDC,
    };
    if width == 1 {
        first
    } else if width == 2 {
        (first + 1) as u8
    } else {
        (first + 2) as u8
    }
}

/// Behind a marker with the size in it the decoder reads the body.
proof fn lemma_tiny_marker(bytes: Seq<u8>, pos: int, shape: Shape, size: nat)
    requires
        size < 0x10,
        avail(bytes, pos, 1),
        bytes[pos] == tiny_marker(shape) + size,
    ensures
        decode(bytes, pos) == decode_body(bytes, pos + 1, shape, size),
{
    match shape {
        Shape::Text => {
            assert(bytes[pos] >= 0x80 && bytes[pos] < 0x90);
        },
        Shape::List => {
            assert(bytes[pos] >= 0x90 && bytes[pos] < 0xA0);
        },
        Shape::Dictionary => {
            assert(bytes[pos] >= 0xA0 && bytes[pos] < 0xB0);
        },
        Shape::Structure => {
            assert(bytes[pos] >= 0xB0 && bytes[pos] < 0xC0);
        },
    }
}

/// Behind a marker that announces a size the decoder reads the size.
proof fn lemma_wide_marker(bytes: Seq<u8>, pos: int, shape: Shape, width: int)
    requires
        width == 1 || width == 2 || (width == 4 && shape != Shape::Structure),
        avail(bytes, pos, 1),
        bytes[pos] == wide_marker(shape, width),
    ensures
        decode(bytes, pos) == decode_sized(bytes, pos + 1, width, shape),
{
}

/// Behind a marker and a size of one byte the decoder reads the body.
proof fn lemma_header_8(bytes: Seq<u8>, pos: int, shape: Shape, size: nat)
    requires
        size < 0x100,
        avail(bytes, pos, 2),
        bytes[pos] == wide_marker(shape, 1),
        bytes[pos + 1] == size,
    ensures
        decode(bytes, pos) == decode_body(bytes, pos + 2, shape, size),
{
    lemma_wide_marker(bytes, pos, shape, 1);
    assert(decode_sized(bytes, pos + 1, 1, shape) == decode_body(bytes, pos + 2, shape, size));
}

/// Behind a marker and a size of two bytes the decoder reads the body.
proof fn lemma_header_16(bytes: Seq<u8>, pos: int, shape: Shape, size: nat)
    requires
        size < 0x1_0000,
        avail(bytes, pos, 3),
        bytes[pos] == wide_marker(shape, 2),
        window(bytes, pos + 1, 2) == be16(size as u16),
    ensures
        decode(bytes, pos) == decode_body(bytes, pos + 3, shape, size),
{
    lemma_wide_marker(bytes, pos, shape, 2);
    lemma_be16_round_trip(size as u16);
    assert(decode_sized(bytes, pos + 1, 2, shape) == decode_body(bytes, pos + 3, shape, size));
}

/// Behind a marker and a size of four bytes the decoder reads the body.
proof fn lemma_header_32(bytes: Seq<u8>, pos: int, shape: Shape, size: nat)
    requires
        size < 0x1_0000_0000,
        shape != Shape::Structure,
        avail(bytes, pos, 5),
        bytes[pos] == wide_marker(shape, 4),
        window(bytes, pos + 1, 4) == be32(size as u32),
    ensures
        decode(bytes, pos) == decode_body(bytes, pos + 5, shape, size),
{
    lemma_wide_marker(bytes, pos, shape, 4);
    lemma_be32_round_trip(size as u32);
    assert(decode_sized(bytes, pos + 1, 4, shape) == decode_body(bytes, pos + 5, shape, size));
}

/// The header of each shape, written out by the size's range.
proof fn lemma_header_form(shape: Shape, size: nat)
    requires
        size < size_limit(shape),
    ensures
        size < 0x10 ==> header(shape, size) == seq![(tiny_marker(shape) + size) as u8],
        0x10 <= size < 0x100 ==> header(shape, size) == seq![wide_marker(shape, 1), size as u8],
        0x100 <= size < 0x1_0000 ==> header(shape, size) == seq![wide_marker(shape, 2)] + be16(
            size as u16,
        ),
        0x1_0000 <= size ==> header(shape, size) == seq![wide_marker(shape, 4)] + be32(
            size as u32,
        ),
{
    if size < 0x10 {
        assert(header(shape, size) =~= seq![(tiny_marker(shape) + size) as u8]);
    } else if size < 0x100 {
        assert(header(shape, size) =~= seq![wide_marker(shape, 1), size as u8]);
    } else if size < 0x1_0000 {
        assert(header(shape, size) =~= seq![wide_marker(shape, 2)] + be16(size as u16));
    } else {
        assert(header(shape, size) =~= seq![wide_marker(shape, 4)] + be32(size as u32));
    }
}

/// Behind a header the decoder reads a body of the announced shape and size.
proof fn lemma_header(bytes: Seq<u8>, pos: int, shape: Shape, size: nat)
    requires
        size < size_limit(shape),
        avail(bytes, pos, header(shape, size).len() as int),
        window(bytes, pos, header(shape, size).len() as int) == header(shape, size),
    ensures
        decode(bytes, pos) == decode_body(
            bytes,
            pos + header(shape, size).len(),
            shape,
            size,
        ),
        1 <= header(shape, size).len() <= 5,
{
    let h = header(shape, size);
    let w = window(bytes, pos, h.len() as int);
    lemma_header_form(shape, size);
    lemma_be16_round_trip(size as u16);
    lemma_be32_round_trip(size as u32);
    assert(w[0] == bytes[pos]);
    if size < 0x10 {
        lemma_tiny_marker(bytes, pos, shape, size);
    } else if size < 0x100 {
        assert(w[1] == bytes[pos + 1]);
        lemma_header_8(bytes, pos, shape, size);
    } else if size < 0x1_0000 {
        lemma_window(bytes, pos, 3, 1, 2);
        assert(w.subrange(1, 3) =~= be16(size as u16));
        lemma_header_16(bytes, pos, shape, size);
    } else {
        lemma_window(bytes, pos, 5, 1, 4);
        assert(w.subrange(1, 5) =~= be32(size as u32));
        lemma_header_32(bytes, pos, shape, size);
    }
}

/// A string that was written is read back.
proof fn lemma_round_trip_text(s: Seq<char>, bytes: Seq<u8>, pos: int)
    requires
        encode_utf8(s).len() < 0x1_0000_0000,
        avail(bytes, pos, encode_text(s).len() as int),
        window(bytes, pos, encode_text(s).len() as int) == encode_text(s),
    ensures
        decode(bytes, pos) == Ok::<_, CodecError>((Term::String(s), pos + encode_text(s).len())),
        encode_text(s).len() >= 1,
{
    let raw = encode_utf8(s);
    let h = string_header(raw.len());
    let total = encode_text(s).len() as int;
    assert(header(Shape::Text, raw.len()) == h);
    lemma_window(bytes, pos, total, 0, h.len() as int);
    assert(encode_text(s).subrange(0, h.len() as int) =~= h);
    lemma_header(bytes, pos, Shape::Text, raw.len());
    lemma_window(bytes, pos, total, h.len() as int, raw.len() as int);
    assert(encode_text(s).subrange(h.len() as int, total) =~= raw);
    encode_utf8_valid_utf8(s);
    encode_utf8_decode_utf8(s);
}

/// An integer that was written is read back.
proof fn lemma_round_trip_integer(n: i64, bytes: Seq<u8>, pos: int)
    requires
        avail(bytes, pos, encode_integer(n).len() as int),
        window(bytes, pos, encode_integer(n).len() as int) == encode_integer(n),
    ensures
        decode(bytes, pos) == Ok::<_, CodecError>(
            (Term::Integer(n), pos + encode_integer(n).len()),
        ),
        encode_integer(n).len() >= 1,
{
    let e = encode_integer(n);
    let w = window(bytes, pos, e.len() as int);
    let at = pos + 1;
    assert(w[0] == bytes[pos]);
    if -0x10 <= n < 0x80 {
    } else if -0x80 <= n < 0x80 {
        assert(w[1] == bytes[at]);
    } else if -0x8000 <= n < 0x8000 {
        lemma_be16_round_trip(unsigned16(n as i16));
        lemma_signed_unsigned(n as i16, 0, 0);
        lemma_window(bytes, pos, 3, 1, 2);
        assert(w.subrange(1, 3) =~= be16(unsigned16(n as i16)));
    } else if -0x8000_0000 <= n < 0x8000_0000 {
        lemma_be32_round_trip(unsigned32(n as i32));
        lemma_signed_unsigned(0, n as i32, 0);
        lemma_window(bytes, pos, 5, 1, 4);
        assert(w.subrange(1, 5) =~= be32(unsigned32(n as i32)));
    } else {
        lemma_be64_round_trip(unsigned64(n));
        lemma_signed_unsigned(0, 0, n);
        lemma_window(bytes, pos, 9, 1, 8);
        assert(w.subrange(1, 9) =~= be64(unsigned64(n)));
    }
}

/// Every item from index `from` on is well formed and has a wire form.
pub open spec fn all_sound(items: Seq<Term>) -> bool {
    forall|i: int| 0 <= i < items.len() ==> well_formed(#[trigger] items[i]) && encodable(items[i])
}

/// A float that was written is read back.
proof fn lemma_round_trip_float(bits: u64, bytes: Seq<u8>, pos: int)
    requires
        avail(bytes, pos, 9),
        window(bytes, pos, 9) == seq![0xC1u8] + be64(bits),
    ensures
        decode(bytes, pos) == Ok::<_, CodecError>((Term::Float(bits), pos + 9)),
{
    let w = window(bytes, pos, 9);
    assert(w[0] == bytes[pos]);
    lemma_be64_round_trip(bits);
    lemma_window(bytes, pos, 9, 1, 8);
    assert(w.subrange(1, 9) =~= be64(bits));
}

/// A value that was written is read back, wherever in a buffer it stands.
pub proof fn lemma_round_trip(t: Term, bytes: Seq<u8>, pos: int)
    requires
        well_formed(t),
        encodable(t),
        avail(bytes, pos, encode(t).len() as int),
        window(bytes, pos, encode(t).len() as int) == encode(t),
    ensures
        decode(bytes, pos) == Ok::<_, CodecError>((t, pos + encode(t).len())),
        encode(t).len() >= 1,
    decreases t, 0int,
{
    let e = encode(t);
    let total = e.len() as int;
    let w = window(bytes, pos, total);
    match t {
        Term::Null => {
            assert(w[0] == bytes[pos]);
        },
        Term::Boolean(b) => {
            assert(w[0] == bytes[pos]);
        },
        Term::Integer(n) => {
            lemma_round_trip_integer(n, bytes, pos);
        },
        Term::Float(bits) => {
            lemma_be64_round_trip(bits);
            lemma_round_trip_float(bits, bytes, pos);
        },
        Term::String(s) => {
            lemma_round_trip_text(s, bytes, pos);
        },
        Term::List(items) => {
            lemma_round_trip_list(items, bytes, pos);
        },
        Term::Dictionary(entries) => {
            lemma_round_trip_dictionary(entries, bytes, pos);
        },
        Term::Structure { signature, fields } => {
            lemma_round_trip_structure(signature, fields, bytes, pos);
        },
    }
}

/// A list that was written is read back.
proof fn lemma_round_trip_list(items: Seq<Term>, bytes: Seq<u8>, pos: int)
    requires
        well_formed(Term::List(items)),
        encodable(Term::List(items)),
        avail(bytes, pos, encode(Term::List(items)).len() as int),
        window(bytes, pos, encode(Term::List(items)).len() as int) == encode(Term::List(items)),
    ensures
        decode(bytes, pos) == Ok::<_, CodecError>(
            (Term::List(items), pos + encode(Term::List(items)).len()),
        ),
        encode(Term::List(items)).len() >= 1,
    decreases items, items.len() + 1,
{
    let e = encode(Term::List(items));
    let total = e.len() as int;
    let h = header(Shape::List, items.len());
    let body = encode_items(items, 0);
    let p = pos + h.len();
    assert(e == h + body);
    assert(decode(bytes, pos) == decode_body(bytes, p, Shape::List, items.len())) by {
        lemma_window(bytes, pos, total, 0, h.len() as int);
        assert(e.subrange(0, h.len() as int) =~= h);
        lemma_header(bytes, pos, Shape::List, items.len());
    }
    assert(window(bytes, p, body.len() as int) == body) by {
        lemma_window(bytes, pos, total, h.len() as int, body.len() as int);
        assert(e.subrange(h.len() as int, total) =~= body);
    }
    assert(items.subrange(0, 0) =~= Seq::empty());
    assert(items.subrange(0, items.len() as int) =~= items);
    lemma_round_trip_items(items, 0, bytes, p);
}

/// A dictionary that was written is read back.
proof fn lemma_round_trip_dictionary(entries: Seq<(Seq<char>, Term)>, bytes: Seq<u8>, pos: int)
    requires
        well_formed(Term::Dictionary(entries)),
        encodable(Term::Dictionary(entries)),
        avail(bytes, pos, encode(Term::Dictionary(entries)).len() as int),
        window(bytes, pos, encode(Term::Dictionary(entries)).len() as int) == encode(
            Term::Dictionary(entries),
        ),
    ensures
        decode(bytes, pos) == Ok::<_, CodecError>(
            (Term::Dictionary(entries), pos + encode(Term::Dictionary(entries)).len()),
        ),
        encode(Term::Dictionary(entries)).len() >= 1,
    decreases entries, entries.len() + 1,
{
    let e = encode(Term::Dictionary(entries));
    let total = e.len() as int;
    let h = header(Shape::Dictionary, entries.len());
    let body = encode_entries(entries, 0);
    let p = pos + h.len();
    assert(e == h + body);
    assert(decode(bytes, pos) == decode_body(bytes, p, Shape::Dictionary, entries.len())) by {
        lemma_window(bytes, pos, total, 0, h.len() as int);
        assert(e.subrange(0, h.len() as int) =~= h);
        lemma_header(bytes, pos, Shape::Dictionary, entries.len());
    }
    assert(window(bytes, p, body.len() as int) == body) by {
        lemma_window(bytes, pos, total, h.len() as int, body.len() as int);
        assert(e.subrange(h.len() as int, total) =~= body);
    }
    assert(entries.subrange(0, 0) =~= Seq::empty());
    assert(entries.subrange(0, entries.len() as int) =~= entries);
    lemma_round_trip_entries(entries, 0, bytes, p);
}

/// A structure that was written is read back.
proof fn lemma_round_trip_structure(signature: u8, fields: Seq<Term>, bytes: Seq<u8>, pos: int)
    requires
        well_formed(Term::Structure { signature, fields }),
        encodable(Term::Structure { signature, fields }),
        avail(bytes, pos, encode(Term::Structure { signature, fields }).len() as int),
        window(bytes, pos, encode(Term::Structure { signature, fields }).len() as int) == encode(
            Term::Structure { signature, fields },
        ),
    ensures
        decode(bytes, pos) == Ok::<_, CodecError>(
            (
                Term::Structure { signature, fields },
                pos + encode(Term::Structure { signature, fields }).len(),
            ),
        ),
        encode(Term::Structure { signature, fields }).len() >= 1,
    decreases fields, fields.len() + 1,
{
    let e = encode(Term::Structure { signature, fields });
    let total = e.len() as int;
    let h = header(Shape::Structure, fields.len());
    let body = encode_items(fields, 0);
    let p = pos + h.len();
    assert(structure_header(fields.len(), signature) =~= h + seq![signature]);
    assert(e =~= h + seq![signature] + body);
    assert(decode(bytes, pos) == decode_body(bytes, p, Shape::Structure, fields.len())) by {
        lemma_window(bytes, pos, total, 0, h.len() as int);
        assert(e.subrange(0, h.len() as int) =~= h);
        lemma_header(bytes, pos, Shape::Structure, fields.len());
    }
    assert(bytes[p] == signature) by {
        assert(window(bytes, pos, total)[h.len() as int] == bytes[p]);
        assert(e[h.len() as int] == signature);
    }
    assert(window(bytes, p + 1, body.len() as int) == body) by {
        lemma_window(bytes, pos, total, (h.len() + 1) as int, body.len() as int);
        assert(e.subrange((h.len() + 1) as int, total) =~= body);
    }
    assert(fields.subrange(0, 0) =~= Seq::empty());
    assert(fields.subrange(0, fields.len() as int) =~= fields);
    lemma_round_trip_items(fields, 0, bytes, p + 1);
}

/// Items that were written one after the other are read back in order.
pub proof fn lemma_round_trip_items(items: Seq<Term>, from: int, bytes: Seq<u8>, pos: int)
    requires
        0 <= from <= items.len(),
        all_sound(items),
        avail(bytes, pos, encode_items(items, from).len() as int),
        window(bytes, pos, encode_items(items, from).len() as int) == encode_items(items, from),
    ensures
        decode_items(bytes, pos, (items.len() - from) as nat, items.subrange(0, from)) == Ok::<
            _,
            CodecError,
        >((items.subrange(0, items.len() as int), pos + encode_items(items, from).len())),
    decreases items, items.len() - from,
{
    if from < items.len() {
        let all = encode_items(items, from);
        let first = encode(items[from]);
        let rest = encode_items(items, from + 1);
        assert(all == first + rest);
        lemma_window(bytes, pos, all.len() as int, 0, first.len() as int);
        assert(all.subrange(0, first.len() as int) =~= first);
        lemma_round_trip(items[from], bytes, pos);
        let next = pos + first.len();
        lemma_window(bytes, pos, all.len() as int, first.len() as int, rest.len() as int);
        assert(all.subrange(first.len() as int, all.len() as int) =~= rest);
        lemma_round_trip_items(items, from + 1, bytes, next);
        assert(items.subrange(0, from).push(items[from]) =~= items.subrange(0, from + 1));
    }
}

/// Entries that were written one after the other are read back in order,
/// where no key occurs twice.
pub proof fn lemma_round_trip_entries(
    entries: Seq<(Seq<char>, Term)>,
    from: int,
    bytes: Seq<u8>,
    pos: int,
)
    requires
        0 <= from <= entries.len(),
        distinct_keys(entries),
        forall|i: int|
            0 <= i < entries.len() ==> well_formed((#[trigger] entries[i]).1) && encodable(
                entries[i].1,
            ) && encode_utf8(entries[i].0).len() < 0x1_0000_0000,
        avail(bytes, pos, encode_entries(entries, from).len() as int),
        window(bytes, pos, encode_entries(entries, from).len() as int) == encode_entries(
            entries,
            from,
        ),
    ensures
        decode_entries(bytes, pos, (entries.len() - from) as nat, entries.subrange(0, from))
            == Ok::<_, CodecError>(
            (
                entries.subrange(0, entries.len() as int),
                pos + encode_entries(entries, from).len(),
            ),
        ),
    decreases entries, entries.len() - from,
{
    if from < entries.len() {
        let all = encode_entries(entries, from);
        let key = encode_text(entries[from].0);
        let value = encode(entries[from].1);
        let rest = encode_entries(entries, from + 1);
        let acc = entries.subrange(0, from);
        assert(all == key + value + rest);
        lemma_window(bytes, pos, all.len() as int, 0, key.len() as int);
        assert(all.subrange(0, key.len() as int) =~= key);
        lemma_round_trip_text(entries[from].0, bytes, pos);
        let at = pos + key.len();
        lemma_window(bytes, pos, all.len() as int, key.len() as int, value.len() as int);
        assert(all.subrange(key.len() as int, (key.len() + value.len()) as int) =~= value);
        lemma_round_trip(entries[from].1, bytes, at);
        let next = at + value.len();
        lemma_window(
            bytes,
            pos,
            all.len() as int,
            (key.len() + value.len()) as int,
            rest.len() as int,
        );
        assert(all.subrange((key.len() + value.len()) as int, all.len() as int) =~= rest);
        lemma_round_trip_entries(entries, from + 1, bytes, next);
        lemma_position_of(acc, entries[from].0);
        if position_of(acc, entries[from].0) < acc.len() {
            let p = position_of(acc, entries[from].0);
            assert(acc[p] == entries[p]);
            assert(entries[p].0 != entries[from].0);
        }
        assert(bind(acc, entries[from].0, entries[from].1) =~= entries.subrange(0, from + 1));
    }
}

/// Reading the wire form of a value gives the value back, and ends where the
/// wire form ends: for every value in which no dictionary names a key twice
/// and nothing is too long to be written.
pub proof fn theorem_decode_encode(t: Term)
    requires
        well_formed(t),
        encodable(t),
    ensures
        decode(encode(t), 0) == Ok::<_, CodecError>((t, encode(t).len() as int)),
{
    assert(window(encode(t), 0, encode(t).len() as int) =~= encode(t));
    lemma_round_trip(t, encode(t), 0);
}

/// What follows a value on the wire does not change what is read.
pub proof fn theorem_decode_encode_prefix(t: Term, rest: Seq<u8>)
    requires
        well_formed(t),
        encodable(t),
    ensures
        decode(encode(t) + rest, 0) == Ok::<_, CodecError>((t, encode(t).len() as int)),
{
    assert(window(encode(t) + rest, 0, encode(t).len() as int) =~= encode(t));
    lemma_round_trip(t, encode(t) + rest, 0);
}

/// The number of bytes of the narrowest integer form that holds `n`.
pub open spec fn integer_width(n: i64) -> nat {
    if -0x10 <= n < 0x80 {
        1
    } else if -0x80 <= n < 0x80 {
        2
    } else if -0x8000 <= n < 0x8000 {
        3
    } else if -0x8000_0000 <= n < 0x8000_0000 {
        5
    } else {
        9
    }
}

/// An integer is written in the form that its range asks for: the marker of
/// that form first (or the number itself as a tiny integer), and as many
/// bytes as that form has.
pub proof fn theorem_integer_form(n: i64)
    ensures
        encode(Term::Integer(n)) == encode_integer(n),
        encode_integer(n).len() == integer_width(n),
        integer_width(n) == 1 ==> encode_integer(n)[0] == low_byte(n),
        integer_width(n) == 2 ==> encode_integer(n)[0] == 0xC8,
        integer_width(n) == 3 ==> encode_integer(n)[0] == 0xC9,
        integer_width(n) == 5 ==> encode_integer(n)[0] == 0xCA,
        integer_width(n) == 9 ==> encode_integer(n)[0] == 0xCB,
{
}

/// A body is a string or a container, never an integer.
proof fn lemma_body_is_no_integer(bytes: Seq<u8>, pos: int, shape: Shape, size: nat)
    ensures
        !(decode_body(bytes, pos, shape, size) matches Ok((Term::Integer(_), _))),
{
}

/// A sized body is a string or a container, never an integer.
proof fn lemma_sized_is_no_integer(bytes: Seq<u8>, pos: int, width: int, shape: Shape)
    ensures
        !(decode_sized(bytes, pos, width, shape) matches Ok((Term::Integer(_), _))),
{
    if avail(bytes, pos, width) {
        let size = if width == 1 {
            bytes[pos] as nat
        } else if width == 2 {
            be16_value(window(bytes, pos, 2)) as nat
        } else {
            be32_value(window(bytes, pos, 4)) as nat
        };
        lemma_body_is_no_integer(bytes, pos + width, shape, size);
    }
}

/// No wire form that reads as the integer `n` is shorter than the one that
/// is written for `n`.
pub proof fn theorem_integer_narrowest(n: i64, bytes: Seq<u8>, pos: int, next: int)
    requires
        decode(bytes, pos) == Ok::<_, CodecError>((Term::Integer(n), next)),
    ensures
        encode_integer(n).len() <= next - pos,
{
    let at = pos + 1;
    assert forall|shape: Shape, size: nat|
        !(#[trigger] decode_body(bytes, at, shape, size) matches Ok((Term::Integer(_), _))) by {
        lemma_body_is_no_integer(bytes, at, shape, size);
    }
    assert forall|shape: Shape, width: int|
        !(#[trigger] decode_sized(bytes, at, width, shape) matches Ok((Term::Integer(_), _))) by {
        lemma_sized_is_no_integer(bytes, at, width, shape);
    }
}

/// Every entry has a key that is short enough and a value that is well
/// formed and has a wire form, and no key occurs twice.
pub open spec fn all_entries_sound(entries: Seq<(Seq<char>, Term)>) -> bool {
    &&& distinct_keys(entries)
    &&& forall|i: int|
        0 <= i < entries.len() ==> well_formed((#[trigger] entries[i]).1) && encodable(
            entries[i].1,
        ) && encode_utf8(entries[i].0).len() < 0x1_0000_0000
}

/// What is read is sound: no dictionary in it names a key twice, it has a
/// wire form of its own, and it ends behind where it starts and within the
/// bytes that were given.
pub proof fn theorem_decode_sound(bytes: Seq<u8>, pos: int)
    ensures
        decode(bytes, pos) matches Ok((t, next)) ==> well_formed(t) && encodable(t) && pos < next
            <= bytes.len(),
    decreases bytes.len() - pos, 0int, 0int,
{
    if avail(bytes, pos, 1) {
        let marker = bytes[pos];
        let at = pos + 1;
        if 0x80 <= marker < 0x90 {
            lemma_decode_body_sound(bytes, at, Shape::Text, (marker - 0x80) as nat);
        } else if 0x90 <= marker < 0xA0 {
            lemma_decode_body_sound(bytes, at, Shape::List, (marker - 0x90) as nat);
        } else if 0xA0 <= marker < 0xB0 {
            lemma_decode_body_sound(bytes, at, Shape::Dictionary, (marker - 0xA0) as nat);
        } else if 0xB0 <= marker < 0xC0 {
            lemma_decode_body_sound(bytes, at, Shape::Structure, (marker - 0xB0) as nat);
        } else if marker == 0xD0 {
            lemma_decode_sized_sound(bytes, at, 1, Shape::Text);
        } else if marker == 0xD1 {
            lemma_decode_sized_sound(bytes, at, 2, Shape::Text);
        } else if marker == 0xD2 {
            lemma_decode_sized_sound(bytes, at, 4, Shape::Text);
        } else if marker == 0xD4 {
            lemma_decode_sized_sound(bytes, at, 1, Shape::List);
        } else if marker == 0xD5 {
            lemma_decode_sized_sound(bytes, at, 2, Shape::List);
        } else if marker == 0xD6 {
            lemma_decode_sized_sound(bytes, at, 4, Shape::List);
        } else if marker == 0xD8 {
            lemma_decode_sized_sound(bytes, at, 1, Shape::Dictionary);
        } else if marker == 0xD9 {
            lemma_decode_sized_sound(bytes, at, 2, Shape::Dictionary);
        } else if marker == 0xDA {
            lemma_decode_sized_sound(bytes, at, 4, Shape::Dictionary);
        } else if marker == 0xDC {
            lemma_decode_sized_sound(bytes, at, 1, Shape::Structure);
        } else if marker == 0xDD {
            lemma_decode_sized_sound(bytes, at, 2, Shape::Structure);
        }
    }
}

/// A body behind a size is sound.
proof fn lemma_decode_sized_sound(bytes: Seq<u8>, pos: int, width: int, shape: Shape)
    requires
        width == 1 || width == 2 || (width == 4 && shape != Shape::Structure),
        0 <= pos <= bytes.len(),
    ensures
        decode_sized(bytes, pos, width, shape) matches Ok((t, next)) ==> well_formed(t)
            && encodable(t) && pos < next <= bytes.len(),
    decreases bytes.len() - pos, 3int, 0int,
{
    if avail(bytes, pos, width) {
        let size = if width == 1 {
            bytes[pos] as nat
        } else if width == 2 {
            be16_value(window(bytes, pos, 2)) as nat
        } else {
            be32_value(window(bytes, pos, 4)) as nat
        };
        lemma_decode_body_sound(bytes, pos + width, shape, size);
    }
}

/// A body is sound.
proof fn lemma_decode_body_sound(bytes: Seq<u8>, pos: int, shape: Shape, size: nat)
    requires
        size < size_limit(shape),
        0 <= pos <= bytes.len(),
    ensures
        decode_body(bytes, pos, shape, size) matches Ok((t, next)) ==> well_formed(t) && encodable(
            t,
        ) && pos <= next <= bytes.len(),
    decreases bytes.len() - pos, 2int, 0int,
{
    match shape {
        Shape::Text => {
            if avail(bytes, pos, size as int) && valid_utf8(window(bytes, pos, size as int)) {
                decode_utf8_encode_utf8(window(bytes, pos, size as int));
            }
        },
        Shape::List => {
            lemma_decode_items_sound(bytes, pos, size, Seq::empty());
        },
        Shape::Dictionary => {
            lemma_decode_entries_sound(bytes, pos, size, Seq::empty());
        },
        Shape::Structure => {
            if avail(bytes, pos, 1) {
                lemma_decode_items_sound(bytes, pos + 1, size, Seq::empty());
            }
        },
    }
}

/// Items that are read are sound, and as many as were announced.
proof fn lemma_decode_items_sound(bytes: Seq<u8>, pos: int, n: nat, acc: Seq<Term>)
    requires
        all_sound(acc),
        0 <= pos <= bytes.len(),
    ensures
        decode_items(bytes, pos, n, acc) matches Ok((items, next)) ==> all_sound(items)
            && items.len() == acc.len() + n && pos <= next <= bytes.len(),
    decreases bytes.len() - pos, 1int, n,
{
    if n > 0 {
        theorem_decode_sound(bytes, pos);
        match decode(bytes, pos) {
            Ok((item, next)) => {
                let longer = acc.push(item);
                assert forall|i: int| 0 <= i < longer.len() implies well_formed(
                    #[trigger] longer[i],
                ) && encodable(longer[i]) by {
                    if i < acc.len() {
                        assert(longer[i] == acc[i]);
                    }
                }
                lemma_decode_items_sound(bytes, next, (n - 1) as nat, longer);
            },
            Err(_) => {},
        }
    }
}

/// Entries that are read are sound, and no more than were announced.
proof fn lemma_decode_entries_sound(
    bytes: Seq<u8>,
    pos: int,
    n: nat,
    acc: Seq<(Seq<char>, Term)>,
)
    requires
        all_entries_sound(acc),
        0 <= pos <= bytes.len(),
    ensures
        decode_entries(bytes, pos, n, acc) matches Ok((entries, next)) ==> all_entries_sound(
            entries,
        ) && entries.len() <= acc.len() + n && pos <= next <= bytes.len(),
    decreases bytes.len() - pos, 1int, n,
{
    if n > 0 {
        theorem_decode_sound(bytes, pos);
        match decode(bytes, pos) {
            Ok((Term::String(key), at)) => {
                theorem_decode_sound(bytes, at);
                match decode(bytes, at) {
                    Ok((value, next)) => {
                        let bound = bind(acc, key, value);
                        lemma_bind(acc, key, value);
                        lemma_position_of(acc, key);
                        assert forall|i: int| 0 <= i < bound.len() implies well_formed(
                            (#[trigger] bound[i]).1,
                        ) && encodable(bound[i].1) && encode_utf8(bound[i].0).len()
                            < 0x1_0000_0000 by {
                            if i != position_of(acc, key) {
                                assert(bound[i] == acc[i]);
                            }
                        }
                        lemma_decode_entries_sound(bytes, next, (n - 1) as nat, bound);
                    },
                    Err(_) => {},
                }
            },
            _ => {},
        }
    }
}

/// What was read can be written and read again, and is the same then.
pub proof fn theorem_decode_encode_decode(bytes: Seq<u8>, pos: int)
    ensures
        decode(bytes, pos) matches Ok((t, _)) ==> decode(encode(t), 0) == Ok::<_, CodecError>(
            (t, encode(t).len() as int),
        ),
{
    theorem_decode_sound(bytes, pos);
    match decode(bytes, pos) {
        Ok((t, _)) => {
            theorem_decode_encode(t);
        },
        Err(_) => {},
    }
}

/// The header of a string or container is the narrowest that holds its
/// size: the marker alone under sixteen items, else the marker and one, two
/// or four bytes of size, whichever is the least that the size fits in.
pub proof fn theorem_header_narrowest(shape: Shape, size: nat)
    requires
        size < size_limit(shape),
    ensures
        header(shape, size).len() == (if size < 0x10 {
            1nat
        } else if size < 0x100 {
            2nat
        } else if size < 0x1_0000 {
            3nat
        } else {
            5nat
        }),
        size < 0x10 ==> header(shape, size)[0] == tiny_marker(shape) + size,
        0x10 <= size < 0x100 ==> header(shape, size)[0] == wide_marker(shape, 1),
        0x100 <= size < 0x1_0000 ==> header(shape, size)[0] == wide_marker(shape, 2),
        0x1_0000 <= size ==> header(shape, size)[0] == wide_marker(shape, 4),
{
    lemma_header_form(shape, size);
}

} // verus!

//! Messages as chunks on the wire.
//!
//! A message goes out as chunks of at most 65535 bytes, each behind its
//! length as a big-endian 16-bit number, and ends with a chunk of length
//! zero.

use crate::bytes::{be16, be16_value, be_to_u16, lemma_be16_round_trip, u16_to_be};
use crate::unpack::{avail, window};
use vstd::prelude::*;
use vstd::slice::slice_subrange;

verus! {

/// The most bytes that one chunk holds.
pub const MAX_CHUNK_SIZE: usize = 0xFFFF;

/// The length of the first chunk of a body of `len` bytes.
pub open spec fn first_chunk(len: nat) -> nat {
    if len > 0xFFFF {
        0xFFFF
    } else {
        len
    }
}

/// The chunks of a body, each behind its length: full chunks as long as more
/// than a chunk is left, then the rest. An empty body has no chunk.
pub open spec fn chunks(body: Seq<u8>) -> Seq<u8>
    decreases body.len(),
{
    if body.len() == 0 {
        Seq::empty()
    } else {
        let n = first_chunk(body.len()) as int;
        be16(n as u16) + body.subrange(0, n) + chunks(body.subrange(n, body.len() as int))
    }
}

/// The wire form of a message: its chunks, then the terminator.
pub open spec fn frame(body: Seq<u8>) -> Seq<u8> {
    chunks(body) + seq![0u8, 0u8]
}

/// The lengths of the chunks of a body of `len` bytes, in order.
pub open spec fn chunk_lengths(len: nat) -> Seq<nat>
    decreases len,
{
    if len == 0 {
        Seq::empty()
    } else {
        seq![first_chunk(len)] + chunk_lengths((len - first_chunk(len)) as nat)
    }
}

/// The message that starts at `pos`, added to `acc`, with the position behind
/// its terminator; `None` where the wire ends before the terminator.
pub open spec fn deframe(wire: Seq<u8>, pos: int, acc: Seq<u8>) -> Option<(Seq<u8>, int)>
    decreases wire.len() - pos,
{
    if !avail(wire, pos, 2) {
        None
    } else {
        let size = be16_value(window(wire, pos, 2)) as int;
        if size == 0 {
            Some((acc, pos + 2))
        } else if !avail(wire, pos + 2, size) {
            None
        } else {
            deframe(wire, pos + 2 + size, acc + window(wire, pos + 2, size))
        }
    }
}

/// The lengths that the chunk headers from `pos` on announce, up to the
/// terminator; `None` where the wire ends before the terminator.
pub open spec fn layout(wire: Seq<u8>, pos: int, acc: Seq<nat>) -> Option<Seq<nat>>
    decreases wire.len() - pos,
{
    if !avail(wire, pos, 2) {
        None
    } else {
        let size = be16_value(window(wire, pos, 2)) as int;
        if size == 0 {
            Some(acc)
        } else if !avail(wire, pos + 2, size) {
            None
        } else {
            layout(wire, pos + 2 + size, acc.push(size as nat))
        }
    }
}

/// Chunks that stand at `pos` are read back, and laid out as they were cut.
proof fn lemma_deframe_chunks(
    body: Seq<u8>,
    wire: Seq<u8>,
    pos: int,
    acc: Seq<u8>,
    lengths: Seq<nat>,
)
    requires
        avail(wire, pos, frame(body).len() as int),
        window(wire, pos, frame(body).len() as int) == frame(body),
    ensures
        deframe(wire, pos, acc) == Some((acc + body, pos + frame(body).len())),
        layout(wire, pos, lengths) == Some(lengths + chunk_lengths(body.len())),
        frame(body).len() == body.len() + 2 * chunk_lengths(body.len()).len() + 2,
    decreases body.len(),
{
    let f = frame(body);
    let w = window(wire, pos, f.len() as int);
    if body.len() == 0 {
        assert(f =~= seq![0u8, 0u8]);
        assert(window(wire, pos, 2) =~= w);
        assert(acc + body =~= acc);
        assert(lengths + chunk_lengths(body.len()) =~= lengths);
    } else {
        let n = first_chunk(body.len()) as int;
        let head = body.subrange(0, n);
        let tail = body.subrange(n, body.len() as int);
        lemma_be16_round_trip(n as u16);
        assert(f =~= be16(n as u16) + head + frame(tail));
        assert(window(wire, pos, 2) =~= be16(n as u16)) by {
            assert(window(wire, pos, 2) =~= w.subrange(0, 2));
            assert(f.subrange(0, 2) =~= be16(n as u16));
        }
        assert(window(wire, pos + 2, n) =~= head) by {
            assert(window(wire, pos + 2, n) =~= w.subrange(2, 2 + n));
            assert(f.subrange(2, 2 + n) =~= head);
        }
        assert(window(wire, pos + 2 + n, frame(tail).len() as int) =~= frame(tail)) by {
            assert(window(wire, pos + 2 + n, frame(tail).len() as int) =~= w.subrange(
                2 + n,
                f.len() as int,
            ));
            assert(f.subrange(2 + n, f.len() as int) =~= frame(tail));
        }
        lemma_deframe_chunks(tail, wire, pos + 2 + n, acc + head, lengths.push(n as nat));
        assert(acc + head + tail =~= acc + body);
        assert(lengths.push(n as nat) + chunk_lengths(tail.len()) =~= lengths + chunk_lengths(
            body.len(),
        ));
    }
}

/// A message that is read ends behind where it starts, and within the wire.
pub proof fn lemma_deframe_bounds(wire: Seq<u8>, pos: int, acc: Seq<u8>)
    ensures
        deframe(wire, pos, acc) matches Some((_, next)) ==> pos < next <= wire.len(),
    decreases wire.len() - pos,
{
    if avail(wire, pos, 2) {
        let size = be16_value(window(wire, pos, 2)) as int;
        if size != 0 && avail(wire, pos + 2, size) {
            lemma_deframe_bounds(wire, pos + 2 + size, acc + window(wire, pos + 2, size));
        }
    }
}

/// A message that can be read is read the same when more bytes have
/// arrived behind it.
pub proof fn lemma_deframe_extend(wire: Seq<u8>, more: Seq<u8>, pos: int, acc: Seq<u8>)
    requires
        deframe(wire, pos, acc) is Some,
    ensures
        deframe(wire + more, pos, acc) == deframe(wire, pos, acc),
    decreases wire.len() - pos,
{
    let longer = wire + more;
    assert(window(longer, pos, 2) =~= window(wire, pos, 2));
    let size = be16_value(window(wire, pos, 2)) as int;
    if size != 0 {
        assert(window(longer, pos + 2, size) =~= window(wire, pos + 2, size));
        lemma_deframe_extend(wire, more, pos + 2 + size, acc + window(wire, pos + 2, size));
    }
}

/// A framed message that stands at `pos` is read back from there.
pub proof fn lemma_deframe_at(body: Seq<u8>, wire: Seq<u8>, pos: int)
    requires
        avail(wire, pos, frame(body).len() as int),
        window(wire, pos, frame(body).len() as int) == frame(body),
    ensures
        deframe(wire, pos, Seq::empty()) == Some((body, pos + frame(body).len())),
        frame(body).len() >= 2,
{
    lemma_deframe_chunks(body, wire, pos, Seq::empty(), Seq::empty());
    assert(Seq::<u8>::empty() + body =~= body);
}

/// Reading a framed message gives the message back and stops right behind
/// its terminator, whatever follows on the wire.
pub proof fn theorem_deframe_frame(body: Seq<u8>, rest: Seq<u8>)
    ensures
        deframe(frame(body) + rest, 0, Seq::empty()) == Some((body, frame(body).len() as int)),
{
    let wire = frame(body) + rest;
    assert(window(wire, 0, frame(body).len() as int) =~= frame(body));
    lemma_deframe_chunks(body, wire, 0, Seq::empty(), Seq::empty());
    assert(Seq::<u8>::empty() + body =~= body);
}

/// A body of `65535 * k + r` bytes, with `r` under 65535, is cut into `k`
/// chunks of 65535 bytes and, where `r` is not zero, one chunk of `r` bytes.
pub proof fn lemma_chunk_lengths(k: nat, r: nat)
    requires
        r < 0xFFFF,
    ensures
        chunk_lengths(0xFFFF * k + r) == Seq::new(k, |i: int| 0xFFFFnat) + (if r > 0 {
            seq![r]
        } else {
            Seq::empty()
        }),
    decreases k,
{
    let tail = if r > 0 {
        seq![r]
    } else {
        Seq::<nat>::empty()
    };
    if k == 0 {
        if r > 0 {
            assert(chunk_lengths(0) =~= Seq::empty());
            assert(chunk_lengths(r) =~= seq![r] + chunk_lengths(0));
        }
        assert(chunk_lengths(r) =~= Seq::new(0, |i: int| 0xFFFFnat) + tail);
    } else {
        let len = 0xFFFF * k + r;
        assert(len - 0xFFFF == 0xFFFF * (k - 1) + r) by (nonlinear_arith)
            requires
                len == 0xFFFF * k + r,
                k >= 1,
        ;
        assert(len >= 0xFFFF) by (nonlinear_arith)
            requires
                len == 0xFFFF * k + r,
                k >= 1,
        ;
        lemma_chunk_lengths((k - 1) as nat, r);
        assert(chunk_lengths(len) =~= Seq::new(k, |i: int| 0xFFFFnat) + tail);
    }
}

/// What a framed message looks like on the wire: the chunk headers announce
/// exactly the lengths into which the body was cut, none of them zero and
/// none over 65535, full chunks first; the only chunk of length zero is the
/// terminator at the end.
pub proof fn theorem_chunk_boundaries(body: Seq<u8>, k: nat, r: nat)
    requires
        body.len() == 0xFFFF * k + r,
        r < 0xFFFF,
    ensures
        layout(frame(body), 0, Seq::empty()) == Some(chunk_lengths(body.len())),
        chunk_lengths(body.len()) == Seq::new(k, |i: int| 0xFFFFnat) + (if r > 0 {
            seq![r]
        } else {
            Seq::empty()
        }),
        forall|i: int|
            0 <= i < chunk_lengths(body.len()).len() ==> 1 <= (#[trigger] chunk_lengths(
                body.len(),
            )[i]) <= 0xFFFF,
        frame(body).len() == body.len() + 2 * (k + (if r > 0 {
            1nat
        } else {
            0nat
        })) + 2,
{
    let wire = frame(body);
    assert(window(wire, 0, wire.len() as int) =~= wire);
    lemma_deframe_chunks(body, wire, 0, Seq::empty(), Seq::empty());
    assert(Seq::<nat>::empty() + chunk_lengths(body.len()) =~= chunk_lengths(body.len()));
    lemma_chunk_lengths(k, r);
}

/// Appends the wire form of a message to `out`.
pub fn write_frame(body: &[u8], out: &mut Vec<u8>)
    ensures
        final(out)@ == old(out)@ + frame(body@),
{
    let ghost before = out@;
    let len: usize = body.len();
    let mut offset: usize = 0;
    assert(body@.subrange(0, len as int) =~= body@);
    while offset < len
        invariant
            offset <= len,
            len == body.len(),
            out@ + chunks(body@.subrange(offset as int, len as int)) == before + chunks(body@),
        decreases len - offset,
    {
        let ghost pre = out@;
        let ghost left = body@.subrange(offset as int, len as int);
        let n: usize = if len - offset > MAX_CHUNK_SIZE {
            MAX_CHUNK_SIZE
        } else {
            len - offset
        };
        let header = u16_to_be(n as u16);
        out.extend_from_slice(header.as_slice());
        out.extend_from_slice(slice_subrange(body, offset, offset + n));
        proof {
            assert(left.subrange(0, n as int) =~= body@.subrange(offset as int, offset + n));
            assert(left.subrange(n as int, left.len() as int) =~= body@.subrange(
                offset + n,
                len as int,
            ));
            assert(out@ + chunks(body@.subrange(offset + n, len as int)) =~= pre + chunks(left));
        }
        offset += n;
    }
    out.push(0);
    out.push(0);
    assert(out@ =~= before + frame(body@));
}

/// Reads the message that starts at `pos` and says where the next one starts;
/// `None` where the wire ends before the terminator.
pub fn read_frame(wire: &[u8], pos: usize) -> (r: Option<(Vec<u8>, usize)>)
    ensures
        match r {
            Some((body, next)) => deframe(wire@, pos as int, Seq::empty()) == Some(
                (body@, next as int),
            ) && pos < next <= wire.len(),
            None => deframe(wire@, pos as int, Seq::empty()) is None,
        },
{
    let len: usize = wire.len();
    let mut body: Vec<u8> = Vec::new();
    let mut cur: usize = pos;
    loop
        invariant
            len == wire.len(),
            pos <= cur,
            deframe(wire@, pos as int, Seq::empty()) == deframe(wire@, cur as int, body@),
        decreases len - cur,
    {
        if cur > len || len - cur < 2 {
            return None;
        }
        let size: usize = be_to_u16(slice_subrange(wire, cur, cur + 2)) as usize;
        if size == 0 {
            return Some((body, cur + 2));
        }
        if len - (cur + 2) < size {
            return None;
        }
        let ghost acc = body@;
        body.extend_from_slice(slice_subrange(wire, cur + 2, cur + 2 + size));
        assert(body@ == acc + window(wire@, cur + 2, size as int));
        cur = cur + 2 + size;
    }
}

/// Why no message could be received.
#[derive(Clone, Copy, Debug, PartialEq, Eq, Structural)]
pub enum ChunkError {
    /// What was received so far ends before the terminator of the message.
    UnexpectedEof,
}

/// The two directions of a byte stream, held in memory: what was received
/// and how far it has been read, and what is waiting to be sent.
pub struct ChunkStream {
    inbound: Vec<u8>,
    position: usize,
    outbound: Vec<u8>,
}

impl ChunkStream {
    /// All that was received.
    pub closed spec fn received(&self) -> Seq<u8> {
        self.inbound@
    }

    /// How far the received bytes have been read.
    pub closed spec fn position(&self) -> int {
        self.position as int
    }

    /// What is waiting to be sent.
    pub closed spec fn sent(&self) -> Seq<u8> {
        self.outbound@
    }

    /// A stream that has received `stream` and sent nothing.
    pub fn new(stream: Vec<u8>) -> (chunks: ChunkStream)
        ensures
            chunks.received() == stream@,
            chunks.position() == 0,
            chunks.sent() == Seq::<u8>::empty(),
    {
        ChunkStream { inbound: stream, position: 0, outbound: Vec::new() }
    }

    /// Queues a message for sending, in chunks and with its terminator.
    pub fn send(&mut self, buf: &[u8])
        ensures
            final(self).sent() == old(self).sent() + frame(buf@),
            final(self).received() == old(self).received(),
            final(self).position() == old(self).position(),
    {
        write_frame(buf, &mut self.outbound);
    }

    /// Reads the next message. Where the bytes received so far do not hold
    /// all of it, nothing is read.
    pub fn recv(&mut self) -> (r: Result<Vec<u8>, ChunkError>)
        ensures
            final(self).received() == old(self).received(),
            final(self).sent() == old(self).sent(),
            match r {
                Ok(body) => deframe(old(self).received(), old(self).position(), Seq::empty())
                    == Some((body@, final(self).position())) && old(self).position() < final(self)
                    .position() <= final(self).received().len(),
                Err(e) => e == ChunkError::UnexpectedEof && deframe(
                    old(self).received(),
                    old(self).position(),
                    Seq::empty(),
                ) is None && final(self).position() == old(self).position(),
            },
    {
        match read_frame(self.inbound.as_slice(), self.position) {
            Some((body, next)) => {
                self.position = next;
                Ok(body)
            },
            None => Err(ChunkError::UnexpectedEof),
        }
    }

    /// Adds bytes that arrived to what was received.
    pub fn feed(&mut self, bytes: &[u8])
        ensures
            final(self).received() == old(self).received() + bytes@,
            final(self).position() == old(self).position(),
            final(self).sent() == old(self).sent(),
    {
        self.inbound.extend_from_slice(bytes);
    }

    /// Hands out what is waiting to be sent, and forgets it.
    pub fn take_sent(&mut self) -> (out: Vec<u8>)
        ensures
            out@ == old(self).sent(),
            final(self).sent() == Seq::<u8>::empty(),
            final(self).received() == old(self).received(),
            final(self).position() == old(self).position(),
    {
        let mut out: Vec<u8> = Vec::new();
        core::mem::swap(&mut out, &mut self.outbound);
        out
    }
}

} // verus!

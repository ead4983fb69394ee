use rusty_bolt::chunk::{read_frame, write_frame, ChunkError, ChunkStream, MAX_CHUNK_SIZE};

#[test]
fn byte_read_test() {
    let buf: Vec<u8> = vec![0, 5, 0, 1, 2, 3, 4, 0, 0];
    let mut c = ChunkStream::new(buf);
    let rbuf = c.recv().unwrap();
    for i in 0..5 {
        assert_eq!(i as u8, rbuf[i]);
    }
}

#[test]
fn round_trip() {
    let mut c = ChunkStream::new(Vec::new());
    for _ in 0..5 {
        c.send(&((0..100).into_iter().collect::<Vec<u8>>())[..]);
    }
    let wire = c.take_sent();
    c.feed(&wire);
    for _ in 0..5 {
        let rbuf = c.recv().unwrap();
        assert_eq!(rbuf.len(), 100);
        for i in 0..100 {
            assert_eq!(i as u8, rbuf[i]);
        }
    }
}

fn framed(body: &[u8]) -> Vec<u8> {
    let mut out = Vec::new();
    write_frame(body, &mut out);
    out
}

#[test]
fn an_empty_message_is_its_terminator() {
    assert_eq!(framed(&[]), vec![0, 0]);
    assert_eq!(read_frame(&[0, 0], 0), Some((vec![], 2)));
}

#[test]
fn a_short_message_is_one_chunk() {
    assert_eq!(framed(&[7, 8, 9]), vec![0, 3, 7, 8, 9, 0, 0]);
    let body: Vec<u8> = (0..300).map(|i| i as u8).collect();
    let wire = framed(&body);
    assert_eq!(&wire[..2], &[0x01, 0x2C]);
    assert_eq!(&wire[2..302], &body[..]);
    assert_eq!(&wire[302..], &[0, 0]);
}

#[test]
fn chunks_are_cut_at_65535_bytes() {
    assert_eq!(MAX_CHUNK_SIZE, 65535);
    for (k, r) in [(1usize, 0usize), (1, 1), (1, 4465), (2, 0), (3, 17), (0, 65534)] {
        let len = 65535 * k + r;
        let body: Vec<u8> = (0..len).map(|i| (i % 251) as u8).collect();
        let wire = framed(&body);
        let chunks = k + if r > 0 { 1 } else { 0 };
        assert_eq!(wire.len(), len + 2 * chunks + 2);
        let mut pos = 0;
        let mut taken = 0;
        for c in 0..chunks {
            let size = ((wire[pos] as usize) << 8) | wire[pos + 1] as usize;
            let expected = if c < k { 65535 } else { r };
            assert_eq!(size, expected);
            assert!(size > 0);
            assert_eq!(&wire[pos + 2..pos + 2 + size], &body[taken..taken + size]);
            pos += 2 + size;
            taken += size;
        }
        assert_eq!(&wire[pos..], &[0, 0]);
        assert_eq!(taken, len);
        assert_eq!(read_frame(&wire, 0), Some((body, wire.len())));
    }
}

#[test]
fn messages_follow_each_other_on_the_wire() {
    let mut wire = framed(&[1, 2]);
    wire.extend_from_slice(&framed(&[]));
    wire.extend_from_slice(&framed(&[3]));
    assert_eq!(read_frame(&wire, 0), Some((vec![1, 2], 6)));
    assert_eq!(read_frame(&wire, 6), Some((vec![], 8)));
    assert_eq!(read_frame(&wire, 8), Some((vec![3], 13)));
    assert_eq!(read_frame(&wire, 13), None);
    assert_eq!(read_frame(&wire, 99), None);
}

#[test]
fn chunks_that_a_sender_cut_otherwise_are_joined() {
    let wire = vec![0, 1, 10, 0, 2, 11, 12, 0, 1, 13, 0, 0];
    assert_eq!(read_frame(&wire, 0), Some((vec![10, 11, 12, 13], 12)));
}

#[test]
fn a_message_that_has_not_arrived_whole_is_not_read() {
    let wire = framed(&[1, 2, 3, 4]);
    for cut in 0..wire.len() {
        assert_eq!(read_frame(&wire[..cut], 0), None, "cut at {}", cut);
    }
    let mut c = ChunkStream::new(wire[..3].to_vec());
    assert_eq!(c.recv(), Err(ChunkError::UnexpectedEof));
    c.feed(&wire[3..6]);
    assert_eq!(c.recv(), Err(ChunkError::UnexpectedEof));
    c.feed(&wire[6..]);
    assert_eq!(c.recv(), Ok(vec![1, 2, 3, 4]));
    assert_eq!(c.recv(), Err(ChunkError::UnexpectedEof));
}

#[test]
fn what_is_sent_waits_until_it_is_taken() {
    let mut c = ChunkStream::new(Vec::new());
    c.send(&[5]);
    c.send(&[6, 7]);
    assert_eq!(c.take_sent(), vec![0, 1, 5, 0, 0, 0, 2, 6, 7, 0, 0]);
    assert_eq!(c.take_sent(), Vec::<u8>::new());
    c.send(&[]);
    assert_eq!(c.take_sent(), vec![0, 0]);
}

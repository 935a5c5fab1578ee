use tinychat::builder::MesgBuilder;
use tinychat::frame::{frame_payload, FrameError, MAX_PACKET};

fn stream(payloads: &[Vec<u8>]) -> Vec<u8> {
    let mut s = Vec::new();
    for p in payloads {
        s.extend(frame_payload(p).unwrap());
    }
    s
}

fn feed_in_chunks(bytes: &[u8], sizes: &[usize]) -> Vec<Vec<u8>> {
    let mut b = MesgBuilder::new();
    let mut out = Vec::new();
    let mut pos = 0;
    let mut k = 0;
    while pos < bytes.len() {
        let n = sizes[k % sizes.len()].min(bytes.len() - pos);
        if let Some(ms) = b.eat(&bytes[pos..pos + n]) {
            out.extend(ms);
        }
        pos += n;
        k += 1;
    }
    out
}

#[test]
fn frame_prefix_is_little_endian_length() {
    assert_eq!(frame_payload(&vec![7, 8, 9]), Ok(vec![3, 0, 7, 8, 9]));
    let big = vec![1u8; 300];
    let f = frame_payload(&big).unwrap();
    assert_eq!(&f[..2], &[44, 1]);
    assert_eq!(f.len(), 302);
}

#[test]
fn frame_empty_payload() {
    assert_eq!(frame_payload(&vec![]), Ok(vec![0, 0]));
}

#[test]
fn frame_largest_payload_fits() {
    let p = vec![5u8; MAX_PACKET];
    let f = frame_payload(&p).unwrap();
    assert_eq!(&f[..2], &[255, 255]);
    assert_eq!(f.len(), MAX_PACKET + 2);
}

#[test]
fn frame_too_large_is_refused() {
    let p = vec![5u8; MAX_PACKET + 1];
    assert_eq!(frame_payload(&p), Err(FrameError::PayloadTooLarge));
}

#[test]
fn builder_whole_stream() {
    let ps = vec![vec![1, 2, 3], vec![], vec![4; 260]];
    let s = stream(&ps);
    let mut b = MesgBuilder::new();
    assert_eq!(b.eat(&s), Some(ps));
}

#[test]
fn builder_chunk_boundaries_do_not_matter() {
    let ps = vec![vec![1, 2, 3], vec![], vec![9; 70], vec![4; 260], vec![0]];
    let s = stream(&ps);
    for sizes in [vec![1], vec![2], vec![3], vec![1, 4, 2], vec![5, 1], vec![300], vec![7, 13]] {
        assert_eq!(feed_in_chunks(&s, &sizes), ps, "chunk sizes {:?}", sizes);
    }
}

#[test]
fn builder_empty_chunk_is_noop() {
    let mut b = MesgBuilder::new();
    assert_eq!(b.eat(&[]), None);
    assert_eq!(b.eat(&[2]), None);
    assert_eq!(b.eat(&[]), None);
    assert_eq!(b.eat(&[0, 10]), None);
    assert_eq!(b.eat(&[]), None);
    assert_eq!(b.eat(&[11, 3]), Some(vec![vec![10, 11]]));
}

#[test]
fn builder_mid_prefix_and_mid_payload() {
    let mut b = MesgBuilder::new();
    // one byte of prefix
    assert_eq!(b.eat(&[3]), None);
    // rest of prefix and part of payload
    assert_eq!(b.eat(&[0, 1, 2]), None);
    // tail of the frame, the whole next frame, and half of the following prefix
    assert_eq!(b.eat(&[3, 1, 0, 42, 2]), Some(vec![vec![1, 2, 3], vec![42]]));
    assert_eq!(b.eat(&[0, 5, 6]), Some(vec![vec![5, 6]]));
}

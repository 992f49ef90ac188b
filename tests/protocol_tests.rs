use card_table::protocol::{FrameReader, encode_frame};

#[test]
fn frame_starts_with_big_endian_length() {
    let f = encode_frame(&vec![7u8, 8, 9]);
    assert_eq!(f, vec![0, 0, 0, 3, 7, 8, 9]);
    let long = vec![1u8; 300];
    let g = encode_frame(&long);
    assert_eq!(&g[..4], &[0, 0, 1, 44]);
    assert_eq!(g.len(), 304);
}

#[test]
fn empty_payload_is_a_bare_header() {
    assert_eq!(encode_frame(&Vec::new()), vec![0, 0, 0, 0]);
    let mut r = FrameReader::new();
    r.push_bytes(&[0, 0, 0, 0]);
    assert_eq!(r.next_frame(), Some(Vec::new()));
    assert_eq!(r.pending(), 0);
}

#[test]
fn two_frames_in_one_read_come_out_one_by_one() {
    let mut bytes = encode_frame(&b"hello".to_vec());
    bytes.extend(encode_frame(&b"world!".to_vec()));
    let mut r = FrameReader::new();
    r.push_bytes(&bytes);
    assert_eq!(r.next_frame(), Some(b"hello".to_vec()));
    assert_eq!(r.next_frame(), Some(b"world!".to_vec()));
    assert_eq!(r.next_frame(), None);
    assert_eq!(r.pending(), 0);
}

#[test]
fn frame_split_across_reads_waits_for_the_rest() {
    let bytes = encode_frame(&b"split message".to_vec());
    let mut r = FrameReader::new();
    r.push_bytes(&bytes[..2]);
    assert_eq!(r.next_frame(), None);
    r.push_bytes(&bytes[2..9]);
    assert_eq!(r.next_frame(), None);
    assert_eq!(r.pending(), 9);
    r.push_bytes(&bytes[9..]);
    assert_eq!(r.next_frame(), Some(b"split message".to_vec()));
    assert_eq!(r.pending(), 0);
}

#[test]
fn bytes_after_a_frame_stay_pending() {
    let mut bytes = encode_frame(&vec![5u8]);
    bytes.extend_from_slice(&[0, 0]);
    let mut r = FrameReader::new();
    r.push_bytes(&bytes);
    assert_eq!(r.next_frame(), Some(vec![5u8]));
    assert_eq!(r.pending(), 2);
    assert_eq!(r.next_frame(), None);
}

use protocol_async::size::{decode_size, encode_size};
use protocol_async::transport::{frame_packet, BUFFER_SIZE, DEFAULT_MAX_PACKET_SIZE};
use protocol_async::{ByteOrder, FrameError, ReadOutcome, Settings, Simple};

fn big() -> Settings {
    Settings::new()
}

fn little() -> Settings {
    Settings::with_byte_order(ByteOrder::LittleEndian)
}

fn drain(t: &mut Simple) -> Vec<Vec<u8>> {
    let mut out = Vec::new();
    while let Some(p) = t.receive_raw_packet() {
        out.push(p);
    }
    out
}

#[test]
fn three_reads_of_two_one_six() {
    let mut t = Simple::new();
    let s = big();
    assert_eq!(t.process_bytes(&[0, 0], &s), Ok(()));
    assert_eq!(t.queued_packets(), 0);
    assert_eq!(t.process_bytes(&[0], &s), Ok(()));
    assert_eq!(t.queued_packets(), 0);
    assert_eq!(t.process_bytes(&[5, 1, 2, 3, 4, 5], &s), Ok(()));
    assert_eq!(drain(&mut t), vec![vec![1, 2, 3, 4, 5]]);
}

#[test]
fn zero_length_payload_completes_at_once() {
    let mut t = Simple::new();
    assert_eq!(t.process_bytes(&[0, 0, 0, 0], &big()), Ok(()));
    assert_eq!(t.receive_raw_packet(), Some(Vec::new()));
    assert_eq!(t.receive_raw_packet(), None);
}

#[test]
fn every_split_of_a_frame_gives_one_packet() {
    let payload: Vec<u8> = (0u8..13).collect();
    let f = frame_packet(&payload, &big()).unwrap();
    for cut1 in 0..=f.len() {
        for cut2 in cut1..=f.len() {
            let mut t = Simple::new();
            for chunk in [&f[..cut1], &f[cut1..cut2], &f[cut2..]] {
                if !chunk.is_empty() {
                    assert_eq!(t.process_bytes(chunk, &big()), Ok(()));
                }
            }
            assert_eq!(drain(&mut t), vec![payload.clone()]);
        }
    }
}

#[test]
fn byte_at_a_time_little_endian() {
    let payload = vec![9u8, 8, 7];
    let f = frame_packet(&payload, &little()).unwrap();
    assert_eq!(f, vec![3, 0, 0, 0, 9, 8, 7]);
    let mut t = Simple::new();
    for b in &f {
        assert_eq!(t.process_bytes(&[*b], &little()), Ok(()));
    }
    assert_eq!(drain(&mut t), vec![payload]);
}

#[test]
fn several_frames_in_one_call_keep_their_order() {
    let payloads: Vec<Vec<u8>> = vec![vec![1], vec![], vec![2, 3], vec![4, 5, 6, 7]];
    let mut all = Vec::new();
    for p in &payloads {
        all.extend(frame_packet(p, &big()).unwrap());
    }
    let mut t = Simple::new();
    assert_eq!(t.process_bytes(&all, &big()), Ok(()));
    assert_eq!(t.queued_packets(), 4);
    assert_eq!(drain(&mut t), payloads);
}

#[test]
fn partial_frame_waits_for_more() {
    let mut t = Simple::new();
    assert_eq!(t.process_bytes(&[0, 0, 0, 3, 1, 2], &big()), Ok(()));
    assert_eq!(t.receive_raw_packet(), None);
    assert_eq!(t.process_bytes(&[3, 0, 0], &big()), Ok(()));
    assert_eq!(t.receive_raw_packet(), Some(vec![1, 2, 3]));
    assert_eq!(t.process_bytes(&[0, 1, 42], &big()), Ok(()));
    assert_eq!(t.receive_raw_packet(), Some(vec![42]));
}

#[test]
fn round_trip_small_and_large() {
    for len in [0usize, 1, 1_000_000] {
        let payload: Vec<u8> = (0..len).map(|i| (i % 251) as u8).collect();
        let f = frame_packet(&payload, &big()).unwrap();
        assert_eq!(f.len(), len + 4);
        let mut t = Simple::new();
        let mut outcomes = Vec::new();
        for chunk in f.chunks(BUFFER_SIZE) {
            outcomes.push(t.process_read(chunk, &big()).unwrap());
        }
        assert_eq!(t.receive_raw_packet(), Some(payload));
        assert_eq!(t.receive_raw_packet(), None);
        if len == 1_000_000 {
            assert_eq!(outcomes[0], ReadOutcome::ReadMore);
            assert_eq!(*outcomes.last().unwrap(), ReadOutcome::Idle);
        }
    }
}

#[test]
fn frame_bytes_are_prefix_then_payload() {
    let f = frame_packet(&[0xaa; 258], &big()).unwrap();
    assert_eq!(&f[..4], &[0, 0, 1, 2]);
    assert_eq!(f.len(), 262);
    assert!(f[4..].iter().all(|b| *b == 0xaa));
    let g = frame_packet(&[0xaa; 258], &little()).unwrap();
    assert_eq!(&g[..4], &[2, 1, 0, 0]);
}

#[test]
fn size_prefix_encoding_is_exact() {
    assert_eq!(encode_size(0x01020304, ByteOrder::BigEndian), vec![1, 2, 3, 4]);
    assert_eq!(encode_size(0x01020304, ByteOrder::LittleEndian), vec![4, 3, 2, 1]);
    assert_eq!(decode_size(&[1, 2, 3, 4], ByteOrder::BigEndian), 0x01020304);
    assert_eq!(decode_size(&[1, 2, 3, 4], ByteOrder::LittleEndian), 0x04030201);
    assert_eq!(decode_size(&[255, 255, 255, 255], ByteOrder::BigEndian), u32::MAX);
}

#[test]
fn oversized_prefix_fails_and_stays_failed() {
    let mut t = Simple::with_max_packet_size(16);
    assert_eq!(t.max_packet_size(), 16);
    let mut bytes = frame_packet(&[7; 3], &big()).unwrap();
    bytes.extend([0, 0, 0, 17, 1, 2]);
    assert_eq!(
        t.process_bytes(&bytes, &big()),
        Err(FrameError::Oversized { size: 17, max: 16 })
    );
    assert_eq!(
        t.process_bytes(&[0, 0, 0, 1, 9], &big()),
        Err(FrameError::Oversized { size: 17, max: 16 })
    );
    assert_eq!(drain(&mut t), vec![vec![7, 7, 7]]);
}

#[test]
fn huge_declared_length_is_refused_by_default() {
    let mut t = Simple::new();
    assert_eq!(t.max_packet_size(), DEFAULT_MAX_PACKET_SIZE);
    assert_eq!(
        t.process_bytes(&[255, 255, 255, 255], &big()),
        Err(FrameError::Oversized { size: u32::MAX, max: DEFAULT_MAX_PACKET_SIZE })
    );
}

#[test]
fn limit_itself_is_accepted() {
    let mut t = Simple::with_max_packet_size(2);
    assert_eq!(t.process_bytes(&[0, 0, 0, 2, 5, 6], &big()), Ok(()));
    assert_eq!(t.receive_raw_packet(), Some(vec![5, 6]));
}

#[test]
fn read_outcomes() {
    let mut t = Simple::new();
    assert_eq!(t.process_read(&[], &big()), Ok(ReadOutcome::Closed));
    assert_eq!(t.process_read(&[0, 0], &big()), Ok(ReadOutcome::Idle));
    let full = vec![0u8; BUFFER_SIZE];
    assert_eq!(t.process_read(&full, &big()), Ok(ReadOutcome::ReadMore));
    assert_eq!(t.queued_packets(), (BUFFER_SIZE + 2) / 4);
    let mut u = Simple::with_max_packet_size(0);
    assert_eq!(
        u.process_read(&[0, 0, 0, 1], &big()),
        Err(FrameError::Oversized { size: 1, max: 0 })
    );
}

#[test]
fn empty_input_changes_nothing() {
    let mut t = Simple::new();
    assert_eq!(t.process_bytes(&[], &big()), Ok(()));
    assert_eq!(t.queued_packets(), 0);
    assert_eq!(t.receive_raw_packet(), None);
}

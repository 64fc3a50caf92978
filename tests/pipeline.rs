use protocol::wire::middleware::compression::{Algorithm, Compression};
use protocol::wire::middleware::pipeline;
use protocol_async::packet::{encode_framed, receive_decoded, SendError};
use protocol_async::{Settings, Simple};

#[test]
fn default_pipeline_frames_and_restores_a_packet() {
    let settings = Settings::new();
    let mut middleware = pipeline::default();
    let frame = match encode_framed(&mut middleware, vec![1, 2, 3], &settings) {
        Ok(f) => f,
        Err(SendError::Pipeline(_)) | Err(SendError::Frame(_)) => panic!("framing failed"),
    };
    assert_eq!(frame, vec![0, 0, 0, 3, 1, 2, 3]);

    let mut t = Simple::new();
    assert!(receive_decoded(&mut t, &mut middleware).unwrap().is_none());
    t.process_bytes(&frame, &settings).unwrap();
    t.process_bytes(&frame[..5], &settings).unwrap();
    assert_eq!(receive_decoded(&mut t, &mut middleware).unwrap(), Some(vec![1, 2, 3]));
    assert!(receive_decoded(&mut t, &mut middleware).unwrap().is_none());
    t.process_bytes(&frame[5..], &settings).unwrap();
    assert_eq!(receive_decoded(&mut t, &mut middleware).unwrap(), Some(vec![1, 2, 3]));
}

fn zlib_pipeline() -> pipeline::Default {
    let mut middleware = pipeline::default();
    middleware.compression = Compression::Enabled(Algorithm::Zlib);
    middleware
}

/// `[1, 2, 3]` as a zlib stream of one stored deflate block.
fn zlib_of_one_two_three() -> Vec<u8> {
    vec![0x78, 0x01, 0x01, 0x03, 0x00, 0xfc, 0xff, 1, 2, 3, 0x00, 0x0d, 0x00, 0x07]
}

#[test]
fn zlib_pipeline_changes_what_is_framed() {
    let settings = Settings::new();
    let raw: Vec<u8> = vec![7; 300];
    let mut middleware = zlib_pipeline();
    let frame = match encode_framed(&mut middleware, raw.clone(), &settings) {
        Ok(f) => f,
        Err(_) => panic!("framing failed"),
    };
    let declared = u32::from_be_bytes([frame[0], frame[1], frame[2], frame[3]]) as usize;
    assert_eq!(declared, frame.len() - 4);
    assert_ne!(&frame[4..], &raw[..]);
    assert_eq!(encode_framed(&mut middleware, raw, &settings).ok(), Some(frame));
}

#[test]
fn zlib_pipeline_decodes_a_received_packet() {
    let settings = Settings::new();
    let mut middleware = zlib_pipeline();
    let payload = zlib_of_one_two_three();
    let mut frame = vec![0, 0, 0, payload.len() as u8];
    frame.extend(&payload);
    let mut t = Simple::new();
    t.process_bytes(&frame, &settings).unwrap();
    assert_eq!(receive_decoded(&mut t, &mut middleware).unwrap(), Some(vec![1, 2, 3]));
}

#[test]
fn undecodable_packet_is_an_error_and_the_next_one_still_reads() {
    let settings = Settings::new();
    let mut middleware = zlib_pipeline();
    let payload = zlib_of_one_two_three();
    let mut t = Simple::new();
    t.process_bytes(&[0, 0, 0, 3, 9, 9, 9], &settings).unwrap();
    t.process_bytes(&[0, 0, 0, payload.len() as u8], &settings).unwrap();
    t.process_bytes(&payload, &settings).unwrap();
    assert!(receive_decoded(&mut t, &mut middleware).is_err());
    assert_eq!(receive_decoded(&mut t, &mut middleware).unwrap(), Some(vec![1, 2, 3]));
    assert!(receive_decoded(&mut t, &mut middleware).unwrap().is_none());
}

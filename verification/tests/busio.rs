use eltako_bus::busio::{AlreadyRunning, Received, SerialInterface, SerialShared};
use eltako_bus::eldecode::premaid::{button, scan_members, status, Positions};
use eltako_bus::eldecode::{DecodeError, EltakoFrame};
use eltako_bus::ringbuff::Empty;

fn corrupted_window() -> Vec<u8> {
    let mut window = scan_members(3).to_vec();
    window[6] ^= 0x10;
    window
}

#[test]
fn new_listener_holds_nothing() {
    let mut shared = SerialShared::new();
    assert_eq!(shared.temp.readable(), 0);
    assert_eq!(shared.temp.get_vec(), vec![0u8; 100]);
    assert_eq!(shared.frame_buffer.readable(), 0);
    let blank = EltakoFrame { length: 0, rorg: 0, data: 0, source: 0, status: 0 };
    assert_eq!(shared.frame_buffer.get_vec(), vec![blank; 1000]);
    assert_eq!(shared.frame_buffer.reduce(), Err(Empty));
}

#[test]
fn step_without_bytes_finds_nothing() {
    let mut shared = SerialShared::new();
    assert_eq!(shared.ingest(&[]), Received::Nothing);
    assert_eq!(shared.temp.readable(), 0);
    assert_eq!(shared.frame_buffer.readable(), 0);
}

#[test]
fn frame_behind_a_junk_byte_is_decoded() {
    let frame = EltakoFrame {
        length: 0x0d,
        rorg: 0x05,
        data: 0x70000000,
        source: 0x04065200,
        status: 0x30,
    };
    assert_eq!(frame, button(0x04065200, true, Positions::TopRight));
    let mut bytes = vec![0x00u8];
    bytes.extend(frame.to_vec());
    assert_eq!(bytes.len(), 15);

    let mut shared = SerialShared::new();
    assert_eq!(shared.ingest(&bytes), Received::Frame(frame));
    assert_eq!(shared.frame_buffer.readable(), 1);
    assert_eq!(shared.temp.readable(), 0);
    assert_eq!(shared.ingest(&[]), Received::Nothing);
    assert_eq!(shared.frame_buffer.readable(), 1);

    let decoded = shared.frame_buffer.reduce().unwrap();
    assert_eq!(decoded, frame);
    assert_eq!(shared.frame_buffer.reduce(), Err(Empty));
    let line = decoded.explain();
    assert!(line.starts_with("rorg:Button "));
    assert!(line.contains("| status:On  -> 0x30 |"));
    assert!(line.contains("| data:Top Right -> 0x70000000"));
}

#[test]
fn corrupted_window_is_skipped() {
    let frame = status(2);
    let bad = corrupted_window();
    assert_eq!(EltakoFrame::from_vec(&bad), Err(DecodeError::ChecksumMismatch));
    let mut bytes = bad.clone();
    bytes.extend(frame.to_vec());

    let mut shared = SerialShared::new();
    assert_eq!(shared.ingest(&bytes), Received::Malformed(bad, DecodeError::ChecksumMismatch));
    assert_eq!(shared.frame_buffer.readable(), 0);
    assert_eq!(shared.ingest(&[]), Received::Frame(frame));
    assert_eq!(shared.ingest(&[]), Received::Nothing);
    assert_eq!(shared.ingest(&[]), Received::Nothing);
    assert_eq!(shared.temp.readable(), 0);
    assert_eq!(shared.frame_buffer.readable(), 1);
    assert_eq!(shared.frame_buffer.reduce(), Ok(frame));
    assert_eq!(shared.frame_buffer.reduce(), Err(Empty));
}

#[test]
fn window_of_noise_is_skipped() {
    let frame = status(2);
    let mut bytes = vec![0x11u8; 14];
    bytes.extend(frame.to_vec());

    let mut shared = SerialShared::new();
    assert_eq!(shared.ingest(&bytes), Received::Frame(frame));
    assert_eq!(shared.ingest(&[]), Received::Nothing);
    assert_eq!(shared.temp.readable(), 0);
    assert_eq!(shared.frame_buffer.readable(), 1);
    assert_eq!(shared.frame_buffer.reduce(), Ok(frame));
}

#[test]
fn window_with_a_broken_preamble_is_reported() {
    let mut bad = status(9).to_vec();
    bad[1] = 0x00;
    for byte in bad.iter_mut().skip(2) {
        if *byte == 0xa5 {
            *byte = 0;
        }
    }
    let mut shared = SerialShared::new();
    assert_eq!(
        shared.ingest(&bad),
        Received::Malformed(bad.clone(), DecodeError::InvalidPreamble)
    );
    assert_eq!(shared.temp.readable(), 0);
    assert_eq!(shared.frame_buffer.readable(), 0);
}

#[test]
fn frame_that_arrives_in_pieces_is_decoded_once_complete() {
    let frame = button(0x00001010, false, Positions::Nothing);
    let wire = frame.to_vec();
    let mut shared = SerialShared::new();
    assert_eq!(shared.ingest(&wire[..5]), Received::Nothing);
    assert_eq!(shared.temp.readable(), 5);
    assert_eq!(shared.ingest(&wire[5..13]), Received::Nothing);
    assert_eq!(shared.temp.readable(), 13);
    assert_eq!(shared.frame_buffer.readable(), 0);
    assert_eq!(shared.ingest(&wire[13..]), Received::Frame(frame));
    assert_eq!(shared.temp.readable(), 0);
    assert_eq!(shared.frame_buffer.reduce(), Ok(frame));
}

#[test]
fn each_step_decodes_one_frame() {
    let first = status(1);
    let second = status(2);
    let mut bytes = first.to_vec();
    bytes.extend(second.to_vec());
    let mut shared = SerialShared::new();
    assert_eq!(shared.ingest(&bytes), Received::Frame(first));
    assert_eq!(shared.frame_buffer.readable(), 1);
    assert_eq!(shared.temp.readable(), 14);
    assert_eq!(shared.ingest(&[]), Received::Frame(second));
    assert_eq!(shared.frame_buffer.reduce_slice(2), Ok(vec![first, second]));
}

#[test]
fn frames_keep_the_order_of_their_arrival() {
    let mut shared = SerialShared::new();
    for index in 1..=20u8 {
        assert_eq!(shared.ingest(&status(index).to_vec()), Received::Frame(status(index)));
    }
    assert_eq!(shared.frame_buffer.readable(), 20);
    for index in 1..=20u8 {
        assert_eq!(shared.frame_buffer.reduce(), Ok(status(index)));
    }
}

#[test]
fn junk_without_a_preamble_byte_is_dropped() {
    let mut shared = SerialShared::new();
    assert_eq!(shared.ingest(&[1, 2, 3, 4, 5, 6, 7, 8, 9, 10, 11, 12, 13, 14, 15]), Received::Nothing);
    assert_eq!(shared.temp.readable(), 0);
}

#[test]
fn listener_starts_once() {
    let mut serial = SerialInterface::new();
    assert_eq!(serial.start(), Ok(()));
    assert_eq!(serial.start(), Err(AlreadyRunning));
    assert_eq!(serial.start(), Err(AlreadyRunning));
    serial.stop();
    assert_eq!(serial.start(), Ok(()));
}

use eltako_bus::eldecode::premaid::{acknowledge, button, scan_members, scan_start, status, Positions};
use eltako_bus::eldecode::{DecodeError, EltakoFrame};

fn button_frame() -> EltakoFrame {
    EltakoFrame { length: 0x0d, rorg: 0x05, data: 0x70000000, source: 0x04065200, status: 0x30 }
}

fn reference_line(
    kind: &str,
    state: &str,
    meaning: &str,
    frame: &EltakoFrame,
) -> String {
    format!(
        "rorg:{:<12} -> 0x{:02x} | source_addr:0x{:08x} | status:{:<3} -> 0x{:02x} | data:{} -> 0x{:08x}",
        kind, frame.rorg, frame.source, state, frame.status, meaning, frame.data,
    )
}

#[test]
fn encoding_is_bit_exact() {
    assert_eq!(
        button_frame().to_vec(),
        vec![0xa5u8, 0x5a, 0x0d, 0x05, 0x70, 0x00, 0x00, 0x00, 0x04, 0x06, 0x52, 0x00, 0x30, 0x0e]
    );
}

#[test]
fn encoding_puts_words_most_significant_byte_first() {
    let frame =
        EltakoFrame { length: 0x01, rorg: 0x02, data: 0x11223344, source: 0xaabbccdd, status: 0x03 };
    assert_eq!(
        frame.to_vec(),
        vec![0xa5u8, 0x5a, 0x01, 0x02, 0x11, 0x22, 0x33, 0x44, 0xaa, 0xbb, 0xcc, 0xdd, 0x03, 0xbe]
    );
}

#[test]
fn decoding_reads_every_field() {
    let window = [0xa5u8, 0x5a, 0x01, 0x02, 0x11, 0x22, 0x33, 0x44, 0xaa, 0xbb, 0xcc, 0xdd, 0x03, 0xbe];
    assert_eq!(
        EltakoFrame::from_vec(&window),
        Ok(EltakoFrame {
            length: 0x01,
            rorg: 0x02,
            data: 0x11223344,
            source: 0xaabbccdd,
            status: 0x03
        })
    );
}

#[test]
fn frames_survive_the_round_trip() {
    let frames = [
        button_frame(),
        scan_start(),
        scan_members(127),
        status(1),
        acknowledge(255),
        EltakoFrame { length: 0, rorg: 0, data: 0, source: 0, status: 0 },
        EltakoFrame { length: 0xff, rorg: 0xff, data: 0xffffffff, source: 0xffffffff, status: 0xff },
        EltakoFrame { length: 0xa5, rorg: 0x5a, data: 0xa55aa55a, source: 0x5aa55aa5, status: 0xa5 },
    ];
    for frame in frames {
        let wire = frame.to_vec();
        assert_eq!(wire.len(), 14);
        assert_eq!(EltakoFrame::from_vec(&wire), Ok(frame));
    }
}

#[test]
fn flipped_payload_bit_is_a_checksum_mismatch() {
    let wire = button_frame().to_vec();
    for index in 2..=12 {
        for bit in 0..8 {
            let mut window = wire.clone();
            window[index] ^= 1 << bit;
            assert_eq!(EltakoFrame::from_vec(&window), Err(DecodeError::ChecksumMismatch));
        }
    }
}

#[test]
fn flipped_checksum_bit_is_a_checksum_mismatch() {
    let wire = scan_start().to_vec();
    for bit in 0..8 {
        let mut window = wire.clone();
        window[13] ^= 1 << bit;
        assert_eq!(EltakoFrame::from_vec(&window), Err(DecodeError::ChecksumMismatch));
    }
}

#[test]
fn flipped_preamble_bit_is_an_invalid_preamble() {
    let wire = button_frame().to_vec();
    for index in 0..2 {
        for bit in 0..8 {
            let mut window = wire.clone();
            window[index] ^= 1 << bit;
            assert_eq!(EltakoFrame::from_vec(&window), Err(DecodeError::InvalidPreamble));
        }
    }
}

#[test]
fn preamble_is_checked_before_the_checksum() {
    let mut window = button_frame().to_vec();
    window[1] = 0x00;
    window[13] = window[13].wrapping_add(1);
    assert_eq!(EltakoFrame::from_vec(&window), Err(DecodeError::InvalidPreamble));
}

#[test]
fn short_windows_are_rejected() {
    let wire = button_frame().to_vec();
    assert_eq!(EltakoFrame::from_vec(&[]), Err(DecodeError::TooShort));
    assert_eq!(EltakoFrame::from_vec(&wire[..1]), Err(DecodeError::TooShort));
    assert_eq!(EltakoFrame::from_vec(&wire[..13]), Err(DecodeError::TooShort));
}

#[test]
fn long_windows_count_by_their_first_fourteen_bytes() {
    let mut window = button_frame().to_vec();
    window.push(0x77);
    window.push(0x88);
    assert_eq!(EltakoFrame::from_vec(&window), Ok(button_frame()));
}

#[test]
fn checksum_of_a_frame() {
    assert_eq!(button_frame().crc_from_frame(), 0x0e);
    assert_eq!(EltakoFrame { length: 0, rorg: 0, data: 0, source: 0, status: 0 }.crc_from_frame(), 0);
    assert_eq!(scan_start().crc_from_frame(), 0xeb);
}

#[test]
fn checksum_wraps_at_256() {
    let frame =
        EltakoFrame { length: 0xff, rorg: 0xff, data: 0xffffffff, source: 0xffffffff, status: 0xff };
    assert_eq!(frame.crc_from_frame(), 0xf5);
    assert_eq!(*frame.to_vec().last().unwrap(), 0xf5);
}

#[test]
fn checksum_of_a_window() {
    let wire = button_frame().to_vec();
    assert_eq!(EltakoFrame::crc_from_vec(&wire), 0x0e);
    assert_eq!(EltakoFrame::crc_from_vec(&[1, 2, 3, 4, 5]), 7);
    assert_eq!(EltakoFrame::crc_from_vec(&[9, 9, 200, 100, 9]), 44);
}

#[test]
fn checksum_of_a_window_without_payload_is_zero() {
    assert_eq!(EltakoFrame::crc_from_vec(&[]), 0);
    assert_eq!(EltakoFrame::crc_from_vec(&[0xa5]), 0);
    assert_eq!(EltakoFrame::crc_from_vec(&[0xa5, 0x5a]), 0);
    assert_eq!(EltakoFrame::crc_from_vec(&[0xa5, 0x5a, 0x33]), 0);
    assert_eq!(EltakoFrame::crc_from_vec(&[0xa5, 0x5a, 0x33, 0x44]), 0x33);
}

#[test]
fn big_endian_words() {
    let bytes = [0x12u8, 0x34, 0x56, 0x78, 0x9a];
    assert_eq!(EltakoFrame::collect_to_u32(&bytes, 0), 0x12345678);
    assert_eq!(EltakoFrame::collect_to_u32(&bytes, 1), 0x3456789a);
    assert_eq!(EltakoFrame::collect_to_u16(&bytes, 0), 0x1234);
    assert_eq!(EltakoFrame::collect_to_u16(&bytes, 3), 0x789a);
    assert_eq!(EltakoFrame::collect_to_u32(&[0xff, 0xff, 0xff, 0xff], 0), 0xffffffff);
}

#[test]
fn scan_start_frame() {
    assert_eq!(
        scan_start(),
        EltakoFrame { length: 0x0d, rorg: 0xf0, data: 0x01028708, source: 0x04065200, status: 0x00 }
    );
}

#[test]
fn scan_probe_frame() {
    assert_eq!(
        scan_members(0x21),
        EltakoFrame { length: 0x0d, rorg: 0xf0, data: 0, source: 0, status: 0x21 }
    );
}

#[test]
fn status_poll_frame() {
    assert_eq!(
        status(0x02),
        EltakoFrame { length: 0x0d, rorg: 0xfe, data: 0, source: 0, status: 0x02 }
    );
}

#[test]
fn acknowledge_poll_frame() {
    assert_eq!(
        acknowledge(0x7f),
        EltakoFrame { length: 0x0d, rorg: 0xfc, data: 0, source: 0, status: 0x7f }
    );
}

#[test]
fn button_frames() {
    assert_eq!(button(0x04065200, true, Positions::TopRight), button_frame());
    assert_eq!(
        button(0x00001010, true, Positions::BotRight),
        EltakoFrame { length: 0x0d, rorg: 0x05, data: 0x50000000, source: 0x00001010, status: 0x30 }
    );
    assert_eq!(
        button(0x00001010, false, Positions::Nothing),
        EltakoFrame { length: 0x0d, rorg: 0x05, data: 0x00000000, source: 0x00001010, status: 0x20 }
    );
    assert_eq!(button(1, false, Positions::TopLeft).data, 0x30000000);
    assert_eq!(button(1, false, Positions::BotLeft).data, 0x10000000);
}

#[test]
fn position_codes() {
    assert_eq!(Positions::TopRight.code(), 0x70);
    assert_eq!(Positions::TopLeft.code(), 0x30);
    assert_eq!(Positions::BotLeft.code(), 0x10);
    assert_eq!(Positions::BotRight.code(), 0x50);
    assert_eq!(Positions::Nothing.code(), 0x00);
}

#[test]
fn explains_a_pressed_button() {
    assert_eq!(
        button_frame().explain(),
        "rorg:Button       -> 0x05 | source_addr:0x04065200 | status:On  -> 0x30 | data:Top Right -> 0x70000000"
    );
}

#[test]
fn explains_a_released_button() {
    let frame = button(0x00001010, false, Positions::BotLeft);
    assert_eq!(
        frame.explain(),
        "rorg:Button       -> 0x05 | source_addr:0x00001010 | status:Off -> 0x20 | data:Bot Left -> 0x10000000"
    );
}

#[test]
fn explains_every_button_position() {
    let cases = [
        (Positions::TopRight, "Top Right"),
        (Positions::TopLeft, "Top Left"),
        (Positions::BotLeft, "Bot Left"),
        (Positions::BotRight, "Bot Right"),
        (Positions::Nothing, ""),
    ];
    for (position, name) in cases {
        let frame = button(0xdeadbeef, true, position);
        assert_eq!(frame.explain(), reference_line("Button", "On", name, &frame));
    }
}

#[test]
fn explains_a_button_with_an_unknown_state() {
    let frame =
        EltakoFrame { length: 0x0d, rorg: 0x05, data: 0x71000000, source: 0, status: 0x31 };
    assert_eq!(
        frame.explain(),
        "rorg:Button       -> 0x05 | source_addr:0x00000000 | status:    -> 0x31 | data: -> 0x71000000"
    );
}

#[test]
fn explains_a_dimmer() {
    let frame =
        EltakoFrame { length: 0x0d, rorg: 0x07, data: 0x050c6402, source: 0x00000abc, status: 0x00 };
    assert_eq!(
        frame.explain(),
        "rorg:Dimmer       -> 0x07 | source_addr:0x00000abc | status:    -> 0x00 | data:On=1 Lock=4 Speed=12 Val=100 Dimming -> 0x050c6402"
    );
}

#[test]
fn explains_a_dimmer_at_rest() {
    let frame =
        EltakoFrame { length: 0x0d, rorg: 0x07, data: 0xfaff0900, source: 0xffffffff, status: 0x30 };
    assert_eq!(
        frame.explain(),
        "rorg:Dimmer       -> 0x07 | source_addr:0xffffffff | status:    -> 0x30 | data:On=0 Lock=0 Speed=255 Val=9  -> 0xfaff0900"
    );
}

#[test]
fn explains_dimmer_numbers_of_every_width() {
    for value in 0..=255u8 {
        let data = u32::from_be_bytes([value, value, value.wrapping_mul(7), value]);
        let frame = EltakoFrame { length: 0x0d, rorg: 0x07, data, source: 0, status: value };
        let bytes = data.to_be_bytes();
        let meaning = format!(
            "On={} Lock={} Speed={} Val={} {}",
            bytes[0] & 0x1,
            bytes[0] & 0x4,
            bytes[1],
            bytes[2],
            if bytes[3] == 0x02 { "Dimming" } else { "" }
        );
        assert_eq!(frame.explain(), reference_line("Dimmer", "", &meaning, &frame));
    }
}

#[test]
fn explains_the_polling_kinds() {
    assert_eq!(
        scan_start().explain(),
        "rorg:Scan         -> 0xf0 | source_addr:0x04065200 | status:    -> 0x00 | data: -> 0x01028708"
    );
    assert_eq!(
        status(0x02).explain(),
        "rorg:Status       -> 0xfe | source_addr:0x00000000 | status:    -> 0x02 | data: -> 0x00000000"
    );
    assert_eq!(
        acknowledge(0x7f).explain(),
        "rorg:Acknowledge  -> 0xfc | source_addr:0x00000000 | status:    -> 0x7f | data: -> 0x00000000"
    );
}

#[test]
fn explains_an_unknown_kind_without_a_name() {
    let frame =
        EltakoFrame { length: 0x0d, rorg: 0x42, data: 0x70000000, source: 0x12345678, status: 0x30 };
    assert_eq!(
        frame.explain(),
        "rorg:             -> 0x42 | source_addr:0x12345678 | status:    -> 0x30 | data: -> 0x70000000"
    );
}

#[test]
fn explains_every_kind_like_the_reference_line() {
    for rorg in 0..=255u8 {
        let frame = EltakoFrame { length: 0x0d, rorg, data: 0x9abcdef0, source: 0x0fedcba9, status: rorg };
        let kind = match rorg {
            0x05 => "Button",
            0x07 => "Dimmer",
            0xf0 => "Scan",
            0xfe => "Status",
            0xfc => "Acknowledge",
            _ => "",
        };
        if rorg != 0x05 && rorg != 0x07 {
            assert_eq!(frame.explain(), reference_line(kind, "", "", &frame));
        }
    }
}

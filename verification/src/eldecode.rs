//! The wire frame: fourteen bytes that open with a fixed preamble and close
//! with a checksum.
//!
//! | offset | bytes | field    |
//! |--------|-------|----------|
//! | 0      | 2     | preamble `a5 5a` |
//! | 2      | 1     | length   |
//! | 3      | 1     | rorg     |
//! | 4      | 4     | data, big-endian |
//! | 8      | 4     | source, big-endian |
//! | 12     | 1     | status   |
//! | 13     | 1     | checksum: the sum of bytes 2 to 12, modulo 256 |

use crate::text::{decimal, hex_byte, hex_word, padded};
use crate::text::{push_decimal, push_hex_byte, push_hex_word, push_padded};
use vstd::prelude::*;
use vstd::std_specs::cmp::PartialEqSpecImpl;
use vstd::string::*;

pub mod premaid;

verus! {

/// Number of bytes of a frame on the wire.
pub const FRAME_LEN: usize = 14;

/// First byte of the preamble.
pub const PREAMBLE_FIRST: u8 = 0xa5;

/// Second byte of the preamble.
pub const PREAMBLE_SECOND: u8 = 0x5a;

/// Why a window of bytes is not a frame.
#[derive(Clone, Copy, Debug, PartialEq, Eq, Structural)]
pub enum DecodeError {
    /// The window has fewer than fourteen bytes.
    TooShort,
    /// The window does not open with `a5 5a`.
    InvalidPreamble,
    /// The last byte of the window is not the sum of bytes 2 to 12.
    ChecksumMismatch,
}

/// One message of the bus.
#[derive(Clone, Copy, Debug, Eq)]
pub struct EltakoFrame {
    /// Payload length indicator.
    pub length: u8,
    /// Message kind.
    pub rorg: u8,
    /// Payload.
    pub data: u32,
    /// Address of the sender.
    pub source: u32,
    /// Flags or a device index, by kind.
    pub status: u8,
}

impl PartialEqSpecImpl for EltakoFrame {
    open spec fn obeys_eq_spec() -> bool {
        true
    }

    open spec fn eq_spec(&self, other: &Self) -> bool {
        *self == *other
    }
}

impl PartialEq for EltakoFrame {
    fn eq(&self, other: &Self) -> (same: bool) {
        self.length == other.length && self.rorg == other.rorg && self.data == other.data
            && self.source == other.source && self.status == other.status
    }
}

/// The sum of `bytes`, as an integer.
pub open spec fn sum(bytes: Seq<u8>) -> int
    decreases bytes.len(),
{
    if bytes.len() == 0 {
        0
    } else {
        sum(bytes.drop_last()) + bytes.last()
    }
}

/// The sum of `bytes` modulo 256.
pub open spec fn wrapping_sum(bytes: Seq<u8>) -> u8 {
    (sum(bytes) % 256) as u8
}

/// The number whose big-endian bytes are the first four of `bytes`.
pub open spec fn be_word(bytes: Seq<u8>) -> u32 {
    (bytes[0] * 0x100_0000 + bytes[1] * 0x1_0000 + bytes[2] * 0x100 + bytes[3]) as u32
}

/// The number whose big-endian bytes are the first two of `bytes`.
pub open spec fn be_half(bytes: Seq<u8>) -> u16 {
    (bytes[0] * 0x100 + bytes[1]) as u16
}

/// The four bytes of `word`, most significant first.
pub open spec fn be_bytes(word: u32) -> Seq<u8> {
    seq![
        (word / 0x100_0000) as u8,
        (word / 0x1_0000 % 0x100) as u8,
        (word / 0x100 % 0x100) as u8,
        (word % 0x100) as u8,
    ]
}

/// What the checksum of a window of any length covers: the bytes behind the
/// first two, short of the last.
pub open spec fn covered(window: Seq<u8>) -> Seq<u8> {
    if window.len() >= 3 {
        window.subrange(2, window.len() - 1)
    } else {
        Seq::empty()
    }
}

/// The kind of a button frame.
pub const RORG_BUTTON: u8 = 0x05;

/// The kind of a dimmer frame.
pub const RORG_DIMMER: u8 = 0x07;

/// The kind of the frames of an address scan.
pub const RORG_SCAN: u8 = 0xf0;

/// The kind of a status poll.
pub const RORG_STATUS: u8 = 0xfe;

/// The kind of an acknowledge poll.
pub const RORG_ACKNOWLEDGE: u8 = 0xfc;

/// The name of a message kind. An unknown kind has the empty name.
pub open spec fn kind_label(rorg: u8) -> Seq<char> {
    if rorg == RORG_BUTTON {
        "Button"@
    } else if rorg == RORG_DIMMER {
        "Dimmer"@
    } else if rorg == RORG_SCAN {
        "Scan"@
    } else if rorg == RORG_STATUS {
        "Status"@
    } else if rorg == RORG_ACKNOWLEDGE {
        "Acknowledge"@
    } else {
        Seq::empty()
    }
}

/// The name of the button position that the first data byte of a button frame
/// stands for.
pub open spec fn position_label(code: u8) -> Seq<char> {
    if code == 0x70 {
        "Top Right"@
    } else if code == 0x30 {
        "Top Left"@
    } else if code == 0x10 {
        "Bot Left"@
    } else if code == 0x50 {
        "Bot Right"@
    } else {
        Seq::empty()
    }
}

/// Whether the status byte of a button frame says pressed or released.
pub open spec fn press_label(status: u8) -> Seq<char> {
    if status == 0x30 {
        "On"@
    } else if status == 0x20 {
        "Off"@
    } else {
        Seq::empty()
    }
}

/// What the four data bytes of a dimmer frame say: the on flag, the lock flag,
/// the speed, the level, and whether the dimmer is moving.
pub open spec fn dimmer_text(data: Seq<u8>) -> Seq<char> {
    "On="@ + decimal(data[0] & 0x1) + " Lock="@ + decimal(data[0] & 0x4) + " Speed="@ + decimal(
        data[1],
    ) + " Val="@ + decimal(data[2]) + " "@ + if data[3] == 0x02 {
        "Dimming"@
    } else {
        Seq::empty()
    }
}

impl EltakoFrame {
    /// The eleven bytes between preamble and checksum.
    pub open spec fn payload(self) -> Seq<u8> {
        seq![self.length, self.rorg] + be_bytes(self.data) + be_bytes(self.source)
            + seq![self.status]
    }

    /// The checksum that closes the frame on the wire.
    pub open spec fn checksum(self) -> u8 {
        wrapping_sum(self.payload())
    }

    /// The fourteen bytes of the frame on the wire.
    pub open spec fn wire(self) -> Seq<u8> {
        seq![PREAMBLE_FIRST, PREAMBLE_SECOND] + self.payload() + seq![self.checksum()]
    }

    /// What a window of bytes decodes to. A window of more than fourteen bytes
    /// counts by its first fourteen.
    pub open spec fn parse(window: Seq<u8>) -> Result<EltakoFrame, DecodeError> {
        if window.len() < FRAME_LEN {
            Err(DecodeError::TooShort)
        } else if window[0] != PREAMBLE_FIRST || window[1] != PREAMBLE_SECOND {
            Err(DecodeError::InvalidPreamble)
        } else if window[13] != wrapping_sum(window.subrange(2, 13)) {
            Err(DecodeError::ChecksumMismatch)
        } else {
            Ok(
                EltakoFrame {
                    length: window[2],
                    rorg: window[3],
                    data: be_word(window.subrange(4, 8)),
                    source: be_word(window.subrange(8, 12)),
                    status: window[12],
                },
            )
        }
    }

    /// What the status byte means, for the kinds that give it a meaning.
    pub open spec fn status_text(self) -> Seq<char> {
        if self.rorg == RORG_BUTTON {
            press_label(self.status)
        } else {
            Seq::empty()
        }
    }

    /// What the data bytes mean, for the kinds that give them a meaning.
    pub open spec fn data_text(self) -> Seq<char> {
        if self.rorg == RORG_BUTTON {
            position_label(be_bytes(self.data)[0])
        } else if self.rorg == RORG_DIMMER {
            dimmer_text(be_bytes(self.data))
        } else {
            Seq::empty()
        }
    }

    /// The line that describes the frame: each field in hexadecimal, with the
    /// name of the kind and the meaning of status and data beside it.
    pub open spec fn text(self) -> Seq<char> {
        "rorg:"@ + padded(kind_label(self.rorg), 12) + " -> 0x"@ + hex_byte(self.rorg)
            + " | source_addr:0x"@ + hex_word(self.source)
            + " | status:"@ + padded(self.status_text(), 3) + " -> 0x"@ + hex_byte(self.status)
            + " | data:"@ + self.data_text() + " -> 0x"@ + hex_word(self.data)
    }

    /// Reads four bytes of `data`, from index `at` on, as a big-endian number.
    pub fn collect_to_u32(data: &[u8], at: usize) -> (word: u32)
        requires
            at + 4 <= data@.len(),
        ensures
            word == be_word(data@.subrange(at as int, at + 4)),
    {
        let b0: u32 = data[at] as u32;
        let b1: u32 = data[at + 1] as u32;
        let b2: u32 = data[at + 2] as u32;
        let b3: u32 = data[at + 3] as u32;
        assert(b0 << 24 | b1 << 16 | b2 << 8 | b3 == b0 * 0x100_0000 + b1 * 0x1_0000 + b2 * 0x100
            + b3) by (bit_vector)
            requires
                b0 < 0x100,
                b1 < 0x100,
                b2 < 0x100,
                b3 < 0x100,
        ;
        b0 << 24 | b1 << 16 | b2 << 8 | b3
    }

    /// Reads two bytes of `data`, from index `at` on, as a big-endian number.
    pub fn collect_to_u16(data: &[u8], at: usize) -> (half: u16)
        requires
            at + 2 <= data@.len(),
        ensures
            half == be_half(data@.subrange(at as int, at + 2)),
    {
        let b0: u16 = data[at] as u16;
        let b1: u16 = data[at + 1] as u16;
        assert(b0 << 8 | b1 == b0 * 0x100 + b1) by (bit_vector)
            requires
                b0 < 0x100,
                b1 < 0x100,
        ;
        b0 << 8 | b1
    }

    /// The checksum of a window of bytes: the sum, modulo 256, of the bytes
    /// behind the first two, short of the last.
    pub fn crc_from_vec(frame: &[u8]) -> (crc: u8)
        ensures
            crc == wrapping_sum(covered(frame@)),
    {
        if frame.len() < 3 {
            assert(sum(Seq::<u8>::empty()) == 0);
            return 0;
        }
        sum_between(frame, 2, frame.len() - 1)
    }

    /// The checksum of the frame: the sum, modulo 256, of its payload bytes.
    pub fn crc_from_frame(self) -> (crc: u8)
        ensures
            crc == self.checksum(),
    {
        let payload = self.payload_bytes();
        let crc = sum_between(payload.as_slice(), 0, payload.len());
        assert(payload@.subrange(0, payload@.len() as int) =~= payload@);
        crc
    }

    /// Decodes a window of bytes. The preamble is checked first, then the
    /// checksum.
    pub fn from_vec(frame: &[u8]) -> (result: Result<Self, DecodeError>)
        ensures
            result == Self::parse(frame@),
    {
        if frame.len() < FRAME_LEN {
            return Err(DecodeError::TooShort);
        }
        if frame[0] != PREAMBLE_FIRST || frame[1] != PREAMBLE_SECOND {
            return Err(DecodeError::InvalidPreamble);
        }
        if frame[13] != sum_between(frame, 2, 13) {
            return Err(DecodeError::ChecksumMismatch);
        }
        Ok(
            EltakoFrame {
                length: frame[2],
                rorg: frame[3],
                data: EltakoFrame::collect_to_u32(frame, 4),
                source: EltakoFrame::collect_to_u32(frame, 8),
                status: frame[12],
            },
        )
    }

    /// Encodes the frame: preamble, payload, checksum. The result decodes to
    /// the frame again.
    pub fn to_vec(self) -> (frame: Vec<u8>)
        ensures
            frame@ == self.wire(),
            frame@.len() == FRAME_LEN,
            Self::parse(frame@) == Ok::<EltakoFrame, DecodeError>(self),
    {
        proof {
            lemma_roundtrip(self);
        }
        let mut frame: Vec<u8> = Vec::new();
        frame.push(PREAMBLE_FIRST);
        frame.push(PREAMBLE_SECOND);
        let mut payload = self.payload_bytes();
        frame.append(&mut payload);
        frame.push(EltakoFrame::crc_from_frame(self));
        assert(frame@ =~= self.wire());
        frame
    }

    /// Describes the frame in one line, for a log.
    pub fn explain(&self) -> (text: String)
        ensures
            text@ == self.text(),
    {
        proof {
            reveal_strlit("");
        }
        let mut msg_rorg: &str = "";
        let mut msg_data: String = String::new();
        let mut msg_status: &str = "";
        let mut data: Vec<u8> = Vec::new();
        push_be_bytes(&mut data, self.data);
        assert(data@ =~= be_bytes(self.data));

        if self.rorg == RORG_BUTTON {
            msg_rorg = "Button";
            msg_data.append(position_name(data[0]));
            msg_status = press_name(self.status);
        } else if self.rorg == RORG_DIMMER {
            msg_rorg = "Dimmer";
            msg_data.append("On=");
            push_decimal(&mut msg_data, data[0] & 0x1);
            msg_data.append(" Lock=");
            push_decimal(&mut msg_data, data[0] & 0x4);
            msg_data.append(" Speed=");
            push_decimal(&mut msg_data, data[1]);
            msg_data.append(" Val=");
            push_decimal(&mut msg_data, data[2]);
            msg_data.append(" ");
            msg_data.append(
                if data[3] == 0x02 {
                    "Dimming"
                } else {
                    ""
                },
            );
            assert(msg_data@ =~= dimmer_text(data@));
        } else if self.rorg == RORG_SCAN {
            msg_rorg = "Scan";
        } else if self.rorg == RORG_STATUS {
            msg_rorg = "Status";
        } else if self.rorg == RORG_ACKNOWLEDGE {
            msg_rorg = "Acknowledge";
        }
        assert(msg_data@ =~= self.data_text());

        let mut text: String = String::new();
        text.append("rorg:");
        push_padded(&mut text, msg_rorg, 12);
        text.append(" -> 0x");
        push_hex_byte(&mut text, self.rorg);
        text.append(" | source_addr:0x");
        push_hex_word(&mut text, self.source);
        text.append(" | status:");
        push_padded(&mut text, msg_status, 3);
        text.append(" -> 0x");
        push_hex_byte(&mut text, self.status);
        text.append(" | data:");
        text.append(msg_data.as_str());
        text.append(" -> 0x");
        push_hex_word(&mut text, self.data);
        assert(text@ =~= self.text());
        text
    }

    /// The payload bytes, in wire order.
    fn payload_bytes(self) -> (bytes: Vec<u8>)
        ensures
            bytes@ == self.payload(),
    {
        let mut bytes: Vec<u8> = Vec::new();
        bytes.push(self.length);
        bytes.push(self.rorg);
        push_be_bytes(&mut bytes, self.data);
        push_be_bytes(&mut bytes, self.source);
        bytes.push(self.status);
        assert(bytes@ =~= self.payload());
        bytes
    }
}

/// The name of the button position that `code` stands for.
fn position_name(code: u8) -> (name: &'static str)
    ensures
        name@ == position_label(code),
{
    proof {
        reveal_strlit("");
    }
    if code == 0x70 {
        "Top Right"
    } else if code == 0x30 {
        "Top Left"
    } else if code == 0x10 {
        "Bot Left"
    } else if code == 0x50 {
        "Bot Right"
    } else {
        ""
    }
}

/// The name of the button state that `status` stands for.
fn press_name(status: u8) -> (name: &'static str)
    ensures
        name@ == press_label(status),
{
    proof {
        reveal_strlit("");
    }
    if status == 0x30 {
        "On"
    } else if status == 0x20 {
        "Off"
    } else {
        ""
    }
}

/// Appends the four bytes of `word`, most significant first.
pub(crate) fn push_be_bytes(bytes: &mut Vec<u8>, word: u32)
    ensures
        final(bytes)@ == old(bytes)@ + be_bytes(word),
{
    assert((word >> 24) == word / 0x100_0000 && (word >> 24) < 0x100) by (bit_vector);
    assert((word >> 16) & 0xff == word / 0x1_0000 % 0x100) by (bit_vector);
    assert((word >> 8) & 0xff == word / 0x100 % 0x100) by (bit_vector);
    assert(word & 0xff == word % 0x100) by (bit_vector);
    bytes.push((word >> 24) as u8);
    bytes.push(((word >> 16) & 0xff) as u8);
    bytes.push(((word >> 8) & 0xff) as u8);
    bytes.push((word & 0xff) as u8);
    assert(bytes@ =~= old(bytes)@ + be_bytes(word));
}

/// The sum, modulo 256, of the bytes of `bytes` from index `from` up to, not
/// including, index `to`.
fn sum_between(bytes: &[u8], from: usize, to: usize) -> (total: u8)
    requires
        from <= to <= bytes@.len(),
    ensures
        total == wrapping_sum(bytes@.subrange(from as int, to as int)),
{
    let mut crc: u8 = 0;
    let mut i: usize = from;
    assert(bytes@.subrange(from as int, from as int) =~= Seq::<u8>::empty());
    while i < to
        invariant
            from <= i <= to <= bytes@.len(),
            crc == wrapping_sum(bytes@.subrange(from as int, i as int)),
        decreases to - i,
    {
        assert(bytes@.subrange(from as int, i + 1).drop_last() =~= bytes@.subrange(
            from as int,
            i as int,
        ));
        crc = crc.wrapping_add(bytes[i]);
        i += 1;
    }
    crc
}

/// Replacing one byte of a sequence moves its sum by the difference of the two
/// bytes.
pub proof fn lemma_sum_update(bytes: Seq<u8>, index: int, value: u8)
    requires
        0 <= index < bytes.len(),
    ensures
        sum(bytes.update(index, value)) == sum(bytes) - bytes[index] + value,
    decreases bytes.len(),
{
    let changed = bytes.update(index, value);
    if index == bytes.len() - 1 {
        assert(changed.drop_last() =~= bytes.drop_last());
    } else {
        assert(changed.drop_last() =~= bytes.drop_last().update(index, value));
        lemma_sum_update(bytes.drop_last(), index, value);
    }
}

/// A number written out as four big-endian bytes and read again is the same
/// number.
pub proof fn lemma_be_word_of_bytes(word: u32)
    ensures
        be_bytes(word).len() == 4,
        be_word(be_bytes(word)) == word,
{
    assert(word / 0x100_0000 < 0x100 && word / 0x100_0000 * 0x100_0000 + word / 0x1_0000 % 0x100
        * 0x1_0000 + word / 0x100 % 0x100 * 0x100 + word % 0x100 == word) by (bit_vector);
}

/// Four bytes read as a big-endian number and written out again are the same
/// four bytes.
pub proof fn lemma_be_bytes_of_word(bytes: Seq<u8>)
    requires
        bytes.len() == 4,
    ensures
        be_bytes(be_word(bytes)) == bytes,
{
    let b0: u32 = bytes[0] as u32;
    let b1: u32 = bytes[1] as u32;
    let b2: u32 = bytes[2] as u32;
    let b3: u32 = bytes[3] as u32;
    let word: u32 = be_word(bytes);
    assert(b0 * 0x100_0000 + b1 * 0x1_0000 + b2 * 0x100 + b3 < 0x1_0000_0000);
    assert(word == b0 * 0x100_0000 + b1 * 0x1_0000 + b2 * 0x100 + b3);
    assert(word / 0x100_0000 == b0 && word / 0x1_0000 % 0x100 == b1 && word / 0x100 % 0x100 == b2
        && word % 0x100 == b3) by (bit_vector)
        requires
            b0 < 0x100,
            b1 < 0x100,
            b2 < 0x100,
            b3 < 0x100,
            word == b0 * 0x100_0000 + b1 * 0x1_0000 + b2 * 0x100 + b3,
    ;
    assert(be_bytes(word) =~= bytes);
}

/// Where the fields of a frame stand in its payload and in its encoding.
pub proof fn lemma_wire_layout(frame: EltakoFrame)
    ensures
        frame.payload().len() == 11,
        frame.payload()[0] == frame.length,
        frame.payload()[1] == frame.rorg,
        frame.payload().subrange(2, 6) == be_bytes(frame.data),
        frame.payload().subrange(6, 10) == be_bytes(frame.source),
        frame.payload()[10] == frame.status,
        frame.wire().len() == FRAME_LEN,
        frame.wire()[0] == PREAMBLE_FIRST,
        frame.wire()[1] == PREAMBLE_SECOND,
        frame.wire().subrange(2, 13) == frame.payload(),
        frame.wire()[13] == frame.checksum(),
{
    let payload = frame.payload();
    assert(be_bytes(frame.data).len() == 4);
    assert(be_bytes(frame.source).len() == 4);
    assert(payload.len() == 11);
    assert(payload.subrange(2, 6) =~= be_bytes(frame.data));
    assert(payload.subrange(6, 10) =~= be_bytes(frame.source));
    assert(frame.wire().subrange(2, 13) =~= payload);
}

/// The round trip: every frame decodes from its own encoding.
pub proof fn lemma_roundtrip(frame: EltakoFrame)
    ensures
        frame.wire().len() == FRAME_LEN,
        EltakoFrame::parse(frame.wire()) == Ok::<EltakoFrame, DecodeError>(frame),
{
    let wire = frame.wire();
    let payload = frame.payload();
    lemma_wire_layout(frame);
    lemma_be_word_of_bytes(frame.data);
    lemma_be_word_of_bytes(frame.source);
    assert(wire[2] == payload[0] && wire[3] == payload[1] && wire[12] == payload[10]) by {
        assert(wire.subrange(2, 13)[0] == wire[2]);
        assert(wire.subrange(2, 13)[1] == wire[3]);
        assert(wire.subrange(2, 13)[10] == wire[12]);
    }
    assert(wire.subrange(4, 8) =~= wire.subrange(2, 13).subrange(2, 6));
    assert(wire.subrange(8, 12) =~= wire.subrange(2, 13).subrange(6, 10));
}

/// A window that decodes is, in its first fourteen bytes, the encoding of the
/// frame it decodes to.
pub proof fn lemma_parse_wire(window: Seq<u8>)
    requires
        EltakoFrame::parse(window) is Ok,
    ensures
        EltakoFrame::parse(window)->Ok_0.wire() == window.take(FRAME_LEN as int),
{
    let frame = EltakoFrame::parse(window)->Ok_0;
    lemma_wire_layout(frame);
    lemma_be_bytes_of_word(window.subrange(4, 8));
    lemma_be_bytes_of_word(window.subrange(8, 12));
    let payload = frame.payload();
    assert(payload =~= window.subrange(2, 13)) by {
        assert forall|i: int| 0 <= i < 11 implies payload[i] == window[i + 2] by {
            if 2 <= i < 6 {
                assert(payload.subrange(2, 6)[i - 2] == payload[i]);
                assert(window.subrange(4, 8)[i - 2] == window[i + 2]);
            } else if 6 <= i < 10 {
                assert(payload.subrange(6, 10)[i - 6] == payload[i]);
                assert(window.subrange(8, 12)[i - 6] == window[i + 2]);
            }
        }
    }
    assert(frame.wire() =~= window.take(FRAME_LEN as int));
}

/// A sum in which one byte has been replaced by another differs from the sum
/// before, modulo 256.
pub proof fn lemma_sum_moves(total: int, was: u8, now: u8)
    requires
        was != now,
    ensures
        (total - was + now) % 256 != total % 256,
{
    let shift: int = now - was;
    assert(-256 < shift < 256 && shift != 0);
    if (total + shift) % 256 == total % 256 {
        assert((total + shift) / 256 * 256 + (total + shift) % 256 == total + shift);
        assert(total / 256 * 256 + total % 256 == total);
        assert(((total + shift) / 256 - total / 256) * 256 == shift);
    }
}

/// An encoded frame in which one byte has been replaced by another value does
/// not decode. A changed preamble byte is reported as such, a changed byte
/// behind it as a checksum mismatch.
pub proof fn lemma_corrupted_byte(frame: EltakoFrame, index: int, value: u8)
    requires
        0 <= index < FRAME_LEN,
        value != frame.wire()[index],
    ensures
        EltakoFrame::parse(frame.wire().update(index, value)) == Err::<EltakoFrame, DecodeError>(
            if index < 2 {
                DecodeError::InvalidPreamble
            } else {
                DecodeError::ChecksumMismatch
            },
        ),
{
    let wire = frame.wire();
    let payload = frame.payload();
    let changed = wire.update(index, value);
    lemma_wire_layout(frame);
    assert(changed.len() == FRAME_LEN);
    if index < 2 {
        assert(changed[index] == value);
    } else if index <= 12 {
        assert(changed[0] == wire[0] && changed[1] == wire[1] && changed[13] == wire[13]);
        assert(wire.subrange(2, 13)[index - 2] == wire[index]);
        assert(changed.subrange(2, 13) =~= payload.update(index - 2, value));
        lemma_sum_update(payload, index - 2, value);
        lemma_sum_moves(sum(payload), payload[index - 2], value);
    } else {
        assert(changed[0] == wire[0] && changed[1] == wire[1] && changed[13] == value);
        assert(changed.subrange(2, 13) =~= payload);
    }
}

/// The byte that differs from `byte` in bit number `bit` alone.
pub open spec fn flip_bit(byte: u8, bit: u8) -> u8 {
    byte ^ (1u8 << bit)
}

/// Checksum sensitivity: an encoded frame with one bit flipped in its payload
/// fails to decode with a checksum mismatch, and with one bit flipped in its
/// preamble with an invalid preamble.
pub proof fn lemma_flipped_bit(frame: EltakoFrame, index: int, bit: u8)
    requires
        0 <= index <= 12,
        bit < 8,
    ensures
        EltakoFrame::parse(frame.wire().update(index, flip_bit(frame.wire()[index], bit))) == Err::<
            EltakoFrame,
            DecodeError,
        >(
            if index < 2 {
                DecodeError::InvalidPreamble
            } else {
                DecodeError::ChecksumMismatch
            },
        ),
{
    let byte = frame.wire()[index];
    assert(byte ^ (1u8 << bit) != byte) by (bit_vector)
        requires
            bit < 8,
    ;
    lemma_corrupted_byte(frame, index, flip_bit(byte, bit));
}

} // verus!

//! The frames that a bus master sends.

use crate::eldecode::{be_bytes, kind_label, position_label, EltakoFrame};
use vstd::prelude::*;

verus! {

/// Where on a wall switch a button sits.
#[derive(Clone, Copy, Debug, PartialEq, Eq, Structural)]
pub enum Positions {
    TopRight,
    TopLeft,
    BotLeft,
    BotRight,
    Nothing,
}

impl Positions {
    /// The byte that stands for the position in a button frame.
    pub open spec fn spec_code(self) -> u8 {
        match self {
            Positions::TopRight => 0x70,
            Positions::TopLeft => 0x30,
            Positions::BotLeft => 0x10,
            Positions::BotRight => 0x50,
            Positions::Nothing => 0x00,
        }
    }

    /// The byte that stands for the position in a button frame.
    #[verifier::when_used_as_spec(spec_code)]
    pub fn code(self) -> (code: u8)
        ensures
            code == self.spec_code(),
    {
        match self {
            Positions::TopRight => 0x70,
            Positions::TopLeft => 0x30,
            Positions::BotLeft => 0x10,
            Positions::BotRight => 0x50,
            Positions::Nothing => 0x00,
        }
    }
}

/// The frame that opens an address scan.
pub open spec fn spec_scan_start() -> EltakoFrame {
    EltakoFrame { length: 0xd, rorg: 0xf0, data: 0x01028708, source: 0x04065200, status: 0x00 }
}

/// The frame that asks whether a device answers at address `index`.
pub open spec fn spec_scan_members(index: u8) -> EltakoFrame {
    EltakoFrame { length: 0xd, rorg: 0xf0, data: 0x00000000, source: 0x00000000, status: index }
}

/// The frame that asks the device at address `index` for its status.
pub open spec fn spec_status(index: u8) -> EltakoFrame {
    EltakoFrame { length: 0xd, rorg: 0xfe, data: 0x00000000, source: 0x00000000, status: index }
}

/// The frame that asks the device at address `index` to acknowledge.
pub open spec fn spec_acknowledge(index: u8) -> EltakoFrame {
    EltakoFrame { length: 0xd, rorg: 0xfc, data: 0x00000000, source: 0x00000000, status: index }
}

/// The frame of a button at `position`, pressed or released, sent in the name
/// of `source_address`.
pub open spec fn spec_button(source_address: u32, status: bool, position: Positions) -> EltakoFrame {
    EltakoFrame {
        length: 0xd,
        rorg: 0x05,
        data: (position.spec_code() * 0x100_0000) as u32,
        source: source_address,
        status: if status {
            0x30
        } else {
            0x20
        },
    }
}

/// The frame that opens an address scan.
#[verifier::when_used_as_spec(spec_scan_start)]
pub fn scan_start() -> (frame: EltakoFrame)
    ensures
        frame == spec_scan_start(),
{
    EltakoFrame { length: 0xd, rorg: 0xf0, data: 0x01028708, source: 0x04065200, status: 0x00 }
}

/// The frame that asks whether a device answers at address `index`.
#[verifier::when_used_as_spec(spec_scan_members)]
pub fn scan_members(index: u8) -> (frame: EltakoFrame)
    ensures
        frame == spec_scan_members(index),
{
    EltakoFrame { length: 0xd, rorg: 0xf0, data: 0x00000000, source: 0x00000000, status: index }
}

/// The frame that asks the device at address `index` for its status.
#[verifier::when_used_as_spec(spec_status)]
pub fn status(index: u8) -> (frame: EltakoFrame)
    ensures
        frame == spec_status(index),
{
    EltakoFrame { length: 0xd, rorg: 0xfe, data: 0x00000000, source: 0x00000000, status: index }
}

/// The frame that asks the device at address `index` to acknowledge.
#[verifier::when_used_as_spec(spec_acknowledge)]
pub fn acknowledge(index: u8) -> (frame: EltakoFrame)
    ensures
        frame == spec_acknowledge(index),
{
    EltakoFrame { length: 0xd, rorg: 0xfc, data: 0x00000000, source: 0x00000000, status: index }
}

/// The frame of a button at `position`, pressed or released, sent in the name
/// of `source_address`.
#[verifier::when_used_as_spec(spec_button)]
pub fn button(source_address: u32, status: bool, position: Positions) -> (frame: EltakoFrame)
    ensures
        frame == spec_button(source_address, status, position),
{
    let code: u32 = position.code() as u32;
    assert(0x00000000u32 | code << 24 == code * 0x100_0000) by (bit_vector)
        requires
            code < 0x100,
    ;
    EltakoFrame {
        length: 0xd,
        rorg: 0x05,
        data: 0x00000000 | code << 24,
        source: source_address,
        status: if status {
            0x30
        } else {
            0x20
        },
    }
}

/// A button frame describes itself as a button, at the position and in the
/// state that it was made with.
pub proof fn lemma_button_text(source_address: u32, status: bool, position: Positions)
    ensures
        kind_label(spec_button(source_address, status, position).rorg) == "Button"@,
        spec_button(source_address, status, position).data_text() == position_label(
            position.spec_code(),
        ),
        spec_button(source_address, status, position).status_text() == if status {
            "On"@
        } else {
            "Off"@
        },
{
    let code = position.spec_code();
    let data = spec_button(source_address, status, position).data;
    assert(data == code * 0x100_0000);
    assert(be_bytes(data)[0] == code);
}

} // verus!

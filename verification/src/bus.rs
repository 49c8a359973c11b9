//! The decisions of the bus master: which frames a tick puts on the wire, and
//! what becomes of the bus when the port has taken some or all of them.
//!
//! The bus itself never touches the port. It names the frames of a tick, in
//! order; whoever owns the port writes them until one fails, and reports back
//! how many were written.

use crate::device::Device;
use crate::eldecode::premaid::{acknowledge, scan_members, scan_start, status};
use crate::eldecode::premaid::{spec_acknowledge, spec_scan_members, spec_scan_start, spec_status};
use crate::eldecode::EltakoFrame;
use vstd::prelude::*;

verus! {

/// The highest address that a scan probes. The lowest is 1.
pub const LAST_ADDRESS: u8 = 127;

/// How a master polls the devices it knows.
#[derive(Clone, Copy, Debug, PartialEq, Eq, Structural)]
pub enum Master {
    /// Ask each device to acknowledge.
    Ack,
    /// Ask each device for its status.
    AckStatus,
}

/// What the bus does on each tick.
#[derive(Clone, Copy, Debug, PartialEq, Eq, Structural)]
pub enum Mode {
    /// Scan the addresses again, for a device that wants one.
    Address,
    /// Poll the known devices.
    Master(Master),
    /// Listen only.
    Slave,
}

/// The error of a write that the port did not complete.
#[derive(Clone, Copy, Debug, PartialEq, Eq)]
pub struct WriteError {
    /// The frame that was not written.
    pub frame: EltakoFrame,
}

/// The frames of an address scan: the frame that opens it, then a probe for
/// each address from 1 to 127.
pub open spec fn scan_frames() -> Seq<EltakoFrame> {
    seq![spec_scan_start()] + Seq::new(
        LAST_ADDRESS as nat,
        |i: int| spec_scan_members((i + 1) as u8),
    )
}

/// The frames that a tick sends in `mode` to the devices of `devices`, the
/// first scan left aside.
pub open spec fn poll_frames(mode: Mode, devices: Seq<Device>) -> Seq<EltakoFrame> {
    match mode {
        Mode::Address => scan_frames(),
        Mode::Master(Master::Ack) => Seq::new(
            devices.len(),
            |i: int| spec_acknowledge(devices[i].id),
        ),
        Mode::Master(Master::AckStatus) => Seq::new(
            devices.len(),
            |i: int| spec_status(devices[i].id),
        ),
        Mode::Slave => Seq::empty(),
    }
}

/// What a run of writes comes to: success where every frame of `frames` was
/// written, else the error of the first frame that was not.
pub open spec fn written_all(frames: Seq<EltakoFrame>, written: int) -> Result<(), WriteError> {
    if written >= frames.len() {
        Ok(())
    } else {
        Err(WriteError { frame: frames[written] })
    }
}

/// Turns the number of frames that the port took, in order and up to the first
/// failure, into the result of the run.
pub fn outcome(frames: &Vec<EltakoFrame>, written: usize) -> (result: Result<(), WriteError>)
    ensures
        result == written_all(frames@, written as int),
{
    if written >= frames.len() {
        Ok(())
    } else {
        Err(WriteError { frame: frames[written] })
    }
}

/// A bus: its mode, the devices known on it, and whether the first scan has
/// been made.
pub struct Bus {
    init: bool,
    op_mode: Mode,
    device_list: Vec<Device>,
}

impl Bus {
    /// Whether the first scan has gone through.
    pub closed spec fn initialized(&self) -> bool {
        self.init
    }

    /// The mode that the bus was made with.
    pub closed spec fn mode(&self) -> Mode {
        self.op_mode
    }

    /// The devices known on the bus, in the order in which they were added.
    pub closed spec fn devices(&self) -> Seq<Device> {
        self.device_list@
    }

    /// The frames of the next tick, in the order in which they are written:
    /// those of the first scan, unless it has been made, then those of the
    /// mode.
    pub open spec fn tick_frames(&self) -> Seq<EltakoFrame> {
        if self.initialized() {
            poll_frames(self.mode(), self.devices())
        } else {
            scan_frames() + poll_frames(self.mode(), self.devices())
        }
    }

    /// A bus in mode `op_mode` that knows no device and has not scanned yet.
    pub fn new(op_mode: Mode) -> (bus: Self)
        ensures
            !bus.initialized(),
            bus.mode() == op_mode,
            bus.devices() == Seq::<Device>::empty(),
    {
        Bus { init: false, op_mode, device_list: Vec::new() }
    }

    /// Adds a device behind those that the bus knows.
    pub fn add_device(&mut self, device: Device)
        ensures
            final(self).devices() == old(self).devices().push(device),
            final(self).initialized() == old(self).initialized(),
            final(self).mode() == old(self).mode(),
    {
        self.device_list.push(device);
    }

    /// The devices known on the bus.
    pub fn device_list(&self) -> (devices: &Vec<Device>)
        ensures
            devices@ == self.devices(),
    {
        &self.device_list
    }

    /// The frames of an address scan, in the order in which they are written.
    pub fn address_enumeration(&self) -> (frames: Vec<EltakoFrame>)
        ensures
            frames@ == scan_frames(),
    {
        let mut frames: Vec<EltakoFrame> = Vec::new();
        push_scan(&mut frames);
        assert(frames@ =~= scan_frames());
        frames
    }

    /// The frames of the next tick, in the order in which they are written.
    /// The bus stays as it is until it is told how the writes went.
    pub fn routine(&self) -> (frames: Vec<EltakoFrame>)
        ensures
            frames@ == self.tick_frames(),
    {
        let mut frames: Vec<EltakoFrame> = Vec::new();
        if !self.init {
            push_scan(&mut frames);
        }
        let ghost first = frames@;
        match self.op_mode {
            Mode::Address => {
                push_scan(&mut frames);
            },
            Mode::Master(Master::Ack) => {
                let mut i: usize = 0;
                while i < self.device_list.len()
                    invariant
                        i <= self.device_list@.len(),
                        frames@ == first + Seq::new(
                            i as nat,
                            |j: int| spec_acknowledge(self.device_list@[j].id),
                        ),
                    decreases self.device_list@.len() - i,
                {
                    frames.push(acknowledge(self.device_list[i].id));
                    i += 1;
                    assert(frames@ =~= first + Seq::new(
                        i as nat,
                        |j: int| spec_acknowledge(self.device_list@[j].id),
                    ));
                }
            },
            Mode::Master(Master::AckStatus) => {
                let mut i: usize = 0;
                while i < self.device_list.len()
                    invariant
                        i <= self.device_list@.len(),
                        frames@ == first + Seq::new(
                            i as nat,
                            |j: int| spec_status(self.device_list@[j].id),
                        ),
                    decreases self.device_list@.len() - i,
                {
                    frames.push(status(self.device_list[i].id));
                    i += 1;
                    assert(frames@ =~= first + Seq::new(
                        i as nat,
                        |j: int| spec_status(self.device_list@[j].id),
                    ));
                }
            },
            Mode::Slave => {},
        }
        assert(frames@ =~= self.tick_frames());
        frames
    }

    /// Closes a tick. `written` is the number of frames of the tick that the
    /// port took, in order, up to the first failure. The first scan counts as
    /// made once all its frames were written. The result is that of the tick:
    /// the error of the first frame that was not written, if there is one.
    pub fn conclude(&mut self, written: usize) -> (result: Result<(), WriteError>)
        ensures
            result == written_all(old(self).tick_frames(), written as int),
            final(self).initialized() == (old(self).initialized() || written >= scan_frames().len()),
            final(self).mode() == old(self).mode(),
            final(self).devices() == old(self).devices(),
    {
        let frames = self.routine();
        if !self.init && written >= LAST_ADDRESS as usize + 1 {
            self.init = true;
        }
        outcome(&frames, written)
    }
}

/// Appends the frames of an address scan.
fn push_scan(frames: &mut Vec<EltakoFrame>)
    ensures
        final(frames)@ == old(frames)@ + scan_frames(),
{
    frames.push(scan_start());
    let mut index: u8 = 1;
    while index <= LAST_ADDRESS
        invariant
            1 <= index <= LAST_ADDRESS + 1,
            frames@ == old(frames)@ + seq![spec_scan_start()] + Seq::new(
                (index - 1) as nat,
                |i: int| spec_scan_members((i + 1) as u8),
            ),
        decreases LAST_ADDRESS + 1 - index,
    {
        frames.push(scan_members(index));
        index += 1;
        assert(frames@ =~= old(frames)@ + seq![spec_scan_start()] + Seq::new(
            (index - 1) as nat,
            |i: int| spec_scan_members((i + 1) as u8),
        ));
    }
    assert(frames@ =~= old(frames)@ + scan_frames());
}

} // verus!

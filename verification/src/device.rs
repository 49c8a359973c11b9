//! A member of the bus.

use vstd::prelude::*;

verus! {

/// A bus member, known by its one-byte address.
#[derive(Clone, Copy, Debug, PartialEq, Eq, Structural)]
pub struct Device {
    pub id: u8,
}

impl Device {
    /// The device that answers at address `id`.
    pub fn new(id: u8) -> (device: Self)
        ensures
            device.id == id,
    {
        Device { id }
    }
}

impl Default for Device {
    /// The device at address zero.
    fn default() -> (device: Self)
        ensures
            device.id == 0,
    {
        Device { id: 0x00 }
    }
}

} // verus!

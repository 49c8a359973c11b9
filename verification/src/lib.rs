//! Driver core for a two-wire home-automation serial bus: the wire frame codec,
//! the ring buffers that carry raw bytes and decoded frames, the frame
//! synchronisation of the listener and the decisions of the bus master.

pub mod bus;
pub mod busio;
pub mod device;
pub mod eldecode;
pub mod ringbuff;
pub mod text;

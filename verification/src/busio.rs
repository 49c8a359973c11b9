//! The listener's side of the serial line: raw bytes go in as they arrive,
//! decoded frames come out in the order of their arrival.
//!
//! The bytes are kept in a small ring buffer. Each step looks for the first
//! byte of a preamble, takes a window of fourteen bytes from there and decodes
//! it. A window that does not decode is dropped and the search goes on behind
//! it.

use crate::eldecode::{DecodeError, EltakoFrame, FRAME_LEN, PREAMBLE_FIRST};
use crate::eldecode::lemma_roundtrip;
use crate::ringbuff::{lemma_advance, lemma_append, lemma_extend, lemma_seek};
use crate::ringbuff::{RingBuff, RingState};
use vstd::prelude::*;

verus! {

/// Number of raw bytes that the listener can hold back.
pub const SCRATCH_SLOTS: usize = 100;

/// Number of decoded frames that the listener can hold for its callers.
pub const FRAME_SLOTS: usize = 1000;

/// The frame that fills the slots of a new frame buffer.
pub open spec fn blank_frame() -> EltakoFrame {
    EltakoFrame { length: 0, rorg: 0, data: 0, source: 0, status: 0 }
}

/// The error of starting a listener that is running.
#[derive(Clone, Copy, Debug, PartialEq, Eq, Structural)]
pub struct AlreadyRunning;

/// What one step of the listener found.
#[derive(Debug, PartialEq, Eq)]
pub enum Received {
    /// No complete window yet: more bytes are needed.
    Nothing,
    /// A frame, which is now the newest of the frame buffer.
    Frame(EltakoFrame),
    /// A window that did not decode, and why. It has been dropped.
    Malformed(Vec<u8>, DecodeError),
}

/// The mathematical state of the listener: the raw bytes held back and the
/// frames decoded.
pub struct SyncState {
    pub scratch: RingState<u8>,
    pub frames: RingState<EltakoFrame>,
}

impl SyncState {
    /// The state of a new listener: nothing held back, nothing decoded.
    pub open spec fn fresh() -> Self {
        SyncState {
            scratch: RingState::fresh(SCRATCH_SLOTS as nat, 0u8),
            frames: RingState::fresh(FRAME_SLOTS as nat, blank_frame()),
        }
    }

    /// Both buffers are well formed.
    pub open spec fn wf(self) -> bool {
        self.scratch.wf() && self.frames.wf()
    }

    /// The raw bytes once `bytes` have come in and the search for the first
    /// byte of a preamble has run.
    pub open spec fn synced(self, bytes: Seq<u8>) -> RingState<u8> {
        self.scratch.extend(bytes).seek(PREAMBLE_FIRST)
    }

    /// The window that a step takes once `bytes` have come in, if a whole one
    /// is there.
    pub open spec fn window(self, bytes: Seq<u8>) -> Option<Seq<u8>> {
        if self.synced(bytes).readable() >= FRAME_LEN {
            Some(self.synced(bytes).contents().take(FRAME_LEN as int))
        } else {
            None
        }
    }

    /// The state after one step on the arrival of `bytes`.
    pub open spec fn ingest(self, bytes: Seq<u8>) -> Self {
        match self.window(bytes) {
            None => SyncState { scratch: self.synced(bytes), frames: self.frames },
            Some(window) => SyncState {
                scratch: self.synced(bytes).advance(FRAME_LEN as nat),
                frames: match EltakoFrame::parse(window) {
                    Ok(frame) => self.frames.append(frame),
                    Err(_) => self.frames,
                },
            },
        }
    }
}

impl Received {
    /// Whether this is what a step on the arrival of `bytes` finds in `state`.
    pub open spec fn found_in(self, state: SyncState, bytes: Seq<u8>) -> bool {
        match self {
            Received::Nothing => state.window(bytes) is None,
            Received::Frame(frame) => state.window(bytes) matches Some(window)
                && EltakoFrame::parse(window) == Ok::<EltakoFrame, DecodeError>(frame),
            Received::Malformed(dropped, error) => state.window(bytes) matches Some(window)
                && dropped@ == window && EltakoFrame::parse(window) == Err::<
                EltakoFrame,
                DecodeError,
            >(error),
        }
    }
}

/// What the listener and its callers share, the port left aside: the raw bytes
/// held back and the decoded frames.
pub struct SerialShared {
    /// The raw bytes that no step has taken yet.
    pub temp: RingBuff<u8>,
    /// The decoded frames, oldest first.
    pub frame_buffer: RingBuff<EltakoFrame>,
}

impl View for SerialShared {
    type V = SyncState;

    open spec fn view(&self) -> SyncState {
        SyncState { scratch: self.temp@, frames: self.frame_buffer@ }
    }
}

impl SerialShared {
    /// Room for a hundred raw bytes and a thousand frames, all of it unused.
    pub fn new() -> (shared: Self)
        ensures
            shared@ == SyncState::fresh(),
    {
        SerialShared {
            temp: RingBuff::new(SCRATCH_SLOTS, 0u8),
            frame_buffer: RingBuff::new(
                FRAME_SLOTS,
                EltakoFrame { length: 0, rorg: 0, data: 0, source: 0, status: 0 },
            ),
        }
    }

    /// One step of the listener. Takes in the bytes that the port gave, drops
    /// what stands before the first byte of a preamble, and decodes the window
    /// that starts there if all fourteen bytes of it have arrived. A decoded
    /// frame goes to the frame buffer.
    pub fn ingest(&mut self, bytes: &[u8]) -> (received: Received)
        ensures
            final(self)@ == old(self)@.ingest(bytes@),
            final(self)@.wf(),
            received.found_in(old(self)@, bytes@),
    {
        let mut i: usize = 0;
        assert(bytes@.take(0) =~= Seq::<u8>::empty());
        while i < bytes.len()
            invariant
                i <= bytes@.len(),
                self.temp@ == old(self).temp@.extend(bytes@.take(i as int)),
                self.frame_buffer@ == old(self).frame_buffer@,
            decreases bytes@.len() - i,
        {
            assert(bytes@.take(i + 1).drop_last() =~= bytes@.take(i as int));
            self.temp.append(bytes[i]);
            i += 1;
        }
        assert(bytes@.take(i as int) =~= bytes@);
        proof {
            use_type_invariant(&self.frame_buffer);
        }
        match self.temp.reduce_search(PREAMBLE_FIRST) {
            Ok(()) => match self.temp.reduce_slice(FRAME_LEN) {
                Ok(frame_bytes) => match EltakoFrame::from_vec(frame_bytes.as_slice()) {
                    Ok(frame) => {
                        self.frame_buffer.append(frame);
                        Received::Frame(frame)
                    },
                    Err(error) => Received::Malformed(frame_bytes, error),
                },
                Err(_) => Received::Nothing,
            },
            Err(_) => Received::Nothing,
        }
    }
}

/// The life of a listener: idle until started, running until stopped.
pub struct SerialInterface {
    running: bool,
}

impl SerialInterface {
    /// Whether the listener has been started and not stopped since.
    pub closed spec fn is_running(&self) -> bool {
        self.running
    }

    /// An idle listener.
    pub fn new() -> (serial: Self)
        ensures
            !serial.is_running(),
    {
        SerialInterface { running: false }
    }

    /// Marks the listener as running. A listener that runs already refuses and
    /// stays as it is.
    pub fn start(&mut self) -> (result: Result<(), AlreadyRunning>)
        ensures
            result is Ok <==> !old(self).is_running(),
            final(self).is_running(),
    {
        if self.running {
            return Err(AlreadyRunning);
        }
        self.running = true;
        Ok(())
    }

    /// Marks the listener as idle again.
    pub fn stop(&mut self)
        ensures
            !final(self).is_running(),
    {
        self.running = false;
    }
}

/// One step, told by what the listener holds. With `held` the bytes held back
/// followed by the bytes that come in, and `k` the place of the first preamble
/// byte in `held` (its length where there is none): the step drops the `k`
/// bytes before that place; where fourteen bytes or more follow, it takes the
/// first fourteen as its window, and the frame buffer gains the frame that the
/// window decodes to, if it decodes.
pub proof fn lemma_ingest(state: SyncState, bytes: Seq<u8>, k: int)
    requires
        state.wf(),
        !state.scratch.lapped(),
        state.scratch.readable() + bytes.len() <= state.scratch.capacity(),
        0 <= k <= (state.scratch.contents() + bytes).len(),
        forall|i: int| 0 <= i < k ==> (state.scratch.contents() + bytes)[i] != PREAMBLE_FIRST,
        k < (state.scratch.contents() + bytes).len() ==> (state.scratch.contents() + bytes)[k]
            == PREAMBLE_FIRST,
    ensures
        state.ingest(bytes).wf(),
        !state.ingest(bytes).scratch.lapped(),
        state.ingest(bytes).scratch.capacity() == state.scratch.capacity(),
        (state.scratch.contents() + bytes).len() - k < FRAME_LEN ==> {
            &&& state.window(bytes) is None
            &&& state.ingest(bytes).scratch.contents() == (state.scratch.contents() + bytes).skip(k)
            &&& state.ingest(bytes).frames == state.frames
        },
        (state.scratch.contents() + bytes).len() - k >= FRAME_LEN ==> {
            &&& state.window(bytes) == Some(
                (state.scratch.contents() + bytes).subrange(k, k + FRAME_LEN),
            )
            &&& state.ingest(bytes).scratch.contents() == (state.scratch.contents() + bytes).skip(
                k + FRAME_LEN,
            )
            &&& state.ingest(bytes).frames == match EltakoFrame::parse(
                (state.scratch.contents() + bytes).subrange(k, k + FRAME_LEN),
            ) {
                Ok(frame) => state.frames.append(frame),
                Err(_) => state.frames,
            }
        },
{
    let held = state.scratch.contents() + bytes;
    let filled = state.scratch.extend(bytes);
    lemma_extend(state.scratch, bytes);
    assert forall|i: int| 0 <= i < k implies #[trigger] filled.contents()[i] != PREAMBLE_FIRST by {
        assert(held[i] != PREAMBLE_FIRST);
    }
    lemma_seek(filled, PREAMBLE_FIRST, k as nat);
    lemma_advance(filled, k as nat);
    let synced = state.synced(bytes);
    assert(synced == filled.advance(k as nat));
    assert(synced.contents() == held.skip(k));
    if held.len() - k >= FRAME_LEN {
        lemma_advance(synced, FRAME_LEN as nat);
        assert(synced.contents().take(FRAME_LEN as int) =~= held.subrange(k, k + FRAME_LEN));
        assert(held.skip(k).skip(FRAME_LEN as int) =~= held.skip(k + FRAME_LEN));
        match EltakoFrame::parse(held.subrange(k, k + FRAME_LEN)) {
            Ok(frame) => {
                lemma_append(state.frames, frame);
            },
            Err(_) => {},
        }
    }
}

/// Bytes that hold no preamble byte, in front of an encoded frame, do no harm:
/// a new listener that is given both at once drops the former and decodes the
/// latter in one step.
pub proof fn lemma_leading_junk(junk: Seq<u8>, frame: EltakoFrame)
    requires
        junk.len() + FRAME_LEN <= SCRATCH_SLOTS,
        forall|i: int| 0 <= i < junk.len() ==> junk[i] != PREAMBLE_FIRST,
    ensures
        SyncState::fresh().ingest(junk + frame.wire()).wf(),
        SyncState::fresh().ingest(junk + frame.wire()).frames.contents() == seq![frame],
        SyncState::fresh().ingest(junk + frame.wire()).scratch.readable() == 0,
        Received::Frame(frame).found_in(SyncState::fresh(), junk + frame.wire()),
{
    let start = SyncState::fresh();
    let bytes = junk + frame.wire();
    lemma_roundtrip(frame);
    assert(start.scratch.contents() + bytes =~= bytes);
    lemma_ingest(start, bytes, junk.len() as int);
    assert(bytes.subrange(junk.len() as int, junk.len() + FRAME_LEN) =~= frame.wire());
    lemma_append(start.frames, frame);
    assert(start.frames.contents().push(frame) =~= seq![frame]);
    assert(start.ingest(bytes).scratch.contents().len() == 0);
}

/// Resynchronisation. A new listener is given a window of fourteen bytes that
/// does not decode, followed at once by an encoded frame. Provided that the
/// window holds no preamble byte behind its first byte, two steps leave that
/// frame, and nothing else, in the frame buffer, and no byte held back; a
/// further step without new bytes changes nothing.
pub proof fn lemma_resync(bad: Seq<u8>, frame: EltakoFrame)
    requires
        bad.len() == FRAME_LEN,
        EltakoFrame::parse(bad) is Err,
        forall|i: int| 1 <= i < FRAME_LEN ==> bad[i] != PREAMBLE_FIRST,
    ensures
        SyncState::fresh().ingest(bad + frame.wire()).ingest(Seq::empty()).wf(),
        SyncState::fresh().ingest(bad + frame.wire()).ingest(Seq::empty()).frames.contents()
            == seq![frame],
        SyncState::fresh().ingest(bad + frame.wire()).ingest(Seq::empty()).scratch.readable() == 0,
        SyncState::fresh().ingest(bad + frame.wire()).ingest(Seq::empty()).ingest(Seq::empty())
            == SyncState::fresh().ingest(bad + frame.wire()).ingest(Seq::empty()),
{
    let start = SyncState::fresh();
    let bytes = bad + frame.wire();
    let none = Seq::<u8>::empty();
    lemma_roundtrip(frame);
    assert(start.scratch.contents() + bytes =~= bytes);
    let first = start.ingest(bytes);
    let second = first.ingest(none);
    if bad[0] == PREAMBLE_FIRST {
        lemma_ingest(start, bytes, 0);
        assert(bytes.subrange(0, FRAME_LEN as int) =~= bad);
        assert(bytes.skip(FRAME_LEN as int) =~= frame.wire());
        assert(first.frames == start.frames);
        assert(first.scratch.contents() + none =~= frame.wire());
        lemma_ingest(first, none, 0);
        assert(frame.wire().subrange(0, FRAME_LEN as int) =~= frame.wire());
        assert(second.frames == start.frames.append(frame));
    } else {
        lemma_ingest(start, bytes, FRAME_LEN as int);
        assert(bytes.subrange(FRAME_LEN as int, FRAME_LEN + FRAME_LEN) =~= frame.wire());
        assert(first.frames == start.frames.append(frame));
        assert(first.scratch.contents() + none =~= Seq::<u8>::empty());
        lemma_ingest(first, none, 0);
        assert(second.frames == first.frames);
    }
    lemma_append(start.frames, frame);
    assert(start.frames.contents().push(frame) =~= seq![frame]);
    assert(second.scratch.contents() + none =~= Seq::<u8>::empty());
    lemma_ingest(second, none, 0);
    lemma_idle(second);
}

/// A step without new bytes on a listener that holds none back changes
/// nothing.
pub proof fn lemma_idle(state: SyncState)
    requires
        state.wf(),
        state.scratch.readable() == 0,
    ensures
        state.ingest(Seq::empty()) == state,
{
    let none = Seq::<u8>::empty();
    assert(state.scratch.extend(none) == state.scratch);
}

/// Frames keep the order of their arrival: a step leaves the frame buffer as
/// it is or puts one frame behind those that are unread, as long as the buffer
/// has room.
pub proof fn lemma_ingest_order(state: SyncState, bytes: Seq<u8>)
    requires
        state.wf(),
        state.frames.readable() < state.frames.capacity(),
    ensures
        state.ingest(bytes).frames.wf(),
        match state.window(bytes) {
            Some(window) => match EltakoFrame::parse(window) {
                Ok(frame) => state.ingest(bytes).frames.contents()
                    == state.frames.contents().push(frame),
                Err(_) => state.ingest(bytes).frames == state.frames,
            },
            None => state.ingest(bytes).frames == state.frames,
        },
{
    match state.window(bytes) {
        Some(window) => match EltakoFrame::parse(window) {
            Ok(frame) => {
                lemma_append(state.frames, frame);
            },
            Err(_) => {},
        },
        None => {},
    }
}

} // verus!

//! The framing state machine: length-prefixed packets out of a byte stream.
use vstd::prelude::*;
use std::collections::VecDeque;
use crate::settings::{ByteOrder, Settings};
use crate::size::{
    SIZE_PREFIX_LEN, decode_size, encode_size, size_prefix, size_value,
};

verus! {

/// Largest payload that [`Simple::new`] accepts: 64 MiB.
pub const DEFAULT_MAX_PACKET_SIZE: u32 = 67108864;

/// Capacity of the scratch buffer that a stream is read into.
pub const BUFFER_SIZE: usize = 10000;

/// Where the state machine stands, as a mathematical value.
pub enum FramePhase {
    /// Collecting the bytes of a size prefix.
    AwaitingSize(Seq<u8>),
    /// Collecting the payload of a frame that declared `size` bytes.
    AwaitingPacket { size: nat, received: Seq<u8> },
    /// A size prefix declared `size` bytes, more than the limit: nothing more is read.
    Failed { size: nat },
}

/// The state of the machine: its phase, and the completed packets not yet taken.
pub struct FrameModel {
    pub phase: FramePhase,
    pub packets: Seq<Seq<u8>>,
}

/// A freshly constructed machine: no bytes collected, no packets queued.
pub open spec fn initial_model() -> FrameModel {
    FrameModel { phase: FramePhase::AwaitingSize(Seq::empty()), packets: Seq::empty() }
}

/// The effect of one incoming byte `b`, where payloads longer than `max` are refused.
pub open spec fn step(m: FrameModel, order: ByteOrder, max: nat, b: u8) -> FrameModel {
    match m.phase {
        FramePhase::AwaitingSize(h) => {
            let h2 = h.push(b);
            if h2.len() < 4 {
                FrameModel { phase: FramePhase::AwaitingSize(h2), packets: m.packets }
            } else {
                let n = size_value(h2, order);
                if n > max {
                    FrameModel { phase: FramePhase::Failed { size: n }, packets: m.packets }
                } else if n == 0 {
                    FrameModel {
                        phase: FramePhase::AwaitingSize(Seq::empty()),
                        packets: m.packets.push(Seq::empty()),
                    }
                } else {
                    FrameModel {
                        phase: FramePhase::AwaitingPacket { size: n, received: Seq::empty() },
                        packets: m.packets,
                    }
                }
            }
        },
        FramePhase::AwaitingPacket { size, received } => {
            let r2 = received.push(b);
            if r2.len() == size {
                FrameModel {
                    phase: FramePhase::AwaitingSize(Seq::empty()),
                    packets: m.packets.push(r2),
                }
            } else {
                FrameModel {
                    phase: FramePhase::AwaitingPacket { size, received: r2 },
                    packets: m.packets,
                }
            }
        },
        FramePhase::Failed { size } => m,
    }
}

/// The effect of the bytes `bytes`, consumed in order.
pub open spec fn feed(m: FrameModel, order: ByteOrder, max: nat, bytes: Seq<u8>) -> FrameModel
    decreases bytes.len(),
{
    if bytes.len() == 0 {
        m
    } else {
        step(feed(m, order, max, bytes.drop_last()), order, max, bytes.last())
    }
}

/// The frame that carries `payload`: its size prefix, then the payload.
pub open spec fn frame(payload: Seq<u8>, order: ByteOrder) -> Seq<u8> {
    size_prefix(payload.len(), order) + payload
}

/// The phase invariant: partial buffers are always short of completion.
pub open spec fn phase_wf(p: FramePhase, max: nat) -> bool {
    match p {
        FramePhase::AwaitingSize(h) => h.len() < 4,
        FramePhase::AwaitingPacket { size, received } => 0 < size && size <= max
            && received.len() < size,
        FramePhase::Failed { size } => size > max,
    }
}

/// Why incoming or outgoing bytes could not be framed.
#[derive(Clone, Copy, Debug, PartialEq, Eq, Structural)]
pub enum FrameError {
    /// A size prefix declared `size` bytes, more than the limit `max`.
    Oversized { size: u32, max: u32 },
    /// A payload of `len` bytes does not fit a four-byte size prefix.
    PayloadTooLong { len: usize },
}

/// What the reader of a stream should do after handing a read to [`Simple::process_read`].
#[derive(Clone, Copy, Debug, PartialEq, Eq, Structural)]
pub enum ReadOutcome {
    /// The read filled the scratch buffer: more bytes may be waiting.
    ReadMore,
    /// The read was short: stop polling for now.
    Idle,
    /// The read returned no bytes: the stream is closed.
    Closed,
}

#[derive(Clone, Debug)]
enum State {
    AwaitingSize(Vec<u8>),
    AwaitingPacket { size: u32, received_data: Vec<u8> },
    Failed { size: u32 },
}

impl State {
    spec fn view(&self) -> FramePhase {
        match self {
            State::AwaitingSize(h) => FramePhase::AwaitingSize(h@),
            State::AwaitingPacket { size, received_data } => FramePhase::AwaitingPacket {
                size: *size as nat,
                received: received_data@,
            },
            State::Failed { size } => FramePhase::Failed { size: *size as nat },
        }
    }
}

/// A framing state machine over an in-memory byte sequence.
#[derive(Clone, Debug)]
pub struct Simple {
    state: State,
    packets: VecDeque<Vec<u8>>,
    max_packet_size: u32,
}

impl View for Simple {
    type V = FrameModel;

    closed spec fn view(&self) -> FrameModel {
        FrameModel {
            phase: self.state.view(),
            packets: self.packets@.map_values(|v: Vec<u8>| v@),
        }
    }
}

/// Consumes one byte in phase `state`; returns the next phase and the packet it completed.
fn advance(state: State, b: u8, order: ByteOrder, max: u32) -> (r: (State, Option<Vec<u8>>))
    requires
        phase_wf(state.view(), max as nat),
        !(state.view() is Failed),
    ensures
        phase_wf(r.0.view(), max as nat),
        ({
            let m = FrameModel { phase: state.view(), packets: Seq::empty() };
            let m2 = step(m, order, max as nat, b);
            &&& r.0.view() == m2.phase
            &&& match r.1 {
                Some(p) => m2.packets == seq![p@],
                None => m2.packets == Seq::<Seq<u8>>::empty(),
            }
        }),
{
    let ghost m0 = FrameModel { phase: state.view(), packets: Seq::empty() };
    match state {
        State::AwaitingSize(mut h) => {
            h.push(b);
            if h.len() < SIZE_PREFIX_LEN {
                (State::AwaitingSize(h), None)
            } else {
                let n = decode_size(h.as_slice(), order);
                if n > max {
                    (State::Failed { size: n }, None)
                } else if n == 0 {
                    assert(step(m0, order, max as nat, b).packets =~= seq![Seq::<u8>::empty()]);
                    (State::AwaitingSize(Vec::new()), Some(Vec::new()))
                } else {
                    (State::AwaitingPacket { size: n, received_data: Vec::new() }, None)
                }
            }
        },
        State::AwaitingPacket { size, mut received_data } => {
            received_data.push(b);
            if received_data.len() == size as usize {
                (State::AwaitingSize(Vec::new()), Some(received_data))
            } else {
                (State::AwaitingPacket { size, received_data }, None)
            }
        },
        State::Failed { size } => (State::Failed { size }, None),
    }
}

/// A step depends on the phase alone: it only appends to the queued packets.
proof fn lemma_step_appends(m: FrameModel, order: ByteOrder, max: nat, b: u8)
    ensures
        ({
            let e = step(FrameModel { phase: m.phase, packets: Seq::empty() }, order, max, b);
            &&& step(m, order, max, b).phase == e.phase
            &&& step(m, order, max, b).packets == m.packets + e.packets
        }),
{
    let e = step(FrameModel { phase: m.phase, packets: Seq::empty() }, order, max, b);
    assert(m.packets + e.packets =~= step(m, order, max, b).packets);
}

/// The payloads that a queue of buffers holds.
pub open spec fn payloads_of(q: Seq<Vec<u8>>) -> Seq<Seq<u8>> {
    q.map_values(|v: Vec<u8>| v@)
}

impl Simple {
    /// The largest payload that this machine accepts.
    pub closed spec fn max_size(&self) -> nat {
        self.max_packet_size as nat
    }

    /// The machine's invariant: its phase is consistent with its limit.
    pub closed spec fn wf(&self) -> bool {
        phase_wf(self.state.view(), self.max_packet_size as nat)
    }

    /// Creates a machine that accepts payloads of up to [`DEFAULT_MAX_PACKET_SIZE`] bytes.
    pub fn new() -> (r: Simple)
        ensures
            r.wf(),
            r@ == initial_model(),
            r.max_size() == DEFAULT_MAX_PACKET_SIZE as nat,
    {
        Simple::with_max_packet_size(DEFAULT_MAX_PACKET_SIZE)
    }

    /// Creates a machine that refuses any frame declaring more than `max` payload bytes.
    pub fn with_max_packet_size(max: u32) -> (r: Simple)
        ensures
            r.wf(),
            r@ == initial_model(),
            r.max_size() == max as nat,
    {
        let r = Simple {
            state: State::AwaitingSize(Vec::new()),
            packets: VecDeque::new(),
            max_packet_size: max,
        };
        assert(r@.packets =~= Seq::<Seq<u8>>::empty());
        r
    }

    /// The largest payload that this machine accepts.
    pub fn max_packet_size(&self) -> (r: u32)
        ensures
            r as nat == self.max_size(),
    {
        self.max_packet_size
    }

    /// Number of completed packets waiting to be taken.
    pub fn queued_packets(&self) -> (r: usize)
        ensures
            r == self@.packets.len(),
    {
        self.packets.len()
    }

    /// Consumes `bytes` in order, queueing each packet that they complete.
    ///
    /// Fails once a size prefix declares more than the limit; from then on the
    /// machine reads nothing more, though packets completed before stay queued.
    pub fn process_bytes(&mut self, bytes: &[u8], settings: &Settings) -> (r: Result<(), FrameError>)
        requires
            old(self).wf(),
        ensures
            final(self).wf(),
            final(self).max_size() == old(self).max_size(),
            final(self)@ == feed(old(self)@, settings.byte_order, old(self).max_size(), bytes@),
            match r {
                Ok(()) => !(final(self)@.phase is Failed),
                Err(e) => final(self)@.phase is Failed && e == (FrameError::Oversized {
                    size: final(self)@.phase->Failed_size as u32,
                    max: old(self).max_size() as u32,
                }),
            },
    {
        let order = settings.byte_order;
        let max = self.max_packet_size;
        let ghost m0 = self@;
        let mut st = State::AwaitingSize(Vec::new());
        std::mem::swap(&mut st, &mut self.state);
        let len = bytes.len();
        let mut i: usize = 0;
        while i < len
            invariant
                0 <= i <= len,
                len == bytes@.len(),
                max == self.max_packet_size,
                phase_wf(st.view(), max as nat),
                (FrameModel { phase: st.view(), packets: payloads_of(self.packets@) }) == feed(
                    m0,
                    order,
                    max as nat,
                    bytes@.subrange(0, i as int),
                ),
            decreases len - i,
        {
            let ghost before = FrameModel { phase: st.view(), packets: payloads_of(self.packets@) };
            assert(bytes@.subrange(0, i + 1).drop_last() =~= bytes@.subrange(0, i as int));
            let b = bytes[i];
            proof {
                lemma_step_appends(before, order, max as nat, b);
            }
            if !matches!(st, State::Failed { .. }) {
                let (next, done) = advance(st, b, order, max);
                st = next;
                match done {
                    Some(p) => {
                        self.packets.push_back(p);
                        assert(payloads_of(self.packets@) =~= before.packets.push(p@));
                        assert(before.packets.push(p@) =~= before.packets + seq![p@]);
                    },
                    None => {
                        assert(before.packets =~= before.packets + Seq::<Seq<u8>>::empty());
                    },
                }
            }
            i = i + 1;
        }
        assert(bytes@.subrange(0, len as int) =~= bytes@);
        let r = match st {
            State::Failed { size } => Err(FrameError::Oversized { size, max }),
            _ => Ok(()),
        };
        self.state = st;
        r
    }

    /// Consumes the bytes of one read of at most [`BUFFER_SIZE`] bytes and says
    /// whether the reader should read again.
    pub fn process_read(&mut self, bytes: &[u8], settings: &Settings) -> (r: Result<
        ReadOutcome,
        FrameError,
    >)
        requires
            old(self).wf(),
            bytes@.len() <= BUFFER_SIZE,
        ensures
            final(self).wf(),
            final(self).max_size() == old(self).max_size(),
            final(self)@ == feed(old(self)@, settings.byte_order, old(self).max_size(), bytes@),
            match r {
                Ok(o) => !(final(self)@.phase is Failed) && o == (if bytes@.len() == 0 {
                    ReadOutcome::Closed
                } else if bytes@.len() == BUFFER_SIZE {
                    ReadOutcome::ReadMore
                } else {
                    ReadOutcome::Idle
                }),
                Err(e) => final(self)@.phase is Failed && e == (FrameError::Oversized {
                    size: final(self)@.phase->Failed_size as u32,
                    max: old(self).max_size() as u32,
                }),
            },
    {
        match self.process_bytes(bytes, settings) {
            Err(e) => Err(e),
            Ok(()) => {
                if bytes.len() == 0 {
                    Ok(ReadOutcome::Closed)
                } else if bytes.len() == BUFFER_SIZE {
                    Ok(ReadOutcome::ReadMore)
                } else {
                    Ok(ReadOutcome::Idle)
                }
            },
        }
    }

    /// Takes the oldest completed packet, if any.
    pub fn receive_raw_packet(&mut self) -> (r: Option<Vec<u8>>)
        requires
            old(self).wf(),
        ensures
            final(self).wf(),
            final(self).max_size() == old(self).max_size(),
            final(self)@.phase == old(self)@.phase,
            match r {
                Some(p) => old(self)@.packets.len() > 0 && p@ == old(self)@.packets[0]
                    && final(self)@.packets == old(self)@.packets.drop_first(),
                None => old(self)@.packets.len() == 0 && final(self)@.packets
                    == old(self)@.packets,
            },
    {
        let r = self.packets.pop_front();
        proof {
            if r is Some {
                assert(payloads_of(self.packets@) =~= payloads_of(old(self).packets@).drop_first());
            }
        }
        r
    }
}

/// Builds the frame that carries `payload`: its size prefix, then the payload.
///
/// Fails only where the payload's length does not fit the four-byte prefix.
pub fn frame_packet(payload: &[u8], settings: &Settings) -> (r: Result<Vec<u8>, FrameError>)
    ensures
        match r {
            Ok(f) => payload@.len() <= u32::MAX && f@ == frame(payload@, settings.byte_order),
            Err(e) => payload@.len() > u32::MAX && e == (FrameError::PayloadTooLong {
                len: payload@.len() as usize,
            }),
        },
{
    if payload.len() > u32::MAX as usize {
        return Err(FrameError::PayloadTooLong { len: payload.len() });
    }
    let mut f = encode_size(payload.len() as u32, settings.byte_order);
    let ghost prefix = f@;
    let mut i: usize = 0;
    while i < payload.len()
        invariant
            0 <= i <= payload@.len(),
            f@ == prefix + payload@.subrange(0, i as int),
        decreases payload@.len() - i,
    {
        f.push(payload[i]);
        assert(f@ =~= prefix + payload@.subrange(0, i + 1));
        i = i + 1;
    }
    assert(payload@.subrange(0, payload@.len() as int) =~= payload@);
    Ok(f)
}

} // verus!
